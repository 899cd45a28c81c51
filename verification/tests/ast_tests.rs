use mediawiki_parser::ast::{
    duplicate, positions_equal_or_dont_care, Element, MarkupType, Paragraph, Position, Span,
    TagAttribute, Text,
};

fn text_at(s: &str, span: Span) -> Element {
    Element::Text(Text { position: span, text: String::from(s) })
}

#[test]
fn wildcard_positions_compare_equal_to_anything() {
    let any = Position { offset: 0, line: 0, col: 0 };
    let real = Position { offset: 7, line: 2, col: 3 };
    let other = Position { offset: 9, line: 4, col: 1 };
    assert!(positions_equal_or_dont_care(&any, &real));
    assert!(positions_equal_or_dont_care(&real, &any));
    assert!(positions_equal_or_dont_care(&real, &real));
    assert!(!positions_equal_or_dont_care(&real, &other));
    // Plain equality stays strict.
    assert_ne!(any, real);
}

#[test]
fn tag_names_map_to_markup_types() {
    assert_eq!(MarkupType::by_tag_name("math"), MarkupType::Math);
    assert_eq!(MarkupType::by_tag_name("del"), MarkupType::StrikeThrough);
    assert_eq!(MarkupType::by_tag_name("s"), MarkupType::StrikeThrough);
    assert_eq!(MarkupType::by_tag_name("nowiki"), MarkupType::NoWiki);
    assert_eq!(MarkupType::by_tag_name("u"), MarkupType::Underline);
    assert_eq!(MarkupType::by_tag_name("ins"), MarkupType::Underline);
    assert_eq!(MarkupType::by_tag_name("code"), MarkupType::Code);
    assert_eq!(MarkupType::by_tag_name("blockquote"), MarkupType::Blockquote);
    assert_eq!(MarkupType::by_tag_name("pre"), MarkupType::Preformatted);
}

#[test]
fn tag_lookup_lowercases_first() {
    assert_eq!(MarkupType::by_tag_name("MATH"), MarkupType::Math);
    assert_eq!(MarkupType::by_tag_name("DeL"), MarkupType::StrikeThrough);
    assert_eq!(MarkupType::try_by_tag_name("Pre"), Some(MarkupType::Preformatted));
}

#[test]
fn unknown_tags_yield_none() {
    assert_eq!(MarkupType::try_by_tag_name("div"), None);
    assert_eq!(MarkupType::try_by_tag_name(""), None);
}

#[test]
fn variant_names_follow_the_variant() {
    let t = text_at("x", Span::any());
    assert_eq!(t.get_variant_name(), "Text");
    let p = Element::Paragraph(Paragraph { position: Span::any(), content: vec![] });
    assert_eq!(p.get_variant_name(), "Paragraph");
}

#[test]
fn positions_can_be_read_and_replaced() {
    let span = Span {
        start: Position { offset: 1, line: 1, col: 2 },
        end: Position { offset: 3, line: 1, col: 4 },
    };
    let mut t = text_at("x", span);
    assert_eq!(*t.get_position(), span);
    let other = Span::any();
    t.set_position(other);
    assert_eq!(*t.get_position(), other);
    let span2 = Span {
        start: Position { offset: 5, line: 2, col: 1 },
        end: Position { offset: 6, line: 2, col: 2 },
    };
    *t.get_position_mut() = span2;
    assert_eq!(*t.get_position(), span2);
}

#[test]
fn duplicate_builds_an_equal_tree() {
    let p = Element::Paragraph(Paragraph {
        position: Span::any(),
        content: vec![text_at("a", Span::any()), text_at("b", Span::any())],
    });
    let copy = duplicate(&p);
    assert_eq!(copy, p);
}

#[test]
fn tag_attribute_new_keeps_its_fields() {
    let a = TagAttribute::new(Span::any(), String::from("k"), String::from("v"));
    assert_eq!(a.key.as_str(), "k");
    assert_eq!(a.value.as_str(), "v");
    assert_eq!(a.position, Span::any());
}
