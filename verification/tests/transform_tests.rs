use mediawiki_parser::ast::{
    Document, Element, Heading, List, ListItem, ListItemKind, Paragraph, Span, Template,
    TemplateArgument, Text,
};
use mediawiki_parser::default_transformations::{
    collapse_consecutive_text, collapse_paragraphs, enumerate_anon_args,
    fold_headings_transformation, fold_lists_transformation, whitespace_paragraphs_to_empty,
    GeneralSettings,
};
use mediawiki_parser::run_pipeline;

fn text(s: &str) -> Element {
    Element::Text(Text { position: Span::any(), text: String::from(s) })
}

fn paragraph(content: Vec<Element>) -> Element {
    Element::Paragraph(Paragraph { position: Span::any(), content })
}

fn heading(depth: usize, content: Vec<Element>) -> Element {
    Element::Heading(Heading { position: Span::any(), depth, caption: vec![], content })
}

fn item(depth: usize, content: Vec<Element>) -> Element {
    Element::ListItem(ListItem {
        position: Span::any(),
        depth,
        kind: ListItemKind::Unordered,
        content,
    })
}

fn document(content: Vec<Element>) -> Element {
    Element::Document(Document { position: Span::any(), content })
}

#[test]
fn headings_fold_into_a_hierarchy() {
    let input = document(vec![
        heading(1, vec![]),
        heading(2, vec![]),
        heading(2, vec![]),
        heading(1, vec![]),
        heading(3, vec![]),
    ]);
    let settings = GeneralSettings {};
    let result = fold_headings_transformation(input, &settings).unwrap();
    let expected = document(vec![
        heading(1, vec![heading(2, vec![]), heading(2, vec![])]),
        heading(1, vec![heading(3, vec![])]),
    ]);
    assert_eq!(result, expected);
}

#[test]
fn deeper_list_items_move_into_sublists() {
    let input = Element::List(List {
        position: Span::any(),
        content: vec![
            item(1, vec![text("a")]),
            item(2, vec![text("b")]),
            item(2, vec![text("c")]),
            item(1, vec![text("d")]),
        ],
    });
    let settings = GeneralSettings {};
    let result = fold_lists_transformation(input, &settings).unwrap();
    let expected = Element::List(List {
        position: Span::any(),
        content: vec![
            item(
                1,
                vec![
                    text("a"),
                    Element::List(List {
                        position: Span::any(),
                        content: vec![item(2, vec![text("b")]), item(2, vec![text("c")])],
                    }),
                ],
            ),
            item(1, vec![text("d")]),
        ],
    });
    assert_eq!(result, expected);
}

#[test]
fn leading_deeper_items_get_a_placeholder_sibling() {
    let input = Element::List(List {
        position: Span::any(),
        content: vec![item(2, vec![text("b")]), item(1, vec![text("a")])],
    });
    let settings = GeneralSettings {};
    let result = fold_lists_transformation(input, &settings).unwrap();
    let expected = Element::List(List {
        position: Span::any(),
        content: vec![
            item(
                1,
                vec![Element::List(List {
                    position: Span::any(),
                    content: vec![item(2, vec![text("b")])],
                })],
            ),
            item(1, vec![text("a")]),
        ],
    });
    assert_eq!(result, expected);
}

#[test]
fn whitespace_paragraphs_become_empty() {
    let input = document(vec![paragraph(vec![text("  \t")])]);
    let settings = GeneralSettings {};
    let result = whitespace_paragraphs_to_empty(input, &settings).unwrap();
    let expected = document(vec![paragraph(vec![])]);
    assert_eq!(result, expected);
}

#[test]
fn adjacent_paragraphs_collapse_with_a_space() {
    let input = document(vec![
        paragraph(vec![text("one")]),
        paragraph(vec![text("two")]),
    ]);
    let settings = GeneralSettings {};
    let result = collapse_paragraphs(input, &settings).unwrap();
    let expected = document(vec![paragraph(vec![text("one"), text(" "), text("two")])]);
    assert_eq!(result, expected);
}

#[test]
fn a_blank_paragraph_prevents_collapsing() {
    let input = document(vec![
        paragraph(vec![text("one")]),
        paragraph(vec![]),
        paragraph(vec![text("two")]),
    ]);
    let settings = GeneralSettings {};
    let result = collapse_paragraphs(input, &settings).unwrap();
    let expected = document(vec![paragraph(vec![text("one")]), paragraph(vec![text("two")])]);
    assert_eq!(result, expected);
}

#[test]
fn consecutive_text_collapses_and_whitespace_shrinks() {
    let input = paragraph(vec![text("a"), text("  "), text("b")]);
    let settings = GeneralSettings {};
    let result = collapse_consecutive_text(input, &settings).unwrap();
    let expected = paragraph(vec![text("a b")]);
    assert_eq!(result, expected);
}

#[test]
fn anonymous_arguments_are_numbered() {
    let arg = |name: &str| {
        Element::TemplateArgument(TemplateArgument {
            position: Span::any(),
            name: String::from(name),
            value: vec![],
        })
    };
    let input = Element::Template(Template {
        position: Span::any(),
        name: vec![text("t")],
        content: vec![arg(""), arg("foo"), arg("")],
    });
    let settings = GeneralSettings {};
    let result = enumerate_anon_args(input, &settings).unwrap();
    let expected = Element::Template(Template {
        position: Span::any(),
        name: vec![text("t")],
        content: vec![arg("1"), arg("foo"), arg("2")],
    });
    assert_eq!(result, expected);
}

#[test]
fn a_nonitem_in_a_list_is_rejected_by_name() {
    let input = Element::List(List { position: Span::any(), content: vec![text("x")] });
    let settings = GeneralSettings {};
    let err = fold_lists_transformation(input, &settings).unwrap_err();
    assert_eq!(err.transformation_name.as_str(), "fold_lists_transformation");
    assert_eq!(err.cause.as_str(), "A list should not contain non-listitems.");
}

#[test]
fn a_nonheading_after_a_heading_is_rejected_by_name() {
    let input = document(vec![heading(1, vec![]), text("x")]);
    let settings = GeneralSettings {};
    let err = fold_headings_transformation(input, &settings).unwrap_err();
    assert_eq!(err.transformation_name.as_str(), "fold_headings_transformation");
    assert_eq!(
        err.cause.as_str(),
        "a non-heading element was found after a heading. This should not happen."
    );
}

#[test]
fn the_pipeline_is_deterministic() {
    let build = || {
        document(vec![
            heading(1, vec![]),
            heading(2, vec![paragraph(vec![text("a"), text("  "), text("b")])]),
        ])
    };
    let once = run_pipeline(build()).unwrap();
    let twice = run_pipeline(build()).unwrap();
    assert_eq!(once, twice);
}

#[test]
fn the_pipeline_runs_every_pass() {
    let arg = |name: &str| {
        Element::TemplateArgument(TemplateArgument {
            position: Span::any(),
            name: String::from(name),
            value: vec![],
        })
    };
    let input = document(vec![
        heading(1, vec![]),
        heading(
            2,
            vec![
                paragraph(vec![text("x"), text(" \t")]),
                paragraph(vec![text("y")]),
                Element::Template(Template {
                    position: Span::any(),
                    name: vec![text("t")],
                    content: vec![arg("")],
                }),
            ],
        ),
    ]);
    let result = run_pipeline(input).unwrap();
    let expected = document(vec![heading(
        1,
        vec![heading(
            2,
            vec![
                paragraph(vec![text("x  y")]),
                Element::Template(Template {
                    position: Span::any(),
                    name: vec![text("t")],
                    content: vec![arg("1")],
                }),
            ],
        )],
    )]);
    assert_eq!(result, expected);
}

#[test]
fn whitespace_pass_is_idempotent() {
    let input = document(vec![
        paragraph(vec![text(" \t")]),
        paragraph(vec![text("kept")]),
    ]);
    let settings = GeneralSettings {};
    let once = whitespace_paragraphs_to_empty(input, &settings).unwrap();
    let expected = document(vec![paragraph(vec![]), paragraph(vec![text("kept")])]);
    assert_eq!(once, expected);
    let twice = whitespace_paragraphs_to_empty(expected, &settings).unwrap();
    let again = document(vec![paragraph(vec![]), paragraph(vec![text("kept")])]);
    assert_eq!(twice, again);
}

#[test]
fn text_collapse_is_idempotent() {
    let input = paragraph(vec![text("a"), text("b"), paragraph(vec![]), text("c"), text("d")]);
    let settings = GeneralSettings {};
    let once = collapse_consecutive_text(input, &settings).unwrap();
    let expected = paragraph(vec![text("ab"), paragraph(vec![]), text("cd")]);
    assert_eq!(once, expected);
    let twice = collapse_consecutive_text(expected, &settings).unwrap();
    let again = paragraph(vec![text("ab"), paragraph(vec![]), text("cd")]);
    assert_eq!(twice, again);
}
