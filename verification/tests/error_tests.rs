use mediawiki_parser::ast::{Element, Position, Span, Text};
use mediawiki_parser::error::{GrammarError, MWError, ParseError, TransformationError};

#[test]
fn parse_errors_carry_position_and_context() {
    let err = GrammarError { offset: 2, line: 2, expected: vec![String::from("x")] };
    let wrapped = ParseError::from(&err, "a\nb\nc");
    assert_eq!(wrapped.position, Position { offset: 2, line: 2, col: 1 });
    assert_eq!(wrapped.expected, vec![String::from("x")]);
    assert_eq!(
        wrapped.context,
        vec![String::from("a"), String::from("b"), String::from("c")]
    );
    assert_eq!(wrapped.context_start, 0);
    assert_eq!(wrapped.context_end, 2);
}

#[test]
fn the_context_window_clamps_to_the_document() {
    let mut src = String::new();
    for i in 0..20 {
        src.push_str(&format!("line{}\n", i));
    }
    let err = GrammarError { offset: 0, line: 10, expected: vec![] };
    let wrapped = ParseError::from(&err, src.as_str());
    // The failing line has index 9; five lines on each side.
    assert_eq!(wrapped.context_start, 4);
    assert_eq!(wrapped.context_end, 14);
    assert_eq!(wrapped.context.len(), 11);
    assert_eq!(wrapped.context[0].as_str(), "line4");
}

#[test]
fn whitespace_tokens_are_quoted_and_escaped() {
    let err = GrammarError {
        offset: 0,
        line: 1,
        expected: vec![String::from("\t"), String::from("\n"), String::from(" ")],
    };
    let wrapped = ParseError::from(&err, "a");
    let rendered = wrapped.to_text();
    assert_eq!(
        rendered.as_str(),
        "ERROR in line 1 at column 1: Could not continue to parse, expected one of: \
         \"\\t\", \"\\n\", \" \"\n1 | a\n"
    );
}

#[test]
fn parse_error_text_is_exact() {
    let err = GrammarError {
        offset: 2,
        line: 2,
        expected: vec![String::from("x"), String::from(" ")],
    };
    let wrapped = ParseError::from(&err, "a\nb\nc");
    let rendered = wrapped.to_text();
    assert_eq!(
        rendered.as_str(),
        "ERROR in line 2 at column 1: Could not continue to parse, expected one of: x, \" \"\n\
         1 | a\n2 | b\n3 | c\n"
    );
}

#[test]
fn transformation_error_text_is_exact() {
    let e = TransformationError {
        cause: String::from("boom"),
        position: Span {
            start: Position { offset: 0, line: 1, col: 2 },
            end: Position { offset: 5, line: 3, col: 4 },
        },
        transformation_name: String::from("some_pass"),
        tree: Element::Text(Text { position: Span::any(), text: String::from("x") }),
    };
    assert_eq!(
        e.to_text().as_str(),
        "ERROR applying transformation \"some_pass\" to Elemtn at 1:2 to 3:4: boom\n"
    );
}

#[test]
fn unified_errors_render_their_kind() {
    let e = TransformationError {
        cause: String::from("boom"),
        position: Span::any(),
        transformation_name: String::from("p"),
        tree: Element::Text(Text { position: Span::any(), text: String::from("x") }),
    };
    let unified = MWError::TransformationError(e);
    assert_eq!(
        unified.to_text().as_str(),
        "ERROR applying transformation \"p\" to Elemtn at 0:0 to 0:0: boom\n"
    );
}

#[test]
fn terminal_text_contains_the_plain_message() {
    let e = TransformationError {
        cause: String::from("boom"),
        position: Span::any(),
        transformation_name: String::from("p"),
        tree: Element::Text(Text { position: Span::any(), text: String::from("x") }),
    };
    let plain = "ERROR applying transformation \"p\" to Elemtn at 0:0 to 0:0: boom";
    assert!(e.to_terminal_text().contains(plain));
}

#[test]
fn parse_wraps_grammar_failures() {
    let err = GrammarError { offset: 2, line: 2, expected: vec![String::from("x")] };
    let r = mediawiki_parser::parse("a\nb\nc", Err(err));
    match r.unwrap_err() {
        MWError::ParseError(p) => {
            assert_eq!(p.position, Position { offset: 2, line: 2, col: 1 });
        }
        other => panic!("expected a parse error, got {:?}", other),
    }
}

#[test]
fn parse_runs_the_pipeline_on_a_parsed_tree() {
    let tree = Element::Text(Text { position: Span::any(), text: String::from("x") });
    let expected = Element::Text(Text { position: Span::any(), text: String::from("x") });
    let r = mediawiki_parser::parse("x", Ok(tree));
    assert_eq!(r.unwrap(), expected);
}
