use mediawiki_parser::ast::{duplicate, Document, Element, Paragraph, Span, Text};
use mediawiki_parser::error::TransformationError;
use mediawiki_parser::transformations::{
    apply_func_drain, recurse_clone, recurse_inplace, TResult,
};

fn sample() -> Element {
    Element::Document(Document {
        position: Span::any(),
        content: vec![Element::Paragraph(Paragraph {
            position: Span::any(),
            content: vec![Element::Text(Text {
                position: Span::any(),
                text: String::from("x"),
            })],
        })],
    })
}

#[test]
fn the_identity_transformation_keeps_the_tree() {
    let f = |e: Element, _s: ()| -> TResult { Ok(e) };
    let result = recurse_inplace(&f, sample(), ()).unwrap();
    assert_eq!(result, sample());
}

#[test]
fn errors_from_the_transformation_stop_the_recursion() {
    let f = |e: Element, _s: ()| -> TResult {
        match e {
            Element::Text(_) => Err(TransformationError {
                cause: String::from("no text allowed"),
                position: Span::any(),
                transformation_name: String::from("test"),
                tree: e,
            }),
            other => Ok(other),
        }
    };
    let paragraph = Element::Paragraph(Paragraph {
        position: Span::any(),
        content: vec![Element::Text(Text { position: Span::any(), text: String::from("x") })],
    });
    let err = recurse_inplace(&f, paragraph, ()).unwrap_err();
    assert_eq!(err.cause.as_str(), "no text allowed");
}

#[test]
fn apply_func_drain_maps_in_order() {
    let f = |e: Element, _s: ()| -> TResult { Ok(e) };
    let content = vec![
        Element::Text(Text { position: Span::any(), text: String::from("a") }),
        Element::Text(Text { position: Span::any(), text: String::from("b") }),
    ];
    let expected = vec![
        Element::Text(Text { position: Span::any(), text: String::from("a") }),
        Element::Text(Text { position: Span::any(), text: String::from("b") }),
    ];
    let result = apply_func_drain(&f, content, ()).unwrap();
    assert_eq!(result, expected);
}

#[test]
fn the_cloning_recursion_leaves_the_input_alone() {
    let tree = sample();
    let f = |e: &Element, path: &Vec<&Element>, _s: ()| -> TResult {
        assert!(path.len() >= 1);
        Ok(duplicate(e))
    };
    let path: Vec<&Element> = vec![];
    let result = recurse_clone(&f, &tree, &path, ()).unwrap();
    assert_eq!(result, tree);
    assert_eq!(tree, sample());
}

#[test]
fn the_cloning_recursion_propagates_the_first_error() {
    let f = |e: &Element, _path: &Vec<&Element>, _s: ()| -> TResult {
        match e {
            Element::Text(t) if t.text == "bad" => Err(TransformationError {
                cause: format!("rejected {}", t.text),
                position: Span::any(),
                transformation_name: String::from("test"),
                tree: duplicate(e),
            }),
            other => Ok(duplicate(other)),
        }
    };
    let tree = Element::Paragraph(Paragraph {
        position: Span::any(),
        content: vec![
            Element::Text(Text { position: Span::any(), text: String::from("ok") }),
            Element::Text(Text { position: Span::any(), text: String::from("bad") }),
        ],
    });
    let path: Vec<&Element> = vec![];
    let err = recurse_clone(&f, &tree, &path, ()).unwrap_err();
    assert_eq!(err.cause.as_str(), "rejected bad");
}
