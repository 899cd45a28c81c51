use mediawiki_parser::ast::{Document, Element, Heading, Paragraph, Span, Text};
use mediawiki_parser::traversion::{run, run_vec, Traversion};

struct Collector<'a> {
    path: Vec<&'a Element>,
    names: Vec<String>,
    max_depth: usize,
    prune_paragraphs: bool,
}

impl<'a> Traversion<'a, ()> for Collector<'a> {
    fn path_push(&mut self, root: &'a Element) {
        self.path.push(root);
    }

    fn path_pop(&mut self) -> Option<&'a Element> {
        self.path.pop()
    }

    fn get_path(&self) -> &Vec<&'a Element> {
        &self.path
    }

    fn work(&mut self, root: &'a Element, _settings: ()) -> bool {
        self.names.push(String::from(root.get_variant_name()));
        if self.path.len() > self.max_depth {
            self.max_depth = self.path.len();
        }
        match root {
            Element::Paragraph(_) => !self.prune_paragraphs,
            _ => true,
        }
    }

    fn work_vec(&mut self, _content: &'a Vec<Element>, _settings: ()) -> bool {
        true
    }
}

fn sample() -> Element {
    Element::Document(Document {
        position: Span::any(),
        content: vec![Element::Heading(Heading {
            position: Span::any(),
            depth: 1,
            caption: vec![],
            content: vec![Element::Paragraph(Paragraph {
                position: Span::any(),
                content: vec![Element::Text(Text {
                    position: Span::any(),
                    text: String::from("x"),
                })],
            })],
        })],
    })
}

#[test]
fn traversal_visits_every_node_in_order() {
    let tree = sample();
    let mut c = Collector { path: vec![], names: vec![], max_depth: 0, prune_paragraphs: false };
    run(&mut c, &tree, ());
    assert_eq!(c.names, vec!["Document", "Heading", "Paragraph", "Text"]);
    assert_eq!(c.max_depth, 4);
    assert!(c.path.is_empty());
}

#[test]
fn pruning_skips_a_nodes_children() {
    let tree = sample();
    let mut c = Collector { path: vec![], names: vec![], max_depth: 0, prune_paragraphs: true };
    run(&mut c, &tree, ());
    assert_eq!(c.names, vec!["Document", "Heading", "Paragraph"]);
    assert!(c.path.is_empty());
}

#[test]
fn heading_caption_is_visited_before_content() {
    let tree = Element::Heading(Heading {
        position: Span::any(),
        depth: 1,
        caption: vec![Element::Text(Text { position: Span::any(), text: String::from("c") })],
        content: vec![Element::Paragraph(Paragraph { position: Span::any(), content: vec![] })],
    });
    let mut c = Collector { path: vec![], names: vec![], max_depth: 0, prune_paragraphs: false };
    run(&mut c, &tree, ());
    assert_eq!(c.names, vec!["Heading", "Text", "Paragraph"]);
}

#[test]
fn traversal_over_a_list_visits_each_element() {
    let one = Element::Text(Text { position: Span::any(), text: String::from("a") });
    let two = Element::Text(Text { position: Span::any(), text: String::from("b") });
    let list: Vec<Element> = vec![one, two];
    let mut c = Collector { path: vec![], names: vec![], max_depth: 0, prune_paragraphs: false };
    run_vec(&mut c, &list, ());
    assert_eq!(c.names, vec!["Text", "Text"]);
}
