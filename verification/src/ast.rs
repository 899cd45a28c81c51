//! Data structures describing the parsed document, their mathematical models,
//! and the size measure used to justify recursion over the tree.

use vstd::prelude::*;

use crate::util::slines_view;

verus! {

/// Element types used in the abstract syntax tree (AST).
///
/// Each element keeps track of its position in the original input document.
#[derive(Debug, PartialEq)]
pub enum Element {
    Document(Document),
    Heading(Heading),
    Text(Text),
    Formatted(Formatted),
    Paragraph(Paragraph),
    Template(Template),
    TemplateArgument(TemplateArgument),
    InternalReference(InternalReference),
    ExternalReference(ExternalReference),
    ListItem(ListItem),
    List(List),
    Table(Table),
    TableRow(TableRow),
    TableCell(TableCell),
    Comment(Comment),
    HtmlTag(HtmlTag),
    Gallery(Gallery),
    Error(Error),
}

/// The document root.
#[derive(Debug, PartialEq)]
pub struct Document {
    pub position: Span,
    pub content: Vec<Element>,
}

/// Headings make a hierarchical document structure.
#[derive(Debug, PartialEq)]
pub struct Heading {
    pub position: Span,
    pub depth: usize,
    pub caption: Vec<Element>,
    pub content: Vec<Element>,
}

/// Simple text.
#[derive(Debug, PartialEq)]
pub struct Text {
    pub position: Span,
    pub text: String,
}

/// A formatting wrapper, usually around text.
#[derive(Debug, PartialEq)]
pub struct Formatted {
    pub position: Span,
    pub markup: MarkupType,
    pub content: Vec<Element>,
}

/// Paragraphs are separated by newlines in the input document.
#[derive(Debug, PartialEq)]
pub struct Paragraph {
    pub position: Span,
    pub content: Vec<Element>,
}

/// A mediawiki template.
#[derive(Debug, PartialEq)]
pub struct Template {
    pub position: Span,
    pub name: Vec<Element>,
    pub content: Vec<Element>,
}

/// Argument of a mediawiki template. An empty name indicates an anonymous
/// argument.
#[derive(Debug, PartialEq)]
pub struct TemplateArgument {
    pub position: Span,
    pub name: String,
    pub value: Vec<Element>,
}

/// A reference to internal data, such as embedded files or other articles.
#[derive(Debug, PartialEq)]
pub struct InternalReference {
    pub position: Span,
    pub target: Vec<Element>,
    pub options: Vec<Vec<Element>>,
    pub caption: Vec<Element>,
}

/// External reference, usually a hyperlink.
#[derive(Debug, PartialEq)]
pub struct ExternalReference {
    pub position: Span,
    pub target: String,
    pub caption: Vec<Element>,
}

/// List item of a certain `ListItemKind`.
#[derive(Debug, PartialEq)]
pub struct ListItem {
    pub position: Span,
    pub depth: usize,
    pub kind: ListItemKind,
    pub content: Vec<Element>,
}

/// List of items. The `ListItemKind` of its children can be heterogenous.
#[derive(Debug, PartialEq)]
pub struct List {
    pub position: Span,
    pub content: Vec<Element>,
}

/// A mediawiki table. `attributes` represent html attributes assigned
/// to the table.
#[derive(Debug, PartialEq)]
pub struct Table {
    pub position: Span,
    pub attributes: Vec<TagAttribute>,
    pub caption: Vec<Element>,
    pub caption_attributes: Vec<TagAttribute>,
    pub rows: Vec<Element>,
}

/// A table row. `attributes` represent html attributes assigned to the row.
#[derive(Debug, PartialEq)]
pub struct TableRow {
    pub position: Span,
    pub attributes: Vec<TagAttribute>,
    pub cells: Vec<Element>,
}

/// A single table cell. `header` is true if this cell is marked as a header
/// cell.
#[derive(Debug, PartialEq)]
pub struct TableCell {
    pub position: Span,
    pub header: bool,
    pub attributes: Vec<TagAttribute>,
    pub content: Vec<Element>,
}

/// Comments in the input document.
#[derive(Debug, PartialEq)]
pub struct Comment {
    pub position: Span,
    pub text: String,
}

/// Html tags not encoding formatting elements.
#[derive(Debug, PartialEq)]
pub struct HtmlTag {
    pub position: Span,
    pub name: String,
    pub attributes: Vec<TagAttribute>,
    pub content: Vec<Element>,
}

/// Gallery of images (or internal references in general).
#[derive(Debug, PartialEq)]
pub struct Gallery {
    pub position: Span,
    pub attributes: Vec<TagAttribute>,
    pub content: Vec<Element>,
}

/// Indicates an erroneous part of the document tree.
#[derive(Debug, PartialEq)]
pub struct Error {
    pub position: Span,
    pub message: String,
}

/// Types of markup a section of text may have.
#[derive(Debug, Clone, Copy, PartialEq, Eq, Structural)]
pub enum MarkupType {
    NoWiki,
    Bold,
    Italic,
    Math,
    StrikeThrough,
    Underline,
    Code,
    Blockquote,
    Preformatted,
}

/// Types of list items.
#[derive(Debug, Clone, Copy, PartialEq, Eq, Structural)]
pub enum ListItemKind {
    Unordered,
    Definition,
    DefinitionTerm,
    Ordered,
}

/// Represents a position in the source document.
///
/// The all-zero position is a wildcard used by fixture tests where exact
/// coordinates are irrelevant; `positions_equal_or_dont_care` implements the
/// relaxed comparison, while `==` stays strict.
#[derive(Debug, Clone, Copy, PartialEq, Eq, Structural)]
pub struct Position {
    pub offset: usize,
    pub line: usize,
    pub col: usize,
}

/// Holds position information (start and end) for one element.
#[derive(Debug, Clone, Copy, PartialEq, Eq, Structural)]
pub struct Span {
    pub start: Position,
    pub end: Position,
}

/// Represents a pair of html tag attribute and value.
#[derive(Debug, PartialEq)]
pub struct TagAttribute {
    pub position: Span,
    pub key: String,
    pub value: String,
}

/// Position of a source line of code: its start and end byte offsets and its
/// text, without the trailing line separator.
#[derive(Debug, PartialEq)]
pub struct SourceLine<'input> {
    pub start: usize,
    pub content: &'input str,
    pub end: usize,
}

/// The mathematical model of an `Element`: the same tree with every list as a
/// `Seq` and every string as a `Seq<char>`.
pub enum ElementView {
    Document { span: Span, content: Seq<ElementView> },
    Heading { span: Span, depth: usize, caption: Seq<ElementView>, content: Seq<ElementView> },
    Text { span: Span, text: Seq<char> },
    Formatted { span: Span, markup: MarkupType, content: Seq<ElementView> },
    Paragraph { span: Span, content: Seq<ElementView> },
    Template { span: Span, name: Seq<ElementView>, content: Seq<ElementView> },
    TemplateArgument { span: Span, name: Seq<char>, value: Seq<ElementView> },
    InternalReference {
        span: Span,
        target: Seq<ElementView>,
        options: Seq<Seq<ElementView>>,
        caption: Seq<ElementView>,
    },
    ExternalReference { span: Span, target: Seq<char>, caption: Seq<ElementView> },
    ListItem { span: Span, depth: usize, kind: ListItemKind, content: Seq<ElementView> },
    List { span: Span, content: Seq<ElementView> },
    Table {
        span: Span,
        attributes: Seq<TagAttributeView>,
        caption: Seq<ElementView>,
        caption_attributes: Seq<TagAttributeView>,
        rows: Seq<ElementView>,
    },
    TableRow { span: Span, attributes: Seq<TagAttributeView>, cells: Seq<ElementView> },
    TableCell {
        span: Span,
        header: bool,
        attributes: Seq<TagAttributeView>,
        content: Seq<ElementView>,
    },
    Comment { span: Span, text: Seq<char> },
    HtmlTag {
        span: Span,
        name: Seq<char>,
        attributes: Seq<TagAttributeView>,
        content: Seq<ElementView>,
    },
    Gallery { span: Span, attributes: Seq<TagAttributeView>, content: Seq<ElementView> },
    Error { span: Span, message: Seq<char> },
}

/// The mathematical model of a `TagAttribute`.
pub struct TagAttributeView {
    pub span: Span,
    pub key: Seq<char>,
    pub value: Seq<char>,
}

pub open spec fn attr_view(a: TagAttribute) -> TagAttributeView {
    TagAttributeView { span: a.position, key: a.key@, value: a.value@ }
}

pub open spec fn attrs_view(s: Seq<TagAttribute>) -> Seq<TagAttributeView> {
    Seq::new(s.len(), |i: int| attr_view(s[i]))
}

pub open spec fn elem_view(e: Element) -> ElementView
    decreases e,
{
    match e {
        Element::Document(d) => ElementView::Document {
            span: d.position,
            content: elem_list_view(d.content@),
        },
        Element::Heading(h) => ElementView::Heading {
            span: h.position,
            depth: h.depth,
            caption: elem_list_view(h.caption@),
            content: elem_list_view(h.content@),
        },
        Element::Text(t) => ElementView::Text { span: t.position, text: t.text@ },
        Element::Formatted(f) => ElementView::Formatted {
            span: f.position,
            markup: f.markup,
            content: elem_list_view(f.content@),
        },
        Element::Paragraph(p) => ElementView::Paragraph {
            span: p.position,
            content: elem_list_view(p.content@),
        },
        Element::Template(t) => ElementView::Template {
            span: t.position,
            name: elem_list_view(t.name@),
            content: elem_list_view(t.content@),
        },
        Element::TemplateArgument(a) => ElementView::TemplateArgument {
            span: a.position,
            name: a.name@,
            value: elem_list_view(a.value@),
        },
        Element::InternalReference(r) => ElementView::InternalReference {
            span: r.position,
            target: elem_list_view(r.target@),
            options: opts_view(r.options@),
            caption: elem_list_view(r.caption@),
        },
        Element::ExternalReference(r) => ElementView::ExternalReference {
            span: r.position,
            target: r.target@,
            caption: elem_list_view(r.caption@),
        },
        Element::ListItem(l) => ElementView::ListItem {
            span: l.position,
            depth: l.depth,
            kind: l.kind,
            content: elem_list_view(l.content@),
        },
        Element::List(l) => ElementView::List {
            span: l.position,
            content: elem_list_view(l.content@),
        },
        Element::Table(t) => ElementView::Table {
            span: t.position,
            attributes: attrs_view(t.attributes@),
            caption: elem_list_view(t.caption@),
            caption_attributes: attrs_view(t.caption_attributes@),
            rows: elem_list_view(t.rows@),
        },
        Element::TableRow(r) => ElementView::TableRow {
            span: r.position,
            attributes: attrs_view(r.attributes@),
            cells: elem_list_view(r.cells@),
        },
        Element::TableCell(c) => ElementView::TableCell {
            span: c.position,
            header: c.header,
            attributes: attrs_view(c.attributes@),
            content: elem_list_view(c.content@),
        },
        Element::Comment(c) => ElementView::Comment { span: c.position, text: c.text@ },
        Element::HtmlTag(t) => ElementView::HtmlTag {
            span: t.position,
            name: t.name@,
            attributes: attrs_view(t.attributes@),
            content: elem_list_view(t.content@),
        },
        Element::Gallery(g) => ElementView::Gallery {
            span: g.position,
            attributes: attrs_view(g.attributes@),
            content: elem_list_view(g.content@),
        },
        Element::Error(e) => ElementView::Error { span: e.position, message: e.message@ },
    }
}

pub open spec fn elem_list_view(s: Seq<Element>) -> Seq<ElementView>
    decreases s,
{
    if s.len() == 0 {
        Seq::empty()
    } else {
        seq![elem_view(s.first())] + elem_list_view(s.drop_first())
    }
}

pub open spec fn opts_view(s: Seq<Vec<Element>>) -> Seq<Seq<ElementView>>
    decreases s,
{
    if s.len() == 0 {
        Seq::empty()
    } else {
        seq![elem_list_view(s.first()@)] + opts_view(s.drop_first())
    }
}

impl View for Element {
    type V = ElementView;

    open spec fn view(&self) -> ElementView {
        elem_view(*self)
    }
}

impl View for TagAttribute {
    type V = TagAttributeView;

    open spec fn view(&self) -> TagAttributeView {
        attr_view(*self)
    }
}

pub proof fn lemma_elem_list_view(s: Seq<Element>)
    ensures
        elem_list_view(s).len() == s.len(),
        forall|i: int| 0 <= i < s.len() ==> elem_list_view(s)[i] == elem_view(#[trigger] s[i]),
    decreases s.len(),
{
    if s.len() > 0 {
        lemma_elem_list_view(s.drop_first());
        assert forall|i: int| 0 <= i < s.len() implies elem_list_view(s)[i] == elem_view(
            #[trigger] s[i],
        ) by {
            if i == 0 {
                assert(s[0] == s.first());
            } else {
                assert(s.drop_first()[i - 1] == s[i]);
                assert(elem_list_view(s)[i] == elem_list_view(s.drop_first())[i - 1]);
            }
        }
    }
}

pub proof fn lemma_opts_view(s: Seq<Vec<Element>>)
    ensures
        opts_view(s).len() == s.len(),
        forall|i: int| 0 <= i < s.len() ==> opts_view(s)[i] == elem_list_view(#[trigger] s[i]@),
    decreases s.len(),
{
    if s.len() > 0 {
        lemma_opts_view(s.drop_first());
        assert forall|i: int| 0 <= i < s.len() implies opts_view(s)[i] == elem_list_view(
            #[trigger] s[i]@,
        ) by {
            if i == 0 {
                assert(s[0] == s.first());
            } else {
                assert(s.drop_first()[i - 1] == s[i]);
                assert(opts_view(s)[i] == opts_view(s.drop_first())[i - 1]);
            }
        }
    }
}

pub proof fn lemma_elem_list_view_push(s: Seq<Element>, e: Element)
    ensures
        elem_list_view(s.push(e)) =~= elem_list_view(s).push(elem_view(e)),
{
    lemma_elem_list_view(s);
    lemma_elem_list_view(s.push(e));
    assert forall|i: int| 0 <= i < s.len() + 1 implies elem_list_view(s.push(e))[i]
        == elem_list_view(s).push(elem_view(e))[i] by {
        if i < s.len() {
            assert(s.push(e)[i] == s[i]);
        } else {
            assert(s.push(e)[i] == e);
        }
    }
}

/// The number of nodes in a tree: the node itself plus all elements of its
/// child lists, recursively.
pub open spec fn esize(v: ElementView) -> nat
    decreases v,
{
    match v {
        ElementView::Document { content, .. } => 1 + list_size(content),
        ElementView::Heading { caption, content, .. } => 1 + list_size(caption) + list_size(
            content,
        ),
        ElementView::Text { .. } => 1,
        ElementView::Formatted { content, .. } => 1 + list_size(content),
        ElementView::Paragraph { content, .. } => 1 + list_size(content),
        ElementView::Template { name, content, .. } => 1 + list_size(name) + list_size(content),
        ElementView::TemplateArgument { value, .. } => 1 + list_size(value),
        ElementView::InternalReference { target, options, caption, .. } => 1 + list_size(target)
            + opts_size(options) + list_size(caption),
        ElementView::ExternalReference { caption, .. } => 1 + list_size(caption),
        ElementView::ListItem { content, .. } => 1 + list_size(content),
        ElementView::List { content, .. } => 1 + list_size(content),
        ElementView::Table { caption, rows, .. } => 1 + list_size(caption) + list_size(rows),
        ElementView::TableRow { cells, .. } => 1 + list_size(cells),
        ElementView::TableCell { content, .. } => 1 + list_size(content),
        ElementView::Comment { .. } => 1,
        ElementView::HtmlTag { content, .. } => 1 + list_size(content),
        ElementView::Gallery { content, .. } => 1 + list_size(content),
        ElementView::Error { .. } => 1,
    }
}

pub open spec fn list_size(s: Seq<ElementView>) -> nat
    decreases s,
{
    if s.len() == 0 {
        0
    } else {
        esize(s.first()) + list_size(s.drop_first())
    }
}

pub open spec fn opts_size(s: Seq<Seq<ElementView>>) -> nat
    decreases s,
{
    if s.len() == 0 {
        0
    } else {
        list_size(s.first()) + opts_size(s.drop_first())
    }
}

/// Orders `List` nodes after all other kinds of node of the same size; the
/// list-folding recursion steps from a list to an equally large item.
pub open spec fn rank(v: ElementView) -> nat {
    if v is List {
        1
    } else {
        0
    }
}

pub proof fn lemma_esize_pos(v: ElementView)
    ensures
        esize(v) >= 1,
{
}

pub proof fn lemma_list_size_index(s: Seq<ElementView>, i: int)
    requires
        0 <= i < s.len(),
    ensures
        esize(s[i]) <= list_size(s),
    decreases s.len(),
{
    if i == 0 {
        assert(s[0] == s.first());
    } else {
        lemma_list_size_index(s.drop_first(), i - 1);
        assert(s.drop_first()[i - 1] == s[i]);
    }
}

pub proof fn lemma_list_size_push(s: Seq<ElementView>, v: ElementView)
    ensures
        list_size(s.push(v)) == list_size(s) + esize(v),
    decreases s.len(),
{
    if s.len() == 0 {
        assert(s.push(v).drop_first() =~= Seq::<ElementView>::empty());
        assert(s =~= Seq::<ElementView>::empty());
    } else {
        assert(s.push(v).drop_first() =~= s.drop_first().push(v));
        assert(s.push(v).first() == s.first());
        lemma_list_size_push(s.drop_first(), v);
    }
}

pub proof fn lemma_list_size_drop(s: Seq<ElementView>)
    requires
        s.len() > 0,
    ensures
        list_size(s.drop_first()) == list_size(s) - esize(s.first()),
        list_size(s.drop_first()) <= list_size(s),
{
    lemma_esize_pos(s.first());
}

pub proof fn lemma_opts_size_index(s: Seq<Seq<ElementView>>, i: int)
    requires
        0 <= i < s.len(),
    ensures
        list_size(s[i]) <= opts_size(s),
    decreases s.len(),
{
    if i == 0 {
        assert(s[0] == s.first());
    } else {
        lemma_opts_size_index(s.drop_first(), i - 1);
        assert(s.drop_first()[i - 1] == s[i]);
    }
}

/// The mathematical model of a `SourceLine`.
pub struct SourceLineView {
    pub start: usize,
    pub content: Seq<char>,
    pub end: usize,
}

impl<'input> View for SourceLine<'input> {
    type V = SourceLineView;

    open spec fn view(&self) -> SourceLineView {
        SourceLineView { start: self.start, content: self.content@, end: self.end }
    }
}

impl<'input> SourceLine<'input> {
    /// Checks if `pos` is at a line start.
    pub fn starts_line(pos: usize, slocs: &[SourceLine]) -> (r: bool)
        ensures
            r == (exists|i: int| 0 <= i < slocs@.len() && (#[trigger] slocs@[i]).start == pos),
    {
        let n = slocs.len();
        let mut i: usize = 0;
        while i < n
            invariant
                0 <= i <= n,
                n == slocs@.len(),
                forall|j: int| 0 <= j < i ==> (#[trigger] slocs@[j]).start != pos,
            decreases n - i,
        {
            if slocs[i].start == pos {
                return true;
            }
            i = i + 1;
        }
        false
    }
}

/// The source span attached to a node.
pub open spec fn span_of(v: ElementView) -> Span {
    match v {
        ElementView::Document { span, .. } => span,
        ElementView::Heading { span, .. } => span,
        ElementView::Text { span, .. } => span,
        ElementView::Formatted { span, .. } => span,
        ElementView::Paragraph { span, .. } => span,
        ElementView::Template { span, .. } => span,
        ElementView::TemplateArgument { span, .. } => span,
        ElementView::InternalReference { span, .. } => span,
        ElementView::ExternalReference { span, .. } => span,
        ElementView::ListItem { span, .. } => span,
        ElementView::List { span, .. } => span,
        ElementView::Table { span, .. } => span,
        ElementView::TableRow { span, .. } => span,
        ElementView::TableCell { span, .. } => span,
        ElementView::Comment { span, .. } => span,
        ElementView::HtmlTag { span, .. } => span,
        ElementView::Gallery { span, .. } => span,
        ElementView::Error { span, .. } => span,
    }
}

/// The name of a node's variant.
pub open spec fn variant_name(v: ElementView) -> Seq<char> {
    match v {
        ElementView::Document { .. } => "Document"@,
        ElementView::Heading { .. } => "Heading"@,
        ElementView::Text { .. } => "Text"@,
        ElementView::Formatted { .. } => "Formatted"@,
        ElementView::Paragraph { .. } => "Paragraph"@,
        ElementView::Template { .. } => "Template"@,
        ElementView::TemplateArgument { .. } => "TemplateArgument"@,
        ElementView::InternalReference { .. } => "InternalReference"@,
        ElementView::ExternalReference { .. } => "ExternalReference"@,
        ElementView::ListItem { .. } => "ListItem"@,
        ElementView::List { .. } => "List"@,
        ElementView::Table { .. } => "Table"@,
        ElementView::TableRow { .. } => "TableRow"@,
        ElementView::TableCell { .. } => "TableCell"@,
        ElementView::Comment { .. } => "Comment"@,
        ElementView::HtmlTag { .. } => "HtmlTag"@,
        ElementView::Gallery { .. } => "Gallery"@,
        ElementView::Error { .. } => "Error"@,
    }
}

impl Element {
    /// Returns the source code position of an element.
    pub fn get_position(&self) -> (r: &Span)
        ensures
            *r == span_of(self@),
    {
        match *self {
            Element::Document(ref e) => &e.position,
            Element::Heading(ref e) => &e.position,
            Element::Text(ref e) => &e.position,
            Element::Formatted(ref e) => &e.position,
            Element::Paragraph(ref e) => &e.position,
            Element::Template(ref e) => &e.position,
            Element::TemplateArgument(ref e) => &e.position,
            Element::InternalReference(ref e) => &e.position,
            Element::ExternalReference(ref e) => &e.position,
            Element::List(ref e) => &e.position,
            Element::ListItem(ref e) => &e.position,
            Element::Table(ref e) => &e.position,
            Element::TableRow(ref e) => &e.position,
            Element::TableCell(ref e) => &e.position,
            Element::Comment(ref e) => &e.position,
            Element::HtmlTag(ref e) => &e.position,
            Element::Gallery(ref e) => &e.position,
            Element::Error(ref e) => &e.position,
        }
    }

    /// Returns the variant name of an element.
    pub fn get_variant_name(&self) -> (r: &str)
        ensures
            r@ == variant_name(self@),
    {
        match *self {
            Element::Document(_) => "Document",
            Element::Heading(_) => "Heading",
            Element::Text(_) => "Text",
            Element::Formatted(_) => "Formatted",
            Element::Paragraph(_) => "Paragraph",
            Element::Template(_) => "Template",
            Element::TemplateArgument(_) => "TemplateArgument",
            Element::InternalReference(_) => "InternalReference",
            Element::ExternalReference(_) => "ExternalReference",
            Element::List(_) => "List",
            Element::ListItem(_) => "ListItem",
            Element::Table(_) => "Table",
            Element::TableRow(_) => "TableRow",
            Element::TableCell(_) => "TableCell",
            Element::Comment(_) => "Comment",
            Element::HtmlTag(_) => "HtmlTag",
            Element::Gallery(_) => "Gallery",
            Element::Error(_) => "Error",
        }
    }

    /// Returns a mutable reference to the source code position of an element.
    pub fn get_position_mut(&mut self) -> (r: &mut Span)
        ensures
            *r == span_of(old(self)@),
            final(self)@ == replace_span(old(self)@, *final(r)),
    {
        match *self {
            Element::Document(ref mut e) => &mut e.position,
            Element::Heading(ref mut e) => &mut e.position,
            Element::Text(ref mut e) => &mut e.position,
            Element::Formatted(ref mut e) => &mut e.position,
            Element::Paragraph(ref mut e) => &mut e.position,
            Element::Template(ref mut e) => &mut e.position,
            Element::TemplateArgument(ref mut e) => &mut e.position,
            Element::InternalReference(ref mut e) => &mut e.position,
            Element::ExternalReference(ref mut e) => &mut e.position,
            Element::List(ref mut e) => &mut e.position,
            Element::ListItem(ref mut e) => &mut e.position,
            Element::Table(ref mut e) => &mut e.position,
            Element::TableRow(ref mut e) => &mut e.position,
            Element::TableCell(ref mut e) => &mut e.position,
            Element::Comment(ref mut e) => &mut e.position,
            Element::HtmlTag(ref mut e) => &mut e.position,
            Element::Gallery(ref mut e) => &mut e.position,
            Element::Error(ref mut e) => &mut e.position,
        }
    }

    /// Replaces the source code position of an element.
    pub fn set_position(&mut self, span: Span)
        ensures
            final(self)@ == replace_span(old(self)@, span),
    {
        match *self {
            Element::Document(ref mut e) => e.position = span,
            Element::Heading(ref mut e) => e.position = span,
            Element::Text(ref mut e) => e.position = span,
            Element::Formatted(ref mut e) => e.position = span,
            Element::Paragraph(ref mut e) => e.position = span,
            Element::Template(ref mut e) => e.position = span,
            Element::TemplateArgument(ref mut e) => e.position = span,
            Element::InternalReference(ref mut e) => e.position = span,
            Element::ExternalReference(ref mut e) => e.position = span,
            Element::List(ref mut e) => e.position = span,
            Element::ListItem(ref mut e) => e.position = span,
            Element::Table(ref mut e) => e.position = span,
            Element::TableRow(ref mut e) => e.position = span,
            Element::TableCell(ref mut e) => e.position = span,
            Element::Comment(ref mut e) => e.position = span,
            Element::HtmlTag(ref mut e) => e.position = span,
            Element::Gallery(ref mut e) => e.position = span,
            Element::Error(ref mut e) => e.position = span,
        }
    }
}

/// The same node with its span replaced.
pub open spec fn replace_span(v: ElementView, span: Span) -> ElementView {
    match v {
        ElementView::Document { content, .. } => ElementView::Document { span, content },
        ElementView::Heading { depth, caption, content, .. } => ElementView::Heading {
            span,
            depth,
            caption,
            content,
        },
        ElementView::Text { text, .. } => ElementView::Text { span, text },
        ElementView::Formatted { markup, content, .. } => ElementView::Formatted {
            span,
            markup,
            content,
        },
        ElementView::Paragraph { content, .. } => ElementView::Paragraph { span, content },
        ElementView::Template { name, content, .. } => ElementView::Template {
            span,
            name,
            content,
        },
        ElementView::TemplateArgument { name, value, .. } => ElementView::TemplateArgument {
            span,
            name,
            value,
        },
        ElementView::InternalReference {
            target,
            options,
            caption,
            ..
        } => ElementView::InternalReference { span, target, options, caption },
        ElementView::ExternalReference { target, caption, .. } => ElementView::ExternalReference {
            span,
            target,
            caption,
        },
        ElementView::ListItem { depth, kind, content, .. } => ElementView::ListItem {
            span,
            depth,
            kind,
            content,
        },
        ElementView::List { content, .. } => ElementView::List { span, content },
        ElementView::Table {
            attributes,
            caption,
            caption_attributes,
            rows,
            ..
        } => ElementView::Table { span, attributes, caption, caption_attributes, rows },
        ElementView::TableRow { attributes, cells, .. } => ElementView::TableRow {
            span,
            attributes,
            cells,
        },
        ElementView::TableCell { header, attributes, content, .. } => ElementView::TableCell {
            span,
            header,
            attributes,
            content,
        },
        ElementView::Comment { text, .. } => ElementView::Comment { span, text },
        ElementView::HtmlTag { name, attributes, content, .. } => ElementView::HtmlTag {
            span,
            name,
            attributes,
            content,
        },
        ElementView::Gallery { attributes, content, .. } => ElementView::Gallery {
            span,
            attributes,
            content,
        },
        ElementView::Error { message, .. } => ElementView::Error { span, message },
    }
}

/// The all-zero wildcard position.
pub open spec fn pos_is_any(p: Position) -> bool {
    p.offset == 0 && p.line == 0 && p.col == 0
}

/// Compares two positions, treating the all-zero wildcard as equal to
/// anything. Fixture tests use this; `==` stays strict.
pub fn positions_equal_or_dont_care(a: &Position, b: &Position) -> (r: bool)
    ensures
        r == (pos_is_any(*a) || pos_is_any(*b) || *a == *b),
{
    let a_any = a.offset == 0 && a.line == 0 && a.col == 0;
    let b_any = b.offset == 0 && b.line == 0 && b.col == 0;
    a_any || b_any || (a.offset == b.offset && a.line == b.line && a.col == b.col)
}

/// The index of the line containing the given offset: the first line whose
/// byte range covers it, or the number of lines when the offset lies past the
/// end of the source.
pub open spec fn find_line(slocs: Seq<SourceLineView>, offset: usize) -> int
    decreases slocs.len(),
{
    if slocs.len() == 0 {
        0
    } else if slocs[0].start <= offset < slocs[0].end {
        0
    } else {
        1 + find_line(slocs.drop_first(), offset)
    }
}

/// The position a byte offset maps to: its line (1-based), and the column
/// counted in whole characters before the offset (1-based). An offset past the
/// last line yields one line past the end, with column zero.
pub open spec fn position_of(offset: usize, slocs: Seq<SourceLineView>) -> Position {
    let k = find_line(slocs, offset);
    if k < slocs.len() {
        Position {
            offset,
            line: (k + 1) as usize,
            col: (crate::util::chars_in_prefix(slocs[k].content, offset - slocs[k].start)
                + 1) as usize,
        }
    } else {
        Position { offset, line: (slocs.len() + 1) as usize, col: 0 }
    }
}

proof fn lemma_find_line_at(slocs: Seq<SourceLineView>, offset: usize, i: int)
    requires
        0 <= i <= slocs.len(),
        forall|j: int|
            0 <= j < i ==> !((#[trigger] slocs[j]).start <= offset < slocs[j].end),
        i < slocs.len() ==> slocs[i].start <= offset < slocs[i].end,
    ensures
        find_line(slocs, offset) == if i < slocs.len() {
            i
        } else {
            slocs.len() as int
        },
    decreases i,
{
    if slocs.len() == 0 {
    } else if i == 0 {
    } else {
        assert(!(slocs[0].start <= offset < slocs[0].end));
        assert forall|j: int|
            0 <= j < i - 1 implies !((#[trigger] slocs.drop_first()[j]).start <= offset
            < slocs.drop_first()[j].end) by {
            assert(slocs.drop_first()[j] == slocs[j + 1]);
        }
        if i - 1 < slocs.drop_first().len() {
            assert(slocs.drop_first()[i - 1] == slocs[i]);
        }
        lemma_find_line_at(slocs.drop_first(), offset, i - 1);
    }
}

impl Position {
    /// Maps a byte offset to a line and column through the source-line index.
    pub fn new(offset: usize, slocs: &[SourceLine]) -> (r: Position)
        requires
            slocs@.len() < usize::MAX,
        ensures
            r == position_of(offset, slines_view(slocs@)),
    {
        let n = slocs.len();
        let ghost views = slines_view(slocs@);
        let mut i: usize = 0;
        while i < n
            invariant
                0 <= i <= n,
                n == slocs@.len(),
                n < usize::MAX,
                views == slines_view(slocs@),
                forall|j: int|
                    0 <= j < i ==> !((#[trigger] views[j]).start <= offset < views[j].end),
            decreases n - i,
        {
            let sloc = &slocs[i];
            if offset >= sloc.start && offset < sloc.end {
                let col = crate::util::count_chars_in_prefix(sloc.content, offset - sloc.start);
                proof {
                    lemma_find_line_at(views, offset, i as int);
                }
                return Position { offset, line: i + 1, col: col + 1 };
            }
            i = i + 1;
        }
        proof {
            lemma_find_line_at(views, offset, n as int);
        }
        Position { offset, line: n + 1, col: 0 }
    }

    pub fn any_position() -> (r: Self)
        ensures
            pos_is_any(r),
            r == (Position { offset: 0, line: 0, col: 0 }),
    {
        Position { offset: 0, line: 0, col: 0 }
    }
}

impl Span {
    /// The canonical span of synthesized nodes: both endpoints wildcard.
    pub fn any() -> (r: Self)
        ensures
            r == span_any(),
    {
        Span { start: Position::any_position(), end: Position::any_position() }
    }

    /// The span between two byte offsets, resolved through the source-line
    /// index.
    pub fn new(posl: usize, posr: usize, source_lines: &[SourceLine]) -> (r: Self)
        requires
            source_lines@.len() < usize::MAX,
        ensures
            r.start == position_of(posl, slines_view(source_lines@)),
            r.end == position_of(posr, slines_view(source_lines@)),
    {
        Span {
            start: Position::new(posl, source_lines),
            end: Position::new(posr, source_lines),
        }
    }
}

/// The canonical "don't care" span.
pub open spec fn span_any() -> Span {
    Span {
        start: Position { offset: 0, line: 0, col: 0 },
        end: Position { offset: 0, line: 0, col: 0 },
    }
}

impl Default for Span {
    /// A node constructed without explicit position data gets the wildcard
    /// span.
    fn default() -> (r: Self)
        ensures
            r == span_any(),
    {
        Span::any()
    }
}

impl TagAttribute {
    pub fn new(position: Span, key: String, value: String) -> (r: Self)
        ensures
            r@ == (TagAttributeView { span: position, key: key@, value: value@ }),
    {
        TagAttribute { position, key, value }
    }
}

/// What `str::to_lowercase` returns: a function of the characters alone.
pub uninterp spec fn lower_of(s: Seq<char>) -> Seq<char>;

/// Relies on `str::to_lowercase`: the result depends on the input characters
/// alone, by the Unicode lowercasing rules.
#[verifier::external_body]
fn lowercase(s: &str) -> (r: String)
    ensures
        r@ == lower_of(s@),
{
    s.to_lowercase()
}

/// The markup kind named by a lowercased HTML tag name, if any.
pub open spec fn tag_markup(lower: Seq<char>) -> Option<MarkupType> {
    if lower == "math"@ {
        Some(MarkupType::Math)
    } else if lower == "del"@ || lower == "s"@ {
        Some(MarkupType::StrikeThrough)
    } else if lower == "nowiki"@ {
        Some(MarkupType::NoWiki)
    } else if lower == "u"@ || lower == "ins"@ {
        Some(MarkupType::Underline)
    } else if lower == "code"@ {
        Some(MarkupType::Code)
    } else if lower == "blockquote"@ {
        Some(MarkupType::Blockquote)
    } else if lower == "pre"@ {
        Some(MarkupType::Preformatted)
    } else {
        None
    }
}

fn str_eq_lit(s: &String, lit: &str) -> (r: bool)
    ensures
        r == (s@ == lit@),
{
    let other = String::from_str(lit);
    s.eq(&other)
}

impl MarkupType {
    /// Match an HTML tag name to its markup type. The tag, lowercased, must be
    /// one of the recognized names; `try_by_tag_name` checks first.
    pub fn by_tag_name(tag: &str) -> (r: MarkupType)
        requires
            tag_markup(lower_of(tag@)) is Some,
        ensures
            Some(r) == tag_markup(lower_of(tag@)),
    {
        let lower = lowercase(tag);
        if str_eq_lit(&lower, "math") {
            MarkupType::Math
        } else if str_eq_lit(&lower, "del") || str_eq_lit(&lower, "s") {
            MarkupType::StrikeThrough
        } else if str_eq_lit(&lower, "nowiki") {
            MarkupType::NoWiki
        } else if str_eq_lit(&lower, "u") || str_eq_lit(&lower, "ins") {
            MarkupType::Underline
        } else if str_eq_lit(&lower, "code") {
            MarkupType::Code
        } else if str_eq_lit(&lower, "blockquote") {
            MarkupType::Blockquote
        } else if str_eq_lit(&lower, "pre") {
            MarkupType::Preformatted
        } else {
            proof {
                assert(false);
            }
            vstd::pervasive::unreached()
        }
    }

    /// Match an HTML tag name to its markup type, or `None` where the
    /// lowercased tag is not a recognized name.
    pub fn try_by_tag_name(tag: &str) -> (r: Option<MarkupType>)
        ensures
            r == tag_markup(lower_of(tag@)),
    {
        let lower = lowercase(tag);
        let known = str_eq_lit(&lower, "math") || str_eq_lit(&lower, "del") || str_eq_lit(
            &lower,
            "s",
        ) || str_eq_lit(&lower, "nowiki") || str_eq_lit(&lower, "u") || str_eq_lit(&lower, "ins")
            || str_eq_lit(&lower, "code") || str_eq_lit(&lower, "blockquote") || str_eq_lit(
            &lower,
            "pre",
        );
        if known {
            Some(Self::by_tag_name(tag))
        } else {
            None
        }
    }
}

/// Builds an independently owned copy of a tag attribute.
pub fn duplicate_attr(a: &TagAttribute) -> (r: TagAttribute)
    ensures
        r@ == a@,
{
    TagAttribute { position: a.position, key: a.key.clone(), value: a.value.clone() }
}

/// Builds an independently owned copy of a list of tag attributes.
pub fn duplicate_attrs(v: &Vec<TagAttribute>) -> (r: Vec<TagAttribute>)
    ensures
        attrs_view(r@) =~= attrs_view(v@),
        r@.len() == v@.len(),
{
    let mut out: Vec<TagAttribute> = Vec::new();
    let n = v.len();
    let mut i: usize = 0;
    while i < n
        invariant
            0 <= i <= n,
            n == v@.len(),
            out@.len() == i,
            forall|j: int| 0 <= j < i ==> attr_view(#[trigger] out@[j]) == attr_view(v@[j]),
        decreases n - i,
    {
        out.push(duplicate_attr(&v[i]));
        i = i + 1;
    }
    out
}

/// Builds an independently owned copy of an element tree.
pub fn duplicate(e: &Element) -> (r: Element)
    ensures
        r@ == e@,
    decreases esize(e@), 0int,
{
    proof {
        lemma_esize_pos(e@);
    }
    match e {
        Element::Document(d) => Element::Document(
            Document { position: d.position, content: duplicate_list(&d.content) },
        ),
        Element::Heading(h) => Element::Heading(
            Heading {
                position: h.position,
                depth: h.depth,
                caption: duplicate_list(&h.caption),
                content: duplicate_list(&h.content),
            },
        ),
        Element::Text(t) => Element::Text(Text { position: t.position, text: t.text.clone() }),
        Element::Formatted(f) => Element::Formatted(
            Formatted {
                position: f.position,
                markup: f.markup,
                content: duplicate_list(&f.content),
            },
        ),
        Element::Paragraph(p) => Element::Paragraph(
            Paragraph { position: p.position, content: duplicate_list(&p.content) },
        ),
        Element::Template(t) => Element::Template(
            Template {
                position: t.position,
                name: duplicate_list(&t.name),
                content: duplicate_list(&t.content),
            },
        ),
        Element::TemplateArgument(a) => Element::TemplateArgument(
            TemplateArgument {
                position: a.position,
                name: a.name.clone(),
                value: duplicate_list(&a.value),
            },
        ),
        Element::InternalReference(r) => Element::InternalReference(
            InternalReference {
                position: r.position,
                target: duplicate_list(&r.target),
                options: duplicate_opts(&r.options),
                caption: duplicate_list(&r.caption),
            },
        ),
        Element::ExternalReference(r) => Element::ExternalReference(
            ExternalReference {
                position: r.position,
                target: r.target.clone(),
                caption: duplicate_list(&r.caption),
            },
        ),
        Element::ListItem(l) => Element::ListItem(
            ListItem {
                position: l.position,
                depth: l.depth,
                kind: l.kind,
                content: duplicate_list(&l.content),
            },
        ),
        Element::List(l) => Element::List(
            List { position: l.position, content: duplicate_list(&l.content) },
        ),
        Element::Table(t) => Element::Table(
            Table {
                position: t.position,
                attributes: duplicate_attrs(&t.attributes),
                caption: duplicate_list(&t.caption),
                caption_attributes: duplicate_attrs(&t.caption_attributes),
                rows: duplicate_list(&t.rows),
            },
        ),
        Element::TableRow(r) => Element::TableRow(
            TableRow {
                position: r.position,
                attributes: duplicate_attrs(&r.attributes),
                cells: duplicate_list(&r.cells),
            },
        ),
        Element::TableCell(c) => Element::TableCell(
            TableCell {
                position: c.position,
                header: c.header,
                attributes: duplicate_attrs(&c.attributes),
                content: duplicate_list(&c.content),
            },
        ),
        Element::Comment(c) => Element::Comment(
            Comment { position: c.position, text: c.text.clone() },
        ),
        Element::HtmlTag(t) => Element::HtmlTag(
            HtmlTag {
                position: t.position,
                name: t.name.clone(),
                attributes: duplicate_attrs(&t.attributes),
                content: duplicate_list(&t.content),
            },
        ),
        Element::Gallery(g) => Element::Gallery(
            Gallery {
                position: g.position,
                attributes: duplicate_attrs(&g.attributes),
                content: duplicate_list(&g.content),
            },
        ),
        Element::Error(e) => Element::Error(
            Error { position: e.position, message: e.message.clone() },
        ),
    }
}

/// Builds an independently owned copy of a list of elements.
pub fn duplicate_list(v: &Vec<Element>) -> (r: Vec<Element>)
    ensures
        elem_list_view(r@) == elem_list_view(v@),
        r@.len() == v@.len(),
    decreases list_size(elem_list_view(v@)), 1int,
{
    let mut out: Vec<Element> = Vec::new();
    let n = v.len();
    let mut i: usize = 0;
    while i < n
        invariant
            0 <= i <= n,
            n == v@.len(),
            out@.len() == i,
            forall|j: int| 0 <= j < i ==> elem_view(#[trigger] out@[j]) == elem_view(v@[j]),
        decreases n - i,
    {
        proof {
            lemma_elem_list_view(v@);
            lemma_list_size_index(elem_list_view(v@), i as int);
        }
        out.push(duplicate(&v[i]));
        i = i + 1;
    }
    proof {
        lemma_elem_list_view(v@);
        lemma_elem_list_view(out@);
        assert forall|j: int| 0 <= j < v@.len() implies elem_list_view(out@)[j] == elem_list_view(
            v@,
        )[j] by {
            assert(elem_view(out@[j]) == elem_view(v@[j]));
        }
        assert(elem_list_view(out@) =~= elem_list_view(v@));
    }
    out
}

/// Builds an independently owned copy of a list of option lists.
pub fn duplicate_opts(v: &Vec<Vec<Element>>) -> (r: Vec<Vec<Element>>)
    ensures
        opts_view(r@) == opts_view(v@),
        r@.len() == v@.len(),
    decreases opts_size(opts_view(v@)), 2int,
{
    let mut out: Vec<Vec<Element>> = Vec::new();
    let n = v.len();
    let mut i: usize = 0;
    while i < n
        invariant
            0 <= i <= n,
            n == v@.len(),
            out@.len() == i,
            forall|j: int|
                0 <= j < i ==> elem_list_view(#[trigger] out@[j]@) == elem_list_view(v@[j]@),
        decreases n - i,
    {
        proof {
            lemma_opts_view(v@);
            lemma_opts_size_index(opts_view(v@), i as int);
        }
        out.push(duplicate_list(&v[i]));
        i = i + 1;
    }
    proof {
        lemma_opts_view(v@);
        lemma_opts_view(out@);
        assert forall|j: int| 0 <= j < v@.len() implies opts_view(out@)[j] == opts_view(v@)[j] by {
            assert(elem_list_view(out@[j]@) == elem_list_view(v@[j]@));
        }
        assert(opts_view(out@) =~= opts_view(v@));
    }
    out
}

pub proof fn lemma_elem_list_view_update(s: Seq<Element>, i: int, e: Element)
    requires
        0 <= i < s.len(),
    ensures
        elem_list_view(s.update(i, e)) =~= elem_list_view(s).update(i, elem_view(e)),
{
    lemma_elem_list_view(s);
    lemma_elem_list_view(s.update(i, e));
    assert forall|j: int| 0 <= j < s.len() implies elem_list_view(s.update(i, e))[j]
        == elem_list_view(s).update(i, elem_view(e))[j] by {
        if j != i {
            assert(s.update(i, e)[j] == s[j]);
        } else {
            assert(s.update(i, e)[j] == e);
        }
    }
}

pub proof fn lemma_elem_list_view_concat(a: Seq<Element>, b: Seq<Element>)
    ensures
        elem_list_view(a + b) =~= elem_list_view(a) + elem_list_view(b),
{
    lemma_elem_list_view(a);
    lemma_elem_list_view(b);
    lemma_elem_list_view(a + b);
    assert forall|j: int| 0 <= j < a.len() + b.len() implies elem_list_view(a + b)[j] == (
    elem_list_view(a) + elem_list_view(b))[j] by {
        if j < a.len() {
            assert((a + b)[j] == a[j]);
        } else {
            assert((a + b)[j] == b[j - a.len()]);
        }
    }
}

pub proof fn lemma_opts_view_push(s: Seq<Vec<Element>>, e: Vec<Element>)
    ensures
        opts_view(s.push(e)) =~= opts_view(s).push(elem_list_view(e@)),
{
    lemma_opts_view(s);
    lemma_opts_view(s.push(e));
    assert forall|j: int| 0 <= j < s.len() + 1 implies opts_view(s.push(e))[j] == opts_view(
        s,
    ).push(elem_list_view(e@))[j] by {
        if j < s.len() {
            assert(s.push(e)[j] == s[j]);
            assert(s.push(e)[j]@ == s[j]@);
        } else {
            assert(s.push(e)[j] == e);
            assert(s.push(e)[j]@ == e@);
        }
    }
}

pub proof fn lemma_list_size_update(s: Seq<ElementView>, i: int, v: ElementView)
    requires
        0 <= i < s.len(),
    ensures
        list_size(s.update(i, v)) == list_size(s) - esize(s[i]) + esize(v),
    decreases s.len(),
{
    if i == 0 {
        assert(s.update(0, v).first() == v);
        assert(s.update(0, v).drop_first() =~= s.drop_first());
        assert(s[0] == s.first());
    } else {
        assert(s.update(i, v).first() == s.first());
        assert(s.update(i, v).drop_first() =~= s.drop_first().update(i - 1, v));
        assert(s.drop_first()[i - 1] == s[i]);
        lemma_list_size_update(s.drop_first(), i - 1, v);
    }
}

pub proof fn lemma_list_size_concat(a: Seq<ElementView>, b: Seq<ElementView>)
    ensures
        list_size(a + b) == list_size(a) + list_size(b),
    decreases a.len(),
{
    if a.len() == 0 {
        assert(a + b =~= b);
        assert(a =~= Seq::<ElementView>::empty());
    } else {
        assert((a + b).first() == a.first());
        assert((a + b).drop_first() =~= a.drop_first() + b);
        lemma_list_size_concat(a.drop_first(), b);
    }
}

} // verus!
