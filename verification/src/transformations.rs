//! Functions and types for source tree transformations: the generic
//! recursion engine that applies a transformation function to every child
//! list of every node.

use vstd::prelude::*;

use crate::ast::{duplicate_attrs, Element, ElementView};
use crate::error::TransformationError;

verus! {

/// Transformation result type.
pub type TResult = Result<Element, TransformationError>;

/// Result type for a list of transformed elements.
pub type TListResult = Result<Vec<Element>, TransformationError>;

/// Two nodes of the same variant whose span and scalar fields agree; their
/// child lists may differ.
pub open spec fn same_shell(a: ElementView, b: ElementView) -> bool {
    match (a, b) {
        (ElementView::Document { span: s1, .. }, ElementView::Document { span: s2, .. }) => s1
            == s2,
        (
            ElementView::Heading { span: s1, depth: d1, .. },
            ElementView::Heading { span: s2, depth: d2, .. },
        ) => s1 == s2 && d1 == d2,
        (
            ElementView::Text { span: s1, text: t1 },
            ElementView::Text { span: s2, text: t2 },
        ) => s1 == s2 && t1 == t2,
        (
            ElementView::Formatted { span: s1, markup: m1, .. },
            ElementView::Formatted { span: s2, markup: m2, .. },
        ) => s1 == s2 && m1 == m2,
        (ElementView::Paragraph { span: s1, .. }, ElementView::Paragraph { span: s2, .. }) => s1
            == s2,
        (ElementView::Template { span: s1, .. }, ElementView::Template { span: s2, .. }) => s1
            == s2,
        (
            ElementView::TemplateArgument { span: s1, name: n1, .. },
            ElementView::TemplateArgument { span: s2, name: n2, .. },
        ) => s1 == s2 && n1 == n2,
        (
            ElementView::InternalReference { span: s1, .. },
            ElementView::InternalReference { span: s2, .. },
        ) => s1 == s2,
        (
            ElementView::ExternalReference { span: s1, target: t1, .. },
            ElementView::ExternalReference { span: s2, target: t2, .. },
        ) => s1 == s2 && t1 == t2,
        (
            ElementView::ListItem { span: s1, depth: d1, kind: k1, .. },
            ElementView::ListItem { span: s2, depth: d2, kind: k2, .. },
        ) => s1 == s2 && d1 == d2 && k1 == k2,
        (ElementView::List { span: s1, .. }, ElementView::List { span: s2, .. }) => s1 == s2,
        (
            ElementView::Table { span: s1, attributes: a1, caption_attributes: c1, .. },
            ElementView::Table { span: s2, attributes: a2, caption_attributes: c2, .. },
        ) => s1 == s2 && a1 == a2 && c1 == c2,
        (
            ElementView::TableRow { span: s1, attributes: a1, .. },
            ElementView::TableRow { span: s2, attributes: a2, .. },
        ) => s1 == s2 && a1 == a2,
        (
            ElementView::TableCell { span: s1, header: h1, attributes: a1, .. },
            ElementView::TableCell { span: s2, header: h2, attributes: a2, .. },
        ) => s1 == s2 && h1 == h2 && a1 == a2,
        (
            ElementView::Comment { span: s1, text: t1 },
            ElementView::Comment { span: s2, text: t2 },
        ) => s1 == s2 && t1 == t2,
        (
            ElementView::HtmlTag { span: s1, name: n1, attributes: a1, .. },
            ElementView::HtmlTag { span: s2, name: n2, attributes: a2, .. },
        ) => s1 == s2 && n1 == n2 && a1 == a2,
        (
            ElementView::Gallery { span: s1, attributes: a1, .. },
            ElementView::Gallery { span: s2, attributes: a2, .. },
        ) => s1 == s2 && a1 == a2,
        (
            ElementView::Error { span: s1, message: m1 },
            ElementView::Error { span: s2, message: m2 },
        ) => s1 == s2 && m1 == m2,
        _ => false,
    }
}


/// Every child list of `b` is the image of the corresponding child list of
/// `a` under the transformation function, element by element, in declaration
/// order.
pub open spec fn lists_mapped<S, F: Fn(Element, S) -> TResult>(
    func: F,
    a: Element,
    b: Element,
    settings: S,
) -> bool {
    match (a, b) {
        (Element::Document(x), Element::Document(y)) => list_mapped(
            func,
            x.content,
            y.content,
            settings,
        ),
        (Element::Heading(x), Element::Heading(y)) => list_mapped(
            func,
            x.caption,
            y.caption,
            settings,
        ) && list_mapped(func, x.content, y.content, settings),
        (Element::Text(_), Element::Text(_)) => true,
        (Element::Formatted(x), Element::Formatted(y)) => list_mapped(
            func,
            x.content,
            y.content,
            settings,
        ),
        (Element::Paragraph(x), Element::Paragraph(y)) => list_mapped(
            func,
            x.content,
            y.content,
            settings,
        ),
        (Element::Template(x), Element::Template(y)) => list_mapped(
            func,
            x.name,
            y.name,
            settings,
        ) && list_mapped(func, x.content, y.content, settings),
        (Element::TemplateArgument(x), Element::TemplateArgument(y)) => list_mapped(
            func,
            x.value,
            y.value,
            settings,
        ),
        (Element::InternalReference(x), Element::InternalReference(y)) => list_mapped(
            func,
            x.target,
            y.target,
            settings,
        ) && y.options@.len() == x.options@.len() && (forall|j: int|
            0 <= j < x.options@.len() ==> list_mapped(
                func,
                #[trigger] x.options@[j],
                y.options@[j],
                settings,
            )) && list_mapped(func, x.caption, y.caption, settings),
        (Element::ExternalReference(x), Element::ExternalReference(y)) => list_mapped(
            func,
            x.caption,
            y.caption,
            settings,
        ),
        (Element::ListItem(x), Element::ListItem(y)) => list_mapped(
            func,
            x.content,
            y.content,
            settings,
        ),
        (Element::List(x), Element::List(y)) => list_mapped(func, x.content, y.content, settings),
        (Element::Table(x), Element::Table(y)) => list_mapped(
            func,
            x.caption,
            y.caption,
            settings,
        ) && list_mapped(func, x.rows, y.rows, settings),
        (Element::TableRow(x), Element::TableRow(y)) => list_mapped(
            func,
            x.cells,
            y.cells,
            settings,
        ),
        (Element::TableCell(x), Element::TableCell(y)) => list_mapped(
            func,
            x.content,
            y.content,
            settings,
        ),
        (Element::Comment(_), Element::Comment(_)) => true,
        (Element::HtmlTag(x), Element::HtmlTag(y)) => list_mapped(
            func,
            x.content,
            y.content,
            settings,
        ),
        (Element::Gallery(x), Element::Gallery(y)) => list_mapped(
            func,
            x.content,
            y.content,
            settings,
        ),
        (Element::Error(_), Element::Error(_)) => true,
        _ => false,
    }
}

/// One child list as the elementwise image of another under the
/// transformation function.
pub open spec fn list_mapped<S, F: Fn(Element, S) -> TResult>(
    func: F,
    a: Vec<Element>,
    b: Vec<Element>,
    settings: S,
) -> bool {
    b@.len() == a@.len() && forall|i: int|
        0 <= i < a@.len() ==> call_ensures(func, (a@[i], settings), Ok(#[trigger] b@[i]))
}

/// Every child list of `b` is what the content handler made of the
/// corresponding child list of `a`, in declaration order.
pub open spec fn lists_handled<
    S,
    F: Fn(Element, S) -> TResult,
    G: Fn(&F, Vec<Element>, S) -> TListResult,
>(content_func: G, func: &F, a: Element, b: Element, settings: S) -> bool {
    match (a, b) {
        (Element::Document(x), Element::Document(y)) => call_ensures(
            content_func,
            (func, x.content, settings),
            Ok(y.content),
        ),
        (Element::Heading(x), Element::Heading(y)) => call_ensures(
            content_func,
            (func, x.caption, settings),
            Ok(y.caption),
        ) && call_ensures(content_func, (func, x.content, settings), Ok(y.content)),
        (Element::Text(_), Element::Text(_)) => true,
        (Element::Formatted(x), Element::Formatted(y)) => call_ensures(
            content_func,
            (func, x.content, settings),
            Ok(y.content),
        ),
        (Element::Paragraph(x), Element::Paragraph(y)) => call_ensures(
            content_func,
            (func, x.content, settings),
            Ok(y.content),
        ),
        (Element::Template(x), Element::Template(y)) => call_ensures(
            content_func,
            (func, x.name, settings),
            Ok(y.name),
        ) && call_ensures(content_func, (func, x.content, settings), Ok(y.content)),
        (Element::TemplateArgument(x), Element::TemplateArgument(y)) => call_ensures(
            content_func,
            (func, x.value, settings),
            Ok(y.value),
        ),
        (Element::InternalReference(x), Element::InternalReference(y)) => call_ensures(
            content_func,
            (func, x.target, settings),
            Ok(y.target),
        ) && y.options@.len() == x.options@.len() && (forall|j: int|
            0 <= j < x.options@.len() ==> call_ensures(
                content_func,
                (func, #[trigger] x.options@[j], settings),
                Ok(y.options@[j]),
            )) && call_ensures(content_func, (func, x.caption, settings), Ok(y.caption)),
        (Element::ExternalReference(x), Element::ExternalReference(y)) => call_ensures(
            content_func,
            (func, x.caption, settings),
            Ok(y.caption),
        ),
        (Element::ListItem(x), Element::ListItem(y)) => call_ensures(
            content_func,
            (func, x.content, settings),
            Ok(y.content),
        ),
        (Element::List(x), Element::List(y)) => call_ensures(
            content_func,
            (func, x.content, settings),
            Ok(y.content),
        ),
        (Element::Table(x), Element::Table(y)) => call_ensures(
            content_func,
            (func, x.caption, settings),
            Ok(y.caption),
        ) && call_ensures(content_func, (func, x.rows, settings), Ok(y.rows)),
        (Element::TableRow(x), Element::TableRow(y)) => call_ensures(
            content_func,
            (func, x.cells, settings),
            Ok(y.cells),
        ),
        (Element::TableCell(x), Element::TableCell(y)) => call_ensures(
            content_func,
            (func, x.content, settings),
            Ok(y.content),
        ),
        (Element::Comment(_), Element::Comment(_)) => true,
        (Element::HtmlTag(x), Element::HtmlTag(y)) => call_ensures(
            content_func,
            (func, x.content, settings),
            Ok(y.content),
        ),
        (Element::Gallery(x), Element::Gallery(y)) => call_ensures(
            content_func,
            (func, x.content, settings),
            Ok(y.content),
        ),
        (Element::Error(_), Element::Error(_)) => true,
        _ => false,
    }
}

/// The handler can return this list successfully.
pub open spec fn h_ok<S, F, G: Fn(&F, Vec<Element>, S) -> TListResult>(
    cf: G,
    func: &F,
    l: Vec<Element>,
    settings: S,
) -> bool {
    exists|o: Vec<Element>|
        #![trigger call_ensures(cf, (func, l, settings), Ok(o))]
        call_ensures(cf, (func, l, settings), Ok(o))
}

/// The handler can return this error on this list.
pub open spec fn h_err<S, F, G: Fn(&F, Vec<Element>, S) -> TListResult>(
    cf: G,
    func: &F,
    l: Vec<Element>,
    e: TransformationError,
    settings: S,
) -> bool {
    call_ensures(cf, (func, l, settings), Err(e))
}

/// The error is the content handler's first failure over the node's child
/// lists in declaration order: every list before the failing one has a
/// successful handler outcome.
pub open spec fn first_list_err<S, F, G: Fn(&F, Vec<Element>, S) -> TListResult>(
    cf: G,
    func: &F,
    a: Element,
    e: TransformationError,
    settings: S,
) -> bool {
    match a {
        Element::Document(x) => h_err(cf, func, x.content, e, settings),
        Element::Heading(x) => h_err(cf, func, x.caption, e, settings) || (h_ok(
            cf,
            func,
            x.caption,
            settings,
        ) && h_err(cf, func, x.content, e, settings)),
        Element::Text(_) => false,
        Element::Formatted(x) => h_err(cf, func, x.content, e, settings),
        Element::Paragraph(x) => h_err(cf, func, x.content, e, settings),
        Element::Template(x) => h_err(cf, func, x.name, e, settings) || (h_ok(
            cf,
            func,
            x.name,
            settings,
        ) && h_err(cf, func, x.content, e, settings)),
        Element::TemplateArgument(x) => h_err(cf, func, x.value, e, settings),
        Element::InternalReference(x) => h_err(cf, func, x.target, e, settings) || (h_ok(
            cf,
            func,
            x.target,
            settings,
        ) && ((exists|j: int|
            #![trigger x.options@[j]]
            0 <= j < x.options@.len() && h_err(cf, func, x.options@[j], e, settings) && forall|
                k: int,
            |
                #![trigger x.options@[k]]
                0 <= k < j ==> h_ok(cf, func, x.options@[k], settings)) || ((forall|k: int|
            #![trigger x.options@[k]]
            0 <= k < x.options@.len() ==> h_ok(cf, func, x.options@[k], settings)) && h_err(
            cf,
            func,
            x.caption,
            e,
            settings,
        )))),
        Element::ExternalReference(x) => h_err(cf, func, x.caption, e, settings),
        Element::ListItem(x) => h_err(cf, func, x.content, e, settings),
        Element::List(x) => h_err(cf, func, x.content, e, settings),
        Element::Table(x) => h_err(cf, func, x.caption, e, settings) || (h_ok(
            cf,
            func,
            x.caption,
            settings,
        ) && h_err(cf, func, x.rows, e, settings)),
        Element::TableRow(x) => h_err(cf, func, x.cells, e, settings),
        Element::TableCell(x) => h_err(cf, func, x.content, e, settings),
        Element::Comment(_) => false,
        Element::HtmlTag(x) => h_err(cf, func, x.content, e, settings),
        Element::Gallery(x) => h_err(cf, func, x.content, e, settings),
        Element::Error(_) => false,
    }
}

/// A first handler failure is in particular a handler failure on some list.
pub proof fn lemma_first_list_err_some<S, F, G: Fn(&F, Vec<Element>, S) -> TListResult>(
    cf: G,
    func: &F,
    a: Element,
    e: TransformationError,
    settings: S,
)
    requires
        first_list_err(cf, func, a, e, settings),
    ensures
        exists|l: Vec<Element>|
            #![trigger call_ensures(cf, (func, l, settings), Err(e))]
            call_ensures(cf, (func, l, settings), Err(e)),
{
}

/// Applies a transformation function to every element of a list, consuming
/// the list, in order, stopping at the first error.
pub fn apply_func_drain<S: Copy, F: Fn(Element, S) -> TResult>(
    func: &F,
    content: Vec<Element>,
    settings: S,
) -> (r: TListResult)
    requires
        forall|e: Element| call_requires(*func, (e, settings)),
    ensures
        match r {
            Ok(out) => out@.len() == content@.len() && forall|i: int|
                0 <= i < content@.len() ==> call_ensures(
                    *func,
                    (content@[i], settings),
                    Ok(out@[i]),
                ),
            Err(err) => exists|i: int|
                #![trigger content@[i]]
                0 <= i < content@.len() && call_ensures(*func, (content@[i], settings), Err(err))
                    && forall|j: int|
                    #![trigger content@[j]]
                    0 <= j < i ==> exists|o: Element|
                        #![trigger call_ensures(*func, (content@[j], settings), Ok(o))]
                        call_ensures(*func, (content@[j], settings), Ok(o)),
        },
{
    let ghost orig = content@;
    let mut rest = content;
    let mut result: Vec<Element> = Vec::new();
    let n = rest.len();
    let mut i: usize = 0;
    while i < n
        invariant
            0 <= i <= n,
            n == orig.len(),
            orig == content@,
            rest@ == orig.skip(i as int),
            result@.len() == i,
            forall|e: Element| call_requires(*func, (e, settings)),
            forall|j: int|
                0 <= j < i ==> call_ensures(*func, (orig[j], settings), Ok(#[trigger] result@[j])),
        decreases n - i,
    {
        let child = rest.remove(0);
        proof {
            assert(orig.skip(i as int)[0] == orig[i as int]);
            assert(child == orig[i as int]);
            assert(rest@ =~= orig.skip(i as int + 1));
        }
        let transformed = func(child, settings);
        match transformed {
            Ok(el) => {
                result.push(el);
            },
            Err(err) => {
                proof {
                    assert(call_ensures(
                        *func,
                        (orig[i as int], settings),
                        Err::<Element, TransformationError>(err),
                    ));
                    assert forall|j: int| #![trigger orig[j]] 0 <= j < i implies exists|
                        o: Element,
                    |
                        #![trigger call_ensures(*func, (orig[j], settings), Ok(o))]
                        call_ensures(*func, (orig[j], settings), Ok(o)) by {
                        assert(call_ensures(
                            *func,
                            (orig[j], settings),
                            Ok::<Element, TransformationError>(result@[j]),
                        ));
                    }
                }
                return Err(err);
            },
        }
        i = i + 1;
    }
    Ok(result)
}

/// Recursively applies a function `content_func` to each child list of a
/// node, in declaration order, stopping at the first error. The node's
/// variant, span and scalar fields stay as they are.
pub fn recurse_inplace_template<
    S: Copy,
    F: Fn(Element, S) -> TResult,
    G: Fn(&F, Vec<Element>, S) -> TListResult,
>(func: &F, root: Element, settings: S, content_func: &G) -> (r: TResult)
    requires
        forall|l: Vec<Element>| call_requires(*content_func, (func, l, settings)),
    ensures
        r matches Ok(out) ==> same_shell(root@, out@) && lists_handled(
            *content_func,
            func,
            root,
            out,
            settings,
        ),
        r matches Err(e) ==> first_list_err(*content_func, func, root, e, settings),
        root is Text || root is Comment || root is Error ==> (r matches Ok(out) && out == root),
{
    match root {
        Element::Document(d) => {
            let content = content_func(func, d.content, settings)?;
            Ok(Element::Document(crate::ast::Document { position: d.position, content }))
        },
        Element::Formatted(f) => {
            let content = content_func(func, f.content, settings)?;
            Ok(
                Element::Formatted(
                    crate::ast::Formatted { position: f.position, markup: f.markup, content },
                ),
            )
        },
        Element::Paragraph(p) => {
            let content = content_func(func, p.content, settings)?;
            Ok(Element::Paragraph(crate::ast::Paragraph { position: p.position, content }))
        },
        Element::ListItem(li) => {
            let content = content_func(func, li.content, settings)?;
            Ok(
                Element::ListItem(
                    crate::ast::ListItem {
                        position: li.position,
                        depth: li.depth,
                        kind: li.kind,
                        content,
                    },
                ),
            )
        },
        Element::List(l) => {
            let content = content_func(func, l.content, settings)?;
            Ok(Element::List(crate::ast::List { position: l.position, content }))
        },
        Element::TableCell(tc) => {
            let content = content_func(func, tc.content, settings)?;
            Ok(
                Element::TableCell(
                    crate::ast::TableCell {
                        position: tc.position,
                        header: tc.header,
                        attributes: tc.attributes,
                        content,
                    },
                ),
            )
        },
        Element::HtmlTag(ht) => {
            let content = content_func(func, ht.content, settings)?;
            Ok(
                Element::HtmlTag(
                    crate::ast::HtmlTag {
                        position: ht.position,
                        name: ht.name,
                        attributes: ht.attributes,
                        content,
                    },
                ),
            )
        },
        Element::Gallery(g) => {
            let content = content_func(func, g.content, settings)?;
            Ok(
                Element::Gallery(
                    crate::ast::Gallery {
                        position: g.position,
                        attributes: g.attributes,
                        content,
                    },
                ),
            )
        },
        Element::Heading(h) => {
            let caption = content_func(func, h.caption, settings)?;
            let content = content_func(func, h.content, settings)?;
            Ok(
                Element::Heading(
                    crate::ast::Heading { position: h.position, depth: h.depth, caption, content },
                ),
            )
        },
        Element::Template(t) => {
            let name = content_func(func, t.name, settings)?;
            let content = content_func(func, t.content, settings)?;
            Ok(Element::Template(crate::ast::Template { position: t.position, name, content }))
        },
        Element::TemplateArgument(a) => {
            let value = content_func(func, a.value, settings)?;
            Ok(
                Element::TemplateArgument(
                    crate::ast::TemplateArgument { position: a.position, name: a.name, value },
                ),
            )
        },
        Element::InternalReference(ir) => {
            let ghost x0 = ir;
            let target = content_func(func, ir.target, settings)?;
            let mut new_options: Vec<Vec<Element>> = Vec::new();
            let mut options = ir.options;
            let ghost orig_opts = options@;
            let n = options.len();
            let mut i: usize = 0;
            while i < n
                invariant
                    0 <= i <= n,
                    n == orig_opts.len(),
                    options@ == orig_opts.skip(i as int),
                    new_options@.len() == i,
                    root == Element::InternalReference(x0),
                    x0.options@ == orig_opts,
                    h_ok(*content_func, func, x0.target, settings),
                    forall|j: int|
                        0 <= j < i ==> call_ensures(
                            *content_func,
                            (func, orig_opts[j], settings),
                            Ok(#[trigger] new_options@[j]),
                        ),
                    forall|l: Vec<Element>| call_requires(*content_func, (func, l, settings)),
                decreases n - i,
            {
                let option = options.remove(0);
                proof {
                    assert(orig_opts.skip(i as int)[0] == orig_opts[i as int]);
                    assert(option == orig_opts[i as int]);
                    assert(options@ =~= orig_opts.skip(i as int + 1));
                }
                let transformed = match content_func(func, option, settings) {
                    Ok(t) => t,
                    Err(e2) => {
                        proof {
                            assert(h_err(*content_func, func, orig_opts[i as int], e2, settings));
                            assert forall|k: int| #![trigger x0.options@[k]] 0 <= k < i implies
                                h_ok(*content_func, func, x0.options@[k], settings) by {
                                assert(call_ensures(
                                    *content_func,
                                    (func, orig_opts[k], settings),
                                    Ok::<Vec<Element>, TransformationError>(new_options@[k]),
                                ));
                            }
                            assert(x0.options@[i as int] == orig_opts[i as int]);
                            assert(first_list_err(*content_func, func, root, e2, settings));
                        }
                        return Err(e2);
                    },
                };
                new_options.push(transformed);
                i = i + 1;
            }
            let caption = match content_func(func, ir.caption, settings) {
                Ok(c) => c,
                Err(e2) => {
                    proof {
                        assert forall|k: int| #![trigger x0.options@[k]] 0 <= k
                            < orig_opts.len() implies h_ok(
                            *content_func,
                            func,
                            x0.options@[k],
                            settings,
                        ) by {
                            assert(call_ensures(
                                *content_func,
                                (func, orig_opts[k], settings),
                                Ok::<Vec<Element>, TransformationError>(new_options@[k]),
                            ));
                        }
                        assert(h_err(*content_func, func, x0.caption, e2, settings));
                        assert(first_list_err(*content_func, func, root, e2, settings));
                    }
                    return Err(e2);
                },
            };
            Ok(
                Element::InternalReference(
                    crate::ast::InternalReference {
                        position: ir.position,
                        target,
                        options: new_options,
                        caption,
                    },
                ),
            )
        },
        Element::ExternalReference(er) => {
            let caption = content_func(func, er.caption, settings)?;
            Ok(
                Element::ExternalReference(
                    crate::ast::ExternalReference {
                        position: er.position,
                        target: er.target,
                        caption,
                    },
                ),
            )
        },
        Element::Table(t) => {
            let caption = content_func(func, t.caption, settings)?;
            let rows = content_func(func, t.rows, settings)?;
            Ok(
                Element::Table(
                    crate::ast::Table {
                        position: t.position,
                        attributes: t.attributes,
                        caption,
                        caption_attributes: t.caption_attributes,
                        rows,
                    },
                ),
            )
        },
        Element::TableRow(tr) => {
            let cells = content_func(func, tr.cells, settings)?;
            Ok(
                Element::TableRow(
                    crate::ast::TableRow {
                        position: tr.position,
                        attributes: tr.attributes,
                        cells,
                    },
                ),
            )
        },
        Element::Text(t) => Ok(Element::Text(t)),
        Element::Comment(c) => Ok(Element::Comment(c)),
        Element::Error(e) => Ok(Element::Error(e)),
    }
}

/// Applies a transformation function to every element of a list under a
/// given ancestor path, without consuming the list, in order, stopping at
/// the first error.
pub fn apply_func_clone<'a, S: Copy, F: Fn(&'a Element, &Vec<&'a Element>, S) -> TResult>(
    func: &F,
    content: &'a Vec<Element>,
    path: &Vec<&'a Element>,
    settings: S,
) -> (r: TListResult)
    requires
        forall|e: &'a Element, q: &Vec<&'a Element>| call_requires(*func, (e, q, settings)),
    ensures
        r matches Ok(out) ==> out@.len() == content@.len() && forall|i: int|
            #![trigger out@[i]]
            0 <= i < content@.len() ==> call_ensures(
                *func,
                (&content[i], path, settings),
                Ok(out@[i]),
            ),
        r matches Err(err) ==> exists|i: int|
            #![trigger content@[i]]
            0 <= i < content@.len() && call_ensures(
                *func,
                (&content[i], path, settings),
                Err(err),
            ) && forall|j: int|
                #![trigger content@[j]]
                0 <= j < i ==> exists|o: Element|
                    #![trigger call_ensures(*func, (&content[j], path, settings), Ok(o))]
                    call_ensures(*func, (&content[j], path, settings), Ok(o)),
{
    let mut result: Vec<Element> = Vec::new();
    let n = content.len();
    let mut i: usize = 0;
    while i < n
        invariant
            0 <= i <= n,
            n == content@.len(),
            result@.len() == i,
            forall|j: int|
                #![trigger result@[j]]
                0 <= j < i ==> call_ensures(
                    *func,
                    (&content[j], path, settings),
                    Ok(result@[j]),
                ),
            forall|e: &'a Element, q: &Vec<&'a Element>| call_requires(*func, (e, q, settings)),
        decreases n - i,
    {
        let child = &content[i];
        let transformed = func(child, path, settings);
        match transformed {
            Ok(el) => {
                result.push(el);
            },
            Err(err) => {
                proof {
                    assert(call_ensures(
                        *func,
                        (&content[i as int], path, settings),
                        Err::<Element, TransformationError>(err),
                    ));
                    assert forall|j: int| #![trigger content@[j]] 0 <= j < i implies exists|
                        o: Element,
                    |
                        #![trigger call_ensures(*func, (&content[j], path, settings), Ok(o))]
                        call_ensures(*func, (&content[j], path, settings), Ok(o)) by {
                        assert(call_ensures(
                            *func,
                            (&content[j], path, settings),
                            Ok::<Element, TransformationError>(result@[j]),
                        ));
                    }
                }
                return Err(err);
            },
        }
        i = i + 1;
    }
    Ok(result)
}

/// Every child list of `b` is what the content handler made of the
/// corresponding child list of `*a` under the ancestor path `q`, in
/// declaration order.
pub open spec fn clone_lists_handled<
    'a,
    S,
    F,
    G: Fn(&F, &'a Vec<Element>, &Vec<&'a Element>, S) -> TListResult,
>(cf: G, func: &F, a: &'a Element, b: Element, q: &Vec<&'a Element>, settings: S) -> bool {
    match (a, b) {
        (Element::Document(x), Element::Document(y)) => call_ensures(
            cf,
            (func, &x.content, q, settings),
            Ok(y.content),
        ),
        (Element::Heading(x), Element::Heading(y)) => call_ensures(
            cf,
            (func, &x.caption, q, settings),
            Ok(y.caption),
        ) && call_ensures(cf, (func, &x.content, q, settings), Ok(y.content)),
        (Element::Text(_), Element::Text(_)) => true,
        (Element::Formatted(x), Element::Formatted(y)) => call_ensures(
            cf,
            (func, &x.content, q, settings),
            Ok(y.content),
        ),
        (Element::Paragraph(x), Element::Paragraph(y)) => call_ensures(
            cf,
            (func, &x.content, q, settings),
            Ok(y.content),
        ),
        (Element::Template(x), Element::Template(y)) => call_ensures(
            cf,
            (func, &x.name, q, settings),
            Ok(y.name),
        ) && call_ensures(cf, (func, &x.content, q, settings), Ok(y.content)),
        (Element::TemplateArgument(x), Element::TemplateArgument(y)) => call_ensures(
            cf,
            (func, &x.value, q, settings),
            Ok(y.value),
        ),
        (Element::InternalReference(x), Element::InternalReference(y)) => call_ensures(
            cf,
            (func, &x.target, q, settings),
            Ok(y.target),
        ) && y.options@.len() == x.options@.len() && (forall|j: int|
            #![trigger y.options@[j]]
            0 <= j < x.options@.len() ==> call_ensures(
                cf,
                (func, &x.options[j], q, settings),
                Ok(y.options@[j]),
            )) && call_ensures(cf, (func, &x.caption, q, settings), Ok(y.caption)),
        (Element::ExternalReference(x), Element::ExternalReference(y)) => call_ensures(
            cf,
            (func, &x.caption, q, settings),
            Ok(y.caption),
        ),
        (Element::ListItem(x), Element::ListItem(y)) => call_ensures(
            cf,
            (func, &x.content, q, settings),
            Ok(y.content),
        ),
        (Element::List(x), Element::List(y)) => call_ensures(
            cf,
            (func, &x.content, q, settings),
            Ok(y.content),
        ),
        (Element::Table(x), Element::Table(y)) => call_ensures(
            cf,
            (func, &x.caption, q, settings),
            Ok(y.caption),
        ) && call_ensures(cf, (func, &x.rows, q, settings), Ok(y.rows)),
        (Element::TableRow(x), Element::TableRow(y)) => call_ensures(
            cf,
            (func, &x.cells, q, settings),
            Ok(y.cells),
        ),
        (Element::TableCell(x), Element::TableCell(y)) => call_ensures(
            cf,
            (func, &x.content, q, settings),
            Ok(y.content),
        ),
        (Element::Comment(_), Element::Comment(_)) => true,
        (Element::HtmlTag(x), Element::HtmlTag(y)) => call_ensures(
            cf,
            (func, &x.content, q, settings),
            Ok(y.content),
        ),
        (Element::Gallery(x), Element::Gallery(y)) => call_ensures(
            cf,
            (func, &x.content, q, settings),
            Ok(y.content),
        ),
        (Element::Error(_), Element::Error(_)) => true,
        _ => false,
    }
}

/// The handler can succeed on this list under this path.
pub open spec fn ch_ok<'a, S, F, G: Fn(&F, &'a Vec<Element>, &Vec<&'a Element>, S) -> TListResult>(
    cf: G,
    func: &F,
    l: &'a Vec<Element>,
    q: &Vec<&'a Element>,
    settings: S,
) -> bool {
    exists|o: Vec<Element>|
        #![trigger call_ensures(cf, (func, l, q, settings), Ok(o))]
        call_ensures(cf, (func, l, q, settings), Ok(o))
}

/// The error is the content handler's first failure over the node's child
/// lists in declaration order, under the ancestor path `q`.
pub open spec fn clone_first_list_err<
    'a,
    S,
    F,
    G: Fn(&F, &'a Vec<Element>, &Vec<&'a Element>, S) -> TListResult,
>(cf: G, func: &F, a: &'a Element, e: TransformationError, q: &Vec<&'a Element>, settings: S) -> bool {
    match a {
        Element::Document(x) => call_ensures(cf, (func, &x.content, q, settings), Err(e)),
        Element::Heading(x) => call_ensures(cf, (func, &x.caption, q, settings), Err(e)) || (
        ch_ok(cf, func, &x.caption, q, settings) && call_ensures(
            cf,
            (func, &x.content, q, settings),
            Err(e),
        )),
        Element::Text(_) => false,
        Element::Formatted(x) => call_ensures(cf, (func, &x.content, q, settings), Err(e)),
        Element::Paragraph(x) => call_ensures(cf, (func, &x.content, q, settings), Err(e)),
        Element::Template(x) => call_ensures(cf, (func, &x.name, q, settings), Err(e)) || (ch_ok(
            cf,
            func,
            &x.name,
            q,
            settings,
        ) && call_ensures(cf, (func, &x.content, q, settings), Err(e))),
        Element::TemplateArgument(x) => call_ensures(cf, (func, &x.value, q, settings), Err(e)),
        Element::InternalReference(x) => call_ensures(cf, (func, &x.target, q, settings), Err(e))
            || (ch_ok(cf, func, &x.target, q, settings) && ((exists|j: int|
            #![trigger x.options@[j]]
            0 <= j < x.options@.len() && call_ensures(
                cf,
                (func, &x.options[j], q, settings),
                Err(e),
            ) && forall|k: int|
                #![trigger x.options@[k]]
                0 <= k < j ==> ch_ok(cf, func, &x.options[k], q, settings)) || ((forall|k: int|
            #![trigger x.options@[k]]
            0 <= k < x.options@.len() ==> ch_ok(cf, func, &x.options[k], q, settings))
            && call_ensures(cf, (func, &x.caption, q, settings), Err(e))))),
        Element::ExternalReference(x) => call_ensures(cf, (func, &x.caption, q, settings), Err(e)),
        Element::ListItem(x) => call_ensures(cf, (func, &x.content, q, settings), Err(e)),
        Element::List(x) => call_ensures(cf, (func, &x.content, q, settings), Err(e)),
        Element::Table(x) => call_ensures(cf, (func, &x.caption, q, settings), Err(e)) || (ch_ok(
            cf,
            func,
            &x.caption,
            q,
            settings,
        ) && call_ensures(cf, (func, &x.rows, q, settings), Err(e))),
        Element::TableRow(x) => call_ensures(cf, (func, &x.cells, q, settings), Err(e)),
        Element::TableCell(x) => call_ensures(cf, (func, &x.content, q, settings), Err(e)),
        Element::Comment(_) => false,
        Element::HtmlTag(x) => call_ensures(cf, (func, &x.content, q, settings), Err(e)),
        Element::Gallery(x) => call_ensures(cf, (func, &x.content, q, settings), Err(e)),
        Element::Error(_) => false,
    }
}

/// Recursively applies a function `content_func` to each child list of a
/// node under an ancestor path that grows by the node itself, producing a
/// structurally independent output tree. Child lists are visited in
/// declaration order, stopping at the first error.
pub fn recurse_clone_template<
    'a,
    S: Copy,
    F: Fn(&'a Element, &Vec<&'a Element>, S) -> TResult,
    G: Fn(&F, &'a Vec<Element>, &Vec<&'a Element>, S) -> TListResult,
>(
    func: &F,
    root: &'a Element,
    path: &Vec<&'a Element>,
    settings: S,
    content_func: &G,
) -> (r: TResult)
    requires
        forall|l: &'a Vec<Element>, q: &Vec<&'a Element>|
            call_requires(*content_func, (func, l, q, settings)),
    ensures
        r matches Ok(out) ==> same_shell(root@, out@) && exists|q: &Vec<&'a Element>|
            #![trigger q@]
            q@ == path@.push(root) && clone_lists_handled(
                *content_func,
                func,
                root,
                out,
                q,
                settings,
            ),
        r matches Err(e) ==> exists|q: &Vec<&'a Element>|
            #![trigger q@]
            q@ == path@.push(root) && clone_first_list_err(
                *content_func,
                func,
                root,
                e,
                q,
                settings,
            ),
        root is Text || root is Comment || root is Error ==> (r matches Ok(out) && out@
            == root@),
{
    let mut p: Vec<&'a Element> = Vec::new();
    let np = path.len();
    let mut k: usize = 0;
    while k < np
        invariant
            0 <= k <= np,
            np == path@.len(),
            p@.len() == k,
            forall|j: int| 0 <= j < k ==> p@[j] == path@[j],
        decreases np - k,
    {
        p.push(path[k]);
        k = k + 1;
    }
    p.push(root);
    proof {
        assert(p@ =~= path@.push(root));
    }
    match root {
        Element::Document(d) => {
            let content = content_func(func, &d.content, &p, settings)?;
            let out_e = Element::Document(
                crate::ast::Document {
                    position: d.position,
                    content: content,
                },
            );
            proof {
                assert(clone_lists_handled(*content_func, func, root, out_e, &p, settings));
            }
            Ok(out_e)
        },
        Element::Heading(h) => {
            let caption = content_func(func, &h.caption, &p, settings)?;
            let content = content_func(func, &h.content, &p, settings)?;
            let out_e = Element::Heading(
                crate::ast::Heading { position: h.position, depth: h.depth, caption, content },
            );
            proof {
                assert(clone_lists_handled(*content_func, func, root, out_e, &p, settings));
            }
            Ok(out_e)
        },
        Element::Formatted(f) => {
            let content = content_func(func, &f.content, &p, settings)?;
            let out_e = Element::Formatted(
                crate::ast::Formatted {
                    position: f.position,
                    markup: f.markup,
                    content: content,
                },
            );
            proof {
                assert(clone_lists_handled(*content_func, func, root, out_e, &p, settings));
            }
            Ok(out_e)
        },
        Element::Paragraph(par) => {
            let content = content_func(func, &par.content, &p, settings)?;
            let out_e = Element::Paragraph(
                crate::ast::Paragraph {
                    position: par.position,
                    content: content,
                },
            );
            proof {
                assert(clone_lists_handled(*content_func, func, root, out_e, &p, settings));
            }
            Ok(out_e)
        },
        Element::Template(t) => {
            let name = content_func(func, &t.name, &p, settings)?;
            let content = content_func(func, &t.content, &p, settings)?;
            let out_e = Element::Template(
                crate::ast::Template { position: t.position, name, content },
            );
            proof {
                assert(clone_lists_handled(*content_func, func, root, out_e, &p, settings));
            }
            Ok(out_e)
        },
        Element::TemplateArgument(a) => {
            let value = content_func(func, &a.value, &p, settings)?;
            let out_e = Element::TemplateArgument(
                crate::ast::TemplateArgument { position: a.position, name: a.name.clone(), value },
            );
            proof {
                assert(clone_lists_handled(*content_func, func, root, out_e, &p, settings));
            }
            Ok(out_e)
        },
        Element::InternalReference(ir) => {
            let target = content_func(func, &ir.target, &p, settings)?;
            let mut new_options: Vec<Vec<Element>> = Vec::new();
            let no = ir.options.len();
            let mut i: usize = 0;
            while i < no
                invariant
                    0 <= i <= no,
                    no == ir.options@.len(),
                    new_options@.len() == i,
                    p@ == path@.push(root),
                    *root == Element::InternalReference(*ir),
                    call_ensures(*content_func, (func, &ir.target, &p, settings), Ok(target)),
                    forall|j: int|
                        0 <= j < i ==> call_ensures(
                            *content_func,
                            (func, &ir.options[j], &p, settings),
                            Ok(#[trigger] new_options@[j]),
                        ),
                    forall|l: &'a Vec<Element>, q: &Vec<&'a Element>|
                        call_requires(*content_func, (func, l, q, settings)),
                decreases no - i,
            {
                let transformed = match content_func(func, &ir.options[i], &p, settings) {
                    Ok(t) => t,
                    Err(e2) => {
                        proof {
                            assert(ch_ok(*content_func, func, &ir.target, &p, settings));
                            assert forall|k: int| #![trigger ir.options@[k]] 0 <= k < i implies
                                ch_ok(*content_func, func, &ir.options[k], &p, settings) by {
                                assert(call_ensures(
                                    *content_func,
                                    (func, &ir.options[k], &p, settings),
                                    Ok::<Vec<Element>, TransformationError>(new_options@[k]),
                                ));
                            }
                            assert(clone_first_list_err(
                                *content_func,
                                func,
                                root,
                                e2,
                                &p,
                                settings,
                            ));
                        }
                        return Err(e2);
                    },
                };
                new_options.push(transformed);
                i = i + 1;
            }
            let caption = match content_func(func, &ir.caption, &p, settings) {
                Ok(c) => c,
                Err(e2) => {
                    proof {
                        assert(ch_ok(*content_func, func, &ir.target, &p, settings));
                        assert forall|k: int| #![trigger ir.options@[k]] 0 <= k
                            < ir.options@.len() implies ch_ok(
                            *content_func,
                            func,
                            &ir.options[k],
                            &p,
                            settings,
                        ) by {
                            assert(call_ensures(
                                *content_func,
                                (func, &ir.options[k], &p, settings),
                                Ok::<Vec<Element>, TransformationError>(new_options@[k]),
                            ));
                        }
                        assert(clone_first_list_err(*content_func, func, root, e2, &p, settings));
                    }
                    return Err(e2);
                },
            };
            let out_e = Element::InternalReference(
                crate::ast::InternalReference {
                    position: ir.position,
                    target,
                    options: new_options,
                    caption,
                },
            );
            proof {
                assert(clone_lists_handled(*content_func, func, root, out_e, &p, settings));
            }
            Ok(out_e)
        },
        Element::ExternalReference(er) => {
            let caption = content_func(func, &er.caption, &p, settings)?;
            let out_e = Element::ExternalReference(
                crate::ast::ExternalReference {
                    position: er.position,
                    target: er.target.clone(),
                    caption,
                },
            );
            proof {
                assert(clone_lists_handled(*content_func, func, root, out_e, &p, settings));
            }
            Ok(out_e)
        },
        Element::ListItem(li) => {
            let content = content_func(func, &li.content, &p, settings)?;
            let out_e = Element::ListItem(
                crate::ast::ListItem {
                    position: li.position,
                    depth: li.depth,
                    kind: li.kind,
                    content,
                },
            );
            proof {
                assert(clone_lists_handled(*content_func, func, root, out_e, &p, settings));
            }
            Ok(out_e)
        },
        Element::List(l) => {
            let content = content_func(func, &l.content, &p, settings)?;
            let out_e = Element::List(
                crate::ast::List {
                    position: l.position,
                    content: content,
                },
            );
            proof {
                assert(clone_lists_handled(*content_func, func, root, out_e, &p, settings));
            }
            Ok(out_e)
        },
        Element::Table(t) => {
            let caption = content_func(func, &t.caption, &p, settings)?;
            let rows = content_func(func, &t.rows, &p, settings)?;
            let out_e = Element::Table(
                crate::ast::Table {
                    position: t.position,
                    attributes: duplicate_attrs(&t.attributes),
                    caption,
                    caption_attributes: duplicate_attrs(&t.caption_attributes),
                    rows,
                },
            );
            proof {
                assert(clone_lists_handled(*content_func, func, root, out_e, &p, settings));
            }
            Ok(out_e)
        },
        Element::TableRow(tr) => {
            let cells = content_func(func, &tr.cells, &p, settings)?;
            let out_e = Element::TableRow(
                crate::ast::TableRow {
                    position: tr.position,
                    attributes: duplicate_attrs(&tr.attributes),
                    cells,
                },
            );
            proof {
                assert(clone_lists_handled(*content_func, func, root, out_e, &p, settings));
            }
            Ok(out_e)
        },
        Element::TableCell(tc) => {
            let content = content_func(func, &tc.content, &p, settings)?;
            let out_e = Element::TableCell(
                crate::ast::TableCell {
                    position: tc.position,
                    header: tc.header,
                    attributes: duplicate_attrs(&tc.attributes),
                    content,
                },
            );
            proof {
                assert(clone_lists_handled(*content_func, func, root, out_e, &p, settings));
            }
            Ok(out_e)
        },
        Element::HtmlTag(ht) => {
            let content = content_func(func, &ht.content, &p, settings)?;
            let out_e = Element::HtmlTag(
                crate::ast::HtmlTag {
                    position: ht.position,
                    name: ht.name.clone(),
                    attributes: duplicate_attrs(&ht.attributes),
                    content,
                },
            );
            proof {
                assert(clone_lists_handled(*content_func, func, root, out_e, &p, settings));
            }
            Ok(out_e)
        },
        Element::Gallery(g) => {
            let content = content_func(func, &g.content, &p, settings)?;
            let out_e = Element::Gallery(
                crate::ast::Gallery {
                    position: g.position,
                    attributes: duplicate_attrs(&g.attributes),
                    content,
                },
            );
            proof {
                assert(clone_lists_handled(*content_func, func, root, out_e, &p, settings));
            }
            Ok(out_e)
        },
        Element::Comment(_) => {
            let out_e = crate::ast::duplicate(root);
            proof {
                assert(clone_lists_handled(*content_func, func, root, out_e, &p, settings));
            }
            Ok(out_e)
        },
        Element::Text(_) => {
            let out_e = crate::ast::duplicate(root);
            proof {
                assert(clone_lists_handled(*content_func, func, root, out_e, &p, settings));
            }
            Ok(out_e)
        },
        Element::Error(_) => {
            let out_e = crate::ast::duplicate(root);
            proof {
                assert(clone_lists_handled(*content_func, func, root, out_e, &p, settings));
            }
            Ok(out_e)
        },
    }

}

/// A first handler failure is in particular a handler failure on some list.
pub proof fn lemma_clone_first_list_err_some<
    'a,
    S,
    F,
    G: Fn(&F, &'a Vec<Element>, &Vec<&'a Element>, S) -> TListResult,
>(cf: G, func: &F, a: &'a Element, e: TransformationError, q: &Vec<&'a Element>, settings: S)
    requires
        clone_first_list_err(cf, func, a, e, q, settings),
    ensures
        exists|l: &'a Vec<Element>|
            #![trigger call_ensures(cf, (func, l, q, settings), Err(e))]
            call_ensures(cf, (func, l, q, settings), Err(e)),
{
}

/// Recursively applies a transformation function to all children of a node,
/// cloning the input, with the default child-list handler: each element of
/// every child list becomes the function's output for it under the path
/// extended by the node itself.
pub fn recurse_clone<'a, S: Copy, F: Fn(&'a Element, &Vec<&'a Element>, S) -> TResult>(
    func: &F,
    root: &'a Element,
    path: &Vec<&'a Element>,
    settings: S,
) -> (r: TResult)
    requires
        forall|e: &'a Element, q: &Vec<&'a Element>| call_requires(*func, (e, q, settings)),
    ensures
        r matches Ok(out) ==> same_shell(root@, out@) && exists|q: &Vec<&'a Element>|
            #![trigger q@]
            q@ == path@.push(root) && clone_lists_handled(
                apply_func_clone::<S, F>,
                func,
                root,
                out,
                q,
                settings,
            ),
        r matches Err(e) ==> exists|q: &Vec<&'a Element>, c: &'a Element|
            #![trigger call_ensures(*func, (c, q, settings), Err(e))]
            q@ == path@.push(root) && call_ensures(*func, (c, q, settings), Err(e)),
        root is Text || root is Comment || root is Error ==> (r matches Ok(out) && out@
            == root@),
{
    let r = recurse_clone_template(func, root, path, settings, &(apply_func_clone::<S, F>));
    proof {
        match r {
            Ok(_) => {},
            Err(ref e) => {
                let q = choose|q: &Vec<&'a Element>|
                    #![trigger q@]
                    q@ == path@.push(root) && clone_first_list_err(
                        apply_func_clone::<S, F>,
                        func,
                        root,
                        *e,
                        q,
                        settings,
                    );
                lemma_clone_first_list_err_some(
                    apply_func_clone::<S, F>,
                    func,
                    root,
                    *e,
                    q,
                    settings,
                );
                let l = choose|l: &'a Vec<Element>|
                    #![trigger call_ensures(apply_func_clone::<S, F>, (func, l, q, settings), Err(*e))]
                    call_ensures(apply_func_clone::<S, F>, (func, l, q, settings), Err(*e));
                assert(exists|q2: &Vec<&'a Element>, c: &'a Element|
                    #![trigger call_ensures(*func, (c, q2, settings), Err(*e))]
                    q2@ == path@.push(root) && call_ensures(*func, (c, q2, settings), Err(*e)));
            },
        }
    }
    r
}

/// Recursively applies a transformation function to all children of a node,
/// using the default child-list handler that maps the function over the list.
pub fn recurse_inplace<S: Copy, F: Fn(Element, S) -> TResult>(
    func: &F,
    root: Element,
    settings: S,
) -> (r: TResult)
    requires
        forall|e: Element| call_requires(*func, (e, settings)),
    ensures
        r matches Ok(out) ==> same_shell(root@, out@) && lists_mapped(
            *func,
            root,
            out,
            settings,
        ),
        r matches Err(e) ==> exists|c: Element|
            #![trigger call_ensures(*func, (c, settings), Err(e))]
            call_ensures(*func, (c, settings), Err(e)),
        root is Text || root is Comment || root is Error ==> (r matches Ok(out) && out == root),
{
    let r = recurse_inplace_template(func, root, settings, &(apply_func_drain::<S, F>));
    proof {
        match r {
            Ok(ref out) => {
                assert(lists_mapped(*func, root, *out, settings));
            },
            Err(ref e) => {
                lemma_first_list_err_some(
                    apply_func_drain::<S, F>,
                    func,
                    root,
                    *e,
                    settings,
                );
                let l = choose|l: Vec<Element>|
                    #![trigger call_ensures(apply_func_drain::<S, F>, (func, l, settings), Err(*e))]
                    call_ensures(apply_func_drain::<S, F>, (func, l, settings), Err(*e));
                assert(exists|c: Element|
                    #![trigger call_ensures(*func, (c, settings), Err(*e))]
                    call_ensures(*func, (c, settings), Err(*e)));
            },
        }
    }
    r
}

} // verus!
