//! The functional model of the transformation passes: for each pass, a spec
//! function that maps the tree model to the transformed tree model or to the
//! error the pass reports.

use vstd::prelude::*;

use crate::ast::{
    esize, lemma_esize_pos, lemma_list_size_concat, lemma_list_size_drop, lemma_list_size_index,
    lemma_list_size_push, lemma_list_size_update, lemma_opts_size_index, list_size, opts_size,
    rank, span_of, ElementView, Span,
};
use crate::error::TransformationErrorView;
use crate::util::{dec_str, ws_seq};

verus! {

/// The structural rewrite passes, in the order the pipeline runs them.
#[derive(Debug, Clone, Copy, PartialEq, Eq, Structural)]
pub enum Pass {
    FoldHeadings,
    FoldLists,
    WhitespaceParagraphs,
    CollapseParagraphs,
    CollapseText,
    EnumerateAnonArgs,
}

/// The name a pass reports in its errors.
pub open spec fn pass_name(p: Pass) -> Seq<char> {
    match p {
        Pass::FoldHeadings => "fold_headings_transformation"@,
        Pass::FoldLists => "fold_lists_transformation"@,
        Pass::WhitespaceParagraphs => "whitespace_paragraphs_to_empty"@,
        Pass::CollapseParagraphs => "collapse_paragraphs"@,
        Pass::CollapseText => "collapse_consecutive_text"@,
        Pass::EnumerateAnonArgs => "enumerate_anon_args"@,
    }
}

/// The error reported when a non-heading element follows a heading.
pub open spec fn fh_error(child: ElementView) -> TransformationErrorView {
    TransformationErrorView {
        cause: "a non-heading element was found after a heading. This should not happen."@,
        position: span_of(child),
        transformation_name: pass_name(Pass::FoldHeadings),
        tree: child,
    }
}

/// Folding headings: a single left-to-right walk. A heading deeper than the
/// current reference heading moves into the reference heading's content; a
/// heading at the same depth or shallower becomes the new reference; any
/// other element after a reference heading is a structural violation.
pub open spec fn fh_restructure_go(
    rem: Seq<ElementView>,
    acc: Seq<ElementView>,
    cur_depth: usize,
    idx: int,
) -> Result<Seq<ElementView>, TransformationErrorView>
    decreases rem.len(),
{
    if rem.len() == 0 {
        Ok(acc)
    } else {
        let child = rem.first();
        match child {
            ElementView::Heading { span, depth, caption, content } => {
                if depth > cur_depth {
                    let acc2 = if 0 <= idx < acc.len() && acc[idx] is Heading {
                        match acc[idx] {
                            ElementView::Heading {
                                span: rspan,
                                depth: rdepth,
                                caption: rcaption,
                                content: rcontent,
                            } => acc.update(
                                idx,
                                ElementView::Heading {
                                    span: rspan,
                                    depth: rdepth,
                                    caption: rcaption,
                                    content: rcontent.push(child),
                                },
                            ),
                            _ => acc,
                        }
                    } else {
                        acc
                    };
                    fh_restructure_go(rem.drop_first(), acc2, cur_depth, idx)
                } else {
                    fh_restructure_go(rem.drop_first(), acc.push(child), depth, acc.len() as int)
                }
            },
            _ => {
                if cur_depth < usize::MAX {
                    Err(fh_error(child))
                } else {
                    fh_restructure_go(rem.drop_first(), acc.push(child), cur_depth, idx)
                }
            },
        }
    }
}

pub open spec fn fh_restructure(s: Seq<ElementView>) -> Result<
    Seq<ElementView>,
    TransformationErrorView,
> {
    fh_restructure_go(s, Seq::empty(), usize::MAX, 0)
}

/// The error reported when a list's content holds a non-list-item.
pub open spec fn fl_nonitem_error(child: ElementView) -> TransformationErrorView {
    TransformationErrorView {
        cause: "A list should not contain non-listitems."@,
        position: span_of(child),
        transformation_name: pass_name(Pass::FoldLists),
        tree: child,
    }
}

/// The error reported when the sublist to append to was not found.
pub open spec fn fl_found_error(item: ElementView) -> TransformationErrorView {
    TransformationErrorView {
        cause: "sublist was not instantiated properly."@,
        position: span_of(item),
        transformation_name: pass_name(Pass::FoldLists),
        tree: item,
    }
}

/// The first child of a list that is not a list item, if any.
pub open spec fn fl_first_nonitem(s: Seq<ElementView>) -> Option<int>
    decreases s.len(),
{
    if s.len() == 0 {
        None
    } else if !(s.first() is ListItem) {
        Some(0int)
    } else {
        match fl_first_nonitem(s.drop_first()) {
            None => None,
            Some(k) => Some(k + 1),
        }
    }
}

/// The least depth among a list's items.
pub open spec fn fl_lowest(s: Seq<ElementView>) -> usize
    decreases s.len(),
{
    if s.len() == 0 {
        usize::MAX
    } else {
        let rest = fl_lowest(s.drop_first());
        match s.first() {
            ElementView::ListItem { depth, .. } => if depth < rest {
                depth
            } else {
                rest
            },
            _ => rest,
        }
    }
}

/// Folding list items: items at the least depth stay siblings; deeper items
/// move into a list newly appended to the most recent sibling, one new list
/// per contiguous deeper run. A deeper run before any sibling gets a
/// synthesized placeholder item at the least depth.
pub open spec fn fl_restructure_go(
    rem: Seq<ElementView>,
    lowest: usize,
    create: bool,
    acc: Seq<ElementView>,
) -> Result<Seq<ElementView>, TransformationErrorView>
    decreases rem.len(),
{
    if rem.len() == 0 {
        Ok(acc)
    } else {
        let child = rem.first();
        match child {
            ElementView::ListItem { span, depth, kind, content } => {
                if depth > lowest {
                    let acc1 = if create {
                        let acc0 = if acc.len() == 0 {
                            acc.push(
                                ElementView::ListItem {
                                    span,
                                    depth: lowest,
                                    kind,
                                    content: Seq::empty(),
                                },
                            )
                        } else {
                            acc
                        };
                        match acc0.last() {
                            ElementView::ListItem {
                                span: lspan,
                                depth: ldepth,
                                kind: lkind,
                                content: lcontent,
                            } => Ok(
                                acc0.update(
                                    acc0.len() - 1,
                                    ElementView::ListItem {
                                        span: lspan,
                                        depth: ldepth,
                                        kind: lkind,
                                        content: lcontent.push(
                                            ElementView::List { span, content: Seq::empty() },
                                        ),
                                    },
                                ),
                            ),
                            _ => Err(fl_found_error(child)),
                        }
                    } else {
                        Ok(acc)
                    };
                    match acc1 {
                        Err(e) => Err(e),
                        Ok(acc2) => if acc2.len() > 0 && acc2.last() is ListItem {
                            match acc2.last() {
                                ElementView::ListItem {
                                    span: lspan,
                                    depth: ldepth,
                                    kind: lkind,
                                    content: lcontent,
                                } => if lcontent.len() > 0 && lcontent.last() is List {
                                    match lcontent.last() {
                                        ElementView::List { span: sspan, content: scontent } => {
                                            let newlast = ElementView::ListItem {
                                                span: lspan,
                                                depth: ldepth,
                                                kind: lkind,
                                                content: lcontent.update(
                                                    lcontent.len() - 1,
                                                    ElementView::List {
                                                        span: sspan,
                                                        content: scontent.push(child),
                                                    },
                                                ),
                                            };
                                            fl_restructure_go(
                                                rem.drop_first(),
                                                lowest,
                                                false,
                                                acc2.update(acc2.len() - 1, newlast),
                                            )
                                        },
                                        _ => Err(fl_found_error(child)),
                                    }
                                } else {
                                    Err(fl_found_error(child))
                                },
                                _ => Err(fl_found_error(child)),
                            }
                        } else {
                            Err(fl_found_error(child))
                        },
                    }
                } else {
                    fl_restructure_go(rem.drop_first(), lowest, true, acc.push(child))
                }
            },
            _ => fl_restructure_go(rem.drop_first(), lowest, create, acc.push(child)),
        }
    }
}

/// The whole list-folding step on a list's content: reject non-items, then
/// restructure by depth.
pub open spec fn fl_restructure(s: Seq<ElementView>) -> Result<
    Seq<ElementView>,
    TransformationErrorView,
> {
    match fl_first_nonitem(s) {
        Some(k) => Err(fl_nonitem_error(s[k])),
        None => fl_restructure_go(s, fl_lowest(s), true, Seq::empty()),
    }
}

/// A paragraph content consisting only of whitespace text.
pub open spec fn ws_par_content(s: Seq<ElementView>) -> bool {
    forall|i: int|
        0 <= i < s.len() ==> match #[trigger] s[i] {
            ElementView::Text { text, .. } => ws_seq(text),
            _ => false,
        }
}

/// Collapsing paragraphs: empty paragraphs are dropped; a non-empty paragraph
/// directly after a kept non-empty paragraph merges into it with a one-space
/// text separator, and the merged span reaches to the merged paragraph's end.
pub open spec fn cp_restructure_go(
    rem: Seq<ElementView>,
    acc: Seq<ElementView>,
    last_empty: bool,
) -> Result<Seq<ElementView>, TransformationErrorView>
    decreases rem.len(),
{
    if rem.len() == 0 {
        Ok(acc)
    } else {
        let child = rem.first();
        match child {
            ElementView::Paragraph { span, content } => {
                if content.len() == 0 {
                    cp_restructure_go(rem.drop_first(), acc, true)
                } else if !last_empty && acc.len() > 0 && acc.last() is Paragraph {
                    match acc.last() {
                        ElementView::Paragraph { span: lspan, content: lcontent } => {
                            let merged = ElementView::Paragraph {
                                span: Span { start: lspan.start, end: span.end },
                                content: lcontent.push(
                                    ElementView::Text { span: lspan, text: " "@ },
                                ) + content,
                            };
                            cp_restructure_go(
                                rem.drop_first(),
                                acc.update(acc.len() - 1, merged),
                                false,
                            )
                        },
                        _ => cp_restructure_go(rem.drop_first(), acc.push(child), false),
                    }
                } else {
                    cp_restructure_go(rem.drop_first(), acc.push(child), false)
                }
            },
            _ => cp_restructure_go(rem.drop_first(), acc.push(child), false),
        }
    }
}

/// Collapsing text: a text node directly after another text node merges into
/// it; whitespace-only text contributes a single space instead of its own
/// characters, and the merged span reaches to the merged node's end.
pub open spec fn ct_restructure_go(rem: Seq<ElementView>, acc: Seq<ElementView>) -> Result<
    Seq<ElementView>,
    TransformationErrorView,
>
    decreases rem.len(),
{
    if rem.len() == 0 {
        Ok(acc)
    } else {
        let child = rem.first();
        match child {
            ElementView::Text { span, text } => {
                if acc.len() > 0 && acc.last() is Text {
                    match acc.last() {
                        ElementView::Text { span: lspan, text: ltext } => {
                            let merged = ElementView::Text {
                                span: Span { start: lspan.start, end: span.end },
                                text: ltext + (if ws_seq(text) {
                                    seq![' ']
                                } else {
                                    text
                                }),
                            };
                            ct_restructure_go(rem.drop_first(), acc.update(acc.len() - 1, merged))
                        },
                        _ => ct_restructure_go(rem.drop_first(), acc.push(child)),
                    }
                } else {
                    ct_restructure_go(rem.drop_first(), acc.push(child))
                }
            },
            _ => ct_restructure_go(rem.drop_first(), acc.push(child)),
        }
    }
}

/// Renumbering anonymous template arguments: each argument whose name is
/// entirely whitespace is renamed to the next 1-based counter value.
pub open spec fn en_renumber(s: Seq<ElementView>, counter: usize) -> Seq<ElementView>
    decreases s.len(),
{
    if s.len() == 0 {
        Seq::empty()
    } else {
        match s.first() {
            ElementView::TemplateArgument { span, name, value } => if ws_seq(name) {
                seq![
                    ElementView::TemplateArgument {
                        span,
                        name: dec_str(counter as nat),
                        value,
                    },
                ] + en_renumber(
                    s.drop_first(),
                    if counter < usize::MAX {
                        (counter + 1) as usize
                    } else {
                        counter
                    },
                )
            } else {
                seq![s.first()] + en_renumber(s.drop_first(), counter)
            },
            _ => seq![s.first()] + en_renumber(s.drop_first(), counter),
        }
    }
}

/// What a pass does to one child list before the recursion into its elements.
pub open spec fn restructure(p: Pass, s: Seq<ElementView>) -> Result<
    Seq<ElementView>,
    TransformationErrorView,
> {
    match p {
        Pass::FoldHeadings => fh_restructure(s),
        Pass::CollapseParagraphs => cp_restructure_go(s, Seq::empty(), false),
        Pass::CollapseText => ct_restructure_go(s, Seq::empty()),
        _ => Ok(s),
    }
}

/// What one pass makes of one node: the node with each child list first
/// restructured by the pass, then rebuilt from the transformed children. The
/// `List` case of the list-folding pass and the node-local edits of the
/// whitespace and numbering passes come first; everything else recurses
/// uniformly, visiting child lists in declaration order.
pub open spec fn t_elem(p: Pass, v: ElementView) -> Result<
    ElementView,
    TransformationErrorView,
>
    decreases esize(v), rank(v), 3nat, 0nat,
{
    match v {
        ElementView::Document { span, content } => match t_vec(p, content) {
            Ok(c) => Ok(ElementView::Document { span, content: c }),
            Err(e) => Err(e),
        },
        ElementView::Heading { span, depth, caption, content } => match t_vec(p, caption) {
            Ok(cap) => match t_vec(p, content) {
                Ok(c) => Ok(ElementView::Heading { span, depth, caption: cap, content: c }),
                Err(e) => Err(e),
            },
            Err(e) => Err(e),
        },
        ElementView::Text { .. } => Ok(v),
        ElementView::Formatted { span, markup, content } => match t_vec(p, content) {
            Ok(c) => Ok(ElementView::Formatted { span, markup, content: c }),
            Err(e) => Err(e),
        },
        ElementView::Paragraph { span, content } => {
            if p is WhitespaceParagraphs && ws_par_content(content) {
                Ok(ElementView::Paragraph { span, content: Seq::empty() })
            } else {
                match t_vec(p, content) {
                    Ok(c) => Ok(ElementView::Paragraph { span, content: c }),
                    Err(e) => Err(e),
                }
            }
        },
        ElementView::Template { span, name, content } => {
            if p is EnumerateAnonArgs {
                let content1 = en_renumber(content, 1);
                proof {
                    lemma_en_renumber_sizes(content, 1);
                }
                match t_vec(p, name) {
                    Ok(n) => match t_vec(p, content1) {
                        Ok(c) => Ok(ElementView::Template { span, name: n, content: c }),
                        Err(e) => Err(e),
                    },
                    Err(e) => Err(e),
                }
            } else {
                match t_vec(p, name) {
                    Ok(n) => match t_vec(p, content) {
                        Ok(c) => Ok(ElementView::Template { span, name: n, content: c }),
                        Err(e) => Err(e),
                    },
                    Err(e) => Err(e),
                }
            }
        },
        ElementView::TemplateArgument { span, name, value } => match t_vec(p, value) {
            Ok(c) => Ok(ElementView::TemplateArgument { span, name, value: c }),
            Err(e) => Err(e),
        },
        ElementView::InternalReference { span, target, options, caption } => match t_vec(
            p,
            target,
        ) {
            Ok(t) => match t_opts(p, options) {
                Ok(o) => match t_vec(p, caption) {
                    Ok(c) => Ok(
                        ElementView::InternalReference {
                            span,
                            target: t,
                            options: o,
                            caption: c,
                        },
                    ),
                    Err(e) => Err(e),
                },
                Err(e) => Err(e),
            },
            Err(e) => Err(e),
        },
        ElementView::ExternalReference { span, target, caption } => match t_vec(p, caption) {
            Ok(c) => Ok(ElementView::ExternalReference { span, target, caption: c }),
            Err(e) => Err(e),
        },
        ElementView::ListItem { span, depth, kind, content } => match t_vec(p, content) {
            Ok(c) => Ok(ElementView::ListItem { span, depth, kind, content: c }),
            Err(e) => Err(e),
        },
        ElementView::List { span, content } => {
            if p is FoldLists {
                match fl_restructure(content) {
                    Err(e) => Err(e),
                    Ok(r) => match t_items(r, esize(v)) {
                        Ok(c) => Ok(ElementView::List { span, content: c }),
                        Err(e) => Err(e),
                    },
                }
            } else {
                match t_vec(p, content) {
                    Ok(c) => Ok(ElementView::List { span, content: c }),
                    Err(e) => Err(e),
                }
            }
        },
        ElementView::Table { span, attributes, caption, caption_attributes, rows } => match t_vec(
            p,
            caption,
        ) {
            Ok(cap) => match t_vec(p, rows) {
                Ok(r) => Ok(
                    ElementView::Table {
                        span,
                        attributes,
                        caption: cap,
                        caption_attributes,
                        rows: r,
                    },
                ),
                Err(e) => Err(e),
            },
            Err(e) => Err(e),
        },
        ElementView::TableRow { span, attributes, cells } => match t_vec(p, cells) {
            Ok(c) => Ok(ElementView::TableRow { span, attributes, cells: c }),
            Err(e) => Err(e),
        },
        ElementView::TableCell { span, header, attributes, content } => match t_vec(p, content) {
            Ok(c) => Ok(ElementView::TableCell { span, header, attributes, content: c }),
            Err(e) => Err(e),
        },
        ElementView::Comment { .. } => Ok(v),
        ElementView::HtmlTag { span, name, attributes, content } => match t_vec(p, content) {
            Ok(c) => Ok(ElementView::HtmlTag { span, name, attributes, content: c }),
            Err(e) => Err(e),
        },
        ElementView::Gallery { span, attributes, content } => match t_vec(p, content) {
            Ok(c) => Ok(ElementView::Gallery { span, attributes, content: c }),
            Err(e) => Err(e),
        },
        ElementView::Error { .. } => Ok(v),
    }
}

/// One child list under a pass: restructure it, then transform the produced
/// elements in order, stopping at the first error.
pub open spec fn t_vec(p: Pass, s: Seq<ElementView>) -> Result<
    Seq<ElementView>,
    TransformationErrorView,
>
    decreases list_size(s) + 1, 0nat, 2nat, 0nat,
{
    match restructure(p, s) {
        Err(e) => Err(e),
        Ok(r) => {
            proof {
                lemma_restructure_bounds(p, s);
            }
            t_map(p, r, list_size(s) + 1)
        },
    }
}

/// Each option list of an internal reference under a pass, in order.
pub open spec fn t_opts(p: Pass, ls: Seq<Seq<ElementView>>) -> Result<
    Seq<Seq<ElementView>>,
    TransformationErrorView,
>
    decreases opts_size(ls) + 1, 0nat, 2nat, ls.len() + 1,
{
    if ls.len() == 0 {
        Ok(Seq::empty())
    } else {
        proof {
            lemma_opts_size_index(ls, 0);
            assert(ls[0] == ls.first());
        }
        match t_vec(p, ls.first()) {
            Err(e) => Err(e),
            Ok(h) => match t_opts(p, ls.drop_first()) {
                Err(e) => Err(e),
                Ok(t) => Ok(seq![h] + t),
            },
        }
    }
}

/// The transformed elements of an already restructured list, in order,
/// stopping at the first error. The bound `b` dominates the elements' sizes.
pub open spec fn t_map(p: Pass, s: Seq<ElementView>, b: nat) -> Result<
    Seq<ElementView>,
    TransformationErrorView,
>
    decreases b, 0nat, 1nat, s.len(),
    when forall|i: int| 0 <= i < s.len() ==> esize(#[trigger] s[i]) < b
{
    if s.len() == 0 {
        Ok(Seq::empty())
    } else {
        match t_elem(p, s.first()) {
            Err(e) => Err(e),
            Ok(h) => match t_map(p, s.drop_first(), b) {
                Err(e) => Err(e),
                Ok(t) => Ok(seq![h] + t),
            },
        }
    }
}

/// The transformed items of a restructured list content, in order, stopping
/// at the first error. The bound `b2` dominates the items' sizes; the items
/// are list items, so each is transformed by plain recursion into its
/// content.
pub open spec fn t_items(r: Seq<ElementView>, b2: nat) -> Result<
    Seq<ElementView>,
    TransformationErrorView,
>
    decreases b2, 0nat, 4nat, r.len(),
    when forall|i: int|
        0 <= i < r.len() ==> esize(#[trigger] r[i]) <= b2 && rank(r[i]) == 0
{
    if r.len() == 0 {
        Ok(Seq::empty())
    } else {
        match t_elem(Pass::FoldLists, r.first()) {
            Err(e) => Err(e),
            Ok(h) => match t_items(r.drop_first(), b2) {
                Err(e) => Err(e),
                Ok(t) => Ok(seq![h] + t),
            },
        }
    }
}

/// Sizes through the heading restructuring: no element outgrows the total.
pub proof fn lemma_fh_go_bounds(
    rem: Seq<ElementView>,
    acc: Seq<ElementView>,
    cur_depth: usize,
    idx: int,
)
    requires
        fh_restructure_go(rem, acc, cur_depth, idx) is Ok,
        forall|i: int| 0 <= i < acc.len() ==> esize(#[trigger] acc[i]) <= list_size(acc),
    ensures
        ({
            let r = fh_restructure_go(rem, acc, cur_depth, idx)->Ok_0;
            &&& list_size(r) <= list_size(acc) + list_size(rem)
            &&& forall|i: int| 0 <= i < r.len() ==> esize(#[trigger] r[i]) <= list_size(r)
        }),
    decreases rem.len(),
{
    if rem.len() > 0 {
        let child = rem.first();
        lemma_list_size_drop(rem);
        lemma_esize_pos(child);
        match child {
            ElementView::Heading { span, depth, caption, content } => {
                if depth > cur_depth {
                    if 0 <= idx < acc.len() && acc[idx] is Heading {
                        match acc[idx] {
                            ElementView::Heading {
                                span: rspan,
                                depth: rdepth,
                                caption: rcaption,
                                content: rcontent,
                            } => {
                                let upd = ElementView::Heading {
                                    span: rspan,
                                    depth: rdepth,
                                    caption: rcaption,
                                    content: rcontent.push(child),
                                };
                                lemma_list_size_push(rcontent, child);
                                assert(esize(upd) == esize(acc[idx]) + esize(child));
                                lemma_list_size_update(acc, idx, upd);
                                let acc2 = acc.update(idx, upd);
                                assert forall|i: int|
                                    0 <= i < acc2.len() implies esize(#[trigger] acc2[i])
                                    <= list_size(acc2) by {
                                    if i != idx {
                                        assert(acc2[i] == acc[i]);
                                    }
                                }
                                lemma_fh_go_bounds(rem.drop_first(), acc2, cur_depth, idx);
                            },
                            _ => {},
                        }
                    } else {
                        lemma_fh_go_bounds(rem.drop_first(), acc, cur_depth, idx);
                    }
                } else {
                    lemma_list_size_push(acc, child);
                    assert forall|i: int|
                        0 <= i < acc.push(child).len() implies esize(#[trigger] acc.push(child)[i])
                        <= list_size(acc.push(child)) by {
                        if i < acc.len() {
                            assert(acc.push(child)[i] == acc[i]);
                        } else {
                            assert(acc.push(child)[i] == child);
                        }
                    }
                    lemma_fh_go_bounds(rem.drop_first(), acc.push(child), depth, acc.len() as int);
                }
            },
            _ => {
                if cur_depth < usize::MAX {
                } else {
                    lemma_list_size_push(acc, child);
                    assert forall|i: int|
                        0 <= i < acc.push(child).len() implies esize(#[trigger] acc.push(child)[i])
                        <= list_size(acc.push(child)) by {
                        if i < acc.len() {
                            assert(acc.push(child)[i] == acc[i]);
                        } else {
                            assert(acc.push(child)[i] == child);
                        }
                    }
                    lemma_fh_go_bounds(rem.drop_first(), acc.push(child), cur_depth, idx);
                }
            },
        }
    }
}

/// Sizes through the paragraph collapsing: no element outgrows the total.
pub proof fn lemma_cp_go_bounds(rem: Seq<ElementView>, acc: Seq<ElementView>, last_empty: bool)
    requires
        cp_restructure_go(rem, acc, last_empty) is Ok,
        forall|i: int| 0 <= i < acc.len() ==> esize(#[trigger] acc[i]) <= list_size(acc),
    ensures
        ({
            let r = cp_restructure_go(rem, acc, last_empty)->Ok_0;
            &&& list_size(r) <= list_size(acc) + list_size(rem)
            &&& forall|i: int| 0 <= i < r.len() ==> esize(#[trigger] r[i]) <= list_size(r)
        }),
    decreases rem.len(),
{
    if rem.len() > 0 {
        let child = rem.first();
        lemma_list_size_drop(rem);
        lemma_esize_pos(child);
        match child {
            ElementView::Paragraph { span, content } => {
                if content.len() == 0 {
                    lemma_cp_go_bounds(rem.drop_first(), acc, true);
                } else if !last_empty && acc.len() > 0 && acc.last() is Paragraph {
                    match acc.last() {
                        ElementView::Paragraph { span: lspan, content: lcontent } => {
                            let sep = ElementView::Text { span: lspan, text: " "@ };
                            let merged = ElementView::Paragraph {
                                span: Span { start: lspan.start, end: span.end },
                                content: lcontent.push(sep) + content,
                            };
                            lemma_list_size_push(lcontent, sep);
                            lemma_list_size_concat(lcontent.push(sep), content);
                            assert(esize(merged) == esize(acc.last()) + esize(child));
                            lemma_list_size_update(acc, acc.len() - 1, merged);
                            let acc2 = acc.update(acc.len() - 1, merged);
                            assert forall|i: int|
                                0 <= i < acc2.len() implies esize(#[trigger] acc2[i]) <= list_size(
                                acc2,
                            ) by {
                                if i != acc.len() - 1 {
                                    assert(acc2[i] == acc[i]);
                                }
                            }
                            lemma_cp_go_bounds(rem.drop_first(), acc2, false);
                        },
                        _ => {},
                    }
                } else {
                    lemma_list_size_push(acc, child);
                    assert forall|i: int|
                        0 <= i < acc.push(child).len() implies esize(#[trigger] acc.push(child)[i])
                        <= list_size(acc.push(child)) by {
                        if i < acc.len() {
                            assert(acc.push(child)[i] == acc[i]);
                        } else {
                            assert(acc.push(child)[i] == child);
                        }
                    }
                    lemma_cp_go_bounds(rem.drop_first(), acc.push(child), false);
                }
            },
            _ => {
                lemma_list_size_push(acc, child);
                assert forall|i: int|
                    0 <= i < acc.push(child).len() implies esize(#[trigger] acc.push(child)[i])
                    <= list_size(acc.push(child)) by {
                    if i < acc.len() {
                        assert(acc.push(child)[i] == acc[i]);
                    } else {
                        assert(acc.push(child)[i] == child);
                    }
                }
                lemma_cp_go_bounds(rem.drop_first(), acc.push(child), false);
            },
        }
    }
}

/// Sizes through the text collapsing: no element outgrows the total.
pub proof fn lemma_ct_go_bounds(rem: Seq<ElementView>, acc: Seq<ElementView>)
    requires
        ct_restructure_go(rem, acc) is Ok,
        forall|i: int| 0 <= i < acc.len() ==> esize(#[trigger] acc[i]) <= list_size(acc),
    ensures
        ({
            let r = ct_restructure_go(rem, acc)->Ok_0;
            &&& list_size(r) <= list_size(acc) + list_size(rem)
            &&& forall|i: int| 0 <= i < r.len() ==> esize(#[trigger] r[i]) <= list_size(r)
        }),
    decreases rem.len(),
{
    if rem.len() > 0 {
        let child = rem.first();
        lemma_list_size_drop(rem);
        lemma_esize_pos(child);
        match child {
            ElementView::Text { span, text } => {
                if acc.len() > 0 && acc.last() is Text {
                    match acc.last() {
                        ElementView::Text { span: lspan, text: ltext } => {
                            let merged = ElementView::Text {
                                span: Span { start: lspan.start, end: span.end },
                                text: ltext + (if ws_seq(text) {
                                    seq![' ']
                                } else {
                                    text
                                }),
                            };
                            assert(esize(merged) == 1);
                            assert(esize(acc.last()) == 1);
                            lemma_list_size_update(acc, acc.len() - 1, merged);
                            let acc2 = acc.update(acc.len() - 1, merged);
                            assert forall|i: int|
                                0 <= i < acc2.len() implies esize(#[trigger] acc2[i]) <= list_size(
                                acc2,
                            ) by {
                                if i != acc.len() - 1 {
                                    assert(acc2[i] == acc[i]);
                                }
                            }
                            lemma_ct_go_bounds(rem.drop_first(), acc2);
                        },
                        _ => {},
                    }
                } else {
                    lemma_list_size_push(acc, child);
                    assert forall|i: int|
                        0 <= i < acc.push(child).len() implies esize(#[trigger] acc.push(child)[i])
                        <= list_size(acc.push(child)) by {
                        if i < acc.len() {
                            assert(acc.push(child)[i] == acc[i]);
                        } else {
                            assert(acc.push(child)[i] == child);
                        }
                    }
                    lemma_ct_go_bounds(rem.drop_first(), acc.push(child));
                }
            },
            _ => {
                lemma_list_size_push(acc, child);
                assert forall|i: int|
                    0 <= i < acc.push(child).len() implies esize(#[trigger] acc.push(child)[i])
                    <= list_size(acc.push(child)) by {
                    if i < acc.len() {
                        assert(acc.push(child)[i] == acc[i]);
                    } else {
                        assert(acc.push(child)[i] == child);
                    }
                }
                lemma_ct_go_bounds(rem.drop_first(), acc.push(child));
            },
        }
    }
}

/// Whatever a pass's restructuring returns, no element of the result is
/// larger than the whole original list.
pub proof fn lemma_restructure_bounds(p: Pass, s: Seq<ElementView>)
    ensures
        restructure(p, s) is Ok ==> forall|i: int|
            0 <= i < restructure(p, s)->Ok_0.len() ==> esize(
                #[trigger] restructure(p, s)->Ok_0[i],
            ) <= list_size(s),
{
    if restructure(p, s) is Ok {
        match p {
            Pass::FoldHeadings => {
                lemma_fh_go_bounds(s, Seq::empty(), usize::MAX, 0);
            },
            Pass::CollapseParagraphs => {
                lemma_cp_go_bounds(s, Seq::empty(), false);
            },
            Pass::CollapseText => {
                lemma_ct_go_bounds(s, Seq::empty());
            },
            _ => {
                assert forall|i: int| 0 <= i < s.len() implies esize(#[trigger] s[i]) <= list_size(
                    s,
                ) by {
                    lemma_list_size_index(s, i);
                }
            },
        }
    }
}

/// A list whose scan found no non-item consists of list items.
pub proof fn lemma_fl_first_nonitem_none(s: Seq<ElementView>)
    requires
        fl_first_nonitem(s) is None,
    ensures
        forall|i: int| 0 <= i < s.len() ==> (#[trigger] s[i]) is ListItem,
    decreases s.len(),
{
    if s.len() > 0 {
        lemma_fl_first_nonitem_none(s.drop_first());
        assert forall|i: int| 0 <= i < s.len() implies (#[trigger] s[i]) is ListItem by {
            if i > 0 {
                assert(s.drop_first()[i - 1] == s[i]);
            } else {
                assert(s[0] == s.first());
            }
        }
    }
}

/// The least depth of a non-empty all-item list is attained by some item.
pub proof fn lemma_fl_lowest_attained(s: Seq<ElementView>)
    requires
        s.len() > 0,
        forall|i: int| 0 <= i < s.len() ==> (#[trigger] s[i]) is ListItem,
    ensures
        exists|j: int|
            0 <= j < s.len() && (#[trigger] s[j] matches ElementView::ListItem { depth, .. }
                && depth <= fl_lowest(s)),
    decreases s.len(),
{
    if s.len() == 1 {
        assert(s[0] == s.first());
    } else {
        assert forall|i: int| 0 <= i < s.drop_first().len() implies (
        #[trigger] s.drop_first()[i]) is ListItem by {
            assert(s.drop_first()[i] == s[i + 1]);
        }
        lemma_fl_lowest_attained(s.drop_first());
        let j0 = choose|j: int|
            0 <= j < s.drop_first().len() && (#[trigger] s.drop_first()[j] matches
                ElementView::ListItem { depth, .. } && depth <= fl_lowest(s.drop_first()));
        assert(s[0] == s.first());
        match s.first() {
            ElementView::ListItem { depth: d0, .. } => {
                if d0 <= fl_lowest(s) {
                    assert(s[0] matches ElementView::ListItem { depth, .. } && depth <= fl_lowest(
                        s,
                    ));
                } else {
                    assert(s.drop_first()[j0] == s[j0 + 1]);
                    assert(s[j0 + 1] matches ElementView::ListItem { depth, .. } && depth
                        <= fl_lowest(s));
                }
            },
            _ => {},
        }
    }
}

/// Sizes through the list restructuring: every produced element is a list
/// item no larger than the whole original content plus its one wrapping
/// shell.
#[verifier::rlimit(30)]
pub proof fn lemma_fl_go_bounds(
    rem: Seq<ElementView>,
    lowest: usize,
    create: bool,
    acc: Seq<ElementView>,
    ph: bool,
    total: nat,
)
    requires
        fl_restructure_go(rem, lowest, create, acc) is Ok,
        forall|j: int| 0 <= j < rem.len() ==> (#[trigger] rem[j]) is ListItem,
        forall|i: int| 0 <= i < acc.len() ==> (#[trigger] acc[i]) is ListItem,
        list_size(rem) <= total,
        forall|i: int| 0 <= i < acc.len() - 1 ==> esize(#[trigger] acc[i]) <= 1 + total,
        acc.len() > 0 ==> esize(acc.last()) <= (total - list_size(rem)) + (if create {
            0nat
        } else if ph {
            2nat
        } else {
            1nat
        }),
        ph ==> !create,
        ph ==> exists|j: int|
            0 <= j < rem.len() && (#[trigger] rem[j] matches ElementView::ListItem { depth, .. }
                && depth <= lowest),
        acc.len() == 0 && rem.len() > 0 ==> exists|j: int|
            0 <= j < rem.len() && (#[trigger] rem[j] matches ElementView::ListItem { depth, .. }
                && depth <= lowest),
    ensures
        ({
            let r = fl_restructure_go(rem, lowest, create, acc)->Ok_0;
            &&& forall|i: int| 0 <= i < r.len() ==> esize(#[trigger] r[i]) <= 1 + total
            &&& forall|i: int| 0 <= i < r.len() ==> (#[trigger] r[i]) is ListItem
        }),
    decreases rem.len(),
{
    if rem.len() == 0 {
    } else {
        let child = rem.first();
        assert(child == rem[0]);
        lemma_list_size_drop(rem);
        lemma_esize_pos(child);
        assert forall|j: int| 0 <= j < rem.drop_first().len() implies (
        #[trigger] rem.drop_first()[j]) is ListItem by {
            assert(rem.drop_first()[j] == rem[j + 1]);
        }
        match child {
            ElementView::ListItem { span, depth, kind, content } => {
                if depth > lowest {
                    let acc0 = if create && acc.len() == 0 {
                        acc.push(
                            ElementView::ListItem {
                                span,
                                depth: lowest,
                                kind,
                                content: Seq::empty(),
                            },
                        )
                    } else {
                        acc
                    };
                    if create && acc.len() == 0 {
                        lemma_list_size_push(
                            acc,
                            ElementView::ListItem {
                                span,
                                depth: lowest,
                                kind,
                                content: Seq::empty(),
                            },
                        );
                    }
                    assert(acc0.len() > 0);
                    assert(acc0.last() is ListItem);
                    let acc2 = if create {
                        match acc0.last() {
                            ElementView::ListItem {
                                span: lspan,
                                depth: ldepth,
                                kind: lkind,
                                content: lcontent,
                            } => {
                                let shelled = ElementView::ListItem {
                                    span: lspan,
                                    depth: ldepth,
                                    kind: lkind,
                                    content: lcontent.push(
                                        ElementView::List { span, content: Seq::empty() },
                                    ),
                                };
                                lemma_list_size_push(
                                    lcontent,
                                    ElementView::List { span, content: Seq::empty() },
                                );
                                lemma_list_size_update(acc0, acc0.len() - 1, shelled);
                                acc0.update(acc0.len() - 1, shelled)
                            },
                            _ => acc0,
                        }
                    } else {
                        acc0
                    };
                    assert(acc2.len() == acc0.len());
                    assert(acc2.last() is ListItem);
                    match acc2.last() {
                        ElementView::ListItem {
                            span: lspan,
                            depth: ldepth,
                            kind: lkind,
                            content: lcontent,
                        } => {
                            if lcontent.len() > 0 && lcontent.last() is List {
                                match lcontent.last() {
                                    ElementView::List { span: sspan, content: scontent } => {
                                        let newshell = ElementView::List {
                                            span: sspan,
                                            content: scontent.push(child),
                                        };
                                        let newlast = ElementView::ListItem {
                                            span: lspan,
                                            depth: ldepth,
                                            kind: lkind,
                                            content: lcontent.update(
                                                lcontent.len() - 1,
                                                newshell,
                                            ),
                                        };
                                        let acc3 = acc2.update(acc2.len() - 1, newlast);
                                        lemma_list_size_push(scontent, child);
                                        lemma_list_size_update(
                                            lcontent,
                                            lcontent.len() - 1,
                                            newshell,
                                        );
                                        lemma_list_size_update(acc2, acc2.len() - 1, newlast);
                                        assert(esize(newlast) == esize(acc2.last()) + esize(
                                            child,
                                        ));
                                        assert forall|i: int|
                                            0 <= i < acc3.len() implies (
                                        #[trigger] acc3[i]) is ListItem by {
                                            if i < acc3.len() - 1 {
                                                assert(acc3[i] == acc0[i]);
                                            }
                                        }
                                        assert forall|i: int|
                                            0 <= i < acc3.len() - 1 implies esize(
                                            #[trigger] acc3[i],
                                        ) <= 1 + total by {
                                            assert(acc3[i] == acc0[i]);
                                            if create && acc.len() == 0 {
                                                assert(acc0.len() == 1);
                                            } else {
                                                assert(acc0[i] == acc[i]);
                                            }
                                        }
                                        if ph {
                                            let j = choose|j: int|
                                                0 <= j < rem.len() && (#[trigger] rem[j] matches
                                                    ElementView::ListItem { depth, .. } && depth
                                                    <= lowest);
                                            assert(j != 0);
                                            assert(rem.drop_first()[j - 1] == rem[j]);
                                        }
                                        if create && acc.len() == 0 {
                                            let j = choose|j: int|
                                                0 <= j < rem.len() && (#[trigger] rem[j] matches
                                                    ElementView::ListItem { depth, .. } && depth
                                                    <= lowest);
                                            assert(j != 0);
                                            assert(rem.drop_first()[j - 1] == rem[j]);
                                            lemma_fl_go_bounds(
                                                rem.drop_first(),
                                                lowest,
                                                false,
                                                acc3,
                                                true,
                                                total,
                                            );
                                        } else {
                                            lemma_fl_go_bounds(
                                                rem.drop_first(),
                                                lowest,
                                                false,
                                                acc3,
                                                ph,
                                                total,
                                            );
                                        }
                                    },
                                    _ => {},
                                }
                            }
                        },
                        _ => {},
                    }
                } else {
                    lemma_list_size_push(acc, child);
                    let acc2 = acc.push(child);
                    assert forall|i: int|
                        0 <= i < acc2.len() implies (#[trigger] acc2[i]) is ListItem by {
                        if i < acc.len() {
                            assert(acc2[i] == acc[i]);
                        } else {
                            assert(acc2[i] == child);
                        }
                    }
                    assert forall|i: int|
                        0 <= i < acc2.len() - 1 implies esize(#[trigger] acc2[i]) <= 1
                        + total by {
                        assert(acc2[i] == acc[i]);
                        if i == acc.len() - 1 {
                            assert(esize(acc[i]) <= (total - list_size(rem)) + 2);
                            assert(list_size(rem) >= esize(child));
                        }
                    }
                    assert(acc2.last() == child);
                    assert(esize(child) <= list_size(rem));
                    lemma_fl_go_bounds(rem.drop_first(), lowest, true, acc2, false, total);
                }
            },
            _ => {},
        }
    }
}

/// The elements a successful list restructuring yields: list items, none
/// larger than the original content plus one shell.
pub proof fn lemma_fl_restructure_bounds(s: Seq<ElementView>)
    requires
        fl_restructure(s) is Ok,
    ensures
        ({
            let r = fl_restructure(s)->Ok_0;
            &&& forall|i: int| 0 <= i < r.len() ==> esize(#[trigger] r[i]) <= 1 + list_size(s)
            &&& forall|i: int| 0 <= i < r.len() ==> (#[trigger] r[i]) is ListItem
        }),
{
    lemma_fl_first_nonitem_none(s);
    if s.len() > 0 {
        lemma_fl_lowest_attained(s);
    }
    lemma_fl_go_bounds(s, fl_lowest(s), true, Seq::empty(), false, list_size(s));
}

/// The whole pipeline: the six passes in their fixed order, stopping at the
/// first error.
pub open spec fn pipeline_spec(v: ElementView) -> Result<
    ElementView,
    TransformationErrorView,
> {
    match t_elem(Pass::FoldHeadings, v) {
        Err(e) => Err(e),
        Ok(v1) => match t_elem(Pass::FoldLists, v1) {
            Err(e) => Err(e),
            Ok(v2) => match t_elem(Pass::WhitespaceParagraphs, v2) {
                Err(e) => Err(e),
                Ok(v3) => match t_elem(Pass::CollapseParagraphs, v3) {
                    Err(e) => Err(e),
                    Ok(v4) => match t_elem(Pass::CollapseText, v4) {
                        Err(e) => Err(e),
                        Ok(v5) => t_elem(Pass::EnumerateAnonArgs, v5),
                    },
                },
            },
        },
    }
}

/// Law: the pipeline is pure. Its outcome is a function of the input tree
/// alone, so running it twice on the same tree yields identical output.
pub proof fn lemma_pipeline_deterministic(a: ElementView, b: ElementView)
    requires
        a == b,
    ensures
        pipeline_spec(a) == pipeline_spec(b),
{
}

/// Law: two adjacent non-empty paragraphs with no empty paragraph between
/// them collapse into one, with a single-space text separator between their
/// contents and the merged span reaching from the first's start to the
/// second's end.
pub proof fn lemma_collapse_adjacent_paragraphs(
    sp1: Span,
    c1: Seq<ElementView>,
    sp2: Span,
    c2: Seq<ElementView>,
)
    requires
        c1.len() > 0,
        c2.len() > 0,
    ensures
        cp_restructure_go(
            seq![
                ElementView::Paragraph { span: sp1, content: c1 },
                ElementView::Paragraph { span: sp2, content: c2 },
            ],
            Seq::empty(),
            false,
        ) == Ok::<Seq<ElementView>, TransformationErrorView>(
            seq![
                ElementView::Paragraph {
                    span: Span { start: sp1.start, end: sp2.end },
                    content: c1 + seq![ElementView::Text { span: sp1, text: " "@ }] + c2,
                },
            ],
        ),
{
    reveal_with_fuel(cp_restructure_go, 4);
    let p1 = ElementView::Paragraph { span: sp1, content: c1 };
    let p2 = ElementView::Paragraph { span: sp2, content: c2 };
    let s = seq![p1, p2];
    assert(s.first() == p1);
    assert(s.drop_first() =~= seq![p2]);
    let acc1 = Seq::<ElementView>::empty().push(p1);
    assert(seq![p2].first() == p2);
    assert(seq![p2].drop_first() =~= Seq::<ElementView>::empty());
    assert(acc1.last() == p1);
    let merged = ElementView::Paragraph {
        span: Span { start: sp1.start, end: sp2.end },
        content: c1.push(ElementView::Text { span: sp1, text: " "@ }) + c2,
    };
    assert(acc1.update(0, merged) =~= seq![merged]);
    assert(c1.push(ElementView::Text { span: sp1, text: " "@ }) + c2 =~= c1 + seq![
        ElementView::Text { span: sp1, text: " "@ },
    ] + c2);
}

/// Law: an intervening empty paragraph prevents collapsing; it is dropped,
/// and the surrounding paragraphs stay separate.
pub proof fn lemma_blank_paragraph_prevents_collapse(
    sp1: Span,
    c1: Seq<ElementView>,
    spe: Span,
    sp2: Span,
    c2: Seq<ElementView>,
)
    requires
        c1.len() > 0,
        c2.len() > 0,
    ensures
        cp_restructure_go(
            seq![
                ElementView::Paragraph { span: sp1, content: c1 },
                ElementView::Paragraph { span: spe, content: Seq::empty() },
                ElementView::Paragraph { span: sp2, content: c2 },
            ],
            Seq::empty(),
            false,
        ) == Ok::<Seq<ElementView>, TransformationErrorView>(
            seq![
                ElementView::Paragraph { span: sp1, content: c1 },
                ElementView::Paragraph { span: sp2, content: c2 },
            ],
        ),
{
    reveal_with_fuel(cp_restructure_go, 5);
    let p1 = ElementView::Paragraph { span: sp1, content: c1 };
    let pe = ElementView::Paragraph { span: spe, content: Seq::<ElementView>::empty() };
    let p2 = ElementView::Paragraph { span: sp2, content: c2 };
    let s = seq![p1, pe, p2];
    assert(s.first() == p1);
    assert(s.drop_first() =~= seq![pe, p2]);
    let acc1 = Seq::<ElementView>::empty().push(p1);
    assert(seq![pe, p2].first() == pe);
    assert(seq![pe, p2].drop_first() =~= seq![p2]);
    assert(seq![p2].first() == p2);
    assert(seq![p2].drop_first() =~= Seq::<ElementView>::empty());
    assert(acc1.push(p2) =~= seq![p1, p2]);
}

/// Every error the heading restructuring reports names the heading pass and
/// its one cause.
pub proof fn lemma_fh_error_names_pass(
    rem: Seq<ElementView>,
    acc: Seq<ElementView>,
    cur_depth: usize,
    idx: int,
)
    requires
        fh_restructure_go(rem, acc, cur_depth, idx) is Err,
    ensures
        ({
            let e = fh_restructure_go(rem, acc, cur_depth, idx)->Err_0;
            &&& e.transformation_name == pass_name(Pass::FoldHeadings)
            &&& e.cause
                == "a non-heading element was found after a heading. This should not happen."@
        }),
    decreases rem.len(),
{
    if rem.len() > 0 {
        let child = rem.first();
        match child {
            ElementView::Heading { span, depth, caption, content } => {
                if depth > cur_depth {
                    let acc2 = if 0 <= idx < acc.len() && acc[idx] is Heading {
                        match acc[idx] {
                            ElementView::Heading {
                                span: rspan,
                                depth: rdepth,
                                caption: rcaption,
                                content: rcontent,
                            } => acc.update(
                                idx,
                                ElementView::Heading {
                                    span: rspan,
                                    depth: rdepth,
                                    caption: rcaption,
                                    content: rcontent.push(child),
                                },
                            ),
                            _ => acc,
                        }
                    } else {
                        acc
                    };
                    lemma_fh_error_names_pass(rem.drop_first(), acc2, cur_depth, idx);
                } else {
                    lemma_fh_error_names_pass(
                        rem.drop_first(),
                        acc.push(child),
                        depth,
                        acc.len() as int,
                    );
                }
            },
            _ => {
                if cur_depth < usize::MAX {
                } else {
                    lemma_fh_error_names_pass(rem.drop_first(), acc.push(child), cur_depth, idx);
                }
            },
        }
    }
}

/// Law: a non-heading element directly after a heading at the same fold
/// level surfaces an error naming the heading pass.
pub proof fn lemma_fold_headings_rejects_nonheading(h: ElementView, x: ElementView)
    requires
        h matches ElementView::Heading { depth, .. } && depth < usize::MAX,
        !(x is Heading),
    ensures
        fh_restructure(seq![h, x]) matches Err(e) && e.transformation_name == pass_name(
            Pass::FoldHeadings,
        ) && e == fh_error(x),
{
    reveal_with_fuel(fh_restructure_go, 4);
    let s = seq![h, x];
    assert(s.first() == h);
    assert(s.drop_first() =~= seq![x]);
    assert(seq![x].first() == x);
}

/// Where some child of a list is no list item, the scan finds the first one.
pub proof fn lemma_first_nonitem_exists(s: Seq<ElementView>)
    requires
        exists|i: int| 0 <= i < s.len() && !((#[trigger] s[i]) is ListItem),
    ensures
        fl_first_nonitem(s) matches Some(k) && 0 <= k < s.len() && !(s[k] is ListItem),
    decreases s.len(),
{
    let i = choose|i: int| 0 <= i < s.len() && !((#[trigger] s[i]) is ListItem);
    if s.first() is ListItem {
        assert(i >= 1);
        assert(s.drop_first()[i - 1] == s[i]);
        lemma_first_nonitem_exists(s.drop_first());
        let k = fl_first_nonitem(s.drop_first())->Some_0;
        assert(s.drop_first()[k] == s[k + 1]);
    } else {
        assert(s[0] == s.first());
    }
}

/// Law: a list holding any element that is not a list item surfaces an
/// error naming the list pass.
pub proof fn lemma_fold_lists_rejects_nonitem(span: Span, content: Seq<ElementView>)
    requires
        exists|i: int| 0 <= i < content.len() && !((#[trigger] content[i]) is ListItem),
    ensures
        t_elem(Pass::FoldLists, ElementView::List { span, content }) matches Err(e)
            && e.transformation_name == pass_name(Pass::FoldLists) && e.cause
            == "A list should not contain non-listitems."@,
{
    lemma_first_nonitem_exists(content);
}

/// The transformed elements of a list whose members the pass already leaves
/// alone: the list itself.
proof fn lemma_ws_map_fixed(s: Seq<ElementView>, b: nat)
    requires
        forall|i: int|
            0 <= i < s.len() ==> t_elem(Pass::WhitespaceParagraphs, #[trigger] s[i]) == Ok::<
                ElementView,
                TransformationErrorView,
            >(s[i]),
        forall|i: int| 0 <= i < s.len() ==> esize(#[trigger] s[i]) < b,
    ensures
        t_map(Pass::WhitespaceParagraphs, s, b) == Ok::<
            Seq<ElementView>,
            TransformationErrorView,
        >(s),
    decreases s.len(),
{
    if s.len() == 0 {
        assert(t_map(Pass::WhitespaceParagraphs, s, b) == Ok::<
            Seq<ElementView>,
            TransformationErrorView,
        >(Seq::empty()));
        assert(s =~= Seq::<ElementView>::empty());
    } else {
        assert(s[0] == s.first());
        assert forall|i: int| 0 <= i < s.drop_first().len() implies t_elem(
            Pass::WhitespaceParagraphs,
            #[trigger] s.drop_first()[i],
        ) == Ok::<ElementView, TransformationErrorView>(s.drop_first()[i]) && esize(
            s.drop_first()[i],
        ) < b by {
            assert(s.drop_first()[i] == s[i + 1]);
        }
        lemma_ws_map_fixed(s.drop_first(), b);
        assert(seq![s.first()] + s.drop_first() =~= s);
    }
}

/// The whitespace pass on every element of a list: always succeeds, keeps
/// the length, maps each element to its own transform, keeps which elements
/// are text nodes, and leaves text nodes alone.
proof fn lemma_ws_map(s: Seq<ElementView>, b: nat)
    requires
        forall|i: int| 0 <= i < s.len() ==> esize(#[trigger] s[i]) < b,
    ensures
        t_map(Pass::WhitespaceParagraphs, s, b) matches Ok(m) && m.len() == s.len() && (forall|
            i: int,
        |
            0 <= i < s.len() ==> t_elem(Pass::WhitespaceParagraphs, #[trigger] s[i]) == Ok::<
                ElementView,
                TransformationErrorView,
            >(m[i])) && (forall|i: int|
            0 <= i < s.len() ==> ((#[trigger] s[i]) is Text <==> m[i] is Text)) && (forall|i: int|
            0 <= i < s.len() ==> ((#[trigger] s[i]) is Text ==> m[i] == s[i])),
    decreases b, 0nat, 1nat, s.len(),
{
    if s.len() > 0 {
        assert(s[0] == s.first());
        lemma_ws_elem(s.first());
        assert forall|i: int| 0 <= i < s.drop_first().len() implies esize(
            #[trigger] s.drop_first()[i],
        ) < b by {
            assert(s.drop_first()[i] == s[i + 1]);
        }
        lemma_ws_map(s.drop_first(), b);
        let w0 = t_elem(Pass::WhitespaceParagraphs, s.first())->Ok_0;
        let mrest = t_map(Pass::WhitespaceParagraphs, s.drop_first(), b)->Ok_0;
        let m = seq![w0] + mrest;
        assert(t_map(Pass::WhitespaceParagraphs, s, b) == Ok::<
            Seq<ElementView>,
            TransformationErrorView,
        >(m));
        assert forall|i: int| 0 <= i < s.len() implies t_elem(
            Pass::WhitespaceParagraphs,
            #[trigger] s[i],
        ) == Ok::<ElementView, TransformationErrorView>(m[i]) && ((s[i] is Text <==> m[i]
            is Text)) && (s[i] is Text ==> m[i] == s[i]) by {
            if i == 0 {
                assert(m[0] == w0);
            } else {
                assert(m[i] == mrest[i - 1]);
                assert(s.drop_first()[i - 1] == s[i]);
            }
        }
    }
}

/// The whitespace pass on each child list: always succeeds, and applying it
/// to its own output changes nothing.
proof fn lemma_ws_vec(s: Seq<ElementView>)
    ensures
        t_vec(Pass::WhitespaceParagraphs, s) matches Ok(m) && m.len() == s.len() && (forall|
            i: int,
        |
            0 <= i < s.len() ==> t_elem(Pass::WhitespaceParagraphs, #[trigger] s[i]) == Ok::<
                ElementView,
                TransformationErrorView,
            >(m[i])) && (forall|i: int|
            0 <= i < s.len() ==> ((#[trigger] s[i]) is Text <==> m[i] is Text)) && (forall|i: int|
            0 <= i < s.len() ==> ((#[trigger] s[i]) is Text ==> m[i] == s[i])) && t_vec(
            Pass::WhitespaceParagraphs,
            m,
        ) == Ok::<Seq<ElementView>, TransformationErrorView>(m),
    decreases list_size(s) + 1, 0nat, 2nat, 0nat,
{
    let p = Pass::WhitespaceParagraphs;
    assert(restructure(p, s) == Ok::<Seq<ElementView>, TransformationErrorView>(s));
    assert forall|i: int| 0 <= i < s.len() implies esize(#[trigger] s[i]) < list_size(s) + 1 by {
        lemma_list_size_index(s, i);
    }
    lemma_ws_map(s, (list_size(s) + 1) as nat);
    let m = t_map(p, s, (list_size(s) + 1) as nat)->Ok_0;
    assert(restructure(p, m) == Ok::<Seq<ElementView>, TransformationErrorView>(m));
    assert forall|i: int| 0 <= i < m.len() implies esize(#[trigger] m[i]) < list_size(m) + 1 by {
        lemma_list_size_index(m, i);
    }
    assert forall|i: int| 0 <= i < m.len() implies t_elem(p, #[trigger] m[i]) == Ok::<
        ElementView,
        TransformationErrorView,
    >(m[i]) by {
        assert(t_elem(p, s[i]) == Ok::<ElementView, TransformationErrorView>(m[i]));
        lemma_ws_elem_fix(s[i]);
    }
    lemma_ws_map_fixed(m, (list_size(m) + 1) as nat);
}

/// What the whitespace pass returns is a fixed point of the pass.
proof fn lemma_ws_elem_fix(v: ElementView)
    ensures
        t_elem(Pass::WhitespaceParagraphs, v) matches Ok(w) ==> t_elem(
            Pass::WhitespaceParagraphs,
            w,
        ) == Ok::<ElementView, TransformationErrorView>(w),
    decreases esize(v), rank(v), 4nat, 0nat,
{
    lemma_ws_elem(v);
}

/// The whitespace pass on the option lists of an internal reference.
proof fn lemma_ws_opts(ls: Seq<Seq<ElementView>>)
    ensures
        t_opts(Pass::WhitespaceParagraphs, ls) matches Ok(mo) && mo.len() == ls.len() && (forall|
            i: int,
        |
            0 <= i < ls.len() ==> t_vec(Pass::WhitespaceParagraphs, #[trigger] ls[i]) == Ok::<
                Seq<ElementView>,
                TransformationErrorView,
            >(mo[i])) && t_opts(Pass::WhitespaceParagraphs, mo) == Ok::<
            Seq<Seq<ElementView>>,
            TransformationErrorView,
        >(mo),
    decreases opts_size(ls) + 1, 0nat, 2nat, ls.len() + 1,
{
    let p = Pass::WhitespaceParagraphs;
    if ls.len() == 0 {
        assert(t_opts(p, ls) == Ok::<Seq<Seq<ElementView>>, TransformationErrorView>(
            Seq::empty(),
        ));
        assert(ls =~= Seq::<Seq<ElementView>>::empty());
    } else {
        assert(ls[0] == ls.first());
        lemma_opts_size_index(ls, 0);
        lemma_ws_vec(ls.first());
        lemma_ws_opts(ls.drop_first());
        let m0 = t_vec(p, ls.first())->Ok_0;
        let mrest = t_opts(p, ls.drop_first())->Ok_0;
        let mo = seq![m0] + mrest;
        assert(t_opts(p, ls) == Ok::<Seq<Seq<ElementView>>, TransformationErrorView>(mo));
        assert forall|i: int| 0 <= i < ls.len() implies t_vec(p, #[trigger] ls[i]) == Ok::<
            Seq<ElementView>,
            TransformationErrorView,
        >(mo[i]) by {
            if i == 0 {
                assert(mo[0] == m0);
            } else {
                assert(mo[i] == mrest[i - 1]);
                assert(ls.drop_first()[i - 1] == ls[i]);
            }
        }
        assert(mo[0] == m0);
        assert(mo.drop_first() =~= mrest);
        assert forall|i: int| 0 <= i < mrest.len() implies t_vec(p, #[trigger] mrest[i]) == Ok::<
            Seq<ElementView>,
            TransformationErrorView,
        >(mrest[i]) by {
            assert(t_opts(p, mrest) == Ok::<Seq<Seq<ElementView>>, TransformationErrorView>(
                mrest,
            ));
            lemma_ws_opts_fixed_index(mrest, i);
        }
        assert(t_opts(p, mo) == Ok::<Seq<Seq<ElementView>>, TransformationErrorView>(mo));
    }
}

/// An option list collection that maps to itself maps each list to itself.
proof fn lemma_ws_opts_fixed_index(ls: Seq<Seq<ElementView>>, i: int)
    requires
        t_opts(Pass::WhitespaceParagraphs, ls) == Ok::<
            Seq<Seq<ElementView>>,
            TransformationErrorView,
        >(ls),
        0 <= i < ls.len(),
    ensures
        t_vec(Pass::WhitespaceParagraphs, ls[i]) == Ok::<
            Seq<ElementView>,
            TransformationErrorView,
        >(ls[i]),
    decreases ls.len(),
{
    let p = Pass::WhitespaceParagraphs;
    assert(ls[0] == ls.first());
    match t_vec(p, ls.first()) {
        Ok(h) => {
            match t_opts(p, ls.drop_first()) {
                Ok(t) => {
                    assert(seq![h] + t == ls);
                    assert(ls[0] == (seq![h] + t)[0]);
                    if i == 0 {
                        assert(h == ls[0]);
                    } else {
                        assert(t =~= ls.drop_first());
                        assert(ls.drop_first()[i - 1] == ls[i]);
                        lemma_ws_opts_fixed_index(ls.drop_first(), i - 1);
                    }
                },
                Err(_) => {
                    assert(false);
                },
            }
        },
        Err(_) => {
            assert(false);
        },
    }
}

/// Law: the whitespace pass always succeeds, and one application is enough:
/// running it on its own output returns that output unchanged.
pub proof fn lemma_ws_elem(v: ElementView)
    ensures
        t_elem(Pass::WhitespaceParagraphs, v) matches Ok(w) && t_elem(
            Pass::WhitespaceParagraphs,
            w,
        ) == Ok::<ElementView, TransformationErrorView>(w) && (v is Text ==> w == v) && (w
            is Text ==> v is Text),
    decreases esize(v), rank(v), 3nat, 0nat,
{
    let p = Pass::WhitespaceParagraphs;
    match v {
        ElementView::Text { .. } => {},
        ElementView::Comment { .. } => {},
        ElementView::Error { .. } => {},
        ElementView::Document { span, content } => {
            lemma_ws_vec(content);
        },
        ElementView::Heading { span, depth, caption, content } => {
            lemma_ws_vec(caption);
            lemma_ws_vec(content);
        },
        ElementView::Formatted { span, markup, content } => {
            lemma_ws_vec(content);
        },
        ElementView::Paragraph { span, content } => {
            if ws_par_content(content) {
                assert(ws_par_content(Seq::empty()));
            } else {
                lemma_ws_vec(content);
                let m = t_vec(p, content)->Ok_0;
                let j = choose|j: int|
                    0 <= j < content.len() && !(match #[trigger] content[j] {
                        ElementView::Text { text, .. } => ws_seq(text),
                        _ => false,
                    });
                assert(!(match m[j] {
                    ElementView::Text { text, .. } => ws_seq(text),
                    _ => false,
                }));
                assert(!ws_par_content(m));
            }
        },
        ElementView::Template { span, name, content } => {
            lemma_ws_vec(name);
            lemma_ws_vec(content);
        },
        ElementView::TemplateArgument { span, name, value } => {
            lemma_ws_vec(value);
        },
        ElementView::InternalReference { span, target, options, caption } => {
            lemma_ws_vec(target);
            lemma_ws_opts(options);
            lemma_ws_vec(caption);
        },
        ElementView::ExternalReference { span, target, caption } => {
            lemma_ws_vec(caption);
        },
        ElementView::ListItem { span, depth, kind, content } => {
            lemma_ws_vec(content);
        },
        ElementView::List { span, content } => {
            lemma_ws_vec(content);
        },
        ElementView::Table { span, attributes, caption, caption_attributes, rows } => {
            lemma_ws_vec(caption);
            lemma_ws_vec(rows);
        },
        ElementView::TableRow { span, attributes, cells } => {
            lemma_ws_vec(cells);
        },
        ElementView::TableCell { span, header, attributes, content } => {
            lemma_ws_vec(content);
        },
        ElementView::HtmlTag { span, name, attributes, content } => {
            lemma_ws_vec(content);
        },
        ElementView::Gallery { span, attributes, content } => {
            lemma_ws_vec(content);
        },
    }
}

/// No two adjacent elements of the list are text nodes.
pub open spec fn no_adj_text(s: Seq<ElementView>) -> bool {
    forall|i: int| 0 <= i < s.len() - 1 ==> !((#[trigger] s[i]) is Text && s[i + 1] is Text)
}

/// The text collapsing always succeeds and leaves no two adjacent text
/// nodes.
proof fn lemma_ct_go_noadj(rem: Seq<ElementView>, acc: Seq<ElementView>)
    requires
        no_adj_text(acc),
    ensures
        ct_restructure_go(rem, acc) matches Ok(r) && no_adj_text(r),
    decreases rem.len(),
{
    if rem.len() > 0 {
        let child = rem.first();
        match child {
            ElementView::Text { span, text } => {
                if acc.len() > 0 && acc.last() is Text {
                    match acc.last() {
                        ElementView::Text { span: lspan, text: ltext } => {
                            let merged = ElementView::Text {
                                span: Span { start: lspan.start, end: span.end },
                                text: ltext + (if ws_seq(text) {
                                    seq![' ']
                                } else {
                                    text
                                }),
                            };
                            let acc2 = acc.update(acc.len() - 1, merged);
                            assert forall|i: int| 0 <= i < acc2.len() - 1 implies !((
                            #[trigger] acc2[i]) is Text && acc2[i + 1] is Text) by {
                                if i + 1 < acc.len() - 1 {
                                    assert(acc2[i] == acc[i]);
                                    assert(acc2[i + 1] == acc[i + 1]);
                                } else {
                                    assert(acc2[i] == acc[i]);
                                    assert(acc[acc.len() - 1] is Text);
                                    assert(!(acc[i] is Text));
                                }
                            }
                            lemma_ct_go_noadj(rem.drop_first(), acc2);
                        },
                        _ => {},
                    }
                } else {
                    let acc2 = acc.push(child);
                    assert forall|i: int| 0 <= i < acc2.len() - 1 implies !((
                    #[trigger] acc2[i]) is Text && acc2[i + 1] is Text) by {
                        if i + 1 < acc.len() {
                            assert(acc2[i] == acc[i]);
                            assert(acc2[i + 1] == acc[i + 1]);
                        } else {
                            assert(acc2[i] == acc[i]);
                            assert(acc2[i + 1] == child);
                        }
                    }
                    lemma_ct_go_noadj(rem.drop_first(), acc2);
                }
            },
            _ => {
                let acc2 = acc.push(child);
                assert forall|i: int| 0 <= i < acc2.len() - 1 implies !((
                #[trigger] acc2[i]) is Text && acc2[i + 1] is Text) by {
                    if i + 1 < acc.len() {
                        assert(acc2[i] == acc[i]);
                        assert(acc2[i + 1] == acc[i + 1]);
                    } else {
                        assert(acc2[i + 1] == child);
                    }
                }
                lemma_ct_go_noadj(rem.drop_first(), acc2);
            },
        }
    }
}

/// On a list with no two adjacent text nodes, the text collapsing changes
/// nothing.
proof fn lemma_ct_go_identity(rem: Seq<ElementView>, acc: Seq<ElementView>)
    requires
        no_adj_text(rem),
        acc.len() > 0 && rem.len() > 0 ==> !(acc.last() is Text && rem[0] is Text),
    ensures
        ct_restructure_go(rem, acc) == Ok::<Seq<ElementView>, TransformationErrorView>(
            acc + rem,
        ),
    decreases rem.len(),
{
    if rem.len() == 0 {
        assert(acc + rem =~= acc);
    } else {
        let child = rem.first();
        assert(child == rem[0]);
        let acc2 = acc.push(child);
        assert forall|i: int| 0 <= i < rem.drop_first().len() - 1 implies !((
        #[trigger] rem.drop_first()[i]) is Text && rem.drop_first()[i + 1] is Text) by {
            assert(rem.drop_first()[i] == rem[i + 1]);
            assert(rem.drop_first()[i + 1] == rem[i + 2]);
        }
        if rem.len() > 1 {
            assert(rem.drop_first()[0] == rem[1]);
            assert(!(rem[0] is Text && rem[1] is Text));
        }
        lemma_ct_go_identity(rem.drop_first(), acc2);
        assert(acc2 + rem.drop_first() =~= acc + rem);
    }
}

/// The transformed elements of a list whose members the text pass already
/// leaves alone: the list itself.
proof fn lemma_ct_map_fixed(s: Seq<ElementView>, b: nat)
    requires
        forall|i: int|
            0 <= i < s.len() ==> t_elem(Pass::CollapseText, #[trigger] s[i]) == Ok::<
                ElementView,
                TransformationErrorView,
            >(s[i]),
        forall|i: int| 0 <= i < s.len() ==> esize(#[trigger] s[i]) < b,
    ensures
        t_map(Pass::CollapseText, s, b) == Ok::<Seq<ElementView>, TransformationErrorView>(s),
    decreases s.len(),
{
    if s.len() == 0 {
        assert(s =~= Seq::<ElementView>::empty());
    } else {
        assert(s[0] == s.first());
        assert forall|i: int| 0 <= i < s.drop_first().len() implies t_elem(
            Pass::CollapseText,
            #[trigger] s.drop_first()[i],
        ) == Ok::<ElementView, TransformationErrorView>(s.drop_first()[i]) && esize(
            s.drop_first()[i],
        ) < b by {
            assert(s.drop_first()[i] == s[i + 1]);
        }
        lemma_ct_map_fixed(s.drop_first(), b);
        assert(seq![s.first()] + s.drop_first() =~= s);
    }
}

/// The text pass on every element of a list: always succeeds, keeps the
/// length, maps each element to its own transform, and keeps which elements
/// are text nodes.
proof fn lemma_ct_map(s: Seq<ElementView>, b: nat)
    requires
        forall|i: int| 0 <= i < s.len() ==> esize(#[trigger] s[i]) < b,
    ensures
        t_map(Pass::CollapseText, s, b) matches Ok(m) && m.len() == s.len() && (forall|i: int|
            0 <= i < s.len() ==> t_elem(Pass::CollapseText, #[trigger] s[i]) == Ok::<
                ElementView,
                TransformationErrorView,
            >(m[i])) && (forall|i: int|
            0 <= i < s.len() ==> ((#[trigger] s[i]) is Text <==> m[i] is Text)),
    decreases b, 0nat, 1nat, s.len(),
{
    if s.len() > 0 {
        assert(s[0] == s.first());
        lemma_ct_elem(s.first());
        assert forall|i: int| 0 <= i < s.drop_first().len() implies esize(
            #[trigger] s.drop_first()[i],
        ) < b by {
            assert(s.drop_first()[i] == s[i + 1]);
        }
        lemma_ct_map(s.drop_first(), b);
        let w0 = t_elem(Pass::CollapseText, s.first())->Ok_0;
        let mrest = t_map(Pass::CollapseText, s.drop_first(), b)->Ok_0;
        let m = seq![w0] + mrest;
        assert(t_map(Pass::CollapseText, s, b) == Ok::<
            Seq<ElementView>,
            TransformationErrorView,
        >(m));
        assert forall|i: int| 0 <= i < s.len() implies t_elem(
            Pass::CollapseText,
            #[trigger] s[i],
        ) == Ok::<ElementView, TransformationErrorView>(m[i]) && ((s[i] is Text <==> m[i]
            is Text)) by {
            if i == 0 {
                assert(m[0] == w0);
            } else {
                assert(m[i] == mrest[i - 1]);
                assert(s.drop_first()[i - 1] == s[i]);
            }
        }
    }
}

/// The text pass on one child list: always succeeds, and applying it to its
/// own output changes nothing.
proof fn lemma_ct_vec(s: Seq<ElementView>)
    ensures
        t_vec(Pass::CollapseText, s) matches Ok(m) && t_vec(Pass::CollapseText, m) == Ok::<
            Seq<ElementView>,
            TransformationErrorView,
        >(m),
    decreases list_size(s) + 1, 0nat, 2nat, 0nat,
{
    let p = Pass::CollapseText;
    assert(no_adj_text(Seq::<ElementView>::empty()));
    lemma_ct_go_noadj(s, Seq::empty());
    let r = ct_restructure_go(s, Seq::empty())->Ok_0;
    assert(restructure(p, s) == Ok::<Seq<ElementView>, TransformationErrorView>(r));
    lemma_restructure_bounds(p, s);
    assert forall|i: int| 0 <= i < r.len() implies esize(#[trigger] r[i]) < list_size(s) + 1 by {
        assert(restructure(p, s)->Ok_0[i] == r[i]);
    }
    lemma_ct_map(r, (list_size(s) + 1) as nat);
    let m = t_map(p, r, (list_size(s) + 1) as nat)->Ok_0;
    assert forall|i: int| 0 <= i < m.len() - 1 implies !((#[trigger] m[i]) is Text && m[i + 1]
        is Text) by {
        assert((r[i] is Text <==> m[i] is Text));
        assert((r[i + 1] is Text <==> m[i + 1] is Text));
    }
    lemma_ct_go_identity(m, Seq::empty());
    assert(Seq::<ElementView>::empty() + m =~= m);
    assert(restructure(p, m) == Ok::<Seq<ElementView>, TransformationErrorView>(m));
    assert forall|i: int| 0 <= i < m.len() implies esize(#[trigger] m[i]) < list_size(m) + 1 by {
        lemma_list_size_index(m, i);
    }
    assert forall|i: int| 0 <= i < m.len() implies t_elem(p, #[trigger] m[i]) == Ok::<
        ElementView,
        TransformationErrorView,
    >(m[i]) by {
        assert(t_elem(p, r[i]) == Ok::<ElementView, TransformationErrorView>(m[i]));
        lemma_ct_elem_fix(r[i]);
    }
    lemma_ct_map_fixed(m, (list_size(m) + 1) as nat);
}

/// What the text pass returns is a fixed point of the pass.
proof fn lemma_ct_elem_fix(v: ElementView)
    ensures
        t_elem(Pass::CollapseText, v) matches Ok(w) ==> t_elem(Pass::CollapseText, w) == Ok::<
            ElementView,
            TransformationErrorView,
        >(w),
    decreases esize(v), rank(v), 4nat, 0nat,
{
    lemma_ct_elem(v);
}

/// The text pass on the option lists of an internal reference.
proof fn lemma_ct_opts(ls: Seq<Seq<ElementView>>)
    ensures
        t_opts(Pass::CollapseText, ls) matches Ok(mo) && t_opts(Pass::CollapseText, mo) == Ok::<
            Seq<Seq<ElementView>>,
            TransformationErrorView,
        >(mo),
    decreases opts_size(ls) + 1, 0nat, 2nat, ls.len() + 1,
{
    let p = Pass::CollapseText;
    if ls.len() == 0 {
        assert(ls =~= Seq::<Seq<ElementView>>::empty());
    } else {
        assert(ls[0] == ls.first());
        lemma_opts_size_index(ls, 0);
        lemma_ct_vec(ls.first());
        lemma_ct_opts(ls.drop_first());
        let m0 = t_vec(p, ls.first())->Ok_0;
        let mrest = t_opts(p, ls.drop_first())->Ok_0;
        let mo = seq![m0] + mrest;
        assert(t_opts(p, ls) == Ok::<Seq<Seq<ElementView>>, TransformationErrorView>(mo));
        assert(mo[0] == m0);
        assert(mo.drop_first() =~= mrest);
        assert(t_opts(p, mo) == Ok::<Seq<Seq<ElementView>>, TransformationErrorView>(mo));
    }
}

/// Law: the text-collapsing pass always succeeds, and one application is
/// enough: after one pass no content list holds two adjacent text nodes, so
/// running it on its own output returns that output unchanged.
pub proof fn lemma_ct_elem(v: ElementView)
    ensures
        t_elem(Pass::CollapseText, v) matches Ok(w) && t_elem(Pass::CollapseText, w) == Ok::<
            ElementView,
            TransformationErrorView,
        >(w) && (v is Text ==> w == v) && (w is Text ==> v is Text),
    decreases esize(v), rank(v), 3nat, 0nat,
{
    match v {
        ElementView::Text { .. } => {},
        ElementView::Comment { .. } => {},
        ElementView::Error { .. } => {},
        ElementView::Document { span, content } => {
            lemma_ct_vec(content);
        },
        ElementView::Heading { span, depth, caption, content } => {
            lemma_ct_vec(caption);
            lemma_ct_vec(content);
        },
        ElementView::Formatted { span, markup, content } => {
            lemma_ct_vec(content);
        },
        ElementView::Paragraph { span, content } => {
            lemma_ct_vec(content);
        },
        ElementView::Template { span, name, content } => {
            lemma_ct_vec(name);
            lemma_ct_vec(content);
        },
        ElementView::TemplateArgument { span, name, value } => {
            lemma_ct_vec(value);
        },
        ElementView::InternalReference { span, target, options, caption } => {
            lemma_ct_vec(target);
            lemma_ct_opts(options);
            lemma_ct_vec(caption);
        },
        ElementView::ExternalReference { span, target, caption } => {
            lemma_ct_vec(caption);
        },
        ElementView::ListItem { span, depth, kind, content } => {
            lemma_ct_vec(content);
        },
        ElementView::List { span, content } => {
            lemma_ct_vec(content);
        },
        ElementView::Table { span, attributes, caption, caption_attributes, rows } => {
            lemma_ct_vec(caption);
            lemma_ct_vec(rows);
        },
        ElementView::TableRow { span, attributes, cells } => {
            lemma_ct_vec(cells);
        },
        ElementView::TableCell { span, header, attributes, content } => {
            lemma_ct_vec(content);
        },
        ElementView::HtmlTag { span, name, attributes, content } => {
            lemma_ct_vec(content);
        },
        ElementView::Gallery { span, attributes, content } => {
            lemma_ct_vec(content);
        },
    }
}

/// Renumbering keeps the length and the size of every element.
pub proof fn lemma_en_renumber_sizes(s: Seq<ElementView>, counter: usize)
    ensures
        en_renumber(s, counter).len() == s.len(),
        forall|i: int|
            0 <= i < s.len() ==> esize(#[trigger] en_renumber(s, counter)[i]) == esize(s[i]),
        list_size(en_renumber(s, counter)) == list_size(s),
    decreases s.len(),
{
    if s.len() > 0 {
        let counter2 = match s.first() {
            ElementView::TemplateArgument { name, .. } => if ws_seq(name) {
                if counter < usize::MAX {
                    (counter + 1) as usize
                } else {
                    counter
                }
            } else {
                counter
            },
            _ => counter,
        };
        lemma_en_renumber_sizes(s.drop_first(), counter2);
        let r = en_renumber(s, counter);
        assert(r.drop_first() =~= en_renumber(s.drop_first(), counter2));
        assert(esize(r.first()) == esize(s.first()));
        assert forall|i: int| 0 <= i < s.len() implies esize(#[trigger] r[i]) == esize(s[i]) by {
            if i > 0 {
                assert(r[i] == en_renumber(s.drop_first(), counter2)[i - 1]);
                assert(s.drop_first()[i - 1] == s[i]);
            }
        }
        assert(list_size(r) == esize(r.first()) + list_size(r.drop_first()));
    }
}

} // verus!
