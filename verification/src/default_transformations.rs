//! The structural rewrite passes, each proved to compute exactly what its
//! functional model in `transform_spec` describes.

use vstd::prelude::*;

use crate::ast::{
    duplicate, duplicate_list, elem_list_view, elem_view, esize, lemma_elem_list_view,
    lemma_elem_list_view_push, lemma_elem_list_view_update, lemma_opts_size_index, list_size,
    opts_size, opts_view, rank, Element, ElementView, List, ListItem, Paragraph, Span,
    TemplateArgument, Text,
};
use crate::error::{TransformationError, TransformationErrorView};
use crate::transform_spec::{
    cp_restructure_go, ct_restructure_go, en_renumber, fh_restructure, fh_restructure_go,
    fl_first_nonitem, fl_lowest, fl_restructure, fl_restructure_go, lemma_en_renumber_sizes,
    lemma_fl_restructure_bounds, lemma_restructure_bounds, restructure, t_elem, t_items, t_map,
    t_opts, t_vec, ws_par_content, Pass,
};
use crate::transformations::{TListResult, TResult};
use crate::util::{is_whitespace, usize_to_string, ws_seq};

verus! {

/// Settings for general transformations.
pub struct GeneralSettings {}

/// An executable result and a modelled result that say the same thing.
pub open spec fn res_agrees(
    r: Result<Element, TransformationError>,
    s: Result<ElementView, TransformationErrorView>,
) -> bool {
    match r {
        Ok(out) => s matches Ok(sv) && sv == out@,
        Err(e) => s matches Err(ev) && ev == e@,
    }
}

/// An executable list result and a modelled list result that say the same
/// thing.
pub open spec fn vec_agrees(
    r: Result<Vec<Element>, TransformationError>,
    s: Result<Seq<ElementView>, TransformationErrorView>,
) -> bool {
    match r {
        Ok(out) => s matches Ok(sv) && sv == elem_list_view(out@),
        Err(e) => s matches Err(ev) && ev == e@,
    }
}

/// An executable option-list result and a modelled one that say the same
/// thing.
pub open spec fn opts_agrees(
    r: Result<Vec<Vec<Element>>, TransformationError>,
    s: Result<Seq<Seq<ElementView>>, TransformationErrorView>,
) -> bool {
    match r {
        Ok(out) => s matches Ok(sv) && sv == opts_view(out@),
        Err(e) => s matches Err(ev) && ev == e@,
    }
}

/// Tests whether a paragraph's content is nothing but whitespace text.
fn is_ws_content(v: &Vec<Element>) -> (r: bool)
    ensures
        r == ws_par_content(elem_list_view(v@)),
{
    let ghost full = elem_list_view(v@);
    proof {
        lemma_elem_list_view(v@);
    }
    let n = v.len();
    let mut i: usize = 0;
    while i < n
        invariant
            0 <= i <= n,
            n == v@.len(),
            full == elem_list_view(v@),
            full.len() == n,
            forall|j: int| 0 <= j < n ==> full[j] == elem_view(#[trigger] v@[j]),
            forall|j: int|
                0 <= j < i ==> match #[trigger] full[j] {
                    ElementView::Text { text, .. } => ws_seq(text),
                    _ => false,
                },
        decreases n - i,
    {
        match &v[i] {
            Element::Text(t) => {
                if !is_whitespace(t.text.as_str()) {
                    return false;
                }
            },
            _ => {
                return false;
            },
        }
        i = i + 1;
    }
    true
}

/// Renames the anonymous arguments of a template's content in order.
fn renumber_args(v: &Vec<Element>) -> (r: Vec<Element>)
    ensures
        elem_list_view(r@) == en_renumber(elem_list_view(v@), 1),
{
    let ghost full = elem_list_view(v@);
    proof {
        lemma_elem_list_view(v@);
        assert(full.skip(0) =~= full);
    }
    let n = v.len();
    let mut out: Vec<Element> = Vec::new();
    let mut counter: usize = 1;
    let mut i: usize = 0;
    while i < n
        invariant
            0 <= i <= n,
            n == v@.len(),
            full == elem_list_view(v@),
            full.len() == n,
            forall|j: int| 0 <= j < n ==> full[j] == elem_view(#[trigger] v@[j]),
            en_renumber(full, 1) == elem_list_view(out@) + en_renumber(
                full.skip(i as int),
                counter,
            ),
        decreases n - i,
    {
        let ghost prev_vec = out@;
        let ghost pre = elem_list_view(out@);
        proof {
            assert(full.skip(i as int).first() == full[i as int]);
            assert(full.skip(i as int).drop_first() =~= full.skip(i as int + 1));
        }
        match &v[i] {
            Element::TemplateArgument(a) => {
                if is_whitespace(a.name.as_str()) {
                    let renamed = Element::TemplateArgument(
                        TemplateArgument {
                            position: a.position,
                            name: usize_to_string(counter),
                            value: duplicate_list(&a.value),
                        },
                    );
                    out.push(renamed);
                    proof {
                        lemma_elem_list_view_push(prev_vec, renamed);
                        assert(elem_list_view(out@) =~= pre.push(elem_view(renamed)));
                        assert(en_renumber(full.skip(i as int), counter) =~= seq![
                            elem_view(renamed),
                        ] + en_renumber(
                            full.skip(i as int + 1),
                            if counter < usize::MAX {
                                (counter + 1) as usize
                            } else {
                                counter
                            },
                        ));
                        assert(elem_list_view(out@) + en_renumber(
                            full.skip(i as int + 1),
                            if counter < usize::MAX {
                                (counter + 1) as usize
                            } else {
                                counter
                            },
                        ) =~= pre + en_renumber(full.skip(i as int), counter));
                    }
                    if counter < usize::MAX {
                        counter = counter + 1;
                    }
                } else {
                    let copied = duplicate(&v[i]);
                    out.push(copied);
                    proof {
                        lemma_elem_list_view_push(prev_vec, copied);
                        assert(elem_list_view(out@) =~= pre.push(full[i as int]));
                        assert(elem_list_view(out@) + en_renumber(
                            full.skip(i as int + 1),
                            counter,
                        ) =~= pre + en_renumber(full.skip(i as int), counter));
                    }
                }
            },
            _ => {
                let copied = duplicate(&v[i]);
                out.push(copied);
                proof {
                    lemma_elem_list_view_push(prev_vec, copied);
                    assert(elem_list_view(out@) =~= pre.push(full[i as int]));
                    assert(elem_list_view(out@) + en_renumber(full.skip(i as int + 1), counter)
                        =~= pre + en_renumber(full.skip(i as int), counter));
                }
            },
        }
        i = i + 1;
    }
    proof {
        assert(full.skip(n as int) =~= Seq::<ElementView>::empty());
        assert(en_renumber(full, 1) =~= elem_list_view(out@));
    }
    out
}

/// The one walk of `fh_restructure`, on vectors.
fn fh_restr_exec(v: &Vec<Element>) -> (r: Result<Vec<Element>, TransformationError>)
    ensures
        vec_agrees(r, fh_restructure(elem_list_view(v@))),
{
    let ghost full = elem_list_view(v@);
    proof {
        lemma_elem_list_view(v@);
        assert(full.skip(0) =~= full);
    }
    let n = v.len();
    let mut out: Vec<Element> = Vec::new();
    let mut cur_depth: usize = usize::MAX;
    let mut idx: usize = 0;
    let mut i: usize = 0;
    while i < n
        invariant
            0 <= i <= n,
            n == v@.len(),
            full == elem_list_view(v@),
            full.len() == n,
            forall|j: int| 0 <= j < n ==> full[j] == elem_view(#[trigger] v@[j]),
            fh_restructure(full) == fh_restructure_go(
                full.skip(i as int),
                elem_list_view(out@),
                cur_depth,
                idx as int,
            ),
            cur_depth < usize::MAX ==> out@.len() > 0 && idx + 1 == out@.len()
                && elem_list_view(out@)[idx as int] is Heading,
        decreases n - i,
    {
        let ghost prev_vec = out@;
        let ghost pre = elem_list_view(out@);
        proof {
            assert(full.skip(i as int).first() == full[i as int]);
            assert(full.skip(i as int).drop_first() =~= full.skip(i as int + 1));
            lemma_elem_list_view(out@);
        }
        let child = &v[i];
        match child {
            Element::Heading(h) => {
                if h.depth > cur_depth {
                    let last = out.pop().unwrap();
                    match last {
                        Element::Heading(mut lh) => {
                            let ghost lcontent = elem_list_view(lh.content@);
                            let ghost prev_content = lh.content@;
                            let copied = duplicate(child);
                            lh.content.push(copied);
                            proof {
                                lemma_elem_list_view_push(prev_content, copied);
                            }
                            let rebuilt = Element::Heading(lh);
                            out.push(rebuilt);
                            proof {
                                assert(out@ =~= prev_vec.update(
                                    prev_vec.len() - 1,
                                    rebuilt,
                                ));
                                lemma_elem_list_view_update(
                                    prev_vec,
                                    prev_vec.len() - 1,
                                    rebuilt,
                                );
                                assert(elem_list_view(out@) =~= pre.update(
                                    idx as int,
                                    elem_view(rebuilt),
                                ));
                            }
                        },
                        _ => {
                            proof {
                                assert(pre[idx as int] == elem_view(prev_vec[idx as int]));
                                assert(false);
                            }
                        },
                    }
                } else {
                    let d = h.depth;
                    let copied = duplicate(child);
                    out.push(copied);
                    proof {
                        lemma_elem_list_view_push(prev_vec, copied);
                    }
                    cur_depth = d;
                    idx = out.len() - 1;
                    proof {
                        lemma_elem_list_view(out@);
                    }
                }
            },
            _ => {
                if cur_depth < usize::MAX {
                    let err = TransformationError {
                        cause: String::from_str(
                            "a non-heading element was found after a heading. This should not happen.",
                        ),
                        position: *child.get_position(),
                        transformation_name: String::from_str("fold_headings_transformation"),
                        tree: duplicate(child),
                    };
                    return Err(err);
                } else {
                    let copied = duplicate(child);
                    out.push(copied);
                    proof {
                        lemma_elem_list_view_push(prev_vec, copied);
                    }
                }
            },
        }
        i = i + 1;
    }
    proof {
        assert(full.skip(n as int) =~= Seq::<ElementView>::empty());
    }
    Ok(out)
}

/// The one walk of the paragraph collapsing, on vectors.
fn cp_restr_exec(v: &Vec<Element>) -> (r: Result<Vec<Element>, TransformationError>)
    ensures
        vec_agrees(r, cp_restructure_go(elem_list_view(v@), Seq::empty(), false)),
{
    let ghost full = elem_list_view(v@);
    proof {
        lemma_elem_list_view(v@);
        assert(full.skip(0) =~= full);
    }
    let n = v.len();
    let mut out: Vec<Element> = Vec::new();
    let mut last_empty: bool = false;
    let mut i: usize = 0;
    while i < n
        invariant
            0 <= i <= n,
            n == v@.len(),
            full == elem_list_view(v@),
            full.len() == n,
            forall|j: int| 0 <= j < n ==> full[j] == elem_view(#[trigger] v@[j]),
            cp_restructure_go(full, Seq::empty(), false) == cp_restructure_go(
                full.skip(i as int),
                elem_list_view(out@),
                last_empty,
            ),
        decreases n - i,
    {
        let ghost prev_vec = out@;
        let ghost pre = elem_list_view(out@);
        proof {
            assert(full.skip(i as int).first() == full[i as int]);
            assert(full.skip(i as int).drop_first() =~= full.skip(i as int + 1));
            lemma_elem_list_view(out@);
        }
        let child = &v[i];
        let mut merged_here = false;
        match child {
            Element::Paragraph(p) => {
                if p.content.len() == 0 {
                    last_empty = true;
                    merged_here = true;
                } else if !last_empty && out.len() > 0 {
                    let is_par = match &out.as_slice()[out.len() - 1] {
                        Element::Paragraph(_) => true,
                        _ => false,
                    };
                    if is_par {
                        let last = out.pop().unwrap();
                        match last {
                            Element::Paragraph(mut lp) => {
                                let ghost prev_content = lp.content@;
                                let sep = Element::Text(
                                    Text { position: lp.position, text: String::from_str(" ") },
                                );
                                lp.content.push(sep);
                                proof {
                                    lemma_elem_list_view_push(prev_content, sep);
                                }
                                let ghost mid_content = lp.content@;
                                let mut dup = duplicate_list(&p.content);
                                let ghost dup_vec = dup@;
                                lp.content.append(&mut dup);
                                proof {
                                    crate::ast::lemma_elem_list_view_concat(
                                        mid_content,
                                        dup_vec,
                                    );
                                    assert(elem_list_view(lp.content@) =~= elem_list_view(
                                        mid_content,
                                    ) + elem_list_view(p.content@));
                                }
                                lp.position = Span {
                                    start: lp.position.start,
                                    end: p.position.end,
                                };
                                let rebuilt = Element::Paragraph(lp);
                                out.push(rebuilt);
                                proof {
                                    assert(out@ =~= prev_vec.update(
                                        prev_vec.len() - 1,
                                        rebuilt,
                                    ));
                                    lemma_elem_list_view_update(
                                        prev_vec,
                                        prev_vec.len() - 1,
                                        rebuilt,
                                    );
                                    assert(elem_list_view(out@) =~= pre.update(
                                        pre.len() - 1,
                                        elem_view(rebuilt),
                                    ));
                                }
                                last_empty = false;
                                merged_here = true;
                            },
                            _ => {
                                proof {
                                    assert(pre.last() == elem_view(prev_vec.last()));
                                    assert(false);
                                }
                            },
                        }
                    }
                }
            },
            _ => {},
        }
        if !merged_here {
            let copied = duplicate(child);
            out.push(copied);
            proof {
                lemma_elem_list_view_push(prev_vec, copied);
            }
            last_empty = false;
        }
        i = i + 1;
    }
    proof {
        assert(full.skip(n as int) =~= Seq::<ElementView>::empty());
    }
    Ok(out)
}

/// The one walk of the text collapsing, on vectors.
fn ct_restr_exec(v: &Vec<Element>) -> (r: Result<Vec<Element>, TransformationError>)
    ensures
        vec_agrees(r, ct_restructure_go(elem_list_view(v@), Seq::empty())),
{
    let ghost full = elem_list_view(v@);
    proof {
        lemma_elem_list_view(v@);
        assert(full.skip(0) =~= full);
    }
    let n = v.len();
    let mut out: Vec<Element> = Vec::new();
    let mut i: usize = 0;
    while i < n
        invariant
            0 <= i <= n,
            n == v@.len(),
            full == elem_list_view(v@),
            full.len() == n,
            forall|j: int| 0 <= j < n ==> full[j] == elem_view(#[trigger] v@[j]),
            ct_restructure_go(full, Seq::empty()) == ct_restructure_go(
                full.skip(i as int),
                elem_list_view(out@),
            ),
        decreases n - i,
    {
        let ghost prev_vec = out@;
        let ghost pre = elem_list_view(out@);
        proof {
            assert(full.skip(i as int).first() == full[i as int]);
            assert(full.skip(i as int).drop_first() =~= full.skip(i as int + 1));
            lemma_elem_list_view(out@);
        }
        let child = &v[i];
        let mut merged_here = false;
        match child {
            Element::Text(t) => {
                if out.len() > 0 {
                    let is_text = match &out.as_slice()[out.len() - 1] {
                        Element::Text(_) => true,
                        _ => false,
                    };
                    if is_text {
                        let last = out.pop().unwrap();
                        match last {
                            Element::Text(mut lt) => {
                                if is_whitespace(t.text.as_str()) {
                                    let ghost prev_text = lt.text@;
                                    lt.text.push(' ');
                                    proof {
                                        assert(lt.text@ =~= prev_text + seq![' ']);
                                    }
                                } else {
                                    lt.text.append(t.text.as_str());
                                }
                                lt.position = Span {
                                    start: lt.position.start,
                                    end: t.position.end,
                                };
                                let rebuilt = Element::Text(lt);
                                out.push(rebuilt);
                                proof {
                                    assert(out@ =~= prev_vec.update(
                                        prev_vec.len() - 1,
                                        rebuilt,
                                    ));
                                    lemma_elem_list_view_update(
                                        prev_vec,
                                        prev_vec.len() - 1,
                                        rebuilt,
                                    );
                                    assert(elem_list_view(out@) =~= pre.update(
                                        pre.len() - 1,
                                        elem_view(rebuilt),
                                    ));
                                }
                                merged_here = true;
                            },
                            _ => {
                                proof {
                                    assert(pre.last() == elem_view(prev_vec.last()));
                                    assert(false);
                                }
                            },
                        }
                    }
                }
            },
            _ => {},
        }
        if !merged_here {
            let copied = duplicate(child);
            out.push(copied);
            proof {
                lemma_elem_list_view_push(prev_vec, copied);
            }
        }
        i = i + 1;
    }
    proof {
        assert(full.skip(n as int) =~= Seq::<ElementView>::empty());
    }
    Ok(out)
}

/// The index of the first non-item child of a list, if any.
fn fl_find_nonitem_exec(v: &Vec<Element>) -> (r: Option<usize>)
    ensures
        match r {
            Some(k) => fl_first_nonitem(elem_list_view(v@)) == Some(k as int) && k < v@.len(),
            None => fl_first_nonitem(elem_list_view(v@)) is None,
        },
{
    let ghost full = elem_list_view(v@);
    proof {
        lemma_elem_list_view(v@);
        assert(full.skip(0) =~= full);
    }
    let n = v.len();
    let mut i: usize = 0;
    while i < n
        invariant
            0 <= i <= n,
            n == v@.len(),
            full == elem_list_view(v@),
            full.len() == n,
            forall|j: int| 0 <= j < n ==> full[j] == elem_view(#[trigger] v@[j]),
            fl_first_nonitem(full) == match fl_first_nonitem(full.skip(i as int)) {
                None => None::<int>,
                Some(k) => Some(k + i),
            },
        decreases n - i,
    {
        proof {
            assert(full.skip(i as int).first() == full[i as int]);
            assert(full.skip(i as int).drop_first() =~= full.skip(i as int + 1));
        }
        match &v[i] {
            Element::ListItem(_) => {},
            _ => {
                return Some(i);
            },
        }
        i = i + 1;
    }
    proof {
        assert(full.skip(n as int) =~= Seq::<ElementView>::empty());
    }
    None
}

/// The least depth among a list's items.
fn fl_lowest_exec(v: &Vec<Element>) -> (r: usize)
    ensures
        r == fl_lowest(elem_list_view(v@)),
{
    let ghost full = elem_list_view(v@);
    proof {
        lemma_elem_list_view(v@);
        assert(full.skip(0) =~= full);
    }
    let n = v.len();
    let mut lowest: usize = usize::MAX;
    let mut i: usize = 0;
    while i < n
        invariant
            0 <= i <= n,
            n == v@.len(),
            full == elem_list_view(v@),
            full.len() == n,
            forall|j: int| 0 <= j < n ==> full[j] == elem_view(#[trigger] v@[j]),
            fl_lowest(full) == if lowest < fl_lowest(full.skip(i as int)) {
                lowest
            } else {
                fl_lowest(full.skip(i as int))
            },
        decreases n - i,
    {
        proof {
            assert(full.skip(i as int).first() == full[i as int]);
            assert(full.skip(i as int).drop_first() =~= full.skip(i as int + 1));
        }
        match &v[i] {
            Element::ListItem(item) => {
                if item.depth < lowest {
                    lowest = item.depth;
                }
            },
            _ => {},
        }
        i = i + 1;
    }
    proof {
        assert(full.skip(n as int) =~= Seq::<ElementView>::empty());
    }
    lowest
}

/// The error a failed sublist lookup reports.
fn fl_found_error_exec(child: &Element) -> (r: TransformationError)
    ensures
        r@ == crate::transform_spec::fl_found_error(child@),
{
    TransformationError {
        cause: String::from_str("sublist was not instantiated properly."),
        position: *child.get_position(),
        transformation_name: String::from_str("fold_lists_transformation"),
        tree: duplicate(child),
    }
}

/// The one walk of the list restructuring, on vectors.
fn fl_restr_exec(v: &Vec<Element>, lowest: usize) -> (r: Result<
    Vec<Element>,
    TransformationError,
>)
    ensures
        vec_agrees(r, fl_restructure_go(elem_list_view(v@), lowest, true, Seq::empty())),
{
    let ghost full = elem_list_view(v@);
    proof {
        lemma_elem_list_view(v@);
        assert(full.skip(0) =~= full);
    }
    let n = v.len();
    let mut out: Vec<Element> = Vec::new();
    let mut create: bool = true;
    let mut i: usize = 0;
    while i < n
        invariant
            0 <= i <= n,
            n == v@.len(),
            full == elem_list_view(v@),
            full.len() == n,
            forall|j: int| 0 <= j < n ==> full[j] == elem_view(#[trigger] v@[j]),
            fl_restructure_go(full, lowest, true, Seq::empty()) == fl_restructure_go(
                full.skip(i as int),
                lowest,
                create,
                elem_list_view(out@),
            ),
        decreases n - i,
    {
        let ghost prev_vec = out@;
        let ghost pre = elem_list_view(out@);
        proof {
            assert(full.skip(i as int).first() == full[i as int]);
            assert(full.skip(i as int).drop_first() =~= full.skip(i as int + 1));
            lemma_elem_list_view(out@);
        }
        let child = &v[i];
        match child {
            Element::ListItem(ci) => {
                if ci.depth > lowest {
                    if create {
                        if out.len() == 0 {
                            let placeholder = Element::ListItem(
                                ListItem {
                                    position: ci.position,
                                    depth: lowest,
                                    kind: ci.kind,
                                    content: Vec::new(),
                                },
                            );
                            out.push(placeholder);
                            proof {
                                lemma_elem_list_view_push(prev_vec, placeholder);
                            }
                        }
                        let ghost base_vec = out@;
                        let ghost base = elem_list_view(out@);
                        proof {
                            lemma_elem_list_view(out@);
                        }
                        let last = out.pop().unwrap();
                        match last {
                            Element::ListItem(mut li) => {
                                let ghost prev_content = li.content@;
                                let shell = Element::List(
                                    List { position: ci.position, content: Vec::new() },
                                );
                                li.content.push(shell);
                                proof {
                                    lemma_elem_list_view_push(prev_content, shell);
                                }
                                let rebuilt = Element::ListItem(li);
                                out.push(rebuilt);
                                proof {
                                    assert(out@ =~= base_vec.update(
                                        base_vec.len() - 1,
                                        rebuilt,
                                    ));
                                    lemma_elem_list_view_update(
                                        base_vec,
                                        base_vec.len() - 1,
                                        rebuilt,
                                    );
                                    assert(elem_list_view(out@) =~= base.update(
                                        base.len() - 1,
                                        elem_view(rebuilt),
                                    ));
                                }
                            },
                            _ => {
                                return Err(fl_found_error_exec(&v[i]));
                            },
                        }
                        create = false;
                    }
                    // insert the item into the open sublist of the last sibling
                    if out.len() == 0 {
                        return Err(fl_found_error_exec(&v[i]));
                    }
                    let ghost base_vec = out@;
                    let ghost base = elem_list_view(out@);
                    proof {
                        lemma_elem_list_view(out@);
                    }
                    let last = out.pop().unwrap();
                    match last {
                        Element::ListItem(mut li) => {
                            if li.content.len() == 0 {
                                return Err(fl_found_error_exec(&v[i]));
                            }
                            let ghost li_content_vec = li.content@;
                            let ghost li_content = elem_list_view(li.content@);
                            proof {
                                lemma_elem_list_view(li.content@);
                            }
                            let inner = li.content.pop().unwrap();
                            match inner {
                                Element::List(mut shell) => {
                                    let ghost shell_content_vec = shell.content@;
                                    let copied = duplicate(&v[i]);
                                    shell.content.push(copied);
                                    proof {
                                        lemma_elem_list_view_push(shell_content_vec, copied);
                                    }
                                    let newshell = Element::List(shell);
                                    li.content.push(newshell);
                                    proof {
                                        assert(li.content@ =~= li_content_vec.update(
                                            li_content_vec.len() - 1,
                                            newshell,
                                        ));
                                        lemma_elem_list_view_update(
                                            li_content_vec,
                                            li_content_vec.len() - 1,
                                            newshell,
                                        );
                                        assert(elem_list_view(li.content@) =~= li_content.update(
                                            li_content.len() - 1,
                                            elem_view(newshell),
                                        ));
                                    }
                                    let rebuilt = Element::ListItem(li);
                                    out.push(rebuilt);
                                    proof {
                                        assert(out@ =~= base_vec.update(
                                            base_vec.len() - 1,
                                            rebuilt,
                                        ));
                                        lemma_elem_list_view_update(
                                            base_vec,
                                            base_vec.len() - 1,
                                            rebuilt,
                                        );
                                        assert(elem_list_view(out@) =~= base.update(
                                            base.len() - 1,
                                            elem_view(rebuilt),
                                        ));
                                    }
                                },
                                _ => {
                                    return Err(fl_found_error_exec(&v[i]));
                                },
                            }
                        },
                        _ => {
                            return Err(fl_found_error_exec(&v[i]));
                        },
                    }
                } else {
                    let copied = duplicate(child);
                    out.push(copied);
                    proof {
                        lemma_elem_list_view_push(prev_vec, copied);
                    }
                    create = true;
                }
            },
            _ => {
                let copied = duplicate(child);
                out.push(copied);
                proof {
                    lemma_elem_list_view_push(prev_vec, copied);
                }
            },
        }
        i = i + 1;
    }
    proof {
        assert(full.skip(n as int) =~= Seq::<ElementView>::empty());
    }
    Ok(out)
}

/// What a pass does to one child list before recursing: its restructuring
/// step, or a plain copy for passes that only rewrite nodes.
fn restructure_exec(p: Pass, v: &Vec<Element>) -> (r: Result<Vec<Element>, TransformationError>)
    ensures
        vec_agrees(r, restructure(p, elem_list_view(v@))),
{
    match p {
        Pass::FoldHeadings => fh_restr_exec(v),
        Pass::CollapseParagraphs => cp_restr_exec(v),
        Pass::CollapseText => ct_restr_exec(v),
        _ => Ok(duplicate_list(v)),
    }
}

/// One child list under a pass: restructure, then transform each produced
/// element, stopping at the first error.
fn pass_vec(p: Pass, v: &Vec<Element>) -> (r: TListResult)
    ensures
        vec_agrees(r, t_vec(p, elem_list_view(v@))),
    decreases list_size(elem_list_view(v@)) + 1, 0nat, 1nat, 0nat,
{
    let ghost orig = elem_list_view(v@);
    let rstr = restructure_exec(p, v);
    let rvec = match rstr {
        Err(e) => {
            return Err(e);
        },
        Ok(rv) => rv,
    };
    let ghost b = (list_size(orig) + 1) as nat;
    let ghost rv_view = elem_list_view(rvec@);
    proof {
        lemma_restructure_bounds(p, orig);
        lemma_elem_list_view(rvec@);
        assert(rv_view.skip(0) =~= rv_view);
    }
    let ghost goal = t_map(p, rv_view, b);
    proof {
        assert(t_vec(p, orig) == goal);
    }
    let n = rvec.len();
    let mut out: Vec<Element> = Vec::new();
    let mut i: usize = 0;
    while i < n
        invariant
            0 <= i <= n,
            n == rvec@.len(),
            orig == elem_list_view(v@),
            b == list_size(orig) + 1,
            rv_view == elem_list_view(rvec@),
            rv_view.len() == n,
            goal == t_map(p, rv_view, b),
            t_vec(p, orig) == goal,
            restructure(p, orig) matches Ok(sv) && sv == rv_view,
            forall|j: int| 0 <= j < n ==> rv_view[j] == elem_view(#[trigger] rvec@[j]),
            forall|j: int| 0 <= j < n ==> esize(#[trigger] rv_view[j]) < b,
            goal == match t_map(p, rv_view.skip(i as int), b) {
                Ok(t) => Ok(elem_list_view(out@) + t),
                Err(e) => Err(e),
            },
        decreases n - i,
    {
        let ghost prev_vec = out@;
        let ghost pre = elem_list_view(out@);
        proof {
            assert(rv_view.skip(i as int).first() == rv_view[i as int]);
            assert(rv_view.skip(i as int).drop_first() =~= rv_view.skip(i as int + 1));
            assert forall|j: int| 0 <= j < rv_view.skip(i as int).len() implies esize(
                #[trigger] rv_view.skip(i as int)[j],
            ) < b by {
                assert(rv_view.skip(i as int)[j] == rv_view[j + i]);
            }
            assert forall|j: int| 0 <= j < rv_view.skip(i as int + 1).len() implies esize(
                #[trigger] rv_view.skip(i as int + 1)[j],
            ) < b by {
                assert(rv_view.skip(i as int + 1)[j] == rv_view[j + i + 1]);
            }
        }
        let res = pass_elem(p, &rvec[i]);
        match res {
            Err(e) => {
                return Err(e);
            },
            Ok(el) => {
                out.push(el);
                proof {
                    lemma_elem_list_view_push(prev_vec, el);
                    assert(elem_list_view(out@) =~= pre.push(elem_view(el)));
                    match t_map(p, rv_view.skip(i as int + 1), b) {
                        Ok(t) => {
                            assert(elem_list_view(out@) + t =~= pre + (seq![elem_view(el)] + t));
                        },
                        Err(_) => {},
                    }
                }
            },
        }
        i = i + 1;
    }
    proof {
        assert(rv_view.skip(n as int) =~= Seq::<ElementView>::empty());
        assert(t_map(p, rv_view.skip(n as int), b) == Ok::<
            Seq<ElementView>,
            TransformationErrorView,
        >(Seq::empty()));
        assert(elem_list_view(out@) + Seq::<ElementView>::empty() =~= elem_list_view(out@));
    }
    Ok(out)
}

/// Each option list of an internal reference under a pass, in order.
fn pass_opts(p: Pass, v: &Vec<Vec<Element>>) -> (r: Result<
    Vec<Vec<Element>>,
    TransformationError,
>)
    ensures
        opts_agrees(r, t_opts(p, opts_view(v@))),
    decreases opts_size(opts_view(v@)) + 1, 0nat, 1nat, v@.len() + 1,
{
    let ghost full = opts_view(v@);
    proof {
        crate::ast::lemma_opts_view(v@);
        assert(full.skip(0) =~= full);
    }
    let n = v.len();
    let mut out: Vec<Vec<Element>> = Vec::new();
    let mut i: usize = 0;
    while i < n
        invariant
            0 <= i <= n,
            n == v@.len(),
            full == opts_view(v@),
            full.len() == n,
            forall|j: int| 0 <= j < n ==> full[j] == elem_list_view(#[trigger] v@[j]@),
            t_opts(p, full) == match t_opts(p, full.skip(i as int)) {
                Ok(t) => Ok(opts_view(out@) + t),
                Err(e) => Err(e),
            },
        decreases n - i,
    {
        let ghost prev_vec = out@;
        let ghost pre = opts_view(out@);
        proof {
            assert(full.skip(i as int).first() == full[i as int]);
            assert(full.skip(i as int).drop_first() =~= full.skip(i as int + 1));
            crate::ast::lemma_opts_view(v@);
            lemma_opts_size_index(full, i as int);
        }
        let res = pass_vec(p, &v[i]);
        match res {
            Err(e) => {
                return Err(e);
            },
            Ok(lst) => {
                out.push(lst);
                proof {
                    crate::ast::lemma_opts_view_push(prev_vec, out@[out@.len() - 1]);
                    assert(opts_view(out@) =~= pre.push(elem_list_view(out@[out@.len() - 1]@)));
                    match t_opts(p, full.skip(i as int + 1)) {
                        Ok(t) => {
                            assert(opts_view(out@) + t =~= pre + (seq![
                                elem_list_view(out@[out@.len() - 1]@),
                            ] + t));
                        },
                        Err(_) => {},
                    }
                }
            },
        }
        i = i + 1;
    }
    proof {
        assert(full.skip(n as int) =~= Seq::<Seq<ElementView>>::empty());
        assert(opts_view(out@) + Seq::<Seq<ElementView>>::empty() =~= opts_view(out@));
    }
    Ok(out)
}

/// The list-folding step on one list node: reject non-items, restructure by
/// depth, then fold each produced item's own content.
fn fold_list_elem(l: &List) -> (r: TResult)
    ensures
        res_agrees(
            r,
            t_elem(
                Pass::FoldLists,
                ElementView::List { span: l.position, content: elem_list_view(l.content@) },
            ),
        ),
    decreases 1 + list_size(elem_list_view(l.content@)), 1nat, 2nat, 0nat,
{
    let ghost e_view = ElementView::List { span: l.position, content: elem_list_view(l.content@) };
        let ghost content_view = elem_list_view(l.content@);
        proof {
            lemma_elem_list_view(l.content@);
        }
        match fl_find_nonitem_exec(&l.content) {
            Some(k) => {
                let child = &l.content[k];
                let err = TransformationError {
                    cause: String::from_str("A list should not contain non-listitems."),
                    position: *child.get_position(),
                    transformation_name: String::from_str("fold_lists_transformation"),
                    tree: duplicate(child),
                };
                Err(err)
            },
            None => {
                let lowest = fl_lowest_exec(&l.content);
                let items = match fl_restr_exec(&l.content, lowest) {
                    Err(err) => {
                        proof {
                            assert(fl_restructure(content_view) == fl_restructure_go(
                                content_view,
                                fl_lowest(content_view),
                                true,
                                Seq::empty(),
                            ));
                            assert(t_elem(Pass::FoldLists, e_view) == Err::<ElementView, TransformationErrorView>(err@));
                        }
                        return Err(err);
                    },
                    Ok(it) => it,
                };
                let ghost b2 = esize(e_view);
                let ghost items_view = elem_list_view(items@);
                proof {
                    lemma_fl_restructure_bounds(content_view);
                    lemma_elem_list_view(items@);
                    assert(items_view.skip(0) =~= items_view);
                    assert forall|j: int| 0 <= j < items_view.len() implies esize(
                        #[trigger] items_view[j],
                    ) <= b2 && rank(items_view[j]) == 0 by {
                        assert(items_view[j] is ListItem);
                    }
                }
                let ghost goal = t_items(items_view, b2);
                let n = items.len();
                let mut out: Vec<Element> = Vec::new();
                let mut j: usize = 0;
                while j < n
                    invariant
                        0 <= j <= n,
                        n == items@.len(),
                        content_view == elem_list_view(l.content@),
                        e_view == (ElementView::List { span: l.position, content: content_view }),
                        b2 == esize(e_view),
                        e_view is List,
                        fl_restructure(content_view) == Ok::<
                            Seq<ElementView>,
                            TransformationErrorView,
                        >(items_view),
                        items_view == elem_list_view(items@),
                        items_view.len() == n,
                        goal == t_items(items_view, b2),
                        forall|t: int|
                            0 <= t < n ==> items_view[t] == elem_view(
                                #[trigger] items@[t],
                            ),
                        forall|t: int|
                            0 <= t < n ==> esize(#[trigger] items_view[t]) <= b2 && rank(
                                items_view[t],
                            ) == 0,
                        goal == match t_items(items_view.skip(j as int), b2) {
                            Ok(t) => Ok(elem_list_view(out@) + t),
                            Err(err) => Err(err),
                        },
                    decreases n - j,
                {
                    let ghost prev_vec = out@;
                    let ghost pre = elem_list_view(out@);
                    proof {
                        assert(items_view.skip(j as int).first() == items_view[j as int]);
                        assert(items_view.skip(j as int).drop_first() =~= items_view.skip(
                            j as int + 1,
                        ));
                        assert forall|t: int|
                            0 <= t < items_view.skip(j as int).len() implies esize(
                            #[trigger] items_view.skip(j as int)[t],
                        ) <= b2 && rank(items_view.skip(j as int)[t]) == 0 by {
                            assert(items_view.skip(j as int)[t] == items_view[t + j]);
                        }
                        assert forall|t: int|
                            0 <= t < items_view.skip(j as int + 1).len() implies esize(
                            #[trigger] items_view.skip(j as int + 1)[t],
                        ) <= b2 && rank(items_view.skip(j as int + 1)[t]) == 0 by {
                            assert(items_view.skip(j as int + 1)[t] == items_view[t + j
                                + 1]);
                        }
                    }
                    proof {
                        assert(esize(e_view) == 1 + list_size(content_view));
                        assert(items_view[j as int] == elem_view(items@[j as int]));
                        assert(esize(elem_view(items@[j as int])) <= esize(e_view));
                        assert(rank(elem_view(items@[j as int])) == 0);
                    }
                    let res = pass_elem(Pass::FoldLists, &items[j]);
                    match res {
                        Err(err) => {
                            proof {
                                assert(t_items(items_view, b2) == Err::<
                                    Seq<ElementView>,
                                    TransformationErrorView,
                                >(err@));
                            }
                            return Err(err);
                        },
                        Ok(el) => {
                            out.push(el);
                            proof {
                                lemma_elem_list_view_push(prev_vec, el);
                                assert(elem_list_view(out@) =~= pre.push(elem_view(el)));
                                match t_items(items_view.skip(j as int + 1), b2) {
                                    Ok(t) => {
                                        assert(elem_list_view(out@) + t =~= pre + (seq![
                                            elem_view(el),
                                        ] + t));
                                    },
                                    Err(_) => {},
                                }
                            }
                        },
                    }
                    j = j + 1;
                }
                proof {
                    assert(items_view.skip(n as int) =~= Seq::<ElementView>::empty());
                    assert(t_items(items_view.skip(n as int), b2) == Ok::<
                        Seq<ElementView>,
                        TransformationErrorView,
                    >(Seq::empty()));
                    assert(elem_list_view(out@) + Seq::<ElementView>::empty()
                        =~= elem_list_view(out@));
                }
                Ok(Element::List(List { position: l.position, content: out }))
            },
        }
}

/// One node under one pass: dispatches on the node's variant.
fn pass_elem(p: Pass, e: &Element) -> (r: TResult)
    ensures
        res_agrees(r, t_elem(p, e@)),
    decreases esize(e@), rank(e@), 3nat, 0nat,
{
    proof {
        crate::ast::lemma_esize_pos(e@);
    }
    match e {
        Element::Document(_) => pass_document(p, e),
        Element::Heading(_) => pass_heading(p, e),
        Element::Text(_) => Ok(duplicate(e)),
        Element::Formatted(_) => pass_formatted(p, e),
        Element::Paragraph(_) => pass_paragraph(p, e),
        Element::Template(_) => pass_template(p, e),
        Element::TemplateArgument(_) => pass_template_argument(p, e),
        Element::InternalReference(_) => pass_internal_reference(p, e),
        Element::ExternalReference(_) => pass_external_reference(p, e),
        Element::ListItem(_) => pass_list_item(p, e),
        Element::List(l) => {
            if p == Pass::FoldLists {
                fold_list_elem(l)
            } else {
                pass_list_default(p, e)
            }
        },
        Element::Table(_) => pass_table(p, e),
        Element::TableRow(_) => pass_table_row(p, e),
        Element::TableCell(_) => pass_table_cell(p, e),
        Element::Comment(_) => Ok(duplicate(e)),
        Element::HtmlTag(_) => pass_html_tag(p, e),
        Element::Gallery(_) => pass_gallery(p, e),
        Element::Error(_) => Ok(duplicate(e)),
    }
}

fn pass_document(p: Pass, e: &Element) -> (r: TResult)
    requires
        e@ is Document,
    ensures
        res_agrees(r, t_elem(p, e@)),
    decreases esize(e@), rank(e@), 2nat, 0nat,
{
    match e {
        Element::Document(d) => {
            let content = pass_vec(p, &d.content)?;
            Ok(Element::Document(crate::ast::Document { position: d.position, content }))
        },
        _ => {
            proof {
                assert(false);
            }
            vstd::pervasive::unreached()
        },
    }
}

fn pass_heading(p: Pass, e: &Element) -> (r: TResult)
    requires
        e@ is Heading,
    ensures
        res_agrees(r, t_elem(p, e@)),
    decreases esize(e@), rank(e@), 2nat, 0nat,
{
    match e {
        Element::Heading(h) => {
            let caption = pass_vec(p, &h.caption)?;
            let content = pass_vec(p, &h.content)?;
            Ok(
                Element::Heading(
                    crate::ast::Heading { position: h.position, depth: h.depth, caption, content },
                ),
            )
        },
        _ => {
            proof {
                assert(false);
            }
            vstd::pervasive::unreached()
        },
    }
}

fn pass_formatted(p: Pass, e: &Element) -> (r: TResult)
    requires
        e@ is Formatted,
    ensures
        res_agrees(r, t_elem(p, e@)),
    decreases esize(e@), rank(e@), 2nat, 0nat,
{
    match e {
        Element::Formatted(f) => {
            let content = pass_vec(p, &f.content)?;
            Ok(
                Element::Formatted(
                    crate::ast::Formatted { position: f.position, markup: f.markup, content },
                ),
            )
        },
        _ => {
            proof {
                assert(false);
            }
            vstd::pervasive::unreached()
        },
    }
}

fn pass_paragraph(p: Pass, e: &Element) -> (r: TResult)
    requires
        e@ is Paragraph,
    ensures
        res_agrees(r, t_elem(p, e@)),
    decreases esize(e@), rank(e@), 2nat, 0nat,
{
    match e {
        Element::Paragraph(par) => {
            if p == Pass::WhitespaceParagraphs && is_ws_content(&par.content) {
                proof {
                    assert(elem_list_view(Seq::<Element>::empty()) =~= Seq::<
                        ElementView,
                    >::empty());
                }
                Ok(Element::Paragraph(Paragraph { position: par.position, content: Vec::new() }))
            } else {
                let content = pass_vec(p, &par.content)?;
                Ok(Element::Paragraph(Paragraph { position: par.position, content }))
            }
        },
        _ => {
            proof {
                assert(false);
            }
            vstd::pervasive::unreached()
        },
    }
}

fn pass_template(p: Pass, e: &Element) -> (r: TResult)
    requires
        e@ is Template,
    ensures
        res_agrees(r, t_elem(p, e@)),
    decreases esize(e@), rank(e@), 2nat, 0nat,
{
    match e {
        Element::Template(t) => {
            if p == Pass::EnumerateAnonArgs {
                let renumbered = renumber_args(&t.content);
                proof {
                    lemma_en_renumber_sizes(elem_list_view(t.content@), 1);
                }
                let name = pass_vec(p, &t.name)?;
                let content = pass_vec(p, &renumbered)?;
                Ok(Element::Template(crate::ast::Template { position: t.position, name, content }))
            } else {
                let name = pass_vec(p, &t.name)?;
                let content = pass_vec(p, &t.content)?;
                Ok(Element::Template(crate::ast::Template { position: t.position, name, content }))
            }
        },
        _ => {
            proof {
                assert(false);
            }
            vstd::pervasive::unreached()
        },
    }
}

fn pass_template_argument(p: Pass, e: &Element) -> (r: TResult)
    requires
        e@ is TemplateArgument,
    ensures
        res_agrees(r, t_elem(p, e@)),
    decreases esize(e@), rank(e@), 2nat, 0nat,
{
    match e {
        Element::TemplateArgument(a) => {
            let value = pass_vec(p, &a.value)?;
            Ok(
                Element::TemplateArgument(
                    TemplateArgument { position: a.position, name: a.name.clone(), value },
                ),
            )
        },
        _ => {
            proof {
                assert(false);
            }
            vstd::pervasive::unreached()
        },
    }
}

fn pass_internal_reference(p: Pass, e: &Element) -> (r: TResult)
    requires
        e@ is InternalReference,
    ensures
        res_agrees(r, t_elem(p, e@)),
    decreases esize(e@), rank(e@), 2nat, 0nat,
{
    match e {
        Element::InternalReference(ir) => {
            let target = pass_vec(p, &ir.target)?;
            let options = pass_opts(p, &ir.options)?;
            let caption = pass_vec(p, &ir.caption)?;
            Ok(
                Element::InternalReference(
                    crate::ast::InternalReference {
                        position: ir.position,
                        target,
                        options,
                        caption,
                    },
                ),
            )
        },
        _ => {
            proof {
                assert(false);
            }
            vstd::pervasive::unreached()
        },
    }
}

fn pass_external_reference(p: Pass, e: &Element) -> (r: TResult)
    requires
        e@ is ExternalReference,
    ensures
        res_agrees(r, t_elem(p, e@)),
    decreases esize(e@), rank(e@), 2nat, 0nat,
{
    match e {
        Element::ExternalReference(er) => {
            let caption = pass_vec(p, &er.caption)?;
            Ok(
                Element::ExternalReference(
                    crate::ast::ExternalReference {
                        position: er.position,
                        target: er.target.clone(),
                        caption,
                    },
                ),
            )
        },
        _ => {
            proof {
                assert(false);
            }
            vstd::pervasive::unreached()
        },
    }
}

fn pass_list_item(p: Pass, e: &Element) -> (r: TResult)
    requires
        e@ is ListItem,
    ensures
        res_agrees(r, t_elem(p, e@)),
    decreases esize(e@), rank(e@), 2nat, 0nat,
{
    match e {
        Element::ListItem(li) => {
            let content = pass_vec(p, &li.content)?;
            Ok(
                Element::ListItem(
                    ListItem { position: li.position, depth: li.depth, kind: li.kind, content },
                ),
            )
        },
        _ => {
            proof {
                assert(false);
            }
            vstd::pervasive::unreached()
        },
    }
}

fn pass_list_default(p: Pass, e: &Element) -> (r: TResult)
    requires
        e@ is List,
        !(p is FoldLists),
    ensures
        res_agrees(r, t_elem(p, e@)),
    decreases esize(e@), rank(e@), 2nat, 0nat,
{
    match e {
        Element::List(l) => {
            let content = pass_vec(p, &l.content)?;
            Ok(Element::List(List { position: l.position, content }))
        },
        _ => {
            proof {
                assert(false);
            }
            vstd::pervasive::unreached()
        },
    }
}

fn pass_table(p: Pass, e: &Element) -> (r: TResult)
    requires
        e@ is Table,
    ensures
        res_agrees(r, t_elem(p, e@)),
    decreases esize(e@), rank(e@), 2nat, 0nat,
{
    match e {
        Element::Table(t) => {
            let caption = pass_vec(p, &t.caption)?;
            let rows = pass_vec(p, &t.rows)?;
            Ok(
                Element::Table(
                    crate::ast::Table {
                        position: t.position,
                        attributes: crate::ast::duplicate_attrs(&t.attributes),
                        caption,
                        caption_attributes: crate::ast::duplicate_attrs(&t.caption_attributes),
                        rows,
                    },
                ),
            )
        },
        _ => {
            proof {
                assert(false);
            }
            vstd::pervasive::unreached()
        },
    }
}

fn pass_table_row(p: Pass, e: &Element) -> (r: TResult)
    requires
        e@ is TableRow,
    ensures
        res_agrees(r, t_elem(p, e@)),
    decreases esize(e@), rank(e@), 2nat, 0nat,
{
    match e {
        Element::TableRow(tr) => {
            let cells = pass_vec(p, &tr.cells)?;
            Ok(
                Element::TableRow(
                    crate::ast::TableRow {
                        position: tr.position,
                        attributes: crate::ast::duplicate_attrs(&tr.attributes),
                        cells,
                    },
                ),
            )
        },
        _ => {
            proof {
                assert(false);
            }
            vstd::pervasive::unreached()
        },
    }
}

fn pass_table_cell(p: Pass, e: &Element) -> (r: TResult)
    requires
        e@ is TableCell,
    ensures
        res_agrees(r, t_elem(p, e@)),
    decreases esize(e@), rank(e@), 2nat, 0nat,
{
    match e {
        Element::TableCell(tc) => {
            let content = pass_vec(p, &tc.content)?;
            Ok(
                Element::TableCell(
                    crate::ast::TableCell {
                        position: tc.position,
                        header: tc.header,
                        attributes: crate::ast::duplicate_attrs(&tc.attributes),
                        content,
                    },
                ),
            )
        },
        _ => {
            proof {
                assert(false);
            }
            vstd::pervasive::unreached()
        },
    }
}

fn pass_html_tag(p: Pass, e: &Element) -> (r: TResult)
    requires
        e@ is HtmlTag,
    ensures
        res_agrees(r, t_elem(p, e@)),
    decreases esize(e@), rank(e@), 2nat, 0nat,
{
    match e {
        Element::HtmlTag(ht) => {
            let content = pass_vec(p, &ht.content)?;
            Ok(
                Element::HtmlTag(
                    crate::ast::HtmlTag {
                        position: ht.position,
                        name: ht.name.clone(),
                        attributes: crate::ast::duplicate_attrs(&ht.attributes),
                        content,
                    },
                ),
            )
        },
        _ => {
            proof {
                assert(false);
            }
            vstd::pervasive::unreached()
        },
    }
}

fn pass_gallery(p: Pass, e: &Element) -> (r: TResult)
    requires
        e@ is Gallery,
    ensures
        res_agrees(r, t_elem(p, e@)),
    decreases esize(e@), rank(e@), 2nat, 0nat,
{
    match e {
        Element::Gallery(g) => {
            let content = pass_vec(p, &g.content)?;
            Ok(
                Element::Gallery(
                    crate::ast::Gallery {
                        position: g.position,
                        attributes: crate::ast::duplicate_attrs(&g.attributes),
                        content,
                    },
                ),
            )
        },
        _ => {
            proof {
                assert(false);
            }
            vstd::pervasive::unreached()
        },
    }
}

/// Moves flat headings into a hierarchical structure based on their depth.
pub fn fold_headings_transformation(root: Element, _settings: &GeneralSettings) -> (r: TResult)
    ensures
        res_agrees(r, t_elem(Pass::FoldHeadings, root@)),
{
    pass_elem(Pass::FoldHeadings, &root)
}

/// Moves list items of higher depth into separate sub-lists.
pub fn fold_lists_transformation(root: Element, _settings: &GeneralSettings) -> (r: TResult)
    ensures
        res_agrees(r, t_elem(Pass::FoldLists, root@)),
{
    pass_elem(Pass::FoldLists, &root)
}

/// Transforms whitespace-only paragraphs to empty paragraphs.
pub fn whitespace_paragraphs_to_empty(root: Element, _settings: &GeneralSettings) -> (r: TResult)
    ensures
        res_agrees(r, t_elem(Pass::WhitespaceParagraphs, root@)),
{
    pass_elem(Pass::WhitespaceParagraphs, &root)
}

/// Reduces consecutive paragraphs into one, absorbing trailing text, where no
/// blank paragraph separates them.
pub fn collapse_paragraphs(root: Element, _settings: &GeneralSettings) -> (r: TResult)
    ensures
        res_agrees(r, t_elem(Pass::CollapseParagraphs, root@)),
{
    pass_elem(Pass::CollapseParagraphs, &root)
}

/// Collapses consecutive text tags into one, removing duplicate whitespace.
pub fn collapse_consecutive_text(root: Element, _settings: &GeneralSettings) -> (r: TResult)
    ensures
        res_agrees(r, t_elem(Pass::CollapseText, root@)),
{
    pass_elem(Pass::CollapseText, &root)
}

/// Enumerates anonymous template arguments as "1", "2", and so on.
pub fn enumerate_anon_args(root: Element, _settings: &GeneralSettings) -> (r: TResult)
    ensures
        res_agrees(r, t_elem(Pass::EnumerateAnonArgs, root@)),
{
    pass_elem(Pass::EnumerateAnonArgs, &root)
}

} // verus!
