//! Helper trait for read-only operations over the document tree.

use vstd::prelude::*;

use crate::ast::{
    elem_list_view, esize, lemma_elem_list_view, lemma_list_size_index, lemma_opts_size_index,
    lemma_opts_view, list_size, Element, ElementView,
};

verus! {

/// One recorded hook call during a traversal: the node or list it was given
/// and whether it asked to descend.
pub enum TraversalEvent<'a> {
    Node { node: &'a Element, descend: bool },
    List { list: &'a Vec<Element>, descend: bool },
}

/// `longer` begins with exactly `shorter`.
pub open spec fn extends<'a>(
    longer: Seq<TraversalEvent<'a>>,
    shorter: Seq<TraversalEvent<'a>>,
) -> bool {
    longer.len() >= shorter.len() && longer.take(shorter.len() as int) == shorter
}

pub broadcast proof fn lemma_extends_trans<'a>(
    a: Seq<TraversalEvent<'a>>,
    b: Seq<TraversalEvent<'a>>,
    c: Seq<TraversalEvent<'a>>,
)
    requires
        #[trigger] extends(c, b),
        #[trigger] extends(b, a),
    ensures
        extends(c, a),
{
    assert forall|i: int| 0 <= i < a.len() implies c.take(a.len() as int)[i] == a[i] by {
        assert(b.take(a.len() as int)[i] == a[i]);
        assert(c.take(b.len() as int)[i] == b[i]);
    }
    assert(c.take(a.len() as int) =~= a);
}

pub broadcast proof fn lemma_extends_index<'a>(
    a: Seq<TraversalEvent<'a>>,
    b: Seq<TraversalEvent<'a>>,
    i: int,
)
    requires
        #[trigger] extends(b, a),
        0 <= i < a.len(),
    ensures
        #[trigger] b[i] == a[i],
{
    assert(b.take(a.len() as int)[i] == a[i]);
}

pub broadcast proof fn lemma_extends_push<'a>(s: Seq<TraversalEvent<'a>>, e: TraversalEvent<'a>)
    ensures
        #[trigger] extends(s.push(e), s),
{
    assert(s.push(e).take(s.len() as int) =~= s);
}

pub broadcast proof fn lemma_extends_refl<'a>(s: Seq<TraversalEvent<'a>>)
    ensures
        #[trigger] extends(s, s),
{
    assert(s.take(s.len() as int) =~= s);
}

/// Each option list of an internal reference, as a sequence of elements.
pub open spec fn opts_seqs(s: Seq<Vec<Element>>) -> Seq<Seq<Element>> {
    s.map_values(|v: Vec<Element>| v@)
}

/// The child lists of a node, in declaration order: the lists a traversal
/// visits, each in one `run_vec` call, when the node hook asks to descend.
pub open spec fn child_lists(root: Element) -> Seq<Seq<Element>> {
    match root {
        Element::Document(e) => seq![e.content@],
        Element::Heading(e) => seq![e.caption@, e.content@],
        Element::Text(_) => Seq::empty(),
        Element::Formatted(e) => seq![e.content@],
        Element::Paragraph(e) => seq![e.content@],
        Element::Template(e) => seq![e.name@, e.content@],
        Element::TemplateArgument(e) => seq![e.value@],
        Element::InternalReference(e) => seq![e.target@] + opts_seqs(e.options@) + seq![
            e.caption@,
        ],
        Element::ExternalReference(e) => seq![e.caption@],
        Element::ListItem(e) => seq![e.content@],
        Element::List(e) => seq![e.content@],
        Element::Table(e) => seq![e.caption@, e.rows@],
        Element::TableRow(e) => seq![e.cells@],
        Element::TableCell(e) => seq![e.content@],
        Element::Comment(_) => Seq::empty(),
        Element::HtmlTag(e) => seq![e.content@],
        Element::Gallery(e) => seq![e.content@],
        Element::Error(_) => Seq::empty(),
    }
}

/// The number of events at the front of `tr` that form exactly one traversal
/// of `root`: the node hook's event for `root`, then, when it asked to
/// descend, one traversal of each child list in declaration order. `None`
/// when `tr` does not begin that way.
pub open spec fn node_trace_len<'a>(tr: Seq<TraversalEvent<'a>>, root: Element) -> Option<int>
    decreases tr.len(), 0int,
{
    if tr.len() == 0 {
        None
    } else {
        match tr[0] {
            TraversalEvent::Node { node, descend } => if *node == root {
                if descend {
                    match lists_trace_len(tr.drop_first(), child_lists(root)) {
                        Some(n) => Some(1 + n),
                        None => None,
                    }
                } else {
                    Some(1)
                }
            } else {
                None
            },
            TraversalEvent::List { .. } => None,
        }
    }
}

/// The number of events at the front of `tr` that form one traversal of each
/// list of `lists`, in order.
pub open spec fn lists_trace_len<'a>(
    tr: Seq<TraversalEvent<'a>>,
    lists: Seq<Seq<Element>>,
) -> Option<int>
    decreases tr.len(), 1int,
{
    if lists.len() == 0 {
        Some(0)
    } else {
        match list_trace_len(tr, lists.first()) {
            Some(n1) => if 1 <= n1 <= tr.len() {
                match lists_trace_len(tr.skip(n1), lists.drop_first()) {
                    Some(n2) => Some(n1 + n2),
                    None => None,
                }
            } else {
                None
            },
            None => None,
        }
    }
}

/// The number of events at the front of `tr` that form exactly one traversal
/// of the list `content`: the list hook's event for `content`, then, when it
/// asked to descend, one traversal of each element in order.
pub open spec fn list_trace_len<'a>(tr: Seq<TraversalEvent<'a>>, content: Seq<Element>) -> Option<
    int,
>
    decreases tr.len(), 0int,
{
    if tr.len() == 0 {
        None
    } else {
        match tr[0] {
            TraversalEvent::List { list, descend } => if list@ == content {
                if descend {
                    match nodes_trace_len(tr.drop_first(), content) {
                        Some(n) => Some(1 + n),
                        None => None,
                    }
                } else {
                    Some(1)
                }
            } else {
                None
            },
            TraversalEvent::Node { .. } => None,
        }
    }
}

/// The number of events at the front of `tr` that form one traversal of each
/// element of `elems`, in order.
pub open spec fn nodes_trace_len<'a>(tr: Seq<TraversalEvent<'a>>, elems: Seq<Element>) -> Option<
    int,
>
    decreases tr.len(), 1int,
{
    if elems.len() == 0 {
        Some(0)
    } else {
        match node_trace_len(tr, elems.first()) {
            Some(n1) => if 1 <= n1 <= tr.len() {
                match nodes_trace_len(tr.skip(n1), elems.drop_first()) {
                    Some(n2) => Some(n1 + n2),
                    None => None,
                }
            } else {
                None
            },
            None => None,
        }
    }
}

/// A node trace holds at least its node event and fits in `tr`.
pub proof fn lemma_node_trace_bound<'a>(tr: Seq<TraversalEvent<'a>>, root: Element, n: int)
    requires
        node_trace_len(tr, root) == Some(n),
    ensures
        1 <= n <= tr.len(),
    decreases tr.len(), 0int,
{
    match tr[0] {
        TraversalEvent::Node { node, descend } => {
            if descend {
                lemma_lists_trace_bound(tr.drop_first(), child_lists(root), n - 1);
            }
        },
        TraversalEvent::List { .. } => {},
    }
}

/// A trace of several lists fits in `tr`.
pub proof fn lemma_lists_trace_bound<'a>(
    tr: Seq<TraversalEvent<'a>>,
    lists: Seq<Seq<Element>>,
    n: int,
)
    requires
        lists_trace_len(tr, lists) == Some(n),
    ensures
        0 <= n <= tr.len(),
    decreases tr.len(), 1int,
{
    if lists.len() > 0 {
        let n1 = list_trace_len(tr, lists.first())->Some_0;
        lemma_lists_trace_bound(tr.skip(n1), lists.drop_first(), n - n1);
    }
}

/// A list trace holds at least its list event and fits in `tr`.
pub proof fn lemma_list_trace_bound<'a>(tr: Seq<TraversalEvent<'a>>, content: Seq<Element>, n: int)
    requires
        list_trace_len(tr, content) == Some(n),
    ensures
        1 <= n <= tr.len(),
    decreases tr.len(), 0int,
{
    match tr[0] {
        TraversalEvent::List { list, descend } => {
            if descend {
                lemma_nodes_trace_bound(tr.drop_first(), content, n - 1);
            }
        },
        TraversalEvent::Node { .. } => {},
    }
}

/// A trace of several nodes fits in `tr`.
pub proof fn lemma_nodes_trace_bound<'a>(tr: Seq<TraversalEvent<'a>>, elems: Seq<Element>, n: int)
    requires
        nodes_trace_len(tr, elems) == Some(n),
    ensures
        0 <= n <= tr.len(),
    decreases tr.len(), 1int,
{
    if elems.len() > 0 {
        let n1 = node_trace_len(tr, elems.first())->Some_0;
        lemma_nodes_trace_bound(tr.skip(n1), elems.drop_first(), n - n1);
    }
}

/// A node trace depends only on the events it consumes: it survives any
/// extension or truncation that keeps them.
pub proof fn lemma_node_trace_ext<'a>(
    tr: Seq<TraversalEvent<'a>>,
    tr2: Seq<TraversalEvent<'a>>,
    root: Element,
    n: int,
)
    requires
        node_trace_len(tr, root) == Some(n),
        n <= tr2.len(),
        tr2.take(n) == tr.take(n),
    ensures
        node_trace_len(tr2, root) == Some(n),
    decreases tr.len(), 0int,
{
    lemma_node_trace_bound(tr, root, n);
    assert(tr2[0] == tr2.take(n)[0]);
    assert(tr[0] == tr.take(n)[0]);
    match tr[0] {
        TraversalEvent::Node { node, descend } => {
            if descend {
                assert(tr2.drop_first().take(n - 1) =~= tr.drop_first().take(n - 1)) by {
                    assert forall|i: int| 0 <= i < n - 1 implies tr2.drop_first()[i]
                        == tr.drop_first()[i] by {
                        assert(tr2.take(n)[i + 1] == tr2[i + 1]);
                        assert(tr.take(n)[i + 1] == tr[i + 1]);
                        assert(tr2.drop_first()[i] == tr2[i + 1]);
                        assert(tr.drop_first()[i] == tr[i + 1]);
                    }
                }
                lemma_lists_trace_ext(tr.drop_first(), tr2.drop_first(), child_lists(root), n - 1);
            }
        },
        TraversalEvent::List { .. } => {},
    }
}

/// A trace of several lists depends only on the events it consumes.
pub proof fn lemma_lists_trace_ext<'a>(
    tr: Seq<TraversalEvent<'a>>,
    tr2: Seq<TraversalEvent<'a>>,
    lists: Seq<Seq<Element>>,
    n: int,
)
    requires
        lists_trace_len(tr, lists) == Some(n),
        n <= tr2.len(),
        tr2.take(n) == tr.take(n),
    ensures
        lists_trace_len(tr2, lists) == Some(n),
    decreases tr.len(), 1int,
{
    if lists.len() > 0 {
        let n1 = list_trace_len(tr, lists.first())->Some_0;
        let n2 = n - n1;
        lemma_list_trace_bound(tr, lists.first(), n1);
        lemma_lists_trace_bound(tr.skip(n1), lists.drop_first(), n2);
        assert(tr2.take(n1) =~= tr.take(n1)) by {
            assert forall|i: int| 0 <= i < n1 implies tr2[i] == tr[i] by {
                assert(tr2.take(n)[i] == tr2[i]);
                assert(tr.take(n)[i] == tr[i]);
            }
        }
        lemma_list_trace_ext(tr, tr2, lists.first(), n1);
        assert(tr2.skip(n1).take(n2) =~= tr.skip(n1).take(n2)) by {
            assert forall|i: int| 0 <= i < n2 implies tr2.skip(n1)[i] == tr.skip(n1)[i] by {
                assert(tr2.take(n)[n1 + i] == tr2[n1 + i]);
                assert(tr.take(n)[n1 + i] == tr[n1 + i]);
                assert(tr2.skip(n1)[i] == tr2[n1 + i]);
                assert(tr.skip(n1)[i] == tr[n1 + i]);
            }
        }
        lemma_lists_trace_ext(tr.skip(n1), tr2.skip(n1), lists.drop_first(), n2);
    }
}

/// A list trace depends only on the events it consumes.
pub proof fn lemma_list_trace_ext<'a>(
    tr: Seq<TraversalEvent<'a>>,
    tr2: Seq<TraversalEvent<'a>>,
    content: Seq<Element>,
    n: int,
)
    requires
        list_trace_len(tr, content) == Some(n),
        n <= tr2.len(),
        tr2.take(n) == tr.take(n),
    ensures
        list_trace_len(tr2, content) == Some(n),
    decreases tr.len(), 0int,
{
    lemma_list_trace_bound(tr, content, n);
    assert(tr2[0] == tr2.take(n)[0]);
    assert(tr[0] == tr.take(n)[0]);
    match tr[0] {
        TraversalEvent::List { list, descend } => {
            if descend {
                assert(tr2.drop_first().take(n - 1) =~= tr.drop_first().take(n - 1)) by {
                    assert forall|i: int| 0 <= i < n - 1 implies tr2.drop_first()[i]
                        == tr.drop_first()[i] by {
                        assert(tr2.take(n)[i + 1] == tr2[i + 1]);
                        assert(tr.take(n)[i + 1] == tr[i + 1]);
                        assert(tr2.drop_first()[i] == tr2[i + 1]);
                        assert(tr.drop_first()[i] == tr[i + 1]);
                    }
                }
                lemma_nodes_trace_ext(tr.drop_first(), tr2.drop_first(), content, n - 1);
            }
        },
        TraversalEvent::Node { .. } => {},
    }
}

/// A trace of several nodes depends only on the events it consumes.
pub proof fn lemma_nodes_trace_ext<'a>(
    tr: Seq<TraversalEvent<'a>>,
    tr2: Seq<TraversalEvent<'a>>,
    elems: Seq<Element>,
    n: int,
)
    requires
        nodes_trace_len(tr, elems) == Some(n),
        n <= tr2.len(),
        tr2.take(n) == tr.take(n),
    ensures
        nodes_trace_len(tr2, elems) == Some(n),
    decreases tr.len(), 1int,
{
    if elems.len() > 0 {
        let n1 = node_trace_len(tr, elems.first())->Some_0;
        let n2 = n - n1;
        lemma_node_trace_bound(tr, elems.first(), n1);
        lemma_nodes_trace_bound(tr.skip(n1), elems.drop_first(), n2);
        assert(tr2.take(n1) =~= tr.take(n1)) by {
            assert forall|i: int| 0 <= i < n1 implies tr2[i] == tr[i] by {
                assert(tr2.take(n)[i] == tr2[i]);
                assert(tr.take(n)[i] == tr[i]);
            }
        }
        lemma_node_trace_ext(tr, tr2, elems.first(), n1);
        assert(tr2.skip(n1).take(n2) =~= tr.skip(n1).take(n2)) by {
            assert forall|i: int| 0 <= i < n2 implies tr2.skip(n1)[i] == tr.skip(n1)[i] by {
                assert(tr2.take(n)[n1 + i] == tr2[n1 + i]);
                assert(tr.take(n)[n1 + i] == tr[n1 + i]);
                assert(tr2.skip(n1)[i] == tr2[n1 + i]);
                assert(tr.skip(n1)[i] == tr[n1 + i]);
            }
        }
        lemma_nodes_trace_ext(tr.skip(n1), tr2.skip(n1), elems.drop_first(), n2);
    }
}

/// A complete trace of the lists `ls` followed by a complete trace of the
/// list `l` is a complete trace of `ls.push(l)`.
pub proof fn lemma_lists_trace_snoc<'a>(
    d: Seq<TraversalEvent<'a>>,
    ls: Seq<Seq<Element>>,
    tr: Seq<TraversalEvent<'a>>,
    l: Seq<Element>,
)
    requires
        lists_trace_len(d, ls) == Some(d.len() as int),
        list_trace_len(tr, l) == Some(tr.len() as int),
    ensures
        lists_trace_len(d + tr, ls.push(l)) == Some(d.len() as int + tr.len() as int),
    decreases ls.len(),
{
    lemma_list_trace_bound(tr, l, tr.len() as int);
    if ls.len() == 0 {
        assert(d =~= Seq::<TraversalEvent<'a>>::empty());
        assert(d + tr =~= tr);
        assert(ls.push(l).first() == l);
        assert(ls.push(l).drop_first() =~= Seq::<Seq<Element>>::empty());
        assert(tr.skip(tr.len() as int) =~= Seq::<TraversalEvent<'a>>::empty());
        assert(lists_trace_len(tr.skip(tr.len() as int), ls.push(l).drop_first()) == Some(0int));
    } else {
        let n1 = list_trace_len(d, ls.first())->Some_0;
        let n2 = d.len() - n1;
        lemma_list_trace_bound(d, ls.first(), n1);
        lemma_lists_trace_bound(d.skip(n1), ls.drop_first(), n2);
        assert((d + tr).take(n1) =~= d.take(n1));
        lemma_list_trace_ext(d, d + tr, ls.first(), n1);
        assert((d + tr).skip(n1) =~= d.skip(n1) + tr);
        assert(ls.push(l).first() == ls.first());
        assert(ls.push(l).drop_first() =~= ls.drop_first().push(l));
        lemma_lists_trace_snoc(d.skip(n1), ls.drop_first(), tr, l);
    }
}

/// A complete trace of the elements `elems` followed by a complete trace of
/// the element `e` is a complete trace of `elems.push(e)`.
pub proof fn lemma_nodes_trace_snoc<'a>(
    d: Seq<TraversalEvent<'a>>,
    elems: Seq<Element>,
    tr: Seq<TraversalEvent<'a>>,
    e: Element,
)
    requires
        nodes_trace_len(d, elems) == Some(d.len() as int),
        node_trace_len(tr, e) == Some(tr.len() as int),
    ensures
        nodes_trace_len(d + tr, elems.push(e)) == Some(d.len() as int + tr.len() as int),
    decreases elems.len(),
{
    lemma_node_trace_bound(tr, e, tr.len() as int);
    if elems.len() == 0 {
        assert(d =~= Seq::<TraversalEvent<'a>>::empty());
        assert(d + tr =~= tr);
        assert(elems.push(e).first() == e);
        assert(elems.push(e).drop_first() =~= Seq::<Element>::empty());
        assert(tr.skip(tr.len() as int) =~= Seq::<TraversalEvent<'a>>::empty());
        assert(nodes_trace_len(tr.skip(tr.len() as int), elems.push(e).drop_first()) == Some(
            0int,
        ));
    } else {
        let n1 = node_trace_len(d, elems.first())->Some_0;
        let n2 = d.len() - n1;
        lemma_node_trace_bound(d, elems.first(), n1);
        lemma_nodes_trace_bound(d.skip(n1), elems.drop_first(), n2);
        assert((d + tr).take(n1) =~= d.take(n1));
        lemma_node_trace_ext(d, d + tr, elems.first(), n1);
        assert((d + tr).skip(n1) =~= d.skip(n1) + tr);
        assert(elems.push(e).first() == elems.first());
        assert(elems.push(e).drop_first() =~= elems.drop_first().push(e));
        lemma_nodes_trace_snoc(d.skip(n1), elems.drop_first(), tr, e);
    }
}

/// What two chained extensions appended, taken together.
pub proof fn lemma_events_diff_chain<'a>(
    a: Seq<TraversalEvent<'a>>,
    b: Seq<TraversalEvent<'a>>,
    c: Seq<TraversalEvent<'a>>,
)
    requires
        extends(b, a),
        extends(c, b),
    ensures
        c.skip(a.len() as int) == b.skip(a.len() as int) + c.skip(b.len() as int),
{
    assert forall|i: int|
        0 <= i < c.len() - a.len() implies c.skip(a.len() as int)[i] == (b.skip(a.len() as int)
        + c.skip(b.len() as int))[i] by {
        if i < b.len() - a.len() {
            lemma_extends_index(b, c, a.len() + i);
        }
    }
    assert(c.skip(a.len() as int) =~= b.skip(a.len() as int) + c.skip(b.len() as int));
}

/// Chains one more complete list trace onto the events appended so far.
pub proof fn lemma_lists_trace_step<'a>(
    ev1: Seq<TraversalEvent<'a>>,
    eva: Seq<TraversalEvent<'a>>,
    evb: Seq<TraversalEvent<'a>>,
    ls: Seq<Seq<Element>>,
    l: Seq<Element>,
)
    requires
        extends(eva, ev1),
        extends(evb, eva),
        lists_trace_len(eva.skip(ev1.len() as int), ls) == Some(
            eva.len() as int - ev1.len() as int,
        ),
        list_trace_len(evb.skip(eva.len() as int), l) == Some(evb.len() as int - eva.len() as int),
    ensures
        extends(evb, ev1),
        lists_trace_len(evb.skip(ev1.len() as int), ls.push(l)) == Some(
            evb.len() as int - ev1.len() as int,
        ),
{
    lemma_extends_trans(ev1, eva, evb);
    lemma_events_diff_chain(ev1, eva, evb);
    lemma_lists_trace_snoc(eva.skip(ev1.len() as int), ls, evb.skip(eva.len() as int), l);
}

/// Chains one more complete node trace onto the events appended so far.
pub proof fn lemma_nodes_trace_step<'a>(
    ev1: Seq<TraversalEvent<'a>>,
    eva: Seq<TraversalEvent<'a>>,
    evb: Seq<TraversalEvent<'a>>,
    elems: Seq<Element>,
    e: Element,
)
    requires
        extends(eva, ev1),
        extends(evb, eva),
        nodes_trace_len(eva.skip(ev1.len() as int), elems) == Some(
            eva.len() as int - ev1.len() as int,
        ),
        node_trace_len(evb.skip(eva.len() as int), e) == Some(evb.len() as int - eva.len() as int),
    ensures
        extends(evb, ev1),
        nodes_trace_len(evb.skip(ev1.len() as int), elems.push(e)) == Some(
            evb.len() as int - ev1.len() as int,
        ),
{
    lemma_extends_trans(ev1, eva, evb);
    lemma_events_diff_chain(ev1, eva, evb);
    lemma_nodes_trace_snoc(eva.skip(ev1.len() as int), elems, evb.skip(eva.len() as int), e);
}

/// A complete trace of one list is a complete trace of the singleton list
/// sequence.
pub proof fn lemma_lists_trace_one<'a>(
    ev1: Seq<TraversalEvent<'a>>,
    evb: Seq<TraversalEvent<'a>>,
    l: Seq<Element>,
)
    requires
        extends(evb, ev1),
        list_trace_len(evb.skip(ev1.len() as int), l) == Some(evb.len() as int - ev1.len() as int),
    ensures
        lists_trace_len(evb.skip(ev1.len() as int), seq![l]) == Some(
            evb.len() as int - ev1.len() as int,
        ),
{
    lemma_extends_refl(ev1);
    assert(ev1.skip(ev1.len() as int) =~= Seq::<TraversalEvent<'a>>::empty());
    assert(lists_trace_len(ev1.skip(ev1.len() as int), Seq::<Seq<Element>>::empty()) == Some(
        0int,
    ));
    lemma_lists_trace_step(ev1, ev1, evb, Seq::empty(), l);
    assert(Seq::<Seq<Element>>::empty().push(l) =~= seq![l]);
}

/// Implements a traversion over a tree of `Element`.
///
/// Implementors supply the hooks `work` and `work_vec` and the ancestor-path
/// stack; `run` and `run_vec` drive the recursion, pushing each node on the
/// path before visiting its children and popping it after, and pruning a
/// node's children when a hook answers `false`. Each hook call appends one
/// event to the implementor's event model; the drivers promise that the
/// events they append form exactly one trace of the tree they were given
/// (`node_trace_len`, `list_trace_len`), which pins every hook call and its
/// order.
pub trait Traversion<'a, S: Copy>: Sized {
    /// The current ancestor path, outermost first. Implementors verified
    /// with this library define it as the view of their path stack.
    open spec fn path_model(&self) -> Seq<&'a Element> {
        Seq::empty()
    }

    /// The hook calls so far, oldest first. Implementors verified with this
    /// library define it over their own state, typically a ghost log.
    open spec fn events(&self) -> Seq<TraversalEvent<'a>> {
        Seq::empty()
    }

    /// Push to the traversion path.
    fn path_push(&mut self, root: &'a Element)
        ensures
            final(self).path_model() == old(self).path_model().push(root),
            final(self).events() == old(self).events(),
    ;

    /// Pop from the traversion path.
    fn path_pop(&mut self) -> (r: Option<&'a Element>)
        ensures
            old(self).path_model().len() == 0 ==> final(self).path_model() == old(
                self,
            ).path_model() && r is None,
            old(self).path_model().len() > 0 ==> final(self).path_model() == old(
                self,
            ).path_model().drop_last() && r == Some(old(self).path_model().last()),
            final(self).events() == old(self).events(),
    ;

    /// Get the traversion path.
    fn get_path(&self) -> (r: &Vec<&'a Element>)
        ensures
            r@ == self.path_model(),
    ;

    /// Hook for handling a single node. If the result is `false`, handling is
    /// complete and the children of this node are not considered. Hooks leave
    /// the path alone and record their call.
    fn work(&mut self, root: &'a Element, settings: S) -> (r: bool)
        ensures
            final(self).path_model() == old(self).path_model(),
            final(self).events() == old(self).events().push(
                TraversalEvent::Node { node: root, descend: r },
            ),
    ;

    /// Hook for handling a list of nodes. If the result is `false`, the
    /// children of the list's elements are not considered.
    fn work_vec(&mut self, content: &'a Vec<Element>, settings: S) -> (r: bool)
        ensures
            final(self).path_model() == old(self).path_model(),
            final(self).events() == old(self).events().push(
                TraversalEvent::List { list: content, descend: r },
            ),
    ;
}

/// Runs a traversion for a list of elements: the list hook first, then each
/// element in order, unless the hook prunes the list. The appended events
/// are exactly one trace of `content`: the list hook's event, then, when it
/// asked to descend, one complete traversal of each element in order, and
/// nothing else. The path comes back as it was; `run_vec` itself neither
/// pushes nor pops it.
pub fn run_vec<'a, S: Copy, T: Traversion<'a, S>>(
    t: &mut T,
    content: &'a Vec<Element>,
    settings: S,
)
    ensures
        final(t).path_model() == old(t).path_model(),
        extends(final(t).events(), old(t).events()),
        final(t).events().len() > old(t).events().len(),
        final(t).events()[old(t).events().len() as int] matches TraversalEvent::List {
            list,
            ..
        } && list == content,
        list_trace_len(final(t).events().skip(old(t).events().len() as int), content@) == Some(
            final(t).events().len() as int - old(t).events().len() as int,
        ),
    decreases list_size(elem_list_view(content@)), 1nat,
{
    proof {
        broadcast use lemma_extends_trans, lemma_extends_index, lemma_extends_push;

    }
    let ghost ev0 = t.events();
    if !t.work_vec(content, settings) {
        proof {
            lemma_extends_push(ev0, TraversalEvent::List { list: content, descend: false });
            assert(t.events().skip(ev0.len() as int) =~= seq![
                TraversalEvent::List { list: content, descend: false },
            ]);
            assert(list_trace_len(t.events().skip(ev0.len() as int), content@) == Some(1int));
        }
        return ;
    }
    let ghost ev1 = t.events();
    proof {
        lemma_extends_refl(ev1);
        assert(ev1.skip(ev1.len() as int) =~= Seq::<TraversalEvent>::empty());
        assert(content@.take(0) =~= Seq::<Element>::empty());
        assert(nodes_trace_len(ev1.skip(ev1.len() as int), content@.take(0)) == Some(0int));
    }
    let n = content.len();
    let mut i: usize = 0;
    while i < n
        invariant
            0 <= i <= n,
            n == content@.len(),
            t.path_model() == old(t).path_model(),
            ev0 == old(t).events(),
            ev1 == ev0.push(
                TraversalEvent::List { list: content, descend: true },
            ),
            extends(t.events(), ev1),
            nodes_trace_len(t.events().skip(ev1.len() as int), content@.take(i as int)) == Some(
                t.events().len() as int - ev1.len() as int,
            ),
        decreases n - i,
    {
        proof {
            broadcast use lemma_extends_trans, lemma_extends_index, lemma_extends_push;

            lemma_elem_list_view(content@);
            lemma_list_size_index(elem_list_view(content@), i as int);
        }
        let ghost eva = t.events();
        run(t, &content[i], settings);
        proof {
            lemma_nodes_trace_step(ev1, eva, t.events(), content@.take(i as int), content@[i as int]);
            assert(content@.take(i as int).push(content@[i as int]) =~= content@.take(i as int + 1));
        }
        i = i + 1;
    }
    proof {
        lemma_extends_push(ev0, TraversalEvent::List { list: content, descend: true });
        lemma_extends_trans(ev0, ev1, t.events());
        assert(t.events()[ev0.len() as int] == ev1[ev0.len() as int]);
        assert(content@.take(n as int) =~= content@);
        let diff = t.events().skip(ev0.len() as int);
        let d1 = t.events().skip(ev1.len() as int);
        assert(diff =~= seq![TraversalEvent::List { list: content, descend: true }] + d1) by {
            assert forall|k: int| 0 <= k < diff.len() implies diff[k] == (seq![
                TraversalEvent::List { list: content, descend: true },
            ] + d1)[k] by {}
        }
        assert(diff.drop_first() =~= d1);
        assert(nodes_trace_len(d1, content@) == Some(d1.len() as int));
        assert(list_trace_len(diff, content@) == Some(diff.len() as int));
    }
}

/// Runs a traversion for an element: pushes it on the path, calls the node
/// hook, visits the child lists in declaration order unless the hook prunes
/// them, and pops the path again. The appended events are exactly one trace
/// of `root`: the node hook's event, then, when it asked to descend, one
/// complete traversal of each child list in declaration order, and nothing
/// else; when it asked to prune, the node event alone. The path comes back
/// as it was.
#[verifier::rlimit(100)]
pub fn run<'a, S: Copy, T: Traversion<'a, S>>(t: &mut T, root: &'a Element, settings: S)
    ensures
        final(t).path_model() == old(t).path_model(),
        extends(final(t).events(), old(t).events()),
        final(t).events().len() > old(t).events().len(),
        final(t).events()[old(t).events().len() as int] matches TraversalEvent::Node {
            node,
            ..
        } && node == root,
        node_trace_len(final(t).events().skip(old(t).events().len() as int), *root) == Some(
            final(t).events().len() as int - old(t).events().len() as int,
        ),
    decreases esize(root@), 0nat,
{
    proof {
        broadcast use lemma_extends_trans, lemma_extends_index, lemma_extends_push;

    }
    let ghost ev0 = t.events();
    t.path_push(root);
    if !t.work(root, settings) {
        t.path_pop();
        proof {
            lemma_extends_push(ev0, TraversalEvent::Node { node: root, descend: false });
            assert(t.events().skip(ev0.len() as int) =~= seq![
                TraversalEvent::Node { node: root, descend: false },
            ]);
            assert(node_trace_len(t.events().skip(ev0.len() as int), *root) == Some(1int));
        }
        return ;
    }
    let ghost ev1 = t.events();
    proof {
        lemma_extends_refl(ev1);
        assert(ev1.skip(ev1.len() as int) =~= Seq::<TraversalEvent>::empty());
    }
    match root {
        Element::Document(e) => {
            run_vec(t, &e.content, settings);
            proof {
                lemma_lists_trace_one(ev1, t.events(), e.content@);
                assert(child_lists(*root) =~= seq![e.content@]);
            }
        },
        Element::Formatted(e) => {
            run_vec(t, &e.content, settings);
            proof {
                lemma_lists_trace_one(ev1, t.events(), e.content@);
                assert(child_lists(*root) =~= seq![e.content@]);
            }
        },
        Element::Paragraph(e) => {
            run_vec(t, &e.content, settings);
            proof {
                lemma_lists_trace_one(ev1, t.events(), e.content@);
                assert(child_lists(*root) =~= seq![e.content@]);
            }
        },
        Element::ListItem(e) => {
            run_vec(t, &e.content, settings);
            proof {
                lemma_lists_trace_one(ev1, t.events(), e.content@);
                assert(child_lists(*root) =~= seq![e.content@]);
            }
        },
        Element::List(e) => {
            run_vec(t, &e.content, settings);
            proof {
                lemma_lists_trace_one(ev1, t.events(), e.content@);
                assert(child_lists(*root) =~= seq![e.content@]);
            }
        },
        Element::TableCell(e) => {
            run_vec(t, &e.content, settings);
            proof {
                lemma_lists_trace_one(ev1, t.events(), e.content@);
                assert(child_lists(*root) =~= seq![e.content@]);
            }
        },
        Element::HtmlTag(e) => {
            run_vec(t, &e.content, settings);
            proof {
                lemma_lists_trace_one(ev1, t.events(), e.content@);
                assert(child_lists(*root) =~= seq![e.content@]);
            }
        },
        Element::Gallery(e) => {
            run_vec(t, &e.content, settings);
            proof {
                lemma_lists_trace_one(ev1, t.events(), e.content@);
                assert(child_lists(*root) =~= seq![e.content@]);
            }
        },
        Element::TemplateArgument(e) => {
            run_vec(t, &e.value, settings);
            proof {
                lemma_lists_trace_one(ev1, t.events(), e.value@);
                assert(child_lists(*root) =~= seq![e.value@]);
            }
        },
        Element::ExternalReference(e) => {
            run_vec(t, &e.caption, settings);
            proof {
                lemma_lists_trace_one(ev1, t.events(), e.caption@);
                assert(child_lists(*root) =~= seq![e.caption@]);
            }
        },
        Element::Heading(e) => {
            run_vec(t, &e.caption, settings);
            let ghost eva = t.events();
            run_vec(t, &e.content, settings);
            proof {
                lemma_lists_trace_one(ev1, eva, e.caption@);
                lemma_lists_trace_step(ev1, eva, t.events(), seq![e.caption@], e.content@);
                assert(child_lists(*root) =~= seq![e.caption@].push(e.content@));
            }
        },
        Element::Template(e) => {
            run_vec(t, &e.name, settings);
            let ghost eva = t.events();
            run_vec(t, &e.content, settings);
            proof {
                lemma_lists_trace_one(ev1, eva, e.name@);
                lemma_lists_trace_step(ev1, eva, t.events(), seq![e.name@], e.content@);
                assert(child_lists(*root) =~= seq![e.name@].push(e.content@));
            }
        },
        Element::Table(e) => {
            run_vec(t, &e.caption, settings);
            let ghost eva = t.events();
            run_vec(t, &e.rows, settings);
            proof {
                lemma_lists_trace_one(ev1, eva, e.caption@);
                lemma_lists_trace_step(ev1, eva, t.events(), seq![e.caption@], e.rows@);
                assert(child_lists(*root) =~= seq![e.caption@].push(e.rows@));
            }
        },
        Element::TableRow(e) => {
            run_vec(t, &e.cells, settings);
            proof {
                lemma_lists_trace_one(ev1, t.events(), e.cells@);
                assert(child_lists(*root) =~= seq![e.cells@]);
            }
        },
        Element::InternalReference(e) => {
            run_vec(t, &e.target, settings);
            proof {
                lemma_lists_trace_one(ev1, t.events(), e.target@);
                lemma_opts_view(e.options@);
                assert forall|k: int| 0 <= k < e.options@.len() implies list_size(
                    elem_list_view(#[trigger] e.options@[k]@),
                ) < esize(root@) by {
                    lemma_opts_size_index(crate::ast::opts_view(e.options@), k);
                }
                assert(opts_seqs(e.options@.take(0)) =~= Seq::<Seq<Element>>::empty());
                assert(seq![e.target@] + opts_seqs(e.options@.take(0)) =~= seq![e.target@]);
            }
            let n = e.options.len();
            let mut i: usize = 0;
            while i < n
                invariant
                    0 <= i <= n,
                    n == e.options@.len(),
                    t.path_model() == old(t).path_model().push(root),
                    opts_size_bound(root@, e.options@),
                    ev1 == ev0.push(TraversalEvent::Node { node: root, descend: true }),
                    extends(t.events(), ev1),
                    lists_trace_len(
                        t.events().skip(ev1.len() as int),
                        seq![e.target@] + opts_seqs(e.options@.take(i as int)),
                    ) == Some(t.events().len() as int - ev1.len() as int),
                decreases n - i,
            {
                proof {
                    broadcast use lemma_extends_trans, lemma_extends_index, lemma_extends_push;

                }
                let ghost eva = t.events();
                run_vec(t, &e.options[i], settings);
                proof {
                    lemma_lists_trace_step(
                        ev1,
                        eva,
                        t.events(),
                        seq![e.target@] + opts_seqs(e.options@.take(i as int)),
                        e.options@[i as int]@,
                    );
                    assert((seq![e.target@] + opts_seqs(e.options@.take(i as int))).push(
                        e.options@[i as int]@,
                    ) =~= seq![e.target@] + opts_seqs(e.options@.take(i as int + 1))) by {
                        assert(opts_seqs(e.options@.take(i as int + 1)).len() == i as int + 1);
                        assert forall|k: int| 0 <= k < i as int + 1 implies opts_seqs(
                            e.options@.take(i as int + 1),
                        )[k] == e.options@[k]@ by {}
                        assert forall|k: int| 0 <= k < i as int implies opts_seqs(
                            e.options@.take(i as int),
                        )[k] == e.options@[k]@ by {}
                    }
                }
                i = i + 1;
            }
            let ghost eva = t.events();
            run_vec(t, &e.caption, settings);
            proof {
                assert(e.options@.take(n as int) =~= e.options@);
                lemma_lists_trace_step(
                    ev1,
                    eva,
                    t.events(),
                    seq![e.target@] + opts_seqs(e.options@),
                    e.caption@,
                );
                assert(child_lists(*root) =~= (seq![e.target@] + opts_seqs(e.options@)).push(
                    e.caption@,
                ));
            }
        },
        Element::Text(_) => {
            proof {
                assert(child_lists(*root) =~= Seq::<Seq<Element>>::empty());
                assert(lists_trace_len(t.events().skip(ev1.len() as int), child_lists(*root))
                    == Some(0int));
            }
        },
        Element::Comment(_) => {
            proof {
                assert(child_lists(*root) =~= Seq::<Seq<Element>>::empty());
                assert(lists_trace_len(t.events().skip(ev1.len() as int), child_lists(*root))
                    == Some(0int));
            }
        },
        Element::Error(_) => {
            proof {
                assert(child_lists(*root) =~= Seq::<Seq<Element>>::empty());
                assert(lists_trace_len(t.events().skip(ev1.len() as int), child_lists(*root))
                    == Some(0int));
            }
        },
    }
    proof {
        assert(lists_trace_len(t.events().skip(ev1.len() as int), child_lists(*root)) == Some(
            t.events().len() as int - ev1.len() as int,
        ));
    }
    t.path_pop();
    proof {
        lemma_extends_push(ev0, TraversalEvent::Node { node: root, descend: true });
        lemma_extends_trans(ev0, ev1, t.events());
        assert(t.events()[ev0.len() as int] == ev1[ev0.len() as int]);
        let diff = t.events().skip(ev0.len() as int);
        let d1 = t.events().skip(ev1.len() as int);
        assert(diff =~= seq![TraversalEvent::Node { node: root, descend: true }] + d1) by {
            assert forall|k: int| 0 <= k < diff.len() implies diff[k] == (seq![
                TraversalEvent::Node { node: root, descend: true },
            ] + d1)[k] by {}
        }
        assert(diff.drop_first() =~= d1);
        assert(node_trace_len(diff, *root) == Some(diff.len() as int));
    }
}

/// Every option list of an internal reference stays below the node itself in
/// the size order.
pub open spec fn opts_size_bound(v: ElementView, options: Seq<Vec<Element>>) -> bool {
    forall|i: int|
        0 <= i < options.len() ==> list_size(elem_list_view(#[trigger] options[i]@)) < esize(v)
}

} // verus!
