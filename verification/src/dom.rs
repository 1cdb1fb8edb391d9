//! Parsed HTML documents: the tree that the scraper builds, held as a preorder arena whose
//! shape is proved, and the queries that the selectors run against it.

use vstd::prelude::*;
use vstd::string::*;
use crate::selector::{
    steps_view, CssSelector, Extraction, ExtractionView, PredicateView, StepView, XpathAxis,
    XpathPredicate, XpathStep, preds_view,
};
use crate::text::{chars_of, is_whitespace, lemma_trim_shape, string_of_range, trim, trim_range, Trim};

verus! {

#[verifier::external_type_specification]
#[verifier::external_body]
pub struct ExHtml(scraper::Html);

#[verifier::external_type_specification]
#[verifier::external_body]
pub struct ExNodeId(ego_tree::NodeId);

/// What determines a parsed tree: the source text and whether it was parsed as a fragment.
pub struct DocView {
    pub source: Seq<char>,
    pub fragment: bool,
}

/// The open (`true`) and close (`false`) edges of a preorder walk of the parsed tree from its
/// root, by node id.
pub uninterp spec fn traversal_of(d: DocView) -> Seq<(ego_tree::NodeId, bool)>;

/// Whether the node with this id is an element.
pub uninterp spec fn is_element_node(d: DocView, id: ego_tree::NodeId) -> bool;

/// The local name of the element with this id.
pub uninterp spec fn element_name_of(d: DocView, id: ego_tree::NodeId) -> Option<Seq<char>>;

/// The value of the element's attribute `name` (without namespace).
pub uninterp spec fn attribute_of(d: DocView, id: ego_tree::NodeId, name: Seq<char>) -> Option<Seq<char>>;

/// The texts of the element's descendant text nodes, in document order.
pub uninterp spec fn texts_of(d: DocView, id: ego_tree::NodeId) -> Option<Seq<Seq<char>>>;

/// The serialized HTML of the element's children.
pub uninterp spec fn inner_html_of(d: DocView, id: ego_tree::NodeId) -> Option<Seq<char>>;

/// The serialized HTML of the element itself.
pub uninterp spec fn outer_html_of(d: DocView, id: ego_tree::NodeId) -> Option<Seq<char>>;

/// The ids of the elements that a CSS selector matches, in the order the scraper yields them.
pub uninterp spec fn css_select_of(d: DocView, selector: Seq<char>) -> Seq<ego_tree::NodeId>;

/// A parsed HTML tree together with the text it was parsed from.
///
/// Its fields are private and it is only made by [`HtmlSource::document`] and
/// [`HtmlSource::fragment`], so `html` is always the parse of `source`; the trusted queries
/// below rely on that.
pub struct HtmlSource {
    html: scraper::Html,
    source: Ghost<Seq<char>>,
    fragment: Ghost<bool>,
}

impl View for HtmlSource {
    type V = DocView;

    closed spec fn view(&self) -> DocView {
        DocView { source: self.source@, fragment: self.fragment@ }
    }
}

/// Trusted: `scraper::Html::parse_document`. Nothing is claimed of the tree here; what is
/// read from it is named by the queries below.
#[verifier::external_body]
fn parse_document_html(source: &str) -> scraper::Html {
    scraper::Html::parse_document(source)
}

/// Trusted: `scraper::Html::parse_fragment`, as above.
#[verifier::external_body]
fn parse_fragment_html(source: &str) -> scraper::Html {
    scraper::Html::parse_fragment(source)
}

impl HtmlSource {
    /// Parses `source` as a whole document.
    pub fn document(source: &str) -> (r: HtmlSource)
        ensures
            r@ == (DocView { source: source@, fragment: false }),
    {
        HtmlSource { html: parse_document_html(source), source: Ghost(source@), fragment: Ghost(false) }
    }

    /// Parses `source` as a fragment.
    pub fn fragment(source: &str) -> (r: HtmlSource)
        ensures
            r@ == (DocView { source: source@, fragment: true }),
    {
        HtmlSource { html: parse_fragment_html(source), source: Ghost(source@), fragment: Ghost(true) }
    }
}

/// The edges of a preorder walk of the tree from its root.
///
/// Trusted: `ego_tree::NodeRef::traverse` from `tree.root()`, each edge taken as the node id
/// and whether it opens; the contract names the result.
#[verifier::external_body]
fn traversal(doc: &HtmlSource) -> (r: Vec<(ego_tree::NodeId, bool)>)
    ensures
        r@ == traversal_of(doc@),
{
    doc.html.tree.root().traverse().map(|e| match e {
        ego_tree::iter::Edge::Open(n) => (n.id(), true),
        ego_tree::iter::Edge::Close(n) => (n.id(), false),
    }).collect()
}

/// Trusted: `scraper::ElementRef::wrap` on the node with this id; names whether it is an
/// element.
#[verifier::external_body]
fn node_is_element(doc: &HtmlSource, id: ego_tree::NodeId) -> (r: bool)
    ensures
        r == is_element_node(doc@, id),
{
    doc.html.tree.get(id).and_then(scraper::ElementRef::wrap).is_some()
}

/// Trusted: `scraper::node::Element::name` of the element with this id.
#[verifier::external_body]
fn element_name(doc: &HtmlSource, id: ego_tree::NodeId) -> (r: Option<String>)
    ensures
        match r {
            Some(s) => element_name_of(doc@, id) == Some(s@),
            None => element_name_of(doc@, id) is None,
        },
{
    doc.html.tree.get(id).and_then(scraper::ElementRef::wrap).map(|e| e.value().name().to_string())
}

/// Trusted: `scraper::node::Element::attr` of the element with this id.
#[verifier::external_body]
fn element_attr(doc: &HtmlSource, id: ego_tree::NodeId, name: &str) -> (r: Option<String>)
    ensures
        match r {
            Some(s) => attribute_of(doc@, id, name@) == Some(s@),
            None => attribute_of(doc@, id, name@) is None,
        },
{
    doc.html.tree.get(id).and_then(scraper::ElementRef::wrap).and_then(|e| e.value().attr(name)).map(
        |s| s.to_string(),
    )
}

pub open spec fn strings_view(v: Seq<String>) -> Seq<Seq<char>> {
    v.map_values(|s: String| s@)
}

/// Trusted: `scraper::ElementRef::text` of the element with this id, collected.
#[verifier::external_body]
fn element_texts(doc: &HtmlSource, id: ego_tree::NodeId) -> (r: Option<Vec<String>>)
    ensures
        match r {
            Some(v) => texts_of(doc@, id) == Some(strings_view(v@)),
            None => texts_of(doc@, id) is None,
        },
{
    doc.html.tree.get(id).and_then(scraper::ElementRef::wrap).map(|e| e.text().map(|t| t.to_string()).collect())
}

/// Trusted: `scraper::ElementRef::inner_html` of the element with this id.
#[verifier::external_body]
fn element_inner_html(doc: &HtmlSource, id: ego_tree::NodeId) -> (r: Option<String>)
    ensures
        match r {
            Some(s) => inner_html_of(doc@, id) == Some(s@),
            None => inner_html_of(doc@, id) is None,
        },
{
    doc.html.tree.get(id).and_then(scraper::ElementRef::wrap).map(|e| e.inner_html())
}

/// Trusted: `scraper::ElementRef::html` of the element with this id.
#[verifier::external_body]
fn element_outer_html(doc: &HtmlSource, id: ego_tree::NodeId) -> (r: Option<String>)
    ensures
        match r {
            Some(s) => outer_html_of(doc@, id) == Some(s@),
            None => outer_html_of(doc@, id) is None,
        },
{
    doc.html.tree.get(id).and_then(scraper::ElementRef::wrap).map(|e| e.html())
}

/// Trusted: `scraper::Html::select`, each match taken as its node id.
#[verifier::external_body]
fn css_select(doc: &HtmlSource, sel: &crate::selector::CssSelector) -> (r: Vec<ego_tree::NodeId>)
    ensures
        r@ == css_select_of(doc@, sel.view()),
{
    doc.html.select(sel.compiled()).map(|e| e.id()).collect()
}

/// Trusted: the derived `PartialEq` of `ego_tree::NodeId`, which compares the index it wraps.
#[verifier::external_body]
fn node_id_eq(a: ego_tree::NodeId, b: ego_tree::NodeId) -> (r: bool)
    ensures
        r == (a == b),
{
    a == b
}


/// The arena being built from a walk: node ids in preorder, the end (one past the last
/// descendant) of each closed node, and the open nodes.
pub struct BuildState {
    pub ids: Seq<ego_tree::NodeId>,
    pub ends: Seq<usize>,
    pub stack: Seq<usize>,
}

pub open spec fn build_step(st: BuildState, ev: (ego_tree::NodeId, bool)) -> BuildState {
    if ev.1 {
        BuildState {
            ids: st.ids.push(ev.0),
            ends: st.ends.push(0usize),
            stack: st.stack.push(st.ids.len() as usize),
        }
    } else if st.stack.len() > 0 {
        BuildState {
            ids: st.ids,
            ends: st.ends.update(st.stack.last() as int, st.ids.len() as usize),
            stack: st.stack.drop_last(),
        }
    } else {
        st
    }
}

pub open spec fn build_upto(evs: Seq<(ego_tree::NodeId, bool)>, n: nat) -> BuildState
    decreases n,
{
    if n == 0 {
        BuildState { ids: seq![], ends: seq![], stack: seq![] }
    } else {
        build_step(build_upto(evs, (n - 1) as nat), evs[n - 1])
    }
}

/// Closes the nodes still open at the end of the walk.
pub open spec fn close_rest(st: BuildState) -> BuildState
    decreases st.stack.len(),
{
    if st.stack.len() == 0 {
        st
    } else {
        close_rest(
            BuildState {
                ids: st.ids,
                ends: st.ends.update(st.stack.last() as int, st.ids.len() as usize),
                stack: st.stack.drop_last(),
            },
        )
    }
}

/// The arena that a walk describes.
pub open spec fn built(evs: Seq<(ego_tree::NodeId, bool)>) -> BuildState {
    close_rest(build_upto(evs, evs.len()))
}

/// A preorder arena is shaped like a tree: each node's subtree is the range from it to its
/// end, and subtrees nest.
pub open spec fn shaped(ends: Seq<usize>) -> bool {
    &&& forall|i: int| 0 <= i < ends.len() ==> i < #[trigger] ends[i] <= ends.len()
    &&& forall|i: int, j: int|
        #![trigger ends[i], ends[j]]
        0 <= i < j < ends[i] && i < ends.len() ==> ends[j] <= ends[i]
}

/// The invariant of the arena while it is built: closed nodes (end not 0) are shaped, the
/// open ones are exactly the stack, which rises, and every node between two stack entries is
/// closed.
pub open spec fn building(ends: Seq<usize>, stack: Seq<usize>) -> bool {
    let n = ends.len();
    &&& forall|i: int| 0 <= i < n && ends[i] != 0 ==> i < #[trigger] ends[i] <= n
    &&& forall|i: int, j: int|
        #![trigger ends[i], ends[j]]
        0 <= i < j < ends[i] && i < n && ends[i] != 0 ==> ends[j] != 0 && ends[j] <= ends[i]
    &&& forall|t: int| 0 <= t < stack.len() ==> #[trigger] stack[t] < n && ends[stack[t] as int] == 0
    &&& forall|t1: int, t2: int|
        #![trigger stack[t1], stack[t2]]
        0 <= t1 < t2 < stack.len() ==> stack[t1] < stack[t2]
    &&& forall|j: int| 0 <= j < n && ends[j] == 0 ==> #[trigger] open_in(stack, j)
}

/// Whether `j` is on the stack (checked through the gaps between its entries).
pub open spec fn open_in(stack: Seq<usize>, j: int) -> bool {
    exists|t: int| 0 <= t < stack.len() && stack[t] == j
}

proof fn lemma_building_push(ends: Seq<usize>, stack: Seq<usize>)
    requires
        building(ends, stack),
        ends.len() < usize::MAX,
    ensures
        building(ends.push(0usize), stack.push(ends.len() as usize)),
{
    let e2 = ends.push(0usize);
    let s2 = stack.push(ends.len() as usize);
    let n = ends.len();
    assert forall|j: int| 0 <= j < n + 1 && e2[j] == 0 implies #[trigger] open_in(s2, j) by {
        if j == n {
            assert(s2[stack.len() as int] == j);
        } else {
            assert(e2[j] == ends[j]);
            assert(open_in(stack, j));
            let t = choose|t: int| 0 <= t < stack.len() && stack[t] == j;
            assert(s2[t] == j);
        }
    }
    assert forall|t1: int, t2: int| 0 <= t1 < t2 < s2.len() implies #[trigger] s2[t1] < #[trigger] s2[t2] by {
        assert(s2[t1] == stack[t1]);
        if t2 < stack.len() {
            assert(s2[t2] == stack[t2]);
        }
    }
    assert forall|i: int, j: int|
        0 <= i < j < e2[i] && i < n + 1 && e2[i] != 0 implies #[trigger] e2[j] != 0 && e2[j] <= #[trigger] e2[i] by {
        assert(e2[i] == ends[i]);
        assert(ends[i] <= n);
        assert(e2[j] == ends[j]);
    }
}

proof fn lemma_building_pop(ends: Seq<usize>, stack: Seq<usize>)
    requires
        building(ends, stack),
        ends.len() <= usize::MAX,
        stack.len() > 0,
    ensures
        building(ends.update(stack.last() as int, ends.len() as usize), stack.drop_last()),
{
    let n = ends.len();
    let s = stack.last() as int;
    let e2 = ends.update(s, n as usize);
    let s2 = stack.drop_last();
    assert(stack[stack.len() - 1] < n);
    // Every node after the top of the stack is closed.
    assert forall|j: int| s < j < n implies ends[j] != 0 by {
        if ends[j] == 0 {
            assert(open_in(stack, j));
            let t = choose|t: int| 0 <= t < stack.len() && stack[t] == j;
            if t < stack.len() - 1 {
                assert(stack[t] < stack[stack.len() - 1]);
            }
        }
    }
    assert forall|i: int| 0 <= i < n && e2[i] != 0 implies i < #[trigger] e2[i] <= n by {
        if i != s {
            assert(e2[i] == ends[i]);
        }
    }
    assert forall|i: int, j: int|
        0 <= i < j < e2[i] && i < n && e2[i] != 0 implies #[trigger] e2[j] != 0 && e2[j] <= #[trigger] e2[i] by {
        if i == s {
            assert(ends[j] != 0);
            assert(e2[j] == ends[j]);
        } else {
            assert(e2[i] == ends[i]);
            assert(ends[j] != 0);
            if j == s {
                assert(false);
            }
            assert(e2[j] == ends[j]);
        }
    }
    assert forall|t: int| 0 <= t < s2.len() implies #[trigger] s2[t] < n && e2[s2[t] as int] == 0 by {
        assert(s2[t] == stack[t]);
        assert(stack[t] < stack[stack.len() - 1]);
    }
    assert forall|t1: int, t2: int| 0 <= t1 < t2 < s2.len() implies #[trigger] s2[t1] < #[trigger] s2[t2] by {
        assert(s2[t1] == stack[t1]);
        assert(s2[t2] == stack[t2]);
    }
    assert forall|j: int| 0 <= j < n && e2[j] == 0 implies #[trigger] open_in(s2, j) by {
        assert(j != s);
        assert(e2[j] == ends[j]);
        assert(open_in(stack, j));
        let t = choose|t: int| 0 <= t < stack.len() && stack[t] == j;
        assert(t != stack.len() - 1);
        assert(s2[t] == j);
    }
}

fn build_tree(evs: &Vec<(ego_tree::NodeId, bool)>) -> (r: (Vec<ego_tree::NodeId>, Vec<usize>))
    ensures
        r.0@ == built(evs@).ids,
        r.1@ == built(evs@).ends,
        r.0@.len() == r.1@.len(),
        shaped(r.1@),
{
    let mut ids: Vec<ego_tree::NodeId> = Vec::new();
    let mut ends: Vec<usize> = Vec::new();
    let mut stack: Vec<usize> = Vec::new();
    let mut k: usize = 0;
    while k < evs.len()
        invariant
            k <= evs@.len(),
            ids@.len() == ends@.len() <= k,
            build_upto(evs@, k as nat) == (BuildState { ids: ids@, ends: ends@, stack: stack@ }),
            building(ends@, stack@),
        decreases evs@.len() - k,
    {
        let (id, open) = evs[k];
        proof {
            if open {
                lemma_building_push(ends@, stack@);
            } else if stack@.len() > 0 {
                lemma_building_pop(ends@, stack@);
            }
        }
        if open {
            stack.push(ids.len());
            ids.push(id);
            ends.push(0);
        } else if stack.len() > 0 {
            let top = stack.pop().unwrap();
            let n = ids.len();
            ends.set(top, n);
        }
        k = k + 1;
    }
    let ghost before = build_upto(evs@, evs@.len());
    while stack.len() > 0
        invariant
            ids@.len() == ends@.len() <= evs@.len(),
            close_rest(before) == close_rest(BuildState { ids: ids@, ends: ends@, stack: stack@ }),
            building(ends@, stack@),
        decreases stack@.len(),
    {
        let n = ids.len();
        proof {
            lemma_building_pop(ends@, stack@);
        }
        let top = stack.pop().unwrap();
        ends.set(top, n);
    }
    assert forall|i: int| 0 <= i < ends@.len() implies ends@[i] != 0 by {
        if ends@[i] == 0 {
            assert(open_in(stack@, i));
        }
    }
    (ids, ends)
}


/// The arena of the tree parsed from `d`.
pub open spec fn tree_of(d: DocView) -> BuildState {
    built(traversal_of(d))
}

pub open spec fn node_count(d: DocView) -> int {
    tree_of(d).ids.len() as int
}

pub open spec fn node_id(d: DocView, i: int) -> ego_tree::NodeId {
    tree_of(d).ids[i]
}

/// One past the last node of the subtree of node `i`.
pub open spec fn end_of(d: DocView, i: int) -> int {
    tree_of(d).ends[i] as int
}

pub open spec fn is_elem(d: DocView, i: int) -> bool {
    is_element_node(d, node_id(d, i))
}

/// The element children among the nodes from `j` to `stop` that are siblings in turn.
pub open spec fn element_children_from(d: DocView, j: int, stop: int) -> Seq<usize>
    decreases stop - j,
{
    if 0 <= j < stop && stop <= node_count(d) && j < end_of(d, j) <= stop {
        (if is_elem(d, j) {
            seq![j as usize]
        } else {
            seq![]
        }) + element_children_from(d, end_of(d, j), stop)
    } else {
        seq![]
    }
}

/// The children of node `p` that are elements, in order.
pub open spec fn element_children(d: DocView, p: int) -> Seq<usize> {
    element_children_from(d, p + 1, end_of(d, p))
}

/// The elements below the siblings from `j` to `stop`, in document order, going down
/// through elements only.
pub open spec fn descendants_from(d: DocView, j: int, stop: int) -> Seq<usize>
    decreases stop - j,
{
    if 0 <= j < stop && stop <= node_count(d) && j < end_of(d, j) <= stop {
        (if is_elem(d, j) {
            seq![j as usize] + descendants_from(d, j + 1, end_of(d, j))
        } else {
            seq![]
        }) + descendants_from(d, end_of(d, j), stop)
    } else {
        seq![]
    }
}

/// The descendant elements of node `p`, in document order.
pub open spec fn descendant_elements(d: DocView, p: int) -> Seq<usize> {
    descendants_from(d, p + 1, end_of(d, p))
}

/// The root element: the first element child of the tree's root.
pub open spec fn root_element(d: DocView) -> Option<usize> {
    if node_count(d) > 0 && element_children(d, 0).len() > 0 {
        Some(element_children(d, 0)[0])
    } else {
        None
    }
}

/// Whether node `i` has the tag a step asks for (`*` is any).
pub open spec fn tag_matches(d: DocView, i: usize, tag: Seq<char>) -> bool {
    tag == seq!['*'] || element_name_of(d, node_id(d, i as int)) == Some(tag)
}

/// Whether node `i` meets an attribute condition; positions hold here.
pub open spec fn predicate_holds(d: DocView, i: usize, p: PredicateView) -> bool {
    match p {
        PredicateView::AttrEquals(a, v) => attribute_of(d, node_id(d, i as int), a) == Some(v),
        PredicateView::AttrExists(a) => attribute_of(d, node_id(d, i as int), a) is Some,
        PredicateView::Index(_) => true,
    }
}

pub open spec fn predicates_hold(d: DocView, i: usize, ps: Seq<PredicateView>) -> bool {
    forall|k: int| 0 <= k < ps.len() ==> predicate_holds(d, i, #[trigger] ps[k])
}

pub open spec fn step_accepts(d: DocView, i: usize, step: StepView) -> bool {
    i < node_count(d) && tag_matches(d, i, step.tag) && predicates_hold(d, i, step.predicates)
}

/// The candidates that a step keeps, in order.
pub open spec fn keep_matching(d: DocView, cands: Seq<usize>, step: StepView) -> Seq<usize>
    decreases cands.len(),
{
    if cands.len() == 0 {
        seq![]
    } else {
        keep_matching(d, cands.drop_last(), step) + (if step_accepts(d, cands.last(), step) {
            seq![cands.last()]
        } else {
            seq![]
        })
    }
}

/// The candidates a step looks at from element `el`.
pub open spec fn candidates(d: DocView, el: usize, axis: XpathAxis) -> Seq<usize> {
    match axis {
        XpathAxis::Child => element_children(d, el as int),
        XpathAxis::Descendant => descendant_elements(d, el as int),
    }
}

/// What a step keeps from each element of `cur`, in turn.
pub open spec fn gather(d: DocView, cur: Seq<usize>, step: StepView) -> Seq<usize>
    decreases cur.len(),
{
    if cur.len() == 0 {
        seq![]
    } else {
        gather(d, cur.drop_last(), step) + keep_matching(d, candidates(d, cur.last(), step.axis), step)
    }
}

/// A position condition keeps the element at that 1-based position, or none.
pub open spec fn apply_position(next: Seq<usize>, p: PredicateView) -> Seq<usize> {
    match p {
        PredicateView::Index(idx) => if 1 <= idx <= next.len() {
            seq![next[idx - 1]]
        } else {
            seq![]
        },
        _ => next,
    }
}

pub open spec fn apply_positions(next: Seq<usize>, ps: Seq<PredicateView>) -> Seq<usize>
    decreases ps.len(),
{
    if ps.len() == 0 {
        next
    } else {
        apply_positions(apply_position(next, ps[0]), ps.drop_first())
    }
}

pub open spec fn xpath_step(d: DocView, cur: Seq<usize>, step: StepView) -> Seq<usize> {
    apply_positions(gather(d, cur, step), step.predicates)
}

pub open spec fn xpath_from(d: DocView, cur: Seq<usize>, steps: Seq<StepView>) -> Seq<usize>
    decreases steps.len(),
{
    if steps.len() == 0 {
        cur
    } else {
        xpath_from(d, xpath_step(d, cur, steps[0]), steps.drop_first())
    }
}

/// Where an XPath walk starts: the root of the tree (the document node), so that an
/// absolute path's first step looks at the root element, as XPath means it. This is on
/// purpose: a walk that started at the children of the root element would make
/// `/html/body/p` select nothing.
pub open spec fn initial_nodes(d: DocView) -> Seq<usize> {
    if node_count(d) > 0 {
        seq![0usize]
    } else {
        seq![]
    }
}

/// The elements that XPath steps select.
pub open spec fn xpath_eval(d: DocView, steps: Seq<StepView>) -> Seq<usize> {
    xpath_from(d, initial_nodes(d), steps)
}

/// `parts` joined with `sep` between them, as `[String]::join` does.
pub open spec fn join(parts: Seq<Seq<char>>, sep: Seq<char>) -> Seq<char>
    decreases parts.len(),
{
    if parts.len() == 0 {
        seq![]
    } else if parts.len() == 1 {
        parts[0]
    } else {
        join(parts.drop_last(), sep) + sep + parts.last()
    }
}

pub open spec fn text_parts(d: DocView, i: usize) -> Seq<Seq<char>> {
    match texts_of(d, node_id(d, i as int)) {
        Some(t) => t,
        None => seq![],
    }
}

pub open spec fn or_empty(o: Option<Seq<char>>) -> Seq<char> {
    match o {
        Some(s) => s,
        None => seq![],
    }
}

/// What an extraction takes from element `i`.
pub open spec fn extracted_value(d: DocView, i: usize, ext: ExtractionView) -> Seq<char> {
    match ext {
        ExtractionView::Text => trim(join(text_parts(d, i), seq![' ']), Trim::Whitespace),
        ExtractionView::Html => or_empty(inner_html_of(d, node_id(d, i as int))),
        ExtractionView::Attribute(a) => or_empty(attribute_of(d, node_id(d, i as int), a)),
    }
}

pub open spec fn outer_html_value(d: DocView, i: usize) -> Seq<char> {
    or_empty(outer_html_of(d, node_id(d, i as int)))
}

/// The first index from `j` at which `ids` holds `id`.
pub open spec fn find_id(ids: Seq<ego_tree::NodeId>, id: ego_tree::NodeId, j: int) -> Option<usize>
    decreases ids.len() - j,
{
    if j < 0 || j >= ids.len() {
        None
    } else if ids[j] == id {
        Some(j as usize)
    } else {
        find_id(ids, id, j + 1)
    }
}

/// The arena indices of the nodes with these ids, skipping ids not in the tree.
pub open spec fn indices_of_ids(d: DocView, ids: Seq<ego_tree::NodeId>) -> Seq<usize>
    decreases ids.len(),
{
    if ids.len() == 0 {
        seq![]
    } else {
        indices_of_ids(d, ids.drop_last()) + match find_id(tree_of(d).ids, ids.last(), 0) {
            Some(i) => seq![i],
            None => seq![],
        }
    }
}

/// The elements a CSS selector matches, as arena indices.
pub open spec fn css_indices(d: DocView, sel: Seq<char>) -> Seq<usize> {
    indices_of_ids(d, css_select_of(d, sel))
}

/// Every index in `s` is below `n`.
pub open spec fn all_below(s: Seq<usize>, n: int) -> bool {
    forall|i: int| 0 <= i < s.len() ==> #[trigger] s[i] < n
}

proof fn lemma_concat_below(a: Seq<usize>, b: Seq<usize>, n: int)
    requires
        all_below(a, n),
        all_below(b, n),
    ensures
        all_below(a + b, n),
{
    assert forall|i: int| 0 <= i < (a + b).len() implies #[trigger] (a + b)[i] < n by {
        if i < a.len() {
            assert((a + b)[i] == a[i]);
        } else {
            assert((a + b)[i] == b[i - a.len()]);
        }
    }
}

proof fn lemma_descendants_below(d: DocView, j: int, stop: int)
    ensures
        all_below(descendants_from(d, j, stop), node_count(d)),
    decreases stop - j,
{
    if 0 <= j < stop && stop <= node_count(d) && j < end_of(d, j) <= stop {
        lemma_descendants_below(d, end_of(d, j), stop);
        if is_elem(d, j) {
            lemma_descendants_below(d, j + 1, end_of(d, j));
            lemma_concat_below(seq![j as usize], descendants_from(d, j + 1, end_of(d, j)), node_count(d));
            lemma_concat_below(
                seq![j as usize] + descendants_from(d, j + 1, end_of(d, j)),
                descendants_from(d, end_of(d, j), stop),
                node_count(d),
            );
        } else {
            lemma_concat_below(seq![], descendants_from(d, end_of(d, j), stop), node_count(d));
        }
    }
}

proof fn lemma_keep_below(d: DocView, cands: Seq<usize>, step: StepView)
    ensures
        all_below(keep_matching(d, cands, step), node_count(d)),
    decreases cands.len(),
{
    if cands.len() > 0 {
        lemma_keep_below(d, cands.drop_last(), step);
        let tail: Seq<usize> = if step_accepts(d, cands.last(), step) {
            seq![cands.last()]
        } else {
            seq![]
        };
        lemma_concat_below(keep_matching(d, cands.drop_last(), step), tail, node_count(d));
    }
}

proof fn lemma_gather_below(d: DocView, cur: Seq<usize>, step: StepView)
    ensures
        all_below(gather(d, cur, step), node_count(d)),
    decreases cur.len(),
{
    if cur.len() > 0 {
        lemma_gather_below(d, cur.drop_last(), step);
        lemma_keep_below(d, candidates(d, cur.last(), step.axis), step);
        lemma_concat_below(
            gather(d, cur.drop_last(), step),
            keep_matching(d, candidates(d, cur.last(), step.axis), step),
            node_count(d),
        );
    }
}

proof fn lemma_positions_below(next: Seq<usize>, ps: Seq<PredicateView>, n: int)
    requires
        all_below(next, n),
    ensures
        all_below(apply_positions(next, ps), n),
    decreases ps.len(),
{
    if ps.len() > 0 {
        let a = apply_position(next, ps[0]);
        assert(all_below(a, n)) by {
            if let PredicateView::Index(idx) = ps[0] {
                if 1 <= idx <= next.len() {
                    assert(a[0] == next[idx - 1]);
                }
            }
        }
        lemma_positions_below(a, ps.drop_first(), n);
    }
}

proof fn lemma_xpath_from_below(d: DocView, cur: Seq<usize>, steps: Seq<StepView>)
    requires
        all_below(cur, node_count(d)),
    ensures
        all_below(xpath_from(d, cur, steps), node_count(d)),
    decreases steps.len(),
{
    if steps.len() > 0 {
        lemma_gather_below(d, cur, steps[0]);
        lemma_positions_below(gather(d, cur, steps[0]), steps[0].predicates, node_count(d));
        lemma_xpath_from_below(d, xpath_step(d, cur, steps[0]), steps.drop_first());
    }
}

/// Every element an XPath selects is a node of the tree.
pub proof fn lemma_xpath_below(d: DocView, steps: Seq<StepView>)
    ensures
        all_below(xpath_eval(d, steps), node_count(d)),
{
    lemma_xpath_from_below(d, initial_nodes(d), steps);
}

proof fn lemma_find_id_below(ids: Seq<ego_tree::NodeId>, id: ego_tree::NodeId, j: int)
    ensures
        find_id(ids, id, j) matches Some(i) ==> i < ids.len(),
    decreases ids.len() - j,
{
    if 0 <= j < ids.len() && ids[j] != id {
        lemma_find_id_below(ids, id, j + 1);
    }
}

proof fn lemma_indices_below(d: DocView, ids: Seq<ego_tree::NodeId>)
    ensures
        all_below(indices_of_ids(d, ids), node_count(d)),
    decreases ids.len(),
{
    if ids.len() > 0 {
        lemma_indices_below(d, ids.drop_last());
        lemma_find_id_below(tree_of(d).ids, ids.last(), 0);
        let tail: Seq<usize> = match find_id(tree_of(d).ids, ids.last(), 0) {
            Some(i) => seq![i],
            None => seq![],
        };
        lemma_concat_below(indices_of_ids(d, ids.drop_last()), tail, node_count(d));
    }
}

/// Every element a CSS selector matches (as an index) is a node of the tree.
pub proof fn lemma_css_below(d: DocView, sel: Seq<char>)
    ensures
        all_below(css_indices(d, sel), node_count(d)),
{
    lemma_indices_below(d, css_select_of(d, sel));
}

/// A parsed document: the scraper's tree and its preorder arena.
pub struct Document {
    src: HtmlSource,
    ids: Vec<ego_tree::NodeId>,
    ends: Vec<usize>,
    elems: Vec<bool>,
}

impl View for Document {
    type V = DocView;

    closed spec fn view(&self) -> DocView {
        self.src@
    }
}

impl Document {
    #[verifier::type_invariant]
    closed spec fn inv(self) -> bool {
        self.facts()
    }

    closed spec fn facts(self) -> bool {
        &&& self.ids@ == tree_of(self.src@).ids
        &&& self.ends@ == tree_of(self.src@).ends
        &&& self.ids@.len() == self.ends@.len() == self.elems@.len()
        &&& shaped(self.ends@)
        &&& forall|i: int| 0 <= i < self.elems@.len() ==> #[trigger] self.elems@[i] == is_element_node(self.src@, self.ids@[i])
    }

    fn from_source(src: HtmlSource) -> (r: Document)
        ensures
            r@ == src@,
    {
        let evs = traversal(&src);
        let (ids, ends) = build_tree(&evs);
        let mut elems: Vec<bool> = Vec::new();
        let mut i: usize = 0;
        while i < ids.len()
            invariant
                i <= ids@.len(),
                elems@.len() == i,
                forall|k: int| 0 <= k < i ==> #[trigger] elems@[k] == is_element_node(src@, ids@[k]),
            decreases ids@.len() - i,
        {
            let e = node_is_element(&src, ids[i]);
            elems.push(e);
            i = i + 1;
        }
        Document { src, ids, ends, elems }
    }

    /// Parses a whole HTML document.
    pub fn parse_document(source: &str) -> (r: Document)
        ensures
            r@ == (DocView { source: source@, fragment: false }),
    {
        Document::from_source(HtmlSource::document(source))
    }

    /// Parses an HTML fragment.
    pub fn parse_fragment(source: &str) -> (r: Document)
        ensures
            r@ == (DocView { source: source@, fragment: true }),
    {
        Document::from_source(HtmlSource::fragment(source))
    }

    /// The number of nodes in the tree.
    pub fn len(&self) -> (r: usize)
        ensures
            r == node_count(self@),
    {
        proof {
            use_type_invariant(self);
        }
        self.ids.len()
    }

    /// The children of node `p` that are elements (none when there is no node `p`).
    pub fn element_children(&self, p: usize) -> (r: Vec<usize>)
        ensures
            r@ == element_children(self@, p as int),
    {
        proof {
            use_type_invariant(self);
        }
        if p >= self.ids.len() {
            return Vec::new();
        }
        let stop = self.ends[p];
        let mut out: Vec<usize> = Vec::new();
        let mut j = p + 1;
        assert(out@ =~= seq![]);
        while j < stop
            invariant
                p < j <= stop <= self.ends@.len(),
                stop == end_of(self@, p as int),
                self.facts(),
                element_children_from(self@, p + 1, stop as int) == out@ + element_children_from(
                    self@,
                    j as int,
                    stop as int,
                ),
            decreases stop - j,
        {
            assert(self.ends@[j as int] <= self.ends@[p as int]);
            let next = self.ends[j];
            if self.elems[j] {
                out.push(j);
            }
            j = next;
        }
        assert(element_children_from(self@, j as int, stop as int) =~= seq![]);
        assert(out@ + seq![] =~= out@);
        out
    }

    /// The descendant elements of node `p`, in document order (none when there is no node
    /// `p`).
    pub fn collect_descendants(&self, p: usize) -> (r: Vec<usize>)
        ensures
            r@ == descendant_elements(self@, p as int),
    {
        proof {
            use_type_invariant(self);
        }
        if p >= self.ids.len() {
            return Vec::new();
        }
        self.descendants_of(p)
    }

    fn descendants_of(&self, p: usize) -> (r: Vec<usize>)
        requires
            self.facts(),
            p < node_count(self@),
        ensures
            r@ == descendant_elements(self@, p as int),
        decreases node_count(self@) - p,
    {
        let stop = self.ends[p];
        let mut out: Vec<usize> = Vec::new();
        let mut j = p + 1;
        assert(out@ =~= seq![]);
        while j < stop
            invariant
                p < j <= stop <= self.ends@.len(),
                stop == end_of(self@, p as int),
                self.facts(),
                descendants_from(self@, p + 1, stop as int) == out@ + descendants_from(
                    self@,
                    j as int,
                    stop as int,
                ),
            decreases stop - j,
        {
            assert(self.ends@[j as int] <= self.ends@[p as int]);
            let next = self.ends[j];
            if self.elems[j] {
                out.push(j);
                let mut sub = self.descendants_of(j);
                out.append(&mut sub);
            }
            j = next;
        }
        assert(descendants_from(self@, j as int, stop as int) =~= seq![]);
        assert(out@ + seq![] =~= out@);
        out
    }

    /// The root element, if the tree has one.
    pub fn root_element(&self) -> (r: Option<usize>)
        ensures
            r == root_element(self@),
    {
        proof {
            use_type_invariant(self);
        }
        if self.ids.len() == 0 {
            return None;
        }
        let kids = self.element_children(0);
        if kids.len() > 0 {
            Some(kids[0])
        } else {
            None
        }
    }

    /// Whether node `i` is an element whose name is `tag`, or `tag` is `*`.
    pub fn matches_tag(&self, i: usize, tag: &String) -> (r: bool)
        requires
            i < node_count(self@),
        ensures
            r == tag_matches(self@, i, tag@),
    {
        proof {
            use_type_invariant(self);
            reveal_strlit("*");
            assert("*"@ =~= seq!['*']);
        }
        if crate::text::str_eq(tag.as_str(), "*") {
            return true;
        }
        match element_name(&self.src, self.ids[i]) {
            Some(n) => crate::text::str_eq(n.as_str(), tag.as_str()),
            None => false,
        }
    }

    /// Whether node `i` meets every attribute condition of `preds` (positions are applied
    /// to the whole set later).
    pub fn matches_predicates(&self, i: usize, preds: &Vec<XpathPredicate>) -> (r: bool)
        requires
            i < node_count(self@),
        ensures
            r == predicates_hold(self@, i, preds_view(preds@)),
    {
        proof {
            use_type_invariant(self);
        }
        let id = self.ids[i];
        let mut k: usize = 0;
        while k < preds.len()
            invariant
                k <= preds@.len(),
                id == node_id(self@, i as int),
                forall|q: int| 0 <= q < k ==> predicate_holds(self@, i, #[trigger] preds_view(preds@)[q]),
            decreases preds@.len() - k,
        {
            match &preds[k] {
                XpathPredicate::AttrEquals(attr, val) => {
                    match element_attr(&self.src, id, attr.as_str()) {
                        Some(got) => {
                            if !crate::text::str_eq(got.as_str(), val.as_str()) {
                                assert(!predicate_holds(self@, i, preds_view(preds@)[k as int]));
                                return false;
                            }
                        },
                        None => {
                            assert(!predicate_holds(self@, i, preds_view(preds@)[k as int]));
                            return false;
                        },
                    }
                },
                XpathPredicate::AttrExists(attr) => {
                    if element_attr(&self.src, id, attr.as_str()).is_none() {
                        assert(!predicate_holds(self@, i, preds_view(preds@)[k as int]));
                        return false;
                    }
                },
                XpathPredicate::Index(_) => {},
            }
            k = k + 1;
        }
        true
    }

    /// Where an XPath walk starts: the root of the tree.
    pub fn initial_nodes(&self) -> (r: Vec<usize>)
        ensures
            r@ == initial_nodes(self@),
    {
        let mut r: Vec<usize> = Vec::new();
        if self.len() > 0 {
            r.push(0);
        }
        assert(r@ =~= initial_nodes(self@));
        r
    }

    /// The elements that a list of XPath steps selects, in the order the walk finds them.
    pub fn xpath_select(&self, steps: &Vec<XpathStep>) -> (r: Vec<usize>)
        ensures
            r@ == xpath_eval(self@, steps_view(steps@)),
    {
        let ghost d = self@;
        let ghost sv = steps_view(steps@);
        let mut current = self.initial_nodes();
        let mut k: usize = 0;
        assert(sv.skip(0) =~= sv);
        while k < steps.len()
            invariant
                k <= steps@.len(),
                sv == steps_view(steps@),
                d == self@,
                xpath_eval(d, sv) == xpath_from(d, current@, sv.skip(k as int)),
            decreases steps@.len() - k,
        {
            let step = &steps[k];
            assert(sv[k as int] == step@);
            let mut next: Vec<usize> = Vec::new();
            let mut c: usize = 0;
            assert(current@.take(0) =~= seq![]);
            while c < current.len()
                invariant
                    c <= current@.len(),
                    d == self@,
                    next@ == gather(d, current@.take(c as int), step@),
                decreases current@.len() - c,
            {
                let cands = match step.axis {
                    XpathAxis::Child => self.element_children(current[c]),
                    XpathAxis::Descendant => self.collect_descendants(current[c]),
                };
                assert(cands@ == candidates(d, current@[c as int], step@.axis));
                let ghost base = next@;
                let mut m: usize = 0;
                assert(cands@.take(0) =~= seq![]);
                assert(base + seq![] =~= base);
                while m < cands.len()
                    invariant
                        m <= cands@.len(),
                        d == self@,
                        next@ == base + keep_matching(d, cands@.take(m as int), step@),
                    decreases cands@.len() - m,
                {
                    let x = cands[m];
                    let ok = x < self.len() && self.matches_tag(x, &step.tag) && self.matches_predicates(
                        x,
                        &step.predicates,
                    );
                    assert(cands@.take(m + 1).drop_last() =~= cands@.take(m as int));
                    if ok {
                        next.push(x);
                    }
                    assert(next@ =~= base + keep_matching(d, cands@.take(m + 1), step@));
                    m = m + 1;
                }
                assert(cands@.take(m as int) =~= cands@);
                assert(current@.take(c + 1).drop_last() =~= current@.take(c as int));
                assert(next@ =~= gather(d, current@.take(c + 1), step@));
                c = c + 1;
            }
            assert(current@.take(c as int) =~= current@);
            let ghost preds = step@.predicates;
            let ghost gathered = next@;
            let mut q: usize = 0;
            assert(preds.skip(0) =~= preds);
            while q < step.predicates.len()
                invariant
                    q <= step.predicates@.len(),
                    preds == preds_view(step.predicates@),
                    apply_positions(gathered, preds) == apply_positions(next@, preds.skip(q as int)),
                decreases step.predicates@.len() - q,
            {
                assert(preds.skip(q as int).drop_first() =~= preds.skip(q + 1));
                assert(preds.skip(q as int)[0] == step.predicates@[q as int]@);
                match &step.predicates[q] {
                    XpathPredicate::Index(idx) => {
                        if *idx >= 1 && *idx <= next.len() {
                            let x = next[*idx - 1];
                            next = Vec::new();
                            next.push(x);
                            assert(next@ =~= seq![x]);
                        } else {
                            next = Vec::new();
                            assert(next@ =~= seq![]);
                        }
                    },
                    _ => {},
                }
                q = q + 1;
            }
            assert(preds.skip(q as int) =~= seq![]);
            assert(sv.skip(k as int).drop_first() =~= sv.skip(k + 1));
            assert(sv.skip(k as int)[0] == sv[k as int]);
            current = next;
            k = k + 1;
        }
        assert(sv.skip(k as int) =~= seq![]);
        current
    }

    /// The value that `ext` takes from element `i`: its text (the texts below it joined by
    /// spaces, trimmed), its inner HTML, or an attribute (empty when absent).
    pub fn extract_value(&self, i: usize, ext: &Extraction) -> (r: String)
        requires
            i < node_count(self@),
        ensures
            r@ == extracted_value(self@, i, ext@),
    {
        proof {
            use_type_invariant(self);
        }
        let id = self.ids[i];
        match ext {
            Extraction::Text => {
                let parts = match element_texts(&self.src, id) {
                    Some(v) => v,
                    None => Vec::new(),
                };
                let ghost pv = strings_view(parts@);
                assert(pv == text_parts(self@, i));
                let mut joined = String::new();
                let mut k: usize = 0;
                proof {
                    reveal_strlit(" ");
                    assert(" "@ =~= seq![' ']);
                    assert(pv.take(0) =~= seq![]);
                }
                while k < parts.len()
                    invariant
                        k <= parts@.len(),
                        pv == strings_view(parts@),
                        " "@ == seq![' '],
                        joined@ == join(pv.take(k as int), seq![' ']),
                    decreases parts@.len() - k,
                {
                    assert(pv.take(k + 1).drop_last() =~= pv.take(k as int));
                    assert(pv.take(k + 1).last() == parts@[k as int]@);
                    if k > 0 {
                        joined.append(" ");
                    } else {
                        assert(pv.take(1) =~= seq![parts@[0]@]);
                        assert(joined@ + parts@[0]@ =~= parts@[0]@);
                    }
                    joined.append(parts[k].as_str());
                    k = k + 1;
                }
                assert(pv.take(k as int) =~= pv);
                let v = chars_of(joined.as_str());
                assert(v@.subrange(0, v@.len() as int) =~= v@);
                let (a, b) = trim_range(&v, 0, v.len(), Trim::Whitespace);
                string_of_range(&v, a, b)
            },
            Extraction::Html => match element_inner_html(&self.src, id) {
                Some(h) => h,
                None => String::new(),
            },
            Extraction::Attribute(attr) => match element_attr(&self.src, id, attr.as_str()) {
                Some(a) => a,
                None => String::new(),
            },
        }
    }

    /// The serialized HTML of element `i` itself (empty when `i` is not an element).
    pub fn outer_html(&self, i: usize) -> (r: String)
        requires
            i < node_count(self@),
        ensures
            r@ == outer_html_value(self@, i),
    {
        proof {
            use_type_invariant(self);
        }
        match element_outer_html(&self.src, self.ids[i]) {
            Some(h) => h,
            None => String::new(),
        }
    }

    /// The arena index of the node with id `id`, if it is in the tree.
    fn index_of(&self, id: ego_tree::NodeId) -> (r: Option<usize>)
        ensures
            r == find_id(tree_of(self@).ids, id, 0),
    {
        proof {
            use_type_invariant(self);
        }
        let mut j: usize = 0;
        while j < self.ids.len()
            invariant
                j <= self.ids@.len(),
                self.ids@ == tree_of(self@).ids,
                find_id(tree_of(self@).ids, id, 0) == find_id(tree_of(self@).ids, id, j as int),
            decreases self.ids@.len() - j,
        {
            if node_id_eq(self.ids[j], id) {
                return Some(j);
            }
            j = j + 1;
        }
        None
    }

    /// The elements that a CSS selector matches, as arena indices, in the order the scraper
    /// yields them (matches outside the tree walked from the root are left out).
    pub fn select_css(&self, sel: &CssSelector) -> (r: Vec<usize>)
        ensures
            r@ == css_indices(self@, sel.view()),
    {
        let found = css_select(&self.src, sel);
        let ghost d = self@;
        let mut out: Vec<usize> = Vec::new();
        let mut k: usize = 0;
        assert(found@.take(0) =~= seq![]);
        while k < found.len()
            invariant
                k <= found@.len(),
                d == self@,
                out@ == indices_of_ids(d, found@.take(k as int)),
            decreases found@.len() - k,
        {
            assert(found@.take(k + 1).drop_last() =~= found@.take(k as int));
            match self.index_of(found[k]) {
                Some(i) => {
                    out.push(i);
                },
                None => {},
            }
            assert(out@ =~= indices_of_ids(d, found@.take(k + 1)));
            k = k + 1;
        }
        assert(found@.take(k as int) =~= found@);
        out
    }

    /// The value of attribute `name` of element `i`.
    pub fn attr(&self, i: usize, name: &str) -> (r: Option<String>)
        requires
            i < node_count(self@),
        ensures
            match r {
                Some(v) => attribute_of(self@, node_id(self@, i as int), name@) == Some(v@),
                None => attribute_of(self@, node_id(self@, i as int), name@) is None,
            },
    {
        proof {
            use_type_invariant(self);
        }
        element_attr(&self.src, self.ids[i], name)
    }
}

/// The text of an element has no white space around it: it is a stretch of the element's
/// texts joined by spaces, only white space lies before and after that stretch, and a
/// non-empty text neither starts nor ends with white space.
pub proof fn lemma_text_value_trimmed(d: DocView, i: usize)
    ensures
        extracted_value(d, i, ExtractionView::Text).len() > 0 ==> !is_whitespace(
            extracted_value(d, i, ExtractionView::Text)[0],
        ) && !is_whitespace(extracted_value(d, i, ExtractionView::Text).last()),
        exists|a: int, b: int|
            0 <= a <= b <= join(text_parts(d, i), seq![' ']).len() && extracted_value(
                d,
                i,
                ExtractionView::Text,
            ) == join(text_parts(d, i), seq![' ']).subrange(a, b) && (forall|k: int|
                0 <= k < a ==> is_whitespace(#[trigger] join(text_parts(d, i), seq![' '])[k]))
                && (forall|k: int|
                b <= k < join(text_parts(d, i), seq![' ']).len() ==> is_whitespace(
                    #[trigger] join(text_parts(d, i), seq![' '])[k],
                )),
{
    lemma_trim_shape(join(text_parts(d, i), seq![' ']), Trim::Whitespace);
}

proof fn lemma_keep_accepted(d: DocView, cands: Seq<usize>, step: StepView)
    ensures
        forall|k: int|
            0 <= k < keep_matching(d, cands, step).len() ==> step_accepts(
                d,
                #[trigger] keep_matching(d, cands, step)[k],
                step,
            ),
    decreases cands.len(),
{
    if cands.len() > 0 {
        lemma_keep_accepted(d, cands.drop_last(), step);
        let head = keep_matching(d, cands.drop_last(), step);
        assert forall|k: int|
            0 <= k < keep_matching(d, cands, step).len() implies step_accepts(
            d,
            #[trigger] keep_matching(d, cands, step)[k],
            step,
        ) by {
            if k < head.len() {
                assert(keep_matching(d, cands, step)[k] == head[k]);
            } else {
                assert(keep_matching(d, cands, step)[k] == cands.last());
            }
        }
    }
}

proof fn lemma_gather_accepted(d: DocView, cur: Seq<usize>, step: StepView)
    ensures
        forall|k: int|
            0 <= k < gather(d, cur, step).len() ==> step_accepts(
                d,
                #[trigger] gather(d, cur, step)[k],
                step,
            ),
    decreases cur.len(),
{
    if cur.len() > 0 {
        lemma_gather_accepted(d, cur.drop_last(), step);
        let head = gather(d, cur.drop_last(), step);
        let tail = keep_matching(d, candidates(d, cur.last(), step.axis), step);
        lemma_keep_accepted(d, candidates(d, cur.last(), step.axis), step);
        assert forall|k: int| 0 <= k < gather(d, cur, step).len() implies step_accepts(
            d,
            #[trigger] gather(d, cur, step)[k],
            step,
        ) by {
            if k < head.len() {
                assert(gather(d, cur, step)[k] == head[k]);
            } else {
                assert(gather(d, cur, step)[k] == tail[k - head.len()]);
            }
        }
    }
}

proof fn lemma_positions_within(next: Seq<usize>, ps: Seq<PredicateView>)
    ensures
        forall|k: int|
            0 <= k < apply_positions(next, ps).len() ==> next.contains(
                #[trigger] apply_positions(next, ps)[k],
            ),
    decreases ps.len(),
{
    if ps.len() > 0 {
        let a = apply_position(next, ps[0]);
        assert forall|k: int| 0 <= k < a.len() implies next.contains(#[trigger] a[k]) by {
            if let PredicateView::Index(idx) = ps[0] {
                if 1 <= idx <= next.len() {
                    assert(a[k] == next[idx - 1]);
                }
            } else {
                assert(a[k] == next[k]);
            }
        }
        lemma_positions_within(a, ps.drop_first());
        assert forall|k: int|
            0 <= k < apply_positions(next, ps).len() implies next.contains(
            #[trigger] apply_positions(next, ps)[k],
        ) by {
            assert(a.contains(apply_positions(a, ps.drop_first())[k]));
        }
    }
}

proof fn lemma_xpath_from_accepted(d: DocView, cur: Seq<usize>, steps: Seq<StepView>)
    requires
        steps.len() > 0,
    ensures
        forall|k: int|
            0 <= k < xpath_from(d, cur, steps).len() ==> step_accepts(
                d,
                #[trigger] xpath_from(d, cur, steps)[k],
                steps.last(),
            ),
    decreases steps.len(),
{
    let next = xpath_step(d, cur, steps[0]);
    if steps.len() == 1 {
        let g = gather(d, cur, steps[0]);
        lemma_gather_accepted(d, cur, steps[0]);
        lemma_positions_within(g, steps[0].predicates);
        assert(steps.drop_first().len() == 0);
        assert(xpath_from(d, cur, steps) == xpath_from(d, next, steps.drop_first()));
        assert(xpath_from(d, next, steps.drop_first()) == next);
        assert(steps.last() == steps[0]);
        assert forall|k: int| 0 <= k < next.len() implies step_accepts(
            d,
            #[trigger] next[k],
            steps.last(),
        ) by {
            let j = choose|j: int| 0 <= j < g.len() && g[j] == next[k];
            assert(step_accepts(d, g[j], steps[0]));
        }
    } else {
        lemma_xpath_from_accepted(d, next, steps.drop_first());
        assert(xpath_from(d, cur, steps) == xpath_from(d, next, steps.drop_first()));
        assert(steps.drop_first().last() == steps.last());
    }
}

/// What an XPath selects meets its last step: each selected element has the step's tag
/// (unless the step asks for `*`), holds each attribute that an `[@name]` condition names,
/// and has, for each `[@name='value']` condition, that attribute with exactly that value.
pub proof fn lemma_xpath_selects_matching(d: DocView, steps: Seq<StepView>)
    requires
        steps.len() > 0,
    ensures
        forall|e: int, p: int|
            0 <= e < xpath_eval(d, steps).len() && 0 <= p < steps.last().predicates.len() ==> {
                let x = #[trigger] xpath_eval(d, steps)[e];
                match #[trigger] steps.last().predicates[p] {
                    PredicateView::AttrEquals(a, v) => attribute_of(d, node_id(d, x as int), a)
                        == Some(v),
                    PredicateView::AttrExists(a) => attribute_of(d, node_id(d, x as int), a) is Some,
                    PredicateView::Index(_) => true,
                }
            },
        forall|e: int|
            0 <= e < xpath_eval(d, steps).len() ==> (steps.last().tag == seq!['*']
                || element_name_of(d, node_id(d, #[trigger] xpath_eval(d, steps)[e] as int))
                == Some(steps.last().tag)),
{
    lemma_xpath_from_accepted(d, initial_nodes(d), steps);
    assert forall|e: int, p: int|
        0 <= e < xpath_eval(d, steps).len() && 0 <= p < steps.last().predicates.len() implies {
            let x = #[trigger] xpath_eval(d, steps)[e];
            match #[trigger] steps.last().predicates[p] {
                PredicateView::AttrEquals(a, v) => attribute_of(d, node_id(d, x as int), a)
                    == Some(v),
                PredicateView::AttrExists(a) => attribute_of(d, node_id(d, x as int), a) is Some,
                PredicateView::Index(_) => true,
            }
        } by {
        let x = xpath_eval(d, steps)[e];
        assert(step_accepts(d, x, steps.last()));
        assert(predicate_holds(d, x, steps.last().predicates[p]));
    }
    assert forall|e: int| 0 <= e < xpath_eval(d, steps).len() implies (steps.last().tag
        == seq!['*'] || element_name_of(d, node_id(d, #[trigger] xpath_eval(d, steps)[e] as int))
        == Some(steps.last().tag)) by {
        assert(step_accepts(d, xpath_eval(d, steps)[e], steps.last()));
    }
}

} // verus!
