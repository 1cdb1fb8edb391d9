//! Running a job's element descriptions against a page: which selectors an element gives,
//! what they match, and the JSON results; and finding the next page to follow.

use vstd::prelude::*;
use vstd::string::*;
use crate::dom::{
    all_below, attribute_of, css_indices, extracted_value, lemma_css_below, lemma_xpath_below,
    node_count, node_id, outer_html_value, xpath_eval, DocView, Document,
};
use crate::json::{
    jsons_view, jv_array, jv_get, jv_str, lemma_lookup_index_range, lemma_view_array,
    lemma_view_object, lookup_index, Json, JsonView,
};
use crate::selector::{
    parse_selector, parsed_view, selector_spec, Extraction, ExtractionView, KindView, SelectorKind,
};

verus! {

pub open spec fn sels_view(v: Seq<(SelectorKind, Extraction)>) -> Seq<(KindView, ExtractionView)> {
    v.map_values(|p: (SelectorKind, Extraction)| (p.0@, p.1@))
}

/// The selector a JSON value gives, when it is a string that parses.
pub open spec fn parse_one(j: Option<JsonView>) -> Seq<(KindView, ExtractionView)> {
    match jv_str(j) {
        Some(raw) => match selector_spec(raw) {
            Some(p) => seq![p],
            None => seq![],
        },
        None => seq![],
    }
}

pub open spec fn parse_each(raws: Seq<JsonView>) -> Seq<(KindView, ExtractionView)>
    decreases raws.len(),
{
    if raws.len() == 0 {
        seq![]
    } else {
        parse_each(raws.drop_last()) + parse_one(Some(raws.last()))
    }
}

/// The selectors of an element description: those of `selectors` (an array), then
/// `selector`, then `xpath`; strings that do not parse are left out.
pub open spec fn resolve_spec(el: JsonView) -> Seq<(KindView, ExtractionView)> {
    (match jv_array(jv_get(el, "selectors"@)) {
        Some(xs) => parse_each(xs),
        None => seq![],
    }) + parse_one(jv_get(el, "selector"@)) + parse_one(jv_get(el, "xpath"@))
}

fn push_parsed(out: &mut Vec<(SelectorKind, Extraction)>, j: Option<&Json>)
    ensures
        sels_view(final(out)@) == sels_view(old(out)@) + parse_one(crate::json::opt_json_view(j)),
{
    let ghost before = out@;
    match j {
        Some(v) => match v.as_str() {
            Some(raw) => match parse_selector(raw) {
                Some(p) => {
                    out.push(p);
                    assert(sels_view(out@) =~= sels_view(before) + parse_one(
                        crate::json::opt_json_view(j),
                    ));
                },
                None => {
                    assert(sels_view(before) + seq![] =~= sels_view(before));
                },
            },
            None => {
                assert(sels_view(before) + seq![] =~= sels_view(before));
            },
        },
        None => {
            assert(sels_view(before) + seq![] =~= sels_view(before));
        },
    }
}

/// The selectors an element description gives.
pub fn resolve_selectors_from_element(el: &Json) -> (r: Vec<(SelectorKind, Extraction)>)
    ensures
        sels_view(r@) == resolve_spec(el@),
{
    let mut out: Vec<(SelectorKind, Extraction)> = Vec::new();
    assert(sels_view(out@) =~= seq![]);
    match el.get("selectors") {
        Some(v) => match v.as_array() {
            Some(arr) => {
                let ghost xs = jsons_view(arr@);
                let mut i: usize = 0;
                assert(xs.take(0) =~= seq![]);
                while i < arr.len()
                    invariant
                        i <= arr@.len(),
                        xs == jsons_view(arr@),
                        sels_view(out@) == parse_each(xs.take(i as int)),
                    decreases arr@.len() - i,
                {
                    assert(xs.take(i + 1).drop_last() =~= xs.take(i as int));
                    push_parsed(&mut out, Some(&arr[i]));
                    i = i + 1;
                }
                assert(xs.take(i as int) =~= xs);
            },
            None => {},
        },
        None => {},
    }
    push_parsed(&mut out, el.get("selector"));
    push_parsed(&mut out, el.get("xpath"));
    out
}


/// The elements that one selector matches.
pub open spec fn nodes_for(d: DocView, k: KindView) -> Seq<usize> {
    match k {
        KindView::Css(sel) => css_indices(d, sel),
        KindView::Xpath(steps) => xpath_eval(d, steps),
    }
}

/// The elements that the selectors match, selector by selector.
pub open spec fn matched_nodes(d: DocView, sels: Seq<(KindView, ExtractionView)>) -> Seq<usize>
    decreases sels.len(),
{
    if sels.len() == 0 {
        seq![]
    } else {
        matched_nodes(d, sels.drop_last()) + nodes_for(d, sels.last().0)
    }
}

proof fn lemma_matched_below(d: DocView, sels: Seq<(KindView, ExtractionView)>)
    ensures
        all_below(matched_nodes(d, sels), node_count(d)),
    decreases sels.len(),
{
    if sels.len() > 0 {
        lemma_matched_below(d, sels.drop_last());
        let a = matched_nodes(d, sels.drop_last());
        let b = nodes_for(d, sels.last().0);
        match sels.last().0 {
            KindView::Css(sel) => lemma_css_below(d, sel),
            KindView::Xpath(steps) => lemma_xpath_below(d, steps),
        }
        assert forall|i: int| 0 <= i < (a + b).len() implies #[trigger] (a + b)[i] < node_count(d) by {
            if i < a.len() {
                assert((a + b)[i] == a[i]);
            } else {
                assert((a + b)[i] == b[i - a.len()]);
            }
        }
    }
}

/// The name an element description gives its results (`unknown` when it has none).
pub open spec fn element_name_value(el: JsonView) -> Seq<char> {
    match jv_str(jv_get(el, "name"@)) {
        Some(s) => s,
        None => "unknown"@,
    }
}

/// The nested element descriptions, when `children` is an array.
pub open spec fn child_defs(el: JsonView) -> Option<Seq<JsonView>> {
    jv_array(jv_get(el, "children"@))
}

pub proof fn lemma_child_defs_smaller(el: JsonView)
    ensures
        child_defs(el) matches Some(c) ==> decreases_to!(el => c),
{
    if let JsonView::Object(m) = el {
        lemma_lookup_index_range(m, "children"@);
        if let Some(i) = lookup_index(m, "children"@) {
            if let JsonView::Array(c) = m[i].1 {
                assert(decreases_to!(el => m));
                assert(decreases_to!(m => m[i]));
                assert(decreases_to!(m[i] => m[i].1));
                assert(decreases_to!(m[i].1 => c));
            }
        }
    }
}

/// `{ name: { "text": value } }`
pub open spec fn text_entry(name: Seq<char>, value: Seq<char>) -> JsonView {
    JsonView::Object(seq![(name, JsonView::Object(seq![("text"@, JsonView::Str(value))]))])
}

/// `{ name: { "text": value, "children": kids } }`
pub open spec fn tree_entry(name: Seq<char>, value: Seq<char>, kids: Seq<JsonView>) -> JsonView {
    JsonView::Object(
        seq![
            (
                name,
                JsonView::Object(
                    seq![("text"@, JsonView::Str(value)), ("children"@, JsonView::Array(kids))],
                ),
            ),
        ],
    )
}

/// The results of each element description, in order.
pub open spec fn element_table(d: DocView, els: Seq<JsonView>) -> Seq<Seq<JsonView>>
    decreases els, 0int,
{
    Seq::new(
        els.len(),
        |k: int|
            if 0 <= k < els.len() {
                proof {
                    assert(decreases_to!(els => els[k]));
                }
                element_results(d, els[k])
            } else {
                seq![]
            },
    )
}

/// The results that element descriptions give on a page, description by description.
pub open spec fn extract_spec(d: DocView, els: Seq<JsonView>) -> Seq<JsonView>
    decreases els, 1int,
{
    element_table(d, els).flatten_alt()
}

/// The results of one element description: nothing when it gives no selector; otherwise
/// one entry per element its selectors match, holding the value its first selector's
/// extraction takes, and, when it has nested descriptions, their results on the matched
/// element's own HTML parsed as a fragment.
pub open spec fn element_results(d: DocView, el: JsonView) -> Seq<JsonView>
    decreases el, 2int,
{
    let sels = resolve_spec(el);
    if sels.len() == 0 {
        seq![]
    } else {
        let matched = matched_nodes(d, sels);
        let ext = sels[0].1;
        let name = element_name_value(el);
        match child_defs(el) {
            Some(cdefs) => Seq::new(
                matched.len(),
                |t: int|
                    if 0 <= t < matched.len() {
                        proof {
                            lemma_child_defs_smaller(el);
                        }
                        tree_entry(
                            name,
                            extracted_value(d, matched[t], ext),
                            extract_spec(
                                DocView { source: outer_html_value(d, matched[t]), fragment: true },
                                cdefs,
                            ),
                        )
                    } else {
                        JsonView::Null
                    },
            ),
            None => Seq::new(
                matched.len(),
                |t: int|
                    if 0 <= t < matched.len() {
                        text_entry(name, extracted_value(d, matched[t], ext))
                    } else {
                        JsonView::Null
                    },
            ),
        }
    }
}

fn text_entry_exec(name: String, value: String) -> (r: Json)
    ensures
        r@ == text_entry(name@, value@),
{
    let inner = Json::single("text".to_string(), Json::string(value));
    Json::single(name, inner)
}

fn tree_entry_exec(name: String, value: String, kids: Vec<Json>) -> (r: Json)
    ensures
        r@ == tree_entry(name@, value@, jsons_view(kids@)),
{
    let mut m: Vec<(String, Json)> = Vec::new();
    m.push(("text".to_string(), Json::string(value)));
    m.push(("children".to_string(), Json::array(kids)));
    proof {
        lemma_view_object(m);
        assert(Seq::new(m@.len(), |i: int| (m@[i].0@, m@[i].1@)) =~= seq![
            ("text"@, JsonView::Str(value@)),
            ("children"@, JsonView::Array(jsons_view(kids@))),
        ]);
    }
    Json::single(name, Json::Object(m))
}

proof fn lemma_jsons_view_append(a: Seq<Json>, b: Seq<Json>)
    ensures
        jsons_view(a + b) == jsons_view(a) + jsons_view(b),
{
    assert(jsons_view(a + b) =~= jsons_view(a) + jsons_view(b));
}

/// The results of one element description on a page.
fn element_results_exec(document: &Document, el: &Json, base_url: &str) -> (r: Vec<Json>)
    ensures
        jsons_view(r@) == element_results(document@, el@),
    decreases el@,
{
    let ghost d = document@;
    let selectors = resolve_selectors_from_element(el);
    let ghost sv = sels_view(selectors@);
    if selectors.len() == 0 {
        let empty: Vec<Json> = Vec::new();
        assert(jsons_view(empty@) =~= seq![]);
        return empty;
    }
    let name: String = match el.get("name") {
        Some(v) => match v.as_str() {
            Some(s) => s.to_string(),
            None => "unknown".to_string(),
        },
        None => "unknown".to_string(),
    };
    assert(name@ == element_name_value(el@));
    let mut matched: Vec<usize> = Vec::new();
    let mut q: usize = 0;
    assert(sv.take(0) =~= seq![]);
    while q < selectors.len()
        invariant
            q <= selectors@.len(),
            d == document@,
            sv == sels_view(selectors@),
            matched@ == matched_nodes(d, sv.take(q as int)),
        decreases selectors@.len() - q,
    {
        assert(sv.take(q + 1).drop_last() =~= sv.take(q as int));
        assert(sv.take(q + 1).last().0 == selectors@[q as int].0@);
        let mut m = match &selectors[q].0 {
            SelectorKind::Css(sel) => document.select_css(sel),
            SelectorKind::Xpath(steps) => document.xpath_select(steps),
        };
        matched.append(&mut m);
        q = q + 1;
    }
    assert(sv.take(q as int) =~= sv);
    proof {
        lemma_matched_below(d, sv);
    }
    let extraction = &selectors[0].1;
    assert(extraction@ == sv[0].1);
    let children: Option<&Vec<Json>> = match el.get("children") {
        Some(v) => v.as_array(),
        None => None,
    };
    let ghost entries = element_results(d, el@);
    let mut out: Vec<Json> = Vec::new();
    let mut t: usize = 0;
    assert(jsons_view(out@) =~= entries.take(0));
    while t < matched.len()
        invariant
            t <= matched@.len(),
            d == document@,
            matched@ == matched_nodes(d, sv),
            all_below(matched@, node_count(d)),
            sv == resolve_spec(el@),
            sv.len() > 0,
            extraction@ == sv[0].1,
            name@ == element_name_value(el@),
            entries == element_results(d, el@),
            entries.len() == matched@.len(),
            match children {
                Some(c) => child_defs(el@) == Some(jsons_view(c@)),
                None => child_defs(el@) is None,
            },
            jsons_view(out@) == entries.take(t as int),
        decreases matched@.len() - t,
    {
        let i = matched[t];
        assert(i < node_count(d));
        let value = document.extract_value(i, extraction);
        let entry = match children {
            Some(cdefs) => {
                let inner_html = document.outer_html(i);
                let inner_doc = Document::parse_fragment(inner_html.as_str());
                proof {
                    lemma_child_defs_smaller(el@);
                }
                let kids = extract_elements_from_doc(&inner_doc, cdefs, base_url);
                tree_entry_exec(name.clone(), value, kids)
            },
            None => text_entry_exec(name.clone(), value),
        };
        assert(entry@ == entries[t as int]);
        let ghost before = out@;
        out.push(entry);
        assert(jsons_view(out@) =~= jsons_view(before).push(entry@));
        assert(entries.take(t + 1) =~= entries.take(t as int).push(entries[t as int]));
        t = t + 1;
    }
    assert(entries.take(t as int) =~= entries);
    out
}

/// The results that element descriptions give on a page (`base_url` is the page's address;
/// the results do not depend on it).
pub fn extract_elements_from_doc(document: &Document, elements: &Vec<Json>, base_url: &str) -> (r: Vec<Json>)
    ensures
        jsons_view(r@) == extract_spec(document@, jsons_view(elements@)),
    decreases jsons_view(elements@),
{
    let ghost ev = jsons_view(elements@);
    let ghost d = document@;
    let ghost per = element_table(d, ev);
    let mut results: Vec<Json> = Vec::new();
    let mut k: usize = 0;
    assert(per.take(0).flatten_alt() =~= seq![]);
    assert(jsons_view(results@) =~= seq![]);
    while k < elements.len()
        invariant
            k <= elements@.len(),
            ev == jsons_view(elements@),
            d == document@,
            per.len() == ev.len(),
            forall|q: int| 0 <= q < ev.len() ==> #[trigger] per[q] == element_results(d, ev[q]),
            jsons_view(results@) == per.take(k as int).flatten_alt(),
        decreases elements@.len() - k,
    {
        proof {
            assert(ev[k as int] == elements@[k as int]@);
            assert(decreases_to!(ev => ev[k as int]));
        }
        let mut part = element_results_exec(document, &elements[k], base_url);
        let ghost before = results@;
        let ghost pv = part@;
        results.append(&mut part);
        proof {
            lemma_jsons_view_append(before, pv);
            assert(per.take(k + 1).drop_last() =~= per.take(k as int));
            assert(per.take(k + 1).last() == per[k as int]);
        }
        k = k + 1;
    }
    assert(per.take(k as int) =~= per);
    results
}


/// The absolute address that `href` denotes relative to `base`, when `base` parses as a URL
/// and the join succeeds.
pub uninterp spec fn resolved_href(base: Seq<char>, href: Seq<char>) -> Option<Seq<char>>;

/// Trusted: `url::Url::parse(base)` followed by `Url::join(href)`, serialized by
/// `to_string`; the contract names the result.
#[verifier::external_body]
fn resolve_href(base: &str, href: &str) -> (r: Option<String>)
    ensures
        match r {
            Some(s) => resolved_href(base@, href@) == Some(s@),
            None => resolved_href(base@, href@) is None,
        },
{
    url::Url::parse(base).ok().and_then(|b| b.join(href).ok()).map(|u| u.to_string())
}

/// The first of the elements `ms` whose `href` resolves against `current`, resolved.
pub open spec fn first_link(d: DocView, ms: Seq<usize>, current: Seq<char>) -> Option<Seq<char>>
    decreases ms.len(),
{
    if ms.len() == 0 {
        None
    } else {
        match attribute_of(d, node_id(d, ms[0] as int), "href"@) {
            Some(h) => match resolved_href(current, h) {
                Some(a) => Some(a),
                None => first_link(d, ms.drop_first(), current),
            },
            None => first_link(d, ms.drop_first(), current),
        }
    }
}

/// The next page: the first link, among the elements the pagination selector matches, that
/// resolves against the current address.
pub open spec fn next_page_spec(d: DocView, pagination: Seq<char>, current: Seq<char>) -> Option<Seq<char>> {
    match selector_spec(pagination) {
        Some((k, _)) => first_link(d, nodes_for(d, k), current),
        None => None,
    }
}

/// Finds the address of the next page to scrape.
pub fn find_next_page_url(document: &Document, pagination_selector: &str, current_url: &str) -> (r: Option<String>)
    ensures
        match r {
            Some(u) => next_page_spec(document@, pagination_selector@, current_url@) == Some(u@),
            None => next_page_spec(document@, pagination_selector@, current_url@) is None,
        },
{
    let ghost d = document@;
    let parsed = parse_selector(pagination_selector);
    let kind = match parsed {
        Some((k, _)) => k,
        None => {
            return None;
        },
    };
    let matched = match &kind {
        SelectorKind::Css(sel) => document.select_css(sel),
        SelectorKind::Xpath(steps) => document.xpath_select(steps),
    };
    proof {
        match kind@ {
            KindView::Css(sel) => lemma_css_below(d, sel),
            KindView::Xpath(steps) => lemma_xpath_below(d, steps),
        }
    }
    assert(matched@ == nodes_for(d, kind@));
    let mut i: usize = 0;
    assert(matched@.skip(0) =~= matched@);
    while i < matched.len()
        invariant
            i <= matched@.len(),
            d == document@,
            all_below(matched@, node_count(d)),
            next_page_spec(d, pagination_selector@, current_url@) == first_link(
                d,
                matched@.skip(i as int),
                current_url@,
            ),
        decreases matched@.len() - i,
    {
        assert(matched@.skip(i as int)[0] == matched@[i as int]);
        assert(matched@.skip(i as int).drop_first() =~= matched@.skip(i + 1));
        match document.attr(matched[i], "href") {
            Some(href) => match resolve_href(current_url, href.as_str()) {
                Some(abs) => {
                    return Some(abs);
                },
                None => {},
            },
            None => {},
        }
        i = i + 1;
    }
    None
}

} // verus!
