//! Parsing of the selectors that describe what a job extracts: CSS selectors with an
//! optional `::attr(..)`, `::html` or `::text` suffix, and a common subset of XPath.

use vstd::prelude::*;
use vstd::string::*;
use crate::text::{
    ascii_alphanumeric, chars_of, find_sub, find_sub_at, first_hit, first_hit_at,
    lemma_first_hit_bound, lemma_first_hit_is, lemma_trim_untouched, parse_usize, scan_hits,
    parse_usize_at, push_char, starts_with, starts_with_at, string_of_range, trim, trim_end,
    lemma_find_sub_bound,
    trim_end_range, trim_range, trim_start, trim_start_range, Scan, Trim,
};

verus! {

#[verifier::external_type_specification]
#[verifier::external_body]
pub struct ExCssSelector(scraper::Selector);

/// Whether `scraper::Selector::parse` accepts `source`.
pub uninterp spec fn css_selector_accepts(source: Seq<char>) -> bool;

/// Compiles a CSS selector group.
///
/// Trusted: calls `scraper::Selector::parse`; the contract claims only that the result is
/// present exactly when the parser accepts `source` (a name for that decision).
#[verifier::external_body]
fn compile_css(source: &str) -> (r: Option<scraper::Selector>)
    ensures
        r is Some <==> css_selector_accepts(source@),
{
    scraper::Selector::parse(source).ok()
}

/// A compiled CSS selector together with its source text.
pub struct CssSelector {
    compiled: scraper::Selector,
    source: String,
}

impl CssSelector {
    pub closed spec fn view(&self) -> Seq<char> {
        self.source@
    }

    /// The selector that `scraper::Selector::parse` made of the source.
    pub closed spec fn selector(&self) -> scraper::Selector {
        self.compiled
    }

    /// The compiled selector that this one holds.
    pub fn compiled(&self) -> (r: &scraper::Selector)
        ensures
            *r == self.selector(),
    {
        &self.compiled
    }

    pub fn source(&self) -> (r: &String)
        ensures
            r@ == self.view(),
    {
        &self.source
    }
}

#[derive(Debug, Clone, Copy, PartialEq, Eq, Structural)]
pub enum XpathAxis {
    Child,
    Descendant,
}

pub enum XpathPredicate {
    AttrEquals(String, String),
    AttrExists(String),
    Index(usize),
}

pub enum PredicateView {
    AttrEquals(Seq<char>, Seq<char>),
    AttrExists(Seq<char>),
    Index(usize),
}

impl View for XpathPredicate {
    type V = PredicateView;

    open spec fn view(&self) -> PredicateView {
        match self {
            XpathPredicate::AttrEquals(a, v) => PredicateView::AttrEquals(a@, v@),
            XpathPredicate::AttrExists(a) => PredicateView::AttrExists(a@),
            XpathPredicate::Index(n) => PredicateView::Index(*n),
        }
    }
}

pub struct XpathStep {
    pub axis: XpathAxis,
    pub tag: String,
    pub predicates: Vec<XpathPredicate>,
}

pub struct StepView {
    pub axis: XpathAxis,
    pub tag: Seq<char>,
    pub predicates: Seq<PredicateView>,
}

pub open spec fn preds_view(p: Seq<XpathPredicate>) -> Seq<PredicateView> {
    p.map_values(|x: XpathPredicate| x@)
}

impl View for XpathStep {
    type V = StepView;

    open spec fn view(&self) -> StepView {
        StepView { axis: self.axis, tag: self.tag@, predicates: preds_view(self.predicates@) }
    }
}

pub open spec fn steps_view(s: Seq<XpathStep>) -> Seq<StepView> {
    s.map_values(|x: XpathStep| x@)
}

/// What is taken from a matched element.
pub enum Extraction {
    Text,
    Html,
    Attribute(String),
}

pub enum ExtractionView {
    Text,
    Html,
    Attribute(Seq<char>),
}

impl View for Extraction {
    type V = ExtractionView;

    open spec fn view(&self) -> ExtractionView {
        match self {
            Extraction::Text => ExtractionView::Text,
            Extraction::Html => ExtractionView::Html,
            Extraction::Attribute(a) => ExtractionView::Attribute(a@),
        }
    }
}

pub enum SelectorKind {
    Css(CssSelector),
    Xpath(Vec<XpathStep>),
}

pub enum KindView {
    Css(Seq<char>),
    Xpath(Seq<StepView>),
}

impl View for SelectorKind {
    type V = KindView;

    open spec fn view(&self) -> KindView {
        match self {
            SelectorKind::Css(c) => KindView::Css(c.view()),
            SelectorKind::Xpath(s) => KindView::Xpath(steps_view(s@)),
        }
    }
}

pub open spec fn parsed_view(r: Option<(SelectorKind, Extraction)>) -> Option<(KindView, ExtractionView)> {
    match r {
        Some((k, e)) => Some((k@, e@)),
        None => None,
    }
}

/// The predicate that a bracketed XPath condition denotes: `@name='value'`, `@name`,
/// or a 1-based position; anything else denotes none.
pub open spec fn predicate_spec(raw: Seq<char>) -> Option<PredicateView> {
    let s = trim(raw, Trim::Whitespace);
    if s.len() > 0 && s[0] == '@' {
        let inner = s.drop_first();
        let eq = first_hit(inner, Scan::Char('='));
        if eq < inner.len() {
            Some(
                PredicateView::AttrEquals(
                    trim(inner.take(eq as int), Trim::Whitespace),
                    trim(
                        trim(trim(inner.skip(eq + 1int), Trim::Whitespace), Trim::Char('"')),
                        Trim::Char('\''),
                    ),
                ),
            )
        } else {
            Some(PredicateView::AttrExists(trim(inner, Trim::Whitespace)))
        }
    } else {
        match parse_usize(s) {
            Some(n) => Some(PredicateView::Index(n)),
            None => None,
        }
    }
}

/// The predicates read from the bracketed conditions at the start of `rem`, and what follows
/// them.
pub open spec fn predicates_spec(rem: Seq<char>, acc: Seq<PredicateView>) -> (Seq<PredicateView>, Seq<char>)
    decreases rem.len(),
{
    if rem.len() > 0 && rem[0] == '[' {
        let close = first_hit(rem, Scan::Char(']'));
        if 1 <= close < rem.len() {
            let acc2 = match predicate_spec(rem.subrange(1, close as int)) {
                Some(p) => acc.push(p),
                None => acc,
            };
            predicates_spec(rem.skip(close + 1int), acc2)
        } else {
            (acc, rem)
        }
    } else {
        (acc, rem)
    }
}

pub proof fn lemma_predicates_shrink(rem: Seq<char>, acc: Seq<PredicateView>)
    ensures
        predicates_spec(rem, acc).1.len() <= rem.len(),
    decreases rem.len(),
{
    if rem.len() > 0 && rem[0] == '[' {
        let close = first_hit(rem, Scan::Char(']'));
        if 1 <= close < rem.len() {
            let acc2 = match predicate_spec(rem.subrange(1, close as int)) {
                Some(p) => acc.push(p),
                None => acc,
            };
            lemma_predicates_shrink(rem.skip(close + 1int), acc2);
        }
    }
}

/// The steps and extraction read from the path `rem`, after `steps` and `ext` so far.
pub open spec fn xpath_loop(rem: Seq<char>, steps: Seq<StepView>, ext: ExtractionView) -> (Seq<StepView>, ExtractionView)
    decreases rem.len(),
{
    if rem.len() == 0 || rem[0] != '/' {
        (steps, ext)
    } else {
        let desc = rem.len() >= 2 && rem[1] == '/';
        let axis = if desc {
            XpathAxis::Descendant
        } else {
            XpathAxis::Child
        };
        let rest = if desc {
            rem.skip(2)
        } else {
            rem.skip(1)
        };
        if starts_with(rest, "text()"@) {
            xpath_loop(rest.skip("text()"@.len() as int), steps, ExtractionView::Text)
        } else if rest.len() > 0 && rest[0] == '@' {
            let name = rest.drop_first();
            (steps, ExtractionView::Attribute(name.take(first_hit(name, Scan::NotNameChar) as int)))
        } else {
            let te = first_hit(rest, Scan::StepEnd);
            let tag = if te == 0 {
                seq!['*']
            } else {
                rest.take(te as int)
            };
            proof {
                lemma_first_hit_bound(rest, Scan::StepEnd);
                lemma_predicates_shrink(rest.skip(te as int), seq![]);
            }
            let (preds, after) = predicates_spec(rest.skip(te as int), seq![]);
            xpath_loop(
                after,
                steps.push(StepView { axis, tag, predicates: preds }),
                ext,
            )
        }
    }
}

/// Whether `s` ends with `p`.
pub open spec fn ends_with(s: Seq<char>, p: Seq<char>) -> bool {
    p.len() <= s.len() && s.skip(s.len() - p.len()) == p
}

/// The path of an XPath selector: white space and the parentheses of a group taken off
/// its ends. A final `text()` keeps its own closing parenthesis, on purpose: taking every
/// closing parenthesis off the end would turn `//p/text()` into a second step named `text`
/// that matches nothing, where XPath means the text of `p`.
pub open spec fn xpath_path(t: Seq<char>) -> Seq<char> {
    let s1 = trim_start(trim(t, Trim::Whitespace), Trim::Char('('));
    let s2 = trim_end(s1, Trim::Char(')'));
    if s2.len() < s1.len() && ends_with(s2, "text("@) {
        s1.take(s2.len() + 1int)
    } else {
        s2
    }
}

/// The XPath selector denoted by `t`: `None` when it has no step. A `text()` step selects
/// the text of what the steps before it match, and adds no step.
pub open spec fn xpath_spec(t: Seq<char>) -> Option<(KindView, ExtractionView)> {
    let s = xpath_path(t);
    let (steps, ext) = xpath_loop(s, seq![], ExtractionView::Text);
    if steps.len() == 0 {
        None
    } else {
        Some((KindView::Xpath(steps), ext))
    }
}

/// The CSS part of a selector and what it extracts, read from its suffix.
pub open spec fn css_split(t: Seq<char>) -> (Seq<char>, ExtractionView) {
    match find_sub(t, "::attr("@) {
        Some(i) => (
            t.take(i as int),
            ExtractionView::Attribute(trim_end(t.skip(i + "::attr("@.len() as int), Trim::Char(')'))),
        ),
        None => match find_sub(t, "::html"@) {
            Some(i) => (t.take(i as int), ExtractionView::Html),
            None => match find_sub(t, "::text"@) {
                Some(i) => (t.take(i as int), ExtractionView::Text),
                None => (t, ExtractionView::Text),
            },
        },
    }
}

/// Whether a trimmed selector is read as XPath: it starts with `/` or `(//`.
pub open spec fn looks_like_xpath(t: Seq<char>) -> bool {
    (t.len() > 0 && t[0] == '/') || (t.len() >= 3 && t[0] == '(' && t[1] == '/' && t[2] == '/')
}

/// The selector denoted by `raw`.
pub open spec fn selector_spec(raw: Seq<char>) -> Option<(KindView, ExtractionView)> {
    let t = trim(raw, Trim::Whitespace);
    if t.len() == 0 {
        None
    } else if looks_like_xpath(t) {
        xpath_spec(t)
    } else {
        let (css, ext) = css_split(t);
        if css_selector_accepts(css) {
            Some((KindView::Css(css), ext))
        } else {
            None
        }
    }
}


pub open spec fn predicate_option_view(r: Option<XpathPredicate>) -> Option<PredicateView> {
    match r {
        Some(p) => Some(p@),
        None => None,
    }
}

fn predicate_at(v: &Vec<char>, lo: usize, hi: usize) -> (r: Option<XpathPredicate>)
    requires
        lo <= hi <= v@.len(),
    ensures
        predicate_option_view(r) == predicate_spec(v@.subrange(lo as int, hi as int)),
{
    let (a, b) = trim_range(v, lo, hi, Trim::Whitespace);
    let ghost s = v@.subrange(a as int, b as int);
    if a < b && v[a] == '@' {
        let ghost inner = s.drop_first();
        assert(inner =~= v@.subrange(a + 1, b as int));
        let eq = first_hit_at(v, a + 1, b, Scan::Char('='));
        if eq < b - (a + 1) {
            assert(inner.take(eq as int) =~= v@.subrange(a + 1, a + 1 + eq));
            assert(inner.skip(eq + 1int) =~= v@.subrange(a + 2 + eq, b as int));
            let (n1, n2) = trim_range(v, a + 1, a + 1 + eq, Trim::Whitespace);
            let (x1, x2) = trim_range(v, a + 2 + eq, b, Trim::Whitespace);
            let (y1, y2) = trim_range(v, x1, x2, Trim::Char('"'));
            let (z1, z2) = trim_range(v, y1, y2, Trim::Char('\''));
            Some(XpathPredicate::AttrEquals(string_of_range(v, n1, n2), string_of_range(v, z1, z2)))
        } else {
            let (n1, n2) = trim_range(v, a + 1, b, Trim::Whitespace);
            Some(XpathPredicate::AttrExists(string_of_range(v, n1, n2)))
        }
    } else {
        match parse_usize_at(v, a, b) {
            Some(n) => Some(XpathPredicate::Index(n)),
            None => None,
        }
    }
}

/// Reads one bracketed XPath condition (without its brackets).
pub fn parse_xpath_predicate(s: &str) -> (r: Option<XpathPredicate>)
    ensures
        predicate_option_view(r) == predicate_spec(s@),
{
    let v = chars_of(s);
    assert(v@.subrange(0, v@.len() as int) =~= v@);
    predicate_at(&v, 0, v.len())
}

/// A string holding the single character `*`.
fn star() -> (r: String)
    ensures
        r@ == seq!['*'],
{
    let mut s = String::new();
    push_char(&mut s, '*');
    assert(s@ =~= seq!['*']);
    s
}

fn parse_xpath_chars(v: &Vec<char>, lo: usize, hi: usize) -> (r: Option<(SelectorKind, Extraction)>)
    requires
        lo <= hi <= v@.len(),
    ensures
        parsed_view(r) == xpath_spec(v@.subrange(lo as int, hi as int)),
{
    let (a0, b0) = trim_range(v, lo, hi, Trim::Whitespace);
    let a = trim_start_range(v, a0, b0, Trim::Char('('));
    let b1 = trim_end_range(v, a, b0, Trim::Char(')'));
    let call_lit = chars_of("text(");
    proof {
        reveal_strlit("text(");
    }
    let keeps = b1 < b0 && b1 - a >= 5 && starts_with_at(v, b1 - 5, b1, &call_lit);
    proof {
        let s1 = v@.subrange(a as int, b0 as int);
        let s2 = v@.subrange(a as int, b1 as int);
        if b1 < b0 {
            assert(s1.take(s2.len() + 1int) =~= v@.subrange(a as int, b1 + 1));
        }
        if b1 - a >= 5 {
            assert(s2.skip(s2.len() - 5) =~= v@.subrange(b1 - 5, b1 as int));
            assert(v@.subrange(b1 - 5, b1 as int).take(5) =~= v@.subrange(b1 - 5, b1 as int));
        }
    }
    let b = if keeps {
        b1 + 1
    } else {
        b1
    };
    assert(v@.subrange(a as int, b as int) == xpath_path(v@.subrange(lo as int, hi as int)));
    let text_lit = chars_of("text()");
    let mut steps: Vec<XpathStep> = Vec::new();
    let mut ext = Extraction::Text;
    let mut pos = a;
    assert(steps_view(steps@) =~= seq![]);
    loop
        invariant_except_break
            xpath_loop(v@.subrange(a as int, b as int), seq![], ExtractionView::Text) == xpath_loop(
                v@.subrange(pos as int, b as int),
                steps_view(steps@),
                ext@,
            ),
        invariant
            a <= pos <= b <= v@.len(),
            text_lit@ == "text()"@,
        ensures
            xpath_loop(v@.subrange(a as int, b as int), seq![], ExtractionView::Text) == (
                steps_view(steps@),
                ext@,
            ),
        decreases b - pos,
    {
        let ghost rem = v@.subrange(pos as int, b as int);
        if pos == b {
            break;
        }
        if v[pos] != '/' {
            break;
        }
        let desc = pos + 1 < b && v[pos + 1] == '/';
        let axis = if desc {
            XpathAxis::Descendant
        } else {
            XpathAxis::Child
        };
        let rest = if desc {
            pos + 2
        } else {
            pos + 1
        };
        assert(v@.subrange(rest as int, b as int) =~= (if desc {
            rem.skip(2)
        } else {
            rem.skip(1)
        }));
        if starts_with_at(v, rest, b, &text_lit) {
            assert(v@.subrange(rest + text_lit@.len(), b as int) =~= v@.subrange(
                rest as int,
                b as int,
            ).skip("text()"@.len() as int));
            ext = Extraction::Text;
            pos = rest + text_lit.len();
            continue;
        }
        if rest < b && v[rest] == '@' {
            let ghost name = v@.subrange(rest as int, b as int).drop_first();
            assert(name =~= v@.subrange(rest + 1, b as int));
            let n = first_hit_at(v, rest + 1, b, Scan::NotNameChar);
            assert(name.take(n as int) =~= v@.subrange(rest + 1, rest + 1 + n));
            ext = Extraction::Attribute(string_of_range(v, rest + 1, rest + 1 + n));
            break;
        }
        let te = first_hit_at(v, rest, b, Scan::StepEnd);
        let tag = if te == 0 {
            star()
        } else {
            string_of_range(v, rest, rest + te)
        };
        assert(te != 0 ==> v@.subrange(rest as int, rest + te) =~= v@.subrange(
            rest as int,
            b as int,
        ).take(te as int));
        assert(v@.subrange(rest + te, b as int) =~= v@.subrange(rest as int, b as int).skip(
            te as int,
        ));
        let start = rest + te;
        let mut p = start;
        let mut preds: Vec<XpathPredicate> = Vec::new();
        assert(preds_view(preds@) =~= seq![]);
        loop
            invariant
                start <= p <= b <= v@.len(),
                predicates_spec(v@.subrange(start as int, b as int), seq![]) == predicates_spec(
                    v@.subrange(p as int, b as int),
                    preds_view(preds@),
                ),
            ensures
                start <= p <= b,
                predicates_spec(v@.subrange(start as int, b as int), seq![]) == (
                    preds_view(preds@),
                    v@.subrange(p as int, b as int),
                ),
            decreases b - p,
        {
            if !(p < b && v[p] == '[') {
                break;
            }
            let close = first_hit_at(v, p, b, Scan::Char(']'));
            if close == b - p {
                break;
            }
            proof {
                lemma_first_hit_bound(v@.subrange(p as int, b as int), Scan::Char(']'));
            }
            assert(close >= 1);
            assert(v@.subrange(p as int, b as int).subrange(1, close as int) =~= v@.subrange(
                p + 1,
                p + close,
            ));
            assert(v@.subrange(p as int, b as int).skip(close + 1int) =~= v@.subrange(
                p + close + 1,
                b as int,
            ));
            let pr = predicate_at(v, p + 1, p + close);
            match pr {
                Some(x) => {
                    proof {
                        assert(preds_view(preds@.push(x)) =~= preds_view(preds@).push(x@));
                    }
                    preds.push(x);
                },
                None => {},
            }
            p = p + close + 1;
        }
        let step = XpathStep { axis, tag, predicates: preds };
        proof {
            assert(steps_view(steps@.push(step)) =~= steps_view(steps@).push(step@));
        }
        steps.push(step);
        pos = p;
    }
    if steps.len() == 0 {
        None
    } else {
        Some((SelectorKind::Xpath(steps), ext))
    }
}

/// Reads an XPath selector.
pub fn parse_xpath(raw: &str) -> (r: Option<(SelectorKind, Extraction)>)
    ensures
        parsed_view(r) == xpath_spec(raw@),
{
    let v = chars_of(raw);
    assert(v@.subrange(0, v@.len() as int) =~= v@);
    parse_xpath_chars(&v, 0, v.len())
}


/// Reads a selector: XPath when it starts with `/` or `(//`, CSS otherwise; `None` when it is
/// empty or not understood.
pub fn parse_selector(raw: &str) -> (r: Option<(SelectorKind, Extraction)>)
    ensures
        parsed_view(r) == selector_spec(raw@),
{
    let v = chars_of(raw);
    assert(v@.subrange(0, v@.len() as int) =~= v@);
    let (a, b) = trim_range(&v, 0, v.len(), Trim::Whitespace);
    let ghost t = v@.subrange(a as int, b as int);
    if a == b {
        return None;
    }
    if v[a] == '/' || (b - a >= 3 && v[a] == '(' && v[a + 1] == '/' && v[a + 2] == '/') {
        return parse_xpath_chars(&v, a, b);
    }
    let attr_lit = chars_of("::attr(");
    let html_lit = chars_of("::html");
    let text_lit = chars_of("::text");
    let (css_end, ext) = match find_sub_at(&v, a, b, &attr_lit) {
        Some(i) => {
            proof {
                lemma_find_sub_bound(t, attr_lit@);
            }
            let from = a + i + attr_lit.len();
            let e = trim_end_range(&v, from, b, Trim::Char(')'));
            assert(t.skip(i + "::attr("@.len() as int) =~= v@.subrange(from as int, b as int));
            (a + i, Extraction::Attribute(string_of_range(&v, from, e)))
        },
        None => match find_sub_at(&v, a, b, &html_lit) {
            Some(i) => {
                proof {
                    lemma_find_sub_bound(t, html_lit@);
                }
                (a + i, Extraction::Html)
            },
            None => match find_sub_at(&v, a, b, &text_lit) {
                Some(i) => {
                    proof {
                        lemma_find_sub_bound(t, text_lit@);
                    }
                    (a + i, Extraction::Text)
                },
                None => (b, Extraction::Text),
            },
        },
    };
    assert(css_end < b ==> t.take(css_end - a) =~= v@.subrange(a as int, css_end as int));
    assert(css_end == b ==> t =~= v@.subrange(a as int, css_end as int));
    let css = string_of_range(&v, a, css_end);
    assert(css@ == css_split(t).0);
    assert(ext@ == css_split(t).1);
    assert(!looks_like_xpath(t));
    assert(t == trim(raw@, Trim::Whitespace));
    match compile_css(css.as_str()) {
        Some(c) => Some((SelectorKind::Css(CssSelector { compiled: c, source: css }), ext)),
        None => None,
    }
}

/// A character of a plain path: an ASCII letter or digit, or one of `/`, `@`, `-` and `_`.
spec fn plain_path_char(c: char) -> bool {
    ascii_alphanumeric(c) || c == '/' || c == '@' || c == '-' || c == '_'
}

/// A path `//tag/@name`, with a tag of ASCII letters and digits and a name of ASCII
/// letters, digits, `-` and `_`, selects the `tag` elements anywhere in the page and
/// extracts exactly the attribute `name`, its hyphens and underscores included; read as a
/// selector, it is that XPath.
pub proof fn lemma_xpath_attribute_path(tag: Seq<char>, name: Seq<char>)
    requires
        tag.len() > 0,
        forall|k: int| 0 <= k < tag.len() ==> ascii_alphanumeric(#[trigger] tag[k]),
        forall|k: int|
            0 <= k < name.len() ==> ascii_alphanumeric(#[trigger] name[k]) || name[k] == '-'
                || name[k] == '_',
    ensures
        xpath_spec("//"@ + tag + "/@"@ + name) == Some(
            (
                KindView::Xpath(
                    seq![StepView { axis: XpathAxis::Descendant, tag: tag, predicates: seq![] }],
                ),
                ExtractionView::Attribute(name),
            ),
        ),
        selector_spec("//"@ + tag + "/@"@ + name) == xpath_spec("//"@ + tag + "/@"@ + name),
{
    reveal_strlit("//");
    reveal_strlit("/@");
    reveal_strlit("text()");
    let t = "//"@ + tag + "/@"@ + name;
    let tl = tag.len() as int;
    assert forall|k: int| 0 <= k < t.len() implies plain_path_char(#[trigger] t[k]) by {
        if k < 2 {
            assert(t[k] == '/');
        } else if k < 2 + tl {
            assert(t[k] == tag[k - 2]);
        } else if k == 2 + tl {
            assert(t[k] == '/');
        } else if k == 3 + tl {
            assert(t[k] == '@');
        } else {
            assert(t[k] == name[k - 4 - tl]);
        }
    }
    assert(t[0] == '/' && t[1] == '/');
    assert(plain_path_char(t.last()));
    lemma_trim_untouched(t, Trim::Whitespace);
    lemma_trim_untouched(t, Trim::Char('('));
    lemma_trim_untouched(t, Trim::Char(')'));
    assert(xpath_path(t) == t);
    // The first step: `//tag`.
    let rest = t.skip(2);
    assert(rest =~= tag + "/@"@ + name);
    assert(!starts_with(rest, "text()"@)) by {
        if starts_with(rest, "text()"@) {
            assert(rest.take(6)[4] == '(');
            assert(rest[4] == t[6]);
        }
    }
    assert(rest[0] == tag[0]);
    assert forall|j: int| 0 <= j < tl implies !scan_hits(Scan::StepEnd, #[trigger] rest[j]) by {
        assert(rest[j] == tag[j]);
    }
    assert(rest[tl] == '/');
    lemma_first_hit_is(rest, Scan::StepEnd, tl);
    assert(rest.take(tl) =~= tag);
    let r2 = rest.skip(tl);
    assert(r2 =~= "/@"@ + name);
    assert(r2[0] == '/');
    assert(predicates_spec(r2, seq![]) == (Seq::<PredicateView>::empty(), r2));
    let step = StepView { axis: XpathAxis::Descendant, tag: tag, predicates: seq![] };
    assert(xpath_loop(t, seq![], ExtractionView::Text) == xpath_loop(
        r2,
        seq![step],
        ExtractionView::Text,
    ));
    // Then `/@name`.
    assert(r2[1] == '@');
    let r3 = r2.skip(1);
    assert(r3 =~= seq!['@'] + name);
    assert(!starts_with(r3, "text()"@)) by {
        if starts_with(r3, "text()"@) {
            assert(r3.take(6)[0] == 't');
        }
    }
    assert(r3.drop_first() =~= name);
    assert forall|j: int| 0 <= j < name.len() implies !scan_hits(
        Scan::NotNameChar,
        #[trigger] name[j],
    ) by {
        if ascii_alphanumeric(name[j]) {
            assert((name[j] as u32) < 128);
        }
    }
    lemma_first_hit_is(name, Scan::NotNameChar, name.len() as int);
    assert(name.take(name.len() as int) =~= name);
    assert(xpath_loop(r2, seq![step], ExtractionView::Text) == (
        seq![step],
        ExtractionView::Attribute(name),
    ));
}

} // verus!
