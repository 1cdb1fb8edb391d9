//! String helpers over character sequences, with their specifications.

use vstd::prelude::*;

verus! {

/// The characters of `s`, in order.
///
/// Trusted: calls `str::chars` and collects; the contract claims the vector holds
/// exactly the characters of `s`.
#[verifier::external_body]
pub(crate) fn chars_of(s: &str) -> (r: Vec<char>)
    ensures
        r@ == s@,
{
    s.chars().collect()
}

/// A string made of the characters `v[lo..hi]`.
///
/// Trusted: collects a slice of `char` into a `String` (std `FromIterator<&char>`);
/// the contract claims the string holds exactly those characters.
#[verifier::external_body]
pub(crate) fn string_of_range(v: &Vec<char>, lo: usize, hi: usize) -> (r: String)
    requires
        lo <= hi <= v@.len(),
    ensures
        r@ == v@.subrange(lo as int, hi as int),
{
    v[lo..hi].iter().collect()
}

/// Equality of two string slices.
///
/// Trusted: std `<str as PartialEq>::eq`, which compares the characters.
#[verifier::external_body]
pub(crate) fn str_eq(a: &str, b: &str) -> (r: bool)
    ensures
        r == (a@ == b@),
{
    a == b
}

/// Appends one character.
///
/// Trusted: std `String::push`, which adds `c` at the end.
#[verifier::external_body]
pub(crate) fn push_char(s: &mut String, c: char)
    ensures
        final(s)@ == old(s)@.push(c),
{
    s.push(c)
}

} // verus!

verus! {

/// `char::is_whitespace`: the characters with the Unicode `White_Space` property.
pub open spec fn is_whitespace(c: char) -> bool {
    let x = c as u32;
    ||| 0x9 <= x <= 0xd
    ||| x == 0x20
    ||| x == 0x85
    ||| x == 0xa0
    ||| x == 0x1680
    ||| 0x2000 <= x <= 0x200a
    ||| x == 0x2028
    ||| x == 0x2029
    ||| x == 0x202f
    ||| x == 0x205f
    ||| x == 0x3000
}

/// Whether `c` is white space.
pub fn char_is_whitespace(c: char) -> (r: bool)
    ensures
        r == is_whitespace(c),
{
    let x = c as u32;
    (0x9 <= x && x <= 0xd) || x == 0x20 || x == 0x85 || x == 0xa0 || x == 0x1680 || (0x2000 <= x
        && x <= 0x200a) || x == 0x2028 || x == 0x2029 || x == 0x202f || x == 0x205f || x == 0x3000
}

/// What a trim removes from the ends of a string.
#[derive(Clone, Copy)]
pub enum Trim {
    /// Unicode white space, as `str::trim`.
    Whitespace,
    /// The white space of JSON: space, tab, line feed and carriage return.
    JsonSpace,
    Char(char),
}

pub open spec fn trims(t: Trim, c: char) -> bool {
    match t {
        Trim::Whitespace => is_whitespace(c),
        Trim::JsonSpace => c == ' ' || c == '\t' || c == '\n' || c == '\r',
        Trim::Char(x) => c == x,
    }
}

fn trims_exec(t: Trim, c: char) -> (r: bool)
    ensures
        r == trims(t, c),
{
    match t {
        Trim::Whitespace => char_is_whitespace(c),
        Trim::JsonSpace => c == ' ' || c == '\t' || c == '\n' || c == '\r',
        Trim::Char(x) => c == x,
    }
}

/// The number of leading characters that `t` removes.
pub open spec fn lead_len(s: Seq<char>, t: Trim) -> nat
    decreases s.len(),
{
    if s.len() > 0 && trims(t, s[0]) {
        1 + lead_len(s.drop_first(), t)
    } else {
        0
    }
}

/// The number of trailing characters that `t` removes.
pub open spec fn trail_len(s: Seq<char>, t: Trim) -> nat
    decreases s.len(),
{
    if s.len() > 0 && trims(t, s.last()) {
        1 + trail_len(s.drop_last(), t)
    } else {
        0
    }
}

/// `str::trim_start_matches` (or `trim_start` for white space).
pub open spec fn trim_start(s: Seq<char>, t: Trim) -> Seq<char> {
    s.skip(lead_len(s, t) as int)
}

/// `str::trim_end_matches` (or `trim_end` for white space).
pub open spec fn trim_end(s: Seq<char>, t: Trim) -> Seq<char> {
    s.take(s.len() - trail_len(s, t))
}

/// `str::trim_matches` (or `trim` for white space): both ends.
pub open spec fn trim(s: Seq<char>, t: Trim) -> Seq<char> {
    trim_end(trim_start(s, t), t)
}

proof fn lemma_lead_len(s: Seq<char>, t: Trim)
    ensures
        lead_len(s, t) <= s.len(),
        forall|k: int| 0 <= k < lead_len(s, t) ==> trims(t, #[trigger] s[k]),
        lead_len(s, t) < s.len() ==> !trims(t, s[lead_len(s, t) as int]),
    decreases s.len(),
{
    if s.len() > 0 && trims(t, s[0]) {
        lemma_lead_len(s.drop_first(), t);
        assert forall|k: int| 0 <= k < lead_len(s, t) implies trims(t, #[trigger] s[k]) by {
            if k > 0 {
                assert(s[k] == s.drop_first()[k - 1]);
            }
        }
        if lead_len(s, t) < s.len() {
            assert(s[lead_len(s, t) as int] == s.drop_first()[lead_len(s.drop_first(), t) as int]);
        }
    }
}

proof fn lemma_trail_len(s: Seq<char>, t: Trim)
    ensures
        trail_len(s, t) <= s.len(),
        forall|k: int| s.len() - trail_len(s, t) <= k < s.len() ==> trims(t, #[trigger] s[k]),
        trail_len(s, t) < s.len() ==> !trims(t, s[s.len() - 1 - trail_len(s, t)]),
    decreases s.len(),
{
    if s.len() > 0 && trims(t, s.last()) {
        lemma_trail_len(s.drop_last(), t);
        assert forall|k: int| s.len() - trail_len(s, t) <= k < s.len() implies trims(
            t,
            #[trigger] s[k],
        ) by {
            if k < s.len() - 1 {
                assert(s[k] == s.drop_last()[k]);
            }
        }
        if trail_len(s, t) < s.len() {
            assert(s[s.len() - 1 - trail_len(s, t)] == s.drop_last()[s.drop_last().len() - 1
                - trail_len(s.drop_last(), t)]);
        }
    }
}

/// A string whose first and last characters are not trimmed is left as it is.
pub proof fn lemma_trim_untouched(s: Seq<char>, t: Trim)
    requires
        s.len() > 0,
        !trims(t, s[0]),
        !trims(t, s.last()),
    ensures
        trim_start(s, t) == s,
        trim_end(s, t) == s,
        trim(s, t) == s,
{
    assert(lead_len(s, t) == 0);
    assert(s.skip(0) =~= s);
    assert(trail_len(s, t) == 0);
    assert(s.take(s.len() as int) =~= s);
}

/// A trim removes only what it trims, and all of it: the result is a stretch of the
/// string outside which every character is trimmed, and, when not empty, it neither
/// starts nor ends with a trimmed character.
pub proof fn lemma_trim_shape(s: Seq<char>, t: Trim)
    ensures
        trim(s, t).len() > 0 ==> !trims(t, trim(s, t)[0]) && !trims(t, trim(s, t).last()),
        exists|a: int, b: int|
            0 <= a <= b <= s.len() && trim(s, t) == s.subrange(a, b) && (forall|k: int|
                0 <= k < a ==> trims(t, #[trigger] s[k])) && (forall|k: int|
                b <= k < s.len() ==> trims(t, #[trigger] s[k])),
{
    lemma_lead_len(s, t);
    let a = lead_len(s, t) as int;
    let u = s.skip(a);
    lemma_trail_len(u, t);
    let c = trail_len(u, t) as int;
    let b = s.len() - c;
    assert(trim_start(s, t) == u);
    assert(trim(s, t) =~= s.subrange(a, b));
    assert forall|k: int| b <= k < s.len() implies trims(t, #[trigger] s[k]) by {
        assert(s[k] == u[k - a]);
    }
    if trim(s, t).len() > 0 {
        assert(trim(s, t)[0] == s[a]);
        assert(trim(s, t).last() == u[u.len() - 1 - c]);
    }
}

/// The bounds of `v[lo..hi]` with the leading characters that `t` removes taken off.
pub fn trim_start_range(v: &Vec<char>, lo: usize, hi: usize, t: Trim) -> (r: usize)
    requires
        lo <= hi <= v@.len(),
    ensures
        lo <= r <= hi,
        v@.subrange(r as int, hi as int) == trim_start(v@.subrange(lo as int, hi as int), t),
{
    let mut a = lo;
    while a < hi && trims_exec(t, v[a])
        invariant
            lo <= a <= hi <= v@.len(),
            lead_len(v@.subrange(lo as int, hi as int), t) == (a - lo) + lead_len(
                v@.subrange(a as int, hi as int),
                t,
            ),
        decreases hi - a,
    {
        assert(v@.subrange(a as int, hi as int).drop_first() =~= v@.subrange(a + 1, hi as int));
        a = a + 1;
    }
    assert(lead_len(v@.subrange(a as int, hi as int), t) == 0) by {
        if a < hi {
        }
    }
    assert(v@.subrange(a as int, hi as int) =~= v@.subrange(lo as int, hi as int).skip(a - lo));
    a
}

/// The bounds of `v[lo..hi]` with the trailing characters that `t` removes taken off.
pub fn trim_end_range(v: &Vec<char>, lo: usize, hi: usize, t: Trim) -> (r: usize)
    requires
        lo <= hi <= v@.len(),
    ensures
        lo <= r <= hi,
        v@.subrange(lo as int, r as int) == trim_end(v@.subrange(lo as int, hi as int), t),
{
    let mut b = hi;
    while b > lo && trims_exec(t, v[b - 1])
        invariant
            lo <= b <= hi <= v@.len(),
            trail_len(v@.subrange(lo as int, hi as int), t) == (hi - b) + trail_len(
                v@.subrange(lo as int, b as int),
                t,
            ),
        decreases b - lo,
    {
        assert(v@.subrange(lo as int, b as int).drop_last() =~= v@.subrange(lo as int, b - 1));
        b = b - 1;
    }
    assert(trail_len(v@.subrange(lo as int, b as int), t) == 0) by {
        if b > lo {
        }
    }
    assert(v@.subrange(lo as int, b as int) =~= v@.subrange(lo as int, hi as int).take(b - lo));
    b
}

/// The bounds of `v[lo..hi]` trimmed at both ends.
pub fn trim_range(v: &Vec<char>, lo: usize, hi: usize, t: Trim) -> (r: (usize, usize))
    requires
        lo <= hi <= v@.len(),
    ensures
        lo <= r.0 <= r.1 <= hi,
        v@.subrange(r.0 as int, r.1 as int) == trim(v@.subrange(lo as int, hi as int), t),
{
    let a = trim_start_range(v, lo, hi, t);
    let b = trim_end_range(v, a, hi, t);
    (a, b)
}

/// Whether `s` begins with `p`.
pub open spec fn starts_with(s: Seq<char>, p: Seq<char>) -> bool {
    p.len() <= s.len() && s.take(p.len() as int) == p
}

/// Whether `v[pos..hi]` begins with `p`.
pub fn starts_with_at(v: &Vec<char>, pos: usize, hi: usize, p: &Vec<char>) -> (r: bool)
    requires
        pos <= hi <= v@.len(),
    ensures
        r == starts_with(v@.subrange(pos as int, hi as int), p@),
{
    if p.len() > hi - pos {
        return false;
    }
    let mut i: usize = 0;
    while i < p.len()
        invariant
            p@.len() <= hi - pos,
            pos <= hi <= v@.len(),
            i <= p@.len(),
            forall|k: int| 0 <= k < i ==> v@[pos + k] == p@[k],
        decreases p@.len() - i,
    {
        if v[pos + i] != p[i] {
            assert(v@.subrange(pos as int, hi as int).take(p@.len() as int)[i as int] != p@[i as int]);
            return false;
        }
        i = i + 1;
    }
    assert(v@.subrange(pos as int, hi as int).take(p@.len() as int) =~= p@);
    true
}

/// The first position at which `p` occurs in `s`.
pub open spec fn find_sub(s: Seq<char>, p: Seq<char>) -> Option<nat>
    decreases s.len(),
{
    if s.len() < p.len() {
        None
    } else if starts_with(s, p) {
        Some(0)
    } else if s.len() == 0 {
        None
    } else {
        match find_sub(s.drop_first(), p) {
            Some(i) => Some(i + 1),
            None => None,
        }
    }
}

pub proof fn lemma_find_sub_bound(s: Seq<char>, p: Seq<char>)
    ensures
        find_sub(s, p) matches Some(i) ==> i + p.len() <= s.len(),
    decreases s.len(),
{
    if s.len() >= p.len() && !starts_with(s, p) && s.len() > 0 {
        lemma_find_sub_bound(s.drop_first(), p);
    }
}

pub open spec fn shift_index(o: Option<nat>, k: nat) -> Option<nat> {
    match o {
        Some(i) => Some(i + k),
        None => None,
    }
}

/// The first position at which `p` occurs in `v[lo..hi]`, counted from `lo`.
pub fn find_sub_at(v: &Vec<char>, lo: usize, hi: usize, p: &Vec<char>) -> (r: Option<usize>)
    requires
        lo <= hi <= v@.len(),
    ensures
        match r {
            Some(i) => find_sub(v@.subrange(lo as int, hi as int), p@) == Some(i as nat),
            None => find_sub(v@.subrange(lo as int, hi as int), p@) is None,
        },
{
    let mut j = lo;
    loop
        invariant
            lo <= j <= hi <= v@.len(),
            find_sub(v@.subrange(lo as int, hi as int), p@) == shift_index(
                find_sub(v@.subrange(j as int, hi as int), p@),
                (j - lo) as nat,
            ),
        decreases hi - j,
    {
        if hi - j < p.len() {
            return None;
        }
        if starts_with_at(v, j, hi, p) {
            return Some(j - lo);
        }
        assert(j < hi) by {
            if j == hi {
                assert(v@.subrange(j as int, hi as int).take(0) =~= p@);
            }
        }
        assert(v@.subrange(j as int, hi as int).drop_first() =~= v@.subrange(j + 1, hi as int));
        j = j + 1;
    }
}

/// What a scan for the first character of a kind looks for.
#[derive(Clone, Copy)]
pub enum Scan {
    /// This one character.
    Char(char),
    /// One of `[`, `/` and `(`.
    StepEnd,
    /// A character outside an attribute name (letters, digits, `-` and `_`).
    NotNameChar,
}

/// `char::is_alphanumeric` on characters outside ASCII: those with the Unicode
/// `Alphabetic` or `Numeric` property.
pub uninterp spec fn unicode_alphanumeric(c: char) -> bool;

/// An ASCII letter or digit.
pub open spec fn ascii_alphanumeric(c: char) -> bool {
    'a' <= c <= 'z' || 'A' <= c <= 'Z' || '0' <= c <= '9'
}

/// `char::is_alphanumeric`: on ASCII exactly the letters and digits.
pub open spec fn char_alphanumeric(c: char) -> bool {
    if (c as u32) < 128 {
        ascii_alphanumeric(c)
    } else {
        unicode_alphanumeric(c)
    }
}

/// Whether `c` is alphanumeric.
///
/// Trusted: std `char::is_alphanumeric`. The contract states that on ASCII it holds exactly
/// of letters and digits, and names its result on the other characters.
#[verifier::external_body]
pub(crate) fn char_is_alphanumeric(c: char) -> (r: bool)
    ensures
        r == char_alphanumeric(c),
        (c as u32) >= 128 ==> r == unicode_alphanumeric(c),
        (c as u32) < 128 ==> (r <==> ('a' <= c <= 'z' || 'A' <= c <= 'Z' || '0' <= c <= '9')),
{
    c.is_alphanumeric()
}

pub open spec fn name_char(c: char) -> bool {
    char_alphanumeric(c) || c == '-' || c == '_'
}

pub open spec fn scan_hits(f: Scan, c: char) -> bool {
    match f {
        Scan::Char(x) => c == x,
        Scan::StepEnd => c == '[' || c == '/' || c == '(',
        Scan::NotNameChar => !name_char(c),
    }
}

fn scan_hits_exec(f: Scan, c: char) -> (r: bool)
    ensures
        r == scan_hits(f, c),
{
    match f {
        Scan::Char(x) => c == x,
        Scan::StepEnd => c == '[' || c == '/' || c == '(',
        Scan::NotNameChar => !(char_is_alphanumeric(c) || c == '-' || c == '_'),
    }
}

/// The index of the first character of `s` that `f` looks for, or the length of `s`.
pub open spec fn first_hit(s: Seq<char>, f: Scan) -> nat
    decreases s.len(),
{
    if s.len() == 0 {
        0
    } else if scan_hits(f, s[0]) {
        0
    } else {
        1 + first_hit(s.drop_first(), f)
    }
}

/// `first_hit` is the index `k` when nothing before `k` is looked for and `k` is the end or
/// a character looked for.
pub proof fn lemma_first_hit_is(s: Seq<char>, f: Scan, k: int)
    requires
        0 <= k <= s.len(),
        forall|j: int| 0 <= j < k ==> !scan_hits(f, #[trigger] s[j]),
        k < s.len() ==> scan_hits(f, s[k]),
    ensures
        first_hit(s, f) == k,
    decreases k,
{
    if k > 0 {
        assert(!scan_hits(f, s[0]));
        assert forall|j: int| 0 <= j < k - 1 implies !scan_hits(f, #[trigger] s.drop_first()[j]) by {
            assert(s.drop_first()[j] == s[j + 1]);
        }
        if k < s.len() {
            assert(s.drop_first()[k - 1] == s[k]);
        }
        lemma_first_hit_is(s.drop_first(), f, k - 1);
    }
}

pub proof fn lemma_first_hit_bound(s: Seq<char>, f: Scan)
    ensures
        first_hit(s, f) <= s.len(),
        first_hit(s, f) < s.len() ==> scan_hits(f, s[first_hit(s, f) as int]),
    decreases s.len(),
{
    if s.len() > 0 && !scan_hits(f, s[0]) {
        lemma_first_hit_bound(s.drop_first(), f);
    }
}

/// `first_hit` on `v[lo..hi]`, counted from `lo`.
pub fn first_hit_at(v: &Vec<char>, lo: usize, hi: usize, f: Scan) -> (r: usize)
    requires
        lo <= hi <= v@.len(),
    ensures
        r == first_hit(v@.subrange(lo as int, hi as int), f),
        r <= hi - lo,
{
    let mut j = lo;
    while j < hi && !scan_hits_exec(f, v[j])
        invariant
            lo <= j <= hi <= v@.len(),
            first_hit(v@.subrange(lo as int, hi as int), f) == (j - lo) + first_hit(
                v@.subrange(j as int, hi as int),
                f,
            ),
        decreases hi - j,
    {
        assert(v@.subrange(j as int, hi as int).drop_first() =~= v@.subrange(j + 1, hi as int));
        j = j + 1;
    }
    j - lo
}

/// The value of a string of ASCII decimal digits.
pub open spec fn decimal_value(d: Seq<char>) -> int
    decreases d.len(),
{
    if d.len() == 0 {
        0
    } else {
        decimal_value(d.drop_last()) * 10 + (d.last() as int - '0' as int)
    }
}

pub open spec fn all_digits(d: Seq<char>) -> bool {
    forall|i: int| 0 <= i < d.len() ==> '0' <= #[trigger] d[i] <= '9'
}

/// What `str::parse::<usize>` accepts and returns: an optional `+`, then one or more
/// ASCII digits whose value fits in a `usize`.
pub open spec fn parse_usize(s: Seq<char>) -> Option<usize> {
    let d = if s.len() > 0 && s[0] == '+' {
        s.drop_first()
    } else {
        s
    };
    if d.len() > 0 && all_digits(d) && decimal_value(d) <= usize::MAX {
        Some(decimal_value(d) as usize)
    } else {
        None
    }
}

pub proof fn lemma_decimal_value_nonneg(d: Seq<char>)
    requires
        all_digits(d),
    ensures
        decimal_value(d) >= 0,
    decreases d.len(),
{
    if d.len() > 0 {
        assert(all_digits(d.drop_last())) by {
            assert forall|i: int| 0 <= i < d.drop_last().len() implies '0' <= #[trigger] d.drop_last()[i] <= '9' by {
                assert(d.drop_last()[i] == d[i]);
            }
        }
        lemma_decimal_value_nonneg(d.drop_last());
        assert('0' <= d[d.len() - 1] <= '9');
    }
}

pub proof fn lemma_decimal_value_monotone(d: Seq<char>, n: int)
    requires
        all_digits(d),
        0 <= n <= d.len(),
    ensures
        decimal_value(d.take(n)) <= decimal_value(d),
    decreases d.len(),
{
    if n < d.len() {
        assert(all_digits(d.drop_last())) by {
            assert forall|i: int| 0 <= i < d.drop_last().len() implies '0' <= #[trigger] d.drop_last()[i] <= '9' by {
                assert(d.drop_last()[i] == d[i]);
            }
        }
        lemma_decimal_value_monotone(d.drop_last(), n);
        assert(d.drop_last().take(n) =~= d.take(n));
        lemma_decimal_value_nonneg(d.drop_last());
        assert('0' <= d[d.len() - 1] <= '9');
    } else {
        assert(d.take(n) =~= d);
    }
}

/// `str::parse::<usize>` on `v[lo..hi]`.
pub fn parse_usize_at(v: &Vec<char>, lo: usize, hi: usize) -> (r: Option<usize>)
    requires
        lo <= hi <= v@.len(),
    ensures
        r == parse_usize(v@.subrange(lo as int, hi as int)),
{
    let ghost s = v@.subrange(lo as int, hi as int);
    let start = if lo < hi && v[lo] == '+' {
        lo + 1
    } else {
        lo
    };
    let ghost d = v@.subrange(start as int, hi as int);
    assert(d =~= (if s.len() > 0 && s[0] == '+' {
        s.drop_first()
    } else {
        s
    }));
    if start == hi {
        return None;
    }
    let mut acc: usize = 0;
    let mut j = start;
    while j < hi
        invariant
            start <= j <= hi <= v@.len(),
            d == v@.subrange(start as int, hi as int),
            d.len() > 0,
            parse_usize(v@.subrange(lo as int, hi as int)) == (if all_digits(d) && decimal_value(d)
                <= usize::MAX {
                Some(decimal_value(d) as usize)
            } else {
                None
            }),
            all_digits(v@.subrange(start as int, j as int)),
            acc == decimal_value(v@.subrange(start as int, j as int)),
        decreases hi - j,
    {
        let c = v[j];
        assert(v@.subrange(start as int, j + 1).drop_last() =~= v@.subrange(start as int, j as int));
        if !('0' <= c && c <= '9') {
            assert(d[(j - start) as int] == c);
            assert(!all_digits(d));
            return None;
        }
        let digit = (c as u32 - '0' as u32) as usize;
        assert(all_digits(v@.subrange(start as int, j + 1))) by {
            assert forall|i: int| 0 <= i < j + 1 - start implies '0' <= #[trigger] v@.subrange(start as int, j + 1)[i] <= '9' by {
                if i < j - start {
                    assert(v@.subrange(start as int, j + 1)[i] == v@.subrange(start as int, j as int)[i]);
                }
            }
        }
        match acc.checked_mul(10) {
            Some(m) => match m.checked_add(digit) {
                Some(n) => {
                    acc = n;
                },
                None => {
proof {
                    let pre = v@.subrange(start as int, j + 1);
                    assert(pre.drop_last() =~= v@.subrange(start as int, j as int));
                    assert(pre.last() == c);
                    assert(decimal_value(pre) == acc * 10 + digit);
                    if all_digits(d) {
                        assert(d.take(j + 1 - start) =~= pre);
                        lemma_decimal_value_monotone(d, j + 1 - start);
                    }
                }
                    return None;
                },
            },
            None => {
proof {
                    let pre = v@.subrange(start as int, j + 1);
                    assert(pre.drop_last() =~= v@.subrange(start as int, j as int));
                    assert(pre.last() == c);
                    assert(decimal_value(pre) == acc * 10 + digit);
                    if all_digits(d) {
                        assert(d.take(j + 1 - start) =~= pre);
                        lemma_decimal_value_monotone(d, j + 1 - start);
                    }
                }
                return None;
            },
        }
        j = j + 1;
    }
    assert(v@.subrange(start as int, j as int) =~= d);
    Some(acc)
}

} // verus!

verus! {

/// Lexicographic order of character sequences, by code point. It is the order of `str`,
/// since UTF-8 keeps the order of code points.
pub open spec fn lex_lt(a: Seq<char>, b: Seq<char>) -> bool
    decreases a.len(),
{
    if a.len() == 0 {
        b.len() > 0
    } else if b.len() == 0 {
        false
    } else if a[0] != b[0] {
        a[0] < b[0]
    } else {
        lex_lt(a.drop_first(), b.drop_first())
    }
}

pub proof fn lemma_lex_irreflexive(a: Seq<char>)
    ensures
        !lex_lt(a, a),
    decreases a.len(),
{
    if a.len() > 0 {
        lemma_lex_irreflexive(a.drop_first());
    }
}

pub proof fn lemma_lex_transitive(a: Seq<char>, b: Seq<char>, c: Seq<char>)
    requires
        lex_lt(a, b),
        lex_lt(b, c),
    ensures
        lex_lt(a, c),
    decreases a.len(),
{
    if a.len() > 0 && b.len() > 0 && c.len() > 0 && a[0] == b[0] && b[0] == c[0] {
        lemma_lex_transitive(a.drop_first(), b.drop_first(), c.drop_first());
    }
}

pub proof fn lemma_lex_total(a: Seq<char>, b: Seq<char>)
    ensures
        a != b ==> lex_lt(a, b) || lex_lt(b, a),
    decreases a.len(),
{
    if a.len() > 0 && b.len() > 0 && a[0] == b[0] {
        lemma_lex_total(a.drop_first(), b.drop_first());
        if a.drop_first() == b.drop_first() {
            assert(a.drop_first().len() == a.len() - 1);
            assert(b.drop_first().len() == b.len() - 1);
            assert(a.len() == b.len());
            assert forall|i: int| 0 <= i < a.len() implies a[i] == b[i] by {
                if i > 0 {
                    assert(a[i] == a.drop_first()[i - 1]);
                    assert(b[i] == b.drop_first()[i - 1]);
                }
            }
            assert(a =~= b);
        }
    } else if a.len() == 0 && b.len() == 0 {
        assert(a =~= b);
    }
}

/// Whether `a` comes before `b`.
pub fn lex_less(a: &Vec<char>, b: &Vec<char>) -> (r: bool)
    ensures
        r == lex_lt(a@, b@),
{
    let mut i: usize = 0;
    assert(a@.skip(0) =~= a@);
    assert(b@.skip(0) =~= b@);
    while i < a.len() && i < b.len()
        invariant
            i <= a@.len(),
            i <= b@.len(),
            lex_lt(a@, b@) == lex_lt(a@.skip(i as int), b@.skip(i as int)),
        decreases a@.len() - i,
    {
        if a[i] != b[i] {
            return a[i] < b[i];
        }
        assert(a@.skip(i as int).drop_first() =~= a@.skip(i + 1));
        assert(b@.skip(i as int).drop_first() =~= b@.skip(i + 1));
        i = i + 1;
    }
    i == a.len() && i < b.len()
}

} // verus!
