//! The progress grammar: inferring a reading from free-form text.
//!
//! Three patterns are tried on each line, in order, and the most
//! recent matching line of a chunk wins:
//! 1. a `current/total` pair of integers (an optional step keyword such
//!    as `epoch` or `step` may precede it; it does not change what is
//!    captured), with `total > 0`;
//! 2. a number followed by `%`, accepted only within 0–100;
//! 3. `progress:` followed by a fraction, accepted only within 0–1.
//!
//! A pattern reads its leftmost occurrence in the line; a value out of
//! range makes that pattern yield nothing for the line, it does not
//! fall through to a later occurrence.

use vstd::prelude::*;
use crate::text::{spec_is_digit, is_digit, spec_is_space, digit_val, is_space, push_chars};
use crate::scan::{
    digit_end, space_end, lemma_digit_end, lemma_space_end, scan_digit_end, scan_space_end,
    digits_val, val_capped, parse_digits,
};
use crate::lines::{spec_lines, split_lines};
use crate::reading::{ProgressReading, SpecReading, view_opt};
use crate::text::to_chars;

verus! {

// ------------------------------------------------------------------
// pattern 1: current/total
// ------------------------------------------------------------------

/// Whether `current/total` stands at `i`: a digit run, optional
/// whitespace, `'/'`, optional whitespace, a digit run.
pub open spec fn xy_match_at(l: Seq<char>, i: int) -> bool {
    0 <= i < l.len() && spec_is_digit(l[i]) && {
        let j = digit_end(l, i);
        let k = space_end(l, j);
        k < l.len() && l[k] == '/' && {
            let m = space_end(l, k + 1);
            m < l.len() && spec_is_digit(l[m])
        }
    }
}

/// Where the `total` digits of a match at `i` begin.
pub open spec fn xy_tot_start(l: Seq<char>, i: int) -> int {
    space_end(l, space_end(l, digit_end(l, i)) + 1)
}

/// The `current` value of a match at `i`.
pub open spec fn xy_cur_val(l: Seq<char>, i: int) -> nat {
    val_capped(l.subrange(i, digit_end(l, i)))
}

/// The `total` value of a match at `i`.
pub open spec fn xy_tot_val(l: Seq<char>, i: int) -> nat {
    val_capped(l.subrange(xy_tot_start(l, i), digit_end(l, xy_tot_start(l, i))))
}

/// First position at or after `i` where pattern 1 matches, or `-1`.
pub open spec fn xy_first(l: Seq<char>, i: int) -> int
    decreases l.len() - i,
{
    if i >= l.len() {
        -1
    } else if xy_match_at(l, i) {
        i
    } else {
        xy_first(l, i + 1)
    }
}

proof fn lemma_xy_first_skip(l: Seq<char>, i: int)
    requires
        0 <= i <= l.len(),
        forall|j: int| 0 <= j < i ==> !xy_match_at(l, j),
    ensures
        xy_first(l, 0) == xy_first(l, i),
    decreases i,
{
    if i > 0 {
        lemma_xy_first_skip(l, i - 1);
    }
}

/// Percent, in hundredths, of `current` out of `total`, clamped to
/// 100 %.
pub open spec fn spec_ratio_centi(cur: nat, tot: nat) -> nat {
    let p = cur * 10000 / tot;
    if p > 10000 { 10000 } else { p }
}

/// Computes the clamped percentage of `cur` out of `tot`.
pub fn ratio_centi(cur: u64, tot: u64) -> (r: u32)
    requires
        tot > 0,
    ensures
        r as nat == spec_ratio_centi(cur as nat, tot as nat),
        r <= 10000,
{
    let p: u128 = (cur as u128) * 10000 / (tot as u128);
    if p > 10000 {
        10000
    } else {
        p as u32
    }
}

/// Finds the leftmost `current/total` match of a line and returns the
/// two values.
fn find_xy(v: &Vec<char>) -> (r: Option<(u64, u64)>)
    ensures
        ({
            let f = xy_first(v@, 0);
            match r {
                Option::Some(ct) => f >= 0 && ct.0 as nat == xy_cur_val(v@, f)
                    && ct.1 as nat == xy_tot_val(v@, f),
                Option::None => f < 0,
            }
        }),
{
    let n = v.len();
    let mut i: usize = 0;
    while i < n
        invariant
            i <= n == v@.len(),
            forall|j: int| 0 <= j < i ==> !xy_match_at(v@, j),
        decreases n - i,
    {
        if is_digit(v[i]) {
            let j = scan_digit_end(v, i);
            let k = scan_space_end(v, j);
            if k < n && v[k] == '/' {
                let m = scan_space_end(v, k + 1);
                if m < n && is_digit(v[m]) {
                    let me = scan_digit_end(v, m);
                    proof {
                        assert(xy_match_at(v@, i as int));
                        lemma_xy_first_skip(v@, i as int);
                        lemma_digit_end(v@, i as int);
                        lemma_digit_end(v@, m as int);
                        assert(m as int == xy_tot_start(v@, i as int));
                    }
                    let cur = parse_digits(v, i, j);
                    let tot = parse_digits(v, m, me);
                    return Option::Some((cur, tot));
                }
            }
        }
        assert(!xy_match_at(v@, i as int));
        i = i + 1;
    }
    proof {
        lemma_xy_first_skip(v@, n as int);
    }
    Option::None
}

// ------------------------------------------------------------------
// fractional digits, shared by patterns 2 and 3
// ------------------------------------------------------------------

/// Whether a fractional part begins at `j`: a dot directly followed by
/// a digit.
pub open spec fn has_frac(l: Seq<char>, j: int) -> bool {
    0 <= j && j + 1 < l.len() && l[j] == '.' && spec_is_digit(l[j + 1])
}

/// The integer digits of the number starting at `i`.
pub open spec fn int_digits(l: Seq<char>, i: int) -> Seq<char> {
    l.subrange(i, digit_end(l, i))
}

/// The fractional digits of the number starting at `i`, empty when
/// there are none.
pub open spec fn frac_digits(l: Seq<char>, i: int) -> Seq<char> {
    let j = digit_end(l, i);
    if has_frac(l, j) {
        l.subrange(j + 1, digit_end(l, j + 1))
    } else {
        Seq::empty()
    }
}

/// Where the number starting at `i` ends, fractional part included.
pub open spec fn num_end(l: Seq<char>, i: int) -> int {
    let j = digit_end(l, i);
    if has_frac(l, j) {
        digit_end(l, j + 1)
    } else {
        j
    }
}

pub open spec fn frac_all_zero(fs: Seq<char>) -> bool {
    forall|k: int| 0 <= k < fs.len() ==> fs[k] == '0'
}

/// A digit of the fractional part, zero where it is absent.
pub open spec fn frac_digit(fs: Seq<char>, k: int) -> nat {
    if 0 <= k < fs.len() { digit_val(fs[k]) } else { 0 }
}

/// Scans the number starting at `i` (which must open with a digit):
/// end of integer digits, end of the whole number.
fn scan_number(v: &Vec<char>, i: usize) -> (r: (usize, usize))
    requires
        i <= v@.len(),
    ensures
        r.0 as int == digit_end(v@, i as int),
        r.1 as int == num_end(v@, i as int),
        i <= r.0 <= r.1 <= v@.len(),
{
    let n = v.len();
    let j = scan_digit_end(v, i);
    if j < n && v[j] == '.' && j + 1 < n && is_digit(v[j + 1]) {
        let e = scan_digit_end(v, j + 1);
        (j, e)
    } else {
        (j, j)
    }
}

/// Whether every fractional digit of the number at `i` is zero.
pub(crate) fn check_frac_zero(v: &Vec<char>, j: usize, e: usize) -> (r: bool)
    requires
        j <= e <= v@.len(),
    ensures
        r == frac_all_zero(v@.subrange(j as int, e as int)),
{
    let mut k = j;
    while k < e
        invariant
            j <= k <= e <= v@.len(),
            forall|t: int| j <= t < k ==> v@[t] == '0',
        decreases e - k,
    {
        if v[k] != '0' {
            assert(v@.subrange(j as int, e as int)[k - j] == v@[k as int]);
            return false;
        }
        k = k + 1;
    }
    true
}

// ------------------------------------------------------------------
// pattern 2: a percentage
// ------------------------------------------------------------------

/// Whether a percentage stands at `i`: a number, optional whitespace,
/// `'%'`.
pub open spec fn pct_match_at(l: Seq<char>, i: int) -> bool {
    0 <= i < l.len() && spec_is_digit(l[i]) && {
        let w = space_end(l, num_end(l, i));
        w < l.len() && l[w] == '%'
    }
}

pub open spec fn pct_first(l: Seq<char>, i: int) -> int
    decreases l.len() - i,
{
    if i >= l.len() {
        -1
    } else if pct_match_at(l, i) {
        i
    } else {
        pct_first(l, i + 1)
    }
}

proof fn lemma_pct_first_skip(l: Seq<char>, i: int)
    requires
        0 <= i <= l.len(),
        forall|j: int| 0 <= j < i ==> !pct_match_at(l, j),
    ensures
        pct_first(l, 0) == pct_first(l, i),
    decreases i,
{
    if i > 0 {
        lemma_pct_first_skip(l, i - 1);
    }
}

/// Whether the number `ip.fp` lies within 100.
pub open spec fn within_100(ip: Seq<char>, fp: Seq<char>) -> bool {
    digits_val(ip) < 100 || (digits_val(ip) == 100 && frac_all_zero(fp))
}

/// The number `ip.fp` in hundredths, fractional digits beyond the
/// second truncated.
pub open spec fn centi_of(ip: Seq<char>, fp: Seq<char>) -> nat {
    digits_val(ip) * 100 + frac_digit(fp, 0) * 10 + frac_digit(fp, 1)
}

/// What pattern 2 yields for a line: the leftmost percentage, if
/// within range.
pub open spec fn spec_pct_percent(l: Seq<char>) -> Option<u32> {
    let f = pct_first(l, 0);
    if f < 0 {
        Option::None
    } else {
        let ip = int_digits(l, f);
        let fp = frac_digits(l, f);
        if within_100(ip, fp) {
            Option::Some(centi_of(ip, fp) as u32)
        } else {
            Option::None
        }
    }
}

/// Reads the fractional value in hundredths and checks the range,
/// given the bounds of the number at `f`.
fn pct_value(v: &Vec<char>, f: usize, j: usize) -> (r: Option<u32>)
    requires
        f <= j <= v@.len(),
        j as int == digit_end(v@, f as int),
        f < v@.len() && spec_is_digit(v@[f as int]),
    ensures
        r is Some <==> within_100(int_digits(v@, f as int), frac_digits(v@, f as int)),
        r is Some ==> r->0 as nat == centi_of(int_digits(v@, f as int), frac_digits(v@, f as int))
            && r->0 <= 10000,
{
    let n = v.len();
    proof {
        lemma_digit_end(v@, f as int);
        assert(int_digits(v@, f as int) =~= v@.subrange(f as int, j as int));
    }
    let ipv = parse_digits(v, f, j);
    let ghost ip = int_digits(v@, f as int);
    let ghost fp = frac_digits(v@, f as int);
    proof {
        assert(ipv as nat == val_capped(ip));
        assert(digits_val(ip) < 100 ==> ipv as nat == digits_val(ip));
        assert(digits_val(ip) <= 100 ==> ipv as nat == digits_val(ip));
        assert(ipv <= 100 ==> ipv as nat == digits_val(ip));
    }
    if j < n && v[j] == '.' && j + 1 < n && is_digit(v[j + 1]) {
        let e = scan_digit_end(v, j + 1);
        proof {
            lemma_digit_end(v@, j as int + 1);
            assert(fp =~= v@.subrange(j as int + 1, e as int));
            assert(e > j + 1);
            assert(spec_is_digit(v@[j as int + 1]));
            assert(j as int + 2 < e ==> spec_is_digit(v@[j as int + 2]));
        }
        let f0: u32 = v[j + 1] as u32 - 48;
        let f1: u32 = if e - j > 2 { v[j + 2] as u32 - 48 } else { 0 };
        proof {
            assert(fp[0] == v@[j as int + 1]);
            assert(j + 2 < e ==> fp[1] == v@[j as int + 2]);
            assert(frac_digit(fp, 0) == digit_val(v@[j as int + 1]));
        }
        if ipv < 100 {
            Option::Some(ipv as u32 * 100 + f0 * 10 + f1)
        } else if ipv == 100 {
            if check_frac_zero(v, j + 1, e) {
                assert(f0 == 0 && f1 == 0);
                Option::Some(10000)
            } else {
                Option::None
            }
        } else {
            Option::None
        }
    } else {
        proof {
            assert(fp =~= Seq::<char>::empty());
        }
        if ipv <= 100 {
            Option::Some(ipv as u32 * 100)
        } else {
            Option::None
        }
    }
}

/// Finds the leftmost percentage of a line.
fn find_pct(v: &Vec<char>) -> (r: Option<u32>)
    ensures
        r == spec_pct_percent(v@),
        r is Some ==> r->0 <= 10000,
{
    let n = v.len();
    let mut i: usize = 0;
    while i < n
        invariant
            i <= n == v@.len(),
            forall|j: int| 0 <= j < i ==> !pct_match_at(v@, j),
        decreases n - i,
    {
        if is_digit(v[i]) {
            let (j, e) = scan_number(v, i);
            let w = scan_space_end(v, e);
            if w < n && v[w] == '%' {
                proof {
                    assert(pct_match_at(v@, i as int));
                    lemma_pct_first_skip(v@, i as int);
                }
                return pct_value(v, i, j);
            }
        }
        assert(!pct_match_at(v@, i as int));
        i = i + 1;
    }
    proof {
        lemma_pct_first_skip(v@, n as int);
    }
    Option::None
}

// ------------------------------------------------------------------
// pattern 3: an explicit progress fraction
// ------------------------------------------------------------------

/// The marker that opens pattern 3.
pub open spec fn prog_marker() -> Seq<char> {
    "progress:"@
}

/// Whether `progress:` followed by a number stands at `i`.
pub open spec fn prog_match_at(l: Seq<char>, i: int) -> bool {
    0 <= i && i + 9 <= l.len() && l.subrange(i, i + 9) == prog_marker() && {
        let p = space_end(l, i + 9);
        p < l.len() && spec_is_digit(l[p])
    }
}

pub open spec fn prog_first(l: Seq<char>, i: int) -> int
    decreases l.len() - i,
{
    if i >= l.len() {
        -1
    } else if prog_match_at(l, i) {
        i
    } else {
        prog_first(l, i + 1)
    }
}

proof fn lemma_prog_first_skip(l: Seq<char>, i: int)
    requires
        0 <= i <= l.len(),
        forall|j: int| 0 <= j < i ==> !prog_match_at(l, j),
    ensures
        prog_first(l, 0) == prog_first(l, i),
    decreases i,
{
    if i > 0 {
        lemma_prog_first_skip(l, i - 1);
    }
}

/// Whether the number `ip.fp` lies within 1.
pub open spec fn within_1(ip: Seq<char>, fp: Seq<char>) -> bool {
    digits_val(ip) == 0 || (digits_val(ip) == 1 && frac_all_zero(fp))
}

/// The number `ip.fp` in hundredths of a percent, fractional digits
/// beyond the fourth truncated.
pub open spec fn centi_of_fraction(ip: Seq<char>, fp: Seq<char>) -> nat {
    digits_val(ip) * 10000 + frac_digit(fp, 0) * 1000 + frac_digit(fp, 1) * 100
        + frac_digit(fp, 2) * 10 + frac_digit(fp, 3)
}

/// What pattern 3 yields for a line: the fraction after the leftmost
/// marker, if within range.
pub open spec fn spec_prog_percent(l: Seq<char>) -> Option<u32> {
    let f = prog_first(l, 0);
    if f < 0 {
        Option::None
    } else {
        let p = space_end(l, f + 9);
        let ip = int_digits(l, p);
        let fp = frac_digits(l, p);
        if within_1(ip, fp) {
            Option::Some(centi_of_fraction(ip, fp) as u32)
        } else {
            Option::None
        }
    }
}

/// Whether the marker characters stand at `i`.
fn is_marker_at(v: &Vec<char>, i: usize) -> (r: bool)
    ensures
        r == (i + 9 <= v@.len() && v@.subrange(i as int, i as int + 9) == prog_marker()),
{
    proof {
        reveal_strlit("progress:");
    }
    if i > v.len() || v.len() - i < 9 {
        return false;
    }
    let ghost sub = v@.subrange(i as int, i as int + 9);
    assert(forall|k: int| 0 <= k < 9 ==> sub[k] == v@[i + k]);
    let r = v[i] == 'p' && v[i + 1] == 'r' && v[i + 2] == 'o' && v[i + 3] == 'g'
        && v[i + 4] == 'r' && v[i + 5] == 'e' && v[i + 6] == 's' && v[i + 7] == 's'
        && v[i + 8] == ':';
    if r {
        assert(sub =~= prog_marker());
    } else {
        proof {
            if sub == prog_marker() {
                assert(sub[0] == prog_marker()[0]);
                assert(sub[1] == prog_marker()[1]);
                assert(sub[2] == prog_marker()[2]);
                assert(sub[3] == prog_marker()[3]);
                assert(sub[4] == prog_marker()[4]);
                assert(sub[5] == prog_marker()[5]);
                assert(sub[6] == prog_marker()[6]);
                assert(sub[7] == prog_marker()[7]);
                assert(sub[8] == prog_marker()[8]);
            }
        }
        assert(sub != prog_marker());
    }
    r
}

/// Reads the fraction of a pattern-3 match, `p` the number's start.
fn prog_value(v: &Vec<char>, p: usize) -> (r: Option<u32>)
    requires
        p < v@.len(),
        spec_is_digit(v@[p as int]),
    ensures
        r is Some <==> within_1(int_digits(v@, p as int), frac_digits(v@, p as int)),
        r is Some ==> r->0 as nat == centi_of_fraction(int_digits(v@, p as int), frac_digits(v@, p as int))
            && r->0 <= 10000,
{
    let n = v.len();
    let j = scan_digit_end(v, p);
    proof {
        lemma_digit_end(v@, p as int);
        assert(int_digits(v@, p as int) =~= v@.subrange(p as int, j as int));
    }
    let ipv = parse_digits(v, p, j);
    let ghost ip = int_digits(v@, p as int);
    let ghost fp = frac_digits(v@, p as int);
    proof {
        assert(ipv <= 1 ==> ipv as nat == digits_val(ip));
    }
    if j < n && v[j] == '.' && j + 1 < n && is_digit(v[j + 1]) {
        let e = scan_digit_end(v, j + 1);
        proof {
            lemma_digit_end(v@, j as int + 1);
            assert(fp =~= v@.subrange(j as int + 1, e as int));
            assert(e > j + 1);
            assert(spec_is_digit(v@[j as int + 1]));
            assert(j as int + 2 < e ==> spec_is_digit(v@[j as int + 2]));
            assert(j as int + 3 < e ==> spec_is_digit(v@[j as int + 3]));
            assert(j as int + 4 < e ==> spec_is_digit(v@[j as int + 4]));
        }
        let f0: u32 = v[j + 1] as u32 - 48;
        let f1: u32 = if e - j > 2 { v[j + 2] as u32 - 48 } else { 0 };
        let f2: u32 = if e - j > 3 { v[j + 3] as u32 - 48 } else { 0 };
        let f3: u32 = if e - j > 4 { v[j + 4] as u32 - 48 } else { 0 };
        proof {
            assert(fp[0] == v@[j as int + 1]);
            assert(j + 2 < e ==> fp[1] == v@[j as int + 2]);
            assert(j + 3 < e ==> fp[2] == v@[j as int + 3]);
            assert(j + 4 < e ==> fp[3] == v@[j as int + 4]);
        }
        if ipv == 0 {
            Option::Some(f0 * 1000 + f1 * 100 + f2 * 10 + f3)
        } else if ipv == 1 {
            if check_frac_zero(v, j + 1, e) {
                assert(f0 == 0 && f1 == 0 && f2 == 0 && f3 == 0);
                Option::Some(10000)
            } else {
                Option::None
            }
        } else {
            Option::None
        }
    } else {
        proof {
            assert(fp =~= Seq::<char>::empty());
        }
        if ipv == 0 {
            Option::Some(0)
        } else if ipv == 1 {
            Option::Some(10000)
        } else {
            Option::None
        }
    }
}

/// Finds the fraction after the leftmost `progress:` marker of a line.
fn find_prog(v: &Vec<char>) -> (r: Option<u32>)
    ensures
        r == spec_prog_percent(v@),
        r is Some ==> r->0 <= 10000,
{
    let n = v.len();
    let mut i: usize = 0;
    while i < n
        invariant
            i <= n == v@.len(),
            forall|j: int| 0 <= j < i ==> !prog_match_at(v@, j),
        decreases n - i,
    {
        if is_marker_at(v, i) {
            let p = scan_space_end(v, i + 9);
            if p < n && is_digit(v[p]) {
                proof {
                    assert(prog_match_at(v@, i as int));
                    lemma_prog_first_skip(v@, i as int);
                }
                return prog_value(v, p);
            }
        }
        assert(!prog_match_at(v@, i as int));
        i = i + 1;
    }
    proof {
        lemma_prog_first_skip(v@, n as int);
    }
    Option::None
}

// ------------------------------------------------------------------
// a whole line, then a whole chunk
// ------------------------------------------------------------------

/// Index after which only whitespace follows.
pub open spec fn rtrim(l: Seq<char>) -> int
    decreases l.len(),
{
    if l.len() > 0 && spec_is_space(l.last()) {
        rtrim(l.drop_last())
    } else {
        l.len() as int
    }
}

/// The line with leading and trailing whitespace removed; summaries
/// carry this form.
pub open spec fn spec_trim(l: Seq<char>) -> Seq<char> {
    let b = space_end(l, 0);
    let e = rtrim(l);
    if b <= e {
        l.subrange(b, e)
    } else {
        Seq::empty()
    }
}

/// The trimmed line, as a fresh string.
fn trim_string(v: &Vec<char>) -> (r: String)
    ensures
        r@ == spec_trim(v@),
{
    let n = v.len();
    let b = scan_space_end(v, 0);
    let mut e = n;
    proof {
        assert(v@.take(n as int) =~= v@);
    }
    while e > 0 && is_space(v[e - 1])
        invariant
            e <= n == v@.len(),
            rtrim(v@) == rtrim(v@.take(e as int)),
        decreases e,
    {
        proof {
            assert(v@.take(e as int).drop_last() =~= v@.take(e as int - 1));
        }
        e = e - 1;
    }
    proof {
        if e > 0 {
            assert(v@.take(e as int).last() == v@[e as int - 1]);
        }
        assert(rtrim(v@) == e as int);
        lemma_space_end(v@, 0);
    }
    let mut r = String::new();
    if b <= e {
        push_chars(&mut r, v, b, e);
    }
    r
}

/// What a single line yields: pattern 1, else 2, else 3, else
/// nothing; the summary is the trimmed line.
pub open spec fn spec_parse_line(l: Seq<char>) -> Option<SpecReading> {
    if xy_first(l, 0) >= 0 && xy_tot_val(l, xy_first(l, 0)) > 0 {
        let f = xy_first(l, 0);
        Option::Some(SpecReading {
            percent_centi: Option::Some(spec_ratio_centi(xy_cur_val(l, f), xy_tot_val(l, f)) as u32),
            current: Option::Some(xy_cur_val(l, f) as u64),
            total: Option::Some(xy_tot_val(l, f) as u64),
            summary: spec_trim(l),
        })
    } else if spec_pct_percent(l) is Some {
        Option::Some(SpecReading {
            percent_centi: spec_pct_percent(l),
            current: Option::None,
            total: Option::None,
            summary: spec_trim(l),
        })
    } else if spec_prog_percent(l) is Some {
        Option::Some(SpecReading {
            percent_centi: spec_prog_percent(l),
            current: Option::None,
            total: Option::None,
            summary: spec_trim(l),
        })
    } else {
        Option::None
    }
}

/// Parses one line of output.
pub fn parse_line(v: &Vec<char>) -> (r: Option<ProgressReading>)
    ensures
        view_opt(r) == spec_parse_line(v@),
        r is Some ==> r->0@.wf(),
{
    let xy = find_xy(v);
    if let Option::Some((cur, tot)) = xy {
        if tot > 0 {
            let pct = ratio_centi(cur, tot);
            let summary = trim_string(v);
            return Option::Some(ProgressReading {
                percent_centi: Option::Some(pct),
                current: Option::Some(cur),
                total: Option::Some(tot),
                summary,
            });
        }
    }
    let pct2 = find_pct(v);
    if let Option::Some(p) = pct2 {
        let summary = trim_string(v);
        return Option::Some(ProgressReading {
            percent_centi: Option::Some(p),
            current: Option::None,
            total: Option::None,
            summary,
        });
    }
    let pct3 = find_prog(v);
    if let Option::Some(p) = pct3 {
        let summary = trim_string(v);
        return Option::Some(ProgressReading {
            percent_centi: Option::Some(p),
            current: Option::None,
            total: Option::None,
            summary,
        });
    }
    Option::None
}

/// The reading of the most recent line that yields one.
pub open spec fn spec_extract_lines(ls: Seq<Seq<char>>) -> Option<SpecReading>
    decreases ls.len(),
{
    if ls.len() == 0 {
        Option::None
    } else {
        match spec_parse_line(ls.last()) {
            Option::Some(r) => Option::Some(r),
            Option::None => spec_extract_lines(ls.drop_last()),
        }
    }
}

/// What a whole chunk of output yields: its lines are tried from the
/// most recent backwards.  `None` exactly when no line matches any
/// pattern: an unrecognizable chunk never produces a spurious reading.
pub open spec fn spec_extract(s: Seq<char>) -> Option<SpecReading> {
    spec_extract_lines(spec_lines(s))
}

/// Infers a progress reading from a chunk of output.
pub fn extract_progress(chunk: &str) -> (r: Option<ProgressReading>)
    ensures
        view_opt(r) == spec_extract(chunk@),
        r is Some ==> r->0@.wf(),
{
    let chars = to_chars(chunk);
    let ls = split_lines(&chars);
    let mut i: usize = ls.len();
    proof {
        assert(ls.deep_view().take(i as int) =~= ls.deep_view());
    }
    while i > 0
        invariant
            i <= ls.deep_view().len(),
            ls.deep_view() == spec_lines(chunk@),
            spec_extract_lines(ls.deep_view()) == spec_extract_lines(ls.deep_view().take(i as int)),
        decreases i,
    {
        i = i - 1;
        let line = &ls[i];
        let p = parse_line(line);
        proof {
            let pre = ls.deep_view().take(i as int + 1);
            assert(pre.last() == ls.deep_view()[i as int]);
            assert(line@ == ls.deep_view()[i as int]);
            assert(pre.drop_last() =~= ls.deep_view().take(i as int));
        }
        if p.is_some() {
            return p;
        }
    }
    proof {
        assert(ls.deep_view().take(0) =~= Seq::<Seq<char>>::empty());
    }
    Option::None
}

} // verus!
