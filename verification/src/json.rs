//! Defensive decoding of the external semantic parser's reply.
//!
//! The reply is expected to be a JSON-like object with `percent`,
//! `current`, `total` and `summary` fields, possibly wrapped in
//! markdown.  Every field is optional and any structural mismatch —
//! missing key, `null`, a malformed number, a value out of range —
//! yields an absent field, never an error: a malformed reply is simply
//! "no reading".

use vstd::prelude::*;
use crate::text::{spec_is_digit, is_digit, push_char};
use crate::scan::{digit_end, scan_digit_end, space_end, scan_space_end, digits_val, val_capped,
    parse_digits, lemma_digit_end};
use crate::lines::{spec_find, lemma_find_props, lemma_find_at};
use crate::extract::{within_100, centi_of, frac_digit};
use crate::reading::{ProgressReading, SpecReading, view_opt};
use crate::text::to_chars;

verus! {

// ------------------------------------------------------------------
// locating fields
// ------------------------------------------------------------------

/// Whether `pat` stands at `i` in `s`.
pub open spec fn seq_match_at(s: Seq<char>, pat: Seq<char>, i: int) -> bool {
    0 <= i && i + pat.len() <= s.len() && s.subrange(i, i + pat.len()) == pat
}

/// First position at or after `i` where `pat` stands, or `-1`.
pub open spec fn find_seq_from(s: Seq<char>, pat: Seq<char>, i: int) -> int
    decreases s.len() + 1 - i,
{
    if i < 0 || i + pat.len() > s.len() {
        -1
    } else if seq_match_at(s, pat, i) {
        i
    } else {
        find_seq_from(s, pat, i + 1)
    }
}

proof fn lemma_find_seq_skip(s: Seq<char>, pat: Seq<char>, i: int)
    requires
        0 <= i,
        forall|j: int| 0 <= j < i ==> !seq_match_at(s, pat, j),
    ensures
        find_seq_from(s, pat, 0) == find_seq_from(s, pat, i),
    decreases i,
{
    if i > 0 {
        lemma_find_seq_skip(s, pat, i - 1);
        if i - 1 + pat.len() > s.len() {
            assert(i + pat.len() > s.len());
        }
    }
}

/// Whether `pat` stands at `i`, checked character by character.
fn match_at(v: &Vec<char>, pat: &Vec<char>, i: usize) -> (r: bool)
    ensures
        r == seq_match_at(v@, pat@, i as int),
{
    let n = v.len();
    let m = pat.len();
    if i > n || n - i < m {
        return false;
    }
    let ghost sub = v@.subrange(i as int, i as int + m as int);
    assert(forall|k: int| 0 <= k < m ==> sub[k] == v@[i + k]);
    let mut k: usize = 0;
    while k < m
        invariant
            k <= m,
            i + m <= n == v@.len(),
            m == pat@.len(),
            sub == v@.subrange(i as int, i as int + m as int),
            forall|t: int| 0 <= t < k ==> sub[t] == pat@[t],
        decreases m - k,
    {
        if v[i + k] != pat[k] {
            assert(sub[k as int] != pat@[k as int]);
            return false;
        }
        k = k + 1;
    }
    assert(sub =~= pat@);
    true
}

/// Finds the leftmost occurrence of `pat`.
fn find_sub(v: &Vec<char>, pat: &Vec<char>) -> (r: Option<usize>)
    requires
        pat@.len() > 0,
    ensures
        ({
            let f = find_seq_from(v@, pat@, 0);
            match r {
                Option::Some(i) => f == i && i + pat@.len() <= v@.len(),
                Option::None => f < 0,
            }
        }),
{
    let n = v.len();
    let mut i: usize = 0;
    while i < n
        invariant
            i <= n == v@.len(),
            forall|j: int| 0 <= j < i ==> !seq_match_at(v@, pat@, j),
        decreases n - i,
    {
        if match_at(v, pat, i) {
            proof {
                lemma_find_seq_skip(v@, pat@, i as int);
            }
            return Option::Some(i);
        }
        i = i + 1;
    }
    proof {
        lemma_find_seq_skip(v@, pat@, n as int);
    }
    Option::None
}

/// First occurrence of `c` at or after `start`, as an absolute index.
fn find_char_from(v: &Vec<char>, c: char, start: usize) -> (r: Option<usize>)
    requires
        start <= v@.len(),
    ensures
        ({
            let f = spec_find(v@.skip(start as int), c);
            match r {
                Option::Some(k) => start <= k < v@.len() && f == k - start,
                Option::None => f < 0,
            }
        }),
{
    let n = v.len();
    let mut k = start;
    while k < n
        invariant
            start <= k <= n == v@.len(),
            forall|j: int| start <= j < k ==> v@[j] != c,
        decreases n - k,
    {
        if v[k] == c {
            proof {
                let tail = v@.skip(start as int);
                assert(forall|j: int| 0 <= j < k - start ==> tail[j] == v@[j + start]);
                lemma_find_at(tail, c, k - start);
            }
            return Option::Some(k);
        }
        k = k + 1;
    }
    proof {
        let tail = v@.skip(start as int);
        assert(forall|j: int| 0 <= j < tail.len() ==> tail[j] == v@[j + start]);
        lemma_find_props(tail, c);
    }
    Option::None
}

/// Where the value of the field named by `pat` begins: after the first
/// occurrence of the quoted key, the first colon after it, and any
/// whitespace; `-1` when key or colon is missing.
pub open spec fn spec_value_pos(s: Seq<char>, pat: Seq<char>) -> int {
    let idx = find_seq_from(s, pat, 0);
    if idx < 0 {
        -1
    } else {
        let c = spec_find(s.skip(idx + pat.len()), ':');
        if c < 0 {
            -1
        } else {
            space_end(s, idx + pat.len() + c + 1)
        }
    }
}

/// Finds where the value of a field begins.
fn value_pos(v: &Vec<char>, pat: &Vec<char>) -> (r: Option<usize>)
    requires
        pat@.len() > 0,
    ensures
        ({
            let p = spec_value_pos(v@, pat@);
            match r {
                Option::Some(q) => p == q && q <= v@.len(),
                Option::None => p < 0,
            }
        }),
{
    let n = v.len();
    let idx = match find_sub(v, pat) {
        Option::Some(i) => i,
        Option::None => { return Option::None; },
    };
    assert(idx + pat@.len() <= n);
    let after = idx + pat.len();
    let colon = match find_char_from(v, ':', after) {
        Option::Some(k) => k,
        Option::None => { return Option::None; },
    };
    let p = scan_space_end(v, colon + 1);
    Option::Some(p)
}

// ------------------------------------------------------------------
// numbers
// ------------------------------------------------------------------

/// A character a number may be written with.
pub open spec fn spec_is_numch(c: char) -> bool {
    spec_is_digit(c) || c == '.' || c == '-'
}

/// Where the run of number characters starting at `i` ends.
pub open spec fn numch_end(l: Seq<char>, i: int) -> int
    decreases l.len() - i,
{
    if 0 <= i < l.len() && spec_is_numch(l[i]) {
        numch_end(l, i + 1)
    } else {
        i
    }
}

fn scan_numch_end(v: &Vec<char>, i: usize) -> (r: usize)
    requires
        i <= v@.len(),
    ensures
        r as int == numch_end(v@, i as int),
        i <= r <= v@.len(),
{
    let n = v.len();
    let mut j = i;
    while j < n && (is_digit(v[j]) || v[j] == '.' || v[j] == '-')
        invariant
            i <= j <= n == v@.len(),
            numch_end(v@, i as int) == numch_end(v@, j as int),
        decreases n - j,
    {
        j = j + 1;
    }
    proof {
        lemma_numch_end(v@, i as int);
    }
    j
}

proof fn lemma_numch_end(l: Seq<char>, i: int)
    requires
        0 <= i <= l.len(),
    ensures
        i <= numch_end(l, i) <= l.len(),
    decreases l.len() - i,
{
    if i < l.len() && spec_is_numch(l[i]) {
        lemma_numch_end(l, i + 1);
    }
}

/// Whether the number text opens with a minus sign.
pub open spec fn spec_num_neg(ds: Seq<char>) -> bool {
    ds.len() > 0 && ds[0] == '-'
}

/// Where the digits of the number text begin, after any sign.
pub open spec fn num_body(ds: Seq<char>) -> int {
    if spec_num_neg(ds) { 1 } else { 0 }
}

/// The integer digits of the number text.
pub open spec fn spec_num_ip(ds: Seq<char>) -> Seq<char> {
    ds.subrange(num_body(ds), digit_end(ds, num_body(ds)))
}

/// The fractional digits of the number text.
pub open spec fn spec_num_fp(ds: Seq<char>) -> Seq<char> {
    let d = digit_end(ds, num_body(ds));
    if d < ds.len() && ds[d] == '.' {
        ds.subrange(d + 1, digit_end(ds, d + 1))
    } else {
        Seq::empty()
    }
}

/// Whether the text is a well-formed decimal number: an optional
/// sign, digits, at most one dot, at least one digit in all.
pub open spec fn valid_number(ds: Seq<char>) -> bool {
    let b = num_body(ds);
    let d = digit_end(ds, b);
    if d == ds.len() {
        d > b
    } else if ds[d] == '.' {
        let e = digit_end(ds, d + 1);
        e == ds.len() && (d > b || e > d + 1)
    } else {
        false
    }
}

/// Checks the shape of a number text.
fn check_number(ds: &Vec<char>) -> (r: bool)
    ensures
        r == valid_number(ds@),
{
    let n = ds.len();
    let b: usize = if n > 0 && ds[0] == '-' { 1 } else { 0 };
    let d = scan_digit_end(ds, b);
    if d == n {
        d > b
    } else if ds[d] == '.' {
        let e = scan_digit_end(ds, d + 1);
        e == n && (d > b || e > d + 1)
    } else {
        false
    }
}

// ------------------------------------------------------------------
// the fields
// ------------------------------------------------------------------

/// The text of a number field's value: `None` when the key or colon
/// is missing or the value is `null`.
pub open spec fn spec_number_text(s: Seq<char>, pat: Seq<char>) -> Option<Seq<char>> {
    let p = spec_value_pos(s, pat);
    if p < 0 {
        Option::None
    } else if seq_match_at(s, "null"@, p) {
        Option::None
    } else {
        Option::Some(s.subrange(p, numch_end(s, p)))
    }
}

/// The `percent` field in hundredths: absent when missing, `null`,
/// malformed, negative or beyond 100.
pub open spec fn spec_percent_field(s: Seq<char>) -> Option<u32> {
    match spec_number_text(s, "\"percent\""@) {
        Option::None => Option::None,
        Option::Some(ds) => {
            if valid_number(ds) && !spec_num_neg(ds) && within_100(spec_num_ip(ds), spec_num_fp(ds)) {
                Option::Some(centi_of(spec_num_ip(ds), spec_num_fp(ds)) as u32)
            } else {
                Option::None
            }
        },
    }
}

/// A step-counter field: the integer part of the number, absent when
/// missing, `null`, malformed or negative; capped at `u64::MAX`.
pub open spec fn spec_count_field(s: Seq<char>, pat: Seq<char>) -> Option<u64> {
    match spec_number_text(s, pat) {
        Option::None => Option::None,
        Option::Some(ds) => {
            if valid_number(ds) && !spec_num_neg(ds) {
                Option::Some(val_capped(spec_num_ip(ds)) as u64)
            } else {
                Option::None
            }
        },
    }
}

/// Copies `v[from..to]` into a fresh vector.
fn copy_range(v: &Vec<char>, from: usize, to: usize) -> (r: Vec<char>)
    requires
        from <= to <= v@.len(),
    ensures
        r@ == v@.subrange(from as int, to as int),
{
    let mut r: Vec<char> = Vec::new();
    let mut k = from;
    while k < to
        invariant
            from <= k <= to <= v@.len(),
            r@ == v@.subrange(from as int, k as int),
        decreases to - k,
    {
        r.push(v[k]);
        k = k + 1;
        assert(r@ =~= v@.subrange(from as int, k as int));
    }
    assert(r@ =~= v@.subrange(from as int, to as int));
    r
}

/// Whether `null` stands at `p`.
fn null_at(v: &Vec<char>, p: usize) -> (r: bool)
    ensures
        r == seq_match_at(v@, "null"@, p as int),
{
    proof {
        reveal_strlit("null");
    }
    let pat = to_chars("null");
    assert(pat@ =~= "null"@);
    match_at(v, &pat, p)
}

/// Reads the text of a number field, `None` for a missing key or a
/// `null` value.
fn number_text(v: &Vec<char>, pat: &Vec<char>) -> (r: Option<Vec<char>>)
    requires
        pat@.len() > 0,
    ensures
        ({
            match (r, spec_number_text(v@, pat@)) {
                (Option::Some(ds), Option::Some(sds)) => ds@ == sds,
                (Option::None, Option::None) => true,
                _ => false,
            }
        }),
{
    let p = match value_pos(v, pat) {
        Option::Some(p) => p,
        Option::None => { return Option::None; },
    };
    if null_at(v, p) {
        return Option::None;
    }
    let e = scan_numch_end(v, p);
    Option::Some(copy_range(v, p, e))
}

/// Reads the `percent` field.
fn percent_field(v: &Vec<char>) -> (r: Option<u32>)
    ensures
        r == spec_percent_field(v@),
        r is Some ==> r->0 <= 10000,
{
    proof {
        reveal_strlit("\"percent\"");
    }
    let pat = to_chars("\"percent\"");
    assert(pat@ =~= "\"percent\""@);
    let ds = match number_text(v, &pat) {
        Option::Some(ds) => ds,
        Option::None => { return Option::None; },
    };
    if !check_number(&ds) {
        return Option::None;
    }
    let n = ds.len();
    let b: usize = if n > 0 && ds[0] == '-' { 1 } else { 0 };
    if b == 1 {
        return Option::None;
    }
    let d = scan_digit_end(&ds, 0);
    proof {
        lemma_digit_end(ds@, 0);
        assert(spec_num_ip(ds@) =~= ds@.subrange(0, d as int));
    }
    let ipv = parse_digits(&ds, 0, d);
    let ghost ip = spec_num_ip(ds@);
    let ghost fp = spec_num_fp(ds@);
    proof {
        assert(ipv <= 100 ==> ipv as nat == digits_val(ip));
    }
    if d < n && ds[d] == '.' {
        let e = scan_digit_end(&ds, d + 1);
        proof {
            lemma_digit_end(ds@, d as int + 1);
            assert(fp =~= ds@.subrange(d as int + 1, e as int));
        }
        let f0: u32 = if e - d > 1 { ds[d + 1] as u32 - 48 } else { 0 };
        let f1: u32 = if e - d > 2 { ds[d + 2] as u32 - 48 } else { 0 };
        proof {
            assert(d as int + 1 < e ==> fp[0] == ds@[d as int + 1]);
            assert(d as int + 2 < e ==> fp[1] == ds@[d as int + 2]);
        }
        if ipv < 100 {
            Option::Some(ipv as u32 * 100 + f0 * 10 + f1)
        } else if ipv == 100 {
            if crate::extract::check_frac_zero(&ds, d + 1, e) {
                assert(f0 == 0 && f1 == 0);
                Option::Some(10000)
            } else {
                Option::None
            }
        } else {
            Option::None
        }
    } else {
        proof {
            assert(fp =~= Seq::<char>::empty());
        }
        if ipv <= 100 {
            Option::Some(ipv as u32 * 100)
        } else {
            Option::None
        }
    }
}

/// Reads a step-counter field.
fn count_field(v: &Vec<char>, pat: &Vec<char>) -> (r: Option<u64>)
    requires
        pat@.len() > 0,
    ensures
        r == spec_count_field(v@, pat@),
{
    let ds = match number_text(v, pat) {
        Option::Some(ds) => ds,
        Option::None => { return Option::None; },
    };
    if !check_number(&ds) {
        return Option::None;
    }
    let n = ds.len();
    if n > 0 && ds[0] == '-' {
        return Option::None;
    }
    let d = scan_digit_end(&ds, 0);
    proof {
        lemma_digit_end(ds@, 0);
        assert(spec_num_ip(ds@) =~= ds@.subrange(0, d as int));
    }
    Option::Some(parse_digits(&ds, 0, d))
}

// ------------------------------------------------------------------
// the summary string
// ------------------------------------------------------------------

/// Index of the closing quote, escapes skipped; `-1` when none
/// closes.
pub open spec fn spec_quote_end(s: Seq<char>, i: int) -> int
    decreases s.len() - i,
{
    if i < 0 || i >= s.len() {
        -1
    } else if s[i] == '\\' {
        if i + 1 >= s.len() {
            -1
        } else {
            spec_quote_end(s, i + 2)
        }
    } else if s[i] == '"' {
        i
    } else {
        spec_quote_end(s, i + 1)
    }
}

fn scan_quote_end(v: &Vec<char>, i: usize) -> (r: Option<usize>)
    requires
        i <= v@.len(),
    ensures
        ({
            let q = spec_quote_end(v@, i as int);
            match r {
                Option::Some(k) => q == k && i <= k < v@.len(),
                Option::None => q < 0,
            }
        }),
{
    let n = v.len();
    let mut k = i;
    while k < n
        invariant
            i <= k <= n == v@.len(),
            spec_quote_end(v@, i as int) == spec_quote_end(v@, k as int),
        decreases n - k,
    {
        if v[k] == '\\' {
            if k + 1 >= n {
                return Option::None;
            }
            k = k + 2;
        } else if v[k] == '"' {
            return Option::Some(k);
        } else {
            k = k + 1;
        }
    }
    Option::None
}

/// The summary with its escapes resolved: an escaped quote becomes a
/// quote and a literal `\n` a space; anything else stays.
pub open spec fn spec_unescape(s: Seq<char>) -> Seq<char>
    decreases s.len(),
{
    if s.len() == 0 {
        Seq::empty()
    } else if s.len() >= 2 && s[0] == '\\' && s[1] == '"' {
        seq!['"'] + spec_unescape(s.skip(2))
    } else if s.len() >= 2 && s[0] == '\\' && s[1] == 'n' {
        seq![' '] + spec_unescape(s.skip(2))
    } else {
        seq![s[0]] + spec_unescape(s.skip(1))
    }
}

fn unescape(v: &Vec<char>) -> (r: String)
    ensures
        r@ == spec_unescape(v@),
{
    let n = v.len();
    let mut r = String::new();
    let mut k: usize = 0;
    proof {
        assert(v@.skip(0) =~= v@);
    }
    while k < n
        invariant
            k <= n == v@.len(),
            spec_unescape(v@) == r@ + spec_unescape(v@.skip(k as int)),
        decreases n - k,
    {
        let ghost rest = v@.skip(k as int);
        assert(rest[0] == v@[k as int]);
        if v[k] == '\\' && k + 1 < n && v[k + 1] == '"' {
            assert(rest[1] == v@[k as int + 1]);
            push_char(&mut r, '"');
            proof {
                assert(rest.skip(2) =~= v@.skip(k as int + 2));
            }
            k = k + 2;
        } else if v[k] == '\\' && k + 1 < n && v[k + 1] == 'n' {
            assert(rest[1] == v@[k as int + 1]);
            push_char(&mut r, ' ');
            proof {
                assert(rest.skip(2) =~= v@.skip(k as int + 2));
            }
            k = k + 2;
        } else {
            proof {
                if rest.len() >= 2 {
                    assert(rest[1] == v@[k as int + 1]);
                }
            }
            push_char(&mut r, v[k]);
            proof {
                assert(rest.skip(1) =~= v@.skip(k as int + 1));
            }
            k = k + 1;
        }
    }
    proof {
        assert(v@.skip(n as int) =~= Seq::<char>::empty());
        assert(r@ =~= r@ + spec_unescape(v@.skip(n as int)));
    }
    r
}

/// The `summary` field: the escaped text up to the closing quote,
/// empty when no quote closes; `None` when the field is missing or
/// not a string.
pub open spec fn spec_summary_field(s: Seq<char>) -> Option<Seq<char>> {
    let p = spec_value_pos(s, "\"summary\""@);
    if p < 0 {
        Option::None
    } else if !(p < s.len() && s[p] == '"') {
        Option::None
    } else {
        let q = spec_quote_end(s, p + 1);
        if q < 0 {
            Option::Some(Seq::empty())
        } else {
            Option::Some(spec_unescape(s.subrange(p + 1, q)))
        }
    }
}

fn summary_field(v: &Vec<char>) -> (r: Option<String>)
    ensures
        ({
            match (r, spec_summary_field(v@)) {
                (Option::Some(t), Option::Some(st)) => t@ == st,
                (Option::None, Option::None) => true,
                _ => false,
            }
        }),
{
    proof {
        reveal_strlit("\"summary\"");
    }
    let pat = to_chars("\"summary\"");
    assert(pat@ =~= "\"summary\""@);
    let p = match value_pos(v, &pat) {
        Option::Some(p) => p,
        Option::None => { return Option::None; },
    };
    if !(p < v.len() && v[p] == '"') {
        return Option::None;
    }
    match scan_quote_end(v, p + 1) {
        Option::Some(q) => {
            let raw = copy_range(v, p + 1, q);
            Option::Some(unescape(&raw))
        },
        Option::None => Option::Some(String::new()),
    }
}

// ------------------------------------------------------------------
// the whole object
// ------------------------------------------------------------------

/// What the decoder yields for the text of a JSON object: nothing
/// when neither a percent nor a summary can be read; step counters
/// are kept only as a pair with a positive total.
pub open spec fn spec_parse_progress_json(s: Seq<char>) -> Option<SpecReading> {
    let pct = spec_percent_field(s);
    let summary = match spec_summary_field(s) {
        Option::Some(t) => t,
        Option::None => Seq::<char>::empty(),
    };
    if pct is None && summary.len() == 0 {
        Option::None
    } else {
        let cur = spec_count_field(s, "\"current\""@);
        let tot = spec_count_field(s, "\"total\""@);
        if cur is Some && tot is Some && tot->0 > 0 {
            Option::Some(SpecReading { percent_centi: pct, current: cur, total: tot, summary })
        } else {
            Option::Some(SpecReading {
                percent_centi: pct,
                current: Option::None,
                total: Option::None,
                summary,
            })
        }
    }
}

fn parse_progress_json_chars(v: &Vec<char>) -> (r: Option<ProgressReading>)
    ensures
        view_opt(r) == spec_parse_progress_json(v@),
        r is Some ==> r->0@.wf(),
{
    let pct = percent_field(v);
    let summary = match summary_field(v) {
        Option::Some(t) => t,
        Option::None => String::new(),
    };
    if pct.is_none() && summary.as_str().unicode_len() == 0 {
        return Option::None;
    }
    proof {
        reveal_strlit("\"current\"");
        reveal_strlit("\"total\"");
    }
    let cur_pat = to_chars("\"current\"");
    assert(cur_pat@ =~= "\"current\""@);
    let tot_pat = to_chars("\"total\"");
    assert(tot_pat@ =~= "\"total\""@);
    let cur = count_field(v, &cur_pat);
    let tot = count_field(v, &tot_pat);
    let keep = cur.is_some() && tot.is_some() && *tot.as_ref().unwrap() > 0;
    if keep {
        Option::Some(ProgressReading { percent_centi: pct, current: cur, total: tot, summary })
    } else {
        Option::Some(ProgressReading {
            percent_centi: pct,
            current: Option::None,
            total: Option::None,
            summary,
        })
    }
}

/// Decodes the reply of the external semantic parser; the fields it
/// cannot make sense of are absent, and a reply with neither percent
/// nor summary is no reading.
pub fn parse_progress_json(json: &str) -> (r: Option<ProgressReading>)
    ensures
        view_opt(r) == spec_parse_progress_json(json@),
        r is Some ==> r->0@.wf(),
{
    let chars = to_chars(json);
    parse_progress_json_chars(&chars)
}

/// Index of the last occurrence of `c` in `s`, or `-1`.
pub open spec fn spec_rfind(s: Seq<char>, c: char) -> int
    decreases s.len(),
{
    if s.len() == 0 {
        -1
    } else if s.last() == c {
        s.len() - 1
    } else {
        spec_rfind(s.drop_last(), c)
    }
}

fn rfind_char(v: &Vec<char>, c: char) -> (r: Option<usize>)
    ensures
        ({
            let f = spec_rfind(v@, c);
            match r {
                Option::Some(k) => f == k && k < v@.len(),
                Option::None => f < 0,
            }
        }),
{
    let mut k = v.len();
    proof {
        assert(v@.take(k as int) =~= v@);
    }
    while k > 0
        invariant
            k <= v@.len(),
            spec_rfind(v@, c) == spec_rfind(v@.take(k as int), c),
        decreases k,
    {
        k = k - 1;
        proof {
            assert(v@.take(k as int + 1).last() == v@[k as int]);
            assert(v@.take(k as int + 1).drop_last() =~= v@.take(k as int));
        }
        if v[k] == c {
            return Option::Some(k);
        }
    }
    proof {
        assert(v@.take(0) =~= Seq::<char>::empty());
    }
    Option::None
}

/// The braced part of the reply: from the first `{` to the last `}`,
/// tolerating markdown around it; nothing when no such span exists.
pub open spec fn spec_json_object(s: Seq<char>) -> Option<Seq<char>> {
    let a = spec_find(s, '{');
    let b = spec_rfind(s, '}');
    if a >= 0 && b >= a {
        Option::Some(s.subrange(a, b + 1))
    } else {
        Option::None
    }
}

/// What the whole reply yields once its braced part is decoded.
pub open spec fn spec_parse_external(s: Seq<char>) -> Option<SpecReading> {
    match spec_json_object(s) {
        Option::None => Option::None,
        Option::Some(j) => spec_parse_progress_json(j),
    }
}

/// Decodes the raw reply of the external semantic parser: the braced
/// span is located first, so markdown wrapping is tolerated; any
/// malformed reply is "no reading".
pub fn parse_external_reply(raw: &str) -> (r: Option<ProgressReading>)
    ensures
        view_opt(r) == spec_parse_external(raw@),
        r is Some ==> r->0@.wf(),
{
    let chars = to_chars(raw);
    let a = match find_char_from(&chars, '{', 0) {
        Option::Some(a) => a,
        Option::None => {
            proof {
                assert(chars@.skip(0) =~= chars@);
            }
            return Option::None;
        },
    };
    proof {
        assert(chars@.skip(0) =~= chars@);
    }
    let b = match rfind_char(&chars, '}') {
        Option::Some(b) => b,
        Option::None => { return Option::None; },
    };
    if b < a {
        return Option::None;
    }
    let obj = copy_range(&chars, a, b + 1);
    parse_progress_json_chars(&obj)
}

} // verus!
