//! Runs of characters and decimal values, the ground the pattern
//! grammar stands on.

use vstd::prelude::*;
use crate::text::{spec_is_digit, is_digit, spec_is_space, is_space, digit_val};

verus! {

/// Where the run of digits starting at `i` ends.
pub open spec fn digit_end(l: Seq<char>, i: int) -> int
    decreases l.len() - i,
{
    if 0 <= i < l.len() && spec_is_digit(l[i]) {
        digit_end(l, i + 1)
    } else {
        i
    }
}

/// Where the run of whitespace starting at `i` ends.
pub open spec fn space_end(l: Seq<char>, i: int) -> int
    decreases l.len() - i,
{
    if 0 <= i < l.len() && spec_is_space(l[i]) {
        space_end(l, i + 1)
    } else {
        i
    }
}

pub proof fn lemma_digit_end(l: Seq<char>, i: int)
    requires
        0 <= i <= l.len(),
    ensures
        i <= digit_end(l, i) <= l.len(),
        forall|j: int| i <= j < digit_end(l, i) ==> spec_is_digit(l[j]),
        digit_end(l, i) < l.len() ==> !spec_is_digit(l[digit_end(l, i)]),
    decreases l.len() - i,
{
    if i < l.len() && spec_is_digit(l[i]) {
        lemma_digit_end(l, i + 1);
    }
}

pub proof fn lemma_space_end(l: Seq<char>, i: int)
    requires
        0 <= i <= l.len(),
    ensures
        i <= space_end(l, i) <= l.len(),
        forall|j: int| i <= j < space_end(l, i) ==> spec_is_space(l[j]),
        space_end(l, i) < l.len() ==> !spec_is_space(l[space_end(l, i)]),
    decreases l.len() - i,
{
    if i < l.len() && spec_is_space(l[i]) {
        lemma_space_end(l, i + 1);
    }
}

pub fn scan_digit_end(v: &Vec<char>, i: usize) -> (r: usize)
    requires
        i <= v@.len(),
    ensures
        r as int == digit_end(v@, i as int),
        i <= r <= v@.len(),
{
    let n = v.len();
    let mut j = i;
    while j < n && is_digit(v[j])
        invariant
            i <= j <= n == v@.len(),
            digit_end(v@, i as int) == digit_end(v@, j as int),
        decreases n - j,
    {
        j = j + 1;
    }
    proof {
        lemma_digit_end(v@, i as int);
    }
    j
}

pub fn scan_space_end(v: &Vec<char>, i: usize) -> (r: usize)
    requires
        i <= v@.len(),
    ensures
        r as int == space_end(v@, i as int),
        i <= r <= v@.len(),
{
    let n = v.len();
    let mut j = i;
    while j < n && is_space(v[j])
        invariant
            i <= j <= n == v@.len(),
            space_end(v@, i as int) == space_end(v@, j as int),
        decreases n - j,
    {
        j = j + 1;
    }
    proof {
        lemma_space_end(v@, i as int);
    }
    j
}

/// Value of a digit string, most significant digit first.
pub open spec fn digits_val(ds: Seq<char>) -> nat
    decreases ds.len(),
{
    if ds.len() == 0 {
        0
    } else {
        digits_val(ds.drop_last()) * 10 + digit_val(ds.last())
    }
}

/// Value of a digit string, capped at `u64::MAX`: larger counts are a
/// machine limit, not a parse failure.
pub open spec fn val_capped(ds: Seq<char>) -> nat {
    if digits_val(ds) > u64::MAX { u64::MAX as nat } else { digits_val(ds) }
}

/// Parses the digits `v[from..to]`, capping at `u64::MAX`.
pub fn parse_digits(v: &Vec<char>, from: usize, to: usize) -> (r: u64)
    requires
        from <= to <= v@.len(),
        forall|j: int| from <= j < to ==> spec_is_digit(v@[j]),
    ensures
        r as nat == val_capped(v@.subrange(from as int, to as int)),
{
    let mut acc: u64 = 0;
    let mut sat = false;
    let mut j: usize = from;
    proof {
        assert(v@.subrange(from as int, from as int) =~= Seq::<char>::empty());
    }
    while j < to
        invariant
            from <= j <= to <= v@.len(),
            forall|k: int| from <= k < to ==> spec_is_digit(v@[k]),
            !sat ==> acc as nat == digits_val(v@.subrange(from as int, j as int)),
            sat ==> acc == u64::MAX && digits_val(v@.subrange(from as int, j as int)) > u64::MAX,
        decreases to - j,
    {
        let ghost pre = v@.subrange(from as int, j as int);
        let ghost post = v@.subrange(from as int, j as int + 1);
        proof {
            assert(post.drop_last() =~= pre);
            assert(post.last() == v@[j as int]);
        }
        let c = v[j];
        assert(spec_is_digit(v@[j as int]));
        let d: u64 = (c as u32 - 48) as u64;
        assert(d as nat == digit_val(v@[j as int]));
        if sat || acc > (u64::MAX - d) / 10 {
            if !sat {
                proof {
                    let q = (u64::MAX - d) / 10;
                    vstd::arithmetic::div_mod::lemma_fundamental_div_mod(u64::MAX - d, 10);
                    vstd::arithmetic::div_mod::lemma_mod_bound(u64::MAX - d, 10);
                    assert(acc >= q + 1);
                    assert(acc * 10 >= (q + 1) * 10) by (nonlinear_arith)
                        requires acc >= q + 1;
                    assert(acc as nat * 10 + d > u64::MAX);
                }
            } else {
                proof {
                    assert(digits_val(post) == digits_val(pre) * 10 + d);
                    assert(digits_val(pre) * 10 >= digits_val(pre)) by (nonlinear_arith);
                }
            }
            sat = true;
            acc = u64::MAX;
        } else {
            proof {
                let q = (u64::MAX - d) / 10;
                vstd::arithmetic::div_mod::lemma_fundamental_div_mod(u64::MAX - d, 10);
                vstd::arithmetic::div_mod::lemma_mod_bound(u64::MAX - d, 10);
                assert(acc * 10 <= q * 10) by (nonlinear_arith)
                    requires acc <= q;
            }
            acc = acc * 10 + d;
        }
        j = j + 1;
    }
    acc
}

} // verus!
