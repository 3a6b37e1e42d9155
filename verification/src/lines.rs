//! Splitting output text into lines, and the raw tail used by
//! fallback and failure reports.
//!
//! The model follows `str::lines`: lines are separated by `'\n'`, a
//! carriage return directly before the separator is dropped, and a
//! final separator does not open an empty last line.

use vstd::prelude::*;
use crate::text::{push_chars, spec_is_space, is_space, to_chars};

verus! {

/// Index of the first occurrence of `c` in `s`, or `-1`.
pub open spec fn spec_find(s: Seq<char>, c: char) -> int
    decreases s.len(),
{
    if s.len() == 0 {
        -1
    } else if s[0] == c {
        0
    } else {
        let r = spec_find(s.drop_first(), c);
        if r < 0 { -1 } else { r + 1 }
    }
}

pub proof fn lemma_find_props(s: Seq<char>, c: char)
    ensures
        spec_find(s, c) >= 0 ==> 0 <= spec_find(s, c) < s.len() && s[spec_find(s, c)] == c
            && (forall|j: int| 0 <= j < spec_find(s, c) ==> s[j] != c),
        spec_find(s, c) < 0 ==> (forall|j: int| 0 <= j < s.len() ==> s[j] != c),
    decreases s.len(),
{
    if s.len() == 0 {
    } else if s[0] == c {
    } else {
        lemma_find_props(s.drop_first(), c);
        let r = spec_find(s.drop_first(), c);
        if r >= 0 {
            assert forall|j: int| 0 <= j < r + 1 implies s[j] != c by {
                if j > 0 {
                    assert(s[j] == s.drop_first()[j - 1]);
                }
            }
        } else {
            assert forall|j: int| 0 <= j < s.len() implies s[j] != c by {
                if j > 0 {
                    assert(s[j] == s.drop_first()[j - 1]);
                }
            }
        }
    }
}

/// The first occurrence of `c` is wherever it is seen first.
pub proof fn lemma_find_at(s: Seq<char>, c: char, k: int)
    requires
        0 <= k < s.len(),
        s[k] == c,
        forall|j: int| 0 <= j < k ==> s[j] != c,
    ensures
        spec_find(s, c) == k,
    decreases s.len(),
{
    if k == 0 {
    } else {
        lemma_find_at(s.drop_first(), c, k - 1);
    }
}

/// A line with a trailing carriage return loses it.
pub open spec fn spec_chomp_cr(l: Seq<char>) -> Seq<char> {
    if l.len() > 0 && l.last() == '\r' {
        l.drop_last()
    } else {
        l
    }
}

/// The lines of `s`, as `str::lines` yields them.
pub open spec fn spec_lines(s: Seq<char>) -> Seq<Seq<char>>
    decreases s.len(),
{
    if s.len() == 0 {
        seq![]
    } else {
        let i = spec_find(s, '\n');
        if 0 <= i < s.len() {
            seq![spec_chomp_cr(s.take(i))] + spec_lines(s.skip(i + 1))
        } else {
            seq![s]
        }
    }
}

/// A text whose first separator stands at `k` opens with the line
/// before it.
pub proof fn lemma_lines_step(s: Seq<char>, k: int)
    requires
        0 <= k < s.len(),
        s[k] == '\n',
        forall|j: int| 0 <= j < k ==> s[j] != '\n',
    ensures
        spec_lines(s) == seq![spec_chomp_cr(s.take(k))] + spec_lines(s.skip(k + 1)),
{
    lemma_find_at(s, '\n', k);
}

/// A nonempty text without separators is one line.
pub proof fn lemma_lines_whole(s: Seq<char>)
    requires
        s.len() > 0,
        forall|j: int| 0 <= j < s.len() ==> s[j] != '\n',
    ensures
        spec_lines(s) == seq![s],
{
    lemma_find_props(s, '\n');
}

/// Splits `v` into its lines.
pub fn split_lines(v: &Vec<char>) -> (r: Vec<Vec<char>>)
    ensures
        r.deep_view() == spec_lines(v@),
{
    let n = v.len();
    let mut r: Vec<Vec<char>> = Vec::new();
    let mut start: usize = 0;
    let mut i: usize = 0;
    proof {
        assert(v@.skip(0) =~= v@);
        assert(r.deep_view() =~= Seq::<Seq<char>>::empty());
        assert(r.deep_view() + spec_lines(v@) =~= spec_lines(v@));
    }
    while i < n
        invariant
            start <= i <= n,
            n == v@.len(),
            forall|j: int| start <= j < i ==> v@[j] != '\n',
            spec_lines(v@) == r.deep_view() + spec_lines(v@.skip(start as int)),
        decreases n - i,
    {
        if v[i] == '\n' {
            let mut line: Vec<char> = Vec::new();
            let end = if i > start && v[i - 1] == '\r' { i - 1 } else { i };
            let mut j: usize = start;
            while j < end
                invariant
                    start <= j <= end <= v@.len(),
                    line@ == v@.subrange(start as int, j as int),
                decreases end - j,
            {
                line.push(v[j]);
                j = j + 1;
                assert(line@ =~= v@.subrange(start as int, j as int));
            }
            proof {
                let tail = v@.skip(start as int);
                lemma_lines_step(tail, i - start);
                assert(tail.take(i - start) =~= v@.subrange(start as int, i as int));
                assert(tail.skip(i - start + 1) =~= v@.skip(i + 1));
                if i > start && v@[i as int - 1] == '\r' {
                    assert(spec_chomp_cr(v@.subrange(start as int, i as int))
                        =~= v@.subrange(start as int, i as int - 1));
                    assert(line@ =~= spec_chomp_cr(v@.subrange(start as int, i as int)));
                } else {
                    assert(spec_chomp_cr(v@.subrange(start as int, i as int))
                        =~= v@.subrange(start as int, i as int));
                }
            }
            let ghost old_r = r.deep_view();
            r.push(line);
            proof {
                assert(r.deep_view() =~~= old_r.push(line@));
                assert(old_r.push(line@) =~= old_r + seq![line@]);
            }
            start = i + 1;
        }
        i = i + 1;
    }
    if start < n {
        let mut line: Vec<char> = Vec::new();
        let mut j: usize = start;
        while j < n
            invariant
                start <= j <= n == v@.len(),
                line@ == v@.subrange(start as int, j as int),
            decreases n - j,
        {
            line.push(v[j]);
            j = j + 1;
            assert(line@ =~= v@.subrange(start as int, j as int));
        }
        proof {
            let tail = v@.skip(start as int);
            assert(line@ =~= tail);
            lemma_lines_whole(tail);
        }
        let ghost old_r = r.deep_view();
        r.push(line);
        proof {
            assert(r.deep_view() =~~= old_r.push(line@));
            assert(old_r.push(line@) =~= old_r + seq![line@]);
            assert(r.deep_view() =~= spec_lines(v@));
        }
    } else {
        proof {
            assert(v@.skip(start as int) =~= Seq::<char>::empty());
            assert(r.deep_view() =~= spec_lines(v@));
        }
    }
    r
}

/// The lines joined back with `'\n'`.
pub open spec fn spec_join_nl(ls: Seq<Seq<char>>) -> Seq<char>
    decreases ls.len(),
{
    if ls.len() == 0 {
        Seq::empty()
    } else if ls.len() == 1 {
        ls[0]
    } else {
        ls[0] + seq!['\n'] + spec_join_nl(ls.drop_first())
    }
}

pub proof fn lemma_join_push(ls: Seq<Seq<char>>, l: Seq<char>)
    ensures
        ls.len() == 0 ==> spec_join_nl(ls.push(l)) == l,
        ls.len() > 0 ==> spec_join_nl(ls.push(l)) == spec_join_nl(ls) + seq!['\n'] + l,
    decreases ls.len(),
{
    if ls.len() == 0 {
        assert(ls.push(l)[0] =~= l);
    } else if ls.len() == 1 {
        assert(ls.push(l).drop_first() =~= seq![l]);
        assert(ls.push(l)[0] == ls[0]);
        assert(spec_join_nl(seq![l]) == l);
        assert(spec_join_nl(ls.push(l)) == ls[0] + seq!['\n'] + l);
    } else {
        lemma_join_push(ls.drop_first(), l);
        assert(ls.push(l).drop_first() =~= ls.drop_first().push(l));
        assert(spec_join_nl(ls) + seq!['\n'] + l
            =~= ls[0] + seq!['\n'] + (spec_join_nl(ls.drop_first()) + seq!['\n'] + l));
    }
}

/// The last `n` lines of `text`, joined with `'\n'`.
pub open spec fn spec_tail_lines(s: Seq<char>, n: int) -> Seq<char> {
    let ls = spec_lines(s);
    let from = if ls.len() >= n { ls.len() - n } else { 0 };
    spec_join_nl(ls.skip(from))
}

/// The raw tail shown in fallback and failure reports: the last `n`
/// lines of `text`.
pub fn tail_lines(text: &str, n: usize) -> (r: String)
    ensures
        r@ == spec_tail_lines(text@, n as int),
{
    let chars = to_chars(text);
    let ls = split_lines(&chars);
    let from: usize = if ls.len() >= n { ls.len() - n } else { 0 };
    let mut r = String::new();
    let mut i: usize = from;
    proof {
        assert(spec_lines(text@).skip(from as int).skip(0) =~= spec_lines(text@).skip(from as int));
    }
    while i < ls.len()
        invariant
            from <= i <= ls.len(),
            ls.deep_view() == spec_lines(text@),
            r@ == spec_join_nl(ls.deep_view().subrange(from as int, i as int)),
        decreases ls.len() - i,
    {
        let ghost sofar = ls.deep_view().subrange(from as int, i as int);
        if i > from {
            crate::text::push_char(&mut r, '\n');
        }
        let line = &ls[i];
        let len = line.len();
        push_chars(&mut r, line, 0, len);
        proof {
            assert(line@.subrange(0, len as int) =~= ls.deep_view()[i as int]);
            lemma_join_push(sofar, ls.deep_view()[i as int]);
            assert(ls.deep_view().subrange(from as int, i as int + 1)
                =~= sofar.push(ls.deep_view()[i as int]));
        }
        i = i + 1;
    }
    proof {
        assert(ls.deep_view().subrange(from as int, ls.deep_view().len() as int)
            =~= ls.deep_view().skip(from as int));
    }
    r
}

/// Whether the text holds nothing but whitespace.
pub open spec fn spec_is_blank(s: Seq<char>) -> bool {
    forall|j: int| 0 <= j < s.len() ==> spec_is_space(s[j])
}

/// Whether `text` is empty or whitespace-only; such a slice is skipped
/// by the monitor.
pub fn is_blank(text: &str) -> (r: bool)
    ensures
        r == spec_is_blank(text@),
{
    let chars = to_chars(text);
    let n = chars.len();
    let mut i: usize = 0;
    while i < n
        invariant
            i <= n,
            n == text@.len(),
            chars@ == text@,
            forall|j: int| 0 <= j < i ==> spec_is_space(text@[j]),
        decreases n - i,
    {
        if !is_space(chars[i]) {
            return false;
        }
        i = i + 1;
    }
    true
}

} // verus!
