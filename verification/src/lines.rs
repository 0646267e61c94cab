//! Splitting the input text into lines.
//!
//! Lines are separated by `\n`; a separator preceded by `\r` (a `\r\n`
//! ending) has the `\r` removed from the line as well.  Separators are
//! consumed, a trailing separator opens no extra empty line, and empty input
//! has no lines at all.

use crate::text::find_first;
use crate::text::lemma_find_first;
use vstd::prelude::*;
use vstd::string::StrSliceExecFns;

verus! {

/// `l` without a final carriage return, if it carries one.
pub open spec fn strip_cr(l: Seq<char>) -> Seq<char> {
    if l.len() > 0 && l.last() == '\r' {
        l.drop_last()
    } else {
        l
    }
}

/// The lines of `text`, in order.
pub open spec fn spec_lines(text: Seq<char>) -> Seq<Seq<char>>
    decreases text.len(),
    via spec_lines_decreases
{
    if text.len() == 0 {
        Seq::empty()
    } else {
        match find_first(text, '\n') {
            None => seq![text],
            Some(i) => seq![strip_cr(text.take(i))] + spec_lines(text.skip(i + 1)),
        }
    }
}

#[via_fn]
proof fn spec_lines_decreases(text: Seq<char>) {
    lemma_find_first(text, '\n');
}

/// One unfolding of `spec_lines` at a line break found by scanning: if no
/// `\n` occurs in `[start, i)` and `t[i]` is `\n`, the lines of the suffix at
/// `start` are the line `[start, i)` (with a final `\r` dropped) followed by
/// the lines of the suffix at `i + 1`.
proof fn lemma_lines_step(t: Seq<char>, start: int, i: int)
    requires
        0 <= start <= i < t.len(),
        forall|k: int| start <= k < i ==> t[k] != '\n',
        t[i] == '\n',
    ensures
        spec_lines(t.skip(start)) == seq![strip_cr(t.subrange(start, i))] + spec_lines(
            t.skip(i + 1),
        ),
{
    let u = t.skip(start);
    lemma_find_first(u, '\n');
    assert(forall|k: int| 0 <= k < u.len() ==> u[k] == t[k + start]);
    assert(u[i - start] == '\n');
    match find_first(u, '\n') {
        None => {
            assert(false);
        },
        Some(p) => {
            if p < i - start {
                assert(t[p + start] == '\n');
                assert(false);
            }
            if p > i - start {
                assert(u[i - start] != '\n');
                assert(false);
            }
            assert(p == i - start);
            assert(u.take(p) =~= t.subrange(start, i));
            assert(u.skip(p + 1) =~= t.skip(i + 1));
        },
    }
}

/// The lines of a suffix holding no `\n` at all: that suffix is the one
/// remaining line, or nothing when it is empty.
proof fn lemma_lines_last(t: Seq<char>, start: int)
    requires
        0 <= start <= t.len(),
        forall|k: int| start <= k < t.len() ==> t[k] != '\n',
    ensures
        start < t.len() ==> spec_lines(t.skip(start)) == seq![t.skip(start)],
        start == t.len() ==> spec_lines(t.skip(start)) == Seq::<Seq<char>>::empty(),
{
    let u = t.skip(start);
    lemma_find_first(u, '\n');
    assert(forall|k: int| 0 <= k < u.len() ==> u[k] == t[k + start]);
    if start < t.len() {
        match find_first(u, '\n') {
            None => {
            },
            Some(p) => {
                assert(t[p + start] == '\n');
                assert(false);
            },
        }
    } else {
        assert(u.len() == 0);
    }
}

/// Split `s` into its lines.
pub fn split_lines<'a>(s: &'a str) -> (r: Vec<&'a str>)
    ensures
        r@.len() == spec_lines(s@).len(),
        forall|k: int| 0 <= k < r@.len() ==> r@[k]@ == spec_lines(s@)[k],
{
    let n = s.unicode_len();
    let mut r: Vec<&str> = Vec::new();
    let ghost mut acc: Seq<Seq<char>> = Seq::empty();
    let mut start: usize = 0;
    let mut i: usize = 0;
    proof {
        assert(s@.skip(0) =~= s@);
        assert(acc + spec_lines(s@) =~= spec_lines(s@));
    }
    while i < n
        invariant
            start <= i <= n,
            forall|k: int| start <= k < i ==> s@[k] != '\n',
            acc.len() == r@.len(),
            forall|k: int| 0 <= k < r@.len() ==> r@[k]@ == acc[k],
            spec_lines(s@) == acc + spec_lines(s@.skip(start as int)),
        decreases n - i,
    {
        if s.get_char(i) == '\n' {
            let end: usize = if i > start && s.get_char(i - 1) == '\r' {
                i - 1
            } else {
                i
            };
            let line = s.substring_char(start, end);
            r.push(line);
            proof {
                lemma_lines_step(s@, start as int, i as int);
                assert(line@ =~= strip_cr(s@.subrange(start as int, i as int)));
                acc = acc.push(line@);
                assert(acc + spec_lines(s@.skip(i + 1)) =~= (acc.drop_last() + (seq![line@]
                    + spec_lines(s@.skip(i + 1)))));
            }
            start = i + 1;
        }
        i += 1;
    }
    if start < n {
        let line = s.substring_char(start, n);
        r.push(line);
        proof {
            lemma_lines_last(s@, start as int);
            acc = acc.push(line@);
            assert(acc =~= acc.drop_last() + seq![line@]);
            assert(spec_lines(s@) =~= acc);
        }
    } else {
        proof {
            lemma_lines_last(s@, start as int);
            assert(spec_lines(s@) =~= acc);
        }
    }
    r
}

} // verus!
