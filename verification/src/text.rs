//! Character-level helpers: whitespace classification, first-occurrence
//! search, and trimming of leading or trailing whitespace.

use vstd::prelude::*;
use vstd::string::StrSliceExecFns;

verus! {

/// The Unicode `White_Space` code points, the set of characters that count as
/// whitespace for blank-line detection and for trimming.
pub open spec fn is_white(c: char) -> bool {
    let u = c as u32;
    ||| u == 0x20
    ||| 0x09 <= u <= 0x0D
    ||| u == 0x85
    ||| u == 0xA0
    ||| u == 0x1680
    ||| 0x2000 <= u <= 0x200A
    ||| u == 0x2028
    ||| u == 0x2029
    ||| u == 0x202F
    ||| u == 0x205F
    ||| u == 0x3000
}

/// Whitespace test on a single character, the `White_Space` table written out.
pub fn is_whitespace_char(c: char) -> (r: bool)
    ensures
        r == is_white(c),
{
    let u = c as u32;
    u == 0x20 || (0x09 <= u && u <= 0x0D) || u == 0x85 || u == 0xA0 || u == 0x1680 || (0x2000 <= u
        && u <= 0x200A) || u == 0x2028 || u == 0x2029 || u == 0x202F || u == 0x205F || u == 0x3000
}

/// A sequence made of whitespace alone (an empty sequence qualifies).
pub open spec fn all_white(l: Seq<char>) -> bool {
    forall|i: int| 0 <= i < l.len() ==> is_white(l[i])
}

/// Whether every character of `s` is whitespace.
pub fn all_whitespace(s: &str) -> (r: bool)
    ensures
        r == all_white(s@),
{
    let n = s.unicode_len();
    let mut i: usize = 0;
    while i < n
        invariant
            i <= n,
            forall|j: int| 0 <= j < i ==> is_white(s@[j]),
        decreases n - i,
    {
        if !is_whitespace_char(s.get_char(i)) {
            return false;
        }
        i += 1;
    }
    true
}

/// The position of the first occurrence of `c` in `l`, if any.
pub open spec fn find_first(l: Seq<char>, c: char) -> Option<int>
    decreases l.len(),
{
    if l.len() == 0 {
        None
    } else if l[0] == c {
        Some(0int)
    } else {
        match find_first(l.drop_first(), c) {
            None => None,
            Some(i) => Some(i + 1),
        }
    }
}

/// `find_first` returns the position of an occurrence that no earlier
/// position shares, and `None` exactly when `c` does not occur.
pub proof fn lemma_find_first(l: Seq<char>, c: char)
    ensures
        match find_first(l, c) {
            Some(i) => 0 <= i < l.len() && l[i] == c && (forall|j: int| 0 <= j < i ==> l[j] != c),
            None => forall|j: int| 0 <= j < l.len() ==> l[j] != c,
        },
    decreases l.len(),
{
    if l.len() > 0 && l[0] != c {
        let rest = l.drop_first();
        lemma_find_first(rest, c);
        assert(forall|j: int| 0 <= j < rest.len() ==> rest[j] == l[j + 1]);
        match find_first(rest, c) {
            None => {
                assert forall|j: int| 0 <= j < l.len() implies l[j] != c by {
                    if j > 0 {
                        assert(rest[j - 1] != c);
                    }
                }
            },
            Some(i) => {
                assert(l[i + 1] == c);
                assert forall|j: int| 0 <= j < i + 1 implies l[j] != c by {
                    if j > 0 {
                        assert(rest[j - 1] != c);
                    }
                }
            },
        }
    }
}

/// The position of the first occurrence of `c` in `s`, if any.
pub fn find_char(s: &str, c: char) -> (r: Option<usize>)
    ensures
        match r {
            Some(i) => find_first(s@, c) == Some(i as int),
            None => find_first(s@, c) is None,
        },
{
    let n = s.unicode_len();
    let mut i: usize = 0;
    while i < n
        invariant
            i <= n,
            forall|j: int| 0 <= j < i ==> s@[j] != c,
        decreases n - i,
    {
        if s.get_char(i) == c {
            proof {
                lemma_find_first(s@, c);
            }
            return Some(i);
        }
        i += 1;
    }
    proof {
        lemma_find_first(s@, c);
    }
    None
}

/// `l` with its trailing whitespace removed.
pub open spec fn trim_end_spec(l: Seq<char>) -> Seq<char>
    decreases l.len(),
{
    if l.len() > 0 && is_white(l.last()) {
        trim_end_spec(l.drop_last())
    } else {
        l
    }
}

/// `l` with its leading whitespace removed.
pub open spec fn trim_start_spec(l: Seq<char>) -> Seq<char>
    decreases l.len(),
{
    if l.len() > 0 && is_white(l.first()) {
        trim_start_spec(l.drop_first())
    } else {
        l
    }
}

/// Cutting `l` just before its trailing run of whitespace is what
/// `trim_end_spec` yields.
pub proof fn lemma_trim_end_take(l: Seq<char>, j: int)
    requires
        0 <= j <= l.len(),
        forall|k: int| j <= k < l.len() ==> is_white(l[k]),
        j > 0 ==> !is_white(l[j - 1]),
    ensures
        trim_end_spec(l) == l.take(j),
    decreases l.len(),
{
    if j == l.len() {
        assert(l.take(j) =~= l);
    } else {
        assert(is_white(l.last()));
        lemma_trim_end_take(l.drop_last(), j);
        assert(l.drop_last().take(j) =~= l.take(j));
    }
}

/// Cutting `l` just after its leading run of whitespace is what
/// `trim_start_spec` yields.
pub proof fn lemma_trim_start_skip(l: Seq<char>, i: int)
    requires
        0 <= i <= l.len(),
        forall|k: int| 0 <= k < i ==> is_white(l[k]),
        i < l.len() ==> !is_white(l[i]),
    ensures
        trim_start_spec(l) == l.skip(i),
    decreases i,
{
    if i == 0 {
        assert(l.skip(0) =~= l);
    } else {
        assert(is_white(l.first()));
        lemma_trim_start_skip(l.drop_first(), i - 1);
        assert(l.drop_first().skip(i - 1) =~= l.skip(i));
        assert(forall|k: int| 0 <= k < i - 1 ==> l.drop_first()[k] == l[k + 1]);
    }
}

/// `s` with its trailing whitespace removed.
pub fn trim_end_str<'a>(s: &'a str) -> (r: &'a str)
    ensures
        r@ == trim_end_spec(s@),
{
    let n = s.unicode_len();
    let mut j: usize = n;
    while j > 0 && is_whitespace_char(s.get_char(j - 1))
        invariant
            j <= n,
            forall|k: int| j <= k < n ==> is_white(s@[k]),
        decreases j,
    {
        j -= 1;
    }
    proof {
        lemma_trim_end_take(s@, j as int);
    }
    s.substring_char(0, j)
}

/// `s` with its leading whitespace removed.
pub fn trim_start_str<'a>(s: &'a str) -> (r: &'a str)
    ensures
        r@ == trim_start_spec(s@),
{
    let n = s.unicode_len();
    let mut i: usize = 0;
    while i < n && is_whitespace_char(s.get_char(i))
        invariant
            i <= n,
            forall|k: int| 0 <= k < i ==> is_white(s@[k]),
        decreases n - i,
    {
        i += 1;
    }
    proof {
        lemma_trim_start_skip(s@, i as int);
    }
    s.substring_char(i, n)
}

/// Appending whitespace does not change what trimming the end yields.
pub proof fn lemma_trim_end_pad(l: Seq<char>, pad: Seq<char>)
    requires
        all_white(pad),
    ensures
        trim_end_spec(l + pad) == trim_end_spec(l),
    decreases pad.len(),
{
    if pad.len() == 0 {
        assert(l + pad =~= l);
    } else {
        assert((l + pad).last() == pad.last());
        assert(is_white(pad.last()));
        assert((l + pad).drop_last() =~= l + pad.drop_last());
        assert(forall|k: int| 0 <= k < pad.drop_last().len() ==> pad.drop_last()[k] == pad[k]);
        lemma_trim_end_pad(l, pad.drop_last());
    }
}

/// Prepending whitespace does not change what trimming the start yields.
pub proof fn lemma_trim_start_pad(pad: Seq<char>, l: Seq<char>)
    requires
        all_white(pad),
    ensures
        trim_start_spec(pad + l) == trim_start_spec(l),
    decreases pad.len(),
{
    if pad.len() == 0 {
        assert(pad + l =~= l);
    } else {
        assert((pad + l).first() == pad.first());
        assert(is_white(pad.first()));
        assert((pad + l).drop_first() =~= pad.drop_first() + l);
        assert(forall|k: int| 0 <= k < pad.drop_first().len() ==> pad.drop_first()[k] == pad[k + 1]);
        lemma_trim_start_pad(pad.drop_first(), l);
    }
}

} // verus!
