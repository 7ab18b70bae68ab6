//! Character-level text model shared by the parsers: the separator set,
//! trimming, and first-occurrence indices for line breaks and whitespace.

use vstd::prelude::*;

verus! {

/// The separator set the parsers split on: ASCII whitespace.
pub open spec fn is_ws_char(c: char) -> bool {
    c == ' ' || c == '\t' || c == '\n' || c == '\r' || c == '\u{b}' || c == '\u{c}'
}

/// Executable test for `is_ws_char`.
pub fn ws_char(c: char) -> (r: bool)
    ensures
        r == is_ws_char(c),
{
    c == ' ' || c == '\t' || c == '\n' || c == '\r' || c == '\u{b}' || c == '\u{c}'
}

/// Index of the first whitespace character, or the length when there is none.
pub open spec fn first_ws(s: Seq<char>) -> nat
    decreases s.len(),
{
    if s.len() == 0 {
        0
    } else if is_ws_char(s[0]) {
        0
    } else {
        (1 + first_ws(s.drop_first())) as nat
    }
}

/// Index of the first line break, or the length when there is none.
pub open spec fn first_nl(s: Seq<char>) -> nat
    decreases s.len(),
{
    if s.len() == 0 {
        0
    } else if s[0] == '\n' {
        0
    } else {
        (1 + first_nl(s.drop_first())) as nat
    }
}

/// A position with no whitespace before it and whitespace (or the end) at it
/// is exactly `first_ws`.
pub proof fn lemma_first_ws_at(s: Seq<char>, i: int)
    requires
        0 <= i <= s.len(),
        forall|k: int| 0 <= k < i ==> !is_ws_char(s[k]),
        i < s.len() ==> is_ws_char(s[i]),
    ensures
        first_ws(s) == i,
    decreases i,
{
    if i > 0 {
        let t = s.drop_first();
        assert forall|k: int| 0 <= k < i - 1 implies !is_ws_char(t[k]) by {
            assert(t[k] == s[k + 1]);
        }
        if i - 1 < t.len() {
            assert(t[i - 1] == s[i]);
        }
        lemma_first_ws_at(t, i - 1);
    }
}

/// A position with no line break before it and a line break (or the end) at
/// it is exactly `first_nl`.
pub proof fn lemma_first_nl_at(s: Seq<char>, i: int)
    requires
        0 <= i <= s.len(),
        forall|k: int| 0 <= k < i ==> s[k] != '\n',
        i < s.len() ==> s[i] == '\n',
    ensures
        first_nl(s) == i,
    decreases i,
{
    if i > 0 {
        let t = s.drop_first();
        assert forall|k: int| 0 <= k < i - 1 implies t[k] != '\n' by {
            assert(t[k] == s[k + 1]);
        }
        if i - 1 < t.len() {
            assert(t[i - 1] == s[i]);
        }
        lemma_first_nl_at(t, i - 1);
    }
}

/// `first_ws` is in bounds, everything before it is non-whitespace, and it
/// lands on whitespace unless it is the length.
pub proof fn lemma_first_ws_props(s: Seq<char>)
    ensures
        first_ws(s) <= s.len(),
        forall|k: int| 0 <= k < first_ws(s) ==> !is_ws_char(s[k]),
        first_ws(s) < s.len() ==> is_ws_char(s[first_ws(s) as int]),
    decreases s.len(),
{
    if s.len() > 0 && !is_ws_char(s[0]) {
        let t = s.drop_first();
        lemma_first_ws_props(t);
        assert forall|k: int| 0 <= k < first_ws(s) implies !is_ws_char(s[k]) by {
            if k > 0 {
                assert(t[k - 1] == s[k]);
            }
        }
        if first_ws(s) < s.len() {
            assert(t[first_ws(t) as int] == s[first_ws(s) as int]);
        }
    }
}

/// Leading separator characters removed.
pub open spec fn trim_start(s: Seq<char>) -> Seq<char>
    decreases s.len(),
{
    if s.len() > 0 && is_ws_char(s[0]) {
        trim_start(s.drop_first())
    } else {
        s
    }
}

/// Trailing separator characters removed.
pub open spec fn trim_end(s: Seq<char>) -> Seq<char>
    decreases s.len(),
{
    if s.len() > 0 && is_ws_char(s.last()) {
        trim_end(s.drop_last())
    } else {
        s
    }
}

/// Surrounding whitespace removed, as `str::trim` does over this separator
/// set.
pub open spec fn spec_trim(s: Seq<char>) -> Seq<char> {
    trim_end(trim_start(s))
}

proof fn lemma_trim_start_at(s: Seq<char>, lo: int)
    requires
        0 <= lo <= s.len(),
        forall|k: int| 0 <= k < lo ==> is_ws_char(s[k]),
        lo < s.len() ==> !is_ws_char(s[lo]),
    ensures
        trim_start(s) == s.subrange(lo, s.len() as int),
    decreases lo,
{
    if lo == 0 {
        assert(s.subrange(0, s.len() as int) =~= s);
    } else {
        let t = s.drop_first();
        assert forall|k: int| 0 <= k < lo - 1 implies is_ws_char(t[k]) by {
            assert(t[k] == s[k + 1]);
        }
        if lo - 1 < t.len() {
            assert(t[lo - 1] == s[lo]);
        }
        lemma_trim_start_at(t, lo - 1);
        assert(t.subrange(lo - 1, t.len() as int) =~= s.subrange(lo, s.len() as int));
    }
}

proof fn lemma_trim_end_at(s: Seq<char>, hi: int)
    requires
        0 <= hi <= s.len(),
        forall|k: int| hi <= k < s.len() ==> is_ws_char(s[k]),
        hi > 0 ==> !is_ws_char(s[hi - 1]),
    ensures
        trim_end(s) == s.subrange(0, hi),
    decreases s.len(),
{
    if hi == s.len() {
        assert(s.subrange(0, s.len() as int) =~= s);
    } else {
        let t = s.drop_last();
        assert(is_ws_char(s.last()));
        assert forall|k: int| hi <= k < t.len() implies is_ws_char(t[k]) by {
            assert(t[k] == s[k]);
        }
        lemma_trim_end_at(t, hi);
        assert(t.subrange(0, hi) =~= s.subrange(0, hi));
    }
}

/// A range whose outside is all whitespace and whose ends are not is exactly
/// what trimming keeps; an empty range means the whole text was whitespace.
pub proof fn lemma_trim_at(s: Seq<char>, lo: int, hi: int)
    requires
        0 <= lo <= hi <= s.len(),
        forall|k: int| 0 <= k < lo ==> is_ws_char(s[k]),
        forall|k: int| hi <= k < s.len() ==> is_ws_char(s[k]),
        lo < hi ==> !is_ws_char(s[lo]) && !is_ws_char(s[hi - 1]),
        lo == hi ==> lo == s.len(),
    ensures
        spec_trim(s) == s.subrange(lo, hi),
{
    if lo == hi {
        lemma_trim_start_at(s, lo);
        assert(trim_start(s) =~= Seq::<char>::empty());
        assert(s.subrange(lo, hi) =~= Seq::<char>::empty());
    } else {
        lemma_trim_start_at(s, lo);
        let m = s.subrange(lo, s.len() as int);
        assert forall|k: int| hi - lo <= k < m.len() implies is_ws_char(m[k]) by {
            assert(m[k] == s[lo + k]);
        }
        assert(m[hi - lo - 1] == s[hi - 1]);
        lemma_trim_end_at(m, hi - lo);
        assert(m.subrange(0, hi - lo) =~= s.subrange(lo, hi));
    }
}

/// The whitespace-separated tokens of a text, empty tokens dropped, as
/// splitting on runs of this separator set produces them.
pub open spec fn split_ws(s: Seq<char>) -> Seq<Seq<char>>
    decreases s.len(),
{
    if s.len() == 0 {
        Seq::empty()
    } else if is_ws_char(s[0]) {
        split_ws(s.drop_first())
    } else {
        let i = first_ws(s) as int;
        if i < s.len() {
            seq![s.subrange(0, i)] + split_ws(s.skip(i))
        } else {
            seq![s]
        }
    }
}

/// A text that ends in a space followed by a non-empty, whitespace-free tail
/// splits into at least one token, the last of which is exactly that tail.
pub proof fn lemma_split_ws_tail(s: Seq<char>, t: Seq<char>)
    requires
        t.len() > 0,
        forall|k: int| 0 <= k < t.len() ==> !is_ws_char(t[k]),
    ensures
        split_ws(s + seq![' '] + t).len() >= 1,
        split_ws(s + seq![' '] + t).last() == t,
    decreases s.len(),
{
    let u = s + seq![' '] + t;
    assert(u.len() == s.len() + 1 + t.len());
    if s.len() == 0 {
        assert(u[0] == ' ');
        assert(u.drop_first() =~= t);
        lemma_first_ws_props(t);
        assert(first_ws(t) == t.len());
        assert(split_ws(u) == split_ws(t));
        assert(split_ws(u) =~= seq![t]);
    } else if is_ws_char(s[0]) {
        assert(u[0] == s[0]);
        assert(u.drop_first() =~= s.drop_first() + seq![' '] + t);
        lemma_split_ws_tail(s.drop_first(), t);
    } else {
        assert(u[0] == s[0]);
        lemma_first_ws_props(u);
        let i = first_ws(u) as int;
        assert(u[s.len() as int] == ' ');
        assert(i <= s.len());
        if i == 0 {
            assert(is_ws_char(u[0]));
            assert(false);
        }
        assert(u.skip(i) =~= s.skip(i) + seq![' '] + t);
        lemma_split_ws_tail(s.skip(i), t);
        let rest = split_ws(u.skip(i));
        assert(split_ws(u) == seq![u.subrange(0, i)] + rest);
        assert((seq![u.subrange(0, i)] + rest).last() == rest.last());
    }
}

} // verus!
