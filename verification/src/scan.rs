//! Scanning a text, taken as a sequence of code points, for the delimiters
//! of the generic URL syntax.

use vstd::prelude::*;
use vstd::std_specs::iter::IteratorSpec;
use vstd::utf8::is_ascii_chars;

verus! {

/// A class of code points at which a scan comes to a halt.
#[derive(Clone, Copy, Debug, PartialEq, Eq, Structural)]
pub enum Stop {
    /// `:`, `/`, `?` or `#`: whatever ends the first run of a reference.
    SchemeEnd,
    /// `/`, `?` or `#`: whatever ends an authority.
    AuthorityEnd,
    /// `:` alone.
    Colon,
    /// `]` alone.
    BracketClose,
    /// `@` alone.
    At,
}

impl Stop {
    /// Whether `c` belongs to the class.
    pub open spec fn hits(self, c: char) -> bool {
        match self {
            Stop::SchemeEnd => c == ':' || c == '/' || c == '?' || c == '#',
            Stop::AuthorityEnd => c == '/' || c == '?' || c == '#',
            Stop::Colon => c == ':',
            Stop::BracketClose => c == ']',
            Stop::At => c == '@',
        }
    }

    /// Tests one code point against the class.
    pub fn test(self, c: char) -> (b: bool)
        ensures
            b == self.hits(c),
    {
        match self {
            Stop::SchemeEnd => c == ':' || c == '/' || c == '?' || c == '#',
            Stop::AuthorityEnd => c == '/' || c == '?' || c == '#',
            Stop::Colon => c == ':',
            Stop::BracketClose => c == ']',
            Stop::At => c == '@',
        }
    }
}

/// The least index in `from..to` whose code point is in the class `k`, or
/// `to` where there is none.
pub open spec fn first_stop(s: Seq<char>, from: int, to: int, k: Stop) -> int
    decreases to - from,
{
    if from >= to {
        to
    } else if k.hits(s[from]) {
        from
    } else {
        first_stop(s, from + 1, to, k)
    }
}

/// The greatest index in `from..to` whose code point is in the class `k`, or
/// `from - 1` where there is none.
pub open spec fn last_stop(s: Seq<char>, from: int, to: int, k: Stop) -> int
    decreases to - from,
{
    if from >= to {
        from - 1
    } else if k.hits(s[to - 1]) {
        to - 1
    } else {
        last_stop(s, from, to - 1, k)
    }
}

/// `first_stop` is the one index that has a hit, or the end, with no hit
/// before it.
pub proof fn lemma_first_stop(s: Seq<char>, from: int, to: int, k: Stop)
    requires
        from <= to,
    ensures
        from <= first_stop(s, from, to, k) <= to,
        first_stop(s, from, to, k) < to ==> k.hits(s[first_stop(s, from, to, k)]),
        forall|j: int| from <= j < first_stop(s, from, to, k) ==> !k.hits(#[trigger] s[j]),
    decreases to - from,
{
    if from < to && !k.hits(s[from]) {
        lemma_first_stop(s, from + 1, to, k);
    }
}

/// An index with no hit before it, which has a hit or is the end, is
/// `first_stop`.
pub proof fn lemma_first_stop_unique(s: Seq<char>, from: int, to: int, k: Stop, r: int)
    requires
        from <= r <= to,
        r < to ==> k.hits(s[r]),
        forall|j: int| from <= j < r ==> !k.hits(#[trigger] s[j]),
    ensures
        first_stop(s, from, to, k) == r,
    decreases to - from,
{
    if from < r {
        assert(!k.hits(s[from]));
        lemma_first_stop_unique(s, from + 1, to, k, r);
    }
}

/// `last_stop` is the one index that has a hit, or the place before the
/// range, with no hit after it.
pub proof fn lemma_last_stop(s: Seq<char>, from: int, to: int, k: Stop)
    requires
        from <= to,
    ensures
        from - 1 <= last_stop(s, from, to, k) < to,
        from <= last_stop(s, from, to, k) ==> k.hits(s[last_stop(s, from, to, k)]),
        forall|j: int| last_stop(s, from, to, k) < j < to ==> !k.hits(#[trigger] s[j]),
    decreases to - from,
{
    if from < to && !k.hits(s[to - 1]) {
        lemma_last_stop(s, from, to - 1, k);
    }
}

/// An index with no hit after it, which has a hit or lies just before the
/// range, is `last_stop`.
pub proof fn lemma_last_stop_unique(s: Seq<char>, from: int, to: int, k: Stop, r: int)
    requires
        from - 1 <= r < to,
        from <= r ==> k.hits(s[r]),
        forall|j: int| r < j < to ==> !k.hits(#[trigger] s[j]),
    ensures
        last_stop(s, from, to, k) == r,
    decreases to - from,
{
    if r < to - 1 {
        assert(!k.hits(s[to - 1]));
        lemma_last_stop_unique(s, from, to - 1, k, r);
    }
}

/// The code points of `s`, in order.
pub fn code_points(s: &str) -> (v: Vec<char>)
    ensures
        v@ == s@,
{
    let mut v: Vec<char> = Vec::new();
    for c in it: s.chars()
        invariant
            v@ == it.seq().take(it.index() as int),
            it.seq() == s@,
    {
        v.push(c);
    }
    v
}

/// Scans `text[from..to]` forwards for the first code point of the class `k`.
pub fn find_first(text: &[char], from: usize, to: usize, k: Stop) -> (r: usize)
    requires
        from <= to <= text@.len(),
    ensures
        r == first_stop(text@, from as int, to as int, k),
        from <= r <= to,
{
    let mut i: usize = from;
    while i < to
        invariant
            from <= i <= to <= text@.len(),
            forall|j: int| from <= j < i ==> !k.hits(#[trigger] text@[j]),
        decreases to - i,
    {
        if k.test(text[i]) {
            proof {
                lemma_first_stop_unique(text@, from as int, to as int, k, i as int);
            }
            return i;
        }
        i = i + 1;
    }
    proof {
        lemma_first_stop_unique(text@, from as int, to as int, k, to as int);
    }
    to
}

/// Scans `text[from..to]` backwards for the last code point of the class `k`
/// and returns the index after it: `from` where there is none.
pub fn find_after_last(text: &[char], from: usize, to: usize, k: Stop) -> (r: usize)
    requires
        from <= to <= text@.len(),
    ensures
        r == last_stop(text@, from as int, to as int, k) + 1,
        from <= r <= to,
{
    let mut i: usize = to;
    while i > from
        invariant
            from <= i <= to <= text@.len(),
            forall|j: int| i <= j < to ==> !k.hits(#[trigger] text@[j]),
        decreases i - from,
    {
        if k.test(text[i - 1]) {
            proof {
                lemma_last_stop_unique(text@, from as int, to as int, k, i - 1);
            }
            return i;
        }
        i = i - 1;
    }
    proof {
        lemma_last_stop_unique(text@, from as int, to as int, k, from - 1);
    }
    from
}

/// Tests whether `c` is an ASCII code point: one up to U+007F.
pub fn is_ascii_code_point(c: char) -> (b: bool)
    ensures
        b == ('\0' <= c <= '\u{7f}'),
{
    c <= '\u{7f}'
}

/// Tests whether every code point of `text[from..to]` is ASCII.
pub fn all_ascii(text: &[char], from: usize, to: usize) -> (b: bool)
    requires
        from <= to <= text@.len(),
    ensures
        b == is_ascii_chars(text@.subrange(from as int, to as int)),
{
    let ghost range = text@.subrange(from as int, to as int);
    let mut i: usize = from;
    while i < to
        invariant
            from <= i <= to <= text@.len(),
            range == text@.subrange(from as int, to as int),
            forall|j: int| 0 <= j < i - from ==> '\0' <= #[trigger] range[j] <= '\u{7f}',
        decreases to - i,
    {
        assert(range[i - from] == text@[i as int]);
        if !is_ascii_code_point(text[i]) {
            return false;
        }
        i = i + 1;
    }
    true
}

} // verus!
