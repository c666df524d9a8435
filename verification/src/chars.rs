//! Character-sequence utilities shared by the sealed-value codec and the
//! env-file engine: first occurrence of a character, ASCII whitespace
//! trimming, and the lemmas that tie scanning loops to these definitions.

use vstd::prelude::*;

verus! {

/// ASCII whitespace, as trimmed around keys and at the start of lines.
pub open spec fn is_ascii_ws(c: char) -> bool {
    c == ' ' || c == '\t' || c == '\n' || c == '\r' || c == '\x0c'
}

/// The index of the first occurrence of `c` in `s`, if any.
pub open spec fn find_char(s: Seq<char>, c: char) -> Option<int>
    decreases s.len(),
{
    if s.len() == 0 {
        None
    } else if s[0] == c {
        Some(0int)
    } else {
        match find_char(s.drop_first(), c) {
            Some(i) => Some(i + 1),
            None => None,
        }
    }
}

/// `find_char` returns the least index holding `c`, or nothing when `c`
/// does not occur.
pub proof fn lemma_find_char(s: Seq<char>, c: char)
    ensures
        match find_char(s, c) {
            Some(i) => 0 <= i < s.len() && s[i] == c && (forall|j: int| 0 <= j < i ==> s[j] != c),
            None => forall|j: int| 0 <= j < s.len() ==> s[j] != c,
        },
    decreases s.len(),
{
    if s.len() != 0 && s[0] != c {
        let d = s.drop_first();
        lemma_find_char(d, c);
        assert(forall|j: int| 0 <= j < d.len() ==> d[j] == s[j + 1]);
        assert(forall|j: int| 1 <= j < s.len() ==> s[j] == d[j - 1]);
    }
}

/// The number of ASCII whitespace characters at the start of `s`.
pub open spec fn leading_ws_len(s: Seq<char>) -> int
    decreases s.len(),
{
    if s.len() == 0 || !is_ascii_ws(s[0]) {
        0
    } else {
        1 + leading_ws_len(s.drop_first())
    }
}

/// `leading_ws_len` is the length of the maximal whitespace prefix.
pub proof fn lemma_leading_ws_len(s: Seq<char>)
    ensures
        0 <= leading_ws_len(s) <= s.len(),
        forall|j: int| 0 <= j < leading_ws_len(s) ==> is_ascii_ws(s[j]),
        leading_ws_len(s) < s.len() ==> !is_ascii_ws(s[leading_ws_len(s)]),
    decreases s.len(),
{
    if s.len() != 0 && is_ascii_ws(s[0]) {
        let d = s.drop_first();
        lemma_leading_ws_len(d);
        assert(forall|j: int| 0 <= j < d.len() ==> d[j] == s[j + 1]);
        assert(forall|j: int| 1 <= j < s.len() ==> s[j] == d[j - 1]);
    }
}

/// A whitespace prefix of length `i`, followed by a non-whitespace
/// character or the end, pins `leading_ws_len` to `i`.
pub proof fn lemma_leading_ws_len_is(s: Seq<char>, i: int)
    requires
        0 <= i <= s.len(),
        forall|j: int| 0 <= j < i ==> is_ascii_ws(s[j]),
        i < s.len() ==> !is_ascii_ws(s[i]),
    ensures
        leading_ws_len(s) == i,
    decreases s.len(),
{
    if i > 0 {
        assert(s.drop_first() =~= s.subrange(1, s.len() as int));
        lemma_leading_ws_len_is(s.drop_first(), i - 1);
    }
}

/// `s` with its trailing ASCII whitespace removed.
pub open spec fn trim_end_ws(s: Seq<char>) -> Seq<char>
    decreases s.len(),
{
    if s.len() > 0 && is_ascii_ws(s.last()) {
        trim_end_ws(s.drop_last())
    } else {
        s
    }
}

/// A whitespace suffix starting at `k`, preceded by a non-whitespace
/// character or the start, pins `trim_end_ws` to the prefix of length `k`.
pub proof fn lemma_trim_end_ws_is(s: Seq<char>, k: int)
    requires
        0 <= k <= s.len(),
        forall|j: int| k <= j < s.len() ==> is_ascii_ws(s[j]),
        k > 0 ==> !is_ascii_ws(s[k - 1]),
    ensures
        trim_end_ws(s) == s.take(k),
    decreases s.len(),
{
    if k < s.len() {
        lemma_trim_end_ws_is(s.drop_last(), k);
        assert(s.drop_last().take(k) =~= s.take(k));
    } else {
        assert(s.take(k) =~= s);
    }
}

/// Whether `c` is ASCII whitespace.
pub fn is_ws_char(c: char) -> (b: bool)
    ensures
        b == is_ascii_ws(c),
{
    c == ' ' || c == '\t' || c == '\n' || c == '\r' || c == '\x0c'
}

/// Whether two strings hold the same characters.
pub fn eq_str(a: &str, b: &str) -> (r: bool)
    ensures
        r == (a@ == b@),
{
    let na = a.unicode_len();
    let nb = b.unicode_len();
    if na != nb {
        return false;
    }
    let mut i: usize = 0;
    while i < na
        invariant
            0 <= i <= na,
            na == a@.len(),
            na == b@.len(),
            forall|j: int| 0 <= j < i ==> a@[j] == b@[j],
        decreases na - i,
    {
        if a.get_char(i) != b.get_char(i) {
            return false;
        }
        i += 1;
    }
    proof {
        assert(a@ =~= b@);
    }
    true
}

} // verus!
