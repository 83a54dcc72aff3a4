//! Whitespace trimming and trimmed comparison.
//!
//! A verdict compares the execution service's output against an expected
//! output after removing leading and trailing whitespace from both; interior
//! whitespace and letter case stay significant.

use vstd::prelude::*;

verus! {

/// Whether `c` is a whitespace character: Unicode's White_Space set.
pub open spec fn is_ws_char(c: char) -> bool {
    let u = c as u32;
    ||| u == 0x09
    ||| u == 0x0A
    ||| u == 0x0B
    ||| u == 0x0C
    ||| u == 0x0D
    ||| u == 0x20
    ||| u == 0x85
    ||| u == 0xA0
    ||| u == 0x1680
    ||| (0x2000 <= u && u <= 0x200A)
    ||| u == 0x2028
    ||| u == 0x2029
    ||| u == 0x202F
    ||| u == 0x205F
    ||| u == 0x3000
}

/// Whether `c` is a whitespace character.
pub fn is_ws(c: char) -> (r: bool)
    ensures
        r == is_ws_char(c),
{
    let u: u32 = c as u32;
    u == 0x09 || u == 0x0A || u == 0x0B || u == 0x0C || u == 0x0D || u == 0x20 || u == 0x85
        || u == 0xA0 || u == 0x1680 || (0x2000 <= u && u <= 0x200A) || u == 0x2028 || u == 0x2029
        || u == 0x202F || u == 0x205F || u == 0x3000
}

/// The number of whitespace characters at the start of `s`.
pub open spec fn ws_prefix(s: Seq<char>) -> int
    decreases s.len(),
{
    if s.len() == 0 {
        0
    } else if is_ws_char(s[0]) {
        1 + ws_prefix(s.drop_first())
    } else {
        0
    }
}

/// The number of whitespace characters at the end of `s`.
pub open spec fn ws_suffix(s: Seq<char>) -> int
    decreases s.len(),
{
    if s.len() == 0 {
        0
    } else if is_ws_char(s.last()) {
        1 + ws_suffix(s.drop_last())
    } else {
        0
    }
}

/// `s` with its leading and trailing whitespace removed.
pub open spec fn trimmed(s: Seq<char>) -> Seq<char> {
    if ws_prefix(s) == s.len() {
        Seq::empty()
    } else {
        s.subrange(ws_prefix(s), s.len() - ws_suffix(s))
    }
}

/// The leading whitespace run is within bounds, is all whitespace, and ends
/// at a non-whitespace character if it ends inside `s`.
pub proof fn lemma_ws_prefix_bounds(s: Seq<char>)
    ensures
        0 <= ws_prefix(s) <= s.len(),
        forall|j: int| 0 <= j < ws_prefix(s) ==> is_ws_char(s[j]),
        ws_prefix(s) < s.len() ==> !is_ws_char(s[ws_prefix(s)]),
    decreases s.len(),
{
    if s.len() == 0 {
    } else if is_ws_char(s[0]) {
        lemma_ws_prefix_bounds(s.drop_first());
        assert forall|j: int| 0 <= j < ws_prefix(s) implies is_ws_char(s[j]) by {
            if j > 0 {
                assert(s[j] == s.drop_first()[j - 1]);
            }
        }
        if ws_prefix(s) < s.len() {
            assert(s[ws_prefix(s)] == s.drop_first()[ws_prefix(s.drop_first())]);
        }
    }
}

/// An index below which everything is whitespace and at which (if inside
/// `s`) something else stands is exactly the leading whitespace count.
pub proof fn lemma_ws_prefix_is(s: Seq<char>, i: int)
    requires
        0 <= i <= s.len(),
        forall|j: int| 0 <= j < i ==> is_ws_char(s[j]),
        i < s.len() ==> !is_ws_char(s[i]),
    ensures
        ws_prefix(s) == i,
    decreases s.len(),
{
    if i == 0 {
    } else {
        assert(is_ws_char(s[0]));
        lemma_ws_prefix_is(s.drop_first(), i - 1);
    }
}

/// The trailing whitespace run is within bounds, is all whitespace, and is
/// preceded by a non-whitespace character if it starts inside `s`.
pub proof fn lemma_ws_suffix_bounds(s: Seq<char>)
    ensures
        0 <= ws_suffix(s) <= s.len(),
        forall|j: int| s.len() - ws_suffix(s) <= j < s.len() ==> is_ws_char(s[j]),
        ws_suffix(s) < s.len() ==> !is_ws_char(s[s.len() - 1 - ws_suffix(s)]),
    decreases s.len(),
{
    if s.len() == 0 {
    } else if is_ws_char(s.last()) {
        lemma_ws_suffix_bounds(s.drop_last());
        assert forall|j: int| s.len() - ws_suffix(s) <= j < s.len() implies is_ws_char(s[j]) by {
            if j < s.len() - 1 {
                assert(s[j] == s.drop_last()[j]);
            }
        }
        if ws_suffix(s) < s.len() {
            assert(s[s.len() - 1 - ws_suffix(s)]
                == s.drop_last()[s.drop_last().len() - 1 - ws_suffix(s.drop_last())]);
        }
    }
}

/// A count of trailing characters that are all whitespace, preceded (if
/// anything precedes them) by a non-whitespace character, is exactly the
/// trailing whitespace count.
pub proof fn lemma_ws_suffix_is(s: Seq<char>, k: int)
    requires
        0 <= k <= s.len(),
        forall|j: int| s.len() - k <= j < s.len() ==> is_ws_char(s[j]),
        k < s.len() ==> !is_ws_char(s[s.len() - 1 - k]),
    ensures
        ws_suffix(s) == k,
    decreases s.len(),
{
    if k == 0 {
    } else {
        assert(is_ws_char(s.last()));
        assert forall|j: int| s.drop_last().len() - (k - 1) <= j < s.drop_last().len()
            implies is_ws_char(s.drop_last()[j]) by {
            assert(s.drop_last()[j] == s[j]);
        }
        lemma_ws_suffix_is(s.drop_last(), k - 1);
    }
}

/// If some character of `s` is not whitespace, the leading and trailing
/// whitespace runs do not overlap.
pub proof fn lemma_trim_range(s: Seq<char>)
    ensures
        ws_prefix(s) < s.len() ==> ws_prefix(s) + ws_suffix(s) < s.len(),
{
    lemma_ws_prefix_bounds(s);
    lemma_ws_suffix_bounds(s);
    if ws_prefix(s) < s.len() && ws_prefix(s) + ws_suffix(s) >= s.len() {
        assert(is_ws_char(s[ws_prefix(s)]));
    }
}

/// Trimming is insensitive to whitespace at the ends only: surrounding a
/// string with any amount of whitespace leaves its trimmed form unchanged,
/// so two strings compare equal after trimming exactly when they differ at
/// most in leading and trailing whitespace; any interior difference stays.
pub proof fn lemma_trim_ignores_edge_ws(pre: Seq<char>, s: Seq<char>, post: Seq<char>)
    requires
        forall|i: int| 0 <= i < pre.len() ==> is_ws_char(pre[i]),
        forall|i: int| 0 <= i < post.len() ==> is_ws_char(post[i]),
    ensures
        trimmed(pre + s + post) == trimmed(s),
{
    let m = pre + s + post;
    lemma_ws_prefix_bounds(s);
    lemma_ws_suffix_bounds(s);
    lemma_trim_range(s);
    if ws_prefix(s) == s.len() {
        assert forall|j: int| 0 <= j < m.len() implies is_ws_char(m[j]) by {
            if j < pre.len() {
            } else if j < pre.len() + s.len() {
                assert(m[j] == s[j - pre.len()]);
            } else {
                assert(m[j] == post[j - pre.len() - s.len()]);
            }
        }
        lemma_ws_prefix_is(m, m.len() as int);
        assert(trimmed(m) == trimmed(s));
    } else {
        let p = ws_prefix(s);
        let q = ws_suffix(s);
        assert forall|j: int| 0 <= j < pre.len() + p implies is_ws_char(m[j]) by {
            if j >= pre.len() {
                assert(m[j] == s[j - pre.len()]);
            }
        }
        assert(m[pre.len() + p] == s[p]);
        lemma_ws_prefix_is(m, pre.len() + p);
        assert forall|j: int| m.len() - (post.len() + q) <= j < m.len() implies is_ws_char(
            m[j],
        ) by {
            if j >= pre.len() + s.len() {
                assert(m[j] == post[j - pre.len() - s.len()]);
            } else {
                assert(m[j] == s[j - pre.len()]);
            }
        }
        assert(m[m.len() - 1 - (post.len() + q)] == s[s.len() - 1 - q]);
        lemma_ws_suffix_is(m, post.len() + q);
        assert forall|k: int| 0 <= k < s.len() - q - p implies #[trigger] (m.subrange(
            pre.len() + p,
            m.len() - (post.len() + q),
        )[k]) == s.subrange(p, s.len() - q)[k] by {
            assert(m[pre.len() + p + k] == s[p + k]);
        }
        assert(m.subrange(pre.len() + p, m.len() - (post.len() + q)) =~= s.subrange(
            p,
            s.len() - q,
        ));
    }
}

/// Returns `s` with leading and trailing whitespace removed.
pub fn trim_str(s: &str) -> (r: String)
    ensures
        r@ == trimmed(s@),
{
    let len = s.unicode_len();
    let mut lo: usize = 0;
    while lo < len && is_ws(s.get_char(lo))
        invariant
            0 <= lo <= len,
            len == s@.len(),
            forall|j: int| 0 <= j < lo ==> is_ws_char(s@[j]),
        decreases len - lo,
    {
        lo = lo + 1;
    }
    proof {
        lemma_ws_prefix_is(s@, lo as int);
    }
    let mut hi: usize = len;
    while hi > lo && is_ws(s.get_char(hi - 1))
        invariant
            lo <= hi <= len,
            len == s@.len(),
            forall|j: int| hi <= j < len ==> is_ws_char(s@[j]),
        decreases hi,
    {
        hi = hi - 1;
    }
    if lo == len {
        proof {
            assert(trimmed(s@) =~= Seq::<char>::empty());
        }
        String::new()
    } else {
        proof {
            assert(hi > lo) by {
                if hi == lo {
                    assert(is_ws_char(s@[lo as int]));
                }
            }
            lemma_ws_suffix_is(s@, len - hi);
        }
        s.substring_char(lo, hi).to_owned()
    }
}

/// Whether two strings are equal once leading and trailing whitespace is
/// removed from both. This comparison decides every verdict.
pub fn trimmed_eq(a: &str, b: &str) -> (r: bool)
    ensures
        r == (trimmed(a@) == trimmed(b@)),
{
    let ta = trim_str(a);
    let tb = trim_str(b);
    ta == tb
}

} // verus!
