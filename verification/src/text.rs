//! Case-insensitive text matching.
//!
//! The matcher treats an exact case-insensitive name match as its hard
//! duplicate signal, and the fallback text search matches substrings the
//! same way.  Folding is ASCII folding, character by character.

use vstd::prelude::*;

verus! {

/// Case folding of one character: an ASCII uppercase letter maps to its
/// lowercase form, every other character is unchanged.
pub open spec fn lower_char(c: char) -> char {
    if 65 <= c as u32 && c as u32 <= 90 {
        ((c as u32 + 32) as char)
    } else {
        c
    }
}

/// Case folding of a text, character by character.
pub open spec fn fold_text(s: Seq<char>) -> Seq<char> {
    s.map_values(|c: char| lower_char(c))
}

/// Two names denote the same concept exactly when they fold to the same
/// text.
pub open spec fn name_eq(a: Seq<char>, b: Seq<char>) -> bool {
    fold_text(a) == fold_text(b)
}

/// The needle occurs in the haystack at position `k`, up to case.
pub open spec fn contains_at(hay: Seq<char>, needle: Seq<char>, k: int) -> bool {
    &&& 0 <= k
    &&& k + needle.len() <= hay.len()
    &&& fold_text(hay.subrange(k, k + needle.len() as int)) == fold_text(needle)
}

/// The needle occurs somewhere in the haystack, up to case.
pub open spec fn text_contains(hay: Seq<char>, needle: Seq<char>) -> bool {
    exists|k: int| contains_at(hay, needle, k)
}

/// Last index at which `x` occurs, if any.
pub open spec fn last_index_of<T>(s: Seq<T>, x: T) -> Option<int>
    decreases s.len(),
{
    if s.len() == 0 {
        None
    } else if s.last() == x {
        Some(s.len() - 1)
    } else {
        last_index_of(s.drop_last(), x)
    }
}

/// What `last_index_of` returns: the last matching index, if any.
pub proof fn lemma_last_index_of<T>(s: Seq<T>, x: T)
    ensures
        match last_index_of(s, x) {
            Some(k) => 0 <= k < s.len() && s[k] == x && forall|j: int|
                k < j < s.len() ==> s[j] != x,
            None => forall|j: int| 0 <= j < s.len() ==> s[j] != x,
        },
    decreases s.len(),
{
    if s.len() > 0 && s.last() != x {
        lemma_last_index_of(s.drop_last(), x);
        assert(forall|j: int| 0 <= j < s.len() - 1 ==> s.drop_last()[j] == #[trigger] s[j]);
    }
}

/// A matching index with nothing matching after it is what
/// `last_index_of` returns.
pub proof fn lemma_last_index_of_is<T>(s: Seq<T>, x: T, k: int)
    requires
        0 <= k < s.len(),
        s[k] == x,
        forall|j: int| k < j < s.len() ==> s[j] != x,
    ensures
        last_index_of(s, x) == Some(k),
    decreases s.len(),
{
    if k < s.len() - 1 {
        assert(s.last() != x);
        assert(forall|j: int| 0 <= j < s.len() - 1 ==> s.drop_last()[j] == #[trigger] s[j]);
        lemma_last_index_of_is(s.drop_last(), x, k);
    }
}

/// When nothing matches, nothing is found.
pub proof fn lemma_last_index_of_none<T>(s: Seq<T>, x: T)
    requires
        forall|j: int| 0 <= j < s.len() ==> s[j] != x,
    ensures
        last_index_of(s, x) is None,
{
    lemma_last_index_of(s, x);
    match last_index_of(s, x) {
        Some(k) => {
            assert(s[k] == x);
        },
        None => {},
    }
}

/// Lowercase one character.
pub fn lower_char_exec(c: char) -> (r: char)
    ensures
        r == lower_char(c),
{
    let u = c as u32;
    if 65 <= u && u <= 90 {
        ((u + 32) as u8) as char
    } else {
        c
    }
}

/// Whether two texts are equal up to ASCII case.
pub fn eq_ignore_case(a: &str, b: &str) -> (r: bool)
    ensures
        r == name_eq(a@, b@),
{
    let n = a.unicode_len();
    let m = b.unicode_len();
    if n != m {
        assert(fold_text(a@).len() != fold_text(b@).len());
        return false;
    }
    let mut i: usize = 0;
    while i < n
        invariant
            i <= n,
            n == a@.len(),
            n == b@.len(),
            forall|j: int| 0 <= j < i ==> lower_char(a@[j]) == lower_char(b@[j]),
        decreases n - i,
    {
        let ca = a.get_char(i);
        let cb = b.get_char(i);
        if lower_char_exec(ca) != lower_char_exec(cb) {
            assert(fold_text(a@)[i as int] != fold_text(b@)[i as int]);
            return false;
        }
        i += 1;
    }
    proof {
        assert(fold_text(a@) =~= fold_text(b@));
    }
    true
}

/// Whether the needle occurs in the haystack at position `k`, up to case.
fn matches_at(hay: &str, needle: &str, k: usize) -> (r: bool)
    requires
        k + needle@.len() <= hay@.len(),
    ensures
        r == contains_at(hay@, needle@, k as int),
{
    let n = hay.unicode_len();
    let m = needle.unicode_len();
    let ghost sub = hay@.subrange(k as int, k as int + needle@.len() as int);
    let mut i: usize = 0;
    while i < m
        invariant
            i <= m,
            m == needle@.len(),
            n == hay@.len(),
            k + m <= n,
            sub == hay@.subrange(k as int, k as int + needle@.len() as int),
            forall|j: int| 0 <= j < i ==> lower_char(sub[j]) == lower_char(needle@[j]),
        decreases m - i,
    {
        let ca = hay.get_char(k + i);
        let cb = needle.get_char(i);
        assert(sub[i as int] == hay@[k + i]);
        if lower_char_exec(ca) != lower_char_exec(cb) {
            assert(fold_text(sub)[i as int] != fold_text(needle@)[i as int]);
            return false;
        }
        i += 1;
    }
    proof {
        assert(fold_text(sub) =~= fold_text(needle@));
    }
    true
}

/// Whether the needle occurs somewhere in the haystack, up to case.
pub fn contains_ignore_case(hay: &str, needle: &str) -> (r: bool)
    ensures
        r == text_contains(hay@, needle@),
{
    let n = hay.unicode_len();
    let m = needle.unicode_len();
    if m > n {
        assert(forall|k: int| !contains_at(hay@, needle@, k));
        return false;
    }
    if m == 0 {
        assert(contains_at(hay@, needle@, 0)) by {
            assert(hay@.subrange(0, 0) =~= needle@);
        }
        return true;
    }
    let mut k: usize = 0;
    while k <= n - m
        invariant
            n == hay@.len(),
            m == needle@.len(),
            1 <= m <= n,
            k <= n - m + 1,
            forall|j: int| 0 <= j < k ==> !contains_at(hay@, needle@, j),
        decreases n - m + 1 - k,
    {
        if matches_at(hay, needle, k) {
            return true;
        }
        k += 1;
    }
    assert(forall|j: int| !contains_at(hay@, needle@, j));
    false
}

/// The text sent to the embedding service for a candidate: its name and
/// description joined by a colon.
pub fn embedding_text(name: &str, description: &str) -> (r: String)
    ensures
        r@ == name@ + ": "@ + description@,
{
    let mut s = name.to_owned();
    s.append(": ");
    s.append(description);
    s
}

} // verus!
