//! Substring search over byte sequences.
//!
//! The wire envelope is delimited by plain substring search, so the codec
//! needs a search routine with an exact first-occurrence contract.

use vstd::prelude::*;

verus! {

/// The pattern `n` occurs in `h` starting at index `i`.
pub open spec fn is_match_at(h: Seq<u8>, n: Seq<u8>, i: int) -> bool {
    0 <= i && i + n.len() <= h.len() && h.subrange(i, i + n.len() as int) == n
}

/// The pattern `n` occurs somewhere in `h`.
pub open spec fn contains_sub(h: Seq<u8>, n: Seq<u8>) -> bool {
    exists|i: int| is_match_at(h, n, i)
}

fn matches_at(h: &Vec<u8>, n: &Vec<u8>, i: usize) -> (r: bool)
    requires
        i + n@.len() <= h@.len(),
    ensures
        r == is_match_at(h@, n@, i as int),
{
    let h_len: usize = h.len();
    let n_len: usize = n.len();
    let mut j: usize = 0;
    while j < n_len
        invariant
            h_len == h@.len(),
            n_len == n@.len(),
            i + n@.len() <= h@.len(),
            j <= n@.len(),
            forall|k: int| 0 <= k < j ==> h@[i + k] == n@[k],
        decreases n@.len() - j,
    {
        if h[i + j] != n[j] {
            proof {
                assert(h@.subrange(i as int, i + n@.len() as int)[j as int] == h@[i + j]);
            }
            return false;
        }
        j += 1;
    }
    proof {
        assert(h@.subrange(i as int, i + n@.len() as int) =~= n@);
    }
    true
}

/// Index of the first occurrence of `n` in `h`, if any.
pub fn find_sub(h: &Vec<u8>, n: &Vec<u8>) -> (r: Option<usize>)
    ensures
        match r {
            Some(i) => is_match_at(h@, n@, i as int) && forall|j: int|
                0 <= j < i ==> !is_match_at(h@, n@, j),
            None => !contains_sub(h@, n@),
        },
{
    let h_len: usize = h.len();
    let n_len: usize = n.len();
    if n_len == 0 {
        proof {
            assert(h@.subrange(0, 0) =~= n@);
        }
        return Some(0);
    }
    if n_len > h_len {
        return None;
    }
    let last: usize = h_len - n_len;
    let mut i: usize = 0;
    loop
        invariant
            h_len == h@.len(),
            n_len == n@.len(),
            0 < n_len <= h_len,
            last == h_len - n_len,
            i <= last,
            forall|j: int| 0 <= j < i ==> !is_match_at(h@, n@, j),
        decreases last - i,
    {
        if matches_at(h, n, i) {
            return Some(i);
        }
        if i == last {
            return None;
        }
        i += 1;
    }
}

/// Index of the first occurrence of `n` in `h` at or after `i`, as a
/// total spec function.
pub open spec fn spec_find(h: Seq<u8>, n: Seq<u8>, i: int) -> Option<int>
    decreases h.len() - i,
        when 0 <= i <= h.len()
{
    if n.len() == 0 {
        Some(i)
    } else if i + n.len() > h.len() {
        None
    } else if is_match_at(h, n, i) {
        Some(i)
    } else {
        spec_find(h, n, i + 1)
    }
}

/// `spec_find` returns the first match at or after `i`, or reports that
/// there is none.
pub proof fn lemma_find_char(h: Seq<u8>, n: Seq<u8>, i: int)
    requires
        0 <= i <= h.len(),
    ensures
        match spec_find(h, n, i) {
            Some(j) => i <= j && is_match_at(h, n, j) && forall|k: int|
                i <= k < j ==> !is_match_at(h, n, k),
            None => forall|k: int| k >= i ==> !is_match_at(h, n, k),
        },
    decreases h.len() - i,
{
    if n.len() == 0 {
        assert(h.subrange(i, i) =~= n);
    } else if i + n.len() > h.len() {
    } else if is_match_at(h, n, i) {
    } else {
        lemma_find_char(h, n, i + 1);
    }
}

/// A match with no earlier match is what `spec_find` returns.
pub proof fn lemma_find_unique(h: Seq<u8>, n: Seq<u8>, i: int)
    requires
        is_match_at(h, n, i),
        forall|k: int| 0 <= k < i ==> !is_match_at(h, n, k),
    ensures
        spec_find(h, n, 0) == Some(i),
{
    lemma_find_char(h, n, 0);
    match spec_find(h, n, 0) {
        Some(j) => {
            if j < i {
            } else if j > i {
            }
        },
        None => {},
    }
}

/// A two-byte pattern occurs exactly where its bytes stand adjacent.
pub proof fn lemma_contains_pair(x: Seq<u8>, a: u8, b: u8)
    ensures
        contains_sub(x, seq![a, b]) <==> exists|j: int|
            0 <= j && j + 1 < x.len() && #[trigger] x[j] == a && x[j + 1] == b,
{
    if contains_sub(x, seq![a, b]) {
        let i = choose|i: int| is_match_at(x, seq![a, b], i);
        assert(x.subrange(i, i + 2)[0] == x[i]);
        assert(x.subrange(i, i + 2)[1] == x[i + 1]);
        assert(x[i] == a && x[i + 1] == b);
    }
    if exists|j: int| 0 <= j && j + 1 < x.len() && #[trigger] x[j] == a && x[j + 1] == b {
        let j = choose|j: int| 0 <= j && j + 1 < x.len() && #[trigger] x[j] == a && x[j + 1] == b;
        assert(x.subrange(j, j + 2) =~= seq![a, b]);
        assert(is_match_at(x, seq![a, b], j));
    }
}

/// Whether two byte vectors hold the same bytes.
pub fn bytes_eq(a: &Vec<u8>, b: &Vec<u8>) -> (r: bool)
    ensures
        r == (a@ == b@),
{
    let a_len: usize = a.len();
    let b_len: usize = b.len();
    if a_len != b_len {
        return false;
    }
    let mut k: usize = 0;
    while k < a_len
        invariant
            a_len == a@.len(),
            b_len == b@.len(),
            a_len == b_len,
            k <= a_len,
            forall|m: int| 0 <= m < k ==> a@[m] == b@[m],
        decreases a_len - k,
    {
        if a[k] != b[k] {
            return false;
        }
        k += 1;
    }
    proof {
        assert(a@ =~= b@);
    }
    true
}

/// A copy of the bytes of `s` between `from` and `to`.
pub fn copy_range(s: &Vec<u8>, from: usize, to: usize) -> (r: Vec<u8>)
    requires
        from <= to <= s@.len(),
    ensures
        r@ == s@.subrange(from as int, to as int),
{
    let mut r: Vec<u8> = Vec::new();
    let mut k: usize = from;
    while k < to
        invariant
            from <= k <= to <= s@.len(),
            r@ == s@.subrange(from as int, k as int),
        decreases to - k,
    {
        r.push(s[k]);
        proof {
            assert(r@ =~= s@.subrange(from as int, k + 1));
        }
        k += 1;
    }
    r
}

/// A copy of a byte vector.
pub fn clone_bytes(s: &Vec<u8>) -> (r: Vec<u8>)
    ensures
        r@ == s@,
{
    let r = copy_range(s, 0, s.len());
    proof {
        assert(s@.subrange(0, s@.len() as int) =~= s@);
    }
    r
}

/// Whether `n` occurs in `h`.
pub fn contains_bytes(h: &Vec<u8>, n: &Vec<u8>) -> (r: bool)
    ensures
        r == contains_sub(h@, n@),
{
    match find_sub(h, n) {
        Some(_) => true,
        None => false,
    }
}

} // verus!
