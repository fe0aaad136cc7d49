//! Substring search over byte slices: first occurrence, all occurrences,
//! and the longest-proper-border table, each pinned to an exact
//! specification.
use crate::bytes::{bytes_eq_at, find_from, matches_at, spec_find_from};
use vstd::prelude::*;

verus! {

/// Positions of every occurrence of `target` in `data` at or after `from`,
/// in ascending order.
pub open spec fn spec_match_positions(data: Seq<u8>, target: Seq<u8>, from: int) -> Seq<int>
    decreases data.len() - from,
{
    if from < 0 || target.len() == 0 || from + target.len() > data.len() {
        Seq::empty()
    } else if matches_at(data, target, from) {
        seq![from] + spec_match_positions(data, target, from + 1)
    } else {
        spec_match_positions(data, target, from + 1)
    }
}

/// `k` is the length of a border of `s[0..=i]`: a prefix of length `k`,
/// shorter than the whole, that is also a suffix ending at `i`.
pub open spec fn is_border(s: Seq<u8>, i: int, k: int) -> bool {
    0 <= k <= i && s.subrange(0, k) == s.subrange(i + 1 - k, i + 1)
}

/// Whether the two ranges `[a..a+n]` and `[b..b+n]` of `data` hold the same bytes.
fn ranges_eq(data: &[u8], a: usize, b: usize, n: usize) -> (r: bool)
    requires
        a + n <= data@.len(),
        b + n <= data@.len(),
    ensures
        r == (data@.subrange(a as int, a + n as int) == data@.subrange(b as int, b + n as int)),
{
    let dlen = data.len();
    let mut k: usize = 0;
    while k < n
        invariant
            k <= n,
            a + n <= dlen,
            b + n <= dlen,
            dlen == data@.len(),
            data@.subrange(a as int, a + k as int) == data@.subrange(b as int, b + k as int),
        decreases n - k,
    {
        if data[a + k] != data[b + k] {
            assert(data@.subrange(a as int, a + n as int)[k as int] == data@[a + k]);
            assert(data@.subrange(b as int, b + n as int)[k as int] == data@[b + k]);
            return false;
        }
        proof {
            assert(data@.subrange(a as int, a + k + 1) =~= data@.subrange(
                a as int,
                a + k as int,
            ).push(data@[a + k]));
            assert(data@.subrange(b as int, b + k + 1) =~= data@.subrange(
                b as int,
                b + k as int,
            ).push(data@[b + k]));
        }
        k += 1;
    }
    true
}

pub struct Kmp {}

impl Kmp {
    /// Position of the first occurrence of `target` in `data`; `None` when
    /// either slice is empty or there is no occurrence.
    pub fn find_first_target(data: &[u8], target: &[u8]) -> (r: Option<usize>)
        ensures
            (data@.len() == 0 || target@.len() == 0) ==> r is None,
            (data@.len() > 0 && target@.len() > 0) ==> match r {
                Some(i) => Some(i as int) == spec_find_from(data@, target@, 0),
                None => spec_find_from(data@, target@, 0) is None,
            },
    {
        if data.is_empty() || target.is_empty() {
            return None;
        }
        find_from(data, target, 0)
    }

    /// Positions of all occurrences of `target` in `data`, ascending; empty
    /// when either slice is empty.
    pub fn find_all_targets(data: &[u8], target: &[u8]) -> (v: Vec<usize>)
        ensures
            (data@.len() == 0 || target@.len() == 0) ==> v@ == Seq::<usize>::empty(),
            (data@.len() > 0 && target@.len() > 0) ==> v@.map_values(|u: usize| u as int)
                == spec_match_positions(data@, target@, 0),
    {
        let mut v: Vec<usize> = Vec::new();
        if data.is_empty() || target.is_empty() {
            assert(v@ =~= Seq::<usize>::empty());
            return v;
        }
        let n = target.len();
        let len = data.len();
        if n > len {
            assert(v@.map_values(|u: usize| u as int) =~= spec_match_positions(
                data@,
                target@,
                0,
            ));
            return v;
        }
        let mut i: usize = 0;
        while i <= len - n
            invariant
                1 <= n <= len,
                i <= len,
                len == data@.len(),
                n == target@.len(),
                spec_match_positions(data@, target@, 0) == v@.map_values(|u: usize| u as int)
                    + spec_match_positions(data@, target@, i as int),
            decreases len - i,
        {
            let hit = bytes_eq_at(data, target, i);
            proof {
                if hit {
                    assert(spec_match_positions(data@, target@, i as int) == seq![i as int]
                        + spec_match_positions(data@, target@, i + 1));
                } else {
                    assert(spec_match_positions(data@, target@, i as int)
                        == spec_match_positions(data@, target@, i + 1));
                }
            }
            if hit {
                let ghost old_v = v@;
                v.push(i);
                assert(v@.map_values(|u: usize| u as int) =~= old_v.map_values(
                    |u: usize| u as int,
                ).push(i as int));
                assert(old_v.map_values(|u: usize| u as int).push(i as int) =~= old_v.map_values(
                    |u: usize| u as int,
                ) + seq![i as int]);
            }
            i += 1;
        }
        assert(spec_match_positions(data@, target@, i as int) =~= Seq::<int>::empty());
        assert(v@.map_values(|u: usize| u as int) =~= v@.map_values(|u: usize| u as int)
            + Seq::<int>::empty());
        v
    }

    /// `target`, then a `#` separator, then `data`, as one vector.
    pub fn combine_data_and_target(target: &[u8], data: &[u8]) -> (v: Vec<u8>)
        ensures
            v@ == target@ + seq![35u8] + data@,
    {
        let mut v: Vec<u8> = Vec::new();
        v.extend_from_slice(target);
        v.push(35);
        v.extend_from_slice(data);
        assert(v@ =~= target@ + seq![35u8] + data@);
        v
    }

    /// For each `i`, the length of the longest border of `data[0..=i]`.
    pub fn compute_lps(data: &[u8]) -> (v: Vec<usize>)
        ensures
            v@.len() == data@.len(),
            forall|i: int| 0 <= i < data@.len() ==> is_border(data@, i, #[trigger] v@[i] as int),
            forall|i: int, k: int|
                0 <= i < data@.len() && v@[i] < k <= i ==> !#[trigger] is_border(data@, i, k),
    {
        let len = data.len();
        let mut v: Vec<usize> = Vec::new();
        let mut i: usize = 0;
        while i < len
            invariant
                i <= len,
                len == data@.len(),
                v@.len() == i,
                forall|t: int| 0 <= t < i ==> is_border(data@, t, #[trigger] v@[t] as int),
                forall|t: int, k: int|
                    0 <= t < i && v@[t] < k <= t ==> !#[trigger] is_border(data@, t, k),
            decreases len - i,
        {
            let mut k: usize = i;
            while k > 0 && !ranges_eq(data, 0, i + 1 - k, k)
                invariant
                    k <= i < len,
                    len == data@.len(),
                    forall|kk: int| k < kk <= i ==> !#[trigger] is_border(data@, i as int, kk),
                decreases k,
            {
                k -= 1;
            }
            proof {
                if k == 0 {
                    assert(data@.subrange(0, 0) =~= data@.subrange(i + 1 - 0, i as int + 1));
                }
            }
            v.push(k);
            i += 1;
        }
        v
    }
}

} // verus!
