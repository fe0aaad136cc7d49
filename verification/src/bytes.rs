//! Byte-sequence helpers shared by the framer, the SIP codec and the
//! decimal readers/writers: substring search, ASCII-decimal conversion
//! and whitespace trimming, each with an exact specification.
use vstd::prelude::*;

verus! {

/// `target` occurs in `data` starting at index `i`.
pub open spec fn matches_at(data: Seq<u8>, target: Seq<u8>, i: int) -> bool {
    0 <= i && i + target.len() <= data.len() && data.subrange(i, i + target.len() as int)
        == target
}

/// Index of the first occurrence of `target` in `data` at or after `from`.
pub open spec fn spec_find_from(data: Seq<u8>, target: Seq<u8>, from: int) -> Option<int>
    decreases data.len() - from,
{
    if from < 0 || from + target.len() > data.len() {
        None
    } else if target.len() == 0 {
        Some(from)
    } else if matches_at(data, target, from) {
        Some(from)
    } else {
        spec_find_from(data, target, from + 1)
    }
}

/// What `spec_find_from` returns is the first match position at or after `from`.
pub proof fn lemma_find_from_correct(data: Seq<u8>, target: Seq<u8>, from: int)
    requires
        0 <= from,
    ensures
        match spec_find_from(data, target, from) {
            Some(i) => from <= i && matches_at(data, target, i) && forall|j: int|
                from <= j < i ==> !matches_at(data, target, j),
            None => forall|j: int| j >= from ==> !matches_at(data, target, j),
        },
    decreases data.len() - from,
{
    if from + target.len() > data.len() {
        assert forall|j: int| j >= from implies !matches_at(data, target, j) by {
            assert(j + target.len() > data.len());
        }
    } else if target.len() == 0 {
        assert(data.subrange(from, from) =~= target);
    } else if matches_at(data, target, from) {
    } else {
        lemma_find_from_correct(data, target, from + 1);
    }
}

/// A match inside a prefix is the same as a match of the whole.
pub proof fn lemma_matches_prefix(a: Seq<u8>, b: Seq<u8>, t: Seq<u8>, j: int)
    requires
        a.len() <= b.len(),
        b.subrange(0, a.len() as int) == a,
        0 <= j,
        j + t.len() <= a.len(),
    ensures
        matches_at(b, t, j) == matches_at(a, t, j),
{
    assert forall|x: int| j <= x < j + t.len() implies b[x] == a[x] by {
        assert(b.subrange(0, a.len() as int)[x] == b[x]);
    }
    assert(b.subrange(j, j + t.len() as int) =~= a.subrange(j, j + t.len() as int));
}

/// The first match at or after `from` determines what the search finds.
pub proof fn lemma_find_from_intro(data: Seq<u8>, t: Seq<u8>, from: int, i: int)
    requires
        0 <= from <= i,
        t.len() >= 1,
        matches_at(data, t, i),
        forall|j: int| from <= j < i ==> !matches_at(data, t, j),
    ensures
        spec_find_from(data, t, from) == Some(i),
    decreases i - from,
{
    if from < i {
        lemma_find_from_intro(data, t, from + 1, i);
    }
}

/// Searching a prefix and searching the whole agree on matches that fit
/// inside the prefix.
pub proof fn lemma_find_from_prefix(a: Seq<u8>, b: Seq<u8>, t: Seq<u8>, from: int)
    requires
        0 <= from,
        a.len() <= b.len(),
        b.subrange(0, a.len() as int) == a,
        t.len() >= 1,
    ensures
        match spec_find_from(a, t, from) {
            Some(i) => spec_find_from(b, t, from) == Some(i),
            None => match spec_find_from(b, t, from) {
                Some(j) => j + t.len() > a.len(),
                None => true,
            },
        },
{
    lemma_find_from_correct(a, t, from);
    lemma_find_from_correct(b, t, from);
    match spec_find_from(a, t, from) {
        Some(i) => {
            lemma_matches_prefix(a, b, t, i);
            assert forall|j: int| from <= j < i implies !matches_at(b, t, j) by {
                lemma_matches_prefix(a, b, t, j);
            }
            lemma_find_from_intro(b, t, from, i);
        },
        None => {
            match spec_find_from(b, t, from) {
                Some(j) => {
                    if j + t.len() <= a.len() {
                        lemma_matches_prefix(a, b, t, j);
                        assert(false);
                    }
                },
                None => (),
            }
        },
    }
}

/// Whether `target` matches `data` at position `at`.
pub fn bytes_eq_at(data: &[u8], target: &[u8], at: usize) -> (r: bool)
    requires
        at + target@.len() <= data@.len(),
    ensures
        r == matches_at(data@, target@, at as int),
{
    let n = target.len();
    let dlen = data.len();
    let mut k: usize = 0;
    while k < n
        invariant
            k <= n,
            n == target@.len(),
            dlen == data@.len(),
            at + n <= dlen,
            forall|t: int| 0 <= t < k ==> data@[at + t] == target@[t],
        decreases n - k,
    {
        if data[at + k] != target[k] {
            assert(data@.subrange(at as int, at + n as int)[k as int] == data@[at + k]);
            return false;
        }
        k += 1;
    }
    assert(data@.subrange(at as int, at + n as int) =~= target@);
    true
}

/// First occurrence of `target` in `data` at or after `from`.
pub fn find_from(data: &[u8], target: &[u8], from: usize) -> (r: Option<usize>)
    ensures
        match r {
            Some(i) => Some(i as int) == spec_find_from(data@, target@, from as int),
            None => spec_find_from(data@, target@, from as int) is None,
        },
{
    let n = target.len();
    let len = data.len();
    if n > len || from > len - n {
        return None;
    }
    if n == 0 {
        return Some(from);
    }
    let mut i: usize = from;
    while i <= len - n
        invariant
            from <= i,
            1 <= n <= len,
            len == data@.len(),
            n == target@.len(),
            spec_find_from(data@, target@, from as int) == spec_find_from(
                data@,
                target@,
                i as int,
            ),
        decreases len - i,
    {
        if bytes_eq_at(data, target, i) {
            return Some(i);
        }
        assert(spec_find_from(data@, target@, i as int) == spec_find_from(
            data@,
            target@,
            i + 1,
        ));
        i += 1;
    }
    None
}

/// `b` is an ASCII decimal digit.
pub open spec fn is_digit(b: u8) -> bool {
    48 <= b && b <= 57
}

/// Every byte of `s` is an ASCII decimal digit.
pub open spec fn all_digits(s: Seq<u8>) -> bool {
    forall|i: int| 0 <= i < s.len() ==> is_digit(#[trigger] s[i])
}

/// Value of the ASCII decimal numeral `s`.
pub open spec fn dec_val(s: Seq<u8>) -> nat
    decreases s.len(),
{
    if s.len() == 0 {
        0
    } else {
        dec_val(s.drop_last()) * 10 + (if 48 <= s.last() {
            (s.last() - 48) as nat
        } else {
            0
        })
    }
}

/// Shortest ASCII decimal numeral of `n`.
pub open spec fn dec_str(n: nat) -> Seq<u8>
    decreases n,
{
    if n < 10 {
        seq![(48 + n) as u8]
    } else {
        dec_str(n / 10).push((48 + n % 10) as u8)
    }
}

pub proof fn lemma_dec_str_digits(n: nat)
    ensures
        all_digits(dec_str(n)),
        dec_str(n).len() >= 1,
        dec_str(n)[0] != 48 || n < 10,
    decreases n,
{
    if n >= 10 {
        lemma_dec_str_digits(n / 10);
        assert(dec_str(n)[0] == dec_str(n / 10)[0]);
    }
}

/// Writing a number and reading it back yields the number.
pub proof fn lemma_dec_roundtrip(n: nat)
    ensures
        dec_val(dec_str(n)) == n,
    decreases n,
{
    if n < 10 {
        assert(dec_str(n).drop_last() =~= Seq::<u8>::empty());
        assert(dec_val(Seq::<u8>::empty()) == 0);
    } else {
        lemma_dec_roundtrip(n / 10);
        assert(dec_str(n).drop_last() =~= dec_str(n / 10));
        assert(dec_str(n).last() == (48 + n % 10) as u8);
        assert((n / 10) * 10 + n % 10 == n) by (nonlinear_arith);
    }
}

/// Appending digits never lowers the value of a numeral.
pub proof fn lemma_dec_val_extend_mono(a: Seq<u8>, b: Seq<u8>)
    ensures
        dec_val(a + b) >= dec_val(a),
    decreases b.len(),
{
    if b.len() == 0 {
        assert(a + b =~= a);
    } else {
        lemma_dec_val_extend_mono(a, b.drop_last());
        assert((a + b).drop_last() =~= a + b.drop_last());
        assert(dec_val(a + b) >= dec_val(a + b.drop_last()));
    }
}

/// Decimal numeral of `n`, as bytes.
pub fn u64_to_dec(n: u64) -> (v: Vec<u8>)
    ensures
        v@ == dec_str(n as nat),
    decreases n,
{
    if n < 10 {
        let mut v: Vec<u8> = Vec::new();
        v.push(48 + (n as u8));
        assert(v@ =~= dec_str(n as nat));
        v
    } else {
        let mut v = u64_to_dec(n / 10);
        v.push(48 + ((n % 10) as u8));
        assert(v@ =~= dec_str(n as nat));
        v
    }
}

/// Reads `s[from..to]` as an ASCII decimal number; `None` on an empty
/// range, a non-digit byte, or a value that does not fit in `u64`.
pub fn dec_parse_u64(s: &[u8], from: usize, to: usize) -> (r: Option<u64>)
    requires
        from <= to,
        to <= s@.len(),
    ensures
        (r is Some) <==> (from < to && all_digits(s@.subrange(from as int, to as int)) && dec_val(
            s@.subrange(from as int, to as int),
        ) <= u64::MAX),
        r is Some ==> r->Some_0 == dec_val(s@.subrange(from as int, to as int)),
{
    let ghost seg = s@.subrange(from as int, to as int);
    if from == to {
        return None;
    }
    let mut acc: u64 = 0;
    let mut i: usize = from;
    while i < to
        invariant
            from <= i <= to,
            to <= s@.len(),
            seg == s@.subrange(from as int, to as int),
            all_digits(s@.subrange(from as int, i as int)),
            acc == dec_val(s@.subrange(from as int, i as int)),
        decreases to - i,
    {
        let ghost pre = s@.subrange(from as int, i as int);
        let b = s[i];
        assert(b == seg[i - from]);
        if b < 48 || b > 57 {
            return None;
        }
        let d = b - 48;
        let step = match acc.checked_mul(10) {
            Some(m) => m.checked_add(d as u64),
            None => None,
        };
        match step {
            None => {
                proof {
                    let pre1 = s@.subrange(from as int, i + 1);
                    assert(pre1.drop_last() =~= pre);
                    assert(pre1.last() == b);
                    assert(dec_val(pre1) > u64::MAX);
                    assert(seg =~= pre1 + s@.subrange(i + 1, to as int));
                    lemma_dec_val_extend_mono(pre1, s@.subrange(i + 1, to as int));
                }
                return None;
            },
            Some(next) => {
                proof {
                    let pre1 = s@.subrange(from as int, i + 1);
                    assert(pre1.drop_last() =~= pre);
                    assert(pre1.last() == b);
                }
                acc = next;
                i += 1;
            },
        }
    }
    assert(seg =~= s@.subrange(from as int, i as int));
    Some(acc)
}

/// `b` is an ASCII space or horizontal tab.
pub open spec fn is_ws(b: u8) -> bool {
    b == 32 || b == 9
}

/// `s` with leading whitespace removed.
pub open spec fn trim_left(s: Seq<u8>) -> Seq<u8>
    decreases s.len(),
{
    if s.len() > 0 && is_ws(s[0]) {
        trim_left(s.drop_first())
    } else {
        s
    }
}

/// `s` with trailing whitespace removed.
pub open spec fn trim_right(s: Seq<u8>) -> Seq<u8>
    decreases s.len(),
{
    if s.len() > 0 && is_ws(s.last()) {
        trim_right(s.drop_last())
    } else {
        s
    }
}

/// `s` with leading and trailing whitespace removed.
pub open spec fn spec_trim(s: Seq<u8>) -> Seq<u8> {
    trim_right(trim_left(s))
}

/// Bounds of `s[from..to]` after trimming whitespace on both sides.
pub fn trim_range(s: &[u8], from: usize, to: usize) -> (r: (usize, usize))
    requires
        from <= to,
        to <= s@.len(),
    ensures
        from <= r.0 <= r.1 <= to,
        s@.subrange(r.0 as int, r.1 as int) == spec_trim(s@.subrange(from as int, to as int)),
{
    let mut lo = from;
    let mut hi = to;
    while lo < hi && is_ws_byte(s[lo])
        invariant
            from <= lo <= hi <= to,
            to <= s@.len(),
            hi == to,
            trim_left(s@.subrange(from as int, to as int)) == trim_left(
                s@.subrange(lo as int, to as int),
            ),
        decreases hi - lo,
    {
        assert(s@.subrange(lo as int, to as int).drop_first() =~= s@.subrange(lo + 1, to as int));
        lo += 1;
    }
    proof {
        if lo < hi {
            assert(!is_ws(s@.subrange(lo as int, to as int)[0]));
        }
        assert(trim_left(s@.subrange(lo as int, to as int)) == s@.subrange(lo as int, to as int));
    }
    while lo < hi && is_ws_byte(s[hi - 1])
        invariant
            from <= lo <= hi <= to,
            to <= s@.len(),
            trim_right(s@.subrange(lo as int, to as int)) == trim_right(
                s@.subrange(lo as int, hi as int),
            ),
        decreases hi - lo,
    {
        assert(s@.subrange(lo as int, hi as int).drop_last() =~= s@.subrange(lo as int, hi - 1));
        hi -= 1;
    }
    proof {
        if lo < hi {
            assert(s@.subrange(lo as int, hi as int).last() == s@[hi - 1]);
        }
        assert(trim_right(s@.subrange(lo as int, hi as int)) == s@.subrange(lo as int, hi as int));
    }
    (lo, hi)
}

/// Whether `b` is an ASCII space or horizontal tab.
pub fn is_ws_byte(b: u8) -> (r: bool)
    ensures
        r == is_ws(b),
{
    b == 32 || b == 9
}

} // verus!
