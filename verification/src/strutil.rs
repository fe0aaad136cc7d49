//! Character-level helpers for the text codecs: ASCII-decimal numerals,
//! literal matching and delimiter scanning over strings, each with an
//! exact specification.
use vstd::prelude::*;

verus! {

/// `c` is an ASCII decimal digit.
pub open spec fn is_digit_char(c: char) -> bool {
    '0' <= c && c <= '9'
}

/// Every character of `s` is an ASCII decimal digit.
pub open spec fn all_digit_chars(s: Seq<char>) -> bool {
    forall|i: int| 0 <= i < s.len() ==> is_digit_char(#[trigger] s[i])
}

/// Value of the decimal numeral `s`.
pub open spec fn dec_val_chars(s: Seq<char>) -> nat
    decreases s.len(),
{
    if s.len() == 0 {
        0
    } else {
        dec_val_chars(s.drop_last()) * 10 + (if '0' <= s.last() && s.last() <= '9' {
            (s.last() as u32 - 48) as nat
        } else {
            0
        })
    }
}

/// Shortest decimal numeral of `n`.
pub open spec fn dec_chars(n: nat) -> Seq<char>
    decreases n,
{
    if n < 10 {
        seq![((48 + n) as u8) as char]
    } else {
        dec_chars(n / 10).push(((48 + n % 10) as u8) as char)
    }
}

pub proof fn lemma_dec_chars_digits(n: nat)
    ensures
        all_digit_chars(dec_chars(n)),
        dec_chars(n).len() >= 1,
    decreases n,
{
    if n >= 10 {
        lemma_dec_chars_digits(n / 10);
    }
}

/// Writing a number and reading it back yields the number.
pub proof fn lemma_dec_chars_roundtrip(n: nat)
    ensures
        dec_val_chars(dec_chars(n)) == n,
    decreases n,
{
    if n < 10 {
        assert(dec_chars(n).drop_last() =~= Seq::<char>::empty());
        assert(dec_val_chars(Seq::<char>::empty()) == 0);
    } else {
        lemma_dec_chars_roundtrip(n / 10);
        assert(dec_chars(n).drop_last() =~= dec_chars(n / 10));
        assert(dec_chars(n).last() == ((48 + n % 10) as u8) as char);
        assert((n / 10) * 10 + n % 10 == n) by (nonlinear_arith);
    }
}

/// Appending digits never lowers the value of a numeral.
pub proof fn lemma_dec_val_chars_extend_mono(a: Seq<char>, b: Seq<char>)
    ensures
        dec_val_chars(a + b) >= dec_val_chars(a),
    decreases b.len(),
{
    if b.len() == 0 {
        assert(a + b =~= a);
    } else {
        lemma_dec_val_chars_extend_mono(a, b.drop_last());
        assert((a + b).drop_last() =~= a + b.drop_last());
        assert(dec_val_chars(a + b) >= dec_val_chars(a + b.drop_last()));
    }
}

/// One decimal digit as a string.
pub fn digit_str(d: u64) -> (r: &'static str)
    requires
        d < 10,
    ensures
        r@.len() == 1,
        r@[0] == ((48 + d) as u8) as char,
{
    let r = match d {
        0 => "0",
        1 => "1",
        2 => "2",
        3 => "3",
        4 => "4",
        5 => "5",
        6 => "6",
        7 => "7",
        8 => "8",
        _ => "9",
    };
    proof {
        reveal_strlit("0");
        reveal_strlit("1");
        reveal_strlit("2");
        reveal_strlit("3");
        reveal_strlit("4");
        reveal_strlit("5");
        reveal_strlit("6");
        reveal_strlit("7");
        reveal_strlit("8");
        reveal_strlit("9");
    }
    r
}

/// Decimal numeral of `n`, as a string.
pub fn u64_to_string(n: u64) -> (s: String)
    ensures
        s@ == dec_chars(n as nat),
    decreases n,
{
    if n < 10 {
        let mut s = String::new();
        s.append(digit_str(n));
        assert(s@ =~= dec_chars(n as nat));
        s
    } else {
        let mut s = u64_to_string(n / 10);
        s.append(digit_str(n % 10));
        assert(s@ =~= dec_chars(n as nat));
        s
    }
}

/// Reads `s[from..to]` (character positions) as a decimal number; `None`
/// on an empty range, a non-digit, or overflow.
pub fn parse_dec_str(s: &str, from: usize, to: usize) -> (r: Option<u64>)
    requires
        from <= to,
        to <= s@.len(),
    ensures
        (r is Some) <==> (from < to && all_digit_chars(s@.subrange(from as int, to as int))
            && dec_val_chars(s@.subrange(from as int, to as int)) <= u64::MAX),
        r is Some ==> r->Some_0 == dec_val_chars(s@.subrange(from as int, to as int)),
{
    let ghost seg = s@.subrange(from as int, to as int);
    if from == to {
        return None;
    }
    let mut acc: u64 = 0;
    let mut i: usize = from;
    while i < to
        invariant
            from <= i <= to,
            to <= s@.len(),
            seg == s@.subrange(from as int, to as int),
            all_digit_chars(s@.subrange(from as int, i as int)),
            acc == dec_val_chars(s@.subrange(from as int, i as int)),
        decreases to - i,
    {
        let ghost pre = s@.subrange(from as int, i as int);
        let c = s.get_char(i);
        assert(c == seg[i - from]);
        if c < '0' || c > '9' {
            return None;
        }
        let d = (c as u32) - 48;
        let step = match acc.checked_mul(10) {
            Some(m) => m.checked_add(d as u64),
            None => None,
        };
        match step {
            None => {
                proof {
                    let pre1 = s@.subrange(from as int, i + 1);
                    assert(pre1.drop_last() =~= pre);
                    assert(pre1.last() == c);
                    assert(dec_val_chars(pre1) > u64::MAX);
                    assert(seg =~= pre1 + s@.subrange(i + 1, to as int));
                    lemma_dec_val_chars_extend_mono(pre1, s@.subrange(i + 1, to as int));
                }
                return None;
            },
            Some(next) => {
                proof {
                    let pre1 = s@.subrange(from as int, i + 1);
                    assert(pre1.drop_last() =~= pre);
                    assert(pre1.last() == c);
                }
                acc = next;
                i += 1;
            },
        }
    }
    assert(seg =~= s@.subrange(from as int, i as int));
    Some(acc)
}

/// Whether `lit` stands in `s` exactly at character position `pos`.
pub fn lit_at(s: &str, pos: usize, lit: &str) -> (r: bool)
    ensures
        r == (pos + lit@.len() <= s@.len() && s@.subrange(
            pos as int,
            pos + lit@.len() as int,
        ) == lit@),
{
    let n = lit.unicode_len();
    let total = s.unicode_len();
    if n > total || pos > total - n {
        return false;
    }
    let mut k: usize = 0;
    while k < n
        invariant
            k <= n,
            n == lit@.len(),
            total == s@.len(),
            pos + n <= total,
            s@.subrange(pos as int, pos + k as int) == lit@.subrange(0, k as int),
        decreases n - k,
    {
        if s.get_char(pos + k) != lit.get_char(k) {
            assert(s@.subrange(pos as int, pos + n as int)[k as int] == s@[pos + k]);
            assert(lit@[k as int] == lit@.subrange(0, n as int)[k as int]);
            return false;
        }
        proof {
            assert(s@.subrange(pos as int, pos + k + 1) =~= s@.subrange(
                pos as int,
                pos + k as int,
            ).push(s@[pos + k]));
            assert(lit@.subrange(0, k + 1) =~= lit@.subrange(0, k as int).push(lit@[k as int]));
        }
        k += 1;
    }
    proof {
        assert(s@.subrange(pos as int, pos + n as int) == lit@.subrange(0, n as int));
        assert(lit@.subrange(0, n as int) =~= lit@);
    }
    true
}

/// First position at or after `from` holding the character `c`, or the
/// length of `s` when there is none.
pub open spec fn spec_scan_to(s: Seq<char>, from: int, c: char) -> int
    decreases s.len() - from,
{
    if from < 0 || from >= s.len() {
        s.len() as int
    } else if s[from] == c {
        from
    } else {
        spec_scan_to(s, from + 1, c)
    }
}

pub proof fn lemma_scan_to_correct(s: Seq<char>, from: int, c: char)
    requires
        0 <= from <= s.len(),
    ensures
        ({
            let e = spec_scan_to(s, from, c);
            &&& from <= e <= s.len()
            &&& (e < s.len() ==> s[e] == c)
            &&& forall|j: int| from <= j < e ==> s[j] != c
        }),
    decreases s.len() - from,
{
    if from < s.len() && s[from] != c {
        lemma_scan_to_correct(s, from + 1, c);
    }
}

/// A subrange that falls inside a known prefix equals the prefix's.
pub proof fn lemma_prefix_subrange(h: Seq<char>, s: Seq<char>, a: int, b: int)
    requires
        h.len() <= s.len(),
        s.subrange(0, h.len() as int) == h,
        0 <= a <= b <= h.len(),
    ensures
        s.subrange(a, b) == h.subrange(a, b),
{
    assert forall|x: int| a <= x < b implies s[x] == h[x] by {
        assert(s.subrange(0, h.len() as int)[x] == s[x]);
    }
    assert(s.subrange(a, b) =~= h.subrange(a, b));
}

/// A subrange that falls inside a known suffix equals the suffix's.
pub proof fn lemma_suffix_subrange(t: Seq<char>, s: Seq<char>, off: int, a: int, b: int)
    requires
        0 <= off <= s.len(),
        s.subrange(off, s.len() as int) == t,
        0 <= a <= b <= t.len(),
    ensures
        s.subrange(off + a, off + b) == t.subrange(a, b),
{
    assert forall|x: int| a <= x < b implies s[off + x] == t[x] by {
        assert(s.subrange(off, s.len() as int)[x] == s[off + x]);
    }
    assert(s.subrange(off + a, off + b) =~= t.subrange(a, b));
}

/// Characters of a known suffix, read through the whole.
pub proof fn lemma_suffix_index(t: Seq<char>, s: Seq<char>, off: int)
    requires
        0 <= off <= s.len(),
        s.subrange(off, s.len() as int) == t,
    ensures
        forall|x: int| 0 <= x < t.len() ==> s[off + x] == #[trigger] t[x],
{
    assert forall|x: int| 0 <= x < t.len() implies s[off + x] == #[trigger] t[x] by {
        assert(s.subrange(off, s.len() as int)[x] == s[off + x]);
    }
}

/// The position of the first `c` determines where the scan lands.
pub proof fn lemma_scan_to_intro(s: Seq<char>, from: int, c: char, e: int)
    requires
        0 <= from <= e <= s.len(),
        e < s.len() ==> s[e] == c,
        forall|j: int| from <= j < e ==> s[j] != c,
    ensures
        spec_scan_to(s, from, c) == e,
    decreases e - from,
{
    if from < e {
        lemma_scan_to_intro(s, from + 1, c, e);
    }
}

/// First position at or after `from` holding `c`, or the length.
pub fn scan_to(s: &str, from: usize, c: char) -> (r: usize)
    requires
        from <= s@.len(),
    ensures
        r as int == spec_scan_to(s@, from as int, c),
        from <= r <= s@.len(),
{
    let len = s.unicode_len();
    let mut e = from;
    while e < len
        invariant
            from <= e <= len,
            len == s@.len(),
            spec_scan_to(s@, from as int, c) == spec_scan_to(s@, e as int, c),
        decreases len - e,
    {
        if s.get_char(e) == c {
            return e;
        }
        e += 1;
    }
    e
}

/// `t` occurs in `s` starting at character position `i`.
pub open spec fn matches_at_chars(s: Seq<char>, t: Seq<char>, i: int) -> bool {
    0 <= i && i + t.len() <= s.len() && s.subrange(i, i + t.len() as int) == t
}

/// Position of the first occurrence of `t` in `s` at or after `from`.
pub open spec fn spec_find_chars_from(s: Seq<char>, t: Seq<char>, from: int) -> Option<int>
    decreases s.len() - from,
{
    if from < 0 || from + t.len() > s.len() {
        None
    } else if t.len() == 0 {
        Some(from)
    } else if matches_at_chars(s, t, from) {
        Some(from)
    } else {
        spec_find_chars_from(s, t, from + 1)
    }
}

pub proof fn lemma_find_chars_from_correct(s: Seq<char>, t: Seq<char>, from: int)
    requires
        0 <= from,
    ensures
        match spec_find_chars_from(s, t, from) {
            Some(i) => from <= i && matches_at_chars(s, t, i) && forall|j: int|
                from <= j < i ==> !matches_at_chars(s, t, j),
            None => forall|j: int| j >= from ==> !matches_at_chars(s, t, j),
        },
    decreases s.len() - from,
{
    if from + t.len() > s.len() {
        assert forall|j: int| j >= from implies !matches_at_chars(s, t, j) by {
            assert(j + t.len() > s.len());
        }
    } else if t.len() == 0 {
        assert(s.subrange(from, from) =~= t);
    } else if matches_at_chars(s, t, from) {
    } else {
        lemma_find_chars_from_correct(s, t, from + 1);
    }
}

/// First occurrence of `t` in `s` at or after `from`.
pub fn find_str_from(s: &str, t: &str, from: usize) -> (r: Option<usize>)
    ensures
        match r {
            Some(i) => Some(i as int) == spec_find_chars_from(s@, t@, from as int),
            None => spec_find_chars_from(s@, t@, from as int) is None,
        },
{
    let n = t.unicode_len();
    let len = s.unicode_len();
    if n > len || from > len - n {
        return None;
    }
    if n == 0 {
        return Some(from);
    }
    let mut i: usize = from;
    while i <= len - n
        invariant
            from <= i,
            1 <= n <= len,
            len == s@.len(),
            n == t@.len(),
            spec_find_chars_from(s@, t@, from as int) == spec_find_chars_from(
                s@,
                t@,
                i as int,
            ),
        decreases len - i,
    {
        if lit_at(s, i, t) {
            return Some(i);
        }
        assert(spec_find_chars_from(s@, t@, i as int) == spec_find_chars_from(s@, t@, i + 1));
        i += 1;
    }
    None
}

/// The characters `s[from..to]`, as a fresh string.
pub fn substring_copy(s: &str, from: usize, to: usize) -> (r: String)
    requires
        from <= to,
        to <= s@.len(),
    ensures
        r@ == s@.subrange(from as int, to as int),
{
    let sub = s.substring_char(from, to);
    sub.to_owned()
}

/// Whether the two strings hold the same characters.
pub fn str_eq(a: &str, b: &str) -> (r: bool)
    ensures
        r == (a@ == b@),
{
    let na = a.unicode_len();
    let nb = b.unicode_len();
    if na != nb {
        return false;
    }
    let mut k: usize = 0;
    while k < na
        invariant
            k <= na,
            na == a@.len(),
            na == b@.len(),
            forall|j: int| 0 <= j < k ==> a@[j] == b@[j],
        decreases na - k,
    {
        if a.get_char(k) != b.get_char(k) {
            return false;
        }
        k += 1;
    }
    proof {
        assert(a@ =~= b@);
    }
    true
}

} // verus!
