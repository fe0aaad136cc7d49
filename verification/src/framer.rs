//! Content-Length based framing of a SIP byte stream: the exact rule by
//! which one whole message is cut off the front of a TCP buffer.
use crate::bytes::{
    all_digits, dec_parse_u64, dec_val, find_from, matches_at, spec_find_from, spec_trim,
    trim_range,
};
use vstd::prelude::*;

verus! {

/// The bytes of `Content-Length:`.
pub open spec fn content_length_token() -> Seq<u8> {
    seq![67u8, 111u8, 110u8, 116u8, 101u8, 110u8, 116u8, 45u8, 76u8, 101u8, 110u8, 103u8, 116u8, 104u8, 58u8]
}

/// The bytes of `\r\n\r\n`.
pub open spec fn crlfcrlf() -> Seq<u8> {
    seq![13u8, 10u8, 13u8, 10u8]
}

/// `Content-Length:` as a vector.
pub fn content_length_vec() -> (v: Vec<u8>)
    ensures
        v@ == content_length_token(),
{
    let v: Vec<u8> = vec![67u8, 111u8, 110u8, 116u8, 101u8, 110u8, 116u8, 45u8, 76u8, 101u8, 110u8, 103u8, 116u8, 104u8, 58u8];
    assert(v@ =~= content_length_token());
    v
}

/// `\r\n\r\n` as a vector.
pub fn crlfcrlf_vec() -> (v: Vec<u8>)
    ensures
        v@ == crlfcrlf(),
{
    let v: Vec<u8> = vec![13u8, 10u8, 13u8, 10u8];
    assert(v@ =~= crlfcrlf());
    v
}

/// First position at or after `from` holding CR or LF; the length when none.
pub open spec fn spec_line_end(buf: Seq<u8>, from: int) -> int
    decreases buf.len() - from,
{
    if from < 0 || from >= buf.len() {
        buf.len() as int
    } else if buf[from] == 13 || buf[from] == 10 {
        from
    } else {
        spec_line_end(buf, from + 1)
    }
}

/// The value a Content-Length segment denotes: its trimmed digits, or 0
/// when empty, non-numeric or out of range.
pub open spec fn spec_cl_value(seg: Seq<u8>) -> nat {
    let t = spec_trim(seg);
    if t.len() > 0 && all_digits(t) && dec_val(t) <= u64::MAX {
        dec_val(t)
    } else {
        0
    }
}

/// One framing step: the first whole SIP message in `buf` and the bytes
/// after it, or `None` while the buffer is still incomplete. A buffer
/// holding exactly `\r\n\r\n` is a keepalive: it is discarded whole,
/// yielding an empty message that the dispatcher drops.
///
/// The message ends `Content-Length` bytes after the first `\r\n\r\n`
/// that follows the end of the first `Content-Length:` header line.
pub open spec fn spec_frame(buf: Seq<u8>) -> Option<(Seq<u8>, Seq<u8>)> {
    if buf == crlfcrlf() {
        Some((Seq::<u8>::empty(), Seq::<u8>::empty()))
    } else {
        spec_frame_message(buf)
    }
}

/// The Content-Length framing rule proper, for buffers that are not a
/// bare keepalive.
pub open spec fn spec_frame_message(buf: Seq<u8>) -> Option<(Seq<u8>, Seq<u8>)> {
    match spec_find_from(buf, content_length_token(), 0) {
        None => None,
        Some(cl) => {
            let begin = cl + content_length_token().len();
            let end = spec_line_end(buf, begin);
            let n = spec_cl_value(buf.subrange(begin, end));
            match spec_find_from(buf.subrange(end, buf.len() as int), crlfcrlf(), 0) {
                None => None,
                Some(p) => {
                    let stop = end + p + 4 + n;
                    if stop <= buf.len() {
                        Some(
                            (buf.subrange(0, stop as int), buf.subrange(
                                stop as int,
                                buf.len() as int,
                            )),
                        )
                    } else {
                        None
                    }
                },
            }
        },
    }
}

/// Where `spec_line_end` lands: at the first CR or LF, or at the end.
pub proof fn lemma_line_end_bounds(buf: Seq<u8>, from: int)
    requires
        0 <= from <= buf.len(),
    ensures
        ({
            let e = spec_line_end(buf, from);
            &&& from <= e <= buf.len()
            &&& (e < buf.len() ==> buf[e] == 13 || buf[e] == 10)
            &&& forall|j: int| from <= j < e ==> buf[j] != 13 && buf[j] != 10
        }),
    decreases buf.len() - from,
{
    if from < buf.len() && buf[from] != 13 && buf[from] != 10 {
        lemma_line_end_bounds(buf, from + 1);
    }
}

/// The position of the first CR or LF determines where the scan lands.
pub proof fn lemma_line_end_intro(buf: Seq<u8>, from: int, e: int)
    requires
        0 <= from <= e <= buf.len(),
        e < buf.len() ==> (buf[e] == 13 || buf[e] == 10),
        e == buf.len() || e < buf.len(),
        forall|j: int| from <= j < e ==> buf[j] != 13 && buf[j] != 10,
    ensures
        spec_line_end(buf, from) == e,
    decreases e - from,
{
    if from < e {
        lemma_line_end_intro(buf, from + 1, e);
    }
}

/// Scanning a prefix and scanning the whole agree while the terminator
/// falls inside the prefix.
pub proof fn lemma_line_end_prefix(a: Seq<u8>, b: Seq<u8>, from: int)
    requires
        0 <= from <= a.len(),
        a.len() <= b.len(),
        b.subrange(0, a.len() as int) == a,
    ensures
        spec_line_end(a, from) < a.len() ==> spec_line_end(b, from) == spec_line_end(a, from),
        spec_line_end(a, from) == a.len() ==> spec_line_end(b, from) >= a.len(),
{
    lemma_line_end_bounds(a, from);
    lemma_line_end_bounds(b, from);
    let ea = spec_line_end(a, from);
    assert forall|j: int| from <= j < ea implies b[j] != 13 && b[j] != 10 by {
        assert(b.subrange(0, a.len() as int)[j] == b[j]);
    }
    if ea < a.len() {
        assert(b.subrange(0, a.len() as int)[ea] == b[ea]);
        lemma_line_end_intro(b, from, ea);
    } else {
        if spec_line_end(b, from) < a.len() {
            assert(false);
        }
    }
}

/// A whole well-formed SIP message: one the framer emits entire, with
/// nothing left over.
pub open spec fn wf_sip_frame(m: Seq<u8>) -> bool {
    spec_frame(m) == Some((m, Seq::<u8>::empty()))
}

/// Bytes arriving after a whole message do not change how it is framed:
/// the framer cuts exactly the message and keeps the rest.
pub proof fn lemma_frame_extends(m: Seq<u8>, rest: Seq<u8>)
    requires
        wf_sip_frame(m),
    ensures
        spec_frame(m + rest) == Some((m, rest)),
{
    let b = m + rest;
    assert(b.subrange(0, m.len() as int) =~= m);
    assert(m != crlfcrlf());
    let cl = spec_find_from(m, content_length_token(), 0)->Some_0;
    crate::bytes::lemma_find_from_correct(m, content_length_token(), 0);
    crate::bytes::lemma_find_from_prefix(m, b, content_length_token(), 0);
    assert(b != crlfcrlf()) by {
        assert(cl + 15 <= m.len());
    }
    let begin = cl + 15;
    let e = spec_line_end(m, begin);
    lemma_line_end_bounds(m, begin);
    if e == m.len() {
        assert(m.subrange(e, m.len() as int).len() == 0);
        assert(spec_find_from(m.subrange(e, m.len() as int), crlfcrlf(), 0) is None);
        assert(false);
    }
    lemma_line_end_prefix(m, b, begin);
    assert(b.subrange(begin, e as int) =~= m.subrange(begin, e as int)) by {
        assert forall|x: int|
            begin <= x < e implies b.subrange(0, m.len() as int)[x] == b[x] by {}
    }
    let subm = m.subrange(e, m.len() as int);
    let subb = b.subrange(e, b.len() as int);
    assert(subb.subrange(0, subm.len() as int) =~= subm) by {
        assert forall|x: int| 0 <= x < subm.len() implies subb[x] == subm[x] by {
            assert(b.subrange(0, m.len() as int)[e + x] == b[e + x]);
        }
    }
    let p = spec_find_from(subm, crlfcrlf(), 0)->Some_0;
    crate::bytes::lemma_find_from_correct(subm, crlfcrlf(), 0);
    crate::bytes::lemma_find_from_prefix(subm, subb, crlfcrlf(), 0);
    let n = spec_cl_value(m.subrange(begin, e as int));
    let stop = e + p + 4 + n;
    assert(content_length_token().len() == 15);
    assert(spec_frame(m) == (if stop <= m.len() {
        Some((m.subrange(0, stop as int), m.subrange(stop as int, m.len() as int)))
    } else {
        None::<(Seq<u8>, Seq<u8>)>
    }));
    assert(stop <= m.len());
    assert(m.subrange(0, stop as int) == m);
    assert(m.subrange(0, stop as int).len() == stop);
    assert(stop == m.len());
    assert(b.subrange(0, stop as int) =~= m);
    assert(b.subrange(stop as int, b.len() as int) =~= rest);
}

/// No proper prefix of a well-formed message is framed: the framer
/// waits for the rest.
pub proof fn lemma_frame_incomplete(m: Seq<u8>, k: int)
    requires
        wf_sip_frame(m),
        m[0] != 13,
        0 <= k < m.len(),
    ensures
        spec_frame(m.subrange(0, k)) is None,
{
    let p = m.subrange(0, k);
    assert(m.subrange(0, p.len() as int) =~= p);
    assert(p != crlfcrlf()) by {
        if p == crlfcrlf() {
            assert(p[0] == m[0]);
        }
    }
    let cl = spec_find_from(m, content_length_token(), 0)->Some_0;
    crate::bytes::lemma_find_from_correct(m, content_length_token(), 0);
    crate::bytes::lemma_find_from_prefix(p, m, content_length_token(), 0);
    match spec_find_from(p, content_length_token(), 0) {
        None => {},
        Some(clp) => {
            crate::bytes::lemma_find_from_correct(p, content_length_token(), 0);
            assert(clp == cl);
            let begin = clp + 15;
            let ep = spec_line_end(p, begin);
            let em = spec_line_end(m, begin);
            lemma_line_end_bounds(p, begin);
            lemma_line_end_bounds(m, begin);
            lemma_line_end_prefix(p, m, begin);
            if em == m.len() {
                assert(m.subrange(em as int, m.len() as int).len() == 0);
                assert(spec_find_from(m.subrange(em as int, m.len() as int), crlfcrlf(), 0)
                    is None);
                assert(false);
            }
            if ep < p.len() {
                assert(ep == em);
                assert(p.subrange(begin, ep as int) =~= m.subrange(begin, em as int)) by {
                    assert forall|x: int|
                        begin <= x < ep implies m.subrange(0, p.len() as int)[x] == m[x] by {}
                }
                let subp = p.subrange(ep as int, p.len() as int);
                let subm = m.subrange(em as int, m.len() as int);
                assert(subm.subrange(0, subp.len() as int) =~= subp) by {
                    assert forall|x: int| 0 <= x < subp.len() implies subm[x] == subp[x] by {
                        assert(m.subrange(0, p.len() as int)[ep + x] == m[ep + x]);
                    }
                }
                crate::bytes::lemma_find_from_correct(subp, crlfcrlf(), 0);
                crate::bytes::lemma_find_from_correct(subm, crlfcrlf(), 0);
                crate::bytes::lemma_find_from_prefix(subp, subm, crlfcrlf(), 0);
                match spec_find_from(subp, crlfcrlf(), 0) {
                    None => {},
                    Some(qp) => {
                        let qm = spec_find_from(subm, crlfcrlf(), 0)->Some_0;
                        assert(qp == qm);
                        let n = spec_cl_value(m.subrange(begin, em as int));
                        let stop = em + qm + 4 + n;
                        assert(content_length_token().len() == 15);
                        assert(spec_frame(m) == (if stop <= m.len() {
                            Some((m.subrange(0, stop as int), m.subrange(
                                stop as int,
                                m.len() as int,
                            )))
                        } else {
                            None::<(Seq<u8>, Seq<u8>)>
                        }));
                        assert(stop <= m.len());
                        assert(m.subrange(0, stop as int) == m);
                        assert(m.subrange(0, stop as int).len() == stop);
                        assert(stop == m.len());
                        assert(ep + qp + 4 + n > p.len());
                    },
                }
            } else {
                assert(p.subrange(ep as int, p.len() as int).len() == 0);
                assert(spec_find_from(p.subrange(ep as int, p.len() as int), crlfcrlf(), 0)
                    is None);
            }
        },
    }
}

/// Repeatedly cutting whole messages off the front of a buffer: the
/// messages in order (discarded keepalives excluded), and what remains.
pub open spec fn spec_drain(buf: Seq<u8>) -> (Seq<Seq<u8>>, Seq<u8>)
    decreases buf.len(),
{
    match spec_frame(buf) {
        None => (Seq::<Seq<u8>>::empty(), buf),
        Some((msg, rest)) => {
            if rest.len() < buf.len() {
                let (msgs, fin) = spec_drain(rest);
                (
                    if msg.len() == 0 {
                        msgs
                    } else {
                        seq![msg] + msgs
                    },
                    fin,
                )
            } else {
                (Seq::<Seq<u8>>::empty(), buf)
            }
        },
    }
}

/// Feeding a stream one byte at a time, draining whole messages after
/// every byte: all messages emitted, and the final buffer.
pub open spec fn spec_feed(input: Seq<u8>) -> (Seq<Seq<u8>>, Seq<u8>)
    decreases input.len(),
{
    if input.len() == 0 {
        (Seq::<Seq<u8>>::empty(), Seq::<u8>::empty())
    } else {
        let fed = spec_feed(input.drop_last());
        let buf2 = fed.1.push(input.last());
        let drained = spec_drain(buf2);
        (fed.0 + drained.0, drained.1)
    }
}

/// Draining a buffer holding exactly one well-formed message emits it.
pub proof fn lemma_drain_single(m: Seq<u8>)
    requires
        wf_sip_frame(m),
    ensures
        spec_drain(m) == (seq![m], Seq::<u8>::empty()),
{
    assert(m != crlfcrlf());
    let cl = spec_find_from(m, content_length_token(), 0)->Some_0;
    crate::bytes::lemma_find_from_correct(m, content_length_token(), 0);
    assert(m.len() > 0);
    assert(spec_frame(Seq::<u8>::empty()) is None) by {
        assert(Seq::<u8>::empty() != crlfcrlf());
        assert(spec_find_from(Seq::<u8>::empty(), content_length_token(), 0) is None);
    }
    assert(spec_drain(Seq::<u8>::empty()) == (Seq::<Seq<u8>>::empty(), Seq::<u8>::empty()));
    assert(seq![m] + Seq::<Seq<u8>>::empty() =~= seq![m]);
}

/// Feeding a proper prefix of a well-formed message emits nothing and
/// keeps the prefix buffered.
pub proof fn lemma_feed_prefix(m: Seq<u8>, k: int)
    requires
        wf_sip_frame(m),
        m[0] != 13,
        0 <= k <= m.len(),
    ensures
        k < m.len() ==> spec_feed(m.subrange(0, k)) == (
            Seq::<Seq<u8>>::empty(),
            m.subrange(0, k),
        ),
        k == m.len() ==> spec_feed(m.subrange(0, k)) == (seq![m], Seq::<u8>::empty()),
    decreases k,
{
    if k == 0 {
        assert(m.subrange(0, 0) =~= Seq::<u8>::empty());
        if k == m.len() {
            let cl = spec_find_from(m, content_length_token(), 0)->Some_0;
            crate::bytes::lemma_find_from_correct(m, content_length_token(), 0);
            assert(false);
        }
    } else {
        lemma_feed_prefix(m, k - 1);
        let pk = m.subrange(0, k);
        assert(pk.drop_last() =~= m.subrange(0, k - 1));
        assert(pk.last() == m[k - 1]);
        assert(m.subrange(0, k - 1).push(m[k - 1]) =~= pk);
        if k < m.len() {
            lemma_frame_incomplete(m, k);
            assert(spec_drain(pk) == (Seq::<Seq<u8>>::empty(), pk));
            assert(Seq::<Seq<u8>>::empty() + Seq::<Seq<u8>>::empty() =~= Seq::<
                Seq<u8>,
            >::empty());
        } else {
            assert(pk =~= m);
            lemma_drain_single(m);
            assert(Seq::<Seq<u8>>::empty() + seq![m] =~= seq![m]);
        }
    }
}

/// Concatenating two well-formed SIP messages and feeding the bytes one
/// at a time yields exactly those two messages, in order, leaving an
/// empty buffer. A SIP start line begins with a method token or the
/// protocol name, never a carriage return, so no prefix is mistaken for
/// a bare keepalive.
pub proof fn lemma_framer_two_messages(m1: Seq<u8>, m2: Seq<u8>)
    requires
        wf_sip_frame(m1),
        wf_sip_frame(m2),
        m1[0] != 13,
        m2[0] != 13,
    ensures
        spec_feed(m1 + m2) == (seq![m1, m2], Seq::<u8>::empty()),
{
    lemma_feed_concat_prefix(m1, m2, m2.len() as int);
    assert((m1 + m2).subrange(0, m1.len() as int + m2.len() as int) =~= m1 + m2);
    assert(m2.subrange(0, m2.len() as int) =~= m2);
}

/// Feeding `m1` then a prefix of `m2` byte by byte: `m1` alone is out
/// while `m2` is incomplete, both once it is whole.
pub proof fn lemma_feed_concat_prefix(m1: Seq<u8>, m2: Seq<u8>, k: int)
    requires
        wf_sip_frame(m1),
        wf_sip_frame(m2),
        m1[0] != 13,
        m2[0] != 13,
        0 <= k <= m2.len(),
    ensures
        k < m2.len() ==> spec_feed(m1 + m2.subrange(0, k)) == (
            seq![m1],
            m2.subrange(0, k),
        ),
        k == m2.len() ==> spec_feed(m1 + m2.subrange(0, k)) == (
            seq![m1, m2],
            Seq::<u8>::empty(),
        ),
    decreases k,
{
    let cl2 = spec_find_from(m2, content_length_token(), 0)->Some_0;
    crate::bytes::lemma_find_from_correct(m2, content_length_token(), 0);
    assert(m2.len() > 0);
    if k == 0 {
        assert(m1 + m2.subrange(0, 0) =~= m1);
        lemma_feed_prefix(m1, m1.len() as int);
        assert(m1.subrange(0, m1.len() as int) =~= m1);
    } else {
        lemma_feed_concat_prefix(m1, m2, k - 1);
        let ink = m1 + m2.subrange(0, k);
        assert(ink.drop_last() =~= m1 + m2.subrange(0, k - 1));
        assert(ink.last() == m2[k - 1]);
        assert(m2.subrange(0, k - 1).push(m2[k - 1]) =~= m2.subrange(0, k));
        if k < m2.len() {
            lemma_frame_incomplete(m2, k);
            assert(spec_drain(m2.subrange(0, k)) == (
                Seq::<Seq<u8>>::empty(),
                m2.subrange(0, k),
            ));
            assert(seq![m1] + Seq::<Seq<u8>>::empty() =~= seq![m1]);
        } else {
            assert(m2.subrange(0, k) =~= m2);
            lemma_drain_single(m2);
            assert(seq![m1] + seq![m2] =~= seq![m1, m2]);
        }
    }
}

/// First CR or LF at or after `from`, or the buffer length.
fn line_end(buffer: &[u8], from: usize) -> (r: usize)
    requires
        from <= buffer@.len(),
    ensures
        r as int == spec_line_end(buffer@, from as int),
        from <= r <= buffer@.len(),
{
    let len = buffer.len();
    let mut e = from;
    while e < len
        invariant
            from <= e <= len,
            len == buffer@.len(),
            spec_line_end(buffer@, from as int) == spec_line_end(buffer@, e as int),
        decreases len - e,
    {
        let b = buffer[e];
        if b == 13 || b == 10 {
            return e;
        }
        e += 1;
    }
    e
}

/// Cuts the first whole SIP message off the front of `buffer`, returning
/// it and the remaining bytes; `None` while no whole message is buffered.
pub fn parse_sip_message(buffer: &[u8]) -> (r: Option<(Vec<u8>, Vec<u8>)>)
    ensures
        match r {
            Some(pair) => spec_frame(buffer@) == Some((pair.0@, pair.1@)),
            None => spec_frame(buffer@) is None,
        },
{
    let len = buffer.len();
    let four = crlfcrlf_vec();
    if len == 4 && crate::bytes::bytes_eq_at(buffer, four.as_slice(), 0) {
        proof {
            assert(buffer@ =~= crlfcrlf());
        }
        return Some((Vec::new(), Vec::new()));
    }
    proof {
        if buffer@.len() == 4 {
            assert(buffer@.subrange(0, 4) =~= buffer@);
        }
        assert(buffer@ != crlfcrlf());
    }
    let token = content_length_vec();
    let cl = match find_from(buffer, token.as_slice(), 0) {
        None => {
            return None;
        },
        Some(cl) => cl,
    };
    proof {
        crate::bytes::lemma_find_from_correct(buffer@, content_length_token(), 0);
    }
    let begin = cl + 15;
    let end = line_end(buffer, begin);
    let (tlo, thi) = trim_range(buffer, begin, end);
    let n: u64 = match dec_parse_u64(buffer, tlo, thi) {
        Some(v) => v,
        None => 0,
    };
    assert(n == spec_cl_value(buffer@.subrange(begin as int, end as int)));
    let tail = vstd::slice::slice_subrange(buffer, end, len);
    let four = crlfcrlf_vec();
    let p = match find_from(tail, four.as_slice(), 0) {
        None => {
            return None;
        },
        Some(p) => p,
    };
    proof {
        crate::bytes::lemma_find_from_correct(tail@, crlfcrlf(), 0);
        assert(p + 4 <= tail@.len());
    }
    let head_len = end + p + 4;
    let stop_u64 = match (head_len as u64).checked_add(n) {
        None => {
            return None;
        },
        Some(s) => s,
    };
    if stop_u64 > len as u64 {
        return None;
    }
    let stop = head_len + (n as usize);
    let msg = vstd::slice::slice_to_vec(vstd::slice::slice_subrange(buffer, 0, stop));
    let rest = vstd::slice::slice_to_vec(vstd::slice::slice_subrange(buffer, stop, len));
    Some((msg, rest))
}

} // verus!
