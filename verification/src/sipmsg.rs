//! The SIP message codec: a typed model of requests and responses, a
//! parser for the canonical subset GB/T 28181 devices speak, and a
//! serializer that writes it back. Header text must be ASCII; bodies
//! are raw bytes.
use crate::bytes::{find_from, matches_at, spec_find_from};
use crate::ext::ascii_string;
use vstd::prelude::*;
use vstd::string::StrSliceExecFns;

verus! {

/// A SIP method of the subset the gateway speaks.
#[derive(Clone, Copy, Debug, PartialEq, Eq, Structural)]
pub enum SipMethod {
    Register,
    Invite,
    Ack,
    Bye,
    Cancel,
    Message,
    Options,
    Info,
    Notify,
    PRack,
    Publish,
    Refer,
    Subscribe,
    Update,
}

/// The request-line token of each method.
pub open spec fn spec_method_token(m: SipMethod) -> Seq<char> {
    match m {
        SipMethod::Register => "REGISTER"@,
        SipMethod::Invite => "INVITE"@,
        SipMethod::Ack => "ACK"@,
        SipMethod::Bye => "BYE"@,
        SipMethod::Cancel => "CANCEL"@,
        SipMethod::Message => "MESSAGE"@,
        SipMethod::Options => "OPTIONS"@,
        SipMethod::Info => "INFO"@,
        SipMethod::Notify => "NOTIFY"@,
        SipMethod::PRack => "PRACK"@,
        SipMethod::Publish => "PUBLISH"@,
        SipMethod::Refer => "REFER"@,
        SipMethod::Subscribe => "SUBSCRIBE"@,
        SipMethod::Update => "UPDATE"@,
    }
}

/// The method a token denotes, if any.
pub open spec fn spec_method_from(s: Seq<char>) -> Option<SipMethod> {
    if s == "REGISTER"@ {
        Some(SipMethod::Register)
    } else if s == "INVITE"@ {
        Some(SipMethod::Invite)
    } else if s == "ACK"@ {
        Some(SipMethod::Ack)
    } else if s == "BYE"@ {
        Some(SipMethod::Bye)
    } else if s == "CANCEL"@ {
        Some(SipMethod::Cancel)
    } else if s == "MESSAGE"@ {
        Some(SipMethod::Message)
    } else if s == "OPTIONS"@ {
        Some(SipMethod::Options)
    } else if s == "INFO"@ {
        Some(SipMethod::Info)
    } else if s == "NOTIFY"@ {
        Some(SipMethod::Notify)
    } else if s == "PRACK"@ {
        Some(SipMethod::PRack)
    } else if s == "PUBLISH"@ {
        Some(SipMethod::Publish)
    } else if s == "REFER"@ {
        Some(SipMethod::Refer)
    } else if s == "SUBSCRIBE"@ {
        Some(SipMethod::Subscribe)
    } else if s == "UPDATE"@ {
        Some(SipMethod::Update)
    } else {
        None
    }
}

impl SipMethod {
    /// The request-line token of this method.
    pub fn token(&self) -> (r: &'static str)
        ensures
            r@ == spec_method_token(*self),
    {
        match self {
            SipMethod::Register => "REGISTER",
            SipMethod::Invite => "INVITE",
            SipMethod::Ack => "ACK",
            SipMethod::Bye => "BYE",
            SipMethod::Cancel => "CANCEL",
            SipMethod::Message => "MESSAGE",
            SipMethod::Options => "OPTIONS",
            SipMethod::Info => "INFO",
            SipMethod::Notify => "NOTIFY",
            SipMethod::PRack => "PRACK",
            SipMethod::Publish => "PUBLISH",
            SipMethod::Refer => "REFER",
            SipMethod::Subscribe => "SUBSCRIBE",
            SipMethod::Update => "UPDATE",
        }
    }

    /// The method a token denotes, if any.
    pub fn from_token(s: &str) -> (r: Option<SipMethod>)
        ensures
            r == spec_method_from(s@),
    {
        if crate::strutil::str_eq(s, "REGISTER") {
            Some(SipMethod::Register)
        } else if crate::strutil::str_eq(s, "INVITE") {
            Some(SipMethod::Invite)
        } else if crate::strutil::str_eq(s, "ACK") {
            Some(SipMethod::Ack)
        } else if crate::strutil::str_eq(s, "BYE") {
            Some(SipMethod::Bye)
        } else if crate::strutil::str_eq(s, "CANCEL") {
            Some(SipMethod::Cancel)
        } else if crate::strutil::str_eq(s, "MESSAGE") {
            Some(SipMethod::Message)
        } else if crate::strutil::str_eq(s, "OPTIONS") {
            Some(SipMethod::Options)
        } else if crate::strutil::str_eq(s, "INFO") {
            Some(SipMethod::Info)
        } else if crate::strutil::str_eq(s, "NOTIFY") {
            Some(SipMethod::Notify)
        } else if crate::strutil::str_eq(s, "PRACK") {
            Some(SipMethod::PRack)
        } else if crate::strutil::str_eq(s, "PUBLISH") {
            Some(SipMethod::Publish)
        } else if crate::strutil::str_eq(s, "REFER") {
            Some(SipMethod::Refer)
        } else if crate::strutil::str_eq(s, "SUBSCRIBE") {
            Some(SipMethod::Subscribe)
        } else if crate::strutil::str_eq(s, "UPDATE") {
            Some(SipMethod::Update)
        } else {
            None
        }
    }
}

/// One SIP header: a name and its raw value text.
#[derive(Debug)]
pub struct SipHeader {
    pub name: String,
    pub value: String,
}

/// A parsed SIP request.
#[derive(Debug)]
pub struct SipRequest {
    pub method: SipMethod,
    pub uri: String,
    pub headers: Vec<SipHeader>,
    pub body: Vec<u8>,
}

/// A parsed SIP response.
#[derive(Debug)]
pub struct SipResponse {
    pub status: u16,
    pub reason: String,
    pub headers: Vec<SipHeader>,
    pub body: Vec<u8>,
}

/// A whole SIP message, either direction.
#[derive(Debug)]
pub enum SipPacket {
    Request(SipRequest),
    Response(SipResponse),
}

/// The views of a header list.
pub open spec fn header_views(hs: Seq<SipHeader>) -> Seq<(Seq<char>, Seq<char>)> {
    hs.map_values(|h: SipHeader| (h.name@, h.value@))
}

/// The value of the first header named `k`.
pub open spec fn spec_header_value(
    hs: Seq<(Seq<char>, Seq<char>)>,
    k: Seq<char>,
) -> Option<Seq<char>>
    decreases hs.len(),
{
    if hs.len() == 0 {
        None
    } else if hs[0].0 == k {
        Some(hs[0].1)
    } else {
        spec_header_value(hs.drop_first(), k)
    }
}

/// The value of the first header named `name`, copied out.
pub fn header_value(headers: &Vec<SipHeader>, name: &str) -> (r: Option<String>)
    ensures
        match r {
            Some(v) => spec_header_value(header_views(headers@), name@) == Some(v@),
            None => spec_header_value(header_views(headers@), name@) is None,
        },
{
    let n = headers.len();
    let mut i: usize = 0;
    proof {
        assert(header_views(headers@).skip(0) =~= header_views(headers@));
    }
    while i < n
        invariant
            i <= n,
            n == headers@.len(),
            forall|j: int| 0 <= j < i ==> (#[trigger] headers@[j]).name@ != name@,
            spec_header_value(header_views(headers@), name@) == spec_header_value(
                header_views(headers@).skip(i as int),
                name@,
            ),
        decreases n - i,
    {
        proof {
            assert(header_views(headers@).skip(i as int)[0] == (
                headers@[i as int].name@,
                headers@[i as int].value@,
            ));
        }
        if crate::strutil::str_eq(headers[i].name.as_str(), name) {
            return Some(headers[i].value.clone());
        }
        proof {
            assert(header_views(headers@).skip(i as int).drop_first() =~= header_views(
                headers@,
            ).skip(i + 1));
        }
        i += 1;
    }
    proof {
        assert(header_views(headers@).skip(n as int) =~= Seq::<(Seq<char>, Seq<char>)>::empty());
    }
    None
}

/// Every byte is ASCII.
pub open spec fn ascii_seq(s: Seq<u8>) -> bool {
    forall|i: int| 0 <= i < s.len() ==> #[trigger] s[i] < 128
}

/// Every character is ASCII.
pub open spec fn ascii_chars(s: Seq<char>) -> bool {
    forall|i: int| 0 <= i < s.len() ==> ((#[trigger] s[i]) as u32) < 128
}

/// Every header name and value is ASCII text.
pub open spec fn headers_ascii(hs: Seq<(Seq<char>, Seq<char>)>) -> bool {
    forall|i: int|
        0 <= i < hs.len() ==> ascii_chars((#[trigger] hs[i]).0) && ascii_chars(hs[i].1)
}

/// The value a lookup finds in ASCII headers is ASCII text.
pub proof fn lemma_header_value_ascii(hs: Seq<(Seq<char>, Seq<char>)>, k: Seq<char>)
    requires
        headers_ascii(hs),
        spec_header_value(hs, k) is Some,
    ensures
        ascii_chars(spec_header_value(hs, k)->Some_0),
    decreases hs.len(),
{
    if hs.len() > 0 && hs[0].0 != k {
        assert(forall|i: int|
            0 <= i < hs.drop_first().len() ==> #[trigger] hs.drop_first()[i] == hs[i + 1]);
        lemma_header_value_ascii(hs.drop_first(), k);
    }
}

/// ASCII bytes come out as ASCII characters.
pub proof fn lemma_chars_of_ascii(s: Seq<u8>)
    requires
        ascii_seq(s),
    ensures
        ascii_chars(chars_of(s)),
{
    assert forall|i: int|
        0 <= i < chars_of(s).len() implies ((#[trigger] chars_of(s)[i]) as u32) < 128 by {
        assert(chars_of(s)[i] == s[i] as char);
    }
}

/// Every header the section parser yields is ASCII text.
pub proof fn lemma_parse_headers_ascii(s: Seq<u8>, pos: int)
    requires
        spec_parse_headers(s, pos) is Some,
    ensures
        headers_ascii(spec_parse_headers(s, pos)->Some_0.0),
    decreases s.len() - pos,
{
    let hs = spec_parse_headers(s, pos)->Some_0.0;
    if matches_at(s, crlf2(), pos) {
        assert(hs.len() == 0);
    } else {
        let e = spec_find_from(s, crlf2(), pos)->Some_0;
        let c = spec_find_from(s, seq![58u8], pos)->Some_0;
        let name = s.subrange(pos, c);
        let vstart = spec_skip_sp(s, c + 1, e);
        let value = s.subrange(vstart, e);
        lemma_chars_of_ascii(name);
        lemma_chars_of_ascii(value);
        lemma_parse_headers_ascii(s, e + 2);
        let rest = spec_parse_headers(s, e + 2)->Some_0.0;
        assert forall|i: int|
            0 <= i < hs.len() implies ascii_chars((#[trigger] hs[i]).0) && ascii_chars(
            hs[i].1,
        ) by {
            if i == 0 {
                assert(hs[0] == (chars_of(name), chars_of(value)));
            } else {
                assert(hs[i] == rest[i - 1]);
            }
        }
    }
}

/// ASCII bytes as characters.
pub open spec fn chars_of(s: Seq<u8>) -> Seq<char> {
    s.map_values(|b: u8| b as char)
}

/// The CRLF pair.
pub open spec fn crlf2() -> Seq<u8> {
    seq![13u8, 10u8]
}

/// First position in `[pos, end)` holding neither space nor tab.
pub open spec fn spec_skip_sp(s: Seq<u8>, pos: int, end: int) -> int
    decreases end - pos,
{
    if pos < end && 0 <= pos < s.len() && (s[pos] == 32 || s[pos] == 9) {
        spec_skip_sp(s, pos + 1, end)
    } else {
        pos
    }
}

/// First position at or after `pos` that is not ASCII whitespace.
pub open spec fn spec_skip_lws(s: Seq<u8>, pos: int) -> int
    decreases s.len() - pos,
{
    if 0 <= pos < s.len() && (s[pos] == 32 || s[pos] == 9 || s[pos] == 13 || s[pos] == 10) {
        spec_skip_lws(s, pos + 1)
    } else {
        pos
    }
}

/// First position in `[pos, end)` holding neither space nor tab.
fn skip_sp(s: &[u8], pos: usize, end: usize) -> (r: usize)
    requires
        pos <= end,
        end <= s@.len(),
    ensures
        r as int == spec_skip_sp(s@, pos as int, end as int),
        pos <= r <= end,
{
    let mut p = pos;
    while p < end && (s[p] == 32 || s[p] == 9)
        invariant
            pos <= p <= end,
            end <= s@.len(),
            spec_skip_sp(s@, pos as int, end as int) == spec_skip_sp(s@, p as int, end as int),
        decreases end - p,
    {
        p += 1;
    }
    p
}

/// First position at or after `pos` that is not ASCII whitespace.
fn skip_lws(s: &[u8], pos: usize) -> (r: usize)
    requires
        pos <= s@.len(),
    ensures
        r as int == spec_skip_lws(s@, pos as int),
        pos <= r <= s@.len(),
{
    let len = s.len();
    let mut p = pos;
    while p < len && (s[p] == 32 || s[p] == 9 || s[p] == 13 || s[p] == 10)
        invariant
            pos <= p <= len,
            len == s@.len(),
            spec_skip_lws(s@, pos as int) == spec_skip_lws(s@, p as int),
        decreases len - p,
    {
        p += 1;
    }
    p
}

/// Converts the ASCII bytes `s[a..b]` into a string; `None` when a byte
/// is not ASCII.
fn ascii_range(s: &[u8], a: usize, b: usize) -> (r: Option<String>)
    requires
        a <= b,
        b <= s@.len(),
    ensures
        match r {
            Some(v) => ascii_seq(s@.subrange(a as int, b as int)) && v@ == chars_of(
                s@.subrange(a as int, b as int),
            ),
            None => !ascii_seq(s@.subrange(a as int, b as int)),
        },
{
    let mut i = a;
    while i < b
        invariant
            a <= i <= b,
            b <= s@.len(),
            forall|j: int| a <= j < i ==> #[trigger] s@[j] < 128,
        decreases b - i,
    {
        if s[i] >= 128 {
            assert(s@.subrange(a as int, b as int)[i - a] == s@[i as int]);
            return None;
        }
        i += 1;
    }
    let sub = vstd::slice::slice_subrange(s, a, b);
    proof {
        assert forall|j: int| 0 <= j < sub@.len() implies #[trigger] sub@[j] < 128 by {
            assert(sub@[j] == s@[a + j]);
        }
    }
    let out = ascii_string(sub);
    Some(out)
}

/// What parsing the header section from `pos` yields: the header views
/// and the position after the blank line.
pub open spec fn spec_parse_headers(s: Seq<u8>, pos: int) -> Option<(Seq<(Seq<char>, Seq<char>)>, int)>
    decreases s.len() - pos,
{
    if matches_at(s, crlf2(), pos) {
        Some((Seq::<(Seq<char>, Seq<char>)>::empty(), pos + 2))
    } else {
        match spec_find_from(s, crlf2(), pos) {
            None => None,
            Some(e) => {
                if !(pos <= e && e + 2 <= s.len()) {
                    None
                } else {
                match spec_find_from(s, seq![58u8], pos) {
                    None => None,
                    Some(c) => {
                        if c < e && pos >= 0 {
                            let name = s.subrange(pos, c);
                            let vstart = spec_skip_sp(s, c + 1, e);
                            let value = s.subrange(vstart, e);
                            if ascii_seq(name) && ascii_seq(value) && name.len() > 0 {
                                match spec_parse_headers(s, e + 2) {
                                    None => None,
                                    Some((rest, hend)) => Some(
                                        (
                                            seq![(chars_of(name), chars_of(value))] + rest,
                                            hend,
                                        ),
                                    ),
                                }
                            } else {
                                None
                            }
                        } else {
                            None
                        }
                    },
                }
                }
            },
        }
    }
}

/// Reads the header section standing at `pos`.
fn parse_headers(s: &[u8], pos: usize) -> (r: Option<(Vec<SipHeader>, usize)>)
    requires
        pos <= s@.len(),
    ensures
        match r {
            Some(p) => spec_parse_headers(s@, pos as int) == Some(
                (header_views(p.0@), p.1 as int),
            ) && p.1 <= s@.len(),
            None => spec_parse_headers(s@, pos as int) is None,
        },
{
    let len = s.len();
    let crlf: Vec<u8> = vec![13u8, 10u8];
    let colon: Vec<u8> = vec![58u8];
    proof {
        assert(crlf@ =~= crlf2());
        assert(colon@ =~= seq![58u8]);
    }
    let mut headers: Vec<SipHeader> = Vec::new();
    let mut cur = pos;
    loop
        invariant
            pos <= cur <= len,
            len == s@.len(),
            crlf@ == crlf2(),
            colon@ == seq![58u8],
            match spec_parse_headers(s@, cur as int) {
                Some(t) => spec_parse_headers(s@, pos as int) == Some(
                    (header_views(headers@) + t.0, t.1),
                ),
                None => spec_parse_headers(s@, pos as int) is None,
            },
        decreases len - cur,
    {
        if len - cur >= 2 && crate::bytes::bytes_eq_at(s, crlf.as_slice(), cur) {
            proof {
                assert(spec_parse_headers(s@, cur as int) == Some(
                    (Seq::<(Seq<char>, Seq<char>)>::empty(), cur + 2),
                ));
                assert(header_views(headers@) + Seq::<(Seq<char>, Seq<char>)>::empty()
                    =~= header_views(headers@));
            }
            return Some((headers, cur + 2));
        }
        let e = match find_from(s, crlf.as_slice(), cur) {
            None => {
                return None;
            },
            Some(e) => e,
        };
        proof {
            crate::bytes::lemma_find_from_correct(s@, crlf2(), cur as int);
        }
        let c = match find_from(s, colon.as_slice(), cur) {
            None => {
                return None;
            },
            Some(c) => c,
        };
        proof {
            crate::bytes::lemma_find_from_correct(s@, seq![58u8], cur as int);
        }
        if !(c < e) {
            return None;
        }
        let name = match ascii_range(s, cur, c) {
            None => {
                return None;
            },
            Some(v) => v,
        };
        if name.as_str().unicode_len() == 0 {
            return None;
        }
        let vstart = skip_sp(s, c + 1, e);
        let value = match ascii_range(s, vstart, e) {
            None => {
                return None;
            },
            Some(v) => v,
        };
        let ghost before = headers@;
        headers.push(SipHeader { name, value });
        proof {
            assert(header_views(headers@) =~= header_views(before).push(
                (headers@.last().name@, headers@.last().value@),
            ));
            if spec_parse_headers(s@, e + 2) is Some {
                let t = spec_parse_headers(s@, e + 2)->Some_0;
                assert(header_views(before) + (seq![
                    (headers@.last().name@, headers@.last().value@),
                ] + t.0) =~= header_views(headers@) + t.0);
            }
        }
        cur = e + 2;
    }
}

/// What parsing a request yields: method, URI, headers and body.
pub open spec fn spec_parse_request(data: Seq<u8>) -> Option<(SipMethod, Seq<char>, Seq<(Seq<char>, Seq<char>)>, Seq<u8>)> {
    let p = spec_skip_lws(data, 0);
    match spec_find_from(data, crlf2(), p) {
        None => None,
        Some(e) => match spec_find_from(data, seq![32u8], p) {
            None => None,
            Some(sp1) => {
                if sp1 < e {
                    match spec_find_from(data, seq![32u8], sp1 + 1) {
                        None => None,
                        Some(sp2) => {
                            if sp2 < e && ascii_seq(data.subrange(p, sp1)) && ascii_seq(
                                data.subrange(sp1 + 1, sp2),
                            ) && data.subrange(sp2 + 1, e) == encode_sip20() {
                                match spec_method_from(chars_of(data.subrange(p, sp1))) {
                                    None => None,
                                    Some(m) => match spec_parse_headers(data, e + 2) {
                                        None => None,
                                        Some((hs, hend)) => Some(
                                            (
                                                m,
                                                chars_of(data.subrange(sp1 + 1, sp2)),
                                                hs,
                                                data.subrange(hend, data.len() as int),
                                            ),
                                        ),
                                    },
                                }
                            } else {
                                None
                            }
                        },
                    }
                } else {
                    None
                }
            },
        },
    }
}

/// The bytes of `SIP/2.0`.
pub open spec fn encode_sip20() -> Seq<u8> {
    seq![83u8, 73u8, 80u8, 47u8, 50u8, 46u8, 48u8]
}

/// The bytes of `SIP`.
pub open spec fn sip_mark() -> Seq<u8> {
    seq![83u8, 73u8, 80u8]
}

/// What parsing a response yields: status, reason, headers and body.
pub open spec fn spec_parse_response(data: Seq<u8>) -> Option<(u16, Seq<char>, Seq<(Seq<char>, Seq<char>)>, Seq<u8>)> {
    let p = spec_skip_lws(data, 0);
    match spec_find_from(data, crlf2(), p) {
        None => None,
        Some(e) => {
            if p + 8 <= data.len() && data.subrange(p, p + 8) == encode_sip20().push(32u8) {
                match spec_find_from(data, seq![32u8], p + 8) {
                    None => None,
                    Some(sp2) => {
                        if sp2 < e {
                            let st = data.subrange(p + 8, sp2);
                            if st.len() > 0 && crate::bytes::all_digits(st)
                                && crate::bytes::dec_val(st) <= u16::MAX && ascii_seq(
                                data.subrange(sp2 + 1, e),
                            ) {
                                match spec_parse_headers(data, e + 2) {
                                    None => None,
                                    Some((hs, hend)) => Some(
                                        (
                                            crate::bytes::dec_val(st) as u16,
                                            chars_of(data.subrange(sp2 + 1, e)),
                                            hs,
                                            data.subrange(hend, data.len() as int),
                                        ),
                                    ),
                                }
                            } else {
                                None
                            }
                        } else {
                            None
                        }
                    },
                }
            } else {
                None
            }
        },
    }
}

/// After leading whitespace the message begins with `SIP`, so it is a
/// response.
pub open spec fn spec_is_response(data: Seq<u8>) -> bool {
    matches_at(data, sip_mark(), spec_skip_lws(data, 0))
}

/// The message is only whitespace — a keepalive to discard.
pub open spec fn spec_is_blank(data: Seq<u8>) -> bool {
    spec_skip_lws(data, 0) == data.len()
}

/// Reads one whole SIP message: a request or a response of the canonical
/// subset; `None` for blank keepalives and anything malformed.
pub fn parse_sip_packet(data: &[u8]) -> (r: Option<SipPacket>)
    ensures
        match r {
            Some(SipPacket::Request(q)) => !spec_is_response(data@) && spec_parse_request(data@)
                == Some((q.method, q.uri@, header_views(q.headers@), q.body@)) && headers_ascii(
                header_views(q.headers@),
            ),
            Some(SipPacket::Response(p)) => spec_is_response(data@) && spec_parse_response(
                data@,
            ) == Some((p.status, p.reason@, header_views(p.headers@), p.body@)) && headers_ascii(
                header_views(p.headers@),
            ),
            None => (spec_is_response(data@) ==> spec_parse_response(data@) is None) && (
            !spec_is_response(data@) ==> spec_parse_request(data@) is None),
        },
{
    let len = data.len();
    let p = skip_lws(data, 0);
    let crlf: Vec<u8> = vec![13u8, 10u8];
    let space: Vec<u8> = vec![32u8];
    let sipb: Vec<u8> = vec![83u8, 73u8, 80u8];
    let sip20sp: Vec<u8> = vec![83u8, 73u8, 80u8, 47u8, 50u8, 46u8, 48u8, 32u8];
    proof {
        assert(crlf@ =~= crlf2());
        assert(space@ =~= seq![32u8]);
        assert(sipb@ =~= sip_mark());
        assert(sip20sp@ =~= encode_sip20().push(32u8));
    }
    let is_resp = len - p >= 3 && crate::bytes::bytes_eq_at(data, sipb.as_slice(), p);
    let e = match find_from(data, crlf.as_slice(), p) {
        None => {
            return None;
        },
        Some(e) => e,
    };
    proof {
        crate::bytes::lemma_find_from_correct(data@, crlf2(), p as int);
    }
    if is_resp {
        if !(len - p >= 8 && crate::bytes::bytes_eq_at(data, sip20sp.as_slice(), p)) {
            return None;
        }
        let sp2 = match find_from(data, space.as_slice(), p + 8) {
            None => {
                return None;
            },
            Some(x) => x,
        };
        proof {
            crate::bytes::lemma_find_from_correct(data@, seq![32u8], p + 8);
        }
        if !(sp2 < e) {
            return None;
        }
        let status64 = match crate::bytes::dec_parse_u64(data, p + 8, sp2) {
            None => {
                return None;
            },
            Some(v) => v,
        };
        if status64 > 0xffff {
            return None;
        }
        let reason = match ascii_range(data, sp2 + 1, e) {
            None => {
                return None;
            },
            Some(v) => v,
        };
        let (headers, hend) = match parse_headers(data, e + 2) {
            None => {
                return None;
            },
            Some(x) => x,
        };
        let body = vstd::slice::slice_to_vec(vstd::slice::slice_subrange(data, hend, len));
        proof {
            lemma_parse_headers_ascii(data@, e + 2);
        }
        Some(
            SipPacket::Response(
                SipResponse { status: status64 as u16, reason, headers, body },
            ),
        )
    } else {
        let sp1 = match find_from(data, space.as_slice(), p) {
            None => {
                return None;
            },
            Some(x) => x,
        };
        proof {
            crate::bytes::lemma_find_from_correct(data@, seq![32u8], p as int);
        }
        if !(sp1 < e) {
            return None;
        }
        let sp2 = match find_from(data, space.as_slice(), sp1 + 1) {
            None => {
                return None;
            },
            Some(x) => x,
        };
        proof {
            crate::bytes::lemma_find_from_correct(data@, seq![32u8], sp1 + 1);
        }
        if !(sp2 < e) {
            return None;
        }
        let tokenstr = match ascii_range(data, p, sp1) {
            None => {
                return None;
            },
            Some(v) => v,
        };
        let uri = match ascii_range(data, sp1 + 1, sp2) {
            None => {
                return None;
            },
            Some(v) => v,
        };
        let sip20: Vec<u8> = vec![83u8, 73u8, 80u8, 47u8, 50u8, 46u8, 48u8];
        proof {
            assert(sip20@ =~= encode_sip20());
        }
        if !(e - (sp2 + 1) == 7 && crate::bytes::bytes_eq_at(data, sip20.as_slice(), sp2 + 1)) {
            proof {
                if e - (sp2 + 1) != 7 {
                    assert(data@.subrange(sp2 + 1, e as int).len() != 7);
                }
            }
            return None;
        }
        proof {
            assert(data@.subrange(sp2 + 1, e as int) =~= data@.subrange(sp2 + 1, sp2 + 8));
        }
        let m = match SipMethod::from_token(tokenstr.as_str()) {
            None => {
                return None;
            },
            Some(m) => m,
        };
        let (headers, hend) = match parse_headers(data, e + 2) {
            None => {
                return None;
            },
            Some(x) => x,
        };
        let body = vstd::slice::slice_to_vec(vstd::slice::slice_subrange(data, hend, len));
        proof {
            lemma_parse_headers_ascii(data@, e + 2);
        }
        Some(SipPacket::Request(SipRequest { method: m, uri, headers, body }))
    }
}

/// The serialized header section: `Name: value` lines.
pub open spec fn spec_ser_headers(hs: Seq<(Seq<char>, Seq<char>)>) -> Seq<u8>
    decreases hs.len(),
{
    if hs.len() == 0 {
        Seq::<u8>::empty()
    } else {
        vstd::utf8::encode_utf8(hs[0].0) + vstd::utf8::encode_utf8(": "@)
            + vstd::utf8::encode_utf8(hs[0].1) + vstd::utf8::encode_utf8("\r\n"@)
            + spec_ser_headers(hs.drop_first())
    }
}

/// Writing one more header extends the section by that header's line.
pub proof fn lemma_ser_headers_push(hs: Seq<(Seq<char>, Seq<char>)>, h: (Seq<char>, Seq<char>))
    ensures
        spec_ser_headers(hs.push(h)) == spec_ser_headers(hs) + vstd::utf8::encode_utf8(h.0)
            + vstd::utf8::encode_utf8(": "@) + vstd::utf8::encode_utf8(h.1)
            + vstd::utf8::encode_utf8("\r\n"@),
    decreases hs.len(),
{
    if hs.len() == 0 {
        assert(hs.push(h)[0] == h);
        assert(hs.push(h).drop_first() =~= Seq::<(Seq<char>, Seq<char>)>::empty());
        assert(spec_ser_headers(Seq::<(Seq<char>, Seq<char>)>::empty()) == Seq::<u8>::empty());
        assert(spec_ser_headers(hs.push(h)) =~= spec_ser_headers(hs) + vstd::utf8::encode_utf8(
            h.0,
        ) + vstd::utf8::encode_utf8(": "@) + vstd::utf8::encode_utf8(h.1)
            + vstd::utf8::encode_utf8("\r\n"@));
    } else {
        assert(hs.push(h)[0] == hs[0]);
        assert(hs.push(h).drop_first() =~= hs.drop_first().push(h));
        lemma_ser_headers_push(hs.drop_first(), h);
        assert(spec_ser_headers(hs.push(h)) =~= spec_ser_headers(hs) + vstd::utf8::encode_utf8(
            h.0,
        ) + vstd::utf8::encode_utf8(": "@) + vstd::utf8::encode_utf8(h.1)
            + vstd::utf8::encode_utf8("\r\n"@));
    }
}

/// The serialized request: request line, headers, blank line, body.
pub open spec fn spec_ser_request(q: SipRequest) -> Seq<u8> {
    vstd::utf8::encode_utf8(spec_method_token(q.method)) + vstd::utf8::encode_utf8(" "@)
        + vstd::utf8::encode_utf8(q.uri@) + vstd::utf8::encode_utf8(" SIP/2.0\r\n"@)
        + spec_ser_headers(header_views(q.headers@)) + vstd::utf8::encode_utf8("\r\n"@) + q.body@
}

/// The serialized response: status line, headers, blank line, body.
pub open spec fn spec_ser_response(p: SipResponse) -> Seq<u8> {
    vstd::utf8::encode_utf8("SIP/2.0 "@) + vstd::utf8::encode_utf8(
        crate::strutil::dec_chars(p.status as nat),
    ) + vstd::utf8::encode_utf8(" "@) + vstd::utf8::encode_utf8(p.reason@)
        + vstd::utf8::encode_utf8("\r\n"@) + spec_ser_headers(header_views(p.headers@))
        + vstd::utf8::encode_utf8("\r\n"@) + p.body@
}

/// Appends the header section to `out`.
fn write_headers(out: &mut Vec<u8>, headers: &Vec<SipHeader>)
    ensures
        final(out)@ == old(out)@ + spec_ser_headers(header_views(headers@)),
{
    let n = headers.len();
    let ghost base = out@;
    let mut i: usize = 0;
    proof {
        assert(header_views(headers@).subrange(0, 0) =~= Seq::<(Seq<char>, Seq<char>)>::empty());
        assert(base + spec_ser_headers(header_views(headers@).subrange(0, 0)) =~= base);
    }
    while i < n
        invariant
            i <= n,
            n == headers@.len(),
            out@ == base + spec_ser_headers(header_views(headers@).subrange(0, i as int)),
        decreases n - i,
    {
        out.extend_from_slice(headers[i].name.as_str().as_bytes());
        out.extend_from_slice(": ".as_bytes());
        out.extend_from_slice(headers[i].value.as_str().as_bytes());
        out.extend_from_slice("\r\n".as_bytes());
        proof {
            let hv = header_views(headers@);
            assert(hv.subrange(0, i + 1) =~= hv.subrange(0, i as int).push(hv[i as int]));
            lemma_ser_headers_push(hv.subrange(0, i as int), hv[i as int]);
            assert(out@ =~= base + spec_ser_headers(hv.subrange(0, i + 1)));
        }
        i += 1;
    }
    proof {
        assert(header_views(headers@).subrange(0, n as int) =~= header_views(headers@));
    }
}

impl SipRequest {
    /// The wire bytes of this request.
    pub fn serialize(&self) -> (r: Vec<u8>)
        ensures
            r@ == spec_ser_request(*self),
    {
        let mut out: Vec<u8> = Vec::new();
        out.extend_from_slice(self.method.token().as_bytes());
        out.extend_from_slice(" ".as_bytes());
        out.extend_from_slice(self.uri.as_str().as_bytes());
        out.extend_from_slice(" SIP/2.0\r\n".as_bytes());
        write_headers(&mut out, &self.headers);
        out.extend_from_slice("\r\n".as_bytes());
        out.extend_from_slice(self.body.as_slice());
        proof {
            assert(out@ =~= spec_ser_request(*self));
        }
        out
    }
}

impl SipResponse {
    /// The wire bytes of this response.
    pub fn serialize(&self) -> (r: Vec<u8>)
        ensures
            r@ == spec_ser_response(*self),
    {
        let mut out: Vec<u8> = Vec::new();
        out.extend_from_slice("SIP/2.0 ".as_bytes());
        let status = crate::strutil::u64_to_string(self.status as u64);
        out.extend_from_slice(status.as_str().as_bytes());
        out.extend_from_slice(" ".as_bytes());
        out.extend_from_slice(self.reason.as_str().as_bytes());
        out.extend_from_slice("\r\n".as_bytes());
        write_headers(&mut out, &self.headers);
        out.extend_from_slice("\r\n".as_bytes());
        out.extend_from_slice(self.body.as_slice());
        proof {
            assert(out@ =~= spec_ser_response(*self));
        }
        out
    }
}

} // verus!
