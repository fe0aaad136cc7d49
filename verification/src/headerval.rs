//! Readers for the header values the handlers consult: CSeq, Via
//! branch and transport, From/To tags and users, Expires, and the
//! Digest-authorization parameters, in the canonical shapes GB/T 28181
//! devices send.
use crate::sipmsg::{spec_method_from, SipMethod};
use crate::strutil::{
    all_digit_chars, dec_val_chars, find_str_from, lemma_find_chars_from_correct,
    lemma_scan_to_correct, parse_dec_str, scan_to, spec_find_chars_from, spec_scan_to,
    substring_copy,
};
use vstd::prelude::*;
use vstd::string::StrSliceExecFns;

verus! {

/// What a CSeq value denotes: the sequence number and the method.
pub open spec fn spec_cseq(v: Seq<char>) -> Option<(u32, SipMethod)> {
    let sp = spec_scan_to(v, 0, ' ');
    if 0 < sp < v.len() {
        let num = v.subrange(0, sp);
        if num.len() > 0 && all_digit_chars(num) && dec_val_chars(num) <= u32::MAX {
            match spec_method_from(v.subrange(sp + 1, v.len() as int)) {
                None => None,
                Some(m) => Some((dec_val_chars(num) as u32, m)),
            }
        } else {
            None
        }
    } else {
        None
    }
}

/// Reads a CSeq value: the number, a space, the method token.
pub fn parse_cseq(v: &str) -> (r: Option<(u32, SipMethod)>)
    ensures
        r == spec_cseq(v@),
{
    let len = v.unicode_len();
    let sp = scan_to(v, 0, ' ');
    proof {
        lemma_scan_to_correct(v@, 0, ' ');
    }
    if !(0 < sp && sp < len) {
        return None;
    }
    let num = match parse_dec_str(v, 0, sp) {
        None => {
            return None;
        },
        Some(x) => x,
    };
    if num > 0xffff_ffff {
        return None;
    }
    let token = v.substring_char(sp + 1, len);
    match SipMethod::from_token(token) {
        None => None,
        Some(m) => Some((num as u32, m)),
    }
}

/// The value of the parameter `key` in `v`: the text after the first
/// occurrence of `key`, up to the next `;` — or up to the next `"` when
/// `quoted`; empty when `key` does not occur.
pub open spec fn spec_param_after(v: Seq<char>, key: Seq<char>, stop: char) -> Seq<char> {
    match spec_find_chars_from(v, key, 0) {
        None => Seq::<char>::empty(),
        Some(p) => {
            let vs = p + key.len();
            let ve = spec_scan_to(v, vs, stop);
            v.subrange(vs, ve)
        },
    }
}

/// Reads the text after the first `key` up to `stop` or the end.
pub fn param_after(v: &str, key: &str, stop: char) -> (r: Option<String>)
    ensures
        match r {
            Some(x) => spec_find_chars_from(v@, key@, 0) is Some && x@ == spec_param_after(
                v@,
                key@,
                stop,
            ),
            None => spec_find_chars_from(v@, key@, 0) is None,
        },
{
    let total = v.unicode_len();
    let p = match find_str_from(v, key, 0) {
        None => {
            return None;
        },
        Some(p) => p,
    };
    proof {
        lemma_find_chars_from_correct(v@, key@, 0);
    }
    let vs = p + key.unicode_len();
    let ve = scan_to(v, vs, stop);
    Some(substring_copy(v, vs, ve))
}

/// The branch parameter of a Via value; empty when absent.
pub open spec fn spec_via_branch(v: Seq<char>) -> Seq<char> {
    spec_param_after(v, ";branch="@, ';')
}

/// Reads the branch parameter of a Via value; empty when absent.
pub fn via_branch(v: &str) -> (r: String)
    ensures
        r@ == spec_via_branch(v@),
{
    match param_after(v, ";branch=", ';') {
        Some(x) => x,
        None => String::new(),
    }
}

/// The Via value names TCP as its transport.
pub open spec fn spec_via_is_tcp(v: Seq<char>) -> bool {
    v.len() >= 11 && v.subrange(0, 11) == "SIP/2.0/TCP"@
}

/// Whether the Via value names TCP; anything else is treated as UDP.
pub fn via_is_tcp(v: &str) -> (r: bool)
    ensures
        r == spec_via_is_tcp(v@),
{
    proof {
        reveal_strlit("SIP/2.0/TCP");
    }
    crate::strutil::lit_at(v, 0, "SIP/2.0/TCP")
}

/// The tag parameter of a From or To value; empty when absent.
pub open spec fn spec_tag_of(v: Seq<char>) -> Seq<char> {
    spec_param_after(v, ";tag="@, ';')
}

/// Reads the tag parameter of a From or To value; empty when absent.
pub fn tag_of(v: &str) -> (r: String)
    ensures
        r@ == spec_tag_of(v@),
{
    match param_after(v, ";tag=", ';') {
        Some(x) => x,
        None => String::new(),
    }
}

/// The user part of the first SIP URI in `v`: the text between `sip:`
/// and the next `@`; empty when there is no URI.
pub open spec fn spec_uri_user(v: Seq<char>) -> Seq<char> {
    spec_param_after(v, "sip:"@, '@')
}

/// Reads the user part of the first SIP URI in `v`; empty when absent.
pub fn uri_user(v: &str) -> (r: String)
    ensures
        r@ == spec_uri_user(v@),
{
    match param_after(v, "sip:", '@') {
        Some(x) => x,
        None => String::new(),
    }
}

/// What an Expires value denotes, when it is a number.
pub open spec fn spec_expires(v: Seq<char>) -> Option<u32> {
    crate::manscdp::spec_num_u32(v)
}

/// Reads an Expires value.
pub fn parse_expires(v: &str) -> (r: Option<u32>)
    ensures
        r == spec_expires(v@),
{
    crate::manscdp::parse_num_u32(v)
}

/// The Digest-authorization fields a REGISTER carries.
#[derive(Debug)]
pub struct AuthFields {
    pub username: String,
    pub realm: String,
    pub nonce: String,
    pub uri: String,
    pub response: String,
    pub qop: Option<String>,
    pub cnonce: Option<String>,
    pub nc: Option<u8>,
}

/// The quoted parameter `key="…"` in `v`, when `key="` occurs.
pub open spec fn spec_quoted(v: Seq<char>, key: Seq<char>) -> Option<Seq<char>> {
    match spec_find_chars_from(v, key, 0) {
        None => None,
        Some(p) => Some(v.subrange(
            p + key.len(),
            spec_scan_to(v, p + key.len(), '"'),
        )),
    }
}

/// Reads the quoted parameter introduced by `key` (ending `="`).
pub fn quoted_param(v: &str, key: &str) -> (r: Option<String>)
    ensures
        match r {
            Some(x) => spec_quoted(v@, key@) == Some(x@),
            None => spec_quoted(v@, key@) is None,
        },
{
    match param_after(v, key, '"') {
        Some(x) => Some(x),
        None => None,
    }
}

} // verus!
