//! The SIP method handlers and the operator command path: everything the
//! dispatcher routes to, working over the registry and producing the
//! messages to put on the wire.
use crate::config::Config;
use crate::ext::{digest_matches, digest_verify, gb18030_decode, gb2312_encode, rand_below};
use crate::headerval::{
    parse_cseq, parse_expires, quoted_param, spec_cseq, spec_expires, spec_param_after,
    spec_quoted, spec_tag_of, spec_uri_user, spec_via_branch, spec_via_is_tcp, tag_of, uri_user,
    via_branch, via_is_tcp,
};
use crate::manscdp::{
    spec_num_u32, spec_parse_catalog, spec_parse_device_status, spec_parse_keep_alive, Catalog,
    DeviceStatus, DeviceStatusQuery, KeepAlive,
};
use crate::sipmsg::{
    header_views, spec_header_value, spec_is_response, spec_parse_request, spec_parse_response,
    SipHeader, SipMethod, SipPacket, SipRequest, SipResponse,
};
use crate::assoc::{has_key, lemma_get_push, lemma_get_some_iff_has_key, spec_get};
use crate::store::{MemoryStore, SipSubDeviceInfo};
use crate::strutil::{dec_chars, u64_to_string};
use vstd::prelude::*;
use vstd::string::StrSliceExecFns;
use vstd::string::StringExecFns;

verus! {

/// The fields that identify one SIP dialog.
#[derive(Debug)]
pub struct SipTransaction {
    pub caller_id: String,
    pub from_tag: String,
    pub to_tag: String,
    pub branch: String,
}

/// One message to put on the wire: the peer, the TCP write side to use
/// when the dialog runs over TCP, and the bytes.
#[derive(Debug)]
pub struct Outbound {
    pub peer_addr: String,
    pub tcp_handle: Option<u64>,
    pub data: Vec<u8>,
}

/// Everything `send_invite` needs to reach the device and describe
/// the session.
#[derive(Debug)]
pub struct SendInviteParams {
    pub device_addr: String,
    pub tcp_stream: Option<u64>,
    pub branch: String,
    pub channel_id: String,
    pub caller_id: String,
    pub from_tag: String,
    pub media_server_ip: String,
    pub media_server_port: u16,
    pub session_type: crate::sdp::SdpSessionType,
    pub gb_code: String,
    pub setup_type: String,
    pub start_ts: u64,
    pub stop_ts: u64,
}

/// `c` is a lower-case hexadecimal digit.
pub open spec fn is_lower_hex(c: char) -> bool {
    ('0' <= c && c <= '9') || ('a' <= c && c <= 'f')
}

/// The SIP engine: the gateway's identity and secrets, and the registry.
pub struct SipHandler {
    pub ip: String,
    pub port: u16,
    pub domain: String,
    pub id: String,
    pub password: String,
    pub algorithm: String,
    pub nonce: String,
    pub realm: String,
    pub store: MemoryStore,
}

impl SipHandler {
    /// A handler over the given configuration and registry.
    pub fn new(config: &Config, store: MemoryStore) -> (r: SipHandler)
        requires
            store.wf(),
        ensures
            r.store == store,
            r.ip@ == config.my_ip@,
            r.port == config.sip_port,
            r.domain@ == config.sip_domain@,
            r.id@ == config.sip_id@,
            r.password@ == config.sip_password@,
            r.algorithm@ == config.sip_algorithm@,
            r.nonce@ == config.sip_nonce@,
            r.realm@ == config.sip_realm@,
            r.store.wf(),
    {
        SipHandler {
            ip: config.my_ip.clone(),
            port: config.sip_port,
            domain: config.sip_domain.clone(),
            id: config.sip_id.clone(),
            password: config.sip_password.clone(),
            algorithm: config.sip_algorithm.clone(),
            nonce: config.sip_nonce.clone(),
            realm: config.sip_realm.clone(),
            store,
        }
    }

    /// A fresh dialog tag: `length` lower-case hexadecimal characters.
    pub fn tag_new(&self, length: usize) -> (r: String)
        ensures
            r@.len() == length,
            forall|i: int| 0 <= i < r@.len() ==> is_lower_hex(#[trigger] r@[i]),
    {
        let mut out = String::new();
        let mut k: usize = 0;
        while k < length
            invariant
                k <= length,
                out@.len() == k,
                forall|i: int| 0 <= i < out@.len() ==> is_lower_hex(#[trigger] out@[i]),
            decreases length - k,
        {
            let d = rand_below(16);
            let piece = match d {
                0 => "0",
                1 => "1",
                2 => "2",
                3 => "3",
                4 => "4",
                5 => "5",
                6 => "6",
                7 => "7",
                8 => "8",
                9 => "9",
                10 => "a",
                11 => "b",
                12 => "c",
                13 => "d",
                14 => "e",
                _ => "f",
            };
            proof {
                reveal_strlit("0");
                reveal_strlit("1");
                reveal_strlit("2");
                reveal_strlit("3");
                reveal_strlit("4");
                reveal_strlit("5");
                reveal_strlit("6");
                reveal_strlit("7");
                reveal_strlit("8");
                reveal_strlit("9");
                reveal_strlit("a");
                reveal_strlit("b");
                reveal_strlit("c");
                reveal_strlit("d");
                reveal_strlit("e");
                reveal_strlit("f");
            }
            out.append(piece);
            k += 1;
        }
        out
    }

    /// The tag of a From or To value; empty when it carries none.
    pub fn tag_get(&self, value: &str) -> (r: String)
        ensures
            r@ == spec_tag_of(value@),
    {
        tag_of(value)
    }

    /// The branch of a Via value; empty when it carries none.
    pub fn branch_get(&self, value: &str) -> (r: String)
        ensures
            r@ == spec_via_branch(value@),
    {
        via_branch(value)
    }

    /// Whether a Via value names TCP as its transport.
    pub fn transport_get_is_tcp(&self, value: &str) -> (r: bool)
        ensures
            r == spec_via_is_tcp(value@),
    {
        via_is_tcp(value)
    }

    /// The Via value this gateway writes.
    pub open spec fn spec_via_value(self, is_tcp: bool, branch: Seq<char>) -> Seq<char> {
        (if is_tcp {
            "SIP/2.0/TCP "@
        } else {
            "SIP/2.0/UDP "@
        }) + self.ip@ + ":"@ + dec_chars(self.port as nat) + ";rport;branch="@ + branch
    }

    /// A Via header for a message this gateway originates.
    pub fn via(&self, is_tcp: bool, branch: &str) -> (r: SipHeader)
        ensures
            r.name@ == "Via"@,
            r.value@ == self.spec_via_value(is_tcp, branch@),
    {
        let mut value = String::new();
        if is_tcp {
            value.append("SIP/2.0/TCP ");
        } else {
            value.append("SIP/2.0/UDP ");
        }
        value.append(self.ip.as_str());
        value.append(":");
        let port = u64_to_string(self.port as u64);
        value.append(port.as_str());
        value.append(";rport;branch=");
        value.append(branch);
        proof {
            assert(value@ =~= self.spec_via_value(is_tcp, branch@));
        }
        SipHeader { name: "Via".to_owned(), value }
    }

    /// The From value with the gateway's own URI and the given tag.
    pub open spec fn spec_from_value(self, tag: Seq<char>) -> Seq<char> {
        "<sip:"@ + self.id@ + "@"@ + self.domain@ + ">;tag="@ + tag
    }

    /// A From header reusing a dialog's existing tag.
    pub fn from_old(&self, tag: &str) -> (r: SipHeader)
        ensures
            r.name@ == "From"@,
            r.value@ == self.spec_from_value(tag@),
    {
        let mut value = String::new();
        value.append("<sip:");
        value.append(self.id.as_str());
        value.append("@");
        value.append(self.domain.as_str());
        value.append(">;tag=");
        value.append(tag);
        proof {
            assert(value@ =~= self.spec_from_value(tag@));
        }
        SipHeader { name: "From".to_owned(), value }
    }

    /// A From header with a freshly drawn 32-character tag.
    pub fn from_new(&self) -> (r: SipHeader)
        ensures
            r.name@ == "From"@,
            exists|tag: Seq<char>|
                tag.len() == 32 && (forall|i: int|
                    0 <= i < tag.len() ==> is_lower_hex(#[trigger] tag[i])) && r.value@
                    == self.spec_from_value(tag),
    {
        let tag = self.tag_new(32);
        let r = self.from_old(tag.as_str());
        proof {
            assert(r.value@ == self.spec_from_value(tag@));
        }
        r
    }

    /// The To value naming the device, without a tag.
    pub open spec fn spec_to_value(self, gb_code: Seq<char>) -> Seq<char> {
        "<sip:"@ + gb_code + "@"@ + self.domain@ + ">"@
    }

    /// A To header naming the device, with no tag yet.
    pub fn to_new(&self, gb_code: &str) -> (r: SipHeader)
        ensures
            r.name@ == "To"@,
            r.value@ == self.spec_to_value(gb_code@),
    {
        let mut value = String::new();
        value.append("<sip:");
        value.append(gb_code);
        value.append("@");
        value.append(self.domain.as_str());
        value.append(">");
        proof {
            assert(value@ =~= self.spec_to_value(gb_code@));
        }
        SipHeader { name: "To".to_owned(), value }
    }

    /// A To header naming the device with the dialog's tag.
    pub fn to_new_with_tag(&self, gb_code: &str, tag: &str) -> (r: SipHeader)
        ensures
            r.name@ == "To"@,
            r.value@ == self.spec_to_value(gb_code@) + ";tag="@ + tag@,
    {
        let base = self.to_new(gb_code);
        let mut value = base.value;
        value.append(";tag=");
        value.append(tag);
        proof {
            assert(value@ =~= self.spec_to_value(gb_code@) + ";tag="@ + tag@);
        }
        SipHeader { name: "To".to_owned(), value }
    }

    /// A To header echoing a request's To value; a tag is appended when
    /// it carries none.
    pub fn to_old(&self, value: &str) -> (r: SipHeader)
        ensures
            r.name@ == "To"@,
            spec_param_after(value@, ";tag="@, ';').len() > 0 ==> r.value@ == value@,
            spec_param_after(value@, ";tag="@, ';').len() == 0 ==> exists|tag: Seq<char>|
                tag.len() == 32 && r.value@ == value@ + ";tag="@ + tag,
    {
        let existing = tag_of(value);
        if existing.as_str().unicode_len() > 0 {
            SipHeader { name: "To".to_owned(), value: value.to_owned() }
        } else {
            let tag = self.tag_new(32);
            let mut v = value.to_owned();
            v.append(";tag=");
            v.append(tag.as_str());
            proof {
                assert(v@ =~= value@ + ";tag="@ + tag@);
            }
            SipHeader { name: "To".to_owned(), value: v }
        }
    }

    /// The gateway's Contact value.
    pub open spec fn spec_contact_value(self) -> Seq<char> {
        "<sip:"@ + self.id@ + "@"@ + self.ip@ + ":"@ + dec_chars(self.port as nat) + ">"@
    }

    /// A Contact header for messages this gateway originates.
    pub fn contact(&self) -> (r: SipHeader)
        ensures
            r.name@ == "Contact"@,
            r.value@ == self.spec_contact_value(),
    {
        let mut value = String::new();
        value.append("<sip:");
        value.append(self.id.as_str());
        value.append("@");
        value.append(self.ip.as_str());
        value.append(":");
        let port = u64_to_string(self.port as u64);
        value.append(port.as_str());
        value.append(">");
        proof {
            assert(value@ =~= self.spec_contact_value());
        }
        SipHeader { name: "Contact".to_owned(), value }
    }

    /// A fresh Call-ID value: an upper-case UUID at the gateway address.
    pub fn caller_id_str(&self) -> (r: String)
        ensures
            exists|u: Seq<char>|
                u.len() == 32 && r@ == u + "@"@ + self.ip@ + ":"@ + dec_chars(self.port as nat),
    {
        let u = crate::ext::uuid_simple_upper();
        let mut out = u;
        out.append("@");
        out.append(self.ip.as_str());
        out.append(":");
        let port = u64_to_string(self.port as u64);
        out.append(port.as_str());
        out
    }

    /// A Call-ID header carrying a fresh value: an upper-case UUID at
    /// the gateway address.
    pub fn caller_id_new(&self) -> (r: SipHeader)
        ensures
            r.name@ == "Call-ID"@,
            exists|u: Seq<char>|
                u.len() == 32 && r.value@ == u + "@"@ + self.ip@ + ":"@ + dec_chars(
                    self.port as nat,
                ),
    {
        SipHeader { name: "Call-ID".to_owned(), value: self.caller_id_str() }
    }

    /// A Call-ID header carrying the given value.
    pub fn caller_id_from_str(&self, s: &str) -> (r: SipHeader)
        ensures
            r.name@ == "Call-ID"@,
            r.value@ == s@,
    {
        SipHeader { name: "Call-ID".to_owned(), value: s.to_owned() }
    }

    /// Decodes a GB18030 or GB2312 body to text and rewrites its prolog's
    /// declared encoding to UTF-8.
    pub fn decode_body(&self, data: &[u8]) -> (r: String)
        ensures
            r@ == spec_rewrite_prolog(crate::ext::gb18030_decoded(data@)),
    {
        let body = gb18030_decode(data);
        rewrite_prolog(body)
    }

    /// Rewrites a UTF-8 prolog to declare GB2312 and encodes the text.
    /// Text beyond the Basic Multilingual Plane is excluded: the GB2312
    /// encoder cannot carry it.
    pub fn encode_body(&self, data: &str) -> (r: Vec<u8>)
        requires
            crate::ext::bmp_chars(data@),
        ensures
            r@ == crate::ext::gb2312_encoded(spec_rewrite_prolog_back(data@)),
    {
        let rewritten = rewrite_prolog_back(data);
        proof {
            lemma_rewrite_back_bmp(data@);
        }
        gb2312_encode(rewritten.as_str())
    }

    /// The text of the first `<CmdType>` element in a MANSCDP body;
    /// empty when there is none.
    pub fn extract_cmd_type(&self, body: &str) -> (r: String)
        ensures
            r@ == spec_param_after(body@, "<CmdType>"@, '<'),
    {
        match crate::headerval::param_after(body, "<CmdType>", '<') {
            Some(x) => x,
            None => String::new(),
        }
    }

    /// Whether a digest response authenticates `username` against this
    /// gateway's secret, realm and nonce.
    pub fn is_authorized(
        &self,
        username: &str,
        method: &str,
        uri: &str,
        qop: Option<(&str, u8)>,
        digest: &str,
    ) -> (r: bool)
        ensures
            r == digest_matches(
                username@,
                self.password@,
                self.realm@,
                self.nonce@,
                method@,
                uri@,
                match qop {
                    Some(q) => Some((q.0@, q.1)),
                    None => None,
                },
                digest@,
            ),
    {
        digest_verify(
            username,
            self.password.as_str(),
            self.realm.as_str(),
            self.nonce.as_str(),
            method,
            uri,
            qop,
            digest,
        )
    }

    /// A 200 OK echoing the request's Via, From, To, Call-ID and CSeq,
    /// with an empty body.
    pub fn reply_200(&self, req: &SipRequest) -> (r: SipResponse)
        requires
            hv(req.headers@, "Via"@) is Some,
            hv(req.headers@, "From"@) is Some,
            hv(req.headers@, "To"@) is Some,
            hv(req.headers@, "Call-ID"@) is Some,
            hv(req.headers@, "CSeq"@) is Some,
        ensures
            spec_ok_reply(header_views(req.headers@), r),
    {
        let via = crate::sipmsg::header_value(&req.headers, "Via").unwrap();
        let from = crate::sipmsg::header_value(&req.headers, "From").unwrap();
        let to = crate::sipmsg::header_value(&req.headers, "To").unwrap();
        let call_id = crate::sipmsg::header_value(&req.headers, "Call-ID").unwrap();
        let cseq = crate::sipmsg::header_value(&req.headers, "CSeq").unwrap();
        let mut headers: Vec<SipHeader> = Vec::new();
        headers.push(SipHeader { name: "Via".to_owned(), value: via });
        headers.push(SipHeader { name: "From".to_owned(), value: from });
        headers.push(self.to_old(to.as_str()));
        headers.push(SipHeader { name: "Call-ID".to_owned(), value: call_id });
        headers.push(SipHeader { name: "CSeq".to_owned(), value: cseq });
        headers.push(SipHeader { name: "Content-Length".to_owned(), value: "0".to_owned() });
        SipResponse { status: 200, reason: "OK".to_owned(), headers, body: Vec::new() }
    }

    /// The challenge value of a 401 this gateway sends.
    pub open spec fn spec_www_auth_value(self) -> Seq<char> {
        "Digest realm=\""@ + self.realm@ + "\", nonce=\""@ + self.nonce@
            + "\", algorithm=MD5, qop=\"auth\""@
    }

    /// `r` is the 401 that echoes the request headers `hvs` — Via, From,
    /// To (tagged if it was not), Call-ID, CSeq — then this gateway's
    /// digest challenge and Content-Length 0, with an empty body.
    pub open spec fn spec_challenge_reply(
        self,
        hvs: Seq<(Seq<char>, Seq<char>)>,
        r: SipResponse,
    ) -> bool {
        &&& r.status == 401
        &&& r.reason@ == "Unauthorized"@
        &&& r.body@.len() == 0
        &&& r.headers@.len() == 7
        &&& r.headers@[0].name@ == "Via"@ && Some(r.headers@[0].value@) == spec_header_value(
            hvs,
            "Via"@,
        )
        &&& r.headers@[1].name@ == "From"@ && Some(r.headers@[1].value@) == spec_header_value(
            hvs,
            "From"@,
        )
        &&& r.headers@[2].name@ == "To"@ && echoed_to(
            spec_header_value(hvs, "To"@)->Some_0,
            r.headers@[2].value@,
        )
        &&& r.headers@[3].name@ == "Call-ID"@ && Some(r.headers@[3].value@)
            == spec_header_value(hvs, "Call-ID"@)
        &&& r.headers@[4].name@ == "CSeq"@ && Some(r.headers@[4].value@) == spec_header_value(
            hvs,
            "CSeq"@,
        )
        &&& r.headers@[5].name@ == "WWW-Authenticate"@ && r.headers@[5].value@
            == self.spec_www_auth_value()
        &&& r.headers@[6].name@ == "Content-Length"@ && r.headers@[6].value@ == "0"@
    }

    /// A 401 Unauthorized echoing the request's dialog headers and
    /// carrying this gateway's digest challenge.
    pub fn reply_401(&self, req: &SipRequest) -> (r: SipResponse)
        requires
            hv(req.headers@, "Via"@) is Some,
            hv(req.headers@, "From"@) is Some,
            hv(req.headers@, "To"@) is Some,
            hv(req.headers@, "Call-ID"@) is Some,
            hv(req.headers@, "CSeq"@) is Some,
        ensures
            self.spec_challenge_reply(header_views(req.headers@), r),
    {
        let via = crate::sipmsg::header_value(&req.headers, "Via").unwrap();
        let from = crate::sipmsg::header_value(&req.headers, "From").unwrap();
        let to = crate::sipmsg::header_value(&req.headers, "To").unwrap();
        let call_id = crate::sipmsg::header_value(&req.headers, "Call-ID").unwrap();
        let cseq = crate::sipmsg::header_value(&req.headers, "CSeq").unwrap();
        let mut challenge = String::new();
        challenge.append("Digest realm=\"");
        challenge.append(self.realm.as_str());
        challenge.append("\", nonce=\"");
        challenge.append(self.nonce.as_str());
        challenge.append("\", algorithm=MD5, qop=\"auth\"");
        proof {
            assert(challenge@ =~= self.spec_www_auth_value());
        }
        let mut headers: Vec<SipHeader> = Vec::new();
        headers.push(SipHeader { name: "Via".to_owned(), value: via });
        headers.push(SipHeader { name: "From".to_owned(), value: from });
        headers.push(self.to_old(to.as_str()));
        headers.push(SipHeader { name: "Call-ID".to_owned(), value: call_id });
        headers.push(SipHeader { name: "CSeq".to_owned(), value: cseq });
        headers.push(SipHeader { name: "WWW-Authenticate".to_owned(), value: challenge });
        headers.push(SipHeader { name: "Content-Length".to_owned(), value: "0".to_owned() });
        SipResponse {
            status: 401,
            reason: "Unauthorized".to_owned(),
            headers,
            body: Vec::new(),
        }
    }
}

/// The value of the first header named `name` among `hs`.
pub open spec fn hv(hs: Seq<SipHeader>, name: Seq<char>) -> Option<Seq<char>> {
    spec_header_value(header_views(hs), name)
}

/// `r` is the 200 OK that echoes the request headers `hvs`: Via, From,
/// To (tagged if it was not), Call-ID and CSeq in that order, then
/// Content-Length 0, with an empty body.
pub open spec fn spec_ok_reply(hvs: Seq<(Seq<char>, Seq<char>)>, r: SipResponse) -> bool {
    &&& r.status == 200
    &&& r.reason@ == "OK"@
    &&& r.body@.len() == 0
    &&& r.headers@.len() == 6
    &&& r.headers@[0].name@ == "Via"@ && Some(r.headers@[0].value@) == spec_header_value(
        hvs,
        "Via"@,
    )
    &&& r.headers@[1].name@ == "From"@ && Some(r.headers@[1].value@) == spec_header_value(
        hvs,
        "From"@,
    )
    &&& r.headers@[2].name@ == "To"@ && echoed_to(
        spec_header_value(hvs, "To"@)->Some_0,
        r.headers@[2].value@,
    )
    &&& r.headers@[3].name@ == "Call-ID"@ && Some(r.headers@[3].value@) == spec_header_value(
        hvs,
        "Call-ID"@,
    )
    &&& r.headers@[4].name@ == "CSeq"@ && Some(r.headers@[4].value@) == spec_header_value(
        hvs,
        "CSeq"@,
    )
    &&& r.headers@[5].name@ == "Content-Length"@ && r.headers@[5].value@ == "0"@
}

/// What a REGISTER produced: the reply, and the device-status query
/// that follows a first registration.
#[derive(Debug)]
pub struct RegisterOutcome {
    pub response: SipResponse,
    pub query: Option<SipRequest>,
}

/// `s` holds the same channel data as the parsed item `f`, with absent
/// optional fields as empty text or zero.
pub open spec fn sub_matches_fields(
    s: SipSubDeviceInfo,
    f: crate::manscdp::DeviceFields,
) -> bool {
    &&& s.sub_device_id@ == f.device_id
    &&& s.name@ == f.name
    &&& s.manufacturer@ == f.manufacturer
    &&& s.model@ == f.model
    &&& s.owner@ == f.owner
    &&& s.civil_code@ == f.civil_code
    &&& s.block@ == (match f.block {
        Some(x) => x,
        None => Seq::<char>::empty(),
    })
    &&& s.address@ == f.address
    &&& s.parental == f.parental
    &&& s.parent_id@ == f.parent_id
    &&& s.register_way == f.register_way
    &&& s.secrecy == f.secrecy
    &&& s.ip_address@ == (match f.ip_address {
        Some(x) => x,
        None => Seq::<char>::empty(),
    })
    &&& s.port == (match f.port {
        Some(x) => x,
        None => 0u16,
    })
    &&& s.password@ == (match f.password {
        Some(x) => x,
        None => Seq::<char>::empty(),
    })
    &&& s.status@ == (match f.status {
        Some(x) => x,
        None => Seq::<char>::empty(),
    })
    &&& s.longitude@ == (match f.longitude {
        Some(x) => x,
        None => Seq::<char>::empty(),
    })
    &&& s.latitude@ == (match f.latitude {
        Some(x) => x,
        None => Seq::<char>::empty(),
    })
    &&& s.ptz_type == (match f.ptz_type {
        Some(x) => x,
        None => 0u32,
    })
}

/// What absorbing a catalog body `msg` from device `gb` does to the
/// registry: the serial number is taken when positive, and the reported
/// channels are appended to that device's sub-device list.
pub open spec fn spec_catalog_effect(
    pre: MemoryStore,
    post: MemoryStore,
    msg: Seq<char>,
    gb: Seq<char>,
) -> bool {
    let parsed = crate::manscdp::spec_parse_catalog(msg);
    let sn = match parsed {
        Some(t) => t.1,
        None => 0u32,
    };
    let items = match parsed {
        Some(t) => t.5,
        None => Seq::<crate::manscdp::DeviceFields>::empty(),
    };
    &&& post.global_sn == (if sn > 0 {
        sn
    } else {
        pre.global_sn
    })
    &&& (has_key(pre.devices(), gb) ==> ({
        let o = spec_get(pre.devices(), gb);
        let n = spec_get(post.devices(), gb);
        &&& o is Some
        &&& n is Some
        &&& n->Some_0.sub_devices is Some
        &&& ({
            let oldsubs = match o->Some_0.sub_devices {
                Some(v) => v@,
                None => Seq::<SipSubDeviceInfo>::empty(),
            };
            let newsubs = n->Some_0.sub_devices->Some_0@;
            &&& newsubs.len() == oldsubs.len() + items.len()
            &&& newsubs.subrange(0, oldsubs.len() as int) == oldsubs
            &&& forall|i: int|
                0 <= i < items.len() ==> #[trigger] sub_matches_fields(
                    newsubs[oldsubs.len() + i],
                    items[i],
                )
        })
    }))
    &&& (forall|k: Seq<char>|
        k != gb ==> #[trigger] spec_get(post.devices(), k) == spec_get(pre.devices(), k))
}

/// A catalog item as a stored channel record.
fn sub_device_from(d: &crate::manscdp::Device) -> (s: SipSubDeviceInfo)
    ensures
        sub_matches_fields(s, crate::manscdp::device_fields(*d)),
{
    SipSubDeviceInfo {
        sub_device_id: d.device_id.clone(),
        name: d.name.clone(),
        manufacturer: d.manufacturer.clone(),
        model: d.model.clone(),
        owner: d.owner.clone(),
        civil_code: d.civil_code.clone(),
        block: match &d.block {
            Some(x) => x.clone(),
            None => String::new(),
        },
        address: d.address.clone(),
        parental: d.parental,
        parent_id: d.parent_id.clone(),
        register_way: d.register_way,
        secrecy: d.secrecy,
        ip_address: match &d.ip_address {
            Some(x) => x.clone(),
            None => String::new(),
        },
        port: match d.port {
            Some(x) => x,
            None => 0,
        },
        password: match &d.password {
            Some(x) => x.clone(),
            None => String::new(),
        },
        status: match &d.status {
            Some(x) => x.clone(),
            None => String::new(),
        },
        longitude: match &d.longitude {
            Some(x) => x.clone(),
            None => String::new(),
        },
        latitude: match &d.latitude {
            Some(x) => x.clone(),
            None => String::new(),
        },
        ptz_type: match d.ptz_type {
            Some(x) => x,
            None => 0,
        },
    }
}

impl SipHandler {
    /// The REGISTER carries a digest answer this gateway accepts.
    pub open spec fn spec_register_authorized(self, hvs: Seq<(Seq<char>, Seq<char>)>) -> bool {
        match spec_header_value(hvs, "Authorization"@) {
            None => false,
            Some(av) => match (
                spec_quoted(av, "username=\""@),
                spec_quoted(av, "uri=\""@),
                spec_quoted(av, "response=\""@),
            ) {
                (Some(u), Some(uri), Some(resp)) => match spec_quoted(av, "cnonce=\""@) {
                    Some(cn) => {
                        let ncv = spec_param_after(av, "nc="@, ',');
                        if ncv.len() > 0 && crate::strutil::all_digit_chars(ncv)
                            && crate::strutil::dec_val_chars(ncv) <= u8::MAX {
                            digest_matches(
                                u,
                                self.password@,
                                self.realm@,
                                self.nonce@,
                                "REGISTER"@,
                                uri,
                                Some((cn, crate::strutil::dec_val_chars(ncv) as u8)),
                                resp,
                            )
                        } else {
                            false
                        }
                    },
                    None => digest_matches(
                        u,
                        self.password@,
                        self.realm@,
                        self.nonce@,
                        "REGISTER"@,
                        uri,
                        None,
                        resp,
                    ),
                },
                _ => false,
            },
        }
    }

    /// Checks the REGISTER's digest answer.
    fn check_register_auth(&self, req: &SipRequest) -> (r: bool)
        ensures
            r == self.spec_register_authorized(header_views(req.headers@)),
    {
        let av = match crate::sipmsg::header_value(&req.headers, "Authorization") {
            None => {
                return false;
            },
            Some(v) => v,
        };
        let u = match quoted_param(av.as_str(), "username=\"") {
            None => {
                return false;
            },
            Some(v) => v,
        };
        let uri = match quoted_param(av.as_str(), "uri=\"") {
            None => {
                return false;
            },
            Some(v) => v,
        };
        let resp = match quoted_param(av.as_str(), "response=\"") {
            None => {
                return false;
            },
            Some(v) => v,
        };
        match quoted_param(av.as_str(), "cnonce=\"") {
            Some(cn) => {
                let ncv = match crate::headerval::param_after(av.as_str(), "nc=", ',') {
                    None => String::new(),
                    Some(v) => v,
                };
                proof {
                    if crate::strutil::spec_find_chars_from(av@, "nc="@, 0) is None {
                        assert(spec_param_after(av@, "nc="@, ',') =~= Seq::<char>::empty());
                    }
                }
                let nclen = ncv.as_str().unicode_len();
                proof {
                    assert(ncv@.subrange(0, nclen as int) =~= ncv@);
                }
                let ncval = match crate::strutil::parse_dec_str(ncv.as_str(), 0, nclen) {
                    None => {
                        return false;
                    },
                    Some(x) => x,
                };
                if ncval > 255 {
                    return false;
                }
                self.is_authorized(
                    u.as_str(),
                    "REGISTER",
                    uri.as_str(),
                    Some((cn.as_str(), ncval as u8)),
                    resp.as_str(),
                )
            },
            None => self.is_authorized(u.as_str(), "REGISTER", uri.as_str(), None, resp.as_str()),
        }
    }

    /// Sends the device-status query that follows a first registration;
    /// steps the serial number and the CSeq counter.
    pub fn send_device_status_query(
        &mut self,
        is_tcp: bool,
        branch: &str,
        gb_code: &str,
    ) -> (q: SipRequest)
        requires
            old(self).store.wf(),
            crate::ext::bmp_chars(gb_code@),
        ensures
            final(self).store.wf(),
            *final(self) == (SipHandler { store: final(self).store, ..*old(self) }),
            final(self).store == (MemoryStore {
                global_sn: final(self).store.global_sn,
                global_sequence: final(self).store.global_sequence,
                ..old(self).store
            }),
            old(self).store.global_sn < u32::MAX ==> final(self).store.global_sn == old(self).store.global_sn + 1,
            old(self).store.global_sequence < u32::MAX ==> final(self).store.global_sequence
                == old(self).store.global_sequence + 1,
            q.method == SipMethod::Message,
            q.uri@ == "sip:"@ + gb_code@ + "@"@ + old(self).domain@,
            q.body@ == crate::ext::gb2312_encoded(
                crate::manscdp::spec_query_xml(
                    "DeviceStatus"@,
                    final(self).store.global_sn,
                    gb_code@,
                ),
            ),
            q.headers@.len() == 9,
            q.headers@[0].name@ == "Via"@ && q.headers@[0].value@ == old(self).spec_via_value(
                is_tcp,
                branch@,
            ),
            q.headers@[1].name@ == "Max-Forwards"@ && q.headers@[1].value@ == "70"@,
            q.headers@[2].name@ == "From"@ && (exists|tag: Seq<char>|
                tag.len() == 32 && (forall|i: int|
                    0 <= i < tag.len() ==> is_lower_hex(#[trigger] tag[i]))
                    && q.headers@[2].value@ == old(self).spec_from_value(tag)),
            q.headers@[3].name@ == "To"@ && q.headers@[3].value@ == old(self).spec_to_value(
                gb_code@,
            ),
            q.headers@[4].name@ == "Call-ID"@ && (exists|u: Seq<char>|
                u.len() == 32 && q.headers@[4].value@ == u + "@"@ + old(self).ip@ + ":"@
                    + dec_chars(old(self).port as nat)),
            q.headers@[5].name@ == "CSeq"@ && q.headers@[5].value@ == dec_chars(
                final(self).store.global_sequence as nat,
            ) + " MESSAGE"@,
            q.headers@[6].name@ == "User-Agent"@ && q.headers@[6].value@ == "wvprs"@,
            q.headers@[7].name@ == "Content-Type"@ && q.headers@[7].value@
                == "Application/MANSCDP+xml"@,
            q.headers@[8].name@ == "Content-Length"@ && q.headers@[8].value@ == dec_chars(
                q.body@.len(),
            ),
    {
        let sn = self.store.add_fetch_global_sn();
        let xml = DeviceStatusQuery::new(sn, gb_code).serialize_to_xml();
        proof {
            reveal_strlit("DeviceStatus");
            assert(crate::ext::bmp_chars("DeviceStatus"@)) by {
                assert forall|i: int|
                    0 <= i < "DeviceStatus"@.len() implies ((
                #[trigger] "DeviceStatus"@[i]) as u32) < 0x10000 by {}
            }
            crate::manscdp::lemma_query_xml_bmp("DeviceStatus"@, sn, gb_code@);
        }
        let body = gb2312_encode(xml.as_str());
        let seq = self.store.add_fetch_global_sequence();
        let mut cseq = u64_to_string(seq as u64);
        cseq.append(" MESSAGE");
        let cl = u64_to_string(body.len() as u64);
        let mut uri = String::new();
        uri.append("sip:");
        uri.append(gb_code);
        uri.append("@");
        uri.append(self.domain.as_str());
        proof {
            assert(uri@ =~= "sip:"@ + gb_code@ + "@"@ + old(self).domain@);
        }
        let mut headers: Vec<SipHeader> = Vec::new();
        headers.push(self.via(is_tcp, branch));
        headers.push(SipHeader { name: "Max-Forwards".to_owned(), value: "70".to_owned() });
        headers.push(self.from_new());
        headers.push(self.to_new(gb_code));
        headers.push(self.caller_id_new());
        headers.push(SipHeader { name: "CSeq".to_owned(), value: cseq });
        headers.push(SipHeader { name: "User-Agent".to_owned(), value: "wvprs".to_owned() });
        headers.push(
            SipHeader {
                name: "Content-Type".to_owned(),
                value: "Application/MANSCDP+xml".to_owned(),
            },
        );
        headers.push(SipHeader { name: "Content-Length".to_owned(), value: cl });
        SipRequest { method: SipMethod::Message, uri, headers, body }
    }

    /// Answers a REGISTER: challenges an unauthenticated device, removes
    /// the record on Expires 0, inserts it on a positive Expires, and
    /// follows a first registration with a device-status query.
    pub fn on_req_register(
        &mut self,
        req: &SipRequest,
        peer_addr: &str,
        tcp_handle: Option<u64>,
        now: u32,
    ) -> (r: RegisterOutcome)
        requires
            old(self).store.wf(),
            hv(req.headers@, "Via"@) is Some,
            hv(req.headers@, "From"@) is Some,
            hv(req.headers@, "To"@) is Some,
            hv(req.headers@, "Call-ID"@) is Some,
            hv(req.headers@, "CSeq"@) is Some,
            crate::sipmsg::ascii_chars(hv(req.headers@, "From"@)->Some_0),
        ensures
            final(self).store.wf(),
            final(self).store.register_sequence == old(self).store.register_sequence,
            ({
                let authorized = old(self).spec_register_authorized(header_views(req.headers@));
                let gb = spec_uri_user(hv(req.headers@, "From"@)->Some_0);
                let exp = match hv(req.headers@, "Expires"@) {
                    Some(ev) => spec_expires(ev),
                    None => None,
                };
                &&& (!authorized ==> {
                    &&& *final(self) == *old(self)
                    &&& r.query is None
                    &&& old(self).spec_challenge_reply(header_views(req.headers@), r.response)
                })
                &&& (authorized ==> spec_ok_reply(header_views(req.headers@), r.response))
                &&& (authorized && exp == Some(0u32) ==> {
                    &&& !has_key(final(self).store.devices(), gb)
                    &&& (!has_key(old(self).store.devices(), gb) ==> *final(self) == *old(self))
                    &&& (has_key(old(self).store.devices(), gb)
                        ==> final(self).store.devices().len()
                            == old(self).store.devices().len() - 1)
                    &&& (forall|k: Seq<char>|
                        k != gb ==> #[trigger] spec_get(final(self).store.devices(), k)
                            == spec_get(old(self).store.devices(), k))
                    &&& r.query is None
                })
                &&& (authorized && (match exp {
                    Some(e) => e > 0,
                    None => false,
                }) ==> {
                    let inserted = !has_key(old(self).store.devices(), gb);
                    &&& has_key(final(self).store.devices(), gb)
                    &&& (inserted ==> ({
                        let d = spec_get(final(self).store.devices(), gb)->Some_0;
                        &&& d.branch@ == spec_via_branch(hv(req.headers@, "Via"@)->Some_0)
                        &&& d.udp_client_addr@ == peer_addr@
                        &&& d.tcp_stream_writer == tcp_handle
                        &&& d.ts == now
                    }))
                    &&& (!inserted ==> final(self).store == old(self).store)
                    &&& (forall|k: Seq<char>|
                        k != gb ==> #[trigger] spec_get(final(self).store.devices(), k)
                            == spec_get(old(self).store.devices(), k))
                    &&& (r.query is Some <==> inserted)
                    &&& (inserted ==> ({
                        let q = r.query->Some_0;
                        &&& q.method == SipMethod::Message
                        &&& q.body@ == crate::ext::gb2312_encoded(
                            crate::manscdp::spec_query_xml(
                                "DeviceStatus"@,
                                final(self).store.global_sn,
                                gb,
                            ),
                        )
                    }))
                })
                &&& (authorized && exp is None ==> *final(self) == *old(self) && r.query is None)
            }),
    {
        let authorized = self.check_register_auth(req);
        if !authorized {
            let response = self.reply_401(req);
            return RegisterOutcome { response, query: None };
        }
        let from_val = crate::sipmsg::header_value(&req.headers, "From").unwrap();
        let gb = uri_user(from_val.as_str());
        let exp_opt: Option<u32> = match crate::sipmsg::header_value(&req.headers, "Expires") {
            None => None,
            Some(ev) => parse_expires(ev.as_str()),
        };
        let mut query: Option<SipRequest> = None;
        match exp_opt {
            Some(e) => {
                if e == 0 {
                    self.store.unregister(gb.as_str());
                } else {
                    let via_val = crate::sipmsg::header_value(&req.headers, "Via").unwrap();
                    let branch = via_branch(via_val.as_str());
                    let ghost pre_devices = self.store.devices();
                    let inserted = self.store.register(
                        branch.as_str(),
                        gb.as_str(),
                        peer_addr,
                        tcp_handle,
                        now,
                    );
                    proof {
                        if inserted {
                            let p = self.store.devices().last();
                            assert forall|k: Seq<char>| k != gb@ implies #[trigger] spec_get(
                                self.store.devices(),
                                k,
                            ) == spec_get(pre_devices, k) by {
                                lemma_get_push(pre_devices, p, k);
                                lemma_get_some_iff_has_key(pre_devices, k);
                            }
                            assert(has_key(self.store.devices(), gb@)) by {
                                lemma_get_some_iff_has_key(self.store.devices(), gb@);
                            }
                        }
                    }
                    if inserted {
                        proof {
                            let fv = hv(req.headers@, "From"@)->Some_0;
                            reveal_strlit("sip:");
                            crate::strutil::lemma_find_chars_from_correct(fv, "sip:"@, 0);
                            match crate::strutil::spec_find_chars_from(fv, "sip:"@, 0) {
                                None => {
                                    assert(gb@ =~= Seq::<char>::empty());
                                },
                                Some(p) => {
                                    crate::strutil::lemma_scan_to_correct(fv, p + 4, '@');
                                    assert forall|i: int|
                                        0 <= i < gb@.len() implies ((#[trigger] gb@[i]) as u32)
                                        < 0x10000 by {
                                        assert(gb@[i] == fv[p + 4 + i]);
                                    }
                                },
                            }
                            assert(crate::ext::bmp_chars(gb@));
                        }
                        let is_tcp = via_is_tcp(via_val.as_str());
                        let q = self.send_device_status_query(
                            is_tcp,
                            branch.as_str(),
                            gb.as_str(),
                        );
                        query = Some(q);
                    }
                }
            },
            None => (),
        }
        let response = self.reply_200(req);
        RegisterOutcome { response, query }
    }

    /// Absorbs a keepalive: takes its serial number when positive, and
    /// refreshes the device's liveness stamp. Answers 200 OK.
    pub fn on_keep_alive(&mut self, req: &SipRequest, msg: &str, now: u32) -> (r: SipResponse)
        requires
            old(self).store.wf(),
            hv(req.headers@, "Via"@) is Some,
            hv(req.headers@, "From"@) is Some,
            hv(req.headers@, "To"@) is Some,
            hv(req.headers@, "Call-ID"@) is Some,
            hv(req.headers@, "CSeq"@) is Some,
        ensures
            final(self).store.wf(),
            final(self).store.register_sequence == old(self).store.register_sequence,
            *final(self) == (SipHandler { store: final(self).store, ..*old(self) }),
            final(self).store == (MemoryStore {
                global_sn: final(self).store.global_sn,
                sip_devices: final(self).store.sip_devices,
                ..old(self).store
            }),
            spec_ok_reply(header_views(req.headers@), r),
            ({
                let sn = match spec_parse_keep_alive(msg@) {
                    Some(t) => t.1,
                    None => 0u32,
                };
                let gb = spec_uri_user(hv(req.headers@, "From"@)->Some_0);
                &&& final(self).store.global_sn == (if sn > 0 {
                    sn
                } else {
                    old(self).store.global_sn
                })
                &&& (has_key(old(self).store.devices(), gb) ==> ({
                    let o = spec_get(old(self).store.devices(), gb);
                    let n = spec_get(final(self).store.devices(), gb);
                    o is Some && n is Some && n->Some_0 == (crate::store::SipDeviceInfo {
                        ts: if now > o->Some_0.ts {
                            now
                        } else {
                            o->Some_0.ts
                        },
                        ..o->Some_0
                    })
                }))
                &&& (forall|k: Seq<char>|
                    k != gb ==> #[trigger] spec_get(final(self).store.devices(), k) == spec_get(
                        old(self).store.devices(),
                        k,
                    ))
            }),
    {
        let ka = KeepAlive::deserialize_from_xml(msg.to_owned());
        if ka.sn > 0 {
            self.store.set_global_sn(ka.sn);
        }
        let from_val = crate::sipmsg::header_value(&req.headers, "From").unwrap();
        let gb = uri_user(from_val.as_str());
        self.store.register_keep_alive(gb.as_str(), now);
        self.reply_200(req)
    }

    /// Absorbs a device-status answer: takes its serial number when
    /// positive. Answers 200 OK.
    pub fn on_device_status(&mut self, req: &SipRequest, msg: &str) -> (r: SipResponse)
        requires
            old(self).store.wf(),
            hv(req.headers@, "Via"@) is Some,
            hv(req.headers@, "From"@) is Some,
            hv(req.headers@, "To"@) is Some,
            hv(req.headers@, "Call-ID"@) is Some,
            hv(req.headers@, "CSeq"@) is Some,
        ensures
            final(self).store.wf(),
            spec_ok_reply(header_views(req.headers@), r),
            ({
                let sn = match spec_parse_device_status(msg@) {
                    Some(t) => t.1,
                    None => 0u32,
                };
                &&& final(self).store == (MemoryStore {
                    global_sn: if sn > 0 {
                        sn
                    } else {
                        old(self).store.global_sn
                    },
                    ..old(self).store
                })
                &&& *final(self) == (SipHandler { store: final(self).store, ..*old(self) })
            }),
    {
        let ds = DeviceStatus::deserialize_from_xml(msg.to_owned());
        if ds.sn > 0 {
            self.store.set_global_sn(ds.sn);
        }
        self.reply_200(req)
    }

    /// Absorbs a catalog answer: takes its serial number when positive
    /// and appends the reported channels to the device. Answers 200 OK.
    pub fn on_catalog(&mut self, req: &SipRequest, msg: &str, now: u32) -> (r: SipResponse)
        requires
            old(self).store.wf(),
            hv(req.headers@, "Via"@) is Some,
            hv(req.headers@, "From"@) is Some,
            hv(req.headers@, "To"@) is Some,
            hv(req.headers@, "Call-ID"@) is Some,
            hv(req.headers@, "CSeq"@) is Some,
        ensures
            final(self).store.wf(),
            final(self).store.register_sequence == old(self).store.register_sequence,
            *final(self) == (SipHandler { store: final(self).store, ..*old(self) }),
            final(self).store == (MemoryStore {
                global_sn: final(self).store.global_sn,
                sip_devices: final(self).store.sip_devices,
                ..old(self).store
            }),
            spec_ok_reply(header_views(req.headers@), r),
            spec_catalog_effect(
                old(self).store,
                final(self).store,
                msg@,
                spec_uri_user(hv(req.headers@, "From"@)->Some_0),
            ),
    {
        let catalog = Catalog::deserialize_from_xml(msg.to_owned());
        if catalog.sn > 0 {
            self.store.set_global_sn(catalog.sn);
        }
        let from_val = crate::sipmsg::header_value(&req.headers, "From").unwrap();
        let gb = uri_user(from_val.as_str());
        let n = catalog.device_list.items.len();
        let mut subs: Vec<SipSubDeviceInfo> = Vec::new();
        let mut i: usize = 0;
        while i < n
            invariant
                i <= n,
                n == catalog.device_list.items@.len(),
                subs@.len() == i,
                forall|j: int|
                    0 <= j < i ==> sub_matches_fields(
                        #[trigger] subs@[j],
                        crate::manscdp::device_fields(catalog.device_list.items@[j]),
                    ),
            decreases n - i,
        {
            subs.push(sub_device_from(&catalog.device_list.items[i]));
            i += 1;
        }
        proof {
            let parsed = spec_parse_catalog(msg@);
            if parsed is Some {
                let items = parsed->Some_0.5;
                assert(catalog.device_list.items@.map_values(
                    |d: crate::manscdp::Device| crate::manscdp::device_fields(d),
                ) == items);
                assert forall|j: int| 0 <= j < items.len() implies sub_matches_fields(
                    subs@[j],
                    #[trigger] items[j],
                ) by {
                    assert(catalog.device_list.items@.map_values(
                        |d: crate::manscdp::Device| crate::manscdp::device_fields(d),
                    )[j] == crate::manscdp::device_fields(catalog.device_list.items@[j]));
                }
            }
        }
        let ghost subsv = subs@;
        self.store.save_catalog(gb.as_str(), subs);
        proof {
            let gbv = spec_uri_user(hv(req.headers@, "From"@)->Some_0);
            let parsed = spec_parse_catalog(msg@);
            let items = match parsed {
                Some(t) => t.5,
                None => Seq::<crate::manscdp::DeviceFields>::empty(),
            };
            if has_key(old(self).store.devices(), gbv) {
                let o = spec_get(old(self).store.devices(), gbv);
                let n2 = spec_get(self.store.devices(), gbv);
                let oldsubs = match o->Some_0.sub_devices {
                    Some(v) => v@,
                    None => Seq::<SipSubDeviceInfo>::empty(),
                };
                let newsubs = n2->Some_0.sub_devices->Some_0@;
                assert(newsubs =~= oldsubs + subsv);
                assert forall|i2: int|
                    0 <= i2 < items.len() implies #[trigger] sub_matches_fields(
                    newsubs[oldsubs.len() + i2],
                    items[i2],
                ) by {
                    assert(newsubs[oldsubs.len() + i2] == subsv[i2]);
                    assert(sub_matches_fields(subsv[i2], items[i2]));
                }
                assert(newsubs.subrange(0, oldsubs.len() as int) =~= oldsubs);
            }
        }
        self.reply_200(req)
    }

    /// Routes a MESSAGE by the `<CmdType>` of its decoded body, answering
    /// 200 OK; bodies of unknown kinds change nothing.
    pub fn on_req_message(&mut self, req: &SipRequest, now: u32) -> (r: SipResponse)
        requires
            old(self).store.wf(),
            hv(req.headers@, "Via"@) is Some,
            hv(req.headers@, "From"@) is Some,
            hv(req.headers@, "To"@) is Some,
            hv(req.headers@, "Call-ID"@) is Some,
            hv(req.headers@, "CSeq"@) is Some,
        ensures
            final(self).store.wf(),
            final(self).store.register_sequence == old(self).store.register_sequence,
            *final(self) == (SipHandler { store: final(self).store, ..*old(self) }),
            final(self).store == (MemoryStore {
                global_sn: final(self).store.global_sn,
                sip_devices: final(self).store.sip_devices,
                ..old(self).store
            }),
            spec_ok_reply(header_views(req.headers@), r),
            ({
                let msg = spec_rewrite_prolog(crate::ext::gb18030_decoded(req.body@));
                let cmd = spec_param_after(msg, "<CmdType>"@, '<');
                let gb = spec_uri_user(hv(req.headers@, "From"@)->Some_0);
                &&& ((cmd != "Keepalive"@ && cmd != "DeviceStatus"@ && cmd != "Catalog"@)
                    ==> *final(self) == *old(self))
                &&& (cmd == "Keepalive"@ ==> ({
                    let sn = match spec_parse_keep_alive(msg) {
                        Some(t) => t.1,
                        None => 0u32,
                    };
                    &&& final(self).store.global_sn == (if sn > 0 {
                        sn
                    } else {
                        old(self).store.global_sn
                    })
                    &&& (has_key(old(self).store.devices(), gb) ==> ({
                        let o = spec_get(old(self).store.devices(), gb);
                        let n = spec_get(final(self).store.devices(), gb);
                        o is Some && n is Some && n->Some_0 == (crate::store::SipDeviceInfo {
                            ts: if now > o->Some_0.ts {
                                now
                            } else {
                                o->Some_0.ts
                            },
                            ..o->Some_0
                        })
                    }))
                    &&& (forall|k: Seq<char>|
                        k != gb ==> #[trigger] spec_get(final(self).store.devices(), k)
                            == spec_get(old(self).store.devices(), k))
                }))
                &&& (cmd == "DeviceStatus"@ ==> ({
                    let sn = match spec_parse_device_status(msg) {
                        Some(t) => t.1,
                        None => 0u32,
                    };
                    final(self).store == (MemoryStore {
                        global_sn: if sn > 0 {
                            sn
                        } else {
                            old(self).store.global_sn
                        },
                        ..old(self).store
                    })
                }))
                &&& (cmd == "Catalog"@ ==> spec_catalog_effect(
                    old(self).store,
                    final(self).store,
                    msg,
                    gb,
                ))
            }),
    {
        let msg = self.decode_body(req.body.as_slice());
        let cmd = self.extract_cmd_type(msg.as_str());
        proof {
            reveal_strlit("Keepalive");
            reveal_strlit("DeviceStatus");
            reveal_strlit("Catalog");
            assert("Keepalive"@.len() == 9);
            assert("DeviceStatus"@.len() == 12);
            assert("Catalog"@.len() == 7);
            assert("Keepalive"@ != "DeviceStatus"@);
            assert("Keepalive"@ != "Catalog"@);
            assert("DeviceStatus"@ != "Catalog"@);
        }
        if crate::strutil::str_eq(cmd.as_str(), "Keepalive") {
            self.on_keep_alive(req, msg.as_str(), now)
        } else if crate::strutil::str_eq(cmd.as_str(), "DeviceStatus") {
            self.on_device_status(req, msg.as_str())
        } else if crate::strutil::str_eq(cmd.as_str(), "Catalog") {
            self.on_catalog(req, msg.as_str(), now)
        } else {
            self.reply_200(req)
        }
    }

    /// Builds the INVITE that asks the device to push media: its SDP
    /// body and the full header set, stepping the CSeq counter.
    pub fn send_invite(&mut self, params: SendInviteParams) -> (q: SipRequest)
        requires
            old(self).store.wf(),
            params.gb_code@.len() >= 8,
        ensures
            final(self).store.wf(),
            *final(self) == (SipHandler { store: final(self).store, ..*old(self) }),
            final(self).store == (MemoryStore {
                global_sequence: final(self).store.global_sequence,
                ..old(self).store
            }),
            old(self).store.global_sequence < u32::MAX ==> final(self).store.global_sequence
                == old(self).store.global_sequence + 1,
            q.method == SipMethod::Invite,
            q.uri@ == "sip:"@ + params.gb_code@ + "@"@ + old(self).domain@,
            exists|rand4: u32|
                rand4 < 10000 && q.body@ == vstd::utf8::encode_utf8(
                    crate::sdp::spec_media_sdp(
                        params.media_server_ip@,
                        params.media_server_port,
                        params.gb_code@,
                        params.setup_type@,
                        params.session_type,
                        params.start_ts,
                        params.stop_ts,
                        rand4,
                    ),
                ),
            q.headers@.len() == 13,
            q.headers@[0].name@ == "Via"@ && q.headers@[0].value@ == old(self).spec_via_value(
                params.tcp_stream is Some,
                params.branch@,
            ),
            q.headers@[1].name@ == "Max-Forwards"@ && q.headers@[1].value@ == "70"@,
            q.headers@[2].name@ == "From"@ && q.headers@[2].value@ == old(self).spec_from_value(
                params.from_tag@,
            ),
            q.headers@[3].name@ == "To"@ && q.headers@[3].value@ == old(self).spec_to_value(
                params.gb_code@,
            ),
            q.headers@[4].name@ == "Contact"@ && q.headers@[4].value@ == old(self).spec_contact_value(),
            q.headers@[5].name@ == "Call-ID"@ && q.headers@[5].value@ == params.caller_id@,
            q.headers@[6].name@ == "CSeq"@ && q.headers@[6].value@ == dec_chars(
                final(self).store.global_sequence as nat,
            ) + " INVITE"@,
            q.headers@[7].name@ == "Allow"@ && q.headers@[7].value@
                == "INVITE, ACK, BYE, CANCEL, UPDATE, PRACK"@,
            q.headers@[8].name@ == "Supported"@ && q.headers@[8].value@ == "100rel"@,
            q.headers@[9].name@ == "Subject"@ && q.headers@[9].value@ == params.channel_id@
                + ":0"@,
            q.headers@[10].name@ == "User-Agent"@ && q.headers@[10].value@ == "wvprs"@,
            q.headers@[11].name@ == "Content-Type"@ && q.headers@[11].value@
                == "APPLICATION/SDP"@,
            q.headers@[12].name@ == "Content-Length"@ && q.headers@[12].value@ == dec_chars(
                q.body@.len(),
            ),
    {
        let sdp = crate::sdp::generate_media_sdp(
            params.media_server_ip.as_str(),
            params.media_server_port,
            params.gb_code.as_str(),
            params.setup_type.as_str(),
            params.session_type,
            params.start_ts,
            params.stop_ts,
        );
        let body = sdp.as_str().as_bytes_vec();
        let seq = self.store.add_fetch_global_sequence();
        let mut cseq = u64_to_string(seq as u64);
        cseq.append(" INVITE");
        let cl = u64_to_string(body.len() as u64);
        let mut subject = params.channel_id.clone();
        subject.append(":0");
        let mut uri = String::new();
        uri.append("sip:");
        uri.append(params.gb_code.as_str());
        uri.append("@");
        uri.append(self.domain.as_str());
        proof {
            assert(uri@ =~= "sip:"@ + params.gb_code@ + "@"@ + old(self).domain@);
        }
        let mut headers: Vec<SipHeader> = Vec::new();
        headers.push(self.via(params.tcp_stream.is_some(), params.branch.as_str()));
        headers.push(SipHeader { name: "Max-Forwards".to_owned(), value: "70".to_owned() });
        headers.push(self.from_old(params.from_tag.as_str()));
        headers.push(self.to_new(params.gb_code.as_str()));
        headers.push(self.contact());
        headers.push(self.caller_id_from_str(params.caller_id.as_str()));
        headers.push(SipHeader { name: "CSeq".to_owned(), value: cseq });
        headers.push(
            SipHeader {
                name: "Allow".to_owned(),
                value: "INVITE, ACK, BYE, CANCEL, UPDATE, PRACK".to_owned(),
            },
        );
        headers.push(SipHeader { name: "Supported".to_owned(), value: "100rel".to_owned() });
        headers.push(SipHeader { name: "Subject".to_owned(), value: subject });
        headers.push(SipHeader { name: "User-Agent".to_owned(), value: "wvprs".to_owned() });
        headers.push(
            SipHeader { name: "Content-Type".to_owned(), value: "APPLICATION/SDP".to_owned() },
        );
        headers.push(SipHeader { name: "Content-Length".to_owned(), value: cl });
        SipRequest { method: SipMethod::Invite, uri, headers, body }
    }

    /// Builds the BYE that tears the dialog down, with a fresh branch
    /// and the dialog's own tags; steps the CSeq counter.
    pub fn send_bye(
        &mut self,
        tcp_stream: Option<u64>,
        transaction: &SipTransaction,
        gb_code: &str,
    ) -> (q: SipRequest)
        requires
            old(self).store.wf(),
        ensures
            final(self).store.wf(),
            *final(self) == (SipHandler { store: final(self).store, ..*old(self) }),
            final(self).store == (MemoryStore {
                global_sequence: final(self).store.global_sequence,
                ..old(self).store
            }),
            old(self).store.global_sequence < u32::MAX ==> final(self).store.global_sequence
                == old(self).store.global_sequence + 1,
            q.method == SipMethod::Bye,
            q.uri@ == "sip:"@ + gb_code@ + "@"@ + old(self).domain@,
            q.body@.len() == 0,
            q.headers@.len() == 9,
            q.headers@[0].name@ == "Via"@ && exists|b: Seq<char>|
                b.len() == 10 && q.headers@[0].value@ == old(self).spec_via_value(
                    tcp_stream is Some,
                    "z9hG4bK"@ + b,
                ),
            q.headers@[1].name@ == "Max-Forwards"@ && q.headers@[1].value@ == "70"@,
            q.headers@[2].name@ == "From"@ && q.headers@[2].value@ == old(self).spec_from_value(
                transaction.from_tag@,
            ),
            q.headers@[3].name@ == "To"@ && q.headers@[3].value@ == old(self).spec_to_value(
                gb_code@,
            ) + ";tag="@ + transaction.to_tag@,
            q.headers@[4].name@ == "Contact"@ && q.headers@[4].value@ == old(self).spec_contact_value(),
            q.headers@[5].name@ == "Call-ID"@ && q.headers@[5].value@ == transaction.caller_id@,
            q.headers@[6].name@ == "CSeq"@ && q.headers@[6].value@ == dec_chars(
                final(self).store.global_sequence as nat,
            ) + " BYE"@,
            q.headers@[7].name@ == "User-Agent"@ && q.headers@[7].value@ == "wvprs"@,
            q.headers@[8].name@ == "Content-Length"@ && q.headers@[8].value@ == "0"@,
    {
        let mut branch = "z9hG4bK".to_owned();
        let fresh = self.tag_new(10);
        branch.append(fresh.as_str());
        let seq = self.store.add_fetch_global_sequence();
        let mut cseq = u64_to_string(seq as u64);
        cseq.append(" BYE");
        let mut uri = String::new();
        uri.append("sip:");
        uri.append(gb_code);
        uri.append("@");
        uri.append(self.domain.as_str());
        proof {
            assert(uri@ =~= "sip:"@ + gb_code@ + "@"@ + old(self).domain@);
        }
        let mut headers: Vec<SipHeader> = Vec::new();
        headers.push(self.via(tcp_stream.is_some(), branch.as_str()));
        headers.push(SipHeader { name: "Max-Forwards".to_owned(), value: "70".to_owned() });
        headers.push(self.from_old(transaction.from_tag.as_str()));
        headers.push(self.to_new_with_tag(gb_code, transaction.to_tag.as_str()));
        headers.push(self.contact());
        headers.push(self.caller_id_from_str(transaction.caller_id.as_str()));
        headers.push(SipHeader { name: "CSeq".to_owned(), value: cseq });
        headers.push(SipHeader { name: "User-Agent".to_owned(), value: "wvprs".to_owned() });
        headers.push(SipHeader { name: "Content-Length".to_owned(), value: "0".to_owned() });
        SipRequest { method: SipMethod::Bye, uri, headers, body: Vec::new() }
    }

    /// Answers a 200 OK to an INVITE: records the To tag the device
    /// assigned and synthesizes the ACK. A 200 whose Call-ID no stream
    /// holds, or whose CSeq does not read, is dropped.
    pub fn on_rsp_invite_200(&mut self, resp: &SipResponse) -> (r: Option<SipRequest>)
        requires
            old(self).store.wf(),
            hv(resp.headers@, "Via"@) is Some,
            hv(resp.headers@, "From"@) is Some,
            hv(resp.headers@, "To"@) is Some,
            hv(resp.headers@, "Call-ID"@) is Some,
            hv(resp.headers@, "CSeq"@) is Some,
        ensures
            final(self).store.wf(),
            final(self).store.register_sequence == old(self).store.register_sequence,
            *final(self) == (SipHandler { store: final(self).store, ..*old(self) }),
            final(self).store == (MemoryStore {
                gb_streams: final(self).store.gb_streams,
                ..old(self).store
            }),
            ({
                let cid = hv(resp.headers@, "Call-ID"@)->Some_0;
                let from_tag = spec_tag_of(hv(resp.headers@, "From"@)->Some_0);
                let to_tag = spec_tag_of(hv(resp.headers@, "To"@)->Some_0);
                &&& ((r is Some) <==> ((exists|i: int|
                    0 <= i < old(self).store.streams().len() && (
                    #[trigger] old(self).store.streams()[i]).1.caller_id@ == cid) && spec_cseq(
                    hv(resp.headers@, "CSeq"@)->Some_0,
                ) is Some))
                &&& match r {
                    None => *final(self) == *old(self),
                    Some(ack) => ({
                        &&& ack.method == SipMethod::Ack
                        &&& final(self).store.streams().len() == old(self).store.streams().len()
                        &&& (forall|i: int|
                            0 <= i < old(self).store.streams().len() ==> ({
                                let o = #[trigger] old(self).store.streams()[i];
                                let n = final(self).store.streams()[i];
                                &&& n.0 == o.0
                                &&& (o.1.from_tag@ == from_tag ==> n.1.to_tag@ == to_tag)
                                &&& (o.1.from_tag@ != from_tag ==> n.1.to_tag == o.1.to_tag)
                            }))
                        &&& ack.headers@.len() == 6
                        &&& ack.headers@[0].name@ == "Via"@ && Some(ack.headers@[0].value@)
                            == hv(resp.headers@, "Via"@)
                        &&& ack.headers@[1].name@ == "From"@ && Some(ack.headers@[1].value@)
                            == hv(resp.headers@, "From"@)
                        &&& ack.headers@[2].name@ == "To"@ && Some(ack.headers@[2].value@)
                            == hv(resp.headers@, "To"@)
                        &&& ack.headers@[3].name@ == "Call-ID"@ && Some(ack.headers@[3].value@)
                            == hv(resp.headers@, "Call-ID"@)
                        &&& ack.headers@[4].name@ == "CSeq"@ && ack.headers@[4].value@
                            == dec_chars(spec_cseq(hv(resp.headers@, "CSeq"@)->Some_0)->Some_0.0 as nat)
                            + " ACK"@
                        &&& ack.headers@[5].name@ == "Content-Length"@
                            && ack.headers@[5].value@ == "0"@
                        &&& ack.body@.len() == 0
                    }),
                }
            }),
    {
        let cid = crate::sipmsg::header_value(&resp.headers, "Call-ID").unwrap();
        let gb = match self.store.find_gb_code_by_caller_id(cid.as_str()) {
            None => {
                return None;
            },
            Some(g) => g,
        };
        let cseq_val = crate::sipmsg::header_value(&resp.headers, "CSeq").unwrap();
        let (seq_num, _m) = match parse_cseq(cseq_val.as_str()) {
            None => {
                return None;
            },
            Some(x) => x,
        };
        let from_val = crate::sipmsg::header_value(&resp.headers, "From").unwrap();
        let to_val = crate::sipmsg::header_value(&resp.headers, "To").unwrap();
        let from_tag = tag_of(from_val.as_str());
        let to_tag = tag_of(to_val.as_str());
        self.store.update_stream_tag_info(from_tag.as_str(), to_tag.as_str());
        let via_val = crate::sipmsg::header_value(&resp.headers, "Via").unwrap();
        let mut cseq = u64_to_string(seq_num as u64);
        cseq.append(" ACK");
        let mut uri = String::new();
        uri.append("sip:");
        uri.append(gb.as_str());
        uri.append("@");
        uri.append(self.domain.as_str());
        let mut headers: Vec<SipHeader> = Vec::new();
        headers.push(SipHeader { name: "Via".to_owned(), value: via_val });
        headers.push(SipHeader { name: "From".to_owned(), value: from_val });
        headers.push(SipHeader { name: "To".to_owned(), value: to_val });
        headers.push(SipHeader { name: "Call-ID".to_owned(), value: cid });
        headers.push(SipHeader { name: "CSeq".to_owned(), value: cseq });
        headers.push(SipHeader { name: "Content-Length".to_owned(), value: "0".to_owned() });
        Some(SipRequest { method: SipMethod::Ack, uri, headers, body: Vec::new() })
    }

    /// Routes an INVITE response: only a 200 OK acts, and yields the ACK.
    pub fn on_rsp_invite(&mut self, resp: &SipResponse) -> (r: Option<SipRequest>)
        requires
            old(self).store.wf(),
            hv(resp.headers@, "Via"@) is Some,
            hv(resp.headers@, "From"@) is Some,
            hv(resp.headers@, "To"@) is Some,
            hv(resp.headers@, "Call-ID"@) is Some,
            hv(resp.headers@, "CSeq"@) is Some,
        ensures
            final(self).store.wf(),
            final(self).store.register_sequence == old(self).store.register_sequence,
            *final(self) == (SipHandler { store: final(self).store, ..*old(self) }),
            final(self).store == (MemoryStore {
                gb_streams: final(self).store.gb_streams,
                ..old(self).store
            }),
            r is None ==> *final(self) == *old(self),
            resp.status != 200 ==> r is None && *final(self) == *old(self),
            resp.status == 200 ==> ((r is Some) <==> ((exists|i: int|
                0 <= i < old(self).store.streams().len() && (
                #[trigger] old(self).store.streams()[i]).1.caller_id@ == hv(
                resp.headers@,
                "Call-ID"@,
            )->Some_0) && spec_cseq(hv(resp.headers@, "CSeq"@)->Some_0) is Some)),
            resp.status == 200 ==> ({
                let cid = hv(resp.headers@, "Call-ID"@)->Some_0;
                let from_tag = spec_tag_of(hv(resp.headers@, "From"@)->Some_0);
                let to_tag = spec_tag_of(hv(resp.headers@, "To"@)->Some_0);
                &&& ((r is Some) <==> ((exists|i: int|
                    0 <= i < old(self).store.streams().len() && (
                    #[trigger] old(self).store.streams()[i]).1.caller_id@ == cid) && spec_cseq(
                    hv(resp.headers@, "CSeq"@)->Some_0,
                ) is Some))
                &&& match r {
                    None => *final(self) == *old(self),
                    Some(ack) => ({
                        &&& ack.method == SipMethod::Ack
                        &&& final(self).store.streams().len() == old(self).store.streams().len()
                        &&& (forall|i: int|
                            0 <= i < old(self).store.streams().len() ==> ({
                                let o = #[trigger] old(self).store.streams()[i];
                                let n = final(self).store.streams()[i];
                                &&& n.0 == o.0
                                &&& (o.1.from_tag@ == from_tag ==> n.1.to_tag@ == to_tag)
                                &&& (o.1.from_tag@ != from_tag ==> n.1.to_tag == o.1.to_tag)
                            }))
                        &&& ack.headers@.len() == 6
                        &&& ack.headers@[0].name@ == "Via"@ && Some(ack.headers@[0].value@)
                            == hv(resp.headers@, "Via"@)
                        &&& ack.headers@[1].name@ == "From"@ && Some(ack.headers@[1].value@)
                            == hv(resp.headers@, "From"@)
                        &&& ack.headers@[2].name@ == "To"@ && Some(ack.headers@[2].value@)
                            == hv(resp.headers@, "To"@)
                        &&& ack.headers@[3].name@ == "Call-ID"@ && Some(ack.headers@[3].value@)
                            == hv(resp.headers@, "Call-ID"@)
                        &&& ack.headers@[4].name@ == "CSeq"@ && ack.headers@[4].value@
                            == dec_chars(spec_cseq(hv(resp.headers@, "CSeq"@)->Some_0)->Some_0.0 as nat)
                            + " ACK"@
                        &&& ack.headers@[5].name@ == "Content-Length"@
                            && ack.headers@[5].value@ == "0"@
                        &&& ack.body@.len() == 0
                    }),
                }
            }),
    {
        if resp.status == 200 {
            self.on_rsp_invite_200(resp)
        } else {
            None
        }
    }

    /// Opens a live or playback session for the operator: registers the
    /// stream, records the allocated media endpoint, and yields the
    /// INVITE to send. 404 when the device is unknown; 500, with the
    /// stream kept for the sweeper, when no media endpoint came.
    pub fn start_session(
        &mut self,
        gb_code: &str,
        channel_id: &str,
        setup_type: &str,
        session_type: crate::sdp::SdpSessionType,
        start_ts: u64,
        stop_ts: u64,
        media: Option<(String, u16)>,
        now: u32,
    ) -> (r: StartSessionResult)
        requires
            old(self).store.wf(),
            gb_code@.len() >= 8,
            session_type == crate::sdp::SdpSessionType::Playback ==> old(self).store.replay_stream_id < u32::MAX,
            session_type != crate::sdp::SdpSessionType::Playback ==> old(self).store.live_stream_id < crate::store::REPLAY_ID_BASE,
        ensures
            final(self).store.wf(),
            !has_key(old(self).store.devices(), gb_code@) ==> r.code == 404 && r.msg@
                == "device not found"@ && r.stream_id == 0 && r.invite is None && *final(self)
                == *old(self),
            has_key(old(self).store.devices(), gb_code@) ==> ({
                let is_live = session_type != crate::sdp::SdpSessionType::Playback;
                &&& r.stream_id == (if is_live {
                    old(self).store.live_stream_id
                } else {
                    old(self).store.replay_stream_id
                })
                &&& has_key(final(self).store.streams(), r.stream_id)
                &&& ({
                    let s = spec_get(final(self).store.streams(), r.stream_id)->Some_0;
                    &&& s.gb_code@ == gb_code@
                    &&& s.ts == now
                })
                &&& ({
                    let newlist = spec_get(final(self).store.rev(), gb_code@);
                    newlist is Some && newlist->Some_0@.len() as int == (match spec_get(
                        old(self).store.rev(),
                        gb_code@,
                    ) {
                        Some(l) => l@.len() as int + 1,
                        None => 1int,
                    })
                })
                &&& (media is None ==> r.code == 500 && r.msg@ == "bind stream port error"@
                    && r.invite is None)
                &&& (media is Some ==> ({
                    let q = r.invite->Some_0;
                    let srec = spec_get(final(self).store.streams(), r.stream_id)->Some_0;
                    &&& r.code == 200
                    &&& r.msg@ == "OK"@
                    &&& r.invite is Some
                    &&& srec.stream_server_ip@ == media->Some_0.0@
                    &&& srec.stream_server_port == media->Some_0.1
                    &&& q.method == SipMethod::Invite
                    &&& q.uri@ == "sip:"@ + gb_code@ + "@"@ + old(self).domain@
                    &&& q.headers@.len() == 13
                    &&& q.headers@[2].name@ == "From"@ && q.headers@[2].value@ == old(self).spec_from_value(srec.from_tag@)
                    &&& q.headers@[3].name@ == "To"@ && q.headers@[3].value@ == old(self).spec_to_value(gb_code@)
                    &&& q.headers@[5].name@ == "Call-ID"@ && q.headers@[5].value@
                        == srec.caller_id@
                    &&& exists|rand4: u32|
                        rand4 < 10000 && q.body@ == vstd::utf8::encode_utf8(
                            crate::sdp::spec_media_sdp(
                                media->Some_0.0@,
                                media->Some_0.1,
                                gb_code@,
                                setup_type@,
                                session_type,
                                start_ts,
                                stop_ts,
                                rand4,
                            ),
                        )
                }))
            }),
    {
        let caller_id = self.caller_id_str();
        let from_tag = self.tag_new(32);
        let is_live = match session_type {
            crate::sdp::SdpSessionType::Playback => false,
            _ => true,
        };
        let ir = match self.store.invite(
            gb_code,
            channel_id,
            caller_id.as_str(),
            from_tag.as_str(),
            is_live,
            now,
        ) {
            None => {
                return StartSessionResult {
                    code: 404,
                    msg: "device not found".to_owned(),
                    stream_id: 0,
                    invite: None,
                };
            },
            Some(ir) => ir,
        };
        proof {
            let st = self.store.streams();
            assert(st[st.len() - 1].0 == ir.stream_id);
            assert(has_key(st, ir.stream_id));
            crate::assoc::lemma_get_at_index(st, ir.stream_id, st.len() - 1);
        }
        let (media_ip, media_port) = match media {
            None => {
                proof {
                    lemma_get_some_iff_has_key(self.store.streams(), ir.stream_id);
                }
                return StartSessionResult {
                    code: 500,
                    msg: "bind stream port error".to_owned(),
                    stream_id: ir.stream_id,
                    invite: None,
                };
            },
            Some(m) => m,
        };
        self.store.update_stream_server_info(ir.stream_id, media_ip.as_str(), media_port);
        proof {
            lemma_get_some_iff_has_key(self.store.streams(), ir.stream_id);
        }
        let invite = self.send_invite(
            SendInviteParams {
                device_addr: ir.socket_addr,
                tcp_stream: ir.tcp_stream,
                branch: ir.branch,
                channel_id: ir.channel_id,
                caller_id,
                from_tag,
                media_server_ip: media_ip,
                media_server_port: media_port,
                session_type,
                gb_code: gb_code.to_owned(),
                setup_type: setup_type.to_owned(),
                start_ts,
                stop_ts,
            },
        );
        StartSessionResult {
            code: 200,
            msg: "OK".to_owned(),
            stream_id: ir.stream_id,
            invite: Some(invite),
        }
    }

    /// Closes a session for the operator: removes the stream, hands back
    /// the media endpoint to free, and when it was the device's last
    /// stream, yields the BYE to put on the wire.
    pub fn stop_session(&mut self, gb_code: &str, stream_id: u32) -> (r: StopSessionResult)
        requires
            old(self).store.wf(),
        ensures
            final(self).store.wf(),
            r.code == 200,
            r.msg@ == "OK"@,
            !crate::store::stream_has_code(old(self).store.streams(), stream_id, gb_code@)
                ==> *final(self) == *old(self) && r.bye is None && r.freed is None,
            crate::store::stream_has_code(old(self).store.streams(), stream_id, gb_code@) ==> ({
                let s = spec_get(old(self).store.streams(), stream_id)->Some_0;
                let oldl = spec_get(old(self).store.rev(), gb_code@);
                &&& !has_key(final(self).store.streams(), stream_id)
                &&& final(self).store.streams().len() == old(self).store.streams().len() - 1
                &&& (forall|k: u32|
                    k != stream_id ==> #[trigger] spec_get(final(self).store.streams(), k)
                        == spec_get(old(self).store.streams(), k))
                &&& final(self).store.sip_devices == old(self).store.sip_devices
                &&& *final(self) == (SipHandler { store: final(self).store, ..*old(self) })
                &&& final(self).store == (MemoryStore {
                    gb_streams: final(self).store.gb_streams,
                    gb_streams_rev: final(self).store.gb_streams_rev,
                    global_sequence: final(self).store.global_sequence,
                    ..old(self).store
                })
                &&& r.freed is Some
                &&& r.freed->Some_0.gb_code@ == gb_code@
                &&& r.freed->Some_0.stream_server_ip@ == s.stream_server_ip@
                &&& r.freed->Some_0.stream_server_port == s.stream_server_port
                &&& ((r.bye is Some) <==> (oldl->Some_0@.len() == 1 && has_key(
                    old(self).store.devices(),
                    gb_code@,
                )))
                &&& (r.bye is Some ==> ({
                    let b = r.bye->Some_0;
                    let d = spec_get(old(self).store.devices(), gb_code@)->Some_0;
                    &&& b.peer_addr@ == d.udp_client_addr@
                    &&& b.tcp_handle == d.tcp_stream_writer
                    &&& exists|q: SipRequest|
                        b.data@ == crate::sipmsg::spec_ser_request(q) && q.method
                            == SipMethod::Bye && q.uri@ == "sip:"@ + gb_code@ + "@"@ + old(self).domain@ && q.headers@.len() == 9 && q.headers@[2].name@ == "From"@
                            && q.headers@[2].value@ == old(self).spec_from_value(s.from_tag@)
                            && q.headers@[3].name@ == "To"@ && q.headers@[3].value@ == old(self).spec_to_value(gb_code@) + ";tag="@ + s.to_tag@ && q.headers@[5].name@
                            == "Call-ID"@ && q.headers@[5].value@ == s.caller_id@
                            && q.headers@[8].name@ == "Content-Length"@
                            && q.headers@[8].value@ == "0"@
                }))
            }),
    {
        let info = self.store.find_stream_info(gb_code, stream_id);
        let b = match self.store.bye(gb_code, stream_id) {
            None => {
                proof {
                    lemma_get_some_iff_has_key(old(self).store.devices(), gb_code@);
                }
                return StopSessionResult {
                    code: 200,
                    msg: "OK".to_owned(),
                    bye: None,
                    freed: info,
                };
            },
            Some(b) => b,
        };
        proof {
            lemma_get_some_iff_has_key(old(self).store.devices(), gb_code@);
        }
        let freed = info;
        if b.success {
            let transaction = SipTransaction {
                caller_id: b.caller_id,
                from_tag: b.from_tag,
                to_tag: b.to_tag,
                branch: b.branch,
            };
            let bye_req = self.send_bye(b.tcp_stream, &transaction, gb_code);
            let data = bye_req.serialize();
            StopSessionResult {
                code: 200,
                msg: "OK".to_owned(),
                bye: Some(Outbound { peer_addr: b.socket_addr, tcp_handle: b.tcp_stream, data }),
                freed,
            }
        } else {
            StopSessionResult { code: 200, msg: "OK".to_owned(), bye: None, freed }
        }
    }

    /// Takes one whole SIP message off the wire: classifies it by the
    /// leading protocol mark, raises the CSeq counters as its CSeq
    /// demands, routes it to the handler its method selects, and yields
    /// the messages to send back to the same peer. Messages that do not
    /// parse, lack a readable CSeq, or belong to stubbed methods are
    /// dropped without an answer.
    #[verifier::rlimit(100)]
    pub fn dispatch(
        &mut self,
        peer_addr: &str,
        tcp_handle: Option<u64>,
        data: &[u8],
        now: u32,
    ) -> (r: Vec<Outbound>)
        requires
            old(self).store.wf(),
        ensures
            final(self).store.wf(),
            final(self).store.register_sequence >= old(self).store.register_sequence,
            forall|i: int|
                0 <= i < r@.len() ==> (#[trigger] r@[i]).peer_addr@ == peer_addr@
                    && r@[i].tcp_handle == tcp_handle,
            (!spec_is_response(data@) && spec_parse_request(data@) is None) ==> r@.len() == 0
                && *final(self) == *old(self),
            (spec_is_response(data@) && spec_parse_response(data@) is None) ==> r@.len() == 0
                && *final(self) == *old(self),
            (!spec_is_response(data@) && spec_parse_request(data@) is Some) ==> ({
                let q = spec_parse_request(data@)->Some_0;
                let m = q.0;
                let hs = q.2;
                match spec_header_value(hs, "CSeq"@) {
                    None => r@.len() == 0 && *final(self) == *old(self),
                    Some(csv) => match spec_cseq(csv) {
                        None => r@.len() == 0 && *final(self) == *old(self),
                        Some((seq, _token_method)) => ({
                            let complete = spec_header_value(hs, "Via"@) is Some
                                && spec_header_value(hs, "From"@) is Some && spec_header_value(
                                hs,
                                "To"@,
                            ) is Some && spec_header_value(hs, "Call-ID"@) is Some;
                            &&& (m == SipMethod::Register ==> final(self).store.register_sequence == (if seq > old(self).store.register_sequence {
                                seq
                            } else {
                                old(self).store.register_sequence
                            }))
                            &&& (m != SipMethod::Register ==> final(self).store.global_sequence
                                == (if seq > old(self).store.global_sequence {
                                seq
                            } else {
                                old(self).store.global_sequence
                            }) && final(self).store.register_sequence == old(self).store.register_sequence)
                            &&& (!complete ==> r@.len() == 0 && only_sequences_changed(
                                *old(self),
                                *final(self),
                            ))
                            &&& (complete && m == SipMethod::Register ==> ({
                                let authorized = old(self).spec_register_authorized(hs);
                                &&& 1 <= r@.len() <= 2
                                &&& exists|resp: SipResponse|
                                    r@[0].data@ == crate::sipmsg::spec_ser_response(resp) && (
                                    if authorized {
                                        spec_ok_reply(hs, resp)
                                    } else {
                                        old(self).spec_challenge_reply(hs, resp)
                                    })
                                &&& (!authorized ==> r@.len() == 1 && only_sequences_changed(
                                    *old(self),
                                    *final(self),
                                ))
                                &&& (authorized ==> ({
                                    let gb = spec_uri_user(
                                        spec_header_value(hs, "From"@)->Some_0,
                                    );
                                    let exp = match spec_header_value(hs, "Expires"@) {
                                        Some(ev) => spec_expires(ev),
                                        None => None,
                                    };
                                    let inserted = (match exp {
                                        Some(e) => e > 0,
                                        None => false,
                                    }) && !has_key(old(self).store.devices(), gb);
                                    &&& ((r@.len() == 2) <==> inserted)
                                    &&& (inserted ==> exists|q2: SipRequest|
                                        r@[1].data@ == crate::sipmsg::spec_ser_request(q2)
                                            && q2.method == SipMethod::Message && q2.body@
                                            == crate::ext::gb2312_encoded(
                                            crate::manscdp::spec_query_xml(
                                                "DeviceStatus"@,
                                                final(self).store.global_sn,
                                                gb,
                                            ),
                                        ))
                                }))
                            }))
                            &&& (complete && m == SipMethod::Message ==> r@.len() == 1 && (
                            exists|resp: SipResponse|
                                r@[0].data@ == crate::sipmsg::spec_ser_response(resp)
                                    && spec_ok_reply(hs, resp)))
                            &&& (complete && m != SipMethod::Register && m != SipMethod::Message
                                ==> r@.len() == 0 && only_sequences_changed(
                                *old(self),
                                *final(self),
                            ))
                        }),
                    },
                }
            }),
            (spec_is_response(data@) && spec_parse_response(data@) is Some) ==> ({
                let p = spec_parse_response(data@)->Some_0;
                let hs = p.2;
                match spec_header_value(hs, "CSeq"@) {
                    None => r@.len() == 0 && *final(self) == *old(self),
                    Some(csv) => match spec_cseq(csv) {
                        None => r@.len() == 0 && *final(self) == *old(self),
                        Some((seq, mm)) => ({
                            let complete = spec_header_value(hs, "Via"@) is Some
                                && spec_header_value(hs, "From"@) is Some && spec_header_value(
                                hs,
                                "To"@,
                            ) is Some && spec_header_value(hs, "Call-ID"@) is Some;
                            &&& (mm == SipMethod::Register ==> final(self).store.register_sequence == (if seq > old(self).store.register_sequence {
                                seq
                            } else {
                                old(self).store.register_sequence
                            }))
                            &&& (mm != SipMethod::Register ==> final(self).store.global_sequence
                                == (if seq > old(self).store.global_sequence {
                                seq
                            } else {
                                old(self).store.global_sequence
                            }) && final(self).store.register_sequence == old(self).store.register_sequence)
                            &&& (!complete ==> r@.len() == 0 && only_sequences_changed(
                                *old(self),
                                *final(self),
                            ))
                            &&& (complete && mm != SipMethod::Invite ==> r@.len() == 0
                                && only_sequences_changed(*old(self), *final(self)))
                            &&& (complete && mm == SipMethod::Invite && p.0 != 200 ==> r@.len()
                                == 0 && only_sequences_changed(*old(self), *final(self)))
                            &&& (complete && mm == SipMethod::Invite && p.0 == 200 ==> ({
                                let cid = spec_header_value(hs, "Call-ID"@)->Some_0;
                                let acted = exists|i: int|
                                    0 <= i < old(self).store.streams().len() && (
                                    #[trigger] old(self).store.streams()[i]).1.caller_id@
                                        == cid;
                                &&& ((r@.len() == 1) <==> acted)
                                &&& (!acted ==> only_sequences_changed(
                                    *old(self),
                                    *final(self),
                                ))
                                &&& (acted ==> exists|ack: SipRequest|
                                    r@[0].data@ == crate::sipmsg::spec_ser_request(ack)
                                        && ack.method == SipMethod::Ack && ack.headers@.len()
                                        == 6 && ack.headers@[3].value@ == cid
                                        && ack.headers@[4].value@ == crate::strutil::dec_chars(
                                        seq as nat,
                                    ) + " ACK"@)
                            }))
                        }),
                    },
                }
            }),
    {
        let mut out: Vec<Outbound> = Vec::new();
        let packet = match crate::sipmsg::parse_sip_packet(data) {
            None => {
                return out;
            },
            Some(p) => p,
        };
        match packet {
            SipPacket::Request(req) => {
                let cseq_val = match crate::sipmsg::header_value(&req.headers, "CSeq") {
                    None => {
                        return out;
                    },
                    Some(v) => v,
                };
                let (seq, _m) = match parse_cseq(cseq_val.as_str()) {
                    None => {
                        return out;
                    },
                    Some(x) => x,
                };
                if seq > 0 {
                    match req.method {
                        SipMethod::Register => self.store.set_register_sequence(seq),
                        _ => self.store.set_global_sequence(seq),
                    }
                }
                let complete = {
                    let h = &req.headers;
                    crate::sipmsg::header_value(h, "Via").is_some()
                        && crate::sipmsg::header_value(h, "From").is_some()
                        && crate::sipmsg::header_value(h, "To").is_some()
                        && crate::sipmsg::header_value(h, "Call-ID").is_some()
                };
                if !complete {
                    return out;
                }
                match req.method {
                    SipMethod::Register => {
                        proof {
                            crate::sipmsg::lemma_header_value_ascii(
                                header_views(req.headers@),
                                "From"@,
                            );
                        }
                        let outcome = self.on_req_register(&req, peer_addr, tcp_handle, now);
                        let data1 = outcome.response.serialize();
                        out.push(
                            Outbound {
                                peer_addr: peer_addr.to_owned(),
                                tcp_handle,
                                data: data1,
                            },
                        );
                        match outcome.query {
                            Some(q) => {
                                let data2 = q.serialize();
                                out.push(
                                    Outbound {
                                        peer_addr: peer_addr.to_owned(),
                                        tcp_handle,
                                        data: data2,
                                    },
                                );
                            },
                            None => (),
                        }
                    },
                    SipMethod::Message => {
                        let resp = self.on_req_message(&req, now);
                        let data1 = resp.serialize();
                        out.push(
                            Outbound {
                                peer_addr: peer_addr.to_owned(),
                                tcp_handle,
                                data: data1,
                            },
                        );
                    },
                    _ => (),
                }
            },
            SipPacket::Response(resp) => {
                let cseq_val = match crate::sipmsg::header_value(&resp.headers, "CSeq") {
                    None => {
                        return out;
                    },
                    Some(v) => v,
                };
                let (seq, method) = match parse_cseq(cseq_val.as_str()) {
                    None => {
                        return out;
                    },
                    Some(x) => x,
                };
                if seq > 0 {
                    match method {
                        SipMethod::Register => self.store.set_register_sequence(seq),
                        _ => self.store.set_global_sequence(seq),
                    }
                }
                let complete = {
                    let h = &resp.headers;
                    crate::sipmsg::header_value(h, "Via").is_some()
                        && crate::sipmsg::header_value(h, "From").is_some()
                        && crate::sipmsg::header_value(h, "To").is_some()
                        && crate::sipmsg::header_value(h, "Call-ID").is_some()
                };
                if !complete {
                    return out;
                }
                let ghost mid = *self;
                proof {
                    assert(mid.store.streams() == old(self).store.streams());
                    let cid = hv(resp.headers@, "Call-ID"@)->Some_0;
                    if exists|i: int|
                        0 <= i < old(self).store.streams().len() && (
                        #[trigger] old(self).store.streams()[i]).1.caller_id@ == cid {
                        let w = choose|i: int|
                            0 <= i < old(self).store.streams().len() && (
                            #[trigger] old(self).store.streams()[i]).1.caller_id@ == cid;
                        assert((#[trigger] mid.store.streams()[w]).1.caller_id@ == cid);
                    }
                    if exists|i: int|
                        0 <= i < mid.store.streams().len() && (
                        #[trigger] mid.store.streams()[i]).1.caller_id@ == cid {
                        let w = choose|i: int|
                            0 <= i < mid.store.streams().len() && (
                            #[trigger] mid.store.streams()[i]).1.caller_id@ == cid;
                        assert((#[trigger] old(self).store.streams()[w]).1.caller_id@ == cid);
                    }
                }
                match method {
                    SipMethod::Invite => {
                        match self.on_rsp_invite(&resp) {
                            Some(ack) => {
                                let data1 = ack.serialize();
                                out.push(
                                    Outbound {
                                        peer_addr: peer_addr.to_owned(),
                                        tcp_handle,
                                        data: data1,
                                    },
                                );
                                proof {
                                    assert(out@[0].data@ == crate::sipmsg::spec_ser_request(
                                        ack,
                                    ));
                                    let hs2 = spec_parse_response(data@)->Some_0.2;
                                    assert(hs2 == header_views(resp.headers@));
                                    assert(ack.headers@[3].value@ == spec_header_value(
                                        hs2,
                                        "Call-ID"@,
                                    )->Some_0);
                                    assert(ack.headers@[4].value@
                                        == crate::strutil::dec_chars(
                                        spec_cseq(
                                            spec_header_value(hs2, "CSeq"@)->Some_0,
                                        )->Some_0.0 as nat,
                                    ) + " ACK"@);
                                }
                            },
                            None => (),
                        }
                    },
                    _ => (),
                }
            },
        }
        out
    }
}

/// Only the two CSeq counters moved between `pre` and `post`.
pub open spec fn only_sequences_changed(pre: SipHandler, post: SipHandler) -> bool {
    &&& post == (SipHandler { store: post.store, ..pre })
    &&& post.store == (MemoryStore {
        register_sequence: post.store.register_sequence,
        global_sequence: post.store.global_sequence,
        ..pre.store
    })
}

/// What `start_session` answers the operator.
#[derive(Debug)]
pub struct StartSessionResult {
    pub code: u32,
    pub msg: String,
    pub stream_id: u32,
    pub invite: Option<SipRequest>,
}

/// What `stop_session` answers the operator: the BYE to send when the
/// last stream closed, and the media endpoint to hand back.
#[derive(Debug)]
pub struct StopSessionResult {
    pub code: u32,
    pub msg: String,
    pub bye: Option<Outbound>,
    pub freed: Option<crate::store::StreamInfo>,
}


/// `out` echoes the To value `orig`: unchanged when it carried a tag, a
/// fresh 32-character tag appended when it did not.
pub open spec fn echoed_to(orig: Seq<char>, out: Seq<char>) -> bool {
    if spec_param_after(orig, ";tag="@, ';').len() > 0 {
        out == orig
    } else {
        exists|tag: Seq<char>| tag.len() == 32 && out == orig + ";tag="@ + tag
    }
}

/// The declared encoding rewritten from GB2312 or GB18030 to UTF-8: the
/// first such declaration is replaced, text without one stays as it is.
pub open spec fn spec_rewrite_prolog(s: Seq<char>) -> Seq<char> {
    match crate::strutil::spec_find_chars_from(s, "encoding=\"GB2312\""@, 0) {
        Some(p) => s.subrange(0, p) + "encoding=\"UTF-8\""@ + s.subrange(p + 17, s.len() as int),
        None => match crate::strutil::spec_find_chars_from(s, "encoding=\"GB18030\""@, 0) {
            Some(p) => s.subrange(0, p) + "encoding=\"UTF-8\""@ + s.subrange(
                p + 18,
                s.len() as int,
            ),
            None => s,
        },
    }
}

/// Rewrites the first GB2312 or GB18030 encoding declaration to UTF-8.
fn rewrite_prolog(s: String) -> (r: String)
    ensures
        r@ == spec_rewrite_prolog(s@),
{
    let text = s.as_str();
    let total = text.unicode_len();
    match crate::strutil::find_str_from(text, "encoding=\"GB2312\"", 0) {
        Some(p) => {
            proof {
                crate::strutil::lemma_find_chars_from_correct(text@, "encoding=\"GB2312\""@, 0);
                reveal_strlit("encoding=\"GB2312\"");
            }
            let mut out = crate::strutil::substring_copy(text, 0, p);
            out.append("encoding=\"UTF-8\"");
            let tail = crate::strutil::substring_copy(text, p + 17, total);
            out.append(tail.as_str());
            proof {
                assert(out@ =~= spec_rewrite_prolog(s@));
            }
            out
        },
        None => {
            match crate::strutil::find_str_from(text, "encoding=\"GB18030\"", 0) {
                Some(p) => {
                    proof {
                        crate::strutil::lemma_find_chars_from_correct(
                            text@,
                            "encoding=\"GB18030\""@,
                            0,
                        );
                        reveal_strlit("encoding=\"GB18030\"");
                    }
                    let mut out = crate::strutil::substring_copy(text, 0, p);
                    out.append("encoding=\"UTF-8\"");
                    let tail = crate::strutil::substring_copy(text, p + 18, total);
                    out.append(tail.as_str());
                    proof {
                        assert(out@ =~= spec_rewrite_prolog(s@));
                    }
                    out
                },
                None => s,
            }
        },
    }
}

/// The declared encoding rewritten from UTF-8 to GB2312, for outbound
/// bodies; the first declaration is replaced.
pub open spec fn spec_rewrite_prolog_back(s: Seq<char>) -> Seq<char> {
    match crate::strutil::spec_find_chars_from(s, "encoding=\"UTF-8\""@, 0) {
        Some(p) => s.subrange(0, p) + "encoding=\"GB2312\""@ + s.subrange(
            p + 16,
            s.len() as int,
        ),
        None => s,
    }
}

/// The prolog rewrite keeps the text inside the Basic Multilingual
/// Plane when the input is.
proof fn lemma_rewrite_back_bmp(s: Seq<char>)
    requires
        crate::ext::bmp_chars(s),
    ensures
        crate::ext::bmp_chars(spec_rewrite_prolog_back(s)),
{
    reveal_strlit("encoding=\"UTF-8\"");
    reveal_strlit("encoding=\"GB2312\"");
    match crate::strutil::spec_find_chars_from(s, "encoding=\"UTF-8\""@, 0) {
        None => {},
        Some(p) => {
            crate::strutil::lemma_find_chars_from_correct(s, "encoding=\"UTF-8\""@, 0);
            let r = spec_rewrite_prolog_back(s);
            assert forall|i: int| 0 <= i < r.len() implies ((#[trigger] r[i]) as u32)
                < 0x10000 by {
                if i < p {
                    assert(r[i] == s.subrange(0, p)[i]);
                } else if i < p + 17 {
                    assert(r[i] == "encoding=\"GB2312\""@[i - p]);
                } else {
                    assert(r[i] == s.subrange(p + 16, s.len() as int)[i - p - 17]);
                }
            }
        },
    }
}

/// Rewrites the first UTF-8 encoding declaration to GB2312.
fn rewrite_prolog_back(s: &str) -> (r: String)
    ensures
        r@ == spec_rewrite_prolog_back(s@),
{
    let total = s.unicode_len();
    match crate::strutil::find_str_from(s, "encoding=\"UTF-8\"", 0) {
        Some(p) => {
            proof {
                crate::strutil::lemma_find_chars_from_correct(s@, "encoding=\"UTF-8\""@, 0);
                reveal_strlit("encoding=\"UTF-8\"");
            }
            let mut out = crate::strutil::substring_copy(s, 0, p);
            out.append("encoding=\"GB2312\"");
            let tail = crate::strutil::substring_copy(s, p + 16, total);
            out.append(tail.as_str());
            proof {
                assert(out@ =~= spec_rewrite_prolog_back(s@));
            }
            out
        },
        None => s.to_owned(),
    }
}

} // verus!
