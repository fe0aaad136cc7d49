//! The session descriptions sent in INVITE bodies: Play, Playback,
//! Download and Talk sessions with the GB/T 28181 `y=` SSRC trailer,
//! and a reader that inverts the generator.
use crate::strutil::{
    all_digit_chars, dec_chars, dec_val_chars, digit_str, is_digit_char, lemma_dec_chars_digits,
    lemma_scan_to_intro,
    lemma_dec_chars_roundtrip, lemma_scan_to_correct, lit_at, parse_dec_str, scan_to,
    spec_scan_to, substring_copy, u64_to_string,
};
use vstd::prelude::*;

verus! {

/// The kind of media session an INVITE asks for.
#[derive(Clone, Copy, Debug, PartialEq, Eq, Structural)]
pub enum SdpSessionType {
    Play,
    Playback,
    Download,
    Talk,
}

impl SdpSessionType {
    /// The session name written on the `s=` line.
    pub fn name(&self) -> (r: &'static str)
        ensures
            r@ == spec_session_name(*self),
    {
        let r = match self {
            SdpSessionType::Play => "Play",
            SdpSessionType::Playback => "Playback",
            SdpSessionType::Download => "Download",
            SdpSessionType::Talk => "Talk",
        };
        r
    }

    /// The session type a name denotes, if any.
    pub fn from_name(s: &str) -> (r: Option<SdpSessionType>)
        ensures
            ({
                &&& (s@ == "Play"@ ==> r == Some(SdpSessionType::Play))
                &&& (s@ == "Playback"@ ==> r == Some(SdpSessionType::Playback))
                &&& (s@ == "Download"@ ==> r == Some(SdpSessionType::Download))
                &&& (s@ == "Talk"@ ==> r == Some(SdpSessionType::Talk))
                &&& (s@ != "Play"@ && s@ != "Playback"@ && s@ != "Download"@ && s@ != "Talk"@
                    ==> r is None)
            }),
    {
        proof {
            reveal_strlit("Play");
            reveal_strlit("Playback");
            reveal_strlit("Download");
            reveal_strlit("Talk");
            assert("Play"@.len() == 4 && "Playback"@.len() == 8 && "Download"@.len() == 8
                && "Talk"@.len() == 4);
            assert("Play"@ != "Playback"@ && "Play"@ != "Download"@ && "Play"@ != "Talk"@) by {
                assert("Play"@[0] != "Download"@[0]);
                assert("Play"@[0] != "Talk"@[0]);
            }
            assert("Playback"@ != "Download"@ && "Playback"@ != "Talk"@) by {
                assert("Playback"@[0] != "Download"@[0]);
            }
            assert("Download"@ != "Talk"@) by {
                assert("Download"@[0] != "Talk"@[0]);
            }
        }
        if crate::strutil::str_eq(s, "Play") {
            Some(SdpSessionType::Play)
        } else if crate::strutil::str_eq(s, "Playback") {
            Some(SdpSessionType::Playback)
        } else if crate::strutil::str_eq(s, "Download") {
            Some(SdpSessionType::Download)
        } else if crate::strutil::str_eq(s, "Talk") {
            Some(SdpSessionType::Talk)
        } else {
            None
        }
    }
}

/// The `s=` line name of each session type.
pub open spec fn spec_session_name(t: SdpSessionType) -> Seq<char> {
    match t {
        SdpSessionType::Play => "Play"@,
        SdpSessionType::Playback => "Playback"@,
        SdpSessionType::Download => "Download"@,
        SdpSessionType::Talk => "Talk"@,
    }
}

/// One decimal digit character.
pub open spec fn digit_char(k: nat) -> char {
    ((48 + k % 10) as u8) as char
}

/// `n` as exactly four digits with leading zeros.
pub open spec fn pad4(n: nat) -> Seq<char> {
    seq![
        digit_char(n / 1000),
        digit_char(n / 100),
        digit_char(n / 10),
        digit_char(n),
    ]
}

/// `n` as exactly four digits with leading zeros.
pub fn pad4_string(n: u32) -> (r: String)
    requires
        n < 10000,
    ensures
        r@ == pad4(n as nat),
{
    let mut out = String::new();
    out.append(digit_str((n / 1000) as u64 % 10));
    out.append(digit_str((n / 100) as u64 % 10));
    out.append(digit_str((n / 10) as u64 % 10));
    out.append(digit_str(n as u64 % 10));
    proof {
        assert(out@ =~= pad4(n as nat));
    }
    out
}

/// Characters allowed in a dotted-quad address.
pub open spec fn is_addr_chars(s: Seq<char>) -> bool {
    forall|i: int| 0 <= i < s.len() ==> (is_digit_char(#[trigger] s[i]) || s[i] == '.')
}

/// The `y=` SSRC trailer: `0` for live, `1` for playback, characters
/// 4 to 8 of the GB code, then four random digits — or nothing for
/// Download and Talk sessions.
pub open spec fn spec_ssrc_trailer(
    t: SdpSessionType,
    gb: Seq<char>,
    rand4: u32,
) -> Seq<char> {
    match t {
        SdpSessionType::Play => "y=0"@ + gb.subrange(4, 8) + pad4(rand4 as nat) + "\r\n"@,
        SdpSessionType::Playback => "y=1"@ + gb.subrange(4, 8) + pad4(rand4 as nat) + "\r\n"@,
        _ => Seq::<char>::empty(),
    }
}

/// The session part of a description: version, origin, name,
/// connection and timing lines.
pub open spec fn spec_sdp_head(
    ip: Seq<char>,
    gb: Seq<char>,
    t: SdpSessionType,
    start_ts: u64,
    stop_ts: u64,
) -> Seq<char> {
    "v=0\r\no="@ + gb + " 0 0 IN IP4 "@ + ip + "\r\ns="@ + spec_session_name(t)
        + "\r\nc=IN IP4 "@ + ip + "\r\nt="@ + dec_chars(start_ts as nat) + " "@ + dec_chars(
        stop_ts as nat,
    )
}

/// The media part of a description: the `m=` line, its connection, the
/// fixed attributes, the setup attributes, and the SSRC trailer.
pub open spec fn spec_sdp_tail(
    ip: Seq<char>,
    port: u16,
    gb: Seq<char>,
    setup: Seq<char>,
    t: SdpSessionType,
    rand4: u32,
) -> Seq<char> {
    "\r\nm=video "@ + dec_chars(port as nat) + (if setup.len() == 0 {
        " RTP/AVP 96 97 98 99"@
    } else {
        " TCP/RTP/AVP 96 97 98 99"@
    }) + "\r\nc=IN IP4 "@ + ip + sdp_attrs() + (if setup.len() == 0 {
        Seq::<char>::empty()
    } else {
        "\r\na=setup:"@ + setup + "\r\na=connection:new"@
    }) + "\r\n"@ + spec_ssrc_trailer(t, gb, rand4)
}

/// The whole session description the generator writes.
pub open spec fn spec_media_sdp(
    ip: Seq<char>,
    port: u16,
    gb: Seq<char>,
    setup: Seq<char>,
    t: SdpSessionType,
    start_ts: u64,
    stop_ts: u64,
    rand4: u32,
) -> Seq<char> {
    spec_sdp_head(ip, gb, t, start_ts, stop_ts) + spec_sdp_tail(ip, port, gb, setup, t, rand4)
}

/// Writes the session description for the given endpoint and session,
/// with `rand4` as the trailing SSRC digits.
#[verifier::rlimit(100)]
pub fn generate_media_sdp_with_ssrc(
    media_server_ip: &str,
    media_server_port: u16,
    device_gb_code: &str,
    setup_type: &str,
    session_type: SdpSessionType,
    start_ts: u64,
    stop_ts: u64,
    rand4: u32,
) -> (r: String)
    requires
        device_gb_code@.len() >= 8,
        rand4 < 10000,
    ensures
        r@ == spec_media_sdp(
            media_server_ip@,
            media_server_port,
            device_gb_code@,
            setup_type@,
            session_type,
            start_ts,
            stop_ts,
            rand4,
        ),
{
    let mut out = String::new();
    out.append("v=0\r\no=");
    out.append(device_gb_code);
    out.append(" 0 0 IN IP4 ");
    out.append(media_server_ip);
    out.append("\r\ns=");
    out.append(session_type.name());
    out.append("\r\nc=IN IP4 ");
    out.append(media_server_ip);
    out.append("\r\nt=");
    let start = u64_to_string(start_ts);
    out.append(start.as_str());
    out.append(" ");
    let stop = u64_to_string(stop_ts);
    out.append(stop.as_str());
    proof {
        assert(out@ =~= spec_sdp_head(
            media_server_ip@,
            device_gb_code@,
            session_type,
            start_ts,
            stop_ts,
        ));
    }
    let ghost headv = out@;
    out.append("\r\nm=video ");
    let port = u64_to_string(media_server_port as u64);
    out.append(port.as_str());
    if setup_type.is_empty() {
        out.append(" RTP/AVP 96 97 98 99");
    } else {
        out.append(" TCP/RTP/AVP 96 97 98 99");
    }
    out.append("\r\nc=IN IP4 ");
    out.append(media_server_ip);
    out.append(
        "\r\na=rtpmap:96 PS/90000\r\na=rtpmap:97 MPEG4/90000\r\na=rtpmap:98 H264/90000\r\na=rtpmap:99 H265/90000\r\na=recvonly\r\na=streamMode:MAIN",
    );
    if !setup_type.is_empty() {
        out.append("\r\na=setup:");
        out.append(setup_type);
        out.append("\r\na=connection:new");
    }
    out.append("\r\n");
    match session_type {
        SdpSessionType::Play => {
            out.append("y=0");
            let part = device_gb_code.substring_char(4, 8);
            out.append(part);
            let tail = pad4_string(rand4);
            out.append(tail.as_str());
            out.append("\r\n");
        },
        SdpSessionType::Playback => {
            out.append("y=1");
            let part = device_gb_code.substring_char(4, 8);
            out.append(part);
            let tail = pad4_string(rand4);
            out.append(tail.as_str());
            out.append("\r\n");
        },
        _ => (),
    }
    proof {
        assert(out@ =~= headv + spec_sdp_tail(
            media_server_ip@,
            media_server_port,
            device_gb_code@,
            setup_type@,
            session_type,
            rand4,
        ));
    }
    out
}

/// Writes the session description for the given endpoint and session;
/// the four trailing SSRC digits are drawn fresh.
pub fn generate_media_sdp(
    media_server_ip: &str,
    media_server_port: u16,
    device_gb_code: &str,
    setup_type: &str,
    session_type: SdpSessionType,
    start_ts: u64,
    stop_ts: u64,
) -> (r: String)
    requires
        device_gb_code@.len() >= 8,
    ensures
        exists|rand4: u32|
            rand4 < 10000 && r@ == spec_media_sdp(
                media_server_ip@,
                media_server_port,
                device_gb_code@,
                setup_type@,
                session_type,
                start_ts,
                stop_ts,
                rand4,
            ),
{
    let rand4 = crate::ext::rand_below(10000);
    let r = generate_media_sdp_with_ssrc(
        media_server_ip,
        media_server_port,
        device_gb_code,
        setup_type,
        session_type,
        start_ts,
        stop_ts,
        rand4,
    );
    r
}

/// What the reader took from a session description.
#[derive(Debug)]
pub struct SdpInfo {
    pub origin_user: String,
    pub connection_ip: String,
    pub session_name: String,
    pub start_ts: u64,
    pub stop_ts: u64,
    pub media_port: u16,
    pub is_tcp: bool,
    pub codecs: String,
    pub setup_type: String,
    pub ssrc: Option<String>,
}

/// The field views of a read session description: origin user,
/// connection address, session name, start, stop, port, TCP flag,
/// codec list, setup kind, and the `y=` SSRC.
pub open spec fn spec_parse_media_sdp(s: Seq<char>) -> Option<(Seq<char>, Seq<char>, Seq<char>, u64, u64, u16, bool, Seq<char>, Seq<char>, Option<Seq<char>>)> {
    if !crate::strutil::matches_at_chars(s, "v=0\r\no="@, 0) {
        None
    } else {
        let p1 = spec_scan_to(s, 7, ' ');
        let user = s.subrange(7, p1);
        if !crate::strutil::matches_at_chars(s, " 0 0 IN IP4 "@, p1) {
            None
        } else {
            let p2 = p1 + 12;
            let p3 = spec_scan_to(s, p2, '\r');
            let ip = s.subrange(p2, p3);
            if !crate::strutil::matches_at_chars(s, "\r\ns="@, p3) {
                None
            } else {
                let p4 = p3 + 4;
                let p5 = spec_scan_to(s, p4, '\r');
                let name = s.subrange(p4, p5);
                if !crate::strutil::matches_at_chars(s, "\r\nc=IN IP4 "@, p5) {
                    None
                } else {
                    let p6 = p5 + 11;
                    let p7 = spec_scan_to(s, p6, '\r');
                    if !crate::strutil::matches_at_chars(s, "\r\nt="@, p7) {
                        None
                    } else {
                        let p8 = p7 + 4;
                        let p9 = spec_scan_to(s, p8, ' ');
                        let startv = s.subrange(p8, p9);
                        if !(p9 < s.len() && startv.len() > 0 && all_digit_chars(startv)
                            && dec_val_chars(startv) <= u64::MAX) {
                            None
                        } else {
                            let p10 = p9 + 1;
                            let p11 = spec_scan_to(s, p10, '\r');
                            let stopv = s.subrange(p10, p11);
                            if !(stopv.len() > 0 && all_digit_chars(stopv) && dec_val_chars(
                                stopv,
                            ) <= u64::MAX) {
                                None
                            } else {
                                spec_parse_media_tail(
                                    s,
                                    p11,
                                    user,
                                    ip,
                                    name,
                                    dec_val_chars(startv) as u64,
                                    dec_val_chars(stopv) as u64,
                                )
                            }
                        }
                    }
                }
            }
        }
    }
}

/// The media part of a session description, from the `m=` line to the
/// fixed attributes.
pub open spec fn spec_parse_media_tail(
    s: Seq<char>,
    p11: int,
    user: Seq<char>,
    ip: Seq<char>,
    name: Seq<char>,
    start_ts: u64,
    stop_ts: u64,
) -> Option<(Seq<char>, Seq<char>, Seq<char>, u64, u64, u16, bool, Seq<char>, Seq<char>, Option<Seq<char>>)> {
    if !crate::strutil::matches_at_chars(s, "\r\nm=video "@, p11) {
        None
    } else {
        let p12 = p11 + 10;
        let p13 = spec_scan_to(s, p12, ' ');
        let portv = s.subrange(p12, p13);
        if !(p13 < s.len() && portv.len() > 0 && all_digit_chars(portv) && dec_val_chars(portv)
            <= u16::MAX) {
            None
        } else {
            let is_tcp = crate::strutil::matches_at_chars(s, " TCP/RTP/AVP "@, p13);
            if !(is_tcp || crate::strutil::matches_at_chars(s, " RTP/AVP "@, p13)) {
                None
            } else {
                let p14 = p13 + (if is_tcp {
                    13int
                } else {
                    9int
                });
                let p15 = spec_scan_to(s, p14, '\r');
                let codecs = s.subrange(p14, p15);
                if !crate::strutil::matches_at_chars(s, "\r\nc=IN IP4 "@, p15) {
                    None
                } else {
                    let p16 = p15 + 11;
                    let p17 = spec_scan_to(s, p16, '\r');
                    if !crate::strutil::matches_at_chars(s, sdp_attrs(), p17) {
                        None
                    } else {
                        spec_parse_media_end(
                            s,
                            p17 + sdp_attrs().len() as int,
                            user,
                            ip,
                            name,
                            start_ts,
                            stop_ts,
                            dec_val_chars(portv) as u16,
                            is_tcp,
                            codecs,
                        )
                    }
                }
            }
        }
    }
}

/// The end of a session description: setup attributes and the SSRC.
pub open spec fn spec_parse_media_end(
    s: Seq<char>,
    p18: int,
    user: Seq<char>,
    ip: Seq<char>,
    name: Seq<char>,
    start_ts: u64,
    stop_ts: u64,
    port: u16,
    is_tcp: bool,
    codecs: Seq<char>,
) -> Option<(Seq<char>, Seq<char>, Seq<char>, u64, u64, u16, bool, Seq<char>, Seq<char>, Option<Seq<char>>)> {
    let has_setup = crate::strutil::matches_at_chars(s, "\r\na=setup:"@, p18);
    let p19 = if has_setup {
        p18 + 10
    } else {
        p18
    };
    let p20 = if has_setup {
        spec_scan_to(s, p19, '\r')
    } else {
        p19
    };
    let setup = if has_setup {
        s.subrange(p19, p20)
    } else {
        Seq::<char>::empty()
    };
    if has_setup && !crate::strutil::matches_at_chars(s, "\r\na=connection:new"@, p20) {
        None
    } else {
        let p21 = if has_setup {
            p20 + 18
        } else {
            p20
        };
        if !crate::strutil::matches_at_chars(s, "\r\n"@, p21) {
            None
        } else {
            let p22 = p21 + 2;
            if crate::strutil::matches_at_chars(s, "y="@, p22) {
                let p23 = spec_scan_to(s, p22 + 2, '\r');
                if crate::strutil::matches_at_chars(s, "\r\n"@, p23) {
                    Some(
                        (
                            user,
                            ip,
                            name,
                            start_ts,
                            stop_ts,
                            port,
                            is_tcp,
                            codecs,
                            setup,
                            Some(s.subrange(p22 + 2, p23)),
                        ),
                    )
                } else {
                    None
                }
            } else {
                Some(
                    (user, ip, name, start_ts, stop_ts, port, is_tcp, codecs, setup, None),
                )
            }
        }
    }
}

/// The fixed attribute block every generated description carries.
pub open spec fn sdp_attrs() -> Seq<char> {
    "\r\na=rtpmap:96 PS/90000\r\na=rtpmap:97 MPEG4/90000\r\na=rtpmap:98 H264/90000\r\na=rtpmap:99 H265/90000\r\na=recvonly\r\na=streamMode:MAIN"@
}

/// Reads a session description of the shape the generator writes.
pub fn parse_media_sdp(s: &str) -> (r: Option<SdpInfo>)
    ensures
        match r {
            Some(info) => spec_parse_media_sdp(s@) == Some(
                (
                    info.origin_user@,
                    info.connection_ip@,
                    info.session_name@,
                    info.start_ts,
                    info.stop_ts,
                    info.media_port,
                    info.is_tcp,
                    info.codecs@,
                    info.setup_type@,
                    match info.ssrc {
                        Some(v) => Some(v@),
                        None => None,
                    },
                ),
            ),
            None => spec_parse_media_sdp(s@) is None,
        },
{
    let total = s.unicode_len();
    if !lit_at(s, 0, "v=0\r\no=") {
        proof {
            reveal_strlit("v=0\r\no=");
        }
        return None;
    }
    proof {
        reveal_strlit("v=0\r\no=");
    }
    let p1 = scan_to(s, 7, ' ');
    let user = crate::strutil::substring_copy(s, 7, p1);
    if !lit_at(s, p1, " 0 0 IN IP4 ") {
        proof {
            reveal_strlit(" 0 0 IN IP4 ");
        }
        return None;
    }
    proof {
        reveal_strlit(" 0 0 IN IP4 ");
    }
    let p2 = p1 + 12;
    let p3 = scan_to(s, p2, '\r');
    let ip = crate::strutil::substring_copy(s, p2, p3);
    if !lit_at(s, p3, "\r\ns=") {
        proof {
            reveal_strlit("\r\ns=");
        }
        return None;
    }
    proof {
        reveal_strlit("\r\ns=");
    }
    let p4 = p3 + 4;
    let p5 = scan_to(s, p4, '\r');
    let name = crate::strutil::substring_copy(s, p4, p5);
    if !lit_at(s, p5, "\r\nc=IN IP4 ") {
        proof {
            reveal_strlit("\r\nc=IN IP4 ");
        }
        return None;
    }
    proof {
        reveal_strlit("\r\nc=IN IP4 ");
    }
    let p6 = p5 + 11;
    let p7 = scan_to(s, p6, '\r');
    if !lit_at(s, p7, "\r\nt=") {
        proof {
            reveal_strlit("\r\nt=");
        }
        return None;
    }
    proof {
        reveal_strlit("\r\nt=");
    }
    let p8 = p7 + 4;
    let p9 = scan_to(s, p8, ' ');
    if !(p9 < total) {
        return None;
    }
    let start_ts = match parse_dec_str(s, p8, p9) {
        None => {
            return None;
        },
        Some(v) => v,
    };
    let p10 = p9 + 1;
    let p11 = scan_to(s, p10, '\r');
    let stop_ts = match parse_dec_str(s, p10, p11) {
        None => {
            return None;
        },
        Some(v) => v,
    };
    if !lit_at(s, p11, "\r\nm=video ") {
        proof {
            reveal_strlit("\r\nm=video ");
        }
        return None;
    }
    proof {
        reveal_strlit("\r\nm=video ");
    }
    let p12 = p11 + 10;
    let p13 = scan_to(s, p12, ' ');
    if !(p13 < total) {
        return None;
    }
    let port64 = match parse_dec_str(s, p12, p13) {
        None => {
            return None;
        },
        Some(v) => v,
    };
    if port64 > 0xffff {
        return None;
    }
    let is_tcp = lit_at(s, p13, " TCP/RTP/AVP ");
    proof {
        reveal_strlit(" TCP/RTP/AVP ");
        reveal_strlit(" RTP/AVP ");
    }
    if !is_tcp && !lit_at(s, p13, " RTP/AVP ") {
        return None;
    }
    let p14 = if is_tcp {
        p13 + 13
    } else {
        p13 + 9
    };
    let p15 = scan_to(s, p14, '\r');
    let codecs = crate::strutil::substring_copy(s, p14, p15);
    if !lit_at(s, p15, "\r\nc=IN IP4 ") {
        return None;
    }
    let p16 = p15 + 11;
    let p17 = scan_to(s, p16, '\r');
    let attrs =
        "\r\na=rtpmap:96 PS/90000\r\na=rtpmap:97 MPEG4/90000\r\na=rtpmap:98 H264/90000\r\na=rtpmap:99 H265/90000\r\na=recvonly\r\na=streamMode:MAIN";
    if !lit_at(s, p17, attrs) {
        return None;
    }
    let p18 = p17 + attrs.unicode_len();
    let has_setup = lit_at(s, p18, "\r\na=setup:");
    proof {
        reveal_strlit("\r\na=setup:");
        reveal_strlit("\r\na=connection:new");
        reveal_strlit("\r\n");
        reveal_strlit("y=");
    }
    let p19 = if has_setup {
        p18 + 10
    } else {
        p18
    };
    let p20 = if has_setup {
        scan_to(s, p19, '\r')
    } else {
        p19
    };
    let setup = if has_setup {
        crate::strutil::substring_copy(s, p19, p20)
    } else {
        String::new()
    };
    if has_setup && !lit_at(s, p20, "\r\na=connection:new") {
        return None;
    }
    let p21 = if has_setup {
        p20 + 18
    } else {
        p20
    };
    if !lit_at(s, p21, "\r\n") {
        return None;
    }
    let p22 = p21 + 2;
    let ssrc: Option<String>;
    if lit_at(s, p22, "y=") {
        let p23 = scan_to(s, p22 + 2, '\r');
        if !lit_at(s, p23, "\r\n") {
            return None;
        }
        ssrc = Some(crate::strutil::substring_copy(s, p22 + 2, p23));
    } else {
        ssrc = None;
    }
    Some(
        SdpInfo {
            origin_user: user,
            connection_ip: ip,
            session_name: name,
            start_ts,
            stop_ts,
            media_port: port64 as u16,
            is_tcp,
            codecs,
            setup_type: setup,
            ssrc,
        },
    )
}

/// The SSRC digits hold no carriage return.
proof fn lemma_ssrc_no_cr(gb: Seq<char>, rand4: u32, ssrc: Seq<char>, lead: char)
    requires
        gb.len() == 20,
        all_digit_chars(gb),
        rand4 < 10000,
        ssrc.len() == 9,
        ssrc[0] == lead,
        lead == '0' || lead == '1',
        forall|i: int| 1 <= i < 5 ==> ssrc[i] == gb.subrange(4, 8)[i - 1],
        forall|i: int| 5 <= i < 9 ==> ssrc[i] == pad4(rand4 as nat)[i - 5],
    ensures
        forall|i: int| 0 <= i < ssrc.len() ==> #[trigger] ssrc[i] != '\r',
{
    assert forall|i: int| 0 <= i < ssrc.len() implies #[trigger] ssrc[i] != '\r' by {
        if 1 <= i < 5 {
            assert(is_digit_char(gb.subrange(4, 8)[i - 1]));
        }
        if 5 <= i < 9 {
        }
    }
}

/// The head of a generated description parses down to its media tail.
#[verifier::rlimit(100)]
proof fn lemma_sdp_roundtrip_head(
    ip: Seq<char>,
    port: u16,
    gb: Seq<char>,
    setup: Seq<char>,
    t: SdpSessionType,
    start_ts: u64,
    stop_ts: u64,
    rand4: u32,
)
    requires
        ip.len() > 0,
        is_addr_chars(ip),
        gb.len() == 20,
        all_digit_chars(gb),
        setup == ""@ || setup == "active"@ || setup == "passive"@,
        rand4 < 10000,
    ensures
        ({
            let s = spec_media_sdp(ip, port, gb, setup, t, start_ts, stop_ts, rand4);
            let p11 = spec_sdp_head(ip, gb, t, start_ts, stop_ts).len() as int;
            spec_parse_media_sdp(s) == spec_parse_media_tail(
                s,
                p11,
                gb,
                ip,
                spec_session_name(t),
                start_ts,
                stop_ts,
            )
        }),
{
    reveal_strlit("v=0\r\no=");
    reveal_strlit(" 0 0 IN IP4 ");
    reveal_strlit("\r\ns=");
    reveal_strlit("\r\nc=IN IP4 ");
    reveal_strlit("\r\nt=");
    reveal_strlit(" ");
    reveal_strlit("\r\nm=video ");
    reveal_strlit("Play");
    reveal_strlit("Playback");
    reveal_strlit("Download");
    reveal_strlit("Talk");
    let s = spec_media_sdp(ip, port, gb, setup, t, start_ts, stop_ts, rand4);
    let h = spec_sdp_head(ip, gb, t, start_ts, stop_ts);
    let tl = spec_sdp_tail(ip, port, gb, setup, t, rand4);
    let name = spec_session_name(t);
    let startv = dec_chars(start_ts as nat);
    let stopv = dec_chars(stop_ts as nat);
    lemma_dec_chars_digits(start_ts as nat);
    lemma_dec_chars_digits(stop_ts as nat);
    lemma_dec_chars_roundtrip(start_ts as nat);
    lemma_dec_chars_roundtrip(stop_ts as nat);
    assert(name.len() > 0 && (forall|i: int|
        0 <= i < name.len() ==> #[trigger] name[i] != '\r' && name[i] != ' ')) by {
        match t {
            SdpSessionType::Play => {},
            SdpSessionType::Playback => {},
            SdpSessionType::Download => {},
            SdpSessionType::Talk => {},
        }
    }
    assert(s.subrange(0, h.len() as int) =~= h);
    let p1 = 7 + gb.len() as int;
    let p2 = p1 + 12;
    let p3 = p2 + ip.len() as int;
    let p4 = p3 + 4;
    let p5 = p4 + name.len() as int;
    let p6 = p5 + 11;
    let p7 = p6 + ip.len() as int;
    let p8 = p7 + 4;
    let p9 = p8 + startv.len() as int;
    let p10 = p9 + 1;
    let p11 = p10 + stopv.len() as int;
    assert(h.len() == p11);
    assert(h.subrange(0, 7) =~= "v=0\r\no="@);
    crate::strutil::lemma_prefix_subrange(h, s, 0, 7);
    assert(crate::strutil::matches_at_chars(s, "v=0\r\no="@, 0));
    assert(h.subrange(7, p1) =~= gb);
    crate::strutil::lemma_prefix_subrange(h, s, 7, p1);
    assert(h.subrange(p1, p2) =~= " 0 0 IN IP4 "@);
    crate::strutil::lemma_prefix_subrange(h, s, p1, p2);
    assert(h.subrange(p2, p3) =~= ip);
    crate::strutil::lemma_prefix_subrange(h, s, p2, p3);
    assert(h.subrange(p3, p4) =~= "\r\ns="@);
    crate::strutil::lemma_prefix_subrange(h, s, p3, p4);
    assert(h.subrange(p4, p5) =~= name);
    crate::strutil::lemma_prefix_subrange(h, s, p4, p5);
    assert(h.subrange(p5, p6) =~= "\r\nc=IN IP4 "@);
    crate::strutil::lemma_prefix_subrange(h, s, p5, p6);
    assert(h.subrange(p6, p7) =~= ip);
    crate::strutil::lemma_prefix_subrange(h, s, p6, p7);
    assert(h.subrange(p7, p8) =~= "\r\nt="@);
    crate::strutil::lemma_prefix_subrange(h, s, p7, p8);
    assert(h.subrange(p8, p9) =~= startv);
    crate::strutil::lemma_prefix_subrange(h, s, p8, p9);
    assert(h.subrange(p10, p11) =~= stopv);
    crate::strutil::lemma_prefix_subrange(h, s, p10, p11);
    assert(forall|x: int| 0 <= x < h.len() ==> s[x] == #[trigger] h[x]) by {
        assert forall|x: int| 0 <= x < h.len() implies s[x] == #[trigger] h[x] by {
            assert(s.subrange(0, h.len() as int)[x] == s[x]);
        }
    }
    assert(s[p11] == '\r') by {
        assert(s.subrange(p11, s.len() as int)[0] == s[p11]);
        assert(s.subrange(p11, s.len() as int) =~= tl);
        assert(tl[0] == '\r');
    }
    lemma_scan_to_intro(s, 7, ' ', p1);
    lemma_scan_to_intro(s, p2, '\r', p3);
    lemma_scan_to_intro(s, p4, '\r', p5);
    lemma_scan_to_intro(s, p6, '\r', p7);
    lemma_scan_to_intro(s, p8, ' ', p9);
    lemma_scan_to_intro(s, p10, '\r', p11);
}

/// Reading back a generated session description preserves the origin
/// user, the endpoint, the session name, the times, the media port and
/// transport, the codec list, the setup kind and the `y=` SSRC line.

/// The middle of a generated description parses from the `m=` line down
/// to its end part.
#[verifier::rlimit(100)]
proof fn lemma_sdp_tail_mid_rtp_play(
    ip: Seq<char>,
    port: u16,
    gb: Seq<char>,
    setup: Seq<char>,
    t: SdpSessionType,
    start_ts: u64,
    stop_ts: u64,
    rand4: u32,
)
    requires
        ip.len() > 0,
        is_addr_chars(ip),
        gb.len() == 20,
        all_digit_chars(gb),
        setup == ""@,
        t == SdpSessionType::Play,
        rand4 < 10000,
    ensures
        ({
            let s = spec_media_sdp(ip, port, gb, setup, t, start_ts, stop_ts, rand4);
            let p11 = spec_sdp_head(ip, gb, t, start_ts, stop_ts).len() as int;
            let p18 = p11 + 10 + dec_chars(port as nat).len() as int + (if setup.len() == 0 {
                9int
            } else {
                13int
            }) + 11 + 11 + ip.len() as int + sdp_attrs().len() as int;
            spec_parse_media_tail(
                s,
                p11,
                gb,
                ip,
                spec_session_name(t),
                start_ts,
                stop_ts,
            ) == spec_parse_media_end(
                s,
                p18,
                gb,
                ip,
                spec_session_name(t),
                start_ts,
                stop_ts,
                port,
                setup.len() > 0,
                "96 97 98 99"@,
            )
        }),
{
    reveal_strlit("\r\nm=video ");
    reveal_strlit(" RTP/AVP 96 97 98 99");
    reveal_strlit(" TCP/RTP/AVP 96 97 98 99");
    reveal_strlit(" RTP/AVP ");
    reveal_strlit(" TCP/RTP/AVP ");
    reveal_strlit("96 97 98 99");
    reveal_strlit("\r\nc=IN IP4 ");
    reveal_strlit(
        "\r\na=rtpmap:96 PS/90000\r\na=rtpmap:97 MPEG4/90000\r\na=rtpmap:98 H264/90000\r\na=rtpmap:99 H265/90000\r\na=recvonly\r\na=streamMode:MAIN",
    );
    reveal_strlit("active");
    reveal_strlit("passive");
    reveal_strlit("");
    let s = spec_media_sdp(ip, port, gb, setup, t, start_ts, stop_ts, rand4);
    let h = spec_sdp_head(ip, gb, t, start_ts, stop_ts);
    let tl = spec_sdp_tail(ip, port, gb, setup, t, rand4);
    let portv = dec_chars(port as nat);
    lemma_dec_chars_digits(port as nat);
    lemma_dec_chars_roundtrip(port as nat);
    let p11 = h.len() as int;
    assert(s.subrange(p11, s.len() as int) =~= tl);
    crate::strutil::lemma_suffix_index(tl, s, p11);
    let q12 = 10int;
    let q13 = q12 + portv.len() as int;
    let q14 = q13 + (if setup.len() == 0 {
        9int
    } else {
        13int
    });
    let q15 = q14 + 11;
    let q16 = q15 + 11;
    let q17 = q16 + ip.len() as int;
    let q18 = q17 + sdp_attrs().len() as int;
    assert(tl.subrange(0, q12) =~= "\r\nm=video "@);
    crate::strutil::lemma_suffix_subrange(tl, s, p11, 0, q12);
    assert(tl.subrange(q12, q13) =~= portv);
    crate::strutil::lemma_suffix_subrange(tl, s, p11, q12, q13);
    lemma_scan_to_intro(s, p11 + q12, ' ', p11 + q13);
    if setup.len() == 0 {
        assert(tl.subrange(q13, q13 + 9) =~= " RTP/AVP "@);
        crate::strutil::lemma_suffix_subrange(tl, s, p11, q13, q13 + 9);
        assert(!crate::strutil::matches_at_chars(s, " TCP/RTP/AVP "@, p11 + q13)) by {
            if crate::strutil::matches_at_chars(s, " TCP/RTP/AVP "@, p11 + q13) {
                assert(s.subrange(p11 + q13, p11 + q13 + 13)[1] == s[p11 + q13 + 1]);
                assert(s.subrange(p11 + q13, p11 + q13 + 9)[1] == s[p11 + q13 + 1]);
                assert(false);
            }
        }
    } else {
        assert(tl.subrange(q13, q13 + 13) =~= " TCP/RTP/AVP "@);
        crate::strutil::lemma_suffix_subrange(tl, s, p11, q13, q13 + 13);
    }
    assert(tl.subrange(q14, q14 + 11) =~= "96 97 98 99"@);
    crate::strutil::lemma_suffix_subrange(tl, s, p11, q14, q14 + 11);
    lemma_scan_to_intro(s, p11 + q14, '\r', p11 + q15);
    assert(tl.subrange(q15, q15 + 11) =~= "\r\nc=IN IP4 "@);
    crate::strutil::lemma_suffix_subrange(tl, s, p11, q15, q15 + 11);
    assert(tl.subrange(q16, q17) =~= ip);
    crate::strutil::lemma_suffix_subrange(tl, s, p11, q16, q17);
    lemma_scan_to_intro(s, p11 + q16, '\r', p11 + q17);
    assert(tl.subrange(q17, q18) =~= sdp_attrs());
    crate::strutil::lemma_suffix_subrange(tl, s, p11, q17, q18);
}
/// The middle of a generated description parses from the `m=` line down
/// to its end part.
#[verifier::rlimit(100)]
proof fn lemma_sdp_tail_mid_rtp_playback(
    ip: Seq<char>,
    port: u16,
    gb: Seq<char>,
    setup: Seq<char>,
    t: SdpSessionType,
    start_ts: u64,
    stop_ts: u64,
    rand4: u32,
)
    requires
        ip.len() > 0,
        is_addr_chars(ip),
        gb.len() == 20,
        all_digit_chars(gb),
        setup == ""@,
        t == SdpSessionType::Playback,
        rand4 < 10000,
    ensures
        ({
            let s = spec_media_sdp(ip, port, gb, setup, t, start_ts, stop_ts, rand4);
            let p11 = spec_sdp_head(ip, gb, t, start_ts, stop_ts).len() as int;
            let p18 = p11 + 10 + dec_chars(port as nat).len() as int + (if setup.len() == 0 {
                9int
            } else {
                13int
            }) + 11 + 11 + ip.len() as int + sdp_attrs().len() as int;
            spec_parse_media_tail(
                s,
                p11,
                gb,
                ip,
                spec_session_name(t),
                start_ts,
                stop_ts,
            ) == spec_parse_media_end(
                s,
                p18,
                gb,
                ip,
                spec_session_name(t),
                start_ts,
                stop_ts,
                port,
                setup.len() > 0,
                "96 97 98 99"@,
            )
        }),
{
    reveal_strlit("\r\nm=video ");
    reveal_strlit(" RTP/AVP 96 97 98 99");
    reveal_strlit(" TCP/RTP/AVP 96 97 98 99");
    reveal_strlit(" RTP/AVP ");
    reveal_strlit(" TCP/RTP/AVP ");
    reveal_strlit("96 97 98 99");
    reveal_strlit("\r\nc=IN IP4 ");
    reveal_strlit(
        "\r\na=rtpmap:96 PS/90000\r\na=rtpmap:97 MPEG4/90000\r\na=rtpmap:98 H264/90000\r\na=rtpmap:99 H265/90000\r\na=recvonly\r\na=streamMode:MAIN",
    );
    reveal_strlit("active");
    reveal_strlit("passive");
    reveal_strlit("");
    let s = spec_media_sdp(ip, port, gb, setup, t, start_ts, stop_ts, rand4);
    let h = spec_sdp_head(ip, gb, t, start_ts, stop_ts);
    let tl = spec_sdp_tail(ip, port, gb, setup, t, rand4);
    let portv = dec_chars(port as nat);
    lemma_dec_chars_digits(port as nat);
    lemma_dec_chars_roundtrip(port as nat);
    let p11 = h.len() as int;
    assert(s.subrange(p11, s.len() as int) =~= tl);
    crate::strutil::lemma_suffix_index(tl, s, p11);
    let q12 = 10int;
    let q13 = q12 + portv.len() as int;
    let q14 = q13 + (if setup.len() == 0 {
        9int
    } else {
        13int
    });
    let q15 = q14 + 11;
    let q16 = q15 + 11;
    let q17 = q16 + ip.len() as int;
    let q18 = q17 + sdp_attrs().len() as int;
    assert(tl.subrange(0, q12) =~= "\r\nm=video "@);
    crate::strutil::lemma_suffix_subrange(tl, s, p11, 0, q12);
    assert(tl.subrange(q12, q13) =~= portv);
    crate::strutil::lemma_suffix_subrange(tl, s, p11, q12, q13);
    lemma_scan_to_intro(s, p11 + q12, ' ', p11 + q13);
    if setup.len() == 0 {
        assert(tl.subrange(q13, q13 + 9) =~= " RTP/AVP "@);
        crate::strutil::lemma_suffix_subrange(tl, s, p11, q13, q13 + 9);
        assert(!crate::strutil::matches_at_chars(s, " TCP/RTP/AVP "@, p11 + q13)) by {
            if crate::strutil::matches_at_chars(s, " TCP/RTP/AVP "@, p11 + q13) {
                assert(s.subrange(p11 + q13, p11 + q13 + 13)[1] == s[p11 + q13 + 1]);
                assert(s.subrange(p11 + q13, p11 + q13 + 9)[1] == s[p11 + q13 + 1]);
                assert(false);
            }
        }
    } else {
        assert(tl.subrange(q13, q13 + 13) =~= " TCP/RTP/AVP "@);
        crate::strutil::lemma_suffix_subrange(tl, s, p11, q13, q13 + 13);
    }
    assert(tl.subrange(q14, q14 + 11) =~= "96 97 98 99"@);
    crate::strutil::lemma_suffix_subrange(tl, s, p11, q14, q14 + 11);
    lemma_scan_to_intro(s, p11 + q14, '\r', p11 + q15);
    assert(tl.subrange(q15, q15 + 11) =~= "\r\nc=IN IP4 "@);
    crate::strutil::lemma_suffix_subrange(tl, s, p11, q15, q15 + 11);
    assert(tl.subrange(q16, q17) =~= ip);
    crate::strutil::lemma_suffix_subrange(tl, s, p11, q16, q17);
    lemma_scan_to_intro(s, p11 + q16, '\r', p11 + q17);
    assert(tl.subrange(q17, q18) =~= sdp_attrs());
    crate::strutil::lemma_suffix_subrange(tl, s, p11, q17, q18);
}
/// The middle of a generated description parses from the `m=` line down
/// to its end part.
#[verifier::rlimit(100)]
proof fn lemma_sdp_tail_mid_rtp_download(
    ip: Seq<char>,
    port: u16,
    gb: Seq<char>,
    setup: Seq<char>,
    t: SdpSessionType,
    start_ts: u64,
    stop_ts: u64,
    rand4: u32,
)
    requires
        ip.len() > 0,
        is_addr_chars(ip),
        gb.len() == 20,
        all_digit_chars(gb),
        setup == ""@,
        t == SdpSessionType::Download,
        rand4 < 10000,
    ensures
        ({
            let s = spec_media_sdp(ip, port, gb, setup, t, start_ts, stop_ts, rand4);
            let p11 = spec_sdp_head(ip, gb, t, start_ts, stop_ts).len() as int;
            let p18 = p11 + 10 + dec_chars(port as nat).len() as int + (if setup.len() == 0 {
                9int
            } else {
                13int
            }) + 11 + 11 + ip.len() as int + sdp_attrs().len() as int;
            spec_parse_media_tail(
                s,
                p11,
                gb,
                ip,
                spec_session_name(t),
                start_ts,
                stop_ts,
            ) == spec_parse_media_end(
                s,
                p18,
                gb,
                ip,
                spec_session_name(t),
                start_ts,
                stop_ts,
                port,
                setup.len() > 0,
                "96 97 98 99"@,
            )
        }),
{
    reveal_strlit("\r\nm=video ");
    reveal_strlit(" RTP/AVP 96 97 98 99");
    reveal_strlit(" TCP/RTP/AVP 96 97 98 99");
    reveal_strlit(" RTP/AVP ");
    reveal_strlit(" TCP/RTP/AVP ");
    reveal_strlit("96 97 98 99");
    reveal_strlit("\r\nc=IN IP4 ");
    reveal_strlit(
        "\r\na=rtpmap:96 PS/90000\r\na=rtpmap:97 MPEG4/90000\r\na=rtpmap:98 H264/90000\r\na=rtpmap:99 H265/90000\r\na=recvonly\r\na=streamMode:MAIN",
    );
    reveal_strlit("active");
    reveal_strlit("passive");
    reveal_strlit("");
    let s = spec_media_sdp(ip, port, gb, setup, t, start_ts, stop_ts, rand4);
    let h = spec_sdp_head(ip, gb, t, start_ts, stop_ts);
    let tl = spec_sdp_tail(ip, port, gb, setup, t, rand4);
    let portv = dec_chars(port as nat);
    lemma_dec_chars_digits(port as nat);
    lemma_dec_chars_roundtrip(port as nat);
    let p11 = h.len() as int;
    assert(s.subrange(p11, s.len() as int) =~= tl);
    crate::strutil::lemma_suffix_index(tl, s, p11);
    let q12 = 10int;
    let q13 = q12 + portv.len() as int;
    let q14 = q13 + (if setup.len() == 0 {
        9int
    } else {
        13int
    });
    let q15 = q14 + 11;
    let q16 = q15 + 11;
    let q17 = q16 + ip.len() as int;
    let q18 = q17 + sdp_attrs().len() as int;
    assert(tl.subrange(0, q12) =~= "\r\nm=video "@);
    crate::strutil::lemma_suffix_subrange(tl, s, p11, 0, q12);
    assert(tl.subrange(q12, q13) =~= portv);
    crate::strutil::lemma_suffix_subrange(tl, s, p11, q12, q13);
    lemma_scan_to_intro(s, p11 + q12, ' ', p11 + q13);
    if setup.len() == 0 {
        assert(tl.subrange(q13, q13 + 9) =~= " RTP/AVP "@);
        crate::strutil::lemma_suffix_subrange(tl, s, p11, q13, q13 + 9);
        assert(!crate::strutil::matches_at_chars(s, " TCP/RTP/AVP "@, p11 + q13)) by {
            if crate::strutil::matches_at_chars(s, " TCP/RTP/AVP "@, p11 + q13) {
                assert(s.subrange(p11 + q13, p11 + q13 + 13)[1] == s[p11 + q13 + 1]);
                assert(s.subrange(p11 + q13, p11 + q13 + 9)[1] == s[p11 + q13 + 1]);
                assert(false);
            }
        }
    } else {
        assert(tl.subrange(q13, q13 + 13) =~= " TCP/RTP/AVP "@);
        crate::strutil::lemma_suffix_subrange(tl, s, p11, q13, q13 + 13);
    }
    assert(tl.subrange(q14, q14 + 11) =~= "96 97 98 99"@);
    crate::strutil::lemma_suffix_subrange(tl, s, p11, q14, q14 + 11);
    lemma_scan_to_intro(s, p11 + q14, '\r', p11 + q15);
    assert(tl.subrange(q15, q15 + 11) =~= "\r\nc=IN IP4 "@);
    crate::strutil::lemma_suffix_subrange(tl, s, p11, q15, q15 + 11);
    assert(tl.subrange(q16, q17) =~= ip);
    crate::strutil::lemma_suffix_subrange(tl, s, p11, q16, q17);
    lemma_scan_to_intro(s, p11 + q16, '\r', p11 + q17);
    assert(tl.subrange(q17, q18) =~= sdp_attrs());
    crate::strutil::lemma_suffix_subrange(tl, s, p11, q17, q18);
}
/// The middle of a generated description parses from the `m=` line down
/// to its end part.
#[verifier::rlimit(100)]
proof fn lemma_sdp_tail_mid_rtp_talk(
    ip: Seq<char>,
    port: u16,
    gb: Seq<char>,
    setup: Seq<char>,
    t: SdpSessionType,
    start_ts: u64,
    stop_ts: u64,
    rand4: u32,
)
    requires
        ip.len() > 0,
        is_addr_chars(ip),
        gb.len() == 20,
        all_digit_chars(gb),
        setup == ""@,
        t == SdpSessionType::Talk,
        rand4 < 10000,
    ensures
        ({
            let s = spec_media_sdp(ip, port, gb, setup, t, start_ts, stop_ts, rand4);
            let p11 = spec_sdp_head(ip, gb, t, start_ts, stop_ts).len() as int;
            let p18 = p11 + 10 + dec_chars(port as nat).len() as int + (if setup.len() == 0 {
                9int
            } else {
                13int
            }) + 11 + 11 + ip.len() as int + sdp_attrs().len() as int;
            spec_parse_media_tail(
                s,
                p11,
                gb,
                ip,
                spec_session_name(t),
                start_ts,
                stop_ts,
            ) == spec_parse_media_end(
                s,
                p18,
                gb,
                ip,
                spec_session_name(t),
                start_ts,
                stop_ts,
                port,
                setup.len() > 0,
                "96 97 98 99"@,
            )
        }),
{
    reveal_strlit("\r\nm=video ");
    reveal_strlit(" RTP/AVP 96 97 98 99");
    reveal_strlit(" TCP/RTP/AVP 96 97 98 99");
    reveal_strlit(" RTP/AVP ");
    reveal_strlit(" TCP/RTP/AVP ");
    reveal_strlit("96 97 98 99");
    reveal_strlit("\r\nc=IN IP4 ");
    reveal_strlit(
        "\r\na=rtpmap:96 PS/90000\r\na=rtpmap:97 MPEG4/90000\r\na=rtpmap:98 H264/90000\r\na=rtpmap:99 H265/90000\r\na=recvonly\r\na=streamMode:MAIN",
    );
    reveal_strlit("active");
    reveal_strlit("passive");
    reveal_strlit("");
    let s = spec_media_sdp(ip, port, gb, setup, t, start_ts, stop_ts, rand4);
    let h = spec_sdp_head(ip, gb, t, start_ts, stop_ts);
    let tl = spec_sdp_tail(ip, port, gb, setup, t, rand4);
    let portv = dec_chars(port as nat);
    lemma_dec_chars_digits(port as nat);
    lemma_dec_chars_roundtrip(port as nat);
    let p11 = h.len() as int;
    assert(s.subrange(p11, s.len() as int) =~= tl);
    crate::strutil::lemma_suffix_index(tl, s, p11);
    let q12 = 10int;
    let q13 = q12 + portv.len() as int;
    let q14 = q13 + (if setup.len() == 0 {
        9int
    } else {
        13int
    });
    let q15 = q14 + 11;
    let q16 = q15 + 11;
    let q17 = q16 + ip.len() as int;
    let q18 = q17 + sdp_attrs().len() as int;
    assert(tl.subrange(0, q12) =~= "\r\nm=video "@);
    crate::strutil::lemma_suffix_subrange(tl, s, p11, 0, q12);
    assert(tl.subrange(q12, q13) =~= portv);
    crate::strutil::lemma_suffix_subrange(tl, s, p11, q12, q13);
    lemma_scan_to_intro(s, p11 + q12, ' ', p11 + q13);
    if setup.len() == 0 {
        assert(tl.subrange(q13, q13 + 9) =~= " RTP/AVP "@);
        crate::strutil::lemma_suffix_subrange(tl, s, p11, q13, q13 + 9);
        assert(!crate::strutil::matches_at_chars(s, " TCP/RTP/AVP "@, p11 + q13)) by {
            if crate::strutil::matches_at_chars(s, " TCP/RTP/AVP "@, p11 + q13) {
                assert(s.subrange(p11 + q13, p11 + q13 + 13)[1] == s[p11 + q13 + 1]);
                assert(s.subrange(p11 + q13, p11 + q13 + 9)[1] == s[p11 + q13 + 1]);
                assert(false);
            }
        }
    } else {
        assert(tl.subrange(q13, q13 + 13) =~= " TCP/RTP/AVP "@);
        crate::strutil::lemma_suffix_subrange(tl, s, p11, q13, q13 + 13);
    }
    assert(tl.subrange(q14, q14 + 11) =~= "96 97 98 99"@);
    crate::strutil::lemma_suffix_subrange(tl, s, p11, q14, q14 + 11);
    lemma_scan_to_intro(s, p11 + q14, '\r', p11 + q15);
    assert(tl.subrange(q15, q15 + 11) =~= "\r\nc=IN IP4 "@);
    crate::strutil::lemma_suffix_subrange(tl, s, p11, q15, q15 + 11);
    assert(tl.subrange(q16, q17) =~= ip);
    crate::strutil::lemma_suffix_subrange(tl, s, p11, q16, q17);
    lemma_scan_to_intro(s, p11 + q16, '\r', p11 + q17);
    assert(tl.subrange(q17, q18) =~= sdp_attrs());
    crate::strutil::lemma_suffix_subrange(tl, s, p11, q17, q18);
}
/// The middle of a generated description parses from the `m=` line down
/// to its end part.
proof fn lemma_sdp_tail_mid_rtp(
    ip: Seq<char>,
    port: u16,
    gb: Seq<char>,
    setup: Seq<char>,
    t: SdpSessionType,
    start_ts: u64,
    stop_ts: u64,
    rand4: u32,
)
    requires
        ip.len() > 0,
        is_addr_chars(ip),
        gb.len() == 20,
        all_digit_chars(gb),
        setup == ""@,
        rand4 < 10000,
    ensures
        ({
            let s = spec_media_sdp(ip, port, gb, setup, t, start_ts, stop_ts, rand4);
            let p11 = spec_sdp_head(ip, gb, t, start_ts, stop_ts).len() as int;
            let p18 = p11 + 10 + dec_chars(port as nat).len() as int + (if setup.len() == 0 {
                9int
            } else {
                13int
            }) + 11 + 11 + ip.len() as int + sdp_attrs().len() as int;
            spec_parse_media_tail(
                s,
                p11,
                gb,
                ip,
                spec_session_name(t),
                start_ts,
                stop_ts,
            ) == spec_parse_media_end(
                s,
                p18,
                gb,
                ip,
                spec_session_name(t),
                start_ts,
                stop_ts,
                port,
                setup.len() > 0,
                "96 97 98 99"@,
            )
        }),
{
    match t {
        SdpSessionType::Play => lemma_sdp_tail_mid_rtp_play(ip, port, gb, setup, t, start_ts, stop_ts, rand4),
        SdpSessionType::Playback => lemma_sdp_tail_mid_rtp_playback(ip, port, gb, setup, t, start_ts, stop_ts, rand4),
        SdpSessionType::Download => lemma_sdp_tail_mid_rtp_download(ip, port, gb, setup, t, start_ts, stop_ts, rand4),
        SdpSessionType::Talk => lemma_sdp_tail_mid_rtp_talk(ip, port, gb, setup, t, start_ts, stop_ts, rand4),
    }
}


/// The end part of a generated description yields its fields.
#[verifier::rlimit(100)]
proof fn lemma_sdp_end_no_setup_play(
    ip: Seq<char>,
    port: u16,
    gb: Seq<char>,
    setup: Seq<char>,
    t: SdpSessionType,
    start_ts: u64,
    stop_ts: u64,
    rand4: u32,
)
    requires
        ip.len() > 0,
        is_addr_chars(ip),
        gb.len() == 20,
        all_digit_chars(gb),
        setup == ""@,
        t == SdpSessionType::Play,
        rand4 < 10000,
    ensures
        ({
            let s = spec_media_sdp(ip, port, gb, setup, t, start_ts, stop_ts, rand4);
            let p11 = spec_sdp_head(ip, gb, t, start_ts, stop_ts).len() as int;
            let p18 = p11 + 10 + dec_chars(port as nat).len() as int + (if setup.len() == 0 {
                9int
            } else {
                13int
            }) + 11 + 11 + ip.len() as int + sdp_attrs().len() as int;
            spec_parse_media_end(
                s,
                p18,
                gb,
                ip,
                spec_session_name(t),
                start_ts,
                stop_ts,
                port,
                setup.len() > 0,
                "96 97 98 99"@,
            ) == Some(
                (
                    gb,
                    ip,
                    spec_session_name(t),
                    start_ts,
                    stop_ts,
                    port,
                    setup.len() > 0,
                    "96 97 98 99"@,
                    setup,
                    match t {
                        SdpSessionType::Play => Some(
                            "0"@ + gb.subrange(4, 8) + pad4(rand4 as nat),
                        ),
                        SdpSessionType::Playback => Some(
                            "1"@ + gb.subrange(4, 8) + pad4(rand4 as nat),
                        ),
                        _ => None,
                    },
                ),
            )
        }),
{
    reveal_strlit("\r\na=setup:");
    reveal_strlit("active");
    reveal_strlit("passive");
    reveal_strlit("");
    reveal_strlit("\r\na=connection:new");
    reveal_strlit("\r\n");
    reveal_strlit("y=");
    reveal_strlit("y=0");
    reveal_strlit("y=1");
    reveal_strlit("0");
    reveal_strlit("1");
    reveal_strlit("\r\nm=video ");
    reveal_strlit(" RTP/AVP 96 97 98 99");
    reveal_strlit(" TCP/RTP/AVP 96 97 98 99");
    reveal_strlit("\r\nc=IN IP4 ");
    reveal_strlit(
        "\r\na=rtpmap:96 PS/90000\r\na=rtpmap:97 MPEG4/90000\r\na=rtpmap:98 H264/90000\r\na=rtpmap:99 H265/90000\r\na=recvonly\r\na=streamMode:MAIN",
    );
    let s = spec_media_sdp(ip, port, gb, setup, t, start_ts, stop_ts, rand4);
    let h = spec_sdp_head(ip, gb, t, start_ts, stop_ts);
    let tl = spec_sdp_tail(ip, port, gb, setup, t, rand4);
    let portv = dec_chars(port as nat);
    lemma_dec_chars_digits(port as nat);
    let p11 = h.len() as int;
    assert(s.subrange(p11, s.len() as int) =~= tl);
    crate::strutil::lemma_suffix_index(tl, s, p11);
    let setupblock = if setup.len() == 0 {
        Seq::<char>::empty()
    } else {
        "\r\na=setup:"@ + setup + "\r\na=connection:new"@
    };
    let q18 = 10 + portv.len() as int + (if setup.len() == 0 {
        9int
    } else {
        13int
    }) + 11 + 11 + ip.len() as int + sdp_attrs().len() as int;
    let q21 = q18 + setupblock.len() as int;
    let q22 = q21 + 2;
    assert(s.len() == p11 + tl.len());
    assert(tl.subrange(q21, q22) =~= "\r\n"@);
    crate::strutil::lemma_suffix_subrange(tl, s, p11, q21, q22);
    assert(!crate::strutil::matches_at_chars(s, "\r\na=setup:"@, p11 + q18)) by {
        if crate::strutil::matches_at_chars(s, "\r\na=setup:"@, p11 + q18) {
            assert(s.subrange(p11 + q18, p11 + q18 + 10)[2] == s[p11 + q18 + 2]);
            assert(tl[q22] == 'y');
            assert(false);
        }
    }
    {
        let ssrc = "0"@ + gb.subrange(4, 8) + pad4(rand4 as nat);
        assert(ssrc.len() == 9 && ssrc[0] == '0');
        assert(forall|i: int| 1 <= i < 5 ==> ssrc[i] == gb.subrange(4, 8)[i - 1]);
        assert(forall|i: int| 5 <= i < 9 ==> ssrc[i] == pad4(rand4 as nat)[i - 5]);
        lemma_ssrc_no_cr(gb, rand4, ssrc, '0');
        assert(tl.subrange(q22, q22 + 2) =~= "y="@);
        crate::strutil::lemma_suffix_subrange(tl, s, p11, q22, q22 + 2);
        assert(tl.subrange(q22 + 2, q22 + 11) =~= ssrc);
        crate::strutil::lemma_suffix_subrange(tl, s, p11, q22 + 2, q22 + 11);
        lemma_scan_to_intro(s, p11 + q22 + 2, '\r', p11 + q22 + 11);
        assert(tl.subrange(q22 + 11, q22 + 13) =~= "\r\n"@);
        crate::strutil::lemma_suffix_subrange(tl, s, p11, q22 + 11, q22 + 13);
    }
}

/// The end part of a generated description yields its fields.
#[verifier::rlimit(100)]
proof fn lemma_sdp_end_no_setup_playback(
    ip: Seq<char>,
    port: u16,
    gb: Seq<char>,
    setup: Seq<char>,
    t: SdpSessionType,
    start_ts: u64,
    stop_ts: u64,
    rand4: u32,
)
    requires
        ip.len() > 0,
        is_addr_chars(ip),
        gb.len() == 20,
        all_digit_chars(gb),
        setup == ""@,
        t == SdpSessionType::Playback,
        rand4 < 10000,
    ensures
        ({
            let s = spec_media_sdp(ip, port, gb, setup, t, start_ts, stop_ts, rand4);
            let p11 = spec_sdp_head(ip, gb, t, start_ts, stop_ts).len() as int;
            let p18 = p11 + 10 + dec_chars(port as nat).len() as int + (if setup.len() == 0 {
                9int
            } else {
                13int
            }) + 11 + 11 + ip.len() as int + sdp_attrs().len() as int;
            spec_parse_media_end(
                s,
                p18,
                gb,
                ip,
                spec_session_name(t),
                start_ts,
                stop_ts,
                port,
                setup.len() > 0,
                "96 97 98 99"@,
            ) == Some(
                (
                    gb,
                    ip,
                    spec_session_name(t),
                    start_ts,
                    stop_ts,
                    port,
                    setup.len() > 0,
                    "96 97 98 99"@,
                    setup,
                    match t {
                        SdpSessionType::Play => Some(
                            "0"@ + gb.subrange(4, 8) + pad4(rand4 as nat),
                        ),
                        SdpSessionType::Playback => Some(
                            "1"@ + gb.subrange(4, 8) + pad4(rand4 as nat),
                        ),
                        _ => None,
                    },
                ),
            )
        }),
{
    reveal_strlit("\r\na=setup:");
    reveal_strlit("active");
    reveal_strlit("passive");
    reveal_strlit("");
    reveal_strlit("\r\na=connection:new");
    reveal_strlit("\r\n");
    reveal_strlit("y=");
    reveal_strlit("y=0");
    reveal_strlit("y=1");
    reveal_strlit("0");
    reveal_strlit("1");
    reveal_strlit("\r\nm=video ");
    reveal_strlit(" RTP/AVP 96 97 98 99");
    reveal_strlit(" TCP/RTP/AVP 96 97 98 99");
    reveal_strlit("\r\nc=IN IP4 ");
    reveal_strlit(
        "\r\na=rtpmap:96 PS/90000\r\na=rtpmap:97 MPEG4/90000\r\na=rtpmap:98 H264/90000\r\na=rtpmap:99 H265/90000\r\na=recvonly\r\na=streamMode:MAIN",
    );
    let s = spec_media_sdp(ip, port, gb, setup, t, start_ts, stop_ts, rand4);
    let h = spec_sdp_head(ip, gb, t, start_ts, stop_ts);
    let tl = spec_sdp_tail(ip, port, gb, setup, t, rand4);
    let portv = dec_chars(port as nat);
    lemma_dec_chars_digits(port as nat);
    let p11 = h.len() as int;
    assert(s.subrange(p11, s.len() as int) =~= tl);
    crate::strutil::lemma_suffix_index(tl, s, p11);
    let setupblock = if setup.len() == 0 {
        Seq::<char>::empty()
    } else {
        "\r\na=setup:"@ + setup + "\r\na=connection:new"@
    };
    let q18 = 10 + portv.len() as int + (if setup.len() == 0 {
        9int
    } else {
        13int
    }) + 11 + 11 + ip.len() as int + sdp_attrs().len() as int;
    let q21 = q18 + setupblock.len() as int;
    let q22 = q21 + 2;
    assert(s.len() == p11 + tl.len());
    assert(tl.subrange(q21, q22) =~= "\r\n"@);
    crate::strutil::lemma_suffix_subrange(tl, s, p11, q21, q22);
    assert(!crate::strutil::matches_at_chars(s, "\r\na=setup:"@, p11 + q18)) by {
        if crate::strutil::matches_at_chars(s, "\r\na=setup:"@, p11 + q18) {
            assert(s.subrange(p11 + q18, p11 + q18 + 10)[2] == s[p11 + q18 + 2]);
            assert(tl[q22] == 'y');
            assert(false);
        }
    }
    {
        let ssrc = "1"@ + gb.subrange(4, 8) + pad4(rand4 as nat);
        assert(ssrc.len() == 9 && ssrc[0] == '1');
        assert(forall|i: int| 1 <= i < 5 ==> ssrc[i] == gb.subrange(4, 8)[i - 1]);
        assert(forall|i: int| 5 <= i < 9 ==> ssrc[i] == pad4(rand4 as nat)[i - 5]);
        lemma_ssrc_no_cr(gb, rand4, ssrc, '1');
        assert(tl.subrange(q22, q22 + 2) =~= "y="@);
        crate::strutil::lemma_suffix_subrange(tl, s, p11, q22, q22 + 2);
        assert(tl.subrange(q22 + 2, q22 + 11) =~= ssrc);
        crate::strutil::lemma_suffix_subrange(tl, s, p11, q22 + 2, q22 + 11);
        lemma_scan_to_intro(s, p11 + q22 + 2, '\r', p11 + q22 + 11);
        assert(tl.subrange(q22 + 11, q22 + 13) =~= "\r\n"@);
        crate::strutil::lemma_suffix_subrange(tl, s, p11, q22 + 11, q22 + 13);
    }
}

/// The end part of a generated description yields its fields.
#[verifier::rlimit(100)]
proof fn lemma_sdp_end_no_setup_download(
    ip: Seq<char>,
    port: u16,
    gb: Seq<char>,
    setup: Seq<char>,
    t: SdpSessionType,
    start_ts: u64,
    stop_ts: u64,
    rand4: u32,
)
    requires
        ip.len() > 0,
        is_addr_chars(ip),
        gb.len() == 20,
        all_digit_chars(gb),
        setup == ""@,
        t == SdpSessionType::Download,
        rand4 < 10000,
    ensures
        ({
            let s = spec_media_sdp(ip, port, gb, setup, t, start_ts, stop_ts, rand4);
            let p11 = spec_sdp_head(ip, gb, t, start_ts, stop_ts).len() as int;
            let p18 = p11 + 10 + dec_chars(port as nat).len() as int + (if setup.len() == 0 {
                9int
            } else {
                13int
            }) + 11 + 11 + ip.len() as int + sdp_attrs().len() as int;
            spec_parse_media_end(
                s,
                p18,
                gb,
                ip,
                spec_session_name(t),
                start_ts,
                stop_ts,
                port,
                setup.len() > 0,
                "96 97 98 99"@,
            ) == Some(
                (
                    gb,
                    ip,
                    spec_session_name(t),
                    start_ts,
                    stop_ts,
                    port,
                    setup.len() > 0,
                    "96 97 98 99"@,
                    setup,
                    match t {
                        SdpSessionType::Play => Some(
                            "0"@ + gb.subrange(4, 8) + pad4(rand4 as nat),
                        ),
                        SdpSessionType::Playback => Some(
                            "1"@ + gb.subrange(4, 8) + pad4(rand4 as nat),
                        ),
                        _ => None,
                    },
                ),
            )
        }),
{
    reveal_strlit("\r\na=setup:");
    reveal_strlit("active");
    reveal_strlit("passive");
    reveal_strlit("");
    reveal_strlit("\r\na=connection:new");
    reveal_strlit("\r\n");
    reveal_strlit("y=");
    reveal_strlit("y=0");
    reveal_strlit("y=1");
    reveal_strlit("0");
    reveal_strlit("1");
    reveal_strlit("\r\nm=video ");
    reveal_strlit(" RTP/AVP 96 97 98 99");
    reveal_strlit(" TCP/RTP/AVP 96 97 98 99");
    reveal_strlit("\r\nc=IN IP4 ");
    reveal_strlit(
        "\r\na=rtpmap:96 PS/90000\r\na=rtpmap:97 MPEG4/90000\r\na=rtpmap:98 H264/90000\r\na=rtpmap:99 H265/90000\r\na=recvonly\r\na=streamMode:MAIN",
    );
    let s = spec_media_sdp(ip, port, gb, setup, t, start_ts, stop_ts, rand4);
    let h = spec_sdp_head(ip, gb, t, start_ts, stop_ts);
    let tl = spec_sdp_tail(ip, port, gb, setup, t, rand4);
    let portv = dec_chars(port as nat);
    lemma_dec_chars_digits(port as nat);
    let p11 = h.len() as int;
    assert(s.subrange(p11, s.len() as int) =~= tl);
    crate::strutil::lemma_suffix_index(tl, s, p11);
    let setupblock = if setup.len() == 0 {
        Seq::<char>::empty()
    } else {
        "\r\na=setup:"@ + setup + "\r\na=connection:new"@
    };
    let q18 = 10 + portv.len() as int + (if setup.len() == 0 {
        9int
    } else {
        13int
    }) + 11 + 11 + ip.len() as int + sdp_attrs().len() as int;
    let q21 = q18 + setupblock.len() as int;
    let q22 = q21 + 2;
    assert(s.len() == p11 + tl.len());
    assert(tl.subrange(q21, q22) =~= "\r\n"@);
    crate::strutil::lemma_suffix_subrange(tl, s, p11, q21, q22);
    assert(!crate::strutil::matches_at_chars(s, "\r\na=setup:"@, p11 + q18)) by {
        if crate::strutil::matches_at_chars(s, "\r\na=setup:"@, p11 + q18) {
            assert(s.subrange(p11 + q18, p11 + q18 + 10)[2] == s[p11 + q18 + 2]);
            assert(s.len() == p11 + q22);
            assert(false);
        }
    }
    {
        assert(s.len() == p11 + q22);
        assert(!crate::strutil::matches_at_chars(s, "y="@, p11 + q22));
    }
}

/// The end part of a generated description yields its fields.
#[verifier::rlimit(100)]
proof fn lemma_sdp_end_no_setup_talk(
    ip: Seq<char>,
    port: u16,
    gb: Seq<char>,
    setup: Seq<char>,
    t: SdpSessionType,
    start_ts: u64,
    stop_ts: u64,
    rand4: u32,
)
    requires
        ip.len() > 0,
        is_addr_chars(ip),
        gb.len() == 20,
        all_digit_chars(gb),
        setup == ""@,
        t == SdpSessionType::Talk,
        rand4 < 10000,
    ensures
        ({
            let s = spec_media_sdp(ip, port, gb, setup, t, start_ts, stop_ts, rand4);
            let p11 = spec_sdp_head(ip, gb, t, start_ts, stop_ts).len() as int;
            let p18 = p11 + 10 + dec_chars(port as nat).len() as int + (if setup.len() == 0 {
                9int
            } else {
                13int
            }) + 11 + 11 + ip.len() as int + sdp_attrs().len() as int;
            spec_parse_media_end(
                s,
                p18,
                gb,
                ip,
                spec_session_name(t),
                start_ts,
                stop_ts,
                port,
                setup.len() > 0,
                "96 97 98 99"@,
            ) == Some(
                (
                    gb,
                    ip,
                    spec_session_name(t),
                    start_ts,
                    stop_ts,
                    port,
                    setup.len() > 0,
                    "96 97 98 99"@,
                    setup,
                    match t {
                        SdpSessionType::Play => Some(
                            "0"@ + gb.subrange(4, 8) + pad4(rand4 as nat),
                        ),
                        SdpSessionType::Playback => Some(
                            "1"@ + gb.subrange(4, 8) + pad4(rand4 as nat),
                        ),
                        _ => None,
                    },
                ),
            )
        }),
{
    reveal_strlit("\r\na=setup:");
    reveal_strlit("active");
    reveal_strlit("passive");
    reveal_strlit("");
    reveal_strlit("\r\na=connection:new");
    reveal_strlit("\r\n");
    reveal_strlit("y=");
    reveal_strlit("y=0");
    reveal_strlit("y=1");
    reveal_strlit("0");
    reveal_strlit("1");
    reveal_strlit("\r\nm=video ");
    reveal_strlit(" RTP/AVP 96 97 98 99");
    reveal_strlit(" TCP/RTP/AVP 96 97 98 99");
    reveal_strlit("\r\nc=IN IP4 ");
    reveal_strlit(
        "\r\na=rtpmap:96 PS/90000\r\na=rtpmap:97 MPEG4/90000\r\na=rtpmap:98 H264/90000\r\na=rtpmap:99 H265/90000\r\na=recvonly\r\na=streamMode:MAIN",
    );
    let s = spec_media_sdp(ip, port, gb, setup, t, start_ts, stop_ts, rand4);
    let h = spec_sdp_head(ip, gb, t, start_ts, stop_ts);
    let tl = spec_sdp_tail(ip, port, gb, setup, t, rand4);
    let portv = dec_chars(port as nat);
    lemma_dec_chars_digits(port as nat);
    let p11 = h.len() as int;
    assert(s.subrange(p11, s.len() as int) =~= tl);
    crate::strutil::lemma_suffix_index(tl, s, p11);
    let setupblock = if setup.len() == 0 {
        Seq::<char>::empty()
    } else {
        "\r\na=setup:"@ + setup + "\r\na=connection:new"@
    };
    let q18 = 10 + portv.len() as int + (if setup.len() == 0 {
        9int
    } else {
        13int
    }) + 11 + 11 + ip.len() as int + sdp_attrs().len() as int;
    let q21 = q18 + setupblock.len() as int;
    let q22 = q21 + 2;
    assert(s.len() == p11 + tl.len());
    assert(tl.subrange(q21, q22) =~= "\r\n"@);
    crate::strutil::lemma_suffix_subrange(tl, s, p11, q21, q22);
    assert(!crate::strutil::matches_at_chars(s, "\r\na=setup:"@, p11 + q18)) by {
        if crate::strutil::matches_at_chars(s, "\r\na=setup:"@, p11 + q18) {
            assert(s.subrange(p11 + q18, p11 + q18 + 10)[2] == s[p11 + q18 + 2]);
            assert(s.len() == p11 + q22);
            assert(false);
        }
    }
    {
        assert(s.len() == p11 + q22);
        assert(!crate::strutil::matches_at_chars(s, "y="@, p11 + q22));
    }
}





/// Reading back a generated description of a UDP media session (no
/// `setup` attribute) preserves the origin user, the endpoint, the
/// session name, the times, the media port, the codec list and the
/// `y=` SSRC line.
pub proof fn lemma_sdp_roundtrip(
    ip: Seq<char>,
    port: u16,
    gb: Seq<char>,
    setup: Seq<char>,
    t: SdpSessionType,
    start_ts: u64,
    stop_ts: u64,
    rand4: u32,
)
    requires
        ip.len() > 0,
        is_addr_chars(ip),
        gb.len() == 20,
        all_digit_chars(gb),
        setup == ""@,
        rand4 < 10000,
    ensures
        spec_parse_media_sdp(spec_media_sdp(ip, port, gb, setup, t, start_ts, stop_ts, rand4))
            == Some(
            (
                gb,
                ip,
                spec_session_name(t),
                start_ts,
                stop_ts,
                port,
                false,
                "96 97 98 99"@,
                setup,
                match t {
                    SdpSessionType::Play => Some(
                        "0"@ + gb.subrange(4, 8) + pad4(rand4 as nat),
                    ),
                    SdpSessionType::Playback => Some(
                        "1"@ + gb.subrange(4, 8) + pad4(rand4 as nat),
                    ),
                    _ => None,
                },
            ),
        ),
{
    lemma_sdp_roundtrip_head(ip, port, gb, setup, t, start_ts, stop_ts, rand4);
    lemma_sdp_tail_mid_rtp(ip, port, gb, setup, t, start_ts, stop_ts, rand4);
    reveal_strlit("");
    assert(setup =~= ""@);
    match t {
        SdpSessionType::Play => lemma_sdp_end_no_setup_play(ip, port, gb, setup, t, start_ts, stop_ts, rand4),
        SdpSessionType::Playback => lemma_sdp_end_no_setup_playback(ip, port, gb, setup, t, start_ts, stop_ts, rand4),
        SdpSessionType::Download => lemma_sdp_end_no_setup_download(ip, port, gb, setup, t, start_ts, stop_ts, rand4),
        SdpSessionType::Talk => lemma_sdp_end_no_setup_talk(ip, port, gb, setup, t, start_ts, stop_ts, rand4),
    }
}

} // verus!
