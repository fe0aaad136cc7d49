//! The MANSCDP XML bodies carried in SIP MESSAGE requests: typed models,
//! a canonical writer, and a strict reader that inverts it. Fields are
//! written in declaration order, one `<Tag>value</Tag>` element each,
//! with no prolog and no whitespace between elements.
use crate::strutil::{
    all_digit_chars, dec_chars, dec_val_chars, find_str_from, is_digit_char,
    lemma_dec_chars_digits, lemma_dec_chars_roundtrip, lemma_find_chars_from_correct,
    lemma_scan_to_correct, lit_at, matches_at_chars, parse_dec_str, scan_to,
    spec_find_chars_from, spec_scan_to, substring_copy, u64_to_string,
};
use vstd::prelude::*;

verus! {

/// `v` is free of `<`, so it can stand between two tags.
pub open spec fn no_lt(v: Seq<char>) -> bool {
    forall|i: int| 0 <= i < v.len() ==> #[trigger] v[i] != '<'
}

/// Strict element reader: `open` must stand exactly at `pos`, the value
/// runs to the next `<`, and `close` must stand there. Yields the value
/// and the position after `close`.
pub open spec fn spec_take_field(
    s: Seq<char>,
    pos: int,
    open: Seq<char>,
    close: Seq<char>,
) -> Option<(Seq<char>, int)> {
    if 0 <= pos && pos + open.len() <= s.len() && s.subrange(pos, pos + open.len() as int)
        == open {
        let vs = pos + open.len();
        let ve = spec_scan_to(s, vs, '<');
        if ve + close.len() <= s.len() && s.subrange(ve, ve + close.len() as int) == close {
            Some((s.subrange(vs, ve), ve + close.len()))
        } else {
            None
        }
    } else {
        None
    }
}

/// Reads one `<Tag>value</Tag>` element standing exactly at `pos`.
pub fn take_field(s: &str, pos: usize, open: &str, close: &str) -> (r: Option<(String, usize)>)
    requires
        pos <= s@.len(),
    ensures
        match r {
            Some(p) => spec_take_field(s@, pos as int, open@, close@) == Some(
                (p.0@, p.1 as int),
            ) && p.1 <= s@.len() && p.1 >= pos + open@.len() + close@.len(),
            None => spec_take_field(s@, pos as int, open@, close@) is None,
        },
{
    let total = s.unicode_len();
    if !lit_at(s, pos, open) {
        return None;
    }
    let vs = pos + open.unicode_len();
    let ve = scan_to(s, vs, '<');
    proof {
        lemma_scan_to_correct(s@, vs as int, '<');
    }
    if !lit_at(s, ve, close) {
        return None;
    }
    let value = substring_copy(s, vs, ve);
    Some((value, ve + close.unicode_len()))
}

/// When the text at `pos` is exactly `open + v + close + …` and `v` holds
/// no `<` while `close` begins with one, the strict reader yields `v`.
pub proof fn lemma_take_field_exact(
    s: Seq<char>,
    pos: int,
    open: Seq<char>,
    close: Seq<char>,
    v: Seq<char>,
)
    requires
        0 <= pos,
        pos + open.len() + v.len() + close.len() <= s.len(),
        s.subrange(pos, pos + open.len() as int) == open,
        s.subrange(pos + open.len(), pos + open.len() + v.len() as int) == v,
        s.subrange(
            pos + open.len() + v.len(),
            pos + open.len() + v.len() + close.len() as int,
        ) == close,
        no_lt(v),
        close.len() > 0,
        close[0] == '<',
    ensures
        spec_take_field(s, pos, open, close) == Some(
            (v, pos + open.len() + v.len() + close.len()),
        ),
{
    let vs = pos + open.len();
    let ve0 = vs + v.len();
    lemma_scan_to_correct(s, vs, '<');
    let e = spec_scan_to(s, vs, '<');
    assert(s[ve0] == close[0]) by {
        assert(s.subrange(ve0, ve0 + close.len() as int)[0] == s[ve0]);
    }
    assert forall|j: int| vs <= j < ve0 implies s[j] != '<' by {
        assert(s.subrange(vs, ve0)[j - vs] == s[j]);
    }
    assert(e == ve0) by {
        if e < ve0 {
            assert(s[e] == '<');
        }
        if e > ve0 {
            assert(s[ve0] != '<');
        }
    }
    assert(s.subrange(vs, e) == v);
}

/// Appends `open + value + close` to `out`.
pub fn push_field(out: &mut String, open: &str, value: &str, close: &str)
    ensures
        final(out)@ == old(out)@ + open@ + value@ + close@,
{
    out.append(open);
    out.append(value);
    out.append(close);
}

/// The value of a numeral element as a `u32`, when it is one.
pub open spec fn spec_num_u32(v: Seq<char>) -> Option<u32> {
    if v.len() > 0 && all_digit_chars(v) && dec_val_chars(v) <= u32::MAX {
        Some(dec_val_chars(v) as u32)
    } else {
        None
    }
}

/// Reads the whole of `v` as a `u32` numeral.
pub fn parse_num_u32(v: &str) -> (r: Option<u32>)
    ensures
        r == spec_num_u32(v@),
{
    let n = v.unicode_len();
    proof {
        assert(v@.subrange(0, n as int) =~= v@);
    }
    match parse_dec_str(v, 0, n) {
        None => None,
        Some(x) => {
            if x <= 0xffff_ffff {
                Some(x as u32)
            } else {
                None
            }
        },
    }
}

/// A device keepalive notification.
#[derive(Debug, PartialEq)]
pub struct KeepAlive {
    pub cmd_type: String,
    pub sn: u32,
    pub device_id: String,
    pub status: String,
}

/// Its string fields can stand between tags.
pub open spec fn keep_alive_wf(k: KeepAlive) -> bool {
    no_lt(k.cmd_type@) && no_lt(k.device_id@) && no_lt(k.status@)
}

/// The canonical XML text of a keepalive.
pub open spec fn spec_keep_alive_xml(k: KeepAlive) -> Seq<char> {
    "<Notify><CmdType>"@ + k.cmd_type@ + "</CmdType><SN>"@ + dec_chars(k.sn as nat)
        + "</SN><DeviceID>"@ + k.device_id@ + "</DeviceID><Status>"@ + k.status@
        + "</Status></Notify>"@
}

/// What parsing a keepalive body yields: the field views, in order.
pub open spec fn spec_parse_keep_alive(s: Seq<char>) -> Option<(Seq<char>, u32, Seq<char>, Seq<char>)> {
    match spec_find_chars_from(s, "<Notify>"@, 0) {
        None => None,
        Some(p0) => match spec_take_field(s, p0 + 8, "<CmdType>"@, "</CmdType>"@) {
            None => None,
            Some((cmd, p1)) => match spec_take_field(s, p1, "<SN>"@, "</SN>"@) {
                None => None,
                Some((snv, p2)) => match spec_num_u32(snv) {
                    None => None,
                    Some(sn) => match spec_take_field(s, p2, "<DeviceID>"@, "</DeviceID>"@) {
                        None => None,
                        Some((dev, p3)) => match spec_take_field(
                            s,
                            p3,
                            "<Status>"@,
                            "</Status>"@,
                        ) {
                            None => None,
                            Some((st, _)) => Some((cmd, sn, dev, st)),
                        },
                    },
                },
            },
        },
    }
}

impl Default for KeepAlive {
    /// The empty keepalive that a failed parse falls back to.
    fn default() -> (r: KeepAlive)
        ensures
            r.cmd_type@ == Seq::<char>::empty(),
            r.sn == 0,
            r.device_id@ == Seq::<char>::empty(),
            r.status@ == Seq::<char>::empty(),
    {
        KeepAlive { cmd_type: String::new(), sn: 0, device_id: String::new(), status: String::new() }
    }
}

impl KeepAlive {
    /// Writes the canonical XML text of this keepalive.
    pub fn serialize_to_xml(&self) -> (r: String)
        ensures
            r@ == spec_keep_alive_xml(*self),
    {
        let mut out = String::new();
        let sn = u64_to_string(self.sn as u64);
        push_field(&mut out, "<Notify><CmdType>", self.cmd_type.as_str(), "</CmdType>");
        push_field(&mut out, "<SN>", sn.as_str(), "</SN>");
        push_field(&mut out, "<DeviceID>", self.device_id.as_str(), "</DeviceID>");
        push_field(&mut out, "<Status>", self.status.as_str(), "</Status>");
        out.append("</Notify>");
        proof {
            reveal_strlit("<Notify><CmdType>");
            reveal_strlit("</CmdType>");
            reveal_strlit("<SN>");
            reveal_strlit("</SN>");
            reveal_strlit("<DeviceID>");
            reveal_strlit("</DeviceID>");
            reveal_strlit("<Status>");
            reveal_strlit("</Status>");
            reveal_strlit("</Notify>");
            reveal_strlit("</CmdType><SN>");
            reveal_strlit("</SN><DeviceID>");
            reveal_strlit("</DeviceID><Status>");
            reveal_strlit("</Status></Notify>");
            assert(out@ =~= spec_keep_alive_xml(*self));
        }
        out
    }

    /// Reads a keepalive from XML text; a text that does not parse
    /// yields the default value.
    pub fn deserialize_from_xml(s: String) -> (r: KeepAlive)
        ensures
            match spec_parse_keep_alive(s@) {
                Some(t) => r.cmd_type@ == t.0 && r.sn == t.1 && r.device_id@ == t.2
                    && r.status@ == t.3,
                None => r.cmd_type@ == Seq::<char>::empty() && r.sn == 0 && r.device_id@
                    == Seq::<char>::empty() && r.status@ == Seq::<char>::empty(),
            },
    {
        let text = s.as_str();
        let total = text.unicode_len();
        let p0 = match find_str_from(text, "<Notify>", 0) {
            None => {
                return KeepAlive::default();
            },
            Some(p) => p,
        };
        proof {
            lemma_find_chars_from_correct(text@, "<Notify>"@, 0);
            reveal_strlit("<Notify>");
            assert(p0 + 8 <= total);
        }
        let (cmd, p1) = match take_field(text, p0 + 8, "<CmdType>", "</CmdType>") {
            None => {
                return KeepAlive::default();
            },
            Some(x) => x,
        };
        let (snv, p2) = match take_field(text, p1, "<SN>", "</SN>") {
            None => {
                return KeepAlive::default();
            },
            Some(x) => x,
        };
        let sn = match parse_num_u32(snv.as_str()) {
            None => {
                return KeepAlive::default();
            },
            Some(x) => x,
        };
        let (dev, p3) = match take_field(text, p2, "<DeviceID>", "</DeviceID>") {
            None => {
                return KeepAlive::default();
            },
            Some(x) => x,
        };
        let (st, _p4) = match take_field(text, p3, "<Status>", "</Status>") {
            None => {
                return KeepAlive::default();
            },
            Some(x) => x,
        };
        KeepAlive { cmd_type: cmd, sn, device_id: dev, status: st }
    }
}

/// The canonical XML text of a `<Query>` body: CmdType, SN, DeviceID.
pub open spec fn spec_query_xml(cmd: Seq<char>, sn: u32, dev: Seq<char>) -> Seq<char> {
    "<Query><CmdType>"@ + cmd + "</CmdType><SN>"@ + dec_chars(sn as nat) + "</SN><DeviceID>"@
        + dev + "</DeviceID></Query>"@
}

/// What parsing a `<Query>` body yields.
pub open spec fn spec_parse_query(s: Seq<char>) -> Option<(Seq<char>, u32, Seq<char>)> {
    match spec_find_chars_from(s, "<Query>"@, 0) {
        None => None,
        Some(p0) => match spec_take_field(s, p0 + 7, "<CmdType>"@, "</CmdType>"@) {
            None => None,
            Some((cmd, p1)) => match spec_take_field(s, p1, "<SN>"@, "</SN>"@) {
                None => None,
                Some((snv, p2)) => match spec_num_u32(snv) {
                    None => None,
                    Some(sn) => match spec_take_field(s, p2, "<DeviceID>"@, "</DeviceID>"@) {
                        None => None,
                        Some((dev, _)) => Some((cmd, sn, dev)),
                    },
                },
            },
        },
    }
}

/// Writes a canonical `<Query>` body.
pub fn build_query_xml(cmd: &str, sn: u32, dev: &str) -> (r: String)
    ensures
        r@ == spec_query_xml(cmd@, sn, dev@),
{
    let mut out = String::new();
    let snv = u64_to_string(sn as u64);
    push_field(&mut out, "<Query><CmdType>", cmd, "</CmdType>");
    push_field(&mut out, "<SN>", snv.as_str(), "</SN>");
    push_field(&mut out, "<DeviceID>", dev, "</DeviceID>");
    out.append("</Query>");
    proof {
        reveal_strlit("<Query><CmdType>");
        reveal_strlit("</CmdType>");
        reveal_strlit("<SN>");
        reveal_strlit("</SN>");
        reveal_strlit("<DeviceID>");
        reveal_strlit("</DeviceID>");
        reveal_strlit("</Query>");
        reveal_strlit("</CmdType><SN>");
        reveal_strlit("</SN><DeviceID>");
        reveal_strlit("</DeviceID></Query>");
        assert(out@ =~= spec_query_xml(cmd@, sn, dev@));
    }
    out
}

/// Reads a `<Query>` body; `None` when the text is not canonical.
pub fn read_query_xml(s: &str) -> (r: Option<(String, u32, String)>)
    ensures
        match r {
            Some(t) => spec_parse_query(s@) == Some((t.0@, t.1, t.2@)),
            None => spec_parse_query(s@) is None,
        },
{
    let total = s.unicode_len();
    let p0 = match find_str_from(s, "<Query>", 0) {
        None => {
            return None;
        },
        Some(p) => p,
    };
    proof {
        lemma_find_chars_from_correct(s@, "<Query>"@, 0);
        reveal_strlit("<Query>");
        assert(p0 + 7 <= total);
    }
    let (cmd, p1) = match take_field(s, p0 + 7, "<CmdType>", "</CmdType>") {
        None => {
            return None;
        },
        Some(x) => x,
    };
    let (snv, p2) = match take_field(s, p1, "<SN>", "</SN>") {
        None => {
            return None;
        },
        Some(x) => x,
    };
    let sn = match parse_num_u32(snv.as_str()) {
        None => {
            return None;
        },
        Some(x) => x,
    };
    let (dev, _p3) = match take_field(s, p2, "<DeviceID>", "</DeviceID>") {
        None => {
            return None;
        },
        Some(x) => x,
    };
    Some((cmd, sn, dev))
}

/// A written `<Query>` body stays inside the Basic Multilingual Plane
/// when its fields do.
pub proof fn lemma_query_xml_bmp(cmd: Seq<char>, sn: u32, dev: Seq<char>)
    requires
        crate::ext::bmp_chars(cmd),
        crate::ext::bmp_chars(dev),
    ensures
        crate::ext::bmp_chars(spec_query_xml(cmd, sn, dev)),
{
    reveal_strlit("<Query><CmdType>");
    reveal_strlit("</CmdType><SN>");
    reveal_strlit("</SN><DeviceID>");
    reveal_strlit("</DeviceID></Query>");
    let snv = dec_chars(sn as nat);
    lemma_dec_chars_digits(sn as nat);
    let s = spec_query_xml(cmd, sn, dev);
    assert forall|i: int| 0 <= i < s.len() implies ((#[trigger] s[i]) as u32) < 0x10000 by {
        if 16 <= i < 16 + cmd.len() {
            assert(s[i] == cmd[i - 16]);
        }
        let p1 = 16 + cmd.len() as int + 14;
        if p1 <= i < p1 + snv.len() {
            assert(s[i] == snv[i - p1]);
            assert(is_digit_char(snv[i - p1]));
        }
        let p2 = p1 + snv.len() as int + 15;
        if p2 <= i < p2 + dev.len() {
            assert(s[i] == dev[i - p2]);
        }
    }
}

/// Reading back a written `<Query>` body yields its fields.
pub proof fn lemma_query_roundtrip(cmd: Seq<char>, sn: u32, dev: Seq<char>)
    requires
        no_lt(cmd),
        no_lt(dev),
    ensures
        spec_parse_query(spec_query_xml(cmd, sn, dev)) == Some((cmd, sn, dev)),
{
    reveal_strlit("<Query><CmdType>");
    reveal_strlit("<Query>");
    reveal_strlit("<CmdType>");
    reveal_strlit("</CmdType>");
    reveal_strlit("<SN>");
    reveal_strlit("</SN>");
    reveal_strlit("<DeviceID>");
    reveal_strlit("</DeviceID>");
    reveal_strlit("</CmdType><SN>");
    reveal_strlit("</SN><DeviceID>");
    reveal_strlit("</DeviceID></Query>");
    let s = spec_query_xml(cmd, sn, dev);
    let snv = dec_chars(sn as nat);
    lemma_dec_chars_digits(sn as nat);
    lemma_dec_chars_roundtrip(sn as nat);
    assert(no_lt(snv)) by {
        assert forall|i: int| 0 <= i < snv.len() implies #[trigger] snv[i] != '<' by {
            assert(is_digit_char(snv[i]));
        }
    }
    assert(matches_at_chars(s, "<Query>"@, 0)) by {
        assert(s.subrange(0, 7) =~= "<Query>"@);
    }
    assert(spec_find_chars_from(s, "<Query>"@, 0) == Some(0int));
    let p1: int = 16 + cmd.len() as int + 10;
    let p2: int = p1 + 4 + snv.len() as int + 5;
    assert(s.subrange(7, 16) =~= "<CmdType>"@);
    assert(s.subrange(16int, 16 + cmd.len() as int) =~= cmd);
    assert(s.subrange(16 + cmd.len() as int, 16 + cmd.len() as int + 10) =~= "</CmdType>"@);
    lemma_take_field_exact(s, 7, "<CmdType>"@, "</CmdType>"@, cmd);
    assert(s.subrange(p1, p1 + 4) =~= "<SN>"@);
    assert(s.subrange(p1 + 4, p1 + 4 + snv.len() as int) =~= snv);
    assert(s.subrange(p1 + 4 + snv.len() as int, p1 + 4 + snv.len() as int + 5) =~= "</SN>"@);
    lemma_take_field_exact(s, p1, "<SN>"@, "</SN>"@, snv);
    assert(spec_num_u32(snv) == Some(sn));
    assert(s.subrange(p2, p2 + 10) =~= "<DeviceID>"@);
    assert(s.subrange(p2 + 10, p2 + 10 + dev.len() as int) =~= dev);
    assert(s.subrange(p2 + 10 + dev.len() as int, p2 + 10 + dev.len() as int + 11)
        =~= "</DeviceID>"@);
    lemma_take_field_exact(s, p2, "<DeviceID>"@, "</DeviceID>"@, dev);
}

/// A catalog query the server sends to a device.
#[derive(Debug, PartialEq)]
pub struct CatalogQuery {
    pub cmd_type: String,
    pub sn: u32,
    pub device_id: String,
}

impl CatalogQuery {
    /// A catalog query for the device `gb_code`.
    pub fn new(sn: u32, gb_code: &str) -> (r: CatalogQuery)
        ensures
            r.cmd_type@ == "Catalog"@,
            r.sn == sn,
            r.device_id@ == gb_code@,
    {
        CatalogQuery { cmd_type: "Catalog".to_owned(), sn, device_id: gb_code.to_owned() }
    }

    /// Writes the canonical XML text of this query.
    pub fn serialize_to_xml(&self) -> (r: String)
        ensures
            r@ == spec_query_xml(self.cmd_type@, self.sn, self.device_id@),
    {
        build_query_xml(self.cmd_type.as_str(), self.sn, self.device_id.as_str())
    }

    /// Reads a query from XML text; a text that does not parse yields
    /// the default value.
    pub fn deserialize_from_xml(s: String) -> (r: CatalogQuery)
        ensures
            match spec_parse_query(s@) {
                Some(t) => r.cmd_type@ == t.0 && r.sn == t.1 && r.device_id@ == t.2,
                None => r.cmd_type@ == Seq::<char>::empty() && r.sn == 0 && r.device_id@
                    == Seq::<char>::empty(),
            },
    {
        match read_query_xml(s.as_str()) {
            Some((cmd, sn, dev)) => CatalogQuery { cmd_type: cmd, sn, device_id: dev },
            None => CatalogQuery { cmd_type: String::new(), sn: 0, device_id: String::new() },
        }
    }
}

/// A device-information query the server sends to a device.
#[derive(Debug, PartialEq)]
pub struct DeviceInfoQuery {
    pub cmd_type: String,
    pub sn: u32,
    pub device_id: String,
}

impl DeviceInfoQuery {
    /// A device-information query for the device `gb_code`.
    pub fn new(sn: u32, gb_code: &str) -> (r: DeviceInfoQuery)
        ensures
            r.cmd_type@ == "DeviceInfo"@,
            r.sn == sn,
            r.device_id@ == gb_code@,
    {
        DeviceInfoQuery { cmd_type: "DeviceInfo".to_owned(), sn, device_id: gb_code.to_owned() }
    }

    /// Writes the canonical XML text of this query.
    pub fn serialize_to_xml(&self) -> (r: String)
        ensures
            r@ == spec_query_xml(self.cmd_type@, self.sn, self.device_id@),
    {
        build_query_xml(self.cmd_type.as_str(), self.sn, self.device_id.as_str())
    }

    /// Reads a query from XML text; a text that does not parse yields
    /// the default value.
    pub fn deserialize_from_xml(s: String) -> (r: DeviceInfoQuery)
        ensures
            match spec_parse_query(s@) {
                Some(t) => r.cmd_type@ == t.0 && r.sn == t.1 && r.device_id@ == t.2,
                None => r.cmd_type@ == Seq::<char>::empty() && r.sn == 0 && r.device_id@
                    == Seq::<char>::empty(),
            },
    {
        match read_query_xml(s.as_str()) {
            Some((cmd, sn, dev)) => DeviceInfoQuery { cmd_type: cmd, sn, device_id: dev },
            None => DeviceInfoQuery { cmd_type: String::new(), sn: 0, device_id: String::new() },
        }
    }
}

/// A device-status query the server sends after a first registration.
#[derive(Debug, PartialEq)]
pub struct DeviceStatusQuery {
    pub cmd_type: String,
    pub sn: u32,
    pub device_id: String,
}

impl DeviceStatusQuery {
    /// A device-status query for the device `gb_code`.
    pub fn new(sn: u32, gb_code: &str) -> (r: DeviceStatusQuery)
        ensures
            r.cmd_type@ == "DeviceStatus"@,
            r.sn == sn,
            r.device_id@ == gb_code@,
    {
        DeviceStatusQuery {
            cmd_type: "DeviceStatus".to_owned(),
            sn,
            device_id: gb_code.to_owned(),
        }
    }

    /// Writes the canonical XML text of this query.
    pub fn serialize_to_xml(&self) -> (r: String)
        ensures
            r@ == spec_query_xml(self.cmd_type@, self.sn, self.device_id@),
    {
        build_query_xml(self.cmd_type.as_str(), self.sn, self.device_id.as_str())
    }

    /// Reads a query from XML text; a text that does not parse yields
    /// the default value.
    pub fn deserialize_from_xml(s: String) -> (r: DeviceStatusQuery)
        ensures
            match spec_parse_query(s@) {
                Some(t) => r.cmd_type@ == t.0 && r.sn == t.1 && r.device_id@ == t.2,
                None => r.cmd_type@ == Seq::<char>::empty() && r.sn == 0 && r.device_id@
                    == Seq::<char>::empty(),
            },
    {
        match read_query_xml(s.as_str()) {
            Some((cmd, sn, dev)) => DeviceStatusQuery { cmd_type: cmd, sn, device_id: dev },
            None => DeviceStatusQuery {
                cmd_type: String::new(),
                sn: 0,
                device_id: String::new(),
            },
        }
    }
}

/// A device-status answer from a device.
#[derive(Debug, PartialEq)]
pub struct DeviceStatus {
    pub cmd_type: String,
    pub sn: u32,
    pub device_id: String,
    pub result: String,
}

/// The canonical XML text of a device-status answer.
pub open spec fn spec_device_status_xml(x: DeviceStatus) -> Seq<char> {
    "<Response><CmdType>"@ + x.cmd_type@ + "</CmdType><SN>"@ + dec_chars(x.sn as nat)
        + "</SN><DeviceID>"@ + x.device_id@ + "</DeviceID><Result>"@ + x.result@
        + "</Result></Response>"@
}

/// What parsing a device-status answer yields.
pub open spec fn spec_parse_device_status(s: Seq<char>) -> Option<(Seq<char>, u32, Seq<char>, Seq<char>)> {
    match spec_find_chars_from(s, "<Response>"@, 0) {
        None => None,
        Some(p0) => match spec_take_field(s, p0 + 10, "<CmdType>"@, "</CmdType>"@) {
            None => None,
            Some((cmd, p1)) => match spec_take_field(s, p1, "<SN>"@, "</SN>"@) {
                None => None,
                Some((snv, p2)) => match spec_num_u32(snv) {
                    None => None,
                    Some(sn) => match spec_take_field(s, p2, "<DeviceID>"@, "</DeviceID>"@) {
                        None => None,
                        Some((dev, p3)) => match spec_take_field(
                            s,
                            p3,
                            "<Result>"@,
                            "</Result>"@,
                        ) {
                            None => None,
                            Some((res, _)) => Some((cmd, sn, dev, res)),
                        },
                    },
                },
            },
        },
    }
}

impl Default for DeviceStatus {
    /// The empty answer that a failed parse falls back to.
    fn default() -> (r: DeviceStatus)
        ensures
            r.cmd_type@ == Seq::<char>::empty(),
            r.sn == 0,
            r.device_id@ == Seq::<char>::empty(),
            r.result@ == Seq::<char>::empty(),
    {
        DeviceStatus {
            cmd_type: String::new(),
            sn: 0,
            device_id: String::new(),
            result: String::new(),
        }
    }
}

impl DeviceStatus {
    /// Writes the canonical XML text of this answer.
    pub fn serialize_to_xml(&self) -> (r: String)
        ensures
            r@ == spec_device_status_xml(*self),
    {
        let mut out = String::new();
        let sn = u64_to_string(self.sn as u64);
        push_field(&mut out, "<Response><CmdType>", self.cmd_type.as_str(), "</CmdType>");
        push_field(&mut out, "<SN>", sn.as_str(), "</SN>");
        push_field(&mut out, "<DeviceID>", self.device_id.as_str(), "</DeviceID>");
        push_field(&mut out, "<Result>", self.result.as_str(), "</Result>");
        out.append("</Response>");
        proof {
            reveal_strlit("<Response><CmdType>");
            reveal_strlit("</CmdType>");
            reveal_strlit("<SN>");
            reveal_strlit("</SN>");
            reveal_strlit("<DeviceID>");
            reveal_strlit("</DeviceID>");
            reveal_strlit("<Result>");
            reveal_strlit("</Result>");
            reveal_strlit("</Response>");
            reveal_strlit("</CmdType><SN>");
            reveal_strlit("</SN><DeviceID>");
            reveal_strlit("</DeviceID><Result>");
            reveal_strlit("</Result></Response>");
            assert(out@ =~= spec_device_status_xml(*self));
        }
        out
    }

    /// Reads an answer from XML text; a text that does not parse yields
    /// the default value.
    pub fn deserialize_from_xml(s: String) -> (r: DeviceStatus)
        ensures
            match spec_parse_device_status(s@) {
                Some(t) => r.cmd_type@ == t.0 && r.sn == t.1 && r.device_id@ == t.2
                    && r.result@ == t.3,
                None => r.cmd_type@ == Seq::<char>::empty() && r.sn == 0 && r.device_id@
                    == Seq::<char>::empty() && r.result@ == Seq::<char>::empty(),
            },
    {
        let text = s.as_str();
        let total = text.unicode_len();
        let p0 = match find_str_from(text, "<Response>", 0) {
            None => {
                return DeviceStatus::default();
            },
            Some(p) => p,
        };
        proof {
            lemma_find_chars_from_correct(text@, "<Response>"@, 0);
            reveal_strlit("<Response>");
            assert(p0 + 10 <= total);
        }
        let (cmd, p1) = match take_field(text, p0 + 10, "<CmdType>", "</CmdType>") {
            None => {
                return DeviceStatus::default();
            },
            Some(x) => x,
        };
        let (snv, p2) = match take_field(text, p1, "<SN>", "</SN>") {
            None => {
                return DeviceStatus::default();
            },
            Some(x) => x,
        };
        let sn = match parse_num_u32(snv.as_str()) {
            None => {
                return DeviceStatus::default();
            },
            Some(x) => x,
        };
        let (dev, p3) = match take_field(text, p2, "<DeviceID>", "</DeviceID>") {
            None => {
                return DeviceStatus::default();
            },
            Some(x) => x,
        };
        let (res, _p4) = match take_field(text, p3, "<Result>", "</Result>") {
            None => {
                return DeviceStatus::default();
            },
            Some(x) => x,
        };
        DeviceStatus { cmd_type: cmd, sn, device_id: dev, result: res }
    }
}

/// Decoding an encoded device-status answer yields the same message back.
pub proof fn lemma_device_status_roundtrip(x: DeviceStatus)
    requires
        no_lt(x.cmd_type@),
        no_lt(x.device_id@),
        no_lt(x.result@),
    ensures
        spec_parse_device_status(spec_device_status_xml(x)) == Some(
            (x.cmd_type@, x.sn, x.device_id@, x.result@),
        ),
{
    reveal_strlit("<Response><CmdType>");
    reveal_strlit("<Response>");
    reveal_strlit("<CmdType>");
    reveal_strlit("</CmdType>");
    reveal_strlit("<SN>");
    reveal_strlit("</SN>");
    reveal_strlit("<DeviceID>");
    reveal_strlit("</DeviceID>");
    reveal_strlit("<Result>");
    reveal_strlit("</Result>");
    reveal_strlit("</CmdType><SN>");
    reveal_strlit("</SN><DeviceID>");
    reveal_strlit("</DeviceID><Result>");
    reveal_strlit("</Result></Response>");
    let s = spec_device_status_xml(x);
    let snv = dec_chars(x.sn as nat);
    lemma_dec_chars_digits(x.sn as nat);
    lemma_dec_chars_roundtrip(x.sn as nat);
    assert(no_lt(snv)) by {
        assert forall|i: int| 0 <= i < snv.len() implies #[trigger] snv[i] != '<' by {
            assert(is_digit_char(snv[i]));
        }
    }
    assert(matches_at_chars(s, "<Response>"@, 0)) by {
        assert(s.subrange(0, 10) =~= "<Response>"@);
    }
    assert(spec_find_chars_from(s, "<Response>"@, 0) == Some(0int));
    let c = x.cmd_type@;
    let d = x.device_id@;
    let re = x.result@;
    let p1: int = 19 + c.len() as int + 10;
    let p2: int = p1 + 4 + snv.len() as int + 5;
    let p3: int = p2 + 10 + d.len() as int + 11;
    assert(s.subrange(10, 19) =~= "<CmdType>"@);
    assert(s.subrange(19int, 19 + c.len() as int) =~= c);
    assert(s.subrange(19 + c.len() as int, 19 + c.len() as int + 10) =~= "</CmdType>"@);
    lemma_take_field_exact(s, 10, "<CmdType>"@, "</CmdType>"@, c);
    assert(s.subrange(p1, p1 + 4) =~= "<SN>"@);
    assert(s.subrange(p1 + 4, p1 + 4 + snv.len() as int) =~= snv);
    assert(s.subrange(p1 + 4 + snv.len() as int, p1 + 4 + snv.len() as int + 5) =~= "</SN>"@);
    lemma_take_field_exact(s, p1, "<SN>"@, "</SN>"@, snv);
    assert(spec_num_u32(snv) == Some(x.sn));
    assert(s.subrange(p2, p2 + 10) =~= "<DeviceID>"@);
    assert(s.subrange(p2 + 10, p2 + 10 + d.len() as int) =~= d);
    assert(s.subrange(p2 + 10 + d.len() as int, p2 + 10 + d.len() as int + 11)
        =~= "</DeviceID>"@);
    lemma_take_field_exact(s, p2, "<DeviceID>"@, "</DeviceID>"@, d);
    assert(s.subrange(p3, p3 + 8) =~= "<Result>"@);
    assert(s.subrange(p3 + 8, p3 + 8 + re.len() as int) =~= re);
    assert(s.subrange(p3 + 8 + re.len() as int, p3 + 8 + re.len() as int + 9) =~= "</Result>"@);
    lemma_take_field_exact(s, p3, "<Result>"@, "</Result>"@, re);
}

/// A device-information answer from a device.
#[derive(Debug, PartialEq)]
pub struct DeviceInfo {
    pub cmd_type: String,
    pub sn: u32,
    pub device_id: String,
    pub device_name: String,
    pub manufacturer: String,
    pub model: String,
    pub firmware: String,
    pub result: String,
}

/// The canonical XML text of a device-information answer.
pub open spec fn spec_device_info_xml(x: DeviceInfo) -> Seq<char> {
    "<Response><CmdType>"@ + x.cmd_type@ + "</CmdType><SN>"@ + dec_chars(x.sn as nat)
        + "</SN><DeviceID>"@ + x.device_id@ + "</DeviceID><DeviceName>"@ + x.device_name@
        + "</DeviceName><Manufacturer>"@ + x.manufacturer@ + "</Manufacturer><Model>"@
        + x.model@ + "</Model><Firmware>"@ + x.firmware@ + "</Firmware><Result>"@ + x.result@
        + "</Result></Response>"@
}

/// What parsing a device-information answer yields: the eight fields in
/// declaration order.
pub open spec fn spec_parse_device_info(s: Seq<char>) -> Option<(Seq<char>, u32, Seq<char>, Seq<char>, Seq<char>, Seq<char>, Seq<char>, Seq<char>)> {
    match spec_find_chars_from(s, "<Response>"@, 0) {
        None => None,
        Some(p0) => match spec_take_field(s, p0 + 10, "<CmdType>"@, "</CmdType>"@) {
            None => None,
            Some((cmd, p1)) => match spec_take_field(s, p1, "<SN>"@, "</SN>"@) {
                None => None,
                Some((snv, p2)) => match spec_num_u32(snv) {
                    None => None,
                    Some(sn) => match spec_take_field(s, p2, "<DeviceID>"@, "</DeviceID>"@) {
                        None => None,
                        Some((dev, p3)) => match spec_take_field(
                            s,
                            p3,
                            "<DeviceName>"@,
                            "</DeviceName>"@,
                        ) {
                            None => None,
                            Some((dn, p4)) => match spec_take_field(
                                s,
                                p4,
                                "<Manufacturer>"@,
                                "</Manufacturer>"@,
                            ) {
                                None => None,
                                Some((mf, p5)) => match spec_take_field(
                                    s,
                                    p5,
                                    "<Model>"@,
                                    "</Model>"@,
                                ) {
                                    None => None,
                                    Some((md, p6)) => match spec_take_field(
                                        s,
                                        p6,
                                        "<Firmware>"@,
                                        "</Firmware>"@,
                                    ) {
                                        None => None,
                                        Some((fw, p7)) => match spec_take_field(
                                            s,
                                            p7,
                                            "<Result>"@,
                                            "</Result>"@,
                                        ) {
                                            None => None,
                                            Some((res, _)) => Some(
                                                (cmd, sn, dev, dn, mf, md, fw, res),
                                            ),
                                        },
                                    },
                                },
                            },
                        },
                    },
                },
            },
        },
    }
}

impl Default for DeviceInfo {
    /// The empty answer that a failed parse falls back to.
    fn default() -> (r: DeviceInfo)
        ensures
            r.cmd_type@ == Seq::<char>::empty(),
            r.sn == 0,
            r.device_id@ == Seq::<char>::empty(),
            r.device_name@ == Seq::<char>::empty(),
            r.manufacturer@ == Seq::<char>::empty(),
            r.model@ == Seq::<char>::empty(),
            r.firmware@ == Seq::<char>::empty(),
            r.result@ == Seq::<char>::empty(),
    {
        DeviceInfo {
            cmd_type: String::new(),
            sn: 0,
            device_id: String::new(),
            device_name: String::new(),
            manufacturer: String::new(),
            model: String::new(),
            firmware: String::new(),
            result: String::new(),
        }
    }
}

impl DeviceInfo {
    /// Writes the canonical XML text of this answer.
    pub fn serialize_to_xml(&self) -> (r: String)
        ensures
            r@ == spec_device_info_xml(*self),
    {
        let mut out = String::new();
        let sn = u64_to_string(self.sn as u64);
        push_field(&mut out, "<Response><CmdType>", self.cmd_type.as_str(), "</CmdType>");
        push_field(&mut out, "<SN>", sn.as_str(), "</SN>");
        push_field(&mut out, "<DeviceID>", self.device_id.as_str(), "</DeviceID>");
        push_field(&mut out, "<DeviceName>", self.device_name.as_str(), "</DeviceName>");
        push_field(&mut out, "<Manufacturer>", self.manufacturer.as_str(), "</Manufacturer>");
        push_field(&mut out, "<Model>", self.model.as_str(), "</Model>");
        push_field(&mut out, "<Firmware>", self.firmware.as_str(), "</Firmware>");
        push_field(&mut out, "<Result>", self.result.as_str(), "</Result>");
        out.append("</Response>");
        proof {
            reveal_strlit("<Response><CmdType>");
            reveal_strlit("</CmdType>");
            reveal_strlit("<SN>");
            reveal_strlit("</SN>");
            reveal_strlit("<DeviceID>");
            reveal_strlit("</DeviceID>");
            reveal_strlit("<DeviceName>");
            reveal_strlit("</DeviceName>");
            reveal_strlit("<Manufacturer>");
            reveal_strlit("</Manufacturer>");
            reveal_strlit("<Model>");
            reveal_strlit("</Model>");
            reveal_strlit("<Firmware>");
            reveal_strlit("</Firmware>");
            reveal_strlit("<Result>");
            reveal_strlit("</Result>");
            reveal_strlit("</Response>");
            reveal_strlit("</CmdType><SN>");
            reveal_strlit("</SN><DeviceID>");
            reveal_strlit("</DeviceID><DeviceName>");
            reveal_strlit("</DeviceName><Manufacturer>");
            reveal_strlit("</Manufacturer><Model>");
            reveal_strlit("</Model><Firmware>");
            reveal_strlit("</Firmware><Result>");
            reveal_strlit("</Result></Response>");
            assert(out@ =~= spec_device_info_xml(*self));
        }
        out
    }

    /// Reads an answer from XML text; a text that does not parse yields
    /// the default value.
    pub fn deserialize_from_xml(s: String) -> (r: DeviceInfo)
        ensures
            match spec_parse_device_info(s@) {
                Some(t) => r.cmd_type@ == t.0 && r.sn == t.1 && r.device_id@ == t.2
                    && r.device_name@ == t.3 && r.manufacturer@ == t.4 && r.model@ == t.5
                    && r.firmware@ == t.6 && r.result@ == t.7,
                None => r.cmd_type@ == Seq::<char>::empty() && r.sn == 0 && r.device_id@
                    == Seq::<char>::empty() && r.device_name@ == Seq::<char>::empty()
                    && r.manufacturer@ == Seq::<char>::empty() && r.model@
                    == Seq::<char>::empty() && r.firmware@ == Seq::<char>::empty()
                    && r.result@ == Seq::<char>::empty(),
            },
    {
        let text = s.as_str();
        let total = text.unicode_len();
        let p0 = match find_str_from(text, "<Response>", 0) {
            None => {
                return DeviceInfo::default();
            },
            Some(p) => p,
        };
        proof {
            lemma_find_chars_from_correct(text@, "<Response>"@, 0);
            reveal_strlit("<Response>");
            assert(p0 + 10 <= total);
        }
        let (cmd, p1) = match take_field(text, p0 + 10, "<CmdType>", "</CmdType>") {
            None => {
                return DeviceInfo::default();
            },
            Some(x) => x,
        };
        let (snv, p2) = match take_field(text, p1, "<SN>", "</SN>") {
            None => {
                return DeviceInfo::default();
            },
            Some(x) => x,
        };
        let sn = match parse_num_u32(snv.as_str()) {
            None => {
                return DeviceInfo::default();
            },
            Some(x) => x,
        };
        let (dev, p3) = match take_field(text, p2, "<DeviceID>", "</DeviceID>") {
            None => {
                return DeviceInfo::default();
            },
            Some(x) => x,
        };
        let (dn, p4) = match take_field(text, p3, "<DeviceName>", "</DeviceName>") {
            None => {
                return DeviceInfo::default();
            },
            Some(x) => x,
        };
        let (mf, p5) = match take_field(text, p4, "<Manufacturer>", "</Manufacturer>") {
            None => {
                return DeviceInfo::default();
            },
            Some(x) => x,
        };
        let (md, p6) = match take_field(text, p5, "<Model>", "</Model>") {
            None => {
                return DeviceInfo::default();
            },
            Some(x) => x,
        };
        let (fw, p7) = match take_field(text, p6, "<Firmware>", "</Firmware>") {
            None => {
                return DeviceInfo::default();
            },
            Some(x) => x,
        };
        let (res, _p8) = match take_field(text, p7, "<Result>", "</Result>") {
            None => {
                return DeviceInfo::default();
            },
            Some(x) => x,
        };
        DeviceInfo {
            cmd_type: cmd,
            sn,
            device_id: dev,
            device_name: dn,
            manufacturer: mf,
            model: md,
            firmware: fw,
            result: res,
        }
    }
}

/// Decoding an encoded device-information answer yields the same message.
#[verifier::rlimit(60)]
pub proof fn lemma_device_info_roundtrip(x: DeviceInfo)
    requires
        no_lt(x.cmd_type@),
        no_lt(x.device_id@),
        no_lt(x.device_name@),
        no_lt(x.manufacturer@),
        no_lt(x.model@),
        no_lt(x.firmware@),
        no_lt(x.result@),
    ensures
        spec_parse_device_info(spec_device_info_xml(x)) == Some(
            (
                x.cmd_type@,
                x.sn,
                x.device_id@,
                x.device_name@,
                x.manufacturer@,
                x.model@,
                x.firmware@,
                x.result@,
            ),
        ),
{
    reveal_strlit("<Response><CmdType>");
    reveal_strlit("<Response>");
    reveal_strlit("<CmdType>");
    reveal_strlit("</CmdType>");
    reveal_strlit("<SN>");
    reveal_strlit("</SN>");
    reveal_strlit("<DeviceID>");
    reveal_strlit("</DeviceID>");
    reveal_strlit("<DeviceName>");
    reveal_strlit("</DeviceName>");
    reveal_strlit("<Manufacturer>");
    reveal_strlit("</Manufacturer>");
    reveal_strlit("<Model>");
    reveal_strlit("</Model>");
    reveal_strlit("<Firmware>");
    reveal_strlit("</Firmware>");
    reveal_strlit("<Result>");
    reveal_strlit("</Result>");
    reveal_strlit("</CmdType><SN>");
    reveal_strlit("</SN><DeviceID>");
    reveal_strlit("</DeviceID><DeviceName>");
    reveal_strlit("</DeviceName><Manufacturer>");
    reveal_strlit("</Manufacturer><Model>");
    reveal_strlit("</Model><Firmware>");
    reveal_strlit("</Firmware><Result>");
    reveal_strlit("</Result></Response>");
    let s = spec_device_info_xml(x);
    let snv = dec_chars(x.sn as nat);
    lemma_dec_chars_digits(x.sn as nat);
    lemma_dec_chars_roundtrip(x.sn as nat);
    assert(no_lt(snv)) by {
        assert forall|i: int| 0 <= i < snv.len() implies #[trigger] snv[i] != '<' by {
            assert(is_digit_char(snv[i]));
        }
    }
    assert(matches_at_chars(s, "<Response>"@, 0)) by {
        assert(s.subrange(0, 10) =~= "<Response>"@);
    }
    assert(spec_find_chars_from(s, "<Response>"@, 0) == Some(0int));
    let c = x.cmd_type@;
    let d = x.device_id@;
    let dn = x.device_name@;
    let mf = x.manufacturer@;
    let md = x.model@;
    let fw = x.firmware@;
    let re = x.result@;
    let p1: int = 19 + c.len() as int + 10;
    let p2: int = p1 + 4 + snv.len() as int + 5;
    let p3: int = p2 + 10 + d.len() as int + 11;
    let p4: int = p3 + 12 + dn.len() as int + 13;
    let p5: int = p4 + 14 + mf.len() as int + 15;
    let p6: int = p5 + 7 + md.len() as int + 8;
    let p7: int = p6 + 10 + fw.len() as int + 11;
    assert(s.subrange(10, 19) =~= "<CmdType>"@);
    assert(s.subrange(19int, 19 + c.len() as int) =~= c);
    assert(s.subrange(19 + c.len() as int, 19 + c.len() as int + 10) =~= "</CmdType>"@);
    lemma_take_field_exact(s, 10, "<CmdType>"@, "</CmdType>"@, c);
    assert(s.subrange(p1, p1 + 4) =~= "<SN>"@);
    assert(s.subrange(p1 + 4, p1 + 4 + snv.len() as int) =~= snv);
    assert(s.subrange(p1 + 4 + snv.len() as int, p1 + 4 + snv.len() as int + 5) =~= "</SN>"@);
    lemma_take_field_exact(s, p1, "<SN>"@, "</SN>"@, snv);
    assert(spec_num_u32(snv) == Some(x.sn));
    assert(s.subrange(p2, p2 + 10) =~= "<DeviceID>"@);
    assert(s.subrange(p2 + 10, p2 + 10 + d.len() as int) =~= d);
    assert(s.subrange(p2 + 10 + d.len() as int, p2 + 10 + d.len() as int + 11)
        =~= "</DeviceID>"@);
    lemma_take_field_exact(s, p2, "<DeviceID>"@, "</DeviceID>"@, d);
    assert(s.subrange(p3, p3 + 12) =~= "<DeviceName>"@);
    assert(s.subrange(p3 + 12, p3 + 12 + dn.len() as int) =~= dn);
    assert(s.subrange(p3 + 12 + dn.len() as int, p3 + 12 + dn.len() as int + 13)
        =~= "</DeviceName>"@);
    lemma_take_field_exact(s, p3, "<DeviceName>"@, "</DeviceName>"@, dn);
    assert(s.subrange(p4, p4 + 14) =~= "<Manufacturer>"@);
    assert(s.subrange(p4 + 14, p4 + 14 + mf.len() as int) =~= mf);
    assert(s.subrange(p4 + 14 + mf.len() as int, p4 + 14 + mf.len() as int + 15)
        =~= "</Manufacturer>"@);
    lemma_take_field_exact(s, p4, "<Manufacturer>"@, "</Manufacturer>"@, mf);
    assert(s.subrange(p5, p5 + 7) =~= "<Model>"@);
    assert(s.subrange(p5 + 7, p5 + 7 + md.len() as int) =~= md);
    assert(s.subrange(p5 + 7 + md.len() as int, p5 + 7 + md.len() as int + 8) =~= "</Model>"@);
    lemma_take_field_exact(s, p5, "<Model>"@, "</Model>"@, md);
    assert(s.subrange(p6, p6 + 10) =~= "<Firmware>"@);
    assert(s.subrange(p6 + 10, p6 + 10 + fw.len() as int) =~= fw);
    assert(s.subrange(p6 + 10 + fw.len() as int, p6 + 10 + fw.len() as int + 11)
        =~= "</Firmware>"@);
    lemma_take_field_exact(s, p6, "<Firmware>"@, "</Firmware>"@, fw);
    assert(s.subrange(p7, p7 + 8) =~= "<Result>"@);
    assert(s.subrange(p7 + 8, p7 + 8 + re.len() as int) =~= re);
    assert(s.subrange(p7 + 8 + re.len() as int, p7 + 8 + re.len() as int + 9) =~= "</Result>"@);
    lemma_take_field_exact(s, p7, "<Result>"@, "</Result>"@, re);
}

/// An alarm summary, as some catalogs carry it.
#[derive(Debug, PartialEq)]
pub struct AlarmStatus {
    num: Option<String>,
}

/// The value of a numeral element as a `u16`, when it is one.
pub open spec fn spec_num_u16(v: Seq<char>) -> Option<u16> {
    if v.len() > 0 && all_digit_chars(v) && dec_val_chars(v) <= u16::MAX {
        Some(dec_val_chars(v) as u16)
    } else {
        None
    }
}

/// Reads the whole of `v` as a `u16` numeral.
pub fn parse_num_u16(v: &str) -> (r: Option<u16>)
    ensures
        r == spec_num_u16(v@),
{
    let n = v.unicode_len();
    proof {
        assert(v@.subrange(0, n as int) =~= v@);
    }
    match parse_dec_str(v, 0, n) {
        None => None,
        Some(x) => {
            if x <= 0xffff {
                Some(x as u16)
            } else {
                None
            }
        },
    }
}

/// An optional element: the value when its tag stands at `pos`, else
/// `None` with the position unmoved.
pub open spec fn spec_take_opt(
    s: Seq<char>,
    pos: int,
    open: Seq<char>,
    close: Seq<char>,
) -> (Option<Seq<char>>, int) {
    match spec_take_field(s, pos, open, close) {
        Some((v, p)) => (Some(v), p),
        None => (None, pos),
    }
}

/// Reads an optional `<Tag>value</Tag>` element at `pos`.
pub fn take_opt(s: &str, pos: usize, open: &str, close: &str) -> (r: (Option<String>, usize))
    requires
        pos <= s@.len(),
    ensures
        ({
            let sp = spec_take_opt(s@, pos as int, open@, close@);
            &&& (match r.0 {
                Some(v) => sp.0 == Some(v@),
                None => sp.0 is None,
            })
            &&& r.1 as int == sp.1
            &&& pos <= r.1 <= s@.len()
        }),
{
    match take_field(s, pos, open, close) {
        Some((v, p)) => {
            proof {
                crate::strutil::lemma_scan_to_correct(s@, pos + open@.len(), '<');
            }
            (Some(v), p)
        },
        None => (None, pos),
    }
}

/// One catalog item: a channel of the device. Coordinates are kept as
/// the decimal text the device sent.
#[derive(Debug, PartialEq)]
pub struct Device {
    pub device_id: String,
    pub name: String,
    pub manufacturer: String,
    pub model: String,
    pub owner: String,
    pub civil_code: String,
    pub block: Option<String>,
    pub address: String,
    pub parental: u32,
    pub parent_id: String,
    pub register_way: u32,
    pub secrecy: u32,
    pub ip_address: Option<String>,
    pub port: Option<u16>,
    pub password: Option<String>,
    pub status: Option<String>,
    pub longitude: Option<String>,
    pub latitude: Option<String>,
    pub ptz_type: Option<u32>,
}

/// The field views of one catalog item.
pub struct DeviceFields {
    pub device_id: Seq<char>,
    pub name: Seq<char>,
    pub manufacturer: Seq<char>,
    pub model: Seq<char>,
    pub owner: Seq<char>,
    pub civil_code: Seq<char>,
    pub block: Option<Seq<char>>,
    pub address: Seq<char>,
    pub parental: u32,
    pub parent_id: Seq<char>,
    pub register_way: u32,
    pub secrecy: u32,
    pub ip_address: Option<Seq<char>>,
    pub port: Option<u16>,
    pub password: Option<Seq<char>>,
    pub status: Option<Seq<char>>,
    pub longitude: Option<Seq<char>>,
    pub latitude: Option<Seq<char>>,
    pub ptz_type: Option<u32>,
}

/// The view of a catalog item.
pub open spec fn device_fields(d: Device) -> DeviceFields {
    DeviceFields {
        device_id: d.device_id@,
        name: d.name@,
        manufacturer: d.manufacturer@,
        model: d.model@,
        owner: d.owner@,
        civil_code: d.civil_code@,
        block: match d.block {
            Some(x) => Some(x@),
            None => None,
        },
        address: d.address@,
        parental: d.parental,
        parent_id: d.parent_id@,
        register_way: d.register_way,
        secrecy: d.secrecy,
        ip_address: match d.ip_address {
            Some(x) => Some(x@),
            None => None,
        },
        port: d.port,
        password: match d.password {
            Some(x) => Some(x@),
            None => None,
        },
        status: match d.status {
            Some(x) => Some(x@),
            None => None,
        },
        longitude: match d.longitude {
            Some(x) => Some(x@),
            None => None,
        },
        latitude: match d.latitude {
            Some(x) => Some(x@),
            None => None,
        },
        ptz_type: d.ptz_type,
    }
}

/// An optional element's text: empty when absent.
pub open spec fn opt_elem(open: Seq<char>, v: Option<Seq<char>>, close: Seq<char>) -> Seq<char> {
    match v {
        Some(x) => open + x + close,
        None => Seq::<char>::empty(),
    }
}

/// The leading part of one catalog item: identification fields.
pub open spec fn spec_dev_a(f: DeviceFields) -> Seq<char> {
    "<Item><DeviceID>"@ + f.device_id + "</DeviceID><Name>"@ + f.name
        + "</Name><Manufacturer>"@ + f.manufacturer + "</Manufacturer><Model>"@ + f.model
        + "</Model><Owner>"@ + f.owner + "</Owner><CivilCode>"@ + f.civil_code
        + "</CivilCode>"@ + opt_elem("<Block>"@, f.block, "</Block>"@) + "<Address>"@
        + f.address + "</Address><Parental>"@ + dec_chars(f.parental as nat)
        + "</Parental><ParentID>"@ + f.parent_id + "</ParentID><RegisterWay>"@ + dec_chars(
        f.register_way as nat,
    ) + "</RegisterWay><Secrecy>"@ + dec_chars(f.secrecy as nat) + "</Secrecy>"@
}

/// The middle part of one catalog item: network and access fields.
pub open spec fn spec_dev_b(f: DeviceFields) -> Seq<char> {
    opt_elem("<IPAddress>"@, f.ip_address, "</IPAddress>"@) + (match f.port {
        Some(p) => "<Port>"@ + dec_chars(p as nat) + "</Port>"@,
        None => Seq::<char>::empty(),
    }) + opt_elem("<Password>"@, f.password, "</Password>"@) + opt_elem(
        "<Status>"@,
        f.status,
        "</Status>"@,
    )
}

/// The trailing part of one catalog item: position fields and the close.
pub open spec fn spec_dev_c(f: DeviceFields) -> Seq<char> {
    opt_elem("<Longitude>"@, f.longitude, "</Longitude>"@) + opt_elem(
        "<Latitude>"@,
        f.latitude,
        "</Latitude>"@,
    ) + (match f.ptz_type {
        Some(p) => "<PTZType>"@ + dec_chars(p as nat) + "</PTZType>"@,
        None => Seq::<char>::empty(),
    }) + "</Item>"@
}

/// The canonical XML text of one catalog item.
pub open spec fn spec_device_xml(f: DeviceFields) -> Seq<char> {
    spec_dev_a(f) + spec_dev_b(f) + spec_dev_c(f)
}

/// What parsing one catalog item yields, and where it ends; the
/// `<Item>` tag at `pos` has already been checked by the caller.
pub open spec fn spec_parse_device(s: Seq<char>, pos: int) -> Option<(DeviceFields, int)> {
    match spec_take_field(s, pos + 6, "<DeviceID>"@, "</DeviceID>"@) {
        None => None,
        Some((device_id, q1)) => match spec_take_field(s, q1, "<Name>"@, "</Name>"@) {
            None => None,
            Some((name, q2)) => match spec_take_field(
                s,
                q2,
                "<Manufacturer>"@,
                "</Manufacturer>"@,
            ) {
                None => None,
                Some((manufacturer, q3)) => match spec_take_field(
                    s,
                    q3,
                    "<Model>"@,
                    "</Model>"@,
                ) {
                    None => None,
                    Some((model, q4)) => match spec_take_field(s, q4, "<Owner>"@, "</Owner>"@) {
                        None => None,
                        Some((owner, q5)) => match spec_take_field(
                            s,
                            q5,
                            "<CivilCode>"@,
                            "</CivilCode>"@,
                        ) {
                            None => None,
                            Some((civil_code, q6)) => {
                                let (block, q7) = spec_take_opt(s, q6, "<Block>"@, "</Block>"@);
                                match spec_take_field(s, q7, "<Address>"@, "</Address>"@) {
                                    None => None,
                                    Some((address, q8)) => match spec_take_field(
                                        s,
                                        q8,
                                        "<Parental>"@,
                                        "</Parental>"@,
                                    ) {
                                        None => None,
                                        Some((parentalv, q9)) => match spec_num_u32(parentalv) {
                                            None => None,
                                            Some(parental) => match spec_take_field(
                                                s,
                                                q9,
                                                "<ParentID>"@,
                                                "</ParentID>"@,
                                            ) {
                                                None => None,
                                                Some((parent_id, q10)) => spec_parse_device_tail(
                                                    s,
                                                    q10,
                                                    device_id,
                                                    name,
                                                    manufacturer,
                                                    model,
                                                    owner,
                                                    civil_code,
                                                    block,
                                                    address,
                                                    parental,
                                                    parent_id,
                                                ),
                                            },
                                        },
                                    },
                                }
                            },
                        },
                    },
                },
            },
        },
    }
}

/// The rest of a catalog item from `<RegisterWay>` on.
pub open spec fn spec_parse_device_tail(
    s: Seq<char>,
    q10: int,
    device_id: Seq<char>,
    name: Seq<char>,
    manufacturer: Seq<char>,
    model: Seq<char>,
    owner: Seq<char>,
    civil_code: Seq<char>,
    block: Option<Seq<char>>,
    address: Seq<char>,
    parental: u32,
    parent_id: Seq<char>,
) -> Option<(DeviceFields, int)> {
    match spec_take_field(s, q10, "<RegisterWay>"@, "</RegisterWay>"@) {
        None => None,
        Some((rwv, q11)) => match spec_num_u32(rwv) {
            None => None,
            Some(register_way) => match spec_take_field(s, q11, "<Secrecy>"@, "</Secrecy>"@) {
                None => None,
                Some((secv, q12)) => match spec_num_u32(secv) {
                    None => None,
                    Some(secrecy) => {
                        let (ip_address, q13) = spec_take_opt(
                            s,
                            q12,
                            "<IPAddress>"@,
                            "</IPAddress>"@,
                        );
                        let (portv, q14) = spec_take_opt(s, q13, "<Port>"@, "</Port>"@);
                        let port_ok = match portv {
                            Some(v) => spec_num_u16(v) is Some,
                            None => true,
                        };
                        if !port_ok {
                            None
                        } else {
                            let port = match portv {
                                Some(v) => Some(spec_num_u16(v)->Some_0),
                                None => None,
                            };
                            let (password, q15) = spec_take_opt(
                                s,
                                q14,
                                "<Password>"@,
                                "</Password>"@,
                            );
                            let (status, q16) = spec_take_opt(s, q15, "<Status>"@, "</Status>"@);
                            let (longitude, q17) = spec_take_opt(
                                s,
                                q16,
                                "<Longitude>"@,
                                "</Longitude>"@,
                            );
                            let (latitude, q18) = spec_take_opt(
                                s,
                                q17,
                                "<Latitude>"@,
                                "</Latitude>"@,
                            );
                            let (ptzv, q19) = spec_take_opt(s, q18, "<PTZType>"@, "</PTZType>"@);
                            let ptz_ok = match ptzv {
                                Some(v) => spec_num_u32(v) is Some,
                                None => true,
                            };
                            if !ptz_ok {
                                None
                            } else {
                                let ptz_type = match ptzv {
                                    Some(v) => Some(spec_num_u32(v)->Some_0),
                                    None => None,
                                };
                                if q19 + 7 <= s.len() && s.subrange(q19, q19 + 7) == "</Item>"@ {
                                    Some(
                                        (
                                            DeviceFields {
                                                device_id,
                                                name,
                                                manufacturer,
                                                model,
                                                owner,
                                                civil_code,
                                                block,
                                                address,
                                                parental,
                                                parent_id,
                                                register_way,
                                                secrecy,
                                                ip_address,
                                                port,
                                                password,
                                                status,
                                                longitude,
                                                latitude,
                                                ptz_type,
                                            },
                                            q19 + 7,
                                        ),
                                    )
                                } else {
                                    None
                                }
                            }
                        }
                    },
                },
            },
        },
    }
}

/// Reads one catalog item standing at `pos`; the caller has checked the
/// `<Item>` tag there.
#[verifier::rlimit(60)]
fn parse_device(s: &str, pos: usize) -> (r: Option<(Device, usize)>)
    requires
        pos + 6 <= s@.len(),
    ensures
        match r {
            Some(p) => spec_parse_device(s@, pos as int) == Some(
                (device_fields(p.0), p.1 as int),
            ) && pos < p.1 <= s@.len(),
            None => spec_parse_device(s@, pos as int) is None,
        },
{
    let total = s.unicode_len();
    let (device_id, q1) = match take_field(s, pos + 6, "<DeviceID>", "</DeviceID>") {
        None => {
            return None;
        },
        Some(x) => x,
    };
    let (name, q2) = match take_field(s, q1, "<Name>", "</Name>") {
        None => {
            return None;
        },
        Some(x) => x,
    };
    let (manufacturer, q3) = match take_field(s, q2, "<Manufacturer>", "</Manufacturer>") {
        None => {
            return None;
        },
        Some(x) => x,
    };
    let (model, q4) = match take_field(s, q3, "<Model>", "</Model>") {
        None => {
            return None;
        },
        Some(x) => x,
    };
    let (owner, q5) = match take_field(s, q4, "<Owner>", "</Owner>") {
        None => {
            return None;
        },
        Some(x) => x,
    };
    let (civil_code, q6) = match take_field(s, q5, "<CivilCode>", "</CivilCode>") {
        None => {
            return None;
        },
        Some(x) => x,
    };
    let (block, q7) = take_opt(s, q6, "<Block>", "</Block>");
    let (address, q8) = match take_field(s, q7, "<Address>", "</Address>") {
        None => {
            return None;
        },
        Some(x) => x,
    };
    let (parentalv, q9) = match take_field(s, q8, "<Parental>", "</Parental>") {
        None => {
            return None;
        },
        Some(x) => x,
    };
    let parental = match parse_num_u32(parentalv.as_str()) {
        None => {
            return None;
        },
        Some(x) => x,
    };
    let (parent_id, q10) = match take_field(s, q9, "<ParentID>", "</ParentID>") {
        None => {
            return None;
        },
        Some(x) => x,
    };
    let (rwv, q11) = match take_field(s, q10, "<RegisterWay>", "</RegisterWay>") {
        None => {
            return None;
        },
        Some(x) => x,
    };
    let register_way = match parse_num_u32(rwv.as_str()) {
        None => {
            return None;
        },
        Some(x) => x,
    };
    let (secv, q12) = match take_field(s, q11, "<Secrecy>", "</Secrecy>") {
        None => {
            return None;
        },
        Some(x) => x,
    };
    let secrecy = match parse_num_u32(secv.as_str()) {
        None => {
            return None;
        },
        Some(x) => x,
    };
    let (ip_address, q13) = take_opt(s, q12, "<IPAddress>", "</IPAddress>");
    let (portv, q14) = take_opt(s, q13, "<Port>", "</Port>");
    let port = match &portv {
        Some(v) => match parse_num_u16(v.as_str()) {
            None => {
                return None;
            },
            Some(x) => Some(x),
        },
        None => None,
    };
    let (password, q15) = take_opt(s, q14, "<Password>", "</Password>");
    let (status, q16) = take_opt(s, q15, "<Status>", "</Status>");
    let (longitude, q17) = take_opt(s, q16, "<Longitude>", "</Longitude>");
    let (latitude, q18) = take_opt(s, q17, "<Latitude>", "</Latitude>");
    let (ptzv, q19) = take_opt(s, q18, "<PTZType>", "</PTZType>");
    let ptz_type = match &ptzv {
        Some(v) => match parse_num_u32(v.as_str()) {
            None => {
                return None;
            },
            Some(x) => Some(x),
        },
        None => None,
    };
    if !lit_at(s, q19, "</Item>") {
        proof {
            reveal_strlit("</Item>");
        }
        return None;
    }
    proof {
        reveal_strlit("</Item>");
    }
    Some(
        (
            Device {
                device_id,
                name,
                manufacturer,
                model,
                owner,
                civil_code,
                block,
                address,
                parental,
                parent_id,
                register_way,
                secrecy,
                ip_address,
                port,
                password,
                status,
                longitude,
                latitude,
                ptz_type,
            },
            q19 + 7,
        ),
    )
}

/// What parsing a run of `<Item>` elements from `pos` yields, and where
/// the run ends.
pub open spec fn spec_parse_items(s: Seq<char>, pos: int) -> Option<(Seq<DeviceFields>, int)>
    decreases s.len() - pos,
{
    if !(0 <= pos && pos + 6 <= s.len() && s.subrange(pos, pos + 6) == "<Item>"@) {
        Some((Seq::<DeviceFields>::empty(), pos))
    } else {
        match spec_parse_device(s, pos) {
            None => None,
            Some((d, p2)) => {
                if pos < p2 <= s.len() {
                    match spec_parse_items(s, p2) {
                        None => None,
                        Some((rest, p3)) => Some((seq![d] + rest, p3)),
                    }
                } else {
                    None
                }
            },
        }
    }
}

/// Reads the run of `<Item>` elements standing at `pos`.
fn parse_items(s: &str, pos: usize) -> (r: Option<(Vec<Device>, usize)>)
    requires
        pos <= s@.len(),
    ensures
        match r {
            Some(p) => spec_parse_items(s@, pos as int) == Some(
                (p.0@.map_values(|d: Device| device_fields(d)), p.1 as int),
            ) && pos <= p.1 <= s@.len(),
            None => spec_parse_items(s@, pos as int) is None,
        },
{
    let total = s.unicode_len();
    let mut items: Vec<Device> = Vec::new();
    let mut cur: usize = pos;
    loop
        invariant
            pos <= cur <= total,
            total == s@.len(),
            match spec_parse_items(s@, cur as int) {
                Some(t) => spec_parse_items(s@, pos as int) == Some(
                    (items@.map_values(|d: Device| device_fields(d)) + t.0, t.1),
                ),
                None => spec_parse_items(s@, pos as int) is None,
            },
        decreases total - cur,
    {
        proof {
            reveal_strlit("<Item>");
        }
        if !lit_at(s, cur, "<Item>") {
            proof {
                assert(spec_parse_items(s@, cur as int) == Some(
                    (Seq::<DeviceFields>::empty(), cur as int),
                ));
                assert(items@.map_values(|d: Device| device_fields(d)) + Seq::<
                    DeviceFields,
                >::empty() =~= items@.map_values(|d: Device| device_fields(d)));
            }
            return Some((items, cur));
        }
        let (d, p2) = match parse_device(s, cur) {
            None => {
                return None;
            },
            Some(x) => x,
        };
        proof {
            let ghost old_items = items@;
            assert(spec_parse_items(s@, cur as int) == (match spec_parse_items(s@, p2 as int) {
                None => None::<(Seq<DeviceFields>, int)>,
                Some((rest, p3)) => Some((seq![device_fields(d)] + rest, p3)),
            }));
        }
        let ghost before = items@;
        items.push(d);
        proof {
            assert(items@.map_values(|x: Device| device_fields(x)) =~= before.map_values(
                |x: Device| device_fields(x),
            ).push(device_fields(d)));
            if spec_parse_items(s@, p2 as int) is Some {
                let t = spec_parse_items(s@, p2 as int)->Some_0;
                assert(before.map_values(|x: Device| device_fields(x)) + (seq![
                    device_fields(d),
                ] + t.0) =~= items@.map_values(|x: Device| device_fields(x)) + t.0);
            }
        }
        cur = p2;
    }
}

/// The catalog answer from a device: its channels.
#[derive(Debug, PartialEq)]
pub struct DeviceList {
    pub num: u32,
    pub items: Vec<Device>,
}

/// The catalog answer from a device.
#[derive(Debug, PartialEq)]
pub struct Catalog {
    pub cmd_type: String,
    pub sn: u32,
    pub device_id: String,
    pub sum_num: u32,
    pub device_list: DeviceList,
}

/// The canonical XML text of a run of catalog items.
pub open spec fn spec_items_xml(items: Seq<DeviceFields>) -> Seq<char>
    decreases items.len(),
{
    if items.len() == 0 {
        Seq::<char>::empty()
    } else {
        spec_device_xml(items[0]) + spec_items_xml(items.drop_first())
    }
}

/// The canonical XML text of a catalog answer.
pub open spec fn spec_catalog_xml(c: Catalog) -> Seq<char> {
    "<Response><CmdType>"@ + c.cmd_type@ + "</CmdType><SN>"@ + dec_chars(c.sn as nat)
        + "</SN><DeviceID>"@ + c.device_id@ + "</DeviceID><SumNum>"@ + dec_chars(
        c.sum_num as nat,
    ) + "</SumNum><DeviceList><Num>"@ + dec_chars(c.device_list.num as nat) + "</Num>"@
        + spec_items_xml(c.device_list.items@.map_values(|d: Device| device_fields(d)))
        + "</DeviceList></Response>"@
}

/// What parsing a catalog answer yields: header fields, list size, and
/// the item views.
pub open spec fn spec_parse_catalog(s: Seq<char>) -> Option<(Seq<char>, u32, Seq<char>, u32, u32, Seq<DeviceFields>)> {
    match spec_find_chars_from(s, "<Response>"@, 0) {
        None => None,
        Some(p0) => match spec_take_field(s, p0 + 10, "<CmdType>"@, "</CmdType>"@) {
            None => None,
            Some((cmd, p1)) => match spec_take_field(s, p1, "<SN>"@, "</SN>"@) {
                None => None,
                Some((snv, p2)) => match spec_num_u32(snv) {
                    None => None,
                    Some(sn) => match spec_take_field(s, p2, "<DeviceID>"@, "</DeviceID>"@) {
                        None => None,
                        Some((dev, p3)) => match spec_take_field(
                            s,
                            p3,
                            "<SumNum>"@,
                            "</SumNum>"@,
                        ) {
                            None => None,
                            Some((sumv, p4)) => match spec_num_u32(sumv) {
                                None => None,
                                Some(sum_num) => match spec_take_field(
                                    s,
                                    p4,
                                    "<DeviceList><Num>"@,
                                    "</Num>"@,
                                ) {
                                    None => None,
                                    Some((numv, p5)) => match spec_num_u32(numv) {
                                        None => None,
                                        Some(num) => match spec_parse_items(s, p5) {
                                            None => None,
                                            Some((items, p6)) => {
                                                if p6 + 13 <= s.len() && s.subrange(
                                                    p6,
                                                    p6 + 13,
                                                ) == "</DeviceList>"@ {
                                                    Some((cmd, sn, dev, sum_num, num, items))
                                                } else {
                                                    None
                                                }
                                            },
                                        },
                                    },
                                },
                            },
                        },
                    },
                },
            },
        },
    }
}

impl Default for Catalog {
    /// The empty catalog that a failed parse falls back to.
    fn default() -> (r: Catalog)
        ensures
            r.cmd_type@ == Seq::<char>::empty(),
            r.sn == 0,
            r.device_id@ == Seq::<char>::empty(),
            r.sum_num == 0,
            r.device_list.num == 0,
            r.device_list.items@.len() == 0,
    {
        Catalog {
            cmd_type: String::new(),
            sn: 0,
            device_id: String::new(),
            sum_num: 0,
            device_list: DeviceList { num: 0, items: Vec::new() },
        }
    }
}

impl Device {
    /// Writes the identification fields onto `out`.
    #[verifier::rlimit(80)]
    fn append_xml_a(&self, out: &mut String)
        ensures
            final(out)@ == old(out)@ + spec_dev_a(device_fields(*self)),
    {
        push_field(out, "<Item><DeviceID>", self.device_id.as_str(), "</DeviceID>");
        push_field(out, "<Name>", self.name.as_str(), "</Name>");
        push_field(out, "<Manufacturer>", self.manufacturer.as_str(), "</Manufacturer>");
        push_field(out, "<Model>", self.model.as_str(), "</Model>");
        push_field(out, "<Owner>", self.owner.as_str(), "</Owner>");
        push_field(out, "<CivilCode>", self.civil_code.as_str(), "</CivilCode>");
        match &self.block {
            Some(v) => push_field(out, "<Block>", v.as_str(), "</Block>"),
            None => (),
        }
        push_field(out, "<Address>", self.address.as_str(), "</Address>");
        let parental = u64_to_string(self.parental as u64);
        push_field(out, "<Parental>", parental.as_str(), "</Parental>");
        push_field(out, "<ParentID>", self.parent_id.as_str(), "</ParentID>");
        let rw = u64_to_string(self.register_way as u64);
        push_field(out, "<RegisterWay>", rw.as_str(), "</RegisterWay>");
        let sec = u64_to_string(self.secrecy as u64);
        push_field(out, "<Secrecy>", sec.as_str(), "</Secrecy>");
        proof {
            reveal_strlit("<Item><DeviceID>");
            reveal_strlit("</DeviceID>");
            reveal_strlit("<Name>");
            reveal_strlit("</Name>");
            reveal_strlit("<Manufacturer>");
            reveal_strlit("</Manufacturer>");
            reveal_strlit("<Model>");
            reveal_strlit("</Model>");
            reveal_strlit("<Owner>");
            reveal_strlit("</Owner>");
            reveal_strlit("<CivilCode>");
            reveal_strlit("</CivilCode>");
            reveal_strlit("<Block>");
            reveal_strlit("</Block>");
            reveal_strlit("<Address>");
            reveal_strlit("</Address>");
            reveal_strlit("<Parental>");
            reveal_strlit("</Parental>");
            reveal_strlit("<ParentID>");
            reveal_strlit("</ParentID>");
            reveal_strlit("<RegisterWay>");
            reveal_strlit("</RegisterWay>");
            reveal_strlit("<Secrecy>");
            reveal_strlit("</Secrecy>");
            reveal_strlit("</DeviceID><Name>");
            reveal_strlit("</Name><Manufacturer>");
            reveal_strlit("</Manufacturer><Model>");
            reveal_strlit("</Model><Owner>");
            reveal_strlit("</Owner><CivilCode>");
            reveal_strlit("</Address><Parental>");
            reveal_strlit("</Parental><ParentID>");
            reveal_strlit("</ParentID><RegisterWay>");
            reveal_strlit("</RegisterWay><Secrecy>");
            assert(final(out)@ =~= old(out)@ + spec_dev_a(device_fields(*self)));
        }
    }

    /// Writes the network and access fields onto `out`.
    #[verifier::rlimit(80)]
    fn append_xml_b(&self, out: &mut String)
        ensures
            final(out)@ == old(out)@ + spec_dev_b(device_fields(*self)),
    {
        match &self.ip_address {
            Some(v) => push_field(out, "<IPAddress>", v.as_str(), "</IPAddress>"),
            None => (),
        }
        match self.port {
            Some(p) => {
                let pv = u64_to_string(p as u64);
                push_field(out, "<Port>", pv.as_str(), "</Port>");
            },
            None => (),
        }
        match &self.password {
            Some(v) => push_field(out, "<Password>", v.as_str(), "</Password>"),
            None => (),
        }
        match &self.status {
            Some(v) => push_field(out, "<Status>", v.as_str(), "</Status>"),
            None => (),
        }
        proof {
            assert(final(out)@ =~= old(out)@ + spec_dev_b(device_fields(*self)));
        }
    }

    /// Writes the position fields and the close onto `out`.
    #[verifier::rlimit(80)]
    fn append_xml_c(&self, out: &mut String)
        ensures
            final(out)@ == old(out)@ + spec_dev_c(device_fields(*self)),
    {
        match &self.longitude {
            Some(v) => push_field(out, "<Longitude>", v.as_str(), "</Longitude>"),
            None => (),
        }
        match &self.latitude {
            Some(v) => push_field(out, "<Latitude>", v.as_str(), "</Latitude>"),
            None => (),
        }
        match self.ptz_type {
            Some(p) => {
                let pv = u64_to_string(p as u64);
                push_field(out, "<PTZType>", pv.as_str(), "</PTZType>");
            },
            None => (),
        }
        out.append("</Item>");
        proof {
            assert(final(out)@ =~= old(out)@ + spec_dev_c(device_fields(*self)));
        }
    }

    /// Writes the canonical XML text of this item onto `out`.
    pub fn append_xml(&self, out: &mut String)
        ensures
            final(out)@ == old(out)@ + spec_device_xml(device_fields(*self)),
    {
        self.append_xml_a(out);
        self.append_xml_b(out);
        self.append_xml_c(out);
        proof {
            assert(final(out)@ =~= old(out)@ + spec_device_xml(device_fields(*self)));
        }
    }
}

impl Catalog {
    /// Writes the canonical XML text of this catalog.
    pub fn serialize_to_xml(&self) -> (r: String)
        ensures
            r@ == spec_catalog_xml(*self),
    {
        let mut out = String::new();
        let sn = u64_to_string(self.sn as u64);
        let sum = u64_to_string(self.sum_num as u64);
        let num = u64_to_string(self.device_list.num as u64);
        push_field(&mut out, "<Response><CmdType>", self.cmd_type.as_str(), "</CmdType>");
        push_field(&mut out, "<SN>", sn.as_str(), "</SN>");
        push_field(&mut out, "<DeviceID>", self.device_id.as_str(), "</DeviceID>");
        push_field(&mut out, "<SumNum>", sum.as_str(), "</SumNum>");
        push_field(&mut out, "<DeviceList><Num>", num.as_str(), "</Num>");
        let ghost head = out@;
        let n = self.device_list.items.len();
        let mut i: usize = 0;
        while i < n
            invariant
                i <= n,
                n == self.device_list.items@.len(),
                out@ == head + spec_items_xml(
                    self.device_list.items@.subrange(0, i as int).map_values(
                        |d: Device| device_fields(d),
                    ),
                ),
            decreases n - i,
        {
            let ghost pre = out@;
            self.device_list.items[i].append_xml(&mut out);
            proof {
                let mapped_i = self.device_list.items@.subrange(0, i as int).map_values(
                    |d: Device| device_fields(d),
                );
                let mapped_i1 = self.device_list.items@.subrange(0, i + 1).map_values(
                    |d: Device| device_fields(d),
                );
                assert(mapped_i1 =~= mapped_i.push(
                    device_fields(self.device_list.items@[i as int]),
                ));
                lemma_items_xml_push(mapped_i, device_fields(self.device_list.items@[i as int]));
            }
            i += 1;
        }
        out.append("</DeviceList></Response>");
        proof {
            reveal_strlit("<Response><CmdType>");
            reveal_strlit("</CmdType>");
            reveal_strlit("<SN>");
            reveal_strlit("</SN>");
            reveal_strlit("<DeviceID>");
            reveal_strlit("</DeviceID>");
            reveal_strlit("<SumNum>");
            reveal_strlit("</SumNum>");
            reveal_strlit("<DeviceList><Num>");
            reveal_strlit("</Num>");
            reveal_strlit("</DeviceList></Response>");
            reveal_strlit("</CmdType><SN>");
            reveal_strlit("</SN><DeviceID>");
            reveal_strlit("</DeviceID><SumNum>");
            reveal_strlit("</SumNum><DeviceList><Num>");
            assert(self.device_list.items@.subrange(0, n as int) =~= self.device_list.items@);
            assert(out@ =~= spec_catalog_xml(*self));
        }
        out
    }

    /// Reads a catalog from XML text; a text that does not parse yields
    /// the default value.
    pub fn deserialize_from_xml(s: String) -> (r: Catalog)
        ensures
            match spec_parse_catalog(s@) {
                Some(t) => r.cmd_type@ == t.0 && r.sn == t.1 && r.device_id@ == t.2
                    && r.sum_num == t.3 && r.device_list.num == t.4
                    && r.device_list.items@.map_values(|d: Device| device_fields(d)) == t.5,
                None => r.cmd_type@ == Seq::<char>::empty() && r.sn == 0 && r.device_id@
                    == Seq::<char>::empty() && r.sum_num == 0 && r.device_list.num == 0
                    && r.device_list.items@.len() == 0,
            },
    {
        let text = s.as_str();
        let total = text.unicode_len();
        let p0 = match find_str_from(text, "<Response>", 0) {
            None => {
                return Catalog::default();
            },
            Some(p) => p,
        };
        proof {
            lemma_find_chars_from_correct(text@, "<Response>"@, 0);
            reveal_strlit("<Response>");
            assert(p0 + 10 <= total);
        }
        let (cmd, p1) = match take_field(text, p0 + 10, "<CmdType>", "</CmdType>") {
            None => {
                return Catalog::default();
            },
            Some(x) => x,
        };
        let (snv, p2) = match take_field(text, p1, "<SN>", "</SN>") {
            None => {
                return Catalog::default();
            },
            Some(x) => x,
        };
        let sn = match parse_num_u32(snv.as_str()) {
            None => {
                return Catalog::default();
            },
            Some(x) => x,
        };
        let (dev, p3) = match take_field(text, p2, "<DeviceID>", "</DeviceID>") {
            None => {
                return Catalog::default();
            },
            Some(x) => x,
        };
        let (sumv, p4) = match take_field(text, p3, "<SumNum>", "</SumNum>") {
            None => {
                return Catalog::default();
            },
            Some(x) => x,
        };
        let sum_num = match parse_num_u32(sumv.as_str()) {
            None => {
                return Catalog::default();
            },
            Some(x) => x,
        };
        let (numv, p5) = match take_field(text, p4, "<DeviceList><Num>", "</Num>") {
            None => {
                return Catalog::default();
            },
            Some(x) => x,
        };
        let num = match parse_num_u32(numv.as_str()) {
            None => {
                return Catalog::default();
            },
            Some(x) => x,
        };
        let (items, p6) = match parse_items(text, p5) {
            None => {
                return Catalog::default();
            },
            Some(x) => x,
        };
        if !lit_at(text, p6, "</DeviceList>") {
            proof {
                reveal_strlit("</DeviceList>");
            }
            return Catalog::default();
        }
        proof {
            reveal_strlit("</DeviceList>");
        }
        Catalog {
            cmd_type: cmd,
            sn,
            device_id: dev,
            sum_num,
            device_list: DeviceList { num, items },
        }
    }
}

/// Writing one more item extends the run's text by that item's text.
pub proof fn lemma_items_xml_push(items: Seq<DeviceFields>, d: DeviceFields)
    ensures
        spec_items_xml(items.push(d)) == spec_items_xml(items) + spec_device_xml(d),
    decreases items.len(),
{
    if items.len() == 0 {
        assert(items.push(d)[0] == d);
        assert(items.push(d).drop_first() =~= Seq::<DeviceFields>::empty());
        assert(spec_items_xml(Seq::<DeviceFields>::empty()) == Seq::<char>::empty());
        assert(spec_items_xml(items.push(d)) =~= spec_items_xml(items) + spec_device_xml(d));
    } else {
        assert(items.push(d)[0] == items[0]);
        assert(items.push(d).drop_first() =~= items.drop_first().push(d));
        lemma_items_xml_push(items.drop_first(), d);
        assert(spec_items_xml(items.push(d)) =~= spec_items_xml(items) + spec_device_xml(d));
    }
}

/// Decoding an encoded keepalive yields the same message back.
pub proof fn lemma_keep_alive_roundtrip(k: KeepAlive)
    requires
        keep_alive_wf(k),
    ensures
        spec_parse_keep_alive(spec_keep_alive_xml(k)) == Some(
            (k.cmd_type@, k.sn, k.device_id@, k.status@),
        ),
{
    reveal_strlit("<Notify><CmdType>");
    reveal_strlit("<Notify>");
    reveal_strlit("<CmdType>");
    reveal_strlit("</CmdType>");
    reveal_strlit("<SN>");
    reveal_strlit("</SN>");
    reveal_strlit("<DeviceID>");
    reveal_strlit("</DeviceID>");
    reveal_strlit("<Status>");
    reveal_strlit("</Status>");
    reveal_strlit("</Notify>");
    reveal_strlit("</CmdType><SN>");
    reveal_strlit("</SN><DeviceID>");
    reveal_strlit("</DeviceID><Status>");
    reveal_strlit("</Status></Notify>");
    let s = spec_keep_alive_xml(k);
    let sn = dec_chars(k.sn as nat);
    lemma_dec_chars_digits(k.sn as nat);
    lemma_dec_chars_roundtrip(k.sn as nat);
    assert(no_lt(sn)) by {
        assert forall|i: int| 0 <= i < sn.len() implies #[trigger] sn[i] != '<' by {
            assert(is_digit_char(sn[i]));
        }
    }
    assert(matches_at_chars(s, "<Notify>"@, 0)) by {
        assert(s.subrange(0, 8) =~= "<Notify>"@);
    }
    assert(spec_find_chars_from(s, "<Notify>"@, 0) == Some(0int));
    let c = k.cmd_type@;
    let d = k.device_id@;
    let st = k.status@;
    let p1: int = 17 + c.len() as int + 10;
    let p2: int = p1 + 4 + sn.len() as int + 5;
    let p3: int = p2 + 10 + d.len() as int + 11;
    assert(s.subrange(8, 17) =~= "<CmdType>"@);
    assert(s.subrange(17int, 17 + c.len() as int) =~= c);
    assert(s.subrange(17 + c.len() as int, 17 + c.len() as int + 10) =~= "</CmdType>"@);
    lemma_take_field_exact(s, 8, "<CmdType>"@, "</CmdType>"@, c);
    assert(s.subrange(p1, p1 + 4) =~= "<SN>"@);
    assert(s.subrange(p1 + 4, p1 + 4 + sn.len() as int) =~= sn);
    assert(s.subrange(p1 + 4 + sn.len() as int, p1 + 4 + sn.len() as int + 5) =~= "</SN>"@);
    lemma_take_field_exact(s, p1, "<SN>"@, "</SN>"@, sn);
    assert(spec_num_u32(sn) == Some(k.sn));
    assert(s.subrange(p2, p2 + 10) =~= "<DeviceID>"@);
    assert(s.subrange(p2 + 10, p2 + 10 + d.len() as int) =~= d);
    assert(s.subrange(p2 + 10 + d.len() as int, p2 + 10 + d.len() as int + 11) =~= "</DeviceID>"@);
    lemma_take_field_exact(s, p2, "<DeviceID>"@, "</DeviceID>"@, d);
    assert(s.subrange(p3, p3 + 8) =~= "<Status>"@);
    assert(s.subrange(p3 + 8, p3 + 8 + st.len() as int) =~= st);
    assert(s.subrange(p3 + 8 + st.len() as int, p3 + 8 + st.len() as int + 9) =~= "</Status>"@);
    lemma_take_field_exact(s, p3, "<Status>"@, "</Status>"@, st);
}

} // verus!
