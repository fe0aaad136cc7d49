use wvprs::config::Config;
use wvprs::handler::SipHandler;
use wvprs::sdp::SdpSessionType;
use wvprs::store::MemoryStore;

const GB: &str = "34020000001320000001";
const CHANNEL: &str = "34020000001320000002";

fn handler() -> SipHandler {
    let mut config = Config::default();
    config.my_ip = "192.168.1.10".to_string();
    let store = MemoryStore::new(&config);
    SipHandler::new(&config, store)
}

fn register_without_auth() -> Vec<u8> {
    let mut text = String::new();
    text.push_str("REGISTER sip:34020000002000000001@3402000000 SIP/2.0\r\n");
    text.push_str("Via: SIP/2.0/UDP 10.0.0.9:5060;rport;branch=z9hG4bK0001\r\n");
    text.push_str("From: <sip:34020000001320000001@3402000000>;tag=devtag1\r\n");
    text.push_str("To: <sip:34020000001320000001@3402000000>\r\n");
    text.push_str("Call-ID: call1@10.0.0.9\r\n");
    text.push_str("CSeq: 1 REGISTER\r\n");
    text.push_str("Expires: 3600\r\n");
    text.push_str("Content-Length: 0\r\n\r\n");
    text.into_bytes()
}

fn digest_for(uri: &str) -> String {
    let parsed_uri = rsip::common::uri::Uri::try_from(uri).unwrap();
    let generator = rsip::services::DigestGenerator {
        username: GB,
        password: "d383cf85b0e8ce0b",
        nonce: "f89d0eaccaf1c90453e2f84688ec800f05",
        uri: &parsed_uri,
        realm: "gbt@future_oriented.com",
        method: &rsip::common::Method::Register,
        qop: None,
        algorithm: rsip::headers::auth::Algorithm::Md5,
    };
    generator.compute()
}

fn register_with_auth(expires: u32, cseq: u32) -> Vec<u8> {
    let uri = "sip:34020000002000000001@3402000000";
    let digest = digest_for(uri);
    let mut text = String::new();
    text.push_str("REGISTER sip:34020000002000000001@3402000000 SIP/2.0\r\n");
    text.push_str("Via: SIP/2.0/UDP 10.0.0.9:5060;rport;branch=z9hG4bK0001\r\n");
    text.push_str("From: <sip:34020000001320000001@3402000000>;tag=devtag1\r\n");
    text.push_str("To: <sip:34020000001320000001@3402000000>\r\n");
    text.push_str("Call-ID: call1@10.0.0.9\r\n");
    text.push_str(&format!("CSeq: {} REGISTER\r\n", cseq));
    text.push_str(&format!(
        "Authorization: Digest username=\"{}\", realm=\"gbt@future_oriented.com\", \
         nonce=\"f89d0eaccaf1c90453e2f84688ec800f05\", uri=\"{}\", response=\"{}\", \
         algorithm=MD5\r\n",
        GB, uri, digest
    ));
    text.push_str(&format!("Expires: {}\r\n", expires));
    text.push_str("Content-Length: 0\r\n\r\n");
    text.into_bytes()
}

fn keepalive_message_bytes() -> Vec<u8> {
    let body = "<Notify><CmdType>Keepalive</CmdType><SN>5</SN><DeviceID>34020000001320000001</DeviceID><Status>OK</Status></Notify>";
    let mut text = String::new();
    text.push_str("MESSAGE sip:34020000002000000001@3402000000 SIP/2.0\r\n");
    text.push_str("Via: SIP/2.0/UDP 10.0.0.9:5060;rport;branch=z9hG4bK0002\r\n");
    text.push_str("From: <sip:34020000001320000001@3402000000>;tag=devtag2\r\n");
    text.push_str("To: <sip:34020000002000000001@3402000000>\r\n");
    text.push_str("Call-ID: call2@10.0.0.9\r\n");
    text.push_str("CSeq: 2 MESSAGE\r\n");
    text.push_str(&format!("Content-Length: {}\r\n\r\n", body.len()));
    text.push_str(body);
    text.into_bytes()
}

#[test]
fn register_challenge_then_accept() {
    let mut h = handler();
    let out = h.dispatch("10.0.0.9:5060", None, &register_without_auth(), 10);
    assert_eq!(out.len(), 1);
    let reply = String::from_utf8(out[0].data.clone()).unwrap();
    assert!(reply.starts_with("SIP/2.0 401 Unauthorized"));
    assert!(reply.contains("WWW-Authenticate: Digest realm=\"gbt@future_oriented.com\""));
    assert!(reply.contains("nonce=\"f89d0eaccaf1c90453e2f84688ec800f05\""));

    let out2 = h.dispatch("10.0.0.9:5060", None, &register_with_auth(3600, 2), 11);
    assert_eq!(out2.len(), 2);
    let ok = String::from_utf8(out2[0].data.clone()).unwrap();
    assert!(ok.starts_with("SIP/2.0 200 OK"));
    let query = String::from_utf8(out2[1].data.clone()).unwrap();
    assert!(query.starts_with("MESSAGE sip:34020000001320000001@3402000000 SIP/2.0"));
    assert!(query.contains("Content-Type: Application/MANSCDP+xml"));
    assert_eq!(h.store.sip_devices.len(), 1);
    assert_eq!(h.store.sip_devices[0].0, GB);
}

#[test]
fn register_with_wrong_digest_is_challenged() {
    let mut h = handler();
    let mut bytes = register_with_auth(3600, 2);
    let text = String::from_utf8(bytes.clone()).unwrap();
    let wrong = text.replace("response=\"", "response=\"ff");
    bytes = wrong.into_bytes();
    let out = h.dispatch("10.0.0.9:5060", None, &bytes, 10);
    assert_eq!(out.len(), 1);
    let reply = String::from_utf8(out[0].data.clone()).unwrap();
    assert!(reply.starts_with("SIP/2.0 401 Unauthorized"));
    assert!(h.store.sip_devices.is_empty());
}

#[test]
fn register_expires_zero_when_unregistered_is_no_op_200() {
    let mut h = handler();
    let out = h.dispatch("10.0.0.9:5060", None, &register_with_auth(0, 2), 10);
    assert_eq!(out.len(), 1);
    let reply = String::from_utf8(out[0].data.clone()).unwrap();
    assert!(reply.starts_with("SIP/2.0 200 OK"));
    assert!(h.store.sip_devices.is_empty());
    assert!(h.store.gb_streams.is_empty());
    assert!(h.store.gb_streams_rev.is_empty());
}

#[test]
fn keepalive_updates_liveness_and_sn() {
    let mut h = handler();
    h.dispatch("10.0.0.9:5060", None, &register_with_auth(3600, 2), 10);
    let out = h.dispatch("10.0.0.9:5060", None, &keepalive_message_bytes(), 42);
    assert_eq!(out.len(), 1);
    let reply = String::from_utf8(out[0].data.clone()).unwrap();
    assert!(reply.starts_with("SIP/2.0 200 OK"));
    assert_eq!(h.store.global_sn, 5);
    assert_eq!(h.store.sip_devices[0].1.ts, 42);
}

#[test]
fn invite_against_missing_device_changes_nothing() {
    let mut h = handler();
    let r = h.store.invite(GB, CHANNEL, "cid", "ftag", true, 10);
    assert!(r.is_none());
    assert!(h.store.sip_devices.is_empty());
    assert!(h.store.gb_streams.is_empty());
    assert!(h.store.gb_streams_rev.is_empty());
}

#[test]
fn second_invite_reports_already_playing() {
    let mut h = handler();
    h.dispatch("10.0.0.9:5060", None, &register_with_auth(3600, 2), 10);
    let first = h.store.invite(GB, CHANNEL, "cid1", "ftag1", true, 11).unwrap();
    assert!(!first.success);
    assert_eq!(first.stream_id, 1);
    let second = h.store.invite(GB, CHANNEL, "cid2", "ftag2", true, 12).unwrap();
    assert!(second.success);
    assert_eq!(second.stream_id, 2);
}

fn header_value_of(req: &wvprs::sipmsg::SipRequest, name: &str) -> String {
    wvprs::sipmsg::header_value(&req.headers, name).unwrap()
}

#[test]
fn live_session_full_flow() {
    let mut h = handler();
    h.dispatch("10.0.0.9:5060", None, &register_with_auth(3600, 2), 10);

    // live start with a stubbed media-port allocation
    let start = h.start_session(
        GB,
        CHANNEL,
        "",
        SdpSessionType::Play,
        0,
        0,
        Some(("10.0.0.1".to_string(), 20000)),
        11,
    );
    assert_eq!(start.code, 200);
    assert_eq!(start.stream_id, 1);
    let invite = start.invite.unwrap();
    let body = String::from_utf8(invite.body.clone()).unwrap();
    assert!(body.contains("m=video 20000 RTP/AVP 96 97 98 99"));
    assert!(body.contains("a=recvonly"));
    let ypos = body.find("y=").unwrap();
    let ssrc = &body[ypos + 2..ypos + 11];
    assert!(ssrc.starts_with("00000"));
    assert!(ssrc.chars().all(|c| c.is_ascii_digit()));

    // the device answers 200 OK with its To tag; an ACK goes out
    let cid = header_value_of(&invite, "Call-ID");
    let from = header_value_of(&invite, "From");
    let via = header_value_of(&invite, "Via");
    let cseq = header_value_of(&invite, "CSeq");
    let mut resp = String::new();
    resp.push_str("SIP/2.0 200 OK\r\n");
    resp.push_str(&format!("Via: {}\r\n", via));
    resp.push_str(&format!("From: {}\r\n", from));
    resp.push_str(&format!(
        "To: <sip:{}@3402000000>;tag=abcdef0123\r\n",
        GB
    ));
    resp.push_str(&format!("Call-ID: {}\r\n", cid));
    resp.push_str(&format!("CSeq: {}\r\n", cseq));
    resp.push_str("Content-Length: 0\r\n\r\n");
    let out = h.dispatch("10.0.0.9:5060", None, &resp.into_bytes(), 12);
    assert_eq!(out.len(), 1);
    let ack = String::from_utf8(out[0].data.clone()).unwrap();
    assert!(ack.starts_with(&format!("ACK sip:{}@3402000000 SIP/2.0", GB)));
    assert!(ack.contains(&format!("Call-ID: {}", cid)));
    assert!(ack.contains("tag=abcdef0123"));
    assert_eq!(h.store.gb_streams[0].1.to_tag, "abcdef0123");

    // a second subscriber gets a fresh stream id; the index lists both
    let again = h.start_session(
        GB,
        CHANNEL,
        "",
        SdpSessionType::Play,
        0,
        0,
        Some(("10.0.0.1".to_string(), 20002)),
        13,
    );
    assert_eq!(again.code, 200);
    assert_eq!(again.stream_id, 2);
    assert_eq!(h.store.gb_streams_rev[0].1.len(), 2);

    // stopping the first stream sends no BYE; stopping the last does
    let stop1 = h.stop_session(GB, 1);
    assert_eq!(stop1.code, 200);
    assert!(stop1.bye.is_none());
    let freed1 = stop1.freed.unwrap();
    assert_eq!(freed1.stream_server_ip, "10.0.0.1");
    assert_eq!(freed1.stream_server_port, 20000);
    let stop2 = h.stop_session(GB, 2);
    assert_eq!(stop2.code, 200);
    let bye = stop2.bye.unwrap();
    let bye_text = String::from_utf8(bye.data).unwrap();
    assert!(bye_text.starts_with(&format!("BYE sip:{}@3402000000 SIP/2.0", GB)));
    assert!(stop2.freed.is_some());
    assert!(h.store.gb_streams.is_empty());
    assert!(h.store.gb_streams_rev.is_empty());
}

#[test]
fn start_session_for_unknown_device_is_404() {
    let mut h = handler();
    let start = h.start_session(
        GB,
        CHANNEL,
        "",
        SdpSessionType::Play,
        0,
        0,
        Some(("10.0.0.1".to_string(), 20000)),
        11,
    );
    assert_eq!(start.code, 404);
    assert_eq!(start.msg, "device not found");
    assert_eq!(start.stream_id, 0);
    assert!(start.invite.is_none());
}

#[test]
fn start_session_without_media_endpoint_aborts() {
    let mut h = handler();
    h.dispatch("10.0.0.9:5060", None, &register_with_auth(3600, 2), 10);
    let start = h.start_session(GB, CHANNEL, "", SdpSessionType::Play, 0, 0, None, 11);
    assert_eq!(start.code, 500);
    assert!(start.invite.is_none());
}

#[test]
fn cseq_counters_never_decrease() {
    let mut h = handler();
    h.store.set_register_sequence(5);
    h.store.set_register_sequence(3);
    assert_eq!(h.store.register_sequence, 5);
    h.store.set_global_sequence(9);
    h.store.set_global_sequence(2);
    assert_eq!(h.store.global_sequence, 9);
    let next = h.store.add_fetch_global_sequence();
    assert_eq!(next, 10);
    assert_eq!(h.store.global_sequence, 10);
}

#[test]
fn tag_and_caller_id_generators_produce_fresh_values() {
    let h = handler();
    let tag = h.tag_new(32);
    assert_eq!(tag.len(), 32);
    assert!(tag.chars().all(|c| c.is_ascii_hexdigit()));
    let cid = h.caller_id_str();
    assert!(cid.contains("@192.168.1.10:5060"));
}

#[test]
fn decode_body_transcodes_gb2312_text() {
    let h = handler();
    // the GB2312 bytes of a two-character Chinese greeting
    let bytes = vec![0xc4u8, 0xe3, 0xba, 0xc3];
    let decoded = h.decode_body(&bytes);
    assert_eq!(decoded, "\u{4f60}\u{597d}");
}

#[test]
fn timeout_sweep_reports_stale_entries() {
    let mut h = handler();
    h.dispatch("10.0.0.9:5060", None, &register_with_auth(3600, 2), 10);
    h.store.invite(GB, CHANNEL, "cid", "ftag", true, 10);
    let (devices, streams) = h.store.collect_timeouts(10 + 301);
    assert_eq!(devices, vec![GB.to_string()]);
    assert_eq!(streams, vec![(GB.to_string(), 1)]);
    let (devices2, streams2) = h.store.collect_timeouts(50);
    assert!(devices2.is_empty());
    assert!(streams2.is_empty());
}

#[test]
fn control_messages_carry_session_results() {
    let mut h = handler();
    h.dispatch("10.0.0.9:5060", None, &register_with_auth(3600, 2), 10);
    let request = wvprs::control::LivePlayRequest {
        gb_code: GB.to_string(),
        setup_type: "".to_string(),
        channel_id: CHANNEL.to_string(),
    };
    let start = h.start_session(
        &request.gb_code,
        &request.channel_id,
        &request.setup_type,
        SdpSessionType::Play,
        0,
        0,
        Some(("10.0.0.1".to_string(), 20000)),
        11,
    );
    let response = wvprs::control::LivePlayResponse {
        locate: String::new(),
        code: start.code,
        msg: start.msg.clone(),
        gb_code: request.gb_code.clone(),
        stream_id: start.stream_id,
    };
    assert_eq!(response.code, 200);
    assert_eq!(response.stream_id, 1);
    let stop_req = wvprs::control::LiveStopRequest { gb_code: GB.to_string(), stream_id: 1 };
    let stop = h.stop_session(&stop_req.gb_code, stop_req.stream_id);
    let stop_resp = wvprs::control::LiveStopResponse {
        locate: String::new(),
        code: stop.code,
        msg: stop.msg.clone(),
        gb_code: stop_req.gb_code.clone(),
        stream_id: stop_req.stream_id,
    };
    assert_eq!(stop_resp.code, 200);
}
