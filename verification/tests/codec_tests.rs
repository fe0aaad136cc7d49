use wvprs::manscdp::{
    Catalog, CatalogQuery, Device, DeviceInfo, DeviceList, DeviceStatus, DeviceStatusQuery,
    KeepAlive,
};
use wvprs::sdp::{generate_media_sdp_with_ssrc, parse_media_sdp, SdpSessionType};

#[test]
fn keep_alive_round_trip() {
    let ka = KeepAlive {
        cmd_type: "Keepalive".to_string(),
        sn: 5,
        device_id: "34020000001320000001".to_string(),
        status: "OK".to_string(),
    };
    let xml = ka.serialize_to_xml();
    assert_eq!(
        xml,
        "<Notify><CmdType>Keepalive</CmdType><SN>5</SN><DeviceID>34020000001320000001</DeviceID><Status>OK</Status></Notify>"
    );
    let back = KeepAlive::deserialize_from_xml(xml);
    assert_eq!(back, ka);
}

#[test]
fn device_status_round_trip() {
    let ds = DeviceStatus {
        cmd_type: "DeviceStatus".to_string(),
        sn: 9,
        device_id: "34020000001320000001".to_string(),
        result: "OK".to_string(),
    };
    let back = DeviceStatus::deserialize_from_xml(ds.serialize_to_xml());
    assert_eq!(back, ds);
}

#[test]
fn device_info_round_trip() {
    let di = DeviceInfo {
        cmd_type: "DeviceInfo".to_string(),
        sn: 2,
        device_id: "34020000001320000001".to_string(),
        device_name: "cam".to_string(),
        manufacturer: "acme".to_string(),
        model: "m1".to_string(),
        firmware: "1.0".to_string(),
        result: "OK".to_string(),
    };
    let back = DeviceInfo::deserialize_from_xml(di.serialize_to_xml());
    assert_eq!(back, di);
}

#[test]
fn query_round_trips() {
    let cq = CatalogQuery::new(7, "34020000001320000001");
    assert_eq!(cq.cmd_type, "Catalog");
    let back = CatalogQuery::deserialize_from_xml(cq.serialize_to_xml());
    assert_eq!(back, cq);
    let dq = DeviceStatusQuery::new(8, "34020000001320000001");
    assert_eq!(dq.cmd_type, "DeviceStatus");
    let back2 = DeviceStatusQuery::deserialize_from_xml(dq.serialize_to_xml());
    assert_eq!(back2, dq);
}

fn sample_device(id: &str) -> Device {
    Device {
        device_id: id.to_string(),
        name: "head".to_string(),
        manufacturer: "acme".to_string(),
        model: "m1".to_string(),
        owner: "o".to_string(),
        civil_code: "3402".to_string(),
        block: None,
        address: "addr".to_string(),
        parental: 0,
        parent_id: "34020000001320000001".to_string(),
        register_way: 1,
        secrecy: 0,
        ip_address: Some("10.0.0.9".to_string()),
        port: Some(5060),
        password: None,
        status: Some("ON".to_string()),
        longitude: Some("121.47".to_string()),
        latitude: Some("31.23".to_string()),
        ptz_type: Some(1),
    }
}

#[test]
fn catalog_round_trip() {
    let catalog = Catalog {
        cmd_type: "Catalog".to_string(),
        sn: 3,
        device_id: "34020000001320000001".to_string(),
        sum_num: 2,
        device_list: DeviceList {
            num: 2,
            items: vec![
                sample_device("34020000001320000002"),
                sample_device("34020000001320000003"),
            ],
        },
    };
    let xml = catalog.serialize_to_xml();
    let back = Catalog::deserialize_from_xml(xml);
    assert_eq!(back, catalog);
}

#[test]
fn catalog_malformed_falls_back_to_default() {
    let back = Catalog::deserialize_from_xml("<Response><CmdType>".to_string());
    assert_eq!(back.sn, 0);
    assert!(back.device_list.items.is_empty());
}

#[test]
fn sdp_play_output_and_round_trip() {
    let sdp = generate_media_sdp_with_ssrc(
        "10.0.0.1",
        20000,
        "34020000001320000002",
        "",
        SdpSessionType::Play,
        0,
        0,
        7,
    );
    assert!(sdp.contains("m=video 20000 RTP/AVP 96 97 98 99"));
    assert!(sdp.contains("a=recvonly"));
    assert!(sdp.contains("y=000000007\r\n"));
    let info = parse_media_sdp(&sdp).unwrap();
    assert_eq!(info.origin_user, "34020000001320000002");
    assert_eq!(info.connection_ip, "10.0.0.1");
    assert_eq!(info.session_name, "Play");
    assert_eq!(info.media_port, 20000);
    assert!(!info.is_tcp);
    assert_eq!(info.codecs, "96 97 98 99");
    assert_eq!(info.ssrc.as_deref(), Some("000000007"));
}

#[test]
fn sdp_playback_tcp_round_trip() {
    let sdp = generate_media_sdp_with_ssrc(
        "10.0.0.1",
        30000,
        "34020000001320000002",
        "passive",
        SdpSessionType::Playback,
        100,
        200,
        1234,
    );
    assert!(sdp.contains("m=video 30000 TCP/RTP/AVP 96 97 98 99"));
    assert!(sdp.contains("a=setup:passive"));
    assert!(sdp.contains("a=connection:new"));
    assert!(sdp.contains("y=100001234\r\n"));
    let info = parse_media_sdp(&sdp).unwrap();
    assert_eq!(info.start_ts, 100);
    assert_eq!(info.stop_ts, 200);
    assert!(info.is_tcp);
    assert_eq!(info.setup_type, "passive");
}

#[test]
fn sdp_download_has_no_ssrc_line() {
    let sdp = generate_media_sdp_with_ssrc(
        "10.0.0.1",
        30000,
        "34020000001320000002",
        "",
        SdpSessionType::Download,
        1,
        2,
        0,
    );
    assert!(!sdp.contains("y="));
    let info = parse_media_sdp(&sdp).unwrap();
    assert!(info.ssrc.is_none());
}

#[test]
fn sdp_output_parses_with_outside_parser() {
    let sdp = generate_media_sdp_with_ssrc(
        "10.0.0.1",
        20000,
        "34020000001320000002",
        "",
        SdpSessionType::Play,
        0,
        0,
        42,
    );
    let session = <sdp_rs::SessionDescription as std::str::FromStr>::from_str(&sdp).unwrap();
    assert_eq!(session.origin.username, "34020000001320000002");
    assert_eq!(session.media_descriptions.len(), 1);
    assert_eq!(session.media_descriptions[0].media.port, 20000);
}

#[test]
fn gb2312_body_transcoding_round_trip() {
    let config = wvprs::config::Config::default();
    let store = wvprs::store::MemoryStore::new(&config);
    let handler = wvprs::handler::SipHandler::new(&config, store);
    let xml = "<?xml version=\"1.0\" encoding=\"UTF-8\"?><Notify><CmdType>Keepalive</CmdType></Notify>";
    let encoded = handler.encode_body(xml);
    let decoded = handler.decode_body(&encoded);
    assert_eq!(decoded, xml);
}
