use tracker_core::announce::Action;
use tracker_core::announce::Announce;
use tracker_core::announce::ErrorResponse;
use tracker_core::codec::u16_to_u8;
use tracker_core::codec::v4_from_bytes;
use tracker_core::codec::v4_to_bytes;
use tracker_core::codec::v6_from_bytes;
use tracker_core::codec::v6_to_bytes;
use tracker_core::interpret::interpret_request;
use tracker_core::interpret::parse_query;
use tracker_core::interpret::request_to_announce;
use tracker_core::interpret::Request;
use tracker_core::net::Ip;
use tracker_core::net::Ipv4;
use tracker_core::net::Ipv6;
use tracker_core::net::Remote;
use tracker_core::net::SockV4;
use tracker_core::net::SockV6;
use tracker_core::parse::chars_of;
use tracker_core::parse::parse_ipv4;
use tracker_core::parse::parse_ipv6;
use tracker_core::parse::parse_sock_v4;
use tracker_core::parse::parse_sock_v6;
use tracker_core::private::PrivateTracker;
use tracker_core::torrent::Torrent;

fn params(kv: &[(&str, &str)]) -> Vec<(String, String)> {
    kv.iter().map(|(k, v)| (k.to_string(), v.to_string())).collect()
}

fn remote4(a: u8, b: u8, c: u8, d: u8, port: u16) -> Remote {
    Remote::V4(SockV4 { ip: Ipv4 { a, b, c, d }, port })
}

fn sock4(a: u8, b: u8, c: u8, d: u8, port: u16) -> SockV4 {
    SockV4 { ip: Ipv4 { a, b, c, d }, port }
}

fn announce_for(peer_id: &str, left: u64, action: Action, port: u16) -> Announce {
    Announce {
        info_hash: "AAAAAAAAAAAAAAAAAAAA".to_string(),
        peer_id: peer_id.to_string(),
        ipv4: Some(sock4(203, 0, 113, 5, port)),
        ipv6: None,
        ul: 0,
        dl: 0,
        left,
        action,
        numwant: 25,
    }
}

#[test]
fn u16_big_endian_bytes() {
    assert_eq!(u16_to_u8(6881), vec![26, 225]);
    assert_eq!(u16_to_u8(0), vec![0, 0]);
    assert_eq!(u16_to_u8(65535), vec![255, 255]);
}

#[test]
fn v4_compact_form_is_exact() {
    let s = sock4(1, 2, 3, 4, 6881);
    assert_eq!(v4_to_bytes(&s), vec![1, 2, 3, 4, 26, 225]);
}

#[test]
fn v4_round_trip() {
    let s = sock4(203, 0, 113, 5, 6881);
    let b = v4_to_bytes(&s);
    assert_eq!(b.len(), 6);
    assert_eq!(v4_from_bytes(&b), Some(s));
}

#[test]
fn v6_round_trip() {
    let s = SockV6 {
        ip: Ipv6 { s0: 0x2001, s1: 0xdb8, s2: 0, s3: 0, s4: 8, s5: 0x800, s6: 0x200c, s7: 0x417a },
        port: 51413,
    };
    let b = v6_to_bytes(&s);
    assert_eq!(b.len(), 18);
    assert_eq!(b[0], 0x20);
    assert_eq!(b[1], 0x01);
    assert_eq!(b[16], 0xc8);
    assert_eq!(b[17], 0xd5);
    assert_eq!(v6_from_bytes(&b), Some(s));
}

#[test]
fn started_event_derives_role_from_left() {
    let p = params(&[
        ("info_hash", "AAAAAAAAAAAAAAAAAAAA"),
        ("peer_id", "P1"),
        ("port", "6881"),
        ("uploaded", "0"),
        ("downloaded", "0"),
        ("left", "0"),
        ("event", "started"),
    ]);
    let a = request_to_announce(&p, remote4(203, 0, 113, 5, 6881), None).unwrap();
    assert_eq!(a.action, Action::Seeding);

    let p = params(&[
        ("info_hash", "AAAAAAAAAAAAAAAAAAAA"),
        ("peer_id", "P1"),
        ("port", "6881"),
        ("uploaded", "0"),
        ("downloaded", "0"),
        ("left", "1000"),
        ("event", "started"),
    ]);
    let a = request_to_announce(&p, remote4(203, 0, 113, 5, 6881), None).unwrap();
    assert_eq!(a.action, Action::Leeching);
}

#[test]
fn announce_scenario_builds_leecher() {
    // The concrete scenario: a fresh peer starting with bytes left.
    let p = params(&[
        ("info_hash", "AAAAAAAAAAAAAAAAAAAA"),
        ("peer_id", "P1"),
        ("port", "6881"),
        ("uploaded", "0"),
        ("downloaded", "0"),
        ("left", "1000"),
        ("event", "started"),
    ]);
    // The connection's source port is ephemeral; the compact entry
    // must carry the announced port 6881.
    let a = request_to_announce(&p, remote4(203, 0, 113, 5, 40000), None).unwrap();
    assert_eq!(a.action, Action::Leeching);
    assert_eq!(a.ipv4, Some(sock4(203, 0, 113, 5, 6881)));
    assert_eq!(a.peer_id, "P1");

    let mut t = Torrent::new("AAAAAAAAAAAAAAAAAAAA".to_string());
    t.update_at(a, 1000);
    let st = t.get_stats();
    assert_eq!(st.complete, 0);
    assert_eq!(st.incomplete, 1);
    assert_eq!(st.downloaded, 0);
}

#[test]
fn completed_scenario_moves_to_seeders() {
    let mut t = Torrent::new("AAAAAAAAAAAAAAAAAAAA".to_string());
    t.update_at(announce_for("P1", 1000, Action::Leeching, 6881), 1000);
    let d = t.update_at(announce_for("P1", 0, Action::Completed, 6881), 1001);
    assert_eq!(d.peer_id, "P1");
    let st = t.get_stats();
    assert_eq!(st.complete, 1);
    assert_eq!(st.incomplete, 0);
    assert_eq!(st.downloaded, 1);
}

#[test]
fn completed_twice_counts_one_snatch() {
    let mut t = Torrent::new("AAAAAAAAAAAAAAAAAAAA".to_string());
    t.update_at(announce_for("P1", 1000, Action::Leeching, 6881), 1000);
    t.update_at(announce_for("P1", 0, Action::Completed, 6881), 1001);
    t.update_at(announce_for("P1", 0, Action::Completed, 6881), 1002);
    let st = t.get_stats();
    assert_eq!(st.complete, 1);
    assert_eq!(st.incomplete, 0);
    assert_eq!(st.downloaded, 1);
}

#[test]
fn stopped_removes_peer_from_both_roles() {
    let mut t = Torrent::new("AAAAAAAAAAAAAAAAAAAA".to_string());
    t.update_at(announce_for("P1", 1000, Action::Leeching, 6881), 1000);
    t.update_at(announce_for("P2", 0, Action::Seeding, 6882), 1000);
    t.update_at(announce_for("P1", 500, Action::Stopped, 6881), 1001);
    t.update_at(announce_for("P2", 0, Action::Stopped, 6882), 1001);
    let st = t.get_stats();
    assert_eq!(st.complete, 0);
    assert_eq!(st.incomplete, 0);
}

#[test]
fn get_peers_is_capped_and_serves_seeders_first() {
    let mut t = Torrent::new("AAAAAAAAAAAAAAAAAAAA".to_string());
    let mut s1 = announce_for("S1", 0, Action::Seeding, 1);
    s1.ipv4 = Some(sock4(10, 0, 0, 1, 1));
    let mut s2 = announce_for("S2", 0, Action::Seeding, 2);
    s2.ipv4 = Some(sock4(10, 0, 0, 2, 2));
    let mut s3 = announce_for("S3", 0, Action::Seeding, 3);
    s3.ipv4 = Some(sock4(10, 0, 0, 3, 3));
    let mut l1 = announce_for("L1", 9, Action::Leeching, 4);
    l1.ipv4 = Some(sock4(10, 0, 0, 4, 4));
    t.update_at(s1, 1000);
    t.update_at(s2, 1000);
    t.update_at(s3, 1000);
    t.update_at(l1, 1000);

    let ps = t.get_peers(2, Action::Leeching);
    assert_eq!(ps.peers4.len(), 12);
    assert_eq!(ps.peers6.len(), 0);
    // Two seeders, and no leecher, fill a quota of two.
    assert_eq!(&ps.peers4[0..4], &[10, 0, 0, 1]);
    assert_eq!(&ps.peers4[6..10], &[10, 0, 0, 2]);

    // A seeder is served leechers first, seeders as the fallback.
    let ps = t.get_peers(2, Action::Seeding);
    assert_eq!(ps.peers4.len(), 12);
    assert_eq!(&ps.peers4[0..4], &[10, 0, 0, 4]);
    assert_eq!(&ps.peers4[6..10], &[10, 0, 0, 1]);

    // A stopped requester gets nothing.
    let ps = t.get_peers(25, Action::Stopped);
    assert_eq!(ps.peers4.len(), 0);
    assert_eq!(ps.peers6.len(), 0);

    // The quota caps the total across both families.
    let ps = t.get_peers(25, Action::Leeching);
    assert_eq!(ps.peers4.len(), 24);
}

#[test]
fn peers_without_endpoints_do_not_count() {
    let mut t = Torrent::new("AAAAAAAAAAAAAAAAAAAA".to_string());
    let mut bare = announce_for("B1", 0, Action::Seeding, 1);
    bare.ipv4 = None;
    bare.ipv6 = None;
    let mut s2 = announce_for("S2", 0, Action::Seeding, 2);
    s2.ipv4 = Some(sock4(10, 0, 0, 2, 2));
    t.update_at(bare, 1000);
    t.update_at(s2, 1000);
    let ps = t.get_peers(1, Action::Leeching);
    assert_eq!(ps.peers4, vec![10, 0, 0, 2, 0, 2]);
}

#[test]
fn reap_drops_only_stale_peers() {
    let mut t = Torrent::new("AAAAAAAAAAAAAAAAAAAA".to_string());
    t.update_at(announce_for("OLD", 1000, Action::Leeching, 1), 1000);
    t.update_at(announce_for("NEW", 1000, Action::Leeching, 2), 2000);
    t.update_at(announce_for("SEED", 0, Action::Seeding, 3), 1000);
    // At 4600 the peers from 1000 sit exactly at the window's edge.
    t.reap_at(4600);
    let st = t.get_stats();
    assert_eq!(st.incomplete, 2);
    assert_eq!(st.complete, 1);
    // One second later they are past it; the newer peer stays.
    t.reap_at(4601);
    let st = t.get_stats();
    assert_eq!(st.incomplete, 1);
    assert_eq!(st.complete, 0);
}

#[test]
fn numwant_is_clamped_to_25() {
    let p = params(&[
        ("info_hash", "AAAAAAAAAAAAAAAAAAAA"),
        ("peer_id", "P1"),
        ("port", "6881"),
        ("uploaded", "0"),
        ("downloaded", "0"),
        ("left", "0"),
        ("numwant", "99"),
    ]);
    let a = request_to_announce(&p, remote4(203, 0, 113, 5, 6881), None).unwrap();
    assert_eq!(a.numwant, 25);

    let p = params(&[
        ("info_hash", "AAAAAAAAAAAAAAAAAAAA"),
        ("peer_id", "P1"),
        ("port", "6881"),
        ("uploaded", "0"),
        ("downloaded", "0"),
        ("left", "0"),
        ("numwant", "7"),
    ]);
    let a = request_to_announce(&p, remote4(203, 0, 113, 5, 6881), None).unwrap();
    assert_eq!(a.numwant, 7);
}

#[test]
fn missing_required_parameter_is_bad_request() {
    // No `left` at all.
    let p = params(&[
        ("info_hash", "AAAAAAAAAAAAAAAAAAAA"),
        ("peer_id", "P1"),
        ("port", "6881"),
        ("uploaded", "0"),
        ("downloaded", "0"),
    ]);
    let r = request_to_announce(&p, remote4(203, 0, 113, 5, 6881), None);
    assert_eq!(r.unwrap_err(), ErrorResponse::BadRequest);

    // A `left` that is not a number.
    let p = params(&[
        ("info_hash", "AAAAAAAAAAAAAAAAAAAA"),
        ("peer_id", "P1"),
        ("port", "6881"),
        ("uploaded", "0"),
        ("downloaded", "0"),
        ("left", "many"),
    ]);
    let r = request_to_announce(&p, remote4(203, 0, 113, 5, 6881), None);
    assert_eq!(r.unwrap_err(), ErrorResponse::BadRequest);
}

#[test]
fn request_without_query_is_bad_action() {
    let path = chars_of("/announce");
    let r = interpret_request(&path, remote4(203, 0, 113, 5, 6881), None);
    assert!(matches!(r, Err(ErrorResponse::BadAction)));

    let path = chars_of("/elsewhere?x=1");
    let r = interpret_request(&path, remote4(203, 0, 113, 5, 6881), None);
    assert!(matches!(r, Err(ErrorResponse::BadAction)));
}

#[test]
fn announce_request_missing_left_is_bad_request() {
    let path = chars_of("/announce?info_hash=AAAAAAAAAAAAAAAAAAAA&peer_id=P1&port=6881&uploaded=0&downloaded=0");
    let r = interpret_request(&path, remote4(203, 0, 113, 5, 6881), None);
    assert!(matches!(r, Err(ErrorResponse::BadRequest)));
}

#[test]
fn full_announce_request_round_trip() {
    let path = chars_of(
        "/announce?info_hash=AAAAAAAAAAAAAAAAAAAA&peer_id=P1&port=6881&uploaded=0&downloaded=0&left=1000&event=started",
    );
    let r = interpret_request(&path, remote4(203, 0, 113, 5, 6881), None).unwrap();
    match r {
        Request::Announce(a) => {
            assert_eq!(a.action, Action::Leeching);
            assert_eq!(a.ipv4, Some(sock4(203, 0, 113, 5, 6881)));
            assert_eq!(a.info_hash, "AAAAAAAAAAAAAAAAAAAA");
        }
        Request::Scrape(_) => panic!("routed to scrape"),
    }
}

#[test]
fn query_pairs_are_decoded_not_echoed() {
    let q = chars_of("a=b%20c&d=e+f&peer%5Fid=P1");
    let pairs = parse_query(&q, 0, q.len());
    assert_eq!(pairs[0], ("a".to_string(), "b c".to_string()));
    assert_eq!(pairs[1], ("d".to_string(), "e f".to_string()));
    assert_eq!(pairs[2], ("peer_id".to_string(), "P1".to_string()));
}

#[test]
fn duplicate_parameter_keys_last_wins() {
    let p = params(&[
        ("info_hash", "AAAAAAAAAAAAAAAAAAAA"),
        ("peer_id", "P1"),
        ("peer_id", "P2"),
        ("port", "6881"),
        ("uploaded", "0"),
        ("downloaded", "0"),
        ("left", "0"),
    ]);
    let a = request_to_announce(&p, remote4(203, 0, 113, 5, 6881), None).unwrap();
    assert_eq!(a.peer_id, "P2");
}

#[test]
fn forwarded_header_overrides_remote() {
    let p = params(&[
        ("info_hash", "AAAAAAAAAAAAAAAAAAAA"),
        ("peer_id", "P1"),
        ("port", "6881"),
        ("uploaded", "0"),
        ("downloaded", "0"),
        ("left", "0"),
    ]);
    let fwd = "198.51.100.7".to_string();
    let a = request_to_announce(&p, remote4(203, 0, 113, 5, 40000), Some(&fwd)).unwrap();
    assert_eq!(a.ipv4, Some(sock4(198, 51, 100, 7, 6881)));

    // A header that is no address falls back to the connection's
    // address, still joined with the announced port.
    let fwd = "not-an-ip".to_string();
    let a = request_to_announce(&p, remote4(203, 0, 113, 5, 40000), Some(&fwd)).unwrap();
    assert_eq!(a.ipv4, Some(sock4(203, 0, 113, 5, 6881)));
}

#[test]
fn explicit_ip_parameter_overrides_all() {
    let p = params(&[
        ("info_hash", "AAAAAAAAAAAAAAAAAAAA"),
        ("peer_id", "P1"),
        ("port", "6881"),
        ("uploaded", "0"),
        ("downloaded", "0"),
        ("left", "0"),
        ("ip", "192.0.2.9"),
    ]);
    let fwd = "198.51.100.7".to_string();
    let a = request_to_announce(&p, remote4(203, 0, 113, 5, 40000), Some(&fwd)).unwrap();
    assert_eq!(a.ipv4, Some(sock4(192, 0, 2, 9, 6881)));
}

#[test]
fn secondary_family_resolves_from_parameter() {
    // An IPv4 connection with an explicit bare ipv6 parameter.
    let p = params(&[
        ("info_hash", "AAAAAAAAAAAAAAAAAAAA"),
        ("peer_id", "P1"),
        ("port", "6881"),
        ("uploaded", "0"),
        ("downloaded", "0"),
        ("left", "0"),
        ("ipv6", "2001:db8::1"),
    ]);
    let a = request_to_announce(&p, remote4(203, 0, 113, 5, 6881), None).unwrap();
    assert_eq!(a.ipv4, Some(sock4(203, 0, 113, 5, 6881)));
    let v6 = a.ipv6.expect("ipv6 resolved");
    assert_eq!(v6.ip.s0, 0x2001);
    assert_eq!(v6.ip.s1, 0xdb8);
    assert_eq!(v6.ip.s7, 1);
    assert_eq!(v6.port, 6881);

    // An ipv6 parameter holding an IPv4 value is ignored.
    let p = params(&[
        ("info_hash", "AAAAAAAAAAAAAAAAAAAA"),
        ("peer_id", "P1"),
        ("port", "6881"),
        ("uploaded", "0"),
        ("downloaded", "0"),
        ("left", "0"),
        ("ipv6", "192.0.2.9"),
    ]);
    let a = request_to_announce(&p, remote4(203, 0, 113, 5, 6881), None).unwrap();
    assert_eq!(a.ipv6, None);
}

#[test]
fn ipv4_text_forms() {
    let v = chars_of("203.0.113.5");
    assert_eq!(parse_ipv4(&v, 0, v.len()), Some(Ipv4 { a: 203, b: 0, c: 113, d: 5 }));
    let v = chars_of("0.0.0.0");
    assert_eq!(parse_ipv4(&v, 0, v.len()), Some(Ipv4 { a: 0, b: 0, c: 0, d: 0 }));
    for bad in ["", "1.2.3", "1.2.3.4.5", "256.1.1.1", "01.2.3.4", "1.2.3.x", "1..2.3"] {
        let v = chars_of(bad);
        assert_eq!(parse_ipv4(&v, 0, v.len()), None, "{bad}");
    }
}

#[test]
fn ipv6_text_forms() {
    let v = chars_of("::1");
    assert_eq!(
        parse_ipv6(&v, 0, v.len()),
        Some(Ipv6 { s0: 0, s1: 0, s2: 0, s3: 0, s4: 0, s5: 0, s6: 0, s7: 1 })
    );
    let v = chars_of("::");
    assert_eq!(
        parse_ipv6(&v, 0, v.len()),
        Some(Ipv6 { s0: 0, s1: 0, s2: 0, s3: 0, s4: 0, s5: 0, s6: 0, s7: 0 })
    );
    let v = chars_of("2001:db8::8:800:200C:417A");
    assert_eq!(
        parse_ipv6(&v, 0, v.len()),
        Some(Ipv6 { s0: 0x2001, s1: 0xdb8, s2: 0, s3: 0, s4: 8, s5: 0x800, s6: 0x200c, s7: 0x417a })
    );
    let v = chars_of("1:2:3:4:5:6:7:8");
    assert_eq!(
        parse_ipv6(&v, 0, v.len()),
        Some(Ipv6 { s0: 1, s1: 2, s2: 3, s3: 4, s4: 5, s5: 6, s6: 7, s7: 8 })
    );
    let v = chars_of("::ffff:192.0.2.128");
    assert_eq!(
        parse_ipv6(&v, 0, v.len()),
        Some(Ipv6 { s0: 0, s1: 0, s2: 0, s3: 0, s4: 0, s5: 0xffff, s6: 0xc000, s7: 0x0280 })
    );
    for bad in ["", ":", ":::", "1::2::3", "1:2:3:4:5:6:7:8:9", "1:2:3:4:5:6:7:8::", "g::1", "1:2", "1.2.3.4::"] {
        let v = chars_of(bad);
        assert_eq!(parse_ipv6(&v, 0, v.len()), None, "{bad}");
    }
}

#[test]
fn socket_text_forms() {
    let v = chars_of("1.2.3.4:80");
    assert_eq!(parse_sock_v4(&v, 0, v.len()), Some(sock4(1, 2, 3, 4, 80)));
    let v = chars_of("[::1]:6881");
    let s = parse_sock_v6(&v, 0, v.len()).expect("bracketed form");
    assert_eq!(s.ip.s7, 1);
    assert_eq!(s.port, 6881);
    for bad in ["1.2.3.4", "1.2.3.4:", "1.2.3.4:99999", "[::1]", "[::1]6881", "::1:80x"] {
        let v = chars_of(bad);
        assert_eq!(parse_sock_v4(&v, 0, v.len()), None, "{bad}");
        assert_eq!(parse_sock_v6(&v, 0, v.len()), None, "{bad}");
    }
}

#[test]
fn accounting_gate_buffers_and_drains() {
    let mut gate = PrivateTracker::new();
    assert!(gate.validate_peer(&"P1".to_string()));
    assert!(gate.validate_torrent(&"AAAA".to_string()));
    let mut t = Torrent::new("AAAAAAAAAAAAAAAAAAAA".to_string());
    let d1 = t.update_at(announce_for("P1", 1000, Action::Leeching, 6881), 1000);
    let mut a2 = announce_for("P1", 0, Action::Completed, 6881);
    a2.ul = 40;
    a2.dl = 960;
    let d2 = t.update_at(a2, 1001);
    assert_eq!(d2.peer_id, "P1");
    assert_eq!(d2.upload, 40);
    assert_eq!(d2.download, 960);
    gate.add_announce(d1);
    gate.add_announce(d2);
    let drained = gate.flush();
    assert_eq!(drained.len(), 2);
    assert_eq!(drained[1].download, 960);
    assert_eq!(gate.flush().len(), 0);
    gate.update();
}

#[test]
fn scrape_routes_with_parameters() {
    let path = chars_of("/scrape?info_hash=AAAA");
    let r = interpret_request(&path, remote4(203, 0, 113, 5, 6881), None).unwrap();
    match r {
        Request::Scrape(ps) => {
            assert_eq!(ps, vec![("info_hash".to_string(), "AAAA".to_string())]);
        }
        Request::Announce(_) => panic!("routed to announce"),
    }
}

#[test]
fn ip_enum_carries_both_families() {
    let v = chars_of("203.0.113.5");
    let ip = tracker_core::parse::parse_ip(&v, 0, v.len());
    assert!(matches!(ip, Some(Ip::V4(_))));
    let v = chars_of("::1");
    let ip = tracker_core::parse::parse_ip(&v, 0, v.len());
    assert!(matches!(ip, Some(Ip::V6(_))));
}

#[test]
fn counters_accept_a_leading_plus_sign() {
    let p = params(&[
        ("info_hash", "AAAAAAAAAAAAAAAAAAAA"),
        ("peer_id", "P1"),
        ("port", "6881"),
        ("uploaded", "+5"),
        ("downloaded", "0"),
        ("left", "+0"),
        ("numwant", "+7"),
    ]);
    let a = request_to_announce(&p, remote4(203, 0, 113, 5, 6881), None).unwrap();
    assert_eq!(a.ul, 5);
    assert_eq!(a.left, 0);
    assert_eq!(a.action, Action::Seeding);
    assert_eq!(a.numwant, 7);

    // Two signs, or a sign alone, stay unreadable.
    let p = params(&[
        ("info_hash", "AAAAAAAAAAAAAAAAAAAA"),
        ("peer_id", "P1"),
        ("port", "6881"),
        ("uploaded", "++5"),
        ("downloaded", "0"),
        ("left", "0"),
    ]);
    let r = request_to_announce(&p, remote4(203, 0, 113, 5, 6881), None);
    assert_eq!(r.unwrap_err(), ErrorResponse::BadRequest);
}

#[test]
fn bracketed_endpoint_scope_id_is_discarded() {
    let v = chars_of("[fe80::1%1]:6881");
    let s = parse_sock_v6(&v, 0, v.len()).expect("scoped form");
    assert_eq!(s.ip.s0, 0xfe80);
    assert_eq!(s.ip.s7, 1);
    assert_eq!(s.port, 6881);

    for bad in ["[fe80::1%]:6881", "[fe80::1%x]:6881", "[fe80::1%4294967296]:6881", "[%1]:6881"] {
        let v = chars_of(bad);
        assert_eq!(parse_sock_v6(&v, 0, v.len()), None, "{bad}");
    }
}

#[test]
fn written_endpoint_port_takes_no_sign() {
    let v = chars_of("1.2.3.4:+80");
    assert_eq!(parse_sock_v4(&v, 0, v.len()), None);
    let v = chars_of("[::1]:+80");
    assert_eq!(parse_sock_v6(&v, 0, v.len()), None);
}
