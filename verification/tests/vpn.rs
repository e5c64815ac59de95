use kaonic::vpn::codec::{
    announce_header, check_announce_header, check_ctrl_frame, frame_ctrl, is_announce, is_ctrl,
    routes_from_subnets, subnets_from_routes, Announce, CodecError, Ctrl, Subnet, ANNOUNCE_VERSION,
    CTRL_TAG,
};
use kaonic::vpn::metrics::Metrics;
use kaonic::vpn::net::{default_advertised_routes, format_net, Ipv4Net};
use kaonic::vpn::peer::{LinkState, Peer, PeerRegistry};
use kaonic::vpn::platform::{
    backend_name, command_error_message, configure_tun_address_commands, route_translation_plan,
    IptablesStep, LocalRouteTranslation,
};
use kaonic::vpn::router::{RouteTable, Router};
use kaonic::vpn::tun::MockTun;

fn hash(hex: &str) -> u128 {
    u128::from_str_radix(hex, 16).unwrap()
}

fn ip(text: &str) -> u32 {
    let octets: Vec<u8> = text.split('.').map(|o| o.parse().unwrap()).collect();
    u32::from_be_bytes([octets[0], octets[1], octets[2], octets[3]])
}

fn net(text: &str) -> Ipv4Net {
    Ipv4Net::parse(text).unwrap()
}

#[test]
fn ip_packet_is_not_ctrl() {
    let ip_pkt = [0x45u8, 0x00, 0x00, 0x28];
    assert!(!is_ctrl(&ip_pkt));
    assert!(!is_announce(&ip_pkt));
}

#[test]
fn frames_are_recognised_and_checked() {
    let header = announce_header();
    assert_eq!(header.len(), 5);
    assert_eq!(header[4], ANNOUNCE_VERSION);
    assert!(is_announce(&header));
    assert_eq!(check_announce_header(&header), Ok(5));
    assert_eq!(check_announce_header(&header[..4]), Err(CodecError::Short));
    let mut wrong_version = header.clone();
    wrong_version[4] = ANNOUNCE_VERSION + 1;
    assert_eq!(
        check_announce_header(&wrong_version),
        Err(CodecError::Version(ANNOUNCE_VERSION + 1))
    );
    assert_eq!(
        check_announce_header(&[0, 0, 0, 0, ANNOUNCE_VERSION]),
        Err(CodecError::BadMagic)
    );
    let frame = frame_ctrl(&[1, 2, 3]);
    assert_eq!(frame, vec![CTRL_TAG, 1, 2, 3]);
    assert!(is_ctrl(&frame));
    assert_eq!(check_ctrl_frame(&frame), Ok(1));
    assert_eq!(check_ctrl_frame(&[]), Err(CodecError::BadMagic));
}

#[test]
fn subnets_round_trip() {
    let routes = vec![net("192.168.10.0/24"), net("10.0.0.0/8")];
    let wire = subnets_from_routes(&routes);
    assert_eq!(wire[0], Subnet(ip("192.168.10.0"), 24));
    assert_eq!(routes_from_subnets(&wire), Ok(routes.clone()));
    assert_eq!(
        routes_from_subnets(&vec![Subnet(0, 33)]),
        Err(CodecError::Prefix(33))
    );
    let announce = Announce::from_routes(&routes);
    assert_eq!(announce.routes, wire);
    match Ctrl::hello(&routes) {
        Ctrl::Hello { routes: got } => assert_eq!(got, wire),
        _ => panic!("expected Hello"),
    }
    assert!(matches!(Ctrl::routes_update(&Vec::new()), Ctrl::Routes { routes } if routes.is_empty()));
}

#[test]
fn cidr_text_parses_and_formats() {
    let n = net("192.168.10.0/24");
    assert_eq!(n.addr, ip("192.168.10.0"));
    assert_eq!(n.prefix, 24);
    assert_eq!(format_net(&n), "192.168.10.0/24");
    assert_eq!(format_net(&net("10.1.2.3/32")), "10.1.2.3");
    assert!(Ipv4Net::parse("192.168.10.1/24").is_none());
    assert!(Ipv4Net::parse("nonsense").is_none());
    assert!(n.contains(ip("192.168.10.77")));
    assert!(!n.contains(ip("192.168.11.1")));
    let defaults = default_advertised_routes();
    assert_eq!(format_net(&defaults[0]), "192.168.10.0/24");
}

#[test]
fn longest_prefix_wins() {
    let a = hash("11111111111111111111111111111111");
    let b = hash("22222222222222222222222222222222");
    let mut peer_a = Peer::new(a, ip("10.20.0.10"), LinkState::Active);
    peer_a.set_routes(vec![net("172.16.0.0/16")]);
    let mut peer_b = Peer::new(b, ip("10.20.0.11"), LinkState::Active);
    peer_b.set_routes(vec![net("172.16.5.0/24")]);
    let table = RouteTable::build(
        &vec![peer_a, peer_b],
        0,
        hash("00000000000000000000000000000000"),
        ip("192.168.200.1"),
    );
    assert_eq!(table.resolve(ip("172.16.5.42")), Some(b));
    assert_eq!(table.resolve(ip("172.16.9.42")), Some(a));
}

#[test]
fn conflicting_routes_are_dropped() {
    let a = hash("11111111111111111111111111111111");
    let b = hash("22222222222222222222222222222222");
    let mut peer_a = Peer::new(a, ip("10.20.0.10"), LinkState::Active);
    peer_a.set_routes(vec![net("192.168.5.0/24")]);
    let mut peer_b = Peer::new(b, ip("10.20.0.11"), LinkState::Active);
    peer_b.set_routes(vec![net("192.168.5.0/24")]);
    let table = RouteTable::build(
        &vec![peer_a, peer_b],
        0,
        hash("00000000000000000000000000000000"),
        ip("10.20.0.1"),
    );
    assert_eq!(table.resolve(ip("192.168.5.1")), None);
}

#[test]
fn tunnel_ip_takes_precedence() {
    let a = hash("11111111111111111111111111111111");
    let mut peer = Peer::new(a, ip("10.20.0.10"), LinkState::Active);
    peer.set_routes(vec![net("10.20.0.0/16")]);
    let table = RouteTable::build(
        &vec![peer],
        0,
        hash("00000000000000000000000000000000"),
        ip("10.20.0.1"),
    );
    assert_eq!(table.resolve(ip("10.20.0.10")), Some(a));
    assert_eq!(table.resolve(ip("10.20.99.99")), None);
}

#[test]
fn own_peer_is_not_routed() {
    let own = hash("33333333333333333333333333333333");
    let mut me = Peer::new(own, ip("10.20.0.2"), LinkState::Active);
    me.set_routes(vec![net("172.20.0.0/16")]);
    let table = RouteTable::build(&vec![me], 0, own, ip("10.20.0.2"));
    assert_eq!(table.resolve(ip("10.20.0.2")), None);
    assert_eq!(table.resolve(ip("172.20.1.1")), None);
    let mut router = Router::new();
    assert_eq!(router.snapshot().resolve(ip("172.20.1.1")), None);
    let mut a = Peer::new(1, ip("10.20.0.9"), LinkState::Active);
    a.set_routes(vec![net("172.20.0.0/16")]);
    router.swap(RouteTable::build(&vec![a], 0, own, ip("10.20.0.2")));
    assert_eq!(router.snapshot().resolve(ip("172.20.1.1")), Some(1));
    let _ = table;
}

#[test]
fn link_requests_are_claimed_once() {
    let mut peer = Peer::new(1, ip("10.20.0.3"), LinkState::Pending);
    assert!(peer.try_begin_link_request());
    assert!(!peer.try_begin_link_request());
    assert!(peer.link_request_in_flight());
    peer.finish_link_request();
    assert!(peer.try_begin_link_request());
    assert_eq!(LinkState::Active.as_str(), "active");
}

#[test]
fn peer_registry_keeps_one_peer_per_hash() {
    let mut registry = PeerRegistry::new();
    registry.insert(Peer::new(5, ip("10.20.0.5"), LinkState::Pending));
    registry.insert(Peer::new(5, ip("10.20.0.6"), LinkState::Active));
    assert_eq!(registry.all().len(), 1);
    assert_eq!(registry.get(5).unwrap().tunnel_ip, ip("10.20.0.6"));
    let created = registry.get_or_create(6, Peer::new(6, ip("10.20.0.7"), LinkState::Pending));
    assert_eq!(created.hash, 6);
    assert_eq!(registry.all().len(), 2);
    registry.remove(5);
    assert!(registry.get(5).is_none());
}

#[test]
fn metrics_rates_are_cached_within_a_second() {
    let mut m = Metrics::new();
    m.record_tx(100, 10);
    m.record_rx(50, 10);
    m.record_drop();
    let first = m.snapshot(10);
    assert_eq!((first.tx_bps, first.rx_bps), (0, 0));
    m.record_tx(1_000, 12);
    let later = m.snapshot(12);
    assert_eq!(later.tx_bps, 8 * 1_000 / 2);
    assert_eq!(later.rx_bps, 0);
    m.record_tx(1_000, 12);
    let cached = m.snapshot(12);
    assert_eq!(cached.tx_bps, later.tx_bps);
    assert_eq!(cached.tx_packets, 3);
    assert_eq!(cached.drop_packets, 1);
}

#[test]
fn tun_commands_and_translation_plan() {
    let commands = configure_tun_address_commands("kvpn0", ip("10.20.0.1"), 16);
    assert_eq!(commands[0], vec!["link", "set", "dev", "kvpn0", "up"]);
    assert_eq!(commands[1], vec!["link", "set", "dev", "kvpn0", "mtu", "1400"]);
    assert_eq!(
        commands[2],
        vec!["addr", "replace", "10.20.0.1/16", "dev", "kvpn0"]
    );
    let translations = vec![
        LocalRouteTranslation {
            local: net("192.168.10.0/24"),
            exported: net("10.77.1.0/24"),
        },
        LocalRouteTranslation {
            local: net("192.168.20.0/24"),
            exported: net("192.168.20.0/24"),
        },
    ];
    let plan = route_translation_plan("kvpn0", &translations);
    assert_eq!(plan.len(), 13);
    assert_eq!(
        plan[11],
        IptablesStep::Run(
            [
                "-t",
                "nat",
                "-A",
                "KAONIC_VPN_PREROUTING",
                "-d",
                "10.77.1.0/24",
                "-j",
                "NETMAP",
                "--to",
                "192.168.10.0/24"
            ]
            .iter()
            .map(|s| s.to_string())
            .collect()
        )
    );
    assert_eq!(backend_name(false), "mock");
    assert_eq!(
        command_error_message("ip", &vec!["route".to_string(), "del".to_string()], " boom \n"),
        "ip route del failed: boom"
    );
}

#[test]
fn mock_tun_is_named_mock_and_takes_packets() {
    let tun = MockTun::open();
    assert_eq!(tun.name(), "mock");
    assert_eq!(tun.send(&[1, 2, 3]), 3);
}

#[test]
fn codec_error_messages() {
    assert_eq!(CodecError::Short.message(), "payload too short");
    assert_eq!(CodecError::Version(3).message(), "unsupported version 3");
    assert_eq!(CodecError::Prefix(40).message(), "invalid subnet prefix 40");
}

#[test]
fn routes_round_trip_through_subnets() {
    let routes = vec![net("192.168.10.0/24"), net("10.0.0.0/8")];
    assert_eq!(routes_from_subnets(&subnets_from_routes(&routes)), Ok(routes.clone()));
    let none: Vec<_> = Vec::new();
    assert_eq!(routes_from_subnets(&subnets_from_routes(&none)), Ok(Vec::new()));
}

#[test]
fn registry_stores_a_created_peer_under_the_given_hash() {
    let mut registry = PeerRegistry::new();
    let created = registry.get_or_create(7, Peer::new(8, ip("10.20.0.8"), LinkState::Pending));
    assert_eq!(created.hash, 8);
    assert_eq!(registry.get(7).unwrap().hash, 8);
    assert!(registry.get(8).is_none());
    let existing = registry.get_or_create(7, Peer::new(9, ip("10.20.0.9"), LinkState::Active));
    assert_eq!(existing.tunnel_ip, ip("10.20.0.8"));
    assert_eq!(registry.get(7).unwrap().tunnel_ip, ip("10.20.0.8"));
    let all = registry.all();
    assert_eq!(all.len(), 1);
    assert_eq!(all[0].hash, 8);
}
