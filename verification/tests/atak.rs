use kaonic::atak::bridge::{
    accept_payload, atak_channels, diagnostics_port_tag, handle_mesh_control_payload,
    on_announce, port_tag, MeshControlOutcome, PayloadDecision, PeerSet,
};
use kaonic::atak::control::{
    configured_diagnostics_unix_socket, control_availability_check, env_flag_enabled,
    format_command_id, format_diagnostic_record, handle_local_diagnostic_request, new_command_id,
    non_empty_value, parse_local_diagnostic_request, sanitize_field, status_line,
    validate_diagnostics_control_listen, validate_diagnostics_unix_socket_path, IpAddress,
    ListenAddress, LocalDiagnosticRequest, MAX_LOCAL_DIAGNOSTIC_REQUEST_BYTES,
};
use kaonic::atak::cot::{
    check_point, parse_cot_payload, CotEvent, CotParseError, CotPointText, LocationState,
    NumberCheck, PacketSource, PointChecks,
};
use kaonic::atak::diagnostics::{
    DiagnosticAction, DiagnosticCommand, DiagnosticCommandError, DiagnosticRecord,
    DiagnosticState, DiagnosticStatus,
};
use kaonic::atak::interface::{
    format_ipv4, select_local_interface, InterfaceCandidate, InterfaceSelection,
    InterfaceSelectionError,
};

const VALID_COT: &[u8] = br#"
        <event version="2.0" uid="ANDROID-123" type="a-f-G-U-C"
            time="2026-06-03T10:00:00Z" start="2026-06-03T10:00:00Z"
            stale="2026-06-03T10:05:00Z" how="m-g">
            <point lat="38.8977" lon="-77.0365" hae="10.0" ce="5.0" le="5.0"/>
            <detail><contact callsign="PHONE-A"/></detail>
        </event>
    "#;

fn read_number(text: &Option<String>, limit: Option<f64>) -> NumberCheck {
    match text.as_deref().map(|t| t.parse::<f64>()) {
        Some(Ok(v)) if v.is_finite() => NumberCheck::Finite {
            in_range: limit.map_or(true, |l| (-l..=l).contains(&v)),
        },
        Some(_) => NumberCheck::Invalid,
        None => NumberCheck::Finite { in_range: true },
    }
}

fn checks_of(point: &CotPointText) -> PointChecks {
    PointChecks {
        lat: read_number(&point.lat, Some(90.0)),
        lon: read_number(&point.lon, Some(180.0)),
        hae: read_number(&point.hae, None),
        ce: read_number(&point.ce, None),
        le: read_number(&point.le, None),
    }
}

/// Parses a payload and checks its point, as the plugin does.
fn parse_checked(payload: &[u8]) -> Result<CotEvent, CotParseError> {
    let event = parse_cot_payload(payload)?;
    if let Some(point) = &event.point {
        check_point(point, &checks_of(point))?;
    }
    Ok(event)
}

fn ipv4(a: u8, b: u8, c: u8, d: u8) -> u32 {
    u32::from_be_bytes([a, b, c, d])
}

fn candidate(name: &str, addr: [u8; 4]) -> InterfaceCandidate {
    InterfaceCandidate {
        name: name.into(),
        addr: u32::from_be_bytes(addr),
    }
}

fn location_event() -> CotEvent {
    parse_checked(VALID_COT).unwrap()
}

fn point_pair(event: &CotEvent) -> Option<(String, String)> {
    event
        .point
        .as_ref()
        .map(|p| (p.lat.clone().unwrap(), p.lon.clone().unwrap()))
}

#[test]
fn parses_valid_cot_location() {
    let event = parse_checked(VALID_COT).expect("valid CoT");
    let point = event.point.clone().expect("point");
    assert_eq!(event.uid, "ANDROID-123");
    assert_eq!(event.event_type, "a-f-G-U-C");
    assert_eq!(event.how.as_deref(), Some("m-g"));
    assert_eq!(event.callsign.as_deref(), Some("PHONE-A"));
    assert_eq!(point.lat.unwrap().parse::<f64>().unwrap(), 38.8977);
    assert_eq!(point.lon.unwrap().parse::<f64>().unwrap(), -77.0365);
    assert_eq!(
        point.hae.map(|h| h.parse::<f64>().unwrap()),
        Some(10.0)
    );
}

#[test]
fn validates_non_location_cot_for_forwarding() {
    let event = parse_checked(br#"<event uid="chat-1" type="b-t-f"><detail/></event>"#)
        .expect("valid non-location CoT");
    assert!(event.point.is_none());
}

#[test]
fn supports_location_missing_optional_precision_values() {
    let event =
        parse_checked(br#"<event uid="minimal" type="a-f-G"><point lat="38" lon="-77"/></event>"#)
            .expect("minimal location");
    assert!(event.point.expect("point").hae.is_none());
}

#[test]
fn rejects_non_xml_payload() {
    assert!(matches!(
        parse_checked(b"not a packet"),
        Err(CotParseError::Xml(_))
    ));
}

#[test]
fn rejects_out_of_range_latitude() {
    let payload = br#"<event uid="bad" type="a-f-G"><point lat="91" lon="1"/></event>"#;
    assert_eq!(
        parse_checked(payload).unwrap_err(),
        CotParseError::InvalidCoordinate("lat")
    );
}

#[test]
fn keeps_local_and_remote_locations_separate() {
    let mut state: LocationState<(f64, f64)> = LocationState::default();
    let event = parse_checked(VALID_COT).expect("valid CoT");
    state.record(PacketSource::LocalUdp, 6969, &event, Some((38.8977, -77.0365)), 1_000);
    state.record(PacketSource::RemoteReticulum, 6969, &event, Some((38.8977, -77.0365)), 1_000);
    assert!(state.get(PacketSource::LocalUdp, "ANDROID-123").is_some());
    assert!(state.get(PacketSource::RemoteReticulum, "ANDROID-123").is_some());
    assert_eq!(state.len(1_000), 2);
}

#[test]
fn bounds_location_records() {
    let mut state: LocationState<(f64, f64)> = LocationState::new(1, 60_000);
    let first =
        parse_checked(br#"<event uid="one" type="a-f-G"><point lat="1" lon="1"/></event>"#).unwrap();
    let second =
        parse_checked(br#"<event uid="two" type="a-f-G"><point lat="2" lon="2"/></event>"#).unwrap();
    state.record(PacketSource::LocalUdp, 6969, &first, Some((1.0, 1.0)), 1_000);
    state.record(PacketSource::LocalUdp, 6969, &second, Some((2.0, 2.0)), 1_001);
    assert_eq!(state.len(1_001), 1);
}

#[test]
fn cot_errors_name_the_failing_attribute() {
    assert_eq!(parse_cot_payload(&[0xff, 0xfe]).unwrap_err(), CotParseError::NotUtf8);
    assert_eq!(
        parse_cot_payload(br#"<message uid="x" type="y"/>"#).unwrap_err(),
        CotParseError::WrongRoot
    );
    assert_eq!(
        parse_cot_payload(br#"<event type="a-f-G"/>"#).unwrap_err(),
        CotParseError::MissingAttribute("uid")
    );
    assert_eq!(
        parse_checked(br#"<event uid="a" type="a-f-G"><point lat="x" lon="1"/></event>"#)
            .unwrap_err(),
        CotParseError::InvalidNumber("lat")
    );
    assert_eq!(
        parse_checked(br#"<event uid="a" type="a-f-G"><point lat="1"/></event>"#).unwrap_err(),
        CotParseError::MissingAttribute("lon")
    );
    assert_eq!(
        parse_checked(br#"<event uid="a" type="a-f-G"><point lat="1" lon="181"/></event>"#)
            .unwrap_err(),
        CotParseError::InvalidCoordinate("lon")
    );
}

#[test]
fn stale_location_records_are_dropped() {
    let mut state: LocationState<(f64, f64)> = LocationState::new(10, 60_000);
    let event = location_event();
    state.record(PacketSource::LocalUdp, 6969, &event, Some((1.0, 1.0)), 1_000);
    assert_eq!(state.len(61_000), 1);
    assert_eq!(state.len(61_001), 0);
}

#[test]
fn parses_enable_and_disable_commands() {
    let enable = DiagnosticCommand::enable("abc-123".to_string(), 900).unwrap();
    assert_eq!(DiagnosticCommand::parse(&enable.encode()).unwrap(), enable);
    let disable = DiagnosticCommand::disable("abc-124".to_string()).unwrap();
    assert_eq!(DiagnosticCommand::parse(&disable.encode()).unwrap(), disable);
}

#[test]
fn diagnostic_command_text_and_errors() {
    let enable = DiagnosticCommand::enable("abc-123".to_string(), 900).unwrap();
    assert_eq!(enable.encode(), b"KAD1|abc-123|enable|900".to_vec());
    assert_eq!(
        DiagnosticCommand::enable("abc-123".to_string(), 0).unwrap_err(),
        DiagnosticCommandError::InvalidDuration
    );
    assert_eq!(
        DiagnosticCommand::enable("abc-123".to_string(), 86_401).unwrap_err(),
        DiagnosticCommandError::InvalidDuration
    );
    assert_eq!(
        DiagnosticCommand::disable("bad id".to_string()).unwrap_err(),
        DiagnosticCommandError::InvalidId
    );
    assert_eq!(
        DiagnosticCommand::parse(&[0xff]).unwrap_err(),
        DiagnosticCommandError::NotUtf8
    );
    assert_eq!(
        DiagnosticCommand::parse(b"KAD1|abc").unwrap_err(),
        DiagnosticCommandError::InvalidFormat
    );
    assert_eq!(
        DiagnosticCommand::parse(b"KAD2|abc|disable|0").unwrap_err(),
        DiagnosticCommandError::InvalidVersion
    );
    assert_eq!(
        DiagnosticCommand::parse(b"KAD1|abc|pause|0").unwrap_err(),
        DiagnosticCommandError::InvalidAction
    );
    assert_eq!(
        DiagnosticCommand::parse(b"KAD1|abc|enable|x").unwrap_err(),
        DiagnosticCommandError::InvalidDuration
    );
    assert_eq!(
        DiagnosticCommand::parse(b"KAD1|abc|disable|5").unwrap_err(),
        DiagnosticCommandError::InvalidDuration
    );
    assert_eq!(
        DiagnosticCommand::parse(b"KAD1|abc|disable|0").unwrap().action,
        DiagnosticAction::Disable
    );
}

#[test]
fn suppresses_duplicate_control_commands() {
    let mut state = DiagnosticState::default();
    let command = DiagnosticCommand::enable("abc-123".to_string(), 900).unwrap();
    assert!(state.apply_once(&command, 1_000));
    assert!(!state.apply_once(&command, 1_000));
}

#[test]
fn records_peer_association_only_while_enabled() {
    let mut state = DiagnosticState::default();
    let event = location_event();
    let point = point_pair(&event);
    assert!(!state.record_remote("peer-a", 6969, &event, point.clone(), 1_000));
    state.apply_once(
        &DiagnosticCommand::enable("enable-1".to_string(), 900).unwrap(),
        1_000,
    );
    assert!(state.record_remote("peer-a", 6969, &event, point.clone(), 1_000));
    assert_eq!(state.recent(10, 1_000).len(), 1);
    state.apply_once(
        &DiagnosticCommand::disable("disable-1".to_string()).unwrap(),
        1_000,
    );
    assert!(!state.record_remote("peer-a", 6969, &event, point, 1_000));
}

#[test]
fn enable_window_expires_and_clears_records() {
    let mut state = DiagnosticState::with_defaults();
    let event = location_event();
    state.apply_once(&DiagnosticCommand::enable("e".to_string(), 10).unwrap(), 0);
    assert!(state.record_remote("peer-a", 6969, &event, point_pair(&event), 5_000));
    assert_eq!(
        state.status(5_000),
        DiagnosticStatus {
            enabled: true,
            remaining_seconds: 5,
            record_count: 1
        }
    );
    assert_eq!(
        state.status(10_000),
        DiagnosticStatus {
            enabled: false,
            remaining_seconds: 0,
            record_count: 0
        }
    );
}

#[test]
fn disable_clears_records() {
    let mut state = DiagnosticState::with_defaults();
    let event = location_event();
    state.apply_once(&DiagnosticCommand::enable("e".to_string(), 900).unwrap(), 0);
    state.record_remote("peer-a", 6969, &event, point_pair(&event), 1);
    state.apply_once(&DiagnosticCommand::disable("d".to_string()).unwrap(), 2);
    assert_eq!(state.recent(10, 2).len(), 0);
    assert!(!state.status(2).enabled);
}

#[test]
fn explicit_interface_selects_single_address() {
    let candidates = vec![
        candidate("usb0", [192, 168, 10, 2]),
        candidate("wlan0", [10, 0, 0, 2]),
    ];
    let selected = select_local_interface(
        &candidates,
        &InterfaceSelection {
            interface_name: Some("usb0".into()),
            local_addr: None,
        },
    )
    .expect("selected interface");
    assert_eq!(selected.name, "usb0");
    assert_eq!(selected.addr, ipv4(192, 168, 10, 2));
}

#[test]
fn explicit_non_default_address_is_permitted() {
    let candidates = vec![candidate("eth0", [10, 1, 2, 3])];
    let selected = select_local_interface(
        &candidates,
        &InterfaceSelection {
            interface_name: None,
            local_addr: Some(ipv4(10, 1, 2, 3)),
        },
    )
    .expect("explicit address is safe");
    assert_eq!(selected.name, "eth0");
}

#[test]
fn auto_detect_prefers_single_kaonic_lan_candidate() {
    let candidates = vec![
        candidate("eth0", [10, 0, 0, 2]),
        candidate("usb0", [192, 168, 10, 2]),
    ];
    let selected = select_local_interface(&candidates, &InterfaceSelection::default())
        .expect("selected interface");
    assert_eq!(selected.name, "usb0");
}

#[test]
fn auto_detect_refuses_unrelated_single_interface() {
    let candidates = vec![candidate("eth0", [10, 0, 0, 2])];
    assert_eq!(
        select_local_interface(&candidates, &InterfaceSelection::default()).unwrap_err(),
        InterfaceSelectionError::NoAutomaticAtakInterface
    );
}

#[test]
fn auto_detect_rejects_ambiguous_interfaces() {
    let candidates = vec![
        candidate("usb0", [192, 168, 10, 2]),
        candidate("wlan0", [192, 168, 10, 3]),
    ];
    assert!(matches!(
        select_local_interface(&candidates, &InterfaceSelection::default()),
        Err(InterfaceSelectionError::AmbiguousInterface(_))
    ));
}

#[test]
fn explicit_interface_rejects_multiple_addresses_without_address() {
    let candidates = vec![
        candidate("usb0", [192, 168, 10, 2]),
        candidate("usb0", [10, 0, 0, 2]),
    ];
    assert!(matches!(
        select_local_interface(
            &candidates,
            &InterfaceSelection {
                interface_name: Some("usb0".into()),
                local_addr: None,
            },
        ),
        Err(InterfaceSelectionError::AmbiguousInterface(_))
    ));
}

#[test]
fn interface_selection_error_variants() {
    assert_eq!(
        select_local_interface(&Vec::new(), &InterfaceSelection::default()).unwrap_err(),
        InterfaceSelectionError::NoUsableInterfaces
    );
    let candidates = vec![candidate("usb0", [192, 168, 10, 2])];
    assert_eq!(
        select_local_interface(
            &candidates,
            &InterfaceSelection {
                interface_name: Some("eth9".into()),
                local_addr: None,
            },
        )
        .unwrap_err(),
        InterfaceSelectionError::InterfaceNotFound("eth9".into())
    );
    assert_eq!(
        select_local_interface(
            &candidates,
            &InterfaceSelection {
                interface_name: None,
                local_addr: Some(ipv4(10, 9, 9, 9)),
            },
        )
        .unwrap_err(),
        InterfaceSelectionError::AddressNotFound(ipv4(10, 9, 9, 9))
    );
    assert_eq!(format_ipv4(ipv4(192, 168, 10, 2)), "192.168.10.2");
}

#[test]
fn parses_local_diagnostics_requests() {
    assert!(matches!(
        parse_local_diagnostic_request(b"enable 120").unwrap(),
        LocalDiagnosticRequest::Enable(120)
    ));
    assert!(matches!(
        parse_local_diagnostic_request(b"disable").unwrap(),
        LocalDiagnosticRequest::Disable
    ));
    assert!(parse_local_diagnostic_request(b"enable 0").is_err());
    assert!(parse_local_diagnostic_request(b"recent 21").is_err());
    assert!(parse_local_diagnostic_request(&[0xff]).is_err());
    assert!(
        parse_local_diagnostic_request(&vec![b'a'; MAX_LOCAL_DIAGNOSTIC_REQUEST_BYTES]).is_err()
    );
}

#[test]
fn local_requests_default_to_status_and_ten_records() {
    assert!(parse_local_diagnostic_request(b"").is_err());
    assert_eq!(
        parse_local_diagnostic_request(b" status ").unwrap(),
        LocalDiagnosticRequest::Status
    );
    assert_eq!(
        parse_local_diagnostic_request(b"recent").unwrap(),
        LocalDiagnosticRequest::Recent(10)
    );
    assert_eq!(
        parse_local_diagnostic_request(b"enable").unwrap(),
        LocalDiagnosticRequest::Enable(900)
    );
    assert_eq!(
        parse_local_diagnostic_request(b"recent 20").unwrap(),
        LocalDiagnosticRequest::Recent(20)
    );
}

#[test]
fn diagnostics_control_listen_requires_loopback_without_override() {
    let loopback = ListenAddress {
        ip: IpAddress::V4(ipv4(127, 0, 0, 1)),
        port: 19001,
    };
    let non_loopback = ListenAddress {
        ip: IpAddress::V4(ipv4(0, 0, 0, 0)),
        port: 19001,
    };
    assert!(validate_diagnostics_control_listen(loopback, false).is_ok());
    assert!(validate_diagnostics_control_listen(non_loopback, false).is_err());
    assert!(validate_diagnostics_control_listen(non_loopback, true).is_ok());
}

#[test]
fn diagnostics_unix_socket_path_must_be_absolute() {
    assert!(validate_diagnostics_unix_socket_path("/run/kaonic-atak-plugin/diagnostics.sock").is_ok());
    assert!(validate_diagnostics_unix_socket_path("diagnostics.sock").is_err());
}

#[test]
fn local_diagnostics_control_does_not_relay_without_mesh_control() {
    let mut state = DiagnosticState::default();
    let reply =
        handle_local_diagnostic_request(&mut state, b"enable 120", "local-1".to_string(), false, 0);
    assert!(reply.reply.starts_with("OK enabled=true"));
    assert!(reply.relay.is_none());
    assert!(state.status(0).enabled);
}

#[test]
fn local_diagnostics_control_relays_with_mesh_control() {
    let mut state = DiagnosticState::with_defaults();
    let reply =
        handle_local_diagnostic_request(&mut state, b"disable", "local-2".to_string(), true, 0);
    assert!(reply.reply.starts_with("OK enabled=false"));
    assert_eq!(reply.relay, Some(b"KAD1|local-2|disable|0".to_vec()));
    let bad = handle_local_diagnostic_request(&mut state, b"jump", "local-3".to_string(), true, 0);
    assert!(bad.reply.starts_with("ERR "));
    assert!(bad.relay.is_none());
}

#[test]
fn status_and_record_lines() {
    let status = DiagnosticStatus {
        enabled: true,
        remaining_seconds: 42,
        record_count: 3,
    };
    assert_eq!(
        status_line(&status),
        "OK enabled=true remaining_seconds=42 records=3\n"
    );
    let record = DiagnosticRecord {
        remote_peer_hash: "abcd".to_string(),
        channel_port: 6969,
        uid: "ANDROID-123".to_string(),
        callsign: None,
        event_type: "a-f-G".to_string(),
        point: Some(("38.8977".to_string(), "-77.0365".to_string())),
        observed_at_ms: 7,
    };
    assert_eq!(
        format_diagnostic_record(&record),
        "RECORD unix_ms=7 peer=abcd port=6969 uid=ANDROID-123 callsign=- type=a-f-G lat=38.8977 lon=-77.0365\n"
    );
    assert_eq!(sanitize_field("a b\tc"), "a_b_c");
}

#[test]
fn configuration_values() {
    assert_eq!(non_empty_value(Some("  x ")), Some("x".to_string()));
    assert_eq!(non_empty_value(Some("   ")), None);
    assert_eq!(non_empty_value(None), None);
    assert!(env_flag_enabled(Some("1")));
    assert!(env_flag_enabled(Some("TRUE")));
    assert!(!env_flag_enabled(Some("0")));
    assert!(!env_flag_enabled(None));
    assert_eq!(
        configured_diagnostics_unix_socket(Some("/tmp/a.sock"), Some("/tmp/b.sock")),
        Some("/tmp/a.sock".to_string())
    );
    assert!(control_availability_check(false, false).is_ok());
    assert!(control_availability_check(true, false).is_err());
    assert!(control_availability_check(true, true).is_ok());
}

#[test]
fn command_ids_are_hex_and_fresh() {
    assert_eq!(format_command_id(0x1f, 0xab), "1f-ab");
    assert_eq!(diagnostics_port_tag(), b"atak-diag-control-v1".to_vec());
    let id = new_command_id(5).expect("random source");
    assert!(id.starts_with("5-"));
    let parsed = DiagnosticCommand::disable(id.clone()).unwrap();
    assert_eq!(parsed.id, id);
}

#[test]
fn bridge_channels_and_tags() {
    let channels = atak_channels();
    assert_eq!(channels.len(), 2);
    assert_eq!(channels[0].port, 6969);
    assert_eq!(channels[1].port, 17012);
    assert_ne!(port_tag(channels[0].port), diagnostics_port_tag());
}

#[test]
fn announces_add_peers_and_payloads_are_gated() {
    let mut peers = PeerSet::new();
    let tag = port_tag(6969);
    assert_eq!(tag, vec![0x1b, 0x39]);
    assert!(!peers.contains(7));
    assert!(on_announce(&mut peers, &tag, &tag, 7, 9));
    assert!(peers.contains(7));
    assert!(!on_announce(&mut peers, &tag, &tag, 9, 9));
    assert!(!peers.contains(9));
    assert!(!on_announce(&mut peers, b"other", &tag, 8, 9));
    assert!(!peers.contains(8));
}

#[test]
fn payloads_are_forwarded_and_recorded() {
    let mut locations: LocationState<(f64, f64)> = LocationState::with_defaults();
    let mut diagnostics = DiagnosticState::with_defaults();
    diagnostics.apply_once(&DiagnosticCommand::enable("e".to_string(), 900).unwrap(), 0);
    let parsed = parse_checked(VALID_COT);
    let event = parsed.clone().unwrap();
    let decision = accept_payload(
        &parsed,
        PacketSource::RemoteReticulum,
        Some("peer-a"),
        6969,
        &mut locations,
        Some((38.8977, -77.0365)),
        &mut diagnostics,
        point_pair(&event),
        false,
        10,
    );
    assert!(decision.forward);
    assert!(!decision.invalid);
    assert!(decision.diagnostics_recorded);
    assert_eq!(decision.location.unwrap().uid, "ANDROID-123");
    let bad = parse_checked(b"junk");
    let refused = accept_payload(
        &bad,
        PacketSource::LocalUdp,
        None,
        6969,
        &mut locations,
        None,
        &mut diagnostics,
        None,
        false,
        11,
    );
    assert!(!refused.forward);
    assert!(refused.invalid);
    let passed = accept_payload(
        &bad,
        PacketSource::LocalUdp,
        None,
        6969,
        &mut locations,
        None,
        &mut diagnostics,
        None,
        true,
        12,
    );
    assert!(passed.forward);
}

#[test]
fn mesh_control_relays_a_command_once() {
    let mut state = DiagnosticState::with_defaults();
    let command = DiagnosticCommand::enable("mesh-1".to_string(), 60).unwrap();
    let first = handle_mesh_control_payload(&mut state, &command.encode(), 0);
    let second = handle_mesh_control_payload(&mut state, &command.encode(), 0);
    assert!(matches!(first, MeshControlOutcome::Applied { .. }));
    assert!(!matches!(second, MeshControlOutcome::Applied { .. }));
}

#[test]
fn error_messages() {
    assert_eq!(
        DiagnosticCommandError::InvalidId.message(),
        "invalid diagnostics command id"
    );
    assert_eq!(
        InterfaceSelectionError::AddressNotFound(ipv4(10, 1, 2, 3)).message(),
        "local address 10.1.2.3 was not found"
    );
    assert_eq!(
        InterfaceSelectionError::InterfaceNotFound("eth9".to_string()).message(),
        "interface 'eth9' was not found"
    );
}

#[test]
fn cot_error_messages() {
    assert_eq!(
        CotParseError::InvalidCoordinate("lat").message(),
        "invalid CoT coordinate lat"
    );
    assert_eq!(CotParseError::NotUtf8.message(), "payload is not UTF-8");
    assert_eq!(
        CotParseError::MissingAttribute("uid").message(),
        "missing CoT attribute uid"
    );
}

#[test]
fn fresh_enable_clears_records() {
    let mut state = DiagnosticState::with_defaults();
    let event = location_event();
    state.apply_once(&DiagnosticCommand::enable("e1".to_string(), 900).unwrap(), 1_000);
    assert!(state.record_remote("peer-a", 6969, &event, point_pair(&event), 1_500));
    assert_eq!(state.status(1_500).record_count, 1);
    assert!(state.apply_once(&DiagnosticCommand::enable("e2".to_string(), 900).unwrap(), 2_000));
    assert_eq!(state.status(2_000).record_count, 0);
    assert!(state.recent(10, 2_000).is_empty());
    assert!(state.status(2_000).enabled);
    assert!(!state.apply_once(&DiagnosticCommand::enable("e2".to_string(), 900).unwrap(), 2_100));
}
