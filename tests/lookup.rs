use ip_geo::{
    format_ip, generate_random_ip, is_special_use, on_ip_info, on_public_ip, parse_ip, start,
    validate_resolved, IpInfo, Location, OutputJson, RequestError, ResolutionSource, Step,
};

fn info_with_code(code: &str) -> IpInfo {
    IpInfo {
        ip: "8.8.8.8".to_string(),
        ip_number: "134744072".to_string(),
        ip_version: 4,
        country_name: "United States of America".to_string(),
        country_code2: "US".to_string(),
        isp: "Google LLC".to_string(),
        response_code: code.to_string(),
        response_message: "OK".to_string(),
    }
}

fn octets_of(ip: &str) -> Vec<u8> {
    ip.split('.').map(|el| el.parse::<u8>().unwrap()).collect()
}

#[test]
fn test_parse_ip() {
    let ip = "8.8.8.8";
    assert!(parse_ip(ip).is_ok());
}

#[test]
fn test_is_special_use() {
    assert!(is_special_use(&[127, 0, 0, 1]));
}

#[test]
fn test_random_ip() {
    let ip = generate_random_ip();
    let ip = ip.as_str();
    assert!(parse_ip(ip).is_ok());
    let parts: Vec<u8> = ip
        .split('.')
        .into_iter()
        .map(|el| el.parse::<u8>().unwrap())
        .collect();
    assert!(!is_special_use(parts.as_slice()));
}

#[test]
fn reserved_first_octets_are_special() {
    for a in [0u8, 10, 14, 24, 39, 127] {
        for b in [0u8, 1, 128, 254, 255] {
            assert!(is_special_use(&[a, b, 7, 9]), "{a}.{b}.7.9");
        }
    }
    assert!(is_special_use(&[191, 255, 0, 0]));
    assert!(!is_special_use(&[191, 254, 0, 0]));
    assert!(is_special_use(&[223, 255, 255, 1]));
    assert!(!is_special_use(&[223, 255, 254, 1]));
}

#[test]
fn private_172_block_bounds() {
    for b in 0u8..=255 {
        assert_eq!(is_special_use(&[172, b, 3, 4]), (16..=31).contains(&b), "172.{b}.3.4");
    }
}

#[test]
fn every_table_row_and_its_edges() {
    assert!(is_special_use(&[128, 200, 1, 1]));
    assert!(is_special_use(&[169, 254, 1, 1]));
    assert!(!is_special_use(&[169, 253, 1, 1]));
    assert!(is_special_use(&[192, 0, 0, 5]));
    assert!(is_special_use(&[192, 0, 2, 5]));
    assert!(!is_special_use(&[192, 0, 1, 5]));
    assert!(is_special_use(&[192, 88, 99, 1]));
    assert!(!is_special_use(&[192, 88, 98, 1]));
    assert!(is_special_use(&[192, 168, 1, 1]));
    assert!(is_special_use(&[198, 18, 0, 1]));
    assert!(is_special_use(&[198, 19, 255, 1]));
    assert!(!is_special_use(&[198, 20, 0, 1]));
    assert!(!is_special_use(&[198, 17, 0, 1]));
    assert!(is_special_use(&[224, 0, 0, 1]));
    assert!(is_special_use(&[239, 1, 1, 1]));
    assert!(is_special_use(&[240, 1, 1, 1]));
    assert!(is_special_use(&[255, 255, 255, 255]));
    assert!(!is_special_use(&[223, 1, 1, 1]));
    assert!(!is_special_use(&[8, 8, 8, 8]));
    assert!(!is_special_use(&[1, 1, 1, 1]));
}

#[test]
fn not_four_octets_is_not_special() {
    assert!(!is_special_use(&[127, 0, 0]));
    assert!(!is_special_use(&[]));
    assert!(!is_special_use(&[10, 0, 0, 1, 5]));
}

#[test]
fn random_ips_are_never_reserved() {
    for _ in 0..10_000 {
        let ip = generate_random_ip();
        assert_ne!(ip, "0.0.0.0");
        let parts = octets_of(&ip);
        assert_eq!(parts.len(), 4);
        assert!(parts.iter().all(|&o| o != 0 && o != 255), "{ip}");
        assert!(!is_special_use(&parts), "{ip}");
    }
}

#[test]
fn random_ip_round_trips_through_parse() {
    for _ in 0..1000 {
        let ip = generate_random_ip();
        let parsed = parse_ip(&ip).unwrap();
        assert_eq!(parsed, octets_of(&ip));
        assert_eq!(format_ip(&parsed), ip);
    }
}

#[test]
fn format_writes_canonical_decimal() {
    assert_eq!(format_ip(&[8, 8, 8, 8]), "8.8.8.8");
    assert_eq!(format_ip(&[0, 0, 0, 0]), "0.0.0.0");
    assert_eq!(format_ip(&[255, 100, 10, 9]), "255.100.10.9");
    assert_eq!(format_ip(&[192, 168, 1, 254]), "192.168.1.254");
}

#[test]
fn parse_accepts_canonical_text() {
    assert_eq!(parse_ip("8.8.8.8").unwrap(), vec![8, 8, 8, 8]);
    assert_eq!(parse_ip("255.255.255.255").unwrap(), vec![255, 255, 255, 255]);
    assert_eq!(parse_ip("0.10.100.200").unwrap(), vec![0, 10, 100, 200]);
}

#[test]
fn parse_rejects_malformed_text() {
    for text in [
        "", "8.8.8", "8.8.8.8.8", "256.1.1.1", "1.2.3.04", "01.2.3.4", "1..2.3", "a.b.c.d",
        " 8.8.8.8", "8.8.8.8\n", "1.2.3.", ".1.2.3", "1234.1.1.1", "-1.2.3.4",
    ] {
        assert!(matches!(parse_ip(text), Err(RequestError::InvalidIpFormat)), "{text:?}");
    }
}

#[test]
fn validation_passes_public_address() {
    assert!(!is_special_use(&[8, 8, 8, 8]));
    assert_eq!(validate_resolved("8.8.8.8").unwrap(), vec![8, 8, 8, 8]);
}

#[test]
fn auto_discovered_loopback_is_special_use() {
    let step = on_public_ip(Ok("127.0.0.1".to_string()));
    assert!(matches!(step, Step::Failed(RequestError::SpecialUse)));
}

#[test]
fn fallback_address_fails_before_format_check() {
    assert!(matches!(validate_resolved("0.0.0.0"), Err(RequestError::FallbackAddress)));
    let step = on_public_ip(Ok("0.0.0.0".to_string()));
    assert!(matches!(step, Step::Failed(RequestError::FallbackAddress)));
}

#[test]
fn failed_echo_lookup_becomes_fallback_error() {
    let step = on_public_ip(Err(RequestError::UreqError("connection refused".to_string())));
    assert!(matches!(step, Step::Failed(RequestError::FallbackAddress)));
}

#[test]
fn malformed_echo_answer_is_invalid_format() {
    let step = on_public_ip(Ok("not an address".to_string()));
    assert!(matches!(step, Step::Failed(RequestError::InvalidIpFormat)));
}

#[test]
fn public_echo_answer_is_looked_up() {
    match on_public_ip(Ok("8.8.8.8".to_string())) {
        Step::Lookup(ip) => assert_eq!(ip, "8.8.8.8"),
        other => panic!("unexpected step {other:?}"),
    }
}

#[test]
fn non_success_status_is_no_information() {
    let step = on_ip_info(Ok(info_with_code("404")));
    assert!(matches!(step, Step::Failed(RequestError::NoIpInformation)));
    let step = on_ip_info(Ok(info_with_code("20")));
    assert!(matches!(step, Step::Failed(RequestError::NoIpInformation)));
}

#[test]
fn success_status_is_done() {
    match on_ip_info(Ok(info_with_code("200"))) {
        Step::Done(info) => assert_eq!(info.isp, "Google LLC"),
        other => panic!("unexpected step {other:?}"),
    }
}

#[test]
fn geolocation_transport_error_is_kept() {
    let step = on_ip_info(Err(RequestError::InvalidJson("expected value".to_string())));
    assert!(matches!(step, Step::Failed(RequestError::InvalidJson(m)) if m == "expected value"));
}

#[test]
fn source_selection_prefers_explicit_address() {
    let s = ResolutionSource::from_flags(Some("1.2.3.4".to_string()), true);
    assert!(matches!(s, ResolutionSource::Explicit(ref a) if a == "1.2.3.4"));
    assert!(matches!(ResolutionSource::from_flags(None, true), ResolutionSource::Random));
    assert!(matches!(ResolutionSource::from_flags(None, false), ResolutionSource::PublicLookup));
}

#[test]
fn start_steps() {
    assert!(matches!(start(ResolutionSource::PublicLookup), Step::FetchPublicIp));
    match start(ResolutionSource::Random) {
        Step::Lookup(ip) => assert!(!is_special_use(&octets_of(&ip))),
        other => panic!("unexpected step {other:?}"),
    }
    let explicit = start(ResolutionSource::Explicit("10.1.2.3".to_string()));
    assert!(matches!(explicit, Step::Failed(RequestError::SpecialUse)));
    let explicit = start(ResolutionSource::Explicit("1.2.3".to_string()));
    assert!(matches!(explicit, Step::Failed(RequestError::InvalidIpFormat)));
    match start(ResolutionSource::Explicit("9.9.9.9".to_string())) {
        Step::Lookup(ip) => assert_eq!(ip, "9.9.9.9"),
        other => panic!("unexpected step {other:?}"),
    }
}

#[test]
fn output_json_regroups_location() {
    let out = OutputJson::from(info_with_code("200"));
    assert_eq!(out.ip, "8.8.8.8");
    assert_eq!(out.ip_number, "134744072");
    assert_eq!(out.ip_version, 4);
    assert_eq!(out.isp, "Google LLC");
    let Location { country_name, country_code } = out.location;
    assert_eq!(country_name, "United States of America");
    assert_eq!(country_code, "US");
}
