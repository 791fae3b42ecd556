use ipcalc::addr::{
    max_hosts, min_hosts, netmask_octects_from_prefix, to_broadcast, to_network_id, to_octets,
    to_wildcard,
};
use ipcalc::cidr::{get_ip_from_cidr, ParseError};
use ipcalc::text::{report_lines, to_binary, to_ipv4};

fn word(o: &[u32]) -> u32 {
    o[0] << 24 | o[1] << 16 | o[2] << 8 | o[3]
}

fn parse(s: &str) -> (Vec<u32>, u32) {
    let mut v = get_ip_from_cidr(s).unwrap();
    let p = v.pop().unwrap();
    (v, p)
}

#[test]
fn netmask_of_24() {
    assert_eq!(netmask_octects_from_prefix(24), vec![255, 255, 255, 0]);
}

#[test]
fn masks_of_prefix_zero() {
    assert_eq!(netmask_octects_from_prefix(0), vec![0, 0, 0, 0]);
    assert_eq!(to_wildcard(&0), vec![255, 255, 255, 255]);
}

#[test]
fn masks_of_prefix_32() {
    assert_eq!(netmask_octects_from_prefix(32), vec![255, 255, 255, 255]);
    assert_eq!(to_wildcard(&32), vec![0, 0, 0, 0]);
}

#[test]
fn netmask_leading_ones_for_every_prefix() {
    for p in 0..=32u32 {
        let m = word(&netmask_octects_from_prefix(p));
        let w = word(&to_wildcard(&p));
        assert_eq!(m.leading_ones(), p);
        assert_eq!(m.trailing_zeros(), if p == 0 { 32 } else { 32 - p });
        assert_eq!(w, !m);
    }
}

#[test]
fn network_and_wildcard_make_broadcast() {
    let ip = vec![172, 16, 77, 201];
    for p in 0..=32u32 {
        let nm = netmask_octects_from_prefix(p);
        let net = word(&to_network_id(&ip, &nm));
        let wc = word(&to_wildcard(&p));
        assert_eq!(net & wc, 0);
        assert_eq!(net | wc, word(&to_broadcast(&ip, &p)));
    }
}

#[test]
fn address_between_network_and_broadcast() {
    let ip = vec![203, 0, 113, 77];
    for p in 0..=32u32 {
        let nm = netmask_octects_from_prefix(p);
        let net = word(&to_network_id(&ip, &nm));
        let bc = word(&to_broadcast(&ip, &p));
        assert!(net <= word(&ip));
        assert!(word(&ip) <= bc);
    }
}

#[test]
fn dotted_form_reads_back() {
    let ip = vec![192, 168, 1, 10];
    for p in [0u32, 7, 24, 32] {
        for o in [
            ip.clone(),
            netmask_octects_from_prefix(p),
            to_wildcard(&p),
            to_broadcast(&ip, &p),
        ] {
            let text = format!("{}/{}", to_ipv4(&o), p);
            let mut back = get_ip_from_cidr(&text).unwrap();
            assert_eq!(back.pop(), Some(p));
            assert_eq!(back, o);
        }
    }
}

#[test]
fn scenario_class_c_host() {
    let (ip, p) = parse("192.168.1.10/24");
    assert_eq!(ip, vec![192, 168, 1, 10]);
    assert_eq!(p, 24);
    let nm = netmask_octects_from_prefix(p);
    let net = to_network_id(&ip, &nm);
    let bc = to_broadcast(&ip, &p);
    assert_eq!(to_ipv4(&ip), "192.168.1.10");
    assert_eq!(to_ipv4(&nm), "255.255.255.0");
    assert_eq!(to_ipv4(&to_wildcard(&p)), "0.0.0.255");
    assert_eq!(to_ipv4(&net), "192.168.1.0");
    assert_eq!(to_ipv4(&min_hosts(&net)), "192.168.1.1");
    assert_eq!(to_ipv4(&max_hosts(&bc)), "192.168.1.254");
    assert_eq!(to_ipv4(&bc), "192.168.1.255");
}

#[test]
fn scenario_class_a_network() {
    let (ip, p) = parse("10.0.0.0/8");
    let nm = netmask_octects_from_prefix(p);
    let net = to_network_id(&ip, &nm);
    let bc = to_broadcast(&ip, &p);
    assert_eq!(to_ipv4(&net), "10.0.0.0");
    assert_eq!(to_ipv4(&bc), "10.255.255.255");
    assert_eq!(to_ipv4(&min_hosts(&net)), "10.0.0.1");
    assert_eq!(to_ipv4(&max_hosts(&bc)), "10.255.255.254");
}

#[test]
fn octet_above_255_is_out_of_range() {
    assert_eq!(get_ip_from_cidr("256.1.1.1/24"), Err(ParseError::OutOfRange));
    assert_eq!(get_ip_from_cidr("999.1.1.1/24"), Err(ParseError::OutOfRange));
}

#[test]
fn prefix_above_32_is_out_of_range() {
    assert_eq!(get_ip_from_cidr("1.1.1.1/33"), Err(ParseError::OutOfRange));
    assert_eq!(get_ip_from_cidr("1.1.1.1/99"), Err(ParseError::OutOfRange));
}

#[test]
fn second_prefix_is_malformed() {
    assert_eq!(get_ip_from_cidr("1.1.1.1/24/8"), Err(ParseError::Malformed));
}

#[test]
fn malformed_inputs() {
    for s in [
        "1.1.1/24",
        "1.1.1.1/",
        "1.1.1.1",
        "",
        " 1.1.1.1/24",
        "1.1.1.1/24 ",
        "+1.1.1.1/24",
        "1.1.1.1/+8",
        "1111.1.1.1/24",
        "1.1.1.1/024",
        "1.1.1.1.1/24",
        "1,1.1.1/24",
        "1.1.1.1\\24",
        "0x1.1.1.1/24",
        "１.1.1.1/24",
        "1.1.1.1/２",
        "é.1.1.1/24",
    ] {
        assert_eq!(get_ip_from_cidr(s), Err(ParseError::Malformed), "{:?}", s);
    }
}

#[test]
fn grammar_error_wins_over_range_error() {
    assert_eq!(get_ip_from_cidr("999.1.1.1/240"), Err(ParseError::Malformed));
}

#[test]
fn leading_zeros_are_accepted() {
    assert_eq!(get_ip_from_cidr("010.001.000.255/08"), Ok(vec![10, 1, 0, 255, 8]));
}

#[test]
fn extreme_values_are_accepted() {
    assert_eq!(get_ip_from_cidr("0.0.0.0/0"), Ok(vec![0, 0, 0, 0, 0]));
    assert_eq!(get_ip_from_cidr("255.255.255.255/32"), Ok(vec![255, 255, 255, 255, 32]));
}

#[test]
fn grammar_agrees_with_pattern() {
    let re = regex::Regex::new(r"^([0-9]{1,3})\.([0-9]{1,3})\.([0-9]{1,3})\.([0-9]{1,3})/([0-9]{1,2})$")
        .unwrap();
    for s in [
        "1.2.3.4/5",
        "123.45.6.78/32",
        "999.999.999.999/99",
        "1.2.3.4/",
        "1.2.3/4",
        "1..3.4/5",
        "1.2.3.4/555",
        "1234.2.3.4/5",
        "a.b.c.d/e",
        "1.2.3.4/5\n",
        "1.2.3.4.5/6",
        "000.000.000.000/00",
    ] {
        let malformed = get_ip_from_cidr(s) == Err(ParseError::Malformed);
        assert_eq!(re.is_match(s), !malformed, "{:?}", s);
    }
}

#[test]
fn host_bounds_carry_across_octets() {
    assert_eq!(min_hosts(&[10, 0, 0, 255]), vec![10, 0, 1, 0]);
    assert_eq!(max_hosts(&[10, 0, 1, 0]), vec![10, 0, 0, 255]);
    assert_eq!(min_hosts(&[255, 255, 255, 255]), vec![0, 0, 0, 0]);
    assert_eq!(max_hosts(&[0, 0, 0, 0]), vec![255, 255, 255, 255]);
}

#[test]
fn host_bounds_of_a_single_address() {
    let ip = vec![8, 8, 8, 8];
    let nm = netmask_octects_from_prefix(32);
    let net = to_network_id(&ip, &nm);
    let bc = to_broadcast(&ip, &32);
    assert_eq!(net, ip);
    assert_eq!(bc, ip);
    assert_eq!(min_hosts(&net), vec![8, 8, 8, 9]);
    assert_eq!(max_hosts(&bc), vec![8, 8, 8, 7]);
}

#[test]
fn octets_of_a_word() {
    assert_eq!(to_octets(0xC0A8_010A), vec![192, 168, 1, 10]);
    assert_eq!(to_octets(0), vec![0, 0, 0, 0]);
    assert_eq!(to_octets(u32::MAX), vec![255, 255, 255, 255]);
}

#[test]
fn network_id_is_octetwise_and() {
    assert_eq!(to_network_id(&[172, 31, 200, 9], &[255, 240, 0, 0]), vec![172, 16, 0, 0]);
}

#[test]
fn broadcast_of_slash_20() {
    assert_eq!(to_broadcast(&[172, 31, 200, 9], &20), vec![172, 31, 207, 255]);
}

#[test]
fn dotted_decimal_forms() {
    assert_eq!(to_ipv4(&[0, 0, 0, 0]), "0.0.0.0");
    assert_eq!(to_ipv4(&[9, 10, 99, 100]), "9.10.99.100");
    assert_eq!(to_ipv4(&[255, 255, 255, 255]), "255.255.255.255");
}

#[test]
fn dotted_binary_forms() {
    assert_eq!(to_binary(&[192, 168, 1, 10]), "11000000.10101000.00000001.00001010");
    assert_eq!(to_binary(&[0, 255, 128, 1]), "00000000.11111111.10000000.00000001");
}

#[test]
fn report_of_class_c_host() {
    let (ip, p) = parse("192.168.1.10/24");
    let lines = report_lines(&ip, &p);
    let expected = vec![
        "Address:   192.168.1.10     11000000.10101000.00000001.00001010",
        "Netmask:   255.255.255.0    11111111.11111111.11111111.00000000",
        "Wildcard:  0.0.0.255        00000000.00000000.00000000.11111111",
        "=>",
        "Network:   192.168.1.0      11000000.10101000.00000001.00000000",
        "HostMin:   192.168.1.1      11000000.10101000.00000001.00000001",
        "HostMax:   192.168.1.254    11000000.10101000.00000001.11111110",
        "Broadcast: 192.168.1.255    11000000.10101000.00000001.11111111",
    ];
    assert_eq!(lines, expected);
}

#[test]
fn report_pads_widest_address() {
    let lines = report_lines(&[255, 255, 255, 255], &32);
    assert_eq!(lines[0], "Address:   255.255.255.255  11111111.11111111.11111111.11111111");
    assert_eq!(lines[2], "Wildcard:  0.0.0.0          00000000.00000000.00000000.00000000");
}
