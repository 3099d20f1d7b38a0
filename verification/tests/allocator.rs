use wg_easy_rs::addr::{allocate, allocate_ip, format_ipv4, parse_cidr, parse_ipv4, Ipv4Cidr};

fn ip(s: &str) -> u32 {
    parse_ipv4(s).expect("valid address")
}

#[test]
fn first_peer_gets_the_second_usable_host() {
    // 10.8.0.1 is reserved for the interface; 10.8.0.0 and 10.8.0.255 are
    // the network and broadcast addresses.
    let cidr = parse_cidr("10.8.0.0/24").expect("valid cidr");
    let got = allocate(&cidr, &vec![]);
    assert_eq!(got, Some(ip("10.8.0.2")));
}

#[test]
fn next_free_address_after_taken_ones() {
    let cidr = parse_cidr("10.8.0.0/24").expect("valid cidr");
    let used = vec![ip("10.8.0.2"), ip("10.8.0.3")];
    assert_eq!(allocate(&cidr, &used), Some(ip("10.8.0.4")));
}

#[test]
fn allocation_skips_gaps_filled_later() {
    let cidr = parse_cidr("10.8.0.0/24").expect("valid cidr");
    let used = vec![ip("10.8.0.3"), ip("10.8.0.5")];
    assert_eq!(allocate(&cidr, &used), Some(ip("10.8.0.2")));
}

#[test]
fn reserved_host_is_never_allocated() {
    let cidr = parse_cidr("10.8.0.0/24").expect("valid cidr");
    let got = allocate(&cidr, &vec![]).expect("address available");
    assert_ne!(got, ip("10.8.0.1"));
}

#[test]
fn full_pool_is_exhausted() {
    // In 10.8.0.0/30 the usable hosts are .1 (reserved) and .2.
    let cidr = parse_cidr("10.8.0.0/30").expect("valid cidr");
    assert_eq!(allocate(&cidr, &vec![]), Some(ip("10.8.0.2")));
    let used = vec![ip("10.8.0.2")];
    assert_eq!(allocate(&cidr, &used), None);
}

#[test]
fn single_host_block_is_always_exhausted() {
    let cidr = parse_cidr("10.8.0.7/32").expect("valid cidr");
    assert_eq!(allocate(&cidr, &vec![]), None);
}

#[test]
fn half_open_pair_block_has_one_free_host() {
    // A /31 has two hosts and no network or broadcast address.
    let cidr = parse_cidr("10.8.0.0/31").expect("valid cidr");
    assert_eq!(allocate(&cidr, &vec![]), Some(ip("10.8.0.1")));
    assert_eq!(allocate(&cidr, &vec![ip("10.8.0.1")]), None);
}

#[test]
fn unaligned_cidr_uses_its_network_block() {
    // The written address need not be the network address.
    let cidr = parse_cidr("10.8.0.57/24").expect("valid cidr");
    assert_eq!(allocate(&cidr, &vec![]), Some(ip("10.8.0.2")));
}

#[test]
fn allocate_ip_reads_stored_text() {
    let cidr = parse_cidr("10.8.0.0/24").expect("valid cidr");
    let used = vec!["10.8.0.2".to_string(), "10.8.0.3".to_string()];
    assert_eq!(allocate_ip(&cidr, &used), Some(ip("10.8.0.4")));
}

#[test]
fn allocate_ip_ignores_text_that_is_no_address() {
    let cidr = parse_cidr("10.8.0.0/24").expect("valid cidr");
    // Only the canonical form of an address marks it as taken.
    let used = vec!["not-an-address".to_string(), "10.8.0.002".to_string()];
    assert_eq!(allocate_ip(&cidr, &used), Some(ip("10.8.0.2")));
}

#[test]
fn ipv4_parsing_and_formatting() {
    assert_eq!(parse_ipv4("0.0.0.0"), Some(0));
    assert_eq!(parse_ipv4("255.255.255.255"), Some(u32::MAX));
    assert_eq!(parse_ipv4("10.8.0.1"), Some(0x0a08_0001));
    assert_eq!(parse_ipv4("1.2.3"), None);
    assert_eq!(parse_ipv4("1.2.3.4.5"), None);
    assert_eq!(parse_ipv4("1.2.3.256"), None);
    assert_eq!(parse_ipv4("01.2.3.4"), None);
    assert_eq!(parse_ipv4(""), None);
    assert_eq!(parse_ipv4("a.b.c.d"), None);
    assert_eq!(format_ipv4(0x0a08_0001), "10.8.0.1");
    assert_eq!(format_ipv4(u32::MAX), "255.255.255.255");
    assert_eq!(parse_ipv4(&format_ipv4(0xc0a8_0101)), Some(0xc0a8_0101));
}

#[test]
fn cidr_parsing() {
    let c = parse_cidr("10.8.0.0/24").expect("valid cidr");
    assert_eq!(c, Ipv4Cidr { addr: 0x0a08_0000, prefix: 24 });
    assert_eq!(parse_cidr("10.8.0.0/33"), None);
    assert_eq!(parse_cidr("10.8.0.0"), None);
    assert_eq!(parse_cidr("10.8.0/24"), None);
    assert_eq!(parse_cidr("10.8.0.0/24/7"), None);
    assert_eq!(parse_cidr("10.8.0.0/"), None);
}
