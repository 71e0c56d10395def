//! The input validator: addresses, port ranges, argument arity.

use portscan::addr::parse_ipv4;
use portscan::addr::Ipv4;
use portscan::args::check_args;
use portscan::errors::ValidationError;
use portscan::ports::parse_port_range;
use portscan::ports::PortRange;

fn argv(parts: &[&str]) -> Vec<String> {
    parts.iter().map(|p| p.to_string()).collect()
}

#[test]
fn accepts_loopback_address() {
    assert_eq!(parse_ipv4("127.0.0.1"), Ok(Ipv4 { a: 127, b: 0, c: 0, d: 1 }));
}

#[test]
fn accepts_extreme_octets() {
    assert_eq!(parse_ipv4("0.0.0.0"), Ok(Ipv4 { a: 0, b: 0, c: 0, d: 0 }));
    assert_eq!(
        parse_ipv4("255.255.255.255"),
        Ok(Ipv4 { a: 255, b: 255, c: 255, d: 255 })
    );
}

#[test]
fn rejects_out_of_range_octet() {
    assert_eq!(parse_ipv4("999.1.1.1"), Err(ValidationError::InvalidAddress));
    assert_eq!(parse_ipv4("256.0.0.1"), Err(ValidationError::InvalidAddress));
}

#[test]
fn rejects_malformed_addresses() {
    assert_eq!(parse_ipv4(""), Err(ValidationError::InvalidAddress));
    assert_eq!(parse_ipv4("1.2.3"), Err(ValidationError::InvalidAddress));
    assert_eq!(parse_ipv4("1.2.3.4.5"), Err(ValidationError::InvalidAddress));
    assert_eq!(parse_ipv4("1..2.3"), Err(ValidationError::InvalidAddress));
    assert_eq!(parse_ipv4("1.2.3."), Err(ValidationError::InvalidAddress));
    assert_eq!(parse_ipv4("a.b.c.d"), Err(ValidationError::InvalidAddress));
    assert_eq!(parse_ipv4("01.2.3.4"), Err(ValidationError::InvalidAddress));
    assert_eq!(parse_ipv4("+1.2.3.4"), Err(ValidationError::InvalidAddress));
    assert_eq!(parse_ipv4("1.2.3.4 "), Err(ValidationError::InvalidAddress));
}

#[test]
fn accepts_plain_range() {
    assert_eq!(
        parse_port_range("80-443"),
        Ok(PortRange { start: 80, end: 443 })
    );
}

#[test]
fn accepts_single_port_range() {
    assert_eq!(parse_port_range("22-22"), Ok(PortRange { start: 22, end: 22 }));
}

#[test]
fn accepts_full_range() {
    assert_eq!(
        parse_port_range("0-65535"),
        Ok(PortRange { start: 0, end: 65535 })
    );
}

#[test]
fn accepts_usual_unsigned_syntax() {
    // leading zeros and a leading plus sign are ordinary unsigned syntax
    assert_eq!(parse_port_range("007-8"), Ok(PortRange { start: 7, end: 8 }));
    assert_eq!(parse_port_range("+80-90"), Ok(PortRange { start: 80, end: 90 }));
}

#[test]
fn rejects_range_without_separator() {
    assert_eq!(parse_port_range("80"), Err(ValidationError::InvalidPortRange));
}

#[test]
fn rejects_non_numeric_range_field() {
    assert_eq!(
        parse_port_range("80-abc"),
        Err(ValidationError::InvalidPortRange)
    );
}

#[test]
fn rejects_malformed_ranges() {
    assert_eq!(parse_port_range(""), Err(ValidationError::InvalidPortRange));
    assert_eq!(parse_port_range("80-"), Err(ValidationError::InvalidPortRange));
    assert_eq!(parse_port_range("-80"), Err(ValidationError::InvalidPortRange));
    assert_eq!(
        parse_port_range("1-2-3"),
        Err(ValidationError::InvalidPortRange)
    );
    assert_eq!(
        parse_port_range("80-65536"),
        Err(ValidationError::InvalidPortRange)
    );
}

#[test]
fn rejects_backwards_range() {
    assert_eq!(parse_port_range("90-80"), Err(ValidationError::ReversedRange));
}

#[test]
fn no_arguments_asks_for_help() {
    assert_eq!(check_args(&argv(&["scanner"])), Err(ValidationError::Help));
}

#[test]
fn lone_h_asks_for_help() {
    assert_eq!(check_args(&argv(&["scanner", "h"])), Err(ValidationError::Help));
}

#[test]
fn one_other_argument_is_wrong_arity() {
    assert_eq!(
        check_args(&argv(&["scanner", "127.0.0.1"])),
        Err(ValidationError::WrongArgCount)
    );
}

#[test]
fn too_many_arguments_is_wrong_arity() {
    assert_eq!(
        check_args(&argv(&["scanner", "127.0.0.1", "80-90", "extra"])),
        Err(ValidationError::WrongArgCount)
    );
}

#[test]
fn address_and_range_are_accepted() {
    assert_eq!(check_args(&argv(&["scanner", "127.0.0.1", "80-90"])), Ok(()));
}
