use irc_transport::SocketError;
use irc_transport::addr::{parse_address, parse_host_port};

#[test]
fn test_parse_address_ircs_explicit_port() {
    assert_eq!(
        parse_address("ircs://host:6697"),
        Ok((true, "host".to_string(), 6697))
    );
}

#[test]
fn test_parse_address_ircs_default_port() {
    assert_eq!(
        parse_address("ircs://host"),
        Ok((true, "host".to_string(), 6697))
    );
}

#[test]
fn test_parse_address_irc_default_port() {
    assert_eq!(
        parse_address("irc://irc.example.net"),
        Ok((false, "irc.example.net".to_string(), 6667))
    );
}

#[test]
fn test_parse_address_bare_host_with_port() {
    assert_eq!(
        parse_address("host:1234"),
        Ok((false, "host".to_string(), 1234))
    );
}

#[test]
fn test_parse_address_bare_host_default_port() {
    assert_eq!(
        parse_address("host"),
        Ok((false, "host".to_string(), 6667))
    );
}

#[test]
fn test_parse_address_non_numeric_port_degrades_to_host() {
    assert_eq!(
        parse_address("host:notaport"),
        Ok((false, "host:notaport".to_string(), 6667))
    );
}

#[test]
fn test_parse_address_empty_host_fails() {
    assert_eq!(parse_address(""), Err(SocketError::InvalidAddress));
    assert_eq!(parse_address("ircs://"), Err(SocketError::InvalidAddress));
    assert_eq!(parse_address("irc://"), Err(SocketError::InvalidAddress));
    assert_eq!(parse_address(":6667"), Err(SocketError::InvalidAddress));
}

#[test]
fn test_parse_host_port_splits_at_last_colon() {
    assert_eq!(
        parse_host_port("a:b:123", 6667),
        Ok(("a:b".to_string(), 123))
    );
}

#[test]
fn test_parse_host_port_port_out_of_range() {
    assert_eq!(
        parse_host_port("host:65536", 6667),
        Ok(("host:65536".to_string(), 6667))
    );
    assert_eq!(
        parse_host_port("host:65535", 6667),
        Ok(("host".to_string(), 65535))
    );
}

#[test]
fn test_parse_host_port_plus_and_zeros() {
    // str::parse::<u16> accepts a leading plus sign and leading zeros.
    assert_eq!(
        parse_host_port("host:+123", 6667),
        Ok(("host".to_string(), 123))
    );
    assert_eq!(
        parse_host_port("host:0080", 6667),
        Ok(("host".to_string(), 80))
    );
}

#[test]
fn test_parse_host_port_trailing_colon() {
    assert_eq!(
        parse_host_port("host:", 6667),
        Ok(("host:".to_string(), 6667))
    );
}

#[test]
fn test_parse_host_port_empty_host_fails() {
    assert_eq!(parse_host_port(":123", 6667), Err(SocketError::InvalidAddress));
    assert_eq!(parse_host_port("", 6667), Err(SocketError::InvalidAddress));
}
