use print_dispatch::config::load_printers;

#[test]
fn default_port_when_omitted() {
    let printers = load_printers(b"192.168.1.5").unwrap();
    assert_eq!(printers.len(), 1);
    assert_eq!(printers[0].host, "192.168.1.5");
    assert_eq!(printers[0].port, 9001);
    assert_eq!(printers[0].host_and_port(), "192.168.1.5:9001");
}

#[test]
fn scenario_config_identifiers() {
    let printers = load_printers(b"192.168.1.5,192.168.1.6:9100").unwrap();
    assert_eq!(printers.len(), 2);
    assert_eq!(printers[0].host_and_port(), "192.168.1.5:9001");
    assert_eq!(printers[1].host_and_port(), "192.168.1.6:9100");
}

#[test]
fn entries_are_trimmed() {
    let printers = load_printers(b" alpha ,\tbeta:9100 ").unwrap();
    assert_eq!(printers.len(), 2);
    assert_eq!(printers[0].host, "alpha");
    assert_eq!(printers[0].port, 9001);
    assert_eq!(printers[1].host, "beta");
    assert_eq!(printers[1].port, 9100);
}

#[test]
fn explicit_port_bounds() {
    let printers = load_printers(b"p:65535,q:0").unwrap();
    assert_eq!(printers[0].port, 65535);
    assert_eq!(printers[1].port, 0);
}

#[test]
fn leading_zeros_allowed_in_config_port() {
    let printers = load_printers(b"p:09100").unwrap();
    assert_eq!(printers[0].port, 9100);
}

#[test]
fn rejects_empty_configuration() {
    assert!(load_printers(b"").is_err());
}

#[test]
fn rejects_empty_entry() {
    assert!(load_printers(b"a,,b").is_err());
    assert!(load_printers(b"a,").is_err());
    assert!(load_printers(b" , a").is_err());
}

#[test]
fn rejects_empty_host() {
    assert!(load_printers(b":9100").is_err());
}

#[test]
fn rejects_missing_port_digits() {
    assert!(load_printers(b"a:").is_err());
}

#[test]
fn rejects_unparsable_port() {
    assert!(load_printers(b"a:91x0").is_err());
    assert!(load_printers(b"a:91:00").is_err());
    assert!(load_printers(b"a:-9100").is_err());
}

#[test]
fn rejects_out_of_range_config_port() {
    assert!(load_printers(b"a:65536").is_err());
    assert!(load_printers(b"a:999999999999999999").is_err());
}

#[test]
fn accepts_host_with_inner_space() {
    let printers = load_printers(b"my host:9100").unwrap();
    assert_eq!(printers.len(), 1);
    assert_eq!(printers[0].host, "my host");
    assert_eq!(printers[0].host_and_port(), "my host:9100");
}

#[test]
fn accepts_non_ascii_host() {
    let printers = load_printers("å:9100".as_bytes()).unwrap();
    assert_eq!(printers[0].host, "å");
    assert_eq!(printers[0].host_and_port(), "å:9100");
}

#[test]
fn rejects_host_that_is_no_text() {
    let config: Vec<u8> = vec![0xff, 0xfe, b':', b'9', b'1', b'0', b'0'];
    assert!(load_printers(&config).is_err());
}

#[test]
fn accepts_plus_prefixed_port() {
    let printers = load_printers(b"a:+9100").unwrap();
    assert_eq!(printers[0].port, 9100);
    assert!(load_printers(b"a:+").is_err());
    assert!(load_printers(b"a:++9100").is_err());
}

#[test]
fn one_bad_entry_rejects_the_whole_configuration() {
    assert!(load_printers(b"good:9100,bad:port").is_err());
}
