use ulc::address::{parse_as_domain_address, validate_host_domain};

#[test]
fn test_validate_host_domain() {
    assert!(validate_host_domain("") == false);
    assert!(validate_host_domain("a") == false);
    assert!(validate_host_domain("ab") == true);
    assert!(validate_host_domain("ab-") == false);
    assert!(validate_host_domain("ab.") == true);
    assert!(validate_host_domain("ab.a.qqq") == false);
    assert!(validate_host_domain("ab.aa.") == true);
    assert!(validate_host_domain("ab.a----a.") == true);
    assert!(validate_host_domain("ab.---.ddddd") == false);
    assert!(validate_host_domain(".ab") == false);
    assert!(validate_host_domain("a b c") == false);
    assert!(validate_host_domain("a-b.") == true);
    assert!(validate_host_domain("a-b.b") == false);
    assert!(validate_host_domain("a-b.--.dsffds") == false);
    assert!(validate_host_domain("a-b.-.dsf") == false);
    assert!(validate_host_domain("-ab") == false);
    assert!(validate_host_domain("example.com") == true);
    assert!(validate_host_domain("our-cheese.factory.is.4years.old") == true);
    assert!(validate_host_domain("1234-5678-9.phonenumber") == true);
    assert!(validate_host_domain("12.12.12.12") == true);
    assert!(validate_host_domain("ab.c.") == false);
}

#[test]
fn test_parse_as_domain_address() {
    assert!(parse_as_domain_address("hello") == Some(("hello", None)));
    assert!(parse_as_domain_address("hello:234") == Some(("hello", Some(234))));
    assert!(parse_as_domain_address("hello:12233234") == None);
    assert!(parse_as_domain_address("hello.example.com:0") == Some(("hello.example.com", Some(0))));
    assert!(parse_as_domain_address("localhost:631") == Some(("localhost", Some(631))));
}

#[test]
fn domain_address_edge_cases() {
    assert!(parse_as_domain_address("a:b:80") == None);
    assert!(parse_as_domain_address("host:") == None);
    assert!(parse_as_domain_address("host:+80") == Some(("host", Some(80))));
    assert!(parse_as_domain_address("host:65535") == Some(("host", Some(65535))));
    assert!(parse_as_domain_address("host:65536") == None);
    assert!(parse_as_domain_address("x:80") == None);
    assert!(validate_host_domain("h\u{e9}llo") == false);
}
