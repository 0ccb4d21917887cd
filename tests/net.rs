use ulc::address::{ipv4, parse_as_ipv4_address, split};
use ulc::socks::{check_reply, Socks4, SocksError};
use ulc::tor::{Auth, Tor};

#[test]
fn test_parse_as_ipv4_address() {
    assert!(parse_as_ipv4_address("0.0.0.0:50") == Some(ipv4(0, 0, 0, 0, 50)));
    assert!(parse_as_ipv4_address("255.0.255.0:30000") == Some(ipv4(255, 0, 255, 0, 30000)));
    assert!(parse_as_ipv4_address("255.0.256.0:30000") == None);
    assert!(parse_as_ipv4_address("This is an IP.. Honest!") == None);
}

#[test]
fn split_keeps_empty_pieces() {
    assert_eq!(split("a::b", ':'), vec!["a", "", "b"]);
    assert_eq!(split("", '.'), vec![""]);
    assert_eq!(split("1.2.3.4", '.'), vec!["1", "2", "3", "4"]);
}

#[test]
fn socks_request_for_ipv4() {
    let s = Socks4::new("127.0.0.1:9050").unwrap();
    assert_eq!(s.proxy_address(), "127.0.0.1:9050");
    assert_eq!(s.request("93.184.216.34:80").unwrap(), vec![4, 1, 0, 80, 93, 184, 216, 34, 0]);
}

#[test]
fn socks_request_for_host_name() {
    let s = Socks4::new("127.0.0.1:9050").unwrap();
    let mut want = vec![4, 1, 0x1f, 0x90, 0, 0, 0, 1, 0];
    want.extend_from_slice(b"example.com");
    want.push(0);
    assert_eq!(s.request("example.com:8080").unwrap(), want);
}

#[test]
fn socks_request_errors() {
    let s = Socks4::new("127.0.0.1:9050").unwrap();
    assert_eq!(s.request("example.com"), Err(SocksError::NoPort));
    assert_eq!(s.request("not an address"), Err(SocksError::InvalidAddress));
}

#[test]
fn socks_replies() {
    assert_eq!(check_reply(&[0, 90, 0, 0, 0, 0, 0, 0]), Ok(()));
    assert_eq!(check_reply(&[0, 91, 0, 0, 0, 0, 0, 0]), Err(SocksError::Rejected(91)));
    assert_eq!(check_reply(&[0, 90, 0]), Err(SocksError::PartialReply));
}

#[test]
fn tor_uses_loopback_ports() {
    let t = Tor::new(9050, 9051, Auth::NoAuth).unwrap();
    assert_eq!(t.socks().proxy_address(), "127.0.0.1:9050");
    let t = Tor::new(0, 1, Auth::Password("x".to_string())).unwrap();
    assert_eq!(t.socks().proxy_address(), "127.0.0.1:0");
}
