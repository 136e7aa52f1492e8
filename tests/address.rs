use ssclient::address::{read_from, Address, AddressError};

#[test]
fn domain_name_encoding() {
    let addr = Address::DomainName { host: b"twitter.com".to_vec(), port: 443 };
    let mut expected = vec![3u8, 11];
    expected.extend_from_slice(b"twitter.com");
    expected.extend_from_slice(&[1, 187]);
    assert_eq!(addr.to_bytes(), expected);
    assert_eq!(addr.serialized_len(), 15);
}

#[test]
fn ipv4_encoding_and_read_back() {
    let addr = Address::Ipv4 { octets: vec![119, 29, 29, 29], port: 80 };
    let mut bytes = addr.to_bytes();
    assert_eq!(bytes, vec![1, 119, 29, 29, 29, 0, 80]);
    bytes.extend_from_slice(b"payload");
    match read_from(&bytes) {
        Ok((Address::Ipv4 { octets, port }, n)) => {
            assert_eq!(octets, vec![119, 29, 29, 29]);
            assert_eq!(port, 80);
            assert_eq!(n, 7);
        }
        _ => panic!("address should read back"),
    }
}

#[test]
fn ipv6_and_domain_read_back() {
    let v6 = Address::Ipv6 { octets: (1..=16).collect(), port: 8388 };
    let bytes = v6.to_bytes();
    assert_eq!(bytes.len(), 19);
    let (back, n) = read_from(&bytes).unwrap();
    assert_eq!(n, 19);
    assert_eq!(back.to_bytes(), bytes);

    let name = Address::DomainName { host: b"sdf".to_vec(), port: 112 };
    let bytes = name.to_bytes();
    let (back, n) = read_from(&bytes).unwrap();
    assert_eq!(n, 7);
    assert!(matches!(back, Address::DomainName { ref host, port: 112 } if host == b"sdf"));
}

#[test]
fn address_errors() {
    assert_eq!(read_from(&[]).unwrap_err(), AddressError::Incomplete);
    assert_eq!(read_from(&[3]).unwrap_err(), AddressError::Incomplete);
    assert_eq!(read_from(&[1, 127, 0, 0, 1, 0]).unwrap_err(), AddressError::Incomplete);
    assert_eq!(read_from(&[3, 5, b'a', b'b']).unwrap_err(), AddressError::Incomplete);
    assert_eq!(read_from(&[9, 1, 2]).unwrap_err(), AddressError::UnknownType(9));
}

#[test]
fn validity_of_addresses() {
    assert!(Address::Ipv4 { octets: vec![1, 2, 3, 4], port: 1 }.is_valid());
    assert!(!Address::Ipv4 { octets: vec![1, 2, 3], port: 1 }.is_valid());
    assert!(!Address::Ipv6 { octets: vec![0; 4], port: 1 }.is_valid());
    assert!(!Address::DomainName { host: vec![b'a'; 256], port: 1 }.is_valid());
    assert!(Address::DomainName { host: vec![b'a'; 255], port: 1 }.is_valid());
}
