use comm::address::{Address, MalformedIdentifier};
use std::cmp::Ordering;

fn addr(s: &str) -> Address {
    Address::from_str(s).unwrap()
}

#[test]
fn test_for_content() {
    let address = Address::for_content("some string");
    assert_eq!(address.to_str(), "8b45e4bd1c6acb88bebf6407d16205f567e62a3e");
}

#[test]
fn test_from_str() {
    let address = Address::from_str("8b45e4bd1c6acb88bebf6407d16205f567e62a3e").unwrap();
    assert_eq!(address.to_str(), "8b45e4bd1c6acb88bebf6407d16205f567e62a3e");
}

#[test]
fn test_equal() {
    let a = Address::from_str("8b45e4bd1c6acb88bebf6407d16205f567e62a3e").unwrap();
    let b = Address::from_str("8b45e4bd1c6acb88bebf6407d16205f567e62a3e").unwrap();
    assert_eq!(a, b);
}

#[test]
fn test_not_equal() {
    let a = Address::from_str("8b45e4bd1c6acb88bebf6407d16205f567e62a3e").unwrap();
    let b = Address::from_str("8b45e4bd1c6acb88bebf6407d16205f567e62a3f").unwrap();
    assert!(a != b);
}

#[test]
fn for_content_differs_between_contents() {
    let a = Address::for_content("alpha");
    let b = Address::for_content("beta");
    assert!(a != b);
    assert_eq!(a, Address::for_content("alpha"));
}

#[test]
fn for_content_of_empty_string() {
    let a = Address::for_content("");
    assert_eq!(a.to_str(), "da39a3ee5e6b4b0d3255bfef95601890afd80709");
}

#[test]
fn from_str_bytes_are_big_endian_pairs() {
    let a = addr("0102030405060708090a0b0c0d0e0f10111213ff");
    assert_eq!(a.data[0], 1);
    assert_eq!(a.data[9], 10);
    assert_eq!(a.data[19], 255);
}

#[test]
fn from_str_rejects_short_input() {
    assert_eq!(Address::from_str("8b45e4bd"), Err(MalformedIdentifier));
    assert_eq!(Address::from_str(""), Err(MalformedIdentifier));
}

#[test]
fn from_str_rejects_long_input() {
    let s = "8b45e4bd1c6acb88bebf6407d16205f567e62a3e00";
    assert_eq!(Address::from_str(s), Err(MalformedIdentifier));
}

#[test]
fn from_str_rejects_non_hex_digits() {
    let s = "8b45e4bd1c6acb88bebf6407d16205f567e62a3g";
    assert_eq!(Address::from_str(s), Err(MalformedIdentifier));
    let spaced = "8b45e4bd1c6acb88bebf6407d16205f567e62a 3";
    assert_eq!(Address::from_str(spaced), Err(MalformedIdentifier));
}

#[test]
fn round_trip_normalizes_case() {
    let a = addr("8B45E4BD1C6ACB88BEBF6407D16205F567E62A3E");
    assert_eq!(a.to_str(), "8b45e4bd1c6acb88bebf6407d16205f567e62a3e");
    assert_eq!(addr(&a.to_str()), a);
}

#[test]
fn null_is_all_zero() {
    assert_eq!(Address::null().to_str(), "0000000000000000000000000000000000000000");
}

#[test]
fn bits_count_from_the_most_significant() {
    let a = addr("8000000000000000000000000000000000000001");
    assert_eq!(a.bit(0), 1);
    assert_eq!(a.bit(1), 0);
    assert_eq!(a.bit(158), 0);
    assert_eq!(a.bit(159), 1);
}

#[test]
fn distance_is_xor() {
    let a = addr("ff00000000000000000000000000000000000001");
    let b = addr("0f00000000000000000000000000000000000003");
    let d = a.distance_from(&b);
    assert_eq!(d[0], 0xf0);
    assert_eq!(d[19], 0x02);
    assert_eq!(a.distance_from(&a), [0u8; 20]);
    assert_eq!(a.distance_from(&b), b.distance_from(&a));
}

#[test]
fn distances_compare_as_big_endian_integers() {
    let target = addr("0000000000000000000000000000000000000000");
    let near = addr("00ffffffffffffffffffffffffffffffffffffff");
    let far = addr("0100000000000000000000000000000000000000");
    assert_eq!(target.compare_distances(&near, &far), Ordering::Less);
    assert_eq!(target.compare_distances(&far, &near), Ordering::Greater);
    assert_eq!(target.compare_distances(&far, &far), Ordering::Equal);
    assert_eq!(far.compare_distances(&far, &near), Ordering::Less);
}
