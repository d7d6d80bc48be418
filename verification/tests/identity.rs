use p2pspider::bytes::{copy_range, lit, same_bytes};
use p2pspider::decimal::push_decimal;
use p2pspider::hexfmt::hex;
use p2pspider::ident::{neighbour_id, rand_bytes, random_peer_id};

#[test]
fn hex_is_lowercase_two_per_byte() {
    assert_eq!(hex(vec![0x00, 0x0f, 0xa5, 0xff]), "000fa5ff");
    assert_eq!(hex(vec![]), "");
}

#[test]
fn hex_of_concatenation() {
    let x = vec![1u8, 2, 0xab];
    let y = vec![0xcdu8, 0];
    let mut xy = x.clone();
    xy.extend_from_slice(&y);
    assert_eq!(format!("{}{}", hex(x.clone()), hex(y)), hex(xy));
    assert_eq!(hex(x.clone()).len(), 2 * x.len());
}

#[test]
fn neighbour_takes_ten_bytes_of_each() {
    let target: Vec<u8> = (0u8..20).collect();
    let local: Vec<u8> = (100u8..120).collect();
    let forged = neighbour_id(target.clone(), &local);
    assert_eq!(forged.len(), 20);
    assert_eq!(&forged[..10], &target[..10]);
    assert_eq!(&forged[10..], &local[..10]);
}

#[test]
fn rand_bytes_has_requested_length() {
    assert_eq!(rand_bytes(20).len(), 20);
    assert_eq!(rand_bytes(2).len(), 2);
    assert_eq!(rand_bytes(0).len(), 0);
    assert_eq!(rand_bytes(-3).len(), 0);
}

#[test]
fn peer_id_is_twenty_hex_characters() {
    let id = random_peer_id();
    assert_eq!(id.len(), 20);
    assert!(id.bytes().all(|b| b.is_ascii_digit() || (b'a'..=b'f').contains(&b)));
}

#[test]
fn byte_helpers() {
    assert_eq!(lit("find_node"), b"find_node");
    assert_eq!(lit(""), b"");
    assert!(same_bytes(b"abc", b"abc"));
    assert!(same_bytes(b"", b""));
    assert!(!same_bytes(b"abc", b"abd"));
    assert!(!same_bytes(b"abc", b"ab"));
    assert!(!same_bytes(b"ab", b"abc"));
    assert_eq!(copy_range(b"0123456789", 2, 5), b"234".to_vec());
    assert_eq!(copy_range(b"0123456789", 10, 10), Vec::<u8>::new());
    assert_eq!(copy_range(b"0123456789", 0, 10), b"0123456789".to_vec());
}

#[test]
fn decimal_numbers_have_no_leading_zeros() {
    let mut text = String::from("n=");
    push_decimal(&mut text, 0);
    text.push(',');
    push_decimal(&mut text, 7);
    text.push(',');
    push_decimal(&mut text, 10);
    text.push(',');
    push_decimal(&mut text, 6881);
    text.push(',');
    push_decimal(&mut text, 65535);
    assert_eq!(text, "n=0,7,10,6881,65535");
}
