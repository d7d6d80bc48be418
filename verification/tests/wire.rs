use p2pspider::wire::{
    frame, new, random_peer_id, FetchError, Wire, WireAction, WireEvent, WireState,
};

fn sha1(data: &[u8]) -> Vec<u8> {
    let mut h = sha1::Sha1::new();
    h.update(data);
    h.digest().bytes().to_vec()
}

fn metadata() -> Vec<u8> {
    (0..32768u32).map(|i| b'a' + (i % 4) as u8).collect()
}

fn peer_handshake(info_hash: &[u8]) -> Vec<u8> {
    let mut h = vec![19u8];
    h.extend_from_slice(b"BitTorrent protocol");
    h.extend_from_slice(&[0, 0, 0, 0, 0, 0x10, 0, 0]);
    h.extend_from_slice(info_hash);
    h.extend_from_slice(b"-XX0001-abcdefghijkl");
    h
}

fn ext_handshake_message(size: i64, ut: i64) -> Vec<u8> {
    let mut m = vec![20u8, 0];
    m.extend_from_slice(format!("d1:md11:ut_metadatai{}ee13:metadata_sizei{}ee", ut, size).as_bytes());
    m
}

fn piece_message(index: usize, data: &[u8]) -> Vec<u8> {
    let mut m = vec![20u8, 1];
    m.extend_from_slice(format!("d8:msg_typei1e5:piecei{}e10:total_sizei32768ee", index).as_bytes());
    m.extend_from_slice(data);
    m
}

fn request(ut: u8, index: usize) -> Vec<u8> {
    let body = format!("d8:msg_typei0e5:piecei{}ee", index);
    let mut m = vec![0, 0, 0, (body.len() + 2) as u8, 20, ut];
    m.extend_from_slice(body.as_bytes());
    m
}

fn sent(action: WireAction) -> Vec<u8> {
    match action {
        WireAction::SendThenReadMessage(bytes) => bytes,
        _ => panic!("the session did not go on"),
    }
}

fn failed(action: WireAction) -> FetchError {
    match action {
        WireAction::Fail(e) => e,
        _ => panic!("the session did not fail"),
    }
}

fn shaken(info_hash: &[u8]) -> Wire {
    let mut w = new(info_hash.to_vec(), "127.0.0.1:9000".to_string());
    assert!(matches!(w.fetch(WireEvent::Connected), WireAction::SendThenReadHandshake(_)));
    sent(w.fetch(WireEvent::Handshake(peer_handshake(info_hash))));
    w
}

#[test]
fn new_session_waits_for_the_connection() {
    let w = new(vec![7; 20], "10.0.0.1:6881".to_string());
    assert_eq!(w.state(), WireState::Connecting);
    assert_eq!(w.peer(), "10.0.0.1:6881");
    assert_eq!(w.timeout_sec(), 5);
    let mut w = w;
    w.set_timeout_sec(9);
    assert_eq!(w.timeout_sec(), 9);
    assert_eq!(w.state(), WireState::Connecting);
    assert_eq!(w.num_of_pieces(), 0);
    assert!(w.is_done());
    assert!(w.assemble().is_empty());
}

#[test]
fn handshake_is_sixty_eight_bytes() {
    let mut w = new(vec![7; 20], "10.0.0.1:6881".to_string());
    assert_eq!(
        w.pre_header(),
        b"\x13BitTorrent protocol\x00\x00\x00\x00\x00\x10\x00\x01".to_vec()
    );
    let h = w.handshake();
    assert_eq!(h.len(), 68);
    assert_eq!(&h[..28], &w.pre_header()[..]);
    assert_eq!(&h[28..48], &[7u8; 20]);
    assert!(h[48..].iter().all(|b| b.is_ascii_hexdigit()));
    match w.fetch(WireEvent::Connected) {
        WireAction::SendThenReadHandshake(bytes) => assert_eq!(bytes, h),
        _ => panic!("no handshake"),
    }
    assert_eq!(w.state(), WireState::Handshaking);
}

#[test]
fn peer_handshake_is_checked() {
    let w = new(vec![7; 20], "p".to_string());
    let good = peer_handshake(&[7; 20]);
    assert_eq!(w.on_handshake(&good), Ok(()));
    assert_eq!(w.on_handshake(&good[..67]), Err(FetchError::Handshake));
    assert_eq!(w.on_handshake(&[]), Err(FetchError::Handshake));
    let mut other_protocol = good.clone();
    other_protocol[5] = b'x';
    assert_eq!(w.on_handshake(&other_protocol), Err(FetchError::Handshake));
    let mut no_extensions = good.clone();
    no_extensions[25] = 0x0f;
    assert_eq!(w.on_handshake(&no_extensions), Err(FetchError::Handshake));
    let mut other_torrent = good.clone();
    other_torrent[47] = 8;
    assert_eq!(w.on_handshake(&other_torrent), Err(FetchError::Handshake));
    let mut other_reserved = good.clone();
    other_reserved[20] = 0xff;
    other_reserved[25] = 0xff;
    other_reserved[27] = 0xff;
    assert_eq!(w.on_handshake(&other_reserved), Ok(()));
    let mut longer = good.clone();
    longer.push(0);
    assert_eq!(w.on_handshake(&longer), Ok(()));
}

#[test]
fn bad_handshake_fails_the_session() {
    let mut w = new(vec![7; 20], "p".to_string());
    w.fetch(WireEvent::Connected);
    assert_eq!(
        failed(w.fetch(WireEvent::Handshake(peer_handshake(&[8; 20])))),
        FetchError::Handshake
    );
    assert_eq!(w.state(), WireState::Failed);
    assert_eq!(failed(w.fetch(WireEvent::Connected)), FetchError::OutOfTurn);
    assert_eq!(w.state(), WireState::Failed);
}

#[test]
fn extended_handshake_is_framed() {
    let w = new(vec![7; 20], "p".to_string());
    let mut expected = vec![0u8, 0, 0, 26, 20, 0];
    expected.extend_from_slice(b"d1:md11:ut_metadatai1eee");
    assert_eq!(w.ext_handshake(), expected);
    let mut s = new(vec![7; 20], "p".to_string());
    s.fetch(WireEvent::Connected);
    assert_eq!(sent(s.fetch(WireEvent::Handshake(peer_handshake(&[7; 20])))), expected);
    assert_eq!(s.state(), WireState::ExtHandshaking);
}

#[test]
fn frames_carry_their_length() {
    assert_eq!(frame(&[]), Some(vec![0, 0, 0, 0]));
    assert_eq!(frame(&[9, 8, 7]), Some(vec![0, 0, 0, 3, 9, 8, 7]));
    let big = vec![1u8; 0x01_02_03];
    let framed = frame(&big).unwrap();
    assert_eq!(&framed[..4], &[0, 1, 2, 3]);
    assert_eq!(framed.len(), big.len() + 4);
    let w = new(vec![7; 20], "p".to_string());
    assert_eq!(w.next(&[0, 0, 0, 0]), 0);
    assert_eq!(w.next(&[0, 1, 2, 3]), 0x01_02_03);
    assert_eq!(w.next(&[0xff, 0xff, 0xff, 0xff]), u32::MAX);
    assert_eq!(w.next(&[0x12, 0x34, 0x56, 0x78]), 0x1234_5678);
}

#[test]
fn ut_metadata_round_trip() {
    let meta = metadata();
    let info_hash = sha1(&meta);
    let mut w = shaken(&info_hash);
    let requests = sent(w.fetch(WireEvent::Message(ext_handshake_message(32768, 3))));
    let mut expected = request(3, 0);
    expected.extend(request(3, 1));
    assert_eq!(requests, expected);
    assert_eq!(w.state(), WireState::Fetching);
    assert_eq!(w.num_of_pieces(), 2);
    assert!(!w.is_done());
    let more = sent(w.fetch(WireEvent::Message(piece_message(1, &meta[16384..]))));
    assert!(more.is_empty());
    assert!(!w.is_done());
    match w.fetch(WireEvent::Message(piece_message(0, &meta[..16384]))) {
        WireAction::Deliver(blob) => {
            assert_eq!(blob.len(), 32768);
            assert_eq!(blob, meta);
        }
        _ => panic!("nothing delivered"),
    }
    assert_eq!(w.state(), WireState::Done);
    assert_eq!(failed(w.fetch(WireEvent::Message(vec![]))), FetchError::OutOfTurn);
    assert_eq!(w.state(), WireState::Done);
}

#[test]
fn checksum_failure() {
    let meta = metadata();
    let info_hash = sha1(&meta);
    let mut flipped = meta.clone();
    flipped[20000] ^= 1;
    let mut w = shaken(&info_hash);
    sent(w.fetch(WireEvent::Message(ext_handshake_message(32768, 3))));
    sent(w.fetch(WireEvent::Message(piece_message(0, &flipped[..16384]))));
    assert_eq!(
        failed(w.fetch(WireEvent::Message(piece_message(1, &flipped[16384..])))),
        FetchError::Checksum
    );
    assert_eq!(w.state(), WireState::Failed);
}

#[test]
fn last_piece_holds_what_is_left() {
    let meta: Vec<u8> = metadata()[..20000].to_vec();
    let info_hash = sha1(&meta);
    let mut w = shaken(&info_hash);
    let requests = sent(w.fetch(WireEvent::Message(ext_handshake_message(20000, 200))));
    let mut expected = request(200, 0);
    expected.extend(request(200, 1));
    assert_eq!(requests, expected);
    let too_long = piece_message(1, &metadata()[..16384]);
    assert_eq!(w.on_piece(&too_long[2..]), Err(FetchError::InvalidPiece));
    assert_eq!(
        w.on_piece(&piece_message(1, &meta[16384..])[2..]),
        Ok(Some((meta[16384..].to_vec(), 1)))
    );
    sent(w.fetch(WireEvent::Message(piece_message(0, &meta[..16384]))));
    match w.fetch(WireEvent::Message(piece_message(1, &meta[16384..]))) {
        WireAction::Deliver(blob) => assert_eq!(blob, meta),
        _ => panic!("nothing delivered"),
    }
}

#[test]
fn extension_id_is_cut_to_a_byte() {
    let mut w = shaken(&[7; 20]);
    let requests = sent(w.fetch(WireEvent::Message(ext_handshake_message(1, 259))));
    assert_eq!(requests, request(3, 0));
    assert_eq!(w.request_pieces(5), request(3, 5));
}

#[test]
fn extended_handshake_errors() {
    let mut w = shaken(&[7; 20]);
    assert_eq!(
        w.on_ext_handshake(b"d1:md11:ut_metadatai3ee13:metadata_sizei16777217ee"),
        Err(FetchError::MetadataTooLarge)
    );
    assert_eq!(
        w.on_ext_handshake(b"d1:md11:ut_metadatai3eee"),
        Err(FetchError::ExtHandshake)
    );
    assert_eq!(
        w.on_ext_handshake(b"d13:metadata_sizei100ee"),
        Err(FetchError::ExtHandshake)
    );
    assert_eq!(
        w.on_ext_handshake(b"d1:mde13:metadata_sizei100ee"),
        Err(FetchError::ExtHandshake)
    );
    assert_eq!(
        w.on_ext_handshake(b"d1:md11:ut_metadatai3ee13:metadata_sizei-1ee"),
        Err(FetchError::ExtHandshake)
    );
    assert_eq!(
        w.on_ext_handshake(b"d1:md11:ut_metadatai3ee13:metadata_size3:100e"),
        Err(FetchError::ExtHandshake)
    );
    assert_eq!(w.on_ext_handshake(b"d1:md11:ut_metadata"), Err(FetchError::ExtHandshake));
    assert_eq!(w.on_ext_handshake(b"i1e"), Err(FetchError::ExtHandshake));
    assert_eq!(w.state(), WireState::ExtHandshaking);
    assert_eq!(w.num_of_pieces(), 0);
    let largest = w
        .on_ext_handshake(b"d1:md11:ut_metadatai3ee13:metadata_sizei16777216ee")
        .unwrap();
    assert_eq!(w.num_of_pieces(), 1024);
    assert_eq!(&largest[..request(3, 0).len()], &request(3, 0)[..]);
    assert_eq!(
        failed(w.fetch(WireEvent::Message(ext_handshake_message(16777217, 3)))),
        FetchError::MetadataTooLarge
    );
    assert_eq!(w.state(), WireState::Failed);
}

#[test]
fn piece_errors() {
    let meta = metadata();
    let mut w = shaken(&sha1(&meta));
    assert_eq!(
        w.on_piece(&piece_message(0, &meta[..16384])[2..]),
        Err(FetchError::InvalidPiece)
    );
    sent(w.fetch(WireEvent::Message(ext_handshake_message(32768, 3))));
    let data = &meta[..16384];
    assert_eq!(w.on_piece(&piece_message(0, data)[2..]), Ok(Some((data.to_vec(), 0))));
    assert_eq!(w.on_piece(&piece_message(2, data)[2..]), Err(FetchError::InvalidPiece));
    assert_eq!(w.on_piece(&piece_message(0, &data[1..])[2..]), Err(FetchError::InvalidPiece));
    assert_eq!(w.on_piece(b"no header here"), Err(FetchError::InvalidPiece));
    assert_eq!(w.on_piece(b""), Err(FetchError::InvalidPiece));
    assert_eq!(w.on_piece(b"e"), Err(FetchError::InvalidPiece));
    let mut request = b"d8:msg_typei0e5:piecei0ee".to_vec();
    request.extend_from_slice(data);
    assert_eq!(w.on_piece(&request), Err(FetchError::InvalidPiece));
    let mut unknown = b"d8:msg_typei3e5:piecei0ee".to_vec();
    unknown.extend_from_slice(data);
    assert_eq!(w.on_piece(&unknown), Err(FetchError::InvalidPiece));
    let mut negative = b"d8:msg_typei1e5:piecei-1ee".to_vec();
    negative.extend_from_slice(data);
    assert_eq!(w.on_piece(&negative), Err(FetchError::InvalidPiece));
    let mut no_index = b"d8:msg_typei1ee".to_vec();
    no_index.extend_from_slice(data);
    assert_eq!(w.on_piece(&no_index), Err(FetchError::InvalidPiece));
    let mut no_dict = b"li1ee".to_vec();
    no_dict.extend_from_slice(data);
    assert_eq!(w.on_piece(&no_dict), Err(FetchError::InvalidPiece));
    let mut split_late = piece_message(0, &data[..16382])[2..].to_vec();
    split_late.extend_from_slice(b"ee");
    assert_eq!(w.on_piece(&split_late), Err(FetchError::InvalidPiece));
    assert_eq!(
        failed(w.fetch(WireEvent::Message(piece_message(9, data)))),
        FetchError::InvalidPiece
    );
    assert_eq!(w.state(), WireState::Failed);
}

#[test]
fn refusals_are_passed_over() {
    let meta = metadata();
    let mut w = shaken(&sha1(&meta));
    let mut early = vec![20u8, 1];
    early.extend_from_slice(b"d8:msg_typei2e5:piecei0ee");
    assert!(sent(w.fetch(WireEvent::Message(early.clone()))).is_empty());
    assert_eq!(w.state(), WireState::ExtHandshaking);
    sent(w.fetch(WireEvent::Message(ext_handshake_message(32768, 3))));
    assert_eq!(w.on_piece(b"d8:msg_typei2e5:piecei0ee"), Ok(None));
    assert_eq!(w.on_piece(b"d8:msg_typei2e5:piecei77ee"), Ok(None));
    assert_eq!(w.on_piece(b"d8:msg_typei2ee"), Ok(None));
    assert!(sent(w.fetch(WireEvent::Message(early))).is_empty());
    assert_eq!(w.state(), WireState::Fetching);
    assert!(!w.is_done());
    sent(w.fetch(WireEvent::Message(piece_message(0, &meta[..16384]))));
    assert!(matches!(
        w.fetch(WireEvent::Message(piece_message(1, &meta[16384..]))),
        WireAction::Deliver(_)
    ));
}

#[test]
fn other_messages_are_passed_over() {
    let mut w = shaken(&[7; 20]);
    assert!(sent(w.fetch(WireEvent::Message(vec![]))).is_empty());
    assert!(sent(w.fetch(WireEvent::Message(vec![20]))).is_empty());
    assert!(sent(w.fetch(WireEvent::Message(vec![5, 0xff, 0xff]))).is_empty());
    assert!(sent(w.fetch(WireEvent::Message(vec![1]))).is_empty());
    assert_eq!(w.state(), WireState::ExtHandshaking);
}

#[test]
fn events_out_of_turn_fail_the_session() {
    let mut w = new(vec![7; 20], "p".to_string());
    assert_eq!(failed(w.fetch(WireEvent::Message(vec![20, 0]))), FetchError::OutOfTurn);
    assert_eq!(w.state(), WireState::Failed);
    let mut w = new(vec![7; 20], "p".to_string());
    assert_eq!(failed(w.fetch(WireEvent::Handshake(vec![]))), FetchError::OutOfTurn);
    let mut w = shaken(&[7; 20]);
    assert_eq!(failed(w.fetch(WireEvent::Connected)), FetchError::OutOfTurn);
    let mut w = new(vec![7; 20], "p".to_string());
    assert_eq!(failed(w.fetch(WireEvent::Broken)), FetchError::Io);
    assert_eq!(w.state(), WireState::Failed);
    let mut w = shaken(&[7; 20]);
    assert_eq!(failed(w.fetch(WireEvent::Broken)), FetchError::Io);
    assert_eq!(failed(w.fetch(WireEvent::Broken)), FetchError::OutOfTurn);
}

#[test]
fn empty_metadata_is_held_against_the_info_hash() {
    let mut w = shaken(&[7; 20]);
    assert_eq!(
        failed(w.fetch(WireEvent::Message(ext_handshake_message(0, 3)))),
        FetchError::Checksum
    );
    let mut w = shaken(&sha1(b""));
    match w.fetch(WireEvent::Message(ext_handshake_message(0, 3))) {
        WireAction::Deliver(blob) => assert!(blob.is_empty()),
        _ => panic!("nothing delivered"),
    }
}

#[test]
fn second_extended_handshake_starts_over() {
    let meta = metadata();
    let mut w = shaken(&sha1(&meta));
    sent(w.fetch(WireEvent::Message(ext_handshake_message(32768, 3))));
    sent(w.fetch(WireEvent::Message(piece_message(0, &meta[..16384]))));
    let again = sent(w.fetch(WireEvent::Message(ext_handshake_message(32768, 4))));
    let mut expected = request(4, 0);
    expected.extend(request(4, 1));
    assert_eq!(again, expected);
    assert!(sent(w.fetch(WireEvent::Message(piece_message(1, &meta[16384..])))).is_empty());
    assert!(!w.is_done());
}

#[test]
fn peer_ids_are_fresh() {
    let a = random_peer_id();
    assert_eq!(a.len(), 20);
    assert!(a.chars().all(|c| c.is_ascii_digit() || ('a'..='f').contains(&c)));
}
