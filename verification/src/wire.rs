//! The metadata exchange with one peer.
//!
//! A session walks through the BitTorrent handshake, the extended handshake
//! and the transfer of the metadata pieces. It owns no connection: the
//! caller reads and writes, tells the session what happened, and is told
//! what to do next.

use crate::bencoding::{
    as_number, decode, decoded, dict_get, dict_with, empty_dict, encoded, entry, number, to_bytes,
    BenValue,
};
use crate::bytes::{ascii, copy_range, lit, same_bytes};
use crate::digest::{sha1, sha1_digest};
use crate::endian::{be32, read_u32_be, u32_be};
use crate::hexfmt::{hex_spec, lemma_hex_is_ascii};
use crate::ident::ID_LEN;
use vstd::prelude::*;
use vstd::slice::{slice_subrange, slice_to_vec};
use vstd::string::*;
use vstd::utf8::is_ascii_chars;

pub use crate::ident::random_peer_id;

verus! {

/// The length of every metadata piece but the last.
pub const PER_BLOCK: usize = 16384;

/// The largest metadata that is fetched.
pub const MAX_META_DATA_SIZE: usize = 16777216;

/// The id of the messages of the extension protocol.
pub const EXTENDED: u8 = 20;

/// The extended message id of the extended handshake.
pub const EXT_HANDSHAKE: u8 = 0;

/// The extended message type of a request for a piece.
pub const MSG_REQUEST: i64 = 0;

/// The extended message type of a piece of data.
pub const MSG_DATA: i64 = 1;

/// The extended message type of a peer's refusal to send a piece.
pub const MSG_REJECT: i64 = 2;

/// The length of the BitTorrent handshake.
pub const HANDSHAKE_LEN: usize = 68;

/// How many seconds a read may take unless the caller says otherwise.
pub const DEFAULT_TIMEOUT_SEC: i32 = 5;

/// Why a session failed.
#[derive(Clone, Copy, Debug, PartialEq, Eq)]
pub enum FetchError {
    /// The peer's handshake is short, speaks another protocol, lacks the
    /// extension protocol, or names another torrent.
    Handshake,
    /// The extended handshake does not decode or lacks a field.
    ExtHandshake,
    /// The peer claims more metadata than is fetched.
    MetadataTooLarge,
    /// A piece message has no header, a bad index or the wrong length.
    InvalidPiece,
    /// The assembled metadata does not hash to the info-hash.
    Checksum,
    /// Connecting, reading or writing failed or timed out.
    Io,
    /// The caller reported something that cannot happen in this state.
    OutOfTurn,
}

/// Where a session stands.
#[derive(Clone, Copy, Debug, PartialEq, Eq)]
pub enum WireState {
    Connecting,
    Handshaking,
    ExtHandshaking,
    Fetching,
    Done,
    Failed,
}

/// How many pieces metadata of `size` bytes has.
pub open spec fn piece_count(size: nat) -> nat {
    (size + 16383) / 16384
}

/// How long the piece with index `i` of metadata of `size` bytes is: 16384
/// bytes, but for the last piece, which holds what is left.
pub open spec fn piece_len(size: nat, i: int) -> int {
    if i + 1 < piece_count(size) {
        16384
    } else {
        size - 16384 * i
    }
}

/// The pieces one after another.
pub open spec fn concat_all(pieces: Seq<Seq<u8>>) -> Seq<u8>
    decreases pieces.len(),
{
    if pieces.len() == 0 {
        Seq::empty()
    } else {
        concat_all(pieces.drop_last()) + pieces.last()
    }
}

/// Whether every piece is there. A piece that is not there is empty.
pub open spec fn all_there(pieces: Seq<Seq<u8>>) -> bool {
    forall|i: int| 0 <= i < pieces.len() ==> (#[trigger] pieces[i]).len() > 0
}

/// Whether `pieces` are slots for metadata of `size` bytes: one for each
/// piece, empty or of the piece's length.
pub open spec fn slots_for(pieces: Seq<Seq<u8>>, size: nat) -> bool {
    &&& pieces.len() == piece_count(size)
    &&& forall|i: int|
        0 <= i < pieces.len() ==> (#[trigger] pieces[i]).len() == 0 || pieces[i].len()
            == piece_len(size, i)
}

/// The first `k` pieces of a full set are 16384 bytes each, and all of them
/// together are as long as the metadata.
pub proof fn lemma_concat_len(pieces: Seq<Seq<u8>>, size: nat, k: int)
    requires
        slots_for(pieces, size),
        all_there(pieces),
        0 <= k <= pieces.len(),
    ensures
        k < pieces.len() ==> concat_all(pieces.take(k)).len() == 16384 * k,
        k == pieces.len() ==> concat_all(pieces.take(k)).len() == size,
    decreases k,
{
    if k == 0 {
        assert(pieces.take(0) =~= Seq::<Seq<u8>>::empty());
    } else {
        lemma_concat_len(pieces, size, k - 1);
        assert(pieces.take(k).drop_last() =~= pieces.take(k - 1));
        assert(pieces.take(k).last() == pieces[k - 1]);
        assert(pieces[k - 1].len() > 0);
        assert(pieces[k - 1].len() == piece_len(size, k - 1));
    }
}

/// The fixed start of the handshake: the length of the protocol's name, the
/// name, and the eight reserved bytes, which advertise the extension
/// protocol.
pub open spec fn pre_header_spec() -> Seq<u8> {
    seq![19u8] + ascii("BitTorrent protocol"@) + seq![0u8, 0u8, 0u8, 0u8, 0u8, 0x10u8, 0u8, 0x01u8]
}

/// The handshake that is sent.
pub open spec fn handshake_spec(info_hash: Seq<u8>, peer_id: Seq<char>) -> Seq<u8> {
    pre_header_spec() + info_hash + ascii(peer_id)
}

/// Whether a peer's handshake is accepted: it is complete, starts like
/// ours, advertises the extension protocol and names our torrent.
pub open spec fn handshake_ok(resp: Seq<u8>, info_hash: Seq<u8>) -> bool {
    &&& resp.len() >= HANDSHAKE_LEN
    &&& resp.subrange(0, 20) == pre_header_spec().subrange(0, 20)
    &&& resp[25] & 0x10 == 0x10
    &&& resp.subrange(28, 48) == info_hash
}

/// A message with its length in front, where the length fits four bytes.
pub open spec fn frame_spec(payload: Seq<u8>) -> Option<Seq<u8>> {
    if payload.len() <= u32::MAX {
        Some(be32(payload.len() as u32) + payload)
    } else {
        None
    }
}

/// Puts the length of a message in front of it.
pub fn frame(payload: &[u8]) -> (out: Option<Vec<u8>>)
    ensures
        match out {
            Some(bytes) => frame_spec(payload@) == Some(bytes@),
            None => frame_spec(payload@) is None,
        },
{
    if payload.len() > 0xffff_ffff {
        return None;
    }
    let prefix = u32_be(payload.len() as u32);
    let mut out: Vec<u8> = Vec::new();
    out.push(prefix[0]);
    out.push(prefix[1]);
    out.push(prefix[2]);
    out.push(prefix[3]);
    let mut body = slice_to_vec(payload);
    out.append(&mut body);
    assert(out@ =~= be32(payload@.len() as u32) + payload@);
    Some(out)
}

/// A message with its length in front; nothing where the length does not
/// fit four bytes.
pub open spec fn framed(payload: Seq<u8>) -> Seq<u8> {
    match frame_spec(payload) {
        Some(bytes) => bytes,
        None => Seq::empty(),
    }
}

/// The body of the extended handshake that is sent: it names `ut_metadata`
/// with the id 1.
pub open spec fn ext_handshake_value() -> BenValue {
    BenValue::Dict(
        map![
            ascii("m"@) => BenValue::Dict(map![ascii("ut_metadata"@) => BenValue::Number(1)]),
        ],
    )
}

/// The extended handshake message, framed.
pub open spec fn ext_handshake_spec() -> Seq<u8> {
    framed(seq![EXTENDED, EXT_HANDSHAKE] + encoded(ext_handshake_value()))
}

/// The body of the request for the piece with index `i`.
pub open spec fn request_value(i: i64) -> BenValue {
    BenValue::Dict(
        map![
            ascii("msg_type"@) => BenValue::Number(MSG_REQUEST),
            ascii("piece"@) => BenValue::Number(i),
        ],
    )
}

/// The request for the piece with index `i`, framed, under the extension
/// id `ut` that the peer gave to `ut_metadata`.
pub open spec fn request_spec(ut: i64, i: int) -> Seq<u8> {
    framed(seq![EXTENDED, ut as u8] + encoded(request_value(i as i64)))
}

/// The requests for the first `n` pieces, in order.
pub open spec fn requests_spec(ut: i64, n: nat) -> Seq<u8>
    decreases n,
{
    if n == 0 {
        Seq::empty()
    } else {
        requests_spec(ut, (n - 1) as nat) + request_spec(ut, n - 1)
    }
}

/// Whether the bytes at `i` and `i + 1` are both `e`.
pub open spec fn is_ee(p: Seq<u8>, i: int) -> bool {
    0 <= i && i + 1 < p.len() && p[i] == 101 && p[i + 1] == 101
}

/// The last index below `n` at which two `e` stand.
pub open spec fn last_ee_below(p: Seq<u8>, n: int) -> Option<int>
    decreases n,
{
    if n <= 0 {
        None
    } else if is_ee(p, n - 1) {
        Some(n - 1)
    } else {
        last_ee_below(p, n - 1)
    }
}

/// The last index at which two `e` stand: there the header of a piece
/// message ends.
pub open spec fn last_ee(p: Seq<u8>) -> Option<int> {
    last_ee_below(p, p.len() as int)
}

/// What `last_ee_below` finds is a place where two `e` stand, and no such
/// place lies between it and `n`.
pub proof fn lemma_last_ee(p: Seq<u8>, n: int)
    ensures
        match last_ee_below(p, n) {
            Some(i) => i < n && is_ee(p, i) && forall|j: int| i < j < n ==> !is_ee(p, j),
            None => forall|j: int| j < n ==> !is_ee(p, j),
        },
    decreases n,
{
    if n > 0 && !is_ee(p, n - 1) {
        lemma_last_ee(p, n - 1);
    }
}

/// The size of the metadata and the peer's id for `ut_metadata`, as an
/// extended handshake gives them.
pub open spec fn ext_header_of(payload: Seq<u8>) -> Result<(nat, i64), FetchError> {
    match decoded(payload) {
        None => Err(FetchError::ExtHandshake),
        Some(v) => match entry(v, ascii("metadata_size"@)) {
            Some(BenValue::Number(size)) => if size > MAX_META_DATA_SIZE {
                Err(FetchError::MetadataTooLarge)
            } else if size < 0 {
                Err(FetchError::ExtHandshake)
            } else {
                match entry(v, ascii("m"@)) {
                    Some(m) => match entry(m, ascii("ut_metadata"@)) {
                        Some(BenValue::Number(ut)) => Ok((size as nat, ut)),
                        _ => Err(FetchError::ExtHandshake),
                    },
                    None => Err(FetchError::ExtHandshake),
                }
            },
            _ => Err(FetchError::ExtHandshake),
        },
    }
}

/// The index and the data of a piece message for metadata of `size` bytes;
/// nothing for a refusal, which is passed over. The header ends with the
/// last two `e` of the message and has to decode. Unless it says `msg_type`
/// 2, it has to say `msg_type` 1 and name a `piece` that exists, and what
/// follows the header has to be as long as that piece.
pub open spec fn piece_of(payload: Seq<u8>, size: nat) -> Result<
    Option<(int, Seq<u8>)>,
    FetchError,
> {
    match last_ee(payload) {
        None => Err(FetchError::InvalidPiece),
        Some(i) => {
            let data = payload.subrange(i + 2, payload.len() as int);
            match decoded(payload.subrange(0, i + 2)) {
                None => Err(FetchError::InvalidPiece),
                Some(v) => match (entry(v, ascii("msg_type"@)), entry(v, ascii("piece"@))) {
                    (Some(BenValue::Number(kind)), piece) => if kind == MSG_REJECT {
                        Ok(None)
                    } else {
                        match piece {
                            Some(BenValue::Number(index)) => if kind == MSG_DATA && 0 <= index
                                < piece_count(size) && data.len() == piece_len(
                                size,
                                index as int,
                            ) {
                                Ok(Some((index as int, data)))
                            } else {
                                Err(FetchError::InvalidPiece)
                            },
                            _ => Err(FetchError::InvalidPiece),
                        }
                    },
                    _ => Err(FetchError::InvalidPiece),
                },
            }
        },
    }
}

/// A session with one peer.
pub struct Wire {
    info_hash: Vec<u8>,
    peer_id: String,
    from: String,
    timeout_sec: i32,
    metadata_size: usize,
    ut_metadata: i64,
    pieces: Vec<Vec<u8>>,
    state: WireState,
}

/// What a session holds.
pub struct WireView {
    pub info_hash: Seq<u8>,
    pub peer_id: Seq<char>,
    pub from: Seq<char>,
    pub timeout_sec: i32,
    pub metadata_size: nat,
    pub ut_metadata: i64,
    pub pieces: Seq<Seq<u8>>,
    pub state: WireState,
}

/// Whether a session is in order: the info-hash and the peer id are twenty
/// bytes, the metadata is not too large, and there is a slot for each of
/// its pieces.
pub open spec fn valid(w: WireView) -> bool {
    &&& w.info_hash.len() == ID_LEN
    &&& w.peer_id.len() == ID_LEN
    &&& is_ascii_chars(w.peer_id)
    &&& w.metadata_size <= MAX_META_DATA_SIZE
    &&& slots_for(w.pieces, w.metadata_size)
}

/// What each piece of a list holds.
pub open spec fn piece_views(pieces: Seq<Vec<u8>>) -> Seq<Seq<u8>> {
    Seq::new(pieces.len(), |i: int| pieces[i]@)
}

impl View for Wire {
    type V = WireView;

    closed spec fn view(&self) -> WireView {
        WireView {
            info_hash: self.info_hash@,
            peer_id: self.peer_id@,
            from: self.from@,
            timeout_sec: self.timeout_sec,
            metadata_size: self.metadata_size as nat,
            ut_metadata: self.ut_metadata,
            pieces: piece_views(self.pieces@),
            state: self.state,
        }
    }
}

/// A session for the torrent `info` with the peer at `from`, before the
/// connection stands. It has a fresh peer id and knows nothing of the
/// metadata yet.
pub fn new(info: Vec<u8>, from: String) -> (wire: Wire)
    requires
        info@.len() == ID_LEN,
    ensures
        valid(wire@),
        wire@.info_hash == info@,
        wire@.from == from@,
        wire@.timeout_sec == DEFAULT_TIMEOUT_SEC,
        wire@.metadata_size == 0,
        wire@.ut_metadata == 0,
        wire@.pieces.len() == 0,
        wire@.state == WireState::Connecting,
{
    let peer_id = random_peer_id();
    proof {
        let seed = choose|seed: Seq<u8>| seed.len() == 10 && peer_id@ == #[trigger] hex_spec(seed);
        lemma_hex_is_ascii(seed);
    }
    let wire = Wire {
        info_hash: info,
        peer_id,
        from,
        timeout_sec: DEFAULT_TIMEOUT_SEC,
        metadata_size: 0,
        ut_metadata: 0,
        pieces: Vec::new(),
        state: WireState::Connecting,
    };
    assert(wire@.pieces =~= Seq::<Seq<u8>>::empty());
    wire
}

impl Wire {
    /// Whether the session is in order.
    pub open spec fn wf(&self) -> bool {
        valid(self@)
    }

    /// Where the session stands.
    pub fn state(&self) -> (state: WireState)
        ensures
            state == self@.state,
    {
        self.state
    }

    /// The peer's endpoint.
    pub fn peer(&self) -> (from: &String)
        ensures
            from@ == self@.from,
    {
        &self.from
    }

    /// Sets how many seconds a read may take.
    pub fn set_timeout_sec(&mut self, secs: i32)
        ensures
            final(self)@ == (WireView { timeout_sec: secs, ..old(self)@ }),
    {
        self.timeout_sec = secs;
    }

    /// How many seconds a read may take.
    pub fn timeout_sec(&self) -> (secs: i32)
        ensures
            secs == self@.timeout_sec,
    {
        self.timeout_sec
    }

    /// How many pieces the metadata has.
    pub fn num_of_pieces(&self) -> (n: usize)
        ensures
            n == self@.pieces.len(),
    {
        self.pieces.len()
    }

    /// The fixed start of the handshake.
    pub fn pre_header(&self) -> (r: Vec<u8>)
        ensures
            r@ == pre_header_spec(),
            r@.len() == 28,
    {
        proof {
            reveal_strlit("BitTorrent protocol");
        }
        let mut r: Vec<u8> = Vec::new();
        r.push(19);
        let mut name = slice_to_vec(lit("BitTorrent protocol"));
        r.append(&mut name);
        r.push(0x00);
        r.push(0x00);
        r.push(0x00);
        r.push(0x00);
        r.push(0x00);
        r.push(0x10);
        r.push(0x00);
        r.push(0x01);
        assert(r@ =~= pre_header_spec());
        r
    }

    /// The handshake to send: the fixed start, the info-hash and the peer
    /// id, 68 bytes in all.
    pub fn handshake(&self) -> (h: Vec<u8>)
        requires
            self.wf(),
        ensures
            h@ == handshake_spec(self@.info_hash, self@.peer_id),
            h@.len() == HANDSHAKE_LEN,
    {
        let mut h = self.pre_header();
        let mut hash = slice_to_vec(self.info_hash.as_slice());
        h.append(&mut hash);
        let mut id = slice_to_vec(lit(self.peer_id.as_str()));
        h.append(&mut id);
        h
    }

    /// Checks the peer's handshake.
    pub fn on_handshake(&self, resp: &[u8]) -> (r: Result<(), FetchError>)
        ensures
            r == if handshake_ok(resp@, self@.info_hash) {
                Ok::<(), FetchError>(())
            } else {
                Err::<(), FetchError>(FetchError::Handshake)
            },
    {
        if resp.len() < HANDSHAKE_LEN {
            return Err(FetchError::Handshake);
        }
        let ours = self.pre_header();
        if !same_bytes(slice_subrange(resp, 0, 20), slice_subrange(ours.as_slice(), 0, 20)) {
            return Err(FetchError::Handshake);
        }
        if resp[25] & 0x10 != 0x10 {
            return Err(FetchError::Handshake);
        }
        if !same_bytes(slice_subrange(resp, 28, 48), self.info_hash.as_slice()) {
            return Err(FetchError::Handshake);
        }
        Ok(())
    }

    /// The extended handshake to send.
    pub fn ext_handshake(&self) -> (v: Vec<u8>)
        ensures
            v@ == ext_handshake_spec(),
    {
        proof {
            reveal_strlit("m");
            reveal_strlit("ut_metadata");
        }
        let mut inner = empty_dict();
        inner = dict_with(inner, lit("ut_metadata"), number(1));
        let mut m = empty_dict();
        m = dict_with(m, lit("m"), inner);
        let mut v: Vec<u8> = Vec::new();
        v.push(EXTENDED);
        v.push(EXT_HANDSHAKE);
        let mut dat = to_bytes(&m);
        v.append(&mut dat);
        assert(v@ =~= seq![EXTENDED, EXT_HANDSHAKE] + encoded(ext_handshake_value()));
        match frame(v.as_slice()) {
            Some(bytes) => bytes,
            None => Vec::new(),
        }
    }

    /// The length of the message that follows the length prefix `header`.
    pub fn next(&self, header: &[u8; 4]) -> (size: u32)
        ensures
            size == header@[0] * 0x100_0000 + header@[1] * 0x1_0000 + header@[2] * 0x100
                + header@[3],
    {
        read_u32_be(header.as_slice())
    }

    /// Whether every piece is there.
    pub fn is_done(&self) -> (done: bool)
        ensures
            done == all_there(self@.pieces),
    {
        let mut i: usize = 0;
        while i < self.pieces.len()
            invariant
                i <= self.pieces@.len(),
                forall|j: int| 0 <= j < i ==> (#[trigger] self.pieces@[j])@.len() > 0,
            decreases self.pieces.len() - i,
        {
            if self.pieces[i].len() == 0 {
                assert(piece_views(self.pieces@)[i as int].len() == 0);
                return false;
            }
            i += 1;
        }
        assert forall|j: int| 0 <= j < self@.pieces.len() implies (#[trigger] self@.pieces[j]).len()
            > 0 by {
            assert(self.pieces@[j]@.len() > 0);
        }
        true
    }

    /// The request for the piece with index `i`, ready to send.
    pub fn request_pieces(&self, i: usize) -> (dat: Vec<u8>)
        ensures
            dat@ == request_spec(self@.ut_metadata, i as int),
    {
        proof {
            reveal_strlit("msg_type");
            reveal_strlit("piece");
        }
        let mut m = empty_dict();
        m = dict_with(m, lit("msg_type"), number(MSG_REQUEST));
        m = dict_with(m, lit("piece"), number(#[verifier::truncate] (i as i64)));
        let mut dat: Vec<u8> = Vec::new();
        dat.push(EXTENDED);
        dat.push(#[verifier::truncate] (self.ut_metadata as u8));
        let mut b = to_bytes(&m);
        dat.append(&mut b);
        assert(dat@ =~= seq![EXTENDED, self.ut_metadata as u8] + encoded(request_value(i as i64)));
        match frame(dat.as_slice()) {
            Some(bytes) => bytes,
            None => Vec::new(),
        }
    }

    /// The pieces one after another.
    pub fn assemble(&self) -> (meta: Vec<u8>)
        ensures
            meta@ == concat_all(self@.pieces),
    {
        let mut meta: Vec<u8> = Vec::new();
        let mut i: usize = 0;
        assert(self@.pieces.take(0) =~= Seq::<Seq<u8>>::empty());
        while i < self.pieces.len()
            invariant
                i <= self.pieces@.len(),
                meta@ == concat_all(self@.pieces.take(i as int)),
            decreases self.pieces.len() - i,
        {
            let mut piece = slice_to_vec(self.pieces[i].as_slice());
            meta.append(&mut piece);
            i += 1;
            proof {
                assert(self@.pieces.take(i as int).drop_last() =~= self@.pieces.take(i - 1));
                assert(self@.pieces.take(i as int).last() == self.pieces@[i - 1]@);
            }
        }
        assert(self@.pieces.take(i as int) =~= self@.pieces);
        meta
    }

    /// Reads a piece message: the data of the piece and its index, or
    /// nothing where the peer refuses to send the piece.
    pub fn on_piece(&self, payload: &[u8]) -> (r: Result<Option<(Vec<u8>, usize)>, FetchError>)
        requires
            self.wf(),
        ensures
            match r {
                Ok(Some((data, index))) => piece_of(payload@, self@.metadata_size) == Ok::<
                    Option<(int, Seq<u8>)>,
                    FetchError,
                >(Some((index as int, data@))),
                Ok(None) => piece_of(payload@, self@.metadata_size) == Ok::<
                    Option<(int, Seq<u8>)>,
                    FetchError,
                >(None),
                Err(e) => piece_of(payload@, self@.metadata_size) == Err::<
                    Option<(int, Seq<u8>)>,
                    FetchError,
                >(e),
            },
    {
        proof {
            reveal_strlit("piece");
            reveal_strlit("msg_type");
        }
        let l: usize = payload.len();
        let mut n: usize = l;
        while n > 0 && !(n < l && payload[n - 1] == 101 && payload[n] == 101)
            invariant
                n <= l == payload@.len(),
                last_ee_below(payload@, l as int) == last_ee_below(payload@, n as int),
            decreases n,
        {
            n -= 1;
        }
        if n == 0 {
            return Err(FetchError::InvalidPiece);
        }
        let split: usize = n + 1;
        assert(last_ee(payload@) == Some(n - 1));
        let ben = match decode(slice_subrange(payload, 0, split)) {
            Some(ben) => ben,
            None => {
                return Err(FetchError::InvalidPiece);
            },
        };
        let kind: i64 = match dict_get(&ben, lit("msg_type")) {
            Some(v) => match as_number(v) {
                Some(kind) => kind,
                None => {
                    return Err(FetchError::InvalidPiece);
                },
            },
            None => {
                return Err(FetchError::InvalidPiece);
            },
        };
        if kind == MSG_REJECT {
            return Ok(None);
        }
        let index: i64 = match dict_get(&ben, lit("piece")) {
            Some(v) => match as_number(v) {
                Some(index) => index,
                None => {
                    return Err(FetchError::InvalidPiece);
                },
            },
            None => {
                return Err(FetchError::InvalidPiece);
            },
        };
        let count: usize = self.pieces.len();
        if kind != MSG_DATA || index < 0 || index >= count as i64 {
            return Err(FetchError::InvalidPiece);
        }
        let at: usize = index as usize;
        let expected: usize = if at + 1 < count {
            PER_BLOCK
        } else {
            self.metadata_size - PER_BLOCK * at
        };
        if l - split != expected {
            return Err(FetchError::InvalidPiece);
        }
        Ok(Some((copy_range(payload, split, l), at)))
    }

    /// Takes in the peer's extended handshake: learns the size of the
    /// metadata and the peer's id for `ut_metadata`, makes an empty slot
    /// for each piece, and writes the requests for all of them. On an error
    /// the session is as it was.
    pub fn on_ext_handshake(&mut self, payload: &[u8]) -> (r: Result<Vec<u8>, FetchError>)
        requires
            old(self).wf(),
        ensures
            final(self).wf(),
            match ext_header_of(payload@) {
                Ok((size, ut)) => {
                    &&& r matches Ok(requests)
                    &&& requests@ == requests_spec(ut, piece_count(size))
                    &&& final(self)@ == (WireView {
                        metadata_size: size,
                        ut_metadata: ut,
                        pieces: Seq::new(piece_count(size), |i: int| Seq::<u8>::empty()),
                        state: WireState::Fetching,
                        ..old(self)@
                    })
                },
                Err(e) => r == Err::<Vec<u8>, FetchError>(e) && final(self)@ == old(self)@,
            },
    {
        proof {
            reveal_strlit("metadata_size");
            reveal_strlit("m");
            reveal_strlit("ut_metadata");
        }
        let ben = match decode(payload) {
            Some(ben) => ben,
            None => {
                return Err(FetchError::ExtHandshake);
            },
        };
        let size: i64 = match dict_get(&ben, lit("metadata_size")) {
            Some(v) => match as_number(v) {
                Some(size) => size,
                None => {
                    return Err(FetchError::ExtHandshake);
                },
            },
            None => {
                return Err(FetchError::ExtHandshake);
            },
        };
        if size > MAX_META_DATA_SIZE as i64 {
            return Err(FetchError::MetadataTooLarge);
        }
        if size < 0 {
            return Err(FetchError::ExtHandshake);
        }
        let ut: i64 = match dict_get(&ben, lit("m")) {
            Some(m) => match dict_get(m, lit("ut_metadata")) {
                Some(v) => match as_number(v) {
                    Some(ut) => ut,
                    None => {
                        return Err(FetchError::ExtHandshake);
                    },
                },
                None => {
                    return Err(FetchError::ExtHandshake);
                },
            },
            None => {
                return Err(FetchError::ExtHandshake);
            },
        };
        let meta_size: usize = size as usize;
        let count: usize = (meta_size + PER_BLOCK - 1) / PER_BLOCK;
        self.metadata_size = meta_size;
        self.ut_metadata = ut;
        self.state = WireState::Fetching;
        self.pieces = Vec::new();
        let mut requests: Vec<u8> = Vec::new();
        let mut i: usize = 0;
        while i < count
            invariant
                i <= count == piece_count(meta_size as nat),
                count <= 1024,
                self.pieces@.len() == i,
                forall|j: int| 0 <= j < i ==> (#[trigger] self.pieces@[j])@.len() == 0,
                self.ut_metadata == ut,
                self.metadata_size == meta_size,
                self.state == WireState::Fetching,
                self.info_hash == old(self).info_hash,
                self.peer_id == old(self).peer_id,
                self.from == old(self).from,
                self.timeout_sec == old(self).timeout_sec,
                requests@ == requests_spec(ut, i as nat),
            decreases count - i,
        {
            self.pieces.push(Vec::new());
            let mut request = self.request_pieces(i);
            requests.append(&mut request);
            i += 1;
        }
        proof {
            let slots = Seq::new(piece_count(size as nat), |i: int| Seq::<u8>::empty());
            assert forall|j: int| 0 <= j < count implies #[trigger] self@.pieces[j] == slots[j] by {
                assert(self.pieces@[j]@ =~= Seq::<u8>::empty());
            }
            assert(self@.pieces =~= slots);
        }
        Ok(requests)
    }

    /// Takes in an extended message with the id `ext`: the extended
    /// handshake where the id is 0, and a piece otherwise. The result is
    /// what is to be sent in answer. On an error the session is as it was.
    pub fn on_extended(&mut self, ext: u8, payload: &[u8]) -> (r: Result<Vec<u8>, FetchError>)
        requires
            old(self).wf(),
        ensures
            final(self).wf(),
            match after_extended(old(self)@, ext, payload@) {
                Ok((w, send)) => r matches Ok(bytes) && bytes@ == send && final(self)@ == w,
                Err(e) => r == Err::<Vec<u8>, FetchError>(e) && final(self)@ == old(self)@,
            },
    {
        if ext == 0 {
            self.on_ext_handshake(payload)
        } else {
            let (piece, index) = match self.on_piece(payload) {
                Ok(Some(x)) => x,
                Ok(None) => {
                    return Ok(Vec::new());
                },
                Err(e) => {
                    return Err(e);
                },
            };
            let ghost before = self@.pieces;
            self.pieces.set(index, piece);
            proof {
                assert(self@.pieces =~= before.update(index as int, piece@));
            }
            Ok(Vec::new())
        }
    }
}

/// The session after an extended message with the id `ext`, and what is
/// to be sent in answer. The extended handshake sets the size and the
/// peer's extension id, empties the slots and asks for every piece; a piece
/// is put into its slot; a refusal changes nothing.
pub open spec fn after_extended(w: WireView, ext: u8, payload: Seq<u8>) -> Result<
    (WireView, Seq<u8>),
    FetchError,
> {
    if ext == 0 {
        match ext_header_of(payload) {
            Ok((size, ut)) => Ok(
                (
                    WireView {
                        metadata_size: size,
                        ut_metadata: ut,
                        pieces: Seq::new(piece_count(size), |i: int| Seq::<u8>::empty()),
                        state: WireState::Fetching,
                        ..w
                    },
                    requests_spec(ut, piece_count(size)),
                ),
            ),
            Err(e) => Err(e),
        }
    } else {
        match piece_of(payload, w.metadata_size) {
            Ok(Some((index, data))) => Ok(
                (WireView { pieces: w.pieces.update(index, data), ..w }, Seq::<u8>::empty()),
            ),
            Ok(None) => Ok((w, Seq::<u8>::empty())),
            Err(e) => Err(e),
        }
    }
}

/// What the caller tells a session.
pub enum WireEvent {
    /// The connection stands.
    Connected,
    /// The peer's handshake was read: 68 bytes, or fewer if no more came.
    Handshake(Vec<u8>),
    /// A message was read, without its length prefix.
    Message(Vec<u8>),
    /// Connecting, reading or writing failed or timed out.
    Broken,
}

/// What a [`WireEvent`] holds.
pub enum WireEventView {
    Connected,
    Handshake(Seq<u8>),
    Message(Seq<u8>),
    Broken,
}

impl View for WireEvent {
    type V = WireEventView;

    open spec fn view(&self) -> WireEventView {
        match self {
            WireEvent::Connected => WireEventView::Connected,
            WireEvent::Handshake(b) => WireEventView::Handshake(b@),
            WireEvent::Message(b) => WireEventView::Message(b@),
            WireEvent::Broken => WireEventView::Broken,
        }
    }
}

/// What a session tells the caller to do.
pub enum WireAction {
    /// Write these bytes, then read the peer's handshake.
    SendThenReadHandshake(Vec<u8>),
    /// Write these bytes, if there are any, then read a message.
    SendThenReadMessage(Vec<u8>),
    /// The session is over: this is the metadata.
    Deliver(Vec<u8>),
    /// The session is over: it failed.
    Fail(FetchError),
}

/// What a [`WireAction`] holds.
pub enum WireActionView {
    SendThenReadHandshake(Seq<u8>),
    SendThenReadMessage(Seq<u8>),
    Deliver(Seq<u8>),
    Fail(FetchError),
}

impl View for WireAction {
    type V = WireActionView;

    open spec fn view(&self) -> WireActionView {
        match self {
            WireAction::SendThenReadHandshake(b) => WireActionView::SendThenReadHandshake(b@),
            WireAction::SendThenReadMessage(b) => WireActionView::SendThenReadMessage(b@),
            WireAction::Deliver(b) => WireActionView::Deliver(b@),
            WireAction::Fail(e) => WireActionView::Fail(*e),
        }
    }
}

/// The session in the state `state`.
pub open spec fn in_state(w: WireView, state: WireState) -> WireView {
    WireView { state, ..w }
}

/// What a message does to a session that has shaken hands. A message that
/// is shorter than two bytes or no extended message is passed over. Once
/// the size of the metadata is known and every piece is there, the metadata
/// is put together and held against the info-hash.
pub open spec fn after_message(w: WireView, payload: Seq<u8>) -> (WireView, WireActionView) {
    if payload.len() < 2 || payload[0] != EXTENDED {
        (w, WireActionView::SendThenReadMessage(Seq::empty()))
    } else {
        match after_extended(w, payload[1], payload.subrange(2, payload.len() as int)) {
            Err(e) => (in_state(w, WireState::Failed), WireActionView::Fail(e)),
            Ok((next, send)) => if next.state == WireState::Fetching && all_there(next.pieces) {
                let meta = concat_all(next.pieces);
                if sha1(meta) == w.info_hash {
                    (in_state(next, WireState::Done), WireActionView::Deliver(meta))
                } else {
                    (
                        in_state(next, WireState::Failed),
                        WireActionView::Fail(FetchError::Checksum),
                    )
                }
            } else {
                (next, WireActionView::SendThenReadMessage(send))
            },
        }
    }
}

/// The session after an event, and what the caller is to do next.
pub open spec fn fetch_spec(w: WireView, event: WireEventView) -> (WireView, WireActionView) {
    match (w.state, event) {
        (WireState::Done, _) | (WireState::Failed, _) => (
            w,
            WireActionView::Fail(FetchError::OutOfTurn),
        ),
        (_, WireEventView::Broken) => (
            in_state(w, WireState::Failed),
            WireActionView::Fail(FetchError::Io),
        ),
        (WireState::Connecting, WireEventView::Connected) => (
            in_state(w, WireState::Handshaking),
            WireActionView::SendThenReadHandshake(handshake_spec(w.info_hash, w.peer_id)),
        ),
        (WireState::Handshaking, WireEventView::Handshake(resp)) => if handshake_ok(
            resp,
            w.info_hash,
        ) {
            (
                in_state(w, WireState::ExtHandshaking),
                WireActionView::SendThenReadMessage(ext_handshake_spec()),
            )
        } else {
            (in_state(w, WireState::Failed), WireActionView::Fail(FetchError::Handshake))
        },
        (WireState::ExtHandshaking, WireEventView::Message(payload)) => after_message(w, payload),
        (WireState::Fetching, WireEventView::Message(payload)) => after_message(w, payload),
        _ => (in_state(w, WireState::Failed), WireActionView::Fail(FetchError::OutOfTurn)),
    }
}

impl Wire {
    fn on_message(&mut self, payload: &[u8]) -> (action: WireAction)
        requires
            old(self).wf(),
        ensures
            final(self).wf(),
            (final(self)@, action@) == after_message(old(self)@, payload@),
    {
        if payload.len() < 2 || payload[0] != EXTENDED {
            return WireAction::SendThenReadMessage(Vec::new());
        }
        let send = match self.on_extended(payload[1], slice_subrange(payload, 2, payload.len())) {
            Ok(send) => send,
            Err(e) => {
                self.state = WireState::Failed;
                return WireAction::Fail(e);
            },
        };
        let fetching = match self.state {
            WireState::Fetching => true,
            _ => false,
        };
        if !fetching || !self.is_done() {
            return WireAction::SendThenReadMessage(send);
        }
        let meta = self.assemble();
        let digest = sha1_digest(meta.as_slice());
        if same_bytes(digest.as_slice(), self.info_hash.as_slice()) {
            self.state = WireState::Done;
            WireAction::Deliver(meta)
        } else {
            self.state = WireState::Failed;
            WireAction::Fail(FetchError::Checksum)
        }
    }

    /// Moves the session on by one event and says what the caller is to do
    /// next. Metadata that is delivered is as long as the peer said and
    /// hashes to the info-hash.
    pub fn fetch(&mut self, event: WireEvent) -> (action: WireAction)
        requires
            old(self).wf(),
        ensures
            final(self).wf(),
            (final(self)@, action@) == fetch_spec(old(self)@, event@),
            action matches WireAction::Deliver(meta) ==> meta@.len() == final(self)@.metadata_size
                && sha1(meta@) == final(self)@.info_hash,
    {
        proof {
            lemma_delivered(self@, event@);
        }
        match self.state {
            WireState::Done => {
                return WireAction::Fail(FetchError::OutOfTurn);
            },
            WireState::Failed => {
                return WireAction::Fail(FetchError::OutOfTurn);
            },
            _ => {},
        }
        match event {
            WireEvent::Broken => {
                self.state = WireState::Failed;
                WireAction::Fail(FetchError::Io)
            },
            WireEvent::Connected => {
                match self.state {
                    WireState::Connecting => {
                        self.state = WireState::Handshaking;
                        WireAction::SendThenReadHandshake(self.handshake())
                    },
                    _ => {
                        self.state = WireState::Failed;
                        WireAction::Fail(FetchError::OutOfTurn)
                    },
                }
            },
            WireEvent::Handshake(resp) => {
                match self.state {
                    WireState::Handshaking => {
                        match self.on_handshake(resp.as_slice()) {
                            Ok(_) => {
                                self.state = WireState::ExtHandshaking;
                                WireAction::SendThenReadMessage(self.ext_handshake())
                            },
                            Err(e) => {
                                self.state = WireState::Failed;
                                WireAction::Fail(e)
                            },
                        }
                    },
                    _ => {
                        self.state = WireState::Failed;
                        WireAction::Fail(FetchError::OutOfTurn)
                    },
                }
            },
            WireEvent::Message(payload) => {
                match self.state {
                    WireState::ExtHandshaking => self.on_message(payload.as_slice()),
                    WireState::Fetching => self.on_message(payload.as_slice()),
                    _ => {
                        self.state = WireState::Failed;
                        WireAction::Fail(FetchError::OutOfTurn)
                    },
                }
            },
        }
    }
}

/// A session stays in order, and metadata that it delivers is as long as
/// the peer said and hashes to the info-hash.
pub proof fn lemma_delivered(w: WireView, event: WireEventView)
    requires
        valid(w),
    ensures
        valid(fetch_spec(w, event).0),
        fetch_spec(w, event).0.info_hash == w.info_hash,
        fetch_spec(w, event).1 matches WireActionView::Deliver(meta) ==> {
            &&& meta.len() == fetch_spec(w, event).0.metadata_size
            &&& sha1(meta) == w.info_hash
            &&& fetch_spec(w, event).0.state == WireState::Done
        },
{
    let (next, action) = fetch_spec(w, event);
    match event {
        WireEventView::Message(payload) => {
            if (w.state == WireState::ExtHandshaking || w.state == WireState::Fetching)
                && payload.len() >= 2 && payload[0] == EXTENDED {
                let body = payload.subrange(2, payload.len() as int);
                match after_extended(w, payload[1], body) {
                    Ok((mid, send)) => {
                        assert(valid(mid)) by {
                            if payload[1] != 0 && piece_of(body, w.metadata_size).unwrap() is Some {
                                let (index, data) = piece_of(
                                    body,
                                    w.metadata_size,
                                ).unwrap().unwrap();
                                assert forall|i: int| 0 <= i < mid.pieces.len() implies (
                                #[trigger] mid.pieces[i]).len() == 0 || mid.pieces[i].len()
                                    == piece_len(mid.metadata_size, i) by {
                                    if i != index {
                                        assert(mid.pieces[i] == w.pieces[i]);
                                    }
                                }
                            }
                        }
                        if mid.state == WireState::Fetching && all_there(mid.pieces) {
                            lemma_concat_len(
                                mid.pieces,
                                mid.metadata_size,
                                mid.pieces.len() as int,
                            );
                            assert(mid.pieces.take(mid.pieces.len() as int) =~= mid.pieces);
                        }
                    },
                    Err(e) => {},
                }
            }
        },
        _ => {},
    }
}

} // verus!
