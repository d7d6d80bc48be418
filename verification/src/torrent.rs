//! What is kept of a fetched torrent: the file's name and its body.

use crate::bencoding::{decode, decoded, dict_with, empty_dict, encoded, to_bytes, BenValue};
use crate::bytes::{ascii, lit};
use vstd::prelude::*;
use vstd::string::*;

verus! {

/// The dictionary that a torrent file holds: the metadata under `info`.
pub open spec fn torrent_value(info: BenValue) -> BenValue {
    BenValue::Dict(map![ascii("info"@) => info])
}

/// The body of the torrent file for fetched metadata, where there is
/// anything to write: the metadata has to decode, and what is written for
/// it must not be empty.
pub open spec fn torrent_body_spec(meta: Seq<u8>) -> Option<Seq<u8>> {
    match decoded(meta) {
        Some(info) => if encoded(torrent_value(info)).len() == 0 {
            None
        } else {
            Some(encoded(torrent_value(info)))
        },
        None => None,
    }
}

/// Wraps fetched metadata into the body of a torrent file.
pub fn torrent_body(meta: &[u8]) -> (body: Option<Vec<u8>>)
    ensures
        match body {
            Some(bytes) => torrent_body_spec(meta@) == Some(bytes@),
            None => torrent_body_spec(meta@) is None,
        },
{
    proof {
        reveal_strlit("info");
    }
    let info = match decode(meta) {
        Some(info) => info,
        None => {
            return None;
        },
    };
    let dict = dict_with(empty_dict(), lit("info"), info);
    let bytes = to_bytes(&dict);
    if bytes.len() == 0 {
        None
    } else {
        Some(bytes)
    }
}

/// The name of the file that a torrent is kept in: the info-hash in
/// hexadecimal, then `.torrent`.
pub fn torrent_file_name(info_hash_hex: &str) -> (name: String)
    ensures
        name@ == info_hash_hex@ + ".torrent"@,
{
    let mut name = String::from_str(info_hash_hex);
    name.append(".torrent");
    name
}

} // verus!
