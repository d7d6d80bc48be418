//! The shape of a bencoded document.
//!
//! The decoder is only handed documents that are complete: one value, every
//! list and dictionary closed, every byte string as long as it says, and
//! nothing after the end. This module says what complete means and checks it.

use vstd::prelude::*;

verus! {

/// How deep lists and dictionaries may nest in a document that is decoded.
pub const MAX_DEPTH: u32 = 64;

/// The most decimal digits a number or a length may have.
pub const MAX_DIGITS: usize = 18;

/// Whether `b` is an ASCII decimal digit.
pub open spec fn is_digit(b: u8) -> bool {
    48 <= b <= 57
}

/// The index just past the run of decimal digits that starts at `i`.
pub open spec fn digits_end(buf: Seq<u8>, i: int) -> int
    decreases buf.len() - i,
{
    if 0 <= i < buf.len() && is_digit(buf[i]) {
        digits_end(buf, i + 1)
    } else {
        i
    }
}

/// The number that the decimal digits in `buf[i..j]` spell.
pub open spec fn digits_value(buf: Seq<u8>, i: int, j: int) -> int
    decreases j - i,
{
    if j <= i {
        0
    } else {
        digits_value(buf, i, j - 1) * 10 + (buf[j - 1] - 48)
    }
}

/// Where the integer that starts with `i` at index `i` ends: after an
/// optional minus sign come either a single zero or digits that start with a
/// non-zero one, then `e`.
pub open spec fn int_end(buf: Seq<u8>, i: int) -> Option<int> {
    let s = if i + 1 < buf.len() && buf[i + 1] == 45 {
        i + 2
    } else {
        i + 1
    };
    let e = digits_end(buf, s);
    if 0 <= i && s < e && e - s <= MAX_DIGITS && (buf[s] != 48 || e == s + 1) && e < buf.len()
        && buf[e] == 101 {
        Some(e + 1)
    } else {
        None
    }
}

/// Where the byte string that starts with its length at index `i` ends: the
/// length in decimal, a colon, and that many bytes, all inside the buffer.
pub open spec fn str_end(buf: Seq<u8>, i: int) -> Option<int> {
    let e = digits_end(buf, i);
    if 0 <= i < e && e - i <= MAX_DIGITS && e < buf.len() && buf[e] == 58 && e + 1 + digits_value(
        buf,
        i,
        e,
    ) <= buf.len() {
        Some(e + 1 + digits_value(buf, i, e))
    } else {
        None
    }
}

/// Where the value that starts at index `i` ends, with lists and
/// dictionaries nested at most `depth` deep; `None` where no complete value
/// starts there.
pub open spec fn value_end(buf: Seq<u8>, i: int, depth: nat) -> Option<int>
    decreases depth, buf.len() - i, 0nat,
{
    if i < 0 || i >= buf.len() {
        None
    } else if buf[i] == 105 {
        int_end(buf, i)
    } else if is_digit(buf[i]) {
        str_end(buf, i)
    } else if buf[i] == 108 && depth > 0 {
        list_end(buf, i + 1, (depth - 1) as nat)
    } else if buf[i] == 100 && depth > 0 {
        dict_end(buf, i + 1, (depth - 1) as nat)
    } else {
        None
    }
}

/// Where a list ends whose next item, or closing `e`, is at index `i`.
pub open spec fn list_end(buf: Seq<u8>, i: int, depth: nat) -> Option<int>
    decreases depth, buf.len() - i, 1nat,
{
    if i < 0 || i >= buf.len() {
        None
    } else if buf[i] == 101 {
        Some(i + 1)
    } else {
        match value_end(buf, i, depth) {
            Some(j) => if i < j <= buf.len() {
                list_end(buf, j, depth)
            } else {
                None
            },
            None => None,
        }
    }
}

/// Where a dictionary ends whose next key, or closing `e`, is at index `i`.
/// A key is a byte string, and a value follows each key.
pub open spec fn dict_end(buf: Seq<u8>, i: int, depth: nat) -> Option<int>
    decreases depth, buf.len() - i, 1nat,
{
    if i < 0 || i >= buf.len() {
        None
    } else if buf[i] == 101 {
        Some(i + 1)
    } else if is_digit(buf[i]) {
        match str_end(buf, i) {
            Some(k) => if i < k <= buf.len() {
                match value_end(buf, k, depth) {
                    Some(j) => if k < j <= buf.len() {
                        dict_end(buf, j, depth)
                    } else {
                        None
                    },
                    None => None,
                }
            } else {
                None
            },
            None => None,
        }
    } else {
        None
    }
}

/// A complete document: exactly one value that ends where the buffer ends.
pub open spec fn complete(buf: Seq<u8>) -> bool {
    buf.len() <= u32::MAX && value_end(buf, 0, MAX_DEPTH as nat) == Some(buf.len() as int)
}

/// A longer run of digits spells a number that is no smaller.
proof fn lemma_digits_value_grows(buf: Seq<u8>, i: int, k: int, j: int)
    requires
        0 <= i <= k <= j <= buf.len(),
        forall|m: int| i <= m < j ==> is_digit(#[trigger] buf[m]),
    ensures
        0 <= digits_value(buf, i, k) <= digits_value(buf, i, j),
    decreases j - i,
{
    if i < j {
        if k < j {
            lemma_digits_value_grows(buf, i, k, j - 1);
        } else {
            lemma_digits_value_grows(buf, i, k - 1, j - 1);
        }
    }
}

fn scan_digits(buf: &[u8], i: usize) -> (e: usize)
    requires
        i <= buf.len(),
    ensures
        e == digits_end(buf@, i as int),
        i <= e <= buf.len(),
        forall|m: int| i <= m < e ==> is_digit(#[trigger] buf@[m]),
{
    let mut e: usize = i;
    while e < buf.len() && buf[e] >= 48 && buf[e] <= 57
        invariant
            i <= e <= buf.len(),
            digits_end(buf@, i as int) == digits_end(buf@, e as int),
            forall|m: int| i <= m < e ==> is_digit(#[trigger] buf@[m]),
        decreases buf.len() - e,
    {
        e += 1;
    }
    e
}

fn int_end_exec(buf: &[u8], i: usize) -> (r: Option<usize>)
    requires
        i < buf.len(),
    ensures
        match r {
            Some(j) => int_end(buf@, i as int) == Some(j as int) && i < j <= buf.len(),
            None => int_end(buf@, i as int) is None,
        },
{
    let s: usize = if i + 1 < buf.len() && buf[i + 1] == 45 {
        i + 2
    } else {
        i + 1
    };
    let e: usize = scan_digits(buf, s);
    if s < e && e - s <= MAX_DIGITS && (buf[s] != 48 || e == s + 1) && e < buf.len() && buf[e]
        == 101 {
        Some(e + 1)
    } else {
        None
    }
}

fn str_end_exec(buf: &[u8], i: usize) -> (r: Option<usize>)
    requires
        i <= buf.len() <= u32::MAX,
    ensures
        match r {
            Some(j) => str_end(buf@, i as int) == Some(j as int) && i < j <= buf.len(),
            None => str_end(buf@, i as int) is None,
        },
{
    let e: usize = scan_digits(buf, i);
    if e == i || e - i > MAX_DIGITS || e >= buf.len() || buf[e] != 58 {
        return None;
    }
    let mut v: u64 = 0;
    let mut k: usize = i;
    while k < e
        invariant
            i <= k <= e < buf.len() <= u32::MAX,
            e == digits_end(buf@, i as int),
            v == digits_value(buf@, i as int, k as int),
            v <= buf.len(),
            forall|m: int| i <= m < e ==> is_digit(#[trigger] buf@[m]),
        decreases e - k,
    {
        v = v * 10 + (buf[k] - 48) as u64;
        k += 1;
        assert(v == digits_value(buf@, i as int, k as int));
        if v > buf.len() as u64 {
            proof {
                lemma_digits_value_grows(buf@, i as int, k as int, e as int);
            }
            return None;
        }
    }
    let room: usize = buf.len() - e - 1;
    if v > room as u64 {
        None
    } else {
        Some(e + 1 + v as usize)
    }
}

fn list_end_exec(buf: &[u8], i: usize, depth: u32) -> (r: Option<usize>)
    requires
        i <= buf.len() <= u32::MAX,
    ensures
        match r {
            Some(j) => list_end(buf@, i as int, depth as nat) == Some(j as int) && i < j
                <= buf.len(),
            None => list_end(buf@, i as int, depth as nat) is None,
        },
    decreases depth, 1nat,
{
    let mut p: usize = i;
    loop
        invariant
            i <= p <= buf.len() <= u32::MAX,
            list_end(buf@, i as int, depth as nat) == list_end(buf@, p as int, depth as nat),
        decreases buf.len() - p,
    {
        if p >= buf.len() {
            return None;
        }
        if buf[p] == 101 {
            return Some(p + 1);
        }
        match value_end_exec(buf, p, depth) {
            Some(j) => {
                p = j;
            },
            None => {
                return None;
            },
        }
    }
}

fn dict_end_exec(buf: &[u8], i: usize, depth: u32) -> (r: Option<usize>)
    requires
        i <= buf.len() <= u32::MAX,
    ensures
        match r {
            Some(j) => dict_end(buf@, i as int, depth as nat) == Some(j as int) && i < j
                <= buf.len(),
            None => dict_end(buf@, i as int, depth as nat) is None,
        },
    decreases depth, 1nat,
{
    let mut p: usize = i;
    loop
        invariant
            i <= p <= buf.len() <= u32::MAX,
            dict_end(buf@, i as int, depth as nat) == dict_end(buf@, p as int, depth as nat),
        decreases buf.len() - p,
    {
        if p >= buf.len() {
            return None;
        }
        if buf[p] == 101 {
            return Some(p + 1);
        }
        if buf[p] < 48 || buf[p] > 57 {
            return None;
        }
        let k: usize = match str_end_exec(buf, p) {
            Some(k) => k,
            None => {
                return None;
            },
        };
        match value_end_exec(buf, k, depth) {
            Some(j) => {
                p = j;
            },
            None => {
                return None;
            },
        }
    }
}

fn value_end_exec(buf: &[u8], i: usize, depth: u32) -> (r: Option<usize>)
    requires
        i <= buf.len() <= u32::MAX,
    ensures
        match r {
            Some(j) => value_end(buf@, i as int, depth as nat) == Some(j as int) && i < j
                <= buf.len(),
            None => value_end(buf@, i as int, depth as nat) is None,
        },
    decreases depth, 0nat,
{
    if i >= buf.len() {
        None
    } else if buf[i] == 105 {
        int_end_exec(buf, i)
    } else if buf[i] >= 48 && buf[i] <= 57 {
        str_end_exec(buf, i)
    } else if buf[i] == 108 && depth > 0 {
        list_end_exec(buf, i + 1, depth - 1)
    } else if buf[i] == 100 && depth > 0 {
        dict_end_exec(buf, i + 1, depth - 1)
    } else {
        None
    }
}

/// Whether `buf` is a complete document.
pub fn is_complete(buf: &[u8]) -> (ok: bool)
    ensures
        ok == complete(buf@),
{
    if buf.len() > 0xffff_ffff {
        return false;
    }
    match value_end_exec(buf, 0, MAX_DEPTH) {
        Some(j) => j == buf.len(),
        None => false,
    }
}

} // verus!
