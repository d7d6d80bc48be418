//! Lowercase hexadecimal text.

use vstd::prelude::*;

verus! {

/// The lowercase hexadecimal digit of a value below sixteen.
pub open spec fn nibble_char(n: int) -> char {
    if n < 10 {
        (48 + n) as char
    } else {
        (87 + n) as char
    }
}

/// The hexadecimal text of `data`: two lowercase digits per byte, the high
/// half first, with nothing in between.
pub open spec fn hex_spec(data: Seq<u8>) -> Seq<char> {
    Seq::new(
        2 * data.len(),
        |i: int|
            nibble_char(
                if i % 2 == 0 {
                    data[i / 2] as int / 16
                } else {
                    data[i / 2] as int % 16
                },
            ),
    )
}

/// `String::push` appends one character to the end of the string.
pub assume_specification[ String::push ](s: &mut String, c: char)
    ensures
        final(s)@ == old(s)@.push(c),
;

fn nibble(n: u8) -> (c: char)
    requires
        n < 16,
    ensures
        c == nibble_char(n as int),
{
    if n < 10 {
        (48 + n) as char
    } else {
        (87 + n) as char
    }
}

/// Renders `dat` as lowercase hexadecimal.
pub fn hex(dat: Vec<u8>) -> (text: String)
    ensures
        text@ == hex_spec(dat@),
{
    let mut text = String::new();
    let mut i: usize = 0;
    while i < dat.len()
        invariant
            i <= dat.len(),
            text@ == hex_spec(dat@.take(i as int)),
        decreases dat.len() - i,
    {
        let byte = dat[i];
        text.push(nibble(byte / 16));
        text.push(nibble(byte % 16));
        i += 1;
        assert(text@ =~= hex_spec(dat@.take(i as int)));
    }
    assert(dat@.take(i as int) =~= dat@);
    text
}

/// Hexadecimal text has two characters for each byte.
pub proof fn lemma_hex_len(x: Seq<u8>)
    ensures
        hex_spec(x).len() == 2 * x.len(),
{
}

/// The hexadecimal text of a concatenation is the concatenation of the texts.
pub proof fn lemma_hex_concat(x: Seq<u8>, y: Seq<u8>)
    ensures
        hex_spec(x) + hex_spec(y) == hex_spec(x + y),
{
    assert(hex_spec(x) + hex_spec(y) =~= hex_spec(x + y));
}

/// Hexadecimal text is made of ASCII characters.
pub proof fn lemma_hex_is_ascii(x: Seq<u8>)
    ensures
        vstd::utf8::is_ascii_chars(hex_spec(x)),
{
    assert forall|i: int| 0 <= i < hex_spec(x).len() implies '\0' <= #[trigger] hex_spec(x)[i]
        <= '\u{7f}' by {
        let n = if i % 2 == 0 {
            x[i / 2] as int / 16
        } else {
            x[i / 2] as int % 16
        };
        assert(hex_spec(x)[i] == nibble_char(n));
        assert(nibble_char(n) as int == if n < 10 { 48 + n } else { 87 + n });
    }
}

/// Different byte strings have different hexadecimal texts.
pub proof fn lemma_hex_injective(x: Seq<u8>, y: Seq<u8>)
    requires
        hex_spec(x) == hex_spec(y),
    ensures
        x == y,
{
    assert(hex_spec(x).len() == 2 * x.len());
    assert(hex_spec(y).len() == 2 * y.len());
    assert(x.len() == y.len());
    assert forall|i: int| 0 <= i < x.len() implies x[i] == y[i] by {
        assert(hex_spec(x)[2 * i] == hex_spec(y)[2 * i]);
        assert(hex_spec(x)[2 * i + 1] == hex_spec(y)[2 * i + 1]);
        let xh = x[i] as int / 16;
        let yh = y[i] as int / 16;
        let xl = x[i] as int % 16;
        let yl = y[i] as int % 16;
        assert((2 * i) % 2 == 0 && (2 * i) / 2 == i);
        assert((2 * i + 1) % 2 == 1 && (2 * i + 1) / 2 == i);
        assert(hex_spec(x)[2 * i] == nibble_char(xh));
        assert(hex_spec(y)[2 * i] == nibble_char(yh));
        assert(hex_spec(x)[2 * i + 1] == nibble_char(xl));
        assert(hex_spec(y)[2 * i + 1] == nibble_char(yl));
        assert(nibble_char(xh) as int == if xh < 10 { 48 + xh } else { 87 + xh });
        assert(nibble_char(yh) as int == if yh < 10 { 48 + yh } else { 87 + yh });
        assert(nibble_char(xl) as int == if xl < 10 { 48 + xl } else { 87 + xl });
        assert(nibble_char(yl) as int == if yl < 10 { 48 + yl } else { 87 + yl });
    }
    assert(x =~= y);
}

} // verus!
