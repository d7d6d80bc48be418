//! Decimal numbers in text, and the text form of an IPv4 endpoint.

use vstd::prelude::*;
use vstd::string::*;

verus! {

/// The character of the decimal digit `d`.
pub open spec fn digit_char(d: int) -> char {
    (48 + d) as char
}

/// Whether `c` is a decimal digit.
pub open spec fn is_digit_char(c: char) -> bool {
    48 <= c as int <= 57
}

/// The decimal text of `n`, without leading zeros.
pub open spec fn decimal(n: nat) -> Seq<char>
    decreases n,
{
    if n < 10 {
        seq![digit_char(n as int)]
    } else {
        decimal(n / 10).push(digit_char((n % 10) as int))
    }
}

/// The text of an IPv4 endpoint: the four address bytes in decimal with dots
/// between them, a colon, and the port in decimal.
pub open spec fn addr_text(a: u8, b: u8, c: u8, d: u8, port: u16) -> Seq<char> {
    decimal(a as nat) + seq!['.'] + decimal(b as nat) + seq!['.'] + decimal(c as nat) + seq!['.']
        + decimal(d as nat) + seq![':'] + decimal(port as nat)
}

/// Appends the decimal text of `n`.
pub fn push_decimal(text: &mut String, n: u16)
    ensures
        final(text)@ == old(text)@ + decimal(n as nat),
    decreases n,
{
    if n >= 10 {
        push_decimal(text, n / 10);
    }
    let d: u8 = (n % 10) as u8;
    text.push((48 + d) as char);
    proof {
        assert(final(text)@ =~= old(text)@ + decimal(n as nat));
    }
}

/// Writes an IPv4 endpoint as text.
pub fn addr_string(a: u8, b: u8, c: u8, d: u8, port: u16) -> (text: String)
    ensures
        text@ == addr_text(a, b, c, d, port),
{
    let mut text = String::new();
    push_decimal(&mut text, a as u16);
    text.push('.');
    push_decimal(&mut text, b as u16);
    text.push('.');
    push_decimal(&mut text, c as u16);
    text.push('.');
    push_decimal(&mut text, d as u16);
    text.push(':');
    push_decimal(&mut text, port);
    proof {
        assert(text@ =~= addr_text(a, b, c, d, port));
    }
    text
}

/// The index just past the run of digits that starts at `i`.
pub open spec fn run_end(t: Seq<char>, i: int) -> int
    decreases t.len() - i,
{
    if 0 <= i < t.len() && is_digit_char(t[i]) {
        run_end(t, i + 1)
    } else {
        i
    }
}

/// The number that the digits in `t[i..j]` spell.
pub open spec fn run_value(t: Seq<char>, i: int, j: int) -> nat
    decreases j - i,
{
    if j <= i {
        0
    } else {
        run_value(t, i, j - 1) * 10 + (t[j - 1] as int - 48) as nat
    }
}

/// The decimal number at index `i` and the index where it ends: a run of
/// digits without a leading zero that spells at most `max`.
pub open spec fn field(t: Seq<char>, i: int, max: nat) -> Option<(nat, int)> {
    let j = run_end(t, i);
    if 0 <= i < j && (t[i] != '0' || j == i + 1) && run_value(t, i, j) <= max {
        Some((run_value(t, i, j), j))
    } else {
        None
    }
}

/// A decimal number at index `i` that is followed by `sep`, and the index
/// after the separator.
pub open spec fn field_then(t: Seq<char>, i: int, max: nat, sep: char) -> Option<(nat, int)> {
    match field(t, i, max) {
        Some((v, j)) => if j < t.len() && t[j] == sep {
            Some((v, j + 1))
        } else {
            None
        },
        None => None,
    }
}

/// The endpoint that a text spells, where it is the text of an IPv4
/// endpoint: four numbers up to 255 with dots between them, a colon, and a
/// port up to 65535, none with a leading zero and nothing else around them.
pub open spec fn parse_addr_spec(t: Seq<char>) -> Option<(u8, u8, u8, u8, u16)> {
    match field_then(t, 0, 255, '.') {
        Some((a, i1)) => match field_then(t, i1, 255, '.') {
            Some((b, i2)) => match field_then(t, i2, 255, '.') {
                Some((c, i3)) => match field_then(t, i3, 255, ':') {
                    Some((d, i4)) => match field(t, i4, 65535) {
                        Some((port, i5)) => if i5 == t.len() {
                            Some((a as u8, b as u8, c as u8, d as u8, port as u16))
                        } else {
                            None
                        },
                        None => None,
                    },
                    None => None,
                },
                None => None,
            },
            None => None,
        },
        None => None,
    }
}

proof fn lemma_run_end_bounds(t: Seq<char>, i: int)
    requires
        0 <= i <= t.len(),
    ensures
        i <= run_end(t, i) <= t.len(),
        forall|m: int| i <= m < run_end(t, i) ==> is_digit_char(#[trigger] t[m]),
        run_end(t, i) == t.len() || !is_digit_char(t[run_end(t, i)]),
    decreases t.len() - i,
{
    if i < t.len() && is_digit_char(t[i]) {
        lemma_run_end_bounds(t, i + 1);
    }
}

proof fn lemma_run_end_is(t: Seq<char>, i: int, j: int)
    requires
        0 <= i <= j <= t.len(),
        forall|m: int| i <= m < j ==> is_digit_char(#[trigger] t[m]),
        j == t.len() || !is_digit_char(t[j]),
    ensures
        run_end(t, i) == j,
    decreases j - i,
{
    if i < j {
        lemma_run_end_is(t, i + 1, j);
    }
}

proof fn lemma_run_value_grows(t: Seq<char>, i: int, k: int, j: int)
    requires
        0 <= i <= k <= j <= t.len(),
        forall|m: int| i <= m < j ==> is_digit_char(#[trigger] t[m]),
    ensures
        run_value(t, i, k) <= run_value(t, i, j),
        i < k && t[i] != '0' ==> run_value(t, i, k) >= 1,
    decreases j - i,
{
    if i < j {
        if k < j {
            lemma_run_value_grows(t, i, k, j - 1);
        } else {
            lemma_run_value_grows(t, i, k - 1, j - 1);
        }
    }
}

proof fn lemma_run_value_same(t: Seq<char>, i: int, u: Seq<char>, k: int, n: int)
    requires
        0 <= n,
        0 <= i,
        i + n <= t.len(),
        0 <= k,
        k + n <= u.len(),
        t.subrange(i, i + n) == u.subrange(k, k + n),
    ensures
        run_value(t, i, i + n) == run_value(u, k, k + n),
    decreases n,
{
    if n > 0 {
        let x = t.subrange(i, i + n);
        let y = u.subrange(k, k + n);
        assert(t.subrange(i, i + n - 1) =~= x.subrange(0, n - 1));
        assert(u.subrange(k, k + n - 1) =~= y.subrange(0, n - 1));
        lemma_run_value_same(t, i, u, k, n - 1);
        assert(t[i + n - 1] == x[n - 1]);
        assert(u[k + n - 1] == y[n - 1]);
    }
}

/// A run of digits without a leading zero is the decimal text of the number
/// that it spells.
proof fn lemma_run_is_decimal(t: Seq<char>, i: int, j: int)
    requires
        0 <= i < j <= t.len(),
        forall|m: int| i <= m < j ==> is_digit_char(#[trigger] t[m]),
        t[i] != '0' || j == i + 1,
    ensures
        t.subrange(i, j) == decimal(run_value(t, i, j)),
    decreases j - i,
{
    let v = run_value(t, i, j);
    if j == i + 1 {
        assert(run_value(t, i, i) == 0);
        assert(is_digit_char(t[i]));
        assert(v == t[i] as int - 48);
        assert(digit_char(v as int) == t[i]);
        assert(t.subrange(i, j) =~= seq![t[i]]);
    } else {
        let w = run_value(t, i, j - 1);
        assert(is_digit_char(t[j - 1]));
        let d = t[j - 1] as int - 48;
        lemma_run_value_grows(t, i, j - 1, j - 1);
        assert(w >= 1);
        assert(v == w * 10 + d);
        assert(v / 10 == w && v % 10 == d);
        lemma_run_is_decimal(t, i, j - 1);
        assert(digit_char(d) == t[j - 1]);
        assert(t.subrange(i, j) =~= t.subrange(i, j - 1).push(t[j - 1]));
    }
}

/// The decimal text of a number is a run of digits without a leading zero
/// that spells the number.
proof fn lemma_decimal_shape(n: nat)
    ensures
        decimal(n).len() >= 1,
        forall|m: int| 0 <= m < decimal(n).len() ==> is_digit_char(#[trigger] decimal(n)[m]),
        decimal(n)[0] != '0' || decimal(n).len() == 1,
        n >= 1 ==> decimal(n)[0] != '0',
        run_value(decimal(n), 0, decimal(n).len() as int) == n,
    decreases n,
{
    let s = decimal(n);
    if n < 10 {
        assert(s =~= seq![digit_char(n as int)]);
        assert(run_value(s, 0, 0) == 0);
        assert(s[0] as int == 48 + n);
    } else {
        let p = decimal(n / 10);
        let c = digit_char((n % 10) as int);
        lemma_decimal_shape(n / 10);
        assert(s == p.push(c));
        assert(c as int == 48 + n % 10);
        assert forall|m: int| 0 <= m < s.len() implies is_digit_char(#[trigger] s[m]) by {
            if m < p.len() {
                assert(s[m] == p[m]);
            }
        }
        assert(s[0] == p[0]);
        assert(s.subrange(0, p.len() as int) =~= p.subrange(0, p.len() as int));
        lemma_run_value_same(s, 0, p, 0, p.len() as int);
        assert(run_value(s, 0, s.len() as int) == run_value(s, 0, s.len() - 1) * 10 + (s[s.len()
            - 1] as int - 48) as nat);
    }
}

/// Where the decimal text of `n` stands at index `i` and no digit follows
/// it, the number read at `i` is `n`.
proof fn lemma_field_reads_decimal(t: Seq<char>, i: int, n: nat, max: nat)
    requires
        0 <= i,
        i + decimal(n).len() <= t.len(),
        t.subrange(i, i + decimal(n).len()) == decimal(n),
        i + decimal(n).len() == t.len() || !is_digit_char(t[i + decimal(n).len()]),
        n <= max,
    ensures
        field(t, i, max) == Some((n, i + decimal(n).len())),
{
    let s = decimal(n);
    let j = i + s.len();
    lemma_decimal_shape(n);
    assert forall|m: int| i <= m < j implies is_digit_char(#[trigger] t[m]) by {
        assert(t[m] == t.subrange(i, j)[m - i]);
    }
    lemma_run_end_is(t, i, j);
    assert(s.subrange(0, s.len() as int) =~= s);
    lemma_run_value_same(t, i, s, 0, s.len() as int);
    assert(t[i] == t.subrange(i, j)[0]);
}

fn parse_field(t: &str, len: usize, i: usize, max: u32) -> (r: Option<(u32, usize)>)
    requires
        len == t@.len(),
        i <= len,
        max <= 65535,
    ensures
        match r {
            Some((v, j)) => field(t@, i as int, max as nat) == Some((v as nat, j as int)) && i < j
                <= len && v <= max,
            None => field(t@, i as int, max as nat) is None,
        },
{
    let mut e: usize = i;
    while e < len && is_digit_at(t, e)
        invariant
            i <= e <= len == t@.len(),
            run_end(t@, i as int) == run_end(t@, e as int),
            forall|m: int| i <= m < e ==> is_digit_char(#[trigger] t@[m]),
        decreases len - e,
    {
        e += 1;
    }
    if e == i || (e > i + 1 && t.get_char(i) == '0') {
        return None;
    }
    let mut k: usize = i;
    let mut v: u32 = 0;
    while k < e
        invariant
            i <= k <= e <= len == t@.len(),
            e == run_end(t@, i as int),
            max <= 65535,
            v <= max,
            v == run_value(t@, i as int, k as int),
            forall|m: int| i <= m < e ==> is_digit_char(#[trigger] t@[m]),
        decreases e - k,
    {
        let c = t.get_char(k);
        let d: u32 = c as u32 - 48;
        v = v * 10 + d;
        k += 1;
        assert(v == run_value(t@, i as int, k as int));
        if v > max {
            proof {
                lemma_run_value_grows(t@, i as int, k as int, e as int);
            }
            return None;
        }
    }
    Some((v, e))
}

fn is_digit_at(t: &str, i: usize) -> (r: bool)
    requires
        i < t@.len(),
    ensures
        r == is_digit_char(t@[i as int]),
{
    let c = t.get_char(i);
    '0' <= c && c <= '9'
}

fn parse_field_then(t: &str, len: usize, i: usize, max: u32, sep: char) -> (r: Option<
    (u32, usize),
>)
    requires
        len == t@.len(),
        i <= len,
        max <= 65535,
    ensures
        match r {
            Some((v, j)) => field_then(t@, i as int, max as nat, sep) == Some(
                (v as nat, j as int),
            ) && i < j <= len && v <= max,
            None => field_then(t@, i as int, max as nat, sep) is None,
        },
{
    match parse_field(t, len, i, max) {
        Some((v, j)) => {
            if j < len && t.get_char(j) == sep {
                Some((v, j + 1))
            } else {
                None
            }
        },
        None => None,
    }
}

/// Reads the text of an IPv4 endpoint.
pub fn parse_addr(t: &str) -> (r: Option<(u8, u8, u8, u8, u16)>)
    ensures
        r == parse_addr_spec(t@),
{
    let len: usize = t.unicode_len();
    let (a, i1) = match parse_field_then(t, len, 0, 255, '.') {
        Some(x) => x,
        None => {
            return None;
        },
    };
    let (b, i2) = match parse_field_then(t, len, i1, 255, '.') {
        Some(x) => x,
        None => {
            return None;
        },
    };
    let (c, i3) = match parse_field_then(t, len, i2, 255, '.') {
        Some(x) => x,
        None => {
            return None;
        },
    };
    let (d, i4) = match parse_field_then(t, len, i3, 255, ':') {
        Some(x) => x,
        None => {
            return None;
        },
    };
    let (port, i5) = match parse_field(t, len, i4, 65535) {
        Some(x) => x,
        None => {
            return None;
        },
    };
    if i5 == len {
        Some((a as u8, b as u8, c as u8, d as u8, port as u16))
    } else {
        None
    }
}

/// A text that spells an endpoint is the text of that endpoint.
pub proof fn lemma_parse_then_write(t: Seq<char>)
    requires
        parse_addr_spec(t) is Some,
    ensures
        ({
            let (a, b, c, d, port) = parse_addr_spec(t).unwrap();
            t == addr_text(a, b, c, d, port)
        }),
{
    let (a, i1) = field_then(t, 0, 255, '.').unwrap();
    let (b, i2) = field_then(t, i1, 255, '.').unwrap();
    let (c, i3) = field_then(t, i2, 255, '.').unwrap();
    let (d, i4) = field_then(t, i3, 255, ':').unwrap();
    let (port, i5) = field(t, i4, 65535).unwrap();
    lemma_run_end_bounds(t, 0);
    lemma_run_is_decimal(t, 0, i1 - 1);
    lemma_run_end_bounds(t, i1);
    lemma_run_is_decimal(t, i1, i2 - 1);
    lemma_run_end_bounds(t, i2);
    lemma_run_is_decimal(t, i2, i3 - 1);
    lemma_run_end_bounds(t, i3);
    lemma_run_is_decimal(t, i3, i4 - 1);
    lemma_run_end_bounds(t, i4);
    lemma_run_is_decimal(t, i4, i5);
    assert(t =~= t.subrange(0, i1 - 1) + seq!['.'] + t.subrange(i1, i2 - 1) + seq!['.']
        + t.subrange(i2, i3 - 1) + seq!['.'] + t.subrange(i3, i4 - 1) + seq![':'] + t.subrange(
        i4,
        i5,
    ));
}

/// The text of an endpoint spells that endpoint.
pub proof fn lemma_write_then_parse(a: u8, b: u8, c: u8, d: u8, port: u16)
    ensures
        parse_addr_spec(addr_text(a, b, c, d, port)) == Some((a, b, c, d, port)),
{
    let t = addr_text(a, b, c, d, port);
    let sa = decimal(a as nat);
    let sb = decimal(b as nat);
    let sc = decimal(c as nat);
    let sd = decimal(d as nat);
    let sp = decimal(port as nat);
    let i1 = sa.len() + 1;
    let i2 = i1 + sb.len() + 1;
    let i3 = i2 + sc.len() + 1;
    let i4 = i3 + sd.len() + 1;
    let i5 = i4 + sp.len();
    assert(t.len() == i5);
    assert(t.subrange(0, i1 - 1) =~= sa);
    assert(t[i1 - 1] == '.');
    assert(t.subrange(i1 as int, i2 - 1) =~= sb);
    assert(t[i2 - 1] == '.');
    assert(t.subrange(i2 as int, i3 - 1) =~= sc);
    assert(t[i3 - 1] == '.');
    assert(t.subrange(i3 as int, i4 - 1) =~= sd);
    assert(t[i4 - 1] == ':');
    assert(t.subrange(i4 as int, i5 as int) =~= sp);
    lemma_field_reads_decimal(t, 0, a as nat, 255);
    lemma_field_reads_decimal(t, i1 as int, b as nat, 255);
    lemma_field_reads_decimal(t, i2 as int, c as nat, 255);
    lemma_field_reads_decimal(t, i3 as int, d as nat, 255);
    lemma_field_reads_decimal(t, i4 as int, port as nat, 65535);
}

} // verus!
