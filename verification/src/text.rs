//! Text helpers: lowercase hexadecimal, decimal numbers, and building
//! `String`s from characters.
use vstd::prelude::*;
use crate::outside::push_char;

verus! {

/// The lowercase hexadecimal digit of a value below 16.
pub open spec fn hex_digit(v: int) -> char {
    if v < 10 {
        (v + 48) as char
    } else {
        (v + 87) as char
    }
}

/// Lowercase hexadecimal encoding: two digits per byte, high nibble first
/// (what `blake3::Hash::to_hex` and the `Display` of a `Hash` produce).
pub open spec fn hex_lower(data: Seq<u8>) -> Seq<char>
    decreases data.len(),
{
    if data.len() == 0 {
        seq![]
    } else {
        hex_lower(data.drop_last()) + seq![
            hex_digit(data.last() as int / 16),
            hex_digit(data.last() as int % 16),
        ]
    }
}

/// Encoding as lowercase hex doubles the length.
pub proof fn lemma_hex_lower_len(data: Seq<u8>)
    ensures
        hex_lower(data).len() == 2 * data.len(),
    decreases data.len(),
{
    if data.len() > 0 {
        lemma_hex_lower_len(data.drop_last());
    }
}

/// Each value below 16 has its own digit: `0`-`9` then `a`-`f`.
pub proof fn lemma_hex_digit_values(v: int)
    requires
        0 <= v < 16,
    ensures
        hex_digit(v) as u32 == if v < 10 { v + 48 } else { v + 87 },
{
}

/// Lowercase hex keeps bytes apart: two byte strings with the same
/// encoding are the same.
pub proof fn lemma_hex_lower_injective(a: Seq<u8>, b: Seq<u8>)
    requires
        hex_lower(a) == hex_lower(b),
    ensures
        a == b,
    decreases a.len(),
{
    lemma_hex_lower_len(a);
    lemma_hex_lower_len(b);
    if a.len() > 0 {
        let ha = hex_lower(a);
        let n = ha.len();
        let (x, y) = (a.last() as int, b.last() as int);
        assert(ha[n - 2] == hex_digit(x / 16) && ha[n - 1] == hex_digit(x % 16));
        assert(hex_lower(b)[n - 2] == hex_digit(y / 16) && hex_lower(b)[n - 1] == hex_digit(y % 16));
        lemma_hex_digit_values(x / 16);
        lemma_hex_digit_values(x % 16);
        lemma_hex_digit_values(y / 16);
        lemma_hex_digit_values(y % 16);
        assert(x / 16 == y / 16);
        assert(x % 16 == y % 16);
        assert(x == y);
        assert(hex_lower(a.drop_last()) =~= ha.take(n - 2));
        assert(hex_lower(b.drop_last()) =~= hex_lower(b).take(n - 2));
        lemma_hex_lower_injective(a.drop_last(), b.drop_last());
        assert(a =~= b.drop_last().push(b.last()));
        assert(b =~= b.drop_last().push(b.last()));
    } else {
        assert(a =~= b);
    }
}

/// Byte `i` is encoded at positions `2i` and `2i+1`: its high nibble, then
/// its low nibble, each as `0`-`9` or `a`-`f`.
pub proof fn lemma_hex_lower_positions(data: Seq<u8>, i: int)
    requires
        0 <= i < data.len(),
    ensures
        hex_lower(data).len() == 2 * data.len(),
        hex_lower(data)[2 * i] as u32 == if data[i] / 16 < 10 {
            data[i] / 16 + 48
        } else {
            data[i] / 16 + 87
        },
        hex_lower(data)[2 * i + 1] as u32 == if data[i] % 16 < 10 {
            data[i] % 16 + 48
        } else {
            data[i] % 16 + 87
        },
    decreases data.len(),
{
    lemma_hex_lower_len(data);
    lemma_hex_digit_values(data[i] as int / 16);
    lemma_hex_digit_values(data[i] as int % 16);
    if i < data.len() - 1 {
        let rest = data.drop_last();
        lemma_hex_lower_positions(rest, i);
        lemma_hex_lower_len(rest);
        assert(hex_lower(data)[2 * i] == hex_lower(rest)[2 * i]);
        assert(hex_lower(data)[2 * i + 1] == hex_lower(rest)[2 * i + 1]);
    }
}

fn hex_char(v: u8) -> (c: char)
    requires
        v < 16,
    ensures
        c == hex_digit(v as int),
{
    if v < 10 {
        (v + 48) as char
    } else {
        (v + 87) as char
    }
}

/// Encodes bytes as lowercase hexadecimal.
pub fn to_hex(data: &[u8]) -> (out: String)
    ensures
        out@ == hex_lower(data@),
{
    let mut out = String::new();
    let mut i: usize = 0;
    while i < data.len()
        invariant
            i <= data@.len(),
            out@ == hex_lower(data@.take(i as int)),
        decreases data@.len() - i,
    {
        let b = data[i];
        push_char(&mut out, hex_char(b / 16));
        push_char(&mut out, hex_char(b % 16));
        assert(data@.take(i + 1).drop_last() == data@.take(i as int));
        i = i + 1;
    }
    assert(data@.take(data@.len() as int) == data@);
    out
}

/// The decimal digit of a value below 10.
pub open spec fn decimal_digit(v: int) -> char {
    (v + 48) as char
}

/// Decimal notation of a natural number, without leading zeros (what the
/// `Display` of an unsigned integer produces).
pub open spec fn decimal(n: nat) -> Seq<char>
    decreases n,
{
    if n < 10 {
        seq![decimal_digit(n as int)]
    } else {
        decimal(n / 10) + seq![decimal_digit((n % 10) as int)]
    }
}

/// The number that a string of decimal digits denotes.
pub open spec fn digits_value(s: Seq<char>) -> int
    decreases s.len(),
{
    if s.len() == 0 {
        0
    } else {
        10 * digits_value(s.drop_last()) + (s.last() as u32 - 48)
    }
}

/// The decimal notation of `n` is made of the digits `0`-`9`, denotes `n`,
/// and starts with `0` only for zero itself.
pub proof fn lemma_decimal_denotes(n: nat)
    ensures
        decimal(n).len() >= 1,
        forall|i: int| 0 <= i < decimal(n).len() ==> '0' <= #[trigger] decimal(n)[i] <= '9',
        digits_value(decimal(n)) == n,
        decimal(n)[0] == '0' ==> n == 0,
    decreases n,
{
    let d = decimal(n);
    if n < 10 {
        assert(d =~= seq![decimal_digit(n as int)]);
        assert(d.drop_last() =~= Seq::<char>::empty());
        assert(decimal_digit(n as int) as u32 == n + 48);
        assert(digits_value(d) == 10 * digits_value(d.drop_last()) + (d.last() as u32 - 48));
    } else {
        lemma_decimal_denotes(n / 10);
        let h = decimal(n / 10);
        assert(d == h + seq![decimal_digit((n % 10) as int)]);
        assert(d.drop_last() =~= h);
        assert(d.last() == decimal_digit((n % 10) as int));
        assert(decimal_digit((n % 10) as int) as u32 == n % 10 + 48);
        assert(digits_value(d) == 10 * digits_value(h) + (n % 10));
        assert(n == 10 * (n / 10) + n % 10);
        assert forall|i: int| 0 <= i < d.len() implies '0' <= #[trigger] d[i] <= '9' by {
            if i < h.len() {
                assert(d[i] == h[i]);
            }
        }
        assert(d[0] == h[0]);
    }
}

/// Renders an unsigned number in decimal.
pub fn to_decimal(n: u64) -> (out: String)
    ensures
        out@ == decimal(n as nat),
{
    let mut m = n;
    let mut tail: Vec<char> = Vec::new();
    while m >= 10
        invariant
            decimal(n as nat) == decimal(m as nat) + tail@,
        decreases m,
    {
        let d = ((m % 10) as u8 + 48) as char;
        tail.insert(0, d);
        proof {
            assert(decimal(m as nat) == decimal((m / 10) as nat) + seq![d]);
            assert(decimal(m as nat) + tail@.drop_first() == decimal((m / 10) as nat) + tail@);
        }
        m = m / 10;
    }
    let mut out = String::new();
    push_char(&mut out, ((m as u8) + 48) as char);
    let mut i: usize = 0;
    while i < tail.len()
        invariant
            i <= tail@.len(),
            out@ == seq![decimal_digit(m as int)] + tail@.take(i as int),
            decimal(n as nat) == decimal(m as nat) + tail@,
            m < 10,
        decreases tail@.len() - i,
    {
        push_char(&mut out, tail[i]);
        assert(tail@.take(i + 1) == tail@.take(i as int).push(tail@[i as int]));
        i = i + 1;
    }
    assert(tail@.take(tail@.len() as int) == tail@);
    out
}

/// The characters of a string slice, in order.
pub fn chars_of(s: &str) -> (v: Vec<char>)
    ensures
        v@ == s@,
{
    let mut v: Vec<char> = Vec::new();
    for c in it: s.chars()
        invariant
            v@ == it.seq().take(it.index() as int),
    {
        v.push(c);
    }
    v
}

/// A `String` holding the given characters.
pub fn string_of(chars: &Vec<char>) -> (out: String)
    ensures
        out@ == chars@,
{
    let mut out = String::new();
    let mut i: usize = 0;
    while i < chars.len()
        invariant
            i <= chars@.len(),
            out@ == chars@.take(i as int),
        decreases chars@.len() - i,
    {
        push_char(&mut out, chars[i]);
        assert(chars@.take(i + 1) == chars@.take(i as int).push(chars@[i as int]));
        i = i + 1;
    }
    assert(chars@.take(chars@.len() as int) == chars@);
    out
}

/// The texts joined one after another.
pub fn text_of(parts: &[&str]) -> (out: String)
    ensures
        out@ == concat_all(parts@),
{
    let mut out = String::new();
    let mut i: usize = 0;
    while i < parts.len()
        invariant
            i <= parts@.len(),
            out@ == concat_all(parts@.take(i as int)),
        decreases parts@.len() - i,
    {
        out.append(parts[i]);
        assert(parts@.take(i + 1).drop_last() == parts@.take(i as int));
        i = i + 1;
    }
    assert(parts@.take(parts@.len() as int) == parts@);
    out
}

/// The texts, one after another.
pub open spec fn concat_all(parts: Seq<&str>) -> Seq<char>
    decreases parts.len(),
{
    if parts.len() == 0 {
        seq![]
    } else {
        concat_all(parts.drop_last()) + parts.last()@
    }
}

/// Whether two texts are the same.
pub fn same_text(a: &str, b: &str) -> (r: bool)
    ensures
        r == (a@ == b@),
{
    let x = chars_of(a);
    let y = chars_of(b);
    if x.len() != y.len() {
        return false;
    }
    let mut i: usize = 0;
    while i < x.len()
        invariant
            x@ == a@,
            y@ == b@,
            x@.len() == y@.len(),
            i <= x@.len(),
            forall|k: int| 0 <= k < i ==> x@[k] == y@[k],
        decreases x@.len() - i,
    {
        if x[i] != y[i] {
            return false;
        }
        i = i + 1;
    }
    assert(x@ =~= y@);
    true
}

/// The text of an optional `String`.
pub open spec fn opt_text(o: Option<String>) -> Option<Seq<char>> {
    match o {
        Some(s) => Some(s@),
        None => None,
    }
}

} // verus!
