//! Hex colour strings: `#rgb` and `#rrggbb` read into channels, and channels
//! written back as `#rrggbb`.

use vstd::prelude::*;
use crate::text::{str_chars, chars_to_string, lit, slice_of, suffix};
use crate::syntax::strip_prefix;
use crate::pattern::{byte_offset, char_at_byte, char_at_byte_from, char_at_byte_exec, utf8_len, utf8_len_exec, lemma_byte_offset_mono};

verus! {

// ---------------------------------------------------------------------------
// Model
// ---------------------------------------------------------------------------

/// Value of a hexadecimal digit.
pub open spec fn hex_value(c: char) -> Option<nat> {
    if '0' <= c && c <= '9' {
        Some((c as u32 - '0' as u32) as nat)
    } else if 'a' <= c && c <= 'f' {
        Some((c as u32 - 'a' as u32 + 10) as nat)
    } else if 'A' <= c && c <= 'F' {
        Some((c as u32 - 'A' as u32 + 10) as nat)
    } else {
        None
    }
}

/// Value of the hexadecimal digits `d[..n]`, when they all are digits.
pub open spec fn hex_digits_value(d: Seq<char>, n: int) -> Option<nat>
    decreases n,
{
    if n <= 0 || n > d.len() {
        Some(0)
    } else {
        match (hex_digits_value(d, n - 1), hex_value(d[n - 1])) {
            (Some(v), Some(x)) => Some(v * 16 + x),
            _ => None,
        }
    }
}

/// `u8::from_str_radix(s, 16)`: an optional `+`, then at least one hexadecimal
/// digit, with a value that fits in a byte.
pub open spec fn radix16_u8(s: Seq<char>) -> Option<u8> {
    let d = if s.len() > 0 && s[0] == '+' { s.skip(1) } else { s };
    if d.len() == 0 {
        None
    } else {
        match hex_digits_value(d, d.len() as int) {
            Some(v) => if v <= 255 { Some(v as u8) } else { None },
            None => None,
        }
    }
}

/// Byte length, in UTF-8, of `s`.
pub open spec fn byte_len(s: Seq<char>) -> nat {
    byte_offset(s, s.len() as int)
}

/// Whether cutting the digits of a `#` colour at the byte offsets where its
/// channels start falls between characters (cutting inside one panics).
pub open spec fn hex_cuts_ok(color: Seq<char>) -> bool {
    match strip_prefix(color, "#"@) {
        None => true,
        Some(h) => if byte_len(h) == 3 {
            char_at_byte(h, 1) is Some && char_at_byte(h, 2) is Some
        } else if byte_len(h) == 6 {
            char_at_byte(h, 2) is Some && char_at_byte(h, 4) is Some
        } else {
            true
        },
    }
}

/// The characters of `h` between byte offsets `a` and `b`.
pub open spec fn byte_slice(h: Seq<char>, a: int, b: int) -> Seq<char> {
    h.subrange(char_at_byte(h, a)->0, char_at_byte(h, b)->0)
}

/// Channels of `#rgb` (each digit doubled) or `#rrggbb`; `None` for any other
/// length, a channel that does not read, or channel cuts that would fall inside
/// a character.
pub open spec fn hex_rgb(color: Seq<char>) -> Option<(u8, u8, u8)> {
    match strip_prefix(color, "#"@) {
        None => None,
        Some(h) => if !hex_cuts_ok(color) { None } else {
            let parts = if byte_len(h) == 3 {
                Some((byte_slice(h, 0, 1) + byte_slice(h, 0, 1), byte_slice(h, 1, 2) + byte_slice(h, 1, 2),
                    byte_slice(h, 2, 3) + byte_slice(h, 2, 3)))
            } else if byte_len(h) == 6 {
                Some((byte_slice(h, 0, 2), byte_slice(h, 2, 4), byte_slice(h, 4, 6)))
            } else {
                None
            };
            match parts {
                Some((a, b, c)) => match (radix16_u8(a), radix16_u8(b), radix16_u8(c)) {
                    (Some(r), Some(g), Some(bl)) => Some((r, g, bl)),
                    _ => None,
                },
                None => None,
            }
        },
    }
}

/// Lower-case hexadecimal digit of `d < 16`.
pub open spec fn hex_digit(d: nat) -> char {
    if d < 10 { ((d + '0' as u32) as u32) as char } else { ((d - 10 + 'a' as u32) as u32) as char }
}

/// Two lower-case hexadecimal digits of a byte.
pub open spec fn hex_pair(v: u8) -> Seq<char> {
    seq![hex_digit(v as nat / 16), hex_digit(v as nat % 16)]
}

/// `#rrggbb` in lower case.
pub open spec fn to_hex_text(r: u8, g: u8, b: u8) -> Seq<char> {
    seq!['#'] + hex_pair(r) + hex_pair(g) + hex_pair(b)
}

// ---------------------------------------------------------------------------
// Code
// ---------------------------------------------------------------------------

fn hex_value_exec(c: char) -> (r: Option<u32>)
    ensures
        match r {
            Some(v) => hex_value(c) == Some(v as nat) && v < 16,
            None => hex_value(c) is None,
        },
{
    if '0' <= c && c <= '9' {
        Some(c as u32 - '0' as u32)
    } else if 'a' <= c && c <= 'f' {
        Some(c as u32 - 'a' as u32 + 10)
    } else if 'A' <= c && c <= 'F' {
        Some(c as u32 - 'A' as u32 + 10)
    } else {
        None
    }
}

proof fn lemma_hex_digits_grow(d: Seq<char>, n: int)
    requires
        0 <= n <= d.len(),
        hex_digits_value(d, n) is Some,
    ensures
        forall|m: int| 0 <= m <= n ==> (#[trigger] hex_digits_value(d, m)) is Some && hex_digits_value(d, m)->0 <= hex_digits_value(d, n)->0,
    decreases n,
{
    if n > 0 {
        lemma_hex_digits_grow(d, n - 1);
    }
}

/// `u8::from_str_radix(s, 16)`.
pub fn radix16_u8_exec(s: &Vec<char>) -> (r: Option<u8>)
    ensures
        r == radix16_u8(s@),
{
    let d = if s.len() > 0 && s[0] == '+' {
        let t = suffix(s, 1);
        assert(t@ =~= s@.skip(1));
        t
    } else {
        slice_of(s, 0, s.len())
    };
    assert(s.len() == 0 || s[0] != '+' ==> d@ =~= s@);
    assert(d@ == (if s@.len() > 0 && s@[0] == '+' { s@.skip(1) } else { s@ }));
    if d.len() == 0 {
        return None;
    }
    let mut v: u32 = 0;
    let mut i: usize = 0;
    while i < d.len()
        invariant
            i <= d@.len(),
            d@.len() > 0,
            d@ == (if s@.len() > 0 && s@[0] == '+' { s@.skip(1) } else { s@ }),
            hex_digits_value(d@, i as int) == Some(v as nat),
            v <= 255,
        decreases d@.len() - i,
    {
        match hex_value_exec(d[i]) {
            Some(x) => {
                let nv = v * 16 + x;
                if nv > 255 {
                    proof {
                        if hex_digits_value(d@, d@.len() as int) is Some {
                            lemma_hex_digits_grow(d@, d@.len() as int);
                            assert(hex_digits_value(d@, i + 1) == Some(nv as nat));
                            assert(hex_digits_value(d@, d@.len() as int)->0 > 255);
                        }
                    }
                    return None;
                }
                v = nv;
            },
            None => {
                proof {
                    assert(hex_digits_value(d@, i + 1) is None);
                    if hex_digits_value(d@, d@.len() as int) is Some {
                        lemma_hex_digits_grow(d@, d@.len() as int);
                        assert(false);
                    }
                }
                return None;
            },
        }
        i += 1;
    }
    Some(v as u8)
}

/// Byte length, in UTF-8, of `s`.
fn byte_len_exec(s: &Vec<char>) -> (r: usize)
    requires
        4 * s@.len() <= usize::MAX,
    ensures
        r == byte_len(s@),
{
    let mut n: usize = 0;
    let mut i: usize = 0;
    while i < s.len()
        invariant
            i <= s@.len(),
            4 * s@.len() <= usize::MAX,
            n == byte_offset(s@, i as int),
            n <= 4 * i,
        decreases s@.len() - i,
    {
        n = n + utf8_len_exec(s[i]) as usize;
        i += 1;
    }
    n
}

/// The characters of `h` between two byte offsets that fall between characters.
fn byte_slice_exec(h: &Vec<char>, a: usize, b: usize) -> (r: Vec<char>)
    requires
        char_at_byte(h@, a as int) is Some,
        char_at_byte(h@, b as int) is Some,
        a <= b,
    ensures
        r@ == byte_slice(h@, a as int, b as int),
{
    let i = char_at_byte_exec(h, a).unwrap();
    let j = char_at_byte_exec(h, b).unwrap();
    proof {
        crate::pattern::lemma_char_at_byte_from(h@, a as int, 0);
        crate::pattern::lemma_char_at_byte_from(h@, b as int, 0);
        if i > j {
            lemma_byte_offset_mono(h@, j as int, i as int);
        }
    }
    slice_of(h, i, j)
}

fn doubled(p: Vec<char>) -> (r: Vec<char>)
    ensures
        r@ == p@ + p@,
{
    let mut r = crate::text::copy_chars(&p);
    crate::text::append_chars(&mut r, &p);
    r
}

proof fn lemma_offsets_grow(h: Seq<char>, k: int)
    requires
        0 <= k <= h.len(),
    ensures
        k < h.len() ==> byte_offset(h, k) < byte_len(h),
        char_at_byte_from(h, byte_len(h) as int, k) == Some(h.len() as int),
    decreases h.len() - k,
{
    if k < h.len() {
        lemma_offsets_grow(h, k + 1);
        lemma_byte_offset_mono(h, k, k + 1);
        lemma_byte_offset_mono(h, k + 1, h.len() as int);
    }
}

proof fn lemma_cut_at_start_and_end(h: Seq<char>)
    ensures
        char_at_byte(h, 0) == Some(0int),
        char_at_byte(h, byte_len(h) as int) == Some(h.len() as int),
{
    lemma_offsets_grow(h, 0);
}

/// Channels of a `#rgb` or `#rrggbb` colour.
pub fn hex_rgb_exec(color: &str) -> (r: Option<(u8, u8, u8)>)
    requires
        4 * color@.len() <= usize::MAX,
    ensures
        r == hex_rgb(color@),
{
    let s = str_chars(color);
    let hash = lit("#");
    match crate::syntax::strip_prefix_exec(&s, &hash) {
        None => None,
        Some(h) => {
            proof {
                reveal_strlit("#");
            }
            let n = byte_len_exec(&h);
            proof {
                lemma_cut_at_start_and_end(h@);
            }
            if n == 3 && (char_at_byte_exec(&h, 1).is_none() || char_at_byte_exec(&h, 2).is_none()) {
                return None;
            }
            if n == 6 && (char_at_byte_exec(&h, 2).is_none() || char_at_byte_exec(&h, 4).is_none()) {
                return None;
            }
            let parts = if n == 3 {
                let a = byte_slice_exec(&h, 0, 1);
                let b = byte_slice_exec(&h, 1, 2);
                let c = byte_slice_exec(&h, 2, 3);
                Some((doubled(a), doubled(b), doubled(c)))
            } else if n == 6 {
                Some((byte_slice_exec(&h, 0, 2), byte_slice_exec(&h, 2, 4), byte_slice_exec(&h, 4, 6)))
            } else {
                None
            };
            match parts {
                Some((a, b, c)) => match (radix16_u8_exec(&a), radix16_u8_exec(&b), radix16_u8_exec(&c)) {
                    (Some(r), Some(g), Some(bl)) => Some((r, g, bl)),
                    _ => None,
                },
                None => None,
            }
        },
    }
}

fn hex_digit_exec(d: u8) -> (c: char)
    requires
        d < 16,
    ensures
        c == hex_digit(d as nat),
{
    if d < 10 {
        (d + 48) as char
    } else {
        (d - 10 + 97) as char
    }
}

/// `#rrggbb`, lower case.
pub fn to_hex(r: u8, g: u8, b: u8) -> (s: String)
    ensures
        s@ == to_hex_text(r, g, b),
{
    let mut v: Vec<char> = Vec::new();
    v.push('#');
    v.push(hex_digit_exec(r / 16));
    v.push(hex_digit_exec(r % 16));
    v.push(hex_digit_exec(g / 16));
    v.push(hex_digit_exec(g % 16));
    v.push(hex_digit_exec(b / 16));
    v.push(hex_digit_exec(b % 16));
    assert(v@ =~= to_hex_text(r, g, b));
    chars_to_string(&v)
}

proof fn lemma_ascii_offsets(h: Seq<char>, k: int)
    requires
        0 <= k <= h.len(),
        forall|i: int| 0 <= i < h.len() ==> (h[i] as u32) < 0x80,
    ensures
        byte_offset(h, k) == k,
    decreases k,
{
    if k > 0 {
        lemma_ascii_offsets(h, k - 1);
    }
}

proof fn lemma_ascii_cut(h: Seq<char>, b: int, k: int)
    requires
        0 <= k <= b <= h.len(),
        forall|i: int| 0 <= i < h.len() ==> (h[i] as u32) < 0x80,
    ensures
        char_at_byte_from(h, b, k) == Some(b),
    decreases b - k,
{
    lemma_ascii_offsets(h, k);
    if k < b {
        lemma_ascii_cut(h, b, k + 1);
    }
}

proof fn lemma_pair_reads(v: u8)
    ensures
        radix16_u8(hex_pair(v)) == Some(v),
{
    let p = hex_pair(v);
    let hi = v as nat / 16;
    let lo = v as nat % 16;
    assert(hex_value(hex_digit(hi)) == Some(hi));
    assert(hex_value(hex_digit(lo)) == Some(lo));
    assert(p[0] != '+');
    assert(hex_digits_value(p, 0) == Some(0nat));
    assert(hex_digits_value(p, 1) == Some(hi));
    assert(hex_digits_value(p, 2) == Some(hi * 16 + lo));
}

/// Reading back what `to_hex` writes gives the same channels.
pub proof fn law_hex_round_trip(r: u8, g: u8, b: u8)
    ensures
        hex_rgb(to_hex_text(r, g, b)) == Some((r, g, b)),
        hex_cuts_ok(to_hex_text(r, g, b)),
{
    let t = to_hex_text(r, g, b);
    reveal_strlit("#");
    assert("#"@ =~= seq!['#']);
    assert(t.subrange(0, 1) =~= "#"@);
    assert(crate::text::starts_with(t, "#"@));
    let h = t.skip(1);
    assert(strip_prefix(t, "#"@) == Some(h));
    assert(h =~= hex_pair(r) + hex_pair(g) + hex_pair(b));
    assert forall|i: int| 0 <= i < h.len() implies (h[i] as u32) < 0x80 by {
        assert(h[i] == hex_digit(if i % 2 == 0 { (if i < 2 { r } else if i < 4 { g } else { b }) as nat / 16 }
            else { (if i < 2 { r } else if i < 4 { g } else { b }) as nat % 16 }));
    }
    lemma_ascii_offsets(h, 6);
    lemma_ascii_cut(h, 0, 0);
    lemma_ascii_cut(h, 2, 0);
    lemma_ascii_cut(h, 4, 0);
    lemma_ascii_cut(h, 6, 0);
    assert(byte_slice(h, 0, 2) =~= hex_pair(r));
    assert(byte_slice(h, 2, 4) =~= hex_pair(g));
    assert(byte_slice(h, 4, 6) =~= hex_pair(b));
    lemma_pair_reads(r);
    lemma_pair_reads(g);
    lemma_pair_reads(b);
}

// ---------------------------------------------------------------------------
// Canvas colours: `#rgb`, `#rrggbb`, `#rrggbbaa` and `rgb(r, g, b)`
// ---------------------------------------------------------------------------

/// Whether every character of `h` is a hexadecimal digit.
pub open spec fn all_hex(h: Seq<char>) -> bool {
    forall|i: int| 0 <= i < h.len() ==> (#[trigger] hex_value(h[i])) is Some
}

/// Digit value at `i`, for a sequence of hexadecimal digits.
pub open spec fn digit_at(h: Seq<char>, i: int) -> nat {
    hex_value(h[i])->0
}

/// The byte made of the digits at `i` and `i + 1`.
pub open spec fn pair_at(h: Seq<char>, i: int) -> u8 {
    (digit_at(h, i) * 16 + digit_at(h, i + 1)) as u8
}

/// Channels of the hexadecimal part of a colour (after `#`): three bytes give
/// each digit doubled, six give pairs, eight give pairs with the last one as
/// the alpha; the alpha is 255 otherwise. Any other byte length, or a byte that
/// is not a hexadecimal digit, reads as nothing (so do pair cuts inside a character).
pub open spec fn hex_rgba(h: Seq<char>) -> Option<(u8, u8, u8, u8)> {
    let n = byte_len(h);
    if (n == 3 || n == 6 || n == 8) && h.len() == n && all_hex(h) && hex_pairs_cut_ok(h) {
        if n == 3 {
            Some(((digit_at(h, 0) * 17) as u8, (digit_at(h, 1) * 17) as u8, (digit_at(h, 2) * 17) as u8, 255u8))
        } else {
            Some((pair_at(h, 0), pair_at(h, 2), pair_at(h, 4), if n == 8 { pair_at(h, 6) } else { 255u8 }))
        }
    } else {
        None
    }
}

/// Whether the byte pairs of a six- or eight-byte hexadecimal part can be cut
/// out (cutting inside a character panics).
pub open spec fn hex_pairs_cut_ok(h: Seq<char>) -> bool {
    let n = byte_len(h);
    (n == 6 || n == 8) ==> (char_at_byte(h, 2) is Some && char_at_byte(h, 4) is Some
        && (n == 8 ==> char_at_byte(h, 6) is Some))
}

/// `u8::from_str`: an optional `+`, then decimal digits with a value below 256.
pub open spec fn parse_u8(t: Seq<char>) -> Option<u8> {
    match crate::numeric::parse_index(t) {
        Some(v) => if v <= 255 { Some(v as u8) } else { None },
        None => None,
    }
}

/// Channels of the inside of `rgb(...)`: exactly three comma-separated
/// integers from 0 to 255, blanks around each allowed.
pub open spec fn rgb_channels(s: Seq<char>) -> Option<(u8, u8, u8)> {
    let parts = crate::text::split_char(s, ',');
    if parts.len() != 3 {
        None
    } else {
        match (parse_u8(crate::text::trim(parts[0])), parse_u8(crate::text::trim(parts[1])), parse_u8(crate::text::trim(parts[2]))) {
            (Some(r), Some(g), Some(b)) => Some((r, g, b)),
            _ => None,
        }
    }
}

/// Reads the hexadecimal part of a canvas colour (after `#`) as RGBA.
pub fn parse_hex(hex: &str) -> (r: Option<(u8, u8, u8, u8)>)
    requires
        4 * hex@.len() <= usize::MAX,
    ensures
        r == hex_rgba(hex@),
{
    let h = str_chars(hex);
    let n = byte_len_exec(&h);
    if !(n == 3 || n == 6 || n == 8) || h.len() != n {
        return None;
    }
    let mut ds: Vec<u32> = Vec::new();
    let mut i: usize = 0;
    while i < h.len()
        invariant
            i <= h@.len(),
            h@ == hex@,
            n == byte_len(hex@),
            (n == 3 || n == 6 || n == 8) && h@.len() == n,
            ds@.len() == i,
            forall|k: int| 0 <= k < i ==> (#[trigger] hex_value(h@[k])) == Some(ds@[k] as nat) && ds@[k] < 16,
        decreases h@.len() - i,
    {
        match hex_value_exec(h[i]) {
            Some(v) => ds.push(v),
            None => {
                assert(!all_hex(h@));
                return None;
            },
        }
        i += 1;
    }
    assert(all_hex(h@));
    assert forall|k: int| 0 <= k < h@.len() implies (h@[k] as u32) < 0x80 by {
        assert(hex_value(h@[k]) is Some);
    }
    if n >= 6 {
        proof {
            lemma_ascii_cut(h@, 2, 0);
            lemma_ascii_cut(h@, 4, 0);
            lemma_ascii_cut(h@, 6, 0);
        }
    }
    assert(hex_pairs_cut_ok(h@));
    assert forall|k: int| 0 <= k < h@.len() implies digit_at(h@, k) == ds@[k] as nat by {
        assert(hex_value(h@[k]) == Some(ds@[k] as nat));
    }
    if n == 3 {
        Some(((ds[0] * 17) as u8, (ds[1] * 17) as u8, (ds[2] * 17) as u8, 255u8))
    } else {
        let a = if n == 8 { (ds[6] * 16 + ds[7]) as u8 } else { 255u8 };
        Some(((ds[0] * 16 + ds[1]) as u8, (ds[2] * 16 + ds[3]) as u8, (ds[4] * 16 + ds[5]) as u8, a))
    }
}

/// `u8::from_str`.
fn parse_u8_exec(t: &Vec<char>) -> (r: Option<u8>)
    ensures
        r == parse_u8(t@),
{
    match crate::numeric::parse_index_exec(t) {
        Some(v) => if v <= 255 { Some(v as u8) } else { None },
        None => None,
    }
}

/// Reads the inside of `rgb(...)` as three channels.
pub fn parse_rgb(s: &str) -> (r: Option<(u8, u8, u8)>)
    ensures
        r == rgb_channels(s@),
{
    let v = str_chars(s);
    let parts = crate::text::split_char_exec(&v, ',');
    if parts.len() != 3 {
        return None;
    }
    assert(parts@[0]@ == crate::text::views(parts@)[0]);
    assert(parts@[1]@ == crate::text::views(parts@)[1]);
    assert(parts@[2]@ == crate::text::views(parts@)[2]);
    let r = parse_u8_exec(&crate::text::trim_chars(&parts[0]));
    let g = parse_u8_exec(&crate::text::trim_chars(&parts[1]));
    let b = parse_u8_exec(&crate::text::trim_chars(&parts[2]));
    match (r, g, b) {
        (Some(r), Some(g), Some(b)) => Some((r, g, b)),
        _ => None,
    }
}

} // verus!
