//! Encoding mutators: base64, rot13, hex, percent-encoding and homoglyphs.
use vstd::prelude::*;

use super::{single_variant, MutatedPrompt, Mutator, MutatorFamily};
use crate::text::{chars_of, is_ascii_alnum, is_ascii_lower, is_ascii_upper, push_char};

verus! {

// ── Base64 (RFC 4648, standard alphabet, with padding) ──────────────────────

/// The base64 alphabet: `A-Z`, `a-z`, `0-9`, `+`, `/`.
pub open spec fn base64_digit(n: u8) -> char {
    if n < 26 {
        ((n + 65) as u32) as char
    } else if n < 52 {
        ((n + 71) as u32) as char
    } else if n < 62 {
        ((n - 4) as u32) as char
    } else if n == 62 {
        '+'
    } else {
        '/'
    }
}

/// Base64 encoding of `b`: each group of three bytes becomes four digits;
/// a final group of one or two bytes is padded with `=`.
pub open spec fn base64_spec(b: Seq<u8>) -> Seq<char>
    decreases b.len(),
{
    if b.len() == 0 {
        seq![]
    } else if b.len() == 1 {
        seq![base64_digit(b[0] >> 2), base64_digit((b[0] & 3) << 4), '=', '=']
    } else if b.len() == 2 {
        seq![
            base64_digit(b[0] >> 2),
            base64_digit(((b[0] & 3) << 4) | (b[1] >> 4)),
            base64_digit((b[1] & 15) << 2),
            '=',
        ]
    } else {
        seq![
            base64_digit(b[0] >> 2),
            base64_digit(((b[0] & 3) << 4) | (b[1] >> 4)),
            base64_digit(((b[1] & 15) << 2) | (b[2] >> 6)),
            base64_digit(b[2] & 63),
        ] + base64_spec(b.skip(3))
    }
}

fn b64(n: u8) -> (c: char)
    requires
        n < 64,
    ensures
        c == base64_digit(n),
{
    if n < 26 {
        (n + 65) as char
    } else if n < 52 {
        (n + 71) as char
    } else if n < 62 {
        (n - 4) as char
    } else if n == 62 {
        '+'
    } else {
        '/'
    }
}

/// Base64 of `input` (standard alphabet, `=` padding).
pub fn base64_encode(input: &[u8]) -> (r: String)
    ensures
        r@ == base64_spec(input@),
{
    let n = input.len();
    let mut out = String::new();
    let mut i: usize = 0;
    assert(input@.skip(0) =~= input@);
    while n - i >= 3
        invariant
            n == input@.len(),
            i <= n,
            out@ + base64_spec(input@.skip(i as int)) == base64_spec(input@),
        decreases n - i,
    {
        let b0 = input[i];
        let b1 = input[i + 1];
        let b2 = input[i + 2];
        assert(b0 >> 2 < 64 && ((b0 & 3) << 4) | (b1 >> 4) < 64 && ((b1 & 15) << 2) | (b2 >> 6)
            < 64 && b2 & 63 < 64) by (bit_vector);
        let ghost rest = input@.skip(i as int);
        push_char(&mut out, b64(b0 >> 2));
        push_char(&mut out, b64(((b0 & 3) << 4) | (b1 >> 4)));
        push_char(&mut out, b64(((b1 & 15) << 2) | (b2 >> 6)));
        push_char(&mut out, b64(b2 & 63));
        assert(rest.skip(3) =~= input@.skip(i + 3));
        assert(rest[0] == b0 && rest[1] == b1 && rest[2] == b2);
        i += 3;
    }
    let ghost rest = input@.skip(i as int);
    if n - i == 1 {
        let b0 = input[i];
        assert(b0 >> 2 < 64 && (b0 & 3) << 4 < 64) by (bit_vector);
        push_char(&mut out, b64(b0 >> 2));
        push_char(&mut out, b64((b0 & 3) << 4));
        push_char(&mut out, '=');
        push_char(&mut out, '=');
        assert(rest[0] == b0);
    } else if n - i == 2 {
        let b0 = input[i];
        let b1 = input[i + 1];
        assert(b0 >> 2 < 64 && ((b0 & 3) << 4) | (b1 >> 4) < 64 && (b1 & 15) << 2 < 64)
            by (bit_vector);
        push_char(&mut out, b64(b0 >> 2));
        push_char(&mut out, b64(((b0 & 3) << 4) | (b1 >> 4)));
        push_char(&mut out, b64((b1 & 15) << 2));
        push_char(&mut out, '=');
        assert(rest[0] == b0 && rest[1] == b1);
    }
    assert(out@ =~= base64_spec(input@));
    out
}

pub struct Base64;

impl Mutator for Base64 {
    open spec fn spec_id(&self) -> Seq<char> {
        "encoding.base64"@
    }

    open spec fn spec_family(&self) -> MutatorFamily {
        MutatorFamily::Encoding
    }

    /// One variant: the base64 of the seed's UTF-8 bytes.
    open spec fn spec_mutate(&self, seed: Seq<char>) -> Seq<(Seq<char>, Seq<char>)> {
        seq![(base64_spec(vstd::utf8::encode_utf8(seed)), "encoding.base64"@)]
    }

    open spec fn spec_accepts(&self, seed: Seq<char>) -> bool {
        true
    }

    fn id(&self) -> (r: &'static str) {
        "encoding.base64"
    }

    fn family(&self) -> (r: MutatorFamily) {
        MutatorFamily::Encoding
    }

    fn mutate(&self, seed: &str) -> (r: Vec<MutatedPrompt>) {
        single_variant(base64_encode(seed.as_bytes()), self.id())
    }
}

// ── Rot13 ────────────────────────────────────────────────────────────────────

/// Rotates ASCII letters by 13 places within their case; other characters
/// are unchanged.
pub open spec fn rot13_char(c: char) -> char {
    if is_ascii_lower(c) {
        ((((c as u32) - 97 + 13) % 26) + 97) as char
    } else if is_ascii_upper(c) {
        ((((c as u32) - 65 + 13) % 26) + 65) as char
    } else {
        c
    }
}

pub open spec fn rot13_spec(s: Seq<char>) -> Seq<char> {
    s.map_values(|c: char| rot13_char(c))
}

fn rot13(c: char) -> (r: char)
    ensures
        r == rot13_char(c),
{
    if 'a' <= c && c <= 'z' {
        let b = c as u8;
        (((b - 97 + 13) % 26) + 97) as char
    } else if 'A' <= c && c <= 'Z' {
        let b = c as u8;
        (((b - 65 + 13) % 26) + 65) as char
    } else {
        c
    }
}

pub struct Rot13;

impl Mutator for Rot13 {
    open spec fn spec_id(&self) -> Seq<char> {
        "encoding.rot13"@
    }

    open spec fn spec_family(&self) -> MutatorFamily {
        MutatorFamily::Encoding
    }

    open spec fn spec_mutate(&self, seed: Seq<char>) -> Seq<(Seq<char>, Seq<char>)> {
        seq![(rot13_spec(seed), "encoding.rot13"@)]
    }

    open spec fn spec_accepts(&self, seed: Seq<char>) -> bool {
        true
    }

    fn id(&self) -> (r: &'static str) {
        "encoding.rot13"
    }

    fn family(&self) -> (r: MutatorFamily) {
        MutatorFamily::Encoding
    }

    fn mutate(&self, seed: &str) -> (r: Vec<MutatedPrompt>) {
        let v = chars_of(seed);
        let mut text = String::new();
        let mut i: usize = 0;
        while i < v.len()
            invariant
                i <= v.len(),
                v@ == seed@,
                text@ == rot13_spec(seed@.take(i as int)),
            decreases v.len() - i,
        {
            push_char(&mut text, rot13(v[i]));
            assert(rot13_spec(seed@.take(i + 1)) =~= rot13_spec(seed@.take(i as int)).push(
                rot13_char(seed@[i as int]),
            ));
            i += 1;
        }
        assert(seed@.take(v.len() as int) =~= seed@);
        single_variant(text, self.id())
    }
}

/// Applying rot13 twice gives the original text back.
pub proof fn lemma_rot13_involution(s: Seq<char>)
    ensures
        rot13_spec(rot13_spec(s)) == s,
{
    assert forall|i: int| 0 <= i < s.len() implies #[trigger] rot13_char(rot13_char(s[i]))
        == s[i] by {
        let c = s[i];
        if is_ascii_lower(c) {
            assert(is_ascii_lower(rot13_char(c)));
        } else if is_ascii_upper(c) {
            assert(is_ascii_upper(rot13_char(c)));
        }
    }
    assert(rot13_spec(rot13_spec(s)) =~= s);
}

/// ROT13 rotates every ASCII letter 13 places round its own case's
/// alphabet, so no letter stays itself and the case is kept; every other
/// character is left as it is.
pub proof fn lemma_rot13_rotates_letters(s: Seq<char>)
    ensures
        rot13_spec(s).len() == s.len(),
        forall|i: int|
            0 <= i < s.len() ==> {
                let c = s[i];
                let d = #[trigger] rot13_spec(s)[i];
                &&& is_ascii_lower(c) ==> is_ascii_lower(d) && d != c && ((d as int) - (c as int)) % 26 == 13
                &&& is_ascii_upper(c) ==> is_ascii_upper(d) && d != c && ((d as int) - (c as int)) % 26 == 13
                &&& !is_ascii_lower(c) && !is_ascii_upper(c) ==> d == c
            },
{
    assert forall|i: int| 0 <= i < s.len() implies {
        let c = s[i];
        let d = #[trigger] rot13_spec(s)[i];
        &&& is_ascii_lower(c) ==> is_ascii_lower(d) && d != c && ((d as int) - (c as int)) % 26 == 13
        &&& is_ascii_upper(c) ==> is_ascii_upper(d) && d != c && ((d as int) - (c as int)) % 26 == 13
        &&& !is_ascii_lower(c) && !is_ascii_upper(c) ==> d == c
    } by {
        let c = s[i];
        let d = rot13_spec(s)[i];
        assert(d == rot13_char(c));
        if is_ascii_lower(c) {
            let x = ((c as u32) - 97 + 13) % 26 + 97;
            assert(97 <= x < 123);
        } else if is_ascii_upper(c) {
            let x = ((c as u32) - 65 + 13) % 26 + 65;
            assert(65 <= x < 91);
        }
    }
}

// ── Hex ──────────────────────────────────────────────────────────────────────

/// Lower-case hexadecimal digit for `n < 16`.
pub open spec fn hex_lower(n: u8) -> char {
    if n < 10 {
        ((n + 48) as u32) as char
    } else {
        ((n + 87) as u32) as char
    }
}

/// Upper-case hexadecimal digit for `n < 16`.
pub open spec fn hex_upper(n: u8) -> char {
    if n < 10 {
        ((n + 48) as u32) as char
    } else {
        ((n + 55) as u32) as char
    }
}

/// Two lower-case hex digits per byte (`format!("{b:02x}")`).
pub open spec fn hex_spec(b: Seq<u8>) -> Seq<char>
    decreases b.len(),
{
    if b.len() == 0 {
        seq![]
    } else {
        seq![hex_lower(b[0] >> 4), hex_lower(b[0] & 15)] + hex_spec(b.drop_first())
    }
}

pub fn hex_digit_lower(n: u8) -> (c: char)
    requires
        n < 16,
    ensures
        c == hex_lower(n),
{
    if n < 10 {
        (n + 48) as char
    } else {
        (n + 87) as char
    }
}

pub fn hex_digit_upper(n: u8) -> (c: char)
    requires
        n < 16,
    ensures
        c == hex_upper(n),
{
    if n < 10 {
        (n + 48) as char
    } else {
        (n + 55) as char
    }
}

/// Lower-case hex of `input`, two digits per byte.
pub fn hex_encode(input: &[u8]) -> (r: String)
    ensures
        r@ == hex_spec(input@),
{
    let n = input.len();
    let mut out = String::new();
    let mut i: usize = 0;
    assert(input@.skip(0) =~= input@);
    while i < n
        invariant
            n == input@.len(),
            i <= n,
            out@ + hex_spec(input@.skip(i as int)) == hex_spec(input@),
        decreases n - i,
    {
        let b = input[i];
        assert(b >> 4 < 16 && b & 15 < 16) by (bit_vector);
        let ghost rest = input@.skip(i as int);
        push_char(&mut out, hex_digit_lower(b >> 4));
        push_char(&mut out, hex_digit_lower(b & 15));
        assert(rest.drop_first() =~= input@.skip(i + 1));
        i += 1;
    }
    assert(input@.skip(n as int) =~= Seq::<u8>::empty());
    assert(out@ =~= hex_spec(input@));
    out
}

pub struct Hex;

impl Mutator for Hex {
    open spec fn spec_id(&self) -> Seq<char> {
        "encoding.hex"@
    }

    open spec fn spec_family(&self) -> MutatorFamily {
        MutatorFamily::Encoding
    }

    open spec fn spec_mutate(&self, seed: Seq<char>) -> Seq<(Seq<char>, Seq<char>)> {
        seq![(hex_spec(vstd::utf8::encode_utf8(seed)), "encoding.hex"@)]
    }

    open spec fn spec_accepts(&self, seed: Seq<char>) -> bool {
        true
    }

    fn id(&self) -> (r: &'static str) {
        "encoding.hex"
    }

    fn family(&self) -> (r: MutatorFamily) {
        MutatorFamily::Encoding
    }

    fn mutate(&self, seed: &str) -> (r: Vec<MutatedPrompt>) {
        single_variant(hex_encode(seed.as_bytes()), self.id())
    }
}

// ── Percent-encoding ─────────────────────────────────────────────────────────

/// RFC 3986 unreserved bytes: ASCII letters and digits, `-`, `_`, `.`, `~`.
pub open spec fn is_unreserved(b: u8) -> bool {
    is_ascii_alnum((b as u32) as char) || b == 45 || b == 95 || b == 46 || b == 126
}

/// Unreserved bytes pass through; every other byte becomes `%XX` with
/// upper-case hex digits.
pub open spec fn url_spec(b: Seq<u8>) -> Seq<char>
    decreases b.len(),
{
    if b.len() == 0 {
        seq![]
    } else if is_unreserved(b[0]) {
        seq![(b[0] as u32) as char] + url_spec(b.drop_first())
    } else {
        seq!['%', hex_upper(b[0] >> 4), hex_upper(b[0] & 15)] + url_spec(b.drop_first())
    }
}

pub fn url_encode(input: &[u8]) -> (r: String)
    ensures
        r@ == url_spec(input@),
{
    let n = input.len();
    let mut out = String::new();
    let mut i: usize = 0;
    assert(input@.skip(0) =~= input@);
    while i < n
        invariant
            n == input@.len(),
            i <= n,
            out@ + url_spec(input@.skip(i as int)) == url_spec(input@),
        decreases n - i,
    {
        let b = input[i];
        let ghost rest = input@.skip(i as int);
        let unreserved = (b >= 48 && b <= 57) || (b >= 65 && b <= 90) || (b >= 97 && b <= 122)
            || b == 45 || b == 95 || b == 46 || b == 126;
        assert(unreserved == is_unreserved(b));
        if unreserved {
            push_char(&mut out, b as char);
        } else {
            assert(b >> 4 < 16 && b & 15 < 16) by (bit_vector);
            push_char(&mut out, '%');
            push_char(&mut out, hex_digit_upper(b >> 4));
            push_char(&mut out, hex_digit_upper(b & 15));
        }
        assert(rest.drop_first() =~= input@.skip(i + 1));
        i += 1;
    }
    assert(input@.skip(n as int) =~= Seq::<u8>::empty());
    assert(out@ =~= url_spec(input@));
    out
}

pub struct UrlEncode;

impl Mutator for UrlEncode {
    open spec fn spec_id(&self) -> Seq<char> {
        "encoding.url"@
    }

    open spec fn spec_family(&self) -> MutatorFamily {
        MutatorFamily::Encoding
    }

    open spec fn spec_mutate(&self, seed: Seq<char>) -> Seq<(Seq<char>, Seq<char>)> {
        seq![(url_spec(vstd::utf8::encode_utf8(seed)), "encoding.url"@)]
    }

    open spec fn spec_accepts(&self, seed: Seq<char>) -> bool {
        true
    }

    fn id(&self) -> (r: &'static str) {
        "encoding.url"
    }

    fn family(&self) -> (r: MutatorFamily) {
        MutatorFamily::Encoding
    }

    fn mutate(&self, seed: &str) -> (r: Vec<MutatedPrompt>) {
        single_variant(url_encode(seed.as_bytes()), self.id())
    }
}

// ── Homoglyphs ───────────────────────────────────────────────────────────────

/// Swaps a handful of ASCII letters for look-alike Cyrillic letters.
pub open spec fn homoglyph_char(c: char) -> char {
    if c == 'a' {
        '\u{430}'
    } else if c == 'e' {
        '\u{435}'
    } else if c == 'o' {
        '\u{43E}'
    } else if c == 'p' {
        '\u{440}'
    } else if c == 'c' {
        '\u{441}'
    } else if c == 'x' {
        '\u{445}'
    } else if c == 'A' {
        '\u{410}'
    } else if c == 'E' {
        '\u{415}'
    } else if c == 'O' {
        '\u{41E}'
    } else {
        c
    }
}

pub open spec fn homoglyph_spec(s: Seq<char>) -> Seq<char> {
    s.map_values(|c: char| homoglyph_char(c))
}

fn homoglyph(c: char) -> (r: char)
    ensures
        r == homoglyph_char(c),
{
    match c {
        'a' => '\u{430}',
        'e' => '\u{435}',
        'o' => '\u{43E}',
        'p' => '\u{440}',
        'c' => '\u{441}',
        'x' => '\u{445}',
        'A' => '\u{410}',
        'E' => '\u{415}',
        'O' => '\u{41E}',
        other => other,
    }
}

pub struct Homoglyph;

impl Mutator for Homoglyph {
    open spec fn spec_id(&self) -> Seq<char> {
        "encoding.homoglyph"@
    }

    open spec fn spec_family(&self) -> MutatorFamily {
        MutatorFamily::Encoding
    }

    open spec fn spec_mutate(&self, seed: Seq<char>) -> Seq<(Seq<char>, Seq<char>)> {
        seq![(homoglyph_spec(seed), "encoding.homoglyph"@)]
    }

    open spec fn spec_accepts(&self, seed: Seq<char>) -> bool {
        true
    }

    fn id(&self) -> (r: &'static str) {
        "encoding.homoglyph"
    }

    fn family(&self) -> (r: MutatorFamily) {
        MutatorFamily::Encoding
    }

    fn mutate(&self, seed: &str) -> (r: Vec<MutatedPrompt>) {
        let v = chars_of(seed);
        let mut text = String::new();
        let mut i: usize = 0;
        while i < v.len()
            invariant
                i <= v.len(),
                v@ == seed@,
                text@ == homoglyph_spec(seed@.take(i as int)),
            decreases v.len() - i,
        {
            push_char(&mut text, homoglyph(v[i]));
            assert(homoglyph_spec(seed@.take(i + 1)) =~= homoglyph_spec(seed@.take(i as int)).push(
                homoglyph_char(seed@[i as int]),
            ));
            i += 1;
        }
        assert(seed@.take(v.len() as int) =~= seed@);
        single_variant(text, self.id())
    }
}

} // verus!
