//! User preferences and the credential cache.
//!
//! Credentials are cached obfuscated: the UTF-8 bytes of a secret are combined
//! with a fixed key by exclusive or, byte by byte, and the result is written in
//! base64. This hides a secret from a casual look and from nothing else.

use crate::scrapper::processing::child_path;
use crate::text::{chars_of, opt_view, push_str, string_of};
use vstd::prelude::*;
use vstd::utf8::{decode_utf8, encode_utf8, valid_utf8};

verus! {

/// The error of `String::from_utf8`, carried as an opaque value.
#[verifier::external_type_specification]
#[verifier::external_body]
pub struct ExFromUtf8Error(std::string::FromUtf8Error);

/// Trusted: `String::from_utf8` succeeds exactly on well-formed UTF-8, and then
/// gives the text that the bytes encode.
pub assume_specification[ String::from_utf8 ](bytes: Vec<u8>) -> (r: Result<
    String,
    std::string::FromUtf8Error,
>)
    ensures
        match r {
            Ok(s) => valid_utf8(bytes@) && s@ == decode_utf8(bytes@),
            Err(_) => !valid_utf8(bytes@),
        },
;

// ---------------------------------------------------------------------------
// Providers
// ---------------------------------------------------------------------------

/// The service that answers chat requests.
#[derive(Clone, Copy, Debug, PartialEq, Eq, Structural)]
pub enum LlmProvider {
    LmStudio,
    OpenRouter,
}

impl Default for LlmProvider {
    fn default() -> (r: Self)
        ensures
            r == LlmProvider::LmStudio,
    {
        LlmProvider::LmStudio
    }
}

impl LlmProvider {
    /// The address below which the provider serves its API.
    pub open spec fn spec_base_url(self) -> Seq<char> {
        match self {
            LlmProvider::LmStudio => "http://localhost:1234/v1"@,
            LlmProvider::OpenRouter => "https://openrouter.ai/api/v1"@,
        }
    }

    /// The address below which the provider serves its API.
    pub fn base_url(&self) -> (r: &'static str)
        ensures
            r@ == self.spec_base_url(),
    {
        match self {
            LlmProvider::LmStudio => "http://localhost:1234/v1",
            LlmProvider::OpenRouter => "https://openrouter.ai/api/v1",
        }
    }
}

// ---------------------------------------------------------------------------
// Obfuscation
// ---------------------------------------------------------------------------

/// The number of bytes of the key.
pub const KEY_LEN: usize = 25;

/// The key that secrets are combined with.
pub const ENCRYPTION_KEY: [u8; 25] = [
    80,
    111,
    108,
    105,
    82,
    97,
    103,
    50,
    48,
    50,
    54,
    83,
    101,
    99,
    114,
    101,
    116,
    75,
    101,
    121,
    33,
    64,
    35,
    36,
    37,
];

/// The key byte that meets the byte at offset `i`: the key repeats.
pub open spec fn key_byte(i: int) -> u8 {
    ENCRYPTION_KEY[i % 25]
}

/// Every byte combined with its key byte by exclusive or.
pub open spec fn xor_stream(bytes: Seq<u8>) -> Seq<u8> {
    Seq::new(bytes.len(), |i: int| bytes[i] ^ key_byte(i))
}

/// The base64 character for a value below 64.
pub open spec fn sextet_char(v: int) -> char {
    if v < 26 {
        ((65 + v) as u8) as char
    } else if v < 52 {
        ((97 + (v - 26)) as u8) as char
    } else if v < 62 {
        ((48 + (v - 52)) as u8) as char
    } else if v == 62 {
        '+'
    } else {
        '/'
    }
}

/// The value of a base64 character, if it is one.
pub open spec fn sextet_of(c: char) -> Option<int> {
    let n = c as u32 as int;
    if 65 <= n <= 90 {
        Some(n - 65)
    } else if 97 <= n <= 122 {
        Some(n - 97 + 26)
    } else if 48 <= n <= 57 {
        Some(n - 48 + 52)
    } else if c == '+' {
        Some(62)
    } else if c == '/' {
        Some(63)
    } else {
        None
    }
}

/// The base64 characters of `bytes`, without padding: four for every three
/// bytes, and two or three for one or two bytes left over.
pub open spec fn base64_body(bytes: Seq<u8>) -> Seq<char>
    decreases bytes.len(),
{
    if bytes.len() == 0 {
        Seq::empty()
    } else if bytes.len() == 1 {
        seq![sextet_char(bytes[0] as int / 4), sextet_char((bytes[0] as int % 4) * 16)]
    } else if bytes.len() == 2 {
        seq![
            sextet_char(bytes[0] as int / 4),
            sextet_char((bytes[0] as int % 4) * 16 + bytes[1] as int / 16),
            sextet_char((bytes[1] as int % 16) * 4),
        ]
    } else {
        seq![
            sextet_char(bytes[0] as int / 4),
            sextet_char((bytes[0] as int % 4) * 16 + bytes[1] as int / 16),
            sextet_char((bytes[1] as int % 16) * 4 + bytes[2] as int / 64),
            sextet_char(bytes[2] as int % 64),
        ] + base64_body(bytes.skip(3))
    }
}

/// The padding after the base64 characters of `n` bytes.
pub open spec fn base64_padding(n: nat) -> Seq<char> {
    if n % 3 == 1 {
        seq!['=', '=']
    } else if n % 3 == 2 {
        seq!['=']
    } else {
        Seq::empty()
    }
}

/// The base64 text of `bytes`, padded to a multiple of four characters.
pub open spec fn base64_text(bytes: Seq<u8>) -> Seq<char> {
    base64_body(bytes) + base64_padding(bytes.len())
}

/// `text` without the `=` characters at its end.
pub open spec fn without_padding(text: Seq<char>) -> Seq<char>
    decreases text.len(),
{
    if text.len() > 0 && text.last() == '=' {
        without_padding(text.drop_last())
    } else {
        text
    }
}

/// Every character of `text` is a base64 character.
pub open spec fn all_sextets(text: Seq<char>) -> bool {
    forall|i: int| 0 <= i < text.len() ==> sextet_of(#[trigger] text[i]).is_some()
}

/// The values of base64 characters.
pub open spec fn sextets_of(text: Seq<char>) -> Seq<u8> {
    Seq::new(text.len(), |i: int| (sextet_of(text[i])->0) as u8)
}

/// The bytes that values below 64 stand for: three for every four values,
/// and two, one or none for three, two or one left over.
pub open spec fn packed(vals: Seq<u8>) -> Seq<u8>
    decreases vals.len(),
{
    if vals.len() < 2 {
        Seq::empty()
    } else if vals.len() == 2 {
        seq![(vals[0] * 4 + vals[1] / 16) as u8]
    } else if vals.len() == 3 {
        seq![(vals[0] * 4 + vals[1] / 16) as u8, ((vals[1] % 16) * 16 + vals[2] / 4) as u8]
    } else {
        seq![
            (vals[0] * 4 + vals[1] / 16) as u8,
            ((vals[1] % 16) * 16 + vals[2] / 4) as u8,
            ((vals[2] % 4) * 64 + vals[3]) as u8,
        ] + packed(vals.skip(4))
    }
}

/// The bytes that unpadded base64 characters stand for.
pub open spec fn bytes_of_sextets(text: Seq<char>) -> Seq<u8> {
    packed(sextets_of(text))
}

/// The bytes that a base64 text stands for; none where a character other
/// than the padding at the end is no base64 character.
pub open spec fn base64_bytes(text: Seq<char>) -> Option<Seq<u8>> {
    let body = without_padding(text);
    if all_sextets(body) {
        Some(bytes_of_sextets(body))
    } else {
        None
    }
}

/// The obfuscated form of a secret.
pub open spec fn encrypted(secret: Seq<char>) -> Seq<char> {
    base64_text(xor_stream(encode_utf8(secret)))
}

/// The secret behind an obfuscated form; none where the form is no base64
/// text or the bytes behind it are no UTF-8.
pub open spec fn decrypted(form: Seq<char>) -> Option<Seq<char>> {
    match base64_bytes(form) {
        Some(bytes) => if valid_utf8(xor_stream(bytes)) {
            Some(decode_utf8(xor_stream(bytes)))
        } else {
            None
        },
        None => None,
    }
}

/// The base64 character for `v`.
fn sextet(v: u8) -> (c: char)
    requires
        v < 64,
    ensures
        c == sextet_char(v as int),
{
    if v < 26 {
        (65u8 + v) as char
    } else if v < 52 {
        (97u8 + (v - 26)) as char
    } else if v < 62 {
        (48u8 + (v - 52)) as char
    } else if v == 62 {
        '+'
    } else {
        '/'
    }
}

/// The value of a base64 character.
fn sextet_value(c: char) -> (r: Option<u8>)
    ensures
        match r {
            Some(v) => v < 64 && sextet_of(c) == Some(v as int),
            None => sextet_of(c).is_none(),
        },
{
    let n: u32 = c as u32;
    if 65 <= n && n <= 90 {
        Some((n - 65) as u8)
    } else if 97 <= n && n <= 122 {
        Some((n - 97 + 26) as u8)
    } else if 48 <= n && n <= 57 {
        Some((n - 48 + 52) as u8)
    } else if c == '+' {
        Some(62)
    } else if c == '/' {
        Some(63)
    } else {
        None
    }
}

/// Writes bytes as base64 text.
pub fn base64_encode(data: &[u8]) -> (r: String)
    ensures
        r@ == base64_text(data@),
{
    let mut out: Vec<char> = Vec::new();
    let n: usize = data.len();
    let mut i: usize = 0;
    assert(data@.skip(0) =~= data@);
    while n - i >= 3
        invariant
            i <= n,
            n == data.len(),
            i % 3 == 0,
            out@ + base64_body(data@.skip(i as int)) == base64_body(data@),
        decreases n - i,
    {
        let b0: u8 = data[i];
        let b1: u8 = data[i + 1];
        let b2: u8 = data[i + 2];
        let ghost rest = data@.skip(i as int);
        let ghost before = out@;
        out.push(sextet(b0 / 4));
        out.push(sextet((b0 % 4) * 16 + b1 / 16));
        out.push(sextet((b1 % 16) * 4 + b2 / 64));
        out.push(sextet(b2 % 64));
        proof {
            assert(rest[0] == b0 && rest[1] == b1 && rest[2] == b2);
            assert(rest.skip(3) =~= data@.skip(i + 3));
            let four = seq![
                sextet_char(b0 as int / 4),
                sextet_char((b0 as int % 4) * 16 + b1 as int / 16),
                sextet_char((b1 as int % 16) * 4 + b2 as int / 64),
                sextet_char(b2 as int % 64),
            ];
            assert(out@ =~= before + four);
            assert(base64_body(rest) == four + base64_body(rest.skip(3)));
            assert(before + (four + base64_body(rest.skip(3))) =~= (before + four) + base64_body(
                rest.skip(3),
            ));
        }
        i += 3;
    }
    let ghost rest = data@.skip(i as int);
    let ghost before = out@;
    if n - i == 1 {
        let b0: u8 = data[i];
        out.push(sextet(b0 / 4));
        out.push(sextet((b0 % 4) * 16));
        out.push('=');
        out.push('=');
        proof {
            assert(rest.len() == 1 && rest[0] == b0);
            assert(out@ =~= before + base64_body(rest) + seq!['=', '=']);
        }
    } else if n - i == 2 {
        let b0: u8 = data[i];
        let b1: u8 = data[i + 1];
        out.push(sextet(b0 / 4));
        out.push(sextet((b0 % 4) * 16 + b1 / 16));
        out.push(sextet((b1 % 16) * 4));
        out.push('=');
        proof {
            assert(rest.len() == 2 && rest[0] == b0 && rest[1] == b1);
            assert(out@ =~= before + base64_body(rest) + seq!['=']);
        }
    } else {
        proof {
            assert(rest.len() == 0);
            assert(out@ =~= before + base64_body(rest) + Seq::<char>::empty());
        }
    }
    string_of(&out)
}

/// The length of `text` without the `=` characters at its end.
fn unpadded_len(text: &Vec<char>) -> (end: usize)
    ensures
        end <= text.len(),
        without_padding(text@) == text@.subrange(0, end as int),
{
    let mut end: usize = text.len();
    assert(text@.subrange(0, end as int) =~= text@);
    while end > 0 && text[end - 1] == '='
        invariant
            end <= text.len(),
            without_padding(text@) == without_padding(text@.subrange(0, end as int)),
        decreases end,
    {
        assert(text@.subrange(0, end as int).drop_last() =~= text@.subrange(0, end - 1));
        end -= 1;
    }
    assert(without_padding(text@) == text@.subrange(0, end as int)) by {
        if end > 0 {
            assert(text@.subrange(0, end as int).last() == text@[end - 1]);
        }
    }
    end
}

/// The values of the first `end` characters, where all are base64 characters.
fn sextet_values(text: &Vec<char>, end: usize) -> (r: Option<Vec<u8>>)
    requires
        end <= text.len(),
    ensures
        match r {
            Some(vals) => {
                &&& vals@.len() == end
                &&& forall|j: int|
                    0 <= j < end ==> sextet_of(#[trigger] text@[j]) == Some(vals@[j] as int)
                &&& forall|j: int| 0 <= j < end ==> #[trigger] vals@[j] < 64
            },
            None => !all_sextets(text@.subrange(0, end as int)),
        },
{
    let mut vals: Vec<u8> = Vec::new();
    let mut k: usize = 0;
    while k < end
        invariant
            k <= end <= text.len(),
            vals@.len() == k,
            forall|j: int| 0 <= j < k ==> sextet_of(#[trigger] text@[j]) == Some(vals@[j] as int),
            forall|j: int| 0 <= j < k ==> #[trigger] vals@[j] < 64,
        decreases end - k,
    {
        match sextet_value(text[k]) {
            Some(v) => {
                vals.push(v);
            },
            None => {
                assert(sextet_of(text@.subrange(0, end as int)[k as int]).is_none());
                return None;
            },
        }
        k += 1;
    }
    Some(vals)
}

/// The bytes that the values stand for.
fn pack(vals: &Vec<u8>) -> (out: Vec<u8>)
    requires
        forall|j: int| 0 <= j < vals@.len() ==> #[trigger] vals@[j] < 64,
    ensures
        out@ == packed(vals@),
{
    let end: usize = vals.len();
    let mut out: Vec<u8> = Vec::new();
    let mut i: usize = 0;
    assert(vals@.skip(0) =~= vals@);
    while end - i >= 4
        invariant
            i <= end,
            end == vals@.len(),
            forall|j: int| 0 <= j < end ==> #[trigger] vals@[j] < 64,
            out@ + packed(vals@.skip(i as int)) == packed(vals@),
        decreases end - i,
    {
        let v0: u8 = vals[i];
        let v1: u8 = vals[i + 1];
        let v2: u8 = vals[i + 2];
        let v3: u8 = vals[i + 3];
        let ghost rest = vals@.skip(i as int);
        let ghost before = out@;
        let c0: u8 = v0 * 4 + v1 / 16;
        let c1: u8 = (v1 % 16) * 16 + v2 / 4;
        let c2: u8 = (v2 % 4) * 64 + v3;
        out.push(c0);
        out.push(c1);
        out.push(c2);
        proof {
            assert(rest[0] == v0 && rest[1] == v1 && rest[2] == v2 && rest[3] == v3);
            assert(rest.skip(4) =~= vals@.skip(i + 4));
            let three = seq![c0, c1, c2];
            assert(out@ =~= before + three);
            assert(packed(rest) =~= three + packed(rest.skip(4)));
            assert(before + (three + packed(rest.skip(4))) =~= (before + three) + packed(
                rest.skip(4),
            ));
        }
        i += 4;
    }
    let ghost rest = vals@.skip(i as int);
    let ghost before = out@;
    if end - i == 3 {
        let v0: u8 = vals[i];
        let v1: u8 = vals[i + 1];
        let v2: u8 = vals[i + 2];
        let c0: u8 = v0 * 4 + v1 / 16;
        let c1: u8 = (v1 % 16) * 16 + v2 / 4;
        out.push(c0);
        out.push(c1);
        proof {
            assert(rest.len() == 3);
            assert(rest[0] == v0 && rest[1] == v1 && rest[2] == v2);
            assert(out@ =~= before + packed(rest));
        }
    } else if end - i == 2 {
        let v0: u8 = vals[i];
        let v1: u8 = vals[i + 1];
        let c0: u8 = v0 * 4 + v1 / 16;
        out.push(c0);
        proof {
            assert(rest.len() == 2);
            assert(rest[0] == v0 && rest[1] == v1);
            assert(out@ =~= before + packed(rest));
        }
    } else {
        proof {
            assert(rest.len() <= 1);
            assert(out@ =~= before + packed(rest));
        }
    }
    out
}

/// Reads base64 text. The padding at the end is optional; any other character
/// that is no base64 character makes the text unreadable.
pub fn base64_decode(data: &str) -> (r: Option<Vec<u8>>)
    ensures
        match r {
            Some(bytes) => base64_bytes(data@) == Some(bytes@),
            None => base64_bytes(data@).is_none(),
        },
{
    let text = chars_of(data);
    let end = unpadded_len(&text);
    let ghost body = text@.subrange(0, end as int);
    match sextet_values(&text, end) {
        Some(vals) => {
            assert(all_sextets(body)) by {
                assert forall|j: int| 0 <= j < body.len() implies sextet_of(
                    #[trigger] body[j],
                ).is_some() by {
                    assert(body[j] == text@[j]);
                }
            }
            assert(vals@ =~= sextets_of(body)) by {
                assert forall|j: int| 0 <= j < body.len() implies vals@[j] == sextets_of(body)[j] by {
                    assert(body[j] == text@[j]);
                    assert(sextet_of(text@[j]) == Some(vals@[j] as int));
                }
            }
            Some(pack(&vals))
        },
        None => None,
    }
}

/// Combines every byte with its key byte.
fn xor_with_key(bytes: &[u8]) -> (r: Vec<u8>)
    ensures
        r@ == xor_stream(bytes@),
{
    let mut out: Vec<u8> = Vec::new();
    let mut i: usize = 0;
    while i < bytes.len()
        invariant
            i <= bytes.len(),
            out@.len() == i,
            forall|j: int| 0 <= j < i ==> out@[j] == bytes@[j] ^ key_byte(j),
        decreases bytes.len() - i,
    {
        let k: u8 = ENCRYPTION_KEY[i % 25];
        out.push(bytes[i] ^ k);
        i += 1;
    }
    assert(out@ =~= xor_stream(bytes@));
    out
}

/// Obfuscates a secret.
pub fn encrypt(data: &str) -> (r: String)
    ensures
        r@ == encrypted(data@),
{
    let mixed = xor_with_key(data.as_bytes());
    base64_encode(mixed.as_slice())
}

/// Recovers a secret from its obfuscated form.
pub fn decrypt(form: &str) -> (r: Option<String>)
    ensures
        opt_view(r) == decrypted(form@),
{
    match base64_decode(form) {
        Some(bytes) => {
            let plain = xor_with_key(bytes.as_slice());
            match String::from_utf8(plain) {
                Ok(s) => Some(s),
                Err(_) => None,
            }
        },
        None => None,
    }
}

// ---------------------------------------------------------------------------
// Laws of the obfuscation
// ---------------------------------------------------------------------------

/// A base64 character stands for the value it was made from, and is never the
/// padding character.
pub proof fn lemma_sextet_round_trip(v: int)
    requires
        0 <= v < 64,
    ensures
        sextet_of(sextet_char(v)) == Some(v),
        sextet_char(v) != '=',
{
}

/// Unpacking what was packed: the base64 characters of `bytes` are all base64
/// characters, they do not end in padding, and they stand for `bytes`.
pub proof fn lemma_body_round_trip(bytes: Seq<u8>)
    ensures
        all_sextets(base64_body(bytes)),
        bytes_of_sextets(base64_body(bytes)) == bytes,
        bytes.len() > 0 ==> base64_body(bytes).len() > 0 && base64_body(bytes).last() != '=',
    decreases bytes.len(),
{
    let body = base64_body(bytes);
    if bytes.len() == 0 {
        assert(sextets_of(body) =~= Seq::<u8>::empty());
    } else if bytes.len() == 1 {
        let b0 = bytes[0] as int;
        lemma_sextet_round_trip(b0 / 4);
        lemma_sextet_round_trip((b0 % 4) * 16);
        assert(sextets_of(body) =~= seq![(b0 / 4) as u8, ((b0 % 4) * 16) as u8]);
        assert(packed(sextets_of(body)) =~= bytes);
    } else if bytes.len() == 2 {
        let b0 = bytes[0] as int;
        let b1 = bytes[1] as int;
        lemma_sextet_round_trip(b0 / 4);
        lemma_sextet_round_trip((b0 % 4) * 16 + b1 / 16);
        lemma_sextet_round_trip((b1 % 16) * 4);
        assert(sextets_of(body) =~= seq![
            (b0 / 4) as u8,
            ((b0 % 4) * 16 + b1 / 16) as u8,
            ((b1 % 16) * 4) as u8,
        ]);
        assert(packed(sextets_of(body)) =~= bytes);
    } else {
        let b0 = bytes[0] as int;
        let b1 = bytes[1] as int;
        let b2 = bytes[2] as int;
        let rest = bytes.skip(3);
        lemma_body_round_trip(rest);
        lemma_sextet_round_trip(b0 / 4);
        lemma_sextet_round_trip((b0 % 4) * 16 + b1 / 16);
        lemma_sextet_round_trip((b1 % 16) * 4 + b2 / 64);
        lemma_sextet_round_trip(b2 % 64);
        let four = seq![
            sextet_char(b0 / 4),
            sextet_char((b0 % 4) * 16 + b1 / 16),
            sextet_char((b1 % 16) * 4 + b2 / 64),
            sextet_char(b2 % 64),
        ];
        let tail = base64_body(rest);
        assert(body == four + tail);
        assert forall|i: int| 0 <= i < body.len() implies sextet_of(#[trigger] body[i]).is_some() by {
            if i >= 4 {
                assert(body[i] == tail[i - 4]);
            }
        }
        let vals4 = seq![
            (b0 / 4) as u8,
            ((b0 % 4) * 16 + b1 / 16) as u8,
            ((b1 % 16) * 4 + b2 / 64) as u8,
            (b2 % 64) as u8,
        ];
        assert(sextets_of(body) =~= vals4 + sextets_of(tail)) by {
            assert forall|i: int| 0 <= i < body.len() implies sextets_of(body)[i] == (vals4
                + sextets_of(tail))[i] by {
                if i >= 4 {
                    assert(body[i] == tail[i - 4]);
                }
            }
        }
        assert((vals4 + sextets_of(tail)).skip(4) =~= sextets_of(tail));
        assert(packed(sextets_of(body)) =~= seq![bytes[0], bytes[1], bytes[2]] + packed(
            sextets_of(tail),
        ));
        assert(seq![bytes[0], bytes[1], bytes[2]] + rest =~= bytes);
        if rest.len() > 0 {
            assert(body.last() == tail.last());
        }
    }
}

/// Padding after characters that do not end in `=` is all that is taken off.
pub proof fn lemma_without_padding(body: Seq<char>, n: nat)
    requires
        body.len() > 0 ==> body.last() != '=',
    ensures
        without_padding(body + base64_padding(n)) == body,
{
    let one = body + seq!['='];
    let two = one + seq!['='];
    assert(one.drop_last() =~= body);
    assert(two.drop_last() =~= one);
    assert(without_padding(body) == body);
    assert(without_padding(one) == body);
    assert(without_padding(two) == body);
    assert(body + seq!['=', '='] =~= two);
    assert(body + Seq::<char>::empty() =~= body);
}

/// Reading the base64 text of any bytes gives the bytes back.
pub proof fn lemma_base64_round_trip(bytes: Seq<u8>)
    ensures
        base64_bytes(base64_text(bytes)) == Some(bytes),
{
    lemma_body_round_trip(bytes);
    if bytes.len() == 0 {
        assert(base64_body(bytes).len() == 0);
    }
    lemma_without_padding(base64_body(bytes), bytes.len());
}

/// Combining with a key byte twice gives the byte back.
proof fn lemma_xor_twice(x: u8, k: u8)
    ensures
        (x ^ k) ^ k == x,
{
    assert((x ^ k) ^ k == x) by (bit_vector);
}

/// Combining with the key twice gives the bytes back.
pub proof fn lemma_xor_stream_involution(bytes: Seq<u8>)
    ensures
        xor_stream(xor_stream(bytes)) == bytes,
{
    assert forall|i: int| 0 <= i < bytes.len() implies xor_stream(xor_stream(bytes))[i]
        == bytes[i] by {
        lemma_xor_twice(bytes[i], key_byte(i));
    }
    assert(xor_stream(xor_stream(bytes)) =~= bytes);
}

/// Every secret is recovered from its obfuscated form.
pub proof fn lemma_decrypt_encrypt(secret: Seq<char>)
    ensures
        decrypted(encrypted(secret)) == Some(secret),
{
    let raw = encode_utf8(secret);
    lemma_base64_round_trip(xor_stream(raw));
    lemma_xor_stream_involution(raw);
    vstd::utf8::encode_utf8_valid_utf8(secret);
    vstd::utf8::encode_utf8_decode_utf8(secret);
}

// ---------------------------------------------------------------------------
// The configuration
// ---------------------------------------------------------------------------

/// Credentials as they are cached: both parts obfuscated.
#[derive(Clone, Debug)]
pub struct EncryptedCredentials {
    pub username_encrypted: String,
    pub pin_encrypted: String,
}

/// Credentials in the clear, ready for use.
#[derive(Clone, Debug)]
pub struct CachedCredentials {
    pub username: String,
    pub pin: String,
}

/// The user's preferences and the credential cache.
#[derive(Clone, Debug)]
pub struct Config {
    pub last_model: Option<String>,
    pub cached_credentials: Option<EncryptedCredentials>,
    pub llm_provider: LlmProvider,
    pub openrouter_api_key: Option<String>,
    pub openrouter_model: Option<String>,
}

impl Default for Config {
    fn default() -> (r: Self)
        ensures
            r.last_model.is_none(),
            r.cached_credentials.is_none(),
            r.llm_provider == LlmProvider::LmStudio,
            r.openrouter_api_key.is_none(),
            r.openrouter_model.is_none(),
    {
        Config {
            last_model: None,
            cached_credentials: None,
            llm_provider: LlmProvider::LmStudio,
            openrouter_api_key: None,
            openrouter_model: None,
        }
    }
}

/// A path with a suffix appended to its last component.
pub open spec fn with_suffix(path: Seq<char>, suffix: Seq<char>) -> Seq<char> {
    path + suffix
}

impl Config {
    /// The credentials behind the cache, in the clear: none where nothing is
    /// cached or either part cannot be recovered.
    pub open spec fn credentials(self) -> Option<(Seq<char>, Seq<char>)> {
        match self.cached_credentials {
            Some(enc) => match (decrypted(enc.username_encrypted@), decrypted(enc.pin_encrypted@)) {
                (Some(u), Some(p)) => Some((u, p)),
                _ => None,
            },
            None => None,
        }
    }

    /// The configuration file inside the application's data directory.
    pub fn config_path(app_data_dir: &str) -> (r: String)
        ensures
            r@ == child_path(app_data_dir@, "config.json"@),
    {
        path_in(app_data_dir, "config.json")
    }

    /// The configuration file of earlier releases, inside the home directory.
    pub fn legacy_config_path(home_dir: &str) -> (r: String)
        ensures
            r@ == child_path(home_dir@, ".polirag.json"@),
    {
        path_in(home_dir, ".polirag.json")
    }

    /// The base path of the index inside the application's data directory.
    pub fn get_index_path(app_data_dir: &str) -> (r: String)
        ensures
            r@ == child_path(app_data_dir@, "polirag.index"@),
    {
        path_in(app_data_dir, "polirag.index")
    }

    /// The file that holds the documents of the index.
    pub fn get_documents_path(index_path: &str) -> (r: String)
        ensures
            r@ == with_suffix(index_path@, ".data"@),
    {
        let mut out = chars_of(index_path);
        push_str(&mut out, ".data");
        string_of(&out)
    }

    /// The file that holds the graph of the approximate index.
    pub fn get_graph_path(index_path: &str) -> (r: String)
        ensures
            r@ == with_suffix(index_path@, ".hnsw.graph"@),
    {
        let mut out = chars_of(index_path);
        push_str(&mut out, ".hnsw.graph");
        string_of(&out)
    }

    /// The directory of scraped data inside the application's data directory.
    pub fn get_scraped_data_dir(app_data_dir: &str) -> (r: String)
        ensures
            r@ == child_path(app_data_dir@, "data"@),
    {
        path_in(app_data_dir, "data")
    }

    /// Chooses the configuration to start with: the legacy file where it
    /// could be read, else the current file where it could be read, else the
    /// defaults.
    pub fn load(legacy: Option<Config>, current: Option<Config>) -> (r: Config)
        ensures
            legacy.is_some() ==> r == legacy->0,
            legacy.is_none() && current.is_some() ==> r == current->0,
            legacy.is_none() && current.is_none() ==> {
                &&& r.last_model.is_none()
                &&& r.cached_credentials.is_none()
                &&& r.llm_provider == LlmProvider::LmStudio
                &&& r.openrouter_api_key.is_none()
                &&& r.openrouter_model.is_none()
            },
    {
        match legacy {
            Some(c) => c,
            None => match current {
                Some(c) => c,
                None => Config::default(),
            },
        }
    }

    /// Records the model that was last chosen.
    pub fn save_model(&mut self, model: &str)
        ensures
            opt_view(final(self).last_model) == Some(model@),
            final(self).cached_credentials == old(self).cached_credentials,
            final(self).llm_provider == old(self).llm_provider,
            final(self).openrouter_api_key == old(self).openrouter_api_key,
            final(self).openrouter_model == old(self).openrouter_model,
    {
        self.last_model = Some(string_of(&chars_of(model)));
    }

    /// The model that was last chosen.
    pub fn get_last_model(&self) -> (r: Option<String>)
        ensures
            opt_view(r) == opt_view(self.last_model),
    {
        match &self.last_model {
            Some(m) => Some(m.clone()),
            None => None,
        }
    }

    /// Caches credentials, obfuscated. They can be recovered exactly.
    pub fn save_credentials(&mut self, username: &str, pin: &str)
        ensures
            final(self).cached_credentials.is_some(),
            final(self).cached_credentials->0.username_encrypted@ == encrypted(username@),
            final(self).cached_credentials->0.pin_encrypted@ == encrypted(pin@),
            final(self).credentials() == Some((username@, pin@)),
            final(self).last_model == old(self).last_model,
            final(self).llm_provider == old(self).llm_provider,
            final(self).openrouter_api_key == old(self).openrouter_api_key,
            final(self).openrouter_model == old(self).openrouter_model,
    {
        proof {
            lemma_decrypt_encrypt(username@);
            lemma_decrypt_encrypt(pin@);
        }
        self.cached_credentials = Some(
            EncryptedCredentials {
                username_encrypted: encrypt(username),
                pin_encrypted: encrypt(pin),
            },
        );
    }

    /// The cached credentials in the clear.
    pub fn get_credentials(&self) -> (r: Option<CachedCredentials>)
        ensures
            match r {
                Some(c) => self.credentials() == Some((c.username@, c.pin@)),
                None => self.credentials().is_none(),
            },
    {
        match &self.cached_credentials {
            Some(enc) => {
                match decrypt(enc.username_encrypted.as_str()) {
                    Some(username) => match decrypt(enc.pin_encrypted.as_str()) {
                        Some(pin) => Some(CachedCredentials { username, pin }),
                        None => None,
                    },
                    None => None,
                }
            },
            None => None,
        }
    }

    /// Forgets the cached credentials.
    pub fn clear_credentials(&mut self)
        ensures
            final(self).cached_credentials.is_none(),
            final(self).credentials().is_none(),
            final(self).last_model == old(self).last_model,
            final(self).llm_provider == old(self).llm_provider,
            final(self).openrouter_api_key == old(self).openrouter_api_key,
            final(self).openrouter_model == old(self).openrouter_model,
    {
        self.cached_credentials = None;
    }

    /// Records the provider, and the key and model for it where they are given;
    /// a key or model that is not given stays as it was.
    pub fn save_provider_config(
        &mut self,
        provider: LlmProvider,
        api_key: Option<String>,
        model: Option<String>,
    )
        ensures
            final(self).llm_provider == provider,
            final(self).openrouter_api_key == (if api_key.is_some() {
                api_key
            } else {
                old(self).openrouter_api_key
            }),
            final(self).openrouter_model == (if model.is_some() {
                model
            } else {
                old(self).openrouter_model
            }),
            final(self).last_model == old(self).last_model,
            final(self).cached_credentials == old(self).cached_credentials,
    {
        self.llm_provider = provider;
        if let Some(key) = api_key {
            self.openrouter_api_key = Some(key);
        }
        if let Some(m) = model {
            self.openrouter_model = Some(m);
        }
    }
}

/// The path of `name` inside `dir`.
fn path_in(dir: &str, name: &str) -> (r: String)
    ensures
        r@ == child_path(dir@, name@),
{
    crate::scrapper::processing::join_path(dir, name)
}

} // verus!
