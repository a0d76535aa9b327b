//! Hashes, signatures and encodings that the service expects.
use base64::Engine;
use vstd::prelude::*;
use vstd::utf8::*;
use crate::text::{self, chars_of, concat2};

verus! {

// ---------------------------------------------------------------------------
// Request signature
// ---------------------------------------------------------------------------
/// Which hexadecimal digits of the digest a signature takes, each number taken
/// modulo the number of digits.
pub const SIGN_MAP: [u8; 16] = [
    0x61,
    0x32,
    0x33,
    0x61,
    0x31,
    0x62,
    0x34,
    0x33,
    0x63,
    0x35,
    0x61,
    0x36,
    0x64,
    0x37,
    0x65,
    0x38,
];

/// The lower case hexadecimal digit for `d`.
pub open spec fn hex_lower(d: int) -> char {
    if d < 10 {
        ('0' as int + d) as char
    } else {
        ('a' as int + d - 10) as char
    }
}

/// Two lower case hexadecimal digits for each byte.
pub open spec fn hex_text(bytes: Seq<u8>) -> Seq<char> {
    Seq::new(
        2 * bytes.len(),
        |i: int|
            if i % 2 == 0 {
                hex_lower(bytes[i / 2] as int / 16)
            } else {
                hex_lower(bytes[i / 2] as int % 16)
            },
    )
}

/// The signature for a digest of 16 bytes: `zzc` and 16 of its hexadecimal digits.
pub open spec fn sign_of(digest: Seq<u8>) -> Seq<char> {
    "zzc"@ + Seq::new(16, |i: int| hex_text(digest)[SIGN_MAP@[i] as int % 32])
}

/// The MD5 digest of a sequence of bytes, as `md5::compute` gives it.
pub uninterp spec fn md5_digest(bytes: Seq<u8>) -> Seq<u8>;

/// `md5::compute`: sixteen bytes that the input alone determines.
#[verifier::external_body]
fn md5_bytes(data: &[u8]) -> (r: [u8; 16])
    ensures
        r@ == md5_digest(data@),
{
    md5::compute(data).0
}

/// The lower case hexadecimal digit for `d`.
fn hex_lower_char(d: u8) -> (c: char)
    requires
        d < 16,
    ensures
        c == hex_lower(d as int),
{
    if d < 10 {
        (48 + d) as char
    } else {
        (87 + d) as char
    }
}

/// The signature for a digest.
pub fn sign_from_digest(digest: &[u8; 16]) -> (r: String)
    ensures
        r@ == sign_of(digest@),
        r@.len() == 19,
{
    let mut sign: String = "zzc".to_string();
    for i in 0..16
        invariant
            sign@ == "zzc"@ + Seq::new(
                i as nat,
                |k: int| hex_text(digest@)[SIGN_MAP@[k] as int % 32],
            ),
    {
        let at: usize = SIGN_MAP[i] as usize % 32;
        let byte: u8 = digest[at / 2];
        let half: u8 = if at % 2 == 0 {
            byte / 16
        } else {
            byte % 16
        };
        sign.push(hex_lower_char(half));
        proof {
            assert(hex_text(digest@)[at as int] == hex_lower(half as int));
            assert(sign@ =~= "zzc"@ + Seq::new(
                (i + 1) as nat,
                |k: int| hex_text(digest@)[SIGN_MAP@[k] as int % 32],
            ));
        }
    }
    proof {
        reveal_strlit("zzc");
    }
    sign
}

/// The signature of a request.
pub fn qqmusic_get_sign(data: &str) -> (r: String)
    ensures
        r@ == sign_of(md5_digest(encode_utf8(data@))),
        r@.len() == 19,
        text::starts_with(r@, "zzc"@),
{
    let digest: [u8; 16] = md5_bytes(data.as_bytes());
    let r: String = sign_from_digest(&digest);
    proof {
        reveal_strlit("zzc");
        assert(r@.take(3) =~= "zzc"@);
    }
    r
}

// ---------------------------------------------------------------------------
// Token hashes
// ---------------------------------------------------------------------------
/// The text as a polynomial in 33, with `seed` in front.
pub open spec fn poly33(seed: nat, s: Seq<char>) -> nat
    decreases s.len(),
{
    if s.len() == 0 {
        seed
    } else {
        poly33(seed, s.drop_last()) * 33 + (s.last() as u32) as nat
    }
}

/// The hash of a text: the polynomial modulo 2 to the power of 31.
pub open spec fn hash_from(seed: nat, s: Seq<char>) -> nat {
    poly33(seed, s) % 0x8000_0000
}

/// One step of the hash on machine words.
proof fn lemma_hash_step(h: u32, p: nat, c: u32)
    requires
        h as nat == p % 0x1_0000_0000,
    ensures
        (((h as nat + (h as nat * 32) % 0x1_0000_0000) % 0x1_0000_0000) + c) % 0x1_0000_0000 == (p
            * 33 + c) % 0x1_0000_0000,
{
    let m = 0x1_0000_0000int;
    let q = p as int / m;
    assert(p == q * m + h);
    assert(p * 33 + c == q * 33 * m + h * 33 + c) by (nonlinear_arith)
        requires
            p == q * m + h,
    ;
    vstd::arithmetic::div_mod::lemma_mod_multiples_vanish(q * 33, h * 33 + c, m);
    assert(q * 33 * m == m * (q * 33)) by (nonlinear_arith);
}

fn hash_text(seed: u32, s: &str) -> (h: u32)
    ensures
        h == hash_from(seed as nat, s@),
        h < 0x8000_0000,
{
    let chars: Vec<char> = chars_of(s);
    let mut h: u32 = seed;
    proof {
        assert(s@.take(0) =~= seq![]);
    }
    for i in 0..chars.len()
        invariant
            chars@ == s@,
            h as nat == poly33(seed as nat, s@.take(i as int)) % 0x1_0000_0000,
    {
        let ch: char = chars[i];
        let c: u32 = ch as u32;
        proof {
            assert(s@.take(i + 1).drop_last() =~= s@.take(i as int));
            lemma_hash_step(h, poly33(seed as nat, s@.take(i as int)), c);
            assert(h << 5 == (h as int * 32) % 0x1_0000_0000) by (bit_vector);
        }
        let thirty_two: u32 = h << 5;
        let thirty_three: u32 = h.wrapping_add(thirty_two);
        let next: u32 = thirty_three.wrapping_add(c);
        proof {
            assert(thirty_three as int == (h + thirty_two) % 0x1_0000_0000);
            assert(next as int == (thirty_three + c) % 0x1_0000_0000);
            assert(s@.take(i + 1).last() == ch);
        }
        h = next;
    }
    proof {
        assert(s@.take(s@.len() as int) =~= s@);
        assert(h & 0x7fff_ffff == h % 0x8000_0000) by (bit_vector);
        let p = poly33(seed as nat, s@) as int;
        vstd::arithmetic::div_mod::lemma_mod_mod(p, 0x8000_0000, 2);
    }
    h & 0x7fff_ffff
}

/// The token of a QR code login: the hash of its signature cookie.
pub fn qqmusic_hash33(s: &str) -> (h: u32)
    ensures
        h == hash_from(0, s@),
        h < 0x8000_0000,
{
    hash_text(0, s)
}

/// The request forgery token for a key.
pub fn qqmusic_gtk(key: &str) -> (h: u32)
    ensures
        h == hash_from(5381, key@),
        h < 0x8000_0000,
{
    hash_text(5381, key)
}

// ---------------------------------------------------------------------------
// Percent encoding and Base64
// ---------------------------------------------------------------------------
/// The bytes that percent encoding leaves as they are.
pub open spec fn unreserved(b: u8) -> bool {
    ||| '0' as u8 <= b <= '9' as u8
    ||| 'A' as u8 <= b <= 'Z' as u8
    ||| 'a' as u8 <= b <= 'z' as u8
    ||| b == '-' as u8
    ||| b == '.' as u8
    ||| b == '_' as u8
    ||| b == '~' as u8
}

/// The upper case hexadecimal digit for `d`.
pub open spec fn hex_upper(d: int) -> char {
    if d < 10 {
        ('0' as int + d) as char
    } else {
        ('A' as int + d - 10) as char
    }
}

/// One byte in percent encoding.
pub open spec fn percent_byte(b: u8) -> Seq<char> {
    if unreserved(b) {
        seq![b as char]
    } else {
        seq!['%', hex_upper(b as int / 16), hex_upper(b as int % 16)]
    }
}

/// The bytes in percent encoding.
pub open spec fn percent_encode(bytes: Seq<u8>) -> Seq<char>
    decreases bytes.len(),
{
    if bytes.len() == 0 {
        seq![]
    } else {
        percent_byte(bytes[0]) + percent_encode(bytes.skip(1))
    }
}

/// `urlencoding::encode`: every byte of the text in UTF-8 but the letters and
/// digits of ASCII and `-`, `_`, `.`, `~` becomes a percent sign and two upper
/// case hexadecimal digits.
#[verifier::external_body]
pub(crate) fn url_encode(text: &str) -> (r: String)
    ensures
        r@ == percent_encode(encode_utf8(text@)),
{
    urlencoding::encode(text).into_owned()
}

/// The bytes that a text is the standard Base64 form of, with padding, as the
/// `base64` crate decodes it; `None` where it is no such form.
pub uninterp spec fn base64_decode(text: Seq<char>) -> Option<Seq<u8>>;

/// The standard Base64 form of the bytes, with padding, as the `base64` crate
/// encodes them.
pub uninterp spec fn base64_encode(bytes: Seq<u8>) -> Seq<char>;

/// `Engine::decode` of `base64::engine::general_purpose::STANDARD`: a function of
/// the text alone.
#[verifier::external_body]
pub(crate) fn decode_base64(text: &str) -> (r: Option<Vec<u8>>)
    ensures
        match r {
            Some(bytes) => base64_decode(text@) == Some(bytes@),
            None => base64_decode(text@) is None,
        },
{
    base64::engine::general_purpose::STANDARD.decode(text).ok()
}

/// `Engine::encode` of `base64::engine::general_purpose::STANDARD`: a function of
/// the bytes alone. The encoded text, four characters for every three bytes
/// begun, has to fit in memory.
#[verifier::external_body]
pub(crate) fn encode_base64(bytes: &[u8]) -> (r: String)
    requires
        (bytes@.len() + 2) / 3 * 4 <= isize::MAX,
    ensures
        r@ == base64_encode(bytes@),
{
    base64::engine::general_purpose::STANDARD.encode(bytes)
}

/// The address of an image that carries its own bytes.
pub fn png_data_url(bytes: &Vec<u8>) -> (r: String)
    requires
        (bytes@.len() + 2) / 3 * 4 <= isize::MAX,
    ensures
        r@ == "data:image/png;base64,"@ + base64_encode(bytes@),
{
    let body: String = encode_base64(bytes.as_slice());
    concat2("data:image/png;base64,", body.as_str())
}

/// A percent-encoded text is made of letters and digits of ASCII, `-`, `_`, `.`,
/// `~` and percent signs alone: nothing in it can end or split a query.
pub proof fn law_encoded_text_is_safe(bytes: Seq<u8>)
    ensures
        forall|i: int|
            0 <= i < percent_encode(bytes).len() ==> {
                let c = #[trigger] percent_encode(bytes)[i];
                ||| '0' <= c <= '9'
                ||| 'A' <= c <= 'Z'
                ||| 'a' <= c <= 'z'
                ||| c == '-' || c == '_' || c == '.' || c == '~' || c == '%'
            },
    decreases bytes.len(),
{
    if bytes.len() > 0 {
        law_encoded_text_is_safe(bytes.skip(1));
        let head = percent_byte(bytes[0]);
        let tail = percent_encode(bytes.skip(1));
        assert forall|i: int| 0 <= i < percent_encode(bytes).len() implies {
            let c = #[trigger] percent_encode(bytes)[i];
            ||| '0' <= c <= '9'
            ||| 'A' <= c <= 'Z'
            ||| 'a' <= c <= 'z'
            ||| c == '-' || c == '_' || c == '.' || c == '~' || c == '%'
        } by {
            if i < head.len() {
                assert(percent_encode(bytes)[i] == head[i]);
            } else {
                assert(percent_encode(bytes)[i] == tail[i - head.len()]);
            }
        }
    }
}

/// The hash of a text without characters is its seed, and each further character is
/// added to thirty-three times the hash before it. The hash stays below 2 to the
/// power of 31.
pub proof fn law_hash_takes_characters_in_turn(seed: nat, s: Seq<char>, c: char)
    requires
        seed < 0x8000_0000,
    ensures
        hash_from(seed, seq![]) == seed,
        hash_from(seed, s.push(c)) == (hash_from(seed, s) * 33 + (c as u32) as nat) % 0x8000_0000,
        hash_from(seed, s) < 0x8000_0000,
{
    let m = 0x8000_0000int;
    assert(s.push(c).drop_last() =~= s);
    let p = poly33(seed, s) as int;
    let h = p % m;
    let k = (c as u32) as int;
    vstd::arithmetic::div_mod::lemma_fundamental_div_mod(p, m);
    let q = p / m;
    assert(p * 33 + k == m * (q * 33) + (h * 33 + k)) by (nonlinear_arith)
        requires
            p == m * q + h,
    ;
    vstd::arithmetic::div_mod::lemma_mod_multiples_vanish(q * 33, h * 33 + k, m);
}

/// The value of a hexadecimal digit in lower case.
pub open spec fn hex_value(c: char) -> int {
    if '0' <= c <= '9' {
        c as int - '0' as int
    } else if 'a' <= c <= 'f' {
        c as int - 'a' as int + 10
    } else {
        -1
    }
}

/// The digits of a byte in hexadecimal are read back as the byte.
pub proof fn law_hex_is_read_back(bytes: Seq<u8>, i: int)
    requires
        0 <= i < bytes.len(),
    ensures
        hex_text(bytes).len() == 2 * bytes.len(),
        hex_value(hex_text(bytes)[2 * i]) * 16 + hex_value(hex_text(bytes)[2 * i + 1]) == bytes[i],
{
    assert((2 * i) / 2 == i && (2 * i) % 2 == 0);
    assert((2 * i + 1) / 2 == i && (2 * i + 1) % 2 == 1);
}

/// The places in the digest, in hexadecimal, whose digits a signature is made of.
pub open spec fn sign_places() -> Seq<int> {
    seq![1, 18, 19, 1, 17, 2, 20, 19, 3, 21, 1, 22, 4, 23, 5, 24]
}

/// A signature is `zzc` and sixteen digits of the digest, from fixed places.
pub proof fn law_signature_takes_its_digits(digest: Seq<u8>, i: int)
    requires
        digest.len() == 16,
        0 <= i < 16,
    ensures
        sign_of(digest).len() == 19,
        text::starts_with(sign_of(digest), "zzc"@),
        sign_of(digest)[3 + i] == hex_text(digest)[sign_places()[i]],
{
    reveal_strlit("zzc");
    assert(sign_of(digest).take(3) =~= "zzc"@);
    let map = SIGN_MAP@;
    assert(map[0] == 0x61 && map[1] == 0x32 && map[2] == 0x33 && map[3] == 0x61);
    assert(map[4] == 0x31 && map[5] == 0x62 && map[6] == 0x34 && map[7] == 0x33);
    assert(map[8] == 0x63 && map[9] == 0x35 && map[10] == 0x61 && map[11] == 0x36);
    assert(map[12] == 0x64 && map[13] == 0x37 && map[14] == 0x65 && map[15] == 0x38);
    let p = sign_places();
    assert(p[0] == 1 && p[1] == 18 && p[2] == 19 && p[3] == 1);
    assert(p[4] == 17 && p[5] == 2 && p[6] == 20 && p[7] == 19);
    assert(p[8] == 3 && p[9] == 21 && p[10] == 1 && p[11] == 22);
    assert(p[12] == 4 && p[13] == 23 && p[14] == 5 && p[15] == 24);
    assert(map[i] as int % 32 == p[i]);
}

} // verus!
