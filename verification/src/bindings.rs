//! The calls the library makes into outside crates and into parts of std that
//! Verus does not specify, each with the contract it is trusted to meet.
use vstd::prelude::*;

use hmac::Mac;

use crate::util::decimal::{all_ascii, ascii_chars};

verus! {

/// Calls `String::from_utf8` on bytes that are all ASCII. ASCII bytes are valid
/// UTF-8, so std returns `Ok` with a string whose characters are those bytes;
/// the contract claims exactly that.
#[verifier::external_body]
pub(crate) fn string_from_ascii(bytes: Vec<u8>) -> (res: String)
    requires
        all_ascii(bytes@),
    ensures
        res@ == ascii_chars(bytes@),
{
    match String::from_utf8(bytes) {
        Ok(s) => s,
        Err(_) => String::new(),
    }
}

/// The reflected CRC-32 register after `k` of the shifts of one byte: each
/// shifts right by one and xors in the polynomial 0xEDB88320 when the bit
/// shifted out is 1.
pub open spec fn crc32_shifts(c: u32, k: nat) -> u32
    decreases k,
{
    if k == 0 {
        c
    } else {
        let d = crc32_shifts(c, (k - 1) as nat);
        if d & 1 == 1 {
            (d >> 1u32) ^ 0xEDB8_8320u32
        } else {
            d >> 1u32
        }
    }
}

/// The CRC-32 register after `data`: each byte is xored into the low bits,
/// then shifted through eight times.
pub open spec fn crc32_update(c: u32, data: Seq<u8>) -> u32
    decreases data.len(),
{
    if data.len() == 0 {
        c
    } else {
        crc32_update(crc32_shifts(c ^ (data[0] as u32), 8), data.drop_first())
    }
}

/// The CRC-32 (IEEE) checksum of `data`: the register starts with all bits
/// set and is complemented at the end.
pub open spec fn crc32_ieee(data: Seq<u8>) -> u32 {
    !crc32_update(0xFFFF_FFFFu32, data)
}

/// Calls `crc32fast::hash`, which computes the CRC-32 (IEEE) checksum of
/// `data`; the contract states that checksum (see `crc32_ieee`).
#[verifier::external_body]
pub(crate) fn crc32_of(data: &[u8]) -> (res: u32)
    ensures
        res == crc32_ieee(data@),
{
    crc32fast::hash(data)
}


// ---------------------------------------------------------------------------
// Clock (std::time)
// ---------------------------------------------------------------------------

/// Calls `SystemTime::elapsed` on `UNIX_EPOCH` and hands back the time since
/// 1970-01-01 UTC by the system clock as whole seconds (`Duration::as_secs`)
/// and the nanoseconds past them (`Duration::subsec_nanos`), or `None` when the
/// clock reads earlier than that. std documents the nanoseconds as less than
/// one second; that is all that is claimed, since the reading rests on the clock.
#[verifier::external_body]
pub(crate) fn clock_since_unix_epoch() -> (res: Option<(u64, u32)>)
    ensures
        res matches Some(r) ==> r.1 < 1_000_000_000,
{
    match std::time::UNIX_EPOCH.elapsed() {
        Ok(d) => Some((d.as_secs(), d.subsec_nanos())),
        Err(_) => None,
    }
}

// ---------------------------------------------------------------------------
// Letter case (std)
// ---------------------------------------------------------------------------

/// The ASCII upper case of a character: `a`..`z` become `A`..`Z`, others stay.
pub open spec fn ascii_upper_char(c: char) -> char {
    if 'a' <= c <= 'z' {
        ((c as u32) - 32) as char
    } else {
        c
    }
}

/// The ASCII lower case of a character: `A`..`Z` become `a`..`z`, others stay.
pub open spec fn ascii_lower_char(c: char) -> char {
    if 'A' <= c <= 'Z' {
        ((c as u32) + 32) as char
    } else {
        c
    }
}

/// Whether every character of `s` is ASCII.
pub open spec fn chars_ascii(s: Seq<char>) -> bool {
    forall|i: int| 0 <= i < s.len() ==> (#[trigger] s[i] as u32) < 128
}

/// What `str::to_uppercase` returns for `s`: its Unicode upper case.
pub uninterp spec fn unicode_upper(s: Seq<char>) -> Seq<char>;

/// What `str::to_lowercase` returns for `s`: its Unicode lower case.
pub uninterp spec fn unicode_lower(s: Seq<char>) -> Seq<char>;

/// Calls `str::to_uppercase`. The result is named `unicode_upper` of the input;
/// for ASCII input std's documented mapping is the ASCII one, which is stated.
#[verifier::external_body]
pub(crate) fn str_to_uppercase(s: &str) -> (res: String)
    ensures
        res@ == unicode_upper(s@),
        chars_ascii(s@) ==> res@ == s@.map_values(|c: char| ascii_upper_char(c)),
{
    s.to_uppercase()
}

/// Calls `str::to_lowercase`. The result is named `unicode_lower` of the input;
/// for ASCII input std's documented mapping is the ASCII one, which is stated.
#[verifier::external_body]
pub(crate) fn str_to_lowercase(s: &str) -> (res: String)
    ensures
        res@ == unicode_lower(s@),
        chars_ascii(s@) ==> res@ == s@.map_values(|c: char| ascii_lower_char(c)),
{
    s.to_lowercase()
}

// ---------------------------------------------------------------------------
// HMAC-SHA256 (hmac + sha2) and Base64 (base64)
// ---------------------------------------------------------------------------

/// What HMAC-SHA256 gives for a key and a message.
pub uninterp spec fn hmac_sha256(key: Seq<u8>, msg: Seq<u8>) -> Seq<u8>;

/// Computes HMAC-SHA256 with `hmac::Hmac<sha2::Sha256>`: `new_from_slice` on
/// the key (which takes keys of any length, so never fails), `chain_update`
/// with the message, `finalize`. The contract claims the result is the MAC
/// named `hmac_sha256` of key and message, 32 bytes long (SHA-256's output).
#[verifier::external_body]
pub(crate) fn hmac_sha256_of(key: &[u8], msg: &[u8]) -> (res: Vec<u8>)
    ensures
        res@ == hmac_sha256(key@, msg@),
        res@.len() == 32,
{
    match hmac::Hmac::<sha2::Sha256>::new_from_slice(key) {
        Ok(mac) => mac.chain_update(msg).finalize().into_bytes().to_vec(),
        Err(_) => Vec::new(),
    }
}

/// The character of the standard Base64 alphabet for the six-bit value `v`:
/// `A`..`Z`, `a`..`z`, `0`..`9`, `+`, `/`.
pub open spec fn base64_digit(v: nat) -> char {
    if v < 26 {
        (65 + v) as char
    } else if v < 52 {
        (97 + v - 26) as char
    } else if v < 62 {
        (48 + v - 52) as char
    } else if v == 62 {
        '+'
    } else {
        '/'
    }
}

/// Standard Base64 of `data`, padded: each group of three bytes gives four
/// characters of six bits each; a last group of one or two bytes gives two or
/// three characters followed by `=` up to four.
pub open spec fn base64_standard(data: Seq<u8>) -> Seq<char>
    decreases data.len(),
{
    if data.len() == 0 {
        seq![]
    } else if data.len() == 1 {
        let a = data[0] as nat;
        seq![base64_digit(a / 4), base64_digit((a % 4) * 16), '=', '=']
    } else if data.len() == 2 {
        let a = data[0] as nat;
        let b = data[1] as nat;
        seq![base64_digit(a / 4), base64_digit((a % 4) * 16 + b / 16), base64_digit((b % 16) * 4), '=']
    } else {
        let a = data[0] as nat;
        let b = data[1] as nat;
        let c = data[2] as nat;
        seq![
            base64_digit(a / 4),
            base64_digit((a % 4) * 16 + b / 16),
            base64_digit((b % 16) * 4 + c / 64),
            base64_digit(c % 64),
        ] + base64_standard(data.skip(3))
    }
}

/// Calls `base64::encode` (the STANDARD engine: standard alphabet, padded).
/// The contract states the encoding (see `base64_standard`) and its padded
/// length, four characters for every started group of three bytes.
#[verifier::external_body]
#[allow(deprecated)]
pub(crate) fn base64_encode(data: &[u8]) -> (res: String)
    ensures
        res@ == base64_standard(data@),
        res@.len() == 4 * ((data@.len() + 2) / 3),
{
    base64::encode(data)
}


// ---------------------------------------------------------------------------
// Outside types carried through the library
// ---------------------------------------------------------------------------

#[verifier::external_type_specification]
#[verifier::external_body]
pub struct ExJsonValue(serde_json::Value);

#[verifier::external_type_specification]
#[verifier::external_body]
pub struct ExJsonError(serde_json::Error);

#[verifier::external_type_specification]
#[verifier::external_body]
pub struct ExTungsteniteError(tokio_tungstenite::tungstenite::Error);

#[verifier::external_type_specification]
#[verifier::external_body]
pub struct ExUrlParseError(url::ParseError);

// ---------------------------------------------------------------------------
// Identifiers (uuid)
// ---------------------------------------------------------------------------

/// Whether `c` is a lowercase hexadecimal digit.
pub open spec fn lower_hex(c: char) -> bool {
    ('0' <= c <= '9') || ('a' <= c <= 'f')
}

/// Whether `s` is the hyphenated lowercase text of a version-4 UUID: 36
/// characters, hyphens at 8, 13, 18 and 23, lowercase hex digits elsewhere,
/// the version digit `4` at 14 and the variant digit `8`, `9`, `a` or `b` at 19.
pub open spec fn uuid_v4_text(s: Seq<char>) -> bool {
    &&& s.len() == 36
    &&& forall|i: int|
        0 <= i < 36 ==> (if i == 8 || i == 13 || i == 18 || i == 23 {
            #[trigger] s[i] == '-'
        } else {
            lower_hex(s[i])
        })
    &&& s[14] == '4'
    &&& (s[19] == '8' || s[19] == '9' || s[19] == 'a' || s[19] == 'b')
}

/// Calls `uuid::Uuid::new_v4` and writes the id with its `Display` form
/// (`LowerHex`, hyphenated). `new_v4` sets the version nibble to 4 and the
/// variant bits to `10`, and the hyphenated form puts hyphens at 8, 13, 18 and
/// 23 and lowercase hex digits elsewhere: that form is claimed. The other
/// digits are random, so nothing more is.
#[verifier::external_body]
pub(crate) fn new_uuid_v4_text() -> (res: String)
    ensures
        uuid_v4_text(res@),
{
    uuid::Uuid::new_v4().to_string()
}

// ---------------------------------------------------------------------------
// JSON (serde_json)
// ---------------------------------------------------------------------------

/// Whether `serde_json::from_str` reads `text` as a JSON value.
pub uninterp spec fn json_parses(text: Seq<char>) -> bool;

/// The texts of an optional string.
pub open spec fn opt_view(o: Option<String>) -> Option<Seq<char>> {
    match o {
        Some(s) => Some(s@),
        None => None,
    }
}

/// Reads `text` with `serde_json::from_str` as a JSON value and hands back the
/// parse error, or `None` when it reads. Whether it reads depends on the text
/// alone and is named `json_parses`.
#[verifier::external_body]
pub(crate) fn json_parse_error(text: &str) -> (res: Option<serde_json::Error>)
    ensures
        res is None <==> json_parses(text@),
{
    match serde_json::from_str::<serde_json::Value>(text) {
        Ok(_) => None,
        Err(e) => Some(e),
    }
}

/// What member `key` of the JSON text `text` gives as a string: `from_str`,
/// then `v[key]` (`Null` when absent) and `as_str`.
pub uninterp spec fn json_str_field(text: Seq<char>, key: Seq<char>) -> Option<Seq<char>>;

/// Reads member `key` of the JSON text `text` as a string (`from_str`, then
/// `v[key]`, `as_str`); `None` when the text does not read as JSON. The
/// result is named `json_str_field` of text and key.
#[verifier::external_body]
pub(crate) fn json_str_at(text: &str, key: &str) -> (res: Option<String>)
    ensures
        opt_view(res) == json_str_field(text@, key@),
{
    let v: serde_json::Value = serde_json::from_str(text).ok()?;
    Some(v[key].as_str()?.to_owned())
}

/// What member `key` of the JSON text `text` gives as an integer: `from_str`,
/// then `v[key]` and `as_i64`.
pub uninterp spec fn json_i64_field(text: Seq<char>, key: Seq<char>) -> Option<i64>;

/// Reads member `key` of the JSON text `text` as an `i64` (`from_str`, then
/// `v[key]`, `as_i64`); `None` when the text does not read as JSON. The result
/// is named `json_i64_field` of text and key.
#[verifier::external_body]
pub(crate) fn json_i64_at(text: &str, key: &str) -> (res: Option<i64>)
    ensures
        res == json_i64_field(text@, key@),
{
    let v: serde_json::Value = serde_json::from_str(text).ok()?;
    v[key].as_i64()
}

/// What member `inner` of the object held in member `outer` of the JSON text
/// `text` gives: `None` when `outer` does not hold an object (`as_object`) or
/// the object has no member `inner` (where indexing the object panics);
/// otherwise that member read with `as_str`.
pub uninterp spec fn json_object_field(text: Seq<char>, outer: Seq<char>, inner: Seq<char>) -> Option<
    Option<Seq<char>>,
>;

/// Reads member `inner` of the object in member `outer` of the JSON text `text`
/// (`from_str`, `v[outer]`, `as_object`, `get(inner)`, `as_str`); `None` when
/// the text does not read as JSON. The result is named `json_object_field`.
#[verifier::external_body]
pub(crate) fn json_object_at(text: &str, outer: &str, inner: &str) -> (res: Option<Option<String>>)
    ensures
        match json_object_field(text@, outer@, inner@) {
            None => res is None,
            Some(f) => res matches Some(g) && opt_view(g) == f,
        },
{
    let v: serde_json::Value = serde_json::from_str(text).ok()?;
    let m = v[outer].as_object()?.get(inner)?;
    match m.as_str() {
        Some(t) => Some(Some(t.to_owned())),
        None => Some(None),
    }
}

/// What member `key` of the first element of the array in member `array` of
/// the JSON text `text` gives as a string: `v[array]`, `as_array`, `first`,
/// `get(key)`, `as_str`.
pub uninterp spec fn json_first_str_field(text: Seq<char>, array: Seq<char>, key: Seq<char>) -> Option<
    Seq<char>,
>;

/// Reads member `key` of the first element of the array in member `array` of
/// the JSON text `text` as a string; `None` when the text does not read as
/// JSON. The result is named `json_first_str_field`.
#[verifier::external_body]
pub(crate) fn json_first_str_at(text: &str, array: &str, key: &str) -> (res: Option<String>)
    ensures
        opt_view(res) == json_first_str_field(text@, array@, key@),
{
    let v: serde_json::Value = serde_json::from_str(text).ok()?;
    let m = v[array].as_array()?.first()?.get(key)?;
    Some(m.as_str()?.to_owned())
}

/// The lowercase hexadecimal digit of `v` (below 16).
pub open spec fn hex_lower(v: nat) -> char {
    if v < 10 {
        (48 + v) as char
    } else {
        (87 + v) as char
    }
}

/// How serde_json writes one character inside a JSON string: a quote, a
/// backslash and the control characters with a short escape (`\b`, `\t`,
/// `\n`, `\f`, `\r`) are escaped so; other characters below U+0020 as `\u00`
/// and two lowercase hexadecimal digits; any other character as itself.
pub open spec fn json_escaped_char(c: char) -> Seq<char> {
    if c == '"' {
        seq!['\\', '"']
    } else if c == '\\' {
        seq!['\\', '\\']
    } else if (c as u32) == 8 {
        seq!['\\', 'b']
    } else if (c as u32) == 9 {
        seq!['\\', 't']
    } else if (c as u32) == 10 {
        seq!['\\', 'n']
    } else if (c as u32) == 12 {
        seq!['\\', 'f']
    } else if (c as u32) == 13 {
        seq!['\\', 'r']
    } else if (c as u32) < 32 {
        seq!['\\', 'u', '0', '0', hex_lower((c as nat) / 16), hex_lower((c as nat) % 16)]
    } else {
        seq![c]
    }
}

/// The characters of `s`, each written as serde_json writes it in a string.
pub open spec fn json_escaped(s: Seq<char>) -> Seq<char>
    decreases s.len(),
{
    if s.len() == 0 {
        seq![]
    } else {
        json_escaped(s.drop_last()) + json_escaped_char(s.last())
    }
}

/// The JSON string literal serde_json writes for `s`: its escaped characters
/// between quotes.
pub open spec fn json_quoted(s: Seq<char>) -> Seq<char> {
    seq!['"'] + json_escaped(s) + seq!['"']
}

/// Whether `s` has no character that a JSON string literal escapes: no quote,
/// no backslash and no control character below U+0020.
pub open spec fn json_plain(s: Seq<char>) -> bool {
    forall|i: int| 0 <= i < s.len() ==> #[trigger] s[i] != '"' && s[i] != '\\' && (s[i] as u32) >= 32
}

/// Text with nothing to escape is written as itself.
pub proof fn lemma_plain_escaped(s: Seq<char>)
    requires
        json_plain(s),
    ensures
        json_escaped(s) == s,
    decreases s.len(),
{
    if s.len() > 0 {
        let p = s.drop_last();
        assert forall|i: int| 0 <= i < p.len() implies #[trigger] p[i] != '"' && p[i] != '\\' && (
        p[i] as u32) >= 32 by {
            assert(p[i] == s[i]);
        }
        lemma_plain_escaped(p);
        assert(s.last() == s[s.len() - 1]);
        assert(s =~= p + seq![s.last()]);
    }
}

/// Calls `serde_json::to_string` on a string, which writes it as a JSON string
/// literal (it cannot fail for a string); the contract states that literal
/// (see `json_quoted`), as serde_json's escape table gives it.
#[verifier::external_body]
pub(crate) fn json_quote(s: &str) -> (res: String)
    ensures
        res@ == json_quoted(s@),
{
    match serde_json::to_string(s) {
        Ok(t) => t,
        Err(_) => String::new(),
    }
}

/// Writes an outside error with its `Display` form. Nothing is claimed of the text.
#[verifier::external_body]
pub(crate) fn tungstenite_error_text(e: &tokio_tungstenite::tungstenite::Error) -> (res: String) {
    format!("{}", e)
}

/// Writes an outside error with its `Display` form. Nothing is claimed of the text.
#[verifier::external_body]
pub(crate) fn json_error_text(e: &serde_json::Error) -> (res: String) {
    format!("{}", e)
}

/// Writes an outside error with its `Display` form. Nothing is claimed of the text.
#[verifier::external_body]
pub(crate) fn url_error_text(e: &url::ParseError) -> (res: String) {
    format!("{}", e)
}

} // verus!
