//! Credentials for the OKX private WebSocket and the signed login request.
use vstd::prelude::*;
use vstd::string::StringSliceAdditionalSpecFns;
use vstd::utf8::encode_utf8;

use crate::bindings::{base64_encode, base64_standard, hmac_sha256, hmac_sha256_of};
use crate::util::decimal::{
    all_digits, ascii_chars, decimal_bytes, digits_value, format_decimal, lemma_decimal_bytes_digits,
    lemma_digits_ascii, lemma_ascii_roundtrip, lemma_digits_value_decimal, push_decimal,
};
use crate::util::time_util::{reading_secs, valid_reading, Utils};

verus! {

/// API key, secret key and passphrase of an OKX account.
#[derive(Debug)]
pub struct OkxAuth {
    api_key: String,
    api_secret_key: String,
    passphrase: String,
}

/// The arguments of a login request.
#[allow(non_snake_case)]
pub struct LoginArgs {
    pub apiKey: String,
    pub passphrase: String,
    pub timestamp: String,
    pub sign: String,
}

/// A login request: the operation name and its arguments.
pub struct LoginParam {
    pub op: String,
    pub args: Vec<LoginArgs>,
}

/// The text OKX signs for a login at time `ts` (seconds): the time stamp in
/// decimal followed by `GET/users/self/verify`.
pub open spec fn login_prehash(ts: u64) -> Seq<u8> {
    decimal_bytes(ts as nat) + encode_utf8("GET/users/self/verify"@)
}

/// The signature of a login at time `ts`: Base64 of the HMAC-SHA256 of the
/// pre-hash text under the secret key.
pub open spec fn login_sign(secret: Seq<char>, ts: u64) -> Seq<char> {
    base64_standard(hmac_sha256(encode_utf8(secret), login_prehash(ts)))
}

/// Login law: a request for time `ts` sends `ts` in decimal (digits that read
/// back as `ts`) and is signed with the secret over exactly that text followed
/// by `GET/users/self/verify`.
pub proof fn lemma_login_signs_sent_stamp(secret: Seq<char>, ts: u64, stamp: Seq<char>, sign: Seq<char>)
    requires
        stamp == ascii_chars(decimal_bytes(ts as nat)),
        sign == login_sign(secret, ts),
    ensures
        all_digits(encode_utf8(stamp)),
        digits_value(encode_utf8(stamp)) == ts,
        sign == base64_standard(
            hmac_sha256(encode_utf8(secret), encode_utf8(stamp) + encode_utf8("GET/users/self/verify"@)),
        ),
{
    lemma_decimal_bytes_digits(ts as nat);
    lemma_digits_ascii(decimal_bytes(ts as nat));
    lemma_ascii_roundtrip(decimal_bytes(ts as nat));
    lemma_digits_value_decimal(ts as nat);
}

impl OkxAuth {
    pub closed spec fn key(&self) -> Seq<char> {
        self.api_key@
    }

    pub closed spec fn secret(&self) -> Seq<char> {
        self.api_secret_key@
    }

    pub closed spec fn phrase(&self) -> Seq<char> {
        self.passphrase@
    }

    /// Credentials from their three parts.
    pub fn new(api_key: &str, api_secret_key: &str, passphrase: &str) -> (a: Self)
        ensures
            a.key() == api_key@,
            a.secret() == api_secret_key@,
            a.phrase() == passphrase@,
    {
        OkxAuth {
            api_key: api_key.to_owned(),
            api_secret_key: api_secret_key.to_owned(),
            passphrase: passphrase.to_owned(),
        }
    }

    /// Seconds since 1970-01-01 UTC by the system clock: the whole seconds of
    /// a reading of the clock (0 when the clock reads earlier than 1970).
    pub fn get_local_timestamp() -> (r: u64)
        ensures
            exists|rd: Option<(u64, u32)>| #[trigger] valid_reading(rd) && r == reading_secs(rd),
    {
        Utils::get_current_timestamp()
    }

    /// The login request for time `ts` (seconds): operation `login` with one
    /// argument set holding key, passphrase, the time stamp in decimal and the
    /// signature of that time stamp.
    pub fn login_params_at(&self, ts: u64) -> (p: LoginParam)
        ensures
            p.op@ == "login"@,
            p.args@.len() == 1,
            p.args@[0].apiKey@ == self.key(),
            p.args@[0].passphrase@ == self.phrase(),
            p.args@[0].timestamp@ == ascii_chars(decimal_bytes(ts as nat)),
            p.args@[0].sign@ == login_sign(self.secret(), ts),
    {
        let ts_text = format_decimal(ts);
        let mut message: Vec<u8> = Vec::new();
        push_decimal(&mut message, ts);
        let suffix = "GET/users/self/verify".as_bytes();
        let ghost before = message@;
        message.extend_from_slice(suffix);
        assert(message@ =~= before + suffix@);
        assert(message@ =~= login_prehash(ts));
        let code = hmac_sha256_of(self.api_secret_key.as_str().as_bytes(), message.as_slice());
        let sign = base64_encode(code.as_slice());
        let mut args: Vec<LoginArgs> = Vec::new();
        args.push(
            LoginArgs {
                apiKey: self.api_key.clone(),
                passphrase: self.passphrase.clone(),
                timestamp: ts_text,
                sign,
            },
        );
        LoginParam { op: "login".to_owned(), args }
    }

    /// The login request for now, by the system clock.
    pub fn okx_login_params(&self) -> (p: LoginParam)
        ensures
            p.op@ == "login"@,
            p.args@.len() == 1,
            p.args@[0].apiKey@ == self.key(),
            p.args@[0].passphrase@ == self.phrase(),
            exists|rd: Option<(u64, u32)>|
                #[trigger] valid_reading(rd) && p.args@[0].timestamp@ == ascii_chars(
                    decimal_bytes(reading_secs(rd) as nat),
                ) && login_sign(self.secret(), reading_secs(rd)) == p.args@[0].sign@,
    {
        let ts = OkxAuth::get_local_timestamp();
        self.login_params_at(ts)
    }
}

} // verus!
