//! The account that a cookie belongs to.
use vstd::prelude::*;
use crate::cookies::{self, extract_cookie_raw, extract_cookie_value, extract_qqmusic_signing_key};
use crate::dto::ResolvedQQMusicSourceConfig;
use crate::encoding::{self, qqmusic_gtk};
use crate::json;
use crate::text::{self, parse_u64};

verus! {

/// The cookie of a configuration, empty where it has none.
pub open spec fn cookie_of(token: Option<Seq<char>>) -> Seq<char> {
    json::or_else(token, seq![])
}

/// The account number in a token, `0` where there is none.
pub open spec fn uin_of(token: Option<Seq<char>>) -> Seq<char> {
    match token {
        Some(cookie) => json::or_else(cookies::cookie_uin(cookie), "0"@),
        None => "0"@,
    }
}

/// The account number in a token as a number, zero where it is none.
pub open spec fn uin_num_of(token: Option<Seq<char>>) -> u64 {
    json::or_else(text::parsed_u64(uin_of(token)), 0)
}

/// The cookie of a configuration, empty where it has none.
pub fn token_text(config: &ResolvedQQMusicSourceConfig) -> (r: String)
    ensures
        r@ == cookie_of(config@.token),
{
    match &config.token {
        Some(t) => t.clone(),
        None => String::new(),
    }
}

/// The account number of a configuration.
pub fn resolve_qqmusic_uin(config: &ResolvedQQMusicSourceConfig) -> (r: String)
    ensures
        r@ == uin_of(config@.token),
{
    match &config.token {
        Some(t) => match extract_cookie_value(t.as_str()) {
            Some(uin) => uin,
            None => "0".to_string(),
        },
        None => "0".to_string(),
    }
}

/// The account number of a configuration as a number: zero where there is none
/// and where it is not a number of 64 bits.
pub fn resolve_qqmusic_uin_num(config: &ResolvedQQMusicSourceConfig) -> (r: u64)
    ensures
        r == uin_num_of(config@.token),
{
    let uin: String = resolve_qqmusic_uin(config);
    match parse_u64(uin.as_str()) {
        Some(n) => n,
        None => 0,
    }
}

/// The text that the newer of the two request tokens is computed from.
pub open spec fn gtk_key_new(cookie: Seq<char>) -> Seq<char> {
    let signing = cookies::signing_key(cookie);
    let p_skey = cookies::cookie_value(cookie, "p_skey"@);
    let skey = cookies::cookie_value(cookie, "skey"@);
    let p_lskey = cookies::cookie_value(cookie, "p_lskey"@);
    let lskey = cookies::cookie_value(cookie, "lskey"@);
    json::or_else(json::or(json::or(json::or(json::or(signing, p_skey), skey), p_lskey), lskey), seq![])
}

/// The text that the older of the two request tokens is computed from.
pub open spec fn gtk_key_old(cookie: Seq<char>) -> Seq<char> {
    let signing = cookies::signing_key(cookie);
    let p_skey = cookies::cookie_value(cookie, "p_skey"@);
    let skey = cookies::cookie_value(cookie, "skey"@);
    json::or_else(json::or(json::or(skey, signing), p_skey), seq![])
}

/// The first of two texts that is there.
fn either(a: Option<String>, b: Option<String>) -> (r: Option<String>)
    ensures
        text::opt_view(r) == json::or(text::opt_view(a), text::opt_view(b)),
{
    if a.is_some() {
        a
    } else {
        b
    }
}

/// The text, empty where there is none.
fn or_empty(a: Option<String>) -> (r: String)
    ensures
        r@ == json::or_else(text::opt_view(a), seq![]),
{
    match a {
        Some(t) => t,
        None => String::new(),
    }
}

/// The two tokens that requests carry, the older one first. Both are below 2^31.
pub fn resolve_qqmusic_gtk(config: &ResolvedQQMusicSourceConfig) -> (r: (u32, u32))
    ensures
        r.0 == encoding::hash_from(5381, gtk_key_old(cookie_of(config@.token))),
        r.1 == encoding::hash_from(5381, gtk_key_new(cookie_of(config@.token))),
{
    let cookie: String = token_text(config);
    let signing: Option<String> = extract_qqmusic_signing_key(cookie.as_str());
    let p_skey: Option<String> = extract_cookie_raw(cookie.as_str(), "p_skey");
    let skey: Option<String> = extract_cookie_raw(cookie.as_str(), "skey");
    let p_lskey: Option<String> = extract_cookie_raw(cookie.as_str(), "p_lskey");
    let lskey: Option<String> = extract_cookie_raw(cookie.as_str(), "lskey");
    let key_old: String = or_empty(either(either(skey.clone(), signing.clone()), p_skey.clone()));
    let key_new: String = or_empty(
        either(either(either(either(signing, p_skey), skey), p_lskey), lskey),
    );
    (qqmusic_gtk(key_old.as_str()), qqmusic_gtk(key_new.as_str()))
}

/// The cookie holds a key that a login leaves: the signing key or `p_skey`.
pub open spec fn has_key(cookie: Seq<char>) -> bool {
    cookies::signing_key(cookie) is Some || cookies::cookie_value(cookie, "p_skey"@) is Some
}

/// Whether the cookie holds a key that a login leaves.
pub fn holds_key(cookie: &str) -> (r: bool)
    ensures
        r == has_key(cookie@),
{
    extract_qqmusic_signing_key(cookie).is_some() || extract_cookie_raw(cookie, "p_skey").is_some()
}

/// The first of several cookies that has a value.
pub open spec fn first_cookie(
    cookie: Seq<char>,
    names: Seq<Seq<char>>,
    i: int,
    v: Seq<char>,
) -> bool {
    0 <= i < names.len() && cookies::cookie_value(cookie, names[i]) == Some(v) && forall|j: int|
        0 <= j < i ==> cookies::cookie_value(cookie, #[trigger] names[j]) is None
}

/// The key that requests are signed with, and those that the request tokens are made
/// of, are each the first of their cookies that has a value; without any they are
/// missing, and the tokens are made of nothing.
pub proof fn law_keys_are_first_of_their_cookies(cookie: Seq<char>, i: int, v: Seq<char>)
    ensures
        ({
            let signing = seq!["qm_keyst"@, "qqmusic_key"@];
            let older = seq!["skey"@, "qm_keyst"@, "qqmusic_key"@, "p_skey"@];
            let newer = seq![
                "qm_keyst"@,
                "qqmusic_key"@,
                "p_skey"@,
                "skey"@,
                "p_lskey"@,
                "lskey"@,
            ];
            &&& first_cookie(cookie, signing, i, v) ==> cookies::signing_key(cookie) == Some(v)
            &&& first_cookie(cookie, older, i, v) ==> gtk_key_old(cookie) == v
            &&& first_cookie(cookie, newer, i, v) ==> gtk_key_new(cookie) == v
            &&& (forall|j: int|
                0 <= j < 2 ==> cookies::cookie_value(cookie, #[trigger] signing[j]) is None)
                ==> cookies::signing_key(cookie) is None
            &&& (forall|j: int|
                0 <= j < 4 ==> cookies::cookie_value(cookie, #[trigger] older[j]) is None)
                ==> gtk_key_old(cookie).len() == 0
            &&& (forall|j: int|
                0 <= j < 6 ==> cookies::cookie_value(cookie, #[trigger] newer[j]) is None)
                ==> gtk_key_new(cookie).len() == 0
            &&& first_cookie(cookie, seq!["qm_keyst"@, "qqmusic_key"@, "p_skey"@], i, v) ==> has_key(
                cookie,
            )
        }),
{
    let signing = seq!["qm_keyst"@, "qqmusic_key"@];
    let older = seq!["skey"@, "qm_keyst"@, "qqmusic_key"@, "p_skey"@];
    let newer = seq!["qm_keyst"@, "qqmusic_key"@, "p_skey"@, "skey"@, "p_lskey"@, "lskey"@];
    let keys = seq!["qm_keyst"@, "qqmusic_key"@, "p_skey"@];
    assert(signing[0] == "qm_keyst"@ && signing[1] == "qqmusic_key"@);
    assert(older[0] == "skey"@ && older[1] == "qm_keyst"@ && older[2] == "qqmusic_key"@ && older[3]
        == "p_skey"@);
    assert(newer[0] == "qm_keyst"@ && newer[1] == "qqmusic_key"@ && newer[2] == "p_skey"@);
    assert(newer[3] == "skey"@ && newer[4] == "p_lskey"@ && newer[5] == "lskey"@);
    assert(keys[0] == "qm_keyst"@ && keys[1] == "qqmusic_key"@ && keys[2] == "p_skey"@);
}

/// The number of an account is that of its cookie, read as a number; it is zero where
/// there is no cookie and where it is no number.
pub proof fn law_account_number_is_read(token: Option<Seq<char>>, n: u64)
    ensures
        token is None ==> uin_of(token) == "0"@ && uin_num_of(token) == 0,
        token matches Some(cookie) ==> {
            &&& cookies::cookie_uin(cookie) matches Some(uin) ==> uin_of(token) == uin
            &&& cookies::cookie_uin(cookie) is None ==> uin_of(token) == "0"@ && uin_num_of(token)
                == 0
            &&& cookies::cookie_uin(cookie) == Some(text::decimal(n as nat)) ==> uin_num_of(token)
                == n
        },
{
    reveal_strlit("0");
    text::law_decimal_is_read_back(n as nat);
    assert("0"@ =~= text::decimal(0));
    text::law_decimal_is_read_back(0);
}

} // verus!
