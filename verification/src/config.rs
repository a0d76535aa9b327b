//! The settings of the source.
use vstd::prelude::*;
use vstd::utf8::*;
use crate::account;
use crate::constants::QQMUSIC_DEFAULT_BASE_URL;
use crate::cookies::{self, extract_cookie_raw, extract_qqmusic_signing_key};
use crate::dto::{
    self,
    ConfigView,
    QQMusicSourceConfigDto,
    ResolvedQQMusicSourceConfig,
    SaveQQMusicSourceConfigPayload,
    SourceConfigView,
};
use crate::encoding;
use crate::json::{self, object_body, put, put_text, Doc, JsonBody};
use crate::text::{self, safe_preview, strip_end_text, text_contains, trim_text};

verus! {

// ---------------------------------------------------------------------------
// The credential
// ---------------------------------------------------------------------------
/// A text without white space at its ends, where anything is left.
pub open spec fn filled(t: Option<Seq<char>>) -> Option<Seq<char>> {
    match t {
        Some(s) => if text::trim(s).len() > 0 {
            Some(text::trim(s))
        } else {
            None
        },
        None => None,
    }
}

/// A text without white space at its ends, where anything is left.
fn if_filled(t: Option<String>) -> (r: Option<String>)
    ensures
        text::opt_view(r) == filled(text::opt_view(t)),
{
    match t {
        Some(s) => {
            let trimmed: String = trim_text(s.as_str());
            if trimmed.as_str().is_empty() {
                None
            } else {
                Some(trimmed)
            }
        },
        None => None,
    }
}

/// The credential that was stored, where there is one.
pub fn read_qqmusic_token(stored: Option<String>) -> (r: Option<String>)
    ensures
        text::opt_view(r) == filled(text::opt_view(stored)),
{
    if_filled(stored)
}

/// The credential to store. An empty one is refused.
pub fn save_qqmusic_token(token: &str) -> (r: Result<String, String>)
    ensures
        dto::outcome(r) == (match filled(Some(token@)) {
            Some(t) => Ok(t),
            None => Err("QQ音乐会话凭据为空 / QQ Music session credential is empty."@),
        }),
{
    let trimmed: String = trim_text(token);
    if trimmed.as_str().is_empty() {
        return Err("QQ音乐会话凭据为空 / QQ Music session credential is empty.".to_string());
    }
    Ok(trimmed)
}

/// What is stored is read back.
pub proof fn law_stored_token_is_read_back(token: Seq<char>)
    ensures
        filled(Some(token)) matches Some(t) ==> filled(Some(t)) == Some(t),
{
    text::lemma_trim(token);
}

// ---------------------------------------------------------------------------
// The settings
// ---------------------------------------------------------------------------
/// What is shown in place of the credential.
pub open spec fn mask(has_token: bool) -> Seq<char> {
    if has_token {
        "••••••••••••"@
    } else {
        seq![]
    }
}

/// The settings out of the row that is stored, a number and an address, or out of
/// none.
pub open spec fn shown_config(stored: Option<(i64, Seq<char>)>, has_token: bool) -> SourceConfigView {
    match stored {
        Some((flag, base_url)) => SourceConfigView {
            enabled: flag == 1,
            base_url,
            has_token,
            masked_token: mask(has_token),
        },
        None => SourceConfigView {
            enabled: false,
            base_url: QQMUSIC_DEFAULT_BASE_URL@,
            has_token,
            masked_token: mask(has_token),
        },
    }
}

/// The settings as they are shown.
pub fn load_qqmusic_source_config(stored: Option<(i64, String)>, token: &Option<String>) -> (r:
    QQMusicSourceConfigDto)
    ensures
        r@ == shown_config(
            match stored {
                Some((flag, base_url)) => Some((flag, base_url@)),
                None => None,
            },
            *token is Some,
        ),
{
    let has_token: bool = token.is_some();
    let masked_token: String = if has_token {
        "••••••••••••".to_string()
    } else {
        String::new()
    };
    match stored {
        Some((flag, base_url)) => QQMusicSourceConfigDto {
            enabled: flag == 1,
            base_url,
            has_token,
            masked_token,
        },
        None => QQMusicSourceConfigDto {
            enabled: false,
            base_url: QQMUSIC_DEFAULT_BASE_URL.to_string(),
            has_token,
            masked_token,
        },
    }
}

/// A truth value as it is stored.
pub open spec fn stored_flag(b: bool) -> i64 {
    if b {
        1
    } else {
        0
    }
}

/// The address to store: the one given, or the default, without slashes at its end.
pub open spec fn stored_base_url(base_url: Option<Seq<char>>) -> Seq<char> {
    text::strip_end(json::or_else(filled(base_url), QQMUSIC_DEFAULT_BASE_URL@), '/')
}

/// What a save stores: the number and the address of the row, and the credential
/// where a new one is given.
pub struct StoredSettings {
    pub enabled: i64,
    pub base_url: String,
    pub token: Option<String>,
}

/// What a save stores.
pub fn save_qqmusic_source_config_to_db(payload: SaveQQMusicSourceConfigPayload) -> (r:
    StoredSettings)
    ensures
        r.enabled == stored_flag(payload.enabled),
        r.base_url@ == stored_base_url(text::opt_view(payload.base_url)),
        text::opt_view(r.token) == filled(text::opt_view(payload.token)),
{
    let given: String = match if_filled(payload.base_url) {
        Some(t) => t,
        None => QQMUSIC_DEFAULT_BASE_URL.to_string(),
    };
    StoredSettings {
        enabled: if payload.enabled {
            1
        } else {
            0
        },
        base_url: strip_end_text(given.as_str(), '/'),
        token: if_filled(payload.token),
    }
}

/// The settings that requests use, where the source is enabled.
pub open spec fn resolved_config(shown: SourceConfigView, token: Option<Seq<char>>) -> Result<
    ConfigView,
    Seq<char>,
> {
    if shown.enabled {
        Ok(ConfigView { enabled: true, base_url: shown.base_url, token })
    } else {
        Err("QQ音乐来源未启用 / QQ Music source is not enabled."@)
    }
}

/// The settings that requests use. A source that is not enabled gives none.
pub fn resolve_qqmusic_source_config(config: QQMusicSourceConfigDto, token: Option<String>) -> (r:
    Result<ResolvedQQMusicSourceConfig, String>)
    ensures
        dto::outcome(r) == resolved_config(config@, text::opt_view(token)),
{
    if !config.enabled {
        return Err("QQ音乐来源未启用 / QQ Music source is not enabled.".to_string());
    }
    Ok(
        ResolvedQQMusicSourceConfig { enabled: config.enabled, base_url: config.base_url, token },
    )
}

/// What is saved is loaded: the source is enabled exactly as it was saved, its
/// address is the one stored, and it can be used exactly where it is enabled.
pub proof fn law_saved_settings_are_loaded(
    enabled: bool,
    base_url: Option<Seq<char>>,
    token: Option<Seq<char>>,
)
    ensures
        ({
            let shown = shown_config(
                Some((stored_flag(enabled), stored_base_url(base_url))),
                token is Some,
            );
            &&& shown.enabled == enabled
            &&& shown.base_url == stored_base_url(base_url)
            &&& resolved_config(shown, token) is Ok <==> enabled
        }),
{
}

/// The address that is stored does not end with a slash, and storing it again
/// changes nothing.
pub proof fn law_stored_address(base_url: Option<Seq<char>>)
    ensures
        ({
            let url = stored_base_url(base_url);
            &&& url.len() > 0 ==> url.last() != '/'
            &&& text::strip_end(url, '/') == url
        }),
{
    lemma_strip_end(json::or_else(filled(base_url), QQMUSIC_DEFAULT_BASE_URL@), '/');
}

proof fn lemma_strip_end(s: Seq<char>, c: char)
    ensures
        text::strip_end(s, c).len() > 0 ==> text::strip_end(s, c).last() != c,
        text::strip_end(text::strip_end(s, c), c) == text::strip_end(s, c),
    decreases s.len(),
{
    if s.len() > 0 && s.last() == c {
        lemma_strip_end(s.drop_last(), c);
    }
}

/// What is shown in place of a credential tells nothing of it but that there is one.
pub proof fn law_mask_hides_token(
    stored: Option<(i64, Seq<char>)>,
    a: Option<Seq<char>>,
    b: Option<Seq<char>>,
)
    requires
        a is Some <==> b is Some,
    ensures
        shown_config(stored, a is Some) == shown_config(stored, b is Some),
{
}

/// The row of a source that was enabled: its address stays, and is the default
/// where there was none.
pub open spec fn enabled_row(stored: Option<(i64, Seq<char>)>) -> (i64, Seq<char>) {
    match stored {
        Some((_, base_url)) => (1, base_url),
        None => (1, QQMUSIC_DEFAULT_BASE_URL@),
    }
}

/// The row to store once a login has succeeded: the source is enabled.
pub fn ensure_qqmusic_source_enabled(stored: Option<(i64, String)>) -> (r: (i64, String))
    ensures
        (r.0, r.1@) == enabled_row(
            match stored {
                Some((flag, base_url)) => Some((flag, base_url@)),
                None => None,
            },
        ),
{
    match stored {
        Some((_, base_url)) => (1, base_url),
        None => (1, QQMUSIC_DEFAULT_BASE_URL.to_string()),
    }
}

/// A source that was enabled can be used, with the address that it had.
pub proof fn law_enabled_source_resolves(
    stored: Option<(i64, Seq<char>)>,
    token: Option<Seq<char>>,
)
    ensures
        ({
            let before = shown_config(stored, token is Some);
            let now = shown_config(Some(enabled_row(stored)), token is Some);
            &&& now.enabled
            &&& now.base_url == before.base_url
            &&& resolved_config(now, token) == Ok::<ConfigView, Seq<char>>(
                ConfigView { enabled: true, base_url: before.base_url, token },
            )
        }),
{
}

// ---------------------------------------------------------------------------
// The report
// ---------------------------------------------------------------------------
/// The length of a text in UTF-8.
pub open spec fn byte_len(t: Seq<char>) -> u64 {
    encode_utf8(t).len() as u64
}

/// The report on the settings and the cookie.
pub open spec fn report(enabled: bool, token: Option<Seq<char>>) -> Doc {
    let cookie = account::cookie_of(token);
    let key = json::or_else(cookies::signing_key(cookie), seq![]);
    json::object(
        seq![
            ("config_enabled"@, Doc::Bool(enabled)),
            ("token_exists"@, Doc::Bool(token is Some)),
            ("token_length"@, Doc::Unsigned(byte_len(cookie))),
            ("token_preview"@, Doc::Text(text::preview(cookie, 200))),
            ("contains_qqmusic_key"@, Doc::Bool(text::contains(cookie, "qqmusic_key="@))),
            ("contains_uin"@, Doc::Bool(text::contains(cookie, "uin="@))),
            ("contains_pt2gguin"@, Doc::Bool(text::contains(cookie, "pt2gguin="@))),
            ("contains_p_skey"@, Doc::Bool(text::contains(cookie, "p_skey="@))),
            ("uin_str"@, Doc::Text(account::uin_of(token))),
            ("uin_num"@, Doc::Unsigned(account::uin_num_of(token))),
            ("g_tk"@, Doc::Unsigned(encoding::hash_from(5381, account::gtk_key_old(cookie)) as u64)),
            (
                "g_tk_new"@,
                Doc::Unsigned(encoding::hash_from(5381, account::gtk_key_new(cookie)) as u64),
            ),
            ("qqmusic_key_length"@, Doc::Unsigned(byte_len(key))),
            ("qqmusic_key_preview"@, Doc::Text(text::preview(key, 30))),
            (
                "p_skey_length"@,
                Doc::Unsigned(
                    byte_len(json::or_else(cookies::cookie_value(cookie, "p_skey"@), seq![])),
                ),
            ),
            (
                "superkey_length"@,
                Doc::Unsigned(
                    byte_len(json::or_else(cookies::cookie_value(cookie, "superkey"@), seq![])),
                ),
            ),
        ],
    )
}

/// The length of a text in UTF-8.
fn measure(t: &str) -> (n: u64)
    ensures
        n == byte_len(t@),
{
    t.as_bytes().len() as u64
}

/// The text, empty where there is none.
fn unwrap_text(t: Option<String>) -> (r: String)
    ensures
        r@ == json::or_else(text::opt_view(t), seq![]),
{
    match t {
        Some(s) => s,
        None => String::new(),
    }
}

/// The report on the settings and the cookie, for a look at what is wrong.
pub fn debug_dump_qqmusic(enabled: bool, token: Option<String>) -> (r: JsonBody)
    ensures
        r@ == report(enabled, text::opt_view(token)),
{
    let config: ResolvedQQMusicSourceConfig = ResolvedQQMusicSourceConfig {
        enabled: true,
        base_url: String::new(),
        token,
    };
    let cookie: String = account::token_text(&config);
    let uin: String = account::resolve_qqmusic_uin(&config);
    let uin_num: u64 = account::resolve_qqmusic_uin_num(&config);
    let (g_tk, g_tk_new) = account::resolve_qqmusic_gtk(&config);
    let key: String = unwrap_text(extract_qqmusic_signing_key(cookie.as_str()));
    let p_skey: String = unwrap_text(extract_cookie_raw(cookie.as_str(), "p_skey"));
    let superkey: String = unwrap_text(extract_cookie_raw(cookie.as_str(), "superkey"));
    let c: &str = cookie.as_str();
    let mut m: Vec<(String, JsonBody)> = Vec::new();
    put(&mut m, "config_enabled", JsonBody::Bool(enabled));
    put(&mut m, "token_exists", JsonBody::Bool(config.token.is_some()));
    put(&mut m, "token_length", JsonBody::Unsigned(measure(c)));
    put_text(&mut m, "token_preview", safe_preview(c, 200));
    put(&mut m, "contains_qqmusic_key", JsonBody::Bool(text_contains(c, "qqmusic_key=")));
    put(&mut m, "contains_uin", JsonBody::Bool(text_contains(c, "uin=")));
    put(&mut m, "contains_pt2gguin", JsonBody::Bool(text_contains(c, "pt2gguin=")));
    put(&mut m, "contains_p_skey", JsonBody::Bool(text_contains(c, "p_skey=")));
    put_text(&mut m, "uin_str", uin.as_str());
    put(&mut m, "uin_num", JsonBody::Unsigned(uin_num));
    put(&mut m, "g_tk", JsonBody::Unsigned(g_tk as u64));
    put(&mut m, "g_tk_new", JsonBody::Unsigned(g_tk_new as u64));
    put(&mut m, "qqmusic_key_length", JsonBody::Unsigned(measure(key.as_str())));
    put_text(&mut m, "qqmusic_key_preview", safe_preview(key.as_str(), 30));
    put(&mut m, "p_skey_length", JsonBody::Unsigned(measure(p_skey.as_str())));
    put(&mut m, "superkey_length", JsonBody::Unsigned(measure(superkey.as_str())));
    let ghost members = json::pairs(m@);
    let r: JsonBody = object_body(m);
    proof {
        let token = config@.token;
        let cookie = account::cookie_of(token);
        let key = json::or_else(cookies::signing_key(cookie), seq![]);
        assert(members =~= seq![
            ("config_enabled"@, Doc::Bool(enabled)),
            ("token_exists"@, Doc::Bool(token is Some)),
            ("token_length"@, Doc::Unsigned(byte_len(cookie))),
            ("token_preview"@, Doc::Text(text::preview(cookie, 200))),
            ("contains_qqmusic_key"@, Doc::Bool(text::contains(cookie, "qqmusic_key="@))),
            ("contains_uin"@, Doc::Bool(text::contains(cookie, "uin="@))),
            ("contains_pt2gguin"@, Doc::Bool(text::contains(cookie, "pt2gguin="@))),
            ("contains_p_skey"@, Doc::Bool(text::contains(cookie, "p_skey="@))),
            ("uin_str"@, Doc::Text(account::uin_of(token))),
            ("uin_num"@, Doc::Unsigned(account::uin_num_of(token))),
            ("g_tk"@, Doc::Unsigned(encoding::hash_from(5381, account::gtk_key_old(cookie)) as u64)),
            (
                "g_tk_new"@,
                Doc::Unsigned(encoding::hash_from(5381, account::gtk_key_new(cookie)) as u64),
            ),
            ("qqmusic_key_length"@, Doc::Unsigned(byte_len(key))),
            ("qqmusic_key_preview"@, Doc::Text(text::preview(key, 30))),
            (
                "p_skey_length"@,
                Doc::Unsigned(
                    byte_len(json::or_else(cookies::cookie_value(cookie, "p_skey"@), seq![])),
                ),
            ),
            (
                "superkey_length"@,
                Doc::Unsigned(
                    byte_len(json::or_else(cookies::cookie_value(cookie, "superkey"@), seq![])),
                ),
            ),
        ]);
    }
    r
}

/// An address that needs no change is stored as it is, one with slashes or white space
/// at its ends without them, and the default where none is given.
pub proof fn law_address_is_stored(url: Seq<char>, slashes: Seq<char>)
    requires
        url.len() > 0,
        text::trim(url) == url,
        url.last() != '/',
        forall|i: int| 0 <= i < slashes.len() ==> #[trigger] slashes[i] == '/',
    ensures
        stored_base_url(Some(url)) == url,
        stored_base_url(Some(url + slashes)) == url,
        stored_base_url(None) == "https://c.y.qq.com"@,
        stored_base_url(Some(seq![])) == "https://c.y.qq.com"@,
{
    reveal_strlit("https://c.y.qq.com");
    let none: Seq<char> = seq![];
    assert(text::trim(none) =~= none);
    text::lemma_trim(url);
    let long = url + slashes;
    assert(long[0] == url[0]);
    if slashes.len() > 0 {
        assert(long.last() == slashes[slashes.len() - 1]);
    } else {
        assert(long =~= url);
    }
    text::lemma_trim_start(long);
    text::lemma_trim_end(long);
    assert(text::trim(long) == long);
    lemma_strip_slashes(url, slashes);
}

proof fn lemma_strip_slashes(url: Seq<char>, slashes: Seq<char>)
    requires
        url.len() > 0,
        url.last() != '/',
        forall|i: int| 0 <= i < slashes.len() ==> #[trigger] slashes[i] == '/',
    ensures
        text::strip_end(url + slashes, '/') == url,
    decreases slashes.len(),
{
    if slashes.len() == 0 {
        assert(url + slashes =~= url);
    } else {
        let s = url + slashes;
        assert(s.last() == slashes[slashes.len() - 1]);
        assert(s.drop_last() =~= url + slashes.drop_last());
        lemma_strip_slashes(url, slashes.drop_last());
    }
}

/// What is shown of the settings is what is stored: the source is enabled where the
/// number is one, at its address; without a row it is disabled, at the default address.
/// A mask is shown exactly where there is a credential.
pub proof fn law_settings_are_shown(flag: i64, base_url: Seq<char>, has_token: bool)
    ensures
        ({
            let a = shown_config(Some((flag, base_url)), has_token);
            let b = shown_config(None, has_token);
            &&& a.enabled <==> flag == 1
            &&& a.base_url == base_url
            &&& a.has_token == has_token && b.has_token == has_token
            &&& a.masked_token.len() > 0 <==> has_token
            &&& b.masked_token == a.masked_token
            &&& has_token ==> a.masked_token == Seq::new(12, |i: int| '•')
            &&& !b.enabled
            &&& b.base_url == "https://c.y.qq.com"@
        }),
{
    reveal_strlit("••••••••••••");
    assert("••••••••••••"@ =~= Seq::new(12, |i: int| '•'));
}

/// A credential is kept without white space at its ends, and one that has nothing else
/// is none.
pub proof fn law_credential_is_trimmed(t: Seq<char>)
    ensures
        filled(None) is None,
        filled(Some(t)) is None <==> text::trim(t).len() == 0,
        filled(Some(t)) matches Some(kept) ==> kept == text::trim(t),
        t.len() > 0 && !text::is_space(t[0]) && !text::is_space(t.last()) ==> filled(Some(t))
            == Some(t),
{
    text::lemma_trim_start(t);
    text::lemma_trim_end(t);
}

/// The settings that requests use have the credential and the address of the source.
pub proof fn law_requests_use_the_settings(shown: SourceConfigView, token: Option<Seq<char>>)
    ensures
        match resolved_config(shown, token) {
            Ok(c) => shown.enabled && c.enabled && c.base_url == shown.base_url && c.token == token,
            Err(e) => !shown.enabled && e
                == "QQ音乐来源未启用 / QQ Music source is not enabled."@,
        },
{
}

/// The report tells whether the source is enabled, what the cookie holds and what is
/// made of it, each under its name.
pub proof fn law_report_tells_its_parts(enabled: bool, token: Option<Seq<char>>)
    ensures
        ({
            let r = Some(report(enabled, token));
            let cookie = account::cookie_of(token);
            &&& json::member(r, "config_enabled"@) == Some(Doc::Bool(enabled))
            &&& json::member(r, "token_exists"@) == Some(Doc::Bool(token is Some))
            &&& json::member(r, "contains_qqmusic_key"@) == Some(
                Doc::Bool(text::contains(cookie, "qqmusic_key="@)),
            )
            &&& json::member(r, "contains_uin"@) == Some(
                Doc::Bool(text::contains(cookie, "uin="@)),
            )
            &&& json::member(r, "contains_pt2gguin"@) == Some(
                Doc::Bool(text::contains(cookie, "pt2gguin="@)),
            )
            &&& json::member(r, "contains_p_skey"@) == Some(
                Doc::Bool(text::contains(cookie, "p_skey="@)),
            )
            &&& json::member(r, "uin_str"@) == Some(Doc::Text(account::uin_of(token)))
            &&& json::member(r, "uin_num"@) == Some(Doc::Unsigned(account::uin_num_of(token)))
            &&& json::member(r, "g_tk"@) == Some(
                Doc::Unsigned(encoding::hash_from(5381, account::gtk_key_old(cookie)) as u64),
            )
            &&& json::member(r, "g_tk_new"@) == Some(
                Doc::Unsigned(encoding::hash_from(5381, account::gtk_key_new(cookie)) as u64),
            )
            &&& json::member(r, "token_preview"@) == Some(Doc::Text(text::preview(cookie, 200)))
            &&& json::member(r, "token_length"@) == Some(
                Doc::Unsigned(encode_utf8(cookie).len() as u64),
            )
            &&& json::member(r, "qqmusic_key_length"@) == Some(
                Doc::Unsigned(value_length(cookies::signing_key(cookie))),
            )
            &&& json::member(r, "qqmusic_key_preview"@) == Some(
                Doc::Text(
                    match cookies::signing_key(cookie) {
                        Some(key) => text::preview(key, 30),
                        None => text::preview(seq![], 30),
                    },
                ),
            )
            &&& json::member(r, "p_skey_length"@) == Some(
                Doc::Unsigned(value_length(cookies::cookie_value(cookie, "p_skey"@))),
            )
            &&& json::member(r, "superkey_length"@) == Some(
                Doc::Unsigned(value_length(cookies::cookie_value(cookie, "superkey"@))),
            )
        }),
{
    let cookie = account::cookie_of(token);
    let key = json::or_else(cookies::signing_key(cookie), seq![]);
    let given = seq![
        ("config_enabled"@, Doc::Bool(enabled)),
        ("token_exists"@, Doc::Bool(token is Some)),
        ("token_length"@, Doc::Unsigned(byte_len(cookie))),
        ("token_preview"@, Doc::Text(text::preview(cookie, 200))),
        ("contains_qqmusic_key"@, Doc::Bool(text::contains(cookie, "qqmusic_key="@))),
        ("contains_uin"@, Doc::Bool(text::contains(cookie, "uin="@))),
        ("contains_pt2gguin"@, Doc::Bool(text::contains(cookie, "pt2gguin="@))),
        ("contains_p_skey"@, Doc::Bool(text::contains(cookie, "p_skey="@))),
        ("uin_str"@, Doc::Text(account::uin_of(token))),
        ("uin_num"@, Doc::Unsigned(account::uin_num_of(token))),
        ("g_tk"@, Doc::Unsigned(encoding::hash_from(5381, account::gtk_key_old(cookie)) as u64)),
        (
            "g_tk_new"@,
            Doc::Unsigned(encoding::hash_from(5381, account::gtk_key_new(cookie)) as u64),
        ),
        ("qqmusic_key_length"@, Doc::Unsigned(byte_len(key))),
        ("qqmusic_key_preview"@, Doc::Text(text::preview(key, 30))),
        (
            "p_skey_length"@,
            Doc::Unsigned(byte_len(json::or_else(cookies::cookie_value(cookie, "p_skey"@), seq![]))),
        ),
        (
            "superkey_length"@,
            Doc::Unsigned(
                byte_len(json::or_else(cookies::cookie_value(cookie, "superkey"@), seq![])),
            ),
        ),
    ];
    assert(report(enabled, token) == json::object(given));
    reveal_strlit("config_enabled");
    reveal_strlit("token_exists");
    reveal_strlit("token_length");
    reveal_strlit("token_preview");
    reveal_strlit("contains_qqmusic_key");
    reveal_strlit("contains_uin");
    reveal_strlit("contains_pt2gguin");
    reveal_strlit("contains_p_skey");
    reveal_strlit("uin_str");
    reveal_strlit("uin_num");
    reveal_strlit("g_tk");
    reveal_strlit("g_tk_new");
    reveal_strlit("qqmusic_key_length");
    reveal_strlit("qqmusic_key_preview");
    reveal_strlit("p_skey_length");
    reveal_strlit("superkey_length");
    assert("config_enabled"@.len() == 14 && "token_exists"@.len() == 12 && "token_length"@.len()
        == 12 && "token_preview"@.len() == 13);
    assert("token_exists"@[6] == 'e' && "token_length"@[6] == 'l');
    assert("contains_qqmusic_key"@.len() == 20 && "contains_uin"@.len() == 12
        && "contains_pt2gguin"@.len() == 17 && "contains_p_skey"@.len() == 15);
    assert("contains_uin"@[0] == 'c' && "token_exists"@[0] == 't' && "token_length"@[0] == 't');
    assert("uin_str"@.len() == 7 && "uin_num"@.len() == 7 && "uin_str"@[4] == 's' && "uin_num"@[4]
        == 'n');
    assert("g_tk"@.len() == 4 && "g_tk_new"@.len() == 8);
    assert("qqmusic_key_length"@.len() == 18 && "qqmusic_key_preview"@.len() == 19);
    assert("p_skey_length"@.len() == 13 && "superkey_length"@.len() == 15);
    assert("p_skey_length"@[0] == 'p' && "token_preview"@[0] == 't');
    assert("superkey_length"@[0] == 's' && "contains_p_skey"@[0] == 'c');
    json::law_object_has_its_members(given, "config_enabled"@, 0);
    json::law_object_has_its_members(given, "token_exists"@, 1);
    json::law_object_has_its_members(given, "token_length"@, 2);
    json::law_object_has_its_members(given, "token_preview"@, 3);
    json::law_object_has_its_members(given, "contains_qqmusic_key"@, 4);
    json::law_object_has_its_members(given, "contains_uin"@, 5);
    json::law_object_has_its_members(given, "contains_pt2gguin"@, 6);
    json::law_object_has_its_members(given, "contains_p_skey"@, 7);
    json::law_object_has_its_members(given, "uin_str"@, 8);
    json::law_object_has_its_members(given, "uin_num"@, 9);
    json::law_object_has_its_members(given, "g_tk"@, 10);
    json::law_object_has_its_members(given, "g_tk_new"@, 11);
    json::law_object_has_its_members(given, "qqmusic_key_length"@, 12);
    json::law_object_has_its_members(given, "qqmusic_key_preview"@, 13);
    json::law_object_has_its_members(given, "p_skey_length"@, 14);
    json::law_object_has_its_members(given, "superkey_length"@, 15);
    lemma_no_bytes();
}

/// The number of bytes of a value, none where it is missing.
pub open spec fn value_length(v: Option<Seq<char>>) -> u64 {
    match v {
        Some(t) => encode_utf8(t).len() as u64,
        None => 0,
    }
}

proof fn lemma_no_bytes()
    ensures
        byte_len(seq![]) == 0,
{
    assert(encode_utf8(seq![]).len() == 0);
}

} // verus!
