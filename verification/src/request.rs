//! Requests to the service as plain values, and what is made of the replies.
use vstd::prelude::*;
use vstd::utf8::*;
use crate::account::{self, resolve_qqmusic_uin};
use crate::constants::{QQMUSIC_MUSICU_URL, QQMUSIC_REFERER, QQMUSIC_UA};
use crate::cookies::{self, complete_cookie};
use crate::dto::{self, ResolvedQQMusicSourceConfig};
use crate::encoding::{self, url_encode};
use crate::json::{
    self,
    array_of_one,
    json_to_string,
    object_body,
    parse_json,
    put,
    put_text,
    Doc,
    Json,
    JsonBody,
};
use crate::text::{self, concat2, concat3, text_starts_with, trim_start_text};

verus! {

// ---------------------------------------------------------------------------
// Pairs of texts
// ---------------------------------------------------------------------------
/// The views of pairs of texts, in order.
pub open spec fn pair_views(v: Seq<(String, String)>) -> Seq<(Seq<char>, Seq<char>)> {
    Seq::new(v.len(), |i: int| (v[i].0@, v[i].1@))
}

/// Adds a pair of texts.
pub fn push_pair(pairs: &mut Vec<(String, String)>, name: &str, value: &str)
    ensures
        pair_views(final(pairs)@) == pair_views(old(pairs)@).push((name@, value@)),
{
    let ghost before = pair_views(pairs@);
    pairs.push((name.to_string(), value.to_string()));
    proof {
        assert(pair_views(pairs@) =~= before.push((name@, value@)));
    }
}

/// Adds pairs of texts, in order.
fn push_pairs(pairs: &mut Vec<(String, String)>, more: &Vec<(String, String)>)
    ensures
        pair_views(final(pairs)@) == pair_views(old(pairs)@) + pair_views(more@),
{
    let ghost start = pair_views(pairs@);
    let ghost all = pair_views(more@);
    proof {
        assert(start + all.take(0) =~= start);
    }
    for i in 0..more.len()
        invariant
            all == pair_views(more@),
            pair_views(pairs@) == start + all.take(i as int),
    {
        push_pair(pairs, more[i].0.as_str(), more[i].1.as_str());
        proof {
            assert(start + all.take(i + 1) =~= (start + all.take(i as int)).push(all[i as int]));
        }
    }
    proof {
        assert(all.take(all.len() as int) =~= all);
    }
}

// ---------------------------------------------------------------------------
// Requests
// ---------------------------------------------------------------------------
/// A GET request: where it goes, the parameters to be added to its query, and
/// its headers in order.
pub struct Request {
    pub url: String,
    pub query: Vec<(String, String)>,
    pub headers: Vec<(String, String)>,
}

/// What a `Request` means.
pub struct RequestView {
    pub url: Seq<char>,
    pub query: Seq<(Seq<char>, Seq<char>)>,
    pub headers: Seq<(Seq<char>, Seq<char>)>,
}

impl View for Request {
    type V = RequestView;

    open spec fn view(&self) -> RequestView {
        RequestView {
            url: self.url@,
            query: pair_views(self.query@),
            headers: pair_views(self.headers@),
        }
    }
}

/// The headers of a request for text.
pub open spec fn default_headers() -> Seq<(Seq<char>, Seq<char>)> {
    seq![
        ("Referer"@, QQMUSIC_REFERER@),
        ("User-Agent"@, QQMUSIC_UA@),
        ("Accept"@, "application/json, text/plain, */*"@),
    ]
}

/// The headers of a request for text: those of the web player.
pub fn qqmusic_default_headers() -> (r: Vec<(String, String)>)
    ensures
        pair_views(r@) == default_headers(),
{
    let mut headers: Vec<(String, String)> = Vec::new();
    push_pair(&mut headers, "Referer", QQMUSIC_REFERER);
    push_pair(&mut headers, "User-Agent", QQMUSIC_UA);
    push_pair(&mut headers, "Accept", "application/json, text/plain, */*");
    proof {
        assert(pair_views(headers@) =~= default_headers());
    }
    headers
}

/// The headers of a browser that navigates to a login page.
pub open spec fn browser_headers() -> Seq<(Seq<char>, Seq<char>)> {
    seq![
        ("User-Agent"@, QQMUSIC_UA@),
        (
            "Accept"@,
            "text/html,application/xhtml+xml,application/xml;q=0.9,image/avif,image/webp,image/apng,*/*;q=0.8,application/signed-exchange;v=b3;q=0.7"@,
        ),
        ("Accept-Language"@, "zh-CN,zh;q=0.9,en;q=0.8"@),
        ("Sec-Fetch-Dest"@, "document"@),
        ("Sec-Fetch-Mode"@, "navigate"@),
        ("Sec-Fetch-Site"@, "same-origin"@),
        ("Sec-Fetch-User"@, "?1"@),
        ("Upgrade-Insecure-Requests"@, "1"@),
    ]
}

/// The headers of a browser that navigates to a login page. The login server
/// turns requests without them away.
pub fn qq_login_browser_headers() -> (r: Vec<(String, String)>)
    ensures
        pair_views(r@) == browser_headers(),
{
    let mut headers: Vec<(String, String)> = Vec::new();
    push_pair(&mut headers, "User-Agent", QQMUSIC_UA);
    push_pair(
        &mut headers,
        "Accept",
        "text/html,application/xhtml+xml,application/xml;q=0.9,image/avif,image/webp,image/apng,*/*;q=0.8,application/signed-exchange;v=b3;q=0.7",
    );
    push_pair(&mut headers, "Accept-Language", "zh-CN,zh;q=0.9,en;q=0.8");
    push_pair(&mut headers, "Sec-Fetch-Dest", "document");
    push_pair(&mut headers, "Sec-Fetch-Mode", "navigate");
    push_pair(&mut headers, "Sec-Fetch-Site", "same-origin");
    push_pair(&mut headers, "Sec-Fetch-User", "?1");
    push_pair(&mut headers, "Upgrade-Insecure-Requests", "1");
    proof {
        assert(pair_views(headers@) =~= browser_headers());
    }
    headers
}

/// The cookie header of a token, where there is one.
pub open spec fn cookie_header(token: Option<Seq<char>>) -> Seq<(Seq<char>, Seq<char>)> {
    match token {
        Some(cookie) => seq![("Cookie"@, cookie)],
        None => seq![],
    }
}

/// A request for text: the default headers, then the extra ones, then the cookie.
pub open spec fn text_request_of(
    token: Option<Seq<char>>,
    url: Seq<char>,
    query: Seq<(Seq<char>, Seq<char>)>,
    extra: Seq<(Seq<char>, Seq<char>)>,
) -> RequestView {
    RequestView { url, query, headers: default_headers() + extra + cookie_header(token) }
}

/// The request for the text at an address.
pub fn text_request(
    config: &ResolvedQQMusicSourceConfig,
    url: &str,
    query: Vec<(String, String)>,
    extra: &Vec<(String, String)>,
) -> (r: Request)
    ensures
        r@ == text_request_of(config@.token, url@, pair_views(query@), pair_views(extra@)),
{
    let mut headers: Vec<(String, String)> = qqmusic_default_headers();
    push_pairs(&mut headers, extra);
    let ghost before = pair_views(headers@);
    match &config.token {
        Some(cookie) => {
            push_pair(&mut headers, "Cookie", cookie.as_str());
            proof {
                assert(before.push(("Cookie"@, cookie@)) =~= before + seq![("Cookie"@, cookie@)]);
            }
        },
        None => {
            proof {
                assert(before =~= before + seq![]);
            }
        },
    }
    Request { url: url.to_string(), query, headers }
}

/// The cookie as a JSON request carries it, with the signing key under both names.
pub open spec fn completed_token(token: Option<Seq<char>>) -> Option<Seq<char>> {
    match token {
        Some(cookie) => Some(cookies::completed_cookie(cookie)),
        None => None,
    }
}

/// A request that carries a JSON document in its query, percent-encoded, and
/// nothing else there: further parameters make the service refuse it.
pub open spec fn json_request_of(token: Option<Seq<char>>, url: Seq<char>, body: Doc) -> RequestView {
    RequestView {
        url: url + "?format=json&data="@ + encoding::percent_encode(
            encode_utf8(json::json_print(body)),
        ),
        query: seq![],
        headers: seq![
            ("Referer"@, "https://y.qq.com/"@),
            ("Origin"@, "https://y.qq.com"@),
            ("User-Agent"@, QQMUSIC_UA@),
            ("Accept"@, "application/json, text/plain, */*"@),
        ] + cookie_header(completed_token(token)),
    }
}

/// The request that carries a JSON document, with the cookie given.
fn json_request_with(token: &Option<String>, url: &str, body: &JsonBody) -> (r: Request)
    ensures
        r@ == json_request_of(text::opt_view(*token), url@, body@),
{
    let body_text: String = json_to_string(body);
    let encoded: String = url_encode(body_text.as_str());
    let full_url: String = concat3(url, "?format=json&data=", encoded.as_str());
    let mut headers: Vec<(String, String)> = Vec::new();
    push_pair(&mut headers, "Referer", "https://y.qq.com/");
    push_pair(&mut headers, "Origin", "https://y.qq.com");
    push_pair(&mut headers, "User-Agent", QQMUSIC_UA);
    push_pair(&mut headers, "Accept", "application/json, text/plain, */*");
    let ghost before = pair_views(headers@);
    proof {
        assert(before =~= seq![
            ("Referer"@, "https://y.qq.com/"@),
            ("Origin"@, "https://y.qq.com"@),
            ("User-Agent"@, QQMUSIC_UA@),
            ("Accept"@, "application/json, text/plain, */*"@),
        ]);
    }
    match token {
        Some(cookie) => {
            let full: String = complete_cookie(cookie.as_str());
            push_pair(&mut headers, "Cookie", full.as_str());
            proof {
                assert(before.push(("Cookie"@, full@)) =~= before + seq![("Cookie"@, full@)]);
            }
        },
        None => {
            proof {
                assert(before =~= before + seq![]);
            }
        },
    }
    let query: Vec<(String, String)> = Vec::new();
    proof {
        assert(pair_views(query@) =~= seq![]);
    }
    Request { url: full_url, query, headers }
}

/// The request that carries a JSON document.
pub fn json_request(config: &ResolvedQQMusicSourceConfig, url: &str, body: &JsonBody) -> (r: Request)
    ensures
        r@ == json_request_of(config@.token, url@, body@),
{
    json_request_with(&config.token, url, body)
}

/// The request that carries a JSON document and no cookie.
pub fn json_request_anon(url: &str, body: &JsonBody) -> (r: Request)
    ensures
        r@ == json_request_of(None, url@, body@),
{
    json_request_with(&None, url, body)
}

// ---------------------------------------------------------------------------
// Replies
// ---------------------------------------------------------------------------
/// How a request ended: without a reply, with one that could not be read, or
/// with a status and a text.
pub enum Exchange {
    NoReply(String),
    Unreadable(String),
    Reply { status: u16, text: String },
}

/// What an `Exchange` means.
pub enum ExchangeView {
    NoReply(Seq<char>),
    Unreadable(Seq<char>),
    Reply { status: u16, text: Seq<char> },
}

impl View for Exchange {
    type V = ExchangeView;

    open spec fn view(&self) -> ExchangeView {
        match *self {
            Exchange::NoReply(e) => ExchangeView::NoReply(e@),
            Exchange::Unreadable(e) => ExchangeView::Unreadable(e@),
            Exchange::Reply { status, text } => ExchangeView::Reply { status, text: text@ },
        }
    }
}

/// The text is a web page: a request for verification and no answer.
pub open spec fn is_page(t: Seq<char>) -> bool {
    text::starts_with(text::trim_start(t), "<!DOCTYPE"@) || text::starts_with(
        text::trim_start(t),
        "<html"@,
    )
}

/// Whether the text is a web page.
fn looks_like_page(t: &str) -> (r: bool)
    ensures
        r == is_page(t@),
{
    let rest: String = trim_start_text(t);
    text_starts_with(rest.as_str(), "<!DOCTYPE") || text_starts_with(rest.as_str(), "<html")
}

/// The service asks to be left alone for a while.
pub open spec fn is_rate_limit(status: u16) -> bool {
    status == 412 || status == 503
}

/// What a request for text gives.
pub open spec fn text_outcome(x: ExchangeView) -> Result<Seq<char>, Seq<char>> {
    match x {
        ExchangeView::NoReply(e) => Err("QQ音乐请求失败 / QQ Music request failed: "@ + e),
        ExchangeView::Unreadable(e) => Err(
            "QQ音乐响应读取失败 / Failed to read QQ Music response: "@ + e,
        ),
        ExchangeView::Reply { status, text } => if is_rate_limit(status) {
            Err("rate_limited: 请求过于频繁，请稍后再试 / Rate limited, please try later."@)
        } else if is_page(text) {
            Err("QQ音乐需要网页验证 / QQ Music requires web verification."@)
        } else {
            Ok(text)
        },
    }
}

/// The text that a request gave.
pub fn read_text(x: Exchange) -> (r: Result<String, String>)
    ensures
        dto::outcome(r) == text_outcome(x@),
{
    match x {
        Exchange::NoReply(e) => Err(
            concat2("QQ音乐请求失败 / QQ Music request failed: ", e.as_str()),
        ),
        Exchange::Unreadable(e) => Err(
            concat2("QQ音乐响应读取失败 / Failed to read QQ Music response: ", e.as_str()),
        ),
        Exchange::Reply { status, text } => if status == 412 || status == 503 {
            Err(
                "rate_limited: 请求过于频繁，请稍后再试 / Rate limited, please try later.".to_string(),
            )
        } else if looks_like_page(text.as_str()) {
            Err("QQ音乐需要网页验证 / QQ Music requires web verification.".to_string())
        } else {
            Ok(text)
        },
    }
}

/// What the text of a reply gives as a document.
pub open spec fn document_outcome(t: Seq<char>) -> Result<Doc, Seq<char>> {
    if is_page(t) {
        Err("QQ音乐需要网页验证 / QQ Music requires web verification."@)
    } else {
        match json::json_parse(t) {
            Some(d) => Ok(d),
            None => Err("QQ音乐 JSON 解析失败 / Failed to parse QQ Music JSON: "@ + t),
        }
    }
}

/// The document that the text of a reply holds.
fn read_document(t: String) -> (r: Result<Json, String>)
    ensures
        dto::outcome(r) == document_outcome(t@),
{
    if looks_like_page(t.as_str()) {
        return Err("QQ音乐需要网页验证 / QQ Music requires web verification.".to_string());
    }
    match parse_json(t.as_str()) {
        Some(d) => Ok(d),
        None => Err(
            concat2("QQ音乐 JSON 解析失败 / Failed to parse QQ Music JSON: ", t.as_str()),
        ),
    }
}

/// What a JSON request gives.
pub open spec fn json_outcome(x: ExchangeView) -> Result<Doc, Seq<char>> {
    match x {
        ExchangeView::NoReply(e) => Err("QQ音乐请求失败 / QQ Music request failed: "@ + e),
        ExchangeView::Unreadable(e) => Err(
            "QQ音乐响应读取失败 / Failed to read QQ Music response: "@ + e,
        ),
        ExchangeView::Reply { status, text } => if is_rate_limit(status) {
            Err("rate_limited: 请求过于频繁，请稍后再试 / Rate limited."@)
        } else {
            document_outcome(text)
        },
    }
}

/// The document that a JSON request gave.
pub fn read_json(x: Exchange) -> (r: Result<Json, String>)
    ensures
        dto::outcome(r) == json_outcome(x@),
{
    match x {
        Exchange::NoReply(e) => Err(
            concat2("QQ音乐请求失败 / QQ Music request failed: ", e.as_str()),
        ),
        Exchange::Unreadable(e) => Err(
            concat2("QQ音乐响应读取失败 / Failed to read QQ Music response: ", e.as_str()),
        ),
        Exchange::Reply { status, text } => if status == 412 || status == 503 {
            Err("rate_limited: 请求过于频繁，请稍后再试 / Rate limited.".to_string())
        } else {
            read_document(text)
        },
    }
}

/// What a JSON request without a cookie gives. Its status does not matter.
pub open spec fn json_outcome_anon(x: ExchangeView) -> Result<Doc, Seq<char>> {
    match x {
        ExchangeView::NoReply(e) => Err("QQ音乐请求失败 / QQ Music request failed: "@ + e),
        ExchangeView::Unreadable(e) => Err(
            "QQ音乐响应读取失败 / Failed to read QQ Music response: "@ + e,
        ),
        ExchangeView::Reply { status, text } => document_outcome(text),
    }
}

/// The document that a JSON request without a cookie gave.
pub fn read_json_anon(x: Exchange) -> (r: Result<Json, String>)
    ensures
        dto::outcome(r) == json_outcome_anon(x@),
{
    match x {
        Exchange::NoReply(e) => Err(
            concat2("QQ音乐请求失败 / QQ Music request failed: ", e.as_str()),
        ),
        Exchange::Unreadable(e) => Err(
            concat2("QQ音乐响应读取失败 / Failed to read QQ Music response: ", e.as_str()),
        ),
        Exchange::Reply { status: _, text } => read_document(text),
    }
}

// ---------------------------------------------------------------------------
// Bodies
// ---------------------------------------------------------------------------
/// The part of a body that says who asks. Without the account number the service
/// takes the request for an anonymous one.
pub open spec fn comm_doc(uin: Seq<char>) -> Doc {
    json::object(
        seq![
            ("uin"@, Doc::Text(uin)),
            ("format"@, Doc::Text("json"@)),
            ("ct"@, Doc::Unsigned(24)),
            ("cv"@, Doc::Unsigned(0)),
        ],
    )
}

/// The part of a body that says who asks.
pub fn comm_body(uin: &str) -> (r: JsonBody)
    ensures
        r@ == comm_doc(uin@),
{
    let mut members: Vec<(String, JsonBody)> = Vec::new();
    put_text(&mut members, "uin", uin);
    put_text(&mut members, "format", "json");
    put(&mut members, "ct", JsonBody::Unsigned(24));
    put(&mut members, "cv", JsonBody::Unsigned(0));
    proof {
        assert(json::pairs(members@) =~= seq![
            ("uin"@, Doc::Text(uin@)),
            ("format"@, Doc::Text("json"@)),
            ("ct"@, Doc::Unsigned(24)),
            ("cv"@, Doc::Unsigned(0)),
        ]);
    }
    object_body(members)
}

/// The part of a body that says which account asks.
pub fn build_qqmusic_comm(config: &ResolvedQQMusicSourceConfig) -> (r: JsonBody)
    ensures
        r@ == comm_doc(account::uin_of(config@.token)),
{
    let uin: String = resolve_qqmusic_uin(config);
    comm_body(uin.as_str())
}

/// A body that calls one method of one module.
pub open spec fn call_doc(comm: Doc, module: Seq<char>, method: Seq<char>, param: Doc) -> Doc {
    json::object(
        seq![
            ("comm"@, comm),
            (
                "req_1"@,
                json::object(
                    seq![
                        ("module"@, Doc::Text(module)),
                        ("method"@, Doc::Text(method)),
                        ("param"@, param),
                    ],
                ),
            ),
        ],
    )
}

/// A body that calls one method of one module.
pub fn call_body(comm: JsonBody, module: &str, method: &str, param: JsonBody) -> (r: JsonBody)
    ensures
        r@ == call_doc(comm@, module@, method@, param@),
{
    let ghost comm_view = comm@;
    let ghost param_view = param@;
    let mut inner: Vec<(String, JsonBody)> = Vec::new();
    put_text(&mut inner, "module", module);
    put_text(&mut inner, "method", method);
    put(&mut inner, "param", param);
    proof {
        assert(json::pairs(inner@) =~= seq![
            ("module"@, Doc::Text(module@)),
            ("method"@, Doc::Text(method@)),
            ("param"@, param_view),
        ]);
    }
    let req: JsonBody = object_body(inner);
    let ghost req_view = req@;
    let mut members: Vec<(String, JsonBody)> = Vec::new();
    put(&mut members, "comm", comm);
    put(&mut members, "req_1", req);
    proof {
        assert(json::pairs(members@) =~= seq![("comm"@, comm_view), ("req_1"@, req_view)]);
    }
    object_body(members)
}

/// An object with one member.
pub open spec fn one_member(name: Seq<char>, value: Doc) -> Doc {
    json::object(seq![(name, value)])
}

/// An object with one member.
pub fn one_member_body(name: &str, value: JsonBody) -> (r: JsonBody)
    ensures
        r@ == one_member(name@, value@),
{
    let ghost v = value@;
    let mut members: Vec<(String, JsonBody)> = Vec::new();
    put(&mut members, name, value);
    proof {
        assert(json::pairs(members@) =~= seq![(name@, v)]);
    }
    object_body(members)
}

/// The body that asks for the data of an account.
pub open spec fn user_info_doc(token: Option<Seq<char>>) -> Doc {
    call_doc(
        comm_doc(account::uin_of(token)),
        "userInfo.BaseUserInfoServer"@,
        "get_user_baseinfo"@,
        one_member("vec_uin"@, Doc::Array(seq![Doc::Unsigned(account::uin_num_of(token))])),
    )
}

/// The body that asks for the data of the account.
pub fn user_info_body(config: &ResolvedQQMusicSourceConfig) -> (r: JsonBody)
    ensures
        r@ == user_info_doc(config@.token),
{
    let uin: u64 = account::resolve_qqmusic_uin_num(config);
    call_body(
        build_qqmusic_comm(config),
        "userInfo.BaseUserInfoServer",
        "get_user_baseinfo",
        one_member_body("vec_uin", array_of_one(JsonBody::Unsigned(uin))),
    )
}

/// The body that asks for the playlists of an account.
pub open spec fn user_playlists_doc(token: Option<Seq<char>>) -> Doc {
    call_doc(
        comm_doc(account::uin_of(token)),
        "playlist.PlayListPlazaServer"@,
        "GetUserPlayList"@,
        one_member("uin"@, Doc::Unsigned(account::uin_num_of(token))),
    )
}

/// The body that asks for the playlists of the account.
pub fn user_playlists_body(config: &ResolvedQQMusicSourceConfig) -> (r: JsonBody)
    ensures
        r@ == user_playlists_doc(config@.token),
{
    let uin: u64 = account::resolve_qqmusic_uin_num(config);
    call_body(
        build_qqmusic_comm(config),
        "playlist.PlayListPlazaServer",
        "GetUserPlayList",
        one_member_body("uin", JsonBody::Unsigned(uin)),
    )
}

/// The body that asks who is logged in.
pub open spec fn login_info_doc(token: Option<Seq<char>>) -> Doc {
    call_doc(
        comm_doc(account::uin_of(token)),
        "music.UserInfoServer"@,
        "GetLoginInfo"@,
        json::object(seq![]),
    )
}

/// The body that asks who is logged in.
pub fn login_info_body(config: &ResolvedQQMusicSourceConfig) -> (r: JsonBody)
    ensures
        r@ == login_info_doc(config@.token),
{
    let none: Vec<(String, JsonBody)> = Vec::new();
    proof {
        assert(json::pairs(none@) =~= seq![]);
    }
    call_body(build_qqmusic_comm(config), "music.UserInfoServer", "GetLoginInfo", object_body(none))
}

/// The answer to the call of a body.
pub open spec fn answer_in(d: Doc) -> Option<Doc> {
    json::member(Some(d), "req_1"@)
}

/// The code of an answer, `-1` where it has none.
pub open spec fn answer_code(d: Doc) -> i64 {
    json::or_else(json::signed_in(json::member(answer_in(d), "code"@)), (-1) as i64)
}

/// The data of an answer.
pub open spec fn answer_data(d: Doc) -> Option<Doc> {
    json::member(answer_in(d), "data"@)
}

/// The code of an answer.
pub fn read_answer_code(value: &Json) -> (r: i64)
    ensures
        r == answer_code(value@),
{
    match json::as_i64(json::get(json::get(Some(value), "req_1"), "code")) {
        Some(code) => code,
        None => -1,
    }
}

/// The data of an answer.
pub fn read_answer_data(value: &Json) -> (r: Option<&Json>)
    ensures
        json::opt_doc(r) == answer_data(value@),
{
    json::get(json::get(Some(value), "req_1"), "data")
}

/// The request that calls a method, with the account's cookie.
pub fn musicu_request(config: &ResolvedQQMusicSourceConfig, body: &JsonBody) -> (r: Request)
    ensures
        r@ == json_request_of(config@.token, QQMUSIC_MUSICU_URL@, body@),
{
    json_request(config, QQMUSIC_MUSICU_URL, body)
}

/// Without a token no request carries a cookie, and a JSON request with one
/// carries it completed.
pub proof fn law_no_cookie_without_token(
    url: Seq<char>,
    query: Seq<(Seq<char>, Seq<char>)>,
    body: Doc,
    token: Seq<char>,
)
    ensures
        forall|i: int|
            0 <= i < text_request_of(None, url, query, seq![]).headers.len()
                ==> (#[trigger] text_request_of(None, url, query, seq![]).headers[i]).0
                != "Cookie"@,
        forall|i: int|
            0 <= i < json_request_of(None, url, body).headers.len()
                ==> (#[trigger] json_request_of(None, url, body).headers[i]).0 != "Cookie"@,
        json_request_of(Some(token), url, body).headers.contains(
            ("Cookie"@, cookies::completed_cookie(token)),
        ),
{
    reveal_strlit("Cookie");
    reveal_strlit("Referer");
    reveal_strlit("Origin");
    reveal_strlit("User-Agent");
    reveal_strlit("Accept");
    assert("Cookie"@.len() == 6 && "Referer"@.len() == 7 && "Origin"@.len() == 6
        && "User-Agent"@.len() == 10 && "Accept"@.len() == 6);
    assert("Cookie"@[0] == 'C' && "Origin"@[0] == 'O' && "Accept"@[0] == 'A');
    let headers = json_request_of(Some(token), url, body).headers;
    assert(headers[4] == ("Cookie"@, cookies::completed_cookie(token)));
}

/// A body that calls a method names its module, its method, its parameters and who
/// asks, each in its place.
pub proof fn law_call_names_its_parts(
    uin: Seq<char>,
    module: Seq<char>,
    method: Seq<char>,
    param: Doc,
)
    ensures
        ({
            let body = Some(call_doc(comm_doc(uin), module, method, param));
            let call = json::member(body, "req_1"@);
            let comm = json::member(body, "comm"@);
            &&& json::member(call, "module"@) == Some(Doc::Text(module))
            &&& json::member(call, "method"@) == Some(Doc::Text(method))
            &&& json::member(call, "param"@) == Some(param)
            &&& json::member(comm, "uin"@) == Some(Doc::Text(uin))
            &&& json::member(comm, "format"@) == Some(Doc::Text("json"@))
            &&& json::member(comm, "ct"@) == Some(Doc::Unsigned(24))
            &&& json::member(comm, "cv"@) == Some(Doc::Unsigned(0))
        }),
{
    reveal_strlit("req_1");
    reveal_strlit("comm");
    reveal_strlit("module");
    reveal_strlit("method");
    reveal_strlit("param");
    reveal_strlit("uin");
    reveal_strlit("format");
    reveal_strlit("ct");
    reveal_strlit("cv");
    assert("comm"@.len() == 4 && "req_1"@.len() == 5);
    assert("module"@[1] == 'o' && "method"@[1] == 'e' && "param"@.len() == 5);
    assert("module"@.len() == 6 && "method"@.len() == 6);
    assert("uin"@.len() == 3 && "format"@.len() == 6 && "ct"@[1] == 't' && "cv"@[1] == 'v');
    assert("ct"@.len() == 2 && "cv"@.len() == 2);
    let comm_members = seq![
        ("uin"@, Doc::Text(uin)),
        ("format"@, Doc::Text("json"@)),
        ("ct"@, Doc::Unsigned(24)),
        ("cv"@, Doc::Unsigned(0)),
    ];
    json::law_object_has_its_members(comm_members, "uin"@, 0);
    json::law_object_has_its_members(comm_members, "format"@, 1);
    json::law_object_has_its_members(comm_members, "ct"@, 2);
    json::law_object_has_its_members(comm_members, "cv"@, 3);
    let call_members = seq![
        ("module"@, Doc::Text(module)),
        ("method"@, Doc::Text(method)),
        ("param"@, param),
    ];
    json::law_object_has_its_members(call_members, "module"@, 0);
    json::law_object_has_its_members(call_members, "method"@, 1);
    json::law_object_has_its_members(call_members, "param"@, 2);
    let members = seq![("comm"@, comm_doc(uin)), ("req_1"@, json::object(call_members))];
    json::law_object_has_its_members(members, "comm"@, 0);
    json::law_object_has_its_members(members, "req_1"@, 1);
}

/// A request for text goes where it is sent, with the parameters and the further
/// headers given, and carries the cookie exactly as it is.
pub proof fn law_text_request_carries(
    token: Option<Seq<char>>,
    url: Seq<char>,
    query: Seq<(Seq<char>, Seq<char>)>,
    extra: Seq<(Seq<char>, Seq<char>)>,
)
    ensures
        ({
            let q = text_request_of(token, url, query, extra);
            &&& q.url == url
            &&& q.query == query
            &&& q.headers.contains(("Referer"@, QQMUSIC_REFERER@))
            &&& q.headers.contains(("User-Agent"@, QQMUSIC_UA@))
            &&& forall|i: int| 0 <= i < extra.len() ==> q.headers.contains(#[trigger] extra[i])
            &&& token matches Some(cookie) ==> q.headers.contains(("Cookie"@, cookie))
            &&& q.headers.len() == 3 + extra.len() + (if token is Some {
                1int
            } else {
                0int
            })
        }),
{
    let q = text_request_of(token, url, query, extra);
    assert(q.headers[0] == ("Referer"@, QQMUSIC_REFERER@));
    assert(q.headers[1] == ("User-Agent"@, QQMUSIC_UA@));
    assert forall|i: int| 0 <= i < extra.len() implies q.headers.contains(#[trigger] extra[i]) by {
        assert(q.headers[3 + i] == extra[i]);
    }
    if let Some(cookie) = token {
        assert(q.headers[3 + extra.len() as int] == ("Cookie"@, cookie));
    }
}

/// A request that carries a document has it in its address, behind the address that
/// it is sent to, and no parameters; it comes from the player.
pub proof fn law_json_request_carries(token: Option<Seq<char>>, url: Seq<char>, body: Doc)
    ensures
        ({
            let q = json_request_of(token, url, body);
            &&& q.url == url + "?format=json&data="@ + encoding::percent_encode(
                encode_utf8(json::json_print(body)),
            )
            &&& q.query.len() == 0
            &&& q.headers.contains(("Referer"@, "https://y.qq.com/"@))
            &&& q.headers.contains(("Origin"@, "https://y.qq.com"@))
            &&& q.headers.contains(("User-Agent"@, QQMUSIC_UA@))
            &&& q.headers.contains(("Accept"@, "application/json, text/plain, */*"@))
            &&& token matches Some(cookie) ==> q.headers.len() == 5 && q.headers.contains(
                ("Cookie"@, cookies::completed_cookie(cookie)),
            )
            &&& token is None ==> q.headers.len() == 4
        }),
{
    let q = json_request_of(token, url, body);
    assert(q.headers[3] == ("Accept"@, "application/json, text/plain, */*"@));
    if let Some(cookie) = token {
        assert(q.headers[4] == ("Cookie"@, cookies::completed_cookie(cookie)));
    }
    assert(q.headers[0] == ("Referer"@, "https://y.qq.com/"@));
    assert(q.headers[1] == ("Origin"@, "https://y.qq.com"@));
    assert(q.headers[2] == ("User-Agent"@, QQMUSIC_UA@));
}

/// A reply gives its text exactly where the service does not ask to be left alone
/// and the text is no web page; whatever else happens is an error. A document is
/// what the text holds.
pub proof fn law_reply_gives_its_text(x: ExchangeView)
    ensures
        match x {
            ExchangeView::Reply { status, text } => {
                &&& status == 412 || status == 503 ==> text_outcome(x) is Err && json_outcome(
                    x,
                ) is Err
                &&& text_outcome(x) matches Ok(t) ==> t == text
                &&& json_outcome(x) matches Ok(d) ==> json::json_parse(text) == Some(d)
                &&& json_outcome_anon(x) matches Ok(d) ==> json::json_parse(text) == Some(d)
                &&& text::starts_with(text, "<!DOCTYPE"@) || text::starts_with(text, "<html"@)
                    ==> text_outcome(x) is Err && json_outcome(x) is Err && json_outcome_anon(
                    x,
                ) is Err
                &&& text.len() > 0 && text[0] != '<' && !text::is_space(text[0]) ==> {
                    &&& status != 412 && status != 503 ==> text_outcome(x) == Ok::<
                        Seq<char>,
                        Seq<char>,
                    >(text)
                    &&& status != 412 && status != 503 ==> (json_outcome(x) is Ok
                        <==> json::json_parse(text) is Some)
                    &&& json_outcome_anon(x) is Ok <==> json::json_parse(text) is Some
                }
            },
            ExchangeView::NoReply(e) => text_outcome(x) is Err && json_outcome(x) is Err
                && json_outcome_anon(x) is Err && text::ends_with(text_outcome(x)->Err_0, e)
                && text::ends_with(json_outcome(x)->Err_0, e),
            ExchangeView::Unreadable(e) => text_outcome(x) is Err && json_outcome(x) is Err
                && json_outcome_anon(x) is Err && text::ends_with(text_outcome(x)->Err_0, e)
                && text::ends_with(json_outcome(x)->Err_0, e),
        },
{
    reveal_strlit("<!DOCTYPE");
    reveal_strlit("<html");
    match x {
        ExchangeView::Reply { status, text } => {
            text::lemma_trim_start(text);
            if text::starts_with(text, "<!DOCTYPE"@) {
                assert(text.take(9)[0] == "<!DOCTYPE"@[0]);
            }
            if text::starts_with(text, "<html"@) {
                assert(text.take(5)[0] == "<html"@[0]);
            }
            if text.len() > 0 && text[0] != '<' && !text::is_space(text[0]) {
                assert(text::trim_start(text) == text);
                if text::starts_with(text, "<!DOCTYPE"@) {
                    assert(text.take(9)[0] == '<');
                }
                if text::starts_with(text, "<html"@) {
                    assert(text.take(5)[0] == '<');
                }
            }
        },
        ExchangeView::NoReply(e) => {
            lemma_ends("QQ音乐请求失败 / QQ Music request failed: "@, e);
        },
        ExchangeView::Unreadable(e) => {
            lemma_ends("QQ音乐响应读取失败 / Failed to read QQ Music response: "@, e);
        },
    }
}

proof fn lemma_ends(a: Seq<char>, b: Seq<char>)
    ensures
        text::ends_with(a + b, b),
{
    assert((a + b).skip(a.len() as int) =~= b);
}

/// The code and the data of an answer are members of its part for the call. Where
/// the code is missing or no integer, it counts as minus one.
pub proof fn law_answer_parts(d: Doc)
    ensures
        ({
            let part = json::member(Some(d), "req_1"@);
            &&& json::member(part, "data"@) == answer_data(d)
            &&& match json::member(part, "code"@) {
                Some(Doc::Unsigned(n)) => n <= i64::MAX ==> answer_code(d) == n,
                Some(Doc::Negative(n)) => answer_code(d) == n,
                _ => answer_code(d) == -1,
            }
        }),
{
}

/// Each question asks the module and the method for it, about the account of the
/// token.
pub proof fn law_questions_name_the_account(token: Option<Seq<char>>)
    ensures
        ({
            let info = Some(user_info_doc(token));
            let lists = Some(user_playlists_doc(token));
            let who = Some(login_info_doc(token));
            let call_info = json::member(info, "req_1"@);
            let call_lists = json::member(lists, "req_1"@);
            let call_who = json::member(who, "req_1"@);
            &&& json::member(call_info, "module"@) == Some(
                Doc::Text("userInfo.BaseUserInfoServer"@),
            )
            &&& json::member(call_info, "method"@) == Some(Doc::Text("get_user_baseinfo"@))
            &&& json::member(json::member(call_info, "param"@), "vec_uin"@) == Some(
                Doc::Array(seq![Doc::Unsigned(account::uin_num_of(token))]),
            )
            &&& json::member(call_lists, "module"@) == Some(
                Doc::Text("playlist.PlayListPlazaServer"@),
            )
            &&& json::member(call_lists, "method"@) == Some(Doc::Text("GetUserPlayList"@))
            &&& json::member(json::member(call_lists, "param"@), "uin"@) == Some(
                Doc::Unsigned(account::uin_num_of(token)),
            )
            &&& json::member(call_who, "module"@) == Some(Doc::Text("music.UserInfoServer"@))
            &&& json::member(call_who, "method"@) == Some(Doc::Text("GetLoginInfo"@))
            &&& json::member(json::member(info, "comm"@), "uin"@) == Some(
                Doc::Text(account::uin_of(token)),
            )
            &&& json::member(json::member(lists, "comm"@), "uin"@) == Some(
                Doc::Text(account::uin_of(token)),
            )
            &&& json::member(json::member(who, "comm"@), "uin"@) == Some(
                Doc::Text(account::uin_of(token)),
            )
        }),
{
    let uin = account::uin_of(token);
    let number = Doc::Unsigned(account::uin_num_of(token));
    law_call_names_its_parts(
        uin,
        "userInfo.BaseUserInfoServer"@,
        "get_user_baseinfo"@,
        one_member("vec_uin"@, Doc::Array(seq![number])),
    );
    law_call_names_its_parts(
        uin,
        "playlist.PlayListPlazaServer"@,
        "GetUserPlayList"@,
        one_member("uin"@, number),
    );
    law_call_names_its_parts(
        uin,
        "music.UserInfoServer"@,
        "GetLoginInfo"@,
        json::object(seq![]),
    );
    json::law_object_has_its_members(
        seq![("vec_uin"@, Doc::Array(seq![number]))],
        "vec_uin"@,
        0,
    );
    json::law_object_has_its_members(seq![("uin"@, number)], "uin"@, 0);
}

/// Each way in which a request can fail has its own error: no reply, one that cannot be
/// read, the wish to be left alone, a web page, and a text that is no document.
pub proof fn law_errors_say_what_happened(x: ExchangeView)
    ensures
        match x {
            ExchangeView::NoReply(e) => {
                let error = "QQ音乐请求失败 / QQ Music request failed: "@ + e;
                &&& text_outcome(x) == Err::<Seq<char>, Seq<char>>(error)
                &&& json_outcome(x) == Err::<Doc, Seq<char>>(error)
                &&& json_outcome_anon(x) == Err::<Doc, Seq<char>>(error)
            },
            ExchangeView::Unreadable(e) => {
                let error = "QQ音乐响应读取失败 / Failed to read QQ Music response: "@ + e;
                &&& text_outcome(x) == Err::<Seq<char>, Seq<char>>(error)
                &&& json_outcome(x) == Err::<Doc, Seq<char>>(error)
                &&& json_outcome_anon(x) == Err::<Doc, Seq<char>>(error)
            },
            ExchangeView::Reply { status, text } => {
                let limited = status == 412 || status == 503;
                let page = text::starts_with(text, "<!DOCTYPE"@) || text::starts_with(
                    text,
                    "<html"@,
                );
                let verify = "QQ音乐需要网页验证 / QQ Music requires web verification."@;
                let plain = text.len() > 0 && text[0] != '<' && !text::is_space(text[0]);
                &&& limited ==> text::starts_with(text_outcome(x)->Err_0, "rate_limited"@)
                    && text::starts_with(json_outcome(x)->Err_0, "rate_limited"@)
                &&& page && !limited ==> text_outcome(x) == Err::<Seq<char>, Seq<char>>(verify)
                    && json_outcome(x) == Err::<Doc, Seq<char>>(verify)
                &&& page ==> json_outcome_anon(x) == Err::<Doc, Seq<char>>(verify)
                &&& plain && !limited && json::json_parse(text) is None ==> json_outcome(x) == Err::<
                    Doc,
                    Seq<char>,
                >("QQ音乐 JSON 解析失败 / Failed to parse QQ Music JSON: "@ + text)
            },
        },
{
    law_reply_gives_its_text(x);
    reveal_strlit("rate_limited");
    reveal_strlit("rate_limited: 请求过于频繁，请稍后再试 / Rate limited, please try later.");
    reveal_strlit("rate_limited: 请求过于频繁，请稍后再试 / Rate limited.");
    assert("rate_limited: 请求过于频繁，请稍后再试 / Rate limited, please try later."@.take(12)
        =~= "rate_limited"@);
    assert("rate_limited: 请求过于频繁，请稍后再试 / Rate limited."@.take(12) =~= "rate_limited"@);
    if let ExchangeView::Reply { text, .. } = x {
        reveal_strlit("<!DOCTYPE");
        reveal_strlit("<html");
        text::lemma_trim_start(text);
        if text::starts_with(text, "<!DOCTYPE"@) {
            assert(text.take(9)[0] == "<!DOCTYPE"@[0]);
        }
        if text::starts_with(text, "<html"@) {
            assert(text.take(5)[0] == "<html"@[0]);
        }
        if text.len() > 0 && text[0] != '<' && !text::is_space(text[0]) {
            if text::starts_with(text, "<!DOCTYPE"@) {
                assert(text.take(9)[0] == '<');
            }
            if text::starts_with(text, "<html"@) {
                assert(text.take(5)[0] == '<');
            }
        }
    }
}

/// The requests of a login look like those of a browser that navigates.
pub proof fn law_login_looks_like_browser()
    ensures
        ({
            let h = browser_headers();
            &&& h.len() == 8
            &&& h.contains(("User-Agent"@, QQMUSIC_UA@))
            &&& h.contains(("Accept-Language"@, "zh-CN,zh;q=0.9,en;q=0.8"@))
            &&& h.contains(("Sec-Fetch-Dest"@, "document"@))
            &&& h.contains(("Sec-Fetch-Mode"@, "navigate"@))
            &&& h.contains(("Sec-Fetch-Site"@, "same-origin"@))
            &&& h.contains(("Sec-Fetch-User"@, "?1"@))
            &&& h.contains(("Upgrade-Insecure-Requests"@, "1"@))
            &&& h.contains(
                (
                    "Accept"@,
                    "text/html,application/xhtml+xml,application/xml;q=0.9,image/avif,image/webp,image/apng,*/*;q=0.8,application/signed-exchange;v=b3;q=0.7"@,
                ),
            )
            &&& default_headers().contains(("Accept"@, "application/json, text/plain, */*"@))
        }),
{
    let h = browser_headers();
    assert(h.contains(h[0]) && h.contains(h[1]) && h.contains(h[2]) && h.contains(h[3]));
    assert(h.contains(h[4]) && h.contains(h[5]) && h.contains(h[6]) && h.contains(h[7]));
    let d = default_headers();
    assert(d.contains(d[2]));
}

/// The requests for text come from the page of the player.
pub proof fn law_text_requests_come_from_player()
    ensures
        default_headers().len() == 3,
        default_headers().contains(("Referer"@, "https://y.qq.com/portal/player.html"@)),
        default_headers().contains(
            (
                "User-Agent"@,
                "Mozilla/5.0 (Windows NT 10.0; Win64; x64) AppleWebKit/537.36 (KHTML, like Gecko) Chrome/131.0.0.0 Safari/537.36"@,
            ),
        ),
{
    let d = default_headers();
    assert(d.contains(d[0]) && d.contains(d[1]));
}

} // verus!
