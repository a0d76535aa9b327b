//! The walk through the redirects of a login, as a machine: each state says
//! which request comes next, and each reply leads to the next state.
use vstd::prelude::*;
use crate::constants::{NO_ADDRESS_ERROR, QQMUSIC_MUSICU_URL, QQMUSIC_UA};
use crate::cookies::{
    self,
    gather_cookie,
    jar_holds,
    live_set_cookie,
    replace_cookie,
    store_set_cookies,
};
use crate::dto::{self, ResolvedQQMusicSourceConfig};
use crate::json::{self, json_to_string, parse_json, Doc, Json};
use crate::pages::{
    self,
    find_authorization_target,
    find_page_target,
    if_allowed,
    login_host,
    parameter_of,
    resolve_location,
    web_address,
};
use crate::request::{self, login_info_body, push_pair};
use crate::text::{
    self,
    concat2,
    concat3,
    decimal_text,
    join_texts,
    split_text,
    text_contains,
    text_eq,
    text_starts_with,
};

verus! {

// ---------------------------------------------------------------------------
// Events, states, requests
// ---------------------------------------------------------------------------
/// A response of the login: its status, its `Set-Cookie` headers, its `Location`
/// header and its body. A `Location` header that is no text counts as empty.
pub struct Answer {
    pub status: u16,
    pub set_cookies: Vec<String>,
    pub location: Option<String>,
    pub body: String,
}

/// What an `Answer` means.
pub struct AnswerView {
    pub status: u16,
    pub set_cookies: Seq<Seq<char>>,
    pub location: Option<Seq<char>>,
    pub body: Seq<char>,
}

impl View for Answer {
    type V = AnswerView;

    open spec fn view(&self) -> AnswerView {
        AnswerView {
            status: self.status,
            set_cookies: text::views(self.set_cookies@),
            location: text::opt_view(self.location),
            body: self.body@,
        }
    }
}

/// How a request of the login ended.
pub enum LoginEvent {
    Answered(Answer),
    Failed(String),
}

/// What a `LoginEvent` means.
pub enum LoginEventView {
    Answered(AnswerView),
    Failed(Seq<char>),
}

impl View for LoginEvent {
    type V = LoginEventView;

    open spec fn view(&self) -> LoginEventView {
        match *self {
            LoginEvent::Answered(a) => LoginEventView::Answered(a@),
            LoginEvent::Failed(e) => LoginEventView::Failed(e@),
        }
    }
}

/// How far a login has come.
pub enum Stage {
    /// The redirects of the login, of which ten are followed.
    Chain { hop: u32, url: String },
    /// The home page of the service and its redirects, of which five are followed.
    Home { hop: u32, url: String },
    /// The two addresses that may exchange the cookies for a key.
    OAuth { attempt: u32, cookie: String },
    /// The question who is logged in.
    LoginInfo { cookie: String },
    /// The authorization.
    Authorize { cookie: String },
    /// The exchange of an authorization code.
    Token { url: String, cookie: String },
    /// The redirects of the authorization, of which five are followed.
    Grant { hop: u32, url: String, cookie: String },
    /// The way back from the authorization.
    Return { url: String, cookie: String },
    /// The page of the player.
    Player { cookie: String },
    /// The end: the cookie, or what went wrong.
    Done(Result<String, String>),
}

/// What a `Stage` means.
pub enum StageView {
    Chain { hop: u32, url: Seq<char> },
    Home { hop: u32, url: Seq<char> },
    OAuth { attempt: u32, cookie: Seq<char> },
    LoginInfo { cookie: Seq<char> },
    Authorize { cookie: Seq<char> },
    Token { url: Seq<char>, cookie: Seq<char> },
    Grant { hop: u32, url: Seq<char>, cookie: Seq<char> },
    Return { url: Seq<char>, cookie: Seq<char> },
    Player { cookie: Seq<char> },
    Done(Result<Seq<char>, Seq<char>>),
}

impl View for Stage {
    type V = StageView;

    open spec fn view(&self) -> StageView {
        match *self {
            Stage::Chain { hop, url } => StageView::Chain { hop, url: url@ },
            Stage::Home { hop, url } => StageView::Home { hop, url: url@ },
            Stage::OAuth { attempt, cookie } => StageView::OAuth { attempt, cookie: cookie@ },
            Stage::LoginInfo { cookie } => StageView::LoginInfo { cookie: cookie@ },
            Stage::Authorize { cookie } => StageView::Authorize { cookie: cookie@ },
            Stage::Token { url, cookie } => StageView::Token { url: url@, cookie: cookie@ },
            Stage::Grant { hop, url, cookie } => StageView::Grant {
                hop,
                url: url@,
                cookie: cookie@,
            },
            Stage::Return { url, cookie } => StageView::Return { url: url@, cookie: cookie@ },
            Stage::Player { cookie } => StageView::Player { cookie: cookie@ },
            Stage::Done(r) => StageView::Done(dto::outcome(r)),
        }
    }
}

/// A login on its way: the cookies collected so far and the stage.
pub struct Login {
    pub jar: Vec<String>,
    pub stage: Stage,
}

/// What a `Login` means.
pub struct LoginView {
    pub jar: Seq<Seq<char>>,
    pub stage: StageView,
}

impl View for Login {
    type V = LoginView;

    open spec fn view(&self) -> LoginView {
        LoginView { jar: text::views(self.jar@), stage: self.stage@ }
    }
}

// ---------------------------------------------------------------------------
// The beginning
// ---------------------------------------------------------------------------
/// What the callback of a login names: itself where it is an address, and its third
/// quoted argument elsewhere, where that is neither empty nor `0`.
pub open spec fn callback_named(callback: Seq<char>) -> Option<Seq<char>> {
    if text::starts_with(callback, "http"@) {
        Some(callback)
    } else {
        let pieces = text::split(callback, '\'');
        if pieces.len() > 5 && pieces[5].len() > 0 && pieces[5] != "0"@ {
            Some(pieces[5])
        } else {
            None
        }
    }
}

/// What the callback of a login names.
fn find_callback_named(callback: &str) -> (r: Option<String>)
    ensures
        text::opt_view(r) == callback_named(callback@),
{
    if text_starts_with(callback, "http") {
        return Some(callback.to_string());
    }
    let pieces: Vec<String> = split_text(callback, '\'');
    proof {
        if pieces@.len() > 5 {
            assert(text::views(pieces@)[5] == pieces@[5]@);
        }
    }
    if pieces.len() > 5 && !pieces[5].as_str().is_empty() && !text_eq(pieces[5].as_str(), "0") {
        Some(pieces[5].clone())
    } else {
        None
    }
}

/// Something is named that is no web address, so that no request can be made to it.
pub open spec fn no_address(named: Option<Seq<char>>) -> bool {
    named matches Some(url) && !pages::is_web_address(url)
}

/// Whether something is named that is no web address.
fn is_no_address(named: &Option<String>) -> (r: bool)
    ensures
        r == no_address(text::opt_view(*named)),
{
    match named {
        Some(url) => !web_address(url.as_str()),
        None => false,
    }
}

/// A request of a chain failed.
pub open spec fn chain_error(before: Seq<char>, hop: u32, error: Seq<char>) -> Result<
    Seq<char>,
    Seq<char>,
> {
    Err(before + text::decimal(hop as nat) + "): "@ + error)
}

/// Says that a request of a chain failed.
fn say_chain_error(before: &str, hop: u32, error: &str) -> (r: Result<String, String>)
    ensures
        dto::outcome(r) == chain_error(before@, hop, error@),
{
    let number: String = decimal_text(hop as u128);
    let head: String = concat2(before, number.as_str());
    Err(concat3(head.as_str(), "): ", error))
}

/// Where the callback of a login leads: to what it names, and to the home page
/// where it names nothing or a host that the cookies may not be sent to. What is
/// no web address ends the login.
pub open spec fn callback_stage(callback: Seq<char>) -> StageView {
    let named = callback_named(callback);
    if no_address(named) {
        StageView::Done(chain_error("登录重定向请求失败(hop "@, 0, NO_ADDRESS_ERROR@))
    } else {
        StageView::Chain {
            hop: 0,
            url: match pages::allowed(named) {
                Some(url) => url,
                None => "https://y.qq.com"@,
            },
        }
    }
}

/// Where the callback of a login leads.
fn read_callback(callback: &str) -> (r: Stage)
    ensures
        r@ == callback_stage(callback@),
{
    let named: Option<String> = find_callback_named(callback);
    if is_no_address(&named) {
        return Stage::Done(say_chain_error("登录重定向请求失败(hop ", 0, NO_ADDRESS_ERROR));
    }
    let url: String = match if_allowed(named) {
        Some(url) => url,
        None => "https://y.qq.com".to_string(),
    };
    Stage::Chain { hop: 0, url }
}

/// The first state: the cookies at hand, and where the callback leads.
pub open spec fn login_start(
    callback: Seq<char>,
    poll_cookies: Seq<char>,
    original_cookies: Seq<char>,
) -> LoginView {
    LoginView {
        jar: cookies::gathered_cookie(
            cookies::gathered_cookie(seq![], original_cookies),
            poll_cookies,
        ),
        stage: callback_stage(callback),
    }
}

/// Begins to follow the redirects of a login.
pub fn follow_qqmusic_login_redirect(
    callback: &str,
    poll_cookies: &str,
    original_cookies: &str,
) -> (r: Login)
    ensures
        r@ == login_start(callback@, poll_cookies@, original_cookies@),
{
    let mut jar: Vec<String> = Vec::new();
    proof {
        assert(text::views(jar@) =~= seq![]);
    }
    gather_cookie(&mut jar, original_cookies);
    gather_cookie(&mut jar, poll_cookies);
    Login { jar, stage: read_callback(callback) }
}

// ---------------------------------------------------------------------------
// What the replies do to the cookies
// ---------------------------------------------------------------------------
/// The jar with the key `value` as its only `qqmusic_key`.
pub open spec fn with_key(jar: Seq<Seq<char>>, value: Seq<char>) -> Seq<Seq<char>> {
    cookies::replaced(jar, "qqmusic_key"@, "qqmusic_key="@ + value)
}

/// Puts a key into the jar.
fn put_key(jar: &mut Vec<String>, value: &str)
    ensures
        text::views(final(jar)@) == with_key(text::views(old(jar)@), value@),
{
    replace_cookie(jar, "qqmusic_key", concat2("qqmusic_key=", value));
}

/// The names under which an answer may hold a key, the preferred one first.
pub open spec fn key_names() -> Seq<Seq<char>> {
    seq!["access_token"@, "musickey"@, "qqmusic_key"@, "key"@, "token"@]
}

/// The key that a part of an answer holds.
fn find_key(part: Option<&Json>) -> (r: Option<String>)
    ensures
        text::opt_view(r) == json::first_filled(json::opt_doc(part), key_names()),
{
    let names: Vec<&str> = vec!["access_token", "musickey", "qqmusic_key", "key", "token"];
    proof {
        assert(json::name_views(names@) =~= key_names());
    }
    json::first_text(part, &names)
}

/// The jar after a document that may hold a key, in itself or in its `data`.
pub open spec fn with_key_from(jar: Seq<Seq<char>>, d: Doc) -> Seq<Seq<char>> {
    let first = match json::first_filled(Some(d), key_names()) {
        Some(v) => with_key(jar, v),
        None => jar,
    };
    match json::first_filled(json::member(Some(d), "data"@), key_names()) {
        Some(v) => with_key(first, v),
        None => first,
    }
}

/// Takes the key of a document into the jar.
pub fn store_key_from(jar: &mut Vec<String>, value: &Json)
    ensures
        text::views(final(jar)@) == with_key_from(text::views(old(jar)@), value@),
{
    match find_key(Some(value)) {
        Some(v) => put_key(jar, v.as_str()),
        None => {},
    }
    match find_key(json::get(Some(value), "data")) {
        Some(v) => put_key(jar, v.as_str()),
        None => {},
    }
}

/// The jar after the answer of an address that may exchange the cookies for a key.
pub open spec fn after_oauth(jar: Seq<Seq<char>>, body: Seq<char>) -> Seq<Seq<char>> {
    if text::contains(body, "access_token"@) || text::contains(body, "musickey"@) || text::contains(
        body,
        "qqmusic_key"@,
    ) {
        match json::json_parse(body) {
            Some(d) => with_key_from(jar, d),
            None => jar,
        }
    } else {
        jar
    }
}

/// Takes such an answer into the jar.
pub fn store_oauth_answer(jar: &mut Vec<String>, body: &str)
    ensures
        text::views(final(jar)@) == after_oauth(text::views(old(jar)@), body@),
{
    if text_contains(body, "access_token") || text_contains(body, "musickey") || text_contains(
        body,
        "qqmusic_key",
    ) {
        match parse_json(body) {
            Some(value) => store_key_from(jar, &value),
            None => {},
        }
    }
}

/// What follows `prefix` in the first entry that begins with it and goes on.
pub open spec fn value_behind(jar: Seq<Seq<char>>, prefix: Seq<char>) -> Option<Seq<char>>
    decreases jar.len(),
{
    if jar.len() == 0 {
        None
    } else if text::starts_with(jar[0], prefix) && jar[0].len() > prefix.len() {
        Some(jar[0].skip(prefix.len() as int))
    } else {
        value_behind(jar.skip(1), prefix)
    }
}

/// What follows `prefix` in the first entry that begins with it and goes on.
pub fn find_value_behind(jar: &Vec<String>, prefix: &str) -> (r: Option<String>)
    ensures
        text::opt_view(r) == value_behind(text::views(jar@), prefix@),
{
    let ghost all = text::views(jar@);
    proof {
        assert(all.skip(0) =~= all);
        assert(prefix@.skip(prefix@.len() as int) =~= seq![]);
    }
    for i in 0..jar.len()
        invariant
            all == text::views(jar@),
            value_behind(all, prefix@) == value_behind(all.skip(i as int), prefix@),
    {
        proof {
            assert(all.skip(i as int)[0] == jar@[i as int]@);
            assert(all.skip(i as int).skip(1) =~= all.skip(i + 1));
        }
        if text_starts_with(jar[i].as_str(), prefix) {
            let chars: Vec<char> = text::chars_of(jar[i].as_str());
            let n: usize = text::chars_of(prefix).len();
            if chars.len() > n {
                let rest: String = text::text_of(
                    vstd::slice::slice_subrange(chars.as_slice(), n, chars.len()),
                );
                proof {
                    assert(rest@ =~= jar@[i as int]@.skip(prefix@.len() as int));
                }
                return Some(rest);
            }
        }
    }
    None
}

/// The cookie that stands in for the key where no address gave one.
pub open spec fn stand_in(jar: Seq<Seq<char>>) -> Option<Seq<char>> {
    json::or(
        json::or(value_behind(jar, "pt_oauth_token="@), value_behind(jar, "superkey="@)),
        value_behind(jar, "p_skey="@),
    )
}

/// The jar with another cookie's value as its key, where there is such a cookie.
pub open spec fn with_stand_in(jar: Seq<Seq<char>>) -> Seq<Seq<char>> {
    match stand_in(jar) {
        Some(v) => jar.push("qqmusic_key="@ + v),
        None => jar,
    }
}

/// Lets another cookie stand in for the key.
pub fn store_stand_in(jar: &mut Vec<String>)
    ensures
        text::views(final(jar)@) == with_stand_in(text::views(old(jar)@)),
{
    let mut found: Option<String> = find_value_behind(jar, "pt_oauth_token=");
    if found.is_none() {
        found = find_value_behind(jar, "superkey=");
    }
    if found.is_none() {
        found = find_value_behind(jar, "p_skey=");
    }
    match found {
        Some(v) => {
            let ghost before = text::views(jar@);
            let ghost value = v@;
            jar.push(concat2("qqmusic_key=", v.as_str()));
            proof {
                assert(text::views(jar@) =~= before.push("qqmusic_key="@ + value));
            }
        },
        None => {},
    }
}

/// The jar after the `Set-Cookie` headers of the authorization: a cookie is taken
/// where there is none of its name yet.
pub open spec fn after_new_live(jar: Seq<Seq<char>>, headers: Seq<Seq<char>>) -> Seq<Seq<char>>
    decreases headers.len(),
{
    if headers.len() == 0 {
        jar
    } else {
        let before = after_new_live(jar, headers.drop_last());
        match cookies::live_pair(headers.last()) {
            Some((name, value)) => if cookies::holds(before, name + "="@) {
                before
            } else {
                before.push(name + "="@ + value)
            },
            None => before,
        }
    }
}

/// Takes the cookies of the authorization into the jar.
pub fn store_new_live(jar: &mut Vec<String>, headers: &Vec<String>)
    ensures
        text::views(final(jar)@) == after_new_live(
            text::views(old(jar)@),
            text::views(headers@),
        ),
{
    let ghost start = text::views(jar@);
    let ghost all = text::views(headers@);
    proof {
        assert(all.take(0) =~= seq![]);
    }
    for i in 0..headers.len()
        invariant
            all == text::views(headers@),
            start == text::views(old(jar)@),
            text::views(jar@) == after_new_live(start, all.take(i as int)),
    {
        proof {
            assert(all.take(i + 1).drop_last() =~= all.take(i as int));
            assert(all.take(i + 1).last() == headers@[i as int]@);
        }
        match live_set_cookie(headers[i].as_str()) {
            Some((name, value)) => {
                let prefix: String = concat2(name.as_str(), "=");
                if !jar_holds(jar, prefix.as_str()) {
                    let ghost before = text::views(jar@);
                    let ghost pair = name@ + "="@ + value@;
                    jar.push(concat2(prefix.as_str(), value.as_str()));
                    proof {
                        assert(text::views(jar@) =~= before.push(pair));
                    }
                }
            },
            None => {},
        }
    }
    proof {
        assert(all.take(all.len() as int) =~= all);
    }
}

/// The jar after the `Set-Cookie` headers of a redirect of the authorization: a
/// cookie replaces those of its name.
pub open spec fn after_live(jar: Seq<Seq<char>>, headers: Seq<Seq<char>>) -> Seq<Seq<char>>
    decreases headers.len(),
{
    if headers.len() == 0 {
        jar
    } else {
        let before = after_live(jar, headers.drop_last());
        match cookies::live_pair(headers.last()) {
            Some((name, value)) => cookies::replaced(before, name, name + "="@ + value),
            None => before,
        }
    }
}

/// Takes the cookies of a redirect of the authorization into the jar.
pub fn store_live(jar: &mut Vec<String>, headers: &Vec<String>)
    ensures
        text::views(final(jar)@) == after_live(text::views(old(jar)@), text::views(headers@)),
{
    let ghost start = text::views(jar@);
    let ghost all = text::views(headers@);
    proof {
        assert(all.take(0) =~= seq![]);
    }
    for i in 0..headers.len()
        invariant
            all == text::views(headers@),
            start == text::views(old(jar)@),
            text::views(jar@) == after_live(start, all.take(i as int)),
    {
        proof {
            assert(all.take(i + 1).drop_last() =~= all.take(i as int));
            assert(all.take(i + 1).last() == headers@[i as int]@);
        }
        match live_set_cookie(headers[i].as_str()) {
            Some((name, value)) => {
                let pair: String = concat3(name.as_str(), "=", value.as_str());
                replace_cookie(jar, name.as_str(), pair);
            },
            None => {},
        }
    }
    proof {
        assert(all.take(all.len() as int) =~= all);
    }
}

// ---------------------------------------------------------------------------
// From state to state
// ---------------------------------------------------------------------------
/// The status of a redirect.
pub open spec fn is_redirect(status: u16) -> bool {
    300 <= status < 400
}

/// What an answer from `url` names, by its `Location` header where it is a redirect
/// that has one, and by its page elsewhere.
pub open spec fn answer_named(url: Seq<char>, a: AnswerView) -> Option<Seq<char>> {
    match a.location {
        Some(location) => if is_redirect(a.status) {
            if location.len() == 0 {
                None
            } else {
                Some(pages::resolved(url, location))
            }
        } else {
            pages::page_target(a.body)
        },
        None => pages::page_target(a.body),
    }
}

/// Where an answer from `url` leads: to what it names, where the cookies may be sent
/// there.
pub open spec fn answer_target(url: Seq<char>, a: AnswerView) -> Option<Seq<char>> {
    pages::allowed(answer_named(url, a))
}

/// What an answer names.
fn find_answer_named(url: &str, a: &Answer) -> (r: Option<String>)
    ensures
        text::opt_view(r) == answer_named(url@, a@),
{
    match &a.location {
        Some(location) => if 300 <= a.status && a.status < 400 {
            if location.as_str().is_empty() {
                None
            } else {
                Some(resolve_location(url, location.as_str()))
            }
        } else {
            find_page_target(a.body.as_str())
        },
        None => find_page_target(a.body.as_str()),
    }
}

/// Where an answer leads.
pub fn find_answer_target(url: &str, a: &Answer) -> (r: Option<String>)
    ensures
        text::opt_view(r) == answer_target(url@, a@),
{
    if_allowed(find_answer_named(url, a))
}

/// The state that ends a login with the cookies collected.
pub open spec fn finished(jar: Seq<Seq<char>>) -> LoginView {
    let cookie = text::join(jar, "; "@);
    LoginView {
        jar,
        stage: StageView::Done(
            if cookie.len() == 0 {
                Err("无法获取QQ音乐登录凭据 / Cannot get QQ Music login cookie."@)
            } else {
                Ok(cookie)
            },
        ),
    }
}

/// Ends a login with the cookies collected.
fn finish(jar: Vec<String>) -> (r: Login)
    ensures
        r@ == finished(text::views(jar@)),
{
    let cookie: String = join_texts(&jar, "; ");
    if cookie.as_str().is_empty() {
        Login {
            jar,
            stage: Stage::Done(
                Err("无法获取QQ音乐登录凭据 / Cannot get QQ Music login cookie.".to_string()),
            ),
        }
    } else {
        Login { jar, stage: Stage::Done(Ok(cookie)) }
    }
}

/// After a redirect of the login. One that names no web address fails with the next
/// hop.
pub open spec fn after_chain(
    jar: Seq<Seq<char>>,
    hop: u32,
    url: Seq<char>,
    e: LoginEventView,
) -> LoginView {
    match e {
        LoginEventView::Failed(error) => LoginView {
            jar,
            stage: StageView::Done(chain_error("登录重定向请求失败(hop "@, hop, error)),
        },
        LoginEventView::Answered(a) => LoginView {
            jar: cookies::after_set_cookies(jar, a.set_cookies),
            stage: if hop < 9 && no_address(answer_named(url, a)) {
                StageView::Done(
                    chain_error(
                        "登录重定向请求失败(hop "@,
                        (hop + 1) as u32,
                        NO_ADDRESS_ERROR@,
                    ),
                )
            } else {
                match answer_target(url, a) {
                    Some(next) => if hop < 9 {
                        StageView::Chain { hop: (hop + 1) as u32, url: next }
                    } else {
                        StageView::Home { hop: 0, url: "https://y.qq.com/"@ }
                    },
                    None => StageView::Home { hop: 0, url: "https://y.qq.com/"@ },
                }
            },
        },
    }
}

/// Goes on from a redirect of the login.
fn step_chain(jar: Vec<String>, hop: u32, url: &str, e: LoginEvent) -> (r: Login)
    ensures
        r@ == after_chain(text::views(jar@), hop, url@, e@),
{
    let mut jar = jar;
    match e {
        LoginEvent::Failed(error) => Login {
            jar,
            stage: Stage::Done(say_chain_error("登录重定向请求失败(hop ", hop, error.as_str())),
        },
        LoginEvent::Answered(a) => {
            store_set_cookies(&mut jar, &a.set_cookies);
            let named: Option<String> = find_answer_named(url, &a);
            if hop < 9 && is_no_address(&named) {
                return Login {
                    jar,
                    stage: Stage::Done(
                        say_chain_error("登录重定向请求失败(hop ", hop + 1, NO_ADDRESS_ERROR),
                    ),
                };
            }
            let target: Option<String> = if_allowed(named);
            let home: Stage = Stage::Home { hop: 0, url: "https://y.qq.com/".to_string() };
            let stage: Stage = match target {
                Some(next) => if hop < 9 {
                    Stage::Chain { hop: hop + 1, url: next }
                } else {
                    home
                },
                None => home,
            };
            Login { jar, stage }
        },
    }
}

/// After the home page of the service: the end where the jar holds the key, and
/// the search for one elsewhere.
pub open spec fn leave_home(jar: Seq<Seq<char>>) -> LoginView {
    if cookies::holds(jar, "qqmusic_key="@) {
        finished(jar)
    } else {
        LoginView {
            jar,
            stage: StageView::OAuth { attempt: 0, cookie: text::join(jar, "; "@) },
        }
    }
}

/// After a request for the home page. A redirect that names no web address fails
/// with the next hop.
pub open spec fn after_home(
    jar: Seq<Seq<char>>,
    hop: u32,
    url: Seq<char>,
    e: LoginEventView,
) -> LoginView {
    match e {
        LoginEventView::Failed(error) => LoginView {
            jar,
            stage: StageView::Done(
                chain_error("Cookie fetch from y.qq.com failed(hop "@, hop, error),
            ),
        },
        LoginEventView::Answered(a) => {
            let more = cookies::after_set_cookies(jar, a.set_cookies);
            if hop < 4 && no_address(answer_named(url, a)) {
                LoginView {
                    jar: more,
                    stage: StageView::Done(
                        chain_error(
                            "Cookie fetch from y.qq.com failed(hop "@,
                            (hop + 1) as u32,
                            NO_ADDRESS_ERROR@,
                        ),
                    ),
                }
            } else {
                match answer_target(url, a) {
                    Some(next) => if hop < 4 {
                        LoginView {
                            jar: more,
                            stage: StageView::Home { hop: (hop + 1) as u32, url: next },
                        }
                    } else {
                        leave_home(more)
                    },
                    None => leave_home(more),
                }
            }
        },
    }
}

/// Goes on from a request for the home page.
fn step_home(jar: Vec<String>, hop: u32, url: &str, e: LoginEvent) -> (r: Login)
    ensures
        r@ == after_home(text::views(jar@), hop, url@, e@),
{
    let mut jar = jar;
    match e {
        LoginEvent::Failed(error) => Login {
            jar,
            stage: Stage::Done(
                say_chain_error("Cookie fetch from y.qq.com failed(hop ", hop, error.as_str()),
            ),
        },
        LoginEvent::Answered(a) => {
            store_set_cookies(&mut jar, &a.set_cookies);
            let named: Option<String> = find_answer_named(url, &a);
            if hop < 4 && is_no_address(&named) {
                return Login {
                    jar,
                    stage: Stage::Done(
                        say_chain_error(
                            "Cookie fetch from y.qq.com failed(hop ",
                            hop + 1,
                            NO_ADDRESS_ERROR,
                        ),
                    ),
                };
            }
            let target: Option<String> = if_allowed(named);
            match target {
                Some(next) => if hop < 4 {
                    return Login { jar, stage: Stage::Home { hop: hop + 1, url: next } };
                },
                None => {},
            }
            if jar_holds(&jar, "qqmusic_key=") {
                finish(jar)
            } else {
                let cookie: String = join_texts(&jar, "; ");
                Login { jar, stage: Stage::OAuth { attempt: 0, cookie } }
            }
        },
    }
}

/// After a request to exchange the cookies for a key. Both addresses are asked.
pub open spec fn after_exchange(
    jar: Seq<Seq<char>>,
    attempt: u32,
    cookie: Seq<char>,
    e: LoginEventView,
) -> LoginView {
    let more = match e {
        LoginEventView::Failed(_) => jar,
        LoginEventView::Answered(a) => after_oauth(jar, a.body),
    };
    if attempt == 0 {
        LoginView { jar: more, stage: StageView::OAuth { attempt: 1, cookie } }
    } else if cookies::holds(more, "qqmusic_key="@) {
        finished(more)
    } else {
        LoginView {
            jar: more,
            stage: StageView::LoginInfo { cookie: text::join(more, "; "@) },
        }
    }
}

/// Goes on from a request to exchange the cookies for a key.
fn step_exchange(jar: Vec<String>, attempt: u32, cookie: String, e: LoginEvent) -> (r: Login)
    ensures
        r@ == after_exchange(text::views(jar@), attempt, cookie@, e@),
{
    let mut jar = jar;
    match e {
        LoginEvent::Failed(_) => {},
        LoginEvent::Answered(a) => {
            store_oauth_answer(&mut jar, a.body.as_str());
        },
    }
    if attempt == 0 {
        Login { jar, stage: Stage::OAuth { attempt: 1, cookie } }
    } else if jar_holds(&jar, "qqmusic_key=") {
        finish(jar)
    } else {
        let cookie: String = join_texts(&jar, "; ");
        Login { jar, stage: Stage::LoginInfo { cookie } }
    }
}

/// After the question who is logged in, whatever the answer: another cookie stands
/// in for the key, and the authorization is tried.
pub open spec fn after_login_info(jar: Seq<Seq<char>>) -> LoginView {
    let more = with_stand_in(jar);
    LoginView { jar: more, stage: StageView::Authorize { cookie: text::join(more, "; "@) } }
}

/// The address that exchanges an authorization code.
pub open spec fn token_url(code: Seq<char>) -> Seq<char> {
    "https://graph.qq.com/oauth2.0/token?grant_type=authorization_code&client_id=100497308&client_secret=unused&code="@
        + code + "&redirect_uri=https%3A%2F%2Fy.qq.com%2Fportal%2Fwx_redirect.html"@
}

/// After the authorization. A token in its `Location` header becomes the key; a
/// code there is exchanged; any other address there is followed, where the cookies
/// may be sent to it.
pub open spec fn after_authorize(
    jar: Seq<Seq<char>>,
    cookie: Seq<char>,
    e: LoginEventView,
) -> LoginView {
    match e {
        LoginEventView::Failed(_) => LoginView { jar, stage: StageView::Player { cookie } },
        LoginEventView::Answered(a) => {
            let more = after_new_live(jar, a.set_cookies);
            match a.location {
                None => LoginView { jar: more, stage: StageView::Player { cookie } },
                Some(location) => LoginView {
                    jar: match pages::parameter(location, "access_token="@) {
                        Some(token) => with_key(more, token),
                        None => more,
                    },
                    stage: match pages::parameter(location, "code="@) {
                        Some(code) => StageView::Token { url: token_url(code), cookie },
                        None => if pages::is_login_host(location) {
                            StageView::Grant { hop: 0, url: location, cookie }
                        } else {
                            StageView::Player { cookie }
                        },
                    },
                },
            }
        },
    }
}

/// Goes on from the authorization.
fn step_authorize(jar: Vec<String>, cookie: String, e: LoginEvent) -> (r: Login)
    ensures
        r@ == after_authorize(text::views(jar@), cookie@, e@),
{
    let mut jar = jar;
    match e {
        LoginEvent::Failed(_) => Login { jar, stage: Stage::Player { cookie } },
        LoginEvent::Answered(a) => {
            store_new_live(&mut jar, &a.set_cookies);
            match &a.location {
                None => Login { jar, stage: Stage::Player { cookie } },
                Some(location) => {
                    match parameter_of(location.as_str(), "access_token=") {
                        Some(token) => put_key(&mut jar, token.as_str()),
                        None => {},
                    }
                    match parameter_of(location.as_str(), "code=") {
                        Some(code) => {
                            let url: String = concat3(
                                "https://graph.qq.com/oauth2.0/token?grant_type=authorization_code&client_id=100497308&client_secret=unused&code=",
                                code.as_str(),
                                "&redirect_uri=https%3A%2F%2Fy.qq.com%2Fportal%2Fwx_redirect.html",
                            );
                            Login { jar, stage: Stage::Token { url, cookie } }
                        },
                        None => if login_host(location.as_str()) {
                            Login {
                                jar,
                                stage: Stage::Grant { hop: 0, url: location.clone(), cookie },
                            }
                        } else {
                            Login { jar, stage: Stage::Player { cookie } }
                        },
                    }
                },
            }
        },
    }
}

/// A redirect of the authorization carries a code back to the player.
pub open spec fn leads_back(location: Seq<char>) -> bool {
    text::contains(location, "code="@) && (text::contains(location, "y.qq.com"@) || text::contains(
        location,
        "wx_redirect"@,
    ))
}

/// The state after a redirect of the authorization that names `next`, which is
/// followed where the cookies may be sent to it.
pub open spec fn grant_on(
    jar: Seq<Seq<char>>,
    hop: u32,
    next: Option<Seq<char>>,
    cookie: Seq<char>,
) -> LoginView {
    match pages::allowed(next) {
        Some(url) => if hop < 4 {
            LoginView { jar, stage: StageView::Grant { hop: (hop + 1) as u32, url, cookie } }
        } else {
            LoginView { jar, stage: StageView::Player { cookie } }
        },
        None => LoginView { jar, stage: StageView::Player { cookie } },
    }
}

/// Goes on to `next`.
fn step_grant_on(jar: Vec<String>, hop: u32, next: Option<String>, cookie: String) -> (r: Login)
    ensures
        r@ == grant_on(text::views(jar@), hop, text::opt_view(next), cookie@),
{
    match if_allowed(next) {
        Some(url) => if hop < 4 {
            Login { jar, stage: Stage::Grant { hop: hop + 1, url, cookie } }
        } else {
            Login { jar, stage: Stage::Player { cookie } }
        },
        None => Login { jar, stage: Stage::Player { cookie } },
    }
}

/// The state after a redirect of the authorization that carries a code back to
/// `url`.
pub open spec fn return_to(jar: Seq<Seq<char>>, url: Seq<char>, cookie: Seq<char>) -> LoginView {
    LoginView {
        jar,
        stage: if pages::is_login_host(url) {
            StageView::Return { url, cookie }
        } else {
            StageView::Player { cookie }
        },
    }
}

/// The jar after a page of the authorization: a token on it becomes the key.
pub open spec fn after_grant_page(jar: Seq<Seq<char>>, page: Seq<char>) -> Seq<Seq<char>> {
    match pages::parameter(page, "access_token="@) {
        Some(token) => if token.len() > 0 {
            with_key(jar, token)
        } else {
            jar
        },
        None => jar,
    }
}

/// After a redirect of the authorization.
pub open spec fn after_grant(
    jar: Seq<Seq<char>>,
    hop: u32,
    cookie: Seq<char>,
    e: LoginEventView,
) -> LoginView {
    match e {
        LoginEventView::Failed(_) => LoginView { jar, stage: StageView::Player { cookie } },
        LoginEventView::Answered(a) => {
            let more = after_live(jar, a.set_cookies);
            if is_redirect(a.status) && a.location is Some {
                let location = a.location->0;
                if leads_back(location) {
                    return_to(
                        more,
                        if text::starts_with(location, "http"@) {
                            location
                        } else {
                            "https://y.qq.com"@ + location
                        },
                        cookie,
                    )
                } else {
                    let next = if text::starts_with(location, "http"@) {
                        location
                    } else if text::starts_with(location, "/"@) {
                        "https://graph.qq.com"@ + location
                    } else {
                        location
                    };
                    grant_on(more, hop, Some(next), cookie)
                }
            } else {
                grant_on(
                    after_grant_page(more, a.body),
                    hop,
                    pages::authorization_target(a.body),
                    cookie,
                )
            }
        },
    }
}

/// Goes on from a redirect of the authorization.
fn step_grant(jar: Vec<String>, hop: u32, cookie: String, e: LoginEvent) -> (r: Login)
    ensures
        r@ == after_grant(text::views(jar@), hop, cookie@, e@),
{
    let mut jar = jar;
    match e {
        LoginEvent::Failed(_) => Login { jar, stage: Stage::Player { cookie } },
        LoginEvent::Answered(a) => {
            store_live(&mut jar, &a.set_cookies);
            if 300 <= a.status && a.status < 400 {
                match &a.location {
                    Some(location) => {
                        let absolute: bool = text_starts_with(location.as_str(), "http");
                        if text_contains(location.as_str(), "code=") && (text_contains(
                            location.as_str(),
                            "y.qq.com",
                        ) || text_contains(location.as_str(), "wx_redirect")) {
                            let url: String = if absolute {
                                location.clone()
                            } else {
                                concat2("https://y.qq.com", location.as_str())
                            };
                            return if login_host(url.as_str()) {
                                Login { jar, stage: Stage::Return { url, cookie } }
                            } else {
                                Login { jar, stage: Stage::Player { cookie } }
                            };
                        }
                        let next: String = if absolute {
                            location.clone()
                        } else if text_starts_with(location.as_str(), "/") {
                            concat2("https://graph.qq.com", location.as_str())
                        } else {
                            location.clone()
                        };
                        return step_grant_on(jar, hop, Some(next), cookie);
                    },
                    None => {},
                }
            }
            match parameter_of(a.body.as_str(), "access_token=") {
                Some(token) => if !token.as_str().is_empty() {
                    put_key(&mut jar, token.as_str());
                },
                None => {},
            }
            let next: Option<String> = find_authorization_target(a.body.as_str());
            step_grant_on(jar, hop, next, cookie)
        },
    }
}

/// The state after a reply.
pub open spec fn login_next(l: LoginView, e: LoginEventView) -> LoginView {
    match l.stage {
        StageView::Chain { hop, url } => after_chain(l.jar, hop, url, e),
        StageView::Home { hop, url } => after_home(l.jar, hop, url, e),
        StageView::OAuth { attempt, cookie } => after_exchange(l.jar, attempt, cookie, e),
        StageView::LoginInfo { .. } => after_login_info(l.jar),
        StageView::Authorize { cookie } => after_authorize(l.jar, cookie, e),
        StageView::Token { cookie, .. } => LoginView {
            jar: l.jar,
            stage: StageView::Player { cookie },
        },
        StageView::Grant { hop, cookie, .. } => after_grant(l.jar, hop, cookie, e),
        StageView::Return { cookie, .. } => LoginView {
            jar: match e {
                LoginEventView::Failed(_) => l.jar,
                LoginEventView::Answered(a) => after_live(l.jar, a.set_cookies),
            },
            stage: StageView::Player { cookie },
        },
        StageView::Player { .. } => finished(
            match e {
                LoginEventView::Failed(_) => l.jar,
                LoginEventView::Answered(a) => cookies::after_set_cookies(l.jar, a.set_cookies),
            },
        ),
        StageView::Done(_) => l,
    }
}

/// Goes on with a reply.
pub fn next_login(login: Login, e: LoginEvent) -> (r: Login)
    ensures
        r@ == login_next(login@, e@),
{
    let Login { jar, stage } = login;
    let mut jar = jar;
    match stage {
        Stage::Chain { hop, url } => step_chain(jar, hop, url.as_str(), e),
        Stage::Home { hop, url } => step_home(jar, hop, url.as_str(), e),
        Stage::OAuth { attempt, cookie } => step_exchange(jar, attempt, cookie, e),
        Stage::LoginInfo { cookie: _ } => {
            store_stand_in(&mut jar);
            let cookie: String = join_texts(&jar, "; ");
            Login { jar, stage: Stage::Authorize { cookie } }
        },
        Stage::Authorize { cookie } => step_authorize(jar, cookie, e),
        Stage::Token { url: _, cookie } => Login { jar, stage: Stage::Player { cookie } },
        Stage::Grant { hop, url: _, cookie } => step_grant(jar, hop, cookie, e),
        Stage::Return { url: _, cookie } => {
            match e {
                LoginEvent::Failed(_) => {},
                LoginEvent::Answered(a) => store_live(&mut jar, &a.set_cookies),
            }
            Login { jar, stage: Stage::Player { cookie } }
        },
        Stage::Player { cookie: _ } => {
            match e {
                LoginEvent::Failed(_) => {},
                LoginEvent::Answered(a) => store_set_cookies(&mut jar, &a.set_cookies),
            }
            finish(jar)
        },
        Stage::Done(r) => Login { jar, stage: Stage::Done(r) },
    }
}

// ---------------------------------------------------------------------------
// The requests
// ---------------------------------------------------------------------------
/// A request of a login. One with a body is a POST of that JSON text, any other
/// a GET. No redirect of it is followed.
pub struct LoginRequest {
    pub url: String,
    pub headers: Vec<(String, String)>,
    pub body: Option<String>,
}

/// What a `LoginRequest` means.
pub struct LoginRequestView {
    pub url: Seq<char>,
    pub headers: Seq<(Seq<char>, Seq<char>)>,
    pub body: Option<Seq<char>>,
}

impl View for LoginRequest {
    type V = LoginRequestView;

    open spec fn view(&self) -> LoginRequestView {
        LoginRequestView {
            url: self.url@,
            headers: request::pair_views(self.headers@),
            body: text::opt_view(self.body),
        }
    }
}

/// The headers of a request, with a referer where one is given.
pub open spec fn login_headers(cookie: Seq<char>, referer: Option<Seq<char>>) -> Seq<
    (Seq<char>, Seq<char>),
> {
    match referer {
        Some(r) => seq![("Cookie"@, cookie), ("User-Agent"@, QQMUSIC_UA@), ("Referer"@, r)],
        None => seq![("Cookie"@, cookie), ("User-Agent"@, QQMUSIC_UA@)],
    }
}

/// The GET request to `url`.
pub open spec fn login_get(
    url: Seq<char>,
    cookie: Seq<char>,
    referer: Option<Seq<char>>,
) -> LoginRequestView {
    LoginRequestView { url, headers: login_headers(cookie, referer), body: None }
}

/// Makes the GET request to `url`.
fn make_login_get(url: &str, cookie: &str, referer: Option<&str>) -> (r: LoginRequest)
    ensures
        r@ == login_get(
            url@,
            cookie@,
            match referer {
                Some(t) => Some(t@),
                None => None,
            },
        ),
{
    let mut headers: Vec<(String, String)> = Vec::new();
    push_pair(&mut headers, "Cookie", cookie);
    push_pair(&mut headers, "User-Agent", QQMUSIC_UA);
    match referer {
        Some(t) => {
            push_pair(&mut headers, "Referer", t);
            proof {
                assert(request::pair_views(headers@) =~= login_headers(cookie@, Some(t@)));
            }
        },
        None => {
            proof {
                assert(request::pair_views(headers@) =~= login_headers(cookie@, None));
            }
        },
    }
    LoginRequest { url: url.to_string(), headers, body: None }
}

/// The two addresses that may exchange the cookies for a key.
pub open spec fn exchange_url(attempt: u32) -> Seq<char> {
    if attempt == 0 {
        "https://u.y.qq.com/cgi-bin/fcg_music_oauth_get_accesstoken.fcg?client_id=100497308&format=json&inCharset=utf8&outCharset=utf-8"@
    } else {
        "https://u.y.qq.com/cgi-bin/fcg_music_oauth_get_accesstoken.fcg?client_id=100497308&grant_type=authorization_code&format=json"@
    }
}

/// The request that a state waits for.
pub open spec fn login_request_of(l: LoginView) -> Option<LoginRequestView> {
    let home = Some("https://y.qq.com/"@);
    match l.stage {
        StageView::Chain { url, .. } => Some(login_get(url, text::join(l.jar, "; "@), home)),
        StageView::Home { url, .. } => Some(login_get(url, text::join(l.jar, "; "@), home)),
        StageView::OAuth { attempt, cookie } => Some(
            login_get(exchange_url(attempt), cookie, home),
        ),
        StageView::LoginInfo { cookie } => Some(
            LoginRequestView {
                url: QQMUSIC_MUSICU_URL@,
                headers: login_headers(cookie, home).push(("Origin"@, "https://y.qq.com"@)),
                body: Some(json::json_print(request::login_info_doc(Some(cookie)))),
            },
        ),
        StageView::Authorize { cookie } => Some(
            login_get(
                "https://graph.qq.com/oauth2.0/authorize?response_type=token&client_id=100497308&redirect_uri=https%3A%2F%2Fy.qq.com%2Fportal%2Fwx_redirect.html&state=qqmusic_login&scope=get_user_info"@,
                cookie,
                None,
            ),
        ),
        StageView::Token { url, cookie } => Some(login_get(url, cookie, None)),
        StageView::Grant { url, cookie, .. } => Some(
            login_get(url, cookie, Some("https://graph.qq.com/"@)),
        ),
        StageView::Return { url, cookie } => Some(login_get(url, cookie, home)),
        StageView::Player { cookie } => Some(
            login_get("https://y.qq.com/portal/player.html"@, cookie, home),
        ),
        StageView::Done(_) => None,
    }
}

/// The request that asks who is logged in.
fn login_info_request(cookie: &str) -> (r: LoginRequest)
    ensures
        r@ == (LoginRequestView {
            url: QQMUSIC_MUSICU_URL@,
            headers: login_headers(cookie@, Some("https://y.qq.com/"@)).push(
                ("Origin"@, "https://y.qq.com"@),
            ),
            body: Some(json::json_print(request::login_info_doc(Some(cookie@)))),
        }),
{
    let mut made: LoginRequest = make_login_get(
        QQMUSIC_MUSICU_URL,
        cookie,
        Some("https://y.qq.com/"),
    );
    push_pair(&mut made.headers, "Origin", "https://y.qq.com");
    let config: ResolvedQQMusicSourceConfig = ResolvedQQMusicSourceConfig {
        enabled: true,
        base_url: String::new(),
        token: Some(cookie.to_string()),
    };
    made.body = Some(json_to_string(&login_info_body(&config)));
    made
}

/// The request that a login waits for, `None` at its end.
pub fn login_request(login: &Login) -> (r: Option<LoginRequest>)
    ensures
        match r {
            Some(q) => login_request_of(login@) == Some(q@),
            None => login_request_of(login@) is None,
        },
{
    let home: Option<&str> = Some("https://y.qq.com/");
    match &login.stage {
        Stage::Chain { hop: _, url } => {
            let cookie: String = join_texts(&login.jar, "; ");
            Some(make_login_get(url.as_str(), cookie.as_str(), home))
        },
        Stage::Home { hop: _, url } => {
            let cookie: String = join_texts(&login.jar, "; ");
            Some(make_login_get(url.as_str(), cookie.as_str(), home))
        },
        Stage::OAuth { attempt, cookie } => {
            let url: &str = if *attempt == 0 {
                "https://u.y.qq.com/cgi-bin/fcg_music_oauth_get_accesstoken.fcg?client_id=100497308&format=json&inCharset=utf8&outCharset=utf-8"
            } else {
                "https://u.y.qq.com/cgi-bin/fcg_music_oauth_get_accesstoken.fcg?client_id=100497308&grant_type=authorization_code&format=json"
            };
            Some(make_login_get(url, cookie.as_str(), home))
        },
        Stage::LoginInfo { cookie } => Some(login_info_request(cookie.as_str())),
        Stage::Authorize { cookie } => Some(
            make_login_get(
                "https://graph.qq.com/oauth2.0/authorize?response_type=token&client_id=100497308&redirect_uri=https%3A%2F%2Fy.qq.com%2Fportal%2Fwx_redirect.html&state=qqmusic_login&scope=get_user_info",
                cookie.as_str(),
                None,
            ),
        ),
        Stage::Token { url, cookie } => Some(make_login_get(url.as_str(), cookie.as_str(), None)),
        Stage::Grant { hop: _, url, cookie } => Some(
            make_login_get(url.as_str(), cookie.as_str(), Some("https://graph.qq.com/")),
        ),
        Stage::Return { url, cookie } => Some(make_login_get(url.as_str(), cookie.as_str(), home)),
        Stage::Player { cookie } => Some(
            make_login_get("https://y.qq.com/portal/player.html", cookie.as_str(), home),
        ),
        Stage::Done(_) => None,
    }
}

/// The result of a login, `None` before its end.
pub open spec fn login_result_of(l: LoginView) -> Option<Result<Seq<char>, Seq<char>>> {
    match l.stage {
        StageView::Done(r) => Some(r),
        _ => None,
    }
}

/// The result of a login, `None` before its end.
pub fn login_result(login: &Login) -> (r: Option<Result<String, String>>)
    ensures
        match r {
            Some(x) => login_result_of(login@) == Some(dto::outcome(x)),
            None => login_result_of(login@) is None,
        },
{
    match &login.stage {
        Stage::Done(Ok(cookie)) => Some(Ok(cookie.clone())),
        Stage::Done(Err(e)) => Some(Err(e.clone())),
        _ => None,
    }
}

// ---------------------------------------------------------------------------
// What holds of a login
// ---------------------------------------------------------------------------
/// How many requests a login can still make.
pub open spec fn requests_left(stage: StageView) -> nat {
    match stage {
        StageView::Chain { hop, .. } => if hop < 9 {
            (26 - hop) as nat
        } else {
            17
        },
        StageView::Home { hop, .. } => if hop < 4 {
            (16 - hop) as nat
        } else {
            12
        },
        StageView::OAuth { attempt, .. } => if attempt == 0 {
            11
        } else {
            10
        },
        StageView::LoginInfo { .. } => 9,
        StageView::Authorize { .. } => 8,
        StageView::Grant { hop, .. } => if hop < 4 {
            (7 - hop) as nat
        } else {
            3
        },
        StageView::Token { .. } => 2,
        StageView::Return { .. } => 2,
        StageView::Player { .. } => 1,
        StageView::Done(_) => 0,
    }
}

/// Every reply brings a login nearer to its end, whatever the reply says.
pub proof fn law_login_advances(l: LoginView, e: LoginEventView)
    requires
        !(l.stage is Done),
    ensures
        requests_left(login_next(l, e).stage) < requests_left(l.stage),
{
}

/// The state after the replies, in order.
pub open spec fn login_after(l: LoginView, events: Seq<LoginEventView>) -> LoginView
    decreases events.len(),
{
    if events.len() == 0 {
        l
    } else {
        login_next(login_after(l, events.drop_last()), events.last())
    }
}

proof fn lemma_login_runs_down(l: LoginView, events: Seq<LoginEventView>)
    ensures
        login_after(l, events).stage is Done || requests_left(login_after(l, events).stage)
            + events.len() <= requests_left(l.stage),
    decreases events.len(),
{
    if events.len() > 0 {
        let before = login_after(l, events.drop_last());
        lemma_login_runs_down(l, events.drop_last());
        if !(before.stage is Done) {
            law_login_advances(before, events.last());
        }
    }
}

/// A login ends after at most twenty-six requests, whatever is answered: no more
/// than ten redirects of the login are followed, five of the home page and five
/// of the authorization.
pub proof fn law_login_ends(
    callback: Seq<char>,
    poll_cookies: Seq<char>,
    original_cookies: Seq<char>,
    events: Seq<LoginEventView>,
)
    requires
        events.len() >= 26,
    ensures
        login_after(login_start(callback, poll_cookies, original_cookies), events).stage is Done,
{
    let l = login_start(callback, poll_cookies, original_cookies);
    lemma_login_runs_down(l, events);
}

/// A login asks for something exactly until it has ended, and its result never
/// changes.
pub proof fn law_login_end_is_final(l: LoginView, e: LoginEventView)
    ensures
        login_request_of(l) is None <==> login_result_of(l) is Some,
        login_result_of(l) is Some ==> login_next(l, e) == l,
{
}

/// A login that ends well gives all the cookies that were collected, and at least
/// one; it fails where there is none, and where a request of the two chains fails or
/// its answer names what is no web address.
pub proof fn law_login_result(l: LoginView, e: LoginEventView)
    requires
        !(l.stage is Done),
    ensures
        match login_result_of(login_next(l, e)) {
            Some(Ok(cookie)) => cookie == text::join(login_next(l, e).jar, "; "@) && cookie.len()
                > 0,
            Some(Err(_)) => {
                ||| text::join(login_next(l, e).jar, "; "@).len() == 0
                ||| e is Failed && (l.stage is Chain || l.stage is Home)
                ||| e matches LoginEventView::Answered(a) && match l.stage {
                    StageView::Chain { url, .. } => no_address(answer_named(url, a)),
                    StageView::Home { url, .. } => no_address(answer_named(url, a)),
                    _ => false,
                }
            },
            None => true,
        },
{
}

/// What a stage goes on to, where a reply named it, is an address that the cookies
/// may be sent to.
pub open spec fn stays_home(stage: StageView) -> bool {
    match stage {
        StageView::Chain { url, .. } => pages::is_login_host(url),
        StageView::Home { url, .. } => pages::is_login_host(url),
        StageView::Token { url, .. } => pages::is_login_host(url),
        StageView::Grant { url, .. } => pages::is_login_host(url),
        StageView::Return { url, .. } => pages::is_login_host(url),
        _ => true,
    }
}

/// The addresses of the service itself are such addresses.
proof fn lemma_own_hosts(code: Seq<char>)
    ensures
        pages::is_login_host("https://y.qq.com"@),
        pages::is_login_host("https://y.qq.com/"@),
        pages::is_login_host("https://y.qq.com/portal/player.html"@),
        pages::is_login_host(token_url(code)),
{
    reveal_strlit("https://");
    reveal_strlit(".qq.com");
    reveal_strlit("y.qq.com");
    reveal_strlit("graph.qq.com");
    reveal_strlit("https://y.qq.com");
    reveal_strlit("https://y.qq.com/");
    reveal_strlit("https://y.qq.com/portal/player.html");
    reveal_strlit(
        "https://graph.qq.com/oauth2.0/token?grant_type=authorization_code&client_id=100497308&client_secret=unused&code=",
    );
    let player = "https://"@ + "y.qq.com"@;
    assert("y.qq.com"@.skip(1) =~= ".qq.com"@);
    assert("https://y.qq.com"@.take(16) =~= player);
    pages::lemma_own_address("https://y.qq.com"@, "y.qq.com"@);
    assert("https://y.qq.com/"@.take(16) =~= player);
    pages::lemma_own_address("https://y.qq.com/"@, "y.qq.com"@);
    assert("https://y.qq.com/portal/player.html"@.take(16) =~= player);
    pages::lemma_own_address("https://y.qq.com/portal/player.html"@, "y.qq.com"@);
    assert("graph.qq.com"@.skip(5) =~= ".qq.com"@);
    assert(token_url(code).take(20) =~= "https://"@ + "graph.qq.com"@);
    pages::lemma_own_address(token_url(code), "graph.qq.com"@);
}

proof fn lemma_own_requests(attempt: u32)
    ensures
        pages::is_login_host(exchange_url(attempt)),
        pages::is_login_host(QQMUSIC_MUSICU_URL@),
        pages::is_login_host(
            "https://graph.qq.com/oauth2.0/authorize?response_type=token&client_id=100497308&redirect_uri=https%3A%2F%2Fy.qq.com%2Fportal%2Fwx_redirect.html&state=qqmusic_login&scope=get_user_info"@,
        ),
{
    reveal_strlit("https://");
    reveal_strlit(".qq.com");
    reveal_strlit("u.y.qq.com");
    reveal_strlit("graph.qq.com");
    reveal_strlit(
        "https://u.y.qq.com/cgi-bin/fcg_music_oauth_get_accesstoken.fcg?client_id=100497308&format=json&inCharset=utf8&outCharset=utf-8",
    );
    reveal_strlit(
        "https://u.y.qq.com/cgi-bin/fcg_music_oauth_get_accesstoken.fcg?client_id=100497308&grant_type=authorization_code&format=json",
    );
    reveal_strlit("https://u.y.qq.com/cgi-bin/musicu.fcg");
    reveal_strlit(
        "https://graph.qq.com/oauth2.0/authorize?response_type=token&client_id=100497308&redirect_uri=https%3A%2F%2Fy.qq.com%2Fportal%2Fwx_redirect.html&state=qqmusic_login&scope=get_user_info",
    );
    let authorize =
        "https://graph.qq.com/oauth2.0/authorize?response_type=token&client_id=100497308&redirect_uri=https%3A%2F%2Fy.qq.com%2Fportal%2Fwx_redirect.html&state=qqmusic_login&scope=get_user_info"@;
    assert("u.y.qq.com"@.skip(3) =~= ".qq.com"@);
    assert(exchange_url(attempt).take(18) =~= "https://"@ + "u.y.qq.com"@);
    pages::lemma_own_address(exchange_url(attempt), "u.y.qq.com"@);
    assert(QQMUSIC_MUSICU_URL@.take(18) =~= "https://"@ + "u.y.qq.com"@);
    pages::lemma_own_address(QQMUSIC_MUSICU_URL@, "u.y.qq.com"@);
    assert("graph.qq.com"@.skip(5) =~= ".qq.com"@);
    assert(authorize.take(20) =~= "https://"@ + "graph.qq.com"@);
    pages::lemma_own_address(authorize, "graph.qq.com"@);
}

proof fn lemma_next_stays_home(l: LoginView, e: LoginEventView)
    requires
        stays_home(l.stage),
    ensures
        stays_home(login_next(l, e).stage),
{
    lemma_own_hosts(seq![]);
    if let LoginEventView::Answered(a) = e {
        if let Some(location) = a.location {
            if let Some(code) = pages::parameter(location, "code="@) {
                lemma_own_hosts(code);
            }
        }
    }
}

/// The cookies go to the hosts of the service alone: whatever the callback names,
/// and whatever is answered, no request of a login is made to another host.
pub proof fn law_login_stays_home(
    callback: Seq<char>,
    poll_cookies: Seq<char>,
    original_cookies: Seq<char>,
    events: Seq<LoginEventView>,
)
    ensures
        ({
            let now = login_after(login_start(callback, poll_cookies, original_cookies), events);
            &&& stays_home(now.stage)
            &&& login_request_of(now) matches Some(q) ==> pages::is_login_host(q.url)
        }),
    decreases events.len(),
{
    let start = login_start(callback, poll_cookies, original_cookies);
    lemma_own_hosts(seq![]);
    if events.len() > 0 {
        law_login_stays_home(callback, poll_cookies, original_cookies, events.drop_last());
        lemma_next_stays_home(login_after(start, events.drop_last()), events.last());
    }
    if let StageView::OAuth { attempt, .. } = login_after(start, events).stage {
        lemma_own_requests(attempt);
    }
    lemma_own_requests(0);
}

/// Once the jar holds a key, the home page is the last that is asked.
pub proof fn law_key_ends_search(jar: Seq<Seq<char>>)
    requires
        cookies::holds(jar, "qqmusic_key="@),
    ensures
        leave_home(jar) == finished(jar),
{
}

proof fn lemma_key_prefix()
    ensures
        "qqmusic_key"@ + "="@ == "qqmusic_key="@,
        !"qqmusic_key"@.contains('='),
{
    reveal_strlit("qqmusic_key");
    reveal_strlit("=");
    reveal_strlit("qqmusic_key=");
    assert("qqmusic_key"@ + "="@ =~= "qqmusic_key="@);
}

/// What is put together begins with its first part.
proof fn lemma_begins(a: Seq<char>, b: Seq<char>)
    ensures
        text::starts_with(a + b, a),
{
    assert((a + b).take(a.len() as int) =~= a);
}

proof fn lemma_with_key_keeps(jar: Seq<Seq<char>>, value: Seq<char>, name: Seq<char>)
    requires
        !name.contains('='),
        cookies::holds(jar, name + "="@),
    ensures
        cookies::holds(with_key(jar, value), name + "="@),
{
    lemma_key_prefix();
    lemma_begins("qqmusic_key="@, value);
    cookies::law_replacing_keeps_names(
        jar,
        "qqmusic_key"@,
        "qqmusic_key="@ + value,
        name,
    );
}

proof fn lemma_push_keeps(jar: Seq<Seq<char>>, entry: Seq<char>, prefix: Seq<char>)
    requires
        cookies::holds(jar, prefix),
    ensures
        cookies::holds(jar.push(entry), prefix),
{
    let i = choose|i: int| 0 <= i < jar.len() && text::starts_with(#[trigger] jar[i], prefix);
    assert(jar.push(entry)[i] == jar[i]);
}

proof fn lemma_live_name(header: Seq<char>)
    ensures
        cookies::live_pair(header) matches Some((name, _)) ==> !name.contains('='),
{
    text::lemma_find_any_one(header, '=');
}

proof fn lemma_live_keeps(jar: Seq<Seq<char>>, headers: Seq<Seq<char>>, name: Seq<char>)
    requires
        !name.contains('='),
        cookies::holds(jar, name + "="@),
    ensures
        cookies::holds(after_live(jar, headers), name + "="@),
        cookies::holds(after_new_live(jar, headers), name + "="@),
    decreases headers.len(),
{
    if headers.len() > 0 {
        lemma_live_keeps(jar, headers.drop_last(), name);
        lemma_live_name(headers.last());
        if let Some((n, v)) = cookies::live_pair(headers.last()) {
            let pair = n + "="@ + v;
            lemma_begins(n + "="@, v);
            cookies::law_replacing_keeps_names(
                after_live(jar, headers.drop_last()),
                n,
                pair,
                name,
            );
            lemma_push_keeps(after_new_live(jar, headers.drop_last()), pair, name + "="@);
        }
    }
}

proof fn lemma_oauth_keeps(jar: Seq<Seq<char>>, body: Seq<char>, name: Seq<char>)
    requires
        !name.contains('='),
        cookies::holds(jar, name + "="@),
    ensures
        cookies::holds(after_oauth(jar, body), name + "="@),
{
    if let Some(d) = json::json_parse(body) {
        let first = match json::first_filled(Some(d), key_names()) {
            Some(v) => with_key(jar, v),
            None => jar,
        };
        if let Some(v) = json::first_filled(Some(d), key_names()) {
            lemma_with_key_keeps(jar, v, name);
        }
        if let Some(v) = json::first_filled(json::member(Some(d), "data"@), key_names()) {
            lemma_with_key_keeps(first, v, name);
        }
    }
}

/// No reply loses a cookie: once one of some name is in the jar, one of that name
/// is in it from then on.
pub proof fn law_login_keeps_cookies(l: LoginView, e: LoginEventView, name: Seq<char>)
    requires
        !name.contains('='),
        cookies::holds(l.jar, name + "="@),
    ensures
        cookies::holds(login_next(l, e).jar, name + "="@),
{
    let prefix = name + "="@;
    if let Some(v) = stand_in(l.jar) {
        lemma_push_keeps(l.jar, "qqmusic_key="@ + v, prefix);
    }
    if let LoginEventView::Answered(a) = e {
        cookies::law_set_cookies_keep_names(l.jar, a.set_cookies, name);
        lemma_live_keeps(l.jar, a.set_cookies, name);
        lemma_oauth_keeps(l.jar, a.body, name);
        if let Some(location) = a.location {
            if let Some(token) = pages::parameter(location, "access_token="@) {
                lemma_with_key_keeps(after_new_live(l.jar, a.set_cookies), token, name);
            }
        }
        if let Some(token) = pages::parameter(a.body, "access_token="@) {
            lemma_with_key_keeps(after_live(l.jar, a.set_cookies), token, name);
        }
    }
}

/// The name and the pair that the header `i` of a reply puts into the jar; `None`
/// where it leaves the jar as it is. The authorization adds what is new, and the
/// other replies replace what they find.
pub open spec fn set_by(l: LoginView, a: AnswerView, i: int) -> Option<(Seq<char>, Seq<char>)> {
    let live = match cookies::live_pair(a.set_cookies[i]) {
        Some((name, value)) => Some((name, name + "="@ + value)),
        None => None,
    };
    match l.stage {
        StageView::Chain { .. } => cookies::set_pair(a.set_cookies[i]),
        StageView::Home { .. } => cookies::set_pair(a.set_cookies[i]),
        StageView::Player { .. } => cookies::set_pair(a.set_cookies[i]),
        StageView::Grant { .. } => live,
        StageView::Return { .. } => live,
        StageView::Authorize { .. } => match live {
            Some((name, pair)) => if cookies::holds(
                after_new_live(l.jar, a.set_cookies.take(i)),
                name + "="@,
            ) {
                None
            } else {
                Some((name, pair))
            },
            None => None,
        },
        _ => None,
    }
}

/// A reply brings a key in something other than a `Set-Cookie` header.
pub open spec fn brings_key(l: LoginView, a: AnswerView) -> bool {
    match l.stage {
        StageView::OAuth { .. } => after_oauth(l.jar, a.body) != l.jar,
        StageView::Authorize { .. } => a.location matches Some(location) && pages::parameter(
            location,
            "access_token="@,
        ) is Some,
        StageView::Grant { .. } => !(is_redirect(a.status) && a.location is Some)
            && (pages::parameter(a.body, "access_token="@) matches Some(token) && token.len()
            > 0),
        _ => false,
    }
}

/// From its header `k` on, a reply sets a cookie of the name `name`.
pub open spec fn sets_from(l: LoginView, a: AnswerView, k: int, name: Seq<char>) -> bool {
    ||| exists|i: int|
        k <= i < a.set_cookies.len() && cookies::is_named(#[trigger] set_by(l, a, i), name)
    ||| name == "qqmusic_key"@ && brings_key(l, a)
}

/// A reply sets a cookie of the name `name`.
pub open spec fn sets(l: LoginView, e: LoginEventView, name: Seq<char>) -> bool {
    e matches LoginEventView::Answered(a) && sets_from(l, a, 0, name)
}

proof fn lemma_push_contains(jar: Seq<Seq<char>>, entry: Seq<char>, pair: Seq<char>)
    requires
        jar.contains(entry),
    ensures
        jar.push(pair).contains(entry),
{
    let i = choose|i: int| 0 <= i < jar.len() && jar[i] == entry;
    assert(jar.push(pair)[i] == entry);
}

proof fn lemma_with_key_keeps_others(
    jar: Seq<Seq<char>>,
    value: Seq<char>,
    name: Seq<char>,
    entry: Seq<char>,
)
    requires
        !name.contains('='),
        name != "qqmusic_key"@,
        jar.contains(entry),
        text::starts_with(entry, name + "="@),
    ensures
        with_key(jar, value).contains(entry),
{
    lemma_key_prefix();
    cookies::law_replacing_keeps_others(
        jar,
        "qqmusic_key"@,
        "qqmusic_key="@ + value,
        name,
        entry,
    );
}

proof fn lemma_oauth_keeps_others(
    jar: Seq<Seq<char>>,
    body: Seq<char>,
    name: Seq<char>,
    entry: Seq<char>,
)
    requires
        !name.contains('='),
        name != "qqmusic_key"@,
        jar.contains(entry),
        text::starts_with(entry, name + "="@),
    ensures
        after_oauth(jar, body).contains(entry),
{
    if let Some(d) = json::json_parse(body) {
        let first = match json::first_filled(Some(d), key_names()) {
            Some(v) => with_key(jar, v),
            None => jar,
        };
        if let Some(v) = json::first_filled(Some(d), key_names()) {
            lemma_with_key_keeps_others(jar, v, name, entry);
        }
        if let Some(v) = json::first_filled(json::member(Some(d), "data"@), key_names()) {
            lemma_with_key_keeps_others(first, v, name, entry);
        }
    }
}

proof fn lemma_live_keeps_values(
    jar: Seq<Seq<char>>,
    headers: Seq<Seq<char>>,
    k: int,
    name: Seq<char>,
    entry: Seq<char>,
)
    requires
        0 <= k <= headers.len(),
        !name.contains('='),
        text::starts_with(entry, name + "="@),
        after_live(jar, headers.take(k)).contains(entry),
        forall|j: int|
            k <= j < headers.len() ==> !cookies::is_named(
                cookies::live_pair(#[trigger] headers[j]),
                name,
            ),
    ensures
        after_live(jar, headers).contains(entry),
    decreases headers.len(),
{
    if k < headers.len() {
        let shorter = headers.drop_last();
        assert(shorter.take(k) =~= headers.take(k));
        assert forall|j: int| k <= j < shorter.len() implies !cookies::is_named(
            cookies::live_pair(#[trigger] shorter[j]),
            name,
        ) by {
            assert(shorter[j] == headers[j]);
        }
        lemma_live_keeps_values(jar, shorter, k, name, entry);
        assert(headers.last() == headers[headers.len() - 1]);
        lemma_live_name(headers.last());
        if let Some((n, v)) = cookies::live_pair(headers.last()) {
            cookies::law_replacing_keeps_others(
                after_live(jar, shorter),
                n,
                n + "="@ + v,
                name,
                entry,
            );
        }
    } else {
        assert(headers.take(k) =~= headers);
    }
}

proof fn lemma_new_live_keeps_values(
    jar: Seq<Seq<char>>,
    headers: Seq<Seq<char>>,
    k: int,
    entry: Seq<char>,
)
    requires
        0 <= k <= headers.len(),
        after_new_live(jar, headers.take(k)).contains(entry),
    ensures
        after_new_live(jar, headers).contains(entry),
    decreases headers.len(),
{
    if k < headers.len() {
        let shorter = headers.drop_last();
        assert(shorter.take(k) =~= headers.take(k));
        lemma_new_live_keeps_values(jar, shorter, k, entry);
        if let Some((n, v)) = cookies::live_pair(headers.last()) {
            lemma_push_contains(after_new_live(jar, shorter), entry, n + "="@ + v);
        }
    } else {
        assert(headers.take(k) =~= headers);
    }
}

/// The jar after the first `k` of the `Set-Cookie` headers of a reply.
pub open spec fn jar_after_headers(l: LoginView, a: AnswerView, k: int) -> Seq<Seq<char>> {
    match l.stage {
        StageView::Chain { .. } => cookies::after_set_cookies(l.jar, a.set_cookies.take(k)),
        StageView::Home { .. } => cookies::after_set_cookies(l.jar, a.set_cookies.take(k)),
        StageView::Player { .. } => cookies::after_set_cookies(l.jar, a.set_cookies.take(k)),
        StageView::Grant { .. } => after_live(l.jar, a.set_cookies.take(k)),
        StageView::Return { .. } => after_live(l.jar, a.set_cookies.take(k)),
        StageView::Authorize { .. } => after_new_live(l.jar, a.set_cookies.take(k)),
        _ => l.jar,
    }
}

proof fn lemma_reply_keeps_values(
    l: LoginView,
    a: AnswerView,
    k: int,
    name: Seq<char>,
    entry: Seq<char>,
)
    requires
        0 <= k <= a.set_cookies.len(),
        !name.contains('='),
        text::starts_with(entry, name + "="@),
        jar_after_headers(l, a, k).contains(entry),
        !sets_from(l, a, k, name),
    ensures
        login_next(l, LoginEventView::Answered(a)).jar.contains(entry),
{
    let headers = a.set_cookies;
    match l.stage {
        StageView::Authorize { .. } => {
            lemma_new_live_keeps_values(l.jar, headers, k, entry);
            let more = after_new_live(l.jar, headers);
            if let Some(location) = a.location {
                if let Some(token) = pages::parameter(location, "access_token="@) {
                    lemma_with_key_keeps_others(more, token, name, entry);
                }
            }
        },
        StageView::Grant { .. } | StageView::Return { .. } => {
            assert forall|j: int| k <= j < headers.len() implies !cookies::is_named(
                cookies::live_pair(#[trigger] headers[j]),
                name,
            ) by {
                assert(!cookies::is_named(set_by(l, a, j), name));
            }
            lemma_live_keeps_values(l.jar, headers, k, name, entry);
            if l.stage is Grant && name != "qqmusic_key"@ {
                if let Some(token) = pages::parameter(a.body, "access_token="@) {
                    lemma_with_key_keeps_others(after_live(l.jar, headers), token, name, entry);
                }
            }
        },
        StageView::Chain { .. } | StageView::Home { .. } | StageView::Player { .. } => {
            assert forall|j: int| k <= j < headers.len() implies !cookies::is_named(
                cookies::set_pair(#[trigger] headers[j]),
                name,
            ) by {
                assert(!cookies::is_named(set_by(l, a, j), name));
            }
            cookies::law_set_cookies_keep_values(l.jar, headers, k, name, entry);
        },
        StageView::OAuth { .. } => {
            if name != "qqmusic_key"@ {
                lemma_oauth_keeps_others(l.jar, a.body, name, entry);
            }
        },
        _ => {
            if let Some(v) = stand_in(l.jar) {
                lemma_push_contains(l.jar, entry, "qqmusic_key="@ + v);
            }
        },
    }
}

/// No reply changes the value of a cookie that it does not set: the pair stays in
/// the jar.
pub proof fn law_login_keeps_values(
    l: LoginView,
    e: LoginEventView,
    name: Seq<char>,
    entry: Seq<char>,
)
    requires
        !name.contains('='),
        text::starts_with(entry, name + "="@),
        l.jar.contains(entry),
        !sets(l, e, name),
    ensures
        login_next(l, e).jar.contains(entry),
{
    match e {
        LoginEventView::Failed(_) => {
            if let Some(v) = stand_in(l.jar) {
                lemma_push_contains(l.jar, entry, "qqmusic_key="@ + v);
            }
        },
        LoginEventView::Answered(a) => {
            assert(a.set_cookies.take(0) =~= seq![]);
            lemma_reply_keeps_values(l, a, 0, name, entry);
        },
    }
}

/// A pair that the header `i` of a reply sets is in the jar after the reply, where
/// nothing behind that header sets a cookie of its name.
pub proof fn law_login_takes_values(l: LoginView, a: AnswerView, i: int)
    requires
        0 <= i < a.set_cookies.len(),
        set_by(l, a, i) matches Some((name, _)) && !sets_from(l, a, i + 1, name),
    ensures
        set_by(l, a, i) matches Some((_, pair)) && login_next(
            l,
            LoginEventView::Answered(a),
        ).jar.contains(pair),
{
    let (name, pair) = set_by(l, a, i)->0;
    let upto = a.set_cookies.take(i + 1);
    assert(upto.drop_last() =~= a.set_cookies.take(i));
    assert(upto.last() == a.set_cookies[i]);
    cookies::lemma_set_pair(a.set_cookies[i]);
    lemma_live_name(a.set_cookies[i]);
    if let Some((n, v)) = cookies::live_pair(a.set_cookies[i]) {
        lemma_begins(n + "="@, v);
    }
    let now = jar_after_headers(l, a, i + 1);
    assert(now.last() == pair);
    assert(now[now.len() - 1] == pair);
    lemma_reply_keeps_values(l, a, i + 1, name, pair);
}

/// A pair that is in the jar is in it after any replies of which none sets a cookie
/// of its name.
pub proof fn law_run_keeps_values(
    l: LoginView,
    events: Seq<LoginEventView>,
    name: Seq<char>,
    entry: Seq<char>,
)
    requires
        !name.contains('='),
        text::starts_with(entry, name + "="@),
        l.jar.contains(entry),
        forall|k: int|
            0 <= k < events.len() ==> !sets(login_after(l, events.take(k)), #[trigger] events[k], name),
    ensures
        login_after(l, events).jar.contains(entry),
    decreases events.len(),
{
    if events.len() > 0 {
        let shorter = events.drop_last();
        assert forall|k: int| 0 <= k < shorter.len() implies !sets(
            login_after(l, shorter.take(k)),
            #[trigger] shorter[k],
            name,
        ) by {
            assert(shorter.take(k) =~= events.take(k));
            assert(shorter[k] == events[k]);
        }
        law_run_keeps_values(l, shorter, name, entry);
        let last = events.len() - 1;
        assert(events.take(last) =~= shorter);
        assert(!sets(login_after(l, events.take(last)), events[last], name));
        law_login_keeps_values(login_after(l, shorter), events.last(), name, entry);
    }
}

/// A pair that a header of a reply sets, and that nothing sets again, neither the
/// rest of that reply nor any that follows, is among the cookies that the login
/// has in the end.
pub proof fn law_set_values_last(
    l: LoginView,
    a: AnswerView,
    i: int,
    events: Seq<LoginEventView>,
)
    requires
        0 <= i < a.set_cookies.len(),
        set_by(l, a, i) matches Some((name, _)) && !sets_from(l, a, i + 1, name) && forall|k: int|
            0 <= k < events.len() ==> !sets(
                login_after(login_next(l, LoginEventView::Answered(a)), events.take(k)),
                #[trigger] events[k],
                name,
            ),
    ensures
        set_by(l, a, i) matches Some((_, pair)) && login_after(
            login_next(l, LoginEventView::Answered(a)),
            events,
        ).jar.contains(pair),
{
    let (name, pair) = set_by(l, a, i)->0;
    law_login_takes_values(l, a, i);
    cookies::lemma_set_pair(a.set_cookies[i]);
    lemma_live_name(a.set_cookies[i]);
    if let Some((n, v)) = cookies::live_pair(a.set_cookies[i]) {
        lemma_begins(n + "="@, v);
    }
    law_run_keeps_values(login_next(l, LoginEventView::Answered(a)), events, name, pair);
}

/// Where no address gives a key, a cookie that can stand in for one does: after
/// the question who is logged in, the jar holds a key.
pub proof fn law_stand_in_is_key(l: LoginView, e: LoginEventView)
    requires
        l.stage is LoginInfo,
        stand_in(l.jar) is Some,
    ensures
        cookies::holds(login_next(l, e).jar, "qqmusic_key="@),
{
    let v = stand_in(l.jar)->0;
    let now = l.jar.push("qqmusic_key="@ + v);
    lemma_begins("qqmusic_key="@, v);
    assert(text::starts_with(now[l.jar.len() as int], "qqmusic_key="@));
}

/// Through a whole login no cookie is lost, and what it ends well with are all the
/// cookies that were collected, at least one.
pub proof fn law_login_run(
    callback: Seq<char>,
    poll_cookies: Seq<char>,
    original_cookies: Seq<char>,
    events: Seq<LoginEventView>,
    name: Seq<char>,
)
    requires
        !name.contains('='),
    ensures
        ({
            let start = login_start(callback, poll_cookies, original_cookies);
            let now = login_after(start, events);
            &&& cookies::holds(start.jar, name + "="@) ==> cookies::holds(now.jar, name + "="@)
            &&& login_result_of(now) matches Some(Ok(cookie)) ==> cookie == text::join(
                now.jar,
                "; "@,
            ) && cookie.len() > 0
        }),
    decreases events.len(),
{
    if events.len() > 0 {
        let start = login_start(callback, poll_cookies, original_cookies);
        let before = login_after(start, events.drop_last());
        law_login_run(callback, poll_cookies, original_cookies, events.drop_last(), name);
        if cookies::holds(start.jar, name + "="@) {
            law_login_keeps_cookies(before, events.last(), name);
        }
    }
}

// ---------------------------------------------------------------------------
// What the requests of a login carry
// ---------------------------------------------------------------------------
/// Each request of a login goes where its stage says, with the cookies: those of the
/// jar while redirects of the login and of the home page are followed, and those that
/// the stage has kept behind that. Only the question who is logged in has a body.
pub proof fn law_login_requests_carry_cookies(l: LoginView)
    ensures
        ({
            let q = login_request_of(l);
            let home = ("Referer"@, "https://y.qq.com/"@);
            match l.stage {
                StageView::Chain { url, .. } => q is Some && q->0.url == url && q->0.body is None
                    && q->0.headers.contains(("Cookie"@, text::join(l.jar, "; "@)))
                    && q->0.headers.contains(home),
                StageView::Home { url, .. } => q is Some && q->0.url == url && q->0.body is None
                    && q->0.headers.contains(("Cookie"@, text::join(l.jar, "; "@)))
                    && q->0.headers.contains(home),
                StageView::OAuth { attempt, cookie } => q is Some && text::starts_with(
                    q->0.url,
                    "https://u.y.qq.com/cgi-bin/fcg_music_oauth_get_accesstoken.fcg?client_id=100497308&"@,
                ) && q->0.body is None && q->0.headers.contains(("Cookie"@, cookie)) && (text::contains(
                    q->0.url,
                    "grant_type=authorization_code"@,
                ) <==> attempt != 0),
                StageView::LoginInfo { cookie } => q is Some && q->0.url
                    == "https://u.y.qq.com/cgi-bin/musicu.fcg"@ && q->0.body == Some(
                    json::json_print(request::login_info_doc(Some(cookie))),
                ) && q->0.headers.contains(("Cookie"@, cookie)) && q->0.headers.contains(
                    ("Origin"@, "https://y.qq.com"@),
                ),
                StageView::Authorize { cookie } => q is Some && text::starts_with(
                    q->0.url,
                    "https://graph.qq.com/oauth2.0/authorize?response_type=token&client_id=100497308&"@,
                ) && q->0.body is None && q->0.headers.contains(("Cookie"@, cookie)),
                StageView::Token { url, cookie } => q is Some && q->0.url == url && q->0.body is None
                    && q->0.headers.contains(("Cookie"@, cookie)),
                StageView::Grant { url, cookie, .. } => q is Some && q->0.url == url
                    && q->0.body is None && q->0.headers.contains(("Cookie"@, cookie))
                    && q->0.headers.contains(("Referer"@, "https://graph.qq.com/"@)),
                StageView::Return { url, cookie } => q is Some && q->0.url == url && q->0.body is None
                    && q->0.headers.contains(("Cookie"@, cookie)),
                StageView::Player { cookie } => q is Some && q->0.url
                    == "https://y.qq.com/portal/player.html"@ && q->0.body is None
                    && q->0.headers.contains(("Cookie"@, cookie)),
                StageView::Done(_) => q is None,
            }
        }),
{
    if let Some(q) = login_request_of(l) {
        assert(q.headers[0].0 == "Cookie"@);
        assert(q.headers.contains(q.headers[0]));
        if q.headers.len() > 2 {
            assert(q.headers.contains(q.headers[2]));
        }
        if q.headers.len() > 3 {
            assert(q.headers.contains(q.headers[3]));
        }
    }
    if let StageView::OAuth { attempt, .. } = l.stage {
        lemma_exchange_urls(attempt);
    }
    if l.stage is Authorize {
        reveal_strlit(
            "https://graph.qq.com/oauth2.0/authorize?response_type=token&client_id=100497308&redirect_uri=https%3A%2F%2Fy.qq.com%2Fportal%2Fwx_redirect.html&state=qqmusic_login&scope=get_user_info",
        );
        reveal_strlit(
            "https://graph.qq.com/oauth2.0/authorize?response_type=token&client_id=100497308&",
        );
        let url = login_request_of(l)->0.url;
        let front =
            "https://graph.qq.com/oauth2.0/authorize?response_type=token&client_id=100497308&"@;
        assert(url.take(front.len() as int) =~= front);
    }
}

proof fn lemma_exchange_urls(attempt: u32)
    ensures
        text::starts_with(
            exchange_url(attempt),
            "https://u.y.qq.com/cgi-bin/fcg_music_oauth_get_accesstoken.fcg?client_id=100497308&"@,
        ),
        text::contains(exchange_url(attempt), "grant_type=authorization_code"@) <==> attempt != 0,
{
    reveal_strlit(
        "https://u.y.qq.com/cgi-bin/fcg_music_oauth_get_accesstoken.fcg?client_id=100497308&format=json&inCharset=utf8&outCharset=utf-8",
    );
    reveal_strlit(
        "https://u.y.qq.com/cgi-bin/fcg_music_oauth_get_accesstoken.fcg?client_id=100497308&grant_type=authorization_code&format=json",
    );
    reveal_strlit(
        "https://u.y.qq.com/cgi-bin/fcg_music_oauth_get_accesstoken.fcg?client_id=100497308&",
    );
    reveal_strlit("grant_type=authorization_code");
    let url = exchange_url(attempt);
    let front =
        "https://u.y.qq.com/cgi-bin/fcg_music_oauth_get_accesstoken.fcg?client_id=100497308&"@;
    let p = "grant_type=authorization_code"@;
    assert(url.take(front.len() as int) =~= front);
    text::law_found_at_first_place(url, p);
    if attempt != 0 {
        assert(url.subrange(front.len() as int, (front.len() + p.len()) as int) =~= p);
        assert(text::occurs_at(url, p, front.len() as int));
    } else {
        assert(!text::contains(url, p)) by {
            if text::contains(url, p) {
                let i = choose|i: int| #[trigger] text::occurs_at(url, p, i);
                let part = url.subrange(i, i + p.len());
                assert(part[0] == url[i] && part[1] == url[i + 1]);
                assert(p[0] == 'g' && p[1] == 'r');
            }
        }
    }
}

/// The stages of a login follow each other: the redirects of the login, the home page
/// and its redirects, and where no key was found by then, the two exchanges, the
/// question who is logged in, the authorization with what it leads to, and the page of
/// the player. The cookies that a stage keeps are those of the jar at the time.
pub proof fn law_login_takes_its_stages(l: LoginView, e: LoginEventView)
    ensures
        ({
            let next = login_next(l, e);
            let all = text::join(next.jar, "; "@);
            match l.stage {
                StageView::Chain { hop, .. } => match next.stage {
                    StageView::Chain { hop: h, .. } => hop < 9 && h == hop + 1,
                    StageView::Home { hop: h, url } => h == 0 && url == "https://y.qq.com/"@
                        && e is Answered,
                    StageView::Done(r) => r is Err,
                    _ => false,
                },
                StageView::Home { hop, .. } => match next.stage {
                    StageView::Home { hop: h, .. } => hop < 4 && h == hop + 1,
                    StageView::OAuth { attempt, cookie } => attempt == 0 && cookie == all
                        && !cookies::holds(next.jar, "qqmusic_key="@),
                    StageView::Done(r) => r is Ok ==> cookies::holds(next.jar, "qqmusic_key="@),
                    _ => false,
                },
                StageView::OAuth { attempt, cookie } => match next.stage {
                    StageView::OAuth { attempt: n, cookie: kept } => attempt == 0 && n == 1 && kept
                        == cookie,
                    StageView::LoginInfo { cookie: kept } => attempt != 0 && kept == all
                        && !cookies::holds(next.jar, "qqmusic_key="@),
                    StageView::Done(r) => attempt != 0 && cookies::holds(
                        next.jar,
                        "qqmusic_key="@,
                    ),
                    _ => false,
                },
                StageView::LoginInfo { .. } => next.stage == StageView::Authorize { cookie: all },
                StageView::Authorize { cookie } => match next.stage {
                    StageView::Player { cookie: kept } => kept == cookie,
                    StageView::Token { cookie: kept, .. } => kept == cookie,
                    StageView::Grant { hop, cookie: kept, .. } => hop == 0 && kept == cookie,
                    _ => false,
                },
                StageView::Token { cookie, .. } => next.stage == StageView::Player { cookie },
                StageView::Grant { hop, cookie, .. } => match next.stage {
                    StageView::Player { cookie: kept } => kept == cookie,
                    StageView::Return { cookie: kept, .. } => kept == cookie,
                    StageView::Grant { hop: h, cookie: kept, .. } => hop < 4 && h == hop + 1
                        && kept == cookie,
                    _ => false,
                },
                StageView::Return { cookie, .. } => next.stage == StageView::Player { cookie },
                StageView::Player { .. } => next.stage is Done,
                StageView::Done(_) => next == l,
            }
        }),
{
}

/// A redirect of the login or of the home page is followed to where it leads: to the
/// address that its header names, at the same host where that is a path, as long as
/// there are hops left. An answer that leads nowhere ends the chain.
pub proof fn law_redirects_are_followed(
    jar: Seq<Seq<char>>,
    hop: u32,
    scheme: Seq<char>,
    host: Seq<char>,
    path: Seq<char>,
    a: AnswerView,
    location: Seq<char>,
)
    requires
        scheme == "https:"@ || scheme == "http:"@,
        !host.contains('/'),
        path.len() > 0 ==> path[0] == '/',
    ensures
        ({
            let url = scheme + "//"@ + host + path;
            let target = if text::starts_with(location, "http"@) {
                location
            } else {
                scheme + "//"@ + host + location
            };
            let chain = after_chain(jar, hop, url, LoginEventView::Answered(a));
            let home = after_home(jar, hop, url, LoginEventView::Answered(a));
            &&& 300 <= a.status < 400 && a.location == Some(location) && location.len() > 0 && (
            text::starts_with(location, "http"@) || location[0] == '/') && pages::is_login_host(
                target,
            ) ==> {
                &&& hop < 9 ==> chain.stage == (StageView::Chain {
                    hop: (hop + 1) as u32,
                    url: target,
                })
                &&& hop < 4 ==> home.stage == (StageView::Home {
                    hop: (hop + 1) as u32,
                    url: target,
                })
            }
            &&& 300 <= a.status < 400 && a.location == Some(location) && location.len() == 0 ==> {
                &&& chain.stage == StageView::Home { hop: 0, url: "https://y.qq.com/"@ }
                &&& !(home.stage is Home)
            }
            &&& a.location is None && pages::page_target(a.body) is None ==> {
                &&& chain.stage == StageView::Home { hop: 0, url: "https://y.qq.com/"@ }
                &&& !(home.stage is Home)
            }
            &&& pages::page_target(a.body) is Some && (a.location is None || !(300 <= a.status
                < 400)) && pages::is_login_host(pages::page_target(a.body)->0) ==> {
                &&& hop < 9 ==> chain.stage == (StageView::Chain {
                    hop: (hop + 1) as u32,
                    url: pages::page_target(a.body)->0,
                })
                &&& hop < 4 ==> home.stage == (StageView::Home {
                    hop: (hop + 1) as u32,
                    url: pages::page_target(a.body)->0,
                })
            }
            &&& chain.jar == cookies::after_set_cookies(jar, a.set_cookies)
            &&& home.jar == cookies::after_set_cookies(jar, a.set_cookies)
        }),
{
    pages::law_location_is_resolved(scheme, host, path, location);
    reveal_strlit("http");
    let url = scheme + "//"@ + host + path;
    let target = if text::starts_with(location, "http"@) {
        location
    } else {
        scheme + "//"@ + host + location
    };
    if pages::is_login_host(target) {
        lemma_login_host_is_address(target);
    }
    if let Some(t) = pages::page_target(a.body) {
        if pages::is_login_host(t) {
            lemma_login_host_is_address(t);
        }
    }
}

/// An address that the cookies may be sent to is a web address.
proof fn lemma_login_host_is_address(url: Seq<char>)
    requires
        pages::is_login_host(url),
    ensures
        pages::is_web_address(url),
{
    reveal_strlit("https:");
    reveal_strlit("http:");
    reveal_strlit("https://");
    reveal_strlit("http://");
    let low = text::ascii_lowered(url);
    if text::starts_with(low, "https://"@) {
        assert(low.take(6) =~= low.take(8).take(6));
        assert("https://"@.take(6) =~= "https:"@);
    } else {
        assert(low.take(5) =~= low.take(7).take(5));
        assert("http://"@.take(5) =~= "http:"@);
    }
}

/// A login begins where its callback says: at the address that it is, or at the third
/// of its arguments in quotes, where the cookies may be sent there; and with the
/// cookies of the code and of the poll.
pub proof fn law_login_begins_at_its_callback(
    callback: Seq<char>,
    first: Seq<char>,
    second: Seq<char>,
    url: Seq<char>,
    rest: Seq<char>,
    poll_cookies: Seq<char>,
    original_cookies: Seq<char>,
)
    requires
        !first.contains('\'') && !second.contains('\'') && !url.contains('\''),
    ensures
        text::starts_with(callback, "http"@) && pages::is_login_host(callback) ==> login_start(
            callback,
            poll_cookies,
            original_cookies,
        ).stage == (StageView::Chain { hop: 0, url: callback }),
        ({
            let quoted = "ptuiCB('"@ + first + "','"@ + second + "','"@ + url + "'"@ + rest;
            &&& pages::is_login_host(url) ==> login_start(
                quoted,
                poll_cookies,
                original_cookies,
            ).stage == (StageView::Chain { hop: 0, url })
            &&& url.len() == 0 || url == "0"@ ==> login_start(
                quoted,
                poll_cookies,
                original_cookies,
            ).stage == (StageView::Chain { hop: 0, url: "https://y.qq.com"@ })
        }),
        login_start(callback, poll_cookies, original_cookies).jar == cookies::gathered_cookie(
            cookies::gathered_cookie(seq![], original_cookies),
            poll_cookies,
        ),
{
    if pages::is_login_host(callback) {
        lemma_login_host_is_address(callback);
    }
    if pages::is_login_host(url) {
        lemma_login_host_is_address(url);
        reveal_strlit("http://");
        reveal_strlit("https://");
        reveal_strlit("0");
    }
    reveal_strlit("ptuiCB('");
    reveal_strlit("','");
    reveal_strlit("'");
    reveal_strlit("http");
    reveal_strlit("ptuiCB(");
    let quoted = "ptuiCB('"@ + first + "','"@ + second + "','"@ + url + "'"@ + rest;
    assert(quoted[0] == 'p');
    if text::starts_with(quoted, "http"@) {
        assert(quoted.take(4)[0] == "http"@[0]);
    }
    let q = '\'';
    let comma = seq![','];
    let r1 = url + seq![q] + rest;
    let r2 = comma + seq![q] + r1;
    let r3 = second + seq![q] + r2;
    let r4 = comma + seq![q] + r3;
    let r5 = first + seq![q] + r4;
    let head = "ptuiCB("@;
    assert(quoted =~= head + seq![q] + r5);
    text::lemma_split_concat(head, q, r5);
    text::lemma_split_concat(first, q, r4);
    text::lemma_split_concat(comma, q, r3);
    text::lemma_split_concat(second, q, r2);
    text::lemma_split_concat(comma, q, r1);
    text::lemma_split_concat(url, q, rest);
    assert(!head.contains(q));
    assert(!comma.contains(q));
    text::lemma_split_whole(head, q);
    text::lemma_split_whole(first, q);
    text::lemma_split_whole(comma, q);
    text::lemma_split_whole(second, q);
    text::lemma_split_whole(url, q);
    let pieces = text::split(quoted, q);
    assert(pieces =~= seq![head, first, comma, second, comma, url] + text::split(rest, q));
    assert(pieces[5] == url);
}

/// The token of the authorization, in its header or on its page, is in the jar as the
/// key behind it.
pub proof fn law_token_becomes_key(
    jar: Seq<Seq<char>>,
    cookie: Seq<char>,
    a: AnswerView,
    location: Seq<char>,
    token: Seq<char>,
    hop: u32,
)
    ensures
        a.location == Some(location) && pages::parameter(location, "access_token="@) == Some(token)
            ==> after_authorize(jar, cookie, LoginEventView::Answered(a)).jar.contains(
            "qqmusic_key="@ + token,
        ),
        (a.location is None || !(300 <= a.status < 400)) && pages::parameter(
            a.body,
            "access_token="@,
        ) == Some(token) && token.len() > 0 ==> after_grant(
            jar,
            hop,
            cookie,
            LoginEventView::Answered(a),
        ).jar.contains("qqmusic_key="@ + token),
{
    let headers = a.set_cookies;
    lemma_with_key_has(after_new_live(jar, headers), token);
    lemma_with_key_has(after_live(jar, headers), token);
}

proof fn lemma_with_key_has(jar: Seq<Seq<char>>, value: Seq<char>)
    ensures
        with_key(jar, value).contains("qqmusic_key="@ + value),
        with_key(jar, value).last() == "qqmusic_key="@ + value,
        cookies::holds(with_key(jar, value), "qqmusic_key="@),
{
    let now = with_key(jar, value);
    assert(now[now.len() - 1] == "qqmusic_key="@ + value);
    lemma_begins("qqmusic_key="@, value);
    assert(text::starts_with(now[now.len() - 1], "qqmusic_key="@));
}

/// The names under which an exchange gives a key, in the order in which they count.
pub open spec fn exchange_names() -> Seq<Seq<char>> {
    seq!["access_token"@, "musickey"@, "qqmusic_key"@, "key"@, "token"@]
}

/// The text `t` stands under the name `i`, and no text under a name before it.
pub open spec fn first_key(d: Option<Doc>, i: int, t: Seq<char>) -> bool {
    0 <= i < 5 && json::has_text(d, exchange_names()[i], t) && forall|j: int|
        0 <= j < i ==> json::has_no_text(d, #[trigger] exchange_names()[j])
}

/// No text stands under any of the names.
pub open spec fn no_key(d: Option<Doc>) -> bool {
    forall|j: int| 0 <= j < 5 ==> json::has_no_text(d, #[trigger] exchange_names()[j])
}

/// The key of an exchange is the first under its names in the data of the answer, and
/// in the answer itself where the data have none. An answer without one, and one that
/// does not speak of a key, leaves the jar as it is.
pub proof fn law_exchange_gives_its_key(
    jar: Seq<Seq<char>>,
    body: Seq<char>,
    d: Doc,
    i: int,
    t: Seq<char>,
)
    ensures
        ({
            let speaks = text::contains(body, "access_token"@) || text::contains(body, "musickey"@)
                || text::contains(body, "qqmusic_key"@);
            let data = json::member(Some(d), "data"@);
            let now = after_oauth(jar, body);
            &&& speaks && json::json_parse(body) == Some(d) && first_key(data, i, t)
                ==> now.contains("qqmusic_key="@ + t)
            &&& speaks && json::json_parse(body) == Some(d) && no_key(data) && first_key(
                Some(d),
                i,
                t,
            ) ==> now.contains("qqmusic_key="@ + t)
            &&& speaks && json::json_parse(body) == Some(d) && no_key(data) && no_key(Some(d))
                ==> now == jar
            &&& !speaks || json::json_parse(body) is None ==> now == jar
        }),
{
    let data = json::member(Some(d), "data"@);
    assert(key_names() == exchange_names());
    json::lemma_first_filled(data, key_names(), i, t);
    json::lemma_first_filled(Some(d), key_names(), i, t);
    let first = match json::first_filled(Some(d), key_names()) {
        Some(v) => with_key(jar, v),
        None => jar,
    };
    lemma_with_key_has(first, t);
    lemma_with_key_has(jar, t);
}

/// A code of the authorization is exchanged at the address for it.
pub proof fn law_code_is_exchanged(
    jar: Seq<Seq<char>>,
    cookie: Seq<char>,
    a: AnswerView,
    location: Seq<char>,
    code: Seq<char>,
)
    requires
        a.location == Some(location),
    ensures
        ({
            let next = after_authorize(jar, cookie, LoginEventView::Answered(a)).stage;
            &&& pages::parameter(location, "code="@) == Some(code) ==> next is Token
                && text::starts_with(
                next->Token_url,
                "https://graph.qq.com/oauth2.0/token?grant_type=authorization_code&"@,
            ) && text::contains(next->Token_url, "&code="@ + code + "&redirect_uri="@)
                && next->Token_url
                == "https://graph.qq.com/oauth2.0/token?grant_type=authorization_code&client_id=100497308&client_secret=unused&code="@
                + code + "&redirect_uri=https%3A%2F%2Fy.qq.com%2Fportal%2Fwx_redirect.html"@
            &&& pages::parameter(location, "code="@) is None && pages::is_login_host(location)
                ==> next == (StageView::Grant { hop: 0, url: location, cookie })
        }),
{
    reveal_strlit(
        "https://graph.qq.com/oauth2.0/token?grant_type=authorization_code&client_id=100497308&client_secret=unused&code=",
    );
    reveal_strlit("&redirect_uri=https%3A%2F%2Fy.qq.com%2Fportal%2Fwx_redirect.html");
    reveal_strlit("https://graph.qq.com/oauth2.0/token?grant_type=authorization_code&");
    reveal_strlit("&code=");
    reveal_strlit("&redirect_uri=");
    let front =
        "https://graph.qq.com/oauth2.0/token?grant_type=authorization_code&client_id=100497308&client_secret=unused&code="@;
    let start = "https://graph.qq.com/oauth2.0/token?grant_type=authorization_code&"@;
    let url = token_url(code);
    assert(url.take(start.len() as int) =~= start);
    let part = "&code="@ + code + "&redirect_uri="@;
    let k = front.len() - "&code="@.len();
    assert(url.subrange(k, k + part.len()) =~= part);
    assert(text::occurs_at(url, part, k));
    text::law_found_at_first_place(url, part);
}

/// The redirects of the authorization are followed: one that carries a code back to the
/// player leads there, any other to its address, as long as there are hops left.
pub proof fn law_authorization_is_followed(
    jar: Seq<Seq<char>>,
    hop: u32,
    cookie: Seq<char>,
    a: AnswerView,
    location: Seq<char>,
)
    requires
        300 <= a.status < 400,
        a.location == Some(location),
        text::starts_with(location, "http"@),
    ensures
        ({
            let next = after_grant(jar, hop, cookie, LoginEventView::Answered(a));
            let back = text::contains(location, "code="@) && (text::contains(
                location,
                "y.qq.com"@,
            ) || text::contains(location, "wx_redirect"@));
            &&& next.jar == after_live(jar, a.set_cookies)
            &&& back && pages::is_login_host(location) ==> next.stage == (StageView::Return {
                url: location,
                cookie,
            })
            &&& !back && pages::is_login_host(location) && hop < 4 ==> next.stage == (
            StageView::Grant { hop: (hop + 1) as u32, url: location, cookie })
            &&& !back && hop >= 4 ==> next.stage == (StageView::Player { cookie })
        }),
{
}

/// The first entry of the jar that begins with a prefix and goes on.
proof fn lemma_value_behind(jar: Seq<Seq<char>>, prefix: Seq<char>, i: int)
    ensures
        0 <= i < jar.len() && text::starts_with(jar[i], prefix) && jar[i].len() > prefix.len() && (
        forall|j: int|
            0 <= j < i ==> !(text::starts_with(#[trigger] jar[j], prefix) && jar[j].len()
                > prefix.len())) ==> value_behind(jar, prefix) == Some(
            jar[i].skip(prefix.len() as int),
        ),
        (forall|j: int|
            0 <= j < jar.len() ==> !(text::starts_with(#[trigger] jar[j], prefix) && jar[j].len()
                > prefix.len())) ==> value_behind(jar, prefix) is None,
    decreases jar.len(),
{
    if jar.len() > 0 {
        let rest = jar.skip(1);
        lemma_value_behind(rest, prefix, i - 1);
        if 0 < i < jar.len() && text::starts_with(jar[i], prefix) && jar[i].len() > prefix.len() && (
        forall|j: int|
            0 <= j < i ==> !(text::starts_with(#[trigger] jar[j], prefix) && jar[j].len()
                > prefix.len())) {
            assert(!(text::starts_with(jar[0], prefix) && jar[0].len() > prefix.len()));
            assert(rest[i - 1] == jar[i]);
            assert forall|j: int| 0 <= j < i - 1 implies !(text::starts_with(
                #[trigger] rest[j],
                prefix,
            ) && rest[j].len() > prefix.len()) by {
                assert(rest[j] == jar[j + 1]);
            }
        }
        if forall|j: int|
            0 <= j < jar.len() ==> !(text::starts_with(#[trigger] jar[j], prefix) && jar[j].len()
                > prefix.len()) {
            assert(!(text::starts_with(jar[0], prefix) && jar[0].len() > prefix.len()));
            assert forall|j: int| 0 <= j < rest.len() implies !(text::starts_with(
                #[trigger] rest[j],
                prefix,
            ) && rest[j].len() > prefix.len()) by {
                assert(rest[j] == jar[j + 1]);
            }
        }
    }
}

/// The entry at `i` is the first of the name, with a value, that the jar has.
pub open spec fn first_of_name(jar: Seq<Seq<char>>, name: Seq<char>, i: int, v: Seq<char>) -> bool {
    v.len() > 0 && 0 <= i < jar.len() && jar[i] == name + v && forall|j: int|
        0 <= j < i ==> !(text::starts_with(#[trigger] jar[j], name) && jar[j].len() > name.len())
}

/// The jar has no entry of the name with a value.
pub open spec fn none_of_name(jar: Seq<Seq<char>>, name: Seq<char>) -> bool {
    forall|j: int|
        0 <= j < jar.len() ==> !(text::starts_with(#[trigger] jar[j], name) && jar[j].len()
            > name.len())
}

/// The cookie that stands in for a missing key is the token of the authorization, else
/// the key of the account, else that of the site; the jar gets its value as the key.
/// Without any the jar stays as it is.
pub proof fn law_stand_in_is_chosen(jar: Seq<Seq<char>>, i: int, v: Seq<char>)
    ensures
        ({
            let a = "pt_oauth_token="@;
            let b = "superkey="@;
            let c = "p_skey="@;
            let with = jar.push("qqmusic_key="@ + v);
            &&& first_of_name(jar, a, i, v) ==> with_stand_in(jar) == with
            &&& none_of_name(jar, a) && first_of_name(jar, b, i, v) ==> with_stand_in(jar) == with
            &&& none_of_name(jar, a) && none_of_name(jar, b) && first_of_name(jar, c, i, v)
                ==> with_stand_in(jar) == with
            &&& none_of_name(jar, a) && none_of_name(jar, b) && none_of_name(jar, c)
                ==> with_stand_in(jar) == jar
        }),
{
    lemma_stand_in(jar, "pt_oauth_token="@, i, v);
    lemma_stand_in(jar, "superkey="@, i, v);
    lemma_stand_in(jar, "p_skey="@, i, v);
}

proof fn lemma_stand_in(jar: Seq<Seq<char>>, name: Seq<char>, i: int, v: Seq<char>)
    ensures
        first_of_name(jar, name, i, v) ==> value_behind(jar, name) == Some(v),
        none_of_name(jar, name) ==> value_behind(jar, name) is None,
{
    lemma_value_behind(jar, name, i);
    lemma_begins(name, v);
    assert((name + v).skip(name.len() as int) =~= v);
}

/// A request of the two chains that fails ends the login with the hop and the error,
/// with the cookies as they are. Behind the chains a failed request is passed over: the
/// exchanges, the question who is logged in, the authorization and what follows it go
/// on without it.
pub proof fn law_failed_requests(l: LoginView, error: Seq<char>)
    ensures
        ({
            let next = login_next(l, LoginEventView::Failed(error));
            match l.stage {
                StageView::Chain { hop, .. } => next.jar == l.jar && next.stage == StageView::Done(
                    Err(
                        "登录重定向请求失败(hop "@ + text::decimal(hop as nat) + "): "@ + error,
                    ),
                ),
                StageView::Home { hop, .. } => next.jar == l.jar && next.stage == StageView::Done(
                    Err(
                        "Cookie fetch from y.qq.com failed(hop "@ + text::decimal(hop as nat)
                            + "): "@ + error,
                    ),
                ),
                StageView::LoginInfo { .. } => true,
                _ => next.jar == l.jar,
            }
        }),
        l.stage matches StageView::Authorize { cookie } ==> login_next(
            l,
            LoginEventView::Failed(error),
        ).stage == (StageView::Player { cookie }),
        l.stage matches StageView::Grant { cookie, .. } ==> login_next(
            l,
            LoginEventView::Failed(error),
        ).stage == (StageView::Player { cookie }),
{
}

/// The page of the player is the last that is asked: its cookies are taken, and the
/// login ends with all that there are, or with an error where there are none.
pub proof fn law_player_is_last(l: LoginView, e: LoginEventView)
    requires
        l.stage is Player,
    ensures
        ({
            let next = login_next(l, e);
            let all = text::join(next.jar, "; "@);
            &&& e matches LoginEventView::Answered(a) ==> next.jar == cookies::after_set_cookies(
                l.jar,
                a.set_cookies,
            )
            &&& e is Failed ==> next.jar == l.jar
            &&& all.len() > 0 ==> login_result_of(next) == Some(Ok::<Seq<char>, Seq<char>>(all))
            &&& all.len() == 0 ==> login_result_of(next) == Some(
                Err::<Seq<char>, Seq<char>>(
                    "无法获取QQ音乐登录凭据 / Cannot get QQ Music login cookie."@,
                ),
            )
        }),
{
}

/// A redirect of the authorization to a path leads to it at the host of the
/// authorization, or, where it carries a code back, at that of the player.
pub proof fn law_authorization_paths_are_followed(
    jar: Seq<Seq<char>>,
    hop: u32,
    cookie: Seq<char>,
    a: AnswerView,
    path: Seq<char>,
)
    requires
        300 <= a.status < 400,
        a.location == Some(path),
        path.len() > 0 && path[0] == '/',
    ensures
        ({
            let next = after_grant(jar, hop, cookie, LoginEventView::Answered(a)).stage;
            let back = text::contains(path, "code="@) && (text::contains(path, "y.qq.com"@)
                || text::contains(path, "wx_redirect"@));
            &&& back ==> next == (StageView::Return { url: "https://y.qq.com"@ + path, cookie })
            &&& !back && hop < 4 ==> next == (StageView::Grant {
                hop: (hop + 1) as u32,
                url: "https://graph.qq.com"@ + path,
                cookie,
            })
        }),
{
    reveal_strlit("http");
    reveal_strlit("/");
    reveal_strlit("https://");
    reveal_strlit(".qq.com");
    reveal_strlit("y.qq.com");
    reveal_strlit("graph.qq.com");
    reveal_strlit("https://y.qq.com");
    reveal_strlit("https://graph.qq.com");
    if text::starts_with(path, "http"@) {
        assert(path.take(4)[0] == "http"@[0]);
    }
    assert(path.take(1) =~= "/"@);
    let player = "https://y.qq.com"@ + path;
    let grant = "https://graph.qq.com"@ + path;
    assert(player.take(16) =~= "https://"@ + "y.qq.com"@);
    assert("y.qq.com"@.skip(1) =~= ".qq.com"@);
    pages::lemma_own_address(player, "y.qq.com"@);
    assert(grant.take(20) =~= "https://"@ + "graph.qq.com"@);
    assert("graph.qq.com"@.skip(5) =~= ".qq.com"@);
    pages::lemma_own_address(grant, "graph.qq.com"@);
}

/// A `Set-Cookie` header brings the pair `entry`.
pub open spec fn brings(header: Seq<char>, entry: Seq<char>) -> bool {
    ||| cookies::set_pair(header) matches Some((_, pair)) && pair == entry
    ||| cookies::live_pair(header) matches Some((name, value)) && name + "="@ + value == entry
}

/// Every entry of the jar behind a reply was in it before, is set by a header of the
/// reply, or is a key.
pub proof fn law_no_cookie_is_invented(l: LoginView, e: LoginEventView, entry: Seq<char>)
    requires
        login_next(l, e).jar.contains(entry),
    ensures
        ({
            ||| l.jar.contains(entry)
            ||| text::starts_with(entry, "qqmusic_key="@)
            ||| e matches LoginEventView::Answered(a) && exists|i: int|
                0 <= i < a.set_cookies.len() && brings(#[trigger] a.set_cookies[i], entry)
        }),
{
    if let LoginEventView::Answered(a) = e {
        let h = a.set_cookies;
        lemma_set_cookies_only(l.jar, h, entry);
        lemma_live_only(l.jar, h, entry);
        if let Some(location) = a.location {
            if let Some(token) = pages::parameter(location, "access_token="@) {
                lemma_with_key_only(after_new_live(l.jar, h), token, entry);
            }
        }
        if let Some(token) = pages::parameter(a.body, "access_token="@) {
            lemma_with_key_only(after_live(l.jar, h), token, entry);
        }
        if let Some(d) = json::json_parse(a.body) {
            let first = match json::first_filled(Some(d), key_names()) {
                Some(v) => with_key(l.jar, v),
                None => l.jar,
            };
            if let Some(v) = json::first_filled(Some(d), key_names()) {
                lemma_with_key_only(l.jar, v, entry);
            }
            if let Some(v) = json::first_filled(json::member(Some(d), "data"@), key_names()) {
                lemma_with_key_only(first, v, entry);
            }
        }
    }
    if let Some(v) = stand_in(l.jar) {
        let now = l.jar.push("qqmusic_key="@ + v);
        lemma_begins("qqmusic_key="@, v);
        if now.contains(entry) {
            let i = choose|i: int| 0 <= i < now.len() && now[i] == entry;
            if i < l.jar.len() {
                assert(l.jar[i] == entry);
            }
        }
    }
}

proof fn lemma_replaced_only(
    jar: Seq<Seq<char>>,
    name: Seq<char>,
    pair: Seq<char>,
    entry: Seq<char>,
)
    ensures
        cookies::replaced(jar, name, pair).contains(entry) ==> jar.contains(entry) || entry == pair,
    decreases jar.len(),
{
    lemma_without_only(jar, name + "="@, entry);
    let kept = cookies::without(jar, name + "="@);
    let now = kept.push(pair);
    if now.contains(entry) {
        let i = choose|i: int| 0 <= i < now.len() && now[i] == entry;
        if i < kept.len() {
            assert(kept[i] == entry);
        }
    }
}

proof fn lemma_without_only(jar: Seq<Seq<char>>, prefix: Seq<char>, entry: Seq<char>)
    ensures
        cookies::without(jar, prefix).contains(entry) ==> jar.contains(entry),
    decreases jar.len(),
{
    if jar.len() > 0 {
        let shorter = jar.drop_last();
        lemma_without_only(shorter, prefix, entry);
        let before = cookies::without(shorter, prefix);
        let now = cookies::without(jar, prefix);
        if now.contains(entry) {
            let i = choose|i: int| 0 <= i < now.len() && now[i] == entry;
            if i < before.len() {
                assert(before[i] == entry);
                let k = choose|k: int| 0 <= k < shorter.len() && shorter[k] == entry;
                assert(jar[k] == entry);
            } else {
                assert(jar[jar.len() - 1] == entry);
            }
        }
    }
}

proof fn lemma_with_key_only(jar: Seq<Seq<char>>, value: Seq<char>, entry: Seq<char>)
    ensures
        with_key(jar, value).contains(entry) ==> jar.contains(entry) || text::starts_with(
            entry,
            "qqmusic_key="@,
        ),
{
    lemma_replaced_only(jar, "qqmusic_key"@, "qqmusic_key="@ + value, entry);
    lemma_begins("qqmusic_key="@, value);
}

proof fn lemma_set_cookies_only(jar: Seq<Seq<char>>, h: Seq<Seq<char>>, entry: Seq<char>)
    ensures
        cookies::after_set_cookies(jar, h).contains(entry) ==> jar.contains(entry) || exists|i: int|
            0 <= i < h.len() && brings(#[trigger] h[i], entry),
    decreases h.len(),
{
    if h.len() > 0 {
        let shorter = h.drop_last();
        let before = cookies::after_set_cookies(jar, shorter);
        lemma_set_cookies_only(jar, shorter, entry);
        if let Some((name, pair)) = cookies::set_pair(h.last()) {
            lemma_replaced_only(before, name, pair, entry);
        }
        if cookies::after_set_cookies(jar, h).contains(entry) && !jar.contains(entry) {
            if before.contains(entry) {
                let i = choose|i: int|
                    0 <= i < shorter.len() && brings(#[trigger] shorter[i], entry);
                assert(h[i] == shorter[i]);
            } else {
                assert(h[h.len() - 1] == h.last());
            }
        }
    }
}

proof fn lemma_live_only(jar: Seq<Seq<char>>, h: Seq<Seq<char>>, entry: Seq<char>)
    ensures
        after_live(jar, h).contains(entry) || after_new_live(jar, h).contains(entry) ==> jar.contains(
            entry,
        ) || exists|i: int|
            0 <= i < h.len() && brings(#[trigger] h[i], entry),
    decreases h.len(),
{
    if h.len() > 0 {
        let shorter = h.drop_last();
        let a = after_live(jar, shorter);
        let b = after_new_live(jar, shorter);
        lemma_live_only(jar, shorter, entry);
        if let Some((name, value)) = cookies::live_pair(h.last()) {
            let pair = name + "="@ + value;
            lemma_replaced_only(a, name, pair, entry);
            let now = b.push(pair);
            if now.contains(entry) {
                let i = choose|i: int| 0 <= i < now.len() && now[i] == entry;
                if i < b.len() {
                    assert(b[i] == entry);
                }
            }
        }
        if (after_live(jar, h).contains(entry) || after_new_live(jar, h).contains(entry))
            && !jar.contains(entry) {
            if a.contains(entry) || b.contains(entry) {
                let i = choose|i: int|
                    0 <= i < shorter.len() && brings(#[trigger] shorter[i], entry);
                assert(h[i] == shorter[i]);
            } else {
                assert(h[h.len() - 1] == h.last());
            }
        }
    }
}

/// Every request of a login names the browser. All but those for a grant and a token
/// name the page they come from: the home page of the service, and while a grant is
/// followed that of the authorization.
pub proof fn law_login_requests_name_their_page(l: LoginView)
    ensures
        ({
            let q = login_request_of(l);
            let page = |r: Seq<char>|
                q is Some && q->0.headers.len() == (if l.stage is LoginInfo {
                    4int
                } else {
                    3int
                }) && q->0.headers.contains(("Referer"@, r));
            &&& q is Some ==> q->0.headers.contains(("User-Agent"@, QQMUSIC_UA@))
            &&& match l.stage {
                StageView::Chain { .. } => page("https://y.qq.com/"@),
                StageView::Home { .. } => page("https://y.qq.com/"@),
                StageView::OAuth { attempt, .. } => page("https://y.qq.com/"@) && q->0.url == (
                if attempt == 0 {
                    "https://u.y.qq.com/cgi-bin/fcg_music_oauth_get_accesstoken.fcg?client_id=100497308&format=json&inCharset=utf8&outCharset=utf-8"@
                } else {
                    "https://u.y.qq.com/cgi-bin/fcg_music_oauth_get_accesstoken.fcg?client_id=100497308&grant_type=authorization_code&format=json"@
                }),
                StageView::LoginInfo { .. } => page("https://y.qq.com/"@),
                StageView::Authorize { .. } => q is Some && q->0.headers.len() == 2 && q->0.url
                    == "https://graph.qq.com/oauth2.0/authorize?response_type=token&client_id=100497308&redirect_uri=https%3A%2F%2Fy.qq.com%2Fportal%2Fwx_redirect.html&state=qqmusic_login&scope=get_user_info"@,
                StageView::Token { .. } => q is Some && q->0.headers.len() == 2,
                StageView::Grant { .. } => page("https://graph.qq.com/"@),
                StageView::Return { .. } => page("https://y.qq.com/"@),
                StageView::Player { .. } => page("https://y.qq.com/"@),
                StageView::Done(_) => q is None,
            }
        }),
{
    if let Some(q) = login_request_of(l) {
        assert(q.headers[1] == ("User-Agent"@, QQMUSIC_UA@));
        assert(q.headers.contains(q.headers[1]));
        if q.headers.len() > 2 {
            assert(q.headers[2].0 == "Referer"@);
            assert(q.headers.contains(q.headers[2]));
        }
    }
}

/// A redirect to what is no web address ends a login, with the number of the request
/// that could not be made. One that leaves the service is not followed: the login goes
/// on with the home page, and the search for the home page ends. So it is with as many
/// redirects as either follows.
pub proof fn law_bad_redirects_are_not_followed(
    jar: Seq<Seq<char>>,
    hop: u32,
    url: Seq<char>,
    a: AnswerView,
    location: Seq<char>,
    poll_cookies: Seq<char>,
    original_cookies: Seq<char>,
)
    requires
        300 <= a.status < 400,
        a.location == Some(location),
        text::starts_with(location, "http"@),
    ensures
        ({
            let chain = after_chain(jar, hop, url, LoginEventView::Answered(a)).stage;
            let home = after_home(jar, hop, url, LoginEventView::Answered(a)).stage;
            let start = login_start(location, poll_cookies, original_cookies).stage;
            let number = text::decimal((hop + 1) as nat);
            if !pages::is_web_address(location) {
                &&& hop < 9 ==> chain == StageView::Done(
                    Err("登录重定向请求失败(hop "@ + number + "): builder error"@),
                )
                &&& hop < 4 ==> home == StageView::Done(
                    Err("Cookie fetch from y.qq.com failed(hop "@ + number + "): builder error"@),
                )
                &&& hop >= 9 ==> chain == StageView::Home { hop: 0, url: "https://y.qq.com/"@ }
                &&& hop >= 4 ==> home == leave_home(
                    cookies::after_set_cookies(jar, a.set_cookies),
                ).stage && !(home is Home)
                &&& start == StageView::Done(
                    Err("登录重定向请求失败(hop "@ + "0"@ + "): builder error"@),
                )
            } else {
                &&& hop >= 9 || !pages::is_login_host(location) ==> chain == StageView::Home {
                    hop: 0,
                    url: "https://y.qq.com/"@,
                }
                &&& hop >= 4 || !pages::is_login_host(location) ==> home == leave_home(
                    cookies::after_set_cookies(jar, a.set_cookies),
                ).stage && !(home is Home)
                &&& !pages::is_login_host(location) ==> start == (StageView::Chain {
                    hop: 0,
                    url: "https://y.qq.com"@,
                })
            }
        }),
{
    reveal_strlit("http");
    reveal_strlit("): ");
    reveal_strlit("builder error");
    reveal_strlit("): builder error");
    reveal_strlit("0");
    assert("): "@ + "builder error"@ =~= "): builder error"@);
    let number = text::decimal((hop + 1) as nat);
    let a1 = "登录重定向请求失败(hop "@;
    let a2 = "Cookie fetch from y.qq.com failed(hop "@;
    assert(a1 + number + "): "@ + "builder error"@ =~= a1 + number + "): builder error"@);
    assert(a2 + number + "): "@ + "builder error"@ =~= a2 + number + "): builder error"@);
    assert(text::decimal(0) =~= "0"@);
    if pages::is_login_host(location) {
        lemma_login_host_is_address(location);
    }
    assert(a1 + "0"@ + "): "@ + "builder error"@ =~= a1 + "0"@ + "): builder error"@);
}

} // verus!
