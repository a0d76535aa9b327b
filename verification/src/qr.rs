//! Logging in by QR code.
use vstd::prelude::*;
use crate::cookies::{self, cookie_from_set_cookies, gather_cookie};
use crate::dto::{QQMusicQrCheckDto, QQMusicQrLoginDto, QrCheckView, QrLoginView};
use crate::encoding::{self, png_data_url, qqmusic_hash33};
use crate::login::{self, Answer, AnswerView};
use crate::request::{self, push_pair, qq_login_browser_headers, Request, RequestView};
use crate::text::{
    self,
    concat2,
    concat3,
    decimal_text,
    join_texts,
    split_text,
    text_contains,
    text_starts_with,
    trim_text,
};

verus! {

// ---------------------------------------------------------------------------
// The code
// ---------------------------------------------------------------------------
/// The headers of a request that comes from the login page.
pub open spec fn login_page_headers() -> Seq<(Seq<char>, Seq<char>)> {
    request::browser_headers().push(
        (
            "Referer"@,
            "https://xui.ptlogin2.qq.com/cgi-bin/xlogin?appid=716027609&daid=383&pt_3rd_aid=100497308&style=33&s_url=https%3A%2F%2Fy.qq.com%2F"@,
        ),
    )
}

/// The request that opens a login session.
pub open spec fn session_request_of() -> RequestView {
    RequestView {
        url: "https://xui.ptlogin2.qq.com/cgi-bin/xlogin?appid=716027609&daid=383&pt_3rd_aid=100497308&style=33&login_text=%E6%8E%88%E6%9D%83%E5%B9%B6%E7%99%BB%E5%BD%95&hide_title_bar=1&hide_border=1&target=self&s_url=https%3A%2F%2Fy.qq.com%2F"@,
        query: seq![],
        headers: request::browser_headers(),
    }
}

/// The request that opens a login session.
pub fn qr_session_request() -> (r: Request)
    ensures
        r@ == session_request_of(),
{
    let query: Vec<(String, String)> = Vec::new();
    proof {
        assert(request::pair_views(query@) =~= seq![]);
    }
    Request {
        url: "https://xui.ptlogin2.qq.com/cgi-bin/xlogin?appid=716027609&daid=383&pt_3rd_aid=100497308&style=33&login_text=%E6%8E%88%E6%9D%83%E5%B9%B6%E7%99%BB%E5%BD%95&hide_title_bar=1&hide_border=1&target=self&s_url=https%3A%2F%2Fy.qq.com%2F".to_string(),
        query,
        headers: qq_login_browser_headers(),
    }
}

/// The headers of the login page, with a cookie.
fn login_page_headers_with(cookie: &str) -> (r: Vec<(String, String)>)
    ensures
        request::pair_views(r@) == login_page_headers().push(("Cookie"@, cookie@)),
{
    let mut headers: Vec<(String, String)> = qq_login_browser_headers();
    push_pair(
        &mut headers,
        "Referer",
        "https://xui.ptlogin2.qq.com/cgi-bin/xlogin?appid=716027609&daid=383&pt_3rd_aid=100497308&style=33&s_url=https%3A%2F%2Fy.qq.com%2F",
    );
    push_pair(&mut headers, "Cookie", cookie);
    headers
}

/// The request for a code, with the cookies of the session. The text `t` keeps
/// the answer from being an old one.
pub open spec fn code_request_of(session_cookies: Seq<char>, t: Seq<char>) -> RequestView {
    RequestView {
        url: "https://ssl.ptlogin2.qq.com/ptqrshow?appid=716027609&e=2&l=M&s=3&d=72&v=4&t="@ + t
            + "&daid=383&pt_3rd_aid=100497308"@,
        query: seq![],
        headers: login_page_headers().push(("Cookie"@, session_cookies)),
    }
}

/// The request for a code.
pub fn qr_code_request(session_cookies: &str, t: &str) -> (r: Request)
    ensures
        r@ == code_request_of(session_cookies@, t@),
{
    let query: Vec<(String, String)> = Vec::new();
    proof {
        assert(request::pair_views(query@) =~= seq![]);
    }
    Request {
        url: concat3(
            "https://ssl.ptlogin2.qq.com/ptqrshow?appid=716027609&e=2&l=M&s=3&d=72&v=4&t=",
            t,
            "&daid=383&pt_3rd_aid=100497308",
        ),
        query,
        headers: login_page_headers_with(session_cookies),
    }
}

/// The cookies of two headers, each once.
pub open spec fn merged(a: Seq<char>, b: Seq<char>) -> Seq<Seq<char>> {
    cookies::gathered_cookie(cookies::gathered_cookie(seq![], a), b)
}

/// What follows `prefix` in the first entry that begins with it.
pub open spec fn first_behind(entries: Seq<Seq<char>>, prefix: Seq<char>) -> Seq<char>
    decreases entries.len(),
{
    if entries.len() == 0 {
        seq![]
    } else if text::starts_with(entries[0], prefix) {
        entries[0].skip(prefix.len() as int)
    } else {
        first_behind(entries.skip(1), prefix)
    }
}

/// What follows `prefix` in the first entry that begins with it, empty where none does.
fn find_first_behind(entries: &Vec<String>, prefix: &str) -> (r: String)
    ensures
        r@ == first_behind(text::views(entries@), prefix@),
{
    let ghost all = text::views(entries@);
    proof {
        assert(all.skip(0) =~= all);
    }
    for i in 0..entries.len()
        invariant
            all == text::views(entries@),
            first_behind(all, prefix@) == first_behind(all.skip(i as int), prefix@),
    {
        proof {
            assert(all.skip(i as int)[0] == entries@[i as int]@);
            assert(all.skip(i as int).skip(1) =~= all.skip(i + 1));
        }
        if text_starts_with(entries[i].as_str(), prefix) {
            let chars: Vec<char> = text::chars_of(entries[i].as_str());
            let n: usize = text::chars_of(prefix).len();
            let rest: String = text::text_of(
                vstd::slice::slice_subrange(chars.as_slice(), n, chars.len()),
            );
            proof {
                assert(rest@ =~= entries@[i as int]@.skip(prefix@.len() as int));
            }
            return rest;
        }
    }
    String::new()
}

/// The key of a code and the cookies that belong to it.
pub struct QrKey {
    pub key: String,
    pub cookies: String,
}

/// The key of a code, out of the cookies of both answers. Without a key there is
/// no code.
pub open spec fn qr_key_of(session_cookies: Seq<char>, code_cookies: Seq<char>) -> Result<
    (Seq<char>, Seq<char>),
    Seq<char>,
> {
    let jar = merged(session_cookies, code_cookies);
    let key = first_behind(jar, "qrsig="@);
    if key.len() == 0 {
        Err("无法获取QQ登录二维码密钥 / Cannot get QQ login QR key."@)
    } else {
        Ok((key, text::join(jar, "; "@)))
    }
}

/// The key of a code.
pub fn qr_key(session_cookies: &str, code_cookies: &str) -> (r: Result<QrKey, String>)
    ensures
        match r {
            Ok(k) => qr_key_of(session_cookies@, code_cookies@) == Ok::<
                (Seq<char>, Seq<char>),
                Seq<char>,
            >((k.key@, k.cookies@)),
            Err(e) => qr_key_of(session_cookies@, code_cookies@) == Err::<
                (Seq<char>, Seq<char>),
                Seq<char>,
            >(e@),
        },
{
    let mut jar: Vec<String> = Vec::new();
    proof {
        assert(text::views(jar@) =~= seq![]);
    }
    gather_cookie(&mut jar, session_cookies);
    gather_cookie(&mut jar, code_cookies);
    let key: String = find_first_behind(&jar, "qrsig=");
    if key.as_str().is_empty() {
        return Err("无法获取QQ登录二维码密钥 / Cannot get QQ login QR key.".to_string());
    }
    let cookies: String = join_texts(&jar, "; ");
    Ok(QrKey { key, cookies })
}

/// The code: its picture as an address, its key and its cookies.
pub fn create_qqmusic_qr(key: QrKey, image: &Vec<u8>) -> (r: QQMusicQrLoginDto)
    requires
        (image@.len() + 2) / 3 * 4 <= isize::MAX,
    ensures
        r@ == (QrLoginView {
            url: "data:image/png;base64,"@ + encoding::base64_encode(image@),
            key: key.key@,
            cookies: key.cookies@,
        }),
{
    QQMusicQrLoginDto { url: png_data_url(image), key: key.key, cookies: key.cookies }
}

// ---------------------------------------------------------------------------
// The poll
// ---------------------------------------------------------------------------
/// The signature of the login in its cookies, empty where there is none.
pub open spec fn login_sig(cookie: Seq<char>) -> Seq<char> {
    first_behind(
        text::split(cookie, ';').map_values(|s: Seq<char>| text::trim(s)),
        "pt_login_sig="@,
    )
}

/// The signature of the login in its cookies.
fn find_login_sig(cookie: &str) -> (r: String)
    ensures
        r@ == login_sig(cookie@),
{
    let segments: Vec<String> = split_text(cookie, ';');
    let mut trimmed: Vec<String> = Vec::new();
    for i in 0..segments.len()
        invariant
            trimmed@.len() == i,
            forall|k: int|
                #![trigger trimmed@[k]]
                0 <= k < i ==> trimmed@[k]@ == text::trim(segments@[k]@),
    {
        trimmed.push(trim_text(segments[i].as_str()));
    }
    proof {
        assert(text::views(trimmed@) =~= text::views(segments@).map_values(
            |s: Seq<char>| text::trim(s),
        ));
    }
    find_first_behind(&trimmed, "pt_login_sig=")
}

/// The request that asks how far a login has come.
pub open spec fn poll_request_of(key: Seq<char>, cookie: Seq<char>, millis: u128) -> RequestView {
    RequestView {
        url: "https://ssl.ptlogin2.qq.com/ptqrlogin?u1=https%3A%2F%2Fy.qq.com%2F&ptqrtoken="@
            + text::decimal(encoding::hash_from(0, key))
            + "&ptredirect=0&h=1&t=1&g=1&from_ui=1&ptlang=2052&action=0-0-"@ + text::decimal(
            millis as nat,
        ) + "&js_ver=20102616&js_type=1&login_sig="@ + login_sig(cookie)
            + "&pt_uistyle=40&aid=716027609&daid=383&pt_3rd_aid=100497308&has_onekey=1&"@,
        query: seq![],
        headers: login_page_headers().push(("Cookie"@, cookie)),
    }
}

/// The request that asks how far a login has come.
pub fn qr_poll_request(key: &str, cookie: &str, millis: u128) -> (r: Request)
    ensures
        r@ == poll_request_of(key@, cookie@, millis),
{
    let token: String = decimal_text(qqmusic_hash33(key) as u128);
    let time: String = decimal_text(millis);
    let sig: String = find_login_sig(cookie);
    let a: String = concat3(
        "https://ssl.ptlogin2.qq.com/ptqrlogin?u1=https%3A%2F%2Fy.qq.com%2F&ptqrtoken=",
        token.as_str(),
        "&ptredirect=0&h=1&t=1&g=1&from_ui=1&ptlang=2052&action=0-0-",
    );
    let b: String = concat3(
        a.as_str(),
        time.as_str(),
        "&js_ver=20102616&js_type=1&login_sig=",
    );
    let url: String = concat3(
        b.as_str(),
        sig.as_str(),
        "&pt_uistyle=40&aid=716027609&daid=383&pt_3rd_aid=100497308&has_onekey=1&",
    );
    let query: Vec<(String, String)> = Vec::new();
    proof {
        assert(request::pair_views(query@) =~= seq![]);
    }
    Request { url, query, headers: login_page_headers_with(cookie) }
}

/// What a poll leads to.
pub enum PollStep {
    /// The state of the login.
    Done(QQMusicQrCheckDto),
    /// The login succeeded: its redirects are to be followed from `callback`, with
    /// the cookies of the poll.
    Follow { callback: String, cookies: String },
}

/// What a `PollStep` means.
pub enum PollStepView {
    Done(QrCheckView),
    Follow { callback: Seq<char>, cookies: Seq<char> },
}

impl View for PollStep {
    type V = PollStepView;

    open spec fn view(&self) -> PollStepView {
        match *self {
            PollStep::Done(d) => PollStepView::Done(d@),
            PollStep::Follow { callback, cookies } => PollStepView::Follow {
                callback: callback@,
                cookies: cookies@,
            },
        }
    }
}

/// A state of a login that has no cookie yet.
pub open spec fn pending(status: Seq<char>, message: Seq<char>) -> QrCheckView {
    QrCheckView { status, cookie: None, message: Some(message) }
}

/// A state of a login that has no cookie yet.
fn make_pending(status: &str, message: String) -> (r: QQMusicQrCheckDto)
    ensures
        r@ == pending(status@, message@),
{
    QQMusicQrCheckDto { status: status.to_string(), cookie: None, message: Some(message) }
}

/// The callback names the code, in single or double quotes or as a first argument.
pub open spec fn names_code(
    page: Seq<char>,
    single: Seq<char>,
    double: Seq<char>,
    bare: Seq<char>,
) -> bool {
    text::contains(page, single) || text::contains(page, double) || text::contains(page, bare)
}

/// Whether the callback names the code.
fn page_names_code(page: &str, single: &str, double: &str, bare: &str) -> (r: bool)
    ensures
        r == names_code(page@, single@, double@, bare@),
{
    text_contains(page, single) || text_contains(page, double) || text_contains(page, bare)
}

/// What the page of a poll says: that nobody has scanned the code, that somebody
/// has, that it has expired, or that the login succeeded. Of several the first of
/// these counts, and a page that says none of them is waited out.
pub open spec fn poll_page(page: Seq<char>, poll_cookies: Seq<char>) -> PollStepView {
    if names_code(page, "'66'"@, "\"66\""@, "(66,"@) {
        PollStepView::Done(pending("waiting"@, "等待扫码 / Waiting for scan."@))
    } else if names_code(page, "'67'"@, "\"67\""@, "(67,"@) {
        PollStepView::Done(
            pending("scanned"@, "已扫码，请在手机上确认 / Scanned, please confirm on phone."@),
        )
    } else if names_code(page, "'65'"@, "\"65\""@, "(65,"@) {
        PollStepView::Done(
            pending("expired"@, "二维码已过期，请重新生成 / QR code expired."@),
        )
    } else if text::contains(page, "'0'"@) || text::contains(page, "\"0\""@) {
        PollStepView::Follow { callback: page, cookies: poll_cookies }
    } else {
        PollStepView::Done(pending("waiting"@, "未知登录状态，继续等待: "@ + page))
    }
}

/// What the answer to a poll leads to. A redirect means that the login succeeded.
pub open spec fn poll_next(a: AnswerView) -> PollStepView {
    let poll_cookies = text::join(cookies::set_cookie_pairs(a.set_cookies), "; "@);
    if login::is_redirect(a.status) {
        match a.location {
            Some(location) => if location.len() > 0 {
                PollStepView::Follow { callback: location, cookies: poll_cookies }
            } else {
                PollStepView::Done(
                    pending("waiting"@, "登录重定向但无目标URL，继续等待"@),
                )
            },
            None => PollStepView::Done(
                pending("waiting"@, "登录重定向但无目标URL，继续等待"@),
            ),
        }
    } else {
        poll_page(a.body, poll_cookies)
    }
}

/// Goes on after the answer to a poll.
pub fn check_qqmusic_qr(a: Answer) -> (r: PollStep)
    ensures
        r@ == poll_next(a@),
{
    let poll_cookies: String = cookie_from_set_cookies(&a.set_cookies);
    if 300 <= a.status && a.status < 400 {
        match a.location {
            Some(location) => if !location.as_str().is_empty() {
                return PollStep::Follow { callback: location, cookies: poll_cookies };
            },
            None => {},
        }
        return PollStep::Done(
            make_pending("waiting", "登录重定向但无目标URL，继续等待".to_string()),
        );
    }
    let page: &str = a.body.as_str();
    if page_names_code(page, "'66'", "\"66\"", "(66,") {
        return PollStep::Done(
            make_pending("waiting", "等待扫码 / Waiting for scan.".to_string()),
        );
    }
    if page_names_code(page, "'67'", "\"67\"", "(67,") {
        return PollStep::Done(
            make_pending(
                "scanned",
                "已扫码，请在手机上确认 / Scanned, please confirm on phone.".to_string(),
            ),
        );
    }
    if page_names_code(page, "'65'", "\"65\"", "(65,") {
        return PollStep::Done(
            make_pending("expired", "二维码已过期，请重新生成 / QR code expired.".to_string()),
        );
    }
    if text_contains(page, "'0'") || text_contains(page, "\"0\"") {
        return PollStep::Follow { callback: a.body, cookies: poll_cookies };
    }
    let message: String = concat2("未知登录状态，继续等待: ", page);
    PollStep::Done(make_pending("waiting", message))
}

/// The state of a login that succeeded: the cookies of the code, of the poll and
/// of the redirects, each once.
pub open spec fn confirmed(
    original: Seq<char>,
    poll_cookies: Seq<char>,
    redirect_cookies: Seq<char>,
) -> QrCheckView {
    QrCheckView {
        status: "confirmed"@,
        cookie: Some(
            text::join(
                cookies::gathered_cookie(merged(original, poll_cookies), redirect_cookies),
                "; "@,
            ),
        ),
        message: Some("登录成功 / Login successful."@),
    }
}

/// The state of a login that succeeded.
pub fn confirm_qqmusic_qr(original: &str, poll_cookies: &str, redirect_cookies: &str) -> (r:
    QQMusicQrCheckDto)
    ensures
        r@ == confirmed(original@, poll_cookies@, redirect_cookies@),
{
    let mut jar: Vec<String> = Vec::new();
    proof {
        assert(text::views(jar@) =~= seq![]);
    }
    gather_cookie(&mut jar, original);
    gather_cookie(&mut jar, poll_cookies);
    gather_cookie(&mut jar, redirect_cookies);
    QQMusicQrCheckDto {
        status: "confirmed".to_string(),
        cookie: Some(join_texts(&jar, "; ")),
        message: Some("登录成功 / Login successful.".to_string()),
    }
}

/// A poll by itself never gives a cookie and never says that a login is confirmed
/// or failed: it waits, was scanned, has expired, or leads to the redirects.
pub proof fn law_poll_invents_no_login(a: AnswerView)
    ensures
        poll_next(a) matches PollStepView::Done(d) ==> {
            &&& d.cookie is None
            &&& d.message is Some
            &&& d.status == "waiting"@ || d.status == "scanned"@ || d.status == "expired"@
        },
{
}

/// The cookies of a confirmed login are those of its three sources, none twice
/// and none empty.
pub proof fn law_confirmed_cookies_are_distinct(
    original: Seq<char>,
    poll_cookies: Seq<char>,
    redirect_cookies: Seq<char>,
)
    ensures
        ({
            let jar = cookies::gathered_cookie(merged(original, poll_cookies), redirect_cookies);
            &&& confirmed(original, poll_cookies, redirect_cookies).cookie == Some(
                text::join(jar, "; "@),
            )
            &&& jar.no_duplicates()
            &&& forall|i: int| 0 <= i < jar.len() ==> (#[trigger] jar[i]).len() > 0
        }),
{
    let none: Seq<Seq<char>> = seq![];
    cookies::law_gathered_once(none, original);
    let first = cookies::gathered_cookie(none, original);
    cookies::law_gathered_once(first, poll_cookies);
    cookies::law_gathered_once(merged(original, poll_cookies), redirect_cookies);
}

/// The page shows the code that is a six and the digit `last`: in single quotes, in
/// double quotes, or bare as the first argument of the callback.
#[verifier::opaque]
pub open spec fn shows_code(page: Seq<char>, last: char) -> bool {
    exists|i: int|
        #![trigger page[i]]
        0 <= i && i + 4 <= page.len() && page[i + 1] == '6' && page[i + 2] == last && {
            ||| page[i] == '\'' && page[i + 3] == '\''
            ||| page[i] == '"' && page[i + 3] == '"'
            ||| page[i] == '(' && page[i + 3] == ','
        }
}

/// The page shows a zero in single or in double quotes.
#[verifier::opaque]
pub open spec fn shows_success(page: Seq<char>) -> bool {
    exists|i: int|
        #![trigger page[i]]
        0 <= i && i + 3 <= page.len() && page[i + 1] == '0' && {
            ||| page[i] == '\'' && page[i + 2] == '\''
            ||| page[i] == '"' && page[i + 2] == '"'
        }
}

/// A text of four characters is contained where they stand one behind the other.
proof fn lemma_four(page: Seq<char>, p: Seq<char>)
    requires
        p.len() == 4,
    ensures
        text::contains(page, p) <==> exists|i: int|
            #![trigger page[i]]
            0 <= i && i + 4 <= page.len() && page[i] == p[0] && page[i + 1] == p[1] && page[i + 2]
                == p[2] && page[i + 3] == p[3],
{
    text::law_found_at_first_place(page, p);
    if text::contains(page, p) {
        let i = choose|i: int| #[trigger] text::occurs_at(page, p, i);
        let part = page.subrange(i, i + 4);
        assert(part[0] == page[i] && part[1] == page[i + 1] && part[2] == page[i + 2] && part[3]
            == page[i + 3]);
    }
    assert forall|i: int|
        #![trigger page[i]]
        0 <= i && i + 4 <= page.len() && page[i] == p[0] && page[i + 1] == p[1] && page[i + 2]
            == p[2] && page[i + 3] == p[3] implies text::contains(page, p) by {
        assert(page.subrange(i, i + 4) =~= p);
        assert(text::occurs_at(page, p, i));
    }
}

proof fn lemma_three(page: Seq<char>, p: Seq<char>)
    requires
        p.len() == 3,
    ensures
        text::contains(page, p) <==> exists|i: int|
            #![trigger page[i]]
            0 <= i && i + 3 <= page.len() && page[i] == p[0] && page[i + 1] == p[1] && page[i + 2]
                == p[2],
{
    text::law_found_at_first_place(page, p);
    if text::contains(page, p) {
        let i = choose|i: int| #[trigger] text::occurs_at(page, p, i);
        let part = page.subrange(i, i + 3);
        assert(part[0] == page[i] && part[1] == page[i + 1] && part[2] == page[i + 2]);
    }
    assert forall|i: int|
        #![trigger page[i]]
        0 <= i && i + 3 <= page.len() && page[i] == p[0] && page[i + 1] == p[1] && page[i + 2]
            == p[2] implies text::contains(page, p) by {
        assert(page.subrange(i, i + 3) =~= p);
        assert(text::occurs_at(page, p, i));
    }
}

/// The three spellings of a code are those of the text of a page.
proof fn lemma_shows_code(
    page: Seq<char>,
    single: Seq<char>,
    double: Seq<char>,
    bare: Seq<char>,
    last: char,
)
    requires
        single == seq!['\'', '6', last, '\''],
        double == seq!['"', '6', last, '"'],
        bare == seq!['(', '6', last, ','],
    ensures
        shows_code(page, last) <==> text::contains(page, single) || text::contains(page, double)
            || text::contains(page, bare),
{
    reveal(shows_code);
    lemma_four(page, single);
    lemma_four(page, double);
    lemma_four(page, bare);
}

/// The spellings of the codes, and that of success, are those that a page is searched
/// for.
proof fn lemma_spellings(page: Seq<char>)
    ensures
        names_code(page, "'66'"@, "\"66\""@, "(66,"@) == shows_code(page, '6'),
        names_code(page, "'67'"@, "\"67\""@, "(67,"@) == shows_code(page, '7'),
        names_code(page, "'65'"@, "\"65\""@, "(65,"@) == shows_code(page, '5'),
        (text::contains(page, "'0'"@) || text::contains(page, "\"0\""@)) == shows_success(page),
{
    reveal_strlit("'66'");
    reveal_strlit("\"66\"");
    reveal_strlit("(66,");
    reveal_strlit("'67'");
    reveal_strlit("\"67\"");
    reveal_strlit("(67,");
    reveal_strlit("'65'");
    reveal_strlit("\"65\"");
    reveal_strlit("(65,");
    reveal_strlit("'0'");
    reveal_strlit("\"0\"");
    assert("'66'"@ =~= seq!['\'', '6', '6', '\'']);
    assert("\"66\""@ =~= seq!['"', '6', '6', '"']);
    assert("(66,"@ =~= seq!['(', '6', '6', ',']);
    assert("'67'"@ =~= seq!['\'', '6', '7', '\'']);
    assert("\"67\""@ =~= seq!['"', '6', '7', '"']);
    assert("(67,"@ =~= seq!['(', '6', '7', ',']);
    assert("'65'"@ =~= seq!['\'', '6', '5', '\'']);
    assert("\"65\""@ =~= seq!['"', '6', '5', '"']);
    assert("(65,"@ =~= seq!['(', '6', '5', ',']);
    lemma_shows_code(page, "'66'"@, "\"66\""@, "(66,"@, '6');
    lemma_shows_code(page, "'67'"@, "\"67\""@, "(67,"@, '7');
    lemma_shows_code(page, "'65'"@, "\"65\""@, "(65,"@, '5');
    reveal(shows_success);
    lemma_three(page, "'0'"@);
    lemma_three(page, "\"0\""@);
}

/// The state of a login depends on the code that the page of the poll shows, in any
/// of its spellings: 66 is waiting, 67 is scanned, 65 is expired, and a zero means
/// success. Of several codes the first of these counts.
pub proof fn law_code_decides_state(a: AnswerView)
    requires
        !(300 <= a.status < 400),
    ensures
        shows_code(a.body, '6') ==> poll_next(a) == PollStepView::Done(
            QrCheckView {
                status: "waiting"@,
                cookie: None,
                message: Some("等待扫码 / Waiting for scan."@),
            },
        ),
        shows_code(a.body, '7') && !shows_code(a.body, '6') ==> poll_next(a) == PollStepView::Done(
            QrCheckView {
                status: "scanned"@,
                cookie: None,
                message: Some("已扫码，请在手机上确认 / Scanned, please confirm on phone."@),
            },
        ),
        shows_code(a.body, '5') && !shows_code(a.body, '6') && !shows_code(a.body, '7')
            ==> poll_next(a) == PollStepView::Done(
            QrCheckView {
                status: "expired"@,
                cookie: None,
                message: Some("二维码已过期，请重新生成 / QR code expired."@),
            },
        ),
        !shows_code(a.body, '5') && !shows_code(a.body, '6') && !shows_code(a.body, '7') ==> (
        match poll_next(a) {
            PollStepView::Follow { callback, .. } => shows_success(a.body) && callback == a.body,
            PollStepView::Done(d) => {
                &&& !shows_success(a.body)
                &&& d.status == "waiting"@
                &&& d.cookie is None
                &&& d.message matches Some(m) && text::ends_with(m, a.body)
            },
        }),
{
    lemma_spellings(a.body);
    let message = "未知登录状态，继续等待: "@ + a.body;
    assert(message.skip(message.len() - a.body.len()) =~= a.body);
}

/// A redirect with a target means that the login succeeded, and is followed from
/// there; one without is waited out. Whatever is followed takes the cookies of the
/// poll along.
pub proof fn law_redirect_is_followed(a: AnswerView)
    ensures
        300 <= a.status < 400 ==> match a.location {
            Some(location) => if location.len() > 0 {
                poll_next(a) matches PollStepView::Follow { callback, .. } && callback == location
            } else {
                poll_next(a) matches PollStepView::Done(d) && d.status == "waiting"@
                    && d.cookie is None && d.message == Some(
                    "登录重定向但无目标URL，继续等待"@,
                )
            },
            None => poll_next(a) matches PollStepView::Done(d) && d.status == "waiting"@
                && d.cookie is None && d.message == Some(
                "登录重定向但无目标URL，继续等待"@,
            ),
        },
        poll_next(a) matches PollStepView::Follow { cookies, .. } ==> cookies == text::join(
            cookies::set_cookie_pairs(a.set_cookies),
            "; "@,
        ),
{
}

/// What follows a prefix in a list of entries is that of the first entry with it.
proof fn lemma_first_behind(entries: Seq<Seq<char>>, prefix: Seq<char>, i: int)
    ensures
        0 <= i < entries.len() && text::starts_with(entries[i], prefix) && (forall|j: int|
            0 <= j < i ==> !text::starts_with(#[trigger] entries[j], prefix)) ==> first_behind(
            entries,
            prefix,
        ) == entries[i].skip(prefix.len() as int),
        (forall|j: int| 0 <= j < entries.len() ==> !text::starts_with(#[trigger] entries[j], prefix))
            ==> first_behind(entries, prefix).len() == 0,
        first_behind(entries, prefix).len() > 0 ==> exists|j: int|
            0 <= j < entries.len() && #[trigger] entries[j] == prefix + first_behind(
                entries,
                prefix,
            ),
    decreases entries.len(),
{
    if entries.len() > 0 {
        let rest = entries.skip(1);
        lemma_first_behind(rest, prefix, i - 1);
        if text::starts_with(entries[0], prefix) {
            assert(entries[0] =~= prefix + entries[0].skip(prefix.len() as int)) by {
                assert(entries[0].take(prefix.len() as int) == prefix);
                assert(entries[0] =~= entries[0].take(prefix.len() as int) + entries[0].skip(
                    prefix.len() as int,
                ));
            }
        } else if first_behind(rest, prefix).len() > 0 {
            let j = choose|j: int|
                0 <= j < rest.len() && #[trigger] rest[j] == prefix + first_behind(rest, prefix);
            assert(entries[j + 1] == prefix + first_behind(entries, prefix));
        }
        if 0 < i < entries.len() && text::starts_with(entries[i], prefix) && (forall|j: int|
            0 <= j < i ==> !text::starts_with(#[trigger] entries[j], prefix)) {
            assert(!text::starts_with(entries[0], prefix));
            assert(rest[i - 1] == entries[i]);
            assert forall|j: int| 0 <= j < i - 1 implies !text::starts_with(
                #[trigger] rest[j],
                prefix,
            ) by {
                assert(rest[j] == entries[j + 1]);
            }
        }
        if forall|j: int| 0 <= j < entries.len() ==> !text::starts_with(#[trigger] entries[j], prefix) {
            assert(!text::starts_with(entries[0], prefix));
            assert forall|j: int| 0 <= j < rest.len() implies !text::starts_with(
                #[trigger] rest[j],
                prefix,
            ) by {
                assert(rest[j] == entries[j + 1]);
            }
        }
    }
}

/// A pair is a segment of a cookie header, and is not empty.
pub open spec fn is_pair_of(cookie: Seq<char>, pair: Seq<char>) -> bool {
    pair.len() > 0 && exists|i: int|
        0 <= i < text::split(cookie, ';').len() && text::trim(#[trigger] text::split(cookie, ';')[i])
            == pair
}

/// The cookies of both answers of a code are kept, and its key is the value of one of
/// them that is named `qrsig`. Without such a cookie there is no code.
pub proof fn law_code_has_key_of_its_cookies(
    session_cookies: Seq<char>,
    code_cookies: Seq<char>,
    pair: Seq<char>,
)
    ensures
        ({
            let jar = merged(session_cookies, code_cookies);
            &&& jar.contains(pair) <==> is_pair_of(session_cookies, pair) || is_pair_of(
                code_cookies,
                pair,
            )
            &&& qr_key_of(session_cookies, code_cookies) matches Ok((key, all)) ==> {
                &&& key.len() > 0
                &&& is_pair_of(session_cookies, "qrsig="@ + key) || is_pair_of(
                    code_cookies,
                    "qrsig="@ + key,
                )
                &&& all == text::join(jar, "; "@)
            }
            &&& (forall|p: Seq<char>|
                is_pair_of(session_cookies, p) || is_pair_of(code_cookies, p)
                    ==> !#[trigger] text::starts_with(p, "qrsig="@)) ==> qr_key_of(
                session_cookies,
                code_cookies,
            ) is Err
            &&& pair.len() > 6 && text::starts_with(pair, "qrsig="@) && is_pair_of(
                code_cookies,
                pair,
            ) && (forall|p: Seq<char>|
                #[trigger] text::starts_with(p, "qrsig="@) && (is_pair_of(session_cookies, p)
                    || is_pair_of(code_cookies, p)) ==> p == pair) ==> qr_key_of(
                session_cookies,
                code_cookies,
            ) == Ok::<(Seq<char>, Seq<char>), Seq<char>>((pair.skip(6), text::join(jar, "; "@)))
        }),
{
    let jar = merged(session_cookies, code_cookies);
    let prefix = "qrsig="@;
    reveal_strlit("qrsig=");
    lemma_merged(session_cookies, code_cookies, pair);
    lemma_first_behind(jar, prefix, 0);
    let key = first_behind(jar, prefix);
    lemma_merged(session_cookies, code_cookies, prefix + key);
    if key.len() > 0 {
        let j = choose|j: int| 0 <= j < jar.len() && #[trigger] jar[j] == prefix + key;
        assert(jar.contains(prefix + key));
        assert((prefix + key).take(6) =~= prefix);
        assert(text::starts_with(prefix + key, prefix));
    }
    if jar.contains(pair) && text::starts_with(pair, prefix) && (forall|p: Seq<char>|
        #[trigger] text::starts_with(p, prefix) && (is_pair_of(session_cookies, p) || is_pair_of(
            code_cookies,
            p,
        )) ==> p == pair) {
        lemma_only_behind(session_cookies, code_cookies, jar, prefix, pair);
    }
}

/// Where one pair alone has a prefix, it is the first with it.
proof fn lemma_only_behind(
    a: Seq<char>,
    b: Seq<char>,
    jar: Seq<Seq<char>>,
    prefix: Seq<char>,
    pair: Seq<char>,
)
    requires
        jar == merged(a, b),
        jar.contains(pair),
        text::starts_with(pair, prefix),
        forall|p: Seq<char>| #[trigger]
            text::starts_with(p, prefix) && (is_pair_of(a, p) || is_pair_of(b, p)) ==> p == pair,
    ensures
        first_behind(jar, prefix) == pair.skip(prefix.len() as int),
{
    let i = choose|i: int| 0 <= i < jar.len() && jar[i] == pair;
    lemma_first_of(jar, prefix, i);
    let k = choose|k: int|
        0 <= k < jar.len() && text::starts_with(jar[k], prefix) && (forall|j: int|
            0 <= j < k ==> !text::starts_with(#[trigger] jar[j], prefix)) && first_behind(
            jar,
            prefix,
        ) == #[trigger] jar[k].skip(prefix.len() as int);
    lemma_merged(a, b, jar[k]);
    assert(jar.contains(jar[k]));
    assert(jar[k] == pair);
}

proof fn lemma_first_of(entries: Seq<Seq<char>>, prefix: Seq<char>, i: int)
    requires
        0 <= i < entries.len(),
        text::starts_with(entries[i], prefix),
    ensures
        exists|k: int|
            0 <= k < entries.len() && text::starts_with(entries[k], prefix) && (forall|j: int|
                0 <= j < k ==> !text::starts_with(#[trigger] entries[j], prefix)) && first_behind(
                entries,
                prefix,
            ) == #[trigger] entries[k].skip(prefix.len() as int),
    decreases i,
{
    if exists|j: int| 0 <= j < i && text::starts_with(#[trigger] entries[j], prefix) {
        let j = choose|j: int| 0 <= j < i && text::starts_with(#[trigger] entries[j], prefix);
        lemma_first_of(entries, prefix, j);
    } else {
        lemma_first_behind(entries, prefix, i);
        assert(first_behind(entries, prefix) == entries[i].skip(prefix.len() as int));
    }
}

proof fn lemma_merged(a: Seq<char>, b: Seq<char>, pair: Seq<char>)
    ensures
        merged(a, b).contains(pair) <==> is_pair_of(a, pair) || is_pair_of(b, pair),
{
    let none: Seq<Seq<char>> = seq![];
    cookies::law_gathering_takes_every_pair(none, a, pair);
    cookies::law_gathering_takes_every_pair(cookies::gathered_cookie(none, a), b, pair);
}

/// A login that succeeded has every pair of the code, of the poll and of the redirects,
/// and no other.
pub proof fn law_confirmed_login_has_every_pair(
    original: Seq<char>,
    poll_cookies: Seq<char>,
    redirect_cookies: Seq<char>,
    pair: Seq<char>,
)
    ensures
        ({
            let d = confirmed(original, poll_cookies, redirect_cookies);
            let jar = cookies::gathered_cookie(merged(original, poll_cookies), redirect_cookies);
            &&& d.status == "confirmed"@
            &&& d.cookie == Some(text::join(jar, "; "@))
            &&& jar.contains(pair) <==> is_pair_of(original, pair) || is_pair_of(poll_cookies, pair)
                || is_pair_of(redirect_cookies, pair)
        }),
{
    lemma_merged(original, poll_cookies, pair);
    cookies::law_gathering_takes_every_pair(
        merged(original, poll_cookies),
        redirect_cookies,
        pair,
    );
}

/// The requests of a login by code come from the login page, with its cookies. The one
/// for a code carries its text against old answers; the one for its state the hash of
/// its key, the time and the signature of the login.
pub proof fn law_code_requests_carry(
    key: Seq<char>,
    cookie: Seq<char>,
    millis: u128,
    t: Seq<char>,
)
    ensures
        ({
            let code = code_request_of(cookie, t);
            let poll = poll_request_of(key, cookie, millis);
            &&& code.url
                == "https://ssl.ptlogin2.qq.com/ptqrshow?appid=716027609&e=2&l=M&s=3&d=72&v=4&t="@
                + t + "&daid=383&pt_3rd_aid=100497308"@
            &&& poll.url
                == "https://ssl.ptlogin2.qq.com/ptqrlogin?u1=https%3A%2F%2Fy.qq.com%2F&ptqrtoken="@
                + text::decimal(encoding::hash_from(0, key))
                + "&ptredirect=0&h=1&t=1&g=1&from_ui=1&ptlang=2052&action=0-0-"@ + text::decimal(
                millis as nat,
            ) + "&js_ver=20102616&js_type=1&login_sig="@ + login_sig(cookie)
                + "&pt_uistyle=40&aid=716027609&daid=383&pt_3rd_aid=100497308&has_onekey=1&"@
            &&& text::starts_with(code.url, "https://ssl.ptlogin2.qq.com/ptqrshow?appid=716027609"@)
            &&& text::contains(code.url, "&t="@ + t + "&daid=383"@)
            &&& text::starts_with(poll.url, "https://ssl.ptlogin2.qq.com/ptqrlogin?"@)
            &&& text::contains(
                poll.url,
                "&ptqrtoken="@ + text::decimal(encoding::hash_from(0, key)) + "&ptredirect=0"@,
            )
            &&& text::contains(
                poll.url,
                "&action=0-0-"@ + text::decimal(millis as nat) + "&js_ver="@,
            )
            &&& text::contains(poll.url, "&login_sig="@ + login_sig(cookie) + "&pt_uistyle=40"@)
            &&& code.headers.contains(("Cookie"@, cookie))
            &&& poll.headers.contains(("Cookie"@, cookie))
            &&& code.query.len() == 0 && poll.query.len() == 0
        }),
{
    let code = code_request_of(cookie, t);
    let poll = poll_request_of(key, cookie, millis);
    let headers = login_page_headers();
    assert(code.headers[headers.len() as int] == ("Cookie"@, cookie));
    assert(poll.headers[headers.len() as int] == ("Cookie"@, cookie));
    let front = "https://ssl.ptlogin2.qq.com/ptqrshow?appid=716027609&e=2&l=M&s=3&d=72&v=4&t="@;
    let back = "&daid=383&pt_3rd_aid=100497308"@;
    reveal_strlit("https://ssl.ptlogin2.qq.com/ptqrshow?appid=716027609&e=2&l=M&s=3&d=72&v=4&t=");
    reveal_strlit("https://ssl.ptlogin2.qq.com/ptqrshow?appid=716027609");
    reveal_strlit("&daid=383&pt_3rd_aid=100497308");
    reveal_strlit("&t=");
    reveal_strlit("&daid=383");
    let n = "https://ssl.ptlogin2.qq.com/ptqrshow?appid=716027609"@.len() as int;
    assert(code.url.take(n) =~= "https://ssl.ptlogin2.qq.com/ptqrshow?appid=716027609"@);
    let k = front.len() - 3;
    let part = "&t="@ + t + "&daid=383"@;
    assert(code.url.subrange(k, k + part.len()) =~= part);
    assert(text::occurs_at(code.url, part, k));
    text::law_found_at_first_place(code.url, part);
    lemma_poll_url(key, cookie, millis);
}

proof fn lemma_poll_url(key: Seq<char>, cookie: Seq<char>, millis: u128)
    ensures
        ({
            let url = poll_request_of(key, cookie, millis).url;
            &&& text::starts_with(url, "https://ssl.ptlogin2.qq.com/ptqrlogin?"@)
            &&& text::contains(
                url,
                "&ptqrtoken="@ + text::decimal(encoding::hash_from(0, key)) + "&ptredirect=0"@,
            )
            &&& text::contains(
                url,
                "&action=0-0-"@ + text::decimal(millis as nat) + "&js_ver="@,
            )
            &&& text::contains(url, "&login_sig="@ + login_sig(cookie) + "&pt_uistyle=40"@)
        }),
{
    let url = poll_request_of(key, cookie, millis).url;
    let a = "https://ssl.ptlogin2.qq.com/ptqrlogin?u1=https%3A%2F%2Fy.qq.com%2F&ptqrtoken="@;
    let token = text::decimal(encoding::hash_from(0, key));
    let b = "&ptredirect=0&h=1&t=1&g=1&from_ui=1&ptlang=2052&action=0-0-"@;
    let time = text::decimal(millis as nat);
    let c = "&js_ver=20102616&js_type=1&login_sig="@;
    let sig = login_sig(cookie);
    let d = "&pt_uistyle=40&aid=716027609&daid=383&pt_3rd_aid=100497308&has_onekey=1&"@;
    reveal_strlit("https://ssl.ptlogin2.qq.com/ptqrlogin?u1=https%3A%2F%2Fy.qq.com%2F&ptqrtoken=");
    reveal_strlit("&ptredirect=0&h=1&t=1&g=1&from_ui=1&ptlang=2052&action=0-0-");
    reveal_strlit("&js_ver=20102616&js_type=1&login_sig=");
    reveal_strlit("&pt_uistyle=40&aid=716027609&daid=383&pt_3rd_aid=100497308&has_onekey=1&");
    reveal_strlit("https://ssl.ptlogin2.qq.com/ptqrlogin?");
    reveal_strlit("&ptqrtoken=");
    reveal_strlit("&ptredirect=0");
    reveal_strlit("&action=0-0-");
    reveal_strlit("&js_ver=");
    reveal_strlit("&login_sig=");
    reveal_strlit("&pt_uistyle=40");
    assert(url == a + token + b + time + c + sig + d);
    let n = "https://ssl.ptlogin2.qq.com/ptqrlogin?"@.len() as int;
    assert(url.take(n) =~= "https://ssl.ptlogin2.qq.com/ptqrlogin?"@);
    let p = "&ptqrtoken="@ + token + "&ptredirect=0"@;
    let i = a.len() - "&ptqrtoken="@.len();
    assert(url.subrange(i, i + p.len()) =~= p);
    assert(text::occurs_at(url, p, i));
    text::law_found_at_first_place(url, p);
    let q = "&action=0-0-"@ + time + "&js_ver="@;
    let j = a.len() + token.len() + b.len() - "&action=0-0-"@.len();
    assert(url.subrange(j, j + q.len()) =~= q);
    assert(text::occurs_at(url, q, j));
    text::law_found_at_first_place(url, q);
    let r = "&login_sig="@ + sig + "&pt_uistyle=40"@;
    let k = a.len() + token.len() + b.len() + time.len() + c.len() - "&login_sig="@.len();
    assert(url.subrange(k, k + r.len()) =~= r);
    assert(text::occurs_at(url, r, k));
    text::law_found_at_first_place(url, r);
}

/// The signature of a login is the value of its first cookie that is named
/// `pt_login_sig`, and empty where there is none.
pub proof fn law_signature_is_of_its_cookie(cookie: Seq<char>, i: int, v: Seq<char>)
    ensures
        ({
            let s = text::split(cookie, ';');
            &&& 0 <= i < s.len() && text::trim(s[i]) == "pt_login_sig="@ + v && (forall|j: int|
                0 <= j < i ==> !text::starts_with(text::trim(#[trigger] s[j]), "pt_login_sig="@))
                ==> login_sig(cookie) == v
            &&& (forall|j: int|
                0 <= j < s.len() ==> !text::starts_with(
                    text::trim(#[trigger] s[j]),
                    "pt_login_sig="@,
                )) ==> login_sig(cookie).len() == 0
        }),
{
    let s = text::split(cookie, ';');
    let trimmed = s.map_values(|x: Seq<char>| text::trim(x));
    let prefix = "pt_login_sig="@;
    lemma_first_behind(trimmed, prefix, i);
    assert((prefix + v).take(prefix.len() as int) =~= prefix);
    assert((prefix + v).skip(prefix.len() as int) =~= v);
    if 0 <= i < s.len() && text::trim(s[i]) == prefix + v && (forall|j: int|
        0 <= j < i ==> !text::starts_with(text::trim(#[trigger] s[j]), prefix)) {
        assert forall|j: int| 0 <= j < i implies !text::starts_with(
            #[trigger] trimmed[j],
            prefix,
        ) by {
            assert(trimmed[j] == text::trim(s[j]));
        }
        assert(trimmed[i] == prefix + v);
    }
    if forall|j: int| 0 <= j < s.len() ==> !text::starts_with(text::trim(#[trigger] s[j]), prefix) {
        assert forall|j: int| 0 <= j < trimmed.len() implies !text::starts_with(
            #[trigger] trimmed[j],
            prefix,
        ) by {
            assert(trimmed[j] == text::trim(s[j]));
        }
    }
}

/// A login by code is opened at the login page, and what it says fits its state.
pub proof fn law_code_login_begins_at_its_page(
    a: Seq<char>,
    b: Seq<char>,
    c: Seq<char>,
)
    ensures
        text::starts_with(
            session_request_of().url,
            "https://xui.ptlogin2.qq.com/cgi-bin/xlogin?appid=716027609&daid=383&pt_3rd_aid=100497308&"@,
        ),
        text::contains(session_request_of().url, "&s_url=https%3A%2F%2Fy.qq.com%2F"@),
        session_request_of().url
            == "https://xui.ptlogin2.qq.com/cgi-bin/xlogin?appid=716027609&daid=383&pt_3rd_aid=100497308&style=33&login_text=%E6%8E%88%E6%9D%83%E5%B9%B6%E7%99%BB%E5%BD%95&hide_title_bar=1&hide_border=1&target=self&s_url=https%3A%2F%2Fy.qq.com%2F"@,
        session_request_of().query.len() == 0,
        session_request_of().headers == request::browser_headers(),
        login_page_headers().len() == request::browser_headers().len() + 1,
        request::browser_headers().is_prefix_of(login_page_headers()),
        login_page_headers().last() == (
            "Referer"@,
            "https://xui.ptlogin2.qq.com/cgi-bin/xlogin?appid=716027609&daid=383&pt_3rd_aid=100497308&style=33&s_url=https%3A%2F%2Fy.qq.com%2F"@,
        ),
        confirmed(a, b, c).message == Some("登录成功 / Login successful."@),
        qr_key_of(a, b) matches Err(e) ==> e
            == "无法获取QQ登录二维码密钥 / Cannot get QQ login QR key."@,
{
    let front =
        "https://xui.ptlogin2.qq.com/cgi-bin/xlogin?appid=716027609&daid=383&pt_3rd_aid=100497308&"@;
    reveal_strlit(
        "https://xui.ptlogin2.qq.com/cgi-bin/xlogin?appid=716027609&daid=383&pt_3rd_aid=100497308&",
    );
    reveal_strlit(
        "https://xui.ptlogin2.qq.com/cgi-bin/xlogin?appid=716027609&daid=383&pt_3rd_aid=100497308&style=33&s_url=https%3A%2F%2Fy.qq.com%2F",
    );
    reveal_strlit(
        "https://xui.ptlogin2.qq.com/cgi-bin/xlogin?appid=716027609&daid=383&pt_3rd_aid=100497308&style=33&login_text=%E6%8E%88%E6%9D%83%E5%B9%B6%E7%99%BB%E5%BD%95&hide_title_bar=1&hide_border=1&target=self&s_url=https%3A%2F%2Fy.qq.com%2F",
    );
    assert(session_request_of().url.take(front.len() as int) =~= front);
    reveal_strlit("&s_url=https%3A%2F%2Fy.qq.com%2F");
    let part = "&s_url=https%3A%2F%2Fy.qq.com%2F"@;
    let url = session_request_of().url;
    let k = url.len() - part.len();
    assert(url.subrange(k, k + part.len()) =~= part);
    assert(text::occurs_at(url, part, k));
    text::law_found_at_first_place(url, part);
    let h = request::browser_headers();
    assert(login_page_headers().subrange(0, h.len() as int) =~= h);
}

} // verus!
