//! Whether a session is valid, and whether the service can be reached.
use vstd::prelude::*;
use crate::account;
use crate::constants::{QQMUSIC_MUSICU_URL, QQMUSIC_REFERER, QQMUSIC_UA};
use crate::dto::{self, ResolvedQQMusicSourceConfig};
use crate::json::{self, Doc, Json, JsonBody};
use crate::request::{
    self,
    musicu_request,
    push_pair,
    read_answer_code,
    read_answer_data,
    read_json,
    Exchange,
    ExchangeView,
    Request,
    RequestView,
};
use crate::text::{self, concat2, concat3, decimal_text};

verus! {

// ---------------------------------------------------------------------------
// Verifying a session
// ---------------------------------------------------------------------------
/// The probes of a session, in order.
#[derive(Clone, Copy)]
pub enum Probe {
    /// The data of the account.
    UserInfo,
    /// The playlists of the account.
    Playlists,
    /// The question who is logged in.
    LoginInfo,
}

/// The body of a probe.
pub open spec fn probe_doc(probe: Probe, token: Option<Seq<char>>) -> Doc {
    match probe {
        Probe::UserInfo => request::user_info_doc(token),
        Probe::Playlists => request::user_playlists_doc(token),
        Probe::LoginInfo => request::login_info_doc(token),
    }
}

/// The request of a probe.
pub fn probe_request(config: &ResolvedQQMusicSourceConfig, probe: Probe) -> (r: Request)
    ensures
        r@ == request::json_request_of(
            config@.token,
            QQMUSIC_MUSICU_URL@,
            probe_doc(probe, config@.token),
        ),
{
    let body: JsonBody = match probe {
        Probe::UserInfo => request::user_info_body(config),
        Probe::Playlists => request::user_playlists_body(config),
        Probe::LoginInfo => request::login_info_body(config),
    };
    musicu_request(config, &body)
}

/// The name that a probe finds for the account.
pub open spec fn probe_nickname(probe: Probe, uin: Seq<char>, d: Doc) -> Seq<char> {
    let data = request::answer_data(d);
    match probe {
        Probe::UserInfo => json::or_else(
            json::text_in(json::member(json::member(json::member(data, "map"@), uin), "nick"@)),
            "QQ音乐用户"@,
        ),
        Probe::Playlists => "QQ音乐用户"@,
        Probe::LoginInfo => json::or_else(
            json::text_in(json::member(json::member(data, "user_baseinfo"@), "nick"@)),
            seq![],
        ),
    }
}

/// The name that a probe finds for the account.
pub fn nickname_from_probe(probe: Probe, uin: &str, value: &Json) -> (r: String)
    ensures
        r@ == probe_nickname(probe, uin@, value@),
{
    let data: Option<&Json> = read_answer_data(value);
    match probe {
        Probe::UserInfo => json::text_or(
            json::get(json::get(json::get(data, "map"), uin), "nick"),
            "QQ音乐用户",
        ),
        Probe::Playlists => "QQ音乐用户".to_string(),
        Probe::LoginInfo => {
            proof {
                reveal_strlit("");
                assert(""@ =~= seq![]);
            }
            json::text_or(json::get(json::get(data, "user_baseinfo"), "nick"), "")
        },
    }
}

/// The verdict where no probe succeeded: no cookie makes a session valid that the
/// service did not confirm.
pub open spec fn verdict_without_probe(token: Option<Seq<char>>) -> Result<
    (Seq<char>, Seq<char>),
    Seq<char>,
> {
    Err(
        "QQ音乐验证失败(uin="@ + account::uin_of(token)
            + ")，所有验证方式均失败 / All verification methods failed."@,
    )
}

/// What an account number and a name, or an error text, mean.
pub open spec fn session_outcome(r: Result<(String, String), String>) -> Result<
    (Seq<char>, Seq<char>),
    Seq<char>,
> {
    match r {
        Ok((a, b)) => Ok((a@, b@)),
        Err(e) => Err(e@),
    }
}

/// The verdict where no probe succeeded.
fn judge_without_probe(config: &ResolvedQQMusicSourceConfig) -> (r: Result<
    (String, String),
    String,
>)
    ensures
        session_outcome(r) == verdict_without_probe(config@.token),
{
    let uin: String = account::resolve_qqmusic_uin(config);
    Err(
        concat3(
            "QQ音乐验证失败(uin=",
            uin.as_str(),
            ")，所有验证方式均失败 / All verification methods failed.",
        ),
    )
}

/// What comes after a probe.
pub enum SessionStep {
    /// The next probe.
    Ask(Probe),
    /// The end: the account number and the name, or what went wrong.
    Done(Result<(String, String), String>),
}

/// What a `SessionStep` means.
pub enum SessionStepView {
    Ask(Probe),
    Done(Result<(Seq<char>, Seq<char>), Seq<char>>),
}

impl View for SessionStep {
    type V = SessionStepView;

    open spec fn view(&self) -> SessionStepView {
        match *self {
            SessionStep::Ask(p) => SessionStepView::Ask(p),
            SessionStep::Done(r) => SessionStepView::Done(session_outcome(r)),
        }
    }
}

/// What comes after a probe that did not succeed.
pub open spec fn after_failed_probe(probe: Probe, token: Option<Seq<char>>) -> SessionStepView {
    match probe {
        Probe::UserInfo => SessionStepView::Ask(Probe::Playlists),
        Probe::Playlists => SessionStepView::Ask(Probe::LoginInfo),
        Probe::LoginInfo => SessionStepView::Done(verdict_without_probe(token)),
    }
}

/// What comes after a probe: its account and name where the answer has the code
/// zero, and the next probe elsewhere.
pub open spec fn session_next(
    probe: Probe,
    token: Option<Seq<char>>,
    x: ExchangeView,
) -> SessionStepView {
    let uin = account::uin_of(token);
    match request::json_outcome(x) {
        Ok(d) => if request::answer_code(d) == 0 {
            SessionStepView::Done(Ok((uin, probe_nickname(probe, uin, d))))
        } else {
            after_failed_probe(probe, token)
        },
        Err(_) => after_failed_probe(probe, token),
    }
}

/// Goes on after a probe of a session. The result is the account number and the
/// name of its owner.
pub fn verify_qqmusic_session(
    config: &ResolvedQQMusicSourceConfig,
    probe: Probe,
    x: Exchange,
) -> (r: SessionStep)
    ensures
        r@ == session_next(probe, config@.token, x@),
{
    match read_json(x) {
        Ok(value) => if read_answer_code(&value) == 0 {
            let uin: String = account::resolve_qqmusic_uin(config);
            let nickname: String = nickname_from_probe(probe, uin.as_str(), &value);
            return SessionStep::Done(Ok((uin, nickname)));
        },
        Err(_) => {},
    }
    match probe {
        Probe::UserInfo => SessionStep::Ask(Probe::Playlists),
        Probe::Playlists => SessionStep::Ask(Probe::LoginInfo),
        Probe::LoginInfo => SessionStep::Done(judge_without_probe(config)),
    }
}

/// How many probes are left.
pub open spec fn probes_left(probe: Probe) -> nat {
    match probe {
        Probe::UserInfo => 3,
        Probe::Playlists => 2,
        Probe::LoginInfo => 1,
    }
}

/// A session is judged after at most three probes. It is valid only where the
/// service answered the probe with the code zero, and is then always that of the
/// account in the token; it is refused only where the last probe found nothing.
pub proof fn law_session_is_judged(probe: Probe, token: Option<Seq<char>>, x: ExchangeView)
    ensures
        match session_next(probe, token, x) {
            SessionStepView::Ask(next) => probes_left(next) < probes_left(probe),
            SessionStepView::Done(Ok((uin, _))) => {
                &&& uin == account::uin_of(token)
                &&& request::json_outcome(x) matches Ok(d) && request::answer_code(d) == 0
            },
            SessionStepView::Done(Err(_)) => probe is LoginInfo && (request::json_outcome(
                x,
            ) matches Ok(d) ==> request::answer_code(d) != 0),
        },
{
}

// ---------------------------------------------------------------------------
// Reaching the service
// ---------------------------------------------------------------------------
/// The request that shows whether the service can be reached: a search for one song.
pub open spec fn connection_request_of() -> RequestView {
    RequestView {
        url: "https://c.y.qq.com/soso/fcgi-bin/client_search_cp"@,
        query: seq![
            ("w"@, "test"@),
            ("p"@, "1"@),
            ("n"@, "1"@),
            ("t"@, "0"@),
            ("format"@, "json"@),
        ],
        headers: seq![("Referer"@, QQMUSIC_REFERER@), ("User-Agent"@, QQMUSIC_UA@)],
    }
}

/// The request that shows whether the service can be reached.
pub fn connection_request() -> (r: Request)
    ensures
        r@ == connection_request_of(),
{
    let mut query: Vec<(String, String)> = Vec::new();
    push_pair(&mut query, "w", "test");
    push_pair(&mut query, "p", "1");
    push_pair(&mut query, "n", "1");
    push_pair(&mut query, "t", "0");
    push_pair(&mut query, "format", "json");
    let mut headers: Vec<(String, String)> = Vec::new();
    push_pair(&mut headers, "Referer", QQMUSIC_REFERER);
    push_pair(&mut headers, "User-Agent", QQMUSIC_UA);
    proof {
        assert(request::pair_views(query@) =~= connection_request_of().query);
        assert(request::pair_views(headers@) =~= connection_request_of().headers);
    }
    Request {
        url: "https://c.y.qq.com/soso/fcgi-bin/client_search_cp".to_string(),
        query,
        headers,
    }
}

/// The verdict on a status, or on an error where no reply came.
pub open spec fn connection_verdict(reply: Result<u16, Seq<char>>) -> Result<Seq<char>, Seq<char>> {
    match reply {
        Ok(status) => if 200 <= status < 300 {
            Ok("Connected. QQ音乐来源已就绪。 / QQ Music source is ready."@)
        } else {
            Err(
                "QQ音乐返回异常状态码 "@ + text::decimal(status as nat)
                    + " / QQ Music returned status "@ + text::decimal(status as nat),
            )
        },
        Err(e) => Err("无法连接QQ音乐 / Cannot reach QQ Music: "@ + e),
    }
}

/// The verdict on the status of a reply, or on the error where no reply came.
pub fn test_qqmusic_connection(reply: Result<u16, String>) -> (r: Result<String, String>)
    ensures
        dto::outcome(r) == connection_verdict(
            match reply {
                Ok(status) => Ok(status),
                Err(e) => Err(e@),
            },
        ),
{
    match reply {
        Ok(status) => if 200 <= status && status < 300 {
            Ok("Connected. QQ音乐来源已就绪。 / QQ Music source is ready.".to_string())
        } else {
            let number: String = decimal_text(status as u128);
            let head: String = concat3(
                "QQ音乐返回异常状态码 ",
                number.as_str(),
                " / QQ Music returned status ",
            );
            Err(concat2(head.as_str(), number.as_str()))
        },
        Err(e) => Err(concat2("无法连接QQ音乐 / Cannot reach QQ Music: ", e.as_str())),
    }
}

/// A session is valid at once where the service answers a probe with the code zero.
/// Each probe that does not succeed is followed by the next: the data of the account,
/// its playlists, and the question who is logged in.
pub proof fn law_probes_take_turns(token: Option<Seq<char>>, x: ExchangeView, probe: Probe)
    ensures
        ({
            let success = request::json_outcome(x) matches Ok(d) && json::has_integer(
                json::member(Some(d), "req_1"@),
                "code"@,
                0,
            );
            &&& success ==> session_next(probe, token, x) is Done && session_next(
                probe,
                token,
                x,
            )->Done_0 is Ok
            &&& !success && probe is UserInfo ==> session_next(probe, token, x)
                == SessionStepView::Ask(Probe::Playlists)
            &&& !success && probe is Playlists ==> session_next(probe, token, x)
                == SessionStepView::Ask(Probe::LoginInfo)
            &&& !success && probe is LoginInfo ==> session_next(probe, token, x) is Done
                && session_next(probe, token, x)->Done_0 is Err
        }),
{
    if let Ok(d) = request::json_outcome(x) {
        json::lemma_integer(json::member(Some(d), "req_1"@), "code"@);
    }
}

/// The name of the user is the one that the answer gives: for the data of the account
/// that of the entry of the account, for the question who is logged in that of the
/// user, and a general one elsewhere.
pub proof fn law_session_has_its_name(
    token: Option<Seq<char>>,
    x: ExchangeView,
    d: Doc,
    t: Seq<char>,
)
    requires
        request::json_outcome(x) == Ok::<Doc, Seq<char>>(d),
        json::has_integer(json::member(Some(d), "req_1"@), "code"@, 0),
    ensures
        ({
            let uin = account::uin_of(token);
            let data = json::member(json::member(Some(d), "req_1"@), "data"@);
            let entry = json::member(json::member(data, "map"@), uin);
            let user = json::member(data, "user_baseinfo"@);
            let general = "QQ音乐用户"@;
            &&& json::member(entry, "nick"@) == Some(Doc::Text(t)) ==> session_next(
                Probe::UserInfo,
                token,
                x,
            ) == SessionStepView::Done(Ok((uin, t)))
            &&& !(json::member(entry, "nick"@) matches Some(Doc::Text(_))) ==> session_next(
                Probe::UserInfo,
                token,
                x,
            ) == SessionStepView::Done(Ok((uin, general)))
            &&& session_next(Probe::Playlists, token, x) == SessionStepView::Done(
                Ok((uin, general)),
            )
            &&& json::member(user, "nick"@) == Some(Doc::Text(t)) ==> session_next(
                Probe::LoginInfo,
                token,
                x,
            ) == SessionStepView::Done(Ok((uin, t)))
            &&& !(json::member(user, "nick"@) matches Some(Doc::Text(_))) ==> session_next(
                Probe::LoginInfo,
                token,
                x,
            ) == SessionStepView::Done(Ok((uin, seq![])))
        }),
{
    json::lemma_integer(json::member(Some(d), "req_1"@), "code"@);
}

/// Each probe asks its own question.
pub proof fn law_probes_ask_their_question(token: Option<Seq<char>>)
    ensures
        json::member(
            json::member(Some(probe_doc(Probe::UserInfo, token)), "req_1"@),
            "method"@,
        ) == Some(Doc::Text("get_user_baseinfo"@)),
        json::member(
            json::member(Some(probe_doc(Probe::Playlists, token)), "req_1"@),
            "method"@,
        ) == Some(Doc::Text("GetUserPlayList"@)),
        json::member(
            json::member(Some(probe_doc(Probe::LoginInfo, token)), "req_1"@),
            "method"@,
        ) == Some(Doc::Text("GetLoginInfo"@)),
{
    request::law_questions_name_the_account(token);
}

/// The service counts as reached exactly where it replies with a status of success;
/// elsewhere the status or the error is told.
pub proof fn law_connection_is_told(status: u16, e: Seq<char>)
    ensures
        connection_verdict(Ok(status)) is Ok <==> 200 <= status <= 299,
        !(200 <= status <= 299) ==> text::ends_with(
            connection_verdict(Ok(status))->Err_0,
            text::decimal(status as nat),
        ),
        connection_verdict(Err(e)) is Err,
        text::ends_with(connection_verdict(Err(e))->Err_0, e),
        connection_verdict(Err(e))->Err_0 == "无法连接QQ音乐 / Cannot reach QQ Music: "@ + e,
        !(200 <= status <= 299) ==> connection_verdict(Ok(status))->Err_0
            == "QQ音乐返回异常状态码 "@ + text::decimal(status as nat)
            + " / QQ Music returned status "@ + text::decimal(status as nat),
{
    let number = text::decimal(status as nat);
    let front = "QQ音乐返回异常状态码 "@ + number + " / QQ Music returned status "@;
    assert((front + number).skip(front.len() as int) =~= number);
    let start = "无法连接QQ音乐 / Cannot reach QQ Music: "@;
    assert((start + e).skip(start.len() as int) =~= e);
}

/// The service is asked for one song, at its search, without a cookie.
pub proof fn law_connection_asks_the_search()
    ensures
        ({
            let q = connection_request_of();
            &&& q.url == "https://c.y.qq.com/soso/fcgi-bin/client_search_cp"@
            &&& q.query.contains(("w"@, "test"@))
            &&& q.query.contains(("t"@, "0"@))
            &&& q.query.len() == 5
            &&& q.query.contains(("p"@, "1"@))
            &&& q.query.contains(("n"@, "1"@))
            &&& q.query.contains(("format"@, "json"@))
            &&& q.headers.contains(("Referer"@, "https://y.qq.com/portal/player.html"@))
            &&& q.headers.contains(("User-Agent"@, QQMUSIC_UA@))
            &&& forall|i: int|
                0 <= i < q.headers.len() ==> (#[trigger] q.headers[i]).0 != "Cookie"@
        }),
{
    let q = connection_request_of();
    assert(q.headers[0] == ("Referer"@, "https://y.qq.com/portal/player.html"@));
    assert(q.headers[1] == ("User-Agent"@, QQMUSIC_UA@));
    assert(q.query[0] == ("w"@, "test"@));
    assert(q.query[3] == ("t"@, "0"@));
    assert(q.query[1] == ("p"@, "1"@));
    assert(q.query[2] == ("n"@, "1"@));
    assert(q.query[4] == ("format"@, "json"@));
    reveal_strlit("Cookie");
    reveal_strlit("Referer");
    reveal_strlit("User-Agent");
    assert("Cookie"@.len() == 6 && "Referer"@.len() == 7 && "User-Agent"@.len() == 10);
}

/// A session that no probe confirmed is refused with the number of its account.
pub proof fn law_refusal_names_account(token: Option<Seq<char>>, x: ExchangeView)
    ensures
        request::json_outcome(x) is Err ==> session_next(Probe::LoginInfo, token, x)
            == SessionStepView::Done(
            Err(
                "QQ音乐验证失败(uin="@ + account::uin_of(token)
                    + ")，所有验证方式均失败 / All verification methods failed."@,
            ),
        ),
        connection_verdict(Ok(200)) == Ok::<Seq<char>, Seq<char>>(
            "Connected. QQ音乐来源已就绪。 / QQ Music source is ready."@,
        ),
{
}

} // verus!
