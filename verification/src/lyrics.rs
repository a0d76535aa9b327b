//! The lyrics of a song.
use vstd::prelude::*;
use vstd::utf8::*;
use crate::dto::ResolvedQQMusicSourceConfig;
use crate::encoding::{self, decode_base64};
use crate::json::{self, parse_json, Doc, Json};
use crate::request::{
    self,
    push_pair,
    read_text,
    text_request,
    Exchange,
    ExchangeView,
    Request,
    RequestView,
};
use crate::text::{self, text_from_utf8, text_starts_with, trim_text};

verus! {

/// The request for the lyrics of a song.
pub open spec fn lyrics_request_of(token: Option<Seq<char>>, songmid: Seq<char>) -> RequestView {
    request::text_request_of(
        token,
        "https://c.y.qq.com/lyric/fcgi-bin/fcg_query_lyric_new.fcg"@,
        seq![("songmid"@, songmid), ("nobase64"@, "1"@), ("format"@, "json"@)],
        seq![],
    )
}

/// The request for the lyrics of a song.
pub fn lyrics_request(config: &ResolvedQQMusicSourceConfig, songmid: &str) -> (r: Request)
    ensures
        r@ == lyrics_request_of(config@.token, songmid@),
{
    let mut params: Vec<(String, String)> = Vec::new();
    push_pair(&mut params, "songmid", songmid);
    push_pair(&mut params, "nobase64", "1");
    push_pair(&mut params, "format", "json");
    let none: Vec<(String, String)> = Vec::new();
    proof {
        assert(request::pair_views(params@) =~= seq![
            ("songmid"@, songmid@),
            ("nobase64"@, "1"@),
            ("format"@, "json"@),
        ]);
        assert(request::pair_views(none@) =~= seq![]);
    }
    text_request(
        config,
        "https://c.y.qq.com/lyric/fcgi-bin/fcg_query_lyric_new.fcg",
        params,
        &none,
    )
}

/// Lyrics that need no decoding: none at all, or such that begin with a tag.
pub open spec fn is_plain(t: Seq<char>) -> bool {
    text::trim(t).len() == 0 || text::starts_with(t, "[ti:"@) || text::starts_with(t, "[ar:"@)
}

/// The text that the bytes encode, and `t` itself where they are no text or where
/// there are none.
pub open spec fn decoded_or(t: Seq<char>, bytes: Option<Seq<u8>>) -> Seq<char> {
    match bytes {
        Some(b) => if valid_utf8(b) {
            decode_utf8(b)
        } else {
            t
        },
        None => t,
    }
}

/// The text that the bytes encode, or `t` itself.
pub fn text_or_itself(t: String, bytes: Option<Vec<u8>>) -> (r: String)
    ensures
        r@ == decoded_or(
            t@,
            match bytes {
                Some(b) => Some(b@),
                None => None,
            },
        ),
{
    match bytes {
        Some(b) => match text_from_utf8(b) {
            Some(decoded) => decoded,
            None => t,
        },
        None => t,
    }
}

/// Lyrics as text, whether or not they came in Base64.
pub open spec fn lyric_text(t: Seq<char>) -> Seq<char> {
    if is_plain(t) {
        t
    } else {
        decoded_or(t, encoding::base64_decode(text::trim(t)))
    }
}

/// Lyrics as text.
pub fn read_lyric(t: String) -> (r: String)
    ensures
        r@ == lyric_text(t@),
{
    let trimmed: String = trim_text(t.as_str());
    if trimmed.as_str().is_empty() || text_starts_with(t.as_str(), "[ti:") || text_starts_with(
        t.as_str(),
        "[ar:",
    ) {
        return t;
    }
    text_or_itself(t, decode_base64(trimmed.as_str()))
}

/// The lyrics of an answer and their translation. An answer without lyrics is no
/// error, but one that refuses the referer is.
pub open spec fn lyrics_in(d: Doc) -> Result<(Seq<char>, Seq<char>), Seq<char>> {
    let v = Some(d);
    let code = json::or_else(json::signed_in(json::member(v, "code"@)), (-1) as i64);
    if code == -1310 {
        Err("QQ音乐歌词 Referer 校验失败 / QQ Music lyrics referer check failed."@)
    } else if code != 0 {
        Ok((seq![], seq![]))
    } else {
        Ok(
            (
                lyric_text(json::or_else(json::text_in(json::member(v, "lyric"@)), seq![])),
                lyric_text(json::or_else(json::text_in(json::member(v, "trans"@)), seq![])),
            ),
        )
    }
}

/// What lyrics and a translation, or an error text, mean.
pub open spec fn lyrics_outcome(r: Result<(String, String), String>) -> Result<
    (Seq<char>, Seq<char>),
    Seq<char>,
> {
    match r {
        Ok((a, b)) => Ok((a@, b@)),
        Err(e) => Err(e@),
    }
}

/// The lyrics of an answer and their translation.
pub fn lyrics_from_json(value: &Json) -> (r: Result<(String, String), String>)
    ensures
        lyrics_outcome(r) == lyrics_in(value@),
{
    let v: Option<&Json> = Some(value);
    let code: i64 = match json::as_i64(json::get(v, "code")) {
        Some(c) => c,
        None => -1,
    };
    if code == -1310 {
        return Err(
            "QQ音乐歌词 Referer 校验失败 / QQ Music lyrics referer check failed.".to_string(),
        );
    }
    if code != 0 {
        return Ok((String::new(), String::new()));
    }
    proof {
        reveal_strlit("");
        assert(""@ =~= seq![]);
    }
    let lyric: String = json::text_or(json::get(v, "lyric"), "");
    let trans: String = json::text_or(json::get(v, "trans"), "");
    Ok((read_lyric(lyric), read_lyric(trans)))
}

/// What a request for lyrics gives.
pub open spec fn lyrics_reply(x: ExchangeView) -> Result<(Seq<char>, Seq<char>), Seq<char>> {
    match request::text_outcome(x) {
        Err(e) => Err(e),
        Ok(t) => match json::json_parse(t) {
            Some(d) => lyrics_in(d),
            None => Err("QQ音乐歌词响应解析失败"@),
        },
    }
}

/// The lyrics that a request for them gave, and their translation.
pub fn fetch_qqmusic_lyrics(x: Exchange) -> (r: Result<(String, String), String>)
    ensures
        lyrics_outcome(r) == lyrics_reply(x@),
{
    match read_text(x) {
        Err(e) => Err(e),
        Ok(t) => match parse_json(t.as_str()) {
            Some(value) => lyrics_from_json(&value),
            None => Err("QQ音乐歌词响应解析失败".to_string()),
        },
    }
}

/// Lyrics with a tag in front come out as they are, whatever they look like in
/// Base64, and lyrics that are no Base64 of a text do too.
pub proof fn law_plain_lyrics_stay(t: Seq<char>)
    ensures
        is_plain(t) ==> lyric_text(t) == t,
        encoding::base64_decode(text::trim(t)) is None ==> lyric_text(t) == t,
        encoding::base64_decode(text::trim(t)) matches Some(b) ==> !valid_utf8(b) ==> lyric_text(t)
            == t,
{
}

/// The answer has the code zero.
pub open spec fn has_success(d: Doc) -> bool {
    json::member(Some(d), "code"@) == Some(Doc::Unsigned(0))
}

/// In an answer of the code zero the lyrics are those of the member `lyric` alone,
/// and the translation is that of the member `trans` alone: neither depends on the
/// other, nor on anything else in the answer.
pub proof fn law_lyrics_do_not_depend_on_translation(a: Doc, b: Doc)
    requires
        has_success(a),
        has_success(b),
    ensures
        lyrics_in(a) is Ok,
        json::member(Some(a), "lyric"@) == json::member(Some(b), "lyric"@) ==> (lyrics_in(
            a,
        )->Ok_0).0 == (lyrics_in(b)->Ok_0).0,
        json::member(Some(a), "trans"@) == json::member(Some(b), "trans"@) ==> (lyrics_in(
            a,
        )->Ok_0).1 == (lyrics_in(b)->Ok_0).1,
        json::member(Some(a), "lyric"@) == json::member(Some(b), "trans"@) ==> (lyrics_in(
            a,
        )->Ok_0).0 == (lyrics_in(b)->Ok_0).1,
{
}

/// Lyrics that begin with a tag come out of an answer as they are. Others are taken
/// for Base64, and come out as what they encode where that is a text, and as they are
/// elsewhere. Where there are none, the lyrics are empty. The same holds of the
/// translation.
pub proof fn law_lyrics_come_out(d: Doc, name: Seq<char>, t: Seq<char>)
    requires
        has_success(d),
        name == "lyric"@ || name == "trans"@,
    ensures
        ({
            let out = if name == "lyric"@ {
                (lyrics_in(d)->Ok_0).0
            } else {
                (lyrics_in(d)->Ok_0).1
            };
            let found = json::member(Some(d), name);
            &&& found == Some(Doc::Text(t)) && (text::starts_with(t, "[ti:"@) || text::starts_with(
                t,
                "[ar:"@,
            )) ==> out == t
            &&& found == Some(Doc::Text(t)) && text::trim(t).len() == 0 ==> out == t
            &&& found == Some(Doc::Text(t)) && !text::starts_with(t, "[ti:"@) && !text::starts_with(
                t,
                "[ar:"@,
            ) && text::trim(t).len() > 0 ==> match encoding::base64_decode(text::trim(t)) {
                Some(bytes) => if valid_utf8(bytes) {
                    out == decode_utf8(bytes)
                } else {
                    out == t
                },
                None => out == t,
            }
            &&& !(found matches Some(Doc::Text(_))) ==> out.len() == 0
        }),
{
    reveal_strlit("lyric");
    reveal_strlit("trans");
    assert("lyric"@[0] == 'l' && "trans"@[0] == 't');
    let none: Seq<char> = seq![];
    assert(text::trim(none) =~= none);
}

/// An answer that refuses the referer is an error; one of any other code but zero, or
/// of none, has no lyrics.
pub proof fn law_refused_lyrics(d: Doc)
    ensures
        json::member(Some(d), "code"@) == Some(Doc::Negative((-1310) as i64)) ==> lyrics_in(d) is Err,
        !has_success(d) && json::member(Some(d), "code"@) != Some(Doc::Negative(0)) && json::member(
            Some(d),
            "code"@,
        ) != Some(Doc::Negative((-1310) as i64)) ==> lyrics_in(d) is Ok && (lyrics_in(d)->Ok_0).0.len() == 0
            && (lyrics_in(d)->Ok_0).1.len() == 0,
{
}

/// What a request for lyrics gives is what its answer holds; without an answer that
/// can be read it is an error.
pub proof fn law_lyrics_are_of_the_answer(x: ExchangeView, d: Doc)
    ensures
        request::text_outcome(x) matches Err(e) ==> lyrics_reply(x) == Err::<
            (Seq<char>, Seq<char>),
            Seq<char>,
        >(e),
        request::text_outcome(x) matches Ok(t) ==> {
            &&& json::json_parse(t) is None ==> lyrics_reply(x) is Err
            &&& json::json_parse(t) == Some(d) && has_success(d) ==> lyrics_reply(x) is Ok
                && lyrics_reply(x) == lyrics_in(d)
        },
{
}

/// The request for lyrics names the song, and asks for them as text.
pub proof fn law_lyrics_request_names_song(token: Option<Seq<char>>, songmid: Seq<char>)
    ensures
        ({
            let q = lyrics_request_of(token, songmid);
            &&& q.url == "https://c.y.qq.com/lyric/fcgi-bin/fcg_query_lyric_new.fcg"@
            &&& q.query.contains(("songmid"@, songmid))
            &&& q.query.contains(("nobase64"@, "1"@))
            &&& q.query.contains(("format"@, "json"@))
            &&& token matches Some(cookie) ==> q.headers.contains(("Cookie"@, cookie))
            &&& token is None ==> forall|i: int|
                0 <= i < q.headers.len() ==> (#[trigger] q.headers[i]).0 != "Cookie"@
        }),
{
    let q = lyrics_request_of(token, songmid);
    assert(q.query[0] == ("songmid"@, songmid));
    assert(q.query[1] == ("nobase64"@, "1"@));
    assert(q.query[2] == ("format"@, "json"@));
    request::law_text_request_carries(token, q.url, q.query, seq![]);
    request::law_no_cookie_without_token(q.url, q.query, Doc::Null, seq![]);
}

/// The errors of a request for lyrics say what happened.
pub proof fn law_lyrics_errors_are_told(x: ExchangeView, d: Doc)
    ensures
        json::member(Some(d), "code"@) == Some(Doc::Negative((-1310) as i64)) ==> lyrics_in(d)
            == Err::<(Seq<char>, Seq<char>), Seq<char>>(
            "QQ音乐歌词 Referer 校验失败 / QQ Music lyrics referer check failed."@,
        ),
        request::text_outcome(x) matches Ok(t) ==> json::json_parse(t) is None ==> lyrics_reply(x)
            == Err::<(Seq<char>, Seq<char>), Seq<char>>("QQ音乐歌词响应解析失败"@),
{
}

} // verus!
