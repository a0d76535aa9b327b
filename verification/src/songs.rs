//! Songs and playlists: searching for them, and reading them out of answers.
use vstd::prelude::*;
use crate::account;
use crate::constants::QQMUSIC_MUSICU_URL;
use crate::dto::{
    self,
    PlaylistView,
    QQMusicUserPlaylistDto,
    ResolvedQQMusicSourceConfig,
    SongView,
    SourcePlaylistDto,
    SourceSongDto,
    UserPlaylistView,
};
use crate::json::{self, parse_json, Doc, Json, JsonBody};
use crate::request::{
    self,
    build_qqmusic_comm,
    call_body,
    musicu_request,
    one_member_body,
    push_pair,
    read_json,
    read_text,
    text_request,
    Exchange,
    ExchangeView,
    Request,
    RequestView,
};
use crate::text::{
    self,
    concat2,
    concat3,
    decimal_text,
    replace_text,
    text_contains,
    trim_text,
};

verus! {

// ---------------------------------------------------------------------------
// Addresses
// ---------------------------------------------------------------------------
/// The cover of an album.
pub open spec fn cover_url_of(albummid: Seq<char>) -> Seq<char> {
    if albummid.len() == 0 {
        seq![]
    } else {
        "https://y.gtimg.cn/music/photo_new/T002R300x300M000"@ + albummid + ".jpg"@
    }
}

/// The cover of an album, empty where the album is unknown.
pub fn qqmusic_cover_url(albummid: &str) -> (r: String)
    ensures
        r@ == cover_url_of(albummid@),
{
    if albummid.is_empty() {
        return String::new();
    }
    concat3("https://y.gtimg.cn/music/photo_new/T002R300x300M000", albummid, ".jpg")
}

/// The page of a song.
pub open spec fn share_url_of(songmid: Seq<char>) -> Seq<char> {
    "https://y.qq.com/n/ryqq/songDetail/"@ + songmid
}

/// The page of a song.
pub fn qqmusic_share_url(songmid: &str) -> (r: String)
    ensures
        r@ == share_url_of(songmid@),
{
    concat2("https://y.qq.com/n/ryqq/songDetail/", songmid)
}

/// A cover has an address exactly where its album is known.
pub proof fn law_cover_is_known(albummid: Seq<char>)
    ensures
        cover_url_of(albummid).len() == 0 <==> albummid.len() == 0,
{
    reveal_strlit(".jpg");
}

/// Different songs have different pages.
pub proof fn law_share_url_tells_songs_apart(a: Seq<char>, b: Seq<char>)
    ensures
        share_url_of(a) == share_url_of(b) ==> a == b,
{
    let front = "https://y.qq.com/n/ryqq/songDetail/"@;
    assert(share_url_of(a).skip(front.len() as int) =~= a);
    assert(share_url_of(b).skip(front.len() as int) =~= b);
}

// ---------------------------------------------------------------------------
// Songs
// ---------------------------------------------------------------------------
/// A song of this service.
pub open spec fn song_of(
    id: Seq<char>,
    title: Seq<char>,
    artist: Seq<char>,
    album: Seq<char>,
    duration: u64,
    albummid: Seq<char>,
    source_url: Option<Seq<char>>,
) -> SongView {
    SongView {
        id,
        source: Some("qqmusic"@),
        title,
        artist,
        album,
        duration_seconds: duration,
        cover_url: cover_url_of(albummid),
        playable_url: None,
        unavailable: false,
        unavailable_reason: None,
        bvid: None,
        aid: None,
        cid: None,
        uploader: None,
        danmaku_count: None,
        play_count: None,
        page_index: None,
        source_url,
    }
}

/// Makes a song of this service.
fn make_song(
    id: String,
    title: String,
    artist: String,
    album: String,
    duration: u64,
    albummid: &str,
    source_url: Option<String>,
) -> (r: SourceSongDto)
    ensures
        r@ == song_of(
            id@,
            title@,
            artist@,
            album@,
            duration,
            albummid@,
            text::opt_view(source_url),
        ),
{
    SourceSongDto {
        id,
        source: Some("qqmusic".to_string()),
        title,
        artist,
        album,
        duration_seconds: duration,
        cover_url: qqmusic_cover_url(albummid),
        playable_url: None,
        unavailable: false,
        unavailable_reason: None,
        bvid: None,
        aid: None,
        cid: None,
        uploader: None,
        danmaku_count: None,
        play_count: None,
        page_index: None,
        source_url,
    }
}

/// The page of a song that has an identifier.
pub open spec fn source_url_of(songmid: Seq<char>) -> Option<Seq<char>> {
    if songmid.len() > 0 {
        Some(share_url_of(songmid))
    } else {
        None
    }
}

/// The page of a song that has an identifier.
fn make_source_url(songmid: &str) -> (r: Option<String>)
    ensures
        text::opt_view(r) == source_url_of(songmid@),
{
    if songmid.is_empty() {
        None
    } else {
        Some(qqmusic_share_url(songmid))
    }
}

/// The first text that is not empty among the members, or a default.
pub open spec fn text_among(d: Option<Doc>, names: Seq<Seq<char>>, default: Seq<char>) -> Seq<char> {
    json::or_else(json::first_filled(d, names), default)
}

/// The text of the member `a`, where it is not empty, or a default.
fn text_member(value: Option<&Json>, a: &str, default: &str) -> (r: String)
    ensures
        r@ == text_among(json::opt_doc(value), seq![a@], default@),
{
    let names: Vec<&str> = vec![a];
    proof {
        assert(json::name_views(names@) =~= seq![a@]);
    }
    match json::first_text(value, &names) {
        Some(t) => t,
        None => default.to_string(),
    }
}

/// The text of the member `a`, else of `b`, where it is not empty, or a default.
fn text_member2(value: Option<&Json>, a: &str, b: &str, default: &str) -> (r: String)
    ensures
        r@ == text_among(json::opt_doc(value), seq![a@, b@], default@),
{
    let names: Vec<&str> = vec![a, b];
    proof {
        assert(json::name_views(names@) =~= seq![a@, b@]);
    }
    match json::first_text(value, &names) {
        Some(t) => t,
        None => default.to_string(),
    }
}

/// The text of the member `a`, else of `b`, else of `c`, where it is not empty, or
/// a default.
fn text_member3(value: Option<&Json>, a: &str, b: &str, c: &str, default: &str) -> (r: String)
    ensures
        r@ == text_among(json::opt_doc(value), seq![a@, b@, c@], default@),
{
    let names: Vec<&str> = vec![a, b, c];
    proof {
        assert(json::name_views(names@) =~= seq![a@, b@, c@]);
    }
    match json::first_text(value, &names) {
        Some(t) => t,
        None => default.to_string(),
    }
}

/// The name of the first singer.
pub open spec fn artist_in(d: Option<Doc>) -> Seq<char> {
    json::or_else(
        json::text_in(json::member(json::first_item(json::member(d, "singer"@)), "name"@)),
        "Unknown Artist"@,
    )
}

/// The name of the first singer.
fn read_artist(value: Option<&Json>) -> (r: String)
    ensures
        r@ == artist_in(json::opt_doc(value)),
{
    json::text_or(
        json::get(json::get_first(json::get(value, "singer")), "name"),
        "Unknown Artist",
    )
}

/// The length of a song in seconds.
pub open spec fn interval_in(d: Option<Doc>) -> u64 {
    json::or_else(json::unsigned_in(json::member(d, "interval"@)), 0)
}

/// The length of a song in seconds.
fn read_interval(value: Option<&Json>) -> (r: u64)
    ensures
        r == interval_in(json::opt_doc(value)),
{
    match json::json_u64(json::get(value, "interval")) {
        Some(n) => n,
        None => 0,
    }
}

/// A title without the marks of a search and without escapes.
pub open spec fn plain_title(name: Seq<char>) -> Seq<char> {
    text::trim(
        text::replace(
            text::replace(
                text::replace(text::replace(name, "<em>"@, seq![]), "</em>"@, seq![]),
                "&quot;"@,
                seq!['"'],
            ),
            "&amp;"@,
            seq!['&'],
        ),
    )
}

/// A title without the marks of a search and without escapes.
pub fn clean_title(name: &str) -> (r: String)
    ensures
        r@ == plain_title(name@),
{
    proof {
        reveal_strlit("");
        reveal_strlit("\"");
        reveal_strlit("&");
        assert(""@ =~= seq![]);
        assert("\""@ =~= seq!['"']);
        assert("&"@ =~= seq!['&']);
    }
    let a: String = replace_text(name, "<em>", "");
    let b: String = replace_text(a.as_str(), "</em>", "");
    let c: String = replace_text(b.as_str(), "&quot;", "\"");
    let d: String = replace_text(c.as_str(), "&amp;", "&");
    trim_text(d.as_str())
}

/// A song in the result of a search.
pub open spec fn search_song(d: Doc) -> SongView {
    let v = Some(d);
    let songmid = text_among(v, seq!["songmid"@], seq![]);
    song_of(
        songmid,
        plain_title(text_among(v, seq!["songname"@], "Unknown Song"@)),
        artist_in(v),
        text_among(v, seq!["albumname"@], "Unknown Album"@),
        interval_in(v),
        text_among(v, seq!["albummid"@], seq![]),
        source_url_of(songmid),
    )
}

/// A song in the result of a search.
pub fn source_song_from_qqmusic_search_json(value: &Json) -> (r: SourceSongDto)
    ensures
        r@ == search_song(value@),
{
    proof {
        reveal_strlit("");
        assert(""@ =~= seq![]);
    }
    let v: Option<&Json> = Some(value);
    let songmid: String = text_member(v, "songmid", "");
    let name: String = text_member(v, "songname", "Unknown Song");
    let album: String = text_member(v, "albumname", "Unknown Album");
    let albummid: String = text_member(v, "albummid", "");
    let source_url: Option<String> = make_source_url(songmid.as_str());
    make_song(
        songmid,
        clean_title(name.as_str()),
        read_artist(v),
        album,
        read_interval(v),
        albummid.as_str(),
        source_url,
    )
}

/// A song of a playlist.
pub open spec fn playlist_song(d: Doc) -> SongView {
    let v = Some(d);
    let songmid = text_among(v, seq!["songmid"@, "mid"@], seq![]);
    song_of(
        songmid,
        text_among(v, seq!["songname"@, "name"@], "Unknown Song"@),
        artist_in(v),
        text_among(v, seq!["albumname"@, "albumName"@], "Unknown Album"@),
        interval_in(v),
        text_among(v, seq!["albummid"@, "albumMid"@], seq![]),
        source_url_of(songmid),
    )
}

/// A song of a playlist.
pub fn source_song_from_qqmusic_playlist_json(value: &Json) -> (r: SourceSongDto)
    ensures
        r@ == playlist_song(value@),
{
    proof {
        reveal_strlit("");
        assert(""@ =~= seq![]);
    }
    let v: Option<&Json> = Some(value);
    let songmid: String = text_member2(v, "songmid", "mid", "");
    let name: String = text_member2(v, "songname", "name", "Unknown Song");
    let album: String = text_member2(v, "albumname", "albumName", "Unknown Album");
    let albummid: String = text_member2(v, "albummid", "albumMid", "");
    let source_url: Option<String> = make_source_url(songmid.as_str());
    make_song(
        songmid,
        name,
        read_artist(v),
        album,
        read_interval(v),
        albummid.as_str(),
        source_url,
    )
}

// ---------------------------------------------------------------------------
// Searching
// ---------------------------------------------------------------------------
/// The songs that the answer to a search gives.
pub open spec fn search_songs(d: Doc) -> Result<Seq<SongView>, Seq<char>> {
    let v = Some(d);
    if json::signed_in(json::member(v, "code"@)) == Some(0i64) {
        let list = json::items_in(
            json::member(json::member(json::member(v, "data"@), "song"@), "list"@),
        );
        Ok(json::or_else(list, seq![]).map_values(|x: Doc| search_song(x)))
    } else {
        Err("QQ音乐搜索失败: "@ + text_among(v, seq!["message"@], "unknown error"@))
    }
}

/// The songs that the answer to a search gives.
pub fn songs_from_search_json(value: &Json) -> (r: Result<Vec<SourceSongDto>, String>)
    ensures
        dto::songs_outcome(r) == search_songs(value@),
        r matches Ok(v) ==> v@.len() == search_songs(value@)->Ok_0.len() && forall|i: int|
            0 <= i < v@.len() ==> (#[trigger] v@[i])@ == search_songs(value@)->Ok_0[i],
{
    let v: Option<&Json> = Some(value);
    let ok: bool = match json::as_i64(json::get(v, "code")) {
        Some(code) => code == 0,
        None => false,
    };
    if !ok {
        let message: String = text_member(v, "message", "unknown error");
        return Err(concat2("QQ音乐搜索失败: ", message.as_str()));
    }
    let mut out: Vec<SourceSongDto> = Vec::new();
    let list: Option<&Vec<Json>> = json::as_array(
        json::get(json::get(json::get(v, "data"), "song"), "list"),
    );
    match list {
        Some(items) => {
            for i in 0..items.len()
                invariant
                    out@.len() == i,
                    forall|k: int|
                        #![trigger out@[k]]
                        0 <= k < i ==> out@[k]@ == search_song(items@[k]@),
            {
                out.push(source_song_from_qqmusic_search_json(&items[i]));
            }
            proof {
                assert(dto::song_views(out@) =~= json::docs(items@).map_values(
                    |x: Doc| search_song(x),
                ));
            }
        },
        None => {
            proof {
                let none: Seq<Doc> = seq![];
                assert(dto::song_views(out@) =~= none.map_values(|x: Doc| search_song(x)));
            }
        },
    }
    Ok(out)
}

/// What one attempt at a search gives.
pub open spec fn search_outcome(x: ExchangeView) -> Result<Seq<SongView>, Seq<char>> {
    match request::text_outcome(x) {
        Err(e) => Err(e),
        Ok(t) => match json::json_parse(t) {
            Some(d) => search_songs(d),
            None => Err("QQ音乐搜索响应解析失败"@),
        },
    }
}

/// What one attempt at a search gives.
pub fn try_qqmusic_search(x: Exchange) -> (r: Result<Vec<SourceSongDto>, String>)
    ensures
        dto::songs_outcome(r) == search_outcome(x@),
{
    match read_text(x) {
        Err(e) => Err(e),
        Ok(t) => match parse_json(t.as_str()) {
            Some(value) => songs_from_search_json(&value),
            None => Err("QQ音乐搜索响应解析失败".to_string()),
        },
    }
}

/// The attempts at a search, in order: an address, and whether the cookie goes
/// along. A search needs no cookie, so each address is tried without one first.
pub open spec fn search_attempts(has_token: bool) -> Seq<(Seq<char>, bool)> {
    let first = "https://c.y.qq.com/soso/fcgi-bin/client_search_cp"@;
    let second = "https://c.y.qq.com/soso/fcgi-bin/search_for_qq_cp"@;
    if has_token {
        seq![(first, false), (first, true), (second, false), (second, true)]
    } else {
        seq![(first, false), (second, false)]
    }
}

/// The attempts at a search.
fn list_search_attempts(has_token: bool) -> (r: Vec<(&'static str, bool)>)
    ensures
        r@.len() == search_attempts(has_token).len(),
        forall|i: int|
            #![trigger r@[i]]
            0 <= i < r@.len() ==> (r@[i].0@, r@[i].1) == search_attempts(has_token)[i],
{
    let first: &'static str = "https://c.y.qq.com/soso/fcgi-bin/client_search_cp";
    let second: &'static str = "https://c.y.qq.com/soso/fcgi-bin/search_for_qq_cp";
    if has_token {
        vec![(first, false), (first, true), (second, false), (second, true)]
    } else {
        vec![(first, false), (second, false)]
    }
}

/// The query of a search.
pub open spec fn search_query(query: Seq<char>, page: u32, page_size: u32) -> Seq<
    (Seq<char>, Seq<char>),
> {
    seq![
        ("w"@, query),
        ("p"@, text::decimal(page as nat)),
        ("n"@, text::decimal(page_size as nat)),
        ("t"@, "0"@),
        ("format"@, "json"@),
    ]
}

/// The request of one attempt at a search.
pub open spec fn search_request_of(
    token: Option<Seq<char>>,
    query: Seq<char>,
    page: u32,
    page_size: u32,
    attempt: usize,
) -> Option<RequestView> {
    let attempts = search_attempts(token is Some);
    if attempt < attempts.len() {
        let (url, with_cookie) = attempts[attempt as int];
        Some(
            request::text_request_of(
                if with_cookie {
                    token
                } else {
                    None
                },
                url,
                search_query(query, page, page_size),
                seq![],
            ),
        )
    } else {
        None
    }
}

/// The request of one attempt at a search, `None` behind the last.
pub fn search_qqmusic(
    config: &ResolvedQQMusicSourceConfig,
    query: &str,
    page: u32,
    page_size: u32,
    attempt: usize,
) -> (r: Option<Request>)
    ensures
        match r {
            Some(q) => search_request_of(config@.token, query@, page, page_size, attempt) == Some(
                q@,
            ),
            None => search_request_of(config@.token, query@, page, page_size, attempt) is None,
        },
{
    let attempts: Vec<(&'static str, bool)> = list_search_attempts(config.token.is_some());
    if attempt >= attempts.len() {
        return None;
    }
    let (url, with_cookie) = attempts[attempt];
    let mut params: Vec<(String, String)> = Vec::new();
    let page_text: String = decimal_text(page as u128);
    let size_text: String = decimal_text(page_size as u128);
    push_pair(&mut params, "w", query);
    push_pair(&mut params, "p", page_text.as_str());
    push_pair(&mut params, "n", size_text.as_str());
    push_pair(&mut params, "t", "0");
    push_pair(&mut params, "format", "json");
    let none: Vec<(String, String)> = Vec::new();
    proof {
        assert(request::pair_views(params@) =~= search_query(query@, page, page_size));
        assert(request::pair_views(none@) =~= seq![]);
    }
    let asking: ResolvedQQMusicSourceConfig = ResolvedQQMusicSourceConfig {
        enabled: config.enabled,
        base_url: config.base_url.clone(),
        token: if with_cookie {
            config.token.clone()
        } else {
            None
        },
    };
    Some(text_request(&asking, url, params, &none))
}

/// What comes after an attempt at a search.
pub enum SearchStep {
    /// The attempt of this number.
    Ask(usize),
    /// The end.
    Done(Result<Vec<SourceSongDto>, String>),
}

/// What a `SearchStep` means.
pub enum SearchStepView {
    Ask(usize),
    Done(Result<Seq<SongView>, Seq<char>>),
}

impl View for SearchStep {
    type V = SearchStepView;

    open spec fn view(&self) -> SearchStepView {
        match *self {
            SearchStep::Ask(n) => SearchStepView::Ask(n),
            SearchStep::Done(r) => SearchStepView::Done(dto::songs_outcome(r)),
        }
    }
}

/// What comes after an attempt: its songs, or the next attempt, or the end.
pub open spec fn search_next(has_token: bool, attempt: usize, x: ExchangeView) -> SearchStepView {
    match search_outcome(x) {
        Ok(songs) => SearchStepView::Done(Ok(songs)),
        Err(_) => if attempt + 1 < search_attempts(has_token).len() {
            SearchStepView::Ask((attempt + 1) as usize)
        } else {
            SearchStepView::Done(
                Err(
                    "QQ音乐搜索失败: 所有端点均不可用 / QQ Music search failed: all endpoints unavailable."@,
                ),
            )
        },
    }
}

/// Goes on after an attempt at a search.
pub fn next_search(config: &ResolvedQQMusicSourceConfig, attempt: usize, x: Exchange) -> (r:
    SearchStep)
    ensures
        r@ == search_next(config@.token is Some, attempt, x@),
{
    match try_qqmusic_search(x) {
        Ok(songs) => SearchStep::Done(Ok(songs)),
        Err(_) => {
            let last: usize = if config.token.is_some() {
                3
            } else {
                1
            };
            if attempt < last {
                SearchStep::Ask(attempt + 1)
            } else {
                SearchStep::Done(
                    Err(
                        "QQ音乐搜索失败: 所有端点均不可用 / QQ Music search failed: all endpoints unavailable.".to_string(),
                    ),
                )
            }
        },
    }
}

/// A search begins without the cookie, and sends it to an address only after that
/// address was asked without it.
pub proof fn law_search_begins_without_cookie(has_token: bool)
    ensures
        !search_attempts(has_token)[0].1,
        forall|i: int|
            #![trigger search_attempts(has_token)[i]]
            0 <= i < search_attempts(has_token).len() && search_attempts(has_token)[i].1 ==> {
                &&& i > 0
                &&& search_attempts(has_token)[i - 1] == (search_attempts(has_token)[i].0, false)
            },
        !has_token ==> forall|i: int|
            0 <= i < search_attempts(has_token).len() ==> !(#[trigger] search_attempts(
                has_token,
            )[i]).1,
{
}

/// A search ends with the first attempt that gives songs, and after at most four.
pub proof fn law_search_ends(has_token: bool, attempt: usize, x: ExchangeView)
    ensures
        search_outcome(x) matches Ok(songs) ==> search_next(has_token, attempt, x)
            == SearchStepView::Done(Ok(songs)),
        search_next(has_token, attempt, x) matches SearchStepView::Ask(n) ==> n == attempt + 1 && n
            < 4,
{
}

// ---------------------------------------------------------------------------
// One song
// ---------------------------------------------------------------------------
/// The body that asks for a song.
pub open spec fn song_detail_doc(token: Option<Seq<char>>, songmid: Seq<char>) -> Doc {
    request::call_doc(
        request::comm_doc(account::uin_of(token)),
        "music.pf_song_detail_svr"@,
        "get_song_detail"@,
        request::one_member("song_mid"@, Doc::Text(songmid)),
    )
}

/// The request for a song.
pub fn song_metadata_request(config: &ResolvedQQMusicSourceConfig, songmid: &str) -> (r: Request)
    ensures
        r@ == request::json_request_of(
            config@.token,
            QQMUSIC_MUSICU_URL@,
            song_detail_doc(config@.token, songmid@),
        ),
{
    let body: JsonBody = call_body(
        build_qqmusic_comm(config),
        "music.pf_song_detail_svr",
        "get_song_detail",
        one_member_body("song_mid", JsonBody::Text(songmid.to_string())),
    );
    musicu_request(config, &body)
}

/// The song that an answer describes.
pub open spec fn detail_song(songmid: Seq<char>, d: Doc) -> Result<SongView, Seq<char>> {
    match json::member(request::answer_data(d), "track_info"@) {
        None => Err("QQ音乐未返回歌曲详情 / QQ Music did not return track info."@),
        Some(info) => {
            let v = Some(info);
            let album = json::member(v, "album"@);
            Ok(
                song_of(
                    songmid,
                    text_among(v, seq!["name"@], "Unknown Song"@),
                    artist_in(v),
                    text_among(album, seq!["name"@], "Unknown Album"@),
                    interval_in(v),
                    text_among(album, seq!["mid"@], seq![]),
                    Some(share_url_of(songmid)),
                ),
            )
        },
    }
}

/// The song that an answer describes.
pub fn song_from_detail_json(songmid: &str, value: &Json) -> (r: Result<SourceSongDto, String>)
    ensures
        dto::outcome(r) == detail_song(songmid@, value@),
{
    match json::get(request::read_answer_data(value), "track_info") {
        None => Err(
            "QQ音乐未返回歌曲详情 / QQ Music did not return track info.".to_string(),
        ),
        Some(info) => {
            proof {
                reveal_strlit("");
                assert(""@ =~= seq![]);
            }
            let v: Option<&Json> = Some(info);
            let album: Option<&Json> = json::get(v, "album");
            let name: String = text_member(v, "name", "Unknown Song");
            let album_name: String = text_member(album, "name", "Unknown Album");
            let albummid: String = text_member(album, "mid", "");
            Ok(
                make_song(
                    songmid.to_string(),
                    name,
                    read_artist(v),
                    album_name,
                    read_interval(v),
                    albummid.as_str(),
                    Some(qqmusic_share_url(songmid)),
                ),
            )
        },
    }
}

/// The song that a request for it gave.
pub fn fetch_qqmusic_song_metadata(songmid: &str, x: Exchange) -> (r: Result<SourceSongDto, String>)
    ensures
        dto::outcome(r) == (match request::json_outcome(x@) {
            Ok(d) => detail_song(songmid@, d),
            Err(e) => Err(e),
        }),
{
    match read_json(x) {
        Ok(value) => song_from_detail_json(songmid, &value),
        Err(e) => Err(e),
    }
}

// ---------------------------------------------------------------------------
// Playlists of the user
// ---------------------------------------------------------------------------
/// A playlist of the user. The number of its songs is kept to 32 bits.
pub open spec fn user_playlist(d: Doc) -> UserPlaylistView {
    let v = Some(d);
    let count = json::or(
        json::or(json::member(v, "songNum"@), json::member(v, "songnum"@)),
        json::member(v, "track_count"@),
    );
    let shown = json::or(json::member(v, "dirShow"@), json::member(v, "subscribed"@));
    UserPlaylistView {
        id: text_among(v, seq!["tid"@, "dirid"@, "disstid"@], seq![]),
        name: text_among(v, seq!["title"@, "dirName"@, "dissname"@], "未命名歌单"@),
        track_count: (json::or_else(json::unsigned_in(count), 0) % 0x1_0000_0000) as u32,
        creator_name: text_among(v, seq!["creatorName"@, "nick"@, "nickname"@], "QQ用户"@),
        subscribed: json::signed_in(shown) == Some(0i64),
        cover_url: text_among(v, seq!["picUrl"@, "logo"@, "picurl"@], seq![]),
        description: text_among(v, seq!["desc"@, "introduction"@], seq![]),
    }
}

/// The first of two members that is there.
fn either_member<'a>(value: Option<&'a Json>, a: &str, b: &str) -> (r: Option<&'a Json>)
    ensures
        json::opt_doc(r) == json::or(
            json::member(json::opt_doc(value), a@),
            json::member(json::opt_doc(value), b@),
        ),
{
    let first: Option<&'a Json> = json::get(value, a);
    if first.is_some() {
        first
    } else {
        json::get(value, b)
    }
}

/// A playlist of the user.
pub fn qqmusic_user_playlist_from_json(value: &Json) -> (r: QQMusicUserPlaylistDto)
    ensures
        r@ == user_playlist(value@),
{
    proof {
        reveal_strlit("");
        assert(""@ =~= seq![]);
    }
    let v: Option<&Json> = Some(value);
    let mut count: Option<&Json> = either_member(v, "songNum", "songnum");
    if count.is_none() {
        count = json::get(v, "track_count");
    }
    let number: u64 = match json::json_u64(count) {
        Some(n) => n,
        None => 0,
    };
    let subscribed: bool = match json::as_i64(either_member(v, "dirShow", "subscribed")) {
        Some(n) => n == 0,
        None => false,
    };
    QQMusicUserPlaylistDto {
        id: text_member3(v, "tid", "dirid", "disstid", ""),
        name: text_member3(v, "title", "dirName", "dissname", "未命名歌单"),
        track_count: (number % 0x1_0000_0000) as u32,
        creator_name: text_member3(v, "creatorName", "nick", "nickname", "QQ用户"),
        subscribed,
        cover_url: text_member3(v, "picUrl", "logo", "picurl", ""),
        description: text_member2(v, "desc", "introduction", ""),
    }
}

/// What the playlists mean, in order.
pub open spec fn user_playlist_views(v: Seq<QQMusicUserPlaylistDto>) -> Seq<UserPlaylistView> {
    Seq::new(v.len(), |i: int| v[i]@)
}

/// What a list of playlists or an error text means.
pub open spec fn user_playlists_outcome(r: Result<Vec<QQMusicUserPlaylistDto>, String>) -> Result<
    Seq<UserPlaylistView>,
    Seq<char>,
> {
    match r {
        Ok(v) => Ok(user_playlist_views(v@)),
        Err(e) => Err(e@),
    }
}

/// The playlists that an answer gives: those of `myPlaylist`, and those of
/// `v_playlist` where there are none.
pub open spec fn user_playlists_in(d: Doc) -> Result<Seq<UserPlaylistView>, Seq<char>> {
    let data = request::answer_data(d);
    let own = json::or_else(json::items_in(json::member(data, "myPlaylist"@)), seq![]);
    let other = json::or_else(json::items_in(json::member(data, "v_playlist"@)), seq![]);
    let list = if own.len() > 0 {
        own
    } else {
        other
    };
    if list.len() == 0 {
        Err("QQ音乐未返回用户歌单 / QQ Music did not return user playlists."@)
    } else {
        Ok(list.map_values(|x: Doc| user_playlist(x)))
    }
}

/// Playlists of the user.
fn read_user_playlists(items: &Vec<Json>) -> (r: Vec<QQMusicUserPlaylistDto>)
    ensures
        user_playlist_views(r@) == json::docs(items@).map_values(|x: Doc| user_playlist(x)),
{
    let mut out: Vec<QQMusicUserPlaylistDto> = Vec::new();
    for i in 0..items.len()
        invariant
            out@.len() == i,
            forall|k: int|
                #![trigger out@[k]]
                0 <= k < i ==> out@[k]@ == user_playlist(items@[k]@),
    {
        out.push(qqmusic_user_playlist_from_json(&items[i]));
    }
    proof {
        assert(user_playlist_views(out@) =~= json::docs(items@).map_values(
            |x: Doc| user_playlist(x),
        ));
    }
    out
}

/// The playlists that an answer gives.
pub fn user_playlists_from_json(value: &Json) -> (r: Result<Vec<QQMusicUserPlaylistDto>, String>)
    ensures
        user_playlists_outcome(r) == user_playlists_in(value@),
{
    let data: Option<&Json> = request::read_answer_data(value);
    match json::as_array(json::get(data, "myPlaylist")) {
        Some(items) => if items.len() > 0 {
            return Ok(read_user_playlists(items));
        },
        None => {},
    }
    match json::as_array(json::get(data, "v_playlist")) {
        Some(items) => if items.len() > 0 {
            return Ok(read_user_playlists(items));
        },
        None => {},
    }
    Err("QQ音乐未返回用户歌单 / QQ Music did not return user playlists.".to_string())
}

/// The request for the playlists of the user, which needs a login.
pub fn user_playlists_request(config: &ResolvedQQMusicSourceConfig) -> (r: Result<Request, String>)
    ensures
        dto::outcome(r) == (if account::uin_num_of(config@.token) == 0 {
            Err("未登录QQ音乐 / Not logged in to QQ Music."@)
        } else {
            Ok(
                request::json_request_of(
                    config@.token,
                    QQMUSIC_MUSICU_URL@,
                    request::user_playlists_doc(config@.token),
                ),
            )
        }),
{
    if account::resolve_qqmusic_uin_num(config) == 0 {
        return Err("未登录QQ音乐 / Not logged in to QQ Music.".to_string());
    }
    Ok(musicu_request(config, &request::user_playlists_body(config)))
}

/// The playlists that a request for them gave.
pub fn fetch_qqmusic_user_playlists(x: Exchange) -> (r: Result<Vec<QQMusicUserPlaylistDto>, String>)
    ensures
        user_playlists_outcome(r) == (match request::json_outcome(x@) {
            Ok(d) => user_playlists_in(d),
            Err(e) => Err(e),
        }),
{
    match read_json(x) {
        Ok(value) => user_playlists_from_json(&value),
        Err(e) => Err(e),
    }
}

// ---------------------------------------------------------------------------
// One playlist
// ---------------------------------------------------------------------------
/// The request for a playlist. Its referer is the page of the playlist.
pub open spec fn playlist_request_of(
    token: Option<Seq<char>>,
    playlist_id: Seq<char>,
) -> RequestView {
    request::text_request_of(
        token,
        "https://c.y.qq.com/qzone/fcg-bin/fcg_ucc_getcdinfo_byids_cp.fcg"@,
        seq![
            ("type"@, "1"@),
            ("json"@, "1"@),
            ("utf8"@, "1"@),
            ("onlysong"@, "0"@),
            ("disstid"@, playlist_id),
            ("format"@, "json"@),
        ],
        seq![("Referer"@, "https://y.qq.com/n/yqq/playlist/"@ + playlist_id + ".html"@)],
    )
}

/// The request for a playlist.
pub fn playlist_request(config: &ResolvedQQMusicSourceConfig, playlist_id: &str) -> (r: Request)
    ensures
        r@ == playlist_request_of(config@.token, playlist_id@),
{
    let mut params: Vec<(String, String)> = Vec::new();
    push_pair(&mut params, "type", "1");
    push_pair(&mut params, "json", "1");
    push_pair(&mut params, "utf8", "1");
    push_pair(&mut params, "onlysong", "0");
    push_pair(&mut params, "disstid", playlist_id);
    push_pair(&mut params, "format", "json");
    let mut extra: Vec<(String, String)> = Vec::new();
    let referer: String = concat3("https://y.qq.com/n/yqq/playlist/", playlist_id, ".html");
    push_pair(&mut extra, "Referer", referer.as_str());
    proof {
        assert(request::pair_views(params@) =~= seq![
            ("type"@, "1"@),
            ("json"@, "1"@),
            ("utf8"@, "1"@),
            ("onlysong"@, "0"@),
            ("disstid"@, playlist_id@),
            ("format"@, "json"@),
        ]);
        assert(request::pair_views(extra@) =~= seq![
            ("Referer"@, "https://y.qq.com/n/yqq/playlist/"@ + playlist_id@ + ".html"@),
        ]);
    }
    text_request(
        config,
        "https://c.y.qq.com/qzone/fcg-bin/fcg_ucc_getcdinfo_byids_cp.fcg",
        params,
        &extra,
    )
}

/// The playlist that an answer describes.
pub open spec fn playlist_in(playlist_id: Seq<char>, d: Doc) -> Result<PlaylistView, Seq<char>> {
    match json::first_item(json::member(Some(d), "cdlist"@)) {
        None => Err("QQ音乐歌单数据为空 / QQ Music playlist data is empty."@),
        Some(list) => {
            let v = Some(list);
            let songs = json::or_else(json::items_in(json::member(v, "songlist"@)), seq![]);
            Ok(
                PlaylistView {
                    id: playlist_id,
                    name: text_among(v, seq!["dissname"@], "未知歌单"@),
                    description: text_among(v, seq!["desc"@], seq![]),
                    source: "qqmusic"@,
                    tracks: songs.map_values(|x: Doc| playlist_song(x)),
                },
            )
        },
    }
}

/// The playlist that an answer describes.
pub fn playlist_from_json(playlist_id: &str, value: &Json) -> (r: Result<SourcePlaylistDto, String>)
    ensures
        dto::outcome(r) == playlist_in(playlist_id@, value@),
{
    match json::get_first(json::get(Some(value), "cdlist")) {
        None => Err("QQ音乐歌单数据为空 / QQ Music playlist data is empty.".to_string()),
        Some(list) => {
            proof {
                reveal_strlit("");
                assert(""@ =~= seq![]);
            }
            let v: Option<&Json> = Some(list);
            let name: String = text_member(v, "dissname", "未知歌单");
            let description: String = text_member(v, "desc", "");
            let mut tracks: Vec<SourceSongDto> = Vec::new();
            match json::as_array(json::get(v, "songlist")) {
                Some(items) => {
                    for i in 0..items.len()
                        invariant
                            tracks@.len() == i,
                            forall|k: int|
                                #![trigger tracks@[k]]
                                0 <= k < i ==> tracks@[k]@ == playlist_song(items@[k]@),
                    {
                        tracks.push(source_song_from_qqmusic_playlist_json(&items[i]));
                    }
                    proof {
                        assert(dto::song_views(tracks@) =~= json::docs(items@).map_values(
                            |x: Doc| playlist_song(x),
                        ));
                    }
                },
                None => {
                    proof {
                        let none: Seq<Doc> = seq![];
                        assert(dto::song_views(tracks@) =~= none.map_values(
                            |x: Doc| playlist_song(x),
                        ));
                    }
                },
            }
            Ok(
                SourcePlaylistDto {
                    id: playlist_id.to_string(),
                    name,
                    description,
                    source: "qqmusic".to_string(),
                    tracks,
                },
            )
        },
    }
}

/// What a request for a playlist gives.
pub open spec fn playlist_outcome(playlist_id: Seq<char>, x: ExchangeView) -> Result<
    PlaylistView,
    Seq<char>,
> {
    match request::text_outcome(x) {
        Err(e) => Err(e),
        Ok(t) => match json::json_parse(t) {
            Some(d) => playlist_in(playlist_id, d),
            None => Err("QQ音乐歌单详情解析失败"@),
        },
    }
}

/// The playlist that a request for it gave.
pub fn fetch_qqmusic_playlist(playlist_id: &str, x: Exchange) -> (r: Result<
    SourcePlaylistDto,
    String,
>)
    ensures
        dto::outcome(r) == playlist_outcome(playlist_id@, x@),
{
    match read_text(x) {
        Err(e) => Err(e),
        Ok(t) => match parse_json(t.as_str()) {
            Some(value) => playlist_from_json(playlist_id, &value),
            None => Err("QQ音乐歌单详情解析失败".to_string()),
        },
    }
}

// ---------------------------------------------------------------------------
// Liked songs
// ---------------------------------------------------------------------------
/// The name of a playlist says that it holds the liked songs.
pub open spec fn is_liked(name: Seq<char>) -> bool {
    text::contains(name, "我喜欢"@) || text::contains(name, "我喜歡"@) || text::contains(
        name,
        "Like"@,
    )
}

/// The first playlist of liked songs.
pub open spec fn first_liked(lists: Seq<UserPlaylistView>) -> Option<UserPlaylistView>
    decreases lists.len(),
{
    if lists.len() == 0 {
        None
    } else if is_liked(lists[0].name) {
        Some(lists[0])
    } else {
        first_liked(lists.skip(1))
    }
}

/// The playlist to take the liked songs from: the first of that name, else the first.
pub open spec fn liked_playlist(lists: Seq<UserPlaylistView>) -> Result<Seq<char>, Seq<char>> {
    match first_liked(lists) {
        Some(p) => Ok(p.id),
        None => if lists.len() > 0 {
            Ok(lists[0].id)
        } else {
            Err("未找到可用的QQ音乐歌单 / No QQ Music playlist found."@)
        },
    }
}

/// The playlist to take the liked songs from.
pub fn choose_liked_playlist(lists: &Vec<QQMusicUserPlaylistDto>) -> (r: Result<String, String>)
    ensures
        dto::outcome(r) == liked_playlist(user_playlist_views(lists@)),
{
    let ghost all = user_playlist_views(lists@);
    proof {
        assert(all.skip(0) =~= all);
    }
    for i in 0..lists.len()
        invariant
            all == user_playlist_views(lists@),
            first_liked(all) == first_liked(all.skip(i as int)),
    {
        proof {
            assert(all.skip(i as int)[0] == lists@[i as int]@);
            assert(all.skip(i as int).skip(1) =~= all.skip(i + 1));
        }
        let name: &str = lists[i].name.as_str();
        if text_contains(name, "我喜欢") || text_contains(name, "我喜歡") || text_contains(
            name,
            "Like",
        ) {
            return Ok(lists[i].id.clone());
        }
    }
    if lists.len() > 0 {
        Ok(lists[0].id.clone())
    } else {
        Err("未找到可用的QQ音乐歌单 / No QQ Music playlist found.".to_string())
    }
}

/// The first songs of a playlist, all of them where the limit is zero.
pub open spec fn limited(tracks: Seq<SongView>, limit: u32) -> Seq<SongView> {
    if limit > 0 && limit < tracks.len() {
        tracks.take(limit as int)
    } else {
        tracks
    }
}

/// The liked songs: the first songs of the playlist, all of them where the limit is zero.
pub fn fetch_qqmusic_liked_songs(playlist: SourcePlaylistDto, limit: u32) -> (r: Vec<SourceSongDto>)
    ensures
        dto::song_views(r@) == limited(playlist@.tracks, limit),
{
    let mut tracks: Vec<SourceSongDto> = playlist.tracks;
    let ghost all = dto::song_views(tracks@);
    if limit > 0 && (limit as usize) < tracks.len() {
        tracks.truncate(limit as usize);
        proof {
            assert(dto::song_views(tracks@) =~= all.take(limit as int));
        }
    }
    tracks
}

/// The liked songs are a beginning of the playlist, no longer than the limit.
pub proof fn law_liked_songs_are_limited(tracks: Seq<SongView>, limit: u32)
    ensures
        limited(tracks, limit) == tracks.take(limited(tracks, limit).len() as int),
        limit > 0 ==> limited(tracks, limit).len() <= limit,
        limit == 0 ==> limited(tracks, limit) == tracks,
{
    assert(tracks.take(tracks.len() as int) =~= tracks);
}

/// Every song out of an answer is one of this service and counts as playable
/// until it is tried. It has a page exactly where it has an identifier.
pub proof fn law_songs_are_own(d: Doc, songmid: Seq<char>)
    ensures
        search_song(d).source == Some("qqmusic"@) && !search_song(d).unavailable,
        playlist_song(d).source == Some("qqmusic"@) && !playlist_song(d).unavailable,
        search_song(d).source_url is Some <==> search_song(d).id.len() > 0,
        playlist_song(d).source_url is Some <==> playlist_song(d).id.len() > 0,
        detail_song(songmid, d) matches Ok(s) ==> s.id == songmid && s.source == Some("qqmusic"@)
            && !s.unavailable && s.source_url == Some(share_url_of(songmid)),
{
}

// ---------------------------------------------------------------------------
// What holds of searching
// ---------------------------------------------------------------------------
/// Every request of a search carries the text, the page and the number of songs
/// asked for. There are two of them, and four where there is a cookie: both services
/// are asked, each without the cookie and then with it.
pub proof fn law_search_asks_for_the_page(
    token: Option<Seq<char>>,
    query: Seq<char>,
    page: u32,
    page_size: u32,
    attempt: usize,
)
    ensures
        search_request_of(token, query, page, page_size, attempt) is Some <==> attempt < (
        if token is Some {
            4int
        } else {
            2
        }),
        search_request_of(token, query, page, page_size, attempt) matches Some(q) ==> {
            &&& q.query.contains(("w"@, query))
            &&& exists|i: int| 0 <= i < q.query.len() && (#[trigger] q.query[i]).0 == "p"@
            &&& exists|i: int| 0 <= i < q.query.len() && (#[trigger] q.query[i]).0 == "n"@
            &&& forall|i: int|
                0 <= i < q.query.len() ==> {
                    &&& (#[trigger] q.query[i]).0 == "w"@ ==> q.query[i].1 == query
                    &&& q.query[i].0 == "p"@ ==> text::parsed_u64(q.query[i].1) == Some(page as u64)
                    &&& q.query[i].0 == "n"@ ==> text::parsed_u64(q.query[i].1) == Some(
                        page_size as u64,
                    )
                }
            &&& q.query.contains(("format"@, "json"@))
            &&& q.query.contains(("t"@, "0"@))
            &&& q.url == (if attempt < (if token is Some {
                2int
            } else {
                1
            }) {
                "https://c.y.qq.com/soso/fcgi-bin/client_search_cp"@
            } else {
                "https://c.y.qq.com/soso/fcgi-bin/search_for_qq_cp"@
            })
            &&& match token {
                Some(cookie) => if attempt % 2 == 1 {
                    q.headers.contains(("Cookie"@, cookie))
                } else {
                    forall|i: int|
                        0 <= i < q.headers.len() ==> (#[trigger] q.headers[i]).0 != "Cookie"@
                },
                None => forall|i: int|
                    0 <= i < q.headers.len() ==> (#[trigger] q.headers[i]).0 != "Cookie"@,
            }
        },
{
    reveal_strlit("w");
    reveal_strlit("p");
    reveal_strlit("n");
    reveal_strlit("t");
    reveal_strlit("format");
    assert("w"@[0] == 'w' && "p"@[0] == 'p' && "n"@[0] == 'n' && "t"@[0] == 't');
    assert("format"@.len() == 6 && "w"@.len() == 1 && "p"@.len() == 1 && "n"@.len() == 1);
    text::law_decimal_is_read_back(page as nat);
    text::law_decimal_is_read_back(page_size as nat);
    if let Some(q) = search_request_of(token, query, page, page_size, attempt) {
        assert(q.query[0] == ("w"@, query));
        assert(q.query[1].0 == "p"@);
        assert(q.query[2].0 == "n"@);
        assert(q.query[3] == ("t"@, "0"@));
        assert(q.query[4] == ("format"@, "json"@));
        request::law_text_request_carries(token, q.url, q.query, seq![]);
        request::law_no_cookie_without_token(q.url, q.query, Doc::Null, seq![]);
    }
}

/// A search goes on from attempt to attempt, in order, until one succeeds; after the
/// last it fails.
pub proof fn law_search_tries_all(has_token: bool, attempt: usize, x: ExchangeView)
    ensures
        search_outcome(x) is Err ==> match search_next(has_token, attempt, x) {
            SearchStepView::Ask(n) => n == attempt + 1 && n < (if has_token {
                4int
            } else {
                2
            }),
            SearchStepView::Done(r) => r is Err && attempt + 1 >= (if has_token {
                4int
            } else {
                2
            }),
        },
{
}

/// The answer to a search gives its songs, one for each item of its list and in that
/// order, exactly where its code is zero. Without a list there are none.
pub proof fn law_search_gives_every_song(d: Doc, items: Seq<Doc>)
    ensures
        ({
            let list = json::member(
                json::member(json::member(Some(d), "data"@), "song"@),
                "list"@,
            );
            let ok = json::member(Some(d), "code"@) == Some(Doc::Unsigned(0));
            &&& ok && list == Some(Doc::Array(items)) ==> search_songs(d) is Ok && search_songs(
                d,
            )->Ok_0.len() == items.len() && forall|i: int|
                0 <= i < items.len() ==> (#[trigger] search_songs(d)->Ok_0[i]) == search_song(
                    items[i],
                )
            &&& ok && !(list matches Some(Doc::Array(_))) ==> search_songs(d) is Ok && search_songs(
                d,
            )->Ok_0.len() == 0
            &&& !ok && json::member(Some(d), "code"@) != Some(Doc::Negative(0)) ==> search_songs(
                d,
            ) is Err
        }),
{
}

/// What an attempt gives is what its answer holds.
pub proof fn law_search_reads_the_answer(x: ExchangeView)
    ensures
        request::text_outcome(x) is Err ==> search_outcome(x) is Err,
        request::text_outcome(x) matches Ok(t) ==> match json::json_parse(t) {
            Some(d) => search_outcome(x) == search_songs(d),
            None => search_outcome(x) is Err,
        },
{
}

// ---------------------------------------------------------------------------
// What holds of songs
// ---------------------------------------------------------------------------
/// The text of the first of several members that is a text and not empty, and the
/// default where none is.
proof fn lemma_text_among(d: Option<Doc>, names: Seq<Seq<char>>, default: Seq<char>, t: Seq<char>)
    ensures
        names.len() >= 1 && json::has_text(d, names[0], t) ==> text_among(d, names, default) == t,
        names.len() >= 2 && json::has_no_text(d, names[0]) && json::has_text(d, names[1], t)
            ==> text_among(d, names, default) == t,
        names.len() >= 3 && json::has_no_text(d, names[0]) && json::has_no_text(d, names[1])
            && json::has_text(d, names[2], t) ==> text_among(d, names, default) == t,
        (forall|j: int| 0 <= j < names.len() ==> json::has_no_text(d, #[trigger] names[j]))
            ==> text_among(d, names, default) == default,
{
    json::lemma_first_filled(d, names, 0, t);
    json::lemma_first_filled(d, names, 1, t);
    json::lemma_first_filled(d, names, 2, t);
}

/// The artist is the name of the first singer, and the length the interval.
pub proof fn law_artist_and_length(d: Doc, singers: Seq<Doc>, t: Seq<char>, n: u64)
    ensures
        ({
            let v = Some(d);
            let first = json::member(v, "singer"@);
            &&& first == Some(Doc::Array(singers)) && singers.len() > 0 && json::member(
                Some(singers[0]),
                "name"@,
            ) == Some(Doc::Text(t)) ==> search_song(d).artist == t && playlist_song(d).artist == t
            &&& !(first matches Some(Doc::Array(_))) || (first == Some(Doc::Array(singers)) && (
            singers.len() == 0 || !(json::member(Some(singers[0]), "name"@) matches Some(
                Doc::Text(_),
            )))) ==> search_song(d).artist == "Unknown Artist"@ && playlist_song(d).artist
                == "Unknown Artist"@
            &&& json::member(v, "interval"@) == Some(Doc::Unsigned(n)) ==> search_song(
                d,
            ).duration_seconds == n && playlist_song(d).duration_seconds == n
            &&& !(json::member(v, "interval"@) matches Some(Doc::Unsigned(_))) ==> search_song(
                d,
            ).duration_seconds == 0 && playlist_song(d).duration_seconds == 0
        }),
{
}

/// The picture of an album and the page of a song lie at the addresses of the
/// service, made of its identifier.
pub proof fn law_addresses_name_their_subject(id: Seq<char>)
    ensures
        share_url_of(id) == "https://y.qq.com/n/ryqq/songDetail/"@ + id,
        id.len() > 0 ==> cover_url_of(id) == "https://y.gtimg.cn/music/photo_new/T002R300x300M000"@
            + id + ".jpg"@,
        id.len() == 0 ==> cover_url_of(id).len() == 0,
{
}

/// A song of a playlist has the texts of the members that name its title, its
/// identifier, its album and its picture, under either of their two names, and the
/// defaults only where neither is a text that is not empty.
pub proof fn law_playlist_song_is_read(d: Doc, t: Seq<char>)
    ensures
        ({
            let v = Some(d);
            let s = playlist_song(d);
            &&& json::has_text(v, "songname"@, t) ==> s.title == t
            &&& json::has_no_text(v, "songname"@) && json::has_text(v, "name"@, t) ==> s.title == t
            &&& json::has_no_text(v, "songname"@) && json::has_no_text(v, "name"@) ==> s.title
                == "Unknown Song"@
            &&& json::has_text(v, "songmid"@, t) ==> s.id == t && s.source_url == Some(
                "https://y.qq.com/n/ryqq/songDetail/"@ + t,
            )
            &&& json::has_no_text(v, "songmid"@) && json::has_text(v, "mid"@, t) ==> s.id == t
                && s.source_url == Some("https://y.qq.com/n/ryqq/songDetail/"@ + t)
            &&& json::has_no_text(v, "songmid"@) && json::has_no_text(v, "mid"@) ==> s.id.len() == 0
                && s.source_url is None
            &&& json::has_text(v, "albumname"@, t) ==> s.album == t
            &&& json::has_no_text(v, "albumname"@) && json::has_text(v, "albumName"@, t) ==> s.album
                == t
            &&& json::has_no_text(v, "albumname"@) && json::has_no_text(v, "albumName"@) ==> s.album
                == "Unknown Album"@
            &&& json::has_text(v, "albummid"@, t) ==> s.cover_url
                == "https://y.gtimg.cn/music/photo_new/T002R300x300M000"@ + t + ".jpg"@
            &&& json::has_no_text(v, "albummid"@) && json::has_text(v, "albumMid"@, t)
                ==> s.cover_url == "https://y.gtimg.cn/music/photo_new/T002R300x300M000"@ + t
                + ".jpg"@
            &&& json::has_no_text(v, "albummid"@) && json::has_no_text(v, "albumMid"@)
                ==> s.cover_url.len() == 0
            &&& s.source == Some("qqmusic"@)
            &&& s.playable_url is None && !s.unavailable && s.unavailable_reason is None
        }),
{
    let v = Some(d);
    lemma_text_among(v, seq!["songname"@, "name"@], "Unknown Song"@, t);
    lemma_text_among(v, seq!["songmid"@, "mid"@], seq![], t);
    lemma_text_among(v, seq!["albumname"@, "albumName"@], "Unknown Album"@, t);
    lemma_text_among(v, seq!["albummid"@, "albumMid"@], seq![], t);
}

/// A song of a search has the texts of the members that name its title, its
/// identifier, its album and its picture, and the defaults only where they are no
/// texts or empty. Its title is cleaned.
pub proof fn law_search_song_is_read(d: Doc, t: Seq<char>)
    ensures
        ({
            let v = Some(d);
            let s = search_song(d);
            &&& json::has_text(v, "songname"@, t) ==> s.title == plain_title(t)
            &&& json::has_no_text(v, "songname"@) ==> s.title == plain_title("Unknown Song"@)
            &&& json::has_text(v, "songmid"@, t) ==> s.id == t && s.source_url == Some(
                "https://y.qq.com/n/ryqq/songDetail/"@ + t,
            )
            &&& json::has_no_text(v, "songmid"@) ==> s.id.len() == 0 && s.source_url is None
            &&& json::has_text(v, "albumname"@, t) ==> s.album == t
            &&& json::has_no_text(v, "albumname"@) ==> s.album == "Unknown Album"@
            &&& json::has_text(v, "albummid"@, t) ==> s.cover_url
                == "https://y.gtimg.cn/music/photo_new/T002R300x300M000"@ + t + ".jpg"@
            &&& json::has_no_text(v, "albummid"@) ==> s.cover_url.len() == 0
            &&& s.source == Some("qqmusic"@)
            &&& s.playable_url is None && !s.unavailable && s.unavailable_reason is None
        }),
{
    let v = Some(d);
    lemma_text_among(v, seq!["songname"@], "Unknown Song"@, t);
    lemma_text_among(v, seq!["songmid"@], seq![], t);
    lemma_text_among(v, seq!["albumname"@], "Unknown Album"@, t);
    lemma_text_among(v, seq!["albummid"@], seq![], t);
}

/// The song that is asked for is described by the answer: its title and its artist by
/// the answer itself, its album and its picture by the part on the album. An answer
/// without a song is an error.
pub proof fn law_detail_song_is_read(
    songmid: Seq<char>,
    d: Doc,
    info: Doc,
    singers: Seq<Doc>,
    t: Seq<char>,
    n: u64,
)
    ensures
        ({
            let found = json::member(
                json::member(json::member(Some(d), "req_1"@), "data"@),
                "track_info"@,
            );
            let v = Some(info);
            let album = json::member(v, "album"@);
            &&& found is None ==> detail_song(songmid, d) is Err
            &&& found == Some(info) ==> detail_song(songmid, d) is Ok && {
                let s = detail_song(songmid, d)->Ok_0;
                &&& s.id == songmid
                &&& s.source_url == Some("https://y.qq.com/n/ryqq/songDetail/"@ + songmid)
                &&& json::has_text(v, "name"@, t) ==> s.title == t
                &&& json::has_no_text(v, "name"@) ==> s.title == "Unknown Song"@
                &&& json::has_text(album, "name"@, t) ==> s.album == t
                &&& json::has_no_text(album, "name"@) ==> s.album == "Unknown Album"@
                &&& json::has_text(album, "mid"@, t) ==> s.cover_url
                    == "https://y.gtimg.cn/music/photo_new/T002R300x300M000"@ + t + ".jpg"@
                &&& json::has_no_text(album, "mid"@) ==> s.cover_url.len() == 0
                &&& json::member(v, "singer"@) == Some(Doc::Array(singers)) && singers.len() > 0
                    && json::member(Some(singers[0]), "name"@) == Some(Doc::Text(t)) ==> s.artist
                    == t
                &&& !(json::member(v, "singer"@) matches Some(Doc::Array(_))) ==> s.artist
                    == "Unknown Artist"@
                &&& json::member(v, "interval"@) == Some(Doc::Unsigned(n)) ==> s.duration_seconds
                    == n
                &&& !(json::member(v, "interval"@) matches Some(Doc::Unsigned(_)))
                    ==> s.duration_seconds == 0
                &&& s.source == Some("qqmusic"@)
                &&& s.playable_url is None && !s.unavailable && s.unavailable_reason is None
            }
        }),
{
    let v = Some(info);
    let album = json::member(v, "album"@);
    lemma_text_among(v, seq!["name"@], "Unknown Song"@, t);
    lemma_text_among(album, seq!["name"@], "Unknown Album"@, t);
    lemma_text_among(album, seq!["mid"@], seq![], t);
}

/// The request for a song names it.
pub proof fn law_detail_request_names_song(token: Option<Seq<char>>, songmid: Seq<char>)
    ensures
        ({
            let body = Some(song_detail_doc(token, songmid));
            let call = json::member(body, "req_1"@);
            &&& json::member(call, "module"@) == Some(Doc::Text("music.pf_song_detail_svr"@))
            &&& json::member(call, "method"@) == Some(Doc::Text("get_song_detail"@))
            &&& json::member(json::member(call, "param"@), "song_mid"@) == Some(Doc::Text(songmid))
            &&& json::member(json::member(body, "comm"@), "uin"@) == Some(
                Doc::Text(account::uin_of(token)),
            )
        }),
{
    let param = seq![("song_mid"@, Doc::Text(songmid))];
    json::law_object_has_its_members(param, "song_mid"@, 0);
    request::law_call_names_its_parts(
        account::uin_of(token),
        "music.pf_song_detail_svr"@,
        "get_song_detail"@,
        json::object(param),
    );
}

/// The marks around what was searched for disappear from a title, and nothing else
/// does but white space at its ends.
pub proof fn law_title_loses_marks(a: Seq<char>, b: Seq<char>, c: Seq<char>)
    requires
        !a.contains('<') && !a.contains('&'),
        !b.contains('<') && !b.contains('&'),
        !c.contains('<') && !c.contains('&'),
    ensures
        plain_title(a + "<em>"@ + b + "</em>"@ + c) == text::trim(a + b + c),
        plain_title(a) == text::trim(a),
{
    reveal_strlit("<em>");
    reveal_strlit("</em>");
    reveal_strlit("&quot;");
    reveal_strlit("&amp;");
    let none: Seq<char> = seq![];
    let open = "<em>"@;
    let close = "</em>"@;
    let rest = b + close + c;
    assert(a + open + b + close + c =~= a + open + rest);
    assert(!text::contains(rest, open)) by {
        text::law_found_at_first_place(rest, open);
        if text::contains(rest, open) {
            let i = choose|i: int| #[trigger] text::occurs_at(rest, open, i);
            let part = rest.subrange(i, i + 4);
            assert(part[0] == rest[i] && part[1] == rest[i + 1]);
            assert(open[0] == '<' && open[1] == 'e');
            if i < b.len() {
                assert(rest[i] == b[i]);
                assert(b.contains(b[i]));
            } else if i < b.len() + close.len() {
                assert(rest[i] == close[i - b.len()]);
                assert(i == b.len());
                assert(rest[i + 1] == close[1]);
            } else {
                assert(rest[i] == c[i - b.len() - close.len()]);
                assert(c.contains(rest[i]));
            }
        }
    }
    text::lemma_replace_one(a, open, rest, none);
    assert(a + none + rest =~= (a + b) + close + c);
    assert(!(a + b).contains('<')) by {
        if (a + b).contains('<') {
            let i = choose|i: int| 0 <= i < (a + b).len() && (a + b)[i] == '<';
            if i < a.len() {
                assert(a.contains('<'));
            } else {
                assert(b[i - a.len()] == '<');
            }
        }
    }
    text::lemma_absent(c, close);
    text::lemma_replace_one(a + b, close, c, none);
    let s = a + b + c;
    assert((a + b) + none + c =~= s);
    assert(!s.contains('&')) by {
        if s.contains('&') {
            let i = choose|i: int| 0 <= i < s.len() && s[i] == '&';
            if i < a.len() {
                assert(a[i] == '&');
            } else if i < a.len() + b.len() {
                assert(b[i - a.len()] == '&');
            } else {
                assert(c[i - a.len() - b.len()] == '&');
            }
        }
    }
    lemma_title_without_escapes(s);
    text::lemma_absent(a, open);
    text::lemma_absent(a, close);
    text::law_replace_goes_on(a, open, a, none);
    text::law_replace_goes_on(a, close, a, none);
    lemma_title_without_escapes(a);
}

/// A text without an ampersand has no escapes.
proof fn lemma_title_without_escapes(s: Seq<char>)
    requires
        !s.contains('&'),
    ensures
        text::replace(text::replace(s, "&quot;"@, seq!['"']), "&amp;"@, seq!['&']) == s,
{
    reveal_strlit("&quot;");
    reveal_strlit("&amp;");
    text::lemma_absent(s, "&quot;"@);
    text::lemma_absent(s, "&amp;"@);
    text::law_replace_goes_on(s, "&quot;"@, s, seq!['"']);
    text::law_replace_goes_on(s, "&amp;"@, s, seq!['&']);
}

/// A text around another has a character only where one of them has it.
proof fn lemma_around(a: Seq<char>, m: Seq<char>, b: Seq<char>, c: char)
    requires
        !a.contains(c),
        !m.contains(c),
        !b.contains(c),
    ensures
        !(a + m + b).contains(c),
{
    let s = a + m + b;
    if s.contains(c) {
        let i = choose|i: int| 0 <= i < s.len() && s[i] == c;
        if i < a.len() {
            assert(a[i] == c);
        } else if i < a.len() + m.len() {
            assert(m[i - a.len()] == c);
        } else {
            assert(b[i - a.len() - m.len()] == c);
        }
    }
}

/// A text without the character that the marks of a search begin with has no marks.
proof fn lemma_title_without_marks(s: Seq<char>)
    requires
        !s.contains('<'),
    ensures
        text::replace(text::replace(s, "<em>"@, seq![]), "</em>"@, seq![]) == s,
{
    reveal_strlit("<em>");
    reveal_strlit("</em>");
    text::lemma_absent(s, "<em>"@);
    text::lemma_absent(s, "</em>"@);
    text::law_replace_goes_on(s, "<em>"@, s, seq![]);
    text::law_replace_goes_on(s, "</em>"@, s, seq![]);
}

proof fn lemma_title_quote(a: Seq<char>, b: Seq<char>)
    requires
        !a.contains('<') && !a.contains('&'),
        !b.contains('<') && !b.contains('&'),
    ensures
        plain_title(a + "&quot;"@ + b) == text::trim(a + seq!['"'] + b),
{
    reveal_strlit("&quot;");
    reveal_strlit("&amp;");
    let quot = "&quot;"@;
    assert(!quot.contains('<'));
    lemma_around(a, quot, b, '<');
    lemma_title_without_marks(a + quot + b);
    text::lemma_absent(b, quot);
    text::lemma_replace_one(a, quot, b, seq!['"']);
    assert(!seq!['"'].contains('&'));
    lemma_around(a, seq!['"'], b, '&');
    let z = a + seq!['"'] + b;
    text::lemma_absent(z, "&amp;"@);
    text::law_replace_goes_on(z, "&amp;"@, z, seq!['&']);
}

proof fn lemma_title_ampersand(a: Seq<char>, b: Seq<char>)
    requires
        !a.contains('<') && !a.contains('&'),
        !b.contains('<') && !b.contains('&'),
    ensures
        plain_title(a + "&amp;"@ + b) == text::trim(a + seq!['&'] + b),
{
    reveal_strlit("&quot;");
    reveal_strlit("&amp;");
    let quot = "&quot;"@;
    let amp = "&amp;"@;
    let y = a + amp + b;
    assert(!amp.contains('<'));
    lemma_around(a, amp, b, '<');
    lemma_title_without_marks(y);
    assert(!text::contains(y, quot)) by {
        text::law_found_at_first_place(y, quot);
        if text::contains(y, quot) {
            let i = choose|i: int| #[trigger] text::occurs_at(y, quot, i);
            let part = y.subrange(i, i + quot.len());
            assert(part[0] == y[i] && part[1] == y[i + 1]);
            assert(quot[0] == '&' && quot[1] == 'q');
            if i < a.len() {
                assert(a[i] == '&');
            } else if i >= a.len() + amp.len() {
                assert(b[i - a.len() - amp.len()] == '&');
            } else {
                assert(y[i] == amp[i - a.len()]);
                assert(y[i + 1] == amp[1]);
            }
        }
    }
    text::law_replace_goes_on(y, quot, y, seq!['"']);
    text::lemma_absent(b, amp);
    text::lemma_replace_one(a, amp, b, seq!['&']);
}

/// An escape in a title becomes the character that it stands for.
pub proof fn law_title_loses_escapes(a: Seq<char>, b: Seq<char>)
    requires
        !a.contains('<') && !a.contains('&'),
        !b.contains('<') && !b.contains('&'),
    ensures
        plain_title(a + "&quot;"@ + b) == text::trim(a + seq!['"'] + b),
        plain_title(a + "&amp;"@ + b) == text::trim(a + seq!['&'] + b),
{
    lemma_title_quote(a, b);
    lemma_title_ampersand(a, b);
}

// ---------------------------------------------------------------------------
// What holds of playlists
// ---------------------------------------------------------------------------
/// A playlist has the identifier that was asked for, and a song for each item of its
/// list, in that order. An answer without a playlist is an error.
pub proof fn law_playlist_gives_every_song(
    playlist_id: Seq<char>,
    d: Doc,
    lists: Seq<Doc>,
    songs: Seq<Doc>,
    t: Seq<char>,
)
    ensures
        ({
            let found = json::member(Some(d), "cdlist"@);
            &&& !(found matches Some(Doc::Array(_))) || (found == Some(Doc::Array(lists))
                && lists.len() == 0) ==> playlist_in(playlist_id, d) is Err
            &&& found == Some(Doc::Array(lists)) && lists.len() > 0 ==> playlist_in(
                playlist_id,
                d,
            ) is Ok && {
                let p = playlist_in(playlist_id, d)->Ok_0;
                let v = Some(lists[0]);
                &&& p.id == playlist_id
                &&& p.source == "qqmusic"@
                &&& json::has_text(v, "dissname"@, t) ==> p.name == t
                &&& json::has_no_text(v, "dissname"@) ==> p.name == "未知歌单"@
                &&& json::has_text(v, "desc"@, t) ==> p.description == t
                &&& json::has_no_text(v, "desc"@) ==> p.description.len() == 0
                &&& json::member(v, "songlist"@) == Some(Doc::Array(songs)) ==> p.tracks.len()
                    == songs.len() && forall|i: int|
                    0 <= i < songs.len() ==> (#[trigger] p.tracks[i]) == playlist_song(songs[i])
                &&& !(json::member(v, "songlist"@) matches Some(Doc::Array(_)))
                    ==> p.tracks.len() == 0
            }
        }),
{
    if json::member(Some(d), "cdlist"@) == Some(Doc::Array(lists)) && lists.len() > 0 {
        let v = Some(lists[0]);
        lemma_text_among(v, seq!["dissname"@], "未知歌单"@, t);
        lemma_text_among(v, seq!["desc"@], seq![], t);
    }
}

/// What a request for a playlist gives is what its answer holds.
pub proof fn law_playlist_reads_the_answer(playlist_id: Seq<char>, x: ExchangeView)
    ensures
        request::text_outcome(x) matches Err(e) ==> playlist_outcome(playlist_id, x) == Err::<
            PlaylistView,
            Seq<char>,
        >(e),
        request::text_outcome(x) matches Ok(t) ==> match json::json_parse(t) {
            Some(d) => playlist_outcome(playlist_id, x) == playlist_in(playlist_id, d),
            None => playlist_outcome(playlist_id, x) is Err,
        },
{
}

/// The request for a playlist names it, in its parameters and in its referer.
pub proof fn law_playlist_request_names_playlist(
    token: Option<Seq<char>>,
    playlist_id: Seq<char>,
)
    ensures
        ({
            let q = playlist_request_of(token, playlist_id);
            &&& q.url == "https://c.y.qq.com/qzone/fcg-bin/fcg_ucc_getcdinfo_byids_cp.fcg"@
            &&& q.query.contains(("disstid"@, playlist_id))
            &&& q.query.contains(("onlysong"@, "0"@))
            &&& q.query.contains(("type"@, "1"@))
            &&& q.query.contains(("json"@, "1"@))
            &&& q.query.contains(("utf8"@, "1"@))
            &&& q.query.contains(("format"@, "json"@))
            &&& q.headers.contains(
                ("Referer"@, "https://y.qq.com/n/yqq/playlist/"@ + playlist_id + ".html"@),
            )
            &&& token matches Some(cookie) ==> q.headers.contains(("Cookie"@, cookie))
        }),
{
    let q = playlist_request_of(token, playlist_id);
    let extra = seq![
        ("Referer"@, "https://y.qq.com/n/yqq/playlist/"@ + playlist_id + ".html"@),
    ];
    assert(q.query[0] == ("type"@, "1"@));
    assert(q.query[1] == ("json"@, "1"@));
    assert(q.query[2] == ("utf8"@, "1"@));
    assert(q.query[3] == ("onlysong"@, "0"@));
    assert(q.query[4] == ("disstid"@, playlist_id));
    assert(q.query[5] == ("format"@, "json"@));
    request::law_text_request_carries(token, q.url, q.query, extra);
    assert(q.headers.contains(extra[0]));
}

/// A playlist of the user has the texts and the numbers of the members that name
/// them, under the first of their names that is there.
pub proof fn law_user_playlist_is_read(d: Doc, t: Seq<char>, n: u64)
    ensures
        ({
            let v = Some(d);
            let p = user_playlist(d);
            &&& json::has_text(v, "tid"@, t) ==> p.id == t
            &&& json::has_no_text(v, "tid"@) && json::has_text(v, "dirid"@, t) ==> p.id == t
            &&& json::has_no_text(v, "tid"@) && json::has_no_text(v, "dirid"@) && json::has_text(
                v,
                "disstid"@,
                t,
            ) ==> p.id == t
            &&& json::has_no_text(v, "tid"@) && json::has_no_text(v, "dirid"@) && json::has_no_text(
                v,
                "disstid"@,
            ) ==> p.id.len() == 0
            &&& json::has_text(v, "title"@, t) ==> p.name == t
            &&& json::has_no_text(v, "title"@) && json::has_text(v, "dirName"@, t) ==> p.name == t
            &&& json::has_no_text(v, "title"@) && json::has_no_text(v, "dirName"@)
                && json::has_text(v, "dissname"@, t) ==> p.name == t
            &&& json::has_no_text(v, "title"@) && json::has_no_text(v, "dirName"@)
                && json::has_no_text(v, "dissname"@) ==> p.name == "未命名歌单"@
            &&& json::has_text(v, "creatorName"@, t) ==> p.creator_name == t
            &&& json::has_no_text(v, "creatorName"@) && json::has_text(v, "nick"@, t)
                ==> p.creator_name == t
            &&& json::has_no_text(v, "creatorName"@) && json::has_no_text(v, "nick"@)
                && json::has_text(v, "nickname"@, t) ==> p.creator_name == t
            &&& json::has_no_text(v, "creatorName"@) && json::has_no_text(v, "nick"@)
                && json::has_no_text(v, "nickname"@) ==> p.creator_name == "QQ用户"@
            &&& json::has_text(v, "picUrl"@, t) ==> p.cover_url == t
            &&& json::has_no_text(v, "picUrl"@) && json::has_text(v, "logo"@, t) ==> p.cover_url
                == t
            &&& json::has_no_text(v, "picUrl"@) && json::has_no_text(v, "logo"@) && json::has_text(
                v,
                "picurl"@,
                t,
            ) ==> p.cover_url == t
            &&& json::has_text(v, "desc"@, t) ==> p.description == t
            &&& json::has_no_text(v, "desc"@) && json::has_text(v, "introduction"@, t)
                ==> p.description == t
        }),
        ({
            let v = Some(d);
            let p = user_playlist(d);
            let a = json::member(v, "songNum"@);
            let b = json::member(v, "songnum"@);
            let c = json::member(v, "track_count"@);
            &&& n <= u32::MAX && (a == Some(Doc::Unsigned(n)) || (a is None && b == Some(
                Doc::Unsigned(n),
            )) || (a is None && b is None && c == Some(Doc::Unsigned(n)))) ==> p.track_count == n
            &&& a is None && b is None && c is None ==> p.track_count == 0
            &&& json::member(v, "dirShow"@) == Some(Doc::Unsigned(n)) ==> (p.subscribed <==> n == 0)
            &&& json::member(v, "dirShow"@) is None && json::member(v, "subscribed"@) == Some(
                Doc::Unsigned(n),
            ) ==> (p.subscribed <==> n == 0)
            &&& json::member(v, "dirShow"@) is None && json::member(v, "subscribed"@) is None
                ==> !p.subscribed
        }),
{
    let v = Some(d);
    lemma_text_among(v, seq!["tid"@, "dirid"@, "disstid"@], seq![], t);
    lemma_text_among(v, seq!["title"@, "dirName"@, "dissname"@], "未命名歌单"@, t);
    lemma_text_among(v, seq!["creatorName"@, "nick"@, "nickname"@], "QQ用户"@, t);
    lemma_text_among(v, seq!["picUrl"@, "logo"@, "picurl"@], seq![], t);
    lemma_text_among(v, seq!["desc"@, "introduction"@], seq![], t);
}

/// The playlists of the user are those of their own list, one for each item and in
/// that order, and those of the other list where their own is empty. Where both are,
/// it is an error.
pub proof fn law_user_playlists_are_all(d: Doc, own: Seq<Doc>, other: Seq<Doc>)
    ensures
        ({
            let data = json::member(json::member(Some(d), "req_1"@), "data"@);
            let a = json::member(data, "myPlaylist"@);
            let b = json::member(data, "v_playlist"@);
            let r = user_playlists_in(d);
            &&& a == Some(Doc::Array(own)) && own.len() > 0 ==> r is Ok && r->Ok_0.len()
                == own.len() && forall|i: int|
                0 <= i < own.len() ==> (#[trigger] r->Ok_0[i]) == user_playlist(own[i])
            &&& (!(a matches Some(Doc::Array(_))) || (a == Some(Doc::Array(own)) && own.len() == 0))
                && b == Some(Doc::Array(other)) && other.len() > 0 ==> r is Ok && r->Ok_0.len()
                == other.len() && forall|i: int|
                0 <= i < other.len() ==> (#[trigger] r->Ok_0[i]) == user_playlist(other[i])
            &&& (!(a matches Some(Doc::Array(_))) || (a == Some(Doc::Array(own)) && own.len() == 0))
                && (!(b matches Some(Doc::Array(_))) || (b == Some(Doc::Array(other))
                && other.len() == 0)) ==> r is Err
        }),
{
}

/// The liked songs are those of the first playlist whose name says so, and those of
/// the first playlist where none does.
pub proof fn law_liked_songs_are_of_the_first(lists: Seq<UserPlaylistView>, i: int)
    ensures
        0 <= i < lists.len() && (text::contains(lists[i].name, "我喜欢"@) || text::contains(
            lists[i].name,
            "我喜歡"@,
        ) || text::contains(lists[i].name, "Like"@)) && (forall|j: int|
            0 <= j < i ==> !is_liked((#[trigger] lists[j]).name)) ==> liked_playlist(lists) == Ok::<
            Seq<char>,
            Seq<char>,
        >(lists[i].id),
        lists.len() > 0 && (forall|j: int|
            0 <= j < lists.len() ==> !text::contains((#[trigger] lists[j]).name, "我喜欢"@)
                && !text::contains(lists[j].name, "我喜歡"@) && !text::contains(
                lists[j].name,
                "Like"@,
            )) ==> liked_playlist(lists) == Ok::<Seq<char>, Seq<char>>(lists[0].id),
        lists.len() == 0 ==> liked_playlist(lists) is Err,
{
    lemma_first_liked(lists, i);
    if forall|j: int|
        0 <= j < lists.len() ==> !text::contains((#[trigger] lists[j]).name, "我喜欢"@)
            && !text::contains(lists[j].name, "我喜歡"@) && !text::contains(
            lists[j].name,
            "Like"@,
        ) {
        assert forall|j: int| 0 <= j < lists.len() implies !is_liked((#[trigger] lists[j]).name) by {
        }
    }
}

proof fn lemma_first_liked(lists: Seq<UserPlaylistView>, i: int)
    ensures
        0 <= i < lists.len() && is_liked(lists[i].name) && (forall|j: int|
            0 <= j < i ==> !is_liked((#[trigger] lists[j]).name)) ==> first_liked(lists) == Some(
            lists[i],
        ),
        (forall|j: int| 0 <= j < lists.len() ==> !is_liked((#[trigger] lists[j]).name))
            ==> first_liked(lists) is None,
    decreases lists.len(),
{
    if lists.len() > 0 {
        let rest = lists.skip(1);
        lemma_first_liked(rest, i - 1);
        if 0 < i < lists.len() && is_liked(lists[i].name) && (forall|j: int|
            0 <= j < i ==> !is_liked((#[trigger] lists[j]).name)) {
            assert(!is_liked(lists[0].name));
            assert(rest[i - 1] == lists[i]);
            assert forall|j: int| 0 <= j < i - 1 implies !is_liked((#[trigger] rest[j]).name) by {
                assert(rest[j] == lists[j + 1]);
            }
        }
        if forall|j: int| 0 <= j < lists.len() ==> !is_liked((#[trigger] lists[j]).name) {
            assert(!is_liked(lists[0].name));
            assert forall|j: int| 0 <= j < rest.len() implies !is_liked((#[trigger] rest[j]).name) by {
                assert(rest[j] == lists[j + 1]);
            }
        }
    }
}

/// The errors of searches and playlists say what happened.
pub proof fn law_song_errors_are_told(
    d: Doc,
    t: Seq<char>,
    x: ExchangeView,
    has_token: bool,
    songmid: Seq<char>,
    playlist_id: Seq<char>,
)
    ensures
        search_songs(d) matches Err(e) ==> {
            &&& json::has_text(Some(d), "message"@, t) ==> e == "QQ音乐搜索失败: "@ + t
            &&& json::has_no_text(Some(d), "message"@) ==> e == "QQ音乐搜索失败: "@
                + "unknown error"@
        },
        request::text_outcome(x) == Ok::<Seq<char>, Seq<char>>(t) && json::json_parse(t) is None
            ==> search_outcome(x) == Err::<Seq<SongView>, Seq<char>>(
            "QQ音乐搜索响应解析失败"@,
        ) && playlist_outcome(playlist_id, x) == Err::<PlaylistView, Seq<char>>(
            "QQ音乐歌单详情解析失败"@,
        ),
        search_next(has_token, 3, x) matches SearchStepView::Done(Err(e)) ==> e
            == "QQ音乐搜索失败: 所有端点均不可用 / QQ Music search failed: all endpoints unavailable."@,
        detail_song(songmid, d) matches Err(e) ==> e
            == "QQ音乐未返回歌曲详情 / QQ Music did not return track info."@,
        playlist_in(playlist_id, d) matches Err(e) ==> e
            == "QQ音乐歌单数据为空 / QQ Music playlist data is empty."@,
        user_playlists_in(d) matches Err(e) ==> e
            == "QQ音乐未返回用户歌单 / QQ Music did not return user playlists."@,
        liked_playlist(seq![]) == Err::<Seq<char>, Seq<char>>(
            "未找到可用的QQ音乐歌单 / No QQ Music playlist found."@,
        ),
{
    lemma_text_among(Some(d), seq!["message"@], "unknown error"@, t);
}

} // verus!
