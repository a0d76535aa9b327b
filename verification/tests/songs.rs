use qqmusic::dto::{QQMusicUserPlaylistDto, ResolvedQQMusicSourceConfig, SourcePlaylistDto};
use qqmusic::json::{parse_json, Json};
use qqmusic::request::Exchange;
use qqmusic::songs::{
    choose_liked_playlist, clean_title, fetch_qqmusic_liked_songs, fetch_qqmusic_playlist,
    fetch_qqmusic_song_metadata, fetch_qqmusic_user_playlists, next_search, playlist_from_json,
    playlist_request, qqmusic_cover_url, qqmusic_share_url, qqmusic_user_playlist_from_json,
    search_qqmusic, song_from_detail_json, songs_from_search_json,
    source_song_from_qqmusic_playlist_json, source_song_from_qqmusic_search_json,
    try_qqmusic_search, user_playlists_from_json, user_playlists_request, SearchStep,
};

fn config(token: Option<&str>) -> ResolvedQQMusicSourceConfig {
    ResolvedQQMusicSourceConfig {
        enabled: true,
        base_url: String::new(),
        token: token.map(|t| t.to_string()),
    }
}

fn json(text: &str) -> Json {
    parse_json(text).unwrap()
}

fn reply(text: &str) -> Exchange {
    Exchange::Reply {
        status: 200,
        text: text.to_string(),
    }
}

fn failed() -> Exchange {
    Exchange::NoReply("down".to_string())
}

#[test]
fn test_cover_url() {
    assert_eq!(
        qqmusic_cover_url("003OUlho2HcRHC"),
        "https://y.gtimg.cn/music/photo_new/T002R300x300M000003OUlho2HcRHC.jpg"
    );
    assert_eq!(qqmusic_cover_url(""), "");
}

#[test]
fn test_share_url() {
    assert_eq!(
        qqmusic_share_url("003OUlho2HcRHC"),
        "https://y.qq.com/n/ryqq/songDetail/003OUlho2HcRHC"
    );
}

#[test]
fn titles_lose_marks_and_escapes() {
    assert_eq!(
        clean_title(" <em>Rock</em> &quot;n&quot; Roll &amp; more "),
        "Rock \"n\" Roll & more"
    );
    assert_eq!(clean_title("&amp;quot;"), "&quot;");
}

#[test]
fn search_song_is_read() {
    let s = source_song_from_qqmusic_search_json(&json(
        r#"{"songmid":"m1","songname":"<em>A</em>","singer":[{"name":"S"},{"name":"T"}],
            "albumname":"B","albummid":"al","interval":215}"#,
    ));
    assert_eq!(s.id, "m1");
    assert_eq!(s.source.as_deref(), Some("qqmusic"));
    assert_eq!(s.title, "A");
    assert_eq!(s.artist, "S");
    assert_eq!(s.album, "B");
    assert_eq!(s.duration_seconds, 215);
    assert_eq!(
        s.cover_url,
        "https://y.gtimg.cn/music/photo_new/T002R300x300M000al.jpg"
    );
    assert_eq!(
        s.source_url.as_deref(),
        Some("https://y.qq.com/n/ryqq/songDetail/m1")
    );
    assert!(!s.unavailable);
    assert!(s.playable_url.is_none() && s.bvid.is_none() && s.page_index.is_none());
}

#[test]
fn search_song_has_defaults() {
    let s = source_song_from_qqmusic_search_json(&json(
        r#"{"songname":"","singer":[],"interval":-3}"#,
    ));
    assert_eq!(s.id, "");
    assert_eq!(s.title, "Unknown Song");
    assert_eq!(s.artist, "Unknown Artist");
    assert_eq!(s.album, "Unknown Album");
    assert_eq!(s.duration_seconds, 0);
    assert_eq!(s.cover_url, "");
    assert_eq!(s.source_url, None);
}

#[test]
fn playlist_song_takes_other_names() {
    let s = source_song_from_qqmusic_playlist_json(&json(
        r#"{"mid":"m2","name":"<em>N</em>","albumName":"AN","albumMid":"am","singer":[{"name":""}]}"#,
    ));
    assert_eq!(s.id, "m2");
    assert_eq!(s.title, "<em>N</em>");
    assert_eq!(s.artist, "");
    assert_eq!(s.album, "AN");
    assert!(s.cover_url.ends_with("M000am.jpg"));
    let t = source_song_from_qqmusic_playlist_json(&json(r#"{"songmid":"a","mid":"b"}"#));
    assert_eq!(t.id, "a");
}

#[test]
fn search_answers_are_judged() {
    let ok = songs_from_search_json(&json(
        r#"{"code":0,"data":{"song":{"list":[{"songmid":"a"},{"songmid":"b"}]}}}"#,
    ))
    .unwrap();
    assert_eq!(ok.len(), 2);
    assert_eq!(ok[1].id, "b");
    assert_eq!(songs_from_search_json(&json(r#"{"code":0}"#)).unwrap().len(), 0);
    assert_eq!(
        songs_from_search_json(&json(r#"{"code":5,"message":"no"}"#)).err(),
        Some("QQ音乐搜索失败: no".to_string())
    );
    assert_eq!(
        songs_from_search_json(&json("{}")).err(),
        Some("QQ音乐搜索失败: unknown error".to_string())
    );
    assert_eq!(
        try_qqmusic_search(reply("not json")).err(),
        Some("QQ音乐搜索响应解析失败".to_string())
    );
    assert_eq!(
        try_qqmusic_search(failed()).err(),
        Some("QQ音乐请求失败 / QQ Music request failed: down".to_string())
    );
}

#[test]
fn search_tries_without_the_cookie_first() {
    let c = config(Some("k=v"));
    let first = "https://c.y.qq.com/soso/fcgi-bin/client_search_cp";
    let second = "https://c.y.qq.com/soso/fcgi-bin/search_for_qq_cp";
    let expected = [(first, false), (first, true), (second, false), (second, true)];
    for (i, (url, cookie)) in expected.iter().enumerate() {
        let r = search_qqmusic(&c, "q x", 2, 20, i).unwrap();
        assert_eq!(&r.url, url);
        assert_eq!(r.headers.iter().any(|(n, _)| n == "Cookie"), *cookie);
        assert_eq!(r.query[0], ("w".to_string(), "q x".to_string()));
        assert_eq!(r.query[1], ("p".to_string(), "2".to_string()));
        assert_eq!(r.query[2], ("n".to_string(), "20".to_string()));
        assert_eq!(r.query[3], ("t".to_string(), "0".to_string()));
        assert_eq!(r.query[4], ("format".to_string(), "json".to_string()));
    }
    assert!(search_qqmusic(&c, "q", 1, 1, 4).is_none());
    assert!(search_qqmusic(&config(None), "q", 1, 1, 2).is_none());
    assert_eq!(
        search_qqmusic(&config(None), "q", 1, 1, 1).unwrap().url,
        second
    );
}

#[test]
fn search_ends_with_songs_or_with_the_last_attempt() {
    let c = config(Some("k=v"));
    assert!(matches!(next_search(&c, 0, failed()), SearchStep::Ask(1)));
    assert!(matches!(
        next_search(&c, 1, reply(r#"{"code":0}"#)),
        SearchStep::Done(Ok(_))
    ));
    match next_search(&c, 3, failed()) {
        SearchStep::Done(Err(e)) => assert_eq!(
            e,
            "QQ音乐搜索失败: 所有端点均不可用 / QQ Music search failed: all endpoints unavailable."
        ),
        _ => panic!("the last attempt ends the search"),
    }
    assert!(matches!(
        next_search(&config(None), 1, failed()),
        SearchStep::Done(Err(_))
    ));
}

#[test]
fn song_details_are_read() {
    let answer = r#"{"req_1":{"data":{"track_info":{"name":"N","singer":[{"name":"S"}],
        "album":{"name":"A","mid":"am"},"interval":9}}}}"#;
    let s = song_from_detail_json("mid", &json(answer)).unwrap();
    assert_eq!(s.id, "mid");
    assert_eq!(s.title, "N");
    assert_eq!(s.artist, "S");
    assert_eq!(s.album, "A");
    assert_eq!(s.duration_seconds, 9);
    assert!(s.cover_url.ends_with("M000am.jpg"));
    assert_eq!(fetch_qqmusic_song_metadata("mid", reply(answer)).unwrap().title, "N");
    assert_eq!(
        song_from_detail_json("mid", &json(r#"{"req_1":{"data":{}}}"#)).err(),
        Some("QQ音乐未返回歌曲详情 / QQ Music did not return track info.".to_string())
    );
    assert!(fetch_qqmusic_song_metadata("mid", failed()).is_err());
}

#[test]
fn user_playlist_is_read() {
    let p = qqmusic_user_playlist_from_json(&json(
        r#"{"tid":"","dirid":"d","title":"T","songnum":4294967299,"nick":"U","dirShow":0,
            "logo":"L","introduction":"I"}"#,
    ));
    assert_eq!(p.id, "d");
    assert_eq!(p.name, "T");
    assert_eq!(p.track_count, 3);
    assert_eq!(p.creator_name, "U");
    assert!(p.subscribed);
    assert_eq!(p.cover_url, "L");
    assert_eq!(p.description, "I");
    let q = qqmusic_user_playlist_from_json(&json(r#"{"songNum":"7","songnum":8}"#));
    assert_eq!(q.id, "");
    assert_eq!(q.name, "未命名歌单");
    assert_eq!(q.track_count, 0);
    assert_eq!(q.creator_name, "QQ用户");
    assert!(!q.subscribed);
}

#[test]
fn user_playlists_fall_back_to_the_other_list() {
    let own = r#"{"req_1":{"data":{"myPlaylist":[{"tid":"1"}],"v_playlist":[{"tid":"2"}]}}}"#;
    assert_eq!(user_playlists_from_json(&json(own)).unwrap()[0].id, "1");
    let other = r#"{"req_1":{"data":{"myPlaylist":[],"v_playlist":[{"tid":"2"}]}}}"#;
    assert_eq!(user_playlists_from_json(&json(other)).unwrap()[0].id, "2");
    assert_eq!(
        user_playlists_from_json(&json("{}")).err(),
        Some("QQ音乐未返回用户歌单 / QQ Music did not return user playlists.".to_string())
    );
    assert_eq!(fetch_qqmusic_user_playlists(reply(own)).unwrap().len(), 1);
    assert!(fetch_qqmusic_user_playlists(failed()).is_err());
}

#[test]
fn user_playlists_need_a_login() {
    assert_eq!(
        user_playlists_request(&config(None)).err(),
        Some("未登录QQ音乐 / Not logged in to QQ Music.".to_string())
    );
    let r = user_playlists_request(&config(Some("uin=5"))).ok().unwrap();
    assert!(r.url.contains("GetUserPlayList"));
    assert!(r.url.contains("%22param%22%3A%7B%22uin%22%3A5%7D"));
}

#[test]
fn playlist_is_read() {
    let text = r#"{"cdlist":[{"dissname":"D","desc":"about","songlist":[{"mid":"a"},{"mid":"b"}]}]}"#;
    let p = playlist_from_json("77", &json(text)).unwrap();
    assert_eq!(p.id, "77");
    assert_eq!(p.name, "D");
    assert_eq!(p.description, "about");
    assert_eq!(p.source, "qqmusic");
    assert_eq!(p.tracks.len(), 2);
    let bare = playlist_from_json("77", &json(r#"{"cdlist":[{}]}"#)).unwrap();
    assert_eq!(bare.name, "未知歌单");
    assert_eq!(bare.tracks.len(), 0);
    assert_eq!(
        playlist_from_json("77", &json(r#"{"cdlist":[]}"#)).err(),
        Some("QQ音乐歌单数据为空 / QQ Music playlist data is empty.".to_string())
    );
    assert_eq!(
        fetch_qqmusic_playlist("77", reply("oops")).err(),
        Some("QQ音乐歌单详情解析失败".to_string())
    );
    assert_eq!(fetch_qqmusic_playlist("77", reply(text)).unwrap().tracks[1].id, "b");
}

#[test]
fn playlist_request_names_its_page() {
    let r = playlist_request(&config(None), "77");
    assert_eq!(
        r.headers[3],
        (
            "Referer".to_string(),
            "https://y.qq.com/n/yqq/playlist/77.html".to_string()
        )
    );
    assert!(r.query.contains(&("disstid".to_string(), "77".to_string())));
}

fn named(id: &str, name: &str) -> QQMusicUserPlaylistDto {
    QQMusicUserPlaylistDto {
        id: id.to_string(),
        name: name.to_string(),
        track_count: 0,
        creator_name: String::new(),
        subscribed: false,
        cover_url: String::new(),
        description: String::new(),
    }
}

#[test]
fn liked_playlist_is_chosen_by_name() {
    let lists = vec![named("1", "rock"), named("2", "我喜欢"), named("3", "I Like")];
    assert_eq!(choose_liked_playlist(&lists), Ok("2".to_string()));
    let none = vec![named("1", "rock"), named("4", "pop")];
    assert_eq!(choose_liked_playlist(&none), Ok("1".to_string()));
    assert_eq!(
        choose_liked_playlist(&Vec::new()),
        Err("未找到可用的QQ音乐歌单 / No QQ Music playlist found.".to_string())
    );
}

#[test]
fn liked_songs_keep_to_the_limit() {
    let text = r#"{"cdlist":[{"songlist":[{"mid":"a"},{"mid":"b"},{"mid":"c"}]}]}"#;
    let list = || -> SourcePlaylistDto { playlist_from_json("7", &json(text)).unwrap() };
    let two = fetch_qqmusic_liked_songs(list(), 2);
    assert_eq!(two.len(), 2);
    assert_eq!(two[0].id, "a");
    assert_eq!(two[1].id, "b");
    assert_eq!(fetch_qqmusic_liked_songs(list(), 0).len(), 3);
    assert_eq!(fetch_qqmusic_liked_songs(list(), 9).len(), 3);
}
