use qqmusic::dto::{PlayableUrlDto, SourceSongDto, TrackDto};
use qqmusic::proxy::{
    proxy_qqmusic_playback, proxy_qqmusic_search_covers, proxy_qqmusic_track_covers,
};

fn song(source: Option<&str>, cover: &str) -> SourceSongDto {
    SourceSongDto {
        id: "i".to_string(),
        source: source.map(|s| s.to_string()),
        title: "t".to_string(),
        artist: "a".to_string(),
        album: "b".to_string(),
        duration_seconds: 1,
        cover_url: cover.to_string(),
        playable_url: None,
        unavailable: false,
        unavailable_reason: None,
        bvid: None,
        aid: None,
        cid: None,
        uploader: None,
        danmaku_count: None,
        play_count: None,
        page_index: None,
        source_url: None,
    }
}

fn remote(url: &str) -> bool {
    url.starts_with("https://")
}

fn register(url: &str, kind: &str) -> Result<String, String> {
    if url.contains("bad") {
        Err(format!("refused {url}"))
    } else {
        Ok(format!("ome-media://{kind}/{url}"))
    }
}

#[test]
fn covers_of_own_songs_are_handed_over() {
    let mut songs = vec![
        song(Some("qqmusic"), "https://a"),
        song(Some("netease"), "https://b"),
        song(None, "https://c"),
        song(Some("qqmusic"), ""),
    ];
    assert_eq!(proxy_qqmusic_search_covers(remote, register, &mut songs), Ok(()));
    assert_eq!(songs[0].cover_url, "ome-media://image/https://a");
    assert_eq!(songs[1].cover_url, "https://b");
    assert_eq!(songs[2].cover_url, "https://c");
    assert_eq!(songs[3].cover_url, "");
    assert_eq!(songs[0].title, "t");
}

#[test]
fn refused_cover_stops_the_songs() {
    let mut songs = vec![
        song(Some("qqmusic"), "https://a"),
        song(Some("qqmusic"), "https://bad"),
        song(Some("qqmusic"), "https://c"),
    ];
    assert_eq!(
        proxy_qqmusic_search_covers(remote, register, &mut songs),
        Err("refused https://bad".to_string())
    );
    assert_eq!(songs[0].cover_url, "ome-media://image/https://a");
    assert_eq!(songs[1].cover_url, "https://bad");
    assert_eq!(songs[2].cover_url, "https://c");
}

fn track(source: &str, cover: &str) -> TrackDto {
    TrackDto {
        source: source.to_string(),
        cover_url: cover.to_string(),
    }
}

#[test]
fn covers_of_own_tracks_are_handed_over() {
    let mut tracks = vec![
        track("local", "https://a"),
        track("qqmusic", "https://b"),
        track("qqmusic", "file://c"),
    ];
    assert_eq!(proxy_qqmusic_track_covers(remote, register, &mut tracks), Ok(()));
    assert_eq!(tracks[0].cover_url, "https://a");
    assert_eq!(tracks[1].cover_url, "ome-media://image/https://b");
    assert_eq!(tracks[2].cover_url, "file://c");
    let mut refused = vec![track("qqmusic", "https://bad")];
    assert!(proxy_qqmusic_track_covers(remote, register, &mut refused).is_err());
    assert_eq!(refused[0].cover_url, "https://bad");
}

fn playback(url: Option<&str>, others: &[&str], unavailable: bool) -> PlayableUrlDto {
    PlayableUrlDto {
        song_id: "s".to_string(),
        url: url.map(|u| u.to_string()),
        video_url: None,
        unavailable,
        reason: None,
        debug: None,
        audio_candidates: others.iter().map(|o| o.to_string()).collect(),
        video_candidates: Vec::new(),
    }
}

fn register_all(urls: Vec<String>, kind: &str) -> Result<String, String> {
    if urls[0] == "bad" {
        Err("refused".to_string())
    } else {
        Ok(format!("{kind}:{}", urls.join("|")))
    }
}

#[test]
fn playback_becomes_one_address() {
    let mut p = playback(Some("a"), &["b", "c"], false);
    assert_eq!(proxy_qqmusic_playback(register_all, &mut p), Ok(()));
    assert_eq!(p.url.as_deref(), Some("audio:a|b|c"));
    assert!(p.audio_candidates.is_empty());
    assert!(!p.unavailable);
    let mut q = playback(None, &["b"], true);
    assert_eq!(proxy_qqmusic_playback(register_all, &mut q), Ok(()));
    assert_eq!(q.url.as_deref(), Some("audio:b"));
    assert!(q.unavailable);
}

#[test]
fn playback_without_address_is_unavailable() {
    let mut p = playback(None, &[], false);
    assert_eq!(proxy_qqmusic_playback(register_all, &mut p), Ok(()));
    assert!(p.unavailable);
    assert_eq!(p.reason.as_deref(), Some("no_copyright"));
    let mut q = playback(None, &[], true);
    q.reason = Some("vip_required".to_string());
    assert_eq!(proxy_qqmusic_playback(register_all, &mut q), Ok(()));
    assert_eq!(q.reason.as_deref(), Some("vip_required"));
}

#[test]
fn refused_playback_stays() {
    let mut p = playback(Some("bad"), &["b"], false);
    assert_eq!(
        proxy_qqmusic_playback(register_all, &mut p),
        Err("refused".to_string())
    );
    assert_eq!(p.url.as_deref(), Some("bad"));
    assert_eq!(p.audio_candidates, vec!["b"]);
}
