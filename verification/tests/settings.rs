use qqmusic::config::{
    debug_dump_qqmusic, ensure_qqmusic_source_enabled, load_qqmusic_source_config,
    read_qqmusic_token, resolve_qqmusic_source_config, save_qqmusic_source_config_to_db, save_qqmusic_token,
};
use qqmusic::dto::{ResolvedQQMusicSourceConfig, SaveQQMusicSourceConfigPayload};
use qqmusic::json::{json_to_string, parse_json};
use qqmusic::lyrics::{
    fetch_qqmusic_lyrics, lyrics_from_json, lyrics_request, read_lyric, text_or_itself,
};
use qqmusic::request::Exchange;

fn payload(enabled: bool, base_url: Option<&str>, token: Option<&str>) -> SaveQQMusicSourceConfigPayload {
    SaveQQMusicSourceConfigPayload {
        enabled,
        base_url: base_url.map(|t| t.to_string()),
        token: token.map(|t| t.to_string()),
    }
}

#[test]
fn credential_is_trimmed_and_never_empty() {
    assert_eq!(read_qqmusic_token(Some(" a=b \n".to_string())), Some("a=b".to_string()));
    assert_eq!(read_qqmusic_token(Some("  ".to_string())), None);
    assert_eq!(read_qqmusic_token(None), None);
    assert_eq!(save_qqmusic_token(" x "), Ok("x".to_string()));
    assert_eq!(
        save_qqmusic_token(" \t"),
        Err("QQ音乐会话凭据为空 / QQ Music session credential is empty.".to_string())
    );
}

#[test]
fn settings_have_defaults() {
    let c = load_qqmusic_source_config(None, &None);
    assert!(!c.enabled);
    assert_eq!(c.base_url, "https://c.y.qq.com");
    assert!(!c.has_token);
    assert_eq!(c.masked_token, "");
}

#[test]
fn settings_are_loaded_and_the_credential_is_masked() {
    let c = load_qqmusic_source_config(Some((1, "u".to_string())), &Some("secret".to_string()));
    assert!(c.enabled && c.has_token);
    assert_eq!(c.base_url, "u");
    assert_eq!(c.masked_token, "••••••••••••");
    assert!(!load_qqmusic_source_config(Some((2, "u".to_string())), &None).enabled);
}

#[test]
fn saved_settings_are_loaded() {
    let s = save_qqmusic_source_config_to_db(payload(true, Some(" https://x.com// "), Some(" t ")));
    assert_eq!(s.enabled, 1);
    assert_eq!(s.base_url, "https://x.com");
    assert_eq!(s.token, Some("t".to_string()));
    let c = load_qqmusic_source_config(Some((s.enabled, s.base_url)), &s.token);
    assert!(c.enabled);
    let r = resolve_qqmusic_source_config(c, s.token).ok().unwrap();
    assert_eq!(r.base_url, "https://x.com");
    assert_eq!(r.token.as_deref(), Some("t"));
}

#[test]
fn saved_settings_fall_back() {
    let s = save_qqmusic_source_config_to_db(payload(false, Some("  "), Some("")));
    assert_eq!(s.enabled, 0);
    assert_eq!(s.base_url, "https://c.y.qq.com");
    assert_eq!(s.token, None);
    let c = load_qqmusic_source_config(Some((s.enabled, s.base_url)), &s.token);
    assert_eq!(
        resolve_qqmusic_source_config(c, None).err(),
        Some("QQ音乐来源未启用 / QQ Music source is not enabled.".to_string())
    );
}

#[test]
fn login_enables_the_source() {
    assert_eq!(
        ensure_qqmusic_source_enabled(None),
        (1, "https://c.y.qq.com".to_string())
    );
    let row = ensure_qqmusic_source_enabled(Some((0, "https://x".to_string())));
    assert_eq!(row, (1, "https://x".to_string()));
    let c = load_qqmusic_source_config(Some(row), &None);
    assert!(resolve_qqmusic_source_config(c, None).is_ok());
}

#[test]
fn report_describes_the_cookie() {
    let text = json_to_string(&debug_dump_qqmusic(
        true,
        Some("uin=o07; qqmusic_key=中K; p_skey=abc".to_string()),
    ));
    assert!(parse_json(&text).is_some());
    for part in [
        r#""config_enabled":true"#,
        r#""token_exists":true"#,
        r#""token_length":37"#,
        r#""contains_qqmusic_key":true"#,
        r#""contains_pt2gguin":false"#,
        r#""uin_str":"7""#,
        r#""uin_num":7"#,
        r#""qqmusic_key_length":4"#,
        r#""qqmusic_key_preview":"中K""#,
        r#""p_skey_length":3"#,
        r#""superkey_length":0"#,
    ] {
        assert!(text.contains(part), "{part} in {text}");
    }
    let none = json_to_string(&debug_dump_qqmusic(false, None));
    assert!(none.contains(r#""token_exists":false"#));
    assert!(none.contains(r#""g_tk":5381"#));
    assert!(none.contains(r#""uin_str":"0""#));
}

#[test]
fn plain_lyrics_stay() {
    assert_eq!(read_lyric("[ti:a]".to_string()), "[ti:a]");
    assert_eq!(read_lyric("[ar:b]".to_string()), "[ar:b]");
    assert_eq!(read_lyric("  ".to_string()), "  ");
    assert_eq!(read_lyric("[00:01]line".to_string()), "[00:01]line");
}

#[test]
fn encoded_lyrics_are_decoded() {
    assert_eq!(read_lyric(" 5L2g5aW9IGx5cmljcw== ".to_string()), "你好 lyrics");
    assert_eq!(read_lyric("//4=".to_string()), "//4=");
    assert_eq!(text_or_itself("t".to_string(), Some(vec![0xe4, 0xbd, 0xa0])), "你");
    assert_eq!(text_or_itself("t".to_string(), Some(vec![0xff])), "t");
    assert_eq!(text_or_itself("t".to_string(), None), "t");
}

#[test]
fn lyrics_answers_are_judged() {
    let json = |t: &str| parse_json(t).unwrap();
    assert_eq!(
        lyrics_from_json(&json(r#"{"code":0,"lyric":"[ti:x]","trans":"//4="}"#)),
        Ok(("[ti:x]".to_string(), "//4=".to_string()))
    );
    assert_eq!(
        lyrics_from_json(&json(r#"{"code":0}"#)),
        Ok((String::new(), String::new()))
    );
    assert_eq!(
        lyrics_from_json(&json(r#"{"code":-1310}"#)),
        Err("QQ音乐歌词 Referer 校验失败 / QQ Music lyrics referer check failed.".to_string())
    );
    assert_eq!(
        lyrics_from_json(&json(r#"{"code":-1901,"lyric":"[ti:x]"}"#)),
        Ok((String::new(), String::new()))
    );
    assert_eq!(
        fetch_qqmusic_lyrics(Exchange::Reply {
            status: 200,
            text: "x".to_string()
        }),
        Err("QQ音乐歌词响应解析失败".to_string())
    );
    assert!(fetch_qqmusic_lyrics(Exchange::NoReply("e".to_string())).is_err());
}

#[test]
fn lyrics_request_asks_for_plain_text() {
    let config = ResolvedQQMusicSourceConfig {
        enabled: true,
        base_url: String::new(),
        token: None,
    };
    let r = lyrics_request(&config, "mid");
    assert_eq!(r.url, "https://c.y.qq.com/lyric/fcgi-bin/fcg_query_lyric_new.fcg");
    assert_eq!(
        r.query,
        vec![
            ("songmid".to_string(), "mid".to_string()),
            ("nobase64".to_string(), "1".to_string()),
            ("format".to_string(), "json".to_string()),
        ]
    );
}
