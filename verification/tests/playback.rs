use qqmusic::constants::QQMUSIC_QUALITY_MAP;
use qqmusic::dto::ResolvedQQMusicSourceConfig;
use qqmusic::json::{parse_json, Json};
use qqmusic::playback::{
    classify_lowered, classify_qqmusic_no_purl, classify_qqmusic_playurl_reason, clean_purl, clean_sip,
    clear_uin_param, fetch_qqmusic_playable_url, move_to_host, next_playback, playback_request,
    playback_result, quality_chain, rand_guid, should_try_anonymous, song_file,
    take_anonymous_answer, take_answer, PlayStage,
};
use qqmusic::request::Exchange;

fn config(token: Option<&str>) -> ResolvedQQMusicSourceConfig {
    ResolvedQQMusicSourceConfig {
        enabled: true,
        base_url: String::new(),
        token: token.map(|t| t.to_string()),
    }
}

fn json(text: &str) -> Json {
    parse_json(text).unwrap()
}

fn reply(text: &str) -> Exchange {
    Exchange::Reply {
        status: 200,
        text: text.to_string(),
    }
}

fn failed() -> Exchange {
    Exchange::NoReply("down".to_string())
}

fn answer(text: &str) -> (Vec<String>, String) {
    let mut urls = Vec::new();
    let reason = take_answer(&mut urls, "before".to_string(), &json(text));
    (urls, reason)
}

#[test]
fn test_classify_error() {
    assert_eq!(
        classify_qqmusic_playurl_reason("rate_limited"),
        "rate_limited"
    );
    assert_eq!(classify_qqmusic_playurl_reason("412"), "rate_limited");
    assert_eq!(
        classify_qqmusic_playurl_reason("vip required"),
        "vip_required"
    );
    assert_eq!(
        classify_qqmusic_playurl_reason("no copyright"),
        "no_copyright"
    );
    assert_eq!(
        classify_qqmusic_playurl_reason("region restricted"),
        "region_restricted"
    );
    assert_eq!(
        classify_qqmusic_playurl_reason("session expired"),
        "session_expired"
    );
    assert_eq!(
        classify_qqmusic_playurl_reason("sign invalid"),
        "sign_invalid"
    );
    assert_eq!(classify_qqmusic_playurl_reason("timeout"), "timeout");
    assert_eq!(
        classify_qqmusic_playurl_reason("unknown error"),
        "api_failed"
    );
}

#[test]
fn errors_are_classified_in_any_case_and_language() {
    assert_eq!(classify_qqmusic_playurl_reason("VIP Only"), "vip_required");
    assert_eq!(classify_qqmusic_playurl_reason("需要绿钻"), "vip_required");
    assert_eq!(classify_qqmusic_playurl_reason("无版权"), "no_copyright");
    assert_eq!(classify_qqmusic_playurl_reason("地区限制"), "region_restricted");
    assert_eq!(classify_qqmusic_playurl_reason("Removed"), "song_removed");
    assert_eq!(classify_qqmusic_playurl_reason("已下架"), "song_removed");
    assert_eq!(classify_qqmusic_playurl_reason("登录过期"), "session_expired");
    assert_eq!(classify_qqmusic_playurl_reason("签名错误"), "sign_invalid");
    assert_eq!(classify_qqmusic_playurl_reason("请求超时"), "timeout");
    assert_eq!(
        classify_qqmusic_playurl_reason("HTTP 503 vip copyright"),
        "rate_limited"
    );
    assert_eq!(classify_qqmusic_playurl_reason(""), "api_failed");
    assert_eq!(classify_qqmusic_playurl_reason("歌曲已下架 REMOVED"), "song_removed");
    assert_eq!(classify_lowered("歌曲已下架"), "song_removed");
    assert_eq!(classify_lowered("VIP"), "api_failed");
}

#[test]
fn test_quality_map() {
    assert_eq!(QQMUSIC_QUALITY_MAP[0], ("standard", "C400", "m4a"));
    assert_eq!(QQMUSIC_QUALITY_MAP[1], ("higher", "M500", "mp3"));
    assert_eq!(QQMUSIC_QUALITY_MAP[2], ("exhigh", "M800", "mp3"));
    assert_eq!(QQMUSIC_QUALITY_MAP[3], ("lossless", "F000", "flac"));
    assert_eq!(QQMUSIC_QUALITY_MAP[4], ("hires", "RS01", "flac"));
}

#[test]
fn qualities_fall_back() {
    assert_eq!(
        quality_chain("hires"),
        vec!["hires", "lossless", "exhigh", "higher", "standard"]
    );
    assert_eq!(
        quality_chain("lossless"),
        vec!["lossless", "exhigh", "higher", "standard"]
    );
    assert_eq!(quality_chain("exhigh"), vec!["exhigh", "higher", "standard"]);
    assert_eq!(quality_chain("higher"), vec!["higher", "standard"]);
    assert_eq!(quality_chain("standard"), vec!["standard", "higher"]);
    assert_eq!(quality_chain("nonsense"), vec!["standard", "higher"]);
}

#[test]
fn files_are_named_by_quality() {
    assert_eq!(song_file("lossless", "abc", "M800", "mp3"), "F000abc.flac");
    assert_eq!(song_file("standard", "abc", "M800", "mp3"), "C400abc.m4a");
    assert_eq!(song_file("other", "abc", "M800", "mp3"), "M800abc.mp3");
}

#[test]
fn missing_files_are_classified() {
    assert_eq!(
        classify_qqmusic_no_purl(Some(&json(r#"{"errtype":0}"#))),
        "vip_required"
    );
    assert_eq!(
        classify_qqmusic_no_purl(Some(&json(r#"{"errtype":-5}"#))),
        "no_copyright"
    );
    assert_eq!(
        classify_qqmusic_no_purl(Some(&json(r#"{"errtype":"0"}"#))),
        "no_copyright"
    );
    assert_eq!(classify_qqmusic_no_purl(None), "no_copyright");
}

#[test]
fn account_number_is_taken_out_of_an_address() {
    assert_eq!(
        clear_uin_param("C400a.m4a?guid=1&uin=123&vkey=9"),
        "C400a.m4a?guid=1&uin=&vkey=9"
    );
    assert_eq!(clear_uin_param("a?uin=5#frag"), "a?uin=#frag");
    assert_eq!(clear_uin_param("a?uin=5"), "a?uin=");
    assert_eq!(clear_uin_param("uin=5"), "uin=5");
    assert_eq!(clear_uin_param("a?myuin=5"), "a?myuin=5");
    assert_eq!(clear_uin_param("a?uin=1&uin=2"), "a?uin=&uin=");
    let once = clear_uin_param("x?uin=77&a=b");
    assert_eq!(clear_uin_param(&once), once);
    assert_eq!(clear_uin_param("é?uin=1"), "é?uin=");
}

#[test]
fn addresses_are_cleaned() {
    assert_eq!(clean_sip("\u{200b}http://a.qq.com/ //"), "http://a.qq.com");
    assert_eq!(clean_sip("http://a?b"), "http://ab");
    assert_eq!(clean_purl("C4 00中.m4a?k=1&%20"), "C400.m4a?k=1&%20");
}

#[test]
fn answer_gives_an_address_at_each_host() {
    let (urls, reason) = answer(
        r#"{"req_1":{"code":0,"data":{"uin":"1","sip":["http://a.com/","ftp://b","http://c.com"],
            "midurlinfo":[{"purl":"f.m4a?uin=1"}]}}}"#,
    );
    assert_eq!(urls, vec!["http://a.com/f.m4a?uin=1", "http://c.com/f.m4a?uin=1"]);
    assert_eq!(reason, "before");
}

#[test]
fn answer_without_account_loses_the_number() {
    let (urls, _) = answer(
        r#"{"req_1":{"code":0,"data":{"uin":"","sip":[],"midurlinfo":[{"purl":"/f.m4a?uin=1&k=2"}]}}}"#,
    );
    assert_eq!(urls, vec!["http://ws.stream.qqmusic.qq.com/f.m4a?uin=&k=2"]);
}

#[test]
fn answer_with_an_absolute_file() {
    let (urls, _) = answer(
        r#"{"req_1":{"code":0,"data":{"uin":"1","sip":["http://a.com"],"midurlinfo":[{"purl":"http://x/f"}]}}}"#,
    );
    assert_eq!(urls, vec!["http://x/f"]);
}

#[test]
fn known_hosts_are_added() {
    let (urls, _) = answer(
        r#"{"req_1":{"code":0,"data":{"uin":"1","sip":["http://aqqmusic.tc.qq.com/amobile"],
            "midurlinfo":[{"purl":"f"}]}}}"#,
    );
    assert_eq!(
        urls,
        vec![
            "http://aqqmusic.tc.qq.com/amobile/f",
            "http://ws.stream.qqmusic.qq.com/amobile/f",
            "http://dl.stream.qqmusic.qq.com/amobile/f",
            "http://isure.stream.qqmusic.qq.com/amobile/f",
            "http://streamoc.music.tc.qq.com/amobile/f",
        ]
    );
    assert_eq!(
        move_to_host("http://sjy6.stream.qqmusic.qq.com/f", "h"),
        Some("http://h/f".to_string())
    );
    assert_eq!(move_to_host("http://other.com/f", "h"), None);
}

#[test]
fn answers_say_why_there_is_no_address() {
    assert_eq!(answer(r#"{"req_1":{"code":500005}}"#).1, "session_invalid");
    assert_eq!(answer(r#"{"req_1":{"code":-7}}"#).1, "api_code_-7");
    assert_eq!(answer("{}").1, "api_code_-1");
    assert_eq!(answer(r#"{"req_1":{"code":0}}"#).1, "no_data");
    assert_eq!(
        answer(r#"{"req_1":{"code":0,"data":{"midurlinfo":[{"purl":"","errtype":0}]}}}"#).1,
        "vip_required"
    );
    let (urls, reason) = answer(
        r#"{"req_1":{"code":0,"data":{"msg":"x fnameHitCache_404","midurlinfo":[{"purl":"f"}]}}}"#,
    );
    assert!(urls.is_empty());
    assert_eq!(reason, "no_copyright");
}

#[test]
fn repeated_addresses_are_kept_once() {
    let text = r#"{"req_1":{"code":0,"data":{"uin":"1","sip":["http://a.com","http://a.com/"],
        "midurlinfo":[{"purl":"f"}]}}}"#;
    let mut urls = Vec::new();
    let reason = take_answer(&mut urls, "r".to_string(), &json(text));
    assert_eq!(urls, vec!["http://a.com/f"]);
    let reason = take_answer(&mut urls, reason, &json(text));
    assert_eq!(urls, vec!["http://a.com/f"]);
    assert_eq!(reason, "r");
}

#[test]
fn anonymous_answers_give_one_address() {
    let mut urls = Vec::new();
    take_anonymous_answer(
        &mut urls,
        &json(r#"{"req_1":{"code":0,"data":{"sip":["ftp://h/"],"midurlinfo":[{"purl":"f?uin=0"}]}}}"#),
    );
    take_anonymous_answer(
        &mut urls,
        &json(r#"{"req_1":{"code":0,"data":{"midurlinfo":[{"purl":"/g"}]}}}"#),
    );
    take_anonymous_answer(
        &mut urls,
        &json(r#"{"req_1":{"code":0,"data":{"midurlinfo":[{"purl":"http://x"}]}}}"#),
    );
    take_anonymous_answer(&mut urls, &json(r#"{"req_1":{"code":1}}"#));
    take_anonymous_answer(
        &mut urls,
        &json(r#"{"req_1":{"code":0,"data":{"msg":"fnameHitCache_404","midurlinfo":[{"purl":"z"}]}}}"#),
    );
    assert_eq!(
        urls,
        vec![
            "ftp://h/f?uin=0",
            "http://ws.stream.qqmusic.qq.com/g",
            "http://x"
        ]
    );
}

#[test]
fn device_number_has_ten_digits_at_most() {
    assert_eq!(rand_guid(1700000000123), "123");
    assert_eq!(rand_guid(1712345678901), "2345678901");
    assert_eq!(rand_guid(5), "5");
}

#[test]
fn every_failure_leads_to_an_anonymous_request() {
    for reason in [
        "session_invalid",
        "server_not_authenticated",
        "api_code_7",
        "vip_required",
        "no_copyright",
        "request_failed",
        "no_data",
        "unknown",
    ] {
        assert!(should_try_anonymous(reason));
    }
    assert!(!should_try_anonymous("timeout"));
}

#[test]
fn signed_request_names_file_and_account() {
    let c = config(Some("uin=o123; qm_keyst=K"));
    let p = fetch_qqmusic_playable_url("m", Some("hires"), 10000000008);
    let r = playback_request(&p, &c, 0).unwrap();
    assert_eq!(
        r.url,
        "https://u.y.qq.com/cgi-bin/musicu.fcg?format=json&data=%7B%22comm%22%3A%7B%22ct%22%3A24%2C%22cv%22%3A0%2C%22format%22%3A%22json%22%2C%22uin%22%3A%22123%22%7D%2C%22req_1%22%3A%7B%22method%22%3A%22CgiGetVkey%22%2C%22module%22%3A%22vkey.GetVkeyServer%22%2C%22param%22%3A%7B%22filename%22%3A%5B%22RS01m.flac%22%5D%2C%22guid%22%3A%228%22%2C%22loginflag%22%3A1%2C%22platform%22%3A%2220%22%2C%22songmid%22%3A%5B%22m%22%5D%2C%22songtype%22%3A%5B0%5D%2C%22uin%22%3A%22123%22%7D%7D%7D"
    );
    assert!(r.headers.iter().any(|(n, _)| n == "Cookie"));
}

#[test]
fn search_collects_over_the_chain() {
    let c = config(Some("uin=1; qm_keyst=K"));
    let mut p = fetch_qqmusic_playable_url("m", None, 7);
    assert!(playback_request(&p, &c, 0).unwrap().url.contains("C400m.m4a"));
    p = next_playback(
        p,
        reply(r#"{"req_1":{"code":0,"data":{"uin":"1","sip":["http://a.com"],"midurlinfo":[{"purl":"one"}]}}}"#),
    );
    assert!(playback_request(&p, &c, 0).unwrap().url.contains("M500m.mp3"));
    p = next_playback(
        p,
        reply(r#"{"req_1":{"code":0,"data":{"uin":"1","sip":["http://a.com"],"midurlinfo":[{"purl":"two"}]}}}"#),
    );
    assert!(matches!(p.stage, PlayStage::Done));
    assert!(playback_request(&p, &c, 0).is_none());
    let dto = playback_result(p);
    assert_eq!(dto.song_id, "m");
    assert_eq!(dto.url.as_deref(), Some("http://a.com/one"));
    assert_eq!(dto.audio_candidates, vec!["http://a.com/two"]);
    assert!(!dto.unavailable);
    assert_eq!(dto.reason, None);
}

#[test]
fn search_falls_back_to_anonymous_requests() {
    let c = config(Some("uin=1; qm_keyst=K"));
    let mut p = fetch_qqmusic_playable_url("m", Some("standard"), 7);
    p = next_playback(p, failed());
    p = next_playback(p, reply(r#"{"req_1":{"code":500005}}"#));
    assert!(matches!(p.stage, PlayStage::Anonymous { index: 0 }));
    let r = playback_request(&p, &c, 20000000003).unwrap();
    assert!(r.headers.iter().all(|(n, _)| n != "Cookie"));
    assert!(r.url.contains("C400m.m4a"));
    assert!(r.url.contains("%22guid%22%3A%223%22"));
    assert!(r.url.contains("%22loginflag%22%3A0"));
    p = next_playback(p, failed());
    assert!(playback_request(&p, &c, 1).unwrap().url.contains("M500m.mp3"));
    p = next_playback(
        p,
        reply(r#"{"req_1":{"code":0,"data":{"midurlinfo":[{"purl":"free"}]}}}"#),
    );
    let dto = playback_result(p);
    assert_eq!(
        dto.url.as_deref(),
        Some("http://ws.stream.qqmusic.qq.com/free")
    );
}

#[test]
fn search_that_finds_nothing_says_why() {
    let mut p = fetch_qqmusic_playable_url("m", Some("higher"), 7);
    p = next_playback(p, failed());
    p = next_playback(
        p,
        reply(r#"{"req_1":{"code":0,"data":{"midurlinfo":[{"errtype":0}]}}}"#),
    );
    p = next_playback(p, failed());
    p = next_playback(p, failed());
    assert!(matches!(p.stage, PlayStage::Done));
    let dto = playback_result(p);
    assert!(dto.unavailable);
    assert_eq!(dto.url, None);
    assert_eq!(dto.reason.as_deref(), Some("vip_required"));
    assert!(dto.audio_candidates.is_empty());
}
