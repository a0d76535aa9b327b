use qqmusic::dto::ResolvedQQMusicSourceConfig;
use qqmusic::json::{json_to_string, object_body, parse_json, put_text, Json};
use qqmusic::request::{
    build_qqmusic_comm, qq_login_browser_headers, qqmusic_default_headers, read_json,
    read_json_anon, read_text, text_request, Exchange,
};
use qqmusic::songs::song_metadata_request;

fn config(token: Option<&str>) -> ResolvedQQMusicSourceConfig {
    ResolvedQQMusicSourceConfig {
        enabled: true,
        base_url: String::new(),
        token: token.map(|t| t.to_string()),
    }
}

fn reply(status: u16, text: &str) -> Exchange {
    Exchange::Reply {
        status,
        text: text.to_string(),
    }
}

fn header<'a>(headers: &'a [(String, String)], name: &str) -> Option<&'a str> {
    headers
        .iter()
        .find(|(n, _)| n == name)
        .map(|(_, v)| v.as_str())
}

#[test]
fn json_request_carries_its_body_in_the_query() {
    let r = song_metadata_request(&config(None), "abc");
    assert_eq!(
        r.url,
        "https://u.y.qq.com/cgi-bin/musicu.fcg?format=json&data=%7B%22comm%22%3A%7B%22ct%22%3A24%2C%22cv%22%3A0%2C%22format%22%3A%22json%22%2C%22uin%22%3A%220%22%7D%2C%22req_1%22%3A%7B%22method%22%3A%22get_song_detail%22%2C%22module%22%3A%22music.pf_song_detail_svr%22%2C%22param%22%3A%7B%22song_mid%22%3A%22abc%22%7D%7D%7D"
    );
    assert!(r.query.is_empty());
    assert_eq!(header(&r.headers, "Cookie"), None);
    assert_eq!(header(&r.headers, "Origin"), Some("https://y.qq.com"));
}

#[test]
fn json_request_completes_its_cookie() {
    let r = song_metadata_request(&config(Some("qm_keyst=K")), "abc");
    assert_eq!(
        header(&r.headers, "Cookie"),
        Some("qm_keyst=K; qqmusic_key=K")
    );
}

#[test]
fn text_request_adds_headers_and_cookie() {
    let extra = vec![("Referer".to_string(), "https://a".to_string())];
    let r = text_request(
        &config(Some("c=1")),
        "https://x",
        vec![("w".to_string(), "q".to_string())],
        &extra,
    );
    assert_eq!(r.url, "https://x");
    assert_eq!(r.query, vec![("w".to_string(), "q".to_string())]);
    let names: Vec<&str> = r.headers.iter().map(|(n, _)| n.as_str()).collect();
    assert_eq!(
        names,
        vec!["Referer", "User-Agent", "Accept", "Referer", "Cookie"]
    );
    assert_eq!(r.headers[3].1, "https://a");
    assert_eq!(r.headers[4].1, "c=1");
}

#[test]
fn headers_are_those_of_a_browser() {
    assert_eq!(qqmusic_default_headers().len(), 3);
    let login = qq_login_browser_headers();
    assert_eq!(login.len(), 8);
    assert_eq!(header(&login, "Sec-Fetch-User"), Some("?1"));
    assert_eq!(header(&login, "Upgrade-Insecure-Requests"), Some("1"));
}

#[test]
fn comm_names_the_account() {
    assert_eq!(
        json_to_string(&build_qqmusic_comm(&config(Some("uin=o7")))),
        r#"{"ct":24,"cv":0,"format":"json","uin":"7"}"#
    );
}

#[test]
fn replies_are_told_apart() {
    assert_eq!(read_text(reply(200, "ok")), Ok("ok".to_string()));
    assert_eq!(
        read_text(Exchange::NoReply("gone".to_string())),
        Err("QQ音乐请求失败 / QQ Music request failed: gone".to_string())
    );
    assert_eq!(
        read_text(Exchange::Unreadable("torn".to_string())),
        Err("QQ音乐响应读取失败 / Failed to read QQ Music response: torn".to_string())
    );
    assert_eq!(
        read_text(reply(412, "ok")),
        Err("rate_limited: 请求过于频繁，请稍后再试 / Rate limited, please try later.".to_string())
    );
    assert_eq!(
        read_text(reply(200, "  <!DOCTYPE html>")),
        Err("QQ音乐需要网页验证 / QQ Music requires web verification.".to_string())
    );
    assert_eq!(
        read_text(reply(200, "\n<html>")),
        Err("QQ音乐需要网页验证 / QQ Music requires web verification.".to_string())
    );
}

#[test]
fn json_replies_are_told_apart() {
    assert!(read_json(reply(200, "{}")).is_ok());
    assert_eq!(
        read_json(reply(503, "{}")).err(),
        Some("rate_limited: 请求过于频繁，请稍后再试 / Rate limited.".to_string())
    );
    assert!(read_json_anon(reply(503, "{}")).is_ok());
    assert_eq!(
        read_json(reply(200, "{")).err(),
        Some("QQ音乐 JSON 解析失败 / Failed to parse QQ Music JSON: {".to_string())
    );
    assert_eq!(
        read_json_anon(reply(200, "<html>")).err(),
        Some("QQ音乐需要网页验证 / QQ Music requires web verification.".to_string())
    );
    assert_eq!(
        read_json_anon(Exchange::NoReply("gone".to_string())).err(),
        Some("QQ音乐请求失败 / QQ Music request failed: gone".to_string())
    );
    assert_eq!(
        read_json(Exchange::Unreadable("torn".to_string())).err(),
        Some("QQ音乐响应读取失败 / Failed to read QQ Music response: torn".to_string())
    );
}

#[test]
fn documents_are_read_as_they_are_written() {
    let parsed = parse_json(r#"{"b":[1,-2,1.5,true,null],"a":"x中"}"#);
    match parsed {
        Some(Json::Object(members)) => {
            assert_eq!(members.len(), 2);
            assert_eq!(members[0].0, "a");
            assert!(matches!(&members[0].1, Json::Text(t) if t == "x中"));
            assert_eq!(members[1].0, "b");
            match &members[1].1 {
                Json::Array(items) => {
                    assert!(matches!(items[0], Json::Unsigned(1)));
                    assert!(matches!(items[1], Json::Negative(-2)));
                    assert!(matches!(items[2], Json::Fraction(_)));
                    assert!(matches!(items[3], Json::Bool(true)));
                    assert!(matches!(items[4], Json::Null));
                }
                _ => panic!("no array"),
            }
        }
        _ => panic!("no object"),
    }
    assert!(parse_json("nonsense").is_none());
}

#[test]
fn objects_are_written_by_name_and_the_later_member_stays() {
    let mut members = Vec::new();
    put_text(&mut members, "b", "1");
    put_text(&mut members, "歌", "2");
    put_text(&mut members, "a", "3");
    put_text(&mut members, "b", "4");
    assert_eq!(
        json_to_string(&object_body(members)),
        r#"{"a":"3","b":"4","歌":"2"}"#
    );
    assert_eq!(json_to_string(&object_body(Vec::new())), "{}");
}
