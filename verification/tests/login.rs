use qqmusic::login::{
    find_answer_target, follow_qqmusic_login_redirect, login_request, login_result, next_login,
    store_key_from, store_oauth_answer, store_stand_in, Answer, Login, LoginEvent, Stage,
};
use qqmusic::json::parse_json;
use qqmusic::pages::{
    find_authorization_target, find_hidden_fields, find_page_target, login_host, parameter_of,
    resolve_location,
};

fn answer(status: u16, set_cookies: &[&str], location: Option<&str>, body: &str) -> Answer {
    Answer {
        status,
        set_cookies: set_cookies.iter().map(|c| c.to_string()).collect(),
        location: location.map(|l| l.to_string()),
        body: body.to_string(),
    }
}

fn answered(status: u16, set_cookies: &[&str], location: Option<&str>, body: &str) -> LoginEvent {
    LoginEvent::Answered(answer(status, set_cookies, location, body))
}

fn failed() -> LoginEvent {
    LoginEvent::Failed("down".to_string())
}

fn jar(entries: &[&str]) -> Vec<String> {
    entries.iter().map(|e| e.to_string()).collect()
}

fn url(login: &Login) -> String {
    login_request(login).map(|r| r.url).unwrap_or_default()
}

fn header(login: &Login, name: &str) -> Option<String> {
    login_request(login).and_then(|r| {
        r.headers
            .into_iter()
            .find(|(n, _)| n == name)
            .map(|(_, v)| v)
    })
}

#[test]
fn login_begins_where_the_callback_leads() {
    let l = follow_qqmusic_login_redirect("https://a.qq.com/x", "b=2; a=1", "a=1");
    assert_eq!(url(&l), "https://a.qq.com/x");
    assert_eq!(l.jar, jar(&["a=1", "b=2"]));
    assert_eq!(header(&l, "Cookie").as_deref(), Some("a=1; b=2"));
    assert_eq!(header(&l, "Referer").as_deref(), Some("https://y.qq.com/"));
    let cb = "ptuiCB('0','0','https://ptlogin2.qq.com/y','0','ok','me')";
    assert_eq!(
        url(&follow_qqmusic_login_redirect(cb, "", "")),
        "https://ptlogin2.qq.com/y"
    );
    let empty = "ptuiCB('0','0','','0','ok','me')";
    assert_eq!(
        url(&follow_qqmusic_login_redirect(empty, "", "")),
        "https://y.qq.com"
    );
    let zero = "ptuiCB('0','0','0','0','ok','me')";
    assert_eq!(
        url(&follow_qqmusic_login_redirect(zero, "", "")),
        "https://y.qq.com"
    );
    assert_eq!(
        url(&follow_qqmusic_login_redirect("nothing", "", "")),
        "https://y.qq.com"
    );
}

#[test]
fn locations_are_resolved() {
    assert_eq!(resolve_location("https://h.com/a/b", "/c"), "https://h.com/c");
    assert_eq!(resolve_location("https://h.com", "/c"), "https://h.com/c");
    assert_eq!(resolve_location("https://h.com/a", "http://x"), "http://x");
    assert_eq!(resolve_location("https://h.com/a", "rel"), "rel");
}

#[test]
fn pages_lead_on() {
    assert_eq!(
        find_page_target("<script>window.location.href='https://a/b';</script>"),
        Some("https://a/b".to_string())
    );
    assert_eq!(
        find_page_target(r#"<meta content="0;url=https://m/n">"#),
        Some("https://m/n".to_string())
    );
    assert_eq!(
        find_page_target(r#"url=https://m/n> location.replace( "https://js" )"#),
        Some("https://js".to_string())
    );
    assert_eq!(find_page_target("top.location='/rel'"), None);
    assert_eq!(find_page_target("nothing here"), None);
}

#[test]
fn endless_addresses_are_cut_at_a_character() {
    let page = format!("url=http://{}", "中".repeat(300));
    let found = find_page_target(&page).unwrap();
    assert_eq!(found.len(), 499);
    assert!(found.ends_with('中'));
}

#[test]
fn redirects_come_before_pages() {
    assert_eq!(
        find_answer_target("https://h.qq.com/a", &answer(302, &[], Some("/b"), "url=http://c.qq.com>")),
        Some("https://h.qq.com/b".to_string())
    );
    assert_eq!(
        find_answer_target("https://h.qq.com/a", &answer(302, &[], Some(""), "url=http://c.qq.com>")),
        None
    );
    assert_eq!(
        find_answer_target("https://h.qq.com/a", &answer(302, &[], None, "url=http://c.qq.com>")),
        Some("http://c.qq.com".to_string())
    );
    assert_eq!(
        find_answer_target("https://h.qq.com/a", &answer(200, &[], Some("/b"), "")),
        None
    );
}

#[test]
fn parameters_end_at_an_ampersand() {
    assert_eq!(
        parameter_of("x#access_token=T&y", "access_token="),
        Some("T".to_string())
    );
    assert_eq!(parameter_of("x?code=", "code="), Some(String::new()));
    assert_eq!(parameter_of("x", "code="), None);
}

#[test]
fn hidden_fields_are_collected() {
    let page = r#"<form><input type="hidden" name="a" value="1"><input type="text" name="b">
        <input type="hidden" value="3"><input type="hidden" name="c">"#;
    assert_eq!(
        find_hidden_fields(page),
        vec![
            ("a".to_string(), "1".to_string()),
            ("c".to_string(), String::new())
        ]
    );
    assert_eq!(
        find_hidden_fields(r#"<input type="hidden" name="z" value="9""#),
        vec![("z".to_string(), "9".to_string())]
    );
}

#[test]
fn authorization_pages_lead_on() {
    assert_eq!(
        find_authorization_target(r#"location.href = "x"; location.href="https://a""#),
        Some("https://a".to_string())
    );
    assert_eq!(
        find_authorization_target(r#"<meta url=/wx_redirect?x">"#),
        Some("/wx_redirect?x".to_string())
    );
    assert_eq!(
        find_authorization_target(
            r#"<form action="/oauth2.0/authorize"><input type="hidden" name="k" value="v"><input type="hidden" name="l" value="w"></form>"#
        ),
        Some("https://graph.qq.com/oauth2.0/authorize?k=v&l=w".to_string())
    );
    assert_eq!(
        find_authorization_target(r#"<form action="token">"#),
        Some("https://graph.qq.com/token".to_string())
    );
    assert_eq!(find_authorization_target("nothing"), None);
}

#[test]
fn failing_redirect_fails_the_login() {
    let l = follow_qqmusic_login_redirect("https://a.qq.com", "", "");
    let l = next_login(l, answered(302, &[], Some("https://b.qq.com"), ""));
    let l = next_login(l, failed());
    assert_eq!(
        login_result(&l),
        Some(Err("登录重定向请求失败(hop 1): down".to_string()))
    );
    assert!(login_request(&l).is_none());
}

#[test]
fn failing_home_page_fails_the_login() {
    let l = follow_qqmusic_login_redirect("https://a.qq.com", "", "");
    let l = next_login(l, answered(200, &[], None, ""));
    assert_eq!(url(&l), "https://y.qq.com/");
    let l = next_login(l, failed());
    assert_eq!(
        login_result(&l),
        Some(Err("Cookie fetch from y.qq.com failed(hop 0): down".to_string()))
    );
}

#[test]
fn login_with_a_key_ends_at_the_home_page() {
    let l = follow_qqmusic_login_redirect("https://a.qq.com", "", "qrsig=1");
    let l = next_login(
        l,
        answered(302, &["uin=o5; Path=/", "p_skey=P", "p_skey=; Expires=1970"], Some("/n"), ""),
    );
    assert_eq!(url(&l), "https://a.qq.com/n");
    let l = next_login(l, answered(200, &[], None, ""));
    let l = next_login(l, answered(200, &["qqmusic_key=K; Path=/"], None, ""));
    assert_eq!(
        login_result(&l),
        Some(Ok("qrsig=1; uin=o5; p_skey=P; qqmusic_key=K".to_string()))
    );
}

#[test]
fn chains_are_cut() {
    let mut l = follow_qqmusic_login_redirect("https://a.qq.com", "", "c=1");
    for i in 0..10 {
        assert!(matches!(l.stage, Stage::Chain { hop, .. } if hop == i));
        l = next_login(l, answered(302, &[], Some("https://a.qq.com"), ""));
    }
    for i in 0..5 {
        assert!(matches!(l.stage, Stage::Home { hop, .. } if hop == i));
        l = next_login(l, answered(302, &[], Some("https://y.qq.com"), ""));
    }
    assert!(matches!(l.stage, Stage::OAuth { attempt: 0, .. }));
}

fn at_exchange(cookies: &str) -> Login {
    let l = follow_qqmusic_login_redirect("https://a.qq.com", "", cookies);
    let l = next_login(l, answered(200, &[], None, ""));
    next_login(l, answered(200, &[], None, ""))
}

#[test]
fn key_of_the_exchange_ends_the_login() {
    let l = at_exchange("uin=1");
    assert!(url(&l).contains("outCharset"));
    let l = next_login(l, answered(200, &[], None, r#"{"data":{"musickey":"M"}}"#));
    assert!(url(&l).contains("grant_type=authorization_code"));
    let l = next_login(l, failed());
    assert_eq!(
        login_result(&l),
        Some(Ok("uin=1; qqmusic_key=M".to_string()))
    );
}

#[test]
fn keys_are_taken_by_preference() {
    let mut j = jar(&["qqmusic_key=old", "a=1"]);
    store_key_from(
        &mut j,
        &parse_json(r#"{"token":"t","musickey":"m","access_token":""}"#).unwrap(),
    );
    assert_eq!(j, jar(&["a=1", "qqmusic_key=m"]));
    store_oauth_answer(&mut j, r#"{"key":"k"}"#);
    assert_eq!(j, jar(&["a=1", "qqmusic_key=m"]));
    store_oauth_answer(&mut j, r#"{"access_token":"","key":"k","data":{"token":"d"}}"#);
    assert_eq!(j, jar(&["a=1", "qqmusic_key=d"]));
    store_oauth_answer(&mut j, "access_token but no document");
    assert_eq!(j, jar(&["a=1", "qqmusic_key=d"]));
}

#[test]
fn other_cookies_stand_in_for_the_key() {
    let mut j = jar(&["p_skey=P", "superkey=", "superkey=S"]);
    store_stand_in(&mut j);
    assert_eq!(j.last().unwrap(), "qqmusic_key=S");
    let mut o = jar(&["superkey=S", "pt_oauth_token=T"]);
    store_stand_in(&mut o);
    assert_eq!(o.last().unwrap(), "qqmusic_key=T");
    let mut n = jar(&["a=1"]);
    store_stand_in(&mut n);
    assert_eq!(n, jar(&["a=1"]));
}

fn at_authorization(cookies: &str) -> Login {
    let l = at_exchange(cookies);
    let l = next_login(l, failed());
    next_login(l, failed())
}

#[test]
fn login_asks_who_is_logged_in() {
    let l = at_authorization("uin=o0123; p_skey=P");
    let r = login_request(&l).unwrap();
    assert_eq!(r.url, "https://u.y.qq.com/cgi-bin/musicu.fcg");
    assert_eq!(
        r.body.as_deref(),
        Some(
            r#"{"comm":{"ct":24,"cv":0,"format":"json","uin":"123"},"req_1":{"method":"GetLoginInfo","module":"music.UserInfoServer","param":{}}}"#
        )
    );
    assert_eq!(header(&l, "Origin").as_deref(), Some("https://y.qq.com"));
    let l = next_login(l, failed());
    assert!(url(&l).starts_with("https://graph.qq.com/oauth2.0/authorize?"));
    assert_eq!(
        header(&l, "Cookie").as_deref(),
        Some("uin=o0123; p_skey=P; qqmusic_key=P")
    );
    assert_eq!(header(&l, "Referer"), None);
}

#[test]
fn token_of_the_authorization_becomes_the_key() {
    let l = next_login(at_authorization("p_skey=P"), failed());
    let l = next_login(
        l,
        answered(302, &["p_skey=other", "x=1; Path=/"], Some("https://y.qq.com#access_token=T&z"), ""),
    );
    assert_eq!(l.jar, jar(&["p_skey=P", "x=1", "qqmusic_key=T"]));
    assert_eq!(url(&l), "https://y.qq.com#access_token=T&z");
    assert_eq!(header(&l, "Referer").as_deref(), Some("https://graph.qq.com/"));
}

#[test]
fn code_of_the_authorization_is_exchanged() {
    let l = next_login(at_authorization("p_skey=P"), failed());
    let l = next_login(l, answered(302, &[], Some("https://y?code=C&z"), ""));
    assert_eq!(
        url(&l),
        "https://graph.qq.com/oauth2.0/token?grant_type=authorization_code&client_id=100497308&client_secret=unused&code=C&redirect_uri=https%3A%2F%2Fy.qq.com%2Fportal%2Fwx_redirect.html"
    );
    let l = next_login(l, failed());
    assert_eq!(url(&l), "https://y.qq.com/portal/player.html");
    let l = next_login(l, answered(200, &["last=1"], None, ""));
    assert_eq!(
        login_result(&l),
        Some(Ok("p_skey=P; qqmusic_key=P; last=1".to_string()))
    );
}

#[test]
fn authorization_is_followed_and_comes_back() {
    let l = next_login(at_authorization("p_skey=P"), failed());
    let l = next_login(l, answered(302, &[], Some("https://graph.qq.com/fast"), ""));
    assert_eq!(url(&l), "https://graph.qq.com/fast");
    let l = next_login(l, answered(302, &["p_skey=N"], Some("/show"), ""));
    assert_eq!(url(&l), "https://graph.qq.com/show");
    assert_eq!(l.jar, jar(&["qqmusic_key=P", "p_skey=N"]));
    let l = next_login(
        l,
        answered(200, &[], None, r#"access_token=TT&x location.href="https://on.qq.com""#),
    );
    assert_eq!(l.jar, jar(&["p_skey=N", "qqmusic_key=TT"]));
    assert_eq!(url(&l), "https://on.qq.com");
    let l = next_login(l, answered(302, &[], Some("/wx_redirect?code=1"), ""));
    assert_eq!(url(&l), "https://y.qq.com/wx_redirect?code=1");
    let l = next_login(l, answered(200, &["qqmusic_key=Z"], None, ""));
    assert_eq!(l.jar, jar(&["p_skey=N", "qqmusic_key=Z"]));
    let l = next_login(l, failed());
    assert_eq!(
        login_result(&l),
        Some(Ok("p_skey=N; qqmusic_key=Z".to_string()))
    );
}

#[test]
fn login_without_any_cookie_fails() {
    let l = next_login(at_authorization(""), failed());
    let l = next_login(l, failed());
    let l = next_login(l, failed());
    assert_eq!(
        login_result(&l),
        Some(Err(
            "无法获取QQ音乐登录凭据 / Cannot get QQ Music login cookie.".to_string()
        ))
    );
}

#[test]
fn login_ends_within_its_requests() {
    let mut l = follow_qqmusic_login_redirect("https://a.qq.com", "", "p_skey=P");
    let mut n = 0;
    while login_request(&l).is_some() {
        l = next_login(l, answered(302, &[], Some("https://a.qq.com"), ""));
        n += 1;
    }
    assert!(n <= 26);
    assert!(l.jar.iter().any(|e| e.starts_with("p_skey=")));
    assert!(matches!(login_result(&l), Some(Ok(_))));
}

#[test]
fn login_hosts_are_those_of_the_service() {
    for own in [
        "https://qq.com",
        "http://qq.com/",
        "https://y.qq.com",
        "https://ssl.ptlogin2.qq.com/jump?x=http://other.example/",
        "https://y.qq.com:443/a",
        "https://y.qq.com#top",
        "http://graph.qq.com?x",
        "https://Y.QQ.COM/",
        "HTTPS://QQ.com",
        "hTTp://a_b.Qq.cOm/PATH",
    ] {
        assert!(login_host(own), "{}", own);
    }
    for foreign in [
        "",
        "/path",
        "y.qq.com",
        "ftp://y.qq.com/",
        "https://",
        "https:///y.qq.com",
        "https://other.example/",
        "https://other.example/y.qq.com",
        "https://other.example?y.qq.com",
        "https://other.example#.qq.com",
        "https://y.qq.com.other.example/",
        "https://notqq.com/",
        "HTTPS://NOTQQ.COM/",
        "https://y.qq.com@other.example/",
        "https://other.example:80@y.qq.com/",
        "https://other.example\\.qq.com/",
        "https://y.qq.com:x/",
        "https://y qq.com/",
    ] {
        assert!(!login_host(foreign), "{}", foreign);
    }
}

#[test]
fn callback_to_another_host_leads_home() {
    let l = follow_qqmusic_login_redirect("http://other.example/", "", "p_skey=P");
    assert_eq!(url(&l), "https://y.qq.com");
    let cb = "ptuiCB('0','0','https://other.example/y','0','ok','me')";
    assert_eq!(
        url(&follow_qqmusic_login_redirect(cb, "", "p_skey=P")),
        "https://y.qq.com"
    );
}

#[test]
fn answers_do_not_lead_to_another_host() {
    let from = "https://y.qq.com/a";
    assert_eq!(
        find_answer_target(from, &answer(302, &[], Some("https://other.example/"), "")),
        None
    );
    assert_eq!(
        find_answer_target(
            from,
            &answer(302, &[], Some("https://other.example/"), "url=https://y.qq.com/b>")
        ),
        None
    );
    assert_eq!(
        find_answer_target(
            from,
            &answer(200, &[], None, "window.location.href='https://other.example/b'")
        ),
        None
    );
    let l = follow_qqmusic_login_redirect("https://a.qq.com", "", "p_skey=P");
    let l = next_login(l, answered(302, &[], Some("https://other.example/"), ""));
    assert_eq!(url(&l), "https://y.qq.com/");
}

#[test]
fn authorization_does_not_lead_to_another_host() {
    let player = "https://y.qq.com/portal/player.html";
    let l = next_login(at_authorization("p_skey=P"), failed());
    let l = next_login(
        l,
        answered(302, &[], Some("https://other.example/#access_token=T"), ""),
    );
    assert_eq!(url(&l), player);
    assert_eq!(l.jar, jar(&["p_skey=P", "qqmusic_key=T"]));
    let l = next_login(at_authorization("p_skey=P"), failed());
    let l = next_login(l, answered(302, &[], Some("/fast"), ""));
    assert_eq!(url(&l), player);
    for (location, page) in [
        (Some("https://other.example/next"), ""),
        (Some("https://other.example/wx_redirect?code=1"), ""),
        (None, r#"location.href="https://other.example/""#),
    ] {
        let l = next_login(at_authorization("p_skey=P"), failed());
        let l = next_login(l, answered(302, &[], Some("https://graph.qq.com/show"), ""));
        assert_eq!(url(&l), "https://graph.qq.com/show");
        let l = next_login(l, answered(302, &[], location, page));
        assert_eq!(url(&l), player);
    }
}

#[test]
fn values_that_are_set_once_last() {
    let l = follow_qqmusic_login_redirect("https://a.qq.com", "", "qrsig=1; a=0");
    let l = next_login(l, answered(302, &["a=1", "p_skey=P; Path=/", "a=2"], Some("/n"), ""));
    let l = next_login(l, answered(200, &["a=; Path=/"], None, ""));
    let l = next_login(l, answered(200, &["b=3"], None, ""));
    let l = next_login(l, failed());
    let l = next_login(l, failed());
    let l = next_login(l, failed());
    let l = next_login(l, answered(302, &["a=4", "c=5", "c=6"], Some("https://graph.qq.com/s"), ""));
    let l = next_login(l, answered(200, &["d=7", "b=8"], None, ""));
    let l = next_login(l, answered(200, &["e=9"], None, ""));
    assert_eq!(
        login_result(&l),
        Some(Ok(
            "qrsig=1; p_skey=P; a=2; qqmusic_key=P; c=5; d=7; b=8; e=9".to_string()
        ))
    );
}

#[test]
fn hosts_in_capitals_are_followed() {
    let l = follow_qqmusic_login_redirect("https://Y.QQ.COM/", "", "p_skey=P");
    assert_eq!(url(&l), "https://Y.QQ.COM/");
    let l = next_login(l, answered(302, &[], Some("HTTPS://Graph.QQ.com/x"), ""));
    assert_eq!(url(&l), "HTTPS://Graph.QQ.com/x");
}

#[test]
fn target_without_a_web_address_fails_the_login() {
    let cb = "ptuiCB('0','0','foo','0','ok','me')";
    let l = follow_qqmusic_login_redirect(cb, "", "p_skey=P");
    assert!(login_request(&l).is_none());
    assert_eq!(
        login_result(&l),
        Some(Err("登录重定向请求失败(hop 0): builder error".to_string()))
    );
    let l = follow_qqmusic_login_redirect("https://a.qq.com", "", "p_skey=P");
    let l = next_login(l, answered(302, &["a=1"], Some("foo"), ""));
    assert_eq!(l.jar, jar(&["p_skey=P", "a=1"]));
    assert_eq!(
        login_result(&l),
        Some(Err("登录重定向请求失败(hop 1): builder error".to_string()))
    );
    let l = follow_qqmusic_login_redirect("https://a.qq.com", "", "p_skey=P");
    let l = next_login(l, answered(200, &[], None, ""));
    let l = next_login(l, answered(302, &[], Some("ftp://y.qq.com/"), ""));
    assert_eq!(
        login_result(&l),
        Some(Err(
            "Cookie fetch from y.qq.com failed(hop 1): builder error".to_string()
        ))
    );
}

#[test]
fn last_redirect_of_a_chain_is_not_looked_at() {
    let mut l = follow_qqmusic_login_redirect("https://a.qq.com", "", "c=1");
    for _ in 0..9 {
        l = next_login(l, answered(302, &[], Some("https://a.qq.com"), ""));
    }
    l = next_login(l, answered(302, &[], Some("foo"), ""));
    assert!(matches!(l.stage, Stage::Home { hop: 0, .. }));
    for _ in 0..4 {
        l = next_login(l, answered(302, &[], Some("https://y.qq.com"), ""));
    }
    l = next_login(l, answered(302, &[], Some("foo"), ""));
    assert!(matches!(l.stage, Stage::OAuth { attempt: 0, .. }));
}
