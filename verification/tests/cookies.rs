use qqmusic::account::{
    holds_key, resolve_qqmusic_gtk, resolve_qqmusic_uin, resolve_qqmusic_uin_num,
};
use qqmusic::cookies::{
    complete_cookie, cookie_from_set_cookies, extract_cookie_raw, extract_cookie_value,
    extract_qqmusic_signing_key, gather_cookie, jar_holds, live_set_cookie, replace_cookie,
    store_set_cookie, store_set_cookies,
};
use qqmusic::dto::ResolvedQQMusicSourceConfig;
use qqmusic::encoding::qqmusic_gtk;

fn config(token: Option<&str>) -> ResolvedQQMusicSourceConfig {
    ResolvedQQMusicSourceConfig {
        enabled: true,
        base_url: "https://c.y.qq.com".to_string(),
        token: token.map(|t| t.to_string()),
    }
}

fn jar(entries: &[&str]) -> Vec<String> {
    entries.iter().map(|e| e.to_string()).collect()
}

#[test]
fn cookie_values_are_found_by_name() {
    let cookie = "a=1; QM_KEYST=abc ; b=2=3; empty=; empty=x";
    assert_eq!(extract_cookie_raw(cookie, "qm_keyst"), Some("abc".to_string()));
    assert_eq!(extract_cookie_raw(cookie, "b"), Some("2".to_string()));
    assert_eq!(extract_cookie_raw(cookie, "empty"), Some("x".to_string()));
    assert_eq!(extract_cookie_raw(cookie, "c"), None);
    assert_eq!(extract_cookie_raw("", "a"), None);
}

#[test]
fn modern_signing_key_comes_first() {
    assert_eq!(
        extract_qqmusic_signing_key("qqmusic_key=old; qm_keyst=new"),
        Some("new".to_string())
    );
    assert_eq!(
        extract_qqmusic_signing_key("qqmusic_key=old"),
        Some("old".to_string())
    );
    assert_eq!(extract_qqmusic_signing_key("skey=1"), None);
}

#[test]
fn completed_cookie_names_the_key_both_ways() {
    assert_eq!(
        complete_cookie("uin=1; qm_keyst=K"),
        "uin=1; qm_keyst=K; qqmusic_key=K"
    );
    let full = complete_cookie("uin=1; qm_keyst=K");
    assert_eq!(extract_cookie_raw(&full, "qqmusic_key"), Some("K".to_string()));
    assert_eq!(complete_cookie(&full), full);
    assert_eq!(
        complete_cookie("qm_keyst=K; qqmusic_key=L"),
        "qm_keyst=K; qqmusic_key=L"
    );
    assert_eq!(complete_cookie("uin=1"), "uin=1");
}

#[test]
fn account_number_is_found_and_cleaned() {
    assert_eq!(extract_cookie_value("uin=o0123"), Some("123".to_string()));
    assert_eq!(
        extract_cookie_value("pt2gguin=; pt2gguin=o1747846382"),
        Some("1747846382".to_string())
    );
    assert_eq!(
        extract_cookie_value("superuin=o5; uin=o0; pt2gguin=o4"),
        Some("4".to_string())
    );
    assert_eq!(extract_cookie_value("superuin=o5"), Some("5".to_string()));
    assert_eq!(extract_cookie_value("skey=1"), None);
}

#[test]
fn account_number_of_a_configuration() {
    assert_eq!(resolve_qqmusic_uin(&config(None)), "0");
    assert_eq!(resolve_qqmusic_uin(&config(Some("a=b"))), "0");
    assert_eq!(resolve_qqmusic_uin(&config(Some("uin=o042"))), "42");
    assert_eq!(resolve_qqmusic_uin_num(&config(Some("uin=o042"))), 42);
    assert_eq!(resolve_qqmusic_uin_num(&config(Some("uin=abc"))), 0);
    assert_eq!(resolve_qqmusic_uin_num(&config(None)), 0);
}

#[test]
fn request_tokens_prefer_their_keys() {
    let all = config(Some("skey=S; p_skey=P; qm_keyst=Q; lskey=L; p_lskey=M"));
    assert_eq!(resolve_qqmusic_gtk(&all), (qqmusic_gtk("S"), qqmusic_gtk("Q")));
    let fallback = config(Some("lskey=L; p_lskey=M"));
    assert_eq!(
        resolve_qqmusic_gtk(&fallback),
        (qqmusic_gtk(""), qqmusic_gtk("M"))
    );
    assert_eq!(resolve_qqmusic_gtk(&config(None)), (5381, 5381));
}

#[test]
fn keys_of_a_login_are_recognised() {
    assert!(holds_key("p_skey=1"));
    assert!(holds_key("qqmusic_key=1"));
    assert!(!holds_key("skey=1"));
}

#[test]
fn gathering_takes_each_pair_once() {
    let mut j = Vec::new();
    gather_cookie(&mut j, "a=1; b=2;; a=1 ;");
    assert_eq!(j, jar(&["a=1", "b=2"]));
    gather_cookie(&mut j, "b=2; c=3");
    assert_eq!(j, jar(&["a=1", "b=2", "c=3"]));
    let before = j.clone();
    gather_cookie(&mut j, "b=2; c=3");
    assert_eq!(j, before);
}

#[test]
fn set_cookie_replaces_its_name_and_skips_empty_values() {
    let mut j = jar(&["p_skey=old", "uin=1", "p_skey_x=2"]);
    store_set_cookie(&mut j, "p_skey=new; Path=/; Domain=qq.com");
    assert_eq!(j, jar(&["uin=1", "p_skey_x=2", "p_skey=new"]));
    store_set_cookie(&mut j, "p_skey=; Expires=Thu, 01 Jan 1970 00:00:00 GMT");
    assert_eq!(j, jar(&["uin=1", "p_skey_x=2", "p_skey=new"]));
    store_set_cookies(&mut j, &jar(&["uin=2", "novalue", "z=9; Path=/"]));
    assert_eq!(j, jar(&["p_skey_x=2", "p_skey=new", "uin=2", "z=9"]));
    assert!(jar_holds(&j, "uin="));
    assert!(!jar_holds(&j, "skey="));
    replace_cookie(&mut j, "z", "z=1".to_string());
    assert_eq!(j, jar(&["p_skey_x=2", "p_skey=new", "uin=2", "z=1"]));
}

#[test]
fn cookies_of_a_response_become_a_header() {
    assert_eq!(
        cookie_from_set_cookies(&jar(&["a=1; Path=/", " ; x", "b=2"])),
        "a=1; b=2"
    );
}

#[test]
fn live_cookies_have_a_value_and_no_old_date() {
    assert_eq!(
        live_set_cookie("a=b=c; Path=/"),
        Some(("a".to_string(), "b=c".to_string()))
    );
    assert_eq!(live_set_cookie("a=; Path=/"), None);
    assert_eq!(live_set_cookie("a=1970"), None);
    assert_eq!(live_set_cookie("flag; Path=/"), None);
    assert_eq!(live_set_cookie("plain"), None);
}
