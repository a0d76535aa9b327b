use qqmusic::dto::ResolvedQQMusicSourceConfig;
use qqmusic::json::{parse_json, Json};
use qqmusic::request::Exchange;
use qqmusic::session::{
    connection_request, probe_request, test_qqmusic_connection, verify_qqmusic_session, Probe,
    SessionStep,
};
use qqmusic::vip::{
    fetch_qqmusic_user_profile, fetch_qqmusic_vip_status, login_info_request, make_known_vip,
    profile_request, try_get_vip_from_login_info, vip_from_answer, vip_from_login_info,
    vip_request, with_vip, ProfileStep, VipStep,
};

fn config(token: Option<&str>) -> ResolvedQQMusicSourceConfig {
    ResolvedQQMusicSourceConfig {
        enabled: true,
        base_url: String::new(),
        token: token.map(|t| t.to_string()),
    }
}

fn json(text: &str) -> Json {
    parse_json(text).unwrap()
}

fn reply(text: &str) -> Exchange {
    Exchange::Reply {
        status: 200,
        text: text.to_string(),
    }
}

fn failed() -> Exchange {
    Exchange::NoReply("down".to_string())
}

fn done(step: SessionStep) -> Result<(String, String), String> {
    match step {
        SessionStep::Done(r) => r,
        SessionStep::Ask(_) => panic!("not done"),
    }
}

#[test]
fn probes_are_asked_in_order() {
    let c = config(Some("uin=5"));
    assert!(probe_request(&c, Probe::UserInfo).url.contains("%22vec_uin%22%3A%5B5%5D"));
    assert!(probe_request(&c, Probe::Playlists).url.contains("GetUserPlayList"));
    assert!(probe_request(&c, Probe::LoginInfo).url.contains("GetLoginInfo"));
    assert!(matches!(
        verify_qqmusic_session(&c, Probe::UserInfo, failed()),
        SessionStep::Ask(Probe::Playlists)
    ));
    assert!(matches!(
        verify_qqmusic_session(&c, Probe::Playlists, reply(r#"{"req_1":{"code":1}}"#)),
        SessionStep::Ask(Probe::LoginInfo)
    ));
}

#[test]
fn valid_session_gives_account_and_name() {
    let c = config(Some("uin=5"));
    let named = r#"{"req_1":{"code":0,"data":{"map":{"5":{"nick":"Me"}}}}}"#;
    assert_eq!(
        done(verify_qqmusic_session(&c, Probe::UserInfo, reply(named))),
        Ok(("5".to_string(), "Me".to_string()))
    );
    let bare = r#"{"req_1":{"code":0}}"#;
    assert_eq!(
        done(verify_qqmusic_session(&c, Probe::UserInfo, reply(bare))),
        Ok(("5".to_string(), "QQ音乐用户".to_string()))
    );
    assert_eq!(
        done(verify_qqmusic_session(&c, Probe::Playlists, reply(bare))),
        Ok(("5".to_string(), "QQ音乐用户".to_string()))
    );
    let login = r#"{"req_1":{"code":0,"data":{"user_baseinfo":{"nick":"You","pic":"p"}}}}"#;
    assert_eq!(
        done(verify_qqmusic_session(&c, Probe::LoginInfo, reply(login))),
        Ok(("5".to_string(), "You".to_string()))
    );
}

#[test]
fn no_cookie_confirms_a_session() {
    for token in ["uin=5; superkey=S; p_skey=P; qm_keyst=K", "uin=5"] {
        for reply in [failed(), reply(r#"{"req_1":{"code":500005}}"#)] {
            assert_eq!(
                done(verify_qqmusic_session(&config(Some(token)), Probe::LoginInfo, reply)),
                Err("QQ音乐验证失败(uin=5)，所有验证方式均失败 / All verification methods failed.".to_string())
            );
        }
    }
    assert_eq!(
        done(verify_qqmusic_session(&config(None), Probe::LoginInfo, failed())),
        Err("QQ音乐验证失败(uin=0)，所有验证方式均失败 / All verification methods failed.".to_string())
    );
}

#[test]
fn connection_is_judged_by_status() {
    assert_eq!(
        test_qqmusic_connection(Ok(204)),
        Ok("Connected. QQ音乐来源已就绪。 / QQ Music source is ready.".to_string())
    );
    assert_eq!(
        test_qqmusic_connection(Ok(302)),
        Err("QQ音乐返回异常状态码 302 / QQ Music returned status 302".to_string())
    );
    assert_eq!(
        test_qqmusic_connection(Err("dns".to_string())),
        Err("无法连接QQ音乐 / Cannot reach QQ Music: dns".to_string())
    );
    assert_eq!(connection_request().query.len(), 5);
}

#[test]
fn membership_levels() {
    let cases = [
        (1, false, Some("green"), "绿钻会员 / Green VIP.", true),
        (2, true, Some("green_deluxe"), "豪华绿钻 / Deluxe Green VIP.", true),
        (3, false, Some("super"), "超级会员 / Super VIP.", true),
        (0, true, Some("green"), "绿钻会员 / Green VIP.", true),
        (7, false, None, "非会员 / Non-member.", true),
        (0, false, None, "非会员 / Non-member.", false),
        (-1, false, None, "非会员 / Non-member.", false),
    ];
    for (t, mark, level, message, member) in cases {
        let v = make_known_vip(t, mark);
        assert_eq!(v.level.as_deref(), level);
        assert_eq!(v.message, message);
        assert_eq!(v.is_member, member);
        assert!(v.membership_known);
    }
}

#[test]
fn membership_needs_a_login() {
    let v = vip_request(&config(None)).err().unwrap();
    assert_eq!(v.message, "未登录 / Not logged in.");
    assert!(!v.is_member && !v.membership_known);
    assert!(vip_request(&config(Some("uin=5")))
        .ok()
        .unwrap()
        .url
        .contains("get_user_baseinfo"));
    assert!(login_info_request(&config(Some("uin=5"))).url.contains("GetLoginInfo"));
}

fn vip_of(step: VipStep) -> (bool, bool, String, bool) {
    match step {
        VipStep::Done(v) => (v.is_member, v.membership_known, v.message, false),
        VipStep::AskLoginInfo { otherwise: v } => (v.is_member, v.membership_known, v.message, true),
    }
}

#[test]
fn membership_is_read_from_the_entry_of_the_account() {
    let c = config(Some("uin=5"));
    for entry in [
        r#"{"vipType":3}"#,
        r#"{"viptype":3}"#,
        r#"{"vipLevel":3}"#,
        r#"{"superVipLevel":3}"#,
        r#"{"baseInfo":{"vipLevel":3}}"#,
        r#"{"info":{"viptype":3}}"#,
        r#"{"vipInfo":{"vipType":3}}"#,
    ] {
        let text = format!(r#"{{"req_1":{{"code":0,"data":{{"map":{{"1":{{}},"5":{entry}}}}}}}}}"#);
        let (member, known, message, asks) = vip_of(vip_from_answer(&c, &json(&text)));
        assert!(member && known && !asks);
        assert_eq!(message, "超级会员 / Super VIP.");
    }
    for entry in [
        r#"{"isVip":true}"#,
        r#"{"isVip":2}"#,
        r#"{"baseInfo":{"isVip":true}}"#,
    ] {
        let text = format!(r#"{{"req_1":{{"code":9,"data":{{"map":{{"8":{entry}}}}}}}}}"#);
        let (member, _, message, asks) = vip_of(vip_from_answer(&c, &json(&text)));
        assert!(member && !asks);
        assert_eq!(message, "绿钻会员 / Green VIP.");
    }
}

#[test]
fn membership_is_asked_for_again_where_none_is_shown() {
    let c = config(Some("uin=5; qm_keyst=K"));
    let none = r#"{"req_1":{"code":0,"data":{"map":{"5":{"vipType":0}}}}}"#;
    assert_eq!(
        vip_of(vip_from_answer(&c, &json(none))),
        (false, true, "非会员 / Non-member.".to_string(), true)
    );
    let refused = r#"{"req_1":{"code":500005}}"#;
    assert_eq!(
        vip_of(fetch_qqmusic_vip_status(&c, reply(refused))),
        (
            false,
            false,
            "已登录，VIP状态未知 / Logged in, VIP status unknown.".to_string(),
            true
        )
    );
    assert_eq!(
        vip_of(fetch_qqmusic_vip_status(&config(Some("uin=5")), reply(refused))),
        (
            false,
            false,
            "无法获取VIP状态 / Cannot get VIP status.".to_string(),
            true
        )
    );
}

#[test]
fn failed_request_claims_no_membership() {
    assert_eq!(
        vip_of(fetch_qqmusic_vip_status(&config(Some("uin=5; p_skey=P")), failed())),
        (
            false,
            false,
            "已登录，VIP状态未知 / Logged in, VIP status unknown.".to_string(),
            false
        )
    );
    assert_eq!(
        vip_of(fetch_qqmusic_vip_status(&config(Some("uin=5")), failed())),
        (
            false,
            false,
            "VIP状态查询失败 / VIP status query failed.".to_string(),
            false
        )
    );
}

#[test]
fn login_info_shows_members_alone() {
    for data in [
        r#"{"vipType":2}"#,
        r#"{"userVipInfo":{"vipType":2}}"#,
        r#"{"vipInfo":{"vipType":2}}"#,
        r#"{"user_baseinfo":{"viptype":2}}"#,
    ] {
        let text = format!(r#"{{"req_1":{{"code":0,"data":{data}}}}}"#);
        assert_eq!(
            vip_from_login_info(&json(&text)).unwrap().level.as_deref(),
            Some("green_deluxe")
        );
    }
    let green = r#"{"req_1":{"code":0,"data":{"isGreenVip":true}}}"#;
    assert!(vip_from_login_info(&json(green)).is_some());
    let no = r#"{"req_1":{"code":0,"data":{"isVip":false}}}"#;
    assert!(vip_from_login_info(&json(no)).is_none());
    let refused = r#"{"req_1":{"code":1,"data":{"isVip":true}}}"#;
    assert!(vip_from_login_info(&json(refused)).is_none());
    let otherwise = make_known_vip(0, false);
    assert!(try_get_vip_from_login_info(otherwise, reply(green)).is_member);
    let otherwise = make_known_vip(0, false);
    assert!(!try_get_vip_from_login_info(otherwise, failed()).is_member);
}

#[test]
fn profile_is_read() {
    let c = config(Some("uin=5"));
    let text = r#"{"req_1":{"data":{"map":{"5":{"nick":"outer","baseInfo":{"nickname":"N","avatar":"A"}}}}}}"#;
    match fetch_qqmusic_user_profile(&c, reply(text)) {
        ProfileStep::AskVip(p) => {
            assert!(p.logged_in);
            assert_eq!(p.nickname.as_deref(), Some("N"));
            assert_eq!(p.avatar_url.as_deref(), Some("A"));
            assert_eq!(p.user_id.as_deref(), Some("5"));
            let full = with_vip(p, make_known_vip(1, false));
            assert!(full.vip.unwrap().is_member);
            assert_eq!(full.nickname.as_deref(), Some("N"));
        }
        ProfileStep::Done(_) => panic!("a described user has a membership to ask for"),
    }
    let plain = r#"{"req_1":{"data":{"map":{"5":{"nick":""}}}}}"#;
    match fetch_qqmusic_user_profile(&c, reply(plain)) {
        ProfileStep::AskVip(p) => {
            assert_eq!(p.nickname.as_deref(), Some("QQ音乐用户"));
            assert_eq!(
                p.avatar_url.as_deref(),
                Some("https://q.qlogo.cn/g?b=qq&nk=5&s=100")
            );
        }
        ProfileStep::Done(_) => panic!("a described user has a membership to ask for"),
    }
}

#[test]
fn profile_without_description() {
    let c = config(Some("uin=5"));
    match fetch_qqmusic_user_profile(&c, reply("{}")) {
        ProfileStep::Done(p) => {
            assert!(p.logged_in);
            assert_eq!(p.user_id.as_deref(), Some("5"));
            assert!(p.vip.is_none());
        }
        ProfileStep::AskVip(_) => panic!("nothing to ask for"),
    }
    match fetch_qqmusic_user_profile(&c, failed()) {
        ProfileStep::Done(p) => assert!(!p.logged_in && p.user_id.is_none()),
        ProfileStep::AskVip(_) => panic!("nothing to ask for"),
    }
    assert!(!profile_request(&config(None)).err().unwrap().logged_in);
    assert!(profile_request(&c).is_ok());
}
