use qqmusic::login::Answer;
use qqmusic::qr::{
    check_qqmusic_qr, confirm_qqmusic_qr, create_qqmusic_qr, qr_code_request, qr_key,
    qr_poll_request, qr_session_request, PollStep,
};

fn answer(status: u16, set_cookies: &[&str], location: Option<&str>, body: &str) -> Answer {
    Answer {
        status,
        set_cookies: set_cookies.iter().map(|c| c.to_string()).collect(),
        location: location.map(|l| l.to_string()),
        body: body.to_string(),
    }
}

fn status(step: PollStep) -> (String, String) {
    match step {
        PollStep::Done(d) => {
            assert!(d.cookie.is_none());
            (d.status, d.message.unwrap())
        }
        PollStep::Follow { .. } => panic!("no state"),
    }
}

#[test]
fn code_needs_its_key() {
    assert_eq!(
        qr_key("a=1", "b=2").err(),
        Some("无法获取QQ登录二维码密钥 / Cannot get QQ login QR key.".to_string())
    );
    assert!(qr_key("qrsig=", "").is_err());
    let k = qr_key("a=1; pt_login_sig=s", "qrsig=Q=; a=1").ok().unwrap();
    assert_eq!(k.key, "Q=");
    assert_eq!(k.cookies, "a=1; pt_login_sig=s; qrsig=Q=");
    let dto = create_qqmusic_qr(k, &vec![0x89, 0x50, 0x4e, 0x47]);
    assert_eq!(dto.url, "data:image/png;base64,iVBORw==");
    assert_eq!(dto.key, "Q=");
    assert_eq!(dto.cookies, "a=1; pt_login_sig=s; qrsig=Q=");
}

#[test]
fn code_requests_belong_to_the_player() {
    let s = qr_session_request();
    assert!(s.url.contains("pt_3rd_aid=100497308"));
    assert_eq!(s.headers.len(), 8);
    let c = qr_code_request("a=1", "0.5");
    assert_eq!(
        c.url,
        "https://ssl.ptlogin2.qq.com/ptqrshow?appid=716027609&e=2&l=M&s=3&d=72&v=4&t=0.5&daid=383&pt_3rd_aid=100497308"
    );
    assert_eq!(c.headers[9], ("Cookie".to_string(), "a=1".to_string()));
    assert_eq!(c.headers[8].0, "Referer");
}

#[test]
fn poll_request_signs_the_key() {
    let r = qr_poll_request("test_qrsig", "a=1; pt_login_sig=SIG", 1234);
    assert_eq!(
        r.url,
        "https://ssl.ptlogin2.qq.com/ptqrlogin?u1=https%3A%2F%2Fy.qq.com%2F&ptqrtoken=850386917&ptredirect=0&h=1&t=1&g=1&from_ui=1&ptlang=2052&action=0-0-1234&js_ver=20102616&js_type=1&login_sig=SIG&pt_uistyle=40&aid=716027609&daid=383&pt_3rd_aid=100497308&has_onekey=1&"
    );
    assert!(qr_poll_request("k", "", 1).url.contains("&login_sig=&"));
}

#[test]
fn poll_tells_the_states_apart() {
    assert_eq!(
        status(check_qqmusic_qr(answer(200, &[], None, "ptuiCB('66','0','')"))),
        ("waiting".to_string(), "等待扫码 / Waiting for scan.".to_string())
    );
    assert_eq!(
        status(check_qqmusic_qr(answer(200, &[], None, "ptuiCB(\"67\",\"0\")"))).0,
        "scanned"
    );
    assert_eq!(
        status(check_qqmusic_qr(answer(200, &[], None, "ptuiCB(65,'0')"))).0,
        "expired"
    );
    assert_eq!(
        status(check_qqmusic_qr(answer(200, &[], None, "odd"))),
        ("waiting".to_string(), "未知登录状态，继续等待: odd".to_string())
    );
    assert_eq!(
        status(check_qqmusic_qr(answer(302, &[], None, "'0'"))),
        ("waiting".to_string(), "登录重定向但无目标URL，继续等待".to_string())
    );
    assert_eq!(
        status(check_qqmusic_qr(answer(302, &[], Some(""), ""))).0,
        "waiting"
    );
}

#[test]
fn successful_poll_is_followed() {
    match check_qqmusic_qr(answer(200, &["uin=1; Path=/", "b=2"], None, "ptuiCB('0','0','https://x')")) {
        PollStep::Follow { callback, cookies } => {
            assert_eq!(callback, "ptuiCB('0','0','https://x')");
            assert_eq!(cookies, "uin=1; b=2");
        }
        PollStep::Done(_) => panic!("the login succeeded"),
    }
    match check_qqmusic_qr(answer(302, &[], Some("https://y"), "")) {
        PollStep::Follow { callback, cookies } => {
            assert_eq!(callback, "https://y");
            assert_eq!(cookies, "");
        }
        PollStep::Done(_) => panic!("the login succeeded"),
    }
}

#[test]
fn confirmed_login_merges_its_cookies() {
    let d = confirm_qqmusic_qr("a=1; b=2", "b=2; c=3", "c=3; d=4; a=9");
    assert_eq!(d.status, "confirmed");
    assert_eq!(d.cookie.as_deref(), Some("a=1; b=2; c=3; d=4; a=9"));
    assert_eq!(d.message.as_deref(), Some("登录成功 / Login successful."));
}
