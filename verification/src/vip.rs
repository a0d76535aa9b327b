//! The membership and the profile of the user.
use vstd::prelude::*;
use crate::account::{self, holds_key};
use crate::constants::QQMUSIC_MUSICU_URL;
use crate::dto::{
    ProfileView,
    QQMusicUserProfileDto,
    QQMusicVipStatusDto,
    ResolvedQQMusicSourceConfig,
    VipView,
};
use crate::json::{self, Doc, Json};
use crate::request::{
    self,
    musicu_request,
    read_answer_code,
    read_answer_data,
    read_json,
    Exchange,
    ExchangeView,
    Request,
};
use crate::text::{self, concat3, decimal_text};

verus! {

// ---------------------------------------------------------------------------
// Memberships
// ---------------------------------------------------------------------------
/// A membership that is not known, and is therefore not claimed.
pub open spec fn unknown_vip(message: Seq<char>) -> VipView {
    VipView { is_member: false, level: None, message, membership_known: false }
}

/// A membership that is not known.
fn make_unknown_vip(message: &str) -> (r: QQMusicVipStatusDto)
    ensures
        r@ == unknown_vip(message@),
{
    QQMusicVipStatusDto {
        is_member: false,
        level: None,
        message: message.to_string(),
        membership_known: false,
    }
}

/// The membership that a type and a mark say.
pub open spec fn known_vip(vip_type: i64, is_vip: bool) -> VipView {
    VipView {
        is_member: vip_type > 0 || is_vip,
        level: if vip_type == 1 {
            Some("green"@)
        } else if vip_type == 2 {
            Some("green_deluxe"@)
        } else if vip_type == 3 {
            Some("super"@)
        } else if is_vip {
            Some("green"@)
        } else {
            None
        },
        message: if vip_type == 1 {
            "绿钻会员 / Green VIP."@
        } else if vip_type == 2 {
            "豪华绿钻 / Deluxe Green VIP."@
        } else if vip_type == 3 {
            "超级会员 / Super VIP."@
        } else if is_vip {
            "绿钻会员 / Green VIP."@
        } else {
            "非会员 / Non-member."@
        },
        membership_known: true,
    }
}

/// The membership that a type and a mark say.
pub fn make_known_vip(vip_type: i64, is_vip: bool) -> (r: QQMusicVipStatusDto)
    ensures
        r@ == known_vip(vip_type, is_vip),
{
    let (level, message): (Option<String>, String) = if vip_type == 1 {
        (Some("green".to_string()), "绿钻会员 / Green VIP.".to_string())
    } else if vip_type == 2 {
        (Some("green_deluxe".to_string()), "豪华绿钻 / Deluxe Green VIP.".to_string())
    } else if vip_type == 3 {
        (Some("super".to_string()), "超级会员 / Super VIP.".to_string())
    } else if is_vip {
        (Some("green".to_string()), "绿钻会员 / Green VIP.".to_string())
    } else {
        (None, "非会员 / Non-member.".to_string())
    };
    QQMusicVipStatusDto {
        is_member: vip_type > 0 || is_vip,
        level,
        message,
        membership_known: true,
    }
}

// ---------------------------------------------------------------------------
// Reading answers
// ---------------------------------------------------------------------------
/// The integer under a name.
pub open spec fn number_in(d: Option<Doc>, name: Seq<char>) -> Option<i64> {
    json::signed_in(json::member(d, name))
}

/// The truth value under a name.
pub open spec fn mark_in(d: Option<Doc>, name: Seq<char>) -> Option<bool> {
    json::bool_in(json::member(d, name))
}

/// The integer under a name.
fn read_number(value: Option<&Json>, name: &str) -> (r: Option<i64>)
    ensures
        r == number_in(json::opt_doc(value), name@),
{
    json::as_i64(json::get(value, name))
}

/// The truth value under a name.
fn read_mark(value: Option<&Json>, name: &str) -> (r: Option<bool>)
    ensures
        r == mark_in(json::opt_doc(value), name@),
{
    json::as_bool(json::get(value, name))
}

/// The first of two integers that is there.
fn number_or(a: Option<i64>, b: Option<i64>) -> (r: Option<i64>)
    ensures
        r == json::or(a, b),
{
    match a {
        Some(_) => a,
        None => b,
    }
}

/// The first of two truth values that is there.
fn mark_or(a: Option<bool>, b: Option<bool>) -> (r: Option<bool>)
    ensures
        r == json::or(a, b),
{
    match a {
        Some(_) => a,
        None => b,
    }
}

/// The membership type in a part of an entry, under any of its three names.
pub open spec fn type_in(d: Option<Doc>) -> Option<i64> {
    json::or(
        json::or(number_in(d, "vipType"@), number_in(d, "viptype"@)),
        number_in(d, "vipLevel"@),
    )
}

/// The membership type in a part of an entry.
fn read_type(value: Option<&Json>) -> (r: Option<i64>)
    ensures
        r == type_in(json::opt_doc(value)),
{
    number_or(
        number_or(read_number(value, "vipType"), read_number(value, "viptype")),
        read_number(value, "vipLevel"),
    )
}

/// The membership type of the entry of an account: in the entry itself, else in
/// its parts `baseInfo`, `info` and `vipInfo`.
pub open spec fn entry_type(entry: Option<Doc>) -> i64 {
    let part = json::member(entry, "vipInfo"@);
    json::or_else(
        json::or(
            json::or(
                json::or(
                    json::or(type_in(entry), number_in(entry, "superVipLevel"@)),
                    type_in(json::member(entry, "baseInfo"@)),
                ),
                type_in(json::member(entry, "info"@)),
            ),
            json::or(number_in(part, "vipType"@), number_in(part, "viptype"@)),
        ),
        0,
    )
}

/// The membership type of the entry of an account.
fn read_entry_type(entry: Option<&Json>) -> (r: i64)
    ensures
        r == entry_type(json::opt_doc(entry)),
{
    let part: Option<&Json> = json::get(entry, "vipInfo");
    let own: Option<i64> = number_or(read_type(entry), read_number(entry, "superVipLevel"));
    let base: Option<i64> = number_or(own, read_type(json::get(entry, "baseInfo")));
    let info: Option<i64> = number_or(base, read_type(json::get(entry, "info")));
    let vip: Option<i64> = number_or(read_number(part, "vipType"), read_number(part, "viptype"));
    match number_or(info, vip) {
        Some(n) => n,
        None => 0,
    }
}

/// The membership mark of the entry of an account, as a truth value or as a number.
pub open spec fn entry_mark(entry: Option<Doc>) -> bool {
    let as_number = match number_in(entry, "isVip"@) {
        Some(n) => Some(n > 0),
        None => None,
    };
    json::or_else(
        json::or(
            json::or(mark_in(entry, "isVip"@), as_number),
            mark_in(json::member(entry, "baseInfo"@), "isVip"@),
        ),
        false,
    )
}

/// The membership mark of the entry of an account.
fn read_entry_mark(entry: Option<&Json>) -> (r: bool)
    ensures
        r == entry_mark(json::opt_doc(entry)),
{
    let as_number: Option<bool> = match read_number(entry, "isVip") {
        Some(n) => Some(n > 0),
        None => None,
    };
    let own: Option<bool> = mark_or(read_mark(entry, "isVip"), as_number);
    match mark_or(own, read_mark(json::get(entry, "baseInfo"), "isVip")) {
        Some(b) => b,
        None => false,
    }
}

/// The entry of an account in an answer, else the first entry there is.
pub open spec fn account_entry(d: Doc, uin: Seq<char>) -> Option<Doc> {
    let map = json::member(request::answer_data(d), "map"@);
    json::or(json::member(map, uin), json::first_member(map))
}

/// The entry of an account in an answer.
fn find_account_entry<'a>(value: &'a Json, uin: &str) -> (r: Option<&'a Json>)
    ensures
        json::opt_doc(r) == account_entry(value@, uin@),
{
    let map: Option<&'a Json> = json::get(read_answer_data(value), "map");
    let own: Option<&'a Json> = json::get(map, uin);
    if own.is_some() {
        own
    } else {
        json::get_first_member(map)
    }
}

// ---------------------------------------------------------------------------
// The membership, step by step
// ---------------------------------------------------------------------------
/// What comes after the answer on the account.
pub enum VipStep {
    /// The membership.
    Done(QQMusicVipStatusDto),
    /// The question who is logged in, and the membership where its answer shows none.
    AskLoginInfo { otherwise: QQMusicVipStatusDto },
}

/// What a `VipStep` means.
pub enum VipStepView {
    Done(VipView),
    AskLoginInfo { otherwise: VipView },
}

impl View for VipStep {
    type V = VipStepView;

    open spec fn view(&self) -> VipStepView {
        match *self {
            VipStep::Done(v) => VipStepView::Done(v@),
            VipStep::AskLoginInfo { otherwise } => VipStepView::AskLoginInfo {
                otherwise: otherwise@,
            },
        }
    }
}

/// The first request for a membership; none where nobody is logged in, with the
/// membership of that case.
pub fn vip_request(config: &ResolvedQQMusicSourceConfig) -> (r: Result<
    Request,
    QQMusicVipStatusDto,
>)
    ensures
        match r {
            Ok(q) => account::uin_num_of(config@.token) != 0 && q@ == request::json_request_of(
                config@.token,
                QQMUSIC_MUSICU_URL@,
                request::user_info_doc(config@.token),
            ),
            Err(v) => account::uin_num_of(config@.token) == 0 && v@ == unknown_vip(
                "未登录 / Not logged in."@,
            ),
        },
{
    if account::resolve_qqmusic_uin_num(config) == 0 {
        return Err(make_unknown_vip("未登录 / Not logged in."));
    }
    Ok(musicu_request(config, &request::user_info_body(config)))
}

/// What the answer on the account leads to.
pub open spec fn vip_in_answer(token: Option<Seq<char>>, d: Doc) -> VipStepView {
    let code = request::answer_code(d);
    let entry = account_entry(d, account::uin_of(token));
    match entry {
        Some(_) => {
            let vip = known_vip(entry_type(entry), entry_mark(entry));
            if code == 0 && !vip.is_member {
                VipStepView::AskLoginInfo { otherwise: vip }
            } else {
                VipStepView::Done(vip)
            }
        },
        None => VipStepView::AskLoginInfo {
            otherwise: if code != 0 && account::has_key(account::cookie_of(token)) {
                unknown_vip("已登录，VIP状态未知 / Logged in, VIP status unknown."@)
            } else {
                unknown_vip("无法获取VIP状态 / Cannot get VIP status."@)
            },
        },
    }
}

/// What the answer on the account leads to.
pub fn vip_from_answer(config: &ResolvedQQMusicSourceConfig, value: &Json) -> (r: VipStep)
    ensures
        r@ == vip_in_answer(config@.token, value@),
{
    let code: i64 = read_answer_code(value);
    let uin: String = account::resolve_qqmusic_uin(config);
    let entry: Option<&Json> = find_account_entry(value, uin.as_str());
    if entry.is_some() {
        let vip: QQMusicVipStatusDto = make_known_vip(
            read_entry_type(entry),
            read_entry_mark(entry),
        );
        if code == 0 && !vip.is_member {
            return VipStep::AskLoginInfo { otherwise: vip };
        }
        return VipStep::Done(vip);
    }
    let cookie: String = account::token_text(config);
    let otherwise: QQMusicVipStatusDto = if code != 0 && holds_key(cookie.as_str()) {
        make_unknown_vip("已登录，VIP状态未知 / Logged in, VIP status unknown.")
    } else {
        make_unknown_vip("无法获取VIP状态 / Cannot get VIP status.")
    };
    VipStep::AskLoginInfo { otherwise }
}

/// What the request on the account leads to.
pub open spec fn vip_next(token: Option<Seq<char>>, x: ExchangeView) -> VipStepView {
    match request::json_outcome(x) {
        Ok(d) => vip_in_answer(token, d),
        Err(_) => VipStepView::Done(
            if account::has_key(account::cookie_of(token)) {
                unknown_vip("已登录，VIP状态未知 / Logged in, VIP status unknown."@)
            } else {
                unknown_vip("VIP状态查询失败 / VIP status query failed."@)
            },
        ),
    }
}

/// Goes on after the request on the account.
pub fn fetch_qqmusic_vip_status(config: &ResolvedQQMusicSourceConfig, x: Exchange) -> (r: VipStep)
    ensures
        r@ == vip_next(config@.token, x@),
{
    match read_json(x) {
        Ok(value) => vip_from_answer(config, &value),
        Err(_) => {
            let cookie: String = account::token_text(config);
            if holds_key(cookie.as_str()) {
                VipStep::Done(
                    make_unknown_vip("已登录，VIP状态未知 / Logged in, VIP status unknown."),
                )
            } else {
                VipStep::Done(make_unknown_vip("VIP状态查询失败 / VIP status query failed."))
            }
        },
    }
}

/// The membership type in the data of the answer who is logged in.
pub open spec fn login_type(data: Option<Doc>) -> i64 {
    let base = json::member(data, "user_baseinfo"@);
    json::or_else(
        json::or(
            json::or(
                json::or(
                    json::or(
                        type_in(data),
                        number_in(json::member(data, "userVipInfo"@), "vipType"@),
                    ),
                    number_in(json::member(data, "vipInfo"@), "vipType"@),
                ),
                number_in(base, "vipType"@),
            ),
            number_in(base, "viptype"@),
        ),
        0,
    )
}

/// The membership mark in the data of the answer who is logged in.
pub open spec fn login_mark(data: Option<Doc>) -> bool {
    json::or_else(
        json::or(
            json::or(mark_in(data, "isVip"@), mark_in(data, "isGreenVip"@)),
            mark_in(json::member(data, "user_baseinfo"@), "isVip"@),
        ),
        false,
    )
}

/// The membership that the answer who is logged in shows. An answer that shows
/// none leaves it open: the fields may be missing.
pub open spec fn vip_in_login_info(d: Doc) -> Option<VipView> {
    let data = request::answer_data(d);
    let vip = known_vip(login_type(data), login_mark(data));
    if request::answer_code(d) == 0 && data is Some && vip.is_member {
        Some(vip)
    } else {
        None
    }
}

/// The membership that the answer who is logged in shows.
pub fn vip_from_login_info(value: &Json) -> (r: Option<QQMusicVipStatusDto>)
    ensures
        match r {
            Some(v) => vip_in_login_info(value@) == Some(v@),
            None => vip_in_login_info(value@) is None,
        },
{
    if read_answer_code(value) != 0 {
        return None;
    }
    let data: Option<&Json> = read_answer_data(value);
    if data.is_none() {
        return None;
    }
    let base: Option<&Json> = json::get(data, "user_baseinfo");
    let own: Option<i64> = number_or(
        read_type(data),
        read_number(json::get(data, "userVipInfo"), "vipType"),
    );
    let vip: Option<i64> = number_or(own, read_number(json::get(data, "vipInfo"), "vipType"));
    let more: Option<i64> = number_or(
        number_or(vip, read_number(base, "vipType")),
        read_number(base, "viptype"),
    );
    let vip_type: i64 = match more {
        Some(n) => n,
        None => 0,
    };
    let mark: Option<bool> = mark_or(
        mark_or(read_mark(data, "isVip"), read_mark(data, "isGreenVip")),
        read_mark(base, "isVip"),
    );
    let is_vip: bool = match mark {
        Some(b) => b,
        None => false,
    };
    let found: QQMusicVipStatusDto = make_known_vip(vip_type, is_vip);
    if found.is_member {
        Some(found)
    } else {
        None
    }
}

/// The membership after the question who is logged in.
pub open spec fn vip_after_login_info(otherwise: VipView, x: ExchangeView) -> VipView {
    match request::json_outcome(x) {
        Ok(d) => json::or_else(vip_in_login_info(d), otherwise),
        Err(_) => otherwise,
    }
}

/// The membership after the question who is logged in.
pub fn try_get_vip_from_login_info(otherwise: QQMusicVipStatusDto, x: Exchange) -> (r:
    QQMusicVipStatusDto)
    ensures
        r@ == vip_after_login_info(otherwise@, x@),
{
    match read_json(x) {
        Ok(value) => match vip_from_login_info(&value) {
            Some(v) => v,
            None => otherwise,
        },
        Err(_) => otherwise,
    }
}

/// The request who is logged in.
pub fn login_info_request(config: &ResolvedQQMusicSourceConfig) -> (r: Request)
    ensures
        r@ == request::json_request_of(
            config@.token,
            QQMUSIC_MUSICU_URL@,
            request::login_info_doc(config@.token),
        ),
{
    musicu_request(config, &request::login_info_body(config))
}

/// The membership after both answers, where the second is asked for.
pub open spec fn vip_status(
    token: Option<Seq<char>>,
    user_info: ExchangeView,
    login_info: ExchangeView,
) -> VipView {
    match vip_next(token, user_info) {
        VipStepView::Done(v) => v,
        VipStepView::AskLoginInfo { otherwise } => vip_after_login_info(otherwise, login_info),
    }
}

/// A level is given to members alone, and only where the membership is known.
pub proof fn law_level_means_member(
    token: Option<Seq<char>>,
    user_info: ExchangeView,
    login_info: ExchangeView,
)
    ensures
        ({
            let v = vip_status(token, user_info, login_info);
            v.level is Some ==> v.is_member && v.membership_known
        }),
{
}

/// A membership counts as known only where an answer has an entry for an account
/// or says that its owner is a member.
pub proof fn law_vip_is_honest(
    token: Option<Seq<char>>,
    user_info: ExchangeView,
    login_info: ExchangeView,
)
    ensures
        vip_status(token, user_info, login_info).membership_known ==> {
            ||| request::json_outcome(user_info) matches Ok(d) && account_entry(
                d,
                account::uin_of(token),
            ) is Some
            ||| request::json_outcome(login_info) matches Ok(d) && vip_in_login_info(d) is Some
        },
{
}

/// A membership that is not known is never claimed, whatever cookies there are.
pub proof fn law_unknown_is_no_member(
    token: Option<Seq<char>>,
    user_info: ExchangeView,
    login_info: ExchangeView,
)
    ensures
        !vip_status(token, user_info, login_info).membership_known ==> !vip_status(
            token,
            user_info,
            login_info,
        ).is_member,
{
}

// ---------------------------------------------------------------------------
// The profile
// ---------------------------------------------------------------------------
/// The profile of nobody.
pub open spec fn no_profile() -> ProfileView {
    ProfileView { logged_in: false, nickname: None, user_id: None, avatar_url: None, vip: None }
}

/// The profile of nobody.
fn make_no_profile() -> (r: QQMusicUserProfileDto)
    ensures
        r@ == no_profile(),
{
    QQMusicUserProfileDto {
        logged_in: false,
        nickname: None,
        user_id: None,
        avatar_url: None,
        vip: None,
    }
}

/// The picture of an account that has none of its own.
pub open spec fn default_avatar(uin: u64) -> Seq<char> {
    "https://q.qlogo.cn/g?b=qq&nk="@ + text::decimal(uin as nat) + "&s=100"@
}

/// The picture of an account that has none of its own.
fn make_default_avatar(uin: u64) -> (r: String)
    ensures
        r@ == default_avatar(uin),
{
    let number: String = decimal_text(uin as u128);
    concat3("https://q.qlogo.cn/g?b=qq&nk=", number.as_str(), "&s=100")
}

/// What the answer on the account leads to: a profile that wants its membership,
/// or one without any.
pub enum ProfileStep {
    Done(QQMusicUserProfileDto),
    AskVip(QQMusicUserProfileDto),
}

/// What a `ProfileStep` means.
pub enum ProfileStepView {
    Done(ProfileView),
    AskVip(ProfileView),
}

impl View for ProfileStep {
    type V = ProfileStepView;

    open spec fn view(&self) -> ProfileStepView {
        match *self {
            ProfileStep::Done(p) => ProfileStepView::Done(p@),
            ProfileStep::AskVip(p) => ProfileStepView::AskVip(p@),
        }
    }
}

/// The first request for a profile; none where nobody is logged in, with the
/// profile of that case.
pub fn profile_request(config: &ResolvedQQMusicSourceConfig) -> (r: Result<
    Request,
    QQMusicUserProfileDto,
>)
    ensures
        match r {
            Ok(q) => account::uin_num_of(config@.token) != 0 && q@ == request::json_request_of(
                config@.token,
                QQMUSIC_MUSICU_URL@,
                request::user_info_doc(config@.token),
            ),
            Err(p) => account::uin_num_of(config@.token) == 0 && p@ == no_profile(),
        },
{
    if account::resolve_qqmusic_uin_num(config) == 0 {
        return Err(make_no_profile());
    }
    Ok(musicu_request(config, &request::user_info_body(config)))
}

/// The part of an answer that describes the user: the `baseInfo` of its first
/// entry, or that entry itself.
pub open spec fn profile_info(d: Doc) -> Option<Doc> {
    let entry = json::first_member(json::member(request::answer_data(d), "map"@));
    json::or(json::member(entry, "baseInfo"@), entry)
}

/// What the answer on the account leads to.
pub open spec fn profile_in_answer(uin: u64, d: Doc) -> ProfileStepView {
    let id = Some(text::decimal(uin as nat));
    match profile_info(d) {
        Some(info) => ProfileStepView::AskVip(
            ProfileView {
                logged_in: true,
                nickname: Some(
                    json::or_else(
                        json::first_filled(Some(info), seq!["nick"@, "nickname"@]),
                        "QQ音乐用户"@,
                    ),
                ),
                user_id: id,
                avatar_url: Some(
                    json::or_else(
                        json::first_filled(Some(info), seq!["pic"@, "avatar"@]),
                        default_avatar(uin),
                    ),
                ),
                vip: None,
            },
        ),
        None => ProfileStepView::Done(
            ProfileView {
                logged_in: true,
                nickname: Some("QQ音乐用户"@),
                user_id: id,
                avatar_url: Some(default_avatar(uin)),
                vip: None,
            },
        ),
    }
}

/// What the answer on the account leads to.
pub fn profile_from_answer(uin: u64, value: &Json) -> (r: ProfileStep)
    ensures
        r@ == profile_in_answer(uin, value@),
{
    let entry: Option<&Json> = json::get_first_member(json::get(read_answer_data(value), "map"));
    let base: Option<&Json> = json::get(entry, "baseInfo");
    let info: Option<&Json> = if base.is_some() {
        base
    } else {
        entry
    };
    let user_id: Option<String> = Some(decimal_text(uin as u128));
    if info.is_none() {
        return ProfileStep::Done(
            QQMusicUserProfileDto {
                logged_in: true,
                nickname: Some("QQ音乐用户".to_string()),
                user_id,
                avatar_url: Some(make_default_avatar(uin)),
                vip: None,
            },
        );
    }
    let names: Vec<&str> = vec!["nick", "nickname"];
    let pictures: Vec<&str> = vec!["pic", "avatar"];
    proof {
        assert(json::name_views(names@) =~= seq!["nick"@, "nickname"@]);
        assert(json::name_views(pictures@) =~= seq!["pic"@, "avatar"@]);
    }
    let nickname: String = match json::first_text(info, &names) {
        Some(t) => t,
        None => "QQ音乐用户".to_string(),
    };
    let avatar_url: String = match json::first_text(info, &pictures) {
        Some(t) => t,
        None => make_default_avatar(uin),
    };
    ProfileStep::AskVip(
        QQMusicUserProfileDto {
            logged_in: true,
            nickname: Some(nickname),
            user_id,
            avatar_url: Some(avatar_url),
            vip: None,
        },
    )
}

/// What the request on the account leads to.
pub open spec fn profile_next(token: Option<Seq<char>>, x: ExchangeView) -> ProfileStepView {
    match request::json_outcome(x) {
        Ok(d) => profile_in_answer(account::uin_num_of(token), d),
        Err(_) => ProfileStepView::Done(no_profile()),
    }
}

/// Goes on after the request on the account.
pub fn fetch_qqmusic_user_profile(config: &ResolvedQQMusicSourceConfig, x: Exchange) -> (r:
    ProfileStep)
    ensures
        r@ == profile_next(config@.token, x@),
{
    match read_json(x) {
        Ok(value) => profile_from_answer(account::resolve_qqmusic_uin_num(config), &value),
        Err(_) => ProfileStep::Done(make_no_profile()),
    }
}

/// The profile with its membership.
pub fn with_vip(profile: QQMusicUserProfileDto, vip: QQMusicVipStatusDto) -> (r:
    QQMusicUserProfileDto)
    ensures
        r@ == (ProfileView { vip: Some(vip@), ..profile@ }),
{
    QQMusicUserProfileDto { vip: Some(vip), ..profile }
}

/// A profile names its user exactly where somebody is logged in, and has a
/// picture then.
pub proof fn law_profile_is_complete(token: Option<Seq<char>>, x: ExchangeView)
    ensures
        ({
            let p = match profile_next(token, x) {
                ProfileStepView::Done(p) => p,
                ProfileStepView::AskVip(p) => p,
            };
            &&& p.logged_in <==> request::json_outcome(x) is Ok
            &&& p.logged_in <==> p.nickname is Some
            &&& p.logged_in <==> p.avatar_url is Some
            &&& p.logged_in ==> p.user_id == Some(
                text::decimal(account::uin_num_of(token) as nat),
            )
        }),
{
}

// ---------------------------------------------------------------------------
// What holds of memberships
// ---------------------------------------------------------------------------
/// A type above zero or a mark makes a member. The types one, two and three have
/// levels of their own, whatever the mark says; another type has none, and a mark
/// alone is that of the lowest.
pub proof fn law_type_gives_level(vip_type: i64, is_vip: bool)
    ensures
        ({
            let v = known_vip(vip_type, is_vip);
            &&& v.membership_known
            &&& v.is_member <==> vip_type > 0 || is_vip
            &&& vip_type == 1 ==> v.level == Some("green"@) && v.message
                == "绿钻会员 / Green VIP."@
            &&& vip_type == 2 ==> v.level == Some("green_deluxe"@) && v.message
                == "豪华绿钻 / Deluxe Green VIP."@
            &&& vip_type == 3 ==> v.level == Some("super"@) && v.message
                == "超级会员 / Super VIP."@
            &&& !(1 <= vip_type <= 3) && is_vip ==> v.level == Some("green"@) && v.message
                == "绿钻会员 / Green VIP."@
            &&& !(1 <= vip_type <= 3) && !is_vip ==> v.level is None && v.message
                == "非会员 / Non-member."@
        }),
{
}

/// Where the type of a membership may stand in the entry of an account, in the order
/// in which the places count.
pub open spec fn type_places(entry: Option<Doc>) -> Seq<(Option<Doc>, Seq<char>)> {
    let base = json::member(entry, "baseInfo"@);
    let info = json::member(entry, "info"@);
    let part = json::member(entry, "vipInfo"@);
    seq![
        (entry, "vipType"@),
        (entry, "viptype"@),
        (entry, "vipLevel"@),
        (entry, "superVipLevel"@),
        (base, "vipType"@),
        (base, "viptype"@),
        (base, "vipLevel"@),
        (info, "vipType"@),
        (info, "viptype"@),
        (info, "vipLevel"@),
        (part, "vipType"@),
        (part, "viptype"@),
    ]
}

/// Where the type of a membership may stand in the answer who is logged in, in the
/// order in which the places count.
pub open spec fn login_type_places(data: Option<Doc>) -> Seq<(Option<Doc>, Seq<char>)> {
    let base = json::member(data, "user_baseinfo"@);
    seq![
        (data, "vipType"@),
        (data, "viptype"@),
        (data, "vipLevel"@),
        (json::member(data, "userVipInfo"@), "vipType"@),
        (json::member(data, "vipInfo"@), "vipType"@),
        (base, "vipType"@),
        (base, "viptype"@),
    ]
}

/// The integer `n` stands at the place `i`, and none stands at a place before it.
pub open spec fn first_integer(
    places: Seq<(Option<Doc>, Seq<char>)>,
    i: int,
    n: i64,
) -> bool {
    0 <= i < places.len() && json::has_integer(places[i].0, places[i].1, n) && forall|j: int|
        0 <= j < i ==> json::has_no_integer((#[trigger] places[j]).0, places[j].1)
}

proof fn lemma_integers(places: Seq<(Option<Doc>, Seq<char>)>)
    ensures
        forall|j: int|
            0 <= j < places.len() ==> match json::signed_in(
                json::member((#[trigger] places[j]).0, places[j].1),
            ) {
                Some(n) => json::has_integer(places[j].0, places[j].1, n),
                None => json::has_no_integer(places[j].0, places[j].1),
            },
{
    assert forall|j: int| 0 <= j < places.len() implies match json::signed_in(
        json::member((#[trigger] places[j]).0, places[j].1),
    ) {
        Some(n) => json::has_integer(places[j].0, places[j].1, n),
        None => json::has_no_integer(places[j].0, places[j].1),
    } by {
        json::lemma_integer(places[j].0, places[j].1);
    }
}

/// The type of a membership is the first integer among its places, and zero where
/// there is none.
pub proof fn law_type_is_first_of_its_places(d: Option<Doc>, i: int, n: i64)
    ensures
        first_integer(type_places(d), i, n) ==> entry_type(d) == n,
        (forall|j: int|
            0 <= j < 12 ==> json::has_no_integer(
                (#[trigger] type_places(d)[j]).0,
                type_places(d)[j].1,
            )) ==> entry_type(d) == 0,
        first_integer(login_type_places(d), i, n) ==> login_type(d) == n,
        (forall|j: int|
            0 <= j < 7 ==> json::has_no_integer(
                (#[trigger] login_type_places(d)[j]).0,
                login_type_places(d)[j].1,
            )) ==> login_type(d) == 0,
{
    let p = type_places(d);
    let q = login_type_places(d);
    lemma_integers(p);
    lemma_integers(q);
    assert(p[0] == (d, "vipType"@) && p[1] == (d, "viptype"@) && p[2] == (d, "vipLevel"@) && p[3]
        == (d, "superVipLevel"@));
    assert(p[4].1 == "vipType"@ && p[5].1 == "viptype"@ && p[6].1 == "vipLevel"@);
    assert(p[7].1 == "vipType"@ && p[8].1 == "viptype"@ && p[9].1 == "vipLevel"@);
    assert(p[10].1 == "vipType"@ && p[11].1 == "viptype"@);
    assert(q[0] == (d, "vipType"@) && q[1] == (d, "viptype"@) && q[2] == (d, "vipLevel"@));
    assert(q[3].1 == "vipType"@ && q[4].1 == "vipType"@ && q[5].1 == "vipType"@ && q[6].1
        == "viptype"@);
}

/// The mark of a membership is that of the entry, as a truth value or as a number, and
/// that of its part `baseInfo` where the entry has none.
pub proof fn law_mark_is_read(entry: Option<Doc>, b: bool, n: i64)
    ensures
        json::member(entry, "isVip"@) == Some(Doc::Bool(b)) ==> entry_mark(entry) == b,
        json::has_integer(entry, "isVip"@, n) ==> entry_mark(entry) == (n > 0),
        json::member(entry, "isVip"@) is None && json::member(
            json::member(entry, "baseInfo"@),
            "isVip"@,
        ) == Some(Doc::Bool(b)) ==> entry_mark(entry) == b,
        json::member(entry, "isVip"@) is None && json::member(
            json::member(entry, "baseInfo"@),
            "isVip"@,
        ) is None ==> !entry_mark(entry),
        json::member(entry, "isVip"@) == Some(Doc::Bool(b)) ==> login_mark(entry) == b,
        json::member(entry, "isVip"@) is None && json::member(entry, "isGreenVip"@) == Some(
            Doc::Bool(b),
        ) ==> login_mark(entry) == b,
        json::member(entry, "isVip"@) is None && json::member(entry, "isGreenVip"@) is None
            && json::member(json::member(entry, "user_baseinfo"@), "isVip"@) == Some(Doc::Bool(b))
            ==> login_mark(entry) == b,
        json::member(entry, "isVip"@) is None && json::member(entry, "isGreenVip"@) is None
            && json::member(json::member(entry, "user_baseinfo"@), "isVip"@) is None ==> !login_mark(
            entry,
        ),
{
}

/// The entry of the account in the answer on the account: its own, and the first one
/// where it has none of its own.
pub open spec fn own_entry(token: Option<Seq<char>>, d: Doc, entry: Doc) -> bool {
    let map = json::member(json::member(json::member(Some(d), "req_1"@), "data"@), "map"@);
    ||| json::member(map, account::uin_of(token)) == Some(entry)
    ||| json::member(map, account::uin_of(token)) is None && (map matches Some(Doc::Object(m))
        && m.len() > 0 && m[0].1 == entry)
}

/// The membership is the one that the entry of the account says. One that it denies in
/// an answer of the code zero is asked about once more, and what that answer says of
/// a member counts; a refusal stays where it says nothing.
pub proof fn law_membership_is_of_the_account(
    token: Option<Seq<char>>,
    user_info: ExchangeView,
    login_info: ExchangeView,
    d: Doc,
    entry: Doc,
)
    requires
        request::json_outcome(user_info) == Ok::<Doc, Seq<char>>(d),
        own_entry(token, d, entry),
    ensures
        ({
            let said = known_vip(entry_type(Some(entry)), entry_mark(Some(entry)));
            let v = vip_status(token, user_info, login_info);
            &&& said.is_member ==> v == said
            &&& !json::has_integer(json::member(Some(d), "req_1"@), "code"@, 0) ==> v == said
            &&& request::json_outcome(login_info) is Err ==> v == said
            &&& v.membership_known
            &&& v == said || (v.is_member && request::json_outcome(login_info) is Ok)
        }),
{
    json::lemma_integer(json::member(Some(d), "req_1"@), "code"@);
}

/// The answer who is logged in shows a membership exactly where its code is zero and
/// its type or its mark says so; then it counts, where it is asked for.
pub proof fn law_login_info_shows_members(d: Doc, otherwise: VipView, x: ExchangeView)
    requires
        request::json_outcome(x) == Ok::<Doc, Seq<char>>(d),
    ensures
        ({
            let part = json::member(Some(d), "req_1"@);
            let data = json::member(part, "data"@);
            let said = known_vip(login_type(data), login_mark(data));
            &&& json::has_integer(part, "code"@, 0) && data is Some && (login_type(data) > 0
                || login_mark(data)) ==> vip_after_login_info(otherwise, x) == said
            &&& !json::has_integer(part, "code"@, 0) || data is None || (login_type(data) <= 0
                && !login_mark(data)) ==> vip_after_login_info(otherwise, x) == otherwise
        }),
{
    json::lemma_integer(json::member(Some(d), "req_1"@), "code"@);
}

/// Without an entry the membership is unknown until the answer who is logged in shows
/// one; without any answer it is unknown.
pub proof fn law_missing_entry_is_unknown(
    token: Option<Seq<char>>,
    user_info: ExchangeView,
    login_info: ExchangeView,
    d: Doc,
)
    ensures
        request::json_outcome(user_info) is Err ==> !vip_status(
            token,
            user_info,
            login_info,
        ).membership_known,
        request::json_outcome(user_info) == Ok::<Doc, Seq<char>>(d) && (forall|entry: Doc|
            !#[trigger] own_entry(token, d, entry)) && request::json_outcome(login_info) is Err
            ==> !vip_status(token, user_info, login_info).membership_known,
        request::json_outcome(user_info) == Ok::<Doc, Seq<char>>(d) && (forall|entry: Doc|
            !#[trigger] own_entry(token, d, entry)) ==> vip_next(token, user_info) is AskLoginInfo,
        request::json_outcome(user_info) == Ok::<Doc, Seq<char>>(d) && (forall|entry: Doc|
            !#[trigger] own_entry(token, d, entry)) && request::json_outcome(login_info) is Err
            ==> vip_status(token, user_info, login_info).message == (if request::answer_code(d) != 0
            && account::has_key(account::cookie_of(token)) {
            "已登录，VIP状态未知 / Logged in, VIP status unknown."@
        } else {
            "无法获取VIP状态 / Cannot get VIP status."@
        }),
{
    if let Some(entry) = account_entry(d, account::uin_of(token)) {
        assert(own_entry(token, d, entry));
    }
}

// ---------------------------------------------------------------------------
// What holds of profiles
// ---------------------------------------------------------------------------
/// A profile has the name and the picture of the first entry of the answer, or of its
/// part `baseInfo`, under either of their names, and general ones where they are no
/// texts or empty; its number is that of the account.
pub proof fn law_profile_is_read(
    token: Option<Seq<char>>,
    x: ExchangeView,
    d: Doc,
    entries: Seq<(Seq<char>, Doc)>,
    t: Seq<char>,
)
    requires
        request::json_outcome(x) == Ok::<Doc, Seq<char>>(d),
    ensures
        ({
            let map = json::member(json::member(json::member(Some(d), "req_1"@), "data"@), "map"@);
            let uin = account::uin_num_of(token);
            let general = "https://q.qlogo.cn/g?b=qq&nk="@ + text::decimal(uin as nat)
                + "&s=100"@;
            &&& map == Some(Doc::Object(entries)) && entries.len() > 0 ==> profile_next(
                token,
                x,
            ) is AskVip && {
                let p = profile_next(token, x)->AskVip_0;
                let entry = Some(entries[0].1);
                let base = json::member(entry, "baseInfo"@);
                let info = if base is Some {
                    base
                } else {
                    entry
                };
                &&& p.logged_in
                &&& p.vip is None
                &&& p.user_id == Some(text::decimal(uin as nat))
                &&& json::has_text(info, "nick"@, t) ==> p.nickname == Some(t)
                &&& json::has_no_text(info, "nick"@) && json::has_text(info, "nickname"@, t)
                    ==> p.nickname == Some(t)
                &&& json::has_no_text(info, "nick"@) && json::has_no_text(info, "nickname"@)
                    ==> p.nickname == Some("QQ音乐用户"@)
                &&& json::has_text(info, "pic"@, t) ==> p.avatar_url == Some(t)
                &&& json::has_no_text(info, "pic"@) && json::has_text(info, "avatar"@, t)
                    ==> p.avatar_url == Some(t)
                &&& json::has_no_text(info, "pic"@) && json::has_no_text(info, "avatar"@)
                    ==> p.avatar_url == Some(general)
            }
            &&& !(map matches Some(Doc::Object(_))) || (map == Some(Doc::Object(entries))
                && entries.len() == 0) ==> profile_next(token, x) is Done && {
                let p = profile_next(token, x)->Done_0;
                &&& p.logged_in
                &&& p.vip is None
                &&& p.user_id == Some(text::decimal(uin as nat))
                &&& p.nickname == Some("QQ音乐用户"@)
                &&& p.avatar_url == Some(general)
            }
        }),
{
    let map = json::member(json::member(json::member(Some(d), "req_1"@), "data"@), "map"@);
    if map == Some(Doc::Object(entries)) && entries.len() > 0 {
        let entry = Some(entries[0].1);
        let base = json::member(entry, "baseInfo"@);
        let info = if base is Some {
            base
        } else {
            entry
        };
        let names = seq!["nick"@, "nickname"@];
        let pictures = seq!["pic"@, "avatar"@];
        json::lemma_first_filled(info, names, 0, t);
        json::lemma_first_filled(info, names, 1, t);
        json::lemma_first_filled(info, pictures, 0, t);
        json::lemma_first_filled(info, pictures, 1, t);
    }
}

/// Without an answer nobody is logged in, and nothing is said of them.
pub proof fn law_no_answer_no_profile(token: Option<Seq<char>>, x: ExchangeView)
    ensures
        request::json_outcome(x) is Err ==> profile_next(token, x) is Done && {
            let p = profile_next(token, x)->Done_0;
            !p.logged_in && p.nickname is None && p.user_id is None && p.avatar_url is None
                && p.vip is None
        },
{
}

/// What is said of a membership that is not known: that the user is logged in where
/// there is a key, and that the question failed elsewhere.
pub proof fn law_unknown_membership_is_told(token: Option<Seq<char>>, x: ExchangeView)
    requires
        request::json_outcome(x) is Err,
    ensures
        vip_next(token, x) is Done && vip_next(token, x)->Done_0.message == (if account::has_key(
            account::cookie_of(token),
        ) {
            "已登录，VIP状态未知 / Logged in, VIP status unknown."@
        } else {
            "VIP状态查询失败 / VIP status query failed."@
        }),
{
}

} // verus!
