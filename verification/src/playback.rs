//! Where a song can be played from.
use vstd::prelude::*;
use vstd::slice::slice_subrange;
use crate::account;
use crate::constants::{QQMUSIC_MUSICU_URL, QQMUSIC_QUALITY_MAP};
use crate::dto::{PlayableUrlDto, PlayableView, ResolvedQQMusicSourceConfig};
use crate::json::{
    self,
    array_of_one,
    object_body,
    put,
    put_text,
    Doc,
    Json,
    JsonBody,
};
use crate::pages::{self, text_after, text_upto};
use crate::request::{
    self,
    call_body,
    comm_body,
    json_request_anon,
    musicu_request,
    read_answer_code,
    read_answer_data,
    read_json,
    read_json_anon,
    Exchange,
    ExchangeView,
    Request,
    RequestView,
};
use crate::text::{
    self,
    chars_of,
    concat2,
    concat3,
    decimal_signed_text,
    decimal_text,
    list_contains,
    replace_text,
    strip_end_text,
    strip_start_text,
    text_contains,
    text_eq,
    text_starts_with,
    to_lowercase,
};

verus! {

// ---------------------------------------------------------------------------
// Qualities
// ---------------------------------------------------------------------------
/// The qualities to try for the one asked for, in order: it and then the lower
/// ones. The two lowest differ in their format alone, so each stands in for the
/// other.
pub open spec fn qualities(requested: Seq<char>) -> Seq<Seq<char>> {
    if requested == "hires"@ {
        seq!["hires"@, "lossless"@, "exhigh"@, "higher"@, "standard"@]
    } else if requested == "lossless"@ {
        seq!["lossless"@, "exhigh"@, "higher"@, "standard"@]
    } else if requested == "exhigh"@ {
        seq!["exhigh"@, "higher"@, "standard"@]
    } else if requested == "higher"@ {
        seq!["higher"@, "standard"@]
    } else {
        seq!["standard"@, "higher"@]
    }
}

/// The qualities to try.
pub fn quality_chain(requested: &str) -> (r: Vec<&'static str>)
    ensures
        json::name_views(r@) == qualities(requested@),
        r@.len() == qualities(requested@).len(),
        forall|i: int| 0 <= i < r@.len() ==> (#[trigger] r@[i])@ == qualities(requested@)[i],
{
    let r: Vec<&'static str> = if text_eq(requested, "hires") {
        vec!["hires", "lossless", "exhigh", "higher", "standard"]
    } else if text_eq(requested, "lossless") {
        vec!["lossless", "exhigh", "higher", "standard"]
    } else if text_eq(requested, "exhigh") {
        vec!["exhigh", "higher", "standard"]
    } else if text_eq(requested, "higher") {
        vec!["higher", "standard"]
    } else {
        vec!["standard", "higher"]
    };
    proof {
        assert(json::name_views(r@) =~= qualities(requested@));
        assert forall|i: int| 0 <= i < r@.len() implies (#[trigger] r@[i])@ == qualities(
            requested@,
        )[i] by {
            assert(json::name_views(r@)[i] == r@[i]@);
        }
    }
    r
}

/// The prefix and the extension of the files of a quality, from row `i` of the
/// table on.
pub open spec fn file_kind_from(quality: Seq<char>, i: int) -> Option<(Seq<char>, Seq<char>)>
    decreases 5 - i,
{
    if i < 0 || i >= 5 {
        None
    } else if QQMUSIC_QUALITY_MAP@[i].0@ == quality {
        Some((QQMUSIC_QUALITY_MAP@[i].1@, QQMUSIC_QUALITY_MAP@[i].2@))
    } else {
        file_kind_from(quality, i + 1)
    }
}

/// The file that holds a song in a quality. A quality outside the table is held
/// in the files of the default kind given.
pub open spec fn file_name(
    quality: Seq<char>,
    songmid: Seq<char>,
    prefix: Seq<char>,
    extension: Seq<char>,
) -> Seq<char> {
    match file_kind_from(quality, 0) {
        Some((p, e)) => p + songmid + "."@ + e,
        None => prefix + songmid + "."@ + extension,
    }
}

/// The file that holds a song in a quality.
pub fn song_file(quality: &str, songmid: &str, prefix: &str, extension: &str) -> (r: String)
    ensures
        r@ == file_name(quality@, songmid@, prefix@, extension@),
{
    for i in 0..5usize
        invariant
            file_kind_from(quality@, 0) == file_kind_from(quality@, i as int),
    {
        let row: (&'static str, &'static str, &'static str) = QQMUSIC_QUALITY_MAP[i];
        if text_eq(row.0, quality) {
            let head: String = concat3(row.1, songmid, ".");
            return concat2(head.as_str(), row.2);
        }
    }
    let head: String = concat3(prefix, songmid, ".");
    concat2(head.as_str(), extension)
}

// ---------------------------------------------------------------------------
// Reasons
// ---------------------------------------------------------------------------
/// Why an answer names no file.
pub open spec fn no_purl_reason(info: Option<Doc>) -> Seq<char> {
    if json::signed_in(json::member(info, "errtype"@)) == Some(0i64) {
        "vip_required"@
    } else {
        "no_copyright"@
    }
}

/// Why an answer names no file: the error type zero means that the song is for
/// members, any other and none that the rights are missing.
pub fn classify_qqmusic_no_purl(midurlinfo: Option<&Json>) -> (r: &'static str)
    ensures
        r@ == no_purl_reason(json::opt_doc(midurlinfo)),
{
    match json::as_i64(json::get(midurlinfo, "errtype")) {
        Some(code) => if code == 0 {
            "vip_required"
        } else {
            "no_copyright"
        },
        None => "no_copyright",
    }
}

/// What an error message in lower case is about. The order decides between several.
pub open spec fn lowered_reason(msg: Seq<char>) -> Seq<char> {
    if text::contains(msg, "rate_limited"@) || text::contains(msg, "412"@) || text::contains(
        msg,
        "503"@,
    ) {
        "rate_limited"@
    } else if text::contains(msg, "vip"@) || text::contains(msg, "绿钻"@) {
        "vip_required"@
    } else if text::contains(msg, "copyright"@) || text::contains(msg, "版权"@) {
        "no_copyright"@
    } else if text::contains(msg, "region"@) || text::contains(msg, "地区"@) {
        "region_restricted"@
    } else if text::contains(msg, "removed"@) || text::contains(msg, "下架"@) {
        "song_removed"@
    } else if text::contains(msg, "expired"@) || text::contains(msg, "过期"@) {
        "session_expired"@
    } else if text::contains(msg, "sign"@) || text::contains(msg, "签名"@) {
        "sign_invalid"@
    } else if text::contains(msg, "timeout"@) || text::contains(msg, "超时"@) {
        "timeout"@
    } else {
        "api_failed"@
    }
}

/// What an error message in lower case is about.
pub fn classify_lowered(msg: &str) -> (r: &'static str)
    ensures
        r@ == lowered_reason(msg@),
{
    if text_contains(msg, "rate_limited") || text_contains(msg, "412") || text_contains(
        msg,
        "503",
    ) {
        "rate_limited"
    } else if text_contains(msg, "vip") || text_contains(msg, "绿钻") {
        "vip_required"
    } else if text_contains(msg, "copyright") || text_contains(msg, "版权") {
        "no_copyright"
    } else if text_contains(msg, "region") || text_contains(msg, "地区") {
        "region_restricted"
    } else if text_contains(msg, "removed") || text_contains(msg, "下架") {
        "song_removed"
    } else if text_contains(msg, "expired") || text_contains(msg, "过期") {
        "session_expired"
    } else if text_contains(msg, "sign") || text_contains(msg, "签名") {
        "sign_invalid"
    } else if text_contains(msg, "timeout") || text_contains(msg, "超时") {
        "timeout"
    } else {
        "api_failed"
    }
}

/// What an error message is about, whatever its case.
pub fn classify_qqmusic_playurl_reason(error_msg: &str) -> (r: &'static str)
    ensures
        r@ == lowered_reason(text::lower(error_msg@)),
{
    let lowered: String = to_lowercase(error_msg);
    classify_lowered(lowered.as_str())
}

// ---------------------------------------------------------------------------
// Cleaning
// ---------------------------------------------------------------------------
/// A letter or digit of ASCII.
pub open spec fn is_alphanumeric(c: char) -> bool {
    '0' <= c <= '9' || 'A' <= c <= 'Z' || 'a' <= c <= 'z'
}

/// A character of a host address.
pub open spec fn is_host_char(c: char) -> bool {
    is_alphanumeric(c) || c == '.' || c == ':' || c == '/' || c == '-' || c == '_'
}

/// A character of an address with its query.
pub open spec fn is_url_char(c: char) -> bool {
    is_host_char(c) || c == '?' || c == '=' || c == '&' || c == '%'
}

/// Whether a character is one of a host address.
fn host_char(c: char) -> (r: bool)
    ensures
        r == is_host_char(c),
{
    ('0' <= c && c <= '9') || ('A' <= c && c <= 'Z') || ('a' <= c && c <= 'z') || c == '.' || c
        == ':' || c == '/' || c == '-' || c == '_'
}

/// Whether a character is one of an address with its query.
fn url_char(c: char) -> (r: bool)
    ensures
        r == is_url_char(c),
{
    host_char(c) || c == '?' || c == '=' || c == '&' || c == '%'
}

/// The characters of a host address in `s`.
pub open spec fn host_chars(s: Seq<char>) -> Seq<char>
    decreases s.len(),
{
    if s.len() == 0 {
        seq![]
    } else if is_host_char(s.last()) {
        host_chars(s.drop_last()).push(s.last())
    } else {
        host_chars(s.drop_last())
    }
}

/// The characters of an address with its query in `s`.
pub open spec fn url_chars(s: Seq<char>) -> Seq<char>
    decreases s.len(),
{
    if s.len() == 0 {
        seq![]
    } else if is_url_char(s.last()) {
        url_chars(s.drop_last()).push(s.last())
    } else {
        url_chars(s.drop_last())
    }
}

/// A host address from an answer, with nothing but its characters and without
/// slashes at its end.
pub open spec fn clean_host(s: Seq<char>) -> Seq<char> {
    text::strip_end(host_chars(s), '/')
}

/// Cleans a host address.
pub fn clean_sip(s: &str) -> (r: String)
    ensures
        r@ == clean_host(s@),
{
    let chars: Vec<char> = chars_of(s);
    let mut kept: String = String::new();
    proof {
        assert(chars@.take(0) =~= seq![]);
    }
    for i in 0..chars.len()
        invariant
            chars@ == s@,
            kept@ == host_chars(chars@.take(i as int)),
    {
        proof {
            assert(chars@.take(i + 1).drop_last() =~= chars@.take(i as int));
            assert(chars@.take(i + 1).last() == chars@[i as int]);
        }
        if host_char(chars[i]) {
            kept.push(chars[i]);
        }
    }
    proof {
        assert(chars@.take(chars@.len() as int) =~= chars@);
    }
    strip_end_text(kept.as_str(), '/')
}

/// Cleans a file address: nothing but the characters of an address is kept.
pub fn clean_purl(s: &str) -> (r: String)
    ensures
        r@ == url_chars(s@),
{
    let chars: Vec<char> = chars_of(s);
    let mut kept: String = String::new();
    proof {
        assert(chars@.take(0) =~= seq![]);
    }
    for i in 0..chars.len()
        invariant
            chars@ == s@,
            kept@ == url_chars(chars@.take(i as int)),
    {
        proof {
            assert(chars@.take(i + 1).drop_last() =~= chars@.take(i as int));
            assert(chars@.take(i + 1).last() == chars@[i as int]);
        }
        if url_char(chars[i]) {
            kept.push(chars[i]);
        }
    }
    proof {
        assert(chars@.take(chars@.len() as int) =~= chars@);
    }
    kept
}

// ---------------------------------------------------------------------------
// The account number in an address
// ---------------------------------------------------------------------------
/// What may stand before the name of a parameter.
pub open spec fn opens_parameter(c: char) -> bool {
    c == '?' || c == '&'
}

/// The rest `t` of an address, behind the character `prev` or at its beginning,
/// with the values of its `uin` parameters gone.
pub open spec fn cleared_from(t: Seq<char>, prev: Option<char>) -> Seq<char>
    decreases t.len(),
{
    if t.len() == 0 {
        t
    } else if prev is Some && opens_parameter(prev->0) && text::starts_with(t, seq!['u', 'i', 'n', '=']) {
        let rest = t.skip(4);
        let n = text::find_any(rest, seq!['&', '#']);
        if n <= rest.len() {
            seq!['u', 'i', 'n', '='] + cleared_from(rest.skip(n as int), None)
        } else {
            t
        }
    } else {
        seq![t[0]] + cleared_from(t.skip(1), Some(t[0]))
    }
}

/// An address with the values of its `uin` parameters gone.
pub open spec fn cleared(t: Seq<char>) -> Seq<char> {
    cleared_from(t, None)
}

/// Takes the values of the `uin` parameters out of an address, and nothing else.
pub fn clear_uin_param(s: &str) -> (r: String)
    ensures
        r@ == cleared(s@),
{
    let chars: Vec<char> = chars_of(s);
    clear_chars(chars.as_slice())
}

/// Takes the values of the `uin` parameters out of an address.
fn clear_chars(chars: &[char]) -> (r: String)
    ensures
        r@ == cleared(chars@),
{
    let ends: Vec<char> = vec!['&', '#'];
    let mut out: String = String::new();
    let mut i: usize = 0;
    let mut open: bool = false;
    let ghost mut prev: Option<char> = None;
    proof {
        assert(ends@ =~= seq!['&', '#']);
        assert(chars@.skip(0) =~= chars@);
        assert(out@ + cleared(chars@) =~= cleared(chars@));
    }
    while i < chars.len()
        invariant
            i <= chars@.len(),
            ends@ == seq!['&', '#'],
            open == (prev is Some && opens_parameter(prev->0)),
            cleared(chars@) == out@ + cleared_from(chars@.skip(i as int), prev),
        decreases chars@.len() - i,
    {
        let ghost here = chars@.skip(i as int);
        let ghost before = out@;
        if open && chars.len() - i >= 4 && chars[i] == 'u' && chars[i + 1] == 'i' && chars[i + 2]
            == 'n' && chars[i + 3] == '=' {
            proof {
                assert(here.take(4) =~= seq!['u', 'i', 'n', '=']);
            }
            vstd::string::StringExecFns::append(&mut out, "uin=");
            let rest: &[char] = slice_subrange(chars, i + 4, chars.len());
            let n: usize = text::find_any_chars(rest, ends.as_slice());
            proof {
                reveal_strlit("uin=");
                assert("uin="@ =~= seq!['u', 'i', 'n', '=']);
                assert(rest@ =~= here.skip(4));
                assert(rest@.skip(n as int) =~= chars@.skip(i + 4 + n));
                assert(before + (seq!['u', 'i', 'n', '='] + cleared_from(
                    rest@.skip(n as int),
                    None,
                )) =~= before + seq!['u', 'i', 'n', '='] + cleared_from(
                    rest@.skip(n as int),
                    None,
                ));
                prev = None;
            }
            i = i + 4 + n;
            open = false;
        } else {
            let c: char = chars[i];
            out.push(c);
            proof {
                if open && text::starts_with(here, seq!['u', 'i', 'n', '=']) {
                    assert(here.take(4)[0] == here[0]);
                    assert(here.take(4)[1] == here[1]);
                    assert(here.take(4)[2] == here[2]);
                    assert(here.take(4)[3] == here[3]);
                }
                assert(here.skip(1) =~= chars@.skip(i + 1));
                assert(before + (seq![c] + cleared_from(here.skip(1), Some(c))) =~= before.push(c)
                    + cleared_from(here.skip(1), Some(c)));
                prev = Some(c);
            }
            i = i + 1;
            open = c == '?' || c == '&';
        }
    }
    proof {
        assert(chars@.skip(i as int) =~= seq![]);
        assert(out@ + seq![] =~= out@);
    }
    out
}

// ---------------------------------------------------------------------------
// Addresses from an answer
// ---------------------------------------------------------------------------
/// The list with one more address, where it is not in it yet.
pub open spec fn with_new(urls: Seq<Seq<char>>, url: Seq<char>) -> Seq<Seq<char>> {
    if urls.contains(url) {
        urls
    } else {
        urls.push(url)
    }
}

/// Adds an address that is not in the list yet.
fn push_new(urls: &mut Vec<String>, url: String)
    ensures
        text::views(final(urls)@) == with_new(text::views(old(urls)@), url@),
{
    let ghost before = text::views(urls@);
    let ghost added = url@;
    if !list_contains(urls, url.as_str()) {
        urls.push(url);
        proof {
            assert(text::views(urls@) =~= before.push(added));
        }
    }
}

/// The host addresses among the items of an answer, cleaned, and only those that
/// are absolute.
pub open spec fn hosts_among(items: Seq<Doc>) -> Seq<Seq<char>>
    decreases items.len(),
{
    if items.len() == 0 {
        seq![]
    } else {
        let before = hosts_among(items.drop_last());
        match json::text_in(Some(items.last())) {
            Some(t) => if text::starts_with(clean_host(t), "http"@) {
                before.push(clean_host(t))
            } else {
                before
            },
            None => before,
        }
    }
}

/// The host addresses of an answer.
pub open spec fn hosts_in(data: Doc) -> Seq<Seq<char>> {
    match json::items_in(json::member(Some(data), "sip"@)) {
        Some(items) => hosts_among(items),
        None => seq![],
    }
}

/// The host addresses of an answer.
pub fn find_hosts(data: &Json) -> (r: Vec<String>)
    ensures
        text::views(r@) == hosts_in(data@),
{
    let mut out: Vec<String> = Vec::new();
    proof {
        assert(text::views(out@) =~= seq![]);
    }
    match json::as_array(json::get(Some(data), "sip")) {
        Some(items) => {
            let ghost all = json::docs(items@);
            proof {
                assert(all.take(0) =~= seq![]);
            }
            for i in 0..items.len()
                invariant
                    all == json::docs(items@),
                    text::views(out@) == hosts_among(all.take(i as int)),
            {
                proof {
                    assert(all.take(i + 1).drop_last() =~= all.take(i as int));
                    assert(all.take(i + 1).last() == items@[i as int]@);
                }
                match json::as_text(Some(&items[i])) {
                    Some(t) => {
                        let host: String = clean_sip(t.as_str());
                        if text_starts_with(host.as_str(), "http") {
                            let ghost before = text::views(out@);
                            let ghost added = host@;
                            out.push(host);
                            proof {
                                assert(text::views(out@) =~= before.push(added));
                            }
                        }
                    },
                    None => {},
                }
            }
            proof {
                assert(all.take(all.len() as int) =~= all);
            }
        },
        None => {},
    }
    out
}

/// A file address with a slash in front.
pub open spec fn with_slash(purl: Seq<char>) -> Seq<char> {
    if text::starts_with(purl, "/"@) {
        purl
    } else {
        "/"@ + purl
    }
}

/// A file address with a slash in front.
fn add_slash(purl: &str) -> (r: String)
    ensures
        r@ == with_slash(purl@),
{
    if text_starts_with(purl, "/") {
        purl.to_string()
    } else {
        concat2("/", purl)
    }
}

/// A file address at the host that is used where the answer names none.
pub open spec fn at_default_host(purl: Seq<char>) -> Seq<char> {
    "http://ws.stream.qqmusic.qq.com/"@ + text::strip_start(purl, '/')
}

/// A file address at the default host.
fn put_at_default_host(purl: &str) -> (r: String)
    ensures
        r@ == at_default_host(purl@),
{
    let bare: String = strip_start_text(purl, '/');
    concat2("http://ws.stream.qqmusic.qq.com/", bare.as_str())
}

/// The list with a file at each of the hosts.
pub open spec fn at_hosts(urls: Seq<Seq<char>>, hosts: Seq<Seq<char>>, path: Seq<char>) -> Seq<
    Seq<char>,
>
    decreases hosts.len(),
{
    if hosts.len() == 0 {
        urls
    } else {
        with_new(at_hosts(urls, hosts.drop_last(), path), hosts.last() + path)
    }
}

/// The file address to use: cleaned, and without the account number where the
/// answer names no account, for its key is then an anonymous one and the file
/// server refuses it together with a number.
pub open spec fn usable_purl(data: Doc, purl: Seq<char>) -> Seq<char> {
    let clean = url_chars(purl);
    if json::or_else(json::text_in(json::member(Some(data), "uin"@)), seq![]).len() > 0 {
        clean
    } else {
        cleared(clean)
    }
}

/// The file address to use.
pub fn make_usable_purl(data: &Json, purl: &str) -> (r: String)
    ensures
        r@ == usable_purl(data@, purl@),
{
    let clean: String = clean_purl(purl);
    let account: String = json::text_or(json::get(Some(data), "uin"), "");
    proof {
        reveal_strlit("");
        assert(""@ =~= seq![]);
    }
    if account.as_str().is_empty() {
        clear_uin_param(clean.as_str())
    } else {
        clean
    }
}

/// The list with the addresses of a file: itself where it is absolute, else at
/// each host of the answer, else at the default host.
pub open spec fn with_file(urls: Seq<Seq<char>>, hosts: Seq<Seq<char>>, purl: Seq<char>) -> Seq<
    Seq<char>,
> {
    if text::starts_with(purl, "http"@) {
        with_new(urls, purl)
    } else if hosts.len() > 0 {
        at_hosts(urls, hosts, with_slash(purl))
    } else {
        with_new(urls, at_default_host(purl))
    }
}

/// Adds the addresses of a file.
fn push_file(urls: &mut Vec<String>, hosts: &Vec<String>, purl: String)
    ensures
        text::views(final(urls)@) == with_file(
            text::views(old(urls)@),
            text::views(hosts@),
            purl@,
        ),
{
    if text_starts_with(purl.as_str(), "http") {
        push_new(urls, purl);
    } else if hosts.len() > 0 {
        let path: String = add_slash(purl.as_str());
        let ghost start = text::views(urls@);
        let ghost all = text::views(hosts@);
        proof {
            assert(all.take(0) =~= seq![]);
        }
        for i in 0..hosts.len()
            invariant
                start == text::views(old(urls)@),
                all == text::views(hosts@),
                path@ == with_slash(purl@),
                text::views(urls@) == at_hosts(start, all.take(i as int), path@),
        {
            proof {
                assert(all.take(i + 1).drop_last() =~= all.take(i as int));
                assert(all.take(i + 1).last() == hosts@[i as int]@);
            }
            push_new(urls, concat2(hosts[i].as_str(), path.as_str()));
        }
        proof {
            assert(all.take(all.len() as int) =~= all);
        }
    } else {
        push_new(urls, put_at_default_host(purl.as_str()));
    }
}

/// The hosts that are known to serve files.
pub open spec fn known_hosts() -> Seq<Seq<char>> {
    seq![
        "ws.stream.qqmusic.qq.com"@,
        "dl.stream.qqmusic.qq.com"@,
        "isure.stream.qqmusic.qq.com"@,
        "streamoc.music.tc.qq.com"@,
    ]
}

/// The host in an address: what stands between `//` and the next slash.
pub open spec fn host_of(url: Seq<char>) -> Seq<char> {
    match pages::after(url, "//"@) {
        Some(rest) => pages::upto(rest, seq!['/']),
        None => seq![],
    }
}

/// An address with another host, where its host is one that can be replaced.
pub open spec fn at_other_host(url: Seq<char>, host: Seq<char>) -> Option<Seq<char>> {
    if text::contains(url, "aqqmusic.tc.qq.com"@) {
        Some(text::replace(url, "aqqmusic.tc.qq.com"@, host))
    } else if text::contains(url, "sjy"@) && text::contains(url, ".stream.qqmusic.qq.com"@)
        && host_of(url).len() > 0 {
        Some(text::replace(url, host_of(url), host))
    } else {
        None
    }
}

/// An address with another host.
pub fn move_to_host(url: &str, host: &str) -> (r: Option<String>)
    ensures
        text::opt_view(r) == at_other_host(url@, host@),
{
    if text_contains(url, "aqqmusic.tc.qq.com") {
        return Some(replace_text(url, "aqqmusic.tc.qq.com", host));
    }
    if text_contains(url, "sjy") && text_contains(url, ".stream.qqmusic.qq.com") {
        let old_host: String = match text_after(url, "//") {
            Some(rest) => {
                let slash: Vec<char> = vec!['/'];
                proof {
                    assert(slash@ == seq!['/']);
                }
                text_upto(rest.as_str(), &slash)
            },
            None => String::new(),
        };
        if !old_host.as_str().is_empty() {
            return Some(replace_text(url, old_host.as_str(), host));
        }
    }
    None
}

/// The list with `url` at each of the hosts given, where it can be moved.
pub open spec fn at_known_hosts(
    urls: Seq<Seq<char>>,
    url: Seq<char>,
    hosts: Seq<Seq<char>>,
) -> Seq<Seq<char>>
    decreases hosts.len(),
{
    if hosts.len() == 0 {
        urls
    } else {
        let before = at_known_hosts(urls, url, hosts.drop_last());
        match at_other_host(url, hosts.last()) {
            Some(moved) => with_new(before, moved),
            None => before,
        }
    }
}

/// The list with its last address at the known hosts too.
pub open spec fn with_known_hosts(urls: Seq<Seq<char>>) -> Seq<Seq<char>> {
    if urls.len() == 0 {
        urls
    } else {
        at_known_hosts(urls, urls.last(), known_hosts())
    }
}

/// Adds the last address at the known hosts.
fn push_known_hosts(urls: &mut Vec<String>)
    ensures
        text::views(final(urls)@) == with_known_hosts(text::views(old(urls)@)),
{
    if urls.len() == 0 {
        return ;
    }
    let last: String = urls[urls.len() - 1].clone();
    let hosts: Vec<&str> = vec![
        "ws.stream.qqmusic.qq.com",
        "dl.stream.qqmusic.qq.com",
        "isure.stream.qqmusic.qq.com",
        "streamoc.music.tc.qq.com",
    ];
    let ghost start = text::views(urls@);
    let ghost all = json::name_views(hosts@);
    proof {
        assert(all =~= known_hosts());
        assert(start.last() == last@);
        assert(all.take(0) =~= seq![]);
    }
    for i in 0..hosts.len()
        invariant
            all == json::name_views(hosts@),
            text::views(urls@) == at_known_hosts(start, last@, all.take(i as int)),
    {
        let host: &str = hosts[i];
        proof {
            assert(all.take(i + 1).drop_last() =~= all.take(i as int));
            assert(all.take(i + 1).last() == host@);
        }
        match move_to_host(last.as_str(), host) {
            Some(moved) => push_new(urls, moved),
            None => {},
        }
    }
    proof {
        assert(all.take(all.len() as int) =~= all);
    }
}

/// What an answer says of the file: which one, and whether the file server has it.
pub open spec fn file_info(data: Doc) -> Option<Doc> {
    json::first_item(json::member(Some(data), "midurlinfo"@))
}

/// The file that an answer names.
pub open spec fn file_purl(data: Doc) -> Option<Seq<char>> {
    json::filled_text_in(json::member(file_info(data), "purl"@))
}

/// The file server does not have the file.
pub open spec fn is_missing(data: Doc) -> bool {
    text::contains(
        json::or_else(json::text_in(json::member(Some(data), "msg"@)), seq![]),
        "fnameHitCache_404"@,
    )
}

/// Whether the file server does not have the file.
fn file_is_missing(data: &Json) -> (r: bool)
    ensures
        r == is_missing(data@),
{
    let msg: String = json::text_or(json::get(Some(data), "msg"), "");
    proof {
        reveal_strlit("");
        assert(""@ =~= seq![]);
    }
    text_contains(msg.as_str(), "fnameHitCache_404")
}

/// Addresses and reason after an answer.
pub open spec fn after_answer(urls: Seq<Seq<char>>, reason: Seq<char>, d: Doc) -> (
    Seq<Seq<char>>,
    Seq<char>,
) {
    let code = request::answer_code(d);
    if code == 500005 {
        (urls, "session_invalid"@)
    } else if code != 0 {
        (urls, "api_code_"@ + text::decimal_signed(code as int))
    } else {
        match request::answer_data(d) {
            None => (urls, "no_data"@),
            Some(data) => match file_purl(data) {
                None => (urls, no_purl_reason(file_info(data))),
                Some(purl) => if is_missing(data) {
                    (urls, "no_copyright"@)
                } else {
                    (
                        with_known_hosts(
                            with_file(urls, hosts_in(data), usable_purl(data, purl)),
                        ),
                        reason,
                    )
                },
            },
        }
    }
}

/// Takes an answer: adds the addresses that it gives, or says why it gives none.
pub fn take_answer(urls: &mut Vec<String>, reason: String, value: &Json) -> (r: String)
    ensures
        (text::views(final(urls)@), r@) == after_answer(text::views(old(urls)@), reason@, value@),
{
    let code: i64 = read_answer_code(value);
    if code == 500005 {
        return "session_invalid".to_string();
    }
    if code != 0 {
        let number: String = decimal_signed_text(code);
        return concat2("api_code_", number.as_str());
    }
    match read_answer_data(value) {
        None => "no_data".to_string(),
        Some(data) => {
            let info: Option<&Json> = json::get_first(json::get(Some(data), "midurlinfo"));
            match json::json_text(json::get(info, "purl")) {
                None => classify_qqmusic_no_purl(info).to_string(),
                Some(purl) => if file_is_missing(data) {
                    "no_copyright".to_string()
                } else {
                    let hosts: Vec<String> = find_hosts(data);
                    let usable: String = make_usable_purl(data, purl.as_str());
                    push_file(urls, &hosts, usable);
                    push_known_hosts(urls);
                    reason
                },
            }
        },
    }
}

/// The address that an anonymous answer gives.
pub open spec fn anonymous_url(data: Doc, purl: Seq<char>) -> Seq<char> {
    let host = clean_host(
        json::or_else(
            json::text_in(json::first_item(json::member(Some(data), "sip"@))),
            seq![],
        ),
    );
    let clean = url_chars(purl);
    if text::starts_with(clean, "http"@) {
        clean
    } else if host.len() > 0 {
        host + with_slash(clean)
    } else {
        at_default_host(clean)
    }
}

/// The addresses after an anonymous answer.
pub open spec fn after_anonymous(urls: Seq<Seq<char>>, d: Doc) -> Seq<Seq<char>> {
    if request::answer_code(d) == 0 {
        match request::answer_data(d) {
            Some(data) => match file_purl(data) {
                Some(purl) => if is_missing(data) {
                    urls
                } else {
                    urls.push(anonymous_url(data, purl))
                },
                None => urls,
            },
            None => urls,
        }
    } else {
        urls
    }
}

/// Takes an anonymous answer.
pub fn take_anonymous_answer(urls: &mut Vec<String>, value: &Json)
    ensures
        text::views(final(urls)@) == after_anonymous(text::views(old(urls)@), value@),
{
    if read_answer_code(value) != 0 {
        return ;
    }
    match read_answer_data(value) {
        Some(data) => {
            if file_is_missing(data) {
                return ;
            }
            let info: Option<&Json> = json::get_first(json::get(Some(data), "midurlinfo"));
            match json::json_text(json::get(info, "purl")) {
                Some(purl) => {
                    let raw: String = json::text_or(
                        json::get_first(json::get(Some(data), "sip")),
                        "",
                    );
                    proof {
                        reveal_strlit("");
                        assert(""@ =~= seq![]);
                    }
                    let host: String = clean_sip(raw.as_str());
                    let clean: String = clean_purl(purl.as_str());
                    let url: String = if text_starts_with(clean.as_str(), "http") {
                        clean
                    } else if !host.as_str().is_empty() {
                        let path: String = add_slash(clean.as_str());
                        concat2(host.as_str(), path.as_str())
                    } else {
                        put_at_default_host(clean.as_str())
                    };
                    let ghost before = text::views(urls@);
                    let ghost added = url@;
                    urls.push(url);
                    proof {
                        assert(text::views(urls@) =~= before.push(added));
                    }
                },
                None => {},
            }
        },
        None => {},
    }
}

// ---------------------------------------------------------------------------
// From state to state
// ---------------------------------------------------------------------------
/// How far the search for addresses has come.
#[derive(Clone, Copy)]
pub enum PlayStage {
    /// A request with the cookie, for the quality of this place in the chain.
    Signed { index: usize },
    /// A request without a cookie, for one of the two lowest qualities.
    Anonymous { index: usize },
    Done,
}

/// The search for the addresses of a song.
pub struct Playback {
    pub songmid: String,
    pub guid: String,
    pub chain: Vec<&'static str>,
    pub urls: Vec<String>,
    pub reason: String,
    pub stage: PlayStage,
}

/// What a `Playback` means.
pub struct PlaybackView {
    pub songmid: Seq<char>,
    pub guid: Seq<char>,
    pub chain: Seq<Seq<char>>,
    pub urls: Seq<Seq<char>>,
    pub reason: Seq<char>,
    pub stage: PlayStage,
}

impl View for Playback {
    type V = PlaybackView;

    open spec fn view(&self) -> PlaybackView {
        PlaybackView {
            songmid: self.songmid@,
            guid: self.guid@,
            chain: json::name_views(self.chain@),
            urls: text::views(self.urls@),
            reason: self.reason@,
            stage: self.stage,
        }
    }
}

/// The number that stands for a device, out of the time in milliseconds.
pub open spec fn guid_of(millis: u128) -> Seq<char> {
    text::decimal((millis % 10000000000) as nat)
}

/// The number that stands for a device: the last ten digits of the time in milliseconds.
pub fn rand_guid(millis: u128) -> (r: String)
    ensures
        r@ == guid_of(millis),
{
    decimal_text(millis % 10000000000)
}

/// The first state.
pub open spec fn playback_start(
    songmid: Seq<char>,
    quality: Option<Seq<char>>,
    millis: u128,
) -> PlaybackView {
    PlaybackView {
        songmid,
        guid: guid_of(millis),
        chain: qualities(json::or_else(quality, "standard"@)),
        urls: seq![],
        reason: "unknown"@,
        stage: PlayStage::Signed { index: 0 },
    }
}

/// Begins the search for the addresses of a song, in the standard quality where
/// none is asked for.
pub fn fetch_qqmusic_playable_url(songmid: &str, quality: Option<&str>, millis: u128) -> (r:
    Playback)
    ensures
        r@ == playback_start(
            songmid@,
            match quality {
                Some(q) => Some(q@),
                None => None,
            },
            millis,
        ),
{
    let chain: Vec<&'static str> = match quality {
        Some(q) => quality_chain(q),
        None => quality_chain("standard"),
    };
    let urls: Vec<String> = Vec::new();
    proof {
        assert(text::views(urls@) =~= seq![]);
    }
    Playback {
        songmid: songmid.to_string(),
        guid: rand_guid(millis),
        chain,
        urls,
        reason: "unknown".to_string(),
        stage: PlayStage::Signed { index: 0 },
    }
}

/// The reasons after which a request without a cookie is worth trying.
pub open spec fn tries_anonymous(reason: Seq<char>) -> bool {
    ||| reason == "session_invalid"@
    ||| reason == "server_not_authenticated"@
    ||| text::starts_with(reason, "api_code_"@)
    ||| reason == "vip_required"@
    ||| reason == "no_copyright"@
    ||| reason == "request_failed"@
    ||| reason == "no_data"@
    ||| reason == "unknown"@
}

/// Whether a request without a cookie is worth trying.
pub fn should_try_anonymous(reason: &str) -> (r: bool)
    ensures
        r == tries_anonymous(reason@),
{
    text_eq(reason, "session_invalid") || text_eq(reason, "server_not_authenticated")
        || text_starts_with(reason, "api_code_") || text_eq(reason, "vip_required") || text_eq(
        reason,
        "no_copyright",
    ) || text_eq(reason, "request_failed") || text_eq(reason, "no_data") || text_eq(
        reason,
        "unknown",
    )
}

/// The stage after the request for the quality at `index`.
pub open spec fn stage_after(chain_len: nat, index: usize, urls_len: nat, reason: Seq<char>) -> PlayStage {
    if index + 1 < chain_len {
        PlayStage::Signed { index: (index + 1) as usize }
    } else if urls_len == 0 && tries_anonymous(reason) {
        PlayStage::Anonymous { index: 0 }
    } else {
        PlayStage::Done
    }
}

/// The state after a reply.
pub open spec fn playback_next(p: PlaybackView, x: ExchangeView) -> PlaybackView {
    match p.stage {
        PlayStage::Signed { index } => {
            let (urls, reason) = match request::json_outcome(x) {
                Ok(d) => after_answer(p.urls, p.reason, d),
                Err(_) => (p.urls, "request_failed"@),
            };
            PlaybackView {
                urls,
                reason,
                stage: stage_after(p.chain.len(), index, urls.len(), reason),
                ..p
            }
        },
        PlayStage::Anonymous { index } => PlaybackView {
            urls: match request::json_outcome_anon(x) {
                Ok(d) => after_anonymous(p.urls, d),
                Err(_) => p.urls,
            },
            stage: if index == 0 {
                PlayStage::Anonymous { index: 1 }
            } else {
                PlayStage::Done
            },
            ..p
        },
        PlayStage::Done => p,
    }
}

/// Goes on with a reply.
pub fn next_playback(playback: Playback, x: Exchange) -> (r: Playback)
    ensures
        r@ == playback_next(playback@, x@),
{
    let Playback { songmid, guid, chain, urls, reason, stage } = playback;
    let mut urls = urls;
    match stage {
        PlayStage::Signed { index } => {
            let reason: String = match read_json(x) {
                Ok(value) => take_answer(&mut urls, reason, &value),
                Err(_) => "request_failed".to_string(),
            };
            let stage: PlayStage = if chain.len() > 1 && index < chain.len() - 1 {
                PlayStage::Signed { index: index + 1 }
            } else if urls.len() == 0 && should_try_anonymous(reason.as_str()) {
                PlayStage::Anonymous { index: 0 }
            } else {
                PlayStage::Done
            };
            Playback { songmid, guid, chain, urls, reason, stage }
        },
        PlayStage::Anonymous { index } => {
            match read_json_anon(x) {
                Ok(value) => take_anonymous_answer(&mut urls, &value),
                Err(_) => {},
            }
            let stage: PlayStage = if index == 0 {
                PlayStage::Anonymous { index: 1 }
            } else {
                PlayStage::Done
            };
            Playback { songmid, guid, chain, urls, reason, stage }
        },
        PlayStage::Done => Playback { songmid, guid, chain, urls, reason, stage },
    }
}

// ---------------------------------------------------------------------------
// The requests
// ---------------------------------------------------------------------------
/// The parameters of a request for the key to a file.
pub open spec fn vkey_param(
    guid: Seq<char>,
    songmid: Seq<char>,
    file: Seq<char>,
    uin: Seq<char>,
    loginflag: u64,
) -> Doc {
    json::object(
        seq![
            ("guid"@, Doc::Text(guid)),
            ("songmid"@, Doc::Array(seq![Doc::Text(songmid)])),
            ("songtype"@, Doc::Array(seq![Doc::Unsigned(0)])),
            ("filename"@, Doc::Array(seq![Doc::Text(file)])),
            ("uin"@, Doc::Text(uin)),
            ("loginflag"@, Doc::Unsigned(loginflag)),
            ("platform"@, Doc::Text("20"@)),
        ],
    )
}

/// The body of a request for the key to a file.
pub open spec fn vkey_doc(
    comm_uin: Seq<char>,
    guid: Seq<char>,
    songmid: Seq<char>,
    file: Seq<char>,
    uin: Seq<char>,
    loginflag: u64,
) -> Doc {
    request::call_doc(
        request::comm_doc(comm_uin),
        "vkey.GetVkeyServer"@,
        "CgiGetVkey"@,
        vkey_param(guid, songmid, file, uin, loginflag),
    )
}

/// The body of a request for the key to a file.
fn vkey_body(
    comm_uin: &str,
    guid: &str,
    songmid: &str,
    file: &str,
    uin: &str,
    loginflag: u64,
) -> (r: JsonBody)
    ensures
        r@ == vkey_doc(comm_uin@, guid@, songmid@, file@, uin@, loginflag),
{
    let mut members: Vec<(String, JsonBody)> = Vec::new();
    put_text(&mut members, "guid", guid);
    put(&mut members, "songmid", array_of_one(JsonBody::Text(songmid.to_string())));
    put(&mut members, "songtype", array_of_one(JsonBody::Unsigned(0)));
    put(&mut members, "filename", array_of_one(JsonBody::Text(file.to_string())));
    put_text(&mut members, "uin", uin);
    put(&mut members, "loginflag", JsonBody::Unsigned(loginflag));
    put_text(&mut members, "platform", "20");
    proof {
        assert(json::pairs(members@) =~= seq![
            ("guid"@, Doc::Text(guid@)),
            ("songmid"@, Doc::Array(seq![Doc::Text(songmid@)])),
            ("songtype"@, Doc::Array(seq![Doc::Unsigned(0)])),
            ("filename"@, Doc::Array(seq![Doc::Text(file@)])),
            ("uin"@, Doc::Text(uin@)),
            ("loginflag"@, Doc::Unsigned(loginflag)),
            ("platform"@, Doc::Text("20"@)),
        ]);
    }
    call_body(comm_body(comm_uin), "vkey.GetVkeyServer", "CgiGetVkey", object_body(members))
}

/// The quality of an anonymous request.
pub open spec fn anonymous_quality(index: usize) -> Seq<char> {
    if index == 0 {
        "standard"@
    } else {
        "higher"@
    }
}

/// The request that a state waits for.
pub open spec fn playback_request_of(
    p: PlaybackView,
    token: Option<Seq<char>>,
    millis: u128,
) -> Option<RequestView> {
    match p.stage {
        PlayStage::Signed { index } => if index < p.chain.len() {
            Some(
                request::json_request_of(
                    token,
                    QQMUSIC_MUSICU_URL@,
                    vkey_doc(
                        account::uin_of(token),
                        p.guid,
                        p.songmid,
                        file_name(p.chain[index as int], p.songmid, "M800"@, "mp3"@),
                        text::decimal(account::uin_num_of(token) as nat),
                        if token is Some {
                            1
                        } else {
                            0
                        },
                    ),
                ),
            )
        } else {
            None
        },
        PlayStage::Anonymous { index } => Some(
            request::json_request_of(
                None,
                QQMUSIC_MUSICU_URL@,
                vkey_doc(
                    "0"@,
                    guid_of(millis),
                    p.songmid,
                    file_name(anonymous_quality(index), p.songmid, "C400"@, "m4a"@),
                    "0"@,
                    0,
                ),
            ),
        ),
        PlayStage::Done => None,
    }
}

/// The request that a search waits for, `None` at its end. An anonymous request
/// names a device of its own, out of the time of the request.
pub fn playback_request(
    playback: &Playback,
    config: &ResolvedQQMusicSourceConfig,
    millis: u128,
) -> (r: Option<Request>)
    ensures
        match r {
            Some(q) => playback_request_of(playback@, config@.token, millis) == Some(q@),
            None => playback_request_of(playback@, config@.token, millis) is None,
        },
{
    match playback.stage {
        PlayStage::Signed { index } => {
            if index >= playback.chain.len() {
                return None;
            }
            let quality: &str = playback.chain[index];
            let file: String = song_file(quality, playback.songmid.as_str(), "M800", "mp3");
            let comm_uin: String = account::resolve_qqmusic_uin(config);
            let uin: String = decimal_text(account::resolve_qqmusic_uin_num(config) as u128);
            let loginflag: u64 = if config.token.is_some() {
                1
            } else {
                0
            };
            let body: JsonBody = vkey_body(
                comm_uin.as_str(),
                playback.guid.as_str(),
                playback.songmid.as_str(),
                file.as_str(),
                uin.as_str(),
                loginflag,
            );
            Some(musicu_request(config, &body))
        },
        PlayStage::Anonymous { index } => {
            let quality: &str = if index == 0 {
                "standard"
            } else {
                "higher"
            };
            let file: String = song_file(quality, playback.songmid.as_str(), "C400", "m4a");
            let guid: String = rand_guid(millis);
            let body: JsonBody = vkey_body(
                "0",
                guid.as_str(),
                playback.songmid.as_str(),
                file.as_str(),
                "0",
                0,
            );
            Some(json_request_anon(QQMUSIC_MUSICU_URL, &body))
        },
        PlayStage::Done => None,
    }
}

/// What a search has found: its first address and the others as candidates, or
/// the reason why there is none.
pub open spec fn playable(p: PlaybackView) -> PlayableView {
    if p.urls.len() > 0 {
        PlayableView {
            song_id: p.songmid,
            url: Some(p.urls[0]),
            video_url: None,
            unavailable: false,
            reason: None,
            debug: None,
            audio_candidates: p.urls.skip(1),
            video_candidates: seq![],
        }
    } else {
        PlayableView {
            song_id: p.songmid,
            url: None,
            video_url: None,
            unavailable: true,
            reason: Some(p.reason),
            debug: None,
            audio_candidates: seq![],
            video_candidates: seq![],
        }
    }
}

/// What a search has found.
pub fn playback_result(playback: Playback) -> (r: PlayableUrlDto)
    ensures
        r@ == playable(playback@),
{
    let mut urls: Vec<String> = playback.urls;
    let ghost all = text::views(urls@);
    let none: Vec<String> = Vec::new();
    proof {
        assert(text::views(none@) =~= seq![]);
    }
    if urls.len() > 0 {
        let first: String = urls.remove(0);
        proof {
            assert(text::views(urls@) =~= all.skip(1));
        }
        PlayableUrlDto {
            song_id: playback.songmid,
            url: Some(first),
            video_url: None,
            unavailable: false,
            reason: None,
            debug: None,
            audio_candidates: urls,
            video_candidates: none,
        }
    } else {
        proof {
            assert(text::views(urls@) =~= seq![]);
        }
        PlayableUrlDto {
            song_id: playback.songmid,
            url: None,
            video_url: None,
            unavailable: true,
            reason: Some(playback.reason),
            debug: None,
            audio_candidates: urls,
            video_candidates: none,
        }
    }
}

// ---------------------------------------------------------------------------
// What holds of the account number in an address
// ---------------------------------------------------------------------------
/// The name of a `uin` parameter stands at `i`.
pub open spec fn uin_at(t: Seq<char>, i: int) -> bool {
    1 <= i && i + 4 <= t.len() && opens_parameter(t[i - 1]) && text::starts_with(
        t.skip(i),
        seq!['u', 'i', 'n', '='],
    )
}

/// The parameter at `i` has no value.
pub open spec fn no_value_at(t: Seq<char>, i: int) -> bool {
    i + 4 == t.len() || t[i + 4] == '&' || t[i + 4] == '#'
}

/// The rest of an address keeps its first character.
proof fn lemma_cleared_first(t: Seq<char>, prev: Option<char>)
    ensures
        cleared_from(t, prev).len() > 0 <==> t.len() > 0,
        t.len() > 0 ==> cleared_from(t, prev)[0] == t[0],
{
    if t.len() > 0 && prev is Some && opens_parameter(prev->0) && text::starts_with(
        t,
        seq!['u', 'i', 'n', '='],
    ) {
        text::lemma_find_any_within(t.skip(4), seq!['&', '#']);
        assert(t.take(4)[0] == t[0]);
    }
}

/// Where the rest of an address begins with `uin=` once it is cleared, it did before.
proof fn lemma_cleared_name(t: Seq<char>, prev: Option<char>)
    requires
        text::starts_with(cleared_from(t, prev), seq!['u', 'i', 'n', '=']),
    ensures
        text::starts_with(t, seq!['u', 'i', 'n', '=']),
{
    let name = seq!['u', 'i', 'n', '='];
    let r = cleared_from(t, prev);
    assert(r.take(4)[0] == r[0] && r.take(4)[1] == r[1] && r.take(4)[2] == r[2] && r.take(4)[3]
        == r[3]);
    lemma_cleared_first(t, prev);
    if !text::starts_with(t, name) {
        let r1 = cleared_from(t.skip(1), Some(t[0]));
        assert(r =~= seq![t[0]] + r1);
        lemma_cleared_first(t.skip(1), Some(t[0]));
        assert(r1[0] == r[1]);
        let t1 = t.skip(1);
        let r2 = cleared_from(t1.skip(1), Some(t1[0]));
        assert(r1 =~= seq![t1[0]] + r2);
        lemma_cleared_first(t1.skip(1), Some(t1[0]));
        assert(r2[0] == r[2]);
        let t2 = t1.skip(1);
        let r3 = cleared_from(t2.skip(1), Some(t2[0]));
        assert(r2 =~= seq![t2[0]] + r3);
        lemma_cleared_first(t2.skip(1), Some(t2[0]));
        assert(r3[0] == r[3]);
        assert(t.take(4) =~= name);
    }
}

proof fn lemma_cleared_gone(t: Seq<char>, prev: Option<char>)
    ensures
        forall|i: int| #[trigger]
            uin_at(cleared_from(t, prev), i) ==> no_value_at(cleared_from(t, prev), i),
        prev is Some && opens_parameter(prev->0) && text::starts_with(
            cleared_from(t, prev),
            seq!['u', 'i', 'n', '='],
        ) ==> no_value_at(cleared_from(t, prev), 0),
    decreases t.len(),
{
    let name = seq!['u', 'i', 'n', '='];
    let r = cleared_from(t, prev);
    if t.len() == 0 {
    } else if prev is Some && opens_parameter(prev->0) && text::starts_with(t, name) {
        let rest = t.skip(4);
        let n = text::find_any(rest, seq!['&', '#']) as int;
        text::lemma_find_any_within(rest, seq!['&', '#']);
        let after = rest.skip(n);
        let q = cleared_from(after, None);
        lemma_cleared_gone(after, None);
        lemma_cleared_first(after, None);
        assert(r =~= name + q);
        if n < rest.len() {
            assert(after[0] == rest[n]);
            assert(seq!['&', '#'].contains(rest[n]));
            assert(q[0] == r[4]);
        }
        assert forall|i: int| #[trigger] uin_at(r, i) implies no_value_at(r, i) by {
            if i <= 4 {
                assert(r[i - 1] == name[i - 1]);
            } else {
                assert(r.skip(i) =~= q.skip(i - 4));
                assert(q[i - 5] == r[i - 1]);
                assert(uin_at(q, i - 4));
                if i + 4 < r.len() {
                    assert(r[i + 4] == q[i]);
                }
            }
        }
    } else {
        let q = cleared_from(t.skip(1), Some(t[0]));
        lemma_cleared_gone(t.skip(1), Some(t[0]));
        assert(r =~= seq![t[0]] + q);
        if prev is Some && opens_parameter(prev->0) && text::starts_with(r, name) {
            lemma_cleared_name(t, prev);
        }
        assert forall|i: int| #[trigger] uin_at(r, i) implies no_value_at(r, i) by {
            assert(r.skip(i) =~= q.skip(i - 1));
            if i == 1 {
                assert(q.skip(0) =~= q);
                assert(r[0] == t[0]);
            } else {
                assert(q[i - 2] == r[i - 1]);
                assert(uin_at(q, i - 1));
            }
            if i + 4 < r.len() {
                assert(r[i + 4] == q[i + 3]);
            }
        }
    }
}

/// No parameter `uin` has a value left once an address is cleared.
pub proof fn law_cleared_has_no_account(t: Seq<char>)
    ensures
        forall|i: int| #[trigger] uin_at(cleared(t), i) ==> no_value_at(cleared(t), i),
{
    lemma_cleared_gone(t, None);
}

proof fn lemma_cleared_same(t: Seq<char>, prev: Option<char>)
    requires
        forall|i: int| #[trigger] uin_at(t, i) ==> no_value_at(t, i),
        prev is Some && opens_parameter(prev->0) && text::starts_with(t, seq!['u', 'i', 'n', '='])
            ==> no_value_at(t, 0),
    ensures
        cleared_from(t, prev) == t,
    decreases t.len(),
{
    let name = seq!['u', 'i', 'n', '='];
    if t.len() == 0 {
    } else if prev is Some && opens_parameter(prev->0) && text::starts_with(t, name) {
        let rest = t.skip(4);
        if rest.len() > 0 {
            assert(rest[0] == t[4]);
            assert(seq!['&', '#'][0] == '&' && seq!['&', '#'][1] == '#');
            assert(seq!['&', '#'].contains(rest[0]));
        }
        assert(text::find_any(rest, seq!['&', '#']) == 0);
        assert(rest.skip(0) =~= rest);
        assert forall|i: int| #[trigger] uin_at(rest, i) implies no_value_at(rest, i) by {
            assert(rest.skip(i) =~= t.skip(i + 4));
            assert(t[i + 3] == rest[i - 1]);
            assert(uin_at(t, i + 4));
        }
        lemma_cleared_same(rest, None);
        assert(t =~= name + rest) by {
            assert(t.take(4) =~= name);
            assert(t =~= t.take(4) + rest);
        }
    } else {
        let rest = t.skip(1);
        assert forall|i: int| #[trigger] uin_at(rest, i) implies no_value_at(rest, i) by {
            assert(rest.skip(i) =~= t.skip(i + 1));
            assert(t[i] == rest[i - 1]);
            assert(uin_at(t, i + 1));
        }
        if opens_parameter(t[0]) && text::starts_with(rest, name) {
            assert(uin_at(t, 1));
        }
        lemma_cleared_same(rest, Some(t[0]));
        assert(t =~= seq![t[0]] + rest);
    }
}

/// Clearing an address again changes nothing, and an address without the
/// parameter stays as it is.
pub proof fn law_clearing_is_stable(t: Seq<char>)
    ensures
        cleared(cleared(t)) == cleared(t),
        (forall|i: int| !#[trigger] uin_at(t, i)) ==> cleared(t) == t,
{
    lemma_cleared_gone(t, None);
    lemma_cleared_same(cleared(t), None);
    if forall|i: int| !#[trigger] uin_at(t, i) {
        lemma_cleared_same(t, None);
    }
}

// ---------------------------------------------------------------------------
// What holds of the addresses
// ---------------------------------------------------------------------------
/// Every character is one of an address.
pub open spec fn is_clean(s: Seq<char>) -> bool {
    forall|i: int| 0 <= i < s.len() ==> is_url_char(#[trigger] s[i])
}

/// Every address of the list is made of nothing but characters of an address.
pub open spec fn all_clean(urls: Seq<Seq<char>>) -> bool {
    forall|i: int| 0 <= i < urls.len() ==> is_clean(#[trigger] urls[i])
}

/// Cleaning keeps nothing but characters of an address.
proof fn lemma_url_chars(s: Seq<char>)
    ensures
        is_clean(url_chars(s)),
    decreases s.len(),
{
    if s.len() > 0 {
        lemma_url_chars(s.drop_last());
    }
}

proof fn lemma_host_chars(s: Seq<char>)
    ensures
        is_clean(host_chars(s)),
    decreases s.len(),
{
    if s.len() > 0 {
        lemma_host_chars(s.drop_last());
    }
}

proof fn lemma_strip_clean(s: Seq<char>, c: char)
    requires
        is_clean(s),
    ensures
        is_clean(text::strip_start(s, c)),
        is_clean(text::strip_end(s, c)),
    decreases s.len(),
{
    if s.len() > 0 {
        assert(is_clean(s.skip(1)));
        assert(is_clean(s.drop_last()));
        lemma_strip_clean(s.skip(1), c);
        lemma_strip_clean(s.drop_last(), c);
    }
}

proof fn lemma_cleared_clean(t: Seq<char>, prev: Option<char>)
    requires
        is_clean(t),
    ensures
        is_clean(cleared_from(t, prev)),
    decreases t.len(),
{
    let name = seq!['u', 'i', 'n', '='];
    if t.len() == 0 {
    } else if prev is Some && opens_parameter(prev->0) && text::starts_with(t, name) {
        let rest = t.skip(4);
        let n = text::find_any(rest, seq!['&', '#']) as int;
        if n <= rest.len() {
            assert forall|i: int| 0 <= i < rest.skip(n).len() implies is_url_char(
                #[trigger] rest.skip(n)[i],
            ) by {
                assert(rest.skip(n)[i] == t[4 + n + i]);
            }
            lemma_cleared_clean(rest.skip(n), None);
        }
    } else {
        assert(is_clean(t.skip(1)));
        lemma_cleared_clean(t.skip(1), Some(t[0]));
    }
}

proof fn lemma_replace_clean(s: Seq<char>, p: Seq<char>, by: Seq<char>)
    requires
        is_clean(s),
        is_clean(by),
    ensures
        is_clean(text::replace(s, p, by)),
    decreases s.len(),
{
    if p.len() > 0 {
        if let Some(i) = text::find(s, p) {
            if i + p.len() <= s.len() {
                let rest = s.skip((i + p.len()) as int);
                assert(is_clean(rest));
                lemma_replace_clean(rest, p, by);
                assert(is_clean(s.take(i as int)));
            }
        }
    }
}

proof fn lemma_known_hosts_clean()
    ensures
        all_clean(known_hosts()),
        is_clean("/"@),
        is_clean("http://ws.stream.qqmusic.qq.com/"@),
{
    reveal_strlit("ws.stream.qqmusic.qq.com");
    reveal_strlit("dl.stream.qqmusic.qq.com");
    reveal_strlit("isure.stream.qqmusic.qq.com");
    reveal_strlit("streamoc.music.tc.qq.com");
    reveal_strlit("/");
    reveal_strlit("http://ws.stream.qqmusic.qq.com/");
}

/// The list after a new address.
proof fn lemma_with_new(urls: Seq<Seq<char>>, url: Seq<char>)
    ensures
        urls.no_duplicates() ==> with_new(urls, url).no_duplicates(),
        all_clean(urls) && is_clean(url) ==> all_clean(with_new(urls, url)),
        with_new(urls, url).len() >= urls.len(),
        with_new(urls, url).len() > 0,
{
}

proof fn lemma_hosts_clean(items: Seq<Doc>)
    ensures
        all_clean(hosts_among(items)),
    decreases items.len(),
{
    if items.len() > 0 {
        lemma_hosts_clean(items.drop_last());
        if let Some(t) = json::text_in(Some(items.last())) {
            lemma_host_chars(t);
            lemma_strip_clean(host_chars(t), '/');
        }
    }
}

proof fn lemma_at_hosts(urls: Seq<Seq<char>>, hosts: Seq<Seq<char>>, path: Seq<char>)
    requires
        all_clean(hosts),
        is_clean(path),
    ensures
        urls.no_duplicates() ==> at_hosts(urls, hosts, path).no_duplicates(),
        all_clean(urls) ==> all_clean(at_hosts(urls, hosts, path)),
        hosts.len() > 0 ==> at_hosts(urls, hosts, path).len() > 0,
    decreases hosts.len(),
{
    if hosts.len() > 0 {
        assert(all_clean(hosts.drop_last()));
        lemma_at_hosts(urls, hosts.drop_last(), path);
        let url = hosts.last() + path;
        assert(is_clean(hosts[hosts.len() - 1]));
        assert(is_clean(url));
        lemma_with_new(at_hosts(urls, hosts.drop_last(), path), url);
    }
}

proof fn lemma_at_known_hosts(urls: Seq<Seq<char>>, url: Seq<char>, hosts: Seq<Seq<char>>)
    requires
        all_clean(hosts),
    ensures
        urls.no_duplicates() ==> at_known_hosts(urls, url, hosts).no_duplicates(),
        all_clean(urls) && is_clean(url) ==> all_clean(at_known_hosts(urls, url, hosts)),
        at_known_hosts(urls, url, hosts).len() >= urls.len(),
    decreases hosts.len(),
{
    if hosts.len() > 0 {
        assert(all_clean(hosts.drop_last()));
        lemma_at_known_hosts(urls, url, hosts.drop_last());
        assert(is_clean(hosts[hosts.len() - 1]));
        if is_clean(url) {
            lemma_replace_clean(url, "aqqmusic.tc.qq.com"@, hosts.last());
            lemma_replace_clean(url, host_of(url), hosts.last());
        }
        if let Some(moved) = at_other_host(url, hosts.last()) {
            lemma_with_new(at_known_hosts(urls, url, hosts.drop_last()), moved);
        }
    }
}

/// The addresses of one answer: distinct, clean, and at least one where there is a file.
proof fn lemma_file_added(urls: Seq<Seq<char>>, data: Doc, purl: Seq<char>)
    ensures
        ({
            let now = with_known_hosts(with_file(urls, hosts_in(data), usable_purl(data, purl)));
            &&& urls.no_duplicates() ==> now.no_duplicates()
            &&& all_clean(urls) ==> all_clean(now)
            &&& now.len() > 0
        }),
{
    let usable = usable_purl(data, purl);
    lemma_url_chars(purl);
    lemma_cleared_clean(url_chars(purl), None);
    assert(is_clean(usable));
    let hosts = hosts_in(data);
    if let Some(items) = json::items_in(json::member(Some(data), "sip"@)) {
        lemma_hosts_clean(items);
    }
    lemma_known_hosts_clean();
    lemma_strip_clean(usable, '/');
    assert(is_clean(with_slash(usable)));
    assert(is_clean(at_default_host(usable)));
    lemma_with_new(urls, usable);
    lemma_with_new(urls, at_default_host(usable));
    lemma_at_hosts(urls, hosts, with_slash(usable));
    let found = with_file(urls, hosts, usable);
    assert(all_clean(urls) ==> is_clean(found[found.len() - 1]));
    lemma_at_known_hosts(found, found.last(), known_hosts());
}

/// The addresses that a search with a cookie finds are distinct, and are made of
/// nothing but characters of an address.
pub proof fn law_addresses_are_distinct_and_clean(p: PlaybackView, x: ExchangeView)
    requires
        p.stage is Signed,
        p.urls.no_duplicates(),
        all_clean(p.urls),
    ensures
        playback_next(p, x).urls.no_duplicates(),
        all_clean(playback_next(p, x).urls),
{
    if let Ok(d) = request::json_outcome(x) {
        if let Some(data) = request::answer_data(d) {
            if let Some(purl) = file_purl(data) {
                lemma_file_added(p.urls, data, purl);
            }
        }
    }
}

/// The addresses that a search without a cookie finds are made of nothing but
/// characters of an address too.
pub proof fn law_anonymous_addresses_are_clean(p: PlaybackView, x: ExchangeView)
    requires
        p.stage is Anonymous,
        all_clean(p.urls),
    ensures
        all_clean(playback_next(p, x).urls),
{
    if let Ok(d) = request::json_outcome_anon(x) {
        if let Some(data) = request::answer_data(d) {
            if let Some(purl) = file_purl(data) {
                let raw = json::or_else(
                    json::text_in(json::first_item(json::member(Some(data), "sip"@))),
                    seq![],
                );
                lemma_url_chars(purl);
                lemma_host_chars(raw);
                lemma_strip_clean(host_chars(raw), '/');
                lemma_strip_clean(url_chars(purl), '/');
                lemma_known_hosts_clean();
                assert(is_clean(with_slash(url_chars(purl))));
                assert(is_clean(anonymous_url(data, purl)));
            }
        }
    }
}

/// After an answer that names a file which the file server has there is at least
/// one address, and no reason is noted.
pub proof fn law_file_gives_address(urls: Seq<Seq<char>>, reason: Seq<char>, d: Doc)
    requires
        request::answer_code(d) == 0,
        request::answer_data(d) is Some,
        file_purl(request::answer_data(d)->0) is Some,
        !is_missing(request::answer_data(d)->0),
    ensures
        after_answer(urls, reason, d).0.len() > 0,
        after_answer(urls, reason, d).1 == reason,
{
    let data = request::answer_data(d)->0;
    lemma_file_added(urls, data, file_purl(data)->0);
}

// ---------------------------------------------------------------------------
// What holds of a search
// ---------------------------------------------------------------------------
/// How many requests a search can still make.
pub open spec fn searches_left(p: PlaybackView) -> nat {
    match p.stage {
        PlayStage::Signed { index } => if index < p.chain.len() {
            (p.chain.len() - index + 2) as nat
        } else {
            3
        },
        PlayStage::Anonymous { index } => if index == 0 {
            2
        } else {
            1
        },
        PlayStage::Done => 0,
    }
}

/// Every reply brings a search nearer to its end, whatever the reply says, and
/// none changes what is searched for.
pub proof fn law_search_advances(p: PlaybackView, x: ExchangeView)
    requires
        p.chain.len() <= usize::MAX,
    ensures
        !(p.stage is Done) ==> searches_left(playback_next(p, x)) < searches_left(p),
        playback_next(p, x).songmid == p.songmid,
        playback_next(p, x).chain == p.chain,
        playback_next(p, x).guid == p.guid,
{
}

/// The qualities tried begin with the one asked for, or with the standard one
/// where that is unknown, and fall back to both formats of the lowest rate. For
/// each the table has a kind of file.
pub proof fn law_qualities_fall_back(requested: Seq<char>)
    ensures
        2 <= qualities(requested).len() <= 5,
        file_kind_from(requested, 0) is Some ==> qualities(requested)[0] == requested,
        file_kind_from(requested, 0) is None ==> qualities(requested)[0] == "standard"@,
        qualities(requested).contains("standard"@),
        qualities(requested).contains("higher"@),
        forall|i: int|
            0 <= i < qualities(requested).len() ==> file_kind_from(
                #[trigger] qualities(requested)[i],
                0,
            ) is Some,
{
    reveal_with_fuel(file_kind_from, 6);
    let q = qualities(requested);
    let n = q.len() as int;
    assert(q[n - 1] == "standard"@ || q[n - 2] == "standard"@);
    assert(q[n - 1] == "higher"@ || q[n - 2] == "higher"@);
}

/// Whatever a search with a cookie fails for, the search without one is tried.
pub proof fn law_failure_leads_to_anonymous(p: PlaybackView, x: ExchangeView)
    requires
        tries_anonymous(p.reason),
    ensures
        tries_anonymous(playback_next(p, x).reason),
        p.stage is Signed && playback_next(p, x).stage is Done ==> playback_next(p, x).urls.len()
            > 0,
{
    if let Ok(d) = request::json_outcome(x) {
        let code = request::answer_code(d) as int;
        let text = "api_code_"@ + text::decimal_signed(code);
        assert(text.take("api_code_"@.len() as int) =~= "api_code_"@);
    }
}

/// What a search has found is playable exactly where there is an address. Then
/// its address and its candidates are all that were found, in order; else the
/// reason is given.
pub proof fn law_search_result(p: PlaybackView)
    ensures
        playable(p).unavailable <==> p.urls.len() == 0,
        playable(p).unavailable <==> playable(p).url is None,
        playable(p).unavailable <==> playable(p).reason == Some(p.reason),
        playable(p).url matches Some(first) ==> seq![first] + playable(p).audio_candidates
            == p.urls,
{
    if p.urls.len() > 0 {
        assert(seq![p.urls[0]] + p.urls.skip(1) =~= p.urls);
    }
}

/// The number that stands for a device is made of digits, ten at most.
pub proof fn law_guid_is_digits(millis: u128)
    ensures
        text::all_digits(guid_of(millis)),
        1 <= guid_of(millis).len() <= 10,
{
    let n = (millis % 10000000000) as nat;
    text::lemma_decimal_digits(n);
    assert(vstd::arithmetic::power::pow(10, 10) == 10000000000) by {
        reveal_with_fuel(vstd::arithmetic::power::pow, 11);
    }
    text::lemma_decimal_len(n, 10);
}

/// The state after the replies, in order.
pub open spec fn playback_after(p: PlaybackView, replies: Seq<ExchangeView>) -> PlaybackView
    decreases replies.len(),
{
    if replies.len() == 0 {
        p
    } else {
        playback_next(playback_after(p, replies.drop_last()), replies.last())
    }
}

proof fn lemma_search_runs_down(p: PlaybackView, replies: Seq<ExchangeView>)
    requires
        p.chain.len() <= usize::MAX,
    ensures
        playback_after(p, replies).chain == p.chain,
        playback_after(p, replies).stage is Done || searches_left(playback_after(p, replies))
            + replies.len() <= searches_left(p),
    decreases replies.len(),
{
    if replies.len() > 0 {
        lemma_search_runs_down(p, replies.drop_last());
        law_search_advances(playback_after(p, replies.drop_last()), replies.last());
    }
}

/// A search ends after at most seven requests, whatever is answered.
pub proof fn law_search_ends(
    songmid: Seq<char>,
    quality: Option<Seq<char>>,
    millis: u128,
    replies: Seq<ExchangeView>,
)
    requires
        replies.len() >= 7,
    ensures
        playback_after(playback_start(songmid, quality, millis), replies).stage is Done,
{
    lemma_search_runs_down(playback_start(songmid, quality, millis), replies);
}

/// A state that a search reaches with its cookie holds distinct, clean addresses
/// and a reason after which the search goes on without it.
pub open spec fn is_sound(p: PlaybackView) -> bool {
    all_clean(p.urls) && tries_anonymous(p.reason) && (p.stage is Signed ==> p.urls.no_duplicates())
}

/// Every state that a search reaches is sound, from the first on.
pub proof fn law_search_stays_sound(
    songmid: Seq<char>,
    quality: Option<Seq<char>>,
    millis: u128,
    replies: Seq<ExchangeView>,
)
    ensures
        is_sound(playback_after(playback_start(songmid, quality, millis), replies)),
    decreases replies.len(),
{
    if replies.len() > 0 {
        let before = playback_after(
            playback_start(songmid, quality, millis),
            replies.drop_last(),
        );
        law_search_stays_sound(songmid, quality, millis, replies.drop_last());
        law_failure_leads_to_anonymous(before, replies.last());
        if before.stage is Signed {
            law_addresses_are_distinct_and_clean(before, replies.last());
        } else if before.stage is Anonymous {
            law_anonymous_addresses_are_clean(before, replies.last());
        }
    }
}

// ---------------------------------------------------------------------------
// What holds of answers
// ---------------------------------------------------------------------------
proof fn lemma_with_new_keeps(urls: Seq<Seq<char>>, url: Seq<char>)
    ensures
        urls.is_prefix_of(with_new(urls, url)),
        with_new(urls, url).contains(url),
{
    if !urls.contains(url) {
        assert(urls.push(url)[urls.len() as int] == url);
    }
}

proof fn lemma_prefix_contains(a: Seq<Seq<char>>, b: Seq<Seq<char>>, url: Seq<char>)
    requires
        a.is_prefix_of(b),
        a.contains(url),
    ensures
        b.contains(url),
{
    let i = choose|i: int| 0 <= i < a.len() && a[i] == url;
    assert(b.subrange(0, a.len() as int)[i] == b[i]);
    assert(b[i] == url);
}

proof fn lemma_prefix_trans(a: Seq<Seq<char>>, b: Seq<Seq<char>>, c: Seq<Seq<char>>)
    requires
        a.is_prefix_of(b),
        b.is_prefix_of(c),
    ensures
        a.is_prefix_of(c),
{
    assert(c.subrange(0, a.len() as int) =~= b.subrange(0, a.len() as int));
}

proof fn lemma_at_hosts_keeps(urls: Seq<Seq<char>>, hosts: Seq<Seq<char>>, path: Seq<char>)
    ensures
        urls.is_prefix_of(at_hosts(urls, hosts, path)),
        forall|i: int|
            0 <= i < hosts.len() ==> at_hosts(urls, hosts, path).contains(
                #[trigger] hosts[i] + path,
            ),
        urls.len() == 0 && hosts.len() > 0 ==> at_hosts(urls, hosts, path).len() > 0 && at_hosts(
            urls,
            hosts,
            path,
        )[0] == hosts[0] + path,
    decreases hosts.len(),
{
    if hosts.len() > 0 {
        let shorter = hosts.drop_last();
        let before = at_hosts(urls, shorter, path);
        let now = at_hosts(urls, hosts, path);
        lemma_at_hosts_keeps(urls, shorter, path);
        lemma_with_new_keeps(before, hosts.last() + path);
        lemma_prefix_trans(urls, before, now);
        assert forall|i: int| 0 <= i < hosts.len() implies now.contains(
            #[trigger] hosts[i] + path,
        ) by {
            if i < shorter.len() {
                assert(shorter[i] == hosts[i]);
                lemma_prefix_contains(before, now, hosts[i] + path);
            }
        }
        if urls.len() == 0 {
            if shorter.len() == 0 {
                assert(now =~= seq![hosts[0] + path]);
            } else {
                assert(shorter[0] == hosts[0]);
                assert(now.subrange(0, before.len() as int)[0] == now[0]);
            }
        }
    } else {
        assert(urls.subrange(0, urls.len() as int) =~= urls);
    }
}

proof fn lemma_at_known_hosts_keeps(urls: Seq<Seq<char>>, url: Seq<char>, hosts: Seq<Seq<char>>)
    ensures
        urls.is_prefix_of(at_known_hosts(urls, url, hosts)),
        forall|i: int|
            0 <= i < hosts.len() && at_other_host(url, #[trigger] hosts[i]) is Some
                ==> at_known_hosts(urls, url, hosts).contains(at_other_host(url, hosts[i])->0),
    decreases hosts.len(),
{
    if hosts.len() > 0 {
        let shorter = hosts.drop_last();
        let before = at_known_hosts(urls, url, shorter);
        let now = at_known_hosts(urls, url, hosts);
        lemma_at_known_hosts_keeps(urls, url, shorter);
        assert(before.subrange(0, before.len() as int) =~= before);
        if let Some(moved) = at_other_host(url, hosts.last()) {
            lemma_with_new_keeps(before, moved);
        }
        lemma_prefix_trans(urls, before, now);
        assert forall|i: int|
            0 <= i < hosts.len() && at_other_host(url, #[trigger] hosts[i]) is Some
            implies now.contains(at_other_host(url, hosts[i])->0) by {
            if i < shorter.len() {
                assert(shorter[i] == hosts[i]);
                lemma_prefix_contains(before, now, at_other_host(url, hosts[i])->0);
            }
        }
    } else {
        assert(urls.subrange(0, urls.len() as int) =~= urls);
    }
}

proof fn lemma_file_keeps(urls: Seq<Seq<char>>, hosts: Seq<Seq<char>>, purl: Seq<char>)
    ensures
        urls.is_prefix_of(with_file(urls, hosts, purl)),
        with_file(urls, hosts, purl).is_prefix_of(with_known_hosts(with_file(urls, hosts, purl))),
        urls.is_prefix_of(with_known_hosts(with_file(urls, hosts, purl))),
{
    lemma_with_new_keeps(urls, purl);
    lemma_with_new_keeps(urls, at_default_host(purl));
    lemma_at_hosts_keeps(urls, hosts, with_slash(purl));
    let found = with_file(urls, hosts, purl);
    if found.len() > 0 {
        lemma_at_known_hosts_keeps(found, found.last(), known_hosts());
    } else {
        assert(found.subrange(0, found.len() as int) =~= found);
    }
    lemma_prefix_trans(urls, found, with_known_hosts(found));
}

/// No reply takes an address away: the addresses that were found before it are the
/// beginning of those that are known after it, in their order.
pub proof fn law_no_address_is_lost(p: PlaybackView, x: ExchangeView)
    ensures
        p.urls.is_prefix_of(playback_next(p, x).urls),
{
    assert(p.urls.subrange(0, p.urls.len() as int) =~= p.urls);
    if let Ok(d) = request::json_outcome(x) {
        if let Some(data) = request::answer_data(d) {
            if let Some(purl) = file_purl(data) {
                lemma_file_keeps(p.urls, hosts_in(data), usable_purl(data, purl));
            }
        }
    }
}

/// Through a whole search no address is lost.
pub proof fn law_search_keeps_addresses(p: PlaybackView, replies: Seq<ExchangeView>)
    ensures
        p.urls.is_prefix_of(playback_after(p, replies).urls),
    decreases replies.len(),
{
    assert(p.urls.subrange(0, p.urls.len() as int) =~= p.urls);
    if replies.len() > 0 {
        let before = playback_after(p, replies.drop_last());
        law_search_keeps_addresses(p, replies.drop_last());
        law_no_address_is_lost(before, replies.last());
        lemma_prefix_trans(p.urls, before.urls, playback_after(p, replies).urls);
    }
}

/// The part of an answer that speaks of the file.
pub open spec fn answered_file(d: Doc) -> Option<Doc> {
    match json::member(json::member(json::member(Some(d), "req_1"@), "data"@), "midurlinfo"@) {
        Some(Doc::Array(items)) => if items.len() > 0 {
            Some(items[0])
        } else {
            None
        },
        _ => None,
    }
}

/// An answer has the code `code`.
pub open spec fn has_code(d: Doc, code: i64) -> bool {
    let found = json::member(json::member(Some(d), "req_1"@), "code"@);
    if code >= 0 {
        found == Some(Doc::Unsigned(code as u64))
    } else {
        found == Some(Doc::Negative(code))
    }
}

/// An answer that names no file leaves the addresses as they are and says why: that
/// the session has expired, the code of the service, that there are no data, that
/// the song is for members or that the rights are missing. One that names a file
/// leaves the reason as it is.
pub proof fn law_answer_without_file(urls: Seq<Seq<char>>, reason: Seq<char>, d: Doc, code: i64)
    requires
        has_code(d, code),
    ensures
        ({
            let data = json::member(json::member(Some(d), "req_1"@), "data"@);
            let info = answered_file(d);
            let now = after_answer(urls, reason, d);
            &&& code == 500005 ==> now == (urls, "session_invalid"@)
            &&& code != 0 && code != 500005 ==> now == (
                urls,
                "api_code_"@ + text::decimal_signed(code as int),
            )
            &&& code == 0 && data is None ==> now == (urls, "no_data"@)
            &&& code == 0 && data is Some && json::has_no_text(info, "purl"@) ==> now == (
                urls,
                if json::member(info, "errtype"@) == Some(Doc::Unsigned(0)) || json::member(
                    info,
                    "errtype"@,
                ) == Some(Doc::Negative(0)) {
                    "vip_required"@
                } else {
                    "no_copyright"@
                },
            )
            &&& code == 0 && !json::has_no_text(info, "purl"@) && (json::member(data, "msg"@) matches Some(
                Doc::Text(m),
            ) && text::contains(m, "fnameHitCache_404"@)) ==> now == (urls, "no_copyright"@)
            &&& code == 0 && !json::has_no_text(info, "purl"@) && !(json::member(
                data,
                "msg"@,
            ) matches Some(Doc::Text(m)) && text::contains(m, "fnameHitCache_404"@)) ==> now.1
                == reason
        }),
{
    let info = answered_file(d);
    if let Some(t) = json::filled_text_in(json::member(info, "purl"@)) {
        assert(json::has_text(info, "purl"@, t));
    }
    let none: Seq<char> = seq![];
    reveal_strlit("fnameHitCache_404");
    assert(!text::contains(none, "fnameHitCache_404"@));
}

// ---------------------------------------------------------------------------
// What holds of cleaning
// ---------------------------------------------------------------------------
/// The characters that a host address may be made of.
pub open spec fn host_alphabet() -> Seq<char> {
    "0123456789ABCDEFGHIJKLMNOPQRSTUVWXYZabcdefghijklmnopqrstuvwxyz.:/-_"@
}

/// Every character of `s` is one of `alphabet`.
pub open spec fn made_of(s: Seq<char>, alphabet: Seq<char>) -> bool {
    forall|i: int| 0 <= i < s.len() ==> alphabet.contains(#[trigger] s[i])
}

proof fn lemma_host_alphabet(c: char)
    ensures
        is_host_char(c) <==> host_alphabet().contains(c),
{
    reveal_strlit("0123456789ABCDEFGHIJKLMNOPQRSTUVWXYZabcdefghijklmnopqrstuvwxyz.:/-_");
    let a = host_alphabet();
    if is_host_char(c) {
        if '0' <= c <= '9' {
            assert(a[c as int - '0' as int] == c);
        } else if 'A' <= c <= 'Z' {
            assert(a[c as int - 'A' as int + 10] == c);
        } else if 'a' <= c <= 'z' {
            assert(a[c as int - 'a' as int + 36] == c);
        } else {
            assert(a[62] == '.' && a[63] == ':' && a[64] == '/' && a[65] == '-' && a[66] == '_');
        }
    }
}

/// Cleaning a file address takes away exactly the characters that an address with a
/// query cannot hold, and keeps the others in their order. Cleaning a host address
/// does the same for its characters, and takes the slashes at its end.
pub proof fn law_cleaning_filters(s: Seq<char>)
    ensures
        url_chars(s) == s.filter(
            |c: char|
                host_alphabet().contains(c) || c == '?' || c == '=' || c == '&' || c == '%',
        ),
        clean_host(s) == text::strip_end(s.filter(|c: char| host_alphabet().contains(c)), '/'),
    decreases s.len(),
{
    let in_url = |c: char|
        host_alphabet().contains(c) || c == '?' || c == '=' || c == '&' || c == '%';
    let in_host = |c: char| host_alphabet().contains(c);
    lemma_filters(s, in_url, in_host);
}

proof fn lemma_filters(s: Seq<char>, in_url: spec_fn(char) -> bool, in_host: spec_fn(char) -> bool)
    requires
        forall|c: char| #[trigger]
            in_url(c) == (host_alphabet().contains(c) || c == '?' || c == '=' || c == '&' || c
                == '%'),
        forall|c: char| #[trigger] in_host(c) == host_alphabet().contains(c),
    ensures
        url_chars(s) == s.filter(in_url),
        host_chars(s) == s.filter(in_host),
    decreases s.len(),
{
    reveal(Seq::filter);
    if s.len() > 0 {
        lemma_filters(s.drop_last(), in_url, in_host);
        lemma_host_alphabet(s.last());
        assert(in_url(s.last()) == is_url_char(s.last()));
        assert(in_host(s.last()) == is_host_char(s.last()));
    } else {
        assert(s.filter(in_url) =~= seq![]);
        assert(s.filter(in_host) =~= seq![]);
    }
}

/// A text that is clean already stays as it is.
proof fn lemma_clean_stays(s: Seq<char>)
    ensures
        is_clean(s) ==> url_chars(s) == s,
        (forall|i: int| 0 <= i < s.len() ==> is_host_char(#[trigger] s[i])) ==> host_chars(s) == s,
    decreases s.len(),
{
    if s.len() > 0 {
        let front = s.drop_last();
        lemma_clean_stays(front);
        if is_clean(s) {
            assert(is_clean(front));
            assert(is_url_char(s[s.len() - 1]));
            assert(url_chars(s) =~= s);
        }
        if forall|i: int| 0 <= i < s.len() ==> is_host_char(#[trigger] s[i]) {
            assert forall|i: int| 0 <= i < front.len() implies is_host_char(#[trigger] front[i]) by {
                assert(front[i] == s[i]);
            }
            assert(is_host_char(s[s.len() - 1]));
            assert(host_chars(s) =~= s);
        }
    }
}

/// Of an address that has one parameter `uin`, exactly its value goes: what stands
/// before it and what follows it stays.
pub proof fn law_clearing_takes_value_alone(
    before: Seq<char>,
    opening: char,
    value: Seq<char>,
    rest: Seq<char>,
)
    requires
        opening == '?' || opening == '&',
        !before.contains('?'),
        !before.contains('&'),
        !value.contains('&'),
        !value.contains('#'),
        rest.len() > 0 ==> rest[0] == '&' || rest[0] == '#',
    ensures
        cleared(before + seq![opening] + seq!['u', 'i', 'n', '='] + value + rest) == before + seq![
            opening,
        ] + seq!['u', 'i', 'n', '='] + cleared(rest),
{
    let name = seq!['u', 'i', 'n', '='];
    let tail = seq![opening] + (name + value + rest);
    assert(before + seq![opening] + name + value + rest =~= before + tail);
    lemma_cleared_skips(before, tail, None);
    let inner = name + value + rest;
    assert(tail.skip(1) =~= inner);
    assert(tail[0] == opening);
    let prev = if before.len() > 0 {
        Some(before.last())
    } else {
        None
    };
    if before.len() > 0 {
        assert(before.contains(before.last()));
    }
    assert(cleared_from(tail, prev) == seq![opening] + cleared_from(inner, Some(opening)));
    assert(inner.take(4) =~= name);
    assert(inner.skip(4) =~= value + rest);
    let ends = seq!['&', '#'];
    assert forall|j: int| 0 <= j < value.len() implies !ends.contains(
        #[trigger] (value + rest)[j],
    ) by {
        assert((value + rest)[j] == value[j]);
        assert(value.contains(value[j]));
    }
    assert(ends[0] == '&' && ends[1] == '#');
    text::lemma_find_any_set_is(value + rest, ends, value.len() as int);
    assert((value + rest).skip(value.len() as int) =~= rest);
    assert(before + (seq![opening] + (name + cleared(rest))) =~= before + seq![opening] + name
        + cleared(rest));
}

/// What opens no parameter is passed over.
proof fn lemma_cleared_skips(before: Seq<char>, tail: Seq<char>, prev: Option<char>)
    requires
        !before.contains('?'),
        !before.contains('&'),
        prev is Some ==> !opens_parameter(prev->0),
    ensures
        cleared_from(before + tail, prev) == before + cleared_from(
            tail,
            if before.len() > 0 {
                Some(before.last())
            } else {
                prev
            },
        ),
    decreases before.len(),
{
    if before.len() == 0 {
        assert(before + tail =~= tail);
        assert(before + cleared_from(tail, prev) =~= cleared_from(tail, prev));
    } else {
        let rest = before.skip(1);
        assert(before.contains(before[0]));
        assert forall|c: char| rest.contains(c) implies before.contains(c) by {
            let j = choose|j: int| 0 <= j < rest.len() && rest[j] == c;
            assert(before[j + 1] == c);
        }
        lemma_cleared_skips(rest, tail, Some(before[0]));
        assert((before + tail).skip(1) =~= rest + tail);
        assert((before + tail)[0] == before[0]);
        let end = cleared_from(tail, Some(before.last()));
        if rest.len() > 0 {
            assert(rest.last() == before.last());
        }
        assert(seq![before[0]] + (rest + end) =~= before + end);
    }
}

// ---------------------------------------------------------------------------
// What holds of the addresses of a file
// ---------------------------------------------------------------------------
/// An answer of the code zero whose data are `data` and which names the file `purl`
/// that the file server has.
pub open spec fn names_file(d: Doc, data: Doc, purl: Seq<char>) -> bool {
    &&& has_code(d, 0)
    &&& json::member(json::member(Some(d), "req_1"@), "data"@) == Some(data)
    &&& json::has_text(answered_file(d), "purl"@, purl)
    &&& !(json::member(Some(data), "msg"@) matches Some(Doc::Text(m)) && text::contains(
        m,
        "fnameHitCache_404"@,
    ))
}

proof fn lemma_names_file(d: Doc, data: Doc, purl: Seq<char>)
    requires
        names_file(d, data, purl),
    ensures
        request::answer_code(d) == 0,
        request::answer_data(d) == Some(data),
        file_purl(data) == Some(purl),
        !is_missing(data),
{
    let none: Seq<char> = seq![];
    reveal_strlit("fnameHitCache_404");
    assert(!text::contains(none, "fnameHitCache_404"@));
}

/// A host address that needs no cleaning.
pub open spec fn is_plain_host(h: Seq<char>) -> bool {
    made_of(h, host_alphabet()) && text::starts_with(h, "http"@) && h.last() != '/'
}

proof fn lemma_plain_host(h: Seq<char>)
    requires
        is_plain_host(h),
    ensures
        clean_host(h) == h,
{
    assert forall|i: int| 0 <= i < h.len() implies is_host_char(#[trigger] h[i]) by {
        lemma_host_alphabet(h[i]);
    }
    lemma_clean_stays(h);
    reveal_strlit("http");
}

proof fn lemma_hosts_has(items: Seq<Doc>, i: int, h: Seq<char>)
    requires
        0 <= i < items.len(),
        items[i] == Doc::Text(h),
        is_plain_host(h),
    ensures
        hosts_among(items).contains(h),
        i == 0 ==> hosts_among(items)[0] == h,
    decreases items.len(),
{
    let shorter = items.drop_last();
    lemma_plain_host(h);
    let before = hosts_among(shorter);
    let now = hosts_among(items);
    if i < shorter.len() {
        lemma_hosts_has(shorter, i, h);
        let k = choose|k: int| 0 <= k < before.len() && before[k] == h;
        assert(now[k] == h);
        assert(now[0] == before[0]);
    } else {
        assert(items.last() == items[i]);
        assert(now[before.len() as int] == h);
        if i == 0 {
            assert(before =~= seq![]);
        }
    }
}

/// A file that an answer names, without the host, is offered at every host that the
/// answer names, and first at the first of them; at the default host where it names
/// none. One that is named with its host is offered as it is.
pub proof fn law_file_is_offered(
    urls: Seq<Seq<char>>,
    reason: Seq<char>,
    d: Doc,
    data: Doc,
    purl: Seq<char>,
    account: Seq<char>,
    hosts: Seq<Doc>,
    i: int,
    h: Seq<char>,
)
    requires
        names_file(d, data, purl),
        is_clean(purl),
        json::has_text(Some(data), "uin"@, account) || !text::contains(purl, "uin="@),
    ensures
        ({
            let now = after_answer(urls, reason, d).0;
            let sip = json::member(Some(data), "sip"@);
            &&& text::starts_with(purl, "http"@) ==> now.contains(purl)
            &&& !text::starts_with(purl, "http"@) && purl[0] != '/' && sip == Some(
                Doc::Array(hosts),
            ) && 0 <= i < hosts.len() && hosts[i] == Doc::Text(h) && is_plain_host(h) ==> {
                &&& now.contains(h + "/"@ + purl)
                &&& i == 0 && urls.len() == 0 ==> now[0] == h + "/"@ + purl
            }
            &&& !text::starts_with(purl, "http"@) && purl[0] != '/' && !(sip matches Some(
                Doc::Array(_),
            )) ==> now.contains("http://ws.stream.qqmusic.qq.com/"@ + purl)
        }),
{
    lemma_names_file(d, data, purl);
    lemma_clean_stays(purl);
    if !text::contains(purl, "uin="@) {
        lemma_without_uin_stays(purl);
    }
    assert(usable_purl(data, purl) == purl);
    let known = hosts_in(data);
    lemma_file_keeps(urls, known, purl);
    let found = with_file(urls, known, purl);
    let now = after_answer(urls, reason, d).0;
    reveal_strlit("/");
    if text::starts_with(purl, "http"@) {
        lemma_with_new_keeps(urls, purl);
        lemma_prefix_contains(found, now, purl);
    } else if purl[0] != '/' {
        assert(!text::starts_with(purl, "/"@)) by {
            if text::starts_with(purl, "/"@) {
                assert(purl.take(1)[0] == "/"@[0]);
            }
        }
        let path = "/"@ + purl;
        if json::member(Some(data), "sip"@) == Some(Doc::Array(hosts)) && 0 <= i < hosts.len()
            && hosts[i] == Doc::Text(h) && is_plain_host(h) {
            lemma_hosts_has(hosts, i, h);
            let k = choose|k: int| 0 <= k < known.len() && known[k] == h;
            lemma_at_hosts_keeps(urls, known, path);
            assert(found.contains(known[k] + path));
            assert(h + "/"@ + purl =~= h + path);
            lemma_prefix_contains(found, now, h + path);
            if i == 0 && urls.len() == 0 {
                assert(now.subrange(0, found.len() as int)[0] == now[0]);
            }
        }
        if !(json::member(Some(data), "sip"@) matches Some(Doc::Array(_))) {
            let url = at_default_host(purl);
            lemma_with_new_keeps(urls, url);
            lemma_prefix_contains(found, now, url);
        }
    }
}

/// An address without a parameter `uin` has none to clear.
proof fn lemma_without_uin_stays(t: Seq<char>)
    requires
        !text::contains(t, "uin="@),
    ensures
        cleared(t) == t,
{
    reveal_strlit("uin=");
    assert("uin="@ =~= seq!['u', 'i', 'n', '=']);
    text::law_found_at_first_place(t, "uin="@);
    assert forall|i: int| #[trigger] uin_at(t, i) implies no_value_at(t, i) by {
        assert(t.skip(i).take(4) =~= t.subrange(i, i + 4));
        assert(text::occurs_at(t, "uin="@, i));
    }
    lemma_cleared_same(t, None);
}

/// An answer to a request without a cookie adds at most one address: that of the
/// file it names, at the first host it names, or at the default host. Without a
/// file it adds none.
pub proof fn law_anonymous_file_is_offered(
    urls: Seq<Seq<char>>,
    d: Doc,
    data: Doc,
    purl: Seq<char>,
    hosts: Seq<Doc>,
    h: Seq<char>,
)
    ensures
        names_file(d, data, purl) && is_clean(purl) ==> {
            let now = after_anonymous(urls, d);
            let sip = json::member(Some(data), "sip"@);
            &&& now.len() == urls.len() + 1
            &&& urls.is_prefix_of(now)
            &&& text::starts_with(purl, "http"@) ==> now.last() == purl
            &&& !text::starts_with(purl, "http"@) && purl[0] != '/' && sip == Some(
                Doc::Array(hosts),
            ) && hosts.len() > 0 && hosts[0] == Doc::Text(h) && is_plain_host(h) ==> now.last() == h
                + "/"@ + purl
            &&& !text::starts_with(purl, "http"@) && purl[0] != '/' && !(sip matches Some(
                Doc::Array(_),
            )) ==> now.last() == "http://ws.stream.qqmusic.qq.com/"@ + purl
        },
        json::has_no_text(answered_file(d), "purl"@) ==> after_anonymous(urls, d) == urls,
        !has_code(d, 0) && !(json::member(json::member(Some(d), "req_1"@), "code"@) == Some(
            Doc::Negative(0),
        )) ==> after_anonymous(urls, d) == urls,
{
    reveal_strlit("/");
    reveal_strlit("http");
    if names_file(d, data, purl) && is_clean(purl) {
        lemma_names_file(d, data, purl);
        lemma_clean_stays(purl);
        let now = after_anonymous(urls, d);
        assert(now.subrange(0, urls.len() as int) =~= urls);
        if purl[0] != '/' {
            assert(!text::starts_with(purl, "/"@)) by {
                if text::starts_with(purl, "/"@) {
                    assert(purl.take(1)[0] == "/"@[0]);
                }
            }
            if is_plain_host(h) {
                lemma_plain_host(h);
                assert(h + ("/"@ + purl) =~= h + "/"@ + purl);
            }
        }
        if !(json::member(Some(data), "sip"@) matches Some(Doc::Array(_))) {
            let none: Seq<char> = seq![];
            assert(host_chars(none) =~= none);
            assert(clean_host(none) =~= none);
        }
    }
    if json::has_no_text(answered_file(d), "purl"@) {
        if let Some(t) = json::filled_text_in(json::member(answered_file(d), "purl"@)) {
            assert(json::has_text(answered_file(d), "purl"@, t));
        }
    }
}

/// A file at the host whose name is `aqqmusic.tc.qq.com` is offered at each of the
/// known hosts too, with the same path.
pub proof fn law_file_is_moved_to_known_hosts(
    urls: Seq<Seq<char>>,
    reason: Seq<char>,
    d: Doc,
    data: Doc,
    path: Seq<char>,
    account: Seq<char>,
    host: Seq<char>,
)
    requires
        names_file(d, data, "http://aqqmusic.tc.qq.com"@ + path),
        is_clean(path),
        json::has_text(Some(data), "uin"@, account),
        !text::contains(path, "aqqmusic.tc.qq.com"@),
        !urls.contains("http://aqqmusic.tc.qq.com"@ + path),
        host == "ws.stream.qqmusic.qq.com"@ || host == "dl.stream.qqmusic.qq.com"@ || host
            == "isure.stream.qqmusic.qq.com"@ || host == "streamoc.music.tc.qq.com"@,
    ensures
        after_answer(urls, reason, d).0.contains("http://"@ + host + path),
{
    let old_host = "aqqmusic.tc.qq.com"@;
    let front = "http://"@;
    let url = "http://aqqmusic.tc.qq.com"@ + path;
    reveal_strlit("http");
    reveal_strlit("http://");
    reveal_strlit("aqqmusic.tc.qq.com");
    reveal_strlit("http://aqqmusic.tc.qq.com");
    assert("http://aqqmusic.tc.qq.com"@ =~= front + old_host);
    assert(url =~= front + old_host + path);
    assert(url.take(4) =~= "http"@);
    assert(is_clean("http://aqqmusic.tc.qq.com"@));
    assert(is_clean(url));
    lemma_names_file(d, data, url);
    lemma_clean_stays(url);
    let found = with_file(urls, hosts_in(data), url);
    assert(found == urls.push(url));
    assert forall|i: int| 0 <= i < front.len() implies !#[trigger] text::occurs_at(
        front + old_host + path,
        old_host,
        i,
    ) by {
        let s = front + old_host + path;
        if text::occurs_at(s, old_host, i) {
            assert(s.subrange(i, i + old_host.len())[0] == s[i]);
            assert(s[i] == front[i]);
            assert(old_host[0] == 'a');
        }
    }
    text::law_replace_goes_on(front, old_host, path, host);
    text::law_replace_goes_on(path, old_host, path, host);
    text::law_part_is_contained(front, old_host, path);
    assert(at_other_host(url, host) == Some(front + host + path));
    let hosts = known_hosts();
    assert(hosts[0] == "ws.stream.qqmusic.qq.com"@ && hosts[1] == "dl.stream.qqmusic.qq.com"@
        && hosts[2] == "isure.stream.qqmusic.qq.com"@ && hosts[3] == "streamoc.music.tc.qq.com"@);
    lemma_at_known_hosts_keeps(found, url, hosts);
    let k: int = if host == hosts[0] {
        0
    } else if host == hosts[1] {
        1
    } else if host == hosts[2] {
        2
    } else {
        3
    };
    assert(hosts[k] == host);
    assert(at_known_hosts(found, url, hosts).contains(at_other_host(url, hosts[k])->0));
}

// ---------------------------------------------------------------------------
// What holds of the requests of a search
// ---------------------------------------------------------------------------
/// The place of a quality among the qualities, from the lowest on.
pub open spec fn rank(quality: Seq<char>) -> int {
    if quality == "hires"@ {
        4
    } else if quality == "lossless"@ {
        3
    } else if quality == "exhigh"@ {
        2
    } else if quality == "higher"@ {
        1
    } else if quality == "standard"@ {
        0
    } else {
        -1
    }
}

proof fn lemma_qualities_differ()
    ensures
        rank("hires"@) == 4,
        rank("lossless"@) == 3,
        rank("exhigh"@) == 2,
        rank("higher"@) == 1,
        rank("standard"@) == 0,
{
    reveal_strlit("hires");
    reveal_strlit("lossless");
    reveal_strlit("exhigh");
    reveal_strlit("higher");
    reveal_strlit("standard");
    assert("hires"@.len() == 5 && "exhigh"@.len() == 6 && "higher"@.len() == 6);
    assert("lossless"@.len() == 8 && "standard"@.len() == 8);
    assert("exhigh"@[0] == 'e' && "higher"@[0] == 'h');
    assert("lossless"@[0] == 'l' && "standard"@[0] == 's');
}

/// The qualities are tried from the one asked for down to the lowest, one by one. The
/// lowest, and a quality that is unknown, is tried in the standard format first and
/// in the other one then.
pub proof fn law_qualities_go_down(requested: Seq<char>)
    ensures
        ({
            let q = qualities(requested);
            let r = rank(requested);
            &&& r >= 1 ==> q.len() == r + 1 && forall|i: int|
                0 <= i < q.len() ==> rank(#[trigger] q[i]) == r - i
            &&& r < 1 ==> q.len() == 2 && rank(q[0]) == 0 && rank(q[1]) == 1
        }),
{
    lemma_qualities_differ();
}

/// The files of the qualities have the prefix and the extension that the service
/// gives them, around the identifier of the song.
pub proof fn law_files_are_named_by_quality(
    songmid: Seq<char>,
    prefix: Seq<char>,
    extension: Seq<char>,
    quality: Seq<char>,
)
    ensures
        file_name("standard"@, songmid, prefix, extension) == "C400"@ + songmid + ".m4a"@,
        file_name("higher"@, songmid, prefix, extension) == "M500"@ + songmid + ".mp3"@,
        file_name("exhigh"@, songmid, prefix, extension) == "M800"@ + songmid + ".mp3"@,
        file_name("lossless"@, songmid, prefix, extension) == "F000"@ + songmid + ".flac"@,
        file_name("hires"@, songmid, prefix, extension) == "RS01"@ + songmid + ".flac"@,
        rank(quality) < 0 ==> file_name(quality, songmid, prefix, extension) == prefix + songmid
            + "."@ + extension,
{
    lemma_qualities_differ();
    reveal_with_fuel(file_kind_from, 6);
    reveal_strlit(".");
    reveal_strlit("m4a");
    reveal_strlit("mp3");
    reveal_strlit("flac");
    reveal_strlit(".m4a");
    reveal_strlit(".mp3");
    reveal_strlit(".flac");
    assert("C400"@ + songmid + "."@ + "m4a"@ =~= "C400"@ + songmid + ".m4a"@);
    assert("M500"@ + songmid + "."@ + "mp3"@ =~= "M500"@ + songmid + ".mp3"@);
    assert("M800"@ + songmid + "."@ + "mp3"@ =~= "M800"@ + songmid + ".mp3"@);
    assert("F000"@ + songmid + "."@ + "flac"@ =~= "F000"@ + songmid + ".flac"@);
    assert("RS01"@ + songmid + "."@ + "flac"@ =~= "RS01"@ + songmid + ".flac"@);
}

/// A body asks for the key to the file `file` of the song, for the device and the
/// account given.
pub open spec fn asks_for_file(
    body: Doc,
    comm_uin: Seq<char>,
    guid: Seq<char>,
    songmid: Seq<char>,
    file: Seq<char>,
    uin: Seq<char>,
    loginflag: u64,
) -> bool {
    let call = json::member(Some(body), "req_1"@);
    let param = json::member(call, "param"@);
    &&& json::member(json::member(Some(body), "comm"@), "uin"@) == Some(Doc::Text(comm_uin))
    &&& json::member(call, "module"@) == Some(Doc::Text("vkey.GetVkeyServer"@))
    &&& json::member(call, "method"@) == Some(Doc::Text("CgiGetVkey"@))
    &&& json::member(param, "guid"@) == Some(Doc::Text(guid))
    &&& json::member(param, "songmid"@) == Some(Doc::Array(seq![Doc::Text(songmid)]))
    &&& json::member(param, "songtype"@) == Some(Doc::Array(seq![Doc::Unsigned(0)]))
    &&& json::member(param, "filename"@) == Some(Doc::Array(seq![Doc::Text(file)]))
    &&& json::member(param, "uin"@) == Some(Doc::Text(uin))
    &&& json::member(param, "loginflag"@) == Some(Doc::Unsigned(loginflag))
    &&& json::member(param, "platform"@) == Some(Doc::Text("20"@))
}

proof fn lemma_asks_for_file(
    comm_uin: Seq<char>,
    guid: Seq<char>,
    songmid: Seq<char>,
    file: Seq<char>,
    uin: Seq<char>,
    loginflag: u64,
)
    ensures
        asks_for_file(
            vkey_doc(comm_uin, guid, songmid, file, uin, loginflag),
            comm_uin,
            guid,
            songmid,
            file,
            uin,
            loginflag,
        ),
{
    reveal_strlit("guid");
    reveal_strlit("songmid");
    reveal_strlit("songtype");
    reveal_strlit("filename");
    reveal_strlit("uin");
    reveal_strlit("loginflag");
    reveal_strlit("platform");
    assert("guid"@.len() == 4 && "songmid"@.len() == 7 && "uin"@.len() == 3 && "loginflag"@.len()
        == 9);
    assert("songtype"@.len() == 8 && "filename"@.len() == 8 && "platform"@.len() == 8);
    assert("songtype"@[0] == 's' && "filename"@[0] == 'f' && "platform"@[0] == 'p');
    let given = seq![
        ("guid"@, Doc::Text(guid)),
        ("songmid"@, Doc::Array(seq![Doc::Text(songmid)])),
        ("songtype"@, Doc::Array(seq![Doc::Unsigned(0)])),
        ("filename"@, Doc::Array(seq![Doc::Text(file)])),
        ("uin"@, Doc::Text(uin)),
        ("loginflag"@, Doc::Unsigned(loginflag)),
        ("platform"@, Doc::Text("20"@)),
    ];
    json::law_object_has_its_members(given, "guid"@, 0);
    json::law_object_has_its_members(given, "songmid"@, 1);
    json::law_object_has_its_members(given, "songtype"@, 2);
    json::law_object_has_its_members(given, "filename"@, 3);
    json::law_object_has_its_members(given, "uin"@, 4);
    json::law_object_has_its_members(given, "loginflag"@, 5);
    json::law_object_has_its_members(given, "platform"@, 6);
    request::law_call_names_its_parts(
        comm_uin,
        "vkey.GetVkeyServer"@,
        "CgiGetVkey"@,
        vkey_param(guid, songmid, file, uin, loginflag),
    );
}

/// Each request of a search asks for the file of the song in the quality whose turn
/// it is. The requests for the qualities of the chain carry the cookie and name the
/// account, and the two behind them, for the two lowest qualities, neither.
pub proof fn law_search_asks_for_the_song(
    p: PlaybackView,
    token: Option<Seq<char>>,
    millis: u128,
)
    ensures
        match p.stage {
            PlayStage::Signed { index } => index < p.chain.len() ==> exists|body: Doc|
                playback_request_of(p, token, millis) == Some(
                    #[trigger] request::json_request_of(
                        token,
                        "https://u.y.qq.com/cgi-bin/musicu.fcg"@,
                        body,
                    ),
                ) && asks_for_file(
                    body,
                    account::uin_of(token),
                    p.guid,
                    p.songmid,
                    file_name(p.chain[index as int], p.songmid, "M800"@, "mp3"@),
                    text::decimal(account::uin_num_of(token) as nat),
                    if token is Some {
                        1
                    } else {
                        0
                    },
                ),
            PlayStage::Anonymous { index } => exists|body: Doc|
                playback_request_of(p, token, millis) == Some(
                    #[trigger] request::json_request_of(
                        None,
                        "https://u.y.qq.com/cgi-bin/musicu.fcg"@,
                        body,
                    ),
                ) && asks_for_file(
                    body,
                    "0"@,
                    guid_of(millis),
                    p.songmid,
                    if index == 0 {
                        "C400"@ + p.songmid + ".m4a"@
                    } else {
                        "M500"@ + p.songmid + ".mp3"@
                    },
                    "0"@,
                    0,
                ),
            PlayStage::Done => playback_request_of(p, token, millis) is None,
        },
{
    match p.stage {
        PlayStage::Signed { index } => {
            if index < p.chain.len() {
                let file = file_name(p.chain[index as int], p.songmid, "M800"@, "mp3"@);
                let uin = text::decimal(account::uin_num_of(token) as nat);
                let flag: u64 = if token is Some {
                    1
                } else {
                    0
                };
                let body = vkey_doc(account::uin_of(token), p.guid, p.songmid, file, uin, flag);
                lemma_asks_for_file(account::uin_of(token), p.guid, p.songmid, file, uin, flag);
                assert(playback_request_of(p, token, millis) == Some(
                    request::json_request_of(
                        token,
                        "https://u.y.qq.com/cgi-bin/musicu.fcg"@,
                        body,
                    ),
                ));
            }
        },
        PlayStage::Anonymous { index } => {
            law_files_are_named_by_quality(p.songmid, "C400"@, "m4a"@, "standard"@);
            let file = file_name(anonymous_quality(index), p.songmid, "C400"@, "m4a"@);
            let body = vkey_doc("0"@, guid_of(millis), p.songmid, file, "0"@, 0);
            lemma_asks_for_file("0"@, guid_of(millis), p.songmid, file, "0"@, 0);
            assert(playback_request_of(p, token, millis) == Some(
                request::json_request_of(None, "https://u.y.qq.com/cgi-bin/musicu.fcg"@, body),
            ));
        },
        PlayStage::Done => {},
    }
}

/// A search begins with the quality asked for, the standard one where none is, and
/// with no address. It asks for every quality of the chain in turn, whatever is
/// answered, and goes on without a cookie exactly where no address was found; then
/// it asks twice.
pub proof fn law_search_takes_its_turns(
    songmid: Seq<char>,
    quality: Option<Seq<char>>,
    millis: u128,
    p: PlaybackView,
    x: ExchangeView,
)
    ensures
        ({
            let start = playback_start(songmid, quality, millis);
            &&& start.songmid == songmid
            &&& start.urls.len() == 0
            &&& start.stage == PlayStage::Signed { index: 0 }
            &&& quality is None ==> rank(start.chain[0]) == 0
            &&& quality matches Some(q) ==> (rank(q) >= 0 ==> start.chain[0] == q) && (rank(q) < 0
                ==> rank(start.chain[0]) == 0)
        }),
        match p.stage {
            PlayStage::Signed { index } => if index + 1 < p.chain.len() {
                playback_next(p, x).stage == (PlayStage::Signed { index: (index + 1) as usize })
            } else {
                &&& playback_next(p, x).urls.len() > 0 ==> playback_next(p, x).stage is Done
                &&& playback_next(p, x).urls.len() == 0 && tries_anonymous(p.reason)
                    ==> playback_next(p, x).stage == PlayStage::Anonymous { index: 0 }
            },
            PlayStage::Anonymous { index } => playback_next(p, x).stage == (if index == 0 {
                PlayStage::Anonymous { index: 1 }
            } else {
                PlayStage::Done
            }),
            PlayStage::Done => playback_next(p, x) == p,
        },
{
    lemma_qualities_differ();
    lemma_reason_stays_worth_trying(p, x);
}

proof fn lemma_reason_stays_worth_trying(p: PlaybackView, x: ExchangeView)
    ensures
        tries_anonymous(p.reason) ==> tries_anonymous(playback_next(p, x).reason),
{
    if tries_anonymous(p.reason) {
        law_failure_leads_to_anonymous(p, x);
    }
}

/// The result of a search is that of its song, and has nothing to see.
pub proof fn law_result_is_of_the_song(p: PlaybackView)
    ensures
        playable(p).song_id == p.songmid,
        playable(p).video_url is None,
        playable(p).video_candidates.len() == 0,
        playable(p).unavailable ==> playable(p).audio_candidates.len() == 0,
        !playable(p).unavailable ==> playable(p).reason is None && playable(p).url == Some(
            p.urls[0],
        ),
{
}

/// A message is about what it says. Where it says several things, being asked to wait
/// comes first, then membership, rights, region, removal, session, signature and
/// time.
pub proof fn law_message_says_reason(m: Seq<char>)
    ensures
        ({
            let limited = text::contains(m, "rate_limited"@) || text::contains(m, "412"@)
                || text::contains(m, "503"@);
            let vip = text::contains(m, "vip"@) || text::contains(m, "绿钻"@);
            let rights = text::contains(m, "copyright"@) || text::contains(m, "版权"@);
            let region = text::contains(m, "region"@) || text::contains(m, "地区"@);
            let removed = text::contains(m, "removed"@) || text::contains(m, "下架"@);
            let expired = text::contains(m, "expired"@) || text::contains(m, "过期"@);
            let sign = text::contains(m, "sign"@) || text::contains(m, "签名"@);
            let late = text::contains(m, "timeout"@) || text::contains(m, "超时"@);
            let r = lowered_reason(m);
            &&& limited ==> r == "rate_limited"@
            &&& vip && !limited ==> r == "vip_required"@
            &&& rights && !limited && !vip ==> r == "no_copyright"@
            &&& region && !limited && !vip && !rights ==> r == "region_restricted"@
            &&& removed && !limited && !vip && !rights && !region ==> r == "song_removed"@
            &&& expired && !limited && !vip && !rights && !region && !removed ==> r
                == "session_expired"@
            &&& sign && !limited && !vip && !rights && !region && !removed && !expired ==> r
                == "sign_invalid"@
            &&& late && !limited && !vip && !rights && !region && !removed && !expired && !sign
                ==> r == "timeout"@
            &&& !limited && !vip && !rights && !region && !removed && !expired && !sign && !late
                ==> r == "api_failed"@
        }),
{
}

/// A request that fails leaves the addresses as they are and is noted as the reason; one
/// without a cookie changes no reason.
pub proof fn law_failed_request_is_noted(p: PlaybackView, x: ExchangeView)
    ensures
        p.stage is Signed && request::json_outcome(x) is Err ==> playback_next(p, x).urls == p.urls
            && playback_next(p, x).reason == "request_failed"@,
        p.stage is Signed && request::json_outcome(x) is Ok ==> (
        playback_next(p, x).urls,
        playback_next(p, x).reason,
        ) == after_answer(p.urls, p.reason, request::json_outcome(x)->Ok_0),
        p.stage is Anonymous ==> playback_next(p, x).reason == p.reason,
        p.stage is Anonymous && request::json_outcome_anon(x) is Err ==> playback_next(p, x).urls
            == p.urls,
        p.stage is Anonymous && request::json_outcome_anon(x) is Ok ==> playback_next(p, x).urls
            == after_anonymous(p.urls, request::json_outcome_anon(x)->Ok_0),
{
}

/// The search goes on without a cookie after an invalid session, a code of the service,
/// a song for members, missing rights, a failed request and missing data; not after a
/// wish to be left alone or a removed song.
pub proof fn law_reasons_to_go_on(code: int)
    ensures
        tries_anonymous("session_invalid"@),
        tries_anonymous("server_not_authenticated"@),
        tries_anonymous("api_code_"@ + text::decimal_signed(code)),
        tries_anonymous("vip_required"@),
        tries_anonymous("no_copyright"@),
        tries_anonymous("request_failed"@),
        tries_anonymous("no_data"@),
        tries_anonymous("unknown"@),
        !tries_anonymous("rate_limited"@),
        !tries_anonymous("song_removed"@),
        !tries_anonymous("timeout"@),
{
    let t = "api_code_"@ + text::decimal_signed(code);
    assert(t.take("api_code_"@.len() as int) =~= "api_code_"@);
    reveal_strlit("session_invalid");
    reveal_strlit("server_not_authenticated");
    reveal_strlit("api_code_");
    reveal_strlit("vip_required");
    reveal_strlit("no_copyright");
    reveal_strlit("request_failed");
    reveal_strlit("no_data");
    reveal_strlit("unknown");
    reveal_strlit("rate_limited");
    reveal_strlit("song_removed");
    reveal_strlit("timeout");
    lemma_no_reason("rate_limited"@, 'r');
    lemma_no_reason("song_removed"@, 's');
    lemma_no_reason("timeout"@, 't');
}

proof fn lemma_no_reason(reason: Seq<char>, c: char)
    requires
        reason.len() > 3,
        reason[0] == c,
        c != 'a' && c != 'v' && c != 'n' && c != 'u',
        c == 'r' ==> reason[1] != 'e',
        c == 's' ==> reason[1] != 'e',
    ensures
        !tries_anonymous(reason),
{
    reveal_strlit("session_invalid");
    reveal_strlit("server_not_authenticated");
    reveal_strlit("api_code_");
    reveal_strlit("vip_required");
    reveal_strlit("no_copyright");
    reveal_strlit("request_failed");
    reveal_strlit("no_data");
    reveal_strlit("unknown");
    if text::starts_with(reason, "api_code_"@) {
        assert(reason.take(9)[0] == "api_code_"@[0]);
    }
    assert("session_invalid"@[0] == 's' && "session_invalid"@[1] == 'e');
    assert("server_not_authenticated"@[0] == 's' && "server_not_authenticated"@[1] == 'e');
    assert("vip_required"@[0] == 'v' && "no_copyright"@[0] == 'n' && "no_data"@[0] == 'n');
    assert("request_failed"@[0] == 'r' && "request_failed"@[1] == 'e' && "unknown"@[0] == 'u');
}

/// Where the answer names no account, the address of the file is offered without the
/// value of its `uin` parameter, and with everything else.
pub proof fn law_anonymous_key_loses_number(
    urls: Seq<Seq<char>>,
    reason: Seq<char>,
    d: Doc,
    data: Doc,
    front: Seq<char>,
    value: Seq<char>,
    rest: Seq<char>,
)
    requires
        names_file(
            d,
            data,
            "http://"@ + front + seq!['?'] + seq!['u', 'i', 'n', '='] + value + rest,
        ),
        is_clean(front) && is_clean(value) && is_clean(rest),
        !front.contains('?') && !front.contains('&'),
        !value.contains('&'),
        rest.len() > 0 ==> rest[0] == '&',
        !text::contains(rest, "uin="@),
        json::has_no_text(Some(data), "uin"@),
    ensures
        after_answer(urls, reason, d).0.contains(
            "http://"@ + front + seq!['?'] + seq!['u', 'i', 'n', '='] + rest,
        ),
{
    reveal_strlit("http");
    reveal_strlit("http://");
    let before = "http://"@ + front;
    let name = seq!['u', 'i', 'n', '='];
    let purl = before + seq!['?'] + name + value + rest;
    lemma_names_file(d, data, purl);
    assert(is_clean("http://"@));
    assert(is_clean(before));
    assert(is_clean(name));
    assert(is_clean(purl)) by {
        assert forall|i: int| 0 <= i < purl.len() implies is_url_char(#[trigger] purl[i]) by {
            let n = before.len() as int;
            if i < n {
                assert(purl[i] == before[i]);
            } else if i == n {
                assert(purl[i] == '?');
            } else if i < n + 5 {
                assert(purl[i] == name[i - n - 1]);
            } else if i < n + 5 + value.len() {
                assert(purl[i] == value[i - n - 5]);
            } else {
                assert(purl[i] == rest[i - n - 5 - value.len()]);
            }
        }
    }
    lemma_clean_stays(purl);
    assert(!before.contains('?') && !before.contains('&')) by {
        assert forall|i: int| 0 <= i < before.len() implies before[i] != '?' && before[i] != '&' by {
            if i < 7 {
                assert(before[i] == "http://"@[i]);
            } else {
                assert(before[i] == front[i - 7]);
                assert(front.contains(front[i - 7]));
            }
        }
    }
    assert(!value.contains('#')) by {
        if value.contains('#') {
            let i = choose|i: int| 0 <= i < value.len() && value[i] == '#';
            assert(is_url_char(value[i]));
        }
    }
    law_clearing_takes_value_alone(before, '?', value, rest);
    lemma_without_uin_stays(rest);
    let usable = before + seq!['?'] + name + rest;
    let none: Seq<char> = seq![];
    assert(usable_purl(data, purl) == usable) by {
        if let Some(t) = json::text_in(json::member(Some(data), "uin"@)) {
            assert(!json::has_text(Some(data), "uin"@, t));
        }
    }
    assert(usable.take(4) =~= "http"@);
    lemma_with_new_keeps(urls, usable);
    let found = with_file(urls, hosts_in(data), usable);
    lemma_file_keeps(urls, hosts_in(data), usable);
    lemma_prefix_contains(found, with_known_hosts(found), usable);
}

/// A reply that asks to be left alone is told as such.
pub proof fn law_rate_limit_is_told(status: u16, t: Seq<char>)
    requires
        status == 412 || status == 503,
    ensures
        ({
            let x = ExchangeView::Reply { status, text: t };
            &&& request::text_outcome(x) matches Err(e) && lowered_reason(text::lower(e))
                == "rate_limited"@
            &&& request::json_outcome(x) matches Err(e) && lowered_reason(text::lower(e))
                == "rate_limited"@
        }),
{
    let x = ExchangeView::Reply { status, text: t };
    request::law_errors_say_what_happened(x);
    request::law_reply_gives_its_text(x);
    lemma_rate_limited(request::text_outcome(x)->Err_0);
    lemma_rate_limited(request::json_outcome(x)->Err_0);
}

proof fn lemma_rate_limited(e: Seq<char>)
    requires
        text::starts_with(e, "rate_limited"@),
    ensures
        lowered_reason(text::lower(e)) == "rate_limited"@,
{
    reveal_strlit("rate_limited");
    let p = "rate_limited"@;
    let rest = e.skip(p.len() as int);
    assert(e =~= e.take(p.len() as int) + rest);
    text::lemma_lower_prefix(p, rest);
    assert(text::ascii_lowered(p) =~= p);
    let low = text::lower(e);
    assert(low.take(p.len() as int) == p);
    assert(low =~= p + low.skip(p.len() as int));
    text::law_part_is_contained(low, p, low.skip(p.len() as int));
}

/// No address is invented: every address that an answer adds is that of its file, as it
/// is where it is absolute, and at a host of the answer or at the default host elsewhere,
/// or it is one of the addresses at a known host.
pub proof fn law_no_address_is_invented(
    urls: Seq<Seq<char>>,
    reason: Seq<char>,
    d: Doc,
    data: Doc,
    purl: Seq<char>,
    url: Seq<char>,
)
    requires
        names_file(d, data, purl),
        after_answer(urls, reason, d).0.contains(url),
        !urls.contains(url),
    ensures
        ({
            let usable = usable_purl(data, purl);
            ||| url == usable && text::starts_with(usable, "http"@)
            ||| url == at_default_host(usable)
            ||| exists|h: Seq<char>|
                hosts_in(data).contains(h) && url == #[trigger] (h + with_slash(usable))
            ||| exists|from: Seq<char>, k: int|
                0 <= k < 4 && after_answer(urls, reason, d).0.contains(from)
                    && #[trigger] at_other_host(from, known_hosts()[k]) == Some(url)
        }),
{
    lemma_names_file(d, data, purl);
    let usable = usable_purl(data, purl);
    let hosts = hosts_in(data);
    let found = with_file(urls, hosts, usable);
    if found.len() > 0 {
        lemma_at_known_hosts_only(found, found.last(), known_hosts(), url);
    }
    if found.contains(url) {
        if text::starts_with(usable, "http"@) {
            lemma_with_new_only(urls, usable, url);
        } else if hosts.len() > 0 {
            lemma_at_hosts_only(urls, hosts, with_slash(usable), url);
        } else {
            lemma_with_new_only(urls, at_default_host(usable), url);
        }
    } else {
        let k = choose|k: int|
            0 <= k < known_hosts().len() && at_other_host(
                found.last(),
                #[trigger] known_hosts()[k],
            ) == Some(url);
        lemma_file_keeps(urls, hosts, usable);
        assert(found.contains(found[found.len() - 1]));
        lemma_prefix_contains(found, after_answer(urls, reason, d).0, found.last());
        assert(at_other_host(found.last(), known_hosts()[k]) == Some(url));
    }
}

proof fn lemma_with_new_only(urls: Seq<Seq<char>>, url: Seq<char>, other: Seq<char>)
    requires
        with_new(urls, url).contains(other),
    ensures
        urls.contains(other) || other == url,
{
    let now = with_new(urls, url);
    let i = choose|i: int| 0 <= i < now.len() && now[i] == other;
    if i < urls.len() {
        assert(urls[i] == other);
    }
}

proof fn lemma_at_hosts_only(
    urls: Seq<Seq<char>>,
    hosts: Seq<Seq<char>>,
    path: Seq<char>,
    url: Seq<char>,
)
    requires
        at_hosts(urls, hosts, path).contains(url),
    ensures
        urls.contains(url) || exists|h: Seq<char>| hosts.contains(h) && url == #[trigger] (h + path),
    decreases hosts.len(),
{
    if hosts.len() > 0 {
        let shorter = hosts.drop_last();
        let before = at_hosts(urls, shorter, path);
        lemma_with_new_only(before, hosts.last() + path, url);
        if before.contains(url) {
            lemma_at_hosts_only(urls, shorter, path, url);
            if !urls.contains(url) {
                let h = choose|h: Seq<char>| shorter.contains(h) && url == #[trigger] (h + path);
                let i = choose|i: int| 0 <= i < shorter.len() && shorter[i] == h;
                assert(hosts[i] == h);
            }
        } else {
            assert(hosts[hosts.len() - 1] == hosts.last());
            assert(url == hosts.last() + path);
        }
    }
}

proof fn lemma_at_known_hosts_only(
    urls: Seq<Seq<char>>,
    from: Seq<char>,
    hosts: Seq<Seq<char>>,
    url: Seq<char>,
)
    ensures
        at_known_hosts(urls, from, hosts).contains(url) && !urls.contains(url) ==> exists|k: int|
            0 <= k < hosts.len() && at_other_host(from, #[trigger] hosts[k]) == Some(url),
    decreases hosts.len(),
{
    if hosts.len() > 0 {
        let shorter = hosts.drop_last();
        let before = at_known_hosts(urls, from, shorter);
        lemma_at_known_hosts_only(urls, from, shorter, url);
        if at_known_hosts(urls, from, hosts).contains(url) && !urls.contains(url) {
            if before.contains(url) {
                let k = choose|k: int|
                    0 <= k < shorter.len() && at_other_host(from, #[trigger] shorter[k]) == Some(url);
                assert(hosts[k] == shorter[k]);
            } else {
                if let Some(moved) = at_other_host(from, hosts.last()) {
                    lemma_with_new_only(before, moved, url);
                }
                assert(hosts[hosts.len() - 1] == hosts.last());
            }
        }
    }
}

/// Only addresses at the hosts that can be replaced are moved: those that name
/// `aqqmusic.tc.qq.com`, and those that name both `sjy` and `.stream.qqmusic.qq.com`
/// and have a host behind their first two slashes.
pub proof fn law_other_hosts_stay(url: Seq<char>, host: Seq<char>)
    ensures
        !text::contains(url, "aqqmusic.tc.qq.com"@) && (!text::contains(url, "sjy"@)
            || !text::contains(url, ".stream.qqmusic.qq.com"@)) ==> at_other_host(url, host) is None,
        !text::contains(url, "aqqmusic.tc.qq.com"@) && (!text::contains(url, "//"@) || exists|i: int|
            #[trigger] text::occurs_at(url, "///"@, i) && forall|j: int|
                j < i ==> !#[trigger] text::occurs_at(url, "//"@, j)) ==> at_other_host(
            url,
            host,
        ) is None,
{
    let p = "//"@;
    text::law_found_at_first_place(url, p);
    reveal_strlit("//");
    reveal_strlit("///");
    if exists|i: int|
        #[trigger] text::occurs_at(url, "///"@, i) && forall|j: int|
            j < i ==> !#[trigger] text::occurs_at(url, p, j) {
        let i = choose|i: int|
            #[trigger] text::occurs_at(url, "///"@, i) && forall|j: int|
                j < i ==> !#[trigger] text::occurs_at(url, p, j);
        assert(url.subrange(i, i + 3)[0] == url[i] && url.subrange(i, i + 3)[1] == url[i + 1]
            && url.subrange(i, i + 3)[2] == url[i + 2]);
        assert(url.subrange(i, i + 2) =~= p);
        assert(text::occurs_at(url, p, i));
        assert(text::find(url, p) == Some(i as nat));
        let tail = url.skip(i + 2);
        assert(tail[0] == '/');
        text::lemma_find_any_is(tail, '/', 0);
        assert(host_of(url).len() == 0);
    }
}

/// A file at a host whose name begins with `sjy` is moved to another host as a whole: its
/// path stays.
pub proof fn law_host_is_replaced(name: Seq<char>, path: Seq<char>, host: Seq<char>)
    requires
        text::starts_with(name, "sjy"@),
        text::contains(name, ".stream.qqmusic.qq.com"@),
        !name.contains('/'),
        !text::contains("/"@ + path, name),
        !text::contains("http://"@ + name + ("/"@ + path), "aqqmusic.tc.qq.com"@),
    ensures
        at_other_host("http://"@ + name + ("/"@ + path), host) == Some(
            "http://"@ + host + ("/"@ + path),
        ),
{
    reveal_strlit("http://");
    reveal_strlit("//");
    reveal_strlit("/");
    reveal_strlit("sjy");
    let front = "http://"@;
    let rest = "/"@ + path;
    let url = front + name + rest;
    assert(name.take(3)[0] == "sjy"@[0]);
    assert(name[0] == 's');
    assert(!front.contains(name[0]));
    text::lemma_replace_one(front, name, rest, host);
    assert(name =~= name.take(3) + name.skip(3));
    assert(url =~= front + "sjy"@ + (name.skip(3) + rest));
    text::law_part_is_contained(front, "sjy"@, name.skip(3) + rest);
    let s = ".stream.qqmusic.qq.com"@;
    text::law_found_at_first_place(name, s);
    let i = choose|i: int| #[trigger] text::occurs_at(name, s, i);
    assert(url.subrange(i + 7, i + 7 + s.len()) =~= name.subrange(i, i + s.len()));
    assert(text::occurs_at(url, s, i + 7));
    text::law_found_at_first_place(url, s);
    let p = "//"@;
    text::law_found_at_first_place(url, p);
    assert(url.subrange(5, 7) =~= p);
    assert(text::occurs_at(url, p, 5));
    assert forall|j: int| 0 <= j < 5 implies !#[trigger] text::occurs_at(url, p, j) by {
        if text::occurs_at(url, p, j) {
            assert(url.subrange(j, j + 2)[0] == url[j]);
            assert(url[j] == front[j]);
        }
    }
    assert(text::find(url, p) == Some(5nat));
    let tail = url.skip(7);
    assert(tail =~= name + rest);
    let slash = seq!['/'];
    assert(slash[0] == '/');
    assert forall|j: int| 0 <= j < name.len() implies #[trigger] tail[j] != '/' by {
        assert(tail[j] == name[j]);
        assert(name.contains(name[j]));
    }
    assert(tail[name.len() as int] == '/');
    text::lemma_find_any_is(tail, '/', name.len() as int);
    assert(tail.take(name.len() as int) =~= name);
}

} // verus!
