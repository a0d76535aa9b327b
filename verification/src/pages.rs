//! Where a page of the login leads: redirects, scripts, refresh tags and forms.
use vstd::prelude::*;
use vstd::slice::slice_subrange;
use crate::json;
use crate::request::{self, push_pair};
use crate::text::{
    self,
    chars_of,
    concat2,
    find_any_chars,
    find_chars,
    join_texts,
    safe_preview,
    split_text,
    strip_start_text,
    text_ascii_lowered,
    text_contains,
    text_ends_with,
    text_eq,
    text_of,
    text_starts_with,
    trim_start_text,
};

verus! {

// ---------------------------------------------------------------------------
// Pieces of a text
// ---------------------------------------------------------------------------
/// What follows the first occurrence of `p` in `s`.
pub open spec fn after(s: Seq<char>, p: Seq<char>) -> Option<Seq<char>> {
    match text::find(s, p) {
        Some(i) => Some(s.skip((i + p.len()) as int)),
        None => None,
    }
}

/// What stands before the first character of `set`, or the whole text.
pub open spec fn upto(s: Seq<char>, set: Seq<char>) -> Seq<char> {
    s.take(text::find_any(s, set) as int)
}

/// What follows the first occurrence of `p`.
pub fn text_after(s: &str, p: &str) -> (r: Option<String>)
    ensures
        text::opt_view(r) == after(s@, p@),
{
    let chars: Vec<char> = chars_of(s);
    let pat: Vec<char> = chars_of(p);
    match find_chars(chars.as_slice(), pat.as_slice()) {
        Some(i) => {
            let end: usize = chars.len();
            let rest: String = text_of(slice_subrange(chars.as_slice(), i + pat.len(), end));
            proof {
                assert(rest@ =~= s@.skip(i + p@.len()));
            }
            Some(rest)
        },
        None => None,
    }
}

/// What stands before the first character of `set`.
pub fn text_upto(s: &str, set: &Vec<char>) -> (r: String)
    ensures
        r@ == upto(s@, set@),
{
    let chars: Vec<char> = chars_of(s);
    let n: usize = find_any_chars(chars.as_slice(), set.as_slice());
    let r: String = text_of(slice_subrange(chars.as_slice(), 0, n));
    proof {
        assert(r@ =~= s@.take(n as int));
    }
    r
}

/// The value of a parameter, from behind its first occurrence, written with its
/// equals sign, up to the next ampersand.
pub open spec fn parameter(s: Seq<char>, name: Seq<char>) -> Option<Seq<char>> {
    match after(s, name) {
        Some(rest) => Some(upto(rest, seq!['&'])),
        None => None,
    }
}

/// The value of a parameter.
pub fn parameter_of(s: &str, name: &str) -> (r: Option<String>)
    ensures
        text::opt_view(r) == parameter(s@, name@),
{
    match text_after(s, name) {
        Some(rest) => {
            let set: Vec<char> = vec!['&'];
            proof {
                assert(set@ == seq!['&']);
            }
            Some(text_upto(rest.as_str(), &set))
        },
        None => None,
    }
}

/// What stands between the first two double quotes.
pub open spec fn quoted(s: Seq<char>) -> Option<Seq<char>> {
    let i = text::find_any(s, seq!['"']);
    if i >= s.len() {
        None
    } else {
        let rest = s.skip(i as int + 1);
        if text::find_any(rest, seq!['"']) >= rest.len() {
            None
        } else {
            Some(upto(rest, seq!['"']))
        }
    }
}

/// What stands between the first two double quotes.
pub fn quoted_in(s: &str) -> (r: Option<String>)
    ensures
        text::opt_view(r) == quoted(s@),
{
    let chars: Vec<char> = chars_of(s);
    let quote: Vec<char> = vec!['"'];
    proof {
        assert(quote@ == seq!['"']);
    }
    let i: usize = find_any_chars(chars.as_slice(), quote.as_slice());
    if i >= chars.len() {
        return None;
    }
    let rest: &[char] = slice_subrange(chars.as_slice(), i + 1, chars.len());
    proof {
        assert(rest@ =~= s@.skip(i + 1));
    }
    let j: usize = find_any_chars(rest, quote.as_slice());
    if j >= rest.len() {
        return None;
    }
    let r: String = text_of(slice_subrange(rest, 0, j));
    proof {
        assert(r@ =~= rest@.take(j as int));
    }
    Some(r)
}

// ---------------------------------------------------------------------------
// Redirects
// ---------------------------------------------------------------------------
/// Scheme and host of an address: what stands before its third slash.
pub open spec fn origin(url: Seq<char>) -> Seq<char> {
    let pieces = text::split(url, '/');
    if pieces.len() <= 3 {
        text::join(pieces, "/"@)
    } else {
        text::join(pieces.take(3), "/"@)
    }
}

/// Scheme and host of an address.
fn origin_of(url: &str) -> (r: String)
    ensures
        r@ == origin(url@),
{
    let pieces: Vec<String> = split_text(url, '/');
    if pieces.len() <= 3 {
        return join_texts(&pieces, "/");
    }
    let mut first: Vec<String> = Vec::new();
    let ghost all = text::views(pieces@);
    first.push(pieces[0].clone());
    first.push(pieces[1].clone());
    first.push(pieces[2].clone());
    proof {
        assert(text::views(first@) =~= all.take(3));
    }
    join_texts(&first, "/")
}

/// Where a `Location` header of a response from `url` leads.
pub open spec fn resolved(url: Seq<char>, location: Seq<char>) -> Seq<char> {
    if text::starts_with(location, "http"@) {
        location
    } else if text::starts_with(location, "/"@) {
        origin(url) + location
    } else {
        location
    }
}

/// Where a `Location` header of a response from `url` leads.
pub fn resolve_location(url: &str, location: &str) -> (r: String)
    ensures
        r@ == resolved(url@, location@),
{
    if text_starts_with(location, "http") {
        location.to_string()
    } else if text_starts_with(location, "/") {
        let from: String = origin_of(url);
        concat2(from.as_str(), location)
    } else {
        location.to_string()
    }
}

// ---------------------------------------------------------------------------
// Hosts
// ---------------------------------------------------------------------------
/// The text has the scheme of a web address, in any case.
pub open spec fn is_web_address(url: Seq<char>) -> bool {
    let low = text::ascii_lowered(url);
    text::starts_with(low, "https:"@) || text::starts_with(low, "http:"@)
}

/// Whether a text has the scheme of a web address.
pub fn web_address(url: &str) -> (r: bool)
    ensures
        r == is_web_address(url@),
{
    let low: String = text_ascii_lowered(url);
    text_starts_with(low.as_str(), "https:") || text_starts_with(low.as_str(), "http:")
}

/// What stands between the scheme of a web address and its path: the host, and a
/// port where there is one. The case of the scheme does not matter.
pub open spec fn authority(url: Seq<char>) -> Option<Seq<char>> {
    let low = text::ascii_lowered(url);
    if text::starts_with(low, "https://"@) {
        Some(upto(url.skip(8), seq!['/', '?', '#']))
    } else if text::starts_with(low, "http://"@) {
        Some(upto(url.skip(7), seq!['/', '?', '#']))
    } else {
        None
    }
}

/// A character of the name of a host.
pub open spec fn is_host_name_char(c: char) -> bool {
    '0' <= c <= '9' || 'A' <= c <= 'Z' || 'a' <= c <= 'z' || c == '-' || c
        == '_' || c == '.'
}

/// The web address is one that the cookies of a login may be sent to: its host is
/// `qq.com` or ends in `.qq.com`, in any case. An address with a user name in front
/// of its host, or with anything else that is neither a host nor a port, is none.
pub open spec fn is_login_host(url: Seq<char>) -> bool {
    match authority(url) {
        Some(a) => {
            let host = upto(a, seq![':']);
            &&& forall|i: int| 0 <= i < host.len() ==> is_host_name_char(#[trigger] host[i])
            &&& forall|i: int| host.len() < i < a.len() ==> text::is_digit(#[trigger] a[i])
            &&& text::ascii_lowered(host) == "qq.com"@ || text::ends_with(
                text::ascii_lowered(host),
                ".qq.com"@,
            )
        },
        None => false,
    }
}

/// What stands between the scheme of a web address and its path.
fn find_authority(url: &str) -> (r: Option<String>)
    ensures
        text::opt_view(r) == authority(url@),
{
    let ends: Vec<char> = vec!['/', '?', '#'];
    proof {
        reveal_strlit("https://");
        reveal_strlit("http://");
        assert(ends@ =~= seq!['/', '?', '#']);
    }
    let chars: Vec<char> = chars_of(url);
    let low: String = text_ascii_lowered(url);
    if text_starts_with(low.as_str(), "https://") {
        let rest: String = text_of(slice_subrange(chars.as_slice(), 8, chars.len()));
        proof {
            assert(rest@ =~= url@.skip(8));
        }
        Some(text_upto(rest.as_str(), &ends))
    } else if text_starts_with(low.as_str(), "http://") {
        let rest: String = text_of(slice_subrange(chars.as_slice(), 7, chars.len()));
        proof {
            assert(rest@ =~= url@.skip(7));
        }
        Some(text_upto(rest.as_str(), &ends))
    } else {
        None
    }
}

/// Whether the cookies of a login may be sent to a web address.
pub fn login_host(url: &str) -> (r: bool)
    ensures
        r == is_login_host(url@),
{
    let a: String = match find_authority(url) {
        Some(a) => a,
        None => {
            return false;
        },
    };
    let colon: Vec<char> = vec![':'];
    proof {
        assert(colon@ =~= seq![':']);
        text::lemma_find_any_one(a@, ':');
    }
    let host: String = text_upto(a.as_str(), &colon);
    let names: Vec<char> = chars_of(host.as_str());
    for i in 0..names.len()
        invariant
            names@ == host@,
            authority(url@) == Some(a@),
            host@ == upto(a@, seq![':']),
            forall|k: int| 0 <= k < i ==> is_host_name_char(#[trigger] host@[k]),
    {
        let c: char = names[i];
        if !(('0' <= c && c <= '9') || ('A' <= c && c <= 'Z') || ('a' <= c && c <= 'z') || c == '-'
            || c == '_' || c == '.') {
            proof {
                assert(!is_host_name_char(host@[i as int]));
            }
            return false;
        }
    }
    let all: Vec<char> = chars_of(a.as_str());
    for i in 0..all.len()
        invariant
            all@ == a@,
            names@ == host@,
            authority(url@) == Some(a@),
            host@ == upto(a@, seq![':']),
            forall|k: int| host@.len() < k < i ==> text::is_digit(#[trigger] a@[k]),
    {
        let c: char = all[i];
        if i > names.len() && !('0' <= c && c <= '9') {
            proof {
                assert(!text::is_digit(a@[i as int]));
            }
            return false;
        }
    }
    let low: String = text_ascii_lowered(host.as_str());
    text_eq(low.as_str(), "qq.com") || text_ends_with(low.as_str(), ".qq.com")
}

/// The address, where the cookies of a login may be sent to it.
pub open spec fn allowed(url: Option<Seq<char>>) -> Option<Seq<char>> {
    match url {
        Some(u) => if is_login_host(u) {
            Some(u)
        } else {
            None
        },
        None => None,
    }
}

/// The address, where the cookies of a login may be sent to it.
pub fn if_allowed(url: Option<String>) -> (r: Option<String>)
    ensures
        text::opt_view(r) == allowed(text::opt_view(url)),
{
    match url {
        Some(u) => if login_host(u.as_str()) {
            Some(u)
        } else {
            None
        },
        None => None,
    }
}

/// An address over https at a host in lower case that ends in `.qq.com`, with
/// nothing or with a path behind the host, is one that cookies may be sent to.
pub proof fn lemma_own_address(url: Seq<char>, host: Seq<char>)
    requires
        text::starts_with(url, "https://"@ + host),
        url.len() == 8 + host.len() || url[8 + host.len() as int] == '/',
        forall|i: int|
            0 <= i < host.len() ==> is_host_name_char(#[trigger] host[i]) && !('A' <= host[i]
                <= 'Z'),
        text::ends_with(host, ".qq.com"@),
    ensures
        is_login_host(url),
{
    reveal_strlit("https://");
    let front = "https://"@ + host;
    assert(url.take(front.len() as int) == front);
    assert(url.take(8) =~= "https://"@) by {
        assert forall|i: int| 0 <= i < 8 implies url[i] == "https://"@[i] by {
            assert(url.take(front.len() as int)[i] == front[i]);
        }
    }
    assert(text::ascii_lowered(url).take(8) =~= "https://"@) by {
        assert forall|i: int| 0 <= i < 8 implies text::ascii_lower(url[i]) == "https://"@[i] by {
            assert(url.take(8)[i] == "https://"@[i]);
        }
    }
    assert(text::ascii_lowered(host) =~= host);
    let rest = url.skip(8);
    let ends = seq!['/', '?', '#'];
    assert forall|j: int| 0 <= j < host.len() implies rest[j] == host[j] by {
        assert(url.take(front.len() as int)[8 + j] == front[8 + j]);
    }
    assert forall|j: int| 0 <= j < host.len() implies !ends.contains(#[trigger] rest[j]) by {
        assert(is_host_name_char(host[j]));
    }
    assert(ends[0] == '/');
    text::lemma_find_any_set_is(rest, ends, host.len() as int);
    assert(rest.take(host.len() as int) =~= host);
    assert forall|j: int| 0 <= j < host.len() implies #[trigger] host[j] != ':' by {
        assert(is_host_name_char(host[j]));
    }
    text::lemma_find_any_is(host, ':', host.len() as int);
    assert(host.take(host.len() as int) =~= host);
}

// ---------------------------------------------------------------------------
// Pages
// ---------------------------------------------------------------------------
/// The address that `s` begins with: up to the first character of `ends`, and
/// where there is none, as much as fits in 500 bytes.
pub open spec fn address_before(s: Seq<char>, ends: Seq<char>) -> Seq<char> {
    if text::find_any(s, ends) < s.len() {
        upto(s, ends)
    } else {
        text::preview(s, 500)
    }
}

/// The address that a text begins with.
fn read_address(s: &str, ends: &Vec<char>) -> (r: String)
    ensures
        r@ == address_before(s@, ends@),
{
    let chars: Vec<char> = chars_of(s);
    let n: usize = find_any_chars(chars.as_slice(), ends.as_slice());
    if n < chars.len() {
        text_upto(s, ends)
    } else {
        safe_preview(s, 500).to_string()
    }
}

/// `s` without the double and then the single quotes that it begins with.
pub open spec fn unquoted(s: Seq<char>) -> Seq<char> {
    text::strip_start(text::strip_start(s, '"'), '\'')
}

/// A text without the quotes that it begins with.
fn strip_quotes(s: &str) -> (r: String)
    ensures
        r@ == unquoted(s@),
{
    let once: String = strip_start_text(s, '"');
    strip_start_text(once.as_str(), '\'')
}

/// The address, where it is an absolute one.
pub open spec fn absolute(url: Seq<char>) -> Option<Seq<char>> {
    if text::starts_with(url, "http"@) {
        Some(url)
    } else {
        None
    }
}

/// The address, where it is an absolute one.
fn if_absolute(url: String) -> (r: Option<String>)
    ensures
        text::opt_view(r) == absolute(url@),
{
    if text_starts_with(url.as_str(), "http") {
        Some(url)
    } else {
        None
    }
}

/// The address that a page goes to by a script that holds `pattern`.
pub open spec fn script_target(page: Seq<char>, pattern: Seq<char>) -> Option<Seq<char>> {
    match after(page, pattern) {
        Some(rest) => absolute(
            address_before(unquoted(text::trim_start(rest)), seq!['"', '\'', ')', ';']),
        ),
        None => None,
    }
}

/// The address that a page goes to by a script that holds `pattern`.
fn find_script_target(page: &str, pattern: &str) -> (r: Option<String>)
    ensures
        text::opt_view(r) == script_target(page@, pattern@),
{
    match text_after(page, pattern) {
        Some(rest) => {
            let trimmed: String = trim_start_text(rest.as_str());
            let bare: String = strip_quotes(trimmed.as_str());
            let ends: Vec<char> = vec!['"', '\'', ')', ';'];
            proof {
                assert(ends@ =~= seq!['"', '\'', ')', ';']);
            }
            if_absolute(read_address(bare.as_str(), &ends))
        },
        None => None,
    }
}

/// The address that a page goes to by a refresh tag.
pub open spec fn refresh_target(page: Seq<char>) -> Option<Seq<char>> {
    match after(page, "url="@) {
        Some(rest) => absolute(address_before(unquoted(rest), seq!['"', '\'', '>', ';'])),
        None => None,
    }
}

/// The address that a page goes to by a refresh tag.
fn find_refresh_target(page: &str) -> (r: Option<String>)
    ensures
        text::opt_view(r) == refresh_target(page@),
{
    match text_after(page, "url=") {
        Some(rest) => {
            let bare: String = strip_quotes(rest.as_str());
            let ends: Vec<char> = vec!['"', '\'', '>', ';'];
            proof {
                assert(ends@ =~= seq!['"', '\'', '>', ';']);
            }
            if_absolute(read_address(bare.as_str(), &ends))
        },
        None => None,
    }
}

/// The address that a page goes to: by a script, and where none gives an
/// absolute one, by a refresh tag.
pub open spec fn page_target(page: Seq<char>) -> Option<Seq<char>> {
    json::or(
        json::or(
            json::or(
                json::or(
                    json::or(
                        script_target(page, "window.location="@),
                        script_target(page, "window.location.href="@),
                    ),
                    script_target(page, "location.replace("@),
                ),
                script_target(page, "location.href="@),
            ),
            script_target(page, "top.location="@),
        ),
        refresh_target(page),
    )
}

/// The address that a page goes to.
pub fn find_page_target(page: &str) -> (r: Option<String>)
    ensures
        text::opt_view(r) == page_target(page@),
{
    let by_window: Option<String> = find_script_target(page, "window.location=");
    if by_window.is_some() {
        return by_window;
    }
    let by_window_href: Option<String> = find_script_target(page, "window.location.href=");
    if by_window_href.is_some() {
        return by_window_href;
    }
    let by_replace: Option<String> = find_script_target(page, "location.replace(");
    if by_replace.is_some() {
        return by_replace;
    }
    let by_href: Option<String> = find_script_target(page, "location.href=");
    if by_href.is_some() {
        return by_href;
    }
    let by_top: Option<String> = find_script_target(page, "top.location=");
    if by_top.is_some() {
        return by_top;
    }
    find_refresh_target(page)
}

// ---------------------------------------------------------------------------
// Pages of the authorization
// ---------------------------------------------------------------------------
/// The address is worth following: an absolute one, or one that carries a token
/// or a code or leads back to the player.
pub open spec fn leads_on(url: Seq<char>) -> bool {
    ||| text::contains(url, "http"@)
    ||| text::contains(url, "wx_redirect"@)
    ||| text::contains(url, "access_token"@)
    ||| text::contains(url, "code="@)
}

/// Whether an address is worth following.
fn address_leads_on(url: &str) -> (r: bool)
    ensures
        r == leads_on(url@),
{
    text_contains(url, "http") || text_contains(url, "wx_redirect") || text_contains(
        url,
        "access_token",
    ) || text_contains(url, "code=")
}

/// `s` from the first occurrence of `p` on.
pub open spec fn from_on(s: Seq<char>, p: Seq<char>) -> Option<Seq<char>> {
    match text::find(s, p) {
        Some(i) => Some(s.skip(i as int)),
        None => None,
    }
}

/// A text from the first occurrence of `p` on.
fn text_from(s: &str, p: &str) -> (r: Option<String>)
    ensures
        text::opt_view(r) == from_on(s@, p@),
{
    let chars: Vec<char> = chars_of(s);
    let pat: Vec<char> = chars_of(p);
    match find_chars(chars.as_slice(), pat.as_slice()) {
        Some(i) => {
            let rest: String = text_of(slice_subrange(chars.as_slice(), i, chars.len()));
            proof {
                assert(rest@ =~= s@.skip(i as int));
            }
            Some(rest)
        },
        None => None,
    }
}

/// The address in double quotes behind `pattern`, where it is worth following.
pub open spec fn quoted_target(page: Seq<char>, pattern: Seq<char>) -> Option<Seq<char>> {
    match from_on(page, pattern) {
        Some(rest) => match quoted(rest) {
            Some(url) => if leads_on(url) {
                Some(url)
            } else {
                None
            },
            None => None,
        },
        None => None,
    }
}

/// The address in double quotes behind `pattern`, where it is worth following.
fn find_quoted_target(page: &str, pattern: &str) -> (r: Option<String>)
    ensures
        text::opt_view(r) == quoted_target(page@, pattern@),
{
    match text_from(page, pattern) {
        Some(rest) => match quoted_in(rest.as_str()) {
            Some(url) => if address_leads_on(url.as_str()) {
                Some(url)
            } else {
                None
            },
            None => None,
        },
        None => None,
    }
}

/// The address of a refresh tag, up to the next double quote, where it is worth
/// following.
pub open spec fn tag_target(page: Seq<char>) -> Option<Seq<char>> {
    match after(page, "url="@) {
        Some(rest) => if text::find_any(rest, seq!['"']) < rest.len() && leads_on(
            upto(rest, seq!['"']),
        ) {
            Some(upto(rest, seq!['"']))
        } else {
            None
        },
        None => None,
    }
}

/// The address of a refresh tag, where it is worth following.
fn find_tag_target(page: &str) -> (r: Option<String>)
    ensures
        text::opt_view(r) == tag_target(page@),
{
    match text_after(page, "url=") {
        Some(rest) => {
            let chars: Vec<char> = chars_of(rest.as_str());
            let quote: Vec<char> = vec!['"'];
            proof {
                assert(quote@ == seq!['"']);
            }
            if find_any_chars(chars.as_slice(), quote.as_slice()) >= chars.len() {
                return None;
            }
            let url: String = text_upto(rest.as_str(), &quote);
            if address_leads_on(url.as_str()) {
                Some(url)
            } else {
                None
            }
        },
        None => None,
    }
}

/// The value of an attribute of a tag, written with its equals sign and its
/// opening quote; empty where the tag does not have it.
pub open spec fn attribute(tag: Seq<char>, opening: Seq<char>) -> Seq<char> {
    match after(tag, opening) {
        Some(rest) => if text::find_any(rest, seq!['"']) < rest.len() {
            upto(rest, seq!['"'])
        } else {
            seq![]
        },
        None => seq![],
    }
}

/// The value of an attribute of a tag.
fn attribute_of(tag: &str, opening: &str) -> (r: String)
    ensures
        r@ == attribute(tag@, opening@),
{
    match text_after(tag, opening) {
        Some(rest) => {
            let chars: Vec<char> = chars_of(rest.as_str());
            let quote: Vec<char> = vec!['"'];
            proof {
                assert(quote@ == seq!['"']);
            }
            if find_any_chars(chars.as_slice(), quote.as_slice()) < chars.len() {
                text_upto(rest.as_str(), &quote)
            } else {
                String::new()
            }
        },
        None => String::new(),
    }
}

/// The field that an input tag adds to its form, where it is a hidden one with a name.
pub open spec fn hidden_field(tag: Seq<char>) -> Seq<(Seq<char>, Seq<char>)> {
    if text::contains(tag, "type=\"hidden\""@) && attribute(tag, "name=\""@).len() > 0 {
        seq![(attribute(tag, "name=\""@), attribute(tag, "value=\""@))]
    } else {
        seq![]
    }
}

/// The hidden fields of a page, in order. A tag ends before the next `>`.
pub open spec fn hidden_fields(page: Seq<char>) -> Seq<(Seq<char>, Seq<char>)>
    decreases page.len(),
{
    match text::find(page, "<input"@) {
        Some(i) => {
            let rest = page.skip(i as int);
            let n = text::find_any(rest, seq!['>']);
            if n < rest.len() && i <= page.len() {
                hidden_field(upto(rest, seq!['>'])) + hidden_fields(rest.skip(n as int + 1))
            } else {
                hidden_field(rest)
            }
        },
        None => seq![],
    }
}

/// The hidden fields of a page.
pub fn find_hidden_fields(page: &str) -> (r: Vec<(String, String)>)
    ensures
        request::pair_views(r@) == hidden_fields(page@),
{
    let chars: Vec<char> = chars_of(page);
    let opening: Vec<char> = chars_of("<input");
    let closing: Vec<char> = vec!['>'];
    let mut out: Vec<(String, String)> = Vec::new();
    let mut at: usize = 0;
    proof {
        assert(closing@ == seq!['>']);
        assert(chars@.skip(0) =~= chars@);
        assert(request::pair_views(out@) + hidden_fields(page@) =~= hidden_fields(page@));
    }
    loop
        invariant
            at <= chars@.len(),
            chars@ == page@,
            opening@ == "<input"@,
            closing@ == seq!['>'],
            hidden_fields(page@) == request::pair_views(out@) + hidden_fields(
                chars@.skip(at as int),
            ),
        decreases chars@.len() - at,
    {
        let here: &[char] = slice_subrange(chars.as_slice(), at, chars.len());
        proof {
            assert(here@ =~= chars@.skip(at as int));
        }
        match find_chars(here, opening.as_slice()) {
            None => {
                proof {
                    assert(request::pair_views(out@) + seq![] =~= request::pair_views(out@));
                }
                return out;
            },
            Some(i) => {
                let rest: &[char] = slice_subrange(here, i, here.len());
                let n: usize = find_any_chars(rest, closing.as_slice());
                let tag: String = text_of(slice_subrange(rest, 0, n));
                proof {
                    assert(rest@ =~= here@.skip(i as int));
                    assert(tag@ =~= rest@.take(n as int));
                }
                let ghost before = request::pair_views(out@);
                if text_contains(tag.as_str(), "type=\"hidden\"") {
                    let name: String = attribute_of(tag.as_str(), "name=\"");
                    let value: String = attribute_of(tag.as_str(), "value=\"");
                    if !name.as_str().is_empty() {
                        push_pair(&mut out, name.as_str(), value.as_str());
                        proof {
                            assert(before.push((name@, value@)) =~= before + seq![(name@, value@)]);
                        }
                    }
                }
                proof {
                    assert(request::pair_views(out@) =~= before + hidden_field(tag@));
                }
                if n >= rest.len() {
                    proof {
                        assert(tag@ =~= rest@);
                    }
                    return out;
                }
                proof {
                    assert(rest@.skip(n + 1) =~= chars@.skip(at + i + n + 1));
                    assert(before + (hidden_field(tag@) + hidden_fields(rest@.skip(n + 1))) =~= (
                    before + hidden_field(tag@)) + hidden_fields(rest@.skip(n + 1)));
                }
                at = at + i + n + 1;
            },
        }
    }
}

/// The fields as the query of an address.
pub open spec fn query_text(fields: Seq<(Seq<char>, Seq<char>)>) -> Seq<char>
    decreases fields.len(),
{
    if fields.len() == 0 {
        seq![]
    } else {
        let sep = if fields.len() == 1 {
            "?"@
        } else {
            "&"@
        };
        query_text(fields.drop_last()) + sep + fields.last().0 + "="@ + fields.last().1
    }
}

/// An address with the fields as its query.
fn with_query(url: &str, fields: &Vec<(String, String)>) -> (r: String)
    ensures
        r@ == url@ + query_text(request::pair_views(fields@)),
{
    let mut out: String = url.to_string();
    let ghost all = request::pair_views(fields@);
    proof {
        assert(all.take(0) =~= seq![]);
        assert(url@ + seq![] =~= url@);
    }
    for i in 0..fields.len()
        invariant
            all == request::pair_views(fields@),
            out@ == url@ + query_text(all.take(i as int)),
    {
        let sep: &str = if i == 0 {
            "?"
        } else {
            "&"
        };
        let ghost before = query_text(all.take(i as int));
        vstd::string::StringExecFns::append(&mut out, sep);
        vstd::string::StringExecFns::append(&mut out, fields[i].0.as_str());
        vstd::string::StringExecFns::append(&mut out, "=");
        vstd::string::StringExecFns::append(&mut out, fields[i].1.as_str());
        proof {
            let next = all.take(i + 1);
            assert(next.drop_last() =~= all.take(i as int));
            assert(next.last() == all[i as int]);
            assert(url@ + before + sep@ + fields@[i as int].0@ + "="@ + fields@[i as int].1@ =~= url@
                + (before + sep@ + fields@[i as int].0@ + "="@ + fields@[i as int].1@));
        }
    }
    proof {
        assert(all.take(all.len() as int) =~= all);
    }
    out
}

/// The address that the form of a page is sent to, with its hidden fields, where
/// the form confirms an authorization.
pub open spec fn form_target(page: Seq<char>) -> Option<Seq<char>> {
    match from_on(page, "action="@) {
        Some(rest) => match quoted(rest) {
            Some(url) => if text::contains(url, "http"@) || text::contains(url, "authorize"@)
                || text::contains(url, "token"@) {
                let base = if text::starts_with(url, "http"@) {
                    url
                } else if text::starts_with(url, "/"@) {
                    "https://graph.qq.com"@ + url
                } else {
                    "https://graph.qq.com/"@ + url
                };
                Some(base + query_text(hidden_fields(page)))
            } else {
                None
            },
            None => None,
        },
        None => None,
    }
}

/// The address that the form of a page is sent to.
fn find_form_target(page: &str) -> (r: Option<String>)
    ensures
        text::opt_view(r) == form_target(page@),
{
    match text_from(page, "action=") {
        Some(rest) => match quoted_in(rest.as_str()) {
            Some(url) => if text_contains(url.as_str(), "http") || text_contains(
                url.as_str(),
                "authorize",
            ) || text_contains(url.as_str(), "token") {
                let base: String = if text_starts_with(url.as_str(), "http") {
                    url
                } else if text_starts_with(url.as_str(), "/") {
                    concat2("https://graph.qq.com", url.as_str())
                } else {
                    concat2("https://graph.qq.com/", url.as_str())
                };
                let fields: Vec<(String, String)> = find_hidden_fields(page);
                Some(with_query(base.as_str(), &fields))
            } else {
                None
            },
            None => None,
        },
        None => None,
    }
}

/// Where a page of the authorization leads: by a script, by a refresh tag, or by
/// its form.
pub open spec fn authorization_target(page: Seq<char>) -> Option<Seq<char>> {
    json::or(
        json::or(
            json::or(
                json::or(
                    json::or(
                        json::or(
                            quoted_target(page, "location.href="@),
                            quoted_target(page, "location.replace("@),
                        ),
                        quoted_target(page, "window.location="@),
                    ),
                    quoted_target(page, "top.location="@),
                ),
                quoted_target(page, "location.assign("@),
            ),
            tag_target(page),
        ),
        form_target(page),
    )
}

/// Where a page of the authorization leads.
pub fn find_authorization_target(page: &str) -> (r: Option<String>)
    ensures
        text::opt_view(r) == authorization_target(page@),
{
    let by_href: Option<String> = find_quoted_target(page, "location.href=");
    if by_href.is_some() {
        return by_href;
    }
    let by_replace: Option<String> = find_quoted_target(page, "location.replace(");
    if by_replace.is_some() {
        return by_replace;
    }
    let by_window: Option<String> = find_quoted_target(page, "window.location=");
    if by_window.is_some() {
        return by_window;
    }
    let by_top: Option<String> = find_quoted_target(page, "top.location=");
    if by_top.is_some() {
        return by_top;
    }
    let by_assign: Option<String> = find_quoted_target(page, "location.assign(");
    if by_assign.is_some() {
        return by_assign;
    }
    let by_tag: Option<String> = find_tag_target(page);
    if by_tag.is_some() {
        return by_tag;
    }
    find_form_target(page)
}

// ---------------------------------------------------------------------------
// What holds of pages
// ---------------------------------------------------------------------------
/// `a` holds no occurrence of `p` that begins in it, also not with what follows.
pub open spec fn is_first(a: Seq<char>, p: Seq<char>, b: Seq<char>) -> bool {
    forall|i: int| 0 <= i < a.len() ==> !#[trigger] text::occurs_at(a + p + b, p, i)
}

/// What follows the first occurrence of a text is all that stands behind it.
proof fn lemma_after(a: Seq<char>, p: Seq<char>, b: Seq<char>)
    requires
        is_first(a, p, b),
    ensures
        after(a + p + b, p) == Some(b),
        from_on(a + p + b, p) == Some(p + b),
{
    let s = a + p + b;
    text::law_found_at_first_place(s, p);
    assert(s.subrange(a.len() as int, (a.len() + p.len()) as int) =~= p);
    assert(text::occurs_at(s, p, a.len() as int));
    assert(text::find(s, p) == Some(a.len()));
    assert(s.skip((a.len() + p.len()) as int) =~= b);
    assert(s.skip(a.len() as int) =~= p + b);
}

/// What stands before the first of some characters is all that has none of them.
proof fn lemma_upto(a: Seq<char>, b: Seq<char>, set: Seq<char>)
    requires
        forall|i: int| 0 <= i < a.len() ==> !set.contains(#[trigger] a[i]),
        b.len() > 0 ==> set.contains(b[0]),
    ensures
        upto(a + b, set) == a,
        text::find_any(a + b, set) == a.len(),
{
    let s = a + b;
    assert forall|i: int| 0 <= i < a.len() implies !set.contains(#[trigger] s[i]) by {
        assert(s[i] == a[i]);
    }
    text::lemma_find_any_set_is(s, set, a.len() as int);
    assert(s.take(a.len() as int) =~= a);
}

/// A parameter has the value that stands between its name and the next ampersand, and
/// there is none where its name does not occur.
pub proof fn law_parameter_has_its_value(
    before: Seq<char>,
    name: Seq<char>,
    value: Seq<char>,
    rest: Seq<char>,
)
    requires
        is_first(before, name, value + rest),
        !value.contains('&'),
        rest.len() > 0 ==> rest[0] == '&',
    ensures
        parameter(before + name + (value + rest), name) == Some(value),
        !text::contains(before, name) ==> parameter(before, name) is None,
{
    lemma_after(before, name, value + rest);
    let set = seq!['&'];
    assert(set[0] == '&');
    assert forall|i: int| 0 <= i < value.len() implies !set.contains(#[trigger] value[i]) by {
        assert(value.contains(value[i]));
    }
    lemma_upto(value, rest, set);
}

/// A redirect to a path leads to that path at the host of the address that it came
/// from; one to an address leads there.
pub proof fn law_location_is_resolved(
    scheme: Seq<char>,
    host: Seq<char>,
    path: Seq<char>,
    location: Seq<char>,
)
    requires
        scheme == "https:"@ || scheme == "http:"@,
        !host.contains('/'),
    ensures
        text::starts_with(location, "http"@) ==> resolved(scheme + "//"@ + host + path, location)
            == location,
        location.len() > 0 && location[0] == '/' && (path.len() > 0 ==> path[0] == '/') ==> resolved(
            scheme + "//"@ + host + path,
            location,
        ) == scheme + "//"@ + host + location,
{
    reveal_strlit("https:");
    reveal_strlit("http:");
    reveal_strlit("http");
    reveal_strlit("//");
    reveal_strlit("/");
    if location.len() > 0 && location[0] == '/' && (path.len() > 0 ==> path[0] == '/') {
        assert(location.take(1) =~= "/"@);
        if text::starts_with(location, "http"@) {
            assert(location.take(4)[0] == "http"@[0]);
        }
        let none: Seq<char> = seq![];
        let front = scheme + "//"@ + host;
        let url = front + path;
        assert(!scheme.contains('/'));
        text::lemma_split_whole(scheme, '/');
        text::lemma_split_whole(none, '/');
        text::lemma_split_whole(host, '/');
        assert(front =~= scheme + seq!['/'] + (none + seq!['/'] + host));
        text::lemma_split_concat(none, '/', host);
        text::lemma_split_concat(scheme, '/', none + seq!['/'] + host);
        let three = seq![scheme, none, host];
        assert(text::split(front, '/') =~= three);
        assert("/"@ =~= seq!['/']);
        text::law_split_is_undone_by_join(front, '/');
        if path.len() > 0 {
            let more = path.skip(1);
            assert(url =~= front + seq!['/'] + more);
            text::lemma_split_concat(front, '/', more);
            text::lemma_first_piece(more, '/');
            assert(text::split(url, '/').take(3) =~= three);
        } else {
            assert(url =~= front);
        }
    }
}

/// An address in quotes behind the pattern of a script is where the page goes, where
/// it is an absolute one; any other is none.
pub proof fn law_script_leads_to_its_address(
    before: Seq<char>,
    pattern: Seq<char>,
    quote: char,
    url: Seq<char>,
    rest: Seq<char>,
)
    requires
        quote == '"' || quote == '\'',
        is_first(before, pattern, seq![quote] + url + seq![quote] + rest),
        url.len() > 0,
        !text::is_space(url[0]),
        !url.contains('"') && !url.contains('\'') && !url.contains(')') && !url.contains(';'),
    ensures
        script_target(before + pattern + (seq![quote] + url + seq![quote] + rest), pattern) == (
        if text::starts_with(url, "http"@) {
            Some(url)
        } else {
            None
        }),
{
    let tail = seq![quote] + url + seq![quote] + rest;
    lemma_after(before, pattern, tail);
    assert(tail[0] == quote);
    text::lemma_trim_start(tail);
    let inner = url + (seq![quote] + rest);
    assert(tail.skip(1) =~= inner);
    assert(url.contains(url[0]));
    assert(inner[0] == url[0]);
    assert(text::strip_start(inner, '"') == inner);
    assert(text::strip_start(inner, '\'') == inner);
    assert(unquoted(tail) == inner);
    let ends = seq!['"', '\'', ')', ';'];
    assert(ends[0] == '"' && ends[1] == '\'' && ends[2] == ')' && ends[3] == ';');
    assert forall|i: int| 0 <= i < url.len() implies !ends.contains(#[trigger] url[i]) by {
        assert(url.contains(url[i]));
    }
    lemma_upto(url, seq![quote] + rest, ends);
}

/// An address behind `url=` is where the refresh tag of a page goes, where it is an
/// absolute one.
pub proof fn law_refresh_leads_to_its_address(before: Seq<char>, url: Seq<char>, rest: Seq<char>)
    requires
        is_first(before, "url="@, url + rest),
        url.len() > 0,
        rest.len() > 0,
        rest[0] == '"' || rest[0] == '\'' || rest[0] == '>' || rest[0] == ';',
        !url.contains('"') && !url.contains('\'') && !url.contains('>') && !url.contains(';'),
    ensures
        refresh_target(before + "url="@ + (url + rest)) == (if text::starts_with(url, "http"@) {
            Some(url)
        } else {
            None
        }),
{
    lemma_after(before, "url="@, url + rest);
    let s = url + rest;
    assert(url.contains(url[0]));
    assert(s[0] == url[0]);
    assert(unquoted(s) == s);
    let ends = seq!['"', '\'', '>', ';'];
    assert(ends[0] == '"' && ends[1] == '\'' && ends[2] == '>' && ends[3] == ';');
    assert forall|i: int| 0 <= i < url.len() implies !ends.contains(#[trigger] url[i]) by {
        assert(url.contains(url[i]));
    }
    lemma_upto(url, rest, ends);
}

/// The patterns of the scripts that lead a page on, in the order in which they count.
pub open spec fn script_patterns() -> Seq<Seq<char>> {
    seq![
        "window.location="@,
        "window.location.href="@,
        "location.replace("@,
        "location.href="@,
        "top.location="@,
    ]
}

/// A page goes where the first of its scripts that names an address goes, and where its
/// refresh tag goes where none does.
pub proof fn law_page_goes_by_its_first_script(page: Seq<char>, i: int)
    ensures
        0 <= i < 5 && script_target(page, script_patterns()[i]) is Some && (forall|j: int|
            0 <= j < i ==> script_target(page, #[trigger] script_patterns()[j]) is None)
            ==> page_target(page) == script_target(page, script_patterns()[i]),
        (forall|j: int|
            0 <= j < 5 ==> script_target(page, #[trigger] script_patterns()[j]) is None)
            ==> page_target(page) == refresh_target(page),
{
    let p = script_patterns();
    assert(p[0] == "window.location="@ && p[1] == "window.location.href="@ && p[2]
        == "location.replace("@ && p[3] == "location.href="@ && p[4] == "top.location="@);
}

/// The patterns of the scripts that lead a page of the authorization on, in the order
/// in which they count.
pub open spec fn authorization_patterns() -> Seq<Seq<char>> {
    seq![
        "location.href="@,
        "location.replace("@,
        "window.location="@,
        "top.location="@,
        "location.assign("@,
    ]
}

/// A page of the authorization goes where the first of its scripts that names an address
/// worth following goes; where none does, where its refresh tag goes; and where that
/// names none, where its form is sent.
pub proof fn law_authorization_goes_by_its_first_script(page: Seq<char>, i: int)
    ensures
        0 <= i < 5 && quoted_target(page, authorization_patterns()[i]) is Some && (forall|j: int|
            0 <= j < i ==> quoted_target(page, #[trigger] authorization_patterns()[j]) is None)
            ==> authorization_target(page) == quoted_target(page, authorization_patterns()[i]),
        (forall|j: int|
            0 <= j < 5 ==> quoted_target(page, #[trigger] authorization_patterns()[j]) is None) ==> (
        if tag_target(page) is Some {
            authorization_target(page) == tag_target(page)
        } else {
            authorization_target(page) == form_target(page)
        }),
{
    let p = authorization_patterns();
    assert(p[0] == "location.href="@ && p[1] == "location.replace("@ && p[2] == "window.location="@
        && p[3] == "top.location="@ && p[4] == "location.assign("@);
}

/// An address in double quotes behind a pattern is followed where it is an absolute one
/// or carries a token or a code or leads back to the player.
pub proof fn law_quoted_address_is_followed(
    before: Seq<char>,
    pattern: Seq<char>,
    between: Seq<char>,
    url: Seq<char>,
    rest: Seq<char>,
)
    requires
        is_first(before, pattern, between + seq!['"'] + url + seq!['"'] + rest),
        !pattern.contains('"'),
        !between.contains('"'),
        !url.contains('"'),
    ensures
        quoted_target(
            before + pattern + (between + seq!['"'] + url + seq!['"'] + rest),
            pattern,
        ) == (if text::contains(url, "http"@) || text::contains(url, "wx_redirect"@)
            || text::contains(url, "access_token"@) || text::contains(url, "code="@) {
            Some(url)
        } else {
            None
        }),
{
    let tail = between + seq!['"'] + url + seq!['"'] + rest;
    lemma_after(before, pattern, tail);
    lemma_quoted(pattern + between, url, rest);
    assert((pattern + between) + seq!['"'] + url + seq!['"'] + rest =~= pattern + tail);
    assert(!(pattern + between).contains('"')) by {
        let s = pattern + between;
        if s.contains('"') {
            let i = choose|i: int| 0 <= i < s.len() && s[i] == '"';
            if i < pattern.len() {
                assert(pattern[i] == '"');
            } else {
                assert(between[i - pattern.len()] == '"');
            }
        }
    }
}

/// What stands between the first two double quotes.
proof fn lemma_quoted(front: Seq<char>, url: Seq<char>, rest: Seq<char>)
    ensures
        !front.contains('"') && !url.contains('"') ==> quoted(
            front + seq!['"'] + url + seq!['"'] + rest,
        ) == Some(url),
{
    if !front.contains('"') && !url.contains('"') {
        let s = front + seq!['"'] + url + seq!['"'] + rest;
        assert forall|j: int| 0 <= j < front.len() implies #[trigger] s[j] != '"' by {
            assert(s[j] == front[j]);
            assert(front.contains(front[j]));
        }
        assert(s[front.len() as int] == '"');
        text::lemma_find_any_is(s, '"', front.len() as int);
        let tail = url + (seq!['"'] + rest);
        assert(s.skip(front.len() as int + 1) =~= tail);
        let set = seq!['"'];
        assert(set[0] == '"');
        assert forall|i: int| 0 <= i < url.len() implies !set.contains(#[trigger] url[i]) by {
            assert(url.contains(url[i]));
        }
        lemma_upto(url, seq!['"'] + rest, set);
    }
}

/// The hidden fields of a page are those of its input tags, one after the other: a tag
/// that is the first of its page adds its field in front of those behind it.
pub proof fn law_fields_are_of_their_tags(before: Seq<char>, tag: Seq<char>, rest: Seq<char>)
    requires
        is_first(before, "<input"@, tag + seq!['>'] + rest),
        !tag.contains('>'),
    ensures
        hidden_fields(before + "<input"@ + (tag + seq!['>'] + rest)) == hidden_field(
            "<input"@ + tag,
        ) + hidden_fields(rest),
        !text::contains(before, "<input"@) ==> hidden_fields(before).len() == 0,
{
    reveal_strlit("<input");
    let tail = tag + seq!['>'] + rest;
    let page = before + "<input"@ + tail;
    lemma_after(before, "<input"@, tail);
    text::law_found_at_first_place(page, "<input"@);
    assert(page.subrange(before.len() as int, (before.len() + "<input"@.len()) as int)
        =~= "<input"@);
    assert(text::occurs_at(page, "<input"@, before.len() as int));
    let here = page.skip(before.len() as int);
    let whole = "<input"@ + tag;
    assert(here =~= whole + (seq!['>'] + rest));
    let set = seq!['>'];
    assert(set[0] == '>');
    assert forall|i: int| 0 <= i < whole.len() implies !set.contains(#[trigger] whole[i]) by {
        if i >= 6 {
            assert(whole[i] == tag[i - 6]);
            assert(tag.contains(tag[i - 6]));
        } else {
            assert(whole[i] == "<input"@[i]);
        }
    }
    lemma_upto(whole, seq!['>'] + rest, set);
    assert(here.skip(whole.len() as int + 1) =~= rest);
}

/// A tag that is hidden and has a name adds its name and its value; any other adds
/// nothing.
pub proof fn law_hidden_tag_adds_its_field(tag: Seq<char>)
    ensures
        !text::contains(tag, "type=\"hidden\""@) ==> hidden_field(tag).len() == 0,
        text::contains(tag, "type=\"hidden\""@) && attribute(tag, "name=\""@).len() > 0
            ==> hidden_field(tag) == seq![
            (attribute(tag, "name=\""@), attribute(tag, "value=\""@)),
        ],
        attribute(tag, "name=\""@).len() == 0 ==> hidden_field(tag).len() == 0,
{
}

/// The value of an attribute stands between its opening and the next double quote.
pub proof fn law_attribute_has_its_value(
    before: Seq<char>,
    opening: Seq<char>,
    value: Seq<char>,
    rest: Seq<char>,
)
    requires
        is_first(before, opening, value + seq!['"'] + rest),
        !value.contains('"'),
    ensures
        attribute(before + opening + (value + seq!['"'] + rest), opening) == value,
        !text::contains(before, opening) ==> attribute(before, opening).len() == 0,
{
    let tail = value + seq!['"'] + rest;
    lemma_after(before, opening, tail);
    assert(tail =~= value + (seq!['"'] + rest));
    let set = seq!['"'];
    assert(set[0] == '"');
    assert forall|i: int| 0 <= i < value.len() implies !set.contains(#[trigger] value[i]) by {
        assert(value.contains(value[i]));
    }
    lemma_upto(value, seq!['"'] + rest, set);
}

/// The form of an authorization is sent to its action, at the host of the authorization
/// where it names none, with its hidden fields as the query, in order.
pub proof fn law_form_is_sent_to_its_action(
    before: Seq<char>,
    url: Seq<char>,
    rest: Seq<char>,
)
    requires
        is_first(before, "action="@, seq!['"'] + url + seq!['"'] + rest),
        !url.contains('"'),
    ensures
        ({
            let page = before + "action="@ + (seq!['"'] + url + seq!['"'] + rest);
            let query = query_text(hidden_fields(page));
            let sent = text::contains(url, "http"@) || text::contains(url, "authorize"@)
                || text::contains(url, "token"@);
            &&& !sent ==> form_target(page) is None
            &&& sent && text::starts_with(url, "http"@) ==> form_target(page) == Some(url + query)
            &&& sent && text::starts_with(url, "/"@) ==> form_target(page) == Some(
                "https://graph.qq.com"@ + url + query,
            )
            &&& sent && !text::starts_with(url, "http"@) && !text::starts_with(url, "/"@)
                ==> form_target(page) == Some("https://graph.qq.com/"@ + url + query)
        }),
{
    let none: Seq<char> = seq![];
    let tail = seq!['"'] + url + seq!['"'] + rest;
    lemma_after(before, "action="@, tail);
    reveal_strlit("action=");
    reveal_strlit("http");
    reveal_strlit("/");
    assert(!"action="@.contains('"'));
    lemma_quoted("action="@, url, rest);
    assert("action="@ + seq!['"'] + url + seq!['"'] + rest =~= "action="@ + tail);
    if text::starts_with(url, "/"@) {
        assert(url.take(1)[0] == "/"@[0]);
        if text::starts_with(url, "http"@) {
            assert(url.take(4)[0] == "http"@[0]);
        }
    }
}

/// The query of some fields begins with a question mark, and each further field follows
/// an ampersand.
pub proof fn law_query_has_its_fields(
    fields: Seq<(Seq<char>, Seq<char>)>,
    name: Seq<char>,
    value: Seq<char>,
)
    ensures
        query_text(seq![]).len() == 0,
        query_text(seq![(name, value)]) == "?"@ + name + "="@ + value,
        fields.len() > 0 ==> query_text(fields.push((name, value))) == query_text(fields) + "&"@
            + name + "="@ + value,
{
    let none: Seq<(Seq<char>, Seq<char>)> = seq![];
    let one = seq![(name, value)];
    assert(one.drop_last() =~= none);
    assert(query_text(none) =~= seq![]);
    assert(query_text(one) =~= "?"@ + name + "="@ + value);
    assert(fields.push((name, value)).drop_last() =~= fields);
}

/// The cookies may be sent to an address exactly where its host is `qq.com` or ends in
/// `.qq.com`, whatever its path is; an address with a user name is none, and neither is
/// what has no scheme of the web.
pub proof fn law_login_hosts_are_of_the_service(
    scheme: Seq<char>,
    host: Seq<char>,
    path: Seq<char>,
)
    requires
        scheme == "https://"@ || scheme == "http://"@,
        forall|i: int|
            0 <= i < host.len() ==> #[trigger] host[i] != '/' && host[i] != '?' && host[i] != '#'
                && host[i] != ':',
        path.len() > 0 ==> path[0] == '/' || path[0] == '?' || path[0] == '#',
    ensures
        (forall|i: int|
            0 <= i < host.len() ==> is_host_name_char(#[trigger] host[i]) && !('A' <= host[i]
                <= 'Z')) ==> (is_login_host(scheme + host + path) <==> host == "qq.com"@
            || text::ends_with(host, ".qq.com"@)),
        host.contains('@') || host.contains('\\') || host.contains(' ') ==> !is_login_host(
            scheme + host + path,
        ),
{
    reveal_strlit("https://");
    reveal_strlit("http://");
    let url = scheme + host + path;
    let low = text::ascii_lowered(url);
    let n = scheme.len() as int;
    assert(low.take(n) =~= scheme) by {
        assert forall|i: int| 0 <= i < n implies text::ascii_lower(url[i]) == scheme[i] by {
            assert(url[i] == scheme[i]);
        }
    }
    if scheme == "http://"@ {
        if text::starts_with(low, "https://"@) {
            assert(low.take(8)[4] == "https://"@[4]);
            assert(low.take(7)[4] == "http://"@[4]);
        }
    }
    assert(url.skip(n) =~= host + path);
    let ends = seq!['/', '?', '#'];
    assert(ends[0] == '/' && ends[1] == '?' && ends[2] == '#');
    assert forall|i: int| 0 <= i < host.len() implies !ends.contains(#[trigger] host[i]) by {
    }
    lemma_upto(host, path, ends);
    assert(authority(url) == Some(host));
    text::lemma_find_any_is(host, ':', host.len() as int);
    assert(host.take(host.len() as int) =~= host);
    if forall|i: int|
        0 <= i < host.len() ==> is_host_name_char(#[trigger] host[i]) && !('A' <= host[i] <= 'Z') {
        assert(text::ascii_lowered(host) =~= host) by {
            assert forall|i: int| 0 <= i < host.len() implies text::ascii_lower(
                #[trigger] host[i],
            ) == host[i] by {
                assert(is_host_name_char(host[i]));
            }
        }
    }
    if host.contains('@') || host.contains('\\') || host.contains(' ') {
        let c = if host.contains('@') {
            '@'
        } else if host.contains('\\') {
            '\\'
        } else {
            ' '
        };
        let i = choose|i: int| 0 <= i < host.len() && host[i] == c;
        assert(!is_host_name_char(host[i]));
    }
}

/// A tag with an address is followed where the address, which ends at a quote, leads on
/// with a login.
pub proof fn law_tag_leads_to_its_address(before: Seq<char>, url: Seq<char>, rest: Seq<char>)
    requires
        is_first(before, "url="@, url + seq!['"'] + rest),
        !url.contains('"'),
    ensures
        tag_target(before + "url="@ + (url + seq!['"'] + rest)) == (if text::contains(url, "http"@)
            || text::contains(url, "wx_redirect"@) || text::contains(url, "access_token"@)
            || text::contains(url, "code="@) {
            Some(url)
        } else {
            None
        }),
{
    lemma_after(before, "url="@, url + seq!['"'] + rest);
    let ends = seq!['"'];
    assert(ends[0] == '"');
    assert forall|i: int| 0 <= i < url.len() implies !ends.contains(#[trigger] url[i]) by {
        assert(url.contains(url[i]));
    }
    assert(url + seq!['"'] + rest =~= url + (seq!['"'] + rest));
    lemma_upto(url, seq!['"'] + rest, ends);
}

/// The name of a host is made of digits, letters, dashes, underscores and dots.
pub proof fn law_host_names_are_plain(c: char)
    ensures
        is_host_name_char(c)
            <==> "0123456789ABCDEFGHIJKLMNOPQRSTUVWXYZabcdefghijklmnopqrstuvwxyz-_."@.contains(c),
{
    reveal_strlit("0123456789ABCDEFGHIJKLMNOPQRSTUVWXYZabcdefghijklmnopqrstuvwxyz-_.");
    let all = "0123456789ABCDEFGHIJKLMNOPQRSTUVWXYZabcdefghijklmnopqrstuvwxyz-_."@;
    let k = c as int;
    if '0' <= c <= '9' {
        assert(all[k - 48] == c);
    } else if 'A' <= c <= 'Z' {
        assert(all[k - 65 + 10] == c);
    } else if 'a' <= c <= 'z' {
        assert(all[k - 97 + 36] == c);
    } else if c == '-' {
        assert(all[62] == c);
    } else if c == '_' {
        assert(all[63] == c);
    } else if c == '.' {
        assert(all[64] == c);
    }
}

/// Neither capitals in the name of a host nor a port behind it matter to whether it is
/// one of the service. A port is made of digits.
pub proof fn law_ports_and_capitals_do_not_matter(
    scheme: Seq<char>,
    host: Seq<char>,
    port: Seq<char>,
    path: Seq<char>,
)
    requires
        scheme == "https://"@ || scheme == "http://"@,
        forall|i: int| 0 <= i < host.len() ==> is_host_name_char(#[trigger] host[i]),
        forall|i: int|
            0 <= i < port.len() ==> #[trigger] port[i] != '/' && port[i] != '?' && port[i] != '#',
        path.len() > 0 ==> path[0] == '/' || path[0] == '?' || path[0] == '#',
    ensures
        ({
            let low = text::ascii_lowered(host);
            let own = low == "qq.com"@ || text::ends_with(low, ".qq.com"@);
            let digits = forall|i: int| 0 <= i < port.len() ==> '0' <= #[trigger] port[i] <= '9';
            &&& is_login_host(scheme + host + path) <==> own
            &&& is_login_host(scheme + (host + seq![':'] + port) + path) <==> own && digits
        }),
{
    lemma_authority(scheme, host, path);
    text::lemma_find_any_is(host, ':', host.len() as int);
    assert(host.take(host.len() as int) =~= host);
    let a = host + seq![':'] + port;
    let n = host.len() as int;
    assert forall|i: int| 0 <= i < a.len() implies #[trigger] a[i] != '/' && a[i] != '?' && a[i]
        != '#' by {
        if i < n {
            assert(a[i] == host[i]);
        } else if i > n {
            assert(a[i] == port[i - n - 1]);
        }
    }
    lemma_authority(scheme, a, path);
    assert forall|i: int| 0 <= i < n implies #[trigger] a[i] != ':' by {
        assert(a[i] == host[i]);
    }
    assert(a[n] == ':');
    text::lemma_find_any_is(a, ':', n);
    assert(a.take(n) =~= host);
    assert forall|i: int| 0 <= i < port.len() implies #[trigger] port[i] == a[n + 1 + i] by {
    }
    assert forall|i: int| n < i < a.len() implies #[trigger] a[i] == port[i - n - 1] by {
    }
}

proof fn lemma_authority(scheme: Seq<char>, a: Seq<char>, path: Seq<char>)
    requires
        scheme == "https://"@ || scheme == "http://"@,
        forall|i: int|
            0 <= i < a.len() ==> #[trigger] a[i] != '/' && a[i] != '?' && a[i] != '#',
        path.len() > 0 ==> path[0] == '/' || path[0] == '?' || path[0] == '#',
    ensures
        authority(scheme + a + path) == Some(a),
{
    reveal_strlit("https://");
    reveal_strlit("http://");
    let url = scheme + a + path;
    let low = text::ascii_lowered(url);
    let n = scheme.len() as int;
    assert(low.take(n) =~= scheme) by {
        assert forall|i: int| 0 <= i < n implies text::ascii_lower(url[i]) == scheme[i] by {
            assert(url[i] == scheme[i]);
        }
    }
    if scheme == "http://"@ {
        if text::starts_with(low, "https://"@) {
            assert(low.take(8)[4] == "https://"@[4]);
            assert(low.take(7)[4] == "http://"@[4]);
        }
    }
    assert(url.skip(n) =~= a + path);
    let ends = seq!['/', '?', '#'];
    assert(ends[0] == '/' && ends[1] == '?' && ends[2] == '#');
    assert forall|i: int| 0 <= i < a.len() implies !ends.contains(#[trigger] a[i]) by {
    }
    lemma_upto(a, path, ends);
}

} // verus!
