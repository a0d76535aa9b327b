//! Cookies: values in a `Cookie` header, and a jar that collects them.
use vstd::prelude::*;
use crate::json;
use crate::text::{
    self,
    chars_of,
    concat2,
    concat3,
    find_any_chars,
    join_texts,
    list_contains,
    split_text,
    strip_start_text,
    text_contains,
    text_of,
    text_starts_with,
    to_lowercase,
    trim_text,
};

verus! {

// ---------------------------------------------------------------------------
// Values in a cookie header
// ---------------------------------------------------------------------------
/// The second of the pieces, where there are two.
pub open spec fn second(pieces: Seq<Seq<char>>) -> Option<Seq<char>> {
    if pieces.len() > 1 {
        Some(pieces[1])
    } else {
        None
    }
}

/// The value that one segment of a cookie header gives to the name `name`: what
/// stands between its first and its second equals sign, without surrounding
/// white space, where the segment begins with the name in any case and that is
/// not empty.
pub open spec fn segment_value(segment: Seq<char>, name: Seq<char>) -> Option<Seq<char>> {
    let part = text::trim(segment);
    if text::starts_with(text::lower(part), text::lower(name + "="@)) {
        match second(text::split(part, '=')) {
            Some(v) => if text::trim(v).len() > 0 {
                Some(text::trim(v))
            } else {
                None
            },
            None => None,
        }
    } else {
        None
    }
}

/// The value of the first segment that gives one to `name`.
pub open spec fn value_among(segments: Seq<Seq<char>>, name: Seq<char>) -> Option<Seq<char>>
    decreases segments.len(),
{
    if segments.len() == 0 {
        None
    } else if segment_value(segments[0], name) is Some {
        segment_value(segments[0], name)
    } else {
        value_among(segments.skip(1), name)
    }
}

/// The value of the cookie `name` in a cookie header.
pub open spec fn cookie_value(cookie: Seq<char>, name: Seq<char>) -> Option<Seq<char>> {
    value_among(text::split(cookie, ';'), name)
}

/// The piece behind the first equals sign, up to the next.
fn piece_after_eq(part: &str) -> (r: Option<String>)
    ensures
        text::opt_view(r) == second(text::split(part@, '=')),
{
    let mut pieces: Vec<String> = split_text(part, '=');
    proof {
        assert(text::views(pieces@) == text::split(part@, '='));
    }
    if pieces.len() > 1 {
        Some(pieces.swap_remove(1))
    } else {
        None
    }
}

/// The value of the cookie `name`, as it stands in the header.
pub fn extract_cookie_raw(cookie: &str, name: &str) -> (r: Option<String>)
    ensures
        text::opt_view(r) == cookie_value(cookie@, name@),
{
    let with_eq: String = concat2(name, "=");
    let prefix: String = to_lowercase(with_eq.as_str());
    let segments: Vec<String> = split_text(cookie, ';');
    let ghost all = text::split(cookie@, ';');
    proof {
        assert(all.skip(0) == all);
    }
    for i in 0..segments.len()
        invariant
            all == text::split(cookie@, ';'),
            all == text::views(segments@),
            prefix@ == text::lower(name@ + "="@),
            value_among(all, name@) == value_among(all.skip(i as int), name@),
    {
        proof {
            assert(all.skip(i as int)[0] == segments@[i as int]@);
            assert(all.skip(i as int).skip(1) == all.skip(i + 1));
        }
        let part: String = trim_text(segments[i].as_str());
        let lowered: String = to_lowercase(part.as_str());
        if text_starts_with(lowered.as_str(), prefix.as_str()) {
            if let Some(raw) = piece_after_eq(part.as_str()) {
                let value: String = trim_text(raw.as_str());
                if !value.as_str().is_empty() {
                    return Some(value);
                }
            }
        }
    }
    None
}

/// The key that requests are signed with: `qm_keyst`, and `qqmusic_key` in older cookies.
pub open spec fn signing_key(cookie: Seq<char>) -> Option<Seq<char>> {
    json::or(cookie_value(cookie, "qm_keyst"@), cookie_value(cookie, "qqmusic_key"@))
}

/// The key that requests are signed with.
pub fn extract_qqmusic_signing_key(cookie: &str) -> (r: Option<String>)
    ensures
        text::opt_view(r) == signing_key(cookie@),
{
    let modern: Option<String> = extract_cookie_raw(cookie, "qm_keyst");
    if modern.is_some() {
        modern
    } else {
        extract_cookie_raw(cookie, "qqmusic_key")
    }
}

/// The cookie with `qqmusic_key` added, with the value of `qm_keyst`, where it
/// has that and no `qqmusic_key`.
pub open spec fn completed_cookie(cookie: Seq<char>) -> Seq<char> {
    match cookie_value(cookie, "qm_keyst"@) {
        Some(v) => if cookie_value(cookie, "qqmusic_key"@) is None {
            cookie + "; qqmusic_key="@ + v
        } else {
            cookie
        },
        None => cookie,
    }
}

/// The cookie that accompanies a request: it names the key both ways.
pub fn complete_cookie(cookie: &str) -> (r: String)
    ensures
        r@ == completed_cookie(cookie@),
{
    match extract_cookie_raw(cookie, "qm_keyst") {
        Some(v) => if extract_cookie_raw(cookie, "qqmusic_key").is_none() {
            concat3(cookie, "; qqmusic_key=", v.as_str())
        } else {
            cookie.to_string()
        },
        None => cookie.to_string(),
    }
}

// ---------------------------------------------------------------------------
// The account number
// ---------------------------------------------------------------------------
/// The account number that one segment of a cookie header gives under `name`:
/// its value without leading letters `o`, and then without leading zeros.
pub open spec fn segment_uin(segment: Seq<char>, name: Seq<char>) -> Option<Seq<char>> {
    let part = text::trim(segment);
    if text::starts_with(text::lower(part), name + "="@) {
        match second(text::split(part, '=')) {
            Some(v) => {
                let cleaned = text::strip_start(
                    text::strip_start(text::trim(v), 'o'),
                    '0',
                );
                if cleaned.len() > 0 {
                    Some(cleaned)
                } else {
                    None
                }
            },
            None => None,
        }
    } else {
        None
    }
}

/// The account number of the first segment that gives one under `name`.
pub open spec fn uin_among(segments: Seq<Seq<char>>, name: Seq<char>) -> Option<Seq<char>>
    decreases segments.len(),
{
    if segments.len() == 0 {
        None
    } else if segment_uin(segments[0], name) is Some {
        segment_uin(segments[0], name)
    } else {
        uin_among(segments.skip(1), name)
    }
}

/// The account number in a cookie: under `uin`, else `pt2gguin`, else `superuin`.
pub open spec fn cookie_uin(cookie: Seq<char>) -> Option<Seq<char>> {
    let segments = text::split(cookie, ';');
    json::or(
        uin_among(segments, "uin"@),
        json::or(uin_among(segments, "pt2gguin"@), uin_among(segments, "superuin"@)),
    )
}

fn extract_uin_as(segments: &Vec<String>, name: &str) -> (r: Option<String>)
    ensures
        text::opt_view(r) == uin_among(text::views(segments@), name@),
{
    let prefix: String = concat2(name, "=");
    let ghost all = text::views(segments@);
    proof {
        assert(all.skip(0) == all);
    }
    for i in 0..segments.len()
        invariant
            all == text::views(segments@),
            prefix@ == name@ + "="@,
            uin_among(all, name@) == uin_among(all.skip(i as int), name@),
    {
        proof {
            assert(all.skip(i as int)[0] == segments@[i as int]@);
            assert(all.skip(i as int).skip(1) == all.skip(i + 1));
        }
        let part: String = trim_text(segments[i].as_str());
        let lowered: String = to_lowercase(part.as_str());
        if text_starts_with(lowered.as_str(), prefix.as_str()) {
            if let Some(raw) = piece_after_eq(part.as_str()) {
                let value: String = trim_text(raw.as_str());
                let number: String = strip_start_text(value.as_str(), 'o');
                let cleaned: String = strip_start_text(number.as_str(), '0');
                if !cleaned.as_str().is_empty() {
                    return Some(cleaned);
                }
            }
        }
    }
    None
}

/// The account number in a cookie.
pub fn extract_cookie_value(cookie: &str) -> (r: Option<String>)
    ensures
        text::opt_view(r) == cookie_uin(cookie@),
{
    let segments: Vec<String> = split_text(cookie, ';');
    let plain: Option<String> = extract_uin_as(&segments, "uin");
    if plain.is_some() {
        return plain;
    }
    let linked: Option<String> = extract_uin_as(&segments, "pt2gguin");
    if linked.is_some() {
        return linked;
    }
    extract_uin_as(&segments, "superuin")
}

// ---------------------------------------------------------------------------
// Collecting cookies
// ---------------------------------------------------------------------------
/// The pairs in order, each once, without surrounding white space and without
/// empty ones: those of `jar`, then those of `segments` that are new.
pub open spec fn gathered(jar: Seq<Seq<char>>, segments: Seq<Seq<char>>) -> Seq<Seq<char>>
    decreases segments.len(),
{
    if segments.len() == 0 {
        jar
    } else {
        let before = gathered(jar, segments.drop_last());
        let pair = text::trim(segments.last());
        if pair.len() == 0 || before.contains(pair) {
            before
        } else {
            before.push(pair)
        }
    }
}

/// The pairs of a cookie header added to those collected.
pub open spec fn gathered_cookie(jar: Seq<Seq<char>>, cookie: Seq<char>) -> Seq<Seq<char>> {
    gathered(jar, text::split(cookie, ';'))
}

/// Adds the pairs of a cookie header that are not in the jar yet.
pub fn gather_cookie(jar: &mut Vec<String>, cookie: &str)
    ensures
        text::views(final(jar)@) == gathered_cookie(
            text::views(old(jar)@),
            cookie@,
        ),
{
    let segments: Vec<String> = split_text(cookie, ';');
    let ghost start = text::views(jar@);
    let ghost all = text::views(segments@);
    proof {
        assert(all.take(0) =~= seq![]);
    }
    for i in 0..segments.len()
        invariant
            start == text::views(old(jar)@),
            all == text::views(segments@),
            text::views(jar@) == gathered(start, all.take(i as int)),
    {
        proof {
            assert(all.take(i + 1).drop_last() =~= all.take(i as int));
            assert(all.take(i + 1).last() == segments@[i as int]@);
        }
        let pair: String = trim_text(segments[i].as_str());
        if !pair.as_str().is_empty() && !list_contains(jar, pair.as_str()) {
            let ghost before = text::views(jar@);
            let ghost added = pair@;
            jar.push(pair);
            proof {
                assert(text::views(jar@) =~= before.push(added));
            }
        }
    }
    proof {
        assert(all.take(all.len() as int) =~= all);
    }
}

/// The entries that do not begin with `prefix`.
pub open spec fn without(jar: Seq<Seq<char>>, prefix: Seq<char>) -> Seq<Seq<char>>
    decreases jar.len(),
{
    if jar.len() == 0 {
        seq![]
    } else {
        let before = without(jar.drop_last(), prefix);
        if text::starts_with(jar.last(), prefix) {
            before
        } else {
            before.push(jar.last())
        }
    }
}

/// The jar with every cookie of the name `name` gone and `pair` added.
pub open spec fn replaced(jar: Seq<Seq<char>>, name: Seq<char>, pair: Seq<char>) -> Seq<Seq<char>> {
    without(jar, name + "="@).push(pair)
}

/// Some entry begins with `prefix`.
pub open spec fn holds(jar: Seq<Seq<char>>, prefix: Seq<char>) -> bool {
    exists|i: int| 0 <= i < jar.len() && text::starts_with(#[trigger] jar[i], prefix)
}

/// Whether some entry begins with `prefix`.
pub fn jar_holds(jar: &Vec<String>, prefix: &str) -> (r: bool)
    ensures
        r == holds(text::views(jar@), prefix@),
{
    let ghost all = text::views(jar@);
    for i in 0..jar.len()
        invariant
            all == text::views(jar@),
            forall|k: int| 0 <= k < i ==> !text::starts_with(#[trigger] all[k], prefix@),
    {
        if text_starts_with(jar[i].as_str(), prefix) {
            proof {
                assert(text::starts_with(all[i as int], prefix@));
            }
            return true;
        }
    }
    false
}

/// Puts `pair` in the place of every cookie of the name `name`.
pub fn replace_cookie(jar: &mut Vec<String>, name: &str, pair: String)
    ensures
        text::views(final(jar)@) == replaced(text::views(old(jar)@), name@, pair@),
{
    let prefix: String = concat2(name, "=");
    let mut kept: Vec<String> = Vec::new();
    let ghost all = text::views(jar@);
    proof {
        assert(all.take(0) =~= seq![]);
        assert(text::views(kept@) =~= seq![]);
    }
    for i in 0..jar.len()
        invariant
            jar@ == old(jar)@,
            all == text::views(jar@),
            prefix@ == name@ + "="@,
            text::views(kept@) == without(all.take(i as int), prefix@),
    {
        proof {
            assert(all.take(i + 1).drop_last() =~= all.take(i as int));
            assert(all.take(i + 1).last() == jar@[i as int]@);
        }
        if !text_starts_with(jar[i].as_str(), prefix.as_str()) {
            let ghost before = text::views(kept@);
            kept.push(jar[i].clone());
            proof {
                assert(text::views(kept@) =~= before.push(jar@[i as int]@));
            }
        }
    }
    let ghost before = text::views(kept@);
    let ghost added = pair@;
    kept.push(pair);
    proof {
        assert(all.take(all.len() as int) =~= all);
        assert(text::views(kept@) =~= before.push(added));
    }
    *jar = kept;
}

/// The pair of name and value that a `Set-Cookie` header carries.
pub open spec fn set_cookie_pair(header: Seq<char>) -> Seq<char> {
    text::trim(text::split(header, ';')[0])
}

/// The jar after a `Set-Cookie` header: its pair replaces those of its name. A
/// header without a pair, or whose pair has an empty value, leaves the jar as it
/// is: such headers delete the cookie of another domain, and would take a value
/// that was collected before.
pub open spec fn after_set_cookie(jar: Seq<Seq<char>>, header: Seq<char>) -> Seq<Seq<char>> {
    let pair = set_cookie_pair(header);
    let pieces = text::split(pair, '=');
    if second(pieces) is Some && second(pieces)->0.len() > 0 {
        replaced(jar, pieces[0], pair)
    } else {
        jar
    }
}

/// The name and the pair that a `Set-Cookie` header puts into the jar; `None` where
/// it leaves the jar as it is.
pub open spec fn set_pair(header: Seq<char>) -> Option<(Seq<char>, Seq<char>)> {
    let pair = set_cookie_pair(header);
    let pieces = text::split(pair, '=');
    if second(pieces) is Some && second(pieces)->0.len() > 0 {
        Some((pieces[0], pair))
    } else {
        None
    }
}

/// A cookie of the name `name` is set.
pub open spec fn is_named(set: Option<(Seq<char>, Seq<char>)>, name: Seq<char>) -> bool {
    set matches Some((n, _)) && n == name
}

/// The jar after the `Set-Cookie` headers of one response.
pub open spec fn after_set_cookies(jar: Seq<Seq<char>>, headers: Seq<Seq<char>>) -> Seq<Seq<char>>
    decreases headers.len(),
{
    if headers.len() == 0 {
        jar
    } else {
        after_set_cookie(after_set_cookies(jar, headers.drop_last()), headers.last())
    }
}

/// A text has a first piece.
pub proof fn lemma_split_not_empty(s: Seq<char>, sep: char)
    ensures
        text::split(s, sep).len() > 0,
{
}

/// Takes one `Set-Cookie` header into the jar.
pub fn store_set_cookie(jar: &mut Vec<String>, header: &str)
    ensures
        text::views(final(jar)@) == after_set_cookie(
            text::views(old(jar)@),
            header@,
        ),
{
    let parts: Vec<String> = split_text(header, ';');
    proof {
        lemma_split_not_empty(header@, ';');
        assert(text::views(parts@)[0] == parts@[0]@);
    }
    let pair: String = trim_text(parts[0].as_str());
    let pieces: Vec<String> = split_text(pair.as_str(), '=');
    proof {
        lemma_split_not_empty(pair@, '=');
        assert(text::views(pieces@)[0] == pieces@[0]@);
        if pieces@.len() > 1 {
            assert(text::views(pieces@)[1] == pieces@[1]@);
        }
    }
    if pieces.len() > 1 && !pieces[1].as_str().is_empty() {
        replace_cookie(jar, pieces[0].as_str(), pair);
    }
}

/// Takes the `Set-Cookie` headers of one response into the jar.
pub fn store_set_cookies(jar: &mut Vec<String>, headers: &Vec<String>)
    ensures
        text::views(final(jar)@) == after_set_cookies(
            text::views(old(jar)@),
            text::views(headers@),
        ),
{
    let ghost start = text::views(jar@);
    let ghost all = text::views(headers@);
    proof {
        assert(all.take(0) =~= seq![]);
    }
    for i in 0..headers.len()
        invariant
            all == text::views(headers@),
            start == text::views(old(jar)@),
            text::views(jar@) == after_set_cookies(start, all.take(i as int)),
    {
        proof {
            assert(all.take(i + 1).drop_last() =~= all.take(i as int));
            assert(all.take(i + 1).last() == headers@[i as int]@);
        }
        store_set_cookie(jar, headers[i].as_str());
    }
    proof {
        assert(all.take(all.len() as int) =~= all);
    }
}

/// The pairs of the `Set-Cookie` headers, without empty ones.
pub open spec fn set_cookie_pairs(headers: Seq<Seq<char>>) -> Seq<Seq<char>>
    decreases headers.len(),
{
    if headers.len() == 0 {
        seq![]
    } else {
        let before = set_cookie_pairs(headers.drop_last());
        let pair = set_cookie_pair(headers.last());
        if pair.len() == 0 {
            before
        } else {
            before.push(pair)
        }
    }
}

/// The cookie header made of the `Set-Cookie` headers of one response.
pub fn cookie_from_set_cookies(headers: &Vec<String>) -> (r: String)
    ensures
        r@ == text::join(set_cookie_pairs(text::views(headers@)), "; "@),
{
    let mut pairs: Vec<String> = Vec::new();
    let ghost all = text::views(headers@);
    proof {
        assert(all.take(0) =~= seq![]);
        assert(text::views(pairs@) =~= seq![]);
    }
    for i in 0..headers.len()
        invariant
            all == text::views(headers@),
            text::views(pairs@) == set_cookie_pairs(all.take(i as int)),
    {
        proof {
            assert(all.take(i + 1).drop_last() =~= all.take(i as int));
            assert(all.take(i + 1).last() == headers@[i as int]@);
        }
        let parts: Vec<String> = split_text(headers[i].as_str(), ';');
        proof {
            lemma_split_not_empty(headers@[i as int]@, ';');
            assert(text::views(parts@)[0] == parts@[0]@);
        }
        let pair: String = trim_text(parts[0].as_str());
        if !pair.as_str().is_empty() {
            let ghost before = text::views(pairs@);
            let ghost added = pair@;
            pairs.push(pair);
            proof {
                assert(text::views(pairs@) =~= before.push(added));
            }
        }
    }
    proof {
        assert(all.take(all.len() as int) =~= all);
    }
    join_texts(&pairs, "; ")
}

/// The name and the value of a `Set-Cookie` header, split at its first equals
/// sign and cut at its first semicolon; `None` where no equals sign stands before
/// that, where the value is empty, or where it holds the year 1970 of a cookie
/// that is being deleted.
pub open spec fn live_pair(header: Seq<char>) -> Option<(Seq<char>, Seq<char>)> {
    let end = text::find_any(header, seq![';']);
    let eq = text::find_any(header, seq!['=']);
    if eq < end {
        let value = header.subrange(eq as int + 1, end as int);
        if value.len() > 0 && !text::contains(value, "1970"@) {
            Some((header.take(eq as int), value))
        } else {
            None
        }
    } else {
        None
    }
}

/// The name and the value that a `Set-Cookie` header sets.
pub fn live_set_cookie(header: &str) -> (r: Option<(String, String)>)
    ensures
        match r {
            Some((name, value)) => live_pair(header@) == Some((name@, value@)),
            None => live_pair(header@) is None,
        },
{
    let chars: Vec<char> = chars_of(header);
    let semicolon: Vec<char> = vec![';'];
    let equals: Vec<char> = vec!['='];
    proof {
        assert(semicolon@ == seq![';']);
        assert(equals@ == seq!['=']);
    }
    let end: usize = find_any_chars(chars.as_slice(), semicolon.as_slice());
    let eq: usize = find_any_chars(chars.as_slice(), equals.as_slice());
    if eq >= end {
        return None;
    }
    let value: String = text_of(vstd::slice::slice_subrange(chars.as_slice(), eq + 1, end));
    if value.as_str().is_empty() || text_contains(value.as_str(), "1970") {
        return None;
    }
    let name: String = text_of(vstd::slice::slice_subrange(chars.as_slice(), 0, eq));
    proof {
        assert(name@ == header@.take(eq as int));
    }
    Some((name, value))
}

// ---------------------------------------------------------------------------
// What holds of cookies
// ---------------------------------------------------------------------------
/// The first value among two lists of segments is that of the first list, or of
/// the second where the first has none.
proof fn lemma_value_among_concat(a: Seq<Seq<char>>, b: Seq<Seq<char>>, name: Seq<char>)
    ensures
        value_among(a + b, name) == json::or(value_among(a, name), value_among(b, name)),
    decreases a.len(),
{
    if a.len() == 0 {
        assert(a + b =~= b);
    } else {
        assert((a + b)[0] == a[0]);
        assert((a + b).skip(1) =~= a.skip(1) + b);
        lemma_value_among_concat(a.skip(1), b, name);
    }
}

/// Where segments give a value, one of them gives it.
proof fn lemma_value_among_some(segments: Seq<Seq<char>>, name: Seq<char>) -> (i: int)
    requires
        value_among(segments, name) is Some,
    ensures
        0 <= i < segments.len(),
        segment_value(segments[i], name) == value_among(segments, name),
    decreases segments.len(),
{
    if segment_value(segments[0], name) is Some {
        0
    } else {
        let j = lemma_value_among_some(segments.skip(1), name);
        j + 1
    }
}

/// A value that a cookie header gives is not empty, holds neither semicolon nor
/// equals sign, and has no white space at its ends.
pub proof fn law_value_is_clean(cookie: Seq<char>, name: Seq<char>)
    ensures
        cookie_value(cookie, name) matches Some(v) ==> {
            &&& v.len() > 0
            &&& !v.contains(';')
            &&& !v.contains('=')
            &&& text::trim(v) == v
        },
{
    if cookie_value(cookie, name) is Some {
        let segments = text::split(cookie, ';');
        let i = lemma_value_among_some(segments, name);
        let part = text::trim(segments[i]);
        let pieces = text::split(part, '=');
        let raw = pieces[1];
        text::lemma_piece_without_separator(cookie, ';', i);
        text::lemma_trim(segments[i]);
        text::lemma_piece_without_separator(part, '=', 1);
        lemma_piece_is_part(part, '=', 1);
        text::lemma_trim(raw);
        let v = text::trim(raw);
        if v.contains(';') {
            assert(raw.contains(';'));
            assert(part.contains(';'));
            assert(segments[i].contains(';'));
        }
        if v.contains('=') {
            assert(raw.contains('='));
        }
    }
}

/// A piece holds only characters of the text.
proof fn lemma_piece_is_part(s: Seq<char>, c: char, i: int)
    requires
        0 <= i < text::split(s, c).len(),
    ensures
        forall|x: char| #[trigger] text::split(s, c)[i].contains(x) ==> s.contains(x),
    decreases s.len(),
{
    text::lemma_find_any_one(s, c);
    let k = text::find_any(s, seq![c]) as int;
    if k < s.len() {
        if i == 0 {
            assert forall|x: char| #[trigger] text::split(s, c)[0].contains(x) implies s.contains(
                x,
            ) by {
                let first = s.take(k);
                let j = choose|j: int| 0 <= j < first.len() && first[j] == x;
                assert(s[j] == x);
            }
        } else {
            lemma_piece_is_part(s.skip(k + 1), c, i - 1);
            assert(text::split(s, c)[i] == text::split(s.skip(k + 1), c)[i - 1]);
            assert forall|x: char| #[trigger] text::split(s, c)[i].contains(x) implies s.contains(
                x,
            ) by {
                let rest = s.skip(k + 1);
                assert(rest.contains(x));
                let j = choose|j: int| 0 <= j < rest.len() && rest[j] == x;
                assert(s[k + 1 + j] == x);
            }
        }
    }
}

/// A segment made of a space, a name in lower case and a clean value gives that value.
proof fn lemma_added_segment(v: Seq<char>)
    requires
        v.len() > 0,
        !v.contains('='),
        text::trim(v) == v,
    ensures
        segment_value(seq![' '] + "qqmusic_key="@ + v, "qqmusic_key"@) == Some(v),
{
    let name = "qqmusic_key"@;
    let eq = "="@;
    let front = "qqmusic_key="@;
    reveal_strlit("qqmusic_key");
    reveal_strlit("=");
    reveal_strlit("qqmusic_key=");
    assert(name + eq =~= front);
    let x = front + v;
    let segment = seq![' '] + front + v;
    text::lemma_trim(v);
    assert(x[0] == front[0]);
    assert(x.last() == v.last());
    assert(!text::is_space(x[0]));
    assert(segment.skip(1) =~= x);
    assert(segment[0] == ' ');
    text::lemma_trim_start(x);
    assert(text::trim_start(segment) == text::trim_start(segment.skip(1)));
    text::lemma_trim_end(x);
    assert(text::trim(segment) == x);
    text::lemma_lower_prefix(front, v);
    text::lemma_simple_run_full(front);
    assert(text::starts_with(text::lower(x), text::lower(name + eq)));
    assert(x =~= name + seq!['='] + v);
    text::lemma_split_concat(name, '=', v);
    assert(!name.contains('='));
    text::lemma_split_whole(name, '=');
    text::lemma_split_whole(v, '=');
    assert(text::split(x, '=') =~= seq![name, v]);
}

/// A key behind a cookie header is one more segment.
proof fn lemma_completed_segments(cookie: Seq<char>, v: Seq<char>)
    requires
        !v.contains(';'),
    ensures
        text::split(cookie + "; qqmusic_key="@ + v, ';') == text::split(cookie, ';') + seq![
            seq![' '] + "qqmusic_key="@ + v,
        ],
{
    let added = seq![' '] + "qqmusic_key="@ + v;
    reveal_strlit("; qqmusic_key=");
    reveal_strlit("qqmusic_key=");
    assert("; qqmusic_key="@ =~= seq![';', ' '] + "qqmusic_key="@);
    assert(cookie + "; qqmusic_key="@ + v =~= cookie + seq![';'] + added);
    text::lemma_split_concat(cookie, ';', added);
    assert(!added.contains(';')) by {
        if added.contains(';') {
            let j = choose|j: int| 0 <= j < added.len() && added[j] == ';';
            if j >= 13 {
                assert(added[j] == v[j - 13]);
                assert(v.contains(';'));
            } else if j > 0 {
                assert(added[j] == "qqmusic_key="@[j - 1]);
            }
        }
    }
    text::lemma_split_whole(added, ';');
}

/// The cookie that accompanies a request keeps every value, and where it names
/// the signing key `qm_keyst`, it names a `qqmusic_key` too: the same key where
/// it was added. Completing it again changes nothing.
pub proof fn law_completed_cookie(cookie: Seq<char>, name: Seq<char>)
    ensures
        cookie_value(cookie, name) is Some ==> cookie_value(completed_cookie(cookie), name)
            == cookie_value(cookie, name),
        cookie_value(cookie, "qm_keyst"@) is Some ==> cookie_value(
            completed_cookie(cookie),
            "qqmusic_key"@,
        ) is Some,
        cookie_value(cookie, "qm_keyst"@) is Some && cookie_value(cookie, "qqmusic_key"@) is None
            ==> cookie_value(completed_cookie(cookie), "qqmusic_key"@) == cookie_value(
            cookie,
            "qm_keyst"@,
        ),
        completed_cookie(completed_cookie(cookie)) == completed_cookie(cookie),
{
    let key = cookie_value(cookie, "qm_keyst"@);
    if key is Some && cookie_value(cookie, "qqmusic_key"@) is None {
        let v = key->0;
        let added = seq![' '] + "qqmusic_key="@ + v;
        let segments = text::split(cookie, ';');
        law_value_is_clean(cookie, "qm_keyst"@);
        lemma_completed_segments(cookie, v);
        lemma_added_segment(v);
        assert(seq![added][0] == added);
        lemma_value_among_concat(segments, seq![added], name);
        lemma_value_among_concat(segments, seq![added], "qqmusic_key"@);
        lemma_value_among_concat(segments, seq![added], "qm_keyst"@);
    }
}

/// Nothing empty and nothing twice gets into the jar.
pub proof fn law_gathered_once(jar: Seq<Seq<char>>, cookie: Seq<char>)
    requires
        jar.no_duplicates(),
        forall|i: int| 0 <= i < jar.len() ==> (#[trigger] jar[i]).len() > 0,
    ensures
        gathered_cookie(jar, cookie).no_duplicates(),
        forall|i: int|
            0 <= i < gathered_cookie(jar, cookie).len() ==> (#[trigger] gathered_cookie(
                jar,
                cookie,
            )[i]).len() > 0,
{
    lemma_gathered_once(jar, text::split(cookie, ';'));
}

proof fn lemma_gathered_once(jar: Seq<Seq<char>>, segments: Seq<Seq<char>>)
    requires
        jar.no_duplicates(),
        forall|i: int| 0 <= i < jar.len() ==> (#[trigger] jar[i]).len() > 0,
    ensures
        gathered(jar, segments).no_duplicates(),
        forall|i: int|
            0 <= i < gathered(jar, segments).len() ==> (#[trigger] gathered(jar, segments)[i]).len()
                > 0,
    decreases segments.len(),
{
    if segments.len() > 0 {
        lemma_gathered_once(jar, segments.drop_last());
    }
}

/// What is gathered stays: the jar is the beginning of the new one, and every
/// pair of the header that is not empty is in it.
proof fn lemma_gathered_has(jar: Seq<Seq<char>>, segments: Seq<Seq<char>>)
    ensures
        jar.len() <= gathered(jar, segments).len(),
        gathered(jar, segments).take(jar.len() as int) == jar,
        forall|i: int|
            0 <= i < segments.len() && text::trim(#[trigger] segments[i]).len() > 0 ==> gathered(
                jar,
                segments,
            ).contains(text::trim(segments[i])),
    decreases segments.len(),
{
    if segments.len() == 0 {
        assert(jar.take(jar.len() as int) =~= jar);
    } else {
        let shorter = segments.drop_last();
        let before = gathered(jar, shorter);
        let now = gathered(jar, segments);
        lemma_gathered_has(jar, shorter);
        assert(now.take(jar.len() as int) =~= before.take(jar.len() as int));
        assert forall|i: int|
            0 <= i < segments.len() && text::trim(#[trigger] segments[i]).len()
                > 0 implies now.contains(text::trim(segments[i])) by {
            let pair = text::trim(segments[i]);
            if i < shorter.len() {
                assert(shorter[i] == segments[i]);
                assert(before.contains(pair));
                let k = choose|k: int| 0 <= k < before.len() && before[k] == pair;
                assert(now[k] == pair);
            } else if !before.contains(pair) {
                assert(now.last() == pair);
            }
        }
    }
}

/// Segments that are all in the jar add nothing.
proof fn lemma_gathered_known(jar: Seq<Seq<char>>, segments: Seq<Seq<char>>)
    requires
        forall|i: int|
            0 <= i < segments.len() && text::trim(#[trigger] segments[i]).len() > 0
                ==> jar.contains(text::trim(segments[i])),
    ensures
        gathered(jar, segments) == jar,
    decreases segments.len(),
{
    if segments.len() > 0 {
        let shorter = segments.drop_last();
        assert forall|i: int|
            0 <= i < shorter.len() && text::trim(#[trigger] shorter[i]).len()
                > 0 implies jar.contains(text::trim(shorter[i])) by {
            assert(shorter[i] == segments[i]);
        }
        lemma_gathered_known(jar, shorter);
        assert(segments.last() == segments[segments.len() - 1]);
    }
}

/// Gathering a header keeps what is in the jar, in its place, and gathering it
/// again adds nothing.
pub proof fn law_gathering_is_stable(jar: Seq<Seq<char>>, cookie: Seq<char>)
    ensures
        gathered_cookie(jar, cookie).take(jar.len() as int) == jar,
        gathered_cookie(gathered_cookie(jar, cookie), cookie) == gathered_cookie(jar, cookie),
{
    let segments = text::split(cookie, ';');
    lemma_gathered_has(jar, segments);
    lemma_gathered_known(gathered(jar, segments), segments);
}

/// What is left without a prefix: the entries that do not begin with it, and no other.
proof fn lemma_without(jar: Seq<Seq<char>>, prefix: Seq<char>)
    ensures
        forall|i: int|
            0 <= i < without(jar, prefix).len() ==> jar.contains(#[trigger] without(jar, prefix)[i])
                && !text::starts_with(without(jar, prefix)[i], prefix),
        forall|i: int|
            0 <= i < jar.len() && !text::starts_with(#[trigger] jar[i], prefix) ==> without(
                jar,
                prefix,
            ).contains(jar[i]),
    decreases jar.len(),
{
    if jar.len() > 0 {
        let shorter = jar.drop_last();
        let before = without(shorter, prefix);
        let now = without(jar, prefix);
        lemma_without(shorter, prefix);
        assert forall|i: int| 0 <= i < now.len() implies jar.contains(#[trigger] now[i])
            && !text::starts_with(now[i], prefix) by {
            if i < before.len() {
                assert(before[i] == now[i]);
                let k = choose|k: int| 0 <= k < shorter.len() && shorter[k] == now[i];
                assert(jar[k] == now[i]);
            } else {
                assert(now[i] == jar.last());
            }
        }
        assert forall|i: int|
            0 <= i < jar.len() && !text::starts_with(#[trigger] jar[i], prefix) implies now.contains(
            jar[i],
        ) by {
            if i < shorter.len() {
                assert(shorter[i] == jar[i]);
                let k = choose|k: int| 0 <= k < before.len() && before[k] == jar[i];
                assert(now[k] == jar[i]);
            } else {
                assert(now.last() == jar[i]);
            }
        }
    }
}

/// A `Set-Cookie` header with a value puts its pair at the end of the jar, and no
/// other cookie of its name is left. One with an empty value changes nothing.
pub proof fn law_set_cookie_replaces(jar: Seq<Seq<char>>, header: Seq<char>)
    ensures
        ({
            let pair = set_cookie_pair(header);
            let pieces = text::split(pair, '=');
            let now = after_set_cookie(jar, header);
            if second(pieces) is Some && second(pieces)->0.len() > 0 {
                &&& now.len() > 0
                &&& now.last() == pair
                &&& text::starts_with(pair, pieces[0] + "="@)
                &&& forall|i: int|
                    0 <= i < now.len() - 1 ==> jar.contains(#[trigger] now[i]) && !text::starts_with(
                        now[i],
                        pieces[0] + "="@,
                    )
            } else {
                now == jar
            }
        }),
{
    let pair = set_cookie_pair(header);
    let name = text::split(pair, '=')[0];
    reveal_strlit("=");
    assert("="@ =~= seq!['=']);
    text::lemma_first_piece(pair, '=');
    lemma_without(jar, name + "="@);
}

/// Two names without an equals sign that one entry begins with are the same.
proof fn lemma_same_name(entry: Seq<char>, a: Seq<char>, b: Seq<char>)
    requires
        !a.contains('='),
        !b.contains('='),
        text::starts_with(entry, a + seq!['=']),
        text::starts_with(entry, b + seq!['=']),
    ensures
        a == b,
{
    let x = a + seq!['='];
    let y = b + seq!['='];
    assert(entry.take(x.len() as int) == x);
    assert(entry.take(y.len() as int) == y);
    assert forall|j: int| 0 <= j < x.len() implies entry[j] == x[j] by {
        assert(entry.take(x.len() as int)[j] == x[j]);
    }
    assert forall|j: int| 0 <= j < y.len() implies entry[j] == y[j] by {
        assert(entry.take(y.len() as int)[j] == y[j]);
    }
    if a.len() < b.len() {
        assert(x[a.len() as int] == '=');
        assert(y[a.len() as int] == b[a.len() as int]);
        assert(b.contains('='));
    } else if b.len() < a.len() {
        assert(y[b.len() as int] == '=');
        assert(x[b.len() as int] == a[b.len() as int]);
        assert(a.contains('='));
    } else {
        assert forall|j: int| 0 <= j < a.len() implies a[j] == b[j] by {
            assert(x[j] == a[j]);
            assert(y[j] == b[j]);
        }
        assert(a =~= b);
    }
}

/// Replacing the cookies of one name by one of that name loses no name.
pub proof fn law_replacing_keeps_names(
    jar: Seq<Seq<char>>,
    name: Seq<char>,
    pair: Seq<char>,
    other: Seq<char>,
)
    requires
        !name.contains('='),
        text::starts_with(pair, name + "="@),
        !other.contains('='),
        holds(jar, other + "="@),
    ensures
        holds(replaced(jar, name, pair), other + "="@),
{
    reveal_strlit("=");
    assert("="@ =~= seq!['=']);
    let prefix = name + "="@;
    let kept = without(jar, prefix);
    let now = replaced(jar, name, pair);
    let i = choose|i: int| 0 <= i < jar.len() && text::starts_with(#[trigger] jar[i], other + "="@);
    lemma_without(jar, prefix);
    if text::starts_with(jar[i], prefix) {
        lemma_same_name(jar[i], name, other);
        assert(now[kept.len() as int] == pair);
    } else {
        let k = choose|k: int| 0 <= k < kept.len() && kept[k] == jar[i];
        assert(now[k] == jar[i]);
    }
}

/// The `Set-Cookie` headers of a response lose no cookie that was collected.
pub proof fn law_set_cookies_keep_names(
    jar: Seq<Seq<char>>,
    headers: Seq<Seq<char>>,
    name: Seq<char>,
)
    requires
        !name.contains('='),
        holds(jar, name + "="@),
    ensures
        holds(after_set_cookies(jar, headers), name + "="@),
    decreases headers.len(),
{
    if headers.len() > 0 {
        let before = after_set_cookies(jar, headers.drop_last());
        law_set_cookies_keep_names(jar, headers.drop_last(), name);
        let pair = set_cookie_pair(headers.last());
        let pieces = text::split(pair, '=');
        if second(pieces) is Some && second(pieces)->0.len() > 0 {
            reveal_strlit("=");
            assert("="@ =~= seq!['=']);
            text::lemma_first_piece(pair, '=');
            text::lemma_piece_without_separator(pair, '=', 0);
            law_replacing_keeps_names(before, pieces[0], pair, name);
        }
    }
}

/// Replacing the cookies of one name leaves those of another as they are.
pub proof fn law_replacing_keeps_others(
    jar: Seq<Seq<char>>,
    name: Seq<char>,
    pair: Seq<char>,
    other: Seq<char>,
    entry: Seq<char>,
)
    requires
        !name.contains('='),
        !other.contains('='),
        name != other,
        jar.contains(entry),
        text::starts_with(entry, other + "="@),
    ensures
        replaced(jar, name, pair).contains(entry),
{
    reveal_strlit("=");
    assert("="@ =~= seq!['=']);
    let kept = without(jar, name + "="@);
    lemma_without(jar, name + "="@);
    if text::starts_with(entry, name + "="@) {
        lemma_same_name(entry, name, other);
    }
    let i = choose|i: int| 0 <= i < jar.len() && jar[i] == entry;
    assert(kept.contains(jar[i]));
    let k = choose|k: int| 0 <= k < kept.len() && kept[k] == entry;
    assert(kept.push(pair)[k] == entry);
}

/// The pair that a `Set-Cookie` header sets begins with its name, which has no
/// equals sign.
pub proof fn lemma_set_pair(header: Seq<char>)
    ensures
        set_pair(header) matches Some((name, pair)) ==> !name.contains('=') && text::starts_with(
            pair,
            name + "="@,
        ),
{
    let pair = set_cookie_pair(header);
    if set_pair(header) is Some {
        reveal_strlit("=");
        assert("="@ =~= seq!['=']);
        text::lemma_first_piece(pair, '=');
        text::lemma_piece_without_separator(pair, '=', 0);
    }
}

/// A pair that is in the jar after the first `k` of the `Set-Cookie` headers of a
/// response is in it after all of them, where none of the others sets a cookie of
/// its name.
pub proof fn law_set_cookies_keep_values(
    jar: Seq<Seq<char>>,
    headers: Seq<Seq<char>>,
    k: int,
    name: Seq<char>,
    entry: Seq<char>,
)
    requires
        0 <= k <= headers.len(),
        !name.contains('='),
        text::starts_with(entry, name + "="@),
        after_set_cookies(jar, headers.take(k)).contains(entry),
        forall|j: int| k <= j < headers.len() ==> !is_named(set_pair(#[trigger] headers[j]), name),
    ensures
        after_set_cookies(jar, headers).contains(entry),
    decreases headers.len(),
{
    if k < headers.len() {
        let shorter = headers.drop_last();
        assert(shorter.take(k) =~= headers.take(k));
        assert forall|j: int| k <= j < shorter.len() implies !is_named(
            set_pair(#[trigger] shorter[j]),
            name,
        ) by {
            assert(shorter[j] == headers[j]);
        }
        law_set_cookies_keep_values(jar, shorter, k, name, entry);
        assert(headers.last() == headers[headers.len() - 1]);
        lemma_set_pair(headers.last());
        if let Some((n, pair)) = set_pair(headers.last()) {
            law_replacing_keeps_others(after_set_cookies(jar, shorter), n, pair, name, entry);
        }
    } else {
        assert(headers.take(k) =~= headers);
    }
}

/// The account number of a cookie is not empty and has no leading zero.
pub proof fn law_account_number_is_clean(cookie: Seq<char>)
    ensures
        cookie_uin(cookie) matches Some(uin) ==> uin.len() > 0 && uin[0] != '0',
{
    let segments = text::split(cookie, ';');
    lemma_uin_clean(segments, "uin"@);
    lemma_uin_clean(segments, "pt2gguin"@);
    lemma_uin_clean(segments, "superuin"@);
}

proof fn lemma_uin_clean(segments: Seq<Seq<char>>, name: Seq<char>)
    ensures
        uin_among(segments, name) matches Some(uin) ==> uin.len() > 0 && uin[0] != '0',
    decreases segments.len(),
{
    if segments.len() > 0 {
        let part = text::trim(segments[0]);
        if let Some(v) = second(text::split(part, '=')) {
            lemma_strip_start(text::strip_start(text::trim(v), 'o'), '0');
        }
        lemma_uin_clean(segments.skip(1), name);
    }
}

proof fn lemma_strip_start(s: Seq<char>, c: char)
    ensures
        text::strip_start(s, c).len() > 0 ==> text::strip_start(s, c)[0] != c,
    decreases s.len(),
{
    if s.len() > 0 && s[0] == c {
        lemma_strip_start(s.skip(1), c);
    }
}

// ---------------------------------------------------------------------------
// What holds of values and account numbers
// ---------------------------------------------------------------------------
/// A segment begins with the name and an equals sign, whatever its case.
proof fn lemma_segment_begins(written: Seq<char>, v: Seq<char>)
    requires
        forall|i: int| 0 <= i < written.len() ==> text::is_simple(#[trigger] written[i]),
    ensures
        text::starts_with(
            text::lower(written + "="@ + v),
            text::ascii_lowered(written) + "="@,
        ),
        text::lower(written + "="@) == text::ascii_lowered(written) + "="@,
{
    reveal_strlit("=");
    let front = written + "="@;
    assert forall|i: int| 0 <= i < front.len() implies text::is_simple(#[trigger] front[i]) by {
        if i < written.len() {
            assert(front[i] == written[i]);
        }
    }
    text::lemma_lower_prefix(front, v);
    text::lemma_simple_run_full(front);
    assert(text::ascii_lowered(front) =~= text::ascii_lowered(written) + "="@);
}

/// A name of a cookie in lower case, without an equals sign.
pub open spec fn is_plain_name(name: Seq<char>) -> bool {
    name.len() > 0 && !text::is_space(name[0]) && !name.contains('=') && forall|i: int|
        0 <= i < name.len() ==> text::is_simple(#[trigger] name[i]) && !('A' <= name[i] <= 'Z')
}

/// `written` is the name, in any case.
pub open spec fn is_name_written(written: Seq<char>, name: Seq<char>) -> bool {
    text::ascii_lowered(written) == name && forall|i: int|
        0 <= i < written.len() ==> text::is_simple(#[trigger] written[i])
}

proof fn lemma_written(written: Seq<char>, name: Seq<char>)
    requires
        is_plain_name(name),
        is_name_written(written, name),
    ensures
        written.len() == name.len(),
        !text::is_space(written[0]),
        !written.contains('='),
        text::lower(name + "="@) == name + "="@,
        is_name_written(name, name),
{
    assert forall|i: int| 0 <= i < written.len() implies written[i] != '=' by {
        assert(text::ascii_lowered(written)[i] == text::ascii_lower(written[i]));
        assert(name.contains(name[i]));
    }
    assert(text::ascii_lowered(written)[0] == text::ascii_lower(written[0]));
    assert(text::ascii_lowered(name) =~= name) by {
        assert forall|i: int| 0 <= i < name.len() implies text::ascii_lower(#[trigger] name[i])
            == name[i] by {
        }
    }
    lemma_segment_begins(name, seq![]);
}

/// Nothing is at the ends of a text but what trimming leaves.
proof fn lemma_pair_is_trimmed(name: Seq<char>, v: Seq<char>)
    requires
        name.len() > 0,
        !text::is_space(name[0]),
        !name.contains('='),
        v.len() > 0,
        !text::is_space(v.last()),
    ensures
        text::trim(name + "="@ + v) == name + "="@ + v,
        text::split(name + "="@ + v, '=') == seq![name] + text::split(v, '='),
{
    reveal_strlit("=");
    assert("="@ =~= seq!['=']);
    let s = name + "="@ + v;
    assert(s[0] == name[0]);
    assert(s.last() == v.last());
    text::lemma_trim_start(s);
    text::lemma_trim_end(s);
    text::lemma_split_concat(name, '=', v);
    text::lemma_split_whole(name, '=');
}

/// A segment of a name, in any case, and a value gives that value. What follows a second
/// equals sign does not count.
pub proof fn law_segment_gives_its_value(
    written: Seq<char>,
    name: Seq<char>,
    v: Seq<char>,
    more: Seq<char>,
)
    requires
        is_plain_name(name),
        is_name_written(written, name),
        v.len() > 0,
        !v.contains('='),
        text::trim(v) == v,
    ensures
        segment_value(written + "="@ + v, name) == Some(v),
        more.len() > 0 && !text::is_space(more.last()) ==> segment_value(
            written + "="@ + (v + seq!['='] + more),
            name,
        ) == Some(v),
{
    lemma_written(written, name);
    lemma_segment_begins(written, v);
    text::lemma_trim(v);
    lemma_pair_is_trimmed(written, v);
    text::lemma_split_whole(v, '=');
    if more.len() > 0 && !text::is_space(more.last()) {
        let long = v + seq!['='] + more;
        assert(long.last() == more.last());
        lemma_segment_begins(written, long);
        lemma_pair_is_trimmed(written, long);
        text::lemma_split_concat(v, '=', more);
    }
}

/// A value of a cookie is that of the first segment that gives one: the segments
/// before it give none.
pub proof fn law_value_is_first(cookie: Seq<char>, name: Seq<char>, i: int)
    ensures
        ({
            let segments = text::split(cookie, ';');
            &&& 0 <= i < segments.len() && segment_value(segments[i], name) is Some && (forall|
                j: int,
            |
                0 <= j < i ==> segment_value(#[trigger] segments[j], name) is None)
                ==> cookie_value(cookie, name) == segment_value(segments[i], name)
            &&& (forall|j: int|
                0 <= j < segments.len() ==> segment_value(#[trigger] segments[j], name) is None)
                ==> cookie_value(cookie, name) is None
            &&& 0 <= i < segments.len() && !text::starts_with(
                text::lower(text::trim(segments[i])),
                text::lower(name + "="@),
            ) ==> segment_value(segments[i], name) is None
        }),
{
    lemma_value_among_first(text::split(cookie, ';'), name, i);
}

proof fn lemma_value_among_first(segments: Seq<Seq<char>>, name: Seq<char>, i: int)
    ensures
        0 <= i < segments.len() && segment_value(segments[i], name) is Some && (forall|j: int|
            0 <= j < i ==> segment_value(#[trigger] segments[j], name) is None) ==> value_among(
            segments,
            name,
        ) == segment_value(segments[i], name),
        (forall|j: int|
            0 <= j < segments.len() ==> segment_value(#[trigger] segments[j], name) is None)
            ==> value_among(segments, name) is None,
    decreases segments.len(),
{
    if segments.len() > 0 {
        let rest = segments.skip(1);
        lemma_value_among_first(rest, name, i - 1);
        if 0 < i < segments.len() && segment_value(segments[i], name) is Some && (forall|j: int|
            0 <= j < i ==> segment_value(#[trigger] segments[j], name) is None) {
            assert(segment_value(segments[0], name) is None);
            assert(rest[i - 1] == segments[i]);
            assert forall|j: int| 0 <= j < i - 1 implies segment_value(
                #[trigger] rest[j],
                name,
            ) is None by {
                assert(rest[j] == segments[j + 1]);
            }
        }
        if forall|j: int|
            0 <= j < segments.len() ==> segment_value(#[trigger] segments[j], name) is None {
            assert(segment_value(segments[0], name) is None);
            assert forall|j: int| 0 <= j < rest.len() implies segment_value(
                #[trigger] rest[j],
                name,
            ) is None by {
                assert(rest[j] == segments[j + 1]);
            }
        }
    }
}

/// The account number of a segment is its value without the letters `o` and then the
/// zeros in front: a segment made of the name, in any case, such letters, zeros and a
/// number gives that number.
pub proof fn law_segment_gives_its_number(
    written: Seq<char>,
    name: Seq<char>,
    letters: Seq<char>,
    zeros: Seq<char>,
    number: Seq<char>,
)
    requires
        is_plain_name(name),
        is_name_written(written, name),
        forall|i: int| 0 <= i < letters.len() ==> #[trigger] letters[i] == 'o',
        forall|i: int| 0 <= i < zeros.len() ==> #[trigger] zeros[i] == '0',
        number.len() > 0,
        text::all_digits(number),
        number[0] != '0',
    ensures
        segment_uin(written + "="@ + (letters + zeros + number), name) == Some(number),
{
    let v = letters + zeros + number;
    assert forall|i: int| 0 <= i < v.len() implies #[trigger] v[i] == 'o' || text::is_digit(v[i]) by {
        if i < letters.len() {
            assert(v[i] == letters[i]);
        } else if i < letters.len() + zeros.len() {
            assert(v[i] == zeros[i - letters.len()]);
        } else {
            assert(v[i] == number[i - letters.len() - zeros.len()]);
        }
    }
    assert(!v.contains('='));
    text::lemma_trim_start(v);
    text::lemma_trim_end(v);
    assert(!text::is_space(v[0]) && !text::is_space(v.last()));
    assert(text::trim(v) == v);
    lemma_written(written, name);
    lemma_segment_begins(written, v);
    lemma_pair_is_trimmed(written, v);
    text::lemma_split_whole(v, '=');
    let rest = zeros + number;
    assert(v =~= letters + rest);
    assert(rest[0] == '0' || rest[0] == number[0]) by {
        if zeros.len() > 0 {
            assert(rest[0] == zeros[0]);
        }
    }
    assert(text::is_digit(number[0]));
    lemma_strip_run(letters, rest, 'o');
    lemma_strip_run(zeros, number, '0');
}

/// Stripping a run of a character leaves what follows it.
proof fn lemma_strip_run(run: Seq<char>, rest: Seq<char>, c: char)
    requires
        forall|i: int| 0 <= i < run.len() ==> #[trigger] run[i] == c,
        rest.len() > 0,
        rest[0] != c,
    ensures
        text::strip_start(run + rest, c) == rest,
    decreases run.len(),
{
    if run.len() == 0 {
        assert(run + rest =~= rest);
    } else {
        let s = run + rest;
        assert(s[0] == run[0]);
        assert(s.skip(1) =~= run.skip(1) + rest);
        lemma_strip_run(run.skip(1), rest, c);
    }
}

/// The account number of a cookie is that of the first segment that gives one under
/// `uin`; where none does, under `pt2gguin`; and where none does, under `superuin`.
pub proof fn law_account_number_is_first(cookie: Seq<char>, i: int, n: Seq<char>)
    ensures
        ({
            let s = text::split(cookie, ';');
            let none = |name: Seq<char>| forall|j: int|
                0 <= j < s.len() ==> segment_uin(#[trigger] s[j], name) is None;
            let first = |name: Seq<char>|
                0 <= i < s.len() && segment_uin(s[i], name) == Some(n) && forall|j: int|
                    0 <= j < i ==> segment_uin(#[trigger] s[j], name) is None;
            &&& first("uin"@) ==> cookie_uin(cookie) == Some(n)
            &&& none("uin"@) && first("pt2gguin"@) ==> cookie_uin(cookie) == Some(n)
            &&& none("uin"@) && none("pt2gguin"@) && first("superuin"@) ==> cookie_uin(cookie)
                == Some(n)
            &&& none("uin"@) && none("pt2gguin"@) && none("superuin"@) ==> cookie_uin(cookie) is None
        }),
{
    let s = text::split(cookie, ';');
    lemma_uin_among_first(s, "uin"@, i);
    lemma_uin_among_first(s, "pt2gguin"@, i);
    lemma_uin_among_first(s, "superuin"@, i);
}

proof fn lemma_uin_among_first(segments: Seq<Seq<char>>, name: Seq<char>, i: int)
    ensures
        0 <= i < segments.len() && segment_uin(segments[i], name) is Some && (forall|j: int|
            0 <= j < i ==> segment_uin(#[trigger] segments[j], name) is None) ==> uin_among(
            segments,
            name,
        ) == segment_uin(segments[i], name),
        (forall|j: int|
            0 <= j < segments.len() ==> segment_uin(#[trigger] segments[j], name) is None)
            ==> uin_among(segments, name) is None,
    decreases segments.len(),
{
    if segments.len() > 0 {
        let rest = segments.skip(1);
        lemma_uin_among_first(rest, name, i - 1);
        if 0 < i < segments.len() && segment_uin(segments[i], name) is Some && (forall|j: int|
            0 <= j < i ==> segment_uin(#[trigger] segments[j], name) is None) {
            assert(segment_uin(segments[0], name) is None);
            assert(rest[i - 1] == segments[i]);
            assert forall|j: int| 0 <= j < i - 1 implies segment_uin(
                #[trigger] rest[j],
                name,
            ) is None by {
                assert(rest[j] == segments[j + 1]);
            }
        }
        if forall|j: int|
            0 <= j < segments.len() ==> segment_uin(#[trigger] segments[j], name) is None {
            assert(segment_uin(segments[0], name) is None);
            assert forall|j: int| 0 <= j < rest.len() implies segment_uin(
                #[trigger] rest[j],
                name,
            ) is None by {
                assert(rest[j] == segments[j + 1]);
            }
        }
    }
}

// ---------------------------------------------------------------------------
// What holds of collecting
// ---------------------------------------------------------------------------
/// A header adds its pairs to the jar, those that are not empty and not in it yet:
/// every pair of the jar and of the header is in the new jar, nothing else is, and the
/// jar is its beginning.
pub proof fn law_gathering_takes_every_pair(
    jar: Seq<Seq<char>>,
    cookie: Seq<char>,
    pair: Seq<char>,
)
    ensures
        ({
            let now = gathered_cookie(jar, cookie);
            let s = text::split(cookie, ';');
            &&& now.contains(pair) <==> jar.contains(pair) || (pair.len() > 0 && exists|i: int|
                0 <= i < s.len() && text::trim(#[trigger] s[i]) == pair)
            &&& jar.is_prefix_of(now)
        }),
{
    lemma_gathered_exact(jar, text::split(cookie, ';'), pair);
}

proof fn lemma_gathered_exact(jar: Seq<Seq<char>>, s: Seq<Seq<char>>, pair: Seq<char>)
    ensures
        gathered(jar, s).contains(pair) <==> jar.contains(pair) || (pair.len() > 0 && exists|i: int|
            0 <= i < s.len() && text::trim(#[trigger] s[i]) == pair),
        jar.is_prefix_of(gathered(jar, s)),
    decreases s.len(),
{
    lemma_gathered_has(jar, s);
    let now = gathered(jar, s);
    assert(now.subrange(0, jar.len() as int) =~= now.take(jar.len() as int));
    if jar.contains(pair) {
        let k = choose|k: int| 0 <= k < jar.len() && jar[k] == pair;
        assert(now.take(jar.len() as int)[k] == now[k]);
        assert(now[k] == pair);
    }
    if s.len() > 0 {
        let shorter = s.drop_last();
        let before = gathered(jar, shorter);
        lemma_gathered_exact(jar, shorter, pair);
        if now.contains(pair) && !jar.contains(pair) {
            if before.contains(pair) {
                let i = choose|i: int| 0 <= i < shorter.len() && text::trim(#[trigger] shorter[i])
                    == pair;
                assert(text::trim(s[i]) == pair);
            } else {
                let k = choose|k: int| 0 <= k < now.len() && now[k] == pair;
                assert(k >= before.len() || before[k] == now[k]);
                assert(text::trim(s[s.len() - 1]) == pair);
            }
        }
    }
}

/// The pair of a `Set-Cookie` header is what stands before its first semicolon, without
/// white space at its ends. The cookie of several headers is made of their pairs, in
/// order and without empty ones.
pub proof fn law_pairs_are_of_their_headers(
    p: Seq<char>,
    rest: Seq<char>,
    headers: Seq<Seq<char>>,
    header: Seq<char>,
)
    requires
        !p.contains(';'),
    ensures
        set_cookie_pair(p + seq![';'] + rest) == text::trim(p),
        set_cookie_pair(p) == text::trim(p),
        set_cookie_pairs(seq![]).len() == 0,
        set_cookie_pairs(headers.push(header)) == (if set_cookie_pair(header).len() == 0 {
            set_cookie_pairs(headers)
        } else {
            set_cookie_pairs(headers).push(set_cookie_pair(header))
        }),
{
    text::lemma_split_concat(p, ';', rest);
    text::lemma_split_whole(p, ';');
    assert(headers.push(header).drop_last() =~= headers);
}

/// A header of a name and a value sets that pair; one without a value sets none.
pub proof fn law_header_sets_its_pair(name: Seq<char>, value: Seq<char>, rest: Seq<char>)
    requires
        is_plain_name(name),
        !name.contains(';'),
        !value.contains(';'),
        !value.contains('='),
        value.len() > 0,
        text::trim(value) == value,
    ensures
        set_pair(name + "="@ + value + seq![';'] + rest) == Some((name, name + "="@ + value)),
        set_pair(name + "="@ + value) == Some((name, name + "="@ + value)),
        !text::contains(value, "1970"@) ==> live_pair(name + "="@ + value + seq![';'] + rest)
            == Some((name, value)),
        !text::contains(value, "1970"@) ==> live_pair(name + "="@ + value) == Some((name, value)),
        text::contains(value, "1970"@) ==> live_pair(name + "="@ + value) is None,
{
    reveal_strlit("=");
    let pair = name + "="@ + value;
    let long = pair + seq![';'] + rest;
    assert(!pair.contains(';')) by {
        if pair.contains(';') {
            let i = choose|i: int| 0 <= i < pair.len() && pair[i] == ';';
            if i < name.len() {
                assert(name[i] == ';');
            } else if i > name.len() {
                assert(value[i - name.len() - 1] == ';');
            }
        }
    }
    law_pairs_are_of_their_headers(pair, rest, seq![], pair);
    text::lemma_trim(value);
    lemma_pair_is_trimmed(name, value);
    text::lemma_split_whole(value, '=');
    assert(seq![name] + seq![value] =~= seq![name, value]);
    assert forall|j: int| 0 <= j < name.len() implies #[trigger] pair[j] != '=' && long[j] != '=' by {
        assert(pair[j] == name[j] && long[j] == name[j]);
        assert(name.contains(name[j]));
    }
    assert(pair[name.len() as int] == '=' && long[name.len() as int] == '=');
    text::lemma_find_any_is(pair, '=', name.len() as int);
    assert forall|j: int| 0 <= j < name.len() implies #[trigger] long[j] != '=' by {
        assert(pair[j] != '=');
    }
    text::lemma_find_any_is(long, '=', name.len() as int);
    assert forall|j: int| 0 <= j < pair.len() implies #[trigger] pair[j] != ';' by {
        assert(pair.contains(pair[j]));
    }
    text::lemma_find_any_is(pair, ';', pair.len() as int);
    assert forall|j: int| 0 <= j < pair.len() implies #[trigger] long[j] != ';' by {
        assert(long[j] == pair[j]);
    }
    assert(long[pair.len() as int] == ';');
    text::lemma_find_any_is(long, ';', pair.len() as int);
    assert(pair.subrange(name.len() as int + 1, pair.len() as int) =~= value);
    assert(long.subrange(name.len() as int + 1, pair.len() as int) =~= value);
    assert(pair.take(name.len() as int) =~= name);
    assert(long.take(name.len() as int) =~= name);
}

} // verus!
