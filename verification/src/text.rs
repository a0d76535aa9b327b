//! Text as sequences of characters: the notions the rest of the library is
//! stated in, and the executable operations that compute them.
use vstd::prelude::*;
use vstd::slice::slice_subrange;
use vstd::utf8::*;

verus! {

// ---------------------------------------------------------------------------
// What the operations mean
// ---------------------------------------------------------------------------
/// The characters with the Unicode property White_Space.
pub open spec fn is_space(c: char) -> bool {
    ||| '\u{9}' <= c <= '\u{d}'
    ||| c == ' '
    ||| c == '\u{85}'
    ||| c == '\u{a0}'
    ||| c == '\u{1680}'
    ||| '\u{2000}' <= c <= '\u{200a}'
    ||| c == '\u{2028}'
    ||| c == '\u{2029}'
    ||| c == '\u{202f}'
    ||| c == '\u{205f}'
    ||| c == '\u{3000}'
}

/// `s` without its leading white space.
pub open spec fn trim_start(s: Seq<char>) -> Seq<char>
    decreases s.len(),
{
    if s.len() > 0 && is_space(s[0]) {
        trim_start(s.skip(1))
    } else {
        s
    }
}

/// `s` without its trailing white space.
pub open spec fn trim_end(s: Seq<char>) -> Seq<char>
    decreases s.len(),
{
    if s.len() > 0 && is_space(s.last()) {
        trim_end(s.drop_last())
    } else {
        s
    }
}

/// `s` without white space at either end.
pub open spec fn trim(s: Seq<char>) -> Seq<char> {
    trim_end(trim_start(s))
}

/// `s` without the leading occurrences of `c`.
pub open spec fn strip_start(s: Seq<char>, c: char) -> Seq<char>
    decreases s.len(),
{
    if s.len() > 0 && s[0] == c {
        strip_start(s.skip(1), c)
    } else {
        s
    }
}

/// `s` without the trailing occurrences of `c`.
pub open spec fn strip_end(s: Seq<char>, c: char) -> Seq<char>
    decreases s.len(),
{
    if s.len() > 0 && s.last() == c {
        strip_end(s.drop_last(), c)
    } else {
        s
    }
}

/// `s` begins with `p`.
pub open spec fn starts_with(s: Seq<char>, p: Seq<char>) -> bool {
    p.len() <= s.len() && s.take(p.len() as int) == p
}

/// `s` ends with `p`.
pub open spec fn ends_with(s: Seq<char>, p: Seq<char>) -> bool {
    p.len() <= s.len() && s.skip(s.len() - p.len()) == p
}

/// Where `p` first occurs in `s`.
pub open spec fn find(s: Seq<char>, p: Seq<char>) -> Option<nat>
    decreases s.len(),
{
    if starts_with(s, p) {
        Some(0)
    } else if s.len() == 0 {
        None
    } else {
        match find(s.skip(1), p) {
            Some(i) => Some(i + 1),
            None => None,
        }
    }
}

/// `p` occurs in `s`.
pub open spec fn contains(s: Seq<char>, p: Seq<char>) -> bool {
    find(s, p) is Some
}

/// Where a character of `set` first occurs in `s`; the length of `s` where none does.
pub open spec fn find_any(s: Seq<char>, set: Seq<char>) -> nat
    decreases s.len(),
{
    if s.len() == 0 || set.contains(s[0]) {
        0
    } else {
        find_any(s.skip(1), set) + 1
    }
}

/// The pieces of `s` between the occurrences of `sep`.
pub open spec fn split(s: Seq<char>, sep: char) -> Seq<Seq<char>>
    decreases s.len(),
{
    let i = find_any(s, seq![sep]);
    if i >= s.len() {
        seq![s]
    } else {
        seq![s.take(i as int)] + split(s.skip(i as int + 1), sep)
    }
}

/// `s` with every occurrence of `p`, taken from the left and not overlapping,
/// replaced by `by`. An empty `p` leaves `s` as it is.
pub open spec fn replace(s: Seq<char>, p: Seq<char>, by: Seq<char>) -> Seq<char>
    decreases s.len(),
{
    if p.len() == 0 {
        s
    } else {
        match find(s, p) {
            None => s,
            Some(i) => if i + p.len() <= s.len() {
                s.take(i as int) + by + replace(s.skip((i + p.len()) as int), p, by)
            } else {
                s
            },
        }
    }
}

/// The parts in order, with `sep` between neighbours.
pub open spec fn join(parts: Seq<Seq<char>>, sep: Seq<char>) -> Seq<char>
    decreases parts.len(),
{
    if parts.len() == 0 {
        seq![]
    } else if parts.len() == 1 {
        parts[0]
    } else {
        join(parts.drop_last(), sep) + sep + parts.last()
    }
}

/// The decimal digit for `d`.
pub open spec fn digit(d: nat) -> char {
    if d == 0 {
        '0'
    } else if d == 1 {
        '1'
    } else if d == 2 {
        '2'
    } else if d == 3 {
        '3'
    } else if d == 4 {
        '4'
    } else if d == 5 {
        '5'
    } else if d == 6 {
        '6'
    } else if d == 7 {
        '7'
    } else if d == 8 {
        '8'
    } else {
        '9'
    }
}

/// `n` in decimal.
pub open spec fn decimal(n: nat) -> Seq<char>
    decreases n,
{
    if n < 10 {
        seq![digit(n)]
    } else {
        decimal(n / 10).push(digit(n % 10))
    }
}

/// `n` in decimal, with a minus sign where it is negative.
pub open spec fn decimal_signed(n: int) -> Seq<char> {
    if n < 0 {
        seq!['-'] + decimal((-n) as nat)
    } else {
        decimal(n as nat)
    }
}

/// The value of the decimal digits `s`.
pub open spec fn digits_value(s: Seq<char>) -> nat
    decreases s.len(),
{
    if s.len() == 0 {
        0
    } else {
        digits_value(s.drop_last()) * 10 + (s.last() as nat - '0' as nat) as nat
    }
}

/// A decimal digit.
pub open spec fn is_digit(c: char) -> bool {
    '0' <= c <= '9'
}

/// Every character of `s` is a decimal digit.
pub open spec fn all_digits(s: Seq<char>) -> bool {
    forall|i: int| 0 <= i < s.len() ==> is_digit(#[trigger] s[i])
}

/// `s` without the plus sign that it may begin with.
pub open spec fn unsigned_part(s: Seq<char>) -> Seq<char> {
    if s.len() > 0 && s[0] == '+' {
        s.skip(1)
    } else {
        s
    }
}

/// What `s` means as an unsigned number: an optional plus sign, then at least
/// one digit and nothing else, with a value that fits in 64 bits.
pub open spec fn parsed_u64(s: Seq<char>) -> Option<u64> {
    let digits = unsigned_part(s);
    if digits.len() > 0 && all_digits(digits) && digits_value(digits) <= u64::MAX {
        Some(digits_value(digits) as u64)
    } else {
        None
    }
}

/// The ASCII letter `c` in lower case; any other character itself.
pub open spec fn ascii_lower(c: char) -> char {
    if 'A' <= c <= 'Z' {
        (c as u32 + 32) as char
    } else {
        c
    }
}

/// `s` with its ASCII letters in lower case.
pub open spec fn ascii_lowered(s: Seq<char>) -> Seq<char> {
    s.map_values(|c: char| ascii_lower(c))
}

/// The views of the strings, in order.
pub open spec fn views(v: Seq<String>) -> Seq<Seq<char>> {
    Seq::new(v.len(), |i: int| v[i]@)
}

/// The view of a string that may be absent.
pub open spec fn opt_view(s: Option<String>) -> Option<Seq<char>> {
    match s {
        Some(t) => Some(t@),
        None => None,
    }
}

/// The longest prefix of `s` that takes at most `n` bytes in UTF-8.
pub open spec fn preview(s: Seq<char>, n: nat) -> Seq<char>
    decreases s.len(),
{
    if encode_utf8(s).len() <= n || s.len() == 0 {
        s
    } else {
        preview(s.drop_last(), n)
    }
}

// ---------------------------------------------------------------------------
// What std promises
// ---------------------------------------------------------------------------
/// A character of ASCII, or a Chinese character, which has no case.
pub open spec fn is_simple(c: char) -> bool {
    (c as nat) < 128 || '\u{4e00}' <= c <= '\u{9fff}'
}

/// What `str::to_lowercase` makes of the part of a text that begins at its
/// first character that is not simple.
pub uninterp spec fn lowercase_tail(s: Seq<char>) -> Seq<char>;

/// How many simple characters `s` begins with.
pub open spec fn simple_run(s: Seq<char>) -> nat
    decreases s.len(),
{
    if s.len() > 0 && is_simple(s[0]) {
        simple_run(s.skip(1)) + 1
    } else {
        0
    }
}

/// The simple characters that `s` begins with, mapped one by one to lower case,
/// and `tail` behind them where `s` goes on.
pub open spec fn lowered(s: Seq<char>, tail: Seq<char>) -> Seq<char> {
    let n = simple_run(s);
    let head = ascii_lowered(s.take(n as int));
    if n == s.len() {
        head
    } else {
        head + tail
    }
}

/// `s` in lower case.
pub open spec fn lower(s: Seq<char>) -> Seq<char> {
    lowered(s, lowercase_tail(s))
}

/// `String::push` appends one character to the end of the string.
pub assume_specification[ String::push ](s: &mut String, c: char)
    ensures
        final(s)@ == old(s)@.push(c),
;

/// `str::to_lowercase`: a function of the text alone. It maps character by
/// character, an ASCII letter to its lower case, and any other ASCII character and
/// a Chinese character, which has no case, to itself; of what it makes of a text
/// from its first other character on, nothing is said but that the text determines
/// it.
#[verifier::external_body]
pub(crate) fn to_lowercase(s: &str) -> (r: String)
    ensures
        r@ == lowered(s@, lowercase_tail(s@)),
{
    s.to_lowercase()
}

/// `String::from_utf8`: the text that the bytes encode, where they are valid
/// UTF-8, and an error elsewhere.
#[verifier::external_body]
pub(crate) fn text_from_utf8(bytes: Vec<u8>) -> (r: Option<String>)
    ensures
        r is Some <==> valid_utf8(bytes@),
        r matches Some(t) ==> t@ == decode_utf8(bytes@),
{
    String::from_utf8(bytes).ok()
}

// ---------------------------------------------------------------------------
// The operations
// ---------------------------------------------------------------------------
/// The characters of a string.
pub fn chars_of(s: &str) -> (r: Vec<char>)
    ensures
        r@ == s@,
{
    let mut out: Vec<char> = Vec::new();
    for c in it: s.chars()
        invariant
            out@ == s@.take(it.index()),
            it.seq() == s@,
    {
        proof {
            assert(s@.take(it.index() + 1) == s@.take(it.index()).push(c));
        }
        out.push(c);
    }
    proof {
        assert(s@.take(s@.len() as int) == s@);
    }
    out
}

/// The string made of the characters given.
pub fn text_of(chars: &[char]) -> (r: String)
    ensures
        r@ == chars@,
{
    let mut out: String = String::new();
    for i in 0..chars.len()
        invariant
            out@ == chars@.take(i as int),
    {
        proof {
            assert(chars@.take(i + 1) == chars@.take(i as int).push(chars@[i as int]));
        }
        out.push(chars[i]);
    }
    proof {
        assert(chars@.take(chars@.len() as int) == chars@);
    }
    out
}

/// Whether a character is white space.
pub fn is_space_char(c: char) -> (r: bool)
    ensures
        r == is_space(c),
{
    ('\u{9}' <= c && c <= '\u{d}') || c == ' ' || c == '\u{85}' || c == '\u{a0}' || c == '\u{1680}'
        || ('\u{2000}' <= c && c <= '\u{200a}') || c == '\u{2028}' || c == '\u{2029}' || c
        == '\u{202f}' || c == '\u{205f}' || c == '\u{3000}'
}

/// How many characters remain of `chars` once its trailing white space is gone.
fn trimmed_len(chars: &[char]) -> (n: usize)
    ensures
        n <= chars@.len(),
        trim_end(chars@) == chars@.take(n as int),
{
    let mut n: usize = chars.len();
    proof {
        assert(chars@.take(n as int) == chars@);
    }
    while n > 0 && is_space_char(chars[n - 1])
        invariant
            n <= chars@.len(),
            trim_end(chars@) == trim_end(chars@.take(n as int)),
        decreases n,
    {
        proof {
            assert(chars@.take(n as int).drop_last() == chars@.take(n - 1));
        }
        n = n - 1;
    }
    n
}

/// How many white space characters `chars` begins with.
fn space_run(chars: &[char]) -> (n: usize)
    ensures
        n <= chars@.len(),
        trim_start(chars@) == chars@.skip(n as int),
{
    let mut n: usize = 0;
    proof {
        assert(chars@.skip(0) == chars@);
    }
    while n < chars.len() && is_space_char(chars[n])
        invariant
            n <= chars@.len(),
            trim_start(chars@) == trim_start(chars@.skip(n as int)),
        decreases chars@.len() - n,
    {
        proof {
            assert(chars@.skip(n as int).skip(1) == chars@.skip(n + 1));
        }
        n = n + 1;
    }
    n
}

/// The text without its leading white space.
pub fn trim_start_text(s: &str) -> (r: String)
    ensures
        r@ == trim_start(s@),
{
    let chars: Vec<char> = chars_of(s);
    let n: usize = space_run(chars.as_slice());
    text_of(slice_subrange(chars.as_slice(), n, chars.len()))
}

/// The text without white space at either end.
pub fn trim_text(s: &str) -> (r: String)
    ensures
        r@ == trim(s@),
{
    let chars: Vec<char> = chars_of(s);
    let n: usize = space_run(chars.as_slice());
    let rest: &[char] = slice_subrange(chars.as_slice(), n, chars.len());
    let m: usize = trimmed_len(rest);
    text_of(slice_subrange(rest, 0, m))
}

/// The text without the leading occurrences of `c`.
pub fn strip_start_text(s: &str, c: char) -> (r: String)
    ensures
        r@ == strip_start(s@, c),
{
    let chars: Vec<char> = chars_of(s);
    let mut n: usize = 0;
    proof {
        assert(chars@.skip(0) == chars@);
    }
    while n < chars.len() && chars[n] == c
        invariant
            n <= chars@.len(),
            strip_start(chars@, c) == strip_start(chars@.skip(n as int), c),
        decreases chars@.len() - n,
    {
        proof {
            assert(chars@.skip(n as int).skip(1) == chars@.skip(n + 1));
        }
        n = n + 1;
    }
    text_of(slice_subrange(chars.as_slice(), n, chars.len()))
}

/// The text without the trailing occurrences of `c`.
pub fn strip_end_text(s: &str, c: char) -> (r: String)
    ensures
        r@ == strip_end(s@, c),
{
    let chars: Vec<char> = chars_of(s);
    let mut n: usize = chars.len();
    proof {
        assert(chars@.take(n as int) == chars@);
    }
    while n > 0 && chars[n - 1] == c
        invariant
            n <= chars@.len(),
            strip_end(chars@, c) == strip_end(chars@.take(n as int), c),
        decreases n,
    {
        proof {
            assert(chars@.take(n as int).drop_last() == chars@.take(n - 1));
        }
        n = n - 1;
    }
    text_of(slice_subrange(chars.as_slice(), 0, n))
}

/// Whether `p` stands in `chars` at `at`.
fn matches_at(chars: &[char], at: usize, p: &[char]) -> (r: bool)
    requires
        at <= chars@.len(),
    ensures
        r == starts_with(chars@.skip(at as int), p@),
{
    if chars.len() - at < p.len() {
        return false;
    }
    let mut i: usize = 0;
    while i < p.len()
        invariant
            i <= p@.len(),
            at + p@.len() <= chars.len(),
            forall|j: int| 0 <= j < i ==> chars@[at + j] == p@[j],
        decreases p@.len() - i,
    {
        if chars[at + i] != p[i] {
            proof {
                assert(chars@.skip(at as int).take(p@.len() as int)[i as int] != p@[i as int]);
            }
            return false;
        }
        i = i + 1;
    }
    proof {
        assert(chars@.skip(at as int).take(p@.len() as int) =~= p@);
    }
    true
}

/// Where `p` first occurs in `chars`.
pub fn find_chars(chars: &[char], p: &[char]) -> (r: Option<usize>)
    ensures
        match r {
            Some(i) => find(chars@, p@) == Some(i as nat) && i + p@.len() <= chars@.len(),
            None => find(chars@, p@) is None,
        },
{
    let mut i: usize = 0;
    proof {
        assert(chars@.skip(0) == chars@);
    }
    loop
        invariant
            i <= chars@.len(),
            match find(chars@.skip(i as int), p@) {
                Some(j) => find(chars@, p@) == Some((i + j) as nat),
                None => find(chars@, p@) is None,
            },
        decreases chars@.len() - i,
    {
        if matches_at(chars, i, p) {
            return Some(i);
        }
        if i == chars.len() {
            return None;
        }
        proof {
            assert(chars@.skip(i as int).skip(1) == chars@.skip(i + 1));
        }
        i = i + 1;
    }
}

/// Whether `s` begins with `p`.
pub fn text_starts_with(s: &str, p: &str) -> (r: bool)
    ensures
        r == starts_with(s@, p@),
{
    let chars: Vec<char> = chars_of(s);
    let pat: Vec<char> = chars_of(p);
    proof {
        assert(chars@.skip(0) == chars@);
    }
    matches_at(chars.as_slice(), 0, pat.as_slice())
}

/// `s` with its ASCII letters in lower case.
pub fn text_ascii_lowered(s: &str) -> (r: String)
    ensures
        r@ == ascii_lowered(s@),
{
    let chars: Vec<char> = chars_of(s);
    let mut out: Vec<char> = Vec::new();
    for i in 0..chars.len()
        invariant
            chars@ == s@,
            out@ == ascii_lowered(s@.take(i as int)),
    {
        let c: char = chars[i];
        let low: char = if 'A' <= c && c <= 'Z' {
            (c as u8 + 32) as char
        } else {
            c
        };
        out.push(low);
        proof {
            assert(low == ascii_lower(c));
            assert(out@ =~= ascii_lowered(s@.take(i + 1)));
        }
    }
    proof {
        assert(s@.take(s@.len() as int) =~= s@);
    }
    text_of(out.as_slice())
}

/// Whether `s` ends with `p`.
pub fn text_ends_with(s: &str, p: &str) -> (r: bool)
    ensures
        r == ends_with(s@, p@),
{
    let chars: Vec<char> = chars_of(s);
    let pat: Vec<char> = chars_of(p);
    if chars.len() < pat.len() {
        return false;
    }
    let at: usize = chars.len() - pat.len();
    proof {
        assert(s@.skip(at as int).take(p@.len() as int) =~= s@.skip(at as int));
    }
    matches_at(chars.as_slice(), at, pat.as_slice())
}

/// Whether `p` occurs in `s`.
pub fn text_contains(s: &str, p: &str) -> (r: bool)
    ensures
        r == contains(s@, p@),
{
    let chars: Vec<char> = chars_of(s);
    let pat: Vec<char> = chars_of(p);
    find_chars(chars.as_slice(), pat.as_slice()).is_some()
}

/// Whether two texts are the same.
pub fn text_eq(a: &str, b: &str) -> (r: bool)
    ensures
        r == (a@ == b@),
{
    let x: Vec<char> = chars_of(a);
    let y: Vec<char> = chars_of(b);
    if x.len() != y.len() {
        return false;
    }
    proof {
        assert(x@.skip(0) == x@);
        assert(x@.take(y@.len() as int) == x@);
    }
    matches_at(x.as_slice(), 0, y.as_slice())
}

/// Whether a text is among those listed.
pub fn list_contains(list: &Vec<String>, s: &str) -> (r: bool)
    ensures
        r == views(list@).contains(s@),
{
    for i in 0..list.len()
        invariant
            forall|j: int| 0 <= j < i ==> views(list@)[j] != s@,
    {
        if text_eq(list[i].as_str(), s) {
            proof {
                assert(views(list@)[i as int] == s@);
            }
            return true;
        }
    }
    false
}

/// Where a character of `set` first occurs in `chars`, or the number of characters.
pub fn find_any_chars(chars: &[char], set: &[char]) -> (n: usize)
    ensures
        n == find_any(chars@, set@),
        n <= chars@.len(),
{
    let mut i: usize = 0;
    proof {
        assert(chars@.skip(0) == chars@);
    }
    while i < chars.len()
        invariant
            i <= chars@.len(),
            find_any(chars@, set@) == i + find_any(chars@.skip(i as int), set@),
        decreases chars@.len() - i,
    {
        let mut hit: bool = false;
        for j in 0..set.len()
            invariant
                i < chars@.len(),
                hit == exists|k: int| 0 <= k < j && set@[k] == chars@[i as int],
        {
            if set[j] == chars[i] {
                hit = true;
            }
        }
        if hit {
            return i;
        }
        proof {
            assert(!set@.contains(chars@.skip(i as int)[0]));
            assert(chars@.skip(i as int).skip(1) == chars@.skip(i + 1));
        }
        i = i + 1;
    }
    i
}

/// The pieces of a text between the occurrences of `sep`.
pub fn split_text(s: &str, sep: char) -> (r: Vec<String>)
    ensures
        views(r@) == split(s@, sep),
{
    let chars: Vec<char> = chars_of(s);
    let seps: Vec<char> = vec![sep];
    let mut out: Vec<String> = Vec::new();
    let mut at: usize = 0;
    proof {
        assert(chars@.skip(0) == chars@);
        assert(seps@ == seq![sep]);
    }
    loop
        invariant
            at <= chars@.len(),
            chars@ == s@,
            seps@ == seq![sep],
            split(chars@, sep) == views(out@) + split(chars@.skip(at as int), sep),
        decreases chars@.len() - at,
    {
        let rest: &[char] = slice_subrange(chars.as_slice(), at, chars.len());
        proof {
            assert(rest@ == chars@.skip(at as int));
        }
        let n: usize = find_any_chars(rest, seps.as_slice());
        let ghost before = views(out@);
        out.push(text_of(slice_subrange(rest, 0, n)));
        proof {
            assert(rest@.subrange(0, n as int) == rest@.take(n as int));
            assert(views(out@) =~= before.push(rest@.take(n as int)));
        }
        if n == rest.len() {
            proof {
                assert(rest@.take(n as int) == rest@);
                assert(before + seq![rest@] =~= before.push(rest@));
            }
            return out;
        }
        proof {
            assert(rest@.skip(n + 1) == chars@.skip(at + n + 1));
            assert(before.push(rest@.take(n as int)) + split(rest@.skip(n + 1), sep) =~= before + (
            seq![rest@.take(n as int)] + split(rest@.skip(n + 1), sep)));
        }
        at = at + n + 1;
    }
}

/// A text with every occurrence of `p` replaced by `by`.
pub fn replace_text(s: &str, p: &str, by: &str) -> (r: String)
    ensures
        r@ == replace(s@, p@, by@),
{
    let chars: Vec<char> = chars_of(s);
    let pat: Vec<char> = chars_of(p);
    let mut out: String = String::new();
    if pat.len() == 0 {
        return text_of(chars.as_slice());
    }
    let mut at: usize = 0;
    proof {
        assert(chars@.skip(0) == chars@);
        assert(out@ + replace(chars@, p@, by@) =~= replace(chars@, p@, by@));
    }
    loop
        invariant
            at <= chars@.len(),
            chars@ == s@,
            pat@ == p@,
            p@.len() > 0,
            replace(chars@, p@, by@) == out@ + replace(chars@.skip(at as int), p@, by@),
        decreases chars@.len() - at,
    {
        let rest: &[char] = slice_subrange(chars.as_slice(), at, chars.len());
        proof {
            assert(rest@ == chars@.skip(at as int));
        }
        match find_chars(rest, pat.as_slice()) {
            None => {
                let tail: String = text_of(rest);
                vstd::string::StringExecFns::append(&mut out, tail.as_str());
                return out;
            },
            Some(i) => {
                let head: String = text_of(slice_subrange(rest, 0, i));
                let ghost before = out@;
                vstd::string::StringExecFns::append(&mut out, head.as_str());
                vstd::string::StringExecFns::append(&mut out, by);
                proof {
                    assert(rest@.subrange(0, i as int) == rest@.take(i as int));
                    assert(rest@.skip(i + p@.len()) == chars@.skip(at + i + p@.len()));
                    assert(before + (rest@.take(i as int) + by@ + replace(
                        rest@.skip(i + p@.len()),
                        p@,
                        by@,
                    )) =~= before + rest@.take(i as int) + by@ + replace(
                        rest@.skip(i + p@.len()),
                        p@,
                        by@,
                    ));
                }
                at = at + i + pat.len();
            },
        }
    }
}

/// The texts in order, with `sep` between neighbours.
pub fn join_texts(parts: &Vec<String>, sep: &str) -> (r: String)
    ensures
        r@ == join(views(parts@), sep@),
{
    let mut out: String = String::new();
    proof {
        assert(views(parts@).take(0) =~= seq![]);
    }
    for i in 0..parts.len()
        invariant
            out@ == join(views(parts@).take(i as int), sep@),
    {
        proof {
            let next = views(parts@).take(i + 1);
            assert(next.drop_last() =~= views(parts@).take(i as int));
            assert(next.last() == parts@[i as int]@);
        }
        if i > 0 {
            vstd::string::StringExecFns::append(&mut out, sep);
        }
        vstd::string::StringExecFns::append(&mut out, parts[i].as_str());
        proof {
            if i == 0 {
                assert(out@ =~= views(parts@).take(1)[0]);
            }
        }
    }
    proof {
        assert(views(parts@).take(parts@.len() as int) =~= views(parts@));
    }
    out
}

/// `a` followed by `b`.
pub fn concat2(a: &str, b: &str) -> (r: String)
    ensures
        r@ == a@ + b@,
{
    let mut out: String = a.to_string();
    vstd::string::StringExecFns::append(&mut out, b);
    out
}

/// `a`, `b` and `c`, one after the other.
pub fn concat3(a: &str, b: &str, c: &str) -> (r: String)
    ensures
        r@ == a@ + b@ + c@,
{
    let mut out: String = concat2(a, b);
    vstd::string::StringExecFns::append(&mut out, c);
    out
}

/// `n` in decimal.
pub fn decimal_text(n: u128) -> (r: String)
    ensures
        r@ == decimal(n as nat),
    decreases n,
{
    let mut out: String = if n < 10 {
        String::new()
    } else {
        decimal_text(n / 10)
    };
    let d: u128 = n % 10;
    let c: char = if d == 0 {
        '0'
    } else if d == 1 {
        '1'
    } else if d == 2 {
        '2'
    } else if d == 3 {
        '3'
    } else if d == 4 {
        '4'
    } else if d == 5 {
        '5'
    } else if d == 6 {
        '6'
    } else if d == 7 {
        '7'
    } else if d == 8 {
        '8'
    } else {
        '9'
    };
    out.push(c);
    proof {
        if n < 10 {
            assert(out@ =~= seq![digit(n as nat)]);
        }
    }
    out
}

/// `n` in decimal, with a minus sign where it is negative.
pub fn decimal_signed_text(n: i64) -> (r: String)
    ensures
        r@ == decimal_signed(n as int),
{
    if n < 0 {
        let magnitude: u128 = (-(n as i128)) as u128;
        let digits: String = decimal_text(magnitude);
        let out: String = concat2("-", digits.as_str());
        proof {
            reveal_strlit("-");
            assert("-"@ =~= seq!['-']);
        }
        out
    } else {
        decimal_text(n as u128)
    }
}

/// More digits never make the value smaller.
proof fn lemma_digits_value_grows(s: Seq<char>, i: int)
    requires
        0 <= i <= s.len(),
    ensures
        digits_value(s.take(i)) <= digits_value(s),
    decreases s.len() - i,
{
    if i == s.len() {
        assert(s.take(i) == s);
    } else {
        lemma_digits_value_grows(s, i + 1);
        assert(s.take(i + 1).drop_last() == s.take(i));
    }
}

/// What a text means as an unsigned number of 64 bits.
pub fn parse_u64(s: &str) -> (r: Option<u64>)
    ensures
        r == parsed_u64(s@),
{
    let chars: Vec<char> = chars_of(s);
    let start: usize = if chars.len() > 0 && chars[0] == '+' {
        1
    } else {
        0
    };
    let digits: &[char] = slice_subrange(chars.as_slice(), start, chars.len());
    proof {
        assert(start == 0 ==> digits@ == chars@);
        assert(start == 1 ==> digits@ == chars@.skip(1));
        assert(digits@.take(0) =~= seq![]);
    }
    if digits.len() == 0 {
        return None;
    }
    let mut value: u64 = 0;
    let mut i: usize = 0;
    while i < digits.len()
        invariant
            i <= digits@.len(),
            digits@ == unsigned_part(s@),
            value == digits_value(digits@.take(i as int)),
            forall|j: int| 0 <= j < i ==> is_digit(#[trigger] digits@[j]),
        decreases digits@.len() - i,
    {
        let c: char = digits[i];
        if !('0' <= c && c <= '9') {
            proof {
                assert(!is_digit(digits@[i as int]));
            }
            return None;
        }
        let d: u64 = (c as u32 - '0' as u32) as u64;
        proof {
            assert(digits@.take(i + 1).drop_last() == digits@.take(i as int));
            assert(digits_value(digits@.take(i + 1)) == value * 10 + d);
            lemma_digits_value_grows(digits@, i + 1);
        }
        if value > (u64::MAX - d) / 10 {
            return None;
        }
        value = value * 10 + d;
        i = i + 1;
    }
    proof {
        assert(digits@.take(digits@.len() as int) == digits@);
    }
    Some(value)
}

/// Encoding goes character by character.
pub proof fn lemma_encode_concat(a: Seq<char>, b: Seq<char>)
    ensures
        encode_utf8(a + b) == encode_utf8(a) + encode_utf8(b),
    decreases a.len(),
{
    if a.len() == 0 {
        assert(a + b =~= b);
        assert(encode_utf8(a) + encode_utf8(b) =~= encode_utf8(b));
    } else {
        assert((a + b).drop_first() =~= a.drop_first() + b);
        lemma_encode_concat(a.drop_first(), b);
    }
}

/// Where the encoding of a prefix ends, a character of the whole text begins or the text ends.
proof fn lemma_prefix_is_boundary(s: Seq<char>, k: int)
    requires
        0 <= k <= s.len(),
    ensures
        vstd::utf8::is_char_boundary(encode_utf8(s), encode_utf8(s.take(k)).len() as int),
        encode_utf8(s.take(k)).len() <= encode_utf8(s).len(),
    decreases k,
{
    vstd::utf8::encode_utf8_valid_utf8(s);
    lemma_encode_concat(s.take(k), s.skip(k));
    assert(s.take(k) + s.skip(k) =~= s);
    if k > 0 {
        let rest = s.drop_first();
        vstd::utf8::encode_utf8_first_scalar(s);
        lemma_prefix_is_boundary(rest, k - 1);
        assert(s.take(k).drop_first() =~= rest.take(k - 1));
        assert(s.take(k)[0] == s[0]);
        assert(vstd::utf8::pop_first_scalar(encode_utf8(s)) =~= encode_utf8(rest));
    }
}

/// The longest prefix within the limit is the one that the next character would exceed.
proof fn lemma_preview_is(s: Seq<char>, n: nat, k: int)
    requires
        0 <= k <= s.len(),
        encode_utf8(s.take(k)).len() <= n,
        k < s.len() ==> encode_utf8(s.take(k + 1)).len() > n,
    ensures
        preview(s, n) == s.take(k),
    decreases s.len(),
{
    if k == s.len() {
        assert(s.take(k) == s);
    } else {
        lemma_encode_concat(s.take(k + 1), s.skip(k + 1));
        assert(s.take(k + 1) + s.skip(k + 1) =~= s);
        let d = s.drop_last();
        assert(d.take(k) =~= s.take(k));
        if k < d.len() {
            assert(d.take(k + 1) =~= s.take(k + 1));
        }
        lemma_preview_is(d, n, k);
    }
}

/// The beginning of a text, cut to at most `n` bytes of UTF-8 and never inside a character.
pub fn safe_preview(s: &str, n: usize) -> (r: &str)
    ensures
        r@ == preview(s@, n as nat),
{
    let ghost bytes = encode_utf8(s@);
    proof {
        vstd::utf8::encode_utf8_valid_utf8(s@);
    }
    if s.as_bytes().len() <= n {
        return s;
    }
    let mut end: usize = n;
    proof {
        vstd::utf8::is_char_boundary_start_end_of_seq(bytes);
    }
    while end > 0 && !s.is_char_boundary(end)
        invariant
            end <= n,
            bytes == encode_utf8(s@),
            valid_utf8(bytes),
            forall|m: int| end < m <= n ==> !vstd::utf8::is_char_boundary(bytes, m),
        decreases end,
    {
        end = end - 1;
    }
    let (head, _tail) = s.split_at(end);
    proof {
        assert(encode_utf8(head@) == bytes.subrange(0, end as int));
        vstd::utf8::encode_utf8_decode_utf8(s@);
        vstd::utf8::encode_utf8_decode_utf8(head@);
        vstd::utf8::decode_utf8_split(bytes, end as int);
        let k = head@.len() as int;
        assert(s@.take(k) =~= head@);
        if k < s@.len() {
            lemma_prefix_is_boundary(s@, k + 1);
            lemma_encode_concat(s@.take(k), seq![s@[k]]);
            assert(s@.take(k) + seq![s@[k]] =~= s@.take(k + 1));
            vstd::utf8::encode_utf8_first_scalar(seq![s@[k]]);
            assert(encode_utf8(seq![s@[k]]).len() > 0);
        }
        lemma_preview_is(s@, n as nat, k);
    }
    head
}

// ---------------------------------------------------------------------------
// How the operations go together
// ---------------------------------------------------------------------------
/// No separator stands before the first one found.
pub proof fn lemma_find_any_one(s: Seq<char>, c: char)
    ensures
        find_any(s, seq![c]) <= s.len(),
        forall|j: int| 0 <= j < find_any(s, seq![c]) ==> #[trigger] s[j] != c,
        find_any(s, seq![c]) < s.len() ==> s[find_any(s, seq![c]) as int] == c,
    decreases s.len(),
{
    if s.len() > 0 {
        assert(seq![c].contains(s[0]) <==> s[0] == c) by {
            assert(seq![c][0] == c);
        }
        if s[0] != c {
            lemma_find_any_one(s.skip(1), c);
            assert forall|j: int| 0 <= j < find_any(s, seq![c]) implies #[trigger] s[j] != c by {
                if j > 0 {
                    assert(s.skip(1)[j - 1] == s[j]);
                }
            }
        }
    }
}

/// What is searched for is found within the text or not at all.
pub proof fn lemma_find_any_within(s: Seq<char>, set: Seq<char>)
    ensures
        find_any(s, set) <= s.len(),
        find_any(s, set) < s.len() ==> set.contains(s[find_any(s, set) as int]),
    decreases s.len(),
{
    if s.len() > 0 && !set.contains(s[0]) {
        lemma_find_any_within(s.skip(1), set);
    }
}

/// The first character of a set is the one that no other stands before.
pub proof fn lemma_find_any_set_is(s: Seq<char>, set: Seq<char>, i: int)
    requires
        0 <= i <= s.len(),
        forall|j: int| 0 <= j < i ==> !set.contains(#[trigger] s[j]),
        i < s.len() ==> set.contains(s[i]),
    ensures
        find_any(s, set) == i,
    decreases s.len(),
{
    if i > 0 {
        assert(!set.contains(s[0]));
        let rest = s.skip(1);
        assert forall|j: int| 0 <= j < i - 1 implies !set.contains(#[trigger] rest[j]) by {
            assert(rest[j] == s[j + 1]);
        }
        lemma_find_any_set_is(rest, set, i - 1);
    }
}

/// The first separator is the one that no other stands before.
pub proof fn lemma_find_any_is(s: Seq<char>, c: char, i: int)
    requires
        0 <= i <= s.len(),
        forall|j: int| 0 <= j < i ==> #[trigger] s[j] != c,
        i < s.len() ==> s[i] == c,
    ensures
        find_any(s, seq![c]) == i,
{
    lemma_find_any_one(s, c);
    let k = find_any(s, seq![c]) as int;
    if k < i {
        assert(s[k] != c);
    } else if i < k {
        assert(s[i] != c);
    }
}

/// A text without the separator is one piece.
pub proof fn lemma_split_whole(s: Seq<char>, c: char)
    requires
        !s.contains(c),
    ensures
        split(s, c) == seq![s],
{
    assert forall|j: int| 0 <= j < s.len() implies #[trigger] s[j] != c by {
        assert(s.contains(s[j]));
    }
    lemma_find_any_is(s, c, s.len() as int);
}

/// A piece holds no separator.
pub proof fn lemma_piece_without_separator(s: Seq<char>, c: char, i: int)
    requires
        0 <= i < split(s, c).len(),
    ensures
        !split(s, c)[i].contains(c),
    decreases s.len(),
{
    lemma_find_any_one(s, c);
    let k = find_any(s, seq![c]) as int;
    if k >= s.len() {
        assert(split(s, c)[i] == s);
    } else if i == 0 {
        assert(split(s, c)[0] == s.take(k));
    } else {
        lemma_piece_without_separator(s.skip(k + 1), c, i - 1);
        assert(split(s, c)[i] == split(s.skip(k + 1), c)[i - 1]);
    }
}

/// Splitting goes on behind every separator.
pub proof fn lemma_split_concat(x: Seq<char>, c: char, y: Seq<char>)
    ensures
        split(x + seq![c] + y, c) == split(x, c) + split(y, c),
    decreases x.len(),
{
    let whole = x + seq![c] + y;
    lemma_find_any_one(x, c);
    let k = find_any(x, seq![c]) as int;
    assert forall|j: int| 0 <= j < k implies #[trigger] whole[j] != c by {
        assert(whole[j] == x[j]);
    }
    if k >= x.len() {
        assert(whole[k] == c);
        lemma_find_any_is(whole, c, k);
        assert(whole.take(k) =~= x);
        assert(whole.skip(k + 1) =~= y);
    } else {
        assert(whole[k] == x[k]);
        lemma_find_any_is(whole, c, k);
        assert(whole.take(k) =~= x.take(k));
        assert(whole.skip(k + 1) =~= x.skip(k + 1) + seq![c] + y);
        lemma_split_concat(x.skip(k + 1), c, y);
        assert(split(x, c) =~= seq![x.take(k)] + split(x.skip(k + 1), c));
        assert(seq![x.take(k)] + (split(x.skip(k + 1), c) + split(y, c)) =~= seq![x.take(k)]
            + split(x.skip(k + 1), c) + split(y, c));
    }
}

/// The first piece begins a text, with the separator behind it where there are more.
pub proof fn lemma_first_piece(s: Seq<char>, c: char)
    ensures
        split(s, c).len() >= 1,
        split(s, c).len() >= 2 ==> starts_with(s, split(s, c)[0] + seq![c]),
{
    lemma_find_any_one(s, c);
    let k = find_any(s, seq![c]) as int;
    if k < s.len() {
        assert(s.take(k + 1) =~= s.take(k) + seq![c]);
    }
}

/// What is trimmed away at the front is white space, and what is left does not
/// begin with it.
pub proof fn lemma_trim_start(s: Seq<char>)
    ensures
        trim_start(s).len() <= s.len(),
        trim_start(s) == s.skip(s.len() - trim_start(s).len()),
        trim_start(s).len() > 0 ==> !is_space(trim_start(s)[0]),
        s.len() > 0 && !is_space(s[0]) ==> trim_start(s) == s,
    decreases s.len(),
{
    if s.len() > 0 && is_space(s[0]) {
        lemma_trim_start(s.skip(1));
        let n = s.skip(1).len() - trim_start(s).len();
        assert(s.skip(1).skip(n) =~= s.skip(n + 1));
    } else {
        assert(s.skip(0) =~= s);
    }
}

/// What is trimmed away at the end is white space, and what is left does not end
/// with it.
pub proof fn lemma_trim_end(s: Seq<char>)
    ensures
        trim_end(s).len() <= s.len(),
        trim_end(s) == s.take(trim_end(s).len() as int),
        trim_end(s).len() > 0 ==> !is_space(trim_end(s).last()),
        s.len() > 0 && !is_space(s.last()) ==> trim_end(s) == s,
    decreases s.len(),
{
    if s.len() > 0 && is_space(s.last()) {
        lemma_trim_end(s.drop_last());
        let n = trim_end(s).len() as int;
        assert(s.drop_last().take(n) =~= s.take(n));
    } else {
        assert(s.take(s.len() as int) =~= s);
    }
}

/// A trimmed text is a part of the text, begins and ends with no white space, and
/// stays as it is when it is trimmed again.
pub proof fn lemma_trim(s: Seq<char>)
    ensures
        forall|c: char| #[trigger] trim(s).contains(c) ==> s.contains(c),
        trim(s).len() > 0 ==> !is_space(trim(s)[0]) && !is_space(trim(s).last()),
        trim(trim(s)) == trim(s),
{
    let a = trim_start(s);
    let t = trim_end(a);
    lemma_trim_start(s);
    lemma_trim_end(a);
    let n = s.len() - a.len();
    assert forall|c: char| #[trigger] t.contains(c) implies s.contains(c) by {
        let i = choose|i: int| 0 <= i < t.len() && t[i] == c;
        assert(t[i] == a[i]);
        assert(a[i] == s[n + i]);
    }
    if t.len() > 0 {
        assert(t[0] == a[0]);
        lemma_trim_start(t);
        lemma_trim_end(t);
    }
}

/// A text of simple characters in front of another is put into lower case
/// character by character.
pub proof fn lemma_lower_prefix(a: Seq<char>, b: Seq<char>)
    requires
        forall|i: int| 0 <= i < a.len() ==> is_simple(#[trigger] a[i]),
    ensures
        lower(a + b).len() >= a.len(),
        lower(a + b).take(a.len() as int) == ascii_lowered(a),
{
    lemma_simple_run(a, b);
    let s = a + b;
    let n = simple_run(s) as int;
    lemma_simple_run_within(s);
    let head = ascii_lowered(s.take(n));
    assert(lower(s).take(a.len() as int) =~= head.take(a.len() as int));
    assert(head.take(a.len() as int) =~= ascii_lowered(a));
}

/// The run of simple characters covers a front of simple characters.
proof fn lemma_simple_run(a: Seq<char>, b: Seq<char>)
    requires
        forall|i: int| 0 <= i < a.len() ==> is_simple(#[trigger] a[i]),
    ensures
        simple_run(a + b) >= a.len(),
    decreases a.len(),
{
    if a.len() > 0 {
        assert((a + b)[0] == a[0]);
        assert((a + b).skip(1) =~= a.skip(1) + b);
        lemma_simple_run(a.skip(1), b);
    }
}

/// A text of simple characters is one run of them, and as long in lower case.
pub proof fn lemma_simple_run_full(s: Seq<char>)
    requires
        forall|i: int| 0 <= i < s.len() ==> is_simple(#[trigger] s[i]),
    ensures
        simple_run(s) == s.len(),
        lower(s) == ascii_lowered(s),
{
    lemma_simple_run(s, seq![]);
    assert(s + seq![] =~= s);
    lemma_simple_run_within(s);
    assert(s.take(s.len() as int) =~= s);
}

/// The run of simple characters is a part of the text.
proof fn lemma_simple_run_within(s: Seq<char>)
    ensures
        simple_run(s) <= s.len(),
    decreases s.len(),
{
    if s.len() > 0 && is_simple(s[0]) {
        lemma_simple_run_within(s.skip(1));
    }
}

/// The cut text begins the text, fits in the limit, and is as long as it can be:
/// one more character would not fit.
pub proof fn law_preview_is_longest(s: Seq<char>, n: nat)
    ensures
        preview(s, n).len() <= s.len(),
        preview(s, n) == s.take(preview(s, n).len() as int),
        encode_utf8(preview(s, n)).len() <= n,
        preview(s, n).len() < s.len() ==> encode_utf8(
            s.take(preview(s, n).len() as int + 1),
        ).len() > n,
    decreases s.len(),
{
    if encode_utf8(s).len() <= n || s.len() == 0 {
        assert(s.take(s.len() as int) =~= s);
    } else {
        let d = s.drop_last();
        law_preview_is_longest(d, n);
        let k = preview(d, n).len() as int;
        assert(d.take(k) =~= s.take(k));
        if k < d.len() {
            assert(d.take(k + 1) =~= s.take(k + 1));
        } else {
            assert(s.take(k + 1) =~= s);
        }
    }
}

/// A number in decimal is made of digits.
pub proof fn lemma_decimal_digits(n: nat)
    ensures
        all_digits(decimal(n)),
        decimal(n).len() > 0,
    decreases n,
{
    if n >= 10 {
        lemma_decimal_digits(n / 10);
    }
}

/// A number below the power of ten has no more digits than its exponent.
pub proof fn lemma_decimal_len(n: nat, k: nat)
    requires
        k >= 1,
        n < vstd::arithmetic::power::pow(10, k),
    ensures
        decimal(n).len() <= k,
    decreases k,
{
    if n >= 10 {
        vstd::arithmetic::power::lemma_pow1(10);
        assert(k > 1);
        let m = (k - 1) as nat;
        assert(vstd::arithmetic::power::pow(10, k) == 10 * vstd::arithmetic::power::pow(10, m)) by {
            reveal(vstd::arithmetic::power::pow);
        }
        lemma_decimal_len(n / 10, m);
    }
}

// ---------------------------------------------------------------------------
// What holds of texts
// ---------------------------------------------------------------------------
/// `p` stands in `s` from the place `i` on.
pub open spec fn occurs_at(s: Seq<char>, p: Seq<char>, i: int) -> bool {
    0 <= i && i + p.len() <= s.len() && s.subrange(i, i + p.len()) == p
}

/// A text is found at its first place, and is found exactly where it has a place.
pub proof fn law_found_at_first_place(s: Seq<char>, p: Seq<char>)
    ensures
        match find(s, p) {
            Some(i) => occurs_at(s, p, i as int) && forall|j: int|
                0 <= j < i ==> !#[trigger] occurs_at(s, p, j),
            None => forall|j: int| !#[trigger] occurs_at(s, p, j),
        },
        contains(s, p) <==> exists|j: int| #[trigger] occurs_at(s, p, j),
    decreases s.len(),
{
    assert(p.len() <= s.len() ==> s.subrange(0, p.len() as int) =~= s.take(p.len() as int));
    if starts_with(s, p) {
        assert(occurs_at(s, p, 0));
    } else {
        assert(!occurs_at(s, p, 0));
        if s.len() > 0 {
            let rest = s.skip(1);
            law_found_at_first_place(rest, p);
            assert forall|j: int| j > 0 implies occurs_at(s, p, j) == #[trigger] occurs_at(
                rest,
                p,
                j - 1,
            ) by {
                if j + p.len() <= s.len() {
                    assert(s.subrange(j, j + p.len()) =~= rest.subrange(j - 1, j - 1 + p.len()));
                }
            }
            if let Some(i) = find(rest, p) {
                assert(occurs_at(rest, p, (i as int + 1) - 1));
                assert(occurs_at(s, p, i as int + 1));
                assert forall|j: int| 0 <= j < i + 1 implies !#[trigger] occurs_at(s, p, j) by {
                    if j > 0 {
                        assert(!occurs_at(rest, p, j - 1));
                    }
                }
            } else {
                assert forall|j: int| !#[trigger] occurs_at(s, p, j) by {
                    if j > 0 {
                        assert(!occurs_at(rest, p, j - 1));
                    }
                }
            }
        }
    }
}

/// A text is contained wherever it stands between two others.
pub proof fn law_part_is_contained(a: Seq<char>, p: Seq<char>, b: Seq<char>)
    ensures
        contains(a + p + b, p),
        contains(a + p, p),
        contains(p + b, p),
        contains(p, p),
{
    let s = a + p + b;
    assert(s.subrange(a.len() as int, (a.len() + p.len()) as int) =~= p);
    assert(occurs_at(s, p, a.len() as int));
    law_found_at_first_place(s, p);
    assert((a + p).subrange(a.len() as int, (a.len() + p.len()) as int) =~= p);
    assert(occurs_at(a + p, p, a.len() as int));
    law_found_at_first_place(a + p, p);
    assert((p + b).take(p.len() as int) =~= p);
    assert(p.take(p.len() as int) =~= p);
}

/// A number that is written in decimal is read back.
pub proof fn law_decimal_is_read_back(n: nat)
    ensures
        digits_value(decimal(n)) == n,
        all_digits(decimal(n)),
        n <= u64::MAX ==> parsed_u64(decimal(n)) == Some(n as u64),
        decimal(n).len() > 1 ==> decimal(n)[0] != '0',
    decreases n,
{
    lemma_decimal_digits(n);
    if n < 10 {
        assert(decimal(n).drop_last() =~= seq![]);
        assert(decimal(n).last() as nat - '0' as nat == n);
        reveal_with_fuel(digits_value, 2);
    } else {
        law_decimal_is_read_back(n / 10);
        let d = decimal(n);
        assert(d.drop_last() =~= decimal(n / 10));
        assert(d.last() as nat - '0' as nat == n % 10);
        assert(n == (n / 10) * 10 + n % 10);
        lemma_decimal_digits(n / 10);
        assert(d[0] == decimal(n / 10)[0]);
        if n / 10 < 10 {
            assert(decimal(n / 10)[0] == digit(n / 10));
        } else {
            lemma_decimal_digits(n / 10 / 10);
            assert(decimal(n / 10).len() == decimal(n / 10 / 10).len() + 1);
        }
    }
    assert(is_digit(decimal(n)[0]));
}

/// Different numbers are written differently.
pub proof fn law_decimals_differ(a: nat, b: nat)
    ensures
        decimal(a) == decimal(b) ==> a == b,
{
    law_decimal_is_read_back(a);
    law_decimal_is_read_back(b);
}

/// The pieces between the separators, joined by the separator, are the text again,
/// and none of them holds the separator.
pub proof fn law_split_is_undone_by_join(s: Seq<char>, c: char)
    ensures
        join(split(s, c), seq![c]) == s,
        forall|i: int| 0 <= i < split(s, c).len() ==> !(#[trigger] split(s, c)[i]).contains(c),
    decreases s.len(),
{
    assert forall|i: int| 0 <= i < split(s, c).len() implies !(#[trigger] split(s, c)[i]).contains(
        c,
    ) by {
        lemma_piece_without_separator(s, c, i);
    }
    lemma_find_any_one(s, c);
    let k = find_any(s, seq![c]) as int;
    if k < s.len() {
        let rest = s.skip(k + 1);
        law_split_is_undone_by_join(rest, c);
        lemma_join_front(s.take(k), split(rest, c), seq![c]);
        lemma_first_piece(rest, c);
        assert(s.take(k) + seq![c] + rest =~= s);
    }
}

/// Joining with one more part in front.
pub proof fn lemma_join_front(first: Seq<char>, parts: Seq<Seq<char>>, sep: Seq<char>)
    requires
        parts.len() > 0,
    ensures
        join(seq![first] + parts, sep) == first + sep + join(parts, sep),
    decreases parts.len(),
{
    let all = seq![first] + parts;
    if parts.len() == 1 {
        reveal_with_fuel(join, 2);
        assert(all.drop_last() =~= seq![first]);
        assert(all.last() == parts[0]);
        assert(join(all, sep) =~= first + sep + parts[0]);
    } else {
        lemma_join_front(first, parts.drop_last(), sep);
        assert(all.drop_last() =~= seq![first] + parts.drop_last());
        assert(join(all, sep) =~= first + sep + join(parts, sep));
    }
}

/// What trimming takes away is white space at the ends, and all of it: the text is
/// made of white space, the trimmed text and white space.
pub proof fn law_trim_takes_space_alone(s: Seq<char>)
    ensures
        exists|a: int, b: int|
            #![trigger s.subrange(a, b)]
            0 <= a <= b <= s.len() && trim(s) == s.subrange(a, b) && (forall|i: int|
                0 <= i < a ==> is_space(#[trigger] s[i])) && (forall|i: int|
                b <= i < s.len() ==> is_space(#[trigger] s[i])),
        trim(s).len() > 0 ==> !is_space(trim(s)[0]) && !is_space(trim(s).last()),
{
    let t = trim_start(s);
    lemma_trim(s);
    lemma_trim_start(s);
    lemma_trim_end(t);
    lemma_trim_start_spaces(s);
    lemma_trim_end_spaces(t);
    let a = s.len() - t.len();
    let b = a + trim(s).len();
    assert(trim(s) =~= s.subrange(a, b));
    assert forall|i: int| b <= i < s.len() implies is_space(#[trigger] s[i]) by {
        assert(s[i] == t[i - a]);
    }
}

proof fn lemma_trim_start_spaces(s: Seq<char>)
    ensures
        forall|i: int| 0 <= i < s.len() - trim_start(s).len() ==> is_space(#[trigger] s[i]),
    decreases s.len(),
{
    if s.len() > 0 && is_space(s[0]) {
        lemma_trim_start_spaces(s.skip(1));
        assert forall|i: int| 0 <= i < s.len() - trim_start(s).len() implies is_space(
            #[trigger] s[i],
        ) by {
            if i > 0 {
                assert(s[i] == s.skip(1)[i - 1]);
            }
        }
    }
}

proof fn lemma_trim_end_spaces(s: Seq<char>)
    ensures
        forall|i: int| trim_end(s).len() <= i < s.len() ==> is_space(#[trigger] s[i]),
    decreases s.len(),
{
    if s.len() > 0 && is_space(s.last()) {
        lemma_trim_end_spaces(s.drop_last());
        assert forall|i: int| trim_end(s).len() <= i < s.len() implies is_space(#[trigger] s[i]) by {
            if i < s.len() - 1 {
                assert(s[i] == s.drop_last()[i]);
            }
        }
    }
}

/// The first occurrence of `p`, behind `a`, gives way to `by`, and so do those that
/// follow; a text without `p` stays.
pub proof fn law_replace_goes_on(a: Seq<char>, p: Seq<char>, b: Seq<char>, by: Seq<char>)
    requires
        p.len() > 0,
    ensures
        (forall|i: int| 0 <= i < a.len() ==> !#[trigger] occurs_at(a + p + b, p, i)) ==> replace(
            a + p + b,
            p,
            by,
        ) == a + by + replace(b, p, by),
        !contains(a, p) ==> replace(a, p, by) == a,
{
    let s = a + p + b;
    law_found_at_first_place(s, p);
    assert(s.subrange(a.len() as int, (a.len() + p.len()) as int) =~= p);
    assert(occurs_at(s, p, a.len() as int));
    if forall|i: int| 0 <= i < a.len() ==> !#[trigger] occurs_at(s, p, i) {
        assert(find(s, p) == Some(a.len()));
        assert(s.take(a.len() as int) =~= a);
        assert(s.skip((a.len() + p.len()) as int) =~= b);
    }
}

/// Stripping takes away all of the character at that end and nothing else.
pub proof fn law_strip_takes_character_alone(s: Seq<char>, c: char)
    ensures
        strip_start(s, c).len() <= s.len(),
        strip_start(s, c) == s.skip(s.len() - strip_start(s, c).len()),
        forall|i: int| 0 <= i < s.len() - strip_start(s, c).len() ==> #[trigger] s[i] == c,
        strip_start(s, c).len() > 0 ==> strip_start(s, c)[0] != c,
        strip_end(s, c).len() <= s.len(),
        strip_end(s, c) == s.take(strip_end(s, c).len() as int),
        forall|i: int| strip_end(s, c).len() <= i < s.len() ==> #[trigger] s[i] == c,
        strip_end(s, c).len() > 0 ==> strip_end(s, c).last() != c,
    decreases s.len(),
{
    if s.len() > 0 {
        let rest = s.skip(1);
        let front = s.drop_last();
        law_strip_takes_character_alone(rest, c);
        law_strip_takes_character_alone(front, c);
        if s[0] == c {
            let n = rest.len() - strip_start(rest, c).len();
            assert(rest.skip(n) =~= s.skip(n + 1));
            assert forall|i: int| 0 <= i < n + 1 implies #[trigger] s[i] == c by {
                if i > 0 {
                    assert(s[i] == rest[i - 1]);
                }
            }
        } else {
            assert(s.skip(0) =~= s);
        }
        if s.last() == c {
            let n = strip_end(front, c).len() as int;
            assert(front.take(n) =~= s.take(n));
            assert forall|i: int| n <= i < s.len() implies #[trigger] s[i] == c by {
                if i < front.len() {
                    assert(s[i] == front[i]);
                }
            }
        } else {
            assert(s.take(s.len() as int) =~= s);
        }
    } else {
        assert(s.skip(0) =~= s);
        assert(s.take(0) =~= s);
    }
}

/// A text is not contained where its first character does not occur.
pub proof fn lemma_absent(s: Seq<char>, p: Seq<char>)
    requires
        p.len() > 0,
        !s.contains(p[0]),
    ensures
        !contains(s, p),
{
    law_found_at_first_place(s, p);
    if contains(s, p) {
        let i = choose|i: int| #[trigger] occurs_at(s, p, i);
        assert(s.subrange(i, i + p.len())[0] == s[i]);
        assert(s.contains(s[i]));
    }
}

/// A text that begins with a character of its own is replaced where it stands alone.
pub proof fn lemma_replace_one(a: Seq<char>, p: Seq<char>, b: Seq<char>, by: Seq<char>)
    requires
        p.len() > 0,
        !a.contains(p[0]),
        !contains(b, p),
    ensures
        replace(a + p + b, p, by) == a + by + b,
{
    let s = a + p + b;
    assert forall|i: int| 0 <= i < a.len() implies !#[trigger] occurs_at(s, p, i) by {
        if occurs_at(s, p, i) {
            assert(s.subrange(i, i + p.len())[0] == s[i]);
            assert(s[i] == a[i]);
            assert(a.contains(a[i]));
        }
    }
    law_replace_goes_on(a, p, b, by);
    law_replace_goes_on(b, p, b, by);
}

/// Texts without white space at their ends that are joined into a cookie header are
/// found in it again, one in each segment and in the same order.
pub proof fn law_joined_is_split_back(parts: Seq<Seq<char>>, i: int)
    requires
        0 <= i < parts.len(),
        forall|k: int|
            0 <= k < parts.len() ==> trim(#[trigger] parts[k]) == parts[k] && parts[k].len() > 0
                && !parts[k].contains(';'),
    ensures
        split(join(parts, "; "@), ';').len() == parts.len(),
        trim(split(join(parts, "; "@), ';')[i]) == parts[i],
    decreases parts.len(),
{
    reveal_strlit("; ");
    let last = parts.last();
    assert(last == parts[parts.len() - 1]);
    if parts.len() == 1 {
        lemma_split_whole(parts[0], ';');
    } else {
        let front = parts.drop_last();
        assert forall|k: int| 0 <= k < front.len() implies trim(#[trigger] front[k]) == front[k]
            && front[k].len() > 0 && !front[k].contains(';') by {
            assert(front[k] == parts[k]);
        }
        let head = join(front, "; "@);
        let tail = seq![' '] + last;
        assert(join(parts, "; "@) =~= head + seq![';'] + tail);
        lemma_split_concat(head, ';', tail);
        assert(!tail.contains(';')) by {
            if tail.contains(';') {
                let j = choose|j: int| 0 <= j < tail.len() && tail[j] == ';';
                assert(j > 0 && last[j - 1] == ';');
            }
        }
        lemma_split_whole(tail, ';');
        assert(tail.skip(1) =~= last);
        assert(trim(tail) == trim(last)) by {
            assert(trim_start(tail) == trim_start(tail.skip(1)));
        }
        if i < front.len() {
            law_joined_is_split_back(front, i);
        } else {
            law_joined_is_split_back(front, 0);
        }
    }
}

/// White space is what Unicode calls so: the blanks and line ends of ASCII and the wide
/// blank are, and no visible character of ASCII and no Chinese character is.
pub proof fn law_space_is_blank(c: char)
    ensures
        is_space(' ') && is_space('\u{9}') && is_space('\u{a}') && is_space('\u{d}') && is_space(
            '\u{3000}',
        ) && is_space('\u{a0}'),
        '!' <= c <= '~' ==> !is_space(c),
        '\u{4e00}' <= c <= '\u{9fff}' ==> !is_space(c),
{
}

/// A text is read as a number exactly where it is made of digits, behind a plus sign
/// where it has one, and the number fits.
pub proof fn law_number_is_read(s: Seq<char>)
    ensures
        s.len() > 0 && all_digits(s) && digits_value(s) <= u64::MAX ==> parsed_u64(s) == Some(
            digits_value(s) as u64,
        ) && parsed_u64(seq!['+'] + s) == Some(digits_value(s) as u64),
        s.len() > 0 && !is_digit(s[0]) && s[0] != '+' ==> parsed_u64(s) is None,
        s.len() == 0 ==> parsed_u64(s) is None,
        all_digits(s) && digits_value(s) > u64::MAX ==> parsed_u64(s) is None,
{
    assert((seq!['+'] + s).skip(1) =~= s);
    if s.len() > 0 && all_digits(s) {
        assert(is_digit(s[0]));
    }
}

/// A text begins with another exactly where it is that text and more, and ends with it
/// in the same way.
pub proof fn law_beginnings_and_ends(s: Seq<char>, p: Seq<char>, more: Seq<char>)
    ensures
        starts_with(s, p) ==> s == p + s.skip(p.len() as int),
        starts_with(p + more, p),
        ends_with(s, p) ==> s == s.take(s.len() - p.len()) + p,
        ends_with(more + p, p),
{
    if starts_with(s, p) {
        assert(s =~= s.take(p.len() as int) + s.skip(p.len() as int));
    }
    if ends_with(s, p) {
        assert(s =~= s.take(s.len() - p.len()) + s.skip(s.len() - p.len()));
    }
    assert((p + more).take(p.len() as int) =~= p);
    assert((more + p).skip(more.len() as int) =~= p);
}

/// A number below zero is written with a minus sign in front.
pub proof fn law_signed_number_is_written(n: int)
    ensures
        n >= 0 ==> digits_value(decimal_signed(n)) == n && all_digits(decimal_signed(n)),
        n < 0 ==> decimal_signed(n)[0] == '-' && digits_value(decimal_signed(n).skip(1)) == -n
            && all_digits(decimal_signed(n).skip(1)),
{
    if n >= 0 {
        law_decimal_is_read_back(n as nat);
    } else {
        law_decimal_is_read_back((-n) as nat);
        assert(decimal_signed(n).skip(1) =~= decimal((-n) as nat));
    }
}

} // verus!
