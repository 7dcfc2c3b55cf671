//! Rules of the feed fetcher: the size limit, format detection and the
//! human-readable rendering of byte counts.

use vstd::prelude::*;
use crate::feed::{
    canonical, fix_relative_url, parse, spec_parse, ParseError, ParseErrorView, Rss, RssView,
};
use crate::text::{
    chars_of, decimal, is_space_char, matches_at, occurs_at, push_decimal, trimmed,
};

verus! {

/// `1024` to the power `i`.
pub open spec fn pow1024(i: nat) -> nat
    decreases i,
{
    if i == 0 {
        1
    } else {
        1024 * pow1024((i - 1) as nat)
    }
}

/// The index of the binary unit in which `bytes` is shown: the largest `i`,
/// at most 6, with `1024^i <= bytes`.
pub open spec fn unit_index(bytes: nat) -> nat
    decreases bytes,
{
    if bytes < 1024 {
        0
    } else {
        1 + unit_index(bytes / 1024)
    }
}

/// The name of the unit with the given index.
pub open spec fn unit_name(i: nat) -> Seq<char> {
    if i == 0 {
        "B"@
    } else if i == 1 {
        "kiB"@
    } else if i == 2 {
        "MiB"@
    } else if i == 3 {
        "GiB"@
    } else if i == 4 {
        "TiB"@
    } else if i == 5 {
        "PiB"@
    } else {
        "EiB"@
    }
}

/// `n / d` rounded to the nearest integer, a tie going to the even neighbour.
pub open spec fn round_half_even(n: nat, d: nat) -> nat
    recommends
        d > 0,
{
    let q = n / d;
    let r = n % d;
    if 2 * r > d || (2 * r == d && q % 2 == 1) {
        q + 1
    } else {
        q
    }
}

/// The text that stands for a byte count: the count divided by the largest
/// power of 1024 that does not exceed it, rounded to an integer, followed by
/// the unit; zero is `0B`.
pub open spec fn byte_size_text(bytes: nat) -> Seq<char> {
    if bytes == 0 {
        "0B"@
    } else {
        decimal(round_half_even(bytes, pow1024(unit_index(bytes)))) + unit_name(unit_index(bytes))
    }
}

fn unit_str(i: u32) -> (s: &'static str)
    ensures
        s@ == unit_name(i as nat),
{
    if i == 0 {
        "B"
    } else if i == 1 {
        "kiB"
    } else if i == 2 {
        "MiB"
    } else if i == 3 {
        "GiB"
    } else if i == 4 {
        "TiB"
    } else if i == 5 {
        "PiB"
    } else {
        "EiB"
    }
}

/// Renders a byte count with binary units (`B`, `kiB`, `MiB`, ...).
pub fn format_byte_size(bytes: u64) -> (s: String)
    ensures
        s@ == byte_size_text(bytes as nat),
{
    if bytes == 0 {
        return "0B".to_owned();
    }
    let mut i: u32 = 0;
    let mut divisor: u64 = 1;
    let mut rest: u64 = bytes;
    while rest >= 1024
        invariant
            divisor == pow1024(i as nat),
            rest == bytes / divisor,
            divisor >= 1,
            i <= 6,
            rest >= 1024 ==> i < 6,
            unit_index(bytes as nat) == i + unit_index(rest as nat),
            divisor * rest <= bytes,
        decreases rest,
    {
        proof {
            let b = bytes as int;
            let d = divisor as int;
            let r = rest as int;
            assert(b / d / 1024 == b / (d * 1024)) by (nonlinear_arith)
                requires d >= 1;
            assert(d * 1024 <= b) by (nonlinear_arith)
                requires d * r <= b, r >= 1024, d >= 1;
            assert((d * 1024) * (r / 1024) <= b) by (nonlinear_arith)
                requires d * r <= b, d >= 1, r >= 0;
            lemma_pow1024_bound((i + 1) as nat, bytes as nat);
        }
        rest = rest / 1024;
        divisor = divisor * 1024;
        i = i + 1;
    }
    let q = bytes / divisor;
    let r = bytes % divisor;
    let half_up = r > divisor - r || (r == divisor - r && q % 2 == 1);
    let mut s = String::new();
    assert(q + 1 <= u64::MAX) by {
        assert(q <= bytes);
        if q == u64::MAX {
            assert(divisor == 1) by (nonlinear_arith)
                requires q as int == (bytes as int) / (divisor as int), q == u64::MAX, bytes <= u64::MAX, divisor >= 1;
        }
    }
    if half_up {
        push_decimal(&mut s, q + 1);
    } else {
        push_decimal(&mut s, q);
    }
    s.append(unit_str(i));
    assert(s@ =~= byte_size_text(bytes as nat));
    s
}

/// A count of at least `1024^i` that fits in 64 bits has `i <= 6`.
proof fn lemma_pow1024_bound(i: nat, bytes: nat)
    requires
        pow1024(i) <= bytes,
        bytes <= u64::MAX,
    ensures
        i <= 6,
        i == 6 ==> bytes / pow1024(i) < 1024,
{
    reveal_with_fuel(pow1024, 8);
    if i >= 7 {
        lemma_pow1024_monotonic(7, i);
    }
    if i == 6 {
        assert(pow1024(6) == 0x1000_0000_0000_0000);
    }
}

proof fn lemma_pow1024_monotonic(i: nat, j: nat)
    requires
        i <= j,
    ensures
        pow1024(i) <= pow1024(j),
    decreases j,
{
    if i < j {
        lemma_pow1024_monotonic(i, (j - 1) as nat);
    }
}

/// The seconds after which a request for a feed is given up.
pub const FETCH_TIMEOUT_SECS: u64 = 10;

/// The number of redirects that a request for a feed follows.
pub const MAX_REDIRECTS: usize = 5;

/// Why a feed could not be fetched.
#[derive(Debug, PartialEq, Eq)]
pub enum FeedError {
    /// The request failed; what the transport said.
    Network(String),
    /// The document is no feed.
    Parsing(ParseError),
    /// The document is larger than the limit, which is given in bytes.
    TooLarge(u64),
}

/// What a [`FeedError`] holds.
pub enum FeedErrorView {
    Network(Seq<char>),
    Parsing(ParseErrorView),
    TooLarge(u64),
}

impl View for FeedError {
    type V = FeedErrorView;

    open spec fn view(&self) -> FeedErrorView {
        match self {
            FeedError::Network(message) => FeedErrorView::Network(message@),
            FeedError::Parsing(error) => FeedErrorView::Parsing(error@),
            FeedError::TooLarge(limit) => FeedErrorView::TooLarge(*limit),
        }
    }
}

/// The name under which the fetcher presents itself: package name, a
/// slash, the version, and the address of the bot in parentheses.
pub open spec fn spec_user_agent(name: Seq<char>, version: Seq<char>, bot: Seq<char>) -> Seq<
    char,
> {
    name + "/"@ + version + " (+https://t.me/"@ + bot + ")"@
}

/// Builds the name under which the fetcher presents itself.
pub fn user_agent(name: &str, version: &str, bot_name: &str) -> (ua: String)
    ensures
        ua@ == spec_user_agent(name@, version@, bot_name@),
{
    let mut ua = name.to_owned();
    ua.append("/");
    ua.append(version);
    ua.append(" (+https://t.me/");
    ua.append(bot_name);
    ua.append(")");
    ua
}

/// Whether an HTTP status says that the request failed: the codes from 400
/// to 599.
pub open spec fn is_error_status(status: u16) -> bool {
    400 <= status <= 599
}

/// Checks the status of a response. A status that says the request failed
/// is a network error, which names the status.
pub fn check_status(status: u16) -> (r: Result<(), FeedError>)
    ensures
        r is Err <==> is_error_status(status),
        r is Err ==> r->Err_0@ == FeedErrorView::Network(
            crate::errors::Error::Http(status as u32).spec_message(),
        ),
{
    if 400 <= status && status <= 599 {
        Err(FeedError::Network(crate::errors::Error::Http(status as u32).message()))
    } else {
        Ok(())
    }
}

/// Whether a size is over the limit; a limit of zero admits every size.
pub open spec fn over_limit(size: int, limit: u64) -> bool {
    limit != 0 && size > limit
}

/// Checks the length that a response declares against the limit, before
/// anything of its body is read.
pub fn check_content_length(content_length: Option<u64>, size_limit: u64) -> (r: Result<
    (),
    FeedError,
>)
    ensures
        r is Err <==> content_length is Some && over_limit(content_length->0 as int, size_limit),
        r is Err ==> r->Err_0 == FeedError::TooLarge(size_limit),
{
    match content_length {
        Some(len) => if size_limit != 0 && len > size_limit {
            Err(FeedError::TooLarge(size_limit))
        } else {
            Ok(())
        },
        None => Ok(()),
    }
}

/// Adds a chunk of a response body to what was read so far, unless that
/// takes the body over the limit.
pub fn append_chunk(body: &mut Vec<u8>, chunk: &[u8], size_limit: u64) -> (r: Result<
    (),
    FeedError,
>)
    ensures
        r is Err <==> over_limit((old(body)@.len() + chunk@.len()) as int, size_limit),
        r is Err ==> r->Err_0 == FeedError::TooLarge(size_limit) && final(body)@ == old(body)@,
        r is Ok ==> final(body)@ == old(body)@ + chunk@,
{
    let total: u128 = body.len() as u128 + chunk.len() as u128;
    if size_limit != 0 && total > size_limit as u128 {
        return Err(FeedError::TooLarge(size_limit));
    }
    body.extend_from_slice(chunk);
    Ok(())
}

/// Whether `s` ends with `suffix`.
pub open spec fn spec_ends_with(s: Seq<char>, suffix: Seq<char>) -> bool {
    occurs_at(s, suffix, s.len() - suffix.len())
}

/// An upper-case letter of ASCII in lower case; any other character as it
/// is.
pub open spec fn lower(c: char) -> char {
    if 'A' <= c <= 'Z' {
        ((c as u8 + 32) as u8) as char
    } else {
        c
    }
}

/// A text with its ASCII letters in lower case.
pub open spec fn lowered(s: Seq<char>) -> Seq<char> {
    s.map_values(|c: char| lower(c))
}

/// The end of the part that begins at `from`: the position of the next
/// semicolon, or the length of the text.
pub open spec fn part_end(s: Seq<char>, from: int) -> int
    decreases s.len() - from,
{
    if from < 0 || from >= s.len() || s[from] == ';' {
        from
    } else {
        part_end(s, from + 1)
    }
}

/// Whether a part of a content type names JSON: without the white space
/// around it and in lower case it reads `application/json`.
pub open spec fn part_is_json(part: Seq<char>) -> bool {
    lowered(trimmed(part)) == "application/json"@
}

/// Whether one of the parts of a content type from `from` on, which
/// semicolons divide, names JSON.
pub open spec fn any_part_is_json(s: Seq<char>, from: int) -> bool
    decreases s.len() - from,
{
    if from < 0 || from > s.len() {
        false
    } else {
        let end = part_end(s, from);
        if part_is_json(s.subrange(from, end)) {
            true
        } else if from <= end < s.len() {
            any_part_is_json(s, end + 1)
        } else {
            false
        }
    }
}

/// Whether a content type names JSON, whatever its parameters, its case
/// and the white space in it.
pub open spec fn spec_content_type_is_json(value: Seq<char>) -> bool {
    any_part_is_json(value, 0)
}

fn lower_char(c: char) -> (r: char)
    ensures
        r == lower(c),
{
    if 'A' <= c && c <= 'Z' {
        ((c as u8) + 32) as char
    } else {
        c
    }
}

/// Whether the part of `chars` from `from` up to `to` names JSON.
fn part_names_json(chars: &Vec<char>, from: usize, to: usize) -> (r: bool)
    requires
        from <= to <= chars.len(),
    ensures
        r == part_is_json(chars@.subrange(from as int, to as int)),
{
    let ghost part = chars@.subrange(from as int, to as int);
    let mut a: usize = from;
    while a < to && is_space_char(chars[a])
        invariant
            from <= a <= to <= chars.len(),
            part == chars@.subrange(from as int, to as int),
            crate::text::trim_start(part) == crate::text::trim_start(
                chars@.subrange(a as int, to as int),
            ),
        decreases to - a,
    {
        proof {
            let cur = chars@.subrange(a as int, to as int);
            assert(cur[0] == chars[a as int]);
            assert(cur.skip(1) =~= chars@.subrange(a + 1, to as int));
        }
        a = a + 1;
    }
    let mut b: usize = to;
    proof {
        let cur = chars@.subrange(a as int, to as int);
        if a < to {
            assert(cur[0] == chars[a as int]);
        }
        assert(crate::text::trim_start(cur) == cur);
    }
    while a < b && is_space_char(chars[b - 1])
        invariant
            from <= a <= b <= to <= chars.len(),
            part == chars@.subrange(from as int, to as int),
            trimmed(part) == crate::text::trim_end(chars@.subrange(a as int, b as int)),
        decreases b - a,
    {
        proof {
            let cur = chars@.subrange(a as int, b as int);
            assert(cur.last() == chars[b - 1]);
            assert(cur.drop_last() =~= chars@.subrange(a as int, b - 1));
        }
        b = b - 1;
    }
    proof {
        let cur = chars@.subrange(a as int, b as int);
        if a < b {
            assert(cur.last() == chars[b - 1]);
        }
        assert(crate::text::trim_end(cur) == cur);
    }
    let wanted = chars_of("application/json");
    if b - a != wanted.len() {
        proof {
            assert(lowered(trimmed(part)).len() == b - a);
        }
        return false;
    }
    let mut i: usize = 0;
    while i < wanted.len()
        invariant
            i <= wanted.len(),
            from <= a <= b <= to <= chars.len(),
            b - a == wanted.len(),
            wanted@ == "application/json"@,
            part == chars@.subrange(from as int, to as int),
            trimmed(part) == chars@.subrange(a as int, b as int),
            forall|j: int| 0 <= j < i ==> lower(chars[a + j]) == wanted[j],
        decreases wanted.len() - i,
    {
        if lower_char(chars[a + i]) != wanted[i] {
            proof {
                assert(lowered(trimmed(part))[i as int] == lower(chars[a + i]));
                assert(lowered(trimmed(part)) != wanted@);
            }
            return false;
        }
        i = i + 1;
    }
    proof {
        assert(lowered(trimmed(part)) =~= wanted@);
    }
    true
}

/// Whether a content type names JSON.
pub fn content_type_is_json(value: &str) -> (r: bool)
    ensures
        r == spec_content_type_is_json(value@),
{
    let chars = chars_of(value);
    let mut from: usize = 0;
    loop
        invariant
            from <= chars.len(),
            chars@ == value@,
            any_part_is_json(chars@, from as int) == spec_content_type_is_json(value@),
        decreases chars.len() - from,
    {
        let mut end: usize = from;
        while end < chars.len() && chars[end] != ';'
            invariant
                from <= end <= chars.len(),
                part_end(chars@, end as int) == part_end(chars@, from as int),
            decreases chars.len() - end,
        {
            end = end + 1;
        }
        if part_names_json(&chars, from, end) {
            return true;
        }
        if end >= chars.len() {
            return false;
        }
        from = end + 1;
    }
}

/// Whether a response is read as a JSON feed: the address ends in `.json`
/// or the content type names JSON.
pub open spec fn spec_is_json_feed(url: Seq<char>, content_type: Option<Seq<char>>) -> bool {
    spec_ends_with(url, ".json"@) || (content_type is Some && spec_content_type_is_json(
        content_type->0,
    ))
}

/// Decides whether a response is read as a JSON feed.
pub fn is_json_feed(url: &str, content_type: Option<&str>) -> (r: bool)
    ensures
        r == spec_is_json_feed(
            url@,
            match content_type {
                Some(value) => Some(value@),
                None => None,
            },
        ),
{
    let chars = chars_of(url);
    let suffix = chars_of(".json");
    let ends = if suffix.len() <= chars.len() {
        matches_at(&chars, &suffix, chars.len() - suffix.len())
    } else {
        false
    };
    if ends {
        return true;
    }
    match content_type {
        Some(value) => content_type_is_json(value),
        None => false,
    }
}

/// The outcome of reading a body as an XML feed fetched from `url`: the
/// feed in canonical form, or the error of the parser.
pub open spec fn spec_read_feed(body: Seq<u8>, url: Seq<char>) -> Result<RssView, FeedErrorView> {
    match spec_parse(body) {
        Ok(rss) => Ok(canonical(rss, url)),
        Err(error) => Err(FeedErrorView::Parsing(error)),
    }
}

/// The view of a feed or a fetch error.
pub open spec fn fetch_result(r: Result<Rss, FeedError>) -> Result<RssView, FeedErrorView> {
    match r {
        Ok(rss) => Ok(rss@),
        Err(error) => Err(error@),
    }
}

/// Reads the body of a response as an XML feed and brings it into
/// canonical form for the address it came from.
pub fn read_feed_body(body: &[u8], url: &str) -> (r: Result<Rss, FeedError>)
    ensures
        fetch_result(r) == spec_read_feed(body@, url@),
{
    match parse(body) {
        Ok(rss) => Ok(fix_relative_url(rss, url)),
        Err(error) => Err(FeedError::Parsing(error)),
    }
}

} // verus!
