//! Where a source map comes from: whether a location is a web address, and
//! the headers of the request that fetches it.

use reqwest::header::{HeaderMap, HeaderName, HeaderValue};
use vstd::prelude::*;
use vstd::string::*;

verus! {

/// The scheme of the URL that a text denotes, as `Url::parse` of the `url`
/// crate reads it: lower case, without the colon. `None` where the text is no
/// absolute URL.
pub uninterp spec fn url_scheme(text: Seq<char>) -> Option<Seq<char>>;

/// Calls `reqwest::Url::parse` and, where the text is a URL, `Url::scheme`.
#[verifier::external_body]
fn parse_scheme(text: &str) -> (scheme: Option<String>)
    ensures
        match scheme {
            Some(scheme) => url_scheme(text@) == Some(scheme@),
            None => url_scheme(text@) is None,
        },
{
    reqwest::Url::parse(text).ok().map(|url| url.scheme().to_owned())
}

/// Whether a scheme is one that a source map is fetched over.
pub open spec fn is_web_scheme(scheme: Seq<char>) -> bool {
    scheme == "http"@ || scheme == "https"@
}

/// Whether a location is fetched rather than read: it is a URL and its
/// scheme is `http` or `https`.
pub open spec fn is_web_url(uri: Seq<char>) -> bool {
    match url_scheme(uri) {
        Some(scheme) => is_web_scheme(scheme),
        None => false,
    }
}

/// Whether a scheme is `http` or `https`.
pub fn scheme_is_web(scheme: &str) -> (web: bool)
    ensures
        web == is_web_scheme(scheme@),
{
    let scheme = scheme.to_owned();
    scheme == "http".to_owned() || scheme == "https".to_owned()
}

/// Whether `uri` is the address of a source map on the web. Everything else,
/// a malformed URL too, is taken for a local path.
pub fn url_is_ok(uri: &str) -> (ok: bool)
    ensures
        ok == is_web_url(uri@),
{
    match parse_scheme(uri) {
        Some(scheme) => scheme_is_web(scheme.as_str()),
        None => false,
    }
}

#[verifier::external_type_specification]
#[verifier::external_body]
#[verifier::reject_recursive_types(T)]
pub struct ExHeaderMap<T>(HeaderMap<T>);

#[verifier::external_type_specification]
#[verifier::external_body]
pub struct ExHeaderValue(HeaderValue);

/// What a header map holds: for each header name in the map, in lower case,
/// the first value kept under it, as text.
pub uninterp spec fn header_entries(map: HeaderMap) -> Map<Seq<char>, Seq<char>>;

/// Whether `c` may stand in a header name: a letter, a digit, or one of
/// ``! # $ % & ' * + - . ^ _ ` | ~``.
pub open spec fn is_name_char(c: char) -> bool {
    ||| 'a' <= c <= 'z'
    ||| 'A' <= c <= 'Z'
    ||| '0' <= c <= '9'
    ||| c == '!' || c == '#' || c == '$' || c == '%' || c == '&' || c == '\'' || c == '*'
    ||| c == '+' || c == '-' || c == '.' || c == '^' || c == '_' || c == '`' || c == '|'
    ||| c == '~'
}

/// The longest header name, in characters.
pub const NAME_LIMIT: usize = 65535;

/// Whether a text is a header name, as `HeaderName::from_str` takes it: not
/// empty, no longer than the limit, and made of name characters.
pub open spec fn is_header_name(name: Seq<char>) -> bool {
    &&& 0 < name.len() <= NAME_LIMIT
    &&& forall|i: int| 0 <= i < name.len() ==> is_name_char(#[trigger] name[i])
}

/// A character in lower case: a letter from `A` to `Z` becomes the one from
/// `a` to `z`, every other character stays.
pub open spec fn lower(c: char) -> char {
    if 'A' <= c <= 'Z' {
        ((c as u8) + 32) as char
    } else {
        c
    }
}

/// The name under which a header is kept: the text in lower case.
pub open spec fn header_key(name: Seq<char>) -> Seq<char> {
    Seq::new(name.len(), |i: int| lower(name[i]))
}

/// Whether `c` may stand in a header value: a tab, or any character from the
/// space on but the delete character.
pub open spec fn is_value_char(c: char) -> bool {
    c == '\t' || (' ' <= c && c != '\u{7f}')
}

/// Whether a text is a header value, as `HeaderValue::from_str` takes it:
/// made of value characters.
pub open spec fn is_header_value(value: Seq<char>) -> bool {
    forall|i: int| 0 <= i < value.len() ==> is_value_char(#[trigger] value[i])
}

/// The number of names below which a header map takes every further header.
/// A map is full only once its table of 32768 slots would have to grow, and a
/// table grows at the earliest when five times its names reach the number of
/// its slots: with 6554 names.
pub const ASSURED_ROOM: usize = 6554;

/// What became of a raw header.
#[derive(Debug, Clone, Copy, PartialEq, Eq)]
pub enum HeaderOutcome {
    /// The header is in the map.
    Stored,
    /// The text holds no `:`.
    NoSeparator,
    /// What stands before the first `:` is no header name.
    InvalidName,
    /// What stands after the first `:` is no header value.
    InvalidValue,
    /// The map takes no more headers.
    MapFull,
}

impl HeaderOutcome {
    /// Why a header was left out, for a reader. `None` for one that is stored.
    pub open spec fn reason(self) -> Option<Seq<char>> {
        match self {
            HeaderOutcome::Stored => None,
            HeaderOutcome::NoSeparator => Some("failed to split header string with delimiter ':'"@),
            HeaderOutcome::InvalidName => Some("invalid HTTP header name"@),
            HeaderOutcome::InvalidValue => Some("failed to parse header value"@),
            HeaderOutcome::MapFull => Some("the header map is full"@),
        }
    }

    /// Says why a header was left out.
    pub fn complaint(&self) -> (text: Option<&'static str>)
        ensures
            match text {
                Some(text) => self.reason() == Some(text@),
                None => self.reason() is None,
            },
    {
        match self {
            HeaderOutcome::Stored => None,
            HeaderOutcome::NoSeparator => Some("failed to split header string with delimiter ':'"),
            HeaderOutcome::InvalidName => Some("invalid HTTP header name"),
            HeaderOutcome::InvalidValue => Some("failed to parse header value"),
            HeaderOutcome::MapFull => Some("the header map is full"),
        }
    }
}

/// Calls `HeaderMap::new`.
#[verifier::external_body]
fn empty_header_map() -> (headers: HeaderMap)
    ensures
        header_entries(headers) == (Map::<Seq<char>, Seq<char>>::empty()),
{
    HeaderMap::new()
}

/// Reads the name with `HeaderName::from_str` and the value with
/// `HeaderValue::from_str`, and hands both to `HeaderMap::try_insert`. A name
/// or a value that is refused leaves the map as it was, and so does a map that
/// is full. Otherwise the value stands under the name in lower case, in place
/// of what stood there. A map that holds fewer names than `ASSURED_ROOM` is
/// never full.
#[verifier::external_body]
fn store_header(map: &mut HeaderMap, name: &str, value: &str) -> (outcome: HeaderOutcome)
    ensures
        outcome is InvalidName <==> !is_header_name(name@),
        outcome is InvalidValue <==> (is_header_name(name@) && !is_header_value(value@)),
        !(outcome is NoSeparator),
        (header_entries(*old(map)).dom().finite() && header_entries(*old(map)).dom().len()
            < ASSURED_ROOM) ==> !(outcome is MapFull),
        outcome is Stored ==> header_entries(*final(map)) == header_entries(*old(map)).insert(
            header_key(name@),
            value@,
        ),
        !(outcome is Stored) ==> header_entries(*final(map)) == header_entries(*old(map)),
{
    let Ok(name) = name.parse::<HeaderName>() else {
        return HeaderOutcome::InvalidName;
    };
    let Ok(value) = HeaderValue::from_str(value) else {
        return HeaderOutcome::InvalidValue;
    };
    match map.try_insert(name, value) {
        Ok(_) => HeaderOutcome::Stored,
        Err(_) => HeaderOutcome::MapFull,
    }
}

/// The number of characters before the first `:` of a text: all of them where
/// it holds none.
pub open spec fn name_length(text: Seq<char>) -> nat
    decreases text.len(),
{
    if text.len() == 0 || text[0] == ':' {
        0
    } else {
        1 + name_length(text.drop_first())
    }
}

/// A raw header split at its first `:` into name and value. Nothing is
/// trimmed.
pub open spec fn split(text: Seq<char>) -> Option<(Seq<char>, Seq<char>)> {
    let at = name_length(text) as int;
    if at < text.len() {
        Some((name_of(text), value_of(text)))
    } else {
        None
    }
}

/// What stands before the first `:` of a raw header.
pub open spec fn name_of(text: Seq<char>) -> Seq<char> {
    text.take(name_length(text) as int)
}

/// What stands after the first `:` of a raw header.
pub open spec fn value_of(text: Seq<char>) -> Seq<char> {
    text.skip(name_length(text) as int + 1)
}

/// Where a text has no `:` before a position and one at it, its name ends
/// there.
pub proof fn lemma_name_length_is(text: Seq<char>, at: int)
    requires
        0 <= at <= text.len(),
        forall|i: int| 0 <= i < at ==> #[trigger] text[i] != ':',
        at < text.len() ==> text[at] == ':',
    ensures
        name_length(text) == at,
    decreases text.len(),
{
    if at > 0 {
        let rest = text.drop_first();
        assert forall|i: int| 0 <= i < at - 1 implies #[trigger] rest[i] != ':' by {
            assert(rest[i] == text[i + 1]);
        }
        assert(text[0] != ':');
        lemma_name_length_is(rest, at - 1);
    }
}

/// Splits a raw header at its first `:`.
pub fn split_header(raw: &str) -> (parts: Option<(String, String)>)
    ensures
        match parts {
            Some((name, value)) => split(raw@) == Some((name@, value@)),
            None => split(raw@) is None,
        },
{
    let len = raw.unicode_len();
    let mut at: usize = 0;
    while at < len
        invariant
            at <= len,
            len == raw@.len(),
            forall|i: int| 0 <= i < at ==> #[trigger] raw@[i] != ':',
        ensures
            at <= len,
            forall|i: int| 0 <= i < at ==> #[trigger] raw@[i] != ':',
            at < len ==> raw@[at as int] == ':',
        decreases len - at,
    {
        if raw.get_char(at) == ':' {
            break;
        }
        at = at + 1;
    }
    proof {
        lemma_name_length_is(raw@, at as int);
    }
    if at < len {
        let name = raw.substring_char(0, at).to_owned();
        let value = raw.substring_char(at + 1, len).to_owned();
        assert(name@ =~= raw@.take(at as int));
        assert(value@ =~= raw@.skip(at as int + 1));
        Some((name, value))
    } else {
        None
    }
}

/// What becomes of a raw header in a map that has room.
pub open spec fn verdict(raw: Seq<char>) -> HeaderOutcome {
    match split(raw) {
        None => HeaderOutcome::NoSeparator,
        Some((name, value)) => if !is_header_name(name) {
            HeaderOutcome::InvalidName
        } else if !is_header_value(value) {
            HeaderOutcome::InvalidValue
        } else {
            HeaderOutcome::Stored
        },
    }
}

/// Whether an outcome is one that a raw header can have: its verdict, or
/// `MapFull` in place of `Stored`.
pub open spec fn outcome_fits(raw: Seq<char>, outcome: HeaderOutcome) -> bool {
    outcome == verdict(raw) || (verdict(raw) is Stored && outcome is MapFull)
}

/// The verdicts of a list of raw headers.
pub open spec fn verdicts(raw: Seq<String>) -> Seq<HeaderOutcome> {
    Seq::new(raw.len(), |i: int| verdict(raw[i]@))
}

/// The map after the raw headers were gone through in order, each with its
/// outcome: a header that was stored stands under its name, in place of an
/// earlier one of that name.
pub open spec fn collected(raw: Seq<String>, outcomes: Seq<HeaderOutcome>) -> Map<
    Seq<char>,
    Seq<char>,
>
    decreases raw.len(),
{
    if raw.len() == 0 || outcomes.len() != raw.len() {
        Map::empty()
    } else {
        let before = collected(raw.drop_last(), outcomes.drop_last());
        if outcomes.last() is Stored {
            before.insert(header_key(name_of(raw.last()@)), value_of(raw.last()@))
        } else {
            before
        }
    }
}

/// The headers of a request, and what became of each raw header.
pub struct RequestHeaders {
    pub map: HeaderMap,
    /// For each raw header, at its position, whether it is in the map or why
    /// it is not.
    pub outcomes: Vec<HeaderOutcome>,
}

/// Puts one raw header into the map. A well-formed header is stored in a map
/// that has room; every other header leaves the map as it was.
fn add_header(map: &mut HeaderMap, raw: &str) -> (outcome: HeaderOutcome)
    ensures
        outcome_fits(raw@, outcome),
        (header_entries(*old(map)).dom().finite() && header_entries(*old(map)).dom().len()
            < ASSURED_ROOM) ==> outcome == verdict(raw@),
        header_entries(*final(map)) == if outcome is Stored {
            header_entries(*old(map)).insert(header_key(name_of(raw@)), value_of(raw@))
        } else {
            header_entries(*old(map))
        },
{
    match split_header(raw) {
        Some((name, value)) => store_header(map, name.as_str(), value.as_str()),
        None => HeaderOutcome::NoSeparator,
    }
}

/// Builds the headers of a request from raw `Name: value` texts. A malformed
/// one is left out and the others are kept; of two with one name the later
/// stays. Up to `ASSURED_ROOM` raw headers, every well-formed one is stored.
pub fn parse_raw_headers(raw: &[String]) -> (headers: RequestHeaders)
    ensures
        headers.outcomes@.len() == raw@.len(),
        forall|i: int|
            0 <= i < raw@.len() ==> outcome_fits(raw@[i]@, #[trigger] headers.outcomes@[i]),
        raw@.len() <= ASSURED_ROOM ==> headers.outcomes@ == verdicts(raw@),
        header_entries(headers.map) == collected(raw@, headers.outcomes@),
{
    let mut map = empty_header_map();
    let mut outcomes: Vec<HeaderOutcome> = Vec::new();
    let mut i: usize = 0;
    while i < raw.len()
        invariant
            i <= raw@.len(),
            outcomes@.len() == i,
            forall|j: int| 0 <= j < i ==> outcome_fits(raw@[j]@, #[trigger] outcomes@[j]),
            raw@.len() <= ASSURED_ROOM ==> forall|j: int|
                0 <= j < i ==> #[trigger] outcomes@[j] == verdict(raw@[j]@),
            header_entries(map).dom().finite(),
            header_entries(map).dom().len() <= i,
            header_entries(map) == collected(raw@.take(i as int), outcomes@),
        decreases raw@.len() - i,
    {
        let ghost before = outcomes@;
        let outcome = add_header(&mut map, raw[i].as_str());
        outcomes.push(outcome);
        proof {
            let seen = raw@.take(i as int + 1);
            assert(seen.drop_last() =~= raw@.take(i as int));
            assert(outcomes@.drop_last() =~= before);
            assert(seen.last() == raw@[i as int]);
        }
        i = i + 1;
    }
    assert(raw@.take(i as int) =~= raw@);
    assert(raw@.len() <= ASSURED_ROOM ==> outcomes@ =~= verdicts(raw@));
    RequestHeaders { map, outcomes }
}

} // verus!
