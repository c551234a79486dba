use sinkmap::util::{parse_raw_headers, scheme_is_web, split_header, url_is_ok, HeaderOutcome};
use sinkmap::Config;

#[test]
fn unix_paths_are_not_urls() {
    assert!(!url_is_ok("foo/bar/baz.js.map"));
    assert!(!url_is_ok("./foo/bar/baz.js.map"));
    assert!(!url_is_ok("../foo/bar/baz.js.map"));
    assert!(!url_is_ok("/usr/share/baz.js.map"));
}

#[test]
fn windows_paths_are_not_urls() {
    assert!(!url_is_ok("foo\\baz.js.map"));
    assert!(!url_is_ok(".\\foo\\baz.js.map"));
    assert!(!url_is_ok("..\\foo\\baz.js.map"));
    assert!(!url_is_ok("C:\\Windows\\Tasks\\baz.js.map"));
}

#[test]
fn unusable_urls() {
    assert!(!url_is_ok("http//example.com/foo"));
    assert!(!url_is_ok("rust@http://example.com/foo"));
    assert!(!url_is_ok("rust@https://example.com/foo"));
    assert!(!url_is_ok("https::example.com/foo"));
    assert!(!url_is_ok("ftp:/example.com/foo"));
    assert!(!url_is_ok("ftp://example.com/foo"));
}

#[test]
fn valid_urls() {
    assert!(url_is_ok("http://example.com/foo"));
    assert!(url_is_ok("http://localhost/foo.js.map"));
    assert!(url_is_ok("http://example.com/foo.js.map"));
    assert!(url_is_ok("https://example.com/foo"));
    assert!(url_is_ok("https://example.com/foo.js.map"));
}

#[test]
fn the_scheme_is_read_in_lower_case() {
    assert!(url_is_ok("HTTP://example.com/foo"));
    assert!(url_is_ok("HttpS://example.com/foo"));
}

#[test]
fn only_http_and_https_are_web_schemes() {
    assert!(scheme_is_web("http"));
    assert!(scheme_is_web("https"));
    assert!(!scheme_is_web("ftp"));
    assert!(!scheme_is_web("file"));
    assert!(!scheme_is_web(""));
    assert!(!scheme_is_web("httpss"));
    assert!(!scheme_is_web("HTTP"));
}

#[test]
fn a_config_knows_where_its_source_map_is() {
    let config = |uri: &str| Config { uri: uri.to_string(), proxy: None, headers: vec![] };
    assert!(config("https://example.com/app.js.map").is_remote());
    assert!(!config("dist/app.js.map").is_remote());
    assert!(!config("file:///dist/app.js.map").is_remote());
}

#[test]
fn a_header_is_split_at_its_first_colon() {
    let pair = |name: &str, value: &str| Some((name.to_string(), value.to_string()));
    assert_eq!(split_header("Name: value"), pair("Name", " value"));
    assert_eq!(split_header("a:b:c"), pair("a", "b:c"));
    assert_eq!(split_header(":"), pair("", ""));
    assert_eq!(split_header("x:"), pair("x", ""));
    assert_eq!(split_header(":y"), pair("", "y"));
    assert_eq!(split_header("\u{e9}t\u{e9}:\u{65e5}"), pair("\u{e9}t\u{e9}", "\u{65e5}"));
    assert_eq!(split_header("no separator"), None);
    assert_eq!(split_header(""), None);
}

#[test]
fn well_formed_headers_are_stored() {
    let raw = vec!["X-Test: 1".to_string(), "Accept:text/html".to_string()];
    let headers = parse_raw_headers(&raw);
    assert_eq!(headers.outcomes, vec![HeaderOutcome::Stored, HeaderOutcome::Stored]);
    assert_eq!(headers.map.len(), 2);
    assert_eq!(headers.map.get("x-test").unwrap(), " 1");
    assert_eq!(headers.map.get("accept").unwrap(), "text/html");
}

#[test]
fn malformed_headers_are_left_out_one_by_one() {
    let raw = vec![
        "no separator".to_string(),
        "Bad Name: x".to_string(),
        "X-Ok: fine".to_string(),
        "X-Bad: line\nbreak".to_string(),
        ": empty name".to_string(),
    ];
    let headers = parse_raw_headers(&raw);
    assert_eq!(
        headers.outcomes,
        vec![
            HeaderOutcome::NoSeparator,
            HeaderOutcome::InvalidName,
            HeaderOutcome::Stored,
            HeaderOutcome::InvalidValue,
            HeaderOutcome::InvalidName,
        ]
    );
    assert_eq!(headers.map.len(), 1);
    assert_eq!(headers.map.get("x-ok").unwrap(), " fine");
}

#[test]
fn the_later_of_two_headers_of_one_name_stays() {
    let raw = vec!["X-Test:1".to_string(), "x-test:2".to_string()];
    let headers = parse_raw_headers(&raw);
    assert_eq!(headers.outcomes, vec![HeaderOutcome::Stored, HeaderOutcome::Stored]);
    assert_eq!(headers.map.len(), 1);
    assert_eq!(headers.map.get("X-Test").unwrap(), "2");
}

#[test]
fn no_raw_headers_give_an_empty_map() {
    let headers = parse_raw_headers(&[]);
    assert!(headers.outcomes.is_empty());
    assert!(headers.map.is_empty());
}

#[test]
fn a_config_builds_the_headers_of_its_request() {
    let config = Config {
        uri: "https://example.com/app.js.map".to_string(),
        proxy: None,
        headers: vec!["Authorization: Bearer abc".to_string(), "broken".to_string()],
    };
    let headers = config.request_headers();
    assert_eq!(headers.outcomes, vec![HeaderOutcome::Stored, HeaderOutcome::NoSeparator]);
    assert_eq!(headers.map.get("authorization").unwrap(), " Bearer abc");
}

fn outcome_of(raw: &str) -> HeaderOutcome {
    let headers = parse_raw_headers(&[raw.to_string()]);
    assert_eq!(headers.outcomes.len(), 1);
    assert_eq!(headers.map.len(), usize::from(headers.outcomes[0] == HeaderOutcome::Stored));
    headers.outcomes[0]
}

fn is_name_char(c: char) -> bool {
    c.is_ascii_alphanumeric() || "!#$%&'*+-.^_`|~".contains(c)
}

fn is_value_char(c: char) -> bool {
    c == '\t' || (c >= ' ' && c != '\u{7f}')
}

fn sample_chars() -> Vec<char> {
    let mut chars: Vec<char> = (0u8..=0x7f).map(char::from).collect();
    chars.extend(['\u{80}', '\u{ff}', '\u{e9}', '\u{65e5}', '\u{1f600}', '\u{10ffff}']);
    chars
}

#[test]
fn a_malformed_header_does_not_stop_those_after_it() {
    let raw = vec!["X-A:1".to_string(), "no-colon".to_string(), "X-B:2".to_string()];
    let headers = parse_raw_headers(&raw);
    assert_eq!(
        headers.outcomes,
        vec![HeaderOutcome::Stored, HeaderOutcome::NoSeparator, HeaderOutcome::Stored]
    );
    assert_eq!(headers.map.len(), 2);
    assert_eq!(headers.map["x-a"], "1");
    assert_eq!(headers.map["x-b"], "2");
}

#[test]
fn a_colon_in_the_value_stays_in_the_value() {
    let headers = parse_raw_headers(&["X-Url:http://a/b".to_string()]);
    assert_eq!(headers.outcomes, vec![HeaderOutcome::Stored]);
    assert_eq!(headers.map.len(), 1);
    assert_eq!(headers.map["x-url"], "http://a/b");
}

#[test]
fn a_header_name_is_made_of_name_characters() {
    for c in sample_chars() {
        if c == ':' {
            continue;
        }
        let expected =
            if is_name_char(c) { HeaderOutcome::Stored } else { HeaderOutcome::InvalidName };
        assert_eq!(outcome_of(&format!("{c}:v")), expected, "name {c:?}");
        assert_eq!(outcome_of(&format!("a{c}b:v")), expected, "name a{c:?}b");
    }
}

#[test]
fn a_header_value_is_made_of_value_characters() {
    for c in sample_chars() {
        let expected =
            if is_value_char(c) { HeaderOutcome::Stored } else { HeaderOutcome::InvalidValue };
        assert_eq!(outcome_of(&format!("x:{c}")), expected, "value {c:?}");
        assert_eq!(outcome_of(&format!("x:a{c}b")), expected, "value a{c:?}b");
    }
    assert_eq!(outcome_of("x:"), HeaderOutcome::Stored);
}

#[test]
fn a_header_name_has_a_length_from_one_to_the_limit() {
    assert_eq!(outcome_of(":v"), HeaderOutcome::InvalidName);
    for length in [1, 2, 63, 64, 65, 66, 1000, 65534, 65535] {
        assert_eq!(outcome_of(&format!("{}:v", "n".repeat(length))), HeaderOutcome::Stored);
    }
    for length in [65536, 65537, 100000] {
        assert_eq!(outcome_of(&format!("{}:v", "n".repeat(length))), HeaderOutcome::InvalidName);
    }
    let long_and_wrong = format!("{} :v", "n".repeat(100));
    assert_eq!(outcome_of(&long_and_wrong), HeaderOutcome::InvalidName);
}

#[test]
fn a_header_is_kept_under_its_name_in_lower_case() {
    for name in [
        "ABCDEFGHIJKLMNOPQRSTUVWXYZ",
        "abcdefghijklmnopqrstuvwxyz",
        "Content-Type",
        "X-0123456789",
        "!#$%&'*+-.^_`|~",
        "MiXeD_Case.Name",
        &"LongName".repeat(20),
    ] {
        let headers = parse_raw_headers(&[format!("{name}:value of {name}")]);
        assert_eq!(headers.outcomes, vec![HeaderOutcome::Stored]);
        let kept: Vec<String> = headers.map.keys().map(|key| key.as_str().to_string()).collect();
        assert_eq!(kept, vec![name.to_ascii_lowercase()]);
        assert_eq!(
            headers.map[name.to_ascii_lowercase().as_str()].as_bytes(),
            format!("value of {name}").as_bytes()
        );
    }
}

#[test]
fn a_value_is_kept_as_it_is_written() {
    let headers = parse_raw_headers(&["x: \t\u{e9}\u{65e5} ~ ".to_string()]);
    assert_eq!(headers.outcomes, vec![HeaderOutcome::Stored]);
    assert_eq!(headers.map["x"].as_bytes(), " \t\u{e9}\u{65e5} ~ ".as_bytes());
}

#[test]
fn a_map_with_room_takes_every_well_formed_header() {
    let raw: Vec<String> = (0..6554).map(|i| format!("X-Header-{i}: {i}")).collect();
    let headers = parse_raw_headers(&raw);
    assert_eq!(headers.outcomes, vec![HeaderOutcome::Stored; 6554]);
    assert_eq!(headers.map.len(), 6554);
    assert_eq!(headers.map["x-header-6553"], " 6553");
}

#[test]
fn only_a_header_that_is_left_out_has_a_complaint() {
    assert_eq!(HeaderOutcome::Stored.complaint(), None);
    assert_eq!(
        HeaderOutcome::NoSeparator.complaint(),
        Some("failed to split header string with delimiter ':'")
    );
    assert_eq!(HeaderOutcome::InvalidName.complaint(), Some("invalid HTTP header name"));
    assert_eq!(HeaderOutcome::InvalidValue.complaint(), Some("failed to parse header value"));
    assert_eq!(HeaderOutcome::MapFull.complaint(), Some("the header map is full"));
    let raw = vec!["A:1".to_string(), "b".to_string(), "C:3".to_string(), "d e:4".to_string()];
    let complaints: Vec<bool> =
        parse_raw_headers(&raw).outcomes.iter().map(|o| o.complaint().is_some()).collect();
    assert_eq!(complaints, vec![false, true, false, true]);
}
