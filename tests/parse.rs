use address::{IPAddress, IPv4Address, IPv6Address};

use web_url::parse::{
    parse_fragment, parse_host, parse_ip_and_validate_domain, parse_path, parse_port,
    parse_pre_path, parse_query, parse_scheme_len, Error, PrePath,
};
use web_url::{Path, Query};

#[test]
fn fn_get_scheme_len() {
    let test_cases: &[(&str, Option<(usize, &str)>)] = &[
        ("", None),
        ("s:", None),
        ("s:/", None),
        ("s:/x", None),
        ("s:x/", None),
        ("!://", None),
        ("://", None),
        ("s://", Some((1, ""))),
        ("s://rest", Some((1, "rest"))),
    ];
    for (s, expected) in test_cases {
        let result: Option<(usize, &str)> = parse_scheme_len(s).ok();
        assert_eq!(result, *expected);
    }
}

#[test]
fn host_fn_extract_host() {
    let test_cases: &[(&str, (&str, &str))] = &[
        ("", ("", "")),
        ("host", ("host", "")),
        ("host/", ("host", "/")),
        ("host/rest", ("host", "/rest")),
        ("host:port/rest", ("host", ":port/rest")),
        ("[host:port/rest", ("[host", ":port/rest")),
        ("[host:port]/rest", ("[host:port]", "/rest")),
        ("[host:port]", ("[host:port]", "")),
        ("[host:port]80", ("[host", ":port]80")),
        ("host:", ("host", ":")),
    ];
    for (s, expected) in test_cases {
        let result: (&str, &str) = parse_host(s);
        assert_eq!(result, *expected, "s={}", s);
    }
}

#[test]
fn fn_parse_ip() {
    let test_cases: &[(&str, Result<Option<IPAddress>, Error>)] = &[
        ("", Err(Error::InvalidHost)),
        ("[::1", Err(Error::InvalidHost)),
        ("[127.0.0.1]", Err(Error::InvalidHost)),
        ("[::1]", Ok(Some(IPv6Address::LOCALHOST.to_ip()))),
        ("!", Err(Error::InvalidHost)),
        ("127.0.0.1", Ok(Some(IPv4Address::LOCALHOST.to_ip()))),
        ("localhost", Ok(None)),
        ("LocalHost", Ok(None)),
        ("Local!Host", Err(Error::InvalidHost)),
    ];
    for (host, expected) in test_cases {
        let result: Result<Option<IPAddress>, Error> = parse_ip_and_validate_domain(host);
        assert_eq!(result, *expected, "host={}", *host);
    }
}

#[test]
fn port_fn_extract_port() {
    let test_cases: &[(&str, Result<(Option<u16>, &str), Error>)] = &[
        ("", Ok((None, ""))),
        ("anything", Ok((None, "anything"))),
        (":invalid", Err(Error::InvalidPort)),
        (":invalid/", Err(Error::InvalidPort)),
        (":80", Ok((Some(80), ""))),
        (":80/", Ok((Some(80), "/"))),
        (":80?", Err(Error::InvalidPort)),
        (":80#", Err(Error::InvalidPort)),
        (":80 ", Err(Error::InvalidPort)),
    ];
    for (s, expected) in test_cases {
        let result: Result<(Option<u16>, &str), Error> = parse_port(s);
        assert_eq!(result, *expected, "s={}", s);
    }
}

#[test]
fn port_bounds() {
    assert_eq!(parse_port(":0"), Ok((Some(0), "")));
    assert_eq!(parse_port(":65535/x"), Ok((Some(65535), "/x")));
    assert_eq!(parse_port(":0080"), Ok((Some(80), "")));
    assert_eq!(parse_port(":65536"), Err(Error::InvalidPort));
    assert_eq!(parse_port(":"), Err(Error::InvalidPort));
    assert_eq!(parse_port(":/"), Err(Error::InvalidPort));
}

#[test]
fn fn_parse_pre_path() {
    let test_cases: &[(&str, Result<PrePath, Error>)] = &[
        ("scheme:/", Err(Error::InvalidScheme)),
        ("!://", Err(Error::InvalidScheme)),
        ("scheme://", Err(Error::InvalidHost)),
        (
            "scheme://host",
            Ok(PrePath {
                scheme_len: 6,
                host_len: 4,
                ip: None,
                port: None,
                port_len: 0,
            }),
        ),
        (
            "scheme://127.0.0.1",
            Ok(PrePath {
                scheme_len: 6,
                host_len: 9,
                ip: Some(IPv4Address::LOCALHOST.to_ip()),
                port: None,
                port_len: 0,
            }),
        ),
        ("scheme://::1", Err(Error::InvalidHost)),
        (
            "scheme://[::1]",
            Ok(PrePath {
                scheme_len: 6,
                host_len: 5,
                ip: Some(IPv6Address::LOCALHOST.to_ip()),
                port: None,
                port_len: 0,
            }),
        ),
        (
            "scheme://[::1]:80",
            Ok(PrePath {
                scheme_len: 6,
                host_len: 5,
                ip: Some(IPv6Address::LOCALHOST.to_ip()),
                port: Some(80),
                port_len: 3,
            }),
        ),
        (
            "scheme://[::1]:80/the/path",
            Ok(PrePath {
                scheme_len: 6,
                host_len: 5,
                ip: Some(IPv6Address::LOCALHOST.to_ip()),
                port: Some(80),
                port_len: 3,
            }),
        ),
    ];
    for (input, expected) in test_cases {
        let result: Result<PrePath, Error> = parse_pre_path(input);
        assert_eq!(result, *expected, "input={}", input);
    }
}

#[test]
fn pre_path_len_and_lowercase() {
    let pre_path: PrePath = parse_pre_path("HTTP://Example.COM:8080/Path").unwrap();
    assert_eq!(pre_path.len(), 23);
    assert!(!pre_path.is_empty());
    let mut url: String = "HTTP://Example.COM:8080/Path".to_string();
    pre_path.make_lowercase(&mut url);
    assert_eq!(url, "http://example.com:8080/Path");
}

#[test]
fn fn_parse_path() {
    let test_cases: &[(&str, Option<(&str, &str)>)] = &[
        ("", None),
        ("no/starting/slash", None),
        ("/", Some(("/", ""))),
        ("/the/path", Some(("/the/path", ""))),
        ("/the/path?query", Some(("/the/path", "?query"))),
        ("/the/path#fragment", Some(("/the/path", "#fragment"))),
    ];
    for (s, expected) in test_cases {
        let expected: Option<(Path, &str)> = expected.map(|(p, s)| (Path::new(p), s));
        let result: Option<(Path, &str)> = parse_path(s).ok();
        assert_eq!(result, expected, "s={}", s);
    }
}

#[test]
fn fn_parse_query() {
    let test_cases: &[(&str, Result<(Option<Query>, &str), Error>)] = &[
        ("", Ok((None, ""))),
        ("no&start=q", Ok((None, "no&start=q"))),
        ("?", Ok((Some(Query::new("?")), ""))),
        ("?the&url=query", Ok((Some(Query::new("?the&url=query")), ""))),
        ("#fragment", Ok((None, "#fragment"))),
        ("?#fragment", Ok((Some(Query::new("?")), "#fragment"))),
        (
            "?the&url=query#fragment",
            Ok((Some(Query::new("?the&url=query")), "#fragment")),
        ),
    ];
    for (s, expected) in test_cases {
        let result: Result<(Option<Query>, &str), Error> = parse_query(s);
        assert_eq!(result, *expected, "s={}", *s);
    }
}

#[test]
fn fn_parse_fragment() {
    let test_cases: &[(&str, Result<Option<&str>, Error>)] = &[
        ("", Ok(None)),
        ("fragment", Err(Error::InvalidFragment)),
        ("#", Ok(Some("#"))),
        ("#fragment", Ok(Some("#fragment"))),
        ("#\x00", Err(Error::InvalidFragment)),
        ("#你好", Err(Error::InvalidFragment)),
        ("#fragment ", Err(Error::InvalidFragment)),
    ];
    for (fragment, expected) in test_cases {
        let result: Result<Option<&str>, Error> = parse_fragment(fragment);
        assert_eq!(result, *expected);
    }
}

#[test]
fn path_plus_lengths() {
    let result = web_url::parse::parse_path_plus("/a/b?x=1&y#frag").unwrap();
    assert_eq!(result.path_len, 4);
    assert_eq!(result.query_len, 6);
    assert_eq!(result.fragment_len, 5);
    assert_eq!(web_url::parse::parse_path_plus("/a?b#c d"), Err(Error::InvalidFragment));
    assert_eq!(web_url::parse::parse_path_plus("/a b"), Err(Error::InvalidPath));
    assert_eq!(web_url::parse::parse_path_plus("/a?b c"), Err(Error::InvalidQuery));
}

#[test]
fn error_messages() {
    assert_eq!(Error::InvalidScheme.message(), "invalid scheme");
    assert_eq!(Error::InvalidHost.message(), "invalid host");
    assert_eq!(Error::InvalidPort.message(), "invalid port");
    assert_eq!(Error::InvalidPath.message(), "invalid path");
    assert_eq!(Error::InvalidQuery.message(), "invalid query");
    assert_eq!(Error::InvalidParam.message(), "invalid query parameter");
    assert_eq!(Error::InvalidFragment.message(), "invalid fragment");
    assert_eq!(Error::UrlTooLong.message(), "URL too long (>= 4 GiB)");
}
