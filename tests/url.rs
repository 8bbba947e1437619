use std::str::FromStr;

use address::{DomainRef, IPv4Address, IPv6Address};

use web_url::parse::Error;
use web_url::{Fragment, Host, Param, WebUrl};

#[test]
fn set_fragment() {
    let mut url: WebUrl = WebUrl::from_str("https://example.com").unwrap();

    url.set_fragment(Some(Fragment::try_from("#fragment").unwrap()));
    assert_eq!(url.as_str(), "https://example.com/#fragment");
}

#[test]
fn add_param() {
    let mut url: WebUrl = WebUrl::from_str("https://example.com").unwrap();
    url.set_fragment(Some(Fragment::try_from("#fragment").unwrap()));

    url.add_param(Param::try_from("one").unwrap());
    assert_eq!("https://example.com/?one#fragment", url.as_str());

    url.add_param(Param::try_from("two=3").unwrap());
    assert_eq!("https://example.com/?one&two=3#fragment", url.as_str());
}

#[test]
fn web_url_properties() {
    let url: WebUrl = WebUrl::from_str("scheme://localhost:80/path?query#fragment").unwrap();
    assert_eq!(url.scheme().as_str(), "scheme");
    assert_eq!(url.host_ref().to_string(), DomainRef::LOCALHOST.to_string());
    assert_eq!(url.port().unwrap(), 80);
    assert_eq!(url.path().as_str(), "/path");
    assert_eq!(url.query().unwrap().as_str(), "?query");
    assert_eq!(url.fragment().unwrap().as_str(), "#fragment");

    let url: WebUrl = WebUrl::from_str("scheme://127.0.0.1/").unwrap();
    assert_eq!(url.scheme().as_str(), "scheme");
    assert_eq!(url.host_ref(), IPv4Address::LOCALHOST.to_host().to_ref());
    assert_eq!(url.port(), None);
    assert_eq!(url.path().as_str(), "/");
    assert_eq!(url.query(), None);
    assert_eq!(url.fragment(), None);
}

#[test]
fn web_url_display() {
    let url: WebUrl = WebUrl::from_str("scheme://127.0.0.1/").unwrap();
    assert_eq!(url.as_str(), "scheme://127.0.0.1/");
    assert_eq!(url.as_ref(), "scheme://127.0.0.1/");
    assert_eq!(url.len(), 19);
    assert!(!url.is_empty());
}

#[test]
fn round_trip_lowercases_scheme_and_host_only() {
    let url: WebUrl = WebUrl::parse("HtTp://WWW.Example.COM:8080/A/b?C=d#E").unwrap();
    assert_eq!(url.as_str(), "http://www.example.com:8080/A/b?C=d#E");
    let url: WebUrl = WebUrl::parse("S://HOST").unwrap();
    assert_eq!(url.as_str(), "s://host/");
}

#[test]
fn parsed_offsets_are_ordered() {
    let url: WebUrl = WebUrl::parse("s://host:80/p?q#f").unwrap();
    assert_eq!(url.scheme().as_str(), "s");
    assert_eq!(url.path().as_str(), "/p");
    assert_eq!(url.query().unwrap().as_str(), "?q");
    assert_eq!(url.fragment().unwrap().as_str(), "#f");
    assert_eq!(url.len(), "s://host:80/p?q#f".len());
}

#[test]
fn clear_twice_is_clear_once() {
    let mut url: WebUrl = WebUrl::parse("s://host/p?a=1&b#frag").unwrap();
    url.clear_fragment();
    assert_eq!(url.as_str(), "s://host/p?a=1&b");
    url.clear_fragment();
    assert_eq!(url.as_str(), "s://host/p?a=1&b");

    let mut url: WebUrl = WebUrl::parse("s://host/p?a=1&b#frag").unwrap();
    url.clear_query();
    assert_eq!(url.as_str(), "s://host/p#frag");
    assert_eq!(url.query(), None);
    url.clear_query();
    assert_eq!(url.as_str(), "s://host/p#frag");
    assert_eq!(url.fragment().unwrap().as_str(), "#frag");
}

#[test]
fn add_param_then_clear_query() {
    let mut url: WebUrl = WebUrl::parse("s://host/p#frag").unwrap();
    url.add_param(Param::new("k", Some("v")));
    assert_eq!(url.query().unwrap().as_str(), "?k=v");
    url.clear_query();
    assert_eq!(url.query(), None);
    assert_eq!(url.fragment().unwrap().as_str(), "#frag");
    assert_eq!(url.as_str(), "s://host/p#frag");
}

#[test]
fn case_of_scheme_and_host_is_ignored() {
    let upper: WebUrl = WebUrl::parse("S://HOST/").unwrap();
    let lower: WebUrl = WebUrl::parse("s://host/").unwrap();
    assert_eq!(upper, lower);

    let upper: WebUrl = WebUrl::parse("s://host/PATH").unwrap();
    let lower: WebUrl = WebUrl::parse("s://host/path").unwrap();
    assert_ne!(upper, lower);
}

#[test]
fn boundary_scenarios() {
    let url: WebUrl = WebUrl::parse("s://host").unwrap();
    assert_eq!(url.path().as_str(), "/");

    let url: WebUrl = WebUrl::parse("s://host:80/p?q#f").unwrap();
    assert_eq!(url.scheme().as_str(), "s");
    assert_eq!(url.host(), Host::Domain("host"));
    assert_eq!(url.host_ref().to_string(), "host");
    assert_eq!(url.port(), Some(80));
    assert_eq!(url.path().as_str(), "/p");
    assert_eq!(url.query().unwrap().as_str(), "?q");
    assert_eq!(url.fragment().unwrap().as_str(), "#f");

    let url: WebUrl = WebUrl::parse("s://[::1]:80/").unwrap();
    assert!(url.host().is_ip());
    assert_eq!(url.host(), Host::Address(IPv6Address::LOCALHOST.to_ip()));
    assert_eq!(url.as_str(), "s://[::1]:80/");
    assert_eq!(url.port(), Some(80));

    assert_eq!(WebUrl::parse("s://host/p?你好"), Err(Error::InvalidQuery));
    assert_eq!(WebUrl::parse("s://"), Err(Error::InvalidHost));
    assert_eq!(WebUrl::parse(""), Err(Error::InvalidScheme));
}

#[test]
fn each_error_kind() {
    assert_eq!(WebUrl::parse("1s://host/"), Err(Error::InvalidScheme));
    assert_eq!(WebUrl::parse("s:/host/"), Err(Error::InvalidScheme));
    assert_eq!(WebUrl::parse("s://ho st/"), Err(Error::InvalidHost));
    assert_eq!(WebUrl::parse("s://host:99999/"), Err(Error::InvalidPort));
    assert_eq!(WebUrl::parse("s://host:8a/"), Err(Error::InvalidPort));
    assert_eq!(WebUrl::parse("s://host/a b"), Err(Error::InvalidPath));
    assert_eq!(WebUrl::parse("s://host/a?b c"), Err(Error::InvalidQuery));
    assert_eq!(WebUrl::parse("s://host/a#b c"), Err(Error::InvalidFragment));
    assert_eq!(WebUrl::parse("s://host:80?q"), Err(Error::InvalidPort));
}

#[test]
fn parse_owned_hands_back_the_string() {
    let result = WebUrl::try_from("s://host/a b".to_string());
    assert_eq!(result.unwrap_err(), (Error::InvalidPath, "s://host/a b".to_string()));

    let result = WebUrl::parse_owned("S://Host".to_string());
    assert_eq!(result.unwrap().as_str(), "s://host/");
}

#[test]
fn host_literals() {
    let url: WebUrl = WebUrl::parse("s://127.0.0.1:8/").unwrap();
    assert_eq!(url.host(), Host::Address(IPv4Address::LOCALHOST.to_ip()));
    assert_eq!(url.host_ref(), IPv4Address::LOCALHOST.to_host_ref());
    let url: WebUrl = WebUrl::parse("s://Example.Com/").unwrap();
    assert!(url.host().is_domain());
    assert_eq!(url.host(), Host::Domain("example.com"));
}

#[test]
fn with_builders() {
    let url: WebUrl = WebUrl::parse("s://host/p").unwrap();
    let url: WebUrl = url
        .with_param(Param::new("a", None))
        .with_fragment(Some(Fragment::new("#x")));
    assert_eq!(url.as_str(), "s://host/p?a#x");
    let url: WebUrl = url.with_fragment(None);
    assert_eq!(url.as_str(), "s://host/p?a");
    let copy: WebUrl = url.clone();
    assert_eq!(copy, url);
}

#[test]
fn equal_urls_hash_alike() {
    let mut set: std::collections::HashSet<WebUrl> = std::collections::HashSet::new();
    set.insert(WebUrl::parse("S://Host/p").unwrap());
    set.insert(WebUrl::parse("s://host/p").unwrap());
    set.insert(WebUrl::parse("s://host/P").unwrap());
    assert_eq!(set.len(), 2);
}

#[test]
fn host_survives_mutation() {
    let mut url: WebUrl = WebUrl::parse("s://[::1]:8/p?a#f").unwrap();
    url.add_param(Param::new("b", None));
    url.clear_query();
    url.set_fragment(None);
    assert_eq!(url.host(), Host::Address(IPv6Address::LOCALHOST.to_ip()));
    assert_eq!(url.as_str(), "s://[::1]:8/p");
}
