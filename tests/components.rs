use web_url::{Fragment, Param, Path, Query, Scheme};

#[test]
fn scheme_new() {
    let scheme: Scheme = Scheme::new("scheme");
    assert_eq!(scheme.as_str(), "scheme");
}

#[test]
fn scheme_is_valid() {
    let test_cases: &[(&str, bool, bool)] = &[
        ("", false, false),
        ("A", true, false),
        ("a", true, true),
        ("0", false, false),
        ("a~", false, false),
        ("az09+-.", true, true),
        ("azAZ09+-.", true, false),
    ];
    for (scheme, expected_ic_true, expected_ic_false) in test_cases {
        let result: bool = Scheme::is_valid(scheme, true);
        assert_eq!(result, *expected_ic_true, "scheme={}", scheme);

        let result: bool = Scheme::is_valid(scheme, false);
        assert_eq!(result, *expected_ic_false, "scheme={}", scheme);
    }
}

#[test]
fn scheme_display() {
    let scheme: Scheme = Scheme::new("scheme");
    assert_eq!(scheme.as_str(), "scheme");
    assert_eq!(scheme.as_ref(), "scheme");
    assert_eq!(scheme.to_string(), "scheme");
}

#[test]
fn path_new() {
    let path: Path = Path::new("/the/path");
    assert_eq!(path.as_str(), "/the/path");
}

#[test]
fn path_is_valid() {
    let test_cases: &[(&str, bool)] = &[
        ("", false),
        ("/", true),
        ("///", true),
        ("/azAZ09", true),
        ("/!/&/=/~/", true),
        ("/?", false),
        ("/#", false),
    ];
    for (path, expected) in test_cases {
        let result: bool = Path::is_valid(path);
        assert_eq!(result, *expected, "path={}", path);
    }
}

#[test]
fn path_display() {
    let path: Path = Path::new("/the/path");
    assert_eq!(path.as_str(), "/the/path");
    assert_eq!(path.as_ref(), "/the/path");
    assert_eq!(path.to_string(), "/the/path");
}

#[test]
fn iter_segments() {
    let path: Path = Path::new("/");
    let result: Vec<&str> = path.iter_segments();
    let expected: Vec<&str> = vec![""];
    assert_eq!(result, expected);

    let path: Path = Path::new("/the/path");
    let result: Vec<&str> = path.iter_segments();
    let expected: Vec<&str> = vec!["the", "path"];
    assert_eq!(result, expected);

    let path: Path = Path::new("/the/path/");
    let result: Vec<&str> = path.iter_segments();
    let expected: Vec<&str> = vec!["the", "path", ""];
    assert_eq!(result, expected)
}

#[test]
fn path_default_and_try_from() {
    assert_eq!(Path::default().as_str(), "/");
    assert_eq!(Path::try_from("/a/b").unwrap().as_str(), "/a/b");
    assert_eq!(Path::try_from("a/b"), Err(web_url::Error::InvalidPath));
}

#[test]
fn query_new() {
    let query: Query = Query::new("?the&query=params");
    assert_eq!(query.as_str(), "?the&query=params");
}

#[test]
fn query_is_valid() {
    let test_cases: &[(&str, bool)] = &[
        ("", false),
        ("?", true),
        ("?#", false),
        ("?&/=!@$%^&*()", true),
        ("?azAZ09", true),
    ];
    for (query, expected) in test_cases {
        let result: bool = Query::is_valid(query);
        assert_eq!(result, *expected, "query={}", query);
    }
}

#[test]
fn query_display() {
    let query: Query = Query::new("?the&query=params");
    assert_eq!(query.as_str(), "?the&query=params");
    assert_eq!(query.as_ref(), "?the&query=params");
    assert_eq!(query.to_string(), "?the&query=params");
}

#[test]
fn iter_params() {
    let query: Query = Query::new("?");
    let result: Vec<Param> = query.iter();
    assert_eq!(result, vec![Param::new("", None)]);

    let query: Query = Query::new("?&");
    let result: Vec<Param> = query.iter();
    assert_eq!(result, vec![Param::new("", None), Param::new("", None)]);

    let query: Query = Query::new("?the&query=params");
    let result: Vec<Param> = query.iter();
    assert_eq!(
        result,
        vec![Param::new("the", None), Param::new("query", Some("params"))]
    );
}

#[test]
fn query_try_from() {
    assert_eq!(Query::try_from("?a=b").unwrap().as_str(), "?a=b");
    assert_eq!(Query::try_from("a=b"), Err(web_url::Error::InvalidQuery));
    assert_eq!(Query::try_from("?a#b"), Err(web_url::Error::InvalidQuery));
}

#[test]
fn param_new() {
    let param: Param = Param::new("name", Some("value"));
    assert_eq!(param.name(), "name");
    assert_eq!(param.value(), Some("value"));
}

#[test]
fn from_str() {
    let param: Param = Param::from_str("name");
    assert_eq!(param.name(), "name");
    assert_eq!(param.value(), None);

    let param: Param = Param::from_str("name=");
    assert_eq!(param.name(), "name");
    assert_eq!(param.value(), Some(""));

    let param: Param = Param::from_str("name=value");
    assert_eq!(param.name(), "name");
    assert_eq!(param.value(), Some("value"));
}

#[test]
fn param_properties() {
    let param: Param = Param::new("name", Some("value"));
    assert_eq!(param.name(), "name");
    assert_eq!(param.value(), Some("value"));

    let param: Param = Param::new("name", None);
    assert_eq!(param.name(), "name");
    assert_eq!(param.value(), None);
}

#[test]
fn param_display() {
    let param: Param = Param::new("name", Some("value"));
    assert_eq!(param.to_string(), "name=value");

    let param: Param = Param::new("name", None);
    assert_eq!(param.to_string(), "name");
}

#[test]
fn param_try_from() {
    let param: Param = Param::try_from("a=b=c").unwrap();
    assert_eq!(param.name(), "a");
    assert_eq!(param.value(), Some("b=c"));
    assert_eq!(Param::try_from("a&b"), Err(web_url::Error::InvalidParam));
    assert_eq!(Param::try_from("a=b#c"), Err(web_url::Error::InvalidParam));
    assert_eq!(Param::try_from("a b"), Err(web_url::Error::InvalidParam));
    assert!(Param::is_valid_name("name"));
    assert!(!Param::is_valid_name("na=me"));
    assert!(Param::is_valid_value("va=lue"));
    assert!(!Param::is_valid_value("va&lue"));
}

#[test]
fn fragment_new() {
    let fragment: Fragment = Fragment::new("#the-fragment");
    assert_eq!(fragment.as_str(), "#the-fragment");
}

#[test]
fn fragment_is_valid() {
    let test_cases: &[(&str, bool)] = &[
        ("", false),
        ("#", true),
        ("###", true),
        ("#azAZ09", true),
        ("#!/&/=/~/", true),
        ("#?", true),
        ("#!", true),
        ("# ", false),
        ("# x", false),
    ];
    for (fragment, expected) in test_cases {
        let result: bool = Fragment::is_valid(fragment);
        assert_eq!(result, *expected, "fragment={}", fragment);
    }
}

#[test]
fn fragment_display() {
    let fragment: Fragment = Fragment::new("#the-fragment");
    assert_eq!(fragment.as_str(), "#the-fragment");
    assert_eq!(fragment.as_ref(), "#the-fragment");
    assert_eq!(fragment.to_string(), "#the-fragment");
}

#[test]
fn fragment_without_hash_and_default() {
    let fragment: Fragment = Fragment::try_from("#top").unwrap();
    assert_eq!(fragment.fragment(), "top");
    assert_eq!(Fragment::default().as_str(), "#");
    assert_eq!(Fragment::try_from("top"), Err(web_url::Error::InvalidFragment));
}
