use std::time::Duration;

use x8::network::request::{Request, RequestDefaults};
use x8::network::utils::{DataType, Headers, InjectionPlace};

#[test]
fn tests_query_creation() {
    let mut l = RequestDefaults::default();
    l.template = "{k}=payload".to_string();
    l.joiner = "&".to_string();
    let parameters = vec!["test1".to_string()];
    let mut request = Request::new(&l, parameters);
    request.prepare(None);

    assert_eq!(request.make_query(), "test1=payload");
}

#[test]
fn tests_request_defaults_generation() {
    let defaults = RequestDefaults::new(
        "GET",
        "https://example.com:8443/path",
        Vec::from([("X-Header".to_string(), "Value".to_string())]),
        Duration::from_millis(0),
        None,
        None,
        false,
        None,
        false,
        false,
        "",
        false,
    )
    .unwrap();

    assert_eq!(defaults.scheme, "https");
    assert_eq!(defaults.host, "example.com");
    assert_eq!(defaults.port, 8443);
    assert_eq!(defaults.path, "/path?%s");
    assert_eq!(defaults.custom_headers.get_value("X-Header").unwrap(), "Value");
    assert_eq!(defaults.template, "{k}={v}");
    assert_eq!(defaults.joiner, "&");
    assert_eq!(defaults.injection_place, InjectionPlace::Path);
}

#[test]
fn json_request_body_generation() {
    let defaults = RequestDefaults::new(
        "POST",
        "https://example.com:8443/path",
        Vec::from([("X-Header".to_string(), "Value".to_string())]),
        Duration::from_millis(0),
        None,
        None,
        false,
        None,
        false,
        false,
        "{\"something\":1}",
        false,
    )
    .unwrap();

    assert!(defaults.is_json);
    assert_eq!(defaults.body, "{\"something\":1, %s}");
    assert_eq!(defaults.template, "\"{k}\": {v}");
}

#[test]
fn requests_query_creation() {
    let mut l = RequestDefaults::default();
    l.template = "{k}=payload".to_string();
    l.joiner = "&".to_string();
    let parameters = vec!["test1".to_string()];
    let mut request = Request::new(&l, parameters);
    request.prepare(None);

    assert_eq!(request.make_query(), "test1=payload");
}

#[test]
fn requests_request_defaults_generation() {
    let defaults = RequestDefaults::from_parts(
        "GET",
        "https://example.com:8443/path",
        Vec::from([("X-Header".to_string(), "Value".to_string())]),
        Duration::from_millis(0),
        None,
        None,
        false,
        None,
        InjectionPlace::Path,
        "",
        false,
    )
    .unwrap();

    assert_eq!(defaults.scheme, "https");
    assert_eq!(defaults.host, "example.com");
    assert_eq!(defaults.port, 8443);
    assert_eq!(defaults.path, "/path?%s");
    assert_eq!(defaults.custom_headers.get_value("X-Header").unwrap(), "Value");
    assert_eq!(defaults.template, "{k}={v}");
    assert_eq!(defaults.joiner, "&");
    assert_eq!(defaults.injection_place, InjectionPlace::Path);
}

#[test]
fn request_body_generation() {
    let mut template = RequestDefaults::default();

    template.injection_place = InjectionPlace::Body;
    let defaults = template.recreate(Some(DataType::Json), None, None).unwrap();
    assert!(defaults.is_json);
    assert_eq!(defaults.body, "{%s}");
    assert_eq!(defaults.template, "\"{k}\": {v}");

    template.body = "{\"something\":1}".to_string();
    let defaults = template.recreate(None, None, None).unwrap();
    assert_eq!(defaults.body, "{\"something\":1, %s}");
    assert_eq!(defaults.template, "\"{k}\": {v}");

    template.body = String::new();
    let defaults = template.recreate(None, None, None).unwrap();
    assert_eq!(defaults.body, "%s");

    template.body = "a=b".to_string();
    let defaults = template.recreate(None, None, None).unwrap();
    assert_eq!(defaults.body, "a=b&%s");
}

#[test]
fn request_generation() {
    let mut template = RequestDefaults::default();

    let defaults = template.recreate(None, None, None).unwrap();
    assert_eq!(defaults.path, "/?%s");
    let params = vec!["param".to_string()];
    let mut request = Request::new(&defaults, params);
    request.prepare(None);
    assert!(request.path.starts_with("/?param="));
    assert!(request.url().starts_with("https://example.com:443/?param="));

    template.injection_place = InjectionPlace::Body;
    template.body = "{\"something\":[%s]}".to_string();
    let defaults = template.recreate(None, Some("\"{k}\""), Some(", ")).unwrap();
    let params = vec!["param1".to_string()];
    let mut request = Request::new(&defaults, params.clone());
    request.prepare(None);
    assert_eq!(request.body, "{\"something\":[\"param1\"]}");

    template.body = "<?xml version=\"1.0\" encoding=\"UTF-8\"?><note>%s</note>".to_string();
    let defaults = template.recreate(None, Some("<{k}>sth</{k}>"), Some("")).unwrap();
    let mut request = Request::new(&defaults, params);
    request.prepare(None);
    assert_eq!(
        request.body,
        "<?xml version=\"1.0\" encoding=\"UTF-8\"?><note><param1>sth</param1></note>"
    );
}
