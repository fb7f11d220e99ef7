use std::time::Duration;

use x8::config::structs::Config;
use x8::config::utils::{
    add_default_headers, check_workers, convert_to_string_if_some, custom_parameters,
    data_type_of, default_custom_parameter_keys, default_custom_parameter_values,
    effective_verbose, guessed_data_type, http_version_of, mimic_browser_headers, parse_header,
    normalized_urls, url_lines, parse_request, proxy_setting, set_header_value, ConfigError, HeaderError,
    RequestFileError,
};
use x8::diff::{diff, Context};
use x8::network::request::{Request, RequestDefaults, RequestError};
use x8::network::response::{HttpVersion, Response};
use x8::network::utils::{DataType, InjectionPlace};
use x8::runner::chunks::{chunks_of, next_round_chunks, Search};
use x8::runner::output::{ParseOutputs, RunnerOutput};
use x8::runner::runner::{
    after_guess_response, after_stability_check, check_reflections, check_test_mode, default_max,
    has_new_parameters, increase_probe_sizes, increased_max, max_of_default, may_increase_max,
    merge_unique, next_custom_batch, page_kept, recursion_parameters, remaining_parameters,
    remove_troublesome_headers, user_parameters, worker_count, GuessStep, Learning, RunError,
};
use x8::runner::utils::{
    assignments, confirmed, fold_url, FoundParameter, ParamPatterns, Parameters, ReasonKind,
    Stable,
};
use x8::utils::{color_id, error_line, info_line, random_line};

fn strings(v: &[&str]) -> Vec<String> {
    v.iter().map(|s| s.to_string()).collect()
}

fn pair(k: &str, v: &str) -> (String, String) {
    (k.to_string(), v.to_string())
}

fn strip_colors(s: &str) -> String {
    let mut out = String::new();
    let mut chars = s.chars().peekable();
    while let Some(c) = chars.next() {
        if c == '\x1b' {
            for d in chars.by_ref() {
                if d == 'm' {
                    break;
                }
            }
        } else {
            out.push(c);
        }
    }
    out
}

fn config(output_format: &str) -> Config {
    Config {
        urls: strings(&["https://example.com/"]),
        methods: strings(&["GET"]),
        wordlist: String::new(),
        custom_parameters: Vec::new(),
        proxy: String::new(),
        replay_proxy: String::new(),
        replay_once: false,
        output_file: String::new(),
        save_responses: String::new(),
        output_format: output_format.to_string(),
        append: false,
        remove_empty: false,
        force: false,
        strict: false,
        disable_progress_bar: false,
        progress_bar_len: 26,
        follow_redirects: false,
        test: false,
        verbose: 1,
        learn_requests_count: 9,
        concurrency: 1,
        workers: 1,
        timeout: 15,
        recursion_depth: 0,
        verify: false,
        reflected_only: false,
        http_version: None,
        template: None,
        joiner: None,
        encode: false,
        disable_custom_parameters: false,
        one_worker_per_host: false,
        invert: false,
        headers_discovery: false,
        body: String::new(),
        delay: Duration::from_millis(0),
        custom_headers: Vec::new(),
        data_type: None,
        max: None,
        disable_colors: false,
        disable_trustdns: false,
        check_binary: false,
    }
}

fn response(code: u16, text: &str) -> Response<'static> {
    Response {
        time: 0,
        code,
        headers: Vec::new(),
        text: text.to_string(),
        reflected_parameters: Vec::new(),
        request: None,
        http_version: Some(HttpVersion::Http11),
    }
}

#[test]
fn diff_of_identical_texts_has_no_hunks() {
    assert_eq!(diff("a\nb\nc", "a\nb\nc").unwrap(), Vec::<String>::new());
    assert_eq!(diff("", "").unwrap(), Vec::<String>::new());
    assert_eq!(diff("a\r\nb", "a\nb").unwrap(), Vec::<String>::new());
}

#[test]
fn diff_of_different_lines_is_not_empty() {
    assert!(!diff("a", "b").unwrap().is_empty());
    assert!(!diff("a\nb", "a").unwrap().is_empty());
    assert!(!diff("", "x").unwrap().is_empty());
}

#[test]
fn diff_reports_a_hunk_header() {
    assert_eq!(diff("a\nb\nc", "a\nx\nc").unwrap(), vec!["-1,1 +1,1".to_string()]);
}

#[test]
fn compare_of_identical_responses_shows_nothing() {
    let initial = response(200, "line one\nline two");
    let same = response(200, "line one\nline two");
    let (code_diff, diffs) = same.compare(&initial, &Vec::new()).unwrap();
    assert!(!code_diff);
    assert!(diffs.is_empty());
}

#[test]
fn compare_reports_a_changed_code() {
    let initial = response(200, "body");
    let other = response(404, "body");
    let (code_diff, diffs) = other.compare(&initial, &Vec::new()).unwrap();
    assert!(code_diff);
    assert!(!diffs.is_empty());
}

#[test]
fn parse_request_reads_a_raw_request() {
    let raw = "POST /path HTTP/1.1\nHost: example.com:8080\nContent-Type: application/json\nContent-Length: 5\nX-A: b: c\n\n{\"a\":1}\n\nmore";
    let (methods, urls, headers, body, data_type, version) =
        parse_request(raw, "https", None, None).unwrap();
    assert_eq!(methods, strings(&["POST"]));
    assert_eq!(urls, strings(&["https://example.com:8080/path"]));
    assert_eq!(
        headers,
        vec![
            pair("Host", "example.com:8080"),
            pair("Content-Type", "application/json"),
            pair("X-A", "b: c"),
        ]
    );
    assert_eq!(body, "{\"a\":1}\r\nmore");
    assert_eq!(data_type, Some(DataType::Json));
    assert_eq!(version, Some(HttpVersion::Http11));
}

#[test]
fn parse_request_default_ports_and_http2() {
    let raw = "GET / HTTP/2\nHost: example.com\n";
    let (_, urls, headers, body, _, version) = parse_request(raw, "http", None, None).unwrap();
    assert_eq!(urls, strings(&["http://example.com:80/"]));
    assert!(headers.is_empty());
    assert_eq!(body, "");
    assert_eq!(version, Some(HttpVersion::Http2));
    let (_, urls, _, _, _, _) =
        parse_request("GET / HTTP/1.1\nHost: example.com:1\n", "https", Some(8443), None).unwrap();
    assert_eq!(urls, strings(&["https://example.com:8443/"]));
}

#[test]
fn parse_request_with_a_separator() {
    let raw = "GET /a HTTP/1.1|Host: h||x=1";
    let (_, urls, headers, body, _, _) = parse_request(raw, "https", None, Some("|")).unwrap();
    assert_eq!(urls, strings(&["https://h:443/a"]));
    assert_eq!(headers, vec![pair("Host", "h")]);
    assert_eq!(body, "x=1");
    let raw = "GET /b HTTP/1.1\nHost: h\n\nbody";
    let (_, _, _, body, _, _) = parse_request(raw, "https", None, Some("\\n")).unwrap();
    assert_eq!(body, "body");
}

#[test]
fn parse_request_errors() {
    assert_eq!(parse_request("", "https", None, None).unwrap_err(), RequestFileError::NoFirstLine);
    assert_eq!(parse_request("GET", "https", None, None).unwrap_err(), RequestFileError::NoPath);
    assert_eq!(
        parse_request("GET /", "https", None, None).unwrap_err(),
        RequestFileError::NoHttpVersion
    );
    assert_eq!(
        parse_request("GET / HTTP/1.1\nbroken", "https", None, None).unwrap_err(),
        RequestFileError::NoHeaderValue
    );
    assert_eq!(
        parse_request("GET / HTTP/1.1\nHost: a:xyz", "https", None, None).unwrap_err(),
        RequestFileError::InvalidPort
    );
}

#[test]
fn default_headers_are_added_unless_present() {
    let headers = add_default_headers(vec![pair("X-User-Agent", "a")]);
    assert_eq!(
        headers,
        vec![
            pair("Accept", "*/*"),
            pair("Accept-Encoding", "gzip, deflate"),
            pair("X-User-Agent", "a"),
        ]
    );
    let browser = mimic_browser_headers(Vec::new());
    assert_eq!(browser.len(), 9);
    assert_eq!(browser[4], pair("Dnt", "1"));
}

#[test]
fn header_arguments() {
    assert_eq!(parse_header("one: two:three").unwrap(), pair("one", "two:three"));
    assert_eq!(parse_header("none").unwrap_err(), HeaderError::MissingValue);
    let mut hs = vec![pair("a", "1"), pair("b", "2")];
    set_header_value(&mut hs, "a".to_string(), "3".to_string());
    set_header_value(&mut hs, "c".to_string(), "4".to_string());
    assert_eq!(hs, vec![pair("a", "3"), pair("b", "2"), pair("c", "4")]);
}

#[test]
fn command_line_values() {
    assert_eq!(data_type_of(Some("json")), Ok(Some(DataType::Json)));
    assert_eq!(data_type_of(Some("urlencoded")), Ok(Some(DataType::Urlencoded)));
    assert_eq!(data_type_of(Some("xml")), Err(ConfigError::IncorrectDataType));
    assert_eq!(data_type_of(None), Ok(None));
    assert_eq!(http_version_of("2"), Some(HttpVersion::Http2));
    assert_eq!(http_version_of("1.1"), Some(HttpVersion::Http11));
    assert_eq!(http_version_of("3"), None);
    assert_eq!(
        guessed_data_type(None, &vec![pair("content-TYPE", "application/json")]),
        Some(DataType::ProbablyJson)
    );
    assert_eq!(guessed_data_type(Some(DataType::Json), &Vec::new()), Some(DataType::Json));
    assert_eq!(effective_verbose(2, 3, 2), 1);
    assert_eq!(effective_verbose(2, 1, 2), 2);
    assert_eq!(proxy_setting(true, Some("http://p")), "http://localhost:8080");
    assert_eq!(proxy_setting(false, Some("http://p")), "http://p");
    assert_eq!(check_workers(1, true, false), Err(ConfigError::PointlessOneWorkerPerHost));
    assert_eq!(check_workers(1, true, true), Ok(()));
    assert_eq!(convert_to_string_if_some(Some("a")), Some("a".to_string()));
    assert_eq!(convert_to_string_if_some(None), None);
    assert_eq!(default_custom_parameter_keys().len(), 11);
    assert_eq!(default_custom_parameter_values()[2], "false");
}

#[test]
fn url_files_are_read_line_by_line() {
    assert_eq!(
        url_lines("https://a.com/\r\nhttps://b.com/x\n\nlast"),
        strings(&["https://a.com/", "https://b.com/x", "", "last"])
    );
    assert_eq!(url_lines(""), Vec::<String>::new());
}

#[test]
fn urls_are_normalized() {
    assert_eq!(
        normalized_urls(&strings(&["https://example.com", "http://a.b:8080/x?y=1"])),
        Ok(strings(&["https://example.com/", "http://a.b:8080/x?y=1"]))
    );
    assert_eq!(
        normalized_urls(&strings(&["https://example.com", "not a url", "also not"])),
        Err(ConfigError::InvalidUrl(1))
    );
    assert_eq!(normalized_urls(&Vec::new()), Ok(Vec::new()));
}

#[test]
fn found_parameter_name_with_value() {
    let p = FoundParameter::new("admin=true=1", &strings(&["a", "b"]), 200, 10, ReasonKind::Code);
    assert_eq!(p.name, "admin");
    assert_eq!(p.value, Some("true".to_string()));
    assert_eq!(p.diffs, "a|b");
    assert_eq!(p.get(), pair("admin", "true"));
    let q = FoundParameter::new("debug", &[], 200, 10, ReasonKind::Text);
    assert_eq!(q.value, None);
    let (name, value) = q.get();
    assert_eq!(name, "debug");
    assert_eq!(value.len(), 6);
    assert_eq!(strip_colors(&p.get_colored()), "admin=true");
    assert_eq!(strip_colors(&q.get_colored()), "debug");
}

#[test]
fn process_keeps_one_parameter_per_name() {
    let found = vec![
        FoundParameter::new("debug", &[], 200, 1, ReasonKind::Text),
        FoundParameter::new("Debug", &[], 200, 1, ReasonKind::Text),
        FoundParameter::new("debug=true", &[], 200, 1, ReasonKind::Text),
    ];
    let processed = found.process(InjectionPlace::Path);
    assert_eq!(processed.len(), 1);
    assert_eq!(processed[0].name, "debug");
    assert_eq!(processed[0].value, None);
}

#[test]
fn process_drops_valued_twin_of_a_plain_name() {
    let found = vec![
        FoundParameter::new("admin=true", &[], 200, 0, ReasonKind::Code),
        FoundParameter::new("admin", &[], 200, 0, ReasonKind::Code),
    ];
    let processed = found.process(InjectionPlace::Path);
    assert_eq!(processed.len(), 1);
    assert_eq!(processed[0].name, "admin");
    assert_eq!(processed[0].value, None);

    let found = vec![
        FoundParameter::new("admin=true", &[], 200, 0, ReasonKind::Code),
        FoundParameter::new("admin", &[], 500, 0, ReasonKind::Code),
    ];
    let processed = found.process(InjectionPlace::Path);
    assert_eq!(processed.len(), 1);
    assert_eq!(processed[0].value, Some("true".to_string()));
}

#[test]
fn process_drops_names_holding_assignments() {
    let raw = |name: &str| FoundParameter {
        name: name.to_string(),
        value: None,
        diffs: String::new(),
        status: 200,
        size: 0,
        reason_kind: ReasonKind::Code,
    };
    let processed = vec![raw("admin"), raw("admin=true")].process(InjectionPlace::Path);
    assert_eq!(processed.len(), 1);
    assert_eq!(processed[0].name, "admin");
    let processed = vec![raw("a=b")].process(InjectionPlace::Path);
    assert!(processed.is_empty());
}

#[test]
fn process_capitalizes_headers() {
    let found = vec![
        FoundParameter::new("x-forwarded-for", &[], 200, 1, ReasonKind::Text),
        FoundParameter::new("HOST", &[], 200, 1, ReasonKind::Text),
        FoundParameter::new("Host", &[], 200, 1, ReasonKind::Text),
    ];
    let processed = found.process(InjectionPlace::Headers);
    let names: Vec<String> = processed.iter().map(|p| p.name.clone()).collect();
    assert_eq!(names, strings(&["X-forwarded-for", "HOST"]));
}

#[test]
fn parameter_lookups() {
    let found = vec![
        FoundParameter::new("Admin", &[], 200, 1, ReasonKind::Code),
        FoundParameter::new("id", &[], 404, 1, ReasonKind::Text),
    ];
    assert!(found.contains_name("Admin"));
    assert!(!found.contains_name("admin"));
    assert!(found.contains_name_case_insensitive("ADMIN"));
    let el = FoundParameter::new("ID", &[], 404, 1, ReasonKind::Text);
    assert!(!found.contains_element(&el));
    assert!(found.contains_element_case_insensitive(&el));
    let other = FoundParameter::new("id", &[], 200, 1, ReasonKind::Text);
    assert!(!found.contains_element(&other));
    let accented = vec![FoundParameter::new("ÀB", &[], 200, 1, ReasonKind::Text)];
    assert!(accented.contains_name_case_insensitive("àb"));
}

#[test]
fn name_patterns() {
    let names = |p: &str| -> Vec<String> {
        ParamPatterns::get_patterns(p).into_iter().map(|x| x.turn_into_string()).collect()
    };
    assert_eq!(names("_id"), strings(&["_anything", "_anything", "anything_id"]));
    assert_eq!(names("page2"), strings(&["page1"]));
    assert_eq!(names("a!b"), strings(&["anyth!ng"]));
    assert_eq!(names("x-y"), strings(&["x-anything", "anything-y"]));
    assert_eq!(ParamPatterns::HasNumbersPostfix("id".to_string(), 3).turn_into_string(), "id111");
}

#[test]
fn urls_are_folded() {
    let short = fold_url("https://a.io", 36);
    assert_eq!(short, format!("https://a.io{}", " ".repeat(26)));
    let long = "https://example.com/a/very/long/path/that/goes/on/and/on";
    let folded = fold_url(long, 36);
    assert_eq!(folded, format!("..{}", &long[long.len() - 36..]));
}

#[test]
fn learning_the_page() {
    let mut l = Learning::new();
    assert_eq!(
        l.observe(26 * 1024 * 1024, false, 0, false, Vec::new()),
        Err(RunError::PageTooLarge)
    );
    assert_eq!(l.observe(10, false, 1, false, strings(&["x"])), Ok(()));
    assert!(!l.stable.reflections);
    assert_eq!(l.diffs, strings(&["x"]));
    assert_eq!(l.observe(10, false, 0, true, strings(&["y"])), Err(RunError::UnstableCode));
    l.finish(1);
    assert!(!l.stable.body);
    assert_eq!(check_reflections(true, &l.stable), Err(RunError::UnstableReflections));
    let stable = Stable::default();
    assert!(!stable.body && !stable.reflections);
}

#[test]
fn number_of_parameters_per_request() {
    assert_eq!(default_max(None, InjectionPlace::Body), Some(-512));
    assert_eq!(default_max(None, InjectionPlace::Headers), Some(-64));
    assert_eq!(default_max(None, InjectionPlace::Path), None);
    assert_eq!(default_max(Some(10), InjectionPlace::Path), Some(10));
    assert_eq!(max_of_default(-128), 128);
    assert_eq!(max_of_default(7), 7);
    assert!(may_increase_max(-128));
    assert!(!may_increase_max(-64));
    assert_eq!(increase_probe_sizes(128), (192, 256));
    assert_eq!(increased_max(128, true, true), 256);
    assert_eq!(increased_max(128, true, false), 192);
    assert_eq!(increased_max(128, false, true), 128);
    assert!(page_kept(false, 3, false));
    assert!(!page_kept(false, 3, true));
    assert_eq!(after_guess_response(128, true), GuessStep::Accept(-128));
    assert_eq!(after_guess_response(128, false), GuessStep::CheckStability);
    assert_eq!(after_stability_check(8, true), GuessStep::Retry(4));
    assert_eq!(after_stability_check(7, true), GuessStep::Fail(RunError::MaxNotFound));
    assert_eq!(after_stability_check(128, false), GuessStep::Fail(RunError::BecameUnstable));
}

#[test]
fn fixed_value_batches_end() {
    let mut custom = custom_parameters(&strings(&["admin", "debug", "admin"]), &strings(&["1", "0"]));
    assert_eq!(custom.len(), 2);
    let found = vec![FoundParameter::new("debug", &[], 200, 1, ReasonKind::Text)];
    assert_eq!(next_custom_batch(&mut custom, &found), strings(&["admin=0"]));
    assert_eq!(next_custom_batch(&mut custom, &found), strings(&["admin=1"]));
    assert_eq!(next_custom_batch(&mut custom, &found), Vec::<String>::new());
    assert_eq!(custom[1].1, strings(&["1", "0"]));
}

#[test]
fn recursion_helpers() {
    let found = vec![
        FoundParameter::new("a", &[], 200, 1, ReasonKind::Text),
        FoundParameter::new("b=1", &[], 404, 1, ReasonKind::Code),
        FoundParameter::new("c=2", &[], 200, 1, ReasonKind::Reflected),
    ];
    assert_eq!(
        remaining_parameters(&strings(&["a", "x", "b"]), &found),
        strings(&["x"])
    );
    let added = recursion_parameters(&found, &vec![pair("a", "z")]);
    assert_eq!(added, vec![pair("c", "2")]);
    let new_found = vec![FoundParameter::new("d", &[], 200, 1, ReasonKind::Text)];
    assert!(has_new_parameters(&found, &new_found));
    assert!(!has_new_parameters(&found, &found));
    assert_eq!(
        user_parameters(&vec![pair("a", "1"), pair("u", "2")], &found),
        vec![pair("u", "2")]
    );
    assert_eq!(assignments(&vec![FoundParameter::new("k=v", &[], 200, 1, ReasonKind::Text)]), strings(&["k=v"]));
    assert!(confirmed(false, 0, 1, true));
    assert!(!confirmed(false, 0, 1, false));
}

#[test]
fn run_setup() {
    assert_eq!(check_test_mode(2, 1), Err(RunError::TestNeedsOneUrl));
    assert_eq!(check_test_mode(1, 2), Err(RunError::TestNeedsOneMethod));
    assert_eq!(check_test_mode(1, 1), Ok(()));
    assert_eq!(worker_count(0, 3, 2), 6);
    assert_eq!(worker_count(4, 3, 2), 4);
    assert_eq!(
        remove_troublesome_headers(strings(&["Host", "x", "Content-Length", "CONTENT-LENGTH", "y"])),
        strings(&["x", "y"])
    );
    let mut params = strings(&["a"]);
    merge_unique(&mut params, &strings(&["b", "a", "b", "c"]));
    assert_eq!(params, strings(&["a", "b", "c"]));
}

#[test]
fn chunks_and_rounds() {
    let chunks = chunks_of(&strings(&["a", "b", "c"]), 2);
    assert_eq!(chunks, vec![strings(&["a", "b"]), strings(&["c"])]);
    let next = next_round_chunks(&vec![strings(&["a", "b", "c"]), strings(&["d"])]);
    assert_eq!(next, vec![strings(&["a", "b"]), strings(&["c"])]);
}

#[test]
fn chunk_outcomes() {
    let mut search = Search::new(Vec::new());
    assert!(search.after_reflections(&strings(&["p"]), Some("p".to_string()), false, 200, 10, false));
    assert_eq!(search.found.len(), 1);
    assert_eq!(search.found[0].reason_kind, ReasonKind::NotReflected);
    assert!(!search.after_reflections(&strings(&["a", "b"]), None, true, 200, 10, false));
    assert_eq!(search.remaining, vec![strings(&["a", "b"])]);
    assert!(!search.count_code_change(404));
    assert_eq!(search.green_lines, vec![("404".to_string(), 0)]);
    search.record_code_change(&strings(&["q"]), 200, 404, 5);
    assert_eq!(search.found[1].name, "q");
    assert_eq!(search.found[1].diffs, "200 -> 404");
    assert_eq!(search.after_code_stability_check(404, false), Err(RunError::BecameUnstable));
    search.after_body_change(true, &strings(&["r"]), &strings(&["d1", "d2"]), 200, 7, false);
    assert_eq!(search.found[2].name, "r");
    assert_eq!(search.found[2].diffs, "d1|d2");
    assert!(search.caused_before(&strings(&["d1", "d2"])));
    search.add_diffs(strings(&["d1"]));
    search.after_body_change(true, &strings(&["s", "t"]), &strings(&["d1", "d3"]), 200, 7, false);
    assert_eq!(search.remaining.len(), 2);
}

#[test]
fn output_formats() {
    let defaults = RequestDefaults::default();
    let initial = response(200, "héllo");
    let found = vec![FoundParameter::new("a=1", &[], 200, 1, ReasonKind::Text)];
    let mut out = RunnerOutput::new(&defaults, &initial, found);
    assert_eq!(out.url, "https://example.com/");
    assert_eq!(out.size, 6);
    out.prepare(&config("url"), &defaults);
    assert_eq!(out.query, "a=1");
    assert_eq!(out.parse(&config("url")), "https://example.com/?a=1");
    let standard = strip_colors(&out.parse(&config("standart")));
    assert_eq!(standard, "GET https://example.com/ % a=1");
    let outputs = vec![out];
    assert_eq!(outputs.parse_output(&config("json")), None);
    assert_eq!(
        outputs.parse_output(&config("standart")).map(|s| strip_colors(&s)),
        Some("GET https://example.com/ % a=1".to_string())
    );
}

#[test]
fn output_keeps_found_values() {
    let defaults = RequestDefaults::default();
    let initial = response(200, "page");
    let found = vec![
        FoundParameter::new("admin=true", &[], 200, 1, ReasonKind::Code),
        FoundParameter::new("debug", &[], 200, 1, ReasonKind::Text),
    ];
    let mut out = RunnerOutput::new(&defaults, &initial, found);
    out.prepare(&config("url"), &defaults);
    assert!(out.query.starts_with("admin=true&debug="));
    assert_eq!(out.query.len(), "admin=true&debug=".len() + 5);
    assert_eq!(out.request, "");
}

#[test]
fn context_lines_follow_the_hunk_header() {
    let ctx = Context {
        start: Some(5),
        data: strings(&[" a"]),
        changed: true,
        counter: 0,
        equaled: 2,
        removed: 3,
        inserted: 1,
    };
    assert_eq!(ctx.to_vec(4, 1), strings(&["-5,5 +2,3", " a"]));
    let unchanged = Context { changed: false, ..ctx };
    assert_eq!(unchanged.to_vec(4, 1), Vec::<String>::new());
    assert_eq!(Context::new().to_vec(0, 0), Vec::<String>::new());
}

#[test]
fn colored_lines() {
    assert_eq!(strip_colors(&color_id(14)), "14");
    assert_eq!(strip_colors(&info_line(3, "info", "msg")), "3 [info] msg");
    assert_eq!(strip_colors(&error_line("bad", Some("u"))), "[#] [u] bad");
    assert_eq!(strip_colors(&error_line("bad", None)), "[#] bad");
    let word = random_line(5);
    assert_eq!(word.len(), 5);
    assert!(word.chars().all(|c| c.is_ascii_lowercase() || c.is_ascii_digit()));
}

#[test]
fn found_messages() {
    let initial = response(200, "abc");
    let changed = response(404, "abcdef");
    let m = strip_colors(&changed.found_message(None, &initial, ReasonKind::Code, "p", None, None));
    assert_eq!(m, "p: code 200 -> 404");
    let m = strip_colors(&changed.found_message(
        Some(2),
        &initial,
        ReasonKind::Text,
        "p",
        Some("d"),
        Some("/tmp/x"),
    ));
    assert_eq!(m, "2) p: page 3 -> 6 (d) [saved to /tmp/x]");
    let m = strip_colors(&changed.notify_message(ReasonKind::Code, None));
    assert_eq!(m, "404 6");
}

#[test]
fn request_defaults_from_a_config() {
    let mut c = config("standart");
    c.body = "a=b".to_string();
    let d = RequestDefaults::from_config(&c, "POST", "https://example.com/x").unwrap();
    assert_eq!(d.injection_place, InjectionPlace::Body);
    assert_eq!(d.body, "a=b&%s");
    assert_eq!(
        RequestDefaults::from_config(&c, "GET", "not a url").unwrap_err(),
        RequestError::InvalidUrl
    );
}

#[test]
fn percent_encoded_query() {
    let mut l = RequestDefaults::default();
    l.encode = true;
    l.template = "{k}=a&b".to_string();
    let mut request = Request::new(&l, strings(&["x y"]));
    request.prepare(None);
    assert_eq!(request.make_query(), "x%20y%3Da%26b");
}

#[test]
fn page_words_become_parameter_names() {
    let page = response(
        200,
        "<input name=\"user_id\"><script>var token = 1; let x = {apiKey: 2}</script> 'abcd'",
    );
    let names = page.get_possible_parameters();
    assert_eq!(names, strings(&["abcd", "apiKey", "token", "user_id", "x"]));
}

#[test]
fn bodies_are_split_into_lines() {
    let mut html = response(200, "<a><b>");
    html.beautify_body();
    assert_eq!(html.text, "<a>\n<b>\n");
    let mut json = response(200, "{\"a\":1,\"b\":\"c\"}");
    json.beautify_body();
    assert_eq!(json.text, "{\"\na\":1,\"b\":\"c\"}\n");
    let mut list = response(200, "{\"x\":[1,2],\"y\":true,\"z\":3}");
    list.beautify_body();
    assert_eq!(list.text, "{\"\nx\":[1\n,2]\n,\"y\":true,\n\"z\":3}");
}

#[test]
fn colors_when_forced() {
    colored::control::set_override(true);
    let colored_id = color_id(14);
    colored::control::unset_override();
    assert!(colored_id.contains('\x1b'));
    assert_eq!(strip_colors(&colored_id), "14");
}

#[test]
fn query_in_the_url_keeps_its_parameters() {
    let defaults = RequestDefaults::new(
        "GET",
        "https://example.com/?something=1",
        Vec::new(),
        Duration::from_millis(0),
        None,
        None,
        false,
        None,
        false,
        false,
        "",
        false,
    )
    .unwrap();
    assert_eq!(defaults.path, "/?something=1&%s");
    let given = RequestDefaults::new(
        "GET",
        "https://4rt.one/?a=b&%s",
        Vec::new(),
        Duration::from_millis(0),
        None,
        None,
        false,
        None,
        false,
        false,
        "",
        false,
    )
    .unwrap();
    assert_eq!(given.path, "/?a=b&%s");
}
