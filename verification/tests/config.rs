use castellan::config::{
    anchor_regex, parse_json_list, Config, ConfigError, JsonListError, PatternSet,
};

fn set() -> PatternSet {
    PatternSet::parse(
        "
            # comment
            api.anthropic.com
            .sentry.io
            *.gallery.vsassets.io
            re:^[a-z0-9-]+\\.pkg\\.dev$
            ",
    )
    .unwrap()
}

fn config_error(text: &str) -> ConfigError {
    match Config::parse(text) {
        Ok(_) => panic!("accepted: {}", text),
        Err(e) => e,
    }
}

fn list_error(line: &str) -> JsonListError {
    match parse_json_list(line) {
        Ok(_) => panic!("accepted: {}", line),
        Err(e) => e,
    }
}

#[test]
fn exact_match() {
    let s = set();
    assert!(s.is_allowed("api.anthropic.com"));
    assert!(s.is_allowed("API.anthropic.com.")); // case + trailing dot
    assert!(!s.is_allowed("evil.anthropic.com"));
}

#[test]
fn suffix_match() {
    let s = set();
    assert!(s.is_allowed("sentry.io")); // bare apex
    assert!(s.is_allowed("o123.ingest.sentry.io"));
    assert!(!s.is_allowed("notsentry.io"));
    assert!(!s.is_allowed("sentry.io.evil.com"));
}

#[test]
fn wildcard_match() {
    let s = set();
    assert!(s.is_allowed("anthropic.gallery.vsassets.io"));
    assert!(s.is_allowed("a.b.gallery.vsassets.io")); // multi-label
    assert!(!s.is_allowed("gallery.vsassets.io")); // needs a leading label
}

#[test]
fn regex_match() {
    let s = set();
    assert!(s.is_allowed("my-pkg.pkg.dev"));
    assert!(!s.is_allowed("my-pkg.pkg.dev.evil.com"));
    assert!(s.is_allowed("UPPER.pkg.dev")); // lowercased before match
}

#[test]
fn json_list_parsed() {
    let cfg = Config::parse(
        "
            api.anthropic.com
            JsonList(https://api.github.com/meta, [web, api, git])
            .sentry.io
            ",
    )
    .unwrap();
    assert_eq!(cfg.ip_lists.len(), 1);
    assert_eq!(cfg.ip_lists[0].url, "https://api.github.com/meta");
    assert_eq!(cfg.ip_lists[0].keys, ["web", "api", "git"]);
    // JsonList line must not be treated as a domain pattern.
    assert!(!cfg.patterns.is_allowed("jsonlist"));
    assert!(cfg.patterns.is_allowed("api.anthropic.com"));
}

#[test]
fn json_list_ignored_by_pattern_set() {
    // PatternSet::parse must silently skip JsonList lines.
    let s = PatternSet::parse(
        "
            JsonList(https://api.github.com/meta, [web, api, git])
            api.anthropic.com
            ",
    )
    .unwrap();
    assert!(s.is_allowed("api.anthropic.com"));
}

#[test]
fn patterns_are_counted_by_kind() {
    let s = set();
    assert_eq!(s.len(), 4);
    assert!(!s.is_empty());
    assert_eq!(s.exact_count(), 1);
    assert_eq!(s.suffix_count(), 1);
    assert_eq!(s.wildcard_count(), 1);
    assert_eq!(s.regex_count(), 1);
    assert_eq!(s.regex_sources(), ["re:^[a-z0-9-]+\\.pkg\\.dev$"]);
}

#[test]
fn repeated_hosts_count_once_and_repeated_suffixes_twice() {
    let s = PatternSet::parse("a.com\nA.COM\n.b.com\n.b.com\n*.c.com\n*.c.com\n").unwrap();
    assert_eq!(s.exact_count(), 1);
    assert_eq!(s.suffix_count(), 2);
    assert_eq!(s.wildcard_count(), 2);
    assert_eq!(s.len(), 5);
}

#[test]
fn empty_file_allows_nothing() {
    let s = PatternSet::parse("").unwrap();
    assert!(s.is_empty());
    assert_eq!(s.len(), 0);
    assert!(!s.is_allowed("api.anthropic.com"));
    assert!(!s.is_allowed(""));
    let s = PatternSet::parse("# a.com\n\n   \r\n\t# b\n").unwrap();
    assert!(s.is_empty());
}

#[test]
fn comments_end_a_line() {
    let s = PatternSet::parse("a.com # b.com\r\n  c.com#\r\n").unwrap();
    assert!(s.is_allowed("a.com"));
    assert!(s.is_allowed("c.com"));
    assert!(!s.is_allowed("b.com"));
    assert_eq!(s.exact_count(), 2);
}

#[test]
fn every_trailing_dot_is_dropped() {
    let s = set();
    assert!(s.is_allowed("api.anthropic.com.."));
    assert!(s.is_allowed("x.SENTRY.io."));
    assert!(!s.is_allowed(".api.anthropic.com"));
}

#[test]
fn only_ascii_letters_are_lowered() {
    let s = PatternSet::parse("É.com\n").unwrap();
    assert!(s.is_allowed("É.COM"));
    assert!(!s.is_allowed("é.com"));
}

#[test]
fn wildcard_may_be_a_glob() {
    let s = PatternSet::parse("*.cdn[12].example.com\n*.{a,b}.net\n").unwrap();
    assert!(s.is_allowed("x.cdn1.example.com"));
    assert!(s.is_allowed("x.cdn2.example.com"));
    assert!(!s.is_allowed("x.cdn3.example.com"));
    assert!(s.is_allowed("y.a.net"));
    assert!(!s.is_allowed("y.c.net"));
    assert_eq!(s.wildcard_count(), 2);
}

#[test]
fn a_regex_matches_the_whole_name() {
    let s = PatternSet::parse("re:a|b\\.com\n").unwrap();
    assert!(s.is_allowed("a"));
    assert!(s.is_allowed("b.com"));
    assert!(!s.is_allowed("a.com"));
    assert!(!s.is_allowed("xa"));
    assert!(!s.is_allowed("b.com.org"));
}

#[test]
fn a_regex_that_spells_a_host_out_allows_that_host_alone() {
    for line in ["re:api\\.my-host_1\\.io", "RE:^api\\.my-host_1\\.io$  # anchored"] {
        let s = PatternSet::parse(line).unwrap();
        assert!(s.is_allowed("api.my-host_1.io"));
        assert!(s.is_allowed("API.my-host_1.io."));
        assert!(!s.is_allowed("xapi.my-host_1.io"));
        assert!(!s.is_allowed("api.my-host_1.io.evil.com"));
        assert!(!s.is_allowed("apiXmy-host_1.io"));
        assert!(!s.is_allowed("api.my-host_1.io\n"));
    }
}

#[test]
fn only_the_name_is_lowercased() {
    let s = PatternSet::parse("re:^\\D+$").unwrap();
    assert!(s.is_allowed("abc"));
    assert!(s.is_allowed("ABC"));
    assert!(!s.is_allowed("123"));
    assert_eq!(s.regex_sources(), ["re:^\\D+$"]);
    let s = PatternSet::parse("re:[A-Z]+").unwrap();
    assert!(!s.is_allowed("abc"));
    assert!(!s.is_allowed("ABC"));
}

#[test]
fn a_regex_cannot_leave_its_anchors() {
    for line in ["re:a)|(?:b", "re:^a)|(?:b$", "re:a)|(b", "re:)", "re:a\\))|(\\(b"] {
        assert_eq!(
            config_error(line),
            ConfigError::Regex { line: 1, text: line.to_string() },
            "{}",
            line
        );
    }
    let s = PatternSet::parse("re:(a)|(?:b)").unwrap();
    assert!(s.is_allowed("a") && s.is_allowed("b"));
    assert!(!s.is_allowed("a.evil.com") && !s.is_allowed("evil.b"));
}

#[test]
fn an_escaped_dollar_is_no_anchor() {
    assert_eq!(anchor_regex("a\\$"), "^(?:a\\$)$");
    assert_eq!(anchor_regex("a\\\\$"), "^(?:a\\\\)$");
    assert_eq!(anchor_regex("a\\\\\\$"), "^(?:a\\\\\\$)$");
    assert_eq!(anchor_regex("\\$"), "^(?:\\$)$");
    assert_eq!(anchor_regex("$"), "^(?:)$");
    let s = PatternSet::parse("re:a\\$").unwrap();
    assert!(s.is_allowed("a$"));
    assert!(!s.is_allowed("a"));
}

#[test]
fn joined_files_say_what_both_say() {
    let a = "a.com\n.s.com\nre:x+\nJsonList(https://a.io, [k])";
    let b = "A.com\nb.com\n*.w.com\nre:y+\nJsonList(https://b.io, [k])\n";
    let z = Config::parse(&format!("{}\n{}", a, b)).unwrap();
    assert_eq!(z.patterns.exact_count(), 2);
    assert_eq!(z.patterns.suffix_count(), 1);
    assert_eq!(z.patterns.wildcard_count(), 1);
    assert_eq!(z.patterns.regex_sources(), ["re:x+", "re:y+"]);
    assert_eq!(z.ip_lists[0].url, "https://a.io");
    assert_eq!(z.ip_lists[1].url, "https://b.io");
}

#[test]
fn only_contents_count_in_a_whole_file() {
    let text = "# top\r\n\r\n  a.com # one\r\n\t.s.com\t\n\nre:x+ #\n   # end\nJsonList(u, [k])  ";
    let bare = "a.com\n.s.com\nre:x+\nJsonList(u, [k])\n";
    let x = Config::parse(text).unwrap();
    let y = Config::parse(bare).unwrap();
    assert_eq!(x.patterns.len(), y.patterns.len());
    assert_eq!(x.patterns.regex_sources(), y.patterns.regex_sources());
    assert_eq!(x.ip_lists.len(), y.ip_lists.len());
    assert_eq!(x.ip_lists[0].keys, y.ip_lists[0].keys);
    for name in ["a.com", "s.com", "t.s.com", "xx", "end", "u"] {
        assert_eq!(x.patterns.is_allowed(name), y.patterns.is_allowed(name), "{}", name);
    }
}

#[test]
fn regexes_are_anchored_once() {
    assert_eq!(anchor_regex("a+"), "^(?:a+)$");
    assert_eq!(anchor_regex("^a+$"), "^(?:a+)$");
    assert_eq!(anchor_regex("  ^a+$\t"), "^(?:a+)$");
    assert_eq!(anchor_regex("^^a$$"), "^(?:^a$)$");
    assert_eq!(anchor_regex(""), "^(?:)$");
}

#[test]
fn errors_name_their_line() {
    assert_eq!(
        config_error("a.com\n\nre:(\n"),
        ConfigError::Regex { line: 3, text: "re:(".to_string() }
    );
    assert_eq!(config_error("*.[\n"), ConfigError::Wildcard { line: 1 });
    assert_eq!(
        config_error("a.com\nJsonList(x)\n"),
        ConfigError::JsonList { line: 2, error: JsonListError::Separator }
    );
}

#[test]
fn wildcards_may_be_too_large_together() {
    let line = format!("*.{}\n", "[!a]".repeat(400_000));
    assert_eq!(config_error(&line), ConfigError::WildcardSet);
}

#[test]
fn the_first_error_counts() {
    assert_eq!(
        config_error("JsonList(\nre:(\n"),
        ConfigError::JsonList { line: 1, error: JsonListError::Shape }
    );
}

#[test]
fn json_list_errors() {
    assert_eq!(list_error("JsonList"), JsonListError::Shape);
    assert_eq!(list_error("JsonList(u, [k]"), JsonListError::Shape);
    assert_eq!(list_error("JsonList(u,[k])"), JsonListError::Separator);
    assert_eq!(list_error("JsonList(u, [k)"), JsonListError::Unclosed);
    assert_eq!(list_error("JsonList( , [k])"), JsonListError::EmptyUrl);
    assert_eq!(list_error("JsonList(u, [ , ])"), JsonListError::EmptyKeys);
}

#[test]
fn json_list_keys_are_trimmed() {
    match parse_json_list("JsonList( https://x.io/y , [a[].b ,, c ])") {
        Ok(spec) => {
            assert_eq!(spec.url, "https://x.io/y");
            assert_eq!(spec.keys, ["a[].b", "c"]);
        }
        Err(e) => panic!("{:?}", e),
    }
}

#[test]
fn json_list_lines_keep_their_case() {
    let cfg = Config::parse("JsonList(https://X.io/Meta, [ipV4])\n").unwrap();
    assert_eq!(cfg.ip_lists[0].url, "https://X.io/Meta");
    assert_eq!(cfg.ip_lists[0].keys, ["ipV4"]);
    assert!(cfg.patterns.is_empty());
}
