use play::assoc::Assoc;
use play::prefs::{
    host_of, lookup_prefs, normalize_referer, prefs_path, remember_prefs, settings_for, suffixes,
    Prefs, PREFS_NAME,
};

fn settings(pairs: &[(&str, &str)]) -> Assoc<String> {
    let mut m = Assoc::new();
    for (k, v) in pairs {
        m.insert(k.to_string(), v.to_string());
    }
    m
}

fn get<'a>(p: &'a Prefs, host: &str, key: &str) -> &'a str {
    p.get(host).unwrap().get(key).unwrap()
}

#[test]
fn test_strips_www_and_port() {
    assert_eq!(host_of("https://www.CDN.Example:443/a"), "cdn.example");
    assert_eq!(host_of("https://a.b.cdn.example/x"), "a.b.cdn.example");
}

#[test]
fn test_exact_and_suffix_match() {
    let mut prefs = Prefs::new();
    prefs.insert(
        "cdn.example".into(),
        settings(&[("referer", "https://embed.example/")]),
    );
    assert_eq!(
        lookup_prefs(&prefs, "https://cdn.example/hls/master.m3u8")
            .unwrap()
            .get("referer")
            .unwrap(),
        "https://embed.example/"
    );
    assert_eq!(
        lookup_prefs(&prefs, "https://edge.cdn.example/a.m3u8")
            .unwrap()
            .get("referer")
            .unwrap(),
        "https://embed.example/"
    );
    assert!(lookup_prefs(&prefs, "https://other.example/a.m3u8").is_none());
}

#[test]
fn test_longer_key_wins() {
    let mut prefs = Prefs::new();
    prefs.insert(
        "cdn.example".into(),
        settings(&[("referer", "https://generic/")]),
    );
    prefs.insert(
        "edge.cdn.example".into(),
        settings(&[("referer", "https://specific/")]),
    );
    assert_eq!(
        lookup_prefs(&prefs, "https://edge.cdn.example/x")
            .unwrap()
            .get("referer")
            .unwrap(),
        "https://specific/"
    );
}

#[test]
fn test_remember_writes_host_and_updates_suffix() {
    let mut prefs = Prefs::new();
    remember_prefs(
        &mut prefs,
        "https://edge.cdn.example/a.m3u8",
        &settings(&[
            ("referer", "https://embed.example/"),
            ("origin", "https://embed.example"),
        ]),
    );
    assert_eq!(
        get(&prefs, "edge.cdn.example", "referer"),
        "https://embed.example/"
    );
    remember_prefs(
        &mut prefs,
        "https://edge.cdn.example/b.m3u8",
        &settings(&[("referer", "https://embed.example/v2/")]),
    );
    assert_eq!(
        get(&prefs, "edge.cdn.example", "referer"),
        "https://embed.example/v2/"
    );
    assert!(!prefs.contains_key("cdn.example"));
}

#[test]
fn test_cli_overrides_prefs_then_host_default() {
    let mut prefs = Prefs::new();
    prefs.insert(
        "cdn.example".into(),
        settings(&[
            ("referer", "https://saved.example/"),
            ("origin", "https://saved.example"),
        ]),
    );
    let s = settings_for("https://cdn.example/a.m3u8", &prefs, None, None, "UA").unwrap();
    assert_eq!(s.get("referer").unwrap(), "https://saved.example/");
    assert_eq!(s.get("origin").unwrap(), "https://saved.example");
    let s = settings_for(
        "https://cdn.example/a.m3u8",
        &prefs,
        Some("https://cli.example/"),
        None,
        "UA",
    )
    .unwrap();
    assert_eq!(s.get("referer").unwrap(), "https://cli.example/");
    assert_eq!(s.get("origin").unwrap(), "https://cli.example");
    let s = settings_for(
        "https://other.example/a.m3u8",
        &Prefs::new(),
        None,
        None,
        "UA",
    )
    .unwrap();
    assert_eq!(s.get("referer").unwrap(), "https://other.example/");
    assert_eq!(s.get("origin").unwrap(), "https://other.example");
}

#[test]
fn test_blank_is_none_and_scheme_is_added() {
    assert!(normalize_referer("").is_none());
    assert!(normalize_referer("  ").is_none());
    assert_eq!(
        normalize_referer("embed.example/").as_deref(),
        Some("https://embed.example/")
    );
    assert_eq!(
        normalize_referer("https://embed.example/watch/x").as_deref(),
        Some("https://embed.example/watch/x")
    );
}

// ---------------------------------------------------------------------------
// Further cases
// ---------------------------------------------------------------------------

#[test]
fn suffix_keys() {
    assert_eq!(suffixes("a.b.example"), vec!["a.b.example", "b.example"]);
    assert_eq!(suffixes("localhost"), vec!["localhost"]);
    assert!(suffixes("").is_empty());
    assert_eq!(suffixes(".a..b."), vec!["a.b"]);
}

#[test]
fn remembered_settings_are_found_again() {
    let mut prefs = Prefs::new();
    prefs.insert("cdn.example".into(), settings(&[("user_agent", "old")]));
    remember_prefs(
        &mut prefs,
        "hls://https://x.cdn.example/a.m3u8",
        &settings(&[("referer", "https://e/"), ("origin", ""), ("user_agent", "UA2")]),
    );
    let e = lookup_prefs(&prefs, "https://x.cdn.example/b.m3u8").unwrap();
    assert_eq!(e.get("referer").unwrap(), "https://e/");
    assert_eq!(e.get("user_agent").unwrap(), "UA2");
    assert!(e.get("origin").is_none());
    assert!(!prefs.contains_key("x.cdn.example"));
}

#[test]
fn settings_errors_and_agent() {
    let e = settings_for("not a url", &Prefs::new(), None, None, "UA").err().unwrap();
    assert_eq!(e.message(), "play: could not parse host from not a url");
    let mut prefs = Prefs::new();
    prefs.insert("cdn.example".into(), settings(&[("user_agent", "Saved")]));
    let s = settings_for("https://cdn.example/a", &prefs, None, Some("https://o"), "").unwrap();
    assert_eq!(s.get("user_agent").unwrap(), "Saved");
    assert_eq!(s.get("origin").unwrap(), "https://o");
}

#[test]
fn prefs_file_location() {
    assert_eq!(PREFS_NAME, ".play.json");
    assert_eq!(prefs_path("/work"), "/work/.play.json");
}
