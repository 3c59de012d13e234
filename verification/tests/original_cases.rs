use netfly::adblock::Adblock;
use netfly::browser::{urlencoding_lite, BrowserState};
use netfly::config::{normalize_url, Config};
use netfly::downloads::{filename_from_url, DownloadManager, DownloadStatus};
use netfly::userscripts::{matches_url, parse_userscript, pattern_match};

#[test]
fn tab_lifecycle() {
    let mut b = BrowserState::default();
    assert_eq!(b.tabs.len(), 1);
    let id2 = b.push_tab("https://a.com", "A");
    assert_eq!(b.tabs.len(), 2);
    assert_eq!(b.active().id, id2);
    b.prev_tab();
    let (closed, _) = b.close_active();
    assert!(closed.starts_with("content-"));
    assert_eq!(b.tabs.len(), 1);
    let restored = b.undo_close().unwrap();
    assert_eq!(b.tabs.len(), 2);
    assert_ne!(restored.id, closed); // new webview id
}

#[test]
fn urlencoding_space() {
    assert_eq!(urlencoding_lite("a b"), "a%20b");
}

#[test]
fn search_engine_shortcut() {
    let cfg = Config::default();
    let u = normalize_url("g hello world", &cfg);
    assert!(u.contains("google.com"));
    assert!(u.contains("hello%20world"));
}

#[test]
fn default_search() {
    let cfg = Config::default();
    let u = normalize_url("hello world", &cfg);
    assert!(u.contains("duckduckgo.com"));
}

#[test]
fn domain() {
    let cfg = Config::default();
    assert_eq!(normalize_url("example.com", &cfg), "https://example.com");
}

#[test]
fn set_binding_add_unbind_reset() {
    let mut cfg = Config::default();
    cfg.set_binding("tab-new", vec!["cmd+shift+n".into()]);
    assert_eq!(cfg.bindings.get("tab-new").unwrap().chords(), vec!["cmd+shift+n"]);
    cfg.set_binding("tab-new", vec![]);
    assert_eq!(cfg.bindings.get("tab-new").unwrap().chords(), Vec::<String>::new());
    cfg.reset_binding("tab-new");
    assert!(!cfg.bindings.contains_key("tab-new"));
}

#[test]
fn glob_basics() {
    assert!(pattern_match("*://example.com/*", "https://example.com/foo"));
    assert!(pattern_match("*://*.github.com/*", "https://gist.github.com/x"));
    assert!(!pattern_match("*://example.com/*", "https://evil.com/"));
    assert!(pattern_match("*", "anything"));
}

#[test]
fn parse_header() {
    let raw = r#"// ==UserScript==
// @name  Test
// @match *://a.com/*
// @exclude *://a.com/admin*
// ==/UserScript==
console.log(1);
"#;
    let path = "test.user.js";
    let s = parse_userscript(path, raw).unwrap();
    assert_eq!(s.name, "Test");
    assert_eq!(s.matches.len(), 1);
    assert!(matches_url(&s, "https://a.com/x"));
    assert!(!matches_url(&s, "https://a.com/admin"));
}

#[test]
fn suffix_block() {
    let ab = Adblock::load(true, None);
    assert!(ab.is_blocked_host("doubleclick.net") || ab.is_blocked_host("ad.doubleclick.net"));
    // if doubleclick in list
    if ab.lists("doubleclick.net") {
        assert!(ab.is_blocked_host("ad.doubleclick.net"));
        assert!(ab.is_blocked_host("doubleclick.net"));
    }
    assert!(!ab.is_blocked_host("example.com"));
}

#[test]
fn disabled_allows() {
    let ab = Adblock::load(false, None);
    assert!(!ab.is_blocked_host("doubleclick.net"));
}

#[test]
fn filename_from_path() {
    assert_eq!(
        filename_from_url("https://example.com/files/a.pdf?x=1"),
        "a.pdf"
    );
}

#[test]
fn manager_lifecycle() {
    let mut m = DownloadManager::default();
    let p = "/tmp/netfly-test-dl.bin";
    let item = m.on_requested("https://x/y.bin", p);
    assert_eq!(item.status, DownloadStatus::Requested);
    let done = m.on_finished("https://x/y.bin", Some(p), true).unwrap();
    assert_eq!(done.status, DownloadStatus::Finished);
}
