use netfly::adblock::Adblock;
use netfly::downloads::DownloadManager;
use netfly::navigation::{command_of, query_lookup, route_navigation, NavAction, NavUrl};

fn nav(text: &str, scheme: &str, host: Option<&str>, path: &str, query: &[(&str, &str)]) -> NavUrl {
    NavUrl {
        text: text.to_string(),
        scheme: scheme.to_string(),
        host: host.map(|h| h.to_string()),
        path: path.to_string(),
        query: query.iter().map(|(k, v)| (k.to_string(), v.to_string())).collect(),
    }
}

#[test]
fn ordinary_page_proceeds() {
    let mut ab = Adblock::load(true, None);
    let n = nav("https://example.com/a", "https", Some("example.com"), "/a", &[]);
    assert!(matches!(route_navigation(&mut ab, &n), NavAction::Proceed));
    assert_eq!(ab.status().blocked_count, 0);
}

#[test]
fn tracker_is_blocked_and_counted() {
    let mut ab = Adblock::load(true, None);
    let n = nav(
        "https://ad.doubleclick.net/x",
        "https",
        Some("ad.doubleclick.net"),
        "/x",
        &[],
    );
    match route_navigation(&mut ab, &n) {
        NavAction::Blocked { status } => assert_eq!(status, "Blocked ad.doubleclick.net"),
        other => panic!("expected a block, got {other:?}"),
    }
    assert_eq!(ab.status().blocked_count, 1);
}

#[test]
fn blocking_off_lets_tracker_load() {
    let mut ab = Adblock::load(false, None);
    let n = nav(
        "https://ad.doubleclick.net/x",
        "https",
        Some("ad.doubleclick.net"),
        "/x",
        &[],
    );
    assert!(matches!(route_navigation(&mut ab, &n), NavAction::Proceed));
    assert_eq!(ab.status().blocked_count, 0);
}

#[test]
fn bridge_escape_by_host_or_path() {
    let mut ab = Adblock::load(true, None);
    let by_host = nav("netfly://escape", "netfly", Some("escape"), "", &[]);
    assert!(matches!(route_navigation(&mut ab, &by_host), NavAction::Escape));
    let by_path = nav("netfly:///escape", "netfly", None, "//escape", &[]);
    assert!(matches!(route_navigation(&mut ab, &by_path), NavAction::Escape));
    let empty_host = nav("netfly:///escape", "netfly", Some(""), "/escape", &[]);
    assert!(matches!(route_navigation(&mut ab, &empty_host), NavAction::Escape));
}

#[test]
fn bridge_shortcut_needs_a_chord() {
    let mut ab = Adblock::load(true, None);
    let n = nav(
        "netfly://shortcut?chord=cmd%2Bt",
        "netfly",
        Some("shortcut"),
        "",
        &[("x", "1"), ("chord", "cmd+t"), ("chord", "cmd+w")],
    );
    match route_navigation(&mut ab, &n) {
        NavAction::Shortcut { chord } => assert_eq!(chord, "cmd+t"),
        other => panic!("expected a shortcut, got {other:?}"),
    }
    let none = nav("netfly://shortcut", "netfly", Some("shortcut"), "", &[]);
    assert!(matches!(route_navigation(&mut ab, &none), NavAction::Ignore));
    let empty = nav("netfly://shortcut?chord=", "netfly", Some("shortcut"), "", &[("chord", "")]);
    assert!(matches!(route_navigation(&mut ab, &empty), NavAction::Ignore));
}

#[test]
fn bridge_open_tab_and_page_meta() {
    let mut ab = Adblock::load(true, None);
    let open = nav(
        "netfly://open-tab?url=https://a.com",
        "netfly",
        Some("open-tab"),
        "",
        &[("url", "https://a.com")],
    );
    match route_navigation(&mut ab, &open) {
        NavAction::OpenTab { url } => assert_eq!(url, "https://a.com"),
        other => panic!("expected a new tab, got {other:?}"),
    }
    let no_url = nav("netfly://open-tab", "netfly", Some("open-tab"), "", &[]);
    assert!(matches!(route_navigation(&mut ab, &no_url), NavAction::Ignore));

    let meta = nav(
        "netfly://page-meta?title=Hi&url=https://b.com",
        "netfly",
        Some("page-meta"),
        "",
        &[("title", "Hi"), ("url", "https://b.com")],
    );
    match route_navigation(&mut ab, &meta) {
        NavAction::PageMeta { url, title } => {
            assert_eq!(url, "https://b.com");
            assert_eq!(title, "Hi");
        }
        other => panic!("expected page meta, got {other:?}"),
    }
    let bare = nav("netfly://page-meta", "netfly", Some("page-meta"), "", &[]);
    match route_navigation(&mut ab, &bare) {
        NavAction::PageMeta { url, title } => {
            assert_eq!(url, "");
            assert_eq!(title, "");
        }
        other => panic!("expected page meta, got {other:?}"),
    }
}

#[test]
fn bridge_unknown_command_is_ignored_and_never_blocked() {
    let mut ab = Adblock::load(true, None);
    let n = nav("netfly://reboot", "netfly", Some("reboot"), "", &[]);
    assert!(matches!(route_navigation(&mut ab, &n), NavAction::Ignore));
    assert_eq!(ab.status().blocked_count, 0);
}

#[test]
fn command_and_query_helpers() {
    assert_eq!(command_of(&Some("escape".to_string()), "/x"), "escape");
    assert_eq!(command_of(&None, "///page-meta"), "page-meta");
    assert_eq!(command_of(&Some(String::new()), "/open-tab"), "open-tab");
    let q = vec![
        ("a".to_string(), "1".to_string()),
        ("b".to_string(), "2".to_string()),
        ("a".to_string(), "3".to_string()),
    ];
    assert_eq!(query_lookup(&q, "a"), "1");
    assert_eq!(query_lookup(&q, "b"), "2");
    assert_eq!(query_lookup(&q, "c"), "");
}

#[test]
fn pending_path_recovers_requested_destination() {
    let mut m = DownloadManager::default();
    assert_eq!(m.pending_path("https://x/y.bin"), None);
    m.on_requested("https://x/y.bin", "/tmp/first.bin");
    m.on_requested("https://x/y.bin", "/tmp/second.bin");
    assert_eq!(m.pending_path("https://x/y.bin"), Some("/tmp/second.bin".to_string()));
    m.on_finished("https://x/y.bin", None, true);
    assert_eq!(m.pending_path("https://x/y.bin"), Some("/tmp/first.bin".to_string()));
    assert_eq!(m.next_id(), 2);
}
