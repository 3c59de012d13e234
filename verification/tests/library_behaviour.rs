use netfly::adblock::{cosmetic_script, Adblock, COSMETIC_PREFIX, COSMETIC_SUFFIX};
use netfly::bookmarks::BookmarkStore;
use netfly::browser::{urlencoding_lite, BrowserState};
use netfly::navigation::content_start_url;
use netfly::config::{expand_download_dir, normalize_url, ChordSet, Config};
use netfly::downloads::{
    after_candidate, candidate_path, download_file_name, filename_from_url, DestStep, DownloadItem,
    DownloadManager,
    DownloadStatus,
};
use netfly::history::{like_pattern, search_limit, should_record};
use netfly::paths::{
    blocklist_file, bookmarks_file, config_file, downloads_log, history_db, join,
    last_session_file, session_file,
};
use netfly::sessions::Session;
use netfly::strmap::StrMap;
use netfly::userscripts::{parse_userscript, pattern_match, payload_js, UserScript, UserScriptStore};

// ---- URL normalization ----

#[test]
fn normalize_empty_gives_start_page() {
    let mut cfg = Config::default();
    assert_eq!(normalize_url("   ", &cfg), "about:blank");
    cfg.start_page = "https://start.example/".to_string();
    assert_eq!(normalize_url("", &cfg), "https://start.example/");
}

#[test]
fn normalize_keeps_urls_trimmed() {
    let cfg = Config::default();
    assert_eq!(normalize_url("  https://rust-lang.org  ", &cfg), "https://rust-lang.org");
    assert_eq!(normalize_url("http://a.b/c d", &cfg), "http://a.b/c d");
    assert_eq!(normalize_url("file:///tmp/x", &cfg), "file:///tmp/x");
    assert_eq!(normalize_url("about:blank", &cfg), "about:blank");
}

#[test]
fn normalize_engine_shortcuts() {
    let cfg = Config::default();
    assert_eq!(normalize_url("gh verus", &cfg), "https://github.com/search?q=verus");
    assert_eq!(
        normalize_url("w  Rust  lang ", &cfg),
        "https://en.wikipedia.org/wiki/Special:Search?search=Rust%20%20lang"
    );
    // an unknown key falls through to the default search
    assert_eq!(normalize_url("zz hello", &cfg), "https://duckduckgo.com/?q=zz%20hello");
    // a key without a query is not a shortcut
    assert_eq!(normalize_url("g ", &cfg), "https://duckduckgo.com/?q=g");
}

#[test]
fn normalize_bare_addresses() {
    let cfg = Config::default();
    assert_eq!(normalize_url("docs.rs/serde?x=1&y=%20", &cfg), "https://docs.rs/serde?x=1&y=%20");
    assert_eq!(normalize_url(".hidden.com", &cfg), "https://duckduckgo.com/?q=.hidden.com");
    assert_eq!(normalize_url("localhost", &cfg), "https://duckduckgo.com/?q=localhost");
    assert_eq!(normalize_url("a.b!c", &cfg), "https://duckduckgo.com/?q=a.b%21c");
}

#[test]
fn normalize_twice_keeps_urls() {
    let cfg = Config::default();
    for input in ["  https://rust-lang.org ", "example.com/a?b=c", "file:///x"] {
        let once = normalize_url(input, &cfg);
        assert_eq!(normalize_url(&once, &cfg), once);
    }
    assert_eq!(normalize_url("example.com", &cfg), "https://example.com");
}

#[test]
fn normalize_template_without_placeholder_appends() {
    let mut cfg = Config::default();
    cfg.default_search = "https://s.example/?q=".to_string();
    assert_eq!(normalize_url("zürich", &cfg), "https://s.example/?q=z%C3%BCrich");
    cfg.default_search = "https://s.example/{}/{}".to_string();
    assert_eq!(normalize_url("a b", &cfg), "https://s.example/a%20b/a%20b");
}

#[test]
fn percent_encoding_exact() {
    assert_eq!(urlencoding_lite("~a-b_c.d"), "~a-b_c.d");
    assert_eq!(urlencoding_lite("é/?"), "%C3%A9%2F%3F");
    assert_eq!(urlencoding_lite(""), "");
}

#[test]
fn default_config_values() {
    let cfg = Config::default();
    assert_eq!(cfg.start_page, "about:blank");
    assert_eq!(cfg.download_dir, "~/Downloads");
    assert!(cfg.restore_session && cfg.adblock);
    assert_eq!(cfg.ui.sidebar_width, 240);
    assert!(!cfg.ui.sidebar_collapsed);
    assert!(!cfg.ui.auto_hide_topbar);
    assert_eq!(cfg.search_engines.len(), 4);
    let keys: Vec<&str> = cfg.search_engines.entries().iter().map(|e| e.0.as_str()).collect();
    assert_eq!(keys, vec!["ddg", "g", "gh", "w"]);
    assert_eq!(cfg.bindings.len(), 0);
}

#[test]
fn bindings_one_or_many() {
    let mut cfg = Config::default();
    cfg.set_binding("tab-next", vec!["ctrl+tab".into(), "cmd+alt+right".into()]);
    cfg.set_binding("tab-new", vec!["cmd+t".into()]);
    assert_eq!(cfg.bindings.get("tab-new"), Some(&ChordSet::One("cmd+t".into())));
    assert_eq!(cfg.bindings.get("tab-next").unwrap().chords(), vec!["ctrl+tab", "cmd+alt+right"]);
    cfg.set_ui(300, true, true);
    assert_eq!(cfg.ui.sidebar_width, 300);
    assert!(cfg.ui.sidebar_collapsed);
    assert!(cfg.ui.auto_hide_topbar);
    assert_eq!(cfg.bindings.len(), 2);
}

#[test]
fn home_expansion() {
    let home = Some("/home/u".to_string());
    assert_eq!(expand_download_dir("~/Downloads", home.clone()), "/home/u/Downloads");
    assert_eq!(expand_download_dir("~", home.clone()), "/home/u");
    assert_eq!(expand_download_dir("~//abs", home.clone()), "/abs");
    assert_eq!(expand_download_dir("/data/dl", home.clone()), "/data/dl");
    assert_eq!(expand_download_dir("~user/x", home), "~user/x");
    assert_eq!(expand_download_dir("~/Downloads", None), "~/Downloads");
    let mut cfg = Config::default();
    cfg.download_dir = "/srv/files".to_string();
    assert_eq!(cfg.expanded_download_dir(), "/srv/files");
}

// ---- tabs ----

#[test]
fn ids_count_up_in_decimal() {
    let mut b = BrowserState::empty();
    let mut last = String::new();
    for _ in 0..11 {
        last = b.alloc_id();
    }
    assert_eq!(last, "content-10");
    assert_eq!(b.push_tab("x", "y"), "content-11");
}

#[test]
fn closing_last_tab_opens_blank() {
    let mut b = BrowserState::default();
    let (closed, active) = b.close_active();
    assert_eq!(closed, "content-0");
    assert_eq!(active, "content-1");
    assert_eq!(b.tabs.len(), 1);
    assert_eq!(b.tabs[0].url, "about:blank");
    assert_eq!(b.tabs[0].title, "New Tab");
    assert_eq!(b.closed.len(), 1);
}

#[test]
fn closed_stack_keeps_twenty_newest() {
    let mut b = BrowserState::empty();
    for i in 0..25 {
        b.push_tab(&format!("https://site{i}.example"), "t");
    }
    for _ in 0..25 {
        b.close_active();
    }
    assert_eq!(b.closed.len(), 20);
    assert_eq!(b.closed[0].url, "https://site0.example");
    let t = b.undo_close().unwrap();
    assert_eq!(t.url, "https://site0.example");
    assert_eq!(b.active().url, "https://site0.example");
}

#[test]
fn close_then_undo_restores_page() {
    let mut b = BrowserState::default();
    b.push_tab("https://a.com", "A");
    b.push_tab("https://b.com", "B");
    b.switch_tab(1);
    let (closed, active) = b.close_active();
    assert_eq!(closed, "content-1");
    assert_eq!(active, "content-2");
    assert_eq!(b.active_tab, 1);
    let t = b.undo_close().unwrap();
    assert_eq!((t.url.as_str(), t.title.as_str()), ("https://a.com", "A"));
    assert_eq!(t.id, "content-3");
    assert_eq!(b.active_tab, 2);
    assert!(b.undo_close().is_none());
}

#[test]
fn tab_navigation_wraps() {
    let mut b = BrowserState::default();
    b.push_tab("https://a.com", "A");
    b.push_tab("https://b.com", "B");
    assert_eq!(b.next_tab(), "content-0");
    assert_eq!(b.prev_tab(), "content-2");
    assert_eq!(b.prev_tab(), "content-1");
    assert_eq!(b.next_tab(), "content-2");
    assert_eq!(b.switch_tab(7), None);
    assert_eq!(b.switch_tab(0), Some("content-0".to_string()));
    let mut e = BrowserState::empty();
    assert_eq!(e.next_tab(), "content-0");
    assert_eq!(e.tabs.len(), 1);
}

#[test]
fn restore_from_session() {
    let urls = vec!["https://a.com".to_string(), "https://b.com".to_string()];
    let b = BrowserState::restore(&urls, 9);
    assert_eq!(b.tabs.len(), 2);
    assert_eq!(b.active_tab, 1);
    assert_eq!(b.tabs[0].title, "https://a.com");
    assert_eq!(b.tabs[1].id, "content-1");
    assert_eq!(b.tab_urls(), urls);
    let e = BrowserState::restore(&Vec::new(), 3);
    assert_eq!(e.tabs.len(), 1);
    assert_eq!(e.tabs[0].url, "about:blank");
    assert_eq!(e.active_tab, 0);
}

#[test]
fn page_updates() {
    let mut b = BrowserState::default();
    b.navigate_active("https://x.org");
    assert_eq!(b.status, "Loading https://x.org");
    assert!(b.active().loading);
    b.page_loaded("content-0", "https://x.org/home");
    assert_eq!(b.active().url, "https://x.org/home");
    assert_eq!(b.active().title, "https://x.org/home");
    assert!(!b.active().loading);
    b.apply_page_meta("", "Home");
    assert_eq!(b.active().title, "Home");
    assert_eq!(b.active().url, "https://x.org/home");
    b.page_loaded("content-0", "https://x.org/next");
    assert_eq!(b.active().title, "Home");
    b.page_loaded("content-9", "https://nowhere");
    assert_eq!(b.active().url, "https://x.org/next");
    let id = b.open_loading_tab("https://y.org");
    assert_eq!(id, "content-1");
    assert!(b.active().loading);
    assert_eq!(b.status, "Loading https://y.org");
    let snap = b.snapshot();
    assert_eq!(snap.tabs.len(), 2);
    assert_eq!(snap.active_tab, 1);
    assert_eq!(snap.status, b.status);
}

// ---- userscript patterns and parsing ----

#[test]
fn glob_edge_cases() {
    assert!(pattern_match("a?c", "abc"));
    assert!(!pattern_match("a?c", "ac"));
    assert!(pattern_match("*", ""));
    assert!(pattern_match("", ""));
    assert!(!pattern_match("", "a"));
    assert!(pattern_match("*a*b*", "xxaybz"));
    assert!(!pattern_match("*a*b", "xxaybz"));
    assert!(!pattern_match("HTTPS://*", "https://a"));
    // a `*` in the URL is an ordinary character to the pattern's `*`
    assert!(pattern_match("*", "*a"));
    assert!(pattern_match("*b", "*ab"));
    assert!(pattern_match("*", "a*a"));
    assert!(!pattern_match("E*", "e"));
    assert!(!pattern_match("*.com", "a.com.x"));
    assert!(pattern_match("*.com/*", "a.co.com/x"));
}

#[test]
fn userscript_defaults_and_keys() {
    assert!(parse_userscript("x.js", "console.log(1)").is_none());
    let raw = "// ==UserScript==\n//@include https://b.com/*\n// @run-at document-idle\n// @enabled false\n// ==/UserScript==\nrun();";
    let s = parse_userscript("/scripts/b.user.js", raw).unwrap();
    assert_eq!(s.name, "b.user.js");
    assert_eq!(s.file, "b.user.js");
    assert_eq!(s.matches, vec!["https://b.com/*"]);
    assert_eq!(s.run_at, "document-idle");
    assert!(!s.enabled);
    assert_eq!(s.code, raw);
    // closing marker before the opening one: no header
    assert!(parse_userscript("c.js", "==/UserScript==\n// @match *\n==UserScript==").is_none());
}

#[test]
fn userscript_store_sorting_and_injection() {
    let a = "// ==UserScript==\n// @name Zed\n// @match *://z.com/*\n// ==/UserScript==\nz();".to_string();
    let b = "// ==UserScript==\n// @name \"Alpha\"\n// @match *://z.com/*\n// ==/UserScript==\na();".to_string();
    let c = "// ==UserScript==\n// @name Alpha\n// @match *://other.com/*\n// ==/UserScript==\nc();".to_string();
    let files = vec![
        ("/d/z.user.js".to_string(), a),
        ("/d/notes.txt".to_string(), b.clone()),
        ("/d/q.js".to_string(), b),
        ("/d/c.js".to_string(), c),
    ];
    let store = UserScriptStore::load_from(&files);
    let names: Vec<&str> = store.scripts.iter().map(|s| s.name.as_str()).collect();
    assert_eq!(names, vec!["\"Alpha\"", "Alpha", "Zed"]);
    let hits = store.matching_for("https://z.com/p");
    assert_eq!(hits.len(), 2);
    let js = store.inject_js_for("https://z.com/p").unwrap();
    assert!(js.starts_with("(function(){\ntry {\n"));
    assert!(js.contains("console.error('[netfly userscript]', \"\\\"Alpha\\\"\", e); }"));
    assert!(js.ends_with("})();"));
    assert!(store.inject_js_for("https://none.com/").is_none());
}

// ---- blocking ----

#[test]
fn adblock_user_list() {
    let list = "0.0.0.0 Tracker.Example\n# comment\n127.0.0.1 localhost\n\n  .ads.test  # trailing\nlocalhost\n";
    let mut ab = Adblock::load(true, Some(list));
    assert!(ab.lists("tracker.example"));
    assert!(ab.lists("ads.test"));
    assert!(!ab.lists("localhost"));
    assert!(ab.is_blocked_host("Sub.TRACKER.example."));
    assert!(!ab.is_blocked_host("tracker.example.org"));
    assert!(!ab.is_blocked_host("..."));
    assert!(ab.is_blocked_url("https://x.ads.test/banner.js"));
    assert!(!ab.is_blocked_url("not a url"));
    let before = ab.status();
    ab.record_block();
    assert_eq!(ab.status().blocked_count, before.blocked_count + 1);
    let n = ab.reload(None);
    assert!(!ab.lists("ads.test"));
    assert_eq!(n, ab.status().host_count);
    ab.set_enabled(false);
    assert!(!ab.is_enabled());
    assert!(!ab.is_blocked_url("https://ad.doubleclick.net/"));
    assert!(ab.cosmetic_inject_js().is_none());
}

#[test]
fn cosmetic_script_has_selectors() {
    let ab = Adblock::load(true, None);
    let js = ab.cosmetic_inject_js().unwrap();
    assert!(js.starts_with("(function(){\n  try {\n    var sel = \".adsbygoogle, .adsbygoogle-noablate,,ins.adsbygoogle,"));
    assert!(js.contains("[id^=\\\"google_ads_\\\"]"));
    assert!(js.ends_with("})();"));
}

// ---- downloads ----

#[test]
fn download_names_and_paths() {
    assert_eq!(download_file_name("https://e.com/a b.txt", None), "a_20b.txt");
    assert_eq!(download_file_name("https://e.com/x", Some("weird/name?.txt")), "weird_name_.txt");
    assert_eq!(download_file_name("https://e.com/f.zip", Some("")), "f.zip");
    assert_eq!(filename_from_url("https://e.com"), "download");
    assert_eq!(filename_from_url("::nope::"), "download");
    assert_eq!(candidate_path("/d", "a.pdf", 0), "/d/a.pdf");
    assert_eq!(candidate_path("/d", "a.pdf", 2), "/d/a (2).pdf");
    assert_eq!(candidate_path("/d/", "a.tar.gz", 12), "/d/a.tar (12).gz");
    assert_eq!(candidate_path("/d", ".bashrc", 1), "/d/.bashrc (1)");
    assert_eq!(candidate_path("/d", "x", 1), "/d/x (1)");
}

fn item(id: u64, url: &str, status: DownloadStatus) -> DownloadItem {
    DownloadItem {
        id,
        url: url.to_string(),
        filename: "f".to_string(),
        path: "/p/f".to_string(),
        status,
        success: None,
        started_at: 1,
        finished_at: None,
    }
}

#[test]
fn download_manager_rules() {
    let mut m = DownloadManager::from_items(vec![
        item(7, "u1", DownloadStatus::Requested),
        item(3, "u2", DownloadStatus::Finished),
        item(5, "u1", DownloadStatus::Requested),
    ]);
    let it = m.on_requested("u3", "/dl/new.bin");
    assert_eq!(it.id, 8);
    assert_eq!(it.filename, "new.bin");
    let done = m.on_finished("u1", None, false).unwrap();
    assert_eq!(done.id, 7);
    assert_eq!(done.status, DownloadStatus::Failed);
    assert_eq!(done.path, "/p/f");
    let synth = m.on_finished("u9", None, true).unwrap();
    assert_eq!(synth.id, 9);
    assert_eq!(synth.filename, "download");
    assert_eq!(synth.path, "");
    assert_eq!(m.list().len(), 5);
    m.clear_finished();
    let ids: Vec<u64> = m.list().iter().map(|i| i.id).collect();
    assert_eq!(ids, vec![8, 5]);
    assert!(it.started_at > 0);
}

#[test]
fn download_list_is_capped() {
    let mut m = DownloadManager::default();
    for i in 0..105 {
        m.on_requested(&format!("u{i}"), "/x");
    }
    let l = m.list();
    assert_eq!(l.len(), 100);
    assert_eq!(l[0].id, 104);
    assert_eq!(l[0].filename, "x");
}

// ---- files, bookmarks, history, sessions ----

#[test]
fn data_paths() {
    assert_eq!(history_db("/data"), "/data/history.sqlite");
    assert_eq!(bookmarks_file("/data/"), "/data/bookmarks.toml");
    assert_eq!(config_file("/data"), "/data/config.toml");
    assert_eq!(downloads_log("/data"), "/data/downloads.json");
    assert_eq!(blocklist_file(""), "blocklist-hosts.txt");
    assert_eq!(session_file("/data", "my session!"), "/data/sessions/my_session_.json");
    assert_eq!(last_session_file("/data"), "/data/sessions/_last.json");
    assert_eq!(join("/a", "/b"), "/b");
}

#[test]
fn bookmarks_and_quickmarks() {
    let mut b = BookmarkStore::default();
    b.set_bookmark("rust", "https://rust-lang.org");
    b.set_bookmark("rust", "https://www.rust-lang.org");
    assert_eq!(b.get_bookmark("rust").as_deref(), Some("https://www.rust-lang.org"));
    assert_eq!(b.get_bookmark("go"), None);
    b.set_quickmark("abc", "https://a.com");
    assert_eq!(b.get_quickmark("a").as_deref(), Some("https://a.com"));
    assert_eq!(b.get_quickmark("axe").as_deref(), Some("https://a.com"));
    assert_eq!(b.get_quickmark(""), None);
    b.set_quickmark("", "https://q.com");
    assert_eq!(b.get_quickmark("?").as_deref(), Some("https://q.com"));
}

#[test]
fn history_rules() {
    assert!(!should_record(""));
    assert!(!should_record("about:blank"));
    assert!(should_record("https://a.com"));
    assert_eq!(search_limit(0), 1);
    assert_eq!(search_limit(30), 30);
    assert_eq!(search_limit(5000), 100);
    assert_eq!(like_pattern("  \t"), None);
    assert_eq!(like_pattern(" rust ").as_deref(), Some("%rust%"));
}

#[test]
fn session_restorable() {
    assert!(!Session::new("_last".into(), 0, vec![]).is_restorable());
    assert!(!Session::new("_last".into(), 0, vec!["about:blank".into()]).is_restorable());
    assert!(Session::new("_last".into(), 0, vec!["about:blank".into(), "x".into()]).is_restorable());
    assert!(Session::new("s".into(), 2, vec!["https://a.com".into()]).is_restorable());
}

#[test]
fn strmap_orders_keys() {
    let mut m: StrMap<u32> = StrMap::new();
    m.insert("b".to_string(), 1);
    m.insert("a".to_string(), 2);
    m.insert("ab".to_string(), 3);
    m.insert("b".to_string(), 4);
    let keys: Vec<(&str, u32)> = m.entries().iter().map(|e| (e.0.as_str(), e.1)).collect();
    assert_eq!(keys, vec![("a", 2), ("ab", 3), ("b", 4)]);
    m.remove("ab");
    m.remove("zz");
    assert_eq!(m.len(), 2);
    assert_eq!(m.get("a"), Some(&2));
    assert!(!m.contains_key("ab"));
}

#[test]
fn cosmetic_script_wraps_selectors() {
    assert_eq!(cosmetic_script(None), None);
    let js = cosmetic_script(Some("\"a,b\"".to_string())).unwrap();
    assert_eq!(js, format!("{COSMETIC_PREFIX}\"a,b\"{COSMETIC_SUFFIX}"));
}

#[test]
fn payload_uses_name_literals_in_order() {
    let mk = |name: &str, code: &str| UserScript {
        name: name.to_string(),
        file: "f.js".to_string(),
        matches: vec!["*".to_string()],
        excludes: vec![],
        run_at: "document-end".to_string(),
        code: code.to_string(),
        enabled: true,
    };
    let a = mk("A", "a();");
    let b = mk("B", "b();");
    let js = payload_js(&vec![&a, &b], &vec![Some("\"A\"".to_string()), None]);
    assert_eq!(
        js,
        "(function(){\ntry {\na();\n} catch (e) { console.error('[netfly userscript]', \"A\", e); }\n\
         try {\nb();\n} catch (e) { console.error('[netfly userscript]', \"?\", e); }\n})();"
    );
    assert_eq!(payload_js(&vec![], &vec![]), "(function(){\n})();");
}

#[test]
fn download_times_are_recorded() {
    let mut m = DownloadManager::default();
    let r = m.on_requested_at("https://x/a.zip", "/d/a.zip", 42);
    assert_eq!(r.started_at, 42);
    assert_eq!(r.finished_at, None);
    let f = m.on_finished_at("https://x/a.zip", None, false, 50).unwrap();
    assert_eq!(f.started_at, 42);
    assert_eq!(f.finished_at, Some(50));
    assert_eq!(f.status, DownloadStatus::Failed);
    let g = m.on_finished_at("https://x/b.zip", Some("/d/b.zip"), true, 7).unwrap();
    assert_eq!(g.started_at, 7);
    assert_eq!(g.finished_at, Some(7));
    assert_eq!(g.filename, "b.zip");
    assert_eq!(g.id, 1);
}

#[test]
fn save_path_search_steps() {
    assert_eq!(after_candidate(0, false), DestStep::Use(0));
    assert_eq!(after_candidate(0, true), DestStep::Try(1));
    assert_eq!(after_candidate(5, true), DestStep::Try(6));
    assert_eq!(after_candidate(5, false), DestStep::Use(5));
    assert_eq!(after_candidate(999, true), DestStep::Use(0));
}

#[test]
fn start_page_in_first_tab() {
    let mut b = BrowserState::default();
    b.show_start_page("https://start.example/");
    assert_eq!(b.tabs[0].url, "https://start.example/");
    assert_eq!(b.tabs[0].title, "https://start.example/");
    assert_eq!(b.tabs[0].id, "content-0");
    b.show_start_page("about:blank");
    assert_eq!(b.tabs[0].title, "New Tab");
    let mut e = BrowserState::empty();
    e.show_start_page("https://x/");
    assert!(e.tabs.is_empty());
}

#[test]
fn general_settings_update_only_given_fields() {
    let mut cfg = Config::default();
    cfg.set_general(Some("https://home/".to_string()), None, Some(false));
    assert_eq!(cfg.start_page, "https://home/");
    assert_eq!(cfg.default_search, "https://duckduckgo.com/?q={}");
    assert!(!cfg.restore_session);
    cfg.set_general(None, Some("https://s/?q={}".to_string()), None);
    assert_eq!(cfg.start_page, "https://home/");
    assert_eq!(cfg.default_search, "https://s/?q={}");
    assert!(!cfg.restore_session);
}

#[test]
fn only_after_load_scripts_are_injected() {
    let mk = |name: &str, run_at: &str| UserScript {
        name: name.to_string(),
        file: format!("{name}.js"),
        matches: vec!["*".to_string()],
        excludes: vec![],
        run_at: run_at.to_string(),
        code: format!("{name}();"),
        enabled: true,
    };
    let store = UserScriptStore {
        scripts: vec![
            mk("early", "document-start"),
            mk("end", "document-end"),
            mk("idle", "document-idle"),
        ],
    };
    let names: Vec<&str> = store.matching_for("https://a.com/").iter().map(|s| s.name.as_str()).collect();
    assert_eq!(names, vec!["end", "idle"]);
    let js = store.inject_js_for("https://a.com/").unwrap();
    assert!(!js.contains("early();"));
    assert!(js.contains("'[netfly userscript]', \"end\", e)"));
}

#[test]
fn injected_names_are_json_literals() {
    let store = UserScriptStore {
        scripts: vec![UserScript {
            name: "say \"hi\"\n".to_string(),
            file: "s.js".to_string(),
            matches: vec!["*".to_string()],
            excludes: vec![],
            run_at: "document-end".to_string(),
            code: "x();".to_string(),
            enabled: true,
        }],
    };
    let js = store.inject_js_for("https://a.com/").unwrap();
    assert!(js.contains("'[netfly userscript]', \"say \\\"hi\\\"\\n\", e)"));
}

#[test]
fn cosmetic_filter_present_when_on() {
    assert!(Adblock::load(true, None).cosmetic_inject_js().is_some());
    assert!(Adblock::load(false, None).cosmetic_inject_js().is_none());
}

#[test]
fn webview_start_url_parses_or_blank() {
    assert_eq!(content_start_url("https://a.com"), "https://a.com/");
    assert_eq!(content_start_url("about:blank"), "about:blank");
    assert_eq!(content_start_url("not a url"), "about:blank");
}

#[test]
fn next_and_prev_on_no_tabs_keep_the_rest() {
    let mut e = BrowserState::empty();
    e.status = "kept".to_string();
    let id = e.next_tab();
    assert_eq!(id, "content-0");
    assert_eq!(e.status, "kept");
    assert!(e.closed.is_empty());
    assert_eq!(e.next_id, 1);
    let mut f = BrowserState::empty();
    f.prev_tab();
    assert_eq!(f.tabs.len(), 1);
    assert_eq!(f.tabs[0].title, "New Tab");
}

#[test]
fn reset_undoes_set_binding() {
    let mut cfg = Config::default();
    cfg.set_binding("tab-new", vec!["cmd+n".into()]);
    cfg.reset_binding("tab-new");
    assert!(!cfg.bindings.contains_key("tab-new"));
    cfg.reset_binding("tab-new");
    assert_eq!(cfg.bindings.len(), 0);
}

#[test]
fn normalize_twice_with_defaults() {
    let cfg = Config::default();
    for input in ["", " about:blank ", "g rust lang", "hello world", "w x", "a.b!c", "zürich"] {
        let once = normalize_url(input, &cfg);
        assert_eq!(normalize_url(&once, &cfg), once);
    }
}
