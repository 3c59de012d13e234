//! Navigations requested by a content webview: ordinary page loads, which
//! the blocker may stop, and the `netfly://` bridge the injected page script
//! uses to reach the shell (escape, forwarded shortcuts, opening a tab, and
//! reporting the page's title and URL).

use vstd::prelude::*;
use vstd::string::*;
use crate::adblock::Adblock;
use crate::config::opt_view;
use crate::text::{chars_eq, chars_of, push_str, strip_leading, strip_leading_char, string_of};

verus! {

/// A navigation target, as its parts read.
#[derive(Debug, Clone)]
pub struct NavUrl {
    /// The whole URL.
    pub text: String,
    pub scheme: String,
    pub host: Option<String>,
    pub path: String,
    /// The decoded query pairs, in order.
    pub query: Vec<(String, String)>,
}

/// What to do with a navigation.
#[derive(Debug, Clone)]
pub enum NavAction {
    /// Let the page load.
    Proceed,
    /// Stop it: the host is blocked; `status` is what the status line shows.
    Blocked { status: String },
    /// The page asked the shell to take the keyboard.
    Escape,
    /// A bound shortcut pressed inside the page.
    Shortcut { chord: String },
    /// Open `url` in a new tab.
    OpenTab { url: String },
    /// The page reports its URL and title (either may be empty).
    PageMeta { url: String, title: String },
    /// A bridge request with nothing to do.
    Ignore,
}

/// The query pairs as character sequences.
pub open spec fn pairs(q: Seq<(String, String)>) -> Seq<(Seq<char>, Seq<char>)> {
    q.map_values(|p: (String, String)| (p.0@, p.1@))
}

/// The value of the first pair named `key`; empty when there is none.
pub open spec fn query_value(q: Seq<(Seq<char>, Seq<char>)>, key: Seq<char>) -> Seq<char>
    decreases q.len(),
{
    if q.len() == 0 {
        Seq::empty()
    } else if q[0].0 == key {
        q[0].1
    } else {
        query_value(q.drop_first(), key)
    }
}

/// The bridge command of a `netfly://` URL: its host, or without one its
/// path less leading slashes.
pub open spec fn bridge_command(host: Option<Seq<char>>, path: Seq<char>) -> Seq<char> {
    match host {
        Some(h) => if h.len() > 0 {
            h
        } else {
            strip_leading(path, '/')
        },
        None => strip_leading(path, '/'),
    }
}

/// The status line after blocking a navigation to `host`.
pub open spec fn blocked_status(host: Option<Seq<char>>) -> Seq<char> {
    "Blocked "@ + match host {
        Some(h) => h,
        None => "tracker"@,
    }
}

/// The blocked-load count after one more block (wrapping at `u64::MAX`).
pub open spec fn bumped(n: u64) -> u64 {
    if n == u64::MAX {
        0
    } else {
        (n + 1) as u64
    }
}

/// What a `netfly://` request asks for, by its command and query.
pub open spec fn bridge_action(cmd: Seq<char>, q: Seq<(Seq<char>, Seq<char>)>, r: NavAction) -> bool {
    if cmd == "escape"@ {
        r is Escape
    } else if cmd == "shortcut"@ {
        if query_value(q, "chord"@).len() > 0 {
            r matches NavAction::Shortcut { chord } && chord@ == query_value(q, "chord"@)
        } else {
            r is Ignore
        }
    } else if cmd == "open-tab"@ {
        if query_value(q, "url"@).len() > 0 {
            r matches NavAction::OpenTab { url } && url@ == query_value(q, "url"@)
        } else {
            r is Ignore
        }
    } else if cmd == "page-meta"@ {
        r matches NavAction::PageMeta { url, title } && url@ == query_value(q, "url"@) && title@
            == query_value(q, "title"@)
    } else {
        r is Ignore
    }
}

/// The value of the first query pair named `key`; empty when there is none.
pub fn query_lookup(q: &Vec<(String, String)>, key: &str) -> (r: String)
    ensures
        r@ == query_value(pairs(q@), key@),
{
    let k = chars_of(key);
    let ghost all = pairs(q@);
    assert(all.skip(0) =~= all);
    let mut i: usize = 0;
    while i < q.len()
        invariant
            i <= q.len(),
            k@ == key@,
            all == pairs(q@),
            query_value(all, key@) == query_value(all.skip(i as int), key@),
        decreases q.len() - i,
    {
        let ghost rest = all.skip(i as int);
        assert(rest[0] == (q@[i as int].0@, q@[i as int].1@));
        assert(rest.drop_first() =~= all.skip(i + 1));
        let name = chars_of(q[i].0.as_str());
        if chars_eq(&name, &k) {
            return q[i].1.clone();
        }
        i = i + 1;
    }
    assert(all.skip(i as int).len() == 0);
    String::new()
}

/// The bridge command of a `netfly://` URL.
pub fn command_of(host: &Option<String>, path: &str) -> (r: String)
    ensures
        r@ == bridge_command(opt_view(*host), path@),
{
    match host {
        Some(h) => {
            if !h.as_str().is_empty() {
                return h.clone();
            }
        },
        None => {},
    }
    let p = chars_of(path);
    string_of(&strip_leading_char(&p, '/'))
}

/// Decides a navigation. Outside the `netfly` scheme the page loads unless
/// the blocker lists its host, in which case the block is counted. A
/// `netfly://` request is never loaded: its command and query say what the
/// shell does instead.
pub fn route_navigation(ab: &mut Adblock, nav: &NavUrl) -> (r: NavAction)
    ensures
        nav.scheme@ != "netfly"@ ==> {
            &&& old(ab).blocks_url(nav.text@) ==> {
                &&& r matches NavAction::Blocked { status } && status@ == blocked_status(opt_view(nav.host))
                &&& final(ab).count() == bumped(old(ab).count())
            }
            &&& !old(ab).blocks_url(nav.text@) ==> r is Proceed && final(ab).count() == old(ab).count()
            &&& final(ab).on() == old(ab).on()
            &&& final(ab).listed() == old(ab).listed()
        },
        nav.scheme@ == "netfly"@ ==> {
            &&& bridge_action(bridge_command(opt_view(nav.host), nav.path@), pairs(nav.query@), r)
            &&& *final(ab) == *old(ab)
        },
{
    let scheme = chars_of(nav.scheme.as_str());
    let netfly = chars_of("netfly");
    if !chars_eq(&scheme, &netfly) {
        if ab.is_blocked_url(nav.text.as_str()) {
            ab.record_block();
            let mut st = chars_of("Blocked ");
            match &nav.host {
                Some(h) => push_str(&mut st, h.as_str()),
                None => push_str(&mut st, "tracker"),
            }
            return NavAction::Blocked { status: string_of(&st) };
        }
        return NavAction::Proceed;
    }
    let cmd = chars_of(command_of(&nav.host, nav.path.as_str()).as_str());
    if chars_eq(&cmd, &chars_of("escape")) {
        NavAction::Escape
    } else if chars_eq(&cmd, &chars_of("shortcut")) {
        let chord = query_lookup(&nav.query, "chord");
        if !chord.as_str().is_empty() {
            NavAction::Shortcut { chord }
        } else {
            NavAction::Ignore
        }
    } else if chars_eq(&cmd, &chars_of("open-tab")) {
        let url = query_lookup(&nav.query, "url");
        if !url.as_str().is_empty() {
            NavAction::OpenTab { url }
        } else {
            NavAction::Ignore
        }
    } else if chars_eq(&cmd, &chars_of("page-meta")) {
        let title = query_lookup(&nav.query, "title");
        let url = query_lookup(&nav.query, "url");
        NavAction::PageMeta { url, title }
    } else {
        NavAction::Ignore
    }
}

/// What `url::Url::parse(url)` gives, serialized (`Url::as_str`); `None` when
/// the URL does not parse.
pub uninterp spec fn parsed_url_serialization(url: Seq<char>) -> Option<Seq<char>>;

/// `url::Url::parse` followed by `as_str`; the result is
/// `parsed_url_serialization` of the input.
#[verifier::external_body]
fn url_serialize(url: &str) -> (r: Option<String>)
    ensures
        opt_view(r) == parsed_url_serialization(url@),
{
    url::Url::parse(url).ok().map(|u| u.as_str().to_string())
}

/// The URL a new content webview starts at: `url` as parsed and serialized,
/// or `about:blank` when it does not parse.
pub fn content_start_url(url: &str) -> (r: String)
    ensures
        r@ == match parsed_url_serialization(url@) {
            Some(s) => s,
            None => "about:blank"@,
        },
{
    match url_serialize(url) {
        Some(s) => s,
        None => String::from_str("about:blank"),
    }
}

} // verus!
