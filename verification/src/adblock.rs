//! Host-based ad and tracker blocking, with cosmetic CSS filtering.

use vstd::prelude::*;
use vstd::string::*;
use crate::config::opt_view;
use crate::json::{json_quote, to_json_string};
use crate::strmap::StrMap;
use crate::text::{
    after_first_word, chars_eq, chars_of, first_word, has_prefix_str, lower, next_line, push_all,
    slice, split_first_word, split_lines, starts_with, strip_leading, strip_leading_char,
    strip_trailing, strip_trailing_char, string_of, to_lower, trim, trimmed, is_ws, word_len,
    trim_start, lower_char,
};

verus! {

/// Compact built-in list of common ad and tracker hosts (suffix match).
pub const BUILTIN_HOSTS: &'static str = "# Netfly built-in blocklist (one host per line, suffix match)
doubleclick.net
googlesyndication.com
googleadservices.com
google-analytics.com
googletagmanager.com
googletagservices.com
adservice.google.com
adnxs.com
adsrvr.org
advertising.com
amazon-adsystem.com
adform.net
adroll.com
bidswitch.net
casalemedia.com
chartbeat.com
criteo.com
criteo.net
hotjar.com
media.net
mixpanel.com
moatads.com
openx.net
outbrain.com
pubmatic.com
quantserve.com
rubiconproject.com
scorecardresearch.com
sharethrough.com
smartadserver.com
taboola.com
teads.tv
yieldmo.com
zedo.com
";

/// The CSS selectors hidden by cosmetic filtering, one group per line.
pub const COSMETIC_SELECTORS: &'static str = "\n.adsbygoogle, .adsbygoogle-noablate,\nins.adsbygoogle,\n[id^=\"google_ads_\"], [id^=\"div-gpt-ad\"],\n[class*=\"ad-container\"], [class*=\"ad_container\"],\n[class*=\"ad-banner\"], [class*=\"ad_banner\"],\n[class*=\"advertisement\"],\niframe[src*=\"doubleclick\"], iframe[src*=\"googlesyndication\"],\niframe[id^=\"google_ads\"],\n#ad, #ads, #banner-ad, .ad-slot, .adslot,\n.sponsored-content, .promo-ad,\ndiv[data-ad], div[data-ad-slot],\n.taboola, .OUTBRAIN, .outbrain, .rc-widget\n";

/// The script text before the selector literal.
pub const COSMETIC_PREFIX: &'static str = "(function(){\n  try {\n    var sel = ";

/// The script text after the selector literal.
pub const COSMETIC_SUFFIX: &'static str = ";\n    var style = document.getElementById('__netfly_adblock_css');\n    if (!style) {\n      style = document.createElement('style');\n      style.id = '__netfly_adblock_css';\n      style.textContent = sel + '{display:none!important;visibility:hidden!important;height:0!important;max-height:0!important;overflow:hidden!important;}';\n      (document.documentElement||document.head).appendChild(style);\n    }\n    function nuke() {\n      try {\n        document.querySelectorAll(sel).forEach(function(el){\n          el.remove();\n        });\n      } catch(e) {}\n    }\n    nuke();\n    if (!window.__netflyAdblockObs) {\n      window.__netflyAdblockObs = new MutationObserver(function(){ nuke(); });\n      window.__netflyAdblockObs.observe(document.documentElement, {childList:true,subtree:true});\n    }\n  } catch(e) {}\n})();";

/// The host a blocklist line names, if any: blank lines and `#` comments name
/// none; `0.0.0.0 host` and `127.0.0.1 host` name their second word, other
/// lines their first; leading dots are dropped and letters lower-cased; an
/// empty host or `localhost` is skipped.
pub open spec fn host_of_line(line: Seq<char>) -> Option<Seq<char>> {
    let l = trim(line);
    if l.len() == 0 || l[0] == '#' {
        None
    } else {
        let tok = if starts_with(l, "0.0.0.0 "@) || starts_with(l, "127.0.0.1 "@) {
            first_word(after_first_word(l))
        } else {
            first_word(l)
        };
        let h = to_lower(strip_leading(trim(tok), '.'));
        if h.len() == 0 || h == "localhost"@ {
            None
        } else {
            Some(h)
        }
    }
}

/// The hosts that a sequence of lines names.
pub open spec fn hosts_in(lines: Seq<Seq<char>>) -> Set<Seq<char>> {
    Set::new(|h: Seq<char>| exists|i: int| 0 <= i < lines.len() && host_of_line(lines[i]) == Some(h))
}

/// The hosts a blocklist text names.
pub open spec fn list_hosts(raw: Seq<char>) -> Set<Seq<char>> {
    hosts_in(split_lines(raw))
}

/// The host a blocklist line names.
fn parse_host_line(line: &Vec<char>) -> (r: Option<Vec<char>>)
    ensures
        match r {
            Some(h) => host_of_line(line@) == Some(h@),
            None => host_of_line(line@) is None,
        },
{
    let l = trimmed(line);
    if l.len() == 0 || l[0] == '#' {
        return None;
    }
    let (first, after) = split_first_word(&l);
    let tok = if has_prefix_str(&l, "0.0.0.0 ") || has_prefix_str(&l, "127.0.0.1 ") {
        let (second, _) = split_first_word(&after);
        second
    } else {
        first
    };
    let t = trimmed(&tok);
    let s = strip_leading_char(&t, '.');
    let h = lower(&s);
    let localhost = chars_of("localhost");
    if h.len() == 0 || chars_eq(&h, &localhost) {
        return None;
    }
    Some(h)
}

/// The hosts named so far grow by what one more line names.
proof fn lemma_hosts_push(done: Seq<Seq<char>>, line: Seq<char>)
    ensures
        hosts_in(done.push(line)) == hosts_in(done).union(
            match host_of_line(line) {
                Some(h) => set![h],
                None => Set::<Seq<char>>::empty(),
            },
        ),
{
    let nd = done.push(line);
    let extra = match host_of_line(line) {
        Some(h) => set![h],
        None => Set::<Seq<char>>::empty(),
    };
    assert forall|x: Seq<char>| hosts_in(nd).contains(x) implies hosts_in(done).union(extra).contains(x) by {
        let i = choose|i: int| 0 <= i < nd.len() && host_of_line(nd[i]) == Some(x);
        if i < done.len() {
            assert(done[i] == nd[i]);
        }
    }
    assert forall|x: Seq<char>| hosts_in(done).union(extra).contains(x) implies hosts_in(nd).contains(x) by {
        if hosts_in(done).contains(x) {
            let i = choose|i: int| 0 <= i < done.len() && host_of_line(done[i]) == Some(x);
            assert(nd[i] == done[i]);
        } else {
            assert(nd[done.len() as int] == line);
        }
    }
    assert(hosts_in(nd) =~= hosts_in(done).union(extra));
}

/// Adds every host that `raw` names to `set`.
fn load_hosts_into(set: &mut StrMap<()>, raw: &str)
    ensures
        final(set)@.dom() == old(set)@.dom().union(list_hosts(raw@)),
{
    let rv = chars_of(raw);
    let ghost mut done: Seq<Seq<char>> = Seq::empty();
    let mut pos: usize = 0;
    assert(rv@.skip(0) =~= rv@);
    assert(Seq::<Seq<char>>::empty() + split_lines(rv@) =~= split_lines(rv@));
    assert(hosts_in(done) =~= Set::<Seq<char>>::empty());
    assert(old(set)@.dom().union(Set::<Seq<char>>::empty()) =~= old(set)@.dom());
    loop
        invariant_except_break
            pos <= rv.len(),
            split_lines(rv@) == done + split_lines(rv@.skip(pos as int)),
            set@.dom() == old(set)@.dom().union(hosts_in(done)),
        ensures
            set@.dom() == old(set)@.dom().union(hosts_in(split_lines(rv@))),
        decreases rv.len() - pos,
    {
        let (line, last) = next_line(&rv, pos);
        let ghost before = set@.dom();
        match parse_host_line(&line) {
            Some(h) => {
                set.insert(string_of(&h), ());
                assert(set@.dom() =~= before.union(set![h@]));
            },
            None => {
                assert(set@.dom() =~= before.union(Set::<Seq<char>>::empty()));
            },
        }
        proof {
            lemma_hosts_push(done, line@);
            assert(set@.dom() =~= old(set)@.dom().union(hosts_in(done.push(line@))));
            if last {
                assert(split_lines(rv@) =~= done.push(line@));
            } else {
                assert(split_lines(rv@) =~= done.push(line@) + split_lines(rv@.skip(pos + line@.len() + 1)));
            }
            done = done.push(line@);
        }
        if last {
            break;
        }
        pos = pos + line.len() + 1;
    }
}

/// The hosts of the built-in list followed by an optional user list.
fn host_set(extra: Option<&str>) -> (r: StrMap<()>)
    ensures
        r@.dom() == list_hosts(BUILTIN_HOSTS@).union(
            match extra {
                Some(e) => list_hosts(e@),
                None => Set::<Seq<char>>::empty(),
            },
        ),
{
    let mut hosts: StrMap<()> = StrMap::new();
    load_hosts_into(&mut hosts, BUILTIN_HOSTS);
    match extra {
        Some(e) => load_hosts_into(&mut hosts, e),
        None => {},
    }
    assert(Set::<Seq<char>>::empty().union(list_hosts(BUILTIN_HOSTS@)) =~= list_hosts(BUILTIN_HOSTS@));
    assert(list_hosts(BUILTIN_HOSTS@).union(Set::<Seq<char>>::empty()) =~= list_hosts(BUILTIN_HOSTS@));
    hosts
}

/// The hosts of the built-in list and of an optional user list.
pub open spec fn loaded_hosts(extra: Option<Seq<char>>) -> Set<Seq<char>> {
    list_hosts(BUILTIN_HOSTS@).union(
        match extra {
            Some(e) => list_hosts(e),
            None => Set::<Seq<char>>::empty(),
        },
    )
}

/// `h` or a suffix of it starting after one of its dots is listed.
pub open spec fn suffix_listed(set: Set<Seq<char>>, h: Seq<char>) -> bool {
    ||| set.contains(h)
    ||| exists|k: int| 0 <= k < h.len() && h[k] == '.' && set.contains(#[trigger] h.skip(k + 1))
}

/// Whether the blocker stops `host`: trailing dots are dropped and letters
/// lower-cased, then the host or one of its parent domains must be listed.
pub open spec fn host_blocked(enabled: bool, set: Set<Seq<char>>, host: Seq<char>) -> bool {
    let h = to_lower(strip_trailing(host, '.'));
    enabled && h.len() > 0 && suffix_listed(set, h)
}

/// What `url::Url::parse(url)` gives as `host_str()`: `None` when the URL does
/// not parse or has no host.
pub uninterp spec fn parsed_url_host(url: Seq<char>) -> Option<Seq<char>>;

/// `url::Url::parse` followed by `host_str`; the result is `parsed_url_host`
/// of the input.
#[verifier::external_body]
fn url_host(url: &str) -> (r: Option<String>)
    ensures
        opt_view(r) == parsed_url_host(url@),
{
    url::Url::parse(url).ok().and_then(|u| u.host_str().map(|h| h.to_string()))
}

/// What the blocker reports.
#[derive(Debug, Clone, Copy, PartialEq, Eq)]
pub struct AdblockStatus {
    pub enabled: bool,
    pub host_count: usize,
    pub blocked_count: u64,
}

/// The blocker: on/off switch, listed hosts and the number of blocked loads.
#[derive(Debug)]
pub struct Adblock {
    enabled: bool,
    hosts: StrMap<()>,
    blocked_count: u64,
}

impl Adblock {
    /// Whether blocking is on.
    pub closed spec fn on(&self) -> bool {
        self.enabled
    }

    /// The listed hosts.
    pub closed spec fn listed(&self) -> Set<Seq<char>> {
        self.hosts@.dom()
    }

    /// How many loads were blocked.
    pub closed spec fn count(&self) -> u64 {
        self.blocked_count
    }

    /// A blocker with the built-in list and, when given, the user's list.
    pub fn load(enabled: bool, user_list: Option<&str>) -> (r: Self)
        ensures
            r.on() == enabled,
            r.listed() == loaded_hosts(
                match user_list {
                    Some(e) => Some(e@),
                    None => None,
                },
            ),
            r.count() == 0,
    {
        Adblock { enabled, hosts: host_set(user_list), blocked_count: 0 }
    }

    /// Rebuilds the list from the built-in hosts and the user's list; returns
    /// how many hosts are listed.
    pub fn reload(&mut self, user_list: Option<&str>) -> (n: usize)
        ensures
            final(self).listed() == loaded_hosts(
                match user_list {
                    Some(e) => Some(e@),
                    None => None,
                },
            ),
            n == final(self).listed().len(),
            final(self).on() == old(self).on(),
            final(self).count() == old(self).count(),
    {
        let hosts = host_set(user_list);
        let n = hosts.len();
        self.hosts = hosts;
        n
    }

    /// Turns blocking on or off.
    pub fn set_enabled(&mut self, on: bool)
        ensures
            final(self).on() == on,
            final(self).listed() == old(self).listed(),
            final(self).count() == old(self).count(),
    {
        self.enabled = on;
    }

    /// Whether `host` is on the list exactly as given.
    pub fn lists(&self, host: &str) -> (r: bool)
        ensures
            r == self.listed().contains(host@),
    {
        self.hosts.contains_key(host)
    }

    /// Whether blocking is on.
    pub fn is_enabled(&self) -> (r: bool)
        ensures
            r == self.on(),
    {
        self.enabled
    }

    /// The switch, the number of listed hosts and the block count.
    pub fn status(&self) -> (r: AdblockStatus)
        ensures
            r.enabled == self.on(),
            r.host_count == self.listed().len(),
            r.blocked_count == self.count(),
    {
        AdblockStatus { enabled: self.enabled, host_count: self.hosts.len(), blocked_count: self.blocked_count }
    }

    /// Blocking is on and the URL's host, or a parent domain of it, is
    /// listed; a URL that does not parse or has no host is never blocked.
    pub open spec fn blocks_url(&self, url: Seq<char>) -> bool {
        self.on() && match parsed_url_host(url) {
            Some(h) => host_blocked(self.on(), self.listed(), h),
            None => false,
        }
    }

    /// True if the URL's host should be blocked; a URL that does not parse or
    /// has no host is never blocked.
    pub fn is_blocked_url(&self, url: &str) -> (r: bool)
        ensures
            r == self.blocks_url(url@),
    {
        if !self.enabled {
            return false;
        }
        match url_host(url) {
            Some(h) => self.is_blocked_host(h.as_str()),
            None => false,
        }
    }

    /// True if `host`, or a parent domain of it, is listed and blocking is on.
    pub fn is_blocked_host(&self, host: &str) -> (r: bool)
        ensures
            r == host_blocked(self.on(), self.listed(), host@),
    {
        if !self.enabled {
            return false;
        }
        let hv = chars_of(host);
        let stripped = strip_trailing_char(&hv, '.');
        let h = lower(&stripped);
        if h.len() == 0 {
            return false;
        }
        if self.hosts.contains_key(string_of(&h).as_str()) {
            return true;
        }
        let mut k: usize = 0;
        while k < h.len()
            invariant
                k <= h.len(),
                h@ == to_lower(strip_trailing(host@, '.')),
                h@.len() > 0,
                self.on(),
                forall|j: int| 0 <= j < k && h@[j] == '.' ==> !self.hosts@.dom().contains(#[trigger] h@.skip(j + 1)),
            decreases h.len() - k,
        {
            if h[k] == '.' {
                let suffix = slice(&h, k + 1, h.len());
                assert(suffix@ =~= h@.skip(k + 1));
                if self.hosts.contains_key(string_of(&suffix).as_str()) {
                    assert(self.hosts@.dom().contains(h@.skip(k as int + 1)));
                    assert(suffix_listed(self.hosts@.dom(), h@));
                    return true;
                }
            }
            k = k + 1;
        }
        false
    }

    /// Counts one blocked load (wrapping around at `u64::MAX`).
    pub fn record_block(&mut self)
        ensures
            final(self).count() == (if old(self).count() == u64::MAX {
                0
            } else {
                (old(self).count() + 1) as u64
            }),
            final(self).on() == old(self).on(),
            final(self).listed() == old(self).listed(),
    {
        self.blocked_count = self.blocked_count.wrapping_add(1);
    }

    /// The script for cosmetic filtering: a stylesheet hiding the selectors and
    /// a watcher removing matching elements; none while blocking is off.
    pub fn cosmetic_inject_js(&self) -> (r: Option<String>)
        ensures
            !self.on() ==> r is None,
            self.on() ==> (r matches Some(js) && js@ == cosmetic_js(selector_list(COSMETIC_SELECTORS@))),
    {
        if !self.enabled {
            return None;
        }
        let selectors = join_selector_lines(COSMETIC_SELECTORS);
        let sel_json = match to_json_string(selectors.as_str()) {
            Ok(j) => Some(j),
            Err(_) => None,
        };
        cosmetic_script(sel_json)
    }
}

/// The cosmetic-filter script around the serialized selector list; none when
/// the list could not be serialized.
pub fn cosmetic_script(sel_json: Option<String>) -> (r: Option<String>)
    ensures
        match sel_json {
            Some(j) => r matches Some(js) && js@ == COSMETIC_PREFIX@ + j@ + COSMETIC_SUFFIX@,
            None => r is None,
        },
{
    match sel_json {
        Some(sj) => {
            let mut out = chars_of(COSMETIC_PREFIX);
            let j = chars_of(sj.as_str());
            push_all(&mut out, &j);
            let suffix = chars_of(COSMETIC_SUFFIX);
            push_all(&mut out, &suffix);
            Some(string_of(&out))
        },
        None => None,
    }
}

/// The cosmetic-filter script around a JSON literal of the selectors.
pub open spec fn cosmetic_js(selectors: Seq<char>) -> Seq<char> {
    COSMETIC_PREFIX@ + json_quote(selectors) + COSMETIC_SUFFIX@
}

/// The trimmed, non-empty lines of `lines`.
#[verifier::opaque]
pub open spec fn nonempty_trimmed(lines: Seq<Seq<char>>) -> Seq<Seq<char>>
    decreases lines.len(),
{
    if lines.len() == 0 {
        Seq::empty()
    } else if trim(lines.last()).len() > 0 {
        nonempty_trimmed(lines.drop_last()).push(trim(lines.last()))
    } else {
        nonempty_trimmed(lines.drop_last())
    }
}

/// Items joined with `,`.
#[verifier::opaque]
pub open spec fn join_commas(items: Seq<Seq<char>>) -> Seq<char>
    decreases items.len(),
{
    if items.len() == 0 {
        Seq::empty()
    } else if items.len() == 1 {
        items[0]
    } else {
        join_commas(items.drop_last()) + seq![','] + items.last()
    }
}

/// The selector list: the trimmed, non-empty lines joined with `,`.
pub open spec fn selector_list(raw: Seq<char>) -> Seq<char> {
    join_commas(nonempty_trimmed(split_lines(raw)))
}

proof fn lemma_nonempty_push(done: Seq<Seq<char>>, line: Seq<char>)
    ensures
        nonempty_trimmed(done.push(line)) == if trim(line).len() > 0 {
            nonempty_trimmed(done).push(trim(line))
        } else {
            nonempty_trimmed(done)
        },
{
    reveal(nonempty_trimmed);
    assert(done.push(line).drop_last() =~= done);
}

proof fn lemma_join_push(items: Seq<Seq<char>>, t: Seq<char>)
    ensures
        join_commas(items.push(t)) == if items.len() == 0 {
            t
        } else {
            join_commas(items) + seq![','] + t
        },
{
    reveal(join_commas);
    assert(items.push(t).drop_last() =~= items);
    if items.len() == 0 {
        assert(items.push(t)[0] == t);
    }
}

/// Appends one more line's selectors to the joined list.
fn add_selector_line(out: &mut Vec<char>, count: &mut usize, line: &Vec<char>, Ghost(done): Ghost<Seq<Seq<char>>>)
    requires
        old(out)@ == join_commas(nonempty_trimmed(done)),
        *old(count) == nonempty_trimmed(done).len(),
        *old(count) < usize::MAX || line@.len() == 0,
    ensures
        final(out)@ == join_commas(nonempty_trimmed(done.push(line@))),
        *final(count) == nonempty_trimmed(done.push(line@)).len(),
        *final(count) <= *old(count) + 1,
{
    let t = trimmed(line);
    proof {
        lemma_nonempty_push(done, line@);
        reveal(join_commas);
        crate::text::lemma_trim_len(line@);
    }
    if t.len() > 0 {
        let ghost before = out@;
        if *count > 0 {
            out.push(',');
        }
        push_all(out, &t);
        *count = *count + 1;
        proof {
            lemma_join_push(nonempty_trimmed(done), t@);
            if *count > 1 {
                assert(out@ =~= before + seq![','] + t@);
            } else {
                assert(out@ =~= t@);
            }
        }
    }
}

/// The trimmed, non-empty lines of `raw` joined with `,`.
fn join_selector_lines(raw: &str) -> (r: String)
    ensures
        r@ == selector_list(raw@),
{
    let rv = chars_of(raw);
    let ghost mut done: Seq<Seq<char>> = Seq::empty();
    let mut out: Vec<char> = Vec::new();
    let mut count: usize = 0;
    let mut pos: usize = 0;
    proof {
        reveal(nonempty_trimmed);
        reveal(join_commas);
    }
    assert(rv@.skip(0) =~= rv@);
    assert(Seq::<Seq<char>>::empty() + split_lines(rv@) =~= split_lines(rv@));
    loop
        invariant_except_break
            pos <= rv.len(),
            split_lines(rv@) == done + split_lines(rv@.skip(pos as int)),
            out@ == join_commas(nonempty_trimmed(done)),
            count == nonempty_trimmed(done).len(),
            count <= pos,
        ensures
            out@ == join_commas(nonempty_trimmed(split_lines(rv@))),
        decreases rv.len() - pos,
    {
        let (line, last) = next_line(&rv, pos);
        let ghost new_done = done.push(line@);
        add_selector_line(&mut out, &mut count, &line, Ghost(done));
        proof {
            if last {
                assert(split_lines(rv@) =~= new_done);
            } else {
                assert(split_lines(rv@) =~= new_done + split_lines(rv@.skip(pos + line@.len() + 1)));
            }
            done = new_done;
        }
        if last {
            break;
        }
        pos = pos + line.len() + 1;
    }
    string_of(&out)
}

/// An entry blocks itself and every subdomain of it, while blocking is on.
pub proof fn law_entry_blocks_subdomains(set: Set<Seq<char>>, h: Seq<char>, sub: Seq<char>)
    requires
        set.contains(h),
        h.len() > 0,
        h.last() != '.',
        to_lower(h) == h,
    ensures
        host_blocked(true, set, h),
        host_blocked(true, set, sub + seq!['.'] + h),
{
    assert(strip_trailing(h, '.') == h);
    let full = sub + seq!['.'] + h;
    assert(full.last() == h.last());
    assert(strip_trailing(full, '.') == full);
    let low = to_lower(full);
    let k = sub.len() as int;
    assert(low[k] == '.');
    assert(low.skip(k + 1) =~= h);
}

/// Nothing is blocked while blocking is off.
pub proof fn law_disabled_blocks_nothing(set: Set<Seq<char>>, host: Seq<char>)
    ensures
        !host_blocked(false, set, host),
{
}

/// A host name as blocklists write it: lower-case ASCII letters, digits,
/// `.` and `-`, not starting with `.`.
pub open spec fn plain_host(h: Seq<char>) -> bool {
    &&& h.len() > 0
    &&& h[0] != '.'
    &&& forall|i: int|
        0 <= i < h.len() ==> {
            let c = #[trigger] h[i];
            ('a' <= c && c <= 'z') || ('0' <= c && c <= '9') || c == '.' || c == '-'
        }
}

proof fn lemma_word_then_space(w: Seq<char>, rest: Seq<char>)
    requires
        forall|i: int| 0 <= i < w.len() ==> !is_ws(#[trigger] w[i]),
        rest.len() == 0 || is_ws(rest[0]),
    ensures
        word_len(w + rest) == w.len(),
    decreases w.len(),
{
    if w.len() > 0 {
        lemma_word_then_space(w.drop_first(), rest);
        assert((w + rest).drop_first() =~= w.drop_first() + rest);
    } else {
        assert(w + rest =~= rest);
    }
}

proof fn lemma_address_line(addr: Seq<char>, h: Seq<char>)
    requires
        plain_host(h),
        h != "localhost"@,
        addr.len() > 0,
        forall|i: int| 0 <= i < addr.len() ==> ('0' <= #[trigger] addr[i] && addr[i] <= '9') || addr[i] == '.',
        starts_with(addr + " "@ + h, "0.0.0.0 "@) || starts_with(addr + " "@ + h, "127.0.0.1 "@),
    ensures
        host_of_line(addr + " "@ + h) == Some(h),
{
    reveal_strlit(" ");
    reveal_strlit("localhost");
    let line = addr + " "@ + h;
    assert forall|i: int| 0 <= i < h.len() implies !is_ws(#[trigger] h[i]) by {
        let c = h[i];
    }
    assert forall|i: int| 0 <= i < addr.len() implies !is_ws(#[trigger] addr[i]) by {
        let c = addr[i];
    }
    assert(!is_ws(line[0])) by {
        assert(line[0] == addr[0]);
    }
    assert(!is_ws(line.last())) by {
        assert(line.last() == h.last());
    }
    crate::text::lemma_trim_fixed(line);
    assert(trim_start(line) == line);
    lemma_word_then_space(addr, " "@ + h);
    assert(line =~= addr + (" "@ + h));
    let after = line.skip(addr.len() as int);
    assert(after =~= " "@ + h);
    assert(is_ws(after[0]));
    assert(trim_start(after) == trim_start(after.drop_first()));
    assert(after.drop_first() =~= h);
    assert(trim_start(h) == h);
    lemma_word_then_space(h, Seq::empty());
    assert(h + Seq::<char>::empty() =~= h);
    assert(h.take(h.len() as int) =~= h);
    let tok = first_word(after_first_word(line));
    assert(tok == h);
    crate::text::lemma_trim_fixed(h);
    assert(strip_leading(h, '.') == h);
    assert(to_lower(h) =~= h) by {
        assert forall|i: int| 0 <= i < h.len() implies #[trigger] to_lower(h)[i] == h[i] by {
            assert(lower_char(h[i]) == h[i]);
        }
    }
}

/// A hosts-file line `0.0.0.0 <host>` or `127.0.0.1 <host>` names the host,
/// not the address, for any plain host name other than `localhost`.
pub proof fn law_hosts_file_line(h: Seq<char>)
    requires
        plain_host(h),
        h != "localhost"@,
    ensures
        host_of_line("0.0.0.0 "@ + h) == Some(h),
        host_of_line("127.0.0.1 "@ + h) == Some(h),
{
    reveal_strlit("0.0.0.0 ");
    reveal_strlit("127.0.0.1 ");
    reveal_strlit("0.0.0.0");
    reveal_strlit("127.0.0.1");
    reveal_strlit(" ");
    assert("0.0.0.0 "@ + h =~= "0.0.0.0"@ + " "@ + h);
    assert(("0.0.0.0 "@ + h).take(8) =~= "0.0.0.0 "@);
    lemma_address_line("0.0.0.0"@, h);
    assert("127.0.0.1 "@ + h =~= "127.0.0.1"@ + " "@ + h);
    assert(("127.0.0.1 "@ + h).take(10) =~= "127.0.0.1 "@);
    lemma_address_line("127.0.0.1"@, h);
}

} // verus!
