//! User configuration: start page, search engines, shortcut overrides, and
//! turning what the user typed into a URL.

use vstd::prelude::*;
use vstd::string::*;
use vstd::utf8::encode_utf8;
use crate::encode::{percent_encode, urlencoding_lite};
use crate::paths::{join, join_path};
use crate::strmap::StrMap;
use crate::text::{
    char_is_ascii_alnum, chars_eq, chars_of, contains_char, fill_braces, find, find_in, has_prefix,
    has_prefix_str, index_of, is_ascii_alnum, is_ws, find_from, occurs_at, position_of, push_all,
    replace_braces, slice,
    starts_with, string_of, trim, trimmed, trimmed_str,
};

verus! {

/// One chord or several for a single action.
#[derive(Debug, Clone, PartialEq)]
pub enum ChordSet {
    One(String),
    Many(Vec<String>),
}

/// A copy of a list of strings.
pub fn clone_strings(v: &Vec<String>) -> (r: Vec<String>)
    ensures
        r@ == v@,
{
    let mut r: Vec<String> = Vec::new();
    let mut i: usize = 0;
    while i < v.len()
        invariant
            i <= v.len(),
            r@ == v@.take(i as int),
        decreases v.len() - i,
    {
        r.push(v[i].clone());
        i = i + 1;
        assert(r@ =~= v@.take(i as int));
    }
    assert(v@.take(v.len() as int) =~= v@);
    r
}

impl ChordSet {
    /// The chords this set stands for.
    pub open spec fn chord_list(&self) -> Seq<String> {
        match self {
            ChordSet::One(c) => seq![*c],
            ChordSet::Many(v) => v@,
        }
    }

    /// The chords as a list: the single chord, or all of them in order.
    pub fn chords(&self) -> (r: Vec<String>)
        ensures
            r@ == self.chord_list(),
    {
        match self {
            ChordSet::One(c) => {
                let mut r: Vec<String> = Vec::new();
                r.push(c.clone());
                assert(r@ =~= seq![*c]);
                r
            },
            ChordSet::Many(v) => clone_strings(v),
        }
    }
}

/// Layout settings: the sidebar, and whether the top bar hides itself when
/// not in use.
#[derive(Debug, Clone, PartialEq, Eq)]
pub struct UiConfig {
    pub sidebar_width: u32,
    pub sidebar_collapsed: bool,
    pub auto_hide_topbar: bool,
}

impl Default for UiConfig {
    /// A 240-pixel sidebar, expanded, and a top bar that stays.
    fn default() -> (r: Self)
        ensures
            r.sidebar_width == 240,
            !r.sidebar_collapsed,
            !r.auto_hide_topbar,
    {
        UiConfig { sidebar_width: 240, sidebar_collapsed: false, auto_hide_topbar: false }
    }
}

/// The whole user configuration.
#[derive(Debug, Clone)]
pub struct Config {
    pub start_page: String,
    pub download_dir: String,
    pub default_search: String,
    pub restore_session: bool,
    pub adblock: bool,
    pub ui: UiConfig,
    pub search_engines: StrMap<String>,
    pub bindings: StrMap<ChordSet>,
}

/// The configuration a fresh install starts with.
pub open spec fn is_default_config(c: Config) -> bool {
    &&& c.start_page@ == "about:blank"@
    &&& c.download_dir@ == "~/Downloads"@
    &&& c.default_search@ == "https://duckduckgo.com/?q={}"@
    &&& c.restore_session
    &&& c.adblock
    &&& c.ui.sidebar_width == 240
    &&& !c.ui.sidebar_collapsed
    &&& !c.ui.auto_hide_topbar
    &&& c.search_engines@.dom() =~= set!["g"@, "ddg"@, "w"@, "gh"@]
    &&& c.search_engines@["g"@]@ == "https://www.google.com/search?q={}"@
    &&& c.search_engines@["ddg"@]@ == "https://duckduckgo.com/?q={}"@
    &&& c.search_engines@["w"@]@ == "https://en.wikipedia.org/wiki/Special:Search?search={}"@
    &&& c.search_engines@["gh"@]@ == "https://github.com/search?q={}"@
    &&& c.bindings@ == Map::<Seq<char>, ChordSet>::empty()
}

impl Default for Config {
    /// The built-in configuration: blank start page, DuckDuckGo as default
    /// search, four engine shortcuts, no shortcut overrides.
    fn default() -> (c: Self)
        ensures
            is_default_config(c),
    {
        let mut search_engines: StrMap<String> = StrMap::new();
        let g = String::from_str("g");
        let ddg = String::from_str("ddg");
        let w = String::from_str("w");
        let gh = String::from_str("gh");
        let vg = String::from_str("https://www.google.com/search?q={}");
        let vddg = String::from_str("https://duckduckgo.com/?q={}");
        let vw = String::from_str("https://en.wikipedia.org/wiki/Special:Search?search={}");
        let vgh = String::from_str("https://github.com/search?q={}");
        let ghost (kg, kddg, kw, kgh) = (g@, ddg@, w@, gh@);
        let ghost (wg, wddg, ww, wgh) = (vg, vddg, vw, vgh);
        proof {
            reveal_strlit("g");
            reveal_strlit("ddg");
            reveal_strlit("w");
            reveal_strlit("gh");
            assert(kg != kddg && kg != kw && kg != kgh && kddg != kw && kddg != kgh && kw != kgh) by {
                assert(kg.len() == 1 && kddg.len() == 3 && kw.len() == 1 && kgh.len() == 2);
                assert(kg[0] != kw[0]);
            }
        }
        search_engines.insert(g, vg);
        search_engines.insert(ddg, vddg);
        search_engines.insert(w, vw);
        search_engines.insert(gh, vgh);
        proof {
            assert(search_engines@[kg] == wg);
            assert(search_engines@[kddg] == wddg);
            assert(search_engines@[kw] == ww);
            assert(search_engines@[kgh] == wgh);
            assert(search_engines@.dom() =~= set![kg, kddg, kw, kgh]);
        }
        Config {
            start_page: String::from_str("about:blank"),
            download_dir: String::from_str("~/Downloads"),
            default_search: String::from_str("https://duckduckgo.com/?q={}"),
            restore_session: true,
            adblock: true,
            ui: UiConfig::default(),
            search_engines,
            bindings: StrMap::new(),
        }
    }
}

/// The chord set that `set_binding` stores for a list of chords.
pub open spec fn chord_set_for(chords: Vec<String>) -> ChordSet {
    if chords@.len() == 1 {
        ChordSet::One(chords@[0])
    } else {
        ChordSet::Many(chords)
    }
}

/// The download directory with a leading `~` put in terms of `home`.
pub open spec fn expand_home(dir: Seq<char>, home: Option<Seq<char>>) -> Seq<char> {
    if starts_with(dir, "~/"@) && home is Some {
        join_path(home->0, dir.skip(2))
    } else if dir == "~"@ && home is Some {
        home->0
    } else {
        dir
    }
}

/// The characters of an optional string.
pub open spec fn opt_view(o: Option<String>) -> Option<Seq<char>> {
    match o {
        Some(s) => Some(s@),
        None => None,
    }
}

/// Whether expanding `dir` needs the home directory.
pub open spec fn needs_home(dir: Seq<char>) -> bool {
    starts_with(dir, "~/"@) || dir == "~"@
}

/// The user's home directory, as `dirs::home_dir` finds it in the
/// environment; nothing is claimed of the result.
#[verifier::external_body]
fn home_dir() -> (r: Option<String>) {
    dirs::home_dir().map(|p| p.display().to_string())
}

/// Expands `~/rest` to `<home>/rest` and `~` to `<home>`; anything else, or a
/// missing home directory, leaves `download_dir` as it is.
pub fn expand_download_dir(download_dir: &str, home: Option<String>) -> (r: String)
    ensures
        r@ == expand_home(download_dir@, opt_view(home)),
{
    let d = chars_of(download_dir);
    let tilde_slash = chars_of("~/");
    let tilde = chars_of("~");
    match home {
        Some(h) => {
            proof {
                reveal_strlit("~/");
            }
            if has_prefix(&d, &tilde_slash) {
                let rest = slice(&d, 2, d.len());
                let rest_s = string_of(&rest);
                assert(rest@ == d@.skip(2));
                join(h.as_str(), rest_s.as_str())
            } else if chars_eq(&d, &tilde) {
                h
            } else {
                string_of(&d)
            }
        },
        None => string_of(&d),
    }
}

impl Config {
    /// Overrides an action's chords: one chord is stored as `One`, any other
    /// number (none included, meaning "explicitly unbound") as `Many`.
    pub fn set_binding(&mut self, action: &str, chords: Vec<String>)
        ensures
            final(self).bindings@ == old(self).bindings@.insert(action@, chord_set_for(chords)),
            final(self).start_page == old(self).start_page,
            final(self).download_dir == old(self).download_dir,
            final(self).default_search == old(self).default_search,
            final(self).restore_session == old(self).restore_session,
            final(self).adblock == old(self).adblock,
            final(self).ui == old(self).ui,
            final(self).search_engines@ == old(self).search_engines@,
    {
        let mut chords = chords;
        let ghost original = chords;
        let set = if chords.len() == 1 {
            ChordSet::One(chords.remove(0))
        } else {
            ChordSet::Many(chords)
        };
        self.bindings.insert(String::from_str(action), set);
    }

    /// Removes an action's override so the built-in default applies again.
    pub fn reset_binding(&mut self, action: &str)
        ensures
            final(self).bindings@ == old(self).bindings@.remove(action@),
            final(self).start_page == old(self).start_page,
            final(self).download_dir == old(self).download_dir,
            final(self).default_search == old(self).default_search,
            final(self).restore_session == old(self).restore_session,
            final(self).adblock == old(self).adblock,
            final(self).ui == old(self).ui,
            final(self).search_engines@ == old(self).search_engines@,
    {
        self.bindings.remove(action);
    }

    /// Replaces the layout settings.
    pub fn set_ui(&mut self, sidebar_width: u32, sidebar_collapsed: bool, auto_hide_topbar: bool)
        ensures
            final(self).ui == (UiConfig { sidebar_width, sidebar_collapsed, auto_hide_topbar }),
            final(self).start_page == old(self).start_page,
            final(self).download_dir == old(self).download_dir,
            final(self).default_search == old(self).default_search,
            final(self).restore_session == old(self).restore_session,
            final(self).adblock == old(self).adblock,
            final(self).search_engines@ == old(self).search_engines@,
            final(self).bindings@ == old(self).bindings@,
    {
        self.ui = UiConfig { sidebar_width, sidebar_collapsed, auto_hide_topbar };
    }

    /// Updates the general settings that are given; the others stay.
    pub fn set_general(
        &mut self,
        start_page: Option<String>,
        default_search: Option<String>,
        restore_session: Option<bool>,
    )
        ensures
            final(self).start_page == (match start_page {
                Some(v) => v,
                None => old(self).start_page,
            }),
            final(self).default_search == (match default_search {
                Some(v) => v,
                None => old(self).default_search,
            }),
            final(self).restore_session == (match restore_session {
                Some(v) => v,
                None => old(self).restore_session,
            }),
            final(self).download_dir == old(self).download_dir,
            final(self).adblock == old(self).adblock,
            final(self).ui == old(self).ui,
            final(self).search_engines@ == old(self).search_engines@,
            final(self).bindings@ == old(self).bindings@,
    {
        match start_page {
            Some(v) => self.start_page = v,
            None => {},
        }
        match default_search {
            Some(v) => self.default_search = v,
            None => {},
        }
        match restore_session {
            Some(v) => self.restore_session = v,
            None => {},
        }
    }

    /// `download_dir` with a leading `~` expanded to the home directory, which
    /// is looked up only when the directory starts with `~`.
    pub fn expanded_download_dir(&self) -> (r: String)
        ensures
            !needs_home(self.download_dir@) ==> r@ == self.download_dir@,
            exists|home: Option<Seq<char>>| r@ == expand_home(self.download_dir@, home),
    {
        let d = chars_of(self.download_dir.as_str());
        let tilde_slash = chars_of("~/");
        let tilde = chars_of("~");
        let home = if has_prefix(&d, &tilde_slash) || chars_eq(&d, &tilde) {
            home_dir()
        } else {
            None
        };
        let r = expand_download_dir(self.download_dir.as_str(), home);
        proof {
            let h = opt_view(home);
            assert(r@ == expand_home(self.download_dir@, h));
        }
        r
    }
}

/// A search template filled with a query: every `{}` replaced by the
/// percent-encoded query, or the encoding appended when there is no `{}`.
pub open spec fn apply_template(t: Seq<char>, q: Seq<char>) -> Seq<char> {
    let enc = percent_encode(encode_utf8(q));
    if find(t, seq!['{', '}']) is Some {
        fill_braces(t, enc)
    } else {
        t + enc
    }
}

/// Characters that may appear in something typed as a bare address.
pub open spec fn is_url_char(c: char) -> bool {
    is_ascii_alnum(c) || c == '.' || c == '/' || c == ':' || c == '-' || c == '_' || c == '?' || c
        == '=' || c == '&' || c == '%'
}

/// Input that is taken for a bare address such as `example.com/path`.
pub open spec fn looks_like_url(raw: Seq<char>) -> bool {
    &&& raw.contains('.')
    &&& !raw.contains(' ')
    &&& !(raw.len() > 0 && raw[0] == '.')
    &&& forall|i: int| 0 <= i < raw.len() ==> is_url_char(#[trigger] raw[i])
}

/// An engine shortcut such as `g rust`: the key before the first space names
/// a configured engine and some query follows.
pub open spec fn engine_url(raw: Seq<char>, engines: Map<Seq<char>, String>) -> Option<Seq<char>> {
    match index_of(raw, ' ') {
        Some(i) => {
            let key = trim(raw.take(i));
            let rest = trim(raw.skip(i + 1));
            if rest.len() > 0 && engines.contains_key(key) {
                Some(apply_template(engines[key]@, rest))
            } else {
                None
            }
        },
        None => None,
    }
}

/// What `normalize_url` makes of `input`.
pub open spec fn normalized(
    input: Seq<char>,
    start_page: Seq<char>,
    default_search: Seq<char>,
    engines: Map<Seq<char>, String>,
) -> Seq<char> {
    let raw = trim(input);
    if raw.len() == 0 {
        start_page
    } else if raw == "about:blank"@ {
        raw
    } else if starts_with(raw, "http://"@) || starts_with(raw, "https://"@) || starts_with(
        raw,
        "file://"@,
    ) {
        raw
    } else if engine_url(raw, engines) is Some {
        engine_url(raw, engines)->0
    } else if looks_like_url(raw) {
        "https://"@ + raw
    } else {
        apply_template(default_search, raw)
    }
}

/// Fills a search template with a query.
fn apply_search_template(template: &str, query: &str) -> (r: String)
    ensures
        r@ == apply_template(template@, query@),
{
    let encoded = urlencoding_lite(query);
    let enc = chars_of(encoded.as_str());
    let t = chars_of(template);
    let mut braces: Vec<char> = Vec::new();
    braces.push('{');
    braces.push('}');
    assert(braces@ =~= seq!['{', '}']);
    if find_in(&t, &braces).is_some() {
        string_of(&replace_braces(&t, &enc))
    } else {
        let mut r = t;
        push_all(&mut r, &enc);
        string_of(&r)
    }
}

/// Whether every character is one that a bare address may hold.
fn all_url_chars(v: &Vec<char>) -> (r: bool)
    ensures
        r == forall|i: int| 0 <= i < v@.len() ==> is_url_char(#[trigger] v@[i]),
{
    let mut i: usize = 0;
    while i < v.len()
        invariant
            i <= v.len(),
            forall|j: int| 0 <= j < i ==> is_url_char(#[trigger] v@[j]),
        decreases v.len() - i,
    {
        let c = v[i];
        if !(char_is_ascii_alnum(c) || c == '.' || c == '/' || c == ':' || c == '-' || c == '_' || c
            == '?' || c == '=' || c == '&' || c == '%') {
            return false;
        }
        i = i + 1;
    }
    true
}

/// Turns what the user typed into a URL: empty input gives the start page;
/// `about:blank` and `http://`, `https://`, `file://` URLs are kept; an engine
/// shortcut (`g rust`) fills that engine's template; something shaped like a
/// bare address gets `https://`; anything else goes to the default search.
pub fn normalize_url(input: &str, cfg: &Config) -> (r: String)
    ensures
        r@ == normalized(input@, cfg.start_page@, cfg.default_search@, cfg.search_engines@),
{
    let raw = trimmed_str(input);
    if raw.len() == 0 {
        return cfg.start_page.clone();
    }
    let blank = chars_of("about:blank");
    if chars_eq(&raw, &blank) {
        return string_of(&raw);
    }
    if has_prefix_str(&raw, "http://") || has_prefix_str(&raw, "https://") || has_prefix_str(
        &raw,
        "file://",
    ) {
        return string_of(&raw);
    }
    match position_of(&raw, ' ') {
        Some(i) => {
            let key = trimmed(&slice(&raw, 0, i));
            let rest = trimmed(&slice(&raw, i + 1, raw.len()));
            proof {
                assert(raw@.take(i as int) =~= raw@.subrange(0, i as int));
                assert(raw@.skip(i + 1) =~= raw@.subrange(i + 1, raw@.len() as int));
            }
            if rest.len() > 0 {
                let key_s = string_of(&key);
                match cfg.search_engines.get(key_s.as_str()) {
                    Some(template) => {
                        let rest_s = string_of(&rest);
                        return apply_search_template(template.as_str(), rest_s.as_str());
                    },
                    None => {},
                }
            }
        },
        None => {},
    }
    let looks = contains_char(&raw, '.') && !contains_char(&raw, ' ') && !(raw.len() > 0 && raw[0]
        == '.') && all_url_chars(&raw);
    if looks {
        let mut r = chars_of("https://");
        push_all(&mut r, &raw);
        string_of(&r)
    } else {
        let raw_s = string_of(&raw);
        apply_search_template(cfg.default_search.as_str(), raw_s.as_str())
    }
}

/// Storing a list of chords and reading it back with `chords` gives the same
/// list, whether it holds one chord, several, or none.
pub proof fn law_binding_roundtrip(chords: Vec<String>)
    ensures
        chord_set_for(chords).chord_list() == chords@,
{
    if chords@.len() == 1 {
        assert(seq![chords@[0]] =~= chords@);
    }
}

/// Normalizing is idempotent on input that is kept as a URL (an `http://`,
/// `https://` or `file://` URL, or a bare address that gets `https://`):
/// normalizing the result again changes nothing.
pub proof fn law_normalize_idempotent(
    input: Seq<char>,
    start_page: Seq<char>,
    default_search: Seq<char>,
    engines: Map<Seq<char>, String>,
)
    requires
        trim(input).len() > 0,
        starts_with(trim(input), "http://"@) || starts_with(trim(input), "https://"@) || starts_with(
            trim(input),
            "file://"@,
        ) || (engine_url(trim(input), engines) is None && looks_like_url(trim(input))),
    ensures
        normalized(normalized(input, start_page, default_search, engines), start_page, default_search, engines)
            == normalized(input, start_page, default_search, engines),
{
    let raw = trim(input);
    crate::text::lemma_trim_idempotent(input);
    crate::text::lemma_trim_shape(input);
    reveal_strlit("https://");
    reveal_strlit("http://");
    reveal_strlit("file://");
    reveal_strlit("about:blank");
    let out = normalized(input, start_page, default_search, engines);
    if !(raw == "about:blank"@ || starts_with(raw, "http://"@) || starts_with(raw, "https://"@) || starts_with(raw, "file://"@)) {
        let p = "https://"@;
        assert(out == p + raw);
        assert(out[0] == 'h');
        assert(out.last() == raw.last());
        crate::text::lemma_trim_fixed(out);
        assert(out.take(p.len() as int) =~= p);
    }
}

/// Resetting an action's override after setting it, where there was none
/// before, leaves the bindings as they were; resetting twice is resetting once.
pub proof fn law_reset_undoes_set(bindings: Map<Seq<char>, ChordSet>, action: Seq<char>, chords: Vec<String>)
    ensures
        !bindings.contains_key(action) ==> bindings.insert(action, chord_set_for(chords)).remove(action)
            == bindings,
        bindings.remove(action).remove(action) == bindings.remove(action),
{
    if !bindings.contains_key(action) {
        assert(bindings.insert(action, chord_set_for(chords)).remove(action) =~= bindings);
    }
    assert(bindings.remove(action).remove(action) =~= bindings.remove(action));
}

/// A search template that is an `https://` address ending in its only `{}`
/// placeholder, with no whitespace right before it (as every built-in
/// template is).
pub open spec fn trailing_placeholder(t: Seq<char>) -> bool {
    &&& t.len() >= 3
    &&& t[t.len() - 2] == '{'
    &&& t[t.len() - 1] == '}'
    &&& starts_with(t, "https://"@)
    &&& !is_ws(t[t.len() - 3])
    &&& forall|i: int| 0 <= i < t.len() - 3 ==> !(#[trigger] t[i] == '{' && t[i + 1] == '}')
}

/// A start page that normalizing keeps as it is.
pub open spec fn kept_start_page(p: Seq<char>) -> bool {
    p == "about:blank"@ || (starts_with(p, "https://"@) && !is_ws(p.last()))
}

proof fn lemma_find_from_some(s: Seq<char>, p: Seq<char>, i: int, k: int)
    requires
        0 <= i <= k,
        occurs_at(s, p, k),
    ensures
        find_from(s, p, i) is Some,
    decreases k - i,
{
    if i < k && !occurs_at(s, p, i) {
        lemma_find_from_some(s, p, i + 1, k);
    }
}

proof fn lemma_fill_last(pre: Seq<char>, q: Seq<char>)
    requires
        forall|i: int| 0 <= i < pre.len() - 1 ==> !(#[trigger] pre[i] == '{' && pre[i + 1] == '}'),
    ensures
        fill_braces(pre + seq!['{', '}'], q) == pre + q,
    decreases pre.len(),
{
    let t = pre + seq!['{', '}'];
    if pre.len() == 0 {
        assert(t =~= seq!['{', '}']);
        assert(t.skip(2).len() == 0);
        assert(fill_braces(t.skip(2), q) =~= Seq::<char>::empty());
        assert(q + Seq::<char>::empty() =~= q);
        assert(pre + q =~= q);
    } else {
        let rest = pre.drop_first();
        assert forall|i: int| 0 <= i < rest.len() - 1 implies !(#[trigger] rest[i] == '{' && rest[i + 1] == '}') by {
            assert(rest[i] == pre[i + 1]);
            assert(rest[i + 1] == pre[i + 2]);
        }
        lemma_fill_last(rest, q);
        assert(t.drop_first() =~= rest + seq!['{', '}']);
        if pre.len() >= 2 {
            assert(t[1] == pre[1]);
            assert(!(pre[0] == '{' && pre[1] == '}'));
        } else {
            assert(t[1] == '{');
        }
        assert(seq![t[0]] + (rest + q) =~= pre + q);
    }
}

/// Filling such a template gives an `https://` address with no whitespace at
/// either end.
proof fn lemma_template_kept(t: Seq<char>, q: Seq<char>)
    requires
        trailing_placeholder(t),
    ensures
        starts_with(apply_template(t, q), "https://"@),
        !is_ws(apply_template(t, q).last()),
{
    reveal_strlit("https://");
    let n = t.len() as int;
    let pre = t.take(n - 2);
    let enc = percent_encode(encode_utf8(q));
    assert(t.take(8) == "https://"@);
    assert(n >= 10) by {
        if n < 10 {
            assert(t[7] == t.take(8)[7]);
            assert("https://"@[7] == '/');
        }
    }
    assert(t =~= pre + seq!['{', '}']);
    assert(occurs_at(t, seq!['{', '}'], n - 2)) by {
        assert(t.subrange(n - 2, n) =~= seq!['{', '}']);
    }
    lemma_find_from_some(t, seq!['{', '}'], 0, n - 2);
    assert forall|i: int| 0 <= i < pre.len() - 1 implies !(#[trigger] pre[i] == '{' && pre[i + 1] == '}') by {
        assert(pre[i] == t[i]);
        assert(t[i] == '{' && t[i + 1] == '}' ==> false);
    }
    lemma_fill_last(pre, enc);
    let out = pre + enc;
    assert(apply_template(t, q) == out);
    assert(out.take(8) =~= "https://"@);
    if enc.len() == 0 {
        assert(out.last() == pre.last());
    } else {
        assert(out.last() == enc[enc.len() - 1]);
        crate::encode::lemma_encoding_no_ws(encode_utf8(q));
    }
}

/// An `https://` address with no whitespace at either end normalizes to itself.
proof fn lemma_kept_address(
    out: Seq<char>,
    start_page: Seq<char>,
    default_search: Seq<char>,
    engines: Map<Seq<char>, String>,
)
    requires
        starts_with(out, "https://"@),
        !is_ws(out.last()),
    ensures
        normalized(out, start_page, default_search, engines) == out,
{
    reveal_strlit("https://");
    assert(out.take(8) == "https://"@);
    assert(out[0] == out.take(8)[0]);
    assert(out[0] == 'h');
    crate::text::lemma_trim_fixed(out);
}

/// With a start page and search templates like the built-in ones (every
/// template an `https://` address ending in its `{}`), normalizing what
/// normalizing gave changes nothing, whatever was typed.
pub proof fn law_normalize_idempotent_all(
    input: Seq<char>,
    start_page: Seq<char>,
    default_search: Seq<char>,
    engines: Map<Seq<char>, String>,
)
    requires
        kept_start_page(start_page),
        trailing_placeholder(default_search),
        forall|k: Seq<char>| #[trigger] engines.contains_key(k) ==> trailing_placeholder(engines[k]@),
    ensures
        normalized(normalized(input, start_page, default_search, engines), start_page, default_search, engines)
            == normalized(input, start_page, default_search, engines),
{
    let raw = trim(input);
    let out = normalized(input, start_page, default_search, engines);
    reveal_strlit("about:blank");
    reveal_strlit("https://");
    if raw.len() == 0 {
        if start_page == "about:blank"@ {
            crate::text::lemma_trim_fixed(start_page);
        } else {
            lemma_kept_address(start_page, start_page, default_search, engines);
        }
    } else if raw == "about:blank"@ {
        crate::text::lemma_trim_idempotent(input);
    } else if starts_with(raw, "http://"@) || starts_with(raw, "https://"@) || starts_with(raw, "file://"@) {
        law_normalize_idempotent(input, start_page, default_search, engines);
    } else if engine_url(raw, engines) is Some {
        let i = index_of(raw, ' ')->0;
        let key = trim(raw.take(i));
        let rest = trim(raw.skip(i + 1));
        lemma_template_kept(engines[key]@, rest);
        lemma_kept_address(out, start_page, default_search, engines);
    } else if looks_like_url(raw) {
        law_normalize_idempotent(input, start_page, default_search, engines);
    } else {
        lemma_template_kept(default_search, raw);
        lemma_kept_address(out, start_page, default_search, engines);
    }
}

/// The built-in templates are all `https://` addresses ending in their `{}`.
proof fn lemma_builtin_templates()
    ensures
        trailing_placeholder("https://www.google.com/search?q={}"@),
        trailing_placeholder("https://duckduckgo.com/?q={}"@),
        trailing_placeholder("https://en.wikipedia.org/wiki/Special:Search?search={}"@),
        trailing_placeholder("https://github.com/search?q={}"@),
        kept_start_page("about:blank"@),
{
    reveal_strlit("https://www.google.com/search?q={}");
    reveal_strlit("https://duckduckgo.com/?q={}");
    reveal_strlit("https://en.wikipedia.org/wiki/Special:Search?search={}");
    reveal_strlit("https://github.com/search?q={}");
    reveal_strlit("https://");
    reveal_strlit("about:blank");
    assert("https://www.google.com/search?q={}"@.take(8) =~= "https://"@);
    assert("https://duckduckgo.com/?q={}"@.take(8) =~= "https://"@);
    assert("https://en.wikipedia.org/wiki/Special:Search?search={}"@.take(8) =~= "https://"@);
    assert("https://github.com/search?q={}"@.take(8) =~= "https://"@);
}

/// With the built-in configuration, normalizing what normalizing gave changes
/// nothing, whatever was typed.
pub proof fn law_normalize_idempotent_default(c: Config, input: Seq<char>)
    requires
        is_default_config(c),
    ensures
        normalized(normalized(input, c.start_page@, c.default_search@, c.search_engines@), c.start_page@, c.default_search@, c.search_engines@)
            == normalized(input, c.start_page@, c.default_search@, c.search_engines@),
{
    lemma_builtin_templates();
    assert forall|k: Seq<char>| #[trigger] c.search_engines@.contains_key(k) implies trailing_placeholder(
        c.search_engines@[k]@,
    ) by {
        assert(set!["g"@, "ddg"@, "w"@, "gh"@].contains(k));
    }
    law_normalize_idempotent_all(input, c.start_page@, c.default_search@, c.search_engines@);
}

/// Typed text that reads as a bare address gets `https://` in front: text
/// (once trimmed) with no scheme and no space, containing a `.` but not
/// starting with one, made only of ASCII letters and digits and the
/// characters `. / : - _ ? = & %`, becomes `https://` followed by that text,
/// whatever the configuration.
pub proof fn law_bare_address_gets_https(
    input: Seq<char>,
    start_page: Seq<char>,
    default_search: Seq<char>,
    engines: Map<Seq<char>, String>,
)
    requires
        trim(input).contains('.'),
        !trim(input).contains(' '),
        trim(input)[0] != '.',
        forall|i: int|
            0 <= i < trim(input).len() ==> {
                let c = #[trigger] trim(input)[i];
                ||| ('a' <= c && c <= 'z')
                ||| ('A' <= c && c <= 'Z')
                ||| ('0' <= c && c <= '9')
                ||| c == '.' || c == '/' || c == ':' || c == '-' || c == '_'
                ||| c == '?' || c == '=' || c == '&' || c == '%'
            },
        !starts_with(trim(input), "http://"@),
        !starts_with(trim(input), "https://"@),
        !starts_with(trim(input), "file://"@),
    ensures
        normalized(input, start_page, default_search, engines) == "https://"@ + trim(input),
{
    let raw = trim(input);
    reveal_strlit("about:blank");
    let k = choose|k: int| 0 <= k < raw.len() && raw[k] == '.';
    assert(raw != "about:blank"@) by {
        if raw == "about:blank"@ {
            assert("about:blank"@[k] == '.');
        }
    }
    assert(index_of(raw, ' ') is None);
    assert(engine_url(raw, engines) is None);
    assert forall|i: int| 0 <= i < raw.len() implies is_url_char(#[trigger] raw[i]) by {
        let c = raw[i];
    }
    assert(looks_like_url(raw));
}

} // verus!
