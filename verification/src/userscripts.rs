//! Greasemonkey-style userscripts: metadata header parsing, URL matching and
//! the code injected into a page.

use vstd::prelude::*;
use vstd::string::*;
pub use crate::glob::pattern_match;
use crate::config::opt_view;
use crate::glob::glob;
use crate::json::{json_quote, to_json_string};
use crate::paths::{extension_of, file_name, path_file_name, split_extension};
use crate::strmap::{lex_lt, lex_order, lemma_lex_irreflexive, lemma_lex_total, lemma_lex_transitive};
use crate::text::{
    chars_eq, chars_of, find, find_in, has_prefix, index_of, next_line, position_of, push_all, push_str,
    slice, split_lines, starts_with, string_of, trim, trimmed,
};

verus! {

/// One userscript.
#[derive(Debug, Clone)]
pub struct UserScript {
    pub name: String,
    pub file: String,
    pub matches: Vec<String>,
    pub excludes: Vec<String>,
    pub run_at: String,
    pub code: String,
    pub enabled: bool,
}

/// All loaded userscripts.
#[derive(Debug, Clone)]
pub struct UserScriptStore {
    pub scripts: Vec<UserScript>,
}

/// The characters of each string.
pub open spec fn strs(v: Seq<String>) -> Seq<Seq<char>> {
    v.map_values(|s: String| s@)
}

/// The metadata a header declares.
pub struct Meta {
    pub name: Seq<char>,
    pub matches: Seq<Seq<char>>,
    pub excludes: Seq<Seq<char>>,
    pub run_at: Seq<char>,
    pub enabled: bool,
}

/// The text between `==UserScript==` and `==/UserScript==` (first occurrences),
/// starting with the opening marker; none when a marker is missing or the
/// closing one does not come after the opening one.
pub open spec fn header_of(raw: Seq<char>) -> Option<Seq<char>> {
    match (find(raw, "==UserScript=="@), find(raw, "==/UserScript=="@)) {
        (Some(s), Some(e)) => if e <= s {
            None
        } else {
            Some(raw.subrange(s, e))
        },
        _ => None,
    }
}

/// Leading `//` pairs removed.
pub open spec fn strip_comment(s: Seq<char>) -> Seq<char>
    decreases s.len(),
{
    if s.len() >= 2 && s[0] == '/' && s[1] == '/' {
        strip_comment(s.skip(2))
    } else {
        s
    }
}

/// The value after `key` on a header line, trimmed; none when the line does
/// not start with `key` or nothing follows it.
pub open spec fn meta_value(line: Seq<char>, key: Seq<char>) -> Option<Seq<char>> {
    let l = trim(line);
    if starts_with(l, key) {
        let v = trim(l.skip(key.len() as int));
        if v.len() > 0 {
            Some(v)
        } else {
            None
        }
    } else {
        None
    }
}

/// The effect of one header line on the metadata.
pub open spec fn meta_step(m: Meta, line: Seq<char>) -> Meta {
    let l = trim(strip_comment(trim(line)));
    if meta_value(l, "@name"@) is Some {
        Meta { name: meta_value(l, "@name"@)->0, ..m }
    } else if meta_value(l, "@match"@) is Some {
        Meta { matches: m.matches.push(meta_value(l, "@match"@)->0), ..m }
    } else if meta_value(l, "@include"@) is Some {
        Meta { matches: m.matches.push(meta_value(l, "@include"@)->0), ..m }
    } else if meta_value(l, "@exclude"@) is Some {
        Meta { excludes: m.excludes.push(meta_value(l, "@exclude"@)->0), ..m }
    } else if meta_value(l, "@run-at"@) is Some {
        Meta { run_at: meta_value(l, "@run-at"@)->0, ..m }
    } else if meta_value(l, "@enabled"@) is Some {
        let v = meta_value(l, "@enabled"@)->0;
        Meta { enabled: v != "false"@ && v != "0"@, ..m }
    } else {
        m
    }
}

/// The metadata after reading `lines` in order.
pub open spec fn fold_meta(lines: Seq<Seq<char>>, m: Meta) -> Meta
    decreases lines.len(),
{
    if lines.len() == 0 {
        m
    } else {
        fold_meta(lines.drop_first(), meta_step(m, lines[0]))
    }
}

/// The file name a script gets from its path (`script.js` when it has none).
pub open spec fn script_file(path: Seq<char>) -> Seq<char> {
    match file_name(path) {
        Some(f) => f,
        None => "script.js"@,
    }
}

/// The metadata of a script: defaults (its file name, no patterns,
/// `document-end`, enabled) updated by each header line.
pub open spec fn script_meta(path: Seq<char>, raw: Seq<char>) -> Meta {
    let init = Meta {
        name: script_file(path),
        matches: Seq::empty(),
        excludes: Seq::empty(),
        run_at: "document-end"@,
        enabled: true,
    };
    match header_of(raw) {
        Some(h) => fold_meta(split_lines(h), init),
        None => init,
    }
}

/// What a userscript holds, as plain values.
pub struct ScriptView {
    pub name: Seq<char>,
    pub file: Seq<char>,
    pub matches: Seq<Seq<char>>,
    pub excludes: Seq<Seq<char>>,
    pub run_at: Seq<char>,
    pub code: Seq<char>,
    pub enabled: bool,
}

impl View for UserScript {
    type V = ScriptView;

    open spec fn view(&self) -> ScriptView {
        ScriptView {
            name: self.name@,
            file: self.file@,
            matches: strs(self.matches@),
            excludes: strs(self.excludes@),
            run_at: self.run_at@,
            code: self.code@,
            enabled: self.enabled,
        }
    }
}

/// The script read from `raw` at `path`: none without a match pattern.
pub open spec fn parsed(path: Seq<char>, raw: Seq<char>) -> Option<ScriptView> {
    let m = script_meta(path, raw);
    if m.matches.len() == 0 {
        None
    } else {
        Some(
            ScriptView {
                name: m.name,
                file: script_file(path),
                matches: m.matches,
                excludes: m.excludes,
                run_at: m.run_at,
                code: raw,
                enabled: m.enabled,
            },
        )
    }
}

/// The header between the markers, as characters.
fn extract_header(raw: &Vec<char>) -> (r: Option<Vec<char>>)
    ensures
        match r {
            Some(h) => header_of(raw@) == Some(h@),
            None => header_of(raw@) is None,
        },
{
    let open = chars_of("==UserScript==");
    let close = chars_of("==/UserScript==");
    let start = match find_in(raw, &open) {
        Some(s) => s,
        None => return None,
    };
    let end = match find_in(raw, &close) {
        Some(e) => e,
        None => return None,
    };
    if end <= start {
        return None;
    }
    proof {
        crate::text::lemma_find_in_bounds(raw@, close@);
    }
    Some(slice(raw, start, end))
}

/// The value after `key` on a trimmed header line.
fn meta_val(line: &Vec<char>, key: &str) -> (r: Option<Vec<char>>)
    ensures
        match r {
            Some(v) => meta_value(line@, key@) == Some(v@),
            None => meta_value(line@, key@) is None,
        },
{
    let l = trimmed(line);
    let k = chars_of(key);
    if has_prefix(&l, &k) {
        let rest = slice(&l, k.len(), l.len());
        let v = trimmed(&rest);
        if v.len() > 0 {
            return Some(v);
        }
    }
    None
}

/// Leading `//` pairs removed.
fn strip_slashes(v: &Vec<char>) -> (r: Vec<char>)
    ensures
        r@ == strip_comment(v@),
{
    let mut k: usize = 0;
    assert(v@.skip(0) =~= v@);
    while k < v.len() && k + 1 < v.len() && v[k] == '/' && v[k + 1] == '/'
        invariant
            k <= v.len(),
            strip_comment(v@) == strip_comment(v@.skip(k as int)),
        decreases v.len() - k,
    {
        assert(v@.skip(k as int).skip(2) =~= v@.skip(k + 2));
        k = k + 2;
    }
    slice(v, k, v.len())
}

/// Metadata being collected, as executable values.
struct MetaFields {
    name: Vec<char>,
    matches: Vec<String>,
    excludes: Vec<String>,
    run_at: Vec<char>,
    enabled: bool,
}

impl MetaFields {
    spec fn meta(&self) -> Meta {
        Meta {
            name: self.name@,
            matches: strs(self.matches@),
            excludes: strs(self.excludes@),
            run_at: self.run_at@,
            enabled: self.enabled,
        }
    }
}

/// Applies one header line.
fn apply_line(m: &mut MetaFields, line: &Vec<char>)
    ensures
        final(m).meta() == meta_step(old(m).meta(), line@),
{
    let t = trimmed(line);
    let s = strip_slashes(&t);
    let l = trimmed(&s);
    if let Some(v) = meta_val(&l, "@name") {
        m.name = v;
    } else if let Some(v) = meta_val(&l, "@match") {
        m.matches.push(string_of(&v));
        assert(strs(m.matches@) =~= strs(old(m).matches@).push(v@));
    } else if let Some(v) = meta_val(&l, "@include") {
        m.matches.push(string_of(&v));
        assert(strs(m.matches@) =~= strs(old(m).matches@).push(v@));
    } else if let Some(v) = meta_val(&l, "@exclude") {
        m.excludes.push(string_of(&v));
        assert(strs(m.excludes@) =~= strs(old(m).excludes@).push(v@));
    } else if let Some(v) = meta_val(&l, "@run-at") {
        m.run_at = v;
    } else if let Some(v) = meta_val(&l, "@enabled") {
        let f = chars_of("false");
        let z = chars_of("0");
        m.enabled = !chars_eq(&v, &f) && !chars_eq(&v, &z);
    }
}

/// Applies every line of a header, in order.
fn read_header(h: &Vec<char>, m: &mut MetaFields)
    ensures
        final(m).meta() == fold_meta(split_lines(h@), old(m).meta()),
{
    let ghost init = m.meta();
    let mut pos: usize = 0;
    assert(h@.skip(0) =~= h@);
    loop
        invariant_except_break
            pos <= h.len(),
            fold_meta(split_lines(h@), init) == fold_meta(split_lines(h@.skip(pos as int)), m.meta()),
        ensures
            m.meta() == fold_meta(split_lines(h@), init),
        decreases h.len() - pos,
    {
        let (line, last) = next_line(h, pos);
        let ghost m0 = m.meta();
        proof {
            if last {
                assert(split_lines(h@.skip(pos as int)).drop_first() =~= Seq::<Seq<char>>::empty());
                assert(fold_meta(Seq::<Seq<char>>::empty(), meta_step(m0, line@)) == meta_step(m0, line@));
            } else {
                assert(split_lines(h@.skip(pos as int)).drop_first() =~= split_lines(h@.skip(pos + line@.len() + 1)));
            }
        }
        apply_line(m, &line);
        if last {
            break;
        }
        pos = pos + line.len() + 1;
    }
}

/// Parses a userscript file: its header's `@name`, `@match`/`@include`,
/// `@exclude`, `@run-at` and `@enabled`; a script without any match pattern
/// is not loaded.
pub fn parse_userscript(path: &str, raw: &str) -> (r: Option<UserScript>)
    ensures
        match r {
            Some(s) => parsed(path@, raw@) == Some(s@),
            None => parsed(path@, raw@) is None,
        },
{
    let pv = chars_of(path);
    let file = match path_file_name(&pv) {
        Some(f) => f,
        None => chars_of("script.js"),
    };
    let mut m = MetaFields {
        name: file.clone(),
        matches: Vec::new(),
        excludes: Vec::new(),
        run_at: chars_of("document-end"),
        enabled: true,
    };
    proof {
        assert(strs(m.matches@) =~= Seq::<Seq<char>>::empty());
        assert(strs(m.excludes@) =~= Seq::<Seq<char>>::empty());
    }
    let rv = chars_of(raw);
    let ghost init = m.meta();
    if let Some(h) = extract_header(&rv) {
        read_header(&h, &mut m);
    }
    assert(m.meta() == script_meta(path@, raw@));
    if m.matches.len() == 0 {
        return None;
    }
    let script = UserScript {
        name: string_of(&m.name),
        file: string_of(&file),
        matches: m.matches,
        excludes: m.excludes,
        run_at: string_of(&m.run_at),
        code: String::from_str(raw),
        enabled: m.enabled,
    };
    assert(script@ =~= parsed(path@, raw@)->0);
    Some(script)
}

/// `pattern` matches `url` by the glob rules (`pattern_match`).
pub open spec fn pattern_matches(pattern: Seq<char>, url: Seq<char>) -> bool {
    glob(pattern, url)
}

/// A script applies to `url`: no exclude pattern matches it and some match
/// pattern does.
pub open spec fn url_matches(s: UserScript, url: Seq<char>) -> bool {
    &&& forall|i: int| 0 <= i < s.excludes@.len() ==> !pattern_matches(#[trigger] s.excludes@[i]@, url)
    &&& exists|i: int| 0 <= i < s.matches@.len() && pattern_matches(#[trigger] s.matches@[i]@, url)
}

/// Scripts that run once the document has loaded: `@run-at` is
/// `document-end` or `document-idle`.
pub open spec fn runs_after_load(s: UserScript) -> bool {
    s.run_at@ == "document-end"@ || s.run_at@ == "document-idle"@
}

/// The enabled scripts of `s` that apply to `url` and run after the document
/// has loaded, in order.
pub open spec fn selected(s: Seq<UserScript>, url: Seq<char>) -> Seq<UserScript>
    decreases s.len(),
{
    if s.len() == 0 {
        Seq::empty()
    } else if s.last().enabled && runs_after_load(s.last()) && url_matches(s.last(), url) {
        selected(s.drop_last(), url).push(s.last())
    } else {
        selected(s.drop_last(), url)
    }
}

/// Whether any pattern in `pats` matches `url`.
fn any_matches(pats: &Vec<String>, url: &str) -> (r: bool)
    ensures
        r == exists|i: int| 0 <= i < pats@.len() && pattern_matches(#[trigger] pats@[i]@, url@),
{
    let mut i: usize = 0;
    while i < pats.len()
        invariant
            i <= pats.len(),
            forall|j: int| 0 <= j < i ==> !pattern_matches(#[trigger] pats@[j]@, url@),
        decreases pats.len() - i,
    {
        if pattern_match(pats[i].as_str(), url) {
            return true;
        }
        i = i + 1;
    }
    false
}

/// Whether `script` applies to `url`: excludes win over matches.
pub fn matches_url(script: &UserScript, url: &str) -> (r: bool)
    ensures
        r == url_matches(*script, url@),
{
    if any_matches(&script.excludes, url) {
        return false;
    }
    any_matches(&script.matches, url)
}

/// One script's part of the injected code, with its name as a JSON literal.
pub open spec fn script_block(code: Seq<char>, name_lit: Seq<char>) -> Seq<char> {
    "try {\n"@ + code + "\n} catch (e) { console.error('[netfly userscript]', "@ + name_lit + ", e); }\n"@
}

/// The blocks of several scripts, in order.
pub open spec fn blocks(codes: Seq<Seq<char>>, lits: Seq<Seq<char>>) -> Seq<char>
    decreases codes.len(),
{
    if codes.len() == 0 || lits.len() == 0 {
        Seq::empty()
    } else {
        blocks(codes.drop_last(), lits.drop_last()) + script_block(codes.last(), lits.last())
    }
}

/// The injected code: the blocks inside one function expression that is called at once.
pub open spec fn payload(codes: Seq<Seq<char>>, lits: Seq<Seq<char>>) -> Seq<char> {
    "(function(){\n"@ + blocks(codes, lits) + "})();"@
}

/// The code injected for the scripts `sel`: each one's code in order, with
/// its name as a JSON literal.
pub open spec fn injected(sel: Seq<UserScript>) -> Seq<char> {
    payload(sel.map_values(|s: UserScript| s.code@), sel.map_values(|s: UserScript| json_quote(s.name@)))
}

/// The pattern a header line declares with `@match` or `@include`, if any.
pub open spec fn declared_pattern(line: Seq<char>) -> Option<Seq<char>> {
    let l = trim(strip_comment(trim(line)));
    if meta_value(l, "@match"@) is Some {
        meta_value(l, "@match"@)
    } else {
        meta_value(l, "@include"@)
    }
}

/// The patterns declared by `lines`, in order, one per declaring line.
pub open spec fn declared_patterns(lines: Seq<Seq<char>>) -> Seq<Seq<char>>
    decreases lines.len(),
{
    if lines.len() == 0 {
        Seq::empty()
    } else {
        let rest = declared_patterns(lines.drop_first());
        match declared_pattern(lines[0]) {
            Some(p) => seq![p] + rest,
            None => rest,
        }
    }
}

proof fn lemma_keys_differ(l: Seq<char>)
    ensures
        meta_value(l, "@name"@) is Some ==> meta_value(l, "@match"@) is None && meta_value(l, "@include"@)
            is None,
{
    reveal_strlit("@name");
    reveal_strlit("@match");
    reveal_strlit("@include");
    let t = trim(l);
    if starts_with(t, "@name"@) {
        assert(t[1] == "@name"@[1]);
        if starts_with(t, "@match"@) {
            assert(t[1] == "@match"@[1]);
        }
        if starts_with(t, "@include"@) {
            assert(t[1] == "@include"@[1]);
        }
    }
}

/// Reading header lines only ever adds patterns: every `@match` and
/// `@include` line adds its value at the end, in order, and no other line
/// touches the patterns.
pub proof fn law_header_keeps_every_pattern(lines: Seq<Seq<char>>, m: Meta)
    ensures
        fold_meta(lines, m).matches == m.matches + declared_patterns(lines),
    decreases lines.len(),
{
    if lines.len() == 0 {
        assert(m.matches + Seq::<Seq<char>>::empty() =~= m.matches);
    } else {
        let l = trim(strip_comment(trim(lines[0])));
        lemma_keys_differ(l);
        let m1 = meta_step(m, lines[0]);
        law_header_keeps_every_pattern(lines.drop_first(), m1);
        match declared_pattern(lines[0]) {
            Some(p) => {
                assert(m1.matches == m.matches.push(p));
                assert(m.matches.push(p) + declared_patterns(lines.drop_first()) =~= m.matches + (seq![p]
                    + declared_patterns(lines.drop_first())));
            },
            None => {
                assert(m1.matches == m.matches);
            },
        }
    }
}

/// A script's match patterns are exactly those its header declares, one per
/// `@match` or `@include` line, in order.
pub proof fn law_script_patterns(path: Seq<char>, raw: Seq<char>)
    ensures
        script_meta(path, raw).matches == match header_of(raw) {
            Some(h) => declared_patterns(split_lines(h)),
            None => Seq::empty(),
        },
{
    let init = Meta {
        name: script_file(path),
        matches: Seq::empty(),
        excludes: Seq::empty(),
        run_at: "document-end"@,
        enabled: true,
    };
    match header_of(raw) {
        Some(h) => {
            law_header_keeps_every_pattern(split_lines(h), init);
            assert(Seq::<Seq<char>>::empty() + declared_patterns(split_lines(h)) =~= declared_patterns(
                split_lines(h),
            ));
        },
        None => {},
    }
}

/// The scripts chosen for a page are exactly the enabled ones of the store
/// that run after the document has loaded and apply to the URL: every chosen
/// script is such a script of the store, and every such script is chosen. A
/// disabled script is never chosen.
pub proof fn law_selected_scripts(s: Seq<UserScript>, url: Seq<char>)
    ensures
        forall|i: int|
            0 <= i < selected(s, url).len() ==> {
                let x = #[trigger] selected(s, url)[i];
                &&& x.enabled
                &&& (x.run_at@ == "document-end"@ || x.run_at@ == "document-idle"@)
                &&& url_matches(x, url)
                &&& s.contains(x)
            },
        forall|j: int|
            0 <= j < s.len() && #[trigger] s[j].enabled && (s[j].run_at@ == "document-end"@ || s[j].run_at@
                == "document-idle"@) && url_matches(s[j], url) ==> selected(s, url).contains(s[j]),
        (forall|j: int| 0 <= j < s.len() ==> !(#[trigger] s[j]).enabled) ==> selected(s, url).len() == 0,
    decreases s.len(),
{
    if s.len() > 0 {
        let init = s.drop_last();
        law_selected_scripts(init, url);
        let x = s.last();
        assert forall|i: int| 0 <= i < selected(s, url).len() implies {
            let y = #[trigger] selected(s, url)[i];
            &&& y.enabled
            &&& (y.run_at@ == "document-end"@ || y.run_at@ == "document-idle"@)
            &&& url_matches(y, url)
            &&& s.contains(y)
        } by {
            let y = selected(s, url)[i];
            if i < selected(init, url).len() {
                assert(y == selected(init, url)[i]);
                let k = choose|k: int| 0 <= k < init.len() && init[k] == y;
                assert(s[k] == y);
            } else {
                assert(y == x);
                assert(s[s.len() - 1] == x);
            }
        }
        assert forall|j: int|
            0 <= j < s.len() && #[trigger] s[j].enabled && (s[j].run_at@ == "document-end"@ || s[j].run_at@
                == "document-idle"@) && url_matches(s[j], url) implies selected(s, url).contains(s[j]) by {
            if j < s.len() - 1 {
                assert(s[j] == init[j]);
                let k = choose|k: int| 0 <= k < selected(init, url).len() && selected(init, url)[k] == init[j];
                assert(selected(s, url)[k] == init[j]);
            } else {
                let n = selected(init, url).len() as int;
                assert(selected(s, url)[n] == x);
            }
        }
        if forall|j: int| 0 <= j < s.len() ==> !(#[trigger] s[j]).enabled {
            assert(!s[s.len() - 1].enabled);
            assert forall|j: int| 0 <= j < init.len() implies !(#[trigger] init[j]).enabled by {
                assert(init[j] == s[j]);
            }
        }
    }
}

impl UserScriptStore {
    /// The enabled scripts that apply to `url` and run at `document-end` or
    /// `document-idle`, in store order.
    pub fn matching_for(&self, url: &str) -> (r: Vec<&UserScript>)
        ensures
            r@.map_values(|x: &UserScript| *x) == selected(self.scripts@, url@),
    {
        let mut r: Vec<&UserScript> = Vec::new();
        let mut i: usize = 0;
        while i < self.scripts.len()
            invariant
                i <= self.scripts.len(),
                r@.map_values(|x: &UserScript| *x) == selected(self.scripts@.take(i as int), url@),
            decreases self.scripts.len() - i,
        {
            let s = &self.scripts[i];
            let ghost before = r@;
            assert(self.scripts@.take(i + 1).drop_last() =~= self.scripts@.take(i as int));
            let run_at = chars_of(s.run_at.as_str());
            let after_load = chars_eq(&run_at, &chars_of("document-end")) || chars_eq(
                &run_at,
                &chars_of("document-idle"),
            );
            if s.enabled && after_load && matches_url(s, url) {
                r.push(s);
                assert(r@.map_values(|x: &UserScript| *x) =~= before.map_values(|x: &UserScript| *x).push(*s));
            }
            i = i + 1;
        }
        assert(self.scripts@.take(self.scripts.len() as int) =~= self.scripts@);
        r
    }

    /// The code to run on a page at `url`: every applying script wrapped in its
    /// own `try`/`catch`, all inside one function; none when no script applies.
    pub fn inject_js_for(&self, url: &str) -> (r: Option<String>)
        ensures
            selected(self.scripts@, url@).len() == 0 ==> r is None,
            selected(self.scripts@, url@).len() > 0 ==> (r matches Some(js) && js@ == injected(
                selected(self.scripts@, url@),
            )),
    {
        let matched = self.matching_for(url);
        let ghost sel = selected(self.scripts@, url@);
        assert(matched@.len() == sel.len());
        if matched.len() == 0 {
            return None;
        }
        let mut names: Vec<Option<String>> = Vec::new();
        let mut i: usize = 0;
        while i < matched.len()
            invariant
                i <= matched@.len(),
                matched@.len() == sel.len(),
                matched@.map_values(|x: &UserScript| *x) == sel,
                names@.len() == i,
                forall|k: int|
                    0 <= k < i ==> (#[trigger] names@[k] matches Some(j) && j@ == json_quote(sel[k].name@)),
            decreases matched@.len() - i,
        {
            assert(*matched@[i as int] == sel[i as int]);
            let lit = match to_json_string(matched[i].name.as_str()) {
                Ok(j) => Some(j),
                Err(_) => None,
            };
            names.push(lit);
            i = i + 1;
        }
        let js = payload_js(&matched, &names);
        proof {
            assert(matched@.map_values(|s: &UserScript| s.code@) =~= sel.map_values(|s: UserScript| s.code@));
            let lits = names@.map_values(|o: Option<String>| name_literal(opt_view(o)));
            let quoted = sel.map_values(|s: UserScript| json_quote(s.name@));
            assert forall|k: int| 0 <= k < sel.len() implies #[trigger] lits[k] == quoted[k] by {
                assert(names@[k] matches Some(j) && j@ == json_quote(sel[k].name@));
            }
            assert(lits =~= quoted);
        }
        Some(js)
    }
}

/// The literal for a script's name, given how serializing it went: the JSON
/// text, or `"?"` when serialization failed.
pub open spec fn name_literal(json: Option<Seq<char>>) -> Seq<char> {
    match json {
        Some(j) => j,
        None => "\"?\""@,
    }
}

/// The injected code for `scripts`, given the outcome of serializing each
/// one's name (in the same order).
pub fn payload_js(scripts: &Vec<&UserScript>, names_json: &Vec<Option<String>>) -> (r: String)
    requires
        names_json@.len() == scripts@.len(),
    ensures
        r@ == payload(
            scripts@.map_values(|s: &UserScript| s.code@),
            names_json@.map_values(|o: Option<String>| name_literal(opt_view(o))),
        ),
{
    let ghost codes = scripts@.map_values(|s: &UserScript| s.code@);
    let ghost lits = names_json@.map_values(|o: Option<String>| name_literal(opt_view(o)));
    let mut out = chars_of("(function(){\n");
    let mut i: usize = 0;
    while i < scripts.len()
        invariant
            i <= scripts@.len(),
            names_json@.len() == scripts@.len(),
            codes == scripts@.map_values(|s: &UserScript| s.code@),
            lits == names_json@.map_values(|o: Option<String>| name_literal(opt_view(o))),
            out@ == "(function(){\n"@ + blocks(codes.take(i as int), lits.take(i as int)),
        decreases scripts@.len() - i,
    {
        let s = scripts[i];
        push_str(&mut out, "try {\n");
        push_str(&mut out, s.code.as_str());
        push_str(&mut out, "\n} catch (e) { console.error('[netfly userscript]', ");
        match &names_json[i] {
            Some(j) => push_str(&mut out, j.as_str()),
            None => push_str(&mut out, "\"?\""),
        }
        push_str(&mut out, ", e); }\n");
        proof {
            assert(codes.take(i + 1).drop_last() =~= codes.take(i as int));
            assert(lits.take(i + 1).drop_last() =~= lits.take(i as int));
            assert(codes.take(i + 1).last() == s.code@);
            assert(lits.take(i + 1).last() == lits[i as int]);
            assert(out@ =~= "(function(){\n"@ + blocks(codes.take(i + 1), lits.take(i + 1)));
        }
        i = i + 1;
    }
    push_str(&mut out, "})();");
    proof {
        assert(codes.take(i as int) =~= codes);
        assert(lits.take(i as int) =~= lits);
        assert(out@ =~= payload(codes, lits));
    }
    string_of(&out)
}

/// The views of a list of scripts.
pub open spec fn views(s: Seq<UserScript>) -> Seq<ScriptView> {
    s.map_values(|x: UserScript| x@)
}

/// The scripts of `s` named `n`, in order.
pub open spec fn named(s: Seq<ScriptView>, n: Seq<char>) -> Seq<ScriptView>
    decreases s.len(),
{
    if s.len() == 0 {
        Seq::empty()
    } else if s.last().name == n {
        named(s.drop_last(), n).push(s.last())
    } else {
        named(s.drop_last(), n)
    }
}

/// Names never decrease along `s`.
pub open spec fn sorted_by_name(s: Seq<ScriptView>) -> bool {
    forall|i: int, j: int| 0 <= i < j < s.len() ==> !lex_lt(#[trigger] s[j].name, #[trigger] s[i].name)
}

/// A path whose extension is `js`.
pub open spec fn is_js(path: Seq<char>) -> bool {
    match file_name(path) {
        Some(f) => extension_of(f) == Some(seq!['j', 's']),
        None => false,
    }
}

/// The scripts parsed from `.js` files among `files` (path, contents), in order.
pub open spec fn parsed_all(files: Seq<(Seq<char>, Seq<char>)>) -> Seq<ScriptView>
    decreases files.len(),
{
    if files.len() == 0 {
        Seq::empty()
    } else {
        let (path, raw) = files.last();
        let rest = parsed_all(files.drop_last());
        if is_js(path) && parsed(path, raw) is Some {
            rest.push(parsed(path, raw)->0)
        } else {
            rest
        }
    }
}

proof fn lemma_named_concat(a: Seq<ScriptView>, b: Seq<ScriptView>, n: Seq<char>)
    ensures
        named(a + b, n) == named(a, n) + named(b, n),
    decreases b.len(),
{
    if b.len() == 0 {
        assert(a + b =~= a);
        assert(named(a, n) + named(b, n) =~= named(a, n));
    } else {
        lemma_named_concat(a, b.drop_last(), n);
        assert((a + b).drop_last() =~= a + b.drop_last());
        assert((a + b).last() == b.last());
        if b.last().name == n {
            assert(named(a, n) + named(b, n) =~= (named(a, n) + named(b.drop_last(), n)).push(b.last()));
        }
    }
}

proof fn lemma_named_none(b: Seq<ScriptView>, n: Seq<char>)
    requires
        forall|i: int| 0 <= i < b.len() ==> #[trigger] b[i].name != n,
    ensures
        named(b, n) == Seq::<ScriptView>::empty(),
    decreases b.len(),
{
    if b.len() > 0 {
        lemma_named_none(b.drop_last(), n);
    }
}

/// Inserting `x` at `k`, before only scripts whose names come after its
/// name, adds `x` at the end of its name's group and leaves other groups alone.
proof fn lemma_insert_named(old_v: Seq<ScriptView>, k: int, xv: ScriptView, n: Seq<char>)
    requires
        0 <= k <= old_v.len(),
        forall|j: int| k <= j < old_v.len() ==> lex_lt(xv.name, #[trigger] old_v[j].name),
    ensures
        named(old_v.take(k) + seq![xv] + old_v.skip(k), n) == if xv.name == n {
            named(old_v, n).push(xv)
        } else {
            named(old_v, n)
        },
{
    let a = old_v.take(k);
    let b = old_v.skip(k);
    assert(old_v =~= a + b);
    lemma_named_concat(a, b, n);
    lemma_named_concat(a + seq![xv], b, n);
    lemma_named_concat(a, seq![xv], n);
    assert(seq![xv].drop_last() =~= Seq::<ScriptView>::empty());
    assert(named(Seq::<ScriptView>::empty(), n) == Seq::<ScriptView>::empty());
    assert(seq![xv].last() == xv);
    assert(named(seq![xv], n) =~= if xv.name == n {
        seq![xv]
    } else {
        Seq::<ScriptView>::empty()
    });
    if xv.name == n {
        assert forall|i: int| 0 <= i < b.len() implies #[trigger] b[i].name != n by {
            assert(b[i] == old_v[k + i]);
            lemma_lex_irreflexive(n);
        }
        lemma_named_none(b, n);
        assert(named(a, n) + seq![xv] =~= named(a, n).push(xv));
        assert(named(a, n) + named(b, n) =~= named(a, n));
        assert(named(a + seq![xv], n) + named(b, n) =~= named(a + seq![xv], n));
    } else {
        assert(named(a, n) + Seq::<ScriptView>::empty() =~= named(a, n));
    }
}

/// Adding `x` at the end adds it to its name's group.
proof fn lemma_named_push(s: Seq<ScriptView>, x: ScriptView, n: Seq<char>)
    ensures
        named(s.push(x), n) == if x.name == n {
            named(s, n).push(x)
        } else {
            named(s, n)
        },
{
    assert(s.push(x).drop_last() =~= s);
}

/// Inserts `x` after every script whose name does not come after its name.
fn insert_by_name(r: &mut Vec<UserScript>, x: UserScript)
    requires
        sorted_by_name(views(old(r)@)),
    ensures
        sorted_by_name(views(final(r)@)),
        forall|n: Seq<char>|
            #[trigger] named(views(final(r)@), n) == if x@.name == n {
                named(views(old(r)@), n).push(x@)
            } else {
                named(views(old(r)@), n)
            },
{
    let ghost old_v = views(r@);
    let xn = chars_of(x.name.as_str());
    let mut k: usize = 0;
    while k < r.len()
        invariant
            k <= r@.len(),
            r@ == old(r)@,
            old_v == views(r@),
            xn@ == x@.name,
            forall|j: int| 0 <= j < k ==> !lex_lt(x@.name, #[trigger] old_v[j].name),
        ensures
            k <= r@.len(),
            r@ == old(r)@,
            forall|j: int| 0 <= j < k ==> !lex_lt(x@.name, #[trigger] old_v[j].name),
            k < r@.len() ==> lex_lt(x@.name, old_v[k as int].name),
        decreases r@.len() - k,
    {
        let rn = chars_of(r[k].name.as_str());
        if lex_order(&xn, &rn) == -1 {
            break;
        }
        k = k + 1;
    }
    proof {
        assert forall|j: int| k <= j < old_v.len() implies lex_lt(x@.name, #[trigger] old_v[j].name) by {
            assert(lex_lt(x@.name, old_v[k as int].name));
            if j > k {
                lemma_lex_total(old_v[j].name, old_v[k as int].name);
                if old_v[j].name != old_v[k as int].name {
                    lemma_lex_transitive(x@.name, old_v[k as int].name, old_v[j].name);
                }
            }
        }
    }
    let ghost xv = x@;
    r.insert(k, x);
    proof {
        let v = views(r@);
        assert(v =~= old_v.take(k as int) + seq![xv] + old_v.skip(k as int));
        assert forall|i: int, j: int| 0 <= i < j < v.len() implies !lex_lt(#[trigger] v[j].name, #[trigger] v[i].name) by {
            if i < k && j < k {
            } else if i < k && j == k {
            } else if i < k {
                assert(v[j] == old_v[j - 1]);
            } else if i == k {
                assert(v[j] == old_v[j - 1]);
                lemma_lex_total(xv.name, v[j].name);
            } else {
                assert(v[i] == old_v[i - 1]);
                assert(v[j] == old_v[j - 1]);
            }
        }
        assert forall|n: Seq<char>| #[trigger] named(v, n) == if xv.name == n {
            named(old_v, n).push(xv)
        } else {
            named(old_v, n)
        } by {
            lemma_insert_named(old_v, k as int, xv, n);
        }
    }
}

impl UserScriptStore {
    /// The store built from the files of the userscripts directory, given as
    /// (path, contents) in directory order: the `.js` files that parse, sorted
    /// by name; scripts with equal names keep their directory order.
    pub fn load_from(files: &Vec<(String, String)>) -> (r: Self)
        ensures
            sorted_by_name(views(r.scripts@)),
            forall|n: Seq<char>| #[trigger] named(views(r.scripts@), n) == named(
                parsed_all(files@.map_values(|f: (String, String)| (f.0@, f.1@))),
                n,
            ),
    {
        let ghost fs = files@.map_values(|f: (String, String)| (f.0@, f.1@));
        let mut scripts: Vec<UserScript> = Vec::new();
        let mut i: usize = 0;
        while i < files.len()
            invariant
                i <= files@.len(),
                fs == files@.map_values(|f: (String, String)| (f.0@, f.1@)),
                sorted_by_name(views(scripts@)),
                forall|n: Seq<char>| #[trigger] named(views(scripts@), n) == named(
                    parsed_all(fs.take(i as int)),
                    n,
                ),
            decreases files@.len() - i,
        {
            let path = &files[i].0;
            let raw = &files[i].1;
            proof {
                assert(fs.take(i + 1).drop_last() =~= fs.take(i as int));
                assert(fs.take(i + 1).last() == (path@, raw@));
            }
            let pv = chars_of(path.as_str());
            let is_js_file = match path_file_name(&pv) {
                Some(f) => {
                    let (_, ext) = split_extension(&f);
                    match ext {
                        Some(e) => e.len() == 2 && e[0] == 'j' && e[1] == 's',
                        None => false,
                    }
                },
                None => false,
            };
            proof {
                if is_js(path@) {
                    let e = extension_of(file_name(path@)->0)->0;
                    assert(e.len() == 2 && e[0] == 'j' && e[1] == 's');
                }
                if is_js_file {
                    let e = extension_of(file_name(path@)->0)->0;
                    assert(e =~= seq!['j', 's']);
                }
            }
            let ghost prev = parsed_all(fs.take(i as int));
            if is_js_file {
                match parse_userscript(path.as_str(), raw.as_str()) {
                    Some(script) => {
                        let ghost sv = script@;
                        insert_by_name(&mut scripts, script);
                        proof {
                            assert(parsed_all(fs.take(i + 1)) == prev.push(sv));
                            assert forall|n: Seq<char>| #[trigger] named(views(scripts@), n) == named(
                                parsed_all(fs.take(i + 1)),
                                n,
                            ) by {
                                lemma_named_push(prev, sv, n);
                            }
                        }
                    },
                    None => {
                        assert(parsed_all(fs.take(i + 1)) == prev);
                    },
                }
            } else {
                assert(parsed_all(fs.take(i + 1)) == prev);
            }
            i = i + 1;
        }
        assert(fs.take(files@.len() as int) =~= fs);
        UserScriptStore { scripts }
    }
}

} // verus!
