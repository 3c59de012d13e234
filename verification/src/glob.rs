//! Userscript URL patterns: `*` stands for any run of characters, `?` for one.

use vstd::prelude::*;
use crate::text::chars_of;

verus! {

/// Glob semantics of `p[i..]` against `t[j..]`: `*` matches any run of
/// characters, `?` any one character, every other character itself.
pub open spec fn glob_at(p: Seq<char>, t: Seq<char>, i: int, j: int) -> bool
    decreases p.len() - i + t.len() - j,
{
    if i < 0 || j < 0 || i > p.len() || j > t.len() {
        false
    } else if i == p.len() {
        j == t.len()
    } else if p[i] == '*' {
        glob_at(p, t, i + 1, j) || (j < t.len() && glob_at(p, t, i, j + 1))
    } else {
        j < t.len() && (p[i] == '?' || p[i] == t[j]) && glob_at(p, t, i + 1, j + 1)
    }
}

/// `p` matches all of `t`.
pub open spec fn glob(p: Seq<char>, t: Seq<char>) -> bool {
    glob_at(p, t, 0, 0)
}

/// Only `*` from position `i` of `p` on.
pub open spec fn only_stars_from(p: Seq<char>, i: int) -> bool {
    forall|k: int| i <= k < p.len() ==> p[k] == '*'
}

/// A `*` at `i` that matches from text position `x` also matches from any
/// earlier position.
proof fn lemma_star_earlier(p: Seq<char>, t: Seq<char>, i: int, j: int, x: int)
    requires
        0 <= i < p.len(),
        p[i] == '*',
        0 <= j <= x <= t.len(),
        glob_at(p, t, i, x),
    ensures
        glob_at(p, t, i, j),
    decreases x - j,
{
    if j < x {
        lemma_star_earlier(p, t, i, j + 1, x);
    }
}

/// A `*` at `i` matching from `j` means what follows it matches from some `k >= j`.
proof fn lemma_star_split(p: Seq<char>, t: Seq<char>, i: int, j: int) -> (k: int)
    requires
        0 <= i < p.len(),
        p[i] == '*',
        0 <= j <= t.len(),
        glob_at(p, t, i, j),
    ensures
        j <= k <= t.len(),
        glob_at(p, t, i + 1, k),
    decreases t.len() - j,
{
    if glob_at(p, t, i + 1, j) {
        j
    } else {
        lemma_star_split(p, t, i, j + 1)
    }
}

/// No `*` in `p[a..b]`.
pub open spec fn star_free(p: Seq<char>, a: int, b: int) -> bool {
    forall|k: int| a <= k < b ==> p[k] != '*'
}

/// Matching through a star-free stretch `p[a..b]` consumes exactly `b - a`
/// text characters.
proof fn lemma_star_free(p: Seq<char>, t: Seq<char>, a: int, b: int, k: int)
    requires
        0 <= a <= b <= p.len(),
        star_free(p, a, b),
        glob_at(p, t, a, k),
    ensures
        k + (b - a) <= t.len(),
        glob_at(p, t, b, k + (b - a)),
    decreases b - a,
{
    if a < b {
        lemma_star_free(p, t, a + 1, b, k + 1);
    }
}

/// Invariant of the matcher against the glob semantics.
spec fn sound_state(p: Seq<char>, t: Seq<char>, pi: int, ti: int, sp: Option<int>, st: int) -> bool {
    match sp {
        None => glob(p, t) == glob_at(p, t, pi, ti),
        Some(s) => {
            &&& 0 <= s < pi <= p.len()
            &&& p[s] == '*'
            &&& star_free(p, s + 1, pi)
            &&& ti - st == pi - s - 1
            &&& 0 <= st <= ti <= t.len()
            &&& glob(p, t) == glob_at(p, t, s, st)
            &&& glob_at(p, t, s + 1, st) == glob_at(p, t, pi, ti)
        },
    }
}

/// Meeting a new `*` at `pi`: the old star is no longer needed.
proof fn lemma_new_star(p: Seq<char>, t: Seq<char>, pi: int, ti: int, s: int, st: int)
    requires
        sound_state(p, t, pi, ti, Some(s), st),
        pi < p.len(),
        p[pi] == '*',
    ensures
        glob_at(p, t, s, st) == glob_at(p, t, pi, ti),
{
    if glob_at(p, t, s, st) {
        let k = lemma_star_split(p, t, s, st);
        lemma_star_free(p, t, s + 1, pi, k);
        lemma_star_earlier(p, t, pi, ti, k + (pi - s - 1));
    }
    if glob_at(p, t, pi, ti) {
        assert(glob_at(p, t, s + 1, st));
    }
}

/// At the end of the text only the remembered star's first try can succeed.
proof fn lemma_end_with_star(p: Seq<char>, t: Seq<char>, pi: int, s: int, st: int)
    requires
        sound_state(p, t, pi, t.len() as int, Some(s), st),
    ensures
        glob(p, t) == glob_at(p, t, pi, t.len() as int),
{
    if glob_at(p, t, s, st) {
        let k = lemma_star_split(p, t, s, st);
        lemma_star_free(p, t, s + 1, pi, k);
        assert(k == st);
    }
    if glob_at(p, t, pi, t.len() as int) {
        assert(glob_at(p, t, s + 1, st));
    }
}

/// With the text used up, the rest of the pattern matches exactly when it is all `*`.
proof fn lemma_end(p: Seq<char>, t: Seq<char>, pi: int)
    requires
        0 <= pi <= p.len(),
    ensures
        glob_at(p, t, pi, t.len() as int) == only_stars_from(p, pi),
    decreases p.len() - pi,
{
    if pi < p.len() {
        lemma_end(p, t, pi + 1);
    }
}

/// Userscript glob: `*` any chars, `?` one char, case-sensitive.
pub fn pattern_match(pattern: &str, url: &str) -> (r: bool)
    ensures
        r == glob(pattern@, url@),
{
    let p = chars_of(pattern);
    let t = chars_of(url);
    glob_match(&p, &t)
}

/// The matcher on character sequences: characters are compared left to
/// right; a `*` in the pattern is remembered, and on a mismatch the last
/// remembered `*` takes one more text character.
fn glob_match(p: &Vec<char>, t: &Vec<char>) -> (r: bool)
    ensures
        r == glob(p@, t@),
{
    let ghost ps = p@;
    let ghost ts = t@;
    let mut pi: usize = 0;
    let mut ti: usize = 0;
    let mut star_p: Option<usize> = None;
    let mut star_t: usize = 0;
    while ti < t.len()
        invariant
            ps == p@,
            ts == t@,
            0 <= star_t <= ti <= t.len(),
            pi <= p.len(),
            star_p matches Some(s) ==> s < pi,
            sound_state(
                ps,
                ts,
                pi as int,
                ti as int,
                match star_p {
                    Some(s) => Some(s as int),
                    None => None,
                },
                star_t as int,
            ),
        decreases t.len() - star_t, t.len() - ti, p.len() - pi,
    {
        if pi < p.len() && p[pi] == '*' {
            proof {
                if let Some(s) = star_p {
                    lemma_new_star(ps, ts, pi as int, ti as int, s as int, star_t as int);
                }
            }
            star_p = Some(pi);
            star_t = ti;
            pi = pi + 1;
        } else if pi < p.len() && (p[pi] == '?' || p[pi] == t[ti]) {
            pi = pi + 1;
            ti = ti + 1;
        } else if let Some(sp) = star_p {
            pi = sp + 1;
            star_t = star_t + 1;
            ti = star_t;
        } else {
            return false;
        }
    }
    proof {
        if let Some(s) = star_p {
            lemma_end_with_star(ps, ts, pi as int, s as int, star_t as int);
        }
    }
    let ghost pi0 = pi;
    while pi < p.len() && p[pi] == '*'
        invariant
            ps == p@,
            pi0 <= pi <= p.len(),
            forall|k: int| pi0 <= k < pi ==> ps[k] == '*',
        decreases p.len() - pi,
    {
        pi = pi + 1;
    }
    proof {
        lemma_end(ps, ts, pi0 as int);
        if pi < p.len() {
            assert(!only_stars_from(ps, pi0 as int));
        }
    }
    pi == p.len()
}

/// `*` alone matches every text.
pub proof fn law_star_matches_all(t: Seq<char>)
    ensures
        glob(seq!['*'], t),
{
    let p = seq!['*'];
    assert(glob_at(p, t, 1, t.len() as int));
    lemma_star_earlier(p, t, 0, 0, t.len() as int);
}

} // verus!
