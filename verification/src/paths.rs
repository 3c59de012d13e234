//! File locations under the application's data directory, and the parts of
//! Unix path handling (`join`, `file_name`, `file_stem`, `extension`) that
//! the rest of the library relies on.

use vstd::prelude::*;
use crate::text::{chars_eq, chars_of, is_ascii_alnum, char_is_ascii_alnum, push_all, push_str, slice, string_of};

verus! {

/// `PathBuf::join` on Unix paths: an absolute piece replaces the base,
/// otherwise a `/` separates them unless the base is empty or ends in one.
pub open spec fn join_path(base: Seq<char>, piece: Seq<char>) -> Seq<char> {
    if piece.len() > 0 && piece[0] == '/' {
        piece
    } else if base.len() == 0 || base.last() == '/' {
        base + piece
    } else {
        base + seq!['/'] + piece
    }
}

/// `PathBuf::join` on strings.
pub fn join(base: &str, piece: &str) -> (r: String)
    ensures
        r@ == join_path(base@, piece@),
{
    let b = chars_of(base);
    let p = chars_of(piece);
    if p.len() > 0 && p[0] == '/' {
        return string_of(&p);
    }
    let mut r = b;
    if r.len() > 0 && r[r.len() - 1] != '/' {
        r.push('/');
    }
    push_all(&mut r, &p);
    string_of(&r)
}

/// Where the last path segment of `s` starts: just after its last `/`, or 0.
pub open spec fn seg_start(s: Seq<char>) -> int
    decreases s.len(),
{
    if s.len() == 0 {
        0
    } else if s.last() == '/' {
        s.len() as int
    } else {
        seg_start(s.drop_last())
    }
}

proof fn lemma_seg_start(s: Seq<char>)
    ensures
        0 <= seg_start(s) <= s.len(),
        seg_start(s) > 0 ==> s[seg_start(s) - 1] == '/',
        forall|k: int| seg_start(s) <= k < s.len() ==> s[k] != '/',
    decreases s.len(),
{
    if s.len() > 0 && s.last() != '/' {
        lemma_seg_start(s.drop_last());
        assert forall|k: int| seg_start(s) <= k < s.len() implies s[k] != '/' by {
            if k < s.len() - 1 {
                assert(s[k] == s.drop_last()[k]);
            }
        }
    }
}

/// `Path::file_name`: the last component unless it is `..`; trailing `/`
/// and `.` components are skipped, and a path with no normal component has none.
pub open spec fn file_name(s: Seq<char>) -> Option<Seq<char>>
    decreases s.len(),
{
    if s.len() == 0 {
        None
    } else if s.last() == '/' {
        file_name(s.drop_last())
    } else {
        let k = seg_start(s);
        let seg = s.skip(k);
        if seg == seq!['.'] {
            if 0 <= k < s.len() {
                file_name(s.take(k))
            } else {
                None
            }
        } else if seg == seq!['.', '.'] {
            None
        } else {
            Some(seg)
        }
    }
}

/// `Path::file_name` of a string path.
pub fn path_file_name(path: &Vec<char>) -> (r: Option<Vec<char>>)
    ensures
        match r {
            Some(v) => file_name(path@) == Some(v@),
            None => file_name(path@) is None,
        },
{
    let mut end = path.len();
    assert(path@.take(end as int) =~= path@);
    let mut dot: Vec<char> = Vec::new();
    dot.push('.');
    let mut dotdot: Vec<char> = Vec::new();
    dotdot.push('.');
    dotdot.push('.');
    assert(dot@ =~= seq!['.']);
    assert(dotdot@ =~= seq!['.', '.']);
    loop
        invariant
            end <= path.len(),
            file_name(path@) == file_name(path@.take(end as int)),
            dot@ == seq!['.'],
            dotdot@ == seq!['.', '.'],
        decreases end,
    {
        let ghost e0 = end;
        while end > 0 && path[end - 1] == '/'
            invariant
                end <= e0,
                end <= path.len(),
                file_name(path@) == file_name(path@.take(end as int)),
            decreases end,
        {
            assert(path@.take(end as int).drop_last() =~= path@.take(end - 1));
            end = end - 1;
        }
        if end == 0 {
            return None;
        }
        let ghost s = path@.take(end as int);
        let mut k = end;
        assert(s.take(k as int) =~= s);
        while k > 0 && path[k - 1] != '/'
            invariant
                k <= end <= path.len(),
                end <= e0,
                0 < end,
                path@[end - 1] != '/',
                s == path@.take(end as int),
                seg_start(s) == seg_start(s.take(k as int)),
                forall|j: int| k <= j < end ==> path@[j] != '/',
            decreases k,
        {
            assert(s.take(k as int).drop_last() =~= s.take(k - 1));
            k = k - 1;
        }
        proof {
            assert(seg_start(s) == k) by {
                if k > 0 {
                    assert(s.take(k as int).last() == '/');
                }
            }
            assert(s.skip(k as int) =~= path@.subrange(k as int, end as int));
            assert(s.take(k as int) =~= path@.take(k as int));
            assert(s.last() != '/');
        }
        assert(k < end);
        let seg = slice(path, k, end);
        if chars_eq(&seg, &dot) {
            end = k;
        } else if chars_eq(&seg, &dotdot) {
            return None;
        } else {
            return Some(seg);
        }
    }
}

/// Where the last `.` of `s` is, if any.
pub open spec fn last_dot(s: Seq<char>) -> Option<int>
    decreases s.len(),
{
    if s.len() == 0 {
        None
    } else if s.last() == '.' {
        Some(s.len() - 1)
    } else {
        last_dot(s.drop_last())
    }
}

/// `Path::file_stem` given the file name: the part before the last `.`,
/// unless that `.` is the first character or there is none.
pub open spec fn stem_of(name: Seq<char>) -> Seq<char> {
    match last_dot(name) {
        Some(i) => if i == 0 {
            name
        } else {
            name.take(i)
        },
        None => name,
    }
}

/// `Path::extension` given the file name: the part after the last `.`,
/// unless that `.` is the first character or there is none.
pub open spec fn extension_of(name: Seq<char>) -> Option<Seq<char>> {
    match last_dot(name) {
        Some(i) => if i == 0 {
            None
        } else {
            Some(name.skip(i + 1))
        },
        None => None,
    }
}

/// The position of the last `.` in `v`.
fn find_last_dot(v: &Vec<char>) -> (r: Option<usize>)
    ensures
        match r {
            Some(i) => last_dot(v@) == Some(i as int) && i < v.len(),
            None => last_dot(v@) is None,
        },
{
    let mut k = v.len();
    assert(v@.take(k as int) =~= v@);
    while k > 0
        invariant
            k <= v.len(),
            last_dot(v@) == last_dot(v@.take(k as int)),
        decreases k,
    {
        if v[k - 1] == '.' {
            return Some(k - 1);
        }
        assert(v@.take(k as int).drop_last() =~= v@.take(k - 1));
        k = k - 1;
    }
    None
}

/// `file_stem` and `extension` of a file name.
pub fn split_extension(name: &Vec<char>) -> (r: (Vec<char>, Option<Vec<char>>))
    ensures
        r.0@ == stem_of(name@),
        match r.1 {
            Some(e) => extension_of(name@) == Some(e@),
            None => extension_of(name@) is None,
        },
{
    match find_last_dot(name) {
        Some(i) => {
            if i == 0 {
                (slice(name, 0, name.len()), None)
            } else {
                (slice(name, 0, i), Some(slice(name, i + 1, name.len())))
            }
        },
        None => {
            assert(name@.subrange(0, name@.len() as int) =~= name@);
            (slice(name, 0, name.len()), None)
        },
    }
}

/// `<data_dir>/history.sqlite`.
pub fn history_db(data_dir: &str) -> (r: String)
    ensures
        r@ == join_path(data_dir@, "history.sqlite"@),
{
    join(data_dir, "history.sqlite")
}

/// `<data_dir>/bookmarks.toml`.
pub fn bookmarks_file(data_dir: &str) -> (r: String)
    ensures
        r@ == join_path(data_dir@, "bookmarks.toml"@),
{
    join(data_dir, "bookmarks.toml")
}

/// `<data_dir>/config.toml`.
pub fn config_file(data_dir: &str) -> (r: String)
    ensures
        r@ == join_path(data_dir@, "config.toml"@),
{
    join(data_dir, "config.toml")
}

/// `<data_dir>/downloads.json`.
pub fn downloads_log(data_dir: &str) -> (r: String)
    ensures
        r@ == join_path(data_dir@, "downloads.json"@),
{
    join(data_dir, "downloads.json")
}

/// `<data_dir>/blocklist-hosts.txt`.
pub fn blocklist_file(data_dir: &str) -> (r: String)
    ensures
        r@ == join_path(data_dir@, "blocklist-hosts.txt"@),
{
    join(data_dir, "blocklist-hosts.txt")
}

/// A character kept in a session file name; any other becomes `_`.
pub open spec fn safe_char(c: char) -> char {
    if is_ascii_alnum(c) || c == '-' || c == '_' {
        c
    } else {
        '_'
    }
}

/// A session name made safe for a file name.
pub open spec fn safe_name(name: Seq<char>) -> Seq<char> {
    name.map_values(|c: char| safe_char(c))
}

/// `<data_dir>/sessions/<safe name>.json`, where every character of the name
/// other than ASCII letters, digits, `-` and `_` becomes `_`.
pub fn session_file(data_dir: &str, name: &str) -> (r: String)
    ensures
        r@ == join_path(join_path(data_dir@, "sessions"@), safe_name(name@) + ".json"@),
{
    let n = chars_of(name);
    let mut safe: Vec<char> = Vec::new();
    let mut i: usize = 0;
    while i < n.len()
        invariant
            i <= n.len(),
            safe@ == safe_name(n@.take(i as int)),
        decreases n.len() - i,
    {
        let c = n[i];
        safe.push(if char_is_ascii_alnum(c) || c == '-' || c == '_' { c } else { '_' });
        i = i + 1;
        assert(safe@ =~= safe_name(n@.take(i as int)));
    }
    assert(n@.take(n.len() as int) =~= n@);
    push_str(&mut safe, ".json");
    let dir = join(data_dir, "sessions");
    let file = string_of(&safe);
    join(dir.as_str(), file.as_str())
}

/// The file of the session saved on quit: `<data_dir>/sessions/_last.json`.
pub fn last_session_file(data_dir: &str) -> (r: String)
    ensures
        r@ == join_path(join_path(data_dir@, "sessions"@), safe_name("_last"@) + ".json"@),
{
    session_file(data_dir, "_last")
}

/// A session's file name only holds ASCII letters, digits, `-`, `_` and the
/// `.json` suffix, whatever the session is called.
pub proof fn law_session_name_safe(name: Seq<char>)
    ensures
        forall|i: int|
            0 <= i < safe_name(name).len() ==> {
                let c = #[trigger] safe_name(name)[i];
                is_ascii_alnum(c) || c == '-' || c == '_'
            },
        safe_name(name).len() == name.len(),
{
}

} // verus!
