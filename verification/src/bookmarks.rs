//! Named bookmarks and single-key quickmarks.

use vstd::prelude::*;
use vstd::string::*;
use crate::strmap::StrMap;
use crate::text::{chars_of, string_of};

verus! {

/// Named bookmarks (name to URL) and quickmarks (one character to URL).
#[derive(Debug, Clone)]
pub struct BookmarkStore {
    pub bookmarks: StrMap<String>,
    pub quickmarks: StrMap<String>,
}

impl Default for BookmarkStore {
    /// No bookmarks, no quickmarks.
    fn default() -> (r: Self)
        ensures
            r.bookmarks@ == Map::<Seq<char>, String>::empty(),
            r.quickmarks@ == Map::<Seq<char>, String>::empty(),
    {
        BookmarkStore { bookmarks: StrMap::new(), quickmarks: StrMap::new() }
    }
}

/// The quickmark key for `key`: its first character, `?` when it is empty.
pub open spec fn quick_key(key: Seq<char>) -> Seq<char> {
    if key.len() > 0 {
        seq![key[0]]
    } else {
        seq!['?']
    }
}

impl BookmarkStore {
    /// Stores `url` under `name`, replacing an earlier bookmark of that name.
    pub fn set_bookmark(&mut self, name: &str, url: &str)
        ensures
            final(self).bookmarks@ == old(self).bookmarks@.insert(name@, final(self).bookmarks@[name@]),
            final(self).bookmarks@[name@]@ == url@,
            final(self).quickmarks@ == old(self).quickmarks@,
    {
        let u = String::from_str(url);
        let ghost uv = u;
        self.bookmarks.insert(String::from_str(name), u);
        assert(self.bookmarks@[name@] == uv);
    }

    /// Stores `url` under the first character of `key` (`?` for an empty key).
    pub fn set_quickmark(&mut self, key: &str, url: &str)
        ensures
            final(self).quickmarks@ == old(self).quickmarks@.insert(quick_key(key@), final(self).quickmarks@[quick_key(key@)]),
            final(self).quickmarks@[quick_key(key@)]@ == url@,
            final(self).bookmarks@ == old(self).bookmarks@,
    {
        let kv = chars_of(key);
        let mut k: Vec<char> = Vec::new();
        k.push(if kv.len() > 0 { kv[0] } else { '?' });
        assert(k@ =~= quick_key(key@));
        let u = String::from_str(url);
        let ghost uv = u;
        self.quickmarks.insert(string_of(&k), u);
        assert(self.quickmarks@[quick_key(key@)] == uv);
    }

    /// The URL bookmarked under `name`.
    pub fn get_bookmark(&self, name: &str) -> (r: Option<String>)
        ensures
            match r {
                Some(u) => self.bookmarks@.contains_key(name@) && u == self.bookmarks@[name@],
                None => !self.bookmarks@.contains_key(name@),
            },
    {
        match self.bookmarks.get(name) {
            Some(u) => Some(u.clone()),
            None => None,
        }
    }

    /// The URL quickmarked under the first character of `key`; none for an
    /// empty key.
    pub fn get_quickmark(&self, key: &str) -> (r: Option<String>)
        ensures
            key@.len() == 0 ==> r is None,
            key@.len() > 0 ==> match r {
                Some(u) => self.quickmarks@.contains_key(quick_key(key@)) && u == self.quickmarks@[quick_key(key@)],
                None => !self.quickmarks@.contains_key(quick_key(key@)),
            },
    {
        let kv = chars_of(key);
        if kv.len() == 0 {
            return None;
        }
        let mut k: Vec<char> = Vec::new();
        k.push(kv[0]);
        assert(k@ =~= quick_key(key@));
        let ks = string_of(&k);
        match self.quickmarks.get(ks.as_str()) {
            Some(u) => Some(u.clone()),
            None => None,
        }
    }
}

/// A bookmark reads back what was last stored under its name, and other
/// names keep their bookmarks.
pub proof fn law_bookmark_read_after_write(
    before: Map<Seq<char>, String>,
    after: Map<Seq<char>, String>,
    name: Seq<char>,
    url: Seq<char>,
    other: Seq<char>,
)
    requires
        after == before.insert(name, after[name]),
        after[name]@ == url,
        other != name,
    ensures
        after.contains_key(name),
        after[name]@ == url,
        after.contains_key(other) == before.contains_key(other),
        before.contains_key(other) ==> after[other] == before[other],
{
}

/// Every key sharing a first character reaches the same quickmark.
pub proof fn law_quickmark_first_char(a: Seq<char>, b: Seq<char>)
    requires
        a.len() > 0,
        b.len() > 0,
        a[0] == b[0],
    ensures
        quick_key(a) == quick_key(b),
{
}

} // verus!
