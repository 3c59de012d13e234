//! The decisions around the visit history: what gets recorded and how a
//! search is limited and matched.

use vstd::prelude::*;
use vstd::string::*;
use crate::text::{chars_eq, chars_of, push_all, string_of, trim, trimmed_str};

verus! {

/// One row of the visit history.
#[derive(Debug, Clone)]
pub struct HistoryEntry {
    pub url: String,
    pub title: String,
    pub visit_count: i64,
    pub last_visit: i64,
}

/// Whether a visit to `url` is recorded: not for an empty URL or `about:blank`.
pub fn should_record(url: &str) -> (r: bool)
    ensures
        r == !(url@.len() == 0 || url@ == "about:blank"@),
{
    let u = chars_of(url);
    let blank = chars_of("about:blank");
    !(u.len() == 0 || chars_eq(&u, &blank))
}

/// The number of rows a search returns: the requested limit kept within 1..=100.
pub fn search_limit(limit: usize) -> (r: i64)
    ensures
        r == if limit < 1 {
            1
        } else if limit > 100 {
            100
        } else {
            limit as int
        },
{
    if limit < 1 {
        1
    } else if limit > 100 {
        100
    } else {
        limit as i64
    }
}

/// The `LIKE` pattern for a search: the trimmed query between `%` signs; none
/// for a blank query, which lists the most recent visits instead.
pub fn like_pattern(query: &str) -> (r: Option<String>)
    ensures
        trim(query@).len() == 0 ==> r is None,
        trim(query@).len() > 0 ==> (r matches Some(p) && p@ == seq!['%'] + trim(query@) + seq!['%']),
{
    let q = trimmed_str(query);
    if q.len() == 0 {
        return None;
    }
    let mut p: Vec<char> = Vec::new();
    p.push('%');
    push_all(&mut p, &q);
    p.push('%');
    assert(p@ =~= seq!['%'] + trim(query@) + seq!['%']);
    Some(string_of(&p))
}

} // verus!
