//! Saved sessions: the URLs of the open tabs and which one was active.

use vstd::prelude::*;
use crate::text::{chars_eq, chars_of};

verus! {

/// A saved session.
#[derive(Debug, Clone)]
pub struct Session {
    pub name: String,
    pub active: usize,
    pub urls: Vec<String>,
}

impl Session {
    /// A session with the given name, active index and tab URLs.
    pub fn new(name: String, active: usize, urls: Vec<String>) -> (r: Self)
        ensures
            r.name == name,
            r.active == active,
            r.urls == urls,
    {
        Session { name, active, urls }
    }

    /// Whether the session is worth restoring at startup: it has tabs, and is
    /// not just one blank tab.
    pub fn is_restorable(&self) -> (r: bool)
        ensures
            r == (self.urls@.len() > 0 && !(self.urls@.len() == 1 && self.urls@[0]@ == "about:blank"@)),
    {
        if self.urls.len() == 0 {
            return false;
        }
        if self.urls.len() == 1 {
            let u = chars_of(self.urls[0].as_str());
            let blank = chars_of("about:blank");
            if chars_eq(&u, &blank) {
                return false;
            }
        }
        true
    }
}

} // verus!
