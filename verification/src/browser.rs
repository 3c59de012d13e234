//! Browser state: the open tabs, which one is active, the stack of recently
//! closed tabs, and the ids that tie each tab to its webview.

use vstd::prelude::*;
use vstd::string::*;
use std::collections::VecDeque;
use crate::text::{chars_eq, chars_of, has_prefix_str, push_all, push_str, starts_with, string_of};

pub use crate::encode::urlencoding_lite;

verus! {

/// The character for a digit `d < 10`.
pub open spec fn digit_char(d: nat) -> char {
    ((0x30 + d) as u32) as char
}

/// Decimal notation of `n`, as `u64`'s `Display` writes it.
pub open spec fn decimal(n: nat) -> Seq<char>
    decreases n,
{
    if n < 10 {
        seq![digit_char(n)]
    } else {
        decimal(n / 10).push(digit_char(n % 10))
    }
}

/// The webview id given to the `n`-th allocated tab: `content-<n>`.
pub open spec fn tab_id(n: nat) -> Seq<char> {
    "content-"@ + decimal(n)
}

proof fn lemma_decimal_len(n: nat)
    ensures
        decimal(n).len() >= 1,
        n >= 10 ==> decimal(n).len() >= 2,
    decreases n,
{
    if n >= 10 {
        lemma_decimal_len(n / 10);
    }
}

proof fn lemma_digit_char(a: nat, b: nat)
    requires
        a < 10,
        b < 10,
        digit_char(a) == digit_char(b),
    ensures
        a == b,
{
    vstd::utf8::char_u32_cast(digit_char(a), (0x30 + a) as u32);
}

/// Different numbers have different decimal notations.
pub proof fn lemma_decimal_injective(a: nat, b: nat)
    requires
        decimal(a) == decimal(b),
    ensures
        a == b,
    decreases a,
{
    lemma_decimal_len(a);
    lemma_decimal_len(b);
    if a < 10 && b < 10 {
        assert(decimal(a) == seq![digit_char(a)]);
        assert(decimal(b) == seq![digit_char(b)]);
        assert(decimal(a)[0] == digit_char(a));
        assert(decimal(b)[0] == digit_char(b));
        lemma_digit_char(a, b);
    } else if a >= 10 && b >= 10 {
        let da = decimal(a);
        let db = decimal(b);
        assert(da.last() == digit_char(a % 10));
        assert(db.last() == digit_char(b % 10));
        lemma_digit_char(a % 10, b % 10);
        assert(da.drop_last() =~= decimal(a / 10));
        assert(db.drop_last() =~= decimal(b / 10));
        lemma_decimal_injective(a / 10, b / 10);
        assert(a == (a / 10) * 10 + a % 10);
        assert(b == (b / 10) * 10 + b % 10);
    } else {
        assert(decimal(a).len() != decimal(b).len());
    }
}

/// Different allocation counts give different tab ids.
pub proof fn lemma_tab_id_injective(a: nat, b: nat)
    requires
        tab_id(a) == tab_id(b),
    ensures
        a == b,
{
    let p = "content-"@;
    assert(tab_id(a).skip(p.len() as int) =~= decimal(a));
    assert(tab_id(b).skip(p.len() as int) =~= decimal(b));
    lemma_decimal_injective(a, b);
}

/// Appends the decimal notation of `n` to `v`.
pub fn push_decimal(v: &mut Vec<char>, n: u64)
    ensures
        final(v)@ == old(v)@ + decimal(n as nat),
    decreases n,
{
    if n >= 10 {
        push_decimal(v, n / 10);
    }
    let d = (n % 10) as u8;
    v.push((0x30 + d) as char);
    proof {
        assert((0x30 + d) as char == digit_char((n % 10) as nat));
        if n >= 10 {
            assert(decimal(n as nat) == decimal((n / 10) as nat).push(digit_char((n % 10) as nat)));
        }
    }
    assert(v@ =~= old(v)@ + decimal(n as nat));
}

/// One tab as the shell shows it.
#[derive(Debug)]
pub struct TabInfo {
    pub id: String,
    pub url: String,
    pub title: String,
    pub loading: bool,
}

impl Clone for TabInfo {
    /// An equal copy.
    fn clone(&self) -> (r: Self)
        ensures
            r == *self,
    {
        TabInfo {
            id: self.id.clone(),
            url: self.url.clone(),
            title: self.title.clone(),
            loading: self.loading,
        }
    }
}

/// A copy of a list of tabs.
pub fn clone_tabs(v: &Vec<TabInfo>) -> (r: Vec<TabInfo>)
    ensures
        r@ == v@,
{
    let mut r: Vec<TabInfo> = Vec::new();
    let mut i: usize = 0;
    while i < v.len()
        invariant
            i <= v.len(),
            r@ == v@.take(i as int),
        decreases v.len() - i,
    {
        r.push(v[i].clone());
        i = i + 1;
        assert(r@ =~= v@.take(i as int));
    }
    assert(v@.take(v.len() as int) =~= v@);
    r
}

/// What the shell renders: the tabs, the active index and the status line.
#[derive(Debug, Clone)]
pub struct BrowserSnapshot {
    pub tabs: Vec<TabInfo>,
    pub active_tab: usize,
    pub status: String,
}

/// The browser's tab state.
#[derive(Debug)]
pub struct BrowserState {
    pub tabs: Vec<TabInfo>,
    pub active_tab: usize,
    pub status: String,
    pub closed: VecDeque<TabInfo>,
    pub next_id: u64,
}

/// At most this many closed tabs are remembered.
pub open spec fn closed_cap() -> nat {
    20
}

/// A closed-tab stack after a tab is pushed on top and the oldest beyond the
/// cap are dropped.
pub open spec fn capped(s: Seq<TabInfo>) -> Seq<TabInfo> {
    if s.len() > closed_cap() {
        s.take(closed_cap() as int)
    } else {
        s
    }
}

/// A tab with the given fields.
pub open spec fn tab_with(id: Seq<char>, url: Seq<char>, title: Seq<char>, loading: bool, t: TabInfo) -> bool {
    t.id@ == id && t.url@ == url && t.title@ == title && t.loading == loading
}

impl BrowserState {
    /// How many webview ids have been handed out.
    pub open spec fn issued(&self) -> nat {
        self.next_id as nat
    }

    /// The id was handed out earlier: it is `content-<k>` for some `k` below
    /// the count issued.
    pub open spec fn is_issued(&self, id: Seq<char>) -> bool {
        exists|k: nat| k < self.issued() && id == tab_id(k)
    }

    /// Well-formed state: the active index points at a tab (or is 0 with no
    /// tabs), open tabs have pairwise different ids, every id of an open or
    /// closed tab was issued, and at most `closed_cap()` closed tabs are kept.
    pub open spec fn wf(&self) -> bool {
        &&& (self.tabs@.len() == 0 && self.active_tab == 0) || self.active_tab < self.tabs@.len()
        &&& forall|i: int, j: int|
            0 <= i < j < self.tabs@.len() ==> #[trigger] self.tabs@[i].id@ != #[trigger] self.tabs@[j].id@
        &&& forall|i: int| 0 <= i < self.tabs@.len() ==> self.is_issued(#[trigger] self.tabs@[i].id@)
        &&& forall|i: int| 0 <= i < self.closed@.len() ==> self.is_issued(#[trigger] self.closed@[i].id@)
        &&& self.closed@.len() <= closed_cap()
    }

    /// Everything but the tabs and the active index is unchanged.
    pub open spec fn same_rest(&self, other: &Self) -> bool {
        &&& self.status == other.status
        &&& self.closed@ == other.closed@
        &&& self.issued() == other.issued()
    }

    /// Empty browser with no tabs (the caller adds at least one).
    pub fn empty() -> (s: Self)
        ensures
            s.tabs@.len() == 0,
            s.active_tab == 0,
            s.status@ == Seq::<char>::empty(),
            s.closed@.len() == 0,
            s.issued() == 0,
            s.wf(),
    {
        BrowserState {
            tabs: Vec::new(),
            active_tab: 0,
            status: String::new(),
            closed: VecDeque::new(),
            next_id: 0,
        }
    }
}

impl Default for BrowserState {
    /// One blank tab, `content-0`, active.
    fn default() -> (s: Self)
        ensures
            s.tabs@.len() == 1,
            tab_with(tab_id(0), "about:blank"@, "New Tab"@, false, s.tabs@[0]),
            s.active_tab == 0,
            s.status@ == Seq::<char>::empty(),
            s.closed@.len() == 0,
            s.issued() == 1,
            s.wf(),
    {
        let mut s = Self::empty();
        s.push_tab("about:blank", "New Tab");
        s
    }
}

impl BrowserState {
    /// A copy of the tabs, active index and status.
    pub fn snapshot(&self) -> (r: BrowserSnapshot)
        ensures
            r.tabs@ == self.tabs@,
            r.active_tab == self.active_tab,
            r.status@ == self.status@,
    {
        BrowserSnapshot {
            tabs: clone_tabs(&self.tabs),
            active_tab: self.active_tab,
            status: self.status.clone(),
        }
    }

    /// The active tab, for changing it in place.
    pub fn active_mut(&mut self) -> (r: &mut TabInfo)
        requires
            old(self).active_tab < old(self).tabs@.len(),
        ensures
            *r == old(self).tabs@[old(self).active_tab as int],
            final(self).tabs@ == old(self).tabs@.update(old(self).active_tab as int, *final(r)),
            final(self).active_tab == old(self).active_tab,
            final(self).same_rest(old(self)),
    {
        &mut self.tabs[self.active_tab]
    }

    /// The active tab.
    pub fn active(&self) -> (r: &TabInfo)
        requires
            self.active_tab < self.tabs@.len(),
        ensures
            *r == self.tabs@[self.active_tab as int],
    {
        &self.tabs[self.active_tab]
    }

    /// The active tab's id.
    pub fn active_id(&self) -> (r: String)
        requires
            self.active_tab < self.tabs@.len(),
        ensures
            r == self.tabs@[self.active_tab as int].id,
    {
        self.active().id.clone()
    }

    /// Hands out the next webview id, `content-<n>`.
    pub fn alloc_id(&mut self) -> (r: String)
        requires
            old(self).issued() < u64::MAX,
        ensures
            r@ == tab_id(old(self).issued()),
            final(self).issued() == old(self).issued() + 1,
            final(self).tabs == old(self).tabs,
            final(self).active_tab == old(self).active_tab,
            final(self).status == old(self).status,
            final(self).closed@ == old(self).closed@,
    {
        let mut v = chars_of("content-");
        push_decimal(&mut v, self.next_id);
        self.next_id = self.next_id + 1;
        string_of(&v)
    }

    /// Issuing one more id keeps earlier ids issued and makes the new one
    /// different from all of them.
    proof fn lemma_fresh(old_s: &Self, new_s: &Self)
        requires
            new_s.issued() == old_s.issued() + 1,
        ensures
            forall|id: Seq<char>| old_s.is_issued(id) ==> new_s.is_issued(id),
            forall|id: Seq<char>| old_s.is_issued(id) ==> id != tab_id(old_s.issued()),
            new_s.is_issued(tab_id(old_s.issued())),
    {
        assert forall|id: Seq<char>| old_s.is_issued(id) implies id != tab_id(old_s.issued()) by {
            let k = choose|k: nat| k < old_s.issued() && id == tab_id(k);
            if id == tab_id(old_s.issued()) {
                lemma_tab_id_injective(k, old_s.issued());
            }
        }
        assert forall|id: Seq<char>| old_s.is_issued(id) implies new_s.is_issued(id) by {
            let k = choose|k: nat| k < old_s.issued() && id == tab_id(k);
            assert(k < new_s.issued() && id == tab_id(k));
        }
        let n = old_s.issued();
        assert(n < new_s.issued() && tab_id(n) == tab_id(n));
    }

    /// Opens a tab at the end with a fresh id and makes it active.
    pub fn push_tab(&mut self, url: &str, title: &str) -> (r: String)
        requires
            old(self).issued() < u64::MAX,
        ensures
            r@ == tab_id(old(self).issued()),
            final(self).tabs@.len() == old(self).tabs@.len() + 1,
            final(self).tabs@.drop_last() == old(self).tabs@,
            tab_with(r@, url@, title@, false, final(self).tabs@.last()),
            final(self).active_tab == old(self).tabs@.len(),
            final(self).issued() == old(self).issued() + 1,
            final(self).status == old(self).status,
            final(self).closed@ == old(self).closed@,
            old(self).wf() ==> final(self).wf(),
    {
        let ghost old_s = *self;
        let id = self.alloc_id();
        self.tabs.push(TabInfo {
            id: id.clone(),
            url: String::from_str(url),
            title: String::from_str(title),
            loading: false,
        });
        self.active_tab = self.tabs.len() - 1;
        proof {
            assert(self.tabs@.drop_last() =~= old_s.tabs@);
            Self::lemma_fresh(&old_s, self);
            if old_s.wf() {
                assert forall|i: int| 0 <= i < self.tabs@.len() implies self.is_issued(
                    #[trigger] self.tabs@[i].id@,
                ) by {
                    if i < old_s.tabs@.len() {
                        assert(self.tabs@[i] == old_s.tabs@[i]);
                    }
                }
                assert forall|i: int, j: int|
                    0 <= i < j < self.tabs@.len() implies #[trigger] self.tabs@[i].id@
                    != #[trigger] self.tabs@[j].id@ by {
                    assert(self.tabs@[i] == old_s.tabs@[i]);
                    if j < old_s.tabs@.len() {
                        assert(self.tabs@[j] == old_s.tabs@[j]);
                    } else {
                        assert(old_s.is_issued(old_s.tabs@[i].id@));
                    }
                }
            }
        }
        id
    }
}


/// The active index after moving one tab to the right, wrapping around.
pub open spec fn next_index(active: nat, len: nat) -> nat {
    ((active + 1) % len) as nat
}

/// The active index after moving one tab to the left, wrapping around.
pub open spec fn prev_index(active: nat, len: nat) -> nat {
    if active == 0 {
        (len - 1) as nat
    } else {
        (active - 1) as nat
    }
}

/// The active index after the active tab at `active` is removed from `len` tabs.
pub open spec fn index_after_close(active: nat, len: nat) -> nat {
    if active + 1 < len {
        active
    } else {
        (len - 2) as nat
    }
}

/// What `close_active` does to `old`, giving `new` and returning `r`.
pub open spec fn close_active_post(old: BrowserState, new: BrowserState, r: (String, String)) -> bool {
    let a = old.active_tab as int;
    &&& r.0 == old.tabs@[a].id
    &&& new.closed@ == capped(seq![old.tabs@[a]] + old.closed@)
    &&& new.status == old.status
    &&& old.tabs@.len() == 1 ==> {
        &&& new.tabs@.len() == 1
        &&& tab_with(tab_id(old.issued()), "about:blank"@, "New Tab"@, false, new.tabs@[0])
        &&& new.active_tab == 0
        &&& new.issued() == old.issued() + 1
        &&& r.1@ == tab_id(old.issued())
    }
    &&& old.tabs@.len() > 1 ==> {
        &&& new.tabs@ == old.tabs@.remove(a)
        &&& new.active_tab == index_after_close(a as nat, old.tabs@.len())
        &&& new.issued() == old.issued()
        &&& r.1 == new.tabs@[new.active_tab as int].id
    }
}

/// What `undo_close` does to `old`, giving `new` and returning `r`.
pub open spec fn undo_close_post(old: BrowserState, new: BrowserState, r: Option<TabInfo>) -> bool {
    if old.closed@.len() == 0 {
        &&& r is None
        &&& new == old
    } else {
        let c = old.closed@[0];
        &&& r is Some
        &&& r->0.id@ == tab_id(old.issued())
        &&& r->0.url == c.url
        &&& r->0.title == c.title
        &&& r->0.loading == c.loading
        &&& new.tabs@ == old.tabs@.push(r->0)
        &&& new.active_tab == old.tabs@.len()
        &&& new.closed@ == old.closed@.drop_first()
        &&& new.issued() == old.issued() + 1
        &&& new.status == old.status
    }
}

impl BrowserState {
    /// Drops the oldest closed tabs beyond the cap.
    fn trim_closed(&mut self)
        ensures
            final(self).closed@ == capped(old(self).closed@),
            final(self).tabs == old(self).tabs,
            final(self).active_tab == old(self).active_tab,
            final(self).status == old(self).status,
            final(self).next_id == old(self).next_id,
    {
        let ghost full = self.closed@;
        while self.closed.len() > 20
            invariant
                self.closed@ == full.take(self.closed@.len() as int),
                self.closed@.len() <= full.len(),
                full.len() > closed_cap() ==> self.closed@.len() >= closed_cap(),
                full.len() <= closed_cap() ==> self.closed@.len() == full.len(),
                self.tabs == old(self).tabs,
                self.active_tab == old(self).active_tab,
                self.status == old(self).status,
                self.next_id == old(self).next_id,
            decreases self.closed@.len(),
        {
            let _ = self.closed.pop_back();
            assert(self.closed@ =~= full.take(self.closed@.len() as int));
        }
        assert(full.len() <= closed_cap() ==> full.take(full.len() as int) =~= full);
    }

    /// Closes the active tab and remembers it for `undo_close`. Returns the
    /// closed tab's id and the id of the tab that is active afterwards; closing
    /// the last tab opens a blank one in its place.
    pub fn close_active(&mut self) -> (r: (String, String))
        requires
            old(self).active_tab < old(self).tabs@.len(),
            old(self).tabs@.len() == 1 ==> old(self).issued() < u64::MAX,
        ensures
            close_active_post(*old(self), *final(self), r),
            old(self).tabs@.len() > 1 ==> final(self).active_tab == if old(self).active_tab + 1 < old(
                self,
            ).tabs@.len() {
                old(self).active_tab as int
            } else {
                old(self).tabs@.len() - 2
            },
            old(self).wf() ==> final(self).wf(),
    {
        let ghost old_s = *self;
        let ghost a = self.active_tab as int;
        let closed = self.tabs.remove(self.active_tab);
        let closed_id = closed.id.clone();
        self.closed.push_front(closed);
        self.trim_closed();
        proof {
            if old_s.wf() {
                let full = seq![old_s.tabs@[a]] + old_s.closed@;
                assert forall|i: int| 0 <= i < self.closed@.len() implies self.is_issued(
                    #[trigger] self.closed@[i].id@,
                ) by {
                    assert(self.closed@[i] == full[i]);
                    if i > 0 {
                        assert(full[i] == old_s.closed@[i - 1]);
                    }
                }
                assert forall|i: int| 0 <= i < self.tabs@.len() implies self.is_issued(
                    #[trigger] self.tabs@[i].id@,
                ) by {
                    if i < a {
                        assert(self.tabs@[i] == old_s.tabs@[i]);
                    } else {
                        assert(self.tabs@[i] == old_s.tabs@[i + 1]);
                    }
                }
                assert forall|i: int, j: int|
                    0 <= i < j < self.tabs@.len() implies #[trigger] self.tabs@[i].id@
                    != #[trigger] self.tabs@[j].id@ by {
                    let i0 = if i < a { i } else { i + 1 };
                    let j0 = if j < a { j } else { j + 1 };
                    assert(self.tabs@[i] == old_s.tabs@[i0]);
                    assert(self.tabs@[j] == old_s.tabs@[j0]);
                }
            }
        }
        if self.tabs.len() == 0 {
            let id = self.push_tab("about:blank", "New Tab");
            return (closed_id, id);
        }
        if self.active_tab >= self.tabs.len() {
            self.active_tab = self.tabs.len() - 1;
        }
        let active_id = self.active_id();
        (closed_id, active_id)
    }

    /// Reopens the most recently closed tab at the end, under a fresh id, and
    /// makes it active; returns it, or `None` when nothing was closed.
    pub fn undo_close(&mut self) -> (r: Option<TabInfo>)
        requires
            old(self).closed@.len() > 0 ==> old(self).issued() < u64::MAX,
        ensures
            undo_close_post(*old(self), *final(self), r),
            old(self).wf() ==> final(self).wf(),
    {
        let ghost old_s = *self;
        if self.closed.len() == 0 {
            return None;
        }
        let tab = match self.closed.pop_front() {
            Some(t) => t,
            None => {
                return None;
            },
        };
        let mut restored = tab;
        restored.id = self.alloc_id();
        self.tabs.push(restored.clone());
        self.active_tab = self.tabs.len() - 1;
        proof {
            Self::lemma_fresh(&old_s, self);
            if old_s.wf() {
                assert forall|i: int| 0 <= i < self.closed@.len() implies self.is_issued(
                    #[trigger] self.closed@[i].id@,
                ) by {
                    assert(self.closed@[i] == old_s.closed@[i + 1]);
                }
                assert forall|i: int| 0 <= i < self.tabs@.len() implies self.is_issued(
                    #[trigger] self.tabs@[i].id@,
                ) by {
                    if i < old_s.tabs@.len() {
                        assert(self.tabs@[i] == old_s.tabs@[i]);
                    }
                }
                assert forall|i: int, j: int|
                    0 <= i < j < self.tabs@.len() implies #[trigger] self.tabs@[i].id@
                    != #[trigger] self.tabs@[j].id@ by {
                    assert(self.tabs@[i] == old_s.tabs@[i]);
                    if j < old_s.tabs@.len() {
                        assert(self.tabs@[j] == old_s.tabs@[j]);
                    } else {
                        assert(old_s.is_issued(old_s.tabs@[i].id@));
                    }
                }
            }
        }
        Some(restored)
    }

    /// Makes tab `index` active and returns its id; an index past the end
    /// changes nothing and gives `None`.
    pub fn switch_tab(&mut self, index: usize) -> (r: Option<String>)
        ensures
            index >= old(self).tabs@.len() ==> r is None && *final(self) == *old(self),
            index < old(self).tabs@.len() ==> {
                &&& r == Some(old(self).tabs@[index as int].id)
                &&& final(self).active_tab == index
                &&& final(self).tabs == old(self).tabs
                &&& final(self).same_rest(old(self))
            },
            old(self).wf() ==> final(self).wf(),
    {
        if index >= self.tabs.len() {
            return None;
        }
        self.active_tab = index;
        Some(self.active_id())
    }

    /// Moves to the next tab, wrapping around, and returns its id; with no
    /// tabs, opens a blank one.
    pub fn next_tab(&mut self) -> (r: String)
        requires
            old(self).tabs@.len() == 0 ==> old(self).issued() < u64::MAX,
            old(self).active_tab < usize::MAX,
        ensures
            old(self).tabs@.len() == 0 ==> {
                &&& final(self).tabs@.len() == 1
                &&& tab_with(tab_id(old(self).issued()), "about:blank"@, "New Tab"@, false, final(self).tabs@[0])
                &&& final(self).active_tab == 0
                &&& r@ == tab_id(old(self).issued())
                &&& final(self).status == old(self).status
                &&& final(self).closed@ == old(self).closed@
                &&& final(self).issued() == old(self).issued() + 1
            },
            old(self).tabs@.len() > 0 ==> {
                &&& final(self).active_tab == next_index(old(self).active_tab as nat, old(self).tabs@.len())
                &&& final(self).tabs == old(self).tabs
                &&& final(self).same_rest(old(self))
                &&& r == final(self).tabs@[final(self).active_tab as int].id
            },
            old(self).wf() ==> final(self).wf(),
    {
        if self.tabs.len() == 0 {
            return self.push_tab("about:blank", "New Tab");
        }
        self.active_tab = (self.active_tab + 1) % self.tabs.len();
        self.active_id()
    }

    /// Moves to the previous tab, wrapping around, and returns its id; with no
    /// tabs, opens a blank one.
    pub fn prev_tab(&mut self) -> (r: String)
        requires
            old(self).tabs@.len() == 0 ==> old(self).issued() < u64::MAX,
            old(self).tabs@.len() > 0 ==> old(self).active_tab <= old(self).tabs@.len(),
        ensures
            old(self).tabs@.len() == 0 ==> {
                &&& final(self).tabs@.len() == 1
                &&& tab_with(tab_id(old(self).issued()), "about:blank"@, "New Tab"@, false, final(self).tabs@[0])
                &&& final(self).active_tab == 0
                &&& r@ == tab_id(old(self).issued())
                &&& final(self).status == old(self).status
                &&& final(self).closed@ == old(self).closed@
                &&& final(self).issued() == old(self).issued() + 1
            },
            old(self).tabs@.len() > 0 ==> {
                &&& final(self).active_tab == prev_index(old(self).active_tab as nat, old(self).tabs@.len())
                &&& final(self).tabs == old(self).tabs
                &&& final(self).same_rest(old(self))
                &&& r == final(self).tabs@[final(self).active_tab as int].id
            },
            old(self).wf() ==> final(self).wf(),
    {
        if self.tabs.len() == 0 {
            return self.push_tab("about:blank", "New Tab");
        }
        if self.active_tab == 0 {
            self.active_tab = self.tabs.len() - 1;
        } else {
            self.active_tab = self.active_tab - 1;
        }
        self.active_id()
    }
}

impl BrowserState {
    /// The browser a saved session restores: one tab per URL (its title the
    /// URL), or a blank tab when there are none, with the saved active index
    /// clamped to the last tab.
    pub fn restore(urls: &Vec<String>, active: usize) -> (s: Self)
        requires
            urls@.len() < u64::MAX,
        ensures
            urls@.len() > 0 ==> s.tabs@.len() == urls@.len() && forall|i: int|
                0 <= i < urls@.len() ==> tab_with(tab_id(i as nat), urls@[i]@, urls@[i]@, false, #[trigger] s.tabs@[i]),
            urls@.len() == 0 ==> s.tabs@.len() == 1 && tab_with(tab_id(0), "about:blank"@, "New Tab"@, false, s.tabs@[0]),
            s.active_tab == if active < s.tabs@.len() {
                active as int
            } else {
                s.tabs@.len() - 1
            },
            s.status@ == Seq::<char>::empty(),
            s.closed@.len() == 0,
            s.wf(),
    {
        let mut fresh = Self::empty();
        let mut i: usize = 0;
        while i < urls.len()
            invariant
                i <= urls@.len(),
                urls@.len() < u64::MAX,
                fresh.tabs@.len() == i,
                fresh.issued() == i,
                forall|k: int| 0 <= k < i ==> tab_with(tab_id(k as nat), urls@[k]@, urls@[k]@, false, #[trigger] fresh.tabs@[k]),
                fresh.status@ == Seq::<char>::empty(),
                fresh.closed@.len() == 0,
                fresh.wf(),
            decreases urls@.len() - i,
        {
            let ghost before = fresh.tabs@;
            fresh.push_tab(urls[i].as_str(), urls[i].as_str());
            proof {
                assert forall|k: int| 0 <= k < i + 1 implies tab_with(tab_id(k as nat), urls@[k]@, urls@[k]@, false, #[trigger] fresh.tabs@[k]) by {
                    if k < i {
                        assert(fresh.tabs@[k] == before[k]);
                    }
                }
            }
            i = i + 1;
        }
        if fresh.tabs.len() == 0 {
            fresh.push_tab("about:blank", "New Tab");
        }
        fresh.active_tab = if active < fresh.tabs.len() {
            active
        } else {
            fresh.tabs.len() - 1
        };
        fresh
    }

    /// The URLs of the open tabs, in order.
    pub fn tab_urls(&self) -> (r: Vec<String>)
        ensures
            r@.len() == self.tabs@.len(),
            forall|i: int| 0 <= i < r@.len() ==> #[trigger] r@[i] == self.tabs@[i].url,
    {
        let mut r: Vec<String> = Vec::new();
        let mut i: usize = 0;
        while i < self.tabs.len()
            invariant
                i <= self.tabs@.len(),
                r@.len() == i,
                forall|k: int| 0 <= k < i ==> #[trigger] r@[k] == self.tabs@[k].url,
            decreases self.tabs@.len() - i,
        {
            r.push(self.tabs[i].url.clone());
            i = i + 1;
        }
        r
    }

    /// Points the active tab at `url`, loading, titled by its URL, and says so
    /// in the status line.
    pub fn navigate_active(&mut self, url: &str)
        requires
            old(self).active_tab < old(self).tabs@.len(),
        ensures
            final(self).tabs@ == old(self).tabs@.update(
                old(self).active_tab as int,
                final(self).tabs@[old(self).active_tab as int],
            ),
            tab_with(
                old(self).tabs@[old(self).active_tab as int].id@,
                url@,
                url@,
                true,
                final(self).tabs@[old(self).active_tab as int],
            ),
            final(self).active_tab == old(self).active_tab,
            final(self).status@ == "Loading "@ + url@,
            final(self).closed@ == old(self).closed@,
            final(self).issued() == old(self).issued(),
            old(self).wf() ==> final(self).wf(),
    {
        let ghost old_s = *self;
        let a = self.active_tab;
        let tab = self.active_mut();
        tab.url = String::from_str(url);
        tab.loading = true;
        tab.title = String::from_str(url);
        let mut st = chars_of("Loading ");
        push_str(&mut st, url);
        self.status = string_of(&st);
        proof {
            if old_s.wf() {
                assert forall|i: int, j: int|
                    0 <= i < j < self.tabs@.len() implies #[trigger] self.tabs@[i].id@
                    != #[trigger] self.tabs@[j].id@ by {
                    assert(self.tabs@[i].id == old_s.tabs@[i].id);
                    assert(self.tabs@[j].id == old_s.tabs@[j].id);
                }
                assert forall|i: int| 0 <= i < self.tabs@.len() implies self.is_issued(
                    #[trigger] self.tabs@[i].id@,
                ) by {
                    assert(self.tabs@[i].id == old_s.tabs@[i].id);
                }
            }
        }
    }

    /// Opens `url` in a new active tab, titled by its URL and marked loading,
    /// and says so in the status line; returns the tab's id.
    pub fn open_loading_tab(&mut self, url: &str) -> (r: String)
        requires
            old(self).issued() < u64::MAX,
        ensures
            r@ == tab_id(old(self).issued()),
            final(self).tabs@.drop_last() == old(self).tabs@,
            final(self).tabs@.len() == old(self).tabs@.len() + 1,
            tab_with(r@, url@, url@, true, final(self).tabs@.last()),
            final(self).active_tab == old(self).tabs@.len(),
            final(self).status@ == "Loading "@ + url@,
            final(self).closed@ == old(self).closed@,
            final(self).issued() == old(self).issued() + 1,
            old(self).wf() ==> final(self).wf(),
    {
        let ghost old_s = *self;
        let id = self.push_tab(url, url);
        let ghost mid = *self;
        self.active_mut().loading = true;
        let mut st = chars_of("Loading ");
        push_str(&mut st, url);
        self.status = string_of(&st);
        proof {
            assert(self.tabs@.drop_last() =~= mid.tabs@.drop_last());
            if old_s.wf() {
                assert forall|i: int, j: int|
                    0 <= i < j < self.tabs@.len() implies #[trigger] self.tabs@[i].id@
                    != #[trigger] self.tabs@[j].id@ by {
                    assert(self.tabs@[i].id == mid.tabs@[i].id);
                    assert(self.tabs@[j].id == mid.tabs@[j].id);
                }
                assert forall|i: int| 0 <= i < self.tabs@.len() implies self.is_issued(
                    #[trigger] self.tabs@[i].id@,
                ) by {
                    assert(self.tabs@[i].id == mid.tabs@[i].id);
                }
            }
        }
        id
    }

    /// What the page reports about itself updates the active tab: a non-empty
    /// URL and title replace the old ones, and loading is over.
    pub fn apply_page_meta(&mut self, url: &str, title: &str)
        requires
            old(self).active_tab < old(self).tabs@.len(),
        ensures
            ({
                let a = old(self).active_tab as int;
                let t = old(self).tabs@[a];
                &&& final(self).tabs@ == old(self).tabs@.update(a, final(self).tabs@[a])
                &&& tab_with(
                    t.id@,
                    if url@.len() > 0 {
                        url@
                    } else {
                        t.url@
                    },
                    if title@.len() > 0 {
                        title@
                    } else {
                        t.title@
                    },
                    false,
                    final(self).tabs@[a],
                )
            }),
            final(self).active_tab == old(self).active_tab,
            final(self).same_rest(old(self)),
            old(self).wf() ==> final(self).wf(),
    {
        let ghost old_s = *self;
        let tab = self.active_mut();
        if !url.is_empty() {
            tab.url = String::from_str(url);
        }
        if !title.is_empty() {
            tab.title = String::from_str(title);
        }
        tab.loading = false;
        proof {
            if old_s.wf() {
                assert forall|i: int, j: int|
                    0 <= i < j < self.tabs@.len() implies #[trigger] self.tabs@[i].id@
                    != #[trigger] self.tabs@[j].id@ by {
                    assert(self.tabs@[i].id == old_s.tabs@[i].id);
                    assert(self.tabs@[j].id == old_s.tabs@[j].id);
                }
                assert forall|i: int| 0 <= i < self.tabs@.len() implies self.is_issued(
                    #[trigger] self.tabs@[i].id@,
                ) by {
                    assert(self.tabs@[i].id == old_s.tabs@[i].id);
                }
            }
        }
    }

    /// A finished page load in the tab with id `tab_id`: the tab takes the
    /// page's URL, stops loading, and takes the URL as title when its title is
    /// empty or itself a URL (starts with `http`); without such a tab nothing
    /// changes.
    pub fn page_loaded(&mut self, tab_id: &str, url: &str)
        ensures
            final(self).tabs@.len() == old(self).tabs@.len(),
            forall|i: int|
                0 <= i < old(self).tabs@.len() ==> {
                    let t = old(self).tabs@[i];
                    if t.id@ == tab_id@ && forall|j: int| 0 <= j < i ==> old(self).tabs@[j].id@ != tab_id@ {
                        tab_with(
                            t.id@,
                            url@,
                            if t.title@.len() == 0 || starts_with(t.title@, "http"@) {
                                url@
                            } else {
                                t.title@
                            },
                            false,
                            #[trigger] final(self).tabs@[i],
                        )
                    } else {
                        final(self).tabs@[i] == t
                    }
                },
            final(self).active_tab == old(self).active_tab,
            final(self).same_rest(old(self)),
            old(self).wf() ==> final(self).wf(),
    {
        let ghost old_s = *self;
        let want = chars_of(tab_id);
        let mut i: usize = 0;
        while i < self.tabs.len()
            invariant
                i <= self.tabs@.len(),
                *self == old_s,
                old_s == *old(self),
                want@ == tab_id@,
                forall|j: int| 0 <= j < i ==> self.tabs@[j].id@ != tab_id@,
            decreases self.tabs@.len() - i,
        {
            let id = chars_of(self.tabs[i].id.as_str());
            if chars_eq(&id, &want) {
                let keep_title = {
                    let t = &self.tabs[i];
                    !(t.title.as_str().is_empty() || has_prefix_str(&chars_of(t.title.as_str()), "http"))
                };
                let mut tab = self.tabs[i].clone();
                tab.url = String::from_str(url);
                tab.loading = false;
                if !keep_title {
                    tab.title = String::from_str(url);
                }
                let ghost newtab = tab;
                self.tabs.set(i, tab);
                proof {
                    assert(self.tabs@.len() == old_s.tabs@.len());
                    assert forall|k: int| 0 <= k < old_s.tabs@.len() implies {
                        let t = old_s.tabs@[k];
                        if t.id@ == tab_id@ && forall|j: int| 0 <= j < k ==> old_s.tabs@[j].id@ != tab_id@ {
                            tab_with(
                                t.id@,
                                url@,
                                if t.title@.len() == 0 || starts_with(t.title@, "http"@) {
                                    url@
                                } else {
                                    t.title@
                                },
                                false,
                                #[trigger] self.tabs@[k],
                            )
                        } else {
                            self.tabs@[k] == t
                        }
                    } by {
                        if k == i {
                            assert(self.tabs@[k] == newtab);
                        } else if k > i {
                            assert(old_s.tabs@[i as int].id@ == tab_id@);
                            assert(!(forall|j: int| 0 <= j < k ==> old_s.tabs@[j].id@ != tab_id@));
                        }
                    }
                    if old_s.wf() {
                        assert forall|a: int, b: int|
                            0 <= a < b < self.tabs@.len() implies #[trigger] self.tabs@[a].id@
                            != #[trigger] self.tabs@[b].id@ by {
                            assert(self.tabs@[a].id == old_s.tabs@[a].id);
                            assert(self.tabs@[b].id == old_s.tabs@[b].id);
                        }
                        assert forall|a: int| 0 <= a < self.tabs@.len() implies self.is_issued(
                            #[trigger] self.tabs@[a].id@,
                        ) by {
                            assert(self.tabs@[a].id == old_s.tabs@[a].id);
                        }
                    }
                }
                return;
            }
            i = i + 1;
        }
    }

    /// At startup without a session to restore: the first tab shows the start
    /// page, titled `New Tab` for `about:blank` and by its URL otherwise;
    /// without tabs nothing changes.
    pub fn show_start_page(&mut self, start: &str)
        ensures
            old(self).tabs@.len() == 0 ==> *final(self) == *old(self),
            old(self).tabs@.len() > 0 ==> {
                let t = old(self).tabs@[0];
                &&& final(self).tabs@ == old(self).tabs@.update(0, final(self).tabs@[0])
                &&& tab_with(
                    t.id@,
                    start@,
                    if start@ == "about:blank"@ {
                        "New Tab"@
                    } else {
                        start@
                    },
                    t.loading,
                    final(self).tabs@[0],
                )
            },
            final(self).active_tab == old(self).active_tab,
            final(self).same_rest(old(self)),
            old(self).wf() ==> final(self).wf(),
    {
        if self.tabs.len() == 0 {
            return;
        }
        let ghost old_s = *self;
        let mut tab = self.tabs[0].clone();
        tab.url = String::from_str(start);
        let sv = chars_of(start);
        let blank = chars_of("about:blank");
        tab.title = if chars_eq(&sv, &blank) {
            String::from_str("New Tab")
        } else {
            String::from_str(start)
        };
        self.tabs.set(0, tab);
        proof {
            if old_s.wf() {
                assert forall|i: int, j: int|
                    0 <= i < j < self.tabs@.len() implies #[trigger] self.tabs@[i].id@
                    != #[trigger] self.tabs@[j].id@ by {
                    assert(self.tabs@[i].id == old_s.tabs@[i].id);
                    assert(self.tabs@[j].id == old_s.tabs@[j].id);
                }
                assert forall|i: int| 0 <= i < self.tabs@.len() implies self.is_issued(
                    #[trigger] self.tabs@[i].id@,
                ) by {
                    assert(self.tabs@[i].id == old_s.tabs@[i].id);
                }
            }
        }
    }
}

/// Closing the active tab of several focuses its neighbour: the tab that
/// came right after it, or, when it was the last tab, the one right before
/// it. The other tabs keep their order.
pub proof fn law_close_focuses_neighbour(s0: BrowserState, s1: BrowserState, r: (String, String))
    requires
        s0.active_tab < s0.tabs@.len(),
        s0.tabs@.len() > 1,
        close_active_post(s0, s1, r),
    ensures
        s1.tabs@.len() == s0.tabs@.len() - 1,
        s0.active_tab + 1 < s0.tabs@.len() ==> {
            &&& s1.active_tab == s0.active_tab
            &&& s1.tabs@[s1.active_tab as int] == s0.tabs@[s0.active_tab + 1]
        },
        s0.active_tab + 1 == s0.tabs@.len() ==> {
            &&& s1.active_tab == s0.active_tab - 1
            &&& s1.tabs@[s1.active_tab as int] == s0.tabs@[s0.active_tab - 1]
        },
        r.0 == s0.tabs@[s0.active_tab as int].id,
        r.1 == s1.tabs@[s1.active_tab as int].id,
        forall|i: int| 0 <= i < s0.active_tab ==> s1.tabs@[i] == s0.tabs@[i],
        forall|i: int| s0.active_tab < i < s0.tabs@.len() ==> s1.tabs@[i - 1] == s0.tabs@[i],
{
}

/// Moving left then right (or right then left) comes back to the same tab.
pub proof fn law_prev_next_inverse(active: nat, len: nat)
    requires
        active < len,
    ensures
        next_index(prev_index(active, len), len) == active,
        prev_index(next_index(active, len), len) == active,
{
    if active + 1 == len {
        assert((active + 1) % len == 0) by {
            vstd::arithmetic::div_mod::lemma_mod_self_0(len as int);
        }
    } else {
        vstd::arithmetic::div_mod::lemma_small_mod((active + 1) as nat, len);
    }
    if active == 0 {
        vstd::arithmetic::div_mod::lemma_mod_self_0(len as int);
    } else {
        vstd::arithmetic::div_mod::lemma_small_mod(active, len);
    }
}

/// Closing the active tab and then undoing it reopens the same page (url,
/// title, loading flag) as the last, active tab, under an id that differs from
/// the closed one and from every other open tab.
pub proof fn law_close_then_undo(
    s0: BrowserState,
    s1: BrowserState,
    r1: (String, String),
    s2: BrowserState,
    r2: Option<TabInfo>,
)
    requires
        s0.wf(),
        s0.active_tab < s0.tabs@.len(),
        close_active_post(s0, s1, r1),
        undo_close_post(s1, s2, r2),
    ensures
        r2 is Some,
        r2->0.url == s0.tabs@[s0.active_tab as int].url,
        r2->0.title == s0.tabs@[s0.active_tab as int].title,
        r2->0.loading == s0.tabs@[s0.active_tab as int].loading,
        s2.tabs@.last() == r2->0,
        s2.active_tab == s2.tabs@.len() - 1,
        r2->0.id@ != r1.0@,
        forall|i: int| 0 <= i < s2.tabs@.len() - 1 ==> #[trigger] s2.tabs@[i].id@ != r2->0.id@,
{
    let a = s0.active_tab as int;
    assert(s1.closed@[0] == s0.tabs@[a]);
    assert(s0.is_issued(s0.tabs@[a].id@));
    let k = choose|k: nat| k < s0.issued() && s0.tabs@[a].id@ == tab_id(k);
    if r2->0.id@ == r1.0@ {
        lemma_tab_id_injective(k, s1.issued());
    }
    assert forall|i: int| 0 <= i < s2.tabs@.len() - 1 implies #[trigger] s2.tabs@[i].id@ != r2->0.id@ by {
        assert(s2.tabs@[i] == s1.tabs@[i]);
        if s0.tabs@.len() == 1 {
            assert(s1.tabs@[i].id@ == tab_id(s0.issued()));
            if s1.tabs@[i].id@ == r2->0.id@ {
                lemma_tab_id_injective(s0.issued(), s1.issued());
            }
        } else {
            let i0 = if i < a { i } else { i + 1 };
            assert(s1.tabs@[i] == s0.tabs@[i0]);
            assert(s0.is_issued(s0.tabs@[i0].id@));
            let m = choose|m: nat| m < s0.issued() && s0.tabs@[i0].id@ == tab_id(m);
            if s1.tabs@[i].id@ == r2->0.id@ {
                lemma_tab_id_injective(m, s1.issued());
            }
        }
    }
}

} // verus!
