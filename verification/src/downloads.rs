//! Download tracking, and the names and paths that downloads are saved under.

use vstd::prelude::*;
use vstd::string::*;
use crate::browser::{decimal, push_decimal};
use crate::config::opt_view;
use crate::paths::{extension_of, file_name, join, join_path, path_file_name, split_extension, stem_of};
use crate::text::{char_is_ascii_alnum, chars_of, is_ascii_alnum, push_all, push_str, string_of};

verus! {

/// Where a download stands.
#[derive(Debug, PartialEq, Eq, Structural)]
pub enum DownloadStatus {
    Requested,
    Finished,
    Failed,
}

impl Clone for DownloadStatus {
    /// The same status.
    fn clone(&self) -> (r: Self)
        ensures
            r == *self,
    {
        match self {
            DownloadStatus::Requested => DownloadStatus::Requested,
            DownloadStatus::Finished => DownloadStatus::Finished,
            DownloadStatus::Failed => DownloadStatus::Failed,
        }
    }
}

/// One tracked download.
#[derive(Debug)]
pub struct DownloadItem {
    pub id: u64,
    pub url: String,
    pub filename: String,
    pub path: String,
    pub status: DownloadStatus,
    pub success: Option<bool>,
    pub started_at: i64,
    pub finished_at: Option<i64>,
}

impl Clone for DownloadItem {
    /// An equal copy.
    fn clone(&self) -> (r: Self)
        ensures
            r == *self,
    {
        DownloadItem {
            id: self.id,
            url: self.url.clone(),
            filename: self.filename.clone(),
            path: self.path.clone(),
            status: self.status.clone(),
            success: self.success,
            started_at: self.started_at,
            finished_at: self.finished_at,
        }
    }
}

/// The downloads, most recent first, and the next id to hand out.
#[derive(Debug)]
pub struct DownloadManager {
    next_id: u64,
    items: Vec<DownloadItem>,
}

#[verifier::external_type_specification]
#[verifier::external_body]
pub struct ExSystemTime(std::time::SystemTime);

#[verifier::external_type_specification]
#[verifier::external_body]
pub struct ExSystemTimeError(std::time::SystemTimeError);

/// `SystemTime::now`: the system clock; nothing is claimed of it.
#[verifier::external_body]
fn system_now() -> std::time::SystemTime {
    std::time::SystemTime::now()
}

/// `SystemTime::duration_since(UNIX_EPOCH)`: fails for a clock set before
/// 1970; nothing is claimed of the result.
#[verifier::external_body]
fn since_epoch(t: &std::time::SystemTime) -> Result<core::time::Duration, std::time::SystemTimeError> {
    t.duration_since(std::time::UNIX_EPOCH)
}

/// `Duration::as_secs`: the whole seconds of a duration.
#[verifier::external_body]
fn duration_secs(d: &core::time::Duration) -> u64 {
    d.as_secs()
}

/// A clock reading as a timestamp: its whole seconds since the Unix epoch
/// (wrapping into `i64` as `as` does), or 0 for a clock set before the epoch.
fn secs_or_zero(secs: Option<u64>) -> (r: i64)
    ensures
        r == match secs {
            Some(s) => #[verifier::truncate] (s as i64),
            None => 0i64,
        },
{
    match secs {
        Some(s) => #[verifier::truncate] (s as i64),
        None => 0,
    }
}

/// Seconds since the Unix epoch, or 0 when the clock is before it. The value
/// is the system clock's; nothing is claimed of it.
fn now_secs() -> i64 {
    let secs = match since_epoch(&system_now()) {
        Ok(d) => Some(duration_secs(&d)),
        Err(_) => None,
    };
    secs_or_zero(secs)
}

/// The file name of a path, or `download` when it has none.
pub open spec fn name_or_download(path: Seq<char>) -> Seq<char> {
    match file_name(path) {
        Some(f) => f,
        None => "download"@,
    }
}

/// The status a finished download gets.
pub open spec fn finished_status(success: bool) -> DownloadStatus {
    if success {
        DownloadStatus::Finished
    } else {
        DownloadStatus::Failed
    }
}

/// At most this many downloads are kept when one is requested.
pub open spec fn items_cap() -> nat {
    100
}

/// The position of the most recent requested download of `url`.
pub open spec fn first_pending(items: Seq<DownloadItem>, url: Seq<char>) -> Option<int> {
    if exists|i: int| 0 <= i < items.len() && items[i].url@ == url && items[i].status == DownloadStatus::Requested {
        Some(choose|i: int|
            0 <= i < items.len() && items[i].url@ == url && items[i].status == DownloadStatus::Requested
                && forall|j: int|
                0 <= j < i ==> !(items[j].url@ == url && items[j].status == DownloadStatus::Requested))
    } else {
        None
    }
}

/// The downloads still in progress, in order.
pub open spec fn pending(items: Seq<DownloadItem>) -> Seq<DownloadItem>
    decreases items.len(),
{
    if items.len() == 0 {
        Seq::empty()
    } else if items.last().status == DownloadStatus::Requested {
        pending(items.drop_last()).push(items.last())
    } else {
        pending(items.drop_last())
    }
}

/// The largest id among `items`, or 0.
pub open spec fn max_id(items: Seq<DownloadItem>) -> u64
    decreases items.len(),
{
    if items.len() == 0 {
        0
    } else {
        let m = max_id(items.drop_last());
        if items.last().id > m {
            items.last().id
        } else {
            m
        }
    }
}

/// The first requested download of `url` is at `i`.
proof fn lemma_first_pending(items: Seq<DownloadItem>, url: Seq<char>, i: int)
    requires
        0 <= i < items.len(),
        items[i].url@ == url && items[i].status == DownloadStatus::Requested,
        forall|j: int| 0 <= j < i ==> !(#[trigger] items[j].url@ == url && items[j].status == DownloadStatus::Requested),
    ensures
        first_pending(items, url) == Some(i),
{
    let k = choose|k: int|
        0 <= k < items.len() && items[k].url@ == url && items[k].status == DownloadStatus::Requested
            && forall|j: int| 0 <= j < k ==> !(items[j].url@ == url && items[j].status == DownloadStatus::Requested);
    assert(k == i) by {
        if k < i {
            assert(!(items[k].url@ == url && items[k].status == DownloadStatus::Requested));
        }
        if k > i {
            assert(!(items[i].url@ == url && items[i].status == DownloadStatus::Requested));
        }
    }
}

/// A list of downloads copied item by item.
fn clone_items(v: &Vec<DownloadItem>) -> (r: Vec<DownloadItem>)
    ensures
        r@ == v@,
{
    let mut r: Vec<DownloadItem> = Vec::new();
    let mut i: usize = 0;
    while i < v.len()
        invariant
            i <= v.len(),
            r@ == v@.take(i as int),
        decreases v.len() - i,
    {
        r.push(v[i].clone());
        i = i + 1;
        assert(r@ =~= v@.take(i as int));
    }
    assert(v@.take(v.len() as int) =~= v@);
    r
}

/// The file name of a path as a string, or `download`.
fn file_name_or_download(path: &str) -> (r: String)
    ensures
        r@ == name_or_download(path@),
{
    let pv = chars_of(path);
    match path_file_name(&pv) {
        Some(f) => string_of(&f),
        None => String::from_str("download"),
    }
}

impl Default for DownloadManager {
    /// No downloads; ids start at 0.
    fn default() -> (r: Self)
        ensures
            r.items_seq() == Seq::<DownloadItem>::empty(),
            r.next() == 0,
    {
        DownloadManager { next_id: 0, items: Vec::new() }
    }
}

impl DownloadManager {
    /// The downloads, most recent first.
    pub closed spec fn items_seq(&self) -> Seq<DownloadItem> {
        self.items@
    }

    /// The next id to hand out.
    pub closed spec fn next(&self) -> u64 {
        self.next_id
    }

    /// Every id handed out is below the next one.
    pub open spec fn wf(&self) -> bool {
        forall|i: int| 0 <= i < self.items_seq().len() ==> #[trigger] self.items_seq()[i].id < self.next()
    }

    /// A manager holding downloads read back from disk; ids continue after the
    /// largest one.
    pub fn from_items(items: Vec<DownloadItem>) -> (r: Self)
        requires
            max_id(items@) < u64::MAX,
        ensures
            r.items_seq() == items@,
            r.next() == max_id(items@) + 1,
            r.wf(),
    {
        let mut m: u64 = 0;
        let mut i: usize = 0;
        while i < items.len()
            invariant
                i <= items.len(),
                m == max_id(items@.take(i as int)),
                forall|j: int| 0 <= j < i ==> items@[j].id <= m,
            decreases items.len() - i,
        {
            assert(items@.take(i + 1).drop_last() =~= items@.take(i as int));
            if items[i].id > m {
                m = items[i].id;
            }
            i = i + 1;
        }
        assert(items@.take(items.len() as int) =~= items@);
        DownloadManager { next_id: m + 1, items }
    }

    /// A copy of the downloads, most recent first.
    pub fn list(&self) -> (r: Vec<DownloadItem>)
        ensures
            r@ == self.items_seq(),
    {
        clone_items(&self.items)
    }

    /// The id the next recorded download will get.
    pub fn next_id(&self) -> (r: u64)
        ensures
            r == self.next(),
    {
        self.next_id
    }

    /// Drops every download that is no longer in progress.
    pub fn clear_finished(&mut self)
        ensures
            final(self).items_seq() == pending(old(self).items_seq()),
            final(self).next() == old(self).next(),
            old(self).wf() ==> final(self).wf(),
    {
        let ghost start = *self;
        let mut kept: Vec<DownloadItem> = Vec::new();
        let mut old_items: Vec<DownloadItem> = Vec::new();
        std::mem::swap(&mut old_items, &mut self.items);
        let ghost all = old_items@;
        let mut i: usize = 0;
        while i < old_items.len()
            invariant
                i <= old_items.len(),
                old_items@ == all,
                kept@ == pending(all.take(i as int)),
                forall|j: int| 0 <= j < kept@.len() ==> exists|k: int| 0 <= k < i && #[trigger] kept@[j] == all[k],
            decreases old_items.len() - i,
        {
            assert(all.take(i + 1).drop_last() =~= all.take(i as int));
            if old_items[i].status == DownloadStatus::Requested {
                kept.push(old_items[i].clone());
                assert forall|j: int| 0 <= j < kept@.len() implies exists|k: int| 0 <= k < i + 1 && #[trigger] kept@[j] == all[k] by {
                    if j == kept@.len() - 1 {
                        assert(kept@[j] == all[i as int]);
                    }
                }
            }
            i = i + 1;
        }
        assert(all.take(all.len() as int) =~= all);
        self.items = kept;
        proof {
            if start.wf() {
                assert forall|j: int| 0 <= j < self.items_seq().len() implies #[trigger] self.items_seq()[j].id
                    < self.next() by {
                    let k = choose|k: int| 0 <= k < all.len() && #[trigger] self.items@[j] == all[k];
                    assert(start.items_seq()[k] == all[k]);
                }
            }
        }
    }

    /// Records a requested download saved at `dest`, started at `now`, newest
    /// first, keeping at most 100; returns it.
    pub fn on_requested_at(&mut self, url: &str, dest: &str, now: i64) -> (r: DownloadItem)
        requires
            old(self).next() < u64::MAX,
        ensures
            r.id == old(self).next(),
            r.url@ == url@,
            r.filename@ == name_or_download(dest@),
            r.path@ == dest@,
            r.status == DownloadStatus::Requested,
            r.success is None,
            r.started_at == now,
            r.finished_at is None,
            old(self).wf() ==> forall|i: int|
                0 <= i < old(self).items_seq().len() ==> #[trigger] old(self).items_seq()[i].id != r.id,
            final(self).next() == old(self).next() + 1,
            final(self).items_seq() == (if old(self).items_seq().len() + 1 > items_cap() {
                (seq![r] + old(self).items_seq()).take(items_cap() as int)
            } else {
                seq![r] + old(self).items_seq()
            }),
            old(self).wf() ==> final(self).wf(),
    {
        let id = self.next_id;
        self.next_id = self.next_id + 1;
        let filename = file_name_or_download(dest);
        let item = DownloadItem {
            id,
            url: String::from_str(url),
            filename,
            path: String::from_str(dest),
            status: DownloadStatus::Requested,
            success: None,
            started_at: now,
            finished_at: None,
        };
        let ghost before = self.items@;
        self.items.insert(0, item.clone());
        assert(self.items@ =~= seq![item] + before);
        if self.items.len() > 100 {
            self.items.truncate(100);
        }
        item
    }

    /// Records a requested download saved at `dest`, newest first, keeping at
    /// most 100; returns it.
    pub fn on_requested(&mut self, url: &str, dest: &str) -> (r: DownloadItem)
        requires
            old(self).next() < u64::MAX,
        ensures
            r.id == old(self).next(),
            r.url@ == url@,
            r.filename@ == name_or_download(dest@),
            r.path@ == dest@,
            r.status == DownloadStatus::Requested,
            r.success is None,
            r.finished_at is None,
            old(self).wf() ==> forall|i: int|
                0 <= i < old(self).items_seq().len() ==> #[trigger] old(self).items_seq()[i].id != r.id,
            final(self).next() == old(self).next() + 1,
            final(self).items_seq() == (if old(self).items_seq().len() + 1 > items_cap() {
                (seq![r] + old(self).items_seq()).take(items_cap() as int)
            } else {
                seq![r] + old(self).items_seq()
            }),
            old(self).wf() ==> final(self).wf(),
    {
        let now = now_secs();
        self.on_requested_at(url, dest, now)
    }

    /// The position of the most recent requested download of `url`, or the
    /// number of downloads when there is none.
    fn find_pending(&self, url: &str) -> (i: usize)
        ensures
            i <= self.items@.len(),
            i < self.items@.len() ==> self.items@[i as int].url@ == url@ && self.items@[i as int].status
                == DownloadStatus::Requested,
            forall|j: int|
                0 <= j < i ==> !(#[trigger] self.items@[j].url@ == url@ && self.items@[j].status
                    == DownloadStatus::Requested),
    {
        let uv = chars_of(url);
        let mut i: usize = 0;
        while i < self.items.len()
            invariant_except_break
                i <= self.items@.len(),
                uv@ == url@,
                forall|j: int|
                    0 <= j < i ==> !(#[trigger] self.items@[j].url@ == url@ && self.items@[j].status
                        == DownloadStatus::Requested),
            ensures
                i <= self.items@.len(),
                i < self.items@.len() ==> self.items@[i as int].url@ == url@ && self.items@[i as int].status
                    == DownloadStatus::Requested,
                forall|j: int|
                    0 <= j < i ==> !(#[trigger] self.items@[j].url@ == url@ && self.items@[j].status
                        == DownloadStatus::Requested),
            decreases self.items@.len() - i,
        {
            let iv = chars_of(self.items[i].url.as_str());
            if crate::text::chars_eq(&iv, &uv) && self.items[i].status == DownloadStatus::Requested {
                break;
            }
            i = i + 1;
        }
        i
    }

    /// Where the most recent requested download of `url` is being saved; none
    /// when no download of it is in progress.
    pub fn pending_path(&self, url: &str) -> (r: Option<String>)
        ensures
            match first_pending(self.items_seq(), url@) {
                Some(i) => r matches Some(p) && p@ == self.items_seq()[i].path@,
                None => r is None,
            },
    {
        let i = self.find_pending(url);
        if i < self.items.len() {
            proof {
                lemma_first_pending(self.items@, url@, i as int);
            }
            Some(self.items[i].path.clone())
        } else {
            assert(first_pending(self.items@, url@) is None);
            None
        }
    }

    /// Marks download `i` as ended.
    fn finish_at(&mut self, i: usize, path: Option<&str>, success: bool, now: i64) -> (r: Option<DownloadItem>)
        requires
            i < old(self).items@.len(),
        ensures
            r is Some,
            ({
                let old_item = old(self).items_seq()[i as int];
                let it = r->0;
                &&& it.id == old_item.id
                &&& it.url == old_item.url
                &&& it.status == finished_status(success)
                &&& it.success == Some(success)
                &&& it.finished_at == Some(now)
                &&& it.started_at == old_item.started_at
                &&& it.path@ == (match path {
                    Some(p) => p@,
                    None => old_item.path@,
                })
                &&& it.filename@ == (match path {
                    Some(p) => match file_name(p@) {
                        Some(f) => f,
                        None => old_item.filename@,
                    },
                    None => old_item.filename@,
                })
                &&& final(self).items_seq() == old(self).items_seq().update(i as int, it)
                &&& final(self).next() == old(self).next()
            }),
            old(self).wf() ==> final(self).wf(),
    {
        let mut item = self.items[i].clone();
        item.status = if success {
            DownloadStatus::Finished
        } else {
            DownloadStatus::Failed
        };
        item.success = Some(success);
        item.finished_at = Some(now);
        match path {
            Some(p) => {
                item.path = String::from_str(p);
                let pv = chars_of(p);
                match path_file_name(&pv) {
                    Some(n) => {
                        item.filename = string_of(&n);
                    },
                    None => {},
                }
            },
            None => {},
        }
        let ghost old_s = *self;
        self.items.set(i, item.clone());
        proof {
            if old_s.wf() {
                assert forall|j: int| 0 <= j < self.items_seq().len() implies #[trigger] self.items_seq()[j].id
                    < self.next() by {
                    if j != i {
                        assert(self.items@[j] == old_s.items@[j]);
                    } else {
                        assert(old_s.items_seq()[j].id < old_s.next());
                    }
                }
            }
        }
        Some(item)
    }

    /// Adds an entry for a download that ended without being requested here.
    fn add_finished(&mut self, url: &str, path: Option<&str>, success: bool, now: i64) -> (r: Option<DownloadItem>)
        requires
            old(self).next() < u64::MAX,
        ensures
            r is Some,
            ({
                let it = r->0;
                &&& it.id == old(self).next()
                &&& it.url@ == url@
                &&& it.status == finished_status(success)
                &&& it.success == Some(success)
                &&& it.started_at == now
                &&& it.finished_at == Some(now)
                &&& it.path@ == (match path {
                    Some(p) => p@,
                    None => Seq::<char>::empty(),
                })
                &&& it.filename@ == (match path {
                    Some(p) => name_or_download(p@),
                    None => "download"@,
                })
                &&& final(self).items_seq() == seq![it] + old(self).items_seq()
                &&& final(self).next() == old(self).next() + 1
            }),
            old(self).wf() ==> final(self).wf(),
    {
        let id = self.next_id;
        self.next_id = self.next_id + 1;
        let path_s = match path {
            Some(p) => String::from_str(p),
            None => String::new(),
        };
        let filename = match path {
            Some(p) => file_name_or_download(p),
            None => String::from_str("download"),
        };
        let item = DownloadItem {
            id,
            url: String::from_str(url),
            filename,
            path: path_s,
            status: if success {
                DownloadStatus::Finished
            } else {
                DownloadStatus::Failed
            },
            success: Some(success),
            started_at: now,
            finished_at: Some(now),
        };
        let ghost before = self.items@;
        self.items.insert(0, item.clone());
        assert(self.items@ =~= seq![item] + before);
        Some(item)
    }

    /// Records the end, at `now`, of the download of `url`: the most recent requested
    /// download of it is marked finished or failed (taking `path` and its file
    /// name when given); without one, a finished entry is added in front.
    pub fn on_finished_at(&mut self, url: &str, path: Option<&str>, success: bool, now: i64) -> (r: Option<DownloadItem>)
        requires
            first_pending(old(self).items_seq(), url@) is None ==> old(self).next() < u64::MAX,
        ensures
            r is Some,
            match first_pending(old(self).items_seq(), url@) {
                Some(i) => {
                    let old_item = old(self).items_seq()[i];
                    let it = r->0;
                    &&& it.id == old_item.id
                    &&& it.url == old_item.url
                    &&& it.status == finished_status(success)
                    &&& it.success == Some(success)
                    &&& it.finished_at == Some(now)
                    &&& it.started_at == old_item.started_at
                    &&& it.path@ == (match path {
                        Some(p) => p@,
                        None => old_item.path@,
                    })
                    &&& it.filename@ == (match path {
                        Some(p) => match file_name(p@) {
                            Some(f) => f,
                            None => old_item.filename@,
                        },
                        None => old_item.filename@,
                    })
                    &&& final(self).items_seq() == old(self).items_seq().update(i, it)
                    &&& final(self).next() == old(self).next()
                },
                None => {
                    let it = r->0;
                    &&& it.id == old(self).next()
                    &&& it.url@ == url@
                    &&& it.status == finished_status(success)
                    &&& it.success == Some(success)
                    &&& it.started_at == now
                    &&& it.finished_at == Some(now)
                    &&& it.path@ == (match path {
                        Some(p) => p@,
                        None => Seq::<char>::empty(),
                    })
                    &&& it.filename@ == (match path {
                        Some(p) => name_or_download(p@),
                        None => "download"@,
                    })
                    &&& final(self).items_seq() == seq![it] + old(self).items_seq()
                    &&& final(self).next() == old(self).next() + 1
                },
            },
            old(self).wf() ==> final(self).wf(),
    {
        let i = self.find_pending(url);
        if i < self.items.len() {
            proof {
                lemma_first_pending(self.items@, url@, i as int);
            }
            self.finish_at(i, path, success, now)
        } else {
            self.add_finished(url, path, success, now)
        }
    }

    /// Records the end of the download of `url`: the most recent requested
    /// download of it is marked finished or failed (taking `path` and its file
    /// name when given); without one, a finished entry is added in front.
    pub fn on_finished(&mut self, url: &str, path: Option<&str>, success: bool) -> (r: Option<DownloadItem>)
        requires
            first_pending(old(self).items_seq(), url@) is None ==> old(self).next() < u64::MAX,
        ensures
            r is Some,
            match first_pending(old(self).items_seq(), url@) {
                Some(i) => {
                    let old_item = old(self).items_seq()[i];
                    let it = r->0;
                    &&& it.id == old_item.id
                    &&& it.url == old_item.url
                    &&& it.status == finished_status(success)
                    &&& it.success == Some(success)
                    &&& it.finished_at is Some
                    &&& it.started_at == old_item.started_at
                    &&& it.path@ == (match path {
                        Some(p) => p@,
                        None => old_item.path@,
                    })
                    &&& it.filename@ == (match path {
                        Some(p) => match file_name(p@) {
                            Some(f) => f,
                            None => old_item.filename@,
                        },
                        None => old_item.filename@,
                    })
                    &&& final(self).items_seq() == old(self).items_seq().update(i, it)
                    &&& final(self).next() == old(self).next()
                },
                None => {
                    let it = r->0;
                    &&& it.id == old(self).next()
                    &&& it.url@ == url@
                    &&& it.status == finished_status(success)
                    &&& it.success == Some(success)
                    &&& it.finished_at == Some(it.started_at)
                    &&& it.path@ == (match path {
                        Some(p) => p@,
                        None => Seq::<char>::empty(),
                    })
                    &&& it.filename@ == (match path {
                        Some(p) => name_or_download(p@),
                        None => "download"@,
                    })
                    &&& final(self).items_seq() == seq![it] + old(self).items_seq()
                    &&& final(self).next() == old(self).next() + 1
                },
            },
            old(self).wf() ==> final(self).wf(),
    {
        let now = now_secs();
        self.on_finished_at(url, path, success, now)
    }
}

/// What `url::Url::parse(url)` gives as the last of its `path_segments()`:
/// `None` when the URL does not parse or cannot be a base.
pub uninterp spec fn parsed_url_last_segment(url: Seq<char>) -> Option<Seq<char>>;

/// `url::Url::parse`, then the last path segment; the result is
/// `parsed_url_last_segment` of the input.
#[verifier::external_body]
fn url_last_segment(url: &str) -> (r: Option<String>)
    ensures
        opt_view(r) == parsed_url_last_segment(url@),
{
    let u = url::Url::parse(url).ok()?;
    let mut segments = u.path_segments()?;
    segments.next_back().map(|s| s.to_string())
}

/// The file name for a download given the URL's last path segment: the
/// segment when it is not empty, else `download`.
pub open spec fn segment_file_name(seg: Option<Seq<char>>) -> Seq<char> {
    match seg {
        Some(s) => if s.len() > 0 {
            s
        } else {
            "download"@
        },
        None => "download"@,
    }
}

/// The file name for a download given the URL's last path segment.
pub fn file_name_from_segment(seg: Option<String>) -> (r: String)
    ensures
        r@ == segment_file_name(opt_view(seg)),
{
    match seg {
        Some(s) => {
            if s.as_str().is_empty() {
                String::from_str("download")
            } else {
                s
            }
        },
        None => String::from_str("download"),
    }
}

/// The file name a URL suggests: its last path segment, or `download`.
pub fn filename_from_url(url: &str) -> (r: String)
    ensures
        r@ == segment_file_name(parsed_url_last_segment(url@)),
{
    file_name_from_segment(url_last_segment(url))
}

/// A character kept in a download's file name; any other becomes `_`.
pub open spec fn download_char(c: char) -> char {
    if is_ascii_alnum(c) || c == '.' || c == '-' || c == '_' || c == ' ' {
        c
    } else {
        '_'
    }
}

/// The file name a download is saved under: the suggested name when there is
/// a non-empty one, else the one the URL suggests (`seg` being its last path
/// segment), with unsafe characters replaced by `_`, and `download` if that
/// leaves nothing.
pub open spec fn download_name(seg: Option<Seq<char>>, suggested: Option<Seq<char>>) -> Seq<char> {
    let raw = match suggested {
        Some(s) => if s.len() > 0 {
            s
        } else {
            segment_file_name(seg)
        },
        None => segment_file_name(seg),
    };
    let clean = raw.map_values(|c: char| download_char(c));
    if clean.len() == 0 {
        "download"@
    } else {
        clean
    }
}

/// The sanitized file name for downloading `url`.
pub fn download_file_name(url: &str, suggested: Option<&str>) -> (r: String)
    ensures
        r@ == download_name(
            parsed_url_last_segment(url@),
            match suggested {
                Some(s) => Some(s@),
                None => None,
            },
        ),
{
    let raw = match suggested {
        Some(s) => {
            if s.is_empty() {
                filename_from_url(url)
            } else {
                String::from_str(s)
            }
        },
        None => filename_from_url(url),
    };
    let rv = chars_of(raw.as_str());
    let mut clean: Vec<char> = Vec::new();
    let mut i: usize = 0;
    while i < rv.len()
        invariant
            i <= rv.len(),
            clean@ == rv@.take(i as int).map_values(|c: char| download_char(c)),
        decreases rv.len() - i,
    {
        let c = rv[i];
        clean.push(
            if char_is_ascii_alnum(c) || c == '.' || c == '-' || c == '_' || c == ' ' {
                c
            } else {
                '_'
            },
        );
        i = i + 1;
        assert(clean@ =~= rv@.take(i as int).map_values(|c: char| download_char(c)));
    }
    assert(rv@.take(rv.len() as int) =~= rv@);
    if clean.len() == 0 {
        String::from_str("download")
    } else {
        string_of(&clean)
    }
}

/// The `n`-th path tried for saving `name` in `dir`: first `dir/name`, then
/// `dir/<stem> (<n>)<.ext>` with the stem and extension of that first path.
pub open spec fn candidate(dir: Seq<char>, name: Seq<char>, n: nat) -> Seq<char> {
    let base = join_path(dir, name);
    if n == 0 {
        base
    } else {
        let stem = match file_name(base) {
            Some(f) => stem_of(f),
            None => "download"@,
        };
        let ext = match file_name(base) {
            Some(f) => match extension_of(f) {
                Some(e) => seq!['.'] + e,
                None => Seq::empty(),
            },
            None => Seq::empty(),
        };
        join_path(dir, stem + " ("@ + decimal(n) + ")"@ + ext)
    }
}

/// The `n`-th path tried when saving `name` in `dir`.
pub fn candidate_path(dir: &str, name: &str, n: u32) -> (r: String)
    ensures
        r@ == candidate(dir@, name@, n as nat),
{
    let base = join(dir, name);
    if n == 0 {
        return base;
    }
    let bv = chars_of(base.as_str());
    let (stem, ext) = match path_file_name(&bv) {
        Some(f) => {
            let (st, e) = split_extension(&f);
            let ext = match e {
                Some(x) => {
                    let mut d: Vec<char> = Vec::new();
                    d.push('.');
                    push_all(&mut d, &x);
                    assert(d@ =~= seq!['.'] + x@);
                    d
                },
                None => Vec::new(),
            };
            (st, ext)
        },
        None => (chars_of("download"), Vec::new()),
    };
    let mut file = stem;
    push_str(&mut file, " (");
    push_decimal(&mut file, n as u64);
    push_str(&mut file, ")");
    push_all(&mut file, &ext);
    let fs = string_of(&file);
    proof {
        assert(ext@ == match file_name(base@) {
            Some(f) => match extension_of(f) {
                Some(e) => seq!['.'] + e,
                None => Seq::<char>::empty(),
            },
            None => Seq::<char>::empty(),
        });
    }
    join(dir, fs.as_str())
}

/// The next move when choosing where to save a download, once it is known
/// whether candidate path `n` is taken.
#[derive(Debug, PartialEq, Eq, Structural)]
pub enum DestStep {
    /// Save at candidate `n`.
    Use(u32),
    /// Check candidate `n` next.
    Try(u32),
}

/// The numbered candidates tried after the plain name: `1` up to this bound.
pub open spec fn last_candidate() -> u32 {
    999
}

/// One step of choosing a save path: a free candidate `n` is used; a taken
/// one sends the search to `n + 1`, or after the last numbered candidate back
/// to the plain name.
pub open spec fn candidate_step(n: u32, taken: bool) -> DestStep {
    if !taken {
        DestStep::Use(n)
    } else if n < last_candidate() {
        DestStep::Try((n + 1) as u32)
    } else {
        DestStep::Use(0)
    }
}

/// Where the steps lead from candidate `n`, given which candidates are taken.
pub open spec fn search_candidates(taken: Seq<bool>, n: u32) -> u32
    decreases last_candidate() - n,
{
    if n > last_candidate() {
        0
    } else {
        match candidate_step(n, taken[n as int]) {
            DestStep::Use(m) => m,
            DestStep::Try(m) => if n < m <= last_candidate() {
                search_candidates(taken, m)
            } else {
                0
            },
        }
    }
}

proof fn lemma_search_from(taken: Seq<bool>, n: u32)
    requires
        taken.len() == last_candidate() + 1,
        n <= last_candidate(),
    ensures
        (exists|i: int| n <= i <= last_candidate() && !taken[i]) ==> {
            let c = search_candidates(taken, n);
            &&& n <= c <= last_candidate()
            &&& !taken[c as int]
            &&& forall|j: int| n <= j < c ==> taken[j]
        },
        (forall|i: int| n <= i <= last_candidate() ==> taken[i]) ==> search_candidates(taken, n) == 0,
    decreases last_candidate() - n,
{
    if taken[n as int] && n < last_candidate() {
        lemma_search_from(taken, (n + 1) as u32);
        if exists|i: int| n <= i <= last_candidate() && !taken[i] {
            let i = choose|i: int| n <= i <= last_candidate() && !taken[i];
            assert(i != n);
        }
    }
}

/// Stepping from the plain name saves at the plain name when it is free, else
/// at the first free numbered name; with every candidate taken, at the plain
/// name.
pub proof fn law_first_free_candidate(taken: Seq<bool>)
    requires
        taken.len() == last_candidate() + 1,
    ensures
        (exists|i: int| 0 <= i <= last_candidate() && !taken[i]) ==> {
            let c = search_candidates(taken, 0);
            &&& !taken[c as int]
            &&& forall|j: int| 0 <= j < c ==> taken[j]
        },
        (forall|i: int| 0 <= i <= last_candidate() ==> taken[i]) ==> search_candidates(taken, 0) == 0,
{
    lemma_search_from(taken, 0);
}

/// Choosing a save path tries the plain name (candidate 0), then the numbered
/// names `1..=999` in turn, and takes the first one not taken; when all are
/// taken it falls back to the plain name.
pub fn after_candidate(n: u32, taken: bool) -> (r: DestStep)
    requires
        n <= last_candidate(),
    ensures
        r == candidate_step(n, taken),
{
    if !taken {
        DestStep::Use(n)
    } else if n < 999 {
        DestStep::Try(n + 1)
    } else {
        DestStep::Use(0)
    }
}

} // verus!
