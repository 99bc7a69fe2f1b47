//! The persistent store, modelled as verified in-memory state.
//!
//! Holds download records keyed by video id, cookies keyed by
//! (domain, name, path), and string settings keyed by name. Each key is
//! unique; every operation preserves that and the per-record invariants.

use vstd::prelude::*;
use vstd::string::*;

use crate::task::{record_wf, DownloadRecord, DownloadStatus, RecordModel};
use crate::text::str_eq;

verus! {

/// One persisted cookie. Key: (domain, name, path).
#[derive(Clone, Debug)]
pub struct CookieRecord {
    pub domain: String,
    pub name: String,
    pub value: String,
    pub path: String,
    pub expires: Option<i64>,
}

/// The mathematical model of a cookie record.
pub ghost struct CookieModel {
    pub domain: Seq<char>,
    pub name: Seq<char>,
    pub value: Seq<char>,
    pub path: Seq<char>,
    pub expires: Option<int>,
}

impl View for CookieRecord {
    type V = CookieModel;

    open spec fn view(&self) -> CookieModel {
        CookieModel {
            domain: self.domain@,
            name: self.name@,
            value: self.value@,
            path: self.path@,
            expires: match self.expires {
                Some(t) => Some(t as int),
                None => None,
            },
        }
    }
}

/// Two cookie models share their key.
pub open spec fn cookie_same_key(a: CookieModel, b: CookieModel) -> bool {
    a.domain == b.domain && a.name == b.name && a.path == b.path
}

/// One persisted string setting.
#[derive(Clone, Debug)]
pub struct SettingEntry {
    pub key: String,
    pub value: String,
}

/// The persistent store: download records, cookies, and settings.
pub struct StoreState {
    pub data_dir: String,
    pub next_id: i64,
    pub downloads: Vec<DownloadRecord>,
    pub cookies: Vec<CookieRecord>,
    pub settings: Vec<SettingEntry>,
}

impl StoreState {
    /// The models of the download records, in store order.
    pub open spec fn tasks(&self) -> Seq<RecordModel> {
        self.downloads@.map_values(|r: DownloadRecord| r@)
    }

    /// The models of the cookies, in store order.
    pub open spec fn cookie_models(&self) -> Seq<CookieModel> {
        self.cookies@.map_values(|c: CookieRecord| c@)
    }

    /// Whether a download record with this video id exists.
    pub open spec fn has_task(&self, video_id: Seq<char>) -> bool {
        exists|i: int| 0 <= i < self.tasks().len() && #[trigger] self.tasks()[i].video_id == video_id
    }

    /// Whether a setting with this key exists.
    pub open spec fn has_setting(&self, key: Seq<char>) -> bool {
        exists|i: int|
            0 <= i < self.settings@.len() && #[trigger] self.settings@[i].key@ == key
    }

    /// The value of a setting, if one is stored under the key.
    pub open spec fn setting_value(&self, key: Seq<char>) -> Option<Seq<char>> {
        if self.has_setting(key) {
            Some(
                self.settings@[choose|i: int|
                    0 <= i < self.settings@.len() && #[trigger] self.settings@[i].key@
                        == key].value@,
            )
        } else {
            None
        }
    }

    /// The index of the record with this video id (meaningful only when
    /// `has_task` holds).
    pub open spec fn task_index_of(&self, video_id: Seq<char>) -> int {
        choose|i: int|
            0 <= i < self.tasks().len() && #[trigger] self.tasks()[i].video_id == video_id
    }

    /// The model of the record with this video id (meaningful only when
    /// `has_task` holds).
    pub open spec fn task_model(&self, video_id: Seq<char>) -> RecordModel {
        self.tasks()[self.task_index_of(video_id)]
    }

    /// Well-formedness: video ids, cookie keys and setting keys are unique,
    /// and every record satisfies its own invariant.
    pub open spec fn wf(&self) -> bool {
        &&& forall|i: int, j: int|
            0 <= i < j < self.tasks().len() ==> #[trigger] self.tasks()[i].video_id
                != #[trigger] self.tasks()[j].video_id
        &&& forall|i: int| 0 <= i < self.tasks().len() ==> record_wf(#[trigger] self.tasks()[i])
        &&& forall|i: int, j: int|
            0 <= i < j < self.cookie_models().len() ==> !cookie_same_key(
                #[trigger] self.cookie_models()[i],
                #[trigger] self.cookie_models()[j],
            )
        &&& forall|i: int, j: int|
            0 <= i < j < self.settings@.len() ==> #[trigger] self.settings@[i].key@
                != #[trigger] self.settings@[j].key@
        &&& 0 <= self.next_id
    }

    /// An empty store rooted at a data directory.
    pub fn new(data_dir: String) -> (r: StoreState)
        ensures
            r.wf(),
            r.tasks().len() == 0,
            r.cookie_models().len() == 0,
            r.settings@.len() == 0,
            r.data_dir@ == data_dir@,
            r.next_id == 1,
    {
        StoreState {
            data_dir,
            next_id: 1,
            downloads: Vec::new(),
            cookies: Vec::new(),
            settings: Vec::new(),
        }
    }

    /// The application data directory the store was rooted at.
    pub fn get_data_dir(&self) -> (r: String)
        ensures
            r@ == self.data_dir@,
    {
        self.data_dir.clone()
    }
}

/// A cookie list after an insert-or-replace: the cookie with the same key
/// is replaced, or the new cookie is appended.
pub open spec fn spec_upsert_cookie(s: Seq<CookieModel>, c: CookieModel) -> Seq<CookieModel> {
    if exists|k: int| 0 <= k < s.len() && cookie_same_key(#[trigger] s[k], c) {
        s.update(choose|k: int| 0 <= k < s.len() && cookie_same_key(#[trigger] s[k], c), c)
    } else {
        s.push(c)
    }
}

/// The model of a stored cookie built from plain values.
pub open spec fn spec_cookie(
    domain: Seq<char>,
    name: Seq<char>,
    value: Seq<char>,
    path: Seq<char>,
    expires: Option<int>,
) -> CookieModel {
    CookieModel { domain: domain, name: name, value: value, path: path, expires: expires }
}

/// A cookie is returned by lookups only while it has not expired.
pub open spec fn cookie_live(c: CookieModel, now: int) -> bool {
    match c.expires {
        None => true,
        Some(t) => t > now,
    }
}

/// The (name, value) pairs of the live cookies for a domain, in store order.
pub open spec fn cookies_for(models: Seq<CookieModel>, domain: Seq<char>, now: int) -> Seq<
    (Seq<char>, Seq<char>),
>
    decreases models.len(),
{
    if models.len() == 0 {
        Seq::empty()
    } else {
        let rest = cookies_for(models.drop_last(), domain, now);
        let c = models.last();
        if c.domain == domain && cookie_live(c, now) {
            rest.push((c.name, c.value))
        } else {
            rest
        }
    }
}

/// The model of a freshly inserted record: queued, nothing transferred yet.
pub open spec fn spec_new_record(
    id: int,
    video_id: Seq<char>,
    title: Seq<char>,
    cover_url: Seq<char>,
    video_url: Seq<char>,
    quality: Seq<char>,
    now: int,
) -> RecordModel {
    RecordModel {
        id: id,
        video_id: video_id,
        title: title,
        cover_url: cover_url,
        video_url: video_url,
        quality: Some(quality),
        save_path: None,
        total_bytes: 0,
        downloaded_bytes: 0,
        status: DownloadStatus::Queued,
        error_message: None,
        created_at: now,
        completed_at: None,
    }
}

/// A record after a status change: the completion time is kept exactly when
/// the new status is Completed, an error text exactly when it is Failed, and
/// completion aligns the received bytes with the declared total.
pub open spec fn spec_with_status(
    m: RecordModel,
    status: DownloadStatus,
    error: Option<Seq<char>>,
    now: int,
) -> RecordModel {
    RecordModel {
        status: status,
        error_message: if status is Failed {
            error
        } else {
            None
        },
        completed_at: if status is Completed {
            Some(now)
        } else {
            None
        },
        downloaded_bytes: if status is Completed && m.total_bytes > 0 {
            m.total_bytes
        } else {
            m.downloaded_bytes
        },
        ..m
    }
}

/// A record after a progress update: the byte counters move and the task is
/// downloading again.
pub open spec fn spec_with_progress(m: RecordModel, downloaded: int, total: int) -> RecordModel {
    RecordModel {
        downloaded_bytes: downloaded,
        total_bytes: total,
        status: DownloadStatus::Downloading,
        error_message: None,
        completed_at: None,
        ..m
    }
}

/// A record after its save path was set.
pub open spec fn spec_with_save_path(m: RecordModel, save_path: Seq<char>) -> RecordModel {
    RecordModel { save_path: Some(save_path), ..m }
}

/// A record after the startup sweep: a task left Downloading is demoted to
/// Queued, all others are untouched.
pub open spec fn spec_reset_running(m: RecordModel) -> RecordModel {
    if m.status is Downloading {
        RecordModel { status: DownloadStatus::Queued, ..m }
    } else {
        m
    }
}

/// Records ordered newest first: no older record stands before a newer one.
pub open spec fn sorted_by_created_desc(s: Seq<DownloadRecord>) -> bool {
    forall|i: int, j: int|
        0 <= i < j < s.len() ==> #[trigger] s[i].created_at >= #[trigger] s[j].created_at
}

/// Where a record lands in a newest-first list: after every record at least
/// as new, before the first strictly older one.
pub open spec fn insert_position(s: Seq<DownloadRecord>, r: DownloadRecord) -> int
    decreases s.len(),
{
    if s.len() > 0 && s[0].created_at >= r.created_at {
        1 + insert_position(s.drop_first(), r)
    } else {
        0
    }
}

/// A record placed into a newest-first list at its position.
pub open spec fn insert_by_created(s: Seq<DownloadRecord>, r: DownloadRecord) -> Seq<
    DownloadRecord,
>
    decreases s.len(),
{
    if s.len() > 0 && s[0].created_at >= r.created_at {
        seq![s[0]] + insert_by_created(s.drop_first(), r)
    } else {
        seq![r] + s
    }
}

/// The records sorted newest first; records sharing a creation time keep
/// their store order.
pub open spec fn sort_by_created_desc(s: Seq<DownloadRecord>) -> Seq<DownloadRecord>
    decreases s.len(),
{
    if s.len() == 0 {
        Seq::empty()
    } else {
        insert_by_created(sort_by_created_desc(s.drop_last()), s.last())
    }
}

proof fn lemma_insert_position_props(s: Seq<DownloadRecord>, r: DownloadRecord)
    ensures
        0 <= insert_position(s, r) <= s.len(),
        forall|k: int|
            0 <= k < insert_position(s, r) ==> #[trigger] s[k].created_at >= r.created_at,
        insert_position(s, r) < s.len() ==> s[insert_position(s, r)].created_at < r.created_at,
    decreases s.len(),
{
    if s.len() > 0 && s[0].created_at >= r.created_at {
        lemma_insert_position_props(s.drop_first(), r);
        assert forall|k: int|
            0 <= k < insert_position(s, r) implies #[trigger] s[k].created_at >= r.created_at by {
            if k > 0 {
                assert(s.drop_first()[k - 1] == s[k]);
            }
        }
        if insert_position(s, r) < s.len() {
            assert(s.drop_first()[insert_position(s.drop_first(), r)] == s[insert_position(s, r)]);
        }
    }
}

proof fn lemma_insert_by_created_shape(s: Seq<DownloadRecord>, r: DownloadRecord)
    ensures
        insert_by_created(s, r) == s.insert(insert_position(s, r), r),
    decreases s.len(),
{
    lemma_insert_position_props(s, r);
    if s.len() > 0 && s[0].created_at >= r.created_at {
        lemma_insert_by_created_shape(s.drop_first(), r);
        let q = insert_position(s.drop_first(), r);
        assert(seq![s[0]] + s.drop_first().insert(q, r) =~= s.insert(q + 1, r));
    } else {
        assert(seq![r] + s =~= s.insert(0, r));
    }
}

proof fn lemma_insert_by_created_facts(s: Seq<DownloadRecord>, r: DownloadRecord)
    requires
        sorted_by_created_desc(s),
    ensures
        insert_by_created(s, r).len() == s.len() + 1,
        sorted_by_created_desc(insert_by_created(s, r)),
        insert_by_created(s, r).to_multiset() == s.to_multiset().insert(r),
        forall|k: int|
            0 <= k < insert_by_created(s, r).len() ==> insert_by_created(s, r)[k] == r
                || s.contains(#[trigger] insert_by_created(s, r)[k]),
{
    broadcast use vstd::seq_lib::group_to_multiset_ensures;

    let p = insert_position(s, r);
    let ins = insert_by_created(s, r);
    lemma_insert_position_props(s, r);
    lemma_insert_by_created_shape(s, r);
    s.insert_ensures(p, r);
    assert forall|i: int, j: int|
        0 <= i < j < ins.len() implies #[trigger] ins[i].created_at
        >= #[trigger] ins[j].created_at by {
        if i < p {
            assert(ins[i] == s[i]);
        } else if i == p {
            assert(ins[i] == r);
        } else {
            assert(ins[i] == s[i - 1]);
        }
        if j < p {
            assert(ins[j] == s[j]);
        } else if j == p {
            assert(ins[j] == r);
        } else {
            assert(ins[j] == s[j - 1]);
        }
    }
    assert forall|k: int| 0 <= k < ins.len() implies ins[k] == r || s.contains(
        #[trigger] ins[k],
    ) by {
        if k < p {
            assert(ins[k] == s[k]);
        } else if k > p {
            assert(ins[k] == s[k - 1]);
        }
    }
}

/// What the newest-first listing holds: as many records as the store, each
/// stored record exactly once (the multisets agree), ordered by creation
/// time descending, every element one of the stored records.
pub proof fn lemma_sort_by_created_facts(s: Seq<DownloadRecord>)
    ensures
        sort_by_created_desc(s).len() == s.len(),
        sorted_by_created_desc(sort_by_created_desc(s)),
        sort_by_created_desc(s).to_multiset() == s.to_multiset(),
        forall|k: int|
            0 <= k < s.len() ==> s.contains(#[trigger] sort_by_created_desc(s)[k]),
    decreases s.len(),
{
    broadcast use vstd::seq_lib::group_to_multiset_ensures;
    broadcast use vstd::multiset::group_multiset_axioms;

    if s.len() == 0 {
        vstd::multiset::lemma_multiset_empty_len(s.to_multiset());
        vstd::multiset::lemma_multiset_empty_len(sort_by_created_desc(s).to_multiset());
    } else {
        let d = s.drop_last();
        let sorted_d = sort_by_created_desc(d);
        lemma_sort_by_created_facts(d);
        lemma_insert_by_created_facts(sorted_d, s.last());
        assert(s =~= d.push(s.last()));
        assert(d.push(s.last()).to_multiset() == d.to_multiset().insert(s.last()));
        assert forall|k: int| 0 <= k < s.len() implies s.contains(
            #[trigger] sort_by_created_desc(s)[k],
        ) by {
            let x = sort_by_created_desc(s)[k];
            if x == s.last() {
                assert(s[s.len() - 1] == x);
            } else {
                assert(sorted_d.contains(x));
                let m = choose|m: int| 0 <= m < sorted_d.len() && sorted_d[m] == x;
                assert(d.contains(sorted_d[m]));
                let j = choose|j: int| 0 <= j < d.len() && d[j] == x;
                assert(s[j] == x);
            }
        }
    }
}

impl StoreState {
    /// Index of the record with this video id, if one exists.
    fn find_task_index(&self, video_id: &str) -> (r: Option<usize>)
        ensures
            match r {
                Some(i) => i < self.tasks().len() && self.tasks()[i as int].video_id == video_id@,
                None => !self.has_task(video_id@),
            },
    {
        let mut i: usize = 0;
        while i < self.downloads.len()
            invariant
                i <= self.downloads@.len(),
                forall|k: int| 0 <= k < i ==> #[trigger] self.tasks()[k].video_id != video_id@,
            decreases self.downloads@.len() - i,
        {
            if str_eq(self.downloads[i].video_id.as_str(), video_id) {
                return Some(i);
            }
            i = i + 1;
        }
        None
    }

    /// Inserts a new record for the video id unless one already exists, as
    /// an insert-or-ignore. Returns whether a record was inserted.
    pub fn add_download(
        &mut self,
        video_id: &str,
        title: &str,
        cover_url: &str,
        video_url: &str,
        quality: &str,
        now: i64,
    ) -> (inserted: bool)
        requires
            old(self).wf(),
            old(self).next_id < i64::MAX,
        ensures
            final(self).wf(),
            inserted == !old(self).has_task(video_id@),
            old(self).has_task(video_id@) ==> *final(self) == *old(self),
            !old(self).has_task(video_id@) ==> {
                &&& final(self).downloads@ == old(self).downloads@.push(
                    final(self).downloads@.last(),
                )
                &&& final(self).tasks() == old(self).tasks().push(
                    spec_new_record(
                        old(self).next_id as int,
                        video_id@,
                        title@,
                        cover_url@,
                        video_url@,
                        quality@,
                        now as int,
                    ),
                )
                &&& final(self).next_id == old(self).next_id + 1
            },
            final(self).cookies == old(self).cookies,
            final(self).settings == old(self).settings,
            final(self).data_dir == old(self).data_dir,
            final(self).has_task(video_id@),
    {
        if let Some(i) = self.find_task_index(video_id) {
            return false;
        }
        let rec = DownloadRecord {
            id: self.next_id,
            video_id: video_id.to_owned(),
            title: title.to_owned(),
            cover_url: cover_url.to_owned(),
            video_url: video_url.to_owned(),
            quality: Some(quality.to_owned()),
            save_path: None,
            total_bytes: 0,
            downloaded_bytes: 0,
            status: DownloadStatus::Queued,
            error_message: None,
            created_at: now,
            completed_at: None,
        };
        self.next_id = self.next_id + 1;
        self.downloads.push(rec);
        proof {
            assert(self.tasks() =~= old(self).tasks().push(self.downloads@.last()@));
            assert(forall|k: int|
                0 <= k < old(self).tasks().len() ==> #[trigger] self.tasks()[k] == old(
                    self,
                ).tasks()[k]);
            assert(self.tasks()[self.tasks().len() - 1].video_id == video_id@);
            assert(self.cookie_models() =~= old(self).cookie_models());
        }
        true
    }

    /// The record stored under the video id, if any.
    pub fn get_download_by_video_id(&self, video_id: &str) -> (r: Option<DownloadRecord>)
        ensures
            r is Some <==> self.has_task(video_id@),
            match r {
                Some(rec) => rec@.video_id == video_id@ && exists|i: int|
                    0 <= i < self.tasks().len() && #[trigger] self.tasks()[i] == rec@,
                None => true,
            },
    {
        match self.find_task_index(video_id) {
            Some(i) => {
                let rec = self.downloads[i].duplicate();
                proof {
                    assert(self.tasks()[i as int] == rec@);
                }
                Some(rec)
            },
            None => None,
        }
    }

    /// Copies of the download records in store order, for the internal
    /// sweeps that walk and update every record.
    pub(crate) fn store_order_records(&self) -> (r: Vec<DownloadRecord>)
        ensures
            r@.len() == self.downloads@.len(),
            forall|i: int| 0 <= i < r@.len() ==> #[trigger] r@[i] == self.downloads@[i],
    {
        let mut r: Vec<DownloadRecord> = Vec::new();
        let mut i: usize = 0;
        while i < self.downloads.len()
            invariant
                i <= self.downloads@.len(),
                r@.len() == i,
                forall|k: int| 0 <= k < i ==> #[trigger] r@[k] == self.downloads@[k],
            decreases self.downloads@.len() - i,
        {
            r.push(self.downloads[i].duplicate());
            i = i + 1;
        }
        r
    }

    /// Copies of all download records, newest first: every record exactly
    /// once, ordered by creation time descending.
    pub fn get_downloads(&self) -> (r: Vec<DownloadRecord>)
        ensures
            r@ == sort_by_created_desc(self.downloads@),
            r@.len() == self.downloads@.len(),
            sorted_by_created_desc(r@),
            r@.to_multiset() == self.downloads@.to_multiset(),
            forall|k: int|
                0 <= k < r@.len() ==> self.downloads@.contains(#[trigger] r@[k]),
    {
        let ghost all = self.downloads@;
        let mut r: Vec<DownloadRecord> = Vec::new();
        let mut i: usize = 0;
        while i < self.downloads.len()
            invariant
                i <= all.len(),
                all == self.downloads@,
                r@ == sort_by_created_desc(all.take(i as int)),
                r@.len() == i,
            decreases all.len() - i,
        {
            let rec = self.downloads[i].duplicate();
            proof {
                lemma_sort_by_created_facts(all.take(i as int));
            }
            let mut p: usize = 0;
            while p < r.len() && r[p].created_at >= rec.created_at
                invariant
                    p <= r@.len(),
                    forall|k: int| 0 <= k < p ==> #[trigger] r@[k].created_at >= rec.created_at,
                decreases r@.len() - p,
            {
                p = p + 1;
            }
            proof {
                lemma_insert_position_props(r@, rec);
                lemma_insert_by_created_shape(r@, rec);
                assert(p as int == insert_position(r@, rec)) by {
                    let q = insert_position(r@, rec);
                    if p < q {
                        assert(r@[p as int].created_at >= rec.created_at);
                    } else if q < p {
                        assert(r@[q].created_at >= rec.created_at);
                    }
                }
                assert(all.take(i + 1).drop_last() =~= all.take(i as int));
                assert(all.take(i + 1).last() == all[i as int]);
            }
            r.insert(p, rec);
            i = i + 1;
        }
        proof {
            assert(all.take(i as int) =~= all);
            lemma_sort_by_created_facts(all);
        }
        r
    }

    /// Sets the save path of the record with this video id; a missing id is
    /// a no-op. A stored path is never empty.
    pub fn update_download_save_path(&mut self, video_id: &str, save_path: &str)
        requires
            old(self).wf(),
            save_path@.len() > 0,
        ensures
            final(self).wf(),
            final(self).tasks().len() == old(self).tasks().len(),
            forall|i: int|
                0 <= i < old(self).tasks().len() ==> #[trigger] final(self).tasks()[i] == (
                if old(self).tasks()[i].video_id == video_id@ {
                    spec_with_save_path(old(self).tasks()[i], save_path@)
                } else {
                    old(self).tasks()[i]
                }),
            final(self).cookies == old(self).cookies,
            final(self).settings == old(self).settings,
            final(self).data_dir == old(self).data_dir,
            final(self).next_id == old(self).next_id,
    {
        if let Some(i) = self.find_task_index(video_id) {
            let cur = self.downloads[i].duplicate();
            self.downloads[i] = DownloadRecord { save_path: Some(save_path.to_owned()), ..cur };
            proof {
                assert(forall|k: int|
                    0 <= k < self.tasks().len() && k != i ==> #[trigger] self.tasks()[k] == old(
                        self,
                    ).tasks()[k]);
                assert(self.tasks()[i as int] == spec_with_save_path(
                    old(self).tasks()[i as int],
                    save_path@,
                ));
                assert(self.cookie_models() =~= old(self).cookie_models());
            }
        } else {
            proof {
                assert(self.cookie_models() =~= old(self).cookie_models());
            }
        }
    }

    /// Records transfer progress: byte counters move and the task is
    /// marked Downloading; a missing id is a no-op.
    pub fn update_download_progress(&mut self, video_id: &str, downloaded: i64, total: i64)
        requires
            old(self).wf(),
            downloaded >= 0,
            total >= 0,
        ensures
            final(self).wf(),
            final(self).tasks().len() == old(self).tasks().len(),
            forall|i: int|
                0 <= i < old(self).tasks().len() ==> #[trigger] final(self).tasks()[i] == (
                if old(self).tasks()[i].video_id == video_id@ {
                    spec_with_progress(old(self).tasks()[i], downloaded as int, total as int)
                } else {
                    old(self).tasks()[i]
                }),
            final(self).cookies == old(self).cookies,
            final(self).settings == old(self).settings,
            final(self).data_dir == old(self).data_dir,
            final(self).next_id == old(self).next_id,
    {
        if let Some(i) = self.find_task_index(video_id) {
            let cur = self.downloads[i].duplicate();
            self.downloads[i] = DownloadRecord {
                downloaded_bytes: downloaded,
                total_bytes: total,
                status: DownloadStatus::Downloading,
                error_message: None,
                completed_at: None,
                ..cur
            };
            proof {
                assert(forall|k: int|
                    0 <= k < self.tasks().len() && k != i ==> #[trigger] self.tasks()[k] == old(
                        self,
                    ).tasks()[k]);
                assert(self.tasks()[i as int] == spec_with_progress(
                    old(self).tasks()[i as int],
                    downloaded as int,
                    total as int,
                ));
                assert(self.cookie_models() =~= old(self).cookie_models());
            }
        } else {
            proof {
                assert(self.cookie_models() =~= old(self).cookie_models());
            }
        }
    }

    /// Sets the status of the record with this video id, keeping the
    /// completion time exactly on Completed and the error text exactly on
    /// Failed; a missing id is a no-op.
    pub fn update_download_status(
        &mut self,
        video_id: &str,
        status: DownloadStatus,
        error: Option<&str>,
        now: i64,
    )
        requires
            old(self).wf(),
        ensures
            final(self).wf(),
            final(self).tasks().len() == old(self).tasks().len(),
            forall|i: int|
                0 <= i < old(self).tasks().len() ==> #[trigger] final(self).tasks()[i] == (
                if old(self).tasks()[i].video_id == video_id@ {
                    spec_with_status(
                        old(self).tasks()[i],
                        status,
                        match error {
                            Some(e) => Some(e@),
                            None => None,
                        },
                        now as int,
                    )
                } else {
                    old(self).tasks()[i]
                }),
            final(self).cookies == old(self).cookies,
            final(self).settings == old(self).settings,
            final(self).data_dir == old(self).data_dir,
            final(self).next_id == old(self).next_id,
    {
        if let Some(i) = self.find_task_index(video_id) {
            let cur = self.downloads[i].duplicate();
            let new_error: Option<String> = if matches!(status, DownloadStatus::Failed) {
                match error {
                    Some(e) => Some(e.to_owned()),
                    None => None,
                }
            } else {
                None
            };
            let new_completed: Option<i64> = if matches!(status, DownloadStatus::Completed) {
                Some(now)
            } else {
                None
            };
            let new_downloaded: i64 = if matches!(status, DownloadStatus::Completed)
                && cur.total_bytes > 0 {
                cur.total_bytes
            } else {
                cur.downloaded_bytes
            };
            self.downloads[i] = DownloadRecord {
                status,
                error_message: new_error,
                completed_at: new_completed,
                downloaded_bytes: new_downloaded,
                ..cur
            };
            proof {
                assert(forall|k: int|
                    0 <= k < self.tasks().len() && k != i ==> #[trigger] self.tasks()[k] == old(
                        self,
                    ).tasks()[k]);
                assert(self.tasks()[i as int] == spec_with_status(
                    old(self).tasks()[i as int],
                    status,
                    match error {
                        Some(e) => Some(e@),
                        None => None,
                    },
                    now as int,
                ));
                assert(self.cookie_models() =~= old(self).cookie_models());
            }
        } else {
            proof {
                assert(self.cookie_models() =~= old(self).cookie_models());
            }
        }
    }

    /// The startup sweep's first half: every record left Downloading is
    /// demoted to Queued.
    pub fn reset_running_downloads(&mut self)
        requires
            old(self).wf(),
        ensures
            final(self).wf(),
            final(self).tasks().len() == old(self).tasks().len(),
            forall|i: int|
                0 <= i < old(self).tasks().len() ==> #[trigger] final(self).tasks()[i]
                    == spec_reset_running(old(self).tasks()[i]),
            final(self).cookies == old(self).cookies,
            final(self).settings == old(self).settings,
            final(self).data_dir == old(self).data_dir,
            final(self).next_id == old(self).next_id,
    {
        let mut i: usize = 0;
        while i < self.downloads.len()
            invariant
                i <= self.downloads@.len(),
                self.downloads@.len() == old(self).downloads@.len(),
                forall|k: int|
                    0 <= k < i ==> #[trigger] self.tasks()[k] == spec_reset_running(
                        old(self).tasks()[k],
                    ),
                forall|k: int|
                    i <= k < self.downloads@.len() ==> #[trigger] self.downloads@[k] == old(
                        self,
                    ).downloads@[k],
                self.cookies == old(self).cookies,
                self.settings == old(self).settings,
                self.data_dir == old(self).data_dir,
                self.next_id == old(self).next_id,
            decreases self.downloads@.len() - i,
        {
            let ghost pre = *self;
            if matches!(self.downloads[i].status, DownloadStatus::Downloading) {
                let cur = self.downloads[i].duplicate();
                self.downloads[i] = DownloadRecord { status: DownloadStatus::Queued, ..cur };
            }
            proof {
                assert(self.tasks()[i as int] == spec_reset_running(old(self).tasks()[i as int]));
                assert forall|k: int|
                    0 <= k < i implies #[trigger] self.tasks()[k] == spec_reset_running(
                    old(self).tasks()[k],
                ) by {
                    assert(self.downloads@[k] == pre.downloads@[k]);
                    assert(pre.tasks()[k] == spec_reset_running(old(self).tasks()[k]));
                }
            }
            i = i + 1;
        }
        proof {
            assert(forall|i: int, j: int|
                0 <= i < j < self.tasks().len() ==> #[trigger] self.tasks()[i].video_id
                    != #[trigger] self.tasks()[j].video_id);
            assert(self.cookie_models() =~= old(self).cookie_models());
        }
    }

    /// Removes the record with this video id, if one exists. Returns
    /// whether a record was removed.
    pub fn delete_download(&mut self, video_id: &str) -> (removed: bool)
        requires
            old(self).wf(),
        ensures
            final(self).wf(),
            removed == old(self).has_task(video_id@),
            !old(self).has_task(video_id@) ==> *final(self) == *old(self),
            old(self).has_task(video_id@) ==> exists|j: int|
                0 <= j < old(self).tasks().len() && #[trigger] old(self).tasks()[j].video_id
                    == video_id@ && final(self).downloads@ == old(self).downloads@.remove(j),
            !final(self).has_task(video_id@),
            final(self).cookies == old(self).cookies,
            final(self).settings == old(self).settings,
            final(self).data_dir == old(self).data_dir,
            final(self).next_id == old(self).next_id,
    {
        match self.find_task_index(video_id) {
            Some(i) => {
                self.downloads.remove(i);
                proof {
                    assert(self.tasks() =~= old(self).tasks().remove(i as int));
                    assert forall|k: int|
                        0 <= k < self.tasks().len() implies #[trigger] self.tasks()[k].video_id
                        != video_id@ by {
                        if k < i {
                            assert(self.tasks()[k] == old(self).tasks()[k]);
                        } else {
                            assert(self.tasks()[k] == old(self).tasks()[k + 1]);
                        }
                    }
                    assert(self.cookie_models() =~= old(self).cookie_models());
                }
                true
            },
            None => false,
        }
    }
}

impl StoreState {
    /// Index of the cookie with this (domain, name, path) key, if any.
    fn find_cookie_index(&self, domain: &str, name: &str, path: &str) -> (r: Option<usize>)
        ensures
            match r {
                Some(i) => i < self.cookie_models().len() && cookie_same_key(
                    self.cookie_models()[i as int],
                    spec_cookie(domain@, name@, Seq::empty(), path@, None),
                ),
                None => forall|k: int|
                    0 <= k < self.cookie_models().len() ==> !cookie_same_key(
                        #[trigger] self.cookie_models()[k],
                        spec_cookie(domain@, name@, Seq::empty(), path@, None),
                    ),
            },
    {
        let mut i: usize = 0;
        while i < self.cookies.len()
            invariant
                i <= self.cookies@.len(),
                forall|k: int|
                    0 <= k < i ==> !cookie_same_key(
                        #[trigger] self.cookie_models()[k],
                        spec_cookie(domain@, name@, Seq::empty(), path@, None),
                    ),
            decreases self.cookies@.len() - i,
        {
            if str_eq(self.cookies[i].domain.as_str(), domain) && str_eq(
                self.cookies[i].name.as_str(),
                name,
            ) && str_eq(self.cookies[i].path.as_str(), path) {
                return Some(i);
            }
            i = i + 1;
        }
        None
    }

    /// Stores a cookie, replacing any cookie with the same
    /// (domain, name, path) key, as an insert-or-replace.
    pub fn save_cookie(
        &mut self,
        domain: &str,
        name: &str,
        value: &str,
        path: &str,
        expires: Option<i64>,
    )
        requires
            old(self).wf(),
        ensures
            final(self).wf(),
            ({
                let newc = spec_cookie(
                    domain@,
                    name@,
                    value@,
                    path@,
                    match expires {
                        Some(t) => Some(t as int),
                        None => None,
                    },
                );
                let om = old(self).cookie_models();
                let fm = final(self).cookie_models();
                if exists|k: int|
                    0 <= k < om.len() && cookie_same_key(#[trigger] om[k], newc) {
                    &&& fm.len() == om.len()
                    &&& forall|k: int|
                        0 <= k < om.len() ==> #[trigger] fm[k] == (if cookie_same_key(
                            om[k],
                            newc,
                        ) {
                            newc
                        } else {
                            om[k]
                        })
                } else {
                    fm == om.push(newc)
                }
            }),
            final(self).cookie_models() == spec_upsert_cookie(
                old(self).cookie_models(),
                spec_cookie(
                    domain@,
                    name@,
                    value@,
                    path@,
                    match expires {
                        Some(t) => Some(t as int),
                        None => None,
                    },
                ),
            ),
            final(self).downloads == old(self).downloads,
            final(self).settings == old(self).settings,
            final(self).data_dir == old(self).data_dir,
            final(self).next_id == old(self).next_id,
    {
        let rec = CookieRecord {
            domain: domain.to_owned(),
            name: name.to_owned(),
            value: value.to_owned(),
            path: path.to_owned(),
            expires,
        };
        let ghost newc = rec@;
        match self.find_cookie_index(domain, name, path) {
            Some(i) => {
                self.cookies[i] = rec;
                proof {
                    assert(forall|k: int|
                        0 <= k < self.cookie_models().len() && k != i
                            ==> #[trigger] self.cookie_models()[k] == old(self).cookie_models()[k]);
                    assert(self.cookie_models()[i as int] == newc);
                    assert(self.tasks() =~= old(self).tasks());
                    let om = old(self).cookie_models();
                    assert(cookie_same_key(om[i as int], newc));
                    let kc = choose|k: int|
                        0 <= k < om.len() && cookie_same_key(#[trigger] om[k], newc);
                    if kc != i {
                        assert(!cookie_same_key(om[if kc < i {
                            kc
                        } else {
                            i as int
                        }], om[if kc < i {
                            i as int
                        } else {
                            kc
                        }]));
                    }
                    assert(self.cookie_models() =~= om.update(i as int, newc));
                }
            },
            None => {
                self.cookies.push(rec);
                proof {
                    assert(self.cookie_models() =~= old(self).cookie_models().push(
                        self.cookies@.last()@,
                    ));
                    assert(forall|k: int|
                        0 <= k < old(self).cookie_models().len() ==> #[trigger] self.cookie_models()[k]
                            == old(self).cookie_models()[k]);
                    assert(self.tasks() =~= old(self).tasks());
                    let om = old(self).cookie_models();
                    assert forall|k: int| 0 <= k < om.len() implies !cookie_same_key(
                        #[trigger] om[k],
                        newc,
                    ) by {
                        assert(!cookie_same_key(om[k], spec_cookie(domain@, name@, path@, path@,
                            None)));
                    }
                }
            },
        }
    }

    /// The (name, value) pairs of the live cookies for a domain: a cookie
    /// with a past expiry is filtered out, not deleted.
    pub fn get_cookies(&self, domain: &str, now: i64) -> (r: Vec<(String, String)>)
        ensures
            ({
                let spec = cookies_for(self.cookie_models(), domain@, now as int);
                &&& r@.len() == spec.len()
                &&& forall|k: int|
                    0 <= k < spec.len() ==> (#[trigger] r@[k]).0@ == spec[k].0 && r@[k].1@
                        == spec[k].1
            }),
    {
        let ghost models = self.cookie_models();
        let mut r: Vec<(String, String)> = Vec::new();
        let mut i: usize = 0;
        while i < self.cookies.len()
            invariant
                i <= self.cookies@.len(),
                models == self.cookie_models(),
                ({
                    let spec = cookies_for(models.take(i as int), domain@, now as int);
                    &&& r@.len() == spec.len()
                    &&& forall|k: int|
                        0 <= k < spec.len() ==> (#[trigger] r@[k]).0@ == spec[k].0 && r@[k].1@
                            == spec[k].1
                }),
            decreases self.cookies@.len() - i,
        {
            proof {
                assert(models.take(i + 1).drop_last() =~= models.take(i as int));
                assert(models.take(i + 1).last() == models[i as int]);
            }
            let c = &self.cookies[i];
            let live = match c.expires {
                None => true,
                Some(t) => t > now,
            };
            if str_eq(c.domain.as_str(), domain) && live {
                r.push((c.name.clone(), c.value.clone()));
            }
            i = i + 1;
        }
        proof {
            assert(models.take(i as int) =~= models);
        }
        r
    }

    /// Removes every stored cookie.
    pub fn clear_cookies(&mut self)
        requires
            old(self).wf(),
        ensures
            final(self).wf(),
            final(self).cookie_models().len() == 0,
            final(self).downloads == old(self).downloads,
            final(self).settings == old(self).settings,
            final(self).data_dir == old(self).data_dir,
            final(self).next_id == old(self).next_id,
    {
        self.cookies.clear();
        proof {
            assert(self.tasks() =~= old(self).tasks());
        }
    }

    /// Index of the setting with this key, if any.
    fn find_setting_index(&self, key: &str) -> (r: Option<usize>)
        ensures
            match r {
                Some(i) => i < self.settings@.len() && self.settings@[i as int].key@ == key@,
                None => !self.has_setting(key@),
            },
    {
        let mut i: usize = 0;
        while i < self.settings.len()
            invariant
                i <= self.settings@.len(),
                forall|k: int| 0 <= k < i ==> #[trigger] self.settings@[k].key@ != key@,
            decreases self.settings@.len() - i,
        {
            if str_eq(self.settings[i].key.as_str(), key) {
                return Some(i);
            }
            i = i + 1;
        }
        None
    }

    /// Stores a setting, replacing any value under the same key.
    pub fn save_setting(&mut self, key: &str, value: &str)
        requires
            old(self).wf(),
        ensures
            final(self).wf(),
            final(self).setting_value(key@) == Some(value@),
            forall|k: Seq<char>|
                k != key@ ==> #[trigger] final(self).setting_value(k) == old(self).setting_value(k),
            final(self).downloads == old(self).downloads,
            final(self).cookies == old(self).cookies,
            final(self).data_dir == old(self).data_dir,
            final(self).next_id == old(self).next_id,
    {
        let entry = SettingEntry { key: key.to_owned(), value: value.to_owned() };
        match self.find_setting_index(key) {
            Some(i) => {
                self.settings[i] = entry;
                proof {
                    assert(forall|k: int|
                        0 <= k < self.settings@.len() && k != i ==> #[trigger] self.settings@[k]
                            == old(self).settings@[k]);
                    assert(self.tasks() =~= old(self).tasks());
                    assert(self.cookie_models() =~= old(self).cookie_models());
                    lemma_setting_lookup(*self, key@, i as int);
                    assert forall|k: Seq<char>| k != key@ implies #[trigger] self.setting_value(k)
                        == old(self).setting_value(k) by {
                        lemma_setting_lookup_agrees(*old(self), *self, k);
                    }
                }
            },
            None => {
                self.settings.push(entry);
                proof {
                    assert(forall|k: int|
                        0 <= k < old(self).settings@.len() ==> #[trigger] self.settings@[k] == old(
                            self,
                        ).settings@[k]);
                    assert(self.tasks() =~= old(self).tasks());
                    assert(self.cookie_models() =~= old(self).cookie_models());
                    lemma_setting_lookup(*self, key@, self.settings@.len() - 1);
                    assert forall|k: Seq<char>| k != key@ implies #[trigger] self.setting_value(k)
                        == old(self).setting_value(k) by {
                        lemma_setting_lookup_agrees(*old(self), *self, k);
                    }
                }
            },
        }
    }

    /// The value stored under a key, if any.
    pub fn get_setting(&self, key: &str) -> (r: Option<String>)
        requires
            self.wf(),
        ensures
            crate::task::opt_view(r) == self.setting_value(key@),
    {
        match self.find_setting_index(key) {
            Some(i) => {
                proof {
                    lemma_setting_lookup(*self, key@, i as int);
                }
                Some(self.settings[i].value.clone())
            },
            None => None,
        }
    }
}

/// In a well-formed store, the record holding a video id at index `i` is
/// the record the id looks up to.
pub proof fn lemma_task_model(s: StoreState, video_id: Seq<char>, i: int)
    requires
        s.wf(),
        0 <= i < s.tasks().len(),
        s.tasks()[i].video_id == video_id,
    ensures
        s.has_task(video_id),
        s.task_index_of(video_id) == i,
        s.task_model(video_id) == s.tasks()[i],
{
    assert(s.has_task(video_id));
    let j = s.task_index_of(video_id);
    if i < j {
        assert(s.tasks()[i].video_id != s.tasks()[j].video_id);
    } else if j < i {
        assert(s.tasks()[j].video_id != s.tasks()[i].video_id);
    }
}

/// In a store whose setting keys are unique, the value looked up under a
/// key held at index `i` is the value at `i`.
proof fn lemma_setting_lookup(s: StoreState, key: Seq<char>, i: int)
    requires
        forall|a: int, b: int|
            0 <= a < b < s.settings@.len() ==> #[trigger] s.settings@[a].key@
                != #[trigger] s.settings@[b].key@,
        0 <= i < s.settings@.len(),
        s.settings@[i].key@ == key,
    ensures
        s.setting_value(key) == Some(s.settings@[i].value@),
{
    assert(s.has_setting(key));
    let j = choose|j: int| 0 <= j < s.settings@.len() && #[trigger] s.settings@[j].key@ == key;
    if i < j {
        assert(s.settings@[i].key@ != s.settings@[j].key@);
    } else if j < i {
        assert(s.settings@[j].key@ != s.settings@[i].key@);
    }
}

/// Two stores that hold the same entries under every index with a given key
/// agree on the lookup of that key.
proof fn lemma_setting_lookup_agrees(a: StoreState, b: StoreState, key: Seq<char>)
    requires
        forall|i: int, j: int|
            0 <= i < j < a.settings@.len() ==> #[trigger] a.settings@[i].key@
                != #[trigger] a.settings@[j].key@,
        forall|i: int, j: int|
            0 <= i < j < b.settings@.len() ==> #[trigger] b.settings@[i].key@
                != #[trigger] b.settings@[j].key@,
        forall|i: int|
            0 <= i < a.settings@.len() && #[trigger] a.settings@[i].key@ == key ==> i
                < b.settings@.len() && b.settings@[i].key@ == key && b.settings@[i].value@
                == a.settings@[i].value@,
        forall|i: int|
            0 <= i < b.settings@.len() && #[trigger] b.settings@[i].key@ == key ==> i
                < a.settings@.len() && a.settings@[i].key@ == key && a.settings@[i].value@
                == b.settings@[i].value@,
    ensures
        a.setting_value(key) == b.setting_value(key),
{
    if a.has_setting(key) {
        let i = choose|i: int| 0 <= i < a.settings@.len() && #[trigger] a.settings@[i].key@ == key;
        assert(b.has_setting(key));
        lemma_setting_lookup(a, key, i);
        lemma_setting_lookup(b, key, i);
    } else if b.has_setting(key) {
        let i = choose|i: int| 0 <= i < b.settings@.len() && #[trigger] b.settings@[i].key@ == key;
        assert(a.has_setting(key));
    }
}

} // verus!
