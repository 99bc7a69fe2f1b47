//! Download task records and their mathematical model.

use vstd::prelude::*;
use vstd::string::*;

verus! {

/// Lifecycle state of one download task.
///
/// Transitions: Queued -> Downloading -> {Completed, Failed, Paused};
/// Paused -> Downloading; Failed -> Downloading. Completed is terminal.
#[derive(Clone, Copy, Debug, PartialEq, Eq, Structural)]
pub enum DownloadStatus {
    Queued,
    Downloading,
    Paused,
    Completed,
    Failed,
}

/// The code a status is persisted under.
pub open spec fn spec_status_code(s: DownloadStatus) -> i32 {
    match s {
        DownloadStatus::Queued => 0,
        DownloadStatus::Downloading => 1,
        DownloadStatus::Paused => 2,
        DownloadStatus::Completed => 3,
        DownloadStatus::Failed => 4,
    }
}

/// The status a persisted code maps back to; unknown codes fall back to
/// Queued.
pub open spec fn spec_status_from_code(v: i32) -> DownloadStatus {
    if v == 1 {
        DownloadStatus::Downloading
    } else if v == 2 {
        DownloadStatus::Paused
    } else if v == 3 {
        DownloadStatus::Completed
    } else if v == 4 {
        DownloadStatus::Failed
    } else {
        DownloadStatus::Queued
    }
}

impl DownloadStatus {
    /// The code this status is persisted under.
    pub fn status_code(self) -> (r: i32)
        ensures
            r == spec_status_code(self),
    {
        match self {
            DownloadStatus::Queued => 0,
            DownloadStatus::Downloading => 1,
            DownloadStatus::Paused => 2,
            DownloadStatus::Completed => 3,
            DownloadStatus::Failed => 4,
        }
    }

    /// The status a persisted code maps back to.
    pub fn from_code(v: i32) -> (r: DownloadStatus)
        ensures
            r == spec_status_from_code(v),
            r == spec_status_from_code(spec_status_code(r)),
    {
        if v == 1 {
            DownloadStatus::Downloading
        } else if v == 2 {
            DownloadStatus::Paused
        } else if v == 3 {
            DownloadStatus::Completed
        } else if v == 4 {
            DownloadStatus::Failed
        } else {
            DownloadStatus::Queued
        }
    }
}

/// One persisted download task.
#[derive(Clone, Debug)]
pub struct DownloadRecord {
    pub id: i64,
    pub video_id: String,
    pub title: String,
    pub cover_url: String,
    pub video_url: String,
    pub quality: Option<String>,
    pub save_path: Option<String>,
    pub total_bytes: i64,
    pub downloaded_bytes: i64,
    pub status: DownloadStatus,
    pub error_message: Option<String>,
    pub created_at: i64,
    pub completed_at: Option<i64>,
}

/// The mathematical model of a download record.
pub ghost struct RecordModel {
    pub id: int,
    pub video_id: Seq<char>,
    pub title: Seq<char>,
    pub cover_url: Seq<char>,
    pub video_url: Seq<char>,
    pub quality: Option<Seq<char>>,
    pub save_path: Option<Seq<char>>,
    pub total_bytes: int,
    pub downloaded_bytes: int,
    pub status: DownloadStatus,
    pub error_message: Option<Seq<char>>,
    pub created_at: int,
    pub completed_at: Option<int>,
}

/// The view of an optional string.
pub open spec fn opt_view(o: Option<String>) -> Option<Seq<char>> {
    match o {
        Some(s) => Some(s@),
        None => None,
    }
}

impl View for DownloadRecord {
    type V = RecordModel;

    open spec fn view(&self) -> RecordModel {
        RecordModel {
            id: self.id as int,
            video_id: self.video_id@,
            title: self.title@,
            cover_url: self.cover_url@,
            video_url: self.video_url@,
            quality: opt_view(self.quality),
            save_path: opt_view(self.save_path),
            total_bytes: self.total_bytes as int,
            downloaded_bytes: self.downloaded_bytes as int,
            status: self.status,
            error_message: opt_view(self.error_message),
            created_at: self.created_at as int,
            completed_at: match self.completed_at {
                Some(t) => Some(t as int),
                None => None,
            },
        }
    }
}

/// Well-formedness of one record: byte counts are non-negative, a completed
/// task carries its completion time and has received its declared length,
/// an error message accompanies only a failed task, a completion time
/// accompanies only a completed task, and a stored save path is never
/// empty.
pub open spec fn record_wf(m: RecordModel) -> bool {
    &&& 0 <= m.total_bytes
    &&& 0 <= m.downloaded_bytes
    &&& m.status is Completed ==> m.completed_at is Some && (m.total_bytes > 0
        ==> m.downloaded_bytes == m.total_bytes)
    &&& m.error_message is Some ==> m.status is Failed
    &&& m.completed_at is Some ==> m.status is Completed
    &&& m.save_path matches Some(p) ==> p.len() > 0
}

/// Clones an optional string, keeping its view.
pub fn clone_opt_string(o: &Option<String>) -> (r: Option<String>)
    ensures
        r == *o,
{
    match o {
        Some(s) => Some(s.clone()),
        None => None,
    }
}

impl DownloadRecord {
    /// A copy of this record with the same model.
    pub fn duplicate(&self) -> (r: DownloadRecord)
        ensures
            r == *self,
    {
        DownloadRecord {
            id: self.id,
            video_id: self.video_id.clone(),
            title: self.title.clone(),
            cover_url: self.cover_url.clone(),
            video_url: self.video_url.clone(),
            quality: clone_opt_string(&self.quality),
            save_path: clone_opt_string(&self.save_path),
            total_bytes: self.total_bytes,
            downloaded_bytes: self.downloaded_bytes,
            status: self.status,
            error_message: clone_opt_string(&self.error_message),
            created_at: self.created_at,
            completed_at: self.completed_at,
        }
    }
}

/// Status of a task as published to subscribers.
#[derive(Clone, Debug)]
pub enum SnapshotStatus {
    Pending,
    Downloading,
    Paused,
    Completed,
    Failed(String),
}

/// One published view of a task, handed to progress subscribers.
#[derive(Clone, Debug)]
pub struct TaskSnapshot {
    pub id: String,
    pub video_id: String,
    pub title: String,
    pub cover_url: String,
    pub quality: String,
    pub status: SnapshotStatus,
    pub downloaded_bytes: u64,
    pub total_bytes: u64,
    pub speed: u64,
    pub created_at: i64,
    pub file_path: Option<String>,
}

impl TaskSnapshot {
    /// A copy of this snapshot, equal to it.
    pub fn duplicate(&self) -> (r: TaskSnapshot)
        ensures
            r == *self,
    {
        TaskSnapshot {
            id: self.id.clone(),
            video_id: self.video_id.clone(),
            title: self.title.clone(),
            cover_url: self.cover_url.clone(),
            quality: self.quality.clone(),
            status: match &self.status {
                SnapshotStatus::Pending => SnapshotStatus::Pending,
                SnapshotStatus::Downloading => SnapshotStatus::Downloading,
                SnapshotStatus::Paused => SnapshotStatus::Paused,
                SnapshotStatus::Completed => SnapshotStatus::Completed,
                SnapshotStatus::Failed(e) => SnapshotStatus::Failed(e.clone()),
            },
            downloaded_bytes: self.downloaded_bytes,
            total_bytes: self.total_bytes,
            speed: self.speed,
            created_at: self.created_at,
            file_path: clone_opt_string(&self.file_path),
        }
    }

    /// Download progress in thousandths: `downloaded / total` scaled by
    /// 1000 when the total is known (a server may understate the total, so
    /// the ratio can exceed 1000 and is capped at the type's maximum),
    /// else 0.
    pub fn progress_permille(&self) -> (p: u64)
        ensures
            self.total_bytes > 0 ==> p as int == ({
                let exact = self.downloaded_bytes as int * 1000 / self.total_bytes as int;
                if exact > u64::MAX as int {
                    u64::MAX as int
                } else {
                    exact
                }
            }),
            self.total_bytes == 0 ==> p == 0,
    {
        if self.total_bytes > 0 {
            let wide: u128 = (self.downloaded_bytes as u128) * 1000 / (self.total_bytes as u128);
            if wide > u64::MAX as u128 {
                u64::MAX
            } else {
                wide as u64
            }
        } else {
            0
        }
    }
}

/// The snapshot `t` is the published view of the record model `m`: same
/// task fields, quality defaulted to 1080P, the status carried over with a
/// failed task's error text (empty when absent).
pub open spec fn snapshot_matches(t: TaskSnapshot, m: RecordModel) -> bool {
    &&& t.id@ == m.video_id
    &&& t.video_id@ == m.video_id
    &&& t.title@ == m.title
    &&& t.cover_url@ == m.cover_url
    &&& t.quality@ == (match m.quality {
        Some(q) => q,
        None => "1080P"@,
    })
    &&& t.downloaded_bytes == m.downloaded_bytes
    &&& t.total_bytes == m.total_bytes
    &&& t.speed == 0
    &&& t.created_at == m.created_at
    &&& opt_view(t.file_path) == m.save_path
    &&& (m.status is Queued ==> t.status is Pending)
    &&& (m.status is Downloading ==> t.status is Downloading)
    &&& (m.status is Paused ==> t.status is Paused)
    &&& (m.status is Completed ==> t.status is Completed)
    &&& (m.status is Failed ==> (t.status matches SnapshotStatus::Failed(e) && e@ == (
    match m.error_message {
        Some(msg) => msg,
        None => Seq::<char>::empty(),
    })))
}

/// The published snapshot of a persisted record: the task's fields, the
/// quality defaulted to 1080P, a failed task carrying its error text.
pub fn map_record(record: &DownloadRecord) -> (t: TaskSnapshot)
    requires
        record@.total_bytes >= 0,
        record@.downloaded_bytes >= 0,
    ensures
        snapshot_matches(t, record@),
{
    let status = match record.status {
        DownloadStatus::Queued => SnapshotStatus::Pending,
        DownloadStatus::Downloading => SnapshotStatus::Downloading,
        DownloadStatus::Paused => SnapshotStatus::Paused,
        DownloadStatus::Completed => SnapshotStatus::Completed,
        DownloadStatus::Failed => SnapshotStatus::Failed(
            match &record.error_message {
                Some(m) => m.clone(),
                None => String::new(),
            },
        ),
    };
    TaskSnapshot {
        id: record.video_id.clone(),
        video_id: record.video_id.clone(),
        title: record.title.clone(),
        cover_url: record.cover_url.clone(),
        quality: match &record.quality {
            Some(q) => q.clone(),
            None => String::from_str("1080P"),
        },
        status,
        downloaded_bytes: record.downloaded_bytes as u64,
        total_bytes: record.total_bytes as u64,
        speed: 0,
        created_at: record.created_at,
        file_path: clone_opt_string(&record.save_path),
    }
}

} // verus!
