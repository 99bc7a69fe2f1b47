//! The download task manager: task lifecycle, crash recovery, bulk
//! transitions, and the progress pipeline over the store and the topic.
//!
//! Every operation computes the next store state and says which transfers
//! to start; actually running a transfer (network and disk I/O) is the
//! caller's business.

use vstd::prelude::*;
use vstd::string::*;

use crate::store::{
    spec_new_record, spec_reset_running, spec_with_progress, spec_with_save_path, spec_with_status,
    StoreState, lemma_task_model,
};
use crate::task::{
    clone_opt_string, map_record, snapshot_matches, DownloadRecord, DownloadStatus, RecordModel,
    TaskSnapshot,
};
use crate::text::{chars_of, contains_chars, contains_seq, remove_spaces, remove_spaces_chars,
    str_eq, string_from_chars};
use crate::topic::ProgressTopic;

verus! {

/// One transfer to start: stream `url` to `save_path` on behalf of the
/// task `video_id`.
#[derive(Clone, Debug)]
pub struct TransferRequest {
    pub video_id: String,
    pub url: String,
    pub save_path: String,
}

/// The quality a record falls back to when none was stored.
pub open spec fn spec_quality_or_default(q: Option<Seq<char>>) -> Seq<char> {
    match q {
        Some(s) => s,
        None => "1080P"@,
    }
}

/// The file extension a source URL maps to.
pub open spec fn spec_download_ext(url: Seq<char>) -> Seq<char> {
    if contains_seq(url, ".m3u8"@) {
        "m3u8"@
    } else {
        "mp4"@
    }
}

/// The deterministic destination path of a task: under the downloads
/// directory, named by id and quality (spaces removed), with the extension
/// the source URL calls for.
pub open spec fn spec_download_path(
    data_dir: Seq<char>,
    video_id: Seq<char>,
    quality: Seq<char>,
    url: Seq<char>,
) -> Seq<char> {
    data_dir + "/downloads/"@ + video_id + "_"@ + remove_spaces(quality) + "."@
        + spec_download_ext(url)
}

/// Derives the destination path of a task from its id, quality and source
/// URL, under the store's data directory.
pub fn build_download_path(data_dir: &str, video_id: &str, quality: &str, url: &str) -> (r: String)
    ensures
        r@ == spec_download_path(data_dir@, video_id@, quality@, url@),
{
    let url_chars = chars_of(url);
    let needle = chars_of(".m3u8");
    let ext = if contains_chars(&url_chars, &needle) {
        "m3u8"
    } else {
        "mp4"
    };
    let quality_chars = chars_of(quality);
    let cleaned = remove_spaces_chars(&quality_chars);
    let cleaned_str = string_from_chars(&cleaned);
    let mut r = data_dir.to_owned();
    r.append("/downloads/");
    r.append(video_id);
    r.append("_");
    r.append(cleaned_str.as_str());
    r.append(".");
    r.append(ext);
    r
}

/// A record's status allows restarting its transfer from `add_download`.
pub open spec fn spec_restartable(m: RecordModel) -> bool {
    m.status is Queued || m.status is Failed || m.status is Paused
}

/// Registers a download task, or restarts an existing one.
///
/// If a record for the id exists: when it is Queued, Failed or Paused and
/// has a save path, it transitions to Downloading and its transfer is to be
/// restarted; otherwise nothing changes (no duplicate transfer for a task
/// already Downloading or Completed). The returned snapshot shows the
/// record as it was. If no record exists: one is persisted, its destination
/// path derived and stored, its status set to Downloading, and its transfer
/// is to be started; the returned snapshot shows the fresh task without a
/// file path.
pub fn add_download(
    store: &mut StoreState,
    video_id: &str,
    title: &str,
    cover_url: &str,
    quality: &str,
    url: &str,
    now: i64,
) -> (r: (TaskSnapshot, Option<TransferRequest>))
    requires
        old(store).wf(),
        old(store).next_id < i64::MAX,
    ensures
        final(store).wf(),
        final(store).cookies == old(store).cookies,
        final(store).settings == old(store).settings,
        final(store).data_dir == old(store).data_dir,
        old(store).has_task(video_id@) ==> {
            let m = old(store).task_model(video_id@);
            &&& snapshot_matches(r.0, m)
            &&& final(store).tasks().len() == old(store).tasks().len()
            &&& if spec_restartable(m) && m.save_path is Some {
                &&& forall|i: int|
                    0 <= i < old(store).tasks().len() ==> #[trigger] final(store).tasks()[i] == (
                    if old(store).tasks()[i].video_id == video_id@ {
                        spec_with_status(
                            old(store).tasks()[i],
                            DownloadStatus::Downloading,
                            None,
                            now as int,
                        )
                    } else {
                        old(store).tasks()[i]
                    })
                &&& (r.1 matches Some(req) && req.video_id@ == m.video_id && req.url@
                    == m.video_url && Some(req.save_path@) == m.save_path)
            } else {
                &&& *final(store) == *old(store)
                &&& r.1 is None
            }
        },
        !old(store).has_task(video_id@) ==> {
            let fresh = spec_new_record(
                old(store).next_id as int,
                video_id@,
                title@,
                cover_url@,
                url@,
                quality@,
                now as int,
            );
            let path = spec_download_path(old(store).data_dir@, video_id@, quality@, url@);
            &&& final(store).tasks() == old(store).tasks().push(
                spec_with_status(
                    spec_with_save_path(fresh, path),
                    DownloadStatus::Downloading,
                    None,
                    now as int,
                ),
            )
            &&& snapshot_matches(
                r.0,
                spec_with_status(fresh, DownloadStatus::Downloading, None, now as int),
            )
            &&& (r.1 matches Some(req) && req.video_id@ == video_id@ && req.url@ == url@
                && req.save_path@ == path)
        },
{
    if let Some(record) = store.get_download_by_video_id(video_id) {
        proof {
            let i = choose|i: int|
                0 <= i < store.tasks().len() && #[trigger] store.tasks()[i] == record@;
            lemma_task_model(*store, video_id@, i);
        }
        let task = map_record(&record);
        let restartable = matches!(
            record.status,
            DownloadStatus::Queued | DownloadStatus::Failed | DownloadStatus::Paused
        );
        if restartable {
            if let Some(save_path) = &record.save_path {
                store.update_download_status(video_id, DownloadStatus::Downloading, None, now);
                let req = TransferRequest {
                    video_id: record.video_id.clone(),
                    url: record.video_url.clone(),
                    save_path: save_path.clone(),
                };
                return (task, Some(req));
            }
        }
        return (task, None);
    }
    let ghost s0 = *store;
    store.add_download(video_id, title, cover_url, url, quality, now);
    let ghost s1 = *store;
    let data_dir = store.get_data_dir();
    let save_path = build_download_path(data_dir.as_str(), video_id, quality, url);
    proof {
        reveal_strlit("/downloads/");
        assert(save_path@.len() > 0);
    }
    store.update_download_save_path(video_id, save_path.as_str());
    let ghost s2 = *store;
    store.update_download_status(video_id, DownloadStatus::Downloading, None, now);
    proof {
        let n = s0.tasks().len() as int;
        assert(s1.tasks()[n].video_id == video_id@);
        assert(forall|i: int| 0 <= i < n ==> s1.tasks()[i] == #[trigger] s0.tasks()[i]);
        assert(forall|i: int|
            0 <= i < n ==> #[trigger] s0.tasks()[i].video_id != video_id@);
        assert(s2.tasks()[n] == spec_with_save_path(s1.tasks()[n], save_path@));
        assert(forall|i: int| 0 <= i < n ==> s2.tasks()[i] == #[trigger] s1.tasks()[i]);
        assert(store.tasks()[n] == spec_with_status(
            s2.tasks()[n],
            DownloadStatus::Downloading,
            None,
            now as int,
        ));
        assert(forall|i: int| 0 <= i < n ==> store.tasks()[i] == #[trigger] s2.tasks()[i]);
        assert(store.tasks() =~= s0.tasks().push(store.tasks()[n]));
    }
    let task = TaskSnapshot {
        id: video_id.to_owned(),
        video_id: video_id.to_owned(),
        title: title.to_owned(),
        cover_url: cover_url.to_owned(),
        quality: quality.to_owned(),
        status: crate::task::SnapshotStatus::Downloading,
        downloaded_bytes: 0,
        total_bytes: 0,
        speed: 0,
        created_at: now,
        file_path: None,
    };
    let req = TransferRequest {
        video_id: video_id.to_owned(),
        url: url.to_owned(),
        save_path,
    };
    (task, Some(req))
}

/// Marks a task Paused. Advisory only: an in-flight transfer is not
/// cancelled and may still run to completion or failure.
pub fn pause_download(store: &mut StoreState, video_id: &str, now: i64)
    requires
        old(store).wf(),
    ensures
        final(store).wf(),
        final(store).tasks().len() == old(store).tasks().len(),
        forall|i: int|
            0 <= i < old(store).tasks().len() ==> #[trigger] final(store).tasks()[i] == (if old(
                store,
            ).tasks()[i].video_id == video_id@ {
                spec_with_status(old(store).tasks()[i], DownloadStatus::Paused, None, now as int)
            } else {
                old(store).tasks()[i]
            }),
        final(store).cookies == old(store).cookies,
        final(store).settings == old(store).settings,
        final(store).data_dir == old(store).data_dir,
        final(store).next_id == old(store).next_id,
{
    store.update_download_status(video_id, DownloadStatus::Paused, None, now);
}

/// Marks a task Downloading again and says to restart its transfer on its
/// recorded save path, if it has one.
pub fn resume_download(store: &mut StoreState, video_id: &str, now: i64) -> (r: Option<
    TransferRequest,
>)
    requires
        old(store).wf(),
    ensures
        final(store).wf(),
        final(store).tasks().len() == old(store).tasks().len(),
        forall|i: int|
            0 <= i < old(store).tasks().len() ==> #[trigger] final(store).tasks()[i] == (if old(
                store,
            ).tasks()[i].video_id == video_id@ {
                spec_with_status(
                    old(store).tasks()[i],
                    DownloadStatus::Downloading,
                    None,
                    now as int,
                )
            } else {
                old(store).tasks()[i]
            }),
        if old(store).has_task(video_id@) && old(store).task_model(video_id@).save_path is Some {
            r matches Some(req) && req.video_id@ == video_id@ && req.url@ == old(store).task_model(
                video_id@,
            ).video_url && Some(req.save_path@) == old(store).task_model(video_id@).save_path
        } else {
            r is None
        },
        final(store).cookies == old(store).cookies,
        final(store).settings == old(store).settings,
        final(store).data_dir == old(store).data_dir,
        final(store).next_id == old(store).next_id,
{
    store.update_download_status(video_id, DownloadStatus::Downloading, None, now);
    if let Some(record) = store.get_download_by_video_id(video_id) {
        proof {
            let i = choose|i: int|
                0 <= i < store.tasks().len() && #[trigger] store.tasks()[i] == record@;
            lemma_task_model(*store, video_id@, i);
            assert(old(store).tasks()[i].video_id == video_id@);
            lemma_task_model(*old(store), video_id@, i);
            assert(record@.save_path == old(store).task_model(video_id@).save_path);
            assert(record@.video_url == old(store).task_model(video_id@).video_url);
        }
        if let Some(save_path) = &record.save_path {
            return Some(
                TransferRequest {
                    video_id: record.video_id.clone(),
                    url: record.video_url.clone(),
                    save_path: save_path.clone(),
                },
            );
        }
        return None;
    }
    proof {
        if old(store).has_task(video_id@) {
            let i = choose|i: int|
                0 <= i < old(store).tasks().len() && #[trigger] old(store).tasks()[i].video_id
                    == video_id@;
            assert(store.tasks()[i].video_id == video_id@);
            assert(store.has_task(video_id@));
        }
    }
    None
}

/// Removes a task's record; when `delete_file` is set, the file at its save
/// path is to be removed from disk as well.
pub fn delete_download(store: &mut StoreState, video_id: &str, delete_file: bool) -> (r: Option<
    String,
>)
    requires
        old(store).wf(),
    ensures
        final(store).wf(),
        !final(store).has_task(video_id@),
        !old(store).has_task(video_id@) ==> *final(store) == *old(store),
        old(store).has_task(video_id@) ==> exists|j: int|
            0 <= j < old(store).tasks().len() && #[trigger] old(store).tasks()[j].video_id
                == video_id@ && final(store).downloads@ == old(store).downloads@.remove(j),
        ({
            let should = delete_file && old(store).has_task(video_id@) && old(store).task_model(
                video_id@,
            ).save_path is Some;
            if should {
                Some(crate::task::opt_view(r)) == Some(old(store).task_model(video_id@).save_path)
            } else {
                r is None
            }
        }),
        final(store).cookies == old(store).cookies,
        final(store).settings == old(store).settings,
        final(store).data_dir == old(store).data_dir,
        final(store).next_id == old(store).next_id,
{
    let mut path: Option<String> = None;
    if delete_file {
        if let Some(record) = store.get_download_by_video_id(video_id) {
            proof {
                let i = choose|i: int|
                    0 <= i < store.tasks().len() && #[trigger] store.tasks()[i] == record@;
                lemma_task_model(*store, video_id@, i);
            }
            path = clone_opt_string(&record.save_path);
        }
    }
    store.delete_download(video_id);
    path
}

/// A record after `pause_all_downloads`: Downloading and Queued tasks are
/// Paused, all others are untouched.
pub open spec fn spec_pause_all(m: RecordModel, now: int) -> RecordModel {
    if m.status is Downloading || m.status is Queued {
        spec_with_status(m, DownloadStatus::Paused, None, now)
    } else {
        m
    }
}

/// A record after `resume_all_downloads`: Paused tasks are Downloading,
/// all others are untouched.
pub open spec fn spec_resume_all(m: RecordModel, now: int) -> RecordModel {
    if m.status is Paused {
        spec_with_status(m, DownloadStatus::Downloading, None, now)
    } else {
        m
    }
}

/// The save path the startup sweep leaves a queued record with: the stored
/// one, or the derived one when none was stored.
pub open spec fn spec_sweep_path(m: RecordModel, data_dir: Seq<char>) -> Seq<char> {
    match m.save_path {
        Some(p) => p,
        None => spec_download_path(
            data_dir,
            m.video_id,
            spec_quality_or_default(m.quality),
            m.video_url,
        ),
    }
}

/// A record after the startup sweep: a Queued task is Downloading with a
/// save path, all others are untouched.
pub open spec fn spec_sweep(m: RecordModel, data_dir: Seq<char>, now: int) -> RecordModel {
    if m.status is Queued {
        RecordModel {
            status: DownloadStatus::Downloading,
            save_path: Some(spec_sweep_path(m, data_dir)),
            error_message: None,
            completed_at: None,
            ..m
        }
    } else {
        m
    }
}

/// The Paused records with a save path, in store order: those whose
/// transfers `resume_all_downloads` restarts.
pub open spec fn spec_resume_targets(s: Seq<RecordModel>) -> Seq<RecordModel>
    decreases s.len(),
{
    if s.len() == 0 {
        Seq::empty()
    } else {
        let rest = spec_resume_targets(s.drop_last());
        if s.last().status is Paused && s.last().save_path is Some {
            rest.push(s.last())
        } else {
            rest
        }
    }
}

/// The Queued records, in store order: those whose transfers the startup
/// sweep starts.
pub open spec fn spec_queued_records(s: Seq<RecordModel>) -> Seq<RecordModel>
    decreases s.len(),
{
    if s.len() == 0 {
        Seq::empty()
    } else {
        let rest = spec_queued_records(s.drop_last());
        if s.last().status is Queued {
            rest.push(s.last())
        } else {
            rest
        }
    }
}

/// Pauses every task currently Downloading or Queued; Paused, Completed and
/// Failed tasks are untouched.
pub fn pause_all_downloads(store: &mut StoreState, now: i64)
    requires
        old(store).wf(),
    ensures
        final(store).wf(),
        final(store).tasks().len() == old(store).tasks().len(),
        forall|i: int|
            0 <= i < old(store).tasks().len() ==> #[trigger] final(store).tasks()[i]
                == spec_pause_all(old(store).tasks()[i], now as int),
        final(store).cookies == old(store).cookies,
        final(store).settings == old(store).settings,
        final(store).data_dir == old(store).data_dir,
        final(store).next_id == old(store).next_id,
{
    let records = store.store_order_records();
    let mut i: usize = 0;
    while i < records.len()
        invariant
            store.wf(),
            i <= records@.len(),
            records@.len() == old(store).downloads@.len(),
            forall|k: int| 0 <= k < records@.len() ==> #[trigger] records@[k] == old(
                store,
            ).downloads@[k],
            store.tasks().len() == old(store).tasks().len(),
            forall|k: int|
                0 <= k < i ==> #[trigger] store.tasks()[k] == spec_pause_all(
                    old(store).tasks()[k],
                    now as int,
                ),
            forall|k: int|
                i <= k < store.tasks().len() ==> #[trigger] store.tasks()[k] == old(
                    store,
                ).tasks()[k],
            store.cookies == old(store).cookies,
            store.settings == old(store).settings,
            store.data_dir == old(store).data_dir,
            store.next_id == old(store).next_id,
        decreases records@.len() - i,
    {
        let ghost pre = *store;
        let active = matches!(
            records[i].status,
            DownloadStatus::Downloading | DownloadStatus::Queued
        );
        if active {
            store.update_download_status(
                records[i].video_id.as_str(),
                DownloadStatus::Paused,
                None,
                now,
            );
        }
        proof {
            let vid = records@[i as int].video_id@;
            assert(old(store).tasks()[i as int].video_id == vid);
            assert forall|k: int| 0 <= k < store.tasks().len() && k != i implies #[trigger] store
                .tasks()[k] == pre.tasks()[k] by {
                if active {
                    if k < i {
                        assert(pre.tasks()[k].video_id == old(store).tasks()[k].video_id);
                    }
                    assert(pre.tasks()[k].video_id != vid);
                }
            }
            assert(store.tasks()[i as int] == spec_pause_all(old(store).tasks()[i as int],
                now as int));
        }
        i = i + 1;
    }
}

/// Resumes every Paused task: its status becomes Downloading, and for each
/// one with a recorded save path a transfer is to be restarted.
pub fn resume_all_downloads(store: &mut StoreState, now: i64) -> (reqs: Vec<TransferRequest>)
    requires
        old(store).wf(),
    ensures
        final(store).wf(),
        final(store).tasks().len() == old(store).tasks().len(),
        forall|i: int|
            0 <= i < old(store).tasks().len() ==> #[trigger] final(store).tasks()[i]
                == spec_resume_all(old(store).tasks()[i], now as int),
        ({
            let targets = spec_resume_targets(old(store).tasks());
            &&& reqs@.len() == targets.len()
            &&& forall|k: int|
                0 <= k < targets.len() ==> (#[trigger] reqs@[k]).video_id@ == targets[k].video_id
                    && reqs@[k].url@ == targets[k].video_url && Some(reqs@[k].save_path@)
                    == targets[k].save_path
        }),
        final(store).cookies == old(store).cookies,
        final(store).settings == old(store).settings,
        final(store).data_dir == old(store).data_dir,
        final(store).next_id == old(store).next_id,
{
    let records = store.store_order_records();
    let mut reqs: Vec<TransferRequest> = Vec::new();
    let mut i: usize = 0;
    while i < records.len()
        invariant
            store.wf(),
            i <= records@.len(),
            records@.len() == old(store).downloads@.len(),
            forall|k: int| 0 <= k < records@.len() ==> #[trigger] records@[k] == old(
                store,
            ).downloads@[k],
            store.tasks().len() == old(store).tasks().len(),
            forall|k: int|
                0 <= k < i ==> #[trigger] store.tasks()[k] == spec_resume_all(
                    old(store).tasks()[k],
                    now as int,
                ),
            forall|k: int|
                i <= k < store.tasks().len() ==> #[trigger] store.tasks()[k] == old(
                    store,
                ).tasks()[k],
            ({
                let targets = spec_resume_targets(old(store).tasks().take(i as int));
                &&& reqs@.len() == targets.len()
                &&& forall|k: int|
                    0 <= k < targets.len() ==> (#[trigger] reqs@[k]).video_id@
                        == targets[k].video_id && reqs@[k].url@ == targets[k].video_url && Some(
                        reqs@[k].save_path@,
                    ) == targets[k].save_path
            }),
            store.cookies == old(store).cookies,
            store.settings == old(store).settings,
            store.data_dir == old(store).data_dir,
            store.next_id == old(store).next_id,
        decreases records@.len() - i,
    {
        let ghost pre = *store;
        proof {
            assert(old(store).tasks().take(i + 1).drop_last() =~= old(store).tasks().take(i as int));
            assert(old(store).tasks().take(i + 1).last() == old(store).tasks()[i as int]);
        }
        let paused = matches!(records[i].status, DownloadStatus::Paused);
        if paused {
            store.update_download_status(
                records[i].video_id.as_str(),
                DownloadStatus::Downloading,
                None,
                now,
            );
            if let Some(save_path) = &records[i].save_path {
                reqs.push(
                    TransferRequest {
                        video_id: records[i].video_id.clone(),
                        url: records[i].video_url.clone(),
                        save_path: save_path.clone(),
                    },
                );
            }
        }
        proof {
            let vid = records@[i as int].video_id@;
            assert(old(store).tasks()[i as int].video_id == vid);
            assert forall|k: int| 0 <= k < store.tasks().len() && k != i implies #[trigger] store
                .tasks()[k] == pre.tasks()[k] by {
                if paused {
                    if k < i {
                        assert(pre.tasks()[k].video_id == old(store).tasks()[k].video_id);
                    }
                    assert(pre.tasks()[k].video_id != vid);
                }
            }
            assert(store.tasks()[i as int] == spec_resume_all(old(store).tasks()[i as int],
                now as int));
        }
        i = i + 1;
    }
    proof {
        assert(old(store).tasks().take(i as int) =~= old(store).tasks());
    }
    reqs
}

/// The startup sweep's second half: every Queued task gets a save path
/// (derived when none was stored), becomes Downloading, and its transfer is
/// to be started.
pub fn resume_queued_downloads(store: &mut StoreState, now: i64) -> (reqs: Vec<TransferRequest>)
    requires
        old(store).wf(),
    ensures
        final(store).wf(),
        final(store).tasks().len() == old(store).tasks().len(),
        forall|i: int|
            0 <= i < old(store).tasks().len() ==> #[trigger] final(store).tasks()[i] == spec_sweep(
                old(store).tasks()[i],
                old(store).data_dir@,
                now as int,
            ),
        ({
            let targets = spec_queued_records(old(store).tasks());
            &&& reqs@.len() == targets.len()
            &&& forall|k: int|
                0 <= k < targets.len() ==> (#[trigger] reqs@[k]).video_id@ == targets[k].video_id
                    && reqs@[k].url@ == targets[k].video_url && reqs@[k].save_path@
                    == spec_sweep_path(targets[k], old(store).data_dir@)
        }),
        final(store).cookies == old(store).cookies,
        final(store).settings == old(store).settings,
        final(store).data_dir == old(store).data_dir,
        final(store).next_id == old(store).next_id,
{
    let records = store.store_order_records();
    let data_dir = store.get_data_dir();
    let mut reqs: Vec<TransferRequest> = Vec::new();
    let mut i: usize = 0;
    while i < records.len()
        invariant
            store.wf(),
            i <= records@.len(),
            records@.len() == old(store).downloads@.len(),
            forall|k: int| 0 <= k < records@.len() ==> #[trigger] records@[k] == old(
                store,
            ).downloads@[k],
            data_dir@ == old(store).data_dir@,
            store.tasks().len() == old(store).tasks().len(),
            forall|k: int|
                0 <= k < i ==> #[trigger] store.tasks()[k] == spec_sweep(
                    old(store).tasks()[k],
                    old(store).data_dir@,
                    now as int,
                ),
            forall|k: int|
                i <= k < store.tasks().len() ==> #[trigger] store.tasks()[k] == old(
                    store,
                ).tasks()[k],
            ({
                let targets = spec_queued_records(old(store).tasks().take(i as int));
                &&& reqs@.len() == targets.len()
                &&& forall|k: int|
                    0 <= k < targets.len() ==> (#[trigger] reqs@[k]).video_id@
                        == targets[k].video_id && reqs@[k].url@ == targets[k].video_url
                        && reqs@[k].save_path@ == spec_sweep_path(targets[k], old(store).data_dir@)
            }),
            store.cookies == old(store).cookies,
            store.settings == old(store).settings,
            store.data_dir == old(store).data_dir,
            store.next_id == old(store).next_id,
        decreases records@.len() - i,
    {
        let ghost pre = *store;
        proof {
            assert(old(store).tasks().take(i + 1).drop_last() =~= old(store).tasks().take(i as int));
            assert(old(store).tasks().take(i + 1).last() == old(store).tasks()[i as int]);
        }
        let queued = matches!(records[i].status, DownloadStatus::Queued);
        if queued {
            let vid = records[i].video_id.clone();
            let save_path: String = match &records[i].save_path {
                Some(p) => p.clone(),
                None => {
                    let quality: &str = match &records[i].quality {
                        Some(q) => q.as_str(),
                        None => "1080P",
                    };
                    let p = build_download_path(
                        data_dir.as_str(),
                        vid.as_str(),
                        quality,
                        records[i].video_url.as_str(),
                    );
                    proof {
                        reveal_strlit("/downloads/");
                        assert(p@.len() > 0);
                    }
                    store.update_download_save_path(vid.as_str(), p.as_str());
                    p
                },
            };
            let ghost mid = *store;
            proof {
                let vids = records@[i as int].video_id@;
                assert(old(store).tasks()[i as int].video_id == vids);
                assert forall|k: int| 0 <= k < mid.tasks().len() && k != i implies #[trigger] mid
                    .tasks()[k] == pre.tasks()[k] by {
                    if k < i {
                        assert(pre.tasks()[k].video_id == old(store).tasks()[k].video_id);
                    }
                    assert(pre.tasks()[k].video_id != vids);
                }
                assert(mid.tasks()[i as int].save_path == Some(
                    spec_sweep_path(old(store).tasks()[i as int], old(store).data_dir@),
                ));
            }
            store.update_download_status(vid.as_str(), DownloadStatus::Downloading, None, now);
            reqs.push(
                TransferRequest {
                    video_id: vid,
                    url: records[i].video_url.clone(),
                    save_path,
                },
            );
            proof {
                let vids = records@[i as int].video_id@;
                assert forall|k: int| 0 <= k < store.tasks().len() && k != i implies #[trigger] store
                    .tasks()[k] == pre.tasks()[k] by {
                    assert(store.tasks()[k] == mid.tasks()[k]);
                    if k < i {
                        assert(pre.tasks()[k].video_id == old(store).tasks()[k].video_id);
                    }
                    assert(pre.tasks()[k].video_id != vids);
                }
                assert(store.tasks()[i as int] == spec_sweep(
                    old(store).tasks()[i as int],
                    old(store).data_dir@,
                    now as int,
                ));
            }
        }
        i = i + 1;
    }
    proof {
        assert(old(store).tasks().take(i as int) =~= old(store).tasks());
    }
    reqs
}

/// The models of the records listed newest first.
pub open spec fn spec_tasks_newest_first(store: StoreState) -> Seq<RecordModel> {
    crate::store::sort_by_created_desc(store.downloads@).map_values(|r: DownloadRecord| r@)
}

/// Snapshots of all tasks, newest first: one per persisted record, ordered
/// by creation time descending.
pub fn get_all_downloads(store: &StoreState) -> (r: Vec<TaskSnapshot>)
    requires
        store.wf(),
    ensures
        r@.len() == store.tasks().len(),
        forall|i: int|
            0 <= i < r@.len() ==> snapshot_matches(#[trigger] r@[i], spec_tasks_newest_first(
                *store,
            )[i]),
        forall|i: int, j: int|
            0 <= i < j < r@.len() ==> #[trigger] r@[i].created_at >= #[trigger] r@[j].created_at,
{
    let records = store.get_downloads();
    let mut r: Vec<TaskSnapshot> = Vec::new();
    let mut i: usize = 0;
    while i < records.len()
        invariant
            store.wf(),
            i <= records@.len(),
            records@ == crate::store::sort_by_created_desc(store.downloads@),
            records@.len() == store.downloads@.len(),
            forall|k: int|
                0 <= k < records@.len() ==> store.downloads@.contains(#[trigger] records@[k]),
            r@.len() == i,
            forall|k: int|
                0 <= k < i ==> snapshot_matches(#[trigger] r@[k], spec_tasks_newest_first(*store)[k]),
        decreases records@.len() - i,
    {
        proof {
            let j = choose|j: int|
                0 <= j < store.downloads@.len() && store.downloads@[j] == records@[i as int];
            assert(store.tasks()[j] == records@[i as int]@);
        }
        r.push(map_record(&records[i]));
        i = i + 1;
    }
    proof {
        crate::store::lemma_sort_by_created_facts(store.downloads@);
        assert forall|i: int, j: int|
            0 <= i < j < r@.len() implies #[trigger] r@[i].created_at
            >= #[trigger] r@[j].created_at by {
            assert(records@[i].created_at >= records@[j].created_at);
            assert(r@[i].created_at == records@[i]@.created_at);
            assert(r@[j].created_at == records@[j]@.created_at);
        }
    }
    r
}

/// A status filter key names this status.
pub open spec fn spec_status_key_matches(st: DownloadStatus, key: Seq<char>) -> bool {
    ||| st is Queued && key == "pending"@
    ||| st is Downloading && key == "downloading"@
    ||| st is Paused && key == "paused"@
    ||| st is Completed && key == "completed"@
    ||| st is Failed && key == "failed"@
}

/// The records whose status a filter key names, in store order.
pub open spec fn spec_models_with_status(s: Seq<RecordModel>, key: Seq<char>) -> Seq<RecordModel>
    decreases s.len(),
{
    if s.len() == 0 {
        Seq::empty()
    } else {
        let rest = spec_models_with_status(s.drop_last(), key);
        if spec_status_key_matches(s.last().status, key) {
            rest.push(s.last())
        } else {
            rest
        }
    }
}

/// Snapshots of the tasks in one status, named by its filter key
/// (pending, downloading, paused, completed, failed), newest first.
pub fn get_downloads_by_status(store: &StoreState, status: &str) -> (r: Vec<TaskSnapshot>)
    requires
        store.wf(),
    ensures
        ({
            let filtered = spec_models_with_status(spec_tasks_newest_first(*store), status@);
            &&& r@.len() == filtered.len()
            &&& forall|k: int|
                0 <= k < filtered.len() ==> snapshot_matches(#[trigger] r@[k], filtered[k])
        }),
{
    let records = store.get_downloads();
    let ghost models = spec_tasks_newest_first(*store);
    let mut r: Vec<TaskSnapshot> = Vec::new();
    let mut i: usize = 0;
    while i < records.len()
        invariant
            store.wf(),
            i <= records@.len(),
            records@ == crate::store::sort_by_created_desc(store.downloads@),
            forall|k: int|
                0 <= k < records@.len() ==> store.downloads@.contains(#[trigger] records@[k]),
            models == spec_tasks_newest_first(*store),
            models.len() == records@.len(),
            forall|k: int| 0 <= k < models.len() ==> #[trigger] models[k] == records@[k]@,
            ({
                let filtered = spec_models_with_status(models.take(i as int), status@);
                &&& r@.len() == filtered.len()
                &&& forall|k: int|
                    0 <= k < filtered.len() ==> snapshot_matches(#[trigger] r@[k], filtered[k])
            }),
        decreases records@.len() - i,
    {
        proof {
            assert(models.take(i + 1).drop_last() =~= models.take(i as int));
            assert(models.take(i + 1).last() == models[i as int]);
        }
        let hit = match records[i].status {
            DownloadStatus::Queued => str_eq(status, "pending"),
            DownloadStatus::Downloading => str_eq(status, "downloading"),
            DownloadStatus::Paused => str_eq(status, "paused"),
            DownloadStatus::Completed => str_eq(status, "completed"),
            DownloadStatus::Failed => str_eq(status, "failed"),
        };
        if hit {
            proof {
                let j = choose|j: int|
                    0 <= j < store.downloads@.len() && store.downloads@[j] == records@[i as int];
                assert(store.tasks()[j] == records@[i as int]@);
            }
            r.push(map_record(&records[i]));
        }
        i = i + 1;
    }
    proof {
        assert(models.take(i as int) =~= models);
    }
    r
}

/// The local path a task was saved to, if one is recorded.
pub fn get_local_video_path(store: &StoreState, video_id: &str) -> (r: Option<String>)
    requires
        store.wf(),
    ensures
        crate::task::opt_view(r) == (if store.has_task(video_id@) {
            store.task_model(video_id@).save_path
        } else {
            None::<Seq<char>>
        }),
{
    match store.get_download_by_video_id(video_id) {
        Some(record) => {
            proof {
                let i = choose|i: int|
                    0 <= i < store.tasks().len() && #[trigger] store.tasks()[i] == record@;
                lemma_task_model(*store, video_id@, i);
            }
            clone_opt_string(&record.save_path)
        },
        None => None,
    }
}

/// The progress pipeline, on each chunk: persists the moved byte counters
/// and publishes the freshly reloaded record to the topic.
pub fn handle_progress(
    store: &mut StoreState,
    topic: &mut ProgressTopic,
    video_id: &str,
    downloaded: u64,
    total: u64,
)
    requires
        old(store).wf(),
        old(topic).wf(),
        old(topic).next_seq < u64::MAX,
        downloaded <= 0x7fff_ffff_ffff_ffff,
        total <= 0x7fff_ffff_ffff_ffff,
    ensures
        final(store).wf(),
        final(topic).wf(),
        final(store).tasks().len() == old(store).tasks().len(),
        forall|i: int|
            0 <= i < old(store).tasks().len() ==> #[trigger] final(store).tasks()[i] == (if old(
                store,
            ).tasks()[i].video_id == video_id@ {
                spec_with_progress(old(store).tasks()[i], downloaded as int, total as int)
            } else {
                old(store).tasks()[i]
            }),
        old(store).has_task(video_id@) ==> {
            &&& final(topic).next_seq == old(topic).next_seq + 1
            &&& final(topic).buffer@.len() >= 1
            &&& snapshot_matches(
                final(topic).buffer@.last(),
                spec_with_progress(
                    old(store).task_model(video_id@),
                    downloaded as int,
                    total as int,
                ),
            )
        },
        !old(store).has_task(video_id@) ==> *final(topic) == *old(topic),
        final(topic).capacity == old(topic).capacity,
        final(store).cookies == old(store).cookies,
        final(store).settings == old(store).settings,
        final(store).data_dir == old(store).data_dir,
        final(store).next_id == old(store).next_id,
{
    store.update_download_progress(video_id, downloaded as i64, total as i64);
    if let Some(record) = store.get_download_by_video_id(video_id) {
        proof {
            let i = choose|i: int|
                0 <= i < store.tasks().len() && #[trigger] store.tasks()[i] == record@;
            lemma_task_model(*store, video_id@, i);
            assert(old(store).tasks()[i].video_id == video_id@);
            lemma_task_model(*old(store), video_id@, i);
        }
        let snapshot = map_record(&record);
        topic.publish(snapshot);
    } else {
        proof {
            if old(store).has_task(video_id@) {
                let i = choose|i: int|
                    0 <= i < old(store).tasks().len() && #[trigger] old(store).tasks()[i].video_id
                        == video_id@;
                assert(store.tasks()[i].video_id == video_id@);
                assert(store.has_task(video_id@));
            }
        }
    }
}

/// The end of one transfer attempt: persists Completed, or Failed with the
/// captured error text, and publishes the reloaded record to the topic.
pub fn finish_download(
    store: &mut StoreState,
    topic: &mut ProgressTopic,
    video_id: &str,
    error: Option<&str>,
    now: i64,
)
    requires
        old(store).wf(),
        old(topic).wf(),
        old(topic).next_seq < u64::MAX,
    ensures
        final(store).wf(),
        final(topic).wf(),
        final(store).tasks().len() == old(store).tasks().len(),
        ({
            let status = if error is Some {
                DownloadStatus::Failed
            } else {
                DownloadStatus::Completed
            };
            let err = match error {
                Some(e) => Some(e@),
                None => None,
            };
            &&& forall|i: int|
                0 <= i < old(store).tasks().len() ==> #[trigger] final(store).tasks()[i] == (if old(
                    store,
                ).tasks()[i].video_id == video_id@ {
                    spec_with_status(old(store).tasks()[i], status, err, now as int)
                } else {
                    old(store).tasks()[i]
                })
            &&& old(store).has_task(video_id@) ==> {
                &&& final(topic).next_seq == old(topic).next_seq + 1
                &&& final(topic).buffer@.len() >= 1
                &&& snapshot_matches(
                    final(topic).buffer@.last(),
                    spec_with_status(old(store).task_model(video_id@), status, err, now as int),
                )
            }
        }),
        !old(store).has_task(video_id@) ==> *final(topic) == *old(topic),
        final(topic).capacity == old(topic).capacity,
        final(store).cookies == old(store).cookies,
        final(store).settings == old(store).settings,
        final(store).data_dir == old(store).data_dir,
        final(store).next_id == old(store).next_id,
{
    let status = if error.is_some() {
        DownloadStatus::Failed
    } else {
        DownloadStatus::Completed
    };
    store.update_download_status(video_id, status, error, now);
    if let Some(record) = store.get_download_by_video_id(video_id) {
        proof {
            let i = choose|i: int|
                0 <= i < store.tasks().len() && #[trigger] store.tasks()[i] == record@;
            lemma_task_model(*store, video_id@, i);
            assert(old(store).tasks()[i].video_id == video_id@);
            lemma_task_model(*old(store), video_id@, i);
        }
        let snapshot = map_record(&record);
        topic.publish(snapshot);
    } else {
        proof {
            if old(store).has_task(video_id@) {
                let i = choose|i: int|
                    0 <= i < old(store).tasks().len() && #[trigger] old(store).tasks()[i].video_id
                        == video_id@;
                assert(store.tasks()[i].video_id == video_id@);
                assert(store.has_task(video_id@));
            }
        }
    }
}

/// Law: adding a task twice with one id never yields two persisted records.
/// Every operation hands back a well-formed store, and a well-formed store
/// holds at most one record per video id.
pub proof fn lemma_add_task_idempotent(s: StoreState, video_id: Seq<char>, i: int, j: int)
    requires
        s.wf(),
        0 <= i < s.tasks().len(),
        0 <= j < s.tasks().len(),
        s.tasks()[i].video_id == video_id,
        s.tasks()[j].video_id == video_id,
    ensures
        i == j,
{
    if i < j {
        assert(s.tasks()[i].video_id != s.tasks()[j].video_id);
    } else if j < i {
        assert(s.tasks()[j].video_id != s.tasks()[i].video_id);
    }
}

/// Law: a Completed task carries its completion time, and when its total
/// length is known it has received exactly that many bytes.
pub proof fn lemma_completed_task_consistent(s: StoreState, i: int)
    requires
        s.wf(),
        0 <= i < s.tasks().len(),
        s.tasks()[i].status is Completed,
    ensures
        s.tasks()[i].completed_at is Some,
        s.tasks()[i].total_bytes > 0 ==> s.tasks()[i].downloaded_bytes == s.tasks()[i].total_bytes,
{
}

/// Law: `pause_all_downloads` followed by `resume_all_downloads` leaves
/// every task that was Downloading or Queued at the start Downloading
/// again (not necessarily in the sub-state it held before).
pub proof fn lemma_pause_all_then_resume_all(m: RecordModel, now1: int, now2: int)
    requires
        m.status is Downloading || m.status is Queued,
    ensures
        spec_resume_all(spec_pause_all(m, now1), now2).status is Downloading,
{
}

/// Law, over whole stores: after `pause_all_downloads` took `s0` to `s1`
/// and `resume_all_downloads` took `s1` to `s2`, every task that was
/// Downloading or Queued in `s0` is Downloading in `s2`.
pub proof fn lemma_pause_all_then_resume_all_store(
    s0: StoreState,
    s1: StoreState,
    s2: StoreState,
    now1: int,
    now2: int,
)
    requires
        s1.tasks().len() == s0.tasks().len(),
        s2.tasks().len() == s1.tasks().len(),
        forall|i: int|
            0 <= i < s0.tasks().len() ==> #[trigger] s1.tasks()[i] == spec_pause_all(
                s0.tasks()[i],
                now1,
            ),
        forall|i: int|
            0 <= i < s1.tasks().len() ==> #[trigger] s2.tasks()[i] == spec_resume_all(
                s1.tasks()[i],
                now2,
            ),
    ensures
        forall|i: int|
            0 <= i < s0.tasks().len() && (s0.tasks()[i].status is Downloading
                || s0.tasks()[i].status is Queued) ==> (#[trigger] s2.tasks()[i]).status
                is Downloading,
{
    assert forall|i: int|
        0 <= i < s0.tasks().len() && (s0.tasks()[i].status is Downloading
            || s0.tasks()[i].status is Queued) implies (#[trigger] s2.tasks()[i]).status
        is Downloading by {
        lemma_pause_all_then_resume_all(s0.tasks()[i], now1, now2);
    }
}

/// Law: a restart — the startup demotion of Downloading tasks to Queued,
/// followed by the queued sweep — leaves a well-formed task that was
/// Downloading Downloading again with a non-empty save path, never stuck
/// at Queued (the record invariant makes every stored path non-empty).
pub proof fn lemma_restart_recovers(m: RecordModel, data_dir: Seq<char>, now: int)
    requires
        crate::task::record_wf(m),
        m.status is Downloading,
    ensures
        spec_sweep(spec_reset_running(m), data_dir, now).status is Downloading,
        spec_sweep(spec_reset_running(m), data_dir, now).save_path matches Some(p) && p.len() > 0,
{
    let demoted = spec_reset_running(m);
    assert(demoted.status is Queued);
    let path = spec_sweep_path(demoted, data_dir);
    match m.save_path {
        Some(p) => {
            assert(path == p);
        },
        None => {
            reveal_strlit("/downloads/");
            assert(path.len() >= "/downloads/"@.len());
        },
    }
}

/// Law, over whole stores: after the startup demotion took a well-formed
/// `s0` to `s1` and the queued sweep took `s1` to `s2`, every task left
/// Downloading in `s0` is Downloading in `s2` with a non-empty save path —
/// never stuck at Queued.
pub proof fn lemma_restart_recovers_store(
    s0: StoreState,
    s1: StoreState,
    s2: StoreState,
    data_dir: Seq<char>,
    now: int,
)
    requires
        s0.wf(),
        s1.tasks().len() == s0.tasks().len(),
        s2.tasks().len() == s1.tasks().len(),
        forall|i: int|
            0 <= i < s0.tasks().len() ==> #[trigger] s1.tasks()[i] == spec_reset_running(
                s0.tasks()[i],
            ),
        forall|i: int|
            0 <= i < s1.tasks().len() ==> #[trigger] s2.tasks()[i] == spec_sweep(
                s1.tasks()[i],
                data_dir,
                now,
            ),
    ensures
        forall|i: int|
            0 <= i < s0.tasks().len() && s0.tasks()[i].status is Downloading ==> (
            #[trigger] s2.tasks()[i]).status is Downloading && (s2.tasks()[i].save_path matches Some(
                p,
            ) && p.len() > 0),
{
    assert forall|i: int|
        0 <= i < s0.tasks().len() && s0.tasks()[i].status is Downloading implies (
    #[trigger] s2.tasks()[i]).status is Downloading && (s2.tasks()[i].save_path matches Some(p)
        && p.len() > 0) by {
        lemma_restart_recovers(s0.tasks()[i], data_dir, now);
    }
}

} // verus!
