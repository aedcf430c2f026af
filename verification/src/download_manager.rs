//! The download coordinator: it resolves destination names and
//! directories, builds descriptors, drives one transfer attempt per URL,
//! and records every outcome in the resume store.
//!
//! Transfers here are driven by the event sequence each URL's transport
//! reports; per-URL failure never aborts a sibling transfer.

use vstd::prelude::*;

use crate::db::ResumeDb;
use crate::download::{
    begun_model, events_ok_at, has_fault, lemma_events_ok_at, new_model, run_model, sum_chunks,
    DescriptorModel, Download, DownloadStatus, TransferEvent, TransferMode,
};
use crate::error::DownloadError;

verus! {

/// The explicit name for the URL at `idx` of `n_urls`: names apply only
/// when one was supplied for every URL, in URL order.
pub open spec fn name_for(names: Option<Seq<Seq<char>>>, idx: int, n_urls: int) -> Option<
    Seq<char>,
> {
    match names {
        Some(ns) => if ns.len() == n_urls {
            Some(ns[idx])
        } else {
            None
        },
        None => None,
    }
}

/// The explicit directory for the URL at `idx` of `n_urls`: one
/// directory is shared by the whole batch, a directory per URL applies
/// in URL order, and any other count applies to none.
pub open spec fn dir_for(paths: Option<Seq<Seq<char>>>, idx: int, n_urls: int) -> Option<
    Seq<char>,
> {
    match paths {
        Some(ps) => if ps.len() == 1 {
            Some(ps[0])
        } else if ps.len() == n_urls {
            Some(ps[idx])
        } else {
            None
        },
        None => None,
    }
}

/// The element at `idx`, where a too-short list supplies none.
pub open spec fn nth_of(items: Option<Seq<Seq<char>>>, idx: int) -> Option<Seq<char>> {
    match items {
        Some(s) => if 0 <= idx < s.len() {
            Some(s[idx])
        } else {
            None
        },
        None => None,
    }
}

/// The explicit file name for one URL of a batch, per [`name_for`].
pub fn resolve_name(file_names: &Option<Vec<String>>, idx: usize, n_urls: usize) -> (r: Option<
    String,
>)
    requires
        idx < n_urls,
    ensures
        r.deep_view() == name_for(file_names.deep_view(), idx as int, n_urls as int),
{
    match file_names {
        Some(ns) => if ns.len() == n_urls {
            Some(ns[idx].clone())
        } else {
            None
        },
        None => None,
    }
}

/// The explicit directory for one URL of a batch, per [`dir_for`].
pub fn resolve_dir(file_paths: &Option<Vec<String>>, idx: usize, n_urls: usize) -> (r: Option<
    String,
>)
    requires
        idx < n_urls,
    ensures
        r.deep_view() == dir_for(file_paths.deep_view(), idx as int, n_urls as int),
{
    match file_paths {
        Some(ps) => if ps.len() == 1 {
            Some(ps[0].clone())
        } else if ps.len() == n_urls {
            Some(ps[idx].clone())
        } else {
            None
        },
        None => None,
    }
}

/// Run one fresh transfer: build a descriptor unless one is supplied,
/// then drive it through the transport's events. The returned
/// descriptor carries the attempt's outcome in its status; an error is
/// returned only when no descriptor could be built.
pub fn download_single(
    url: String,
    file_path: Option<String>,
    file_name: Option<String>,
    download: Option<Download>,
    default_dir: Option<String>,
    events: &Vec<TransferEvent>,
) -> (r: Result<Download, DownloadError>)
    requires
        download matches Some(d) ==> d.wf() && d@.status is Pending,
        events_ok_at(0, events@),
    ensures
        r is Ok <==> download is Some || (!Download::name_unresolvable(
            url@,
            file_name.deep_view(),
        ) && !Download::dir_unresolvable(file_path.deep_view(), default_dir.deep_view())),
        r matches Ok(out) ==> out@ == run_model(
            begun_model(
                match download {
                    Some(d) => d@,
                    None => new_model(
                        url@,
                        file_name.deep_view(),
                        match file_path {
                            Some(p) => p@,
                            None => default_dir->0@,
                        },
                    ),
                },
                0,
            ),
            events@,
        ) && out.wf(),
        !has_fault(events@) ==> (r matches Ok(out) ==> out@.status is Completed
            && out@.bytes_transferred == sum_chunks(events@)),
        has_fault(events@) ==> (r matches Ok(out) ==> out@.status is Failed),
        r matches Err(e) ==> e == if Download::name_unresolvable(url@, file_name.deep_view()) {
            DownloadError::InvalidDestination
        } else {
            DownloadError::ConfigDirUnavailable
        },
{
    let mut d = match download {
        Some(d) => d,
        None => match Download::new(url, file_name, file_path, default_dir) {
            Ok(d) => d,
            Err(e) => {
                return Err(e);
            },
        },
    };
    proof {
        lemma_events_ok_at(d@, 0, events@);
    }
    d.execute(TransferMode::Fresh, events);
    Ok(d)
}

/// Run one resumed transfer. Resume needs a destination (a file path
/// and file name) and an existing partial file, whose length is the
/// resume offset; the transfer then appends from that offset onward.
pub fn download_single_resume(
    url: &str,
    file_path: Option<String>,
    file_name: Option<String>,
    download: Option<Download>,
    existing_len: Option<u64>,
    events: &Vec<TransferEvent>,
) -> (r: Result<Download, DownloadError>)
    requires
        download matches Some(d) ==> d.wf() && !(d@.status is Completed),
        existing_len matches Some(n) ==> events_ok_at(n, events@),
    ensures
        r is Ok <==> file_path is Some && file_name is Some && existing_len is Some,
        r matches Ok(out) ==> out@ == run_model(
            begun_model(
                match download {
                    Some(d) => d@,
                    None => new_model(url@, file_name.deep_view(), file_path->0@),
                },
                existing_len->0,
            ),
            events@,
        ) && out.wf(),
        r matches Err(e) ==> e == if file_path is None || file_name is None {
            DownloadError::CannotResumeWithoutDestination
        } else {
            DownloadError::ResumeTargetMissing
        },
{
    if file_path.is_none() || file_name.is_none() {
        return Err(DownloadError::CannotResumeWithoutDestination);
    }
    let offset = match existing_len {
        Some(n) => n,
        None => {
            return Err(DownloadError::ResumeTargetMissing);
        },
    };
    let mut d = match download {
        Some(d) => d,
        None => match Download::new(url.to_owned(), file_name, file_path, None) {
            Ok(d) => d,
            Err(e) => {
                return Err(e);
            },
        },
    };
    proof {
        lemma_events_ok_at(d@, offset, events@);
    }
    d.execute(TransferMode::Resume(offset), events);
    Ok(d)
}

/// A copy of an optional string, preserving its view.
fn clone_opt_string(o: &Option<String>) -> (r: Option<String>)
    ensures
        r.deep_view() == o.deep_view(),
{
    match o {
        Some(s) => Some(s.clone()),
        None => None,
    }
}

/// The element of an optional list at `idx`, per [`nth_of`].
fn nth_item(items: &Option<Vec<String>>, idx: usize) -> (r: Option<String>)
    ensures
        r.deep_view() == nth_of(items.deep_view(), idx as int),
{
    match items {
        Some(s) => if idx < s.len() {
            Some(s[idx].clone())
        } else {
            None
        },
        None => None,
    }
}

/// What one URL's outcome in a fresh batch must be, as a function of
/// that URL's own inputs and events alone.
pub open spec fn outcome_matches(
    r: Result<Download, DownloadError>,
    url: Seq<char>,
    name: Option<Seq<char>>,
    dir: Option<Seq<char>>,
    default_dir: Option<Seq<char>>,
    events: Seq<TransferEvent>,
) -> bool {
    let resolved_dir = if dir is Some {
        dir
    } else {
        default_dir
    };
    match r {
        Ok(d) => {
            &&& !Download::name_unresolvable(url, name)
            &&& resolved_dir is Some
            &&& d@ == run_model(begun_model(new_model(url, name, resolved_dir->0), 0), events)
        },
        Err(e) => {
            ||| Download::name_unresolvable(url, name) && e == DownloadError::InvalidDestination
            ||| !Download::name_unresolvable(url, name) && resolved_dir is None && e
                == DownloadError::ConfigDirUnavailable
        },
    }
}

/// What one URL's outcome in a resumed batch must be, as a function of
/// that URL's own inputs and events alone.
pub open spec fn resume_outcome_matches(
    r: Result<Download, DownloadError>,
    url: Seq<char>,
    name_at: Option<Seq<char>>,
    path_at: Option<Seq<char>>,
    len_at: Option<u64>,
    events: Seq<TransferEvent>,
) -> bool {
    match r {
        Ok(d) => {
            &&& name_at is Some && path_at is Some && len_at is Some
            &&& d@ == run_model(
                begun_model(new_model(url, name_at, path_at->0), len_at->0),
                events,
            )
        },
        Err(e) => {
            ||| (name_at is None || path_at is None) && e
                == DownloadError::CannotResumeWithoutDestination
            ||| name_at is Some && path_at is Some && len_at is None && e
                == DownloadError::ResumeTargetMissing
        },
    }
}

/// Failure isolation: a URL's batch outcome is a function of that URL's
/// own inputs and events alone, so any two batches that agree on them
/// agree on the URL's outcome, whatever happened to sibling transfers.
pub proof fn lemma_failure_isolation(
    r1: Result<Download, DownloadError>,
    r2: Result<Download, DownloadError>,
    url: Seq<char>,
    name: Option<Seq<char>>,
    dir: Option<Seq<char>>,
    default_dir: Option<Seq<char>>,
    events: Seq<TransferEvent>,
)
    requires
        outcome_matches(r1, url, name, dir, default_dir, events),
        outcome_matches(r2, url, name, dir, default_dir, events),
    ensures
        match (r1, r2) {
            (Ok(a), Ok(b)) => a@ == b@,
            (Err(a), Err(b)) => a == b,
            _ => false,
        },
{
}

/// Run a whole fresh batch, one outcome per URL in input order. Each
/// outcome is a function of its own URL's inputs and events alone, so
/// one URL's failure never touches a sibling's outcome.
pub fn download_multi(
    urls: &Vec<String>,
    file_path: &Option<Vec<String>>,
    file_names: &Option<Vec<String>>,
    default_dir: &Option<String>,
    events: &Vec<Vec<TransferEvent>>,
) -> (outcomes: Vec<Result<Download, DownloadError>>)
    requires
        events@.len() == urls@.len(),
        forall|i: int| 0 <= i < events@.len() ==> events_ok_at(0, (#[trigger] events@[i])@),
    ensures
        outcomes@.len() == urls@.len(),
        forall|i: int|
            0 <= i < urls@.len() ==> outcome_matches(
                #[trigger] outcomes@[i],
                urls@[i]@,
                name_for(file_names.deep_view(), i, urls@.len() as int),
                dir_for(file_path.deep_view(), i, urls@.len() as int),
                default_dir.deep_view(),
                events@[i]@,
            ),
        forall|i: int|
            0 <= i < urls@.len() ==> ((#[trigger] outcomes@[i]) matches Ok(d) ==> d.wf()),
{
    let n = urls.len();
    let mut outcomes: Vec<Result<Download, DownloadError>> = Vec::new();
    let mut i: usize = 0;
    while i < n
        invariant
            0 <= i <= n,
            n == urls@.len(),
            events@.len() == urls@.len(),
            forall|k: int| 0 <= k < events@.len() ==> events_ok_at(0, (#[trigger] events@[k])@),
            outcomes@.len() == i,
            forall|k: int|
                0 <= k < i ==> outcome_matches(
                    #[trigger] outcomes@[k],
                    urls@[k]@,
                    name_for(file_names.deep_view(), k, urls@.len() as int),
                    dir_for(file_path.deep_view(), k, urls@.len() as int),
                    default_dir.deep_view(),
                    events@[k]@,
                ),
            forall|k: int| 0 <= k < i ==> ((#[trigger] outcomes@[k]) matches Ok(d) ==> d.wf()),
        decreases n - i,
    {
        let name_i = resolve_name(file_names, i, n);
        let dir_i = resolve_dir(file_path, i, n);
        let r = download_single(
            urls[i].clone(),
            dir_i,
            name_i,
            None,
            clone_opt_string(default_dir),
            &events[i],
        );
        outcomes.push(r);
        i = i + 1;
    }
    outcomes
}

/// Run a whole resumed batch. Resume needs a file path list and a file
/// name list; each URL then takes the path, name, and partial-file
/// length at its own position, and a URL whose position is missing from
/// either list fails alone, without touching its siblings.
pub fn download_multi_resume(
    urls: &Vec<String>,
    file_paths: &Option<Vec<String>>,
    file_names: &Option<Vec<String>>,
    existing_lens: &Vec<Option<u64>>,
    events: &Vec<Vec<TransferEvent>>,
) -> (r: Result<Vec<Result<Download, DownloadError>>, DownloadError>)
    requires
        events@.len() == urls@.len(),
        existing_lens@.len() == urls@.len(),
        forall|i: int|
            0 <= i < urls@.len() ==> ((#[trigger] existing_lens@[i]) matches Some(k)
                ==> events_ok_at(k, events@[i]@)),
    ensures
        r is Ok <==> file_paths is Some && file_names is Some,
        r matches Err(e) ==> e == DownloadError::CannotResumeWithoutDestination,
        r matches Ok(outcomes) ==> outcomes@.len() == urls@.len() && (forall|i: int|
            0 <= i < urls@.len() ==> resume_outcome_matches(
                #[trigger] outcomes@[i],
                urls@[i]@,
                nth_of(file_names.deep_view(), i),
                nth_of(file_paths.deep_view(), i),
                existing_lens@[i],
                events@[i]@,
            )),
        r matches Ok(outcomes) ==> forall|i: int|
            0 <= i < urls@.len() ==> ((#[trigger] outcomes@[i]) matches Ok(d) ==> d.wf()),
{
    if file_paths.is_none() || file_names.is_none() {
        return Err(DownloadError::CannotResumeWithoutDestination);
    }
    let n = urls.len();
    let mut outcomes: Vec<Result<Download, DownloadError>> = Vec::new();
    let mut i: usize = 0;
    while i < n
        invariant
            0 <= i <= n,
            n == urls@.len(),
            events@.len() == urls@.len(),
            existing_lens@.len() == urls@.len(),
            forall|k: int|
                0 <= k < urls@.len() ==> ((#[trigger] existing_lens@[k]) matches Some(m)
                    ==> events_ok_at(m, events@[k]@)),
            outcomes@.len() == i,
            forall|k: int|
                0 <= k < i ==> resume_outcome_matches(
                    #[trigger] outcomes@[k],
                    urls@[k]@,
                    nth_of(file_names.deep_view(), k),
                    nth_of(file_paths.deep_view(), k),
                    existing_lens@[k],
                    events@[k]@,
                ),
            forall|k: int| 0 <= k < i ==> ((#[trigger] outcomes@[k]) matches Ok(d) ==> d.wf()),
        decreases n - i,
    {
        let name_i = nth_item(file_names, i);
        let path_i = nth_item(file_paths, i);
        let r_i = download_single_resume(
            urls[i].as_str(),
            path_i,
            name_i,
            None,
            existing_lens[i],
            &events[i],
        );
        outcomes.push(r_i);
        i = i + 1;
    }
    Ok(outcomes)
}

/// The store after a batch: each successful attempt's final descriptor
/// state overwrites the record of its URL, in outcome order; failed
/// plans leave the store alone.
pub open spec fn store_after(
    m: Map<Seq<char>, DescriptorModel>,
    outcomes: Seq<Result<Download, DownloadError>>,
) -> Map<Seq<char>, DescriptorModel>
    decreases outcomes.len(),
{
    if outcomes.len() == 0 {
        m
    } else {
        let rest = store_after(m, outcomes.drop_last());
        match outcomes.last() {
            Ok(d) => rest.insert(d@.url, d@),
            Err(_) => rest,
        }
    }
}

/// The first element of an optional list, if the list is non-empty.
pub open spec fn first_of(items: Option<Seq<Seq<char>>>) -> Option<Seq<char>> {
    match items {
        Some(s) => if s.len() > 0 {
            Some(s[0])
        } else {
            None
        },
        None => None,
    }
}

/// What a resume served from the store must yield for one URL: the
/// stored record supplies the descriptor, a record that is absent or
/// already completed offers nothing resumable, and a missing partial
/// file cannot be appended to.
pub open spec fn resume_store_outcome_matches(
    r: Result<Download, DownloadError>,
    db: Map<Seq<char>, DescriptorModel>,
    url: Seq<char>,
    len_at: Option<u64>,
    events: Seq<TransferEvent>,
) -> bool {
    let resumable = db.contains_key(url) && !(db[url].status is Completed);
    match r {
        Ok(d) => {
            &&& resumable && len_at is Some
            &&& d@ == run_model(begun_model(db[url], len_at->0), events)
        },
        Err(e) => {
            ||| !resumable && e == DownloadError::CannotResumeWithoutDestination
            ||| resumable && len_at is None && e == DownloadError::ResumeTargetMissing
        },
    }
}

/// Relies on dirs::download_dir for the platform download directory;
/// nothing is promised of the result, which depends on the environment.
#[verifier::external_body]
pub(crate) fn platform_download_dir() -> (r: Option<String>) {
    dirs::download_dir().map(|p| p.to_string_lossy().to_string())
}

/// The coordinator: it owns the resume store and the default download
/// directory for the run, dispatches fresh and resumed batches, and
/// records every outcome in the store.
pub struct DownloadManager {
    pub db: ResumeDb,
    pub default_dir: Option<String>,
}

impl DownloadManager {
    pub open spec fn wf(self) -> bool {
        self.db.wf()
    }

    /// A manager with an empty store, defaulting destinations to the
    /// platform download directory.
    pub fn new() -> (r: DownloadManager)
        ensures
            r.db@ == Map::<Seq<char>, DescriptorModel>::empty(),
            r.wf(),
    {
        DownloadManager { db: ResumeDb::new(), default_dir: platform_download_dir() }
    }

    /// A manager with an empty store and an explicit default directory.
    pub fn with_default_dir(default_dir: Option<String>) -> (r: DownloadManager)
        ensures
            r.db@ == Map::<Seq<char>, DescriptorModel>::empty(),
            r.wf(),
            r.default_dir == default_dir,
    {
        DownloadManager { db: ResumeDb::new(), default_dir }
    }

    /// Record each successful attempt's final descriptor in the store.
    fn persist_outcomes(&mut self, outcomes: &Vec<Result<Download, DownloadError>>)
        requires
            old(self).wf(),
            forall|i: int|
                0 <= i < outcomes@.len() ==> ((#[trigger] outcomes@[i]) matches Ok(d) ==> d.wf()),
        ensures
            final(self).wf(),
            final(self).default_dir == old(self).default_dir,
            final(self).db@ == store_after(old(self).db@, outcomes@),
    {
        let ghost db0 = self.db@;
        let n = outcomes.len();
        let mut i: usize = 0;
        proof {
            assert(outcomes@.take(0) =~= Seq::<Result<Download, DownloadError>>::empty());
        }
        while i < n
            invariant
                0 <= i <= n,
                n == outcomes@.len(),
                forall|k: int|
                    0 <= k < outcomes@.len() ==> ((#[trigger] outcomes@[k]) matches Ok(d)
                        ==> d.wf()),
                self.wf(),
                self.default_dir == old(self).default_dir,
                db0 == old(self).db@,
                self.db@ == store_after(db0, outcomes@.take(i as int)),
            decreases n - i,
        {
            proof {
                assert(outcomes@.take(i as int + 1).drop_last() =~= outcomes@.take(i as int));
                assert(outcomes@.take(i as int + 1).last() == outcomes@[i as int]);
            }
            match &outcomes[i] {
                Ok(d) => {
                    let _ = self.db.update_resume(d);
                },
                Err(_) => {},
            }
            i = i + 1;
        }
        proof {
            assert(outcomes@.take(n as int) =~= outcomes@);
        }
    }

    /// Dispatch one run: a single URL, or a whole batch concurrently.
    /// Every outcome, success or failure, is written back to the resume
    /// store; no URL's failure aborts the run.
    pub fn download(
        &mut self,
        urls: &Vec<String>,
        file_path: &Option<Vec<String>>,
        file_names: &Option<Vec<String>>,
        multi: bool,
        events: &Vec<Vec<TransferEvent>>,
    ) -> (outcomes: Vec<Result<Download, DownloadError>>)
        requires
            old(self).wf(),
            !multi ==> urls@.len() == 1,
            events@.len() == urls@.len(),
            forall|i: int| 0 <= i < events@.len() ==> events_ok_at(0, (#[trigger] events@[i])@),
        ensures
            final(self).wf(),
            final(self).default_dir == old(self).default_dir,
            outcomes@.len() == urls@.len(),
            forall|i: int|
                0 <= i < urls@.len() ==> outcome_matches(
                    #[trigger] outcomes@[i],
                    urls@[i]@,
                    if multi {
                        name_for(file_names.deep_view(), i, urls@.len() as int)
                    } else {
                        first_of(file_names.deep_view())
                    },
                    if multi {
                        dir_for(file_path.deep_view(), i, urls@.len() as int)
                    } else {
                        first_of(file_path.deep_view())
                    },
                    old(self).default_dir.deep_view(),
                    events@[i]@,
                ),
            forall|i: int|
                0 <= i < urls@.len() ==> ((#[trigger] outcomes@[i]) matches Ok(d) ==> d.wf()),
            final(self).db@ == store_after(old(self).db@, outcomes@),
    {
        let outcomes: Vec<Result<Download, DownloadError>> = if multi {
            download_multi(urls, file_path, file_names, &self.default_dir, events)
        } else {
            let name0 = nth_item(file_names, 0);
            let path0 = nth_item(file_path, 0);
            let r = download_single(
                urls[0].clone(),
                path0,
                name0,
                None,
                clone_opt_string(&self.default_dir),
                &events[0],
            );
            let mut v: Vec<Result<Download, DownloadError>> = Vec::new();
            v.push(r);
            v
        };
        self.persist_outcomes(&outcomes);
        outcomes
    }

    /// Resume one URL or a whole batch from the store: each URL's own
    /// record supplies its destination and descriptor, and each outcome
    /// is written back. A URL with no resumable record fails alone.
    pub fn resume_download(
        &mut self,
        urls: &Vec<String>,
        multi: bool,
        existing_lens: &Vec<Option<u64>>,
        events: &Vec<Vec<TransferEvent>>,
    ) -> (outcomes: Vec<Result<Download, DownloadError>>)
        requires
            old(self).wf(),
            !multi ==> urls@.len() == 1,
            events@.len() == urls@.len(),
            existing_lens@.len() == urls@.len(),
            forall|i: int|
                0 <= i < urls@.len() ==> ((#[trigger] existing_lens@[i]) matches Some(k)
                    ==> events_ok_at(k, events@[i]@)),
        ensures
            final(self).wf(),
            final(self).default_dir == old(self).default_dir,
            outcomes@.len() == urls@.len(),
            forall|i: int|
                0 <= i < urls@.len() ==> resume_store_outcome_matches(
                    #[trigger] outcomes@[i],
                    old(self).db@,
                    urls@[i]@,
                    existing_lens@[i],
                    events@[i]@,
                ),
            forall|i: int|
                0 <= i < urls@.len() ==> ((#[trigger] outcomes@[i]) matches Ok(d) ==> d.wf()),
            final(self).db@ == store_after(old(self).db@, outcomes@),
    {
        let ghost db0 = self.db@;
        let n = urls.len();
        let mut outcomes: Vec<Result<Download, DownloadError>> = Vec::new();
        let mut i: usize = 0;
        while i < n
            invariant
                0 <= i <= n,
                n == urls@.len(),
                events@.len() == urls@.len(),
                existing_lens@.len() == urls@.len(),
                forall|k: int|
                    0 <= k < urls@.len() ==> ((#[trigger] existing_lens@[k]) matches Some(m)
                        ==> events_ok_at(m, events@[k]@)),
                self.wf(),
                self == old(self),
                db0 == old(self).db@,
                outcomes@.len() == i,
                forall|k: int|
                    0 <= k < i ==> resume_store_outcome_matches(
                        #[trigger] outcomes@[k],
                        db0,
                        urls@[k]@,
                        existing_lens@[k],
                        events@[k]@,
                    ),
                forall|k: int| 0 <= k < i ==> ((#[trigger] outcomes@[k]) matches Ok(d) ==> d.wf()),
            decreases n - i,
        {
            let r_i: Result<Download, DownloadError> = match self.db.get_resume(&urls[i]) {
                Some(d) => {
                    if d.status == DownloadStatus::Completed {
                        Err(DownloadError::CannotResumeWithoutDestination)
                    } else {
                        match existing_lens[i] {
                            Some(k) => {
                                let mut dd = d;
                                proof {
                                    lemma_events_ok_at(dd@, k, events@[i as int]@);
                                }
                                dd.execute(TransferMode::Resume(k), &events[i]);
                                Ok(dd)
                            },
                            None => Err(DownloadError::ResumeTargetMissing),
                        }
                    }
                },
                None => Err(DownloadError::CannotResumeWithoutDestination),
            };
            outcomes.push(r_i);
            i = i + 1;
        }
        self.persist_outcomes(&outcomes);
        outcomes
    }
}

} // verus!
