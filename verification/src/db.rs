//! The resume store: a durable-style keyed mapping from URL to the
//! last-known descriptor state, with one record per URL.
//!
//! The store is modelled as a vector of records whose URLs are unique;
//! its view is the map from URL to descriptor state. A database-backed
//! variant with the same record layout persists rows encoded with
//! [`crate::download::status_to_text`] and [`error_text`], and decodes
//! them with [`record_from_row`].

use vstd::prelude::*;

use crate::download::{
    status_of_text, status_from_text, Download, DownloadStatus, DescriptorModel,
};
use crate::error::DownloadError;

verus! {

use vstd::string::StringExecFns;

/// The map a record vector denotes: later records overwrite earlier
/// ones with the same URL (with unique URLs, none does).
pub open spec fn records_map(s: Seq<Download>) -> Map<Seq<char>, DescriptorModel>
    decreases s.len(),
{
    if s.len() == 0 {
        Map::empty()
    } else {
        records_map(s.drop_last()).insert(s.last()@.url, s.last()@)
    }
}

/// A URL is in the map exactly when some record carries it.
proof fn lemma_records_map_contains(s: Seq<Download>, url: Seq<char>)
    ensures
        records_map(s).contains_key(url) <==> exists|i: int| 0 <= i < s.len() && s[i]@.url == url,
    decreases s.len(),
{
    if s.len() > 0 {
        lemma_records_map_contains(s.drop_last(), url);
        if s.last()@.url == url {
            assert(s[s.len() - 1]@.url == url);
        } else if records_map(s).contains_key(url) {
            let i = choose|i: int| 0 <= i < s.drop_last().len() && s.drop_last()[i]@.url == url;
            assert(s[i]@.url == url);
        } else {
            assert forall|i: int| 0 <= i < s.len() implies s[i]@.url != url by {
                if i < s.len() - 1 {
                    assert(s.drop_last()[i]@.url != url);
                }
            }
        }
    }
}

/// With unique URLs, the map sends each record's URL to that record.
proof fn lemma_records_map_index(s: Seq<Download>, i: int)
    requires
        urls_unique(s),
        0 <= i < s.len(),
    ensures
        records_map(s).contains_key(s[i]@.url),
        records_map(s)[s[i]@.url] == s[i]@,
    decreases s.len(),
{
    if i == s.len() - 1 {
    } else {
        assert(urls_unique(s.drop_last())) by {
            assert forall|p: int, q: int|
                0 <= p < q < s.drop_last().len() implies s.drop_last()[p]@.url
                != s.drop_last()[q]@.url by {
                assert(s[p]@.url != s[q]@.url);
            }
        }
        assert(s.drop_last()[i] == s[i]);
        lemma_records_map_index(s.drop_last(), i);
    }
}

/// No two records share a URL.
pub open spec fn urls_unique(s: Seq<Download>) -> bool {
    forall|i: int, j: int| 0 <= i < j < s.len() ==> s[i]@.url != s[j]@.url
}

/// The resume store: one record per URL, keyed by exact URL match.
pub struct ResumeDb {
    records: Vec<Download>,
}

impl View for ResumeDb {
    type V = Map<Seq<char>, DescriptorModel>;

    closed spec fn view(&self) -> Map<Seq<char>, DescriptorModel> {
        records_map(self.records@)
    }
}

impl ResumeDb {
    pub closed spec fn wf(self) -> bool {
        &&& urls_unique(self.records@)
        &&& forall|i: int| 0 <= i < self.records@.len() ==> (#[trigger] self.records@[i]).wf()
    }

    /// An empty store.
    pub fn new() -> (r: ResumeDb)
        ensures
            r@ == Map::<Seq<char>, DescriptorModel>::empty(),
            r.wf(),
    {
        ResumeDb { records: Vec::new() }
    }

    /// The index of the record for `url`, if one exists.
    fn find(&self, url: &String) -> (r: Option<usize>)
        ensures
            match r {
                Some(i) => i < self.records@.len() && self.records@[i as int]@.url == url@,
                None => forall|j: int|
                    0 <= j < self.records@.len() ==> self.records@[j]@.url != url@,
            },
    {
        let n = self.records.len();
        let mut i: usize = 0;
        while i < n
            invariant
                n == self.records@.len(),
                0 <= i <= n,
                forall|j: int| 0 <= j < i ==> self.records@[j]@.url != url@,
            decreases n - i,
        {
            if self.records[i].url == *url {
                return Some(i);
            }
            i = i + 1;
        }
        None
    }

    /// Insert-or-overwrite the record for `download`'s URL.
    pub fn create_resume(&mut self, download: &Download) -> (r: Result<(), DownloadError>)
        requires
            old(self).wf(),
            download.wf(),
        ensures
            r is Ok,
            final(self)@ == old(self)@.insert(download@.url, download@),
            final(self).wf(),
    {
        let ghost s0 = self.records@;
        match self.find(&download.url) {
            Some(i) => {
                self.records[i] = download.duplicate();
                proof {
                    lemma_records_map_update(s0, i as int, self.records@[i as int]);
                    assert forall|p: int, q: int|
                        0 <= p < q < self.records@.len() implies self.records@[p]@.url
                        != self.records@[q]@.url by {
                        assert(s0[p]@.url != s0[q]@.url);
                    }
                }
            },
            None => {
                self.records.push(download.duplicate());
                proof {
                    assert(self.records@.drop_last() =~= s0);
                    assert forall|p: int, q: int|
                        0 <= p < q < self.records@.len() implies self.records@[p]@.url
                        != self.records@[q]@.url by {
                        if q < s0.len() {
                            assert(s0[p]@.url != s0[q]@.url);
                        } else {
                            assert(s0[p]@.url != download@.url);
                        }
                    }
                }
            },
        }
        Ok(())
    }

    /// Overwrite the record for `download`'s URL; with no existing
    /// record this behaves as an insert.
    pub fn update_resume(&mut self, download: &Download) -> (r: Result<(), DownloadError>)
        requires
            old(self).wf(),
            download.wf(),
        ensures
            r is Ok,
            final(self)@ == old(self)@.insert(download@.url, download@),
            final(self).wf(),
    {
        self.create_resume(download)
    }

    /// The record for `url`, if one exists; absence is not an error.
    pub fn get_resume(&self, url: &String) -> (r: Option<Download>)
        requires
            self.wf(),
        ensures
            match r {
                Some(d) => self@.contains_key(url@) && d@ == self@[url@] && d.wf(),
                None => !self@.contains_key(url@),
            },
    {
        proof {
            lemma_records_map_contains(self.records@, url@);
        }
        match self.find(url) {
            Some(i) => {
                proof {
                    lemma_records_map_index(self.records@, i as int);
                }
                Some(self.records[i].duplicate())
            },
            None => None,
        }
    }

    /// Remove the record for `download`'s URL; removing an absent
    /// record is not an error.
    pub fn delete_resume(&mut self, download: &Download) -> (r: Result<(), DownloadError>)
        requires
            old(self).wf(),
        ensures
            r is Ok,
            final(self)@ == old(self)@.remove(download@.url),
            final(self).wf(),
    {
        let ghost s0 = self.records@;
        proof {
            lemma_records_map_contains(s0, download@.url);
        }
        match self.find(&download.url) {
            Some(i) => {
                self.records.remove(i);
                proof {
                    lemma_records_map_remove(s0, i as int);
                    assert forall|p: int, q: int|
                        0 <= p < q < self.records@.len() implies self.records@[p]@.url
                        != self.records@[q]@.url by {
                        let pp = if p < i as int { p } else { p + 1 };
                        let qq = if q < i as int { q } else { q + 1 };
                        assert(self.records@[p] == s0[pp]);
                        assert(self.records@[q] == s0[qq]);
                        assert(s0[pp]@.url != s0[qq]@.url);
                    }
                }
            },
            None => {
                proof {
                    assert(old(self)@.remove(download@.url) =~= old(self)@);
                }
            },
        }
        Ok(())
    }
}

/// Overwriting the record at the position of its own URL is a map insert.
proof fn lemma_records_map_update(s: Seq<Download>, i: int, d: Download)
    requires
        urls_unique(s),
        0 <= i < s.len(),
        s[i]@.url == d@.url,
    ensures
        records_map(s.update(i, d)) == records_map(s).insert(d@.url, d@),
    decreases s.len(),
{
    let t = s.update(i, d);
    if i == s.len() - 1 {
        assert(t.drop_last() =~= s.drop_last());
        assert(t.last() == d);
        assert(records_map(s.drop_last()).insert(s.last()@.url, s.last()@).insert(d@.url, d@)
            =~= records_map(s.drop_last()).insert(d@.url, d@));
    } else {
        assert(urls_unique(s.drop_last())) by {
            assert forall|p: int, q: int|
                0 <= p < q < s.drop_last().len() implies s.drop_last()[p]@.url
                != s.drop_last()[q]@.url by {
                assert(s[p]@.url != s[q]@.url);
            }
        }
        assert(s.drop_last()[i] == s[i]);
        lemma_records_map_update(s.drop_last(), i, d);
        assert(t.drop_last() =~= s.drop_last().update(i, d));
        assert(t.last() == s.last());
        assert(s.last()@.url != d@.url) by {
            assert(s[i]@.url != s[s.len() - 1]@.url);
        }
        assert(records_map(s.drop_last()).insert(d@.url, d@).insert(s.last()@.url, s.last()@)
            =~= records_map(s.drop_last()).insert(s.last()@.url, s.last()@).insert(d@.url, d@));
    }
}

/// Removing the record at a URL's position is a map remove.
proof fn lemma_records_map_remove(s: Seq<Download>, i: int)
    requires
        urls_unique(s),
        0 <= i < s.len(),
    ensures
        records_map(s.remove(i)) == records_map(s).remove(s[i]@.url),
    decreases s.len(),
{
    let t = s.remove(i);
    assert(urls_unique(s.drop_last())) by {
        assert forall|p: int, q: int|
            0 <= p < q < s.drop_last().len() implies s.drop_last()[p]@.url
            != s.drop_last()[q]@.url by {
            assert(s[p]@.url != s[q]@.url);
        }
    }
    if i == s.len() - 1 {
        assert(t =~= s.drop_last());
        assert(!records_map(s.drop_last()).contains_key(s[i]@.url)) by {
            lemma_records_map_contains(s.drop_last(), s[i]@.url);
            assert forall|j: int|
                0 <= j < s.drop_last().len() implies s.drop_last()[j]@.url != s[i]@.url by {
                assert(s[j]@.url != s[i]@.url);
            }
        }
        assert(records_map(s.drop_last()).insert(s.last()@.url, s.last()@).remove(s[i]@.url)
            =~= records_map(s.drop_last()));
    } else {
        assert(s.drop_last()[i] == s[i]);
        lemma_records_map_remove(s.drop_last(), i);
        assert(t.drop_last() =~= s.drop_last().remove(i));
        assert(t.last() == s.last());
        assert(s.last()@.url != s[i]@.url) by {
            assert(s[i]@.url != s[s.len() - 1]@.url);
        }
        assert(records_map(s.drop_last()).remove(s[i]@.url).insert(s.last()@.url, s.last()@)
            =~= records_map(s.drop_last()).insert(s.last()@.url, s.last()@).remove(s[i]@.url));
    }
}

/// Store round trip: inserting a record and reading its URL returns the
/// identical record; removing a URL and reading it returns absence.
pub proof fn lemma_store_round_trip(db: ResumeDb, d: Download, url: Seq<char>)
    ensures
        db@.insert(d@.url, d@).contains_key(d@.url),
        db@.insert(d@.url, d@)[d@.url] == d@,
        !db@.remove(url).contains_key(url),
{
}

/// The error column of a persisted row: empty text stands for no error.
pub open spec fn row_error(error: Seq<char>) -> Option<Seq<char>> {
    if error.len() == 0 {
        None
    } else {
        Some(error)
    }
}

/// The descriptor state a persisted row denotes, if the row is a valid
/// encoding: the status column must decode, and a recorded error is
/// consistent only with a failed status. Counters are not persisted, so
/// a decoded record starts with no progress.
pub open spec fn row_decodes(
    url: Seq<char>,
    file_name: Seq<char>,
    file_path: Seq<char>,
    status: Seq<char>,
    error: Seq<char>,
) -> Option<DescriptorModel> {
    match status_of_text(status) {
        None => None,
        Some(st) => if error.len() > 0 && !(st is Failed) {
            None
        } else {
            Some(
                DescriptorModel {
                    url,
                    file_name,
                    file_path,
                    status: st,
                    error: row_error(error),
                    bytes_expected: None,
                    bytes_transferred: 0,
                },
            )
        },
    }
}

/// The error column's text for a descriptor's error field.
pub fn error_text(error: &Option<String>) -> (r: String)
    ensures
        r@ == match error {
            Some(e) => e@,
            None => Seq::<char>::empty(),
        },
{
    match error {
        Some(e) => e.clone(),
        None => String::new(),
    }
}

/// Decode one persisted row into a descriptor; `None` when the row is
/// no valid encoding.
pub fn record_from_row(
    url: String,
    file_name: String,
    file_path: String,
    status: &String,
    error: String,
) -> (r: Option<Download>)
    ensures
        match r {
            Some(d) => row_decodes(url@, file_name@, file_path@, status@, error@) == Some(d@)
                && d.wf(),
            None => row_decodes(url@, file_name@, file_path@, status@, error@) is None,
        },
{
    let st = match status_from_text(status) {
        Some(st) => st,
        None => {
            return None;
        },
    };
    let has_error = !error.as_str().is_empty();
    if has_error && !(st == DownloadStatus::Failed) {
        return None;
    }
    Some(
        Download {
            url,
            file_name,
            file_path,
            status: st,
            error: if has_error {
                Some(error)
            } else {
                None
            },
            bytes_expected: None,
            bytes_transferred: 0,
        },
    )
}

/// Row round trip: a well-formed descriptor whose error text is never
/// empty decodes from its own encoded columns, with the progress
/// counters reset, since rows do not persist them.
pub proof fn lemma_row_round_trip(m: DescriptorModel)
    requires
        m.wf(),
        m.error matches Some(e) ==> e.len() > 0,
    ensures
        row_decodes(
            m.url,
            m.file_name,
            m.file_path,
            crate::download::status_text(m.status),
            match m.error {
                Some(e) => e,
                None => Seq::<char>::empty(),
            },
        ) == Some(DescriptorModel { bytes_expected: None, bytes_transferred: 0, ..m }),
{
    crate::download::lemma_status_text_round_trip(m.status);
}

/// Relies on dirs::config_dir for the platform configuration directory;
/// nothing is promised of the result, which depends on the environment.
#[verifier::external_body]
pub(crate) fn platform_config_dir() -> (r: Option<String>) {
    dirs::config_dir().map(|p| p.to_string_lossy().to_string())
}

/// The path of the resume database under a configuration directory.
pub fn resume_db_path(config_dir: &str) -> (r: String)
    ensures
        r@ == config_dir@ + "/download_it/resume.db"@,
{
    let mut s: String = config_dir.to_owned();
    s.append("/download_it/resume.db");
    s
}

/// The resume database path under the platform configuration directory;
/// failure to resolve that directory is a fatal configuration error.
/// Which directory the platform supplies depends on the environment, so
/// a successful result is pinned only up to that directory: it is
/// always some directory with `/download_it/resume.db` appended.
pub fn default_resume_db_path() -> (r: Result<String, DownloadError>)
    ensures
        r matches Ok(p) ==> exists|cfg: Seq<char>|
            p@ == #[trigger] (cfg + "/download_it/resume.db"@),
        r matches Err(e) ==> e == DownloadError::ConfigDirUnavailable,
{
    match platform_config_dir() {
        Some(cfg) => {
            let p = resume_db_path(cfg.as_str());
            proof {
                assert(p@ == cfg@ + "/download_it/resume.db"@);
            }
            Ok(p)
        },
        None => Err(DownloadError::ConfigDirUnavailable),
    }
}

} // verus!
