//! Transfer descriptors and the per-transfer state machine.
//!
//! A [`Download`] carries the immutable identity of one transfer (its URL)
//! together with its mutable state: destination, status, last error, and
//! progress counters. The executor model in this module drives a descriptor
//! through `Pending -> InProgress -> {Completed | Failed}` from a sequence
//! of transfer events.

use vstd::prelude::*;

use crate::error::DownloadError;

verus! {

use vstd::string::StringExecFns;

/// The lifecycle of one transfer attempt.
#[derive(Debug, Clone, Copy)]
pub enum DownloadStatus {
    Pending,
    InProgress,
    Completed,
    Failed,
}

impl PartialEq for DownloadStatus {
    fn eq(&self, other: &Self) -> (r: bool) {
        match (self, other) {
            (DownloadStatus::Pending, DownloadStatus::Pending) => true,
            (DownloadStatus::InProgress, DownloadStatus::InProgress) => true,
            (DownloadStatus::Completed, DownloadStatus::Completed) => true,
            (DownloadStatus::Failed, DownloadStatus::Failed) => true,
            _ => false,
        }
    }
}

impl vstd::std_specs::cmp::PartialEqSpecImpl for DownloadStatus {
    open spec fn obeys_eq_spec() -> bool {
        true
    }

    open spec fn eq_spec(&self, other: &Self) -> bool {
        *self == *other
    }
}

/// The serialized text of each status, as it is kept in a resume record.
pub open spec fn status_text(s: DownloadStatus) -> Seq<char> {
    match s {
        DownloadStatus::Pending => "\"Pending\""@,
        DownloadStatus::InProgress => "\"InProgress\""@,
        DownloadStatus::Completed => "\"Completed\""@,
        DownloadStatus::Failed => "\"Failed\""@,
    }
}

/// The status encoded by a piece of text, if any.
pub open spec fn status_of_text(t: Seq<char>) -> Option<DownloadStatus> {
    if t == status_text(DownloadStatus::Pending) {
        Some(DownloadStatus::Pending)
    } else if t == status_text(DownloadStatus::InProgress) {
        Some(DownloadStatus::InProgress)
    } else if t == status_text(DownloadStatus::Completed) {
        Some(DownloadStatus::Completed)
    } else if t == status_text(DownloadStatus::Failed) {
        Some(DownloadStatus::Failed)
    } else {
        None
    }
}

/// Serialize a status for storage in a resume record.
pub fn status_to_text(s: &DownloadStatus) -> (r: String)
    ensures
        r@ == status_text(*s),
{
    match s {
        DownloadStatus::Pending => "\"Pending\"".to_owned(),
        DownloadStatus::InProgress => "\"InProgress\"".to_owned(),
        DownloadStatus::Completed => "\"Completed\"".to_owned(),
        DownloadStatus::Failed => "\"Failed\"".to_owned(),
    }
}

/// Parse the stored text of a status; `None` when the text encodes no status.
pub fn status_from_text(t: &String) -> (r: Option<DownloadStatus>)
    ensures
        r == status_of_text(t@),
{
    let pending: String = "\"Pending\"".to_owned();
    let in_progress: String = "\"InProgress\"".to_owned();
    let completed: String = "\"Completed\"".to_owned();
    let failed: String = "\"Failed\"".to_owned();
    if *t == pending {
        Some(DownloadStatus::Pending)
    } else if *t == in_progress {
        Some(DownloadStatus::InProgress)
    } else if *t == completed {
        Some(DownloadStatus::Completed)
    } else if *t == failed {
        Some(DownloadStatus::Failed)
    } else {
        None
    }
}

/// The status texts are pairwise distinct, so decoding inverts encoding.
pub proof fn lemma_status_text_round_trip(s: DownloadStatus)
    ensures
        status_of_text(status_text(s)) == Some(s),
{
    reveal_strlit("\"Pending\"");
    reveal_strlit("\"InProgress\"");
    reveal_strlit("\"Completed\"");
    reveal_strlit("\"Failed\"");
    assert(status_text(DownloadStatus::Pending).len() == 9);
    assert(status_text(DownloadStatus::InProgress).len() == 12);
    assert(status_text(DownloadStatus::Completed).len() == 11);
    assert(status_text(DownloadStatus::Failed).len() == 8);
}

/// Index of the last `/` in `s`, or `-1` when `s` holds none.
pub open spec fn last_slash(s: Seq<char>) -> int
    decreases s.len(),
{
    if s.len() == 0 {
        -1
    } else if s[s.len() - 1] == '/' {
        s.len() - 1
    } else {
        last_slash(s.drop_last())
    }
}

/// The final `/`-delimited segment of `s`: everything after the last `/`,
/// or all of `s` when it holds no `/`.
pub open spec fn last_segment(s: Seq<char>) -> Seq<char> {
    s.subrange(last_slash(s) + 1, s.len() as int)
}

pub proof fn lemma_last_slash_bounds(s: Seq<char>)
    ensures
        -1 <= last_slash(s) < s.len() as int,
    decreases s.len(),
{
    if s.len() > 0 && s[s.len() - 1] != '/' {
        lemma_last_slash_bounds(s.drop_last());
    }
}

proof fn lemma_last_slash_step(s: Seq<char>, i: int)
    requires
        0 <= i < s.len(),
    ensures
        last_slash(s.take(i + 1)) == if s[i] == '/' {
            i
        } else {
            last_slash(s.take(i))
        },
{
    let t = s.take(i + 1);
    assert(t.len() == i + 1);
    assert(t[i] == s[i]);
    if s[i] != '/' {
        assert(t.drop_last() =~= s.take(i));
    }
}

/// Positions after the last `/` hold no `/`.
proof fn lemma_no_slash_after(s: Seq<char>, i: int)
    requires
        last_slash(s) < i < s.len(),
    ensures
        s[i] != '/',
    decreases s.len(),
{
    lemma_last_slash_bounds(s);
    if i == s.len() - 1 {
    } else {
        if s[s.len() - 1] != '/' {
            lemma_no_slash_after(s.drop_last(), i);
            assert(s.drop_last()[i] == s[i]);
        }
    }
}

/// A sequence without `/` has no last `/`.
proof fn lemma_no_slash_means_none(s: Seq<char>)
    requires
        forall|i: int| 0 <= i < s.len() ==> s[i] != '/',
    ensures
        last_slash(s) == -1,
    decreases s.len(),
{
    if s.len() > 0 {
        lemma_no_slash_means_none(s.drop_last());
    }
}

/// Idempotent naming: the name derived from a URL is a fixed point of
/// derivation, so deriving again returns the same name.
pub proof fn lemma_idempotent_naming(url: Seq<char>)
    ensures
        last_segment(last_segment(url)) == last_segment(url),
{
    let seg = last_segment(url);
    lemma_last_slash_bounds(url);
    assert forall|i: int| 0 <= i < seg.len() implies seg[i] != '/' by {
        lemma_no_slash_after(url, last_slash(url) + 1 + i);
    }
    lemma_no_slash_means_none(seg);
    assert(last_segment(seg) =~= seg);
}

/// Derive a destination file name from a URL: its final `/`-delimited
/// segment, or the whole URL when it holds no `/`.
pub fn derive_file_name(url: &str) -> (r: String)
    ensures
        r@ == last_segment(url@),
{
    let n = url.unicode_len();
    let mut idx: usize = 0;
    let mut cut: usize = 0;
    proof {
        assert(url@.take(0) =~= Seq::<char>::empty());
    }
    while idx < n
        invariant
            n == url@.len(),
            0 <= idx <= n,
            cut == last_slash(url@.take(idx as int)) + 1,
            cut <= idx,
        decreases n - idx,
    {
        proof {
            lemma_last_slash_step(url@, idx as int);
        }
        if url.get_char(idx) == '/' {
            cut = idx + 1;
        }
        idx += 1;
    }
    proof {
        assert(url@.take(n as int) =~= url@);
    }
    let seg = url.substring_char(cut, n);
    seg.to_owned()
}

/// The in-memory state of one URL's download, as the contracts see it.
pub struct DescriptorModel {
    pub url: Seq<char>,
    pub file_name: Seq<char>,
    pub file_path: Seq<char>,
    pub status: DownloadStatus,
    pub error: Option<Seq<char>>,
    pub bytes_expected: Option<u64>,
    pub bytes_transferred: u64,
}

impl DescriptorModel {
    /// Internal consistency: an error is recorded only on a failed transfer,
    /// and progress never exceeds the expected total once that is known.
    pub open spec fn wf(self) -> bool {
        &&& (self.error is Some ==> self.status is Failed)
        &&& (match self.bytes_expected {
            Some(t) => self.bytes_transferred <= t,
            None => true,
        })
    }
}

/// A descriptor as first constructed: pending, no error, no progress.
pub open spec fn new_model(
    url: Seq<char>,
    file_name: Option<Seq<char>>,
    file_path: Seq<char>,
) -> DescriptorModel {
    DescriptorModel {
        url,
        file_name: match file_name {
            Some(n) => n,
            None => last_segment(url),
        },
        file_path,
        status: DownloadStatus::Pending,
        error: None,
        bytes_expected: None,
        bytes_transferred: 0,
    }
}

/// One URL's download: identity, destination, status, last error, and
/// progress counters.
#[derive(Debug)]
pub struct Download {
    pub url: String,
    pub file_name: String,
    pub file_path: String,
    pub status: DownloadStatus,
    pub error: Option<String>,
    pub bytes_expected: Option<u64>,
    pub bytes_transferred: u64,
}

impl View for Download {
    type V = DescriptorModel;

    open spec fn view(&self) -> DescriptorModel {
        DescriptorModel {
            url: self.url@,
            file_name: self.file_name@,
            file_path: self.file_path@,
            status: self.status,
            error: match self.error {
                Some(e) => Some(e@),
                None => None,
            },
            bytes_expected: self.bytes_expected,
            bytes_transferred: self.bytes_transferred,
        }
    }
}

impl Download {
    pub open spec fn wf(self) -> bool {
        self@.wf()
    }

    /// Whether no destination name is given and none can be derived.
    pub open spec fn name_unresolvable(url: Seq<char>, file_name: Option<Seq<char>>) -> bool {
        file_name is None && last_segment(url).len() == 0
    }

    /// Whether no destination directory is given and no default exists.
    pub open spec fn dir_unresolvable(
        file_path: Option<Seq<char>>,
        default_dir: Option<Seq<char>>,
    ) -> bool {
        file_path is None && default_dir is None
    }

    /// Build a descriptor for `url`. A missing name is derived from the
    /// URL's final path segment; a missing directory falls back to
    /// `default_dir`, the platform download directory.
    pub fn new(
        url: String,
        file_name: Option<String>,
        file_path: Option<String>,
        default_dir: Option<String>,
    ) -> (r: Result<Download, DownloadError>)
        ensures
            r is Ok <==> !Self::name_unresolvable(url@, file_name.deep_view())
                && !Self::dir_unresolvable(file_path.deep_view(), default_dir.deep_view()),
            r matches Ok(d) ==> d@ == new_model(
                url@,
                file_name.deep_view(),
                match file_path {
                    Some(p) => p@,
                    None => default_dir->0@,
                },
            ) && d.wf(),
            r matches Err(e) ==> e == if Self::name_unresolvable(url@, file_name.deep_view()) {
                DownloadError::InvalidDestination
            } else {
                DownloadError::ConfigDirUnavailable
            },
    {
        let name: String = match file_name {
            Some(n) => n,
            None => {
                let derived = derive_file_name(url.as_str());
                if derived.as_str().unicode_len() == 0 {
                    return Err(DownloadError::InvalidDestination);
                }
                derived
            },
        };
        let dir: String = match file_path {
            Some(p) => p,
            None => match default_dir {
                Some(d) => d,
                None => {
                    return Err(DownloadError::ConfigDirUnavailable);
                },
            },
        };
        Ok(Download {
            url,
            file_name: name,
            file_path: dir,
            status: DownloadStatus::Pending,
            error: None,
            bytes_expected: None,
            bytes_transferred: 0,
        })
    }

    /// The one destination file path associated with the descriptor:
    /// its directory and file name joined by `/`.
    pub fn dest_path(&self) -> (r: String)
        ensures
            r@ == self.file_path@ + "/"@ + self.file_name@,
    {
        let mut s: String = self.file_path.clone();
        s.append("/");
        s.append(self.file_name.as_str());
        s
    }

    /// An exact copy of the descriptor.
    pub fn duplicate(&self) -> (r: Download)
        ensures
            r@ == self@,
    {
        Download {
            url: self.url.clone(),
            file_name: self.file_name.clone(),
            file_path: self.file_path.clone(),
            status: self.status,
            error: match &self.error {
                Some(e) => Some(e.clone()),
                None => None,
            },
            bytes_expected: self.bytes_expected,
            bytes_transferred: self.bytes_transferred,
        }
    }
}

/// The character of one decimal digit.
pub open spec fn digit_char(d: nat) -> char {
    if d == 0 {
        '0'
    } else if d == 1 {
        '1'
    } else if d == 2 {
        '2'
    } else if d == 3 {
        '3'
    } else if d == 4 {
        '4'
    } else if d == 5 {
        '5'
    } else if d == 6 {
        '6'
    } else if d == 7 {
        '7'
    } else if d == 8 {
        '8'
    } else {
        '9'
    }
}

/// The decimal text of a number, most significant digit first.
pub open spec fn dec_of(n: nat) -> Seq<char>
    decreases n,
{
    if n < 10 {
        seq![digit_char(n)]
    } else {
        dec_of(n / 10) + seq![digit_char(n % 10)]
    }
}

/// One decimal digit as text.
fn digit_str(d: u64) -> (r: String)
    requires
        d < 10,
    ensures
        r@ == seq![digit_char(d as nat)],
{
    proof {
        reveal_strlit("0");
        reveal_strlit("1");
        reveal_strlit("2");
        reveal_strlit("3");
        reveal_strlit("4");
        reveal_strlit("5");
        reveal_strlit("6");
        reveal_strlit("7");
        reveal_strlit("8");
        reveal_strlit("9");
    }
    let r: String = match d {
        0 => "0".to_owned(),
        1 => "1".to_owned(),
        2 => "2".to_owned(),
        3 => "3".to_owned(),
        4 => "4".to_owned(),
        5 => "5".to_owned(),
        6 => "6".to_owned(),
        7 => "7".to_owned(),
        8 => "8".to_owned(),
        _ => "9".to_owned(),
    };
    proof {
        assert(r@ =~= seq![digit_char(d as nat)]);
    }
    r
}

/// The decimal text of `n`.
pub fn u64_to_decimal(n: u64) -> (r: String)
    ensures
        r@ == dec_of(n as nat),
    decreases n,
{
    if n < 10 {
        digit_str(n)
    } else {
        let mut s = u64_to_decimal(n / 10);
        let last = digit_str(n % 10);
        s.append(last.as_str());
        s
    }
}

/// The byte-range request value for a transfer resumed at `offset`:
/// the offset in decimal, then `-`, asking for all bytes from the
/// offset onward.
pub fn range_header_value(offset: u64) -> (r: String)
    ensures
        r@ == dec_of(offset as nat) + "-"@,
{
    let mut s = u64_to_decimal(offset);
    s.append("-");
    s
}

/// How a transfer starts: from byte zero, or appending at a resume offset.
#[derive(Debug, Clone, Copy, PartialEq, Eq, Structural)]
pub enum TransferMode {
    Fresh,
    Resume(u64),
}

/// The byte offset a transfer starts from.
pub open spec fn offset_of(mode: TransferMode) -> u64 {
    match mode {
        TransferMode::Fresh => 0,
        TransferMode::Resume(n) => n,
    }
}

/// One observation from the transport while a transfer streams:
/// the total length became known, a chunk of bytes was appended,
/// or the stream failed with a reason.
#[derive(Debug)]
pub enum TransferEvent {
    Total(u64),
    Chunk(u64),
    Fault(String),
}

/// How one event changes a descriptor. Events reach a descriptor only
/// while it is in progress; a terminal descriptor ignores them.
pub open spec fn step_model(m: DescriptorModel, ev: TransferEvent) -> DescriptorModel {
    if !(m.status is InProgress) {
        m
    } else {
        match ev {
            TransferEvent::Total(t) => if m.bytes_expected is None {
                DescriptorModel { bytes_expected: Some(t), ..m }
            } else {
                m
            },
            TransferEvent::Chunk(n) => DescriptorModel {
                bytes_transferred: (m.bytes_transferred + n) as u64,
                ..m
            },
            TransferEvent::Fault(msg) => DescriptorModel {
                status: DownloadStatus::Failed,
                error: Some(msg@),
                ..m
            },
        }
    }
}

/// The descriptor after a sequence of events, applied in receipt order.
pub open spec fn run_events(m: DescriptorModel, events: Seq<TransferEvent>) -> DescriptorModel
    decreases events.len(),
{
    if events.len() == 0 {
        m
    } else {
        run_events(step_model(m, events[0]), events.drop_first())
    }
}

/// Stream completion: a transfer still in progress completes; a failed
/// one keeps its failure.
pub open spec fn finalize_model(m: DescriptorModel) -> DescriptorModel {
    if m.status is InProgress {
        DescriptorModel { status: DownloadStatus::Completed, ..m }
    } else {
        m
    }
}

/// The descriptor after a whole transfer attempt: all events, then
/// stream completion.
pub open spec fn run_model(m: DescriptorModel, events: Seq<TransferEvent>) -> DescriptorModel {
    finalize_model(run_events(m, events))
}

/// A descriptor as a transfer attempt begins: in progress, error cleared,
/// total unknown, and progress reset to the attempt's start offset.
pub open spec fn begun_model(m: DescriptorModel, offset: u64) -> DescriptorModel {
    DescriptorModel {
        status: DownloadStatus::InProgress,
        error: None,
        bytes_expected: None,
        bytes_transferred: offset,
        ..m
    }
}

/// An event the descriptor can absorb: a chunk neither overflows the
/// counter nor exceeds a known total, and a late total is never below
/// what was already transferred.
pub open spec fn event_ok(m: DescriptorModel, ev: TransferEvent) -> bool {
    m.status is InProgress ==> match ev {
        TransferEvent::Total(t) => m.bytes_expected is None ==> m.bytes_transferred <= t,
        TransferEvent::Chunk(n) => m.bytes_transferred + n <= u64::MAX && (match m
            .bytes_expected {
            Some(t) => m.bytes_transferred + n <= t,
            None => true,
        }),
        TransferEvent::Fault(_) => true,
    }
}

/// Every event of the sequence is absorbable in the state it reaches.
pub open spec fn events_ok(m: DescriptorModel, events: Seq<TransferEvent>) -> bool
    decreases events.len(),
{
    events.len() == 0 || (event_ok(m, events[0]) && events_ok(
        step_model(m, events[0]),
        events.drop_first(),
    ))
}

/// Total bytes the chunks of a sequence carry.
pub open spec fn sum_chunks(events: Seq<TransferEvent>) -> nat
    decreases events.len(),
{
    if events.len() == 0 {
        0
    } else {
        (match events[0] {
            TransferEvent::Chunk(n) => n as nat,
            _ => 0,
        }) + sum_chunks(events.drop_first())
    }
}

/// Whether the stream reported a failure.
pub open spec fn has_fault(events: Seq<TransferEvent>) -> bool
    decreases events.len(),
{
    events.len() != 0 && (events[0] is Fault || has_fault(events.drop_first()))
}

impl Download {
    /// Begin a transfer attempt. A fresh attempt starts a pending
    /// descriptor at byte zero; a resume attempt restarts any
    /// non-completed descriptor at its offset.
    pub fn begin(&mut self, mode: TransferMode)
        requires
            old(self).wf(),
            mode is Fresh ==> old(self)@.status is Pending,
            !(old(self)@.status is Completed),
        ensures
            final(self)@ == begun_model(old(self)@, offset_of(mode)),
            final(self).wf(),
    {
        self.status = DownloadStatus::InProgress;
        self.error = None;
        self.bytes_expected = None;
        self.bytes_transferred = match mode {
            TransferMode::Fresh => 0,
            TransferMode::Resume(n) => n,
        };
    }

    /// The server reported a total length; it is recorded once, on first
    /// knowledge, and never changed afterwards.
    pub fn note_total(&mut self, total: u64)
        requires
            old(self).wf(),
            old(self)@.status is InProgress,
            old(self)@.bytes_expected is None ==> old(self)@.bytes_transferred <= total,
        ensures
            final(self)@ == step_model(old(self)@, TransferEvent::Total(total)),
            final(self).wf(),
    {
        if self.bytes_expected.is_none() {
            self.bytes_expected = Some(total);
        }
    }

    /// A chunk of `n` bytes was durably appended to the destination.
    pub fn note_chunk(&mut self, n: u64)
        requires
            old(self).wf(),
            old(self)@.status is InProgress,
            old(self)@.bytes_transferred + n <= u64::MAX,
            old(self)@.bytes_expected matches Some(t) ==> old(self)@.bytes_transferred + n <= t,
        ensures
            final(self)@ == step_model(old(self)@, TransferEvent::Chunk(n)),
            final(self)@.bytes_transferred == old(self)@.bytes_transferred + n,
            final(self).wf(),
    {
        self.bytes_transferred = self.bytes_transferred + n;
    }

    /// The stream ended: the transfer is complete.
    pub fn finish(&mut self)
        requires
            old(self).wf(),
            old(self)@.status is InProgress,
        ensures
            final(self)@ == finalize_model(old(self)@),
            final(self).wf(),
    {
        self.status = DownloadStatus::Completed;
    }

    /// The stream failed: the transfer is failed and the reason kept.
    pub fn fail(&mut self, reason: String)
        requires
            old(self).wf(),
            old(self)@.status is InProgress,
        ensures
            final(self)@ == step_model(old(self)@, TransferEvent::Fault(reason)),
            final(self).wf(),
    {
        self.status = DownloadStatus::Failed;
        self.error = Some(reason);
    }

    /// One whole transfer attempt, driven by the events the transport
    /// reports in receipt order: begin at the mode's offset, absorb each
    /// event, and complete unless a fault ended the stream first.
    pub fn execute(&mut self, mode: TransferMode, events: &Vec<TransferEvent>)
        requires
            old(self).wf(),
            mode is Fresh ==> old(self)@.status is Pending,
            !(old(self)@.status is Completed),
            events_ok(begun_model(old(self)@, offset_of(mode)), events@),
        ensures
            final(self)@ == run_model(begun_model(old(self)@, offset_of(mode)), events@),
            final(self).wf(),
            !has_fault(events@) ==> final(self)@.status is Completed
                && final(self)@.bytes_transferred == offset_of(mode) + sum_chunks(events@),
            has_fault(events@) ==> final(self)@.status is Failed,
    {
        self.begin(mode);
        let ghost m0 = self@;
        let n = events.len();
        let mut i: usize = 0;
        let mut failed = false;
        proof {
            assert(events@.skip(0) =~= events@);
        }
        while i < n && !failed
            invariant
                n == events@.len(),
                0 <= i <= n,
                self.wf(),
                !failed ==> self@.status is InProgress,
                failed ==> self@.status is Failed,
                run_events(m0, events@) == run_events(self@, events@.skip(i as int)),
                events_ok(self@, events@.skip(i as int)),
            decreases n - i,
        {
            proof {
                assert(events@.skip(i as int)[0] == events@[i as int]);
                assert(events@.skip(i as int).drop_first() =~= events@.skip(i as int + 1));
            }
            let ev = &events[i];
            match ev {
                TransferEvent::Total(t) => {
                    self.note_total(*t);
                },
                TransferEvent::Chunk(c) => {
                    self.note_chunk(*c);
                },
                TransferEvent::Fault(msg) => {
                    self.fail(msg.clone());
                    failed = true;
                },
            }
            i = i + 1;
        }
        if failed {
            proof {
                lemma_run_events_stuck(self@, events@.skip(i as int));
            }
        } else {
            proof {
                assert(events@.skip(i as int) =~= Seq::<TransferEvent>::empty());
            }
            self.finish();
        }
        proof {
            if !has_fault(events@) {
                lemma_run_to_completion(m0, events@);
            } else {
                lemma_run_fault(m0, events@);
            }
        }
    }
}

/// A terminal descriptor absorbs no further events.
pub proof fn lemma_run_events_stuck(m: DescriptorModel, events: Seq<TransferEvent>)
    requires
        !(m.status is InProgress),
    ensures
        run_events(m, events) == m,
    decreases events.len(),
{
    if events.len() > 0 {
        lemma_run_events_stuck(m, events.drop_first());
    }
}

/// A run over absorbable events keeps the descriptor well formed and
/// never decreases the transferred counter.
pub proof fn lemma_run_events_monotonic(m: DescriptorModel, events: Seq<TransferEvent>)
    requires
        m.wf(),
        events_ok(m, events),
    ensures
        run_events(m, events).bytes_transferred >= m.bytes_transferred,
        run_events(m, events).wf(),
    decreases events.len(),
{
    if events.len() > 0 {
        lemma_run_events_monotonic(step_model(m, events[0]), events.drop_first());
    }
}

/// Runs compose: a run over a concatenation is a run over each part in turn.
pub proof fn lemma_run_events_compose(m: DescriptorModel, s1: Seq<TransferEvent>, s2: Seq<
    TransferEvent,
>)
    ensures
        run_events(m, s1 + s2) == run_events(run_events(m, s1), s2),
    decreases s1.len(),
{
    if s1.len() == 0 {
        assert(s1 + s2 =~= s2);
    } else {
        assert((s1 + s2)[0] == s1[0]);
        assert((s1 + s2).drop_first() =~= s1.drop_first() + s2);
        lemma_run_events_compose(step_model(m, s1[0]), s1.drop_first(), s2);
    }
}

/// Absorbability splits over a concatenation.
pub proof fn lemma_events_ok_split(m: DescriptorModel, s1: Seq<TransferEvent>, s2: Seq<
    TransferEvent,
>)
    requires
        events_ok(m, s1 + s2),
    ensures
        events_ok(m, s1),
        events_ok(run_events(m, s1), s2),
    decreases s1.len(),
{
    if s1.len() == 0 {
        assert(s1 + s2 =~= s2);
    } else {
        assert((s1 + s2)[0] == s1[0]);
        assert((s1 + s2).drop_first() =~= s1.drop_first() + s2);
        lemma_events_ok_split(step_model(m, s1[0]), s1.drop_first(), s2);
    }
}

/// Monotonic progress: within one transfer attempt the sequence of
/// transferred-byte samples is non-decreasing, and each sample respects
/// the expected total once that is known.
pub proof fn lemma_monotonic_progress(
    m: DescriptorModel,
    events: Seq<TransferEvent>,
    i: int,
    j: int,
)
    requires
        m.wf(),
        events_ok(m, events),
        0 <= i <= j <= events.len(),
    ensures
        run_events(m, events.take(i)).bytes_transferred <= run_events(
            m,
            events.take(j),
        ).bytes_transferred,
        run_events(m, events.take(j)).wf(),
{
    assert(events.take(j) =~= events.take(i) + events.subrange(i, j));
    assert(events =~= events.take(j) + events.skip(j));
    lemma_events_ok_split(m, events.take(j), events.skip(j));
    lemma_events_ok_split(m, events.take(i), events.subrange(i, j));
    lemma_run_events_compose(m, events.take(i), events.subrange(i, j));
    lemma_run_events_monotonic(m, events.take(i));
    lemma_run_events_monotonic(run_events(m, events.take(i)), events.subrange(i, j));
}

/// A faultless run transfers exactly the bytes its chunks carry, and the
/// attempt then completes.
pub proof fn lemma_run_to_completion(m: DescriptorModel, events: Seq<TransferEvent>)
    requires
        m.wf(),
        m.status is InProgress,
        events_ok(m, events),
        !has_fault(events),
    ensures
        run_events(m, events).status is InProgress,
        run_events(m, events).bytes_transferred == m.bytes_transferred + sum_chunks(events),
        run_model(m, events).status is Completed,
        run_model(m, events).bytes_transferred == m.bytes_transferred + sum_chunks(events),
    decreases events.len(),
{
    if events.len() > 0 {
        lemma_run_to_completion(step_model(m, events[0]), events.drop_first());
    }
}

/// A faulted run ends failed, whatever else the stream carried.
pub proof fn lemma_run_fault(m: DescriptorModel, events: Seq<TransferEvent>)
    requires
        m.status is InProgress,
        has_fault(events),
    ensures
        run_events(m, events).status is Failed,
        run_model(m, events).status is Failed,
    decreases events.len(),
{
    if events[0] is Fault {
        lemma_run_events_stuck(step_model(m, events[0]), events.drop_first());
    } else {
        lemma_run_fault(step_model(m, events[0]), events.drop_first());
    }
}

/// Two descriptors that agree on status and progress counters.
pub open spec fn progress_eq(m1: DescriptorModel, m2: DescriptorModel) -> bool {
    &&& m1.status == m2.status
    &&& m1.bytes_expected == m2.bytes_expected
    &&& m1.bytes_transferred == m2.bytes_transferred
}

/// Whether a transfer begun at `offset` can absorb the events, whatever
/// descriptor it runs on: absorbability reads only the progress fields,
/// which `begun_model` fixes from the offset alone.
pub open spec fn events_ok_at(offset: u64, events: Seq<TransferEvent>) -> bool {
    events_ok(
        begun_model(
            DescriptorModel {
                url: Seq::<char>::empty(),
                file_name: Seq::<char>::empty(),
                file_path: Seq::<char>::empty(),
                status: DownloadStatus::Pending,
                error: None,
                bytes_expected: None,
                bytes_transferred: 0,
            },
            offset,
        ),
        events,
    )
}

/// Absorbability carries over between descriptors with equal progress.
proof fn lemma_events_ok_transplant(
    m1: DescriptorModel,
    m2: DescriptorModel,
    events: Seq<TransferEvent>,
)
    requires
        progress_eq(m1, m2),
        events_ok(m1, events),
    ensures
        events_ok(m2, events),
    decreases events.len(),
{
    if events.len() > 0 {
        assert(progress_eq(step_model(m1, events[0]), step_model(m2, events[0])));
        lemma_events_ok_transplant(
            step_model(m1, events[0]),
            step_model(m2, events[0]),
            events.drop_first(),
        );
    }
}

/// Events absorbable at an offset are absorbable by any descriptor begun
/// at that offset.
pub proof fn lemma_events_ok_at(m: DescriptorModel, offset: u64, events: Seq<TransferEvent>)
    requires
        events_ok_at(offset, events),
    ensures
        events_ok(begun_model(m, offset), events),
{
    let blank = DescriptorModel {
        url: Seq::<char>::empty(),
        file_name: Seq::<char>::empty(),
        file_path: Seq::<char>::empty(),
        status: DownloadStatus::Pending,
        error: None,
        bytes_expected: None,
        bytes_transferred: 0,
    };
    lemma_events_ok_transplant(begun_model(blank, offset), begun_model(m, offset), events);
}

proof fn lemma_run_events_keeps_identity(m: DescriptorModel, events: Seq<TransferEvent>)
    ensures
        run_events(m, events).url == m.url,
        run_events(m, events).file_name == m.file_name,
        run_events(m, events).file_path == m.file_path,
    decreases events.len(),
{
    if events.len() > 0 {
        lemma_run_events_keeps_identity(step_model(m, events[0]), events.drop_first());
    }
}

/// A transfer attempt never changes a descriptor's identity or its
/// destination: the URL, file name, and directory survive any run.
pub proof fn lemma_run_keeps_identity(m: DescriptorModel, offset: u64, events: Seq<TransferEvent>)
    ensures
        run_model(begun_model(m, offset), events).url == m.url,
        run_model(begun_model(m, offset), events).file_name == m.file_name,
        run_model(begun_model(m, offset), events).file_path == m.file_path,
{
    lemma_run_events_keeps_identity(begun_model(m, offset), events);
}

/// Chunk bytes sum over a concatenation part by part.
proof fn lemma_sum_chunks_append(a: Seq<TransferEvent>, b: Seq<TransferEvent>)
    ensures
        sum_chunks(a + b) == sum_chunks(a) + sum_chunks(b),
    decreases a.len(),
{
    if a.len() == 0 {
        assert(a + b =~= b);
    } else {
        assert((a + b)[0] == a[0]);
        assert((a + b).drop_first() =~= a.drop_first() + b);
        lemma_sum_chunks_append(a.drop_first(), b);
    }
}

/// Whether the totals an observed stream reported can be kept: counting
/// from `offset`, the stream's chunks stay within the byte counter and
/// under every reported total. A total below what the stream carried
/// (as from a server that ignored a range request) is unusable.
pub open spec fn totals_usable(offset: u64, events: Seq<TransferEvent>) -> bool {
    &&& offset + sum_chunks(events) <= u64::MAX
    &&& forall|i: int|
        0 <= i < events.len() ==> ((#[trigger] events[i]) matches TransferEvent::Total(t)
            ==> offset + sum_chunks(events) <= t)
}

/// The absorbable form of an observed stream, counting from
/// `transferred`: totals are kept only when `keep_totals`, a chunk that
/// would overflow the byte counter cuts the stream there, and a fault
/// cuts it after the fault.
pub open spec fn sanitize_spec(
    transferred: u64,
    keep_totals: bool,
    events: Seq<TransferEvent>,
) -> Seq<TransferEvent>
    decreases events.len(),
{
    if events.len() == 0 {
        Seq::empty()
    } else {
        match events[0] {
            TransferEvent::Total(t) => if keep_totals {
                seq![events[0]] + sanitize_spec(transferred, keep_totals, events.drop_first())
            } else {
                sanitize_spec(transferred, keep_totals, events.drop_first())
            },
            TransferEvent::Chunk(n) => if transferred + n <= u64::MAX {
                seq![events[0]] + sanitize_spec(
                    (transferred + n) as u64,
                    keep_totals,
                    events.drop_first(),
                )
            } else {
                Seq::empty()
            },
            TransferEvent::Fault(_) => seq![events[0]],
        }
    }
}

/// The sanitized form of a stream is absorbable: every kept total is at
/// least `cap`, which bounds what the chunks can reach, so no chunk
/// overflows the counter or exceeds a kept total.
proof fn lemma_sanitize_events_ok(
    m: DescriptorModel,
    keep_totals: bool,
    events: Seq<TransferEvent>,
    cap: u64,
)
    requires
        m.status is InProgress,
        keep_totals ==> {
            &&& m.bytes_transferred + sum_chunks(events) <= cap
            &&& (forall|i: int|
                0 <= i < events.len() ==> ((#[trigger] events[i]) matches TransferEvent::Total(t)
                    ==> cap <= t))
            &&& (m.bytes_expected matches Some(t2) ==> cap <= t2)
        },
        !keep_totals ==> m.bytes_expected is None,
    ensures
        events_ok(m, sanitize_spec(m.bytes_transferred, keep_totals, events)),
    decreases events.len(),
{
    if events.len() > 0 {
        let rest = events.drop_first();
        let out = sanitize_spec(m.bytes_transferred, keep_totals, events);
        assert forall|i: int|
            0 <= i < rest.len() implies ((#[trigger] rest[i]) matches TransferEvent::Total(t)
            ==> (keep_totals ==> cap <= t)) by {
            assert(rest[i] == events[i + 1]);
        }
        match events[0] {
            TransferEvent::Total(t) => {
                let m2 = step_model(m, events[0]);
                if keep_totals {
                    lemma_sanitize_events_ok(m2, keep_totals, rest, cap);
                    assert(out =~= seq![events[0]] + sanitize_spec(
                        m2.bytes_transferred,
                        keep_totals,
                        rest,
                    ));
                    assert(out[0] == events[0]);
                    assert(out.drop_first() =~= sanitize_spec(
                        m2.bytes_transferred,
                        keep_totals,
                        rest,
                    ));
                    assert(event_ok(m, out[0]));
                    assert(events_ok(step_model(m, out[0]), out.drop_first()));
                    assert(events_ok(m, out));
                } else {
                    lemma_sanitize_events_ok(m, keep_totals, rest, cap);
                    assert(out == sanitize_spec(m.bytes_transferred, keep_totals, rest));
                    assert(events_ok(m, out));
                }
            },
            TransferEvent::Chunk(n) => {
                if m.bytes_transferred + n <= u64::MAX {
                    let m2 = step_model(m, events[0]);
                    lemma_sanitize_events_ok(m2, keep_totals, rest, cap);
                    assert(out =~= seq![events[0]] + sanitize_spec(
                        m2.bytes_transferred,
                        keep_totals,
                        rest,
                    ));
                    assert(out[0] == events[0]);
                    assert(out.drop_first() =~= sanitize_spec(
                        m2.bytes_transferred,
                        keep_totals,
                        rest,
                    ));
                    assert(event_ok(m, out[0]));
                    assert(events_ok(step_model(m, out[0]), out.drop_first()));
                    assert(events_ok(m, out));
                } else {
                    assert(out =~= Seq::<TransferEvent>::empty());
                    assert(events_ok(m, out));
                }
            },
            TransferEvent::Fault(_) => {
                assert(out =~= seq![events[0]]);
                assert(out[0] == events[0]);
                assert(out.drop_first() =~= Seq::<TransferEvent>::empty());
                assert(events_ok(step_model(m, out[0]), out.drop_first()));
                assert(events_ok(m, out));
            },
        }
    }
}

/// One step of the running chunk sum, prefix by prefix.
proof fn lemma_sum_chunks_take_step(events: Seq<TransferEvent>, i: int)
    requires
        0 <= i < events.len(),
    ensures
        sum_chunks(events.take(i + 1)) == sum_chunks(events.take(i)) + (match events[i] {
            TransferEvent::Chunk(n) => n as nat,
            _ => 0,
        }),
{
    assert(events.take(i + 1) =~= events.take(i) + seq![events[i]]);
    lemma_sum_chunks_append(events.take(i), seq![events[i]]);
    assert(seq![events[i]][0] == events[i]);
    assert(seq![events[i]].drop_first() =~= Seq::<TransferEvent>::empty());
    assert(sum_chunks(Seq::<TransferEvent>::empty()) == 0);
    assert(sum_chunks(seq![events[i]]) == (match events[i] {
        TransferEvent::Chunk(n) => n as nat,
        _ => 0,
    }));
}

/// Make an observed event stream absorbable from `offset`, as
/// `Download::execute` requires. The result is exactly
/// [`sanitize_spec`]: the stream as observed, except that totals are
/// dropped when the stream outran one of them (the length is then
/// unknown, as with a server that ignores range requests), a chunk that
/// would overflow the byte counter cuts the stream there, and nothing
/// follows a fault.
pub fn sanitize_events(offset: u64, raw: Vec<TransferEvent>) -> (r: Vec<TransferEvent>)
    ensures
        r@ == sanitize_spec(offset, totals_usable(offset, raw@), raw@),
        events_ok_at(offset, r@),
{
    let n = raw.len();

    // Does offset + (every chunk's bytes) stay within the counter?
    let mut reach: u64 = offset;
    let mut fits = true;
    let mut i: usize = 0;
    proof {
        assert(raw@.take(0) =~= Seq::<TransferEvent>::empty());
    }
    while i < n
        invariant
            0 <= i <= n,
            n == raw@.len(),
            fits ==> reach == offset + sum_chunks(raw@.take(i as int)),
            !fits ==> offset + sum_chunks(raw@.take(i as int)) > u64::MAX,
        decreases n - i,
    {
        proof {
            lemma_sum_chunks_take_step(raw@, i as int);
        }
        match &raw[i] {
            TransferEvent::Chunk(c) => {
                if fits {
                    if *c <= u64::MAX - reach {
                        reach = reach + *c;
                    } else {
                        fits = false;
                    }
                }
            },
            _ => {},
        }
        i = i + 1;
    }
    proof {
        assert(raw@.take(n as int) =~= raw@);
    }

    // Is every reported total at least what the stream reaches?
    let mut keep_totals = fits;
    if fits {
        let mut j: usize = 0;
        while j < n
            invariant
                0 <= j <= n,
                n == raw@.len(),
                reach == offset + sum_chunks(raw@),
                keep_totals <==> (forall|p: int|
                    0 <= p < j ==> ((#[trigger] raw@[p]) matches TransferEvent::Total(t)
                        ==> reach <= t)),
            decreases n - j,
        {
            match &raw[j] {
                TransferEvent::Total(t) => {
                    if *t < reach {
                        keep_totals = false;
                    }
                },
                _ => {},
            }
            j = j + 1;
        }
    }
    proof {
        assert(keep_totals == totals_usable(offset, raw@));
    }

    // Keep the stream as observed, under those two decisions.
    let mut out: Vec<TransferEvent> = Vec::new();
    let mut transferred: u64 = offset;
    let mut stopped = false;
    let mut k: usize = 0;
    proof {
        assert(raw@.skip(0) =~= raw@);
        assert(out@ + sanitize_spec(offset, keep_totals, raw@) =~= sanitize_spec(
            offset,
            keep_totals,
            raw@,
        ));
    }
    while k < n && !stopped
        invariant
            0 <= k <= n,
            n == raw@.len(),
            !stopped ==> sanitize_spec(offset, keep_totals, raw@) == out@ + sanitize_spec(
                transferred,
                keep_totals,
                raw@.skip(k as int),
            ),
            stopped ==> sanitize_spec(offset, keep_totals, raw@) == out@,
        decreases n - k,
    {
        proof {
            assert(raw@.skip(k as int)[0] == raw@[k as int]);
            assert(raw@.skip(k as int).drop_first() =~= raw@.skip(k as int + 1));
        }
        let ghost out0 = out@;
        match &raw[k] {
            TransferEvent::Total(t) => {
                if keep_totals {
                    out.push(TransferEvent::Total(*t));
                    proof {
                        assert(out@ =~= out0 + seq![raw@[k as int]]);
                        assert(out0 + (seq![raw@[k as int]] + sanitize_spec(
                            transferred,
                            keep_totals,
                            raw@.skip(k as int + 1),
                        )) =~= out@ + sanitize_spec(
                            transferred,
                            keep_totals,
                            raw@.skip(k as int + 1),
                        ));
                    }
                }
            },
            TransferEvent::Chunk(c) => {
                if *c <= u64::MAX - transferred {
                    out.push(TransferEvent::Chunk(*c));
                    transferred = transferred + *c;
                    proof {
                        assert(out@ =~= out0 + seq![raw@[k as int]]);
                        assert(out0 + (seq![raw@[k as int]] + sanitize_spec(
                            transferred,
                            keep_totals,
                            raw@.skip(k as int + 1),
                        )) =~= out@ + sanitize_spec(
                            transferred,
                            keep_totals,
                            raw@.skip(k as int + 1),
                        ));
                    }
                } else {
                    stopped = true;
                    proof {
                        assert(out0 + Seq::<TransferEvent>::empty() =~= out0);
                    }
                }
            },
            TransferEvent::Fault(msg) => {
                out.push(TransferEvent::Fault(msg.clone()));
                stopped = true;
                proof {
                    assert(out@ =~= out0 + seq![raw@[k as int]]);
                }
            },
        }
        k = k + 1;
    }
    if !stopped {
        proof {
            assert(raw@.skip(n as int) =~= Seq::<TransferEvent>::empty());
            assert(out@ + Seq::<TransferEvent>::empty() =~= out@);
        }
    }
    proof {
        let blank = DescriptorModel {
            url: Seq::<char>::empty(),
            file_name: Seq::<char>::empty(),
            file_path: Seq::<char>::empty(),
            status: DownloadStatus::Pending,
            error: None,
            bytes_expected: None,
            bytes_transferred: 0,
        };
        if keep_totals {
            lemma_sanitize_events_ok(
                begun_model(blank, offset),
                true,
                raw@,
                (offset + sum_chunks(raw@)) as u64,
            );
        } else {
            lemma_sanitize_events_ok(begun_model(blank, offset), false, raw@, 0);
        }
    }
    out
}

/// Resume offset correctness: resuming a partial file of `partial_len`
/// bytes over a faultless stream that carries exactly the missing
/// `total - partial_len` bytes completes with `total` bytes transferred.
pub proof fn lemma_resume_offset_correctness(
    m: DescriptorModel,
    partial_len: u64,
    total: u64,
    events: Seq<TransferEvent>,
)
    requires
        partial_len <= total,
        events_ok(begun_model(m, partial_len), events),
        !has_fault(events),
        sum_chunks(events) == total - partial_len,
    ensures
        run_model(begun_model(m, partial_len), events).status is Completed,
        run_model(begun_model(m, partial_len), events).bytes_transferred == total,
{
    lemma_run_to_completion(begun_model(m, partial_len), events);
}

} // verus!
