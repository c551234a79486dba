//! Extraction: which files a source map asks to be written, in which order,
//! and what a run has to report.
//!
//! The library decides; its caller touches the disk. A run hands out one
//! write at a time and is told how the write went. It stops at the first
//! failure, and what was written before stays written.

use crate::path::{
    is_marker, is_reserved, lemma_fragment_starts_clean, lemma_restrictive_fragment_has_no_reserved,
    sanitize, sanitized,
};
use crate::sourcemap::{texts, SourceMap, SourceMapView};
use vstd::prelude::*;
use vstd::string::*;
use vstd::utf8::encode_utf8;

verus! {

/// A file to write: its path relative to the output root, and its full
/// content. The caller joins the path to the root by the rules of its
/// platform, makes the directories above the file and replaces the file in
/// full.
#[derive(Debug, PartialEq, Eq)]
pub struct WriteRequest {
    pub relative_path: String,
    pub content: String,
}

/// A write as a mathematical value.
pub struct WriteView {
    pub path: Seq<char>,
    pub content: Seq<char>,
}

impl View for WriteRequest {
    type V = WriteView;

    open spec fn view(&self) -> WriteView {
        WriteView { path: self.relative_path@, content: self.content@ }
    }
}

/// What is reported of a file that was written.
#[derive(Debug, PartialEq, Eq)]
pub struct ProgressRecord {
    pub relative_path: String,
    /// The length of the content in bytes.
    pub byte_length: usize,
}

/// A progress record as a mathematical value.
pub struct RecordView {
    pub path: Seq<char>,
    pub byte_length: usize,
}

impl View for ProgressRecord {
    type V = RecordView;

    open spec fn view(&self) -> RecordView {
        RecordView { path: self.relative_path@, byte_length: self.byte_length }
    }
}

/// How a write went.
#[derive(Debug, PartialEq, Eq)]
pub enum WriteOutcome {
    Written,
    /// The directories could not be made or the file could not be written.
    /// Holds the cause.
    Failed(String),
}

/// What a run that met no failure reports: one record for each file, in the
/// order of the source map.
#[derive(Debug, PartialEq, Eq)]
pub struct ExtractionReport {
    pub records: Vec<ProgressRecord>,
}

/// Why a run stopped early. Nothing is rolled back: the files of `completed`
/// are on disk.
#[derive(Debug, PartialEq, Eq)]
pub struct ExtractError {
    /// The file that could not be written.
    pub relative_path: String,
    pub cause: String,
    /// The files written before the failure, in order.
    pub completed: Vec<ProgressRecord>,
}

/// A failed run as a mathematical value.
pub struct ErrorView {
    pub path: Seq<char>,
    pub cause: Seq<char>,
    pub completed: Seq<RecordView>,
}

impl View for ExtractionReport {
    type V = Seq<RecordView>;

    open spec fn view(&self) -> Seq<RecordView> {
        records(self.records@)
    }
}

impl View for ExtractError {
    type V = ErrorView;

    open spec fn view(&self) -> ErrorView {
        ErrorView {
            path: self.relative_path@,
            cause: self.cause@,
            completed: records(self.completed@),
        }
    }
}

/// The length in bytes of a text.
pub open spec fn byte_length(content: Seq<char>) -> usize {
    encode_utf8(content).len() as usize
}

/// The record of a write that was done.
pub open spec fn record_of(write: WriteView) -> RecordView {
    RecordView { path: write.path, byte_length: byte_length(write.content) }
}

/// The writes that a source map asks for: one for each entry, in order, at the
/// sanitized path of its identifier and with its content.
pub open spec fn planned(map: SourceMapView, restrictive: bool) -> Seq<WriteView> {
    Seq::new(
        map.sources.len(),
        |i: int|
            WriteView {
                path: sanitized(map.sources[i], restrictive),
                content: map.sources_content[i],
            },
    )
}

/// The views of a list of writes.
pub open spec fn writes(requests: Seq<WriteRequest>) -> Seq<WriteView> {
    Seq::new(requests.len(), |i: int| requests[i]@)
}

/// The views of a list of records.
pub open spec fn records(list: Seq<ProgressRecord>) -> Seq<RecordView> {
    Seq::new(list.len(), |i: int| list[i]@)
}

/// The records of the first `count` writes of a plan.
pub open spec fn records_of(plan: Seq<WriteView>, count: nat) -> Seq<RecordView> {
    Seq::new(count, |i: int| record_of(plan[i]))
}

/// The state of a run.
pub struct ExtractionView {
    /// Every write of the run, in order.
    pub plan: Seq<WriteView>,
    /// How many writes are done: the first `written` of the plan.
    pub written: nat,
    /// The cause of the failure that stopped the run, if one did.
    pub failure: Option<Seq<char>>,
}

impl ExtractionView {
    /// Whether the run waits to hear of a write: it has not failed and the
    /// plan is not through.
    pub open spec fn awaiting(self) -> bool {
        self.failure is None && self.written < self.plan.len()
    }

    /// The write that is due, if the run waits for one.
    pub open spec fn due(self) -> Option<WriteView> {
        if self.awaiting() {
            Some(self.plan[self.written as int])
        } else {
            None
        }
    }

    /// The state after `outcome` was heard. A run that does not wait for a
    /// write stays as it is.
    pub open spec fn after(self, outcome: WriteOutcome) -> ExtractionView {
        if !self.awaiting() {
            self
        } else {
            match outcome {
                WriteOutcome::Written => ExtractionView { written: self.written + 1, ..self },
                WriteOutcome::Failed(cause) => ExtractionView { failure: Some(cause@), ..self },
            }
        }
    }

    /// The writes that are done.
    pub open spec fn done(self) -> Seq<WriteView> {
        self.plan.take(self.written as int)
    }

    /// What the run has to report: the records of the writes that are done,
    /// as an error when a write failed.
    pub open spec fn conclusion(self) -> Result<Seq<RecordView>, ErrorView> {
        match self.failure {
            None => Ok(records_of(self.plan, self.written)),
            Some(cause) => Err(
                ErrorView {
                    path: self.plan[self.written as int].path,
                    cause,
                    completed: records_of(self.plan, self.written),
                },
            ),
        }
    }

    /// The state after a sequence of outcomes was heard, one after the other.
    pub open spec fn after_all(self, outcomes: Seq<WriteOutcome>) -> ExtractionView
        decreases outcomes.len(),
    {
        if outcomes.len() == 0 {
            self
        } else {
            self.after(outcomes[0]).after_all(outcomes.drop_first())
        }
    }
}

/// The state in which a run starts.
pub open spec fn start(plan: Seq<WriteView>) -> ExtractionView {
    ExtractionView { plan, written: 0, failure: None }
}

/// The writes that a source map asks for.
pub fn plan(map: &SourceMap, restrictive: bool) -> (requests: Vec<WriteRequest>)
    ensures
        writes(requests@) == planned(map@, restrictive),
{
    let sources = map.sources();
    let contents = map.sources_content();
    let mut requests: Vec<WriteRequest> = Vec::new();
    let mut i: usize = 0;
    while i < sources.len()
        invariant
            i <= sources.len(),
            sources@.len() == contents@.len(),
            texts(sources@) == map@.sources,
            texts(contents@) == map@.sources_content,
            requests@.len() == i,
            forall|j: int|
                0 <= j < i ==> (#[trigger] requests@[j])@ == planned(map@, restrictive)[j],
        decreases sources.len() - i,
    {
        assert(texts(sources@)[i as int] == sources@[i as int]@);
        assert(texts(contents@)[i as int] == contents@[i as int]@);
        let relative_path = sanitize(sources[i].as_str(), restrictive);
        let content = contents[i].clone();
        requests.push(WriteRequest { relative_path, content });
        i = i + 1;
    }
    assert(texts(sources@).len() == sources@.len());
    assert(writes(requests@) =~= planned(map@, restrictive));
    requests
}

/// A run of extraction.
#[derive(Debug)]
pub struct Extraction {
    plan: Vec<WriteRequest>,
    written: usize,
    failure: Option<String>,
}

impl View for Extraction {
    type V = ExtractionView;

    closed spec fn view(&self) -> ExtractionView {
        ExtractionView {
            plan: writes(self.plan@),
            written: self.written as nat,
            failure: match self.failure {
                Some(cause) => Some(cause@),
                None => None,
            },
        }
    }
}

impl SourceMap {
    /// Starts writing the files of the source map out: the run that is
    /// returned hands out the writes one by one. Restrictive mode is for an
    /// output root on a filesystem that refuses the characters
    /// `? % * | : " < >`.
    pub fn output(self, restrictive: bool) -> (run: Extraction)
        ensures
            run@ == start(planned(self@, restrictive)),
    {
        Extraction { plan: plan(&self, restrictive), written: 0, failure: None }
    }
}

/// The record of a write.
fn record(request: &WriteRequest) -> (record: ProgressRecord)
    ensures
        record@ == record_of(request@),
{
    ProgressRecord {
        relative_path: request.relative_path.clone(),
        byte_length: request.content.as_str().len(),
    }
}

impl Extraction {
    #[verifier::type_invariant]
    spec fn within_plan(self) -> bool {
        self.written <= self.plan@.len() && (self.failure is Some ==> self.written
            < self.plan@.len())
    }

    /// The write that is due: the next of the plan, unless the run has failed
    /// or is through.
    pub fn pending(&self) -> (request: Option<&WriteRequest>)
        ensures
            match request {
                Some(request) => self@.due() == Some(request@),
                None => self@.due() is None,
            },
    {
        proof {
            use_type_invariant(self);
        }
        if self.failure.is_none() && self.written < self.plan.len() {
            Some(&self.plan[self.written])
        } else {
            None
        }
    }

    /// Hears how the write that was due went. After `Written` the next write
    /// is due and the record of the one that was done is returned. After
    /// `Failed` the run has stopped. A run that waits for no write hears
    /// nothing.
    pub fn acknowledge(&mut self, outcome: WriteOutcome) -> (record: Option<ProgressRecord>)
        ensures
            final(self)@ == old(self)@.after(outcome),
            match record {
                Some(record) => old(self)@.awaiting() && outcome is Written && record@ == record_of(
                    old(self)@.plan[old(self)@.written as int],
                ),
                None => !(old(self)@.awaiting() && outcome is Written),
            },
    {
        proof {
            use_type_invariant(&*self);
        }
        if self.failure.is_some() || self.written >= self.plan.len() {
            return None;
        }
        match outcome {
            WriteOutcome::Written => {
                let done = record(&self.plan[self.written]);
                self.written = self.written + 1;
                Some(done)
            },
            WriteOutcome::Failed(cause) => {
                self.failure = Some(cause);
                None
            },
        }
    }

    /// Ends the run and says what it did: the records of the writes that are
    /// done, in order, as an error when a write failed.
    pub fn finish(self) -> (conclusion: Result<ExtractionReport, ExtractError>)
        ensures
            match conclusion {
                Ok(report) => self@.conclusion() == Ok::<Seq<RecordView>, ErrorView>(report@),
                Err(error) => self@.conclusion() == Err::<Seq<RecordView>, ErrorView>(error@),
            },
    {
        proof {
            use_type_invariant(&self);
        }
        let mut completed: Vec<ProgressRecord> = Vec::new();
        let mut i: usize = 0;
        while i < self.written
            invariant
                i <= self.written <= self.plan@.len(),
                completed@.len() == i,
                forall|j: int|
                    0 <= j < i ==> (#[trigger] completed@[j])@ == record_of(self.plan@[j]@),
            decreases self.written - i,
        {
            completed.push(record(&self.plan[i]));
            i = i + 1;
        }
        assert(records(completed@) =~= records_of(self@.plan, self@.written));
        match self.failure {
            None => Ok(ExtractionReport { records: completed }),
            Some(cause) => Err(
                ExtractError {
                    relative_path: self.plan[self.written].relative_path.clone(),
                    cause,
                    completed,
                },
            ),
        }
    }
}

/// The outcomes of `count` writes that all went well.
pub open spec fn all_written(count: nat) -> Seq<WriteOutcome> {
    Seq::new(count, |i: int| WriteOutcome::Written)
}

/// A run that hears of no failure does the writes of its plan one by one:
/// after `count` of them it has `count` records to report, and after as many
/// as the plan holds no write is due.
pub proof fn lemma_run_without_failure(plan: Seq<WriteView>, count: nat)
    requires
        count <= plan.len(),
    ensures
        start(plan).after_all(all_written(count)) == (ExtractionView {
            plan,
            written: count,
            failure: None,
        }),
        start(plan).after_all(all_written(count)).conclusion() == Ok::<Seq<RecordView>, ErrorView>(
            records_of(plan, count),
        ),
        records_of(plan, count).len() == count,
        count == plan.len() ==> start(plan).after_all(all_written(count)).due() is None,
{
    lemma_successes_from(start(plan), count);
}

/// From a state that has not failed, `count` writes that go well move the run
/// `count` writes on.
pub proof fn lemma_successes_from(state: ExtractionView, count: nat)
    requires
        state.failure is None,
        state.written + count <= state.plan.len(),
    ensures
        state.after_all(all_written(count)) == (ExtractionView {
            written: state.written + count,
            ..state
        }),
    decreases count,
{
    let outcomes = all_written(count);
    if count > 0 {
        assert(outcomes.drop_first() =~= all_written((count - 1) as nat));
        lemma_successes_from(state.after(outcomes[0]), (count - 1) as nat);
    }
}

/// A failure is final: whatever a failed run hears afterwards, it stays as it
/// is, and no write is due.
pub proof fn lemma_failure_is_final(state: ExtractionView, outcomes: Seq<WriteOutcome>)
    requires
        state.failure is Some,
    ensures
        state.after_all(outcomes) == state,
        state.due() is None,
    decreases outcomes.len(),
{
    if outcomes.len() > 0 {
        lemma_failure_is_final(state, outcomes.drop_first());
    }
}

/// The files under the output root after some writes were done, one after the
/// other, from path to content. A write replaces what was at its path.
pub open spec fn files_after(
    files: Map<Seq<char>, Seq<char>>,
    done: Seq<WriteView>,
) -> Map<Seq<char>, Seq<char>>
    decreases done.len(),
{
    if done.len() == 0 {
        files
    } else {
        files_after(files, done.drop_last()).insert(done.last().path, done.last().content)
    }
}

/// The content of the last write to `path`, if any write goes there.
pub open spec fn last_content(done: Seq<WriteView>, path: Seq<char>) -> Option<Seq<char>>
    decreases done.len(),
{
    if done.len() == 0 {
        None
    } else if done.last().path == path {
        Some(done.last().content)
    } else {
        last_content(done.drop_last(), path)
    }
}

/// After some writes a path holds what the last write to it put there, and
/// what it held before if no write went there.
pub proof fn lemma_files_after_at(
    files: Map<Seq<char>, Seq<char>>,
    done: Seq<WriteView>,
    path: Seq<char>,
)
    ensures
        files_after(files, done).dom().contains(path) <==> (files.dom().contains(path)
            || last_content(done, path) is Some),
        files_after(files, done)[path] == match last_content(done, path) {
            Some(content) => content,
            None => files[path],
        },
    decreases done.len(),
{
    if done.len() > 0 {
        lemma_files_after_at(files, done.drop_last(), path);
    }
}

/// Extraction is idempotent: a second run of the same writes on the same root
/// leaves the same paths with the same contents as the first.
pub proof fn lemma_extraction_is_idempotent(files: Map<Seq<char>, Seq<char>>, done: Seq<WriteView>)
    ensures
        files_after(files_after(files, done), done) == files_after(files, done),
{
    let once = files_after(files, done);
    let twice = files_after(once, done);
    assert forall|path: Seq<char>| #[trigger]
        once.dom().contains(path) == twice.dom().contains(path) by {
        lemma_files_after_at(files, done, path);
        lemma_files_after_at(once, done, path);
    }
    assert forall|path: Seq<char>| once.dom().contains(path) implies #[trigger] once[path]
        == twice[path] by {
        lemma_files_after_at(files, done, path);
        lemma_files_after_at(once, done, path);
    }
    assert(once.dom() =~= twice.dom());
    assert(once =~= twice);
}

/// A run on an empty root leaves at most as many files as it did writes:
/// fewer where two writes went to one path.
pub proof fn lemma_files_are_at_most_writes(done: Seq<WriteView>)
    ensures
        files_after(Map::empty(), done).dom().finite(),
        files_after(Map::empty(), done).dom().len() <= done.len(),
    decreases done.len(),
{
    if done.len() > 0 {
        lemma_files_are_at_most_writes(done.drop_last());
    }
}

/// Whether no two writes go to one path.
pub open spec fn distinct_paths(done: Seq<WriteView>) -> bool {
    forall|i: int, j: int|
        0 <= i < j < done.len() ==> (#[trigger] done[i]).path != (#[trigger] done[j]).path
}

/// Where no two writes go to one path, a run on an empty root leaves exactly
/// as many files as it did writes.
pub proof fn lemma_files_are_writes_when_distinct(done: Seq<WriteView>)
    requires
        distinct_paths(done),
    ensures
        files_after(Map::empty(), done).dom().finite(),
        files_after(Map::empty(), done).dom().len() == done.len(),
    decreases done.len(),
{
    if done.len() > 0 {
        let before = done.drop_last();
        assert forall|i: int, j: int| 0 <= i < j < before.len() implies (#[trigger] before[i]).path
            != (#[trigger] before[j]).path by {
            assert(before[i] == done[i] && before[j] == done[j]);
        }
        lemma_files_are_writes_when_distinct(before);
        lemma_files_after_at(Map::empty(), before, done.last().path);
        lemma_last_content_is_written(before, done.last().path);
    }
}

/// A path has a last write only if some write goes to it.
pub proof fn lemma_last_content_is_written(done: Seq<WriteView>, path: Seq<char>)
    ensures
        last_content(done, path) is Some ==> exists|i: int|
            0 <= i < done.len() && (#[trigger] done[i]).path == path,
    decreases done.len(),
{
    if done.len() > 0 && done.last().path != path {
        lemma_last_content_is_written(done.drop_last(), path);
        if last_content(done, path) is Some {
            let i = choose|i: int|
                0 <= i < done.drop_last().len() && (#[trigger] done.drop_last()[i]).path == path;
            assert(done[i].path == path);
        }
    } else if done.len() > 0 {
        assert(done[done.len() - 1].path == path);
    }
}

/// Every write of a plan goes to a relative path: none starts with `.` or
/// `/`, and in restrictive mode none holds a reserved character.
pub proof fn lemma_planned_paths_are_relative(map: SourceMapView, restrictive: bool)
    ensures
        forall|i: int|
            0 <= i < planned(map, restrictive).len() ==> {
                let path = (#[trigger] planned(map, restrictive)[i]).path;
                &&& path.len() == 0 || !is_marker(path[0])
                &&& restrictive ==> forall|j: int|
                    0 <= j < path.len() ==> !is_reserved(#[trigger] path[j])
            },
{
    assert forall|i: int| 0 <= i < planned(map, restrictive).len() implies {
        let path = (#[trigger] planned(map, restrictive)[i]).path;
        &&& path.len() == 0 || !is_marker(path[0])
        &&& restrictive ==> forall|j: int| 0 <= j < path.len() ==> !is_reserved(#[trigger] path[j])
    } by {
        lemma_fragment_starts_clean(map.sources[i], restrictive);
        if restrictive {
            lemma_restrictive_fragment_has_no_reserved(map.sources[i]);
        }
    }
}

/// Extracting a source map of N entries without a failure reports exactly N
/// records, one for each entry in order, and leaves at most N files under a
/// root that was empty.
pub proof fn lemma_extraction_reports_every_entry(map: SourceMapView, restrictive: bool)
    ensures
        ({
            let plan = planned(map, restrictive);
            let end = start(plan).after_all(all_written(plan.len()));
            &&& plan.len() == map.sources.len()
            &&& end.due() is None
            &&& end.done() == plan
            &&& end.conclusion() == Ok::<Seq<RecordView>, ErrorView>(records_of(plan, plan.len()))
            &&& records_of(plan, plan.len()).len() == map.sources.len()
            &&& files_after(Map::empty(), plan).dom().finite()
            &&& files_after(Map::empty(), plan).dom().len() <= map.sources.len()
        }),
{
    let plan = planned(map, restrictive);
    lemma_run_without_failure(plan, plan.len());
    lemma_files_are_at_most_writes(plan);
    assert(plan.take(plan.len() as int) =~= plan);
}

} // verus!
