//! Exporting a batch of named payloads into one directory.
//!
//! The writer is a state machine: the caller checks that the directory
//! exists, performs each write that the writer asks for and reports how it
//! went. Entries are handled strictly in order, and the first failure ends
//! the batch; files written before it stay written.

use vstd::prelude::*;
use vstd::utf8::encode_utf8;
use crate::payload::{decode_payload, payload_decoding, PayloadDecoding, PayloadError};

verus! {

/// One file of an export request: its name and its tagged payload.
pub struct EncodedFile {
    pub filename: String,
    pub payload: String,
}

/// A file ready to be written: its name and its decoded bytes.
pub struct DecodedFile {
    pub filename: String,
    pub bytes: Vec<u8>,
}

/// The result of a batch that went through.
pub struct ExportSummary {
    pub count: usize,
    pub directory: String,
}

/// Why a batch stopped.
#[derive(Debug)]
pub enum ExportError {
    /// The destination directory does not exist; nothing was written.
    DirectoryNotFound,
    /// A payload lacks the tag.
    Format,
    /// A payload's base64 text is malformed.
    Decode(base64::DecodeError),
    /// Writing `filename` failed for `cause`.
    Write { filename: String, cause: String },
}

/// What the writer asks its caller to do next.
pub enum BatchAction {
    /// Write these bytes to the file of this name in the directory, replacing
    /// any file of that name, and report the outcome.
    Write(DecodedFile),
    /// The batch is over, with this result.
    Finish(Result<ExportSummary, ExportError>),
}

/// Where a writer stands: before the directory check, with a write
/// outstanding, or done.
#[derive(Clone, Copy, PartialEq, Eq, Structural)]
pub enum BatchPhase {
    AwaitingDirectory,
    Writing,
    Finished,
}

/// Why a batch stopped, without the base64 error reason.
pub enum Fault {
    DirectoryNotFound,
    Format,
    Decode,
    Write { filename: Seq<char>, cause: Seq<char> },
}

/// An action, as a mathematical value.
pub enum Step {
    Write { filename: Seq<char>, bytes: Seq<u8> },
    Done { count: nat },
    Failed(Fault),
}

pub open spec fn fault_of(e: ExportError) -> Fault {
    match e {
        ExportError::DirectoryNotFound => Fault::DirectoryNotFound,
        ExportError::Format => Fault::Format,
        ExportError::Decode(_) => Fault::Decode,
        ExportError::Write { filename, cause } => Fault::Write { filename: filename@, cause: cause@ },
    }
}

pub open spec fn step_of(a: BatchAction) -> Step {
    match a {
        BatchAction::Write(f) => Step::Write { filename: f.filename@, bytes: f.bytes@ },
        BatchAction::Finish(Ok(s)) => Step::Done { count: s.count as nat },
        BatchAction::Finish(Err(e)) => Step::Failed(fault_of(e)),
    }
}

/// The decoding of an entry's payload.
pub open spec fn entry_decoding(e: EncodedFile) -> PayloadDecoding {
    payload_decoding(encode_utf8(e.payload@))
}

pub open spec fn entry_decodes(e: EncodedFile) -> bool {
    entry_decoding(e) is Bytes
}

/// The action due once the entries before `i` have all been written.
pub open spec fn step_at(entries: Seq<EncodedFile>, i: int) -> Step {
    if i >= entries.len() {
        Step::Done { count: entries.len() }
    } else {
        match entry_decoding(entries[i]) {
            PayloadDecoding::Bytes(b) => Step::Write { filename: entries[i].filename@, bytes: b },
            PayloadDecoding::MissingTag => Step::Failed(Fault::Format),
            PayloadDecoding::Malformed => Step::Failed(Fault::Decode),
        }
    }
}

pub open spec fn phase_after(s: Step) -> BatchPhase {
    if s is Write {
        BatchPhase::Writing
    } else {
        BatchPhase::Finished
    }
}

/// The state of a writer.
pub struct BatchState {
    pub entries: Seq<EncodedFile>,
    pub directory: Seq<char>,
    pub next: nat,
    pub phase: BatchPhase,
}

impl BatchState {
    /// While a write is outstanding, it is the write of entry `next`.
    pub open spec fn inv(self) -> bool {
        &&& self.next <= self.entries.len()
        &&& self.phase == BatchPhase::Writing ==> self.next < self.entries.len()
            && step_at(self.entries, self.next as int) is Write
    }
}

/// Writes a batch of entries into one directory, one entry at a time.
pub struct BatchWriter {
    entries: Vec<EncodedFile>,
    directory: String,
    next: usize,
    phase: BatchPhase,
}

impl View for BatchWriter {
    type V = BatchState;

    closed spec fn view(&self) -> BatchState {
        BatchState {
            entries: self.entries@,
            directory: self.directory@,
            next: self.next as nat,
            phase: self.phase,
        }
    }
}

impl BatchWriter {
    /// A writer for `entries` into `directory`, waiting for the directory check.
    pub fn new(entries: Vec<EncodedFile>, directory: String) -> (r: BatchWriter)
        ensures
            r@ == (BatchState {
                entries: entries@,
                directory: directory@,
                next: 0,
                phase: BatchPhase::AwaitingDirectory,
            }),
            r@.inv(),
    {
        BatchWriter { entries, directory, next: 0, phase: BatchPhase::AwaitingDirectory }
    }

    /// The action due at entry `i`.
    fn action_at(&self, i: usize) -> (a: BatchAction)
        requires
            i <= self@.entries.len(),
        ensures
            step_of(a) == step_at(self@.entries, i as int),
            a matches BatchAction::Finish(Ok(s)) ==> s.directory@ == self@.directory,
    {
        if i >= self.entries.len() {
            return BatchAction::Finish(
                Ok(ExportSummary { count: self.entries.len(), directory: self.directory.clone() }),
            );
        }
        let e = &self.entries[i];
        match decode_payload(e.payload.as_str()) {
            Ok(bytes) => BatchAction::Write(DecodedFile { filename: e.filename.clone(), bytes }),
            Err(PayloadError::Format) => BatchAction::Finish(Err(ExportError::Format)),
            Err(PayloadError::Decode(d)) => BatchAction::Finish(Err(ExportError::Decode(d))),
        }
    }

    /// Starts the batch once the caller has checked the directory. A missing
    /// directory ends the batch at once, before any payload is decoded or any
    /// file written.
    pub fn begin(&mut self, directory_exists: bool) -> (a: BatchAction)
        requires
            old(self)@.inv(),
            old(self)@.phase == BatchPhase::AwaitingDirectory,
        ensures
            final(self)@.inv(),
            final(self)@.entries == old(self)@.entries,
            final(self)@.directory == old(self)@.directory,
            !directory_exists ==> step_of(a) == Step::Failed(Fault::DirectoryNotFound)
                && final(self)@.phase == BatchPhase::Finished,
            directory_exists ==> step_of(a) == step_at(old(self)@.entries, 0)
                && final(self)@.next == 0
                && final(self)@.phase == phase_after(step_of(a)),
            a matches BatchAction::Finish(Ok(s)) ==> s.directory@ == old(self)@.directory,
    {
        if !directory_exists {
            self.phase = BatchPhase::Finished;
            return BatchAction::Finish(Err(ExportError::DirectoryNotFound));
        }
        let a = self.action_at(0);
        self.next = 0;
        self.phase = match a {
            BatchAction::Write(_) => BatchPhase::Writing,
            BatchAction::Finish(_) => BatchPhase::Finished,
        };
        a
    }

    /// Takes the outcome of the write that was asked for last. After a
    /// success the writer moves on to the next entry; a failure ends the batch
    /// with a `Write` error that names the file.
    pub fn record_write(&mut self, outcome: Result<(), String>) -> (a: BatchAction)
        requires
            old(self)@.inv(),
            old(self)@.phase == BatchPhase::Writing,
        ensures
            final(self)@.inv(),
            final(self)@.entries == old(self)@.entries,
            final(self)@.directory == old(self)@.directory,
            outcome is Ok ==> step_of(a) == step_at(old(self)@.entries, old(self)@.next + 1 as int)
                && final(self)@.next == old(self)@.next + 1
                && final(self)@.phase == phase_after(step_of(a)),
            outcome matches Err(cause) ==> step_of(a) == Step::Failed(
                Fault::Write {
                    filename: old(self)@.entries[old(self)@.next as int].filename@,
                    cause: cause@,
                },
            ) && final(self)@.phase == BatchPhase::Finished,
            a matches BatchAction::Finish(Ok(s)) ==> s.directory@ == old(self)@.directory,
    {
        match outcome {
            Ok(()) => {
                let n = self.entries.len();
                assert(self.next < n);
                let a = self.action_at(self.next + 1);
                self.next = self.next + 1;
                self.phase = match a {
                    BatchAction::Write(_) => BatchPhase::Writing,
                    BatchAction::Finish(_) => BatchPhase::Finished,
                };
                a
            },
            Err(cause) => {
                let filename = self.entries[self.next].filename.clone();
                self.phase = BatchPhase::Finished;
                BatchAction::Finish(Err(ExportError::Write { filename, cause }))
            },
        }
    }
}

/// The bytes an entry decodes to (empty when it does not decode).
pub open spec fn entry_bytes(e: EncodedFile) -> Seq<u8> {
    match entry_decoding(e) {
        PayloadDecoding::Bytes(b) => b,
        _ => Seq::empty(),
    }
}

/// The writes asked for from entry `i` on, when every write succeeds.
pub open spec fn writes_from(entries: Seq<EncodedFile>, i: int) -> Seq<(Seq<char>, Seq<u8>)>
    decreases entries.len() - i,
{
    if 0 <= i < entries.len() && entry_decodes(entries[i]) {
        seq![(entries[i].filename@, entry_bytes(entries[i]))] + writes_from(entries, i + 1)
    } else {
        Seq::empty()
    }
}

/// How the batch ends from entry `i` on, when every write succeeds.
pub open spec fn outcome_from(entries: Seq<EncodedFile>, i: int) -> Step
    decreases entries.len() - i,
{
    if 0 <= i < entries.len() && entry_decodes(entries[i]) {
        outcome_from(entries, i + 1)
    } else {
        step_at(entries, i)
    }
}

/// The files of a directory, by name, after `writes` are applied in order;
/// a write replaces any file of the same name.
pub open spec fn apply_writes(
    files: Map<Seq<char>, Seq<u8>>,
    writes: Seq<(Seq<char>, Seq<u8>)>,
) -> Map<Seq<char>, Seq<u8>>
    decreases writes.len(),
{
    if writes.len() == 0 {
        files
    } else {
        apply_writes(files.insert(writes[0].0, writes[0].1), writes.drop_first())
    }
}

pub open spec fn written(writes: Seq<(Seq<char>, Seq<u8>)>, name: Seq<char>) -> bool {
    exists|i: int| 0 <= i < writes.len() && #[trigger] writes[i].0 == name
}

pub open spec fn same_file(a: Map<Seq<char>, Seq<u8>>, b: Map<Seq<char>, Seq<u8>>, name: Seq<char>) -> bool {
    &&& a.dom().contains(name) == b.dom().contains(name)
    &&& a.dom().contains(name) ==> a[name] == b[name]
}

proof fn lemma_apply_keeps_unwritten(
    files: Map<Seq<char>, Seq<u8>>,
    writes: Seq<(Seq<char>, Seq<u8>)>,
    name: Seq<char>,
)
    requires
        !written(writes, name),
    ensures
        same_file(apply_writes(files, writes), files, name),
    decreases writes.len(),
{
    if writes.len() > 0 {
        let rest = writes.drop_first();
        assert(!written(rest, name)) by {
            if written(rest, name) {
                let i = choose|i: int| 0 <= i < rest.len() && #[trigger] rest[i].0 == name;
                assert(writes[i + 1].0 == name);
            }
        }
        assert(writes[0].0 != name);
        lemma_apply_keeps_unwritten(files.insert(writes[0].0, writes[0].1), rest, name);
    }
}

proof fn lemma_apply_depends_on_unwritten(
    a: Map<Seq<char>, Seq<u8>>,
    b: Map<Seq<char>, Seq<u8>>,
    writes: Seq<(Seq<char>, Seq<u8>)>,
)
    requires
        forall|name: Seq<char>| !written(writes, name) ==> #[trigger] same_file(a, b, name),
    ensures
        apply_writes(a, writes) == apply_writes(b, writes),
    decreases writes.len(),
{
    if writes.len() == 0 {
        assert forall|name: Seq<char>| #[trigger] same_file(a, b, name) by {
            assert(!written(writes, name));
        }
        assert(a.dom() =~= b.dom()) by {
            assert forall|name: Seq<char>| a.dom().contains(name) == b.dom().contains(name) by {
                assert(same_file(a, b, name));
            }
        }
        assert forall|name: Seq<char>| a.dom().contains(name) implies a[name] == b[name] by {
            assert(same_file(a, b, name));
        }
        assert(a =~= b);
    } else {
        let rest = writes.drop_first();
        let a2 = a.insert(writes[0].0, writes[0].1);
        let b2 = b.insert(writes[0].0, writes[0].1);
        assert forall|name: Seq<char>| !written(rest, name) implies #[trigger] same_file(a2, b2, name) by {
            if name != writes[0].0 {
                assert(!written(writes, name)) by {
                    if written(writes, name) {
                        let i = choose|i: int| 0 <= i < writes.len() && #[trigger] writes[i].0 == name;
                        assert(rest[i - 1].0 == name);
                    }
                }
                assert(same_file(a, b, name));
            }
        }
        lemma_apply_depends_on_unwritten(a2, b2, rest);
    }
}

/// The writer's steps from entry `i` on, when every write succeeds, are the
/// writes of `writes_from` followed by the end that `outcome_from` gives: a
/// write at `i` is the first of `writes_from(entries, i)`, and any other step
/// at `i` ends the batch with no write.
pub proof fn lemma_steps_follow_model(entries: Seq<EncodedFile>, i: int)
    requires
        0 <= i <= entries.len(),
    ensures
        step_at(entries, i) matches Step::Write { filename, bytes } ==> writes_from(entries, i)
            == seq![(filename, bytes)] + writes_from(entries, i + 1) && outcome_from(entries, i)
            == outcome_from(entries, i + 1),
        !(step_at(entries, i) is Write) ==> writes_from(entries, i).len() == 0
            && outcome_from(entries, i) == step_at(entries, i),
{
}

/// A batch whose entries all decode ends in success with every entry
/// written, and running it a second time over the files it left changes
/// nothing: each write replaces the file of its name.
pub proof fn lemma_rerun_keeps_contents(entries: Seq<EncodedFile>, files: Map<Seq<char>, Seq<u8>>)
    requires
        forall|j: int| 0 <= j < entries.len() ==> entry_decodes(#[trigger] entries[j]),
    ensures
        outcome_from(entries, 0) == (Step::Done { count: entries.len() }),
        writes_from(entries, 0).len() == entries.len(),
        apply_writes(apply_writes(files, writes_from(entries, 0)), writes_from(entries, 0))
            == apply_writes(files, writes_from(entries, 0)),
{
    lemma_all_written(entries, 0);
    let w = writes_from(entries, 0);
    let once = apply_writes(files, w);
    assert forall|name: Seq<char>| !written(w, name) implies #[trigger] same_file(once, files, name) by {
        lemma_apply_keeps_unwritten(files, w, name);
    }
    lemma_apply_depends_on_unwritten(once, files, w);
}

proof fn lemma_all_written(entries: Seq<EncodedFile>, i: int)
    requires
        0 <= i <= entries.len(),
        forall|j: int| 0 <= j < entries.len() ==> entry_decodes(#[trigger] entries[j]),
    ensures
        outcome_from(entries, i) == (Step::Done { count: entries.len() }),
        writes_from(entries, i).len() == entries.len() - i,
    decreases entries.len() - i,
{
    if i < entries.len() {
        assert(entry_decodes(entries[i]));
        lemma_all_written(entries, i + 1);
    }
}

/// When entry `k` is the first whose payload does not decode, the batch
/// writes exactly the entries before `k`, in order and with their decoded
/// bytes, then fails with that payload's error; entry `k` and those after it
/// are never written.
pub proof fn lemma_stops_at_first_bad_payload(entries: Seq<EncodedFile>, k: int)
    requires
        0 <= k < entries.len(),
        forall|j: int| 0 <= j < k ==> entry_decodes(#[trigger] entries[j]),
        !entry_decodes(entries[k]),
    ensures
        writes_from(entries, 0) == Seq::new(
            k as nat,
            |j: int| (entries[j].filename@, entry_bytes(entries[j])),
        ),
        outcome_from(entries, 0) == step_at(entries, k),
        step_at(entries, k) is Failed,
{
    lemma_writes_up_to(entries, k, 0);
}

proof fn lemma_writes_up_to(entries: Seq<EncodedFile>, k: int, i: int)
    requires
        0 <= i <= k < entries.len(),
        forall|j: int| 0 <= j < k ==> entry_decodes(#[trigger] entries[j]),
        !entry_decodes(entries[k]),
    ensures
        writes_from(entries, i) == Seq::new(
            (k - i) as nat,
            |j: int| (entries[i + j].filename@, entry_bytes(entries[i + j])),
        ),
        outcome_from(entries, i) == step_at(entries, k),
        step_at(entries, k) is Failed,
    decreases k - i,
{
    if i < k {
        assert(entry_decodes(entries[i]));
        lemma_writes_up_to(entries, k, i + 1);
        assert(writes_from(entries, i) =~= Seq::new(
            (k - i) as nat,
            |j: int| (entries[i + j].filename@, entry_bytes(entries[i + j])),
        ));
    } else {
        assert(writes_from(entries, i) =~= Seq::new(
            (k - i) as nat,
            |j: int| (entries[i + j].filename@, entry_bytes(entries[i + j])),
        ));
    }
}

} // verus!
