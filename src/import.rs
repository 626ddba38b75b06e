//! The import run: messages drawn folder by folder, dispatched to the
//! upload workers in batches of at most the pool size, and every outcome
//! tallied.
use vstd::prelude::*;
use crate::message::{SourceMessage, keywords, received_at, keyword_spec, Flag};
use crate::resolve::{PendingMailbox, PendingView};

verus! {

/// One message to upload.
#[derive(Clone, Debug, PartialEq, Eq)]
pub struct UploadJob {
    /// The message's number in the run, counting from one.
    pub sequence: u64,
    /// The position of the folder path it comes from.
    pub folder: usize,
    pub mailbox_id: String,
    pub identifier: String,
    pub contents: Vec<u8>,
    pub keywords: Option<Vec<String>>,
    pub received_at: Option<i64>,
}

/// Why a message was not imported.
#[derive(Clone, Debug, PartialEq, Eq)]
pub enum ImportFailure {
    /// The archive could not yield it.
    Unreadable { folder: usize, reason: String },
    /// Its folder has no mailbox: creating it, or an ancestor, failed.
    NoMailbox { folder: usize, sequence: u64, identifier: String },
    /// The server did not take it.
    Rejected { folder: usize, sequence: u64, identifier: String, reason: String },
}

/// Whether `job` is the upload of message `m`, numbered `sequence`, from
/// folder `folder` into the mailbox `id`.
pub open spec fn job_for(job: UploadJob, m: SourceMessage, sequence: u64, folder: usize, id: Seq<
    char,
>) -> bool {
    &&& job.sequence == sequence
    &&& job.folder == folder
    &&& job.mailbox_id@ == id
    &&& job.identifier@ == m.identifier@
    &&& job.contents@ == m.contents@
    &&& (job.keywords is None <==> m.flags@.len() == 0)
    &&& (job.keywords is Some ==> job.keywords->Some_0.deep_view() == m.flags@.map_values(
        |f: Flag| keyword_spec(f),
    ))
    &&& (job.received_at is Some <==> 0 < m.received <= i64::MAX)
    &&& (job.received_at is Some ==> job.received_at->Some_0 == m.received as int)
}

/// The state of an import run. The folders are taken one at a time, in
/// order; `targets[k]` is what the folder at position `k` settled to.
#[derive(Debug)]
pub struct ImportRun {
    pub pool_size: usize,
    pub targets: Vec<PendingMailbox>,
    /// The folder being read.
    pub folder: usize,
    /// Messages read so far, whether or not they could be parsed.
    pub produced: u64,
    /// Messages numbered so far.
    pub numbered: u64,
    /// Messages of the current folder waiting for a batch.
    pub pending: Vec<UploadJob>,
    /// Messages handed out whose outcome is not yet known.
    pub awaiting: u64,
    pub imported: u64,
    pub failures: Vec<ImportFailure>,
}

impl ImportRun {
    pub open spec fn wf(&self) -> bool {
        &&& self.pool_size >= 1
        &&& self.pending.len() < self.pool_size
        &&& self.folder <= self.targets.len()
        &&& self.folder == self.targets.len() ==> self.pending.len() == 0
        &&& self.numbered <= self.produced
        &&& self.imported + self.failures.len() + self.pending.len() + self.awaiting
            == self.produced
    }

    /// Whether every folder has been read and every outcome is known.
    pub open spec fn done(&self) -> bool {
        self.folder == self.targets.len() && self.awaiting == 0
    }

    /// A run over folders that settled to `targets`, uploading at most
    /// `pool_size` messages at a time (a pool size of zero is taken as one).
    pub fn new(pool_size: usize, targets: Vec<PendingMailbox>) -> (r: ImportRun)
        ensures
            r.wf(),
            r.pool_size == if pool_size == 0 {
                1
            } else {
                pool_size
            },
            r.targets@ == targets@,
            r.folder == 0,
            r.produced == 0,
            r.numbered == 0,
            r.pending@.len() == 0,
            r.awaiting == 0,
            r.imported == 0,
            r.failures@.len() == 0,
    {
        ImportRun {
            pool_size: if pool_size == 0 {
                1
            } else {
                pool_size
            },
            targets,
            folder: 0,
            produced: 0,
            numbered: 0,
            pending: Vec::new(),
            awaiting: 0,
            imported: 0,
            failures: Vec::new(),
        }
    }

    /// Whether the run is over.
    pub fn is_done(&self) -> (r: bool)
        ensures
            r == self.done(),
    {
        self.folder == self.targets.len() && self.awaiting == 0
    }

    /// Whether a message can be taken now: a folder is being read and no
    /// batch is out.
    pub fn ready(&self) -> (r: bool)
        ensures
            r == (self.folder < self.targets.len() && self.awaiting == 0),
    {
        self.folder < self.targets.len() && self.awaiting == 0
    }

    /// Hands out the pending messages as a batch.
    fn dispatch(&mut self) -> (r: Vec<UploadJob>)
        requires
            old(self).awaiting == 0,
            old(self).imported + old(self).failures.len() + old(self).pending.len()
                == old(self).produced,
        ensures
            r@ == old(self).pending@,
            final(self).pending@.len() == 0,
            final(self).awaiting == r.len(),
            final(self).pool_size == old(self).pool_size,
            final(self).targets == old(self).targets,
            final(self).folder == old(self).folder,
            final(self).produced == old(self).produced,
            final(self).numbered == old(self).numbered,
            final(self).imported == old(self).imported,
            final(self).failures == old(self).failures,
    {
        let mut batch: Vec<UploadJob> = Vec::new();
        std::mem::swap(&mut batch, &mut self.pending);
        self.awaiting = batch.len() as u64;
        batch
    }

    /// Takes the next item that the archive yields for the current folder.
    /// A message is numbered and, when its folder has a mailbox, joins the
    /// pending batch, which is handed out once it holds `pool_size`
    /// messages; otherwise, and for an item that could not be read, a
    /// failure is recorded.
    pub fn accept(&mut self, item: Result<SourceMessage, String>) -> (r: Option<Vec<UploadJob>>)
        requires
            old(self).wf(),
            old(self).folder < old(self).targets.len(),
            old(self).awaiting == 0,
            old(self).produced < u64::MAX,
        ensures
            final(self).wf(),
            final(self).pool_size == old(self).pool_size,
            final(self).targets == old(self).targets,
            final(self).folder == old(self).folder,
            final(self).produced == old(self).produced + 1,
            final(self).imported == old(self).imported,
            match item {
                Err(reason) => {
                    &&& r is None
                    &&& final(self).numbered == old(self).numbered
                    &&& final(self).pending == old(self).pending
                    &&& final(self).failures@ == old(self).failures@.push(
                        ImportFailure::Unreadable { folder: old(self).folder, reason },
                    )
                },
                Ok(m) => {
                    let seq = (old(self).numbered + 1) as u64;
                    &&& final(self).numbered == seq
                    &&& match old(self).targets@[old(self).folder as int]@ {
                        PendingView::ExistingId(id) => {
                            let jobs = final(self).pending@ + match r {
                                Some(b) => b@,
                                None => Seq::empty(),
                            };
                            &&& final(self).failures == old(self).failures
                            &&& jobs.len() == old(self).pending@.len() + 1
                            &&& jobs.drop_last() == old(self).pending@
                            &&& job_for(jobs.last(), m, seq, old(self).folder, id)
                            &&& (r is Some <==> jobs.len() == old(self).pool_size)
                            &&& (r is Some ==> final(self).pending@.len() == 0
                                && final(self).awaiting == jobs.len())
                            &&& (r is None ==> final(self).awaiting == 0)
                        },
                        _ => {
                            &&& r is None
                            &&& final(self).pending == old(self).pending
                            &&& final(self).awaiting == 0
                            &&& final(self).failures@.len() == old(self).failures@.len() + 1
                            &&& final(self).failures@.drop_last() == old(self).failures@
                            &&& match final(self).failures@.last() {
                                ImportFailure::NoMailbox { folder, sequence, identifier } => folder
                                    == old(self).folder && sequence == seq && identifier@
                                    == m.identifier@,
                                _ => false,
                            }
                        },
                    }
                },
            },
    {
        self.produced = self.produced + 1;
        match item {
            Err(reason) => {
                self.failures.push(ImportFailure::Unreadable { folder: self.folder, reason });
                None
            },
            Ok(m) => {
                self.numbered = self.numbered + 1;
                let seq = self.numbered;
                let folder = self.folder;
                let id = match &self.targets[folder] {
                    PendingMailbox::ExistingId(id) => Some(id.clone()),
                    _ => None,
                };
                match id {
                    Some(id) => {
                        let kw = keywords(&m.flags);
                        let received = received_at(m.received);
                        let job = UploadJob {
                            sequence: seq,
                            folder,
                            mailbox_id: id,
                            identifier: m.identifier,
                            contents: m.contents,
                            keywords: kw,
                            received_at: received,
                        };
                        self.pending.push(job);
                        if self.pending.len() == self.pool_size {
                            let batch = self.dispatch();
                            assert(self.pending@ + batch@ =~= batch@);
                            Some(batch)
                        } else {
                            assert(self.pending@ + Seq::empty() =~= self.pending@);
                            None
                        }
                    },
                    None => {
                        self.failures.push(
                            ImportFailure::NoMailbox { folder, sequence: seq, identifier: m.identifier },
                        );
                        None
                    },
                }
            },
        }
    }

    /// Ends the current folder, the archive having nothing more in it: the
    /// messages still pending are handed out as a last, smaller batch, if
    /// there are any, and the next folder is taken.
    pub fn end_folder(&mut self) -> (r: Option<Vec<UploadJob>>)
        requires
            old(self).wf(),
            old(self).folder < old(self).targets.len(),
            old(self).awaiting == 0,
        ensures
            final(self).wf(),
            final(self).pool_size == old(self).pool_size,
            final(self).targets == old(self).targets,
            final(self).folder == old(self).folder + 1,
            final(self).produced == old(self).produced,
            final(self).numbered == old(self).numbered,
            final(self).imported == old(self).imported,
            final(self).failures == old(self).failures,
            final(self).pending@.len() == 0,
            r is Some <==> old(self).pending@.len() > 0,
            match r {
                Some(b) => b@ == old(self).pending@ && final(self).awaiting == b.len(),
                None => final(self).awaiting == 0,
            },
    {
        self.folder = self.folder + 1;
        if self.pending.len() > 0 {
            Some(self.dispatch())
        } else {
            None
        }
    }

    /// Records the outcome of one handed-out upload.
    pub fn record(&mut self, job: &UploadJob, outcome: Result<(), String>)
        requires
            old(self).wf(),
            old(self).awaiting > 0,
        ensures
            final(self).wf(),
            final(self).pool_size == old(self).pool_size,
            final(self).targets == old(self).targets,
            final(self).folder == old(self).folder,
            final(self).produced == old(self).produced,
            final(self).numbered == old(self).numbered,
            final(self).pending == old(self).pending,
            final(self).awaiting == old(self).awaiting - 1,
            match outcome {
                Ok(_) => final(self).imported == old(self).imported + 1 && final(self).failures
                    == old(self).failures,
                Err(reason) => {
                    &&& final(self).imported == old(self).imported
                    &&& final(self).failures@.len() == old(self).failures@.len() + 1
                    &&& final(self).failures@.drop_last() == old(self).failures@
                    &&& match final(self).failures@.last() {
                        ImportFailure::Rejected { folder, sequence, identifier, reason: why } => {
                            folder == job.folder && sequence == job.sequence && identifier@
                                == job.identifier@ && why == reason
                        },
                        _ => false,
                    }
                },
            },
    {
        self.awaiting = self.awaiting - 1;
        match outcome {
            Ok(_) => {
                self.imported = self.imported + 1;
            },
            Err(reason) => {
                let ghost before = self.failures@;
                self.failures.push(
                    ImportFailure::Rejected {
                        folder: job.folder,
                        sequence: job.sequence,
                        identifier: job.identifier.clone(),
                        reason,
                    },
                );
                assert(self.failures@.drop_last() =~= before);
            },
        }
    }
}

/// Once a run is over, every message that the archive yielded has been
/// counted exactly once, as imported or as a failure.
pub proof fn every_message_is_counted(run: ImportRun)
    requires
        run.wf(),
        run.done(),
    ensures
        run.imported + run.failures.len() == run.produced,
{
}

} // verus!
