//! The registry: the ordered collection of supervised workers.
//!
//! A worker is known by its position, so positions are always `0..len` and
//! removing a worker moves every later one down by one. The registry starts
//! and stops nothing itself: the caller launches a process and reports its
//! id, and terminates a worker's process before it has the record removed.

use crate::sink::{log_file_name, log_name_of};
use crate::store::{
    entry_views, lemma_save_then_load, parse_roster, render_roster, save_all, RosterEntry,
};
use crate::text::is_word;
use crate::text::copy_bytes;
use vstd::prelude::*;

verus! {

/// One supervised worker.
#[derive(Debug, Clone, PartialEq, Eq)]
pub struct WorkerRecord {
    /// The file that the worker runs.
    pub file_name: Vec<u8>,
    /// The worker's name, which also names its log file.
    pub logical_name: Vec<u8>,
    /// Seconds since the epoch at which the worker was launched.
    pub started_at: u64,
    /// The id of the worker's process, once it has been launched.
    pub handle: Option<u32>,
}

/// A worker record as a mathematical value.
pub struct WorkerModel {
    pub file_name: Seq<u8>,
    pub logical_name: Seq<u8>,
    pub started_at: u64,
    pub handle: Option<u32>,
}

impl View for WorkerRecord {
    type V = WorkerModel;

    open spec fn view(&self) -> WorkerModel {
        WorkerModel {
            file_name: self.file_name@,
            logical_name: self.logical_name@,
            started_at: self.started_at,
            handle: self.handle,
        }
    }
}

/// One line of a status listing.
#[derive(Debug, Clone, PartialEq, Eq)]
pub struct ViewRow {
    pub index: usize,
    pub pid: u32,
    pub logical_name: Vec<u8>,
    pub file_name: Vec<u8>,
    pub elapsed_seconds: u64,
}

/// A status line as a mathematical value.
pub struct RowModel {
    pub index: int,
    pub pid: u32,
    pub logical_name: Seq<u8>,
    pub file_name: Seq<u8>,
    pub elapsed_seconds: u64,
}

impl View for ViewRow {
    type V = RowModel;

    open spec fn view(&self) -> RowModel {
        RowModel {
            index: self.index as int,
            pid: self.pid,
            logical_name: self.logical_name@,
            file_name: self.file_name@,
            elapsed_seconds: self.elapsed_seconds,
        }
    }
}

/// Why the registry refused an operation.
#[derive(Debug, Clone, Copy, PartialEq, Eq, Structural)]
pub enum RegistryError {
    /// The worker's process could not be launched.
    SpawnFailed,
    /// No worker stands at the index given.
    NoSuchIndex,
    /// The worker at the index has no process to terminate.
    NotRunning,
}

/// The supervisor's workers, in the order in which they were registered.
#[derive(Debug, Clone, PartialEq, Eq)]
pub struct Registry {
    pub workers: Vec<WorkerRecord>,
}

impl View for Registry {
    type V = Seq<WorkerModel>;

    open spec fn view(&self) -> Seq<WorkerModel> {
        Seq::new(self.workers@.len(), |i: int| self.workers@[i]@)
    }
}

/// The views of a vector of status lines.
pub open spec fn row_views(v: Seq<ViewRow>) -> Seq<RowModel> {
    Seq::new(v.len(), |i: int| v[i]@)
}

/// Seconds from `started_at` to `now`, and zero where the clock stands
/// before the start.
pub open spec fn elapsed(now: u64, started_at: u64) -> u64 {
    if now >= started_at {
        (now - started_at) as u64
    } else {
        0
    }
}

/// Every worker has a process.
pub open spec fn all_live(ws: Seq<WorkerModel>) -> bool {
    forall|i: int| 0 <= i < ws.len() ==> (#[trigger] ws[i]).handle is Some
}

/// The status listing of `ws` at time `now`: one line for each worker that
/// has a process, in order, under the worker's position in `ws`.
pub open spec fn rows_of(ws: Seq<WorkerModel>, now: u64) -> Seq<RowModel>
    decreases ws.len(),
{
    if ws.len() == 0 {
        Seq::empty()
    } else {
        let before = rows_of(ws.drop_last(), now);
        let w = ws.last();
        match w.handle {
            Some(pid) => before.push(
                RowModel {
                    index: ws.len() - 1,
                    pid,
                    logical_name: w.logical_name,
                    file_name: w.file_name,
                    elapsed_seconds: elapsed(now, w.started_at),
                },
            ),
            None => before,
        }
    }
}

/// The process id of the worker at `index` of `ws`, or why there is none.
pub open spec fn handle_in(ws: Seq<WorkerModel>, index: usize) -> Result<u32, RegistryError> {
    if index >= ws.len() {
        Err(RegistryError::NoSuchIndex)
    } else {
        match ws[index as int].handle {
            Some(pid) => Ok(pid),
            None => Err(RegistryError::NotRunning),
        }
    }
}

/// The roster of `ws`: every worker's file name and name, in order.
pub open spec fn roster_of(ws: Seq<WorkerModel>) -> Seq<(Seq<u8>, Seq<u8>)> {
    Seq::new(ws.len(), |i: int| (ws[i].file_name, ws[i].logical_name))
}

/// One change to the registry: a worker registered with the outcome of its
/// launch, or the worker at an index removed.
pub enum Change {
    Register { file_name: Seq<u8>, logical_name: Seq<u8>, started_at: u64, spawned: Option<u32> },
    RemoveAt { index: usize },
}

/// The workers after one change to `ws`. A failed launch registers nothing;
/// removing at an index that holds no worker with a process removes nothing.
pub open spec fn after(ws: Seq<WorkerModel>, change: Change) -> Seq<WorkerModel> {
    match change {
        Change::Register { file_name, logical_name, started_at, spawned } => match spawned {
            Some(pid) => ws.push(
                WorkerModel { file_name, logical_name, started_at, handle: Some(pid) },
            ),
            None => ws,
        },
        Change::RemoveAt { index } => if handle_in(ws, index) is Ok {
            ws.remove(index as int)
        } else {
            ws
        },
    }
}

/// The workers of a registry that started empty and went through `changes`
/// in order.
pub open spec fn after_all(changes: Seq<Change>) -> Seq<WorkerModel>
    decreases changes.len(),
{
    if changes.len() == 0 {
        Seq::empty()
    } else {
        after(after_all(changes.drop_last()), changes.last())
    }
}

/// No change takes a process away from a worker that stays.
pub proof fn lemma_change_keeps_live(ws: Seq<WorkerModel>, change: Change)
    requires
        all_live(ws),
    ensures
        all_live(after(ws, change)),
{
    let next = after(ws, change);
    assert forall|i: int| 0 <= i < next.len() implies (#[trigger] next[i]).handle is Some by {
        match change {
            Change::Register { file_name, logical_name, started_at, spawned } => {
                if spawned is Some && i < ws.len() {
                    assert(next[i] == ws[i]);
                }
            },
            Change::RemoveAt { index } => {
                if handle_in(ws, index) is Ok {
                    if i < index {
                        assert(next[i] == ws[i]);
                    } else {
                        assert(next[i] == ws[i + 1]);
                    }
                }
            },
        }
    }
}

/// After any sequence of registrations and removals, every worker has a
/// process and the listing numbers the workers `0..len` without a gap.
pub proof fn lemma_dense_after_any_changes(changes: Seq<Change>, now: u64)
    ensures
        all_live(after_all(changes)),
        rows_of(after_all(changes), now).len() == after_all(changes).len(),
        forall|i: int|
            0 <= i < after_all(changes).len() ==> (#[trigger] rows_of(
                after_all(changes),
                now,
            )[i]).index == i,
    decreases changes.len(),
{
    if changes.len() > 0 {
        lemma_dense_after_any_changes(changes.drop_last(), now);
        lemma_change_keeps_live(after_all(changes.drop_last()), changes.last());
    }
    lemma_indices_dense(after_all(changes), now);
}

/// The roster text of workers whose file names and names are words loads
/// back as their roster.
pub proof fn lemma_saved_roster_loads_back(ws: Seq<WorkerModel>)
    requires
        forall|i: int|
            0 <= i < ws.len() ==> is_word((#[trigger] ws[i]).file_name) && is_word(
                ws[i].logical_name,
            ),
    ensures
        parse_roster(render_roster(roster_of(ws))) == roster_of(ws),
{
    let es = roster_of(ws);
    assert forall|i: int| 0 <= i < es.len() implies is_word((#[trigger] es[i]).0) && is_word(
        es[i].1,
    ) by {
        assert(is_word(ws[i].file_name));
    }
    lemma_save_then_load(es);
}

/// Where every worker has a process, the listing has one line for each
/// worker and the line at position `i` carries the index `i`: the indices
/// are `0..len` without a gap.
pub proof fn lemma_indices_dense(ws: Seq<WorkerModel>, now: u64)
    requires
        all_live(ws),
    ensures
        rows_of(ws, now).len() == ws.len(),
        forall|i: int|
            0 <= i < ws.len() ==> {
                let row = #[trigger] rows_of(ws, now)[i];
                &&& row.index == i
                &&& Some(row.pid) == ws[i].handle
                &&& row.logical_name == ws[i].logical_name
                &&& row.file_name == ws[i].file_name
                &&& row.elapsed_seconds == elapsed(now, ws[i].started_at)
            },
    decreases ws.len(),
{
    if ws.len() > 0 {
        let front = ws.drop_last();
        assert forall|i: int| 0 <= i < front.len() implies (#[trigger] front[i]).handle is Some by {
            assert(front[i] == ws[i]);
        }
        lemma_indices_dense(front, now);
        assert(ws.last().handle is Some);
        assert forall|i: int| 0 <= i < ws.len() implies {
            let row = #[trigger] rows_of(ws, now)[i];
            &&& row.index == i
            &&& Some(row.pid) == ws[i].handle
            &&& row.logical_name == ws[i].logical_name
            &&& row.file_name == ws[i].file_name
            &&& row.elapsed_seconds == elapsed(now, ws[i].started_at)
        } by {
            if i < front.len() {
                assert(rows_of(ws, now)[i] == rows_of(front, now)[i]);
                assert(front[i] == ws[i]);
            }
        }
    }
}

/// The indices of a listing rise strictly and stay below the number of
/// workers, whether or not every worker has a process.
pub proof fn lemma_indices_rise(ws: Seq<WorkerModel>, now: u64)
    ensures
        rows_of(ws, now).len() <= ws.len(),
        forall|i: int|
            0 <= i < rows_of(ws, now).len() ==> 0 <= (#[trigger] rows_of(ws, now)[i]).index
                < ws.len(),
        forall|i: int, j: int|
            0 <= i < j < rows_of(ws, now).len() ==> (#[trigger] rows_of(ws, now)[i]).index < (
            #[trigger] rows_of(ws, now)[j]).index,
    decreases ws.len(),
{
    if ws.len() > 0 {
        let front = ws.drop_last();
        lemma_indices_rise(front, now);
        let before = rows_of(front, now);
        let rows = rows_of(ws, now);
        assert forall|i: int| 0 <= i < rows.len() implies 0 <= (#[trigger] rows[i]).index
            < ws.len() by {
            if i < before.len() {
                assert(rows[i] == before[i]);
            }
        }
        assert forall|i: int, j: int| 0 <= i < j < rows.len() implies (#[trigger] rows[i]).index
            < (#[trigger] rows[j]).index by {
            assert(rows[i] == before[i]);
            if j < before.len() {
                assert(rows[j] == before[j]);
            }
        }
    }
}

/// Two listings of the same workers differ only in the elapsed seconds, and
/// those do not fall as the clock moves on.
pub proof fn lemma_listing_repeats(ws: Seq<WorkerModel>, earlier: u64, later: u64)
    requires
        earlier <= later,
    ensures
        rows_of(ws, earlier).len() == rows_of(ws, later).len(),
        forall|i: int|
            0 <= i < rows_of(ws, earlier).len() ==> {
                let a = #[trigger] rows_of(ws, earlier)[i];
                let b = rows_of(ws, later)[i];
                &&& a.index == b.index
                &&& a.pid == b.pid
                &&& a.logical_name == b.logical_name
                &&& a.file_name == b.file_name
                &&& a.elapsed_seconds <= b.elapsed_seconds
            },
        earlier == later ==> rows_of(ws, earlier) == rows_of(ws, later),
    decreases ws.len(),
{
    if ws.len() > 0 {
        let front = ws.drop_last();
        lemma_listing_repeats(front, earlier, later);
        let a0 = rows_of(front, earlier);
        let b0 = rows_of(front, later);
        assert forall|i: int| 0 <= i < rows_of(ws, earlier).len() implies {
            let a = #[trigger] rows_of(ws, earlier)[i];
            let b = rows_of(ws, later)[i];
            &&& a.index == b.index
            &&& a.pid == b.pid
            &&& a.logical_name == b.logical_name
            &&& a.file_name == b.file_name
            &&& a.elapsed_seconds <= b.elapsed_seconds
        } by {
            if i < a0.len() {
                assert(rows_of(ws, earlier)[i] == a0[i]);
                assert(rows_of(ws, later)[i] == b0[i]);
            }
        }
    }
}

impl WorkerRecord {
    /// A record for a worker that has not been launched yet.
    pub fn new(file_name: Vec<u8>, logical_name: Vec<u8>, time: u64) -> (r: Self)
        ensures
            r@ == (WorkerModel {
                file_name: file_name@,
                logical_name: logical_name@,
                started_at: time,
                handle: None,
            }),
    {
        WorkerRecord { file_name, logical_name, started_at: time, handle: None }
    }

    /// Records the process that was launched for this worker.
    pub fn attach(&mut self, pid: u32)
        ensures
            final(self)@ == (WorkerModel { handle: Some(pid), ..old(self)@ }),
    {
        self.handle = Some(pid);
    }

    /// Whether the worker has a process.
    pub fn is_live(&self) -> (r: bool)
        ensures
            r == (self@.handle is Some),
    {
        self.handle.is_some()
    }
}

impl Registry {
    /// A registry without workers.
    pub fn new() -> (r: Self)
        ensures
            r@.len() == 0,
    {
        Registry { workers: Vec::new() }
    }

    /// The number of workers.
    pub fn len(&self) -> (n: usize)
        ensures
            n == self@.len(),
    {
        self.workers.len()
    }

    /// Whether there is no worker at all.
    pub fn is_empty(&self) -> (r: bool)
        ensures
            r == (self@.len() == 0),
    {
        self.workers.len() == 0
    }

    /// Takes a worker in, given the outcome of launching its process: the
    /// process id, or `None` where the launch failed. A launched worker is
    /// appended and its index returned; a failed launch changes nothing.
    pub fn register(
        &mut self,
        file_name: Vec<u8>,
        logical_name: Vec<u8>,
        started_at: u64,
        spawned: Option<u32>,
    ) -> (r: Result<usize, RegistryError>)
        ensures
            final(self)@ == after(
                old(self)@,
                Change::Register {
                    file_name: file_name@,
                    logical_name: logical_name@,
                    started_at,
                    spawned,
                },
            ),
            r == match spawned {
                Some(_) => Ok::<usize, RegistryError>(old(self)@.len() as usize),
                None => Err::<usize, RegistryError>(RegistryError::SpawnFailed),
            },
            all_live(old(self)@) ==> all_live(final(self)@),
    {
        match spawned {
            Some(pid) => {
                let index: usize = self.workers.len();
                let mut record = WorkerRecord::new(file_name, logical_name, started_at);
                record.attach(pid);
                self.workers.push(record);
                proof {
                    assert(self@ =~= old(self)@.push(record@));
                }
                Ok(index)
            },
            None => Err(RegistryError::SpawnFailed),
        }
    }

    /// Carries out the second half of `start`, after the caller has tried to
    /// launch the worker: registers it as `register` does and returns the
    /// roster text to save, which records every worker now registered. Where
    /// the launch failed nothing changes and nothing is to be saved.
    pub fn start(
        &mut self,
        file_name: Vec<u8>,
        logical_name: Vec<u8>,
        started_at: u64,
        spawned: Option<u32>,
    ) -> (r: Result<Vec<u8>, RegistryError>)
        ensures
            final(self)@ == after(
                old(self)@,
                Change::Register {
                    file_name: file_name@,
                    logical_name: logical_name@,
                    started_at,
                    spawned,
                },
            ),
            match r {
                Ok(text) => spawned is Some && text@ == render_roster(roster_of(final(self)@)),
                Err(e) => spawned is None && e == RegistryError::SpawnFailed,
            },
            all_live(old(self)@) ==> all_live(final(self)@),
    {
        match self.register(file_name, logical_name, started_at, spawned) {
            Ok(_) => {
                let entries = self.roster();
                Ok(save_all(&entries))
            },
            Err(e) => Err(e),
        }
    }

    /// The status listing at time `now`.
    pub fn list(&self, now: u64) -> (rows: Vec<ViewRow>)
        ensures
            row_views(rows@) == rows_of(self@, now),
    {
        let mut rows: Vec<ViewRow> = Vec::new();
        let mut i: usize = 0;
        proof {
            assert(row_views(rows@) =~= rows_of(self@.take(0), now));
        }
        while i < self.workers.len()
            invariant
                i <= self.workers.len(),
                row_views(rows@) == rows_of(self@.take(i as int), now),
            decreases self.workers.len() - i,
        {
            let worker = &self.workers[i];
            let ghost before = row_views(rows@);
            proof {
                assert(self@.take(i + 1).drop_last() =~= self@.take(i as int));
                assert(self@.take(i + 1).last() == worker@);
            }
            match worker.handle {
                Some(pid) => {
                    let elapsed_seconds: u64 = if now >= worker.started_at {
                        now - worker.started_at
                    } else {
                        0
                    };
                    let row = ViewRow {
                        index: i,
                        pid,
                        logical_name: copy_bytes(worker.logical_name.as_slice()),
                        file_name: copy_bytes(worker.file_name.as_slice()),
                        elapsed_seconds,
                    };
                    rows.push(row);
                    proof {
                        assert(row_views(rows@) =~= before.push(row@));
                    }
                },
                None => {},
            }
            i += 1;
        }
        proof {
            assert(self@.take(self@.len() as int) =~= self@);
        }
        rows
    }

    /// Takes the worker at `index` out and hands its record back; the caller
    /// has terminated its process. Later workers move down by one. An index
    /// past the end, or a worker without a process, is an error and changes
    /// nothing.
    pub fn remove_at(&mut self, index: usize) -> (r: Result<WorkerRecord, RegistryError>)
        ensures
            final(self)@ == after(old(self)@, Change::RemoveAt { index }),
            match r {
                Ok(record) => handle_in(old(self)@, index) is Ok && record@ == old(
                    self,
                )@[index as int],
                Err(e) => handle_in(old(self)@, index) == Err::<u32, RegistryError>(e),
            },
            all_live(old(self)@) ==> all_live(final(self)@),
    {
        if index >= self.workers.len() {
            return Err(RegistryError::NoSuchIndex);
        }
        if !self.workers[index].is_live() {
            return Err(RegistryError::NotRunning);
        }
        let record = self.workers.remove(index);
        proof {
            assert(self@ =~= old(self)@.remove(index as int));
        }
        Ok(record)
    }

    /// The process id of the worker at `index`. An index past the end, or a
    /// worker without a process, is an error.
    pub fn handle_at(&self, index: usize) -> (r: Result<u32, RegistryError>)
        ensures
            r == handle_in(self@, index),
    {
        if index >= self.workers.len() {
            return Err(RegistryError::NoSuchIndex);
        }
        match self.workers[index].handle {
            Some(pid) => Ok(pid),
            None => Err(RegistryError::NotRunning),
        }
    }

    /// The name of the log file of the worker at `index`.
    pub fn logs_of(&self, index: usize) -> (r: Result<Vec<u8>, RegistryError>)
        ensures
            match r {
                Ok(name) => index < self@.len() && name@ == log_name_of(
                    self@[index as int].logical_name,
                ),
                Err(e) => index >= self@.len() && e == RegistryError::NoSuchIndex,
            },
    {
        if index >= self.workers.len() {
            return Err(RegistryError::NoSuchIndex);
        }
        Ok(log_file_name(self.workers[index].logical_name.as_slice()))
    }

    /// The roster to save: every worker's file name and name, in order.
    pub fn roster(&self) -> (out: Vec<RosterEntry>)
        ensures
            entry_views(out@) == roster_of(self@),
    {
        let mut out: Vec<RosterEntry> = Vec::new();
        let mut i: usize = 0;
        while i < self.workers.len()
            invariant
                i <= self.workers.len(),
                entry_views(out@) =~= roster_of(self@).take(i as int),
            decreases self.workers.len() - i,
        {
            let worker = &self.workers[i];
            let ghost before = entry_views(out@);
            let entry = RosterEntry {
                file_name: copy_bytes(worker.file_name.as_slice()),
                logical_name: copy_bytes(worker.logical_name.as_slice()),
            };
            proof {
                assert(self@[i as int] == worker@);
                assert(entry@ == roster_of(self@)[i as int]);
            }
            out.push(entry);
            proof {
                assert(entry_views(out@) =~= before.push(entry@));
            }
            i += 1;
        }
        proof {
            assert(roster_of(self@).take(self@.len() as int) =~= roster_of(self@));
        }
        out
    }
}

} // verus!
