//! Concurrency-safe store of tracked subprocesses.
//!
//! The registry owns one table of [`ProcessRecord`]s, keyed by `run_id`:
//! at most one entry per id, duplicates rejected at registration, removal
//! idempotent. The kill path is split so that the slow OS work never runs
//! under the table's lock: the caller looks the target up, signals the OS
//! process outside the registry, and hands the observed [`KillOutcome`]
//! back; the registry then settles the entry and the boolean result. Bulk
//! kills snapshot the table first and count the entries individually
//! confirmed killed, never aborting on one member's failure.

use vstd::prelude::*;

use crate::model::{ProcessRecord, ProcessType};

verus! {

/// No two entries share a `run_id`.
pub open spec fn ids_unique(s: Seq<ProcessRecord>) -> bool {
    forall|i: int, j: int| 0 <= i < j < s.len() ==> s[i].run_id != s[j].run_id
}

/// Some entry carries this `run_id`.
pub open spec fn has_id(s: Seq<ProcessRecord>, id: i64) -> bool {
    exists|i: int| 0 <= i < s.len() && s[i].run_id == id
}

/// The predicate an entry must meet to survive removal of `id`.
pub open spec fn keeps_id(id: i64) -> spec_fn(ProcessRecord) -> bool {
    |p: ProcessRecord| p.run_id != id
}

/// The table after every entry with this `run_id` is dropped.
pub open spec fn remove_id(s: Seq<ProcessRecord>, id: i64) -> Seq<ProcessRecord> {
    s.filter(keeps_id(id))
}

/// The predicate selecting interactive-session entries.
pub open spec fn is_assistant_session() -> spec_fn(ProcessRecord) -> bool {
    |p: ProcessRecord| p.process_type is AssistantSession
}

/// The predicate selecting agent-run entries.
pub open spec fn is_agent_run() -> spec_fn(ProcessRecord) -> bool {
    |p: ProcessRecord| p.process_type is AgentRun
}

/// Registration of a duplicate `run_id` is a logic error, never a silent
/// overwrite.
#[derive(Clone, Copy, PartialEq, Eq, Structural, Debug)]
pub enum RegistryError {
    DuplicateRunId,
}

impl RegistryError {
    pub fn message(&self) -> (m: String)
        ensures
            m@ == "duplicate run id"@,
    {
        String::from_str("duplicate run id")
    }
}

/// What the OS signalling step observed for one kill target. "Already gone"
/// covers the no-such-process race, which counts as success, not failure.
pub enum KillOutcome {
    /// Termination confirmed, whether the graceful or the forceful stage
    /// achieved it.
    Exited,
    /// The process had already disappeared before or while signalling.
    AlreadyGone,
    /// A real signalling error: permission denied or an OS call failure.
    Failed(String),
}

/// A kill settles as `true` exactly when the outcome was not a real error.
pub open spec fn kill_succeeds(outcome: KillOutcome) -> bool {
    outcome is Exited || outcome is AlreadyGone
}

/// How many members of a bulk kill were individually confirmed killed.
pub open spec fn count_successes(outcomes: Seq<KillOutcome>) -> nat
    decreases outcomes.len(),
{
    if outcomes.len() == 0 {
        0
    } else {
        (if kill_succeeds(outcomes[0]) {
            1nat
        } else {
            0nat
        }) + count_successes(outcomes.drop_first())
    }
}

/// The table and the confirmed-kill count after killing each listed id in
/// turn, with the outcome observed for it.
pub open spec fn spec_kill_each(
    s: Seq<ProcessRecord>,
    ids: Seq<i64>,
    outcomes: Seq<KillOutcome>,
) -> (Seq<ProcessRecord>, nat)
    decreases ids.len(),
{
    if ids.len() == 0 || outcomes.len() == 0 {
        (s, 0)
    } else {
        let killed = has_id(s, ids[0]) && kill_succeeds(outcomes[0]);
        let s1 = if killed {
            remove_id(s, ids[0])
        } else {
            s
        };
        let rest = spec_kill_each(s1, ids.drop_first(), outcomes.drop_first());
        (rest.0, rest.1 + if killed {
            1nat
        } else {
            0nat
        })
    }
}

pub proof fn lemma_has_id_push(t: Seq<ProcessRecord>, x: ProcessRecord, id: i64)
    ensures
        has_id(t.push(x), id) <==> (has_id(t, id) || x.run_id == id),
{
    if has_id(t, id) {
        let i = choose|i: int| 0 <= i < t.len() && t[i].run_id == id;
        assert(t.push(x)[i].run_id == id);
    }
    if x.run_id == id {
        assert(t.push(x)[t.len() as int].run_id == id);
    }
    if has_id(t.push(x), id) && x.run_id != id {
        let i = choose|i: int| 0 <= i < t.push(x).len() && t.push(x)[i].run_id == id;
        if i < t.len() {
            assert(t[i].run_id == id);
        }
    }
}

pub proof fn lemma_unique_push(t: Seq<ProcessRecord>, x: ProcessRecord)
    requires
        ids_unique(t),
        !has_id(t, x.run_id),
    ensures
        ids_unique(t.push(x)),
{
    assert forall|i: int, j: int| 0 <= i < j < t.push(x).len() implies t.push(x)[i].run_id
        != t.push(x)[j].run_id by {
        if j < t.len() {
            assert(t[i].run_id != t[j].run_id);
        } else {
            if t.push(x)[i].run_id == x.run_id {
                assert(t[i].run_id == x.run_id);
                assert(has_id(t, x.run_id));
            }
        }
    }
}

/// Filtering never invents an id and keeps the table duplicate-free.
pub proof fn lemma_filter_ids(s: Seq<ProcessRecord>, pred: spec_fn(ProcessRecord) -> bool)
    ensures
        forall|id: i64| #[trigger] has_id(s.filter(pred), id) ==> has_id(s, id),
        ids_unique(s) ==> ids_unique(s.filter(pred)),
    decreases s.len(),
{
    reveal(Seq::filter);
    if s.len() > 0 {
        let t = s.drop_last();
        lemma_filter_ids(t, pred);
        assert forall|id: i64| #[trigger] has_id(t, id) implies has_id(s, id) by {
            let i = choose|i: int| 0 <= i < t.len() && t[i].run_id == id;
            assert(s[i].run_id == id);
        }
        assert(ids_unique(s) ==> ids_unique(t));
        if pred(s.last()) {
            lemma_has_id_push(t.filter(pred), s.last(), s.last().run_id);
            assert forall|id: i64| #[trigger] has_id(s.filter(pred), id) implies has_id(
                s,
                id,
            ) by {
                lemma_has_id_push(t.filter(pred), s.last(), id);
                if has_id(t.filter(pred), id) {
                    assert(has_id(t, id));
                } else {
                    assert(s[s.len() - 1].run_id == id);
                }
            }
            if ids_unique(s) {
                if has_id(t.filter(pred), s.last().run_id) {
                    let i = choose|i: int|
                        0 <= i < t.len() && t[i].run_id == s.last().run_id;
                    assert(s[i].run_id == s[s.len() - 1].run_id);
                    assert(false);
                }
                lemma_unique_push(t.filter(pred), s.last());
            }
        }
    }
}

/// A table whose every entry meets the predicate is unchanged by filtering.
pub proof fn lemma_filter_all(s: Seq<ProcessRecord>, pred: spec_fn(ProcessRecord) -> bool)
    requires
        forall|i: int| 0 <= i < s.len() ==> pred(#[trigger] s[i]),
    ensures
        s.filter(pred) == s,
    decreases s.len(),
{
    reveal(Seq::filter);
    if s.len() > 0 {
        let t = s.drop_last();
        lemma_filter_all(t, pred);
        assert(s.filter(pred) =~= s);
    }
}

/// After removal, the id is gone.
pub proof fn lemma_remove_id_gone(s: Seq<ProcessRecord>, id: i64)
    ensures
        !has_id(remove_id(s, id), id),
{
    broadcast use Seq::lemma_filter_pred;

    if has_id(remove_id(s, id), id) {
        let i = choose|i: int|
            0 <= i < remove_id(s, id).len() && remove_id(s, id)[i].run_id == id;
        assert(keeps_id(id)(s.filter(keeps_id(id))[i]));
    }
}

/// Removing an absent id leaves the table unchanged.
pub proof fn lemma_remove_id_absent(s: Seq<ProcessRecord>, id: i64)
    requires
        !has_id(s, id),
    ensures
        remove_id(s, id) == s,
{
    assert forall|i: int| 0 <= i < s.len() implies keeps_id(id)(#[trigger] s[i]) by {
        if s[i].run_id == id {
            assert(has_id(s, id));
        }
    }
    lemma_filter_all(s, keeps_id(id));
}

/// Removing one id keeps every other id present.
pub proof fn lemma_remove_keeps_other(s: Seq<ProcessRecord>, a: i64, b: i64)
    requires
        has_id(s, b),
        a != b,
    ensures
        has_id(remove_id(s, a), b),
{
    let i = choose|i: int| 0 <= i < s.len() && s[i].run_id == b;
    Seq::lemma_filter_contains(s, keeps_id(a), i);
    let fs = s.filter(keeps_id(a));
    let j = choose|j: int| 0 <= j < fs.len() && fs[j] == s[i];
    assert(fs[j].run_id == b);
}

/// The store of tracked subprocesses. Its mathematical value is the sequence
/// of current entries, always free of duplicate run ids.
pub struct ProcessRegistry {
    entries: Vec<ProcessRecord>,
}

impl View for ProcessRegistry {
    type V = Seq<ProcessRecord>;

    closed spec fn view(&self) -> Seq<ProcessRecord> {
        self.entries@
    }
}

impl ProcessRegistry {
    pub open spec fn wf(&self) -> bool {
        ids_unique(self@)
    }

    pub fn new() -> (r: Self)
        ensures
            r@ == Seq::<ProcessRecord>::empty(),
            r.wf(),
    {
        ProcessRegistry { entries: Vec::new() }
    }

    /// Whether an entry with this `run_id` is currently tracked.
    pub fn contains_run_id(&self, run_id: i64) -> (b: bool)
        ensures
            b == has_id(self@, run_id),
    {
        let n = self.entries.len();
        let mut i: usize = 0;
        while i < n
            invariant
                i <= n,
                n == self.entries.len(),
                forall|k: int| 0 <= k < i ==> self.entries@[k].run_id != run_id,
            decreases n - i,
        {
            if self.entries[i].run_id == run_id {
                assert(self@[i as int].run_id == run_id);
                return true;
            }
            i += 1;
        }
        assert(!has_id(self@, run_id));
        false
    }

    /// Stores the entry; rejects a duplicate `run_id` without touching the
    /// table. On success the assigned id — the record's own — is returned.
    pub fn register(&mut self, record: ProcessRecord) -> (r: Result<i64, RegistryError>)
        requires
            old(self).wf(),
        ensures
            final(self).wf(),
            has_id(old(self)@, record.run_id) ==> r == Err::<i64, RegistryError>(
                RegistryError::DuplicateRunId,
            ) && final(self)@ == old(self)@,
            !has_id(old(self)@, record.run_id) ==> r == Ok::<i64, RegistryError>(record.run_id)
                && final(self)@ == old(self)@.push(record),
            final(self)@ == apply_op(old(self)@, RegistryOp::Register(record)),
    {
        if self.contains_run_id(record.run_id) {
            Err(RegistryError::DuplicateRunId)
        } else {
            let id = record.run_id;
            proof {
                lemma_unique_push(self@, record);
            }
            self.entries.push(record);
            Ok(id)
        }
    }

    /// Removes the entry with this id, if any; absent ids are a no-op, so
    /// the operation is idempotent.
    pub fn unregister(&mut self, run_id: i64)
        requires
            old(self).wf(),
        ensures
            final(self).wf(),
            final(self)@ == remove_id(old(self)@, run_id),
            final(self)@ == apply_op(old(self)@, RegistryOp::Unregister(run_id)),
            !has_id(final(self)@, run_id),
    {
        let n = self.entries.len();
        let mut kept: Vec<ProcessRecord> = Vec::new();
        let mut i: usize = 0;
        while i < n
            invariant
                i <= n,
                n == self.entries.len(),
                self@ == old(self)@,
                kept@ == self.entries@.take(i as int).filter(keeps_id(run_id)),
            decreases n - i,
        {
            proof {
                assert(self.entries@.take(i + 1) =~= self.entries@.take(i as int) + seq![
                    self.entries@[i as int],
                ]);
                Seq::filter_distributes_over_add(
                    self.entries@.take(i as int),
                    seq![self.entries@[i as int]],
                    keeps_id(run_id),
                );
                lemma_filter_singleton(self.entries@[i as int], keeps_id(run_id));
            }
            if self.entries[i].run_id != run_id {
                let p = self.entries[i].clone();
                kept.push(p);
                proof {
                    assert(kept@ =~= self.entries@.take(i as int).filter(keeps_id(run_id))
                        + seq![self.entries@[i as int]].filter(keeps_id(run_id)));
                }
            } else {
                proof {
                    assert(kept@ =~= self.entries@.take(i as int).filter(keeps_id(run_id))
                        + seq![self.entries@[i as int]].filter(keeps_id(run_id)));
                }
            }
            i += 1;
        }
        proof {
            assert(self.entries@.take(n as int) =~= self.entries@);
            lemma_filter_ids(old(self)@, keeps_id(run_id));
            lemma_remove_id_gone(old(self)@, run_id);
        }
        self.entries = kept;
    }

    /// Snapshot of every tracked entry, in table order.
    pub fn get_running_processes(&self) -> (r: Vec<ProcessRecord>)
        ensures
            r@ == self@,
    {
        let n = self.entries.len();
        let mut out: Vec<ProcessRecord> = Vec::new();
        let mut i: usize = 0;
        while i < n
            invariant
                i <= n,
                n == self.entries.len(),
                out@ == self.entries@.take(i as int),
            decreases n - i,
        {
            out.push(self.entries[i].clone());
            proof {
                assert(out@ =~= self.entries@.take(i + 1));
            }
            i += 1;
        }
        proof {
            assert(self.entries@.take(n as int) =~= self.entries@);
        }
        out
    }

    /// Snapshot of the interactive-session entries only.
    pub fn get_running_assistant_sessions(&self) -> (r: Vec<ProcessRecord>)
        ensures
            r@ == self@.filter(is_assistant_session()),
    {
        let n = self.entries.len();
        let mut out: Vec<ProcessRecord> = Vec::new();
        let mut i: usize = 0;
        while i < n
            invariant
                i <= n,
                n == self.entries.len(),
                out@ == self.entries@.take(i as int).filter(is_assistant_session()),
            decreases n - i,
        {
            proof {
                assert(self.entries@.take(i + 1) =~= self.entries@.take(i as int) + seq![
                    self.entries@[i as int],
                ]);
                Seq::filter_distributes_over_add(
                    self.entries@.take(i as int),
                    seq![self.entries@[i as int]],
                                    is_assistant_session(),
                );
                lemma_filter_singleton(self.entries@[i as int], is_assistant_session());
            }
            let keep = match &self.entries[i].process_type {
                ProcessType::AssistantSession { .. } => true,
                ProcessType::AgentRun { .. } => false,
            };
            if keep {
                out.push(self.entries[i].clone());
            }
            assert(out@ =~= self.entries@.take(i + 1).filter(is_assistant_session()));
            i += 1;
        }
        proof {
            assert(self.entries@.take(n as int) =~= self.entries@);
        }
        out
    }

    /// Snapshot of the agent-run entries only.
    pub fn get_running_agent_processes(&self) -> (r: Vec<ProcessRecord>)
        ensures
            r@ == self@.filter(is_agent_run()),
    {
        let n = self.entries.len();
        let mut out: Vec<ProcessRecord> = Vec::new();
        let mut i: usize = 0;
        while i < n
            invariant
                i <= n,
                n == self.entries.len(),
                out@ == self.entries@.take(i as int).filter(is_agent_run()),
            decreases n - i,
        {
            proof {
                assert(self.entries@.take(i + 1) =~= self.entries@.take(i as int) + seq![
                    self.entries@[i as int],
                ]);
                Seq::filter_distributes_over_add(
                    self.entries@.take(i as int),
                    seq![self.entries@[i as int]],
                                    is_agent_run(),
                );
                lemma_filter_singleton(self.entries@[i as int], is_agent_run());
            }
            let keep = match &self.entries[i].process_type {
                ProcessType::AssistantSession { .. } => false,
                ProcessType::AgentRun { .. } => true,
            };
            if keep {
                out.push(self.entries[i].clone());
            }
            assert(out@ =~= self.entries@.take(i + 1).filter(is_agent_run()));
            i += 1;
        }
        proof {
            assert(self.entries@.take(n as int) =~= self.entries@);
        }
        out
    }

    /// The pid to signal for this id, or `None` when the id is not tracked.
    /// The caller signals outside the registry so that no lock is ever held
    /// across the wait for exit.
    pub fn kill_target(&self, run_id: i64) -> (r: Option<u32>)
        ensures
            r is Some <==> has_id(self@, run_id),
            r matches Some(pid) ==> exists|i: int|
                0 <= i < self@.len() && self@[i].run_id == run_id && #[trigger] self@[i].pid
                    == pid,
    {
        let n = self.entries.len();
        let mut i: usize = 0;
        while i < n
            invariant
                i <= n,
                n == self.entries.len(),
                forall|k: int| 0 <= k < i ==> self.entries@[k].run_id != run_id,
            decreases n - i,
        {
            if self.entries[i].run_id == run_id {
                let pid = self.entries[i].pid;
                assert(self@[i as int].run_id == run_id && self@[i as int].pid == pid);
                return Some(pid);
            }
            i += 1;
        }
        assert(!has_id(self@, run_id));
        None
    }

    /// Settles one kill: removes the entry exactly when it was present and
    /// the outcome was not a real error. `success` says whether the signal
    /// step confirmed termination ("already gone" included).
    fn kill_one(&mut self, run_id: i64, success: bool) -> (b: bool)
        requires
            old(self).wf(),
        ensures
            final(self).wf(),
            b == (has_id(old(self)@, run_id) && success),
            final(self)@ == (if b {
                remove_id(old(self)@, run_id)
            } else {
                old(self)@
            }),
    {
        if !self.contains_run_id(run_id) {
            return false;
        }
        if success {
            self.unregister(run_id);
            true
        } else {
            false
        }
    }

    /// Settles a kill of `run_id` for which the OS signalling step observed
    /// `outcome`. An untracked id answers `false` and is never an error;
    /// a confirmed termination (or an already-gone race) removes the entry
    /// and answers `true`; only a real signalling error propagates, and it
    /// leaves the entry in place.
    pub fn kill_process(&mut self, run_id: i64, outcome: KillOutcome) -> (r: Result<
        bool,
        String,
    >)
        requires
            old(self).wf(),
        ensures
            final(self).wf(),
            !has_id(old(self)@, run_id) ==> r == Ok::<bool, String>(false) && final(self)@
                == old(self)@,
            has_id(old(self)@, run_id) && kill_succeeds(outcome) ==> r == Ok::<bool, String>(
                true,
            ) && final(self)@ == remove_id(old(self)@, run_id) && !has_id(
                final(self)@,
                run_id,
            ),
            has_id(old(self)@, run_id) ==> (outcome matches KillOutcome::Failed(m) ==> r
                == Err::<bool, String>(m) && final(self)@ == old(self)@),
    {
        if !self.contains_run_id(run_id) {
            return Ok(false);
        }
        match outcome {
            KillOutcome::Failed(m) => Err(m),
            KillOutcome::Exited | KillOutcome::AlreadyGone => {
                self.unregister(run_id);
                proof {
                    lemma_remove_id_gone(old(self)@, run_id);
                }
                Ok(true)
            },
        }
    }

    /// Kills each listed id in turn with the outcome observed for it and
    /// returns how many were confirmed killed. Failures on individual
    /// members never abort the batch.
    pub fn kill_each(&mut self, ids: &Vec<i64>, outcomes: &Vec<KillOutcome>) -> (count: usize)
        requires
            old(self).wf(),
            ids@.len() == outcomes@.len(),
        ensures
            final(self).wf(),
            final(self)@ == spec_kill_each(old(self)@, ids@, outcomes@).0,
            count as nat == spec_kill_each(old(self)@, ids@, outcomes@).1,
    {
        let ghost full = spec_kill_each(old(self)@, ids@, outcomes@);
        proof {
            assert(ids@.skip(0) =~= ids@);
            assert(outcomes@.skip(0) =~= outcomes@);
        }
        let n = ids.len();
        let mut count: usize = 0;
        let mut i: usize = 0;
        while i < n
            invariant
                i <= n,
                n == ids@.len(),
                ids@.len() == outcomes@.len(),
                self.wf(),
                count <= i,
                full == spec_kill_each(old(self)@, ids@, outcomes@),
                full.0 == spec_kill_each(self@, ids@.skip(i as int), outcomes@.skip(i as int)).0,
                full.1 == count + spec_kill_each(
                    self@,
                    ids@.skip(i as int),
                    outcomes@.skip(i as int),
                ).1,
            decreases n - i,
        {
            let ghost pre = self@;
            let success = match &outcomes[i] {
                KillOutcome::Exited => true,
                KillOutcome::AlreadyGone => true,
                KillOutcome::Failed(_) => false,
            };
            let killed = self.kill_one(ids[i], success);
            if killed {
                count += 1;
            }
            proof {
                assert(ids@.skip(i as int)[0] == ids@[i as int]);
                assert(outcomes@.skip(i as int)[0] == outcomes@[i as int]);
                assert(ids@.skip(i as int).drop_first() =~= ids@.skip(i + 1));
                assert(outcomes@.skip(i as int).drop_first() =~= outcomes@.skip(i + 1));
                assert(success == kill_succeeds(outcomes@[i as int]));
                let step = spec_kill_each(pre, ids@.skip(i as int), outcomes@.skip(i as int));
                let rest = spec_kill_each(self@, ids@.skip(i + 1), outcomes@.skip(i + 1));
                assert(step.0 == rest.0);
                assert(step.1 == rest.1 + (if killed {
                    1nat
                } else {
                    0nat
                }));
            }
            i += 1;
        }
        proof {
            assert(ids@.skip(n as int) =~= Seq::<i64>::empty());
            assert(outcomes@.skip(n as int) =~= Seq::<KillOutcome>::empty());
        }
        count
    }
}

/// One step of the registry's evolution, as the table sees it: a (possibly
/// rejected) registration or an unconditional removal.
pub enum RegistryOp {
    Register(ProcessRecord),
    Unregister(i64),
}

/// The table after one operation: a duplicate registration leaves it
/// untouched, a fresh one appends, a removal filters the id out.
pub open spec fn apply_op(s: Seq<ProcessRecord>, op: RegistryOp) -> Seq<ProcessRecord> {
    match op {
        RegistryOp::Register(r) => if has_id(s, r.run_id) {
            s
        } else {
            s.push(r)
        },
        RegistryOp::Unregister(id) => remove_id(s, id),
    }
}

/// The table after a whole sequence of operations, applied in order.
pub open spec fn apply_ops(s: Seq<ProcessRecord>, ops: Seq<RegistryOp>) -> Seq<ProcessRecord>
    decreases ops.len(),
{
    if ops.len() == 0 {
        s
    } else {
        apply_ops(apply_op(s, ops[0]), ops.drop_first())
    }
}

/// Law: under every sequence of registrations and removals, the table —
/// and so the listing snapshot, which reports it verbatim — stays free of
/// duplicate run ids: no entry is ever reported twice and no removed entry
/// lingers, since removal filters every occurrence of the id out.
pub proof fn lemma_ops_keep_unique(s: Seq<ProcessRecord>, ops: Seq<RegistryOp>)
    requires
        ids_unique(s),
    ensures
        ids_unique(apply_ops(s, ops)),
    decreases ops.len(),
{
    if ops.len() > 0 {
        let s1 = apply_op(s, ops[0]);
        match ops[0] {
            RegistryOp::Register(r) => {
                if !has_id(s, r.run_id) {
                    lemma_unique_push(s, r);
                }
            },
            RegistryOp::Unregister(id) => {
                lemma_filter_ids(s, keeps_id(id));
            },
        }
        lemma_ops_keep_unique(s1, ops.drop_first());
    }
}

/// Law: removing an id is idempotent — the second removal of the same id
/// is a no-op, as is removing an id that was never present.
pub proof fn lemma_unregister_idempotent(s: Seq<ProcessRecord>, id: i64)
    ensures
        remove_id(remove_id(s, id), id) == remove_id(s, id),
        !has_id(s, id) ==> remove_id(s, id) == s,
{
    lemma_remove_id_gone(s, id);
    lemma_remove_id_absent(remove_id(s, id), id);
    if !has_id(s, id) {
        lemma_remove_id_absent(s, id);
    }
}

/// Whether a kill of `id` against table `s`, with this observed outcome,
/// settles as `true`.
pub open spec fn spec_kill_settles(s: Seq<ProcessRecord>, id: i64, outcome: KillOutcome) -> bool {
    has_id(s, id) && kill_succeeds(outcome)
}

/// Law: a successful kill removes its id exactly once. Afterwards the id is
/// gone from the table, a repeated kill of the same id settles as `false`
/// whatever its outcome, and it leaves the table unchanged.
pub proof fn lemma_kill_twice(s: Seq<ProcessRecord>, id: i64, second: KillOutcome)
    requires
        has_id(s, id),
    ensures
        !has_id(remove_id(s, id), id),
        !spec_kill_settles(remove_id(s, id), id, second),
        remove_id(remove_id(s, id), id) == remove_id(s, id),
{
    lemma_remove_id_gone(s, id);
    lemma_unregister_idempotent(s, id);
}

/// Law: when a bulk kill's targets are pairwise distinct and all present —
/// as every snapshot of a duplicate-free table is — its count equals the
/// number of members whose individual kill settled as `true`, which is
/// exactly the number of non-error outcomes, however many members failed.
pub proof fn lemma_kill_each_count(
    s: Seq<ProcessRecord>,
    ids: Seq<i64>,
    outcomes: Seq<KillOutcome>,
)
    requires
        ids.len() == outcomes.len(),
        forall|k: int, l: int| 0 <= k < l < ids.len() ==> ids[k] != ids[l],
        forall|k: int| 0 <= k < ids.len() ==> has_id(s, #[trigger] ids[k]),
    ensures
        spec_kill_each(s, ids, outcomes).1 == count_successes(outcomes),
    decreases ids.len(),
{
    if ids.len() > 0 {
        assert(has_id(s, ids[0]));
        let killed = has_id(s, ids[0]) && kill_succeeds(outcomes[0]);
        let s1 = if killed {
            remove_id(s, ids[0])
        } else {
            s
        };
        assert forall|k: int| 0 <= k < ids.drop_first().len() implies has_id(
            s1,
            #[trigger] ids.drop_first()[k],
        ) by {
            assert(ids.drop_first()[k] == ids[k + 1]);
            assert(ids[0] != ids[k + 1]);
            if killed {
                lemma_remove_keeps_other(s, ids[0], ids[k + 1]);
            }
        }
        assert forall|k: int, l: int|
            0 <= k < l < ids.drop_first().len() implies ids.drop_first()[k]
            != ids.drop_first()[l] by {
            assert(ids.drop_first()[k] == ids[k + 1]);
            assert(ids.drop_first()[l] == ids[l + 1]);
        }
        lemma_kill_each_count(s1, ids.drop_first(), outcomes.drop_first());
    }
}

impl ProcessRegistry {
    /// Kills every tracked process, one outcome per entry in table order,
    /// and returns the count confirmed killed: exactly the number of
    /// non-error outcomes, individual failures notwithstanding.
    pub fn kill_all_processes(&mut self, outcomes: &Vec<KillOutcome>) -> (count: usize)
        requires
            old(self).wf(),
            outcomes@.len() == old(self)@.len(),
        ensures
            final(self).wf(),
            count as nat == count_successes(outcomes@),
            final(self)@ == spec_kill_each(
                old(self)@,
                old(self)@.map_values(|p: ProcessRecord| p.run_id),
                outcomes@,
            ).0,
    {
        let snapshot = self.get_running_processes();
        let ids = run_ids_of(&snapshot);
        proof {
            assert(ids@ =~= old(self)@.map_values(|p: ProcessRecord| p.run_id));
            assert forall|k: int| 0 <= k < ids@.len() implies has_id(
                old(self)@,
                #[trigger] ids@[k],
            ) by {
                assert(old(self)@[k].run_id == ids@[k]);
            }
            lemma_kill_each_count(old(self)@, ids@, outcomes@);
        }
        self.kill_each(&ids, outcomes)
    }

    /// Kills every tracked interactive session, one outcome per entry of
    /// the session snapshot in order; agent runs are untouched targets-wise.
    pub fn kill_all_assistant_sessions(&mut self, outcomes: &Vec<KillOutcome>) -> (count: usize)
        requires
            old(self).wf(),
            outcomes@.len() == old(self)@.filter(is_assistant_session()).len(),
        ensures
            final(self).wf(),
            count as nat == count_successes(outcomes@),
            final(self)@ == spec_kill_each(
                old(self)@,
                old(self)@.filter(is_assistant_session()).map_values(
                    |p: ProcessRecord| p.run_id,
                ),
                outcomes@,
            ).0,
    {
        let snapshot = self.get_running_assistant_sessions();
        let ids = run_ids_of(&snapshot);
        proof {
            lemma_filter_ids(old(self)@, is_assistant_session());
            let filtered = old(self)@.filter(is_assistant_session());
            assert(ids@ =~= filtered.map_values(|p: ProcessRecord| p.run_id));
            assert forall|k: int| 0 <= k < ids@.len() implies has_id(
                old(self)@,
                #[trigger] ids@[k],
            ) by {
                assert(filtered[k].run_id == ids@[k]);
                assert(has_id(filtered, ids@[k]));
            }
            lemma_kill_each_count(old(self)@, ids@, outcomes@);
        }
        self.kill_each(&ids, outcomes)
    }

    /// Kills every tracked agent run, one outcome per entry of the agent
    /// snapshot in order; interactive sessions are untouched targets-wise.
    pub fn kill_all_agent_runs(&mut self, outcomes: &Vec<KillOutcome>) -> (count: usize)
        requires
            old(self).wf(),
            outcomes@.len() == old(self)@.filter(is_agent_run()).len(),
        ensures
            final(self).wf(),
            count as nat == count_successes(outcomes@),
            final(self)@ == spec_kill_each(
                old(self)@,
                old(self)@.filter(is_agent_run()).map_values(|p: ProcessRecord| p.run_id),
                outcomes@,
            ).0,
    {
        let snapshot = self.get_running_agent_processes();
        let ids = run_ids_of(&snapshot);
        proof {
            lemma_filter_ids(old(self)@, is_agent_run());
            let filtered = old(self)@.filter(is_agent_run());
            assert(ids@ =~= filtered.map_values(|p: ProcessRecord| p.run_id));
            assert forall|k: int| 0 <= k < ids@.len() implies has_id(
                old(self)@,
                #[trigger] ids@[k],
            ) by {
                assert(filtered[k].run_id == ids@[k]);
                assert(has_id(filtered, ids@[k]));
            }
            lemma_kill_each_count(old(self)@, ids@, outcomes@);
        }
        self.kill_each(&ids, outcomes)
    }
}

/// The run ids of a snapshot, in order.
pub fn run_ids_of(records: &Vec<ProcessRecord>) -> (ids: Vec<i64>)
    ensures
        ids@ == records@.map_values(|p: ProcessRecord| p.run_id),
{
    let n = records.len();
    let mut ids: Vec<i64> = Vec::new();
    let mut i: usize = 0;
    while i < n
        invariant
            i <= n,
            n == records@.len(),
            ids@.len() == i,
            forall|k: int| 0 <= k < i ==> ids@[k] == records@[k].run_id,
        decreases n - i,
    {
        ids.push(records[i].run_id);
        i += 1;
    }
    proof {
        assert(ids@ =~= records@.map_values(|p: ProcessRecord| p.run_id));
    }
    ids
}

/// Where the kill escalation stands: still in the graceful stage, or
/// already escalated to the forceful one.
pub enum KillPhase {
    Graceful,
    Forceful,
}

/// What one signalling attempt observed.
pub enum SignalEvent {
    /// The process exited within the stage's bounded wait.
    Exited,
    /// The bounded wait elapsed with the process still running.
    TimedOut,
    /// The OS reported no such process.
    NoSuchProcess,
    /// The OS denied or failed the signal itself.
    SignalError(String),
}

/// What the kill driver must do next.
pub enum KillStep {
    /// Send the forceful signal and wait again.
    Escalate(KillPhase),
    /// The kill is settled with this outcome.
    Done(KillOutcome),
}

/// The kill escalation policy: one graceful interrupt with a bounded grace
/// period, then one forceful kill. Exit at either stage — and the
/// no-such-process race — settle as success; a signalling failure, or a
/// process that survives even the forceful stage, settles as a real error.
pub fn kill_transition(phase: KillPhase, event: SignalEvent) -> (r: KillStep)
    ensures
        event is Exited ==> r == KillStep::Done(KillOutcome::Exited),
        event is NoSuchProcess ==> r == KillStep::Done(KillOutcome::AlreadyGone),
        event matches SignalEvent::SignalError(m) ==> r == KillStep::Done(
            KillOutcome::Failed(m),
        ),
        phase is Graceful && event is TimedOut ==> r == KillStep::Escalate(
            KillPhase::Forceful,
        ),
        phase is Forceful && event is TimedOut ==> (r matches KillStep::Done(o) && (o
            matches KillOutcome::Failed(m) && m@ == "process survived forceful kill"@)),
{
    match event {
        SignalEvent::Exited => KillStep::Done(KillOutcome::Exited),
        SignalEvent::NoSuchProcess => KillStep::Done(KillOutcome::AlreadyGone),
        SignalEvent::SignalError(m) => KillStep::Done(KillOutcome::Failed(m)),
        SignalEvent::TimedOut => match phase {
            KillPhase::Graceful => KillStep::Escalate(KillPhase::Forceful),
            KillPhase::Forceful => KillStep::Done(
                KillOutcome::Failed(String::from_str("process survived forceful kill")),
            ),
        },
    }
}

proof fn lemma_filter_singleton(x: ProcessRecord, pred: spec_fn(ProcessRecord) -> bool)
    ensures
        seq![x].filter(pred) == (if pred(x) {
            seq![x]
        } else {
            Seq::<ProcessRecord>::empty()
        }),
{
    reveal(Seq::filter);
    assert(seq![x].drop_last() =~= Seq::<ProcessRecord>::empty());
    assert(Seq::<ProcessRecord>::empty().filter(pred) =~= Seq::<ProcessRecord>::empty());
    assert(seq![x].last() == x);
    if pred(x) {
        assert(seq![x].filter(pred) =~= seq![x]);
    } else {
        assert(seq![x].filter(pred) =~= Seq::<ProcessRecord>::empty());
    }
}

} // verus!
