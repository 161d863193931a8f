//! The registry of background tasks.

pub mod gate;

pub use gate::BuildGate;

use vstd::prelude::*;

use crate::error::{CoreError, ErrorView};
use crate::json::{Json, JsonView};
use crate::text::{clone_opt, same_text};
use crate::text;
use crate::time::Duration;
use crate::workspace::new_uuid;
use crate::workspace;

verus! {

broadcast use vstd::string::group_string_axioms;

#[derive(Debug, Clone, Copy, PartialEq, Eq, Structural)]
pub enum TaskState {
    Working,
    Completed,
    Failed,
    Cancelled,
}

/// Whether a task in this state is over.
pub open spec fn terminal(s: TaskState) -> bool {
    !(s is Working)
}

impl TaskState {
    /// Whether a task in this state is over.
    pub fn is_terminal(self) -> (r: bool)
        ensures
            r == terminal(self),
    {
        match self {
            TaskState::Working => false,
            _ => true,
        }
    }
}

/// What is told of a task. Times are nanoseconds since the start of 1970.
#[derive(Debug)]
pub struct TaskSnapshot {
    pub id: String,
    pub state: TaskState,
    pub status_message: Option<String>,
    pub created_at: i128,
    pub last_updated_at: i128,
    pub ttl: Duration,
}

/// What a [`TaskSnapshot`] says.
pub struct SnapshotView {
    pub id: Seq<char>,
    pub state: TaskState,
    pub status: Option<Seq<char>>,
    pub created_at: int,
    pub last_updated_at: int,
    pub ttl: nat,
}

impl View for TaskSnapshot {
    type V = SnapshotView;

    open spec fn view(&self) -> SnapshotView {
        SnapshotView {
            id: self.id@,
            state: self.state,
            status: text::opt_view(self.status_message),
            created_at: self.created_at as int,
            last_updated_at: self.last_updated_at as int,
            ttl: self.ttl@,
        }
    }
}

#[derive(Debug)]
struct Record {
    id: String,
    state: TaskState,
    status_message: Option<String>,
    created_at: i128,
    last_updated_at: i128,
    ttl: Duration,
    /// Kept until the retention window closes. Reading it does not remove it.
    result: Option<Json>,
}

/// What the registry holds of a task.
pub struct RecordView {
    pub state: TaskState,
    pub status: Option<Seq<char>>,
    pub created_at: int,
    pub last_updated_at: int,
    pub ttl: nat,
    pub result: Option<JsonView>,
}

spec fn record_view(r: Record) -> RecordView {
    RecordView {
        state: r.state,
        status: text::opt_view(r.status_message),
        created_at: r.created_at as int,
        last_updated_at: r.last_updated_at as int,
        ttl: r.ttl@,
        result: json_opt_view(r.result),
    }
}

/// What an optional document says.
pub open spec fn json_opt_view(v: Option<Json>) -> Option<JsonView> {
    match v {
        Some(j) => Some(j@),
        None => None,
    }
}

/// What is told of a task that the registry holds as `r`.
pub open spec fn snapshot_of(id: Seq<char>, r: RecordView) -> SnapshotView {
    SnapshotView {
        id,
        state: r.state,
        status: r.status,
        created_at: r.created_at,
        last_updated_at: r.last_updated_at,
        ttl: r.ttl,
    }
}

// ---------------------------------------------------------------------------
// Model
// ---------------------------------------------------------------------------

/// The tasks of a registry, by id.
pub type Tasks = Map<Seq<char>, RecordView>;

/// The retention window a task gets: the one asked for, or the default, but never more than
/// the maximum.
pub open spec fn clamped(requested: Option<nat>, default_ttl: nat, max_ttl: nat) -> nat {
    let asked = match requested {
        Some(n) => n,
        None => default_ttl,
    };
    if max_ttl < asked {
        max_ttl
    } else {
        asked
    }
}

/// A task that was just created.
pub open spec fn fresh(ttl: nat, now: int) -> RecordView {
    RecordView {
        state: TaskState::Working,
        status: Some("queued"@),
        created_at: now,
        last_updated_at: now,
        ttl,
        result: None,
    }
}

/// The tasks after a progress message: only a task that is still working takes it.
pub open spec fn after_status(tasks: Tasks, id: Seq<char>, msg: Seq<char>, now: int) -> Tasks {
    if tasks.contains_key(id) && !terminal(tasks[id].state) {
        tasks.insert(
            id,
            RecordView { status: Some(msg), last_updated_at: now, ..tasks[id] },
        )
    } else {
        tasks
    }
}

/// The tasks after one of them ended with a result: only a task that is still working can.
pub open spec fn after_finish(
    tasks: Tasks,
    id: Seq<char>,
    result: JsonView,
    failed: bool,
    now: int,
) -> Tasks {
    if tasks.contains_key(id) && !terminal(tasks[id].state) {
        tasks.insert(
            id,
            RecordView {
                state: if failed {
                    TaskState::Failed
                } else {
                    TaskState::Completed
                },
                status: Some(
                    if failed {
                        "failed"@
                    } else {
                        "completed"@
                    },
                ),
                last_updated_at: now,
                result: Some(result),
                ..tasks[id]
            },
        )
    } else {
        tasks
    }
}

/// The tasks after one of them was cancelled: only a task that is still working can be.
pub open spec fn after_cancel(tasks: Tasks, id: Seq<char>, now: int) -> Tasks {
    if tasks.contains_key(id) && !terminal(tasks[id].state) {
        tasks.insert(
            id,
            RecordView {
                state: TaskState::Cancelled,
                status: Some("cancelled"@),
                last_updated_at: now,
                ..tasks[id]
            },
        )
    } else {
        tasks
    }
}

/// Whether a task is kept at time `now`: it works still, or its retention window, which runs
/// from its end, has not closed. A clock that went back keeps it.
pub open spec fn kept(r: RecordView, now: int) -> bool {
    !terminal(r.state) || now < r.last_updated_at || now - r.last_updated_at < r.ttl
}

/// The tasks that are kept at time `now`.
pub open spec fn after_gc(tasks: Tasks, now: int) -> Tasks {
    tasks.restrict(tasks.dom().filter(|id: Seq<char>| kept(tasks[id], now)))
}

/// Whether a task in this state has a result: it ended by itself.
pub open spec fn finished(s: TaskState) -> bool {
    s is Completed || s is Failed
}

/// Whether a task has a result exactly where it ended by itself: one that works still, or was
/// cancelled, has none.
pub open spec fn whole(r: RecordView) -> bool {
    r.result is Some <==> finished(r.state)
}

/// Whether exactly the finished tasks have a result.
pub open spec fn sound(tasks: Tasks) -> bool {
    forall|id: Seq<char>| #[trigger] tasks.contains_key(id) ==> whole(tasks[id])
}

// ---------------------------------------------------------------------------
// Laws
// ---------------------------------------------------------------------------

/// That exactly the finished tasks have a result holds of an empty registry, and every operation
/// keeps it.
pub proof fn law_exactly_finished_tasks_have_results(
    tasks: Tasks,
    id: Seq<char>,
    ttl: nat,
    msg: Seq<char>,
    result: JsonView,
    failed: bool,
    now: int,
)
    requires
        sound(tasks),
    ensures
        sound(Tasks::empty()),
        sound(tasks.insert(id, fresh(ttl, now))),
        sound(after_status(tasks, id, msg, now)),
        sound(after_finish(tasks, id, result, failed, now)),
        sound(after_cancel(tasks, id, now)),
        sound(after_gc(tasks, now)),
{
    assert(tasks.contains_key(id) ==> whole(tasks[id]));
    assert forall|other: Seq<char>| #[trigger] after_gc(tasks, now).contains_key(other) implies whole(
        after_gc(tasks, now)[other],
    ) by {
        assert(tasks.contains_key(other));
    }
}

/// A task that is over stays as it is: no progress message, result or cancellation touches it
/// any more, nor bumps the clock of its retention window.
pub proof fn law_terminal_tasks_never_change(
    tasks: Tasks,
    id: Seq<char>,
    msg: Seq<char>,
    result: JsonView,
    failed: bool,
    now: int,
)
    requires
        tasks.contains_key(id),
        terminal(tasks[id].state),
    ensures
        after_status(tasks, id, msg, now) == tasks,
        after_finish(tasks, id, result, failed, now) == tasks,
        after_cancel(tasks, id, now) == tasks,
{
}

/// No operation on one task touches another.
pub proof fn law_tasks_do_not_interfere(
    tasks: Tasks,
    id: Seq<char>,
    other: Seq<char>,
    msg: Seq<char>,
    result: JsonView,
    failed: bool,
    now: int,
)
    requires
        id != other,
    ensures
        ({
            let s = after_status(tasks, id, msg, now);
            let f = after_finish(tasks, id, result, failed, now);
            let c = after_cancel(tasks, id, now);
            &&& s.contains_key(other) == tasks.contains_key(other)
            &&& f.contains_key(other) == tasks.contains_key(other)
            &&& c.contains_key(other) == tasks.contains_key(other)
            &&& tasks.contains_key(other) ==> s[other] == tasks[other] && f[other] == tasks[other]
                && c[other] == tasks[other]
        }),
{
}

/// No retention window is longer than the maximum, and one that is not asked for is the
/// default where that is allowed.
pub proof fn law_ttl_is_clamped(requested: Option<nat>, default_ttl: nat, max_ttl: nat)
    ensures
        clamped(requested, default_ttl, max_ttl) <= max_ttl,
        requested matches Some(n) ==> n <= max_ttl ==> clamped(requested, default_ttl, max_ttl)
            == n,
        requested is None && default_ttl <= max_ttl ==> clamped(requested, default_ttl, max_ttl)
            == default_ttl,
{
}

/// A task that still works is never evicted, however old it is.
pub proof fn law_working_tasks_are_never_evicted(tasks: Tasks, id: Seq<char>, now: int)
    requires
        tasks.contains_key(id),
        !terminal(tasks[id].state),
    ensures
        after_gc(tasks, now).contains_key(id),
        after_gc(tasks, now)[id] == tasks[id],
{
}

/// A result can be read again and again until its retention window closes, which runs from the
/// end of the task, however long it took; and then it is evicted.
pub proof fn law_results_are_kept_from_the_finish(
    tasks: Tasks,
    id: Seq<char>,
    result: JsonView,
    failed: bool,
    finished: int,
    now: int,
)
    requires
        tasks.contains_key(id),
        !terminal(tasks[id].state),
        finished <= now,
    ensures
        ({
            let done = after_finish(tasks, id, result, failed, finished);
            let later = after_gc(done, now);
            &&& done[id].result == Some(result)
            &&& now - finished < tasks[id].ttl ==> later.contains_key(id) && later[id] == done[id]
            &&& now - finished >= tasks[id].ttl ==> !later.contains_key(id)
        }),
{
}

/// Evicting changes nothing of what it keeps, and twice at one time is as good as once.
pub proof fn law_eviction_only_removes(tasks: Tasks, now: int)
    ensures
        after_gc(tasks, now).submap_of(tasks),
        after_gc(after_gc(tasks, now), now) == after_gc(tasks, now),
{
    assert(after_gc(after_gc(tasks, now), now) =~= after_gc(tasks, now));
}

// ---------------------------------------------------------------------------
// Registry
// ---------------------------------------------------------------------------

/// In-memory task registry. The time to live of a task is a retention window: how long the
/// result of a finished task is kept, not how long it may run.
#[derive(Debug)]
pub struct TaskStore {
    records: Vec<Record>,
    default_ttl: Duration,
    max_ttl: Duration,
}

spec fn distinct(rs: Seq<Record>) -> bool {
    forall|i: int, j: int| 0 <= i < j < rs.len() ==> #[trigger] rs[i].id@ != #[trigger] rs[j].id@
}

spec fn all_whole(rs: Seq<Record>) -> bool {
    forall|i: int| 0 <= i < rs.len() ==> whole(record_view(#[trigger] rs[i]))
}

spec fn ids(rs: Seq<Record>) -> Set<Seq<char>> {
    Set::new(|id: Seq<char>| exists|i: int| 0 <= i < rs.len() && #[trigger] rs[i].id@ == id)
}

spec fn index_of(rs: Seq<Record>, id: Seq<char>) -> int {
    choose|i: int| 0 <= i < rs.len() && #[trigger] rs[i].id@ == id
}

spec fn tasks_of(rs: Seq<Record>) -> Tasks {
    Map::new(|id: Seq<char>| ids(rs).contains(id), |id: Seq<char>| record_view(rs[index_of(rs, id)]))
}

proof fn lemma_lookup(rs: Seq<Record>, i: int)
    requires
        distinct(rs),
        0 <= i < rs.len(),
    ensures
        tasks_of(rs).contains_key(rs[i].id@),
        tasks_of(rs)[rs[i].id@] == record_view(rs[i]),
{
    let k = index_of(rs, rs[i].id@);
    assert(rs[k].id@ == rs[i].id@);
    assert(k == i);
}

/// Replacing one record, its id kept, changes that task alone.
proof fn lemma_replace(rs: Seq<Record>, i: int, r: Record)
    requires
        distinct(rs),
        0 <= i < rs.len(),
        r.id@ == rs[i].id@,
    ensures
        distinct(rs.update(i, r)),
        tasks_of(rs.update(i, r)) == tasks_of(rs).insert(r.id@, record_view(r)),
{
    let new = rs.update(i, r);
    assert(distinct(new)) by {
        assert forall|a: int, b: int| 0 <= a < b < new.len() implies #[trigger] new[a].id@
            != #[trigger] new[b].id@ by {
            assert(new[a].id@ == rs[a].id@ && new[b].id@ == rs[b].id@);
        }
    }
    lemma_lookup(new, i);
    assert forall|id: Seq<char>| tasks_of(new).contains_key(id) == tasks_of(rs).insert(
        r.id@,
        record_view(r),
    ).contains_key(id) by {
        if tasks_of(new).contains_key(id) {
            let k = index_of(new, id);
            assert(new[k].id@ == id);
            assert(rs[k].id@ == id);
        }
        if tasks_of(rs).contains_key(id) {
            let k = index_of(rs, id);
            assert(rs[k].id@ == id);
            assert(new[k].id@ == id);
        }
    }
    assert forall|id: Seq<char>| #[trigger] tasks_of(new).contains_key(id) implies tasks_of(new)[id]
        == tasks_of(rs).insert(r.id@, record_view(r))[id] by {
        let k = index_of(new, id);
        assert(new[k].id@ == id);
        lemma_lookup(new, k);
        if k != i {
            lemma_lookup(rs, k);
            assert(rs[k] == new[k]);
            assert(id != r.id@);
        }
    }
    assert(tasks_of(new) =~= tasks_of(rs).insert(r.id@, record_view(r)));
}

/// Appending a record with a new id adds that task alone.
proof fn lemma_append(rs: Seq<Record>, r: Record)
    requires
        distinct(rs),
        !tasks_of(rs).contains_key(r.id@),
    ensures
        distinct(rs.push(r)),
        tasks_of(rs.push(r)) == tasks_of(rs).insert(r.id@, record_view(r)),
{
    let new = rs.push(r);
    assert(distinct(new)) by {
        assert forall|a: int, b: int| 0 <= a < b < new.len() implies #[trigger] new[a].id@
            != #[trigger] new[b].id@ by {
            if b == rs.len() {
                if rs[a].id@ == r.id@ {
                    lemma_lookup(rs, a);
                }
            } else {
                assert(rs[a].id@ != rs[b].id@);
            }
        }
    }
    lemma_lookup(new, rs.len() as int);
    assert forall|id: Seq<char>| tasks_of(new).contains_key(id) == tasks_of(rs).insert(
        r.id@,
        record_view(r),
    ).contains_key(id) by {
        if tasks_of(new).contains_key(id) {
            let k = index_of(new, id);
            assert(new[k].id@ == id);
            if k < rs.len() {
                assert(rs[k].id@ == id);
            }
        }
        if tasks_of(rs).contains_key(id) {
            let k = index_of(rs, id);
            assert(rs[k].id@ == id);
            assert(new[k].id@ == id);
        }
    }
    assert forall|id: Seq<char>| #[trigger] tasks_of(new).contains_key(id) implies tasks_of(new)[id]
        == tasks_of(rs).insert(r.id@, record_view(r))[id] by {
        let k = index_of(new, id);
        assert(new[k].id@ == id);
        lemma_lookup(new, k);
        if k < rs.len() {
            lemma_lookup(rs, k);
            assert(rs[k] == new[k]);
        }
    }
    assert(tasks_of(new) =~= tasks_of(rs).insert(r.id@, record_view(r)));
}

impl View for TaskStore {
    type V = Tasks;

    closed spec fn view(&self) -> Tasks {
        tasks_of(self.records@)
    }
}

impl Record {
    fn snapshot(&self) -> (r: TaskSnapshot)
        ensures
            r@ == snapshot_of(self.id@, record_view(*self)),
    {
        TaskSnapshot {
            id: self.id.clone(),
            state: self.state,
            status_message: clone_opt(&self.status_message),
            created_at: self.created_at,
            last_updated_at: self.last_updated_at,
            ttl: self.ttl,
        }
    }
}

impl TaskStore {
    #[verifier::type_invariant]
    spec fn well_formed(self) -> bool {
        distinct(self.records@) && all_whole(self.records@)
    }

    pub closed spec fn default_ttl(&self) -> nat {
        self.default_ttl@
    }

    pub closed spec fn max_ttl(&self) -> nat {
        self.max_ttl@
    }

    /// An empty registry.
    pub fn new(default_ttl: Duration, max_ttl: Duration) -> (r: TaskStore)
        ensures
            r@ == Tasks::empty(),
            r.default_ttl() == default_ttl@,
            r.max_ttl() == max_ttl@,
    {
        let r = TaskStore { records: Vec::new(), default_ttl, max_ttl };
        assert(tasks_of(r.records@) =~= Tasks::empty());
        r
    }

    fn find(&self, id: &str) -> (r: Option<usize>)
        ensures
            match r {
                Some(i) => i < self.records.len() && self.records@[i as int].id@ == id@
                    && self@.contains_key(id@) && self@[id@] == record_view(
                    self.records@[i as int],
                ) && whole(self@[id@]),
                None => !self@.contains_key(id@),
            },
    {
        proof {
            use_type_invariant(self);
        }
        let mut i: usize = 0;
        while i < self.records.len()
            invariant
                i <= self.records.len(),
                distinct(self.records@),
                all_whole(self.records@),
                forall|j: int| 0 <= j < i ==> #[trigger] self.records@[j].id@ != id@,
            decreases self.records.len() - i,
        {
            if same_text(self.records[i].id.as_str(), id) {
                proof {
                    lemma_lookup(self.records@, i as int);
                }
                return Some(i);
            }
            i = i + 1;
        }
        None
    }

    /// Puts a record in the place of the one at `i`, which has the same id.
    fn replace(&mut self, i: usize, r: Record)
        requires
            i < old(self).records.len(),
            old(self).records@[i as int].id@ == r.id@,
            whole(record_view(r)),
        ensures
            final(self)@ == old(self)@.insert(r.id@, record_view(r)),
            final(self).default_ttl() == old(self).default_ttl(),
            final(self).max_ttl() == old(self).max_ttl(),
    {
        proof {
            use_type_invariant(&*self);
            lemma_replace(self.records@, i as int, r);
        }
        let mut records: Vec<Record> = Vec::new();
        std::mem::swap(&mut records, &mut self.records);
        records.set(i, r);
        self.records = records;
    }

    /// Adds the task `id`, in the place of one with the same id, and returns the retention
    /// window it got.
    pub fn create_with_id(&mut self, id: &str, requested_ttl: Option<Duration>, now: i128) -> (r:
        Duration)
        ensures
            r@ == clamped(
                match requested_ttl {
                    Some(d) => Some(d@),
                    None => None,
                },
                old(self).default_ttl(),
                old(self).max_ttl(),
            ),
            final(self)@ == old(self)@.insert(id@, fresh(r@, now as int)),
            final(self).default_ttl() == old(self).default_ttl(),
            final(self).max_ttl() == old(self).max_ttl(),
    {
        let asked = match requested_ttl {
            Some(d) => d,
            None => self.default_ttl,
        };
        let ttl = asked.min(self.max_ttl);
        let record = Record {
            id: id.to_owned(),
            state: TaskState::Working,
            status_message: Some("queued".to_owned()),
            created_at: now,
            last_updated_at: now,
            ttl,
            result: None,
        };
        match self.find(id) {
            Some(i) => self.replace(i, record),
            None => {
                proof {
                    use_type_invariant(&*self);
                    lemma_append(self.records@, record);
                }
                let mut records: Vec<Record> = Vec::new();
                std::mem::swap(&mut records, &mut self.records);
                records.push(record);
                self.records = records;
            },
        }
        ttl
    }

    /// Adds a task with a new random id. Returns the id and the retention window it got, which
    /// must be reported to the client.
    pub fn create(&mut self, requested_ttl: Option<Duration>, now: i128) -> (r: (String, Duration))
        ensures
            workspace::uuid_text(r.0@),
            r.1@ == clamped(
                match requested_ttl {
                    Some(d) => Some(d@),
                    None => None,
                },
                old(self).default_ttl(),
                old(self).max_ttl(),
            ),
            final(self)@ == old(self)@.insert(r.0@, fresh(r.1@, now as int)),
            final(self).default_ttl() == old(self).default_ttl(),
            final(self).max_ttl() == old(self).max_ttl(),
    {
        let id = new_uuid();
        let ttl = self.create_with_id(id.as_str(), requested_ttl, now);
        (id, ttl)
    }

    /// Sets the progress message of a task that still works.
    pub fn set_status(&mut self, id: &str, msg: &str, now: i128)
        ensures
            final(self)@ == after_status(old(self)@, id@, msg@, now as int),
            final(self).default_ttl() == old(self).default_ttl(),
            final(self).max_ttl() == old(self).max_ttl(),
    {
        match self.find(id) {
            Some(i) => {
                if self.records[i].state.is_terminal() {
                    return;
                }
                let record = Record {
                    id: self.records[i].id.clone(),
                    state: self.records[i].state,
                    status_message: Some(msg.to_owned()),
                    created_at: self.records[i].created_at,
                    last_updated_at: now,
                    ttl: self.records[i].ttl,
                    result: duplicate_result(&self.records[i].result),
                };
                self.replace(i, record);
            },
            None => {},
        }
    }

    /// Ends a task that still works with a result.
    pub fn finish(&mut self, id: &str, result: Json, failed: bool, now: i128)
        ensures
            final(self)@ == after_finish(old(self)@, id@, result@, failed, now as int),
            final(self).default_ttl() == old(self).default_ttl(),
            final(self).max_ttl() == old(self).max_ttl(),
    {
        match self.find(id) {
            Some(i) => {
                if self.records[i].state.is_terminal() {
                    return;
                }
                let record = Record {
                    id: self.records[i].id.clone(),
                    state: if failed {
                        TaskState::Failed
                    } else {
                        TaskState::Completed
                    },
                    status_message: Some(
                        if failed {
                            "failed".to_owned()
                        } else {
                            "completed".to_owned()
                        },
                    ),
                    created_at: self.records[i].created_at,
                    last_updated_at: now,
                    ttl: self.records[i].ttl,
                    result: Some(result),
                };
                self.replace(i, record);
            },
            None => {},
        }
    }

    /// What is known of a task.
    pub fn get(&self, id: &str) -> (r: Result<TaskSnapshot, CoreError>)
        ensures
            match r {
                Ok(s) => self@.contains_key(id@) && s@ == snapshot_of(id@, self@[id@]),
                Err(e) => !self@.contains_key(id@) && e@ == ErrorView::TaskNotFound(id@),
            },
    {
        match self.find(id) {
            Some(i) => Ok(self.records[i].snapshot()),
            None => Err(CoreError::TaskNotFound(id.to_owned())),
        }
    }

    /// The result of a task. An unknown id is an error; a task that works still, or was
    /// cancelled, has no result. Reading takes nothing away.
    pub fn result(&self, id: &str) -> (r: Result<Option<Json>, CoreError>)
        ensures
            match r {
                Ok(v) => self@.contains_key(id@) && json_opt_view(v) == self@[id@].result && (v is Some
                    <==> finished(self@[id@].state)),
                Err(e) => !self@.contains_key(id@) && e@ == ErrorView::TaskNotFound(id@),
            },
    {
        match self.find(id) {
            Some(i) => Ok(duplicate_result(&self.records[i].result)),
            None => Err(CoreError::TaskNotFound(id.to_owned())),
        }
    }

    /// The state from which a subscriber starts to watch a task.
    pub fn subscribe(&self, id: &str) -> (r: Result<TaskState, CoreError>)
        ensures
            match r {
                Ok(s) => self@.contains_key(id@) && s == self@[id@].state,
                Err(e) => !self@.contains_key(id@) && e@ == ErrorView::TaskNotFound(id@),
            },
    {
        match self.find(id) {
            Some(i) => Ok(self.records[i].state),
            None => Err(CoreError::TaskNotFound(id.to_owned())),
        }
    }

    /// Cancels a task that still works. On success the caller signals the running work.
    pub fn cancel(&mut self, id: &str, now: i128) -> (r: Result<TaskSnapshot, CoreError>)
        ensures
            final(self)@ == after_cancel(old(self)@, id@, now as int),
            match r {
                Ok(s) => old(self)@.contains_key(id@) && !terminal(old(self)@[id@].state) && s@
                    == snapshot_of(id@, final(self)@[id@]),
                Err(e) => if old(self)@.contains_key(id@) {
                    terminal(old(self)@[id@].state) && e@ == ErrorView::TaskTerminal(id@)
                } else {
                    e@ == ErrorView::TaskNotFound(id@)
                },
            },
            final(self).default_ttl() == old(self).default_ttl(),
            final(self).max_ttl() == old(self).max_ttl(),
    {
        match self.find(id) {
            Some(i) => {
                if self.records[i].state.is_terminal() {
                    return Err(CoreError::TaskTerminal(id.to_owned()));
                }
                let record = Record {
                    id: self.records[i].id.clone(),
                    state: TaskState::Cancelled,
                    status_message: Some("cancelled".to_owned()),
                    created_at: self.records[i].created_at,
                    last_updated_at: now,
                    ttl: self.records[i].ttl,
                    result: duplicate_result(&self.records[i].result),
                };
                let snapshot = record.snapshot();
                self.replace(i, record);
                Ok(snapshot)
            },
            None => Err(CoreError::TaskNotFound(id.to_owned())),
        }
    }

    /// Every task, each once.
    pub fn list(&self) -> (r: Vec<TaskSnapshot>)
        ensures
            forall|i: int|
                0 <= i < r.len() ==> self@.contains_key((#[trigger] r@[i])@.id) && r@[i]@
                    == snapshot_of(r@[i]@.id, self@[r@[i]@.id]),
            forall|i: int, j: int|
                0 <= i < j < r.len() ==> (#[trigger] r@[i])@.id != (#[trigger] r@[j])@.id,
            forall|id: Seq<char>| #[trigger]
                self@.contains_key(id) ==> exists|i: int|
                    0 <= i < r.len() && (#[trigger] r@[i])@.id == id,
    {
        proof {
            use_type_invariant(self);
        }
        let mut out: Vec<TaskSnapshot> = Vec::new();
        let mut i: usize = 0;
        while i < self.records.len()
            invariant
                i <= self.records.len(),
                out.len() == i,
                forall|j: int|
                    0 <= j < i ==> (#[trigger] out@[j])@ == snapshot_of(
                        self.records@[j].id@,
                        record_view(self.records@[j]),
                    ),
            decreases self.records.len() - i,
        {
            out.push(self.records[i].snapshot());
            i = i + 1;
        }
        proof {
            let rs = self.records@;
            assert forall|i: int| 0 <= i < out.len() implies self@.contains_key(
                (#[trigger] out@[i])@.id,
            ) && out@[i]@ == snapshot_of(out@[i]@.id, self@[out@[i]@.id]) by {
                lemma_lookup(rs, i);
            }
            assert forall|i: int, j: int| 0 <= i < j < out.len() implies (#[trigger] out@[i])@.id
                != (#[trigger] out@[j])@.id by {
                assert(rs[i].id@ != rs[j].id@);
            }
            assert forall|id: Seq<char>| #[trigger] self@.contains_key(id) implies exists|i: int|
                0 <= i < out.len() && (#[trigger] out@[i])@.id == id by {
                let k = index_of(rs, id);
                assert(rs[k].id@ == id);
                assert(out@[k]@.id == id);
            }
        }
        out
    }

    /// Evicts the tasks that are over and whose retention window has closed, and returns how
    /// many.
    pub fn gc(&mut self, now: i128) -> (r: usize)
        ensures
            final(self)@ == after_gc(old(self)@, now as int),
            old(self)@.dom().finite(),
            r == old(self)@.len() - final(self)@.len(),
            final(self).default_ttl() == old(self).default_ttl(),
            final(self).max_ttl() == old(self).max_ttl(),
    {
        proof {
            use_type_invariant(&*self);
        }
        let mut remaining: Vec<Record> = Vec::new();
        let mut i: usize = 0;
        let ghost rs = self.records@;
        let ghost time = now as int;
        proof {
            assert(tasks_of(rs.take(0)) =~= Tasks::empty());
            assert(tasks_of(remaining@) =~= Tasks::empty());
            assert(after_gc(Tasks::empty(), time) =~= Tasks::empty());
        }
        while i < self.records.len()
            invariant
                i <= self.records.len(),
                rs == self.records@,
                time == now as int,
                distinct(rs),
                distinct(remaining@),
                all_whole(rs),
                all_whole(remaining@),
                remaining.len() <= i,
                tasks_of(remaining@) == after_gc(tasks_of(rs.take(i as int)), time),
            decreases self.records.len() - i,
        {
            proof {
                let r = rs[i as int];
                lemma_prefix(rs, i as int);
                lemma_append(rs.take(i as int), r);
                assert(rs.take(i + 1) =~= rs.take(i as int).push(r));
                lemma_gc_insert(tasks_of(rs.take(i as int)), r.id@, record_view(r), time);
            }
            if is_kept(&self.records[i], now) {
                let copy = duplicate_record(&self.records[i]);
                proof {
                    lemma_append(remaining@, copy);
                }
                remaining.push(copy);
            }
            i = i + 1;
        }
        proof {
            assert(rs.take(rs.len() as int) =~= rs);
            lemma_len(rs);
            lemma_len(remaining@);
        }
        let evicted: usize = self.records.len() - remaining.len();
        self.records = remaining;
        evicted
    }
}

/// The first records of a registry have distinct ids, and the next one has another.
proof fn lemma_prefix(rs: Seq<Record>, i: int)
    requires
        distinct(rs),
        0 <= i < rs.len(),
    ensures
        distinct(rs.take(i)),
        !tasks_of(rs.take(i)).contains_key(rs[i].id@),
{
    let before = rs.take(i);
    assert forall|a: int, b: int| 0 <= a < b < before.len() implies #[trigger] before[a].id@
        != #[trigger] before[b].id@ by {
        assert(rs[a].id@ != rs[b].id@);
    }
    if tasks_of(before).contains_key(rs[i].id@) {
        let k = index_of(before, rs[i].id@);
        assert(before[k].id@ == rs[i].id@);
        assert(rs[k].id@ != rs[i].id@);
    }
}

proof fn lemma_gc_insert(tasks: Tasks, id: Seq<char>, r: RecordView, now: int)
    requires
        !tasks.contains_key(id),
    ensures
        after_gc(tasks.insert(id, r), now) == if kept(r, now) {
            after_gc(tasks, now).insert(id, r)
        } else {
            after_gc(tasks, now)
        },
        !after_gc(tasks, now).contains_key(id),
{
    if kept(r, now) {
        assert(after_gc(tasks.insert(id, r), now) =~= after_gc(tasks, now).insert(id, r));
    } else {
        assert(after_gc(tasks.insert(id, r), now) =~= after_gc(tasks, now));
    }
}

fn duplicate_result(v: &Option<Json>) -> (r: Option<Json>)
    ensures
        json_opt_view(r) == json_opt_view(*v),
{
    match v {
        Some(j) => Some(j.duplicate()),
        None => None,
    }
}

fn duplicate_record(v: &Record) -> (r: Record)
    ensures
        r.id@ == v.id@,
        record_view(r) == record_view(*v),
{
    Record {
        id: v.id.clone(),
        state: v.state,
        status_message: clone_opt(&v.status_message),
        created_at: v.created_at,
        last_updated_at: v.last_updated_at,
        ttl: v.ttl,
        result: duplicate_result(&v.result),
    }
}

fn is_kept(v: &Record, now: i128) -> (r: bool)
    ensures
        r == kept(record_view(*v), now as int),
{
    if !v.state.is_terminal() || now < v.last_updated_at {
        return true;
    }
    let ttl: u128 = v.ttl.as_nanos();
    match now.checked_sub(v.last_updated_at) {
        Some(age) => (age as u128) < ttl,
        None => false,
    }
}

/// There are as many tasks as records.
proof fn lemma_len(rs: Seq<Record>)
    requires
        distinct(rs),
    ensures
        tasks_of(rs).dom().finite(),
        tasks_of(rs).len() == rs.len(),
    decreases rs.len(),
{
    if rs.len() == 0 {
        assert(tasks_of(rs) =~= Tasks::empty());
    } else {
        let before = rs.drop_last();
        let r = rs.last();
        lemma_prefix(rs, rs.len() - 1);
        assert(before =~= rs.take(rs.len() - 1));
        lemma_len(before);
        lemma_append(before, r);
        assert(before.push(r) =~= rs);
    }
}

// ---------------------------------------------------------------------------
// Laws of what is told
// ---------------------------------------------------------------------------

/// Exactly the tasks that still work are not over.
pub proof fn law_only_working_tasks_are_not_over(s: TaskState)
    ensures
        !terminal(TaskState::Working),
        terminal(TaskState::Completed),
        terminal(TaskState::Failed),
        terminal(TaskState::Cancelled),
        finished(s) <==> s == TaskState::Completed || s == TaskState::Failed,
{
}

/// A new task works and is queued; it has no result, and it was made and last touched now.
pub proof fn law_a_new_task_is_queued(ttl: nat, now: int)
    ensures
        fresh(ttl, now).state == TaskState::Working,
        fresh(ttl, now).status == Some("queued"@),
        fresh(ttl, now).created_at == now,
        fresh(ttl, now).last_updated_at == now,
        fresh(ttl, now).ttl == ttl,
        fresh(ttl, now).result is None,
{
}

/// A progress message is what is told of the task from now on. The task works on, and nothing else
/// of it changes.
pub proof fn law_progress_is_told(tasks: Tasks, id: Seq<char>, msg: Seq<char>, now: int)
    requires
        tasks.contains_key(id),
        tasks[id].state == TaskState::Working,
    ensures
        ({
            let r = after_status(tasks, id, msg, now)[id];
            &&& after_status(tasks, id, msg, now).contains_key(id)
            &&& r.status == Some(msg)
            &&& r.last_updated_at == now
            &&& r.state == TaskState::Working
            &&& r.created_at == tasks[id].created_at
            &&& r.ttl == tasks[id].ttl
            &&& r.result == tasks[id].result
        }),
{
}

/// A task that ends is failed exactly where it failed, and completed otherwise. It has its result,
/// and what is told of it is how it ended; when it was made and how long it is kept stay as they
/// were.
pub proof fn law_ends_are_told(
    tasks: Tasks,
    id: Seq<char>,
    result: JsonView,
    failed: bool,
    now: int,
)
    requires
        tasks.contains_key(id),
        tasks[id].state == TaskState::Working,
    ensures
        ({
            let r = after_finish(tasks, id, result, failed, now)[id];
            &&& after_finish(tasks, id, result, failed, now).contains_key(id)
            &&& failed ==> r.state == TaskState::Failed && r.status == Some("failed"@)
            &&& !failed ==> r.state == TaskState::Completed && r.status == Some("completed"@)
            &&& r.result == Some(result)
            &&& r.last_updated_at == now
            &&& r.created_at == tasks[id].created_at
            &&& r.ttl == tasks[id].ttl
        }),
{
}

/// A cancelled task says so and has no result beyond the one it had.
pub proof fn law_cancellations_are_told(tasks: Tasks, id: Seq<char>, now: int)
    requires
        tasks.contains_key(id),
        tasks[id].state == TaskState::Working,
    ensures
        ({
            let r = after_cancel(tasks, id, now)[id];
            &&& after_cancel(tasks, id, now).contains_key(id)
            &&& r.state == TaskState::Cancelled
            &&& r.status == Some("cancelled"@)
            &&& r.result == tasks[id].result
            &&& r.last_updated_at == now
            &&& r.created_at == tasks[id].created_at
            &&& r.ttl == tasks[id].ttl
        }),
{
}

/// A task that is not known is never made up: no message, result or cancellation brings it about.
pub proof fn law_unknown_tasks_stay_unknown(
    tasks: Tasks,
    id: Seq<char>,
    msg: Seq<char>,
    result: JsonView,
    failed: bool,
    now: int,
)
    requires
        !tasks.contains_key(id),
    ensures
        after_status(tasks, id, msg, now) == tasks,
        after_finish(tasks, id, result, failed, now) == tasks,
        after_cancel(tasks, id, now) == tasks,
        !after_gc(tasks, now).contains_key(id),
{
}

/// What is evicted is exactly what is over and was last touched at least its retention window ago.
pub proof fn law_eviction_is_by_age(tasks: Tasks, id: Seq<char>, now: int)
    requires
        tasks.contains_key(id),
    ensures
        after_gc(tasks, now).contains_key(id) <==> tasks[id].state == TaskState::Working || now
            < tasks[id].last_updated_at || now < tasks[id].last_updated_at + tasks[id].ttl,
{
}

/// A retention window that is asked for and longer than the maximum is the maximum, and so is the
/// default where it is longer.
pub proof fn law_long_windows_are_cut(requested: Option<nat>, default_ttl: nat, max_ttl: nat)
    ensures
        requested matches Some(n) ==> n >= max_ttl ==> clamped(requested, default_ttl, max_ttl)
            == max_ttl,
        requested is None && default_ttl >= max_ttl ==> clamped(requested, default_ttl, max_ttl)
            == max_ttl,
{
}

/// What is told of a task is what the registry holds of it, each under its own name.
pub proof fn law_snapshots_tell_the_task(s: TaskSnapshot, id: Seq<char>, r: RecordView)
    requires
        s@ == snapshot_of(id, r),
    ensures
        s.id@ == id,
        s.state == r.state,
        text::opt_view(s.status_message) == r.status,
        s.created_at == r.created_at,
        s.last_updated_at == r.last_updated_at,
        s.ttl@ == r.ttl,
{
}

} // verus!
