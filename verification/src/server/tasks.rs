//! Answering the task requests of the protocol.

use vstd::prelude::*;

use crate::error;
use crate::error::{CoreError, ErrorView};
use crate::jobs;
use crate::jobs::{SnapshotView, TaskSnapshot, TaskState, TaskStore, Tasks};
use crate::json;
use crate::json::{set_member, Json, JsonView};
use crate::order;
use crate::order::sort_texts;
use crate::text;
use crate::text::clone_opt;

use super::{RpcError, RpcErrorKind, RpcErrorView};

verus! {

broadcast use vstd::string::group_string_axioms;

/// How long a client should wait before it asks again.
pub const POLL_INTERVAL_MS: u64 = 2_000;

/// The member that tells which task a result belongs to.
pub const RELATED_TASK_KEY: &'static str = "io.modelcontextprotocol/related-task";

// ---------------------------------------------------------------------------
// Refusals
// ---------------------------------------------------------------------------

/// An unknown or finished task is the client's mistake; anything else is not.
pub open spec fn task_error(e: ErrorView) -> RpcErrorView {
    RpcErrorView {
        kind: match e {
            ErrorView::TaskNotFound(_) | ErrorView::TaskTerminal(_) => RpcErrorKind::InvalidParams,
            _ => RpcErrorKind::Internal,
        },
        message: error::error_message(e),
    }
}

/// The refusal that an error of the registry is.
pub fn task_err(e: CoreError) -> (r: RpcError)
    ensures
        r@ == task_error(e@),
{
    let message = e.message();
    let kind = match e {
        CoreError::TaskNotFound(_) => RpcErrorKind::InvalidParams,
        CoreError::TaskTerminal(_) => RpcErrorKind::InvalidParams,
        _ => RpcErrorKind::Internal,
    };
    RpcError { kind, message }
}

// ---------------------------------------------------------------------------
// Tasks
// ---------------------------------------------------------------------------

/// What a client is told of a task.
#[derive(Debug)]
pub struct TaskInfo {
    pub task_id: String,
    pub status: TaskState,
    pub created_at: String,
    pub last_updated_at: String,
    /// The retention window the task got, which need not be the one that was asked for.
    pub ttl_ms: u64,
    pub poll_interval_ms: u64,
    pub status_message: Option<String>,
}

/// What a [`TaskInfo`] says.
pub struct TaskInfoView {
    pub task_id: Seq<char>,
    pub status: TaskState,
    pub created_at: Seq<char>,
    pub last_updated_at: Seq<char>,
    pub ttl_ms: u64,
    pub poll_interval_ms: u64,
    pub status_message: Option<Seq<char>>,
}

impl View for TaskInfo {
    type V = TaskInfoView;

    open spec fn view(&self) -> TaskInfoView {
        TaskInfoView {
            task_id: self.task_id@,
            status: self.status,
            created_at: self.created_at@,
            last_updated_at: self.last_updated_at@,
            ttl_ms: self.ttl_ms,
            poll_interval_ms: self.poll_interval_ms,
            status_message: text::opt_view(self.status_message),
        }
    }
}

/// A moment as RFC 3339 writes it: `secs` whole seconds since the start of 1970 and `nanos`
/// nanoseconds. Absent where the calendar does not reach.
pub uninterp spec fn rfc3339_text(secs: i64, nanos: u32) -> Option<Seq<char>>;

/// The last second of the year 9999.
pub const LAST_SECOND: i64 = 253_402_300_799;

/// `chrono::DateTime::from_timestamp` and `to_rfc3339` of it, in UTC: how the moment is written
/// is left to the name. The calendar reaches far beyond the years from 1970 to 9999.
#[verifier::external_body]
fn written_moment(secs: i64, nanos: u32) -> (r: Option<String>)
    ensures
        text::opt_view(r) == rfc3339_text(secs, nanos),
        0 <= secs <= LAST_SECOND && nanos < 1_000_000_000 ==> r is Some,
{
    chrono::DateTime::<chrono::Utc>::from_timestamp(secs, nanos).map(|t| t.to_rfc3339())
}

/// A moment, given in nanoseconds since the start of 1970, as RFC 3339 writes it.
pub open spec fn moment_text(at: int) -> Option<Seq<char>> {
    let secs = at / 1_000_000_000;
    if i64::MIN <= secs <= i64::MAX {
        rfc3339_text(secs as i64, (at % 1_000_000_000) as u32)
    } else {
        None
    }
}

/// A moment, given in nanoseconds since the start of 1970, as RFC 3339 writes it.
pub fn rfc3339(at: i128) -> (r: Option<String>)
    ensures
        text::opt_view(r) == moment_text(at as int),
        0 <= at && at / 1_000_000_000 <= LAST_SECOND ==> r is Some,
{
    let secs: i128;
    let nanos: i128;
    if at >= 0 {
        secs = at / 1_000_000_000;
        nanos = at % 1_000_000_000;
    } else {
        let below: i128 = -(at + 1);
        secs = -(below / 1_000_000_000) - 1;
        nanos = 999_999_999 - below % 1_000_000_000;
        assert(at == secs * 1_000_000_000 + nanos);
        assert(secs == at / 1_000_000_000 && nanos == at % 1_000_000_000) by (nonlinear_arith)
            requires
                at == secs * 1_000_000_000 + nanos,
                0 <= nanos < 1_000_000_000,
        ;
    }
    if secs < i64::MIN as i128 || secs > i64::MAX as i128 {
        return None;
    }
    written_moment(secs as i64, nanos as u32)
}

/// What a client is told of a task; absent where one of its times cannot be written.
pub open spec fn task_info(s: SnapshotView) -> Option<TaskInfoView> {
    match (moment_text(s.created_at), moment_text(s.last_updated_at)) {
        (Some(created_at), Some(last_updated_at)) => Some(
            TaskInfoView {
                task_id: s.id,
                status: s.state,
                created_at,
                last_updated_at,
                ttl_ms: (s.ttl / 1_000_000) as u64,
                poll_interval_ms: POLL_INTERVAL_MS,
                status_message: s.status,
            },
        ),
        _ => None,
    }
}

/// What a client is told of a task; absent where one of its times cannot be written, which
/// every time from 1970 to 9999 can.
pub fn to_task(snap: &TaskSnapshot) -> (r: Option<TaskInfo>)
    ensures
        match r {
            Some(t) => task_info(snap@) == Some(t@),
            None => task_info(snap@) is None,
        },
        0 <= snap.created_at && snap.created_at / 1_000_000_000 <= LAST_SECOND && 0
            <= snap.last_updated_at && snap.last_updated_at / 1_000_000_000 <= LAST_SECOND ==> r
            is Some,
{
    let created_at = rfc3339(snap.created_at);
    let last_updated_at = rfc3339(snap.last_updated_at);
    match (created_at, last_updated_at) {
        (Some(created_at), Some(last_updated_at)) => Some(
            TaskInfo {
                task_id: snap.id.as_str().to_owned(),
                status: snap.state,
                created_at,
                last_updated_at,
                ttl_ms: #[verifier::truncate] (snap.ttl.as_millis() as u64),
                poll_interval_ms: POLL_INTERVAL_MS,
                status_message: clone_opt(&snap.status_message),
            },
        ),
        _ => None,
    }
}

// ---------------------------------------------------------------------------
// Results
// ---------------------------------------------------------------------------

/// What a tool call that ran as a task came to.
#[derive(Debug)]
pub enum CallOutcome {
    /// It was answered, perhaps with an error in the answer.
    Answered { result: Json, is_error: bool },
    /// It was refused.
    Refused(String),
}

/// The result that is kept of a call, and whether its task failed.
pub open spec fn kept_result(c: CallOutcome) -> (JsonView, bool) {
    match c {
        CallOutcome::Answered { result, is_error } => (result@, is_error),
        CallOutcome::Refused(m) => (
            JsonView::Object(seq![("error"@, JsonView::Str(m@))]),
            true,
        ),
    }
}

/// The result that is kept of a call, and whether its task failed: an error in the answer
/// fails the task as a refusal does.
pub fn result_of_call(c: CallOutcome) -> (r: (Json, bool))
    ensures
        (r.0@, r.1) == kept_result(c),
{
    match c {
        CallOutcome::Answered { result, is_error } => (result, is_error),
        CallOutcome::Refused(m) => {
            let mut members: Vec<(String, Json)> = Vec::new();
            members.push(("error".to_owned(), Json::Str(m)));
            proof {
                json::lemma_object_view(members);
                reveal_with_fuel(json::json_view, 2);
                assert(json::member_views(members@) =~= seq![("error"@, JsonView::Str(m@))]);
            }
            (Json::Object(members), true)
        },
    }
}

/// The metadata that says which task a result belongs to.
pub open spec fn related_task(id: Seq<char>) -> JsonView {
    JsonView::Object(seq![("taskId"@, JsonView::Str(id))])
}

/// The members of the metadata of a result, none where it has no metadata.
pub open spec fn metadata(v: JsonView) -> Seq<(Seq<char>, JsonView)> {
    match json::member(v, "_meta"@) {
        JsonView::Object(members) => members,
        _ => seq![],
    }
}

/// A result with the metadata that says which task it belongs to. What is no object is left as
/// it is.
pub open spec fn with_related_task(v: JsonView, id: Seq<char>) -> JsonView {
    match v {
        JsonView::Object(members) => JsonView::Object(
            json::with_member(
                members,
                "_meta"@,
                JsonView::Object(
                    json::with_member(metadata(v), RELATED_TASK_KEY@, related_task(id)),
                ),
            ),
        ),
        _ => v,
    }
}

/// What a client gets for a task that ended: its result, or that it was cancelled.
pub open spec fn task_payload_view(result: Option<JsonView>, id: Seq<char>) -> JsonView {
    with_related_task(
        match result {
            Some(v) => v,
            None => JsonView::Object(seq![("cancelled"@, JsonView::Bool(true))]),
        },
        id,
    )
}

/// What a client gets for a task that ended: its result, or that it was cancelled, with the
/// metadata that says which task it belongs to. The metadata of a result, where it has any,
/// is an object.
pub fn task_payload(result: Option<Json>, id: &str) -> (r: Json)
    requires
        result matches Some(v) ==> json::has_member(v@, "_meta"@) ==> json::member(v@, "_meta"@)
            is Object,
    ensures
        r@ == task_payload_view(jobs::json_opt_view(result), id@),
{
    broadcast use {json::lemma_object_view, json::lemma_array_view};

    let value = match result {
        Some(v) => v,
        None => {
            let mut members: Vec<(String, Json)> = Vec::new();
            members.push(("cancelled".to_owned(), Json::Bool(true)));
            proof {
                reveal_with_fuel(json::json_view, 2);
                assert(json::member_views(members@) =~= seq![
                    ("cancelled"@, JsonView::Bool(true)),
                ]);
            }
            Json::Object(members)
        },
    };
    let meta: Vec<(String, Json)> = match value.get("_meta") {
        Some(m) => match m.duplicate() {
            Json::Object(members) => members,
            _ => Vec::new(),
        },
        None => Vec::new(),
    };
    assert(json::member_views(meta@) =~= metadata(value@));
    match value {
        Json::Object(members) => {
            let mut task: Vec<(String, Json)> = Vec::new();
            task.push(("taskId".to_owned(), Json::string(id)));
            assert(json::member_views(task@) =~= seq![("taskId"@, JsonView::Str(id@))]);
            let meta = set_member(meta, RELATED_TASK_KEY, Json::Object(task));
            Json::Object(set_member(members, "_meta", Json::Object(meta)))
        },
        other => other,
    }
}

/// The result of a task tells which task it belongs to, and holds everything else it held.
pub proof fn law_results_tell_their_task(v: JsonView, id: Seq<char>, other: Seq<char>)
    requires
        v is Object,
        other != "_meta"@,
    ensures
        json::member(json::member(with_related_task(v, id), "_meta"@), RELATED_TASK_KEY@)
            == related_task(id),
        json::member(with_related_task(v, id), other) == json::member(v, other),
{
    let members = v->Object_0;
    let meta = json::with_member(metadata(v), RELATED_TASK_KEY@, related_task(id));
    json::law_set_members_read_back(metadata(v), RELATED_TASK_KEY@, related_task(id), other);
    json::law_set_members_read_back(members, "_meta"@, JsonView::Object(meta), other);
}

// ---------------------------------------------------------------------------
// Lists
// ---------------------------------------------------------------------------

/// Whether these are all the tasks of a registry, each once, in the order of their ids.
pub open spec fn lists_all(r: Seq<TaskSnapshot>, tasks: Tasks) -> bool {
    &&& forall|i: int, j: int|
        0 <= i < j < r.len() ==> order::before(
            (#[trigger] r[i])@.id,
            (#[trigger] r[j])@.id,
        )
    &&& forall|i: int|
        0 <= i < r.len() ==> tasks.contains_key((#[trigger] r[i])@.id) && r[i]@
            == jobs::snapshot_of(r[i]@.id, tasks[r[i]@.id])
    &&& forall|id: Seq<char>| #[trigger]
        tasks.contains_key(id) ==> exists|i: int|
            0 <= i < r.len() && (#[trigger] r[i])@.id == id
}

/// The tasks of a registry in the order of their ids. A client that may not list them is
/// refused, whether or not it was told so before.
pub fn list_tasks(store: &TaskStore, advertise: bool) -> (r: Result<Vec<TaskSnapshot>, RpcError>)
    ensures
        match r {
            Ok(v) => advertise && lists_all(v@, store@),
            Err(e) => !advertise && e@ == (RpcErrorView {
                kind: RpcErrorKind::MethodNotFound,
                message: "tasks/list"@,
            }),
        },
{
    if !advertise {
        return Err(
            RpcError { kind: RpcErrorKind::MethodNotFound, message: "tasks/list".to_owned() },
        );
    }
    let all = store.list();
    let mut ids: Vec<String> = Vec::new();
    let mut i: usize = 0;
    while i < all.len()
        invariant
            i <= all.len(),
            ids.len() == i,
            forall|j: int| 0 <= j < i ==> #[trigger] ids@[j]@ == all@[j]@.id,
        decreases all.len() - i,
    {
        ids.push(all[i].id.as_str().to_owned());
        i = i + 1;
    }
    let ghost plain = text::views(ids@);
    let sorted = sort_texts(ids);
    let ghost keys = text::views(sorted@);
    proof {
        assert forall|id: Seq<char>| #[trigger] store@.contains_key(id) implies plain.contains(
            id,
        ) by {
            let n = choose|n: int| 0 <= n < all.len() && (#[trigger] all@[n])@.id == id;
            assert(plain[n] == id);
        }
        lemma_sorted(plain, keys, store@);
    }
    let mut out: Vec<TaskSnapshot> = Vec::new();
    let mut k: usize = 0;
    while k < sorted.len()
        invariant
            k <= sorted.len(),
            out.len() == k,
            keys == text::views(sorted@),
            forall|j: int| 0 <= j < keys.len() ==> store@.contains_key(#[trigger] keys[j]),
            forall|j: int|
                0 <= j < k ==> (#[trigger] out@[j])@ == jobs::snapshot_of(keys[j], store@[keys[j]]),
        decreases sorted.len() - k,
    {
        assert(keys[k as int] == sorted@[k as int]@);
        match store.get(sorted[k].as_str()) {
            Ok(s) => {
                out.push(s);
            },
            Err(e) => {
                return Err(task_err(e));
            },
        }
        k = k + 1;
    }
    assert(lists_all(out@, store@)) by {
        assert forall|i: int, j: int| 0 <= i < j < out.len() implies order::before(
            (#[trigger] out@[i])@.id,
            (#[trigger] out@[j])@.id,
        ) by {
            assert(out@[i]@.id == keys[i]);
            assert(out@[j]@.id == keys[j]);
        }
        assert forall|id: Seq<char>| #[trigger] store@.contains_key(id) implies exists|i: int|
            0 <= i < out.len() && (#[trigger] out@[i])@.id == id by {
            let n = choose|n: int| 0 <= n < keys.len() && keys[n] == id;
            assert(out@[n]@.id == id);
        }
    }
    Ok(out)
}

proof fn lemma_sorted(plain: Seq<Seq<char>>, keys: Seq<Seq<char>>, tasks: Tasks)
    requires
        order::in_order(keys),
        keys.to_multiset() == plain.to_multiset(),
        plain.no_duplicates(),
        forall|i: int| 0 <= i < plain.len() ==> tasks.contains_key(#[trigger] plain[i]),
        forall|id: Seq<char>| #[trigger] tasks.contains_key(id) ==> plain.contains(id),
    ensures
        forall|i: int, j: int|
            0 <= i < j < keys.len() ==> order::before(#[trigger] keys[i], #[trigger] keys[j]),
        forall|i: int| 0 <= i < keys.len() ==> tasks.contains_key(#[trigger] keys[i]),
        forall|id: Seq<char>| #[trigger] tasks.contains_key(id) ==> exists|n: int|
            0 <= n < keys.len() && keys[n] == id,
{
    broadcast use vstd::seq_lib::group_to_multiset_ensures;

    plain.lemma_multiset_has_no_duplicates();
    keys.lemma_multiset_has_no_duplicates_conv();
    assert forall|i: int, j: int| 0 <= i < j < keys.len() implies order::before(
        #[trigger] keys[i],
        #[trigger] keys[j],
    ) by {
        order::lemma_total(keys[i], keys[j]);
        assert(keys[i] != keys[j]);
    }
    assert forall|i: int| 0 <= i < keys.len() implies tasks.contains_key(#[trigger] keys[i]) by {
        assert(keys.to_multiset().contains(keys[i]));
        assert(plain.contains(keys[i]));
    }
    assert forall|id: Seq<char>| #[trigger] tasks.contains_key(id) implies exists|n: int|
        0 <= n < keys.len() && keys[n] == id by {
        assert(plain.to_multiset().contains(id));
        assert(keys.contains(id));
    }
}

// ---------------------------------------------------------------------------
// Laws
// ---------------------------------------------------------------------------

/// A client that asks for a task that is not known, or is over, is told that it is mistaken, with
/// the task; every other error is the server's own.
pub proof fn law_the_clients_mistakes_are_told_apart(e: ErrorView)
    ensures
        task_error(e).kind == RpcErrorKind::InvalidParams <==> e is TaskNotFound || e
            is TaskTerminal,
        task_error(e).kind == RpcErrorKind::Internal <==> !(e is TaskNotFound) && !(e
            is TaskTerminal),
        task_error(e).message == error::error_message(e),
{
}

/// A client is told of a task what is known of it: its state and what it says are the task's, each
/// of its two times is its own, and its retention window is in whole milliseconds. It is asked to
/// wait two seconds before it asks again.
pub proof fn law_a_client_is_told_of_its_task(s: TaskSnapshot, t: TaskInfo)
    requires
        task_info(s@) == Some(t@),
        s.ttl@ / 1_000_000 <= u64::MAX,
    ensures
        t.task_id@ == s.id@,
        t.status == s.state,
        moment_text(s.created_at as int) == Some(t.created_at@),
        moment_text(s.last_updated_at as int) == Some(t.last_updated_at@),
        t.ttl_ms == s.ttl@ / 1_000_000,
        t.poll_interval_ms == 2_000,
        text::opt_view(t.status_message) == text::opt_view(s.status_message),
{
}

/// A moment is written from its whole seconds and the nanoseconds beyond them; one before 1970 has
/// its nanoseconds counted forward too.
pub proof fn law_moments_are_split_into_seconds(secs: i64, nanos: u32)
    requires
        nanos < 1_000_000_000,
    ensures
        moment_text(secs * 1_000_000_000 + nanos) == rfc3339_text(secs, nanos),
{
    let at = secs * 1_000_000_000 + nanos;
    assert(at / 1_000_000_000 == secs && at % 1_000_000_000 == nanos) by (nonlinear_arith)
        requires
            at == secs * 1_000_000_000 + nanos,
            0 <= nanos < 1_000_000_000,
    ;
}

/// What is kept of a call is its answer as it stands, and its task failed exactly where the answer
/// is an error; a refusal is kept as an error with its message, and its task failed.
pub proof fn law_results_are_kept_as_they_are(c: CallOutcome)
    ensures
        c matches CallOutcome::Answered { result, is_error } ==> kept_result(c).0 == result@
            && kept_result(c).1 == is_error,
        c matches CallOutcome::Refused(m) ==> kept_result(c).1 && kept_result(c).0
            == JsonView::Object(seq![("error"@, JsonView::Str(m@))]),
{
}

/// A task that was cancelled is answered with just that, and says so under the task's own id; what
/// is no object is handed on untouched, and one that ended is answered with its result.
pub proof fn law_answers_name_their_task(v: JsonView, id: Seq<char>)
    ensures
        !(v is Object) ==> task_payload_view(Some(v), id) == v,
        json::member(task_payload_view(None, id), "cancelled"@) == JsonView::Bool(true),
        json::member(
            json::member(
                json::member(task_payload_view(None, id), "_meta"@),
                "io.modelcontextprotocol/related-task"@,
            ),
            "taskId"@,
        ) == JsonView::Str(id),
        v is Object ==> json::member(
            json::member(
                json::member(task_payload_view(Some(v), id), "_meta"@),
                "io.modelcontextprotocol/related-task"@,
            ),
            "taskId"@,
        ) == JsonView::Str(id),
{
    reveal_strlit("cancelled");
    reveal_strlit("_meta");
    let none = JsonView::Object(seq![("cancelled"@, JsonView::Bool(true))]);
    assert("cancelled"@.len() == 9 && "_meta"@.len() == 5);
    law_results_tell_their_task(none, id, "cancelled"@);
    lemma_one_member("cancelled"@, JsonView::Bool(true));
    lemma_one_member("taskId"@, JsonView::Str(id));
    if v is Object {
        law_results_tell_their_task(v, id, "cancelled"@);
    }
}

proof fn lemma_one_member(key: Seq<char>, x: JsonView)
    ensures
        json::member(JsonView::Object(seq![(key, x)]), key) == x,
{
    json::law_members_are_found_by_name(JsonView::Object(seq![(key, x)]), key, x);
}

/// Metadata that a result already has is kept beside what says which task it belongs to.
pub proof fn law_other_metadata_is_kept(v: JsonView, id: Seq<char>, other: Seq<char>)
    requires
        v is Object,
        json::member(v, "_meta"@) is Object,
        other != "io.modelcontextprotocol/related-task"@,
    ensures
        json::member(json::member(with_related_task(v, id), "_meta"@), other) == json::member(
            json::member(v, "_meta"@),
            other,
        ),
{
    let members = v->Object_0;
    let meta = json::with_member(metadata(v), RELATED_TASK_KEY@, related_task(id));
    json::law_set_members_read_back(metadata(v), RELATED_TASK_KEY@, related_task(id), other);
    json::law_set_members_read_back(members, "_meta"@, JsonView::Object(meta), other);
}

/// Whoever lists the tasks sees each exactly once, in the order of their ids, with the state and
/// the times that the registry holds.
pub proof fn law_every_task_is_listed_once(r: Seq<TaskSnapshot>, tasks: Tasks, id: Seq<char>)
    requires
        lists_all(r, tasks),
    ensures
        tasks.contains_key(id) <==> exists|i: int| 0 <= i < r.len() && (#[trigger] r[i]).id@ == id,
        forall|i: int, j: int|
            0 <= i < j < r.len() ==> (#[trigger] r[i]).id@ != (#[trigger] r[j]).id@ && order::before(
                r[i].id@,
                r[j].id@,
            ),
        forall|i: int|
            0 <= i < r.len() ==> {
                let t = tasks[(#[trigger] r[i]).id@];
                &&& r[i].state == t.state
                &&& text::opt_view(r[i].status_message) == t.status
                &&& r[i].created_at == t.created_at
                &&& r[i].last_updated_at == t.last_updated_at
                &&& r[i].ttl@ == t.ttl
            },
{
    if tasks.contains_key(id) {
        let i = choose|i: int| 0 <= i < r.len() && (#[trigger] r[i])@.id == id;
        assert(r[i].id@ == id);
    }
    if exists|i: int| 0 <= i < r.len() && (#[trigger] r[i]).id@ == id {
        let i = choose|i: int| 0 <= i < r.len() && (#[trigger] r[i]).id@ == id;
        assert(tasks.contains_key(r[i]@.id));
    }
    assert forall|i: int, j: int| 0 <= i < j < r.len() implies (#[trigger] r[i]).id@ != (
    #[trigger] r[j]).id@ && order::before(r[i].id@, r[j].id@) by {
        assert(order::before(r[i]@.id, r[j]@.id));
        order::lemma_irreflexive(r[i].id@);
    }
    assert forall|i: int| 0 <= i < r.len() implies ({
        let t = tasks[(#[trigger] r[i]).id@];
        &&& r[i].state == t.state
        &&& text::opt_view(r[i].status_message) == t.status
        &&& r[i].created_at == t.created_at
        &&& r[i].last_updated_at == t.last_updated_at
        &&& r[i].ttl@ == t.ttl
    }) by {
        assert(r[i]@ == jobs::snapshot_of(r[i]@.id, tasks[r[i]@.id]));
    }
}

} // verus!
