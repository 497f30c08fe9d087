//! Hub — the task queue that agents poll through their heartbeats.
//!
//! Times are milliseconds since the Unix epoch.

use vstd::prelude::*;
use crate::clock::{now_unix_millis, read_from_millis_clock};
use crate::text::{str_eq, views};

verus! {

/// Task submission payload.
pub struct TaskSubmission {
    pub skill: String,
    pub target_agent_id: String,
    pub source_agent_id: String,
    /// JSON text of the payload value.
    pub payload: String,
    pub ttl: u64,
}

/// Default time-to-live of a task, in seconds.
pub fn default_ttl() -> (r: u64)
    ensures
        r == 300,
{
    300
}

/// Task update payload.
pub struct TaskUpdate {
    pub state: String,
    pub result: String,
    pub error: String,
}

/// Task record.
pub struct Task {
    pub id: String,
    pub skill: String,
    pub target_agent_id: String,
    pub source_agent_id: String,
    pub assigned_agent_id: String,
    /// JSON text of the payload value.
    pub payload: String,
    pub state: String,
    pub result: String,
    pub error: String,
    /// Milliseconds since the Unix epoch.
    pub created_at: u64,
    /// Milliseconds since the Unix epoch.
    pub updated_at: u64,
    /// Seconds.
    pub ttl: u64,
}

pub struct TaskView {
    pub id: Seq<char>,
    pub skill: Seq<char>,
    pub target_agent_id: Seq<char>,
    pub source_agent_id: Seq<char>,
    pub assigned_agent_id: Seq<char>,
    pub payload: Seq<char>,
    pub state: Seq<char>,
    pub result: Seq<char>,
    pub error: Seq<char>,
    pub created_at: u64,
    pub updated_at: u64,
    pub ttl: u64,
}

impl View for Task {
    type V = TaskView;

    open spec fn view(&self) -> TaskView {
        TaskView {
            id: self.id@,
            skill: self.skill@,
            target_agent_id: self.target_agent_id@,
            source_agent_id: self.source_agent_id@,
            assigned_agent_id: self.assigned_agent_id@,
            payload: self.payload@,
            state: self.state@,
            result: self.result@,
            error: self.error@,
            created_at: self.created_at,
            updated_at: self.updated_at,
            ttl: self.ttl,
        }
    }
}

impl Clone for Task {
    fn clone(&self) -> (r: Self)
        ensures
            r@ == self@,
    {
        Task {
            id: self.id.clone(),
            skill: self.skill.clone(),
            target_agent_id: self.target_agent_id.clone(),
            source_agent_id: self.source_agent_id.clone(),
            assigned_agent_id: self.assigned_agent_id.clone(),
            payload: self.payload.clone(),
            state: self.state.clone(),
            result: self.result.clone(),
            error: self.error.clone(),
            created_at: self.created_at,
            updated_at: self.updated_at,
            ttl: self.ttl,
        }
    }
}

// ─── The task table ──────────────────────────────────────────────────────

/// The tasks a `DashMap` holds, by key.
pub uninterp spec fn task_table(m: dashmap::DashMap<String, Task>) -> Map<Seq<char>, TaskView>;

/// `DashMap::new`: an empty map.
#[verifier::external_body]
fn table_new() -> (r: dashmap::DashMap<String, Task>)
    ensures
        forall|k: Seq<char>| !task_table(r).contains_key(k),
{
    dashmap::DashMap::new()
}

/// `DashMap::insert`: the key now maps to the value, other keys unchanged.
#[verifier::external_body]
fn table_insert(m: &mut dashmap::DashMap<String, Task>, key: String, value: Task)
    ensures
        task_table(*final(m)) == task_table(*old(m)).insert(key@, value@),
{
    m.insert(key, value);
}

/// `DashMap::get`: the value stored under the key, if any (handed out as a copy).
#[verifier::external_body]
fn table_get(m: &dashmap::DashMap<String, Task>, key: &str) -> (r: Option<Task>)
    ensures
        match r {
            Some(t) => task_table(*m).contains_key(key@) && t@ == task_table(*m)[key@],
            None => !task_table(*m).contains_key(key@),
        },
{
    m.get(key).map(|e| e.value().clone())
}

/// `DashMap::iter`: every entry exactly once, each as a copy, in an order
/// that the map does not promise.
#[verifier::external_body]
fn table_entries(m: &dashmap::DashMap<String, Task>) -> (r: Vec<(String, Task)>)
    ensures
        forall|i: int|
            0 <= i < r@.len() ==> task_table(*m).contains_key(#[trigger] r@[i].0@)
                && r@[i].1@ == task_table(*m)[r@[i].0@],
        forall|i: int, j: int| 0 <= i < j < r@.len() ==> r@[i].0@ != r@[j].0@,
        forall|k: Seq<char>|
            task_table(*m).contains_key(k) ==> exists|i: int| 0 <= i < r@.len() && #[trigger] r@[i].0@ == k,
{
    m.iter().map(|e| (e.key().clone(), e.value().clone())).collect()
}

/// A lower-case hexadecimal digit.
pub open spec fn lower_hex_digit(c: char) -> bool {
    ('0' <= c && c <= '9') || ('a' <= c && c <= 'f')
}

/// The hyphenated lower-case text of a version 4 (random) UUID: groups of
/// 8, 4, 4, 4 and 12 hex digits joined by hyphens, the version digit `4`,
/// and a variant digit among `8`, `9`, `a`, `b`.
pub open spec fn is_uuid_v4_text(s: Seq<char>) -> bool {
    &&& s.len() == 36
    &&& forall|i: int|
        #![trigger s[i]]
        0 <= i < 36 ==> if i == 8 || i == 13 || i == 18 || i == 23 {
            s[i] == '-'
        } else {
            lower_hex_digit(s[i])
        }
    &&& s[14] == '4'
    &&& (s[19] == '8' || s[19] == '9' || s[19] == 'a' || s[19] == 'b')
}

/// A task id: the first twelve characters of a random UUID's text, that is
/// eight hex digits, a hyphen and three hex digits.
pub open spec fn is_task_id(s: Seq<char>) -> bool {
    &&& s.len() == 12
    &&& forall|i: int| #![trigger s[i]] 0 <= i < 12 ==> if i == 8 { s[i] == '-' } else { lower_hex_digit(s[i]) }
}

/// A random (version 4) UUID in its hyphenated text form, from
/// `uuid::Uuid::new_v4().to_string()` (`Display` writes the lower-case
/// hyphenated form; `new_v4` sets the version and variant bits).
#[verifier::external_body]
fn new_uuid_v4_string() -> (r: String)
    ensures
        is_uuid_v4_text(r@),
        r.is_ascii(),
{
    uuid::Uuid::new_v4().to_string()
}

// ─── Task rules ──────────────────────────────────────────────────────────

/// A task is handed to an agent when it is pending and either names that
/// agent as its target or asks for a skill that the agent has.
pub open spec fn matches_agent(t: TaskView, agent_id: Seq<char>, skills: Seq<Seq<char>>) -> bool {
    &&& t.state == "pending"@
    &&& (t.target_agent_id == agent_id || (t.skill.len() > 0 && skills.contains(t.skill)))
}

/// The task once assigned to `agent_id` at time `now`.
pub open spec fn assigned_to(t: TaskView, agent_id: Seq<char>, now: u64) -> TaskView {
    TaskView { state: "assigned"@, assigned_agent_id: agent_id, updated_at: now, ..t }
}

/// The task table after `agent_id` with `skills` polled it at `now`.
pub open spec fn after_poll(
    tasks: Map<Seq<char>, TaskView>,
    agent_id: Seq<char>,
    skills: Seq<Seq<char>>,
    now: u64,
) -> Map<Seq<char>, TaskView> {
    Map::new(
        |k: Seq<char>| tasks.contains_key(k),
        |k: Seq<char>|
            if matches_agent(tasks[k], agent_id, skills) {
                assigned_to(tasks[k], agent_id, now)
            } else {
                tasks[k]
            },
    )
}

/// What polling the table `before` for `agent_id` with `skills` at `now`
/// does: the table becomes `after_poll`, and `r` lists every task that was
/// handed out, once each, as now stored.
pub open spec fn poll_outcome(
    before: Map<Seq<char>, TaskView>,
    after: Map<Seq<char>, TaskView>,
    agent_id: Seq<char>,
    skills: Seq<Seq<char>>,
    now: u64,
    r: Seq<Task>,
) -> bool {
    &&& after == after_poll(before, agent_id, skills, now)
    &&& forall|i: int|
        0 <= i < r.len() ==> #[trigger] before.contains_key(r[i]@.id)
            && matches_agent(before[r[i]@.id], agent_id, skills)
            && r[i]@ == assigned_to(before[r[i]@.id], agent_id, now)
    &&& forall|i: int, j: int| 0 <= i < j < r.len() ==> r[i]@.id != r[j]@.id
    &&& forall|k: Seq<char>|
        before.contains_key(k) && matches_agent(before[k], agent_id, skills)
            ==> exists|i: int| 0 <= i < r.len() && #[trigger] r[i]@.id == k
}

/// The task table once the tasks under `keys` have been offered to the agent.
pub open spec fn polled_upto(
    tasks: Map<Seq<char>, TaskView>,
    keys: Seq<Seq<char>>,
    agent_id: Seq<char>,
    skills: Seq<Seq<char>>,
    now: u64,
) -> Map<Seq<char>, TaskView> {
    Map::new(
        |k: Seq<char>| tasks.contains_key(k),
        |k: Seq<char>|
            if keys.contains(k) && matches_agent(tasks[k], agent_id, skills) {
                assigned_to(tasks[k], agent_id, now)
            } else {
                tasks[k]
            },
    )
}

/// Growing a prefix by one element adds exactly that element.
pub proof fn lemma_take_push<A>(s: Seq<A>, i: int)
    requires
        0 <= i < s.len(),
    ensures
        forall|x: A|
            #![trigger s.take(i + 1).contains(x)]
            #![trigger s.take(i).contains(x)]
            s.take(i + 1).contains(x) <==> (s.take(i).contains(x) || x == s[i]),
{
    assert(s.take(i + 1) =~= s.take(i).push(s[i]));
    assert forall|x: A| s.take(i + 1).contains(x) <==> (s.take(i).contains(x) || x == s[i]) by {
        if s.take(i + 1).contains(x) {
            let a = choose|a: int| 0 <= a < i + 1 && #[trigger] s.take(i + 1)[a] == x;
            if a < i {
                assert(s.take(i)[a] == x);
            }
        }
        if s.take(i).contains(x) {
            let a = choose|a: int| 0 <= a < i && #[trigger] s.take(i)[a] == x;
            assert(s.take(i + 1)[a] == x);
        }
        if x == s[i] {
            assert(s.take(i + 1)[i] == x);
        }
    }
}

/// Whether a task's time to live has run out at `now` (milliseconds).
pub open spec fn ttl_expired(t: TaskView, now: u64) -> bool {
    now >= t.created_at && now - t.created_at > t.ttl * 1000
}

/// The task after an expiry sweep at `now`: a task that is neither completed
/// nor failed and whose time to live has run out becomes failed.
pub open spec fn expired(t: TaskView, now: u64) -> TaskView {
    if t.state == "completed"@ || t.state == "failed"@ || !ttl_expired(t, now) {
        t
    } else {
        TaskView { state: "failed"@, error: "TTL expired"@, updated_at: now, ..t }
    }
}

/// The task after an update at `now`: the state is replaced, the result and
/// error only when the update carries a non-empty one.
pub open spec fn updated(t: TaskView, state: Seq<char>, result: Seq<char>, error: Seq<char>, now: u64) -> TaskView {
    TaskView {
        state: state,
        result: if result.len() > 0 { result } else { t.result },
        error: if error.len() > 0 { error } else { t.error },
        updated_at: now,
        ..t
    }
}

/// A freshly submitted task.
pub open spec fn submitted(id: Seq<char>, sub: TaskSubmission, now: u64) -> TaskView {
    TaskView {
        id: id,
        skill: sub.skill@,
        target_agent_id: sub.target_agent_id@,
        source_agent_id: sub.source_agent_id@,
        assigned_agent_id: Seq::empty(),
        payload: sub.payload@,
        state: "pending"@,
        result: Seq::empty(),
        error: Seq::empty(),
        created_at: now,
        updated_at: now,
        ttl: sub.ttl,
    }
}

/// Whether `s` is one of `items`.
pub fn contains_string(items: &[String], s: &String) -> (r: bool)
    ensures
        r == views(items@).contains(s@),
{
    let n = items.len();
    for i in 0..n
        invariant
            n == items@.len(),
            forall|j: int| 0 <= j < i ==> items@[j]@ != s@,
    {
        if items[i] == *s {
            assert(views(items@)[i as int] == s@);
            return true;
        }
    }
    proof {
        if views(items@).contains(s@) {
            let j = choose|j: int| 0 <= j < views(items@).len() && views(items@)[j] == s@;
            assert(items@[j]@ == s@);
        }
    }
    false
}

// ─── Hub state ───────────────────────────────────────────────────────────

pub struct HubState {
    tasks: dashmap::DashMap<String, Task>,
}

impl HubState {
    /// Well-formed: every task is stored under its own id.
    pub closed spec fn wf(&self) -> bool {
        forall|k: Seq<char>| #[trigger] task_table(self.tasks).contains_key(k) ==> task_table(self.tasks)[k].id == k
    }

    /// The tasks, by id.
    pub closed spec fn view(&self) -> Map<Seq<char>, TaskView> {
        task_table(self.tasks)
    }

    pub fn new() -> (r: Self)
        ensures
            r.wf(),
            r.view() == Map::<Seq<char>, TaskView>::empty(),
    {
        let r = HubState { tasks: table_new() };
        assert(r.view() =~= Map::<Seq<char>, TaskView>::empty());
        r
    }

    /// Stores a task under its id, replacing any task with that id.
    pub fn insert_task(&mut self, task: Task)
        requires
            old(self).wf(),
        ensures
            final(self).wf(),
            final(self).view() == old(self).view().insert(task@.id, task@),
    {
        let key = task.id.clone();
        table_insert(&mut self.tasks, key, task);
    }

    /// The task with the given id.
    pub fn get_task(&self, task_id: &str) -> (r: Option<Task>)
        ensures
            match r {
                Some(t) => self.view().contains_key(task_id@) && t@ == self.view()[task_id@],
                None => !self.view().contains_key(task_id@),
            },
    {
        table_get(&self.tasks, task_id)
    }

    /// All tasks, each once, in no promised order.
    pub fn list_tasks(&self) -> (r: Vec<Task>)
        requires
            self.wf(),
        ensures
            forall|i: int| 0 <= i < r@.len() ==> #[trigger] self.view().contains_key(r@[i]@.id) && r@[i]@ == self.view()[r@[i]@.id],
            forall|i: int, j: int| 0 <= i < j < r@.len() ==> r@[i]@.id != r@[j]@.id,
            forall|k: Seq<char>| self.view().contains_key(k) ==> exists|i: int| 0 <= i < r@.len() && #[trigger] r@[i]@.id == k,
    {
        let entries = table_entries(&self.tasks);
        let mut out: Vec<Task> = Vec::new();
        let n = entries.len();
        for i in 0..n
            invariant
                n == entries@.len(),
                out@.len() == i,
                forall|j: int| 0 <= j < i ==> #[trigger] out@[j]@ == entries@[j].1@,
        {
            out.push(entries[i].1.clone());
        }
        proof {
            assert forall|i: int| 0 <= i < out@.len() implies #[trigger] self.view().contains_key(out@[i]@.id) && out@[i]@ == self.view()[out@[i]@.id] by {
                assert(out@[i]@ == entries@[i].1@);
                assert(task_table(self.tasks).contains_key(entries@[i].0@));
            }
            assert forall|i: int, j: int| 0 <= i < j < out@.len() implies out@[i]@.id != out@[j]@.id by {
                assert(out@[i]@ == entries@[i].1@);
                assert(out@[j]@ == entries@[j].1@);
                assert(task_table(self.tasks).contains_key(entries@[i].0@));
                assert(task_table(self.tasks).contains_key(entries@[j].0@));
            }
            assert forall|k: Seq<char>| self.view().contains_key(k) implies exists|i: int| 0 <= i < out@.len() && #[trigger] out@[i]@.id == k by {
                let i = choose|i: int| 0 <= i < entries@.len() && #[trigger] entries@[i].0@ == k;
                assert(out@[i]@ == entries@[i].1@);
            }
        }
        out
    }

    /// Hands every pending task that targets `agent_id`, or asks for one of
    /// `skills`, to that agent at time `now`, and returns those tasks as now
    /// stored (in no promised order). No other task changes.
    pub fn get_pending_for_agent_at(&mut self, agent_id: &str, skills: &[String], now: u64) -> (r: Vec<Task>)
        requires
            old(self).wf(),
        ensures
            final(self).wf(),
            poll_outcome(old(self).view(), final(self).view(), agent_id@, views(skills@), now, r@),
    {
        let ghost before = self.view();
        let ghost sk = views(skills@);
        let entries = table_entries(&self.tasks);
        let ghost keys = entries@.map_values(|e: (String, Task)| e.0@);
        proof {
            assert forall|a: int, b: int| 0 <= a < keys.len() && 0 <= b < keys.len() && a != b implies keys[a] != keys[b] by {
                if a < b {
                    assert(entries@[a].0@ != entries@[b].0@);
                } else {
                    assert(entries@[b].0@ != entries@[a].0@);
                }
            }
            assert forall|k: Seq<char>| before.contains_key(k) implies keys.contains(k) by {
                let a = choose|a: int| 0 <= a < entries@.len() && #[trigger] entries@[a].0@ == k;
                assert(keys[a] == k);
            }
        }
        let mut result: Vec<Task> = Vec::new();
        let n = entries.len();
        let mut i: usize = 0;
        while i < n
            invariant
                i <= n,
                n == entries@.len(),
                keys.len() == n,
                forall|a: int| 0 <= a < n ==> #[trigger] keys[a] == entries@[a].0@,
                forall|a: int| 0 <= a < n ==> before.contains_key(#[trigger] keys[a]) && entries@[a].1@ == before[keys[a]],
                keys.no_duplicates(),
                forall|k: Seq<char>| before.contains_key(k) ==> keys.contains(k),
                forall|k: Seq<char>| #[trigger] before.contains_key(k) ==> before[k].id == k,
                sk == views(skills@),
                self.wf(),
                self.view() == polled_upto(before, keys.take(i as int), agent_id@, sk, now),
                forall|j: int|
                    #![trigger result@[j]]
                    0 <= j < result@.len() ==> before.contains_key(result@[j]@.id)
                        && keys.take(i as int).contains(result@[j]@.id)
                        && matches_agent(before[result@[j]@.id], agent_id@, sk)
                        && result@[j]@ == assigned_to(before[result@[j]@.id], agent_id@, now),
                forall|j: int, l: int| 0 <= j < l < result@.len() ==> result@[j]@.id != result@[l]@.id,
                forall|k: Seq<char>|
                    #[trigger] keys.take(i as int).contains(k) && before.contains_key(k) && matches_agent(before[k], agent_id@, sk)
                        ==> exists|j: int| 0 <= j < result@.len() && #[trigger] result@[j]@.id == k,
            decreases n - i,
        {
            let key = &entries[i].0;
            let task = &entries[i].1;
            let ghost k = keys[i as int];
            assert(k == key@);
            let is_pending = str_eq(task.state.as_str(), "pending");
            let wanted = is_pending && (str_eq(task.target_agent_id.as_str(), agent_id) || (
            !task.skill.as_str().is_empty() && contains_string(skills, &task.skill)));
            assert(wanted == matches_agent(before[k], agent_id@, sk));
            let ghost prev_map = self.view();
            let ghost prev_result = result@;
            proof {
                lemma_take_push(keys, i as int);
                assert(!keys.take(i as int).contains(k)) by {
                    if keys.take(i as int).contains(k) {
                        let a = choose|a: int| 0 <= a < i && #[trigger] keys.take(i as int)[a] == k;
                        assert(keys[a] == keys[i as int]);
                    }
                }
            }
            if wanted {
                let mut t = task.clone();
                t.state = "assigned".to_owned();
                t.assigned_agent_id = agent_id.to_owned();
                t.updated_at = now;
                assert(t@ == assigned_to(before[k], agent_id@, now));
                table_insert(&mut self.tasks, key.clone(), t.clone());
                result.push(t);
            }
            proof {
                assert(self.view() =~= polled_upto(before, keys.take(i + 1), agent_id@, sk, now));
                assert forall|j: int|
                    #![trigger result@[j]]
                    0 <= j < result@.len() implies before.contains_key(result@[j]@.id)
                        && keys.take(i + 1).contains(result@[j]@.id)
                        && matches_agent(before[result@[j]@.id], agent_id@, sk)
                        && result@[j]@ == assigned_to(before[result@[j]@.id], agent_id@, now) by {
                    if j < prev_result.len() {
                        assert(result@[j] == prev_result[j]);
                        assert(keys.take(i as int).contains(prev_result[j]@.id));
                    } else {
                        assert(result@[j]@.id == k);
                    }
                }
                assert forall|j: int, l: int| 0 <= j < l < result@.len() implies result@[j]@.id != result@[l]@.id by {
                    assert(result@[j] == prev_result[j]);
                    if l < prev_result.len() {
                        assert(result@[l] == prev_result[l]);
                    } else {
                        assert(keys.take(i as int).contains(prev_result[j]@.id));
                    }
                }
                assert forall|kk: Seq<char>|
                    #[trigger] keys.take(i + 1).contains(kk) && before.contains_key(kk) && matches_agent(before[kk], agent_id@, sk)
                        implies exists|j: int| 0 <= j < result@.len() && #[trigger] result@[j]@.id == kk by {
                    if kk == k {
                        assert(result@[result@.len() - 1]@.id == kk);
                    } else {
                        assert(keys.take(i as int).contains(kk));
                        assert(exists|j: int| 0 <= j < prev_result.len() && #[trigger] prev_result[j]@.id == kk);
                        let j = choose|j: int| 0 <= j < prev_result.len() && #[trigger] prev_result[j]@.id == kk;
                        assert(result@[j] == prev_result[j]);
                    }
                }
            }
            i = i + 1;
        }
        proof {
            assert(keys.take(n as int) =~= keys);
            assert(self.view() =~= after_poll(before, agent_id@, sk, now));
            assert forall|k: Seq<char>|
                before.contains_key(k) && matches_agent(before[k], agent_id@, sk)
                    implies exists|j: int| 0 <= j < result@.len() && #[trigger] result@[j]@.id == k by {
                assert(keys.take(n as int).contains(k));
            }
        }
        result
    }

    /// Hands every pending task that targets `agent_id`, or asks for one of
    /// `skills`, to that agent, stamped with the current time, and returns
    /// those tasks as now stored.
    pub fn get_pending_for_agent(&mut self, agent_id: &str, skills: &[String]) -> (r: Vec<Task>)
        requires
            old(self).wf(),
        ensures
            final(self).wf(),
            exists|now: u64| read_from_millis_clock(now)
                && #[trigger] poll_outcome(old(self).view(), final(self).view(), agent_id@, views(skills@), now, r@),
    {
        let now = now_unix_millis();
        self.get_pending_for_agent_at(agent_id, skills, now)
    }

    /// One sweep of the expiry loop at `now`: every task that is neither
    /// completed nor failed and whose time to live has run out is marked
    /// failed with the error "TTL expired".
    pub fn expire_tasks(&mut self, now: u64)
        requires
            old(self).wf(),
        ensures
            final(self).wf(),
            final(self).view() == Map::new(
                |k: Seq<char>| old(self).view().contains_key(k),
                |k: Seq<char>| expired(old(self).view()[k], now),
            ),
    {
        let ghost before = self.view();
        let entries = table_entries(&self.tasks);
        let ghost keys = entries@.map_values(|e: (String, Task)| e.0@);
        proof {
            assert forall|a: int, b: int| 0 <= a < keys.len() && 0 <= b < keys.len() && a != b implies keys[a] != keys[b] by {
                if a < b {
                    assert(entries@[a].0@ != entries@[b].0@);
                } else {
                    assert(entries@[b].0@ != entries@[a].0@);
                }
            }
            assert forall|k: Seq<char>| before.contains_key(k) implies keys.contains(k) by {
                let a = choose|a: int| 0 <= a < entries@.len() && #[trigger] entries@[a].0@ == k;
                assert(keys[a] == k);
            }
        }
        let n = entries.len();
        let mut i: usize = 0;
        while i < n
            invariant
                i <= n,
                n == entries@.len(),
                keys.len() == n,
                forall|a: int| 0 <= a < n ==> #[trigger] keys[a] == entries@[a].0@,
                forall|a: int| 0 <= a < n ==> before.contains_key(#[trigger] keys[a]) && entries@[a].1@ == before[keys[a]],
                keys.no_duplicates(),
                forall|k: Seq<char>| before.contains_key(k) ==> keys.contains(k),
                forall|k: Seq<char>| #[trigger] before.contains_key(k) ==> before[k].id == k,
                self.wf(),
                self.view() == Map::new(
                    |k: Seq<char>| before.contains_key(k),
                    |k: Seq<char>| if keys.take(i as int).contains(k) { expired(before[k], now) } else { before[k] },
                ),
            decreases n - i,
        {
            let key = &entries[i].0;
            let task = &entries[i].1;
            let ghost k = keys[i as int];
            proof {
                lemma_take_push(keys, i as int);
                assert(!keys.take(i as int).contains(k)) by {
                    if keys.take(i as int).contains(k) {
                        let a = choose|a: int| 0 <= a < i && #[trigger] keys.take(i as int)[a] == k;
                        assert(keys[a] == keys[i as int]);
                    }
                }
            }
            let finished = str_eq(task.state.as_str(), "completed") || str_eq(task.state.as_str(), "failed");
            let late = now >= task.created_at && ((now - task.created_at) as u128) > (task.ttl as u128) * 1000;
            assert(late == ttl_expired(before[k], now));
            if !finished && late {
                let mut t = task.clone();
                t.state = "failed".to_owned();
                t.error = "TTL expired".to_owned();
                t.updated_at = now;
                assert(t@ == expired(before[k], now));
                table_insert(&mut self.tasks, key.clone(), t);
            }
            proof {
                assert(self.view() =~= Map::new(
                    |kk: Seq<char>| before.contains_key(kk),
                    |kk: Seq<char>| if keys.take(i + 1).contains(kk) { expired(before[kk], now) } else { before[kk] },
                ));
            }
            i = i + 1;
        }
        proof {
            assert(keys.take(n as int) =~= keys);
            assert(self.view() =~= Map::new(
                |k: Seq<char>| before.contains_key(k),
                |k: Seq<char>| expired(before[k], now),
            ));
        }
    }

    /// Applies an update to the task with the given id at time `now`; returns
    /// whether that task exists. The state is replaced; the result and error
    /// only when the update carries non-empty ones.
    pub fn update_task_at(&mut self, task_id: &str, update: TaskUpdate, now: u64) -> (r: bool)
        requires
            old(self).wf(),
        ensures
            final(self).wf(),
            r == old(self).view().contains_key(task_id@),
            final(self).view() == if r {
                old(self).view().insert(task_id@, updated(old(self).view()[task_id@], update.state@, update.result@, update.error@, now))
            } else {
                old(self).view()
            },
    {
        match table_get(&self.tasks, task_id) {
            Some(mut t) => {
                t.state = update.state;
                if !update.result.as_str().is_empty() {
                    t.result = update.result;
                }
                if !update.error.as_str().is_empty() {
                    t.error = update.error;
                }
                t.updated_at = now;
                table_insert(&mut self.tasks, task_id.to_owned(), t);
                true
            },
            None => false,
        }
    }

    /// Applies an update to the task with the given id, stamped with the
    /// current time; returns whether that task exists.
    pub fn update_task(&mut self, task_id: &str, update: TaskUpdate) -> (r: bool)
        requires
            old(self).wf(),
        ensures
            final(self).wf(),
            r == old(self).view().contains_key(task_id@),
            !r ==> final(self).view() == old(self).view(),
            r ==> exists|now: u64| read_from_millis_clock(now)
                && final(self).view() == #[trigger] old(self).view().insert(task_id@, updated(old(self).view()[task_id@], update.state@, update.result@, update.error@, now)),
    {
        let now = now_unix_millis();
        self.update_task_at(task_id, update, now)
    }

    /// Queues a new pending task under `id` at time `now`.
    pub fn submit_task_at(&mut self, sub: TaskSubmission, id: String, now: u64)
        requires
            old(self).wf(),
        ensures
            final(self).wf(),
            final(self).view() == old(self).view().insert(id@, submitted(id@, sub, now)),
    {
        let task = Task {
            id: id,
            skill: sub.skill,
            target_agent_id: sub.target_agent_id,
            source_agent_id: sub.source_agent_id,
            assigned_agent_id: String::new(),
            payload: sub.payload,
            state: "pending".to_owned(),
            result: String::new(),
            error: String::new(),
            created_at: now,
            updated_at: now,
            ttl: sub.ttl,
        };
        self.insert_task(task);
    }

    /// Queues a new pending task under a fresh id (the first twelve
    /// characters of a random UUID) and returns that id.
    pub fn submit_task(&mut self, sub: TaskSubmission) -> (r: String)
        requires
            old(self).wf(),
        ensures
            final(self).wf(),
            is_task_id(r@),
            exists|now: u64| read_from_millis_clock(now)
                && final(self).view() == #[trigger] old(self).view().insert(r@, submitted(r@, sub, now)),
    {
        let uuid = new_uuid_v4_string();
        let id = uuid.as_str().substring_ascii(0, 12).to_owned();
        assert forall|i: int| #![trigger id@[i]] 0 <= i < 12 implies if i == 8 { id@[i] == '-' } else { lower_hex_digit(id@[i]) } by {
            assert(id@[i] == uuid@[i]);
        }
        let now = now_unix_millis();
        let ghost s = sub;
        self.submit_task_at(sub, id.clone(), now);
        assert(self.view() == old(self).view().insert(id@, submitted(id@, s, now)));
        id
    }
}

}

verus! {

/// A poll hands each task out at most once: after `agent_id` polled, the
/// same agent polling again with the same skills is handed nothing.
pub proof fn lemma_poll_hands_out_once(
    tasks: Map<Seq<char>, TaskView>,
    agent_id: Seq<char>,
    skills: Seq<Seq<char>>,
    first: u64,
) ensures
    forall|k: Seq<char>|
        #[trigger] after_poll(tasks, agent_id, skills, first).contains_key(k)
            ==> !matches_agent(after_poll(tasks, agent_id, skills, first)[k], agent_id, skills),
{
    reveal_strlit("assigned");
    reveal_strlit("pending");
    assert("assigned"@[0] != "pending"@[0]);
}

/// A poll changes only the tasks it hands out, and only by assigning them
/// to the polling agent: the id, skill, target, source, payload, result,
/// error, creation time and time to live of every task stay as they were.
pub proof fn lemma_poll_keeps_task_content(
    tasks: Map<Seq<char>, TaskView>,
    agent_id: Seq<char>,
    skills: Seq<Seq<char>>,
    now: u64,
) ensures
    after_poll(tasks, agent_id, skills, now).dom() == tasks.dom(),
    forall|k: Seq<char>|
        #[trigger] tasks.contains_key(k) ==> {
            let t = after_poll(tasks, agent_id, skills, now)[k];
            &&& t.id == tasks[k].id
            &&& t.skill == tasks[k].skill
            &&& t.target_agent_id == tasks[k].target_agent_id
            &&& t.source_agent_id == tasks[k].source_agent_id
            &&& t.payload == tasks[k].payload
            &&& t.result == tasks[k].result
            &&& t.error == tasks[k].error
            &&& t.created_at == tasks[k].created_at
            &&& t.ttl == tasks[k].ttl
        },
{
    assert(after_poll(tasks, agent_id, skills, now).dom() =~= tasks.dom());
}

/// A submitted task reaches the agent it targets: the next time that agent
/// polls, the task is handed to it, assigned to it and otherwise as it was
/// submitted.
pub proof fn lemma_submitted_task_reaches_target(
    tasks: Map<Seq<char>, TaskView>,
    id: Seq<char>,
    sub: TaskSubmission,
    submitted_at: u64,
    skills: Seq<Seq<char>>,
    polled_at: u64,
)
    ensures
        ({
            let queued = tasks.insert(id, submitted(id, sub, submitted_at));
            let after = after_poll(queued, sub.target_agent_id@, skills, polled_at);
            &&& matches_agent(queued[id], sub.target_agent_id@, skills)
            &&& after.contains_key(id)
            &&& after[id] == assigned_to(submitted(id, sub, submitted_at), sub.target_agent_id@, polled_at)
        }),
{
}

/// The expiry sweep never changes a completed or failed task, and a second
/// sweep at the same time changes nothing more.
pub proof fn lemma_expiry_settles(t: TaskView, now: u64)
    ensures
        (t.state == "completed"@ || t.state == "failed"@) ==> expired(t, now) == t,
        expired(expired(t, now), now) == expired(t, now),
{
}

/// A task expires by its own time to live: a pending task created at `c`
/// with a time to live of `s` seconds is still pending at `c + s * 1000`
/// milliseconds and fails with "TTL expired" one millisecond later.
pub proof fn lemma_expiry_follows_own_ttl(t: TaskView)
    requires
        t.state == "pending"@,
        t.created_at + t.ttl * 1000 + 1 <= u64::MAX,
    ensures
        expired(t, (t.created_at + t.ttl * 1000) as u64) == t,
        expired(t, (t.created_at + t.ttl * 1000 + 1) as u64).state == "failed"@,
        expired(t, (t.created_at + t.ttl * 1000 + 1) as u64).error == "TTL expired"@,
        expired(t, (t.created_at + t.ttl * 1000 + 1) as u64).updated_at == t.created_at + t.ttl * 1000 + 1,
{
    reveal_strlit("pending");
    reveal_strlit("completed");
    reveal_strlit("failed");
    assert("pending"@[0] != "completed"@[0]);
    assert("pending"@[0] != "failed"@[0]);
}

/// An update replaces the state, and keeps the result and the error unless
/// the update carries non-empty ones; the task's identity is kept.
pub proof fn lemma_update_keeps_identity(t: TaskView, state: Seq<char>, now: u64)
    ensures
        updated(t, state, Seq::empty(), Seq::empty(), now).result == t.result,
        updated(t, state, Seq::empty(), Seq::empty(), now).error == t.error,
        updated(t, state, Seq::empty(), Seq::empty(), now).state == state,
        updated(t, state, Seq::empty(), Seq::empty(), now).id == t.id,
{
}

}
