//! The task set and its identity rules: every pending task carries an
//! ephemeral numeric id (distinct among pending tasks, absent on any other
//! task), ids resolve to UUIDs, and a filtered result set is expanded with
//! the tasks its members depend on.

use vstd::prelude::*;

use crate::filters::Filter;
use crate::filters::FilterV;
use crate::filters::eval;
use crate::task::Task;
use crate::task::TaskStatus;
use crate::task::TaskV;

verus! {

/// A reference to another task: by permanent UUID or by ephemeral id.
#[derive(Debug, PartialEq, Eq, Structural, Clone, Copy)]
pub enum DependsOnIdentifier {
    Uuid(u128),
    Usize(usize),
}

/// A dependency reference that does not resolve in the loaded task set.
#[derive(Debug, PartialEq, Eq, Structural, Clone, Copy)]
pub enum ResolutionError {
    UnknownUuid(u128),
    UnknownId(usize),
}

/// No two tasks share a UUID.
pub open spec fn uuids_unique(s: Seq<TaskV>) -> bool {
    forall|i: int, j: int| 0 <= i < j < s.len() ==> s[i].uuid != s[j].uuid
}

/// Some task carries this UUID.
pub open spec fn contains_uuid(s: Seq<TaskV>, u: u128) -> bool {
    exists|i: int| 0 <= i < s.len() && s[i].uuid == u
}

/// How many of the first `n` tasks are pending (zero when `n` lies outside
/// the sequence).
pub open spec fn count_pending(s: Seq<TaskV>, n: int) -> int
    decreases n,
{
    if n <= 0 || s.len() < n {
        0
    } else {
        count_pending(s, n - 1) + if s[n - 1].status == TaskStatus::Pending {
            1int
        } else {
            0int
        }
    }
}

/// Two tasks that agree on everything but the ephemeral id.
pub open spec fn same_except_id(a: TaskV, b: TaskV) -> bool {
    a.uuid == b.uuid && a.status == b.status && a.description == b.description && a.tags == b.tags
        && a.date_created == b.date_created && a.sub == b.sub
}

/// Every pending task carries an id and no other task does.
pub open spec fn ids_assigned(s: Seq<TaskV>) -> bool {
    forall|i: int|
        0 <= i < s.len() ==> (((#[trigger] s[i]).id is Some) <==> s[i].status
            == TaskStatus::Pending)
}

/// No two tasks share an id.
pub open spec fn ids_distinct(s: Seq<TaskV>) -> bool {
    forall|i: int, j: int|
        0 <= i < j < s.len() && (#[trigger] s[i]).id is Some && (#[trigger] s[j]).id is Some
            ==> s[i].id != s[j].id
}

/// Some matched task depends on this UUID.
pub open spec fn dep_of_matched(s: Seq<TaskV>, f: FilterV, u: u128) -> bool {
    exists|i: int, j: int|
        #![trigger s[i].sub[j]]
        0 <= i < s.len() && eval(f, s[i]) && 0 <= j < s[i].sub.len() && s[i].sub[j] == u
}

/// Some matched task depends on a UUID that no task in the set carries.
pub open spec fn missing_dep(s: Seq<TaskV>, f: FilterV) -> bool {
    exists|i: int, j: int|
        #![trigger s[i].sub[j]]
        0 <= i < s.len() && eval(f, s[i]) && 0 <= j < s[i].sub.len() && !contains_uuid(
            s,
            s[i].sub[j],
        )
}

/// What the dependency closure of a filtered result holds: exactly the
/// tasks of the set that match, plus the tasks of the set that a matched
/// task depends on.
pub open spec fn closure_membership(s: Seq<TaskV>, f: FilterV, out: Seq<TaskV>) -> bool {
    forall|t: TaskV|
        #[trigger] out.contains(t) <==> (s.contains(t) && (eval(f, t) || dep_of_matched(
            s,
            f,
            t.uuid,
        )))
}

/// The loaded task set.
#[derive(Debug, PartialEq)]
pub struct TaskData {
    tasks: Vec<Task>,
}

impl View for TaskData {
    type V = Seq<TaskV>;

    closed spec fn view(&self) -> Seq<TaskV> {
        Seq::new(self.tasks@.len(), |i: int| self.tasks@[i]@)
    }
}

impl Default for TaskData {
    fn default() -> (r: Self)
        ensures
            r@ == Seq::<TaskV>::empty(),
            r.wf(),
    {
        let r = TaskData { tasks: Vec::new() };
        proof {
            assert(r@ =~= Seq::<TaskV>::empty());
        }
        r
    }
}

impl TaskData {
    /// The set is well formed when no two tasks share a UUID.
    pub open spec fn wf(&self) -> bool {
        uuids_unique(self@)
    }

    /// The tasks, in storage order.
    pub fn task_list(&self) -> (r: &Vec<Task>)
        ensures
            r@.len() == self@.len(),
            forall|i: int| 0 <= i < r@.len() ==> (#[trigger] r@[i])@ == self@[i],
    {
        &self.tasks
    }

    /// How many tasks are pending.
    #[verifier::loop_isolation(false)]
    pub fn get_pending_count(&self) -> (r: usize)
        ensures
            r == count_pending(self@, self@.len() as int),
    {
        let mut count: usize = 0;
        let mut i: usize = 0;
        while i < self.tasks.len()
            invariant
                i <= self.tasks.len(),
                count == count_pending(self@, i as int),
                count <= i,
            decreases self.tasks.len() - i,
        {
            if matches!(self.tasks[i].status, TaskStatus::Pending) {
                count = count + 1;
            }
            proof {
                assert(count_pending(self@, i + 1) == count_pending(self@, i as int) + if self@[
                    i as int
                ].status == TaskStatus::Pending {
                    1int
                } else {
                    0int
                });
            }
            i = i + 1;
        }
        count
    }

    /// Inserts a task, replacing the task with the same UUID if one is
    /// already there.
    #[verifier::loop_isolation(false)]
    pub fn set_task(&mut self, t: Task)
        requires
            old(self).wf(),
        ensures
            final(self).wf(),
            if contains_uuid(old(self)@, t@.uuid) {
                exists|i: int|
                    0 <= i < old(self)@.len() && old(self)@[i].uuid == t@.uuid && final(self)@
                        == old(self)@.update(i, t@)
            } else {
                final(self)@ == old(self)@.push(t@)
            },
    {
        let ghost v0 = self@;
        let mut i: usize = 0;
        while i < self.tasks.len()
            invariant
                i <= self.tasks.len(),
                self@ == v0,
                self.wf(),
                forall|j: int| 0 <= j < i ==> (#[trigger] v0[j]).uuid != t@.uuid,
            decreases self.tasks.len() - i,
        {
            if self.tasks[i].get_uuid() == t.get_uuid() {
                self.tasks.set(i, t);
                proof {
                    assert(final(self)@ =~= v0.update(i as int, t@));
                    assert(v0[i as int].uuid == t@.uuid);
                    assert(contains_uuid(v0, t@.uuid));
                    assert(0 <= i < v0.len() && v0[i as int].uuid == t@.uuid && final(self)@
                        == v0.update(i as int, t@));
                    let fv = final(self)@;
                    assert forall|a: int, b: int| 0 <= a < b < fv.len() implies fv[a].uuid
                        != fv[b].uuid by {
                        assert(v0[a].uuid != v0[b].uuid);
                    }
                }
                return ;
            }
            i = i + 1;
        }
        self.tasks.push(t);
        proof {
            assert(final(self)@ =~= v0.push(t@));
            assert(!contains_uuid(v0, t@.uuid));
            let fv = final(self)@;
            assert forall|a: int, b: int| 0 <= a < b < fv.len() implies fv[a].uuid != fv[b].uuid by {
                if b < v0.len() {
                    assert(v0[a].uuid != v0[b].uuid);
                } else {
                    assert(v0[a].uuid != t@.uuid);
                }
            }
        }
    }

    /// A copy of the task carrying this UUID, if one is there.
    #[verifier::loop_isolation(false)]
    pub fn get_owned(&self, uuid: u128) -> (r: Option<Task>)
        ensures
            match r {
                Some(t) => contains_uuid(self@, uuid) && t@.uuid == uuid && self@.contains(t@),
                None => !contains_uuid(self@, uuid),
            },
    {
        let mut i: usize = 0;
        while i < self.tasks.len()
            invariant
                i <= self.tasks.len(),
                forall|j: int| 0 <= j < i ==> (#[trigger] self@[j]).uuid != uuid,
            decreases self.tasks.len() - i,
        {
            if self.tasks[i].get_uuid() == uuid {
                let t = self.tasks[i].clone();
                proof {
                    assert(self@[i as int].uuid == uuid);
                    assert(self@.contains(t@));
                }
                return Some(t);
            }
            i = i + 1;
        }
        None
    }

    /// The UUID of the first task carrying this ephemeral id: the id-to-UUID
    /// table of the current load.
    #[verifier::loop_isolation(false)]
    pub fn id_to_uuid(&self, id: usize) -> (r: Option<u128>)
        ensures
            match r {
                Some(u) => exists|i: int|
                    0 <= i < self@.len() && (#[trigger] self@[i]).id == Some(id) && self@[i].uuid
                        == u,
                None => forall|i: int| 0 <= i < self@.len() ==> (#[trigger] self@[i]).id != Some(
                    id,
                ),
            },
    {
        let mut i: usize = 0;
        while i < self.tasks.len()
            invariant
                i <= self.tasks.len(),
                forall|j: int| 0 <= j < i ==> (#[trigger] self@[j]).id != Some(id),
            decreases self.tasks.len() - i,
        {
            let matches_id = match self.tasks[i].get_id() {
                Some(x) => x == id,
                None => false,
            };
            if matches_id {
                proof {
                    assert(self@[i as int].id == Some(id));
                }
                return Some(self.tasks[i].get_uuid());
            }
            i = i + 1;
        }
        None
    }

    /// Resolves a dependency reference to a UUID; a reference to an id or
    /// UUID that is not in the set is a consistency error.
    pub fn resolve_reference(&self, r: &DependsOnIdentifier) -> (res: Result<
        u128,
        ResolutionError,
    >)
        ensures
            match res {
                Ok(u) => match *r {
                    DependsOnIdentifier::Uuid(x) => u == x && contains_uuid(self@, x),
                    DependsOnIdentifier::Usize(id) => exists|i: int|
                        0 <= i < self@.len() && (#[trigger] self@[i]).id == Some(id)
                            && self@[i].uuid == u,
                },
                Err(e) => match *r {
                    DependsOnIdentifier::Uuid(x) => e == ResolutionError::UnknownUuid(x)
                        && !contains_uuid(self@, x),
                    DependsOnIdentifier::Usize(id) => e == ResolutionError::UnknownId(id) && forall|
                        i: int,
                    | 0 <= i < self@.len() ==> (#[trigger] self@[i]).id != Some(id),
                },
            },
    {
        match r {
            DependsOnIdentifier::Uuid(x) => {
                match self.get_owned(*x) {
                    Some(_) => Ok(*x),
                    None => Err(ResolutionError::UnknownUuid(*x)),
                }
            },
            DependsOnIdentifier::Usize(id) => {
                match self.id_to_uuid(*id) {
                    Some(u) => Ok(u),
                    None => Err(ResolutionError::UnknownId(*id)),
                }
            },
        }
    }
}

/// Membership test on an id list.
#[verifier::loop_isolation(false)]
fn contains_usize(v: &Vec<usize>, x: usize) -> (r: bool)
    ensures
        r == v@.contains(x),
{
    let mut i: usize = 0;
    while i < v.len()
        invariant
            i <= v.len(),
            forall|j: int| 0 <= j < i ==> v@[j] != x,
        decreases v.len() - i,
    {
        if v[i] == x {
            proof {
                assert(v@[i as int] == x);
            }
            return true;
        }
        i = i + 1;
    }
    false
}

/// The smallest positive id not yet taken.  Among the candidates `1` to
/// `taken.len() + 1` one must be free, by counting.
fn smallest_unused(taken: &Vec<usize>) -> (r: usize)
    requires
        taken@.len() < usize::MAX,
    ensures
        r >= 1,
        !taken@.contains(r),
        forall|m: usize| 1 <= m < r ==> taken@.contains(m),
{
    let n: usize = taken.len();
    let mut cand: usize = 1;
    loop
        invariant
            n == taken@.len(),
            n < usize::MAX,
            1 <= cand <= n + 1,
            forall|m: usize| 1 <= m < cand ==> taken@.contains(m),
        ensures
            cand >= 1,
            !taken@.contains(cand),
            forall|m: usize| 1 <= m < cand ==> taken@.contains(m),
        decreases n + 1 - cand,
    {
        if !contains_usize(taken, cand) {
            break ;
        }
        proof {
            if cand == n + 1 {
                lemma_some_small_id_free(taken@, n as int);
                let m = choose|m: usize| 1 <= m <= n + 1 && !taken@.contains(m);
                assert(taken@.contains(m));
                assert(false);
            }
        }
        cand = cand + 1;
    }
    cand
}

/// Pushing onto a list keeps every element it already held.
proof fn lemma_push_keeps_contains(s: Seq<usize>, x: usize, v: usize)
    requires
        s.contains(v),
    ensures
        s.push(x).contains(v),
{
    let k = choose|k: int| 0 <= k < s.len() && s[k] == v;
    assert(s.push(x)[k] == v);
}

/// Counting argument: a list of `n` ids cannot hold every id from `1` to
/// `n + 1`, so one of those candidates is free.
proof fn lemma_some_small_id_free(taken: Seq<usize>, n: int)
    requires
        taken.len() == n,
        n + 1 <= usize::MAX,
    ensures
        exists|m: usize| 1 <= m <= n + 1 && !taken.contains(m),
{
    if forall|m: usize| 1 <= m <= n + 1 ==> #[trigger] taken.contains(m) {
        let ints = taken.map_values(|x: usize| x as int);
        let range = vstd::set_lib::set_int_range(1, n + 2);
        vstd::set_lib::lemma_int_range(1, n + 2);
        vstd::seq_lib::seq_to_set_is_finite(ints);
        assert forall|m: int| range.contains(m) implies ints.to_set().contains(m) by {
            let mu = m as usize;
            assert(taken.contains(mu));
            let k = choose|k: int| 0 <= k < taken.len() && taken[k] == mu;
            assert(ints[k] == m);
            assert(ints.contains(m));
        }
        vstd::set_lib::lemma_len_subset(range, ints.to_set());
        ints.lemma_cardinality_of_set();
        assert(ints.to_set().len() <= n);
        assert(false);
    }
}

impl TaskData {
    /// Refreshes the ephemeral ids after a load: every non-pending task
    /// loses its id, every pending task holds one, the ids of pending
    /// tasks are pairwise distinct, nothing else about any task changes,
    /// and an already well-assigned set of ids is left exactly as it was.
    /// A task that needs a fresh id receives the smallest positive id not
    /// already granted in this pass.
    #[verifier::loop_isolation(false)]
    pub fn upkeep(&mut self)
        requires
            old(self).wf(),
        ensures
            final(self).wf(),
            final(self)@.len() == old(self)@.len(),
            forall|i: int|
                0 <= i < old(self)@.len() ==> same_except_id(old(self)@[i], final(self)@[i]),
            ids_assigned(final(self)@),
            ids_distinct(final(self)@),
            ids_assigned(old(self)@) && ids_distinct(old(self)@) ==> final(self)@ == old(self)@,
    {
        let ghost v0 = self@;
        let ghost good = ids_assigned(v0) && ids_distinct(v0);
        let n: usize = self.tasks.len();
        let mut out: Vec<Task> = Vec::new();
        let mut taken: Vec<usize> = Vec::new();
        let mut i: usize = 0;
        while i < n
            invariant
                i <= n,
                n == v0.len(),
                self@ == v0,
                self.wf(),
                self.tasks.len() == n,
                out@.len() == i,
                taken@.len() <= i,
                forall|j: int| 0 <= j < i ==> same_except_id(v0[j], (#[trigger] out@[j])@),
                forall|j: int|
                    0 <= j < i ==> (((#[trigger] out@[j])@.id is Some) <==> out@[j]@.status
                        == TaskStatus::Pending),
                forall|j: int|
                    0 <= j < i && (#[trigger] out@[j])@.id is Some ==> taken@.contains(
                        out@[j]@.id.unwrap(),
                    ),
                forall|a: int, b: int|
                    0 <= a < b < i && (#[trigger] out@[a])@.id is Some && (#[trigger] out@[b])@.id
                        is Some ==> out@[a]@.id != out@[b]@.id,
                good ==> (forall|j: int| 0 <= j < i ==> (#[trigger] out@[j])@.id == v0[j].id),
                good ==> (forall|v: usize|
                    #[trigger] taken@.contains(v) ==> exists|j: int|
                        0 <= j < i && (#[trigger] v0[j]).id == Some(v)),
            decreases n - i,
        {
            let mut t = self.tasks[i].clone();
            let is_pending = matches!(t.status, TaskStatus::Pending);
            if !is_pending {
                t.id = None;
            } else {
                let keep = match t.get_id() {
                    Some(id) => !contains_usize(&taken, id),
                    None => false,
                };
                if keep {
                    let id = match t.get_id() {
                        Some(id) => id,
                        None => 0,
                    };
                    let ghost taken0 = taken@;
                    taken.push(id);
                    proof {
                        assert(taken@ =~= taken0.push(id));
                        assert forall|v: usize| taken0.contains(v) implies taken@.contains(v) by {
                            lemma_push_keeps_contains(taken0, id, v);
                        }
                        assert(taken@.contains(id)) by {
                            assert(taken@[taken0.len() as int] == id);
                        }
                        if good {
                            assert(v0[i as int].id == Some(id));
                            assert forall|v: usize| taken@.contains(v) implies exists|j: int|
                                0 <= j < i + 1 && (#[trigger] v0[j]).id == Some(v) by {
                                let k = choose|k: int|
                                    0 <= k < taken@.len() && taken@[k] == v;
                                if k < taken0.len() {
                                    assert(taken0.contains(v));
                                } else {
                                    assert(v == id);
                                    assert(v0[i as int].id == Some(v));
                                }
                            }
                        }
                    }
                } else {
                    proof {
                        if good {
                            // With a well-assigned old set, every pending
                            // task keeps its id: its id is present and not
                            // yet granted to an earlier task.
                            assert(v0[i as int].id is Some);
                            let id0 = v0[i as int].id.unwrap();
                            if taken@.contains(id0) {
                                let j = choose|j: int|
                                    0 <= j < i && (#[trigger] v0[j]).id == Some(id0);
                                assert(false);
                            }
                            assert(false);
                        }
                    }
                    let nid = smallest_unused(&taken);
                    t.id = Some(nid);
                    let ghost taken0 = taken@;
                    taken.push(nid);
                    proof {
                        assert(taken@ =~= taken0.push(nid));
                        assert forall|v: usize| taken0.contains(v) implies taken@.contains(v) by {
                            lemma_push_keeps_contains(taken0, nid, v);
                        }
                        assert(taken@.contains(nid)) by {
                            assert(taken@[taken0.len() as int] == nid);
                        }
                    }
                }
            }
            let ghost out0 = out@;
            out.push(t);
            proof {
                assert(out@ =~= out0.push(t));
                assert(same_except_id(v0[i as int], t@));
            }
            i = i + 1;
        }
        self.tasks = out;
        proof {
            assert(final(self)@.len() == v0.len());
            if good {
                assert(final(self)@ =~= v0);
            }
            let fv = final(self)@;
            assert forall|a: int, b: int| 0 <= a < b < fv.len() implies fv[a].uuid != fv[b].uuid by {
                assert(same_except_id(v0[a], fv[a]));
                assert(same_except_id(v0[b], fv[b]));
                assert(v0[a].uuid != v0[b].uuid);
            }
        }
    }
}

/// The subsequence of tasks matching a filter, in order.
pub open spec fn matched_of(s: Seq<TaskV>, f: FilterV) -> Seq<TaskV>
    decreases s.len(),
{
    if s.len() == 0 {
        Seq::empty()
    } else {
        let rest = matched_of(s.drop_last(), f);
        if eval(f, s.last()) {
            rest.push(s.last())
        } else {
            rest
        }
    }
}

/// What `matched_of` holds: exactly the matching elements of the set.
pub proof fn lemma_matched_of_props(s: Seq<TaskV>, f: FilterV)
    ensures
        forall|j: int|
            0 <= j < matched_of(s, f).len() ==> eval(f, #[trigger] matched_of(s, f)[j])
                && s.contains(matched_of(s, f)[j]),
        forall|i: int| 0 <= i < s.len() && eval(f, #[trigger] s[i]) ==> matched_of(s, f).contains(
            s[i],
        ),
    decreases s.len(),
{
    if s.len() > 0 {
        lemma_matched_of_props(s.drop_last(), f);
        let m = matched_of(s, f);
        let rest = matched_of(s.drop_last(), f);
        assert forall|j: int| 0 <= j < m.len() implies eval(f, #[trigger] m[j]) && s.contains(
            m[j],
        ) by {
            if j < rest.len() {
                assert(eval(f, rest[j]));
                assert(s.drop_last().contains(rest[j]));
                let k = choose|k: int|
                    0 <= k < s.drop_last().len() && s.drop_last()[k] == rest[j];
                assert(s[k] == rest[j]);
            } else {
                assert(m[j] == s.last());
                assert(s[s.len() - 1] == s.last());
            }
        }
        assert forall|i: int| 0 <= i < s.len() && eval(f, #[trigger] s[i]) implies m.contains(
            s[i],
        ) by {
            if i < s.len() - 1 {
                assert(s.drop_last()[i] == s[i]);
                assert(rest.contains(s[i]));
                let k = choose|k: int| 0 <= k < rest.len() && rest[k] == s[i];
                if eval(f, s.last()) {
                    assert(m[k] == s[i]);
                } else {
                    assert(m[k] == s[i]);
                }
            } else {
                assert(eval(f, s.last()));
                assert(m[m.len() - 1] == s[i]);
            }
        }
    }
}

/// One more element extends the match list by it exactly when it matches.
pub proof fn lemma_matched_of_step(s: Seq<TaskV>, f: FilterV, i: int)
    requires
        0 <= i < s.len(),
    ensures
        matched_of(s.take(i + 1), f) == if eval(f, s[i]) {
            matched_of(s.take(i), f).push(s[i])
        } else {
            matched_of(s.take(i), f)
        },
{
    assert(s.take(i + 1).drop_last() =~= s.take(i));
    assert(s.take(i + 1).last() == s[i]);
}

/// Pushing onto a list keeps every element it already held.
proof fn lemma_push_keeps_contains_task(s: Seq<TaskV>, x: TaskV, v: TaskV)
    requires
        s.contains(v),
    ensures
        s.push(x).contains(v),
{
    let k = choose|k: int| 0 <= k < s.len() && s[k] == v;
    assert(s.push(x)[k] == v);
}

impl TaskData {
    /// Does some task carry this UUID?
    #[verifier::loop_isolation(false)]
    pub fn has_uuid(&self, u: u128) -> (r: bool)
        ensures
            r == contains_uuid(self@, u),
    {
        let mut i: usize = 0;
        while i < self.tasks.len()
            invariant
                i <= self.tasks.len(),
                forall|j: int| 0 <= j < i ==> (#[trigger] self@[j]).uuid != u,
            decreases self.tasks.len() - i,
        {
            if self.tasks[i].get_uuid() == u {
                proof {
                    assert(self@[i as int].uuid == u);
                }
                return true;
            }
            i = i + 1;
        }
        false
    }

    /// The tasks matching a filter, in order.
    #[verifier::loop_isolation(false)]
    pub fn filter(&self, f: &Filter) -> (r: TaskData)
        requires
            self.wf(),
        ensures
            r.wf(),
            r@ == matched_of(self@, f@),
    {
        let ghost v0 = self@;
        let ghost fv = f@;
        let mut out: Vec<Task> = Vec::new();
        let mut i: usize = 0;
        while i < self.tasks.len()
            invariant
                i <= self.tasks.len(),
                Seq::new(out@.len(), |k: int| out@[k]@) =~= matched_of(v0.take(i as int), fv),
                forall|k: int|
                    0 <= k < out@.len() ==> exists|j: int|
                        0 <= j < i && (#[trigger] out@[k])@ == v0[j],
            decreases self.tasks.len() - i,
        {
            let ghost outv0 = Seq::new(out@.len(), |k: int| out@[k]@);
            proof {
                lemma_matched_of_step(v0, fv, i as int);
            }
            if f.validate_task(&self.tasks[i]) {
                let t = self.tasks[i].clone();
                out.push(t);
                proof {
                    assert(Seq::new(out@.len(), |k: int| out@[k]@) =~= outv0.push(v0[i as int]));
                }
            }
            i = i + 1;
        }
        let r = TaskData { tasks: out };
        proof {
            assert(v0.take(v0.len() as int) =~= v0);
            assert(r@ =~= matched_of(v0, fv));
            lemma_matched_of_unique(v0, fv);
        }
        r
    }

    /// A filtered result expanded with its dependency closure: the matching
    /// tasks, plus every task of the set that a matching task depends on.
    /// Fails exactly when a matching task references a UUID that the set
    /// does not hold.
    #[verifier::loop_isolation(false)]
    pub fn select_with_dependencies(&self, f: &Filter) -> (r: Result<TaskData, ResolutionError>)
        requires
            self.wf(),
        ensures
            match r {
                Ok(out) => out.wf() && !missing_dep(self@, f@) && closure_membership(
                    self@,
                    f@,
                    out@,
                ),
                Err(e) => missing_dep(self@, f@) && match e {
                    ResolutionError::UnknownUuid(u) => dep_of_matched(self@, f@, u)
                        && !contains_uuid(self@, u),
                    ResolutionError::UnknownId(_) => false,
                },
            },
    {
        let ghost v0 = self@;
        let ghost fv = f@;
        proof {
            lemma_matched_of_props(v0, fv);
        }
        let mut out = self.filter(f);
        let ghost m0 = out@;
        // Gather every dependency reference of the matched tasks.
        let mut deps: Vec<u128> = Vec::new();
        let mut i: usize = 0;
        while i < out.tasks.len()
            invariant
                i <= out.tasks.len(),
                out@ == m0,
                out.wf(),
                out.tasks@.len() == m0.len(),
                forall|k: int| 0 <= k < deps@.len() ==> dep_of_matched(v0, fv, #[trigger] deps@[k]),
                forall|a: int, b: int|
                    0 <= a < i && 0 <= b < m0[a].sub.len() ==> deps@.contains(
                        #[trigger] m0[a].sub[b],
                    ),
            decreases out.tasks.len() - i,
        {
            let subs = out.tasks[i].get_extra_uuid();
            let mut j: usize = 0;
            while j < subs.len()
                invariant
                    0 <= i < out.tasks.len(),
                    j <= subs.len(),
                    out@ == m0,
                    out.tasks@.len() == m0.len(),
                    subs@ == m0[i as int].sub,
                    forall|k: int|
                        0 <= k < deps@.len() ==> dep_of_matched(v0, fv, #[trigger] deps@[k]),
                    forall|a: int, b: int|
                        0 <= a < i && 0 <= b < m0[a].sub.len() ==> deps@.contains(
                            #[trigger] m0[a].sub[b],
                        ),
                    forall|b: int| 0 <= b < j ==> deps@.contains(#[trigger] m0[i as int].sub[b]),
                decreases subs.len() - j,
            {
                let d = subs[j];
                let ghost deps0 = deps@;
                deps.push(d);
                proof {
                    assert(deps@ =~= deps0.push(d));
                    assert(deps@[deps0.len() as int] == d);
                    assert forall|k: int|
                        0 <= k < deps@.len() implies dep_of_matched(
                        v0,
                        fv,
                        #[trigger] deps@[k],
                    ) by {
                        if k < deps0.len() {
                        } else {
                            assert(deps@[k] == m0[i as int].sub[j as int]);
                            assert(m0.contains(m0[i as int]));
                            assert(eval(fv, m0[i as int]) && v0.contains(m0[i as int]));
                            let w = choose|w: int| 0 <= w < v0.len() && v0[w] == m0[i as int];
                            assert(v0[w].sub[j as int] == deps@[k]);
                        }
                    }
                    assert(forall|v: u128| deps0.contains(v) ==> deps@.contains(v)) by {
                        assert forall|v: u128| deps0.contains(v) implies deps@.contains(v) by {
                            let k = choose|k: int| 0 <= k < deps0.len() && deps0[k] == v;
                            assert(deps@[k] == v);
                        }
                    }
                }
                j = j + 1;
            }
            i = i + 1;
        }
        // Pull in every referenced task; an unresolved reference is a
        // consistency error.
        let mut di: usize = 0;
        while di < deps.len()
            invariant
                di <= deps.len(),
                out.wf(),
                forall|k: int| 0 <= k < deps@.len() ==> dep_of_matched(v0, fv, #[trigger] deps@[k]),
                forall|a: int, b: int|
                    0 <= a < m0.len() && 0 <= b < m0[a].sub.len() ==> deps@.contains(
                        #[trigger] m0[a].sub[b],
                    ),
                forall|t: TaskV| m0.contains(t) ==> out@.contains(t),
                forall|t: TaskV|
                    #[trigger] out@.contains(t) ==> (v0.contains(t) && (eval(fv, t)
                        || dep_of_matched(v0, fv, t.uuid))),
                forall|k: int| 0 <= k < di ==> contains_uuid(out@, #[trigger] deps@[k]),
            decreases deps.len() - di,
        {
            let d = deps[di];
            if !out.has_uuid(d) {
                match self.get_owned(d) {
                    Some(t) => {
                        let ghost outv0 = out@;
                        out.set_task(t);
                        proof {
                            assert(out@ =~= outv0.push(t@));
                            assert forall|tt: TaskV| outv0.contains(tt) implies out@.contains(
                                tt,
                            ) by {
                                lemma_push_keeps_contains_task(outv0, t@, tt);
                            }
                            assert(out@[outv0.len() as int] == t@);
                            assert(out@.contains(t@));
                            assert forall|tt: TaskV| #[trigger] out@.contains(tt) implies (
                            v0.contains(tt) && (eval(fv, tt) || dep_of_matched(
                                v0,
                                fv,
                                tt.uuid,
                            ))) by {
                                let k = choose|k: int| 0 <= k < out@.len() && out@[k] == tt;
                                if k < outv0.len() {
                                    assert(outv0.contains(tt)) by {
                                        assert(outv0[k] == tt);
                                    }
                                } else {
                                    assert(tt == t@);
                                }
                            }
                            assert forall|k: int|
                                0 <= k < di + 1 implies contains_uuid(
                                out@,
                                #[trigger] deps@[k],
                            ) by {
                                if k < di {
                                    let w = choose|w: int|
                                        0 <= w < outv0.len() && outv0[w].uuid == deps@[k];
                                    assert(out@[w].uuid == deps@[k]);
                                } else {
                                    assert(out@.contains(t@) && t@.uuid == d);
                                }
                            }
                        }
                    },
                    None => {
                        proof {
                            assert(dep_of_matched(v0, fv, d));
                            let (wi, wj) = choose|wi: int, wj: int|
                                #![trigger v0[wi].sub[wj]]
                                0 <= wi < v0.len() && eval(fv, v0[wi]) && 0 <= wj
                                    < v0[wi].sub.len() && v0[wi].sub[wj] == d;
                            assert(!contains_uuid(v0, v0[wi].sub[wj]));
                        }
                        return Err(ResolutionError::UnknownUuid(d));
                    },
                }
            } else {
                proof {
                    assert forall|k: int|
                        0 <= k < di + 1 implies contains_uuid(out@, #[trigger] deps@[k]) by {}
                }
            }
            di = di + 1;
        }
        proof {
            // Every dependency resolved, so nothing is missing, and the
            // membership of the result is exactly the closure.
            assert forall|t: TaskV| #[trigger] out@.contains(t) <==> (v0.contains(t) && (eval(
                fv,
                t,
            ) || dep_of_matched(v0, fv, t.uuid))) by {
                if v0.contains(t) && (eval(fv, t) || dep_of_matched(v0, fv, t.uuid)) {
                    if eval(fv, t) {
                        let k = choose|k: int| 0 <= k < v0.len() && v0[k] == t;
                        assert(m0.contains(v0[k]));
                        assert(out@.contains(t));
                    } else {
                        let (wi, wj) = choose|wi: int, wj: int|
                            #![trigger v0[wi].sub[wj]]
                            0 <= wi < v0.len() && eval(fv, v0[wi]) && 0 <= wj < v0[wi].sub.len()
                                && v0[wi].sub[wj] == t.uuid;
                        assert(m0.contains(v0[wi]));
                        let mk = choose|mk: int| 0 <= mk < m0.len() && m0[mk] == v0[wi];
                        assert(deps@.contains(m0[mk].sub[wj]));
                        let dk = choose|dk: int| 0 <= dk < deps@.len() && deps@[dk] == t.uuid;
                        assert(contains_uuid(out@, t.uuid));
                        let ok = choose|ok: int| 0 <= ok < out@.len() && out@[ok].uuid == t.uuid;
                        assert(out@.contains(out@[ok]));
                        assert(v0.contains(out@[ok]));
                        let sa = choose|sa: int| 0 <= sa < v0.len() && v0[sa] == out@[ok];
                        let sb = choose|sb: int| 0 <= sb < v0.len() && v0[sb] == t;
                        if sa != sb {
                            assert(v0[sa].uuid != v0[sb].uuid);
                            assert(false);
                        }
                        assert(out@[ok] == t);
                    }
                }
            }
            assert(!missing_dep(v0, fv)) by {
                if missing_dep(v0, fv) {
                    let (wi, wj) = choose|wi: int, wj: int|
                        #![trigger v0[wi].sub[wj]]
                        0 <= wi < v0.len() && eval(fv, v0[wi]) && 0 <= wj < v0[wi].sub.len()
                            && !contains_uuid(v0, v0[wi].sub[wj]);
                    assert(m0.contains(v0[wi]));
                    let mk = choose|mk: int| 0 <= mk < m0.len() && m0[mk] == v0[wi];
                    assert(deps@.contains(m0[mk].sub[wj]));
                    let dk = choose|dk: int|
                        0 <= dk < deps@.len() && deps@[dk] == v0[wi].sub[wj];
                    assert(contains_uuid(out@, deps@[dk]));
                    let ok = choose|ok: int|
                        0 <= ok < out@.len() && out@[ok].uuid == deps@[dk];
                    assert(out@.contains(out@[ok]));
                    assert(v0.contains(out@[ok]));
                    let sa = choose|sa: int| 0 <= sa < v0.len() && v0[sa] == out@[ok];
                    assert(contains_uuid(v0, v0[wi].sub[wj]));
                    assert(false);
                }
            }
        }
        Ok(out)
    }
}

/// Filtering a set with unique UUIDs gives a list with unique UUIDs.
proof fn lemma_matched_of_unique(s: Seq<TaskV>, f: FilterV)
    requires
        uuids_unique(s),
    ensures
        uuids_unique(matched_of(s, f)),
    decreases s.len(),
{
    if s.len() > 0 {
        let m = matched_of(s, f);
        let rest = matched_of(s.drop_last(), f);
        assert(uuids_unique(s.drop_last())) by {
            assert(forall|x: int, y: int|
                0 <= x < y < s.drop_last().len() ==> s[x].uuid != s[y].uuid);
        }
        lemma_matched_of_unique(s.drop_last(), f);
        lemma_matched_of_props(s.drop_last(), f);
        if eval(f, s.last()) {
            assert forall|a: int, b: int| 0 <= a < b < m.len() implies m[a].uuid != m[b].uuid by {
                if b < rest.len() {
                    assert(rest[a].uuid != rest[b].uuid);
                } else {
                    assert(m[b] == s.last());
                    assert(m[a] == rest[a]);
                    assert(s.drop_last().contains(rest[a]));
                    let k = choose|k: int|
                        0 <= k < s.drop_last().len() && s.drop_last()[k] == rest[a];
                    assert(s[k] == rest[a]);
                    assert(s[k].uuid != s[s.len() - 1].uuid);
                }
            }
        }
    }
}

/// Dependency closure: when a result set is the closure of a filtered
/// selection, a matching task and every task it depends on are both in it.
pub proof fn lemma_closure_keeps_dependencies(
    s: Seq<TaskV>,
    f: FilterV,
    out: Seq<TaskV>,
    a: TaskV,
    b: TaskV,
)
    requires
        closure_membership(s, f, out),
        s.contains(a),
        eval(f, a),
        s.contains(b),
        a.sub.contains(b.uuid),
    ensures
        out.contains(a),
        out.contains(b),
{
    assert(dep_of_matched(s, f, b.uuid)) by {
        let i = choose|i: int| 0 <= i < s.len() && s[i] == a;
        let j = choose|j: int| 0 <= j < a.sub.len() && a.sub[j] == b.uuid;
        assert(s[i].sub[j] == b.uuid);
    }
}

} // verus!
