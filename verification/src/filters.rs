//! The filter expression tree and its evaluation semantics.  A filter is a
//! boolean predicate over tasks; `eval` is the specification of what each
//! variant means, and `validate_task` is the executable evaluator proved
//! against it.

use vstd::prelude::*;

use crate::task::Task;
use crate::task::TaskStatus;
use crate::task::TaskV;
use crate::task::spec_has_tag;
use crate::textops::lower_of;
use crate::textops::spec_contains;
use crate::textops::str_contains;
use crate::textops::to_lowercase_str;

verus! {

/// The filter expression tree.  `And`, `Or` and `Xor` are n-ary, not binary:
/// a flat run of terms joined by one operator kind folds into a single node.
#[derive(Debug, PartialEq)]
pub enum Filter {
    Root { child: Option<Box<Filter>> },
    And { children: Vec<Filter> },
    Or { children: Vec<Filter> },
    Xor { children: Vec<Filter> },
    Status { status: TaskStatus },
    Text { value: String },
    Tag { tag_name: String, present: bool },
    TaskId { id: usize },
    Uuid { value: u128 },
}

/// The mathematical value of a filter tree.
#[verifier::ext_equal]
pub ghost enum FilterV {
    Root { child: Option<Box<FilterV>> },
    And { children: Seq<FilterV> },
    Or { children: Seq<FilterV> },
    Xor { children: Seq<FilterV> },
    Status { status: TaskStatus },
    Text { value: Seq<char> },
    Tag { tag_name: Seq<char>, present: bool },
    TaskId { id: usize },
    Uuid { value: u128 },
}

/// The value of one filter tree.
pub open spec fn fview(f: Filter) -> FilterV
    decreases f, 1int,
{
    match f {
        Filter::Root { child } => FilterV::Root {
            child: match child {
                Some(b) => Some(Box::new(fview(*b))),
                None => None,
            },
        },
        Filter::And { children } => FilterV::And { children: views_of(children@) },
        Filter::Or { children } => FilterV::Or { children: views_of(children@) },
        Filter::Xor { children } => FilterV::Xor { children: views_of(children@) },
        Filter::Status { status } => FilterV::Status { status },
        Filter::Text { value } => FilterV::Text { value: value@ },
        Filter::Tag { tag_name, present } => FilterV::Tag { tag_name: tag_name@, present },
        Filter::TaskId { id } => FilterV::TaskId { id },
        Filter::Uuid { value } => FilterV::Uuid { value },
    }
}

/// The values of a list of filters.  (The out-of-range branch of the closure
/// is never reached; it only keeps the recursion well-founded.)
pub open spec fn views_of(s: Seq<Filter>) -> Seq<FilterV>
    decreases s, 0int,
{
    Seq::new(
        s.len(),
        |i: int|
            if 0 <= i < s.len() {
                fview(s[i])
            } else {
                FilterV::Root { child: None }
            },
    )
}

impl View for Filter {
    type V = FilterV;

    open spec fn view(&self) -> FilterV {
        fview(*self)
    }
}

/// What it means for a task to match a filter.
///
/// - an empty `And` matches every task (identity element), an empty `Or`
///   matches none;
/// - `Xor` is generalized parity: it matches when an odd number of children
///   match;
/// - `Text` is a case-insensitive substring test on the description;
/// - `TaskId` compares the ephemeral id, so it can never match a task whose
///   id is absent (every non-pending task).
pub open spec fn eval(f: FilterV, t: TaskV) -> bool
    decreases f, 0int,
{
    match f {
        FilterV::Root { child } => match child {
            Some(b) => eval(*b, t),
            None => true,
        },
        FilterV::And { children } => count_true(children, t, children.len() as int)
            == children.len(),
        FilterV::Or { children } => count_true(children, t, children.len() as int) > 0,
        FilterV::Xor { children } => count_true(children, t, children.len() as int) % 2 == 1,
        FilterV::Status { status } => t.status == status,
        FilterV::Text { value } => spec_contains(lower_of(t.description), lower_of(value)),
        FilterV::Tag { tag_name, present } => spec_has_tag(t, tag_name) == present,
        FilterV::TaskId { id } => t.id == Some(id),
        FilterV::Uuid { value } => t.uuid == value,
    }
}

/// How many of the first `n` children match the task (zero when `n` lies
/// outside the child list).
pub open spec fn count_true(children: Seq<FilterV>, t: TaskV, n: int) -> int
    decreases children, n,
{
    if n <= 0 || children.len() < n {
        0
    } else {
        count_true(children, t, n - 1) + if eval(children[n - 1], t) {
            1int
        } else {
            0int
        }
    }
}

/// `count_true` counts: it is bounded by the range it looks at, a full count
/// means every child in range matches, and a positive count means some child
/// in range matches.
pub proof fn lemma_count_true_characterization(children: Seq<FilterV>, t: TaskV, n: int)
    requires
        0 <= n <= children.len(),
    ensures
        0 <= count_true(children, t, n) <= n,
        (count_true(children, t, n) == n) == (forall|i: int|
            0 <= i < n ==> eval(#[trigger] children[i], t)),
        (count_true(children, t, n) > 0) == (exists|i: int|
            0 <= i < n && eval(#[trigger] children[i], t)),
    decreases n,
{
    if n > 0 {
        lemma_count_true_characterization(children, t, n - 1);
        if !eval(children[n - 1], t) {
            if count_true(children, t, n) > 0 {
                assert(exists|i: int| 0 <= i < n - 1 && eval(#[trigger] children[i], t));
            }
            if count_true(children, t, n) == n {
                assert(false);
            }
        }
    }
}

/// Counting over a longer prefix never loses matches: the count is monotone
/// and grows by at most the number of new positions.
pub proof fn lemma_count_true_mono(children: Seq<FilterV>, t: TaskV, n: int, m: int)
    requires
        0 <= n <= m <= children.len(),
    ensures
        count_true(children, t, n) <= count_true(children, t, m),
        count_true(children, t, m) <= count_true(children, t, n) + (m - n),
    decreases m,
{
    if m > n {
        lemma_count_true_mono(children, t, n, m - 1);
    }
}

/// An `And` node matches exactly when every child matches.
pub proof fn lemma_eval_and(children: Seq<FilterV>, t: TaskV)
    ensures
        eval(FilterV::And { children }, t) == (forall|i: int|
            0 <= i < children.len() ==> eval(#[trigger] children[i], t)),
{
    lemma_count_true_characterization(children, t, children.len() as int);
}

/// An `Or` node matches exactly when at least one child matches.
pub proof fn lemma_eval_or(children: Seq<FilterV>, t: TaskV)
    ensures
        eval(FilterV::Or { children }, t) == (exists|i: int|
            0 <= i < children.len() && eval(#[trigger] children[i], t)),
{
    lemma_count_true_characterization(children, t, children.len() as int);
}

/// A filter that matches every task.
pub fn new_empty() -> (r: Filter)
    ensures
        r@ == (FilterV::Root { child: None }),
{
    Filter::Root { child: None }
}

impl Filter {
    /// Decides whether the task matches, exactly as `eval` states.
    /// Evaluation is total: it cannot fail on any task.
    #[verifier::loop_isolation(false)]
    pub fn validate_task(&self, task: &Task) -> (r: bool)
        ensures
            r == eval(self@, task@),
        decreases self,
    {
        match self {
            Filter::Root { child } => match child {
                Some(b) => b.validate_task(task),
                None => true,
            },
            Filter::And { children } => {
                let ghost cs = views_of(children@);
                let mut i: usize = 0;
                while i < children.len()
                    invariant
                        i <= children.len(),
                        count_true(cs, task@, i as int) == i,
                    decreases children.len() - i,
                {
                    proof {
                        assert(decreases_to!(*children => children[i as int]));
                        assert(cs[i as int] == children@[i as int]@);
                    }
                    if !children[i].validate_task(task) {
                        proof {
                            assert(count_true(cs, task@, i + 1) == i);
                            lemma_count_true_mono(cs, task@, i + 1, cs.len() as int);
                        }
                        return false;
                    }
                    proof {
                        assert(count_true(cs, task@, i + 1) == i + 1);
                    }
                    i = i + 1;
                }
                true
            },
            Filter::Or { children } => {
                let ghost cs = views_of(children@);
                let mut i: usize = 0;
                while i < children.len()
                    invariant
                        i <= children.len(),
                        count_true(cs, task@, i as int) == 0,
                    decreases children.len() - i,
                {
                    proof {
                        assert(decreases_to!(*children => children[i as int]));
                        assert(cs[i as int] == children@[i as int]@);
                    }
                    if children[i].validate_task(task) {
                        proof {
                            assert(count_true(cs, task@, i + 1) == 1);
                            lemma_count_true_mono(cs, task@, i + 1, cs.len() as int);
                        }
                        return true;
                    }
                    proof {
                        assert(count_true(cs, task@, i + 1) == 0);
                    }
                    i = i + 1;
                }
                false
            },
            Filter::Xor { children } => {
                let ghost cs = views_of(children@);
                let mut odd = false;
                let mut i: usize = 0;
                while i < children.len()
                    invariant
                        i <= children.len(),
                        odd == (count_true(cs, task@, i as int) % 2 == 1),
                    decreases children.len() - i,
                {
                    proof {
                        assert(decreases_to!(*children => children[i as int]));
                        assert(cs[i as int] == children@[i as int]@);
                        assert(count_true(cs, task@, i + 1) == count_true(cs, task@, i as int)
                            + if eval(cs[i as int], task@) {
                            1int
                        } else {
                            0int
                        });
                    }
                    if children[i].validate_task(task) {
                        odd = !odd;
                    }
                    i = i + 1;
                }
                odd
            },
            Filter::Status { status } => *status == task.status,
            Filter::Text { value } => {
                let dl = to_lowercase_str(task.description.as_str());
                let vl = to_lowercase_str(value.as_str());
                str_contains(dl.as_str(), vl.as_str())
            },
            Filter::Tag { tag_name, present } => task.has_tag(tag_name.as_str()) == *present,
            Filter::TaskId { id } => match task.get_id() {
                Some(x) => x == *id,
                None => false,
            },
            Filter::Uuid { value } => task.get_uuid() == *value,
        }
    }
}

/// Element-wise deep copy of a list of filters.
#[verifier::loop_isolation(false)]
fn clone_filter_vec(v: &Vec<Filter>) -> (r: Vec<Filter>)
    ensures
        r@.len() == v@.len(),
        forall|i: int| 0 <= i < v@.len() ==> (#[trigger] r@[i])@ == v@[i]@,
    decreases v,
{
    let mut r: Vec<Filter> = Vec::new();
    let mut i: usize = 0;
    while i < v.len()
        invariant
            i <= v.len(),
            r@.len() == i,
            forall|j: int| 0 <= j < i ==> (#[trigger] r@[j])@ == v@[j]@,
        decreases v.len() - i,
    {
        proof {
            assert(decreases_to!(*v => v[i as int]));
        }
        let c = v[i].clone();
        r.push(c);
        i = i + 1;
    }
    r
}

impl Clone for Filter {
    /// Cloning a filter gives a value-equal, independent deep copy: the
    /// clone's view is the very view of the original, so every evaluation
    /// of the clone agrees with the original.
    fn clone(&self) -> (r: Self)
        ensures
            r@ == self@,
        decreases self,
    {
        match self {
            Filter::Root { child } => {
                let r = Filter::Root {
                    child: match child {
                        Some(b) => Some(Box::new((**b).clone())),
                        None => None,
                    },
                };
                r
            },
            Filter::And { children } => {
                let c = clone_filter_vec(children);
                let r = Filter::And { children: c };
                proof {
                    assert(views_of(c@) =~= views_of(children@));
                }
                r
            },
            Filter::Or { children } => {
                let c = clone_filter_vec(children);
                let r = Filter::Or { children: c };
                proof {
                    assert(views_of(c@) =~= views_of(children@));
                }
                r
            },
            Filter::Xor { children } => {
                let c = clone_filter_vec(children);
                let r = Filter::Xor { children: c };
                proof {
                    assert(views_of(c@) =~= views_of(children@));
                }
                r
            },
            Filter::Status { status } => Filter::Status { status: *status },
            Filter::Text { value } => Filter::Text { value: value.clone() },
            Filter::Tag { tag_name, present } => Filter::Tag {
                tag_name: tag_name.clone(),
                present: *present,
            },
            Filter::TaskId { id } => Filter::TaskId { id: *id },
            Filter::Uuid { value } => Filter::Uuid { value: *value },
        }
    }
}

/// Two filters with the same value match exactly the same tasks; together
/// with `Filter::clone`'s contract this says that a deep copy evaluates to
/// the same boolean as the original on every task.
pub proof fn lemma_equal_filters_validate_alike(f1: FilterV, f2: FilterV, t: TaskV)
    requires
        f1 == f2,
    ensures
        eval(f1, t) == eval(f2, t),
{
}

/// The empty `And` matches every task; the empty `Or` matches none.
pub proof fn lemma_empty_and_or(t: TaskV)
    ensures
        eval(FilterV::And { children: Seq::empty() }, t),
        !eval(FilterV::Or { children: Seq::empty() }, t),
{
    let cs = Seq::<FilterV>::empty();
    assert(cs.len() == 0);
    assert(count_true(cs, t, 0) == 0);
}

/// Generalized parity: an `Xor` node matches exactly when an odd number of
/// its children match.
pub proof fn lemma_xor_parity(children: Seq<FilterV>, t: TaskV)
    ensures
        eval(FilterV::Xor { children }, t) == (count_true(children, t, children.len() as int) % 2
            == 1),
{
}

/// The text filter is case-insensitive: it cannot tell apart values, or
/// descriptions, that agree after lowercasing.
pub proof fn lemma_text_filter_case_insensitive(v1: Seq<char>, v2: Seq<char>, t1: TaskV, t2: TaskV)
    requires
        lower_of(v1) == lower_of(v2),
        lower_of(t1.description) == lower_of(t2.description),
    ensures
        eval(FilterV::Text { value: v1 }, t1) == eval(FilterV::Text { value: v2 }, t2),
{
}

/// A task-id filter can only match a task that carries an ephemeral id;
/// after a task transitions to completed or deleted its id is absent (see
/// `Task::done` and `Task::delete`), so no task-id filter matches it.
pub proof fn lemma_task_id_needs_id(id: usize, t: TaskV)
    requires
        t.id is None,
    ensures
        !eval(FilterV::TaskId { id }, t),
{
}

} // verus!
