//! The task data model consumed by the filter evaluator: a task has a
//! permanent UUID (held as its 128-bit value), an ephemeral numeric id that
//! exists only while the task is pending, a lifecycle status, a free-text
//! description, tags, a creation timestamp, and references to sub-tasks by
//! UUID.

use vstd::prelude::*;

use crate::textops::str_eq;

verus! {

#[derive(Debug, Clone, Copy, PartialEq, Eq, Structural)]
pub enum TaskStatus {
    Pending,
    Completed,
    Deleted,
}

impl Default for TaskStatus {
    fn default() -> (r: Self)
        ensures
            r == TaskStatus::Pending,
    {
        TaskStatus::Pending
    }
}

/// The mathematical value of a task: every observation the library makes of
/// a task goes through this view.
#[verifier::ext_equal]
pub ghost struct TaskV {
    pub uuid: u128,
    pub id: Option<usize>,
    pub status: TaskStatus,
    pub description: Seq<char>,
    pub tags: Seq<Seq<char>>,
    pub date_created: Seq<char>,
    pub sub: Seq<u128>,
}

#[derive(Debug, PartialEq)]
pub struct Task {
    pub uuid: u128,
    pub id: Option<usize>,
    pub status: TaskStatus,
    pub description: String,
    pub tags: Vec<String>,
    pub date_created: String,
    pub sub: Vec<u128>,
}

impl View for Task {
    type V = TaskV;

    open spec fn view(&self) -> TaskV {
        TaskV {
            uuid: self.uuid,
            id: self.id,
            status: self.status,
            description: self.description@,
            tags: Seq::new(self.tags@.len(), |i: int| self.tags@[i]@),
            date_created: self.date_created@,
            sub: self.sub@,
        }
    }
}

/// The task carries the tag `name`.
pub open spec fn spec_has_tag(t: TaskV, name: Seq<char>) -> bool {
    exists|i: int| 0 <= i < t.tags.len() && t.tags[i] == name
}

impl Default for Task {
    fn default() -> (r: Self)
        ensures
            r@.uuid == 0,
            r@.id is None,
            r@.status == TaskStatus::Pending,
            r@.description == Seq::<char>::empty(),
            r@.tags == Seq::<Seq<char>>::empty(),
            r@.date_created == Seq::<char>::empty(),
            r@.sub == Seq::<u128>::empty(),
    {
        let r = Task {
            uuid: 0,
            id: None,
            status: TaskStatus::Pending,
            description: String::new(),
            tags: Vec::new(),
            date_created: String::new(),
            sub: Vec::new(),
        };
        proof {
            assert(r@.tags =~= Seq::<Seq<char>>::empty());
        }
        r
    }
}

impl Clone for Task {
    fn clone(&self) -> (r: Self)
        ensures
            r@ == self@,
    {
        let r = Task {
            uuid: self.uuid,
            id: self.id,
            status: self.status,
            description: self.description.clone(),
            tags: clone_string_vec(&self.tags),
            date_created: self.date_created.clone(),
            sub: clone_u128_vec(&self.sub),
        };
        proof {
            assert(r@.tags =~= self@.tags);
            assert(r@ =~= self@);
        }
        r
    }
}

impl Task {
    pub fn get_uuid(&self) -> (r: u128)
        ensures
            r == self@.uuid,
    {
        self.uuid
    }

    pub fn get_id(&self) -> (r: Option<usize>)
        ensures
            r == self@.id,
    {
        self.id
    }

    /// The dependency references the task carries, by UUID.
    pub fn get_extra_uuid(&self) -> (r: &Vec<u128>)
        ensures
            r@ == self@.sub,
    {
        &self.sub
    }

    /// Completing a task clears its ephemeral id: only pending tasks carry
    /// one.
    pub fn done(&mut self)
        ensures
            final(self)@ == (TaskV {
                status: TaskStatus::Completed,
                id: None,
                ..old(self)@
            }),
    {
        self.status = TaskStatus::Completed;
        self.id = None;
        proof {
            assert(final(self)@ =~= (TaskV {
                status: TaskStatus::Completed,
                id: None,
                ..old(self)@
            }));
        }
    }

    /// Deleting a task clears its ephemeral id, like completing it.
    pub fn delete(&mut self)
        ensures
            final(self)@ == (TaskV { status: TaskStatus::Deleted, id: None, ..old(self)@ }),
    {
        self.status = TaskStatus::Deleted;
        self.id = None;
        proof {
            assert(final(self)@ =~= (TaskV {
                status: TaskStatus::Deleted,
                id: None,
                ..old(self)@
            }));
        }
    }

    pub fn has_tag(&self, name: &str) -> (r: bool)
        ensures
            r == spec_has_tag(self@, name@),
    {
        let mut i: usize = 0;
        while i < self.tags.len()
            invariant
                i <= self.tags.len(),
                forall|j: int| 0 <= j < i ==> self@.tags[j] != name@,
            decreases self.tags.len() - i,
        {
            if str_eq(self.tags[i].as_str(), name) {
                proof {
                    assert(self@.tags[i as int] == name@);
                }
                return true;
            }
            i = i + 1;
        }
        false
    }
}

/// Element-wise copy of a string list; string clones preserve the value.
pub fn clone_string_vec(v: &Vec<String>) -> (r: Vec<String>)
    ensures
        r@ == v@,
{
    let mut r: Vec<String> = Vec::new();
    let mut i: usize = 0;
    while i < v.len()
        invariant
            i <= v.len(),
            r@ =~= v@.take(i as int),
        decreases v.len() - i,
    {
        r.push(v[i].clone());
        proof {
            assert(r@ =~= v@.take(i as int + 1));
        }
        i = i + 1;
    }
    proof {
        assert(v@.take(v@.len() as int) =~= v@);
    }
    r
}

pub fn clone_u128_vec(v: &Vec<u128>) -> (r: Vec<u128>)
    ensures
        r@ == v@,
{
    let mut r: Vec<u128> = Vec::new();
    let mut i: usize = 0;
    while i < v.len()
        invariant
            i <= v.len(),
            r@ =~= v@.take(i as int),
        decreases v.len() - i,
    {
        r.push(v[i]);
        proof {
            assert(r@ =~= v@.take(i as int + 1));
        }
        i = i + 1;
    }
    proof {
        assert(v@.take(v@.len() as int) =~= v@);
    }
    r
}

/// A dotted hierarchical project name, kept as an opaque string.
#[derive(Debug, PartialEq, Clone)]
pub struct Project {
    pub name: String,
}

/// The mathematical value of a set of parsed task properties.
#[verifier::ext_equal]
pub ghost struct TaskPropsV {
    pub summary: Option<Seq<char>>,
    pub tags_remove: Option<Seq<Seq<char>>>,
    pub tags_add: Option<Seq<Seq<char>>>,
    pub status: Option<TaskStatus>,
    pub annotation: Option<Seq<char>>,
    pub project: Option<Seq<char>>,
}

/// The result of the property grammar: task-creation or edit directives
/// read from free text.  Every field defaults to absent; absent means "no
/// change" when applied to an existing task and "use default" when
/// creating one.
#[derive(Debug, PartialEq)]
pub struct TaskProperties {
    pub summary: Option<String>,
    pub tags_remove: Option<Vec<String>>,
    pub tags_add: Option<Vec<String>>,
    pub status: Option<TaskStatus>,
    pub annotation: Option<String>,
    pub project: Option<Project>,
}

/// The values of an optional tag list.
pub open spec fn opt_tags_view(v: Option<Vec<String>>) -> Option<Seq<Seq<char>>> {
    match v {
        Some(l) => Some(Seq::new(l@.len(), |i: int| l@[i]@)),
        None => None,
    }
}

/// The characters of an optional string.
pub open spec fn opt_string_view(v: Option<String>) -> Option<Seq<char>> {
    match v {
        Some(s) => Some(s@),
        None => None,
    }
}

impl View for TaskProperties {
    type V = TaskPropsV;

    open spec fn view(&self) -> TaskPropsV {
        TaskPropsV {
            summary: opt_string_view(self.summary),
            tags_remove: opt_tags_view(self.tags_remove),
            tags_add: opt_tags_view(self.tags_add),
            status: self.status,
            annotation: opt_string_view(self.annotation),
            project: match self.project {
                Some(p) => Some(p.name@),
                None => None,
            },
        }
    }
}

/// The all-absent property set.
pub open spec fn empty_props() -> TaskPropsV {
    TaskPropsV {
        summary: None,
        tags_remove: None,
        tags_add: None,
        status: None,
        annotation: None,
        project: None,
    }
}

impl Default for TaskProperties {
    fn default() -> (r: Self)
        ensures
            r@ == empty_props(),
    {
        let r = TaskProperties {
            summary: None,
            tags_remove: None,
            tags_add: None,
            status: None,
            annotation: None,
            project: None,
        };
        proof {
            assert(r@ =~= empty_props());
        }
        r
    }
}

impl TaskProperties {
    /// Sets the annotation; the grammar never produces one, it is only set
    /// through this direct mutation.
    pub fn set_annotation(&mut self, text: String)
        ensures
            final(self)@ == (TaskPropsV { annotation: Some(text@), ..old(self)@ }),
    {
        self.annotation = Some(text);
        proof {
            assert(final(self)@ =~= (TaskPropsV { annotation: Some(text@), ..old(self)@ }));
        }
    }
}

} // verus!
