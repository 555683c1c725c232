//! The storage boundary: the trait the on-disk store implements, the undo
//! records it keeps, the rules that pick the data file's path, and the undo
//! log's windowing and splicing rules.  Reading and writing the files is
//! the store implementation's business, outside this crate's core.

use vstd::prelude::*;

use crate::filters::Filter;
use crate::manager::ResolutionError;
use crate::manager::TaskData;
use crate::task::Task;
use crate::task::TaskProperties;

verus! {

/// One undone action: the tasks it affected, as they stood before it.
#[derive(Debug)]
pub struct ActionUndo {
    pub action_type: String,
    pub tasks: Vec<Task>,
}

/// What a task store offers: loading the task set narrowed by a filter,
/// writing it back, and reading and appending the undo log.
pub trait Store {
    fn load_tasks(filter: Option<&Filter>, props: Option<TaskProperties>) -> Result<
        TaskData,
        ResolutionError,
    >;

    fn write_tasks(data: &TaskData) -> TaskData;

    fn load_undos(last_count: usize) -> Vec<ActionUndo>;

    fn log_undo(count: usize, updated_undos: Vec<ActionUndo>);
}

/// The last `last_count` undo records, or all of them when fewer are there.
pub fn take_last_undos(undos: Vec<ActionUndo>, last_count: usize) -> (r: Vec<ActionUndo>)
    ensures
        r@ == if last_count >= undos@.len() {
            undos@
        } else {
            undos@.skip(undos@.len() - last_count)
        },
{
    let ghost v0 = undos@;
    if last_count >= undos.len() {
        return undos;
    }
    let mut v = undos;
    while v.len() > last_count
        invariant
            last_count <= v@.len() <= v0.len(),
            v@ == v0.skip(v0.len() - v@.len()),
        decreases v@.len(),
    {
        let ghost before = v@;
        v.remove(0);
        proof {
            assert(v@ =~= before.skip(1));
            assert(v@ =~= v0.skip(v0.len() - v@.len()));
        }
    }
    v
}

/// Replaces the last `count` undo records with the updated ones; when the
/// log holds no more than `count` records, the updated ones replace it
/// whole.
pub fn splice_undos(existing: Vec<ActionUndo>, count: usize, updated: Vec<ActionUndo>) -> (r: Vec<
    ActionUndo,
>)
    ensures
        r@ == if existing@.len() <= count {
            updated@
        } else {
            existing@.take(existing@.len() - count) + updated@
        },
{
    if existing.len() <= count {
        return updated;
    }
    let mut e = existing;
    let keep: usize = e.len() - count;
    e.truncate(keep);
    let mut u = updated;
    e.append(&mut u);
    e
}

/// Where the data file lives, from the environment values and existence
/// checks the caller supplies: a path under the data home when that is set,
/// else one under the home directory's local share, else the bare file name
/// in the working directory.  When only an existing file will do
/// (`find_file_only`), each candidate is skipped unless it exists, and
/// `None` means no file was found.
pub open spec fn spec_data_file(
    xdg_data_home: Option<Seq<char>>,
    home: Option<Seq<char>>,
    filename: Seq<char>,
    find_file_only: bool,
    xdg_exists: bool,
    home_exists: bool,
    local_exists: bool,
) -> Option<Seq<char>> {
    if xdg_data_home is Some && (!find_file_only || xdg_exists) {
        Some(xdg_data_home.unwrap() + "/rusk/"@ + filename)
    } else if home is Some && (!find_file_only || home_exists) {
        Some(home.unwrap() + "/.local/share/rusk/"@ + filename)
    } else if local_exists {
        Some(filename)
    } else if !find_file_only {
        Some(filename)
    } else {
        None
    }
}

/// Decides the data file's path, exactly as `spec_data_file` states.  The
/// caller reads the environment and checks which candidates exist; this
/// function only decides.
pub fn data_file_decision(
    xdg_data_home: Option<String>,
    home: Option<String>,
    filename: &str,
    find_file_only: bool,
    xdg_exists: bool,
    home_exists: bool,
    local_exists: bool,
) -> (r: Option<String>)
    requires
        filename@ == "rusk-data.json"@ || filename@ == "rusk-logged-tasks.json"@,
    ensures
        match r {
            Some(p) => spec_data_file(
                match xdg_data_home {
                    Some(x) => Some(x@),
                    None => None,
                },
                match home {
                    Some(h) => Some(h@),
                    None => None,
                },
                filename@,
                find_file_only,
                xdg_exists,
                home_exists,
                local_exists,
            ) == Some(p@),
            None => spec_data_file(
                match xdg_data_home {
                    Some(x) => Some(x@),
                    None => None,
                },
                match home {
                    Some(h) => Some(h@),
                    None => None,
                },
                filename@,
                find_file_only,
                xdg_exists,
                home_exists,
                local_exists,
            ) is None,
        },
{
    match xdg_data_home {
        Some(x) => {
            if !find_file_only || xdg_exists {
                let mut p = x;
                p.append("/rusk/");
                p.append(filename);
                return Some(p);
            }
        },
        None => {},
    }
    match home {
        Some(h) => {
            if !find_file_only || home_exists {
                let mut p = h;
                p.append("/.local/share/rusk/");
                p.append(filename);
                return Some(p);
            }
        },
        None => {},
    }
    if local_exists || !find_file_only {
        return Some(filename.to_owned());
    }
    None
}

} // verus!
