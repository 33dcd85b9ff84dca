//! Whether there is anything to examine.

use vstd::prelude::*;
use vstd::string::*;
use crate::activity::{os_error, os_error_text};
use crate::local::batch::{no_batch, Batch, BatchModel};
use crate::local::liveness::{Handles, HandlesModel};

verus! {

/// Why nothing was examined.
#[derive(Debug)]
pub enum ExamineError {
    /// The tree store, and what it says.
    Tree(String),
    /// The folder could not be read.
    Io(i32),
    /// No listing has completed yet: part-way through one, an item not listed
    /// yet cannot be told from one that is gone.
    NoBase,
    /// The root was deleted, or no longer carries its root id: nothing is
    /// examined, so nothing is deleted in the cloud because it went.
    RootGone,
}

/// What is said of an error; of one the system reports, in its own words, only
/// what comes before them.
pub open spec fn said_of(e: ExamineError, text: Seq<char>) -> bool {
    match e {
        ExamineError::Tree(why) => text == why@,
        ExamineError::Io(_) => crate::text::begins(text, "the folder: "@),
        ExamineError::NoBase => text
            == "the folder has no completed listing yet, so there is no base to compare with"@,
        ExamineError::RootGone => text == "the OneDrive folder was moved or deleted"@,
    }
}

impl ExamineError {
    /// What is said of it.
    pub fn message(&self) -> (r: String)
        ensures
            said_of(*self, r@),
    {
        match self {
            ExamineError::Tree(why) => why.clone(),
            ExamineError::Io(errno) => {
                let mut out = "the folder: ".to_owned();
                out.append(os_error_text(&os_error(*errno)).as_str());
                assert(out@.subrange(0, "the folder: "@.len() as int) =~= "the folder: "@);
                out
            },
            ExamineError::NoBase => "the folder has no completed listing yet, so there is no base to compare with".to_owned(),
            ExamineError::RootGone => "the OneDrive folder was moved or deleted".to_owned(),
        }
    }
}

/// The folder's root directory, as it is now.
#[derive(Debug, Clone, Copy, PartialEq, Eq, Structural)]
pub struct Root {
    /// How many links it has; none once it is deleted.
    pub links: u64,
    /// It carries its root id.
    pub marked: bool,
}

/// What an examination begins with: the root's item, or why there is none.
pub open spec fn begun(
    root_id: Option<String>,
    has_link: bool,
    listing: bool,
    root: Result<Root, i32>,
) -> Result<String, ExamineError> {
    if root_id is None || !has_link || listing {
        Err(ExamineError::NoBase)
    } else {
        match root {
            Err(errno) => Err(ExamineError::Io(errno)),
            Ok(root) => if root.links == 0 || !root.marked {
                Err(ExamineError::RootGone)
            } else {
                Ok(root_id->0)
            },
        }
    }
}

/// Whether there is a base to compare with and a root to examine: a listing has
/// completed (a delta link is stored, and none is under way), and the root is
/// still this root.
pub fn begin(root_id: Option<String>, has_link: bool, listing: bool, root: Result<Root, i32>) -> (r: Result<
    String,
    ExamineError,
>)
    ensures
        r == begun(root_id, has_link, listing, root),
        match root_id {
            Some(id) if has_link && !listing => match root {
                Err(errno) => r == Err::<String, ExamineError>(ExamineError::Io(errno)),
                Ok(root) => if root.links == 0 || !root.marked {
                    r == Err::<String, ExamineError>(ExamineError::RootGone)
                } else {
                    r == Ok::<String, ExamineError>(id)
                },
            },
            _ => r == Err::<String, ExamineError>(ExamineError::NoBase),
        },
{
    let id = match root_id {
        Some(id) => id,
        None => return Err(ExamineError::NoBase),
    };
    if !has_link || listing {
        return Err(ExamineError::NoBase);
    }
    match root {
        Err(errno) => Err(ExamineError::Io(errno)),
        Ok(root) => if root.links == 0 || !root.marked {
            Err(ExamineError::RootGone)
        } else {
            Ok(id)
        },
    }
}

/// What is examined, where the handles stand so.
pub open spec fn batch_for(handles: HandlesModel, batch: BatchModel) -> (BatchModel, bool) {
    if handles is Changed {
        (BatchModel { full: true, ..no_batch() }, true)
    } else {
        (batch, false)
    }
}

/// What is examined, and whether the handles are taken again: where the folder's
/// filesystem has changed since its handles were recorded, everything is, before
/// anything is decided by them.
pub fn examined_batch(handles: &Handles, batch: Batch) -> (r: (Batch, bool))
    requires
        batch.wf(),
    ensures
        r.0.wf(),
        r.1 == (handles is Changed),
        r.0@ == if handles is Changed {
            BatchModel { full: true, ..no_batch() }
        } else {
            batch@
        },
        (r.0@, r.1) == batch_for(handles@, batch@),
{
    match handles {
        Handles::Changed(_) => (Batch::full(), true),
        _ => (batch, false),
    }
}

} // verus!
