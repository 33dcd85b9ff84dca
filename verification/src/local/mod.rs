//! Local changes, from the disk to the outbox: what a read-write folder holds
//! that the base does not.

pub mod batch;
pub mod batching;
pub mod begin;
pub mod changes;
pub mod content;
pub mod decisions;
pub mod entry;
pub mod examine;
pub mod facts;
pub mod finish;
pub mod ignore;
pub mod in_step;
pub mod laws;
pub mod liveness;
pub mod looking;
pub mod merging;
pub mod missing;
pub mod names;
pub mod order;
pub mod ordering;
pub mod reading;
pub mod removal;
pub mod resolve;
pub mod resolving;
pub mod run;
pub mod settling;
pub mod shape;
pub mod steps;
pub mod survey;
pub mod unnamed;
pub mod world;

use vstd::prelude::*;
use vstd::string::*;
use crate::path::{name_of, parent_of, same_bytes, RelPath};
use crate::text::{decimal, push_char, push_decimal, push_signed, signed_decimal};

verus! {

/// A batch is examined when no event came for this many milliseconds.
pub const QUIET: u64 = 2000;

/// ... and at the latest this many milliseconds after its first event, during
/// continuous activity.
pub const CEILING: u64 = 30000;

/// A file that is busy — open for writing, being filled or freed — is
/// examined again after this many seconds.
pub const RECHECK: i64 = 30;

/// The mass-delete guard: a batch that would remove more items than this from
/// OneDrive is held for confirmation...
pub const MASS_DELETE_ITEMS: u64 = 500;

/// ... or more than this share of the folder's items, in percent...
pub const MASS_DELETE_PERCENT: u64 = 20;

/// ... counted only from this many items up, so that removing one file of a
/// folder of four is not a mass delete.
pub const MASS_DELETE_FLOOR: u64 = 10;

/// A row's snapshot: the size, a space, and the time in nanoseconds.
pub open spec fn snapshot_text(size: u64, mtime_sec: i64, mtime_nsec: i64) -> Seq<char> {
    decimal(size as nat) + seq![' '] + signed_decimal(mtime_sec * 1_000_000_000 + mtime_nsec)
}

/// An outbox row's snapshot: `<size> <mtime_ns>` of the content being sent.
/// The worker writes it; the examination compares it to tell a file still
/// being uploaded from one changed again since.
pub fn snapshot(size: u64, mtime_sec: i64, mtime_nsec: i64) -> (r: String)
    ensures
        r@ == snapshot_text(size, mtime_sec, mtime_nsec),
{
    let mut s = String::new();
    push_decimal(&mut s, size as u128);
    push_char(&mut s, ' ');
    let ns: i128 = mtime_sec as i128 * 1_000_000_000 + mtime_nsec as i128;
    push_signed(&mut s, ns);
    assert(s@ =~= snapshot_text(size, mtime_sec, mtime_nsec));
    s
}

/// Where the object that stands at `rel`, carrying the id `there`, is recorded for
/// the item whose id is written `id`: its directory, and its name there.
pub open spec fn replaced_at(id: Seq<u8>, rel: Seq<Seq<u8>>, there: Option<Seq<u8>>) -> Option<
    (Seq<Seq<u8>>, Seq<u8>),
> {
    match (parent_of(rel), name_of(rel)) {
        (Some(dir), Some(name)) => if there == Some(id) {
            Some((dir, name))
        } else {
            None
        },
        _ => None,
    }
}

/// Where the object a replacement swapped in for item `id` at `rel` is to be
/// recorded — its directory, and its name there — for a new version is a new
/// object, and the one on record would else be taken for deleted. Only if what
/// stands there now (`there`: the id it carries) is still the item.
pub fn record_replaced(id: &str, rel: &RelPath, there: &Option<Vec<u8>>) -> (r: Option<(RelPath, Vec<u8>)>)
    ensures
        match r {
            Some((dir, name)) => there is Some && there->0@ == id.spec_bytes() && Some(dir@)
                == parent_of(rel@) && Some(name@) == name_of(rel@),
            None => there is None || there->0@ != id.spec_bytes() || rel@.len() == 0,
        },
        (match r {
            Some((dir, name)) => Some((dir@, name@)),
            None => None,
        }) == replaced_at(
            id.spec_bytes(),
            rel@,
            match there {
                Some(there) => Some(there@),
                None => None,
            },
        ),
{
    let there = match there {
        Some(there) => there,
        None => return None,
    };
    if !same_bytes(there.as_slice(), id.as_bytes()) {
        return None;
    }
    match (rel.parent(), rel.file_name()) {
        (Some(dir), Some(name)) => Some((dir, name.clone())),
        _ => None,
    }
}

} // verus!
