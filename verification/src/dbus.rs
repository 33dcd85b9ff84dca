//! What is published of a folder's sync, and how it refuses.

pub mod laws;

use vstd::prelude::*;
use vstd::string::*;
use crate::activity::transfers::{Transfer, TransferModel};
use crate::local::run::push_to;
use crate::text::same_text;

verus! {

/// The shortest time between two coalesced messages, in milliseconds: at most
/// four a second.
pub const COALESCE: u64 = 250;

/// What went wrong with a call.
#[derive(Debug, Clone, Copy, PartialEq, Eq, Structural)]
pub enum SyncErrorKind {
    Overlaps,
    NotEmpty,
    ForeignFolder,
    Unsupported,
    InUse,
    NoRoot,
    NoHelper,
    NotManaged,
    NotHydrated,
    ModifiedLocally,
    OutsideRoot,
    AlreadyRegistered,
    NotSignedIn,
    NoSource,
    NoConflict,
    NotAllowed,
    NotUploaded,
    PendingUploads,
    InvalidArgs,
    Io,
}

/// What went wrong with a call, and what it says.
#[derive(Debug)]
pub struct SyncError {
    pub kind: SyncErrorKind,
    pub text: String,
}

/// A refusal's name, for a client to tell them apart by.
#[derive(Debug, Clone, Copy, PartialEq, Eq, Structural)]
pub enum Fault {
    NotEmpty,
    Unsupported,
    InUse,
    NoRoot,
    NoHelper,
    NotManaged,
    NotHydrated,
    ModifiedLocally,
    OutsideRoot,
    AlreadyRegistered,
    NotSignedIn,
    NoSource,
    NoConflict,
    NotAllowed,
    Overlaps,
    NotUploaded,
    PendingUploads,
    InvalidArgs,
    Failed,
}

/// A refusal, as a client sees it.
#[derive(Debug)]
pub struct SyncFault {
    pub name: Fault,
    pub message: String,
}

/// The name each error is refused by; only those with nothing a caller could
/// act on differently have none of their own.
pub open spec fn fault_of(kind: SyncErrorKind) -> Fault {
    match kind {
        SyncErrorKind::Overlaps => Fault::Overlaps,
        SyncErrorKind::NotEmpty => Fault::NotEmpty,
        SyncErrorKind::ForeignFolder => Fault::NotEmpty,
        SyncErrorKind::Unsupported => Fault::Unsupported,
        SyncErrorKind::InUse => Fault::InUse,
        SyncErrorKind::NoRoot => Fault::NoRoot,
        SyncErrorKind::NoHelper => Fault::NoHelper,
        SyncErrorKind::NotManaged => Fault::NotManaged,
        SyncErrorKind::NotHydrated => Fault::NotHydrated,
        SyncErrorKind::ModifiedLocally => Fault::ModifiedLocally,
        SyncErrorKind::OutsideRoot => Fault::OutsideRoot,
        SyncErrorKind::AlreadyRegistered => Fault::AlreadyRegistered,
        SyncErrorKind::NotSignedIn => Fault::NotSignedIn,
        SyncErrorKind::NoSource => Fault::NoSource,
        SyncErrorKind::NoConflict => Fault::NoConflict,
        SyncErrorKind::NotAllowed => Fault::NotAllowed,
        SyncErrorKind::NotUploaded => Fault::NotUploaded,
        SyncErrorKind::PendingUploads => Fault::PendingUploads,
        SyncErrorKind::InvalidArgs => Fault::InvalidArgs,
        SyncErrorKind::Io => Fault::Failed,
    }
}

/// A refusal's name on the bus.
pub open spec fn fault_name(f: Fault) -> Seq<char> {
    match f {
        Fault::NotEmpty => "org.konedrive.Error.NotEmpty"@,
        Fault::Unsupported => "org.konedrive.Error.Unsupported"@,
        Fault::InUse => "org.konedrive.Error.InUse"@,
        Fault::NoRoot => "org.konedrive.Error.NoRoot"@,
        Fault::NoHelper => "org.konedrive.Error.NoHelper"@,
        Fault::NotManaged => "org.konedrive.Error.NotManaged"@,
        Fault::NotHydrated => "org.konedrive.Error.NotHydrated"@,
        Fault::ModifiedLocally => "org.konedrive.Error.ModifiedLocally"@,
        Fault::OutsideRoot => "org.konedrive.Error.OutsideRoot"@,
        Fault::AlreadyRegistered => "org.konedrive.Error.AlreadyRegistered"@,
        Fault::NotSignedIn => "org.konedrive.Error.NotSignedIn"@,
        Fault::NoSource => "org.konedrive.Error.NoSource"@,
        Fault::NoConflict => "org.konedrive.Error.NoConflict"@,
        Fault::NotAllowed => "org.konedrive.Error.NotAllowed"@,
        Fault::Overlaps => "org.konedrive.Error.Overlaps"@,
        Fault::NotUploaded => "org.konedrive.Error.NotUploaded"@,
        Fault::PendingUploads => "org.konedrive.Error.PendingUploads"@,
        Fault::InvalidArgs => "org.freedesktop.DBus.Error.InvalidArgs"@,
        Fault::Failed => "org.konedrive.Error.Failed"@,
    }
}

impl Fault {
    /// Its name on the bus.
    pub fn as_str(self) -> (r: &'static str)
        ensures
            r@ == fault_name(self),
    {
        match self {
            Fault::NotEmpty => "org.konedrive.Error.NotEmpty",
            Fault::Unsupported => "org.konedrive.Error.Unsupported",
            Fault::InUse => "org.konedrive.Error.InUse",
            Fault::NoRoot => "org.konedrive.Error.NoRoot",
            Fault::NoHelper => "org.konedrive.Error.NoHelper",
            Fault::NotManaged => "org.konedrive.Error.NotManaged",
            Fault::NotHydrated => "org.konedrive.Error.NotHydrated",
            Fault::ModifiedLocally => "org.konedrive.Error.ModifiedLocally",
            Fault::OutsideRoot => "org.konedrive.Error.OutsideRoot",
            Fault::AlreadyRegistered => "org.konedrive.Error.AlreadyRegistered",
            Fault::NotSignedIn => "org.konedrive.Error.NotSignedIn",
            Fault::NoSource => "org.konedrive.Error.NoSource",
            Fault::NoConflict => "org.konedrive.Error.NoConflict",
            Fault::NotAllowed => "org.konedrive.Error.NotAllowed",
            Fault::Overlaps => "org.konedrive.Error.Overlaps",
            Fault::NotUploaded => "org.konedrive.Error.NotUploaded",
            Fault::PendingUploads => "org.konedrive.Error.PendingUploads",
            Fault::InvalidArgs => "org.freedesktop.DBus.Error.InvalidArgs",
            Fault::Failed => "org.konedrive.Error.Failed",
        }
    }
}

/// Every refusal keeps its own name, and says what the error says.
pub fn to_fault(error: SyncError) -> (r: SyncFault)
    ensures
        r.name == fault_of(error.kind),
        r.message@ == error.text@,
{
    let name = match error.kind {
        SyncErrorKind::Overlaps => Fault::Overlaps,
        SyncErrorKind::NotEmpty => Fault::NotEmpty,
        SyncErrorKind::ForeignFolder => Fault::NotEmpty,
        SyncErrorKind::Unsupported => Fault::Unsupported,
        SyncErrorKind::InUse => Fault::InUse,
        SyncErrorKind::NoRoot => Fault::NoRoot,
        SyncErrorKind::NoHelper => Fault::NoHelper,
        SyncErrorKind::NotManaged => Fault::NotManaged,
        SyncErrorKind::NotHydrated => Fault::NotHydrated,
        SyncErrorKind::ModifiedLocally => Fault::ModifiedLocally,
        SyncErrorKind::OutsideRoot => Fault::OutsideRoot,
        SyncErrorKind::AlreadyRegistered => Fault::AlreadyRegistered,
        SyncErrorKind::NotSignedIn => Fault::NotSignedIn,
        SyncErrorKind::NoSource => Fault::NoSource,
        SyncErrorKind::NoConflict => Fault::NoConflict,
        SyncErrorKind::NotAllowed => Fault::NotAllowed,
        SyncErrorKind::NotUploaded => Fault::NotUploaded,
        SyncErrorKind::PendingUploads => Fault::PendingUploads,
        SyncErrorKind::InvalidArgs => Fault::InvalidArgs,
        SyncErrorKind::Io => Fault::Failed,
    };
    SyncFault { name, message: error.text }
}

/// The counters and the status, as the folder's sync keeps them.
#[derive(Debug)]
pub struct Snapshot {
    pub items_listed: u64,
    pub items_placed: u64,
    pub skipped_count: u64,
    pub last_checked: i64,
    pub local_bytes: u64,
    pub conflict_count: u32,
    pub pinned_count: u32,
    pub pending_count: u32,
    pub pending_bytes: u64,
    pub blocked_count: u32,
    pub held_count: u32,
    pub uploads: Vec<Transfer>,
}

/// What travels in the coalesced message, as last sent.
#[derive(Debug)]
pub struct Coalesced {
    pub items_listed: u64,
    pub items_placed: u64,
    pub skipped_count: u64,
    pub last_checked: i64,
    pub local_bytes: u64,
    pub conflict_count: u32,
    pub pinned_count: u32,
    pub transfers: Vec<Transfer>,
    pub pending_count: u32,
    pub pending_bytes: u64,
    pub blocked_count: u32,
    pub held_count: u32,
    pub uploads: Vec<Transfer>,
}

#[verifier::ext_equal]
pub struct CoalescedModel {
    pub items_listed: u64,
    pub items_placed: u64,
    pub skipped_count: u64,
    pub last_checked: i64,
    pub local_bytes: u64,
    pub conflict_count: u32,
    pub pinned_count: u32,
    pub transfers: Seq<TransferModel>,
    pub pending_count: u32,
    pub pending_bytes: u64,
    pub blocked_count: u32,
    pub held_count: u32,
    pub uploads: Seq<TransferModel>,
}

impl View for Coalesced {
    type V = CoalescedModel;

    open spec fn view(&self) -> CoalescedModel {
        CoalescedModel {
            items_listed: self.items_listed,
            items_placed: self.items_placed,
            skipped_count: self.skipped_count,
            last_checked: self.last_checked,
            local_bytes: self.local_bytes,
            conflict_count: self.conflict_count,
            pinned_count: self.pinned_count,
            transfers: self.transfers.deep_view(),
            pending_count: self.pending_count,
            pending_bytes: self.pending_bytes,
            blocked_count: self.blocked_count,
            held_count: self.held_count,
            uploads: self.uploads.deep_view(),
        }
    }
}

/// A property that travels in the coalesced message.
#[derive(Debug, Clone, Copy, PartialEq, Eq, Structural)]
pub enum Property {
    ItemsListed,
    ItemsPlaced,
    SkippedCount,
    LastChecked,
    LocalBytes,
    ConflictCount,
    PinnedCount,
    Transfers,
    PendingCount,
    PendingBytes,
    BlockedCount,
    HeldCount,
    Uploads,
}

/// A property's name.
pub open spec fn property_name(p: Property) -> Seq<char> {
    match p {
        Property::ItemsListed => "ItemsListed"@,
        Property::ItemsPlaced => "ItemsPlaced"@,
        Property::SkippedCount => "SkippedCount"@,
        Property::LastChecked => "LastChecked"@,
        Property::LocalBytes => "LocalBytes"@,
        Property::ConflictCount => "ConflictCount"@,
        Property::PinnedCount => "PinnedCount"@,
        Property::Transfers => "Transfers"@,
        Property::PendingCount => "PendingCount"@,
        Property::PendingBytes => "PendingBytes"@,
        Property::BlockedCount => "BlockedCount"@,
        Property::HeldCount => "HeldCount"@,
        Property::Uploads => "Uploads"@,
    }
}

impl Property {
    /// Every property there is.
    pub fn all() -> (r: [Property; 13])
        ensures
            forall|p: Property| #[trigger] r@.contains(p),
            r@.no_duplicates(),
    {
        let all = [
            Property::ItemsListed,
            Property::ItemsPlaced,
            Property::SkippedCount,
            Property::LastChecked,
            Property::LocalBytes,
            Property::ConflictCount,
            Property::PinnedCount,
            Property::Transfers,
            Property::PendingCount,
            Property::PendingBytes,
            Property::BlockedCount,
            Property::HeldCount,
            Property::Uploads,
        ];
        assert forall|p: Property| #[trigger] all@.contains(p) by {
            let i: int = match p {
                Property::ItemsListed => 0,
                Property::ItemsPlaced => 1,
                Property::SkippedCount => 2,
                Property::LastChecked => 3,
                Property::LocalBytes => 4,
                Property::ConflictCount => 5,
                Property::PinnedCount => 6,
                Property::Transfers => 7,
                Property::PendingCount => 8,
                Property::PendingBytes => 9,
                Property::BlockedCount => 10,
                Property::HeldCount => 11,
                Property::Uploads => 12,
            };
            assert(all@[i] == p);
        }
        all
    }

    pub fn as_str(self) -> (r: &'static str)
        ensures
            r@ == property_name(self),
    {
        match self {
            Property::ItemsListed => "ItemsListed",
            Property::ItemsPlaced => "ItemsPlaced",
            Property::SkippedCount => "SkippedCount",
            Property::LastChecked => "LastChecked",
            Property::LocalBytes => "LocalBytes",
            Property::ConflictCount => "ConflictCount",
            Property::PinnedCount => "PinnedCount",
            Property::Transfers => "Transfers",
            Property::PendingCount => "PendingCount",
            Property::PendingBytes => "PendingBytes",
            Property::BlockedCount => "BlockedCount",
            Property::HeldCount => "HeldCount",
            Property::Uploads => "Uploads",
        }
    }
}

/// The property differs.
pub open spec fn differs(p: Property, old: CoalescedModel, new: CoalescedModel) -> bool {
    match p {
        Property::ItemsListed => old.items_listed != new.items_listed,
        Property::ItemsPlaced => old.items_placed != new.items_placed,
        Property::SkippedCount => old.skipped_count != new.skipped_count,
        Property::LastChecked => old.last_checked != new.last_checked,
        Property::LocalBytes => old.local_bytes != new.local_bytes,
        Property::ConflictCount => old.conflict_count != new.conflict_count,
        Property::PinnedCount => old.pinned_count != new.pinned_count,
        Property::Transfers => old.transfers != new.transfers,
        Property::PendingCount => old.pending_count != new.pending_count,
        Property::PendingBytes => old.pending_bytes != new.pending_bytes,
        Property::BlockedCount => old.blocked_count != new.blocked_count,
        Property::HeldCount => old.held_count != new.held_count,
        Property::Uploads => old.uploads != new.uploads,
    }
}

/// A property's value, as it goes out.
#[derive(Debug)]
pub enum PropertyValue {
    U64(u64),
    I64(i64),
    U32(u32),
    Transfers(Vec<Transfer>),
}

#[verifier::ext_equal]
pub enum PropertyValueModel {
    U64(u64),
    I64(i64),
    U32(u32),
    Transfers(Seq<TransferModel>),
}

impl View for PropertyValue {
    type V = PropertyValueModel;

    open spec fn view(&self) -> PropertyValueModel {
        match self {
            PropertyValue::U64(n) => PropertyValueModel::U64(*n),
            PropertyValue::I64(n) => PropertyValueModel::I64(*n),
            PropertyValue::U32(n) => PropertyValueModel::U32(*n),
            PropertyValue::Transfers(all) => PropertyValueModel::Transfers(all.deep_view()),
        }
    }
}

/// The value of a property.
pub open spec fn value_in(p: Property, m: CoalescedModel) -> PropertyValueModel {
    match p {
        Property::ItemsListed => PropertyValueModel::U64(m.items_listed),
        Property::ItemsPlaced => PropertyValueModel::U64(m.items_placed),
        Property::SkippedCount => PropertyValueModel::U64(m.skipped_count),
        Property::LastChecked => PropertyValueModel::I64(m.last_checked),
        Property::LocalBytes => PropertyValueModel::U64(m.local_bytes),
        Property::ConflictCount => PropertyValueModel::U32(m.conflict_count),
        Property::PinnedCount => PropertyValueModel::U32(m.pinned_count),
        Property::Transfers => PropertyValueModel::Transfers(m.transfers),
        Property::PendingCount => PropertyValueModel::U32(m.pending_count),
        Property::PendingBytes => PropertyValueModel::U64(m.pending_bytes),
        Property::BlockedCount => PropertyValueModel::U32(m.blocked_count),
        Property::HeldCount => PropertyValueModel::U32(m.held_count),
        Property::Uploads => PropertyValueModel::Transfers(m.uploads),
    }
}

/// What is sent, read.
pub open spec fn sent_of(sent: Seq<(Property, PropertyValue)>) -> Seq<(Property, PropertyValueModel)> {
    Seq::new(sent.len(), |k: int| (sent[k].0, sent[k].1@))
}

/// The property is among those sent.
pub open spec fn sends(sent: Seq<(Property, PropertyValueModel)>, p: Property) -> bool {
    exists|k: int| 0 <= k < sent.len() && (#[trigger] sent[k]).0 == p
}

/// `sent` is what changed from `old` to `new`: the properties that differ, each
/// once, with their values in `new`.
pub open spec fn tells(sent: Seq<(Property, PropertyValueModel)>, old: CoalescedModel, new: CoalescedModel) -> bool {
    &&& forall|p: Property| #[trigger] sends(sent, p) <==> differs(p, old, new)
    &&& forall|k: int|
        0 <= k < sent.len() ==> (#[trigger] sent[k]).1 == value_in(sent[k].0, new)
    &&& forall|i: int, j: int|
        0 <= i < j < sent.len() ==> (#[trigger] sent[i]).0 != (#[trigger] sent[j]).0
}

/// The downloads, as they are published.
fn copies(all: &Vec<Transfer>) -> (r: Vec<Transfer>)
    ensures
        r.deep_view() == all.deep_view(),
{
    let mut out: Vec<Transfer> = Vec::new();
    let mut i: usize = 0;
    let ghost want = all.deep_view();
    assert(out.deep_view() =~= want.subrange(0, 0));
    while i < all.len()
        invariant
            i <= all@.len(),
            want == all.deep_view(),
            out.deep_view() == want.subrange(0, i as int),
        decreases all@.len() - i,
    {
        assert(want[i as int] == all@[i as int]@);
        push_to(&mut out, all[i].clone());
        i += 1;
        assert(out.deep_view() =~= want.subrange(0, i as int));
    }
    assert(want.subrange(0, i as int) =~= want);
    out
}

/// Whether the two lists are the same.
fn same_all(a: &Vec<Transfer>, b: &Vec<Transfer>) -> (r: bool)
    ensures
        r == (a.deep_view() == b.deep_view()),
{
    if a.len() != b.len() {
        assert(a.deep_view().len() != b.deep_view().len());
        return false;
    }
    let mut i: usize = 0;
    while i < a.len()
        invariant
            a@.len() == b@.len(),
            i <= a@.len(),
            forall|k: int| 0 <= k < i ==> a.deep_view()[k] == b.deep_view()[k],
        decreases a@.len() - i,
    {
        assert(a.deep_view()[i as int] == a@[i as int]@);
        assert(b.deep_view()[i as int] == b@[i as int]@);
        if a[i].done != b[i].done || a[i].total != b[i].total || !same_text(
            a[i].path.as_str(),
            b[i].path.as_str(),
        ) {
            return false;
        }
        i += 1;
    }
    assert(a.deep_view() =~= b.deep_view());
    true
}

/// What is to be shown of a folder's sync and of the downloads under way.
pub open spec fn shown_of(s: Snapshot, transfers: Seq<TransferModel>) -> CoalescedModel {
    CoalescedModel {
        items_listed: s.items_listed,
        items_placed: s.items_placed,
        skipped_count: s.skipped_count,
        last_checked: s.last_checked,
        local_bytes: s.local_bytes,
        conflict_count: s.conflict_count,
        pinned_count: s.pinned_count,
        transfers,
        pending_count: s.pending_count,
        pending_bytes: s.pending_bytes,
        blocked_count: s.blocked_count,
        held_count: s.held_count,
        uploads: s.uploads.deep_view(),
    }
}

impl Coalesced {
    /// What is to be shown of a folder's sync and of the downloads under way,
    /// oldest first.
    pub fn of(s: &Snapshot, transfers: &Vec<Transfer>) -> (r: Self)
        ensures
            r@ == (CoalescedModel {
                items_listed: s.items_listed,
                items_placed: s.items_placed,
                skipped_count: s.skipped_count,
                last_checked: s.last_checked,
                local_bytes: s.local_bytes,
                conflict_count: s.conflict_count,
                pinned_count: s.pinned_count,
                transfers: transfers.deep_view(),
                pending_count: s.pending_count,
                pending_bytes: s.pending_bytes,
                blocked_count: s.blocked_count,
                held_count: s.held_count,
                uploads: s.uploads.deep_view(),
            }),
            r@ == shown_of(*s, transfers.deep_view()),
    {
        Coalesced {
            items_listed: s.items_listed,
            items_placed: s.items_placed,
            skipped_count: s.skipped_count,
            last_checked: s.last_checked,
            local_bytes: s.local_bytes,
            conflict_count: s.conflict_count,
            pinned_count: s.pinned_count,
            transfers: copies(transfers),
            pending_count: s.pending_count,
            pending_bytes: s.pending_bytes,
            blocked_count: s.blocked_count,
            held_count: s.held_count,
            uploads: copies(&s.uploads),
        }
    }

    /// Whether the property differs from what it was in `old`.
    fn has_changed(&self, old: &Coalesced, p: Property) -> (r: bool)
        ensures
            r == differs(p, old@, self@),
    {
        match p {
            Property::ItemsListed => old.items_listed != self.items_listed,
            Property::ItemsPlaced => old.items_placed != self.items_placed,
            Property::SkippedCount => old.skipped_count != self.skipped_count,
            Property::LastChecked => old.last_checked != self.last_checked,
            Property::LocalBytes => old.local_bytes != self.local_bytes,
            Property::ConflictCount => old.conflict_count != self.conflict_count,
            Property::PinnedCount => old.pinned_count != self.pinned_count,
            Property::Transfers => !same_all(&old.transfers, &self.transfers),
            Property::PendingCount => old.pending_count != self.pending_count,
            Property::PendingBytes => old.pending_bytes != self.pending_bytes,
            Property::BlockedCount => old.blocked_count != self.blocked_count,
            Property::HeldCount => old.held_count != self.held_count,
            Property::Uploads => !same_all(&old.uploads, &self.uploads),
        }
    }

    /// The value of the property.
    pub fn value_of(&self, p: Property) -> (r: PropertyValue)
        ensures
            r@ == value_in(p, self@),
    {
        match p {
            Property::ItemsListed => PropertyValue::U64(self.items_listed),
            Property::ItemsPlaced => PropertyValue::U64(self.items_placed),
            Property::SkippedCount => PropertyValue::U64(self.skipped_count),
            Property::LastChecked => PropertyValue::I64(self.last_checked),
            Property::LocalBytes => PropertyValue::U64(self.local_bytes),
            Property::ConflictCount => PropertyValue::U32(self.conflict_count),
            Property::PinnedCount => PropertyValue::U32(self.pinned_count),
            Property::Transfers => PropertyValue::Transfers(copies(&self.transfers)),
            Property::PendingCount => PropertyValue::U32(self.pending_count),
            Property::PendingBytes => PropertyValue::U64(self.pending_bytes),
            Property::BlockedCount => PropertyValue::U32(self.blocked_count),
            Property::HeldCount => PropertyValue::U32(self.held_count),
            Property::Uploads => PropertyValue::Transfers(copies(&self.uploads)),
        }
    }

    /// The properties that differ from `old`, each once, with their values now;
    /// nothing exactly when all is as it was.
    pub fn changed_since(&self, old: &Coalesced) -> (r: Vec<(Property, PropertyValue)>)
        ensures
            tells(sent_of(r@), old@, self@),
            r@.len() == 0 <==> self@ == old@,
    {
        let all = self.differing(old);
        let mut r: Vec<(Property, PropertyValue)> = Vec::new();
        let mut i: usize = 0;
        while i < all.len()
            invariant
                i <= all@.len(),
                r@.len() == i,
                forall|k: int|
                    0 <= k < i ==> (#[trigger] r@[k]).0 == all@[k] && r@[k].1@ == value_in(
                        all@[k],
                        self@,
                    ),
            decreases all@.len() - i,
        {
            r.push((all[i], self.value_of(all[i])));
            i += 1;
        }
        proof {
            let sent = sent_of(r@);
            assert forall|p: Property| #[trigger] sends(sent, p) <==> differs(p, old@, self@) by {
                assert(all@.contains(p) <==> differs(p, old@, self@));
                if all@.contains(p) {
                    let k = choose|k: int| 0 <= k < all@.len() && all@[k] == p;
                    assert(sent[k].0 == p);
                }
                if sends(sent, p) {
                    let k = choose|k: int| 0 <= k < sent.len() && (#[trigger] sent[k]).0 == p;
                    assert(r@[k].0 == all@[k]);
                }
            }
            assert forall|i: int, j: int| 0 <= i < j < sent.len() implies (#[trigger] sent[i]).0
                != (#[trigger] sent[j]).0 by {
                assert(r@[i].0 == all@[i]);
                assert(r@[j].0 == all@[j]);
            }
            assert forall|k: int| 0 <= k < sent.len() implies (#[trigger] sent[k]).1 == value_in(
                sent[k].0,
                self@,
            ) by {
                assert(r@[k].0 == all@[k]);
            }
            if r@.len() == 0 {
                assert forall|p: Property| #[trigger] value_in(p, self@) == value_in(p, old@) by {
                    assert(!sends(sent, p));
                }
                lemma_same_values(self@, old@);
            } else {
                assert(sent[0] == (r@[0].0, r@[0].1@));
                assert(sends(sent, sent[0].0));
            }
        }
        r
    }

    /// The properties that differ from `old`, each once.
    fn differing(&self, old: &Coalesced) -> (r: Vec<Property>)
        ensures
            forall|p: Property| #[trigger] r@.contains(p) <==> differs(p, old@, self@),
            r@.no_duplicates(),
    {
        let all = Property::all();
        let mut r: Vec<Property> = Vec::new();
        let mut i: usize = 0;
        while i < 13
            invariant
                i <= 13,
                all@.no_duplicates(),
                r@.no_duplicates(),
                forall|p: Property| #[trigger] r@.contains(p) <==> noted(all@, i as int, p) && differs(p, old@, self@),
            decreases 13 - i,
        {
            let ghost before = r@;
            let p = all[i];
            if self.has_changed(old, p) {
                assert(!before.contains(p)) by {
                    if noted(all@, i as int, p) {
                        let j = choose|j: int| 0 <= j < i && #[trigger] all@[j] == p;
                        assert(all@[j] == all@[i as int]);
                    }
                }
                r.push(p);
                assert forall|q: Property| #[trigger] r@.contains(q) <==> before.contains(q) || q == p by {
                    vstd::seq_lib::lemma_seq_contains_after_push(before, p, q);
                }
            }
            assert forall|q: Property| #[trigger] noted(all@, i + 1, q) <==> noted(all@, i as int, q) || q == p by {
                if noted(all@, i as int, q) {
                    let j = choose|j: int| 0 <= j < i && #[trigger] all@[j] == q;
                    assert(all@[j] == q);
                }
                if q == p {
                    assert(all@[i as int] == q);
                }
            }
            i += 1;
        }
        assert forall|p: Property| #[trigger] r@.contains(p) <==> differs(p, old@, self@) by {
            assert(all@.contains(p));
            let j = choose|j: int| 0 <= j < all@.len() && all@[j] == p;
            assert(all@[j] == p);
            assert(noted(all@, 13, p));
        }
        r
    }
}

/// The property is one of the first `n`.
spec fn noted(all: Seq<Property>, n: int, p: Property) -> bool {
    exists|j: int| 0 <= j < n && #[trigger] all[j] == p
}

/// One account's published counters: what was last sent.
pub struct Sync1 {
    shown: Coalesced,
}

impl View for Sync1 {
    type V = CoalescedModel;

    closed spec fn view(&self) -> CoalescedModel {
        self.shown@
    }
}

impl Sync1 {
    /// What a client has seen so far.
    pub fn new(shown: Coalesced) -> (r: Self)
        ensures
            r@ == shown@,
    {
        Sync1 { shown }
    }

    /// What is to be shown now: the properties to send, together, with their
    /// values, and nothing for a change that leaves all of it as it was.
    pub fn coalesce(&mut self, now: Coalesced) -> (r: Vec<(Property, PropertyValue)>)
        ensures
            final(self)@ == now@,
            tells(sent_of(r@), old(self)@, now@),
            r@.len() == 0 <==> now@ == old(self)@,
    {
        let r = now.changed_since(&self.shown);
        self.shown = now;
        r
    }
}

/// What is published of a folder at once, never held up.
#[derive(Debug)]
pub struct Published {
    pub root_path: String,
    pub state: String,
    pub error: String,
    /// Paused, and until when.
    pub paused_until: Option<i64>,
}

/// Which of what is published at once has changed.
#[derive(Debug, Clone, Copy, PartialEq, Eq, Structural)]
pub struct Changes {
    /// The folder, and with it its source.
    pub root: bool,
    pub state: bool,
    pub error: bool,
    pub paused: bool,
}

/// Which of what is published at once differs.
pub open spec fn changes_of(old: Published, new: Published) -> Changes {
    Changes {
        root: old.root_path@ != new.root_path@,
        state: old.state@ != new.state@,
        error: old.error@ != new.error@,
        paused: old.paused_until != new.paused_until,
    }
}

impl Published {
    /// What has changed since `old`.
    pub fn changes(&self, old: &Published) -> (r: Changes)
        ensures
            r.root == (old.root_path@ != self.root_path@),
            r.state == (old.state@ != self.state@),
            r.error == (old.error@ != self.error@),
            r.paused == (old.paused_until != self.paused_until),
            r == changes_of(*old, *self),
    {
        let paused = match (old.paused_until, self.paused_until) {
            (Some(a), Some(b)) => a != b,
            (None, None) => false,
            _ => true,
        };
        Changes {
            root: !same_text(old.root_path.as_str(), self.root_path.as_str()),
            state: !same_text(old.state.as_str(), self.state.as_str()),
            error: !same_text(old.error.as_str(), self.error.as_str()),
            paused,
        }
    }
}

/// With all values the same, all is the same.
proof fn lemma_same_values(a: CoalescedModel, b: CoalescedModel)
    requires
        forall|p: Property| #[trigger] value_in(p, a) == value_in(p, b),
    ensures
        a == b,
{
    assert(value_in(Property::ItemsListed, a) == value_in(Property::ItemsListed, b));
    assert(value_in(Property::ItemsPlaced, a) == value_in(Property::ItemsPlaced, b));
    assert(value_in(Property::SkippedCount, a) == value_in(Property::SkippedCount, b));
    assert(value_in(Property::LastChecked, a) == value_in(Property::LastChecked, b));
    assert(value_in(Property::LocalBytes, a) == value_in(Property::LocalBytes, b));
    assert(value_in(Property::ConflictCount, a) == value_in(Property::ConflictCount, b));
    assert(value_in(Property::PinnedCount, a) == value_in(Property::PinnedCount, b));
    assert(value_in(Property::Transfers, a) == value_in(Property::Transfers, b));
    assert(value_in(Property::PendingCount, a) == value_in(Property::PendingCount, b));
    assert(value_in(Property::PendingBytes, a) == value_in(Property::PendingBytes, b));
    assert(value_in(Property::BlockedCount, a) == value_in(Property::BlockedCount, b));
    assert(value_in(Property::HeldCount, a) == value_in(Property::HeldCount, b));
    assert(value_in(Property::Uploads, a) == value_in(Property::Uploads, b));
}

/// A property differs exactly when its value does.
proof fn lemma_differs(p: Property, a: CoalescedModel, b: CoalescedModel)
    ensures
        differs(p, a, b) <==> value_in(p, a) != value_in(p, b),
{
}

/// What changed one way changed the other way: the same properties are told of,
/// each with the value of the state it is told of, and none exactly when the
/// two are the same.
pub proof fn law_both_ways_the_same_properties_are_told(
    a: CoalescedModel,
    b: CoalescedModel,
    to_b: Seq<(Property, PropertyValueModel)>,
    to_a: Seq<(Property, PropertyValueModel)>,
    p: Property,
)
    requires
        tells(to_b, a, b),
        tells(to_a, b, a),
    ensures
        sends(to_b, p) <==> sends(to_a, p),
        to_b.len() == 0 <==> a == b,
        forall|k: int|
            0 <= k < to_b.len() ==> (#[trigger] to_b[k]).1 == value_in(to_b[k].0, b),
        forall|k: int|
            0 <= k < to_a.len() ==> (#[trigger] to_a[k]).1 == value_in(to_a[k].0, a),
{
    lemma_differs(p, a, b);
    lemma_differs(p, b, a);
    if to_b.len() == 0 {
        assert forall|q: Property| #[trigger] value_in(q, a) == value_in(q, b) by {
            lemma_differs(q, a, b);
            assert(!sends(to_b, q));
        }
        lemma_same_values(a, b);
    } else {
        assert(sends(to_b, to_b[0].0));
    }
}

/// Sending what changed is enough: a client that saw the last message, and
/// takes the values of this one, sees what there is now.
pub proof fn law_the_last_value_always_arrives(
    old: CoalescedModel,
    new: CoalescedModel,
    sent: Seq<(Property, PropertyValueModel)>,
    seen: CoalescedModel,
)
    requires
        tells(sent, old, new),
        forall|k: int|
            0 <= k < sent.len() ==> value_in((#[trigger] sent[k]).0, seen) == sent[k].1,
        forall|p: Property| !#[trigger] sends(sent, p) ==> value_in(p, seen) == value_in(p, old),
    ensures
        seen == new,
{
    assert forall|p: Property| #[trigger] value_in(p, seen) == value_in(p, new) by {
        lemma_differs(p, old, new);
        if sends(sent, p) {
            let k = choose|k: int| 0 <= k < sent.len() && (#[trigger] sent[k]).0 == p;
            assert(value_in(sent[k].0, seen) == sent[k].1);
        }
    }
    lemma_same_values(seen, new);
}

} // verus!
