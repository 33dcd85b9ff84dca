//! What holds of everything that is told on the bus.

use vstd::prelude::*;
use crate::activity::transfers::TransferModel;
use crate::dbus::{
    changes_of, differs, fault_name, fault_of, property_name, shown_of, value_in, CoalescedModel,
    Property, PropertyValueModel, Published, Snapshot, SyncErrorKind,
};

verus! {

/// What each error is refused by, for a client: by its own name, but that a folder
/// of another account's is one that is not empty, and what nobody can act on has
/// the common name.
pub proof fn law_what_a_client_is_refused_by()
    ensures
        fault_name(fault_of(SyncErrorKind::Overlaps)) == "org.konedrive.Error.Overlaps"@,
        fault_name(fault_of(SyncErrorKind::NotEmpty)) == "org.konedrive.Error.NotEmpty"@,
        fault_name(fault_of(SyncErrorKind::ForeignFolder)) == "org.konedrive.Error.NotEmpty"@,
        fault_name(fault_of(SyncErrorKind::Unsupported)) == "org.konedrive.Error.Unsupported"@,
        fault_name(fault_of(SyncErrorKind::InUse)) == "org.konedrive.Error.InUse"@,
        fault_name(fault_of(SyncErrorKind::NoRoot)) == "org.konedrive.Error.NoRoot"@,
        fault_name(fault_of(SyncErrorKind::NoHelper)) == "org.konedrive.Error.NoHelper"@,
        fault_name(fault_of(SyncErrorKind::NotManaged)) == "org.konedrive.Error.NotManaged"@,
        fault_name(fault_of(SyncErrorKind::NotHydrated)) == "org.konedrive.Error.NotHydrated"@,
        fault_name(fault_of(SyncErrorKind::ModifiedLocally))
            == "org.konedrive.Error.ModifiedLocally"@,
        fault_name(fault_of(SyncErrorKind::OutsideRoot)) == "org.konedrive.Error.OutsideRoot"@,
        fault_name(fault_of(SyncErrorKind::AlreadyRegistered))
            == "org.konedrive.Error.AlreadyRegistered"@,
        fault_name(fault_of(SyncErrorKind::NotSignedIn)) == "org.konedrive.Error.NotSignedIn"@,
        fault_name(fault_of(SyncErrorKind::NoSource)) == "org.konedrive.Error.NoSource"@,
        fault_name(fault_of(SyncErrorKind::NoConflict)) == "org.konedrive.Error.NoConflict"@,
        fault_name(fault_of(SyncErrorKind::NotAllowed)) == "org.konedrive.Error.NotAllowed"@,
        fault_name(fault_of(SyncErrorKind::NotUploaded)) == "org.konedrive.Error.NotUploaded"@,
        fault_name(fault_of(SyncErrorKind::PendingUploads))
            == "org.konedrive.Error.PendingUploads"@,
        fault_name(fault_of(SyncErrorKind::InvalidArgs))
            == "org.freedesktop.DBus.Error.InvalidArgs"@,
        fault_name(fault_of(SyncErrorKind::Io)) == "org.konedrive.Error.Failed"@,
{
}

/// What each property is called, and what it tells of a folder's sync: that very
/// counter, and no other.
pub proof fn law_each_property_tells_its_own(s: Snapshot, transfers: Seq<TransferModel>)
    ensures
        ({
            let m = shown_of(s, transfers);
            &&& value_in(Property::ItemsListed, m) == PropertyValueModel::U64(s.items_listed)
            &&& value_in(Property::ItemsPlaced, m) == PropertyValueModel::U64(s.items_placed)
            &&& value_in(Property::SkippedCount, m) == PropertyValueModel::U64(s.skipped_count)
            &&& value_in(Property::LastChecked, m) == PropertyValueModel::I64(s.last_checked)
            &&& value_in(Property::LocalBytes, m) == PropertyValueModel::U64(s.local_bytes)
            &&& value_in(Property::ConflictCount, m) == PropertyValueModel::U32(s.conflict_count)
            &&& value_in(Property::PinnedCount, m) == PropertyValueModel::U32(s.pinned_count)
            &&& value_in(Property::Transfers, m) == PropertyValueModel::Transfers(transfers)
            &&& value_in(Property::PendingCount, m) == PropertyValueModel::U32(s.pending_count)
            &&& value_in(Property::PendingBytes, m) == PropertyValueModel::U64(s.pending_bytes)
            &&& value_in(Property::BlockedCount, m) == PropertyValueModel::U32(s.blocked_count)
            &&& value_in(Property::HeldCount, m) == PropertyValueModel::U32(s.held_count)
            &&& value_in(Property::Uploads, m) == PropertyValueModel::Transfers(s.uploads.deep_view())
        }),
        property_name(Property::ItemsListed) == "ItemsListed"@,
        property_name(Property::ItemsPlaced) == "ItemsPlaced"@,
        property_name(Property::SkippedCount) == "SkippedCount"@,
        property_name(Property::LastChecked) == "LastChecked"@,
        property_name(Property::LocalBytes) == "LocalBytes"@,
        property_name(Property::ConflictCount) == "ConflictCount"@,
        property_name(Property::PinnedCount) == "PinnedCount"@,
        property_name(Property::Transfers) == "Transfers"@,
        property_name(Property::PendingCount) == "PendingCount"@,
        property_name(Property::PendingBytes) == "PendingBytes"@,
        property_name(Property::BlockedCount) == "BlockedCount"@,
        property_name(Property::HeldCount) == "HeldCount"@,
        property_name(Property::Uploads) == "Uploads"@,
{
}

/// A property is told exactly when its value is another than it was.
pub proof fn law_a_property_is_told_when_its_value_changed(p: Property, a: CoalescedModel, b: CoalescedModel)
    ensures
        differs(p, a, b) <==> value_in(p, a) != value_in(p, b),
        !differs(p, a, a),
        differs(p, a, b) <==> differs(p, b, a),
{
}

/// What is published at once is told where it is another than it was, and each
/// thing by itself.
pub proof fn law_what_is_told_at_once(old: Published, new: Published)
    ensures
        changes_of(old, new).root <==> old.root_path@ != new.root_path@,
        changes_of(old, new).state <==> old.state@ != new.state@,
        changes_of(old, new).error <==> old.error@ != new.error@,
        changes_of(old, new).paused <==> old.paused_until != new.paused_until,
{
}

} // verus!
