//! One folder's sync with OneDrive: the delta feed read into the tree store's
//! staging area, the folder made to match it, and only then the staging area
//! swapped in with the new delta link.

pub mod cycle;
pub mod feed;
pub mod laws;
pub mod looking;
pub mod poller;
pub mod reconcile;
pub mod record;
pub mod replacement;
pub mod replacing;
pub mod rw;
pub mod rw_cycle;
pub mod rw_laws;

use vstd::prelude::*;
use vstd::string::*;
use crate::path::AbsPath;
use crate::text::same_text;

verus! {

/// A delta with more changes than this is reconciled in full.
pub const FULL_THRESHOLD: usize = 5000;

/// Replacements of changed files downloading at once.
pub const REPLACEMENT_SLOTS: usize = 2;

/// What stopped a cycle.
#[derive(Debug)]
pub enum CycleError {
    SignedOut,
    /// The folder was listed from this drive, of another account.
    OtherAccount(String),
    Offline(String),
    NoHelper,
    Store(String),
    Apply(String),
    Cancelled,
}

#[verifier::ext_equal]
pub enum CycleErrorModel {
    SignedOut,
    OtherAccount(Seq<char>),
    Offline(Seq<char>),
    NoHelper,
    Store(Seq<char>),
    Apply(Seq<char>),
    Cancelled,
}

impl View for CycleError {
    type V = CycleErrorModel;

    open spec fn view(&self) -> CycleErrorModel {
        match self {
            CycleError::SignedOut => CycleErrorModel::SignedOut,
            CycleError::OtherAccount(s) => CycleErrorModel::OtherAccount(s@),
            CycleError::Offline(s) => CycleErrorModel::Offline(s@),
            CycleError::NoHelper => CycleErrorModel::NoHelper,
            CycleError::Store(s) => CycleErrorModel::Store(s@),
            CycleError::Apply(s) => CycleErrorModel::Apply(s@),
            CycleError::Cancelled => CycleErrorModel::Cancelled,
        }
    }
}

impl DeepView for CycleError {
    type V = CycleErrorModel;

    open spec fn deep_view(&self) -> CycleErrorModel {
        self.view()
    }
}

/// Trouble that stops the folder until someone acts.
pub open spec fn is_blocking(e: CycleErrorModel) -> bool {
    e is SignedOut || e is OtherAccount || e is Store || e is NoHelper
}

/// What is said of an error.
pub open spec fn error_text(e: CycleErrorModel) -> Seq<char> {
    match e {
        CycleErrorModel::SignedOut => "signed out: sign in again to keep this folder in step with OneDrive"@,
        CycleErrorModel::OtherAccount(drive) => "this folder was listed from another OneDrive account (drive "@
            + drive + "); forget it and register a folder for the account signed in now"@,
        CycleErrorModel::Offline(why) => "cannot reach OneDrive ("@ + why + "); trying again"@,
        CycleErrorModel::NoHelper => "the helper is not connected; the folder is brought up to date when it is back"@,
        CycleErrorModel::Store(why) => "the tree store: "@ + why,
        CycleErrorModel::Apply(why) => "the folder could not be brought up to date: "@ + why,
        CycleErrorModel::Cancelled => "cancelled"@,
    }
}

fn around(before: &str, inner: &str, after: &str) -> (r: String)
    ensures
        r@ == before@ + inner@ + after@,
{
    let mut out = before.to_owned();
    out.append(inner);
    out.append(after);
    out
}

impl CycleError {
    /// Trouble that stops the folder until someone acts — the helper's absence
    /// among it.
    pub fn blocking(&self) -> (r: bool)
        ensures
            r == is_blocking(self@),
    {
        match self {
            CycleError::SignedOut | CycleError::OtherAccount(_) | CycleError::Store(_)
            | CycleError::NoHelper => true,
            _ => false,
        }
    }

    /// What is said of it.
    pub fn message(&self) -> (r: String)
        ensures
            r@ == error_text(self@),
    {
        match self {
            CycleError::SignedOut => "signed out: sign in again to keep this folder in step with OneDrive".to_owned(),
            CycleError::OtherAccount(drive) => around(
                "this folder was listed from another OneDrive account (drive ",
                drive.as_str(),
                "); forget it and register a folder for the account signed in now",
            ),
            CycleError::Offline(why) => around("cannot reach OneDrive (", why.as_str(), "); trying again"),
            CycleError::NoHelper => "the helper is not connected; the folder is brought up to date when it is back".to_owned(),
            CycleError::Store(why) => {
                let mut out = "the tree store: ".to_owned();
                out.append(why.as_str());
                out
            },
            CycleError::Apply(why) => {
                let mut out = "the folder could not be brought up to date: ".to_owned();
                out.append(why.as_str());
                out
            },
            CycleError::Cancelled => "cancelled".to_owned(),
        }
    }
}

/// What kind of trouble there is with the drive.
#[derive(Debug, Clone, Copy, PartialEq, Eq, Structural)]
pub enum DriveKind {
    SignedOut,
    /// The link handed out has expired. `upload_differences`: what was
    /// downloaded and the new listing leaves out is kept, to be uploaded again.
    ResyncRequired { upload_differences: bool },
    NotFound,
    /// The drive refused the request.
    Failed,
    /// A download link has expired.
    UrlExpired,
    Other,
}

/// Trouble with the drive, and what it says.
#[derive(Debug)]
pub struct DriveError {
    pub kind: DriveKind,
    pub text: String,
}

/// What a cycle makes of trouble with the drive.
pub open spec fn drive_trouble(kind: DriveKind, text: Seq<char>) -> CycleErrorModel {
    if kind == DriveKind::SignedOut {
        CycleErrorModel::SignedOut
    } else {
        CycleErrorModel::Offline(text)
    }
}

/// What a cycle makes of trouble with the drive.
pub fn drive_error(e: DriveError) -> (r: CycleError)
    ensures
        r@ == drive_trouble(e.kind, e.text@),
{
    match e.kind {
        DriveKind::SignedOut => CycleError::SignedOut,
        _ => CycleError::Offline(e.text),
    }
}

/// The drive refused a link it handed out.
pub open spec fn is_refusal(kind: DriveKind) -> bool {
    kind is ResyncRequired || kind == DriveKind::NotFound || kind == DriveKind::Failed
}

/// What was downloaded and a new listing leaves out is kept.
pub open spec fn keeps_differences(kind: DriveKind) -> bool {
    kind == (DriveKind::ResyncRequired { upload_differences: true })
}

/// Whether what was downloaded and a new listing leaves out is kept.
pub fn uploads_differences(e: &DriveError) -> (r: bool)
    ensures
        r == keeps_differences(e.kind),
{
    match e.kind {
        DriveKind::ResyncRequired { upload_differences } => upload_differences,
        _ => false,
    }
}

/// Whether Graph refused a link it handed out — expired, gone, or a token it no
/// longer takes — rather than could not be reached or refused the account.
pub fn refused(e: &DriveError) -> (r: bool)
    ensures
        r == is_refusal(e.kind),
{
    match e.kind {
        DriveKind::ResyncRequired { .. } | DriveKind::NotFound | DriveKind::Failed => true,
        _ => false,
    }
}

/// What making the folder match the tree ran into.
#[derive(Debug, Clone, Copy, PartialEq, Eq, Structural)]
pub enum ApplyKind {
    Cancelled,
    /// Only a full reconcile can go on.
    NeedFull,
    Io,
    Other,
}

/// What making the folder match the tree ran into, and what it says.
#[derive(Debug)]
pub struct ApplyError {
    pub kind: ApplyKind,
    pub text: String,
}

/// What a cycle makes of it.
pub open spec fn apply_trouble(kind: ApplyKind, text: Seq<char>) -> CycleErrorModel {
    if kind == ApplyKind::Cancelled {
        CycleErrorModel::Cancelled
    } else {
        CycleErrorModel::Apply(text)
    }
}

/// What a cycle makes of what making the folder match the tree ran into.
pub fn applying(e: ApplyError) -> (r: CycleError)
    ensures
        r@ == apply_trouble(e.kind, e.text@),
{
    match e.kind {
        ApplyKind::Cancelled => CycleError::Cancelled,
        _ => CycleError::Apply(e.text),
    }
}

/// Whether the next cycle reconciles the whole folder: asked for, and taken by
/// the cycle that begins.
pub struct Turns {
    pub needs_full: bool,
}

/// A cycle has begun, and has taken the request.
pub open spec fn turn_begun(needs_full: bool) -> bool {
    false
}

/// The cycle under way has ended: one that failed, or was dropped part-way,
/// leaves the next one a full reconcile.
pub open spec fn turn_ended(needs_full: bool, succeeded: bool) -> bool {
    needs_full || !succeeded
}

impl Turns {
    /// The first cycle reconciles the whole folder.
    pub fn new() -> (r: Self)
        ensures
            r.needs_full,
    {
        Turns { needs_full: true }
    }

    /// A cycle begins: whether it is to reconcile the whole folder. Taken, not
    /// read: a request made while it runs must outlive it.
    pub fn begin(&mut self) -> (full: bool)
        ensures
            full == old(self).needs_full,
            final(self).needs_full == turn_begun(old(self).needs_full),
    {
        let full = self.needs_full;
        self.needs_full = false;
        full
    }

    /// The cycle under way has ended.
    pub fn end(&mut self, succeeded: bool)
        ensures
            final(self).needs_full == turn_ended(old(self).needs_full, succeeded),
    {
        if !succeeded {
            self.needs_full = true;
        }
    }

    /// The next cycle is to reconcile the whole folder.
    pub fn request(&mut self)
        ensures
            final(self).needs_full,
    {
        self.needs_full = true;
    }
}

/// A cycle that fails, or is dropped part-way, leaves the next one a full
/// reconcile.
pub proof fn law_a_failed_cycle_makes_the_next_full(needs_full: bool)
    ensures
        turn_ended(turn_begun(needs_full), false),
{
}

/// A full reconcile asked for while a cycle runs is not lost with it, however
/// the cycle ends; and one nobody asked for is not made after one that
/// succeeded.
pub proof fn law_a_request_outlives_the_cycle_under_way(needs_full: bool, succeeded: bool)
    ensures
        turn_ended(true, succeeded),
        !turn_ended(turn_begun(needs_full), true),
{
}

/// A folder that shows OneDrive can be kept in step.
pub open spec fn can_be_kept(intercepted: bool, connected: bool) -> bool {
    intercepted && connected
}

/// A folder that shows OneDrive is kept in step only with interception and a
/// connected helper.
pub fn helper_ready(intercepted: bool, connected: bool) -> (r: Result<(), CycleError>)
    ensures
        r is Ok <==> intercepted && connected,
        r is Ok <==> can_be_kept(intercepted, connected),
        r matches Err(e) ==> e@ == CycleErrorModel::NoHelper,
{
    if intercepted && connected {
        Ok(())
    } else {
        Err(CycleError::NoHelper)
    }
}

/// The drive a folder was listed from, as the configuration keeps it beside the
/// root.
#[derive(Debug)]
pub struct DriveRecord {
    pub config_file: AbsPath,
    /// The root the record belongs to.
    pub root_id: String,
    /// What was recorded when the sync started; nothing when nothing was, and
    /// the first cycle writes it.
    pub recorded: Option<String>,
}

/// What a cycle that may go on records of the drive.
#[derive(Debug, Clone, Copy, PartialEq, Eq, Structural)]
pub struct Account {
    /// In the store's own record.
    pub in_store: bool,
    /// Beside the root, by the next reconcile.
    pub beside_root: bool,
}

/// The drive the folder is known to show: the store's record, or, for a store
/// rebuilt empty, the one kept beside the root.
pub open spec fn known_drive(stored: Option<Seq<char>>, kept: Option<Seq<char>>) -> Option<Seq<char>> {
    match stored {
        Some(id) => Some(id),
        None => kept,
    }
}

/// What the drive's record beside the root says.
pub open spec fn kept_drive(record: Option<DriveRecord>) -> Option<Seq<char>> {
    match record {
        Some(r) => r.recorded.deep_view(),
        None => None,
    }
}

/// What the account check comes to.
pub open spec fn account_of(
    id: Seq<char>,
    stored: Option<Seq<char>>,
    record: Option<DriveRecord>,
    recorded: bool,
) -> Result<Account, CycleErrorModel> {
    match known_drive(stored, kept_drive(record)) {
        Some(known) if known != id => Err(CycleErrorModel::OtherAccount(known)),
        _ => Ok(
            Account {
                in_store: stored is None,
                beside_root: record is Some && kept_drive(record) is None && !recorded,
            },
        ),
    }
}

/// How a result reads whose error is a cycle's.
pub open spec fn cycled<T>(r: Result<T, CycleError>) -> Result<T, CycleErrorModel> {
    match r {
        Ok(t) => Ok(t),
        Err(e) => Err(e@),
    }
}

/// The account check, at every cycle: the drive signed in to is `id`, the
/// store's record is `stored`, the one beside the root `record`, which has
/// been `recorded` by this sync already or not.
pub fn check_account(
    id: Result<String, DriveError>,
    stored: &Option<String>,
    record: &Option<DriveRecord>,
    recorded: bool,
) -> (r: Result<Account, CycleError>)
    ensures
        match id {
            Err(e) => r is Err && r->Err_0@ == drive_trouble(e.kind, e.text@),
            Ok(id) => cycled(r) == account_of(id@, stored.deep_view(), *record, recorded),
        },
{
    let id = match id {
        Ok(id) => id,
        Err(e) => return Err(drive_error(e)),
    };
    let kept = match record {
        Some(record) => &record.recorded,
        None => &None,
    };
    let known = if stored.is_some() {
        stored
    } else {
        kept
    };
    if let Some(known) = known {
        if !same_text(known.as_str(), id.as_str()) {
            return Err(CycleError::OtherAccount(known.clone()));
        }
    }
    Ok(
        Account {
            in_store: stored.is_none(),
            beside_root: record.is_some() && kept.is_none() && !recorded,
        },
    )
}

/// A sign-in as someone else blocks the folder: whichever record knows the
/// drive, a cycle goes on only for that one.
pub proof fn law_another_account_never_goes_on(
    id: Seq<char>,
    stored: Option<Seq<char>>,
    record: Option<DriveRecord>,
    recorded: bool,
)
    requires
        account_of(id, stored, record, recorded) is Ok,
    ensures
        stored is Some ==> stored->0 == id,
        stored is None && kept_drive(record) is Some ==> kept_drive(record)->0 == id,
{
}

/// The drive `id` is written into the configuration beside the root while that
/// names the same root and records no drive.
pub open spec fn drive_to_write(
    of_root: Seq<char>,
    id: Seq<char>,
    root_id: Seq<char>,
    drive_id: Seq<char>,
) -> Option<Seq<char>> {
    if root_id == of_root && drive_id.len() == 0 {
        Some(id)
    } else {
        None
    }
}

/// The drive to write into the configuration beside the root, which names the
/// root `root_id` and records the drive `drive_id`: only while it still names
/// this root, and records none.
pub fn record_drive(record: &DriveRecord, id: &str, root_id: &str, drive_id: &str) -> (r: Option<String>)
    ensures
        r.deep_view() == drive_to_write(record.root_id@, id@, root_id@, drive_id@),
        match r {
            Some(written) => root_id@ == record.root_id@ && drive_id@.len() == 0 && written@ == id@,
            None => root_id@ != record.root_id@ || drive_id@.len() > 0,
        },
{
    if same_text(root_id, record.root_id.as_str()) && drive_id.unicode_len() == 0 {
        Some(id.to_owned())
    } else {
        None
    }
}

/// Trouble with the sync, as it is published.
#[derive(Debug)]
pub struct SyncTrouble {
    pub text: String,
    pub blocking: bool,
}

#[verifier::ext_equal]
pub struct SyncTroubleModel {
    pub text: Seq<char>,
    pub blocking: bool,
}

impl View for SyncTrouble {
    type V = SyncTroubleModel;

    open spec fn view(&self) -> SyncTroubleModel {
        SyncTroubleModel { text: self.text@, blocking: self.blocking }
    }
}

impl DeepView for SyncTrouble {
    type V = SyncTroubleModel;

    open spec fn deep_view(&self) -> SyncTroubleModel {
        self.view()
    }
}

/// What is published of how the sync goes.
pub struct Outcome {
    pub trouble: Option<SyncTrouble>,
    pub waits_for_helper: bool,
    /// When a cycle last succeeded, in Unix seconds.
    pub last_checked: i64,
}

#[verifier::ext_equal]
pub struct OutcomeModel {
    pub trouble: Option<SyncTroubleModel>,
    pub waits_for_helper: bool,
    pub last_checked: i64,
}

impl View for Outcome {
    type V = OutcomeModel;

    open spec fn view(&self) -> OutcomeModel {
        OutcomeModel {
            trouble: self.trouble.deep_view(),
            waits_for_helper: self.waits_for_helper,
            last_checked: self.last_checked,
        }
    }
}

/// What is published once a cycle that ended at `now` came to `result`.
pub open spec fn published(o: OutcomeModel, result: Result<(), CycleErrorModel>, now: i64) -> OutcomeModel {
    match result {
        Ok(_) => OutcomeModel { trouble: None, waits_for_helper: false, last_checked: now },
        Err(CycleErrorModel::Cancelled) => o,
        Err(CycleErrorModel::NoHelper) => OutcomeModel { waits_for_helper: true, ..o },
        Err(e) => OutcomeModel {
            trouble: Some(SyncTroubleModel { text: error_text(e), blocking: is_blocking(e) }),
            ..o
        },
    }
}

impl Outcome {
    /// What a cycle that ended at `now` came to, published. The folder waiting
    /// for the helper is no trouble with the sync, and a cycle cut short says
    /// nothing; only a cycle that succeeds has checked the folder.
    pub fn publish_outcome(&mut self, result: &Result<(), CycleError>, now: i64)
        ensures
            final(self)@ == published(old(self)@, cycled(*result), now),
            final(self).last_checked == match result {
                Ok(_) => now,
                Err(_) => old(self).last_checked,
            },
            match result {
                Ok(_) => final(self).trouble is None && !final(self).waits_for_helper,
                Err(e) => match e@ {
                    CycleErrorModel::Cancelled => *final(self) == *old(self),
                    CycleErrorModel::NoHelper => final(self).waits_for_helper && final(self).trouble
                        == old(self).trouble,
                    other => final(self).trouble.deep_view() == Some(
                        SyncTroubleModel { text: error_text(other), blocking: is_blocking(other) },
                    ) && final(self).waits_for_helper == old(self).waits_for_helper,
                },
            },
    {
        match result {
            Ok(_) => {
                self.trouble = None;
                self.waits_for_helper = false;
                self.last_checked = now;
            },
            Err(CycleError::Cancelled) => {},
            Err(CycleError::NoHelper) => {
                self.waits_for_helper = true;
            },
            Err(e) => {
                self.trouble = Some(SyncTrouble { text: e.message(), blocking: e.blocking() });
            },
        }
    }
}

} // verus!
