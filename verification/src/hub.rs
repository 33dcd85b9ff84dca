//! The one link to the helper, shared by every account: which account a file
//! belongs to, and how the helper stands.

pub mod laws;

use vstd::prelude::*;
use vstd::string::*;
use crate::helper_status::HelperState;
use crate::local::run::push_to;
use crate::path::{
    begins_path, lemma_begins_parts, parts_of, path_begins, split, AbsPath, PathModel, RelPath,
};
use crate::text::{chars_of, same_chars, same_text, to_upper, upper};

verus! {

/// The item ids of what left one account's folder and waits in its outbox.
#[derive(Debug)]
pub struct MovedOut {
    pub account: u64,
    pub ids: Vec<String>,
}

#[verifier::ext_equal]
pub struct MovedOutModel {
    pub account: u64,
    pub ids: Seq<Seq<char>>,
}

impl View for MovedOut {
    type V = MovedOutModel;

    open spec fn view(&self) -> MovedOutModel {
        MovedOutModel { account: self.account, ids: self.ids.deep_view() }
    }
}

impl DeepView for MovedOut {
    type V = MovedOutModel;

    open spec fn deep_view(&self) -> MovedOutModel {
        self.view()
    }
}

/// Whether `list` holds `x`.
fn holds(list: &Vec<String>, x: &str) -> (r: bool)
    ensures
        r == list.deep_view().contains(x@),
{
    let mut i: usize = 0;
    while i < list.len()
        invariant
            i <= list@.len(),
            forall|k: int| 0 <= k < i ==> list.deep_view()[k] != x@,
        decreases list@.len() - i,
    {
        assert(list.deep_view()[i as int] == list@[i as int]@);
        if same_text(list[i].as_str(), x) {
            assert(list.deep_view()[i as int] == x@);
            return true;
        }
        i += 1;
    }
    false
}

/// The first `n` entries of other accounts that are still there (`alive`).
pub open spec fn kept_of(all: Seq<MovedOutModel>, account: u64, alive: Seq<u64>, n: int) -> Seq<MovedOutModel>
    decreases n,
{
    if n <= 0 {
        Seq::empty()
    } else {
        let before = kept_of(all, account, alive, n - 1);
        if all[n - 1].account != account && alive.contains(all[n - 1].account) {
            before.push(all[n - 1])
        } else {
            before
        }
    }
}

/// What left the accounts' folders, once `account` says what left its own:
/// what it said before is replaced, and an account that went is forgotten.
pub open spec fn moved_out_set(
    all: Seq<MovedOutModel>,
    account: u64,
    ids: Seq<Seq<char>>,
    alive: Seq<u64>,
) -> Seq<MovedOutModel> {
    let kept = kept_of(all, account, alive, all.len() as int);
    if ids.len() == 0 {
        kept
    } else {
        kept.push(MovedOutModel { account, ids })
    }
}

fn lives(alive: &Vec<u64>, account: u64) -> (r: bool)
    ensures
        r == alive@.contains(account),
{
    let mut i: usize = 0;
    while i < alive.len()
        invariant
            i <= alive@.len(),
            forall|k: int| 0 <= k < i ==> alive@[k] != account,
        decreases alive@.len() - i,
    {
        if alive[i] == account {
            assert(alive@[i as int] == account);
            return true;
        }
        i += 1;
    }
    false
}

/// The first entry from `k` on that names `id`.
pub open spec fn mover_of(all: Seq<MovedOutModel>, id: Seq<char>, k: int) -> Option<u64>
    decreases all.len() - k,
{
    if k >= all.len() {
        None
    } else if all[k].ids.contains(id) {
        Some(all[k].account)
    } else {
        mover_of(all, id, k + 1)
    }
}

/// The account whose moved-out objects include item `id`: nobody when it has
/// gone.
pub open spec fn live_mover(all: Seq<MovedOutModel>, id: Seq<char>, alive: Seq<u64>) -> Option<u64> {
    match mover_of(all, id, 0) {
        Some(account) if alive.contains(account) => Some(account),
        _ => None,
    }
}

/// An account other than `me` waits to fetch `id` wherever it is.
pub open spec fn moved_elsewhere(all: Seq<MovedOutModel>, me: u64, id: Seq<char>) -> bool {
    exists|k: int|
        0 <= k < all.len() && (#[trigger] all[k]).account != me && all[k].ids.contains(id)
}

/// What left the accounts' folders.
pub struct MovedOuts {
    all: Vec<MovedOut>,
}

impl View for MovedOuts {
    type V = Seq<MovedOutModel>;

    closed spec fn view(&self) -> Seq<MovedOutModel> {
        self.all.deep_view()
    }
}

impl MovedOuts {
    pub fn new() -> (r: Self)
        ensures
            r@ == Seq::<MovedOutModel>::empty(),
    {
        let r = MovedOuts { all: Vec::new() };
        assert(r@ =~= Seq::<MovedOutModel>::empty());
        r
    }

    /// The item ids whose fills are `account`'s wherever the objects are now;
    /// `alive` are the accounts there are.
    pub fn set_moved_out(&mut self, account: u64, ids: Vec<String>, alive: &Vec<u64>)
        ensures
            final(self)@ == moved_out_set(old(self)@, account, ids.deep_view(), alive@),
    {
        let ghost first = self@;
        let mut all: Vec<MovedOut> = Vec::new();
        std::mem::swap(&mut all, &mut self.all);
        let ghost held = all;
        let mut kept: Vec<MovedOut> = Vec::new();
        assert(kept.deep_view() =~= Seq::<MovedOutModel>::empty());
        for entry in it: all
            invariant
                it.seq() == held@,
                first == held.deep_view(),
                kept.deep_view() == kept_of(first, account, alive@, it.index()),
        {
            assert(first[it.index()] == held@[it.index()]@);
            if entry.account != account && lives(alive, entry.account) {
                push_to(&mut kept, entry);
            }
        }
        if ids.len() > 0 {
            push_to(&mut kept, MovedOut { account, ids });
        }
        self.all = kept;
    }

    /// The account whose moved-out objects include item `id`, if it is one of
    /// those there are, `alive`.
    pub fn by_moved_out(&self, id: &str, alive: &Vec<u64>) -> (r: Option<u64>)
        ensures
            r == live_mover(self@, id@, alive@),
    {
        let mut k: usize = 0;
        while k < self.all.len()
            invariant
                k <= self.all@.len(),
                mover_of(self@, id@, 0) == mover_of(self@, id@, k as int),
            decreases self.all@.len() - k,
        {
            assert(self@[k as int] == self.all@[k as int]@);
            if holds(&self.all[k].ids, id) {
                let account = self.all[k].account;
                return if lives(alive, account) {
                    Some(account)
                } else {
                    None
                };
            }
            k += 1;
        }
        None
    }

    /// Whether an account other than `me` waits to fetch `id`.
    fn elsewhere(&self, me: u64, id: &str) -> (r: bool)
        ensures
            r == moved_elsewhere(self@, me, id@),
    {
        let mut k: usize = 0;
        while k < self.all.len()
            invariant
                k <= self.all@.len(),
                forall|j: int|
                    0 <= j < k ==> !((#[trigger] self@[j]).account != me && self@[j].ids.contains(id@)),
            decreases self.all@.len() - k,
        {
            assert(self@[k as int] == self.all@[k as int]@);
            if self.all[k].account != me && holds(&self.all[k].ids, id) {
                return true;
            }
            k += 1;
        }
        false
    }
}

/// What an account's tree store says of an item.
#[derive(Debug)]
pub enum StoreSays {
    /// No store is open: it says nothing.
    Nothing,
    /// It cannot be read.
    Unreadable,
    /// Whether it knows the item, and the drive it is of.
    Read { known: bool, drive: Option<String> },
}

/// Another account, and what its store says of an item.
#[derive(Debug)]
pub struct Other {
    pub account: u64,
    pub store: StoreSays,
}

/// The drive an item id names: what stands before its first `!`.
pub open spec fn drive_of(id: Seq<char>) -> Option<Seq<char>> {
    let at = crate::baloo::first_at(id, '!', 0);
    if at < id.len() {
        Some(id.subrange(0, at))
    } else {
        None
    }
}

/// The store's account claims the item `id`: it cannot be read, it knows the
/// item, or the drive the id names is its own, however it is spelled.
pub open spec fn store_claims(s: StoreSays, id: Seq<char>) -> bool {
    match s {
        StoreSays::Nothing => false,
        StoreSays::Unreadable => true,
        StoreSays::Read { known, drive } => known || (match (drive_of(id), drive) {
            (Some(named), Some(own)) => upper(own@) == upper(named),
            _ => false,
        }),
    }
}

/// An account other than `me` claims item `id`.
pub open spec fn claimed(all: Seq<MovedOutModel>, others: Seq<Other>, me: u64, id: Seq<char>) -> bool {
    moved_elsewhere(all, me, id) || exists|k: int|
        0 <= k < others.len() && (#[trigger] others[k]).account != me && store_claims(
            others[k].store,
            id,
        )
}

fn drive_part(id: &Vec<char>) -> (r: Option<Vec<char>>)
    ensures
        match r {
            Some(d) => drive_of(id@) == Some(d@),
            None => drive_of(id@) is None,
        },
{
    let mut at: usize = 0;
    let mut out: Vec<char> = Vec::new();
    while at < id.len()
        invariant
            at <= id@.len(),
            crate::baloo::first_at(id@, '!', 0) == crate::baloo::first_at(id@, '!', at as int),
            out@ == id@.subrange(0, at as int),
        decreases id@.len() - at,
    {
        if id[at] == '!' {
            return Some(out);
        }
        out.push(id[at]);
        at += 1;
        assert(out@ =~= id@.subrange(0, at as int));
    }
    None
}

fn claims(s: &StoreSays, id: &Vec<char>) -> (r: bool)
    ensures
        r == store_claims(*s, id@),
{
    match s {
        StoreSays::Nothing => false,
        StoreSays::Unreadable => true,
        StoreSays::Read { known, drive } => {
            if *known {
                return true;
            }
            match (drive_part(id), drive) {
                (Some(named), Some(own)) => {
                    let a = to_upper(&chars_of(own.as_str()));
                    let b = to_upper(&named);
                    same_chars(&a, &b)
                },
                _ => false,
            }
        },
    }
}

impl MovedOuts {
    /// Whether an account other than `me` claims item `id`: its outbox waits
    /// to fetch it wherever it is, its tree store knows it, or the drive the id
    /// names is that account's. A store that cannot be read claims it; an
    /// account with none open says nothing.
    pub fn claimed_elsewhere(&self, others: &Vec<Other>, me: u64, id: &str) -> (r: bool)
        ensures
            r == claimed(self@, others@, me, id@),
    {
        if self.elsewhere(me, id) {
            return true;
        }
        let chars = chars_of(id);
        let mut k: usize = 0;
        while k < others.len()
            invariant
                chars@ == id@,
                k <= others@.len(),
                forall|j: int|
                    0 <= j < k ==> !((#[trigger] others@[j]).account != me && store_claims(
                        others@[j].store,
                        id@,
                    )),
            decreases others@.len() - k,
        {
            if others[k].account != me && claims(&others[k].store, &chars) {
                return true;
            }
            k += 1;
        }
        false
    }
}

/// An account, as routing sees it.
#[derive(Debug, Clone, Copy, PartialEq, Eq, Structural)]
pub struct Placed {
    pub account: u64,
    /// The filesystem its folder is on, as it was when registered.
    pub device: Option<u64>,
    /// It has a folder whose filesystem is not known.
    pub unplaced: bool,
}

/// The accounts among the first `n` whose folder is on `device`.
pub open spec fn on_device(accounts: Seq<Placed>, device: u64, n: int) -> Seq<u64>
    decreases n,
{
    if n <= 0 {
        Seq::empty()
    } else {
        let before = on_device(accounts, device, n - 1);
        if accounts[n - 1].device == Some(device) {
            before.push(accounts[n - 1].account)
        } else {
            before
        }
    }
}

/// Some account has a folder whose filesystem is not known: it could be the
/// file's.
pub open spec fn any_unplaced(accounts: Seq<Placed>) -> bool {
    exists|k: int| 0 <= k < accounts.len() && (#[trigger] accounts[k]).unplaced
}

/// Where a request to fill a file goes.
pub enum Route {
    /// To this account.
    To(u64),
    /// To nobody: routing never guesses.
    Nobody,
    /// To one of these, in their order: the first that is verified.
    Verify(Vec<u64>),
}

#[verifier::ext_equal]
pub enum RouteModel {
    To(u64),
    Nobody,
    Verify(Seq<u64>),
}

impl View for Route {
    type V = RouteModel;

    open spec fn view(&self) -> RouteModel {
        match self {
            Route::To(account) => RouteModel::To(*account),
            Route::Nobody => RouteModel::Nobody,
            Route::Verify(candidates) => RouteModel::Verify(candidates@),
        }
    }
}

/// Where a request for a file on `device` goes, `moved` being the account its
/// object left, if one did: to that account; else to the one account whose
/// folder is on the file's filesystem, unless another folder could be there
/// too; else to whichever candidate is verified.
pub open spec fn route_of(moved: Option<u64>, device: Option<u64>, accounts: Seq<Placed>) -> RouteModel {
    match (moved, device) {
        (Some(account), _) => RouteModel::To(account),
        (None, None) => RouteModel::Nobody,
        (None, Some(device)) => {
            let candidates = on_device(accounts, device, accounts.len() as int);
            if candidates.len() == 0 {
                RouteModel::Nobody
            } else if candidates.len() == 1 && !any_unplaced(accounts) {
                RouteModel::To(candidates[0])
            } else {
                RouteModel::Verify(candidates)
            }
        },
    }
}

/// Which account a file belongs to, as far as the filesystem it is on tells.
pub fn route(moved: Option<u64>, device: Option<u64>, accounts: &Vec<Placed>) -> (r: Route)
    ensures
        r@ == route_of(moved, device, accounts@),
{
    if let Some(account) = moved {
        return Route::To(account);
    }
    let device = match device {
        Some(device) => device,
        None => return Route::Nobody,
    };
    let mut candidates: Vec<u64> = Vec::new();
    let mut unplaced = false;
    let mut k: usize = 0;
    while k < accounts.len()
        invariant
            k <= accounts@.len(),
            candidates@ == on_device(accounts@, device, k as int),
            unplaced == exists|j: int| 0 <= j < k && (#[trigger] accounts@[j]).unplaced,
        decreases accounts@.len() - k,
    {
        if accounts[k].device == Some(device) {
            candidates.push(accounts[k].account);
        }
        if accounts[k].unplaced {
            unplaced = true;
        }
        k += 1;
    }
    if candidates.len() == 0 {
        Route::Nobody
    } else if candidates.len() == 1 && !unplaced {
        Route::To(candidates[0])
    } else {
        Route::Verify(candidates)
    }
}

/// The name of a file the kernel shows at `shown`, beneath the folder at `root`:
/// nothing for the folder itself, or a file elsewhere.
pub open spec fn name_beneath(shown: Seq<u8>, root: Seq<u8>) -> Option<PathModel> {
    if path_begins(shown, root) && parts_of(shown).len() > parts_of(root).len() {
        Some(parts_of(shown).subrange(parts_of(root).len() as int, parts_of(shown).len() as int))
    } else {
        None
    }
}

/// The name to open beneath the folder at `root`, to see whether it is the file
/// the kernel shows at `shown`: the same inode there proves it.
pub fn beneath_root(shown: &AbsPath, root: &AbsPath) -> (r: Option<RelPath>)
    ensures
        r.deep_view() == name_beneath(shown@, root@),
{
    if !begins_path(&shown.raw, &root.raw) {
        return None;
    }
    let p = split(&shown.raw);
    let q = split(&root.raw);
    if p.parts.len() <= q.parts.len() {
        return None;
    }
    proof {
        lemma_begins_parts(shown@, root@);
    }
    p.after(&q)
}

/// The candidate that is verified: the first whose folder holds the file under
/// the name the kernel has for it (`by_path`), and else the first whose tree
/// store knows its item id (`by_id`).
pub open spec fn verified_of(candidates: Seq<u64>, by_path: Seq<bool>, by_id: Seq<bool>) -> Option<u64> {
    match first_true(by_path, 0) {
        Some(k) => Some(candidates[k]),
        None => match first_true(by_id, 0) {
            Some(k) => Some(candidates[k]),
            None => None,
        },
    }
}

/// The number of the first that holds, from `k` on.
pub open spec fn first_true(s: Seq<bool>, k: int) -> Option<int>
    decreases s.len() - k,
{
    if k >= s.len() {
        None
    } else if s[k] {
        Some(k)
    } else {
        first_true(s, k + 1)
    }
}

proof fn lemma_first_true(s: Seq<bool>, k: int)
    requires
        0 <= k,
    ensures
        first_true(s, k) matches Some(m) ==> k <= m < s.len() && s[m],
        first_true(s, k) is None ==> forall|j: int| k <= j < s.len() ==> !s[j],
    decreases s.len() - k,
{
    if k < s.len() && !s[k] {
        lemma_first_true(s, k + 1);
    }
}

fn first(s: &Vec<bool>) -> (r: Option<usize>)
    ensures
        match r {
            Some(k) => first_true(s@, 0) == Some(k as int) && k < s@.len(),
            None => first_true(s@, 0) is None,
        },
{
    let mut k: usize = 0;
    while k < s.len()
        invariant
            k <= s@.len(),
            first_true(s@, 0) == first_true(s@, k as int),
        decreases s@.len() - k,
    {
        if s[k] {
            return Some(k);
        }
        k += 1;
    }
    None
}

/// The candidate that is verified, by its folder or by its tree store.
pub fn verified(candidates: &Vec<u64>, by_path: &Vec<bool>, by_id: &Vec<bool>) -> (r: Option<u64>)
    requires
        by_path@.len() == candidates@.len(),
        by_id@.len() == candidates@.len(),
    ensures
        r == verified_of(candidates@, by_path@, by_id@),
{
    match first(by_path) {
        Some(k) => Some(candidates[k]),
        None => match first(by_id) {
            Some(k) => Some(candidates[k]),
            None => None,
        },
    }
}

/// Routing never guesses: a file nothing verifies is no one's, and one that is
/// routed is, by its item id, its filesystem alone, its name proved by its
/// inode, or a tree store that knows it.
pub proof fn law_routing_never_guesses(candidates: Seq<u64>, by_path: Seq<bool>, by_id: Seq<bool>)
    requires
        by_path.len() == candidates.len(),
        by_id.len() == candidates.len(),
    ensures
        (forall|k: int| 0 <= k < candidates.len() ==> !by_path[k] && !by_id[k]) ==> verified_of(
            candidates,
            by_path,
            by_id,
        ) is None,
        verified_of(candidates, by_path, by_id) matches Some(account) ==> exists|k: int|
            0 <= k < candidates.len() && #[trigger] candidates[k] == account && (by_path[k]
                || by_id[k]),
{
    lemma_first_true(by_path, 0);
    lemma_first_true(by_id, 0);
}

/// An object that left an account's folder is that account's, whatever folder
/// it is in now, as long as the account is there, and is routed like any other
/// when it is not; and one candidate is taken on trust only while every folder's
/// filesystem is known.
pub proof fn law_a_moved_out_object_is_its_accounts(
    all: Seq<MovedOutModel>,
    account: u64,
    ids: Seq<Seq<char>>,
    alive: Seq<u64>,
    id: Seq<char>,
    device: Option<u64>,
    accounts: Seq<Placed>,
)
    requires
        ids.contains(id),
        forall|k: int| 0 <= k < all.len() ==> all[k].account == account || !(#[trigger] all[k]).ids.contains(id),
    ensures
        alive.contains(account) ==> live_mover(moved_out_set(all, account, ids, alive), id, alive)
            == Some(account) && route_of(Some(account), device, accounts) == RouteModel::To(account),
        !alive.contains(account) ==> live_mover(moved_out_set(all, account, ids, alive), id, alive)
            is None,
        any_unplaced(accounts) ==> !(route_of(None, device, accounts) is To),
{
    lemma_kept(all, account, alive, all.len() as int);
    let kept = kept_of(all, account, alive, all.len() as int);
    let now = moved_out_set(all, account, ids, alive);
    assert forall|k: int| 0 <= k < kept.len() implies !(#[trigger] now[k]).ids.contains(id) by {
        assert(now[k] == kept[k]);
        assert(all.contains(kept[k]) && kept[k].account != account);
        let j = choose|j: int| 0 <= j < all.len() && all[j] == kept[k];
        assert(!all[j].ids.contains(id));
    }
    lemma_mover(now, id, 0, kept.len() as int);
}

proof fn lemma_kept(all: Seq<MovedOutModel>, account: u64, alive: Seq<u64>, n: int)
    requires
        0 <= n <= all.len(),
    ensures
        forall|k: int|
            0 <= k < kept_of(all, account, alive, n).len() ==> all.contains(
                #[trigger] kept_of(all, account, alive, n)[k],
            ) && kept_of(all, account, alive, n)[k].account != account,
    decreases n,
{
    if n > 0 {
        lemma_kept(all, account, alive, n - 1);
        let before = kept_of(all, account, alive, n - 1);
        let now = kept_of(all, account, alive, n);
        assert(all.contains(all[n - 1]));
        assert forall|k: int| 0 <= k < now.len() implies all.contains(#[trigger] now[k])
            && now[k].account != account by {
            if k < before.len() {
                assert(now[k] == before[k]);
            }
        }
    }
}

proof fn lemma_mover(all: Seq<MovedOutModel>, id: Seq<char>, k: int, m: int)
    requires
        0 <= k <= m < all.len(),
        forall|j: int| k <= j < m ==> !(#[trigger] all[j]).ids.contains(id),
        all[m].ids.contains(id),
    ensures
        mover_of(all, id, k) == Some(all[m].account),
    decreases m - k,
{
    if k < m {
        assert(!all[k].ids.contains(id));
        lemma_mover(all, id, k + 1, m);
    }
}

/// A folder of another account.
#[derive(Debug)]
pub struct Folder {
    /// The account's label.
    pub label: String,
    pub path: AbsPath,
    /// The directory itself, by its filesystem and number, when it can be
    /// looked at.
    pub identity: Option<(u64, u64)>,
}

/// The folder nests with the one at `resolved`: is it, is inside it or contains
/// it, by whole components, or is the same directory reached another way.
pub open spec fn nests(f: Folder, resolved: Seq<u8>, here: Option<(u64, u64)>) -> bool {
    path_begins(resolved, f.path@) || path_begins(f.path@, resolved) || (here is Some && f.identity
        == here)
}

/// The label of the first folder from `k` on that nests.
pub open spec fn overlap_of(folders: Seq<Folder>, resolved: Seq<u8>, here: Option<(u64, u64)>, k: int) -> Option<
    Seq<char>,
>
    decreases folders.len() - k,
{
    if k >= folders.len() {
        None
    } else if nests(folders[k], resolved, here) {
        Some(folders[k].label@)
    } else {
        overlap_of(folders, resolved, here, k + 1)
    }
}

/// The label of another account whose folder the one at `resolved` is, is
/// inside, or contains; `folders` are those of the other accounts.
pub fn overlapping(folders: &Vec<Folder>, resolved: &AbsPath, here: Option<(u64, u64)>) -> (r: Option<String>)
    ensures
        r.deep_view() == overlap_of(folders@, resolved@, here, 0),
{
    let mut k: usize = 0;
    while k < folders.len()
        invariant
            k <= folders@.len(),
            overlap_of(folders@, resolved@, here, 0) == overlap_of(
                folders@,
                resolved@,
                here,
                k as int,
            ),
        decreases folders@.len() - k,
    {
        let same = match (here, folders[k].identity) {
            (Some((dev, ino)), Some((d, i))) => dev == d && ino == i,
            _ => false,
        };
        if begins_path(&resolved.raw, &folders[k].path.raw) || begins_path(
            &folders[k].path.raw,
            &resolved.raw,
        ) || same {
            return Some(folders[k].label.clone());
        }
        k += 1;
    }
    None
}

/// How the helper stands, as it is published to every account.
pub struct HelperHub {
    pub linked: bool,
    pub state: HelperState,
}

/// What is published of the helper: a link wins over what else was found.
pub open spec fn published_state(linked: bool, found: HelperState) -> HelperState {
    if linked {
        HelperState::Connected
    } else {
        found
    }
}

impl HelperHub {
    pub fn new() -> (r: Self)
        ensures
            !r.linked,
            r.state == HelperState::Unknown,
    {
        HelperHub { linked: false, state: HelperState::Unknown }
    }

    /// A new link, or its loss: `connected` at once, or `unknown` until systemd
    /// has been asked. Whether what is published changes.
    pub fn set_link(&mut self, linked: bool) -> (changed: bool)
        ensures
            final(self).linked == linked,
            final(self).state == if linked {
                HelperState::Connected
            } else {
                HelperState::Unknown
            },
            final(self).state == published_state(linked, HelperState::Unknown),
            changed == (final(self).state != old(self).state),
    {
        let now = if linked {
            HelperState::Connected
        } else {
            HelperState::Unknown
        };
        let changed = self.state != now;
        self.linked = linked;
        self.state = now;
        changed
    }

    /// What systemd said, in `found`: a link that came up while it was asked
    /// wins. Whether what is published changes.
    pub fn check(&mut self, found: HelperState) -> (changed: bool)
        ensures
            final(self).linked == old(self).linked,
            final(self).state == if old(self).linked {
                HelperState::Connected
            } else {
                found
            },
            final(self).state == published_state(old(self).linked, found),
            changed == (final(self).state != old(self).state),
    {
        let now = if self.linked {
            HelperState::Connected
        } else {
            found
        };
        let changed = self.state != now;
        self.state = now;
        changed
    }
}

/// How long to wait before the helper is tried again.
pub struct Backoff {
    pub first: u64,
    pub most: u64,
    pub wait: u64,
}

/// Twice the wait, up to the longest.
pub open spec fn doubled(wait: u64, most: u64) -> u64 {
    if 2 * wait <= most {
        (2 * wait) as u64
    } else {
        most
    }
}

/// How long to wait after a try that connected, or did not, and what is kept
/// for the next.
pub open spec fn waiting(b: Backoff, connected: bool) -> (Backoff, u64) {
    let wait = if connected {
        b.first
    } else {
        b.wait
    };
    (Backoff { wait: doubled(wait, b.most), ..b }, wait)
}

impl Backoff {
    /// The first delay, and the longest.
    pub fn new(first: u64, most: u64) -> (r: Self)
        ensures
            r == (Backoff { first, most, wait: first }),
    {
        Backoff { first, most, wait: first }
    }

    /// A connection was made, or not; how long to wait before the next try.
    pub fn tried(&mut self, connected: bool) -> (wait: u64)
        ensures
            wait == if connected {
                old(self).first
            } else {
                old(self).wait
            },
            *final(self) == (Backoff { wait: doubled(wait, old(self).most), ..*old(self) }),
            (*final(self), wait) == waiting(*old(self), connected),
    {
        if connected {
            self.wait = self.first;
        }
        let wait = self.wait;
        self.wait = if wait <= self.most / 2 {
            2 * wait
        } else {
            self.most
        };
        wait
    }
}

/// However often the helper cannot be reached, the wait never grows beyond the
/// longest; and it never falls while it cannot be reached.
pub proof fn law_the_backoff_is_bounded(wait: u64, most: u64)
    ensures
        doubled(wait, most) <= most,
        wait <= most ==> wait <= doubled(wait, most),
{
}

} // verus!
