//! What holds of every file that is routed, and of the link to the helper.

use vstd::prelude::*;
use crate::baloo::first_at;
use crate::helper_status::HelperState;
use crate::hub::{
    Backoff, published_state, waiting, claimed, doubled, first_true, kept_of, live_mover,
    moved_out_set, mover_of, name_beneath, nests, on_device, overlap_of, route_of, store_claims,
    verified_of, Folder, MovedOutModel, Other, Placed, RouteModel, StoreSays,
};
use crate::path::{lemma_begins_parts, lead_of, parts_of, path_begins, starts_with};
use crate::text::{upper, upper_char};

verus! {

proof fn lemma_kept_of(all: Seq<MovedOutModel>, account: u64, alive: Seq<u64>, n: int, e: MovedOutModel)
    requires
        0 <= n <= all.len(),
    ensures
        kept_of(all, account, alive, n).contains(e) <==> e.account != account && alive.contains(
            e.account,
        ) && exists|k: int| 0 <= k < n && #[trigger] all[k] == e,
    decreases n,
{
    if n > 0 {
        lemma_kept_of(all, account, alive, n - 1, e);
        let before = kept_of(all, account, alive, n - 1);
        vstd::seq_lib::lemma_seq_contains_after_push(before, all[n - 1], e);
        if exists|k: int| 0 <= k < n && #[trigger] all[k] == e {
            let k = choose|k: int| 0 <= k < n && #[trigger] all[k] == e;
            assert(k < n - 1 || e == all[n - 1]);
        }
    }
}

/// What an account says left its folder replaces what it said before, keeps what
/// every other account that is there said, and forgets those that went.
pub proof fn law_an_account_speaks_for_itself(
    all: Seq<MovedOutModel>,
    account: u64,
    ids: Seq<Seq<char>>,
    alive: Seq<u64>,
    e: MovedOutModel,
)
    ensures
        moved_out_set(all, account, ids, alive).contains(e) <==> (e == MovedOutModel { account, ids }
            && ids.len() > 0) || (e.account != account && alive.contains(e.account) && all.contains(e)),
{
    lemma_kept_of(all, account, alive, all.len() as int, e);
    let kept = kept_of(all, account, alive, all.len() as int);
    vstd::seq_lib::lemma_seq_contains_after_push(kept, MovedOutModel { account, ids }, e);
    if all.contains(e) {
        let k = choose|k: int| 0 <= k < all.len() && all[k] == e;
        assert(all[k] == e);
    }
}

proof fn lemma_mover_of(all: Seq<MovedOutModel>, id: Seq<char>, k: int)
    requires
        0 <= k,
    ensures
        match mover_of(all, id, k) {
            Some(account) => exists|m: int|
                k <= m < all.len() && #[trigger] all[m].ids.contains(id) && all[m].account == account
                    && forall|j: int| k <= j < m ==> !(#[trigger] all[j]).ids.contains(id),
            None => forall|j: int| k <= j < all.len() ==> !(#[trigger] all[j]).ids.contains(id),
        },
    decreases all.len() - k,
{
    if k < all.len() {
        if all[k].ids.contains(id) {
            assert(all[k].ids.contains(id));
        } else {
            lemma_mover_of(all, id, k + 1);
        }
    }
}

/// A moved-out object is of the account that is the first to name it, while that
/// account is there, and else of nobody.
pub proof fn law_who_an_object_left(all: Seq<MovedOutModel>, id: Seq<char>, alive: Seq<u64>, m: int)
    ensures
        0 <= m < all.len() && all[m].ids.contains(id) && (forall|j: int|
            0 <= j < m ==> !(#[trigger] all[j]).ids.contains(id)) ==> live_mover(all, id, alive) == if alive.contains(
            all[m].account,
        ) {
            Some(all[m].account)
        } else {
            None
        },
        (forall|j: int| 0 <= j < all.len() ==> !(#[trigger] all[j]).ids.contains(id)) ==> live_mover(
            all,
            id,
            alive,
        ) is None,
{
    lemma_mover_of(all, id, 0);
}

proof fn lemma_first_at(s: Seq<char>, c: char, i: int)
    requires
        0 <= i <= s.len(),
    ensures
        i <= first_at(s, c, i) <= s.len(),
        first_at(s, c, i) < s.len() ==> s[first_at(s, c, i)] == c,
        forall|j: int| i <= j < first_at(s, c, i) ==> s[j] != c,
    decreases s.len() - i,
{
    if i < s.len() && s[i] != c {
        lemma_first_at(s, c, i + 1);
    }
}

/// The two spell the same, but for the case of ASCII letters.
pub open spec fn spell_the_same(a: Seq<char>, b: Seq<char>) -> bool {
    a.len() == b.len() && forall|i: int| 0 <= i < a.len() ==> #[trigger] same_letter(a[i], b[i])
}

/// The two characters are the same, but for the case of an ASCII letter.
pub open spec fn same_letter(a: char, b: char) -> bool {
    ||| a == b
    ||| 'a' <= a && a <= 'z' && b as int == a as int - 32
    ||| 'a' <= b && b <= 'z' && a as int == b as int - 32
}

proof fn lemma_upper(a: Seq<char>, b: Seq<char>)
    ensures
        upper(a) == upper(b) <==> spell_the_same(a, b),
{
    if upper(a) == upper(b) {
        assert(upper(a).len() == a.len() && upper(b).len() == b.len());
        assert forall|i: int| 0 <= i < a.len() implies #[trigger] same_letter(a[i], b[i]) by {
            assert(upper(a)[i] == upper_char(a[i]));
            assert(upper(b)[i] == upper_char(b[i]));
        }
    }
    if spell_the_same(a, b) {
        assert forall|i: int| 0 <= i < a.len() implies upper(a)[i] == upper(b)[i] by {
            assert(same_letter(a[i], b[i]));
        }
        assert(upper(a) =~= upper(b));
    }
}

/// Which store claims an item it does not know: the one of the drive that the
/// item's id names before its first `!`, however that is spelled; one that cannot
/// be read claims every item, one that is not open none.
pub proof fn law_which_store_claims_an_item(id: Seq<char>, at: int, known: bool, own: String)
    ensures
        store_claims(StoreSays::Unreadable, id),
        !store_claims(StoreSays::Nothing, id),
        store_claims(StoreSays::Read { known: true, drive: Some(own) }, id),
        store_claims(StoreSays::Read { known: true, drive: None }, id),
        !store_claims(StoreSays::Read { known: false, drive: None }, id),
        0 <= at < id.len() && id[at] == '!' && (forall|j: int| 0 <= j < at ==> id[j] != '!') ==> (
        store_claims(StoreSays::Read { known: false, drive: Some(own) }, id) <==> spell_the_same(
            own@,
            id.subrange(0, at),
        )),
        !id.contains('!') ==> !store_claims(
            StoreSays::Read { known: false, drive: Some(own) },
            id,
        ),
{
    lemma_first_at(id, '!', 0);
    let first = first_at(id, '!', 0);
    if 0 <= at < id.len() && id[at] == '!' && (forall|j: int| 0 <= j < at ==> id[j] != '!') {
        assert(first == at) by {
            if first < at {
                assert(id[first] != '!');
            }
        }
        lemma_upper(own@, id.subrange(0, at));
    }
    if first < id.len() {
        assert(id.contains(id[first]));
    }
}

/// Another account claims an item when it waits to fetch it or its store claims
/// it; what the account itself says makes no difference.
pub proof fn law_only_others_claim_elsewhere(
    all: Seq<MovedOutModel>,
    others: Seq<Other>,
    me: u64,
    id: Seq<char>,
    k: int,
)
    ensures
        0 <= k < all.len() && all[k].account != me && all[k].ids.contains(id) ==> claimed(
            all,
            others,
            me,
            id,
        ),
        0 <= k < others.len() && others[k].account != me && store_claims(others[k].store, id)
            ==> claimed(all, others, me, id),
        (forall|j: int| 0 <= j < all.len() ==> (#[trigger] all[j]).account == me) && (forall|j: int|
            0 <= j < others.len() ==> (#[trigger] others[j]).account == me) ==> !claimed(
            all,
            others,
            me,
            id,
        ),
{
}

proof fn lemma_on_device(accounts: Seq<Placed>, device: u64, n: int, a: u64)
    requires
        0 <= n <= accounts.len(),
    ensures
        on_device(accounts, device, n).contains(a) <==> exists|k: int|
            0 <= k < n && #[trigger] accounts[k].account == a && accounts[k].device == Some(device),
        on_device(accounts, device, n).len() <= n,
    decreases n,
{
    if n > 0 {
        lemma_on_device(accounts, device, n - 1, a);
        let before = on_device(accounts, device, n - 1);
        vstd::seq_lib::lemma_seq_contains_after_push(before, accounts[n - 1].account, a);
        if exists|k: int|
            0 <= k < n && #[trigger] accounts[k].account == a && accounts[k].device == Some(device) {
            let k = choose|k: int|
                0 <= k < n && #[trigger] accounts[k].account == a && accounts[k].device == Some(device);
            if k < n - 1 {
                assert(accounts[k].account == a);
            }
        }
        if on_device(accounts, device, n).contains(a) && !before.contains(a) {
            assert(accounts[n - 1].account == a);
        }
    }
}

/// Where a request goes that no moved-out object answers: to an account only
/// where that one has its folder on the file's filesystem, and nobody's folder is
/// on one that is not known; to nobody exactly where no folder is there; and to be
/// verified among the accounts whose folders are there, all of them and no other.
pub proof fn law_where_a_request_goes(device: Option<u64>, accounts: Seq<Placed>, a: u64)
    ensures
        ({
            let there = exists|k: int|
                0 <= k < accounts.len() && #[trigger] accounts[k].account == a && device is Some
                    && accounts[k].device == device;
            match route_of(None, device, accounts) {
                RouteModel::To(to) => (there <==> a == to) && forall|k: int|
                    0 <= k < accounts.len() ==> !(#[trigger] accounts[k]).unplaced,
                RouteModel::Nobody => !there,
                RouteModel::Verify(candidates) => (there <==> candidates.contains(a))
                    && candidates.len() > 0 && (candidates.len() > 1 || exists|k: int|
                    0 <= k < accounts.len() && (#[trigger] accounts[k]).unplaced),
            }
        }),
        route_of(Some(a), device, accounts) == RouteModel::To(a),
{
    if let Some(device) = device {
        let candidates = on_device(accounts, device, accounts.len() as int);
        lemma_on_device(accounts, device, accounts.len() as int, a);
        if candidates.len() == 1 {
            assert(candidates.contains(a) <==> a == candidates[0]) by {
                assert(candidates.contains(candidates[0]));
            }
        }
    }
}

/// The name beneath a folder is what follows the folder's components in the
/// file's: put behind them, it gives them all; and there is none for the folder
/// itself.
pub proof fn law_a_name_beneath_a_folder(shown: Seq<u8>, root: Seq<u8>)
    ensures
        name_beneath(shown, root) matches Some(rel) ==> rel.len() > 0 && parts_of(shown) == parts_of(
            root,
        ) + rel,
        name_beneath(root, root) is None,
        name_beneath(shown, root) is None ==> !path_begins(shown, root) || parts_of(shown).len()
            <= parts_of(root).len(),
{
    if let Some(rel) = name_beneath(shown, root) {
        lemma_begins_parts(shown, root);
        let p = parts_of(shown);
        let q = parts_of(root);
        assert forall|i: int| 0 <= i < q.len() implies p[i] == q[i] by {
            assert(p.subrange(0, q.len() as int)[i] == q[i]);
        }
        assert(p =~= q + rel);
    }
}

proof fn lemma_first(s: Seq<bool>, k: int)
    requires
        0 <= k,
    ensures
        match first_true(s, k) {
            Some(m) => k <= m < s.len() && s[m] && forall|j: int| k <= j < m ==> !s[j],
            None => forall|j: int| k <= j < s.len() ==> !s[j],
        },
    decreases s.len() - k,
{
    if k < s.len() && !s[k] {
        lemma_first(s, k + 1);
    }
}

/// A name proved by its inode comes before any id that a store knows; and of
/// several that are proved the first is taken.
pub proof fn law_a_proved_name_comes_before_a_known_id(
    candidates: Seq<u64>,
    by_path: Seq<bool>,
    by_id: Seq<bool>,
    k: int,
)
    requires
        by_path.len() == candidates.len(),
        by_id.len() == candidates.len(),
        0 <= k < candidates.len(),
    ensures
        by_path[k] && (forall|j: int| 0 <= j < k ==> !by_path[j]) ==> verified_of(
            candidates,
            by_path,
            by_id,
        ) == Some(candidates[k]),
        (forall|j: int| 0 <= j < by_path.len() ==> !by_path[j]) && by_id[k] && (forall|j: int|
            0 <= j < k ==> !by_id[j]) ==> verified_of(candidates, by_path, by_id) == Some(candidates[k]),
{
    lemma_first(by_path, 0);
    lemma_first(by_id, 0);
}

proof fn lemma_overlap(folders: Seq<Folder>, resolved: Seq<u8>, here: Option<(u64, u64)>, k: int)
    requires
        0 <= k,
    ensures
        match overlap_of(folders, resolved, here, k) {
            Some(label) => exists|m: int|
                k <= m < folders.len() && nests(#[trigger] folders[m], resolved, here)
                    && folders[m].label@ == label && forall|j: int|
                    k <= j < m ==> !nests(#[trigger] folders[j], resolved, here),
            None => forall|j: int| k <= j < folders.len() ==> !nests(#[trigger] folders[j], resolved, here),
        },
    decreases folders.len() - k,
{
    if k < folders.len() {
        if nests(folders[k], resolved, here) {
            assert(nests(folders[k], resolved, here));
        } else {
            lemma_overlap(folders, resolved, here, k + 1);
        }
    }
}

/// A folder overlaps another where either one's components begin the other's, or
/// where both are the same directory; the first that does is named, and none is
/// only where none does.
pub proof fn law_which_folders_overlap(
    folders: Seq<Folder>,
    resolved: Seq<u8>,
    here: Option<(u64, u64)>,
    m: int,
)
    requires
        0 <= m < folders.len(),
    ensures
        ({
            let own = lead_of(resolved) + parts_of(resolved);
            let other = lead_of(folders[m].path@) + parts_of(folders[m].path@);
            let overlaps = starts_with(own, other) || starts_with(other, own) || (here is Some
                && folders[m].identity == here);
            &&& overlaps ==> overlap_of(folders, resolved, here, 0) is Some
            &&& overlaps && (forall|j: int|
                0 <= j < m ==> !nests(#[trigger] folders[j], resolved, here)) ==> overlap_of(
                folders,
                resolved,
                here,
                0,
            ) == Some(folders[m].label@)
            &&& folders.len() == 1 && !overlaps ==> overlap_of(folders, resolved, here, 0) is None
        }),
{
    lemma_overlap(folders, resolved, here, 0);
}

/// Each try that fails doubles the wait, up to the longest; a connection that was
/// made begins anew with the first.
pub proof fn law_the_wait_doubles(wait: u64, most: u64, b: Backoff)
    ensures
        waiting(b, true).1 == b.first,
        waiting(b, false).1 == b.wait,
        waiting(b, true) == waiting(Backoff { wait: b.first, ..b }, false),
        waiting(b, false).0.wait == doubled(b.wait, b.most),
        waiting(b, false).0.first == b.first && waiting(b, false).0.most == b.most,
        doubled(wait, most) == 2 * wait || doubled(wait, most) == most,
        wait <= most / 2 ==> doubled(wait, most) == 2 * wait,
        wait > most / 2 ==> doubled(wait, most) == most,
{
}

/// While there is a link the helper is connected, whatever systemd says; without
/// one it is as systemd says.
pub proof fn law_a_link_wins(found: HelperState)
    ensures
        published_state(true, found) == HelperState::Connected,
        published_state(false, found) == found,
{
}

} // verus!
