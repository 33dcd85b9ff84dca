//! What holds of every path.

use vstd::prelude::*;
use crate::path::{
    deleted_mark, dir_of, is_beneath, is_sure, joined, lead_of, name_of, parent_of, parts_from,
    parts_of, path_begins, piece, starts_with, PathModel,
};

verus! {

/// `name` can be one component of a path: not empty, not `.`, and no slash in
/// it.
pub open spec fn is_component(name: Seq<u8>) -> bool {
    name.len() > 0 && name != seq![46u8] && !name.contains(47)
}

/// `p` is `dir` or beneath it where more components, or none, make `p` of `dir`;
/// it is beneath it where there is at least one; and a path is its directory and
/// its name.
pub proof fn law_a_path_is_its_directory_and_its_name(p: PathModel, dir: PathModel, rest: PathModel)
    ensures
        starts_with(dir + rest, dir),
        is_beneath(dir + rest, dir) <==> rest.len() > 0,
        starts_with(p, dir) ==> exists|more: PathModel| p == dir + more,
        is_beneath(p, dir) ==> starts_with(p, dir) && p != dir,
        p.len() == 0 ==> parent_of(p) is None && name_of(p) is None && dir_of(p) == p,
        p.len() > 0 ==> parent_of(p) == Some(dir_of(p)) && (name_of(p) matches Some(name) && dir_of(
            p,
        ).push(name) == p),
{
    assert((dir + rest).subrange(0, dir.len() as int) =~= dir);
    if starts_with(p, dir) {
        let more = p.subrange(dir.len() as int, p.len() as int);
        assert forall|i: int| 0 <= i < dir.len() implies p[i] == dir[i] by {
            assert(p.subrange(0, dir.len() as int)[i] == dir[i]);
        }
        assert(p =~= dir + more);
    }
    if p.len() > 0 {
        assert(p.drop_last().push(p.last()) =~= p);
    }
}

proof fn lemma_parts_of_two(a: Seq<u8>, b: Seq<u8>, i: int, open: Seq<u8>)
    requires
        0 <= i <= a.len(),
    ensures
        parts_from(a.push(47) + b, i, open) == parts_from(a, i, open) + parts_of(b),
    decreases a.len() - i,
{
    let whole = a.push(47) + b;
    if i == a.len() {
        assert(whole[i] == 47);
        lemma_parts_after(a.push(47), b, i + 1, Seq::empty());
    } else {
        assert(whole[i] == a[i]);
        if a[i] == 47 {
            lemma_parts_of_two(a, b, i + 1, Seq::empty());
            assert(piece(open) + (parts_from(a, i + 1, Seq::empty()) + parts_of(b)) =~= (piece(open)
                + parts_from(a, i + 1, Seq::empty())) + parts_of(b));
        } else {
            lemma_parts_of_two(a, b, i + 1, open.push(a[i]));
        }
    }
}

proof fn lemma_parts_after(a: Seq<u8>, b: Seq<u8>, i: int, open: Seq<u8>)
    requires
        a.len() <= i <= a.len() + b.len(),
    ensures
        parts_from(a + b, i, open) == parts_from(b, i - a.len(), open),
    decreases a.len() + b.len() - i,
{
    if i < a.len() + b.len() {
        assert((a + b)[i] == b[i - a.len()]);
        lemma_parts_after(a, b, i + 1, Seq::empty());
        lemma_parts_after(a, b, i + 1, open.push(b[i - a.len()]));
    }
}

proof fn lemma_one_part(name: Seq<u8>, i: int)
    requires
        is_component(name),
        0 <= i <= name.len(),
    ensures
        parts_from(name, i, name.subrange(0, i)) == seq![name],
    decreases name.len() - i,
{
    if i < name.len() {
        assert(name.contains(name[i]));
        assert(name.subrange(0, i).push(name[i]) =~= name.subrange(0, i + 1));
        lemma_one_part(name, i + 1);
    } else {
        assert(name.subrange(0, i) =~= name);
    }
}

proof fn lemma_the_part(name: Seq<u8>)
    requires
        is_component(name),
    ensures
        parts_of(name) == seq![name],
{
    assert(name.subrange(0, 0) =~= Seq::<u8>::empty());
    lemma_one_part(name, 0);
}

/// Writing a path and reading it gives it back: the components of what is written
/// for `rel` inside `root` are those of `root` and then those of `rel`, and what
/// is written begins with `root`.
pub proof fn law_what_is_written_is_read_back(root: Seq<u8>, rel: PathModel)
    requires
        root.len() > 0,
        root[0] == 47,
        forall|k: int| 0 <= k < rel.len() ==> is_component(#[trigger] rel[k]),
    ensures
        parts_of(joined(root, rel)) == parts_of(root) + rel,
        joined(root, rel).len() >= root.len(),
        joined(root, rel).subrange(0, root.len() as int) == root,
        path_begins(joined(root, rel), root),
    decreases rel.len(),
{
    if rel.len() == 0 {
        assert(parts_of(root) + rel =~= parts_of(root));
        assert(root.subrange(0, root.len() as int) =~= root);
    } else {
        let up = rel.drop_last();
        assert forall|k: int| 0 <= k < up.len() implies is_component(#[trigger] up[k]) by {
            assert(up[k] == rel[k]);
        }
        assert(is_component(rel[rel.len() - 1]));
        law_what_is_written_is_read_back(root, up);
        let before = joined(root, up);
        let name = rel.last();
        lemma_the_part(name);
        if before.last() != 47 {
            lemma_parts_of_two(before, name, 0, Seq::empty());
        } else {
            let c = before.drop_last();
            assert(c.push(47) =~= before);
            lemma_parts_of_two(c, name, 0, Seq::empty());
            lemma_parts_of_two(c, Seq::empty(), 0, Seq::empty());
            assert(c.push(47) + Seq::<u8>::empty() =~= before);
            assert(parts_of(Seq::<u8>::empty()) =~= Seq::<Seq<u8>>::empty());
            assert(parts_of(c) + Seq::<Seq<u8>>::empty() =~= parts_of(c));
        }
        let whole = joined(root, rel);
        assert((parts_of(root) + up) + seq![name] =~= parts_of(root) + rel);
        assert forall|k: int| 0 <= k < root.len() implies whole[k] == root[k] by {
            assert(before.subrange(0, root.len() as int)[k] == root[k]);
        }
        assert(whole.subrange(0, root.len() as int) =~= root);
    }
    let whole = joined(root, rel);
    assert(whole[0] == whole.subrange(0, root.len() as int)[0]);
    assert(lead_of(whole) == lead_of(root));
    let start = lead_of(root) + parts_of(root);
    assert((lead_of(whole) + parts_of(whole)).subrange(0, start.len() as int) =~= start);
}

/// How a path is written makes no difference to what it is: more slashes part
/// components as one does, and `.` is none.
pub proof fn law_slashes_and_dots_make_no_components(a: Seq<u8>, b: Seq<u8>)
    ensures
        parts_of(a.push(47) + b) == parts_of(a) + parts_of(b),
        parts_of(seq![46u8]).len() == 0,
        parts_of(Seq::<u8>::empty()).len() == 0,
        parts_of(a.push(47)) == parts_of(a),
{
    lemma_parts_of_two(a, b, 0, Seq::empty());
    lemma_parts_of_two(a, Seq::empty(), 0, Seq::empty());
    assert(a.push(47) + Seq::<u8>::empty() =~= a.push(47));
    assert(parts_of(Seq::<u8>::empty()) =~= Seq::<Seq<u8>>::empty());
    assert(parts_of(a) + Seq::<Seq<u8>>::empty() =~= parts_of(a));
    reveal_with_fuel(parts_from, 3);
    assert(Seq::<u8>::empty().push(46u8) =~= seq![46u8]);
}

/// A path tells where an object is when it is absolute, has no `..`, and does not
/// end as the kernel ends the path of an unlinked object; each of these alone is
/// enough for it not to.
pub proof fn law_which_paths_are_sure(raw: Seq<u8>, name: Seq<u8>)
    ensures
        raw.len() == 0 || raw[0] != 47 ==> !is_sure(raw),
        parts_of(raw).contains(seq![46u8, 46u8]) ==> !is_sure(raw),
        !is_sure(
            name + seq![32u8, 40u8, 100u8, 101u8, 108u8, 101u8, 116u8, 101u8, 100u8, 41u8],
        ),
        raw.len() > 0 && raw[0] == 47 && raw[raw.len() - 1] != 41 && !parts_of(raw).contains(
            seq![46u8, 46u8],
        ) ==> is_sure(raw),
        raw.len() > 9 && raw[0] == 47 && raw[raw.len() - 10] != 32 && !parts_of(raw).contains(
            seq![46u8, 46u8],
        ) ==> is_sure(raw),
{
    let mark = seq![32u8, 40u8, 100u8, 101u8, 108u8, 101u8, 116u8, 101u8, 100u8, 41u8];
    let whole = name + mark;
    assert(whole.subrange(whole.len() - 10, whole.len() as int) =~= mark);
    if raw.len() >= 10 {
        let end = raw.subrange(raw.len() - 10, raw.len() as int);
        assert(end[9] == raw[raw.len() - 1]);
        assert(end[0] == raw[raw.len() - 10]);
        assert(deleted_mark()[9] == 41 && deleted_mark()[0] == 32);
    }
}

} // verus!
