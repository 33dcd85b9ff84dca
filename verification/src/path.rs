//! Names and paths, as bytes: Linux allows any but `/` and NUL.

pub mod laws;

use vstd::prelude::*;

verus! {

/// A path's components.
pub type PathModel = Seq<Seq<u8>>;

/// The first `k` elements of `a` and `b` are the same.
pub open spec fn agree<T>(a: Seq<T>, b: Seq<T>, k: int) -> bool {
    &&& 0 <= k <= a.len()
    &&& k <= b.len()
    &&& forall|j: int| 0 <= j < k ==> a[j] == b[j]
}

/// `a` sorts before `b`: bytes, lexicographically.
pub open spec fn bytes_lt(a: Seq<u8>, b: Seq<u8>) -> bool {
    exists|k: int|
        #[trigger] agree(a, b, k) && k < b.len() && (k == a.len() || a[k] < b[k])
}

/// `a` sorts before `b`: component by component.
pub open spec fn path_lt(a: Seq<Seq<u8>>, b: Seq<Seq<u8>>) -> bool {
    exists|k: int|
        #[trigger] agree(a, b, k) && k < b.len() && (k == a.len() || bytes_lt(a[k], b[k]))
}

pub proof fn lemma_bytes_lt_irreflexive(a: Seq<u8>)
    ensures
        !bytes_lt(a, a),
{
    if bytes_lt(a, a) {
        let k = choose|k: int|
            #[trigger] agree(a, a, k) && k < a.len() && (k == a.len() || a[k] < a[k]);
        assert(a[k] < a[k]);
    }
}

/// Whether two names are the same.
pub fn same_bytes(a: &[u8], b: &[u8]) -> (r: bool)
    ensures
        r == (a@ == b@),
{
    if a.len() != b.len() {
        return false;
    }
    let mut i: usize = 0;
    while i < a.len()
        invariant
            a@.len() == b@.len(),
            i <= a@.len(),
            forall|j: int| 0 <= j < i ==> a@[j] == b@[j],
        decreases a@.len() - i,
    {
        if a[i] != b[i] {
            return false;
        }
        i += 1;
    }
    assert(a@ =~= b@);
    true
}

/// Whether name `a` sorts before name `b`.
pub fn bytes_before(a: &[u8], b: &[u8]) -> (r: bool)
    ensures
        r == bytes_lt(a@, b@),
{
    let mut i: usize = 0;
    while i < a.len() && i < b.len() && a[i] == b[i]
        invariant
            agree(a@, b@, i as int),
        decreases a@.len() - i,
    {
        i += 1;
    }
    let r = i < b.len() && (i == a.len() || a[i] < b[i]);
    proof {
        assert(agree(a@, b@, i as int));
        if bytes_lt(a@, b@) {
            let k = choose|k: int|
                #[trigger] agree(a@, b@, k) && k < b@.len() && (k == a@.len() || a@[k] < b@[k]);
            if k < i {
                assert(a@[k] == b@[k]);
            }
            if k > i {
                assert(a@[i as int] == b@[i as int]);
            }
        }
    }
    r
}

/// A path relative to the folder's root; the root itself has no components.
#[derive(Debug)]
pub struct RelPath {
    pub parts: Vec<Vec<u8>>,
}

impl View for RelPath {
    type V = Seq<Seq<u8>>;

    open spec fn view(&self) -> Seq<Seq<u8>> {
        self.parts.deep_view()
    }
}

impl DeepView for RelPath {
    type V = Seq<Seq<u8>>;

    open spec fn deep_view(&self) -> Seq<Seq<u8>> {
        self.view()
    }
}

impl Clone for RelPath {
    fn clone(&self) -> (r: Self)
        ensures
            r@ == self@,
    {
        let parts = copy_parts(&self.parts);
        RelPath { parts }
    }
}

/// The directory `p` is in: nothing for the root.
pub open spec fn parent_of(p: Seq<Seq<u8>>) -> Option<Seq<Seq<u8>>> {
    if p.len() == 0 {
        None
    } else {
        Some(p.drop_last())
    }
}

/// The last component of `p`: nothing for the root.
pub open spec fn name_of(p: Seq<Seq<u8>>) -> Option<Seq<u8>> {
    if p.len() == 0 {
        None
    } else {
        Some(p.last())
    }
}

/// `p` is `dir` or beneath it.
pub open spec fn starts_with(p: Seq<Seq<u8>>, dir: Seq<Seq<u8>>) -> bool {
    &&& dir.len() <= p.len()
    &&& p.subrange(0, dir.len() as int) == dir
}

/// `p` is beneath `dir`, and not `dir` itself.
pub open spec fn is_beneath(p: Seq<Seq<u8>>, dir: Seq<Seq<u8>>) -> bool {
    dir.len() < p.len() && starts_with(p, dir)
}

/// A copy of the components `parts`.
fn copy_parts(parts: &Vec<Vec<u8>>) -> (r: Vec<Vec<u8>>)
    ensures
        r.deep_view() == parts.deep_view(),
{
    let mut out: Vec<Vec<u8>> = Vec::new();
    let mut i: usize = 0;
    while i < parts.len()
        invariant
            i <= parts@.len(),
            out@.len() == i,
            forall|j: int| 0 <= j < i ==> (#[trigger] out@[j])@ == parts@[j]@,
        decreases parts@.len() - i,
    {
        let part = copy_bytes(&parts[i]);
        out.push(part);
        i += 1;
    }
    proof {
        lemma_parts_equal(out, *parts);
    }
    out
}

/// A copy of `bytes`.
pub fn copy_bytes(bytes: &[u8]) -> (r: Vec<u8>)
    ensures
        r@ == bytes@,
{
    vstd::slice::slice_to_vec(bytes)
}

/// Components that are the same one by one are the same.
pub proof fn lemma_parts_equal(a: Vec<Vec<u8>>, b: Vec<Vec<u8>>)
    requires
        a@.len() == b@.len(),
        forall|j: int| 0 <= j < a@.len() ==> (#[trigger] a@[j])@ == b@[j]@,
    ensures
        a.deep_view() == b.deep_view(),
{
    assert forall|j: int| 0 <= j < a@.len() implies #[trigger] a.deep_view()[j] == b.deep_view()[j] by {
        lemma_deep_bytes(a@[j]);
        lemma_deep_bytes(b@[j]);
    }
    assert(a.deep_view() =~= b.deep_view());
}

/// The deep view of bytes is their view.
pub broadcast proof fn lemma_deep_bytes(v: Vec<u8>)
    ensures
        #[trigger] v.deep_view() == v@,
{
    assert(v.deep_view() =~= v@);
}

impl RelPath {
    /// The folder's root.
    pub fn root() -> (r: Self)
        ensures
            r@ == Seq::<Seq<u8>>::empty(),
    {
        let r = RelPath { parts: Vec::new() };
        assert(r@ =~= Seq::<Seq<u8>>::empty());
        r
    }

    /// How many components the path has.
    pub fn depth(&self) -> (r: usize)
        ensures
            r == self@.len(),
    {
        self.parts.len()
    }

    /// The directory this is in.
    pub fn parent(&self) -> (r: Option<RelPath>)
        ensures
            r.deep_view() == parent_of(self@),
    {
        if self.parts.len() == 0 {
            return None;
        }
        let mut up = self.clone();
        let ghost before = up.parts;
        up.parts.pop();
        assert(up@ =~= self@.drop_last()) by {
            assert(up.parts@ == before@.drop_last());
        }
        Some(up)
    }

    /// The directory this is in, the root for the root itself.
    pub fn dir(&self) -> (r: RelPath)
        ensures
            r@ == dir_of(self@),
    {
        match self.parent() {
            Some(p) => p,
            None => RelPath::root(),
        }
    }

    /// The last component.
    pub fn file_name(&self) -> (r: Option<&Vec<u8>>)
        ensures
            match r {
                Some(n) => name_of(self@) == Some(n@),
                None => name_of(self@) is None,
            },
    {
        broadcast use lemma_deep_bytes;
        if self.parts.len() == 0 {
            None
        } else {
            Some(&self.parts[self.parts.len() - 1])
        }
    }

    /// `name` in this directory.
    pub fn join(&self, name: &[u8]) -> (r: RelPath)
        ensures
            r@ == self@.push(name@),
    {
        broadcast use lemma_deep_bytes;
        let mut down = self.clone();
        let ghost before = down.parts;
        down.parts.push(copy_bytes(name));
        assert(down@ =~= self@.push(name@)) by {
            assert(down.parts@.subrange(0, before@.len() as int) =~= before@);
            assert forall|j: int| 0 <= j < self@.len() implies down@[j] == self@[j] by {
                assert(down.parts@[j] == before@[j]);
                assert(before.deep_view()[j] == self@[j]);
            }
        }
        down
    }

    /// Whether the two are the same path.
    pub fn same(&self, other: &RelPath) -> (r: bool)
        ensures
            r == (self@ == other@),
    {
        if self.parts.len() != other.parts.len() {
            assert(self@.len() != other@.len());
            return false;
        }
        let r = self.begins_with(other);
        assert(self@.subrange(0, other@.len() as int) =~= self@);
        r
    }

    /// Whether this is `dir` or beneath it.
    pub fn begins_with(&self, dir: &RelPath) -> (r: bool)
        ensures
            r == starts_with(self@, dir@),
    {
        broadcast use lemma_deep_bytes;
        if self.parts.len() < dir.parts.len() {
            return false;
        }
        let mut i: usize = 0;
        while i < dir.parts.len()
            invariant
                dir.parts@.len() <= self.parts@.len(),
                i <= dir.parts@.len(),
                forall|j: int| 0 <= j < i ==> self@[j] == dir@[j],
            decreases dir.parts@.len() - i,
        {
            proof {
                lemma_deep_bytes(self.parts@[i as int]);
                lemma_deep_bytes(dir.parts@[i as int]);
            }
            if !same_bytes(&self.parts[i], &dir.parts[i]) {
                assert(self@.subrange(0, dir@.len() as int)[i as int] == self@[i as int]);
                return false;
            }
            assert(self@[i as int] == dir@[i as int]);
            i += 1;
        }
        assert(self@.subrange(0, dir@.len() as int) =~= dir@);
        true
    }

    /// Whether this is beneath `dir`, and not `dir` itself.
    pub fn is_under(&self, dir: &RelPath) -> (r: bool)
        ensures
            r == is_beneath(self@, dir@),
    {
        dir.parts.len() < self.parts.len() && self.begins_with(dir)
    }

    /// Whether this sorts before `other`.
    pub fn before(&self, other: &RelPath) -> (r: bool)
        ensures
            r == path_lt(self@, other@),
    {
        broadcast use lemma_deep_bytes;
        let a = &self.parts;
        let b = &other.parts;
        let mut i: usize = 0;
        while i < a.len() && i < b.len() && same_bytes(&a[i], &b[i])
            invariant
                a == self.parts,
                b == other.parts,
                agree(self@, other@, i as int),
            decreases a@.len() - i,
        {
            assert(self@[i as int] == other@[i as int]);
            i += 1;
        }
        let r = i < b.len() && (i == a.len() || bytes_before(&a[i], &b[i]));
        proof {
            assert(agree(self@, other@, i as int));
            if i < a@.len() && i < b@.len() {
                assert(self@[i as int] == a@[i as int]@);
                assert(other@[i as int] == b@[i as int]@);
            }
            if path_lt(self@, other@) {
                let k = choose|k: int|
                    #[trigger] agree(self@, other@, k) && k < other@.len() && (k == self@.len()
                        || bytes_lt(self@[k], other@[k]));
                if k < i {
                    assert(self@[k] == other@[k]);
                    lemma_bytes_lt_irreflexive(self@[k]);
                }
                if k > i {
                    assert(self@[i as int] == other@[i as int]);
                }
            }
        }
        r
    }
}

/// The directory `p` is in, the root for the root itself.
pub open spec fn dir_of(p: Seq<Seq<u8>>) -> Seq<Seq<u8>> {
    if p.len() == 0 {
        p
    } else {
        p.drop_last()
    }
}

/// A component counts unless it is empty or `.`.
pub open spec fn piece(p: Seq<u8>) -> Seq<Seq<u8>> {
    if p.len() == 0 || p == seq![46u8] {
        Seq::empty()
    } else {
        seq![p]
    }
}

/// The components of `raw` from `i` on, `open` being the one begun.
pub open spec fn parts_from(raw: Seq<u8>, i: int, open: Seq<u8>) -> Seq<Seq<u8>>
    decreases raw.len() - i,
{
    if i >= raw.len() {
        piece(open)
    } else if raw[i] == 47 {
        piece(open) + parts_from(raw, i + 1, Seq::empty())
    } else {
        parts_from(raw, i + 1, open.push(raw[i]))
    }
}

/// The components of the path written `raw`.
pub open spec fn parts_of(raw: Seq<u8>) -> Seq<Seq<u8>> {
    parts_from(raw, 0, Seq::empty())
}

/// Adds `open` to `out` if it counts as a component.
fn end_piece(out: &mut RelPath, open: Vec<u8>)
    ensures
        final(out)@ == old(out)@ + piece(open@),
{
    let dot: [u8; 1] = [46u8];
    assert(dot@ =~= seq![46u8]);
    let ghost before = out.parts;
    if open.len() == 0 || same_bytes(&open, &dot) {
        assert(out@ + Seq::<Seq<u8>>::empty() =~= out@);
    } else {
        let ghost last = open@;
        proof {
            lemma_deep_bytes(open);
        }
        out.parts.push(open);
        assert(out@ =~= before.deep_view().push(last));
        assert(out@ =~= before.deep_view() + seq![last]);
    }
}

/// The components of the path written `raw`.
pub fn split(raw: &[u8]) -> (r: RelPath)
    ensures
        r@ == parts_of(raw@),
{
    let mut out = RelPath::root();
    let mut open: Vec<u8> = Vec::new();
    let mut i: usize = 0;
    assert(out@ + parts_from(raw@, 0, open@) =~= parts_of(raw@));
    while i < raw.len()
        invariant
            i <= raw@.len(),
            out@ + parts_from(raw@, i as int, open@) == parts_of(raw@),
        decreases raw@.len() - i,
    {
        if raw[i] == 47 {
            end_piece(&mut out, open);
            open = Vec::new();
            assert(open@ =~= Seq::<u8>::empty());
        } else {
            open.push(raw[i]);
        }
        i += 1;
        assert(out@ + parts_from(raw@, i as int, open@) =~= parts_of(raw@));
    }
    end_piece(&mut out, open);
    out
}

impl RelPath {
    /// The path written `text`, components parted by `/`.
    pub fn of(text: &str) -> (r: RelPath)
        ensures
            r@ == parts_of(vstd::utf8::encode_utf8(text@)),
    {
        split(text.as_bytes())
    }

    /// The components after those of `dir`, which this begins with.
    pub fn after(&self, dir: &RelPath) -> (r: Option<RelPath>)
        ensures
            match r {
                Some(rest) => starts_with(self@, dir@) && rest@ == self@.subrange(
                    dir@.len() as int,
                    self@.len() as int,
                ),
                None => !starts_with(self@, dir@),
            },
    {
        if !self.begins_with(dir) {
            return None;
        }
        let mut rest: Vec<Vec<u8>> = Vec::new();
        let mut i: usize = dir.parts.len();
        while i < self.parts.len()
            invariant
                dir.parts@.len() <= i <= self.parts@.len(),
                rest@.len() == i - dir.parts@.len(),
                forall|j: int| 0 <= j < rest@.len() ==> (#[trigger] rest@[j])@ == self.parts@[dir.parts@.len() + j]@,
            decreases self.parts@.len() - i,
        {
            rest.push(copy_bytes(&self.parts[i]));
            i += 1;
        }
        let r = RelPath { parts: rest };
        proof {
            let want = self@.subrange(dir@.len() as int, self@.len() as int);
            assert forall|j: int| 0 <= j < r@.len() implies #[trigger] r@[j] == want[j] by {
                lemma_deep_bytes(rest@[j]);
                lemma_deep_bytes(self.parts@[dir.parts@.len() + j]);
            }
            assert(r@ =~= want);
        }
        Some(r)
    }
}

/// A path from the filesystem's root, as the kernel writes it.
#[derive(Debug)]
pub struct AbsPath {
    pub raw: Vec<u8>,
}

impl View for AbsPath {
    type V = Seq<u8>;

    open spec fn view(&self) -> Seq<u8> {
        self.raw@
    }
}

impl DeepView for AbsPath {
    type V = Seq<u8>;

    open spec fn deep_view(&self) -> Seq<u8> {
        self.view()
    }
}

impl Clone for AbsPath {
    fn clone(&self) -> (r: Self)
        ensures
            r@ == self@,
    {
        AbsPath { raw: copy_bytes(&self.raw) }
    }
}

/// What the kernel ends the path of an unlinked object with: ` (deleted)`.
pub open spec fn deleted_mark() -> Seq<u8> {
    seq![32u8, 40u8, 100u8, 101u8, 108u8, 101u8, 116u8, 101u8, 100u8, 41u8]
}

/// The path is absolute, of an object still linked, and goes nowhere up.
pub open spec fn is_sure(raw: Seq<u8>) -> bool {
    &&& raw.len() > 0 && raw[0] == 47
    &&& !(raw.len() >= 10 && raw.subrange(raw.len() - 10, raw.len() as int) == deleted_mark())
    &&& !parts_of(raw).contains(seq![46u8, 46u8])
}

impl AbsPath {
    pub fn same(&self, other: &AbsPath) -> (r: bool)
        ensures
            r == (self@ == other@),
    {
        same_bytes(&self.raw, &other.raw)
    }

    /// Whether the path says where an object is.
    pub fn sure(&self) -> (r: bool)
        ensures
            r == is_sure(self@),
    {
        if self.raw.len() == 0 || self.raw[0] != 47 {
            return false;
        }
        let mark: [u8; 10] = [32u8, 40u8, 100u8, 101u8, 108u8, 101u8, 116u8, 101u8, 100u8, 41u8];
        assert(mark@ =~= deleted_mark());
        if self.raw.len() >= 10 {
            let tail = vstd::slice::slice_subrange(self.raw.as_slice(), self.raw.len() - 10, self.raw.len());
            if same_bytes(tail, &mark) {
                return false;
            }
        }
        let parts = split(&self.raw);
        let up: [u8; 2] = [46u8, 46u8];
        assert(up@ =~= seq![46u8, 46u8]);
        let mut i: usize = 0;
        while i < parts.parts.len()
            invariant
                parts@ == parts_of(self@),
                up@ == seq![46u8, 46u8],
                i <= parts.parts@.len(),
                forall|j: int| 0 <= j < i ==> parts@[j] != seq![46u8, 46u8],
            decreases parts.parts@.len() - i,
        {
            proof {
                lemma_deep_bytes(parts.parts@[i as int]);
            }
            if same_bytes(&parts.parts[i], &up) {
                assert(parts@[i as int] == seq![46u8, 46u8]);
                return false;
            }
            i += 1;
        }
        true
    }
}

/// `prefix` begins `bytes`.
pub open spec fn begins_bytes(bytes: Seq<u8>, prefix: Seq<u8>) -> bool {
    prefix.len() <= bytes.len() && bytes.subrange(0, prefix.len() as int) == prefix
}

/// Whether `prefix` begins `bytes`.
pub fn has_prefix(bytes: &[u8], prefix: &[u8]) -> (r: bool)
    ensures
        r == begins_bytes(bytes@, prefix@),
{
    bytes.len() >= prefix.len() && same_bytes(
        vstd::slice::slice_subrange(bytes, 0, prefix.len()),
        prefix,
    )
}

/// What stands before the named components of the path written `raw`: its root,
/// or the `.` a relative path begins with.
pub open spec fn lead_of(raw: Seq<u8>) -> Seq<Seq<u8>> {
    if raw.len() > 0 && raw[0] == 47 {
        seq![seq![47u8]]
    } else if raw.len() > 0 && raw[0] == 46 && (raw.len() == 1 || raw[1] == 47) {
        seq![seq![46u8]]
    } else {
        Seq::empty()
    }
}

/// Every component of the path written `path` that `base` has, in its order,
/// begins it: whole components, whatever slashes part them.
pub open spec fn path_begins(path: Seq<u8>, base: Seq<u8>) -> bool {
    starts_with(lead_of(path) + parts_of(path), lead_of(base) + parts_of(base))
}

/// How a path is begun: from the root, from `.`, or with a name.
fn lead(raw: &[u8]) -> (r: u8)
    ensures
        r == 0 || r == 46 || r == 47,
        r == 0 <==> lead_of(raw@).len() == 0,
        r != 0 ==> lead_of(raw@) == seq![seq![r]],
{
    if raw.len() > 0 && raw[0] == 47 {
        47
    } else if raw.len() > 0 && raw[0] == 46 && (raw.len() == 1 || raw[1] == 47) {
        46
    } else {
        0
    }
}

/// Whether the path `path` begins with the whole components of `base`.
pub fn begins_path(path: &[u8], base: &[u8]) -> (r: bool)
    ensures
        r == path_begins(path@, base@),
{
    let a = lead(path);
    let b = lead(base);
    let p = split(path);
    let q = split(base);
    let ghost whole = lead_of(path@) + p@;
    let ghost start = lead_of(base@) + q@;
    if b == 0 {
        if a == 0 {
            assert(whole =~= p@);
            assert(start =~= q@);
            return p.begins_with(&q);
        }
        // A path from somewhere begins with a bare name only if that is none.
        assert(start =~= q@);
        if q.parts.len() == 0 {
            assert(whole.subrange(0, 0) =~= start);
            return true;
        }
        proof {
            lemma_piece_is_no_lead(base@, 0, Seq::empty());
            assert(q@[0] != seq![a]) by {
                assert(q@[0] == parts_of(base@)[0]);
            }
            if starts_with(whole, start) {
                assert(whole.subrange(0, start.len() as int)[0] == start[0]);
            }
        }
        return false;
    }
    if a == 0 {
        proof {
            lemma_piece_is_no_lead(path@, 0, Seq::empty());
            if starts_with(whole, start) {
                assert(whole.subrange(0, start.len() as int)[0] == start[0]);
                assert(whole[0] == p@[0]);
            }
        }
        return false;
    }
    if a != b {
        proof {
            if starts_with(whole, start) {
                assert(whole.subrange(0, start.len() as int)[0] == start[0]);
                assert(seq![a][0] == seq![b][0]);
            }
        }
        return false;
    }
    let r = p.begins_with(&q);
    proof {
        if r {
            assert(whole.subrange(0, start.len() as int) =~= start) by {
                assert forall|i: int| 0 <= i < start.len() implies whole[i] == start[i] by {
                    if i > 0 {
                        assert(p@.subrange(0, q@.len() as int)[i - 1] == q@[i - 1]);
                    }
                }
            }
        } else if starts_with(whole, start) {
            assert(p@.subrange(0, q@.len() as int) =~= q@) by {
                assert forall|i: int| 0 <= i < q@.len() implies p@[i] == q@[i] by {
                    assert(whole.subrange(0, start.len() as int)[i + 1] == start[i + 1]);
                }
            }
        }
    }
    r
}

/// A path that begins with another's components begins with its named ones.
pub proof fn lemma_begins_parts(path: Seq<u8>, base: Seq<u8>)
    requires
        path_begins(path, base),
        parts_of(path).len() > parts_of(base).len(),
    ensures
        starts_with(parts_of(path), parts_of(base)),
{
    let p = parts_of(path);
    let q = parts_of(base);
    let whole = lead_of(path) + p;
    let start = lead_of(base) + q;
    lemma_piece_is_no_lead(path, 0, Seq::empty());
    lemma_piece_is_no_lead(base, 0, Seq::empty());
    assert forall|i: int| 0 <= i < start.len() implies whole[i] == start[i] by {
        assert(whole.subrange(0, start.len() as int)[i] == start[i]);
    }
    if lead_of(path).len() == lead_of(base).len() {
        let n = lead_of(base).len() as int;
        assert forall|i: int| 0 <= i < q.len() implies p[i] == q[i] by {
            assert(whole[n + i] == start[n + i]);
        }
        assert(p.subrange(0, q.len() as int) =~= q);
    } else if lead_of(base).len() == 0 {
        if q.len() > 0 {
            assert(whole[0] == start[0]);
            assert(start[0] == q[0]);
            assert(whole[0] == lead_of(path)[0]);
        }
        assert(p.subrange(0, q.len() as int) =~= q);
    } else {
        assert(whole[0] == start[0]);
        assert(whole[0] == p[0]);
    }
}

/// A named component is neither the root nor `.`.
proof fn lemma_piece_is_no_lead(raw: Seq<u8>, i: int, open: Seq<u8>)
    requires
        0 <= i,
        !open.contains(47),
    ensures
        forall|k: int|
            0 <= k < parts_from(raw, i, open).len() ==> (#[trigger] parts_from(raw, i, open)[k])
                != seq![47u8] && parts_from(raw, i, open)[k] != seq![46u8],
    decreases raw.len() - i,
{
    if open == seq![47u8] {
        assert(open[0] == 47);
        assert(open.contains(47));
    }
    if i >= raw.len() {
        assert(parts_from(raw, i, open) == piece(open));
    } else {
        if raw[i] == 47 {
            lemma_piece_is_no_lead(raw, i + 1, Seq::empty());
            let rest = parts_from(raw, i + 1, Seq::empty());
            assert forall|k: int| 0 <= k < parts_from(raw, i, open).len() implies (
            #[trigger] parts_from(raw, i, open)[k]) != seq![47u8] && parts_from(raw, i, open)[k]
                != seq![46u8] by {
                let n = piece(open).len() as int;
                if k >= n {
                    assert(parts_from(raw, i, open)[k] == rest[k - n]);
                } else {
                    assert(parts_from(raw, i, open)[k] == open);
                }
            }
        } else {
            assert(!open.push(raw[i]).contains(47)) by {
                if open.push(raw[i]).contains(47) {
                    let k = choose|k: int|
                        0 <= k < open.push(raw[i]).len() && open.push(raw[i])[k] == 47;
                    if k < open.len() {
                        assert(open[k] == 47);
                    }
                }
            }
            lemma_piece_is_no_lead(raw, i + 1, open.push(raw[i]));
            assert(parts_from(raw, i, open) == parts_from(raw, i + 1, open.push(raw[i])));
        }
    }
}

/// The path of `rel` inside the folder at `root`, as it is written.
pub open spec fn joined(root: Seq<u8>, rel: Seq<Seq<u8>>) -> Seq<u8>
    decreases rel.len(),
{
    if rel.len() == 0 {
        root
    } else {
        let before = joined(root, rel.drop_last());
        (if before.len() > 0 && before.last() != 47 {
            before.push(47)
        } else {
            before
        }) + rel.last()
    }
}

impl AbsPath {
    /// The path of `rel` inside this folder.
    pub fn join(&self, rel: &RelPath) -> (r: AbsPath)
        ensures
            r@ == joined(self@, rel@),
    {
        let mut raw = copy_bytes(&self.raw);
        let mut i: usize = 0;
        assert(rel@.subrange(0, 0) =~= Seq::empty());
        while i < rel.parts.len()
            invariant
                i <= rel.parts@.len(),
                raw@ == joined(self@, rel@.subrange(0, i as int)),
            decreases rel.parts@.len() - i,
        {
            let ghost part = rel@.subrange(0, i as int + 1);
            assert(part.drop_last() =~= rel@.subrange(0, i as int));
            proof {
                lemma_deep_bytes(rel.parts@[i as int]);
            }
            assert(part.last() == rel.parts@[i as int]@);
            let n: usize = raw.len();
            if n > 0 && raw[n - 1] != 47 {
                raw.push(47);
            }
            let ghost before = raw@;
            let mut j: usize = 0;
            while j < rel.parts[i].len()
                invariant
                    i < rel.parts@.len(),
                    j <= rel.parts@[i as int]@.len(),
                    raw@ == before + rel.parts@[i as int]@.subrange(0, j as int),
                decreases rel.parts@[i as int]@.len() - j,
            {
                raw.push(rel.parts[i][j]);
                j += 1;
                assert(raw@ =~= before + rel.parts@[i as int]@.subrange(0, j as int));
            }
            assert(rel.parts@[i as int]@.subrange(0, j as int) =~= rel.parts@[i as int]@);
            i += 1;
        }
        assert(rel@.subrange(0, i as int) =~= rel@);
        AbsPath { raw }
    }

    /// The path as it is shown.
    pub fn display(&self) -> (r: String)
        ensures
            r@ == crate::text::text_of(self@),
    {
        crate::text::lossy(&self.raw)
    }
}

} // verus!
