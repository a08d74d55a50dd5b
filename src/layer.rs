//! The decisions of one layer's extraction. The caller reads the tar entries,
//! hands each path to [`LayerState::record`], carries out the returned action
//! on the root filesystem, and applies the deferred directories last, in the
//! order [`LayerState::into_sorted_dirs`] gives.
use crate::path::{
    contains_parent_component, file_name, has_parent_component, is_whiteout_name, opaque_marker,
    parent_of, split_name, whiteout_target, DOT, SLASH,
};
use vstd::multiset::Multiset;
use vstd::prelude::*;

verus! {

broadcast use vstd::seq_lib::group_to_multiset_ensures;

/// What an entry of a layer asks for.
pub enum EntryKind {
    /// A `..` component: skipped, with a warning.
    Traversal,
    /// A directory: deferred to the end of the layer.
    Directory,
    /// No final component to act on: skipped.
    Nameless,
    /// `.wh..wh..opq`: clear the given directory (relative to the root).
    Opaque(Seq<u8>),
    /// `.wh.<name>`: remove the given path (relative to the root).
    Whiteout(Seq<u8>),
    /// Any other entry: unpacked where the archive puts it.
    Regular,
}

/// The kind of the entry with path `p`.
pub open spec fn entry_kind(p: Seq<u8>, is_dir: bool) -> EntryKind {
    if has_parent_component(p) {
        EntryKind::Traversal
    } else if is_dir {
        EntryKind::Directory
    } else {
        let n = file_name(p);
        if n.len() == 0 || n == seq![DOT] {
            EntryKind::Nameless
        } else if is_whiteout_name(n) {
            if n == opaque_marker() {
                EntryKind::Opaque(parent_of(p))
            } else {
                EntryKind::Whiteout(whiteout_target(p))
            }
        } else {
            EntryKind::Regular
        }
    }
}

/// The action handed back for one entry.
#[derive(Debug)]
pub enum EntryAction {
    Traversal,
    Directory,
    Nameless,
    Opaque { dir: Vec<u8> },
    Whiteout { target: Vec<u8> },
    Regular,
}

impl View for EntryAction {
    type V = EntryKind;

    open spec fn view(&self) -> EntryKind {
        match self {
            EntryAction::Traversal => EntryKind::Traversal,
            EntryAction::Directory => EntryKind::Directory,
            EntryAction::Nameless => EntryKind::Nameless,
            EntryAction::Opaque { dir } => EntryKind::Opaque(dir@),
            EntryAction::Whiteout { target } => EntryKind::Whiteout(target@),
            EntryAction::Regular => EntryKind::Regular,
        }
    }
}

/// `anc` is `p` itself or one of its ancestor directories.
pub open spec fn is_within(anc: Seq<u8>, p: Seq<u8>) -> bool {
    p == anc || (anc.len() < p.len() && p.subrange(0, anc.len() as int) == anc && p[anc.len() as int]
        == SLASH)
}

/// Whether `n` is longer than `.wh.` and starts with it.
fn is_whiteout(n: &Vec<u8>) -> (r: bool)
    ensures
        r == is_whiteout_name(n@),
{
    if n.len() > 4 && n[0] == 46 && n[1] == 119 && n[2] == 104 && n[3] == 46 {
        assert(n@.subrange(0, 4) =~= crate::path::whiteout_prefix());
        true
    } else {
        assert(n@.len() > 4 ==> n@.subrange(0, 4)[0] == n@[0] && n@.subrange(0, 4)[1] == n@[1]
            && n@.subrange(0, 4)[2] == n@[2] && n@.subrange(0, 4)[3] == n@[3]);
        false
    }
}

/// Whether `n` is exactly `.wh..wh..opq`.
fn is_opaque(n: &Vec<u8>) -> (r: bool)
    ensures
        r == (n@ == opaque_marker()),
{
    let m: [u8; 12] = [46, 119, 104, 46, 46, 119, 104, 46, 46, 111, 112, 113];
    assert(m@ =~= opaque_marker());
    if n.len() != 12 {
        return false;
    }
    let mut i: usize = 0;
    while i < 12
        invariant
            i <= 12,
            n@.len() == 12,
            m@ == opaque_marker(),
            forall|j: int| 0 <= j < i ==> n@[j] == m@[j],
        decreases 12 - i,
    {
        if n[i] != m[i] {
            return false;
        }
        i += 1;
    }
    assert(n@ =~= opaque_marker());
    true
}

/// `name` without its first four bytes, placed in `dir`.
fn whiteout_path(dir: &Vec<u8>, name: &Vec<u8>) -> (r: Vec<u8>)
    requires
        name@.len() >= 4,
    ensures
        r@ == crate::path::join(dir@, name@.subrange(4, name@.len() as int)),
{
    let mut r: Vec<u8> = Vec::new();
    let mut i: usize = 0;
    while i < dir.len()
        invariant
            i <= dir@.len(),
            r@ =~= dir@.subrange(0, i as int),
        decreases dir@.len() - i,
    {
        r.push(dir[i]);
        i += 1;
    }
    if dir.len() > 0 {
        r.push(SLASH);
    }
    let ghost start = r@;
    let mut k: usize = 4;
    while k < name.len()
        invariant
            4 <= k <= name@.len(),
            r@ =~= start + name@.subrange(4, k as int),
        decreases name@.len() - k,
    {
        r.push(name[k]);
        k += 1;
    }
    r
}

/// The kind of an entry, with the paths that its action needs.
pub fn classify_entry(p: &[u8], is_dir: bool) -> (r: EntryAction)
    ensures
        r@ == entry_kind(p@, is_dir),
{
    if contains_parent_component(p) {
        return EntryAction::Traversal;
    }
    if is_dir {
        return EntryAction::Directory;
    }
    let (parent, name) = split_name(p);
    if name.len() == 0 || (name.len() == 1 && name[0] == DOT) {
        assert(name@.len() == 1 ==> name@ =~= seq![DOT]);
        return EntryAction::Nameless;
    }
    assert(name@ != seq![DOT]) by {
        if name@ == seq![DOT] {
            assert(name@[0] == seq![DOT][0]);
        }
    }
    if is_whiteout(&name) {
        if is_opaque(&name) {
            EntryAction::Opaque { dir: parent }
        } else {
            EntryAction::Whiteout { target: whiteout_path(&parent, &name) }
        }
    } else {
        EntryAction::Regular
    }
}

/// Whether `a` is `p` or an ancestor directory of it.
pub fn path_within(a: &[u8], p: &[u8]) -> (r: bool)
    ensures
        r == is_within(a@, p@),
{
    let n = a.len();
    if n > p.len() {
        return false;
    }
    let mut i: usize = 0;
    while i < n
        invariant
            i <= n,
            n == a@.len(),
            n <= p@.len(),
            forall|j: int| 0 <= j < i ==> a@[j] == p@[j],
        decreases n - i,
    {
        if a[i] != p[i] {
            return false;
        }
        i += 1;
    }
    assert(p@.subrange(0, n as int) =~= a@);
    if n == p.len() {
        assert(p@ =~= a@);
        true
    } else {
        p[n] == SLASH
    }
}

/// Byte-wise lexicographic order, a proper prefix coming first.
pub open spec fn lex_less(a: Seq<u8>, b: Seq<u8>) -> bool
    decreases a.len(),
{
    if a.len() == 0 {
        b.len() > 0
    } else if b.len() == 0 {
        false
    } else if a[0] != b[0] {
        a[0] < b[0]
    } else {
        lex_less(a.drop_first(), b.drop_first())
    }
}

/// Two paths are never each before the other.
pub proof fn lemma_lex_less_asymmetric(a: Seq<u8>, b: Seq<u8>)
    ensures
        lex_less(a, b) ==> !lex_less(b, a),
    decreases a.len(),
{
    if a.len() > 0 && b.len() > 0 && a[0] == b[0] {
        lemma_lex_less_asymmetric(a.drop_first(), b.drop_first());
    }
}

/// Whether `a` comes before `b` byte-wise.
pub fn bytes_less(a: &[u8], b: &[u8]) -> (r: bool)
    ensures
        r == lex_less(a@, b@),
{
    let mut i: usize = 0;
    assert(a@.skip(0) =~= a@ && b@.skip(0) =~= b@);
    while i < a.len() && i < b.len() && a[i] == b[i]
        invariant
            i <= a@.len(),
            i <= b@.len(),
            lex_less(a@, b@) == lex_less(a@.skip(i as int), b@.skip(i as int)),
        decreases a@.len() - i,
    {
        assert(a@.skip(i as int).drop_first() =~= a@.skip(i + 1));
        assert(b@.skip(i as int).drop_first() =~= b@.skip(i + 1));
        i += 1;
    }
    if i == a.len() {
        i < b.len()
    } else if i == b.len() {
        false
    } else {
        a[i] < b[i]
    }
}

/// Directories in reverse byte-wise order: none is before its successor.
pub open spec fn descending(s: Seq<Vec<u8>>) -> bool {
    forall|k: int| 0 <= k < s.len() - 1 ==> !lex_less(#[trigger] s[k]@, s[k + 1]@)
}

/// What a layer has seen so far.
pub struct LayerModel {
    /// Paths of the regular entries unpacked in this layer, in order.
    pub added: Seq<Vec<u8>>,
    /// Directory entries waiting for the end of the layer, in order.
    pub dirs: Seq<Vec<u8>>,
}

/// The state kept while one layer is extracted.
pub struct LayerState {
    added: Vec<Vec<u8>>,
    dirs: Vec<Vec<u8>>,
}

impl View for LayerState {
    type V = LayerModel;

    closed spec fn view(&self) -> LayerModel {
        LayerModel { added: self.added@, dirs: self.dirs@ }
    }
}

/// `p` is kept by an opaque whiteout: it, or an ancestor, was added in this layer.
pub open spec fn kept(added: Seq<Vec<u8>>, p: Seq<u8>) -> bool {
    exists|i: int| 0 <= i < added.len() && is_within(#[trigger] added[i]@, p)
}

/// `s` lies strictly inside the directory `d` (every path does when `d` is
/// the root, written empty).
pub open spec fn strictly_under(d: Seq<u8>, s: Seq<u8>) -> bool {
    if d.len() == 0 {
        s.len() > 0
    } else {
        s != d && is_within(d, s)
    }
}

/// `p` is a directory on the way to a path added in this layer.
pub open spec fn leads_to_added(added: Seq<Vec<u8>>, p: Seq<u8>) -> bool {
    exists|i: int| 0 <= i < added.len() && is_within(p, #[trigger] added[i]@)
}

/// `s` outlives the clearing of `d`: it is outside `d`, it or an ancestor was
/// added in this layer, or it leads to such a path.
pub open spec fn survives_clear(added: Seq<Vec<u8>>, d: Seq<u8>, s: Seq<u8>) -> bool {
    strictly_under(d, s) ==> kept(added, s) || leads_to_added(added, s)
}

/// What an opaque whiteout does with one path inside the directory it clears,
/// walking from the top down.
#[derive(Debug)]
pub enum ClearStep {
    /// Added in this layer, or under such a path: left alone with all inside.
    Keep,
    /// A directory on the way to a path added in this layer: kept, and its
    /// contents are looked at in turn.
    Descend,
    /// Removed, with all inside.
    Remove,
}

/// The paths under the root after the entry `p` is applied to `tree`, with
/// `added` the layer's added set before it. Directories wait for the end of
/// the layer.
pub open spec fn apply_entry(tree: Set<Seq<u8>>, added: Seq<Vec<u8>>, p: Seq<u8>, is_dir: bool) -> Set<
    Seq<u8>,
> {
    match entry_kind(p, is_dir) {
        EntryKind::Regular => tree.insert(p),
        EntryKind::Whiteout(t) => tree.remove(t),
        EntryKind::Opaque(d) => tree.filter(|s: Seq<u8>| survives_clear(added, d, s)),
        _ => tree,
    }
}

/// The paths under the root after the rest of a layer, `entries`, given the
/// added set and the deferred directories so far.
pub open spec fn apply_layer_from(
    tree: Set<Seq<u8>>,
    added: Seq<Vec<u8>>,
    dirs: Set<Seq<u8>>,
    entries: Seq<(Vec<u8>, bool)>,
) -> Set<Seq<u8>>
    decreases entries.len(),
{
    if entries.len() == 0 {
        tree.union(dirs)
    } else {
        let e = entries[0];
        let k = entry_kind(e.0@, e.1);
        apply_layer_from(
            apply_entry(tree, added, e.0@, e.1),
            if k is Regular {
                added.push(e.0)
            } else {
                added
            },
            if k is Directory {
                dirs.insert(e.0@)
            } else {
                dirs
            },
            entries.drop_first(),
        )
    }
}

/// The paths under the root after a whole layer.
pub open spec fn apply_layer(tree: Set<Seq<u8>>, entries: Seq<(Vec<u8>, bool)>) -> Set<Seq<u8>> {
    apply_layer_from(tree, Seq::empty(), Set::empty(), entries)
}

/// An entry whose path has a `..` component changes nothing, neither the
/// tree nor what the rest of the layer does.
pub proof fn lemma_traversal_entry_changes_nothing(
    tree: Set<Seq<u8>>,
    added: Seq<Vec<u8>>,
    dirs: Set<Seq<u8>>,
    entries: Seq<(Vec<u8>, bool)>,
)
    requires
        entries.len() > 0,
        has_parent_component(entries[0].0@),
    ensures
        entry_kind(entries[0].0@, entries[0].1) is Traversal,
        apply_layer_from(tree, added, dirs, entries) == apply_layer_from(
            tree,
            added,
            dirs,
            entries.drop_first(),
        ),
{
}

/// A layer without entries leaves the tree as it was.
pub proof fn lemma_empty_layer_changes_nothing(tree: Set<Seq<u8>>)
    ensures
        apply_layer(tree, Seq::empty()) == tree,
{
    assert(tree.union(Set::empty()) =~= tree);
}

/// A whiteout whose target does not exist leaves the tree as it was.
pub proof fn lemma_whiteout_of_missing_target(
    tree: Set<Seq<u8>>,
    added: Seq<Vec<u8>>,
    p: Seq<u8>,
)
    requires
        entry_kind(p, false) is Whiteout,
        !tree.contains(whiteout_target(p)),
    ensures
        apply_entry(tree, added, p, false) == tree,
{
    assert(tree.remove(whiteout_target(p)) =~= tree);
}

/// What an opaque whiteout leaves inside its directory is what it held and
/// the layer's added set keeps or leads to.
pub proof fn lemma_opaque_keeps_only_added(
    tree: Set<Seq<u8>>,
    added: Seq<Vec<u8>>,
    p: Seq<u8>,
    s: Seq<u8>,
)
    requires
        entry_kind(p, false) is Opaque,
        strictly_under(parent_of(p), s),
    ensures
        apply_entry(tree, added, p, false).contains(s) <==> tree.contains(s) && (kept(added, s)
            || leads_to_added(added, s)),
{
}

/// An opaque whiteout keeps every path added earlier in the same layer.
pub proof fn lemma_opaque_keeps_added_paths(
    tree: Set<Seq<u8>>,
    added: Seq<Vec<u8>>,
    p: Seq<u8>,
    i: int,
)
    requires
        entry_kind(p, false) is Opaque,
        0 <= i < added.len(),
        tree.contains(added[i]@),
    ensures
        apply_entry(tree, added, p, false).contains(added[i]@),
{
    assert(is_within(added[i]@, added[i]@));
    assert(kept(added, added[i]@));
}

impl LayerState {
    /// The state at the start of a layer.
    pub fn new() -> (r: LayerState)
        ensures
            r@.added.len() == 0,
            r@.dirs.len() == 0,
    {
        LayerState { added: Vec::new(), dirs: Vec::new() }
    }

    /// Takes note of the entry at `path` and says what to do with it.
    /// Regular entries join the added set; directories are deferred.
    pub fn record(&mut self, path: Vec<u8>, is_dir: bool) -> (r: EntryAction)
        ensures
            r@ == entry_kind(path@, is_dir),
            final(self)@.added == (if r@ is Regular {
                old(self)@.added.push(path)
            } else {
                old(self)@.added
            }),
            final(self)@.dirs == (if r@ is Directory {
                old(self)@.dirs.push(path)
            } else {
                old(self)@.dirs
            }),
    {
        let r = classify_entry(path.as_slice(), is_dir);
        match r {
            EntryAction::Regular => {
                self.added.push(path);
            },
            EntryAction::Directory => {
                self.dirs.push(path);
            },
            _ => {},
        }
        r
    }

    /// Whether an opaque whiteout must leave `p` in place.
    pub fn keeps(&self, p: &[u8]) -> (r: bool)
        ensures
            r == kept(self@.added, p@),
    {
        let mut i: usize = 0;
        while i < self.added.len()
            invariant
                i <= self.added@.len(),
                forall|j: int| 0 <= j < i ==> !is_within(#[trigger] self.added@[j]@, p@),
            decreases self.added@.len() - i,
        {
            if path_within(self.added[i].as_slice(), p) {
                return true;
            }
            i += 1;
        }
        false
    }

    /// What an opaque whiteout does with `p`, a path inside the directory
    /// it clears.
    pub fn clear_step(&self, p: &[u8]) -> (r: ClearStep)
        ensures
            r is Keep <==> kept(self@.added, p@),
            r is Descend <==> !kept(self@.added, p@) && leads_to_added(self@.added, p@),
            r is Remove <==> !kept(self@.added, p@) && !leads_to_added(self@.added, p@),
    {
        if self.keeps(p) {
            return ClearStep::Keep;
        }
        let mut i: usize = 0;
        while i < self.added.len()
            invariant
                i <= self.added@.len(),
                !kept(self@.added, p@),
                forall|j: int| 0 <= j < i ==> !is_within(p@, #[trigger] self.added@[j]@),
            decreases self.added@.len() - i,
        {
            if path_within(p, self.added[i].as_slice()) {
                return ClearStep::Descend;
            }
            i += 1;
        }
        ClearStep::Remove
    }

    /// The deferred directories, each once, in reverse byte-wise order.
    pub fn into_sorted_dirs(self) -> (r: Vec<Vec<u8>>)
        ensures
            r@.to_multiset() == self@.dirs.to_multiset(),
            descending(r@),
    {
        let mut pending = self.dirs;
        let mut sorted: Vec<Vec<u8>> = Vec::new();
        while pending.len() > 0
            invariant
                sorted@.to_multiset().add(pending@.to_multiset()) == self@.dirs.to_multiset(),
                descending(sorted@),
            decreases pending@.len(),
        {
            let ghost before = pending@;
            let d = pending.pop().unwrap();
            assert(before =~= pending@.push(d));
            let mut j: usize = 0;
            while j < sorted.len() && !bytes_less(sorted[j].as_slice(), d.as_slice())
                invariant
                    j <= sorted@.len(),
                    forall|k: int| 0 <= k < j ==> !lex_less(#[trigger] sorted@[k]@, d@),
                decreases sorted@.len() - j,
            {
                j += 1;
            }
            let ghost old_sorted = sorted@;
            proof {
                if j < old_sorted.len() {
                    lemma_lex_less_asymmetric(old_sorted[j as int]@, d@);
                }
            }
            sorted.insert(j, d);
            assert(sorted@ == old_sorted.insert(j as int, d));
            assert(descending(sorted@)) by {
                assert forall|k: int| 0 <= k < sorted@.len() - 1 implies !lex_less(
                    #[trigger] sorted@[k]@,
                    sorted@[k + 1]@,
                ) by {
                    if k + 1 < j {
                        assert(sorted@[k] == old_sorted[k] && sorted@[k + 1] == old_sorted[k + 1]);
                    } else if k + 1 == j {
                        assert(sorted@[k] == old_sorted[k]);
                    } else if k == j {
                    } else {
                        assert(sorted@[k] == old_sorted[k - 1] && sorted@[k + 1] == old_sorted[k]);
                    }
                }
            }
        }
        assert(pending@.to_multiset() =~= Multiset::empty());
        sorted
    }
}

} // verus!
