//! Byte-level reading of tar entry paths: `..` components, the final name,
//! and the whiteout conventions of OCI layers.
use vstd::prelude::*;

verus! {

/// The byte `/`.
pub const SLASH: u8 = 47;

/// The byte `.`.
pub const DOT: u8 = 46;

/// A `..` component starts at index `i` of `p`.
pub open spec fn parent_component_at(p: Seq<u8>, i: int) -> bool {
    0 <= i && i + 2 <= p.len() && p[i] == DOT && p[i + 1] == DOT && (i == 0 || p[i - 1]
        == SLASH) && (i + 2 == p.len() || p[i + 2] == SLASH)
}

/// Some component of `p` is `..`.
pub open spec fn has_parent_component(p: Seq<u8>) -> bool {
    exists|i: int| #[trigger] parent_component_at(p, i)
}

/// `p` without its trailing slashes.
pub open spec fn trim_slashes(p: Seq<u8>) -> Seq<u8>
    decreases p.len(),
{
    if p.len() > 0 && p.last() == SLASH {
        trim_slashes(p.drop_last())
    } else {
        p
    }
}

/// Where the last component of `q` starts: just after its last slash, or 0.
pub open spec fn name_start(q: Seq<u8>) -> int
    decreases q.len(),
{
    if q.len() == 0 {
        0
    } else if q.last() == SLASH {
        q.len() as int
    } else {
        name_start(q.drop_last())
    }
}

/// The final component of an entry path (trailing slashes ignored).
pub open spec fn file_name(p: Seq<u8>) -> Seq<u8> {
    let q = trim_slashes(p);
    q.subrange(name_start(q), q.len() as int)
}

/// Everything before the final component, without the separating slash;
/// empty when the path has a single component.
pub open spec fn parent_of(p: Seq<u8>) -> Seq<u8> {
    let q = trim_slashes(p);
    if name_start(q) == 0 {
        Seq::empty()
    } else {
        q.subrange(0, name_start(q) - 1)
    }
}

/// The prefix `.wh.` that marks a whiteout.
pub open spec fn whiteout_prefix() -> Seq<u8> {
    seq![46u8, 119u8, 104u8, 46u8]
}

/// The name `.wh..wh..opq` of an opaque whiteout.
pub open spec fn opaque_marker() -> Seq<u8> {
    seq![46u8, 119u8, 104u8, 46u8, 46u8, 119u8, 104u8, 46u8, 46u8, 111u8, 112u8, 113u8]
}

/// A name longer than the prefix `.wh.` that starts with it.
pub open spec fn is_whiteout_name(n: Seq<u8>) -> bool {
    n.len() > 4 && n.subrange(0, 4) == whiteout_prefix()
}

/// `name` placed in the directory `dir` (just `name` when `dir` is empty).
pub open spec fn join(dir: Seq<u8>, name: Seq<u8>) -> Seq<u8> {
    if dir.len() == 0 {
        name
    } else {
        dir.push(SLASH) + name
    }
}

/// What a regular whiteout named by the entry path `p` removes.
pub open spec fn whiteout_target(p: Seq<u8>) -> Seq<u8> {
    let n = file_name(p);
    join(parent_of(p), n.subrange(4, n.len() as int))
}

/// Whether `p` has a `..` component.
pub fn contains_parent_component(p: &[u8]) -> (r: bool)
    ensures
        r == has_parent_component(p@),
{
    let n = p.len();
    let mut i: usize = 0;
    while i < n
        invariant
            i <= n,
            n == p@.len(),
            forall|j: int| 0 <= j < i ==> !parent_component_at(p@, j),
        decreases n - i,
    {
        if i + 1 < n && p[i] == DOT && p[i + 1] == DOT && (i == 0 || p[i - 1] == SLASH) && (i + 2
            == n || p[i + 2] == SLASH) {
            assert(parent_component_at(p@, i as int));
            return true;
        }
        i += 1;
    }
    assert forall|j: int| !parent_component_at(p@, j) by {
        if 0 <= j && j < i {
        }
    }
    false
}

/// The final component of `p` and the directory part before it.
pub fn split_name(p: &[u8]) -> (r: (Vec<u8>, Vec<u8>))
    ensures
        r.0@ == parent_of(p@),
        r.1@ == file_name(p@),
{
    let mut e: usize = p.len();
    assert(p@.subrange(0, e as int) =~= p@);
    while e > 0 && p[e - 1] == SLASH
        invariant
            e <= p@.len(),
            trim_slashes(p@.subrange(0, e as int)) == trim_slashes(p@),
        decreases e,
    {
        assert(p@.subrange(0, e as int).drop_last() =~= p@.subrange(0, e - 1));
        e -= 1;
    }
    let ghost q = trim_slashes(p@);
    assert(trim_slashes(p@.subrange(0, e as int)) == p@.subrange(0, e as int));
    assert(q =~= p@.subrange(0, e as int));
    assert(q.subrange(0, e as int) =~= q);
    let mut s: usize = e;
    while s > 0 && p[s - 1] != SLASH
        invariant
            s <= e,
            e <= p@.len(),
            q =~= p@.subrange(0, e as int),
            name_start(q.subrange(0, s as int)) == name_start(q),
            forall|k: int| s <= k < e ==> p@[k] != SLASH,
        decreases s,
    {
        assert(q.subrange(0, s as int).drop_last() =~= q.subrange(0, s - 1));
        s -= 1;
    }
    assert(name_start(q) == s) by {
        if s > 0 {
            assert(q.subrange(0, s as int).last() == SLASH);
        }
    }
    let mut name: Vec<u8> = Vec::new();
    let mut k: usize = s;
    while k < e
        invariant
            s <= k <= e,
            e <= p@.len(),
            name@ =~= p@.subrange(s as int, k as int),
        decreases e - k,
    {
        name.push(p[k]);
        k += 1;
    }
    let mut parent: Vec<u8> = Vec::new();
    if s > 0 {
        let mut k: usize = 0;
        while k < s - 1
            invariant
                0 < s <= e,
                e <= p@.len(),
                k <= s - 1,
                parent@ =~= p@.subrange(0, k as int),
            decreases s - k,
        {
            parent.push(p[k]);
            k += 1;
        }
    }
    (parent, name)
}

} // verus!
