//! Containment of resolved paths under the server root.
use vstd::prelude::*;

verus! {

/// What a resolved target is on disk.
#[derive(PartialEq, Eq, Structural, Clone, Copy, Debug)]
pub enum ResourceKind {
    Directory,
    File,
}

/// Why a target is refused.
#[derive(PartialEq, Eq, Structural, Clone, Copy, Debug)]
pub enum Rejected {
    /// The target does not exist or could not be canonicalized.
    NotFound,
    /// The target lies outside the server root.
    Forbidden,
}

/// The components of a canonical path, each as its bytes.
pub open spec fn components_view(c: Seq<Vec<u8>>) -> Seq<Seq<u8>> {
    c.map_values(|v: Vec<u8>| v@)
}

/// `root` is a component-wise prefix of `candidate` (equality included).
pub open spec fn contained_in(root: Seq<Seq<u8>>, candidate: Seq<Seq<u8>>) -> bool {
    &&& root.len() <= candidate.len()
    &&& candidate.subrange(0, root.len() as int) == root
}

/// The target relative to the root: the decoded path with one leading `/` removed.
pub open spec fn relative_target(p: Seq<char>) -> Seq<char> {
    if p.len() > 0 && p[0] == '/' {
        p.drop_first()
    } else {
        p
    }
}

/// Removes one leading `/` from a decoded target path.
pub fn strip_root_slash(path: &str) -> (r: String)
    ensures
        r@ == relative_target(path@),
{
    let n = path.unicode_len();
    if n > 0 && path.get_char(0) == '/' {
        let r = String::from_str(path.substring_char(1, n));
        proof {
            assert(r@ =~= path@.drop_first());
        }
        r
    } else {
        let r = String::from_str(path.substring_char(0, n));
        proof {
            assert(r@ =~= path@);
        }
        r
    }
}

fn same_bytes(a: &Vec<u8>, b: &Vec<u8>) -> (r: bool)
    ensures
        r == (a@ == b@),
{
    if a.len() != b.len() {
        return false;
    }
    let mut i: usize = 0;
    while i < a.len()
        invariant
            a@.len() == b@.len(),
            0 <= i <= a@.len(),
            a@.subrange(0, i as int) == b@.subrange(0, i as int),
        decreases a.len() - i,
    {
        if a[i] != b[i] {
            proof {
                assert(a@[i as int] != b@[i as int]);
            }
            return false;
        }
        proof {
            assert(a@.subrange(0, i + 1) =~= a@.subrange(0, i as int).push(a@[i as int]));
            assert(b@.subrange(0, i + 1) =~= b@.subrange(0, i as int).push(b@[i as int]));
        }
        i = i + 1;
    }
    proof {
        assert(a@ =~= a@.subrange(0, i as int));
        assert(b@ =~= b@.subrange(0, i as int));
    }
    true
}

/// Whether the canonical candidate lies within the canonical root: the root's
/// components must be a prefix of the candidate's, compared pairwise.
pub fn is_valid_path(root: &Vec<Vec<u8>>, candidate: &Vec<Vec<u8>>) -> (r: bool)
    ensures
        r == contained_in(components_view(root@), components_view(candidate@)),
{
    let ghost rv = components_view(root@);
    let ghost cv = components_view(candidate@);
    if root.len() > candidate.len() {
        return false;
    }
    let mut i: usize = 0;
    while i < root.len()
        invariant
            root@.len() <= candidate@.len(),
            0 <= i <= root@.len(),
            rv == components_view(root@),
            cv == components_view(candidate@),
            cv.subrange(0, i as int) == rv.subrange(0, i as int),
        decreases root.len() - i,
    {
        if !same_bytes(&root[i], &candidate[i]) {
            proof {
                assert(rv[i as int] != cv[i as int]);
                assert(cv.subrange(0, rv.len() as int)[i as int] == cv[i as int]);
            }
            return false;
        }
        proof {
            assert(cv.subrange(0, i + 1) =~= cv.subrange(0, i as int).push(cv[i as int]));
            assert(rv.subrange(0, i + 1) =~= rv.subrange(0, i as int).push(rv[i as int]));
        }
        i = i + 1;
    }
    proof {
        assert(rv =~= rv.subrange(0, i as int));
    }
    true
}

/// The outcome of resolving a target, given the canonical root, the canonical
/// candidate (`None` when canonicalization failed) and whether it is a directory.
pub open spec fn resolution(
    root: Seq<Seq<u8>>,
    candidate: Option<Seq<Seq<u8>>>,
    is_dir: bool,
) -> Result<ResourceKind, Rejected> {
    match candidate {
        None => Err(Rejected::NotFound),
        Some(c) => if !contained_in(root, c) {
            Err(Rejected::Forbidden)
        } else if is_dir {
            Ok(ResourceKind::Directory)
        } else {
            Ok(ResourceKind::File)
        },
    }
}

/// Decides a target from its canonical form: missing targets are not found,
/// targets outside the root are forbidden, the rest are served by kind.
pub fn resolve(root: &Vec<Vec<u8>>, candidate: Option<&Vec<Vec<u8>>>, is_dir: bool) -> (r: Result<
    ResourceKind,
    Rejected,
>)
    ensures
        r == resolution(
            components_view(root@),
            match candidate {
                Some(c) => Some(components_view(c@)),
                None => None,
            },
            is_dir,
        ),
{
    match candidate {
        None => Err(Rejected::NotFound),
        Some(c) => if !is_valid_path(root, c) {
            Err(Rejected::Forbidden)
        } else if is_dir {
            Ok(ResourceKind::Directory)
        } else {
            Ok(ResourceKind::File)
        },
    }
}

/// A target whose canonical form lies within the root, the root itself
/// included, is served, as a directory or as a file according to its kind.
pub proof fn lemma_inside_root_served(root: Seq<Seq<u8>>, candidate: Seq<Seq<u8>>, is_dir: bool)
    requires
        contained_in(root, candidate),
    ensures
        resolution(root, Some(candidate), is_dir) == (if is_dir {
            Ok::<ResourceKind, Rejected>(ResourceKind::Directory)
        } else {
            Ok::<ResourceKind, Rejected>(ResourceKind::File)
        }),
        resolution(root, Some(root), is_dir) is Ok,
{
    assert(root.subrange(0, root.len() as int) =~= root);
}

/// A target whose canonical form lies outside the root is refused as
/// forbidden, whatever its kind.
pub proof fn lemma_outside_root_forbidden(
    root: Seq<Seq<u8>>,
    candidate: Seq<Seq<u8>>,
    is_dir: bool,
)
    requires
        !contained_in(root, candidate),
    ensures
        resolution(root, Some(candidate), is_dir) == Err::<ResourceKind, Rejected>(
            Rejected::Forbidden,
        ),
{
}

/// A sibling of the root (same parent, another name) and everything below it
/// is forbidden, though it may have as many components as the root or more.
pub proof fn lemma_sibling_forbidden(
    parent: Seq<Seq<u8>>,
    root_name: Seq<u8>,
    sibling_name: Seq<u8>,
    below: Seq<Seq<u8>>,
    is_dir: bool,
)
    requires
        root_name != sibling_name,
    ensures
        resolution(parent.push(root_name), Some(parent.push(sibling_name) + below), is_dir)
            == Err::<ResourceKind, Rejected>(Rejected::Forbidden),
        parent.push(sibling_name).len() == parent.push(root_name).len(),
{
    let root = parent.push(root_name);
    let c = parent.push(sibling_name) + below;
    assert(c.subrange(0, root.len() as int)[parent.len() as int] == sibling_name);
}

} // verus!
