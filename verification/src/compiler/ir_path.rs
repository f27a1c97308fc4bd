//! Paths of structs and functions, and who may refer to whom.

use vstd::prelude::*;

verus! {

/// One element of the path of a struct or function: the name of an
/// enclosing element, or of the element itself, and whether it is exported.
#[derive(Debug, Clone, PartialEq, Eq)]
pub struct IRPathElement {
    /// The name of the element.
    pub identifier: String,
    /// Whether the element is exported.
    pub exported: bool,
}

/// A path element as a mathematical value.
pub struct PathElementView {
    /// The name of the element.
    pub identifier: Seq<char>,
    /// Whether the element is exported.
    pub exported: bool,
}

impl View for IRPathElement {
    type V = PathElementView;

    open spec fn view(&self) -> PathElementView {
        PathElementView { identifier: self.identifier@, exported: self.exported }
    }
}

/// A path as a mathematical value: from the outermost module to the local
/// name.
pub type PathView = Seq<PathElementView>;

/// The view of a path.
pub open spec fn path_view(path: Seq<IRPathElement>) -> PathView {
    Seq::new(path.len(), |i: int| path[i]@)
}

/// The accessibility of the element with the given path: the number of
/// elements that enclose the innermost element on the path that is not
/// exported, and zero where all are exported. The element itself counts as
/// an element on its path, so an element that is not exported is hidden
/// outside the element that holds it, and an exported one wherever what
/// holds it is hidden.
pub open spec fn accessibility(path: PathView) -> nat
    decreases path.len(),
{
    if path.len() == 0 {
        0
    } else if !path.last().exported {
        (path.len() - 1) as nat
    } else {
        accessibility(path.drop_last())
    }
}

/// Whether code at `caller` may refer to the element at `callee`: the
/// caller's path has to start with the callee's names as far as the
/// callee's accessibility goes.
pub open spec fn may_access(caller: PathView, callee: PathView) -> bool {
    &&& accessibility(callee) <= caller.len()
    &&& forall|i: int|
        0 <= i < accessibility(callee) ==> (#[trigger] caller[i]).identifier
            == callee[i].identifier
}

/// The number of leading elements in which two paths carry the same names.
pub open spec fn common_prefix(a: PathView, b: PathView) -> nat
    decreases a.len(),
{
    if a.len() == 0 || b.len() == 0 || a[0].identifier != b[0].identifier {
        0
    } else {
        1 + common_prefix(a.drop_first(), b.drop_first())
    }
}

/// The accessibility of an element is at most its depth.
pub proof fn lemma_accessibility_bound(path: PathView)
    ensures
        accessibility(path) <= path.len(),
    decreases path.len(),
{
    if path.len() > 0 && path.last().exported {
        lemma_accessibility_bound(path.drop_last());
    }
}

/// A nested element is at least as hidden as the element that holds it:
/// its accessibility is not smaller.
pub proof fn lemma_accessibility_monotone(parent: PathView, child: PathElementView)
    ensures
        accessibility(parent.push(child)) >= accessibility(parent),
{
    lemma_accessibility_bound(parent);
    assert(parent.push(child).drop_last() =~= parent);
}

/// The same holds however deep the nesting goes.
pub proof fn lemma_accessibility_monotone_deep(parent: PathView, below: PathView)
    ensures
        accessibility(parent + below) >= accessibility(parent),
    decreases below.len(),
{
    if below.len() == 0 {
        assert(parent + below =~= parent);
    } else {
        lemma_accessibility_monotone_deep(parent, below.drop_last());
        lemma_accessibility_monotone(parent + below.drop_last(), below.last());
        assert((parent + below.drop_last()).push(below.last()) =~= parent + below);
    }
}

/// The common prefix of two paths is no longer than either.
pub proof fn lemma_common_prefix_bound(a: PathView, b: PathView)
    ensures
        common_prefix(a, b) <= a.len(),
        common_prefix(a, b) <= b.len(),
    decreases a.len(),
{
    if !(a.len() == 0 || b.len() == 0 || a[0].identifier != b[0].identifier) {
        lemma_common_prefix_bound(a.drop_first(), b.drop_first());
    }
}

/// Computes the accessibility of the element with the given path.
pub fn accessibility_of(path: &Vec<IRPathElement>) -> (a: usize)
    ensures
        a == accessibility(path_view(path@)),
{
    let mut depth = path.len();
    assert(path_view(path@).subrange(0, depth as int) =~= path_view(path@));
    while depth > 0
        invariant
            depth <= path@.len(),
            accessibility(path_view(path@)) == accessibility(
                path_view(path@).subrange(0, depth as int),
            ),
        decreases depth,
    {
        if !path[depth - 1].exported {
            return depth - 1;
        }
        proof {
            let cur = path_view(path@).subrange(0, depth as int);
            assert(cur.drop_last() =~= path_view(path@).subrange(0, depth - 1));
        }
        depth -= 1;
    }
    0
}

/// Whether code at `caller` may refer to the element at `callee`.
pub fn can_access(caller: &Vec<IRPathElement>, callee: &Vec<IRPathElement>) -> (r: bool)
    ensures
        r == may_access(path_view(caller@), path_view(callee@)),
{
    let need = accessibility_of(callee);
    proof {
        lemma_accessibility_bound(path_view(callee@));
    }
    if need > caller.len() {
        return false;
    }
    let mut i: usize = 0;
    while i < need
        invariant
            i <= need,
            need <= caller@.len(),
            need <= callee@.len(),
            need == accessibility(path_view(callee@)),
            forall|j: int|
                0 <= j < i ==> (#[trigger] path_view(caller@)[j]).identifier == path_view(
                    callee@,
                )[j].identifier,
        decreases need - i,
    {
        if caller[i].identifier != callee[i].identifier {
            assert(path_view(caller@)[i as int].identifier != path_view(callee@)[i as int].identifier);
            return false;
        }
        i += 1;
    }
    true
}

/// Counts the leading elements in which two paths carry the same names.
pub fn match_path_accessibility(path1: &Vec<IRPathElement>, path2: &Vec<IRPathElement>) -> (sim:
    usize)
    ensures
        sim == common_prefix(path_view(path1@), path_view(path2@)),
{
    let mut sim: usize = 0;
    let ghost a = path_view(path1@);
    let ghost b = path_view(path2@);
    assert(a.subrange(0, a.len() as int) =~= a);
    assert(b.subrange(0, b.len() as int) =~= b);
    while sim < path1.len() && sim < path2.len()
        invariant
            sim <= path1@.len(),
            sim <= path2@.len(),
            a == path_view(path1@),
            b == path_view(path2@),
            common_prefix(a, b) == sim + common_prefix(
                a.subrange(sim as int, a.len() as int),
                b.subrange(sim as int, b.len() as int),
            ),
        decreases path1@.len() - sim,
    {
        let ghost ra = a.subrange(sim as int, a.len() as int);
        let ghost rb = b.subrange(sim as int, b.len() as int);
        if path1[sim].identifier != path2[sim].identifier {
            assert(ra[0].identifier != rb[0].identifier);
            return sim;
        }
        proof {
            assert(ra[0].identifier == rb[0].identifier);
            assert(ra.drop_first() =~= a.subrange(sim + 1, a.len() as int));
            assert(rb.drop_first() =~= b.subrange(sim + 1, b.len() as int));
        }
        sim += 1;
    }
    proof {
        assert(a.subrange(0, a.len() as int) =~= a);
        assert(b.subrange(0, b.len() as int) =~= b);
    }
    sim
}

} // verus!
