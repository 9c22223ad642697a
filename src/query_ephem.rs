use vstd::prelude::*;

use crate::constants::celestial_objects::SOLAR_SYSTEM_BARYCENTER;
use crate::context::AniseContext;
use crate::ephemeris::Ephemeris;
use crate::frame::Frame;
use crate::errors::{AniseError, IntegrityErrorKind};
use crate::lut::LookupTable;

verus! {

/// No translation or rotation may have more than this many nodes.
pub const MAX_TREE_DEPTH: usize = 8;

/// The parent hash that a catalog gives for the record of hash `h`.
pub open spec fn parent_in(lut: LookupTable, data: Seq<Ephemeris>, h: u32) -> Result<
    u32,
    AniseError,
> {
    match lut.lookup(h) {
        None => Err(AniseError::ItemNotFound),
        Some(i) => if i < data.len() {
            Ok(data[i as int].parent_ephemeris_hash)
        } else {
            Err(AniseError::IntegrityError(IntegrityErrorKind::LookupTable))
        },
    }
}

/// `r` with `prefix` put in front of its sequence.
pub open spec fn prefixed(prefix: Seq<u32>, r: Result<Seq<u32>, AniseError>) -> Result<
    Seq<u32>,
    AniseError,
> {
    match r {
        Ok(s) => Ok(prefix + s),
        Err(e) => Err(e),
    }
}

/// The ancestors of `h`, parent first, up to and including the root, walking at
/// most `depth` parent links.
pub open spec fn ancestors_in(lut: LookupTable, data: Seq<Ephemeris>, h: u32, depth: nat) -> Result<
    Seq<u32>,
    AniseError,
>
    decreases depth,
{
    if depth == 0 {
        Err(AniseError::MaxTreeDepth)
    } else {
        match parent_in(lut, data, h) {
            Err(e) => Err(e),
            Ok(p) => if p == SOLAR_SYSTEM_BARYCENTER {
                Ok(seq![p])
            } else {
                prefixed(seq![p], ancestors_in(lut, data, p, (depth - 1) as nat))
            },
        }
    }
}

/// Walks the catalog `lut`/`data` from `start` to the root.
fn catalog_path(lut: &LookupTable, data: &Vec<Ephemeris>, start: u32) -> (r: Result<
    (usize, [Option<u32>; MAX_TREE_DEPTH]),
    AniseError,
>)
    requires
        lut.wf(),
    ensures
        match ancestors_in(*lut, data@, start, MAX_TREE_DEPTH as nat) {
            Ok(s) => r matches Ok((len, path)) && len == s.len() && (forall|i: int|
                0 <= i < len ==> path@[i] == Some(#[trigger] s[i])) && (forall|i: int|
                len <= i < MAX_TREE_DEPTH ==> path@[i] == None::<u32>),
            Err(e) => r == Err::<(usize, [Option<u32>; MAX_TREE_DEPTH]), AniseError>(e),
        },
{
    let mut path: [Option<u32>; MAX_TREE_DEPTH] = [None; MAX_TREE_DEPTH];
    let mut len: usize = 0;
    let mut cur = start;
    let ghost mut acc: Seq<u32> = Seq::empty();
    while len < MAX_TREE_DEPTH
        invariant
            lut.wf(),
            len <= MAX_TREE_DEPTH,
            acc.len() == len,
            forall|i: int| 0 <= i < len ==> path@[i] == Some(#[trigger] acc[i]),
            forall|i: int| len <= i < MAX_TREE_DEPTH ==> path@[i] == None::<u32>,
            ancestors_in(*lut, data@, start, MAX_TREE_DEPTH as nat) == prefixed(
                acc,
                ancestors_in(*lut, data@, cur, (MAX_TREE_DEPTH - len) as nat),
            ),
        decreases MAX_TREE_DEPTH - len,
    {
        let idx = match lut.index_for_hash(&cur) {
            Ok(i) => i,
            Err(e) => {
                return Err(e);
            },
        };
        if idx as usize >= data.len() {
            return Err(AniseError::IntegrityError(IntegrityErrorKind::LookupTable));
        }
        let parent = data[idx as usize].parent_ephemeris_hash;
        path[len] = Some(parent);
        proof {
            let rest = ancestors_in(*lut, data@, parent, (MAX_TREE_DEPTH - len - 1) as nat);
            if parent != SOLAR_SYSTEM_BARYCENTER {
                match rest {
                    Ok(s) => {
                        assert(acc + (seq![parent] + s) =~= acc.push(parent) + s);
                    },
                    Err(e) => {},
                }
            }
            acc = acc.push(parent);
        }
        len = len + 1;
        if parent == SOLAR_SYSTEM_BARYCENTER {
            return Ok((len, path));
        }
        cur = parent;
    }
    Err(AniseError::MaxTreeDepth)
}


/// Any chain that a walk of at most `depth` links returns is non-empty, holds at
/// most `depth` hashes, ends at the root, and meets the root nowhere before its end.
pub proof fn lemma_ancestors_shape(lut: LookupTable, data: Seq<Ephemeris>, h: u32, depth: nat)
    ensures
        ancestors_in(lut, data, h, depth) matches Ok(s) ==> {
            &&& 1 <= s.len() <= depth
            &&& s.last() == SOLAR_SYSTEM_BARYCENTER
            &&& forall|i: int| 0 <= i < s.len() - 1 ==> s[i] != SOLAR_SYSTEM_BARYCENTER
        },
    decreases depth,
{
    if depth > 0 {
        if let Ok(p) = parent_in(lut, data, h) {
            if p != SOLAR_SYSTEM_BARYCENTER {
                lemma_ancestors_shape(lut, data, p, (depth - 1) as nat);
                if let Ok(t) = ancestors_in(lut, data, p, (depth - 1) as nat) {
                    let s = seq![p] + t;
                    assert(s.last() == t.last());
                    assert forall|i: int| 0 <= i < s.len() - 1 implies s[i]
                        != SOLAR_SYSTEM_BARYCENTER by {
                        if i > 0 {
                            assert(s[i] == t[i - 1]);
                        }
                    }
                }
            }
        }
    }
}

/// A walk whose chain has more links than `shallower` allows fails with the tree
/// depth error when bounded by `shallower`, and never returns a truncated chain.
pub proof fn lemma_depth_exceeded(
    lut: LookupTable,
    data: Seq<Ephemeris>,
    h: u32,
    depth: nat,
    shallower: nat,
)
    requires
        ancestors_in(lut, data, h, depth) matches Ok(s) && s.len() > shallower,
    ensures
        ancestors_in(lut, data, h, shallower) == Err::<Seq<u32>, AniseError>(
            AniseError::MaxTreeDepth,
        ),
    decreases shallower,
{
    if shallower > 0 {
        let p = parent_in(lut, data, h)->Ok_0;
        lemma_depth_exceeded(lut, data, p, (depth - 1) as nat, (shallower - 1) as nat);
    }
}

/// The hash reached from `h` after `k` parent links of the catalog.
pub open spec fn nth_parent(lut: LookupTable, data: Seq<Ephemeris>, h: u32, k: nat) -> u32
    decreases k,
{
    if k == 0 {
        h
    } else {
        nth_parent(lut, data, parent_in(lut, data, h)->Ok_0, (k - 1) as nat)
    }
}

/// Where every node met before the root has a record, a walk of at most `depth`
/// links fails with the tree depth error exactly when none of the first `depth`
/// parents is the root, and succeeds otherwise.
pub proof fn lemma_depth_error_iff(lut: LookupTable, data: Seq<Ephemeris>, h: u32, depth: nat)
    requires
        forall|k: nat|
            k < depth && (forall|j: nat|
                1 <= j <= k ==> #[trigger] nth_parent(lut, data, h, j) != SOLAR_SYSTEM_BARYCENTER)
                ==> (#[trigger] parent_in(lut, data, nth_parent(lut, data, h, k))).is_ok(),
    ensures
        ancestors_in(lut, data, h, depth) == Err::<Seq<u32>, AniseError>(AniseError::MaxTreeDepth)
            <==> (forall|k: nat|
            1 <= k <= depth ==> #[trigger] nth_parent(lut, data, h, k) != SOLAR_SYSTEM_BARYCENTER),
        ancestors_in(lut, data, h, depth) != Err::<Seq<u32>, AniseError>(AniseError::MaxTreeDepth)
            ==> ancestors_in(lut, data, h, depth).is_ok(),
    decreases depth,
{
    if depth > 0 {
        assert(nth_parent(lut, data, h, 0) == h);
        assert(forall|j: nat| 1 <= j <= 0 ==> #[trigger] nth_parent(lut, data, h, j) != SOLAR_SYSTEM_BARYCENTER);
        assert(parent_in(lut, data, nth_parent(lut, data, h, 0)).is_ok());
        let p = parent_in(lut, data, h)->Ok_0;
        assert(nth_parent(lut, data, p, 0) == p);
        assert(nth_parent(lut, data, h, 1) == p);
        assert forall|j: nat| j >= 1 implies #[trigger] nth_parent(lut, data, h, j) == nth_parent(
            lut,
            data,
            p,
            (j - 1) as nat,
        ) by {}
        if p != SOLAR_SYSTEM_BARYCENTER {
            let d = (depth - 1) as nat;
            assert forall|k: nat|
                k < d && (forall|j: nat|
                    1 <= j <= k ==> #[trigger] nth_parent(lut, data, p, j) != SOLAR_SYSTEM_BARYCENTER)
                    implies (#[trigger] parent_in(lut, data, nth_parent(lut, data, p, k))).is_ok() by {
                assert forall|j: nat| 1 <= j <= k + 1 implies #[trigger] nth_parent(lut, data, h, j)
                    != SOLAR_SYSTEM_BARYCENTER by {
                    if j > 1 {
                        assert(nth_parent(lut, data, p, (j - 1) as nat) != SOLAR_SYSTEM_BARYCENTER);
                    }
                }
                assert(nth_parent(lut, data, h, k + 1) == nth_parent(lut, data, p, k));
                assert(parent_in(lut, data, nth_parent(lut, data, h, k + 1)).is_ok());
            }
            lemma_depth_error_iff(lut, data, p, d);
            if forall|k: nat| 1 <= k <= d ==> #[trigger] nth_parent(lut, data, p, k) != SOLAR_SYSTEM_BARYCENTER {
                assert forall|k: nat| 1 <= k <= depth implies #[trigger] nth_parent(lut, data, h, k)
                    != SOLAR_SYSTEM_BARYCENTER by {
                    if k > 1 {
                        assert(nth_parent(lut, data, p, (k - 1) as nat) != SOLAR_SYSTEM_BARYCENTER);
                    }
                }
            } else {
                let k = choose|k: nat| 1 <= k <= d && #[trigger] nth_parent(lut, data, p, k)
                    == SOLAR_SYSTEM_BARYCENTER;
                assert(nth_parent(lut, data, h, k + 1) == SOLAR_SYSTEM_BARYCENTER);
            }
        }
    }
}

/// The chain of a node: the node itself, then its ancestors up to the root, or
/// the error of the walk from it. Every node, the root's hash included, starts
/// with the lookup of its own hash.
pub open spec fn full_chain(lut: LookupTable, data: Seq<Ephemeris>, h: u32) -> Result<
    Seq<u32>,
    AniseError,
> {
    prefixed(seq![h], ancestors_in(lut, data, h, MAX_TREE_DEPTH as nat))
}

/// The element `j` places before the end of `a`.
pub open spec fn from_end(a: Seq<u32>, j: int) -> u32 {
    a[a.len() - 1 - j]
}

/// How many trailing (root-side) elements `a` and `b` have in common.
pub open spec fn shared_root_len(a: Seq<u32>, b: Seq<u32>) -> nat
    decreases a.len(),
{
    if a.len() == 0 || b.len() == 0 || a.last() != b.last() {
        0
    } else {
        1 + shared_root_len(a.drop_last(), b.drop_last())
    }
}

/// The nearest common ancestor of frames with chains `a` and `b`, with the hops
/// below it on each side: `(common, hops of a, hops of b)`.
pub open spec fn split_at_common(a: Seq<u32>, b: Seq<u32>) -> (u32, Seq<u32>, Seq<u32>) {
    let k = shared_root_len(a, b);
    (a[a.len() - k], a.take(a.len() - k), b.take(b.len() - k))
}

pub proof fn lemma_shared_root_len_symmetric(a: Seq<u32>, b: Seq<u32>)
    ensures
        shared_root_len(a, b) == shared_root_len(b, a),
    decreases a.len(),
{
    if a.len() > 0 && b.len() > 0 && a.last() == b.last() {
        lemma_shared_root_len_symmetric(a.drop_last(), b.drop_last());
    }
}

/// The shared tail is no longer than either sequence, and its elements agree.
pub proof fn lemma_shared_root_len_agrees(a: Seq<u32>, b: Seq<u32>)
    ensures
        shared_root_len(a, b) <= a.len(),
        shared_root_len(a, b) <= b.len(),
        forall|j: int|
            0 <= j < shared_root_len(a, b) ==> #[trigger] from_end(a, j) == from_end(b, j),
    decreases a.len(),
{
    if a.len() > 0 && b.len() > 0 && a.last() == b.last() {
        let (a2, b2) = (a.drop_last(), b.drop_last());
        lemma_shared_root_len_agrees(a2, b2);
        assert forall|j: int| 0 <= j < shared_root_len(a, b) implies #[trigger] from_end(a, j)
            == from_end(b, j) by {
            if j > 0 {
                assert(from_end(a2, j - 1) == from_end(b2, j - 1));
            }
        }
    }
}

/// A scan that stops at the first disagreement from the root end computes the
/// shared tail.
proof fn lemma_shared_root_len_scan(a: Seq<u32>, b: Seq<u32>, k: int)
    requires
        0 <= k <= a.len(),
        k <= b.len(),
        forall|j: int| 0 <= j < k ==> #[trigger] from_end(a, j) == from_end(b, j),
        k == a.len() || k == b.len() || from_end(a, k) != from_end(b, k),
    ensures
        shared_root_len(a, b) == k,
    decreases k,
{
    if k > 0 {
        let (a2, b2) = (a.drop_last(), b.drop_last());
        assert(from_end(a, 0) == from_end(b, 0));
        assert forall|j: int| 0 <= j < k - 1 implies #[trigger] from_end(a2, j) == from_end(
            b2,
            j,
        ) by {
            assert(from_end(a, j + 1) == from_end(b, j + 1));
        }
        if k - 1 < a2.len() && k - 1 < b2.len() {
            assert(from_end(a, k) != from_end(b, k));
        }
        lemma_shared_root_len_scan(a2, b2, k - 1);
    }
}

/// Every chain that `full_chain` returns is non-empty, ends at the root and
/// holds at most `MAX_TREE_DEPTH + 1` hashes.
pub proof fn lemma_full_chain_shape(lut: LookupTable, data: Seq<Ephemeris>, h: u32)
    ensures
        full_chain(lut, data, h) matches Ok(a) ==> {
            &&& 1 <= a.len() <= MAX_TREE_DEPTH + 1
            &&& a.last() == SOLAR_SYSTEM_BARYCENTER
            &&& a[0] == h
        },
{
    lemma_ancestors_shape(lut, data, h, MAX_TREE_DEPTH as nat);
    if let Ok(s) = ancestors_in(lut, data, h, MAX_TREE_DEPTH as nat) {
        assert((seq![h] + s).last() == s.last());
    }
}

/// The node, its hops down from `a`, and its hops down from `b`, found from either
/// side: two chains that both end at the root share at least the root.
pub proof fn lemma_split_symmetric(a: Seq<u32>, b: Seq<u32>)
    requires
        a.len() >= 1,
        b.len() >= 1,
        a.last() == b.last(),
    ensures
        shared_root_len(a, b) >= 1,
        split_at_common(a, b).0 == split_at_common(b, a).0,
        split_at_common(a, b).1 == split_at_common(b, a).2,
        split_at_common(a, b).2 == split_at_common(b, a).1,
{
    lemma_shared_root_len_symmetric(a, b);
    lemma_shared_root_len_agrees(a, b);
    let k = shared_root_len(a, b) as int;
    assert(from_end(a, k - 1) == from_end(b, k - 1));
}

/// `a` is a walk of the catalog ending at the root: each hash before the last is
/// not the root and has the next as its parent.
#[verifier::opaque]
pub open spec fn is_walk(lut: LookupTable, data: Seq<Ephemeris>, a: Seq<u32>) -> bool {
    &&& a.len() >= 1
    &&& a.last() == SOLAR_SYSTEM_BARYCENTER
    &&& forall|i: int|
        0 <= i < a.len() - 1 ==> (#[trigger] a[i]) != SOLAR_SYSTEM_BARYCENTER && parent_in(
            lut,
            data,
            a[i],
        ) == Ok::<u32, AniseError>(a[i + 1])
}

proof fn lemma_walk_ends(lut: LookupTable, data: Seq<Ephemeris>, a: Seq<u32>)
    requires
        is_walk(lut, data, a),
    ensures
        a.len() >= 1,
        a.last() == SOLAR_SYSTEM_BARYCENTER,
{
    reveal(is_walk);
}

/// The position of the first element of `a`, from `i` on, that occurs in `b`;
/// `a.len()` if none does.
pub open spec fn first_shared_from(a: Seq<u32>, b: Seq<u32>, i: int) -> int
    decreases a.len() - i,
{
    if i < 0 || i >= a.len() {
        a.len() as int
    } else if b.contains(a[i]) {
        i
    } else {
        first_shared_from(a, b, i + 1)
    }
}

/// The first element of `a` that also occurs in `b`.
pub open spec fn first_common(a: Seq<u32>, b: Seq<u32>) -> u32 {
    a[first_shared_from(a, b, 0)]
}

proof fn lemma_first_shared_from(a: Seq<u32>, b: Seq<u32>, i: int)
    requires
        0 <= i <= a.len(),
    ensures
        i <= first_shared_from(a, b, i) <= a.len(),
        first_shared_from(a, b, i) < a.len() ==> b.contains(a[first_shared_from(a, b, i)]),
        forall|k: int| i <= k < first_shared_from(a, b, i) ==> !b.contains(#[trigger] a[k]),
    decreases a.len() - i,
{
    if i < a.len() && !b.contains(a[i]) {
        lemma_first_shared_from(a, b, i + 1);
    }
}

/// The ancestors of a node form a walk that starts at its parent.
proof fn lemma_ancestors_walk(lut: LookupTable, data: Seq<Ephemeris>, h: u32, depth: nat)
    ensures
        ancestors_in(lut, data, h, depth) matches Ok(s) ==> s.len() >= 1 && parent_in(lut, data, h)
            == Ok::<u32, AniseError>(s[0]) && is_walk(lut, data, s),
    decreases depth,
{
    reveal(is_walk);
    if depth > 0 {
        if let Ok(p) = parent_in(lut, data, h) {
            if p != SOLAR_SYSTEM_BARYCENTER {
                lemma_ancestors_walk(lut, data, p, (depth - 1) as nat);
                if let Ok(t) = ancestors_in(lut, data, p, (depth - 1) as nat) {
                    let s = seq![p] + t;
                    assert forall|i: int| 0 <= i < s.len() - 1 implies (#[trigger] s[i])
                        != SOLAR_SYSTEM_BARYCENTER && parent_in(lut, data, s[i]) == Ok::<
                        u32,
                        AniseError,
                    >(s[i + 1]) by {
                        if i > 0 {
                            assert(s[i] == t[i - 1]);
                            assert(s[i + 1] == t[i]);
                        }
                    }
                    assert(s.last() == t.last());
                }
            }
        }
    }
}

/// Two walks that meet at a hash go on together to the root.
proof fn lemma_walk_suffix(lut: LookupTable, data: Seq<Ephemeris>, a: Seq<u32>, b: Seq<u32>, i: int, j: int)
    requires
        is_walk(lut, data, a),
        is_walk(lut, data, b),
        0 <= i < a.len(),
        0 <= j < b.len(),
        a[i] == b[j],
    ensures
        a.skip(i) == b.skip(j),
    decreases a.len() - i,
{
    reveal(is_walk);
    if i == a.len() - 1 {
        if j < b.len() - 1 {
            assert(b[j] != SOLAR_SYSTEM_BARYCENTER);
        }
        assert(a.skip(i) =~= b.skip(j));
    } else {
        assert(a[i] != SOLAR_SYSTEM_BARYCENTER);
        assert(j < b.len() - 1);
        assert(parent_in(lut, data, a[i]) == Ok::<u32, AniseError>(a[i + 1]));
        assert(parent_in(lut, data, b[j]) == Ok::<u32, AniseError>(b[j + 1]));
        lemma_walk_suffix(lut, data, a, b, i + 1, j + 1);
        assert(a.skip(i) =~= seq![a[i]] + a.skip(i + 1));
        assert(b.skip(j) =~= seq![b[j]] + b.skip(j + 1));
    }
}

/// A walk never passes the same hash twice.
proof fn lemma_walk_distinct(lut: LookupTable, data: Seq<Ephemeris>, a: Seq<u32>, i: int, k: int)
    requires
        is_walk(lut, data, a),
        0 <= i < k < a.len(),
    ensures
        a[i] != a[k],
{
    if a[i] == a[k] {
        lemma_walk_suffix(lut, data, a, a, i, k);
        assert(a.skip(i).len() != a.skip(k).len());
    }
}

/// Between two walks to the root, the first hash of either found in the other
/// is the same from both sides, and from there on the two walks coincide.
pub proof fn lemma_first_common_symmetric(lut: LookupTable, data: Seq<Ephemeris>, a: Seq<u32>, b: Seq<u32>)
    requires
        is_walk(lut, data, a),
        is_walk(lut, data, b),
    ensures
        first_shared_from(a, b, 0) < a.len(),
        first_shared_from(b, a, 0) < b.len(),
        first_common(a, b) == first_common(b, a),
        a.skip(first_shared_from(a, b, 0)) == b.skip(first_shared_from(b, a, 0)),
{
    lemma_walk_ends(lut, data, a);
    lemma_walk_ends(lut, data, b);
    lemma_first_shared_from(a, b, 0);
    lemma_first_shared_from(b, a, 0);
    assert(b.contains(a[a.len() - 1])) by {
        assert(b[b.len() - 1] == a[a.len() - 1]);
    }
    assert(a.contains(b[b.len() - 1])) by {
        assert(b[b.len() - 1] == a[a.len() - 1]);
    }
    let i = first_shared_from(a, b, 0);
    let r = first_shared_from(b, a, 0);
    let j = choose|j: int| 0 <= j < b.len() && b[j] == a[i];
    let i2 = choose|k: int| 0 <= k < a.len() && a[k] == b[r];
    assert(a.contains(b[j]));
    lemma_walk_suffix(lut, data, a, b, i, j);
    assert(a.skip(i).len() == b.skip(j).len());
    assert(b.contains(a[i2]));
    assert(i <= i2);
    if r < j {
        if i2 == i {
            lemma_walk_distinct(lut, data, b, r, j);
        } else {
            assert(a.skip(i)[i2 - i] == b.skip(j)[i2 - i]);
            lemma_walk_distinct(lut, data, b, r, j + (i2 - i));
        }
    }
    assert(r == j);
}

/// Where the first shared hash of two walks sits, the scan from the root end
/// stops: the common node of `split_at_common` is that hash.
proof fn lemma_split_is_first_common(lut: LookupTable, data: Seq<Ephemeris>, a: Seq<u32>, b: Seq<u32>)
    requires
        is_walk(lut, data, a),
        is_walk(lut, data, b),
    ensures
        split_at_common(a, b).0 == first_common(a, b),
{
    lemma_first_common_symmetric(lut, data, a, b);
    lemma_first_shared_from(a, b, 0);
    lemma_first_shared_from(b, a, 0);
    let i = first_shared_from(a, b, 0);
    let j = first_shared_from(b, a, 0);
    let k = a.len() - i;
    assert(b.len() - j == k) by {
        assert(a.skip(i).len() == b.skip(j).len());
    }
    assert forall|m: int| 0 <= m < k implies #[trigger] from_end(a, m) == from_end(b, m) by {
        assert(a.skip(i)[k - 1 - m] == b.skip(j)[k - 1 - m]);
    }
    if i > 0 && j > 0 {
        assert(!b.contains(a[i - 1]));
        assert(from_end(a, k) == a[i - 1]);
        assert(from_end(b, k) == b[j - 1]);
        if a[i - 1] == b[j - 1] {
            assert(b.contains(a[i - 1]));
        }
    }
    lemma_shared_root_len_scan(a, b, k);
}

/// Room for the chain of a node: the node and at most `MAX_TREE_DEPTH` ancestors.
pub const MAX_CHAIN_LEN: usize = 9;

/// The common node of two chains of a catalog and the hops below it on each
/// side, or the first error met while walking `h1`'s chain, then `h2`'s.
pub open spec fn split_in(lut: LookupTable, data: Seq<Ephemeris>, h1: u32, h2: u32) -> Result<
    (u32, Seq<u32>, Seq<u32>),
    AniseError,
> {
    match full_chain(lut, data, h1) {
        Err(e) => Err(e),
        Ok(a) => match full_chain(lut, data, h2) {
            Err(e) => Err(e),
            Ok(b) => Ok(split_at_common(a, b)),
        },
    }
}

/// The hops from two frames down to their nearest common node. Each hop is the
/// hash of a child whose state relative to its parent is to be evaluated.
#[derive(Clone, Copy, Debug)]
pub struct TranslationPath {
    pub common: u32,
    pub from_len: usize,
    pub from_nodes: [u32; MAX_TREE_DEPTH],
    pub to_len: usize,
    pub to_nodes: [u32; MAX_TREE_DEPTH],
}

impl TranslationPath {
    /// The hops of the first frame, child first.
    pub open spec fn from_hops(&self) -> Seq<u32> {
        self.from_nodes@.take(self.from_len as int)
    }

    /// The hops of the second frame, child first.
    pub open spec fn to_hops(&self) -> Seq<u32> {
        self.to_nodes@.take(self.to_len as int)
    }

    /// Whether this path is the split `(common, hops of the first, hops of the second)`.
    pub open spec fn is_split(&self, split: (u32, Seq<u32>, Seq<u32>)) -> bool {
        &&& self.from_len <= MAX_TREE_DEPTH
        &&& self.to_len <= MAX_TREE_DEPTH
        &&& self.common == split.0
        &&& self.from_hops() == split.1
        &&& self.to_hops() == split.2
    }
}

/// The chain of `h` in the catalog: `h` itself, then its ancestors.
fn catalog_chain(lut: &LookupTable, data: &Vec<Ephemeris>, h: u32) -> (r: Result<
    (usize, [u32; MAX_CHAIN_LEN]),
    AniseError,
>)
    requires
        lut.wf(),
    ensures
        match full_chain(*lut, data@, h) {
            Ok(a) => r matches Ok((n, c)) && n == a.len() && c@.take(n as int) == a,
            Err(e) => r == Err::<(usize, [u32; MAX_CHAIN_LEN]), AniseError>(e),
        },
{
    let mut chain: [u32; MAX_CHAIN_LEN] = [0; MAX_CHAIN_LEN];
    let (len, path) = match catalog_path(lut, data, h) {
        Ok(x) => x,
        Err(e) => {
            return Err(e);
        },
    };
    let ghost s = ancestors_in(*lut, data@, h, MAX_TREE_DEPTH as nat)->Ok_0;
    proof {
        lemma_ancestors_shape(*lut, data@, h, MAX_TREE_DEPTH as nat);
    }
    chain[0] = h;
    let mut i: usize = 0;
    while i < len
        invariant
            len == s.len(),
            len <= MAX_TREE_DEPTH,
            i <= len,
            chain@[0] == h,
            forall|j: int| 0 <= j < len ==> path@[j] == Some(#[trigger] s[j]),
            forall|j: int| 0 <= j < i ==> chain@[j + 1] == #[trigger] s[j],
        decreases len - i,
    {
        match path[i] {
            Some(p) => {
                chain[i + 1] = p;
            },
            None => {},
        }
        i = i + 1;
    }
    assert(chain@.take(len as int + 1) =~= seq![h] + s);
    Ok((len + 1, chain))
}

/// How many root-side hashes two chains share.
fn shared_tail(a: &[u32; MAX_CHAIN_LEN], na: usize, b: &[u32; MAX_CHAIN_LEN], nb: usize) -> (k:
    usize)
    requires
        na <= MAX_CHAIN_LEN,
        nb <= MAX_CHAIN_LEN,
    ensures
        k == shared_root_len(a@.take(na as int), b@.take(nb as int)),
{
    let ghost sa = a@.take(na as int);
    let ghost sb = b@.take(nb as int);
    let mut k: usize = 0;
    while k < na && k < nb && a[na - 1 - k] == b[nb - 1 - k]
        invariant
            k <= na <= MAX_CHAIN_LEN,
            k <= nb <= MAX_CHAIN_LEN,
            sa == a@.take(na as int),
            sb == b@.take(nb as int),
            forall|j: int| 0 <= j < k ==> #[trigger] from_end(sa, j) == from_end(sb, j),
        decreases na - k,
    {
        assert(from_end(sa, k as int) == a@[na - 1 - k]);
        assert(from_end(sb, k as int) == b@[nb - 1 - k]);
        k = k + 1;
    }
    proof {
        if k < na && k < nb {
            assert(from_end(sa, k as int) == a@[na - 1 - k]);
            assert(from_end(sb, k as int) == b@[nb - 1 - k]);
        }
        lemma_shared_root_len_scan(sa, sb, k as int);
    }
    k
}

/// The first `n` hashes of `c`, in an array of `MAX_TREE_DEPTH`.
fn hops_prefix(c: &[u32; MAX_CHAIN_LEN], n: usize) -> (r: [u32; MAX_TREE_DEPTH])
    requires
        n <= MAX_TREE_DEPTH,
    ensures
        r@.take(n as int) == c@.take(n as int),
{
    let mut r: [u32; MAX_TREE_DEPTH] = [0; MAX_TREE_DEPTH];
    let mut i: usize = 0;
    while i < n
        invariant
            i <= n <= MAX_TREE_DEPTH,
            forall|j: int| 0 <= j < i ==> r@[j] == c@[j],
        decreases n - i,
    {
        r[i] = c[i];
        i = i + 1;
    }
    assert(r@.take(n as int) =~= c@.take(n as int));
    r
}

/// Splits the chains of `h1` and `h2` at their nearest common node.
fn catalog_split(lut: &LookupTable, data: &Vec<Ephemeris>, h1: u32, h2: u32) -> (r: Result<
    TranslationPath,
    AniseError,
>)
    requires
        lut.wf(),
    ensures
        match split_in(*lut, data@, h1, h2) {
            Ok(split) => r matches Ok(p) && p.is_split(split),
            Err(e) => r == Err::<TranslationPath, AniseError>(e),
        },
{
    let (na, a) = match catalog_chain(lut, data, h1) {
        Ok(x) => x,
        Err(e) => {
            return Err(e);
        },
    };
    let (nb, b) = match catalog_chain(lut, data, h2) {
        Ok(x) => x,
        Err(e) => {
            return Err(e);
        },
    };
    let ghost sa = a@.take(na as int);
    let ghost sb = b@.take(nb as int);
    proof {
        lemma_full_chain_shape(*lut, data@, h1);
        lemma_full_chain_shape(*lut, data@, h2);
        lemma_split_symmetric(sa, sb);
        lemma_shared_root_len_agrees(sa, sb);
    }
    let k = shared_tail(&a, na, &b, nb);
    let from_len = na - k;
    let to_len = nb - k;
    let common = a[from_len];
    let from_nodes = hops_prefix(&a, from_len);
    let to_nodes = hops_prefix(&b, to_len);
    let p = TranslationPath { common, from_len, from_nodes, to_len, to_nodes };
    proof {
        assert(sa.take(from_len as int) =~= a@.take(from_len as int));
        assert(sb.take(to_len as int) =~= b@.take(to_len as int));
    }
    Ok(p)
}

/// The path of a frame to itself: no hop on either side.
fn identity_path(node: u32) -> (r: TranslationPath)
    ensures
        r.is_split((node, Seq::empty(), Seq::empty())),
{
    let p = TranslationPath {
        common: node,
        from_len: 0,
        from_nodes: [0; MAX_TREE_DEPTH],
        to_len: 0,
        to_nodes: [0; MAX_TREE_DEPTH],
    };
    assert(p.from_hops() =~= Seq::<u32>::empty());
    assert(p.to_hops() =~= Seq::<u32>::empty());
    p
}

impl<'a> AniseContext<'a> {
    /// The parent-first chain of ancestors of ephemeris `h`, up to the root.
    pub open spec fn ephemeris_ancestors(&self, h: u32) -> Result<Seq<u32>, AniseError> {
        ancestors_in(self.ephemeris_lut, self.ephemeris_data@, h, MAX_TREE_DEPTH as nat)
    }

    /// The parent-first chain of ancestors of orientation `h`, up to the root.
    pub open spec fn orientation_ancestors(&self, h: u32) -> Result<Seq<u32>, AniseError> {
        ancestors_in(self.orientation_lut, self.orientation_data@, h, MAX_TREE_DEPTH as nat)
    }

    /// The nearest common ephemeris node of two frames and the hops below it. A
    /// frame and itself meet at its own center with no hop, without any lookup.
    pub open spec fn ephemeris_split(&self, from: Frame, to: Frame) -> Result<
        (u32, Seq<u32>, Seq<u32>),
        AniseError,
    > {
        if from == to {
            Ok((from.ephemeris_hash, Seq::empty(), Seq::empty()))
        } else {
            split_in(self.ephemeris_lut, self.ephemeris_data@, from.ephemeris_hash, to.ephemeris_hash)
        }
    }

    /// The nearest common orientation node of two frames and the hops below it.
    pub open spec fn orientation_split(&self, from: Frame, to: Frame) -> Result<
        (u32, Seq<u32>, Seq<u32>),
        AniseError,
    > {
        if from == to {
            Ok((from.orientation_hash, Seq::empty(), Seq::empty()))
        } else {
            split_in(
                self.orientation_lut,
                self.orientation_data@,
                from.orientation_hash,
                to.orientation_hash,
            )
        }
    }

    /// Try to construct the path from the source frame all the way to the solar
    /// system barycenter: the number of ancestors, and the ancestors parent first.
    pub fn try_ephemeris_path(&self, source: &Frame) -> (r: Result<
        (usize, [Option<u32>; MAX_TREE_DEPTH]),
        AniseError,
    >)
        requires
            self.wf(),
        ensures
            match self.ephemeris_ancestors(source.ephemeris_hash) {
                Ok(s) => r matches Ok((len, path)) && len == s.len() && (forall|i: int|
                    0 <= i < len ==> path@[i] == Some(#[trigger] s[i])) && (forall|i: int|
                    len <= i < MAX_TREE_DEPTH ==> path@[i] == None::<u32>),
                Err(e) => r == Err::<(usize, [Option<u32>; MAX_TREE_DEPTH]), AniseError>(e),
            },
    {
        catalog_path(&self.ephemeris_lut, &self.ephemeris_data, source.ephemeris_hash)
    }

    /// The orientation counterpart of `try_ephemeris_path`.
    pub fn try_orientation_path(&self, source: &Frame) -> (r: Result<
        (usize, [Option<u32>; MAX_TREE_DEPTH]),
        AniseError,
    >)
        requires
            self.wf(),
        ensures
            match self.orientation_ancestors(source.orientation_hash) {
                Ok(s) => r matches Ok((len, path)) && len == s.len() && (forall|i: int|
                    0 <= i < len ==> path@[i] == Some(#[trigger] s[i])) && (forall|i: int|
                    len <= i < MAX_TREE_DEPTH ==> path@[i] == None::<u32>),
                Err(e) => r == Err::<(usize, [Option<u32>; MAX_TREE_DEPTH]), AniseError>(e),
            },
    {
        catalog_path(&self.orientation_lut, &self.orientation_data, source.orientation_hash)
    }

    /// The hops from each frame's ephemeris center down to their nearest common node.
    pub fn common_ephemeris_path(&self, from: Frame, to: Frame) -> (r: Result<
        TranslationPath,
        AniseError,
    >)
        requires
            self.wf(),
        ensures
            match self.ephemeris_split(from, to) {
                Ok(split) => r matches Ok(p) && p.is_split(split),
                Err(e) => r == Err::<TranslationPath, AniseError>(e),
            },
    {
        if from == to {
            return Ok(identity_path(from.ephemeris_hash));
        }
        catalog_split(&self.ephemeris_lut, &self.ephemeris_data, from.ephemeris_hash, to.ephemeris_hash)
    }

    /// The hops from each frame's orientation down to their nearest common node.
    pub fn common_orientation_path(&self, from: Frame, to: Frame) -> (r: Result<
        TranslationPath,
        AniseError,
    >)
        requires
            self.wf(),
        ensures
            match self.orientation_split(from, to) {
                Ok(split) => r matches Ok(p) && p.is_split(split),
                Err(e) => r == Err::<TranslationPath, AniseError>(e),
            },
    {
        if from == to {
            return Ok(identity_path(from.orientation_hash));
        }
        catalog_split(
            &self.orientation_lut,
            &self.orientation_data,
            from.orientation_hash,
            to.orientation_hash,
        )
    }

    /// The nearest common ephemeris node of two frames.
    pub open spec fn common_ephemeris_node(&self, from: Frame, to: Frame) -> Result<u32, AniseError> {
        match self.ephemeris_split(from, to) {
            Ok(split) => Ok(split.0),
            Err(e) => Err(e),
        }
    }

    /// The nearest common ephemeris node of two frames.
    pub fn find_common_ephemeris_node(&self, from: Frame, to: Frame) -> (r: Result<u32, AniseError>)
        requires
            self.wf(),
        ensures
            r == self.common_ephemeris_node(from, to),
    {
        match self.common_ephemeris_path(from, to) {
            Ok(p) => Ok(p.common),
            Err(e) => Err(e),
        }
    }

    /// The root of the ephemeris tree, reached from the first entry of the
    /// ephemeris lookup table; `ItemNotFound` if the table is empty.
    pub fn try_find_context_root(&self) -> (r: Result<u32, AniseError>)
        requires
            self.wf(),
        ensures
            self.ephemeris_lut.hashes@.len() == 0 ==> r == Err::<u32, AniseError>(
                AniseError::ItemNotFound,
            ),
            self.ephemeris_lut.hashes@.len() > 0 ==> match self.ephemeris_ancestors(
                self.ephemeris_lut.hashes@[0],
            ) {
                Ok(s) => r == Ok::<u32, AniseError>(s.last()),
                Err(e) => r == Err::<u32, AniseError>(e),
            },
    {
        if self.ephemeris_lut.hashes.len() == 0 {
            return Err(AniseError::ItemNotFound);
        }
        let first = self.ephemeris_lut.hashes[0];
        let (len, path) = match catalog_path(&self.ephemeris_lut, &self.ephemeris_data, first) {
            Ok(x) => x,
            Err(e) => {
                return Err(e);
            },
        };
        proof {
            lemma_ancestors_shape(self.ephemeris_lut, self.ephemeris_data@, first, MAX_TREE_DEPTH as nat);
        }
        match path[len - 1] {
            Some(root) => Ok(root),
            None => Err(AniseError::ItemNotFound),
        }
    }

    /// A frame meets itself at its own center and orientation with no hop on
    /// either side, so its state relative to itself composes to exactly zero
    /// position and velocity and to the identity rotation.
    pub proof fn lemma_identity(&self, f: Frame)
        ensures
            self.ephemeris_split(f, f) == Ok::<(u32, Seq<u32>, Seq<u32>), AniseError>(
                (f.ephemeris_hash, Seq::empty(), Seq::empty()),
            ),
            self.orientation_split(f, f) == Ok::<(u32, Seq<u32>, Seq<u32>), AniseError>(
                (f.orientation_hash, Seq::empty(), Seq::empty()),
            ),
    {
    }

    /// Swapping the two frames swaps the two lists of hops and keeps the common
    /// node, so the composed state of `from` relative to `to` is the negation of
    /// that of `to` relative to `from`. Success does not depend on the order.
    pub proof fn lemma_split_swap(&self, from: Frame, to: Frame)
        ensures
            self.ephemeris_split(from, to).is_ok() <==> self.ephemeris_split(to, from).is_ok(),
            self.ephemeris_split(from, to) matches Ok(s) ==> self.ephemeris_split(to, from)
                == Ok::<(u32, Seq<u32>, Seq<u32>), AniseError>((s.0, s.2, s.1)),
            self.orientation_split(from, to).is_ok() <==> self.orientation_split(
                to,
                from,
            ).is_ok(),
            self.orientation_split(from, to) matches Ok(s) ==> self.orientation_split(to, from)
                == Ok::<(u32, Seq<u32>, Seq<u32>), AniseError>((s.0, s.2, s.1)),
    {
        let (el, ed) = (self.ephemeris_lut, self.ephemeris_data@);
        let (ol, od) = (self.orientation_lut, self.orientation_data@);
        lemma_full_chain_shape(el, ed, from.ephemeris_hash);
        lemma_full_chain_shape(el, ed, to.ephemeris_hash);
        lemma_full_chain_shape(ol, od, from.orientation_hash);
        lemma_full_chain_shape(ol, od, to.orientation_hash);
        if let (Ok(a), Ok(b)) = (
            full_chain(el, ed, from.ephemeris_hash),
            full_chain(el, ed, to.ephemeris_hash),
        ) {
            lemma_split_symmetric(a, b);
        }
        if let (Ok(a), Ok(b)) = (
            full_chain(ol, od, from.orientation_hash),
            full_chain(ol, od, to.orientation_hash),
        ) {
            lemma_split_symmetric(a, b);
        }
    }

    /// The nearest common ephemeris node does not depend on the order of the two
    /// frames. (Where both frames' chains fail, each order reports its first
    /// frame's error, and these may differ.)
    pub proof fn lemma_common_node_symmetric(&self, f1: Frame, f2: Frame)
        requires
            f1 == f2 || full_chain(self.ephemeris_lut, self.ephemeris_data@, f1.ephemeris_hash).is_ok()
                || full_chain(self.ephemeris_lut, self.ephemeris_data@, f2.ephemeris_hash).is_ok(),
        ensures
            self.common_ephemeris_node(f1, f2) == self.common_ephemeris_node(f2, f1),
    {
        self.lemma_split_swap(f1, f2);
    }

    /// Every ancestor chain holds at most `MAX_TREE_DEPTH` hashes and ends at the
    /// root; a node whose chain would need one hop more fails with the tree depth
    /// error instead of being cut short or walked forever.
    pub proof fn lemma_depth_bound(&self, h: u32)
        ensures
            self.ephemeris_ancestors(h) matches Ok(s) ==> 1 <= s.len() <= MAX_TREE_DEPTH
                && s.last() == SOLAR_SYSTEM_BARYCENTER,
            ancestors_in(self.ephemeris_lut, self.ephemeris_data@, h, MAX_TREE_DEPTH as nat + 1) matches Ok(s)
                && s.len() > MAX_TREE_DEPTH ==> self.ephemeris_ancestors(h) == Err::<Seq<u32>, AniseError>(
                AniseError::MaxTreeDepth,
            ),
    {
        lemma_ancestors_shape(self.ephemeris_lut, self.ephemeris_data@, h, MAX_TREE_DEPTH as nat);
        if let Ok(s) = ancestors_in(self.ephemeris_lut, self.ephemeris_data@, h, MAX_TREE_DEPTH as nat + 1) {
            if s.len() > MAX_TREE_DEPTH {
                lemma_depth_exceeded(
                    self.ephemeris_lut,
                    self.ephemeris_data@,
                    h,
                    MAX_TREE_DEPTH as nat + 1,
                    MAX_TREE_DEPTH as nat,
                );
            }
        }
    }

    /// Where every node met before the root has a record, the path of `h` fails
    /// with the tree depth error exactly when none of its first `MAX_TREE_DEPTH`
    /// parents is the root (a further hop would be needed), and succeeds otherwise.
    pub proof fn lemma_depth_error_exact(&self, h: u32)
        requires
            forall|k: nat|
                k < MAX_TREE_DEPTH && (forall|j: nat|
                    1 <= j <= k ==> #[trigger] nth_parent(self.ephemeris_lut, self.ephemeris_data@, h, j)
                        != SOLAR_SYSTEM_BARYCENTER) ==> (#[trigger] parent_in(
                    self.ephemeris_lut,
                    self.ephemeris_data@,
                    nth_parent(self.ephemeris_lut, self.ephemeris_data@, h, k),
                )).is_ok(),
        ensures
            self.ephemeris_ancestors(h) == Err::<Seq<u32>, AniseError>(AniseError::MaxTreeDepth)
                <==> (forall|k: nat|
                1 <= k <= MAX_TREE_DEPTH ==> #[trigger] nth_parent(
                    self.ephemeris_lut,
                    self.ephemeris_data@,
                    h,
                    k,
                ) != SOLAR_SYSTEM_BARYCENTER),
            self.ephemeris_ancestors(h) != Err::<Seq<u32>, AniseError>(AniseError::MaxTreeDepth)
                ==> self.ephemeris_ancestors(h).is_ok(),
    {
        lemma_depth_error_iff(self.ephemeris_lut, self.ephemeris_data@, h, MAX_TREE_DEPTH as nat);
    }

    /// For two frames whose chains are found, the nearest common ephemeris node is
    /// the first hash of either chain that occurs in the other, the same from both
    /// sides; two frames on one center meet at that center.
    pub proof fn lemma_common_node_first_occurrence(&self, f1: Frame, f2: Frame)
        requires
            self.wf(),
            full_chain(self.ephemeris_lut, self.ephemeris_data@, f1.ephemeris_hash).is_ok(),
            full_chain(self.ephemeris_lut, self.ephemeris_data@, f2.ephemeris_hash).is_ok(),
        ensures
            ({
                let a = full_chain(self.ephemeris_lut, self.ephemeris_data@, f1.ephemeris_hash)->Ok_0;
                let b = full_chain(self.ephemeris_lut, self.ephemeris_data@, f2.ephemeris_hash)->Ok_0;
                &&& first_shared_from(a, b, 0) < a.len()
                &&& first_common(a, b) == first_common(b, a)
                &&& self.common_ephemeris_node(f1, f2) == Ok::<u32, AniseError>(first_common(a, b))
                &&& f1.ephemeris_hash == f2.ephemeris_hash ==> first_common(a, b) == f1.ephemeris_hash
            }),
    {
        let (lut, data) = (self.ephemeris_lut, self.ephemeris_data@);
        self.lemma_chain_is_walk(f1.ephemeris_hash);
        self.lemma_chain_is_walk(f2.ephemeris_hash);
        let a = full_chain(lut, data, f1.ephemeris_hash)->Ok_0;
        let b = full_chain(lut, data, f2.ephemeris_hash)->Ok_0;
        lemma_first_common_symmetric(lut, data, a, b);
        lemma_split_is_first_common(lut, data, a, b);
        if f1.ephemeris_hash == f2.ephemeris_hash {
            assert(b.contains(a[0])) by {
                assert(b[0] == a[0]);
            }
        }
    }

    /// The chain of a node of a well-formed context is a walk to the root: the
    /// root's hash has no record, so no chain passes it before its end.
    pub proof fn lemma_chain_is_walk(&self, h: u32)
        requires
            self.wf(),
        ensures
            full_chain(self.ephemeris_lut, self.ephemeris_data@, h) matches Ok(a) ==> is_walk(
                self.ephemeris_lut,
                self.ephemeris_data@,
                a,
            ) && a[0] == h,
    {
        let (lut, data) = (self.ephemeris_lut, self.ephemeris_data@);
        reveal(is_walk);
        lemma_ancestors_walk(lut, data, h, MAX_TREE_DEPTH as nat);
        lut.lemma_lookup_hash(data, h);
        if let Ok(s) = ancestors_in(lut, data, h, MAX_TREE_DEPTH as nat) {
            let a = seq![h] + s;
            if let Some(i) = lut.lookup(h) {
                assert(data[i as int].valid(self.segments@.len() as int));
            }
            assert forall|i: int| 0 <= i < a.len() - 1 implies (#[trigger] a[i])
                != SOLAR_SYSTEM_BARYCENTER && parent_in(lut, data, a[i]) == Ok::<u32, AniseError>(
                a[i + 1],
            ) by {
                if i > 0 {
                    assert(a[i] == s[i - 1]);
                    assert(a[i + 1] == s[i]);
                }
            }
            assert(a.last() == s.last());
        }
    }

    /// Try to return the ephemeris for the provided index, or returns an error.
    pub fn try_ephemeris_data(&self, idx: usize) -> (r: Result<&Ephemeris, AniseError>)
        ensures
            idx < self.ephemeris_data@.len() ==> (r matches Ok(e) && *e
                == self.ephemeris_data@[idx as int]),
            idx >= self.ephemeris_data@.len() ==> (r matches Err(e) && e
                == AniseError::IntegrityError(IntegrityErrorKind::LookupTable)),
    {
        if idx < self.ephemeris_data.len() {
            Ok(&self.ephemeris_data[idx])
        } else {
            Err(AniseError::IntegrityError(IntegrityErrorKind::LookupTable))
        }
    }

    /// Try to return the orientation for the provided index, or returns an error.
    pub fn try_orientation_data(&self, idx: usize) -> (r: Result<&Ephemeris, AniseError>)
        ensures
            idx < self.orientation_data@.len() ==> (r matches Ok(e) && *e
                == self.orientation_data@[idx as int]),
            idx >= self.orientation_data@.len() ==> (r matches Err(e) && e
                == AniseError::IntegrityError(IntegrityErrorKind::LookupTable)),
    {
        if idx < self.orientation_data.len() {
            Ok(&self.orientation_data[idx])
        } else {
            Err(AniseError::IntegrityError(IntegrityErrorKind::LookupTable))
        }
    }
}

} // verus!
