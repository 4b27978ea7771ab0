//! A first-fit free list of address ranges.
//!
//! The list is kept as a sequence of regions, the head first, exactly in the
//! order in which the allocator walks them. Freeing coalesces a region with
//! the first neighbour that touches it, repeatedly, and pushes the result at
//! the head; allocating takes the first region that can hold an aligned range
//! and gives back what is left of it on either side.
use vstd::prelude::*;
use crate::text::{hex_digits, hex_fixed, hex_lower, push_hex_digits, push_hex_fixed, push_hex_lower};

use crate::layout::{Layout, lemma_mask_is_multiple};
use vstd::arithmetic::power2::is_pow2;

verus! {

/// One free region: `len` bytes starting at address `start`.
#[derive(Clone, Copy, Debug, PartialEq, Eq, Structural)]
pub struct Node {
    pub start: u64,
    pub len: usize,
}

/// Errors of the free list.
#[derive(Clone, Copy, Debug, PartialEq, Eq, Structural)]
pub enum Error {
    /// The range `adr .. adr + len` lies in no single free region.
    ReserveError { adr: u64, len: usize },
    /// No free region can hold the requested range.
    InsufficientSpace,
}

impl Error {
    /// The text shown for the error.
    pub open spec fn text(&self) -> Seq<char> {
        match self {
            Error::ReserveError { adr, len } => "reserve error: (adr: 0x"@ + hex_fixed(*adr as nat, 16, false)
                + ", len: 0x"@ + hex_lower(*len as nat) + ")"@,
            Error::InsufficientSpace => "insufficient space"@,
        }
    }

    /// The text shown for the error.
    pub fn message(&self) -> (r: String)
        ensures
            r@ == self.text(),
    {
        match self {
            Error::ReserveError { adr, len } => {
                let mut out = String::from_str("reserve error: (adr: 0x");
                push_hex_fixed(&mut out, *adr, 16, false);
                out.append(", len: 0x");
                push_hex_lower(&mut out, *len as u64);
                out.append(")");
                out
            },
            Error::InsufficientSpace => String::from_str("insufficient space"),
        }
    }
}

/// The largest value an address range may end at (one past `u64::MAX`).
pub open spec fn address_limit() -> int {
    u64::MAX as int + 1
}

/// One past the last byte of `n`.
pub open spec fn end(n: Node) -> int {
    n.start + n.len
}

/// A region that the list may hold: not empty, and inside the address space.
pub open spec fn node_ok(n: Node) -> bool {
    n.len > 0 && end(n) <= address_limit()
}

pub open spec fn nodes_ok(s: Seq<Node>) -> bool {
    forall|i: int| 0 <= i < s.len() ==> #[trigger] node_ok(s[i])
}

/// `c` and `n` touch: one ends where the other starts.
pub open spec fn adjacent(c: Node, n: Node) -> bool {
    c.start == end(n) || end(c) == n.start
}

/// `i` is the first position of `s` that touches `n`.
pub open spec fn is_first_adjacent(s: Seq<Node>, n: Node, i: int) -> bool {
    &&& 0 <= i < s.len()
    &&& adjacent(s[i], n)
    &&& forall|j: int| 0 <= j < i ==> !adjacent(#[trigger] s[j], n)
}

pub open spec fn has_adjacent(s: Seq<Node>, n: Node) -> bool {
    exists|i: int| is_first_adjacent(s, n, i)
}

pub open spec fn first_adjacent(s: Seq<Node>, n: Node) -> int {
    choose|i: int| is_first_adjacent(s, n, i)
}

/// The region that covers both `c` and the region `n` that touches it.
pub open spec fn merge(c: Node, n: Node) -> Node {
    if c.start == end(n) {
        Node { start: n.start, len: (c.len + n.len) as usize }
    } else {
        Node { start: c.start, len: (c.len + n.len) as usize }
    }
}

/// The list after inserting `n` into `s`: an empty region is dropped; a region
/// that touches an existing one absorbs it (the first such, in list order) and
/// is inserted again; otherwise it goes to the head.
pub open spec fn insert_spec(s: Seq<Node>, n: Node) -> Seq<Node>
    decreases s.len(),
{
    if n.len == 0 {
        s
    } else if has_adjacent(s, n) {
        let i = first_adjacent(s, n);
        insert_spec(s.remove(i), merge(s[i], n))
    } else {
        seq![n] + s
    }
}

/// Every merge that inserting `n` into `s` performs keeps its length in a `usize`.
pub open spec fn insert_fits(s: Seq<Node>, n: Node) -> bool
    decreases s.len(),
{
    if n.len == 0 {
        true
    } else if has_adjacent(s, n) {
        let i = first_adjacent(s, n);
        s[i].len + n.len <= usize::MAX && insert_fits(s.remove(i), merge(s[i], n))
    } else {
        true
    }
}

/// The first address at or above `start` that the allocator takes for
/// alignment `align`: `start + align - 1` with the bits of `align - 1` cleared.
pub open spec fn align_up(start: u64, align: usize) -> u64 {
    ((start + align - 1) as u64) & !((align - 1) as u64)
}

/// What a request for `len` bytes aligned to `align` gives and leaves: the
/// aligned start of the first region that fits, taken out of the list, or a
/// failure for want of space.
pub open spec fn alloc_outcome(s: Seq<Node>, align: usize, len: usize) -> (Result<u64, Error>, Seq<Node>) {
    if has_fit(s, align, len) {
        let k = first_fit(s, align, len);
        (Ok(align_up(s[k].start, align)), alloc_result(s, align, len, k))
    } else {
        (Err(Error::InsufficientSpace), s)
    }
}

/// `n` can hold `len` bytes starting at `align_up(n.start, align)`.
pub open spec fn fits(n: Node, align: usize, len: usize) -> bool {
    end(n) >= align_up(n.start, align) + len
}

/// The allocator's arithmetic on `n` stays inside `u64`.
pub open spec fn visit_safe(n: Node, align: usize, len: usize) -> bool {
    &&& n.start + align <= u64::MAX
    &&& end(n) <= u64::MAX
    &&& align_up(n.start, align) + len <= u64::MAX
}

pub open spec fn is_first_fit(s: Seq<Node>, align: usize, len: usize, k: int) -> bool {
    &&& 0 <= k < s.len()
    &&& fits(s[k], align, len)
    &&& forall|j: int| 0 <= j < k ==> !fits(#[trigger] s[j], align, len)
}

pub open spec fn has_fit(s: Seq<Node>, align: usize, len: usize) -> bool {
    exists|k: int| is_first_fit(s, align, len, k)
}

pub open spec fn first_fit(s: Seq<Node>, align: usize, len: usize) -> int {
    choose|k: int| is_first_fit(s, align, len, k)
}

/// Every region that a search for `len` bytes aligned to `align` inspects
/// keeps the arithmetic inside `u64`.
pub open spec fn alloc_safe(s: Seq<Node>, align: usize, len: usize) -> bool {
    forall|k: int|
        0 <= k < s.len() && (forall|j: int| 0 <= j < k ==> !fits(#[trigger] s[j], align, len))
            ==> visit_safe(#[trigger] s[k], align, len)
}

/// The part of region `n` below `a`.
pub open spec fn below(n: Node, a: u64) -> Node {
    Node { start: n.start, len: (a - n.start) as usize }
}

/// The part of region `n` above `a .. a + len`.
pub open spec fn above(n: Node, a: u64, len: usize) -> Node {
    Node { start: (a + len) as u64, len: (end(n) - (a + len)) as usize }
}

/// The list after taking `a .. a + len` out of region `k`: the region is
/// removed and what is left of it below and above the range is inserted again.
pub open spec fn carve(s: Seq<Node>, k: int, a: u64, len: usize) -> Seq<Node> {
    insert_spec(insert_spec(s.remove(k), below(s[k], a)), above(s[k], a, len))
}

/// The merges that `carve` performs stay inside `usize`.
pub open spec fn carve_fits(s: Seq<Node>, k: int, a: u64, len: usize) -> bool {
    &&& insert_fits(s.remove(k), below(s[k], a))
    &&& insert_fits(insert_spec(s.remove(k), below(s[k], a)), above(s[k], a, len))
}

/// The list after allocating `len` bytes aligned to `align` from region `k`:
/// a region that is aligned already is shortened from its start in place.
pub open spec fn alloc_result(s: Seq<Node>, align: usize, len: usize, k: int) -> Seq<Node> {
    let n = s[k];
    if align_up(n.start, align) == n.start {
        if n.len - len > 0 {
            s.update(k, Node { start: (n.start + len) as u64, len: (n.len - len) as usize })
        } else {
            s.remove(k)
        }
    } else {
        carve(s, k, align_up(n.start, align), len)
    }
}

/// The merges that allocating from region `k` performs stay inside `usize`.
pub open spec fn alloc_fits(s: Seq<Node>, align: usize, len: usize, k: int) -> bool {
    align_up(s[k].start, align) != s[k].start ==> carve_fits(s, k, align_up(s[k].start, align), len)
}

/// The region of `n` that contains `a .. a + count`, if `n` does.
pub open spec fn contains(n: Node, a: u64, count: usize) -> bool {
    n.start <= a && a + count <= end(n)
}

pub open spec fn is_first_container(s: Seq<Node>, a: u64, count: usize, k: int) -> bool {
    &&& 0 <= k < s.len()
    &&& contains(s[k], a, count)
    &&& forall|j: int| 0 <= j < k ==> !contains(#[trigger] s[j], a, count)
}

pub open spec fn has_container(s: Seq<Node>, a: u64, count: usize) -> bool {
    exists|k: int| is_first_container(s, a, count, k)
}

pub open spec fn first_container(s: Seq<Node>, a: u64, count: usize) -> int {
    choose|k: int| is_first_container(s, a, count, k)
}

/// `start .. start + len` begins inside `n`, or ends inside it.
pub open spec fn touches_range(n: Node, start: u64, len: usize) -> bool {
    (n.start <= start && start < end(n)) || (n.start < start + len && start + len <= end(n))
}

pub open spec fn contains_range_spec(s: Seq<Node>, start: u64, len: usize) -> bool {
    exists|i: int| 0 <= i < s.len() && touches_range(#[trigger] s[i], start, len)
}

/// Address `x` lies in region `n`.
pub open spec fn in_node(n: Node, x: int) -> bool {
    n.start <= x < end(n)
}

/// The addresses `start .. start + len`.
pub open spec fn range_set(start: int, len: int) -> Set<int> {
    Set::new(|x: int| start <= x < start + len)
}

/// Every address that some region of `s` holds.
pub open spec fn covered(s: Seq<Node>) -> Set<int> {
    Set::new(|x: int| exists|i: int| 0 <= i < s.len() && #[trigger] in_node(s[i], x))
}

/// `a` and `b` share no address.
pub open spec fn apart(a: Node, b: Node) -> bool {
    end(a) <= b.start || end(b) <= a.start
}

/// No two regions of `s` share an address.
pub open spec fn pairwise_disjoint(s: Seq<Node>) -> bool {
    forall|i: int, j: int|
        0 <= i < s.len() && 0 <= j < s.len() && i != j ==> apart(#[trigger] s[i], #[trigger] s[j])
}

/// Region `n` shares no address with any region of `s`.
pub open spec fn apart_from_all(s: Seq<Node>, n: Node) -> bool {
    forall|i: int| 0 <= i < s.len() ==> apart(#[trigger] s[i], n)
}

proof fn lemma_covered_remove(s: Seq<Node>, i: int)
    requires
        0 <= i < s.len(),
    ensures
        covered(s) == covered(s.remove(i)).union(range_set(s[i].start as int, s[i].len as int)),
{
    s.remove_ensures(i);
    let r = s.remove(i);
    let u = covered(r).union(range_set(s[i].start as int, s[i].len as int));
    assert forall|x: int| covered(s).contains(x) implies u.contains(x) by {
        let j = choose|j: int| 0 <= j < s.len() && #[trigger] in_node(s[j], x);
        if j < i {
            assert(in_node(r[j], x));
        } else if j > i {
            assert(in_node(r[j - 1], x));
        }
    }
    assert forall|x: int| u.contains(x) implies covered(s).contains(x) by {
        if covered(r).contains(x) {
            let j = choose|j: int| 0 <= j < r.len() && #[trigger] in_node(r[j], x);
            if j < i {
                assert(in_node(s[j], x));
            } else {
                assert(in_node(s[j + 1], x));
            }
        } else {
            assert(in_node(s[i], x));
        }
    }
    assert(covered(s) =~= u);
}

proof fn lemma_covered_front(s: Seq<Node>, n: Node)
    ensures
        covered(seq![n] + s) == covered(s).union(range_set(n.start as int, n.len as int)),
{
    let t = seq![n] + s;
    let u = covered(s).union(range_set(n.start as int, n.len as int));
    assert forall|x: int| covered(t).contains(x) implies u.contains(x) by {
        let j = choose|j: int| 0 <= j < t.len() && #[trigger] in_node(t[j], x);
        if j > 0 {
            assert(in_node(s[j - 1], x));
        }
    }
    assert forall|x: int| u.contains(x) implies covered(t).contains(x) by {
        if covered(s).contains(x) {
            let j = choose|j: int| 0 <= j < s.len() && #[trigger] in_node(s[j], x);
            assert(in_node(t[j + 1], x));
        } else {
            assert(in_node(t[0], x));
        }
    }
    assert(covered(t) =~= u);
}

proof fn lemma_remove_disjoint(s: Seq<Node>, i: int)
    requires
        0 <= i < s.len(),
        pairwise_disjoint(s),
    ensures
        pairwise_disjoint(s.remove(i)),
        apart_from_all(s.remove(i), s[i]),
{
    s.remove_ensures(i);
    let r = s.remove(i);
    assert forall|a: int, b: int|
        0 <= a < r.len() && 0 <= b < r.len() && a != b implies apart(#[trigger] r[a], #[trigger] r[b]) by {
        let a2 = if a < i { a } else { a + 1 };
        let b2 = if b < i { b } else { b + 1 };
        assert(apart(s[a2], s[b2]));
    }
    assert forall|a: int| 0 <= a < r.len() implies apart(#[trigger] r[a], s[i]) by {
        let a2 = if a < i { a } else { a + 1 };
        assert(apart(s[a2], s[i]));
    }
}

/// Inserting a region adds exactly its addresses to those the list covers.
pub proof fn lemma_insert_covered(s: Seq<Node>, n: Node)
    requires
        insert_fits(s, n),
    ensures
        covered(insert_spec(s, n)) == covered(s).union(range_set(n.start as int, n.len as int)),
    decreases s.len(),
{
    if n.len == 0 {
        assert(covered(s).union(range_set(n.start as int, n.len as int)) =~= covered(s));
    } else if has_adjacent(s, n) {
        let i = first_adjacent(s, n);
        let c = s[i];
        let m = merge(c, n);
        lemma_covered_remove(s, i);
        lemma_insert_covered(s.remove(i), m);
        assert(range_set(m.start as int, m.len as int) =~= range_set(c.start as int, c.len as int).union(
            range_set(n.start as int, n.len as int),
        ));
        assert(covered(insert_spec(s, n)) =~= covered(s).union(
            range_set(n.start as int, n.len as int),
        ));
    } else {
        lemma_covered_front(s, n);
    }
}

/// Inserting a region that shares no address with the list keeps the list's
/// regions pairwise disjoint.
pub proof fn lemma_insert_disjoint(s: Seq<Node>, n: Node)
    requires
        nodes_ok(s),
        pairwise_disjoint(s),
        n.len == 0 || apart_from_all(s, n),
        insert_fits(s, n),
    ensures
        pairwise_disjoint(insert_spec(s, n)),
    decreases s.len(),
{
    if n.len == 0 {
    } else if has_adjacent(s, n) {
        let i = first_adjacent(s, n);
        let c = s[i];
        let m = merge(c, n);
        lemma_remove_disjoint(s, i);
        lemma_remove_ok(s, i);
        s.remove_ensures(i);
        let r = s.remove(i);
        assert forall|a: int| 0 <= a < r.len() implies apart(#[trigger] r[a], m) by {
            let a2 = if a < i { a } else { a + 1 };
            assert(apart(s[a2], n));
            assert(node_ok(s[a2]));
        }
        lemma_insert_disjoint(r, m);
    } else {
        let t = seq![n] + s;
        assert forall|a: int, b: int|
            0 <= a < t.len() && 0 <= b < t.len() && a != b implies apart(#[trigger] t[a], #[trigger] t[b]) by {
            if a == 0 {
                assert(apart(s[b - 1], n));
            } else if b == 0 {
                assert(apart(s[a - 1], n));
            } else {
                assert(apart(s[a - 1], s[b - 1]));
            }
        }
    }
}

/// Inserting keeps every region non-empty and inside the address space.
pub proof fn lemma_insert_ok(s: Seq<Node>, n: Node)
    requires
        nodes_ok(s),
        end(n) <= address_limit(),
        insert_fits(s, n),
    ensures
        nodes_ok(insert_spec(s, n)),
    decreases s.len(),
{
    if n.len == 0 {
    } else if has_adjacent(s, n) {
        let i = first_adjacent(s, n);
        lemma_remove_ok(s, i);
        assert(node_ok(s[i]));
        lemma_insert_ok(s.remove(i), merge(s[i], n));
    } else {
        let t = seq![n] + s;
        assert forall|j: int| 0 <= j < t.len() implies #[trigger] node_ok(t[j]) by {
            if j > 0 {
                assert(t[j] == s[j - 1]);
            }
        }
    }
}

/// A non-empty region none of whose addresses the list covers is apart from
/// every region of the list.
proof fn lemma_apart_from_covered(s: Seq<Node>, n: Node)
    requires
        nodes_ok(s),
        n.len > 0,
        forall|x: int| #[trigger] covered(s).contains(x) ==> !(n.start <= x < end(n)),
    ensures
        apart_from_all(s, n),
{
    assert forall|j: int| 0 <= j < s.len() implies apart(#[trigger] s[j], n) by {
        assert(node_ok(s[j]));
        if !apart(s[j], n) {
            let x: int = if s[j].start <= n.start { n.start as int } else { s[j].start as int };
            assert(in_node(s[j], x));
            assert(covered(s).contains(x));
        }
    }
}

/// The addresses of the regions of `s` other than `k`, when `k` is apart from them.
proof fn lemma_covered_without(s: Seq<Node>, k: int)
    requires
        0 <= k < s.len(),
        pairwise_disjoint(s),
    ensures
        covered(s.remove(k)) == covered(s).difference(range_set(s[k].start as int, s[k].len as int)),
        pairwise_disjoint(s.remove(k)),
        apart_from_all(s.remove(k), s[k]),
{
    lemma_covered_remove(s, k);
    lemma_remove_disjoint(s, k);
    let r = s.remove(k);
    let nk = range_set(s[k].start as int, s[k].len as int);
    assert forall|x: int| covered(r).contains(x) implies !nk.contains(x) by {
        let j = choose|j: int| 0 <= j < r.len() && #[trigger] in_node(r[j], x);
        assert(apart(r[j], s[k]));
    }
    assert(covered(r) =~= covered(s).difference(nk));
}

/// Taking `a .. a + len` out of region `k` of a list of disjoint regions
/// removes exactly those addresses and keeps the regions disjoint.
pub proof fn lemma_carve_law(s: Seq<Node>, k: int, a: u64, len: usize)
    requires
        nodes_ok(s),
        pairwise_disjoint(s),
        0 <= k < s.len(),
        contains(s[k], a, len),
        carve_fits(s, k, a, len),
    ensures
        covered(carve(s, k, a, len)) == covered(s).difference(range_set(a as int, len as int)),
        pairwise_disjoint(carve(s, k, a, len)),
        nodes_ok(carve(s, k, a, len)),
{
    let n = s[k];
    assert(node_ok(n));
    let r = s.remove(k);
    let lo = below(n, a);
    let hi = above(n, a, len);
    lemma_covered_without(s, k);
    lemma_remove_ok(s, k);
    lemma_insert_covered(r, lo);
    lemma_insert_ok(r, lo);
    if lo.len > 0 {
        assert forall|j: int| 0 <= j < r.len() implies apart(#[trigger] r[j], lo) by {
            assert(apart(r[j], n));
        }
    }
    lemma_insert_disjoint(r, lo);
    let t = insert_spec(r, lo);
    lemma_insert_covered(t, hi);
    lemma_insert_ok(t, hi);
    if hi.len > 0 {
        assert forall|x: int| #[trigger] covered(t).contains(x) implies !(hi.start <= x < end(hi)) by {
            if covered(r).contains(x) {
                let j = choose|j: int| 0 <= j < r.len() && #[trigger] in_node(r[j], x);
                assert(apart(r[j], n));
            }
        }
        lemma_apart_from_covered(t, hi);
    }
    lemma_insert_disjoint(t, hi);
    assert(lo.len == a - n.start);
    assert(hi.len == end(n) - (a + len));
    assert(hi.len > 0 ==> hi.start == a + len);
    let all = range_set(n.start as int, n.len as int);
    let ar = range_set(a as int, len as int);
    assert(range_set(a as int, len as int).subset_of(covered(s))) by {
        assert forall|x: int| ar.contains(x) implies covered(s).contains(x) by {
            assert(in_node(s[k], x));
        }
    }
    let c = covered(carve(s, k, a, len));
    assert(c == covered(t).union(range_set(hi.start as int, hi.len as int)));
    assert(covered(t) == covered(r).union(range_set(lo.start as int, lo.len as int)));
    assert(covered(r) == covered(s).difference(all));
    assert forall|x: int| c.contains(x) implies covered(s).difference(ar).contains(x) by {
        if range_set(hi.start as int, hi.len as int).contains(x) {
            assert(in_node(s[k], x));
        } else if range_set(lo.start as int, lo.len as int).contains(x) {
            assert(in_node(s[k], x));
        }
    }
    assert forall|x: int| covered(s).difference(ar).contains(x) implies c.contains(x) by {
        if all.contains(x) {
            if x < a {
                assert(range_set(lo.start as int, lo.len as int).contains(x));
            } else {
                assert(range_set(hi.start as int, hi.len as int).contains(x));
            }
        }
    }
    assert(c =~= covered(s).difference(ar));
}

/// The free-address law of allocation: the allocated range was free, and
/// afterwards exactly it has left the free addresses.
pub proof fn lemma_alloc_law(s: Seq<Node>, align: usize, len: usize, k: int)
    requires
        nodes_ok(s),
        align > 0,
        0 <= k < s.len(),
        fits(s[k], align, len),
        visit_safe(s[k], align, len),
        alloc_fits(s, align, len, k),
    ensures
        contains(s[k], align_up(s[k].start, align), len),
        range_set(align_up(s[k].start, align) as int, len as int).subset_of(covered(s)),
        nodes_ok(alloc_result(s, align, len, k)),
        pairwise_disjoint(s) ==> {
            &&& covered(alloc_result(s, align, len, k)) == covered(s).difference(
                range_set(align_up(s[k].start, align) as int, len as int),
            )
            &&& pairwise_disjoint(alloc_result(s, align, len, k))
        },
{
    let n = s[k];
    let a = align_up(n.start, align);
    lemma_align_up_bounds(n.start, align);
    assert(node_ok(n));
    assert forall|x: int| range_set(a as int, len as int).contains(x) implies covered(s).contains(x) by {
        assert(in_node(s[k], x));
    }
    lemma_remove_ok(s, k);
    if a == n.start {
        let res = alloc_result(s, align, len, k);
        if n.len - len > 0 {
            let n2 = Node { start: (n.start + len) as u64, len: (n.len - len) as usize };
            assert forall|j: int| 0 <= j < res.len() implies #[trigger] node_ok(res[j]) by {
                if j != k {
                    assert(res[j] == s[j]);
                }
            }
            if pairwise_disjoint(s) {
                lemma_covered_without(s, k);
                assert(res.remove(k) =~= s.remove(k));
                lemma_covered_remove(res, k);
                assert(res[k] == n2);
                assert(n2.start == n.start + len && n2.len == n.len - len);
                let all = range_set(n.start as int, n.len as int);
                let ar = range_set(a as int, len as int);
                let r2 = range_set(n2.start as int, n2.len as int);
                assert(covered(res) == covered(res.remove(k)).union(r2));
                assert(covered(s.remove(k)) == covered(s).difference(all));
                assert forall|x: int| covered(res).contains(x) implies covered(s).difference(
                    ar,
                ).contains(x) by {
                    if r2.contains(x) {
                        assert(in_node(s[k], x));
                    }
                }
                assert forall|x: int| covered(s).difference(ar).contains(x) implies covered(
                    res,
                ).contains(x) by {
                    if all.contains(x) {
                        assert(r2.contains(x));
                    }
                }
                assert(covered(res) =~= covered(s).difference(ar));
                assert forall|i: int, j: int|
                    0 <= i < res.len() && 0 <= j < res.len() && i != j implies apart(
                    #[trigger] res[i],
                    #[trigger] res[j],
                ) by {
                    assert(apart(s[i], s[j]));
                }
            }
        } else {
            if pairwise_disjoint(s) {
                lemma_covered_without(s, k);
                assert(range_set(n.start as int, n.len as int) =~= range_set(a as int, len as int));
            }
        }
    } else {
        if pairwise_disjoint(s) {
            lemma_carve_law(s, k, a, len);
        } else {
            lemma_insert_ok(s.remove(k), below(n, a));
            lemma_insert_ok(insert_spec(s.remove(k), below(n, a)), above(n, a, len));
        }
    }
}

/// Taking a range out of the list and freeing it again leaves the list
/// covering exactly the addresses it covered before.
pub proof fn lemma_alloc_then_free(s: Seq<Node>, align: usize, len: usize, k: int)
    requires
        nodes_ok(s),
        pairwise_disjoint(s),
        align > 0,
        0 <= k < s.len(),
        fits(s[k], align, len),
        visit_safe(s[k], align, len),
        alloc_fits(s, align, len, k),
        insert_fits(alloc_result(s, align, len, k), Node { start: align_up(s[k].start, align), len }),
    ensures
        covered(insert_spec(alloc_result(s, align, len, k), Node { start: align_up(s[k].start, align), len }))
            == covered(s),
{
    let a = align_up(s[k].start, align);
    lemma_alloc_law(s, align, len, k);
    lemma_insert_covered(alloc_result(s, align, len, k), Node { start: a, len });
    assert(covered(s).difference(range_set(a as int, len as int)).union(range_set(a as int, len as int))
        =~= covered(s));
}

/// Reserving a range and freeing it again leaves the list covering exactly
/// the addresses it covered before.
pub proof fn lemma_reserve_then_free(s: Seq<Node>, k: int, a: u64, len: usize)
    requires
        nodes_ok(s),
        pairwise_disjoint(s),
        0 <= k < s.len(),
        contains(s[k], a, len),
        carve_fits(s, k, a, len),
        insert_fits(carve(s, k, a, len), Node { start: a, len }),
    ensures
        covered(insert_spec(carve(s, k, a, len), Node { start: a, len })) == covered(s),
{
    lemma_carve_law(s, k, a, len);
    lemma_insert_covered(carve(s, k, a, len), Node { start: a, len });
    lemma_contains_subset(s, k, a, len);
    assert(covered(s).difference(range_set(a as int, len as int)).union(range_set(a as int, len as int))
        =~= covered(s));
}

/// No two regions of `s` touch.
pub open spec fn no_adjacent(s: Seq<Node>) -> bool {
    forall|i: int, j: int|
        0 <= i < s.len() && 0 <= j < s.len() && i != j ==> !adjacent(#[trigger] s[i], #[trigger] s[j])
}

proof fn lemma_remove_no_adjacent(s: Seq<Node>, i: int)
    requires
        0 <= i < s.len(),
        no_adjacent(s),
    ensures
        no_adjacent(s.remove(i)),
{
    s.remove_ensures(i);
    let r = s.remove(i);
    assert forall|a: int, b: int|
        0 <= a < r.len() && 0 <= b < r.len() && a != b implies !adjacent(#[trigger] r[a], #[trigger] r[b]) by {
        let a2 = if a < i { a } else { a + 1 };
        let b2 = if b < i { b } else { b + 1 };
        assert(!adjacent(s[a2], s[b2]));
    }
}

/// A region of `s` that touches `n` makes a first such region.
proof fn lemma_some_adjacent(s: Seq<Node>, n: Node, j: int)
    requires
        0 <= j < s.len(),
        adjacent(s[j], n),
    ensures
        has_adjacent(s, n),
    decreases j,
{
    if exists|v: int| 0 <= v < j && #[trigger] adjacent(s[v], n) {
        let v = choose|v: int| 0 <= v < j && #[trigger] adjacent(s[v], n);
        lemma_some_adjacent(s, n, v);
    } else {
        assert(is_first_adjacent(s, n, j));
    }
}

/// Inserting a region into a list in which no two regions touch gives such a
/// list again: a region that touches another is merged with it.
pub proof fn lemma_insert_no_adjacent(s: Seq<Node>, n: Node)
    requires
        no_adjacent(s),
        insert_fits(s, n),
    ensures
        no_adjacent(insert_spec(s, n)),
    decreases s.len(),
{
    if n.len == 0 {
    } else if has_adjacent(s, n) {
        let i = first_adjacent(s, n);
        lemma_remove_no_adjacent(s, i);
        lemma_insert_no_adjacent(s.remove(i), merge(s[i], n));
    } else {
        let t = seq![n] + s;
        assert forall|j: int| 0 <= j < s.len() implies !adjacent(#[trigger] s[j], n) by {
            if adjacent(s[j], n) {
                lemma_some_adjacent(s, n, j);
            }
        }
        assert forall|a: int, b: int|
            0 <= a < t.len() && 0 <= b < t.len() && a != b implies !adjacent(#[trigger] t[a], #[trigger] t[b]) by {
            if a == 0 {
                assert(!adjacent(s[b - 1], n));
            } else if b == 0 {
                assert(!adjacent(s[a - 1], n));
            } else {
                assert(!adjacent(s[a - 1], s[b - 1]));
            }
        }
    }
}

/// Allocating from a list of disjoint regions of which no two touch leaves
/// no two regions touching.
proof fn lemma_alloc_no_adjacent(s: Seq<Node>, align: usize, len: usize, k: int)
    requires
        nodes_ok(s),
        pairwise_disjoint(s),
        no_adjacent(s),
        0 <= k < s.len(),
        fits(s[k], align, len),
        alloc_fits(s, align, len, k),
    ensures
        no_adjacent(alloc_result(s, align, len, k)),
{
    let n = s[k];
    if align_up(n.start, align) == n.start {
        if n.len - len > 0 {
            let m = Node { start: (n.start + len) as u64, len: (n.len - len) as usize };
            let t = s.update(k, m);
            assert(node_ok(n));
            assert(n.start + len < end(n));
            assert(m.start == n.start + len);
            assert(end(m) == end(n));
            assert forall|j: int| 0 <= j < s.len() && j != k implies !adjacent(#[trigger] s[j], m) by {
                assert(node_ok(s[j]));
                assert(apart(s[j], n));
                assert(!adjacent(s[j], n));
                if len > 0 {
                    assert(end(s[j]) != m.start);
                }
            }
            assert forall|a: int, b: int|
                0 <= a < t.len() && 0 <= b < t.len() && a != b implies !adjacent(#[trigger] t[a], #[trigger] t[b]) by {
                if a == k {
                    assert(!adjacent(s[b], m));
                } else if b == k {
                    assert(!adjacent(s[a], m));
                } else {
                    assert(!adjacent(s[a], s[b]));
                }
            }
        } else {
            lemma_remove_no_adjacent(s, k);
        }
    } else {
        let a = align_up(n.start, align);
        lemma_remove_no_adjacent(s, k);
        lemma_insert_no_adjacent(s.remove(k), below(n, a));
        lemma_insert_no_adjacent(insert_spec(s.remove(k), below(n, a)), above(n, a, len));
    }
}

/// Freeing what was just allocated from a list of disjoint regions of which
/// no two touch leaves the regions disjoint, none touching another.
pub proof fn lemma_alloc_then_free_apart(s: Seq<Node>, align: usize, len: usize, k: int)
    requires
        nodes_ok(s),
        pairwise_disjoint(s),
        no_adjacent(s),
        align > 0,
        0 <= k < s.len(),
        fits(s[k], align, len),
        visit_safe(s[k], align, len),
        alloc_fits(s, align, len, k),
        insert_fits(alloc_result(s, align, len, k), Node { start: align_up(s[k].start, align), len }),
    ensures
        pairwise_disjoint(insert_spec(alloc_result(s, align, len, k), Node { start: align_up(s[k].start, align), len })),
        no_adjacent(insert_spec(alloc_result(s, align, len, k), Node { start: align_up(s[k].start, align), len })),
{
    let a = align_up(s[k].start, align);
    let t = alloc_result(s, align, len, k);
    let r = Node { start: a, len };
    lemma_alloc_law(s, align, len, k);
    lemma_alloc_no_adjacent(s, align, len, k);
    lemma_insert_no_adjacent(t, r);
    if len > 0 {
        assert forall|x: int| #[trigger] covered(t).contains(x) implies !(r.start <= x < end(r)) by {
            assert(!range_set(a as int, len as int).contains(x));
        }
        lemma_apart_from_covered(t, r);
    }
    lemma_insert_disjoint(t, r);
}

/// A range inside a region of the list is covered by the list.
proof fn lemma_contains_subset(s: Seq<Node>, k: int, a: u64, len: usize)
    requires
        0 <= k < s.len(),
        contains(s[k], a, len),
    ensures
        range_set(a as int, len as int).subset_of(covered(s)),
{
    assert forall|x: int| range_set(a as int, len as int).contains(x) implies covered(s).contains(x) by {
        assert(in_node(s[k], x));
    }
}

impl Node {
    /// A region of `len` bytes at `start`; the range must end inside the
    /// address space.
    pub fn new(start: u64, len: usize) -> (r: Node)
        requires
            start + len <= address_limit(),
        ensures
            r.start == start,
            r.len == len,
    {
        Node { start, len }
    }
}

/// A free list of address ranges, walked first-fit from the head.
pub struct FreeList {
    nodes: Vec<Node>,
}

impl View for FreeList {
    type V = Seq<Node>;

    closed spec fn view(&self) -> Seq<Node> {
        self.nodes@
    }
}

proof fn lemma_first_adjacent(s: Seq<Node>, n: Node, i: int)
    requires
        is_first_adjacent(s, n, i),
    ensures
        has_adjacent(s, n),
        first_adjacent(s, n) == i,
{
    let k = first_adjacent(s, n);
    assert(is_first_adjacent(s, n, k));
    if k < i {
        assert(!adjacent(s[k], n));
    } else if i < k {
        assert(!adjacent(s[i], n));
    }
}

proof fn lemma_first_fit(s: Seq<Node>, align: usize, len: usize, k: int)
    requires
        is_first_fit(s, align, len, k),
    ensures
        has_fit(s, align, len),
        first_fit(s, align, len) == k,
{
    let f = first_fit(s, align, len);
    assert(is_first_fit(s, align, len, f));
    if f < k {
        assert(!fits(s[f], align, len));
    } else if k < f {
        assert(!fits(s[k], align, len));
    }
}

proof fn lemma_first_container(s: Seq<Node>, a: u64, count: usize, k: int)
    requires
        is_first_container(s, a, count, k),
    ensures
        has_container(s, a, count),
        first_container(s, a, count) == k,
{
    let f = first_container(s, a, count);
    assert(is_first_container(s, a, count, f));
    if f < k {
        assert(!contains(s[f], a, count));
    } else if k < f {
        assert(!contains(s[k], a, count));
    }
}

proof fn lemma_remove_ok(s: Seq<Node>, i: int)
    requires
        nodes_ok(s),
        0 <= i < s.len(),
    ensures
        nodes_ok(s.remove(i)),
{
    s.remove_ensures(i);
    assert forall|j: int| 0 <= j < s.remove(i).len() implies #[trigger] node_ok(s.remove(i)[j]) by {
        if j < i {
            assert(node_ok(s[j]));
        } else {
            assert(node_ok(s[j + 1]));
        }
    }
}

/// The bit-level rounding never moves below `start` and never moves by
/// `align` or more.
proof fn lemma_align_up_bounds(start: u64, align: usize)
    requires
        align > 0,
        start + align - 1 <= u64::MAX,
    ensures
        start <= align_up(start, align) <= start + align - 1,
{
    let x: u64 = (start + align - 1) as u64;
    let m: u64 = (align - 1) as u64;
    assert((x & !m) <= x) by (bit_vector);
    assert((x & !m) + (x & m) == x) by (bit_vector);
    assert((x & m) <= m) by (bit_vector);
}

/// One region as text: its first and last address as sixteen upper-case
/// hexadecimal digits, and its length in upper-case hexadecimal.
pub open spec fn region_text(n: Node) -> Seq<char> {
    hex_fixed(n.start as nat, 16, true) + ":"@ + hex_fixed((n.start + n.len - 1) as nat, 16, true)
        + " ("@ + hex_digits(n.len as nat, true) + ")"@
}

/// The regions of `s` as text, each followed by a comma and a space.
pub open spec fn regions_text(s: Seq<Node>) -> Seq<char>
    decreases s.len(),
{
    if s.len() == 0 {
        Seq::empty()
    } else {
        regions_text(s.drop_last()) + region_text(s.last()) + ", "@
    }
}

/// The list as its debug text shows it.
pub open spec fn list_text(s: Seq<Node>) -> Seq<char> {
    "FreeLists { regions: \"[ "@ + regions_text(s) + "]\" }"@
}

impl FreeList {
    /// The list as text, head first.
    pub fn describe(&self) -> (r: String)
        requires
            self.wf(),
        ensures
            r@ == list_text(self@),
    {
        let mut out = String::from_str("FreeLists { regions: \"[ ");
        let ghost pre = out@;
        let mut i: usize = 0;
        while i < self.nodes.len()
            invariant
                self.wf(),
                i <= self@.len(),
                pre == "FreeLists { regions: \"[ "@,
                out@ == pre + regions_text(self@.subrange(0, i as int)),
            decreases self@.len() - i,
        {
            let n = self.nodes[i];
            proof {
                assert(node_ok(self@[i as int]));
            }
            let ghost before = out@;
            push_hex_fixed(&mut out, n.start, 16, true);
            let ghost s1 = out@;
            out.append(":");
            let ghost s2 = out@;
            let last: u64 = n.start + (n.len as u64 - 1);
            push_hex_fixed(&mut out, last, 16, true);
            let ghost s3 = out@;
            out.append(" (");
            let ghost s4 = out@;
            push_hex_digits(&mut out, n.len as u64, true);
            let ghost s5 = out@;
            out.append(")");
            let ghost s6 = out@;
            out.append(", ");
            proof {
                assert(s1 == before + hex_fixed(n.start as nat, 16, true));
                assert(s2 == s1 + ":"@);
                assert(last as nat == (n.start + n.len - 1) as nat);
                assert(s3 == s2 + hex_fixed((n.start + n.len - 1) as nat, 16, true));
                assert(s4 == s3 + " ("@);
                assert(s5 == s4 + hex_digits(n.len as nat, true));
                assert(s6 == s5 + ")"@);
                assert(out@ == s6 + ", "@);
                let t = self@.subrange(0, i + 1);
                assert(t.drop_last() =~= self@.subrange(0, i as int));
                assert(t.last() == n);
                assert(out@ =~= before + region_text(n) + ", "@);
            }
            i = i + 1;
        }
        proof {
            assert(self@.subrange(0, self@.len() as int) =~= self@);
        }
        out.append("]\" }");
        out
    }

    /// An empty free list.
    pub fn new() -> (r: FreeList)
        ensures
            r@ == Seq::<Node>::empty(),
    {
        FreeList { nodes: Vec::new() }
    }

    /// The list's well-formedness: every region is non-empty and inside the
    /// address space.
    pub open spec fn wf(&self) -> bool {
        nodes_ok(self@)
    }

    /// The regions of the list, head first.
    pub fn regions(&self) -> (r: Vec<Node>)
        ensures
            r@ == self@,
    {
        self.nodes.clone()
    }

    /// Finds the first region that touches `n`.
    fn find_adjacent(&self, n: Node) -> (r: Option<usize>)
        ensures
            match r {
                Some(i) => is_first_adjacent(self@, n, i as int),
                None => forall|j: int| 0 <= j < self@.len() ==> !adjacent(#[trigger] self@[j], n),
            },
    {
        let n_end: u128 = n.start as u128 + n.len as u128;
        let mut i: usize = 0;
        while i < self.nodes.len()
            invariant
                i <= self.nodes@.len(),
                n_end == end(n),
                forall|j: int| 0 <= j < i ==> !adjacent(#[trigger] self.nodes@[j], n),
            decreases self.nodes@.len() - i,
        {
            let c = self.nodes[i];
            if c.start as u128 == n_end || c.start as u128 + c.len as u128 == n.start as u128 {
                return Some(i);
            }
            i = i + 1;
        }
        None
    }

    /// Inserts a region, merging it with the regions it touches.
    fn insert_node(&mut self, node: Node)
        requires
            nodes_ok(old(self)@),
            end(node) <= address_limit(),
            insert_fits(old(self)@, node),
        ensures
            final(self)@ == insert_spec(old(self)@, node),
            nodes_ok(final(self)@),
            covered(final(self)@) == covered(old(self)@).union(range_set(node.start as int, node.len as int)),
            pairwise_disjoint(old(self)@) && (node.len == 0 || apart_from_all(old(self)@, node))
                ==> pairwise_disjoint(final(self)@),
            no_adjacent(old(self)@) ==> no_adjacent(final(self)@),
    {
        proof {
            lemma_insert_covered(self@, node);
            if pairwise_disjoint(self@) && (node.len == 0 || apart_from_all(self@, node)) {
                lemma_insert_disjoint(self@, node);
            }
            if no_adjacent(self@) {
                lemma_insert_no_adjacent(self@, node);
            }
        }
        if node.len == 0 {
            return;
        }
        let mut n = node;
        loop
            invariant
                covered(insert_spec(old(self)@, node)) == covered(old(self)@).union(
                    range_set(node.start as int, node.len as int),
                ),
                pairwise_disjoint(old(self)@) && (node.len == 0 || apart_from_all(old(self)@, node))
                    ==> pairwise_disjoint(insert_spec(old(self)@, node)),
                no_adjacent(old(self)@) ==> no_adjacent(insert_spec(old(self)@, node)),
                n.len > 0,
                end(n) <= address_limit(),
                nodes_ok(self@),
                insert_fits(self@, n),
                insert_spec(self@, n) == insert_spec(old(self)@, node),
            decreases self@.len(),
        {
            match self.find_adjacent(n) {
                Some(i) => {
                    proof {
                        lemma_first_adjacent(self@, n, i as int);
                        lemma_remove_ok(self@, i as int);
                        assert(node_ok(self@[i as int]));
                    }
                    let c = self.nodes.remove(i);
                    let merged = if c.start as u128 == n.start as u128 + n.len as u128 {
                        Node { start: n.start, len: c.len + n.len }
                    } else {
                        Node { start: c.start, len: c.len + n.len }
                    };
                    n = merged;
                },
                None => {
                    proof {
                        assert(!has_adjacent(self@, n));
                    }
                    let ghost before = self@;
                    self.nodes.insert(0, n);
                    proof {
                        assert(self@ =~= seq![n] + before);
                        assert forall|j: int| 0 <= j < self@.len() implies #[trigger] node_ok(
                            self@[j],
                        ) by {
                            if j > 0 {
                                assert(self@[j] == before[j - 1]);
                            }
                        }
                    }
                    return;
                },
            }
        }
    }

    /// Adds the region `adr .. adr + len` to the list, merging it with the
    /// regions it touches.
    pub fn push_region(&mut self, adr: u64, len: usize) -> (r: Result<(), Error>)
        requires
            old(self).wf(),
            adr + len <= address_limit(),
            insert_fits(old(self)@, Node { start: adr, len }),
        ensures
            r is Ok,
            final(self).wf(),
            final(self)@ == insert_spec(old(self)@, Node { start: adr, len }),
            covered(final(self)@) == covered(old(self)@).union(range_set(adr as int, len as int)),
            pairwise_disjoint(old(self)@) && (len == 0 || apart_from_all(
                old(self)@,
                Node { start: adr, len },
            )) ==> pairwise_disjoint(final(self)@),
            no_adjacent(old(self)@) ==> no_adjacent(final(self)@),
    {
        let node = Node::new(adr, len);
        proof {
            if no_adjacent(self@) {
                lemma_insert_no_adjacent(self@, node);
            }
            lemma_insert_covered(self@, node);
            if pairwise_disjoint(self@) && (len == 0 || apart_from_all(self@, node)) {
                lemma_insert_disjoint(self@, node);
            }
        }
        self.insert_node(node);
        Ok(())
    }

    /// Puts `node` at the head of the list as it is, without merging.
    pub fn push_node_raw(&mut self, node: Node)
        requires
            old(self).wf(),
            node_ok(node),
        ensures
            final(self).wf(),
            final(self)@ == seq![node] + old(self)@,
    {
        let ghost before = self@;
        self.nodes.insert(0, node);
        proof {
            assert(self@ =~= seq![node] + before);
            assert forall|j: int| 0 <= j < self@.len() implies #[trigger] node_ok(self@[j]) by {
                if j > 0 {
                    assert(self@[j] == before[j - 1]);
                }
            }
        }
    }

    /// Whether `start .. start + len` begins or ends inside a free region.
    pub fn contains_range(&self, start: u64, len: usize) -> (r: bool)
        ensures
            r == contains_range_spec(self@, start, len),
    {
        let end_adr: u128 = start as u128 + len as u128;
        let mut i: usize = 0;
        while i < self.nodes.len()
            invariant
                i <= self.nodes@.len(),
                end_adr == start + len,
                forall|j: int| 0 <= j < i ==> !touches_range(#[trigger] self.nodes@[j], start, len),
            decreases self.nodes@.len() - i,
        {
            let cur = self.nodes[i];
            let cur_end: u128 = cur.start as u128 + cur.len as u128;
            if (start >= cur.start && (start as u128) < cur_end) || (end_adr > cur.start as u128
                && end_adr <= cur_end) {
                proof {
                    assert(touches_range(self@[i as int], start, len));
                }
                return true;
            }
            i = i + 1;
        }
        false
    }

    /// Takes `len` bytes aligned to `align` from the first region that can
    /// hold them, and returns their address.
    pub fn alloc_aligned_bytes(&mut self, align: usize, len: usize) -> (r: Result<u64, Error>)
        requires
            old(self).wf(),
            align > 0,
            alloc_safe(old(self)@, align, len),
            has_fit(old(self)@, align, len) ==> alloc_fits(
                old(self)@,
                align,
                len,
                first_fit(old(self)@, align, len),
            ),
        ensures
            final(self).wf(),
            (r, final(self)@) == alloc_outcome(old(self)@, align, len),
            r is Ok <==> has_fit(old(self)@, align, len),
            match r {
                Ok(a) => {
                    let k = first_fit(old(self)@, align, len);
                    &&& a == align_up(old(self)@[k].start, align)
                    &&& final(self)@ == alloc_result(old(self)@, align, len, k)
                },
                Err(e) => e == Error::InsufficientSpace && final(self)@ == old(self)@,
            },
            r matches Ok(a) ==> range_set(a as int, len as int).subset_of(covered(old(self)@)),
            r matches Ok(a) ==> (is_pow2(align as int) ==> a % (align as u64) == 0),
            r matches Ok(a) ==> (pairwise_disjoint(old(self)@) ==> {
                &&& covered(final(self)@) == covered(old(self)@).difference(
                    range_set(a as int, len as int),
                )
                &&& pairwise_disjoint(final(self)@)
            }),
            pairwise_disjoint(old(self)@) && no_adjacent(old(self)@) ==> no_adjacent(final(self)@),
    {
        let mut k: usize = 0;
        while k < self.nodes.len()
            invariant
                k <= self@.len(),
                self@ == old(self)@,
                nodes_ok(self@),
                align > 0,
                alloc_safe(self@, align, len),
                has_fit(self@, align, len) ==> alloc_fits(
                    self@,
                    align,
                    len,
                    first_fit(self@, align, len),
                ),
                forall|j: int| 0 <= j < k ==> !fits(#[trigger] self@[j], align, len),
            decreases self@.len() - k,
        {
            let cur = self.nodes[k];
            proof {
                assert(visit_safe(self@[k as int], align, len));
            }
            let aligned_start: u64 = (cur.start + align as u64 - 1) & !((align as u64) - 1);
            let aligned_end: u64 = aligned_start + len as u64;
            let left_start: u64 = cur.start;
            let right_end: u64 = cur.start + cur.len as u64;
            if right_end >= aligned_end {
                proof {
                    assert(aligned_start == align_up(cur.start, align));
                    assert(is_first_fit(self@, align, len, k as int));
                    lemma_first_fit(self@, align, len, k as int);
                    lemma_align_up_bounds(cur.start, align);
                    assert(node_ok(self@[k as int]));
                    lemma_remove_ok(self@, k as int);
                    lemma_alloc_law(self@, align, len, k as int);
                    if pairwise_disjoint(self@) && no_adjacent(self@) {
                        lemma_alloc_no_adjacent(self@, align, len, k as int);
                    }
                    if is_pow2(align as int) {
                        lemma_mask_is_multiple((cur.start + align - 1) as u64, align as u64);
                    }
                }
                if aligned_start == left_start {
                    let new_len: usize = cur.len - len;
                    if new_len > 0 {
                        let ghost before = self@;
                        self.nodes.set(k, Node { start: cur.start + len as u64, len: new_len });
                        proof {
                            assert forall|j: int| 0 <= j < self@.len() implies #[trigger] node_ok(
                                self@[j],
                            ) by {
                                if j != k {
                                    assert(self@[j] == before[j]);
                                }
                            }
                        }
                    } else {
                        self.nodes.remove(k);
                    }
                } else {
                    let left_len: usize = (aligned_start - left_start) as usize;
                    let right_start: u64 = aligned_end;
                    let right_len: usize = (right_end - right_start) as usize;
                    self.nodes.remove(k);
                    let _ = self.push_region(left_start, left_len);
                    if right_len > 0 {
                        let _ = self.push_region(right_start, right_len);
                    }
                }
                return Ok(aligned_start);
            }
            k = k + 1;
        }
        proof {
            if has_fit(self@, align, len) {
                let f = first_fit(self@, align, len);
                assert(is_first_fit(self@, align, len, f));
                assert(!fits(self@[f], align, len));
            }
        }
        Err(Error::InsufficientSpace)
    }

    /// Takes a range for `layout` from the list.
    pub fn alloc_layout(&mut self, layout: Layout) -> (r: Result<u64, Error>)
        requires
            old(self).wf(),
            alloc_safe(old(self)@, layout.align(), layout.size()),
            has_fit(old(self)@, layout.align(), layout.size()) ==> alloc_fits(
                old(self)@,
                layout.align(),
                layout.size(),
                first_fit(old(self)@, layout.align(), layout.size()),
            ),
        ensures
            final(self).wf(),
            (r, final(self)@) == alloc_outcome(old(self)@, layout.align(), layout.size()),
            r is Ok <==> has_fit(old(self)@, layout.align(), layout.size()),
            match r {
                Ok(a) => {
                    let k = first_fit(old(self)@, layout.align(), layout.size());
                    &&& a == align_up(old(self)@[k].start, layout.align())
                    &&& final(self)@ == alloc_result(old(self)@, layout.align(), layout.size(), k)
                },
                Err(e) => e == Error::InsufficientSpace && final(self)@ == old(self)@,
            },
            r matches Ok(a) ==> range_set(a as int, layout.size() as int).subset_of(
                covered(old(self)@),
            ),
            r matches Ok(a) ==> a % (layout.align() as u64) == 0,
            r matches Ok(a) ==> (pairwise_disjoint(old(self)@) ==> {
                &&& covered(final(self)@) == covered(old(self)@).difference(
                    range_set(a as int, layout.size() as int),
                )
                &&& pairwise_disjoint(final(self)@)
            }),
    {
        let align = layout.align();
        self.alloc_aligned_bytes(align, layout.size())
    }

    /// Takes a range for a value of type `T` from the list.
    pub fn alloc_typed<T>(&mut self) -> (r: Result<u64, Error>)
        requires
            old(self).wf(),
            alloc_safe(
                old(self)@,
                vstd::layout::align_of::<T>() as usize,
                vstd::layout::size_of::<T>() as usize,
            ),
            has_fit(
                old(self)@,
                vstd::layout::align_of::<T>() as usize,
                vstd::layout::size_of::<T>() as usize,
            ) ==> alloc_fits(
                old(self)@,
                vstd::layout::align_of::<T>() as usize,
                vstd::layout::size_of::<T>() as usize,
                first_fit(
                    old(self)@,
                    vstd::layout::align_of::<T>() as usize,
                    vstd::layout::size_of::<T>() as usize,
                ),
            ),
        ensures
            final(self).wf(),
            (r, final(self)@) == alloc_outcome(
                old(self)@,
                vstd::layout::align_of::<T>() as usize,
                vstd::layout::size_of::<T>() as usize,
            ),
            r is Ok <==> has_fit(
                old(self)@,
                vstd::layout::align_of::<T>() as usize,
                vstd::layout::size_of::<T>() as usize,
            ),
            match r {
                Ok(a) => {
                    let align = vstd::layout::align_of::<T>() as usize;
                    let size = vstd::layout::size_of::<T>() as usize;
                    let k = first_fit(old(self)@, align, size);
                    &&& a == align_up(old(self)@[k].start, align)
                    &&& final(self)@ == alloc_result(old(self)@, align, size, k)
                },
                Err(e) => e == Error::InsufficientSpace && final(self)@ == old(self)@,
            },
    {
        let layout = Layout::new::<T>();
        self.alloc_layout(layout)
    }

    /// Gives the range of a value of type `T` at `ptr` back to the list.
    pub fn free<T>(&mut self, ptr: u64) -> (r: Result<(), Error>)
        requires
            old(self).wf(),
            ptr % (vstd::layout::align_of::<T>() as u64) == 0,
            !contains_range_spec(old(self)@, ptr, vstd::layout::size_of::<T>() as usize),
            ptr + vstd::layout::size_of::<T>() <= address_limit(),
            insert_fits(old(self)@, Node { start: ptr, len: vstd::layout::size_of::<T>() as usize }),
        ensures
            r is Ok,
            final(self).wf(),
            final(self)@ == insert_spec(
                old(self)@,
                Node { start: ptr, len: vstd::layout::size_of::<T>() as usize },
            ),
    {
        let layout = Layout::new::<T>();
        self.free_bytes(ptr, layout.size())
    }

    /// Gives `len` bytes at `ptr` back to the list.
    ///
    /// The range must not begin or end inside a region that is free already.
    pub fn free_bytes(&mut self, ptr: u64, len: usize) -> (r: Result<(), Error>)
        requires
            old(self).wf(),
            !contains_range_spec(old(self)@, ptr, len),
            ptr + len <= address_limit(),
            insert_fits(old(self)@, Node { start: ptr, len }),
        ensures
            r is Ok,
            final(self).wf(),
            final(self)@ == insert_spec(old(self)@, Node { start: ptr, len }),
            covered(final(self)@) == covered(old(self)@).union(range_set(ptr as int, len as int)),
            pairwise_disjoint(old(self)@) && (len == 0 || apart_from_all(
                old(self)@,
                Node { start: ptr, len },
            )) ==> pairwise_disjoint(final(self)@),
            no_adjacent(old(self)@) ==> no_adjacent(final(self)@),
    {
        let node = Node::new(ptr, len);
        proof {
            if no_adjacent(self@) {
                lemma_insert_no_adjacent(self@, node);
            }
            lemma_insert_covered(self@, node);
            if pairwise_disjoint(self@) && (len == 0 || apart_from_all(self@, node)) {
                lemma_insert_disjoint(self@, node);
            }
        }
        self.insert_node(node);
        Ok(())
    }

    /// Takes `adr .. adr + count` out of the first region that contains it.
    pub fn reserve_bytes(&mut self, adr: u64, count: usize) -> (r: Result<(), Error>)
        requires
            old(self).wf(),
            count > 0 ==> adr + count <= address_limit(),
            count > 0 && has_container(old(self)@, adr, count) ==> carve_fits(
                old(self)@,
                first_container(old(self)@, adr, count),
                adr,
                count,
            ),
        ensures
            final(self).wf(),
            r is Ok <==> (count == 0 || has_container(old(self)@, adr, count)),
            count == 0 ==> final(self)@ == old(self)@,
            count > 0 ==> match r {
                Ok(_) => final(self)@ == carve(
                    old(self)@,
                    first_container(old(self)@, adr, count),
                    adr,
                    count,
                ),
                Err(e) => e == (Error::ReserveError { adr, len: count }) && final(self)@ == old(
                    self,
                )@,
            },
            r is Ok ==> range_set(adr as int, count as int).subset_of(covered(old(self)@)),
            r is Ok && pairwise_disjoint(old(self)@) ==> {
                &&& covered(final(self)@) == covered(old(self)@).difference(
                    range_set(adr as int, count as int),
                )
                &&& pairwise_disjoint(final(self)@)
            },
    {
        if count == 0 {
            proof {
                assert(range_set(adr as int, count as int) =~= Set::<int>::empty());
                assert(covered(self@).difference(range_set(adr as int, count as int)) =~= covered(self@));
            }
            return Ok(());
        }
        let adr_end: u128 = adr as u128 + count as u128;
        let mut k: usize = 0;
        while k < self.nodes.len()
            invariant
                k <= self@.len(),
                self@ == old(self)@,
                nodes_ok(self@),
                count > 0,
                adr_end == adr + count,
                adr_end <= address_limit(),
                has_container(self@, adr, count) ==> carve_fits(
                    self@,
                    first_container(self@, adr, count),
                    adr,
                    count,
                ),
                forall|j: int| 0 <= j < k ==> !contains(#[trigger] self@[j], adr, count),
            decreases self@.len() - k,
        {
            let cur = self.nodes[k];
            let right_end: u128 = cur.start as u128 + cur.len as u128;
            if cur.start <= adr && adr_end <= right_end {
                proof {
                    assert(is_first_container(self@, adr, count, k as int));
                    lemma_first_container(self@, adr, count, k as int);
                    assert(node_ok(self@[k as int]));
                    lemma_remove_ok(self@, k as int);
                    assert forall|x: int| range_set(adr as int, count as int).contains(x) implies covered(
                        self@,
                    ).contains(x) by {
                        assert(in_node(self@[k as int], x));
                    }
                    if pairwise_disjoint(self@) {
                        lemma_carve_law(self@, k as int, adr, count);
                    }
                }
                let left_len: usize = (adr - cur.start) as usize;
                let right_len: usize = (right_end - adr_end) as usize;
                self.nodes.remove(k);
                if left_len > 0 {
                    let _ = self.push_region(cur.start, left_len);
                }
                if right_len > 0 {
                    let _ = self.push_region(adr_end as u64, right_len);
                }
                return Ok(());
            }
            k = k + 1;
        }
        proof {
            if has_container(self@, adr, count) {
                let f = first_container(self@, adr, count);
                assert(is_first_container(self@, adr, count, f));
                assert(!contains(self@[f], adr, count));
            }
        }
        Err(Error::ReserveError { adr, len: count })
    }
}

/// An allocation request that the allocator refused.
#[derive(Clone, Copy, Debug, PartialEq, Eq, Structural)]
pub struct AllocError;

/// A free list used as a memory allocator: a request succeeds with a non-null
/// address, and freed memory goes back to the list.
pub struct FreeListAllocator {
    list: FreeList,
}

/// What `FreeListAllocator::allocate` gives for a request of `len` bytes
/// aligned to `align`: the address the list hands out unless it is null or
/// the list has no room.
pub open spec fn allocate_result(s: Seq<Node>, align: usize, len: usize) -> Result<u64, AllocError> {
    if has_fit(s, align, len) && align_up(s[first_fit(s, align, len)].start, align) != 0 {
        Ok(align_up(s[first_fit(s, align, len)].start, align))
    } else {
        Err(AllocError)
    }
}

/// The list after `FreeListAllocator::allocate`: the range handed out (or the
/// null range) is taken out when the list has room.
pub open spec fn allocate_list(s: Seq<Node>, align: usize, len: usize) -> Seq<Node> {
    if has_fit(s, align, len) {
        alloc_result(s, align, len, first_fit(s, align, len))
    } else {
        s
    }
}

impl FreeListAllocator {
    /// The free regions, head first.
    pub closed spec fn regions(&self) -> Seq<Node> {
        self.list@
    }

    pub open spec fn wf(&self) -> bool {
        nodes_ok(self.regions())
    }

    /// An allocator with no memory.
    pub fn new() -> (r: Self)
        ensures
            r.wf(),
            r.regions() == Seq::<Node>::empty(),
    {
        FreeListAllocator { list: FreeList::new() }
    }

    /// The free list, for direct use.
    pub fn lock(&mut self) -> (r: &mut FreeList)
        ensures
            r@ == old(self).regions(),
            final(self).regions() == final(r)@,
    {
        &mut self.list
    }

    /// Allocates `layout.size()` bytes aligned to `layout.align()`.
    pub fn allocate(&mut self, layout: Layout) -> (r: Result<u64, AllocError>)
        requires
            old(self).wf(),
            alloc_safe(old(self).regions(), layout.align(), layout.size()),
            has_fit(old(self).regions(), layout.align(), layout.size()) ==> alloc_fits(
                old(self).regions(),
                layout.align(),
                layout.size(),
                first_fit(old(self).regions(), layout.align(), layout.size()),
            ),
        ensures
            final(self).wf(),
            r == allocate_result(old(self).regions(), layout.align(), layout.size()),
            final(self).regions() == allocate_list(old(self).regions(), layout.align(), layout.size()),
    {
        match self.list.alloc_aligned_bytes(layout.align(), layout.size()) {
            Ok(ptr) => {
                if ptr == 0 {
                    Err(AllocError)
                } else {
                    Ok(ptr)
                }
            },
            Err(_) => Err(AllocError),
        }
    }

    /// Gives `layout.size()` bytes at `ptr`, which is aligned to
    /// `layout.align()`, back to the list.
    pub fn deallocate(&mut self, ptr: u64, layout: Layout)
        requires
            old(self).wf(),
            ptr % (layout.align() as u64) == 0,
            !contains_range_spec(old(self).regions(), ptr, layout.size()),
            ptr + layout.size() <= address_limit(),
            insert_fits(old(self).regions(), Node { start: ptr, len: layout.size() }),
        ensures
            final(self).wf(),
            final(self).regions() == insert_spec(
                old(self).regions(),
                Node { start: ptr, len: layout.size() },
            ),
    {
        let _ = self.list.free_bytes(ptr, layout.size());
    }

    /// Allocates as `allocate` does; null when refused.
    pub fn global_alloc(&mut self, layout: Layout) -> (r: u64)
        requires
            old(self).wf(),
            alloc_safe(old(self).regions(), layout.align(), layout.size()),
            has_fit(old(self).regions(), layout.align(), layout.size()) ==> alloc_fits(
                old(self).regions(),
                layout.align(),
                layout.size(),
                first_fit(old(self).regions(), layout.align(), layout.size()),
            ),
        ensures
            final(self).wf(),
            r == match allocate_result(old(self).regions(), layout.align(), layout.size()) {
                Ok(a) => a,
                Err(_) => 0,
            },
            final(self).regions() == allocate_list(old(self).regions(), layout.align(), layout.size()),
    {
        match self.allocate(layout) {
            Ok(a) => a,
            Err(_) => 0,
        }
    }

    /// Gives the non-null `ptr` back as `deallocate` does.
    pub fn global_dealloc(&mut self, ptr: u64, layout: Layout)
        requires
            old(self).wf(),
            ptr != 0,
            ptr % (layout.align() as u64) == 0,
            !contains_range_spec(old(self).regions(), ptr, layout.size()),
            ptr + layout.size() <= address_limit(),
            insert_fits(old(self).regions(), Node { start: ptr, len: layout.size() }),
        ensures
            final(self).wf(),
            final(self).regions() == insert_spec(
                old(self).regions(),
                Node { start: ptr, len: layout.size() },
            ),
    {
        self.deallocate(ptr, layout);
    }
}

} // verus!
