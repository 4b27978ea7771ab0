//! A free list of fixed-size blocks whose bookkeeping lives in the free memory
//! itself: each free run records its address and its number of blocks.
//!
//! The runs are kept head first, in the order in which the list walks them.
use vstd::prelude::*;

use crate::layout::Layout;

verus! {

/// Errors of the block free list.
#[derive(Clone, Copy, Debug, PartialEq, Eq, Structural)]
pub enum Error {
    /// The requested alignment is larger than a block.
    NonBlockAlignedAllocation,
    /// No run holds enough blocks.
    InsufficientSpace,
    /// The region's length is not a multiple of the block size.
    UnalignedRegionSize,
    /// The region's address is not a multiple of the block size.
    UnalignedRegion,
}

impl Error {
    /// The text shown for the error.
    pub open spec fn text(&self) -> Seq<char> {
        match self {
            Error::NonBlockAlignedAllocation => "alignment is not block aligned"@,
            Error::InsufficientSpace => "out of space"@,
            Error::UnalignedRegionSize => "insufficient region size"@,
            Error::UnalignedRegion => "unaligned region"@,
        }
    }

    /// The text shown for the error.
    pub fn message(&self) -> (r: String)
        ensures
            r@ == self.text(),
    {
        match self {
            Error::NonBlockAlignedAllocation => String::from_str("alignment is not block aligned"),
            Error::InsufficientSpace => String::from_str("out of space"),
            Error::UnalignedRegionSize => String::from_str("insufficient region size"),
            Error::UnalignedRegion => String::from_str("unaligned region"),
        }
    }
}

/// A free run: `blocks` blocks starting at address `adr`.
#[derive(Clone, Copy, Debug, PartialEq, Eq, Structural)]
pub struct Run {
    pub adr: u64,
    pub blocks: u64,
}

/// The number of blocks of `bs` bytes that `len` bytes take.
pub open spec fn blocks_for(len: u64, bs: u64) -> u64 {
    ((len + bs - 1) / bs as int) as u64
}

/// The whole blocks of `bs` bytes in `len` bytes.
pub open spec fn whole_blocks(len: u64, bs: u64) -> u64 {
    len / bs
}

/// One past the last byte of run `r`.
pub open spec fn run_end(r: Run, bs: u64) -> int {
    r.adr + r.blocks * bs
}

/// The blocks that a request of `size` bytes takes: at least one.
pub open spec fn request_blocks(size: usize, bs: u64) -> u64 {
    blocks_for(if size == 0 { 1u64 } else { size as u64 }, bs)
}

pub open spec fn runs_ok(s: Seq<Run>) -> bool {
    forall|i: int| 0 <= i < s.len() ==> (#[trigger] s[i]).adr != 0
}

/// The first run that holds at least `cnt` blocks.
pub open spec fn is_first_big(s: Seq<Run>, cnt: u64, k: int) -> bool {
    &&& 0 <= k < s.len()
    &&& cnt <= s[k].blocks
    &&& forall|j: int| 0 <= j < k ==> (#[trigger] s[j]).blocks < cnt
}

pub open spec fn has_big(s: Seq<Run>, cnt: u64) -> bool {
    exists|k: int| is_first_big(s, cnt, k)
}

pub open spec fn first_big(s: Seq<Run>, cnt: u64) -> int {
    choose|k: int| is_first_big(s, cnt, k)
}

/// The list after taking `cnt` blocks from the front of run `k`.
pub open spec fn take_result(s: Seq<Run>, cnt: u64, k: int, bs: u64) -> Seq<Run> {
    if s[k].blocks - cnt > 0 {
        s.update(k, Run { adr: (s[k].adr + cnt * bs) as u64, blocks: (s[k].blocks - cnt) as u64 })
    } else {
        s.remove(k)
    }
}

/// Taking `cnt` blocks from the front of run `k` leaves its remainder's
/// address inside `u64`.
pub open spec fn take_fits(s: Seq<Run>, cnt: u64, k: int, bs: u64) -> bool {
    cnt < s[k].blocks ==> s[k].adr + cnt * bs <= u64::MAX
}

/// What a request for `size` bytes aligned to `align` gives and leaves: an
/// alignment above a block is refused; otherwise the front of the first run
/// with enough blocks is taken, or the request fails for want of space.
pub open spec fn alloc_outcome(s: Seq<Run>, size: usize, align: usize, bs: u64) -> (Result<u64, Error>, Seq<Run>) {
    if align > bs {
        (Err(Error::NonBlockAlignedAllocation), s)
    } else if has_big(s, request_blocks(size, bs)) {
        let k = first_big(s, request_blocks(size, bs));
        (Ok(s[k].adr), take_result(s, request_blocks(size, bs), k, bs))
    } else {
        (Err(Error::InsufficientSpace), s)
    }
}

/// A run that a free of the range `adr .. end_adr` stops at: one that begins
/// where the range ends, or one of no blocks.
pub open spec fn stops_free(r: Run, end_adr: int, bs: u64) -> bool {
    r.adr == end_adr || run_end(r, bs) == r.adr
}

pub open spec fn is_first_stop(s: Seq<Run>, end_adr: int, bs: u64, k: int) -> bool {
    &&& 0 <= k < s.len()
    &&& stops_free(s[k], end_adr, bs)
    &&& forall|j: int| 0 <= j < k ==> !stops_free(#[trigger] s[j], end_adr, bs)
}

pub open spec fn has_stop(s: Seq<Run>, end_adr: int, bs: u64) -> bool {
    exists|k: int| is_first_stop(s, end_adr, bs, k)
}

pub open spec fn first_stop(s: Seq<Run>, end_adr: int, bs: u64) -> int {
    choose|k: int| is_first_stop(s, end_adr, bs, k)
}

/// The arithmetic that freeing `cnt` blocks at `ptr` performs stays inside `u64`.
pub open spec fn free_safe(s: Seq<Run>, ptr: u64, cnt: u64, bs: u64) -> bool {
    let end_adr = ptr + cnt * bs;
    &&& end_adr <= u64::MAX
    &&& forall|k: int|
        0 <= k < s.len() && (forall|j: int| 0 <= j < k ==> !stops_free(#[trigger] s[j], end_adr, bs))
            ==> run_end(#[trigger] s[k], bs) <= u64::MAX
    &&& has_stop(s, end_adr, bs) ==> s[first_stop(s, end_adr, bs)].blocks + cnt <= u64::MAX
    &&& !has_stop(s, end_adr, bs) ==> ((cnt * bs) as usize) + bs - 1 <= u64::MAX
}

/// The list after freeing `cnt` blocks at `ptr`:
/// - at the first run that begins where the freed range ends, a run of both is
///   put in its place, or, where that run is the head, after it, the head
///   staying as it was;
/// - at an earlier run of no blocks, that run grows by `cnt` blocks;
/// - with no such run, a run of the freed blocks goes to the head.
pub open spec fn free_result(s: Seq<Run>, ptr: u64, cnt: u64, bs: u64) -> Seq<Run> {
    let end_adr = ptr + cnt * bs;
    if has_stop(s, end_adr, bs) {
        let k = first_stop(s, end_adr, bs);
        let cur = s[k];
        if cur.adr == end_adr {
            let merged = Run { adr: ptr, blocks: (cnt + cur.blocks) as u64 };
            if k > 0 {
                s.update(k, merged)
            } else {
                s.insert(1, merged)
            }
        } else {
            s.update(k, Run { adr: cur.adr, blocks: (cur.blocks + cnt) as u64 })
        }
    } else {
        seq![Run { adr: ptr, blocks: whole_blocks(((cnt * bs) as usize) as u64, bs) }] + s
    }
}

/// Every address of run `r`.
pub open spec fn in_run(r: Run, bs: u64, x: int) -> bool {
    r.adr <= x < run_end(r, bs)
}

/// Every address that some run of `s` holds.
pub open spec fn covered_runs(s: Seq<Run>, bs: u64) -> Set<int> {
    Set::new(|x: int| exists|i: int| 0 <= i < s.len() && #[trigger] in_run(s[i], bs, x))
}

/// No two runs of `s` share an address.
pub open spec fn runs_disjoint(s: Seq<Run>, bs: u64) -> bool {
    forall|i: int, j: int|
        0 <= i < s.len() && 0 <= j < s.len() && i != j ==> (run_end(#[trigger] s[i], bs) <= (
        #[trigger] s[j]).adr || run_end(s[j], bs) <= s[i].adr)
}

/// The addresses `start .. start + len`.
pub open spec fn span(start: int, len: int) -> Set<int> {
    Set::new(|x: int| start <= x < start + len)
}

/// A free list of `BLOCK_SIZE`-byte blocks.
pub struct IntrusiveFreeList<const BLOCK_SIZE: usize> {
    runs: Vec<Run>,
}

impl<const BLOCK_SIZE: usize> View for IntrusiveFreeList<BLOCK_SIZE> {
    type V = Seq<Run>;

    closed spec fn view(&self) -> Seq<Run> {
        self.runs@
    }
}

proof fn lemma_first_big(s: Seq<Run>, cnt: u64, k: int)
    requires
        is_first_big(s, cnt, k),
    ensures
        has_big(s, cnt),
        first_big(s, cnt) == k,
{
    let f = first_big(s, cnt);
    assert(is_first_big(s, cnt, f));
    if f < k {
        assert(s[f].blocks < cnt);
    } else if k < f {
        assert(s[k].blocks < cnt);
    }
}

proof fn lemma_first_stop(s: Seq<Run>, end_adr: int, bs: u64, k: int)
    requires
        is_first_stop(s, end_adr, bs, k),
    ensures
        has_stop(s, end_adr, bs),
        first_stop(s, end_adr, bs) == k,
{
    let f = first_stop(s, end_adr, bs);
    assert(is_first_stop(s, end_adr, bs, f));
    if f < k {
        assert(!stops_free(s[f], end_adr, bs));
    } else if k < f {
        assert(!stops_free(s[k], end_adr, bs));
    }
}

/// Taking the front of the first large-enough run removes exactly the taken
/// addresses, and keeps the runs disjoint.
pub proof fn lemma_take_law(s: Seq<Run>, cnt: u64, k: int, bs: u64)
    requires
        bs > 0,
        0 <= k < s.len(),
        cnt <= s[k].blocks,
        cnt < s[k].blocks ==> s[k].adr + cnt * bs <= u64::MAX,
    ensures
        span(s[k].adr as int, cnt * bs).subset_of(covered_runs(s, bs)),
        runs_disjoint(s, bs) ==> {
            &&& covered_runs(take_result(s, cnt, k, bs), bs) == covered_runs(s, bs).difference(
                span(s[k].adr as int, cnt * bs),
            )
            &&& runs_disjoint(take_result(s, cnt, k, bs), bs)
        },
{
    let n = s[k];
    let t = take_result(s, cnt, k, bs);
    let taken = span(n.adr as int, cnt * bs);
    assert(cnt * bs <= n.blocks * bs) by (nonlinear_arith)
        requires
            cnt <= n.blocks,
            bs > 0,
    ;
    assert forall|x: int| taken.contains(x) implies covered_runs(s, bs).contains(x) by {
        assert(in_run(s[k], bs, x));
    }
    if runs_disjoint(s, bs) {
        s.remove_ensures(k);
        let rest = n.blocks - cnt;
        assert((n.blocks - cnt) * bs == n.blocks * bs - cnt * bs) by (nonlinear_arith);
        assert forall|x: int| covered_runs(t, bs).contains(x) implies covered_runs(s, bs).difference(
            taken,
        ).contains(x) by {
            let j = choose|j: int| 0 <= j < t.len() && #[trigger] in_run(t[j], bs, x);
            if rest > 0 {
                if j == k {
                    assert(in_run(s[k], bs, x));
                } else {
                    assert(in_run(s[j], bs, x));
                    assert(run_end(s[j], bs) <= s[k].adr || run_end(s[k], bs) <= s[j].adr);
                }
            } else {
                let j2 = if j < k { j } else { j + 1 };
                assert(t[j] == s[j2]);
                assert(in_run(s[j2], bs, x));
                assert(run_end(s[j2], bs) <= s[k].adr || run_end(s[k], bs) <= s[j2].adr);
            }
        }
        assert forall|x: int| covered_runs(s, bs).difference(taken).contains(x) implies covered_runs(
            t,
            bs,
        ).contains(x) by {
            let j = choose|j: int| 0 <= j < s.len() && #[trigger] in_run(s[j], bs, x);
            if rest > 0 {
                assert(in_run(t[j], bs, x));
            } else {
                if j < k {
                    assert(in_run(t[j], bs, x));
                } else if j > k {
                    assert(in_run(t[j - 1], bs, x));
                }
            }
        }
        assert(covered_runs(t, bs) =~= covered_runs(s, bs).difference(taken));
        assert forall|i: int, j: int|
            0 <= i < t.len() && 0 <= j < t.len() && i != j implies (run_end(#[trigger] t[i], bs) <= (
            #[trigger] t[j]).adr || run_end(t[j], bs) <= t[i].adr) by {
            if rest > 0 {
                assert(run_end(s[i], bs) <= s[j].adr || run_end(s[j], bs) <= s[i].adr);
            } else {
                let i2 = if i < k { i } else { i + 1 };
                let j2 = if j < k { j } else { j + 1 };
                assert(run_end(s[i2], bs) <= s[j2].adr || run_end(s[j2], bs) <= s[i2].adr);
            }
        }
    }
}

/// The free path that does not stop at an empty run (and whose length fits
/// in a `usize` where it pushes a new run).
pub open spec fn free_is_plain(s: Seq<Run>, ptr: u64, cnt: u64, bs: u64) -> bool {
    let end_adr = ptr + cnt * bs;
    if has_stop(s, end_adr, bs) {
        s[first_stop(s, end_adr, bs)].adr == end_adr
    } else {
        cnt * bs <= usize::MAX
    }
}

proof fn lemma_free_law_head(s: Seq<Run>, ptr: u64, cnt: u64, bs: u64)
    requires
        bs > 0,
        0 < s.len(),
        s[0].adr == ptr + cnt * bs,
        s[0].blocks + cnt <= u64::MAX,
    ensures
        covered_runs(s.insert(1, Run { adr: ptr, blocks: (cnt + s[0].blocks) as u64 }), bs)
            == covered_runs(s, bs).union(span(ptr as int, cnt * bs)),
{
    let e = ptr + cnt * bs;
    let cur = s[0];
    let m = Run { adr: ptr, blocks: (cnt + cur.blocks) as u64 };
    let t = s.insert(1, m);
    let freed = span(ptr as int, cnt * bs);
    assert((cnt + cur.blocks) * bs == cnt * bs + cur.blocks * bs) by (nonlinear_arith);
    assert(run_end(m, bs) == run_end(cur, bs));
    assert forall|x: int| covered_runs(t, bs).contains(x) implies covered_runs(s, bs).union(
        freed,
    ).contains(x) by {
        let j = choose|j: int| 0 <= j < t.len() && #[trigger] in_run(t[j], bs, x);
        if j == 1 {
            if x >= e {
                assert(in_run(s[0], bs, x));
            }
        } else if j == 0 {
            assert(in_run(s[0], bs, x));
        } else {
            assert(in_run(s[j - 1], bs, x));
        }
    }
    assert forall|x: int| covered_runs(s, bs).union(freed).contains(x) implies covered_runs(
        t,
        bs,
    ).contains(x) by {
        if freed.contains(x) {
            assert(in_run(t[1], bs, x));
        } else {
            let j = choose|j: int| 0 <= j < s.len() && #[trigger] in_run(s[j], bs, x);
            if j == 0 {
                assert(in_run(t[0], bs, x));
            } else {
                assert(in_run(t[j + 1], bs, x));
            }
        }
    }
    assert(covered_runs(t, bs) =~= covered_runs(s, bs).union(freed));
}

proof fn lemma_free_law_merge(s: Seq<Run>, ptr: u64, cnt: u64, bs: u64, k: int)
    requires
        bs > 0,
        0 <= k < s.len(),
        s[k].adr == ptr + cnt * bs,
        s[k].blocks + cnt <= u64::MAX,
    ensures
        covered_runs(s.update(k, Run { adr: ptr, blocks: (cnt + s[k].blocks) as u64 }), bs)
            == covered_runs(s, bs).union(span(ptr as int, cnt * bs)),
{
    let e = ptr + cnt * bs;
    let cur = s[k];
    let m = Run { adr: ptr, blocks: (cnt + cur.blocks) as u64 };
    let t = s.update(k, m);
    let freed = span(ptr as int, cnt * bs);
    assert((cnt + cur.blocks) * bs == cnt * bs + cur.blocks * bs) by (nonlinear_arith);
    assert(run_end(m, bs) == run_end(cur, bs));
    assert forall|x: int| covered_runs(t, bs).contains(x) implies covered_runs(s, bs).union(
        freed,
    ).contains(x) by {
        let j = choose|j: int| 0 <= j < t.len() && #[trigger] in_run(t[j], bs, x);
        if j == k {
            if x >= e {
                assert(in_run(s[k], bs, x));
            }
        } else {
            assert(in_run(s[j], bs, x));
        }
    }
    assert forall|x: int| covered_runs(s, bs).union(freed).contains(x) implies covered_runs(
        t,
        bs,
    ).contains(x) by {
        if freed.contains(x) {
            assert(in_run(t[k], bs, x));
        } else {
            let j = choose|j: int| 0 <= j < s.len() && #[trigger] in_run(s[j], bs, x);
            if j == k {
                assert(in_run(t[k], bs, x));
            } else {
                assert(in_run(t[j], bs, x));
            }
        }
    }
    assert(covered_runs(t, bs) =~= covered_runs(s, bs).union(freed));
}

proof fn lemma_free_law_push(s: Seq<Run>, ptr: u64, cnt: u64, bs: u64)
    requires
        bs > 0,
        cnt * bs <= usize::MAX,
        cnt * bs + bs - 1 <= u64::MAX,
    ensures
        covered_runs(seq![Run { adr: ptr, blocks: whole_blocks(((cnt * bs) as usize) as u64, bs) }] + s, bs)
            == covered_runs(s, bs).union(span(ptr as int, cnt * bs)),
{
    let c = (cnt * bs) as usize;
    assert(c == cnt * bs);
    assert((cnt * bs) / (bs as int) == cnt) by (nonlinear_arith)
        requires
            bs > 0,
    ;
    let m = Run { adr: ptr, blocks: whole_blocks(c as u64, bs) };
    assert(m.blocks == cnt);
    let t = seq![m] + s;
    let freed = span(ptr as int, cnt * bs);
    assert forall|x: int| covered_runs(t, bs).contains(x) implies covered_runs(s, bs).union(
        freed,
    ).contains(x) by {
        let j = choose|j: int| 0 <= j < t.len() && #[trigger] in_run(t[j], bs, x);
        if j > 0 {
            assert(in_run(s[j - 1], bs, x));
        }
    }
    assert forall|x: int| covered_runs(s, bs).union(freed).contains(x) implies covered_runs(
        t,
        bs,
    ).contains(x) by {
        if freed.contains(x) {
            assert(in_run(t[0], bs, x));
        } else {
            let j = choose|j: int| 0 <= j < s.len() && #[trigger] in_run(s[j], bs, x);
            assert(in_run(t[j + 1], bs, x));
        }
    }
    assert(covered_runs(t, bs) =~= covered_runs(s, bs).union(freed));
}

/// Unless it stops at an empty run, freeing adds exactly the freed addresses.
pub proof fn lemma_free_law(s: Seq<Run>, ptr: u64, cnt: u64, bs: u64)
    requires
        bs > 0,
        free_safe(s, ptr, cnt, bs),
        free_is_plain(s, ptr, cnt, bs),
    ensures
        covered_runs(free_result(s, ptr, cnt, bs), bs) == covered_runs(s, bs).union(
            span(ptr as int, cnt * bs),
        ),
{
    let e = ptr + cnt * bs;
    if has_stop(s, e, bs) {
        let k = first_stop(s, e, bs);
        assert(is_first_stop(s, e, bs, k));
        if k > 0 {
            lemma_free_law_merge(s, ptr, cnt, bs, k);
        } else {
            lemma_free_law_head(s, ptr, cnt, bs);
        }
    } else {
        lemma_free_law_push(s, ptr, cnt, bs);
    }
}

/// Taking blocks from a run and freeing them again leaves the list covering
/// exactly the addresses it covered before, unless the free stops at an
/// empty run.
pub proof fn lemma_take_then_free(s: Seq<Run>, cnt: u64, k: int, bs: u64)
    requires
        bs > 0,
        0 <= k < s.len(),
        cnt <= s[k].blocks,
        cnt < s[k].blocks ==> s[k].adr + cnt * bs <= u64::MAX,
        runs_disjoint(s, bs),
        free_safe(take_result(s, cnt, k, bs), s[k].adr, cnt, bs),
        free_is_plain(take_result(s, cnt, k, bs), s[k].adr, cnt, bs),
    ensures
        covered_runs(free_result(take_result(s, cnt, k, bs), s[k].adr, cnt, bs), bs) == covered_runs(
            s,
            bs,
        ),
{
    let taken = span(s[k].adr as int, cnt * bs);
    lemma_take_law(s, cnt, k, bs);
    lemma_free_law(take_result(s, cnt, k, bs), s[k].adr, cnt, bs);
    assert(covered_runs(s, bs).difference(taken).union(taken) =~= covered_runs(s, bs));
}

impl<const BLOCK_SIZE: usize> IntrusiveFreeList<BLOCK_SIZE> {
    /// An empty list.
    pub fn new() -> (r: Self)
        ensures
            r@ == Seq::<Run>::empty(),
    {
        IntrusiveFreeList { runs: Vec::new() }
    }

    /// The list's well-formedness: no run lies at the null address.
    pub open spec fn wf(&self) -> bool {
        runs_ok(self@)
    }

    /// The block size in bytes.
    pub fn block_size() -> (r: u64)
        ensures
            r == BLOCK_SIZE as u64,
    {
        BLOCK_SIZE as u64
    }

    /// The number of blocks that `byte_len` bytes take.
    pub fn block_cnt(byte_len: u64) -> (r: u64)
        requires
            BLOCK_SIZE > 0,
            byte_len + BLOCK_SIZE - 1 <= u64::MAX,
        ensures
            r == blocks_for(byte_len, BLOCK_SIZE as u64),
    {
        (byte_len + (Self::block_size() - 1)) / Self::block_size()
    }

    /// The runs of the list, head first.
    pub fn runs(&self) -> (r: Vec<Run>)
        ensures
            r@ == self@,
    {
        self.runs.clone()
    }

    /// Adds the region `ptr .. ptr + len` at the head, after checking that
    /// its address is aligned to 8 bytes and its length is a multiple of the
    /// block size.
    pub fn push_region_checked(&mut self, ptr: u64, len: usize) -> (r: Result<(), Error>)
        requires
            old(self).wf(),
            BLOCK_SIZE > 0,
            ptr % 8 == 0 && (len as u64) % (BLOCK_SIZE as u64) == 0 ==> ptr != 0,
        ensures
            final(self).wf(),
            ptr % 8 != 0 ==> r == Err::<(), Error>(Error::UnalignedRegion) && final(self)@ == old(
                self,
            )@,
            ptr % 8 == 0 && (len as u64) % (BLOCK_SIZE as u64) != 0 ==> r == Err::<(), Error>(
                Error::UnalignedRegionSize,
            ) && final(self)@ == old(self)@,
            ptr % 8 == 0 && (len as u64) % (BLOCK_SIZE as u64) == 0 ==> r is Ok && final(self)@ == seq![
                Run { adr: ptr, blocks: whole_blocks(len as u64, BLOCK_SIZE as u64) },
            ] + old(self)@,
    {
        if ptr % 8 != 0 {
            Err(Error::UnalignedRegion)
        } else if len as u64 % Self::block_size() != 0 {
            Err(Error::UnalignedRegionSize)
        } else {
            self.push_region_unchecked(ptr, len);
            Ok(())
        }
    }

    /// Adds the region `ptr .. ptr + len`, aligned to 8 bytes, at the head as
    /// one run of the whole blocks it holds; no address at or past
    /// `ptr + len` is taken into the list.
    pub fn push_region_unchecked(&mut self, ptr: u64, len: usize)
        requires
            old(self).wf(),
            BLOCK_SIZE > 0,
            ptr != 0,
            ptr % 8 == 0,
        ensures
            final(self).wf(),
            final(self)@ == seq![Run { adr: ptr, blocks: whole_blocks(len as u64, BLOCK_SIZE as u64) }]
                + old(self)@,
            run_end(final(self)@[0], BLOCK_SIZE as u64) <= ptr + len,
            (len as u64) % (BLOCK_SIZE as u64) == 0 ==> run_end(final(self)@[0], BLOCK_SIZE as u64)
                == ptr + len,
    {
        let blocks = len as u64 / Self::block_size();
        proof {
            let b = BLOCK_SIZE as int;
            let l = len as int;
            assert((l / b) * b <= l) by (nonlinear_arith)
                requires
                    b > 0,
                    l >= 0,
            ;
            assert(l % b == 0 ==> (l / b) * b == l) by (nonlinear_arith)
                requires
                    b > 0,
                    l >= 0,
            ;
        }
        let ghost before = self@;
        self.runs.insert(0, Run { adr: ptr, blocks });
        proof {
            assert(self@ =~= seq![Run { adr: ptr, blocks }] + before);
            assert forall|j: int| 0 <= j < self@.len() implies (#[trigger] self@[j]).adr != 0 by {
                if j > 0 {
                    assert(self@[j] == before[j - 1]);
                }
            }
        }
    }

    /// Takes the blocks for `layout` from the front of the first run that holds
    /// enough of them.
    pub fn alloc_layout(&mut self, layout: Layout) -> (r: Result<u64, Error>)
        requires
            old(self).wf(),
            BLOCK_SIZE > 0,
            layout.align() <= BLOCK_SIZE ==> {
                let cnt = request_blocks(layout.size(), BLOCK_SIZE as u64);
                &&& (if layout.size() == 0 { 1 } else { layout.size() as int }) + BLOCK_SIZE - 1
                    <= u64::MAX
                &&& has_big(old(self)@, cnt) ==> take_fits(old(self)@, cnt, first_big(old(self)@, cnt), BLOCK_SIZE as u64)
            },
        ensures
            final(self).wf(),
            (r, final(self)@) == alloc_outcome(old(self)@, layout.size(), layout.align(), BLOCK_SIZE as u64),
            layout.align() > BLOCK_SIZE ==> r == Err::<u64, Error>(Error::NonBlockAlignedAllocation)
                && final(self)@ == old(self)@,
            layout.align() <= BLOCK_SIZE ==> {
                let cnt = request_blocks(layout.size(), BLOCK_SIZE as u64);
                &&& r is Ok <==> has_big(old(self)@, cnt)
                &&& match r {
                    Ok(a) => {
                        let k = first_big(old(self)@, cnt);
                        &&& a == old(self)@[k].adr
                        &&& final(self)@ == take_result(old(self)@, cnt, k, BLOCK_SIZE as u64)
                        &&& span(a as int, cnt * BLOCK_SIZE).subset_of(
                            covered_runs(old(self)@, BLOCK_SIZE as u64),
                        )
                        &&& runs_disjoint(old(self)@, BLOCK_SIZE as u64) ==> {
                            &&& covered_runs(final(self)@, BLOCK_SIZE as u64) == covered_runs(
                                old(self)@,
                                BLOCK_SIZE as u64,
                            ).difference(span(a as int, cnt * BLOCK_SIZE))
                            &&& runs_disjoint(final(self)@, BLOCK_SIZE as u64)
                        }
                    },
                    Err(e) => e == Error::InsufficientSpace && final(self)@ == old(self)@,
                }
            },
    {
        if layout.align() > BLOCK_SIZE {
            return Err(Error::NonBlockAlignedAllocation);
        }
        let size = layout.size() as u64;
        let wanted: u64 = if size > 1 { size } else { 1 };
        let cnt = Self::block_cnt(wanted);
        let bs = Self::block_size();
        let mut k: usize = 0;
        while k < self.runs.len()
            invariant
                k <= self@.len(),
                self@ == old(self)@,
                runs_ok(self@),
                BLOCK_SIZE > 0,
                bs == BLOCK_SIZE as u64,
                cnt == request_blocks(layout.size(), BLOCK_SIZE as u64),
                layout.align() <= BLOCK_SIZE,
                has_big(self@, cnt) ==> take_fits(self@, cnt, first_big(self@, cnt), BLOCK_SIZE as u64),
                forall|j: int| 0 <= j < k ==> (#[trigger] self@[j]).blocks < cnt,
            decreases self@.len() - k,
        {
            let cur = self.runs[k];
            if cnt <= cur.blocks {
                proof {
                    assert(is_first_big(self@, cnt, k as int));
                    lemma_first_big(self@, cnt, k as int);
                    lemma_take_law(self@, cnt, k as int, bs);
                }
                let remaining = cur.blocks - cnt;
                let ghost before = self@;
                if remaining > 0 {
                    self.runs.set(k, Run { adr: cur.adr + cnt * bs, blocks: remaining });
                    proof {
                        assert forall|j: int| 0 <= j < self@.len() implies (#[trigger] self@[j]).adr
                            != 0 by {
                            if j != k {
                                assert(self@[j] == before[j]);
                            }
                        }
                    }
                } else {
                    self.runs.remove(k);
                    proof {
                        before.remove_ensures(k as int);
                        assert forall|j: int| 0 <= j < self@.len() implies (#[trigger] self@[j]).adr
                            != 0 by {
                            if j < k {
                                assert(self@[j] == before[j]);
                            } else {
                                assert(self@[j] == before[j + 1]);
                            }
                        }
                    }
                }
                return Ok(cur.adr);
            }
            k = k + 1;
        }
        proof {
            if has_big(self@, cnt) {
                let f = first_big(self@, cnt);
                assert(is_first_big(self@, cnt, f));
                assert(self@[f].blocks < cnt);
            }
        }
        Err(Error::InsufficientSpace)
    }

    /// Takes blocks for a value of type `T`.
    pub fn alloc_typed<T>(&mut self) -> (r: Result<u64, Error>)
        requires
            old(self).wf(),
            BLOCK_SIZE > 0,
            vstd::layout::align_of::<T>() <= BLOCK_SIZE ==> {
                let cnt = request_blocks(vstd::layout::size_of::<T>() as usize, BLOCK_SIZE as u64);
                &&& (if vstd::layout::size_of::<T>() == 0 { 1 } else {
                    vstd::layout::size_of::<T>() as int
                }) + BLOCK_SIZE - 1 <= u64::MAX
                &&& has_big(old(self)@, cnt) ==> take_fits(old(self)@, cnt, first_big(old(self)@, cnt), BLOCK_SIZE as u64)
            },
        ensures
            final(self).wf(),
            (r, final(self)@) == alloc_outcome(
                old(self)@,
                vstd::layout::size_of::<T>() as usize,
                vstd::layout::align_of::<T>() as usize,
                BLOCK_SIZE as u64,
            ),
            vstd::layout::align_of::<T>() > BLOCK_SIZE ==> r == Err::<u64, Error>(
                Error::NonBlockAlignedAllocation,
            ) && final(self)@ == old(self)@,
            vstd::layout::align_of::<T>() <= BLOCK_SIZE ==> {
                let cnt = request_blocks(vstd::layout::size_of::<T>() as usize, BLOCK_SIZE as u64);
                &&& r is Ok <==> has_big(old(self)@, cnt)
                &&& match r {
                    Ok(a) => {
                        let k = first_big(old(self)@, cnt);
                        &&& a == old(self)@[k].adr
                        &&& final(self)@ == take_result(old(self)@, cnt, k, BLOCK_SIZE as u64)
                    },
                    Err(e) => e == Error::InsufficientSpace && final(self)@ == old(self)@,
                }
            },
    {
        let layout = Layout::new::<T>();
        self.alloc_layout(layout)
    }

    /// Takes the blocks for `bytes` bytes, with no alignment asked, as
    /// `alloc_layout` does.
    pub fn alloc_bytes(&mut self, bytes: usize) -> (r: Result<u64, Error>)
        requires
            old(self).wf(),
            BLOCK_SIZE > 0,
            vstd::layout::valid_layout(bytes, 1),
            (if bytes == 0 { 1 } else { bytes as int }) + BLOCK_SIZE - 1 <= u64::MAX,
            has_big(old(self)@, request_blocks(bytes, BLOCK_SIZE as u64)) ==> take_fits(
                old(self)@,
                request_blocks(bytes, BLOCK_SIZE as u64),
                first_big(old(self)@, request_blocks(bytes, BLOCK_SIZE as u64)),
                BLOCK_SIZE as u64,
            ),
        ensures
            final(self).wf(),
            (r, final(self)@) == alloc_outcome(old(self)@, bytes, 1, BLOCK_SIZE as u64),
    {
        match Layout::from_size_align(bytes, 1) {
            Some(layout) => self.alloc_layout(layout),
            None => {
                proof {
                    assert(false);
                }
                Err(Error::InsufficientSpace)
            },
        }
    }

    /// Gives the blocks of `len` bytes at `ptr` back to the list, as
    /// `free_layout` does.
    pub fn free_bytes(&mut self, ptr: u64, len: usize)
        requires
            old(self).wf(),
            BLOCK_SIZE > 0,
            ptr != 0,
            vstd::layout::valid_layout(len, 1),
            (if len == 0 { 1 } else { len as int }) + BLOCK_SIZE - 1 <= u64::MAX,
            free_safe(old(self)@, ptr, request_blocks(len, BLOCK_SIZE as u64), BLOCK_SIZE as u64),
        ensures
            final(self).wf(),
            final(self)@ == free_result(
                old(self)@,
                ptr,
                request_blocks(len, BLOCK_SIZE as u64),
                BLOCK_SIZE as u64,
            ),
    {
        match Layout::from_size_align(len, 1) {
            Some(layout) => self.free_layout(ptr, layout),
            None => {
                proof {
                    assert(false);
                }
            },
        }
    }

    /// Gives the blocks of `layout` at `ptr` back to the list.
    pub fn free_layout(&mut self, ptr: u64, layout: Layout)
        requires
            old(self).wf(),
            BLOCK_SIZE > 0,
            ptr != 0,
            (if layout.size() == 0 { 1 } else { layout.size() as int }) + BLOCK_SIZE - 1 <= u64::MAX,
            free_safe(
                old(self)@,
                ptr,
                request_blocks(layout.size(), BLOCK_SIZE as u64),
                BLOCK_SIZE as u64,
            ),
        ensures
            final(self).wf(),
            final(self)@ == free_result(
                old(self)@,
                ptr,
                request_blocks(layout.size(), BLOCK_SIZE as u64),
                BLOCK_SIZE as u64,
            ),
            free_is_plain(
                old(self)@,
                ptr,
                request_blocks(layout.size(), BLOCK_SIZE as u64),
                BLOCK_SIZE as u64,
            ) ==> covered_runs(final(self)@, BLOCK_SIZE as u64) == covered_runs(
                old(self)@,
                BLOCK_SIZE as u64,
            ).union(span(ptr as int, request_blocks(layout.size(), BLOCK_SIZE as u64) * BLOCK_SIZE)),
    {
        let size = layout.size() as u64;
        let wanted: u64 = if size > 1 { size } else { 1 };
        self.free_blocks(ptr, Self::block_cnt(wanted));
    }

    /// Gives `block_cnt` blocks at `ptr` back to the list.
    #[verifier::rlimit(40)]
    fn free_blocks(&mut self, ptr: u64, block_cnt: u64)
        requires
            old(self).wf(),
            BLOCK_SIZE > 0,
            ptr != 0,
            free_safe(old(self)@, ptr, block_cnt, BLOCK_SIZE as u64),
        ensures
            final(self).wf(),
            final(self)@ == free_result(old(self)@, ptr, block_cnt, BLOCK_SIZE as u64),
            free_is_plain(old(self)@, ptr, block_cnt, BLOCK_SIZE as u64) ==> covered_runs(
                final(self)@,
                BLOCK_SIZE as u64,
            ) == covered_runs(old(self)@, BLOCK_SIZE as u64).union(
                span(ptr as int, block_cnt * BLOCK_SIZE),
            ),
    {
        proof {
            if free_is_plain(self@, ptr, block_cnt, BLOCK_SIZE as u64) {
                lemma_free_law(self@, ptr, block_cnt, BLOCK_SIZE as u64);
            }
        }
        let ghost law = free_is_plain(self@, ptr, block_cnt, BLOCK_SIZE as u64) ==> covered_runs(
            free_result(self@, ptr, block_cnt, BLOCK_SIZE as u64),
            BLOCK_SIZE as u64,
        ) == covered_runs(self@, BLOCK_SIZE as u64).union(span(ptr as int, block_cnt * BLOCK_SIZE));
        let bs = Self::block_size();
        let end_adr: u64 = ptr + block_cnt * bs;
        let mut k: usize = 0;
        while k < self.runs.len()
            invariant
                k <= self@.len(),
                self@ == old(self)@,
                runs_ok(self@),
                BLOCK_SIZE > 0,
                ptr != 0,
                bs == BLOCK_SIZE as u64,
                end_adr == ptr + block_cnt * bs,
                free_safe(self@, ptr, block_cnt, bs),
                law,
                law == (free_is_plain(old(self)@, ptr, block_cnt, BLOCK_SIZE as u64) ==> covered_runs(
                    free_result(old(self)@, ptr, block_cnt, BLOCK_SIZE as u64),
                    BLOCK_SIZE as u64,
                ) == covered_runs(old(self)@, BLOCK_SIZE as u64).union(
                    span(ptr as int, block_cnt * BLOCK_SIZE),
                )),
                forall|j: int| 0 <= j < k ==> !stops_free(#[trigger] self@[j], end_adr as int, bs),
            decreases self@.len() - k,
        {
            let cur = self.runs[k];
            proof {
                assert(run_end(self@[k as int], bs) <= u64::MAX);
            }
            let cur_end_adr = cur.adr + cur.blocks * bs;
            if cur.adr == end_adr || cur_end_adr == cur.adr {
                proof {
                    assert(is_first_stop(self@, end_adr as int, bs, k as int));
                    lemma_first_stop(self@, end_adr as int, bs, k as int);
                }
                let ghost before = self@;
                if cur.adr == end_adr {
                    let node = Run { adr: ptr, blocks: block_cnt + cur.blocks };
                    if k > 0 {
                        self.runs.set(k, node);
                    } else {
                        self.runs.insert(1, node);
                    }
                } else {
                    self.runs.set(k, Run { adr: cur.adr, blocks: cur.blocks + block_cnt });
                }
                proof {
                    assert forall|j: int| 0 <= j < self@.len() implies (#[trigger] self@[j]).adr != 0 by {
                        if k == 0 && cur.adr == end_adr && j > 1 {
                            assert(self@[j] == before[j - 1]);
                        } else if j != k && !(k == 0 && j == 1) {
                            assert(self@[j] == before[j]);
                        }
                    }
                }
                return;
            }
            k = k + 1;
        }
        proof {
            if has_stop(self@, end_adr as int, bs) {
                let f = first_stop(self@, end_adr as int, bs);
                assert(is_first_stop(self@, end_adr as int, bs, f));
                assert(!stops_free(self@[f], end_adr as int, bs));
            }
        }
        let len: usize = (block_cnt * bs) as usize;
        let blocks = len as u64 / bs;
        let ghost before = self@;
        self.runs.insert(0, Run { adr: ptr, blocks });
        proof {
            assert(self@ =~= seq![Run { adr: ptr, blocks }] + before);
            assert forall|j: int| 0 <= j < self@.len() implies (#[trigger] self@[j]).adr != 0 by {
                if j > 0 {
                    assert(self@[j] == before[j - 1]);
                }
            }
        }
    }

    /// Gives the blocks of a value of type `T` at `ptr` back to the list.
    pub fn free<T>(&mut self, ptr: u64)
        requires
            old(self).wf(),
            BLOCK_SIZE > 0,
            ptr != 0,
            (if vstd::layout::size_of::<T>() == 0 { 1 } else { vstd::layout::size_of::<T>() as int })
                + BLOCK_SIZE - 1 <= u64::MAX,
            free_safe(
                old(self)@,
                ptr,
                request_blocks(vstd::layout::size_of::<T>() as usize, BLOCK_SIZE as u64),
                BLOCK_SIZE as u64,
            ),
        ensures
            final(self).wf(),
            final(self)@ == free_result(
                old(self)@,
                ptr,
                request_blocks(vstd::layout::size_of::<T>() as usize, BLOCK_SIZE as u64),
                BLOCK_SIZE as u64,
            ),
    {
        let layout = Layout::new::<T>();
        self.free_layout(ptr, layout)
    }
}

} // verus!
