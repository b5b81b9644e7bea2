//! Reference model of the target's bounded binary min-heap, including the
//! byte-exact trace it must emit: every operation echoes an invocation line,
//! failure lines on capacity overflow / underflow, and a full listing line
//! after every structural step of the rebalancing walks.
use vstd::prelude::*;

verus! {

/// Fixed capacity of the heap.
pub const MAX_SIZE: usize = 20;

// ---------------------------------------------------------------------------
// Decimal rendering of values, as the trace prints them.
// ---------------------------------------------------------------------------

/// Decimal digits of `n`, most significant first.
pub open spec fn dec_digits(n: nat) -> Seq<u8>
    decreases n,
{
    if n < 10 {
        seq![(48 + n) as u8]
    } else {
        dec_digits(n / 10).push((48 + n % 10) as u8)
    }
}

/// Decimal rendering of a signed 16-bit value, with a leading `-` when negative.
pub open spec fn dec_i16(v: i16) -> Seq<u8> {
    if v < 0 {
        seq![45] + dec_digits((-(v as int)) as nat)
    } else {
        dec_digits(v as nat)
    }
}

fn push_u16_dec(out: &mut Vec<u8>, n: u16)
    ensures
        final(out)@ == old(out)@ + dec_digits(n as nat),
    decreases n,
{
    if n < 10 {
        out.push((48 + n) as u8);
    } else {
        push_u16_dec(out, n / 10);
        out.push((48 + n % 10) as u8);
    }
    assert(out@ =~= old(out)@ + dec_digits(n as nat));
}

pub(crate) fn push_i16_dec(out: &mut Vec<u8>, v: i16)
    ensures
        final(out)@ == old(out)@ + dec_i16(v),
{
    if v < 0 {
        out.push(45);
        let m: u16 = (-(v as i32)) as u16;
        assert(m as nat == (-(v as int)) as nat);
        push_u16_dec(out, m);
        assert(out@ =~= old(out)@ + dec_i16(v));
    } else {
        push_u16_dec(out, v as u16);
        assert(v as u16 as nat == v as nat);
    }
}

// ---------------------------------------------------------------------------
// The fixed byte strings of the trace format.
// ---------------------------------------------------------------------------

/// `">i "`, the echo prefix of an insert invocation.
pub open spec fn lit_insert_echo() -> Seq<u8> {
    seq![62, 105, 32]
}

/// `">r\n"`, the echo of a remove invocation.
pub open spec fn lit_remove_echo() -> Seq<u8> {
    seq![62, 114, 10]
}

/// `"Insert failed\n"`.
pub open spec fn lit_insert_failed() -> Seq<u8> {
    seq![73, 110, 115, 101, 114, 116, 32, 102, 97, 105, 108, 101, 100, 10]
}

/// `"Remove failed\n"`.
pub open spec fn lit_remove_failed() -> Seq<u8> {
    seq![82, 101, 109, 111, 118, 101, 32, 102, 97, 105, 108, 101, 100, 10]
}

/// `"Heap: "`, the prefix of every listing line.
pub open spec fn lit_heap_prefix() -> Seq<u8> {
    seq![72, 101, 97, 112, 58, 32]
}

/// `"Empty"`, listed in place of elements when the heap is empty.
pub open spec fn lit_empty() -> Seq<u8> {
    seq![69, 109, 112, 116, 121]
}

fn push_insert_echo(out: &mut Vec<u8>)
    ensures
        final(out)@ == old(out)@ + lit_insert_echo(),
{
    out.push(62);
    out.push(105);
    out.push(32);
    assert(out@ =~= old(out)@ + lit_insert_echo());
}

fn push_remove_echo(out: &mut Vec<u8>)
    ensures
        final(out)@ == old(out)@ + lit_remove_echo(),
{
    out.push(62);
    out.push(114);
    out.push(10);
    assert(out@ =~= old(out)@ + lit_remove_echo());
}

fn push_insert_failed(out: &mut Vec<u8>)
    ensures
        final(out)@ == old(out)@ + lit_insert_failed(),
{
    out.push(73);
    out.push(110);
    out.push(115);
    out.push(101);
    out.push(114);
    out.push(116);
    out.push(32);
    out.push(102);
    out.push(97);
    out.push(105);
    out.push(108);
    out.push(101);
    out.push(100);
    out.push(10);
    assert(out@ =~= old(out)@ + lit_insert_failed());
}

fn push_remove_failed(out: &mut Vec<u8>)
    ensures
        final(out)@ == old(out)@ + lit_remove_failed(),
{
    out.push(82);
    out.push(101);
    out.push(109);
    out.push(111);
    out.push(118);
    out.push(101);
    out.push(32);
    out.push(102);
    out.push(97);
    out.push(105);
    out.push(108);
    out.push(101);
    out.push(100);
    out.push(10);
    assert(out@ =~= old(out)@ + lit_remove_failed());
}

fn push_heap_prefix(out: &mut Vec<u8>)
    ensures
        final(out)@ == old(out)@ + lit_heap_prefix(),
{
    out.push(72);
    out.push(101);
    out.push(97);
    out.push(112);
    out.push(58);
    out.push(32);
    assert(out@ =~= old(out)@ + lit_heap_prefix());
}

fn push_empty(out: &mut Vec<u8>)
    ensures
        final(out)@ == old(out)@ + lit_empty(),
{
    out.push(69);
    out.push(109);
    out.push(112);
    out.push(116);
    out.push(121);
    assert(out@ =~= old(out)@ + lit_empty());
}

// ---------------------------------------------------------------------------
// The listing line.
// ---------------------------------------------------------------------------

/// Rendering of the elements in array order, each followed by one space.
pub open spec fn elems_bytes(h: Seq<i16>) -> Seq<u8>
    decreases h.len(),
{
    if h.len() == 0 {
        Seq::empty()
    } else {
        elems_bytes(h.drop_last()) + dec_i16(h.last()) + seq![32]
    }
}

/// One full listing line: `"Heap: v0 v1 ... vk \n"`, or `"Heap: Empty\n"`.
pub open spec fn list_line(h: Seq<i16>) -> Seq<u8> {
    if h.len() == 0 {
        lit_heap_prefix() + lit_empty() + seq![10]
    } else {
        lit_heap_prefix() + elems_bytes(h) + seq![10]
    }
}

// ---------------------------------------------------------------------------
// The heap shape, and the rebalancing walks.
// ---------------------------------------------------------------------------

/// Index `j` is a child slot of index `i` within a heap of length `len`.
pub open spec fn is_child(i: int, j: int, len: int) -> bool {
    0 <= i && (j == 2 * i + 1 || j == 2 * i + 2) && j < len
}

/// Every parent is at most each of its children.
pub open spec fn is_min_heap(h: Seq<i16>) -> bool {
    forall|i: int, j: int| #[trigger] is_child(i, j, h.len() as int) ==> h[i] <= h[j]
}

/// Parent slot of a non-root index.
pub open spec fn up_parent(c: int) -> int {
    (c - 1) / 2
}

/// The sequence with the values at `i` and `j` exchanged.
pub open spec fn swap_seq(h: Seq<i16>, i: int, j: int) -> Seq<i16> {
    h.update(i, h[j]).update(j, h[i])
}

/// The sift-up walk takes another step at `c`.
pub open spec fn sift_up_now(h: Seq<i16>, c: int) -> bool {
    0 < c < h.len() && h[c] < h[up_parent(c)]
}

/// Final arrangement after sifting the value at `c` toward the root.
pub open spec fn sift_up_state(h: Seq<i16>, c: int) -> Seq<i16>
    decreases c,
{
    if sift_up_now(h, c) {
        sift_up_state(swap_seq(h, up_parent(c), c), up_parent(c))
    } else {
        h
    }
}

/// Listing lines emitted while sifting the value at `c` toward the root:
/// one full listing after every swap.
pub open spec fn sift_up_trace(h: Seq<i16>, c: int) -> Seq<u8>
    decreases c,
{
    if sift_up_now(h, c) {
        list_line(swap_seq(h, up_parent(c), c)) + sift_up_trace(
            swap_seq(h, up_parent(c), c),
            up_parent(c),
        )
    } else {
        Seq::empty()
    }
}

/// The child of `c` that the sift-down walk moves toward: the right child only
/// when it is strictly smaller than the left one.
pub open spec fn down_next(h: Seq<i16>, c: int) -> int {
    if 2 * c + 2 < h.len() && h[2 * c + 2] < h[2 * c + 1] {
        2 * c + 2
    } else {
        2 * c + 1
    }
}

/// The sift-down walk takes another step at `c`.
pub open spec fn sift_down_now(h: Seq<i16>, c: int) -> bool {
    0 <= c && down_next(h, c) < h.len() && h[down_next(h, c)] < h[c]
}

/// Final arrangement after sifting the value at `c` down.
pub open spec fn sift_down_state(h: Seq<i16>, c: int) -> Seq<i16>
    decreases h.len() - c,
{
    if sift_down_now(h, c) {
        sift_down_state(swap_seq(h, c, down_next(h, c)), down_next(h, c))
    } else {
        h
    }
}

/// Listing lines emitted while sifting the value at `c` down.
pub open spec fn sift_down_trace(h: Seq<i16>, c: int) -> Seq<u8>
    decreases h.len() - c,
{
    if sift_down_now(h, c) {
        list_line(swap_seq(h, c, down_next(h, c))) + sift_down_trace(
            swap_seq(h, c, down_next(h, c)),
            down_next(h, c),
        )
    } else {
        Seq::empty()
    }
}

// ---------------------------------------------------------------------------
// What one operation does: final arrangement and emitted bytes.
// ---------------------------------------------------------------------------

/// Arrangement after the last element replaces the root and the size shrinks.
pub open spec fn pop_prep(h: Seq<i16>) -> Seq<i16> {
    h.update(0, h.last()).drop_last()
}

/// Elements held after an insert: unchanged when full, else the new value
/// appended and sifted up.
pub open spec fn insert_state(h: Seq<i16>, item: i16) -> Seq<i16> {
    if h.len() >= MAX_SIZE {
        h
    } else {
        sift_up_state(h.push(item), h.len() as int)
    }
}

/// Bytes an insert emits: the echo line, then either the failure line or a
/// listing of the appended state followed by one listing per sift step.
pub open spec fn insert_trace(h: Seq<i16>, item: i16) -> Seq<u8> {
    lit_insert_echo() + dec_i16(item) + seq![10u8] + if h.len() >= MAX_SIZE {
        lit_insert_failed()
    } else {
        list_line(h.push(item)) + sift_up_trace(h.push(item), h.len() as int)
    }
}

/// Elements held after a remove: unchanged when empty, else the root replaced
/// by the last element and sifted down.
pub open spec fn remove_state(h: Seq<i16>) -> Seq<i16> {
    if h.len() == 0 {
        h
    } else {
        sift_down_state(pop_prep(h), 0)
    }
}

/// Bytes a remove emits: the echo line, then either the failure line or a
/// listing of the shrunk state followed by one listing per sift step.
pub open spec fn remove_trace(h: Seq<i16>) -> Seq<u8> {
    lit_remove_echo() + if h.len() == 0 {
        lit_remove_failed()
    } else {
        list_line(pop_prep(h)) + sift_down_trace(pop_prep(h), 0)
    }
}

// ---------------------------------------------------------------------------
// The sift walks keep the length and restore the min-heap property.
// ---------------------------------------------------------------------------

proof fn lemma_sift_up_len(h: Seq<i16>, c: int)
    ensures
        sift_up_state(h, c).len() == h.len(),
    decreases c,
{
    if sift_up_now(h, c) {
        lemma_sift_up_len(swap_seq(h, up_parent(c), c), up_parent(c));
    }
}

proof fn lemma_sift_down_len(h: Seq<i16>, c: int)
    ensures
        sift_down_state(h, c).len() == h.len(),
    decreases h.len() - c,
{
    if sift_down_now(h, c) {
        lemma_sift_down_len(swap_seq(h, c, down_next(h, c)), down_next(h, c));
    }
}

/// Every edge holds, except possibly those into child slot `c`.
spec fn heap_except_up(h: Seq<i16>, c: int) -> bool {
    forall|i: int, j: int|
        #[trigger] is_child(i, j, h.len() as int) && j != c ==> h[i] <= h[j]
}

/// Every edge holds, except possibly those out of parent slot `c`.
spec fn heap_except_down(h: Seq<i16>, c: int) -> bool {
    forall|i: int, j: int|
        #[trigger] is_child(i, j, h.len() as int) && i != c ==> h[i] <= h[j]
}

/// If `c` has a parent, that parent's value is at most each of `c`'s children.
spec fn gap_ok(h: Seq<i16>, c: int) -> bool {
    c > 0 ==> {
        &&& (2 * c + 1 < h.len() ==> h[up_parent(c)] <= h[2 * c + 1])
        &&& (2 * c + 2 < h.len() ==> h[up_parent(c)] <= h[2 * c + 2])
    }
}

proof fn lemma_sift_up_heap(h: Seq<i16>, c: int)
    requires
        0 <= c < h.len(),
        heap_except_up(h, c),
        gap_ok(h, c),
    ensures
        is_min_heap(sift_up_state(h, c)),
    decreases c,
{
    let len = h.len() as int;
    if sift_up_now(h, c) {
        let p = up_parent(c);
        let h2 = swap_seq(h, p, c);
        assert(0 <= p < c);
        assert forall|i: int, j: int|
            #[trigger] is_child(i, j, h2.len() as int) && j != p implies h2[i] <= h2[j] by {
            assert(is_child(i, j, len));
            if j == c {
                assert(i == p);
                assert(h2[p] == h[c] && h2[c] == h[p]);
            } else if i == c {
                // children of `c`, covered by the parent's value moved down
                assert(h2[i] == h[p]);
                assert(h2[j] == h[j]);
                assert(h[p] <= h[j]);
            } else if i == p {
                // the sibling of `c`; the value moved up only shrank
                assert(h2[i] == h[c]);
                assert(h[p] <= h[j]);
            } else {
                assert(h2[i] == h[i] && h2[j] == h[j]);
            }
        }
        assert(gap_ok(h2, p)) by {
            if p > 0 {
                let g = up_parent(p);
                assert(0 <= g < p);
                if 2 * p + 1 < len {
                    assert(is_child(g, p, len) && p != c);
                    if 2 * p + 1 == c {
                        assert(h2[2 * p + 1] == h[p]);
                    } else {
                        assert(is_child(p, 2 * p + 1, len));
                        assert(h2[2 * p + 1] == h[2 * p + 1]);
                    }
                }
                if 2 * p + 2 < len {
                    assert(is_child(g, p, len) && p != c);
                    if 2 * p + 2 == c {
                        assert(h2[2 * p + 2] == h[p]);
                    } else {
                        assert(is_child(p, 2 * p + 2, len));
                        assert(h2[2 * p + 2] == h[2 * p + 2]);
                    }
                }
            }
        }
        lemma_sift_up_heap(h2, p);
    } else {
        assert forall|i: int, j: int| #[trigger] is_child(i, j, len) implies h[i] <= h[j] by {
            if j == c {
                assert(i == up_parent(c));
                assert(c > 0);
                assert(h[up_parent(c)] <= h[c]);
            }
        }
    }
}

proof fn lemma_sift_down_heap(h: Seq<i16>, c: int)
    requires
        0 <= c,
        heap_except_down(h, c),
        gap_ok(h, c),
    ensures
        is_min_heap(sift_down_state(h, c)),
    decreases h.len() - c,
{
    let len = h.len() as int;
    if sift_down_now(h, c) {
        let n = down_next(h, c);
        let h2 = swap_seq(h, c, n);
        assert(c < n < len);
        assert forall|i: int, j: int|
            #[trigger] is_child(i, j, h2.len() as int) && i != n implies h2[i] <= h2[j] by {
            assert(is_child(i, j, len));
            if i == c {
                assert(h2[c] == h[n]);
                if j == n {
                    assert(h2[n] == h[c]);
                } else {
                    // the other child of `c`: `n` was the smaller one
                    assert(h2[j] == h[j]);
                    assert(h[n] <= h[j]);
                }
            } else if j == c {
                assert(i == up_parent(c));
                assert(c > 0);
                assert(h2[i] == h[i]);
                assert(h2[c] == h[n]);
                assert(h[up_parent(c)] <= h[n]);
            } else if j == n {
                assert(i == c);
            } else {
                assert(h2[i] == h[i] && h2[j] == h[j]);
            }
        }
        assert(gap_ok(h2, n)) by {
            assert(up_parent(n) == c);
            assert(h2[c] == h[n]);
            if 2 * n + 1 < len {
                assert(is_child(n, 2 * n + 1, len) && n != c);
                assert(h2[2 * n + 1] == h[2 * n + 1]);
            }
            if 2 * n + 2 < len {
                assert(is_child(n, 2 * n + 2, len) && n != c);
                assert(h2[2 * n + 2] == h[2 * n + 2]);
            }
        }
        lemma_sift_down_heap(h2, n);
    } else {
        assert forall|i: int, j: int| #[trigger] is_child(i, j, len) implies h[i] <= h[j] by {
            if i == c {
                let n = down_next(h, c);
                assert(2 * c + 1 < len);
                assert(n < len);
                assert(!(h[n] < h[c]));
                if 2 * c + 2 < len && h[2 * c + 2] < h[2 * c + 1] {
                    assert(n == 2 * c + 2);
                    assert(h[c] <= h[2 * c + 2]);
                    assert(h[c] <= h[2 * c + 1]);
                } else {
                    assert(n == 2 * c + 1);
                    assert(h[c] <= h[2 * c + 1]);
                    if 2 * c + 2 < len {
                        assert(h[2 * c + 1] <= h[2 * c + 2]);
                    }
                }
            }
        }
    }
}

/// Size after an insert: unchanged when full, else one more.
pub proof fn lemma_insert_len(h: Seq<i16>, item: i16)
    ensures
        insert_state(h, item).len() == (if h.len() >= MAX_SIZE {
            h.len() as int
        } else {
            h.len() as int + 1
        }),
{
    if h.len() < MAX_SIZE {
        lemma_sift_up_len(h.push(item), h.len() as int);
    }
}

/// Size after a remove: unchanged when empty, else one less.
pub proof fn lemma_remove_len(h: Seq<i16>)
    ensures
        remove_state(h).len() == (if h.len() == 0 {
            0int
        } else {
            h.len() as int - 1
        }),
{
    if h.len() > 0 {
        lemma_sift_down_len(pop_prep(h), 0);
    }
}

/// An insert against a full heap emits the echo followed by exactly the one
/// failure line, and leaves the elements untouched.
pub proof fn lemma_insert_full(h: Seq<i16>, item: i16)
    requires
        h.len() == MAX_SIZE,
    ensures
        insert_state(h, item) == h,
        insert_trace(h, item) == lit_insert_echo() + dec_i16(item) + seq![10u8]
            + lit_insert_failed(),
{
}

/// A remove against an empty heap emits the echo followed by exactly the one
/// failure line, and the size stays zero.
pub proof fn lemma_remove_empty(h: Seq<i16>)
    requires
        h.len() == 0,
    ensures
        remove_state(h) == h,
        remove_state(h).len() == 0,
        remove_trace(h) == lit_remove_echo() + lit_remove_failed(),
{
}

/// A successful insert keeps the min-heap property.
proof fn lemma_insert_keeps_heap(h: Seq<i16>, item: i16)
    requires
        is_min_heap(h),
    ensures
        is_min_heap(insert_state(h, item)),
{
    if h.len() < MAX_SIZE {
        let h1 = h.push(item);
        let c = h.len() as int;
        assert forall|i: int, j: int|
            #[trigger] is_child(i, j, h1.len() as int) && j != c implies h1[i] <= h1[j] by {
            assert(is_child(i, j, h.len() as int));
        }
        assert(gap_ok(h1, c));
        lemma_sift_up_heap(h1, c);
    }
}

/// A successful remove keeps the min-heap property.
proof fn lemma_remove_keeps_heap(h: Seq<i16>)
    requires
        is_min_heap(h),
    ensures
        is_min_heap(remove_state(h)),
{
    if h.len() > 0 {
        let h1 = pop_prep(h);
        assert forall|i: int, j: int|
            #[trigger] is_child(i, j, h1.len() as int) && i != 0 implies h1[i] <= h1[j] by {
            assert(is_child(i, j, h.len() as int));
            assert(h1[i] == h[i] && h1[j] == h[j]);
        }
        assert(gap_ok(h1, 0));
        lemma_sift_down_heap(h1, 0);
    }
}

// ---------------------------------------------------------------------------
// The heap environment: fixed-capacity storage plus the trace buffer.
// ---------------------------------------------------------------------------

/// The reference heap: `arr[0..size]` holds the elements in array order, and
/// `wr` accumulates every byte of the trace the operations emit.
pub struct HeapEnv {
    pub arr: Vec<i16>,
    pub size: usize,
    pub wr: Vec<u8>,
}

impl HeapEnv {
    /// The storage always spans the full capacity, of which `size` slots are live.
    pub open spec fn wf(self) -> bool {
        self.arr@.len() == MAX_SIZE && self.size <= MAX_SIZE
    }

    /// The live elements, in array order.
    pub open spec fn heap(self) -> Seq<i16> {
        self.arr@.take(self.size as int)
    }

    /// A fresh, empty heap writing its trace after the bytes already in `wr`.
    pub fn new(wr: Vec<u8>) -> (r: HeapEnv)
        ensures
            r.wf(),
            r.size == 0,
            r.heap() == Seq::<i16>::empty(),
            r.wr == wr,
            forall|k: int| 0 <= k < MAX_SIZE ==> r.arr@[k] == 0i16,
    {
        let mut arr: Vec<i16> = Vec::new();
        let mut i: usize = 0;
        while i < MAX_SIZE
            invariant
                arr@.len() == i,
                i <= MAX_SIZE,
                forall|k: int| 0 <= k < i ==> arr@[k] == 0i16,
            decreases MAX_SIZE - i,
        {
            arr.push(0);
            i = i + 1;
        }
        let r = HeapEnv { arr, size: 0, wr };
        proof {
            assert(r.heap() =~= Seq::<i16>::empty());
        }
        r
    }

    /// Emits one full listing line of the current elements.
    pub fn list(&mut self)
        requires
            old(self).wf(),
        ensures
            final(self).wf(),
            final(self).arr@ == old(self).arr@,
            final(self).size == old(self).size,
            final(self).wr@ == old(self).wr@ + list_line(old(self).heap()),
    {
        let ghost wr0 = self.wr@;
        let ghost epart: Seq<u8> = if self.size == 0 {
            lit_empty()
        } else {
            Seq::<u8>::empty()
        };
        push_heap_prefix(&mut self.wr);
        if self.size == 0 {
            push_empty(&mut self.wr);
        }
        let mut idx: usize = 0;
        while idx < self.size
            invariant
                self.wf(),
                self.arr@ == old(self).arr@,
                self.size == old(self).size,
                idx <= self.size,
                epart == if self.size == 0 { lit_empty() } else { Seq::<u8>::empty() },
                self.wr@ == wr0 + lit_heap_prefix() + epart + elems_bytes(
                    self.heap().take(idx as int),
                ),
            decreases self.size - idx,
        {
            let ghost pre = self.wr@;
            let v = self.arr[idx];
            push_i16_dec(&mut self.wr, v);
            self.wr.push(32);
            proof {
                let hp = self.heap();
                assert(hp.take(idx + 1).drop_last() =~= hp.take(idx as int));
                assert(hp.take(idx + 1).last() == hp[idx as int]);
                assert(elems_bytes(hp.take(idx + 1)) == elems_bytes(hp.take(idx as int))
                    + dec_i16(hp[idx as int]) + seq![32u8]);
                assert(hp[idx as int] == v);
                assert(self.wr@ =~= wr0 + lit_heap_prefix() + epart + elems_bytes(
                    hp.take(idx + 1),
                ));
            }
            idx = idx + 1;
        }
        self.wr.push(10);
        proof {
            assert(self.heap().take(self.size as int) =~= self.heap());
            assert(self.wr@ =~= wr0 + list_line(old(self).heap()));
        }
    }

    /// Echoes the invocation, then appends `item` and sifts it toward the
    /// root, listing the elements after the append and after every swap; a
    /// full heap only reports the failure. A heap stays a heap.
    pub fn insert(&mut self, item: i16)
        requires
            old(self).wf(),
        ensures
            final(self).wf(),
            final(self).heap() == insert_state(old(self).heap(), item),
            final(self).wr@ == old(self).wr@ + insert_trace(old(self).heap(), item),
            final(self).size == insert_state(old(self).heap(), item).len(),
            is_min_heap(old(self).heap()) ==> is_min_heap(final(self).heap()),
    {
        let ghost h0 = self.heap();
        let ghost wr0 = self.wr@;
        push_insert_echo(&mut self.wr);
        push_i16_dec(&mut self.wr, item);
        self.wr.push(10);
        if self.size == MAX_SIZE {
            push_insert_failed(&mut self.wr);
            proof {
                assert(self.wr@ =~= wr0 + insert_trace(h0, item));
            }
            return;
        }
        self.arr.set(self.size, item);
        self.size = self.size + 1;
        let ghost h1 = h0.push(item);
        proof {
            assert(self.heap() =~= h1);
        }
        let mut curr: usize = self.size - 1;
        self.list();
        proof {
            assert(self.wr@ =~= wr0 + lit_insert_echo() + dec_i16(item) + seq![10u8]
                + list_line(h1));
        }
        while curr != 0 && self.arr[curr] < self.arr[(curr - 1) / 2]
            invariant
                self.wf(),
                self.size == h1.len(),
                curr < self.size,
                h0.len() < MAX_SIZE,
                h1 == h0.push(item),
                sift_up_state(self.heap(), curr as int) == sift_up_state(h1, h0.len() as int),
                wr0 + insert_trace(h0, item) == self.wr@ + sift_up_trace(
                    self.heap(),
                    curr as int,
                ),
            decreases curr,
        {
            let next = (curr - 1) / 2;
            let ghost c = curr as int;
            let ghost hcur = self.heap();
            let ghost wr_pre = self.wr@;
            proof {
                assert(up_parent(c) == next as int);
                assert(sift_up_now(hcur, c));
            }
            let a = self.arr[curr];
            let b = self.arr[next];
            self.arr.set(curr, b);
            self.arr.set(next, a);
            proof {
                assert(self.heap() =~= swap_seq(hcur, next as int, c));
            }
            let ghost h2 = swap_seq(hcur, next as int, c);
            curr = next;
            self.list();
            proof {
                assert(sift_up_state(hcur, c) == sift_up_state(h2, next as int));
                assert(sift_up_trace(hcur, c) == list_line(h2) + sift_up_trace(h2, next as int));
                assert(wr_pre + sift_up_trace(hcur, c) =~= self.wr@ + sift_up_trace(
                    h2,
                    next as int,
                ));
            }
        }
        proof {
            assert(!sift_up_now(self.heap(), curr as int));
            assert(sift_up_state(self.heap(), curr as int) == self.heap());
            assert(sift_up_trace(self.heap(), curr as int) == Seq::<u8>::empty());
            assert(self.heap() == insert_state(h0, item));
            assert(self.wr@ =~= self.wr@ + Seq::<u8>::empty());
            assert(self.wr@ == wr0 + insert_trace(h0, item));
            lemma_sift_up_len(h1, h0.len() as int);
            if is_min_heap(h0) {
                lemma_insert_keeps_heap(h0, item);
            }
        }
    }

    /// Echoes the invocation, then moves the last element to the root and
    /// sifts it down, listing the elements after the shrink and after every
    /// swap; an empty heap only reports the failure. A heap stays a heap.
    pub fn remove(&mut self)
        requires
            old(self).wf(),
        ensures
            final(self).wf(),
            final(self).heap() == remove_state(old(self).heap()),
            final(self).wr@ == old(self).wr@ + remove_trace(old(self).heap()),
            final(self).size == remove_state(old(self).heap()).len(),
            is_min_heap(old(self).heap()) ==> is_min_heap(final(self).heap()),
    {
        let ghost h0 = self.heap();
        let ghost wr0 = self.wr@;
        push_remove_echo(&mut self.wr);
        if self.size == 0 {
            push_remove_failed(&mut self.wr);
            proof {
                assert(self.wr@ =~= wr0 + remove_trace(h0));
            }
            return;
        }
        let last = self.arr[self.size - 1];
        self.arr.set(0, last);
        self.size = self.size - 1;
        let ghost h1 = pop_prep(h0);
        proof {
            assert(h0.last() == last);
            assert(self.heap() =~= h1);
        }
        let mut curr: usize = 0;
        self.list();
        proof {
            assert(self.wr@ =~= wr0 + lit_remove_echo() + list_line(h1));
        }
        loop
            invariant
                self.wf(),
                self.size == h1.len(),
                h0.len() > 0,
                h1 == pop_prep(h0),
                self.size > 0 ==> curr < self.size,
                self.size == 0 ==> curr == 0,
                sift_down_state(self.heap(), curr as int) == sift_down_state(h1, 0),
                wr0 + remove_trace(h0) == self.wr@ + sift_down_trace(self.heap(), curr as int),
            ensures
                self.wf(),
                self.size == h1.len(),
                self.heap() == sift_down_state(h1, 0),
                self.wr@ == wr0 + remove_trace(h0),
            decreases self.size - curr,
        {
            let next0 = 2 * curr + 1;
            if next0 >= self.size {
                proof {
                    assert(down_next(self.heap(), curr as int) >= self.heap().len());
                    assert(!sift_down_now(self.heap(), curr as int));
                    assert(self.wr@ =~= self.wr@ + Seq::<u8>::empty());
                }
                break;
            }
            let next = if next0 + 1 < self.size && self.arr[next0 + 1] < self.arr[next0] {
                next0 + 1
            } else {
                next0
            };
            let ghost c = curr as int;
            let ghost hcur = self.heap();
            let ghost wr_pre = self.wr@;
            proof {
                assert(down_next(hcur, c) == next as int);
            }
            if self.arr[next] < self.arr[curr] {
                proof {
                    assert(sift_down_now(hcur, c));
                }
                let a = self.arr[curr];
                let b = self.arr[next];
                self.arr.set(curr, b);
                self.arr.set(next, a);
                proof {
                    assert(self.heap() =~= swap_seq(hcur, c, next as int));
                }
                let ghost h2 = swap_seq(hcur, c, next as int);
                curr = next;
                self.list();
                proof {
                    assert(sift_down_state(hcur, c) == sift_down_state(h2, next as int));
                    assert(sift_down_trace(hcur, c) == list_line(h2) + sift_down_trace(
                        h2,
                        next as int,
                    ));
                    assert(wr_pre + sift_down_trace(hcur, c) =~= self.wr@ + sift_down_trace(
                        h2,
                        next as int,
                    ));
                }
            } else {
                proof {
                    assert(!sift_down_now(hcur, c));
                    assert(self.wr@ =~= self.wr@ + Seq::<u8>::empty());
                }
                break;
            }
        }
        proof {
            assert(self.heap() == remove_state(h0));
            assert(self.wr@ == wr0 + remove_trace(h0));
            lemma_sift_down_len(h1, 0);
            if is_min_heap(h0) {
                lemma_remove_keeps_heap(h0);
            }
        }
    }
}

} // verus!
