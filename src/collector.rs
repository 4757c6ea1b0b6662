use vstd::prelude::*;

use crate::job::{MatrixError, MsgOutput, OutputModel};
use crate::matrix::{Matrix, MatrixModel};

verus! {

/// The cells of a result under assembly: slot `k` holds the value written to cell `k`,
/// or nothing yet.
pub ghost struct CollectorModel {
    pub rows: nat,
    pub cols: nat,
    pub slots: Seq<Option<i64>>,
}

/// A collector for a `rows x cols` result that has received nothing.
pub open spec fn empty_collector(rows: nat, cols: nat) -> CollectorModel {
    CollectorModel { rows, cols, slots: Seq::new(rows * cols, |k: int| None::<i64>) }
}

/// Recording one reply: it must name a cell of the result that nothing has written yet.
pub open spec fn record_step(c: CollectorModel, out: OutputModel) -> Result<CollectorModel, MatrixError> {
    if out.idx >= c.slots.len() {
        Err(MatrixError::ResultOutOfRange)
    } else if c.slots[out.idx as int] is Some {
        Err(MatrixError::DuplicateResult)
    } else {
        Ok(CollectorModel { slots: c.slots.update(out.idx as int, Some(out.value)), ..c })
    }
}

/// Recording the replies `outs` one after another, stopping at the first refused one.
pub open spec fn collect_all(c: CollectorModel, outs: Seq<OutputModel>) -> Result<CollectorModel, MatrixError>
    decreases outs.len(),
{
    if outs.len() == 0 {
        Ok(c)
    } else {
        match collect_all(c, outs.drop_last()) {
            Ok(c2) => record_step(c2, outs.last()),
            Err(e) => Err(e),
        }
    }
}

/// Every cell has been written.
pub open spec fn is_complete(c: CollectorModel) -> bool {
    forall|k: int| 0 <= k < c.slots.len() ==> #[trigger] c.slots[k] is Some
}

/// The matrix that a collector holds once every cell has been written.
pub open spec fn assembled(c: CollectorModel) -> MatrixModel {
    MatrixModel {
        data: Seq::new(c.slots.len(), |k: int| c.slots[k]->Some_0),
        rows: c.rows,
        cols: c.cols,
    }
}

/// The fan-in side of a product: takes the workers' replies in whatever order they come
/// and writes each into its own cell, refusing a reply that names no cell or a cell
/// already written.
pub struct Collector {
    data: Vec<i64>,
    filled: Vec<bool>,
    row: usize,
    col: usize,
}

impl View for Collector {
    type V = CollectorModel;

    closed spec fn view(&self) -> CollectorModel {
        CollectorModel {
            rows: self.row as nat,
            cols: self.col as nat,
            slots: Seq::new(
                self.filled@.len(),
                |k: int|
                    if self.filled@[k] {
                        Some(self.data@[k])
                    } else {
                        None
                    },
            ),
        }
    }
}

impl Collector {
    /// Both buffers have one entry per cell.
    pub closed spec fn wf(&self) -> bool {
        &&& self.data@.len() == self.row * self.col
        &&& self.filled@.len() == self.row * self.col
    }

    /// A collector for a `row x col` result, with no cell written.
    pub fn new(row: usize, col: usize) -> (c: Collector)
        requires
            row * col <= usize::MAX,
        ensures
            c.wf(),
            c@ == empty_collector(row as nat, col as nat),
    {
        let n = row * col;
        let mut data: Vec<i64> = Vec::with_capacity(n);
        let mut filled: Vec<bool> = Vec::with_capacity(n);
        let mut k: usize = 0;
        while k < n
            invariant
                k <= n,
                data@.len() == k,
                filled@.len() == k,
                forall|t: int| 0 <= t < k ==> !#[trigger] filled@[t],
            decreases n - k,
        {
            data.push(0);
            filled.push(false);
            k = k + 1;
        }
        let c = Collector { data, filled, row, col };
        assert(c@.slots =~= empty_collector(row as nat, col as nat).slots);
        c
    }

    /// Writes one reply into its cell.
    pub fn record(&mut self, out: MsgOutput) -> (r: Result<(), MatrixError>)
        requires
            old(self).wf(),
        ensures
            final(self).wf(),
            match record_step(old(self)@, out@) {
                Ok(next) => r == Ok::<(), MatrixError>(()) && final(self)@ == next,
                Err(e) => r == Err::<(), MatrixError>(e) && final(self)@ == old(self)@,
            },
    {
        let idx = out.idx();
        if idx >= self.filled.len() {
            return Err(MatrixError::ResultOutOfRange);
        }
        if self.filled[idx] {
            return Err(MatrixError::DuplicateResult);
        }
        let ghost before = self@;
        self.data.set(idx, out.value());
        self.filled.set(idx, true);
        assert(self@.slots =~= before.slots.update(idx as int, Some(out@.value)));
        Ok(())
    }

    /// Hands back the assembled matrix, or `MissingResult` while some cell is unwritten.
    pub fn finish(self) -> (r: Result<Matrix, MatrixError>)
        requires
            self.wf(),
        ensures
            is_complete(self@) ==> r is Ok && r->Ok_0@ == assembled(self@),
            !is_complete(self@) ==> r == Err::<Matrix, MatrixError>(MatrixError::MissingResult),
    {
        let n = self.filled.len();
        let mut k: usize = 0;
        while k < n
            invariant
                k <= n,
                n == self.filled@.len(),
                forall|t: int| 0 <= t < k ==> #[trigger] self.filled@[t],
            decreases n - k,
        {
            if !self.filled[k] {
                assert(self@.slots[k as int] is None);
                return Err(MatrixError::MissingResult);
            }
            k = k + 1;
        }
        let m = Matrix::new(self.data, self.row, self.col);
        assert(m@.data =~= assembled(self@).data);
        Ok(m)
    }
}

/// The replies `outs` name cells below `n`, no cell twice.
pub open spec fn replies_fit(outs: Seq<OutputModel>, n: nat) -> bool {
    &&& forall|p: int| 0 <= p < outs.len() ==> #[trigger] outs[p].idx < n
    &&& forall|p: int, q: int|
        0 <= p < outs.len() && 0 <= q < outs.len() && p != q ==> #[trigger] outs[p].idx
            != #[trigger] outs[q].idx
}

/// The value of the last reply among `outs` that names cell `k`, if any does.
pub open spec fn reply_for(outs: Seq<OutputModel>, k: nat) -> Option<i64>
    decreases outs.len(),
{
    if outs.len() == 0 {
        None
    } else if outs.last().idx == k {
        Some(outs.last().value)
    } else {
        reply_for(outs.drop_last(), k)
    }
}

/// `order` lists each position below `len` exactly once.
pub open spec fn is_arrangement(order: Seq<int>, len: nat) -> bool {
    &&& order.len() == len
    &&& forall|q: int| 0 <= q < len ==> 0 <= #[trigger] order[q] < len
    &&& forall|q1: int, q2: int|
        0 <= q1 < len && 0 <= q2 < len && q1 != q2 ==> #[trigger] order[q1] != #[trigger] order[q2]
    &&& forall|p: int| 0 <= p < len ==> #[trigger] lists(order, p)
}

/// Position `p` occurs in `order`.
pub open spec fn lists(order: Seq<int>, p: int) -> bool {
    exists|q: int| 0 <= q < order.len() && #[trigger] order[q] == p
}

/// `outs` taken in the order that `order` gives.
pub open spec fn rearranged(outs: Seq<OutputModel>, order: Seq<int>) -> Seq<OutputModel> {
    Seq::new(outs.len(), |q: int| outs[order[q]])
}

proof fn lemma_reply_for_found(outs: Seq<OutputModel>, k: nat)
    ensures
        reply_for(outs, k) is Some <==> exists|p: int| 0 <= p < outs.len() && #[trigger] outs[p].idx == k,
    decreases outs.len(),
{
    if outs.len() > 0 {
        let pre = outs.drop_last();
        lemma_reply_for_found(pre, k);
        if reply_for(pre, k) is Some {
            let p = choose|p: int| 0 <= p < pre.len() && #[trigger] pre[p].idx == k;
            assert(outs[p].idx == k);
        }
        if exists|p: int| 0 <= p < outs.len() && #[trigger] outs[p].idx == k {
            let p = choose|p: int| 0 <= p < outs.len() && #[trigger] outs[p].idx == k;
            if p < outs.len() - 1 {
                assert(pre[p].idx == k);
            }
        }
    }
}

/// Where no cell is named twice, the reply for a cell is the one reply that names it.
pub(crate) proof fn lemma_reply_for_unique(outs: Seq<OutputModel>, n: nat, p: int)
    requires
        replies_fit(outs, n),
        0 <= p < outs.len(),
    ensures
        reply_for(outs, outs[p].idx) == Some(outs[p].value),
    decreases outs.len(),
{
    if p < outs.len() - 1 {
        let pre = outs.drop_last();
        assert(outs.last().idx != outs[p].idx);
        assert(replies_fit(pre, n)) by {
            assert forall|a: int, b: int|
                0 <= a < pre.len() && 0 <= b < pre.len() && a != b implies #[trigger] pre[a].idx
                != #[trigger] pre[b].idx by {
                assert(outs[a].idx != outs[b].idx);
            }
        }
        assert(pre[p] == outs[p]);
        lemma_reply_for_unique(pre, n, p);
    }
}

/// Recording `outs` from an empty collector succeeds exactly when they name cells of the
/// result, no cell twice; cell `k` then holds the reply for `k`.
pub proof fn lemma_collect_all_characterized(rows: nat, cols: nat, outs: Seq<OutputModel>)
    ensures
        replies_fit(outs, rows * cols) ==> collect_all(empty_collector(rows, cols), outs) == Ok::<
            CollectorModel,
            MatrixError,
        >(
            CollectorModel {
                rows,
                cols,
                slots: Seq::new(rows * cols, |k: int| reply_for(outs, k as nat)),
            },
        ),
        !replies_fit(outs, rows * cols) ==> collect_all(empty_collector(rows, cols), outs) is Err,
    decreases outs.len(),
{
    let n = rows * cols;
    let e = empty_collector(rows, cols);
    if outs.len() == 0 {
        assert(Seq::new(n, |k: int| reply_for(outs, k as nat)) =~= e.slots);
    } else {
        let pre = outs.drop_last();
        let last = outs.last();
        lemma_collect_all_characterized(rows, cols, pre);
        if !replies_fit(pre, n) {
            assert(!replies_fit(outs, n)) by {
                if replies_fit(outs, n) {
                    assert forall|a: int, b: int|
                        0 <= a < pre.len() && 0 <= b < pre.len() && a != b implies #[trigger] pre[a].idx
                        != #[trigger] pre[b].idx by {
                        assert(outs[a].idx != outs[b].idx);
                    }
                    assert forall|a: int| 0 <= a < pre.len() implies #[trigger] pre[a].idx < n by {
                        assert(outs[a].idx < n);
                    }
                }
            }
        } else {
            let cm = collect_all(e, pre)->Ok_0;
            if last.idx >= n {
                assert(outs[outs.len() - 1].idx >= n);
            } else {
                lemma_reply_for_found(pre, last.idx);
                if cm.slots[last.idx as int] is Some {
                    let p = choose|p: int| 0 <= p < pre.len() && #[trigger] pre[p].idx == last.idx;
                    assert(outs[p].idx == outs[outs.len() - 1].idx);
                    assert(!replies_fit(outs, n));
                } else {
                    assert(replies_fit(outs, n)) by {
                        assert forall|a: int| 0 <= a < outs.len() implies #[trigger] outs[a].idx < n by {
                            if a < outs.len() - 1 {
                                assert(pre[a].idx < n);
                            }
                        }
                        assert forall|a: int, b: int|
                            0 <= a < outs.len() && 0 <= b < outs.len() && a != b implies #[trigger] outs[a].idx
                            != #[trigger] outs[b].idx by {
                            if a < outs.len() - 1 && b < outs.len() - 1 {
                                assert(pre[a].idx != pre[b].idx);
                            } else if a < outs.len() - 1 {
                                assert(pre[a].idx != last.idx);
                            } else {
                                assert(pre[b].idx != last.idx);
                            }
                        }
                    }
                    assert(cm.slots.update(last.idx as int, Some(last.value)) =~= Seq::new(
                        n,
                        |k: int| reply_for(outs, k as nat),
                    ));
                }
            }
        }
    }
}

/// The order in which replies are collected does not matter: replies that are recorded
/// without error in one order are recorded without error in any other, and leave every
/// cell with the same value.
pub proof fn lemma_collection_order_irrelevant(
    rows: nat,
    cols: nat,
    outs: Seq<OutputModel>,
    order: Seq<int>,
)
    requires
        is_arrangement(order, outs.len()),
        collect_all(empty_collector(rows, cols), outs) is Ok,
    ensures
        collect_all(empty_collector(rows, cols), rearranged(outs, order)) == collect_all(
            empty_collector(rows, cols),
            outs,
        ),
{
    let n = rows * cols;
    let other = rearranged(outs, order);
    lemma_collect_all_characterized(rows, cols, outs);
    assert(replies_fit(other, n)) by {
        assert forall|a: int| 0 <= a < other.len() implies #[trigger] other[a].idx < n by {
            assert(outs[order[a]].idx < n);
        }
        assert forall|a: int, b: int|
            0 <= a < other.len() && 0 <= b < other.len() && a != b implies #[trigger] other[a].idx
            != #[trigger] other[b].idx by {
            assert(order[a] != order[b]);
            assert(outs[order[a]].idx != outs[order[b]].idx);
        }
    }
    lemma_collect_all_characterized(rows, cols, other);
    assert forall|k: int| 0 <= k < n implies #[trigger] reply_for(other, k as nat) == reply_for(outs, k as nat) by {
        lemma_reply_for_found(outs, k as nat);
        lemma_reply_for_found(other, k as nat);
        if exists|p: int| 0 <= p < outs.len() && #[trigger] outs[p].idx == k {
            let p = choose|p: int| 0 <= p < outs.len() && #[trigger] outs[p].idx == k;
            assert(lists(order, p));
            let q = choose|q: int| 0 <= q < order.len() && #[trigger] order[q] == p;
            lemma_reply_for_unique(outs, n, p);
            assert(other[q] == outs[p]);
            lemma_reply_for_unique(other, n, q);
        } else {
            assert forall|q: int| 0 <= q < other.len() implies #[trigger] other[q].idx != k by {
                assert(outs[order[q]].idx != k);
            }
        }
    }
    assert(Seq::new(n, |k: int| reply_for(other, k as nat)) =~= Seq::new(
        n,
        |k: int| reply_for(outs, k as nat),
    ));
}

} // verus!
