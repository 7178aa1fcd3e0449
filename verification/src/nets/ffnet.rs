//! The feed-forward network trainer.
//!
//! An [`FFNet`] owns an ordered stack of layers whose widths chain, one
//! zeroed gradient accumulator per layer, a held-out test set and a worker
//! count.  Mini-batch gradient accumulation is specified by [`spec_acc`]:
//! the accumulated gradient of a batch is a fold over its samples, so it
//! does not depend on how the batch is split into worker chunks — see
//! [`lemma_acc_concat`].

use vstd::prelude::*;
use crate::matrix::{MatError, MatView, Matrix};
use crate::nets::layer::{Layer, LayerView};
use crate::nets::{AFunc, Activation, Number, OutFunc, Output};
use crate::numeric::wrap;

verus! {

/// The columns flowing forward: `spec_h(ls, x, 0)` is the input itself and
/// `spec_h(ls, x, i + 1)` is what layer `i` makes of `spec_h(ls, x, i)`.
pub open spec fn spec_h(ls: Seq<Layer<AFunc>>, x: MatView, i: nat) -> MatView
    decreases i,
{
    if i == 0 {
        x
    } else {
        ls[i - 1].prop_spec(spec_h(ls, x, (i - 1) as nat))
    }
}

/// The gradients flowing backward: `spec_g(ls, out, x, y, ls.len())` is the
/// output function's loss derivative, and `spec_g(.., i)` is layer `i`'s
/// upstream gradient, handed to layer `i - 1`.
pub open spec fn spec_g(ls: Seq<Layer<AFunc>>, out: OutFunc, x: MatView, y: MatView, i: nat) -> MatView
    decreases ls.len() - i,
{
    if i >= ls.len() {
        out.spec_df(out.spec_f(spec_h(ls, x, ls.len())), y)
    } else {
        ls[i as int].upstream_spec(spec_g(ls, out, x, y, (i + 1) as nat), spec_h(ls, x, i))
    }
}

/// The weight gradient one sample contributes to layer `i`.
pub open spec fn sample_dw(
    ls: Seq<Layer<AFunc>>,
    out: OutFunc,
    x: MatView,
    y: MatView,
    i: int,
) -> MatView {
    ls[i].dw_spec(spec_g(ls, out, x, y, (i + 1) as nat), spec_h(ls, x, i as nat), 0)
}

/// The bias gradient one sample contributes to layer `i`.
pub open spec fn sample_db(
    ls: Seq<Layer<AFunc>>,
    out: OutFunc,
    x: MatView,
    y: MatView,
    i: int,
) -> MatView {
    spec_g(ls, out, x, y, (i + 1) as nat)
}

/// One sample's gradient contributions for layer `i`, added into `prev`.
pub open spec fn acc_one(
    ls: Seq<Layer<AFunc>>,
    out: OutFunc,
    prev: LayerView,
    x: MatView,
    y: MatView,
    i: int,
) -> LayerView {
    LayerView {
        w: prev.w.madd(sample_dw(ls, out, x, y, i)),
        b: prev.b.madd(sample_db(ls, out, x, y, i)),
    }
}

/// Layer `i`'s accumulator after the first `k` samples of `batch` have
/// been added into `start`.
pub open spec fn spec_acc(
    ls: Seq<Layer<AFunc>>,
    out: OutFunc,
    start: LayerView,
    batch: Seq<(MatView, MatView)>,
    i: int,
    k: nat,
) -> LayerView
    decreases k,
{
    if k == 0 {
        start
    } else {
        acc_one(
            ls,
            out,
            spec_acc(ls, out, start, batch, i, (k - 1) as nat),
            batch[k - 1].0,
            batch[k - 1].1,
            i,
        )
    }
}

/// The views of a sequence of sample pairs.
pub open spec fn pair_views(s: Seq<(Matrix, Matrix)>) -> Seq<(MatView, MatView)> {
    Seq::new(s.len(), |i: int| (s[i].0@, s[i].1@))
}

/// Every pair is a well-formed input column and label column of the
/// network's outer widths.
pub open spec fn batch_ok(ls: Seq<Layer<AFunc>>, batch: Seq<(Matrix, Matrix)>) -> bool {
    &&& forall|i: int| 0 <= i < batch.len() ==> (#[trigger] batch[i]).0.wf()
    &&& forall|i: int| 0 <= i < batch.len() ==> (#[trigger] batch[i]).1.wf()
    &&& forall|i: int| 0 <= i < batch.len() ==> (#[trigger] batch[i]).0@.rows == ls[0].in_dim()
    &&& forall|i: int| 0 <= i < batch.len() ==> (#[trigger] batch[i]).0@.cols == 1
    &&& forall|i: int| 0 <= i < batch.len() ==> (#[trigger] batch[i]).1@.rows == ls[ls.len()
        - 1].out_dim()
    &&& forall|i: int| 0 <= i < batch.len() ==> (#[trigger] batch[i]).1@.cols == 1
}

/// Accumulating a batch split into two chunks, one after the other, gives
/// the same result as accumulating the whole batch: the accumulated
/// gradient does not depend on how samples are divided among workers.
pub proof fn lemma_acc_concat(
    ls: Seq<Layer<AFunc>>,
    out: OutFunc,
    start: LayerView,
    b1: Seq<(MatView, MatView)>,
    b2: Seq<(MatView, MatView)>,
    i: int,
)
    ensures
        spec_acc(ls, out, start, b1 + b2, i, (b1 + b2).len()) == spec_acc(
            ls,
            out,
            spec_acc(ls, out, start, b1, i, b1.len()),
            b2,
            i,
            b2.len(),
        ),
    decreases b2.len(),
{
    if b2.len() == 0 {
        assert(b1 + b2 =~= b1);
    } else {
        let b2p = b2.drop_last();
        let s1 = spec_acc(ls, out, start, b1, i, b1.len());
        let whole = b1 + b2;
        let k = whole.len();
        lemma_acc_concat(ls, out, start, b1, b2p, i);
        assert(b1 + b2p =~= whole.take(k - 1));
        assert(forall|q: int| 0 <= q < k - 1 ==> (b1 + b2p)[q] == #[trigger] whole[q]);
        lemma_acc_agree(ls, out, start, whole, b1 + b2p, i, (k - 1) as nat);
        lemma_acc_agree(ls, out, s1, b2, b2p, i, (b2.len() - 1) as nat);
        assert(spec_acc(ls, out, start, whole, i, (k - 1) as nat) == spec_acc(
            ls,
            out,
            s1,
            b2,
            i,
            (b2.len() - 1) as nat,
        ));
        assert(whole[k - 1] == b2[b2.len() - 1]);
        assert(spec_acc(ls, out, start, whole, i, k) == (LayerView {
            w: spec_acc(ls, out, start, whole, i, (k - 1) as nat).w.madd(
                sample_dw(ls, out, whole[k - 1].0, whole[k - 1].1, i),
            ),
            b: spec_acc(ls, out, start, whole, i, (k - 1) as nat).b.madd(
                sample_db(ls, out, whole[k - 1].0, whole[k - 1].1, i),
            ),
        }));
        assert(spec_acc(ls, out, s1, b2, i, b2.len()) == (LayerView {
            w: spec_acc(ls, out, s1, b2, i, (b2.len() - 1) as nat).w.madd(
                sample_dw(ls, out, b2[b2.len() - 1].0, b2[b2.len() - 1].1, i),
            ),
            b: spec_acc(ls, out, s1, b2, i, (b2.len() - 1) as nat).b.madd(
                sample_db(ls, out, b2[b2.len() - 1].0, b2[b2.len() - 1].1, i),
            ),
        }));
    }
}

/// Accumulation keeps the dimensions and element count of its start.
proof fn lemma_acc_keeps_shape(
    ls: Seq<Layer<AFunc>>,
    out: OutFunc,
    start: LayerView,
    batch: Seq<(MatView, MatView)>,
    i: int,
    k: nat,
)
    ensures
        spec_acc(ls, out, start, batch, i, k).w.rows == start.w.rows,
        spec_acc(ls, out, start, batch, i, k).w.cols == start.w.cols,
        spec_acc(ls, out, start, batch, i, k).w.s.len() == start.w.s.len(),
        spec_acc(ls, out, start, batch, i, k).b.rows == start.b.rows,
        spec_acc(ls, out, start, batch, i, k).b.cols == start.b.cols,
        spec_acc(ls, out, start, batch, i, k).b.s.len() == start.b.s.len(),
    decreases k,
{
    if k > 0 {
        lemma_acc_keeps_shape(ls, out, start, batch, i, (k - 1) as nat);
    }
}

/// Accumulating into `start` is `start` plus the accumulation from zero.
proof fn lemma_acc_from_zero(
    ls: Seq<Layer<AFunc>>,
    out: OutFunc,
    start: LayerView,
    z: LayerView,
    batch: Seq<(MatView, MatView)>,
    i: int,
    k: nat,
)
    requires
        z.w.s.len() == start.w.s.len(),
        z.b.s.len() == start.b.s.len(),
        forall|t: int| 0 <= t < z.w.s.len() ==> #[trigger] z.w.s[t] == 0,
        forall|t: int| 0 <= t < z.b.s.len() ==> #[trigger] z.b.s[t] == 0,
    ensures
        spec_acc(ls, out, start, batch, i, k).w =~= start.w.madd(
            spec_acc(ls, out, z, batch, i, k).w,
        ),
        spec_acc(ls, out, start, batch, i, k).b =~= start.b.madd(
            spec_acc(ls, out, z, batch, i, k).b,
        ),
    decreases k,
{
    lemma_acc_keeps_shape(ls, out, start, batch, i, k);
    lemma_acc_keeps_shape(ls, out, z, batch, i, k);
    if k == 0 {
        assert forall|t: int| 0 <= t < start.w.s.len() implies start.w.madd(z.w).s[t]
            == start.w.s[t] by {
            crate::numeric::lemma_wrap_id(start.w.s[t] as int);
        }
        assert forall|t: int| 0 <= t < start.b.s.len() implies start.b.madd(z.b).s[t]
            == start.b.s[t] by {
            crate::numeric::lemma_wrap_id(start.b.s[t] as int);
        }
    } else {
        let k1 = (k - 1) as nat;
        lemma_acc_from_zero(ls, out, start, z, batch, i, k1);
        lemma_acc_keeps_shape(ls, out, start, batch, i, k1);
        lemma_acc_keeps_shape(ls, out, z, batch, i, k1);
        let sw = spec_acc(ls, out, start, batch, i, k1).w;
        let sb = spec_acc(ls, out, start, batch, i, k1).b;
        let zw = spec_acc(ls, out, z, batch, i, k1).w;
        let zb = spec_acc(ls, out, z, batch, i, k1).b;
        let dw = sample_dw(ls, out, batch[k - 1].0, batch[k - 1].1, i);
        let db = sample_db(ls, out, batch[k - 1].0, batch[k - 1].1, i);
        assert forall|t: int| 0 <= t < start.w.s.len() implies sw.madd(dw).s[t] == start.w.madd(
            zw.madd(dw),
        ).s[t] by {
            assert(sw.s[t] == wrap(start.w.s[t] + zw.s[t]));
            crate::numeric::lemma_wrap_id(dw.s[t] as int);
            crate::numeric::lemma_wrap_add(start.w.s[t] + zw.s[t], dw.s[t] as int);
            crate::numeric::lemma_wrap_id(start.w.s[t] as int);
            crate::numeric::lemma_wrap_add(start.w.s[t] as int, zw.s[t] + dw.s[t]);
        }
        assert(sw.madd(dw) =~= start.w.madd(zw.madd(dw)));
        assert forall|t: int| 0 <= t < start.b.s.len() implies sb.madd(db).s[t] == start.b.madd(
            zb.madd(db),
        ).s[t] by {
            assert(sb.s[t] == wrap(start.b.s[t] + zb.s[t]));
            crate::numeric::lemma_wrap_id(db.s[t] as int);
            crate::numeric::lemma_wrap_add(start.b.s[t] + zb.s[t], db.s[t] as int);
            crate::numeric::lemma_wrap_id(start.b.s[t] as int);
            crate::numeric::lemma_wrap_add(start.b.s[t] as int, zb.s[t] + db.s[t]);
        }
        assert(sb.madd(db) =~= start.b.madd(zb.madd(db)));
    }
}

/// Two workers' partial accumulators, each started from zero, merge by
/// element-wise addition into exactly the accumulator of the whole batch:
/// fanning a batch out over workers loses nothing.
pub proof fn lemma_workers_merge(
    ls: Seq<Layer<AFunc>>,
    out: OutFunc,
    z: LayerView,
    b1: Seq<(MatView, MatView)>,
    b2: Seq<(MatView, MatView)>,
    i: int,
)
    requires
        forall|t: int| 0 <= t < z.w.s.len() ==> #[trigger] z.w.s[t] == 0,
        forall|t: int| 0 <= t < z.b.s.len() ==> #[trigger] z.b.s[t] == 0,
    ensures
        spec_acc(ls, out, z, b1 + b2, i, (b1 + b2).len()).w =~= spec_acc(
            ls,
            out,
            z,
            b1,
            i,
            b1.len(),
        ).w.madd(spec_acc(ls, out, z, b2, i, b2.len()).w),
        spec_acc(ls, out, z, b1 + b2, i, (b1 + b2).len()).b =~= spec_acc(
            ls,
            out,
            z,
            b1,
            i,
            b1.len(),
        ).b.madd(spec_acc(ls, out, z, b2, i, b2.len()).b),
{
    lemma_acc_concat(ls, out, z, b1, b2, i);
    let s1 = spec_acc(ls, out, z, b1, i, b1.len());
    lemma_acc_keeps_shape(ls, out, z, b1, i, b1.len());
    lemma_acc_from_zero(ls, out, s1, z, b2, i, b2.len());
}

/// Accumulation looks only at the first `k` samples: two batches that
/// agree on their first `k` entries accumulate alike.
pub proof fn lemma_acc_agree(
    ls: Seq<Layer<AFunc>>,
    out: OutFunc,
    start: LayerView,
    b1: Seq<(MatView, MatView)>,
    b2: Seq<(MatView, MatView)>,
    i: int,
    k: nat,
)
    requires
        k <= b1.len(),
        k <= b2.len(),
        forall|q: int| 0 <= q < k ==> b1[q] == b2[q],
    ensures
        spec_acc(ls, out, start, b1, i, k) == spec_acc(ls, out, start, b2, i, k),
    decreases k,
{
    if k > 0 {
        lemma_acc_agree(ls, out, start, b1, b2, i, (k - 1) as nat);
    }
}

/// The index of the first occurrence of the maximum among the first `k`
/// elements: a later element replaces the running best only on strict `>`.
pub open spec fn spec_argmax_to(s: Seq<i64>, k: nat) -> int
    decreases k,
{
    if k <= 1 {
        0
    } else {
        let b = spec_argmax_to(s, (k - 1) as nat);
        if s[k - 1] > s[b] {
            k - 1
        } else {
            b
        }
    }
}

/// The index of the first occurrence of the maximum: ties go to the
/// leftmost element.
pub open spec fn spec_argmax(s: Seq<i64>) -> int {
    spec_argmax_to(s, s.len())
}

/// First max wins: everything is at most the maximum, and everything
/// strictly before the returned index is strictly below it.
pub proof fn lemma_argmax_first(s: Seq<i64>)
    requires
        s.len() >= 1,
    ensures
        0 <= spec_argmax(s) < s.len(),
        forall|j: int| 0 <= j < s.len() ==> #[trigger] s[j] <= s[spec_argmax(s)],
        forall|j: int| 0 <= j < spec_argmax(s) ==> #[trigger] s[j] < s[spec_argmax(s)],
{
    lemma_argmax_to_first(s, s.len());
}

proof fn lemma_argmax_to_first(s: Seq<i64>, k: nat)
    requires
        1 <= k <= s.len(),
    ensures
        0 <= spec_argmax_to(s, k) < k,
        forall|j: int| 0 <= j < k ==> #[trigger] s[j] <= s[spec_argmax_to(s, k)],
        forall|j: int| 0 <= j < spec_argmax_to(s, k) ==> #[trigger] s[j] < s[spec_argmax_to(s, k)],
    decreases k,
{
    if k > 1 {
        lemma_argmax_to_first(s, (k - 1) as nat);
    }
}

/// The index of the first maximal element of a column; fails nowhere
/// because the matrix is required to be non-empty.
pub fn argmax(x: &Matrix) -> (r: usize)
    requires
        x@.s.len() >= 1,
    ensures
        r == spec_argmax(x@.s),
        r < x@.s.len(),
{
    let d = x.data();
    let n = d.len();
    let mut gi: usize = 0;
    let mut max = d[0];
    for i in 1..n
        invariant
            n == x@.s.len(),
            1 <= n,
            gi == spec_argmax_to(x@.s, i as nat),
            0 <= gi < i,
            max == x@.s[gi as int],
            d@ == x@.s,
    {
        if d[i] > max {
            gi = i;
            max = d[i];
        }
    }
    proof {
        lemma_argmax_to_first(x@.s, x@.s.len());
    }
    gi
}

/// The layer stack is non-empty, each layer is well-formed with at least
/// one input and output, and consecutive widths chain.
pub open spec fn layers_ok(ls: Seq<Layer<AFunc>>) -> bool {
    &&& ls.len() >= 1
    &&& forall|i: int| 0 <= i < ls.len() ==> (#[trigger] ls[i]).wf()
    &&& forall|i: int| 0 <= i < ls.len() ==> (#[trigger] ls[i]).in_dim() >= 1
    &&& forall|i: int| 0 <= i < ls.len() ==> (#[trigger] ls[i]).out_dim() >= 1
    &&& forall|i: int| 0 < i < ls.len() ==> (#[trigger] ls[i]).in_dim() == ls[i - 1].out_dim()
}

/// Every accumulator is well-formed and shaped like its layer.
pub open spec fn buf_matches(ls: Seq<Layer<AFunc>>, bs: Seq<Layer<AFunc>>) -> bool {
    &&& bs.len() == ls.len()
    &&& forall|i: int| 0 <= i < bs.len() ==> (#[trigger] bs[i]).wf()
    &&& forall|i: int| 0 <= i < bs.len() ==> (#[trigger] bs[i])@.w.same_shape(ls[i]@.w)
    &&& forall|i: int| 0 <= i < bs.len() ==> (#[trigger] bs[i])@.b.same_shape(ls[i]@.b)
}

/// Every test pair is a well-formed input column and label column of the
/// network's outer widths.
pub open spec fn tset_ok(ls: Seq<Layer<AFunc>>, ts: Seq<(Matrix, Matrix)>) -> bool {
    &&& forall|i: int| 0 <= i < ts.len() ==> (#[trigger] ts[i]).0.wf()
    &&& forall|i: int| 0 <= i < ts.len() ==> (#[trigger] ts[i]).1.wf()
    &&& forall|i: int| 0 <= i < ts.len() ==> (#[trigger] ts[i]).0@.rows == ls[0].in_dim()
    &&& forall|i: int| 0 <= i < ts.len() ==> (#[trigger] ts[i]).0@.cols == 1
    &&& forall|i: int| 0 <= i < ts.len() ==> (#[trigger] ts[i]).1@.rows == ls[ls.len() - 1].out_dim()
    &&& forall|i: int| 0 <= i < ts.len() ==> (#[trigger] ts[i]).1@.cols == 1
}

/// The whole-percentage classification accuracy of a layer stack on a
/// test set; an empty set scores zero.
pub open spec fn test_pct(ls: Seq<Layer<AFunc>>, out: OutFunc, ts: Seq<(Matrix, Matrix)>) -> int {
    if ts.len() == 0 {
        0
    } else {
        100 * net_correct(ls, out, ts, ts.len()) / (ts.len() as int)
    }
}

/// How many of the first `k` test pairs the network classifies correctly:
/// prediction and label decode to the same argmax.
pub open spec fn net_correct(
    ls: Seq<Layer<AFunc>>,
    out: OutFunc,
    ts: Seq<(Matrix, Matrix)>,
    k: nat,
) -> int
    decreases k,
{
    if k == 0 {
        0
    } else {
        net_correct(ls, out, ts, (k - 1) as nat) + if spec_argmax(
            out.spec_f(spec_h(ls, ts[k - 1].0@, ls.len())).s,
        ) == spec_argmax(ts[k - 1].1@.s) {
            1int
        } else {
            0int
        }
    }
}

/// A feed-forward network: a stack of layers, one gradient accumulator
/// per layer, a held-out test set and a worker count.
pub struct FFNet {
    pub layers: Vec<Layer<AFunc>>,
    l: usize,
    test_set: Vec<(Matrix, Matrix)>,
    grad_buf: Vec<Layer<AFunc>>,
    num_threads: usize,
    output: OutFunc,
}

impl FFNet {
    /// The layer stack.
    pub closed spec fn layers_seq(&self) -> Seq<Layer<AFunc>> {
        self.layers@
    }

    /// The per-layer gradient accumulators.
    pub closed spec fn gbuf_seq(&self) -> Seq<Layer<AFunc>> {
        self.grad_buf@
    }

    /// The held-out test set.
    pub closed spec fn tset_seq(&self) -> Seq<(Matrix, Matrix)> {
        self.test_set@
    }

    /// The configured worker count.
    pub closed spec fn workers(&self) -> nat {
        self.num_threads as nat
    }

    /// The cached layer count.
    pub closed spec fn depth(&self) -> nat {
        self.l as nat
    }

    /// The output function.
    pub closed spec fn out_fn(&self) -> OutFunc {
        self.output
    }

    /// The width of the input the network consumes.
    pub open spec fn in_dim(&self) -> nat {
        self.layers_seq()[0].in_dim()
    }

    /// The width of the column the network produces.
    pub open spec fn out_dim(&self) -> nat {
        self.layers_seq()[self.layers_seq().len() - 1].out_dim()
    }

    /// The construction-time invariant of the network.
    pub open spec fn wf(&self) -> bool {
        &&& layers_ok(self.layers_seq())
        &&& buf_matches(self.layers_seq(), self.gbuf_seq())
        &&& tset_ok(self.layers_seq(), self.tset_seq())
        &&& self.depth() == self.layers_seq().len()
        &&& self.workers() >= 1
    }

    /// Assembles a network, validating that the layer widths chain, that
    /// the test pairs fit the outer widths, and that there is at least one
    /// layer and one worker; any violation is a `ShapeMismatch`.
    pub fn new(layers: Vec<Layer<AFunc>>, test_set: Vec<(Matrix, Matrix)>, num_threads: usize) -> (r:
        Result<FFNet, MatError>)
        ensures
            r matches Ok(net) ==> net.wf() && net.layers_seq() == layers@ && net.tset_seq()
                == test_set@ && net.workers() == num_threads,
            r matches Ok(net) ==> forall|i: int|
                0 <= i < net.gbuf_seq().len() ==> (forall|t: int|
                    0 <= t < (#[trigger] net.gbuf_seq()[i])@.w.s.len()
                        ==> net.gbuf_seq()[i]@.w.s[t] == 0) && (forall|t: int|
                    0 <= t < net.gbuf_seq()[i]@.b.s.len() ==> net.gbuf_seq()[i]@.b.s[t] == 0),
            r matches Err(e) ==> e == MatError::ShapeMismatch,
            r is Err ==> !(layers_ok(layers@) && tset_ok(layers@, test_set@) && num_threads >= 1),
    {
        if num_threads < 1 || layers.len() < 1 {
            return Err(MatError::ShapeMismatch);
        }
        let l = layers.len();
        for i in 0..l
            invariant
                l == layers@.len(),
                forall|q: int| 0 <= q < i ==> (#[trigger] layers@[q]).wf(),
                forall|q: int| 0 <= q < i ==> (#[trigger] layers@[q]).in_dim() >= 1,
                forall|q: int| 0 <= q < i ==> (#[trigger] layers@[q]).out_dim() >= 1,
                forall|q: int| 0 < q < i ==> (#[trigger] layers@[q]).in_dim() == layers@[q
                    - 1].out_dim(),
        {
            if !layers[i].is_wf() {
                return Err(MatError::ShapeMismatch);
            }
            let (o, d) = layers[i].wdim();
            if o < 1 || d < 1 {
                return Err(MatError::ShapeMismatch);
            }
            if i > 0 {
                let (po, _pd) = layers[i - 1].wdim();
                if d != po {
                    return Err(MatError::ShapeMismatch);
                }
            }
        }
        let in_d = layers[0].wdim().1;
        let out_d = layers[l - 1].wdim().0;
        let tl = test_set.len();
        for i in 0..tl
            invariant
                tl == test_set@.len(),
                l == layers@.len(),
                l >= 1,
                in_d == layers@[0].in_dim(),
                out_d == layers@[l - 1].out_dim(),
                forall|q: int| 0 <= q < i ==> (#[trigger] test_set@[q]).0.wf(),
                forall|q: int| 0 <= q < i ==> (#[trigger] test_set@[q]).1.wf(),
                forall|q: int| 0 <= q < i ==> (#[trigger] test_set@[q]).0@.rows == in_d,
                forall|q: int| 0 <= q < i ==> (#[trigger] test_set@[q]).0@.cols == 1,
                forall|q: int| 0 <= q < i ==> (#[trigger] test_set@[q]).1@.rows == out_d,
                forall|q: int| 0 <= q < i ==> (#[trigger] test_set@[q]).1@.cols == 1,
        {
            let p = &test_set[i];
            let (xr, xc) = p.0.dim();
            let (yr, yc) = p.1.dim();
            if !p.0.is_wf() || !p.1.is_wf() || xr != in_d || xc != 1 || yr != out_d || yc != 1 {
                return Err(MatError::ShapeMismatch);
            }
        }
        let mut grad_buf: Vec<Layer<AFunc>> = Vec::new();
        for i in 0..l
            invariant
                l == layers@.len(),
                layers_ok(layers@),
                grad_buf@.len() == i,
                forall|q: int| 0 <= q < i ==> (#[trigger] grad_buf@[q]).wf(),
                forall|q: int| 0 <= q < i ==> (#[trigger] grad_buf@[q])@.w.same_shape(
                    layers@[q]@.w,
                ),
                forall|q: int| 0 <= q < i ==> (#[trigger] grad_buf@[q])@.b.same_shape(
                    layers@[q]@.b,
                ),
                forall|q: int| 0 <= q < i ==> forall|t: int|
                    0 <= t < (#[trigger] grad_buf@[q])@.w.s.len() ==> grad_buf@[q]@.w.s[t] == 0,
                forall|q: int| 0 <= q < i ==> forall|t: int|
                    0 <= t < (#[trigger] grad_buf@[q])@.b.s.len() ==> grad_buf@[q]@.b.s[t] == 0,
        {
            grad_buf.push(layers[i].clone_zeros());
        }
        let output = OutFunc {};
        Ok(FFNet { layers, l, test_set, grad_buf, num_threads, output })
    }

    /// Forward propagation without caching: the network's prediction for
    /// one input column.
    fn eval(ls: &Vec<Layer<AFunc>>, out: &OutFunc, x: &Matrix) -> (r: Matrix)
        requires
            layers_ok(ls@),
            x.wf(),
            x@.rows == ls@[0].in_dim(),
            x@.cols == 1,
        ensures
            r.wf(),
            r@ == out.spec_f(spec_h(ls@, x@, ls@.len())),
            r@.rows == ls@[ls@.len() - 1].out_dim(),
            r@.cols == 1,
    {
        let l = ls.len();
        let mut cur = x.clone();
        for i in 0..l
            invariant
                l == ls@.len(),
                layers_ok(ls@),
                cur.wf(),
                cur@ == spec_h(ls@, x@, i as nat),
                cur@.cols == 1,
                cur@.rows == if i == 0 {
                    ls@[0].in_dim()
                } else {
                    ls@[i - 1].out_dim()
                },
        {
            let nxt = match ls[i].prop(&cur) {
                Ok(m) => m,
                Err(_) => {
                    proof {
                        assert(false);
                    }
                    return Matrix::new((0, 0));
                }
            };
            cur = nxt;
        }
        out.f(cur)
    }

    /// Runs the whole test set through forward propagation and returns the
    /// classification accuracy as a whole percentage in `0..=100`; an empty
    /// test set scores zero.
    pub fn test(&self) -> (r: u64)
        requires
            self.wf(),
        ensures
            r <= 100,
            r == test_pct(self.layers_seq(), self.out_fn(), self.tset_seq()),
    {
        let total = self.test_set.len();
        if total == 0 {
            return 0;
        }
        let mut correct: u64 = 0;
        for i in 0..total
            invariant
                self.wf(),
                total == self.tset_seq().len(),
                correct <= i,
                correct == net_correct(
                    self.layers_seq(),
                    self.out_fn(),
                    self.tset_seq(),
                    i as nat,
                ),
        {
            let p = &self.test_set[i];
            let y_hat = Self::eval(&self.layers, &self.output, &p.0);
            proof {
                assert(self.layers_seq()[self.layers_seq().len() - 1].out_dim() >= 1);
                assert(y_hat@.s.len() == y_hat@.rows * y_hat@.cols);
                assert(y_hat@.rows * 1 == y_hat@.rows) by (nonlinear_arith);
                assert(p.1@.s.len() == p.1@.rows * p.1@.cols);
                assert(p.1@.rows * 1 == p.1@.rows) by (nonlinear_arith);
            }
            if argmax(&y_hat) == argmax(&p.1) {
                correct = correct + 1;
            }
        }
        proof {
            vstd::arithmetic::div_mod::lemma_div_is_ordered(
                100 * (correct as int),
                100 * (total as int),
                total as int,
            );
            vstd::arithmetic::div_mod::lemma_div_by_multiple(100, total as int);
            vstd::arithmetic::mul::lemma_mul_inequality(correct as int, total as int, 100);
            assert((correct as int) * 100 == 100 * (correct as int)) by (nonlinear_arith);
            assert((total as int) * 100 == 100 * (total as int)) by (nonlinear_arith);
        }
        let pct = ((correct as u128) * 100) / (total as u128);
        pct as u64
    }

    /// Forward propagation with caching: the input, every layer's output,
    /// and the output transform of the last layer.
    fn prop(ls: &Vec<Layer<AFunc>>, out: &OutFunc, x: &Matrix) -> (r: Vec<Matrix>)
        requires
            layers_ok(ls@),
            x.wf(),
            x@.rows == ls@[0].in_dim(),
            x@.cols == 1,
        ensures
            r@.len() == ls@.len() + 2,
            forall|i: int| 0 <= i < r@.len() ==> (#[trigger] r@[i]).wf(),
            forall|i: int| 0 <= i < r@.len() ==> (#[trigger] r@[i])@.cols == 1,
            forall|i: int| 0 <= i <= ls@.len() ==> (#[trigger] r@[i])@ == spec_h(ls@, x@, i as nat),
            forall|i: int| 0 <= i < ls@.len() ==> (#[trigger] r@[i])@.rows == ls@[i].in_dim(),
            r@[ls@.len() as int]@.rows == ls@[ls@.len() - 1].out_dim(),
            r@[ls@.len() as int + 1]@ == out.spec_f(spec_h(ls@, x@, ls@.len())),
            r@[ls@.len() as int + 1]@.rows == ls@[ls@.len() - 1].out_dim(),
    {
        let l = ls.len();
        let mut h: Vec<Matrix> = Vec::new();
        let mut cur = x.clone();
        h.push(x.clone());
        for i in 0..l
            invariant
                l == ls@.len(),
                layers_ok(ls@),
                x.wf(),
                x@.rows == ls@[0].in_dim(),
                x@.cols == 1,
                cur.wf(),
                cur@ == spec_h(ls@, x@, i as nat),
                cur@.cols == 1,
                cur@.rows == if i == 0 {
                    ls@[0].in_dim()
                } else {
                    ls@[i - 1].out_dim()
                },
                h@.len() == i + 1,
                forall|q: int| 0 <= q < h@.len() ==> (#[trigger] h@[q]).wf(),
                forall|q: int| 0 <= q < h@.len() ==> (#[trigger] h@[q])@.cols == 1,
                forall|q: int| 0 <= q <= i ==> (#[trigger] h@[q])@ == spec_h(ls@, x@, q as nat),
                forall|q: int| 0 <= q < i ==> (#[trigger] h@[q])@.rows == ls@[q].in_dim(),
                i > 0 ==> h@[i as int]@.rows == ls@[i - 1].out_dim(),
        {
            let nxt = match ls[i].prop(&cur) {
                Ok(m) => m,
                Err(_) => {
                    proof {
                        assert(false);
                    }
                    return Vec::new();
                }
            };
            cur = nxt;
            h.push(cur.clone());
        }
        h.push(out.f(cur));
        h
    }

    /// Backpropagation for one sample: starting from the output function's
    /// loss derivative at the cached prediction, walks the layers in
    /// reverse, adding each layer's weight and bias gradients into its
    /// accumulator.
    fn backprop(
        ls: &Vec<Layer<AFunc>>,
        out: &OutFunc,
        buf: &mut Vec<Layer<AFunc>>,
        h: &Vec<Matrix>,
        y: &Matrix,
    )
        requires
            layers_ok(ls@),
            buf_matches(ls@, old(buf)@),
            y.wf(),
            y@.rows == ls@[ls@.len() - 1].out_dim(),
            y@.cols == 1,
            h@.len() == ls@.len() + 2,
            forall|i: int| 0 <= i < h@.len() ==> (#[trigger] h@[i]).wf(),
            forall|i: int| 0 <= i < h@.len() ==> (#[trigger] h@[i])@.cols == 1,
            h@[0]@.rows == ls@[0].in_dim(),
            forall|i: int| 0 <= i <= ls@.len() ==> (#[trigger] h@[i])@ == spec_h(
                ls@,
                h@[0]@,
                i as nat,
            ),
            forall|i: int| 0 <= i < ls@.len() ==> (#[trigger] h@[i])@.rows == ls@[i].in_dim(),
            h@[ls@.len() as int + 1]@ == out.spec_f(spec_h(ls@, h@[0]@, ls@.len())),
            h@[ls@.len() as int + 1]@.rows == ls@[ls@.len() - 1].out_dim(),
        ensures
            buf_matches(ls@, final(buf)@),
            final(buf)@.len() == old(buf)@.len(),
            forall|q: int| 0 <= q < final(buf)@.len() ==> (#[trigger] final(buf)@[q])@ == acc_one(
                ls@,
                *out,
                old(buf)@[q]@,
                h@[0]@,
                y@,
                q,
            ),
            forall|q: int| 0 <= q < final(buf)@.len() ==> (#[trigger] final(buf)@[q]).act() == old(buf)@[q].act(),
    {
        let l = ls.len();
        let hn = h.len();
        let ghost x = h@[0]@;
        let mut g = out.df(&h[hn - 1], y);
        proof {
            assert(g@ == spec_g(ls@, *out, x, y@, l as nat));
        }
        let mut i: usize = l;
        while i > 0
            invariant
                l == ls@.len(),
                layers_ok(ls@),
                y.wf(),
                y@.rows == ls@[l - 1].out_dim(),
                y@.cols == 1,
                h@.len() == l + 2,
                forall|q: int| 0 <= q < h@.len() ==> (#[trigger] h@[q]).wf(),
                forall|q: int| 0 <= q < h@.len() ==> (#[trigger] h@[q])@.cols == 1,
                x == h@[0]@,
                forall|q: int| 0 <= q <= l ==> (#[trigger] h@[q])@ == spec_h(ls@, x, q as nat),
                forall|q: int| 0 <= q < l ==> (#[trigger] h@[q])@.rows == ls@[q].in_dim(),
                0 <= i <= l,
                g.wf(),
                g@ == spec_g(ls@, *out, x, y@, i as nat),
                g@.cols == 1,
                g@.rows == if i == l {
                    ls@[l - 1].out_dim()
                } else {
                    ls@[i as int].in_dim()
                },
                buf@.len() == l,
                forall|q: int| 0 <= q < i ==> buf@[q] == old(buf)@[q],
                forall|q: int| i <= q < l ==> (#[trigger] buf@[q])@ == acc_one(
                    ls@,
                    *out,
                    old(buf)@[q]@,
                    x,
                    y@,
                    q,
                ),
                forall|q: int| 0 <= q < l ==> (#[trigger] buf@[q]).act() == old(buf)@[q].act(),
                buf_matches(ls@, buf@),
            decreases i,
        {
            i = i - 1;
            proof {
                if i + 1 < l {
                    assert(ls@[i + 1].in_dim() == ls@[i as int].out_dim());
                }
            }
            let upstream = match ls[i].backprop(&g, &h[i], &mut buf[i], 0) {
                Ok(m) => m,
                Err(_) => {
                    proof {
                        assert(false);
                    }
                    return ;
                }
            };
            g = upstream;
        }
    }

    /// Runs one sample forward and backward, adding its gradients into the
    /// given per-layer accumulators.
    fn add_to_gradient(
        ls: &Vec<Layer<AFunc>>,
        out: &OutFunc,
        buf: &mut Vec<Layer<AFunc>>,
        x: &Matrix,
        y: &Matrix,
    )
        requires
            layers_ok(ls@),
            buf_matches(ls@, old(buf)@),
            x.wf(),
            x@.rows == ls@[0].in_dim(),
            x@.cols == 1,
            y.wf(),
            y@.rows == ls@[ls@.len() - 1].out_dim(),
            y@.cols == 1,
        ensures
            buf_matches(ls@, final(buf)@),
            final(buf)@.len() == old(buf)@.len(),
            forall|q: int| 0 <= q < final(buf)@.len() ==> (#[trigger] final(buf)@[q])@ == acc_one(
                ls@,
                *out,
                old(buf)@[q]@,
                x@,
                y@,
                q,
            ),
            forall|q: int| 0 <= q < final(buf)@.len() ==> (#[trigger] final(buf)@[q]).act() == old(buf)@[q].act(),
    {
        let h = Self::prop(ls, out, x);
        Self::backprop(ls, out, buf, &h, y);
    }

    /// Accumulates the gradients of every sample of `batch` into the
    /// per-layer accumulators; fails with `ShapeMismatch`, accumulating
    /// nothing, unless every pair fits the network's outer widths.  The
    /// result is a fold over the samples in order, so it is the same for
    /// every worker count.
    pub fn update_with_batch(&mut self, batch: &Vec<(Matrix, Matrix)>) -> (r: Result<
        (),
        MatError,
    >)
        requires
            old(self).wf(),
        ensures
            final(self).wf(),
            final(self).layers_seq() == old(self).layers_seq(),
            final(self).tset_seq() == old(self).tset_seq(),
            final(self).workers() == old(self).workers(),
            r is Ok <==> batch_ok(old(self).layers_seq(), batch@),
            r is Err ==> final(self).gbuf_seq() == old(self).gbuf_seq(),
            r matches Err(e) ==> e == MatError::ShapeMismatch,
            r is Ok ==> forall|q: int|
                0 <= q < final(self).gbuf_seq().len() ==> (#[trigger] final(self).gbuf_seq()[q])@ == spec_acc(
                    old(self).layers_seq(),
                    old(self).out_fn(),
                    old(self).gbuf_seq()[q]@,
                    pair_views(batch@),
                    q,
                    batch@.len(),
                ),
    {
        let n = batch.len();
        let in_d = self.layers[0].wdim().1;
        let out_d = self.layers[self.layers.len() - 1].wdim().0;
        for i in 0..n
            invariant
                self == old(self),
                self.wf(),
                n == batch@.len(),
                in_d == self.layers_seq()[0].in_dim(),
                out_d == self.layers_seq()[self.layers_seq().len() - 1].out_dim(),
                forall|q: int| 0 <= q < i ==> (#[trigger] batch@[q]).0.wf(),
                forall|q: int| 0 <= q < i ==> (#[trigger] batch@[q]).1.wf(),
                forall|q: int| 0 <= q < i ==> (#[trigger] batch@[q]).0@.rows == in_d,
                forall|q: int| 0 <= q < i ==> (#[trigger] batch@[q]).0@.cols == 1,
                forall|q: int| 0 <= q < i ==> (#[trigger] batch@[q]).1@.rows == out_d,
                forall|q: int| 0 <= q < i ==> (#[trigger] batch@[q]).1@.cols == 1,
        {
            let p = &batch[i];
            let (xr, xc) = p.0.dim();
            let (yr, yc) = p.1.dim();
            if !p.0.is_wf() || !p.1.is_wf() || xr != in_d || xc != 1 || yr != out_d || yc != 1 {
                return Err(MatError::ShapeMismatch);
            }
        }
        let ghost views = pair_views(batch@);
        for k in 0..n
            invariant
                self.layers_seq() == old(self).layers_seq(),
                self.tset_seq() == old(self).tset_seq(),
                self.workers() == old(self).workers(),
                self.depth() == old(self).depth(),
                self.out_fn() == old(self).out_fn(),
                self.wf(),
                n == batch@.len(),
                views == pair_views(batch@),
                batch_ok(self.layers_seq(), batch@),
                self.gbuf_seq().len() == old(self).gbuf_seq().len(),
                forall|q: int| 0 <= q < self.gbuf_seq().len() ==> (#[trigger] self.gbuf_seq()[q])@
                    == spec_acc(
                    old(self).layers_seq(),
                    old(self).out_fn(),
                    old(self).gbuf_seq()[q]@,
                    views,
                    q,
                    k as nat,
                ),
        {
            let p = &batch[k];
            Self::add_to_gradient(&self.layers, &self.output, &mut self.grad_buf, &p.0, &p.1);
        }
        Ok(())
    }

    /// The gradients of one worker's chunk, accumulated from zero into a
    /// fresh layer-shaped buffer; fails with `ShapeMismatch` unless every
    /// pair fits the network's outer widths.
    pub fn grads_for_chunk(&self, chunk: &Vec<(Matrix, Matrix)>) -> (r: Result<
        Vec<Layer<AFunc>>,
        MatError,
    >)
        requires
            self.wf(),
        ensures
            r is Ok <==> batch_ok(self.layers_seq(), chunk@),
            r matches Err(e) ==> e == MatError::ShapeMismatch,
            r matches Ok(v) ==> buf_matches(self.layers_seq(), v@) && v@.len()
                == self.layers_seq().len() && forall|q: int|
                0 <= q < v@.len() ==> (#[trigger] v@[q])@ == spec_acc(
                    self.layers_seq(),
                    self.out_fn(),
                    zero_acc(self.layers_seq()[q]),
                    pair_views(chunk@),
                    q,
                    chunk@.len(),
                ),
    {
        let n = chunk.len();
        let in_d = self.layers[0].wdim().1;
        let out_d = self.layers[self.layers.len() - 1].wdim().0;
        for i in 0..n
            invariant
                self.wf(),
                n == chunk@.len(),
                in_d == self.layers_seq()[0].in_dim(),
                out_d == self.layers_seq()[self.layers_seq().len() - 1].out_dim(),
                forall|q: int| 0 <= q < i ==> (#[trigger] chunk@[q]).0.wf(),
                forall|q: int| 0 <= q < i ==> (#[trigger] chunk@[q]).1.wf(),
                forall|q: int| 0 <= q < i ==> (#[trigger] chunk@[q]).0@.rows == in_d,
                forall|q: int| 0 <= q < i ==> (#[trigger] chunk@[q]).0@.cols == 1,
                forall|q: int| 0 <= q < i ==> (#[trigger] chunk@[q]).1@.rows == out_d,
                forall|q: int| 0 <= q < i ==> (#[trigger] chunk@[q]).1@.cols == 1,
        {
            let p = &chunk[i];
            let (xr, xc) = p.0.dim();
            let (yr, yc) = p.1.dim();
            if !p.0.is_wf() || !p.1.is_wf() || xr != in_d || xc != 1 || yr != out_d || yc != 1 {
                return Err(MatError::ShapeMismatch);
            }
        }
        let l = self.layers.len();
        let mut partial: Vec<Layer<AFunc>> = Vec::new();
        for i in 0..l
            invariant
                self.wf(),
                l == self.layers_seq().len(),
                partial@.len() == i,
                forall|q: int| 0 <= q < i ==> (#[trigger] partial@[q]).wf(),
                forall|q: int| 0 <= q < i ==> (#[trigger] partial@[q])@.w.same_shape(
                    self.layers_seq()[q]@.w,
                ),
                forall|q: int| 0 <= q < i ==> (#[trigger] partial@[q])@.b.same_shape(
                    self.layers_seq()[q]@.b,
                ),
                forall|q: int| 0 <= q < i ==> (#[trigger] partial@[q])@ == zero_acc(
                    self.layers_seq()[q],
                ),
        {
            let z = self.layers[i].clone_zeros();
            proof {
                assert(z@.w.s =~= zero_acc(self.layers_seq()[i as int]).w.s);
                assert(z@.b.s =~= zero_acc(self.layers_seq()[i as int]).b.s);
                assert(z@ =~= zero_acc(self.layers_seq()[i as int]));
            }
            partial.push(z);
        }
        let ghost views = pair_views(chunk@);
        for k in 0..n
            invariant
                self.wf(),
                n == chunk@.len(),
                l == self.layers_seq().len(),
                views == pair_views(chunk@),
                batch_ok(self.layers_seq(), chunk@),
                buf_matches(self.layers_seq(), partial@),
                partial@.len() == l,
                forall|q: int| 0 <= q < l ==> (#[trigger] partial@[q])@ == spec_acc(
                    self.layers_seq(),
                    self.out_fn(),
                    zero_acc(self.layers_seq()[q]),
                    views,
                    q,
                    k as nat,
                ),
        {
            let p = &chunk[k];
            Self::add_to_gradient(&self.layers, &self.output, &mut partial, &p.0, &p.1);
        }
        Ok(partial)
    }

    /// Adds a worker's partial accumulators into the network's own; fails
    /// with `ShapeMismatch`, changing nothing, unless the partial buffer
    /// is layer-shaped.
    pub fn absorb(&mut self, partial: &Vec<Layer<AFunc>>) -> (r: Result<(), MatError>)
        requires
            old(self).wf(),
        ensures
            final(self).wf(),
            final(self).layers_seq() == old(self).layers_seq(),
            final(self).tset_seq() == old(self).tset_seq(),
            final(self).workers() == old(self).workers(),
            r is Ok <==> buf_matches(old(self).layers_seq(), partial@),
            r is Err ==> final(self).gbuf_seq() == old(self).gbuf_seq(),
            r matches Err(e) ==> e == MatError::ShapeMismatch,
            r is Ok ==> forall|q: int|
                0 <= q < final(self).gbuf_seq().len() ==> (#[trigger] final(self).gbuf_seq()[q])@ == (LayerView {
                    w: old(self).gbuf_seq()[q]@.w.madd(partial@[q]@.w),
                    b: old(self).gbuf_seq()[q]@.b.madd(partial@[q]@.b),
                }),
    {
        let l = self.layers.len();
        if partial.len() != l {
            return Err(MatError::ShapeMismatch);
        }
        for i in 0..l
            invariant
                self == old(self),
                self.wf(),
                l == self.layers_seq().len(),
                partial@.len() == l,
                forall|q: int| 0 <= q < i ==> (#[trigger] partial@[q]).wf(),
                forall|q: int| 0 <= q < i ==> (#[trigger] partial@[q])@.w.same_shape(
                    self.layers_seq()[q]@.w,
                ),
                forall|q: int| 0 <= q < i ==> (#[trigger] partial@[q])@.b.same_shape(
                    self.layers_seq()[q]@.b,
                ),
        {
            let (wr, wc) = self.layers[i].wdim();
            let (pr, pc) = partial[i].wdim();
            if !partial[i].is_wf() || pr != wr || pc != wc {
                return Err(MatError::ShapeMismatch);
            }
        }
        for i in 0..l
            invariant
                self.layers_seq() == old(self).layers_seq(),
                self.tset_seq() == old(self).tset_seq(),
                self.workers() == old(self).workers(),
                self.depth() == old(self).depth(),
                self.out_fn() == old(self).out_fn(),
                self.wf(),
                l == self.layers_seq().len(),
                partial@.len() == l,
                buf_matches(self.layers_seq(), partial@),
                self.gbuf_seq().len() == old(self).gbuf_seq().len(),
                forall|q: int| i <= q < l ==> self.gbuf_seq()[q] == old(self).gbuf_seq()[q],
                forall|q: int| 0 <= q < i ==> (#[trigger] self.gbuf_seq()[q])@ == (LayerView {
                    w: old(self).gbuf_seq()[q]@.w.madd(partial@[q]@.w),
                    b: old(self).gbuf_seq()[q]@.b.madd(partial@[q]@.b),
                }),
        {
            let r = self.grad_buf[i].absorb_params(&partial[i]);
            proof {
                assert(r is Ok);
            }
        }
        Ok(())
    }

    /// One parameter update after a batch: every layer descends by its
    /// accumulated gradient averaged over the batch and scaled by the
    /// step, and every accumulator is reset to zero.
    pub fn update_params(&mut self, batch_size: usize, step: Number)
        requires
            old(self).wf(),
            1 <= batch_size <= i64::MAX,
        ensures
            final(self).wf(),
            final(self).tset_seq() == old(self).tset_seq(),
            final(self).workers() == old(self).workers(),
            final(self).layers_seq().len() == old(self).layers_seq().len(),
            forall|q: int|
                0 <= q < final(self).layers_seq().len() ==> {
                    let oldl = old(self).layers_seq()[q];
                    let newl = #[trigger] final(self).layers_seq()[q];
                    &&& newl.act() == oldl.act()
                    &&& newl@.w.same_shape(oldl@.w)
                    &&& newl@.b.same_shape(oldl@.b)
                    &&& forall|t: int|
                        0 <= t < newl@.w.s.len() ==> #[trigger] newl@.w.s[t] == crate::nets::layer::descend(
                            oldl@.w.s[t],
                            old(self).gbuf_seq()[q]@.w.s[t],
                            batch_size as int,
                            step,
                        )
                    &&& forall|t: int|
                        0 <= t < newl@.b.s.len() ==> #[trigger] newl@.b.s[t] == crate::nets::layer::descend(
                            oldl@.b.s[t],
                            old(self).gbuf_seq()[q]@.b.s[t],
                            batch_size as int,
                            step,
                        )
                },
            forall|q: int| 0 <= q < final(self).gbuf_seq().len() ==> (forall|t: int|
                0 <= t < (#[trigger] final(self).gbuf_seq()[q])@.w.s.len() ==> final(self).gbuf_seq()[q]@.w.s[t] == 0) && (forall|t: int|
                0 <= t < final(self).gbuf_seq()[q]@.b.s.len() ==> final(self).gbuf_seq()[q]@.b.s[t]
                    == 0),
    {
        let l = self.layers.len();
        for i in 0..l
            invariant
                self.tset_seq() == old(self).tset_seq(),
                self.workers() == old(self).workers(),
                self.depth() == old(self).depth(),
                self.out_fn() == old(self).out_fn(),
                self.wf(),
                1 <= batch_size <= i64::MAX,
                l == self.layers_seq().len(),
                self.layers_seq().len() == old(self).layers_seq().len(),
                self.gbuf_seq().len() == old(self).gbuf_seq().len(),
                forall|q: int| i <= q < l ==> self.layers_seq()[q] == old(self).layers_seq()[q],
                forall|q: int| i <= q < l ==> self.gbuf_seq()[q] == old(self).gbuf_seq()[q],
                forall|q: int|
                    0 <= q < i ==> {
                        let oldl = old(self).layers_seq()[q];
                        let newl = #[trigger] self.layers_seq()[q];
                        &&& newl.act() == oldl.act()
                        &&& newl@.w.same_shape(oldl@.w)
                        &&& newl@.b.same_shape(oldl@.b)
                        &&& forall|t: int|
                            0 <= t < newl@.w.s.len() ==> #[trigger] newl@.w.s[t]
                                == crate::nets::layer::descend(
                                oldl@.w.s[t],
                                old(self).gbuf_seq()[q]@.w.s[t],
                                batch_size as int,
                                step,
                            )
                        &&& forall|t: int|
                            0 <= t < newl@.b.s.len() ==> #[trigger] newl@.b.s[t]
                                == crate::nets::layer::descend(
                                oldl@.b.s[t],
                                old(self).gbuf_seq()[q]@.b.s[t],
                                batch_size as int,
                                step,
                            )
                    },
                forall|q: int| 0 <= q < i ==> (forall|t: int|
                    0 <= t < (#[trigger] self.gbuf_seq()[q])@.w.s.len() ==> self.gbuf_seq()[q]@.w.s[t]
                        == 0) && (forall|t: int|
                    0 <= t < self.gbuf_seq()[q]@.b.s.len() ==> self.gbuf_seq()[q]@.b.s[t] == 0),
        {
            let r = self.layers[i].update(&self.grad_buf[i], batch_size, step);
            proof {
                assert(r is Ok);
            }
            self.grad_buf[i].zero_out();
        }
    }

    /// Mini-batch training: for each of `batches` rounds, draws
    /// `batch_size` samples uniformly with replacement, accumulates their
    /// gradients, applies one parameter update, and evaluates the test set
    /// before every sixth round.  Returns the accuracies observed; fails
    /// with `EmptyBatch` when the batch size is zero or the training set
    /// is empty, and with `ShapeMismatch` when the sequences differ in
    /// length or a sample does not fit the network's widths.
    pub fn train(
        &mut self,
        batch_size: usize,
        step: Number,
        data: (Vec<Matrix>, Vec<Matrix>),
        batches: usize,
    ) -> (r: Result<Vec<u64>, MatError>)
        requires
            old(self).wf(),
            batch_size <= i64::MAX,
        ensures
            final(self).wf(),
            final(self).tset_seq() == old(self).tset_seq(),
            final(self).workers() == old(self).workers(),
            r is Ok <==> (batch_size >= 1 && data.0@.len() >= 1 && data.0@.len() == data.1@.len()
                && samples_ok(old(self).layers_seq(), data.0@, data.1@)),
            r is Err ==> *final(self) == *old(self),
            r matches Err(e) ==> (e == MatError::EmptyBatch <==> (batch_size == 0
                || data.0@.len() == 0)),
            r matches Err(e) ==> e == MatError::EmptyBatch || e == MatError::ShapeMismatch,
            r matches Ok(v) ==> v@.len() == evals_upto(batches as nat),
            r matches Ok(v) ==> forall|i: int| 0 <= i < v@.len() ==> #[trigger] v@[i] <= 100,
            r matches Ok(v) ==> exists|
                states: Seq<(Seq<Layer<AFunc>>, Seq<Layer<AFunc>>)>,
                draws: Seq<Seq<(MatView, MatView)>>,
            |
                states[0] == (old(self).layers_seq(), old(self).gbuf_seq()) && states[
                    batches as int
                ] == (final(self).layers_seq(), final(self).gbuf_seq()) && #[trigger] train_run(
                    states,
                    draws,
                    old(self).out_fn(),
                    old(self).tset_seq(),
                    data.0@,
                    data.1@,
                    batch_size as int,
                    step,
                    batches as int,
                    v@,
                ),
    {
        let (xs, ys) = data;
        if batch_size == 0 || xs.len() == 0 {
            return Err(MatError::EmptyBatch);
        }
        if xs.len() != ys.len() {
            return Err(MatError::ShapeMismatch);
        }
        let n = xs.len();
        let in_d = self.layers[0].wdim().1;
        let out_d = self.layers[self.layers.len() - 1].wdim().0;
        for i in 0..n
            invariant
                self == old(self),
                self.wf(),
                batch_size >= 1,
                n >= 1,
                xs == data.0,
                ys == data.1,
                in_d == self.layers_seq()[0].in_dim(),
                out_d == self.layers_seq()[self.layers_seq().len() - 1].out_dim(),
                n == xs@.len(),
                n == ys@.len(),
                forall|q: int| 0 <= q < i ==> (#[trigger] xs@[q]).wf(),
                forall|q: int| 0 <= q < i ==> (#[trigger] xs@[q])@.rows == in_d,
                forall|q: int| 0 <= q < i ==> (#[trigger] xs@[q])@.cols == 1,
                forall|q: int| 0 <= q < i ==> (#[trigger] ys@[q]).wf(),
                forall|q: int| 0 <= q < i ==> (#[trigger] ys@[q])@.rows == out_d,
                forall|q: int| 0 <= q < i ==> (#[trigger] ys@[q])@.cols == 1,
        {
            let (xr, xc) = xs[i].dim();
            let (yr, yc) = ys[i].dim();
            if !xs[i].is_wf() || !ys[i].is_wf() || xr != in_d || xc != 1 || yr != out_d || yc != 1 {
                return Err(MatError::ShapeMismatch);
            }
        }
        let mut accs: Vec<u64> = Vec::new();
        let ghost mut states: Seq<(Seq<Layer<AFunc>>, Seq<Layer<AFunc>>)> = seq![
            (self.layers_seq(), self.gbuf_seq()),
        ];
        let ghost mut draws: Seq<Seq<(MatView, MatView)>> = Seq::empty();
        for b in 0..batches
            invariant
                self.wf(),
                batch_size >= 1,
                batch_size <= i64::MAX,
                n == xs@.len(),
                n == ys@.len(),
                n >= 1,
                xs == data.0,
                ys == data.1,
                samples_ok(old(self).layers_seq(), xs@, ys@),
                samples_ok(self.layers_seq(), xs@, ys@),
                in_d == self.layers_seq()[0].in_dim(),
                out_d == self.layers_seq()[self.layers_seq().len() - 1].out_dim(),
                self.layers_seq().len() == old(self).layers_seq().len(),
                self.tset_seq() == old(self).tset_seq(),
                self.workers() == old(self).workers(),
                self.out_fn() == old(self).out_fn(),
                self.depth() == old(self).depth(),
                accs@.len() == evals_upto(b as nat),
                forall|i: int| 0 <= i < accs@.len() ==> #[trigger] accs@[i] <= 100,
                states.len() == b + 1,
                draws.len() == b,
                states[0] == (old(self).layers_seq(), old(self).gbuf_seq()),
                states[b as int] == (self.layers_seq(), self.gbuf_seq()),
                forall|q: int| 0 <= q < b ==> (#[trigger] draws[q]).len() == batch_size,
                forall|q: int, k: int|
                    0 <= q < b && 0 <= k < batch_size ==> pair_drawn(
                        #[trigger] draws[q][k],
                        xs@,
                        ys@,
                    ),
                forall|q: int|
                    0 <= q < b ==> round_rel(
                        states[q].0,
                        states[q].1,
                        old(self).out_fn(),
                        #[trigger] draws[q],
                        batch_size as int,
                        step,
                        states[q + 1].0,
                        states[q + 1].1,
                    ),
                forall|q: int|
                    0 <= q < b && q % 6 == 0 ==> #[trigger] accs@[evals_upto(q as nat)]
                        == test_pct(states[q + 1].0, old(self).out_fn(), old(self).tset_seq()),
        {
            let ghost pre_layers = self.layers_seq();
            let ghost pre_gbuf = self.gbuf_seq();
            let mut batch: Vec<(Matrix, Matrix)> = Vec::new();
            for k in 0..batch_size
                invariant
                    n >= 1,
                    n == xs@.len(),
                    n == ys@.len(),
                    samples_ok(self.layers_seq(), xs@, ys@),
                    in_d == self.layers_seq()[0].in_dim(),
                    out_d == self.layers_seq()[self.layers_seq().len() - 1].out_dim(),
                    batch@.len() == k,
                    forall|q: int| 0 <= q < batch@.len() ==> (#[trigger] batch@[q]).0.wf(),
                    forall|q: int| 0 <= q < batch@.len() ==> (#[trigger] batch@[q]).0@.rows
                        == in_d,
                    forall|q: int| 0 <= q < batch@.len() ==> (#[trigger] batch@[q]).0@.cols == 1,
                    forall|q: int| 0 <= q < batch@.len() ==> (#[trigger] batch@[q]).1.wf(),
                    forall|q: int| 0 <= q < batch@.len() ==> (#[trigger] batch@[q]).1@.rows
                        == out_d,
                    forall|q: int| 0 <= q < batch@.len() ==> (#[trigger] batch@[q]).1@.cols == 1,
                    forall|q: int|
                        0 <= q < batch@.len() ==> pair_drawn(
                            ((#[trigger] batch@[q]).0@, batch@[q].1@),
                            xs@,
                            ys@,
                        ),
            {
                let r = crate::rng::rand_word() % n;
                batch.push((xs[r].clone(), ys[r].clone()));
                proof {
                    let last = batch@.len() - 1;
                    assert(batch@[last].0@ == (xs@[r as int])@ && batch@[last].1@ == ys@[
                        r as int
                    ]@);
                    assert(pair_drawn((batch@[last].0@, batch@[last].1@), xs@, ys@));
                }
            }
            proof {
                let draw = pair_views(batch@);
                assert forall|q: int| 0 <= q < batch_size implies pair_drawn(
                    #[trigger] draw[q],
                    xs@,
                    ys@,
                ) by {
                    assert(draw[q] == (batch@[q].0@, batch@[q].1@));
                }
                draws = draws.push(draw);
            }
            let ru = self.update_with_batch(&batch);
            proof {
                assert(ru is Ok);
            }
            self.update_params(batch_size, step);
            proof {
                let draw = pair_views(batch@);
                let post_layers = self.layers_seq();
                let post_gbuf = self.gbuf_seq();
                states = states.push((post_layers, post_gbuf));
                assert forall|i: int| 0 <= i < pre_layers.len() implies {
                    let acc = spec_acc(
                        pre_layers,
                        old(self).out_fn(),
                        pre_gbuf[i]@,
                        draw,
                        i,
                        draw.len(),
                    );
                    let oldl = pre_layers[i];
                    let newl = #[trigger] post_layers[i];
                    &&& newl.act() == oldl.act()
                    &&& newl.wf()
                    &&& newl@.w.same_shape(oldl@.w)
                    &&& newl@.b.same_shape(oldl@.b)
                    &&& forall|t: int|
                        0 <= t < newl@.w.s.len() ==> #[trigger] newl@.w.s[t]
                            == crate::nets::layer::descend(
                            oldl@.w.s[t],
                            acc.w.s[t],
                            batch_size as int,
                            step,
                        )
                    &&& forall|t: int|
                        0 <= t < newl@.b.s.len() ==> #[trigger] newl@.b.s[t]
                            == crate::nets::layer::descend(
                            oldl@.b.s[t],
                            acc.b.s[t],
                            batch_size as int,
                            step,
                        )
                } by {
                    assert(spec_acc(
                        pre_layers,
                        old(self).out_fn(),
                        pre_gbuf[i]@,
                        draw,
                        i,
                        draw.len(),
                    ) == spec_acc(
                        pre_layers,
                        old(self).out_fn(),
                        pre_gbuf[i]@,
                        draw,
                        i,
                        batch@.len() as nat,
                    ));
                }
                assert(round_rel(
                    pre_layers,
                    pre_gbuf,
                    old(self).out_fn(),
                    draw,
                    batch_size as int,
                    step,
                    post_layers,
                    post_gbuf,
                ));
            }
            let ghost accs_pre = accs@;
            if b % 6 == 0 {
                let a = self.test();
                accs.push(a);
                proof {
                    assert(accs@[evals_upto(b as nat)] == test_pct(
                        states[b + 1].0,
                        old(self).out_fn(),
                        old(self).tset_seq(),
                    ));
                }
            }
            proof {
                assert(accs@.len() == evals_upto((b + 1) as nat));
                assert forall|q: int| 0 <= q < b && q % 6 == 0 implies #[trigger] accs@[
                    evals_upto(q as nat)
                ] == test_pct(states[q + 1].0, old(self).out_fn(), old(self).tset_seq()) by {
                    lemma_evals_upto_mono((q + 1) as nat, b as nat);
                    lemma_evals_upto_mono(q as nat, b as nat);
                    assert(evals_upto((q + 1) as nat) == evals_upto(q as nat) + 1);
                    assert(0 <= evals_upto(q as nat) < accs_pre.len());
                    assert(accs@[evals_upto(q as nat)] == accs_pre[evals_upto(q as nat)]);
                }
            }
        }
        proof {
            assert(train_run(
                states,
                draws,
                old(self).out_fn(),
                old(self).tset_seq(),
                data.0@,
                data.1@,
                batch_size as int,
                step,
                batches as int,
                accs@,
            ));
        }
        Ok(accs)
    }
}

/// Every training sample is a well-formed input column and label column
/// of the network's outer widths.
pub open spec fn samples_ok(ls: Seq<Layer<AFunc>>, xs: Seq<Matrix>, ys: Seq<Matrix>) -> bool {
    &&& forall|i: int| 0 <= i < xs.len() ==> (#[trigger] xs[i]).wf()
    &&& forall|i: int| 0 <= i < xs.len() ==> (#[trigger] xs[i])@.rows == ls[0].in_dim()
    &&& forall|i: int| 0 <= i < xs.len() ==> (#[trigger] xs[i])@.cols == 1
    &&& forall|i: int| 0 <= i < ys.len() ==> (#[trigger] ys[i]).wf()
    &&& forall|i: int| 0 <= i < ys.len() ==> (#[trigger] ys[i])@.rows == ls[ls.len() - 1].out_dim()
    &&& forall|i: int| 0 <= i < ys.len() ==> (#[trigger] ys[i])@.cols == 1
}

/// How many evaluations a run of `b` batches performs: one before every
/// sixth update, starting with the first.
pub open spec fn evals_upto(b: nat) -> int
    decreases b,
{
    if b == 0 {
        0
    } else {
        evals_upto((b - 1) as nat) + if (b - 1) % 6 == 0 {
            1int
        } else {
            0int
        }
    }
}

/// The evaluation count never shrinks as the run grows.
proof fn lemma_evals_upto_mono(a: nat, b: nat)
    requires
        a <= b,
    ensures
        0 <= evals_upto(a) <= evals_upto(b),
    decreases b,
{
    if a == b {
        if a > 0 {
            lemma_evals_upto_mono((a - 1) as nat, (a - 1) as nat);
        }
    } else {
        lemma_evals_upto_mono(a, (b - 1) as nat);
    }
}

/// The pair of views is a clone of some training pair.
pub open spec fn pair_drawn(pv: (MatView, MatView), xs: Seq<Matrix>, ys: Seq<Matrix>) -> bool {
    exists|j: int| 0 <= j < xs.len() && pv.0 == (#[trigger] xs[j])@ && pv.1 == ys[j]@
}

/// One training round: every accumulator absorbs the drawn batch, every
/// layer parameter descends by its accumulated gradient averaged over the
/// batch size and scaled by the step, and every accumulator is reset to
/// zero, shaped like its layer.
pub open spec fn round_rel(
    pre_layers: Seq<Layer<AFunc>>,
    pre_gbuf: Seq<Layer<AFunc>>,
    out: OutFunc,
    draw: Seq<(MatView, MatView)>,
    batch_size: int,
    step: i64,
    post_layers: Seq<Layer<AFunc>>,
    post_gbuf: Seq<Layer<AFunc>>,
) -> bool {
    &&& post_layers.len() == pre_layers.len()
    &&& post_gbuf.len() == pre_gbuf.len()
    &&& forall|i: int|
        0 <= i < pre_layers.len() ==> {
            let acc = spec_acc(pre_layers, out, pre_gbuf[i]@, draw, i, draw.len());
            let oldl = pre_layers[i];
            let newl = #[trigger] post_layers[i];
            &&& newl.act() == oldl.act()
            &&& newl.wf()
            &&& newl@.w.same_shape(oldl@.w)
            &&& newl@.b.same_shape(oldl@.b)
            &&& forall|t: int|
                0 <= t < newl@.w.s.len() ==> #[trigger] newl@.w.s[t]
                    == crate::nets::layer::descend(oldl@.w.s[t], acc.w.s[t], batch_size, step)
            &&& forall|t: int|
                0 <= t < newl@.b.s.len() ==> #[trigger] newl@.b.s[t]
                    == crate::nets::layer::descend(oldl@.b.s[t], acc.b.s[t], batch_size, step)
        }
    &&& forall|i: int|
        0 <= i < post_gbuf.len() ==> {
            let g = #[trigger] post_gbuf[i];
            &&& g.wf()
            &&& g@.w.same_shape(post_layers[i]@.w)
            &&& g@.b.same_shape(post_layers[i]@.b)
            &&& forall|t: int| 0 <= t < g@.w.s.len() ==> #[trigger] g@.w.s[t] == 0
            &&& forall|t: int| 0 <= t < g@.b.s.len() ==> #[trigger] g@.b.s[t] == 0
        }
}

/// A complete training run over `batches` rounds.  `states` walks from
/// the starting layers and accumulators to the final ones; each round is
/// governed by one drawn batch of `batch_size` pairs, every pair a clone
/// of a training pair; and `accs` holds the accuracy of the updated
/// network measured before every sixth round.  Which pairs each round
/// draws is all the random source decides.
pub open spec fn train_run(
    states: Seq<(Seq<Layer<AFunc>>, Seq<Layer<AFunc>>)>,
    draws: Seq<Seq<(MatView, MatView)>>,
    out: OutFunc,
    ts: Seq<(Matrix, Matrix)>,
    xs: Seq<Matrix>,
    ys: Seq<Matrix>,
    batch_size: int,
    step: i64,
    batches: int,
    accs: Seq<u64>,
) -> bool {
    &&& states.len() == batches + 1
    &&& draws.len() == batches
    &&& forall|b: int| 0 <= b < batches ==> (#[trigger] draws[b]).len() == batch_size
    &&& forall|b: int, k: int|
        0 <= b < batches && 0 <= k < batch_size ==> pair_drawn(#[trigger] draws[b][k], xs, ys)
    &&& forall|b: int|
        0 <= b < batches ==> round_rel(
            states[b].0,
            states[b].1,
            out,
            #[trigger] draws[b],
            batch_size,
            step,
            states[b + 1].0,
            states[b + 1].1,
        )
    &&& accs.len() == evals_upto(batches as nat)
    &&& forall|b: int|
        0 <= b < batches && b % 6 == 0 ==> #[trigger] accs[evals_upto(b as nat)] == test_pct(
            states[b + 1].0,
            out,
            ts,
        )
}

/// The boundaries of a partition of `n` items into `workers` contiguous
/// chunks: chunk `w` spans `r[w]..r[w + 1]`, every chunk holds
/// `n / workers` items and the last absorbs the remainder.
pub fn chunk_bounds(n: usize, workers: usize) -> (r: Vec<usize>)
    requires
        1 <= workers,
    ensures
        r@.len() == workers + 1,
        forall|w: int| 0 <= w < workers ==> #[trigger] r@[w] == w * ((n as int) / (workers as int)),
        r@[workers as int] == n,
        forall|w: int| 0 <= w < workers ==> #[trigger] r@[w] <= r@[w + 1] <= n,
{
    let q = n / workers;
    proof {
        vstd::arithmetic::div_mod::lemma_fundamental_div_mod(n as int, workers as int);
        vstd::arithmetic::div_mod::lemma_mod_division_less_than_divisor(n as int, workers as int);
        assert((workers as int) * (q as int) <= n);
    }
    let mut v: Vec<usize> = Vec::new();
    for w in 0..workers
        invariant
            1 <= workers,
            q == n / workers,
            (workers as int) * (q as int) <= n,
            v@.len() == w,
            forall|i: int| 0 <= i < w ==> #[trigger] v@[i] == i * (q as int),
    {
        proof {
            vstd::arithmetic::mul::lemma_mul_inequality(w as int, workers as int, q as int);
            assert((workers as int) * (q as int) == (q as int) * (workers as int))
                by (nonlinear_arith);
            assert((w as int) * (q as int) <= n);
        }
        v.push(w * q);
    }
    v.push(n);
    proof {
        assert forall|w: int| 0 <= w < workers implies #[trigger] v@[w] <= v@[w + 1] <= n by {
            vstd::arithmetic::mul::lemma_mul_inequality(w, w + 1, q as int);
            vstd::arithmetic::mul::lemma_mul_inequality(w + 1, workers as int, q as int);
            assert((workers as int) * (q as int) == (q as int) * (workers as int))
                by (nonlinear_arith);
        }
    }
    v
}

/// A zeroed accumulator shaped like the given layer.
pub open spec fn zero_acc(l: Layer<AFunc>) -> LayerView {
    LayerView {
        w: MatView {
            rows: l@.w.rows,
            cols: l@.w.cols,
            s: Seq::new(l@.w.s.len(), |t: int| 0i64),
        },
        b: MatView {
            rows: l@.b.rows,
            cols: l@.b.cols,
            s: Seq::new(l@.b.s.len(), |t: int| 0i64),
        },
    }
}

} // verus!
