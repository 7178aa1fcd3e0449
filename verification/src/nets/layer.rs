//! One fully-connected layer: a weight matrix, a bias column and an owned
//! activation instance.
//!
//! `prop` applies the activation to the incoming column and then the
//! linear transform; `backprop` propagates a gradient backward and adds
//! this sample's parameter gradients into a caller-supplied accumulator,
//! which is itself a zero-initialised layer of the same shape.

use vstd::prelude::*;
use crate::matrix::{MatError, MatView, Matrix};
use crate::nets::{Activation, Number};
use crate::numeric::{tdiv, wrap};

verus! {

/// The mathematical value of a layer: its weight and bias matrices.
#[verifier::ext_equal]
pub ghost struct LayerView {
    pub w: MatView,
    pub b: MatView,
}

/// `x` with the activation applied to every element.
pub open spec fn act_map<A: Activation>(a: A, x: MatView) -> MatView {
    MatView { rows: x.rows, cols: x.cols, s: Seq::new(x.s.len(), |t: int| a.spec_f(x.s[t])) }
}

/// `x` with the activation's derivative applied to every element.
pub open spec fn act_dmap<A: Activation>(a: A, x: MatView) -> MatView {
    MatView { rows: x.rows, cols: x.cols, s: Seq::new(x.s.len(), |t: int| a.spec_df(x.s[t])) }
}

/// One descent step on a single parameter: subtract the accumulated
/// gradient averaged over the batch and scaled by the step size.
pub open spec fn descend(w: i64, g: i64, batch: int, step: i64) -> i64 {
    wrap(w - wrap(tdiv(g as int, batch) * step))
}

/// One fully-connected layer.
pub struct Layer<A: Activation> {
    pub w: Matrix,
    b: Matrix,
    activation: A,
}

impl<A: Activation> View for Layer<A> {
    type V = LayerView;

    closed spec fn view(&self) -> LayerView {
        LayerView { w: self.w@, b: self.b@ }
    }
}

impl<A: Activation> Layer<A> {
    /// The activation instance this layer owns.
    pub closed spec fn act(&self) -> A {
        self.activation
    }

    /// Weights and bias are well-formed and the bias is one column with a
    /// row per output.
    pub open spec fn wf(&self) -> bool {
        &&& self@.w.wf()
        &&& self@.b.wf()
        &&& self@.b.rows == self@.w.rows
        &&& self@.b.cols == 1
    }

    /// How many inputs the layer consumes.
    pub open spec fn in_dim(&self) -> nat {
        self@.w.cols
    }

    /// How many outputs the layer produces.
    pub open spec fn out_dim(&self) -> nat {
        self@.w.rows
    }

    /// The same shape as another layer.
    pub open spec fn same_shape(&self, o: &Layer<A>) -> bool {
        self@.w.same_shape(o@.w) && self@.b.same_shape(o@.b)
    }

    /// Forward propagation: the activation applied to the incoming column,
    /// then the linear transform `w · f(x) + b`.
    pub open spec fn prop_spec(&self, x: MatView) -> MatView {
        self@.w.mmul(act_map(self.act(), x)).madd(self@.b)
    }

    /// The gradient handed to the preceding layer: the gradient pulled
    /// back through the weights, times the activation's derivative at the
    /// cached input.
    pub open spec fn upstream_spec(&self, g: MatView, x: MatView) -> MatView {
        self@.w.mt().mmul(g).mhad(act_dmap(self.act(), x))
    }

    /// This sample's weight-gradient contribution: the outer product of
    /// the gradient with the re-activated input, plus the regularization
    /// term `w · alpha`.
    pub open spec fn dw_spec(&self, g: MatView, x: MatView, alpha: i64) -> MatView {
        g.mmul(act_map(self.act(), x).mt()).madd(self@.w.mscale(alpha))
    }

    /// The dimensions of the weight matrix: `(outputs, inputs)`.
    pub fn wdim(&self) -> (r: (usize, usize))
        ensures
            r.0 == self.out_dim(),
            r.1 == self.in_dim(),
    {
        self.w.dim()
    }

    /// Whether the stored matrices are well-formed and agree in shape.
    pub fn is_wf(&self) -> (r: bool)
        ensures
            r == self.wf(),
    {
        let (wr, _wc) = self.w.dim();
        let (br, bc) = self.b.dim();
        self.w.is_wf() && self.b.is_wf() && br == wr && bc == 1
    }

    /// A layer with weights drawn uniformly from `-1..2` and zero bias.
    pub fn new_rand(activation: A, into: usize, out: usize) -> (r: Layer<A>)
        requires
            (out as int) * (into as int) <= usize::MAX,
        ensures
            r.wf(),
            r.in_dim() == into,
            r.out_dim() == out,
            r.act() == activation,
            forall|t: int| 0 <= t < r@.w.s.len() ==> -1 <= #[trigger] r@.w.s[t] < 2,
            forall|t: int| 0 <= t < r@.b.s.len() ==> #[trigger] r@.b.s[t] == 0,
    {
        Layer {
            w: Matrix::new_rand((out, into), -1, 2),
            b: Matrix::new_const((out, 1), 0),
            activation,
        }
    }

    /// A layer over explicit parameters; fails with `ShapeMismatch` unless
    /// the bias is one well-formed column with a row per weight row.
    pub fn with_params(w: Matrix, b: Matrix, activation: A) -> (r: Result<Layer<A>, MatError>)
        ensures
            r is Ok <==> (w.wf() && b.wf() && b@.rows == w@.rows && b@.cols == 1),
            r matches Ok(l) ==> l@.w == w@ && l@.b == b@ && l.act() == activation && l.wf(),
            r matches Err(e) ==> e == MatError::ShapeMismatch,
    {
        let (wr, _wc) = w.dim();
        let (br, bc) = b.dim();
        if !w.is_wf() || !b.is_wf() || br != wr || bc != 1 {
            return Err(MatError::ShapeMismatch);
        }
        Ok(Layer { w, b, activation })
    }

    /// The bias column.
    pub fn bias(&self) -> (r: &Matrix)
        ensures
            r@ == self@.b,
    {
        &self.b
    }

    /// A layer of the same shape with every parameter zero; the gradient
    /// accumulator that workers add their contributions into.
    pub fn clone_zeros(&self) -> (r: Layer<A>)
        requires
            self.wf(),
        ensures
            r.wf(),
            r.same_shape(self),
            r.act() == self.act(),
            forall|t: int| 0 <= t < r@.w.s.len() ==> #[trigger] r@.w.s[t] == 0,
            forall|t: int| 0 <= t < r@.b.s.len() ==> #[trigger] r@.b.s[t] == 0,
    {
        let _wl = self.w.len();
        let _bl = self.b.len();
        Layer {
            w: Matrix::new_const(self.w.dim(), 0),
            b: Matrix::new_const(self.b.dim(), 0),
            activation: self.activation.clone(),
        }
    }

    /// One parameter-descent step: every weight and bias moves by exactly
    /// minus the accumulated gradient over the batch size, times the step.
    pub fn update(&mut self, other: &Layer<A>, batch_size: usize, step: Number) -> (r: Result<
        (),
        MatError,
    >)
        requires
            old(self).wf(),
            other.wf(),
            1 <= batch_size <= i64::MAX,
        ensures
            final(self).wf(),
            final(self).act() == old(self).act(),
            r is Ok <==> old(self).same_shape(other),
            r is Err ==> *final(self) == *old(self),
            r matches Err(e) ==> e == MatError::ShapeMismatch,
            r is Ok ==> {
                &&& final(self)@.w.same_shape(old(self)@.w)
                &&& final(self)@.b.same_shape(old(self)@.b)
                &&& forall|t: int|
                    0 <= t < final(self)@.w.s.len() ==> #[trigger] final(self)@.w.s[t] == descend(
                        old(self)@.w.s[t],
                        other@.w.s[t],
                        batch_size as int,
                        step,
                    )
                &&& forall|t: int|
                    0 <= t < final(self)@.b.s.len() ==> #[trigger] final(self)@.b.s[t] == descend(
                        old(self)@.b.s[t],
                        other@.b.s[t],
                        batch_size as int,
                        step,
                    )
            },
    {
        let (wr, wc) = self.w.dim();
        let (owr, owc) = other.w.dim();
        let (br, bc) = self.b.dim();
        let (obr, obc) = other.b.dim();
        if wr != owr || wc != owc || br != obr || bc != obc {
            return Err(MatError::ShapeMismatch);
        }
        let bs = batch_size as i64;
        let wl = self.w.len();
        let mut wv: Vec<i64> = Vec::new();
        for t in 0..wl
            invariant
                1 <= bs,
                wl == self@.w.s.len(),
                self@.w.s.len() == other@.w.s.len(),
                wv@.len() == t,
                forall|q: int|
                    0 <= q < t ==> #[trigger] wv@[q] == descend(
                        self@.w.s[q],
                        other@.w.s[q],
                        bs as int,
                        step,
                    ),
        {
            let g = crate::numeric::sdiv(other.w.data()[t], bs);
            let delta = crate::numeric::wmul(g, step);
            wv.push(crate::numeric::wsub(self.w.data()[t], delta));
        }
        let bl = self.b.len();
        let mut bv: Vec<i64> = Vec::new();
        for t in 0..bl
            invariant
                1 <= bs,
                bl == self@.b.s.len(),
                self@.b.s.len() == other@.b.s.len(),
                bv@.len() == t,
                forall|q: int|
                    0 <= q < t ==> #[trigger] bv@[q] == descend(
                        self@.b.s[q],
                        other@.b.s[q],
                        bs as int,
                        step,
                    ),
        {
            let g = crate::numeric::sdiv(other.b.data()[t], bs);
            let delta = crate::numeric::wmul(g, step);
            bv.push(crate::numeric::wsub(self.b.data()[t], delta));
        }
        let neww = match Matrix::with_vec(self.w.dim(), wv) {
            Ok(m) => m,
            Err(_) => {
                proof {
                    assert(false);
                }
                return Err(MatError::ShapeMismatch);
            }
        };
        let newb = match Matrix::with_vec(self.b.dim(), bv) {
            Ok(m) => m,
            Err(_) => {
                proof {
                    assert(false);
                }
                return Err(MatError::ShapeMismatch);
            }
        };
        self.w = neww;
        self.b = newb;
        Ok(())
    }

    /// Adds another layer's parameters element-wise into this one: the
    /// merge step for a worker's partial gradient accumulator; fails with
    /// `ShapeMismatch`, changing nothing, unless the shapes agree.
    pub fn absorb_params(&mut self, other: &Layer<A>) -> (r: Result<(), MatError>)
        requires
            old(self).wf(),
            other.wf(),
        ensures
            final(self).wf(),
            final(self).act() == old(self).act(),
            r is Ok <==> old(self).same_shape(other),
            r is Err ==> *final(self) == *old(self),
            r matches Err(e) ==> e == MatError::ShapeMismatch,
            r is Ok ==> final(self)@ == (LayerView {
                w: old(self)@.w.madd(other@.w),
                b: old(self)@.b.madd(other@.b),
            }),
            r is Ok ==> final(self).same_shape(old(self)),
    {
        let (wr, wc) = self.w.dim();
        let (owr, owc) = other.w.dim();
        let (br, bc) = self.b.dim();
        let (obr, obc) = other.b.dim();
        if wr != owr || wc != owc || br != obr || bc != obc {
            return Err(MatError::ShapeMismatch);
        }
        let rw = self.w.add_by(&other.w);
        proof {
            assert(rw is Ok);
        }
        let rb = self.b.add_by(&other.b);
        proof {
            assert(rb is Ok);
        }
        Ok(())
    }

    /// Resets every parameter to zero, keeping the shape.
    pub fn zero_out(&mut self)
        requires
            old(self).wf(),
        ensures
            final(self).wf(),
            final(self).same_shape(old(self)),
            final(self).act() == old(self).act(),
            forall|t: int| 0 <= t < final(self)@.w.s.len() ==> #[trigger] final(self)@.w.s[t] == 0,
            forall|t: int| 0 <= t < final(self)@.b.s.len() ==> #[trigger] final(self)@.b.s[t] == 0,
    {
        let _wl = self.w.len();
        let _bl = self.b.len();
        self.w = Matrix::new_const(self.w.dim(), 0);
        self.b = Matrix::new_const(self.b.dim(), 0);
    }

    /// Forward propagation; fails with `ShapeMismatch` unless `x` is a
    /// column with one row per layer input.
    pub fn prop(&self, x: &Matrix) -> (r: Result<Matrix, MatError>)
        requires
            self.wf(),
            x.wf(),
        ensures
            r is Ok <==> (x@.rows == self.in_dim() && x@.cols == 1),
            r matches Ok(y) ==> y@ == self.prop_spec(x@) && y.wf() && y@.rows == self.out_dim()
                && y@.cols == 1,
            r matches Err(e) ==> e == MatError::ShapeMismatch,
    {
        let (xr, xc) = x.dim();
        let (wr, wc) = self.w.dim();
        if xr != wc || xc != 1 {
            return Err(MatError::ShapeMismatch);
        }
        let xl = x.len();
        let mut fv: Vec<i64> = Vec::new();
        for t in 0..xl
            invariant
                xl == x@.s.len(),
                fv@.len() == t,
                forall|q: int| 0 <= q < t ==> #[trigger] fv@[q] == self.act().spec_f(x@.s[q]),
        {
            fv.push(self.activation.f(x.data()[t]));
        }
        let fx = match Matrix::with_vec(x.dim(), fv) {
            Ok(m) => m,
            Err(_) => {
                proof {
                    assert(false);
                }
                return Err(MatError::ShapeMismatch);
            }
        };
        proof {
            assert(fx@.s =~= act_map(self.act(), x@).s);
            assert(fx@ =~= act_map(self.act(), x@));
        }
        let mut out = match self.w.mul(&fx) {
            Ok(m) => m,
            Err(_) => {
                proof {
                    assert(false);
                }
                return Err(MatError::ShapeMismatch);
            }
        };
        let radd = out.add_by(&self.b);
        proof {
            assert(radd is Ok);
        }
        Ok(out)
    }

    /// Backpropagation through this layer for one sample: returns the
    /// gradient for the preceding layer and adds the bias and weight
    /// gradients of this sample into `acc`; fails with `ShapeMismatch`,
    /// changing nothing, unless the gradient and the cached input are
    /// columns of the layer's output and input widths.
    pub fn backprop(&self, gradient: &Matrix, x: &Matrix, acc: &mut Layer<A>, alpha: i64) -> (r:
        Result<Matrix, MatError>)
        requires
            self.wf(),
            old(acc).wf(),
            old(acc).same_shape(self),
            gradient.wf(),
            x.wf(),
        ensures
            final(acc).wf(),
            final(acc).same_shape(old(acc)),
            final(acc).act() == old(acc).act(),
            r is Ok <==> (gradient@.rows == self.out_dim() && gradient@.cols == 1 && x@.rows
                == self.in_dim() && x@.cols == 1),
            r is Err ==> *final(acc) == *old(acc),
            r matches Err(e) ==> e == MatError::ShapeMismatch,
            r matches Ok(g) ==> g@ == self.upstream_spec(gradient@, x@) && g.wf() && g@.rows
                == self.in_dim() && g@.cols == 1,
            r is Ok ==> final(acc)@.w == old(acc)@.w.madd(self.dw_spec(gradient@, x@, alpha)),
            r is Ok ==> final(acc)@.b == old(acc)@.b.madd(gradient@),
    {
        let (gr, gc) = gradient.dim();
        let (xr, xc) = x.dim();
        let (wr, wc) = self.w.dim();
        if gr != wr || gc != 1 || xr != wc || xc != 1 {
            return Err(MatError::ShapeMismatch);
        }
        let out_g0 = match self.w.mul_tl(gradient) {
            Ok(m) => m,
            Err(_) => {
                proof {
                    assert(false);
                }
                return Err(MatError::ShapeMismatch);
            }
        };
        let xl = x.len();
        let mut dv: Vec<i64> = Vec::new();
        for t in 0..xl
            invariant
                xl == x@.s.len(),
                dv@.len() == t,
                forall|q: int| 0 <= q < t ==> #[trigger] dv@[q] == self.act().spec_df(x@.s[q]),
        {
            dv.push(self.activation.df(x.data()[t]));
        }
        let dx = match Matrix::with_vec(x.dim(), dv) {
            Ok(m) => m,
            Err(_) => {
                proof {
                    assert(false);
                }
                return Err(MatError::ShapeMismatch);
            }
        };
        proof {
            assert(dx@.s =~= act_dmap(self.act(), x@).s);
            assert(dx@ =~= act_dmap(self.act(), x@));
        }
        let out_g = match out_g0.h_prod(&dx) {
            Ok(m) => m,
            Err(_) => {
                proof {
                    assert(false);
                }
                return Err(MatError::ShapeMismatch);
            }
        };
        let mut fv: Vec<i64> = Vec::new();
        for t in 0..xl
            invariant
                xl == x@.s.len(),
                fv@.len() == t,
                forall|q: int| 0 <= q < t ==> #[trigger] fv@[q] == self.act().spec_f(x@.s[q]),
        {
            fv.push(self.activation.f(x.data()[t]));
        }
        let fx = match Matrix::with_vec(x.dim(), fv) {
            Ok(m) => m,
            Err(_) => {
                proof {
                    assert(false);
                }
                return Err(MatError::ShapeMismatch);
            }
        };
        proof {
            assert(fx@.s =~= act_map(self.act(), x@).s);
            assert(fx@ =~= act_map(self.act(), x@));
        }
        let mut d_w = match gradient.mul_tr(&fx) {
            Ok(m) => m,
            Err(_) => {
                proof {
                    assert(false);
                }
                return Err(MatError::ShapeMismatch);
            }
        };
        let reg = self.w.scale(alpha);
        let rreg = d_w.add_by(&reg);
        proof {
            assert(rreg is Ok);
        }
        let rb = acc.b.add_by(gradient);
        proof {
            assert(rb is Ok);
        }
        let rw = acc.w.add_by(&d_w);
        proof {
            assert(rw is Ok);
        }
        Ok(out_g)
    }
}

} // verus!
