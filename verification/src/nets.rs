//! Activation and output functions for the feed-forward trainer.
//!
//! Every activation is stateless and cloneable so that each layer can own
//! an independent instance; its value and derivative are pinned down by
//! spec functions that the layer and network contracts build on.

pub mod layer;
pub mod ffnet;

pub use self::ffnet::FFNet;
pub use self::layer::Layer;

use vstd::prelude::*;
use crate::matrix::{Matrix, MatView};

verus! {

/// The scalar type of the trainer.
pub type Number = i64;

/// The activation every layer of an [`FFNet`] uses.
pub type AFunc = RELU;

/// The output function an [`FFNet`] applies after its last layer.
pub type OutFunc = Linear;

/// An element-wise transform with a value `f` and a derivative `df`,
/// owned per layer and therefore cloneable.
pub trait Activation: Sized {
    /// The value of the activation at `x`.
    spec fn spec_f(&self, x: i64) -> i64;

    /// The derivative of the activation at `x`.
    spec fn spec_df(&self, x: i64) -> i64;

    fn f(&self, x: i64) -> (r: i64)
        ensures
            r == self.spec_f(x),
    ;

    fn df(&self, x: i64) -> (r: i64)
        ensures
            r == self.spec_df(x),
    ;

    fn clone(&self) -> (r: Self)
        ensures
            r == *self,
    ;
}

/// A whole-vector output transform with the derivative of the loss it is
/// paired with: `df` maps prediction and label to the initial gradient of
/// backpropagation.
pub trait Output: Sized {
    /// The value of the output transform on a column.
    spec fn spec_f(&self, x: MatView) -> MatView;

    /// The loss gradient at prediction `y_hat` for label `y`.
    spec fn spec_df(&self, y_hat: MatView, y: MatView) -> MatView;

    fn f(&self, x: Matrix) -> (r: Matrix)
        requires
            x.wf(),
        ensures
            r.wf(),
            r@ == self.spec_f(x@),
            r@.same_shape(x@),
    ;

    fn df(&self, y_hat: &Matrix, y: &Matrix) -> (r: Matrix)
        requires
            y_hat.wf(),
            y.wf(),
            y_hat@.same_shape(y@),
        ensures
            r.wf(),
            r@ == self.spec_df(y_hat@, y@),
            r@.same_shape(y_hat@),
    ;
}

/// The rectified-linear activation: `max(x, 0)`.
pub struct RELU {}

impl Activation for RELU {
    open spec fn spec_f(&self, x: i64) -> i64 {
        if x > 0 {
            x
        } else {
            0
        }
    }

    open spec fn spec_df(&self, x: i64) -> i64 {
        if x >= 0 {
            1
        } else {
            0
        }
    }

    fn f(&self, x: i64) -> (r: i64) {
        if x > 0 {
            x
        } else {
            0
        }
    }

    fn df(&self, x: i64) -> (r: i64) {
        if x >= 0 {
            1
        } else {
            0
        }
    }

    fn clone(&self) -> (r: Self) {
        RELU {}
    }
}

/// The linear output: the transform is the identity and the paired loss
/// derivative is the prediction minus the label.
pub struct Linear {}

impl Output for Linear {
    open spec fn spec_f(&self, x: MatView) -> MatView {
        x
    }

    open spec fn spec_df(&self, y_hat: MatView, y: MatView) -> MatView {
        y_hat.msub(y)
    }

    fn f(&self, x: Matrix) -> (r: Matrix) {
        x
    }

    fn df(&self, y_hat: &Matrix, y: &Matrix) -> (r: Matrix) {
        match y_hat.sub(y) {
            Ok(d) => d,
            Err(_) => {
                proof {
                    assert(false);
                }
                Matrix::new((0, 0))
            }
        }
    }
}

} // verus!
