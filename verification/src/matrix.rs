//! A dense, row-major, two-dimensional matrix of scalars.
//!
//! Each matrix is specified through its mathematical view [`MatView`]: the
//! pair of dimensions together with the row-major sequence of its elements.
//! Every operation states exactly which element sequence it produces, with
//! all arithmetic wrapped modulo 2^64 (see [`crate::numeric`]).  Operations
//! whose operands may have incompatible shapes return a [`MatError`] and
//! leave their operands unchanged.

use vstd::prelude::*;
use vstd::arithmetic::div_mod::lemma_fundamental_div_mod_converse;
use vstd::arithmetic::mul::{
    lemma_mul_inequality, lemma_mul_is_distributive_add_other_way,
};
use crate::numeric::{wrap, sum, wadd, wsub, wmul};
use crate::numeric::{lemma_wrap_add, lemma_wrap_id, lemma_wrap_mul};

verus! {

/// Failures of the matrix engine and of the trainer built on it.
#[derive(Clone, Copy, Debug, PartialEq, Eq, Structural)]
pub enum MatError {
    /// Operand dimensions are incompatible for the requested operation.
    ShapeMismatch,
    /// A flat index lies outside the matrix.
    IndexOutOfBounds,
    /// A training step was asked for with no samples to draw from.
    EmptyBatch,
    /// The raw bytes of a data set do not decode to samples.
    DataLoad,
}

/// The mathematical value of a matrix: its dimensions and the row-major
/// sequence of its elements.
#[verifier::ext_equal]
pub ghost struct MatView {
    pub rows: nat,
    pub cols: nat,
    pub s: Seq<i64>,
}

impl MatView {
    /// The element sequence covers exactly `rows * cols` slots.
    pub open spec fn wf(self) -> bool {
        self.s.len() == self.rows * self.cols
    }

    /// The element in row `i`, column `j`.
    pub open spec fn idx(self, i: int, j: int) -> i64 {
        self.s[i * self.cols + j]
    }

    pub open spec fn same_shape(self, o: MatView) -> bool {
        self.rows == o.rows && self.cols == o.cols
    }

    /// Element-wise sum.
    pub open spec fn madd(self, o: MatView) -> MatView {
        MatView {
            rows: self.rows,
            cols: self.cols,
            s: Seq::new(self.s.len(), |t: int| wrap(self.s[t] + o.s[t])),
        }
    }

    /// Element-wise difference.
    pub open spec fn msub(self, o: MatView) -> MatView {
        MatView {
            rows: self.rows,
            cols: self.cols,
            s: Seq::new(self.s.len(), |t: int| wrap(self.s[t] - o.s[t])),
        }
    }

    /// Element-wise (Hadamard) product.
    pub open spec fn mhad(self, o: MatView) -> MatView {
        MatView {
            rows: self.rows,
            cols: self.cols,
            s: Seq::new(self.s.len(), |t: int| wrap(self.s[t] * o.s[t])),
        }
    }

    /// Every element multiplied by the scalar `c`.
    pub open spec fn mscale(self, c: i64) -> MatView {
        MatView {
            rows: self.rows,
            cols: self.cols,
            s: Seq::new(self.s.len(), |t: int| wrap(self.s[t] * c)),
        }
    }

    /// Transpose: element `(i, j)` of the result is element `(j, i)` of `self`.
    pub open spec fn mt(self) -> MatView {
        MatView {
            rows: self.cols,
            cols: self.rows,
            s: Seq::new(self.s.len(), |t: int| self.idx(t % self.rows as int, t / self.rows as int)),
        }
    }

    /// The first `k` terms of the dot product of row `i` of `self` with
    /// column `j` of `o`, as an unbounded integer.
    pub open spec fn dot_to(self, o: MatView, i: int, j: int, k: nat) -> int
        decreases k,
    {
        if k == 0 {
            0
        } else {
            self.dot_to(o, i, j, (k - 1) as nat) + self.idx(i, k - 1) * o.idx(k - 1, j)
        }
    }

    /// The dot product of row `i` of `self` with column `j` of `o`,
    /// as an unbounded integer.
    pub open spec fn dot(self, o: MatView, i: int, j: int) -> int {
        self.dot_to(o, i, j, self.cols)
    }

    /// The matrix product: element `(i, j)` is the wrapped dot product of
    /// row `i` of `self` with column `j` of `o`.
    pub open spec fn mmul(self, o: MatView) -> MatView {
        MatView {
            rows: self.rows,
            cols: o.cols,
            s: Seq::new(
                self.rows * o.cols,
                |t: int| wrap(self.dot(o, t / o.cols as int, t % o.cols as int)),
            ),
        }
    }
}

/// Row-major flat position of `(i, j)` in a matrix with `cols` columns.
pub proof fn lemma_flat(i: int, j: int, cols: int)
    requires
        0 <= i,
        0 <= j < cols,
    ensures
        (i * cols + j) / cols == i,
        (i * cols + j) % cols == j,
{
    lemma_fundamental_div_mod_converse(i * cols + j, cols, i, j);
}

/// A row-major position lies inside the element sequence.
pub proof fn lemma_index_bound(i: int, j: int, m: int, n: int)
    requires
        0 <= i < m,
        0 <= j < n,
    ensures
        0 <= i * n,
        i * n + j < m * n,
{
    lemma_mul_inequality(i + 1, m, n);
    lemma_mul_is_distributive_add_other_way(n, i, 1);
    vstd::arithmetic::mul::lemma_mul_nonnegative(i, n);
}

/// Splitting a row-major position into its row and column.
pub proof fn lemma_flat_inv(t: int, m: int, n: int)
    requires
        0 <= m,
        0 <= n,
        0 <= t < m * n,
    ensures
        0 < n,
        0 <= t / n < m,
        0 <= t % n < n,
        t == (t / n) * n + t % n,
{
    if n == 0 {
        assert(m * n == 0) by (nonlinear_arith)
            requires n == 0,
        ;
        assert(false);
    }
    vstd::arithmetic::div_mod::lemma_fundamental_div_mod(t, n);
    vstd::arithmetic::div_mod::lemma_mod_division_less_than_divisor(t, n);
    lemma_div_bound(t, m, n);
    assert(t == (t / n) * n + t % n) by {
        assert(n * (t / n) == (t / n) * n) by (nonlinear_arith);
    }
}

proof fn lemma_div_bound(t: int, m: int, n: int)
    requires
        0 <= t < m * n,
        0 < n,
    ensures
        0 <= t / n < m,
{
    vstd::arithmetic::div_mod::lemma_div_pos_is_pos(t, n);
    if t / n >= m {
        lemma_mul_inequality(m, t / n, n);
        vstd::arithmetic::div_mod::lemma_fundamental_div_mod(t, n);
        vstd::arithmetic::div_mod::lemma_mod_division_less_than_divisor(t, n);
        assert((t / n) * n == n * (t / n)) by (nonlinear_arith);
        assert(false);
    }
}

/// `dot_to` is the generic sum of the products along a row and a column.
pub proof fn lemma_dot_to_is_sum(
    a: MatView,
    o: MatView,
    i: int,
    j: int,
    k: nat,
    f: spec_fn(int) -> int,
)
    requires
        forall|t: int| 0 <= t < k ==> #[trigger] f(t) == a.idx(i, t) * o.idx(t, j),
    ensures
        a.dot_to(o, i, j, k) == sum(k, f),
    decreases k,
{
    if k > 0 {
        lemma_dot_to_is_sum(a, o, i, j, (k - 1) as nat, f);
    }
}

proof fn lemma_mul_rotate(x: int, y: int, z: int)
    by (nonlinear_arith)
    ensures
        x * y * z == (y * z) * x,
{
}

/// The transpose is an involution: transposing twice gives back the matrix.
pub proof fn lemma_transpose_involutive(a: MatView)
    requires
        a.wf(),
    ensures
        a.mt().mt() == a,
{
    let m = a.rows as int;
    let n = a.cols as int;
    let tt = a.mt().mt();
    assert(tt.s.len() == a.s.len());
    assert forall|t: int| 0 <= t < a.s.len() implies tt.s[t] == a.s[t] by {
        assert(a.s.len() == m * n);
        lemma_flat_inv(t, m, n);
        let i = t / n;
        let j = t % n;
        lemma_index_bound(j, i, n, m);
        assert(n * m == m * n) by (nonlinear_arith);
        lemma_flat(j, i, m);
        assert(tt.s[t] == a.mt().s[j * m + i]);
        assert(a.mt().s[j * m + i] == a.idx(i, j));
        assert(a.idx(i, j) == a.s[t]);
    }
    assert(tt.s =~= a.s);
    assert(tt =~= a);
}

/// Matrix addition is commutative.
pub proof fn lemma_add_comm(a: MatView, b: MatView)
    requires
        a.wf(),
        b.wf(),
        a.same_shape(b),
    ensures
        a.madd(b) == b.madd(a),
{
    assert(a.madd(b).s =~= b.madd(a).s);
    assert(a.madd(b) =~= b.madd(a));
}

/// Matrix addition is associative, so accumulated contributions may be
/// merged in any grouping.
pub proof fn lemma_add_assoc(a: MatView, b: MatView, c: MatView)
    requires
        a.s.len() == b.s.len(),
        b.s.len() == c.s.len(),
    ensures
        a.madd(b).madd(c) == a.madd(b.madd(c)),
{
    assert forall|t: int| 0 <= t < a.s.len() implies a.madd(b).madd(c).s[t] == a.madd(
        b.madd(c),
    ).s[t] by {
        lemma_wrap_id(c.s[t] as int);
        lemma_wrap_add(a.s[t] + b.s[t], c.s[t] as int);
        lemma_wrap_id(a.s[t] as int);
        lemma_wrap_add(a.s[t] as int, b.s[t] + c.s[t]);
    }
    assert(a.madd(b).madd(c).s =~= a.madd(b.madd(c)).s);
    assert(a.madd(b).madd(c) =~= a.madd(b.madd(c)));
}

/// One entry of the associativity law: the wrapped dot products that make
/// up `(A·B)·C` and `A·(B·C)` agree.
proof fn lemma_entry_assoc(a: MatView, b: MatView, c: MatView, i: int, j: int)
    requires
        a.wf(),
        b.wf(),
        c.wf(),
        a.cols == b.rows,
        b.cols == c.rows,
        0 <= i < a.rows,
        0 <= j < c.cols,
    ensures
        wrap(a.mmul(b).dot(c, i, j)) == wrap(a.dot(b.mmul(c), i, j)),
{
    let ab = a.mmul(b);
    let bc = b.mmul(c);
    let na = a.cols as nat;
    let nb = b.cols as nat;

    let f1 = |k: int| ab.idx(i, k) * c.idx(k, j);
    lemma_dot_to_is_sum(ab, c, i, j, nb, f1);
    assert(ab.dot(c, i, j) == sum(nb, f1));

    let f2 = |k: int| a.dot(b, i, k) * c.idx(k, j);
    assert forall|k: int| 0 <= k < nb implies wrap(#[trigger] f1(k)) == wrap(f2(k)) by {
        lemma_index_bound(i, k, a.rows as int, b.cols as int);
        lemma_flat(i, k, b.cols as int);
        assert(ab.idx(i, k) == wrap(a.dot(b, i, k)));
        lemma_wrap_mul(a.dot(b, i, k), c.idx(k, j) as int);
        lemma_wrap_id(c.idx(k, j) as int);
    }
    crate::numeric::lemma_sum_congruent(nb, f1, f2);

    let ff = |k: int, l: int| a.idx(i, l) * b.idx(l, k) * c.idx(k, j);
    let rs = |k: int| sum(na, |l: int| ff(k, l));
    assert forall|k: int| 0 <= k < nb implies #[trigger] f2(k) == rs(k) by {
        let g = |l: int| a.idx(i, l) * b.idx(l, k);
        lemma_dot_to_is_sum(a, b, i, k, na, g);
        let h = |l: int| a.idx(i, l) * b.idx(l, k) * c.idx(k, j);
        crate::numeric::lemma_sum_scale(na, g, h, c.idx(k, j) as int);
        crate::numeric::lemma_sum_ext(na, h, |l: int| ff(k, l));
    }
    crate::numeric::lemma_sum_ext(nb, f2, rs);

    let cs = |l: int| sum(nb, |k: int| ff(k, l));
    crate::numeric::lemma_sum_swap(nb, na, ff, rs, cs);

    let f5 = |l: int| b.dot(c, l, j) * a.idx(i, l);
    assert forall|l: int| 0 <= l < na implies #[trigger] cs(l) == f5(l) by {
        let bcrow = |k: int| b.idx(l, k) * c.idx(k, j);
        let e = |k: int| (b.idx(l, k) * c.idx(k, j)) * a.idx(i, l);
        assert forall|k: int| 0 <= k < nb implies #[trigger] ff(k, l) == e(k) by {
            lemma_mul_rotate(a.idx(i, l) as int, b.idx(l, k) as int, c.idx(k, j) as int);
        }
        crate::numeric::lemma_sum_ext(nb, |k: int| ff(k, l), e);
        crate::numeric::lemma_sum_scale(nb, bcrow, e, a.idx(i, l) as int);
        lemma_dot_to_is_sum(b, c, l, j, nb, bcrow);
    }
    crate::numeric::lemma_sum_ext(na, cs, f5);

    let f4 = |l: int| a.idx(i, l) * bc.idx(l, j);
    lemma_dot_to_is_sum(a, bc, i, j, na, f4);
    assert(a.dot(bc, i, j) == sum(na, f4));
    assert forall|l: int| 0 <= l < na implies wrap(#[trigger] f4(l)) == wrap(f5(l)) by {
        lemma_index_bound(l, j, b.rows as int, c.cols as int);
        lemma_flat(l, j, c.cols as int);
        assert(bc.idx(l, j) == wrap(b.dot(c, l, j)));
        lemma_wrap_mul(a.idx(i, l) as int, b.dot(c, l, j));
        lemma_wrap_id(a.idx(i, l) as int);
        assert(a.idx(i, l) * b.dot(c, l, j) == b.dot(c, l, j) * a.idx(i, l))
            by (nonlinear_arith);
    }
    crate::numeric::lemma_sum_congruent(na, f4, f5);
}

/// The matrix product is associative: `(A·B)·C == A·(B·C)`.
pub proof fn lemma_mul_assoc(a: MatView, b: MatView, c: MatView)
    requires
        a.wf(),
        b.wf(),
        c.wf(),
        a.cols == b.rows,
        b.cols == c.rows,
    ensures
        a.mmul(b).mmul(c) == a.mmul(b.mmul(c)),
{
    let lhs = a.mmul(b).mmul(c);
    let rhs = a.mmul(b.mmul(c));
    assert(lhs.s.len() == rhs.s.len());
    assert forall|t: int| 0 <= t < lhs.s.len() implies lhs.s[t] == rhs.s[t] by {
        lemma_flat_inv(t, a.rows as int, c.cols as int);
        let i = t / (c.cols as int);
        let j = t % (c.cols as int);
        lemma_entry_assoc(a, b, c, i, j);
        assert(lhs.s[t] == wrap(a.mmul(b).dot(c, i, j)));
        assert(rhs.s[t] == wrap(a.dot(b.mmul(c), i, j)));
    }
    assert(lhs.s =~= rhs.s);
    assert(lhs =~= rhs);
}

/// A dense, row-major matrix of 64-bit scalars.
#[derive(Debug)]
pub struct Matrix {
    dim: (usize, usize),
    a: Vec<i64>,
}

impl View for Matrix {
    type V = MatView;

    closed spec fn view(&self) -> MatView {
        MatView { rows: self.dim.0 as nat, cols: self.dim.1 as nat, s: self.a@ }
    }
}

impl Clone for Matrix {
    /// A deep copy: the clone has the same dimensions and elements.
    fn clone(&self) -> (r: Self)
        ensures
            r@ == self@,
    {
        let len = self.a.len();
        let mut v: Vec<i64> = Vec::new();
        for t in 0..len
            invariant
                len == self@.s.len(),
                v@.len() == t,
                forall|q: int| 0 <= q < t ==> v@[q] == self@.s[q],
        {
            v.push(self.a[t]);
        }
        let r = Matrix { dim: self.dim, a: v };
        proof {
            assert(r@.s =~= self@.s);
            assert(r@ =~= self@);
        }
        r
    }
}

impl Matrix {
    /// The dimensions and the element count agree.
    pub open spec fn wf(&self) -> bool {
        self@.wf()
    }

    /// An empty matrix with the given dimensions and no initial data.
    pub fn new(dim: (usize, usize)) -> (r: Matrix)
        ensures
            r@.rows == dim.0,
            r@.cols == dim.1,
            r@.s == Seq::<i64>::empty(),
    {
        Matrix { a: Vec::new(), dim }
    }

    /// A matrix over an explicit flat buffer; fails with `ShapeMismatch`
    /// when the buffer does not hold exactly `rows * cols` elements.
    pub fn with_vec(dim: (usize, usize), v: Vec<i64>) -> (r: Result<Matrix, MatError>)
        ensures
            r is Ok <==> v@.len() == (dim.0 as int) * (dim.1 as int),
            r matches Ok(m) ==> m@ == (MatView {
                rows: dim.0 as nat,
                cols: dim.1 as nat,
                s: v@,
            }) && m.wf(),
            r matches Err(e) ==> e == MatError::ShapeMismatch,
    {
        let (m, n) = dim;
        let vl = v.len();
        if let Some(p) = m.checked_mul(n) {
            if p == vl {
                return Ok(Matrix { dim, a: v });
            }
        }
        Err(MatError::ShapeMismatch)
    }

    /// A matrix of uniformly drawn elements, each in `low..high`.
    pub fn new_rand(dim: (usize, usize), low: i64, high: i64) -> (r: Matrix)
        requires
            (dim.0 as int) * (dim.1 as int) <= usize::MAX,
            low < high,
        ensures
            r.wf(),
            r@.rows == dim.0,
            r@.cols == dim.1,
            forall|t: int| 0 <= t < r@.s.len() ==> low <= #[trigger] r@.s[t] < high,
    {
        let total = dim.0 * dim.1;
        let mut v: Vec<i64> = Vec::new();
        for t in 0..total
            invariant
                low < high,
                v@.len() == t,
                forall|q: int| 0 <= q < t ==> low <= #[trigger] v@[q] < high,
        {
            v.push(crate::rng::rand_range(low, high));
        }
        Matrix { dim, a: v }
    }

    /// A matrix with every element equal to `c`.
    pub fn new_const(dim: (usize, usize), c: i64) -> (r: Matrix)
        requires
            (dim.0 as int) * (dim.1 as int) <= usize::MAX,
        ensures
            r.wf(),
            r@.rows == dim.0,
            r@.cols == dim.1,
            forall|t: int| 0 <= t < r@.s.len() ==> r@.s[t] == c,
    {
        let total = dim.0 * dim.1;
        let v = vec![c; total];
        Matrix { dim, a: v }
    }

    /// Whether the element count agrees with the dimensions.
    pub fn is_wf(&self) -> (r: bool)
        ensures
            r == self.wf(),
    {
        let (m, n) = self.dim;
        let al = self.a.len();
        match m.checked_mul(n) {
            Some(p) => p == al,
            None => false,
        }
    }

    /// The number of elements.
    pub fn len(&self) -> (r: usize)
        ensures
            r == self@.s.len(),
    {
        self.a.len()
    }

    /// The dimension pair `(rows, cols)`.
    pub fn dim(&self) -> (r: (usize, usize))
        ensures
            r.0 == self@.rows,
            r.1 == self@.cols,
    {
        self.dim
    }

    /// The flat row-major element buffer.
    pub fn data(&self) -> (r: &Vec<i64>)
        ensures
            r@ == self@.s,
    {
        &self.a
    }

    /// Zero-based flat access; fails with `IndexOutOfBounds` past the end.
    pub fn get(&self, i: usize) -> (r: Result<i64, MatError>)
        ensures
            r is Ok <==> i < self@.s.len(),
            r matches Ok(v) ==> v == self@.s[i as int],
            r matches Err(e) ==> e == MatError::IndexOutOfBounds,
    {
        if i < self.a.len() {
            Ok(self.a[i])
        } else {
            Err(MatError::IndexOutOfBounds)
        }
    }

    /// Element-wise sum; fails with `ShapeMismatch` unless the shapes agree.
    pub fn add(&self, rhs: &Matrix) -> (r: Result<Matrix, MatError>)
        requires
            self.wf(),
            rhs.wf(),
        ensures
            r is Ok <==> self@.same_shape(rhs@),
            r matches Ok(m) ==> m@ == self@.madd(rhs@) && m.wf(),
            r matches Err(e) ==> e == MatError::ShapeMismatch,
    {
        if self.dim.0 != rhs.dim.0 || self.dim.1 != rhs.dim.1 {
            return Err(MatError::ShapeMismatch);
        }
        let mut v: Vec<i64> = Vec::new();
        let len = self.a.len();
        for t in 0..len
            invariant
                len == self@.s.len(),
                self@.s.len() == rhs@.s.len(),
                v@.len() == t,
                forall|q: int| 0 <= q < t ==> v@[q] == wrap(self@.s[q] + rhs@.s[q]),
        {
            v.push(wadd(self.a[t], rhs.a[t]));
        }
        let m = Matrix { dim: self.dim, a: v };
        proof {
            assert(m@.s =~= self@.madd(rhs@).s);
            assert(m@ =~= self@.madd(rhs@));
        }
        Ok(m)
    }

    /// Element-wise difference; fails with `ShapeMismatch` unless the shapes agree.
    pub fn sub(&self, rhs: &Matrix) -> (r: Result<Matrix, MatError>)
        requires
            self.wf(),
            rhs.wf(),
        ensures
            r is Ok <==> self@.same_shape(rhs@),
            r matches Ok(m) ==> m@ == self@.msub(rhs@) && m.wf(),
            r matches Err(e) ==> e == MatError::ShapeMismatch,
    {
        if self.dim.0 != rhs.dim.0 || self.dim.1 != rhs.dim.1 {
            return Err(MatError::ShapeMismatch);
        }
        let mut v: Vec<i64> = Vec::new();
        let len = self.a.len();
        for t in 0..len
            invariant
                len == self@.s.len(),
                self@.s.len() == rhs@.s.len(),
                v@.len() == t,
                forall|q: int| 0 <= q < t ==> v@[q] == wrap(self@.s[q] - rhs@.s[q]),
        {
            v.push(wsub(self.a[t], rhs.a[t]));
        }
        let m = Matrix { dim: self.dim, a: v };
        proof {
            assert(m@.s =~= self@.msub(rhs@).s);
            assert(m@ =~= self@.msub(rhs@));
        }
        Ok(m)
    }

    /// Adds `rhs` into `self`'s buffer in place; fails with `ShapeMismatch`,
    /// and changes nothing, unless the shapes agree.
    pub fn add_by(&mut self, rhs: &Matrix) -> (r: Result<(), MatError>)
        requires
            old(self).wf(),
            rhs.wf(),
        ensures
            final(self).wf(),
            r is Ok <==> old(self)@.same_shape(rhs@),
            r is Ok ==> final(self)@ == old(self)@.madd(rhs@),
            r is Err ==> final(self)@ == old(self)@,
            r matches Err(e) ==> e == MatError::ShapeMismatch,
    {
        if self.dim.0 != rhs.dim.0 || self.dim.1 != rhs.dim.1 {
            return Err(MatError::ShapeMismatch);
        }
        let len = self.a.len();
        for t in 0..len
            invariant
                self.dim == old(self).dim,
                self@.s.len() == old(self)@.s.len(),
                len == self@.s.len(),
                self@.s.len() == rhs@.s.len(),
                forall|q: int| 0 <= q < t ==> self@.s[q] == wrap(old(self)@.s[q] + rhs@.s[q]),
                forall|q: int| t <= q < len ==> self@.s[q] == old(self)@.s[q],
        {
            self.a[t] = wadd(self.a[t], rhs.a[t]);
        }
        proof {
            assert(self@.s =~= old(self)@.madd(rhs@).s);
            assert(self@ =~= old(self)@.madd(rhs@));
        }
        Ok(())
    }

    /// Element-wise product; fails with `ShapeMismatch` unless the shapes agree.
    pub fn h_prod(&self, rhs: &Matrix) -> (r: Result<Matrix, MatError>)
        requires
            self.wf(),
            rhs.wf(),
        ensures
            r is Ok <==> self@.same_shape(rhs@),
            r matches Ok(m) ==> m@ == self@.mhad(rhs@) && m.wf(),
            r matches Err(e) ==> e == MatError::ShapeMismatch,
    {
        if self.dim.0 != rhs.dim.0 || self.dim.1 != rhs.dim.1 {
            return Err(MatError::ShapeMismatch);
        }
        let mut v: Vec<i64> = Vec::new();
        let len = self.a.len();
        for t in 0..len
            invariant
                len == self@.s.len(),
                self@.s.len() == rhs@.s.len(),
                v@.len() == t,
                forall|q: int| 0 <= q < t ==> v@[q] == wrap(self@.s[q] * rhs@.s[q]),
        {
            v.push(wmul(self.a[t], rhs.a[t]));
        }
        let m = Matrix { dim: self.dim, a: v };
        proof {
            assert(m@.s =~= self@.mhad(rhs@).s);
            assert(m@ =~= self@.mhad(rhs@));
        }
        Ok(m)
    }

    /// Every element multiplied by the scalar `c`.
    pub fn scale(&self, c: i64) -> (r: Matrix)
        requires
            self.wf(),
        ensures
            r@ == self@.mscale(c),
            r.wf(),
    {
        let mut v: Vec<i64> = Vec::new();
        let len = self.a.len();
        for t in 0..len
            invariant
                len == self@.s.len(),
                v@.len() == t,
                forall|q: int| 0 <= q < t ==> v@[q] == wrap(self@.s[q] * c),
        {
            v.push(wmul(self.a[t], c));
        }
        let m = Matrix { dim: self.dim, a: v };
        proof {
            assert(m@.s =~= self@.mscale(c).s);
            assert(m@ =~= self@.mscale(c));
        }
        m
    }

    /// The transpose of `self`.
    pub fn t(&self) -> (r: Matrix)
        requires
            self.wf(),
        ensures
            r@ == self@.mt(),
            r.wf(),
    {
        let (m, n) = self.dim;
        let len = self.a.len();
        let mut v: Vec<i64> = Vec::new();
        proof {
            assert(v@.len() == 0);
            assert(0int * (m as int) == 0);
        }
        for i in 0..n
            invariant
                m == self@.rows,
                n == self@.cols,
                len == self@.s.len(),
                self.wf(),
                v@.len() == i * m,
                forall|q: int| 0 <= q < v@.len() ==> v@[q] == self@.mt().s[q],
        {
            for j in 0..m
                invariant
                    m == self@.rows,
                    n == self@.cols,
                    len == self@.s.len(),
                    self.wf(),
                    i < n,
                    v@.len() == i * m + j,
                    forall|q: int| 0 <= q < v@.len() ==> v@[q] == self@.mt().s[q],
            {
                proof {
                    lemma_index_bound(j as int, i as int, m as int, n as int);
                    lemma_index_bound(i as int, j as int, n as int, m as int);
                    lemma_flat(i as int, j as int, m as int);
                    assert(self@.mt().s[i as int * m + j] == self@.s[j as int * n + i]);
                }
                v.push(self.a[j * n + i]);
            }
            proof {
                lemma_mul_is_distributive_add_other_way(m as int, i as int, 1);
            }
        }
        let r = Matrix { dim: (n, m), a: v };
        proof {
            assert(v@.len() == n as int * m as int);
            assert(self@.mt().s.len() == self@.s.len());
            assert(self@.s.len() == m as int * n as int);
            assert(m as int * n as int == n as int * m as int) by (nonlinear_arith);
            assert(forall|q: int| 0 <= q < v@.len() ==> v@[q] == self@.mt().s[q]);
            assert(r@.s =~= self@.mt().s);
            assert(r@ =~= self@.mt());
        }
        r
    }

    /// The matrix product `self · rhs`; fails with `ShapeMismatch` unless
    /// `self` has as many columns as `rhs` has rows.
    pub fn mul(&self, rhs: &Matrix) -> (r: Result<Matrix, MatError>)
        requires
            self.wf(),
            rhs.wf(),
        ensures
            r is Ok <==> self@.cols == rhs@.rows,
            r matches Ok(p) ==> p@ == self@.mmul(rhs@) && p.wf(),
            r matches Err(e) ==> e == MatError::ShapeMismatch,
    {
        let (m, n) = self.dim;
        let (m1, n1) = rhs.dim;
        if n != m1 {
            return Err(MatError::ShapeMismatch);
        }
        let alen = self.a.len();
        let blen = rhs.a.len();
        let mut v: Vec<i64> = Vec::new();
        proof {
            assert(v@.len() == 0);
            assert(0int * (n1 as int) == 0);
        }
        for i in 0..m
            invariant
                m == self@.rows,
                n == self@.cols,
                m1 == rhs@.rows,
                n1 == rhs@.cols,
                n == m1,
                alen == self@.s.len(),
                blen == rhs@.s.len(),
                self.wf(),
                rhs.wf(),
                v@.len() == i * n1,
                forall|q: int| 0 <= q < v@.len() ==> v@[q] == self@.mmul(rhs@).s[q],
        {
            for j in 0..n1
                invariant
                    m == self@.rows,
                    n == self@.cols,
                    m1 == rhs@.rows,
                    n1 == rhs@.cols,
                    n == m1,
                    alen == self@.s.len(),
                    blen == rhs@.s.len(),
                    self.wf(),
                    rhs.wf(),
                    i < m,
                    v@.len() == i * n1 + j,
                    forall|q: int| 0 <= q < v@.len() ==> v@[q] == self@.mmul(rhs@).s[q],
            {
                let mut acc: i64 = 0;
                for k in 0..n
                    invariant
                        m == self@.rows,
                        n == self@.cols,
                        m1 == rhs@.rows,
                        n1 == rhs@.cols,
                        n == m1,
                        alen == self@.s.len(),
                        blen == rhs@.s.len(),
                        self.wf(),
                        rhs.wf(),
                        i < m,
                        j < n1,
                        acc == wrap(self@.dot_to(rhs@, i as int, j as int, k as nat)),
                {
                    proof {
                        lemma_index_bound(i as int, k as int, m as int, n as int);
                        lemma_index_bound(k as int, j as int, m1 as int, n1 as int);
                        lemma_wrap_add(
                            self@.dot_to(rhs@, i as int, j as int, k as nat),
                            self@.idx(i as int, k as int) * rhs@.idx(k as int, j as int),
                        );
                    }
                    let p = wmul(self.a[i * n + k], rhs.a[k * n1 + j]);
                    acc = wadd(acc, p);
                    proof {
                        assert(acc == wrap(self@.dot_to(rhs@, i as int, j as int, (k + 1) as nat)));
                    }
                }
                proof {
                    lemma_index_bound(i as int, j as int, m as int, n1 as int);
                    lemma_flat(i as int, j as int, n1 as int);
                    assert(self@.mmul(rhs@).s[i as int * n1 + j]
                        == wrap(self@.dot(rhs@, i as int, j as int)));
                }
                v.push(acc);
            }
            proof {
                lemma_mul_is_distributive_add_other_way(n1 as int, i as int, 1);
            }
        }
        let p = Matrix { dim: (m, n1), a: v };
        proof {
            assert(p@.s =~= self@.mmul(rhs@).s);
            assert(p@ =~= self@.mmul(rhs@));
        }
        Ok(p)
    }

    /// The fused product `self · rhsᵗ`, computed without materializing the
    /// transpose; fails with `ShapeMismatch` unless the column counts agree.
    pub fn mul_tr(&self, rhs: &Matrix) -> (r: Result<Matrix, MatError>)
        requires
            self.wf(),
            rhs.wf(),
        ensures
            r is Ok <==> self@.cols == rhs@.cols,
            r matches Ok(p) ==> p@ == self@.mmul(rhs@.mt()) && p.wf(),
            r matches Err(e) ==> e == MatError::ShapeMismatch,
    {
        let (m, n) = self.dim;
        let (m1, n1) = rhs.dim;
        if n != n1 {
            return Err(MatError::ShapeMismatch);
        }
        let alen = self.a.len();
        let blen = rhs.a.len();
        let mut v: Vec<i64> = Vec::new();
        proof {
            assert(v@.len() == 0);
            assert(0int * (m1 as int) == 0);
        }
        for i in 0..m
            invariant
                m == self@.rows,
                n == self@.cols,
                m1 == rhs@.rows,
                n1 == rhs@.cols,
                n == n1,
                alen == self@.s.len(),
                blen == rhs@.s.len(),
                self.wf(),
                rhs.wf(),
                v@.len() == i * m1,
                forall|q: int| 0 <= q < v@.len() ==> v@[q] == self@.mmul(rhs@.mt()).s[q],
        {
            for j in 0..m1
                invariant
                    m == self@.rows,
                    n == self@.cols,
                    m1 == rhs@.rows,
                    n1 == rhs@.cols,
                    n == n1,
                    alen == self@.s.len(),
                    blen == rhs@.s.len(),
                    self.wf(),
                    rhs.wf(),
                    i < m,
                    v@.len() == i * m1 + j,
                    forall|q: int| 0 <= q < v@.len() ==> v@[q] == self@.mmul(rhs@.mt()).s[q],
            {
                let mut acc: i64 = 0;
                for k in 0..n
                    invariant
                        m == self@.rows,
                        n == self@.cols,
                        m1 == rhs@.rows,
                        n1 == rhs@.cols,
                        n == n1,
                        alen == self@.s.len(),
                        blen == rhs@.s.len(),
                        self.wf(),
                        rhs.wf(),
                        i < m,
                        j < m1,
                        acc == wrap(self@.dot_to(rhs@.mt(), i as int, j as int, k as nat)),
                {
                    proof {
                        lemma_index_bound(i as int, k as int, m as int, n as int);
                        lemma_index_bound(j as int, k as int, m1 as int, n1 as int);
                        lemma_index_bound(k as int, j as int, n1 as int, m1 as int);
                        lemma_flat(k as int, j as int, m1 as int);
                        assert(n1 as int * m1 as int == m1 as int * n1 as int)
                            by (nonlinear_arith);
                        assert(rhs@.mt().idx(k as int, j as int) == rhs@.idx(j as int, k as int));
                        lemma_wrap_add(
                            self@.dot_to(rhs@.mt(), i as int, j as int, k as nat),
                            self@.idx(i as int, k as int) * rhs@.mt().idx(k as int, j as int),
                        );
                    }
                    let p = wmul(self.a[i * n + k], rhs.a[j * n1 + k]);
                    acc = wadd(acc, p);
                    proof {
                        assert(acc == wrap(
                            self@.dot_to(rhs@.mt(), i as int, j as int, (k + 1) as nat),
                        ));
                    }
                }
                proof {
                    lemma_index_bound(i as int, j as int, m as int, m1 as int);
                    lemma_flat(i as int, j as int, m1 as int);
                    assert(self@.mmul(rhs@.mt()).s[i as int * m1 + j]
                        == wrap(self@.dot(rhs@.mt(), i as int, j as int)));
                }
                v.push(acc);
            }
            proof {
                lemma_mul_is_distributive_add_other_way(m1 as int, i as int, 1);
            }
        }
        let p = Matrix { dim: (m, m1), a: v };
        proof {
            assert(p@.s =~= self@.mmul(rhs@.mt()).s);
            assert(p@ =~= self@.mmul(rhs@.mt()));
        }
        Ok(p)
    }

    /// The fused product `selfᵗ · rhs`, computed without materializing the
    /// transpose; fails with `ShapeMismatch` unless the row counts agree.
    pub fn mul_tl(&self, rhs: &Matrix) -> (r: Result<Matrix, MatError>)
        requires
            self.wf(),
            rhs.wf(),
        ensures
            r is Ok <==> self@.rows == rhs@.rows,
            r matches Ok(p) ==> p@ == self@.mt().mmul(rhs@) && p.wf(),
            r matches Err(e) ==> e == MatError::ShapeMismatch,
    {
        let (m, n) = self.dim;
        let (m1, n1) = rhs.dim;
        if m != m1 {
            return Err(MatError::ShapeMismatch);
        }
        let alen = self.a.len();
        let blen = rhs.a.len();
        let mut v: Vec<i64> = Vec::new();
        proof {
            assert(v@.len() == 0);
            assert(0int * (n1 as int) == 0);
        }
        for i in 0..n
            invariant
                m == self@.rows,
                n == self@.cols,
                m1 == rhs@.rows,
                n1 == rhs@.cols,
                m == m1,
                alen == self@.s.len(),
                blen == rhs@.s.len(),
                self.wf(),
                rhs.wf(),
                v@.len() == i * n1,
                forall|q: int| 0 <= q < v@.len() ==> v@[q] == self@.mt().mmul(rhs@).s[q],
        {
            for j in 0..n1
                invariant
                    m == self@.rows,
                    n == self@.cols,
                    m1 == rhs@.rows,
                    n1 == rhs@.cols,
                    m == m1,
                    alen == self@.s.len(),
                    blen == rhs@.s.len(),
                    self.wf(),
                    rhs.wf(),
                    i < n,
                    v@.len() == i * n1 + j,
                    forall|q: int| 0 <= q < v@.len() ==> v@[q] == self@.mt().mmul(rhs@).s[q],
            {
                let mut acc: i64 = 0;
                for k in 0..m
                    invariant
                        m == self@.rows,
                        n == self@.cols,
                        m1 == rhs@.rows,
                        n1 == rhs@.cols,
                        m == m1,
                        alen == self@.s.len(),
                        blen == rhs@.s.len(),
                        self.wf(),
                        rhs.wf(),
                        i < n,
                        j < n1,
                        acc == wrap(self@.mt().dot_to(rhs@, i as int, j as int, k as nat)),
                {
                    proof {
                        lemma_index_bound(k as int, i as int, m as int, n as int);
                        lemma_index_bound(k as int, j as int, m1 as int, n1 as int);
                        lemma_index_bound(i as int, k as int, n as int, m as int);
                        lemma_flat(i as int, k as int, m as int);
                        assert(m as int * n as int == n as int * m as int)
                            by (nonlinear_arith);
                        assert(self@.mt().idx(i as int, k as int) == self@.idx(k as int, i as int));
                        lemma_wrap_add(
                            self@.mt().dot_to(rhs@, i as int, j as int, k as nat),
                            self@.mt().idx(i as int, k as int) * rhs@.idx(k as int, j as int),
                        );
                    }
                    let p = wmul(self.a[k * n + i], rhs.a[k * n1 + j]);
                    acc = wadd(acc, p);
                    proof {
                        assert(acc == wrap(
                            self@.mt().dot_to(rhs@, i as int, j as int, (k + 1) as nat),
                        ));
                    }
                }
                proof {
                    lemma_index_bound(i as int, j as int, n as int, n1 as int);
                    lemma_flat(i as int, j as int, n1 as int);
                    assert(self@.mt().mmul(rhs@).s[i as int * n1 + j]
                        == wrap(self@.mt().dot(rhs@, i as int, j as int)));
                }
                v.push(acc);
            }
            proof {
                lemma_mul_is_distributive_add_other_way(n1 as int, i as int, 1);
            }
        }
        let p = Matrix { dim: (n, n1), a: v };
        proof {
            assert(p@.s =~= self@.mt().mmul(rhs@).s);
            assert(p@ =~= self@.mt().mmul(rhs@));
        }
        Ok(p)
    }
}

} // verus!
