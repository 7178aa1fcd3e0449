//! Decoding of the fixed-header IDX data-set format into matrices.
//!
//! A file starts with a big-endian magic word whose low bits give the
//! number of dimensions, followed by the element count.  A
//! one-dimensional file holds class labels, one byte each, decoded to
//! ten-row one-hot columns; a three-dimensional file holds images of
//! `rows × cols` bytes each, decoded to flat columns.  Reading the bytes
//! from disk is the caller's concern; this module only decodes them, and
//! answers malformed input with [`MatError::DataLoad`].

use vstd::prelude::*;
use vstd::arithmetic::div_mod::{lemma_fundamental_div_mod, lemma_mod_division_less_than_divisor};
use vstd::arithmetic::mul::lemma_mul_inequality;
use crate::matrix::{MatError, MatView, Matrix};

verus! {

/// The number of classes a label decodes to.
pub open spec fn class_count() -> int {
    10
}

/// The big-endian 32-bit word at `off`.
pub open spec fn be32(b: Seq<u8>, off: int) -> int {
    b[off] * 0x100_0000 + b[off + 1] * 0x1_0000 + b[off + 2] * 0x100 + b[off + 3]
}

/// The dimension count encoded in the magic word.
pub open spec fn idx_dim(b: Seq<u8>) -> int {
    be32(b, 0) % 8
}

/// How many labels a one-dimensional file yields, capped at `num`.
pub open spec fn labels_count(b: Seq<u8>, num: int) -> int {
    if b.len() - 8 < num {
        b.len() - 8
    } else {
        num
    }
}

/// Every label byte that will be decoded names one of the classes.
pub open spec fn labels_ok(b: Seq<u8>, num: int) -> bool {
    forall|i: int| 0 <= i < labels_count(b, num) ==> #[trigger] b[8 + i] < class_count()
}

/// The one-hot column for class `c`.
pub open spec fn one_hot_view(c: u8) -> MatView {
    MatView {
        rows: class_count() as nat,
        cols: 1,
        s: Seq::new(class_count() as nat, |t: int| if t == c { 1i64 } else { 0i64 }),
    }
}

/// The element count of one image: header rows times header columns.
pub open spec fn img_size(b: Seq<u8>) -> int {
    be32(b, 8) * be32(b, 12)
}

/// How many complete images the file holds, capped at `num`.
pub open spec fn img_count(b: Seq<u8>, num: int) -> int {
    if (b.len() - 16) / img_size(b) < num {
        (b.len() - 16) / img_size(b)
    } else {
        num
    }
}

/// The flat column of image `i`.
pub open spec fn img_view(b: Seq<u8>, i: int) -> MatView {
    MatView {
        rows: img_size(b) as nat,
        cols: 1,
        s: Seq::new(img_size(b) as nat, |t: int| b[16 + i * img_size(b) + t] as i64),
    }
}

/// When the bytes decode at all: a complete header, a known dimension
/// count, in-range labels or a non-empty machine-sized image shape.
pub open spec fn idx_ok(b: Seq<u8>, num: int) -> bool {
    &&& b.len() >= 8
    &&& (idx_dim(b) == 1 || idx_dim(b) == 3)
    &&& (idx_dim(b) == 1 ==> labels_ok(b, num))
    &&& (idx_dim(b) == 3 ==> b.len() >= 16 && 1 <= img_size(b) <= usize::MAX)
}

/// The big-endian 32-bit word at `off`.
fn read_be32(bytes: &Vec<u8>, off: usize) -> (r: u32)
    requires
        off + 4 <= bytes@.len(),
    ensures
        r == be32(bytes@, off as int),
{
    let _bl = bytes.len();
    let b0 = bytes[off] as u32;
    let b1 = bytes[off + 1] as u32;
    let b2 = bytes[off + 2] as u32;
    let b3 = bytes[off + 3] as u32;
    b0 * 0x100_0000 + b1 * 0x1_0000 + b2 * 0x100 + b3
}

/// Decodes an IDX byte stream into at most `num_vals` matrices: ten-row
/// one-hot label columns for a one-dimensional file, flat image columns
/// for a three-dimensional one.  Fails with `DataLoad`, and only then,
/// when the header is short or unknown, a label byte is out of range, or
/// the image shape is empty or exceeds the machine's address range.
pub fn parse_idx(bytes: &Vec<u8>, num_vals: usize) -> (r: Result<Vec<Matrix>, MatError>)
    ensures
        r is Ok <==> idx_ok(bytes@, num_vals as int),
        r matches Err(e) ==> e == MatError::DataLoad,
        r matches Ok(v) ==> forall|i: int| 0 <= i < v@.len() ==> (#[trigger] v@[i]).wf(),
        r matches Ok(v) ==> (idx_dim(bytes@) == 1 ==> v@.len() == labels_count(
            bytes@,
            num_vals as int,
        ) && forall|i: int| 0 <= i < v@.len() ==> (#[trigger] v@[i])@ == one_hot_view(
            bytes@[8 + i],
        )),
        r matches Ok(v) ==> (idx_dim(bytes@) == 3 ==> v@.len() == img_count(
            bytes@,
            num_vals as int,
        ) && forall|i: int| 0 <= i < v@.len() ==> (#[trigger] v@[i])@ == img_view(bytes@, i)),
{
    let blen = bytes.len();
    if blen < 8 {
        return Err(MatError::DataLoad);
    }
    let magic = read_be32(bytes, 0);
    let dim = magic % 8;
    if dim == 1 {
        let avail = blen - 8;
        let count = if avail < num_vals {
            avail
        } else {
            num_vals
        };
        let mut r: Vec<Matrix> = Vec::new();
        for i in 0..count
            invariant
                blen == bytes@.len(),
                blen >= 8,
                count == labels_count(bytes@, num_vals as int),
                count <= blen - 8,
                idx_dim(bytes@) == 1,
                forall|q: int| 0 <= q < i ==> #[trigger] bytes@[8 + q] < class_count(),
                r@.len() == i,
                forall|q: int| 0 <= q < i ==> (#[trigger] r@[q]).wf(),
                forall|q: int| 0 <= q < i ==> (#[trigger] r@[q])@ == one_hot_view(bytes@[8 + q]),
        {
            let c = bytes[8 + i];
            if c >= 10 {
                return Err(MatError::DataLoad);
            }
            let mut v: Vec<i64> = Vec::new();
            for t in 0..10usize
                invariant
                    c < 10,
                    v@.len() == t,
                    forall|q: int| 0 <= q < t ==> v@[q] == (if q == c { 1i64 } else { 0i64 }),
            {
                if t == c as usize {
                    v.push(1);
                } else {
                    v.push(0);
                }
            }
            let m = match Matrix::with_vec((10, 1), v) {
                Ok(m) => m,
                Err(_) => {
                    proof {
                        assert(false);
                    }
                    return Err(MatError::DataLoad);
                }
            };
            proof {
                assert(m@.s =~= one_hot_view(bytes@[8 + i]).s);
                assert(m@ =~= one_hot_view(bytes@[8 + i]));
            }
            r.push(m);
        }
        Ok(r)
    } else if dim == 3 {
        if blen < 16 {
            return Err(MatError::DataLoad);
        }
        let m = read_be32(bytes, 8) as usize;
        let n = read_be32(bytes, 12) as usize;
        let p = match m.checked_mul(n) {
            Some(p) => p,
            None => {
                return Err(MatError::DataLoad);
            }
        };
        if p == 0 {
            return Err(MatError::DataLoad);
        }
        proof {
            assert(p == img_size(bytes@));
        }
        let avail = (blen - 16) / p;
        let count = if avail < num_vals {
            avail
        } else {
            num_vals
        };
        proof {
            lemma_fundamental_div_mod(blen - 16, p as int);
            lemma_mod_division_less_than_divisor(blen - 16, p as int);
            assert((p as int) * ((blen - 16) / (p as int)) <= blen - 16);
            lemma_mul_inequality(count as int, (blen - 16) / (p as int), p as int);
            assert((count as int) * (p as int) == (p as int) * (count as int))
                by (nonlinear_arith);
            assert(((blen - 16) / (p as int)) * (p as int) == (p as int) * ((blen - 16) / (
            p as int)))
                by (nonlinear_arith);
        }
        let mut r: Vec<Matrix> = Vec::new();
        for i in 0..count
            invariant
                blen == bytes@.len(),
                blen >= 16,
                1 <= p,
                p == img_size(bytes@),
                count == img_count(bytes@, num_vals as int),
                (p as int) * (count as int) <= blen - 16,
                idx_dim(bytes@) == 3,
                r@.len() == i,
                forall|q: int| 0 <= q < i ==> (#[trigger] r@[q]).wf(),
                forall|q: int| 0 <= q < i ==> (#[trigger] r@[q])@ == img_view(bytes@, q),
        {
            proof {
                lemma_mul_inequality(i as int + 1, count as int, p as int);
                assert((i as int + 1) * (p as int) == (i as int) * (p as int) + 1 * (p as int))
                    by (nonlinear_arith);
                assert((i as int + 1) * (p as int) <= (count as int) * (p as int)) by {
                    lemma_mul_inequality(i as int + 1, count as int, p as int);
                }
                assert((count as int) * (p as int) == (p as int) * (count as int))
                    by (nonlinear_arith);
                assert((i as int) * (p as int) + (p as int) <= blen - 16);
            }
            let mut v: Vec<i64> = Vec::new();
            let base = 16 + i * p;
            for t in 0..p
                invariant
                    blen == bytes@.len(),
                    p >= 1,
                    base == 16 + (i as int) * (p as int),
                    base + p <= blen,
                    v@.len() == t,
                    forall|q: int| 0 <= q < t ==> v@[q] == bytes@[base + q] as i64,
            {
                v.push(bytes[base + t] as i64);
            }
            let im = match Matrix::with_vec((p, 1), v) {
                Ok(m) => m,
                Err(_) => {
                    proof {
                        assert((p as int) * 1 == p as int) by (nonlinear_arith);
                        assert(false);
                    }
                    return Err(MatError::DataLoad);
                }
            };
            proof {
                assert(im@.s =~= img_view(bytes@, i as int).s);
                assert(im@ =~= img_view(bytes@, i as int));
            }
            r.push(im);
        }
        Ok(r)
    } else {
        Err(MatError::DataLoad)
    }
}

} // verus!
