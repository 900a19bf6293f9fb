//! Walking through all points of a mesh, the last coordinate running fastest.

use crate::arrays::{index_in, ints, nonzero_product, product, row_major};
use vstd::arithmetic::div_mod::{lemma_div_multiples_vanish_fancy, lemma_fundamental_div_mod};
use vstd::prelude::*;

verus! {

/// The point with number `i` of a mesh.
pub open spec fn unravel(dims: Seq<usize>, i: int) -> Seq<int>
    decreases dims.len(),
{
    if dims.len() == 0 {
        seq![]
    } else {
        unravel(dims.drop_last(), i / dims.last() as int).push(i % dims.last() as int)
    }
}

/// Every number below the size of the mesh is the number of one of its points.
pub proof fn lemma_unravel(dims: Seq<usize>, i: int)
    requires
        0 <= i < product(dims),
    ensures
        index_in(dims, unravel(dims, i)),
        row_major(dims, unravel(dims, i)) == i,
    decreases dims.len(),
{
    if dims.len() > 0 {
        let d = dims.last() as int;
        let head = dims.drop_last();
        let p = product(head) as int;
        assert(d > 0) by (nonlinear_arith)
            requires
                0 <= i < p * d,
                d >= 0,
        ;
        assert(0 <= i / d < p) by (nonlinear_arith)
            requires
                0 <= i < p * d,
                d > 0,
        ;
        lemma_unravel(head, i / d);
        lemma_fundamental_div_mod(i, d);
        let u = unravel(dims, i);
        assert(u.drop_last() =~= unravel(head, i / d));
        assert((i / d) * d + i % d == i) by (nonlinear_arith)
            requires
                i == d * (i / d) + i % d,
        ;
        assert forall|k: int| 0 <= k < dims.len() implies 0 <= #[trigger] u[k] < dims[k] by {
            if k < head.len() {
                assert(u[k] == unravel(head, i / d)[k]);
                assert(dims[k] == head[k]);
            }
        }
    }
}

/// Every point of the mesh has a number below the mesh's size, and is found by it.
pub proof fn lemma_row_major(dims: Seq<usize>, index: Seq<int>)
    requires
        index_in(dims, index),
    ensures
        0 <= row_major(dims, index) < product(dims),
        unravel(dims, row_major(dims, index)) == index,
    decreases dims.len(),
{
    if dims.len() > 0 {
        let d = dims.last() as int;
        let head = dims.drop_last();
        let rest = index.drop_last();
        let last = index.last();
        assert(0 <= index[dims.len() - 1] < dims[dims.len() - 1]);
        assert forall|k: int| 0 <= k < head.len() implies 0 <= #[trigger] rest[k] < head[k] by {
            assert(rest[k] == index[k]);
            assert(head[k] == dims[k]);
        }
        lemma_row_major(head, rest);
        let q = row_major(head, rest);
        let p = product(head) as int;
        assert(0 <= q * d + last < p * d) by (nonlinear_arith)
            requires
                0 <= q < p,
                0 <= last < d,
        ;
        assert(q * d == d * q) by (nonlinear_arith);
        lemma_div_multiples_vanish_fancy(q, last, d);
        lemma_fundamental_div_mod(q * d + last, d);
        assert(d * ((q * d + last) / d) == d * q);
        assert((q * d + last) % d == last);
        assert(unravel(dims, row_major(dims, index)) =~= index);
    } else {
        assert(unravel(dims, row_major(dims, index)) =~= index);
    }
}

/// Of a mesh that is not empty, every axis divides its size.
pub proof fn lemma_product_positive(dims: Seq<usize>)
    ensures
        nonzero_product(dims) >= 1,
        product(dims) == 0 || product(dims) == nonzero_product(dims),
    decreases dims.len(),
{
    if dims.len() > 0 {
        let d = dims.last() as nat;
        lemma_product_positive(dims.drop_last());
        let p = product(dims.drop_last());
        let q = nonzero_product(dims.drop_last());
        if d == 0 {
            assert(p * d == 0) by (nonlinear_arith)
                requires
                    d == 0,
            ;
        } else {
            assert(q * d >= 1) by (nonlinear_arith)
                requires
                    q >= 1,
                    d >= 1,
            ;
            if p == 0 {
                assert(p * d == 0) by (nonlinear_arith)
                    requires
                        p == 0,
                ;
            }
        }
    }
}

/// The point with number `i` of a mesh.
pub fn mesh_point(dims: &[usize], i: usize) -> (r: Vec<usize>)
    requires
        i < product(dims@),
    ensures
        ints(r@) == unravel(dims@, i as int),
        index_in(dims@, ints(r@)),
        row_major(dims@, ints(r@)) == i,
    decreases dims@.len(),
{
    let n = dims.len();
    if n == 0 {
        let r: Vec<usize> = Vec::new();
        proof {
            assert(ints(r@) =~= unravel(dims@, i as int));
            lemma_unravel(dims@, i as int);
        }
        r
    } else {
        let d = dims[n - 1];
        proof {
            lemma_unravel(dims@, i as int);
            assert(unravel(dims@, i as int)[n - 1] < dims@[n - 1]);
            assert(dims@.drop_last() =~= dims@.subrange(0, n - 1));
            let p = product(dims@.drop_last()) as int;
            let k = i as int;
            let e = d as int;
            assert(0 <= k / e < p) by (nonlinear_arith)
                requires
                    0 <= k < p * e,
                    e > 0,
            ;
        }
        let head = vstd::slice::slice_subrange(dims, 0, n - 1);
        let mut r = mesh_point(head, i / d);
        let ghost before = r@;
        r.push(i % d);
        proof {
            assert(ints(r@) =~= ints(before).push((i % d) as int));
        }
        r
    }
}

} // verus!
