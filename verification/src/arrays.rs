//! Arrays of integers with any number of axes.
//!
//! The arrays are those of the `ndarray` crate, in its standard (row major) layout.
//! [`IntArray`] holds `i32`, [`CountArray`] holds `u32`. An array is described by two
//! sequences: the lengths of its axes, and its elements in logical order, that is with
//! the last index running fastest.

use vstd::prelude::*;

verus! {

/// The number of elements of an array with these axes.
pub open spec fn product(dims: Seq<usize>) -> nat
    decreases dims.len(),
{
    if dims.len() == 0 {
        1
    } else {
        product(dims.drop_last()) * dims.last() as nat
    }
}

/// The product of the axes that are not of length zero.
pub open spec fn nonzero_product(dims: Seq<usize>) -> nat
    decreases dims.len(),
{
    if dims.len() == 0 {
        1
    } else if dims.last() == 0 {
        nonzero_product(dims.drop_last())
    } else {
        nonzero_product(dims.drop_last()) * dims.last() as nat
    }
}

/// The shapes that an array can have.
pub open spec fn shape_valid(dims: Seq<usize>) -> bool {
    nonzero_product(dims) <= isize::MAX
}

/// `index` names an element of an array with these axes.
pub open spec fn index_in(dims: Seq<usize>, index: Seq<int>) -> bool {
    &&& index.len() == dims.len()
    &&& forall|k: int| 0 <= k < dims.len() ==> 0 <= #[trigger] index[k] < dims[k]
}

/// The place of `index` in logical order.
pub open spec fn row_major(dims: Seq<usize>, index: Seq<int>) -> int
    decreases dims.len(),
{
    if dims.len() == 0 {
        0
    } else {
        row_major(dims.drop_last(), index.drop_last()) * dims.last() + index.last()
    }
}

/// An index of machine integers as a sequence of integers.
pub open spec fn ints(index: Seq<usize>) -> Seq<int> {
    index.map_values(|i: usize| i as int)
}

/// More axes do not make the product of those that are not zero smaller.
proof fn lemma_nonzero_product_grows(dims: Seq<usize>, k: int)
    requires
        0 <= k <= dims.len(),
    ensures
        1 <= nonzero_product(dims.take(k)) <= nonzero_product(dims),
    decreases dims.len(),
{
    if k == dims.len() {
        assert(dims.take(k) =~= dims);
        if k > 0 {
            lemma_nonzero_product_grows(dims.drop_last(), k - 1);
            let (p, d) = (nonzero_product(dims.drop_last()), dims.last() as nat);
            assert(d > 0 ==> p * d >= p) by (nonlinear_arith);
        }
    } else {
        lemma_nonzero_product_grows(dims.drop_last(), k);
        assert(dims.drop_last().take(k) =~= dims.take(k));
        let (p, d) = (nonzero_product(dims.drop_last()), dims.last() as nat);
        assert(d > 0 ==> p * d >= p) by (nonlinear_arith);
    }
}

/// Whether an array can have these axes.
pub fn valid_shape(shape: &[usize]) -> (r: bool)
    ensures
        r == shape_valid(shape@),
{
    let mut size: usize = 1;
    let mut i: usize = 0;
    while i < shape.len()
        invariant
            i <= shape@.len(),
            size == nonzero_product(shape@.take(i as int)),
            size <= isize::MAX,
        decreases shape@.len() - i,
    {
        proof {
            let now = shape@.take(i + 1);
            assert(now.drop_last() =~= shape@.take(i as int));
            assert(now.last() == shape@[i as int]);
            lemma_nonzero_product_grows(shape@, i + 1);
        }
        if shape[i] > 0 {
            match size.checked_mul(shape[i]) {
                Some(v) => {
                    if v > isize::MAX as usize {
                        return false;
                    }
                    size = v;
                },
                None => {
                    return false;
                },
            }
        }
        i += 1;
    }
    assert(shape@.take(i as int) =~= shape@);
    true
}

/// An `i32` array of the `ndarray` crate.
#[verifier::external_body]
#[derive(Debug, PartialEq)]
pub struct IntArray {
    inner: ndarray::ArrayD<i32>,
}

/// A `u32` array of the `ndarray` crate.
#[verifier::external_body]
#[derive(Debug, PartialEq)]
pub struct CountArray {
    inner: ndarray::ArrayD<u32>,
}

/// The lengths of the axes of an [`IntArray`].
pub uninterp spec fn int_array_dims(a: IntArray) -> Seq<usize>;

/// The elements of an [`IntArray`] in logical order.
pub uninterp spec fn int_array_elems(a: IntArray) -> Seq<i32>;

/// The lengths of the axes of a [`CountArray`].
pub uninterp spec fn count_array_dims(a: CountArray) -> Seq<usize>;

/// The elements of a [`CountArray`] in logical order.
pub uninterp spec fn count_array_elems(a: CountArray) -> Seq<u32>;

/// `ndarray::ArrayD::from_shape_vec` with a row major shape.
///
/// It succeeds when the product of the axes that are not zero fits in an `isize` and
/// the shape has as many elements as the vector, and then the array holds the
/// vector's elements in logical order.
#[verifier::external_body]
fn int_array_from_shape_vec(shape: &[usize], v: Vec<i32>) -> (r: Option<IntArray>)
    ensures
        r is Some <==> (shape_valid(shape@) && product(shape@) == v@.len()),
        r is Some ==> int_array_dims(r->Some_0) == shape@ && int_array_elems(r->Some_0) == v@,
{
    ndarray::ArrayD::from_shape_vec(ndarray::IxDyn(shape), v).ok().map(|inner| IntArray { inner })
}

/// `ndarray::ArrayBase::shape`: the lengths of the axes, the product of those that are
/// not zero fitting in an `isize` as in every array.
#[verifier::external_body]
fn int_array_shape(a: &IntArray) -> (r: Vec<usize>)
    ensures
        r@ == int_array_dims(*a),
        shape_valid(r@),
{
    a.inner.shape().to_vec()
}

/// `ndarray::ArrayBase::as_slice`: all elements in logical order, as many as the
/// lengths of the axes multiply to. The array is in standard layout, having been made
/// by `from_shape_vec`.
#[verifier::external_body]
fn int_array_as_slice(a: &IntArray) -> (r: &[i32])
    ensures
        r@ == int_array_elems(*a),
        r@.len() == product(int_array_dims(*a)),
{
    a.inner.as_slice().unwrap()
}

/// `ndarray::ArrayBase::get`: the element at `index`, or nothing when some coordinate
/// is not below the length of its axis.
#[verifier::external_body]
fn int_array_get(a: &IntArray, index: &[usize]) -> (r: Option<i32>)
    requires
        index@.len() == int_array_dims(*a).len(),
    ensures
        r == (if index_in(int_array_dims(*a), ints(index@)) {
            Some(int_array_elems(*a)[row_major(int_array_dims(*a), ints(index@))])
        } else {
            None
        }),
{
    a.inner.get(ndarray::IxDyn(index)).copied()
}

/// `ndarray::ArrayD::from_shape_vec` with a row major shape.
///
/// It succeeds when the product of the axes that are not zero fits in an `isize` and
/// the shape has as many elements as the vector, and then the array holds the
/// vector's elements in logical order.
#[verifier::external_body]
fn count_array_from_shape_vec(shape: &[usize], v: Vec<u32>) -> (r: Option<CountArray>)
    ensures
        r is Some <==> (shape_valid(shape@) && product(shape@) == v@.len()),
        r is Some ==> count_array_dims(r->Some_0) == shape@ && count_array_elems(r->Some_0)
            == v@,
{
    ndarray::ArrayD::from_shape_vec(ndarray::IxDyn(shape), v).ok().map(
        |inner| CountArray { inner },
    )
}

/// `ndarray::Array1::from_vec` followed by `ArrayBase::into_dyn`: an array with one axis
/// that holds the vector's elements in order.
#[verifier::external_body]
fn count_array_from_vec(v: Vec<u32>) -> (r: CountArray)
    ensures
        count_array_dims(r) == seq![v@.len() as usize],
        count_array_elems(r) == v@,
{
    CountArray { inner: ndarray::Array1::from_vec(v).into_dyn() }
}

/// `ndarray::ArrayBase::shape`: the lengths of the axes, the product of those that are
/// not zero fitting in an `isize` as in every array.
#[verifier::external_body]
fn count_array_shape(a: &CountArray) -> (r: Vec<usize>)
    ensures
        r@ == count_array_dims(*a),
        shape_valid(r@),
{
    a.inner.shape().to_vec()
}

/// `ndarray::ArrayBase::as_slice`: all elements in logical order, as many as the
/// lengths of the axes multiply to. The array is in standard layout, having been made
/// by `from_shape_vec` or `from_vec`.
#[verifier::external_body]
fn count_array_as_slice(a: &CountArray) -> (r: &[u32])
    ensures
        r@ == count_array_elems(*a),
        r@.len() == product(count_array_dims(*a)),
{
    a.inner.as_slice().unwrap()
}

impl Clone for IntArray {
    /// `Clone::clone` of `ndarray::ArrayBase`: an array with the same axes and elements.
    #[verifier::external_body]
    fn clone(&self) -> (r: Self)
        ensures
            int_array_dims(r) == int_array_dims(*self),
            int_array_elems(r) == int_array_elems(*self),
    {
        IntArray { inner: self.inner.clone() }
    }
}

impl IntArray {
    /// The lengths of the axes.
    pub open spec fn dims(&self) -> Seq<usize> {
        int_array_dims(*self)
    }

    /// The elements in logical order.
    pub open spec fn elems(&self) -> Seq<i32> {
        int_array_elems(*self)
    }

    /// The element at `index`.
    pub open spec fn at(&self, index: Seq<int>) -> i32 {
        self.elems()[row_major(self.dims(), index)]
    }

    /// The element at six coordinates.
    pub open spec fn at6(&self, r: int, t: int, x: int, y: int, z: int, p: int) -> i32 {
        self.at(seq![r, t, x, y, z, p])
    }

    /// An array with these axes that holds the elements of `v` in logical order.
    pub fn from_shape_vec(shape: &[usize], v: Vec<i32>) -> (r: Option<Self>)
        ensures
            r is Some <==> (shape_valid(shape@) && product(shape@) == v@.len()),
            r matches Some(a) ==> a.dims() == shape@ && a.elems() == v@,
    {
        int_array_from_shape_vec(shape, v)
    }

    /// The lengths of the axes.
    pub fn shape(&self) -> (r: Vec<usize>)
        ensures
            r@ == self.dims(),
            shape_valid(r@),
    {
        int_array_shape(self)
    }

    /// The elements in logical order.
    pub fn as_slice(&self) -> (r: &[i32])
        ensures
            r@ == self.elems(),
            r@.len() == product(self.dims()),
    {
        int_array_as_slice(self)
    }

    /// The element at `index`, if there is one.
    pub fn get(&self, index: &[usize]) -> (r: Option<i32>)
        requires
            index@.len() == self.dims().len(),
        ensures
            r == (if index_in(self.dims(), ints(index@)) {
                Some(self.at(ints(index@)))
            } else {
                None
            }),
    {
        int_array_get(self, index)
    }
}

impl CountArray {
    /// The lengths of the axes.
    pub open spec fn dims(&self) -> Seq<usize> {
        count_array_dims(*self)
    }

    /// The elements in logical order.
    pub open spec fn elems(&self) -> Seq<u32> {
        count_array_elems(*self)
    }

    /// An array with one axis that holds the elements of `v`.
    pub fn from_vec(v: Vec<u32>) -> (r: Self)
        ensures
            r.dims() == seq![v@.len() as usize],
            r.elems() == v@,
    {
        count_array_from_vec(v)
    }

    /// An array with these axes that holds the elements of `v` in logical order.
    pub fn from_shape_vec(shape: &[usize], v: Vec<u32>) -> (r: Option<Self>)
        ensures
            r is Some <==> (shape_valid(shape@) && product(shape@) == v@.len()),
            r matches Some(a) ==> a.dims() == shape@ && a.elems() == v@,
    {
        count_array_from_shape_vec(shape, v)
    }

    /// The lengths of the axes.
    pub fn shape(&self) -> (r: Vec<usize>)
        ensures
            r@ == self.dims(),
            shape_valid(r@),
    {
        count_array_shape(self)
    }

    /// The elements in logical order.
    pub fn as_slice(&self) -> (r: &[u32])
        ensures
            r@ == self.elems(),
            r@.len() == product(self.dims()),
    {
        count_array_as_slice(self)
    }
}

} // verus!
