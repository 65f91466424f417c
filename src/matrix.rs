//! Dense matrices of fixed-point numbers, typically 4 by 4.
//!
//! The product of two matrices sums the exact `i128` products of a row and
//! a column and rounds once, toward zero, back to the fixed-point scale.

use vstd::prelude::*;
use crate::fixed::{
    approx, approx_eq, fits, fits_wide, lemma_quot_remainder, lemma_quot_scaled, quot, wide_mul,
    wide_quot, EPSILON, SCALE,
};
use crate::sums::{
    lemma_sum_add, lemma_sum_bound, lemma_sum_ext, lemma_sum_scale, lemma_sum_swap, lemma_sum_zero, sum,
};
use crate::vector::{build_point, build_vector, spec_point, spec_vector, Vector};

verus! {

/// A `rows` by `columns` grid, both at least one, indexed by `(row, column)`.
#[derive(Clone, Debug)]
pub struct Matrix {
    rows: usize,
    columns: usize,
    elements: Vec<Vec<i64>>,
}

/// Why a matrix could not be built or multiplied.
#[derive(Clone, Copy, Debug, PartialEq, Eq, Structural)]
pub enum MatrixError {
    /// No rows were given.
    Empty,
    /// The rows given do not form a square.
    NotSquare,
    /// The inner dimensions of a product differ.
    DimensionMismatch,
}

/// The rows of a vector of vectors, as sequences.
pub open spec fn rows_view(v: Seq<Vec<i64>>) -> Seq<Seq<i64>> {
    Seq::new(v.len(), |i: int| v[i]@)
}

/// `m` has `rows` rows of `columns` entries each.
pub open spec fn has_shape(m: Seq<Seq<i64>>, rows: int, columns: int) -> bool {
    &&& m.len() == rows
    &&& forall|i: int| 0 <= i < rows ==> #[trigger] m[i].len() == columns
}

/// Number of columns of a non-empty grid.
pub open spec fn columns_of(m: Seq<Seq<i64>>) -> int {
    if m.len() == 0 {
        0
    } else {
        m[0].len() as int
    }
}

/// The exact sum of the first `t` products of row `i` of `a` and column `j`
/// of `b`, in squared raw units.
pub open spec fn dot_prefix(a: Seq<Seq<i64>>, b: Seq<Seq<i64>>, i: int, j: int, t: int) -> int
    decreases t,
{
    if t <= 0 {
        0
    } else {
        dot_prefix(a, b, i, j, t - 1) + a[i][t - 1] * b[t - 1][j]
    }
}

/// Entry `(i, j)` of the product `a × b`: the whole row-column sum, rounded
/// once toward zero.
pub open spec fn product_entry(a: Seq<Seq<i64>>, b: Seq<Seq<i64>>, i: int, j: int) -> int {
    quot(dot_prefix(a, b, i, j, b.len() as int), SCALE as int)
}

/// Every partial sum of `a × b` fits an `i128` and every entry an `i64`.
pub open spec fn product_fits(a: Seq<Seq<i64>>, b: Seq<Seq<i64>>) -> bool {
    &&& forall|i: int, j: int, t: int|
        0 <= i < a.len() && 0 <= j < columns_of(b) && 0 <= t <= b.len() ==> fits_wide(
            #[trigger] dot_prefix(a, b, i, j, t),
        )
    &&& forall|i: int, j: int|
        0 <= i < a.len() && 0 <= j < columns_of(b) ==> fits(#[trigger] product_entry(a, b, i, j))
}

/// The product `a × b` as a grid of entries.
pub open spec fn product(a: Seq<Seq<i64>>, b: Seq<Seq<i64>>) -> Seq<Seq<i64>> {
    Seq::new(a.len(), |i: int| Seq::new(columns_of(b) as nat, |j: int| product_entry(a, b, i, j) as i64))
}

/// No entry of `a × b` was rounded: each row-column sum is a whole number
/// of units.
pub open spec fn product_exact(a: Seq<Seq<i64>>, b: Seq<Seq<i64>>) -> bool {
    forall|i: int, j: int|
        0 <= i < a.len() && 0 <= j < columns_of(b) ==> #[trigger] product_entry(a, b, i, j) * SCALE
            == dot_prefix(a, b, i, j, b.len() as int)
}

/// The `n` by `n` identity.
pub open spec fn identity_entries(n: nat) -> Seq<Seq<i64>> {
    Seq::new(n, |i: int| Seq::new(n, |j: int| if i == j { SCALE } else { 0i64 }))
}

/// The tuple `t` as a 4 by 1 column, `x` first and `w` last.
pub open spec fn column_of(t: Vector) -> Seq<Seq<i64>> {
    seq![seq![t.x], seq![t.y], seq![t.z], seq![t.w]]
}

/// `a × t` for a 4 by 4 `a`, classified again by its `w`: a point if `w` is
/// one within the tolerance, else a vector.
pub open spec fn spec_transform(a: Seq<Seq<i64>>, t: Vector) -> Vector {
    let c = column_of(t);
    let x = product_entry(a, c, 0, 0) as i64;
    let y = product_entry(a, c, 1, 0) as i64;
    let z = product_entry(a, c, 2, 0) as i64;
    if approx(product_entry(a, c, 3, 0), SCALE as int) {
        spec_point(x, y, z)
    } else {
        spec_vector(x, y, z)
    }
}

/// A zero-filled matrix of `rows` rows and `columns` columns.
pub fn new(rows: usize, columns: usize) -> (m: Matrix)
    requires
        rows >= 1,
        columns >= 1,
    ensures
        m.wf(),
        m.spec_rows() == rows,
        m.spec_columns() == columns,
        forall|i: int, j: int| 0 <= i < rows && 0 <= j < columns ==> #[trigger] m@[i][j] == 0,
{
    let mut elements: Vec<Vec<i64>> = Vec::new();
    let mut i: usize = 0;
    while i < rows
        invariant
            i <= rows,
            elements@.len() == i,
            forall|k: int| 0 <= k < i ==> #[trigger] elements@[k]@.len() == columns,
            forall|k: int, j: int| 0 <= k < i && 0 <= j < columns ==> #[trigger] elements@[k]@[j] == 0,
        decreases rows - i,
    {
        let mut row: Vec<i64> = Vec::new();
        let mut j: usize = 0;
        while j < columns
            invariant
                j <= columns,
                row@.len() == j,
                forall|k: int| 0 <= k < j ==> #[trigger] row@[k] == 0,
            decreases columns - j,
        {
            row.push(0);
            j = j + 1;
        }
        elements.push(row);
        i = i + 1;
    }
    Matrix { rows, columns, elements }
}

/// A square matrix from literal rows. Refused when no row is given or when
/// some row's length differs from the number of rows.
pub fn from_vectors(rows: Vec<Vec<i64>>) -> (r: Result<Matrix, MatrixError>)
    ensures
        rows@.len() == 0 <==> r == Err::<Matrix, MatrixError>(MatrixError::Empty),
        (rows@.len() > 0 && !has_shape(rows_view(rows@), rows@.len() as int, rows@.len() as int))
            <==> r == Err::<Matrix, MatrixError>(MatrixError::NotSquare),
        r is Ok <==> (rows@.len() > 0 && has_shape(rows_view(rows@), rows@.len() as int, rows@.len() as int)),
        r matches Ok(m) ==> {
            &&& m.wf()
            &&& m.spec_rows() == rows@.len()
            &&& m.spec_columns() == rows@.len()
            &&& m@ == rows_view(rows@)
            &&& forall|i: int, j: int|
                0 <= i < rows@.len() && 0 <= j < rows@.len() ==> #[trigger] m@[i][j] == rows@[i]@[j]
        },
{
    let n = rows.len();
    if n == 0 {
        return Err(MatrixError::Empty);
    }
    let mut i: usize = 0;
    while i < n
        invariant
            n == rows@.len(),
            i <= n,
            forall|k: int| 0 <= k < i ==> #[trigger] rows@[k]@.len() == n,
        decreases n - i,
    {
        if rows[i].len() != n {
            assert(rows_view(rows@)[i as int].len() != n);
            return Err(MatrixError::NotSquare);
        }
        i = i + 1;
    }
    assert(has_shape(rows_view(rows@), n as int, n as int));
    Ok(Matrix { rows: n, columns: n, elements: rows })
}

/// The 4 by 4 identity matrix.
pub fn identity() -> (m: Matrix)
    ensures
        m.wf(),
        m.spec_rows() == 4,
        m.spec_columns() == 4,
        m@ == identity_entries(4),
{
    let mut m = new(4, 4);
    m.set(0, 0, SCALE);
    m.set(1, 1, SCALE);
    m.set(2, 2, SCALE);
    m.set(3, 3, SCALE);
    assert(m@ =~~= identity_entries(4));
    m
}

impl View for Matrix {
    type V = Seq<Seq<i64>>;

    closed spec fn view(&self) -> Seq<Seq<i64>> {
        rows_view(self.elements@)
    }
}

impl Matrix {
    /// Both sizes are at least one and the entries have those sizes.
    pub closed spec fn wf(&self) -> bool {
        &&& self.rows >= 1
        &&& self.columns >= 1
        &&& self.elements@.len() == self.rows
        &&& forall|i: int| 0 <= i < self.rows ==> #[trigger] self.elements@[i]@.len() == self.columns
    }

    /// A well-formed matrix has the shape that its sizes record, and both
    /// sizes are at least one.
    pub proof fn lemma_shape(&self)
        requires
            self.wf(),
        ensures
            has_shape(self@, self.spec_rows() as int, self.spec_columns() as int),
            self@.len() == self.spec_rows(),
            columns_of(self@) == self.spec_columns(),
            self.spec_rows() >= 1,
            self.spec_columns() >= 1,
    {
        assert forall|i: int| 0 <= i < self.rows implies #[trigger] self@[i].len() == self.columns by {
            assert(self@[i] == self.elements@[i]@);
        }
    }

    pub closed spec fn spec_rows(&self) -> nat {
        self.rows as nat
    }

    pub closed spec fn spec_columns(&self) -> nat {
        self.columns as nat
    }

    /// Both well formed, same sizes, and all entries agree within the tolerance.
    pub open spec fn approx_equal(&self, o: &Matrix) -> bool {
        &&& self.wf()
        &&& o.wf()
        &&& self.spec_rows() == o.spec_rows()
        &&& self.spec_columns() == o.spec_columns()
        &&& forall|i: int, j: int|
            0 <= i < self.spec_rows() && 0 <= j < self.spec_columns() ==> approx(
                #[trigger] self@[i][j] as int,
                o@[i][j] as int,
            )
    }

    /// Number of rows.
    pub fn rows(&self) -> (r: usize)
        ensures
            r == self.spec_rows(),
    {
        self.rows
    }

    /// Number of columns.
    pub fn columns(&self) -> (r: usize)
        ensures
            r == self.spec_columns(),
    {
        self.columns
    }

    /// The entry at `(row, column)`.
    pub fn get(&self, row: usize, column: usize) -> (v: i64)
        requires
            self.wf(),
            row < self.spec_rows(),
            column < self.spec_columns(),
        ensures
            v == self@[row as int][column as int],
    {
        assert(self@[row as int] == self.elements@[row as int]@);
        self.elements[row][column]
    }

    /// Row `row`, as a slice of entries.
    pub fn row(&self, row: usize) -> (r: &[i64])
        requires
            self.wf(),
            row < self.spec_rows(),
        ensures
            r@ == self@[row as int],
    {
        assert(self@[row as int] == self.elements@[row as int]@);
        self.elements[row].as_slice()
    }

    /// Replaces the entry at `(row, column)`; every other entry is kept.
    pub fn set(&mut self, row: usize, column: usize, v: i64)
        requires
            old(self).wf(),
            row < old(self).spec_rows(),
            column < old(self).spec_columns(),
        ensures
            final(self).wf(),
            final(self).spec_rows() == old(self).spec_rows(),
            final(self).spec_columns() == old(self).spec_columns(),
            final(self)@ == old(self)@.update(row as int, old(self)@[row as int].update(column as int, v)),
    {
        let mut line = self.elements[row].clone();
        assert(line@ == old(self)@[row as int]);
        line.set(column, v);
        self.elements.set(row, line);
        assert(self@ =~~= old(self)@.update(row as int, old(self)@[row as int].update(column as int, v)));
    }

    /// Replaces row `row` by `values`, which must have one entry per column.
    pub fn set_row(&mut self, row: usize, values: Vec<i64>)
        requires
            old(self).wf(),
            row < old(self).spec_rows(),
            values@.len() == old(self).spec_columns(),
        ensures
            final(self).wf(),
            final(self).spec_rows() == old(self).spec_rows(),
            final(self).spec_columns() == old(self).spec_columns(),
            final(self)@ == old(self)@.update(row as int, values@),
    {
        self.elements.set(row, values);
        assert(self@ =~~= old(self)@.update(row as int, values@));
    }

    /// The product `self × other`. Refused with `DimensionMismatch` when the
    /// columns of `self` are not as many as the rows of `other`.
    pub fn mul(&self, other: &Matrix) -> (r: Result<Matrix, MatrixError>)
        requires
            self.wf(),
            other.wf(),
            self.spec_columns() == other.spec_rows() ==> product_fits(self@, other@),
        ensures
            self.spec_columns() != other.spec_rows() <==> r is Err,
            r is Err ==> r == Err::<Matrix, MatrixError>(MatrixError::DimensionMismatch),
            r matches Ok(p) ==> {
                &&& p.wf()
                &&& p.spec_rows() == self.spec_rows()
                &&& p.spec_columns() == other.spec_columns()
                &&& p@ == product(self@, other@)
                &&& forall|i: int, j: int|
                    0 <= i < self.spec_rows() && 0 <= j < other.spec_columns() ==> #[trigger] p@[i][j]
                        == product_entry(self@, other@, i, j)
            },
    {
        if self.columns != other.rows {
            return Err(MatrixError::DimensionMismatch);
        }
        let ghost a = self@;
        let ghost b = other@;
        proof {
            self.lemma_shape();
            other.lemma_shape();
        }
        let mut elements: Vec<Vec<i64>> = Vec::new();
        let mut i: usize = 0;
        while i < self.rows
            invariant
                self.wf(),
                other.wf(),
                a == self@,
                b == other@,
                self.columns == other.rows,
                columns_of(b) == other.columns,
                product_fits(a, b),
                i <= self.rows,
                elements@.len() == i,
                forall|k: int| 0 <= k < i ==> #[trigger] elements@[k]@.len() == other.columns,
                forall|k: int, j: int|
                    0 <= k < i && 0 <= j < other.columns ==> #[trigger] elements@[k]@[j]
                        == product_entry(a, b, k, j),
            decreases self.rows - i,
        {
            let mut line: Vec<i64> = Vec::new();
            let mut j: usize = 0;
            while j < other.columns
                invariant
                    self.wf(),
                    other.wf(),
                    a == self@,
                    b == other@,
                    self.columns == other.rows,
                    columns_of(b) == other.columns,
                    product_fits(a, b),
                    i < self.rows,
                    j <= other.columns,
                    line@.len() == j,
                    forall|k: int| 0 <= k < j ==> #[trigger] line@[k] == product_entry(a, b, i as int, k),
                decreases other.columns - j,
            {
                let mut acc: i128 = 0;
                let mut k: usize = 0;
                while k < self.columns
                    invariant
                        self.wf(),
                        other.wf(),
                        a == self@,
                        b == other@,
                        self.columns == other.rows,
                        columns_of(b) == other.columns,
                        product_fits(a, b),
                        i < self.rows,
                        j < other.columns,
                        k <= self.columns,
                        acc == dot_prefix(a, b, i as int, j as int, k as int),
                    decreases self.columns - k,
                {
                    assert(fits_wide(dot_prefix(a, b, i as int, j as int, k + 1)));
                    assert(a[i as int][k as int] == self.elements@[i as int]@[k as int]);
                    assert(b[k as int][j as int] == other.elements@[k as int]@[j as int]);
                    acc = acc + wide_mul(self.elements[i][k], other.elements[k][j]);
                    k = k + 1;
                }
                assert(fits_wide(dot_prefix(a, b, i as int, j as int, b.len() as int)));
                assert(fits(product_entry(a, b, i as int, j as int)));
                line.push(wide_quot(acc, SCALE as i128) as i64);
                j = j + 1;
            }
            elements.push(line);
            i = i + 1;
        }
        let p = Matrix { rows: self.rows, columns: other.columns, elements };
        assert forall|i: int, j: int|
            0 <= i < self.spec_rows() && 0 <= j < other.spec_columns() implies #[trigger] p@[i][j]
                == product_entry(self@, other@, i, j) by {
            assert(p@[i] == p.elements@[i]@);
        }
        proof {
            p.lemma_shape();
        }
        assert(p@ =~~= product(self@, other@));
        Ok(p)
    }

    /// The product `self × t` of a 4 by 4 matrix and the tuple `t` taken as
    /// the column `(x, y, z, w)`, classified again by its `w`: a point when
    /// `w` is one within the tolerance, else a vector. Refused with
    /// `DimensionMismatch` unless `self` is 4 by 4.
    pub fn mul_tuple(&self, t: Vector) -> (r: Result<Vector, MatrixError>)
        requires
            self.wf(),
            self.spec_rows() == 4 && self.spec_columns() == 4 ==> product_fits(self@, column_of(t)),
        ensures
            !(self.spec_rows() == 4 && self.spec_columns() == 4) <==> r is Err,
            r is Err ==> r == Err::<Vector, MatrixError>(MatrixError::DimensionMismatch),
            r matches Ok(v) ==> v == spec_transform(self@, t),
    {
        if self.rows != 4 || self.columns != 4 {
            return Err(MatrixError::DimensionMismatch);
        }
        let column = Matrix {
            rows: 4,
            columns: 1,
            elements: vec![vec![t.x], vec![t.y], vec![t.z], vec![t.w]],
        };
        assert(column@ =~~= column_of(t));
        let p = match self.mul(&column) {
            Ok(p) => p,
            Err(e) => {
                return Err(e);
            },
        };
        let x = p.get(0, 0);
        let y = p.get(1, 0);
        let z = p.get(2, 0);
        if approx_eq(p.get(3, 0), SCALE) {
            Ok(build_point(x, y, z))
        } else {
            Ok(build_vector(x, y, z))
        }
    }
}

impl PartialEq for Matrix {
    /// Matrices of different sizes are unequal; others are equal when all
    /// entries agree within the tolerance.
    fn eq(&self, other: &Matrix) -> (r: bool) {
        if self.rows != other.rows || self.columns != other.columns || self.rows == 0
            || self.columns == 0 {
            return false;
        }
        if self.elements.len() != self.rows || other.elements.len() != other.rows {
            return false;
        }
        let mut i: usize = 0;
        while i < self.rows
            invariant
                self.rows == other.rows,
                self.columns == other.columns,
                self.elements@.len() == self.rows,
                other.elements@.len() == other.rows,
                i <= self.rows,
                forall|k: int| 0 <= k < i ==> #[trigger] self.elements@[k]@.len() == self.columns,
                forall|k: int| 0 <= k < i ==> #[trigger] other.elements@[k]@.len() == self.columns,
            decreases self.rows - i,
        {
            if self.elements[i].len() != self.columns || other.elements[i].len() != self.columns {
                return false;
            }
            i = i + 1;
        }
        assert(self.wf() && other.wf());
        proof {
            self.lemma_shape();
            other.lemma_shape();
        }
        let mut i: usize = 0;
        while i < self.rows
            invariant
                self.wf(),
                other.wf(),
                has_shape(self@, self.rows as int, self.columns as int),
                has_shape(other@, self.rows as int, self.columns as int),
                self.rows == other.rows,
                self.columns == other.columns,
                i <= self.rows,
                forall|k: int, j: int|
                    0 <= k < i && 0 <= j < self.columns ==> approx(
                        #[trigger] self@[k][j] as int,
                        other@[k][j] as int,
                    ),
            decreases self.rows - i,
        {
            let mut j: usize = 0;
            while j < self.columns
                invariant
                    self.wf(),
                    other.wf(),
                    has_shape(self@, self.rows as int, self.columns as int),
                    has_shape(other@, self.rows as int, self.columns as int),
                    self.rows == other.rows,
                    self.columns == other.columns,
                    i < self.rows,
                    j <= self.columns,
                    forall|k: int, l: int|
                        0 <= k < i && 0 <= l < self.columns ==> approx(
                            #[trigger] self@[k][l] as int,
                            other@[k][l] as int,
                        ),
                    forall|l: int|
                        0 <= l < j ==> approx(
                            #[trigger] self@[i as int][l] as int,
                            other@[i as int][l] as int,
                        ),
                decreases self.columns - j,
            {
                if !approx_eq(self.get(i, j), other.get(i, j)) {
                    return false;
                }
                j = j + 1;
            }
            i = i + 1;
        }
        true
    }
}

impl vstd::std_specs::cmp::PartialEqSpecImpl for Matrix {
    open spec fn obeys_eq_spec() -> bool {
        true
    }

    open spec fn eq_spec(&self, other: &Matrix) -> bool {
        self.approx_equal(other)
    }
}

/// Row `i` of `a` times column `j` of the identity, over the first `t`
/// terms: entry `(i, j)` scaled, once `j` is among those terms.
proof fn lemma_prefix_times_identity(a: Seq<Seq<i64>>, n: nat, i: int, j: int, t: int)
    requires
        has_shape(a, n as int, n as int),
        0 <= i < n,
        0 <= j < n,
        0 <= t <= n,
    ensures
        dot_prefix(a, identity_entries(n), i, j, t) == if j < t { a[i][j] * SCALE } else { 0 },
    decreases t,
{
    if t > 0 {
        lemma_prefix_times_identity(a, n, i, j, t - 1);
        let e = identity_entries(n)[t - 1][j];
        assert(e == if t - 1 == j { SCALE } else { 0 });
        assert(a[i][t - 1] * e == if t - 1 == j { a[i][j] * SCALE } else { 0 }) by (nonlinear_arith)
            requires
                e == if t - 1 == j { SCALE } else { 0 },
                t - 1 == j ==> a[i][t - 1] == a[i][j],
        ;
    }
}

/// Row `i` of the identity times column `j` of `a`, over the first `t`
/// terms: entry `(i, j)` scaled, once `i` is among those terms.
proof fn lemma_identity_times_prefix(a: Seq<Seq<i64>>, n: nat, i: int, j: int, t: int)
    requires
        has_shape(a, n as int, n as int),
        0 <= i < n,
        0 <= j < n,
        0 <= t <= n,
    ensures
        dot_prefix(identity_entries(n), a, i, j, t) == if i < t { a[i][j] * SCALE } else { 0 },
    decreases t,
{
    if t > 0 {
        lemma_identity_times_prefix(a, n, i, j, t - 1);
        let e = identity_entries(n)[i][t - 1];
        assert(e == if i == t - 1 { SCALE } else { 0 });
        assert(e * a[t - 1][j] == if i == t - 1 { a[i][j] * SCALE } else { 0 }) by (nonlinear_arith)
            requires
                e == if i == t - 1 { SCALE } else { 0 },
                i == t - 1 ==> a[t - 1][j] == a[i][j],
        ;
    }
}

/// A scaled `i64` entry fits an `i128`.
proof fn lemma_scaled_entry_fits(v: i64)
    ensures
        fits_wide(v * SCALE),
{
    assert(fits_wide(v * SCALE)) by (nonlinear_arith)
        requires
            i64::MIN <= v <= i64::MAX,
    ;
}

/// Multiplying a square matrix by the identity of its order, on either
/// side, gives it back exactly; both products can be computed.
pub proof fn lemma_identity_neutral(a: Seq<Seq<i64>>, n: nat)
    requires
        n >= 1,
        has_shape(a, n as int, n as int),
    ensures
        product_fits(a, identity_entries(n)),
        product_fits(identity_entries(n), a),
        forall|i: int, j: int|
            0 <= i < n && 0 <= j < n ==> #[trigger] product_entry(a, identity_entries(n), i, j)
                == a[i][j],
        forall|i: int, j: int|
            0 <= i < n && 0 <= j < n ==> #[trigger] product_entry(identity_entries(n), a, i, j)
                == a[i][j],
{
    let id = identity_entries(n);
    assert(columns_of(id) == n);
    assert(columns_of(a) == n);
    assert forall|i: int, j: int, t: int|
        0 <= i < n && 0 <= j < n && 0 <= t <= n implies fits_wide(#[trigger] dot_prefix(a, id, i, j, t)) by {
        lemma_prefix_times_identity(a, n, i, j, t);
        lemma_scaled_entry_fits(a[i][j]);
    }
    assert forall|i: int, j: int, t: int|
        0 <= i < n && 0 <= j < n && 0 <= t <= n implies fits_wide(#[trigger] dot_prefix(id, a, i, j, t)) by {
        lemma_identity_times_prefix(a, n, i, j, t);
        lemma_scaled_entry_fits(a[i][j]);
    }
    assert forall|i: int, j: int| 0 <= i < n && 0 <= j < n implies #[trigger] product_entry(a, id, i, j)
        == a[i][j] by {
        lemma_prefix_times_identity(a, n, i, j, n as int);
        lemma_quot_scaled(a[i][j] as int);
    }
    assert forall|i: int, j: int| 0 <= i < n && 0 <= j < n implies #[trigger] product_entry(id, a, i, j)
        == a[i][j] by {
        lemma_identity_times_prefix(a, n, i, j, n as int);
        lemma_quot_scaled(a[i][j] as int);
    }
}

/// A row-column sum is the sum of its terms.
proof fn lemma_dot_prefix_sum(a: Seq<Seq<i64>>, b: Seq<Seq<i64>>, i: int, j: int, t: int)
    ensures
        dot_prefix(a, b, i, j, t) == sum(|k: int| a[i][k] * b[k][j], t),
    decreases t,
{
    if t > 0 {
        lemma_dot_prefix_sum(a, b, i, j, t - 1);
    }
}

/// What rounding entry `(i, j)` of `a × b` toward zero dropped, in squared
/// raw units.
pub open spec fn rounding_loss(a: Seq<Seq<i64>>, b: Seq<Seq<i64>>, i: int, j: int) -> int {
    dot_prefix(a, b, i, j, b.len() as int) - product_entry(a, b, i, j) * SCALE
}

/// Entry `(i, j)` of `(a × b) × c` before its own rounding, scaled by
/// `SCALE`, plus what rounding `a × b` dropped (weighted by `c`), is the
/// double sum of `f(k, l) = a[i][k] * b[k][l] * c[l][j]`, `k` inside.
proof fn lemma_left_grouping(
    a: Seq<Seq<i64>>,
    b: Seq<Seq<i64>>,
    c: Seq<Seq<i64>>,
    i: int,
    j: int,
    q: nat,
    r: nat,
    f: spec_fn(int, int) -> int,
)
    requires
        0 <= i < a.len(),
        has_shape(b, q as int, r as int),
        c.len() == r,
        q >= 1,
        r >= 1,
        product_fits(a, b),
        forall|k: int, l: int| #[trigger] f(k, l) == a[i][k] * b[k][l] * c[l][j],
    ensures
        SCALE * dot_prefix(product(a, b), c, i, j, r as int) + sum(
            |l: int| rounding_loss(a, b, i, l) * c[l][j],
            r as int,
        ) == sum(|l: int| sum(|k: int| f(k, l), q as int), r as int),
{
    let ab = product(a, b);
    let s = SCALE as int;
    assert(b[0].len() == r);
    lemma_dot_prefix_sum(ab, c, i, j, r as int);
    let terms = |l: int| ab[i][l] * c[l][j];
    lemma_sum_scale(terms, s, r as int);
    let scaled = |l: int| s * terms(l);
    let loss = |l: int| rounding_loss(a, b, i, l) * c[l][j];
    lemma_sum_add(scaled, loss, r as int);
    let inner = |l: int| sum(|k: int| f(k, l), q as int);
    assert forall|l: int| 0 <= l < r implies #[trigger] scaled(l) + loss(l) == inner(l) by {
        let d = dot_prefix(a, b, i, l, q as int);
        let e = product_entry(a, b, i, l);
        assert(ab[i][l] == e);
        assert(s * (ab[i][l] * c[l][j]) + (d - e * s) * c[l][j] == c[l][j] * d) by (nonlinear_arith)
            requires
                ab[i][l] == e,
        ;
        lemma_dot_prefix_sum(a, b, i, l, q as int);
        let g = |k: int| a[i][k] * b[k][l];
        lemma_sum_scale(g, c[l][j] as int, q as int);
        assert forall|k: int| 0 <= k < q implies #[trigger] (c[l][j] * g(k)) == f(k, l) by {
            assert(c[l][j] * (a[i][k] * b[k][l]) == a[i][k] * b[k][l] * c[l][j]) by (nonlinear_arith);
        }
        lemma_sum_ext(|k: int| c[l][j] * g(k), |k: int| f(k, l), q as int);
    }
    lemma_sum_ext(|l: int| scaled(l) + loss(l), inner, r as int);
}

/// Entry `(i, j)` of `a × (b × c)` before its own rounding, scaled by
/// `SCALE`, plus what rounding `b × c` dropped (weighted by `a`), is the
/// double sum of `f(k, l) = a[i][k] * b[k][l] * c[l][j]`, `l` inside.
proof fn lemma_right_grouping(
    a: Seq<Seq<i64>>,
    b: Seq<Seq<i64>>,
    c: Seq<Seq<i64>>,
    i: int,
    j: int,
    q: nat,
    r: nat,
    s_cols: nat,
    f: spec_fn(int, int) -> int,
)
    requires
        has_shape(b, q as int, r as int),
        has_shape(c, r as int, s_cols as int),
        0 <= j < s_cols,
        q >= 1,
        r >= 1,
        product_fits(b, c),
        forall|k: int, l: int| #[trigger] f(k, l) == a[i][k] * b[k][l] * c[l][j],
    ensures
        SCALE * dot_prefix(a, product(b, c), i, j, q as int) + sum(
            |k: int| a[i][k] * rounding_loss(b, c, k, j),
            q as int,
        ) == sum(|k: int| sum(|l: int| f(k, l), r as int), q as int),
{
    let bc = product(b, c);
    let s = SCALE as int;
    assert(c[0].len() == s_cols);
    lemma_dot_prefix_sum(a, bc, i, j, q as int);
    let terms = |k: int| a[i][k] * bc[k][j];
    lemma_sum_scale(terms, s, q as int);
    let scaled = |k: int| s * terms(k);
    let loss = |k: int| a[i][k] * rounding_loss(b, c, k, j);
    lemma_sum_add(scaled, loss, q as int);
    let inner = |k: int| sum(|l: int| f(k, l), r as int);
    assert forall|k: int| 0 <= k < q implies #[trigger] scaled(k) + loss(k) == inner(k) by {
        let d = dot_prefix(b, c, k, j, r as int);
        let e = product_entry(b, c, k, j);
        assert(bc[k][j] == e);
        assert(s * (a[i][k] * bc[k][j]) + a[i][k] * (d - e * s) == a[i][k] * d) by (nonlinear_arith)
            requires
                bc[k][j] == e,
        ;
        lemma_dot_prefix_sum(b, c, k, j, r as int);
        let g = |l: int| b[k][l] * c[l][j];
        lemma_sum_scale(g, a[i][k] as int, r as int);
        assert forall|l: int| 0 <= l < r implies #[trigger] (a[i][k] * g(l)) == f(k, l) by {
            assert(a[i][k] * (b[k][l] * c[l][j]) == a[i][k] * b[k][l] * c[l][j]) by (nonlinear_arith);
        }
        lemma_sum_ext(|l: int| a[i][k] * g(l), |l: int| f(k, l), r as int);
    }
    lemma_sum_ext(|k: int| scaled(k) + loss(k), inner, q as int);
}

/// Matrix multiplication is associative wherever neither inner product
/// rounds: if no entry of `a × b` nor of `b × c` was rounded, then
/// `(a × b) × c` equals `a × (b × c)` exactly.
pub proof fn lemma_product_associative(
    a: Seq<Seq<i64>>,
    b: Seq<Seq<i64>>,
    c: Seq<Seq<i64>>,
    p: nat,
    q: nat,
    r: nat,
    s: nat,
)
    requires
        p >= 1,
        q >= 1,
        r >= 1,
        s >= 1,
        has_shape(a, p as int, q as int),
        has_shape(b, q as int, r as int),
        has_shape(c, r as int, s as int),
        product_fits(a, b),
        product_fits(b, c),
        product_exact(a, b),
        product_exact(b, c),
    ensures
        product(product(a, b), c) == product(a, product(b, c)),
{
    let ab = product(a, b);
    let bc = product(b, c);
    assert(b[0].len() == r);
    assert(c[0].len() == s);
    assert(columns_of(bc) == s);
    assert forall|i: int, j: int| 0 <= i < p && 0 <= j < s implies #[trigger] product_entry(ab, c, i, j)
        == product_entry(a, bc, i, j) by {
        let f = |k: int, l: int| a[i][k] * b[k][l] * c[l][j];
        lemma_left_grouping(a, b, c, i, j, q, r, f);
        lemma_right_grouping(a, b, c, i, j, q, r, s, f);
        lemma_sum_swap(f, q as int, r as int);
        let left_loss = |l: int| rounding_loss(a, b, i, l) * c[l][j];
        let right_loss = |k: int| a[i][k] * rounding_loss(b, c, k, j);
        assert forall|l: int| 0 <= l < r implies #[trigger] left_loss(l) == 0 by {
            assert(rounding_loss(a, b, i, l) == 0);
        }
        assert forall|k: int| 0 <= k < q implies #[trigger] right_loss(k) == 0 by {
            assert(rounding_loss(b, c, k, j) == 0);
            assert(a[i][k] * 0 == 0);
        }
        lemma_sum_zero(left_loss, r as int);
        lemma_sum_zero(right_loss, q as int);
        assert(dot_prefix(ab, c, i, j, r as int) == dot_prefix(a, bc, i, j, q as int)) by (nonlinear_arith)
            requires
                SCALE * dot_prefix(ab, c, i, j, r as int) == SCALE * dot_prefix(a, bc, i, j, q as int),
        ;
    }
    assert(product(ab, c) =~~= product(a, bc));
}

/// Matrix multiplication is associative up to the tolerance when the
/// entries are moderate: if every entry of `a` is at most `bound_a` and
/// every entry of `c` at most `bound_c` in size (raw units), with
/// `q * bound_a + r * bound_c <= (EPSILON - 2) * SCALE`, then each entry of
/// `(a × b) × c` equals that of `a × (b × c)` within the tolerance. For 4 by
/// 4 matrices this covers entries up to about 1249 in size.
pub proof fn lemma_product_nearly_associative(
    a: Seq<Seq<i64>>,
    b: Seq<Seq<i64>>,
    c: Seq<Seq<i64>>,
    p: nat,
    q: nat,
    r: nat,
    s: nat,
    bound_a: int,
    bound_c: int,
)
    requires
        p >= 1,
        q >= 1,
        r >= 1,
        s >= 1,
        has_shape(a, p as int, q as int),
        has_shape(b, q as int, r as int),
        has_shape(c, r as int, s as int),
        product_fits(a, b),
        product_fits(b, c),
        forall|i: int, k: int| 0 <= i < p && 0 <= k < q ==> -bound_a <= #[trigger] a[i][k] <= bound_a,
        forall|l: int, j: int| 0 <= l < r && 0 <= j < s ==> -bound_c <= #[trigger] c[l][j] <= bound_c,
        q * bound_a + r * bound_c <= (EPSILON - 2) * SCALE,
    ensures
        forall|i: int, j: int|
            0 <= i < p && 0 <= j < s ==> approx(
                #[trigger] product_entry(product(a, b), c, i, j),
                product_entry(a, product(b, c), i, j),
            ),
{
    let ab = product(a, b);
    let bc = product(b, c);
    let sc = SCALE as int;
    assert(b[0].len() == r);
    assert(c[0].len() == s);
    assert forall|i: int, j: int| 0 <= i < p && 0 <= j < s implies approx(
        #[trigger] product_entry(ab, c, i, j),
        product_entry(a, bc, i, j),
    ) by {
        let f = |k: int, l: int| a[i][k] * b[k][l] * c[l][j];
        lemma_left_grouping(a, b, c, i, j, q, r, f);
        lemma_right_grouping(a, b, c, i, j, q, r, s, f);
        lemma_sum_swap(f, q as int, r as int);
        let left_loss = |l: int| rounding_loss(a, b, i, l) * c[l][j];
        let right_loss = |k: int| a[i][k] * rounding_loss(b, c, k, j);
        assert forall|l: int| 0 <= l < r implies -(sc * bound_c) <= #[trigger] left_loss(l) <= sc
            * bound_c by {
            let e = rounding_loss(a, b, i, l);
            lemma_quot_remainder(dot_prefix(a, b, i, l, q as int), sc);
            let cl = c[l][j] as int;
            assert(-(sc * bound_c) <= e * cl <= sc * bound_c) by (nonlinear_arith)
                requires
                    -sc < e < sc,
                    -bound_c <= cl <= bound_c,
            ;
        }
        assert forall|k: int| 0 <= k < q implies -(sc * bound_a) <= #[trigger] right_loss(k) <= sc
            * bound_a by {
            let e = rounding_loss(b, c, k, j);
            lemma_quot_remainder(dot_prefix(b, c, k, j, r as int), sc);
            let ak = a[i][k] as int;
            assert(-(sc * bound_a) <= ak * e <= sc * bound_a) by (nonlinear_arith)
                requires
                    -sc < e < sc,
                    -bound_a <= ak <= bound_a,
            ;
        }
        lemma_sum_bound(left_loss, sc * bound_c, r as int);
        lemma_sum_bound(right_loss, sc * bound_a, q as int);
        let big_l = dot_prefix(ab, c, i, j, r as int);
        let big_r = dot_prefix(a, bc, i, j, q as int);
        let ll = sum(left_loss, r as int);
        let rl = sum(right_loss, q as int);
        assert(sc * (big_l - big_r) == rl - ll) by (nonlinear_arith)
            requires
                sc * big_l + ll == sc * big_r + rl,
        ;
        assert(-((EPSILON - 2) * sc) <= big_l - big_r <= (EPSILON - 2) * sc) by (nonlinear_arith)
            requires
                sc * (big_l - big_r) == rl - ll,
                -(r * (sc * bound_c)) <= ll <= r * (sc * bound_c),
                -(q * (sc * bound_a)) <= rl <= q * (sc * bound_a),
                q * bound_a + r * bound_c <= (EPSILON - 2) * sc,
                sc > 0,
        ;
        lemma_quot_remainder(big_l, sc);
        lemma_quot_remainder(big_r, sc);
        let ql = quot(big_l, sc);
        let qr = quot(big_r, sc);
        assert(-EPSILON < ql - qr < EPSILON) by (nonlinear_arith)
            requires
                -sc < big_l - ql * sc < sc,
                -sc < big_r - qr * sc < sc,
                -((EPSILON - 2) * sc) <= big_l - big_r <= (EPSILON - 2) * sc,
                sc > 0,
        ;
    }
}

/// Applying a matrix whose last row is `(0, 0, 0, 1)` to a point gives a
/// point, whose coordinates are the first three rows applied to
/// `(x, y, z, 1)`, each rounded once toward zero.
pub proof fn lemma_transform_point(a: Seq<Seq<i64>>, x: i64, y: i64, z: i64)
    requires
        has_shape(a, 4, 4),
        a[3] == seq![0i64, 0i64, 0i64, SCALE],
        product_fits(a, column_of(spec_point(x, y, z))),
    ensures
        spec_transform(a, spec_point(x, y, z)) == spec_point(
            quot(a[0][0] * x + a[0][1] * y + a[0][2] * z + a[0][3] * SCALE, SCALE as int) as i64,
            quot(a[1][0] * x + a[1][1] * y + a[1][2] * z + a[1][3] * SCALE, SCALE as int) as i64,
            quot(a[2][0] * x + a[2][1] * y + a[2][2] * z + a[2][3] * SCALE, SCALE as int) as i64,
        ),
        spec_transform(a, spec_point(x, y, z)).spec_is_point(),
{
    let c = column_of(spec_point(x, y, z));
    reveal_with_fuel(dot_prefix, 5);
    assert(c.len() == 4);
    assert(c[0][0] == x && c[1][0] == y && c[2][0] == z && c[3][0] == SCALE);
    assert(a[3][0] == 0 && a[3][1] == 0 && a[3][2] == 0 && a[3][3] == SCALE);
    assert(a[3][0] * c[0][0] == 0 && a[3][1] * c[1][0] == 0 && a[3][2] * c[2][0] == 0) by (nonlinear_arith)
        requires
            a[3][0] == 0 && a[3][1] == 0 && a[3][2] == 0,
    ;
    assert(a[3][3] * c[3][0] == SCALE * SCALE);
    assert(dot_prefix(a, c, 3, 0, 4) == SCALE * SCALE);
    lemma_quot_scaled(SCALE as int);
    assert(product_entry(a, c, 3, 0) == SCALE);
}

} // verus!
