use vstd::prelude::*;

verus! {

/// An owned, ordered run of elements: one row or one column of a matrix.
pub struct Vector {
    data: Vec<i64>,
}

/// Why a dot product could not be formed.
#[derive(Debug, Clone, Copy, PartialEq, Eq, Structural)]
pub enum VectorError {
    /// The two operands have different lengths.
    LengthMismatch,
    /// A product or a running sum left the range of `i64`.
    Overflow,
}

/// Sum of `a[k] * b[k]` over the first `n` positions, added left to right.
pub open spec fn dot_prefix(a: Seq<i64>, b: Seq<i64>, n: int) -> int
    decreases n,
{
    if n <= 0 {
        0
    } else {
        dot_prefix(a, b, n - 1) + a[n - 1] * b[n - 1]
    }
}

/// The dot product of two sequences of equal length.
pub open spec fn dot(a: Seq<i64>, b: Seq<i64>) -> int {
    dot_prefix(a, b, a.len() as int)
}

pub open spec fn fits_i64(x: int) -> bool {
    i64::MIN <= x <= i64::MAX
}

/// Every product and every running sum of the left-to-right evaluation fits in `i64`.
pub open spec fn dot_fits(a: Seq<i64>, b: Seq<i64>) -> bool {
    forall|k: int|
        0 <= k < a.len() ==> fits_i64(#[trigger] a[k] * b[k]) && fits_i64(dot_prefix(a, b, k + 1))
}

/// What `dot_product` returns for operands `a` and `b`.
pub open spec fn dot_result(a: Seq<i64>, b: Seq<i64>) -> Result<i64, VectorError> {
    if a.len() != b.len() {
        Err(VectorError::LengthMismatch)
    } else if !dot_fits(a, b) {
        Err(VectorError::Overflow)
    } else {
        Ok(dot(a, b) as i64)
    }
}

impl View for Vector {
    type V = Seq<i64>;

    closed spec fn view(&self) -> Seq<i64> {
        self.data@
    }
}

impl Vector {
    pub fn new(data: Vec<i64>) -> (v: Vector)
        ensures
            v@ == data@,
    {
        Vector { data }
    }

    pub fn len(&self) -> (n: usize)
        ensures
            n == self@.len(),
    {
        self.data.len()
    }

    pub fn get(&self, i: usize) -> (x: i64)
        requires
            i < self@.len(),
        ensures
            x == self@[i as int],
    {
        self.data[i]
    }

    pub fn as_slice(&self) -> (s: &[i64])
        ensures
            s@ == self@,
    {
        self.data.as_slice()
    }
}

proof fn lemma_product_fits_i128(x: i64, y: i64)
    ensures
        i128::MIN <= (x as int) * (y as int) <= i128::MAX,
{
    assert(-0x8000_0000_0000_0000 <= (x as int) <= 0x7fff_ffff_ffff_ffff);
    assert(-0x8000_0000_0000_0000 <= (y as int) <= 0x7fff_ffff_ffff_ffff);
    assert((x as int) * (y as int) <= 0x4000_0000_0000_0000_0000_0000_0000_0000) by (nonlinear_arith)
        requires
            -0x8000_0000_0000_0000 <= (x as int) <= 0x7fff_ffff_ffff_ffff,
            -0x8000_0000_0000_0000 <= (y as int) <= 0x7fff_ffff_ffff_ffff,
    ;
    assert((x as int) * (y as int) >= -0x4000_0000_0000_0000_0000_0000_0000_0000) by (nonlinear_arith)
        requires
            -0x8000_0000_0000_0000 <= (x as int) <= 0x7fff_ffff_ffff_ffff,
            -0x8000_0000_0000_0000 <= (y as int) <= 0x7fff_ffff_ffff_ffff,
    ;
}

/// Consumes both operands and returns `a[0]*b[0] + a[1]*b[1] + ...`, summed from the left
/// starting at zero.
pub fn dot_product(a: Vector, b: Vector) -> (r: Result<i64, VectorError>)
    ensures
        r == dot_result(a@, b@),
{
    let n = a.len();
    if n != b.len() {
        return Err(VectorError::LengthMismatch);
    }
    let mut sum: i64 = 0;
    let mut i: usize = 0;
    while i < n
        invariant
            n == a@.len(),
            n == b@.len(),
            i <= n,
            sum == dot_prefix(a@, b@, i as int),
            forall|k: int|
                0 <= k < i ==> fits_i64(#[trigger] a@[k] * b@[k]) && fits_i64(
                    dot_prefix(a@, b@, k + 1),
                ),
        decreases n - i,
    {
        let x = a.get(i);
        let y = b.get(i);
        proof {
            lemma_product_fits_i128(x, y);
        }
        let p: i128 = (x as i128) * (y as i128);
        if p < i64::MIN as i128 || p > i64::MAX as i128 {
            assert(!fits_i64(a@[i as int] * b@[i as int]));
            return Err(VectorError::Overflow);
        }
        let s: i128 = sum as i128 + p;
        if s < i64::MIN as i128 || s > i64::MAX as i128 {
            assert(dot_prefix(a@, b@, i + 1) == s);
            assert(fits_i64(a@[i as int] * b@[i as int]));
            return Err(VectorError::Overflow);
        }
        assert(dot_prefix(a@, b@, i + 1) == s);
        assert(fits_i64(a@[i as int] * b@[i as int]));
        sum = s as i64;
        i = i + 1;
    }
    assert(dot_fits(a@, b@));
    Ok(sum)
}

} // verus!
