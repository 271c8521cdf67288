use vstd::prelude::*;

use crate::error::EvalError;

verus! {

/// Largest number of elements an array may hold (a machine limit: flat
/// indices, stride products and buffer sizes must fit comfortably in `usize`
/// on any target).
pub const MAX_ELEMS: u64 = 0xFFFF_FFFF;

/// Largest number of axes an array may have.
pub const MAX_RANK: usize = 16;

/// Product of the dimensions of a shape: the number of elements a dense
/// array of that shape holds.
pub open spec fn prod(s: Seq<usize>) -> int
    decreases s.len(),
{
    if s.len() == 0 {
        1
    } else {
        s[0] * prod(s.skip(1))
    }
}

/// A shape the library accepts: bounded rank and bounded element count.
pub open spec fn ok_shape(s: Seq<usize>) -> bool {
    s.len() <= MAX_RANK && prod(s) <= MAX_ELEMS as int
}

/// Mathematical model of an array: a shape and its row-major element
/// sequence.
pub struct ArrSpec {
    pub shape: Seq<usize>,
    pub data: Seq<i64>,
}

impl ArrSpec {
    /// A well-formed array: acceptable shape, and exactly one stored element
    /// per point of the shape.
    pub open spec fn wf(self) -> bool {
        ok_shape(self.shape) && self.data.len() == prod(self.shape)
    }
}

/// A dense row-major array of `i64` values.
#[derive(Clone, Debug, PartialEq, Eq)]
pub struct NdArray {
    pub shape: Vec<usize>,
    pub data: Vec<i64>,
}

impl View for NdArray {
    type V = ArrSpec;

    open spec fn view(&self) -> ArrSpec {
        ArrSpec { shape: self.shape@, data: self.data@ }
    }
}

pub proof fn lemma_prod_nonneg(s: Seq<usize>)
    ensures
        prod(s) >= 0,
    decreases s.len(),
{
    if s.len() > 0 {
        lemma_prod_nonneg(s.skip(1));
    }
}

/// With every dimension positive the product is positive.
pub proof fn lemma_prod_pos(s: Seq<usize>)
    requires
        forall|i: int| 0 <= i < s.len() ==> s[i] >= 1,
    ensures
        prod(s) >= 1,
    decreases s.len(),
{
    if s.len() > 0 {
        assert(forall|i: int| 0 <= i < s.skip(1).len() ==> s.skip(1)[i] >= 1);
        lemma_prod_pos(s.skip(1));
        assert(s[0] * prod(s.skip(1)) >= 1) by (nonlinear_arith)
            requires
                s[0] >= 1,
                prod(s.skip(1)) >= 1,
        ;
    }
}

/// The product distributes over concatenation.
pub proof fn lemma_prod_append(a: Seq<usize>, b: Seq<usize>)
    ensures
        prod(a + b) == prod(a) * prod(b),
    decreases a.len(),
{
    if a.len() == 0 {
        assert(a + b =~= b);
    } else {
        assert((a + b).skip(1) =~= a.skip(1) + b);
        lemma_prod_append(a.skip(1), b);
        assert(prod(a + b) == a[0] * (prod(a.skip(1)) * prod(b)));
        assert(a[0] * (prod(a.skip(1)) * prod(b)) == (a[0] * prod(a.skip(1))) * prod(b))
            by (nonlinear_arith);
    }
}

/// A shape containing a zero dimension has no elements.
pub proof fn lemma_prod_zero(s: Seq<usize>, i: int)
    requires
        0 <= i < s.len(),
        s[i] == 0,
    ensures
        prod(s) == 0,
    decreases s.len(),
{
    if i == 0 {
        lemma_prod_nonneg(s.skip(1));
    } else {
        lemma_prod_zero(s.skip(1), i - 1);
    }
}

/// Unfolds the product of a suffix one dimension at a time.
pub proof fn lemma_prod_skip_unfold(s: Seq<usize>, i: int)
    requires
        0 <= i < s.len(),
    ensures
        prod(s.skip(i)) == s[i] * prod(s.skip(i + 1)),
{
    assert(s.skip(i).len() > 0);
    assert(s.skip(i)[0] == s[i]);
    assert(s.skip(i).skip(1) =~= s.skip(i + 1));
}

/// The product of a suffix divides the whole product; with all dimensions
/// positive it is therefore bounded by it.
pub proof fn lemma_prod_skip_le(s: Seq<usize>, i: int)
    requires
        0 <= i <= s.len(),
        forall|j: int| 0 <= j < s.len() ==> s[j] >= 1,
    ensures
        prod(s) == prod(s.take(i)) * prod(s.skip(i)),
        prod(s.skip(i)) <= prod(s),
{
    assert(s.take(i) + s.skip(i) =~= s);
    lemma_prod_append(s.take(i), s.skip(i));
    assert(forall|j: int| 0 <= j < s.take(i).len() ==> s.take(i)[j] >= 1);
    lemma_prod_pos(s.take(i));
    assert(forall|j: int| 0 <= j < s.skip(i).len() ==> s.skip(i)[j] >= 1);
    lemma_prod_pos(s.skip(i));
    assert(prod(s.take(i)) * prod(s.skip(i)) >= 1 * prod(s.skip(i))) by (nonlinear_arith)
        requires
            prod(s.take(i)) >= 1,
            prod(s.skip(i)) >= 1,
    ;
}

/// Computes the element count of a shape, or `None` when it exceeds
/// [`MAX_ELEMS`].
pub fn checked_prod(shape: &Vec<usize>) -> (r: Option<u64>)
    ensures
        r is Some <==> prod(shape@) <= MAX_ELEMS as int,
        r is Some ==> r->0 as int == prod(shape@),
{
    let n = shape.len();
    let mut i: usize = 0;
    // A zero dimension makes the whole product zero, whatever the rest holds.
    while i < n
        invariant
            0 <= i <= n,
            n == shape@.len(),
            forall|j: int| 0 <= j < i ==> shape@[j] >= 1,
        decreases n - i,
    {
        if shape[i] == 0 {
            proof {
                lemma_prod_zero(shape@, i as int);
            }
            return Some(0);
        }
        i = i + 1;
    }
    let ghost s = shape@;
    let mut acc: u64 = 1;
    let mut k: usize = 0;
    while k < n
        invariant
            0 <= k <= n,
            n == s.len(),
            s == shape@,
            forall|j: int| 0 <= j < n ==> s[j] >= 1,
            acc as int == prod(s.take(k as int)),
            acc <= MAX_ELEMS,
        decreases n - k,
    {
        let d = shape[k];
        proof {
            assert(s.take(k as int + 1) =~= s.take(k as int) + seq![s[k as int]]);
            lemma_prod_append(s.take(k as int), seq![s[k as int]]);
            let ghost t = seq![s[k as int]];
            assert(t.skip(1) =~= Seq::<usize>::empty());
            assert(prod(t) == t[0] * prod(t.skip(1)));
            assert(prod(t) == s[k as int] * 1);
        }
        if d as u64 > MAX_ELEMS {
            proof {
                lemma_prod_skip_le(s, k as int + 1);
                lemma_prod_pos(s.take(k as int));
                assert(prod(s) >= prod(s.take(k as int + 1))) by {
                    assert(prod(s) == prod(s.take(k as int + 1)) * prod(s.skip(k as int + 1)));
                    lemma_prod_pos(s.skip(k as int + 1));
                    assert(prod(s.take(k as int + 1)) * prod(s.skip(k as int + 1)) >= prod(
                        s.take(k as int + 1),
                    ) * 1) by (nonlinear_arith)
                        requires
                            prod(s.skip(k as int + 1)) >= 1,
                            prod(s.take(k as int + 1)) >= 0,
                    ;
                };
                assert(prod(s.take(k as int + 1)) == acc as int * s[k as int]);
                assert(acc as int * s[k as int] >= 1 * s[k as int]) by (nonlinear_arith)
                    requires
                        acc >= 1 || acc as int == prod(s.take(k as int)),
                        acc as int >= 1,
                        s[k as int] >= 0,
                ;
            }
            return None;
        }
        match acc.checked_mul(d as u64) {
            Some(next) => {
                if next > MAX_ELEMS {
                    proof {
                        lemma_prod_skip_le(s, k as int + 1);
                        lemma_prod_pos(s.skip(k as int + 1));
                        assert(prod(s) >= prod(s.take(k as int + 1))) by (nonlinear_arith)
                            requires
                                prod(s) == prod(s.take(k as int + 1)) * prod(s.skip(k as int + 1)),
                                prod(s.skip(k as int + 1)) >= 1,
                                prod(s.take(k as int + 1)) >= 0,
                        ;
                    }
                    return None;
                }
                acc = next;
            },
            None => {
                proof {
                    lemma_prod_skip_le(s, k as int + 1);
                    lemma_prod_pos(s.skip(k as int + 1));
                    assert(prod(s) >= prod(s.take(k as int + 1))) by (nonlinear_arith)
                        requires
                            prod(s) == prod(s.take(k as int + 1)) * prod(s.skip(k as int + 1)),
                            prod(s.skip(k as int + 1)) >= 1,
                            prod(s.take(k as int + 1)) >= 0,
                    ;
                }
                return None;
            },
        }
        k = k + 1;
    }
    proof {
        assert(s.take(n as int) =~= s);
    }
    Some(acc)
}

/// Row-major flat index into an array of shape `xs` of the point that a flat
/// index `f` into an array of shape `rs` maps to, where every axis on which
/// `xs` has size 1 is collapsed to coordinate 0.  With `xs == rs` this is the
/// identity; it is the index arithmetic behind broadcasting, gradient
/// reduction and gradient re-expansion.
pub open spec fn src_index(rs: Seq<usize>, xs: Seq<usize>, f: int) -> int
    decreases rs.len(),
{
    if rs.len() == 0 {
        0
    } else {
        let st = prod(rs.skip(1));
        let d = f / st;
        let part = if xs[0] == 1 {
            0int
        } else {
            d * prod(xs.skip(1))
        };
        part + src_index(rs.skip(1), xs.skip(1), f % st)
    }
}

/// `src_index` lands inside the target array.
pub proof fn lemma_src_index_bounds(rs: Seq<usize>, xs: Seq<usize>, f: int)
    requires
        rs.len() == xs.len(),
        forall|i: int| 0 <= i < rs.len() ==> rs[i] >= 1,
        forall|i: int| 0 <= i < xs.len() ==> xs[i] == rs[i] || xs[i] == 1,
        0 <= f < prod(rs),
    ensures
        0 <= src_index(rs, xs, f) < prod(xs),
    decreases rs.len(),
{
    if rs.len() == 0 {
        assert(prod(xs) == 1);
    } else {
        let st = prod(rs.skip(1));
        let xst = prod(xs.skip(1));
        assert(forall|i: int| 0 <= i < rs.skip(1).len() ==> rs.skip(1)[i] >= 1);
        assert(forall|i: int|
            0 <= i < xs.skip(1).len() ==> xs.skip(1)[i] == rs.skip(1)[i] || xs.skip(1)[i] == 1);
        lemma_prod_pos(rs.skip(1));
        let d = f / st;
        let m = f % st;
        vstd::arithmetic::div_mod::lemma_fundamental_div_mod(f, st);
        assert(0 <= m < st) by {
            vstd::arithmetic::div_mod::lemma_mod_bound(f, st);
        };
        assert(f < rs[0] * st);
        assert(0 <= d < rs[0]) by (nonlinear_arith)
            requires
                f == st * d + m,
                0 <= m < st,
                0 <= f,
                f < rs[0] * st,
                st >= 1,
        ;
        lemma_src_index_bounds(rs.skip(1), xs.skip(1), m);
        let sub = src_index(rs.skip(1), xs.skip(1), m);
        if xs[0] == 1 {
            assert(prod(xs) == 1 * xst);
            assert(src_index(rs, xs, f) == sub);
        } else {
            assert(xs[0] == rs[0]);
            assert(prod(xs) == xs[0] * xst);
            assert(0 <= d * xst + sub < xs[0] * xst) by (nonlinear_arith)
                requires
                    0 <= d,
                    d < xs[0],
                    0 <= sub < xst,
            ;
        }
    }
}

/// Projecting an index onto the array's own shape changes nothing.
pub proof fn lemma_src_index_identity(rs: Seq<usize>, f: int)
    requires
        forall|i: int| 0 <= i < rs.len() ==> rs[i] >= 1,
        0 <= f < prod(rs),
    ensures
        src_index(rs, rs, f) == f,
    decreases rs.len(),
{
    if rs.len() == 0 {
    } else {
        let st = prod(rs.skip(1));
        assert(forall|i: int| 0 <= i < rs.skip(1).len() ==> rs.skip(1)[i] >= 1);
        lemma_prod_pos(rs.skip(1));
        let d = f / st;
        let m = f % st;
        vstd::arithmetic::div_mod::lemma_fundamental_div_mod(f, st);
        vstd::arithmetic::div_mod::lemma_mod_bound(f, st);
        lemma_src_index_identity(rs.skip(1), m);
        if rs[0] == 1 {
            assert(f < 1 * st);
            assert(d == 0) by (nonlinear_arith)
                requires
                    f == st * d + m,
                    0 <= m < st,
                    0 <= f < st,
                    st >= 1,
            ;
            assert(src_index(rs, rs, f) == m);
            assert(f == st * 0 + m);
        } else {
            assert(src_index(rs, rs, f) == d * st + m);
        }
    }
}

/// A shape with a positive element count has only positive dimensions.
pub proof fn lemma_pos_prod_pos_dims(s: Seq<usize>)
    requires
        prod(s) > 0,
    ensures
        forall|i: int| 0 <= i < s.len() ==> s[i] >= 1,
{
    assert forall|i: int| 0 <= i < s.len() implies s[i] >= 1 by {
        if s[i] == 0 {
            lemma_prod_zero(s, i);
        }
    }
}

/// Row-major strides of a shape: `r[i]` is the element count of the
/// sub-array one point of axis `i` spans.
pub fn strides_of(shape: &Vec<usize>, total: usize) -> (r: Vec<usize>)
    requires
        forall|i: int| 0 <= i < shape@.len() ==> shape@[i] >= 1,
        total as int == prod(shape@),
        total as u64 <= MAX_ELEMS,
    ensures
        r@.len() == shape@.len(),
        forall|i: int| 0 <= i < r@.len() ==> r@[i] as int == prod(shape@.skip(i + 1)),
{
    let ghost s = shape@;
    let n = shape.len();
    let mut st: Vec<usize> = Vec::new();
    let mut running = total;
    let mut i: usize = 0;
    proof {
        assert(s.skip(0) =~= s);
    }
    while i < n
        invariant
            0 <= i <= n,
            n == s.len(),
            s == shape@,
            forall|j: int| 0 <= j < n ==> s[j] >= 1,
            running as int == prod(s.skip(i as int)),
            st@.len() == i,
            forall|j: int| 0 <= j < i ==> st@[j] as int == prod(s.skip(j + 1)),
        decreases n - i,
    {
        let d = shape[i];
        proof {
            lemma_prod_skip_unfold(s, i as int);
            lemma_prod_pos(s.skip(i as int + 1));
            assert((d as int * prod(s.skip(i as int + 1))) / d as int == prod(
                s.skip(i as int + 1),
            )) by (nonlinear_arith)
                requires
                    d as int >= 1,
                    prod(s.skip(i as int + 1)) >= 0,
            ;
        }
        running = running / d;
        st.push(running);
        i = i + 1;
    }
    st
}

/// Computes [`src_index`] of `f`, given the two shapes and their strides.
pub fn gather_index(
    rs: &Vec<usize>,
    xs: &Vec<usize>,
    rst: &Vec<usize>,
    xst: &Vec<usize>,
    f: usize,
) -> (r: usize)
    requires
        rs@.len() == xs@.len(),
        rst@.len() == rs@.len(),
        xst@.len() == xs@.len(),
        forall|i: int| 0 <= i < rs@.len() ==> rs@[i] >= 1,
        forall|i: int| 0 <= i < xs@.len() ==> xs@[i] == rs@[i] || xs@[i] == 1,
        forall|i: int| 0 <= i < rst@.len() ==> rst@[i] as int == prod(rs@.skip(i + 1)),
        forall|i: int| 0 <= i < xst@.len() ==> xst@[i] as int == prod(xs@.skip(i + 1)),
        (f as int) < prod(rs@),
        prod(xs@) <= MAX_ELEMS as int,
    ensures
        r as int == src_index(rs@, xs@, f as int),
        (r as int) < prod(xs@),
{
    let n = rs.len();
    let mut acc: usize = 0;
    let mut rem: usize = f;
    let mut i: usize = 0;
    let ghost total = src_index(rs@, xs@, f as int);
    proof {
        lemma_src_index_bounds(rs@, xs@, f as int);
        assert(rs@.skip(0) =~= rs@);
        assert(xs@.skip(0) =~= xs@);
    }
    while i < n
        invariant
            0 <= i <= n,
            n == rs@.len(),
            rs@.len() == xs@.len(),
            rst@.len() == rs@.len(),
            xst@.len() == xs@.len(),
            forall|j: int| 0 <= j < rs@.len() ==> rs@[j] >= 1,
            forall|j: int| 0 <= j < xs@.len() ==> xs@[j] == rs@[j] || xs@[j] == 1,
            forall|j: int| 0 <= j < rst@.len() ==> rst@[j] as int == prod(rs@.skip(j + 1)),
            forall|j: int| 0 <= j < xst@.len() ==> xst@[j] as int == prod(xs@.skip(j + 1)),
            total == src_index(rs@, xs@, f as int),
            0 <= total < prod(xs@),
            prod(xs@) <= MAX_ELEMS as int,
            0 <= rem as int && (rem as int) < prod(rs@.skip(i as int)),
            acc as int + src_index(rs@.skip(i as int), xs@.skip(i as int), rem as int) == total,
        decreases n - i,
    {
        let ghost rsub = rs@.skip(i as int);
        let ghost xsub = xs@.skip(i as int);
        proof {
            assert(rsub.len() > 0);
            assert(rsub[0] == rs@[i as int]);
            assert(rsub.skip(1) =~= rs@.skip(i as int + 1));
            assert(xsub[0] == xs@[i as int]);
            assert(xsub.skip(1) =~= xs@.skip(i as int + 1));
            assert(forall|j: int| 0 <= j < rsub.len() ==> rsub[j] >= 1);
            assert(forall|j: int| 0 <= j < xsub.len() ==> xsub[j] == rsub[j] || xsub[j] == 1);
            lemma_prod_pos(rs@.skip(i as int + 1));
            vstd::arithmetic::div_mod::lemma_fundamental_div_mod(
                rem as int,
                prod(rs@.skip(i as int + 1)),
            );
            vstd::arithmetic::div_mod::lemma_mod_bound(rem as int, prod(rs@.skip(i as int + 1)));
            lemma_prod_skip_unfold(rs@, i as int);
            lemma_src_index_bounds(rsub.skip(1), xsub.skip(1), rem as int % prod(
                rs@.skip(i as int + 1),
            ));
        }
        let st = rst[i];
        let d = rem / st;
        let xstv = xst[i];
        proof {
            assert(d as int == rem as int / prod(rs@.skip(i as int + 1)));
            assert(0 <= d as int && (d as int) < rsub[0] as int) by (nonlinear_arith)
                requires
                    rem as int == prod(rs@.skip(i as int + 1)) * (d as int) + rem as int % prod(
                        rs@.skip(i as int + 1),
                    ),
                    0 <= rem as int % prod(rs@.skip(i as int + 1)) < prod(rs@.skip(i as int + 1)),
                    0 <= rem as int,
                    (rem as int) < rsub[0] * prod(rs@.skip(i as int + 1)),
                    prod(rs@.skip(i as int + 1)) >= 1,
            ;
        }
        if xs[i] != 1 {
            proof {
                lemma_prod_skip_unfold(xs@, i as int);
                lemma_prod_pos(xs@.skip(i as int + 1));
                // the contribution plus the (nonnegative) rest equals a value
                // below prod(xs@), so the additions stay in bounds
                assert(d as int * xstv as int + src_index(
                    rsub.skip(1),
                    xsub.skip(1),
                    rem as int % prod(rs@.skip(i as int + 1)),
                ) == src_index(rsub, xsub, rem as int));
                assert(src_index(rsub.skip(1), xsub.skip(1), rem as int % prod(
                    rs@.skip(i as int + 1),
                )) >= 0);
                assert(d as int * xstv as int <= total - acc as int);
            }
            acc = acc + d * xstv;
        } else {
            proof {
                assert(src_index(rsub, xsub, rem as int) == src_index(
                    rsub.skip(1),
                    xsub.skip(1),
                    rem as int % prod(rs@.skip(i as int + 1)),
                ));
            }
        }
        rem = rem % st;
        i = i + 1;
    }
    proof {
        assert(rs@.skip(n as int).len() == 0);
        assert(src_index(rs@.skip(n as int), xs@.skip(n as int), rem as int) == 0);
    }
    acc
}

impl NdArray {
    /// Well-formedness of the executable array, stated over its model.
    pub open spec fn wf(&self) -> bool {
        self@.wf()
    }

    /// Builds an array from a shape and its row-major elements, rejecting
    /// shapes beyond the size limits and element vectors of the wrong
    /// length.
    pub fn new(shape: Vec<usize>, data: Vec<i64>) -> (r: Result<NdArray, EvalError>)
        ensures
            r is Ok <==> ok_shape(shape@) && data@.len() == prod(shape@),
            r matches Ok(a) ==> a@ == (ArrSpec { shape: shape@, data: data@ }) && a.wf(),
    {
        if shape.len() > MAX_RANK {
            return Err(EvalError::ShapeMismatch);
        }
        match checked_prod(&shape) {
            Some(p) => {
                if data.len() as u64 == p {
                    Ok(NdArray { shape, data })
                } else {
                    Err(EvalError::ShapeMismatch)
                }
            },
            None => Err(EvalError::ShapeMismatch),
        }
    }

    /// A rank-0 array holding one value.
    pub fn scalar(v: i64) -> (r: NdArray)
        ensures
            r@.shape == Seq::<usize>::empty(),
            r@.data == seq![v],
            r.wf(),
    {
        let a = NdArray { shape: Vec::new(), data: vec![v] };
        proof {
            assert(a@.shape =~= Seq::<usize>::empty());
            assert(a@.data =~= seq![v]);
        }
        a
    }

    /// An array of the given shape with every element equal to `v`.
    pub fn filled(shape: Vec<usize>, v: i64) -> (r: Result<NdArray, EvalError>)
        ensures
            r is Ok <==> ok_shape(shape@),
            r matches Ok(a) ==> a@.shape == shape@ && a@.data.len() == prod(shape@) && a.wf()
                && (forall|i: int| 0 <= i < a@.data.len() ==> a@.data[i] == v),
    {
        if shape.len() > MAX_RANK {
            return Err(EvalError::ShapeMismatch);
        }
        match checked_prod(&shape) {
            Some(p) => {
                let n = p as usize;
                let mut data: Vec<i64> = Vec::new();
                let mut i: usize = 0;
                while i < n
                    invariant
                        0 <= i <= n,
                        data@.len() == i,
                        forall|j: int| 0 <= j < i ==> data@[j] == v,
                    decreases n - i,
                {
                    data.push(v);
                    i = i + 1;
                }
                Ok(NdArray { shape, data })
            },
            None => Err(EvalError::ShapeMismatch),
        }
    }
}

} // verus!
