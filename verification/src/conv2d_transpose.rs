use vstd::prelude::*;

use crate::array::{prod, ArrSpec, NdArray, MAX_ELEMS};
use crate::error::EvalError;

verus! {

/// Largest stride, dilation or padding a convolution-family op accepts (a
/// machine limit keeping the index arithmetic inside `u64`).
pub const MAX_CONV_PARAM: u64 = 65536;

/// Largest operand element magnitude a convolution-family op accepts (a
/// machine limit keeping the accumulators inside `i128`).
pub const MAX_CONV_VAL: i64 = 0x8000_0000;

/// Spatial size of the transposed-convolution output recovered from an
/// output-gradient size `y` and kernel size `k`.
pub open spec fn spec_transposed_size(y: int, k: int, pad: int, stride: int, dilation: int) -> int {
    stride * (y - 1) + dilation * (k - 1) + 1 - 2 * pad
}

/// Spatial size of the matching forward convolution's output: the inverse
/// relation, recovering `y` from `x`.
pub open spec fn spec_conv_size(x: int, k: int, pad: int, stride: int, dilation: int) -> int {
    (x + 2 * pad - dilation * (k - 1) - 1) / stride + 1
}

/// Computes [`spec_transposed_size`], or `None` when an argument is
/// degenerate or the result leaves `1..=MAX_ELEMS`.
pub fn transposed_size(y: usize, k: usize, pad: usize, stride: usize, dilation: usize) -> (r:
    Option<usize>)
    requires
        y as u64 <= MAX_ELEMS,
        k as u64 <= MAX_ELEMS,
        pad as u64 <= MAX_CONV_PARAM,
        stride as u64 <= MAX_CONV_PARAM,
        dilation as u64 <= MAX_CONV_PARAM,
    ensures
        r is Some <==> y >= 1 && k >= 1 && stride >= 1 && dilation >= 1 && 1
            <= spec_transposed_size(y as int, k as int, pad as int, stride as int, dilation as int)
            <= MAX_ELEMS as int,
        r matches Some(v) ==> v as int == spec_transposed_size(
            y as int,
            k as int,
            pad as int,
            stride as int,
            dilation as int,
        ),
{
    if y == 0 || k == 0 || stride == 0 || dilation == 0 {
        return None;
    }
    proof {
        assert((stride as u128) * ((y - 1) as u128) <= 0x10000_0000_0000 && (dilation as u128) * ((
        k - 1) as u128) <= 0x10000_0000_0000) by (nonlinear_arith)
            requires
                stride as u128 <= 0x10000,
                dilation as u128 <= 0x10000,
                (y - 1) as u128 <= 0x1_0000_0000,
                (k - 1) as u128 <= 0x1_0000_0000,
        ;
    }
    let pos = (stride as u128) * ((y - 1) as u128) + (dilation as u128) * ((k - 1) as u128) + 1;
    let neg = 2 * (pad as u128);
    if pos <= neg {
        return None;
    }
    let v = pos - neg;
    if v > MAX_ELEMS as u128 {
        return None;
    }
    Some(v as usize)
}

/// Computes [`spec_conv_size`], or `None` when an argument is degenerate,
/// the kernel does not fit, or the result leaves `1..=MAX_ELEMS`.
pub fn conv_size(x: usize, k: usize, pad: usize, stride: usize, dilation: usize) -> (r: Option<
    usize,
>)
    requires
        x as u64 <= MAX_ELEMS,
        k as u64 <= MAX_ELEMS,
        pad as u64 <= MAX_CONV_PARAM,
        stride as u64 <= MAX_CONV_PARAM,
        dilation as u64 <= MAX_CONV_PARAM,
    ensures
        r is Some <==> x >= 1 && k >= 1 && stride >= 1 && dilation >= 1 && dilation * (k - 1) + 1
            <= x + 2 * pad && 1 <= spec_conv_size(
            x as int,
            k as int,
            pad as int,
            stride as int,
            dilation as int,
        ) <= MAX_ELEMS as int,
        r matches Some(v) ==> v as int == spec_conv_size(
            x as int,
            k as int,
            pad as int,
            stride as int,
            dilation as int,
        ),
{
    if x == 0 || k == 0 || stride == 0 || dilation == 0 {
        return None;
    }
    proof {
        assert((dilation as u128) * ((k - 1) as u128) <= 0x10000_0000_0000) by (nonlinear_arith)
            requires
                dilation as u128 <= 0x10000,
                (k - 1) as u128 <= 0x1_0000_0000,
        ;
    }
    let dk = (dilation as u128) * ((k - 1) as u128) + 1;
    let num = (x as u128) + 2 * (pad as u128);
    if num < dk {
        return None;
    }
    let q = (num - dk) / (stride as u128) + 1;
    proof {
        assert((num - dk) as int == x as int + 2 * pad - dilation * (k as int - 1) - 1);
    }
    if q > MAX_ELEMS as u128 {
        return None;
    }
    Some(q as usize)
}

/// One product of the matrix multiply `A x B`, where `A` is `m x kdim`
/// (stored transposed when `ta`) and `B` is `kdim x n` (stored transposed
/// when `tb`), both row-major at the given offsets.
pub open spec fn mm_term(
    a: Seq<i64>,
    b: Seq<i64>,
    offa: int,
    offb: int,
    m: int,
    n: int,
    kdim: int,
    ta: bool,
    tb: bool,
    i: int,
    j: int,
    l: int,
) -> int {
    let ai = offa + if ta {
        l * m + i
    } else {
        i * kdim + l
    };
    let bi = offb + if tb {
        j * kdim + l
    } else {
        l * n + j
    };
    a[ai] as int * b[bi] as int
}

/// Partial inner-product sum over the first `l` terms.
pub open spec fn mm_sum(
    a: Seq<i64>,
    b: Seq<i64>,
    offa: int,
    offb: int,
    m: int,
    n: int,
    kdim: int,
    ta: bool,
    tb: bool,
    i: int,
    j: int,
    l: nat,
) -> int
    decreases l,
{
    if l == 0 {
        0
    } else {
        mm_sum(a, b, offa, offb, m, n, kdim, ta, tb, i, j, (l - 1) as nat) + mm_term(
            a,
            b,
            offa,
            offb,
            m,
            n,
            kdim,
            ta,
            tb,
            i,
            j,
            l - 1,
        )
    }
}

/// Element `(i, j)` of the matrix product.
pub open spec fn mm_val(
    a: Seq<i64>,
    b: Seq<i64>,
    offa: int,
    offb: int,
    m: int,
    n: int,
    kdim: int,
    ta: bool,
    tb: bool,
    i: int,
    j: int,
) -> int {
    mm_sum(a, b, offa, offb, m, n, kdim, ta, tb, i, j, kdim as nat)
}

/// All values of a sequence are bounded by the convolution element cap.
pub open spec fn vals_capped(s: Seq<i64>) -> bool {
    forall|x: int| 0 <= x < s.len() ==> -MAX_CONV_VAL <= #[trigger] s[x] <= MAX_CONV_VAL
}

/// The indices a matrix-multiply term touches stay inside the two operand
/// regions.
proof fn lemma_mm_index_range(
    offa: int,
    offb: int,
    m: int,
    n: int,
    kdim: int,
    ta: bool,
    tb: bool,
    i: int,
    j: int,
    l: int,
    alen: int,
    blen: int,
)
    requires
        0 <= i < m,
        0 <= j < n,
        0 <= l < kdim,
        0 <= offa,
        0 <= offb,
        offa + m * kdim <= alen,
        offb + kdim * n <= blen,
    ensures
        offa <= offa + (if ta {
            l * m + i
        } else {
            i * kdim + l
        }) < alen,
        offb <= offb + (if tb {
            j * kdim + l
        } else {
            l * n + j
        }) < blen,
{
    assert(0 <= l * m + i < m * kdim && 0 <= i * kdim + l < m * kdim && 0 <= j * kdim + l < kdim
        * n && 0 <= l * n + j < kdim * n) by (nonlinear_arith)
        requires
            0 <= i < m,
            0 <= j < n,
            0 <= l < kdim,
    ;
}

proof fn lemma_mm_sum_bound(
    a: Seq<i64>,
    b: Seq<i64>,
    offa: int,
    offb: int,
    m: int,
    n: int,
    kdim: int,
    ta: bool,
    tb: bool,
    i: int,
    j: int,
    l: nat,
)
    requires
        vals_capped(a),
        vals_capped(b),
        0 <= i < m,
        0 <= j < n,
        l <= kdim,
        0 <= offa,
        0 <= offb,
        offa + m * kdim <= a.len(),
        offb + kdim * n <= b.len(),
    ensures
        -(l * 0x4000_0000_0000_0000_0000) <= mm_sum(a, b, offa, offb, m, n, kdim, ta, tb, i, j, l)
            <= l * 0x4000_0000_0000_0000_0000,
    decreases l,
{
    if l > 0 {
        lemma_mm_sum_bound(a, b, offa, offb, m, n, kdim, ta, tb, i, j, (l - 1) as nat);
        let ai = offa + if ta {
            (l - 1) * m + i
        } else {
            i * kdim + (l - 1)
        };
        let bi = offb + if tb {
            j * kdim + (l - 1)
        } else {
            (l - 1) * n + j
        };
        lemma_mm_index_range(offa, offb, m, n, kdim, ta, tb, i, j, l - 1, a.len() as int, b.len() as int);
        lemma_capped_product(a, b, ai, bi);
        assert((l - 1) * 0x4000_0000_0000_0000_0000 + 0x4000_0000_0000_0000_0000 == l
            * 0x4000_0000_0000_0000_0000) by (nonlinear_arith);
    }
}

/// Whether every element of the matrix product fits in `i64`.
pub open spec fn mm_fits(
    a: Seq<i64>,
    b: Seq<i64>,
    offa: int,
    offb: int,
    m: int,
    n: int,
    kdim: int,
    ta: bool,
    tb: bool,
) -> bool {
    forall|i: int, j: int|
        0 <= i < m && 0 <= j < n ==> i64::MIN <= #[trigger] mm_val(
            a,
            b,
            offa,
            offb,
            m,
            n,
            kdim,
            ta,
            tb,
            i,
            j,
        ) <= i64::MAX
}

/// Row-major matrix multiply `A x B` with `A` of logical shape `m x kdim`
/// at `a[offa..]` (stored transposed when `ta`) and `B` of logical shape
/// `kdim x n` at `b[offb..]` (stored transposed when `tb`).  The batched
/// kernel behind both convolution passes.
#[verifier::loop_isolation(false)]
pub fn matmul(
    a: &Vec<i64>,
    offa: usize,
    b: &Vec<i64>,
    offb: usize,
    m: usize,
    n: usize,
    kdim: usize,
    ta: bool,
    tb: bool,
) -> (r: Result<Vec<i64>, EvalError>)
    requires
        vals_capped(a@),
        vals_capped(b@),
        offa + m * kdim <= a@.len(),
        offb + kdim * n <= b@.len(),
        m * n <= MAX_ELEMS as int,
        kdim <= MAX_ELEMS as usize as int,
    ensures
        r is Ok <==> mm_fits(a@, b@, offa as int, offb as int, m as int, n as int, kdim as int, ta, tb),
        r matches Ok(v) ==> v@.len() == m * n && forall|t: int|
            0 <= t < m * n ==> #[trigger] v@[t] as int == mm_val(
                a@,
                b@,
                offa as int,
                offb as int,
                m as int,
                n as int,
                kdim as int,
                ta,
                tb,
                t / (n as int),
                t % (n as int),
            ),
        r is Err ==> r == Err::<Vec<i64>, EvalError>(EvalError::ValueOutOfRange),
{
    let alen = a.len();
    let blen = b.len();
    let mut out: Vec<i64> = Vec::new();
    let mut i: usize = 0;
    while i < m
        invariant
            0 <= i <= m,
            out@.len() == i * n,
            forall|t: int|
                0 <= t < out@.len() ==> #[trigger] out@[t] as int == mm_val(
                    a@,
                    b@,
                    offa as int,
                    offb as int,
                    m as int,
                    n as int,
                    kdim as int,
                    ta,
                    tb,
                    t / (n as int),
                    t % (n as int),
                ),
            forall|i2: int, j2: int|
                0 <= i2 < i && 0 <= j2 < n ==> i64::MIN <= #[trigger] mm_val(
                    a@,
                    b@,
                    offa as int,
                    offb as int,
                    m as int,
                    n as int,
                    kdim as int,
                    ta,
                    tb,
                    i2,
                    j2,
                ) <= i64::MAX,
        decreases m - i,
    {
        let mut j: usize = 0;
        proof {
            assert(i * n + n <= m * n) by (nonlinear_arith)
                requires
                    i < m,
                    n >= 0,
            ;
        }
        while j < n
            invariant
                0 <= j <= n,
                i < m,
                out@.len() == i * n + j,
                forall|t: int|
                    0 <= t < out@.len() ==> #[trigger] out@[t] as int == mm_val(
                        a@,
                        b@,
                        offa as int,
                        offb as int,
                        m as int,
                        n as int,
                        kdim as int,
                        ta,
                        tb,
                        t / (n as int),
                        t % (n as int),
                    ),
                forall|i2: int, j2: int|
                    (0 <= i2 < i && 0 <= j2 < n) || (i2 == i && 0 <= j2 < j) ==> i64::MIN
                        <= #[trigger] mm_val(
                        a@,
                        b@,
                        offa as int,
                        offb as int,
                        m as int,
                        n as int,
                        kdim as int,
                        ta,
                        tb,
                        i2,
                        j2,
                    ) <= i64::MAX,
            decreases n - j,
        {
            let mut acc: i128 = 0;
            let mut l: usize = 0;
            while l < kdim
                invariant
                    0 <= l <= kdim,
                    i < m,
                    j < n,
                    acc as int == mm_sum(
                        a@,
                        b@,
                        offa as int,
                        offb as int,
                        m as int,
                        n as int,
                        kdim as int,
                        ta,
                        tb,
                        i as int,
                        j as int,
                        l as nat,
                    ),
                decreases kdim - l,
            {
                proof {
                    lemma_mm_index_range(
                        offa as int,
                        offb as int,
                        m as int,
                        n as int,
                        kdim as int,
                        ta,
                        tb,
                        i as int,
                        j as int,
                        l as int,
                        a@.len() as int,
                        b@.len() as int,
                    );
                    lemma_mm_sum_bound(
                        a@,
                        b@,
                        offa as int,
                        offb as int,
                        m as int,
                        n as int,
                        kdim as int,
                        ta,
                        tb,
                        i as int,
                        j as int,
                        l as nat,
                    );
                    lemma_capped_product(
                        a@,
                        b@,
                        offa as int + if ta {
                            l * m + i
                        } else {
                            i * (kdim as int) + l
                        },
                        offb as int + if tb {
                            j * (kdim as int) + l
                        } else {
                            l * (n as int) + j
                        },
                    );
                }
                let ai = offa + if ta {
                    l * m + i
                } else {
                    i * kdim + l
                };
                let bi = offb + if tb {
                    j * kdim + l
                } else {
                    l * n + j
                };
                let term: i128 = (a[ai] as i128) * (b[bi] as i128);
                acc = acc + term;
                l = l + 1;
            }
            if acc < i64::MIN as i128 || acc > i64::MAX as i128 {
                proof {
                    assert(!(i64::MIN <= mm_val(
                        a@,
                        b@,
                        offa as int,
                        offb as int,
                        m as int,
                        n as int,
                        kdim as int,
                        ta,
                        tb,
                        i as int,
                        j as int,
                    ) <= i64::MAX));
                    assert(!mm_fits(
                        a@,
                        b@,
                        offa as int,
                        offb as int,
                        m as int,
                        n as int,
                        kdim as int,
                        ta,
                        tb,
                    ));
                }
                return Err(EvalError::ValueOutOfRange);
            }
            out.push(acc as i64);
            proof {
                vstd::arithmetic::div_mod::lemma_fundamental_div_mod_converse(
                    i * (n as int) + j,
                    n as int,
                    i as int,
                    j as int,
                );
            }
            j = j + 1;
        }
        i = i + 1;
        proof {
            assert((i - 1) * n + n == i * n) by (nonlinear_arith);
        }
    }
    proof {
        assert(mm_fits(a@, b@, offa as int, offb as int, m as int, n as int, kdim as int, ta, tb));
    }
    Ok(out)
}

/// Division bounds: a flat index below `b * d` splits into a quotient below
/// `b` and a remainder below `d`.
pub proof fn lemma_div_below(t: int, d: int, b: int)
    requires
        0 <= t,
        t < b * d,
        d >= 1,
    ensures
        0 <= t / d < b,
        0 <= t % d < d,
        t == d * (t / d) + t % d,
{
    vstd::arithmetic::div_mod::lemma_fundamental_div_mod(t, d);
    vstd::arithmetic::div_mod::lemma_mod_bound(t, d);
    assert(t / d < b) by (nonlinear_arith)
        requires
            t == d * (t / d) + t % d,
            0 <= t % d < d,
            0 <= t < b * d,
            d >= 1,
    ;
    assert(t / d >= 0) by (nonlinear_arith)
        requires
            t == d * (t / d) + t % d,
            0 <= t % d < d,
            0 <= t,
            d >= 1,
    ;
}

/// Flat index of `(c, i, j, y, x)` inside a column buffer laid out
/// `(channel, kernel row, kernel column, output row, output column)`.
pub open spec fn col_index(
    kh: int,
    kw: int,
    yh: int,
    yw: int,
    c: int,
    i: int,
    j: int,
    y: int,
    x: int,
) -> int {
    (((c * kh + i) * kw + j) * yh + y) * yw + x
}

/// One element of the column expansion of an image: the image value under
/// kernel offset `(i, j)` at output position `(y, x)`, or zero where the
/// (dilated, padded) kernel overhangs the image.
pub open spec fn im2col_entry(
    im: Seq<i64>,
    off: int,
    xh: int,
    xw: int,
    pad: int,
    stride: int,
    dilation: int,
    c: int,
    i: int,
    j: int,
    y: int,
    x: int,
) -> i64 {
    let h = y * stride + i * dilation - pad;
    let w = x * stride + j * dilation - pad;
    if 0 <= h < xh && 0 <= w < xw {
        im[off + (c * xh + h) * xw + w]
    } else {
        0i64
    }
}

/// The column buffer element at flat index `t`, decoded row-major as
/// `(c, i, j, y, x)`.
pub open spec fn im2col_at(
    im: Seq<i64>,
    off: int,
    xh: int,
    xw: int,
    kh: int,
    kw: int,
    yh: int,
    yw: int,
    pad: int,
    stride: int,
    dilation: int,
    t: int,
) -> i64 {
    let x = t % yw;
    let r1 = t / yw;
    let y = r1 % yh;
    let r2 = r1 / yh;
    let j = r2 % kw;
    let r3 = r2 / kw;
    let i = r3 % kh;
    let c = r3 / kh;
    im2col_entry(im, off, xh, xw, pad, stride, dilation, c, i, j, y, x)
}

/// Expands the image at `im[off..]` of shape `(ch, xh, xw)` into a column
/// buffer of shape `(ch, kh, kw, yh, yw)`: a pure gather, shared between the
/// forward convolution and the transposed convolution's filter gradient.
#[verifier::loop_isolation(false)]
pub fn im2col(
    im: &Vec<i64>,
    off: usize,
    ch: usize,
    xh: usize,
    xw: usize,
    kh: usize,
    kw: usize,
    pad: usize,
    stride: usize,
    dilation: usize,
    yh: usize,
    yw: usize,
) -> (r: Vec<i64>)
    requires
        ch * (xh * xw) <= MAX_ELEMS as int,
        ch * (kh * (kw * (yh * yw))) <= MAX_ELEMS as int,
        off + ch * (xh * xw) <= im@.len(),
        ch >= 1 && xh >= 1 && xw >= 1 && kh >= 1 && kw >= 1 && yh >= 1 && yw >= 1,
        pad as u64 <= MAX_CONV_PARAM,
        stride as u64 <= MAX_CONV_PARAM,
        dilation as u64 <= MAX_CONV_PARAM,
    ensures
        r@.len() == ch * (kh * (kw * (yh * yw))),
        forall|t: int|
            0 <= t < r@.len() ==> #[trigger] r@[t] == im2col_at(
                im@,
                off as int,
                xh as int,
                xw as int,
                kh as int,
                kw as int,
                yh as int,
                yw as int,
                pad as int,
                stride as int,
                dilation as int,
                t,
            ),
        vals_capped(im@) ==> vals_capped(r@),
{
    let imlen = im.len();
    proof {
        lemma_nested_product_bounds(ch as int, kh as int, kw as int, yh as int, yw as int);
    }
    let total: usize = ch * (kh * (kw * (yh * yw)));
    let mut out: Vec<i64> = Vec::new();
    let mut t: usize = 0;
    while t < total
        invariant
            0 <= t <= total,
            out@.len() == t,
            forall|u: int|
                0 <= u < t ==> #[trigger] out@[u] == im2col_at(
                    im@,
                    off as int,
                    xh as int,
                    xw as int,
                    kh as int,
                    kw as int,
                    yh as int,
                    yw as int,
                    pad as int,
                    stride as int,
                    dilation as int,
                    u,
                ),
            vals_capped(im@) ==> vals_capped(out@),
        decreases total - t,
    {
        let x = t % yw;
        let r1 = t / yw;
        let y = r1 % yh;
        let r2 = r1 / yh;
        let j = r2 % kw;
        let r3 = r2 / kw;
        let i = r3 % kh;
        let c = r3 / kh;
        proof {
            lemma_im2col_decode_bounds(
                ch as int,
                kh as int,
                kw as int,
                yh as int,
                yw as int,
                t as int,
            );
        }
        proof {
            assert((y as u64) * (stride as u64) <= 0x1_0000_0000_0000 && (i as u64) * (
            dilation as u64) <= 0x1_0000_0000_0000 && (x as u64) * (stride as u64)
                <= 0x1_0000_0000_0000 && (j as u64) * (dilation as u64)
                <= 0x1_0000_0000_0000) by (nonlinear_arith)
                requires
                    0 <= y as u64 <= MAX_ELEMS && 0 <= x as u64 <= MAX_ELEMS,
                    0 <= i as u64 <= MAX_ELEMS && 0 <= j as u64 <= MAX_ELEMS,
                    stride as u64 <= MAX_CONV_PARAM,
                    dilation as u64 <= MAX_CONV_PARAM,
            ;
        }
        let hp = (y as u64) * (stride as u64) + (i as u64) * (dilation as u64);
        let wp = (x as u64) * (stride as u64) + (j as u64) * (dilation as u64);
        let v: i64 = if hp >= pad as u64 && (hp - pad as u64) < (xh as u64) && wp >= pad as u64
            && (wp - pad as u64) < (xw as u64) {
            let h = (hp - pad as u64) as usize;
            let w = (wp - pad as u64) as usize;
            proof {
                assert(0 <= c * xh && c * xh + h < ch * xh && ch * xh <= ch * (xh * xw) && (c * xh
                    + h) * xw + w < ch * (xh * xw) && 0 <= (c * xh + h) * xw) by (nonlinear_arith)
                    requires
                        0 <= c < ch,
                        0 <= h < xh,
                        0 <= w < xw,
                        xw >= 1,
                ;
            }
            im[off + (c * xh + h) * xw + w]
        } else {
            0
        };
        out.push(v);
        t = t + 1;
    }
    out
}

/// One contribution to an image cell `(c, h, w)` from kernel offset
/// `(i, j)`: the column-buffer entry whose receptive field covers the cell,
/// or zero when the offset maps outside the output grid.
pub open spec fn col2im_term(
    col: Seq<i64>,
    off: int,
    kh: int,
    kw: int,
    yh: int,
    yw: int,
    pad: int,
    stride: int,
    dilation: int,
    c: int,
    h: int,
    w: int,
    i: int,
    j: int,
) -> int {
    let hh = h + pad - i * dilation;
    let ww = w + pad - j * dilation;
    if 0 <= hh && 0 <= ww && hh % stride == 0 && ww % stride == 0 && hh / stride < yh && ww
        / stride < yw {
        col[off + col_index(kh, kw, yh, yw, c, i, j, hh / stride, ww / stride)] as int
    } else {
        0
    }
}

/// Partial sum of the contributions of kernel row `i` over its first `jn`
/// kernel columns.
pub open spec fn col2im_sum_j(
    col: Seq<i64>,
    off: int,
    kh: int,
    kw: int,
    yh: int,
    yw: int,
    pad: int,
    stride: int,
    dilation: int,
    c: int,
    h: int,
    w: int,
    i: int,
    jn: nat,
) -> int
    decreases jn,
{
    if jn == 0 {
        0
    } else {
        col2im_sum_j(col, off, kh, kw, yh, yw, pad, stride, dilation, c, h, w, i, (jn - 1) as nat)
            + col2im_term(col, off, kh, kw, yh, yw, pad, stride, dilation, c, h, w, i, jn - 1)
    }
}

/// Partial sum of the contributions of the first `inn` kernel rows.
pub open spec fn col2im_sum_i(
    col: Seq<i64>,
    off: int,
    kh: int,
    kw: int,
    yh: int,
    yw: int,
    pad: int,
    stride: int,
    dilation: int,
    c: int,
    h: int,
    w: int,
    inn: nat,
) -> int
    decreases inn,
{
    if inn == 0 {
        0
    } else {
        col2im_sum_i(col, off, kh, kw, yh, yw, pad, stride, dilation, c, h, w, (inn - 1) as nat)
            + col2im_sum_j(
            col,
            off,
            kh,
            kw,
            yh,
            yw,
            pad,
            stride,
            dilation,
            c,
            h,
            w,
            inn - 1,
            kw as nat,
        )
    }
}

/// The image cell `(c, h, w)`: every overlapping receptive-field
/// contribution summed.
pub open spec fn col2im_val(
    col: Seq<i64>,
    off: int,
    kh: int,
    kw: int,
    yh: int,
    yw: int,
    pad: int,
    stride: int,
    dilation: int,
    c: int,
    h: int,
    w: int,
) -> int {
    col2im_sum_i(col, off, kh, kw, yh, yw, pad, stride, dilation, c, h, w, kh as nat)
}

/// The image cell at flat index `t`, decoded row-major as `(c, h, w)`.
pub open spec fn col2im_at(
    col: Seq<i64>,
    off: int,
    kh: int,
    kw: int,
    yh: int,
    yw: int,
    pad: int,
    stride: int,
    dilation: int,
    xh: int,
    xw: int,
    t: int,
) -> int {
    let w = t % xw;
    let r1 = t / xw;
    let h = r1 % xh;
    let c = r1 / xh;
    col2im_val(col, off, kh, kw, yh, yw, pad, stride, dilation, c, h, w)
}

/// Whether every image cell of the col-to-image accumulation fits in `i64`.
pub open spec fn col2im_fits(
    col: Seq<i64>,
    off: int,
    kh: int,
    kw: int,
    yh: int,
    yw: int,
    pad: int,
    stride: int,
    dilation: int,
    ch: int,
    xh: int,
    xw: int,
) -> bool {
    forall|t: int|
        0 <= t < ch * (xh * xw) ==> i64::MIN <= #[trigger] col2im_at(
            col,
            off,
            kh,
            kw,
            yh,
            yw,
            pad,
            stride,
            dilation,
            xh,
            xw,
            t,
        ) <= i64::MAX
}

proof fn lemma_col2im_sum_j_bound(
    col: Seq<i64>,
    off: int,
    kh: int,
    kw: int,
    yh: int,
    yw: int,
    pad: int,
    stride: int,
    dilation: int,
    c: int,
    h: int,
    w: int,
    i: int,
    jn: nat,
)
    ensures
        -(jn * 0x8000_0000_0000_0000) <= col2im_sum_j(
            col,
            off,
            kh,
            kw,
            yh,
            yw,
            pad,
            stride,
            dilation,
            c,
            h,
            w,
            i,
            jn,
        ) <= jn * 0x8000_0000_0000_0000,
    decreases jn,
{
    if jn > 0 {
        lemma_col2im_sum_j_bound(
            col,
            off,
            kh,
            kw,
            yh,
            yw,
            pad,
            stride,
            dilation,
            c,
            h,
            w,
            i,
            (jn - 1) as nat,
        );
        assert((jn - 1) * 0x8000_0000_0000_0000 + 0x8000_0000_0000_0000 == jn
            * 0x8000_0000_0000_0000) by (nonlinear_arith);
    }
}

proof fn lemma_col2im_sum_i_bound(
    col: Seq<i64>,
    off: int,
    kh: int,
    kw: int,
    yh: int,
    yw: int,
    pad: int,
    stride: int,
    dilation: int,
    c: int,
    h: int,
    w: int,
    inn: nat,
)
    requires
        kw >= 0,
    ensures
        -(inn * (kw * 0x8000_0000_0000_0000)) <= col2im_sum_i(
            col,
            off,
            kh,
            kw,
            yh,
            yw,
            pad,
            stride,
            dilation,
            c,
            h,
            w,
            inn,
        ) <= inn * (kw * 0x8000_0000_0000_0000),
    decreases inn,
{
    if inn > 0 {
        lemma_col2im_sum_i_bound(
            col,
            off,
            kh,
            kw,
            yh,
            yw,
            pad,
            stride,
            dilation,
            c,
            h,
            w,
            (inn - 1) as nat,
        );
        lemma_col2im_sum_j_bound(
            col,
            off,
            kh,
            kw,
            yh,
            yw,
            pad,
            stride,
            dilation,
            c,
            h,
            w,
            inn - 1,
            kw as nat,
        );
        assert((inn - 1) * (kw * 0x8000_0000_0000_0000) + kw * 0x8000_0000_0000_0000 == inn * (kw
            * 0x8000_0000_0000_0000)) by (nonlinear_arith);
    }
}

/// The decoded coordinates of a flat image index are in range.
pub proof fn lemma_col2im_decode_bounds(ch: int, xh: int, xw: int, t: int)
    requires
        0 <= t,
        t < ch * (xh * xw),
        ch >= 1 && xh >= 1 && xw >= 1,
    ensures
        0 <= t % xw < xw,
        0 <= (t / xw) % xh < xh,
        0 <= (t / xw) / xh < ch,
{
    assert(t < (ch * xh) * xw) by (nonlinear_arith)
        requires
            t < ch * (xh * xw),
    ;
    lemma_div_below(t, xw, ch * xh);
    lemma_div_below(t / xw, xh, ch);
}

/// The flat column-buffer index of in-range coordinates is in range, and so
/// are the intermediate products that build it.
pub proof fn lemma_col_index_bound(
    ch: int,
    kh: int,
    kw: int,
    yh: int,
    yw: int,
    c: int,
    i: int,
    j: int,
    y: int,
    x: int,
)
    requires
        0 <= c < ch,
        0 <= i < kh,
        0 <= j < kw,
        0 <= y < yh,
        0 <= x < yw,
    ensures
        0 <= col_index(kh, kw, yh, yw, c, i, j, y, x) < ch * (kh * (kw * (yh * yw))),
        0 <= c * kh + i < ch * kh,
        0 <= (c * kh + i) * kw + j < ch * (kh * kw),
        0 <= ((c * kh + i) * kw + j) * yh + y < ch * (kh * (kw * yh)),
{
    assert(0 <= c * kh + i < ch * kh && 0 <= (c * kh + i) * kw + j < (ch * kh) * kw && 0 <= ((c
        * kh + i) * kw + j) * yh + y < ((ch * kh) * kw) * yh && 0 <= (((c * kh + i) * kw + j) * yh
        + y) * yw + x < (((ch * kh) * kw) * yh) * yw && (ch * kh) * kw == ch * (kh * kw) && ((ch
        * kh) * kw) * yh == ch * (kh * (kw * yh)) && (((ch * kh) * kw) * yh) * yw == ch * (kh * (kw
        * (yh * yw)))) by (nonlinear_arith)
        requires
            0 <= c < ch,
            0 <= i < kh,
            0 <= j < kw,
            0 <= y < yh,
            0 <= x < yw,
    ;
}

/// Accumulates the column buffer at `col[off..]` of shape
/// `(ch, kh, kw, yh, yw)` back into an image of shape `(ch, xh, xw)`,
/// summing every overlapping receptive-field contribution: the scatter half
/// of the transposed convolution, shared with its filter gradient.
#[verifier::loop_isolation(false)]
pub fn col2im(
    col: &Vec<i64>,
    off: usize,
    ch: usize,
    xh: usize,
    xw: usize,
    kh: usize,
    kw: usize,
    pad: usize,
    stride: usize,
    dilation: usize,
    yh: usize,
    yw: usize,
) -> (r: Result<Vec<i64>, EvalError>)
    requires
        ch >= 1 && xh >= 1 && xw >= 1 && kh >= 1 && kw >= 1 && yh >= 1 && yw >= 1,
        stride >= 1,
        ch * (xh * xw) <= MAX_ELEMS as int,
        ch * (kh * (kw * (yh * yw))) <= MAX_ELEMS as int,
        off + ch * (kh * (kw * (yh * yw))) <= col@.len(),
        pad as u64 <= MAX_CONV_PARAM,
        stride as u64 <= MAX_CONV_PARAM,
        dilation as u64 <= MAX_CONV_PARAM,
    ensures
        r is Ok <==> col2im_fits(
            col@,
            off as int,
            kh as int,
            kw as int,
            yh as int,
            yw as int,
            pad as int,
            stride as int,
            dilation as int,
            ch as int,
            xh as int,
            xw as int,
        ),
        r matches Ok(v) ==> v@.len() == ch * (xh * xw) && forall|t: int|
            0 <= t < v@.len() ==> #[trigger] v@[t] as int == col2im_at(
                col@,
                off as int,
                kh as int,
                kw as int,
                yh as int,
                yw as int,
                pad as int,
                stride as int,
                dilation as int,
                xh as int,
                xw as int,
                t,
            ),
        r is Err ==> r == Err::<Vec<i64>, EvalError>(EvalError::ValueOutOfRange),
{
    let collen = col.len();
    proof {
        lemma_nested_product_bounds(ch as int, kh as int, kw as int, yh as int, yw as int);
        assert(ch * xh <= ch * (xh * xw) && xh * xw <= ch * (xh * xw) && xh <= xh * xw && xw <= xh
            * xw && ch <= ch * (xh * xw)) by (nonlinear_arith)
            requires
                ch >= 1 && xh >= 1 && xw >= 1,
        ;
        assert((ch * xh) * xw == ch * (xh * xw)) by (nonlinear_arith);
    }
    let total: usize = ch * (xh * xw);
    let mut out: Vec<i64> = Vec::new();
    let mut t: usize = 0;
    while t < total
        invariant
            0 <= t <= total,
            out@.len() == t,
            forall|u: int|
                0 <= u < t ==> i64::MIN <= #[trigger] col2im_at(
                    col@,
                    off as int,
                    kh as int,
                    kw as int,
                    yh as int,
                    yw as int,
                    pad as int,
                    stride as int,
                    dilation as int,
                    xh as int,
                    xw as int,
                    u,
                ) <= i64::MAX,
            forall|u: int|
                0 <= u < t ==> #[trigger] out@[u] as int == col2im_at(
                    col@,
                    off as int,
                    kh as int,
                    kw as int,
                    yh as int,
                    yw as int,
                    pad as int,
                    stride as int,
                    dilation as int,
                    xh as int,
                    xw as int,
                    u,
                ),
        decreases total - t,
    {
        let w = t % xw;
        let r1 = t / xw;
        let h = r1 % xh;
        let c = r1 / xh;
        proof {
            lemma_col2im_decode_bounds(ch as int, xh as int, xw as int, t as int);
        }
        let ghost gsj = |i2: int, j2: int|
            col2im_sum_j(
                col@,
                off as int,
                kh as int,
                kw as int,
                yh as int,
                yw as int,
                pad as int,
                stride as int,
                dilation as int,
                c as int,
                h as int,
                w as int,
                i2,
                j2 as nat,
            );
        let ghost gsi = |i2: int|
            col2im_sum_i(
                col@,
                off as int,
                kh as int,
                kw as int,
                yh as int,
                yw as int,
                pad as int,
                stride as int,
                dilation as int,
                c as int,
                h as int,
                w as int,
                i2 as nat,
            );
        let mut acc: i128 = 0;
        let mut i: usize = 0;
        while i < kh
            invariant
                0 <= i <= kh,
                acc as int == gsi(i as int),
            decreases kh - i,
        {
            let mut j: usize = 0;
            while j < kw
                invariant
                    0 <= j <= kw,
                    i < kh,
                    acc as int == gsi(i as int) + gsj(i as int, j as int),
                decreases kw - j,
            {
                proof {
                    lemma_col2im_sum_i_bound(
                        col@,
                        off as int,
                        kh as int,
                        kw as int,
                        yh as int,
                        yw as int,
                        pad as int,
                        stride as int,
                        dilation as int,
                        c as int,
                        h as int,
                        w as int,
                        i as nat,
                    );
                    lemma_col2im_sum_j_bound(
                        col@,
                        off as int,
                        kh as int,
                        kw as int,
                        yh as int,
                        yw as int,
                        pad as int,
                        stride as int,
                        dilation as int,
                        c as int,
                        h as int,
                        w as int,
                        i as int,
                        j as nat,
                    );
                    assert(kh * kw <= 0x1_0000_0000) by (nonlinear_arith)
                        requires
                            kh * (kw * (yh * yw)) <= MAX_ELEMS as int,
                            kh >= 1 && kw >= 1 && yh >= 1 && yw >= 1,
                    ;
                    assert(0 <= i * (kw * 0x8000_0000_0000_0000)
                        <= 0x8000_0000_0000_0000_0000_0000 && 0 <= j * 0x8000_0000_0000_0000
                        <= 0x8000_0000_0000_0000_0000_0000) by (nonlinear_arith)
                        requires
                            0 <= i < kh,
                            0 <= j < kw,
                            kh * kw <= 0x1_0000_0000,
                            kh >= 1 && kw >= 1,
                    ;
                }
                let hp = (h as u64) + (pad as u64);
                let wp = (w as u64) + (pad as u64);
                proof {
                    assert((i as u64) * (dilation as u64) <= 0x1_0000_0000_0000 && (j as u64) * (
                    dilation as u64) <= 0x1_0000_0000_0000) by (nonlinear_arith)
                        requires
                            0 <= i as u64 <= MAX_ELEMS && 0 <= j as u64 <= MAX_ELEMS,
                            dilation as u64 <= MAX_CONV_PARAM,
                    ;
                }
                let id = (i as u64) * (dilation as u64);
                let jd = (j as u64) * (dilation as u64);
                let mut term: i128 = 0;
                if hp >= id && wp >= jd {
                    let hh = hp - id;
                    let ww = wp - jd;
                    if hh % (stride as u64) == 0 && ww % (stride as u64) == 0 {
                        let y2 = hh / (stride as u64);
                        let x2 = ww / (stride as u64);
                        if y2 < yh as u64 && x2 < yw as u64 {
                            proof {
                                lemma_col_index_bound(
                                    ch as int,
                                    kh as int,
                                    kw as int,
                                    yh as int,
                                    yw as int,
                                    c as int,
                                    i as int,
                                    j as int,
                                    y2 as int,
                                    x2 as int,
                                );
                                assert(ch * kh <= ch * (kh * (kw * (yh * yw))) && ch * (kh * kw)
                                    <= ch * (kh * (kw * (yh * yw))) && ch * (kh * (kw * yh)) <= ch
                                    * (kh * (kw * (yh * yw)))) by (nonlinear_arith)
                                    requires
                                        ch >= 1 && kh >= 1 && kw >= 1 && yh >= 1 && yw >= 1,
                                ;
                            }
                            let idx = off + (((c * kh + i) * kw + j) * yh + (y2 as usize)) * yw + (
                            x2 as usize);
                            term = col[idx] as i128;
                        }
                    }
                }
                acc = acc + term;
                j = j + 1;
            }
            i = i + 1;
        }
        if acc < i64::MIN as i128 || acc > i64::MAX as i128 {
            proof {
                assert(col2im_at(
                    col@,
                    off as int,
                    kh as int,
                    kw as int,
                    yh as int,
                    yw as int,
                    pad as int,
                    stride as int,
                    dilation as int,
                    xh as int,
                    xw as int,
                    t as int,
                ) == acc as int);
                assert(!col2im_fits(
                    col@,
                    off as int,
                    kh as int,
                    kw as int,
                    yh as int,
                    yw as int,
                    pad as int,
                    stride as int,
                    dilation as int,
                    ch as int,
                    xh as int,
                    xw as int,
                ));
            }
            return Err(EvalError::ValueOutOfRange);
        }
        out.push(acc as i64);
        t = t + 1;
    }
    Ok(out)
}

/// Transposed 2-D convolution: takes an output gradient of shape
/// `(batch, ych, yh, yw)` and a filter of shape `(ych, xch, kh, kw)` and
/// scatters each gradient element over its receptive field, producing an
/// array of shape `(batch, xch, xh, xw)`.
#[derive(Clone, Copy, Debug, PartialEq, Eq, Structural)]
pub struct Conv2DTranspose {
    pub pad: usize,
    pub stride: usize,
    pub dilation: usize,
}

/// Gradient of [`Conv2DTranspose`] with respect to its filter input.
#[derive(Clone, Copy, Debug, PartialEq, Eq, Structural)]
pub struct Conv2DTransposeFilterGrad {
    pub pad: usize,
    pub stride: usize,
    pub dilation: usize,
}

/// Forward 2-D convolution, the inverse shape relation of
/// [`Conv2DTranspose`]; its backward pass reuses the same column-buffer
/// machinery.
#[derive(Clone, Copy, Debug, PartialEq, Eq, Structural)]
pub struct Conv2D {
    pub pad: usize,
    pub stride: usize,
    pub dilation: usize,
}

/// The convolution parameters are positive (stride, dilation) and within
/// the machine caps.
pub open spec fn conv_params_ok(pad: usize, stride: usize, dilation: usize) -> bool {
    &&& 1 <= stride && stride as u64 <= MAX_CONV_PARAM
    &&& 1 <= dilation && dilation as u64 <= MAX_CONV_PARAM
    &&& pad as u64 <= MAX_CONV_PARAM
}

/// The per-batch column buffer of the transposed convolution: the filter
/// (transposed) multiplied with one batch slice of the output gradient.
pub open spec fn conv_t_cols(gy: ArrSpec, w: ArrSpec, b: int) -> Seq<i64> {
    let ych = w.shape[0] as int;
    let xch = w.shape[1] as int;
    let kh = w.shape[2] as int;
    let kw = w.shape[3] as int;
    let yh = gy.shape[2] as int;
    let yw = gy.shape[3] as int;
    let m = xch * (kh * kw);
    let n = yh * yw;
    Seq::new(
        (m * n) as nat,
        |t: int|
            mm_val(
                w.data,
                gy.data,
                0,
                b * (ych * (yh * yw)),
                m,
                n,
                ych,
                true,
                false,
                t / n,
                t % n,
            ) as i64,
    )
}

/// When the transposed convolution is defined: well-formed 4-D operands
/// with matching channel counts, parameters within the caps, a positive
/// output size, buffers within the element cap, operand values within the
/// kernel cap, and every intermediate and final element representable.
pub open spec fn conv_t_ok(pad: usize, stride: usize, dilation: usize, gy: ArrSpec, w: ArrSpec) -> bool {
    let batch = gy.shape[0] as int;
    let ych = w.shape[0] as int;
    let xch = w.shape[1] as int;
    let kh = w.shape[2] as int;
    let kw = w.shape[3] as int;
    let yh = gy.shape[2] as int;
    let yw = gy.shape[3] as int;
    let xh = spec_transposed_size(yh, kh, pad as int, stride as int, dilation as int);
    let xw = spec_transposed_size(yw, kw, pad as int, stride as int, dilation as int);
    &&& gy.shape.len() == 4
    &&& w.shape.len() == 4
    &&& batch >= 1 && ych >= 1 && yh >= 1 && yw >= 1
    &&& xch >= 1 && kh >= 1 && kw >= 1
    &&& gy.shape[1] == w.shape[0]
    &&& conv_params_ok(pad, stride, dilation)
    &&& 1 <= xh <= MAX_ELEMS as int
    &&& 1 <= xw <= MAX_ELEMS as int
    &&& xch * (kh * (kw * (yh * yw))) <= MAX_ELEMS as int
    &&& xch * (xh * xw) <= MAX_ELEMS as int
    &&& batch * (xch * (xh * xw)) <= MAX_ELEMS as int
    &&& vals_capped(gy.data) && vals_capped(w.data)
    &&& (forall|b: int|
        0 <= b < batch ==> #[trigger] mm_fits(
            w.data,
            gy.data,
            0,
            b * (ych * (yh * yw)),
            xch * (kh * kw),
            yh * yw,
            ych,
            true,
            false,
        ))
    &&& (forall|b: int|
        0 <= b < batch ==> col2im_fits(
            #[trigger] conv_t_cols(gy, w, b),
            0,
            kh,
            kw,
            yh,
            yw,
            pad as int,
            stride as int,
            dilation as int,
            xch,
            xh,
            xw,
        ))
}

/// The result shape of the transposed convolution.
pub open spec fn conv_t_shape(pad: usize, stride: usize, dilation: usize, gy: ArrSpec, w: ArrSpec) -> Seq<usize> {
    let yh = gy.shape[2] as int;
    let yw = gy.shape[3] as int;
    let kh = w.shape[2] as int;
    let kw = w.shape[3] as int;
    seq![
        gy.shape[0],
        w.shape[1],
        spec_transposed_size(yh, kh, pad as int, stride as int, dilation as int) as usize,
        spec_transposed_size(yw, kw, pad as int, stride as int, dilation as int) as usize,
    ]
}

/// The result elements of the transposed convolution: batch `u / per`,
/// image cell `u % per` of that batch's col-to-image accumulation.
pub open spec fn conv_t_data(pad: usize, stride: usize, dilation: usize, gy: ArrSpec, w: ArrSpec) -> Seq<i64> {
    let batch = gy.shape[0] as int;
    let xch = w.shape[1] as int;
    let kh = w.shape[2] as int;
    let kw = w.shape[3] as int;
    let yh = gy.shape[2] as int;
    let yw = gy.shape[3] as int;
    let xh = spec_transposed_size(yh, kh, pad as int, stride as int, dilation as int);
    let xw = spec_transposed_size(yw, kw, pad as int, stride as int, dilation as int);
    let per = xch * (xh * xw);
    Seq::new(
        (batch * per) as nat,
        |u: int|
            col2im_at(
                conv_t_cols(gy, w, u / per),
                0,
                kh,
                kw,
                yh,
                yw,
                pad as int,
                stride as int,
                dilation as int,
                xh,
                xw,
                u % per,
            ) as i64,
    )
}

/// Every element of the vector is within the convolution value cap.
pub fn check_capped(v: &Vec<i64>) -> (r: bool)
    ensures
        r <==> vals_capped(v@),
{
    let n = v.len();
    let mut i: usize = 0;
    while i < n
        invariant
            0 <= i <= n,
            n == v@.len(),
            forall|x: int| 0 <= x < i ==> -MAX_CONV_VAL <= #[trigger] v@[x] <= MAX_CONV_VAL,
        decreases n - i,
    {
        let x = v[i];
        if x < -MAX_CONV_VAL || x > MAX_CONV_VAL {
            return false;
        }
        i = i + 1;
    }
    true
}

/// The product of four positive dimensions, associated as [`prod`] computes
/// it on a 4-element shape.
pub proof fn lemma_prod4(a: usize, b: usize, c: usize, d: usize)
    ensures
        crate::array::prod(seq![a, b, c, d]) == a * (b * (c * (d as int))),
{
    let s = seq![a, b, c, d];
    assert(s.skip(1) =~= seq![b, c, d]);
    assert(seq![b, c, d].skip(1) =~= seq![c, d]);
    assert(seq![c, d].skip(1) =~= seq![d]);
    assert(seq![d].skip(1) =~= Seq::<usize>::empty());
    assert(crate::array::prod(seq![d]) == d * crate::array::prod(Seq::<usize>::empty()));
    assert(crate::array::prod(seq![c, d]) == c * crate::array::prod(seq![d]));
    assert(crate::array::prod(seq![b, c, d]) == b * crate::array::prod(seq![c, d]));
    assert(crate::array::prod(s) == a * crate::array::prod(seq![b, c, d]));
}

impl Conv2DTranspose {
    /// The op's name.
    pub fn name(&self) -> (r: &'static str) {
        "Conv2DTranspose"
    }

    /// Forward computation: scatters each output-gradient element over its
    /// dilated, strided receptive field, decomposed per batch into a matrix
    /// multiply with the filter followed by a col-to-image accumulation.
    #[verifier::loop_isolation(false)]
    pub fn compute(&self, gy: &NdArray, w: &NdArray) -> (r: Result<NdArray, EvalError>)
        requires
            gy.wf(),
            w.wf(),
        ensures
            r is Ok <==> conv_t_ok(self.pad, self.stride, self.dilation, gy@, w@),
            r matches Ok(out) ==> out@.shape == conv_t_shape(
                self.pad,
                self.stride,
                self.dilation,
                gy@,
                w@,
            ) && out@.data == conv_t_data(self.pad, self.stride, self.dilation, gy@, w@)
                && out.wf(),
    {
        if gy.shape.len() != 4 || w.shape.len() != 4 {
            return Err(EvalError::ShapeMismatch);
        }
        let batch = gy.shape[0];
        let ych = gy.shape[1];
        let yh = gy.shape[2];
        let yw = gy.shape[3];
        let wych = w.shape[0];
        let xch = w.shape[1];
        let kh = w.shape[2];
        let kw = w.shape[3];
        if batch == 0 || ych == 0 || yh == 0 || yw == 0 || wych == 0 || xch == 0 || kh == 0 || kw
            == 0 {
            return Err(EvalError::ShapeMismatch);
        }
        if ych != wych {
            return Err(EvalError::ShapeMismatch);
        }
        if self.stride == 0 || self.stride as u64 > MAX_CONV_PARAM || self.dilation == 0
            || self.dilation as u64 > MAX_CONV_PARAM || self.pad as u64 > MAX_CONV_PARAM {
            return Err(EvalError::ShapeMismatch);
        }
        proof {
            assert(gy@.shape =~= seq![batch, ych, yh, yw]);
            assert(w@.shape =~= seq![wych, xch, kh, kw]);
            lemma_prod4(batch, ych, yh, yw);
            lemma_prod4(wych, xch, kh, kw);
            assert(prod(gy@.shape) <= MAX_ELEMS as int && prod(w@.shape) <= MAX_ELEMS as int);
            assert(batch as int <= MAX_ELEMS as int && ych as int <= MAX_ELEMS as int && yh as int
                <= MAX_ELEMS as int && yw as int <= MAX_ELEMS as int && ych as int * (yh as int * (
            yw as int)) <= MAX_ELEMS as int) by (nonlinear_arith)
                requires
                    batch as int * (ych as int * (yh as int * (yw as int))) <= MAX_ELEMS as int,
                    batch >= 1 && ych >= 1 && yh >= 1 && yw >= 1,
            ;
            assert(wych as int <= MAX_ELEMS as int && xch as int <= MAX_ELEMS as int && kh as int
                <= MAX_ELEMS as int && kw as int <= MAX_ELEMS as int && xch as int * (kh as int * (
            kw as int)) <= MAX_ELEMS as int) by (nonlinear_arith)
                requires
                    wych as int * (xch as int * (kh as int * (kw as int))) <= MAX_ELEMS as int,
                    wych >= 1 && xch >= 1 && kh >= 1 && kw >= 1,
            ;
        }
        let xh = match transposed_size(yh, kh, self.pad, self.stride, self.dilation) {
            Some(v) => v,
            None => {
                return Err(EvalError::ShapeMismatch);
            },
        };
        let xw = match transposed_size(yw, kw, self.pad, self.stride, self.dilation) {
            Some(v) => v,
            None => {
                return Err(EvalError::ShapeMismatch);
            },
        };
        if xh == 0 || xw == 0 {
            return Err(EvalError::ShapeMismatch);
        }
        // buffer extents, checked against the element cap
        let colsz = match checked_mul4(xch, kh, kw, yh, yw) {
            Some(v) => v,
            None => {
                return Err(EvalError::ShapeMismatch);
            },
        };
        let per = match checked_mul3(xch, xh, xw) {
            Some(v) => v,
            None => {
                return Err(EvalError::ShapeMismatch);
            },
        };
        let totsz: usize = match (batch as u64).checked_mul(per as u64) {
            Some(v) => {
                if v <= MAX_ELEMS {
                    v as usize
                } else {
                    return Err(EvalError::ShapeMismatch);
                }
            },
            None => {
                return Err(EvalError::ShapeMismatch);
            },
        };
        if !check_capped(&gy.data) || !check_capped(&w.data) {
            return Err(EvalError::ValueOutOfRange);
        }
        let ghost gok = conv_t_ok(self.pad, self.stride, self.dilation, gy@, w@);
        proof {
            assert(xch as int * (kh as int * kw as int) <= MAX_ELEMS as int && kh as int
                * kw as int <= MAX_ELEMS as int && yh as int * yw as int <= MAX_ELEMS as int && (
            xch as int * (kh as int * kw as int)) * (yh as int * yw as int) == xch as int * (
            kh as int * (kw as int * (yh as int * yw as int)))) by (nonlinear_arith)
                requires
                    xch as int * (kh as int * (kw as int * (yh as int * yw as int))) <= MAX_ELEMS
                        as int,
                    xch >= 1 && kh >= 1 && kw >= 1 && yh >= 1 && yw >= 1,
            ;
        }
        let m = xch * (kh * kw);
        let n = yh * yw;
        proof {
            assert(m * n <= MAX_ELEMS as int);
            assert((batch as int) * (ych as int * (yh as int * yw as int)) == prod(gy@.shape)
                && ych as int * (yh as int * yw as int) >= 0) by (nonlinear_arith)
                requires
                    prod(gy@.shape) == batch as int * (ych as int * (yh as int * (yw as int))),
                    ych >= 1 && yh >= 1 && yw >= 1,
            ;
            assert(gy@.data.len() == (batch as int) * (ych as int * (yh as int * yw as int)));
            assert((m as int) * (ych as int) == (wych as int) * (xch as int * (kh as int
                * kw as int)) && wych as int * (xch as int * (kh as int * kw as int)) == prod(
            w@.shape)) by (nonlinear_arith)
                requires
                    m as int == xch as int * (kh as int * kw as int),
                    wych as int == ych as int,
                    prod(w@.shape) == wych as int * (xch as int * (kh as int * (kw as int))),
            ;
            assert(w@.data.len() == prod(w@.shape));
        }
        let mut out: Vec<i64> = Vec::new();
        let mut b: usize = 0;
        while b < batch
            invariant
                0 <= b <= batch,
                out@.len() == b * (per as int),
                forall|b2: int|
                    0 <= b2 < b ==> #[trigger] mm_fits(
                        w@.data,
                        gy@.data,
                        0,
                        b2 * (ych as int * (yh as int * yw as int)),
                        xch as int * (kh as int * kw as int),
                        yh as int * yw as int,
                        ych as int,
                        true,
                        false,
                    ),
                forall|b2: int|
                    0 <= b2 < b ==> col2im_fits(
                        #[trigger] conv_t_cols(gy@, w@, b2),
                        0,
                        kh as int,
                        kw as int,
                        yh as int,
                        yw as int,
                        self.pad as int,
                        self.stride as int,
                        self.dilation as int,
                        xch as int,
                        xh as int,
                        xw as int,
                    ),
                forall|u: int|
                    0 <= u < out@.len() ==> #[trigger] out@[u] == conv_t_data(
                        self.pad,
                        self.stride,
                        self.dilation,
                        gy@,
                        w@,
                    )[u],
            decreases batch - b,
        {
            proof {
                assert((b + 1) * (ych as int * (yh as int * yw as int)) <= batch as int * (
                ych as int * (yh as int * yw as int)) && b * (ych as int * (yh as int * yw as int))
                    + ych as int * (yh as int * yw as int) == (b + 1) * (ych as int * (yh as int
                    * yw as int)) && 0 <= b * (ych as int * (yh as int * yw as int)))
                    by (nonlinear_arith)
                    requires
                        0 <= b < batch,
                        ych as int * (yh as int * yw as int) >= 0,
                ;
            }
            let offb = b * (ych * (yh * yw));
            proof {
                assert(offb as int == b * (ych as int * (yh as int * yw as int)));
                assert(offb + ych as int * (yh as int * yw as int) <= gy@.data.len());
            }
            let col = match matmul(&w.data, 0, &gy.data, offb, m, n, ych, true, false) {
                Ok(v) => v,
                Err(e) => {
                    proof {
                        assert(!mm_fits(
                            w@.data,
                            gy@.data,
                            0,
                            (b as int) * (ych as int * (yh as int * yw as int)),
                            xch as int * (kh as int * kw as int),
                            yh as int * yw as int,
                            ych as int,
                            true,
                            false,
                        ));
                        assert(!gok);
                    }
                    return Err(e);
                },
            };
            proof {
                assert forall|t: int| 0 <= t < col@.len() implies col@[t] == conv_t_cols(
                    gy@,
                    w@,
                    b as int,
                )[t] by {
                    lemma_div_below(t, n as int, m as int);
                };
                assert(col@ =~= conv_t_cols(gy@, w@, b as int));
            }
            let img = match col2im(
                &col,
                0,
                xch,
                xh,
                xw,
                kh,
                kw,
                self.pad,
                self.stride,
                self.dilation,
                yh,
                yw,
            ) {
                Ok(v) => v,
                Err(e) => {
                    proof {
                        assert(!col2im_fits(
                            conv_t_cols(gy@, w@, b as int),
                            0,
                            kh as int,
                            kw as int,
                            yh as int,
                            yw as int,
                            self.pad as int,
                            self.stride as int,
                            self.dilation as int,
                            xch as int,
                            xh as int,
                            xw as int,
                        ));
                        assert(!gok);
                    }
                    return Err(e);
                },
            };
            let mut t: usize = 0;
            while t < per
                invariant
                    0 <= t <= per,
                    out@.len() == b * (per as int) + t,
                    img@.len() == per as int,
                    forall|u: int|
                        0 <= u < out@.len() ==> #[trigger] out@[u] == conv_t_data(
                            self.pad,
                            self.stride,
                            self.dilation,
                            gy@,
                            w@,
                        )[u],
                    forall|t2: int|
                        0 <= t2 < per ==> #[trigger] img@[t2] as int == col2im_at(
                            conv_t_cols(gy@, w@, b as int),
                            0,
                            kh as int,
                            kw as int,
                            yh as int,
                            yw as int,
                            self.pad as int,
                            self.stride as int,
                            self.dilation as int,
                            xh as int,
                            xw as int,
                            t2,
                        ),
                decreases per - t,
            {
                proof {
                    vstd::arithmetic::div_mod::lemma_fundamental_div_mod_converse(
                        b * (per as int) + t,
                        per as int,
                        b as int,
                        t as int,
                    );
                    assert(b * (per as int) + t < batch as int * (per as int)) by (nonlinear_arith)
                        requires
                            0 <= b < batch,
                            0 <= t < per,
                    ;
                }
                out.push(img[t]);
                t = t + 1;
            }
            proof {
                assert((b as int) * (per as int) + per as int == (b + 1) * (per as int))
                    by (nonlinear_arith);
            }
            b = b + 1;
        }
        proof {
            assert(gok);
        }
        let shape: Vec<usize> = vec![batch, xch, xh, xw];
        let arr = NdArray { shape, data: out };
        proof {
            lemma_prod4(batch, xch, xh, xw);
            assert(batch as int * (xch as int * (xh as int * xw as int)) == batch as int * (
            per as int)) by (nonlinear_arith)
                requires
                    per as int == xch as int * (xh as int * xw as int),
            ;
            assert(arr@.shape =~= conv_t_shape(self.pad, self.stride, self.dilation, gy@, w@));
            assert(arr@.data =~= conv_t_data(self.pad, self.stride, self.dilation, gy@, w@));
        }
        Ok(arr)
    }
}

/// The per-batch column buffer of the forward convolution: the column
/// expansion of one batch slice of the image.
pub open spec fn conv_fwd_cols(x: ArrSpec, w: ArrSpec, pad: usize, stride: usize, dilation: usize, b: int) -> Seq<i64> {
    let xch = x.shape[1] as int;
    let xh = x.shape[2] as int;
    let xw = x.shape[3] as int;
    let kh = w.shape[2] as int;
    let kw = w.shape[3] as int;
    let yh2 = spec_conv_size(xh, kh, pad as int, stride as int, dilation as int);
    let yw2 = spec_conv_size(xw, kw, pad as int, stride as int, dilation as int);
    Seq::new(
        (xch * (kh * (kw * (yh2 * yw2)))) as nat,
        |t: int|
            im2col_at(
                x.data,
                b * (xch * (xh * xw)),
                xh,
                xw,
                kh,
                kw,
                yh2,
                yw2,
                pad as int,
                stride as int,
                dilation as int,
                t,
            ),
    )
}

/// When the forward convolution is defined.
pub open spec fn conv_fwd_ok(pad: usize, stride: usize, dilation: usize, x: ArrSpec, w: ArrSpec) -> bool {
    let batch = x.shape[0] as int;
    let xch = x.shape[1] as int;
    let xh = x.shape[2] as int;
    let xw = x.shape[3] as int;
    let ych = w.shape[0] as int;
    let kh = w.shape[2] as int;
    let kw = w.shape[3] as int;
    let yh2 = spec_conv_size(xh, kh, pad as int, stride as int, dilation as int);
    let yw2 = spec_conv_size(xw, kw, pad as int, stride as int, dilation as int);
    &&& x.shape.len() == 4
    &&& w.shape.len() == 4
    &&& batch >= 1 && xch >= 1 && xh >= 1 && xw >= 1
    &&& ych >= 1 && kh >= 1 && kw >= 1
    &&& x.shape[1] == w.shape[1]
    &&& conv_params_ok(pad, stride, dilation)
    &&& dilation * (kh - 1) + 1 <= xh + 2 * pad
    &&& dilation * (kw - 1) + 1 <= xw + 2 * pad
    &&& 1 <= yh2 <= MAX_ELEMS as int
    &&& 1 <= yw2 <= MAX_ELEMS as int
    &&& xch * (kh * (kw * (yh2 * yw2))) <= MAX_ELEMS as int
    &&& ych * (yh2 * yw2) <= MAX_ELEMS as int
    &&& batch * (ych * (yh2 * yw2)) <= MAX_ELEMS as int
    &&& vals_capped(x.data) && vals_capped(w.data)
    &&& (forall|b: int|
        0 <= b < batch ==> mm_fits(
            w.data,
            #[trigger] conv_fwd_cols(x, w, pad, stride, dilation, b),
            0,
            0,
            ych,
            yh2 * yw2,
            xch * (kh * kw),
            false,
            false,
        ))
}

/// The result shape of the forward convolution.
pub open spec fn conv_fwd_shape(pad: usize, stride: usize, dilation: usize, x: ArrSpec, w: ArrSpec) -> Seq<usize> {
    let xh = x.shape[2] as int;
    let xw = x.shape[3] as int;
    let kh = w.shape[2] as int;
    let kw = w.shape[3] as int;
    seq![
        x.shape[0],
        w.shape[0],
        spec_conv_size(xh, kh, pad as int, stride as int, dilation as int) as usize,
        spec_conv_size(xw, kw, pad as int, stride as int, dilation as int) as usize,
    ]
}

/// The result elements of the forward convolution: the filter matrix
/// multiplied with each batch's column buffer.
pub open spec fn conv_fwd_data(pad: usize, stride: usize, dilation: usize, x: ArrSpec, w: ArrSpec) -> Seq<i64> {
    let batch = x.shape[0] as int;
    let xch = x.shape[1] as int;
    let xh = x.shape[2] as int;
    let xw = x.shape[3] as int;
    let ych = w.shape[0] as int;
    let kh = w.shape[2] as int;
    let kw = w.shape[3] as int;
    let yh2 = spec_conv_size(xh, kh, pad as int, stride as int, dilation as int);
    let yw2 = spec_conv_size(xw, kw, pad as int, stride as int, dilation as int);
    let n = yh2 * yw2;
    let per = ych * n;
    Seq::new(
        (batch * per) as nat,
        |u: int|
            mm_val(
                w.data,
                conv_fwd_cols(x, w, pad, stride, dilation, u / per),
                0,
                0,
                ych,
                n,
                xch * (kh * kw),
                false,
                false,
                (u % per) / n,
                (u % per) % n,
            ) as i64,
    )
}

impl Conv2D {
    /// The op's name.
    pub fn name(&self) -> (r: &'static str) {
        "Conv2D"
    }

    /// Forward computation: per batch, a column expansion of the image
    /// followed by a matrix multiply with the filter.
    #[verifier::loop_isolation(false)]
    pub fn compute(&self, x: &NdArray, w: &NdArray) -> (r: Result<NdArray, EvalError>)
        requires
            x.wf(),
            w.wf(),
        ensures
            r is Ok <==> conv_fwd_ok(self.pad, self.stride, self.dilation, x@, w@),
            r matches Ok(out) ==> out@.shape == conv_fwd_shape(
                self.pad,
                self.stride,
                self.dilation,
                x@,
                w@,
            ) && out@.data == conv_fwd_data(self.pad, self.stride, self.dilation, x@, w@)
                && out.wf(),
    {
        if x.shape.len() != 4 || w.shape.len() != 4 {
            return Err(EvalError::ShapeMismatch);
        }
        let batch = x.shape[0];
        let xch = x.shape[1];
        let xh = x.shape[2];
        let xw = x.shape[3];
        let ych = w.shape[0];
        let wxch = w.shape[1];
        let kh = w.shape[2];
        let kw = w.shape[3];
        if batch == 0 || xch == 0 || xh == 0 || xw == 0 || ych == 0 || wxch == 0 || kh == 0 || kw
            == 0 {
            return Err(EvalError::ShapeMismatch);
        }
        if xch != wxch {
            return Err(EvalError::ShapeMismatch);
        }
        if self.stride == 0 || self.stride as u64 > MAX_CONV_PARAM || self.dilation == 0
            || self.dilation as u64 > MAX_CONV_PARAM || self.pad as u64 > MAX_CONV_PARAM {
            return Err(EvalError::ShapeMismatch);
        }
        proof {
            assert(x@.shape =~= seq![batch, xch, xh, xw]);
            assert(w@.shape =~= seq![ych, wxch, kh, kw]);
            lemma_prod4(batch, xch, xh, xw);
            lemma_prod4(ych, wxch, kh, kw);
            assert(prod(x@.shape) <= MAX_ELEMS as int && prod(w@.shape) <= MAX_ELEMS as int);
            assert(batch as int <= MAX_ELEMS as int && xch as int <= MAX_ELEMS as int && xh as int
                <= MAX_ELEMS as int && xw as int <= MAX_ELEMS as int && xh as int * (xw as int)
                <= MAX_ELEMS as int && xch as int * (xh as int * (xw as int)) <= MAX_ELEMS as int)
                by (nonlinear_arith)
                requires
                    batch as int * (xch as int * (xh as int * (xw as int))) <= MAX_ELEMS as int,
                    batch >= 1 && xch >= 1 && xh >= 1 && xw >= 1,
            ;
            assert(ych as int <= MAX_ELEMS as int && kh as int <= MAX_ELEMS as int && kw as int
                <= MAX_ELEMS as int && xch as int * (kh as int * (kw as int)) <= MAX_ELEMS as int
                && kh as int * kw as int <= MAX_ELEMS as int) by (nonlinear_arith)
                requires
                    ych as int * (wxch as int * (kh as int * (kw as int))) <= MAX_ELEMS as int,
                    xch as int == wxch as int,
                    ych >= 1 && wxch >= 1 && kh >= 1 && kw >= 1,
            ;
        }
        let yh2 = match conv_size(xh, kh, self.pad, self.stride, self.dilation) {
            Some(v) => v,
            None => {
                return Err(EvalError::ShapeMismatch);
            },
        };
        let yw2 = match conv_size(xw, kw, self.pad, self.stride, self.dilation) {
            Some(v) => v,
            None => {
                return Err(EvalError::ShapeMismatch);
            },
        };
        let colsz = match checked_mul4(xch, kh, kw, yh2, yw2) {
            Some(v) => v,
            None => {
                return Err(EvalError::ShapeMismatch);
            },
        };
        let per = match checked_mul3(ych, yh2, yw2) {
            Some(v) => v,
            None => {
                return Err(EvalError::ShapeMismatch);
            },
        };
        let totsz: usize = match (batch as u64).checked_mul(per as u64) {
            Some(v) => {
                if v <= MAX_ELEMS {
                    v as usize
                } else {
                    return Err(EvalError::ShapeMismatch);
                }
            },
            None => {
                return Err(EvalError::ShapeMismatch);
            },
        };
        if !check_capped(&x.data) || !check_capped(&w.data) {
            return Err(EvalError::ValueOutOfRange);
        }
        let ghost gok = conv_fwd_ok(self.pad, self.stride, self.dilation, x@, w@);
        proof {
            assert(yh2 as int * yw2 as int <= MAX_ELEMS as int && (ych as int) * (yh2 as int
                * yw2 as int) == per as int && (xch as int * (kh as int * kw as int)) * (yh2 as int
                * yw2 as int) == xch as int * (kh as int * (kw as int * (yh2 as int
                * yw2 as int)))) by (nonlinear_arith)
                requires
                    ych as int * (yh2 as int * (yw2 as int)) <= MAX_ELEMS as int,
                    per as int == ych as int * (yh2 as int * (yw2 as int)),
                    ych >= 1 && yh2 >= 1 && yw2 >= 1,
            ;
            assert(ych as int * (yh2 as int * yw2 as int) <= MAX_ELEMS as int);
            assert((batch as int) * (xch as int * (xh as int * xw as int)) == prod(x@.shape)
                && xch as int * (xh as int * xw as int) >= 0) by (nonlinear_arith)
                requires
                    prod(x@.shape) == batch as int * (xch as int * (xh as int * (xw as int))),
                    xch >= 1 && xh >= 1 && xw >= 1,
            ;
            assert(x@.data.len() == (batch as int) * (xch as int * (xh as int * xw as int)));
            assert((ych as int) * (xch as int * (kh as int * kw as int)) == prod(w@.shape))
                by (nonlinear_arith)
                requires
                    prod(w@.shape) == ych as int * (wxch as int * (kh as int * (kw as int))),
                    xch as int == wxch as int,
            ;
            assert(w@.data.len() == prod(w@.shape));
        }
        let n = yh2 * yw2;
        let kdim = xch * (kh * kw);
        let mut out: Vec<i64> = Vec::new();
        let mut b: usize = 0;
        while b < batch
            invariant
                0 <= b <= batch,
                out@.len() == b * (per as int),
                forall|b2: int|
                    0 <= b2 < b ==> mm_fits(
                        w@.data,
                        #[trigger] conv_fwd_cols(x@, w@, self.pad, self.stride, self.dilation, b2),
                        0,
                        0,
                        ych as int,
                        yh2 as int * yw2 as int,
                        xch as int * (kh as int * kw as int),
                        false,
                        false,
                    ),
                forall|u: int|
                    0 <= u < out@.len() ==> #[trigger] out@[u] == conv_fwd_data(
                        self.pad,
                        self.stride,
                        self.dilation,
                        x@,
                        w@,
                    )[u],
            decreases batch - b,
        {
            proof {
                assert((b + 1) * (xch as int * (xh as int * xw as int)) <= batch as int * (
                xch as int * (xh as int * xw as int)) && b * (xch as int * (xh as int * xw as int))
                    + xch as int * (xh as int * xw as int) == (b + 1) * (xch as int * (xh as int
                    * xw as int)) && 0 <= b * (xch as int * (xh as int * xw as int)))
                    by (nonlinear_arith)
                    requires
                        0 <= b < batch,
                        xch as int * (xh as int * xw as int) >= 0,
                ;
            }
            let offb = b * (xch * (xh * xw));
            let col = im2col(
                &x.data,
                offb,
                xch,
                xh,
                xw,
                kh,
                kw,
                self.pad,
                self.stride,
                self.dilation,
                yh2,
                yw2,
            );
            proof {
                assert(col@ =~= conv_fwd_cols(x@, w@, self.pad, self.stride, self.dilation, b as int));
                assert((xch as int * (kh as int * kw as int)) * (yh2 as int * yw2 as int)
                    <= col@.len());
            }
            let mb = match matmul(&w.data, 0, &col, 0, ych, n, kdim, false, false) {
                Ok(v) => v,
                Err(e) => {
                    proof {
                        assert(!mm_fits(
                            w@.data,
                            conv_fwd_cols(x@, w@, self.pad, self.stride, self.dilation, b as int),
                            0,
                            0,
                            ych as int,
                            yh2 as int * yw2 as int,
                            xch as int * (kh as int * kw as int),
                            false,
                            false,
                        ));
                        assert(!gok);
                    }
                    return Err(e);
                },
            };
            let mut t: usize = 0;
            while t < per
                invariant
                    0 <= t <= per,
                    out@.len() == b * (per as int) + t,
                    mb@.len() == per as int,
                    forall|u: int|
                        0 <= u < out@.len() ==> #[trigger] out@[u] == conv_fwd_data(
                            self.pad,
                            self.stride,
                            self.dilation,
                            x@,
                            w@,
                        )[u],
                    forall|t2: int|
                        0 <= t2 < per ==> #[trigger] mb@[t2] as int == mm_val(
                            w@.data,
                            conv_fwd_cols(x@, w@, self.pad, self.stride, self.dilation, b as int),
                            0,
                            0,
                            ych as int,
                            yh2 as int * yw2 as int,
                            xch as int * (kh as int * kw as int),
                            false,
                            false,
                            t2 / (yh2 as int * yw2 as int),
                            t2 % (yh2 as int * yw2 as int),
                        ),
                decreases per - t,
            {
                proof {
                    vstd::arithmetic::div_mod::lemma_fundamental_div_mod_converse(
                        b * (per as int) + t,
                        per as int,
                        b as int,
                        t as int,
                    );
                    assert(b * (per as int) + t < batch as int * (per as int)) by (nonlinear_arith)
                        requires
                            0 <= b < batch,
                            0 <= t < per,
                    ;
                    lemma_div_below(t as int, yh2 as int * yw2 as int, ych as int);
                }
                out.push(mb[t]);
                t = t + 1;
            }
            proof {
                assert((b as int) * (per as int) + per as int == (b + 1) * (per as int))
                    by (nonlinear_arith);
            }
            b = b + 1;
        }
        proof {
            assert(gok);
        }
        let shape: Vec<usize> = vec![batch, ych, yh2, yw2];
        let arr = NdArray { shape, data: out };
        proof {
            lemma_prod4(batch, ych, yh2, yw2);
            assert(batch as int * (ych as int * (yh2 as int * yw2 as int)) == batch as int * (
            per as int)) by (nonlinear_arith)
                requires
                    per as int == ych as int * (yh2 as int * yw2 as int),
            ;
            assert(arr@.shape =~= conv_fwd_shape(self.pad, self.stride, self.dilation, x@, w@));
            assert(arr@.data =~= conv_fwd_data(self.pad, self.stride, self.dilation, x@, w@));
        }
        Ok(arr)
    }
}

/// The per-batch column buffer of the filter gradient: the column expansion
/// of one batch slice of the incoming gradient, under the filter's kernel
/// window.
pub open spec fn fg_cols(gy: ArrSpec, w: ArrSpec, pad: usize, stride: usize, dilation: usize, b: int) -> Seq<i64> {
    let gych = gy.shape[1] as int;
    let gyh = gy.shape[2] as int;
    let gyw = gy.shape[3] as int;
    let kh = w.shape[2] as int;
    let kw = w.shape[3] as int;
    let yh2 = spec_conv_size(gyh, kh, pad as int, stride as int, dilation as int);
    let yw2 = spec_conv_size(gyw, kw, pad as int, stride as int, dilation as int);
    Seq::new(
        (gych * (kh * (kw * (yh2 * yw2)))) as nat,
        |t: int|
            im2col_at(
                gy.data,
                b * (gych * (gyh * gyw)),
                gyh,
                gyw,
                kh,
                kw,
                yh2,
                yw2,
                pad as int,
                stride as int,
                dilation as int,
                t,
            ),
    )
}

/// Element `(i, j)` of the filter gradient accumulated over the first `bn`
/// batches: each batch contributes its image slice multiplied with its
/// (transposed) column buffer.
pub open spec fn fg_part(
    gy: ArrSpec,
    x: ArrSpec,
    w: ArrSpec,
    pad: usize,
    stride: usize,
    dilation: usize,
    bn: nat,
    i: int,
    j: int,
) -> int
    decreases bn,
{
    if bn == 0 {
        0
    } else {
        let xch = x.shape[1] as int;
        let xh = x.shape[2] as int;
        let xw = x.shape[3] as int;
        let gych = gy.shape[1] as int;
        let kh = w.shape[2] as int;
        let kw = w.shape[3] as int;
        let gyh = gy.shape[2] as int;
        let gyw = gy.shape[3] as int;
        let yh2 = spec_conv_size(gyh, kh, pad as int, stride as int, dilation as int);
        let yw2 = spec_conv_size(gyw, kw, pad as int, stride as int, dilation as int);
        fg_part(gy, x, w, pad, stride, dilation, (bn - 1) as nat, i, j) + mm_val(
            x.data,
            fg_cols(gy, w, pad, stride, dilation, bn - 1),
            (bn - 1) * (xch * (xh * xw)),
            0,
            xch,
            gych * (kh * kw),
            yh2 * yw2,
            false,
            true,
            i,
            j,
        )
    }
}

/// The filter-gradient element at flat index `u` of the filter shape
/// `(ych, xch, kh, kw)`.
pub open spec fn fg_at(
    gy: ArrSpec,
    x: ArrSpec,
    w: ArrSpec,
    pad: usize,
    stride: usize,
    dilation: usize,
    u: int,
) -> int {
    let xch = x.shape[1] as int;
    let kh = w.shape[2] as int;
    let kw = w.shape[3] as int;
    let batch = gy.shape[0] as int;
    let j = u % kw;
    let r1 = u / kw;
    let i = r1 % kh;
    let r2 = r1 / kh;
    let xc = r2 % xch;
    let yc = r2 / xch;
    fg_part(gy, x, w, pad, stride, dilation, batch as nat, xc, (yc * kh + i) * kw + j)
}

/// When the filter gradient is defined: shapes agree batch- and
/// channel-wise, the gradient's convolution output size matches the image's
/// spatial size, and every intermediate and final element is representable.
pub open spec fn fg_ok(pad: usize, stride: usize, dilation: usize, gy: ArrSpec, x: ArrSpec, w: ArrSpec) -> bool {
    let batch = gy.shape[0] as int;
    let gych = gy.shape[1] as int;
    let gyh = gy.shape[2] as int;
    let gyw = gy.shape[3] as int;
    let xch = x.shape[1] as int;
    let xh = x.shape[2] as int;
    let xw = x.shape[3] as int;
    let kh = w.shape[2] as int;
    let kw = w.shape[3] as int;
    let yh2 = spec_conv_size(gyh, kh, pad as int, stride as int, dilation as int);
    let yw2 = spec_conv_size(gyw, kw, pad as int, stride as int, dilation as int);
    &&& gy.shape.len() == 4
    &&& x.shape.len() == 4
    &&& w.shape.len() == 4
    &&& batch >= 1 && gych >= 1 && gyh >= 1 && gyw >= 1
    &&& xch >= 1 && xh >= 1 && xw >= 1
    &&& w.shape[0] as int >= 1 && kh >= 1 && kw >= 1
    &&& x.shape[0] == gy.shape[0]
    &&& w.shape[0] == gy.shape[1]
    &&& w.shape[1] == x.shape[1]
    &&& conv_params_ok(pad, stride, dilation)
    &&& dilation * (kh - 1) + 1 <= gyh + 2 * pad
    &&& dilation * (kw - 1) + 1 <= gyw + 2 * pad
    &&& 1 <= yh2 <= MAX_ELEMS as int
    &&& 1 <= yw2 <= MAX_ELEMS as int
    &&& yh2 == xh && yw2 == xw
    &&& gych * (kh * (kw * (yh2 * yw2))) <= MAX_ELEMS as int
    &&& vals_capped(gy.data) && vals_capped(x.data)
    &&& (forall|b: int|
        0 <= b < batch ==> mm_fits(
            x.data,
            #[trigger] fg_cols(gy, w, pad, stride, dilation, b),
            b * (xch * (xh * xw)),
            0,
            xch,
            gych * (kh * kw),
            yh2 * yw2,
            false,
            true,
        ))
    &&& (forall|u: int|
        0 <= u < prod(w.shape) ==> i64::MIN <= #[trigger] fg_at(gy, x, w, pad, stride, dilation, u)
            <= i64::MAX)
}

/// The filter gradient's elements; its shape is the filter's.
pub open spec fn fg_data(pad: usize, stride: usize, dilation: usize, gy: ArrSpec, x: ArrSpec, w: ArrSpec) -> Seq<i64> {
    Seq::new(prod(w.shape) as nat, |u: int| fg_at(gy, x, w, pad, stride, dilation, u) as i64)
}

proof fn lemma_fg_part_bound(
    gy: ArrSpec,
    x: ArrSpec,
    w: ArrSpec,
    pad: usize,
    stride: usize,
    dilation: usize,
    bn: nat,
    i: int,
    j: int,
)
    requires
        0 <= i < x.shape[1] as int,
        0 <= j < gy.shape[1] as int * (w.shape[2] as int * w.shape[3] as int),
        forall|b: int|
            0 <= b < bn ==> mm_fits(
                x.data,
                #[trigger] fg_cols(gy, w, pad, stride, dilation, b),
                b * (x.shape[1] as int * (x.shape[2] as int * x.shape[3] as int)),
                0,
                x.shape[1] as int,
                gy.shape[1] as int * (w.shape[2] as int * w.shape[3] as int),
                spec_conv_size(
                    gy.shape[2] as int,
                    w.shape[2] as int,
                    pad as int,
                    stride as int,
                    dilation as int,
                ) * spec_conv_size(
                    gy.shape[3] as int,
                    w.shape[3] as int,
                    pad as int,
                    stride as int,
                    dilation as int,
                ),
                false,
                true,
            ),
    ensures
        -(bn * 0x8000_0000_0000_0000) <= fg_part(gy, x, w, pad, stride, dilation, bn, i, j) <= bn
            * 0x8000_0000_0000_0000,
    decreases bn,
{
    if bn > 0 {
        lemma_fg_part_bound(gy, x, w, pad, stride, dilation, (bn - 1) as nat, i, j);
        assert(mm_fits(
            x.data,
            fg_cols(gy, w, pad, stride, dilation, bn - 1),
            (bn - 1) * (x.shape[1] as int * (x.shape[2] as int * x.shape[3] as int)),
            0,
            x.shape[1] as int,
            gy.shape[1] as int * (w.shape[2] as int * w.shape[3] as int),
            spec_conv_size(
                gy.shape[2] as int,
                w.shape[2] as int,
                pad as int,
                stride as int,
                dilation as int,
            ) * spec_conv_size(
                gy.shape[3] as int,
                w.shape[3] as int,
                pad as int,
                stride as int,
                dilation as int,
            ),
            false,
            true,
        ));
        assert((bn - 1) * 0x8000_0000_0000_0000 + 0x8000_0000_0000_0000 == bn
            * 0x8000_0000_0000_0000) by (nonlinear_arith);
    }
}

impl Conv2DTransposeFilterGrad {
    /// The op's name.
    pub fn name(&self) -> (r: &'static str) {
        "Conv2DTransposeFilterGrad"
    }

    /// Forward computation of the filter gradient: per batch, a column
    /// expansion of the incoming gradient multiplied with the image slice,
    /// summed over the batch.  `w` supplies the filter shape only.
    #[verifier::loop_isolation(false)]
    pub fn compute(&self, gy: &NdArray, x: &NdArray, w: &NdArray) -> (r: Result<NdArray, EvalError>)
        requires
            gy.wf(),
            x.wf(),
            w.wf(),
        ensures
            r is Ok <==> fg_ok(self.pad, self.stride, self.dilation, gy@, x@, w@),
            r matches Ok(out) ==> out@.shape == w@.shape && out@.data == fg_data(
                self.pad,
                self.stride,
                self.dilation,
                gy@,
                x@,
                w@,
            ) && out.wf(),
    {
        if gy.shape.len() != 4 || x.shape.len() != 4 || w.shape.len() != 4 {
            return Err(EvalError::ShapeMismatch);
        }
        let batch = gy.shape[0];
        let gych = gy.shape[1];
        let gyh = gy.shape[2];
        let gyw = gy.shape[3];
        let xbatch = x.shape[0];
        let xch = x.shape[1];
        let xh = x.shape[2];
        let xw = x.shape[3];
        let wych = w.shape[0];
        let wxch = w.shape[1];
        let kh = w.shape[2];
        let kw = w.shape[3];
        if batch == 0 || gych == 0 || gyh == 0 || gyw == 0 || xch == 0 || xh == 0 || xw == 0
            || wych == 0 || kh == 0 || kw == 0 {
            return Err(EvalError::ShapeMismatch);
        }
        if xbatch != batch || wych != gych || wxch != xch {
            return Err(EvalError::ShapeMismatch);
        }
        if self.stride == 0 || self.stride as u64 > MAX_CONV_PARAM || self.dilation == 0
            || self.dilation as u64 > MAX_CONV_PARAM || self.pad as u64 > MAX_CONV_PARAM {
            return Err(EvalError::ShapeMismatch);
        }
        proof {
            assert(gy@.shape =~= seq![batch, gych, gyh, gyw]);
            assert(x@.shape =~= seq![xbatch, xch, xh, xw]);
            assert(w@.shape =~= seq![wych, wxch, kh, kw]);
            lemma_prod4(batch, gych, gyh, gyw);
            lemma_prod4(xbatch, xch, xh, xw);
            lemma_prod4(wych, wxch, kh, kw);
            assert(prod(gy@.shape) <= MAX_ELEMS as int && prod(x@.shape) <= MAX_ELEMS as int
                && prod(w@.shape) <= MAX_ELEMS as int);
            assert(gych as int <= MAX_ELEMS as int && gyh as int <= MAX_ELEMS as int && gyw as int
                <= MAX_ELEMS as int && gyh as int * gyw as int <= MAX_ELEMS as int && gych as int
                * (gyh as int * gyw as int) <= MAX_ELEMS as int) by (nonlinear_arith)
                requires
                    batch as int * (gych as int * (gyh as int * (gyw as int))) <= MAX_ELEMS as int,
                    batch >= 1 && gych >= 1 && gyh >= 1 && gyw >= 1,
            ;
            assert(xch as int <= MAX_ELEMS as int && xh as int <= MAX_ELEMS as int && xw as int
                <= MAX_ELEMS as int && xch as int * (xh as int * xw as int) <= MAX_ELEMS as int
                && xh as int * xw as int <= MAX_ELEMS as int) by (nonlinear_arith)
                requires
                    xbatch as int * (xch as int * (xh as int * (xw as int))) <= MAX_ELEMS as int,
                    xbatch >= 1 && xch >= 1 && xh >= 1 && xw >= 1,
            ;
            assert(kh as int <= MAX_ELEMS as int && kw as int <= MAX_ELEMS as int && kh as int
                * kw as int <= MAX_ELEMS as int && gych as int * (kh as int * kw as int)
                <= MAX_ELEMS as int && xch as int * (gych as int * (kh as int * kw as int))
                <= MAX_ELEMS as int) by (nonlinear_arith)
                requires
                    wych as int * (wxch as int * (kh as int * (kw as int))) <= MAX_ELEMS as int,
                    wych as int == gych as int,
                    wxch as int == xch as int,
                    wych >= 1 && wxch >= 1 && kh >= 1 && kw >= 1,
            ;
        }
        let yh2 = match conv_size(gyh, kh, self.pad, self.stride, self.dilation) {
            Some(v) => v,
            None => {
                return Err(EvalError::ShapeMismatch);
            },
        };
        let yw2 = match conv_size(gyw, kw, self.pad, self.stride, self.dilation) {
            Some(v) => v,
            None => {
                return Err(EvalError::ShapeMismatch);
            },
        };
        if yh2 != xh || yw2 != xw {
            return Err(EvalError::ShapeMismatch);
        }
        let colsz = match checked_mul4(gych, kh, kw, yh2, yw2) {
            Some(v) => v,
            None => {
                return Err(EvalError::ShapeMismatch);
            },
        };
        if !check_capped(&gy.data) || !check_capped(&x.data) {
            return Err(EvalError::ValueOutOfRange);
        }
        let ghost gok = fg_ok(self.pad, self.stride, self.dilation, gy@, x@, w@);
        let m2 = xch;
        let n2 = gych * (kh * kw);
        let k2 = yh2 * yw2;
        proof {
            assert(m2 as int * (n2 as int) == prod(w@.shape) && (k2 as int) * (n2 as int)
                == gych as int * (kh as int * (kw as int * (yh2 as int * yw2 as int))) && m2 as int
                * (k2 as int) == xch as int * (xh as int * xw as int) && n2 as int * (k2 as int)
                == (k2 as int) * (n2 as int)) by (nonlinear_arith)
                requires
                    prod(w@.shape) == wych as int * (wxch as int * (kh as int * (kw as int))),
                    wych as int == gych as int,
                    wxch as int == xch as int,
                    m2 as int == xch as int,
                    n2 as int == gych as int * (kh as int * kw as int),
                    k2 as int == yh2 as int * yw2 as int,
                    yh2 as int == xh as int,
                    yw2 as int == xw as int,
            ;
            assert((batch as int) * (gych as int * (gyh as int * gyw as int)) == prod(gy@.shape)
                && (batch as int) * (xch as int * (xh as int * xw as int)) == prod(x@.shape))
                by (nonlinear_arith)
                requires
                    prod(gy@.shape) == batch as int * (gych as int * (gyh as int * (gyw as int))),
                    prod(x@.shape) == xbatch as int * (xch as int * (xh as int * (xw as int))),
                    xbatch as int == batch as int,
            ;
            assert(gy@.data.len() == prod(gy@.shape) && x@.data.len() == prod(x@.shape)
                && w@.data.len() == prod(w@.shape));
        }
        let mut acc: Vec<i128> = Vec::new();
        let wlen = w.data.len();
        let mut z: usize = 0;
        while z < wlen
            invariant
                0 <= z <= wlen,
                acc@.len() == z,
                forall|q: int| 0 <= q < z ==> acc@[q] == 0i128,
            decreases wlen - z,
        {
            acc.push(0);
            z = z + 1;
        }
        let mut b: usize = 0;
        while b < batch
            invariant
                0 <= b <= batch,
                acc@.len() == wlen,
                wlen == prod(w@.shape),
                forall|b2: int|
                    0 <= b2 < b ==> mm_fits(
                        x@.data,
                        #[trigger] fg_cols(gy@, w@, self.pad, self.stride, self.dilation, b2),
                        b2 * (xch as int * (xh as int * xw as int)),
                        0,
                        xch as int,
                        gych as int * (kh as int * kw as int),
                        yh2 as int * yw2 as int,
                        false,
                        true,
                    ),
                forall|q: int|
                    0 <= q < wlen ==> #[trigger] acc@[q] as int == fg_part(
                        gy@,
                        x@,
                        w@,
                        self.pad,
                        self.stride,
                        self.dilation,
                        b as nat,
                        q / (n2 as int),
                        q % (n2 as int),
                    ),
            decreases batch - b,
        {
            proof {
                assert((b + 1) * (gych as int * (gyh as int * gyw as int)) <= batch as int * (
                gych as int * (gyh as int * gyw as int)) && 0 <= b * (gych as int * (gyh as int
                    * gyw as int)) && b * (gych as int * (gyh as int * gyw as int)) + gych as int
                    * (gyh as int * gyw as int) == (b + 1) * (gych as int * (gyh as int
                    * gyw as int))) by (nonlinear_arith)
                    requires
                        0 <= b < batch,
                        gych as int * (gyh as int * gyw as int) >= 0,
                ;
                assert((b + 1) * (xch as int * (xh as int * xw as int)) <= batch as int * (
                xch as int * (xh as int * xw as int)) && 0 <= b * (xch as int * (xh as int
                    * xw as int)) && b * (xch as int * (xh as int * xw as int)) + xch as int * (
                xh as int * xw as int) == (b + 1) * (xch as int * (xh as int * xw as int)))
                    by (nonlinear_arith)
                    requires
                        0 <= b < batch,
                        xch as int * (xh as int * xw as int) >= 0,
                ;
            }
            let offg = b * (gych * (gyh * gyw));
            let offx = b * (xch * (xh * xw));
            let col = im2col(
                &gy.data,
                offg,
                gych,
                gyh,
                gyw,
                kh,
                kw,
                self.pad,
                self.stride,
                self.dilation,
                yh2,
                yw2,
            );
            proof {
                assert(col@ =~= fg_cols(gy@, w@, self.pad, self.stride, self.dilation, b as int));
                assert((k2 as int) * (n2 as int) <= col@.len());
            }
            let mb = match matmul(&x.data, offx, &col, 0, m2, n2, k2, false, true) {
                Ok(v) => v,
                Err(e) => {
                    proof {
                        assert(!mm_fits(
                            x@.data,
                            fg_cols(gy@, w@, self.pad, self.stride, self.dilation, b as int),
                            (b as int) * (xch as int * (xh as int * xw as int)),
                            0,
                            xch as int,
                            gych as int * (kh as int * kw as int),
                            yh2 as int * yw2 as int,
                            false,
                            true,
                        ));
                        assert(!gok);
                    }
                    return Err(e);
                },
            };
            let mut q: usize = 0;
            while q < wlen
                invariant
                    0 <= q <= wlen,
                    acc@.len() == wlen,
                    mb@.len() == m2 as int * n2 as int,
                    wlen == m2 as int * n2 as int,
                    forall|q2: int|
                        q <= q2 < wlen ==> #[trigger] acc@[q2] as int == fg_part(
                            gy@,
                            x@,
                            w@,
                            self.pad,
                            self.stride,
                            self.dilation,
                            b as nat,
                            q2 / (n2 as int),
                            q2 % (n2 as int),
                        ),
                    forall|q2: int|
                        0 <= q2 < q ==> #[trigger] acc@[q2] as int == fg_part(
                            gy@,
                            x@,
                            w@,
                            self.pad,
                            self.stride,
                            self.dilation,
                            (b + 1) as nat,
                            q2 / (n2 as int),
                            q2 % (n2 as int),
                        ),
                decreases wlen - q,
            {
                proof {
                    lemma_div_below(q as int, n2 as int, m2 as int);
                    lemma_fg_part_bound(
                        gy@,
                        x@,
                        w@,
                        self.pad,
                        self.stride,
                        self.dilation,
                        b as nat,
                        q as int / (n2 as int),
                        q as int % (n2 as int),
                    );
                }
                let cur = acc[q];
                let add = mb[q];
                acc[q] = cur + (add as i128);
                q = q + 1;
            }
            b = b + 1;
        }
        let mut out: Vec<i64> = Vec::new();
        let mut u: usize = 0;
        while u < wlen
            invariant
                0 <= u <= wlen,
                out@.len() == u,
                acc@.len() == wlen,
                forall|q: int|
                    0 <= q < wlen ==> #[trigger] acc@[q] as int == fg_part(
                        gy@,
                        x@,
                        w@,
                        self.pad,
                        self.stride,
                        self.dilation,
                        batch as nat,
                        q / (n2 as int),
                        q % (n2 as int),
                    ),
                forall|u2: int|
                    0 <= u2 < u ==> i64::MIN <= #[trigger] fg_at(
                        gy@,
                        x@,
                        w@,
                        self.pad,
                        self.stride,
                        self.dilation,
                        u2,
                    ) <= i64::MAX,
                forall|u2: int|
                    0 <= u2 < u ==> #[trigger] out@[u2] as int == fg_at(
                        gy@,
                        x@,
                        w@,
                        self.pad,
                        self.stride,
                        self.dilation,
                        u2,
                    ),
            decreases wlen - u,
        {
            let j = u % kw;
            let r1 = u / kw;
            let i = r1 % kh;
            let r2 = r1 / kh;
            let xc = r2 % xch;
            let yc = r2 / xch;
            proof {
                assert(wlen == gych as int * (xch as int * (kh as int * kw as int)))
                    by (nonlinear_arith)
                    requires
                        wlen == prod(w@.shape),
                        prod(w@.shape) == wych as int * (wxch as int * (kh as int * (kw as int))),
                        wych as int == gych as int,
                        wxch as int == xch as int,
                ;
                assert(u < (gych as int * (xch as int * kh as int)) * kw as int
                    && gych as int * (xch as int * kh as int) >= 1) by (nonlinear_arith)
                    requires
                        u < gych as int * (xch as int * (kh as int * kw as int)),
                        gych >= 1 && xch >= 1 && kh >= 1 && kw >= 1,
                ;
                lemma_div_below(u as int, kw as int, gych as int * (xch as int * kh as int));
                assert((r1 as int) < (gych as int * xch as int) * kh as int && gych as int
                    * xch as int >= 1) by (nonlinear_arith)
                    requires
                        (r1 as int) < gych as int * (xch as int * kh as int),
                        gych >= 1 && xch >= 1 && kh >= 1,
                ;
                lemma_div_below(r1 as int, kh as int, gych as int * xch as int);
                lemma_div_below(r2 as int, xch as int, gych as int);
            }
            proof {
                assert(0 <= yc as int * kh as int + i < gych as int * kh as int && 0 <= (yc as int
                    * kh as int + i) * kw as int + j < (gych as int * kh as int) * kw as int && (
                gych as int * kh as int) * kw as int == gych as int * (kh as int * kw as int)
                    && gych as int * kh as int <= gych as int * (kh as int * kw as int))
                    by (nonlinear_arith)
                    requires
                        0 <= yc as int && (yc as int) < gych as int,
                        0 <= i as int && (i as int) < kh as int,
                        0 <= j as int && (j as int) < kw as int,
                        kw >= 1,
                ;
            }
            let colpos = (yc * kh + i) * kw + j;
            proof {
                assert(0 <= xc as int * n2 as int && xc as int * n2 as int + colpos < m2 as int
                    * n2 as int) by (nonlinear_arith)
                    requires
                        0 <= xc as int && (xc as int) < m2 as int,
                        0 <= colpos as int && (colpos as int) < n2 as int,
                ;
                vstd::arithmetic::div_mod::lemma_fundamental_div_mod_converse(
                    xc as int * n2 as int + colpos,
                    n2 as int,
                    xc as int,
                    colpos as int,
                );
            }
            let tidx = xc * n2 + colpos;
            let v = acc[tidx];
            if v < i64::MIN as i128 || v > i64::MAX as i128 {
                proof {
                    assert(fg_at(gy@, x@, w@, self.pad, self.stride, self.dilation, u as int)
                        == acc@[tidx as int] as int);
                    assert(!gok);
                }
                return Err(EvalError::ValueOutOfRange);
            }
            proof {
                assert(fg_at(gy@, x@, w@, self.pad, self.stride, self.dilation, u as int)
                    == acc@[tidx as int] as int);
            }
            out.push(v as i64);
            u = u + 1;
        }
        proof {
            assert(gok);
        }
        let arr = NdArray { shape: w.shape.clone(), data: out };
        proof {
            assert(arr@.data =~= fg_data(self.pad, self.stride, self.dilation, gy@, x@, w@));
        }
        Ok(arr)
    }
}

/// `a * b`, or `None` when it exceeds [`MAX_ELEMS`].
pub fn checked_cap_mul(a: u64, b: u64) -> (r: Option<u64>)
    ensures
        r is Some <==> a * b <= MAX_ELEMS,
        r matches Some(v) ==> v == a * b,
{
    match a.checked_mul(b) {
        Some(v) => {
            if v <= MAX_ELEMS {
                Some(v)
            } else {
                None
            }
        },
        None => None,
    }
}

/// `a * (b * (c * (d * e)))` as a `usize`, or `None` when it exceeds
/// [`MAX_ELEMS`]; all factors must be positive.
pub fn checked_mul4(a: usize, b: usize, c: usize, d: usize, e: usize) -> (r: Option<usize>)
    requires
        a >= 1 && b >= 1 && c >= 1 && d >= 1 && e >= 1,
    ensures
        r is Some <==> a * (b * (c * (d * (e as int)))) <= MAX_ELEMS as int,
        r matches Some(v) ==> v as int == a * (b * (c * (d * (e as int)))),
{
    let de = match checked_cap_mul(d as u64, e as u64) {
        Some(v) => v,
        None => {
            proof {
                assert(a * (b * (c * (d * (e as int)))) >= d * (e as int)) by (nonlinear_arith)
                    requires
                        a >= 1 && b >= 1 && c >= 1 && d >= 1 && e >= 1,
                ;
            }
            return None;
        },
    };
    let cde = match checked_cap_mul(c as u64, de) {
        Some(v) => v,
        None => {
            proof {
                assert(a * (b * (c * (d * (e as int)))) >= c * (d * (e as int)))
                    by (nonlinear_arith)
                    requires
                        a >= 1 && b >= 1 && c >= 1 && d >= 1 && e >= 1,
                ;
            }
            return None;
        },
    };
    let bcde = match checked_cap_mul(b as u64, cde) {
        Some(v) => v,
        None => {
            proof {
                assert(a * (b * (c * (d * (e as int)))) >= b * (c * (d * (e as int))))
                    by (nonlinear_arith)
                    requires
                        a >= 1 && b >= 1 && c >= 1 && d >= 1 && e >= 1,
                ;
            }
            return None;
        },
    };
    match checked_cap_mul(a as u64, bcde) {
        Some(v) => Some(v as usize),
        None => None,
    }
}

/// `a * (b * c)` as a `usize`, or `None` when it exceeds [`MAX_ELEMS`]; all
/// factors must be positive.
pub fn checked_mul3(a: usize, b: usize, c: usize) -> (r: Option<usize>)
    requires
        a >= 1 && b >= 1 && c >= 1,
    ensures
        r is Some <==> a * (b * (c as int)) <= MAX_ELEMS as int,
        r matches Some(v) ==> v as int == a * (b * (c as int)),
{
    let bc = match checked_cap_mul(b as u64, c as u64) {
        Some(v) => v,
        None => {
            proof {
                assert(a * (b * (c as int)) >= b * (c as int)) by (nonlinear_arith)
                    requires
                        a >= 1 && b >= 1 && c >= 1,
                ;
            }
            return None;
        },
    };
    match checked_cap_mul(a as u64, bc) {
        Some(v) => Some(v as usize),
        None => None,
    }
}

/// With every factor positive, each partial product of the column-buffer
/// extent is bounded by the whole, which is within the element cap.
pub proof fn lemma_nested_product_bounds(ch: int, kh: int, kw: int, yh: int, yw: int)
    requires
        ch >= 1 && kh >= 1 && kw >= 1 && yh >= 1 && yw >= 1,
        ch * (kh * (kw * (yh * yw))) <= MAX_ELEMS as int,
    ensures
        yh * yw <= MAX_ELEMS as int,
        kw * (yh * yw) <= MAX_ELEMS as int,
        kh * (kw * (yh * yw)) <= MAX_ELEMS as int,
        yh * yw >= 1,
        kw * (yh * yw) >= 1,
        kh * (kw * (yh * yw)) >= 1,
        ch * (kh * (kw * (yh * yw))) >= 1,
        ch <= MAX_ELEMS as int && kh <= MAX_ELEMS as int && kw <= MAX_ELEMS as int && yh
            <= MAX_ELEMS as int && yw <= MAX_ELEMS as int,
{
    assert(yh * yw >= 1 && kw * (yh * yw) >= yh * yw && kh * (kw * (yh * yw)) >= kw * (yh * yw)
        && ch * (kh * (kw * (yh * yw))) >= kh * (kw * (yh * yw))) by (nonlinear_arith)
        requires
            ch >= 1 && kh >= 1 && kw >= 1 && yh >= 1 && yw >= 1,
    ;
    assert(ch <= ch * (kh * (kw * (yh * yw))) && kh <= kh * (kw * (yh * yw)) && kw <= kw * (yh
        * yw) && yh <= yh * yw && yw <= yh * yw) by (nonlinear_arith)
        requires
            ch >= 1 && kh >= 1 && kw >= 1 && yh >= 1 && yw >= 1,
    ;
}

/// The decoded coordinates of a flat column-buffer index are in range.
pub proof fn lemma_im2col_decode_bounds(ch: int, kh: int, kw: int, yh: int, yw: int, t: int)
    requires
        0 <= t,
        t < ch * (kh * (kw * (yh * yw))),
        ch >= 1 && kh >= 1 && kw >= 1 && yh >= 1 && yw >= 1,
    ensures
        0 <= t % yw < yw,
        0 <= (t / yw) % yh < yh,
        0 <= ((t / yw) / yh) % kw < kw,
        0 <= (((t / yw) / yh) / kw) % kh < kh,
        0 <= (((t / yw) / yh) / kw) / kh < ch,
{
    assert(t < (ch * (kh * (kw * yh))) * yw) by (nonlinear_arith)
        requires
            t < ch * (kh * (kw * (yh * yw))),
    ;
    lemma_div_below(t, yw, ch * (kh * (kw * yh)));
    let r1 = t / yw;
    assert(r1 < (ch * (kh * kw)) * yh) by (nonlinear_arith)
        requires
            r1 < ch * (kh * (kw * yh)),
    ;
    lemma_div_below(r1, yh, ch * (kh * kw));
    let r2 = r1 / yh;
    assert(r2 < (ch * kh) * kw) by (nonlinear_arith)
        requires
            r2 < ch * (kh * kw),
    ;
    lemma_div_below(r2, kw, ch * kh);
    let r3 = r2 / kw;
    assert(r3 < ch * kh) by (nonlinear_arith)
        requires
            r3 < (ch * kh),
    ;
    lemma_div_below(r3, kh, ch);
}

proof fn lemma_capped_product(a: Seq<i64>, b: Seq<i64>, ai: int, bi: int)
    requires
        vals_capped(a),
        vals_capped(b),
        0 <= ai < a.len(),
        0 <= bi < b.len(),
    ensures
        -(0x4000_0000_0000_0000_0000) <= a[ai] as int * b[bi] as int
            <= 0x4000_0000_0000_0000_0000,
{
    assert(-(0x4000_0000_0000_0000_0000) <= a[ai] as int * b[bi] as int
        <= 0x4000_0000_0000_0000_0000) by (nonlinear_arith)
        requires
            -MAX_CONV_VAL <= a[ai] <= MAX_CONV_VAL,
            -MAX_CONV_VAL <= b[bi] <= MAX_CONV_VAL,
    ;
}

} // verus!
