use autograd::array::NdArray;
use autograd::conv2d_transpose::{col2im, transposed_size, Conv2DTranspose, Conv2DTransposeFilterGrad};

fn ones(shape: Vec<usize>) -> NdArray {
    let n: usize = shape.iter().product();
    NdArray::new(shape, vec![1i64; n]).unwrap()
}

#[test]
fn test_tensor_size_after_convolution_t() {
    let op = Conv2DTranspose { pad: 0, stride: 1, dilation: 1 };
    let (yh, yw) = (2usize, 2usize);
    let (kh, kw) = (2usize, 2usize);
    let xh = transposed_size(yh, kh, op.pad, op.stride, op.dilation).unwrap();
    let xw = transposed_size(yw, kw, op.pad, op.stride, op.dilation).unwrap();
    assert_eq!(xh, 3);
    assert_eq!(xw, 3);
}

#[test]
fn test_parallel_col2im() {
    let batch_size = 2usize;
    let op = Conv2DTranspose { pad: 0, stride: 1, dilation: 1 };
    let xch = 3usize;
    let (yh, yw) = (2usize, 2usize);
    let (kh, kw) = (2usize, 2usize);
    let xh = transposed_size(yh, kh, op.pad, op.stride, op.dilation).unwrap();
    let xw = transposed_size(yw, kw, op.pad, op.stride, op.dilation).unwrap();

    let num_elements_in_batch_col = xch * kh * kw * yh * yw;
    let cols = vec![2i64; 108 * batch_size];
    let mut im: Vec<i64> = Vec::new();

    for i in 0..batch_size {
        let batch = col2im(
            &cols,
            i * num_elements_in_batch_col,
            xch,
            xh,
            xw,
            kh,
            kw,
            op.pad,
            op.stride,
            op.dilation,
            yh,
            yw,
        )
        .unwrap();
        im.extend(batch);
    }

    assert_eq!(
        im,
        vec![
            2, 4, 2, 4, 8, 4, 2, 4, 2, 2, 4, 2, 4, 8, 4, 2, 4, 2, 2, 4, 2, 4, 8, 4, 2, 4, 2, 2,
            4, 2, 4, 8, 4, 2, 4, 2, 2, 4, 2, 4, 8, 4, 2, 4, 2, 2, 4, 2, 4, 8, 4, 2, 4, 2,
        ]
    );
}

#[test]
fn test_deconv() {
    let op = Conv2DTranspose { pad: 0, stride: 1, dilation: 1 };
    let (kh, kw) = (2usize, 2usize);
    let (xch, ych) = (3usize, 2usize);
    let (yh, yw) = (2usize, 2usize);
    let (xh, xw) = (3usize, 3usize);
    let batch_size = 2usize;

    let w = ones(vec![ych, xch, kh, kw]);
    let g = ones(vec![batch_size, ych, yh, yw]);

    let ret = op.compute(&g, &w).unwrap();

    let x = ones(vec![batch_size, xch, xh, xw]);
    assert_eq!(x.shape, ret.shape);

    assert_eq!(
        ret.data,
        vec![
            2, 4, 2, 4, 8, 4, 2, 4, 2, 2, 4, 2, 4, 8, 4, 2, 4, 2, 2, 4, 2, 4, 8, 4, 2, 4, 2, 2,
            4, 2, 4, 8, 4, 2, 4, 2, 2, 4, 2, 4, 8, 4, 2, 4, 2, 2, 4, 2, 4, 8, 4, 2, 4, 2,
        ]
    );
}

#[test]
fn test_filter_grad_matches_shape() {
    // gradient of the transposed convolution with respect to its filter:
    // output has the filter's shape, and with all-ones operands each filter
    // cell accumulates batch * (number of valid output positions) products
    let op = Conv2DTransposeFilterGrad { pad: 0, stride: 1, dilation: 1 };
    let gy = ones(vec![2, 2, 3, 3]);
    let x = ones(vec![2, 3, 2, 2]);
    let w = ones(vec![2, 3, 2, 2]);
    let gw = op.compute(&gy, &x, &w).unwrap();
    assert_eq!(gw.shape, vec![2, 3, 2, 2]);
    // k = 2x2 output positions, batch 2: each cell sums 2 * 4 ones
    assert_eq!(gw.data, vec![8i64; 24]);
}
