//! Copying and converting of pixel rows.

use crate::text;
use crate::text::push_decimal;
use vstd::prelude::*;

verus! {

/// `rows` stretches of `row_bytes` bytes, the first at `start` and each `stride` bytes behind
/// the one before, put together.
pub open spec fn rows_of(
    data: Seq<u8>,
    start: int,
    stride: int,
    row_bytes: int,
    rows: nat,
) -> Seq<u8>
    decreases rows,
{
    if rows == 0 {
        Seq::empty()
    } else {
        let at = start + (rows - 1) * stride;
        rows_of(data, start, stride, row_bytes, (rows - 1) as nat) + data.subrange(
            at,
            at + row_bytes,
        )
    }
}

proof fn lemma_row_fits(start: int, stride: int, row_bytes: int, rows: int, k: int, len: int)
    requires
        0 <= start,
        0 <= stride,
        0 <= row_bytes,
        0 <= k < rows,
        start + (rows - 1) * stride + row_bytes <= len,
    ensures
        0 <= start + k * stride,
        start + k * stride + row_bytes <= len,
{
    assert(0 <= k * stride <= (rows - 1) * stride) by (nonlinear_arith)
        requires
            0 <= k <= rows - 1,
            0 <= stride,
    ;
}

/// Puts stretches of bytes together.
pub fn copy_rows(data: &[u8], start: usize, stride: usize, row_bytes: usize, rows: usize) -> (r: Vec<
    u8,
>)
    requires
        rows > 0 ==> start + (rows - 1) * stride + row_bytes <= data@.len(),
    ensures
        r@ == rows_of(data@, start as int, stride as int, row_bytes as int, rows as nat),
{
    let len: usize = data.len();
    let mut out: Vec<u8> = Vec::new();
    let mut k: usize = 0;
    let mut at: usize = start;
    while k < rows
        invariant
            k <= rows,
            len == data@.len(),
            rows > 0 ==> start + (rows - 1) * stride + row_bytes <= data@.len(),
            k < rows ==> at == start + k * stride,
            out@ == rows_of(data@, start as int, stride as int, row_bytes as int, k as nat),
        decreases rows - k,
    {
        proof {
            lemma_row_fits(
                start as int,
                stride as int,
                row_bytes as int,
                rows as int,
                k as int,
                data@.len() as int,
            );
        }
        let ghost before = out@;
        let mut i: usize = 0;
        while i < row_bytes
            invariant
                i <= row_bytes,
                len == data@.len(),
                at + row_bytes <= len,
                out@ == before + data@.subrange(at as int, at + i),
            decreases row_bytes - i,
        {
            out.push(data[at + i]);
            assert(out@ =~= before + data@.subrange(at as int, at + i + 1));
            i += 1;
        }
        k += 1;
        if k < rows {
            proof {
                lemma_row_fits(
                    start as int,
                    stride as int,
                    row_bytes as int,
                    rows as int,
                    k as int,
                    data@.len() as int,
                );
                assert((k - 1) * stride + stride == k * stride) by (nonlinear_arith);
            }
            at += stride;
        }
    }
    out
}

proof fn lemma_rows_len(data: Seq<u8>, start: int, stride: int, row_bytes: int, rows: nat)
    requires
        0 <= start,
        0 <= stride,
        0 <= row_bytes,
        rows > 0 ==> start + (rows - 1) * stride + row_bytes <= data.len(),
    ensures
        rows_of(data, start, stride, row_bytes, rows).len() == rows * row_bytes,
    decreases rows,
{
    if rows > 0 {
        lemma_row_fits(start, stride, row_bytes, rows as int, rows - 1, data.len() as int);
        if rows > 1 {
            lemma_row_fits(start, stride, row_bytes, rows as int, rows - 2, data.len() as int);
        }
        lemma_rows_len(data, start, stride, row_bytes, (rows - 1) as nat);
        assert((rows - 1) * row_bytes + row_bytes == rows * row_bytes) by (nonlinear_arith);
    } else {
        assert(0 * row_bytes == 0) by (nonlinear_arith);
    }
}

/// Where rows are as long as they are apart, putting them together copies a stretch of bytes.
pub proof fn law_packed_rows_are_a_copy(data: Seq<u8>, stride: int, rows: nat)
    requires
        0 <= stride,
        stride * rows <= data.len(),
    ensures
        rows_of(data, 0, stride, stride, rows) == data.subrange(0, stride * rows),
    decreases rows,
{
    if rows > 0 {
        assert(stride * (rows - 1) + stride == stride * rows) by (nonlinear_arith);
        assert((rows - 1) * stride == stride * (rows - 1)) by (nonlinear_arith);
        assert(0 <= stride * (rows - 1)) by (nonlinear_arith)
            requires
                0 <= stride,
                rows >= 1,
        ;
        law_packed_rows_are_a_copy(data, stride, (rows - 1) as nat);
        assert(rows_of(data, 0, stride, stride, rows) =~= data.subrange(0, stride * rows));
    } else {
        assert(stride * 0 == 0) by (nonlinear_arith);
        assert(data.subrange(0, 0) =~= Seq::empty());
    }
}

/// Packing keeps four bytes per pixel.
pub proof fn law_packed_size(data: Seq<u8>, width: int, height: nat, stride: int)
    requires
        0 <= width,
        4 * width <= stride,
        stride * height <= data.len(),
    ensures
        rows_of(data, 0, stride, 4 * width, height).len() == height * (4 * width),
{
    if height > 0 {
        assert((height - 1) * stride + 4 * width <= stride * height) by (nonlinear_arith)
            requires
                4 * width <= stride,
                height >= 1,
        ;
    }
    lemma_rows_len(data, 0, stride, 4 * width, height);
}

/// Why the rows of a captured image cannot be packed.
#[derive(Clone, Copy, Debug, PartialEq, Eq, Structural)]
pub enum StrideError {
    /// A row has more bytes than can be counted.
    WidthTooLarge,
    /// The rows are closer together than a row is long.
    ShortStride { row_bytes: usize },
    /// The image has more bytes than can be counted.
    TooLarge,
    /// There are fewer bytes than the image needs.
    ShortBuffer { required: usize },
}

/// The error that packing rows of four-byte pixels gives, if any.
pub open spec fn stride_error(len: int, width: usize, height: usize, stride: usize) -> Option<
    StrideError,
> {
    if width * 4 > usize::MAX {
        Some(StrideError::WidthTooLarge)
    } else if stride < width * 4 {
        Some(StrideError::ShortStride { row_bytes: (width * 4) as usize })
    } else if stride * height > usize::MAX {
        Some(StrideError::TooLarge)
    } else if len < stride * height {
        Some(StrideError::ShortBuffer { required: (stride * height) as usize })
    } else {
        None
    }
}

/// The rows of an image with four-byte pixels, without the padding between them.
pub fn pack_rows(data: &[u8], width: usize, height: usize, stride: usize) -> (r: Result<
    Vec<u8>,
    StrideError,
>)
    ensures
        match r {
            Ok(packed) => stride_error(data@.len() as int, width, height, stride) is None
                && packed@ == rows_of(
                data@,
                0,
                stride as int,
                width * 4,
                height as nat,
            ),
            Err(error) => stride_error(data@.len() as int, width, height, stride) == Some(error),
        },
{
    let row_bytes: usize = match width.checked_mul(4) {
        Some(row_bytes) => row_bytes,
        None => return Err(StrideError::WidthTooLarge),
    };
    if stride < row_bytes {
        return Err(StrideError::ShortStride { row_bytes });
    }
    let required: usize = match stride.checked_mul(height) {
        Some(required) => required,
        None => return Err(StrideError::TooLarge),
    };
    if data.len() < required {
        return Err(StrideError::ShortBuffer { required });
    }
    proof {
        if height > 0 {
            assert((height - 1) * stride + row_bytes <= stride * height) by (nonlinear_arith)
                requires
                    row_bytes <= stride,
                    height >= 1,
            ;
        }
    }
    Ok(copy_rows(data, 0, stride, row_bytes, height))
}

/// What is said of rows of a captured frame that cannot be packed.
pub open spec fn frame_error_text(len: int, stride: usize, error: StrideError) -> Seq<char> {
    match error {
        StrideError::WidthTooLarge => "Captured frame width is too large"@,
        StrideError::ShortStride { row_bytes } => "Captured frame stride "@ + text::decimal_of(
            stride as nat,
        ) + " is smaller than its "@ + text::decimal_of(row_bytes as nat) + "-byte row"@,
        StrideError::TooLarge => "Captured frame dimensions are too large"@,
        StrideError::ShortBuffer { required } => "Captured frame has "@ + text::decimal_of(
            len as nat,
        ) + " bytes, but its dimensions and stride require "@ + text::decimal_of(required as nat),
    }
}

/// The rows of a captured frame, without the padding between them.
pub fn copy_strided_bgra(data: &[u8], width: usize, height: usize, stride: usize) -> (r: Result<
    Vec<u8>,
    String,
>)
    ensures
        match (r, stride_error(data@.len() as int, width, height, stride)) {
            (Ok(packed), None) => packed@ == rows_of(
                data@,
                0,
                stride as int,
                width * 4,
                height as nat,
            ),
            (Err(message), Some(error)) => message@ == frame_error_text(
                data@.len() as int,
                stride,
                error,
            ),
            _ => false,
        },
{
    match pack_rows(data, width, height, stride) {
        Ok(packed) => Ok(packed),
        Err(error) => {
            let message: String = match error {
                StrideError::WidthTooLarge => "Captured frame width is too large".to_owned(),
                StrideError::ShortStride { row_bytes } => {
                    let mut message: String = "Captured frame stride ".to_owned();
                    push_decimal(&mut message, stride as u64);
                    message.append(" is smaller than its ");
                    push_decimal(&mut message, row_bytes as u64);
                    message.append("-byte row");
                    message
                },
                StrideError::TooLarge => "Captured frame dimensions are too large".to_owned(),
                StrideError::ShortBuffer { required } => {
                    let mut message: String = "Captured frame has ".to_owned();
                    push_decimal(&mut message, data.len() as u64);
                    message.append(" bytes, but its dimensions and stride require ");
                    push_decimal(&mut message, required as u64);
                    message
                },
            };
            Err(message)
        },
    }
}

/// What is said of rows of a screen sample that cannot be packed.
pub open spec fn sample_error_text(len: int, stride: usize, error: StrideError) -> Seq<char> {
    match error {
        StrideError::WidthTooLarge => "ScreenCaptureKit frame width is too large"@,
        StrideError::ShortStride { row_bytes } => "ScreenCaptureKit row stride "@
            + text::decimal_of(stride as nat) + " is smaller than "@ + text::decimal_of(
            row_bytes as nat,
        ),
        StrideError::TooLarge => "ScreenCaptureKit frame dimensions are too large"@,
        StrideError::ShortBuffer { required } => "ScreenCaptureKit frame has "@
            + text::decimal_of(len as nat) + " bytes, expected at least "@ + text::decimal_of(
            required as nat,
        ),
    }
}

/// The rows of a screen sample, without the padding between them.
pub fn pack_sample(data: &[u8], width: usize, height: usize, stride: usize) -> (r: Result<
    Vec<u8>,
    String,
>)
    requires
        stride > 0 || width > 0,
    ensures
        match (r, stride_error(data@.len() as int, width, height, stride)) {
            (Ok(packed), None) => packed@ == rows_of(
                data@,
                0,
                stride as int,
                width * 4,
                height as nat,
            ),
            (Err(message), Some(error)) => message@ == sample_error_text(
                data@.len() as int,
                stride,
                error,
            ),
            _ => false,
        },
{
    match pack_rows(data, width, height, stride) {
        Ok(packed) => Ok(packed),
        Err(error) => {
            let message: String = match error {
                StrideError::WidthTooLarge => "ScreenCaptureKit frame width is too large".to_owned(),
                StrideError::ShortStride { row_bytes } => {
                    let mut message: String = "ScreenCaptureKit row stride ".to_owned();
                    push_decimal(&mut message, stride as u64);
                    message.append(" is smaller than ");
                    push_decimal(&mut message, row_bytes as u64);
                    message
                },
                StrideError::TooLarge => "ScreenCaptureKit frame dimensions are too large".to_owned(),
                StrideError::ShortBuffer { required } => {
                    let mut message: String = "ScreenCaptureKit frame has ".to_owned();
                    push_decimal(&mut message, data.len() as u64);
                    message.append(" bytes, expected at least ");
                    push_decimal(&mut message, required as u64);
                    message
                },
            };
            Err(message)
        },
    }
}

/// The stretch of a side that a crop keeps: it starts within the side, ends within it, and is
/// not empty.
pub open spec fn kept_stretch(full: int, from: int, length: int) -> (int, int) {
    let start = if from < 0 {
        0
    } else if from > full - 1 {
        full - 1
    } else {
        from
    };
    let end = if from + length < full {
        from + length
    } else {
        full
    };
    (
        start,
        if end > start + 1 {
            end
        } else {
            start + 1
        },
    )
}

/// A crop keeps at least one pixel of each side and nothing outside it.
pub proof fn law_crop_stays_inside(full: int, from: int, length: int)
    requires
        full > 0,
    ensures
        0 <= kept_stretch(full, from, length).0 < kept_stretch(full, from, length).1 <= full,
{
}

fn clamp_stretch(full: usize, from: i64, length: i64) -> (r: (usize, usize))
    requires
        full > 0,
    ensures
        r.0 == kept_stretch(full as int, from as int, length as int).0,
        r.1 == kept_stretch(full as int, from as int, length as int).1,
{
    let full: i128 = full as i128;
    let from: i128 = from as i128;
    let start: i128 = if from < 0 {
        0
    } else if from > full - 1 {
        full - 1
    } else {
        from
    };
    let wanted: i128 = from + length as i128;
    let end: i128 = if wanted < full {
        wanted
    } else {
        full
    };
    let end: i128 = if end > start + 1 {
        end
    } else {
        start + 1
    };
    (start as usize, end as usize)
}

/// Whether `pixels` are those of a rectangle in a frame of four-byte pixels, which lies at `from`
/// and has the size `size`, cut to the frame; `width` and `height` are its sides after that.
pub open spec fn is_crop(
    frame: Seq<u8>,
    full_width: usize,
    full_height: usize,
    from: (int, int),
    size: (int, int),
    pixels: Seq<u8>,
    width: usize,
    height: usize,
) -> bool {
    let (left, right) = kept_stretch(full_width as int, from.0, size.0);
    let (top, bottom) = kept_stretch(full_height as int, from.1, size.1);
    &&& full_width > 0 && full_height > 0
    &&& full_width * 4 * full_height <= frame.len()
    &&& width == right - left
    &&& height == bottom - top
    &&& pixels == rows_of(
        frame,
        top * (full_width * 4) + left * 4,
        full_width * 4,
        width * 4,
        height as nat,
    )
}

/// Cuts a rectangle out of a frame of four-byte pixels and returns its pixels, its width and
/// its height. The rectangle is cut to the frame.
pub fn crop_bgra(
    frame: &[u8],
    full_width: usize,
    full_height: usize,
    crop_left: i64,
    crop_top: i64,
    crop_width: i64,
    crop_height: i64,
) -> (r: Result<(Vec<u8>, usize, usize), &'static str>)
    ensures
        match r {
            Ok((pixels, width, height)) => is_crop(
                frame@,
                full_width,
                full_height,
                (crop_left as int, crop_top as int),
                (crop_width as int, crop_height as int),
                pixels@,
                width,
                height,
            ),
            Err(message) => if full_width == 0 || full_height == 0 {
                message@ == "frame dimensions must be greater than zero"@
            } else if full_width * 4 * full_height > usize::MAX {
                message@ == "frame dimensions are too large"@
            } else {
                full_width * 4 * full_height > frame@.len() && message@
                    == "BGRA buffer is smaller than its declared dimensions"@
            },
        },
{
    if full_width == 0 || full_height == 0 {
        return Err("frame dimensions must be greater than zero");
    }
    let stride: usize = match full_width.checked_mul(4) {
        Some(stride) => stride,
        None => {
            assert(full_width * 4 * full_height > usize::MAX) by (nonlinear_arith)
                requires
                    full_width * 4 > usize::MAX,
                    full_height >= 1,
            ;
            return Err("frame dimensions are too large");
        },
    };
    let required: usize = match stride.checked_mul(full_height) {
        Some(required) => required,
        None => return Err("frame dimensions are too large"),
    };
    if frame.len() < required {
        return Err("BGRA buffer is smaller than its declared dimensions");
    }
    let (left, right) = clamp_stretch(full_width, crop_left, crop_width);
    let (top, bottom) = clamp_stretch(full_height, crop_top, crop_height);
    let width: usize = right - left;
    let height: usize = bottom - top;
    assert(bottom * stride <= stride * full_height) by (nonlinear_arith)
        requires
            bottom <= full_height,
            0 <= stride,
    ;
    assert(top * stride <= bottom * stride) by (nonlinear_arith)
        requires
            top <= bottom,
            0 <= stride,
    ;
    assert(top * stride + (height - 1) * stride + stride == bottom * stride) by (nonlinear_arith)
        requires
            height == bottom - top,
    ;
    assert((height - 1) * stride >= 0) by (nonlinear_arith)
        requires
            height >= 1,
            stride >= 0,
    ;
    let start: usize = top * stride + left * 4;
    Ok((copy_rows(frame, start, stride, width * 4, height), width, height))
}

/// The red, green and blue bytes of pixels with blue, green, red and a fourth byte.
pub open spec fn rgb_of(bgra: Seq<u8>) -> Seq<u8>
    decreases bgra.len(),
{
    if bgra.len() < 4 {
        Seq::empty()
    } else {
        seq![bgra[2], bgra[1], bgra[0]] + rgb_of(bgra.skip(4))
    }
}

/// The red, green and blue bytes of pixels with blue, green, red and a fourth byte.
pub fn bgra_to_rgb(bgra: &[u8]) -> (r: Vec<u8>)
    ensures
        r@ == rgb_of(bgra@),
{
    let mut out: Vec<u8> = Vec::new();
    let mut i: usize = 0;
    assert(bgra@.skip(0) =~= bgra@);
    assert(out@ + rgb_of(bgra@) =~= rgb_of(bgra@));
    while bgra.len() - i >= 4
        invariant
            i <= bgra@.len(),
            out@ + rgb_of(bgra@.skip(i as int)) == rgb_of(bgra@),
        decreases bgra@.len() - i,
    {
        let ghost rest = bgra@.skip(i as int);
        let ghost before = out@;
        out.push(bgra[i + 2]);
        out.push(bgra[i + 1]);
        out.push(bgra[i]);
        assert(rest.skip(4) =~= bgra@.skip(i + 4));
        assert(out@ + rgb_of(rest.skip(4)) =~= before + (seq![rest[2], rest[1], rest[0]] + rgb_of(
            rest.skip(4),
        )));
        i += 4;
    }
    assert(out@ =~= rgb_of(bgra@));
    out
}

/// Three bytes remain of every four.
pub proof fn law_rgb_size(bgra: Seq<u8>)
    ensures
        rgb_of(bgra).len() == 3 * (bgra.len() / 4),
    decreases bgra.len(),
{
    if bgra.len() >= 4 {
        law_rgb_size(bgra.skip(4));
    }
}

/// Pixel `i` keeps its red, green and blue bytes.
pub proof fn law_rgb_keeps_pixels(bgra: Seq<u8>, i: int)
    requires
        0 <= i < bgra.len() / 4,
    ensures
        rgb_of(bgra)[3 * i] == bgra[4 * i + 2],
        rgb_of(bgra)[3 * i + 1] == bgra[4 * i + 1],
        rgb_of(bgra)[3 * i + 2] == bgra[4 * i],
    decreases bgra.len(),
{
    law_rgb_size(bgra);
    law_rgb_size(bgra.skip(4));
    if i > 0 {
        law_rgb_keeps_pixels(bgra.skip(4), i - 1);
        assert(rgb_of(bgra)[3 * i] == rgb_of(bgra.skip(4))[3 * (i - 1)]);
        assert(rgb_of(bgra)[3 * i + 1] == rgb_of(bgra.skip(4))[3 * (i - 1) + 1]);
        assert(rgb_of(bgra)[3 * i + 2] == rgb_of(bgra.skip(4))[3 * (i - 1) + 2]);
    }
}

/// Three-byte pixels with a zero byte behind each.
pub open spec fn rgbx_of(rgb: Seq<u8>) -> Seq<u8>
    decreases rgb.len(),
{
    if rgb.len() < 3 {
        Seq::empty()
    } else {
        seq![rgb[0], rgb[1], rgb[2], 0u8] + rgbx_of(rgb.skip(3))
    }
}

/// Three-byte pixels with a zero byte behind each.
pub fn rgb_to_rgbx(rgb: &[u8]) -> (r: Vec<u8>)
    ensures
        r@ == rgbx_of(rgb@),
{
    let mut out: Vec<u8> = Vec::new();
    let mut i: usize = 0;
    assert(rgb@.skip(0) =~= rgb@);
    assert(out@ + rgbx_of(rgb@) =~= rgbx_of(rgb@));
    while rgb.len() - i >= 3
        invariant
            i <= rgb@.len(),
            out@ + rgbx_of(rgb@.skip(i as int)) == rgbx_of(rgb@),
        decreases rgb@.len() - i,
    {
        let ghost rest = rgb@.skip(i as int);
        let ghost before = out@;
        out.push(rgb[i]);
        out.push(rgb[i + 1]);
        out.push(rgb[i + 2]);
        out.push(0);
        assert(rest.skip(3) =~= rgb@.skip(i + 3));
        assert(out@ + rgbx_of(rest.skip(3)) =~= before + (seq![rest[0], rest[1], rest[2], 0u8]
            + rgbx_of(rest.skip(3))));
        i += 3;
    }
    assert(out@ =~= rgbx_of(rgb@));
    out
}

/// Why bytes are no image with three-byte pixels.
#[derive(Clone, Copy, Debug, PartialEq, Eq, Structural)]
pub enum RgbBufferError {
    /// The image has more bytes than can be counted.
    TooLarge,
    /// A side has no pixels.
    Empty,
    /// The number of bytes does not fit the sides.
    WrongLength { expected: usize },
}

/// Checks that `len` bytes are an image with three-byte pixels.
pub fn check_rgb_buffer(len: usize, width: usize, height: usize) -> (r: Result<
    (),
    RgbBufferError,
>)
    ensures
        match r {
            Ok(_) => width > 0 && height > 0 && len == width * height * 3,
            Err(RgbBufferError::TooLarge) => width * height * 3 > usize::MAX,
            Err(RgbBufferError::Empty) => width * height * 3 <= usize::MAX && (width == 0 || height
                == 0),
            Err(RgbBufferError::WrongLength { expected }) => width > 0 && height > 0 && expected
                == width * height * 3 && len != expected,
        },
{
    let pixels: usize = match width.checked_mul(height) {
        Some(pixels) => pixels,
        None => return Err(RgbBufferError::TooLarge),
    };
    let expected: usize = match pixels.checked_mul(3) {
        Some(expected) => expected,
        None => return Err(RgbBufferError::TooLarge),
    };
    if width == 0 || height == 0 {
        return Err(RgbBufferError::Empty);
    }
    if len != expected {
        return Err(RgbBufferError::WrongLength { expected });
    }
    Ok(())
}

/// Byte `b` of row `k` of rows that were put together is byte `b` of the row that starts `k`
/// times `stride` bytes behind the first; each row has `row_bytes` bytes.
pub proof fn law_rows_keep_their_bytes(
    data: Seq<u8>,
    start: int,
    stride: int,
    row_bytes: int,
    rows: nat,
    k: int,
    b: int,
)
    requires
        0 <= start,
        0 <= stride,
        0 <= b < row_bytes,
        0 <= k < rows,
        start + (rows - 1) * stride + row_bytes <= data.len(),
    ensures
        rows_of(data, start, stride, row_bytes, rows).len() == rows * row_bytes,
        0 <= k * row_bytes + b < rows * row_bytes,
        rows_of(data, start, stride, row_bytes, rows)[k * row_bytes + b] == data[start + k * stride
            + b],
    decreases rows,
{
    lemma_rows_len(data, start, stride, row_bytes, rows);
    lemma_row_fits(start, stride, row_bytes, rows as int, k, data.len() as int);
    lemma_row_fits(start, stride, row_bytes, rows as int, rows - 1, data.len() as int);
    if rows > 1 {
        lemma_row_fits(start, stride, row_bytes, rows as int, rows - 2, data.len() as int);
    }
    lemma_rows_len(data, start, stride, row_bytes, (rows - 1) as nat);
    assert((rows - 1) * row_bytes + row_bytes == rows * row_bytes) by (nonlinear_arith);
    assert(0 <= k * row_bytes) by (nonlinear_arith)
        requires
            0 <= k,
            0 <= row_bytes,
    ;
    if k < rows - 1 {
        law_rows_keep_their_bytes(data, start, stride, row_bytes, (rows - 1) as nat, k, b);
    }
}

/// A stretch that lies in the side is kept as it is; one that begins before the side is kept from
/// the start, one that ends behind it up to the end, and one that lies outside becomes the one
/// pixel next to it.
pub proof fn law_crops_are_cut_to_the_frame(full: int, from: int, length: int)
    requires
        full > 0,
        length > 0,
    ensures
        0 <= from && from + length <= full ==> kept_stretch(full, from, length) == (
            from,
            from + length,
        ),
        from < 0 && 0 < from + length <= full ==> kept_stretch(full, from, length) == (
            0int,
            from + length,
        ),
        0 <= from < full && from + length > full ==> kept_stretch(full, from, length) == (
            from,
            full,
        ),
        from < 0 && from + length > full ==> kept_stretch(full, from, length) == (0int, full),
        from >= full ==> kept_stretch(full, from, length) == (full - 1, full),
        from + length <= 0 ==> kept_stretch(full, from, length) == (0int, 1int),
{
}

/// Byte `b` of pixel (`x`, `y`) of a crop is that of pixel (`left + x`, `top + y`) of the frame.
pub proof fn law_crops_keep_their_pixels(
    frame: Seq<u8>,
    full: (int, int),
    left: int,
    top: int,
    width: int,
    height: nat,
    x: int,
    y: int,
    b: int,
)
    requires
        0 <= left,
        0 <= top,
        left + width <= full.0,
        top + height <= full.1,
        full.0 * 4 * full.1 <= frame.len(),
        0 <= x < width,
        0 <= y < height,
        0 <= b < 4,
    ensures
        rows_of(frame, top * (full.0 * 4) + left * 4, full.0 * 4, width * 4, height)[(y * width + x)
            * 4 + b] == frame[((top + y) * full.0 + left + x) * 4 + b],
{
    let stride = full.0 * 4;
    let start = top * stride + left * 4;
    assert(0 <= top * stride) by (nonlinear_arith)
        requires
            0 <= top,
            0 <= stride,
    ;
    assert(top * stride + (height - 1) * stride + stride <= stride * full.1) by (nonlinear_arith)
        requires
            top + height <= full.1,
            0 <= stride,
    ;
    law_rows_keep_their_bytes(frame, start, stride, width * 4, height, y, x * 4 + b);
    assert(y * (width * 4) + (x * 4 + b) == (y * width + x) * 4 + b) by (nonlinear_arith);
    assert(start + y * stride + (x * 4 + b) == ((top + y) * full.0 + left + x) * 4 + b)
        by (nonlinear_arith)
        requires
            stride == full.0 * 4,
            start == top * stride + left * 4,
    ;
}

/// Rows can be packed exactly where a row, four bytes for each pixel, fits the distance of the
/// rows, and all rows fit the bytes that there are; what is wrong else is told in this order.
pub proof fn law_rows_that_fit_can_be_packed(len: int, width: usize, height: usize, stride: usize)
    requires
        0 <= len <= usize::MAX,
    ensures
        stride_error(len, width, height, stride) is None <==> 4 * width <= stride && stride * height
            <= len,
        stride_error(len, width, height, stride) is Some ==> match stride_error(
            len,
            width,
            height,
            stride,
        )->0 {
            StrideError::WidthTooLarge => 4 * width > usize::MAX,
            StrideError::ShortStride { row_bytes } => 4 * width <= usize::MAX && row_bytes == 4
                * width && stride < row_bytes,
            StrideError::TooLarge => stride >= 4 * width && stride * height > usize::MAX,
            StrideError::ShortBuffer { required } => stride >= 4 * width && required == stride
                * height && len < required,
        },
{
}

/// Pixel `i` gets a zero byte behind its three bytes.
pub proof fn law_rgbx_keeps_pixels(rgb: Seq<u8>, i: int)
    requires
        0 <= i < rgb.len() / 3,
    ensures
        rgbx_of(rgb).len() == 4 * (rgb.len() / 3),
        rgbx_of(rgb)[4 * i] == rgb[3 * i],
        rgbx_of(rgb)[4 * i + 1] == rgb[3 * i + 1],
        rgbx_of(rgb)[4 * i + 2] == rgb[3 * i + 2],
        rgbx_of(rgb)[4 * i + 3] == 0,
    decreases rgb.len(),
{
    lemma_rgbx_size(rgb);
    lemma_rgbx_size(rgb.skip(3));
    if i > 0 {
        law_rgbx_keeps_pixels(rgb.skip(3), i - 1);
        let rest = rgbx_of(rgb.skip(3));
        assert(rgbx_of(rgb)[4 * i] == rest[4 * (i - 1)]);
        assert(rgbx_of(rgb)[4 * i + 1] == rest[4 * (i - 1) + 1]);
        assert(rgbx_of(rgb)[4 * i + 2] == rest[4 * (i - 1) + 2]);
        assert(rgbx_of(rgb)[4 * i + 3] == rest[4 * (i - 1) + 3]);
    }
}

proof fn lemma_rgbx_size(rgb: Seq<u8>)
    ensures
        rgbx_of(rgb).len() == 4 * (rgb.len() / 3),
    decreases rgb.len(),
{
    if rgb.len() >= 3 {
        lemma_rgbx_size(rgb.skip(3));
    }
}

/// The crop of a rectangle that lies in the frame has the sides of the rectangle, and byte `b` of
/// its pixel (`x`, `y`) is that of the pixel as far from the rectangle's corner in the frame.
pub proof fn law_crops_show_their_rectangle(
    frame: Seq<u8>,
    full_width: usize,
    full_height: usize,
    from: (int, int),
    size: (int, int),
    pixels: Seq<u8>,
    width: usize,
    height: usize,
    x: int,
    y: int,
    b: int,
)
    requires
        is_crop(frame, full_width, full_height, from, size, pixels, width, height),
        0 <= from.0 && 0 <= from.1,
        0 <= x < size.0 && 0 <= y < size.1 && 0 <= b < 4,
        from.0 + size.0 <= full_width,
        from.1 + size.1 <= full_height,
    ensures
        width == size.0 && height == size.1,
        pixels.len() == 4 * (width * height),
        pixels[(y * width + x) * 4 + b] == frame[((from.1 + y) * full_width + from.0 + x) * 4 + b],
{
    law_crops_are_cut_to_the_frame(full_width as int, from.0, size.0);
    law_crops_are_cut_to_the_frame(full_height as int, from.1, size.1);
    law_crops_keep_their_pixels(
        frame,
        (full_width as int, full_height as int),
        from.0,
        from.1,
        width as int,
        height as nat,
        x,
        y,
        b,
    );
    let stride = full_width * 4;
    let start = from.1 * stride + from.0 * 4;
    assert(0 <= from.1 * stride) by (nonlinear_arith)
        requires
            0 <= from.1,
            0 <= stride,
    ;
    assert(from.1 * stride + (height - 1) * stride + stride <= stride * full_height)
        by (nonlinear_arith)
        requires
            from.1 + height <= full_height,
            0 <= stride,
    ;
    lemma_rows_len(frame, start, stride, width * 4, height as nat);
    assert(height * (width * 4) == 4 * (width * height)) by (nonlinear_arith);
}

} // verus!
