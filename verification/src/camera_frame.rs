//! A camera's frame, copied into a lent buffer as NV12.
//!
//! The frame is 4:2:0 in one of three arrangements: chroma pairs of either order in one region,
//! or two chroma planes. Its rows may be padded. What is left of the buffer's rows is not
//! touched.
use crate::bytes;
use crate::codec;
use vstd::prelude::*;

verus! {

/// What stands in for chroma that a frame does not hold.
pub const NEUTRAL: u8 = 0x80;

/// The brightness of a frame.
pub struct LumaPlane<'a> {
    pub bytes: &'a [u8],
    pub row_stride: i32,
    pub pixel_stride: i32,
}

/// The colour of a frame.
pub enum Chroma<'a> {
    /// Pairs in one region, Cb first or Cr first. `u_len` and `v_len` are what the camera gives
    /// as the lengths of the two planes that overlap in it.
    Interleaved {
        cr_first: bool,
        region: &'a [u8],
        row_stride: i32,
        u_len: usize,
        v_len: usize,
    },
    /// A plane of Cb and a plane of Cr.
    Planar { u: &'a [u8], u_stride: i32, v: &'a [u8], v_stride: i32 },
    /// Neither.
    Unknown,
}

/// A frame as the camera delivers it.
pub struct CameraFrame<'a> {
    pub width: i32,
    pub height: i32,
    /// How many planes there are.
    pub planes: usize,
    pub luma: LumaPlane<'a>,
    pub chroma: Chroma<'a>,
}

/// Why a frame is not copied.
#[derive(Clone, Copy, Debug, PartialEq, Eq, Structural)]
pub enum CopyError {
    /// It has not the size of the stream.
    Size,
    /// A row of the buffer is shorter than one of the picture.
    Stride,
    /// The buffer is too small.
    Buffer,
    /// There are not three planes.
    Planes,
    /// The luma plane does not hold the picture.
    Luma,
    /// A row of the chroma is shorter than one of the picture.
    ChromaStride,
    /// One of the two planes of interleaved chroma is empty, so they are not one region.
    EmptyPlane,
    /// The chroma planes do not hold the picture.
    ChromaPlanes,
    /// The arrangement is unknown.
    Layout,
}

impl CopyError {
    /// Whether it is found only after the luma was copied.
    pub open spec fn is_late(self) -> bool {
        self is ChromaStride || self is EmptyPlane || self is ChromaPlanes || self is Layout
    }
}

/// A stride, where it is not negative.
pub open spec fn stride_of(v: i32) -> int {
    codec::max_int(v as int, 0)
}

/// How many bytes a picture takes in a buffer.
pub open spec fn picture_bytes(stride: int, height: int) -> int {
    stride * height + stride * codec::half_up(height)
}

/// Whether a plane of `len` bytes holds `rows` rows of `cols` bytes.
pub open spec fn plane_holds(len: int, stride: int, rows: int, cols: int) -> bool {
    stride >= cols && len >= (rows - 1) * stride + cols
}

/// What is wrong with a frame's chroma.
pub open spec fn chroma_fault(chroma: Chroma, width: int, height: int) -> Option<CopyError> {
    match chroma {
        Chroma::Interleaved { row_stride, u_len, v_len, .. } => if stride_of(row_stride) < width {
            Some(CopyError::ChromaStride)
        } else if u_len == 0 || v_len == 0 {
            Some(CopyError::EmptyPlane)
        } else {
            None
        },
        Chroma::Planar { u, u_stride, v, v_stride } => {
            let (rows, cols) = (codec::half_up(height), codec::half_up(width));
            if plane_holds(u@.len() as int, stride_of(u_stride), rows, cols) && plane_holds(
                v@.len() as int,
                stride_of(v_stride),
                rows,
                cols,
            ) {
                None
            } else {
                Some(CopyError::ChromaPlanes)
            }
        },
        Chroma::Unknown => Some(CopyError::Layout),
    }
}

/// What is wrong with a frame, or with the buffer it is to be copied to.
pub open spec fn frame_fault(
    frame: CameraFrame,
    len: int,
    stride: int,
    width: u32,
    height: u32,
) -> Option<CopyError> {
    if frame.width != width as i32 || frame.height != height as i32 {
        Some(CopyError::Size)
    } else if stride < width {
        Some(CopyError::Stride)
    } else if len < picture_bytes(stride, height as int) {
        Some(CopyError::Buffer)
    } else if frame.planes != 3 {
        Some(CopyError::Planes)
    } else if frame.luma.pixel_stride != 1 || !plane_holds(
        frame.luma.bytes@.len() as int,
        stride_of(frame.luma.row_stride),
        height as int,
        width as int,
    ) {
        Some(CopyError::Luma)
    } else {
        chroma_fault(frame.chroma, width as int, height as int)
    }
}

/// Byte `col` of chroma row `row`: Cb at even places, Cr at odd ones. What an interleaved region
/// does not hold is neutral.
pub open spec fn chroma_byte(chroma: Chroma, row: int, col: int) -> u8 {
    match chroma {
        Chroma::Interleaved { cr_first, region, row_stride, .. } => {
            let at = row * stride_of(row_stride) + col;
            if !cr_first {
                if at < region@.len() {
                    region@[at]
                } else {
                    NEUTRAL
                }
            } else if col % 2 == 0 {
                if at + 1 < region@.len() {
                    region@[at + 1]
                } else {
                    NEUTRAL
                }
            } else {
                if at < region@.len() {
                    region@[at - 1]
                } else {
                    NEUTRAL
                }
            }
        },
        Chroma::Planar { u, u_stride, v, v_stride } => if col % 2 == 0 {
            u@[row * stride_of(u_stride) + col / 2]
        } else {
            v@[row * stride_of(v_stride) + col / 2]
        },
        Chroma::Unknown => NEUTRAL,
    }
}

/// Byte `col` of row `row` of the picture, whose chroma rows stand behind its luma rows.
pub open spec fn picture_byte(frame: CameraFrame, height: int, row: int, col: int) -> u8 {
    if row < height {
        frame.luma.bytes@[row * stride_of(frame.luma.row_stride) + col]
    } else {
        chroma_byte(frame.chroma, row - height, col)
    }
}

/// A buffer with the first `rows` rows of the picture in it, each at the start of one of its
/// rows, and all else as it was.
pub open spec fn with_rows(
    frame: CameraFrame,
    dst: Seq<u8>,
    stride: int,
    width: int,
    height: int,
    rows: int,
) -> Seq<u8> {
    Seq::new(
        dst.len(),
        |p: int|
            if width > 0 && p / stride < rows && p % stride < width {
                picture_byte(frame, height, p / stride, p % stride)
            } else {
                dst[p]
            },
    )
}

/// Writing row `row` makes a buffer with `row` rows one with a row more.
proof fn lemma_row(
    frame: CameraFrame,
    start: Seq<u8>,
    before: Seq<u8>,
    after: Seq<u8>,
    stride: int,
    width: int,
    height: int,
    row: int,
)
    requires
        0 <= row,
        0 <= width <= stride,
        row * stride + width <= start.len(),
        before == with_rows(frame, start, stride, width, height, row),
        after.len() == start.len(),
        forall|p: int|
            0 <= p < start.len() ==> #[trigger] after[p] == if row * stride <= p < row * stride
                + width {
                picture_byte(frame, height, row, p - row * stride)
            } else {
                before[p]
            },
    ensures
        after == with_rows(frame, start, stride, width, height, row + 1),
{
    let want = with_rows(frame, start, stride, width, height, row + 1);
    assert forall|p: int| 0 <= p < start.len() implies after[p] == want[p] by {
        if width > 0 {
            let q = p / stride;
            let c = p % stride;
            vstd::arithmetic::div_mod::lemma_fundamental_div_mod(p, stride);
            assert(stride * q == q * stride) by (nonlinear_arith);
            if q == row {
            } else {
                assert(!(row * stride <= p < row * stride + width)) by (nonlinear_arith)
                    requires
                        p == q * stride + c,
                        0 <= c < stride,
                        q != row,
                        width <= stride,
                ;
            }
        }
    }
    assert(after =~= want);
}

/// Rows of a plane that holds them lie inside it.
proof fn lemma_plane_row(len: int, stride: int, rows: int, cols: int, row: int)
    requires
        plane_holds(len, stride, rows, cols),
        0 <= row < rows,
        0 <= stride,
    ensures
        0 <= row * stride,
        row * stride + cols <= len,
{
    assert(0 <= row * stride <= (rows - 1) * stride) by (nonlinear_arith)
        requires
            0 <= row <= rows - 1,
            0 <= stride,
    ;
}

/// Rows of a buffer that holds the picture lie inside it.
proof fn lemma_buffer_row(len: int, stride: int, height: int, row: int)
    requires
        picture_bytes(stride, height) <= len,
        0 <= stride,
        0 <= height,
        0 <= row < height + codec::half_up(height),
    ensures
        0 <= row * stride,
        row * stride + stride <= len,
{
    let rows = height + codec::half_up(height);
    assert(0 <= row * stride && row * stride + stride <= rows * stride) by (nonlinear_arith)
        requires
            0 <= row,
            row + 1 <= rows,
            0 <= stride,
    ;
    assert(rows * stride == picture_bytes(stride, height)) by (nonlinear_arith)
        requires
            rows == height + codec::half_up(height),
    ;
}

/// A stride, where it is not negative.
fn positive(v: i32) -> (s: u64)
    ensures
        s == stride_of(v),
{
    if v < 0 {
        0
    } else {
        v as u64
    }
}

/// Whether a plane of `len` bytes holds `rows` rows of `cols` bytes.
fn holds(len: usize, stride: u64, rows: u32, cols: u32) -> (b: bool)
    requires
        stride <= i32::MAX,
        1 <= rows,
    ensures
        b == plane_holds(len as int, stride as int, rows as int, cols as int),
{
    if stride < cols as u64 {
        return false;
    }
    assert(0 <= (rows - 1) * stride <= u32::MAX * (i32::MAX as int)) by (nonlinear_arith)
        requires
            1 <= rows <= u32::MAX,
            0 <= stride <= i32::MAX,
    ;
    len as u128 >= (rows - 1) as u128 * stride as u128 + cols as u128
}

fn half(v: u32) -> (h: u32)
    ensures
        h == codec::half_up(v as int),
{
    v / 2 + v % 2
}

/// What is wrong with a frame's chroma.
fn check_chroma(chroma: &Chroma, width: u32, height: u32) -> (r: Option<CopyError>)
    requires
        1 <= height,
    ensures
        r == chroma_fault(*chroma, width as int, height as int),
{
    match chroma {
        Chroma::Interleaved { row_stride, u_len, v_len, .. } => {
            if positive(*row_stride) < width as u64 {
                Some(CopyError::ChromaStride)
            } else if *u_len == 0 || *v_len == 0 {
                Some(CopyError::EmptyPlane)
            } else {
                None
            }
        },
        Chroma::Planar { u, u_stride, v, v_stride } => {
            let (rows, cols): (u32, u32) = (half(height), half(width));
            if holds(u.len(), positive(*u_stride), rows, cols) && holds(
                v.len(),
                positive(*v_stride),
                rows,
                cols,
            ) {
                None
            } else {
                Some(CopyError::ChromaPlanes)
            }
        },
        Chroma::Unknown => Some(CopyError::Layout),
    }
}

/// A byte of a region, or a neutral one where the region does not reach.
fn byte_or_neutral(region: &[u8], at: u64) -> (b: u8)
    ensures
        b == if at < region@.len() {
            region@[at as int]
        } else {
            NEUTRAL
        },
{
    if at < region.len() as u64 {
        region[at as usize]
    } else {
        NEUTRAL
    }
}

/// Byte `col` of chroma row `row`.
fn chroma_sample(chroma: &Chroma, row: u32, col: u32, Ghost(width): Ghost<u32>, Ghost(height): Ghost<
    u32,
>) -> (b: u8)
    requires
        chroma_fault(*chroma, width as int, height as int) is None,
        row < codec::half_up(height as int),
        col < width,
    ensures
        b == chroma_byte(*chroma, row as int, col as int),
{
    match chroma {
        Chroma::Interleaved { cr_first, region, row_stride, .. } => {
            let stride: u64 = positive(*row_stride);
            assert(0 <= row * stride <= u32::MAX * (i32::MAX as int)) by (nonlinear_arith)
                requires
                    0 <= row <= u32::MAX,
                    0 <= stride <= i32::MAX,
            ;
            let at: u64 = row as u64 * stride + col as u64;
            if !*cr_first {
                byte_or_neutral(region, at)
            } else if col % 2 == 0 {
                byte_or_neutral(region, at + 1)
            } else if at < region.len() as u64 {
                region[(at - 1) as usize]
            } else {
                NEUTRAL
            }
        },
        Chroma::Planar { u, u_stride, v, v_stride } => {
            let ghost rows = codec::half_up(height as int);
            let ghost cols = codec::half_up(width as int);
            if col % 2 == 0 {
                let stride: u64 = positive(*u_stride);
                let len: usize = u.len();
                proof {
                    lemma_plane_row(len as int, stride as int, rows, cols, row as int);
                }
                u[row as usize * stride as usize + (col / 2) as usize]
            } else {
                let stride: u64 = positive(*v_stride);
                let len: usize = v.len();
                proof {
                    lemma_plane_row(len as int, stride as int, rows, cols, row as int);
                }
                v[row as usize * stride as usize + (col / 2) as usize]
            }
        },
        Chroma::Unknown => NEUTRAL,
    }
}

proof fn lemma_no_rows(frame: CameraFrame, dst: Seq<u8>, stride: int, width: int, height: int)
    requires
        width <= stride,
    ensures
        dst == with_rows(frame, dst, stride, width, height, 0),
{
    let want = with_rows(frame, dst, stride, width, height, 0);
    assert forall|p: int| 0 <= p < dst.len() implies dst[p] == want[p] by {
        if width > 0 {
            assert(p / stride >= 0) by (nonlinear_arith)
                requires
                    0 <= p,
                    stride > 0,
            ;
        }
    }
    assert(dst =~= want);
}

/// Copies the luma rows.
fn copy_luma(frame: &CameraFrame, dst: &mut [u8], stride: u32, width: u32, height: u32)
    requires
        stride >= width,
        picture_bytes(stride as int, height as int) <= old(dst)@.len(),
        plane_holds(
            frame.luma.bytes@.len() as int,
            stride_of(frame.luma.row_stride),
            height as int,
            width as int,
        ),
    ensures
        final(dst)@ == with_rows(
            *frame,
            old(dst)@,
            stride as int,
            width as int,
            height as int,
            height as int,
        ),
{
    let step: u64 = positive(frame.luma.row_stride);
    let slen: usize = frame.luma.bytes.len();
    let dlen: usize = dst.len();
    let mut row: u32 = 0;
    proof {
        lemma_no_rows(*frame, dst@, stride as int, width as int, height as int);
    }
    while row < height
        invariant
            row <= height,
            stride >= width,
            step == stride_of(frame.luma.row_stride),
            slen == frame.luma.bytes@.len(),
            dlen == dst@.len() == old(dst)@.len(),
            picture_bytes(stride as int, height as int) <= dlen,
            plane_holds(slen as int, step as int, height as int, width as int),
            dst@ == with_rows(
                *frame,
                old(dst)@,
                stride as int,
                width as int,
                height as int,
                row as int,
            ),
        decreases height - row,
    {
        proof {
            lemma_plane_row(slen as int, step as int, height as int, width as int, row as int);
            lemma_buffer_row(dlen as int, stride as int, height as int, row as int);
        }
        let from: usize = row as usize * step as usize;
        let to: usize = row as usize * stride as usize;
        let ghost before = dst@;
        bytes::copy_bytes(frame.luma.bytes, from, dst, to, width as usize);
        proof {
            lemma_row(
                *frame,
                old(dst)@,
                before,
                dst@,
                stride as int,
                width as int,
                height as int,
                row as int,
            );
        }
        row = row + 1;
    }
}

/// Copies one chroma row.
fn copy_chroma_row(
    frame: &CameraFrame,
    dst: &mut [u8],
    to: usize,
    row: u32,
    width: u32,
    height: u32,
)
    requires
        chroma_fault(frame.chroma, width as int, height as int) is None,
        row < codec::half_up(height as int),
        to + width <= old(dst)@.len(),
    ensures
        final(dst)@.len() == old(dst)@.len(),
        forall|p: int|
            0 <= p < old(dst)@.len() ==> #[trigger] final(dst)@[p] == if to <= p < to + width {
                picture_byte(*frame, height as int, height + row, p - to)
            } else {
                old(dst)@[p]
            },
{
    let dlen: usize = dst.len();
    let mut col: u32 = 0;
    while col < width
        invariant
            col <= width,
            chroma_fault(frame.chroma, width as int, height as int) is None,
            row < codec::half_up(height as int),
            dlen == dst@.len() == old(dst)@.len(),
            to + width <= dlen,
            forall|p: int|
                0 <= p < dlen ==> #[trigger] dst@[p] == if to <= p < to + col {
                    picture_byte(*frame, height as int, height + row, p - to)
                } else {
                    old(dst)@[p]
                },
        decreases width - col,
    {
        dst[to + col as usize] = chroma_sample(&frame.chroma, row, col, Ghost(width), Ghost(height));
        col = col + 1;
    }
}

/// Copies a frame into a buffer as NV12, whose rows are `stride` bytes apart. Returns how many
/// bytes of the buffer are the picture's.
pub fn copy_frame(frame: &CameraFrame, dst: &mut [u8], stride: u32, width: u32, height: u32) -> (r:
    Result<u32, CopyError>)
    requires
        1 <= height,
    ensures
        match frame_fault(*frame, old(dst)@.len() as int, stride as int, width, height) {
            None => {
                &&& r == Ok::<u32, CopyError>(picture_bytes(stride as int, height as int) as u32)
                &&& final(dst)@ == with_rows(
                    *frame,
                    old(dst)@,
                    stride as int,
                    width as int,
                    height as int,
                    height + codec::half_up(height as int),
                )
            },
            Some(e) => {
                &&& r == Err::<u32, CopyError>(e)
                &&& final(dst)@ == if e.is_late() {
                    with_rows(
                        *frame,
                        old(dst)@,
                        stride as int,
                        width as int,
                        height as int,
                        height as int,
                    )
                } else {
                    old(dst)@
                }
            },
        },
{
    if frame.width != width as i32 || frame.height != height as i32 {
        return Err(CopyError::Size);
    }
    if stride < width {
        return Err(CopyError::Stride);
    }
    let chroma_rows: u32 = half(height);
    assert(0 <= stride * height <= u32::MAX * (u32::MAX as int) && 0 <= stride * chroma_rows
        <= u32::MAX * (u32::MAX as int)) by (nonlinear_arith)
        requires
            0 <= stride <= u32::MAX,
            0 <= height <= u32::MAX,
            0 <= chroma_rows <= u32::MAX,
    ;
    let need: u128 = stride as u128 * height as u128 + stride as u128 * chroma_rows as u128;
    if (dst.len() as u128) < need {
        return Err(CopyError::Buffer);
    }
    if frame.planes != 3 {
        return Err(CopyError::Planes);
    }
    if frame.luma.pixel_stride != 1 || !holds(
        frame.luma.bytes.len(),
        positive(frame.luma.row_stride),
        height,
        width,
    ) {
        return Err(CopyError::Luma);
    }
    copy_luma(frame, dst, stride, width, height);
    if let Some(e) = check_chroma(&frame.chroma, width, height) {
        return Err(e);
    }
    let dlen: usize = dst.len();
    let mut row: u32 = 0;
    while row < chroma_rows
        invariant
            row <= chroma_rows,
            chroma_rows == codec::half_up(height as int),
            stride >= width,
            dlen == dst@.len() == old(dst)@.len(),
            picture_bytes(stride as int, height as int) <= dlen,
            chroma_fault(frame.chroma, width as int, height as int) is None,
            dst@ == with_rows(
                *frame,
                old(dst)@,
                stride as int,
                width as int,
                height as int,
                height + row,
            ),
        decreases chroma_rows - row,
    {
        proof {
            lemma_buffer_row(dlen as int, stride as int, height as int, height + row);
        }
        let to: usize = ((height as u64 + row as u64) * stride as u64) as usize;
        let ghost before = dst@;
        copy_chroma_row(frame, dst, to, row, width, height);
        proof {
            lemma_row(
                *frame,
                old(dst)@,
                before,
                dst@,
                stride as int,
                width as int,
                height as int,
                height + row,
            );
        }
        row = row + 1;
    }
    Ok(need as u32)
}

/// How many bytes the region of interleaved chroma has that starts at address `start`: it runs to
/// the farther of the two planes' ends, since each plane stops short of the other's last sample.
pub fn region_len(start: usize, u: usize, u_len: usize, v: usize, v_len: usize) -> (n: usize)
    requires
        u + u_len <= usize::MAX,
        v + v_len <= usize::MAX,
    ensures
        n == codec::max_int(codec::max_int(u + u_len, v + v_len) - start, 0),
{
    let a: usize = u + u_len;
    let b: usize = v + v_len;
    let end: usize = if a < b {
        b
    } else {
        a
    };
    if end < start {
        0
    } else {
        end - start
    }
}

/// The two orders of interleaved chroma hold the same picture: a region with every pair swapped,
/// said to be of the other order, gives the same bytes, wherever whole pairs are held.
pub proof fn law_swapped_pairs_are_the_same_picture(
    a: Seq<u8>,
    b: Seq<u8>,
    cb: Chroma,
    cr: Chroma,
    row: int,
    col: int,
)
    requires
        cb matches Chroma::Interleaved { cr_first, region, .. } && !cr_first && region@ == a,
        cr matches Chroma::Interleaved { cr_first, region, .. } && cr_first && region@ == b,
        cb->row_stride == cr->row_stride,
        stride_of(cb->row_stride) % 2 == 0,
        a.len() == b.len(),
        a.len() % 2 == 0,
        forall|i: int| 0 <= i < a.len() ==> #[trigger] a[i] == b[if i % 2 == 0 {
            i + 1
        } else {
            i - 1
        }],
        0 <= row,
        0 <= col,
    ensures
        chroma_byte(cb, row, col) == chroma_byte(cr, row, col),
{
    let s = stride_of(cb->row_stride);
    let at = row * s + col;
    let t = s / 2;
    assert(0 <= row * s && row * s == 2 * (row * t)) by (nonlinear_arith)
        requires
            0 <= row,
            0 <= s,
            s == 2 * t,
    ;
    if at < a.len() {
        assert(a[at] == b[if at % 2 == 0 {
            at + 1
        } else {
            at - 1
        }]);
    }
}

/// A copied picture fits the buffer, and the bytes behind it are as they were.
pub proof fn law_copy_stays_inside(
    frame: CameraFrame,
    dst: Seq<u8>,
    stride: int,
    width: u32,
    height: u32,
    p: int,
)
    requires
        0 <= stride,
        frame_fault(frame, dst.len() as int, stride, width, height) is None,
        picture_bytes(stride, height as int) <= p < dst.len(),
    ensures
        with_rows(
            frame,
            dst,
            stride,
            width as int,
            height as int,
            height + codec::half_up(height as int),
        )[p] == dst[p],
{
    if width > 0 {
        let rows = height + codec::half_up(height as int);
        assert(rows * stride == picture_bytes(stride, height as int)) by (nonlinear_arith)
            requires
                rows == height + codec::half_up(height as int),
        ;
        assert(p / stride >= rows) by (nonlinear_arith)
            requires
                p >= rows * stride,
                stride > 0,
        ;
    }
}

/// Where a byte of the picture is in the buffer: row `row`, which of the chroma rows behind the
/// luma rows counts on, at column `col`.
proof fn lemma_place(stride: int, row: int, col: int)
    requires
        0 <= row,
        0 <= col < stride,
    ensures
        (row * stride + col) / stride == row,
        (row * stride + col) % stride == col,
        0 <= row * stride,
{
    vstd::arithmetic::div_mod::lemma_fundamental_div_mod_converse(
        row * stride + col,
        stride,
        row,
        col,
    );
    assert(0 <= row * stride) by (nonlinear_arith)
        requires
            0 <= row,
            0 < stride,
    ;
}

/// Each pixel keeps its brightness: in the copy, the luma of row `row` and column `col` is the one
/// that the frame has there.
pub proof fn law_each_pixel_keeps_its_brightness(
    frame: CameraFrame,
    dst: Seq<u8>,
    stride: int,
    width: int,
    height: int,
    row: int,
    col: int,
)
    requires
        0 <= row < height,
        0 <= col < width <= stride,
        0 <= frame.luma.row_stride,
        picture_bytes(stride, height) <= dst.len(),
    ensures
        with_rows(frame, dst, stride, width, height, height + codec::half_up(height)).len()
            == dst.len(),
        with_rows(
            frame,
            dst,
            stride,
            width,
            height,
            height + codec::half_up(height),
        )[row * stride + col] == frame.luma.bytes@[row * frame.luma.row_stride + col],
{
    lemma_place(stride, row, col);
    lemma_row_in_picture(stride, height, row);
}

proof fn lemma_row_in_picture(stride: int, height: int, row: int)
    requires
        0 < stride,
        0 <= height,
        0 <= row < height + codec::half_up(height),
    ensures
        row * stride + stride <= picture_bytes(stride, height),
{
    let h2 = codec::half_up(height);
    assert(row * stride + stride <= stride * height + stride * h2) by (nonlinear_arith)
        requires
            row + 1 <= height + h2,
            0 < stride,
    ;
}

/// Each pair of pixels keeps its colour: the chroma row `row` of the copy stands behind its luma
/// rows, and in it Cb and Cr alternate. Byte `col` of it is the camera's own sample of that very
/// row: in pairs that come Cb first the byte at the same place, in pairs that come Cr first its
/// partner, in planes the sample of its kind. What the region does not reach is neutral.
pub proof fn law_each_pixel_keeps_its_colour(
    frame: CameraFrame,
    dst: Seq<u8>,
    stride: int,
    width: int,
    height: int,
    row: int,
    col: int,
)
    requires
        0 < height,
        0 <= row && 2 * row < height,
        0 <= col < width <= stride,
        picture_bytes(stride, height) <= dst.len(),
    ensures
        ({
            let copy = with_rows(
                frame,
                dst,
                stride,
                width,
                height,
                height + codec::half_up(height),
            );
            let is = copy[(height + row) * stride + col];
            let kind = col % 2;
            let pair = col / 2;
            match frame.chroma {
                Chroma::Interleaved { cr_first, region, row_stride, .. } => row_stride >= 0 ==> {
                    let at = row * row_stride + 2 * pair;
                    &&& !cr_first && at + kind < region@.len() ==> is == region@[at + kind]
                    &&& cr_first && at + 1 < region@.len() ==> is == region@[at + 1 - kind]
                    &&& at >= region@.len() ==> is == 0x80
                    &&& !cr_first && at + kind >= region@.len() ==> is == 0x80
                    &&& cr_first && at + 1 >= region@.len() ==> is == 0x80
                },
                Chroma::Planar { u, u_stride, v, v_stride } => u_stride >= 0 && v_stride >= 0 ==> {
                    &&& kind == 0 ==> is == u@[row * u_stride + pair]
                    &&& kind == 1 ==> is == v@[row * v_stride + pair]
                },
                Chroma::Unknown => true,
            }
        }),
{
    lemma_place(stride, height + row, col);
    lemma_row_in_picture(stride, height, height + row);
    assert(col == 2 * (col / 2) + col % 2);
}

/// Pictures are told apart by their colour in every row: two frames whose chroma differs in a byte
/// that the picture shows, in whatever row, give pictures that differ in that row.
pub proof fn law_another_colour_is_another_picture(
    a: CameraFrame,
    b: CameraFrame,
    dst: Seq<u8>,
    stride: int,
    width: int,
    height: int,
    row: int,
    col: int,
)
    requires
        0 < height,
        0 <= row && 2 * row < height,
        0 <= col < width <= stride,
        picture_bytes(stride, height) <= dst.len(),
        a.chroma matches Chroma::Interleaved { cr_first, region, row_stride, .. } && !cr_first
            && row_stride >= 0 && row * row_stride + col < region@.len(),
        b.chroma matches Chroma::Interleaved { cr_first, region, row_stride, .. } && !cr_first
            && row_stride >= 0 && row * row_stride + col < region@.len(),
        a.chroma->region@[row * a.chroma->row_stride + col]
            != b.chroma->region@[row * b.chroma->row_stride + col],
    ensures
        with_rows(a, dst, stride, width, height, height + codec::half_up(height))[(height + row)
            * stride + col] != with_rows(
            b,
            dst,
            stride,
            width,
            height,
            height + codec::half_up(height),
        )[(height + row) * stride + col],
{
    law_each_pixel_keeps_its_colour(a, dst, stride, width, height, row, col);
    law_each_pixel_keeps_its_colour(b, dst, stride, width, height, row, col);
}

/// The rest of each row of the buffer is as it was.
pub proof fn law_padding_is_left_alone(
    frame: CameraFrame,
    dst: Seq<u8>,
    stride: int,
    width: int,
    height: int,
    row: int,
    col: int,
)
    requires
        0 <= row,
        width <= col < stride,
        row * stride + col < dst.len(),
        0 <= width,
    ensures
        with_rows(
            frame,
            dst,
            stride,
            width,
            height,
            height + codec::half_up(height),
        )[row * stride + col] == dst[row * stride + col],
{
    lemma_place(stride, row, col);
}

/// A frame is copied exactly where it is of the stream's size, has its three planes, and it and the
/// buffer hold the whole picture; interleaved chroma may stop short, for what it lacks is neutral.
pub proof fn law_a_whole_frame_is_copied(
    frame: CameraFrame,
    len: int,
    stride: int,
    width: u32,
    height: u32,
)
    requires
        1 <= height <= i32::MAX,
        width <= i32::MAX,
        frame.luma.row_stride >= 0,
        match frame.chroma {
            Chroma::Interleaved { row_stride, .. } => row_stride >= 0,
            Chroma::Planar { u_stride, v_stride, .. } => u_stride >= 0 && v_stride >= 0,
            Chroma::Unknown => true,
        },
    ensures
        ({
            let (w, h) = (width as int, height as int);
            let rows = codec::half_up(h);
            let cols = codec::half_up(w);
            let luma = frame.luma;
            frame_fault(frame, len, stride, width, height) is None <==> {
                &&& frame.width == width && frame.height == height && frame.planes == 3
                &&& w <= stride && stride * h + stride * rows <= len
                &&& luma.pixel_stride == 1 && w <= luma.row_stride && (h - 1) * luma.row_stride + w
                    <= luma.bytes@.len()
                &&& match frame.chroma {
                    Chroma::Interleaved { row_stride, u_len, v_len, .. } => w <= row_stride && u_len
                        > 0 && v_len > 0,
                    Chroma::Planar { u, u_stride, v, v_stride } => {
                        &&& cols <= u_stride && (rows - 1) * u_stride + cols <= u@.len()
                        &&& cols <= v_stride && (rows - 1) * v_stride + cols <= v@.len()
                    },
                    Chroma::Unknown => false,
                }
            }
        }),
{
}

/// What is wrong with a frame is told by its first fault: its size, the buffer, the planes, the
/// luma, and then the chroma.
pub proof fn law_the_first_fault_is_told(
    frame: CameraFrame,
    len: int,
    stride: int,
    width: u32,
    height: u32,
)
    requires
        height <= i32::MAX,
        width <= i32::MAX,
    ensures
        ({
            let f = frame_fault(frame, len, stride, width, height);
            let sized = frame.width == width && frame.height == height;
            let room = len >= stride * height + stride * codec::half_up(height as int);
            &&& f == Some(CopyError::Size) <==> !sized
            &&& f == Some(CopyError::Stride) <==> sized && stride < width
            &&& f == Some(CopyError::Buffer) <==> sized && stride >= width && !room
            &&& f == Some(CopyError::Planes) <==> sized && stride >= width && room && frame.planes
                != 3
            &&& f == Some(CopyError::Layout) ==> frame.chroma is Unknown
            &&& f == Some(CopyError::ChromaPlanes) ==> frame.chroma is Planar
            &&& f == Some(CopyError::EmptyPlane) || f == Some(CopyError::ChromaStride)
                ==> frame.chroma is Interleaved
        }),
{
}

/// A fault of the luma, or of the sizes, is found before anything is copied; one of the chroma only
/// once the luma was.
pub proof fn law_a_fault_of_the_chroma_is_found_late(e: CopyError)
    ensures
        e is Size || e is Stride || e is Buffer || e is Planes || e is Luma ==> !e.is_late(),
        e is ChromaStride || e is EmptyPlane || e is ChromaPlanes || e is Layout ==> e.is_late(),
{
}

} // verus!
