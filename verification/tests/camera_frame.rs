use droidvm::camera_frame::{copy_frame, region_len, CameraFrame, Chroma, CopyError, LumaPlane};

const LUMA: [u8; 8] = [1, 2, 3, 4, 5, 6, 7, 8];

fn frame<'a>(chroma: Chroma<'a>) -> CameraFrame<'a> {
    CameraFrame {
        width: 4,
        height: 2,
        planes: 3,
        luma: LumaPlane { bytes: &LUMA, row_stride: 4, pixel_stride: 1 },
        chroma,
    }
}

fn pairs(region: &[u8], cr_first: bool) -> Chroma<'_> {
    Chroma::Interleaved { cr_first, region, row_stride: 4, u_len: 3, v_len: 3 }
}

#[test]
fn pairs_are_copied_as_they_are() {
    let mut dst = vec![9; 18];
    assert_eq!(copy_frame(&frame(pairs(&[11, 21, 12, 22], false)), &mut dst, 6, 4, 2), Ok(18));
    assert_eq!(dst, vec![1, 2, 3, 4, 9, 9, 5, 6, 7, 8, 9, 9, 11, 21, 12, 22, 9, 9]);
}

#[test]
fn swapped_pairs_are_the_same_picture() {
    let mut a = vec![0; 12];
    let mut b = vec![0; 12];
    copy_frame(&frame(pairs(&[11, 21, 12, 22], false)), &mut a, 4, 4, 2).unwrap();
    copy_frame(&frame(pairs(&[21, 11, 22, 12], true)), &mut b, 4, 4, 2).unwrap();
    assert_eq!(a, b);
}

#[test]
fn what_the_region_does_not_hold_is_neutral() {
    let mut dst = vec![0; 12];
    copy_frame(&frame(pairs(&[11, 21, 12], false)), &mut dst, 4, 4, 2).unwrap();
    assert_eq!(dst[8..], [11, 21, 12, 0x80]);
    copy_frame(&frame(pairs(&[21, 11, 22], true)), &mut dst, 4, 4, 2).unwrap();
    assert_eq!(dst[8..], [11, 21, 0x80, 0x80]);
}

#[test]
fn planes_are_interleaved() {
    let planar = Chroma::Planar { u: &[11, 12], u_stride: 2, v: &[21, 22, 0], v_stride: 3 };
    let mut dst = vec![0; 12];
    assert_eq!(copy_frame(&frame(planar), &mut dst, 4, 4, 2), Ok(12));
    assert_eq!(dst[8..], [11, 21, 12, 22]);
}

#[test]
fn frames_that_are_not_copied() {
    let ok = || frame(pairs(&[0; 4], false));
    let mut dst = vec![0; 12];
    let mut copy = |f: &CameraFrame, len: usize, stride: u32| {
        copy_frame(f, &mut dst[..len], stride, 4, 2).err()
    };
    assert_eq!(copy(&CameraFrame { width: 5, ..ok() }, 12, 4), Some(CopyError::Size));
    assert_eq!(copy(&CameraFrame { height: 3, ..ok() }, 12, 4), Some(CopyError::Size));
    assert_eq!(copy(&ok(), 12, 3), Some(CopyError::Stride));
    assert_eq!(copy(&ok(), 11, 4), Some(CopyError::Buffer));
    assert_eq!(copy(&CameraFrame { planes: 2, ..ok() }, 12, 4), Some(CopyError::Planes));
    let luma = |bytes, row_stride, pixel_stride| LumaPlane { bytes, row_stride, pixel_stride };
    let f = CameraFrame { luma: luma(&LUMA, 4, 2), ..ok() };
    assert_eq!(copy(&f, 12, 4), Some(CopyError::Luma));
    let f = CameraFrame { luma: luma(&LUMA[..7], 4, 1), ..ok() };
    assert_eq!(copy(&f, 12, 4), Some(CopyError::Luma));
    let f = CameraFrame { luma: luma(&LUMA, -4, 1), ..ok() };
    assert_eq!(copy(&f, 12, 4), Some(CopyError::Luma));
}

#[test]
fn a_fault_in_the_chroma_is_found_behind_the_luma() {
    let interleaved = |row_stride, u_len, v_len| Chroma::Interleaved {
        cr_first: false,
        region: &[0; 4],
        row_stride,
        u_len,
        v_len,
    };
    for (chroma, error) in [
        (interleaved(3, 3, 3), CopyError::ChromaStride),
        (interleaved(4, 0, 3), CopyError::EmptyPlane),
        (interleaved(4, 3, 0), CopyError::EmptyPlane),
        (
            Chroma::Planar { u: &[0; 1], u_stride: 2, v: &[0; 2], v_stride: 2 },
            CopyError::ChromaPlanes,
        ),
        (
            Chroma::Planar { u: &[0; 2], u_stride: 2, v: &[0; 2], v_stride: 1 },
            CopyError::ChromaPlanes,
        ),
        (Chroma::Unknown, CopyError::Layout),
    ] {
        let mut dst = vec![0; 12];
        assert_eq!(copy_frame(&frame(chroma), &mut dst, 4, 4, 2), Err(error));
        assert_eq!(dst, vec![1, 2, 3, 4, 5, 6, 7, 8, 0, 0, 0, 0]);
    }
}

#[test]
fn an_odd_picture_has_a_row_of_chroma_more() {
    let f = CameraFrame {
        width: 1,
        height: 1,
        planes: 3,
        luma: LumaPlane { bytes: &[5], row_stride: 1, pixel_stride: 1 },
        chroma: Chroma::Interleaved {
            cr_first: true,
            region: &[21, 11],
            row_stride: 2,
            u_len: 1,
            v_len: 1,
        },
    };
    let mut dst = vec![0; 2];
    assert_eq!(copy_frame(&f, &mut dst, 1, 1, 1), Ok(2));
    assert_eq!(dst, vec![5, 11]);
}

#[test]
fn a_region_spans_both_planes() {
    assert_eq!(region_len(100, 100, 31, 101, 31), 32);
    assert_eq!(region_len(100, 101, 31, 100, 31), 32);
    assert_eq!(region_len(100, 10, 20, 30, 40), 0);
}
