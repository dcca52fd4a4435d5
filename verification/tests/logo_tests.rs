use rustmpx::logo::{center_canvas, fit_logo_dims, logo_frame_bits, process_logo_to_bits};

#[test]
fn fit_dims_preserve_aspect() {
    assert_eq!(fit_logo_dims(128, 64), (64, 32));
    assert_eq!(fit_logo_dims(64, 32), (64, 32));
    assert_eq!(fit_logo_dims(2, 1), (64, 32));
    assert_eq!(fit_logo_dims(1, 1), (32, 32));
    assert_eq!(fit_logo_dims(1000, 10), (64, 1));
    assert_eq!(fit_logo_dims(10, 1000), (1, 32));
    assert_eq!(fit_logo_dims(100, 60), (53, 32));
}

#[test]
fn center_canvas_pads_with_black() {
    let grid = vec![200u8; 2 * 2];
    let canvas = center_canvas(&grid, 2, 2);
    assert_eq!(canvas.len(), 2048);
    // The 2x2 grid sits at offset (31, 15).
    for y in 0..32usize {
        for x in 0..64usize {
            let expected = if (31..33).contains(&x) && (15..17).contains(&y) { 200 } else { 0 };
            assert_eq!(canvas[y * 64 + x], expected, "x={x} y={y}");
        }
    }
}

#[test]
fn frame_header_and_threshold() {
    // A uniform canvas is never strictly above its own mean: all pixel
    // bits are zero, after the sync pattern and the magic byte 0xA7.
    let canvas = vec![7u8; 2048];
    let bits = logo_frame_bits(&canvas);
    assert_eq!(bits.len(), 2058);
    assert_eq!(&bits[0..10], &[1, 0, 1, 0, 1, 0, 0, 1, 1, 1]);
    assert!(bits[10..].iter().all(|&b| b == 0));
}

#[test]
fn frame_threshold_marks_bright_pixels() {
    let mut canvas = vec![0u8; 2048];
    canvas[100] = 255;
    canvas[2000] = 255;
    let bits = logo_frame_bits(&canvas);
    for i in 0..2048usize {
        let expected = if i == 100 || i == 2000 { 1 } else { 0 };
        assert_eq!(bits[10 + i], expected, "i={i}");
    }
}

#[test]
fn process_logo_resizes_and_binarises() {
    // A 2x1 grayscale image: black left pixel, white right pixel.  It is
    // resampled to the full 64x32 canvas, so columns far from the middle
    // land clearly on one side of the mean.
    let bits = process_logo_to_bits(vec![0u8, 255u8], 2, 1);
    assert_eq!(bits.len(), 2058);
    assert_eq!(&bits[0..10], &[1, 0, 1, 0, 1, 0, 0, 1, 1, 1]);
    for y in 0..32usize {
        assert_eq!(bits[10 + y * 64 + 5], 0, "left side, row {y}");
        assert_eq!(bits[10 + y * 64 + 60], 1, "right side, row {y}");
    }
}

#[test]
fn process_logo_centres_small_aspect() {
    // A uniform 4x4 image becomes a uniform 32x32 block centred on the
    // canvas; inside pixels lie above the mean, the border does not.
    let bits = process_logo_to_bits(vec![200u8; 16], 4, 4);
    assert_eq!(bits.len(), 2058);
    for y in 0..32usize {
        for x in 0..64usize {
            let inside = (16..48).contains(&x);
            assert_eq!(bits[10 + y * 64 + x], if inside { 1 } else { 0 }, "x={x} y={y}");
        }
    }
}
