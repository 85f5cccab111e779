use hfm_filter::detection::{BoundingBox, BoundingBoxBlackout, FrameError};
use hfm_filter::mask::{apply_mask_blackout, dilate_mask};
use hfm_filter::model::{
    blackout_segmented, first_output_name, model_input_planes, output_class_count, planar_rgb,
    segmentation_backends, segmentation_input_size, video_model_backends, video_model_input_size,
    BackendAttempt, ModelError, SessionBackend, TargetPlatform,
};

#[test]
fn test_blackout_single_box() {
    let mut data = vec![100u8; 4 * 4 * 4];
    let filter = BoundingBoxBlackout {
        boxes: vec![BoundingBox { x: 1, y: 1, w: 2, h: 2 }],
        margin: 0,
    };
    filter.filter_frame(&mut data, 4, 4).unwrap();
    for y in 0..4 {
        for x in 0..4 {
            let idx = (y * 4 + x) * 4;
            let is_inside = x >= 1 && x <= 2 && y >= 1 && y <= 2;
            let expected = if is_inside { 0 } else { 100 };
            assert_eq!(data[idx], expected);
            assert_eq!(data[idx + 1], expected);
            assert_eq!(data[idx + 2], expected);
            if is_inside {
                assert_eq!(data[idx + 3], 255);
            } else {
                assert_eq!(data[idx + 3], 100);
            }
        }
    }
}

#[test]
fn test_blackout_with_margin() {
    let mut data = vec![200u8; 4 * 4 * 4];
    let filter = BoundingBoxBlackout {
        boxes: vec![BoundingBox { x: 0, y: 0, w: 2, h: 2 }],
        margin: 1,
    };
    filter.filter_frame(&mut data, 4, 4).unwrap();
    for y in 0..4 {
        for x in 0..4 {
            let idx = (y * 4 + x) * 4;
            let is_inside = x < 3 && y < 3;
            let expected = if is_inside { 0 } else { 200 };
            assert_eq!(data[idx], expected);
        }
    }
}

#[test]
fn blackout_refuses_wrong_size_and_leaves_frame() {
    let mut data = vec![7u8; 10];
    let filter = BoundingBoxBlackout { boxes: vec![BoundingBox { x: 0, y: 0, w: 1, h: 1 }], margin: 0 };
    assert_eq!(
        filter.filter_frame(&mut data, 2, 2),
        Err(FrameError::SizeMismatch { expected: 16, actual: 10 })
    );
    assert_eq!(data, vec![7u8; 10]);
}

#[test]
fn blackout_size_check_comes_before_the_boxes() {
    let mut data = vec![3u8; 8];
    let filter = BoundingBoxBlackout { boxes: vec![BoundingBox { x: u32::MAX, y: 0, w: 1, h: 1 }], margin: 5 };
    assert_eq!(
        filter.filter_frame(&mut data, 100, 100),
        Err(FrameError::SizeMismatch { expected: 40000, actual: 8 })
    );
    assert_eq!(data, vec![3u8; 8]);
    let empty = BoundingBoxBlackout { boxes: vec![], margin: 0 };
    let mut frame = vec![1u8; 4];
    assert_eq!(empty.filter_frame(&mut frame, 1, 1), Ok(()));
    assert_eq!(frame, vec![1u8; 4]);
}

#[test]
fn blackout_reads_edges_and_margin_as_i32() {
    // A box at x = 2^31 lies at a negative i32 column: nothing is drawn.
    let far = BoundingBoxBlackout { boxes: vec![BoundingBox { x: 1 << 31, y: 0, w: 2, h: 2 }], margin: 0 };
    let mut data = vec![9u8; 4 * 4 * 4];
    assert_eq!(far.filter_frame(&mut data, 4, 4), Ok(()));
    assert_eq!(data, vec![9u8; 64]);
    // A margin of u32::MAX reads as -1: the box shrinks by one pixel a side.
    let shrink = BoundingBoxBlackout { boxes: vec![BoundingBox { x: 0, y: 0, w: 4, h: 4 }], margin: u32::MAX };
    let mut data = vec![9u8; 4 * 4 * 4];
    shrink.filter_frame(&mut data, 4, 4).unwrap();
    for y in 0..4 {
        for x in 0..4 {
            let inside = (1..3).contains(&x) && (1..3).contains(&y);
            assert_eq!(data[(y * 4 + x) * 4], if inside { 0 } else { 9 });
        }
    }
}

#[test]
fn blackout_twice_equals_once() {
    let filter = BoundingBoxBlackout {
        boxes: vec![BoundingBox { x: 2, y: 0, w: 3, h: 1 }, BoundingBox { x: 0, y: 3, w: 1, h: 9 }],
        margin: 1,
    };
    let mut data: Vec<u8> = (0..(5 * 5 * 4) as u32).map(|v| (v % 251) as u8).collect();
    filter.filter_frame(&mut data, 5, 5).unwrap();
    let once = data.clone();
    filter.filter_frame(&mut data, 5, 5).unwrap();
    assert_eq!(data, once);
}

#[test]
fn blackout_box_outside_frame_changes_nothing() {
    let filter = BoundingBoxBlackout { boxes: vec![BoundingBox { x: 10, y: 10, w: 2, h: 2 }], margin: 0 };
    let mut data = vec![9u8; 3 * 3 * 4];
    filter.filter_frame(&mut data, 3, 3).unwrap();
    assert_eq!(data, vec![9u8; 36]);
}

#[test]
fn dilation_grows_a_point_to_a_square() {
    let mut mask = vec![0u8; 25];
    mask[12] = 1;
    let out = dilate_mask(&mask, 5, 5, 3, 1);
    for y in 0..5 {
        for x in 0..5 {
            let expected = if (1..=3).contains(&x) && (1..=3).contains(&y) { 1 } else { 0 };
            assert_eq!(out[y * 5 + x], expected, "cell ({x}, {y})");
        }
    }
    let twice = dilate_mask(&mask, 5, 5, 3, 2);
    assert_eq!(twice, vec![1u8; 25]);
}

#[test]
fn dilation_edge_cases() {
    assert!(dilate_mask(&[], 0, 0, 3, 1).is_empty());
    let mask = vec![0u8, 1, 0, 0];
    assert_eq!(dilate_mask(&mask, 2, 2, 3, 0), mask);
    // Kernel size 1 keeps the mask.
    assert_eq!(dilate_mask(&mask, 2, 2, 1, 4), mask);
}

#[test]
fn mask_blackout_blacks_set_cells() {
    let mut rgba = vec![50u8; 2 * 1 * 4];
    apply_mask_blackout(&mut rgba, &[1, 0], 2, 1);
    assert_eq!(rgba, vec![0, 0, 0, 255, 50, 50, 50, 50]);
}

#[test]
fn segmented_blackout_with_and_without_dilation() {
    let mut rgba = vec![80u8; 3 * 1 * 4];
    blackout_segmented(&mut rgba, &[0, 1, 0], 3, 1, 3, 0).unwrap();
    assert_eq!(rgba, vec![80, 80, 80, 80, 0, 0, 0, 255, 80, 80, 80, 80]);
    let mut rgba = vec![80u8; 3 * 1 * 4];
    blackout_segmented(&mut rgba, &[0, 1, 0], 3, 1, 3, 1).unwrap();
    assert_eq!(rgba, vec![0, 0, 0, 255, 0, 0, 0, 255, 0, 0, 0, 255]);
    let mut short = vec![1u8; 5];
    assert_eq!(blackout_segmented(&mut short, &[0, 1, 0], 3, 1, 3, 1), Err(ModelError::BufferSizeMismatch));
    assert_eq!(short, vec![1u8; 5]);
}

#[test]
fn backend_plans() {
    let a = |backend, cpu_fallback_disabled| BackendAttempt { backend, cpu_fallback_disabled };
    assert_eq!(
        video_model_backends(TargetPlatform::Windows),
        vec![a(SessionBackend::OpenVinoGpu, false), a(SessionBackend::DirectMl, false), a(SessionBackend::Cpu, false)]
    );
    assert_eq!(video_model_backends(TargetPlatform::Other), vec![a(SessionBackend::Cpu, false)]);
    assert_eq!(
        segmentation_backends(TargetPlatform::Windows),
        vec![a(SessionBackend::OpenVinoGpu, true), a(SessionBackend::DirectMl, true)]
    );
    assert_eq!(
        segmentation_backends(TargetPlatform::Apple),
        vec![a(SessionBackend::CoreMl, false), a(SessionBackend::Cpu, false)]
    );
}

#[test]
fn model_shapes() {
    assert_eq!(video_model_input_size(&vec![1, 3, 224, 320]), Ok((224, 320)));
    assert_eq!(video_model_input_size(&vec![1, 4, 224, 320]), Err(ModelError::UnexpectedInputShape));
    assert_eq!(segmentation_input_size(&vec![1, 3, 256, 144]), Ok((256, 144)));
    assert_eq!(segmentation_input_size(&vec![1, 3, 256]), Err(ModelError::NotRank4));
    assert_eq!(segmentation_input_size(&vec![2, 3, 256, 144]), Err(ModelError::BatchNotOne));
    assert_eq!(segmentation_input_size(&vec![1, 1, 256, 144]), Err(ModelError::ChannelsNotThree));
    assert_eq!(output_class_count(&vec![1, 5, 8, 8]), 5);
    assert_eq!(output_class_count(&vec![1, 5]), 2);
    assert_eq!(first_output_name(&vec![]), Err(ModelError::NoOutputs));
    assert_eq!(first_output_name(&vec!["out".to_string(), "aux".to_string()]), Ok("out".to_string()));
}

#[test]
fn planes_split_channels() {
    let rgba = vec![1, 2, 3, 4, 5, 6, 7, 8];
    assert_eq!(planar_rgb(&rgba, 2, 1), vec![1, 5, 2, 6, 3, 7]);
}

#[test]
fn model_input_resizes_then_splits() {
    // A uniform image stays uniform under any resize.
    let rgba = vec![10u8, 20, 30, 255].repeat(4 * 4);
    let planes = model_input_planes(&rgba, 4, 4, 2, 2).unwrap();
    assert_eq!(planes, vec![10, 10, 10, 10, 20, 20, 20, 20, 30, 30, 30, 30]);
    // A buffer too short for its size is refused by the resizer.
    assert_eq!(model_input_planes(&rgba[..8], 4, 4, 2, 2), None);
    // A frame without area is still accepted: the planes stay zero.
    assert_eq!(model_input_planes(&[], 0, 0, 1, 1), Some(vec![0, 0, 0]));
    // A longer buffer than needed is accepted.
    let mut longer = rgba.clone();
    longer.extend_from_slice(&[1, 2, 3, 4]);
    assert!(model_input_planes(&longer, 4, 4, 3, 1).is_some());
}
