use r_slam::backprojection::{
    backprojected_pixels, check_transform, BackprojectionConfig, BackprojectionError, DepthMap,
    TransformStorage,
};
use r_slam::layout::{ElementKind, Layout};
use r_slam::sampling::{sample_pixels, Pixel};

/// Order key of a depth: integers that compare as the finite floats do.
fn key(x: f32) -> Option<i32> {
    if !x.is_finite() {
        return None;
    }
    let b = x.to_bits() as i32;
    Some(if b < 0 { -(b & 0x7fff_ffff) } else { b })
}

fn bound(x: f32) -> i32 {
    key(x).unwrap()
}

fn depth_map(rows: i32, cols: i32, values: &[f32]) -> DepthMap {
    DepthMap {
        layout: Layout { rows, cols, channels: 1, element: ElementKind::Float32 },
        readings: values.iter().map(|v| key(*v)).collect(),
    }
}

fn px(v: usize, u: usize) -> Pixel {
    Pixel { v, u }
}

#[test]
fn test_backprojection_basic() {
    let depth = depth_map(2, 2, &[1.0, 2.0, 3.0, 4.0]);
    let cfg = BackprojectionConfig::new(bound(0.0));
    let cloud = backprojected_pixels(&depth, Some(cfg)).unwrap();
    assert_eq!(cloud.len(), 4);
    assert_eq!(cloud, vec![px(0, 0), px(0, 1), px(1, 0), px(1, 1)]);
}

#[test]
fn test_backprojection_min_max_and_stride() {
    let vals = [0.0f32, 0.6, 5.0, 1.0, 2.0, 3.0, f32::NAN, 10.0, 0.4];
    let depth = depth_map(3, 3, &vals);
    let cfg = BackprojectionConfig::new(bound(0.5)).with_depth_max(bound(5.0)).with_stride(2);
    let cloud = backprojected_pixels(&depth, Some(cfg)).unwrap();
    assert_eq!(cloud.len(), 1);
    assert_eq!(cloud[0], px(0, 2));
}

#[test]
fn test_invalid_type_rejected() {
    let depth = DepthMap {
        layout: Layout { rows: 2, cols: 2, channels: 1, element: ElementKind::Unsigned8 },
        readings: Vec::new(),
    };
    let err = backprojected_pixels(&depth, None).unwrap_err();
    assert_eq!(err, BackprojectionError::WrongFormat);
}

#[test]
fn test_transform_point_cloud_identity_and_translation() {
    let t32 = Layout { rows: 4, cols: 4, channels: 1, element: ElementKind::Float32 };
    assert_eq!(check_transform(&t32), Ok(TransformStorage::Float32));
    let t64 = Layout { rows: 4, cols: 4, channels: 1, element: ElementKind::Float64 };
    assert_eq!(check_transform(&t64), Ok(TransformStorage::Float64));
}

#[test]
fn transform_of_wrong_shape_or_type_is_invalid_input() {
    let l = Layout { rows: 3, cols: 4, channels: 1, element: ElementKind::Float32 };
    assert_eq!(check_transform(&l), Err(BackprojectionError::InvalidInput));
    let l = Layout { rows: 4, cols: 3, channels: 1, element: ElementKind::Float64 };
    assert_eq!(check_transform(&l), Err(BackprojectionError::InvalidInput));
    let l = Layout { rows: 4, cols: 4, channels: 1, element: ElementKind::Signed32 };
    assert_eq!(check_transform(&l), Err(BackprojectionError::InvalidInput));
    let l = Layout { rows: 4, cols: 4, channels: 2, element: ElementKind::Float32 };
    assert_eq!(check_transform(&l), Err(BackprojectionError::InvalidInput));
}

#[test]
fn empty_depth_map_is_refused() {
    let depth = depth_map(0, 3, &[]);
    assert_eq!(backprojected_pixels(&depth, None), Err(BackprojectionError::EmptyInput));
    let depth = depth_map(3, 0, &[]);
    assert_eq!(backprojected_pixels(&depth, None), Err(BackprojectionError::EmptyInput));
}

#[test]
fn empty_check_comes_before_format_check() {
    let depth = DepthMap {
        layout: Layout { rows: 0, cols: 0, channels: 3, element: ElementKind::Unsigned8 },
        readings: Vec::new(),
    };
    assert_eq!(backprojected_pixels(&depth, None), Err(BackprojectionError::EmptyInput));
}

#[test]
fn multi_channel_depth_map_is_wrong_format() {
    let depth = DepthMap {
        layout: Layout { rows: 1, cols: 1, channels: 3, element: ElementKind::Float32 },
        readings: vec![Some(1)],
    };
    assert_eq!(backprojected_pixels(&depth, None), Err(BackprojectionError::WrongFormat));
}

#[test]
fn negative_dimensions_are_refused() {
    let depth = depth_map(-2, 2, &[1.0, 1.0, 1.0, 1.0]);
    assert_eq!(backprojected_pixels(&depth, None), Err(BackprojectionError::InvalidDimensions));
    let depth = depth_map(2, -2, &[1.0, 1.0, 1.0, 1.0]);
    assert_eq!(backprojected_pixels(&depth, None), Err(BackprojectionError::InvalidDimensions));
}

#[test]
fn readings_that_do_not_fill_the_grid_are_refused() {
    let depth = depth_map(2, 2, &[1.0, 1.0, 1.0]);
    assert_eq!(backprojected_pixels(&depth, None), Err(BackprojectionError::InvalidDimensions));
}

#[test]
fn default_config_keeps_positive_depths_at_every_pixel() {
    let depth = depth_map(2, 3, &[0.0, -1.0, 0.25, f32::INFINITY, 7.0, f32::NEG_INFINITY]);
    let cloud = backprojected_pixels(&depth, None).unwrap();
    assert_eq!(cloud, vec![px(0, 2), px(1, 1)]);
}

#[test]
fn single_valid_pixel_gives_single_point() {
    let mut vals = vec![f32::NAN; 12];
    vals[1 * 4 + 2] = 2.5;
    let depth = depth_map(3, 4, &vals);
    let cfg = BackprojectionConfig::new(bound(1.0)).with_depth_max(bound(3.0));
    assert_eq!(backprojected_pixels(&depth, Some(cfg)).unwrap(), vec![px(1, 2)]);
}

#[test]
fn rejected_readings_are_absent() {
    // NaN, at the lower bound, above the upper bound, and three kept readings.
    let vals = [f32::NAN, 0.5, 5.5, 0.75, 5.0, 1.0];
    let depth = depth_map(2, 3, &vals);
    let cfg = BackprojectionConfig::new(bound(0.5)).with_depth_max(bound(5.0));
    let cloud = backprojected_pixels(&depth, Some(cfg)).unwrap();
    assert_eq!(cloud, vec![px(1, 0), px(1, 1), px(1, 2)]);
}

#[test]
fn stride_visits_ceiling_counts() {
    let s = sample_pixels(5, 7, 3);
    assert_eq!(s.len(), 2 * 3);
    assert_eq!(s, vec![px(0, 0), px(0, 3), px(0, 6), px(3, 0), px(3, 3), px(3, 6)]);
    assert_eq!(sample_pixels(6, 6, 3).len(), 4);
    assert_eq!(sample_pixels(1, 1, 10), vec![px(0, 0)]);
    assert_eq!(sample_pixels(0, 4, 2).len(), 0);
}

#[test]
fn stride_below_one_is_taken_as_one() {
    assert_eq!(sample_pixels(2, 2, 0), vec![px(0, 0), px(0, 1), px(1, 0), px(1, 1)]);
    let cfg = BackprojectionConfig::new(0).with_stride(0);
    assert_eq!(cfg.stride, 1);
    let cfg = BackprojectionConfig::new(0).with_stride(4);
    assert_eq!(cfg.stride, 4);
}

#[test]
fn config_builders_set_their_fields() {
    let cfg = BackprojectionConfig::new(7);
    assert_eq!(cfg, BackprojectionConfig { depth_min: 7, depth_max: None, stride: 1 });
    let cfg = cfg.with_depth_max(9).with_stride(3);
    assert_eq!(cfg, BackprojectionConfig { depth_min: 7, depth_max: Some(9), stride: 3 });
}

#[test]
fn stride_in_config_samples_the_depth_map() {
    let vals: Vec<f32> = (1..=20).map(|i| i as f32).collect();
    let depth = depth_map(4, 5, &vals);
    let cfg = BackprojectionConfig::new(bound(0.0)).with_stride(2);
    let cloud = backprojected_pixels(&depth, Some(cfg)).unwrap();
    assert_eq!(cloud, vec![px(0, 0), px(0, 2), px(0, 4), px(2, 0), px(2, 2), px(2, 4)]);
}
