use mc_art_adder::aspect_ratio::AspectRatio;
use mc_art_adder::crop::{compute_crop, CropError};

// --- Tests for Square (1:1) Ratio ---

#[test]
fn test_square_crop_on_wide_image() {
    // Image: 1920x1080 (16:9), Target: 1:1, Limiting Dimension: Height
    let crop_data = AspectRatio::Square.crop_data(1920, 1080);
    // Expected: Centered 1080x1080 crop
    let expected_data: [u32; 4] = [1080, 1080, 420, 0];
    assert_eq!(crop_data, expected_data);
}

#[test]
fn test_square_crop_on_tall_image() {
    // Image: 1080x1920 (9:16), Target: 1:1, Limiting Dimension: Width
    let crop_data = AspectRatio::Square.crop_data(1080, 1920);
    // Expected: Centered 1080x1080 crop
    let expected_data: [u32; 4] = [1080, 1080, 0, 420];
    assert_eq!(crop_data, expected_data);
}

#[test]
fn test_square_crop_on_square_image() {
    // Image: 1000x1000 (1:1), Target: 1:1, Limiting Dimension: Either (no crop needed)
    let crop_data = AspectRatio::Square.crop_data(1000, 1000);
    // Expected: The original image dimensions
    let expected_data: [u32; 4] = [1000, 1000, 0, 0];
    assert_eq!(crop_data, expected_data);
}

// --- Tests for LongRectangle (4:3) Ratio ---

#[test]
fn test_long_rectangle_crop_on_wide_image() {
    // Image: 1235x865 (~1.42:1), Target: 4:3 (~1.33:1), Limiting Dimension: Height
    let crop_data = AspectRatio::LongRectangle.crop_data(1235, 865);
    // Expected: Centered 1152x864 crop
    let expected_data: [u32; 4] = [1152, 864, 41, 0];
    assert_eq!(crop_data, expected_data);
}

#[test]
fn test_long_rectangle_crop_on_taller_image() {
    // Image: 900x1000 (0.9:1), Target: 4:3 (~1.33:1), Limiting Dimension: Width
    let crop_data = AspectRatio::LongRectangle.crop_data(900, 1000);
    // Expected: Centered 900x675 crop
    let expected_data: [u32; 4] = [900, 675, 0, 162];
    assert_eq!(crop_data, expected_data);
}

// --- Tests for Wide (2:1) Ratio ---

#[test]
fn test_wide_crop_on_narrower_image() {
    // Image: 1920x1080 (16:9), Target: 2:1, Limiting Dimension: Width
    let crop_data = AspectRatio::Wide.crop_data(1920, 1080);
    // Expected: Centered 1920x960 crop
    let expected_data: [u32; 4] = [1920, 960, 0, 60];
    assert_eq!(crop_data, expected_data);
}

#[test]
fn test_wide_crop_on_wider_image() {
    // Image: 3000x1000 (3:1), Target: 2:1, Limiting Dimension: Height
    let crop_data = AspectRatio::Wide.crop_data(3000, 1000);
    // Expected: Centered 2000x1000 crop
    let expected_data: [u32; 4] = [2000, 1000, 500, 0];
    assert_eq!(crop_data, expected_data);
}

// --- Tests for TallRectangle (3:4) Ratio ---

#[test]
fn test_tall_rectangle_crop_on_wider_image() {
    // Image: 1000x1000 (1:1), Target: 3:4 (0.75:1), Limiting Dimension: Height
    let crop_data = AspectRatio::TallRectangle.crop_data(1000, 1000);
    // Expected: Centered 750x1000 crop
    let expected_data: [u32; 4] = [750, 1000, 125, 0];
    assert_eq!(crop_data, expected_data);
}

// --- Tests for Tall (1:2) Ratio ---

#[test]
fn test_tall_crop_on_wider_image() {
    // Image: 1000x1000 (1:1), Target: 1:2 (0.5:1), Limiting Dimension: Height
    let crop_data = AspectRatio::Tall.crop_data(1000, 1000);
    // Expected: Centered 500x1000 crop
    let expected_data: [u32; 4] = [500, 1000, 250, 0];
    assert_eq!(crop_data, expected_data);
}

#[test]
fn test_tall_crop_on_taller_image() {
    // Image: 500x1500 (1:3), Target: 1:2 (0.5:1), Limiting Dimension: Width
    let crop_data = AspectRatio::Tall.crop_data(500, 1500);
    // Expected: Centered 500x1000 crop
    let expected_data: [u32; 4] = [500, 1000, 0, 250];
    assert_eq!(crop_data, expected_data);
}

// --- compute_crop: success, error, and invariants ---

#[test]
fn compute_crop_rejects_zero_dimensions() {
    assert_eq!(compute_crop(0, 100, 1, 1), Err(CropError::InvalidDimensions));
    assert_eq!(compute_crop(100, 0, 1, 1), Err(CropError::InvalidDimensions));
    assert_eq!(compute_crop(100, 100, 0, 1), Err(CropError::InvalidDimensions));
    assert_eq!(compute_crop(100, 100, 1, 0), Err(CropError::InvalidDimensions));
}

#[test]
fn compute_crop_matches_catalog_scenarios() {
    let cases: [(u32, u32, u32, u32, [u32; 4]); 6] = [
        (1920, 1080, 1, 1, [1080, 1080, 420, 0]),
        (1080, 1920, 1, 1, [1080, 1080, 0, 420]),
        (1235, 865, 4, 3, [1152, 864, 41, 0]),
        (3000, 1000, 2, 1, [2000, 1000, 500, 0]),
        (1000, 1000, 3, 4, [750, 1000, 125, 0]),
        (500, 1500, 1, 2, [500, 1000, 0, 250]),
    ];
    for (w, h, rw, rh, expected) in cases {
        let c = compute_crop(w, h, rw, rh).unwrap();
        assert_eq!([c.width, c.height, c.offset_x, c.offset_y], expected);
    }
}

#[test]
fn compute_crop_is_bounded_and_centered() {
    for (w, h) in [(1u32, 1u32), (7, 3), (1921, 1079), (4096, 17)] {
        for (rw, rh) in [(1u32, 1u32), (2, 1), (4, 3), (1, 2), (3, 4)] {
            let c = compute_crop(w, h, rw, rh).unwrap();
            assert!(c.width <= w && c.height <= h);
            assert!(c.offset_x + c.width <= w);
            assert!(c.offset_y + c.height <= h);
            assert_eq!(c.offset_x, (w - c.width) / 2);
            assert_eq!(c.offset_y, (h - c.height) / 2);
            // Ratio fidelity: both dimensions are the same multiple of the ratio.
            assert_eq!(c.width % rw, 0);
            assert_eq!(c.height % rh, 0);
            assert_eq!(c.width / rw, c.height / rh);
        }
    }
}

#[test]
fn compute_crop_is_deterministic() {
    let a = compute_crop(1235, 865, 4, 3).unwrap();
    let b = compute_crop(1235, 865, 4, 3).unwrap();
    assert_eq!(a, b);
}

#[test]
fn catalog_order_and_names() {
    let all = AspectRatio::all_ratios();
    let names: Vec<&str> = all.iter().map(|r| r.name()).collect();
    assert_eq!(names, vec!["square", "wide", "long_rectangle", "tall", "tall_rectangle"]);
    let ratios: Vec<(u32, u32)> = all.iter().map(|r| r.ratio()).collect();
    assert_eq!(ratios, vec![(1, 1), (2, 1), (4, 3), (1, 2), (3, 4)]);
}
