use comparador::metrics::{window_moments, Factors, Moments, MultiScaleSSIM, Ratio, MAE, MSE, SSIM};
use comparador::raster::{Image, PixelFormat};

fn luma8(width: u32, height: u32, samples: Vec<u16>) -> Image {
    Image::new(width, height, PixelFormat::Luma8, samples).unwrap()
}

#[test]
fn mae_of_equal_images_is_zero() {
    let a = luma8(2, 2, vec![1, 2, 3, 4]);
    let b = luma8(2, 2, vec![1, 2, 3, 4]);
    assert_eq!(MAE::compare(&a, &b), Ratio { numerator: 0, denominator: 4 * 255 });
    assert_eq!(MSE::compare(&a, &b), Ratio { numerator: 0, denominator: 4 * 65025 });
}

#[test]
fn mae_sums_the_differences_of_the_samples() {
    let a = luma8(2, 2, vec![10, 20, 30, 40]);
    let b = luma8(2, 2, vec![13, 20, 25, 40]);
    assert_eq!(MAE::compare(&a, &b), Ratio { numerator: 3 + 5, denominator: 4 * 255 });
    assert_eq!(MAE::compare(&b, &a), Ratio { numerator: 3 + 5, denominator: 4 * 255 });
}

#[test]
fn mse_sums_the_squares_of_the_differences() {
    let a = luma8(2, 2, vec![10, 20, 30, 40]);
    let b = luma8(2, 2, vec![13, 20, 25, 40]);
    assert_eq!(MSE::compare(&a, &b), Ratio { numerator: 9 + 25, denominator: 4 * 65025 });
    assert_eq!(MSE::compare(&b, &a), MSE::compare(&a, &b));
}

#[test]
fn mae_of_colour_images_counts_every_channel() {
    let a = Image::new(1, 2, PixelFormat::Rgb8, vec![0, 0, 0, 255, 255, 255]).unwrap();
    let b = Image::new(1, 2, PixelFormat::Rgb8, vec![255, 0, 1, 255, 250, 255]).unwrap();
    assert_eq!(MAE::compare(&a, &b), Ratio { numerator: 261, denominator: 6 * 255 });
    assert_eq!(MSE::compare(&a, &b), Ratio { numerator: 65025 + 1 + 25, denominator: 6 * 65025 });
}

#[test]
fn mae_of_black_against_white_is_one() {
    let black = Image::new(1, 1, PixelFormat::Rgb8, vec![0, 0, 0]).unwrap();
    let white = Image::new(1, 1, PixelFormat::Rgb8, vec![255, 255, 255]).unwrap();
    let mae = MAE::compare(&black, &white);
    assert_eq!(mae, Ratio { numerator: 765, denominator: 765 });
    assert_eq!(mae.numerator as f64 / mae.denominator as f64, 1.0);
    let mse = MSE::compare(&black, &white);
    assert_eq!(mse.numerator, mse.denominator);
}

#[test]
fn mse_of_a_fifth_is_a_twenty_fifth() {
    let a = luma8(1, 1, vec![0]);
    let b = luma8(1, 1, vec![51]);
    let mse = MSE::compare(&a, &b);
    assert_eq!(mse, Ratio { numerator: 2601, denominator: 65025 });
    assert!((mse.numerator as f64 / mse.denominator as f64 - 0.04).abs() < 1e-12);
    let mae = MAE::compare(&a, &b);
    assert_eq!(mae, Ratio { numerator: 51, denominator: 255 });
    assert!((mae.numerator as f64 / mae.denominator as f64 - 0.2).abs() < 1e-12);
}

#[test]
fn mae_of_sixteen_bit_images_is_taken_of_their_own_limit() {
    let a = Image::new(2, 1, PixelFormat::Luma16, vec![0, 1000]).unwrap();
    let b = Image::new(2, 1, PixelFormat::Luma16, vec![65535, 1000]).unwrap();
    assert_eq!(MAE::compare(&a, &b), Ratio { numerator: 65535, denominator: 2 * 65535 });
    assert_eq!(
        MSE::compare(&a, &b),
        Ratio { numerator: 65535 * 65535, denominator: 2 * 65535 * 65535 }
    );
}

#[test]
fn mse_is_at_most_mae_and_mae_at_most_one() {
    let a = Image::new(2, 2, PixelFormat::Rgb8, vec![0, 9, 200, 255, 3, 77, 1, 1, 1, 250, 0, 128]).unwrap();
    let b = Image::new(2, 2, PixelFormat::Rgb8, vec![255, 9, 100, 0, 30, 70, 2, 0, 1, 0, 250, 127]).unwrap();
    let mae = MAE::compare(&a, &b);
    let mse = MSE::compare(&a, &b);
    assert!(mae.numerator <= mae.denominator);
    assert!(mse.numerator <= mse.denominator);
    // Compared across: the quotient of the squares is not above that of the
    // absolute differences.
    assert!(mse.numerator * mae.denominator <= mae.numerator * mse.denominator);
}

#[test]
fn mae_is_zero_only_for_equal_images() {
    let a = luma8(3, 1, vec![5, 6, 7]);
    let b = luma8(3, 1, vec![5, 6, 8]);
    assert_ne!(MAE::compare(&a, &b).numerator, 0);
    assert_ne!(MSE::compare(&a, &b).numerator, 0);
    assert_eq!(MAE::compare(&a, &a).numerator, 0);
    assert_eq!(MSE::compare(&b, &b).numerator, 0);
}

#[test]
fn metrics_of_empty_images_have_no_value() {
    let a = luma8(0, 0, Vec::new());
    assert_eq!(MAE::compare(&a, &a), Ratio { numerator: 0, denominator: 0 });
    assert_eq!(SSIM::compare(&a, &a).count, 0);
    assert!(MultiScaleSSIM::compare(&a, &a).is_empty());
}

#[test]
fn window_moments_sums_over_the_window() {
    // Two images four wide and three tall.
    let a: Vec<u16> = (1..=12).collect();
    let b: Vec<u16> = (1..=12).map(|v| 2 * v).collect();
    let whole = window_moments(&a, &b, 4, 3, 0, 0, 4, 3);
    assert_eq!(
        whole,
        Moments { count: 12, sum_x: 78, sum_y: 156, sum_xx: 650, sum_yy: 2600, sum_xy: 1300 }
    );
    // The window of columns 1 and 2, rows 1 and 2: 6, 7, 10, 11.
    let part = window_moments(&a, &b, 4, 3, 1, 1, 2, 2);
    assert_eq!(
        part,
        Moments { count: 4, sum_x: 34, sum_y: 68, sum_xx: 306, sum_yy: 1224, sum_xy: 612 }
    );
    let none = window_moments(&a, &b, 4, 3, 4, 3, 0, 0);
    assert_eq!(none, Moments { count: 0, sum_x: 0, sum_y: 0, sum_xx: 0, sum_yy: 0, sum_xy: 0 });
}

#[test]
fn window_moments_holds_the_largest_samples() {
    let a = vec![65535u16; 64];
    let m = window_moments(&a, &a, 8, 8, 0, 0, 8, 8);
    assert_eq!(m.sum_x, 64 * 65535);
    assert_eq!(m.sum_xy, 64 * 65535 * 65535);
}

fn similarity(m: &Moments) -> (i128, i128) {
    let n = m.count as i128;
    let (sx, sy) = (m.sum_x as i128, m.sum_y as i128);
    let (sxx, syy, sxy) = (m.sum_xx as i128, m.sum_yy as i128, m.sum_xy as i128);
    let peak = 65535i128 * 65535 * n * n;
    let above = (20000 * sx * sy + peak) * (20000 * (n * sxy - sx * sy) + 9 * peak);
    let below = (10000 * (sx * sx + sy * sy) + peak) * (10000 * (n * sxx - sx * sx + n * syy - sy * sy) + 9 * peak);
    (above, below)
}

#[test]
fn ssim_of_an_image_against_itself_is_one() {
    let a = Image::new(3, 2, PixelFormat::Luma16, vec![1, 500, 20, 7, 300, 65]).unwrap();
    let m = SSIM::compare(&a, &a);
    assert_eq!(m.count, 6);
    assert_eq!(m.sum_x, 893);
    assert_eq!(m.sum_x, m.sum_y);
    assert_eq!(m.sum_xx, m.sum_xy);
    assert_eq!(m.sum_yy, m.sum_xy);
    let (above, below) = similarity(&m);
    assert_eq!(above, below);
    assert!(below > 0);
}

#[test]
fn ssim_reads_the_luma_of_colour_images() {
    // Grey pixels of an 8-bit image have sixteen-bit luma 257 times their level.
    let a = Image::new(2, 1, PixelFormat::Rgb8, vec![1, 1, 1, 2, 2, 2]).unwrap();
    let b = Image::new(2, 1, PixelFormat::Rgb8, vec![3, 3, 3, 0, 0, 0]).unwrap();
    let m = SSIM::compare(&a, &b);
    assert_eq!(
        m,
        Moments {
            count: 2,
            sum_x: 3 * 257,
            sum_y: 3 * 257,
            sum_xx: 5 * 257 * 257,
            sum_yy: 9 * 257 * 257,
            sum_xy: 3 * 257 * 257,
        }
    );
    let (above, below) = similarity(&m);
    assert!(above < below);
}

#[test]
fn tiled_ssim_cuts_the_image_into_tiles_of_eight() {
    let a = Image::new(17, 9, PixelFormat::Luma16, vec![2; 17 * 9]).unwrap();
    let b = Image::new(17, 9, PixelFormat::Luma16, vec![3; 17 * 9]).unwrap();
    let tiles = MultiScaleSSIM::compare(&a, &b);
    let counts: Vec<usize> = tiles.iter().map(|m| m.count).collect();
    assert_eq!(counts, vec![64, 64, 8, 8, 8, 1]);
    assert_eq!(tiles[2], Moments { count: 8, sum_x: 16, sum_y: 24, sum_xx: 32, sum_yy: 72, sum_xy: 48 });
}

#[test]
fn tiled_ssim_places_each_tile() {
    // Nine wide, two tall: the sample of column 8 stands alone in the second tile.
    let mut samples = vec![1u16; 18];
    samples[8] = 100;
    samples[17] = 200;
    let a = Image::new(9, 2, PixelFormat::Luma16, samples).unwrap();
    let tiles = MultiScaleSSIM::compare(&a, &a);
    assert_eq!(tiles.len(), 2);
    assert_eq!(tiles[0].count, 16);
    assert_eq!(tiles[0].sum_x, 16);
    assert_eq!(tiles[1].count, 2);
    assert_eq!(tiles[1].sum_x, 300);
    assert_eq!(tiles[1].sum_xx, 50000);
}

#[test]
fn tiled_ssim_of_one_tile_is_the_whole_image() {
    let a = Image::new(8, 8, PixelFormat::Luma16, (0..64).collect()).unwrap();
    let b = Image::new(8, 8, PixelFormat::Luma16, (0..64).rev().collect()).unwrap();
    assert_eq!(MultiScaleSSIM::compare(&a, &b), vec![SSIM::compare(&a, &b)]);
}

#[test]
fn factors_of_the_similarity() {
    // The samples 1, 2 against 2, 3.
    let m = Moments { count: 2, sum_x: 3, sum_y: 5, sum_xx: 5, sum_yy: 13, sum_xy: 8 };
    assert_eq!(
        m.factors(),
        Some(Factors {
            luminance_above: 17_179_644_900,
            luminance_below: 17_179_684_900,
            structure_above: 154_614_124_100,
            structure_below: 154_614_124_100,
        })
    );
}

#[test]
fn factors_agree_with_the_sums_of_a_window() {
    let a: Vec<u16> = (1..=12).collect();
    let b: Vec<u16> = (1..=12).map(|v| 2 * v).collect();
    let m = window_moments(&a, &b, 4, 3, 0, 0, 4, 3);
    let f = m.factors().unwrap();
    let (above, below) = similarity(&m);
    assert_eq!(f.luminance_above * f.structure_above, above);
    assert_eq!(f.luminance_below * f.structure_below, below);
    assert!(f.luminance_below > 0 && f.structure_below > 0);
}

#[test]
fn factors_may_be_negative_above() {
    // The samples 0, 65535 against 65535, 0: as far from each other as can be.
    let m = Moments {
        count: 2,
        sum_x: 65535,
        sum_y: 65535,
        sum_xx: 4_294_836_225,
        sum_yy: 4_294_836_225,
        sum_xy: 0,
    };
    let f = m.factors().unwrap();
    assert_eq!(f.structure_above, 4_294_836_225 * (36 - 20000));
    assert_eq!(f.structure_below, 4_294_836_225 * (36 + 20000));
    assert_eq!(f.luminance_above, f.luminance_below);
}

#[test]
fn factors_of_sums_out_of_bounds_are_nothing() {
    let m = Moments { count: 1, sum_x: 65536, sum_y: 0, sum_xx: 0, sum_yy: 0, sum_xy: 0 };
    assert_eq!(m.factors(), None);
    let m = Moments { count: 1, sum_x: 0, sum_y: 0, sum_xx: 0, sum_yy: 0, sum_xy: 1u128 << 33 };
    assert_eq!(m.factors(), None);
    let m = Moments { count: (1usize << 32) + 1, sum_x: 0, sum_y: 0, sum_xx: 0, sum_yy: 0, sum_xy: 0 };
    assert_eq!(m.factors(), None);
    let m = Moments { count: 1usize << 32, sum_x: 0, sum_y: 0, sum_xx: 0, sum_yy: 0, sum_xy: 0 };
    assert!(m.factors().is_some());
    let m = Moments { count: 0, sum_x: 0, sum_y: 0, sum_xx: 0, sum_yy: 0, sum_xy: 0 };
    assert_eq!(
        m.factors(),
        Some(Factors { luminance_above: 0, luminance_below: 0, structure_above: 0, structure_below: 0 })
    );
}

#[test]
fn factors_of_every_tile_exist() {
    let a = Image::new(17, 9, PixelFormat::Luma16, vec![65535; 17 * 9]).unwrap();
    let b = Image::new(17, 9, PixelFormat::Luma16, vec![0; 17 * 9]).unwrap();
    for m in MultiScaleSSIM::compare(&a, &b) {
        let f = m.factors().unwrap();
        assert!(f.luminance_below > 0 && f.structure_below > 0);
    }
    assert!(SSIM::compare(&a, &b).factors().is_some());
}
