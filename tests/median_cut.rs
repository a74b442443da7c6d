use roloc::median_cutoff::{average_color_from_group, color_min_max, split_pixels_at_median};
use roloc::{check_input, median_cut, HexColor, PaletteError};

fn c(r: u8, g: u8, b: u8) -> HexColor {
    HexColor { r, g, b }
}

#[test]
fn median_cut_returns_k_colors() {
    let pixels = vec![c(1, 2, 3), c(200, 10, 40), c(30, 90, 250), c(7, 7, 7), c(128, 64, 32)];
    for k in 1..12 {
        let palette = median_cut(&pixels, k).unwrap();
        assert_eq!(palette.len(), k);
    }
}

#[test]
fn median_cut_empty_input_fails() {
    let empty: Vec<HexColor> = vec![];
    assert_eq!(median_cut(&empty, 3), Err(PaletteError::EmptyInput));
    assert_eq!(median_cut(&empty, 0), Err(PaletteError::EmptyInput));
}

#[test]
fn median_cut_zero_clusters_fails() {
    let pixels = vec![c(1, 2, 3)];
    assert_eq!(median_cut(&pixels, 0), Err(PaletteError::InvalidClusterCount));
}

#[test]
fn check_input_reports_each_error() {
    assert_eq!(check_input(0, 4), Err(PaletteError::EmptyInput));
    assert_eq!(check_input(0, 0), Err(PaletteError::EmptyInput));
    assert_eq!(check_input(5, 0), Err(PaletteError::InvalidClusterCount));
    assert_eq!(check_input(5, 9), Ok(()));
}

#[test]
fn median_cut_is_deterministic() {
    let pixels = vec![c(9, 8, 7), c(250, 1, 3), c(40, 40, 40), c(90, 200, 10), c(3, 3, 3)];
    assert_eq!(median_cut(&pixels, 4), median_cut(&pixels, 4));
}

#[test]
fn median_cut_one_cluster_is_truncating_average() {
    let pixels = vec![c(1, 2, 3), c(2, 4, 6)];
    assert_eq!(median_cut(&pixels, 1).unwrap(), vec![c(1, 3, 4)]);
    let pixels = vec![c(0, 0, 0), c(1, 1, 1)];
    assert_eq!(median_cut(&pixels, 1).unwrap(), vec![c(0, 0, 0)]);
}

#[test]
fn median_cut_black_and_white() {
    let pixels = vec![c(0, 0, 0), c(0, 0, 0), c(255, 255, 255), c(255, 255, 255)];
    assert_eq!(median_cut(&pixels, 2).unwrap(), vec![c(0, 0, 0), c(255, 255, 255)]);
}

#[test]
fn median_cut_splits_front_group_first() {
    let pixels = vec![c(0, 0, 0), c(0, 0, 0), c(255, 255, 255), c(255, 255, 255)];
    assert_eq!(
        median_cut(&pixels, 3).unwrap(),
        vec![c(255, 255, 255), c(0, 0, 0), c(0, 0, 0)]
    );
}

#[test]
fn median_cut_single_pixel() {
    let pixels = vec![c(10, 20, 30)];
    assert_eq!(median_cut(&pixels, 1).unwrap(), vec![c(10, 20, 30)]);
}

#[test]
fn median_cut_more_clusters_than_pixels() {
    let pixels = vec![c(10, 20, 30)];
    assert_eq!(
        median_cut(&pixels, 3).unwrap(),
        vec![c(10, 20, 30), c(0, 0, 0), c(0, 0, 0)]
    );
}

#[test]
fn median_cut_sorts_by_red_even_when_green_varies_more() {
    let pixels = vec![c(5, 0, 0), c(1, 200, 0), c(3, 100, 0), c(2, 50, 0)];
    assert_eq!(median_cut(&pixels, 2).unwrap(), vec![c(1, 125, 0), c(4, 50, 0)]);
}

#[test]
fn min_max_reads_red_channel_only() {
    let pixels = vec![c(5, 0, 9), c(1, 200, 0), c(3, 100, 255)];
    let [min, max] = color_min_max(&pixels);
    assert_eq!(min, c(1, 1, 1));
    assert_eq!(max, c(5, 5, 5));
}

#[test]
fn min_max_of_nothing() {
    let [min, max] = color_min_max(&[]);
    assert_eq!(min, c(255, 255, 255));
    assert_eq!(max, c(0, 0, 0));
}

#[test]
fn split_keeps_every_pixel() {
    let pixels = vec![c(5, 0, 0), c(1, 200, 0), c(3, 100, 0), c(2, 50, 0), c(3, 1, 1)];
    let (a, b) = split_pixels_at_median(pixels.clone());
    assert_eq!(a.len() + b.len(), pixels.len());
    assert_eq!(a, vec![c(1, 200, 0), c(2, 50, 0)]);
    assert_eq!(b, vec![c(3, 100, 0), c(3, 1, 1), c(5, 0, 0)]);
}

#[test]
fn split_of_one_pixel() {
    let (a, b) = split_pixels_at_median(vec![c(4, 4, 4)]);
    assert!(a.is_empty());
    assert_eq!(b, vec![c(4, 4, 4)]);
}

#[test]
fn average_truncates_and_handles_empty_group() {
    assert_eq!(average_color_from_group(&vec![c(255, 0, 1), c(254, 3, 2)]), c(254, 1, 1));
    assert_eq!(average_color_from_group(&vec![]), c(0, 0, 0));
    let many = vec![c(255, 255, 255); 1000];
    assert_eq!(average_color_from_group(&many), c(255, 255, 255));
}
