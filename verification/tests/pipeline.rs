use seam_carve::edge_detect;
use seam_carve::find_all_vert_seams;
use seam_carve::find_n_vert_seams;
use seam_carve::find_vert_seam;
use seam_carve::intensity_from_rgb;
use seam_carve::min_vert_energy;
use seam_carve::rgb_to_intensity;

#[test]
fn luma_of_black_is_zero() {
    assert_eq!(intensity_from_rgb([0, 0, 0]), 0);
}

#[test]
fn luma_of_white_is_full_scale() {
    assert_eq!(intensity_from_rgb([255, 255, 255]), 255000);
}

#[test]
fn luma_formula_is_exact() {
    // 299 R + 587 G + 114 B over the raw bytes
    assert_eq!(intensity_from_rgb([255, 0, 0]), 76245);
    assert_eq!(intensity_from_rgb([0, 255, 0]), 149685);
    assert_eq!(intensity_from_rgb([0, 0, 255]), 29070);
    assert_eq!(intensity_from_rgb([10, 20, 30]), 18150);
}

#[test]
fn luma_stays_in_range() {
    for r in [0u8, 1, 127, 254, 255] {
        for g in [0u8, 63, 255] {
            for b in [0u8, 128, 255] {
                let v = intensity_from_rgb([r, g, b]);
                assert!(v <= 255000);
            }
        }
    }
}

#[test]
fn rgb_to_intensity_preserves_shape() {
    let pixels = vec![[1u8, 2, 3]; 12];
    let field = rgb_to_intensity(&pixels, 4, 3);
    assert_eq!(field.len(), 12);
}

#[test]
fn rgb_to_intensity_maps_each_pixel() {
    let pixels = vec![[0u8, 0, 0], [255, 255, 255], [10, 20, 30], [255, 0, 0]];
    let field = rgb_to_intensity(&pixels, 2, 2);
    assert_eq!(field, vec![0, 255000, 18150, 76245]);
}

#[test]
fn edge_detect_preserves_shape() {
    let field = vec![7u32; 15];
    let energy = edge_detect(&field, 5, 3);
    assert_eq!(energy.len(), 15);
}

#[test]
fn flat_field_has_zero_energy() {
    // a uniform field has no gradient anywhere, including at the borders
    for (w, h) in [(1usize, 1usize), (3, 3), (4, 2), (2, 5)] {
        let field = vec![123456u32; w * h];
        let energy = edge_detect(&field, w, h);
        assert!(energy.iter().all(|&e| e == 0));
    }
}

#[test]
fn horizontal_ramp_energy_is_exact() {
    // one row [100, 200]: every 3x3 window replicates the two columns, so the
    // horizontal response is 4 * 100 and the vertical response is 0
    let energy = edge_detect(&vec![100, 200], 2, 1);
    assert_eq!(energy, vec![400, 400]);
}

#[test]
fn diagonal_ramp_energy_rounds_the_magnitude_down() {
    // every pixel of [[0, 1], [2, 3]] sees gx = 4 and gy = 8, so the energy
    // is the floor of sqrt(80), which is 8
    let energy = edge_detect(&vec![0, 1, 2, 3], 2, 2);
    assert_eq!(energy, vec![8, 8, 8, 8]);
}

#[test]
fn accumulator_matches_hand_computation() {
    // rows top-down: [5, 3, 4] over [1, 2, 9]
    let energy = vec![5u32, 3, 4, 1, 2, 9];
    let acc = min_vert_energy(&energy, 3, 2);
    assert_eq!(acc, vec![6, 4, 6, 1, 2, 9]);
}

#[test]
fn accumulator_preserves_shape() {
    let energy = vec![1u32; 12];
    let acc = min_vert_energy(&energy, 3, 4);
    assert_eq!(acc.len(), 12);
}

#[test]
fn accumulator_never_shrinks_a_cell() {
    let energy = vec![9u32, 0, 7, 3, 8, 1, 4, 4, 2];
    let acc = min_vert_energy(&energy, 3, 3);
    for i in 0..energy.len() {
        assert!(acc[i] >= energy[i] as u64);
    }
}

#[test]
fn accumulator_keeps_the_bottom_row() {
    let energy = vec![9u32, 0, 7, 3, 8, 1, 4, 4, 2];
    let acc = min_vert_energy(&energy, 3, 3);
    assert_eq!(&acc[6..9], &[4, 4, 2]);
}

#[test]
fn seam_follows_cheapest_path() {
    let acc = vec![6u64, 4, 6, 1, 2, 9];
    let seam = find_vert_seam(&acc, 3, 2);
    assert_eq!(seam, vec![1, 0]);
}

#[test]
fn seam_tie_breaks_to_the_left() {
    let acc = vec![2u64, 2, 2, 0, 0, 0];
    let seam = find_vert_seam(&acc, 3, 2);
    assert_eq!(seam, vec![0, 0]);
    let acc2 = vec![3u64, 1, 1, 5, 5, 5];
    let seam2 = find_vert_seam(&acc2, 3, 2);
    assert_eq!(seam2, vec![1, 0]);
}

#[test]
fn seam_is_adjacent_and_in_range() {
    let acc = vec![
        4u64, 9, 1, 7, 8, 2, 6, 3, 5, 1, 9, 9, 2, 8, 7, 3,
    ];
    let seam = find_vert_seam(&acc, 4, 4);
    assert_eq!(seam.len(), 4);
    for y in 0..seam.len() {
        assert!(seam[y] < 4);
        if y > 0 {
            let d = seam[y] as i64 - seam[y - 1] as i64;
            assert!(-1 <= d && d <= 1);
        }
    }
}

#[test]
fn multi_seam_returns_exactly_n_seams() {
    let energy = vec![0u32; 9];
    for n in 0..=3usize {
        let seams = find_n_vert_seams(n, &energy, 3, 3);
        assert_eq!(seams.len(), n);
        for (m, seam) in seams.iter().enumerate() {
            assert_eq!(seam.len(), 3);
            for &col in seam {
                assert!(col < 3 - m);
            }
        }
    }
}

#[test]
fn multi_seam_narrows_the_working_width() {
    // a flat field always yields the leftmost seam, at every working width
    let energy = vec![0u32; 9];
    let seams = find_n_vert_seams(3, &energy, 3, 3);
    assert_eq!(seams, vec![vec![0, 0, 0], vec![0, 0, 0], vec![0, 0, 0]]);
}

#[test]
fn multi_seam_respects_earlier_removals() {
    // rows top-down [1, 0, 9] over [1, 0, 9]: the first seam runs down
    // column 1; after removal the field is [[1, 9], [1, 9]] and the second
    // seam runs down column 0 of the narrowed field
    let energy = vec![1u32, 0, 9, 1, 0, 9];
    let seams = find_n_vert_seams(2, &energy, 3, 2);
    assert_eq!(seams, vec![vec![1, 1], vec![0, 0]]);
}

#[test]
fn find_all_seams_equals_full_extraction() {
    let energy = vec![9u32, 0, 7, 3, 8, 1, 4, 4, 2];
    let all = find_all_vert_seams(&energy, 3, 3);
    let n = find_n_vert_seams(3, &energy, 3, 3);
    assert_eq!(all, n);
    assert_eq!(all.len(), 3);
}

#[test]
fn every_stage_is_deterministic() {
    let pixels = vec![
        [12u8, 40, 7],
        [200, 13, 90],
        [0, 255, 33],
        [77, 77, 77],
        [1, 2, 3],
        [250, 250, 250],
    ];
    let i1 = rgb_to_intensity(&pixels, 3, 2);
    let i2 = rgb_to_intensity(&pixels, 3, 2);
    assert_eq!(i1, i2);
    let e1 = edge_detect(&i1, 3, 2);
    let e2 = edge_detect(&i2, 3, 2);
    assert_eq!(e1, e2);
    let a1 = min_vert_energy(&e1, 3, 2);
    let a2 = min_vert_energy(&e2, 3, 2);
    assert_eq!(a1, a2);
    let s1 = find_vert_seam(&a1, 3, 2);
    let s2 = find_vert_seam(&a2, 3, 2);
    assert_eq!(s1, s2);
    let m1 = find_n_vert_seams(2, &e1, 3, 2);
    let m2 = find_n_vert_seams(2, &e2, 3, 2);
    assert_eq!(m1, m2);
}

#[test]
fn uniform_gray_image_end_to_end() {
    // 3x3 uniform gray: nine equal intensities, nine zero energies, nine
    // zero accumulated values, and the leftmost tie-broken seam [0, 0, 0]
    let pixels = vec![[128u8, 128, 128]; 9];
    let intensity = rgb_to_intensity(&pixels, 3, 3);
    assert_eq!(intensity, vec![128000; 9]);
    let energy = edge_detect(&intensity, 3, 3);
    assert_eq!(energy, vec![0; 9]);
    let acc = min_vert_energy(&energy, 3, 3);
    assert_eq!(acc, vec![0; 9]);
    let seam = find_vert_seam(&acc, 3, 3);
    assert_eq!(seam, vec![0, 0, 0]);
}

#[test]
fn one_pixel_wide_image_end_to_end() {
    // a single column: the only seam is all zeros, and at most one seam can
    // be extracted before the width reaches zero
    let pixels = vec![[10u8, 20, 30], [40, 50, 60], [70, 80, 90], [5, 5, 5]];
    let intensity = rgb_to_intensity(&pixels, 1, 4);
    let energy = edge_detect(&intensity, 1, 4);
    assert_eq!(energy.len(), 4);
    let acc = min_vert_energy(&energy, 1, 4);
    assert_eq!(acc.len(), 4);
    let seam = find_vert_seam(&acc, 1, 4);
    assert_eq!(seam, vec![0, 0, 0, 0]);
    let seams = find_n_vert_seams(1, &energy, 1, 4);
    assert_eq!(seams, vec![vec![0, 0, 0, 0]]);
    let none = find_n_vert_seams(0, &energy, 1, 4);
    assert!(none.is_empty());
}
