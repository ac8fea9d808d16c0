use pore_detection::classify::{classify, AnalysisParams, Region};
use pore_detection::density::{density, Density, DensityUndefined};
use pore_detection::labeling::{label, sizes, Polarity};
use pore_detection::pipeline::analyze;
use pore_detection::raster::{binarize, Mask, Raster};

fn raster(width: u32, height: u32, luma: &[u8]) -> Raster {
    Raster::new(width, height, luma.to_vec()).expect("sample count matches the size")
}

fn params(threshold: i32, low: u64, high: u64, min_feature: u64) -> AnalysisParams {
    AnalysisParams {
        threshold,
        pore_size_low: low,
        pore_size_high: high,
        included_min_feature_size: min_feature,
    }
}

/// Row-major mask from rows of '#' (FOREGROUND) and '.' (BACKGROUND).
fn mask(rows: &[&str]) -> Mask {
    let height = rows.len() as u32;
    let width = rows.first().map(|r| r.len()).unwrap_or(0) as u32;
    let cells: Vec<bool> = rows.iter().flat_map(|r| r.chars().map(|c| c == '#')).collect();
    Mask::new(width, height, cells).expect("rows of equal length")
}

/// Raster whose FOREGROUND at threshold 128 is the '#' cells.
fn raster_of(rows: &[&str]) -> Raster {
    let height = rows.len() as u32;
    let width = rows.first().map(|r| r.len()).unwrap_or(0) as u32;
    let luma: Vec<u8> = rows
        .iter()
        .flat_map(|r| r.chars().map(|c| if c == '#' { 200u8 } else { 10u8 }))
        .collect();
    raster(width, height, &luma)
}

fn coords_where(rows: &[&str], wanted: char) -> Vec<(u32, u32)> {
    let mut out = Vec::new();
    for (y, r) in rows.iter().enumerate() {
        for (x, c) in r.chars().enumerate() {
            if c == wanted {
                out.push((x as u32, y as u32));
            }
        }
    }
    out
}

#[test]
fn raster_new_rejects_wrong_sample_count() {
    assert!(Raster::new(2, 2, vec![0, 1, 2]).is_none());
    assert!(Raster::new(2, 2, vec![0, 1, 2, 3, 4]).is_none());
    let r = Raster::new(2, 2, vec![0, 1, 2, 3]).unwrap();
    assert_eq!((r.width(), r.height()), (2, 2));
    assert_eq!(r.luma(), &vec![0, 1, 2, 3]);
    assert!(Raster::new(0, 0, vec![]).is_some());
}

#[test]
fn mask_new_rejects_wrong_cell_count() {
    assert!(Mask::new(3, 1, vec![true, false]).is_none());
    assert!(Mask::new(1, 2, vec![true, false]).is_some());
}

#[test]
fn binarize_uses_at_least_threshold() {
    let r = raster(4, 1, &[0, 99, 100, 255]);
    assert_eq!(binarize(&r, 100).cells(), &vec![false, false, true, true]);
    assert_eq!(binarize(&r, 0).cells(), &vec![true, true, true, true]);
    assert_eq!(binarize(&r, -5).cells(), &vec![true, true, true, true]);
    assert_eq!(binarize(&r, 255).cells(), &vec![false, false, false, true]);
    assert_eq!(binarize(&r, 256).cells(), &vec![false, false, false, false]);
    assert_eq!(binarize(&r, 100).foreground_count(), 2);
}

#[test]
fn higher_threshold_never_adds_foreground() {
    let luma: Vec<u8> = (0..64u32).map(|i| ((i * 37 + 11) % 256) as u8).collect();
    let r = raster(8, 8, &luma);
    let mut last = usize::MAX;
    for t in -2..=258 {
        let count = binarize(&r, t).foreground_count();
        assert!(count <= last, "threshold {t}");
        last = count;
    }
    assert_eq!(binarize(&r, -2).foreground_count(), 64);
    assert_eq!(binarize(&r, 258).foreground_count(), 0);
}

#[test]
fn all_white_is_one_foreground_component() {
    let r = raster(4, 4, &[255; 16]);
    let m = binarize(&r, 0);
    let fg = label(&m, Polarity::Foreground);
    let first = fg.labels()[0];
    assert_ne!(first, 0);
    assert!(fg.labels().iter().all(|&l| l == first));
    assert_eq!(sizes(&fg).size_of(first), 16);
    let bg = label(&m, Polarity::Background);
    assert!(bg.labels().iter().all(|&l| l == 0));
    assert_eq!(sizes(&bg).size_of(0), 0);
}

#[test]
fn diagonal_background_cells_are_one_component() {
    let m = mask(&[".#", "#."]);
    let bg = label(&m, Polarity::Background);
    let l = bg.labels();
    assert_ne!(l[0], 0);
    assert_eq!(l[0], l[3]);
    assert_eq!(l[1], 0);
    assert_eq!(l[2], 0);
    assert_eq!(sizes(&bg).size_of(l[0]), 2);
    let fg = label(&m, Polarity::Foreground);
    let f = fg.labels();
    assert_ne!(f[1], 0);
    assert_eq!(f[1], f[2]);
    assert_eq!((f[0], f[3]), (0, 0));
}

#[test]
fn separate_components_get_distinct_ids() {
    let m = mask(&["#..#", "#..#", "....", "##.."]);
    let fg = label(&m, Polarity::Foreground);
    let l = fg.labels();
    let at = |x: usize, y: usize| l[y * 4 + x];
    assert_eq!(at(0, 0), at(0, 1));
    assert_eq!(at(3, 0), at(3, 1));
    assert_eq!(at(0, 3), at(1, 3));
    assert_ne!(at(0, 0), at(3, 0));
    assert_ne!(at(0, 0), at(0, 3));
    assert_ne!(at(3, 0), at(0, 3));
    let s = sizes(&fg);
    assert_eq!(s.size_of(at(0, 0)), 2);
    assert_eq!(s.size_of(at(3, 0)), 2);
    assert_eq!(s.size_of(at(0, 3)), 2);
    // the background is one connected piece of 10 cells
    let bg = label(&m, Polarity::Background);
    let b = bg.labels();
    assert!(m.cells().iter().zip(b.iter()).all(|(&c, &id)| c == (id == 0)));
    assert!(b.iter().filter(|&&id| id != 0).all(|&id| id == b[1]));
    assert_eq!(sizes(&bg).size_of(b[1]), 10);
}

#[test]
fn partition_agrees_with_reachability() {
    let rows = ["#.#..#", ".#..##", "...#..", "##...#"];
    let m = mask(&rows);
    let (w, h) = (6usize, 4usize);
    let cells = m.cells().clone();
    for polarity in [Polarity::Foreground, Polarity::Background] {
        let want = polarity == Polarity::Foreground;
        let labels = label(&m, polarity).labels().clone();
        for start in 0..w * h {
            if cells[start] != want {
                assert_eq!(labels[start], 0);
                continue;
            }
            let mut seen = vec![false; w * h];
            let mut stack = vec![start];
            seen[start] = true;
            while let Some(p) = stack.pop() {
                let (px, py) = ((p % w) as i64, (p / w) as i64);
                for dy in -1..=1i64 {
                    for dx in -1..=1i64 {
                        let (nx, ny) = (px + dx, py + dy);
                        if nx < 0 || ny < 0 || nx >= w as i64 || ny >= h as i64 {
                            continue;
                        }
                        let q = ny as usize * w + nx as usize;
                        if !seen[q] && cells[q] == want {
                            seen[q] = true;
                            stack.push(q);
                        }
                    }
                }
            }
            for other in 0..w * h {
                if cells[other] == want {
                    assert_eq!(labels[start] == labels[other], seen[other]);
                }
            }
        }
    }
}

#[test]
fn component_of_exactly_the_upper_bound_is_excluded() {
    let rows = ["###", "#.#", "###"];
    let r = raster_of(&rows);
    let excluded = analyze(&r, &params(128, 0, 1, 0), None);
    assert!(excluded.included.is_empty());
    let kept = analyze(&r, &params(128, 0, 2, 0), None);
    assert_eq!(kept.included, vec![(1, 1)]);
    let not_above_low = analyze(&r, &params(128, 1, 10, 0), None);
    assert!(not_above_low.included.is_empty());
}

#[test]
fn small_foreground_island_becomes_void() {
    let rows = ["##...###", "#....###", ".....###"];
    let r = raster_of(&rows);
    let island = vec![(0, 0), (1, 0), (0, 1)];
    let before = analyze(&r, &params(128, 0, 0, 0), None);
    assert!(before.included.is_empty());
    assert_eq!(before.reference, coords_where(&rows, '#'));
    let after = analyze(&r, &params(128, 0, 0, 5), None);
    assert_eq!(after.included, island);
    let expected_reference: Vec<(u32, u32)> = before
        .reference
        .iter()
        .copied()
        .filter(|c| !island.contains(c))
        .collect();
    assert_eq!(after.reference, expected_reference);
    assert_eq!(after.reference.len(), before.reference.len() - 3);
}

#[test]
fn min_feature_size_zero_is_off() {
    let rows = ["#..", "...", "..#"];
    let r = raster_of(&rows);
    let off = analyze(&r, &params(128, 100, 200, 0), None);
    assert!(off.included.is_empty());
    assert_eq!(off.reference, vec![(0, 0), (2, 2)]);
    let on = analyze(&r, &params(128, 100, 200, 2), None);
    assert_eq!(on.included, vec![(0, 0), (2, 2)]);
    assert!(on.reference.is_empty());
    assert_eq!(on.density, Err(DensityUndefined));
}

#[test]
fn pore_and_speck_pixels_combine_in_row_major_order() {
    let rows = ["#.##", "..##", "####", "#..#"];
    let r = raster_of(&rows);
    let res = analyze(&r, &params(128, 1, 4, 2), None);
    // background pieces: {(1,0),(0,1),(1,1)} of size 3, {(1,3),(2,3)} of size 2;
    // foreground pieces: {(0,0)} of size 1 (a speck), the rest of size 10
    assert_eq!(res.included, vec![(0, 0), (1, 0), (0, 1), (1, 1), (1, 3), (2, 3)]);
    let mut reference = coords_where(&rows, '#');
    reference.retain(|&c| c != (0, 0));
    assert_eq!(res.reference, reference);
    assert_eq!(res.density, Ok(Density { included: 6, reference: 10 }));
}

#[test]
fn region_restricts_both_sets() {
    let rows = ["#..#", ".#..", "..#.", "#..#"];
    let r = raster_of(&rows);
    let p = params(128, 0, 100, 0);
    let full = analyze(&r, &p, None);
    // columns 1..=2, rows 4-3 ..= 4-1, that is rows 1..=3
    let region = Region { start_x: 1, start_y: 3, end_x: 2, end_y: 1 };
    let part = analyze(&r, &p, Some(region));
    let inside = |&(x, y): &(u32, u32)| (1..=2).contains(&x) && (1..=3).contains(&y);
    assert!(part.included.iter().all(inside));
    assert!(part.reference.iter().all(inside));
    let expected_included: Vec<(u32, u32)> = full.included.iter().copied().filter(inside).collect();
    let expected_reference: Vec<(u32, u32)> = full.reference.iter().copied().filter(inside).collect();
    assert_eq!(part.included, expected_included);
    assert_eq!(part.reference, expected_reference);
    assert_eq!(part.reference, vec![(1, 1), (2, 2)]);
    assert!(part.included.len() < full.included.len());
    assert!(part.reference.len() <= full.reference.len());
}

#[test]
fn region_corners_may_come_in_any_order() {
    let rows = ["####", "####", "####"];
    let r = raster_of(&rows);
    let p = params(128, 0, 100, 0);
    let a = analyze(&r, &p, Some(Region { start_x: 0, start_y: 3, end_x: 1, end_y: 2 }));
    let b = analyze(&r, &p, Some(Region { start_x: 1, start_y: 2, end_x: 0, end_y: 3 }));
    assert_eq!(a.reference, vec![(0, 0), (1, 0), (0, 1), (1, 1)]);
    assert_eq!(a.reference, b.reference);
}

#[test]
fn region_without_area_selects_nothing() {
    let rows = ["#.#", "...", "#.#"];
    let r = raster_of(&rows);
    let p = params(128, 0, 100, 0);
    let flat = analyze(&r, &p, Some(Region { start_x: 0, start_y: 1, end_x: 3, end_y: 1 }));
    assert!(flat.included.is_empty());
    assert!(flat.reference.is_empty());
    assert_eq!(flat.density, Err(DensityUndefined));
    let thin = analyze(&r, &p, Some(Region { start_x: 2, start_y: 0, end_x: 2, end_y: 3 }));
    assert!(thin.included.is_empty() && thin.reference.is_empty());
}

#[test]
fn region_never_adds_reference_pixels() {
    let luma: Vec<u8> = (0..48u32).map(|i| ((i * 53 + 7) % 256) as u8).collect();
    let r = raster(8, 6, &luma);
    let p = params(120, 0, 1000, 3);
    let full = analyze(&r, &p, None);
    for (sx, sy, ex, ey) in [(0, 0, 8, 6), (1, 1, 5, 4), (7, 6, 2, 0), (0, 6, 8, 5)] {
        let part = analyze(&r, &p, Some(Region { start_x: sx, start_y: sy, end_x: ex, end_y: ey }));
        assert!(part.reference.len() <= full.reference.len());
        assert!(part.reference.iter().all(|c| full.reference.contains(c)));
    }
}

#[test]
fn analysis_is_reproducible() {
    let luma: Vec<u8> = (0..100u32).map(|i| ((i * 91 + 3) % 256) as u8).collect();
    let r = raster(10, 10, &luma);
    let p = params(100, 1, 50, 4);
    let region = Some(Region { start_x: 2, start_y: 9, end_x: 8, end_y: 1 });
    let a = analyze(&r, &p, region);
    let b = analyze(&r, &p, region);
    assert_eq!(a.included, b.included);
    assert_eq!(a.reference, b.reference);
    assert_eq!(a.density, b.density);
}

#[test]
fn classify_matches_analyze() {
    let rows = ["#..#.", "##..#", ".....", "#.###"];
    let r = raster_of(&rows);
    let p = params(128, 1, 9, 2);
    let m = binarize(&r, 128);
    let fg = label(&m, Polarity::Foreground);
    let bg = label(&m, Polarity::Background);
    let c = classify(&m, &fg, &sizes(&fg), &bg, &sizes(&bg), &p, None);
    let a = analyze(&r, &p, None);
    assert_eq!(c.included, a.included);
    assert_eq!(c.reference, a.reference);
}

#[test]
fn density_without_reference_is_undefined() {
    assert_eq!(density(&vec![(0, 0)], &vec![]), Err(DensityUndefined));
    assert_eq!(density(&vec![], &vec![]), Err(DensityUndefined));
    let black = raster(3, 3, &[0; 9]);
    let res = analyze(&black, &params(1, 0, 100, 0), None);
    assert_eq!(res.included.len(), 9);
    assert!(res.reference.is_empty());
    assert_eq!(res.density, Err(DensityUndefined));
}

#[test]
fn density_counts_both_sets() {
    assert_eq!(
        density(&vec![(0, 0)], &vec![(1, 0), (2, 0), (3, 0), (4, 0)]),
        Ok(Density { included: 1, reference: 4 })
    );
    assert_eq!(density(&vec![], &vec![(1, 1)]), Ok(Density { included: 0, reference: 1 }));
}

#[test]
fn scaled_percent_values() {
    assert_eq!(Density { included: 1, reference: 4 }.scaled_percent(100000), 7_500_000);
    assert_eq!(Density { included: 0, reference: 7 }.scaled_percent(1), 100);
    assert_eq!(Density { included: 4, reference: 4 }.scaled_percent(1000), 0);
    assert_eq!(Density { included: 6, reference: 4 }.scaled_percent(100000), -5_000_000);
    assert_eq!(Density { included: 1, reference: 3 }.scaled_percent(1), 66);
    assert_eq!(Density { included: 4, reference: 3 }.scaled_percent(1), -33);
}

#[test]
fn empty_raster_gives_empty_analysis() {
    let r = raster(0, 0, &[]);
    let res = analyze(&r, &params(0, 0, 10, 3), None);
    assert!(res.included.is_empty());
    assert!(res.reference.is_empty());
    assert_eq!(res.density, Err(DensityUndefined));
}

#[test]
fn default_params() {
    let p = AnalysisParams::default();
    assert_eq!(p, params(0, 0, 2147483647, 0));
}

#[test]
fn region_is_clamped_into_the_image() {
    let region = Region { start_x: 12, start_y: 3, end_x: 1, end_y: 40 };
    assert_eq!(
        region.clamped(10, 8),
        Region { start_x: 10, start_y: 3, end_x: 1, end_y: 8 }
    );
    assert_eq!(region.clamped(100, 100), region);
}

#[test]
fn single_pixel_images_are_labelled_and_analysed() {
    let white = raster(1, 1, &[255]);
    let m = binarize(&white, 128);
    assert_eq!(label(&m, Polarity::Foreground).labels(), &vec![1]);
    assert_eq!(label(&m, Polarity::Background).labels(), &vec![0]);
    let res = analyze(&white, &params(128, 0, 100, 0), None);
    assert!(res.included.is_empty());
    assert_eq!(res.reference, vec![(0, 0)]);
    assert_eq!(res.density, Ok(Density { included: 0, reference: 1 }));
    let speck = analyze(&white, &params(128, 0, 100, 2), None);
    assert_eq!(speck.included, vec![(0, 0)]);
    assert!(speck.reference.is_empty());

    let black = raster(1, 1, &[0]);
    let m = binarize(&black, 128);
    assert_eq!(label(&m, Polarity::Foreground).labels(), &vec![0]);
    assert_eq!(label(&m, Polarity::Background).labels(), &vec![1]);
    let res = analyze(&black, &params(128, 0, 2, 0), None);
    assert_eq!(res.included, vec![(0, 0)]);
    assert_eq!(res.density, Err(DensityUndefined));
}
