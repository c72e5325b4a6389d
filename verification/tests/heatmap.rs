use geometrize::Heatmap;

#[test]
fn it_can_allocates_a_heatmap_thanks_to_a_closure() {
    let heatmap = Heatmap::from_fn(2, 2, |x, y| x.pow(y) as u64);
    assert_eq!(vec![1u64, 1, 0, 1], heatmap);
}

#[test]
fn it_can_sum_heatmaps() {
    let a = Heatmap::from_fn(2, 2, |x, y| (4 * (x + y)) as u64);
    let b = Heatmap::from_fn(2, 2, |x, y| (x + y) as u64);

    assert_eq!(vec![0u64, 5, 5, 10], a.add(b));
}

#[test]
fn new_allocates_a_zeroed_grid() {
    let heatmap = Heatmap::new(4, 3);

    assert_eq!((4, 3), heatmap.dimensions());
    assert_eq!(4, heatmap.width());
    assert_eq!(3, heatmap.height());
    for y in 0..3 {
        for x in 0..4 {
            assert_eq!(Some(&0u64), heatmap.get_pixel(x, y));
        }
    }
}

#[test]
fn from_fn_reads_back_every_cell() {
    let heatmap = Heatmap::from_fn(3, 2, |x, y| (x + 10 * y) as u64);

    for y in 0..2 {
        for x in 0..3 {
            assert_eq!(Some(&((x + 10 * y) as u64)), heatmap.get_pixel(x, y));
        }
    }
}

#[test]
fn get_pixel_is_absent_out_of_range() {
    let heatmap = Heatmap::new(2, 3);

    assert_eq!(None, heatmap.get_pixel(2, 0));
    assert_eq!(None, heatmap.get_pixel(0, 3));
    assert_eq!(None, heatmap.get_pixel(2, 3));
    assert_eq!(None, heatmap.get_pixel(u32::MAX, u32::MAX));
    assert!(heatmap.get_pixel(1, 2).is_some());
}

#[test]
fn get_pixel_mut_is_absent_out_of_range() {
    let mut heatmap = Heatmap::new(2, 3);

    assert!(heatmap.get_pixel_mut(2, 0).is_none());
    assert!(heatmap.get_pixel_mut(0, 3).is_none());
    assert!(heatmap.get_pixel_mut(5, 7).is_none());
    assert!(heatmap.get_pixel_mut(1, 2).is_some());
}

#[test]
fn get_pixel_mut_writes_a_single_cell() {
    let mut heatmap = Heatmap::new(2, 2);

    if let Some(px) = heatmap.get_pixel_mut(1, 0) {
        *px = 42;
    }

    assert_eq!(vec![0u64, 42, 0, 0], heatmap);
    assert_eq!(Some(&42u64), heatmap.get_pixel(1, 0));
}

#[test]
fn clear_zeroes_cells_and_keeps_dimensions() {
    let mut heatmap = Heatmap::from_fn(3, 2, |x, y| (1 + x + y) as u64);

    heatmap.clear();

    assert_eq!((3, 2), heatmap.dimensions());
    for y in 0..2 {
        for x in 0..3 {
            assert_eq!(Some(&0u64), heatmap.get_pixel(x, y));
        }
    }
}

#[test]
fn merge_truncates_to_the_smaller_extent() {
    let a = Heatmap::from_fn(3, 2, |x, y| (1 + x + 10 * y) as u64);
    let b = Heatmap::from_fn(2, 3, |x, y| (100 * (x + y)) as u64);

    let merged = a.add(b);

    assert_eq!((2, 2), merged.dimensions());
    for y in 0..2 {
        for x in 0..2 {
            let expected = (1 + x + 10 * y) as u64 + (100 * (x + y)) as u64;
            assert_eq!(Some(&expected), merged.get_pixel(x, y));
        }
    }
}

#[test]
fn merge_is_commutative_on_the_retained_region() {
    let a = Heatmap::from_fn(3, 2, |x, y| (1 + x + 10 * y) as u64);
    let b = Heatmap::from_fn(2, 3, |x, y| (100 * (x + y)) as u64);

    let ab = a.clone().add(b.clone());
    let ba = b.add(a);

    assert_eq!(ab, ba);
}

#[test]
fn add_assign_matches_add() {
    let a = Heatmap::from_fn(2, 2, |x, y| (4 * (x + y)) as u64);
    let b = Heatmap::from_fn(2, 2, |x, y| (x + y) as u64);

    let mut acc = a.clone();
    acc.add_assign(b.clone());

    assert_eq!(a.add(b), acc);
}

#[test]
fn max_heat_of_an_empty_grid_is_zero() {
    let heatmap = Heatmap::new(0, 0);

    assert_eq!(0, heatmap.max_heat());
}

#[test]
fn max_heat_finds_the_largest_cell() {
    let heatmap = Heatmap::from_fn(3, 3, |x, y| (x * y) as u64);

    assert_eq!(4, heatmap.max_heat());
    assert_eq!(0, Heatmap::new(3, 3).max_heat());
}

#[test]
fn equality_compares_dimensions_and_cells() {
    let a = Heatmap::new(2, 3);
    let b = Heatmap::new(3, 2);

    // Same cells row-major, different dimensions: not equal as heatmaps.
    assert!(a != b);
    assert_eq!(a, Heatmap::new(2, 3));

    let mut c = Heatmap::new(2, 3);
    if let Some(px) = c.get_pixel_mut(0, 0) {
        *px = 1;
    }
    assert!(a != c);

    // Comparison against a raw row-major sequence ignores dimensions.
    assert_eq!(a, vec![0u64; 6]);
    assert_eq!(vec![0u64; 6], b);
}
