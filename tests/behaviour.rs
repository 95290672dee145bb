use atlas_packer::{Packer, PackerError, URect, UVec2};

fn overlaps(a: &URect, b: &URect) -> bool {
    a.top_left.x < a.bottom_right.x
        && b.top_left.x < b.bottom_right.x
        && a.top_left.y < a.bottom_right.y
        && b.top_left.y < b.bottom_right.y
        && a.top_left.x < b.bottom_right.x
        && b.top_left.x < a.bottom_right.x
        && a.top_left.y < b.bottom_right.y
        && b.top_left.y < a.bottom_right.y
}

#[test]
fn new_packer_has_one_region_over_the_canvas() {
    let packer = Packer::new(64, 48);
    assert_eq!(packer.areas(), &vec![URect::from_tuples((0, 0), (64, 48))]);
    assert_eq!(packer.admissable_waste(), 8);
    assert_eq!(packer.width(), 64);
    assert_eq!(packer.height(), 48);
}

#[test]
fn with_admissable_waste_sets_threshold() {
    let packer = Packer::new(64, 64).with_admissable_waste(3);
    assert_eq!(packer.admissable_waste(), 3);
    assert_eq!(packer.areas(), &vec![URect::from_tuples((0, 0), (64, 64))]);
}

#[test]
fn placement_has_requested_size_inside_canvas() {
    let sizes = [(5, 7), (12, 3), (1, 1), (20, 9), (9, 20), (30, 2), (3, 30)];
    let mut packer = Packer::new(96, 80);
    for (w, h) in sizes {
        let rect = packer.try_allocate(UVec2::new(w, h)).unwrap();
        assert_eq!(rect.width(), w);
        assert_eq!(rect.height(), h);
        assert!(rect.bottom_right.x <= 96 && rect.bottom_right.y <= 80);
    }
}

#[test]
fn successive_placements_never_overlap() {
    let mut packer = Packer::new(128, 128);
    let mut placed: Vec<URect> = Vec::new();
    let mut seed: u32 = 17;
    for _ in 0..200 {
        seed = seed.wrapping_mul(1103515245).wrapping_add(12345);
        let w = 2 + (seed >> 16) % 23;
        seed = seed.wrapping_mul(1103515245).wrapping_add(12345);
        let h = 2 + (seed >> 16) % 23;
        if let Ok(rect) = packer.try_allocate(UVec2::new(w, h)) {
            for other in &placed {
                assert!(!overlaps(&rect, other));
            }
            for free in packer.areas() {
                assert!(!overlaps(&rect, free));
            }
            placed.push(rect);
        }
    }
    assert!(placed.len() > 10);
}

#[test]
fn empty_request_succeeds_at_origin_and_takes_nothing() {
    let mut packer = Packer::new(64, 64);
    let before = packer.areas().clone();
    assert_eq!(
        packer.try_allocate(UVec2::new(0, 5)),
        Ok(URect::from_tuples((0, 0), (0, 5)))
    );
    assert_eq!(
        packer.try_allocate(UVec2::new(7, 0)),
        Ok(URect::from_tuples((0, 0), (7, 0)))
    );
    assert_eq!(packer.areas(), &before);
    assert_eq!(
        packer.try_allocate(UVec2::new(30, 30)),
        Ok(URect::from_tuples((1, 1), (31, 31)))
    );
}

#[test]
fn exhausted_packer_keeps_failing() {
    let mut packer = Packer::new(10, 10);
    assert_eq!(
        packer.try_allocate(UVec2::new(8, 8)),
        Ok(URect::from_tuples((1, 1), (9, 9)))
    );
    let after = packer.areas().clone();
    for _ in 0..3 {
        assert_eq!(
            packer.try_allocate(UVec2::new(1, 1)),
            Err(PackerError::NotEnoughSpace)
        );
        assert_eq!(
            packer.try_allocate(UVec2::new(2, 3)),
            Err(PackerError::NotEnoughSpace)
        );
        assert_eq!(packer.areas(), &after);
    }
}

#[test]
fn oversized_request_is_not_enough_space() {
    let mut packer = Packer::new(64, 64);
    assert_eq!(
        packer.try_allocate(UVec2::new(u32::MAX, u32::MAX)),
        Err(PackerError::NotEnoughSpace)
    );
    assert_eq!(
        packer.try_allocate(UVec2::new(u32::MAX - 1, 1)),
        Err(PackerError::NotEnoughSpace)
    );
    assert_eq!(
        packer.try_allocate(UVec2::new(63, 10)),
        Err(PackerError::NotEnoughSpace)
    );
    assert_eq!(
        packer.try_allocate(UVec2::new(62, 62)),
        Ok(URect::from_tuples((1, 1), (63, 63)))
    );
}

#[test]
fn largest_canvas_takes_a_block() {
    let mut packer = Packer::new(u32::MAX, u32::MAX);
    assert_eq!(
        packer.try_allocate(UVec2::new(u32::MAX - 2, 4)),
        Ok(URect::from_tuples((1, 1), (u32::MAX - 1, 5)))
    );
}

#[test]
fn pack_of_nothing_changes_nothing() {
    let mut packer = Packer::new(64, 64).with_admissable_waste(3);
    let results = packer.pack(Vec::new());
    assert!(results.is_empty());
    assert_eq!(packer.admissable_waste(), 3);
    assert_eq!(packer.areas(), &vec![URect::from_tuples((0, 0), (64, 64))]);
}

#[test]
fn pack_places_tallest_first() {
    let mut packer = Packer::new(64, 64);
    let results = packer.pack(vec![
        UVec2::new(10, 5),
        UVec2::new(20, 30),
        UVec2::new(14, 14),
    ]);
    assert_eq!(
        results,
        vec![
            Ok(URect::from_tuples((1, 1), (21, 31))),
            Ok(URect::from_tuples((23, 1), (37, 15))),
            Ok(URect::from_tuples((39, 1), (49, 6))),
        ]
    );
    assert_eq!(packer.admissable_waste(), 6);
}

#[test]
fn pack_reports_each_failure() {
    let mut packer = Packer::new(20, 20);
    let results = packer.pack(vec![UVec2::new(30, 4), UVec2::new(4, 4)]);
    assert_eq!(
        results,
        vec![
            Err(PackerError::NotEnoughSpace),
            Ok(URect::from_tuples((1, 1), (5, 5))),
        ]
    );
    assert_eq!(packer.admissable_waste(), 5);
}

#[test]
fn small_leftover_is_given_up() {
    let mut packer = Packer::new(64, 64);
    assert_eq!(
        packer.try_allocate(UVec2::new(60, 54)),
        Ok(URect::from_tuples((1, 1), (61, 55)))
    );
    assert_eq!(packer.areas(), &vec![URect::from_tuples((62, 0), (64, 64))]);
}

#[test]
fn leftover_above_threshold_is_kept() {
    let mut packer = Packer::new(64, 64).with_admissable_waste(0);
    assert_eq!(
        packer.try_allocate(UVec2::new(60, 54)),
        Ok(URect::from_tuples((1, 1), (61, 55)))
    );
    assert_eq!(
        packer.areas(),
        &vec![
            URect::from_tuples((62, 0), (64, 56)),
            URect::from_tuples((0, 56), (64, 64)),
        ]
    );
}

#[test]
fn full_width_block_leaves_only_space_underneath() {
    let mut packer = Packer::new(32, 64);
    assert_eq!(
        packer.try_allocate(UVec2::new(30, 10)),
        Ok(URect::from_tuples((1, 1), (31, 11)))
    );
    assert_eq!(packer.areas(), &vec![URect::from_tuples((0, 12), (32, 64))]);
}

#[test]
fn rect_helpers() {
    let r = URect::new(UVec2::new(2, 3), UVec2::new(7, 3));
    assert_eq!(r.width(), 5);
    assert_eq!(r.height(), 0);
    assert!(r.is_zero_area());
    assert_eq!(r.top_right(), UVec2::new(7, 3));
    assert!(!URect::from_tuples((0, 0), (1, 1)).is_zero_area());
}
