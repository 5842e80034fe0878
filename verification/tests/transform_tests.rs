use ferrite::transform::Transform;

#[test]
fn zoom_out_converges_to_exact_minimum() {
    let mut t = Transform::identity();
    for _ in 0..20 {
        // Factor one half: a large scroll delta away from the viewer.
        t.apply_zoom(500, None, 0, 0);
        assert!(t.scale_milli >= 100 && t.scale_milli <= 10000);
    }
    assert_eq!(t.scale_milli, 100);
}

#[test]
fn zoom_in_converges_to_exact_maximum() {
    let mut t = Transform::identity();
    for _ in 0..20 {
        // Factor two: a large scroll delta toward the viewer.
        t.apply_zoom(2000, None, 0, 0);
        assert!(t.scale_milli >= 100 && t.scale_milli <= 10000);
    }
    assert_eq!(t.scale_milli, 10000);
}

#[test]
fn zoom_scales_exactly() {
    let mut t = Transform::identity();
    t.apply_zoom(900, None, 0, 0);
    assert_eq!(t.scale_milli, 900);
    t.apply_zoom(500, None, 0, 0);
    assert_eq!(t.scale_milli, 450);
}

#[test]
fn extreme_factor_lands_on_floor() {
    let mut t = Transform::identity();
    t.apply_zoom(0, None, 0, 0);
    assert_eq!(t.scale_milli, 100);
    let mut t2 = Transform::identity();
    t2.apply_zoom(-500, None, 0, 0);
    assert_eq!(t2.scale_milli, 100);
}

#[test]
fn zoom_keeps_pointer_fixed_via_offset() {
    let mut t = Transform::identity();
    // Pointer 100 units right of a centered viewport, factor 0.9: the offset
    // shifts by 100 * (1000 - 900) / 1000 = 10.
    t.apply_zoom(900, Some((100, 0)), 0, 0);
    assert_eq!(t.offset_x, 10);
    assert_eq!(t.offset_y, 0);
    assert_eq!(t.scale_milli, 900);
}

#[test]
fn zoom_without_pointer_keeps_offset() {
    let mut t = Transform::identity();
    t.apply_drag(11, -4);
    t.apply_zoom(900, None, 50, 50);
    assert_eq!(t.offset_x, 11);
    assert_eq!(t.offset_y, -4);
}

#[test]
fn drag_accumulates_unbounded_by_scale() {
    let mut t = Transform::identity();
    t.apply_drag(5, -3);
    t.apply_drag(-2, 10);
    assert_eq!(t.offset_x, 3);
    assert_eq!(t.offset_y, 7);
    assert_eq!(t.scale_milli, 1000);
}
