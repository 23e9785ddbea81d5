use rustic_ray::shading::secondary_depth;

#[test]
fn no_secondary_ray_at_maximum_recursive_depth() {
    assert_eq!(None, secondary_depth(false, 0));
    assert_eq!(None, secondary_depth(true, 0));
}

#[test]
fn no_secondary_ray_for_zero_coefficient() {
    assert_eq!(None, secondary_depth(true, 5));
}

#[test]
fn secondary_ray_gets_one_less_depth() {
    assert_eq!(Some(4), secondary_depth(false, 5));
    assert_eq!(Some(0), secondary_depth(false, 1));
}
