use rustic_ray::{time_key, Intersection};

fn key(t: f64) -> i64 {
    time_key((t + 0.0).to_bits())
}

fn hit_t(ts: &[f64]) -> Option<f64> {
    let xs: Vec<Intersection> = ts.iter().map(|t| Intersection::new(key(*t), 0)).collect();
    Intersection::hit(&xs).map(|i| ts[i])
}

#[test]
fn intersection_encapsulates_t_and_shape() {
    let i = Intersection::new(key(3.5), 7);
    assert_eq!(key(3.5), i.key);
    assert_eq!(7, i.object);
}

#[test]
fn aggregating_intersections() {
    let xs = vec![Intersection::new(key(1.0), 0), Intersection::new(key(2.0), 0)];
    assert_eq!(2, xs.len());
    assert_eq!(key(1.0), xs[0].key);
    assert_eq!(key(2.0), xs[1].key);
}

#[test]
fn the_hit_all_intersections_positive_t() {
    assert_eq!(Some(1.0), hit_t(&[2.0, 1.0]));
}

#[test]
fn the_hit_all_intersections_some_negative_t() {
    assert_eq!(Some(1.0), hit_t(&[-1.0, 1.0]));
}

#[test]
fn the_hit_all_intersections_have_negative_t() {
    assert_eq!(None, hit_t(&[-2.0, -1.0]));
}

#[test]
fn the_hit_always_lowest_nonnegative_intersections() {
    assert_eq!(Some(2.0), hit_t(&[52.0, 7.0, -3.0, 2.0]));
}

#[test]
fn hit_at_zero_is_kept() {
    assert_eq!(Some(0.0), hit_t(&[3.0, 0.0, 1.0]));
    assert_eq!(Some(0.0), hit_t(&[0.0, 5.0]));
    assert_eq!(Some(0.0), hit_t(&[-0.0, 5.0]));
}

#[test]
fn hit_of_empty_list_is_none() {
    assert_eq!(None, hit_t(&[]));
}

#[test]
fn hit_takes_first_of_equal_times() {
    let xs = vec![
        Intersection::new(key(4.0), 1),
        Intersection::new(key(2.0), 2),
        Intersection::new(key(2.0), 3),
    ];
    assert_eq!(Some(1), Intersection::hit(&xs));
}

#[test]
fn time_keys_follow_the_order_of_times() {
    let ts = [f64::NEG_INFINITY, -1e300, -2.0, -1.0, -0.5, -1e-300, 0.0, 1e-300, 0.5, 1.0, 2.0, 1e300, f64::INFINITY];
    for w in ts.windows(2) {
        assert!(key(w[0]) < key(w[1]));
    }
    assert_eq!(0, key(0.0));
    assert_eq!(-1, time_key((-0.0f64).to_bits()));
}

#[test]
fn finding_n1_n2_at_various_intersections() {
    // shapes 0, 1 and 2: glass spheres of refractive index 1.5, 2.0 and 2.5
    let index = [1.5, 2.0, 2.5];
    let n = |m: Option<usize>| m.map_or(1.0, |o| index[o]);
    let xs = vec![
        Intersection::new(key(2.0), 0),
        Intersection::new(key(2.75), 1),
        Intersection::new(key(3.25), 2),
        Intersection::new(key(4.75), 1),
        Intersection::new(key(5.35), 2),
        Intersection::new(key(6.0), 0),
    ];
    let expected = vec![(1.0, 1.5), (1.5, 2.0), (2.0, 2.5), (2.5, 2.5), (2.5, 1.5), (1.5, 1.0)];
    for i in 0..5 {
        let (n1, n2) = Intersection::refraction_media(i, &xs);
        assert_eq!(expected[i].0, n(n1));
        assert_eq!(expected[i].1, n(n2));
    }
}

#[test]
fn refraction_media_at_the_last_exit() {
    let index = [1.5, 2.0, 2.5];
    let n = |m: Option<usize>| m.map_or(1.0, |o| index[o]);
    let xs = vec![
        Intersection::new(key(2.0), 0),
        Intersection::new(key(2.75), 1),
        Intersection::new(key(3.25), 2),
        Intersection::new(key(4.75), 1),
        Intersection::new(key(5.35), 2),
        Intersection::new(key(6.0), 0),
    ];
    let (n1, n2) = Intersection::refraction_media(5, &xs);
    assert_eq!((1.5, 1.0), (n(n1), n(n2)));
}

#[test]
fn refraction_media_of_one_sphere() {
    let xs = vec![Intersection::new(key(-1.0), 4), Intersection::new(key(1.0), 4)];
    assert_eq!((None, Some(4)), Intersection::refraction_media(0, &xs));
    assert_eq!((Some(4), None), Intersection::refraction_media(1, &xs));
}

#[test]
fn time_key_of_exact_values() {
    assert_eq!(0x3FF0_0000_0000_0000, time_key(1.0f64.to_bits()));
    assert_eq!(-0x3FF0_0000_0000_0000 - 1, time_key((-1.0f64).to_bits()));
    assert_eq!(i64::MIN, time_key(u64::MAX));
    assert_eq!(i64::MAX, time_key(0x7FFF_FFFF_FFFF_FFFF));
}

#[test]
fn time_order_sorts_by_parameter() {
    let ts = [52.0, 7.0, -3.0, 2.0];
    let xs: Vec<Intersection> = ts.iter().map(|t| Intersection::new(key(*t), 0)).collect();
    assert_eq!(vec![2, 3, 1, 0], Intersection::time_order(&xs));
}

#[test]
fn time_order_keeps_equal_parameters_in_place() {
    let xs = vec![
        Intersection::new(key(4.0), 0),
        Intersection::new(key(1.0), 1),
        Intersection::new(key(4.0), 2),
        Intersection::new(key(1.0), 3),
    ];
    assert_eq!(vec![1, 3, 0, 2], Intersection::time_order(&xs));
    assert!(Intersection::time_order(&vec![]).is_empty());
}

#[test]
fn hit_of_sorted_list_is_first_nonnegative() {
    let ts = [6.0, -1.0, 4.5, -0.5, 4.0];
    let xs: Vec<Intersection> = ts.iter().map(|t| Intersection::new(key(*t), 0)).collect();
    let sorted: Vec<Intersection> = Intersection::time_order(&xs).into_iter().map(|k| xs[k]).collect();
    let first = sorted.iter().position(|x| x.key >= 0);
    assert_eq!(first, Intersection::hit(&sorted));
    assert_eq!(Some(2), first);
}
