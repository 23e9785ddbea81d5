use rustic_ray::ppm_text;

fn ppm(width: usize, height: usize, channels: &Vec<u8>) -> String {
    String::from_utf8(ppm_text(width, height, channels)).unwrap()
}

#[test]
fn write_to_ppm() {
    let actual = ppm(5, 3, &vec![0; 45]);
    let split = actual.split("\n").collect::<Vec<_>>();
    assert_eq!("P3", split[0]);
    assert_eq!("5 3", split[1]);
    assert_eq!("255", split[2]);
}

#[test]
fn create_ppm_pixal_data() {
    let mut channels = vec![0u8; 45];
    // pixel (0, 0) red 255, pixel (2, 1) green 128, pixel (4, 2) blue 255
    channels[0] = 255;
    channels[3 * (5 + 2) + 1] = 128;
    channels[3 * (10 + 4) + 2] = 255;
    let actual = ppm(5, 3, &channels);
    let split = actual.split("\n").collect::<Vec<_>>();
    assert_eq!("255 0 0 0 0 0 0 0 0 0 0 0 0 0 0", split[3]);
    assert_eq!("0 0 0 0 0 0 0 128 0 0 0 0 0 0 0", split[4]);
    assert_eq!("0 0 0 0 0 0 0 0 0 0 0 0 0 0 255", split[5]);
}

#[test]
fn create_ppm_pixel_data_no_70() {
    let mut channels = Vec::new();
    for _ in 0..20 {
        channels.extend_from_slice(&[255, 204, 153]);
    }
    let actual = ppm(10, 2, &channels);
    let split = actual.split("\n").collect::<Vec<_>>();
    assert_eq!("255 204 153 255 204 153 255 204 153 255 204 153 255 204 153 255 204", split[3]);
    assert_eq!("153 255 204 153 255 204 153 255 204 153 255 204 153", split[4]);
    assert_eq!("255 204 153 255 204 153 255 204 153 255 204 153 255 204 153 255 204", split[5]);
    assert_eq!("153 255 204 153 255 204 153 255 204 153 255 204 153", split[6]);
}

#[test]
fn ppm_file_ends_with_a_newline() {
    let actual = ppm(1, 1, &vec![1, 22, 255]);
    assert_eq!("P3\n1 1\n255\n1 22 255\n\n", actual);
}

#[test]
fn ppm_of_empty_rows() {
    assert_eq!("P3\n0 2\n255\n\n\n\n", ppm(0, 2, &vec![]));
    assert_eq!("P3\n3 0\n255\n\n", ppm(3, 0, &vec![]));
}

#[test]
fn ppm_lines_stay_within_seventy_characters() {
    let channels: Vec<u8> = (0..300u32).map(|v| (v % 256) as u8).collect();
    let actual = ppm(100, 1, &channels);
    for line in actual.split("\n") {
        assert!(line.len() <= 70);
    }
}
