use plugin_doro::image::{detect_image_ext, image_base_name, image_file_name, safe_file_stem};

#[test]
fn detects_known_signatures() {
    assert_eq!(detect_image_ext(&[0xFF, 0xD8, 0xFF, 0xE0]), ".jpg");
    assert_eq!(detect_image_ext(&[0x89, 0x50, 0x4E, 0x47, 0x0D]), ".png");
    assert_eq!(detect_image_ext(b"GIF89a"), ".gif");
    assert_eq!(detect_image_ext(b"RIFF\x00\x00\x00\x00WEBPVP8 "), ".webp");
    assert_eq!(detect_image_ext(b"BM\x00\x00"), ".bmp");
}

#[test]
fn unknown_or_short_data_counts_as_jpeg() {
    assert_eq!(detect_image_ext(&[]), ".jpg");
    assert_eq!(detect_image_ext(b"BM"), ".jpg");
    assert_eq!(detect_image_ext(b"RIFF\x00\x00\x00\x00WEB"), ".jpg");
    assert_eq!(detect_image_ext(b"RIFF\x00\x00\x00\x00AVI "), ".jpg");
    assert_eq!(detect_image_ext(b"hello"), ".jpg");
}

#[test]
fn stem_replaces_forbidden_characters_and_truncates() {
    assert_eq!(safe_file_stem(r#"a<b>c:d"e/f\g|h?i*j"#), "a_b_c_d_e_f_g_h_i_j");
    let long: String = "x".repeat(60);
    assert_eq!(safe_file_stem(&long).chars().count(), 50);
    assert_eq!(safe_file_stem("结局名"), "结局名");
}

#[test]
fn base_name_pads_id() {
    assert_eq!(image_base_name(1, "OrangeEnd"), "00000001_OrangeEnd");
    assert_eq!(image_base_name(123456789, "A/B"), "123456789_A_B");
}

#[test]
fn file_name_takes_extension_and_refuses_large_pictures() {
    let f = image_file_name("00000003_X", &[0x89, 0x50, 0x4E, 0x47]).ok().unwrap();
    assert_eq!(f, "00000003_X.png");
    let big = vec![0u8; 10 * 1024 * 1024 + 1];
    match image_file_name("b", &big) {
        Err(e) => assert_eq!(e.message(), "图片过大 (超过10MB)"),
        Ok(_) => panic!("oversized picture accepted"),
    }
    let limit = vec![0u8; 10 * 1024 * 1024];
    assert_eq!(image_file_name("b", &limit).ok().unwrap(), "b.jpg");
}
