use shotori::export::{candidate_name, decimal_string, encode_png, suggested_name, suggested_name_for};

/// 4×3 gradient: pixel (x, y) = (x, y, 0, 255).
fn gradient_4x3() -> (u32, u32, Vec<u8>) {
    let (w, h) = (4u32, 3u32);
    let mut rgba = vec![0u8; (w * h * 4) as usize];
    for y in 0..h {
        for x in 0..w {
            let i = ((y * w + x) * 4) as usize;
            rgba[i] = x as u8;
            rgba[i + 1] = y as u8;
            rgba[i + 3] = 255;
        }
    }
    (w, h, rgba)
}

#[test]
fn png_encodes_and_reads_back() {
    let (w, h, rgba) = gradient_4x3();
    let bytes = encode_png(w, h, &rgba).unwrap();
    assert_eq!(&bytes[..8], &[137, 80, 78, 71, 13, 10, 26, 10]);
    let img = image::load_from_memory(&bytes).unwrap().to_rgba8();
    assert_eq!(img.dimensions(), (w, h));
    assert_eq!(img.get_pixel(2, 1).0, [2, 1, 0, 255]);
}

#[test]
fn png_refuses_empty_or_mismatched_images() {
    let (w, h, rgba) = gradient_4x3();
    assert!(encode_png(0, h, &[]).is_err());
    assert!(encode_png(w, 0, &[]).is_err());
    assert!(encode_png(w, h, &rgba[..rgba.len() - 4]).is_err());
}

#[test]
fn file_names_collide_into_numbered_suffixes() {
    assert_eq!(candidate_name("Shotori_t", 1), "Shotori_t.png");
    assert_eq!(candidate_name("Shotori_t", 2), "Shotori_t_2.png");
    assert_eq!(candidate_name("Shotori_t", 3), "Shotori_t_3.png");
    assert_eq!(candidate_name("Shotori_t", 10), "Shotori_t_10.png");
}

#[test]
fn decimal_spelling() {
    assert_eq!(decimal_string(0), "0");
    assert_eq!(decimal_string(7), "7");
    assert_eq!(decimal_string(1234567890), "1234567890");
    assert_eq!(decimal_string(u64::MAX), u64::MAX.to_string());
}

#[test]
fn suggested_names_wrap_the_stamp() {
    assert_eq!(
        suggested_name_for("2026-09-26_18-40-12_789"),
        "Shotori_2026-09-26_18-40-12_789.png"
    );
    let n = suggested_name();
    assert!(n.starts_with("Shotori_") && n.ends_with(".png"));
    assert_eq!(n.len(), "Shotori_2026-09-26_18-40-12_789.png".len());
    // the stamp is YYYY-MM-DD_HH-MM-SS_mmm
    let stamp: Vec<char> = n["Shotori_".len()..n.len() - ".png".len()].chars().collect();
    for (i, c) in stamp.iter().enumerate() {
        match i {
            4 | 7 | 13 | 16 => assert_eq!(*c, '-'),
            10 | 19 => assert_eq!(*c, '_'),
            _ => assert!(c.is_ascii_digit(), "{c} at {i}"),
        }
    }
}
