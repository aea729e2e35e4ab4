use plugin_doro::date::jd_to_ymd;
use plugin_doro::ending::{DoroData, DoroEnding, DoroEndingManager};
use plugin_doro::image::detect_image_ext;
use plugin_doro::text::{parse_u64, u64_to_decimal};

fn english_names(m: &DoroEndingManager) -> Vec<String> {
    m.get_all().iter().map(|e| e.english_name.clone()).collect()
}

fn ids(m: &DoroEndingManager) -> Vec<u64> {
    m.get_all().iter().map(|e| e.id).collect()
}

fn all_distinct<T: PartialEq>(v: &[T]) -> bool {
    (0..v.len()).all(|i| (0..v.len()).all(|j| i == j || v[i] != v[j]))
}

#[test]
fn catalogue_operations_keep_names_and_ids_unique() {
    let mut m = DoroEndingManager::new("d.json", "pics");
    for (n, en) in [("一", "One"), ("二", "Two"), ("三", "Three"), ("重复", "Two")] {
        let _ = m.add(n, en, "");
    }
    let _ = m.update(1, "english_name", "Three");
    let _ = m.update(1, "english_name", "Uno");
    let _ = m.remove("3");
    let _ = m.add("四", "Four", "");
    let _ = m.remove("四");
    let _ = m.add("五", "Five", "");
    assert!(all_distinct(&english_names(&m)));
    assert!(all_distinct(&ids(&m)));
    assert!(ids(&m).iter().all(|&i| i <= m.max_id()));
    assert_eq!(english_names(&m), vec!["Uno", "Two", "Five"]);
    assert_eq!(ids(&m), vec![1, 2, 3]);
}

#[test]
fn added_ending_is_found_by_id_law() {
    let mut m = DoroEndingManager::new("d.json", "pics");
    m.load(Some(DoroData {
        datas: vec![DoroEnding { id: 5, name: "五".into(), english_name: "Five".into(), pic: "".into() }],
        max_id: 5,
        total: 1,
    }));
    let e = m.add("六", "Six", "6.png").ok().unwrap();
    assert_eq!(e.id, 6);
    assert_eq!(m.get_by_id(6).unwrap().english_name, "Six");
}

#[test]
fn snapshot_then_load_gives_the_catalogue_back() {
    let mut a = DoroEndingManager::new("a.json", "pa");
    let _ = a.add("一", "One", "1.jpg");
    let _ = a.add("二", "Two", "");
    let _ = a.remove("1");
    let mut b = DoroEndingManager::new("b.json", "pb");
    let _ = b.add("x", "X", "");
    assert!(b.load(Some(a.snapshot())));
    assert_eq!(english_names(&b), english_names(&a));
    assert_eq!(ids(&b), ids(&a));
    assert_eq!(b.max_id(), a.max_id());
    assert_eq!(b.data_file(), "b.json");
}

#[test]
fn every_picture_gets_a_known_extension() {
    let known = [".jpg", ".png", ".gif", ".webp", ".bmp"];
    let mut seed: u32 = 12345;
    for len in 0..40usize {
        let mut data = Vec::new();
        for _ in 0..len {
            seed = seed.wrapping_mul(1103515245).wrapping_add(12345);
            data.push((seed >> 16) as u8);
        }
        assert!(known.contains(&detect_image_ext(&data)));
    }
}

#[test]
fn months_and_days_are_in_range_and_dates_advance() {
    let mut prev = jd_to_ymd(2440588);
    for jd in 2440589i64..2440588 + 365 * 60 {
        let cur = jd_to_ymd(jd);
        assert!((1..=12).contains(&cur.1));
        let leap = (cur.0 % 4 == 0 && cur.0 % 100 != 0) || cur.0 % 400 == 0;
        let dim = match cur.1 { 2 => if leap { 29 } else { 28 }, 4 | 6 | 9 | 11 => 30, _ => 31 };
        assert!((1..=dim).contains(&cur.2));
        assert!(cur > prev);
        prev = cur;
    }
}

#[test]
fn decimal_text_parses_back() {
    for n in [0u64, 3, 10, 65535, 1 << 40, u64::MAX - 1] {
        assert_eq!(parse_u64(&u64_to_decimal(n)), Some(n));
    }
}
