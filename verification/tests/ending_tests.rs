use plugin_doro::ending::{DoroData, DoroEnding, DoroEndingManager, DoroError};

fn ending(id: u64, name: &str, en: &str, pic: &str) -> DoroEnding {
    DoroEnding { id, name: name.to_string(), english_name: en.to_string(), pic: pic.to_string() }
}

fn manager_with(endings: Vec<DoroEnding>, max_id: u64) -> DoroEndingManager {
    let mut m = DoroEndingManager::new("data/doroendings.json", "data/pics");
    let total = endings.len();
    assert!(m.load(Some(DoroData { datas: endings, max_id, total })));
    m
}

#[test]
fn new_manager_is_empty() {
    let m = DoroEndingManager::new("a.json", "pics");
    assert_eq!(m.count(), 0);
    assert!(m.get_all().is_empty());
    assert_eq!(m.data_file(), "a.json");
    assert_eq!(m.pic_dir(), "pics");
    assert_eq!(m.max_id(), 0);
}

#[test]
fn load_none_keeps_catalogue() {
    let mut m = manager_with(vec![ending(1, "橘子", "OrangeEnd", "1.jpg")], 1);
    assert!(!m.load(None));
    assert_eq!(m.count(), 1);
}

#[test]
fn add_assigns_next_id_and_refuses_duplicate_english_name() {
    let mut m = DoroEndingManager::new("a.json", "pics");
    let e = m.add("橘子结局", "OrangeEnd", "").ok().unwrap();
    assert_eq!(e.id, 1);
    assert_eq!(e.name, "橘子结局");
    assert_eq!(e.pic, "");
    let e2 = m.add("赛跑结局", "RaceEnd", "00000002_RaceEnd.png").ok().unwrap();
    assert_eq!(e2.id, 2);
    assert_eq!(m.max_id(), 2);
    match m.add("别的", "OrangeEnd", "") {
        Err(err) => assert_eq!(err.message(), "英文名 'OrangeEnd' 已存在"),
        Ok(_) => panic!("duplicate english name accepted"),
    }
    assert_eq!(m.count(), 2);
    assert_eq!(m.max_id(), 2);
}

#[test]
fn next_id_follows_max_id() {
    let m = manager_with(vec![ending(3, "a", "A", "")], 7);
    assert!(matches!(m.next_id("B"), Ok(8)));
    assert!(matches!(m.next_id("A"), Err(DoroError::EnglishNameExists(_))));
}

#[test]
fn added_ending_is_found_by_its_id() {
    let mut m = manager_with(vec![ending(1, "a", "A", ""), ending(4, "b", "B", "")], 4);
    let e = m.add("c", "C", "p.gif").ok().unwrap();
    let found = m.get_by_id(e.id).unwrap();
    assert_eq!(found.english_name, "C");
    assert_eq!(found.pic, "p.gif");
}

#[test]
fn lookups_return_first_match() {
    let m = manager_with(
        vec![ending(1, "同名", "A", "a"), ending(2, "同名", "B", "b"), ending(2, "x", "C", "c")],
        2,
    );
    assert_eq!(m.get_by_name("同名").unwrap().id, 1);
    assert_eq!(m.get_by_id(2).unwrap().english_name, "B");
    assert!(m.get_by_id(9).is_none());
    assert!(m.get_by_name("无").is_none());
}

#[test]
fn remove_by_id_text_or_name() {
    let mut m = manager_with(
        vec![ending(1, "一", "One", "1.jpg"), ending(2, "二", "Two", ""), ending(3, "三", "Three", "")],
        3,
    );
    let r = m.remove("2").unwrap();
    assert_eq!(r.english_name, "Two");
    assert_eq!(m.max_id(), 3);
    let r = m.remove("三").unwrap();
    assert_eq!(r.id, 3);
    assert_eq!(m.max_id(), 1, "removing the largest id recomputes it");
    assert!(m.remove("四").is_none());
    assert!(m.remove("02").is_none(), "ids are matched by their decimal text");
    assert_eq!(m.count(), 1);
    let r = m.remove("1").unwrap();
    assert_eq!(r.pic, "1.jpg");
    assert_eq!(m.max_id(), 0);
}

#[test]
fn update_name_and_english_name() {
    let mut m = manager_with(vec![ending(1, "一", "One", ""), ending(2, "二", "Two", "")], 2);
    let e = m.update(1, "name", "壹").ok().unwrap();
    assert_eq!(e.name, "壹");
    assert_eq!(m.get_by_id(1).unwrap().name, "壹");
    let e = m.update(2, "english_name", "Deux").ok().unwrap();
    assert_eq!(e.english_name, "Deux");
    // keeping its own English name is allowed
    assert!(m.update(2, "english_name", "Deux").is_ok());
}

#[test]
fn update_refusals() {
    let mut m = manager_with(vec![ending(1, "一", "One", ""), ending(2, "二", "Two", "")], 2);
    match m.update(5, "name", "x") {
        Err(e) => assert_eq!(e.message(), "未找到 ID 为 5 的结局"),
        Ok(_) => panic!(),
    }
    match m.update(1, "english_name", "Two") {
        Err(e) => assert_eq!(e.message(), "英文名 'Two' 已存在"),
        Ok(_) => panic!(),
    }
    match m.update(1, "pic", "x") {
        Err(e) => assert_eq!(e.message(), "未知字段"),
        Ok(_) => panic!(),
    }
    // unknown field on a missing id reports the missing id first
    assert!(matches!(m.update(9, "pic", "x"), Err(DoroError::NotFound(9))));
    assert_eq!(m.get_by_id(1).unwrap().english_name, "One");
}

#[test]
fn snapshot_counts_endings() {
    let m = manager_with(vec![ending(1, "一", "One", ""), ending(5, "五", "Five", "")], 9);
    let d = m.snapshot();
    assert_eq!(d.total, 2);
    assert_eq!(d.max_id, 9);
    assert_eq!(d.datas[1].english_name, "Five");
}

#[test]
fn error_messages() {
    assert_eq!(DoroError::ImageSaveFailed("HTTP 请求失败: x".to_string()).message(), "图片保存失败: HTTP 请求失败: x");
    assert_eq!(DoroError::Storage("disk full".to_string()).message(), "disk full");
}

#[test]
fn picture_name_comes_from_new_id_english_name_and_bytes() {
    let m = DoroEndingManager::new("d.json", "p");
    let jpeg = vec![0xFF, 0xD8, 0xFF, 0xE0, 1, 2];
    assert_eq!(m.picture_file_name("Orange/End", &jpeg).ok().unwrap(), "00000001_Orange_End.jpg");
    let big = vec![0u8; 10 * 1024 * 1024 + 1];
    match m.picture_file_name("X", &big) {
        Err(e) => assert_eq!(e.message(), "图片保存失败: 图片过大 (超过10MB)"),
        Ok(_) => panic!(),
    }
}

#[test]
fn add_with_picture_commits_the_picture_name() {
    let mut m = DoroEndingManager::new("d.json", "p");
    let jpeg = vec![0xFF, 0xD8, 0xFF, 0xE0];
    let e = m.add_with_picture("橙子", "Orange/End", Some(Ok(jpeg))).ok().unwrap();
    assert_eq!(e.id, 1);
    assert_eq!(e.pic, "00000001_Orange_End.jpg");
    let e = m.add_with_picture("无图", "NoPic", None).ok().unwrap();
    assert_eq!((e.id, e.pic.as_str()), (2, ""));
    let png = vec![0x89, 0x50, 0x4E, 0x47];
    let e = m.add_with_picture("图", "Png", Some(Ok(png))).ok().unwrap();
    assert_eq!(e.pic, "00000003_Png.png");
}

#[test]
fn failed_picture_leaves_catalogue_unchanged() {
    let mut m = DoroEndingManager::new("d.json", "p");
    let _ = m.add("一", "One", "");
    match m.add_with_picture("二", "Two", Some(Err("HTTP 请求失败: 404".to_string()))) {
        Err(e) => assert_eq!(e.message(), "图片保存失败: HTTP 请求失败: 404"),
        Ok(_) => panic!(),
    }
    match m.add_with_picture("二", "Two", Some(Ok(vec![0u8; 10 * 1024 * 1024 + 1]))) {
        Err(e) => assert_eq!(e.message(), "图片保存失败: 图片过大 (超过10MB)"),
        Ok(_) => panic!(),
    }
    assert_eq!(m.count(), 1);
    assert_eq!(m.max_id(), 1);
    // the English name is checked before the picture
    match m.add_with_picture("再一", "One", Some(Err("x".to_string()))) {
        Err(e) => assert_eq!(e.message(), "英文名 'One' 已存在"),
        Ok(_) => panic!(),
    }
}
