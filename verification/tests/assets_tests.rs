use plugin_doro::assets::{
    check_source_download, data_file_url, first_asset_step, keep_existing_file, listing_url,
    next_asset_step, plan_listing_entry, read_data_file, read_listing, scan_root_listing,
    scan_root_text, AssetSource, AssetStep, EntryPlan, ListingEntry,
};

fn entry(name: Option<&str>, kind: Option<&str>, dl: bool) -> ListingEntry {
    ListingEntry { name: name.map(String::from), kind: kind.map(String::from), has_download_url: dl }
}

#[test]
fn github_first_then_gitee() {
    assert!(matches!(first_asset_step(), AssetStep::Try(AssetSource::Github)));
    match next_asset_step(AssetSource::Github, Ok(Some("{\"max_id\": 3}".to_string()))) {
        AssetStep::Done(r) => {
            assert!(r.success);
            assert_eq!(r.message, "下载完成");
            assert_eq!(r.source.label(), "github");
            assert_eq!(r.json_data.unwrap(), "{\"max_id\": 3}");
        },
        _ => panic!(),
    }
    assert!(matches!(
        next_asset_step(AssetSource::Github, Err("timeout".into())),
        AssetStep::Try(AssetSource::Gitee)
    ));
    match next_asset_step(AssetSource::Gitee, Ok(None)) {
        AssetStep::Done(r) => {
            assert!(r.success);
            assert_eq!(r.source.label(), "gitee");
            assert!(r.json_data.is_none());
        },
        _ => panic!(),
    }
    match next_asset_step(AssetSource::Gitee, Err("404".into())) {
        AssetStep::Done(r) => {
            assert!(!r.success);
            assert_eq!(r.message, "下载失败: 404");
            assert_eq!(r.source.label(), "gitee");
            assert!(r.json_data.is_none());
        },
        _ => panic!(),
    }
}

#[test]
fn urls() {
    assert_eq!(
        listing_url(&AssetSource::Github, "DoroEndingPic"),
        "https://api.github.com/repos/SeeWhyRan/doroending_pic_assets/contents/DoroEndingPic"
    );
    assert_eq!(
        data_file_url(&AssetSource::Gitee),
        "https://gitee.com/seewhy_ran/doroending_pic_assets/raw/main/doroendings.json"
    );
}

#[test]
fn root_scan() {
    let items = vec![
        entry(Some("README.md"), Some("file"), true),
        entry(Some("DoroEndingPic"), Some("dir"), false),
        entry(Some("doroendings.json"), Some("file"), true),
    ];
    let r = scan_root_listing(&items);
    assert!(r.has_pic && r.has_json);
    let r = scan_root_listing(&[entry(Some("DoroEndingPic"), Some("file"), true)]);
    assert!(!r.has_pic && !r.has_json);
}

#[test]
fn listing_entries() {
    let raw = "https://raw/main";
    match plan_listing_entry(raw, "DoroEndingPic", &entry(Some("a.jpg"), Some("file"), true)) {
        EntryPlan::File { url, name } => {
            assert_eq!(url, "https://raw/main/DoroEndingPic/a.jpg");
            assert_eq!(name, "a.jpg");
        },
        _ => panic!(),
    }
    match plan_listing_entry(raw, "DoroEndingPic", &entry(Some("sub"), Some("dir"), false)) {
        EntryPlan::Dir { api_path, name } => {
            assert_eq!(api_path, "DoroEndingPic/sub");
            assert_eq!(name, "sub");
        },
        _ => panic!(),
    }
    assert!(matches!(
        plan_listing_entry(raw, "p", &entry(Some("l"), Some("symlink"), false)),
        EntryPlan::Skip
    ));
    match plan_listing_entry(raw, "p", &entry(None, None, true)) {
        EntryPlan::File { url, .. } => assert_eq!(url, "https://raw/main/p/"),
        _ => panic!(),
    }
}

#[test]
fn existing_files_and_verdicts() {
    assert!(keep_existing_file(true, 101));
    assert!(!keep_existing_file(true, 100));
    assert!(!keep_existing_file(false, 5000));
    let data = || Some("{}".to_string());
    assert_eq!(check_source_download(true, data(), false, true, false).err().unwrap(), "JSON 文件下载失败");
    assert_eq!(check_source_download(true, data(), true, true, false).err().unwrap(), "图片目录下载失败");
    assert_eq!(check_source_download(false, None, false, false, false).ok().unwrap(), None);
    assert_eq!(check_source_download(true, data(), true, true, true).ok().unwrap(), data());
    assert_eq!(check_source_download(false, data(), false, true, true).ok().unwrap(), None);
}

#[test]
fn root_scan_from_listing_text() {
    let text = r#"[
        {"name": "README.md", "type": "file", "download_url": "https://x/README.md"},
        {"name": "DoroEndingPic", "type": "dir", "download_url": null},
        {"name": "doroendings.json", "type": "file"}
    ]"#;
    let r = scan_root_text(text).ok().unwrap();
    assert!(r.has_pic && r.has_json);
    let r = scan_root_text(r#"[{"name": "DoroEndingPic", "type": "file"}]"#).ok().unwrap();
    assert!(!r.has_pic && !r.has_json);
    assert!(scan_root_text(r#"{"message": "Not Found"}"#).is_err());
    assert!(scan_root_text("not json").is_err());
}

#[test]
fn listing_text_items() {
    let items = read_listing(r#"[{"name": "a.jpg", "type": "file", "download_url": null}, {"name": 3}]"#)
        .ok()
        .unwrap();
    assert_eq!(items.len(), 2);
    assert_eq!(items[0].name.as_deref(), Some("a.jpg"));
    assert_eq!(items[0].kind.as_deref(), Some("file"));
    assert!(items[0].has_download_url);
    assert_eq!(items[1].name, None);
    assert_eq!(items[1].kind, None);
    assert!(!items[1].has_download_url);
    assert!(read_listing("[").is_err());
}

#[test]
fn data_file_must_be_json() {
    assert_eq!(read_data_file("{\"max_id\": 3}".to_string()).ok().unwrap(), "{\"max_id\": 3}");
    let e = read_data_file("{\"max_id\": ".to_string()).err().unwrap();
    assert!(!e.is_empty());
    assert_ne!(e, "{\"max_id\": ");
}
