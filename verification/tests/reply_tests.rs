use plugin_doro::ending::{DoroData, DoroEnding, DoroEndingManager, DoroError};
use plugin_doro::reply::{
    add_reply, cmd_add, cmd_list, cmd_remove, cmd_update, failed_reply, join_pic_path, removed_reply,
    send_help, today_reply, Action, AddStep, RemoveStep, Reply, UpdateStep,
};

fn args(v: &[&str]) -> Vec<String> {
    v.iter().map(|s| s.to_string()).collect()
}

fn catalogue() -> DoroEndingManager {
    let mut m = DoroEndingManager::new("d.json", "pics");
    let datas = vec![
        DoroEnding { id: 1, name: "橘子结局".into(), english_name: "OrangeEnd".into(), pic: "00000001_OrangeEnd.jpg".into() },
        DoroEnding { id: 2, name: "赛跑结局".into(), english_name: "RaceEnd".into(), pic: "".into() },
    ];
    m.load(Some(DoroData { datas, max_id: 2, total: 2 }));
    m
}

#[test]
fn help_lists_every_command() {
    let h = send_help();
    assert!(h.starts_with("doro 结局指令列表：\n"));
    assert!(h.ends_with("- doro list：列出所有结局"));
    assert_eq!(h.lines().count(), 7);
}

#[test]
fn today_reply_sends_picture_or_text() {
    match today_reply("data/pics", &Some((1, "a.jpg".to_string()))) {
        Reply::Image(p) => assert_eq!(p, "data/pics/a.jpg"),
        _ => panic!(),
    }
    match today_reply("data/pics", &None) {
        Reply::Text(t) => assert_eq!(t, "暂无doro结局数据"),
        _ => panic!(),
    }
    assert_eq!(join_pic_path("a", "b"), "a/b");
}

#[test]
fn list_shows_each_ending() {
    assert_eq!(cmd_list(&catalogue()), "所有doro结局：\n1. 橘子结局 (OrangeEnd)\n2. 赛跑结局 (RaceEnd)");
    let empty = DoroEndingManager::new("d.json", "pics");
    assert_eq!(cmd_list(&empty), "当前没有任何doro结局数据！");
}

#[test]
fn add_reads_its_arguments() {
    match cmd_add(&args(&["橘子"])) {
        AddStep::Reply(t) => assert_eq!(t, "用法: doro add <中文名> <英文名> [图片URL]"),
        _ => panic!(),
    }
    match cmd_add(&args(&["橘子", "Orange"])) {
        AddStep::Add { name, english_name, image_url } => {
            assert_eq!(name, "橘子");
            assert_eq!(english_name, "Orange");
            assert!(image_url.is_none());
        },
        _ => panic!(),
    }
    match cmd_add(&args(&["橘子", "Orange", "http://u", "extra"])) {
        AddStep::Add { image_url, .. } => assert_eq!(image_url.unwrap(), "http://u"),
        _ => panic!(),
    }
}

#[test]
fn add_replies() {
    let mut m = catalogue();
    let r = m.add("新结局", "NewEnd", "");
    assert_eq!(add_reply(&r), "doro结局 '新结局' 添加成功！(ID: 3)");
    let r = m.add("重复", "NewEnd", "");
    assert_eq!(add_reply(&r), "添加失败: 英文名 'NewEnd' 已存在");
    let failed: Result<DoroEnding, DoroError> = Err(DoroError::ImageSaveFailed("图片过大 (超过10MB)".into()));
    assert_eq!(add_reply(&failed), "添加失败: 图片保存失败: 图片过大 (超过10MB)");
}

#[test]
fn remove_flow() {
    let mut m = catalogue();
    match cmd_remove(&mut m, &args(&[])) {
        RemoveStep::Reply(t) => assert_eq!(t, "用法: doro remove <ID或中文名>"),
        _ => panic!(),
    }
    match cmd_remove(&mut m, &args(&["不存在"])) {
        RemoveStep::Reply(t) => assert_eq!(t, "未找到指定的doro结局"),
        _ => panic!(),
    }
    match cmd_remove(&mut m, &args(&["橘子结局"])) {
        RemoveStep::Removed(e) => assert_eq!(e.pic, "00000001_OrangeEnd.jpg"),
        _ => panic!(),
    }
    assert_eq!(m.count(), 1);
    assert_eq!(removed_reply(&Ok(())), "doro结局删除成功！");
    assert_eq!(removed_reply(&Err("disk full".to_string())), "删除失败: disk full");
}

#[test]
fn update_flow() {
    let mut m = catalogue();
    let expect_reply = |s: UpdateStep, t: &str| match s {
        UpdateStep::Reply(x) => assert_eq!(x, t),
        UpdateStep::Updated { reply, .. } => panic!("unexpected update: {}", reply),
    };
    expect_reply(cmd_update(&mut m, &args(&["1", "1"])), "用法: doro update <ID> <1(中文名)|2(英文名)> <新值>");
    expect_reply(cmd_update(&mut m, &args(&["x", "1", "a"])), "ID 应为数字");
    expect_reply(cmd_update(&mut m, &args(&["1", "3", "a"])), "无效选项，输入 1（中文名）或 2（英文名）");
    expect_reply(cmd_update(&mut m, &args(&["9", "中文", "a"])), "修改失败: 未找到 ID 为 9 的结局");
    expect_reply(cmd_update(&mut m, &args(&["1", "en", "RaceEnd"])), "修改失败: 英文名 'RaceEnd' 已存在");
    match cmd_update(&mut m, &args(&["+1", "中文名", "甜橙结局"])) {
        UpdateStep::Updated { ending, reply } => {
            assert_eq!(reply, "修改成功！ID:1 新中文名: 甜橙结局");
            assert_eq!(ending.name, "甜橙结局");
        },
        _ => panic!(),
    }
    match cmd_update(&mut m, &args(&["2", "英文", "Race"])) {
        UpdateStep::Updated { reply, .. } => assert_eq!(reply, "修改成功！ID:2 新英文名: Race"),
        _ => panic!(),
    }
    assert_eq!(m.get_by_id(1).unwrap().name, "甜橙结局");
    assert_eq!(m.get_by_id(2).unwrap().english_name, "Race");
}

#[test]
fn listed_id_can_be_used_to_update() {
    let mut m = catalogue();
    let line = cmd_list(&m);
    let id_text = line.lines().nth(2).unwrap().split('.').next().unwrap().to_string();
    match cmd_update(&mut m, &args(&[&id_text, "1", "改"])) {
        UpdateStep::Updated { reply, .. } => assert_eq!(reply, "修改成功！ID:2 新中文名: 改"),
        _ => panic!(),
    }
}

#[test]
fn failure_replies() {
    assert_eq!(failed_reply(Action::Add, "e"), "添加失败: e");
    assert_eq!(failed_reply(Action::Remove, "e"), "删除失败: e");
    assert_eq!(failed_reply(Action::Update, "e"), "修改失败: e");
}
