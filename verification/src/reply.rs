//! The replies the plugin sends to a group, for each request.

use vstd::prelude::*;
use crate::text::{
    decimal, owned, concat2, concat3, str_eq, push_str_chars, u64_to_decimal, parse_u64,
    parse_u64_spec, lemma_parse_decimal_roundtrip,
};
use crate::ending::{
    DoroEnding, DoroEndingManager, DoroError, EndingModel, ManagerModel, after_update, update_applies,
    has_id, first_match, named_by, after_remove, endings_view, error_message, name_taken_message,
    not_found_message, lemma_first_match_found, id_is, updated_ending,
};
use crate::command::strings_view;

verus! {

// ── help ─────────────────────────────────────────────────────────

/// The help text.
pub open spec fn help_text() -> Seq<char> {
    "doro 结局指令列表：\n- 今日doro结局：获取今日的 doro 结局\n- doro结局帮助：查看本帮助\n- doro add <中文名> <英文名> [图片URL]：添加新结局\n- doro remove <ID或中文名>：删除结局\n- doro update <ID> <1|2> <新值>：修改结局\n- doro list：列出所有结局"@
}

/// The reply to a request for help.
pub fn send_help() -> (r: String)
    ensures
        r@ == help_text(),
{
    owned("doro 结局指令列表：\n- 今日doro结局：获取今日的 doro 结局\n- doro结局帮助：查看本帮助\n- doro add <中文名> <英文名> [图片URL]：添加新结局\n- doro remove <ID或中文名>：删除结局\n- doro update <ID> <1|2> <新值>：修改结局\n- doro list：列出所有结局")
}

// ── today ────────────────────────────────────────────────────────

/// A reply: a picture, by its path, or a text.
pub enum Reply {
    Image(String),
    Text(String),
}

/// The path of the picture file `pic` in the directory `dir`.
pub open spec fn pic_path(dir: Seq<char>, pic: Seq<char>) -> Seq<char> {
    dir + seq!['/'] + pic
}

/// The path of the picture file `pic` in the directory `dir`.
pub fn join_pic_path(dir: &str, pic: &str) -> (r: String)
    ensures
        r@ == pic_path(dir@, pic@),
{
    let mut r = owned(dir);
    r.push('/');
    push_str_chars(&mut r, pic);
    r
}

/// The reply to a request for today's ending: the picture of the ending
/// found, or a text saying there are no endings.
pub fn today_reply(pic_dir: &str, found: &Option<(u64, String)>) -> (r: Reply)
    ensures
        match found {
            Some((_, pic)) => r matches Reply::Image(p) && p@ == pic_path(pic_dir@, pic@),
            None => r matches Reply::Text(t) && t@ == "暂无doro结局数据"@,
        },
{
    match found {
        Some((_, pic)) => Reply::Image(join_pic_path(pic_dir, pic.as_str())),
        None => Reply::Text(owned("暂无doro结局数据")),
    }
}

// ── list ─────────────────────────────────────────────────────────

/// The line that lists one ending: `id. name (english_name)`.
pub open spec fn ending_line(e: EndingModel) -> Seq<char> {
    decimal(e.id as nat) + ". "@ + e.name + " ("@ + e.english_name + ")"@
}

/// The lines of `s`, each preceded by a line break.
pub open spec fn listed_lines(s: Seq<EndingModel>) -> Seq<char>
    decreases s.len(),
{
    if s.len() == 0 {
        Seq::empty()
    } else {
        listed_lines(s.drop_last()) + seq!['\n'] + ending_line(s.last())
    }
}

/// The reply to a request for the list: a heading and one line per ending,
/// or a text saying there are none.
pub open spec fn list_text(s: Seq<EndingModel>) -> Seq<char> {
    if s.len() == 0 {
        "当前没有任何doro结局数据！"@
    } else {
        "所有doro结局："@ + listed_lines(s)
    }
}

/// The reply to a request for the list of all endings.
pub fn cmd_list(endings: &DoroEndingManager) -> (r: String)
    ensures
        r@ == list_text(endings@.endings),
{
    let all = endings.get_all();
    let ghost s = endings@.endings;
    if all.len() == 0 {
        return owned("当前没有任何doro结局数据！");
    }
    let mut r = owned("所有doro结局：");
    let n = all.len();
    let mut i: usize = 0;
    while i < n
        invariant
            i <= n,
            n == s.len(),
            s == endings_view(all@),
            r@ == "所有doro结局："@ + listed_lines(s.take(i as int)),
        decreases n - i,
    {
        let e = &all[i];
        assert(e@ == s[i as int]);
        let ghost before = r@;
        r.push('\n');
        let id_text = u64_to_decimal(e.id);
        push_str_chars(&mut r, id_text.as_str());
        push_str_chars(&mut r, ". ");
        push_str_chars(&mut r, e.name.as_str());
        push_str_chars(&mut r, " (");
        push_str_chars(&mut r, e.english_name.as_str());
        push_str_chars(&mut r, ")");
        proof {
            let t = s.take(i + 1);
            assert(t.drop_last() =~= s.take(i as int));
            assert(t.last() == s[i as int]);
            assert(r@ =~= before + seq!['\n'] + ending_line(s[i as int]));
        }
        i = i + 1;
    }
    assert(s.take(n as int) =~= s);
    r
}

// ── failures ─────────────────────────────────────────────────────

/// The administrative commands.
pub enum Action {
    Add,
    Remove,
    Update,
}

/// The opening of the reply that reports a failed `action`.
pub open spec fn failure_prefix(action: Action) -> Seq<char> {
    match action {
        Action::Add => "添加失败: "@,
        Action::Remove => "删除失败: "@,
        Action::Update => "修改失败: "@,
    }
}

/// The reply that reports that `action` failed for the reason `detail`.
pub fn failed_reply(action: Action, detail: &str) -> (r: String)
    ensures
        r@ == failure_prefix(action) + detail@,
{
    match action {
        Action::Add => concat2("添加失败: ", detail),
        Action::Remove => concat2("删除失败: ", detail),
        Action::Update => concat2("修改失败: ", detail),
    }
}

// ── add ──────────────────────────────────────────────────────────

/// What `doro add` asks for: a usage text when the names are missing, or
/// the Chinese name, the English name and the picture URL, if any.
pub enum AddStep {
    Reply(String),
    Add { name: String, english_name: String, image_url: Option<String> },
}

/// The usage of `doro add`.
pub open spec fn add_usage() -> Seq<char> {
    "用法: doro add <中文名> <英文名> [图片URL]"@
}

/// Reads the arguments of `doro add`: the first two are the names, the
/// third, if present, the picture URL; further ones are ignored.
pub fn cmd_add(args: &[String]) -> (r: AddStep)
    ensures
        args@.len() < 2 ==> (r matches AddStep::Reply(t) && t@ == add_usage()),
        args@.len() >= 2 ==> (r matches AddStep::Add { name, english_name, image_url } && name@
            == args@[0]@ && english_name@ == args@[1]@ && (if args@.len() >= 3 {
            image_url matches Some(u) && u@ == args@[2]@
        } else {
            image_url is None
        })),
{
    if args.len() < 2 {
        return AddStep::Reply(owned("用法: doro add <中文名> <英文名> [图片URL]"));
    }
    let image_url = if args.len() >= 3 {
        Some(owned(args[2].as_str()))
    } else {
        None
    };
    AddStep::Add {
        name: owned(args[0].as_str()),
        english_name: owned(args[1].as_str()),
        image_url,
    }
}

/// The reply to `doro add`, from what adding gave.
pub fn add_reply(result: &Result<DoroEnding, DoroError>) -> (r: String)
    ensures
        match result {
            Ok(e) => r@ == "doro结局 '"@ + e.name@ + "' 添加成功！(ID: "@ + decimal(e.id as nat) + ")"@,
            Err(e) => r@ == failure_prefix(Action::Add) + error_message(*e),
        },
{
    match result {
        Ok(e) => {
            let mut r = concat3("doro结局 '", e.name.as_str(), "' 添加成功！(ID: ");
            let id_text = u64_to_decimal(e.id);
            push_str_chars(&mut r, id_text.as_str());
            push_str_chars(&mut r, ")");
            r
        },
        Err(e) => {
            let m = e.message();
            failed_reply(Action::Add, m.as_str())
        },
    }
}

// ── remove ───────────────────────────────────────────────────────

/// The outcome of `doro remove`: a reply, or the removed ending, whose
/// picture is to be deleted and after which the catalogue is to be stored.
pub enum RemoveStep {
    Reply(String),
    Removed(DoroEnding),
}

/// Carries out `doro remove <ID或中文名>` on the catalogue.
pub fn cmd_remove(endings: &mut DoroEndingManager, args: &[String]) -> (r: RemoveStep)
    ensures
        args@.len() == 0 ==> final(endings)@ == old(endings)@ && (r matches RemoveStep::Reply(t)
            && t@ == "用法: doro remove <ID或中文名>"@),
        args@.len() > 0 ==> final(endings)@ == after_remove(old(endings)@, args@[0]@),
        args@.len() > 0 ==> match first_match(old(endings)@.endings, named_by(args@[0]@)) {
            None => r matches RemoveStep::Reply(t) && t@ == "未找到指定的doro结局"@,
            Some(i) => r matches RemoveStep::Removed(e) && e@ == old(endings)@.endings[i],
        },
{
    if args.len() == 0 {
        return RemoveStep::Reply(owned("用法: doro remove <ID或中文名>"));
    }
    match endings.remove(args[0].as_str()) {
        Some(e) => RemoveStep::Removed(e),
        None => RemoveStep::Reply(owned("未找到指定的doro结局")),
    }
}

/// The reply after a removal, from whether storing the catalogue worked.
pub fn removed_reply(stored: &Result<(), String>) -> (r: String)
    ensures
        match stored {
            Ok(()) => r@ == "doro结局删除成功！"@,
            Err(e) => r@ == failure_prefix(Action::Remove) + e@,
        },
{
    match stored {
        Ok(()) => owned("doro结局删除成功！"),
        Err(e) => failed_reply(Action::Remove, e.as_str()),
    }
}

// ── update ───────────────────────────────────────────────────────

/// The field that the option of `doro update` chooses: `1`, `中文`,
/// `中文名` for the Chinese name, `2`, `英文`, `英文名`, `en` for the
/// English name.
pub open spec fn chosen_field(option: Seq<char>) -> Option<Seq<char>> {
    if option == "1"@ || option == "中文"@ || option == "中文名"@ {
        Some("name"@)
    } else if option == "2"@ || option == "英文"@ || option == "英文名"@ || option == "en"@ {
        Some("english_name"@)
    } else {
        None
    }
}

/// How the reply names the field.
pub open spec fn field_label(field: Seq<char>) -> Seq<char> {
    if field == "name"@ {
        "中文名"@
    } else {
        "英文名"@
    }
}

/// The outcome of `doro update`: a reply, or, when the ending was changed,
/// the changed ending and the reply to send once the catalogue has been stored.
pub enum UpdateStep {
    Reply(String),
    Updated { ending: DoroEnding, reply: String },
}

/// The usage of `doro update`.
pub open spec fn update_usage() -> Seq<char> {
    "用法: doro update <ID> <1(中文名)|2(英文名)> <新值>"@
}

/// The reply that reports a refused update of the ending `id`.
pub open spec fn update_refusal(m: ManagerModel, id: u64, value: Seq<char>) -> Seq<char> {
    failure_prefix(Action::Update) + if !has_id(m.endings, id) {
        not_found_message(id)
    } else {
        name_taken_message(value)
    }
}

fn choose_field(option: &str) -> (r: Option<&'static str>)
    ensures
        match chosen_field(option@) {
            Some(f) => r matches Some(x) && x@ == f,
            None => r is None,
        },
{
    if str_eq(option, "1") || str_eq(option, "中文") || str_eq(option, "中文名") {
        Some("name")
    } else if str_eq(option, "2") || str_eq(option, "英文") || str_eq(option, "英文名") || str_eq(
        option,
        "en",
    ) {
        Some("english_name")
    } else {
        None
    }
}

/// Carries out `doro update <ID> <1|2> <新值>` on the catalogue.
pub fn cmd_update(endings: &mut DoroEndingManager, args: &[String]) -> (r: UpdateStep)
    ensures
        ({
            let a = strings_view(args@);
            if a.len() < 3 {
                &&& r matches UpdateStep::Reply(t) && t@ == update_usage()
                &&& final(endings)@ == old(endings)@
            } else if parse_u64_spec(a[0]) is None {
                &&& r matches UpdateStep::Reply(t) && t@ == "ID 应为数字"@
                &&& final(endings)@ == old(endings)@
            } else if chosen_field(a[1]) is None {
                &&& r matches UpdateStep::Reply(t) && t@ == "无效选项，输入 1（中文名）或 2（英文名）"@
                &&& final(endings)@ == old(endings)@
            } else {
                let id = parse_u64_spec(a[0])->0;
                let field = chosen_field(a[1])->0;
                &&& final(endings)@ == after_update(old(endings)@, id, field, a[2])
                &&& update_applies(old(endings)@, id, field, a[2]) ==> (r matches UpdateStep::Updated {
                    ending,
                    reply: t,
                } && ending@ == updated_ending(old(endings)@, id, field, a[2]) && t@ == "修改成功！ID:"@
                    + decimal(id as nat) + " 新"@ + field_label(field) + ": "@ + a[2])
                &&& !update_applies(old(endings)@, id, field, a[2]) ==> (r matches UpdateStep::Reply(
                    t,
                ) && t@ == update_refusal(old(endings)@, id, a[2]))
            }
        }),
{
    let ghost a = strings_view(args@);
    if args.len() < 3 {
        return UpdateStep::Reply(owned("用法: doro update <ID> <1(中文名)|2(英文名)> <新值>"));
    }
    assert(a[0] == args@[0]@ && a[1] == args@[1]@ && a[2] == args@[2]@);
    let id = match parse_u64(args[0].as_str()) {
        Some(n) => n,
        None => {
            return UpdateStep::Reply(owned("ID 应为数字"));
        },
    };
    let field = match choose_field(args[1].as_str()) {
        Some(f) => f,
        None => {
            return UpdateStep::Reply(owned("无效选项，输入 1（中文名）或 2（英文名）"));
        },
    };
    proof {
        reveal_strlit("name");
        reveal_strlit("english_name");
        assert("name"@.len() == 4);
        assert("english_name"@.len() == 12);
    }
    let value = args[2].as_str();
    let ghost before = endings@;
    match endings.update(id, field, value) {
        Ok(e) => {
            proof {
                lemma_first_match_found(before.endings, id_is(id));
            }
            let mut t = owned("修改成功！ID:");
            let id_text = u64_to_decimal(e.id);
            push_str_chars(&mut t, id_text.as_str());
            push_str_chars(&mut t, " 新");
            if str_eq(field, "name") {
                push_str_chars(&mut t, "中文名");
            } else {
                push_str_chars(&mut t, "英文名");
            }
            push_str_chars(&mut t, ": ");
            push_str_chars(&mut t, value);
            UpdateStep::Updated { ending: e, reply: t }
        },
        Err(e) => {
            let m = e.message();
            UpdateStep::Reply(failed_reply(Action::Update, m.as_str()))
        },
    }
}


// ── laws of the replies ──────────────────────────────────────────

/// The lines of `a + b` are those of `a` followed by those of `b`.
proof fn lemma_listed_lines_append(a: Seq<EndingModel>, b: Seq<EndingModel>)
    ensures
        listed_lines(a + b) == listed_lines(a) + listed_lines(b),
    decreases b.len(),
{
    if b.len() == 0 {
        assert(a + b =~= a);
        assert(listed_lines(a) + listed_lines(b) =~= listed_lines(a));
    } else {
        lemma_listed_lines_append(a, b.drop_last());
        assert((a + b).drop_last() =~= a + b.drop_last());
        assert((a + b).last() == b.last());
        assert(listed_lines(a + b) =~= listed_lines(a) + listed_lines(b));
    }
}

/// Law: the list shows every ending, in catalogue order, on a line of its
/// own that starts with the ending's id (which reads back as that id), then
/// `. `, its Chinese name and its English name in brackets; the `k`-th line
/// follows the heading and the `k` lines before it.
pub proof fn lemma_list_shows_ids(s: Seq<EndingModel>, k: int)
    requires
        0 <= k < s.len(),
    ensures
        exists|rest: Seq<char>|
            list_text(s) == "所有doro结局："@ + listed_lines(s.take(k)) + seq!['\n'] + decimal(
                s[k].id as nat,
            ) + ". "@ + s[k].name + " ("@ + s[k].english_name + ")"@ + rest,
        parse_u64_spec(decimal(s[k].id as nat)) == Some(s[k].id),
        list_text(Seq::<EndingModel>::empty()) == "当前没有任何doro结局数据！"@,
{
    lemma_parse_decimal_roundtrip(s[k].id);
    let t = s.take(k + 1);
    let u = s.skip(k + 1);
    assert(t + u =~= s);
    lemma_listed_lines_append(t, u);
    assert(t.drop_last() =~= s.take(k));
    assert(t.last() == s[k]);
    let rest = listed_lines(u);
    assert(list_text(s) =~= "所有doro结局："@ + listed_lines(s.take(k)) + seq!['\n'] + decimal(
        s[k].id as nat,
    ) + ". "@ + s[k].name + " ("@ + s[k].english_name + ")"@ + rest);
}

/// Law: the option of `doro update` picks the Chinese name for `1`, `中文`
/// and `中文名`, the English name for `2`, `英文`, `英文名` and `en`, and
/// nothing for any other text; an update that goes through gives the chosen
/// name the new value and keeps the ending's other name, id and picture.
pub proof fn lemma_update_options(m: ManagerModel, id: u64, option: Seq<char>, value: Seq<char>)
    ensures
        chosen_field(option) == Some("name"@) <==> (option == "1"@ || option == "中文"@ || option
            == "中文名"@),
        chosen_field(option) == Some("english_name"@) <==> (option == "2"@ || option == "英文"@
            || option == "英文名"@ || option == "en"@),
        chosen_field(option) is None <==> !(option == "1"@ || option == "中文"@ || option
            == "中文名"@ || option == "2"@ || option == "英文"@ || option == "英文名"@ || option
            == "en"@),
        chosen_field(option) is Some && update_applies(m, id, chosen_field(option)->0, value) ==> {
            let old_e = m.endings[first_match(m.endings, id_is(id))->0];
            let e = updated_ending(m, id, chosen_field(option)->0, value);
            &&& e.id == old_e.id
            &&& e.pic == old_e.pic
            &&& (option == "1"@ || option == "中文"@ || option == "中文名"@) ==> e.name == value
                && e.english_name == old_e.english_name
            &&& (option == "2"@ || option == "英文"@ || option == "英文名"@ || option == "en"@)
                ==> e.english_name == value && e.name == old_e.name
        },
        (option == "1"@ || option == "中文"@ || option == "中文名"@) ==> field_label(
            chosen_field(option)->0,
        ) == "中文名"@,
        (option == "2"@ || option == "英文"@ || option == "英文名"@ || option == "en"@) ==> field_label(
            chosen_field(option)->0,
        ) == "英文名"@,
{
    reveal_strlit("name");
    reveal_strlit("english_name");
    reveal_strlit("1");
    reveal_strlit("2");
    reveal_strlit("中文");
    reveal_strlit("中文名");
    reveal_strlit("英文");
    reveal_strlit("英文名");
    reveal_strlit("en");
    assert("name"@ != "english_name"@) by {
        assert("name"@.len() != "english_name"@.len());
    }
    assert("1"@ != "2"@) by {
        assert("1"@[0] != "2"@[0]);
    }
    assert("中文"@ != "英文"@ && "中文"@ != "en"@) by {
        assert("中文"@[0] != "英文"@[0] && "中文"@[0] != "en"@[0]);
    }
    assert("中文名"@ != "英文名"@) by {
        assert("中文名"@[0] != "英文名"@[0]);
    }
    if chosen_field(option) is Some && update_applies(m, id, chosen_field(option)->0, value) {
        lemma_first_match_found(m.endings, id_is(id));
    }
}

} // verus!
