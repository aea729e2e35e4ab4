use plugin_doro::command::{is_group_admin, route_command, route_message, ParsedCommand, Request};

fn parsed(has_args: bool, args: &[&str]) -> Option<ParsedCommand> {
    Some(ParsedCommand { has_args, args: args.iter().map(|s| s.to_string()).collect() })
}

#[test]
fn keywords_ignore_surrounding_whitespace() {
    assert!(matches!(route_message("今日doro结局", None, "member"), Request::Today));
    assert!(matches!(route_message("  今日doro结局\n", None, ""), Request::Today));
    assert!(matches!(route_message("doro结局帮助 ", parsed(true, &["list"]), "member"), Request::Help));
    assert!(matches!(route_message("doro list", parsed(true, &["list"]), "admin"), Request::List));
    assert!(matches!(route_message("hello", None, "owner"), Request::Ignore));
}

#[test]
fn no_command_is_ignored() {
    assert!(matches!(route_command(None), Request::Ignore));
}

#[test]
fn bare_command_asks_for_today() {
    assert!(matches!(route_command(parsed(false, &[])), Request::Today));
}

#[test]
fn sub_commands_are_routed_with_their_arguments() {
    match route_command(parsed(true, &["add", "橘子", "Orange", "http://x/y.png"])) {
        Request::Add(a) => assert_eq!(a, vec!["橘子", "Orange", "http://x/y.png"]),
        _ => panic!(),
    }
    match route_command(parsed(true, &["remove", "3"])) {
        Request::Remove(a) => assert_eq!(a, vec!["3"]),
        _ => panic!(),
    }
    match route_command(parsed(true, &["update", "1", "2", "New"])) {
        Request::Update(a) => assert_eq!(a, vec!["1", "2", "New"]),
        _ => panic!(),
    }
    assert!(matches!(route_command(parsed(true, &["list"])), Request::List));
    assert!(matches!(route_command(parsed(true, &["help", "x"])), Request::Help));
}

#[test]
fn unknown_sub_command_asks_for_today() {
    assert!(matches!(route_command(parsed(true, &["whatever"])), Request::Today));
    assert!(matches!(route_command(parsed(true, &[])), Request::Today));
}

#[test]
fn administrator_commands_need_an_administrator() {
    let add = || parsed(true, &["add", "甲", "A"]);
    assert!(matches!(route_message("doro add 甲 A", add(), "member"), Request::Ignore));
    assert!(matches!(route_message("doro add 甲 A", add(), ""), Request::Ignore));
    assert!(matches!(route_message("doro add 甲 A", add(), "admin"), Request::Add(_)));
    assert!(matches!(route_message("doro add 甲 A", add(), "owner"), Request::Add(_)));
    for sub in ["remove", "update", "list"] {
        assert!(matches!(route_message("doro x", parsed(true, &[sub, "1"]), "member"), Request::Ignore));
    }
    // everyone may ask for today's ending and for help
    assert!(matches!(route_message("doro", parsed(false, &[]), "member"), Request::Today));
    assert!(matches!(route_message("doro help", parsed(true, &["help"]), "member"), Request::Help));
    assert!(is_group_admin("owner") && is_group_admin("admin") && !is_group_admin("member"));
}
