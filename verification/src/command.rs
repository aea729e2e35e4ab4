//! Group-message commands: which request a message makes.

use vstd::prelude::*;
use crate::text::{str_eq, trimmed, trimmed_equals};

verus! {

// ── parsing the command ──────────────────────────────────────────

/// A message parsed as the `doro` command (by the bot SDK's command parser,
/// with no prefix character): whether it has arguments after the command
/// name, and the arguments.
pub struct ParsedCommand {
    pub has_args: bool,
    pub args: Vec<String>,
}

/// The models of a list of strings.
pub open spec fn strings_view(v: Seq<String>) -> Seq<Seq<char>> {
    v.map_values(|s: String| s@)
}

/// What a group message asks for; the vectors hold the arguments after the
/// sub-command.
pub enum Request {
    /// Not for this plugin.
    Ignore,
    /// Today's ending of the sender.
    Today,
    /// The help text.
    Help,
    Add(Vec<String>),
    Remove(Vec<String>),
    Update(Vec<String>),
    List,
}

/// The mathematical value of a [`Request`].
pub enum RequestModel {
    Ignore,
    Today,
    Help,
    Add(Seq<Seq<char>>),
    Remove(Seq<Seq<char>>),
    Update(Seq<Seq<char>>),
    List,
}

impl View for Request {
    type V = RequestModel;

    open spec fn view(&self) -> RequestModel {
        match self {
            Request::Ignore => RequestModel::Ignore,
            Request::Today => RequestModel::Today,
            Request::Help => RequestModel::Help,
            Request::Add(a) => RequestModel::Add(strings_view(a@)),
            Request::Remove(a) => RequestModel::Remove(strings_view(a@)),
            Request::Update(a) => RequestModel::Update(strings_view(a@)),
            Request::List => RequestModel::List,
        }
    }
}

/// The keyword that asks for today's ending.
pub open spec fn today_keyword() -> Seq<char> {
    "今日doro结局"@
}

/// The keyword that asks for the help text.
pub open spec fn help_keyword() -> Seq<char> {
    "doro结局帮助"@
}

/// The request that a parsed `doro` command makes: none when the message is
/// no such command; today's ending when it has no arguments; else the
/// sub-command named by the first argument, with the arguments after it,
/// and today's ending for any other first argument.
pub open spec fn command_request(parsed: Option<(bool, Seq<Seq<char>>)>) -> RequestModel {
    match parsed {
        None => RequestModel::Ignore,
        Some((has_args, args)) => if !has_args {
            RequestModel::Today
        } else if args.len() > 0 && args[0] == "add"@ {
            RequestModel::Add(args.drop_first())
        } else if args.len() > 0 && args[0] == "remove"@ {
            RequestModel::Remove(args.drop_first())
        } else if args.len() > 0 && args[0] == "update"@ {
            RequestModel::Update(args.drop_first())
        } else if args.len() > 0 && args[0] == "list"@ {
            RequestModel::List
        } else if args.len() > 0 && args[0] == "help"@ {
            RequestModel::Help
        } else {
            RequestModel::Today
        },
    }
}

/// Whether `r` is one of the administrators' requests: adding, removing,
/// changing and listing endings.
pub open spec fn admin_only(r: RequestModel) -> bool {
    r is Add || r is Remove || r is Update || r is List
}

/// Whether a group member with role `role` administers the group: the
/// owner and the administrators do.
pub open spec fn is_admin_role(role: Seq<char>) -> bool {
    role == "owner"@ || role == "admin"@
}

/// Whether a group member with role `role` administers the group.
pub fn is_group_admin(role: &str) -> (r: bool)
    ensures
        r == is_admin_role(role@),
{
    str_eq(role, "owner") || str_eq(role, "admin")
}

/// The model of a parsed command.
pub open spec fn parsed_view(parsed: Option<ParsedCommand>) -> Option<(bool, Seq<Seq<char>>)> {
    match parsed {
        Some(c) => Some((c.has_args, strings_view(c.args@))),
        None => None,
    }
}

/// The request that the group message `msg` makes, `parsed` being what it
/// parses as as a `doro` command and `admin` whether its sender administers
/// the group: the two keywords, with surrounding whitespace ignored, ask for
/// today's ending and for help; anything else goes by the command, except
/// that the administrators' requests from anyone else are ignored.
pub open spec fn message_request(
    msg: Seq<char>,
    parsed: Option<(bool, Seq<Seq<char>>)>,
    admin: bool,
) -> RequestModel {
    if trimmed(msg) == today_keyword() {
        RequestModel::Today
    } else if trimmed(msg) == help_keyword() {
        RequestModel::Help
    } else if admin_only(command_request(parsed)) && !admin {
        RequestModel::Ignore
    } else {
        command_request(parsed)
    }
}

fn tail_of(args: &Vec<String>) -> (r: Vec<String>)
    requires
        args@.len() > 0,
    ensures
        strings_view(r@) == strings_view(args@).drop_first(),
{
    let mut r: Vec<String> = Vec::new();
    let n = args.len();
    let mut i: usize = 1;
    while i < n
        invariant
            1 <= i <= n,
            n == args@.len(),
            strings_view(r@) == strings_view(args@).subrange(1, i as int),
        decreases n - i,
    {
        let item = args[i].clone();
        assert(item@ == strings_view(args@)[i as int]);
        let ghost before = r@;
        r.push(item);
        assert(strings_view(r@) =~= strings_view(before).push(item@));
        i = i + 1;
        assert(strings_view(r@) =~= strings_view(args@).subrange(1, i as int));
    }
    assert(strings_view(args@).subrange(1, n as int) =~= strings_view(args@).drop_first());
    r
}

/// The request that a parsed `doro` command makes.
pub fn route_command(parsed: Option<ParsedCommand>) -> (r: Request)
    ensures
        r@ == command_request(parsed_view(parsed)),
{
    match parsed {
        None => Request::Ignore,
        Some(c) => {
            if !c.has_args {
                return Request::Today;
            }
            let ghost a = strings_view(c.args@);
            if c.args.len() == 0 {
                return Request::Today;
            }
            assert(a[0] == c.args@[0]@);
            let first = c.args[0].as_str();
            if str_eq(first, "add") {
                Request::Add(tail_of(&c.args))
            } else if str_eq(first, "remove") {
                Request::Remove(tail_of(&c.args))
            } else if str_eq(first, "update") {
                Request::Update(tail_of(&c.args))
            } else if str_eq(first, "list") {
                Request::List
            } else if str_eq(first, "help") {
                Request::Help
            } else {
                Request::Today
            }
        },
    }
}

/// The request that the group message `msg` makes, `parsed` being what it
/// parses as as a `doro` command and `sender_role` the group role of its
/// sender (`owner`, `admin`, `member`, or empty when unknown).
pub fn route_message(msg: &str, parsed: Option<ParsedCommand>, sender_role: &str) -> (r: Request)
    ensures
        r@ == message_request(msg@, parsed_view(parsed), is_admin_role(sender_role@)),
{
    if trimmed_equals(msg, "今日doro结局") {
        return Request::Today;
    }
    if trimmed_equals(msg, "doro结局帮助") {
        return Request::Help;
    }
    let r = route_command(parsed);
    let admin = is_group_admin(sender_role);
    let restricted = match r {
        Request::Add(_) | Request::Remove(_) | Request::Update(_) | Request::List => true,
        _ => false,
    };
    if restricted && !admin {
        Request::Ignore
    } else {
        r
    }
}


// ── laws of routing ──────────────────────────────────────────────

/// Law: `今日doro结局` asks for today's ending and `doro结局帮助` for the
/// help text, from anyone and whatever else the message parses as; the
/// group's owner and administrators, and nobody else, administer it.
pub proof fn lemma_keywords_and_roles(
    msg: Seq<char>,
    parsed: Option<(bool, Seq<Seq<char>>)>,
    admin: bool,
    role: Seq<char>,
)
    ensures
        trimmed(msg) == "今日doro结局"@ ==> message_request(msg, parsed, admin)
            == RequestModel::Today,
        trimmed(msg) == "doro结局帮助"@ ==> message_request(msg, parsed, admin)
            == RequestModel::Help,
        is_admin_role(role) <==> (role == "owner"@ || role == "admin"@),
{
    reveal_strlit("今日doro结局");
    reveal_strlit("doro结局帮助");
    assert("今日doro结局"@[0] != "doro结局帮助"@[0]);
}

/// Law: a message that is neither keyword is routed, for an administrator,
/// exactly as its command says; for anyone else the administrators'
/// requests (add, remove, update, list) are ignored and every other request
/// is routed as the command says.
pub proof fn lemma_routing_by_role(msg: Seq<char>, parsed: Option<(bool, Seq<Seq<char>>)>)
    requires
        trimmed(msg) != "今日doro结局"@,
        trimmed(msg) != "doro结局帮助"@,
    ensures
        message_request(msg, parsed, true) == command_request(parsed),
        (command_request(parsed) is Add || command_request(parsed) is Remove || command_request(
            parsed,
        ) is Update || command_request(parsed) is List) ==> message_request(msg, parsed, false)
            is Ignore,
        !(command_request(parsed) is Add || command_request(parsed) is Remove || command_request(
            parsed,
        ) is Update || command_request(parsed) is List) ==> message_request(msg, parsed, false)
            == command_request(parsed),
{
}

/// Law: the first argument of `doro` names the sub-command, which gets the
/// arguments after it: `add`, `remove` and `update` with their arguments,
/// `list` and `help`; no argument at all asks for today's ending.
pub proof fn lemma_sub_commands(rest: Seq<Seq<char>>)
    ensures
        command_request(Some((true, seq!["add"@] + rest))) == RequestModel::Add(rest),
        command_request(Some((true, seq!["remove"@] + rest))) == RequestModel::Remove(rest),
        command_request(Some((true, seq!["update"@] + rest))) == RequestModel::Update(rest),
        command_request(Some((true, seq!["list"@] + rest))) == RequestModel::List,
        command_request(Some((true, seq!["help"@] + rest))) == RequestModel::Help,
        command_request(Some((false, rest))) == RequestModel::Today,
        command_request(Some((true, Seq::<Seq<char>>::empty()))) == RequestModel::Today,
        rest.len() > 0 && rest[0] != "add"@ && rest[0] != "remove"@ && rest[0] != "update"@
            && rest[0] != "list"@ && rest[0] != "help"@ ==> command_request(Some((true, rest)))
            == RequestModel::Today,
        command_request(None) == RequestModel::Ignore,
{
    reveal_strlit("add");
    reveal_strlit("remove");
    reveal_strlit("update");
    reveal_strlit("list");
    reveal_strlit("help");
    assert("update"@[0] != "remove"@[0] && "update"@[0] != "add"@[0]);
    assert("help"@[0] != "list"@[0] && "help"@[0] != "add"@[0] && "help"@[0] != "remove"@[0]
        && "help"@[0] != "update"@[0]);
    assert("list"@[0] != "add"@[0] && "list"@[0] != "remove"@[0] && "list"@[0] != "update"@[0]);
    assert("remove"@[0] != "add"@[0]);
    assert((seq!["add"@] + rest).drop_first() =~= rest);
    assert((seq!["remove"@] + rest).drop_first() =~= rest);
    assert((seq!["update"@] + rest).drop_first() =~= rest);
    assert((seq!["add"@] + rest)[0] == "add"@);
    assert((seq!["remove"@] + rest)[0] == "remove"@);
    assert((seq!["update"@] + rest)[0] == "update"@);
    assert((seq!["list"@] + rest)[0] == "list"@);
    assert((seq!["help"@] + rest)[0] == "help"@);
}

} // verus!
