//! The line protocol: what a client line means, and the exact text the
//! server writes back — the banner, the notices, and the room and user
//! listings.

use crate::rooms::RoomMsg;
use crate::text::{dec_seq, decimal, is_prefix_of, has_prefix, first_token, second_token,
    spec_first_token, spec_second_token, skip_ws};
use vstd::prelude::*;
use vstd::string::{StrSliceExecFns, StringExecFns};

verus! {

/// One parsed client line.
pub enum Command {
    Help,
    Name(Option<String>),
    Join(Option<String>),
    Rooms,
    Users,
    Quit,
    Unknown(String),
    Chat(String),
    Empty,
}

/// The ghost image of a parsed line.
pub enum SpecCommand {
    Help,
    Name(Option<Seq<char>>),
    Join(Option<Seq<char>>),
    Rooms,
    Users,
    Quit,
    Unknown(Seq<char>),
    Chat(Seq<char>),
    Empty,
}

pub open spec fn opt_view(a: Option<String>) -> Option<Seq<char>> {
    match a {
        Some(s) => Some(s@),
        None => None,
    }
}

pub open spec fn command_view(c: Command) -> SpecCommand {
    match c {
        Command::Help => SpecCommand::Help,
        Command::Name(a) => SpecCommand::Name(opt_view(a)),
        Command::Join(a) => SpecCommand::Join(opt_view(a)),
        Command::Rooms => SpecCommand::Rooms,
        Command::Users => SpecCommand::Users,
        Command::Quit => SpecCommand::Quit,
        Command::Unknown(t) => SpecCommand::Unknown(t@),
        Command::Chat(t) => SpecCommand::Chat(t@),
        Command::Empty => SpecCommand::Empty,
    }
}

/// How a line is read: the first matching prefix decides, a leading `/`
/// with no known command is unrecognized, anything else is chat, and an
/// empty line is nothing.
pub open spec fn spec_parse(line: Seq<char>) -> SpecCommand {
    if is_prefix_of("/help"@, line) {
        SpecCommand::Help
    } else if is_prefix_of("/name"@, line) {
        SpecCommand::Name(spec_second_token(line))
    } else if is_prefix_of("/join"@, line) {
        SpecCommand::Join(spec_second_token(line))
    } else if is_prefix_of("/rooms"@, line) {
        SpecCommand::Rooms
    } else if is_prefix_of("/users"@, line) {
        SpecCommand::Users
    } else if is_prefix_of("/quit"@, line) {
        SpecCommand::Quit
    } else if is_prefix_of("/"@, line) {
        SpecCommand::Unknown(spec_first_token(line).unwrap())
    } else if line.len() == 0 {
        SpecCommand::Empty
    } else {
        SpecCommand::Chat(line)
    }
}

/// Parses one client line.
pub fn parse_line(line: &str) -> (r: Command)
    ensures
        command_view(r) == spec_parse(line@),
{
    if has_prefix(line, "/help") {
        Command::Help
    } else if has_prefix(line, "/name") {
        match second_token(line) {
            Some(t) => Command::Name(Some(t.to_owned())),
            None => Command::Name(None),
        }
    } else if has_prefix(line, "/join") {
        match second_token(line) {
            Some(t) => Command::Join(Some(t.to_owned())),
            None => Command::Join(None),
        }
    } else if has_prefix(line, "/rooms") {
        Command::Rooms
    } else if has_prefix(line, "/users") {
        Command::Users
    } else if has_prefix(line, "/quit") {
        Command::Quit
    } else if has_prefix(line, "/") {
        proof {
            reveal_strlit("/");
            assert(line@[0] == '/');
            assert(!crate::text::is_ascii_ws(line@[0]));
            assert(skip_ws(line@, 0) == 0);
        }
        match first_token(line) {
            Some(t) => Command::Unknown(t.to_owned()),
            None => {
                proof {
                    assert(false);
                }
                Command::Empty
            },
        }
    } else if line.unicode_len() == 0 {
        Command::Empty
    } else {
        Command::Chat(line.to_owned())
    }
}

/// The static help text.
pub open spec fn spec_help() -> Seq<char> {
    "Commands\n/help - print this help\n/name <name> - change display name\n/join <room> - switch chat room\n/rooms - list open rooms\n/users - list users in the current room\n/quit - leave the server"@
}

pub fn help_text() -> (r: String)
    ensures
        r@ == spec_help(),
{
    String::from_str(
        "Commands\n/help - print this help\n/name <name> - change display name\n/join <room> - switch chat room\n/rooms - list open rooms\n/users - list users in the current room\n/quit - leave the server",
    )
}

/// The connect banner: the help text, then the assigned name.
pub open spec fn spec_banner(name: Seq<char>) -> Seq<char> {
    spec_help() + "\nYou are "@ + name
}

pub fn banner(name: &str) -> (r: String)
    ensures
        r@ == spec_banner(name@),
{
    let mut r = help_text();
    r.append("\nYou are ");
    r.append(name);
    r
}

/// A chat line as the room sees it: `sender: text`.
pub open spec fn spec_chat_line(sender: Seq<char>, text: Seq<char>) -> Seq<char> {
    sender + ": "@ + text
}

pub fn chat_line(sender: &str, text: &str) -> (r: String)
    ensures
        r@ == spec_chat_line(sender@, text@),
{
    let mut r = sender.to_owned();
    r.append(": ");
    r.append(text);
    r
}

/// How one room event reads on a client's screen.
pub open spec fn spec_render(m: RoomMsg) -> Seq<char> {
    match m {
        RoomMsg::Joined(n) => n@ + " joined"@,
        RoomMsg::Left(n) => n@ + " left"@,
        RoomMsg::Msg(t) => t@,
    }
}

pub fn render_event(msg: &RoomMsg) -> (r: String)
    ensures
        r@ == spec_render(*msg),
{
    match msg {
        RoomMsg::Joined(n) => {
            let mut r = n.clone();
            r.append(" joined");
            r
        },
        RoomMsg::Left(n) => {
            let mut r = n.clone();
            r.append(" left");
            r
        },
        RoomMsg::Msg(t) => t.clone(),
    }
}

/// The rendered room entries, each as `name (count), `.
pub open spec fn spec_room_entries(entries: Seq<(String, usize)>) -> Seq<char>
    decreases entries.len(),
{
    if entries.len() == 0 {
        Seq::empty()
    } else {
        spec_room_entries(entries.drop_last()) + entries.last().0@ + " ("@ + dec_seq(
            entries.last().1 as nat,
        ) + "), "@
    }
}

/// The `/rooms` reply: `Rooms - ` then the entries, with the trailing
/// separator clipped.
pub open spec fn spec_rooms_msg(entries: Seq<(String, usize)>) -> Seq<char> {
    let full = "Rooms - "@ + spec_room_entries(entries);
    full.take(full.len() - 2)
}

pub fn rooms_message(entries: &Vec<(String, usize)>) -> (r: String)
    ensures
        r@ == spec_rooms_msg(entries@),
{
    let mut msg = String::from_str("Rooms - ");
    proof {
        reveal_strlit("Rooms - ");
        assert(entries@.take(0) =~= Seq::<(String, usize)>::empty());
        assert(msg@ =~= "Rooms - "@ + spec_room_entries(entries@.take(0)));
    }
    let n = entries.len();
    let mut i: usize = 0;
    while i < n
        invariant
            0 <= i <= n,
            n == entries@.len(),
            msg@ == "Rooms - "@ + spec_room_entries(entries@.take(i as int)),
            msg@.len() >= 8,
        decreases n - i,
    {
        msg.append(entries[i].0.as_str());
        msg.append(" (");
        let d = decimal(entries[i].1 as u64);
        msg.append(d.as_str());
        msg.append("), ");
        i = i + 1;
        proof {
            reveal_strlit(" (");
            reveal_strlit("), ");
            let pre = entries@.take(i - 1);
            let cur = entries@.take(i as int);
            assert(cur.drop_last() =~= pre);
            assert(cur.last() == entries@[i - 1]);
            assert(msg@ =~= "Rooms - "@ + spec_room_entries(cur));
        }
    }
    proof {
        assert(entries@.take(n as int) =~= entries@);
        reveal_strlit("Rooms - ");
    }
    let len = msg.as_str().unicode_len();
    let clipped = msg.as_str().substring_char(0, len - 2);
    let r = clipped.to_owned();
    proof {
        assert(r@ =~= spec_rooms_msg(entries@));
    }
    r
}

/// The rendered user entries, each as `name, `.
pub open spec fn spec_user_entries(users: Seq<String>) -> Seq<char>
    decreases users.len(),
{
    if users.len() == 0 {
        Seq::empty()
    } else {
        spec_user_entries(users.drop_last()) + users.last()@ + ", "@
    }
}

/// The `/users` reply: `Users - ` then the names, with the trailing
/// separator clipped.
pub open spec fn spec_users_msg(users: Seq<String>) -> Seq<char> {
    let full = "Users - "@ + spec_user_entries(users);
    full.take(full.len() - 2)
}

pub fn users_message(users: &Vec<String>) -> (r: String)
    ensures
        r@ == spec_users_msg(users@),
{
    let mut msg = String::from_str("Users - ");
    proof {
        reveal_strlit("Users - ");
        assert(users@.take(0) =~= Seq::<String>::empty());
        assert(msg@ =~= "Users - "@ + spec_user_entries(users@.take(0)));
    }
    let n = users.len();
    let mut i: usize = 0;
    while i < n
        invariant
            0 <= i <= n,
            n == users@.len(),
            msg@ == "Users - "@ + spec_user_entries(users@.take(i as int)),
            msg@.len() >= 8,
        decreases n - i,
    {
        msg.append(users[i].as_str());
        msg.append(", ");
        i = i + 1;
        proof {
            reveal_strlit(", ");
            let pre = users@.take(i - 1);
            let cur = users@.take(i as int);
            assert(cur.drop_last() =~= pre);
            assert(cur.last() == users@[i - 1]);
            assert(msg@ =~= "Users - "@ + spec_user_entries(cur));
        }
    }
    proof {
        assert(users@.take(n as int) =~= users@);
        reveal_strlit("Users - ");
    }
    let len = msg.as_str().unicode_len();
    let clipped = msg.as_str().substring_char(0, len - 2);
    let r = clipped.to_owned();
    proof {
        assert(r@ =~= spec_users_msg(users@));
    }
    r
}

} // verus!
