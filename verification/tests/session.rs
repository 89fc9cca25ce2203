use chat_server::generator::NameGenerator;
use chat_server::protocol::render_event;
use chat_server::registry::Names;
use chat_server::rooms::{RoomMsg, Rooms};
use chat_server::session::{
    connect, disconnect, enter, handle_line, should_exit, Exit, IoKind, LineEvent, Session,
    StepOutcome, WriteError,
};
use tokio::sync::broadcast::Receiver;

fn generator() -> NameGenerator {
    NameGenerator::new(
        vec!["Brave".to_string(), "Calm".to_string(), "Eager".to_string()],
        vec!["Otter".to_string(), "Tiger".to_string(), "Falcon".to_string()],
    )
}

fn open_session(
    names: &mut Names,
    gen: &mut NameGenerator,
    rooms: &mut Rooms,
) -> (Session, Receiver<RoomMsg>, String) {
    let (name, banner) = connect(names, gen);
    let (sess, rx, _) = enter(rooms, name);
    (sess, rx, banner)
}

fn line(sess: &mut Session, names: &mut Names, rooms: &mut Rooms, text: &str) -> StepOutcome {
    handle_line(sess, names, rooms, LineEvent::Line(text.to_string()))
}

#[test]
fn banner_greets_with_the_assigned_name() {
    let mut names = Names::new();
    let mut gen = generator();
    let (name, banner) = connect(&mut names, &mut gen);
    assert!(banner.ends_with(&format!("You are {name}")));
    assert!(banner.contains("/help"));
    assert!(!names.insert(name));
}

#[test]
fn chat_between_two_members_of_a_room() {
    let mut names = Names::new();
    let mut gen = generator();
    let mut rooms = Rooms::new();

    let (mut a, _a_rx, _) = open_session(&mut names, &mut gen, &mut rooms);
    let out = line(&mut a, &mut names, &mut rooms, "/join lobby");
    assert!(out.exit.is_none());
    let _a_rx = out.new_rx.expect("a new subscription after the switch");

    let (mut b, _b_rx, _) = open_session(&mut names, &mut gen, &mut rooms);
    let out = line(&mut b, &mut names, &mut rooms, "/join lobby");
    let mut b_rx = out.new_rx.expect("a new subscription after the switch");

    // b sees its own arrival through the room feed, then a's chat line.
    match b_rx.try_recv().expect("b's own join event") {
        RoomMsg::Joined(n) => assert_eq!(n, b.name),
        _ => panic!("expected b's join event first"),
    }
    let out = line(&mut a, &mut names, &mut rooms, "hello");
    assert!(out.replies.is_empty() && out.exit.is_none());
    let event = b_rx.try_recv().expect("the chat line");
    assert_eq!(render_event(&event), format!("{}: hello", a.name));
}

#[test]
fn oversized_line_notice_keeps_the_connection_open() {
    let mut names = Names::new();
    let mut gen = generator();
    let mut rooms = Rooms::new();
    let (mut sess, mut rx, _) = open_session(&mut names, &mut gen, &mut rooms);
    let _ = rx.try_recv();

    let out = handle_line(&mut sess, &mut names, &mut rooms, LineEvent::TooLong);
    assert_eq!(out.replies, vec!["Messages can only be 400 chars long".to_string()]);
    assert!(out.exit.is_none());

    let out = line(&mut sess, &mut names, &mut rooms, "still here");
    assert!(out.exit.is_none());
    let event = rx.try_recv().expect("the chat line after the oversized one");
    assert_eq!(render_event(&event), format!("{}: still here", sess.name));

    // The end-of-stream that flushes the discarded line is swallowed once.
    let out = handle_line(&mut sess, &mut names, &mut rooms, LineEvent::TooLong);
    assert!(out.exit.is_none());
    let out = handle_line(&mut sess, &mut names, &mut rooms, LineEvent::End);
    assert!(out.exit.is_none());
    let out = handle_line(&mut sess, &mut names, &mut rooms, LineEvent::End);
    assert!(matches!(out.exit, Some(Exit::Clean)));
}

#[test]
fn rooms_listing_after_joining_a_fresh_room() {
    let mut names = Names::new();
    let mut gen = generator();
    let mut rooms = Rooms::new();
    let (mut sess, _rx, _) = open_session(&mut names, &mut gen, &mut rooms);
    let out = line(&mut sess, &mut names, &mut rooms, "/join ab");
    assert!(out.exit.is_none());
    let out = line(&mut sess, &mut names, &mut rooms, "/rooms");
    assert_eq!(out.replies, vec!["Rooms - ab (1)".to_string()]);
}

#[test]
fn invalid_rename_leaves_the_display_name_alone() {
    let mut names = Names::new();
    let mut gen = generator();
    let mut rooms = Rooms::new();
    let (mut sess, _rx, _) = open_session(&mut names, &mut gen, &mut rooms);
    let before = sess.name.clone();
    let out = line(&mut sess, &mut names, &mut rooms, "/name a!");
    assert_eq!(out.replies, vec!["Name must be 2 - 20 alphanumeric chars".to_string()]);
    assert!(out.exit.is_none());
    assert_eq!(sess.name, before);
    let out = line(&mut sess, &mut names, &mut rooms, "/name");
    assert_eq!(out.replies, vec!["Name must be 2 - 20 alphanumeric chars".to_string()]);
    assert_eq!(sess.name, before);
}

#[test]
fn rename_updates_registry_and_room_membership() {
    let mut names = Names::new();
    let mut gen = generator();
    let mut rooms = Rooms::new();
    let (mut sess, _rx, _) = open_session(&mut names, &mut gen, &mut rooms);
    let before = sess.name.clone();
    let out = line(&mut sess, &mut names, &mut rooms, "/name Fresh_Name9");
    assert!(out.replies.is_empty() && out.exit.is_none());
    assert_eq!(sess.name, "Fresh_Name9");
    // The old name is free again; the new one is taken.
    assert!(names.insert(before));
    assert!(!names.insert("Fresh_Name9".to_string()));
    let out = line(&mut sess, &mut names, &mut rooms, "/users");
    assert_eq!(out.replies, vec!["Users - Fresh_Name9".to_string()]);
}

#[test]
fn rename_to_a_taken_name_is_refused() {
    let mut names = Names::new();
    let mut gen = generator();
    let mut rooms = Rooms::new();
    let (mut sess, _rx, _) = open_session(&mut names, &mut gen, &mut rooms);
    assert!(names.insert("Occupied1".to_string()));
    let before = sess.name.clone();
    let out = line(&mut sess, &mut names, &mut rooms, "/name Occupied1");
    assert_eq!(out.replies, vec!["Name is already taken".to_string()]);
    assert_eq!(sess.name, before);
}

#[test]
fn joining_the_current_room_is_reported() {
    let mut names = Names::new();
    let mut gen = generator();
    let mut rooms = Rooms::new();
    let (mut sess, _rx, _) = open_session(&mut names, &mut gen, &mut rooms);
    let out = line(&mut sess, &mut names, &mut rooms, "/join main");
    assert_eq!(out.replies, vec!["You are in main".to_string()]);
    assert!(out.new_rx.is_none());
    let out = line(&mut sess, &mut names, &mut rooms, "/join b@d");
    assert_eq!(out.replies, vec!["Room must be 2 - 20 alphanumeric chars".to_string()]);
}

#[test]
fn unknown_commands_point_at_help() {
    let mut names = Names::new();
    let mut gen = generator();
    let mut rooms = Rooms::new();
    let (mut sess, _rx, _) = open_session(&mut names, &mut gen, &mut rooms);
    let out = line(&mut sess, &mut names, &mut rooms, "/frobnicate now");
    assert_eq!(out.replies, vec!["Unrecognized command /frobnicate, try /help".to_string()]);
    let out = line(&mut sess, &mut names, &mut rooms, "/help");
    assert_eq!(out.replies.len(), 1);
    assert!(out.replies[0].contains("/join <room>"));
}

#[test]
fn quit_and_errors_end_the_loop() {
    let mut names = Names::new();
    let mut gen = generator();
    let mut rooms = Rooms::new();
    let (mut sess, _rx, _) = open_session(&mut names, &mut gen, &mut rooms);
    let out = line(&mut sess, &mut names, &mut rooms, "/quit");
    assert!(matches!(out.exit, Some(Exit::Clean)));
    let out = handle_line(
        &mut sess,
        &mut names,
        &mut rooms,
        LineEvent::Io(IoKind::BrokenPipe),
    );
    assert!(matches!(out.exit, Some(Exit::Clean)));
    let out = handle_line(&mut sess, &mut names, &mut rooms, LineEvent::Io(IoKind::Other));
    assert!(matches!(out.exit, Some(Exit::Fatal)));
}

#[test]
fn disconnect_releases_name_and_room() {
    let mut names = Names::new();
    let mut gen = generator();
    let mut rooms = Rooms::new();
    let (sess, _rx, _) = open_session(&mut names, &mut gen, &mut rooms);
    let name = sess.name.clone();
    disconnect(sess, &mut names, &mut rooms);
    assert!(rooms.list().is_empty());
    assert!(names.insert(name));
}

#[test]
fn write_outcomes_decide_exit() {
    assert!(!should_exit(&Ok(())));
    assert!(should_exit(&Err(WriteError::TooLong)));
    assert!(should_exit(&Err(WriteError::Io(IoKind::ConnectionReset))));
}

#[test]
fn commands_match_by_prefix() {
    let mut names = Names::new();
    let mut gen = generator();
    let mut rooms = Rooms::new();
    let (mut sess, _rx, _) = open_session(&mut names, &mut gen, &mut rooms);
    // Anything beginning with a known command word is that command.
    let out = line(&mut sess, &mut names, &mut rooms, "/helpme");
    assert_eq!(out.replies.len(), 1);
    assert!(out.replies[0].starts_with("Commands"));
    let out = line(&mut sess, &mut names, &mut rooms, "/quit now");
    assert!(matches!(out.exit, Some(Exit::Clean)));
}

#[test]
fn empty_lines_are_ignored() {
    let mut names = Names::new();
    let mut gen = generator();
    let mut rooms = Rooms::new();
    let (mut sess, mut rx, _) = open_session(&mut names, &mut gen, &mut rooms);
    let _ = rx.try_recv();
    let out = line(&mut sess, &mut names, &mut rooms, "");
    assert!(out.replies.is_empty() && out.exit.is_none());
    assert!(rx.try_recv().is_err());
}

#[test]
fn users_listing_names_both_members() {
    let mut names = Names::new();
    let mut gen = generator();
    let mut rooms = Rooms::new();
    let (mut a, _arx, _) = open_session(&mut names, &mut gen, &mut rooms);
    let (b, _brx, _) = open_session(&mut names, &mut gen, &mut rooms);
    let out = line(&mut a, &mut names, &mut rooms, "/users");
    assert_eq!(out.replies, vec![format!("Users - {}, {}", a.name, b.name)]);
}
