use chat_server::protocol::rooms_message;
use chat_server::rooms::{publish, subscribe, RoomMsg, Rooms};

#[test]
fn first_join_creates_exactly_one_room() {
    let mut rooms = Rooms::new();
    rooms.join("lobby", "Alice01");
    let listing = rooms.list();
    assert_eq!(listing.len(), 1);
    assert_eq!(listing[0].0, "lobby");
    assert_eq!(listing[0].1, 1);
}

#[test]
fn joining_twice_keeps_one_member_entry() {
    let mut rooms = Rooms::new();
    rooms.join("lobby", "Alice01");
    rooms.join("lobby", "Alice01");
    let listing = rooms.list();
    assert_eq!(listing, vec![("lobby".to_string(), 1)]);
}

#[test]
fn last_leave_destroys_the_room_and_rejoin_starts_fresh() {
    let mut rooms = Rooms::new();
    rooms.join("lobby", "Alice01");
    rooms.join("lobby", "Bob002");
    rooms.leave("lobby", "Alice01");
    assert_eq!(rooms.list(), vec![("lobby".to_string(), 1)]);
    rooms.leave("lobby", "Bob002");
    assert!(rooms.list().is_empty());
    assert!(rooms.list_users("lobby").is_none());
    rooms.join("lobby", "Cara003");
    assert_eq!(rooms.list_users("lobby"), Some(vec!["Cara003".to_string()]));
}

#[test]
fn leave_of_a_non_member_changes_nothing() {
    let mut rooms = Rooms::new();
    rooms.join("lobby", "Alice01");
    rooms.leave("lobby", "Nobody");
    rooms.leave("other", "Alice01");
    assert_eq!(rooms.list(), vec![("lobby".to_string(), 1)]);
}

#[test]
fn listing_sorts_by_count_then_name() {
    let mut rooms = Rooms::new();
    rooms.join("bb", "User0001");
    rooms.join("aa", "User0002");
    rooms.join("cc", "User0003");
    rooms.join("cc", "User0004");
    let listing = rooms.list();
    assert_eq!(
        listing,
        vec![
            ("cc".to_string(), 2),
            ("aa".to_string(), 1),
            ("bb".to_string(), 1),
        ]
    );
    assert_eq!(rooms_message(&listing), "Rooms - cc (2), aa (1), bb (1)");
}

#[test]
fn counts_above_nine_render_with_two_digits() {
    let mut rooms = Rooms::new();
    for i in 0..12 {
        rooms.join("big", &format!("User{i:04}"));
    }
    assert_eq!(rooms_message(&rooms.list()), "Rooms - big (12)");
}

#[test]
fn change_moves_a_member_between_rooms() {
    let mut rooms = Rooms::new();
    rooms.join("main", "Alice01");
    rooms.join("main", "Bob002");
    rooms.change("main", "games", "Alice01");
    assert_eq!(
        rooms.list(),
        vec![("games".to_string(), 1), ("main".to_string(), 1)]
    );
    assert_eq!(rooms.list_users("games"), Some(vec!["Alice01".to_string()]));
    assert_eq!(rooms.list_users("main"), Some(vec!["Bob002".to_string()]));
}

#[test]
fn change_name_renames_within_the_room() {
    let mut rooms = Rooms::new();
    rooms.join("main", "OldName1");
    rooms.change_name("main", "OldName1", "NewName1");
    assert_eq!(rooms.list_users("main"), Some(vec!["NewName1".to_string()]));
    assert_eq!(rooms.list(), vec![("main".to_string(), 1)]);
}

#[test]
fn published_events_reach_a_subscriber_in_order() {
    let mut rooms = Rooms::new();
    let tx = rooms.join("lobby", "Alice01");
    let mut rx = subscribe(&tx);
    publish(&tx, RoomMsg::Joined("Bob002".to_string()));
    publish(&tx, RoomMsg::Msg("Alice01: hi".to_string()));
    publish(&tx, RoomMsg::Left("Bob002".to_string()));
    match rx.try_recv().expect("first event") {
        RoomMsg::Joined(n) => assert_eq!(n, "Bob002"),
        _ => panic!("expected a join event first"),
    }
    match rx.try_recv().expect("second event") {
        RoomMsg::Msg(t) => assert_eq!(t, "Alice01: hi"),
        _ => panic!("expected the chat line second"),
    }
    match rx.try_recv().expect("third event") {
        RoomMsg::Left(n) => assert_eq!(n, "Bob002"),
        _ => panic!("expected the leave event third"),
    }
    assert!(rx.try_recv().is_err());
}

#[test]
fn publishing_without_subscribers_is_a_no_op() {
    let mut rooms = Rooms::new();
    let tx = rooms.join("lobby", "Alice01");
    publish(&tx, RoomMsg::Msg("dropped".to_string()));
    let mut rx = subscribe(&tx);
    assert!(rx.try_recv().is_err());
}
