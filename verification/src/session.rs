//! The per-connection protocol state machine.
//!
//! The surrounding program owns the transport: it frames the byte stream
//! into lines, turns each read into a `LineEvent`, calls `handle_line`,
//! writes the replies back to the client, and resubscribes when a room
//! switch hands it a new receiver.  Everything the connection decides —
//! command handling, renames, room switches, when to exit — happens here.

use crate::generator::NameGenerator;
use crate::name_rules::{valid_name, valid_name_seq};
use crate::protocol::{
    banner, chat_line, help_text, parse_line, rooms_message, spec_banner, spec_chat_line,
    spec_help, spec_rooms_msg, spec_users_msg, users_message, Command, SpecCommand,
};
use crate::registry::Names;
use crate::rooms::{
    join_model, leave_model, listing_ok, publish, receiver_channel, rename_model, sender_channel,
    subscribe, user_views, RoomMsg, Rooms,
};
use crate::text::str_eq;
use tokio::sync::broadcast::Receiver;
use vstd::prelude::*;
use vstd::string::StringExecFns;

verus! {

/// The classes of transport error the state machine distinguishes.
pub enum IoKind {
    InvalidData,
    InvalidInput,
    BrokenPipe,
    ConnectionReset,
    Other,
}

/// One occurrence on a connection's inbound side.
pub enum LineEvent {
    Line(String),
    TooLong,
    Io(IoKind),
    End,
}

/// How a connection's event loop ends.
pub enum Exit {
    Clean,
    Fatal,
}

/// A failed write to the client, as the transport reports it.
pub enum WriteError {
    TooLong,
    Io(IoKind),
}

/// Whether a write outcome ends the connection: every failure does; the
/// peer-gone kinds silently, anything else as an error the surrounding
/// program may log.
pub fn should_exit(result: &Result<(), WriteError>) -> (r: bool)
    ensures
        r == (result is Err),
{
    match result {
        Ok(_) => false,
        Err(WriteError::TooLong) => true,
        Err(WriteError::Io(_)) => true,
    }
}

/// Per-connection state: the display name, the current room with a handle
/// to its channel, and the oversized-line resync flag.
pub struct Session {
    pub name: String,
    pub room: String,
    pub tx: tokio::sync::broadcast::Sender<RoomMsg>,
    pub discarding: bool,
}

impl Session {
    pub open spec fn wf(self) -> bool {
        &&& valid_name_seq(self.name@)
        &&& valid_name_seq(self.room@)
    }
}

/// The session's room is live, lists the session among its members, and
/// the session's sending handle is bound to that room's own channel.
pub open spec fn session_in_rooms(sess: Session, rooms: Rooms) -> bool {
    &&& rooms@.dom().contains(sess.room@)
    &&& rooms@[sess.room@].contains(sess.name@)
    &&& sender_channel(sess.tx) == rooms.channel_of(sess.room@)
}

/// What one step of the state machine asks of the surrounding program,
/// and a ghost record of the events the step handed to the room channels:
/// each entry pairs the channel published on with the event sent, in
/// publish order.
pub struct StepOutcome {
    pub replies: Vec<String>,
    pub exit: Option<Exit>,
    pub new_rx: Option<Receiver<RoomMsg>>,
    pub published: Ghost<Seq<(int, RoomMsg)>>,
}

/// Claims a unique display name and builds the connect banner.
pub fn connect(names: &mut Names, name_generator: &mut NameGenerator) -> (r: (String, String))
    requires
        old(names).inv(),
        old(name_generator).wf(),
        old(names)@.len() < 1000000000000,
    ensures
        final(names).inv(),
        final(name_generator).wf(),
        valid_name_seq(r.0@),
        8 <= r.0@.len() <= 18,
        !old(names)@.contains(r.0@),
        final(names)@ == old(names)@.insert(r.0@),
        r.1@ == spec_banner(r.0@),
{
    let name = names.get_unique(name_generator);
    let greeting = banner(name.as_str());
    (name, greeting)
}

/// Joins the default room, announces the arrival, and opens the session.
/// The third component records the one event handed to the room's channel:
/// the `Joined` announcement, on the session's own channel.
pub fn enter(rooms: &mut Rooms, name: String) -> (r: (
    Session,
    Receiver<RoomMsg>,
    Ghost<(int, RoomMsg)>,
))
    requires
        old(rooms).wf(),
        valid_name_seq(name@),
    ensures
        final(rooms).wf(),
        final(rooms)@ == join_model(old(rooms)@, "main"@, name@),
        r.0.name@ == name@,
        r.0.room@ == "main"@,
        r.0.discarding == false,
        r.0.wf(),
        session_in_rooms(r.0, *final(rooms)),
        receiver_channel(r.1) == sender_channel(r.0.tx),
        r.2@ == (sender_channel(r.0.tx), RoomMsg::Joined(name)),
{
    let room: String = String::from_str("main");
    let tx = rooms.join(room.as_str(), name.as_str());
    let rx = subscribe(&tx);
    let announcement = RoomMsg::Joined(name.clone());
    let ghost receipt = (sender_channel(tx), announcement);
    publish(&tx, announcement);
    proof {
        reveal_strlit("main");
        assert(valid_name_seq("main"@));
    }
    let sess = Session { name, room, tx, discarding: false };
    (sess, rx, Ghost(receipt))
}

/// Releases the display name and leaves the current room.
pub fn disconnect(sess: Session, names: &mut Names, rooms: &mut Rooms)
    requires
        old(names).inv(),
        old(rooms).wf(),
    ensures
        final(names).inv(),
        final(rooms).wf(),
        final(names)@ == old(names)@.remove(sess.name@),
        final(rooms)@ == leave_model(old(rooms)@, sess.room@, sess.name@),
{
    names.remove(sess.name.as_str());
    rooms.leave(sess.room.as_str(), sess.name.as_str());
}

/// The session after one step keeps its identity fields.
pub open spec fn same_session(a: Session, b: Session) -> bool {
    &&& b.name == a.name
    &&& b.room == a.room
    &&& b.tx == a.tx
    &&& b.discarding == a.discarding
}

/// One step of the connection's event loop: reacts to one inbound event,
/// updates the shared registries, and reports the replies to write and
/// whether to exit.
pub fn handle_line(
    sess: &mut Session,
    names: &mut Names,
    rooms: &mut Rooms,
    event: LineEvent,
) -> (r: StepOutcome)
    requires
        old(sess).wf(),
        old(names).inv(),
        old(rooms).wf(),
        session_in_rooms(*old(sess), *old(rooms)),
        old(names)@.contains(old(sess).name@),
    ensures
        final(sess).wf(),
        final(names).inv(),
        final(rooms).wf(),
        session_in_rooms(*final(sess), *final(rooms)),
        final(names)@.contains(final(sess).name@),
        r.new_rx is Some <==> (event matches LineEvent::Line(l2)
            && crate::protocol::spec_parse(l2@) matches SpecCommand::Join(arg2) && arg2 is Some
            && valid_name_seq(arg2.unwrap()) && arg2.unwrap() != old(sess).room@),
        match event {
            LineEvent::TooLong => {
                &&& final(sess).name == old(sess).name
                &&& final(sess).room == old(sess).room
                &&& final(sess).tx == old(sess).tx
                &&& final(sess).discarding == true
                &&& final(names)@ == old(names)@
                &&& final(rooms)@ == old(rooms)@
                &&& r.replies@.len() == 1
                &&& r.replies@[0]@ == "Messages can only be 400 chars long"@
                &&& r.exit is None
                &&& r.published@.len() == 0
            },
            LineEvent::Io(k) => {
                &&& same_session(*old(sess), *final(sess))
                &&& final(names)@ == old(names)@
                &&& final(rooms)@ == old(rooms)@
                &&& r.replies@.len() == 0
                &&& r.exit == Some(
                    match k {
                        IoKind::Other => Exit::Fatal,
                        _ => Exit::Clean,
                    },
                )
                &&& r.published@.len() == 0
            },
            LineEvent::End => {
                &&& final(names)@ == old(names)@
                &&& final(rooms)@ == old(rooms)@
                &&& final(sess).name == old(sess).name
                &&& final(sess).room == old(sess).room
                &&& final(sess).tx == old(sess).tx
                &&& r.replies@.len() == 0
                &&& r.published@.len() == 0
                &&& if old(sess).discarding {
                    final(sess).discarding == false && r.exit is None
                } else {
                    final(sess).discarding == old(sess).discarding && r.exit == Some(Exit::Clean)
                }
            },
            LineEvent::Line(l) => match crate::protocol::spec_parse(l@) {
                SpecCommand::Help => {
                    &&& same_session(*old(sess), *final(sess))
                    &&& final(names)@ == old(names)@
                    &&& final(rooms)@ == old(rooms)@
                    &&& r.replies@.len() == 1
                    &&& r.replies@[0]@ == spec_help()
                    &&& r.exit is None
                    &&& r.published@.len() == 0
                },
                SpecCommand::Name(arg) => {
                    &&& r.exit is None
                    &&& r.published@.len() == 0
                    &&& if arg is None || !valid_name_seq(arg.unwrap()) {
                        &&& same_session(*old(sess), *final(sess))
                        &&& final(names)@ == old(names)@
                        &&& final(rooms)@ == old(rooms)@
                        &&& r.replies@.len() == 1
                        &&& r.replies@[0]@ == "Name must be 2 - 20 alphanumeric chars"@
                    } else if old(names)@.contains(arg.unwrap()) {
                        &&& same_session(*old(sess), *final(sess))
                        &&& final(names)@ == old(names)@
                        &&& final(rooms)@ == old(rooms)@
                        &&& r.replies@.len() == 1
                        &&& r.replies@[0]@ == "Name is already taken"@
                    } else {
                        &&& final(names)@ == old(names)@.insert(arg.unwrap()).remove(
                            old(sess).name@,
                        )
                        &&& final(rooms)@ == rename_model(
                            old(rooms)@,
                            old(sess).room@,
                            old(sess).name@,
                            arg.unwrap(),
                        )
                        &&& final(sess).name@ == arg.unwrap()
                        &&& final(sess).room == old(sess).room
                        &&& final(sess).tx == old(sess).tx
                        &&& final(sess).discarding == old(sess).discarding
                        &&& r.replies@.len() == 0
                    }
                },
                SpecCommand::Join(arg) => {
                    &&& r.exit is None
                    &&& if arg is None || !valid_name_seq(arg.unwrap()) {
                        &&& same_session(*old(sess), *final(sess))
                        &&& final(names)@ == old(names)@
                        &&& final(rooms)@ == old(rooms)@
                        &&& r.replies@.len() == 1
                        &&& r.replies@[0]@ == "Room must be 2 - 20 alphanumeric chars"@
                        &&& r.published@.len() == 0
                    } else if arg.unwrap() == old(sess).room@ {
                        &&& same_session(*old(sess), *final(sess))
                        &&& final(names)@ == old(names)@
                        &&& final(rooms)@ == old(rooms)@
                        &&& r.replies@.len() == 1
                        &&& r.replies@[0]@ == "You are in "@ + old(sess).room@
                        &&& r.published@.len() == 0
                    } else {
                        &&& final(rooms)@ == join_model(
                            leave_model(old(rooms)@, old(sess).room@, old(sess).name@),
                            arg.unwrap(),
                            old(sess).name@,
                        )
                        &&& final(names)@ == old(names)@
                        &&& final(sess).name == old(sess).name
                        &&& final(sess).room@ == arg.unwrap()
                        &&& final(sess).discarding == old(sess).discarding
                        &&& r.replies@.len() == 0
                        &&& r.new_rx is Some
                        &&& receiver_channel(r.new_rx.unwrap()) == sender_channel(final(sess).tx)
                        &&& r.published@.len() == 2
                        &&& r.published@[0] == (
                            sender_channel(old(sess).tx),
                            RoomMsg::Left(old(sess).name),
                        )
                        &&& r.published@[1] == (
                            sender_channel(final(sess).tx),
                            RoomMsg::Joined(old(sess).name),
                        )
                    }
                },
                SpecCommand::Rooms => {
                    &&& same_session(*old(sess), *final(sess))
                    &&& final(names)@ == old(names)@
                    &&& final(rooms)@ == old(rooms)@
                    &&& r.replies@.len() == 1
                    &&& exists|entries: Seq<(String, usize)>|
                        listing_ok(old(rooms)@, entries) && r.replies@[0]@ == spec_rooms_msg(
                            entries,
                        )
                    &&& r.exit is None
                    &&& r.published@.len() == 0
                },
                SpecCommand::Users => {
                    &&& same_session(*old(sess), *final(sess))
                    &&& final(names)@ == old(names)@
                    &&& final(rooms)@ == old(rooms)@
                    &&& r.replies@.len() == 1
                    &&& exists|users: Seq<String>|
                        user_views(users).to_set() == old(rooms)@[old(sess).room@]
                            && r.replies@[0]@ == spec_users_msg(users)
                    &&& r.exit is None
                    &&& r.published@.len() == 0
                },
                SpecCommand::Quit => {
                    &&& same_session(*old(sess), *final(sess))
                    &&& final(names)@ == old(names)@
                    &&& final(rooms)@ == old(rooms)@
                    &&& r.replies@.len() == 0
                    &&& r.exit == Some(Exit::Clean)
                    &&& r.published@.len() == 0
                },
                SpecCommand::Unknown(tok) => {
                    &&& same_session(*old(sess), *final(sess))
                    &&& final(names)@ == old(names)@
                    &&& final(rooms)@ == old(rooms)@
                    &&& r.replies@.len() == 1
                    &&& r.replies@[0]@ == "Unrecognized command "@ + tok + ", try /help"@
                    &&& r.exit is None
                    &&& r.published@.len() == 0
                },
                SpecCommand::Chat(t) => {
                    &&& same_session(*old(sess), *final(sess))
                    &&& final(names)@ == old(names)@
                    &&& final(rooms)@ == old(rooms)@
                    &&& r.replies@.len() == 0
                    &&& r.exit is None
                    &&& r.published@.len() == 1
                    &&& r.published@[0].0 == sender_channel(old(sess).tx)
                    &&& r.published@[0].1 matches RoomMsg::Msg(m) && m@ == spec_chat_line(
                        old(sess).name@,
                        t,
                    )
                },
                SpecCommand::Empty => {
                    &&& same_session(*old(sess), *final(sess))
                    &&& final(names)@ == old(names)@
                    &&& final(rooms)@ == old(rooms)@
                    &&& r.replies@.len() == 0
                    &&& r.exit is None
                    &&& r.published@.len() == 0
                },
            },
        },
{
    let ghost no_events: Seq<(int, RoomMsg)> = Seq::empty();
    match event {
        LineEvent::TooLong => {
            sess.discarding = true;
            let mut replies: Vec<String> = Vec::new();
            replies.push(String::from_str("Messages can only be 400 chars long"));
            StepOutcome { replies, exit: None, new_rx: None, published: Ghost(no_events) }
        },
        LineEvent::Io(k) => {
            let e = match k {
                IoKind::Other => Exit::Fatal,
                _ => Exit::Clean,
            };
            StepOutcome { replies: Vec::new(), exit: Some(e), new_rx: None, published: Ghost(no_events) }
        },
        LineEvent::End => {
            if sess.discarding {
                sess.discarding = false;
                StepOutcome { replies: Vec::new(), exit: None, new_rx: None, published: Ghost(no_events) }
            } else {
                StepOutcome { replies: Vec::new(), exit: Some(Exit::Clean), new_rx: None, published: Ghost(no_events) }
            }
        },
        LineEvent::Line(l) => {
            match parse_line(l.as_str()) {
                Command::Help => {
                    let mut replies: Vec<String> = Vec::new();
                    replies.push(help_text());
                    StepOutcome { replies, exit: None, new_rx: None, published: Ghost(no_events) }
                },
                Command::Name(arg) => {
                    let argref: Option<&str> = match &arg {
                        Some(s) => Some(s.as_str()),
                        None => None,
                    };
                    if !valid_name(argref) {
                        let mut replies: Vec<String> = Vec::new();
                        replies.push(String::from_str("Name must be 2 - 20 alphanumeric chars"));
                        StepOutcome { replies, exit: None, new_rx: None, published: Ghost(no_events) }
                    } else {
                        let new_name = match arg {
                            Some(s) => s,
                            None => {
                                proof {
                                    assert(false);
                                }
                                String::new()
                            },
                        };
                        if names.insert(new_name.clone()) {
                            names.remove(sess.name.as_str());
                            rooms.change_name(
                                sess.room.as_str(),
                                sess.name.as_str(),
                                new_name.as_str(),
                            );
                            sess.name = new_name;
                            StepOutcome { replies: Vec::new(), exit: None, new_rx: None, published: Ghost(no_events) }
                        } else {
                            let mut replies: Vec<String> = Vec::new();
                            replies.push(String::from_str("Name is already taken"));
                            StepOutcome { replies, exit: None, new_rx: None, published: Ghost(no_events) }
                        }
                    }
                },
                Command::Join(arg) => {
                    let argref: Option<&str> = match &arg {
                        Some(s) => Some(s.as_str()),
                        None => None,
                    };
                    if !valid_name(argref) {
                        let mut replies: Vec<String> = Vec::new();
                        replies.push(String::from_str("Room must be 2 - 20 alphanumeric chars"));
                        StepOutcome { replies, exit: None, new_rx: None, published: Ghost(no_events) }
                    } else {
                        let new_room = match arg {
                            Some(s) => s,
                            None => {
                                proof {
                                    assert(false);
                                }
                                String::new()
                            },
                        };
                        if str_eq(new_room.as_str(), sess.room.as_str()) {
                            let mut msg = String::from_str("You are in ");
                            msg.append(sess.room.as_str());
                            let mut replies: Vec<String> = Vec::new();
                            replies.push(msg);
                            StepOutcome { replies, exit: None, new_rx: None, published: Ghost(no_events) }
                        } else {
                            let farewell = RoomMsg::Left(sess.name.clone());
                            let ghost left_receipt = (sender_channel(sess.tx), farewell);
                            publish(&sess.tx, farewell);
                            let tx = rooms.change(
                                sess.room.as_str(),
                                new_room.as_str(),
                                sess.name.as_str(),
                            );
                            let rx = subscribe(&tx);
                            sess.tx = tx;
                            sess.room = new_room;
                            let announcement = RoomMsg::Joined(sess.name.clone());
                            let ghost joined_receipt = (sender_channel(sess.tx), announcement);
                            publish(&sess.tx, announcement);
                            let ghost record = seq![left_receipt, joined_receipt];
                            StepOutcome {
                                replies: Vec::new(),
                                exit: None,
                                new_rx: Some(rx),
                                published: Ghost(record),
                            }
                        }
                    }
                },
                Command::Rooms => {
                    let entries = rooms.list();
                    let msg = rooms_message(&entries);
                    let mut replies: Vec<String> = Vec::new();
                    replies.push(msg);
                    StepOutcome { replies, exit: None, new_rx: None, published: Ghost(no_events) }
                },
                Command::Users => {
                    match rooms.list_users(sess.room.as_str()) {
                        Some(users) => {
                            let msg = users_message(&users);
                            let mut replies: Vec<String> = Vec::new();
                            replies.push(msg);
                            StepOutcome { replies, exit: None, new_rx: None, published: Ghost(no_events) }
                        },
                        None => {
                            proof {
                                assert(false);
                            }
                            StepOutcome { replies: Vec::new(), exit: None, new_rx: None, published: Ghost(no_events) }
                        },
                    }
                },
                Command::Quit => {
                    StepOutcome { replies: Vec::new(), exit: Some(Exit::Clean), new_rx: None, published: Ghost(no_events) }
                },
                Command::Unknown(tok) => {
                    let mut msg = String::from_str("Unrecognized command ");
                    msg.append(tok.as_str());
                    msg.append(", try /help");
                    let mut replies: Vec<String> = Vec::new();
                    replies.push(msg);
                    StepOutcome { replies, exit: None, new_rx: None, published: Ghost(no_events) }
                },
                Command::Chat(text) => {
                    let line = chat_line(sess.name.as_str(), text.as_str());
                    let outbound = RoomMsg::Msg(line);
                    let ghost receipt = (sender_channel(sess.tx), outbound);
                    publish(&sess.tx, outbound);
                    let ghost record = seq![receipt];
                    StepOutcome {
                        replies: Vec::new(),
                        exit: None,
                        new_rx: None,
                        published: Ghost(record),
                    }
                },
                Command::Empty => {
                    StepOutcome { replies: Vec::new(), exit: None, new_rx: None, published: Ghost(no_events) }
                },
            }
        },
    }
}

} // verus!
