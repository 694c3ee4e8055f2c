//! The commands of the server: how a frame is read as one, and what each
//! does to the store and answers.

use crate::decimal::{parse_decimal, parse_number};
use crate::reply::{Reply, ReplyView};
use crate::store::{after_read, after_write, read, Contents, Store};
use crate::text::{ascii_lower, is_word, names};
use vstd::prelude::*;
use vstd::utf8::{encode_utf8, is_ascii_chars_encode_utf8};

verus! {

/// A request, once its frame has been read.
#[derive(Debug, PartialEq, Eq)]
pub enum Command {
    /// Send the value back.
    Echo(String),
    /// Write `value` under `key`, to expire after `ttl` milliseconds if a
    /// time to live is given.
    SetKey { key: String, value: String, ttl: Option<u64> },
    /// Read the value under the key.
    GetKey(String),
    /// A write whose time to live is not a number of milliseconds.
    BadExpiry,
    /// Anything else: an unknown name, or too few arguments.
    Unknown,
}

/// A command as mathematical data.
pub enum CommandView {
    Echo(Seq<char>),
    SetKey { key: Seq<char>, value: Seq<char>, ttl: Option<u64> },
    GetKey(Seq<char>),
    BadExpiry,
    Unknown,
}

impl View for Command {
    type V = CommandView;

    open spec fn view(&self) -> CommandView {
        match self {
            Command::Echo(value) => CommandView::Echo(value@),
            Command::SetKey { key, value, ttl } => CommandView::SetKey {
                key: key@,
                value: value@,
                ttl: *ttl,
            },
            Command::GetKey(key) => CommandView::GetKey(key@),
            Command::BadExpiry => CommandView::BadExpiry,
            Command::Unknown => CommandView::Unknown,
        }
    }
}

/// The time to live written in `text`: a number of milliseconds that fits in
/// 64 bits.
pub open spec fn parse_ttl(text: Seq<char>) -> Option<u64> {
    match parse_decimal(encode_utf8(text)) {
        Some(n) => if n <= u64::MAX {
            Some(n as u64)
        } else {
            None
        },
        None => None,
    }
}

/// Whether the frame asks for an expiry: it has a fourth and a fifth
/// element, and the fourth is the word `PX`.
pub open spec fn asks_expiry(frame: Seq<Seq<char>>) -> bool {
    frame.len() >= 5 && names(frame[3], "PX"@)
}

/// The write that a `SET` frame of at least three elements asks for.
pub open spec fn write_of(frame: Seq<Seq<char>>) -> CommandView {
    if asks_expiry(frame) {
        match parse_ttl(frame[4]) {
            Some(millis) => CommandView::SetKey { key: frame[1], value: frame[2], ttl: Some(millis) },
            None => CommandView::BadExpiry,
        }
    } else {
        CommandView::SetKey { key: frame[1], value: frame[2], ttl: None }
    }
}

/// The command that a frame stands for. The name is the first element, read
/// without regard to case; `ECHO` and `GET` take one argument, `SET` takes
/// two and an optional expiry; further elements are ignored. A frame with an
/// unknown name or too few elements is `Unknown`.
pub open spec fn command_of(frame: Seq<Seq<char>>) -> CommandView {
    if frame.len() >= 2 && names(frame[0], "ECHO"@) {
        CommandView::Echo(frame[1])
    } else if frame.len() >= 3 && names(frame[0], "SET"@) {
        write_of(frame)
    } else if frame.len() >= 2 && names(frame[0], "GET"@) {
        CommandView::GetKey(frame[1])
    } else {
        CommandView::Unknown
    }
}

/// The text of the status that acknowledges a write.
pub open spec fn ok_text() -> Seq<char> {
    "OK"@
}

/// The text of the status that answers an unknown command.
pub open spec fn pong_text() -> Seq<char> {
    "PONG"@
}

/// The text of the status that reports a time to live that is no number.
pub open spec fn bad_expiry_text() -> Seq<char> {
    "ERR value is not an integer or out of range"@
}

/// Whether a command reads or writes the store.
pub open spec fn uses_store(command: CommandView) -> bool {
    command is SetKey || command is GetKey
}

/// The reply to a command that does not use the store, which is ready as
/// soon as the command is known; `None` for a command that uses it.
pub open spec fn ready_reply(command: CommandView) -> Option<ReplyView> {
    match command {
        CommandView::Echo(value) => Some(ReplyView::Bulk(value)),
        CommandView::BadExpiry => Some(ReplyView::Status(bad_expiry_text())),
        CommandView::Unknown => Some(ReplyView::Status(pong_text())),
        CommandView::SetKey { .. } => None,
        CommandView::GetKey(_) => None,
    }
}

/// The reply to a command carried out on `contents` at clock reading `now`.
pub open spec fn reply_to(command: CommandView, contents: Contents, now: u64) -> ReplyView {
    match command {
        CommandView::Echo(value) => ReplyView::Bulk(value),
        CommandView::SetKey { .. } => ReplyView::Status(ok_text()),
        CommandView::GetKey(key) => match read(contents, key, now) {
            Some(value) => ReplyView::Bulk(value),
            None => ReplyView::Null,
        },
        CommandView::BadExpiry => ReplyView::Status(bad_expiry_text()),
        CommandView::Unknown => ReplyView::Status(pong_text()),
    }
}

/// The contents once a command has been carried out on `contents` at clock
/// reading `now`.
pub open spec fn contents_after(command: CommandView, contents: Contents, now: u64) -> Contents {
    match command {
        CommandView::SetKey { key, value, ttl } => after_write(contents, key, value, ttl, now),
        CommandView::GetKey(key) => after_read(contents, key, now),
        _ => contents,
    }
}

/// Reads a time to live in milliseconds.
fn read_ttl(text: &str) -> (ttl: Option<u64>)
    ensures
        ttl == parse_ttl(text@),
{
    parse_number(text.as_bytes(), u64::MAX)
}

/// A command that does not use the store has the same reply on every store
/// and at every clock reading, and leaves the store as it is; every other
/// command uses the store.
pub proof fn lemma_ready_reply(command: CommandView, contents: Contents, now: u64)
    ensures
        ready_reply(command) is Some <==> !uses_store(command),
        ready_reply(command) matches Some(reply) ==> reply_to(command, contents, now) == reply
            && contents_after(command, contents, now) == contents,
{
}

/// The three command names are told apart: no text is two of them at once,
/// so the order in which a frame is held against them does not matter.
pub proof fn lemma_names_differ(text: Seq<char>)
    ensures
        !(names(text, "ECHO"@) && names(text, "SET"@)),
        !(names(text, "ECHO"@) && names(text, "GET"@)),
        !(names(text, "SET"@) && names(text, "GET"@)),
{
    reveal_strlit("ECHO");
    reveal_strlit("SET");
    reveal_strlit("GET");
    is_ascii_chars_encode_utf8("ECHO"@);
    is_ascii_chars_encode_utf8("SET"@);
    is_ascii_chars_encode_utf8("GET"@);
    let bytes = encode_utf8(text);
    if names(text, "SET"@) && names(text, "GET"@) {
        assert(ascii_lower(bytes[0]) == ascii_lower(encode_utf8("SET"@)[0]));
        assert(ascii_lower(bytes[0]) == ascii_lower(encode_utf8("GET"@)[0]));
        assert("SET"@[0] as u8 == 83);
        assert("GET"@[0] as u8 == 71);
    }
}

/// A frame with too few elements for its command stands for no command: a
/// frame of fewer than two elements, and a `SET` of fewer than three.
pub proof fn lemma_too_few_arguments(frame: Seq<Seq<char>>)
    requires
        frame.len() < 2 || (frame.len() < 3 && names(frame[0], "SET"@)),
    ensures
        command_of(frame) == CommandView::Unknown,
{
    if frame.len() == 2 {
        lemma_names_differ(frame[0]);
    }
}

impl Command {
    /// Reads a frame as a command.
    pub fn from_frame(args: &Vec<String>) -> (command: Command)
        ensures
            command@ == command_of(args.deep_view()),
    {
        let ghost frame = args.deep_view();
        assert(forall|i: int| 0 <= i < args.len() ==> frame[i] == #[trigger] args@[i]@);
        if args.len() >= 2 && is_word(args[0].as_str(), "ECHO") {
            Command::Echo(args[1].clone())
        } else if args.len() >= 3 && is_word(args[0].as_str(), "SET") {
            if args.len() >= 5 && is_word(args[3].as_str(), "PX") {
                match read_ttl(args[4].as_str()) {
                    Some(millis) => Command::SetKey {
                        key: args[1].clone(),
                        value: args[2].clone(),
                        ttl: Some(millis),
                    },
                    None => Command::BadExpiry,
                }
            } else {
                Command::SetKey { key: args[1].clone(), value: args[2].clone(), ttl: None }
            }
        } else if args.len() >= 2 && is_word(args[0].as_str(), "GET") {
            Command::GetKey(args[1].clone())
        } else {
            Command::Unknown
        }
    }

    /// Gives the reply to a command that does not use the store, and hands
    /// back one that does.
    pub fn reply_without_store(self) -> (r: Result<Reply, Command>)
        ensures
            match r {
                Ok(reply) => ready_reply(self@) == Some(reply@),
                Err(command) => ready_reply(self@) is None && command == self,
            },
    {
        match self {
            Command::Echo(value) => Ok(Reply::Bulk(value)),
            Command::BadExpiry => Ok(
                Reply::Status("ERR value is not an integer or out of range".to_owned()),
            ),
            Command::Unknown => Ok(Reply::Status("PONG".to_owned())),
            other => Err(other),
        }
    }

    /// Carries the command out on `store` at clock reading `now` and gives
    /// the reply. The store's own clock is not read.
    pub fn execute_at(self, store: &mut Store, now: u64) -> (reply: Reply)
        ensures
            reply@ == reply_to(self@, old(store)@, now),
            final(store)@ == contents_after(self@, old(store)@, now),
            final(store).latest_reading() == old(store).latest_reading(),
    {
        match self {
            Command::SetKey { key, value, ttl } => {
                store.set_at(key, value, ttl, now);
                Reply::Status("OK".to_owned())
            },
            Command::GetKey(key) => match store.get_at(key.as_str(), now) {
                Some(value) => Reply::Bulk(value),
                None => Reply::Null,
            },
            other => match other.reply_without_store() {
                Ok(reply) => reply,
                Err(_) => Reply::Null,
            },
        }
    }

    /// Carries the command out on `store` at the present reading of its
    /// clock, which may be any that is not less than the one before, and
    /// gives the reply.
    pub fn execute(self, store: &mut Store) -> (reply: Reply)
        ensures
            final(store).latest_reading() >= old(store).latest_reading(),
            reply@ == reply_to(self@, old(store)@, final(store).latest_reading()),
            final(store)@ == contents_after(self@, old(store)@, final(store).latest_reading()),
    {
        let now = store.now();
        self.execute_at(store, now)
    }
}

} // verus!
