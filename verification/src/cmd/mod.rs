//! The commands that a client can send.

pub mod get;
pub mod ping;
pub mod set;

use crate::cmd::get::{get_reply, get_request, parse_get, word_get, Get, GetView};
use crate::cmd::ping::{parse_ping, ping_reply, ping_request, word_ping, Ping, PingView};
use crate::cmd::set::{parse_set, set_reply, set_request, set_rest, word_set, SetCmd, SetView};
use crate::text::{matches_word, same_word};
use crate::db::{deadline, expires_first, lookup, stored, Db, EntryView};
use crate::frame::{Frame, FrameView};
use crate::parse::{at_end, next_text, rest_after, Parse, ParseError};
use vstd::prelude::*;
use vstd::utf8::encode_utf8;

verus! {

/// A command of the protocol.
#[derive(Debug)]
pub enum Command {
    Get(Get),
    SetCmd(SetCmd),
    Ping(Ping),
}

/// The value of a [`Command`].
pub enum CommandView {
    Get(GetView),
    SetCmd(SetView),
    Ping(PingView),
}

impl View for Command {
    type V = CommandView;

    open spec fn view(&self) -> CommandView {
        match self {
            Command::Get(c) => CommandView::Get(c@),
            Command::SetCmd(c) => CommandView::SetCmd(c@),
            Command::Ping(c) => CommandView::Ping(c@),
        }
    }
}

/// The command that a frame asks for. The frame is an array; its first
/// element names the command, in any case of the letters, and the others are
/// its arguments, none of which may be left over.
pub open spec fn parse_command(frame: FrameView) -> Result<CommandView, ParseError> {
    match frame {
        FrameView::Array(all) => match next_text(all) {
            Err(e) => Err(e),
            Ok(name) => {
                let args = rest_after(all);
                let word = encode_utf8(name);
                if same_word(word, word_get()) {
                    match parse_get(args) {
                        Err(e) => Err(e),
                        Ok(cmd) => Ok(CommandView::Get(cmd)),
                    }
                } else if same_word(word, word_set()) {
                    match parse_set(args) {
                        Err(e) => Err(e),
                        Ok(cmd) => match at_end(set_rest(args)) {
                            Err(e) => Err(e),
                            Ok(_) => Ok(CommandView::SetCmd(cmd)),
                        },
                    }
                } else if same_word(word, word_ping()) {
                    match parse_ping(args) {
                        Err(e) => Err(e),
                        Ok(cmd) => match at_end(rest_after(args)) {
                            Err(e) => Err(e),
                            Ok(_) => Ok(CommandView::Ping(cmd)),
                        },
                    }
                } else {
                    Err(ParseError::UnknownCommand)
                }
            },
        },
        _ => Err(ParseError::NotAnArray),
    }
}

/// What a command does at the instant `now` to a store that holds `m`: the
/// store afterwards, and the answer for the client.
pub open spec fn run(m: Map<Seq<char>, EntryView>, cmd: CommandView, now: u64) -> (
    Map<Seq<char>, EntryView>,
    FrameView,
) {
    match cmd {
        CommandView::Get(c) => (m, get_reply(lookup(m, c.key, now))),
        CommandView::SetCmd(c) => (stored(m, c.key, c.value, deadline(now, c.expire)), set_reply()),
        CommandView::Ping(c) => (m, ping_reply(c)),
    }
}

/// The command writes an entry that expires before every entry that the
/// store holds.
pub open spec fn wakes_sweeper(m: Map<Seq<char>, EntryView>, cmd: CommandView, now: u64) -> bool {
    match cmd {
        CommandView::SetCmd(c) => expires_first(m, deadline(now, c.expire)),
        _ => false,
    }
}

/// The frame that asks a server for `cmd`.
pub open spec fn request_of(cmd: CommandView) -> FrameView {
    match cmd {
        CommandView::Get(c) => get_request(c),
        CommandView::SetCmd(c) => set_request(c),
        CommandView::Ping(c) => ping_request(c),
    }
}

impl Command {
    /// The command that `frame` asks for.
    pub fn from_frame(frame: Frame) -> (r: Result<Command, ParseError>)
        ensures
            match parse_command(frame@) {
                Ok(cmd) => r is Ok && r->Ok_0@ == cmd,
                Err(e) => r is Err && r->Err_0 == e,
            },
    {
        let mut parse = match Parse::new(frame) {
            Err(e) => {
                return Err(e);
            },
            Ok(parse) => parse,
        };
        let name = match parse.next_string() {
            Err(e) => {
                return Err(e);
            },
            Ok(name) => name,
        };
        let get: [u8; 3] = [103u8, 101u8, 116u8];
        let set: [u8; 3] = [115u8, 101u8, 116u8];
        let ping: [u8; 4] = [112u8, 105u8, 110u8, 103u8];
        assert(get@ =~= word_get());
        assert(set@ =~= word_set());
        assert(ping@ =~= word_ping());
        let word = name.as_str().as_bytes();
        let command = if matches_word(word, get.as_slice()) {
            match Get::parse_frames(&mut parse) {
                Err(e) => {
                    return Err(e);
                },
                Ok(cmd) => Command::Get(cmd),
            }
        } else if matches_word(word, set.as_slice()) {
            match SetCmd::parse_frames(&mut parse) {
                Err(e) => {
                    return Err(e);
                },
                Ok(cmd) => Command::SetCmd(cmd),
            }
        } else if matches_word(word, ping.as_slice()) {
            match Ping::parse_frames(&mut parse) {
                Err(e) => {
                    return Err(e);
                },
                Ok(cmd) => Command::Ping(cmd),
            }
        } else {
            return Err(ParseError::UnknownCommand);
        };
        match parse.finish() {
            Err(e) => Err(e),
            Ok(_) => Ok(command),
        }
    }

    /// Runs the command on `db` at the instant `now`. Gives the answer for
    /// the client, and whether whoever waits for the next expiration has to
    /// be woken.
    pub fn apply(self, db: &mut Db, now: u64) -> (done: (Frame, bool))
        requires
            old(db).wf(),
        ensures
            final(db).wf(),
            final(db)@ == run(old(db)@, self@, now).0,
            done.0@ == run(old(db)@, self@, now).1,
            done.1 == wakes_sweeper(old(db)@, self@, now),
    {
        match self {
            Command::Get(cmd) => (cmd.apply(db, now), false),
            Command::SetCmd(cmd) => cmd.apply(db, now),
            Command::Ping(cmd) => (cmd.apply(), false),
        }
    }

    /// The frame that asks a server for this command.
    pub fn into_frame(self) -> (frame: Frame)
        ensures
            frame@ == request_of(self@),
    {
        match self {
            Command::Get(cmd) => cmd.into_frame(),
            Command::SetCmd(cmd) => cmd.into_frame(),
            Command::Ping(cmd) => cmd.into_frame(),
        }
    }
}

} // verus!
