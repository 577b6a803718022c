//! What a server does with one frame that a client sent.

use crate::cmd::{parse_command, run, wakes_sweeper, Command};
use crate::db::{Db, EntryView};
use crate::frame::{Frame, FrameView};
use vstd::prelude::*;

verus! {

/// What a frame from a client does at the instant `now` to a store that
/// holds `m`: the store afterwards, and the answer. A frame that is no
/// command leaves the store as it is and is answered by an error frame.
pub open spec fn served(m: Map<Seq<char>, EntryView>, frame: FrameView, now: u64) -> (
    Map<Seq<char>, EntryView>,
    FrameView,
) {
    match parse_command(frame) {
        Ok(cmd) => run(m, cmd, now),
        Err(e) => (m, FrameView::Error(e.message_spec())),
    }
}

/// The frame makes the store hold an entry that expires before every entry
/// it held.
pub open spec fn serving_wakes_sweeper(
    m: Map<Seq<char>, EntryView>,
    frame: FrameView,
    now: u64,
) -> bool {
    match parse_command(frame) {
        Ok(cmd) => wakes_sweeper(m, cmd, now),
        Err(_) => false,
    }
}

/// Serves one frame from a client on `db` at the instant `now`. Gives the
/// answer to send, and whether whoever waits for the next expiration has
/// to be woken.
pub fn handle_frame(db: &mut Db, frame: Frame, now: u64) -> (done: (Frame, bool))
    requires
        old(db).wf(),
    ensures
        final(db).wf(),
        final(db)@ == served(old(db)@, frame@, now).0,
        done.0@ == served(old(db)@, frame@, now).1,
        done.1 == serving_wakes_sweeper(old(db)@, frame@, now),
{
    match Command::from_frame(frame) {
        Ok(cmd) => cmd.apply(db, now),
        Err(e) => (Frame::Error(e.message()), false),
    }
}

} // verus!
