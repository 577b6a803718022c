//! What holds of the library as a whole: how its functions behave one
//! after the other.

use crate::client::{get_result, set_result};
use crate::cmd::get::{word_get, GetView};
use crate::cmd::ping::{word_ping, PingView};
use crate::cmd::set::{is_ex, is_px, word_ex, word_px, word_px_lower, word_set, SetView};
use crate::cmd::{parse_command, request_of, run, CommandView};
use crate::connection::{left_over, taken};
use crate::db::{deadline, lookup, stored, without_expired, EntryView};
use crate::frame::FrameView;
use crate::parse::{bytes_of, text_of, ParseError};
use crate::roundtrip::{lemma_decode_encode, lemma_decode_prefix_incomplete};
use crate::server::served;
use crate::text::{lemma_utf8_len, same_word, upper};
use crate::wire::encode_spec;
use vstd::prelude::*;
use vstd::utf8::{
    decode_utf8, decode_utf8_encode_utf8, encode_utf8, encode_utf8_decode_utf8,
    encode_utf8_valid_utf8, is_leading_byte_width_1, partial_valid_utf8,
    partial_valid_utf8_extend_ascii_block, valid_utf8,
};

verus! {

/// A frame that arrives in two pieces, cut anywhere, is delivered once and
/// whole: the first piece alone gives no frame and stays in the buffer, both
/// pieces give the frame and leave the buffer empty, and the empty buffer
/// gives no second frame.
pub proof fn lemma_split_delivery(f: FrameView, k: int)
    requires
        f.well_formed(),
        0 <= k < encode_spec(f).len(),
    ensures
        taken(encode_spec(f).take(k)) matches Ok(None),
        left_over(encode_spec(f).take(k)) == encode_spec(f).take(k),
        taken(encode_spec(f).take(k) + encode_spec(f).skip(k)) matches Ok(Some(g)) && g == f,
        left_over(encode_spec(f).take(k) + encode_spec(f).skip(k)) == Seq::<u8>::empty(),
        taken(Seq::<u8>::empty()) matches Ok(None),
{
    let enc = encode_spec(f);
    lemma_decode_prefix_incomplete(f, k);
    lemma_decode_prefix_incomplete(f, 0);
    assert(enc.take(0) =~= Seq::<u8>::empty());
    lemma_decode_encode(f, Seq::<u8>::empty());
    assert(enc.take(k) + enc.skip(k) =~= enc + Seq::<u8>::empty());
    assert((enc + Seq::<u8>::empty()).skip(enc.len() as int) =~= Seq::<u8>::empty());
}

/// A key that was written is read back: a `GET` that follows a `SET` of
/// the same key gives the value that was set, at every later instant where
/// no time to live was given, and else at every instant before the time to
/// live has passed.
pub proof fn lemma_set_then_get(
    m: Map<Seq<char>, EntryView>,
    key: Seq<char>,
    value: Seq<u8>,
    expire: Option<nat>,
    set_at: u64,
    get_at: u64,
)
    requires
        expire matches Some(ms) ==> get_at < set_at + ms,
    ensures
        run(
            run(m, CommandView::SetCmd(SetView { key, value, expire }), set_at).0,
            CommandView::Get(GetView { key }),
            get_at,
        ).1 == FrameView::Bulk(value),
{
}

/// An entry with a time to live is gone once that time has passed: a `GET`
/// at or after the instant of the `SET` plus the time to live gives null,
/// and a sweep at such an instant removes the entry from the store.
pub proof fn lemma_expired_is_absent(
    m: Map<Seq<char>, EntryView>,
    key: Seq<char>,
    value: Seq<u8>,
    ms: nat,
    set_at: u64,
    later: u64,
)
    requires
        set_at + ms <= later,
    ensures
        run(
            run(m, CommandView::SetCmd(SetView { key, value, expire: Some(ms) }), set_at).0,
            CommandView::Get(GetView { key }),
            later,
        ).1 == FrameView::Null,
        !without_expired(stored(m, key, value, deadline(set_at, Some(ms))), later).contains_key(
            key,
        ),
{
}

/// A sweep takes nothing from what a `GET` sees: at the instant of the
/// sweep and at every later one, each key reads the same with and without
/// it.
pub proof fn lemma_sweep_is_unseen(
    m: Map<Seq<char>, EntryView>,
    key: Seq<char>,
    swept_at: u64,
    get_at: u64,
)
    requires
        swept_at <= get_at,
    ensures
        lookup(without_expired(m, swept_at), key, get_at) == lookup(m, key, get_at),
{
}

/// Writing a key anew without a time to live wipes the time to live that
/// it had: the new value is read at every later instant.
pub proof fn lemma_overwrite_clears_expiry(
    m: Map<Seq<char>, EntryView>,
    key: Seq<char>,
    first: Seq<u8>,
    expire: Option<nat>,
    second: Seq<u8>,
    first_at: u64,
    second_at: u64,
    get_at: u64,
)
    ensures
        run(
            run(
                run(m, CommandView::SetCmd(SetView { key, value: first, expire }), first_at).0,
                CommandView::SetCmd(SetView { key, value: second, expire: None }),
                second_at,
            ).0,
            CommandView::Get(GetView { key }),
            get_at,
        ).1 == FrameView::Bulk(second),
{
}

/// A frame that is no command changes nothing in the store and is answered
/// by an error frame that says why.
pub proof fn lemma_rejected_frame_changes_nothing(
    m: Map<Seq<char>, EntryView>,
    frame: FrameView,
    now: u64,
)
    requires
        parse_command(frame) is Err,
    ensures
        served(m, frame, now) == (m, FrameView::Error(parse_command(frame)->Err_0.message_spec())),
{
}

/// A `SET` with an option other than `EX` and `PX` is no command: whatever
/// follows the option, the frame is refused as an unsupported option, the
/// client is told so, and the store stays as it was.
pub proof fn lemma_unknown_set_option(
    m: Map<Seq<char>, EntryView>,
    args: Seq<FrameView>,
    now: u64,
)
    requires
        args.len() >= 4,
        text_of(args[0]) matches Some(name) && same_word(encode_utf8(name), word_set()),
        text_of(args[1]) is Some,
        bytes_of(args[2]) is Some,
        text_of(args[3]) matches Some(option) && !is_ex(option) && !is_px(option),
    ensures
        parse_command(FrameView::Array(args)) matches Err(e) && e
            == ParseError::UnsupportedSetOption,
        served(m, FrameView::Array(args), now) == (
            m,
            FrameView::Error("unsupported SET option"@),
        ),
{
    let a1 = args.drop_first();
    let a2 = a1.drop_first();
    let a3 = a2.drop_first();
    assert(a1[0] == args[1]);
    assert(a2[0] == args[2]);
    assert(a3[0] == args[3]);
    let name = text_of(args[0])->Some_0;
    assert(!same_word(encode_utf8(name), word_get())) by {
        let w = encode_utf8(name);
        if same_word(w, word_get()) {
            assert(upper(w[0]) == upper(word_set()[0]));
            assert(upper(w[0]) == upper(word_get()[0]));
        }
    }
}

/// Writing one key leaves every other key as it was: what a `GET` of
/// another key gives is the same before and after the `SET`.
pub proof fn lemma_other_keys_untouched(
    m: Map<Seq<char>, EntryView>,
    key: Seq<char>,
    value: Seq<u8>,
    expire: Option<nat>,
    other: Seq<char>,
    set_at: u64,
    get_at: u64,
)
    requires
        other != key,
    ensures
        run(
            run(m, CommandView::SetCmd(SetView { key, value, expire }), set_at).0,
            CommandView::Get(GetView { key: other }),
            get_at,
        ).1 == run(m, CommandView::Get(GetView { key: other }), get_at).1,
{
}

/// `PING` without a message is answered by `PONG`, and `PING` with a
/// message by that message, unchanged; the store is as it was.
pub proof fn lemma_ping_identity(m: Map<Seq<char>, EntryView>, msg: Seq<u8>, now: u64)
    ensures
        run(m, CommandView::Ping(PingView { msg: None }), now) == (m, FrameView::Simple("PONG"@)),
        run(m, CommandView::Ping(PingView { msg: Some(msg) }), now) == (m, FrameView::Bulk(msg)),
{
}

/// Bytes below 128 are text, and the text has these bytes.
proof fn lemma_ascii_is_text(word: Seq<u8>)
    requires
        forall|i: int| 0 <= i < word.len() ==> #[trigger] word[i] < 128,
    ensures
        valid_utf8(word),
        encode_utf8(decode_utf8(word)) == word,
{
    assert(word.subrange(0, 0) =~= Seq::<u8>::empty());
    assert(partial_valid_utf8(word, 0));
    assert forall|i: int| 0 <= 0 <= i < word.len() <= word.len() implies #[trigger]
        is_leading_byte_width_1(word[i]) by {}
    partial_valid_utf8_extend_ascii_block(word, 0, word.len() as int);
    assert(word.subrange(0, word.len() as int) =~= word);
    decode_utf8_encode_utf8(word);
}

/// The request that a client writes for a command is read by the server as
/// that command, as long as a time to live is one that the wire can carry.
pub proof fn lemma_request_is_understood(cmd: CommandView)
    requires
        cmd matches CommandView::SetCmd(c) ==> (c.expire matches Some(ms) ==> ms <= i64::MAX),
    ensures
        parse_command(request_of(cmd)) matches Ok(read) && read == cmd,
{
    lemma_ascii_is_text(word_get());
    lemma_ascii_is_text(word_set());
    lemma_ascii_is_text(word_ping());
    lemma_ascii_is_text(word_px_lower());
    let all = request_of(cmd)->Array_0;
    let args = all.drop_first();
    assert(upper(word_set()[0]) != upper(word_get()[0]));
    assert(upper(word_px_lower()[0]) != upper(word_ex()[0]));
    assert(same_word(word_px_lower(), word_px()));
    match cmd {
        CommandView::Get(c) => {
            encode_utf8_valid_utf8(c.key);
            encode_utf8_decode_utf8(c.key);
            assert(args[0] == all[1]);
            assert(args.drop_first().len() == 0);
            assert(same_word(word_get(), word_get()));
        },
        CommandView::SetCmd(c) => {
            encode_utf8_valid_utf8(c.key);
            encode_utf8_decode_utf8(c.key);
            let a1 = args.drop_first();
            let a2 = a1.drop_first();
            assert(args[0] == all[1]);
            assert(a1[0] == all[2]);
            assert(same_word(word_set(), word_set()));
            assert(!same_word(word_set(), word_get()));
            match c.expire {
                None => {
                    assert(a2.len() == 0);
                },
                Some(ms) => {
                    let a3 = a2.drop_first();
                    assert(a2[0] == all[3]);
                    assert(a3[0] == all[4]);
                    assert(a3.drop_first().len() == 0);
                },
            }
        },
        CommandView::Ping(c) => {
            assert(same_word(word_ping(), word_ping()));
            match c.msg {
                None => {
                    assert(args.len() == 0);
                },
                Some(msg) => {
                    assert(args[0] == all[1]);
                    assert(args.drop_first().len() == 0);
                },
            }
        },
    }
}

/// A client reads from the answer to its `GET` what the store holds for the
/// key, and from the answer to its `SET` that the key was written.
pub proof fn lemma_answers_are_understood(
    m: Map<Seq<char>, EntryView>,
    key: Seq<char>,
    value: Seq<u8>,
    expire: Option<nat>,
    now: u64,
)
    ensures
        get_result(run(m, CommandView::Get(GetView { key }), now).1) matches Ok(value)
            && value == lookup(m, key, now),
        set_result(run(m, CommandView::SetCmd(SetView { key, value, expire }), now).1) is Ok,
{
}

/// The text of every parse error can stand in an error frame.
pub proof fn lemma_message_is_well_formed(e: ParseError)
    ensures
        FrameView::Error(e.message_spec()).well_formed(),
{
    reveal_strlit("protocol error; unexpected end of stream");
    reveal_strlit("protocol error; expected array");
    reveal_strlit("protocol error; expected string");
    reveal_strlit("protocol error; expected integer");
    reveal_strlit("protocol error; expected bulk string");
    reveal_strlit("protocol error; expected end of frame");
    reveal_strlit("unknown command");
    reveal_strlit("unsupported SET option");
    reveal_strlit("invalid expire time in SET");
    lemma_utf8_len(e.message_spec());
}

/// Every answer of the server can be written to the wire and read back, as
/// long as the request could and the values in the store are of a length
/// that fits in 64 bits.
pub proof fn lemma_answers_are_well_formed(
    m: Map<Seq<char>, EntryView>,
    frame: FrameView,
    now: u64,
)
    requires
        frame.well_formed(),
        forall|k: Seq<char>| m.contains_key(k) ==> (#[trigger] m[k]).value.len() <= u64::MAX,
    ensures
        served(m, frame, now).1.well_formed(),
{
    match parse_command(frame) {
        Err(e) => {
            lemma_message_is_well_formed(e);
        },
        Ok(cmd) => {
            reveal_strlit("OK");
            reveal_strlit("PONG");
            lemma_utf8_len("OK"@);
            lemma_utf8_len("PONG"@);
            let all = frame->Array_0;
            let args = all.drop_first();
            if args.len() > 0 {
                assert(args[0] == all[1]);
                assert(all[1].well_formed());
            }
        },
    }
}

} // verus!
