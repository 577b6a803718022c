//! The values of the wire protocol.

use crate::text::{has_no_line_feed, no_line_feed};
use crate::trusted::{bytes_as_slice, bytes_clone, bytes_seq};
use bytes::Bytes;
use vstd::prelude::*;
use vstd::utf8::encode_utf8;

verus! {

/// One value of the wire protocol.
#[derive(Debug, PartialEq)]
pub enum Frame {
    Simple(String),
    Error(String),
    Integer(i64),
    Bulk(Bytes),
    Null,
    Array(Vec<Frame>),
}

/// The mathematical value of a [`Frame`].
pub enum FrameView {
    Simple(Seq<char>),
    Error(Seq<char>),
    Integer(i64),
    Bulk(Seq<u8>),
    Null,
    Array(Seq<FrameView>),
}

impl FrameView {
    /// The frame can be written to the wire and read back: the text of a
    /// simple string or an error holds no line feed, and every length fits
    /// in 64 bits.
    pub open spec fn well_formed(self) -> bool
        decreases self,
    {
        match self {
            FrameView::Simple(s) => no_line_feed(s) && encode_utf8(s).len() <= u64::MAX,
            FrameView::Error(s) => no_line_feed(s) && encode_utf8(s).len() <= u64::MAX,
            FrameView::Integer(_) => true,
            FrameView::Null => true,
            FrameView::Bulk(b) => b.len() <= u64::MAX,
            FrameView::Array(fs) => fs.len() <= u64::MAX && forall|i: int|
                0 <= i < fs.len() ==> (#[trigger] fs[i]).well_formed(),
        }
    }
}

impl View for Frame {
    type V = FrameView;

    open spec fn view(&self) -> FrameView
        decreases self,
    {
        match self {
            Frame::Simple(s) => FrameView::Simple(s@),
            Frame::Error(s) => FrameView::Error(s@),
            Frame::Integer(n) => FrameView::Integer(*n),
            Frame::Bulk(b) => FrameView::Bulk(bytes_seq(*b)),
            Frame::Null => FrameView::Null,
            Frame::Array(v) => FrameView::Array(views_of(v@)),
        }
    }
}

/// The values of a run of frames, one for one.
pub open spec fn views_of(frames: Seq<Frame>) -> Seq<FrameView>
    decreases frames,
{
    Seq::new(
        frames.len(),
        |i: int|
            if 0 <= i < frames.len() {
                frames[i]@
            } else {
                FrameView::Null
            },
    )
}

impl Frame {
    /// An array without elements, to be filled by the `push_` methods.
    pub fn array() -> (frame: Frame)
        ensures
            frame@ == FrameView::Array(Seq::empty()),
    {
        let frame = Frame::Array(Vec::new());
        assert(views_of(Seq::<Frame>::empty()) =~= Seq::<FrameView>::empty());
        frame
    }

    /// Appends a bulk frame that holds `bytes` to this array.
    pub fn push_bulk(&mut self, bytes: Bytes)
        requires
            *old(self) is Array,
        ensures
            final(self)@ == FrameView::Array(
                old(self)@->Array_0.push(FrameView::Bulk(bytes_seq(bytes))),
            ),
    {
        self.push_frame(Frame::Bulk(bytes));
    }

    /// Appends an integer frame that holds `value` to this array.
    pub fn push_int(&mut self, value: i64)
        requires
            *old(self) is Array,
        ensures
            final(self)@ == FrameView::Array(old(self)@->Array_0.push(FrameView::Integer(value))),
    {
        self.push_frame(Frame::Integer(value));
    }

    /// Appends `item` to this array.
    pub fn push_frame(&mut self, item: Frame)
        requires
            *old(self) is Array,
        ensures
            final(self)@ == FrameView::Array(old(self)@->Array_0.push(item@)),
    {
        match self {
            Frame::Array(items) => {
                assert(views_of(items@.push(item)) =~= views_of(items@).push(item@));
                items.push(item);
            },
            _ => {},
        }
    }

    /// Whether the frame can be written to the wire and read back: whether
    /// no simple string or error in it holds a line feed.
    pub fn is_well_formed(&self) -> (ok: bool)
        ensures
            ok == self@.well_formed(),
        decreases self,
    {
        match self {
            Frame::Simple(s) => {
                let bytes = s.as_str().as_bytes();
                let n: usize = bytes.len();
                assert(encode_utf8(s@).len() == n);
                has_no_line_feed(s.as_str())
            },
            Frame::Error(s) => {
                let bytes = s.as_str().as_bytes();
                let n: usize = bytes.len();
                assert(encode_utf8(s@).len() == n);
                has_no_line_feed(s.as_str())
            },
            Frame::Integer(_) => true,
            Frame::Null => true,
            Frame::Bulk(b) => {
                let bytes = bytes_as_slice(b);
                let n: usize = bytes.len();
                assert(bytes_seq(*b).len() == n);
                true
            },
            Frame::Array(items) => {
                let mut i: usize = 0;
                while i < items.len()
                    invariant
                        i <= items.len(),
                        *self == Frame::Array(*items),
                        forall|j: int|
                            0 <= j < i ==> (#[trigger] views_of(items@)[j]).well_formed(),
                    decreases items.len() - i,
                {
                    assert(decreases_to!(self => self->Array_0@[i as int]));
                    if !items[i].is_well_formed() {
                        assert(!views_of(items@)[i as int].well_formed());
                        return false;
                    }
                    i = i + 1;
                }
                assert(views_of(items@).len() <= u64::MAX);
                true
            },
        }
    }
}

impl Clone for Frame {
    /// A frame of the same value.
    fn clone(&self) -> (copy: Frame)
        ensures
            copy@ == self@,
        decreases self,
    {
        match self {
            Frame::Simple(s) => Frame::Simple(s.clone()),
            Frame::Error(s) => Frame::Error(s.clone()),
            Frame::Integer(n) => Frame::Integer(*n),
            Frame::Bulk(b) => Frame::Bulk(bytes_clone(b)),
            Frame::Null => Frame::Null,
            Frame::Array(items) => {
                let mut copies: Vec<Frame> = Vec::new();
                let mut i: usize = 0;
                while i < items.len()
                    invariant
                        i <= items.len(),
                        *self == Frame::Array(*items),
                        views_of(copies@) =~= views_of(items@).take(i as int),
                    decreases items.len() - i,
                {
                    assert(decreases_to!(self => self->Array_0@[i as int]));
                    let item = items[i].clone();
                    assert(views_of(copies@.push(item)) =~= views_of(copies@).push(item@));
                    copies.push(item);
                    i = i + 1;
                }
                assert(views_of(items@).take(items.len() as int) =~= views_of(items@));
                Frame::Array(copies)
            },
        }
    }
}

} // verus!
