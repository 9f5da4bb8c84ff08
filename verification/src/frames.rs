//! The model of an ID3 tag that the editor reads and writes: a sequence of
//! frames, each an identifier with its content, where a chapter frame holds
//! frames of its own. What adding a frame does to that sequence is stated here
//! as well: the frame replaces the first one that occupies the same slot (same
//! identifier, and for comments, pictures and chapters the same distinguishing
//! field), and goes to the end.

use vstd::prelude::*;
use crate::text::{parse_i32_spec, parse_u32_spec};

verus! {

/// An attached picture as the editor reads it. `picture_type` is the name of the
/// picture type, such as `Other` or `CoverFront`.
pub struct PictureView {
    pub picture_type: Seq<char>,
    pub mime_type: Seq<char>,
    pub description: Seq<char>,
    pub data: Seq<u8>,
}

/// The fields of a chapter frame besides its own frames.
pub struct ChapterHeaderView {
    pub element_id: Seq<char>,
    pub start_time: u32,
    pub end_time: u32,
    pub start_offset: u32,
    pub end_offset: u32,
}

/// The content of a frame, as far as the editor reads it; `Other` stands for
/// every kind of content that it does not read.
pub enum ContentView {
    Text(Seq<char>),
    Comment { lang: Seq<char>, description: Seq<char>, text: Seq<char> },
    Picture(PictureView),
    Chapter(ChapterHeaderView),
    Other,
}

/// A frame inside a chapter.
pub struct SubframeView {
    pub id: Seq<char>,
    pub content: ContentView,
}

/// A frame of a tag; `subframes` holds the frames of a chapter and is empty for
/// every other frame.
pub struct FrameView {
    pub id: Seq<char>,
    pub content: ContentView,
    pub subframes: Seq<SubframeView>,
}

/// An attached picture, read out of a frame.
pub struct PictureData {
    pub picture_type: String,
    pub mime_type: String,
    pub description: String,
    pub data: Vec<u8>,
}

impl View for PictureData {
    type V = PictureView;

    open spec fn view(&self) -> PictureView {
        PictureView {
            picture_type: self.picture_type@,
            mime_type: self.mime_type@,
            description: self.description@,
            data: self.data@,
        }
    }
}

/// The fields of a chapter frame besides its own frames.
pub struct ChapterHeader {
    pub element_id: String,
    pub start_time: u32,
    pub end_time: u32,
    pub start_offset: u32,
    pub end_offset: u32,
}

impl View for ChapterHeader {
    type V = ChapterHeaderView;

    open spec fn view(&self) -> ChapterHeaderView {
        ChapterHeaderView {
            element_id: self.element_id@,
            start_time: self.start_time,
            end_time: self.end_time,
            start_offset: self.start_offset,
            end_offset: self.end_offset,
        }
    }
}

pub open spec fn id_tit2() -> Seq<char> {
    seq!['T', 'I', 'T', '2']
}

pub open spec fn id_tpe1() -> Seq<char> {
    seq!['T', 'P', 'E', '1']
}

pub open spec fn id_talb() -> Seq<char> {
    seq!['T', 'A', 'L', 'B']
}

pub open spec fn id_tyer() -> Seq<char> {
    seq!['T', 'Y', 'E', 'R']
}

pub open spec fn id_tcon() -> Seq<char> {
    seq!['T', 'C', 'O', 'N']
}

pub open spec fn id_trck() -> Seq<char> {
    seq!['T', 'R', 'C', 'K']
}

pub open spec fn id_tpos() -> Seq<char> {
    seq!['T', 'P', 'O', 'S']
}

pub open spec fn id_tcom() -> Seq<char> {
    seq!['T', 'C', 'O', 'M']
}

pub open spec fn id_comm() -> Seq<char> {
    seq!['C', 'O', 'M', 'M']
}

pub open spec fn id_apic() -> Seq<char> {
    seq!['A', 'P', 'I', 'C']
}

pub open spec fn id_chap() -> Seq<char> {
    seq!['C', 'H', 'A', 'P']
}

/// The name of the picture type given to the pictures that the editor attaches.
pub open spec fn picture_type_other() -> Seq<char> {
    seq!['O', 't', 'h', 'e', 'r']
}

/// The kind of a content: 0 text, 1 comment, 2 picture, 3 chapter, 4 anything else.
pub open spec fn kind(c: ContentView) -> int {
    match c {
        ContentView::Text(_) => 0,
        ContentView::Comment { .. } => 1,
        ContentView::Picture(_) => 2,
        ContentView::Chapter(_) => 3,
        ContentView::Other => 4,
    }
}

/// Two contents of frames with the same identifier occupy the same slot: any two
/// texts, comments in the same language with the same description, pictures of
/// the same type, chapters with the same element id.
pub open spec fn same_slot(a: ContentView, b: ContentView) -> bool {
    match (a, b) {
        (ContentView::Text(_), ContentView::Text(_)) => true,
        (
            ContentView::Comment { lang: la, description: da, .. },
            ContentView::Comment { lang: lb, description: db, .. },
        ) => la == lb && da == db,
        (ContentView::Picture(pa), ContentView::Picture(pb)) => pa.picture_type == pb.picture_type,
        (ContentView::Chapter(ca), ContentView::Chapter(cb)) => ca.element_id == cb.element_id,
        _ => false,
    }
}

/// A frame already in a tag can be compared with a new frame `(id, c)`: it is of
/// a kind that the editor reads, and of the same kind as the new one when the
/// identifiers agree.
pub open spec fn comparable(old_id: Seq<char>, old_c: ContentView, id: Seq<char>, c: ContentView) -> bool {
    &&& kind(old_c) != 4
    &&& (old_id == id ==> kind(old_c) == kind(c))
}

/// A frame that the editor adds: a content that it reads, under a four-character
/// identifier.
pub open spec fn addable(id: Seq<char>, c: ContentView) -> bool {
    &&& kind(c) != 4
    &&& id.len() == 4
    &&& forall|i: int| 0 <= i < 4 ==> (#[trigger] id[i] as u32) < 128
}

/// The frames of a tag after adding `f`: the first frame in the same slot is
/// removed, and `f` goes to the end.
pub open spec fn add_frame(frames: Seq<FrameView>, f: FrameView) -> Seq<FrameView>
    decreases frames.len(),
{
    if frames.len() == 0 {
        seq![f]
    } else if frames[0].id == f.id && same_slot(frames[0].content, f.content) {
        frames.drop_first().push(f)
    } else {
        seq![frames[0]] + add_frame(frames.drop_first(), f)
    }
}

/// The frames of a chapter after adding `f`, by the same rule as for a tag.
pub open spec fn add_subframe(frames: Seq<SubframeView>, f: SubframeView) -> Seq<SubframeView>
    decreases frames.len(),
{
    if frames.len() == 0 {
        seq![f]
    } else if frames[0].id == f.id && same_slot(frames[0].content, f.content) {
        frames.drop_first().push(f)
    } else {
        seq![frames[0]] + add_subframe(frames.drop_first(), f)
    }
}

/// Every frame of `frames` can be compared with the new frame `f`.
pub open spec fn frames_comparable(frames: Seq<FrameView>, f: FrameView) -> bool {
    forall|k: int|
        0 <= k < frames.len() ==> comparable(#[trigger] frames[k].id, frames[k].content, f.id, f.content)
}

pub open spec fn subframes_comparable(frames: Seq<SubframeView>, f: SubframeView) -> bool {
    forall|k: int|
        0 <= k < frames.len() ==> comparable(#[trigger] frames[k].id, frames[k].content, f.id, f.content)
}

/// The text of the first frame with identifier `id`, when that frame is a text frame.
pub open spec fn first_text(frames: Seq<FrameView>, id: Seq<char>) -> Option<Seq<char>>
    decreases frames.len(),
{
    if frames.len() == 0 {
        None
    } else if frames[0].id == id {
        match frames[0].content {
            ContentView::Text(t) => Some(t),
            _ => None,
        }
    } else {
        first_text(frames.drop_first(), id)
    }
}

/// The part of a text before the first `/` or NUL.
pub open spec fn pair_head(text: Seq<char>) -> Seq<char>
    decreases text.len(),
{
    if text.len() == 0 {
        text
    } else if text[0] == '/' || text[0] == '\0' {
        Seq::empty()
    } else {
        seq![text[0]] + pair_head(text.drop_first())
    }
}

/// A text without its leading `0` characters.
pub open spec fn trim_leading_zeros(text: Seq<char>) -> Seq<char>
    decreases text.len(),
{
    if text.len() > 0 && text[0] == '0' {
        trim_leading_zeros(text.drop_first())
    } else {
        text
    }
}

/// The year as `id3` reads it: the text of the first TYER frame without its
/// leading zeros, parsed as an `i32`.
pub open spec fn year_of(frames: Seq<FrameView>) -> Option<i32> {
    match first_text(frames, id_tyer()) {
        Some(t) => parse_i32_spec(trim_leading_zeros(t)),
        None => None,
    }
}

/// A number as `id3` reads it from a frame such as TRCK or TPOS: the text of the
/// first frame with identifier `id` up to its first `/` or NUL, parsed as a `u32`.
pub open spec fn number_of(frames: Seq<FrameView>, id: Seq<char>) -> Option<u32> {
    match first_text(frames, id) {
        Some(t) => parse_u32_spec(pair_head(t)),
        None => None,
    }
}

} // verus!
