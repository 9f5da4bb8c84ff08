//! The calls into the `id3` crate. Each item here is trusted: its contract is
//! read off the crate's source (`Tag::read_from2`, `TagLike`'s getters and
//! `add_frame`, `Frame`, `Content`'s accessors), not proved.

use vstd::prelude::*;
use id3::frame::{Chapter, Content, Frame, Picture, PictureType};
use id3::{Tag, TagLike};
use crate::frames::{
    add_frame, add_subframe, addable, first_text, frames_comparable, id_apic, id_chap, id_comm,
    id_talb, id_tcon, id_tit2, id_tpe1, id_tpos, id_trck, number_of, picture_type_other,
    subframes_comparable, year_of, ChapterHeader, ChapterHeaderView, ContentView,
    FrameView, PictureData, PictureView, SubframeView,
};
use crate::model::opt_string_view;

verus! {

#[verifier::external_type_specification]
#[verifier::external_body]
pub struct ExId3Tag(id3::Tag);

#[verifier::external_type_specification]
#[verifier::external_body]
pub struct ExId3Chapter(id3::frame::Chapter);

/// The frames of a tag, in order.
pub uninterp spec fn id3_tag_frames(tag: id3::Tag) -> Seq<FrameView>;

/// The frames of a chapter, in order.
pub uninterp spec fn id3_chapter_frames(chapter: id3::frame::Chapter) -> Seq<SubframeView>;

/// The element id, times and offsets that a chapter was made with.
pub uninterp spec fn id3_chapter_header(chapter: id3::frame::Chapter) -> ChapterHeaderView;

/// What `id3` reads from the bytes of a file: the frames of the tag, or the text
/// of the error it reports.
pub uninterp spec fn id3_read(data: Seq<u8>) -> Result<Seq<FrameView>, Seq<char>>;

/// The genre that `id3` makes of the text of a TCON frame, with ID3v1 genre
/// numbers resolved to their names.
pub uninterp spec fn id3_genre(tcon: Seq<char>) -> Seq<char>;

/// The frame at index `i` of a tag.
pub open spec fn frame_at(tag: id3::Tag, i: int) -> FrameView {
    id3_tag_frames(tag)[i]
}

/// Reads a tag from the bytes of a file (`Tag::read_from2` on a cursor over
/// them), an error as its text (its `Display`): the tag's frames, or the error
/// text, are `id3_read` of the bytes.
#[verifier::external_body]
pub(crate) fn read_tag(data: &[u8]) -> (res: Result<id3::Tag, String>)
    ensures
        res is Ok <==> id3_read(data@) is Ok,
        res matches Ok(tag) ==> id3_read(data@)->Ok_0 == id3_tag_frames(tag),
        res matches Err(e) ==> id3_read(data@)->Err_0 == e@,
{
    match Tag::read_from2(std::io::Cursor::new(data)) {
        Ok(tag) => Ok(tag),
        Err(e) => Err(e.to_string()),
    }
}

/// The number of frames of a tag (`Tag::frames`).
#[verifier::external_body]
pub(crate) fn tag_frame_count(tag: &id3::Tag) -> (n: usize)
    ensures
        n == id3_tag_frames(*tag).len(),
{
    tag.frames().count()
}

/// The identifier of frame `i` (`Frame::id`).
#[verifier::external_body]
pub(crate) fn tag_frame_id(tag: &id3::Tag, i: usize) -> (res: String)
    requires
        i < id3_tag_frames(*tag).len(),
    ensures
        res@ == frame_at(*tag, i as int).id,
{
    tag.frames().nth(i).unwrap().id().to_string()
}

/// The text of frame `i` when it is a text frame (`Content::text`).
#[verifier::external_body]
pub(crate) fn tag_frame_text(tag: &id3::Tag, i: usize) -> (res: Option<String>)
    requires
        i < id3_tag_frames(*tag).len(),
    ensures
        opt_string_view(res) == (match frame_at(*tag, i as int).content {
            ContentView::Text(t) => Some(t),
            _ => None,
        }),
{
    tag.frames().nth(i).unwrap().content().text().map(|t| t.to_string())
}

/// The text of frame `i` when it is a comment (`Content::comment`).
#[verifier::external_body]
pub(crate) fn tag_frame_comment(tag: &id3::Tag, i: usize) -> (res: Option<String>)
    requires
        i < id3_tag_frames(*tag).len(),
    ensures
        opt_string_view(res) == (match frame_at(*tag, i as int).content {
            ContentView::Comment { text, .. } => Some(text),
            _ => None,
        }),
{
    tag.frames().nth(i).unwrap().content().comment().map(|c| c.text.clone())
}

/// The picture of frame `i` when it is a picture (`Content::picture`), its type
/// by the name of its variant.
#[verifier::external_body]
pub(crate) fn tag_frame_picture(tag: &id3::Tag, i: usize) -> (res: Option<PictureData>)
    requires
        i < id3_tag_frames(*tag).len(),
    ensures
        match frame_at(*tag, i as int).content {
            ContentView::Picture(p) => res matches Some(d) && d@ == p,
            _ => res is None,
        },
{
    tag.frames().nth(i).unwrap().content().picture().map(|p| PictureData {
        picture_type: format!("{:?}", p.picture_type),
        mime_type: p.mime_type.clone(),
        description: p.description.clone(),
        data: p.data.clone(),
    })
}

/// The element id, times and offsets of frame `i` when it is a chapter
/// (`Content::chapter`).
#[verifier::external_body]
pub(crate) fn tag_frame_chapter(tag: &id3::Tag, i: usize) -> (res: Option<ChapterHeader>)
    requires
        i < id3_tag_frames(*tag).len(),
    ensures
        match frame_at(*tag, i as int).content {
            ContentView::Chapter(h) => res matches Some(c) && c@ == h,
            _ => res is None,
        },
{
    tag.frames().nth(i).unwrap().content().chapter().map(|c| ChapterHeader {
        element_id: c.element_id.clone(),
        start_time: c.start_time,
        end_time: c.end_time,
        start_offset: c.start_offset,
        end_offset: c.end_offset,
    })
}

/// The number of frames of chapter frame `i` (`Chapter::frames`).
#[verifier::external_body]
pub(crate) fn tag_subframe_count(tag: &id3::Tag, i: usize) -> (n: usize)
    requires
        i < id3_tag_frames(*tag).len(),
        frame_at(*tag, i as int).content is Chapter,
    ensures
        n == frame_at(*tag, i as int).subframes.len(),
{
    tag.frames().nth(i).unwrap().content().chapter().unwrap().frames.len()
}

/// The identifier of frame `j` of chapter frame `i`.
#[verifier::external_body]
pub(crate) fn tag_subframe_id(tag: &id3::Tag, i: usize, j: usize) -> (res: String)
    requires
        i < id3_tag_frames(*tag).len(),
        frame_at(*tag, i as int).content is Chapter,
        j < frame_at(*tag, i as int).subframes.len(),
    ensures
        res@ == frame_at(*tag, i as int).subframes[j as int].id,
{
    tag.frames().nth(i).unwrap().content().chapter().unwrap().frames[j].id().to_string()
}

/// The text of frame `j` of chapter frame `i` when it is a text frame.
#[verifier::external_body]
pub(crate) fn tag_subframe_text(tag: &id3::Tag, i: usize, j: usize) -> (res: Option<String>)
    requires
        i < id3_tag_frames(*tag).len(),
        frame_at(*tag, i as int).content is Chapter,
        j < frame_at(*tag, i as int).subframes.len(),
    ensures
        opt_string_view(res) == (match frame_at(*tag, i as int).subframes[j as int].content {
            ContentView::Text(t) => Some(t),
            _ => None,
        }),
{
    let c = tag.frames().nth(i).unwrap().content().chapter().unwrap();
    c.frames[j].content().text().map(|t| t.to_string())
}

/// The picture of frame `j` of chapter frame `i` when it is a picture.
#[verifier::external_body]
pub(crate) fn tag_subframe_picture(tag: &id3::Tag, i: usize, j: usize) -> (res: Option<PictureData>)
    requires
        i < id3_tag_frames(*tag).len(),
        frame_at(*tag, i as int).content is Chapter,
        j < frame_at(*tag, i as int).subframes.len(),
    ensures
        match frame_at(*tag, i as int).subframes[j as int].content {
            ContentView::Picture(p) => res matches Some(d) && d@ == p,
            _ => res is None,
        },
{
    let c = tag.frames().nth(i).unwrap().content().chapter().unwrap();
    c.frames[j].content().picture().map(|p| PictureData {
        picture_type: format!("{:?}", p.picture_type),
        mime_type: p.mime_type.clone(),
        description: p.description.clone(),
        data: p.data.clone(),
    })
}

/// The title (`TagLike::title`): the text of the first TIT2 frame.
#[verifier::external_body]
pub(crate) fn tag_title(tag: &id3::Tag) -> (res: Option<String>)
    ensures
        opt_string_view(res) == first_text(id3_tag_frames(*tag), id_tit2()),
{
    tag.title().map(|t| t.to_string())
}

/// The artist (`TagLike::artist`): the text of the first TPE1 frame.
#[verifier::external_body]
pub(crate) fn tag_artist(tag: &id3::Tag) -> (res: Option<String>)
    ensures
        opt_string_view(res) == first_text(id3_tag_frames(*tag), id_tpe1()),
{
    tag.artist().map(|t| t.to_string())
}

/// The album (`TagLike::album`): the text of the first TALB frame.
#[verifier::external_body]
pub(crate) fn tag_album(tag: &id3::Tag) -> (res: Option<String>)
    ensures
        opt_string_view(res) == first_text(id3_tag_frames(*tag), id_talb()),
{
    tag.album().map(|t| t.to_string())
}

/// The year (`TagLike::year`): the text of the first TYER frame without its
/// leading zeros, parsed as an `i32`.
#[verifier::external_body]
pub(crate) fn tag_year(tag: &id3::Tag) -> (res: Option<i32>)
    ensures
        res == year_of(id3_tag_frames(*tag)),
{
    tag.year()
}

/// The genre (`TagLike::genre_parsed`): `id3_genre` of the text of the first
/// TCON frame.
#[verifier::external_body]
pub(crate) fn tag_genre(tag: &id3::Tag) -> (res: Option<String>)
    ensures
        opt_string_view(res) == (match first_text(id3_tag_frames(*tag), id_tcon()) {
            Some(t) => Some(id3_genre(t)),
            None => None,
        }),
{
    tag.genre_parsed().map(|g| g.to_string())
}

/// The track number (`TagLike::track`): the text of the first TRCK frame up to
/// the first `/` or NUL, parsed as a `u32`.
#[verifier::external_body]
pub(crate) fn tag_track(tag: &id3::Tag) -> (res: Option<u32>)
    ensures
        res == number_of(id3_tag_frames(*tag), id_trck()),
{
    tag.track()
}

/// The disc number (`TagLike::disc`): the text of the first TPOS frame up to the
/// first `/` or NUL, parsed as a `u32`.
#[verifier::external_body]
pub(crate) fn tag_disc(tag: &id3::Tag) -> (res: Option<u32>)
    ensures
        res == number_of(id3_tag_frames(*tag), id_tpos()),
{
    tag.disc()
}

/// A new tag without frames (`Tag::new`).
#[verifier::external_body]
pub(crate) fn tag_new() -> (res: id3::Tag)
    ensures
        id3_tag_frames(res) == Seq::<FrameView>::empty(),
{
    Tag::new()
}

/// Adds a text frame (`TagLike::add_frame` of `Frame::text`).
#[verifier::external_body]
pub(crate) fn tag_add_text(tag: &mut id3::Tag, id: &str, text: &str)
    requires
        addable(id@, ContentView::Text(text@)),
        frames_comparable(
            id3_tag_frames(*old(tag)),
            FrameView { id: id@, content: ContentView::Text(text@), subframes: Seq::empty() },
        ),
    ensures
        id3_tag_frames(*final(tag)) == add_frame(
            id3_tag_frames(*old(tag)),
            FrameView { id: id@, content: ContentView::Text(text@), subframes: Seq::empty() },
        ),
{
    tag.add_frame(Frame::text(id, text));
}

/// Adds a COMM frame (`TagLike::add_frame` of a `Content::Comment`).
#[verifier::external_body]
pub(crate) fn tag_add_comment(tag: &mut id3::Tag, lang: &str, description: &str, text: &str)
    requires
        frames_comparable(
            id3_tag_frames(*old(tag)),
            FrameView {
                id: id_comm(),
                content: ContentView::Comment { lang: lang@, description: description@, text: text@ },
                subframes: Seq::empty(),
            },
        ),
    ensures
        id3_tag_frames(*final(tag)) == add_frame(
            id3_tag_frames(*old(tag)),
            FrameView {
                id: id_comm(),
                content: ContentView::Comment { lang: lang@, description: description@, text: text@ },
                subframes: Seq::empty(),
            },
        ),
{
    let c = id3::frame::Comment { lang: lang.to_string(), description: description.to_string(), text: text.to_string() };
    tag.add_frame(Frame::with_content("COMM", Content::Comment(c)));
}

/// A new chapter without frames (an `id3::frame::Chapter` made of the header).
#[verifier::external_body]
pub(crate) fn chapter_new(header: ChapterHeader) -> (res: id3::frame::Chapter)
    ensures
        id3_chapter_header(res) == header@,
        id3_chapter_frames(res) == Seq::<SubframeView>::empty(),
{
    Chapter {
        element_id: header.element_id,
        start_time: header.start_time,
        end_time: header.end_time,
        start_offset: header.start_offset,
        end_offset: header.end_offset,
        frames: Vec::new(),
    }
}

/// Adds a text frame to a chapter (`TagLike::add_frame` of `Frame::text`).
#[verifier::external_body]
pub(crate) fn chapter_add_text(chapter: &mut id3::frame::Chapter, id: &str, text: &str)
    requires
        addable(id@, ContentView::Text(text@)),
        subframes_comparable(
            id3_chapter_frames(*old(chapter)),
            SubframeView { id: id@, content: ContentView::Text(text@) },
        ),
    ensures
        id3_chapter_header(*final(chapter)) == id3_chapter_header(*old(chapter)),
        id3_chapter_frames(*final(chapter)) == add_subframe(
            id3_chapter_frames(*old(chapter)),
            SubframeView { id: id@, content: ContentView::Text(text@) },
        ),
{
    chapter.add_frame(Frame::text(id, text));
}

/// Adds an APIC frame of picture type `Other` to a chapter (`TagLike::add_frame`
/// of a `Content::Picture`).
#[verifier::external_body]
pub(crate) fn chapter_add_other_picture(
    chapter: &mut id3::frame::Chapter,
    mime_type: String,
    description: String,
    data: Vec<u8>,
)
    requires
        subframes_comparable(
            id3_chapter_frames(*old(chapter)),
            SubframeView {
                id: id_apic(),
                content: ContentView::Picture(
                    PictureView { picture_type: picture_type_other(), mime_type: mime_type@, description: description@, data: data@ },
                ),
            },
        ),
    ensures
        id3_chapter_header(*final(chapter)) == id3_chapter_header(*old(chapter)),
        id3_chapter_frames(*final(chapter)) == add_subframe(
            id3_chapter_frames(*old(chapter)),
            SubframeView {
                id: id_apic(),
                content: ContentView::Picture(
                    PictureView { picture_type: picture_type_other(), mime_type: mime_type@, description: description@, data: data@ },
                ),
            },
        ),
{
    let p = Picture { mime_type, picture_type: PictureType::Other, description, data };
    chapter.add_frame(Frame::with_content("APIC", Content::Picture(p)));
}

/// Adds a chapter to a tag as a CHAP frame (`TagLike::add_frame`).
#[verifier::external_body]
pub(crate) fn tag_add_chapter(tag: &mut id3::Tag, chapter: id3::frame::Chapter)
    requires
        frames_comparable(
            id3_tag_frames(*old(tag)),
            FrameView {
                id: id_chap(),
                content: ContentView::Chapter(id3_chapter_header(chapter)),
                subframes: id3_chapter_frames(chapter),
            },
        ),
    ensures
        id3_tag_frames(*final(tag)) == add_frame(
            id3_tag_frames(*old(tag)),
            FrameView {
                id: id_chap(),
                content: ContentView::Chapter(id3_chapter_header(chapter)),
                subframes: id3_chapter_frames(chapter),
            },
        ),
{
    tag.add_frame(chapter);
}

} // verus!
