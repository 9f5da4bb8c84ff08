//! Properties of loading: a chapter's title comes from its TIT2 text subframe
//! alone, and a tag that `id3` reads loads whenever its pictures can be put in
//! base64 at all.

use vstd::prelude::*;
use crate::base64_bridge::{base64_encodable, base64_encoded};
use crate::frames::{first_text, id_talb, id_tcom, id_tit2, id_tpe1, ChapterHeaderView, ContentView, FrameView, SubframeView};
use crate::id3_bridge::id3_read;
use crate::laws::lemma_chapters_append;
use crate::load::{
    arts_of, chapter_arts, chapter_info, chapters_of, picture_info, pictures_encodable, pictures_of,
    tag_info_of, text_or_empty,
};
use crate::model::{ChapterArtView, PictureInfoView};

verus! {

/// A subframe that is not a TIT2 text subframe leaves a loaded chapter's title
/// as it was: a TIT3 subtitle, a comment, a picture or any other frame.
pub proof fn chapter_title_ignores_other_subframes(h: ChapterHeaderView, subs: Seq<SubframeView>, s: SubframeView)
    requires
        !(s.id == id_tit2() && s.content is Text),
    ensures
        chapter_info(h, subs.push(s)).title == chapter_info(h, subs).title,
{
    assert(subs.push(s).drop_last() =~= subs);
}

/// A TIT2 text subframe makes its text the loaded chapter's title, whatever
/// came before it.
pub proof fn chapter_title_from_title_subframe(h: ChapterHeaderView, subs: Seq<SubframeView>, t: Seq<char>)
    ensures
        chapter_info(h, subs.push(SubframeView { id: id_tit2(), content: ContentView::Text(t) })).title == t,
{
}

/// A loaded chapter's title is the text of its last TIT2 text subframe, whatever
/// other text subframes follow it.
pub proof fn chapter_title_is_title_subframe(h: ChapterHeaderView, subs: Seq<SubframeView>, k: int)
    requires
        0 <= k < subs.len(),
        subs[k].id == id_tit2(),
        subs[k].content is Text,
        forall|j: int| k < j < subs.len() ==> !((#[trigger] subs[j]).id == id_tit2() && subs[j].content is Text),
    ensures
        chapter_info(h, subs).title == subs[k].content->Text_0,
    decreases subs.len(),
{
    if k < subs.len() - 1 {
        let init = subs.drop_last();
        assert(init[k] == subs[k]);
        assert forall|j: int| k < j < init.len() implies !((#[trigger] init[j]).id == id_tit2() && init[j].content is Text) by {
            assert(init[j] == subs[j]);
        }
        chapter_title_is_title_subframe(h, init, k);
        chapter_title_ignores_other_subframes(h, init, subs.last());
        assert(init.push(subs.last()) =~= subs);
    }
}

/// A chapter with no TIT2 text subframe loads with an empty title.
pub proof fn chapter_title_without_title_subframe(h: ChapterHeaderView, subs: Seq<SubframeView>)
    requires
        forall|j: int| 0 <= j < subs.len() ==> !((#[trigger] subs[j]).id == id_tit2() && subs[j].content is Text),
    ensures
        chapter_info(h, subs).title.len() == 0,
    decreases subs.len(),
{
    if subs.len() > 0 {
        let init = subs.drop_last();
        assert forall|j: int| 0 <= j < init.len() implies !((#[trigger] init[j]).id == id_tit2() && init[j].content is Text) by {
            assert(init[j] == subs[j]);
        }
        chapter_title_without_title_subframe(h, init);
        chapter_title_ignores_other_subframes(h, init, subs.last());
        assert(init.push(subs.last()) =~= subs);
    }
}

/// Size is no reason for a tag to fail to load but that a picture's base64 text
/// would not fit in memory: where the encoded length of every picture, of the
/// tag and of its chapters, fits in a `usize`, the pictures are encodable, and so
/// `parse_mp3_data` succeeds whenever `id3` reads the tag.
pub proof fn encodable_pictures_load(frames: Seq<FrameView>)
    requires
        forall|k: int|
            0 <= k < frames.len() ==> ((#[trigger] frames[k]).content matches ContentView::Picture(p)
                ==> base64_encodable(p.data.len())),
        forall|k: int, j: int|
            0 <= k < frames.len() && frames[k].content is Chapter && 0 <= j < frames[k].subframes.len() ==> (
            (#[trigger] frames[k].subframes[j]).content matches ContentView::Picture(p)
                ==> base64_encodable(p.data.len())),
    ensures
        pictures_encodable(frames),
{
}

/// Every picture of at most `0x3FFF_FFFF` bytes can be put in base64.
pub proof fn small_picture_encodable(len: nat)
    requires
        len <= 0x3FFF_FFFF,
    ensures
        base64_encodable(len),
{
    assert(4 * ((len + 2) / 3) <= 0xFFFF_FFFF) by (nonlinear_arith)
        requires
            len <= 0x3FFF_FFFF,
    ;
}

/// A tag whose pictures, of the tag and of its chapters, are each of at most
/// `0x3FFF_FFFF` bytes has encodable pictures: `parse_mp3_data` gives `Ok` for
/// it exactly when `id3` reads it.
pub proof fn small_pictures_load(frames: Seq<FrameView>)
    requires
        forall|k: int|
            0 <= k < frames.len() ==> ((#[trigger] frames[k]).content matches ContentView::Picture(p)
                ==> p.data.len() <= 0x3FFF_FFFF),
        forall|k: int, j: int|
            0 <= k < frames.len() && frames[k].content is Chapter && 0 <= j < frames[k].subframes.len() ==> (
            (#[trigger] frames[k].subframes[j]).content matches ContentView::Picture(p)
                ==> p.data.len() <= 0x3FFF_FFFF),
    ensures
        pictures_encodable(frames),
{
    assert forall|k: int|
        0 <= k < frames.len() implies ((#[trigger] frames[k]).content matches ContentView::Picture(p)
            ==> base64_encodable(p.data.len())) by {
        if let ContentView::Picture(p) = frames[k].content {
            small_picture_encodable(p.data.len());
        }
    }
    assert forall|k: int, j: int|
        0 <= k < frames.len() && frames[k].content is Chapter && 0 <= j < frames[k].subframes.len() implies (
        (#[trigger] frames[k].subframes[j]).content matches ContentView::Picture(p)
            ==> base64_encodable(p.data.len())) by {
        if let ContentView::Picture(p) = frames[k].subframes[j].content {
            small_picture_encodable(p.data.len());
        }
    }
    encodable_pictures_load(frames);
}

/// An MP3 file whose tag `id3` reads, with pictures of at most `0x3FFF_FFFF`
/// bytes each, meets the condition under which `parse_mp3_data` gives `Ok`.
pub proof fn small_tags_load(data: Seq<u8>)
    requires
        id3_read(data) is Ok,
        forall|k: int|
            0 <= k < id3_read(data)->Ok_0.len() ==> ((#[trigger] id3_read(data)->Ok_0[k]).content matches ContentView::Picture(p)
                ==> p.data.len() <= 0x3FFF_FFFF),
        forall|k: int, j: int|
            0 <= k < id3_read(data)->Ok_0.len() && id3_read(data)->Ok_0[k].content is Chapter
                && 0 <= j < id3_read(data)->Ok_0[k].subframes.len() ==> (
            (#[trigger] id3_read(data)->Ok_0[k].subframes[j]).content matches ContentView::Picture(p)
                ==> p.data.len() <= 0x3FFF_FFFF),
    ensures
        id3_read(data) matches Ok(frames) && pictures_encodable(frames),
{
    small_pictures_load(id3_read(data)->Ok_0);
}

/// A frame that is not a TCOM text frame leaves the loaded composer as it was;
/// a TCOM text frame makes its text the composer, whatever came before it.
pub proof fn composer_is_last_tcom(frames: Seq<FrameView>, f: FrameView)
    ensures
        (f.id == id_tcom() && f.content is Text) ==> tag_info_of(frames.push(f)).composer == f.content->Text_0,
        !(f.id == id_tcom() && f.content is Text) ==> tag_info_of(frames.push(f)).composer == tag_info_of(
            frames,
        ).composer,
{
    assert(frames.push(f).drop_last() =~= frames);
}

/// A frame that is not a comment leaves the loaded comment as it was; a comment
/// frame makes its text the comment, whatever came before it.
pub proof fn comment_is_last_comment(frames: Seq<FrameView>, f: FrameView)
    ensures
        f.content matches ContentView::Comment { text, .. } ==> tag_info_of(frames.push(f)).comment == text,
        !(f.content is Comment) ==> tag_info_of(frames.push(f)).comment == tag_info_of(frames).comment,
{
    assert(frames.push(f).drop_last() =~= frames);
}

/// The loaded pictures of two runs of frames put together are those of the
/// first run, then those of the second.
pub proof fn pictures_split(a: Seq<FrameView>, b: Seq<FrameView>)
    ensures
        tag_info_of(a + b).pictures == tag_info_of(a).pictures + tag_info_of(b).pictures,
    decreases b.len(),
{
    if b.len() == 0 {
        assert(a + b =~= a);
        assert(pictures_of(a) + pictures_of(b) =~= pictures_of(a));
    } else {
        assert((a + b).drop_last() =~= a + b.drop_last());
        assert((a + b).last() == b.last());
        pictures_split(a, b.drop_last());
        if let ContentView::Picture(p) = b.last().content {
            assert(pictures_of(a) + pictures_of(b.drop_last()).push(picture_info(p)) =~= (pictures_of(a)
                + pictures_of(b.drop_last())).push(picture_info(p)));
        }
    }
}

/// A picture frame loads as one picture, with its type, MIME type and
/// description, and its data in base64; any other frame loads as none.
pub proof fn picture_frame_loads(f: FrameView)
    ensures
        f.content matches ContentView::Picture(p) ==> tag_info_of(seq![f]).pictures == seq![
            PictureInfoView {
                picture_type: p.picture_type,
                mime_type: p.mime_type,
                description: p.description,
                data_base64: base64_encoded(p.data),
            },
        ],
        !(f.content is Picture) ==> tag_info_of(seq![f]).pictures.len() == 0,
{
    assert(seq![f].drop_last() =~= Seq::<FrameView>::empty());
    assert(pictures_of(Seq::<FrameView>::empty()).len() == 0);
    if let ContentView::Picture(p) = f.content {
        assert(pictures_of(seq![f]) =~= seq![picture_info(p)]);
    }
}

/// A subframe that is not a picture leaves a loaded chapter's picture as it
/// was; a picture subframe makes its data, in base64, the chapter's picture.
pub proof fn chapter_picture_is_last_picture(h: ChapterHeaderView, subs: Seq<SubframeView>, s: SubframeView)
    ensures
        s.content matches ContentView::Picture(p) ==> chapter_info(h, subs.push(s)).picture_data_base64 == Some(
            base64_encoded(p.data),
        ),
        !(s.content is Picture) ==> chapter_info(h, subs.push(s)).picture_data_base64 == chapter_info(
            h,
            subs,
        ).picture_data_base64,
{
    assert(subs.push(s).drop_last() =~= subs);
}

/// A chapter frame loads with the element id, times and offsets of its header.
pub proof fn chapter_header_loads(h: ChapterHeaderView, subs: Seq<SubframeView>)
    ensures
        chapter_info(h, subs).element_id == h.element_id,
        chapter_info(h, subs).start_time == h.start_time,
        chapter_info(h, subs).end_time == h.end_time,
        chapter_info(h, subs).start_offset == h.start_offset,
        chapter_info(h, subs).end_offset == h.end_offset,
{
}

/// The loaded chapters and chapter art of two runs of frames put together are
/// those of the first run, then those of the second.
pub proof fn chapters_split(a: Seq<FrameView>, b: Seq<FrameView>)
    ensures
        chapters_of(a + b) == chapters_of(a) + chapters_of(b),
        arts_of(a + b) == arts_of(a) + arts_of(b),
{
    lemma_chapters_append(a, b);
}

/// A chapter frame loads as one chapter, and each of its picture subframes, in
/// order, as art of that chapter; any other frame loads as no chapter and no art.
pub proof fn chapter_frame_loads(f: FrameView)
    ensures
        f.content matches ContentView::Chapter(h) ==> chapters_of(seq![f]) == seq![chapter_info(h, f.subframes)]
            && arts_of(seq![f]) == chapter_arts(h.element_id, f.subframes),
        !(f.content is Chapter) ==> chapters_of(seq![f]).len() == 0 && arts_of(seq![f]).len() == 0,
{
    assert(seq![f].drop_last() =~= Seq::<FrameView>::empty());
    assert(chapters_of(Seq::<FrameView>::empty()).len() == 0);
    assert(arts_of(Seq::<FrameView>::empty()).len() == 0);
    if let ContentView::Chapter(h) = f.content {
        assert(chapters_of(seq![f]) =~= seq![chapter_info(h, f.subframes)]);
        assert(Seq::<ChapterArtView>::empty() + chapter_arts(h.element_id, f.subframes) =~= chapter_arts(
            h.element_id,
            f.subframes,
        ));
    }
}

/// The art of a chapter's subframes: every picture subframe, in order, as art of
/// the chapter, with its MIME type, description and data in base64.
pub proof fn chapter_art_is_pictures(element_id: Seq<char>, subs: Seq<SubframeView>, s: SubframeView)
    ensures
        s.content matches ContentView::Picture(p) ==> chapter_arts(element_id, subs.push(s)) == chapter_arts(
            element_id,
            subs,
        ).push(
            ChapterArtView {
                element_id: element_id,
                mime_type: p.mime_type,
                description: p.description,
                data_base64: base64_encoded(p.data),
            },
        ),
        !(s.content is Picture) ==> chapter_arts(element_id, subs.push(s)) == chapter_arts(element_id, subs),
{
    assert(subs.push(s).drop_last() =~= subs);
}

/// `first_text` is the text of the first frame with the identifier, `None` when
/// that frame is not a text frame.
proof fn lemma_first_frame_text(frames: Seq<FrameView>, id: Seq<char>, k: int)
    requires
        0 <= k < frames.len(),
        frames[k].id == id,
        forall|j: int| 0 <= j < k ==> (#[trigger] frames[j]).id != id,
    ensures
        first_text(frames, id) == match frames[k].content {
            ContentView::Text(t) => Some(t),
            _ => None::<Seq<char>>,
        },
    decreases k,
{
    if k > 0 {
        let rest = frames.drop_first();
        assert(frames[0].id != id);
        assert(rest[k - 1] == frames[k]);
        assert forall|j: int| 0 <= j < k - 1 implies (#[trigger] rest[j]).id != id by {
            assert(rest[j] == frames[j + 1]);
        }
        lemma_first_frame_text(rest, id, k - 1);
    }
}

proof fn lemma_no_frame_text(frames: Seq<FrameView>, id: Seq<char>)
    requires
        forall|j: int| 0 <= j < frames.len() ==> (#[trigger] frames[j]).id != id,
    ensures
        first_text(frames, id) is None,
    decreases frames.len(),
{
    if frames.len() > 0 {
        let rest = frames.drop_first();
        assert(frames[0].id != id);
        assert forall|j: int| 0 <= j < rest.len() implies (#[trigger] rest[j]).id != id by {
            assert(rest[j] == frames[j + 1]);
        }
        lemma_no_frame_text(rest, id);
    }
}

/// The text of the first frame with identifier `id`, empty when there is no
/// such frame or it is not a text frame.
pub open spec fn first_frame_text(frames: Seq<FrameView>, id: Seq<char>) -> Seq<char> {
    if exists|k: int| 0 <= k < frames.len() && (#[trigger] frames[k]).id == id {
        let k = choose|k: int|
            0 <= k < frames.len() && (#[trigger] frames[k]).id == id && forall|j: int|
                0 <= j < k ==> (#[trigger] frames[j]).id != id;
        match frames[k].content {
            ContentView::Text(t) => t,
            _ => Seq::empty(),
        }
    } else {
        Seq::empty()
    }
}

proof fn lemma_first_text_is_first_frame_text(frames: Seq<FrameView>, id: Seq<char>)
    ensures
        text_or_empty(first_text(frames, id)) == first_frame_text(frames, id),
{
    if exists|k: int| 0 <= k < frames.len() && (#[trigger] frames[k]).id == id {
        let k0 = choose|k: int| 0 <= k < frames.len() && (#[trigger] frames[k]).id == id;
        lemma_first_index(frames, id, k0);
        let k = choose|k: int|
            0 <= k < frames.len() && (#[trigger] frames[k]).id == id && forall|j: int|
                0 <= j < k ==> (#[trigger] frames[j]).id != id;
        lemma_first_frame_text(frames, id, k);
    } else {
        lemma_no_frame_text(frames, id);
    }
}

proof fn lemma_first_index(frames: Seq<FrameView>, id: Seq<char>, k0: int)
    requires
        0 <= k0 < frames.len(),
        frames[k0].id == id,
    ensures
        exists|k: int|
            0 <= k < frames.len() && (#[trigger] frames[k]).id == id && forall|j: int|
                0 <= j < k ==> (#[trigger] frames[j]).id != id,
    decreases k0,
{
    if exists|j: int| 0 <= j < k0 && (#[trigger] frames[j]).id == id {
        let j = choose|j: int| 0 <= j < k0 && (#[trigger] frames[j]).id == id;
        lemma_first_index(frames, id, j);
    } else {
        assert(forall|j: int| 0 <= j < k0 ==> (#[trigger] frames[j]).id != id);
    }
}

/// The loaded title, artist and album are the texts of the first TIT2, TPE1 and
/// TALB frames, each empty when there is no such frame or it is not a text frame;
/// later frames with the same identifier are not read.
pub proof fn text_fields_are_first_frames(frames: Seq<FrameView>)
    ensures
        tag_info_of(frames).title == first_frame_text(frames, id_tit2()),
        tag_info_of(frames).artist == first_frame_text(frames, id_tpe1()),
        tag_info_of(frames).album == first_frame_text(frames, id_talb()),
{
    lemma_first_text_is_first_frame_text(frames, id_tit2());
    lemma_first_text_is_first_frame_text(frames, id_tpe1());
    lemma_first_text_is_first_frame_text(frames, id_talb());
}

} // verus!
