//! Saving: the tag that the editor writes for the edited fields, chapters and
//! chapter art, stated as the frames it adds, one after another, to a new tag.

use vstd::prelude::*;
use crate::base64_bridge::{base64_decode, base64_decoded};
use crate::frames::{
    add_frame, add_subframe, id_apic, id_chap, id_comm, id_talb, id_tcom, id_tcon, id_tit2,
    id_tpe1, id_tpos, id_trck, id_tyer, kind, picture_type_other, ChapterHeader,
    ChapterHeaderView, ContentView, FrameView, PictureView, SubframeView,
};
use crate::id3_bridge::{
    chapter_add_other_picture, chapter_add_text, chapter_new, id3_chapter_frames,
    id3_chapter_header, id3_tag_frames, tag_add_chapter, tag_add_comment, tag_add_text, tag_new,
};
use crate::model::{
    arts_view, chapters_view, ChapterArt, ChapterArtView, ChapterInfo, ChapterInfoView, NewTag,
    NewTagView,
};

verus! {

/// The language of the comment that the editor writes.
pub open spec fn lang_eng() -> Seq<char> {
    seq!['e', 'n', 'g']
}

/// A text frame.
pub open spec fn text_frame(id: Seq<char>, text: Seq<char>) -> FrameView {
    FrameView { id, content: ContentView::Text(text), subframes: Seq::empty() }
}

/// The comment frame that the editor writes: English, without description.
pub open spec fn comment_frame(text: Seq<char>) -> FrameView {
    FrameView {
        id: id_comm(),
        content: ContentView::Comment { lang: lang_eng(), description: Seq::empty(), text },
        subframes: Seq::empty(),
    }
}

/// `frames` after adding a text frame, when the text is not empty.
pub open spec fn add_text_if(frames: Seq<FrameView>, id: Seq<char>, text: Seq<char>) -> Seq<FrameView> {
    if text.len() == 0 {
        frames
    } else {
        add_frame(frames, text_frame(id, text))
    }
}

/// The frames for the tag fields: a text frame for each non-empty field in the
/// order title, artist, album, year, genre, track, disc, composer, then a comment
/// frame when the comment is not empty.
pub open spec fn fields_frames(t: NewTagView) -> Seq<FrameView> {
    let f = add_text_if(Seq::empty(), id_tit2(), t.title);
    let f = add_text_if(f, id_tpe1(), t.artist);
    let f = add_text_if(f, id_talb(), t.album);
    let f = add_text_if(f, id_tyer(), t.year);
    let f = add_text_if(f, id_tcon(), t.genre);
    let f = add_text_if(f, id_trck(), t.track);
    let f = add_text_if(f, id_tpos(), t.disc);
    let f = add_text_if(f, id_tcom(), t.composer);
    if t.comment.len() == 0 {
        f
    } else {
        add_frame(f, comment_frame(t.comment))
    }
}

/// The picture frame made of art whose data decodes to `data`.
pub open spec fn art_subframe(a: ChapterArtView, data: Seq<u8>) -> SubframeView {
    SubframeView {
        id: id_apic(),
        content: ContentView::Picture(
            PictureView {
                picture_type: picture_type_other(),
                mime_type: a.mime_type,
                description: a.description,
                data,
            },
        ),
    }
}

/// `subframes` after adding a picture frame for each art of the chapter
/// `element_id` whose data decodes from base64; art that does not decode is left out.
pub open spec fn add_art_pictures(
    subframes: Seq<SubframeView>,
    element_id: Seq<char>,
    arts: Seq<ChapterArtView>,
) -> Seq<SubframeView>
    decreases arts.len(),
{
    if arts.len() == 0 {
        subframes
    } else {
        let rest = add_art_pictures(subframes, element_id, arts.drop_last());
        let a = arts.last();
        if a.element_id == element_id {
            match base64_decoded(a.data_base64) {
                Some(data) => add_subframe(rest, art_subframe(a, data)),
                None => rest,
            }
        } else {
            rest
        }
    }
}

/// The title frame of a chapter, when the title is not empty.
pub open spec fn title_subframes(title: Seq<char>) -> Seq<SubframeView> {
    if title.len() == 0 {
        Seq::empty()
    } else {
        seq![SubframeView { id: id_tit2(), content: ContentView::Text(title) }]
    }
}

pub open spec fn header_of(c: ChapterInfoView) -> ChapterHeaderView {
    ChapterHeaderView {
        element_id: c.element_id,
        start_time: c.start_time,
        end_time: c.end_time,
        start_offset: c.start_offset,
        end_offset: c.end_offset,
    }
}

/// The CHAP frame written for a chapter: its title, then its art.
pub open spec fn chapter_frame(c: ChapterInfoView, arts: Seq<ChapterArtView>) -> FrameView {
    FrameView {
        id: id_chap(),
        content: ContentView::Chapter(header_of(c)),
        subframes: add_art_pictures(title_subframes(c.title), c.element_id, arts),
    }
}

/// `frames` after adding a chapter frame for each chapter, in order.
pub open spec fn add_chapters(
    frames: Seq<FrameView>,
    chapters: Seq<ChapterInfoView>,
    arts: Seq<ChapterArtView>,
) -> Seq<FrameView>
    decreases chapters.len(),
{
    if chapters.len() == 0 {
        frames
    } else {
        add_frame(add_chapters(frames, chapters.drop_last(), arts), chapter_frame(chapters.last(), arts))
    }
}

/// The frames of the tag that the editor writes.
pub open spec fn saved_frames(
    t: NewTagView,
    chapters: Seq<ChapterInfoView>,
    arts: Seq<ChapterArtView>,
) -> Seq<FrameView> {
    add_chapters(fields_frames(t), chapters, arts)
}

/// The identifier of one of the text frames that the editor writes.
pub open spec fn text_id(id: Seq<char>) -> bool {
    ||| id == id_tit2()
    ||| id == id_tpe1()
    ||| id == id_talb()
    ||| id == id_tyer()
    ||| id == id_tcon()
    ||| id == id_trck()
    ||| id == id_tpos()
    ||| id == id_tcom()
}

/// A frame of one of the kinds that the editor writes, under its identifier.
pub open spec fn standard(f: FrameView) -> bool {
    ||| (kind(f.content) == 0 && text_id(f.id))
    ||| (kind(f.content) == 1 && f.id == id_comm())
    ||| (kind(f.content) == 3 && f.id == id_chap())
}

pub open spec fn all_standard(frames: Seq<FrameView>) -> bool {
    forall|k: int| 0 <= k < frames.len() ==> standard(#[trigger] frames[k])
}

/// A chapter frame of one of the kinds that the editor writes.
pub open spec fn standard_sub(f: SubframeView) -> bool {
    ||| (kind(f.content) == 0 && f.id == id_tit2())
    ||| (kind(f.content) == 2 && f.id == id_apic())
}

pub open spec fn all_standard_sub(frames: Seq<SubframeView>) -> bool {
    forall|k: int| 0 <= k < frames.len() ==> standard_sub(#[trigger] frames[k])
}

proof fn lemma_ids_distinct()
    ensures
        id_comm() != id_chap(),
        id_tit2() != id_apic(),
        forall|id: Seq<char>| text_id(id) ==> id != id_comm() && id != id_chap(),
{
    assert(id_comm()[1] != id_chap()[1]);
    assert(id_tit2()[0] != id_apic()[0]);
    assert forall|id: Seq<char>| text_id(id) implies id != id_comm() && id != id_chap() by {
        assert(id[0] == 'T');
        assert(id_comm()[0] == 'C');
        assert(id_chap()[0] == 'C');
    }
}

/// Every frame of `add_frame(frames, f)` is a frame of `frames` or `f`.
pub(crate) proof fn lemma_add_frame_members(frames: Seq<FrameView>, f: FrameView)
    ensures
        forall|k: int|
            0 <= k < add_frame(frames, f).len() ==> #[trigger] add_frame(frames, f)[k] == f
                || frames.contains(add_frame(frames, f)[k]),
    decreases frames.len(),
{
    if frames.len() > 0 {
        let rest = frames.drop_first();
        lemma_add_frame_members(rest, f);
        let r = add_frame(frames, f);
        assert forall|k: int| 0 <= k < r.len() implies #[trigger] r[k] == f || frames.contains(r[k]) by {
            if frames[0].id == f.id && crate::frames::same_slot(frames[0].content, f.content) {
                if k < rest.len() {
                    assert(r[k] == frames[k + 1]);
                }
            } else if k == 0 {
                assert(r[0] == frames[0]);
            } else {
                let x = add_frame(rest, f)[k - 1];
                assert(r[k] == x);
                if x != f {
                    let j = choose|j: int| 0 <= j < rest.len() && rest[j] == x;
                    assert(frames[j + 1] == x);
                }
            }
        }
    }
}

proof fn lemma_add_subframe_members(frames: Seq<SubframeView>, f: SubframeView)
    ensures
        forall|k: int|
            0 <= k < add_subframe(frames, f).len() ==> #[trigger] add_subframe(frames, f)[k] == f
                || frames.contains(add_subframe(frames, f)[k]),
    decreases frames.len(),
{
    if frames.len() > 0 {
        let rest = frames.drop_first();
        lemma_add_subframe_members(rest, f);
        let r = add_subframe(frames, f);
        assert forall|k: int| 0 <= k < r.len() implies #[trigger] r[k] == f || frames.contains(r[k]) by {
            if frames[0].id == f.id && crate::frames::same_slot(frames[0].content, f.content) {
                if k < rest.len() {
                    assert(r[k] == frames[k + 1]);
                }
            } else if k == 0 {
                assert(r[0] == frames[0]);
            } else {
                let x = add_subframe(rest, f)[k - 1];
                assert(r[k] == x);
                if x != f {
                    let j = choose|j: int| 0 <= j < rest.len() && rest[j] == x;
                    assert(frames[j + 1] == x);
                }
            }
        }
    }
}

proof fn lemma_add_standard(frames: Seq<FrameView>, f: FrameView)
    requires
        all_standard(frames),
        standard(f),
    ensures
        all_standard(add_frame(frames, f)),
        crate::frames::frames_comparable(frames, f),
{
    lemma_ids_distinct();
    lemma_add_frame_members(frames, f);
    let r = add_frame(frames, f);
    assert forall|k: int| 0 <= k < r.len() implies standard(#[trigger] r[k]) by {
        if r[k] != f {
            let j = choose|j: int| 0 <= j < frames.len() && frames[j] == r[k];
        }
    }
}

proof fn lemma_add_standard_sub(frames: Seq<SubframeView>, f: SubframeView)
    requires
        all_standard_sub(frames),
        standard_sub(f),
    ensures
        all_standard_sub(add_subframe(frames, f)),
        crate::frames::subframes_comparable(frames, f),
{
    lemma_ids_distinct();
    lemma_add_subframe_members(frames, f);
    let r = add_subframe(frames, f);
    assert forall|k: int| 0 <= k < r.len() implies standard_sub(#[trigger] r[k]) by {
        if r[k] != f {
            let j = choose|j: int| 0 <= j < frames.len() && frames[j] == r[k];
        }
    }
}

proof fn lemma_text_addable(id: Seq<char>, text: Seq<char>)
    requires
        text_id(id),
    ensures
        crate::frames::addable(id, ContentView::Text(text)),
{
    assert forall|i: int| 0 <= i < 4 implies (#[trigger] id[i] as u32) < 128 by {
        assert(id[i] == 'T' || id[i] == 'I' || id[i] == '2' || id[i] == 'P' || id[i] == 'E'
            || id[i] == '1' || id[i] == 'A' || id[i] == 'L' || id[i] == 'B' || id[i] == 'Y'
            || id[i] == 'R' || id[i] == 'C' || id[i] == 'O' || id[i] == 'N' || id[i] == 'K'
            || id[i] == 'S' || id[i] == 'M');
    }
}

/// Adds a text frame with `text` to the tag when `text` is not empty.
fn add_field(tag: &mut id3::Tag, id: &str, text: &String)
    requires
        all_standard(id3_tag_frames(*old(tag))),
        text_id(id@),
    ensures
        all_standard(id3_tag_frames(*final(tag))),
        id3_tag_frames(*final(tag)) == add_text_if(id3_tag_frames(*old(tag)), id@, text@),
{
    if !text.as_str().is_empty() {
        proof {
            lemma_add_standard(id3_tag_frames(*old(tag)), text_frame(id@, text@));
            lemma_text_addable(id@, text@);
        }
        tag_add_text(tag, id, text.as_str());
    }
}

/// The CHAP frame for one chapter: its title when it has one, then a picture
/// for each art of the chapter whose data decodes from base64.
fn build_chapter(ch: &ChapterInfo, art: &Vec<ChapterArt>) -> (res: id3::frame::Chapter)
    ensures
        id3_chapter_header(res) == header_of(ch@),
        id3_chapter_frames(res) == add_art_pictures(title_subframes(ch.title@), ch.element_id@, arts_view(art@)),
        all_standard_sub(id3_chapter_frames(res)),
{
    let header = ChapterHeader {
        element_id: ch.element_id.clone(),
        start_time: ch.start_time,
        end_time: ch.end_time,
        start_offset: ch.start_offset,
        end_offset: ch.end_offset,
    };
    let mut chapter = chapter_new(header);
    proof {
        reveal_strlit("TIT2");
        assert("TIT2"@ =~= id_tit2());
    }
    if !ch.title.as_str().is_empty() {
        proof {
            lemma_add_standard_sub(Seq::empty(), SubframeView { id: id_tit2(), content: ContentView::Text(ch.title@) });
            lemma_text_addable(id_tit2(), ch.title@);
        }
        chapter_add_text(&mut chapter, "TIT2", ch.title.as_str());
        assert(id3_chapter_frames(chapter) =~= title_subframes(ch.title@));
    } else {
        assert(id3_chapter_frames(chapter) =~= title_subframes(ch.title@));
    }
    let ghost arts = arts_view(art@);
    let mut j: usize = 0;
    while j < art.len()
        invariant
            arts == arts_view(art@),
            j <= art.len(),
            id3_chapter_header(chapter) == header_of(ch@),
            id3_chapter_frames(chapter) == add_art_pictures(title_subframes(ch.title@), ch.element_id@, arts.take(j as int)),
            all_standard_sub(id3_chapter_frames(chapter)),
        decreases art.len() - j,
    {
        let a = &art[j];
        assert(arts.take(j + 1).drop_last() =~= arts.take(j as int));
        assert(arts.take(j + 1).last() == a@);
        if a.element_id == ch.element_id {
            match base64_decode(a.data_base64.as_str()) {
                Ok(data) => {
                    let ghost sf = art_subframe(a@, data@);
                    proof {
                        lemma_ids_distinct();
                        lemma_add_standard_sub(id3_chapter_frames(chapter), sf);
                    }
                    chapter_add_other_picture(&mut chapter, a.mime_type.clone(), a.description.clone(), data);
                },
                Err(_) => {},
            }
        }
        j = j + 1;
    }
    assert(arts.take(art.len() as int) =~= arts);
    chapter
}

/// The tag that the editor writes: `saved_frames` of the edited fields, the
/// chapters and their art.
pub fn build_tag(new_tag: &NewTag, chapters: &Vec<ChapterInfo>, art: &Vec<ChapterArt>) -> (tag: id3::Tag)
    ensures
        id3_tag_frames(tag) == saved_frames(new_tag@, chapters_view(chapters@), arts_view(art@)),
{
    let mut tag = tag_new();
    proof {
        reveal_strlit("TIT2");
        reveal_strlit("TPE1");
        reveal_strlit("TALB");
        reveal_strlit("TYER");
        reveal_strlit("TCON");
        reveal_strlit("TRCK");
        reveal_strlit("TPOS");
        reveal_strlit("TCOM");
        reveal_strlit("eng");
        reveal_strlit("");
        assert("TIT2"@ =~= id_tit2());
        assert("TPE1"@ =~= id_tpe1());
        assert("TALB"@ =~= id_talb());
        assert("TYER"@ =~= id_tyer());
        assert("TCON"@ =~= id_tcon());
        assert("TRCK"@ =~= id_trck());
        assert("TPOS"@ =~= id_tpos());
        assert("TCOM"@ =~= id_tcom());
        assert("eng"@ =~= lang_eng());
        assert(""@ =~= Seq::<char>::empty());
    }
    add_field(&mut tag, "TIT2", &new_tag.title);
    add_field(&mut tag, "TPE1", &new_tag.artist);
    add_field(&mut tag, "TALB", &new_tag.album);
    add_field(&mut tag, "TYER", &new_tag.year);
    add_field(&mut tag, "TCON", &new_tag.genre);
    add_field(&mut tag, "TRCK", &new_tag.track);
    add_field(&mut tag, "TPOS", &new_tag.disc);
    add_field(&mut tag, "TCOM", &new_tag.composer);
    if !new_tag.comment.as_str().is_empty() {
        proof {
            lemma_add_standard(id3_tag_frames(tag), comment_frame(new_tag.comment@));
        }
        tag_add_comment(&mut tag, "eng", "", new_tag.comment.as_str());
    }
    assert(id3_tag_frames(tag) == fields_frames(new_tag@));
    let ghost chs = chapters_view(chapters@);
    let ghost start = fields_frames(new_tag@);
    let mut i: usize = 0;
    assert(chs.take(0) =~= Seq::<ChapterInfoView>::empty());
    while i < chapters.len()
        invariant
            chs == chapters_view(chapters@),
            i <= chapters.len(),
            id3_tag_frames(tag) == add_chapters(start, chs.take(i as int), arts_view(art@)),
            all_standard(id3_tag_frames(tag)),
        decreases chapters.len() - i,
    {
        let ch = &chapters[i];
        assert(chs.take(i + 1).drop_last() =~= chs.take(i as int));
        assert(chs.take(i + 1).last() == ch@);
        let chapter = build_chapter(ch, art);
        let ghost cf = FrameView {
            id: id_chap(),
            content: ContentView::Chapter(id3_chapter_header(chapter)),
            subframes: id3_chapter_frames(chapter),
        };
        assert(cf == chapter_frame(ch@, arts_view(art@)));
        proof {
            lemma_add_standard(id3_tag_frames(tag), cf);
        }
        tag_add_chapter(&mut tag, chapter);
        i = i + 1;
    }
    assert(chs.take(chapters.len() as int) =~= chs);
    tag
}

} // verus!
