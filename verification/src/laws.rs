//! Properties that span the editor's operations: what loading gives back of a
//! saved tag (the text fields as they were written, every chapter with its
//! title, times and offsets, and as its picture the last of its art that
//! decodes), and what removing a chapter and attaching art leave behind.

use vstd::prelude::*;
use crate::base64_bridge::{base64_decoded, base64_encoded};
use crate::frames::{
    add_frame, add_subframe, first_text, id_apic, id_chap, id_comm, id_talb, id_tcom, id_tcon,
    id_tit2, id_tpe1, id_tpos, id_trck, id_tyer, picture_type_other, same_slot, ContentView,
    FrameView, SubframeView,
};
use crate::load::{
    arts_of, chapter_arts, chapter_info, chapter_picture, chapter_title, chapters_of, comment_of,
    composer_of, pictures_of, tag_info_of,
};
use crate::model::{ChapterArtView, ChapterInfoView, NewTagView};
use crate::save::{
    add_art_pictures, add_chapters, add_text_if, art_subframe, chapter_frame, comment_frame,
    fields_frames, header_of, saved_frames, text_frame, title_subframes,
};

verus! {

/// No frame of `frames` has identifier `id`.
pub open spec fn avoids(frames: Seq<FrameView>, id: Seq<char>) -> bool {
    forall|k: int| 0 <= k < frames.len() ==> (#[trigger] frames[k]).id != id
}

/// A text frame for a non-empty text.
pub open spec fn opt_text(id: Seq<char>, text: Seq<char>) -> Seq<FrameView> {
    if text.len() == 0 {
        Seq::empty()
    } else {
        seq![text_frame(id, text)]
    }
}

/// A comment frame for a non-empty text.
pub open spec fn opt_comment(text: Seq<char>) -> Seq<FrameView> {
    if text.len() == 0 {
        Seq::empty()
    } else {
        seq![comment_frame(text)]
    }
}

/// The frames for the tag fields, as a list.
pub open spec fn fields_list(t: NewTagView) -> Seq<FrameView> {
    text_frames_of(field_entries(t)) + opt_comment(t.comment)
}

/// The chapter frames, one per chapter, in order.
pub open spec fn chapter_frames(chapters: Seq<ChapterInfoView>, arts: Seq<ChapterArtView>) -> Seq<FrameView> {
    chapters.map_values(|c: ChapterInfoView| chapter_frame(c, arts))
}

/// No two chapters share an element id.
pub open spec fn distinct_ids(chapters: Seq<ChapterInfoView>) -> bool {
    forall|i: int, j: int|
        0 <= i < chapters.len() && 0 <= j < chapters.len() && i != j ==> #[trigger] chapters[i].element_id
            != #[trigger] chapters[j].element_id
}

/// The last art of chapter `element_id` whose data decodes from base64, with the
/// decoded data.
pub open spec fn last_art(element_id: Seq<char>, arts: Seq<ChapterArtView>) -> Option<(ChapterArtView, Seq<u8>)>
    decreases arts.len(),
{
    if arts.len() == 0 {
        None
    } else {
        let a = arts.last();
        if a.element_id == element_id && base64_decoded(a.data_base64) is Some {
            Some((a, base64_decoded(a.data_base64).unwrap()))
        } else {
            last_art(element_id, arts.drop_last())
        }
    }
}

/// A chapter as it is read back after saving: its picture is the last of its art
/// that decodes, encoded again.
pub open spec fn reloaded_chapter(c: ChapterInfoView, arts: Seq<ChapterArtView>) -> ChapterInfoView {
    ChapterInfoView {
        element_id: c.element_id,
        title: c.title,
        start_time: c.start_time,
        end_time: c.end_time,
        start_offset: c.start_offset,
        end_offset: c.end_offset,
        picture_data_base64: match last_art(c.element_id, arts) {
            Some((a, d)) => Some(base64_encoded(d)),
            None => None,
        },
    }
}

/// The art of a chapter as it is read back after saving.
pub open spec fn reloaded_art(c: ChapterInfoView, arts: Seq<ChapterArtView>) -> Seq<ChapterArtView> {
    match last_art(c.element_id, arts) {
        Some((a, d)) => seq![
            ChapterArtView {
                element_id: c.element_id,
                mime_type: a.mime_type,
                description: a.description,
                data_base64: base64_encoded(d),
            },
        ],
        None => Seq::empty(),
    }
}

/// The art of all chapters as it is read back after saving, chapter by chapter.
pub open spec fn reloaded_arts(chapters: Seq<ChapterInfoView>, arts: Seq<ChapterArtView>) -> Seq<ChapterArtView>
    decreases chapters.len(),
{
    if chapters.len() == 0 {
        Seq::empty()
    } else {
        reloaded_arts(chapters.drop_last(), arts) + reloaded_art(chapters.last(), arts)
    }
}

proof fn lemma_text_ids_distinct()
    ensures
        id_tit2() != id_tpe1(), id_tit2() != id_talb(), id_tit2() != id_tyer(), id_tit2() != id_tcon(),
        id_tit2() != id_trck(), id_tit2() != id_tpos(), id_tit2() != id_tcom(),
        id_tpe1() != id_talb(), id_tpe1() != id_tyer(), id_tpe1() != id_tcon(), id_tpe1() != id_trck(),
        id_tpe1() != id_tpos(), id_tpe1() != id_tcom(),
        id_talb() != id_tyer(), id_talb() != id_tcon(), id_talb() != id_trck(), id_talb() != id_tpos(),
        id_talb() != id_tcom(),
        id_tyer() != id_tcon(), id_tyer() != id_trck(), id_tyer() != id_tpos(), id_tyer() != id_tcom(),
        id_tcon() != id_trck(), id_tcon() != id_tpos(), id_tcon() != id_tcom(),
        id_trck() != id_tpos(), id_trck() != id_tcom(),
        id_tpos() != id_tcom(),
        id_comm() != id_tit2(), id_comm() != id_tpe1(), id_comm() != id_talb(), id_comm() != id_tyer(),
        id_comm() != id_tcon(), id_comm() != id_trck(), id_comm() != id_tpos(), id_comm() != id_tcom(),
        id_chap() != id_tit2(), id_chap() != id_tpe1(), id_chap() != id_talb(), id_chap() != id_tyer(),
        id_chap() != id_tcon(), id_chap() != id_trck(), id_chap() != id_tpos(), id_chap() != id_tcom(),
        id_chap() != id_comm(), id_apic() != id_tit2(),
{
    assert(id_tit2()[1] != id_tpe1()[1]);
    assert(id_tit2()[1] != id_talb()[1]);
    assert(id_tit2()[1] != id_tyer()[1]);
    assert(id_tit2()[1] != id_tcon()[1]);
    assert(id_tit2()[1] != id_trck()[1]);
    assert(id_tit2()[1] != id_tpos()[1]);
    assert(id_tit2()[1] != id_tcom()[1]);
    assert(id_tpe1()[1] != id_talb()[1]);
    assert(id_tpe1()[1] != id_tyer()[1]);
    assert(id_tpe1()[1] != id_tcon()[1]);
    assert(id_tpe1()[1] != id_trck()[1]);
    assert(id_tpe1()[2] != id_tpos()[2]);
    assert(id_tpe1()[1] != id_tcom()[1]);
    assert(id_talb()[1] != id_tyer()[1]);
    assert(id_talb()[1] != id_tcon()[1]);
    assert(id_talb()[1] != id_trck()[1]);
    assert(id_talb()[1] != id_tpos()[1]);
    assert(id_talb()[1] != id_tcom()[1]);
    assert(id_tyer()[1] != id_tcon()[1]);
    assert(id_tyer()[1] != id_trck()[1]);
    assert(id_tyer()[1] != id_tpos()[1]);
    assert(id_tyer()[1] != id_tcom()[1]);
    assert(id_tcon()[1] != id_trck()[1]);
    assert(id_tcon()[1] != id_tpos()[1]);
    assert(id_tcon()[3] != id_tcom()[3]);
    assert(id_trck()[1] != id_tpos()[1]);
    assert(id_trck()[1] != id_tcom()[1]);
    assert(id_tpos()[1] != id_tcom()[1]);
    assert(id_comm()[0] != id_tit2()[0]);
    assert(id_comm()[0] != id_tpe1()[0]);
    assert(id_comm()[0] != id_talb()[0]);
    assert(id_comm()[0] != id_tyer()[0]);
    assert(id_comm()[0] != id_tcon()[0]);
    assert(id_comm()[0] != id_trck()[0]);
    assert(id_comm()[0] != id_tpos()[0]);
    assert(id_comm()[0] != id_tcom()[0]);
    assert(id_chap()[0] != id_tit2()[0]);
    assert(id_chap()[0] != id_tpe1()[0]);
    assert(id_chap()[0] != id_talb()[0]);
    assert(id_chap()[0] != id_tyer()[0]);
    assert(id_chap()[0] != id_tcon()[0]);
    assert(id_chap()[0] != id_trck()[0]);
    assert(id_chap()[0] != id_tpos()[0]);
    assert(id_chap()[0] != id_tcom()[0]);
    assert(id_chap()[1] != id_comm()[1]);
    assert(id_apic()[0] != id_tit2()[0]);
}

/// Adding a frame that occupies no slot of `frames` appends it.
proof fn lemma_add_frame_free(frames: Seq<FrameView>, f: FrameView)
    requires
        forall|k: int|
            0 <= k < frames.len() ==> !((#[trigger] frames[k]).id == f.id && same_slot(frames[k].content, f.content)),
    ensures
        add_frame(frames, f) == frames.push(f),
    decreases frames.len(),
{
    if frames.len() > 0 {
        let rest = frames.drop_first();
        assert forall|k: int| 0 <= k < rest.len() implies !((#[trigger] rest[k]).id == f.id && same_slot(rest[k].content, f.content)) by {
            assert(rest[k] == frames[k + 1]);
        }
        lemma_add_frame_free(rest, f);
        assert(frames.push(f) =~= seq![frames[0]] + rest.push(f));
    }
}

proof fn lemma_add_text_if(frames: Seq<FrameView>, id: Seq<char>, text: Seq<char>)
    requires
        avoids(frames, id),
    ensures
        add_text_if(frames, id, text) == frames + opt_text(id, text),
{
    if text.len() == 0 {
        assert(frames + opt_text(id, text) =~= frames);
    } else {
        lemma_add_frame_free(frames, text_frame(id, text));
        assert(frames.push(text_frame(id, text)) =~= frames + opt_text(id, text));
    }
}

proof fn lemma_avoids_concat(a: Seq<FrameView>, b: Seq<FrameView>, id: Seq<char>)
    requires
        avoids(a, id),
        avoids(b, id),
    ensures
        avoids(a + b, id),
{
    assert forall|k: int| 0 <= k < (a + b).len() implies (#[trigger] (a + b)[k]).id != id by {
        if k < a.len() {
            assert((a + b)[k] == a[k]);
        } else {
            assert((a + b)[k] == b[k - a.len()]);
        }
    }
}

/// Chapters with distinct element ids are added one after another, none
/// replacing another.
proof fn lemma_add_chapters(frames: Seq<FrameView>, chapters: Seq<ChapterInfoView>, arts: Seq<ChapterArtView>)
    requires
        avoids(frames, id_chap()),
        distinct_ids(chapters),
    ensures
        add_chapters(frames, chapters, arts) == frames + chapter_frames(chapters, arts),
    decreases chapters.len(),
{
    if chapters.len() == 0 {
        assert(frames + chapter_frames(chapters, arts) =~= frames);
    } else {
        let init = chapters.drop_last();
        assert forall|i: int, j: int|
            0 <= i < init.len() && 0 <= j < init.len() && i != j implies #[trigger] init[i].element_id
                != #[trigger] init[j].element_id by {
            assert(init[i] == chapters[i] && init[j] == chapters[j]);
        }
        lemma_add_chapters(frames, init, arts);
        let prev = frames + chapter_frames(init, arts);
        let c = chapters.last();
        let f = chapter_frame(c, arts);
        assert forall|k: int|
            0 <= k < prev.len() implies !((#[trigger] prev[k]).id == f.id && same_slot(prev[k].content, f.content)) by {
            if k < frames.len() {
                assert(prev[k] == frames[k]);
            } else {
                let j = k - frames.len();
                assert(prev[k] == chapter_frame(init[j], arts));
                assert(init[j] == chapters[j]);
                assert(chapters[j].element_id != chapters[chapters.len() - 1].element_id);
            }
        }
        lemma_add_frame_free(prev, f);
        assert(prev.push(f) =~= frames + chapter_frames(chapters, arts));
    }
}

/// The picture frame that stays of a chapter's art: that of its last art that decodes.
pub open spec fn art_picture(element_id: Seq<char>, arts: Seq<ChapterArtView>) -> Seq<SubframeView> {
    match last_art(element_id, arts) {
        Some((a, d)) => seq![art_subframe(a, d)],
        None => Seq::empty(),
    }
}

proof fn lemma_add_art_subframe(t: Seq<SubframeView>, p: Seq<SubframeView>, f: SubframeView, title: Seq<char>)
    requires
        t == title_subframes(title),
        p.len() == 0 || (p.len() == 1 && p[0].id == id_apic() && (p[0].content matches ContentView::Picture(pv)
            && pv.picture_type == picture_type_other())),
        f.id == id_apic(),
        f.content matches ContentView::Picture(fv) && fv.picture_type == picture_type_other(),
    ensures
        add_subframe(t + p, f) == t.push(f),
{
    lemma_text_ids_distinct();
    if p.len() == 0 {
        assert(add_subframe(p, f) =~= seq![f]);
    } else {
        assert(add_subframe(p, f) =~= seq![f]);
    }
    if t.len() == 0 {
        assert(t + p =~= p);
        assert(t.push(f) =~= seq![f]);
    } else {
        assert((t + p)[0] == t[0]);
        assert((t + p).drop_first() =~= p);
        assert(t.push(f) =~= seq![t[0]] + seq![f]);
    }
}

/// A chapter's frames after its art is added: its title frame, then the picture
/// of its last art that decodes.
proof fn lemma_add_art_pictures(title: Seq<char>, element_id: Seq<char>, arts: Seq<ChapterArtView>)
    ensures
        add_art_pictures(title_subframes(title), element_id, arts) == title_subframes(title) + art_picture(
            element_id,
            arts,
        ),
    decreases arts.len(),
{
    let t = title_subframes(title);
    if arts.len() == 0 {
        assert(t + art_picture(element_id, arts) =~= t);
    } else {
        let init = arts.drop_last();
        lemma_add_art_pictures(title, element_id, init);
        let a = arts.last();
        if a.element_id == element_id && base64_decoded(a.data_base64) is Some {
            let d = base64_decoded(a.data_base64).unwrap();
            let p = art_picture(element_id, init);
            lemma_add_art_subframe(t, p, art_subframe(a, d), title);
            assert(t.push(art_subframe(a, d)) =~= t + art_picture(element_id, arts));
        }
    }
}

proof fn lemma_first_text_skip(a: Seq<FrameView>, b: Seq<FrameView>, id: Seq<char>)
    requires
        avoids(a, id),
    ensures
        first_text(a + b, id) == first_text(b, id),
    decreases a.len(),
{
    if a.len() > 0 {
        assert(a[0].id != id);
        assert((a + b)[0] == a[0]);
        assert((a + b).drop_first() =~= a.drop_first() + b);
        lemma_first_text_skip(a.drop_first(), b, id);
    } else {
        assert(a + b =~= b);
    }
}

proof fn lemma_first_text_tail(a: Seq<FrameView>, b: Seq<FrameView>, id: Seq<char>)
    requires
        avoids(b, id),
    ensures
        first_text(a + b, id) == first_text(a, id),
    decreases a.len(),
{
    if a.len() > 0 {
        assert((a + b)[0] == a[0]);
        assert((a + b).drop_first() =~= a.drop_first() + b);
        lemma_first_text_tail(a.drop_first(), b, id);
    } else {
        assert(a + b =~= b);
        lemma_first_text_skip(b, Seq::empty(), id);
        assert(b + Seq::<FrameView>::empty() =~= b);
    }
}

pub open spec fn is_composer_frame(f: FrameView) -> bool {
    f.id == id_tcom() && f.content is Text
}

proof fn lemma_composer_append(a: Seq<FrameView>, b: Seq<FrameView>)
    requires
        forall|k: int| 0 <= k < b.len() ==> !is_composer_frame(#[trigger] b[k]),
    ensures
        composer_of(a + b) == composer_of(a),
    decreases b.len(),
{
    if b.len() == 0 {
        assert(a + b =~= a);
    } else {
        assert((a + b).drop_last() =~= a + b.drop_last());
        assert((a + b).last() == b.last());
        assert(!is_composer_frame(b[b.len() - 1]));
        lemma_composer_append(a, b.drop_last());
    }
}

proof fn lemma_comment_append(a: Seq<FrameView>, b: Seq<FrameView>)
    requires
        forall|k: int| 0 <= k < b.len() ==> !((#[trigger] b[k]).content is Comment),
    ensures
        comment_of(a + b) == comment_of(a),
    decreases b.len(),
{
    if b.len() == 0 {
        assert(a + b =~= a);
    } else {
        assert((a + b).drop_last() =~= a + b.drop_last());
        assert((a + b).last() == b.last());
        assert(!(b[b.len() - 1].content is Comment));
        lemma_comment_append(a, b.drop_last());
    }
}

proof fn lemma_pictures_append(a: Seq<FrameView>, b: Seq<FrameView>)
    requires
        forall|k: int| 0 <= k < b.len() ==> !((#[trigger] b[k]).content is Picture),
    ensures
        pictures_of(a + b) == pictures_of(a),
    decreases b.len(),
{
    if b.len() == 0 {
        assert(a + b =~= a);
    } else {
        assert((a + b).drop_last() =~= a + b.drop_last());
        assert((a + b).last() == b.last());
        assert(!(b[b.len() - 1].content is Picture));
        lemma_pictures_append(a, b.drop_last());
    }
}

pub(crate) proof fn lemma_chapters_append(a: Seq<FrameView>, b: Seq<FrameView>)
    ensures
        chapters_of(a + b) == chapters_of(a) + chapters_of(b),
        arts_of(a + b) == arts_of(a) + arts_of(b),
    decreases b.len(),
{
    if b.len() == 0 {
        assert(a + b =~= a);
        assert(chapters_of(a) + chapters_of(b) =~= chapters_of(a));
        assert(arts_of(a) + arts_of(b) =~= arts_of(a));
    } else {
        assert((a + b).drop_last() =~= a + b.drop_last());
        assert((a + b).last() == b.last());
        lemma_chapters_append(a, b.drop_last());
        assert(chapters_of(a) + chapters_of(b.drop_last()).push(chapter_info(
            b.last().content->Chapter_0, b.last().subframes)) =~= (chapters_of(a) + chapters_of(b.drop_last())).push(
            chapter_info(b.last().content->Chapter_0, b.last().subframes)));
        let tail_arts = chapter_arts(b.last().content->Chapter_0.element_id, b.last().subframes);
        assert(arts_of(a) + (arts_of(b.drop_last()) + tail_arts) =~= (arts_of(a) + arts_of(b.drop_last())) + tail_arts);
    }
}

proof fn lemma_chapters_none(a: Seq<FrameView>)
    requires
        forall|k: int| 0 <= k < a.len() ==> !((#[trigger] a[k]).content is Chapter),
    ensures
        chapters_of(a) == Seq::<ChapterInfoView>::empty(),
        arts_of(a) == Seq::<ChapterArtView>::empty(),
    decreases a.len(),
{
    if a.len() > 0 {
        assert(!(a[a.len() - 1].content is Chapter));
        assert forall|k: int| 0 <= k < a.drop_last().len() implies !((#[trigger] a.drop_last()[k]).content is Chapter) by {
            assert(a.drop_last()[k] == a[k]);
        }
        lemma_chapters_none(a.drop_last());
    }
}

/// A saved chapter's frames read back: its title, and the picture of its last
/// art that decodes.
proof fn lemma_chapter_frame_read_back(c: ChapterInfoView, arts: Seq<ChapterArtView>)
    ensures
        chapter_info(header_of(c), chapter_frame(c, arts).subframes) == reloaded_chapter(c, arts),
        chapter_arts(c.element_id, chapter_frame(c, arts).subframes) == reloaded_art(c, arts),
{
    lemma_text_ids_distinct();
    lemma_add_art_pictures(c.title, c.element_id, arts);
    let t = title_subframes(c.title);
    let p = art_picture(c.element_id, arts);
    let subs = t + p;
    assert(chapter_frame(c, arts).subframes == subs);
    // the title frame alone
    if t.len() > 0 {
        assert(t.drop_last() =~= Seq::<SubframeView>::empty());
        assert(chapter_picture(t.drop_last()) is None);
        assert(chapter_arts(c.element_id, t.drop_last()) =~= Seq::<ChapterArtView>::empty());
    }
    assert(chapter_title(t) == c.title);
    assert(chapter_picture(t) is None);
    assert(chapter_arts(c.element_id, t) =~= Seq::<ChapterArtView>::empty());
    match last_art(c.element_id, arts) {
        Some((a, d)) => {
            assert(subs.drop_last() =~= t);
            assert(subs.last() == art_subframe(a, d));
            assert(chapter_arts(c.element_id, subs) =~= reloaded_art(c, arts));
        },
        None => {
            assert(subs =~= t);
            assert(chapter_arts(c.element_id, subs) =~= reloaded_art(c, arts));
        },
    }
}

/// The chapter frames of a saved tag read back as the chapters, each with the
/// picture of its last art that decodes.
proof fn lemma_chapter_frames_read_back(chapters: Seq<ChapterInfoView>, arts: Seq<ChapterArtView>)
    ensures
        chapters_of(chapter_frames(chapters, arts)) == chapters.map_values(
            |c: ChapterInfoView| reloaded_chapter(c, arts),
        ),
        arts_of(chapter_frames(chapters, arts)) == reloaded_arts(chapters, arts),
    decreases chapters.len(),
{
    let m = chapter_frames(chapters, arts);
    if chapters.len() == 0 {
        assert(m =~= Seq::<FrameView>::empty());
        assert(chapters.map_values(|c: ChapterInfoView| reloaded_chapter(c, arts)) =~= Seq::<ChapterInfoView>::empty());
    } else {
        let init = chapters.drop_last();
        let c = chapters.last();
        lemma_chapter_frames_read_back(init, arts);
        lemma_chapter_frame_read_back(c, arts);
        assert(m.drop_last() =~= chapter_frames(init, arts));
        assert(m.last() == chapter_frame(c, arts));
        assert(chapters.map_values(|c: ChapterInfoView| reloaded_chapter(c, arts)) =~= init.map_values(
            |c: ChapterInfoView| reloaded_chapter(c, arts),
        ).push(reloaded_chapter(c, arts)));
    }
}

/// The text fields of a tag form, each with the identifier of its frame, in the
/// order they are written.
pub open spec fn field_entries(t: NewTagView) -> Seq<(Seq<char>, Seq<char>)> {
    seq![
        (id_tit2(), t.title),
        (id_tpe1(), t.artist),
        (id_talb(), t.album),
        (id_tyer(), t.year),
        (id_tcon(), t.genre),
        (id_trck(), t.track),
        (id_tpos(), t.disc),
        (id_tcom(), t.composer),
    ]
}

/// A text frame for each entry with a non-empty text, in order.
pub open spec fn text_frames_of(entries: Seq<(Seq<char>, Seq<char>)>) -> Seq<FrameView>
    decreases entries.len(),
{
    if entries.len() == 0 {
        Seq::empty()
    } else {
        text_frames_of(entries.drop_last()) + opt_text(entries.last().0, entries.last().1)
    }
}

pub open spec fn entries_distinct(entries: Seq<(Seq<char>, Seq<char>)>) -> bool {
    forall|i: int, j: int|
        0 <= i < entries.len() && 0 <= j < entries.len() && i != j ==> #[trigger] entries[i].0
            != #[trigger] entries[j].0
}

proof fn lemma_entries_distinct(t: NewTagView)
    ensures
        entries_distinct(field_entries(t)),
        forall|i: int| 0 <= i < 8 ==> crate::save::text_id(#[trigger] field_entries(t)[i].0),
{
    lemma_text_ids_distinct();
    let e = field_entries(t);
    assert forall|i: int, j: int|
        0 <= i < e.len() && 0 <= j < e.len() && i != j implies #[trigger] e[i].0 != #[trigger] e[j].0 by {
        if i == 0 { assert(e[i].0 == id_tit2()); }
        if i == 1 { assert(e[i].0 == id_tpe1()); }
        if i == 2 { assert(e[i].0 == id_talb()); }
        if i == 3 { assert(e[i].0 == id_tyer()); }
        if i == 4 { assert(e[i].0 == id_tcon()); }
        if i == 5 { assert(e[i].0 == id_trck()); }
        if i == 6 { assert(e[i].0 == id_tpos()); }
        if i == 7 { assert(e[i].0 == id_tcom()); }
        if j == 0 { assert(e[j].0 == id_tit2()); }
        if j == 1 { assert(e[j].0 == id_tpe1()); }
        if j == 2 { assert(e[j].0 == id_talb()); }
        if j == 3 { assert(e[j].0 == id_tyer()); }
        if j == 4 { assert(e[j].0 == id_tcon()); }
        if j == 5 { assert(e[j].0 == id_trck()); }
        if j == 6 { assert(e[j].0 == id_tpos()); }
        if j == 7 { assert(e[j].0 == id_tcom()); }
    }
}

proof fn lemma_entries_avoid(entries: Seq<(Seq<char>, Seq<char>)>, id: Seq<char>)
    requires
        forall|i: int| 0 <= i < entries.len() ==> (#[trigger] entries[i]).0 != id,
    ensures
        avoids(text_frames_of(entries), id),
    decreases entries.len(),
{
    if entries.len() > 0 {
        let init = entries.drop_last();
        assert forall|i: int| 0 <= i < init.len() implies (#[trigger] init[i]).0 != id by {
            assert(init[i] == entries[i]);
        }
        lemma_entries_avoid(init, id);
        assert(entries.last() == entries[entries.len() - 1]);
        lemma_avoids_concat(text_frames_of(init), opt_text(entries.last().0, entries.last().1), id);
    }
}

/// With distinct identifiers, the first text under an entry's identifier is the
/// entry's text, when it is not empty.
proof fn lemma_entries_first_text(entries: Seq<(Seq<char>, Seq<char>)>, k: int)
    requires
        entries_distinct(entries),
        0 <= k < entries.len(),
    ensures
        first_text(text_frames_of(entries), entries[k].0) == (if entries[k].1.len() == 0 {
            None
        } else {
            Some(entries[k].1)
        }),
    decreases entries.len(),
{
    let init = entries.drop_last();
    let last = entries.last();
    let id = entries[k].0;
    assert forall|i: int, j: int|
        0 <= i < init.len() && 0 <= j < init.len() && i != j implies #[trigger] init[i].0 != #[trigger] init[j].0 by {
        assert(init[i] == entries[i] && init[j] == entries[j]);
    }
    if k == entries.len() - 1 {
        assert forall|i: int| 0 <= i < init.len() implies (#[trigger] init[i]).0 != id by {
            assert(init[i] == entries[i]);
        }
        lemma_entries_avoid(init, id);
        lemma_first_text_skip(text_frames_of(init), opt_text(last.0, last.1), id);
        if last.1.len() > 0 {
            assert(opt_text(last.0, last.1)[0].id == id);
        }
    } else {
        assert(last.0 != id) by {
            assert(last == entries[entries.len() - 1]);
        }
        assert(avoids(opt_text(last.0, last.1), id));
        lemma_first_text_tail(text_frames_of(init), opt_text(last.0, last.1), id);
        assert(init[k] == entries[k]);
        lemma_entries_first_text(init, k);
    }
}

proof fn lemma_entries_step(entries: Seq<(Seq<char>, Seq<char>)>, k: int)
    requires
        entries_distinct(entries),
        0 <= k < entries.len(),
    ensures
        add_text_if(text_frames_of(entries.take(k)), entries[k].0, entries[k].1) == text_frames_of(
            entries.take(k + 1),
        ),
{
    let pre = entries.take(k);
    assert forall|i: int| 0 <= i < pre.len() implies (#[trigger] pre[i]).0 != entries[k].0 by {
        assert(pre[i] == entries[i]);
    }
    lemma_entries_avoid(pre, entries[k].0);
    lemma_add_text_if(text_frames_of(pre), entries[k].0, entries[k].1);
    assert(entries.take(k + 1).drop_last() =~= pre);
    assert(entries.take(k + 1).last() == entries[k]);
}

/// The field frames, built one after another, are the list of field frames.
proof fn lemma_fields_list(t: NewTagView)
    ensures
        fields_frames(t) == fields_list(t),
{
    let e = field_entries(t);
    lemma_entries_distinct(t);
    assert(e.take(0) =~= Seq::<(Seq<char>, Seq<char>)>::empty());
    lemma_entries_step(e, 0);
    lemma_entries_step(e, 1);
    lemma_entries_step(e, 2);
    lemma_entries_step(e, 3);
    lemma_entries_step(e, 4);
    lemma_entries_step(e, 5);
    lemma_entries_step(e, 6);
    lemma_entries_step(e, 7);
    assert(e.take(8) =~= e);
    let f = text_frames_of(e);
    if t.comment.len() > 0 {
        lemma_text_ids_distinct();
        assert forall|i: int| 0 <= i < e.len() implies (#[trigger] e[i]).0 != id_comm() by {
            assert(crate::save::text_id(e[i].0));
        }
        lemma_entries_avoid(e, id_comm());
        lemma_add_frame_free(f, comment_frame(t.comment));
        assert(f.push(comment_frame(t.comment)) =~= fields_list(t));
    } else {
        assert(f =~= fields_list(t));
    }
}

proof fn lemma_add_frame_prefix(a: Seq<FrameView>, b: Seq<FrameView>, f: FrameView)
    requires
        forall|k: int| 0 <= k < a.len() ==> !((#[trigger] a[k]).id == f.id && same_slot(a[k].content, f.content)),
    ensures
        add_frame(a + b, f) == a + add_frame(b, f),
    decreases a.len(),
{
    if a.len() == 0 {
        assert(a + b =~= b);
        assert(a + add_frame(b, f) =~= add_frame(b, f));
    } else {
        let rest = a.drop_first();
        assert forall|k: int| 0 <= k < rest.len() implies !((#[trigger] rest[k]).id == f.id && same_slot(rest[k].content, f.content)) by {
            assert(rest[k] == a[k + 1]);
        }
        lemma_add_frame_prefix(rest, b, f);
        assert((a + b)[0] == a[0]);
        assert((a + b).drop_first() =~= rest + b);
        assert(seq![a[0]] + (rest + add_frame(b, f)) =~= a + add_frame(b, f));
    }
}

pub open spec fn is_chapter_frame(f: FrameView) -> bool {
    f.id == id_chap() && f.content is Chapter
}

/// Adding the chapters leaves the frames before them as they were.
proof fn lemma_add_chapters_after(frames: Seq<FrameView>, chapters: Seq<ChapterInfoView>, arts: Seq<ChapterArtView>)
    requires
        avoids(frames, id_chap()),
    ensures
        add_chapters(frames, chapters, arts) == frames + add_chapters(Seq::empty(), chapters, arts),
        forall|k: int|
            0 <= k < add_chapters(Seq::empty(), chapters, arts).len() ==> is_chapter_frame(
                #[trigger] add_chapters(Seq::empty(), chapters, arts)[k],
            ),
    decreases chapters.len(),
{
    if chapters.len() == 0 {
        assert(frames + Seq::<FrameView>::empty() =~= frames);
    } else {
        let init = chapters.drop_last();
        lemma_add_chapters_after(frames, init, arts);
        let r = add_chapters(Seq::<FrameView>::empty(), init, arts);
        let f = chapter_frame(chapters.last(), arts);
        lemma_add_frame_prefix(frames, r, f);
        crate::save::lemma_add_frame_members(r, f);
        let r2 = add_frame(r, f);
        assert forall|k: int| 0 <= k < r2.len() implies is_chapter_frame(#[trigger] r2[k]) by {
            if r2[k] != f {
                let j = choose|j: int| 0 <= j < r.len() && r[j] == r2[k];
            }
        }
    }
}

proof fn lemma_entries_text(entries: Seq<(Seq<char>, Seq<char>)>)
    ensures
        forall|k: int| 0 <= k < text_frames_of(entries).len() ==> (#[trigger] text_frames_of(entries)[k]).content is Text,
    decreases entries.len(),
{
    if entries.len() > 0 {
        let init = entries.drop_last();
        lemma_entries_text(init);
        let a = text_frames_of(init);
        let o = opt_text(entries.last().0, entries.last().1);
        assert forall|k: int| 0 <= k < (a + o).len() implies (#[trigger] (a + o)[k]).content is Text by {
            if k < a.len() {
                assert((a + o)[k] == a[k]);
            } else {
                assert((a + o)[k] == o[k - a.len()]);
            }
        }
    }
}

/// The text fields of a tag form as they read back after saving: title, artist,
/// album, composer and comment unchanged; year, track and disc as `id3` parses
/// what was written, rendered again; genre as `id3` resolves it; no pictures.
pub open spec fn reloaded_fields(t: NewTagView) -> crate::model::TagInfoView {
    crate::model::TagInfoView {
        title: t.title,
        artist: t.artist,
        album: t.album,
        year: if t.year.len() == 0 {
            Seq::empty()
        } else {
            match crate::text::parse_i32_spec(crate::frames::trim_leading_zeros(t.year)) {
                Some(y) => crate::text::signed_decimal(y as int),
                None => Seq::empty(),
            }
        },
        genre: if t.genre.len() == 0 {
            Seq::empty()
        } else {
            crate::id3_bridge::id3_genre(t.genre)
        },
        track: if t.track.len() == 0 {
            Seq::empty()
        } else {
            match crate::text::parse_u32_spec(crate::frames::pair_head(t.track)) {
                Some(n) => crate::text::decimal(n as nat),
                None => Seq::empty(),
            }
        },
        disc: if t.disc.len() == 0 {
            Seq::empty()
        } else {
            match crate::text::parse_u32_spec(crate::frames::pair_head(t.disc)) {
                Some(n) => crate::text::decimal(n as nat),
                None => Seq::empty(),
            }
        },
        composer: t.composer,
        comment: t.comment,
        pictures: Seq::empty(),
    }
}

/// Saving a tag and loading it again gives back its text fields: title, artist,
/// album, composer and comment as they were written, year, track and disc as
/// `id3` parses the written text, the genre as `id3` resolves it, and no
/// pictures; whatever the chapters and their art.
pub proof fn saved_fields_read_back(t: NewTagView, chapters: Seq<ChapterInfoView>, arts: Seq<ChapterArtView>)
    ensures
        tag_info_of(saved_frames(t, chapters, arts)) == reloaded_fields(t),
{
    lemma_text_ids_distinct();
    lemma_fields_list(t);
    lemma_entries_distinct(t);
    let e = field_entries(t);
    let tf = text_frames_of(e);
    let oc = opt_comment(t.comment);
    let f = tf + oc;
    assert forall|i: int| 0 <= i < e.len() implies (#[trigger] e[i]).0 != id_chap() by {
        assert(crate::save::text_id(e[i].0));
    }
    lemma_entries_avoid(e, id_chap());
    lemma_avoids_concat(tf, oc, id_chap());
    lemma_add_chapters_after(f, chapters, arts);
    let r = add_chapters(Seq::empty(), chapters, arts);
    let saved = f + r;
    assert(saved_frames(t, chapters, arts) == saved);
    lemma_entries_text(e);
    // the text fields
    assert forall|k: int| 0 <= k < 8 implies first_text(saved, (#[trigger] e[k]).0) == (if e[k].1.len() == 0 {
        None
    } else {
        Some(e[k].1)
    }) by {
        assert(crate::save::text_id(e[k].0));
        assert(avoids(r, e[k].0));
        lemma_first_text_tail(f, r, e[k].0);
        assert(avoids(oc, e[k].0));
        lemma_first_text_tail(tf, oc, e[k].0);
        lemma_entries_first_text(e, k);
    }
    assert(e[0].0 == id_tit2() && e[1].0 == id_tpe1() && e[2].0 == id_talb() && e[3].0 == id_tyer());
    assert(e[4].0 == id_tcon() && e[5].0 == id_trck() && e[6].0 == id_tpos() && e[7].0 == id_tcom());
    assert(first_text(saved, e[0].0) == first_text(saved, id_tit2()));
    assert(first_text(saved, e[1].0) == first_text(saved, id_tpe1()));
    assert(first_text(saved, e[2].0) == first_text(saved, id_talb()));
    assert(first_text(saved, e[3].0) == first_text(saved, id_tyer()));
    assert(first_text(saved, e[4].0) == first_text(saved, id_tcon()));
    assert(first_text(saved, e[5].0) == first_text(saved, id_trck()));
    assert(first_text(saved, e[6].0) == first_text(saved, id_tpos()));
    // the composer, the comment and the pictures
    assert forall|k: int| 0 <= k < r.len() implies !is_composer_frame(#[trigger] r[k]) by {
        assert(is_chapter_frame(r[k]));
    }
    lemma_composer_append(f, r);
    assert forall|k: int| 0 <= k < oc.len() implies !is_composer_frame(#[trigger] oc[k]) by {}
    lemma_composer_append(tf, oc);
    let init = e.drop_last();
    assert(e.last() == (id_tcom(), t.composer));
    let ot = opt_text(id_tcom(), t.composer);
    assert(tf == text_frames_of(init) + ot);
    if t.composer.len() == 0 {
        assert forall|i: int| 0 <= i < init.len() implies (#[trigger] init[i]).0 != id_tcom() by {
            assert(init[i] == e[i]);
            assert(e[i].0 != e[7].0);
        }
        lemma_entries_avoid(init, id_tcom());
        let ti = text_frames_of(init);
        assert forall|k: int| 0 <= k < ti.len() implies !is_composer_frame(#[trigger] ti[k]) by {}
        lemma_composer_append(Seq::empty(), ti);
        assert(Seq::<FrameView>::empty() + ti =~= ti);
        assert(ti + ot =~= ti);
    } else {
        assert((text_frames_of(init) + ot).last() == ot[0]);
    }
    assert forall|k: int| 0 <= k < r.len() implies !((#[trigger] r[k]).content is Comment) by {
        assert(is_chapter_frame(r[k]));
    }
    lemma_comment_append(f, r);
    if t.comment.len() == 0 {
        assert(f =~= tf);
        assert forall|k: int| 0 <= k < tf.len() implies !((#[trigger] tf[k]).content is Comment) by {}
        lemma_comment_append(Seq::empty(), tf);
        assert(Seq::<FrameView>::empty() + tf =~= tf);
    } else {
        assert(f.last() == oc[0]);
    }
    assert forall|k: int| 0 <= k < saved.len() implies !((#[trigger] saved[k]).content is Picture) by {
        if k < tf.len() {
            assert(saved[k] == tf[k]);
        } else if k < f.len() {
            assert(saved[k] == oc[k - tf.len()]);
        } else {
            assert(saved[k] == r[k - f.len()]);
            assert(is_chapter_frame(r[k - f.len()]));
        }
    }
    lemma_pictures_append(Seq::empty(), saved);
    assert(Seq::<FrameView>::empty() + saved =~= saved);
    let info = tag_info_of(saved);
    let want = reloaded_fields(t);
    assert(info.title == want.title);
    assert(info.artist == want.artist);
    assert(info.album == want.album);
    assert(info.year == want.year);
    assert(info.genre == want.genre);
    assert(info.track == want.track);
    assert(info.disc == want.disc);
    assert(info.composer == want.composer);
    assert(info.comment == want.comment);
    assert(info.pictures == want.pictures);
    assert(info =~= want);
}

/// Saving a tag and loading it again gives back its chapters, when their element
/// ids are distinct: in order, with their titles, times and offsets; each has as
/// its picture the last of its art whose data decodes, and that is all the art
/// that loading finds.
pub proof fn saved_chapters_read_back(t: NewTagView, chapters: Seq<ChapterInfoView>, arts: Seq<ChapterArtView>)
    requires
        distinct_ids(chapters),
    ensures
        chapters_of(saved_frames(t, chapters, arts)) == chapters.map_values(
            |c: ChapterInfoView| reloaded_chapter(c, arts),
        ),
        arts_of(saved_frames(t, chapters, arts)) == reloaded_arts(chapters, arts),
{
    lemma_text_ids_distinct();
    lemma_fields_list(t);
    lemma_entries_distinct(t);
    let e = field_entries(t);
    let tf = text_frames_of(e);
    let oc = opt_comment(t.comment);
    let f = tf + oc;
    assert forall|i: int| 0 <= i < e.len() implies (#[trigger] e[i]).0 != id_chap() by {
        assert(crate::save::text_id(e[i].0));
    }
    lemma_entries_avoid(e, id_chap());
    lemma_avoids_concat(tf, oc, id_chap());
    lemma_add_chapters(f, chapters, arts);
    let m = chapter_frames(chapters, arts);
    lemma_chapters_append(f, m);
    lemma_entries_text(e);
    assert forall|k: int| 0 <= k < f.len() implies !((#[trigger] f[k]).content is Chapter) by {
        if k < tf.len() {
            assert(f[k] == tf[k]);
        } else {
            assert(f[k] == oc[k - tf.len()]);
        }
    }
    lemma_chapters_none(f);
    assert(chapters_of(f) + chapters_of(m) =~= chapters_of(m));
    assert(arts_of(f) + arts_of(m) =~= arts_of(m));
    lemma_chapter_frames_read_back(chapters, arts);
}

/// Art attached to a chapter from some image data is, after saving and loading
/// again, the chapter's picture and its only art: exactly the attached data in
/// base64, with the MIME type it was attached with.
pub proof fn attached_art_read_back(
    c: ChapterInfoView,
    arts: Seq<ChapterArtView>,
    mime_type: Seq<char>,
    data: Seq<u8>,
)
    requires
        arts.len() > 0,
        arts.last() == crate::editor::new_art(c.element_id, mime_type, data),
        base64_decoded(base64_encoded(data)) == Some(data),
    ensures
        reloaded_chapter(c, arts).picture_data_base64 == Some(arts.last().data_base64),
        reloaded_art(c, arts) == seq![arts.last()],
{
    assert(last_art(c.element_id, arts) == Some((arts.last(), data)));
    assert(reloaded_art(c, arts) =~= seq![arts.last()]);
}

/// Removing a chapter leaves no chapter with its element id, and keeps every
/// other chapter.
pub proof fn removed_chapter_is_gone(chapters: Seq<ChapterInfoView>, id: Seq<char>)
    ensures
        forall|k: int|
            0 <= k < crate::editor::without_chapter(chapters, id).len() ==> (
            #[trigger] crate::editor::without_chapter(chapters, id)[k]).element_id != id,
        forall|k: int|
            0 <= k < chapters.len() && (#[trigger] chapters[k]).element_id != id
                ==> crate::editor::without_chapter(chapters, id).contains(chapters[k]),
    decreases chapters.len(),
{
    if chapters.len() > 0 {
        let init = chapters.drop_last();
        removed_chapter_is_gone(init, id);
        let r = crate::editor::without_chapter(init, id);
        assert forall|k: int|
            0 <= k < chapters.len() && (#[trigger] chapters[k]).element_id != id
                implies crate::editor::without_chapter(chapters, id).contains(chapters[k]) by {
            if k < init.len() {
                assert(init[k] == chapters[k]);
                let j = choose|j: int| 0 <= j < r.len() && r[j] == init[k];
                if chapters.last().element_id != id {
                    assert(r.push(chapters.last())[j] == chapters[k]);
                }
            } else {
                assert(r.push(chapters.last())[r.len() as int] == chapters[k]);
            }
        }
    }
}

/// Removing a chapter leaves no art of it, and keeps all other art.
pub proof fn removed_art_is_gone(arts: Seq<ChapterArtView>, id: Seq<char>)
    ensures
        forall|k: int|
            0 <= k < crate::editor::without_art(arts, id).len() ==> (
            #[trigger] crate::editor::without_art(arts, id)[k]).element_id != id,
        forall|k: int|
            0 <= k < arts.len() && (#[trigger] arts[k]).element_id != id
                ==> crate::editor::without_art(arts, id).contains(arts[k]),
    decreases arts.len(),
{
    if arts.len() > 0 {
        let init = arts.drop_last();
        removed_art_is_gone(init, id);
        let r = crate::editor::without_art(init, id);
        assert forall|k: int|
            0 <= k < arts.len() && (#[trigger] arts[k]).element_id != id
                implies crate::editor::without_art(arts, id).contains(arts[k]) by {
            if k < init.len() {
                assert(init[k] == arts[k]);
                let j = choose|j: int| 0 <= j < r.len() && r[j] == init[k];
                if arts.last().element_id != id {
                    assert(r.push(arts.last())[j] == arts[k]);
                }
            } else {
                assert(r.push(arts.last())[r.len() as int] == arts[k]);
            }
        }
    }
}

/// After art is attached to a chapter, the chapter has exactly one art: the new one.
pub proof fn attached_art_is_only_art(
    arts: Seq<ChapterArtView>,
    id: Seq<char>,
    mime_type: Seq<char>,
    data: Seq<u8>,
)
    ensures
        ({
            let r = crate::editor::without_art(arts, id).push(crate::editor::new_art(id, mime_type, data));
            &&& r.last().element_id == id
            &&& forall|k: int| 0 <= k < r.len() - 1 ==> (#[trigger] r[k]).element_id != id
        }),
{
    removed_art_is_gone(arts, id);
    let w = crate::editor::without_art(arts, id);
    let r = w.push(crate::editor::new_art(id, mime_type, data));
    assert forall|k: int| 0 <= k < r.len() - 1 implies (#[trigger] r[k]).element_id != id by {
        assert(r[k] == w[k]);
    }
}

} // verus!
