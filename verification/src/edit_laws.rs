//! Properties of the editing operations: removing a chapter keeps the rest in
//! order, a typed time is the number it spells, and the image shown for a chapter
//! is its own or the first art attached to exactly that chapter.

use vstd::prelude::*;
use crate::editor::{chapter_of_form, shown_art_spec, without_art, without_chapter};
use crate::model::{ChapterArtView, ChapterInfoView, NewChapterView};
use crate::text::{decimal, decimal_parses_back, parse_u32_spec};

verus! {

/// Removing a chapter keeps a chapter with another element id, after the ones
/// kept before it.
pub proof fn removal_keeps_other_chapter(chapters: Seq<ChapterInfoView>, c: ChapterInfoView, id: Seq<char>)
    requires
        c.element_id != id,
    ensures
        without_chapter(chapters.push(c), id) == without_chapter(chapters, id).push(c),
{
    assert(chapters.push(c).drop_last() =~= chapters);
}

/// Removing a chapter drops every chapter with that element id.
pub proof fn removal_drops_chapter(chapters: Seq<ChapterInfoView>, c: ChapterInfoView, id: Seq<char>)
    requires
        c.element_id == id,
    ensures
        without_chapter(chapters.push(c), id) == without_chapter(chapters, id),
{
    assert(chapters.push(c).drop_last() =~= chapters);
}

/// Removing a chapter from two lists put together is removing it from each, the
/// first list's remains first.
pub proof fn removal_splits(a: Seq<ChapterInfoView>, b: Seq<ChapterInfoView>, id: Seq<char>)
    ensures
        without_chapter(a + b, id) == without_chapter(a, id) + without_chapter(b, id),
    decreases b.len(),
{
    if b.len() == 0 {
        assert(a + b =~= a);
        assert(without_chapter(a, id) + without_chapter(b, id) =~= without_chapter(a, id));
    } else {
        removal_splits(a, b.drop_last(), id);
        assert((a + b).drop_last() =~= a + b.drop_last());
        assert((a + b).last() == b.last());
        if b.last().element_id != id {
            assert(without_chapter(a, id) + without_chapter(b.drop_last(), id).push(b.last())
                =~= (without_chapter(a, id) + without_chapter(b.drop_last(), id)).push(b.last()));
        }
    }
}

/// Removing a chapter keeps the others in their order: two kept chapters at
/// positions `i < j` of the list stand at positions `p < q` of the result.
pub proof fn removal_keeps_order(chapters: Seq<ChapterInfoView>, id: Seq<char>, i: int, j: int)
    requires
        0 <= i < j < chapters.len(),
        chapters[i].element_id != id,
        chapters[j].element_id != id,
    ensures
        exists|p: int, q: int|
            0 <= p < q < without_chapter(chapters, id).len()
                && without_chapter(chapters, id)[p] == chapters[i]
                && without_chapter(chapters, id)[q] == chapters[j],
{
    let r = without_chapter(chapters, id);
    let before_i = without_chapter(chapters.take(i), id);
    let before_j = without_chapter(chapters.take(j), id);
    // Up to and including `i`, then the rest.
    assert(chapters.take(i + 1) =~= chapters.take(i).push(chapters[i]));
    removal_keeps_other_chapter(chapters.take(i), chapters[i], id);
    assert(chapters =~= chapters.take(i + 1) + chapters.skip(i + 1));
    removal_splits(chapters.take(i + 1), chapters.skip(i + 1), id);
    // Up to and including `j`, then the rest.
    assert(chapters.take(j + 1) =~= chapters.take(j).push(chapters[j]));
    removal_keeps_other_chapter(chapters.take(j), chapters[j], id);
    assert(chapters =~= chapters.take(j + 1) + chapters.skip(j + 1));
    removal_splits(chapters.take(j + 1), chapters.skip(j + 1), id);
    // Everything before `j` holds everything up to `i`.
    assert(chapters.take(j) =~= chapters.take(i + 1) + chapters.subrange(i + 1, j));
    removal_splits(chapters.take(i + 1), chapters.subrange(i + 1, j), id);
    let p = before_i.len() as int;
    let q = before_j.len() as int;
    assert(r[p] == chapters[i]);
    assert(r[q] == chapters[j]);
    assert(p < q);
}

/// Removing a chapter keeps art of another chapter, after the art kept before it.
pub proof fn removal_keeps_other_art(arts: Seq<ChapterArtView>, a: ChapterArtView, id: Seq<char>)
    requires
        a.element_id != id,
    ensures
        without_art(arts.push(a), id) == without_art(arts, id).push(a),
{
    assert(arts.push(a).drop_last() =~= arts);
}

/// Removing a chapter drops every art of that chapter.
pub proof fn removal_drops_art(arts: Seq<ChapterArtView>, a: ChapterArtView, id: Seq<char>)
    requires
        a.element_id == id,
    ensures
        without_art(arts.push(a), id) == without_art(arts, id),
{
    assert(arts.push(a).drop_last() =~= arts);
}

/// Removing a chapter's art from two lists put together is removing it from
/// each, the first list's remains first.
pub proof fn art_removal_splits(a: Seq<ChapterArtView>, b: Seq<ChapterArtView>, id: Seq<char>)
    ensures
        without_art(a + b, id) == without_art(a, id) + without_art(b, id),
    decreases b.len(),
{
    if b.len() == 0 {
        assert(a + b =~= a);
        assert(without_art(a, id) + without_art(b, id) =~= without_art(a, id));
    } else {
        art_removal_splits(a, b.drop_last(), id);
        assert((a + b).drop_last() =~= a + b.drop_last());
        assert((a + b).last() == b.last());
        if b.last().element_id != id {
            assert(without_art(a, id) + without_art(b.drop_last(), id).push(b.last())
                =~= (without_art(a, id) + without_art(b.drop_last(), id)).push(b.last()));
        }
    }
}

/// Removing a chapter keeps the other art in its order: two kept art at positions
/// `i < j` of the list stand at positions `p < q` of the result.
pub proof fn art_removal_keeps_order(arts: Seq<ChapterArtView>, id: Seq<char>, i: int, j: int)
    requires
        0 <= i < j < arts.len(),
        arts[i].element_id != id,
        arts[j].element_id != id,
    ensures
        exists|p: int, q: int|
            0 <= p < q < without_art(arts, id).len()
                && without_art(arts, id)[p] == arts[i]
                && without_art(arts, id)[q] == arts[j],
{
    let r = without_art(arts, id);
    let before_i = without_art(arts.take(i), id);
    let before_j = without_art(arts.take(j), id);
    assert(arts.take(i + 1) =~= arts.take(i).push(arts[i]));
    removal_keeps_other_art(arts.take(i), arts[i], id);
    assert(arts =~= arts.take(i + 1) + arts.skip(i + 1));
    art_removal_splits(arts.take(i + 1), arts.skip(i + 1), id);
    assert(arts.take(j + 1) =~= arts.take(j).push(arts[j]));
    removal_keeps_other_art(arts.take(j), arts[j], id);
    assert(arts =~= arts.take(j + 1) + arts.skip(j + 1));
    art_removal_splits(arts.take(j + 1), arts.skip(j + 1), id);
    assert(arts.take(j) =~= arts.take(i + 1) + arts.subrange(i + 1, j));
    art_removal_splits(arts.take(i + 1), arts.subrange(i + 1, j), id);
    let p = before_i.len() as int;
    let q = before_j.len() as int;
    assert(r[p] == arts[i]);
    assert(r[q] == arts[j]);
    assert(p < q);
}

/// A time typed in the chapter form that parses as a `u32` is the chapter's
/// time; only one that does not parse gives 0.
pub proof fn form_times_are_parsed(f: NewChapterView)
    ensures
        parse_u32_spec(f.start_time) matches Some(v) ==> chapter_of_form(f).start_time == v,
        parse_u32_spec(f.start_time) is None ==> chapter_of_form(f).start_time == 0,
        parse_u32_spec(f.end_time) matches Some(v) ==> chapter_of_form(f).end_time == v,
        parse_u32_spec(f.end_time) is None ==> chapter_of_form(f).end_time == 0,
{
}

/// The chapter of a form has the element id and title typed in it, no picture,
/// and both offsets unset (`0xFFFF_FFFF`), so that it is placed by time.
pub proof fn form_chapter_fields(f: NewChapterView)
    ensures
        chapter_of_form(f).element_id == f.element_id,
        chapter_of_form(f).title == f.title,
        chapter_of_form(f).start_offset == 0xFFFF_FFFF,
        chapter_of_form(f).end_offset == 0xFFFF_FFFF,
        chapter_of_form(f).picture_data_base64 is None,
{
}

/// A chapter form whose times are the decimal texts of two `u32` values gives a
/// chapter with exactly those times.
pub proof fn form_decimal_times(f: NewChapterView, start: u32, end: u32)
    requires
        f.start_time == decimal(start as nat),
        f.end_time == decimal(end as nat),
    ensures
        chapter_of_form(f).start_time == start,
        chapter_of_form(f).end_time == end,
{
    decimal_parses_back(start);
    decimal_parses_back(end);
}

/// A chapter with a picture of its own shows that picture.
pub proof fn shown_art_own_picture(c: ChapterInfoView, arts: Seq<ChapterArtView>, p: Seq<char>)
    requires
        c.picture_data_base64 == Some(p),
    ensures
        shown_art_spec(c, arts) == Some(p),
{
}

/// A chapter without a picture of its own shows the data of the first art whose
/// element id is exactly the chapter's.
pub proof fn shown_art_first_match(c: ChapterInfoView, arts: Seq<ChapterArtView>, k: int)
    requires
        c.picture_data_base64 is None,
        0 <= k < arts.len(),
        arts[k].element_id == c.element_id,
        forall|j: int| 0 <= j < k ==> (#[trigger] arts[j]).element_id != c.element_id,
    ensures
        shown_art_spec(c, arts) == Some(arts[k].data_base64),
    decreases k,
{
    if k > 0 {
        let rest = arts.drop_first();
        assert forall|j: int| 0 <= j < k - 1 implies (#[trigger] rest[j]).element_id != c.element_id by {
            assert(rest[j] == arts[j + 1]);
        }
        assert(rest[k - 1] == arts[k]);
        assert(arts[0].element_id != c.element_id);
        shown_art_first_match(c, rest, k - 1);
    }
}

/// A chapter without a picture of its own, and with no art whose element id is
/// exactly the chapter's, shows nothing.
pub proof fn shown_art_no_match(c: ChapterInfoView, arts: Seq<ChapterArtView>)
    requires
        c.picture_data_base64 is None,
        forall|j: int| 0 <= j < arts.len() ==> (#[trigger] arts[j]).element_id != c.element_id,
    ensures
        shown_art_spec(c, arts) is None,
    decreases arts.len(),
{
    if arts.len() > 0 {
        let rest = arts.drop_first();
        assert forall|j: int| 0 <= j < rest.len() implies (#[trigger] rest[j]).element_id != c.element_id by {
            assert(rest[j] == arts[j + 1]);
        }
        assert(arts[0].element_id != c.element_id);
        shown_art_no_match(c, rest);
    }
}

/// What a chapter without a picture of its own shows is the data of some art
/// whose element id is exactly the chapter's, and of no art before it.
pub proof fn shown_art_is_exact_match(c: ChapterInfoView, arts: Seq<ChapterArtView>)
    requires
        c.picture_data_base64 is None,
    ensures
        shown_art_spec(c, arts) matches Some(d) ==> exists|k: int|
            0 <= k < arts.len() && (#[trigger] arts[k]).element_id == c.element_id && arts[k].data_base64 == d
                && forall|j: int| 0 <= j < k ==> (#[trigger] arts[j]).element_id != c.element_id,
{
    if exists|k: int| 0 <= k < arts.len() && (#[trigger] arts[k]).element_id == c.element_id {
        let k0 = choose|k: int| 0 <= k < arts.len() && (#[trigger] arts[k]).element_id == c.element_id;
        lemma_first_index(arts, c.element_id, k0);
        let k = choose|k: int|
            0 <= k < arts.len() && (#[trigger] arts[k]).element_id == c.element_id
                && forall|j: int| 0 <= j < k ==> (#[trigger] arts[j]).element_id != c.element_id;
        shown_art_first_match(c, arts, k);
    } else {
        shown_art_no_match(c, arts);
    }
}

/// Where some art has element id `id`, a first one has.
proof fn lemma_first_index(arts: Seq<ChapterArtView>, id: Seq<char>, k0: int)
    requires
        0 <= k0 < arts.len(),
        arts[k0].element_id == id,
    ensures
        exists|k: int|
            0 <= k < arts.len() && (#[trigger] arts[k]).element_id == id
                && forall|j: int| 0 <= j < k ==> (#[trigger] arts[j]).element_id != id,
    decreases k0,
{
    if exists|j: int| 0 <= j < k0 && (#[trigger] arts[j]).element_id == id {
        let j = choose|j: int| 0 <= j < k0 && (#[trigger] arts[j]).element_id == id;
        lemma_first_index(arts, id, j);
    } else {
        assert(forall|j: int| 0 <= j < k0 ==> (#[trigger] arts[j]).element_id != id);
    }
}

} // verus!
