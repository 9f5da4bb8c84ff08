//! Loading: what the editor shows of a tag — its text fields, its pictures, its
//! chapters and the art attached to them — stated over the tag's frames, and the
//! reading of it out of the bytes of an MP3 file.

use vstd::prelude::*;
use vstd::string::*;
use crate::base64_bridge::{base64_decoded, base64_encodable, base64_encode, base64_encoded};
use crate::frames::{
    first_text, id_tcom, id_tcon, id_tit2, id_tpe1, id_talb, id_tpos, id_trck, number_of, year_of,
    ChapterHeaderView, ContentView, FrameView, PictureView, SubframeView,
};
use crate::id3_bridge::{
    id3_genre, id3_read, id3_tag_frames, read_tag, tag_album, tag_artist,
    tag_disc, tag_frame_chapter, tag_frame_comment, tag_frame_count, tag_frame_id,
    tag_frame_picture, tag_frame_text, tag_genre, tag_subframe_count, tag_subframe_id,
    tag_subframe_picture, tag_subframe_text, tag_title, tag_track, tag_year,
};
use crate::model::{
    arts_view, chapters_view, pictures_view, ChapterArt, ChapterArtView, ChapterInfo,
    ChapterInfoView, PictureInfo, PictureInfoView, TagInfo, TagInfoView,
};
use crate::text::{decimal, i32_text, signed_decimal, u32_text};

verus! {

pub open spec fn text_or_empty(t: Option<Seq<char>>) -> Seq<char> {
    match t {
        Some(s) => s,
        None => Seq::empty(),
    }
}

/// The text of the last TCOM text frame, empty when there is none.
pub open spec fn composer_of(frames: Seq<FrameView>) -> Seq<char>
    decreases frames.len(),
{
    if frames.len() == 0 {
        Seq::empty()
    } else {
        match frames.last().content {
            ContentView::Text(t) => if frames.last().id == id_tcom() {
                t
            } else {
                composer_of(frames.drop_last())
            },
            _ => composer_of(frames.drop_last()),
        }
    }
}

/// The text of the last comment frame, empty when there is none.
pub open spec fn comment_of(frames: Seq<FrameView>) -> Seq<char>
    decreases frames.len(),
{
    if frames.len() == 0 {
        Seq::empty()
    } else {
        match frames.last().content {
            ContentView::Comment { text, .. } => text,
            _ => comment_of(frames.drop_last()),
        }
    }
}

/// A picture as the editor shows it, its data in base64.
pub open spec fn picture_info(p: PictureView) -> PictureInfoView {
    PictureInfoView {
        picture_type: p.picture_type,
        mime_type: p.mime_type,
        description: p.description,
        data_base64: base64_encoded(p.data),
    }
}

/// The pictures among the frames, in order.
pub open spec fn pictures_of(frames: Seq<FrameView>) -> Seq<PictureInfoView>
    decreases frames.len(),
{
    if frames.len() == 0 {
        Seq::empty()
    } else {
        match frames.last().content {
            ContentView::Picture(p) => pictures_of(frames.drop_last()).push(picture_info(p)),
            _ => pictures_of(frames.drop_last()),
        }
    }
}

/// The title of a chapter: the text of its last TIT2 text frame, empty when there is none.
pub open spec fn chapter_title(subframes: Seq<SubframeView>) -> Seq<char>
    decreases subframes.len(),
{
    if subframes.len() == 0 {
        Seq::empty()
    } else {
        match subframes.last().content {
            ContentView::Text(t) => if subframes.last().id == id_tit2() {
                t
            } else {
                chapter_title(subframes.drop_last())
            },
            _ => chapter_title(subframes.drop_last()),
        }
    }
}

/// The picture of a chapter: the data of its last picture frame, in base64.
pub open spec fn chapter_picture(subframes: Seq<SubframeView>) -> Option<Seq<char>>
    decreases subframes.len(),
{
    if subframes.len() == 0 {
        None
    } else {
        match subframes.last().content {
            ContentView::Picture(p) => Some(base64_encoded(p.data)),
            _ => chapter_picture(subframes.drop_last()),
        }
    }
}

/// Every picture frame of a chapter, as art of the chapter `element_id`.
pub open spec fn chapter_arts(element_id: Seq<char>, subframes: Seq<SubframeView>) -> Seq<ChapterArtView>
    decreases subframes.len(),
{
    if subframes.len() == 0 {
        Seq::empty()
    } else {
        match subframes.last().content {
            ContentView::Picture(p) => chapter_arts(element_id, subframes.drop_last()).push(
                ChapterArtView {
                    element_id: element_id,
                    mime_type: p.mime_type,
                    description: p.description,
                    data_base64: base64_encoded(p.data),
                },
            ),
            _ => chapter_arts(element_id, subframes.drop_last()),
        }
    }
}

/// A chapter frame as the editor shows it.
pub open spec fn chapter_info(h: ChapterHeaderView, subframes: Seq<SubframeView>) -> ChapterInfoView {
    ChapterInfoView {
        element_id: h.element_id,
        title: chapter_title(subframes),
        start_time: h.start_time,
        end_time: h.end_time,
        start_offset: h.start_offset,
        end_offset: h.end_offset,
        picture_data_base64: chapter_picture(subframes),
    }
}

/// The chapters among the frames, in order.
pub open spec fn chapters_of(frames: Seq<FrameView>) -> Seq<ChapterInfoView>
    decreases frames.len(),
{
    if frames.len() == 0 {
        Seq::empty()
    } else {
        match frames.last().content {
            ContentView::Chapter(h) => chapters_of(frames.drop_last()).push(
                chapter_info(h, frames.last().subframes),
            ),
            _ => chapters_of(frames.drop_last()),
        }
    }
}

/// The art of all chapters, chapter by chapter.
pub open spec fn arts_of(frames: Seq<FrameView>) -> Seq<ChapterArtView>
    decreases frames.len(),
{
    if frames.len() == 0 {
        Seq::empty()
    } else {
        match frames.last().content {
            ContentView::Chapter(h) => arts_of(frames.drop_last()) + chapter_arts(
                h.element_id,
                frames.last().subframes,
            ),
            _ => arts_of(frames.drop_last()),
        }
    }
}

/// The text fields and pictures of a tag as the editor shows them; a field that
/// the tag lacks, or that `id3` cannot read, is empty.
pub open spec fn tag_info_of(frames: Seq<FrameView>) -> TagInfoView {
    TagInfoView {
        title: text_or_empty(first_text(frames, id_tit2())),
        artist: text_or_empty(first_text(frames, id_tpe1())),
        album: text_or_empty(first_text(frames, id_talb())),
        year: match year_of(frames) {
            Some(y) => signed_decimal(y as int),
            None => Seq::empty(),
        },
        genre: match first_text(frames, id_tcon()) {
            Some(t) => id3_genre(t),
            None => Seq::empty(),
        },
        track: match number_of(frames, id_trck()) {
            Some(n) => decimal(n as nat),
            None => Seq::empty(),
        },
        disc: match number_of(frames, id_tpos()) {
            Some(n) => decimal(n as nat),
            None => Seq::empty(),
        },
        composer: composer_of(frames),
        comment: comment_of(frames),
        pictures: pictures_of(frames),
    }
}

/// Every picture of the tag, and of its chapters, is small enough to encode in base64.
pub open spec fn pictures_encodable(frames: Seq<FrameView>) -> bool {
    &&& forall|k: int|
        #![trigger frames[k]]
        0 <= k < frames.len() ==> (frames[k].content matches ContentView::Picture(p)
            ==> base64_encodable(p.data.len()))
    &&& forall|k: int, j: int|
        #![trigger frames[k].subframes[j]]
        0 <= k < frames.len() && frames[k].content is Chapter && 0 <= j < frames[k].subframes.len() ==> (
        frames[k].subframes[j].content matches ContentView::Picture(p)
            ==> base64_encodable(p.data.len()))
}

/// The base64 text of every picture of the tag, and of its chapters, decodes
/// back to the picture's data.
pub open spec fn pictures_decode_back(frames: Seq<FrameView>) -> bool {
    &&& forall|k: int|
        #![trigger frames[k]]
        0 <= k < frames.len() ==> (frames[k].content matches ContentView::Picture(p)
            ==> base64_decoded(base64_encoded(p.data)) == Some(p.data))
    &&& forall|k: int, j: int|
        #![trigger frames[k].subframes[j]]
        0 <= k < frames.len() && frames[k].content is Chapter && 0 <= j < frames[k].subframes.len() ==> (
        frames[k].subframes[j].content matches ContentView::Picture(p)
            ==> base64_decoded(base64_encoded(p.data)) == Some(p.data))
}

/// Whether `id` is the identifier `expected`.
fn is_id(id: &String, expected: &str) -> (r: bool)
    ensures
        r == (id@ == expected@),
{
    let e = String::from_str(expected);
    *id == e
}

fn text_or_empty_exec(t: Option<String>) -> (res: String)
    ensures
        res@ == text_or_empty(crate::model::opt_string_view(t)),
{
    match t {
        Some(s) => s,
        None => String::new(),
    }
}

/// Whether `len` bytes are few enough to encode in base64.
fn encodable(len: usize) -> (b: bool)
    ensures
        b == base64_encodable(len as nat),
{
    let chunks: usize = len / 3 + if len % 3 > 0 { 1 } else { 0 };
    assert(chunks == (len + 2) / 3) by (nonlinear_arith)
        requires
            chunks == len / 3 + if len % 3 > 0 { 1int } else { 0int },
    ;
    chunks <= usize::MAX / 4
}

/// Whether every picture of the tag, and of its chapters, is small enough to
/// encode in base64.
pub fn pictures_fit(tag: &id3::Tag) -> (ok: bool)
    ensures
        ok == pictures_encodable(id3_tag_frames(*tag)),
{
    let ghost frames = id3_tag_frames(*tag);
    let n = tag_frame_count(tag);
    let mut i: usize = 0;
    while i < n
        invariant
            n == frames.len(),
            frames == id3_tag_frames(*tag),
            i <= n,
            forall|k: int|
                #![trigger frames[k]]
                0 <= k < i ==> (frames[k].content matches ContentView::Picture(p)
                    ==> base64_encodable(p.data.len())),
            forall|k: int, j: int|
                #![trigger frames[k].subframes[j]]
                0 <= k < i && frames[k].content is Chapter && 0 <= j < frames[k].subframes.len() ==> (
                frames[k].subframes[j].content matches ContentView::Picture(p)
                    ==> base64_encodable(p.data.len())),
        decreases n - i,
    {
        if let Some(p) = tag_frame_picture(tag, i) {
            if !encodable(p.data.len()) {
                return false;
            }
        }
        if let Some(_h) = tag_frame_chapter(tag, i) {
            let m = tag_subframe_count(tag, i);
            let mut j: usize = 0;
            while j < m
                invariant
                    n == frames.len(),
                    frames == id3_tag_frames(*tag),
                    i < n,
                    frames[i as int].content is Chapter,
                    m == frames[i as int].subframes.len(),
                    j <= m,
                    forall|jj: int|
                        #![trigger frames[i as int].subframes[jj]]
                        0 <= jj < j ==> (frames[i as int].subframes[jj].content matches ContentView::Picture(p)
                            ==> base64_encodable(p.data.len())),
                decreases m - j,
            {
                if let Some(p) = tag_subframe_picture(tag, i, j) {
                    if !encodable(p.data.len()) {
                        return false;
                    }
                }
                j = j + 1;
            }
        }
        i = i + 1;
    }
    true
}

/// The text fields, pictures, chapters and chapter art of a tag, as the editor
/// shows them: `tag_info_of`, `chapters_of` and `arts_of` of its frames.
pub fn tag_contents(tag: &id3::Tag) -> (res: (TagInfo, Vec<ChapterInfo>, Vec<ChapterArt>))
    requires
        pictures_encodable(id3_tag_frames(*tag)),
    ensures
        res.0@ == tag_info_of(id3_tag_frames(*tag)),
        chapters_view(res.1@) == chapters_of(id3_tag_frames(*tag)),
        arts_view(res.2@) == arts_of(id3_tag_frames(*tag)),
        pictures_decode_back(id3_tag_frames(*tag)),
{
    let ghost frames = id3_tag_frames(*tag);
    let title = text_or_empty_exec(tag_title(tag));
    let artist = text_or_empty_exec(tag_artist(tag));
    let album = text_or_empty_exec(tag_album(tag));
    let year = match tag_year(tag) {
        Some(y) => i32_text(y),
        None => String::new(),
    };
    let genre = text_or_empty_exec(tag_genre(tag));
    let track = match tag_track(tag) {
        Some(t) => u32_text(t),
        None => String::new(),
    };
    let disc = match tag_disc(tag) {
        Some(d) => u32_text(d),
        None => String::new(),
    };
    proof {
        reveal_strlit("TCOM");
        reveal_strlit("TIT2");
        assert("TCOM"@ =~= id_tcom());
        assert("TIT2"@ =~= id_tit2());
    }
    let mut composer = String::new();
    let mut comment = String::new();
    let mut pictures: Vec<PictureInfo> = Vec::new();
    let n = tag_frame_count(tag);
    let mut i: usize = 0;
    assert(frames.take(0) =~= Seq::<FrameView>::empty());
    while i < n
        invariant
            n == frames.len(),
            frames == id3_tag_frames(*tag),
            i <= n,
            pictures_encodable(frames),
            "TCOM"@ == id_tcom(),
            composer@ == composer_of(frames.take(i as int)),
            comment@ == comment_of(frames.take(i as int)),
            pictures_view(pictures@) == pictures_of(frames.take(i as int)),
            forall|k: int|
                #![trigger frames[k]]
                0 <= k < i ==> (frames[k].content matches ContentView::Picture(p)
                    ==> base64_decoded(base64_encoded(p.data)) == Some(p.data)),
        decreases n - i,
    {
        let ghost prefix = frames.take(i + 1);
        assert(prefix.drop_last() =~= frames.take(i as int));
        assert(prefix.last() == frames[i as int]);
        let id = tag_frame_id(tag, i);
        if let Some(t) = tag_frame_text(tag, i) {
            if is_id(&id, "TCOM") {
                composer = t;
            }
        }
        if let Some(c) = tag_frame_comment(tag, i) {
            comment = c;
        }
        if let Some(p) = tag_frame_picture(tag, i) {
            assert(frames[i as int].content matches ContentView::Picture(pv) && pv == p@);
            let ghost before = pictures@;
            let data_base64 = base64_encode(p.data.as_slice());
            let info = PictureInfo {
                picture_type: p.picture_type,
                mime_type: p.mime_type,
                description: p.description,
                data_base64,
            };
            pictures.push(info);
            assert(pictures_view(pictures@) =~= pictures_view(before).push(info@));
        }
        i = i + 1;
    }
    assert(frames.take(n as int) =~= frames);
    let mut chapters: Vec<ChapterInfo> = Vec::new();
    let mut arts: Vec<ChapterArt> = Vec::new();
    let mut i: usize = 0;
    while i < n
        invariant
            n == frames.len(),
            frames == id3_tag_frames(*tag),
            i <= n,
            pictures_encodable(frames),
            "TIT2"@ == id_tit2(),
            chapters_view(chapters@) == chapters_of(frames.take(i as int)),
            arts_view(arts@) == arts_of(frames.take(i as int)),
            forall|k: int|
                #![trigger frames[k]]
                0 <= k < n ==> (frames[k].content matches ContentView::Picture(p)
                    ==> base64_decoded(base64_encoded(p.data)) == Some(p.data)),
            forall|k: int, j: int|
                #![trigger frames[k].subframes[j]]
                0 <= k < i && frames[k].content is Chapter && 0 <= j < frames[k].subframes.len() ==> (
                frames[k].subframes[j].content matches ContentView::Picture(p)
                    ==> base64_decoded(base64_encoded(p.data)) == Some(p.data)),
        decreases n - i,
    {
        let ghost prefix = frames.take(i + 1);
        assert(prefix.drop_last() =~= frames.take(i as int));
        assert(prefix.last() == frames[i as int]);
        if let Some(h) = tag_frame_chapter(tag, i) {
            let ghost subs = frames[i as int].subframes;
            let ghost arts_before = arts_view(arts@);
            let mut title = String::new();
            let mut picture: Option<String> = None;
            let m = tag_subframe_count(tag, i);
            let mut j: usize = 0;
            assert(subs.take(0) =~= Seq::<SubframeView>::empty());
            assert(arts_before + chapter_arts(h@.element_id, subs.take(0)) =~= arts_before);
            while j < m
                invariant
                    n == frames.len(),
                    frames == id3_tag_frames(*tag),
                    i < n,
                    pictures_encodable(frames),
                    "TIT2"@ == id_tit2(),
                    frames[i as int].content == ContentView::Chapter(h@),
                    subs == frames[i as int].subframes,
                    m == subs.len(),
                    j <= m,
                    title@ == chapter_title(subs.take(j as int)),
                    crate::model::opt_string_view(picture) == chapter_picture(subs.take(j as int)),
                    arts_view(arts@) == arts_before + chapter_arts(h@.element_id, subs.take(j as int)),
                    forall|k: int|
                        #![trigger frames[k]]
                        0 <= k < n ==> (frames[k].content matches ContentView::Picture(p)
                            ==> base64_decoded(base64_encoded(p.data)) == Some(p.data)),
                    forall|k: int, jj: int|
                        #![trigger frames[k].subframes[jj]]
                        0 <= k < i && frames[k].content is Chapter && 0 <= jj < frames[k].subframes.len() ==> (
                        frames[k].subframes[jj].content matches ContentView::Picture(p)
                            ==> base64_decoded(base64_encoded(p.data)) == Some(p.data)),
                    forall|jj: int|
                        #![trigger frames[i as int].subframes[jj]]
                        0 <= jj < j ==> (frames[i as int].subframes[jj].content matches ContentView::Picture(p)
                            ==> base64_decoded(base64_encoded(p.data)) == Some(p.data)),
                decreases m - j,
            {
                let ghost sprefix = subs.take(j + 1);
                assert(sprefix.drop_last() =~= subs.take(j as int));
                assert(sprefix.last() == subs[j as int]);
                let sid = tag_subframe_id(tag, i, j);
                if let Some(t) = tag_subframe_text(tag, i, j) {
                    if is_id(&sid, "TIT2") {
                        title = t;
                    }
                }
                if let Some(p) = tag_subframe_picture(tag, i, j) {
                    assert(subs[j as int].content matches ContentView::Picture(pv) && pv == p@);
                    assert(frames[i as int].subframes[j as int] == subs[j as int]);
                    let ghost before = arts@;
                    let encoded = base64_encode(p.data.as_slice());
                    picture = Some(encoded.clone());
                    let art = ChapterArt {
                        element_id: h.element_id.clone(),
                        mime_type: p.mime_type,
                        description: p.description,
                        data_base64: encoded,
                    };
                    arts.push(art);
                    assert(arts_view(arts@) =~= arts_view(before).push(art@));
                }
                j = j + 1;
            }
            assert(subs.take(m as int) =~= subs);
            let ghost chapters_before = chapters@;
            let info = ChapterInfo {
                element_id: h.element_id,
                title,
                start_time: h.start_time,
                end_time: h.end_time,
                start_offset: h.start_offset,
                end_offset: h.end_offset,
                picture_data_base64: picture,
            };
            chapters.push(info);
            assert(chapters_view(chapters@) =~= chapters_view(chapters_before).push(info@));
        }
        i = i + 1;
    }
    assert(frames.take(n as int) =~= frames);
    let info = TagInfo {
        title,
        artist,
        album,
        year,
        genre,
        track,
        disc,
        composer,
        comment,
        pictures,
    };
    (info, chapters, arts)
}

/// The message with which reading a tag fails.
pub open spec fn read_failure_prefix() -> Seq<char> {
    "Failed to read tag: "@
}

/// The text that ends the message when a picture is too large to encode.
pub open spec fn too_large_text() -> Seq<char> {
    "a picture is too large to encode"@
}

/// Reads the tag of an MP3 file from its bytes and returns what the editor shows
/// of it: `tag_contents` of the tag that `id3` reads. Fails with the message
/// `Failed to read tag: ` followed by the text of `id3`'s error where `id3`
/// reports one, and by `a picture is too large to encode` where a picture of
/// the tag is too large to encode in base64.
pub fn parse_mp3_data(data: &[u8]) -> (res: Result<(TagInfo, Vec<ChapterInfo>, Vec<ChapterArt>), String>)
    ensures
        res is Ok <==> (id3_read(data@) matches Ok(frames) && pictures_encodable(frames)),
        res matches Ok(r) ==> {
            let frames = id3_read(data@)->Ok_0;
            &&& r.0@ == tag_info_of(frames)
            &&& chapters_view(r.1@) == chapters_of(frames)
            &&& arts_view(r.2@) == arts_of(frames)
            &&& pictures_decode_back(frames)
        },
        res matches Err(e) ==> e@ == read_failure_prefix() + match id3_read(data@) {
            Err(text) => text,
            Ok(_) => too_large_text(),
        },
{
    let mut message = String::from_str("Failed to read tag: ");
    match read_tag(data) {
        Ok(tag) => {
            if pictures_fit(&tag) {
                Ok(tag_contents(&tag))
            } else {
                message.append("a picture is too large to encode");
                Err(message)
            }
        },
        Err(text) => {
            message.append(text.as_str());
            Err(message)
        },
    }
}

} // verus!
