//! The editing operations: checks on what the user asks for, adding and removing
//! chapters, attaching art to a chapter, and where a tag is saved.

use vstd::prelude::*;
use vstd::string::*;
use crate::base64_bridge::{base64_decoded, base64_encodable, base64_encode, base64_encoded};
use crate::model::{
    arts_view, chapters_view, ChapterArt, ChapterArtView, ChapterInfo, ChapterInfoView, Mp3File,
    NewChapter, NewChapterView, NewTag, TagInfo,
};
use crate::text::{parse_u32, parse_u32_spec};

verus! {

/// A request that the editor refuses.
#[derive(Debug, Clone, Copy, PartialEq, Eq, Structural)]
pub enum EditError {
    /// Loading from a URL, with no URL given.
    EmptyUrl,
    /// Saving, with no file loaded.
    NoFileLoaded,
    /// Adding a chapter without an element id.
    MissingElementId,
}

impl EditError {
    pub open spec fn message_spec(&self) -> Seq<char> {
        match self {
            EditError::EmptyUrl => "Please enter a URL"@,
            EditError::NoFileLoaded => "No file loaded"@,
            EditError::MissingElementId => "Chapter element ID is required"@,
        }
    }

    /// The message shown to the user.
    pub fn message(&self) -> (res: String)
        ensures
            res@ == self.message_spec(),
    {
        match self {
            EditError::EmptyUrl => String::from_str("Please enter a URL"),
            EditError::NoFileLoaded => String::from_str("No file loaded"),
            EditError::MissingElementId => String::from_str("Chapter element ID is required"),
        }
    }
}

/// A URL to load from must not be empty.
pub fn check_url(url: &String) -> (res: Result<(), EditError>)
    ensures
        res is Err <==> url@.len() == 0,
        res matches Err(e) ==> e == EditError::EmptyUrl,
{
    if url.as_str().is_empty() {
        Err(EditError::EmptyUrl)
    } else {
        Ok(())
    }
}

/// The path a tag is saved to.
pub open spec fn save_path_spec(file: Mp3File) -> Seq<char> {
    if file.is_url {
        "downloaded.mp3"@
    } else {
        file.path@
    }
}

/// Where the tag of the loaded file is saved: the file's own path, or
/// `downloaded.mp3` for a file loaded from a URL. Fails when no file is loaded.
pub fn save_path(file: &Option<Mp3File>) -> (res: Result<String, EditError>)
    ensures
        res is Err <==> file is None,
        res matches Err(e) ==> e == EditError::NoFileLoaded,
        res matches Ok(p) ==> p@ == save_path_spec(file.unwrap()),
{
    match file {
        None => Err(EditError::NoFileLoaded),
        Some(mp3) => if mp3.is_url {
            Ok(String::from_str("downloaded.mp3"))
        } else {
            Ok(mp3.path.clone())
        },
    }
}

/// The edit form for the fields of a loaded tag.
pub fn new_tag_from_info(info: TagInfo) -> (res: NewTag)
    ensures
        res.title@ == info.title@,
        res.artist@ == info.artist@,
        res.album@ == info.album@,
        res.year@ == info.year@,
        res.genre@ == info.genre@,
        res.track@ == info.track@,
        res.disc@ == info.disc@,
        res.composer@ == info.composer@,
        res.comment@ == info.comment@,
{
    NewTag {
        title: info.title,
        artist: info.artist,
        album: info.album,
        year: info.year,
        genre: info.genre,
        track: info.track,
        disc: info.disc,
        composer: info.composer,
        comment: info.comment,
    }
}

/// The value of a time typed in milliseconds, 0 when it is not a `u32`.
pub open spec fn time_or_zero(text: Seq<char>) -> u32 {
    match parse_u32_spec(text) {
        Some(v) => v,
        None => 0,
    }
}

/// The chapter made of a filled-in form: placed by time, without art.
pub open spec fn chapter_of_form(f: NewChapterView) -> ChapterInfoView {
    ChapterInfoView {
        element_id: f.element_id,
        title: f.title,
        start_time: time_or_zero(f.start_time),
        end_time: time_or_zero(f.end_time),
        start_offset: 0xFFFF_FFFF,
        end_offset: 0xFFFF_FFFF,
        picture_data_base64: None,
    }
}

/// The chapter made of a form; fails when the element id is empty.
pub fn chapter_from_form(form: &NewChapter) -> (res: Result<ChapterInfo, EditError>)
    ensures
        res is Err <==> form.element_id@.len() == 0,
        res matches Err(e) ==> e == EditError::MissingElementId,
        res matches Ok(c) ==> c@ == chapter_of_form(form@),
{
    if form.element_id.as_str().is_empty() {
        return Err(EditError::MissingElementId);
    }
    let start_time = match parse_u32(form.start_time.as_str()) {
        Some(v) => v,
        None => 0,
    };
    let end_time = match parse_u32(form.end_time.as_str()) {
        Some(v) => v,
        None => 0,
    };
    Ok(ChapterInfo {
        element_id: form.element_id.clone(),
        title: form.title.clone(),
        start_time,
        end_time,
        start_offset: 0xFFFF_FFFF,
        end_offset: 0xFFFF_FFFF,
        picture_data_base64: None,
    })
}

/// Adds the chapter of a form at the end of the list; leaves the list as it was
/// when the element id is empty.
pub fn add_chapter(chapters: &mut Vec<ChapterInfo>, form: &NewChapter) -> (res: Result<(), EditError>)
    ensures
        res is Err <==> form.element_id@.len() == 0,
        res matches Err(e) ==> e == EditError::MissingElementId,
        res is Ok ==> chapters_view(final(chapters)@) == chapters_view(old(chapters)@).push(chapter_of_form(form@)),
        res is Err ==> final(chapters)@ == old(chapters)@,
{
    match chapter_from_form(form) {
        Ok(c) => {
            let ghost before = chapters@;
            chapters.push(c);
            assert(chapters_view(chapters@) =~= chapters_view(before).push(chapter_of_form(form@)));
            Ok(())
        },
        Err(e) => Err(e),
    }
}

/// The chapters without those with element id `id`, in order.
pub open spec fn without_chapter(chapters: Seq<ChapterInfoView>, id: Seq<char>) -> Seq<ChapterInfoView>
    decreases chapters.len(),
{
    if chapters.len() == 0 {
        chapters
    } else if chapters.last().element_id == id {
        without_chapter(chapters.drop_last(), id)
    } else {
        without_chapter(chapters.drop_last(), id).push(chapters.last())
    }
}

/// The art without that of the chapter `id`, in order.
pub open spec fn without_art(arts: Seq<ChapterArtView>, id: Seq<char>) -> Seq<ChapterArtView>
    decreases arts.len(),
{
    if arts.len() == 0 {
        arts
    } else if arts.last().element_id == id {
        without_art(arts.drop_last(), id)
    } else {
        without_art(arts.drop_last(), id).push(arts.last())
    }
}

/// Removes the art of the chapter `id`, keeping the rest in order.
fn remove_art(art: &mut Vec<ChapterArt>, id: &String)
    ensures
        arts_view(final(art)@) == without_art(arts_view(old(art)@), id@),
{
    let ghost old_view = arts_view(art@);
    let mut kept: Vec<ChapterArt> = Vec::new();
    let mut rest: Vec<ChapterArt> = Vec::new();
    std::mem::swap(&mut rest, art);
    let n = rest.len();
    let mut i: usize = 0;
    assert(old_view.take(0) =~= Seq::<ChapterArtView>::empty());
    while i < n
        invariant
            n == rest.len(),
            old_view == arts_view(rest@),
            i <= n,
            arts_view(kept@) == without_art(old_view.take(i as int), id@),
        decreases n - i,
    {
        assert(old_view.take(i + 1).drop_last() =~= old_view.take(i as int));
        let a = &rest[i];
        if a.element_id != *id {
            let ghost before = kept@;
            let copy = ChapterArt {
                element_id: a.element_id.clone(),
                mime_type: a.mime_type.clone(),
                description: a.description.clone(),
                data_base64: a.data_base64.clone(),
            };
            kept.push(copy);
            assert(arts_view(kept@) =~= arts_view(before).push(old_view[i as int]));
        }
        i = i + 1;
    }
    assert(old_view.take(n as int) =~= old_view);
    *art = kept;
}

/// Removes the chapter `id` and its art; the other chapters and art stay, in order.
pub fn remove_chapter(chapters: &mut Vec<ChapterInfo>, art: &mut Vec<ChapterArt>, element_id: &String)
    ensures
        chapters_view(final(chapters)@) == without_chapter(chapters_view(old(chapters)@), element_id@),
        arts_view(final(art)@) == without_art(arts_view(old(art)@), element_id@),
{
    let ghost old_view = chapters_view(chapters@);
    let mut kept: Vec<ChapterInfo> = Vec::new();
    let mut rest: Vec<ChapterInfo> = Vec::new();
    std::mem::swap(&mut rest, chapters);
    let n = rest.len();
    let mut i: usize = 0;
    assert(old_view.take(0) =~= Seq::<ChapterInfoView>::empty());
    while i < n
        invariant
            n == rest.len(),
            old_view == chapters_view(rest@),
            i <= n,
            chapters_view(kept@) == without_chapter(old_view.take(i as int), element_id@),
        decreases n - i,
    {
        assert(old_view.take(i + 1).drop_last() =~= old_view.take(i as int));
        let c = &rest[i];
        if c.element_id != *element_id {
            let ghost before = kept@;
            let picture = match &c.picture_data_base64 {
                Some(p) => Some(p.clone()),
                None => None,
            };
            let copy = ChapterInfo {
                element_id: c.element_id.clone(),
                title: c.title.clone(),
                start_time: c.start_time,
                end_time: c.end_time,
                start_offset: c.start_offset,
                end_offset: c.end_offset,
                picture_data_base64: picture,
            };
            kept.push(copy);
            assert(chapters_view(kept@) =~= chapters_view(before).push(old_view[i as int]));
        }
        i = i + 1;
    }
    assert(old_view.take(n as int) =~= old_view);
    *chapters = kept;
    remove_art(art, element_id);
}

/// The MIME type recorded for an uploaded image: the file's own type, or
/// `image/jpeg` when the file does not give one.
pub open spec fn art_mime_type(mime_type: Option<Seq<char>>) -> Seq<char> {
    match mime_type {
        Some(m) => m,
        None => "image/jpeg"@,
    }
}

/// The art attached from an image file of MIME type `mime_type`.
pub open spec fn new_art(element_id: Seq<char>, mime_type: Seq<char>, data: Seq<u8>) -> ChapterArtView {
    ChapterArtView {
        element_id,
        mime_type,
        description: Seq::empty(),
        data_base64: base64_encoded(data),
    }
}

/// Attaches an image to the chapter `element_id`, keeping the image's MIME type
/// (`image/jpeg` when the file gives none), and replacing the art the chapter
/// had: its former art is removed and the new art goes to the end. The stored
/// base64 text decodes back to the image data.
pub fn add_chapter_art(
    art: &mut Vec<ChapterArt>,
    element_id: String,
    mime_type: Option<String>,
    file_data: &[u8],
)
    requires
        base64_encodable(file_data@.len()),
    ensures
        arts_view(final(art)@) == without_art(arts_view(old(art)@), element_id@).push(
            new_art(element_id@, art_mime_type(crate::model::opt_string_view(mime_type)), file_data@),
        ),
        base64_decoded(base64_encoded(file_data@)) == Some(file_data@),
{
    let data_base64 = base64_encode(file_data);
    remove_art(art, &element_id);
    let ghost before = art@;
    let mime_type = match mime_type {
        Some(m) => m,
        None => String::from_str("image/jpeg"),
    };
    let a = ChapterArt { element_id, mime_type, description: String::new(), data_base64 };
    art.push(a);
    assert(arts_view(art@) =~= arts_view(before).push(a@));
}

/// The source for playing MP3 data in the page: a `data:` URL of type
/// `audio/mpeg` that holds the data in base64.
pub open spec fn audio_source_spec(data: Seq<u8>) -> Seq<char> {
    "data:audio/mpeg;base64,"@ + base64_encoded(data)
}

/// The source for playing MP3 data in the page: a `data:` URL of type
/// `audio/mpeg` that holds the data in base64.
pub fn audio_source(data: &[u8]) -> (res: String)
    requires
        base64_encodable(data@.len()),
    ensures
        res@ == audio_source_spec(data@),
{
    let mut s = String::from_str("data:audio/mpeg;base64,");
    let encoded = base64_encode(data);
    s.append(encoded.as_str());
    s
}

/// The first art of the chapter `id`, in base64.
pub open spec fn first_art_of(arts: Seq<ChapterArtView>, id: Seq<char>) -> Option<Seq<char>>
    decreases arts.len(),
{
    if arts.len() == 0 {
        None
    } else if arts[0].element_id == id {
        Some(arts[0].data_base64)
    } else {
        first_art_of(arts.drop_first(), id)
    }
}

/// The image shown for a chapter, in base64: the chapter's own picture when it has
/// one, else the first art attached to it.
pub open spec fn shown_art_spec(c: ChapterInfoView, arts: Seq<ChapterArtView>) -> Option<Seq<char>> {
    match c.picture_data_base64 {
        Some(p) => Some(p),
        None => first_art_of(arts, c.element_id),
    }
}

/// The image shown for a chapter, in base64: the chapter's own picture when it has
/// one, else the first art attached to it; `None` when there is neither.
pub fn shown_art(chapter: &ChapterInfo, art: &Vec<ChapterArt>) -> (res: Option<String>)
    ensures
        crate::model::opt_string_view(res) == shown_art_spec(chapter@, arts_view(art@)),
{
    if let Some(p) = &chapter.picture_data_base64 {
        return Some(p.clone());
    }
    let ghost arts = arts_view(art@);
    let mut i: usize = 0;
    assert(arts.skip(0) =~= arts);
    while i < art.len()
        invariant
            arts == arts_view(art@),
            i <= art.len(),
            chapter.picture_data_base64 is None,
            first_art_of(arts, chapter.element_id@) == first_art_of(arts.skip(i as int), chapter.element_id@),
        decreases art.len() - i,
    {
        assert(arts.skip(i as int)[0] == art@[i as int]@);
        assert(arts.skip(i as int).drop_first() =~= arts.skip(i + 1));
        if art[i].element_id == chapter.element_id {
            return Some(art[i].data_base64.clone());
        }
        i = i + 1;
    }
    assert(arts.skip(i as int) =~= Seq::<ChapterArtView>::empty());
    None
}

} // verus!
