//! The editor's data: a loaded file, the tag fields read from it, its chapters and
//! their art, and the forms in which a tag and a new chapter are edited.

use vstd::prelude::*;

verus! {

/// An MP3 file held in memory, loaded from a local path or from a URL.
#[derive(Debug, Clone)]
pub struct Mp3File {
    pub path: String,
    pub is_url: bool,
    pub data: Vec<u8>,
}

/// The tag fields shown to the user, as text.
#[derive(Debug, Clone)]
pub struct TagInfo {
    pub title: String,
    pub artist: String,
    pub album: String,
    pub year: String,
    pub genre: String,
    pub track: String,
    pub disc: String,
    pub composer: String,
    pub comment: String,
    pub pictures: Vec<PictureInfo>,
}

/// An attached picture, its image data in base64.
#[derive(Debug, Clone)]
pub struct PictureInfo {
    pub picture_type: String,
    pub mime_type: String,
    pub description: String,
    pub data_base64: String,
}

/// A chapter marker. Times are in milliseconds; an offset of `0xFFFFFFFF` means
/// that the chapter is placed by time alone.
#[derive(Debug, Clone)]
pub struct ChapterInfo {
    pub element_id: String,
    pub title: String,
    pub start_time: u32,
    pub end_time: u32,
    pub start_offset: u32,
    pub end_offset: u32,
    pub picture_data_base64: Option<String>,
}

/// The image attached to the chapter with the same element id, in base64.
#[derive(Debug, Clone)]
pub struct ChapterArt {
    pub element_id: String,
    pub mime_type: String,
    pub description: String,
    pub data_base64: String,
}

/// The tag fields as the user edits them.
#[derive(Debug, Clone)]
pub struct NewTag {
    pub title: String,
    pub artist: String,
    pub album: String,
    pub year: String,
    pub genre: String,
    pub track: String,
    pub disc: String,
    pub composer: String,
    pub comment: String,
}

/// A chapter as the user types it in, times as text in milliseconds.
#[derive(Debug, Clone)]
pub struct NewChapter {
    pub element_id: String,
    pub title: String,
    pub start_time: String,
    pub end_time: String,
}

pub struct PictureInfoView {
    pub picture_type: Seq<char>,
    pub mime_type: Seq<char>,
    pub description: Seq<char>,
    pub data_base64: Seq<char>,
}

pub struct TagInfoView {
    pub title: Seq<char>,
    pub artist: Seq<char>,
    pub album: Seq<char>,
    pub year: Seq<char>,
    pub genre: Seq<char>,
    pub track: Seq<char>,
    pub disc: Seq<char>,
    pub composer: Seq<char>,
    pub comment: Seq<char>,
    pub pictures: Seq<PictureInfoView>,
}

pub struct ChapterInfoView {
    pub element_id: Seq<char>,
    pub title: Seq<char>,
    pub start_time: u32,
    pub end_time: u32,
    pub start_offset: u32,
    pub end_offset: u32,
    pub picture_data_base64: Option<Seq<char>>,
}

pub struct ChapterArtView {
    pub element_id: Seq<char>,
    pub mime_type: Seq<char>,
    pub description: Seq<char>,
    pub data_base64: Seq<char>,
}

pub struct NewTagView {
    pub title: Seq<char>,
    pub artist: Seq<char>,
    pub album: Seq<char>,
    pub year: Seq<char>,
    pub genre: Seq<char>,
    pub track: Seq<char>,
    pub disc: Seq<char>,
    pub composer: Seq<char>,
    pub comment: Seq<char>,
}

pub struct NewChapterView {
    pub element_id: Seq<char>,
    pub title: Seq<char>,
    pub start_time: Seq<char>,
    pub end_time: Seq<char>,
}

impl View for PictureInfo {
    type V = PictureInfoView;

    open spec fn view(&self) -> PictureInfoView {
        PictureInfoView {
            picture_type: self.picture_type@,
            mime_type: self.mime_type@,
            description: self.description@,
            data_base64: self.data_base64@,
        }
    }
}

pub open spec fn pictures_view(v: Seq<PictureInfo>) -> Seq<PictureInfoView> {
    v.map_values(|p: PictureInfo| p@)
}

impl View for TagInfo {
    type V = TagInfoView;

    open spec fn view(&self) -> TagInfoView {
        TagInfoView {
            title: self.title@,
            artist: self.artist@,
            album: self.album@,
            year: self.year@,
            genre: self.genre@,
            track: self.track@,
            disc: self.disc@,
            composer: self.composer@,
            comment: self.comment@,
            pictures: pictures_view(self.pictures@),
        }
    }
}

pub open spec fn opt_string_view(s: Option<String>) -> Option<Seq<char>> {
    match s {
        Some(t) => Some(t@),
        None => None,
    }
}

impl View for ChapterInfo {
    type V = ChapterInfoView;

    open spec fn view(&self) -> ChapterInfoView {
        ChapterInfoView {
            element_id: self.element_id@,
            title: self.title@,
            start_time: self.start_time,
            end_time: self.end_time,
            start_offset: self.start_offset,
            end_offset: self.end_offset,
            picture_data_base64: opt_string_view(self.picture_data_base64),
        }
    }
}

pub open spec fn chapters_view(v: Seq<ChapterInfo>) -> Seq<ChapterInfoView> {
    v.map_values(|c: ChapterInfo| c@)
}

impl View for ChapterArt {
    type V = ChapterArtView;

    open spec fn view(&self) -> ChapterArtView {
        ChapterArtView {
            element_id: self.element_id@,
            mime_type: self.mime_type@,
            description: self.description@,
            data_base64: self.data_base64@,
        }
    }
}

pub open spec fn arts_view(v: Seq<ChapterArt>) -> Seq<ChapterArtView> {
    v.map_values(|a: ChapterArt| a@)
}

impl View for NewTag {
    type V = NewTagView;

    open spec fn view(&self) -> NewTagView {
        NewTagView {
            title: self.title@,
            artist: self.artist@,
            album: self.album@,
            year: self.year@,
            genre: self.genre@,
            track: self.track@,
            disc: self.disc@,
            composer: self.composer@,
            comment: self.comment@,
        }
    }
}

impl View for NewChapter {
    type V = NewChapterView;

    open spec fn view(&self) -> NewChapterView {
        NewChapterView {
            element_id: self.element_id@,
            title: self.title@,
            start_time: self.start_time@,
            end_time: self.end_time@,
        }
    }
}

impl Default for NewTag {
    /// A form with every field empty.
    fn default() -> (res: Self)
        ensures
            res.title@ == Seq::<char>::empty(),
            res.artist@ == Seq::<char>::empty(),
            res.album@ == Seq::<char>::empty(),
            res.year@ == Seq::<char>::empty(),
            res.genre@ == Seq::<char>::empty(),
            res.track@ == Seq::<char>::empty(),
            res.disc@ == Seq::<char>::empty(),
            res.composer@ == Seq::<char>::empty(),
            res.comment@ == Seq::<char>::empty(),
    {
        NewTag {
            title: String::new(),
            artist: String::new(),
            album: String::new(),
            year: String::new(),
            genre: String::new(),
            track: String::new(),
            disc: String::new(),
            composer: String::new(),
            comment: String::new(),
        }
    }
}

impl Default for NewChapter {
    /// A form with every field empty.
    fn default() -> (res: Self)
        ensures
            res.element_id@ == Seq::<char>::empty(),
            res.title@ == Seq::<char>::empty(),
            res.start_time@ == Seq::<char>::empty(),
            res.end_time@ == Seq::<char>::empty(),
    {
        NewChapter {
            element_id: String::new(),
            title: String::new(),
            start_time: String::new(),
            end_time: String::new(),
        }
    }
}

} // verus!
