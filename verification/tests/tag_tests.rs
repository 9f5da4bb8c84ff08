use base64::Engine;
use id3::frame::{Chapter, Comment, Content, Frame, Picture, PictureType};
use id3::{Tag, TagLike, Version};
use mp3_tag_editor::editor::{add_chapter_art, new_tag_from_info};
use mp3_tag_editor::load::{parse_mp3_data, pictures_fit, tag_contents};
use mp3_tag_editor::model::{ChapterArt, ChapterInfo, NewTag};
use mp3_tag_editor::save::build_tag;

fn picture(mime: &str, desc: &str, kind: PictureType, data: &[u8]) -> Frame {
    Frame::with_content(
        "APIC",
        Content::Picture(Picture {
            mime_type: mime.to_string(),
            picture_type: kind,
            description: desc.to_string(),
            data: data.to_vec(),
        }),
    )
}

fn sample_tag() -> Tag {
    let mut tag = Tag::new();
    tag.add_frame(Frame::text("TIT2", "Song"));
    tag.add_frame(Frame::text("TPE1", "Artist"));
    tag.add_frame(Frame::text("TALB", "Album"));
    tag.add_frame(Frame::text("TYER", "02024"));
    tag.add_frame(Frame::text("TCON", "(13)"));
    tag.add_frame(Frame::text("TRCK", "3/10"));
    tag.add_frame(Frame::text("TPOS", "2"));
    tag.add_frame(Frame::text("TCOM", "Composer"));
    tag.add_frame(Frame::with_content(
        "COMM",
        Content::Comment(Comment {
            lang: "eng".to_string(),
            description: String::new(),
            text: "Nice".to_string(),
        }),
    ));
    tag.add_frame(picture("image/png", "cover", PictureType::CoverFront, &[1, 2, 3]));
    let mut chapter = Chapter {
        element_id: "ch1".to_string(),
        start_time: 0,
        end_time: 60000,
        start_offset: 0xFFFF_FFFF,
        end_offset: 0xFFFF_FFFF,
        frames: Vec::new(),
    };
    chapter.add_frame(Frame::text("TIT2", "Intro"));
    chapter.add_frame(picture("image/jpeg", "art", PictureType::Other, &[9, 8, 7]));
    tag.add_frame(chapter);
    let chapter2 = Chapter {
        element_id: "ch2".to_string(),
        start_time: 60000,
        end_time: 120000,
        start_offset: 10,
        end_offset: 20,
        frames: Vec::new(),
    };
    tag.add_frame(chapter2);
    tag
}

#[test]
fn tag_contents_reads_fields() {
    let tag = sample_tag();
    assert!(pictures_fit(&tag));
    let (info, _, _) = tag_contents(&tag);
    assert_eq!(info.title, "Song");
    assert_eq!(info.artist, "Artist");
    assert_eq!(info.album, "Album");
    assert_eq!(info.year, "2024");
    assert_eq!(info.genre, "Pop");
    assert_eq!(info.track, "3");
    assert_eq!(info.disc, "2");
    assert_eq!(info.composer, "Composer");
    assert_eq!(info.comment, "Nice");
}

#[test]
fn tag_contents_reads_pictures() {
    let (info, _, _) = tag_contents(&sample_tag());
    assert_eq!(info.pictures.len(), 1);
    assert_eq!(info.pictures[0].picture_type, "CoverFront");
    assert_eq!(info.pictures[0].mime_type, "image/png");
    assert_eq!(info.pictures[0].description, "cover");
    assert_eq!(info.pictures[0].data_base64, "AQID");
}

#[test]
fn tag_contents_reads_chapters_and_art() {
    let (_, chapters, art) = tag_contents(&sample_tag());
    assert_eq!(chapters.len(), 2);
    assert_eq!(chapters[0].element_id, "ch1");
    assert_eq!(chapters[0].title, "Intro");
    assert_eq!(chapters[0].start_time, 0);
    assert_eq!(chapters[0].end_time, 60000);
    assert_eq!(chapters[0].start_offset, 0xFFFF_FFFF);
    assert_eq!(chapters[0].picture_data_base64.as_deref(), Some("CQgH"));
    assert_eq!(chapters[1].element_id, "ch2");
    assert_eq!(chapters[1].title, "");
    assert_eq!(chapters[1].start_offset, 10);
    assert_eq!(chapters[1].end_offset, 20);
    assert!(chapters[1].picture_data_base64.is_none());
    assert_eq!(art.len(), 1);
    assert_eq!(art[0].element_id, "ch1");
    assert_eq!(art[0].mime_type, "image/jpeg");
    assert_eq!(art[0].description, "art");
    assert_eq!(art[0].data_base64, "CQgH");
}

#[test]
fn empty_tag_gives_empty_fields() {
    let (info, chapters, art) = tag_contents(&Tag::new());
    assert_eq!(info.title, "");
    assert_eq!(info.year, "");
    assert_eq!(info.genre, "");
    assert_eq!(info.track, "");
    assert_eq!(info.composer, "");
    assert_eq!(info.comment, "");
    assert!(info.pictures.is_empty());
    assert!(chapters.is_empty());
    assert!(art.is_empty());
}

#[test]
fn unparsable_numbers_give_empty_fields() {
    let mut tag = Tag::new();
    tag.add_frame(Frame::text("TYER", "nope"));
    tag.add_frame(Frame::text("TRCK", "x/3"));
    tag.add_frame(Frame::text("TPOS", "0000"));
    let (info, _, _) = tag_contents(&tag);
    assert_eq!(info.year, "");
    assert_eq!(info.track, "");
    assert_eq!(info.disc, "0");
}

#[test]
fn parse_mp3_data_reads_written_tag() {
    let mut bytes = Vec::new();
    sample_tag().write_to(&mut bytes, Version::Id3v24).unwrap();
    let (info, chapters, art) = parse_mp3_data(&bytes).unwrap();
    assert_eq!(info.title, "Song");
    assert_eq!(info.comment, "Nice");
    assert_eq!(chapters.len(), 2);
    assert_eq!(chapters[0].title, "Intro");
    assert_eq!(art.len(), 1);
}

#[test]
fn parse_mp3_data_fails_on_garbage() {
    let bytes: &[u8] = b"not an mp3 file at all";
    let err = parse_mp3_data(bytes).unwrap_err();
    let id3_err = Tag::read_from2(std::io::Cursor::new(bytes)).unwrap_err();
    assert_eq!(err, format!("Failed to read tag: {}", id3_err));
}

fn form(title: &str, year: &str, genre: &str, track: &str, comment: &str) -> NewTag {
    NewTag {
        title: title.to_string(),
        artist: "A".to_string(),
        album: String::new(),
        year: year.to_string(),
        genre: genre.to_string(),
        track: track.to_string(),
        disc: String::new(),
        composer: "C".to_string(),
        comment: comment.to_string(),
    }
}

fn chapter(id: &str, title: &str, start: u32, end: u32) -> ChapterInfo {
    ChapterInfo {
        element_id: id.to_string(),
        title: title.to_string(),
        start_time: start,
        end_time: end,
        start_offset: 0xFFFF_FFFF,
        end_offset: 0xFFFF_FFFF,
        picture_data_base64: None,
    }
}

fn art(id: &str, data_base64: &str) -> ChapterArt {
    ChapterArt {
        element_id: id.to_string(),
        mime_type: "image/jpeg".to_string(),
        description: String::new(),
        data_base64: data_base64.to_string(),
    }
}

#[test]
fn build_tag_writes_non_empty_fields_only() {
    let tag = build_tag(&form("T", "", "", "", ""), &Vec::new(), &Vec::new());
    let ids: Vec<&str> = tag.frames().map(|f| f.id()).collect();
    assert_eq!(ids, vec!["TIT2", "TPE1", "TCOM"]);
    assert_eq!(tag.title(), Some("T"));
}

#[test]
fn build_tag_writes_english_comment() {
    let tag = build_tag(&form("", "", "", "", "hello"), &Vec::new(), &Vec::new());
    let c = tag.comments().next().unwrap();
    assert_eq!(c.lang, "eng");
    assert_eq!(c.description, "");
    assert_eq!(c.text, "hello");
}

#[test]
fn build_tag_writes_chapters_with_title_and_art() {
    let chapters = vec![chapter("a", "First", 0, 1000), chapter("b", "", 1000, 2000)];
    let arts = vec![art("a", "AQID"), art("b", "!!bad!!"), art("a", "BAUG")];
    let tag = build_tag(&NewTag::default(), &chapters, &arts);
    let chs: Vec<&Chapter> = tag.chapters().collect();
    assert_eq!(chs.len(), 2);
    assert_eq!(chs[0].element_id, "a");
    assert_eq!(chs[0].frames.len(), 2);
    assert_eq!(chs[0].frames[0].content().text(), Some("First"));
    let pic = chs[0].frames[1].content().picture().unwrap();
    assert_eq!(pic.data, vec![4, 5, 6]);
    assert_eq!(pic.picture_type, PictureType::Other);
    assert_eq!(chs[1].element_id, "b");
    assert!(chs[1].frames.is_empty());
}

#[test]
fn build_tag_later_chapter_replaces_same_id() {
    let chapters = vec![chapter("a", "One", 0, 1), chapter("b", "Two", 1, 2), chapter("a", "Three", 2, 3)];
    let tag = build_tag(&NewTag::default(), &chapters, &Vec::new());
    let chs: Vec<&Chapter> = tag.chapters().collect();
    assert_eq!(chs.len(), 2);
    assert_eq!(chs[0].element_id, "b");
    assert_eq!(chs[1].element_id, "a");
    assert_eq!(chs[1].start_time, 2);
}

#[test]
fn saved_fields_read_back_scenario() {
    let t = form("Title", "02024", "(13)", "3/10", "words");
    let tag = build_tag(&t, &Vec::new(), &Vec::new());
    let (info, chapters, _) = tag_contents(&tag);
    assert_eq!(info.title, "Title");
    assert_eq!(info.artist, "A");
    assert_eq!(info.album, "");
    assert_eq!(info.year, "2024");
    assert_eq!(info.genre, "Pop");
    assert_eq!(info.track, "3");
    assert_eq!(info.composer, "C");
    assert_eq!(info.comment, "words");
    assert!(info.pictures.is_empty());
    assert!(chapters.is_empty());
}

#[test]
fn saved_chapters_read_back_scenario() {
    let chapters = vec![chapter("a", "First", 0, 1000), chapter("b", "Second", 1000, 2000)];
    let mut arts = Vec::new();
    add_chapter_art(&mut arts, "b".to_string(), Some("image/gif".to_string()), &[1, 2]);
    add_chapter_art(&mut arts, "a".to_string(), None, &[7]);
    add_chapter_art(&mut arts, "b".to_string(), Some("image/png".to_string()), &[3, 4, 5]);
    let tag = build_tag(&NewTag::default(), &chapters, &arts);
    let mut bytes = Vec::new();
    tag.write_to(&mut bytes, Version::Id3v24).unwrap();
    let (_, loaded, loaded_art) = parse_mp3_data(&bytes).unwrap();
    assert_eq!(loaded.len(), 2);
    assert_eq!(loaded[0].element_id, "a");
    assert_eq!(loaded[0].title, "First");
    assert_eq!(loaded[0].end_time, 1000);
    assert_eq!(loaded[0].picture_data_base64.as_deref(), Some("Bw=="));
    assert_eq!(loaded[1].picture_data_base64.as_deref(), Some("AwQF"));
    assert_eq!(loaded_art.len(), 2);
    assert_eq!(loaded_art[0].element_id, "a");
    assert_eq!(loaded_art[1].data_base64, "AwQF");
    assert_eq!(loaded_art[0].mime_type, "image/jpeg");
    assert_eq!(loaded_art[1].mime_type, "image/png");
}

#[test]
fn loaded_fields_fill_the_form() {
    let (info, _, _) = tag_contents(&sample_tag());
    let form = new_tag_from_info(info);
    assert_eq!(form.title, "Song");
    assert_eq!(form.genre, "Pop");
    assert_eq!(form.comment, "Nice");
}

#[test]
fn picture_base64_decodes_back() {
    let (info, _, art) = tag_contents(&sample_tag());
    let engine = base64::engine::general_purpose::STANDARD;
    assert_eq!(engine.decode(&info.pictures[0].data_base64).unwrap(), vec![1, 2, 3]);
    assert_eq!(engine.decode(&art[0].data_base64).unwrap(), vec![9, 8, 7]);
}

#[test]
fn base64_text_matches_the_engine() {
    let engine = base64::engine::general_purpose::STANDARD;
    let mut arts = Vec::new();
    for len in 0..40usize {
        let data: Vec<u8> = (0..len).map(|i| (i * 37 + 11) as u8).collect();
        add_chapter_art(&mut arts, "x".to_string(), None, &data);
        assert_eq!(arts[0].data_base64, engine.encode(&data));
    }
}
