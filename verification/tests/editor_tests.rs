use mp3_tag_editor::editor::{
    add_chapter, add_chapter_art, chapter_from_form, check_url, remove_chapter, save_path, shown_art,
    audio_source,
    EditError,
};
use mp3_tag_editor::model::{ChapterArt, ChapterInfo, Mp3File, NewChapter, NewTag};
use mp3_tag_editor::wave::{push_capped, MAX_PULSES, TRAIL_MAX};

fn form(id: &str, title: &str, start: &str, end: &str) -> NewChapter {
    NewChapter {
        element_id: id.to_string(),
        title: title.to_string(),
        start_time: start.to_string(),
        end_time: end.to_string(),
    }
}

fn art(id: &str, data: &str) -> ChapterArt {
    ChapterArt {
        element_id: id.to_string(),
        mime_type: "image/png".to_string(),
        description: "d".to_string(),
        data_base64: data.to_string(),
    }
}

#[test]
fn chapter_from_form_parses_times() {
    let c = chapter_from_form(&form("chap1", "Intro", "1500", "+60000")).ok().unwrap();
    assert_eq!(c.element_id, "chap1");
    assert_eq!(c.title, "Intro");
    assert_eq!(c.start_time, 1500);
    assert_eq!(c.end_time, 60000);
    assert_eq!(c.start_offset, 0xFFFF_FFFF);
    assert_eq!(c.end_offset, 0xFFFF_FFFF);
    assert!(c.picture_data_base64.is_none());
}

#[test]
fn chapter_from_form_unparsable_times_are_zero() {
    let c = chapter_from_form(&form("c", "", "abc", "-5")).ok().unwrap();
    assert_eq!(c.start_time, 0);
    assert_eq!(c.end_time, 0);
    let c = chapter_from_form(&form("c", "", "", "4294967296")).ok().unwrap();
    assert_eq!(c.start_time, 0);
    assert_eq!(c.end_time, 0);
}

#[test]
fn chapter_needs_element_id() {
    assert!(matches!(chapter_from_form(&form("", "t", "1", "2")), Err(EditError::MissingElementId)));
    let mut chapters: Vec<ChapterInfo> = Vec::new();
    assert!(add_chapter(&mut chapters, &form("", "t", "1", "2")).is_err());
    assert!(chapters.is_empty());
    assert_eq!(EditError::MissingElementId.message(), "Chapter element ID is required");
}

#[test]
fn add_chapter_appends() {
    let mut chapters: Vec<ChapterInfo> = Vec::new();
    assert!(add_chapter(&mut chapters, &form("a", "A", "0", "10")).is_ok());
    assert!(add_chapter(&mut chapters, &form("b", "B", "10", "20")).is_ok());
    assert_eq!(chapters.len(), 2);
    assert_eq!(chapters[1].element_id, "b");
    assert_eq!(chapters[1].start_time, 10);
}

#[test]
fn remove_chapter_removes_chapter_and_art() {
    let mut chapters: Vec<ChapterInfo> = Vec::new();
    add_chapter(&mut chapters, &form("a", "", "0", "1")).ok().unwrap();
    add_chapter(&mut chapters, &form("b", "", "1", "2")).ok().unwrap();
    add_chapter(&mut chapters, &form("a", "", "2", "3")).ok().unwrap();
    let mut arts = vec![art("a", "AA=="), art("b", "Ag=="), art("a", "Aw==")];
    remove_chapter(&mut chapters, &mut arts, &"a".to_string());
    assert_eq!(chapters.len(), 1);
    assert_eq!(chapters[0].element_id, "b");
    assert_eq!(arts.len(), 1);
    assert_eq!(arts[0].data_base64, "Ag==");
}

#[test]
fn remove_missing_chapter_changes_nothing() {
    let mut chapters: Vec<ChapterInfo> = Vec::new();
    add_chapter(&mut chapters, &form("a", "", "0", "1")).ok().unwrap();
    let mut arts = vec![art("a", "AA==")];
    remove_chapter(&mut chapters, &mut arts, &"z".to_string());
    assert_eq!(chapters.len(), 1);
    assert_eq!(arts.len(), 1);
}

#[test]
fn add_chapter_art_replaces_previous_art() {
    let mut arts = vec![art("a", "AA=="), art("b", "Ag==")];
    add_chapter_art(&mut arts, "a".to_string(), None, b"hello");
    assert_eq!(arts.len(), 2);
    assert_eq!(arts[0].element_id, "b");
    assert_eq!(arts[1].element_id, "a");
    assert_eq!(arts[1].mime_type, "image/jpeg");
    assert_eq!(arts[1].description, "");
    assert_eq!(arts[1].data_base64, "aGVsbG8=");
}

#[test]
fn add_chapter_art_empty_file() {
    let mut arts = Vec::new();
    add_chapter_art(&mut arts, "x".to_string(), Some("image/png".to_string()), &[]);
    assert_eq!(arts.len(), 1);
    assert_eq!(arts[0].data_base64, "");
    assert_eq!(arts[0].mime_type, "image/png");
}

#[test]
fn add_chapter_art_keeps_the_mime_type() {
    let mut arts = Vec::new();
    for mime in ["image/png", "image/gif", "image/webp", "image/jpeg"] {
        add_chapter_art(&mut arts, "c".to_string(), Some(mime.to_string()), &[1, 2, 3]);
        assert_eq!(arts.len(), 1);
        assert_eq!(arts[0].mime_type, mime);
        assert_eq!(arts[0].data_base64, "AQID");
    }
}

#[test]
fn audio_source_is_a_data_url() {
    assert_eq!(audio_source(b"ID3"), "data:audio/mpeg;base64,SUQz");
    assert_eq!(audio_source(&[]), "data:audio/mpeg;base64,");
}

#[test]
fn save_path_for_local_and_url_files() {
    let local = Some(Mp3File { path: "song.mp3".to_string(), is_url: false, data: vec![] });
    assert_eq!(save_path(&local).ok().unwrap(), "song.mp3");
    let remote = Some(Mp3File { path: "https://example.com/a.mp3".to_string(), is_url: true, data: vec![1] });
    assert_eq!(save_path(&remote).ok().unwrap(), "downloaded.mp3");
    let none: Option<Mp3File> = None;
    assert!(matches!(save_path(&none), Err(EditError::NoFileLoaded)));
    assert_eq!(EditError::NoFileLoaded.message(), "No file loaded");
}

#[test]
fn url_must_not_be_empty() {
    assert!(matches!(check_url(&String::new()), Err(EditError::EmptyUrl)));
    assert!(check_url(&"https://example.com/a.mp3".to_string()).is_ok());
    assert_eq!(EditError::EmptyUrl.message(), "Please enter a URL");
}

#[test]
fn forms_start_empty() {
    let t = NewTag::default();
    assert!(t.title.is_empty() && t.artist.is_empty() && t.comment.is_empty());
    let c = NewChapter::default();
    assert!(c.element_id.is_empty() && c.start_time.is_empty());
}

#[test]
fn pulses_keep_the_last_ten() {
    let mut q: Vec<u32> = Vec::new();
    for i in 0..15u32 {
        push_capped(&mut q, i, MAX_PULSES);
        assert!(q.len() <= MAX_PULSES);
    }
    assert_eq!(q, (5..15).collect::<Vec<u32>>());
}

#[test]
fn trail_keeps_the_last_sixteen() {
    let mut q: Vec<u32> = Vec::new();
    for i in 0..20u32 {
        push_capped(&mut q, i, TRAIL_MAX);
    }
    assert_eq!(q.len(), 16);
    assert_eq!(q[0], 4);
    assert_eq!(*q.last().unwrap(), 19);
}

fn chapter_with(id: &str, picture: Option<&str>) -> ChapterInfo {
    ChapterInfo {
        element_id: id.to_string(),
        title: String::new(),
        start_time: 0,
        end_time: 0,
        start_offset: 0xFFFF_FFFF,
        end_offset: 0xFFFF_FFFF,
        picture_data_base64: picture.map(|p| p.to_string()),
    }
}

#[test]
fn shown_art_prefers_the_chapter_picture() {
    let arts = vec![art("a", "QQ==")];
    assert_eq!(shown_art(&chapter_with("a", Some("Zg==")), &arts).as_deref(), Some("Zg=="));
}

#[test]
fn shown_art_falls_back_to_first_attached_art() {
    let arts = vec![art("b", "Yg=="), art("a", "QQ=="), art("a", "Qg==")];
    assert_eq!(shown_art(&chapter_with("a", None), &arts).as_deref(), Some("QQ=="));
    assert!(shown_art(&chapter_with("z", None), &arts).is_none());
}
