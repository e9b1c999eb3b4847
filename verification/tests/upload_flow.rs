use bandcomic_helper::ui::event_handler::{
    add_chapter_file, add_picked_file, handle_add_chapter, handle_chapter_del_file,
    handle_chapter_move_file, handle_upload_clear, handle_upload_delete, handle_upload_move,
    set_upload_cover,
};
use bandcomic_helper::ui::state::{ChapterItem, StatusState, UiState, UploadFile, UploadItem, UploadMode, WatchSettings};
use bandcomic_helper::ui::upload::{
    handle_upload_ack_timeout, handle_upload_header_timeout, next_chunk, on_chunk_ack,
    on_header_ack, sending_text, start_upload_session, AckTimeout, ChunkStep, HeaderTimeout,
};
use bandcomic_helper::ui::upload_plan::{
    chapter_upload_target, encode_files, plan_chapter_upload, plan_upload, send_encoding,
    upload_precheck, ChapterTarget, FileSource, HeaderLayout, SendFormat,
};

fn file(name: &str) -> UploadFile {
    UploadFile { name: name.to_string(), data: vec![1, 2, 3], size: 3, original_size: 9, thumbnail: vec![] }
}

fn item(name: &str, cover: bool, pages: &[&str]) -> UploadItem {
    UploadItem {
        comic_name: name.to_string(),
        cover: if cover { Some(file("c.png")) } else { None },
        files: pages.iter().map(|p| file(p)).collect(),
    }
}

fn chapter(name: &str, pages: &[&str]) -> ChapterItem {
    ChapterItem { name: name.to_string(), files: pages.iter().map(|p| file(p)).collect() }
}

#[test]
fn picked_file_starts_or_joins_a_comic() {
    let mut s = UiState::new();
    add_picked_file(&mut s, file("One.Piece.01.jpg"));
    assert_eq!(s.upload_comic_name_input, "01");
    assert_eq!(s.upload_items.len(), 1);
    assert_eq!(s.upload_items[0].comic_name, "01");
    assert_eq!(s.upload_items[0].cover.as_ref().map(|c| c.name.clone()), Some("One.Piece.01.jpg".to_string()));
    add_picked_file(&mut s, file("p2.jpg"));
    assert_eq!(s.upload_items.len(), 1);
    assert_eq!(s.upload_items[0].files.len(), 1);
}

#[test]
fn multi_mode_skips_duplicate_page_names() {
    let mut s = UiState::new();
    s.upload_mode = UploadMode::Multi;
    add_picked_file(&mut s, file("a.png"));
    add_picked_file(&mut s, file("a.png"));
    assert_eq!(s.upload_chapters.len(), 1);
    assert_eq!(s.upload_chapters[0].files.len(), 1);
    add_chapter_file(&mut s, 0, file("b.png"));
    add_chapter_file(&mut s, 5, file("c.png"));
    assert_eq!(s.upload_chapters[0].files.len(), 2);
}

#[test]
fn list_edits() {
    let mut s = UiState::new();
    s.upload_items = vec![item("A", true, &[]), item("B", true, &[]), item("C", true, &[])];
    assert!(handle_upload_move(&mut s, 0, 1));
    assert_eq!(s.upload_items[0].comic_name, "B");
    assert_eq!(s.upload_items[1].comic_name, "A");
    assert!(!handle_upload_move(&mut s, 0, -1));
    assert!(!handle_upload_move(&mut s, 2, 1));
    assert!(handle_upload_delete(&mut s, 1));
    assert!(!handle_upload_delete(&mut s, 9));
    assert_eq!(s.upload_items.len(), 2);
    set_upload_cover(&mut s, file("new.png"));
    assert_eq!(s.upload_items[0].cover.as_ref().map(|c| c.name.clone()), Some("new.png".to_string()));
    handle_add_chapter(&mut s);
    assert_eq!(s.upload_chapters.len(), 1);
    handle_upload_clear(&mut s);
    assert!(s.upload_items.is_empty() && s.upload_chapters.is_empty());
}

#[test]
fn chapter_page_edits() {
    let mut s = UiState::new();
    s.upload_chapters = vec![chapter("x", &["1", "2", "3"])];
    assert!(handle_chapter_move_file(&mut s, 0, 2, -1));
    let names: Vec<String> = s.upload_chapters[0].files.iter().map(|f| f.name.clone()).collect();
    assert_eq!(names, vec!["1", "3", "2"]);
    assert!(!handle_chapter_move_file(&mut s, 1, 0, 1));
    assert!(handle_chapter_del_file(&mut s, 0, 0));
    assert!(!handle_chapter_del_file(&mut s, 0, 7));
    assert_eq!(s.upload_chapters[0].files.len(), 2);
}

#[test]
fn precheck_messages() {
    let mut s = UiState::new();
    assert_eq!(upload_precheck(&s), Some("请先选择漫画文件。".to_string()));
    s.upload_items.push(item("A", true, &[]));
    assert_eq!(upload_precheck(&s), None);
    s.upload_mode = UploadMode::Multi;
    assert_eq!(upload_precheck(&s), Some("请先添加章节。".to_string()));
    s.upload_chapters.push(chapter("", &[]));
    assert_eq!(upload_precheck(&s), Some("所有章节都没有图片，请先添加图片。".to_string()));
    s.upload_chapters.push(chapter("", &["p"]));
    assert_eq!(upload_precheck(&s), None);
}

#[test]
fn single_plan_names_and_progress() {
    let mut s = UiState::new();
    s.upload_items = vec![item("Book", true, &["a", "b"])];
    let plan = plan_upload(&s, false);
    assert_eq!(plan.header.name, "Book");
    let keys: Vec<&str> = plan.files.iter().map(|f| f.key.as_str()).collect();
    assert_eq!(keys, vec!["cover", "1", "2"]);
    assert_eq!(plan.files[0].progress, "正在处理 封面 (1/-)");
    assert_eq!(plan.files[2].progress, "正在处理 (3/-)");
    assert_eq!(plan.files[1].source, FileSource::ItemPage(0, 0));
    assert!(!plan.files[0].source.is_page());
    match &plan.header.layout {
        HeaderLayout::Single { files } => assert_eq!(files, &vec!["cover", "1", "2"]),
        _ => panic!("single layout expected"),
    }
    let plan = plan_upload(&s, true);
    assert_eq!(plan.files[1].key, "1.bin");
}

#[test]
fn name_field_wins_over_item_name() {
    let mut s = UiState::new();
    s.upload_items = vec![item("Book", false, &["a"])];
    s.upload_comic_name_input = "  Mine ".to_string();
    assert_eq!(plan_upload(&s, false).header.name, "Mine");
}

#[test]
fn multi_plan_folders_and_chapters() {
    let mut s = UiState::new();
    s.upload_mode = UploadMode::Multi;
    s.multi_cover = Some(file("cover.png"));
    s.upload_chapters = vec![chapter("", &["p", "q"]), chapter(" skip ", &[]), chapter(" B ", &["r"])];
    let plan = plan_upload(&s, false);
    let keys: Vec<&str> = plan.files.iter().map(|f| f.key.as_str()).collect();
    assert_eq!(keys, vec!["cover", "1　第1章/1", "1　第1章/2", "3　B/1"]);
    assert_eq!(plan.files[0].progress, "正在处理 封面");
    assert_eq!(plan.files[3].progress, "正在处理 章节3 (1/1)");
    assert_eq!(plan.files[2].progress, "正在处理 章节1 (2/2)");
    match &plan.header.layout {
        HeaderLayout::Multi { chapters } => {
            assert_eq!(chapters.len(), 2);
            assert_eq!(chapters[0].0, "第1章");
            assert_eq!(chapters[0].1, vec!["1", "2"]);
            assert_eq!(chapters[1].0, " B ");
            assert_eq!(chapters[1].1, vec!["1"]);
        }
        _ => panic!("multi layout expected"),
    }
}

#[test]
fn chapter_upload_on_its_own() {
    let mut s = UiState::new();
    s.upload_chapters = vec![chapter("", &[]), chapter("Two", &["x", "y"])];
    assert!(matches!(chapter_upload_target(&s, 5), ChapterTarget::Missing));
    assert!(matches!(chapter_upload_target(&s, 0), ChapterTarget::Empty(ref m) if m == "该章节没有图片。"));
    match chapter_upload_target(&s, 1) {
        ChapterTarget::Ready { comic_name } => assert_eq!(comic_name, "本地漫画 - Two"),
        _ => panic!("ready expected"),
    }
    s.upload_chapters[1].name = " ".to_string();
    s.upload_comic_name_input = "Saga".to_string();
    match chapter_upload_target(&s, 1) {
        ChapterTarget::Ready { comic_name } => assert_eq!(comic_name, "Saga - 第2章"),
        _ => panic!("ready expected"),
    }
    let plan = plan_chapter_upload("Saga - 第2章".to_string(), &s.upload_chapters[1].files, true);
    assert_eq!(plan.files[0].key, "1.bin");
    assert_eq!(plan.files[1].progress, "正在处理 2/2");
    match &plan.header.layout {
        HeaderLayout::Serial { files, page_count } => {
            assert_eq!(files, &vec!["1.bin", "2.bin"]);
            assert_eq!(*page_count, 2);
        }
        _ => panic!("serial layout expected"),
    }
}

#[test]
fn encodings_follow_settings() {
    let d = WatchSettings::default();
    assert_eq!(send_encoding(&d, true), (600, SendFormat::Jpeg(50)));
    let mut w = d;
    w.image_size = 40;
    w.image_quality = 0;
    assert_eq!(send_encoding(&w, true), (100, SendFormat::Jpeg(1)));
    w.image_size = 9000;
    w.image_quality = 300;
    w.image_use_png = true;
    assert_eq!(send_encoding(&w, false), (4096, SendFormat::Png));
    w.image_pre_transcode = true;
    assert_eq!(send_encoding(&w, true).1, SendFormat::Lvgl);
    assert_eq!(send_encoding(&w, false).1, SendFormat::Png);
}

fn session_state() -> UiState {
    let mut s = UiState::new();
    let files = vec![
        ("1".to_string(), vec!["a".to_string(), "b".to_string()]),
        ("2".to_string(), vec![]),
        ("3".to_string(), vec!["c".to_string()]),
    ];
    start_upload_session(&mut s, "dev".to_string(), "Book".to_string(), files, "{hdr}".to_string());
    s
}

#[test]
fn chunks_go_out_in_order_one_at_a_time() {
    let mut s = session_state();
    assert_eq!(s.upload_current_file, "1");
    assert!(on_header_ack(&mut s, "Book"));
    assert!(!on_header_ack(&mut s, "Book"));
    let mut sent = Vec::new();
    loop {
        match next_chunk(&mut s) {
            ChunkStep::Send { file_key, index, total, data, .. } => {
                assert!(!on_chunk_ack(&mut s, "Book", &file_key, index + 1));
                assert!(on_chunk_ack(&mut s, "Book", &file_key, index));
                sent.push((file_key, index, total, data));
            }
            ChunkStep::Finished { comic_name, status, .. } => {
                assert_eq!(comic_name, "Book");
                assert!(status.arm_hide_timer);
                assert!(matches!(&s.upload_status, StatusState::Success(m) if m == "上传完成！"));
                break;
            }
            ChunkStep::Idle => panic!("session vanished"),
        }
    }
    assert_eq!(
        sent,
        vec![
            ("1".to_string(), 0, 2, "a".to_string()),
            ("1".to_string(), 1, 2, "b".to_string()),
            ("3".to_string(), 0, 1, "c".to_string()),
        ]
    );
    assert!(s.upload_session.is_none());
    assert!(matches!(next_chunk(&mut s), ChunkStep::Idle));
}

#[test]
fn lost_acks_retry_then_abort() {
    let mut s = session_state();
    next_chunk(&mut s);
    for _ in 0..5 {
        match handle_upload_ack_timeout(&mut s) {
            AckTimeout::Resend { index, data, .. } => {
                assert_eq!(index, 0);
                assert_eq!(data, "a");
            }
            _ => panic!("resend expected"),
        }
    }
    assert!(matches!(handle_upload_ack_timeout(&mut s), AckTimeout::Abort(_)));
    assert!(s.upload_session.is_none());
    assert!(matches!(&s.upload_status, StatusState::Error(m) if m == "发送中断，请重试。"));
    assert!(matches!(handle_upload_ack_timeout(&mut s), AckTimeout::Nothing));
}

#[test]
fn unconfirmed_header_falls_back() {
    let mut s = session_state();
    for _ in 0..3 {
        match handle_upload_header_timeout(&mut s) {
            HeaderTimeout::Resend { header, .. } => assert_eq!(header, "{hdr}"),
            _ => panic!("resend expected"),
        }
    }
    assert!(matches!(handle_upload_header_timeout(&mut s), HeaderTimeout::LegacyStart));
    assert!(matches!(handle_upload_header_timeout(&mut s), HeaderTimeout::Nothing));
}

#[test]
fn files_are_encoded_and_chunked() {
    let mut s = UiState::new();
    s.upload_items = vec![item("Book", false, &["a", "b"])];
    let plan = plan_upload(&s, false);
    let prepared = vec![b"Man".to_vec(), vec![0u8; 4200]];
    let out = encode_files(&plan.files, &prepared);
    assert_eq!(out.len(), 2);
    assert_eq!(out[0], ("1".to_string(), vec!["TWFu".to_string()]));
    assert_eq!(out[1].0, "2");
    assert_eq!(out[1].1.len(), 2);
    assert_eq!(out[1].1[0].len(), 5500);
    assert_eq!(out[1].1[1].len(), 5600 - 5500);
}

#[test]
fn sending_line_counts_files() {
    let mut s = session_state();
    assert_eq!(sending_text(&s), Some("正在发送 1/3".to_string()));
    on_header_ack(&mut s, "Book");
    next_chunk(&mut s);
    assert_eq!(sending_text(&s), Some("正在发送 1/3".to_string()));
    assert_eq!(sending_text(&UiState::new()), None);
}
