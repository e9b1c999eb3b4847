use bandcomic_helper::events::{timer_event_kind, unwrap_envelope, TimerEvent};
use bandcomic_helper::lvgl::{convert_to_lvgl_i8, median_cut_quantize, widest_channel, PALETTE_SIZE};
use bandcomic_helper::ui::app_data::{show_app_data_status, show_status, show_upload_status};
use bandcomic_helper::ui::event_handler::{route_ui_event, UiCommand};
use bandcomic_helper::ui::flows::{
    apply_domain_config, begin_sync, comic_to_delete, delete_comic_dialog, handle_domain_blur,
    on_comic_deleted, record_source_name, source_to_delete, DeleteTarget, SyncStart,
};
use bandcomic_helper::ui::handshake::{
    after_register, find_watch_app, first_device, get_settings, handle_hs_pong, is_session_open,
    ping_progress_text, ping_tick, record_activity, register_progress_text, HandshakeState,
    PingOutcome, RegisterOutcome,
};
use bandcomic_helper::ui::render_card;
use bandcomic_helper::ui::state::{ComicInfo, JsonObject, JsonScalar, SourceInfo, StatusState, TabPage, UiState};

#[test]
fn routes_plain_events() {
    assert_eq!(route_ui_event("sync_button", false), UiCommand::Sync);
    assert_eq!(route_ui_event("tab_data", false), UiCommand::ShowTab(TabPage::Data));
    assert_eq!(route_ui_event("domain_input_change", true), UiCommand::DomainInput);
    assert_eq!(route_ui_event("domain_input_change", false), UiCommand::Ignored);
    assert_eq!(route_ui_event("nonsense", true), UiCommand::Ignored);
}

#[test]
fn routes_indexed_events() {
    assert_eq!(route_ui_event("upload_move_up_3", false), UiCommand::UploadMove(3, -1));
    assert_eq!(route_ui_event("upload_move_down_0", false), UiCommand::UploadMove(0, 1));
    assert_eq!(route_ui_event("upload_delete_x", false), UiCommand::Ignored);
    assert_eq!(route_ui_event("chapter_move_down_1_2", false), UiCommand::ChapterMoveFile(1, 2, 1));
    assert_eq!(route_ui_event("chapter_del_file_4_0", false), UiCommand::ChapterDelFile(4, 0));
    assert_eq!(route_ui_event("chapter_del_file_4", false), UiCommand::Ignored);
    assert_eq!(route_ui_event("chapter_name_input_2", true), UiCommand::ChapterNameInput(2));
    assert_eq!(route_ui_event("chapter_name_input_2", false), UiCommand::Ignored);
    assert_eq!(route_ui_event("delete_source_7", false), UiCommand::DeleteSource(7));
    assert_eq!(route_ui_event("chapter_upload_+1", false), UiCommand::ChapterUpload(1));
}

#[test]
fn timer_envelopes() {
    let env = JsonObject {
        entries: vec![
            ("kind".to_string(), JsonScalar::Text("timeout".to_string())),
            ("payload".to_string(), JsonScalar::Text("hide_status".to_string())),
        ],
    };
    let p = unwrap_envelope(&env, "payload", "raw");
    assert_eq!(p, "hide_status");
    assert_eq!(timer_event_kind(&p), TimerEvent::HideStatus);
    let empty = JsonObject { entries: vec![] };
    assert_eq!(unwrap_envelope(&empty, "payload", "upload_ack_timeout"), "upload_ack_timeout");
    assert_eq!(timer_event_kind("hs_ping_poll"), TimerEvent::Handshake);
    assert_eq!(timer_event_kind("hs_register_retry"), TimerEvent::Handshake);
    assert_eq!(timer_event_kind("?"), TimerEvent::Unknown);
    assert!(render_card("band-comic-data"));
    assert!(!render_card("other"));
}

#[test]
fn status_lines_arm_hide_timers_for_outcomes() {
    let mut s = UiState::new();
    s.status_timer_id = Some(4);
    let c = show_status(&mut s, StatusState::Processing("…".to_string()));
    assert_eq!(c.cancel_timer, Some(4));
    assert!(!c.arm_hide_timer);
    let c = show_upload_status(&mut s, StatusState::Error("e".to_string()));
    assert!(c.arm_hide_timer);
    let c = show_app_data_status(&mut s, StatusState::Success("s".to_string()));
    assert!(c.arm_hide_timer);
    assert_eq!(s.app_data_status, StatusState::Success("s".to_string()));
}

#[test]
fn sync_start_and_domain_config() {
    let mut s = UiState::new();
    match begin_sync(&s) {
        SyncStart::MissingDomain(m) => assert_eq!(m, "漫画源域名不能为空。"),
        _ => panic!("missing domain expected"),
    }
    assert!(handle_domain_blur(&mut s, "comic.example".to_string()));
    assert!(!handle_domain_blur(&mut s, "localhost".to_string()));
    assert!(matches!(begin_sync(&s), SyncStart::FetchSourceName));
    record_source_name(&mut s, "jm".to_string());
    match begin_sync(&s) {
        SyncStart::Ready(n) => assert_eq!(n, "jm"),
        _ => panic!("ready expected"),
    }
    let c = apply_domain_config(&mut s, Some(("mh".to_string(), None)));
    assert!(c.arm_hide_timer);
    assert_eq!(s.current_status, StatusState::Success("获取成功：mh".to_string()));
    assert_eq!(s.config.source_name, "mh");
    apply_domain_config(&mut s, None);
    assert_eq!(s.config.source_name, "");
    assert!(s.fetched_source_name.is_none());
    assert_eq!(
        s.current_status,
        StatusState::Error("无法获取漫画源配置，请检查域名是否正确。".to_string())
    );
}

#[test]
fn deleting_entries() {
    let mut s = UiState::new();
    s.app_comics = vec![
        ComicInfo { name: "A".to_string(), page_count: 1, chapters: 1, cover_base64: String::new() },
        ComicInfo { name: String::new(), page_count: 0, chapters: 0, cover_base64: String::new() },
    ];
    s.app_comic_count = Some(2);
    assert!(matches!(comic_to_delete(&s.app_comics, 0), DeleteTarget::Found(ref n) if n == "A"));
    assert!(matches!(comic_to_delete(&s.app_comics, 1), DeleteTarget::NotFound(ref m) if m == "找不到该漫画信息。"));
    assert!(matches!(source_to_delete(&Vec::<SourceInfo>::new(), 0), DeleteTarget::NotFound(ref m) if m == "找不到该漫画源信息。"));
    assert_eq!(delete_comic_dialog("A").0, "确认删除《A》");
    on_comic_deleted(&mut s, 0, "A");
    assert_eq!(s.app_comics.len(), 1);
    assert_eq!(s.app_comic_count, Some(1));
    assert_eq!(s.app_data_status, StatusState::Success("已删除: A".to_string()));
}

#[test]
fn launch_checks() {
    assert_eq!(first_device(&vec!["d1".to_string(), "d2".to_string()]), Ok("d1".to_string()));
    assert_eq!(first_device(&vec![]), Err("没有已连接的设备，请检查手表连接。".to_string()));
    let apps = vec![("x".to_string(), 9), ("moe.yzf.comic".to_string(), 300)];
    assert_eq!(find_watch_app(&apps, 259), Ok(1));
    assert_eq!(find_watch_app(&apps, 301), Err("请先安装腕上漫画快应用的新版本！".to_string()));
    assert_eq!(find_watch_app(&apps[..1].to_vec(), 0), Err("请先安装腕上漫画快应用！".to_string()));
    assert_eq!(register_progress_text(2), "等待快应用就绪 (2s)...");
    assert_eq!(ping_progress_text(1), "正在连接快应用 (1s)...");
}

#[test]
fn handshake_gives_up_registering_after_timeout() {
    let mut sessions = HandshakeState::new();
    let mut pending = None;
    bandcomic_helper::ui::handshake::begin_wait(&mut sessions, &mut pending, "d".to_string(), "ping".to_string(), 0);
    let mut retries = 0;
    loop {
        match after_register(&mut pending, false) {
            RegisterOutcome::Retry { waited_secs } => {
                retries += 1;
                assert!(waited_secs >= 1);
            }
            RegisterOutcome::Failed(m) => {
                assert_eq!(m, "无法连接快应用，请确保手表快应用已打开后重试。");
                break;
            }
            _ => panic!("unexpected outcome"),
        }
    }
    assert_eq!(retries, 17);
    assert!(pending.is_none());
    assert!(matches!(ping_tick(&mut pending), PingOutcome::NotPending));
}

#[test]
fn pinging_times_out_into_compatibility_mode() {
    let mut sessions = HandshakeState::new();
    let mut pending = None;
    bandcomic_helper::ui::handshake::begin_wait(&mut sessions, &mut pending, "d".to_string(), "ping".to_string(), 0);
    assert!(matches!(after_register(&mut pending, true), RegisterOutcome::StartPing));
    let mut pings = 0;
    loop {
        match ping_tick(&mut pending) {
            PingOutcome::Send { ping_str, .. } => {
                assert_eq!(ping_str, "ping");
                pings += 1;
            }
            PingOutcome::TimedOut => break,
            PingOutcome::NotPending => panic!("lost the handshake"),
        }
    }
    assert_eq!(pings, 20);
    assert!(pending.is_none());
}

#[test]
fn widest_channel_prefers_first_of_equals() {
    let b = vec![(0u32, [0u8, 10, 10]), (1u32, [5u8, 0, 0])];
    assert_eq!(widest_channel(&b), (1, 10));
    let flat = vec![(0u32, [3u8, 3, 3]), (1u32, [3u8, 3, 3])];
    assert_eq!(widest_channel(&flat), (0, 0));
}

#[test]
fn median_cut_splits_two_colours() {
    let (palette, indices) = median_cut_quantize(&vec![[0u8, 0, 0], [255u8, 255, 255]], 256);
    assert_eq!(palette, vec![(0, 0, 0), (255, 255, 255)]);
    assert_eq!(indices, vec![0, 1]);
    let (palette, indices) = median_cut_quantize(&vec![[10u8, 20, 30], [10u8, 20, 30]], 256);
    assert_eq!(palette, vec![(10, 20, 30)]);
    assert_eq!(indices, vec![0, 0]);
    let (palette, indices) = median_cut_quantize(&vec![], 256);
    assert_eq!(palette, vec![(0, 0, 0)]);
    assert!(indices.is_empty());
}

#[test]
fn median_cut_respects_colour_limit() {
    let pixels: Vec<[u8; 3]> = (0..8u8).map(|i| [i * 30, 0, 0]).collect();
    let (palette, indices) = median_cut_quantize(&pixels, 4);
    assert_eq!(palette.len(), 4);
    assert!(indices.iter().all(|&i| (i as usize) < palette.len()));
    // boxes of two neighbouring reds each, averaged
    assert_eq!(palette[0], (15, 0, 0));
    assert_eq!(indices[0], indices[1]);
}

#[test]
fn lvgl_layout() {
    let out = convert_to_lvgl_i8(2, 1, &vec![[0u8, 0, 0], [255u8, 255, 255]]);
    assert_eq!(out.len(), 4 + 4 * PALETTE_SIZE + 2);
    assert_eq!(&out[0..4], &[0x0A, 0x08, 0x20, 0x00]);
    assert_eq!(&out[4..8], &[0, 0, 0, 0xFF]);
    assert_eq!(&out[8..12], &[255, 255, 255, 0xFF]);
    assert_eq!(&out[12..16], &[0, 0, 0, 0xFF]);
    assert_eq!(&out[out.len() - 2..], &[0, 1]);
}

#[test]
fn registration_step_leaves_pinging_handshake_alone() {
    let mut sessions = HandshakeState::new();
    let mut pending = None;
    bandcomic_helper::ui::handshake::begin_wait(&mut sessions, &mut pending, "d".to_string(), "ping".to_string(), 0);
    assert!(matches!(after_register(&mut pending, true), RegisterOutcome::StartPing));
    assert!(matches!(after_register(&mut pending, false), RegisterOutcome::NotPending));
    assert!(matches!(ping_tick(&mut pending), PingOutcome::Send { waited_secs: 1, .. }));
}

#[test]
fn session_settings_and_keepalive() {
    let mut sessions = HandshakeState::new();
    let mut pending = None;
    assert!(get_settings(&sessions, "d", 0).is_none());
    record_activity(&mut sessions, "d", 0);
    assert!(!is_session_open(&sessions, "d", 0));
    let (settings, completed) = handle_hs_pong(&mut sessions, &mut pending, "d", None, 1_000);
    assert!(!completed);
    assert_eq!(get_settings(&sessions, "d", 1_000).map(|s| s.image_size), Some(settings.image_size));
    assert!(get_settings(&sessions, "d", 1_000 + 600_001).is_none());
    record_activity(&mut sessions, "d", 500_000);
    assert!(is_session_open(&sessions, "d", 500_000 + 600_000));
}
