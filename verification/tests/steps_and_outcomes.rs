use bandcomic_helper::network::{source_config_of_body, source_name_of_body};
use bandcomic_helper::transfer::{RecvFrontier, WindowedSender};
use bandcomic_helper::ui::app_data::{app_data_request_sent, begin_fetch_app_data, on_cover_chunk};
use bandcomic_helper::ui::event_handler::{apply_ui_event, ui_event_processor, UiCommand};
use bandcomic_helper::ui::flows::{sync_next, SyncAction, SyncEvent};
use bandcomic_helper::ui::handshake::{
    begin_wait, ping_timer_step, prepare_launch_outcome, register_timer_step, HandshakeAction, HandshakeState,
};
use bandcomic_helper::ui::state::{ComicInfo, StatusState, TabPage, UiState, UploadItem, UploadMode};
use bandcomic_helper::ui::upload::{chunk_send_failed, header_send_failed, start_upload_session};
use serde_json::Value;

fn item(name: &str) -> UploadItem {
    UploadItem { comic_name: name.to_string(), cover: None, files: vec![] }
}

#[test]
fn completion_flag_reports_every_frame_acknowledged() {
    let mut s = WindowedSender::new(4);
    let (sends, done) = s.on_ack(0, 0);
    assert!(sends.is_empty());
    assert!(done);
    let mut t = WindowedSender::new(2);
    t.pump(2);
    assert!(t.on_ack(2, 2).1);
    // a repeated final ACK still reports completion
    assert!(t.on_ack(2, 2).1);
}

#[test]
fn window_bound_holds_over_a_transfer() {
    let mut s = WindowedSender::new(3);
    let total = 8;
    let mut sent = s.pump(total);
    for ack in [1usize, 1, 1, 3, 4, 4, 7, 8] {
        let (frames, _) = s.on_ack(ack, total);
        for f in &frames {
            assert!(s.base() <= *f && *f < s.base() + 3 && *f < total);
        }
        sent.extend(frames);
    }
    let again = s.go_back_n(total);
    assert!(again.is_empty());
    assert_eq!(s.base(), total);
}

#[test]
fn frames_arriving_in_any_order_come_out_once_in_order() {
    let mut r = RecvFrontier::new();
    let arrivals = [3usize, 1, 1, 0, 4, 2, 0, 3];
    let mut delivered = Vec::new();
    let mut last = 0;
    for g in arrivals {
        let (ready, next, _) = r.insert(g, Value::from(g as u64 * 10));
        delivered.extend(ready);
        last = next;
    }
    assert_eq!(last, 5);
    let expected: Vec<Value> = (0..5u64).map(|i| Value::from(i * 10)).collect();
    assert_eq!(delivered, expected);
}

#[test]
fn sync_steps_choose_actions_and_lines() {
    let mut s = UiState::new();
    let (a, change) = sync_next(&mut s, "ck", SyncEvent::Start);
    assert_eq!(a, SyncAction::SendCookie);
    assert!(!change.arm_hide_timer);
    assert_eq!(s.current_status, StatusState::Processing("正在发送到手表...".to_string()));
    let (a, _) = sync_next(&mut s, "ck", SyncEvent::CookieSent(false));
    assert_eq!(a, SyncAction::Finish);
    assert_eq!(s.current_status, StatusState::Error("Cookie 发送失败。".to_string()));
    let (a, _) = sync_next(&mut s, "", SyncEvent::Start);
    assert_eq!(a, SyncAction::SkipCookie);
    assert_eq!(s.current_status, StatusState::Processing("正在发送到手表...".to_string()));
    let (a, _) = sync_next(&mut s, "", SyncEvent::CookieSent(true));
    assert_eq!(a, SyncAction::FetchConfig);
    assert_eq!(s.current_status, StatusState::Processing("正在发送漫画源配置...".to_string()));
    let (a, change) = sync_next(&mut s, "", SyncEvent::ConfigFetched(false));
    assert_eq!(a, SyncAction::Finish);
    assert!(change.arm_hide_timer);
    assert_eq!(s.current_status, StatusState::Success("Cookie 已同步，但漫画源配置获取失败。".to_string()));
    s.fetched_source_config = Some(Value::Null);
    assert_eq!(sync_next(&mut s, "ck", SyncEvent::CookieSent(true)).0, SyncAction::SendConfig);
    assert_eq!(sync_next(&mut s, "ck", SyncEvent::ConfigSent(true)).0, SyncAction::Finish);
    assert_eq!(s.current_status, StatusState::Success("同步成功！".to_string()));
    sync_next(&mut s, "ck", SyncEvent::ConfigSent(false));
    assert_eq!(s.current_status, StatusState::Error("漫画源配置发送失败。".to_string()));
}

#[test]
fn launch_outcome_follows_the_chain() {
    let none: Vec<String> = vec![];
    let devs = vec!["aa:bb".to_string()];
    let apps = vec![("other".to_string(), 9), ("moe.yzf.comic".to_string(), 300)];
    let old = vec![("moe.yzf.comic".to_string(), 100)];
    assert_eq!(
        prepare_launch_outcome(&none, Some(&apps), 0, true),
        Err("没有已连接的设备，请检查手表连接。".to_string())
    );
    assert_eq!(prepare_launch_outcome(&devs, None, 0, true), Err("无法获取快应用列表。".to_string()));
    assert_eq!(
        prepare_launch_outcome(&devs, Some(&vec![]), 0, true),
        Err("请先安装腕上漫画快应用！".to_string())
    );
    assert_eq!(
        prepare_launch_outcome(&devs, Some(&old), 259, true),
        Err("请先安装腕上漫画快应用的新版本！".to_string())
    );
    assert_eq!(prepare_launch_outcome(&devs, Some(&apps), 259, false), Err("启动快应用失败。".to_string()));
    assert_eq!(prepare_launch_outcome(&devs, Some(&apps), 259, true), Ok("aa:bb".to_string()));
}

#[test]
fn send_failures_end_the_upload_with_their_lines() {
    let mut s = UiState::new();
    start_upload_session(&mut s, "d".to_string(), "B".to_string(), vec![("1".to_string(), vec!["x".to_string()])], "h".to_string());
    let change = chunk_send_failed(&mut s);
    assert!(change.arm_hide_timer);
    assert!(s.upload_session.is_none());
    assert_eq!(s.upload_status, StatusState::Error("发送中断，请重试。".to_string()));
    start_upload_session(&mut s, "d".to_string(), "B".to_string(), vec![("1".to_string(), vec!["x".to_string()])], "h".to_string());
    header_send_failed(&mut s);
    assert!(s.upload_session.is_none());
    assert_eq!(s.upload_status, StatusState::Error("发送失败，请重试。".to_string()));
}

#[test]
fn data_fetch_lines() {
    let mut s = UiState::new();
    s.app_comics.push(ComicInfo::default());
    s.pending_covers.push(("old".to_string(), ("c".to_string(), 10)));
    s.pending_covers.push(("new".to_string(), ("c".to_string(), 95)));
    begin_fetch_app_data(&mut s, 100);
    assert!(s.app_comics.is_empty());
    assert_eq!(s.pending_covers.len(), 1);
    assert_eq!(s.pending_covers[0].0, "new");
    assert_eq!(s.app_data_status, StatusState::Processing("正在获取快应用数据...".to_string()));
    app_data_request_sent(&mut s, true);
    assert_eq!(s.app_data_status, StatusState::Processing("等待手表返回数据...".to_string()));
    let change = app_data_request_sent(&mut s, false);
    assert!(change.arm_hide_timer);
    assert_eq!(s.app_data_status, StatusState::Error("发送请求失败，请检查连接。".to_string()));
}

#[test]
fn ui_events_update_the_state() {
    let mut s = UiState::new();
    s.root_element_id = Some("root".to_string());
    let e = ui_event_processor(&mut s, "domain_input_change", r#"{"value":"example.com"}"#);
    assert_eq!(e.command, UiCommand::DomainInput);
    assert_eq!(s.config.domain, "example.com");
    assert!(e.render.is_none());
    let e = ui_event_processor(&mut s, "cookie_input", "not json");
    assert_eq!(e.command, UiCommand::Ignored);
    assert_eq!(s.config.cookie, "");
    let e = ui_event_processor(&mut s, "domain_input_blur", r#"{"value":"a.b"}"#);
    assert!(e.fetch_domain);
    assert_eq!(s.config.domain, "a.b");
    ui_event_processor(&mut s, "upload_name_input", r#"{"value":"Book"}"#);
    assert_eq!(s.upload_comic_name_input, "Book");
    s.upload_items = vec![item("a"), item("b"), item("c")];
    let e = ui_event_processor(&mut s, "upload_move_up_1", "{}");
    assert_eq!(e.render, Some("root".to_string()));
    let names: Vec<String> = s.upload_items.iter().map(|i| i.comic_name.clone()).collect();
    assert_eq!(names, vec!["b", "a", "c"]);
    let e = ui_event_processor(&mut s, "upload_move_down_2", "{}");
    assert!(e.render.is_none());
    ui_event_processor(&mut s, "upload_delete_0", "{}");
    let names: Vec<String> = s.upload_items.iter().map(|i| i.comic_name.clone()).collect();
    assert_eq!(names, vec!["a", "c"]);
    ui_event_processor(&mut s, "upload_mode_multi", "{}");
    assert_eq!(s.upload_mode, UploadMode::Multi);
    assert_eq!(s.current_tab, TabPage::Upload);
    let e = apply_ui_event(&mut s, "sync_button", None);
    assert_eq!(e.command, UiCommand::Sync);
}

#[test]
fn handshake_steps_chain_registration_into_the_first_ping() {
    let mut sessions = HandshakeState::new();
    let mut pending = None;
    begin_wait(&mut sessions, &mut pending, "dev".to_string(), "{ping}".to_string(), 0);
    match register_timer_step(&mut pending, false) {
        HandshakeAction::RetryRegister { .. } => {}
        other => panic!("unexpected {:?}", other),
    }
    match register_timer_step(&mut pending, true) {
        HandshakeAction::Ping { device_addr, ping_str, waited_secs } => {
            assert_eq!(device_addr, "dev");
            assert_eq!(ping_str, "{ping}");
            assert_eq!(waited_secs, 1);
        }
        other => panic!("unexpected {:?}", other),
    }
    assert!(matches!(ping_timer_step(&mut pending), HandshakeAction::Ping { .. }));
    assert!(matches!(register_timer_step(&mut pending, true), HandshakeAction::Nothing));
}

#[test]
fn configuration_bodies_give_names_and_entries() {
    let body = br#"{"srcA":{"url":"a"},"srcB":1}"#;
    assert_eq!(source_name_of_body(body), Some("srcA".to_string()));
    let config = source_config_of_body(body).unwrap();
    assert_eq!(
        config,
        vec![("srcA".to_string(), r#"{"url":"a"}"#.to_string()), ("srcB".to_string(), "1".to_string())]
    );
    assert_eq!(source_config_of_body(b"{}"), None);
    assert_eq!(source_name_of_body(b"{}"), None);
    assert_eq!(source_config_of_body(b"[1,2]"), None);
    assert_eq!(source_name_of_body(b"not json"), None);
}

#[test]
fn cover_chunks_in_any_order_assemble_in_index_order() {
    let mut s = UiState::new();
    let mut c = ComicInfo::default();
    c.name = "X".to_string();
    s.app_comics.push(c);
    assert!(!on_cover_chunk(&mut s, "X", 2, 3, "c", 0));
    assert!(!on_cover_chunk(&mut s, "X", 0, 3, "a", 0));
    assert!(!on_cover_chunk(&mut s, "X", 2, 3, "c", 0));
    assert!(on_cover_chunk(&mut s, "X", 1, 3, "b", 0));
    assert_eq!(s.app_comics[0].cover_base64, "abc");
    assert!(s.cover_chunk_buffers.is_empty());
}

#[test]
fn registration_gives_up_on_the_eighteenth_failure() {
    let mut sessions = HandshakeState::new();
    let mut pending = None;
    begin_wait(&mut sessions, &mut pending, "dev".to_string(), "{ping}".to_string(), 0);
    for _ in 0..17 {
        assert!(matches!(register_timer_step(&mut pending, false), HandshakeAction::RetryRegister { .. }));
    }
    match register_timer_step(&mut pending, false) {
        HandshakeAction::Failed(m) => assert_eq!(m, "无法连接快应用，请确保手表快应用已打开后重试。"),
        other => panic!("unexpected {:?}", other),
    }
    assert!(pending.is_none());
}

#[test]
fn pinging_times_out_after_the_twentieth_ping() {
    let mut sessions = HandshakeState::new();
    let mut pending = None;
    begin_wait(&mut sessions, &mut pending, "dev".to_string(), "{ping}".to_string(), 0);
    let mut pings = 0;
    if let HandshakeAction::Ping { .. } = register_timer_step(&mut pending, true) {
        pings += 1;
    }
    loop {
        match ping_timer_step(&mut pending) {
            HandshakeAction::Ping { .. } => pings += 1,
            HandshakeAction::TimedOut => break,
            other => panic!("unexpected {:?}", other),
        }
    }
    assert_eq!(pings, 20);
    assert!(pending.is_none());
}

#[test]
fn every_palette_entry_is_used() {
    let pixels: Vec<[u8; 3]> = (0..40u8).map(|i| [i * 6, 255 - i * 3, (i % 5) * 50]).collect();
    for max in [1usize, 2, 5, 16] {
        let (palette, indices) = bandcomic_helper::lvgl::median_cut_quantize(&pixels, max);
        assert!(!palette.is_empty() && palette.len() <= max);
        for b in 0..palette.len() {
            assert!(indices.iter().any(|&ix| ix as usize == b));
        }
        assert!(indices.iter().all(|&ix| (ix as usize) < palette.len()));
    }
}
