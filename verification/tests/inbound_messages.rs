use bandcomic_helper::ui::app_data::{
    handle_app_data_recv_timeout, reset_app_data, RecvTimer, COVER_RECV_TIMEOUT_MS,
};
use bandcomic_helper::ui::event_handler::{
    handle_interconnect_message, message_in_range, message_kind, InboundKind, Reply, UploadResume,
};
use bandcomic_helper::ui::handshake::{begin_wait, is_session_open, HandshakeState, PendingHandshake, after_register, RegisterOutcome};
use bandcomic_helper::ui::state::{
    ComicInfo, JsonObject, JsonScalar, StatusState, UiState, WatchSettings,
};

fn obj(entries: Vec<(&str, JsonScalar)>) -> JsonObject {
    JsonObject { entries: entries.into_iter().map(|(k, v)| (k.to_string(), v)).collect() }
}

fn text(s: &str) -> JsonScalar {
    JsonScalar::Text(s.to_string())
}

fn num(n: u64) -> JsonScalar {
    JsonScalar::Number(Some(n))
}

struct Env {
    state: UiState,
    sessions: HandshakeState,
    pending: Option<PendingHandshake>,
}

impl Env {
    fn new() -> Env {
        Env { state: UiState::new(), sessions: HandshakeState::new(), pending: None }
    }

    fn deliver(&mut self, msg: JsonObject) -> bandcomic_helper::ui::event_handler::MessageEffects {
        assert!(message_in_range(&self.state, &msg));
        handle_interconnect_message(
            &mut self.state,
            &mut self.sessions,
            &mut self.pending,
            &msg,
            Some("AA:BB"),
            1_000,
            100,
        )
    }
}

fn ack_of(fx: &bandcomic_helper::ui::event_handler::MessageEffects) -> Option<usize> {
    match &fx.reply {
        Some(Reply::AppDataAck(n)) => Some(*n),
        _ => None,
    }
}

#[test]
fn message_kinds() {
    assert_eq!(message_kind(&obj(vec![("type", text("hs_pong"))])), InboundKind::HsPong);
    assert_eq!(message_kind(&obj(vec![("type", num(3))])), InboundKind::Other);
    assert_eq!(message_kind(&obj(vec![])), InboundKind::Other);
}

#[test]
fn data_lists_are_acknowledged_by_number() {
    let mut env = Env::new();
    let fx = env.deliver(obj(vec![
        ("type", text("app_data_header")),
        ("comic_count", num(2)),
        ("source_count", num(1)),
    ]));
    assert_eq!(ack_of(&fx), Some(0));
    assert_eq!(env.state.app_comics.len(), 2);
    assert_eq!(env.state.app_sources.len(), 1);
    assert_eq!(env.state.app_data_status, StatusState::Processing("接收中...".to_string()));

    let comic = obj(vec![("name", text("A")), ("page_count", num(12))]);
    let fx = env.deliver(obj(vec![
        ("type", text("app_data_comic")),
        ("index", num(1)),
        ("comic", JsonScalar::Object(comic)),
    ]));
    assert_eq!(ack_of(&fx), Some(2));
    assert_eq!(env.state.app_comics[1].name, "A");
    assert_eq!(env.state.app_comics[1].page_count, 12);
    assert_eq!(env.state.app_comics[1].chapters, 1);
    assert_eq!(env.state.app_data_status, StatusState::Processing("接收漫画 2/2".to_string()));

    let source = obj(vec![("name", text("src")), ("apiUrl", text("https://x"))]);
    let fx = env.deliver(obj(vec![
        ("type", text("app_data_source")),
        ("index", num(0)),
        ("source", JsonScalar::Object(source)),
    ]));
    assert_eq!(ack_of(&fx), Some(3));
    assert_eq!(env.state.app_sources[0].api_url, "https://x");
    assert_eq!(env.state.app_data_status, StatusState::Processing("接收漫画源 1/1".to_string()));

    let fx = env.deliver(obj(vec![("type", text("app_data_done"))]));
    assert_eq!(ack_of(&fx), Some(4));
    assert!(matches!(fx.recv_timer, Some(RecvTimer::Arm(COVER_RECV_TIMEOUT_MS))));
    assert_eq!(env.state.app_data_status, StatusState::Processing("正在接收封面...".to_string()));
}

#[test]
fn done_without_comics_finishes() {
    let mut env = Env::new();
    env.deliver(obj(vec![("type", text("app_data_header")), ("comic_count", num(0))]));
    let fx = env.deliver(obj(vec![("type", text("app_data_done"))]));
    assert_eq!(ack_of(&fx), Some(1));
    assert!(matches!(fx.recv_timer, Some(RecvTimer::Disarm)));
    assert_eq!(env.state.app_data_status, StatusState::Success("数据获取成功！".to_string()));
}

#[test]
fn comic_before_header_grows_list() {
    let mut env = Env::new();
    let fx = env.deliver(obj(vec![
        ("type", text("app_data_comic")),
        ("index", num(2)),
        ("comic", JsonScalar::Object(obj(vec![("name", text("C"))]))),
    ]));
    assert_eq!(ack_of(&fx), Some(3));
    assert_eq!(env.state.app_comics.len(), 3);
    assert_eq!(env.state.app_comics[0].name, "");
    assert_eq!(env.state.app_data_status, StatusState::Processing("接收漫画 3/0".to_string()));
    // the header then only grows, never shrinks, the list
    env.deliver(obj(vec![("type", text("app_data_header")), ("comic_count", num(1))]));
    assert_eq!(env.state.app_comics.len(), 3);
    assert_eq!(env.state.app_comics[2].name, "C");
}

#[test]
fn comic_message_without_entry_is_still_acknowledged() {
    let mut env = Env::new();
    let fx = env.deliver(obj(vec![("type", text("app_data_comic")), ("index", num(4))]));
    assert_eq!(ack_of(&fx), Some(5));
    assert!(env.state.app_comics.is_empty());
}

fn chunk(name: &str, index: u64, total: u64, data: &str) -> JsonObject {
    obj(vec![
        ("type", text("cover_data_chunk")),
        ("name", text(name)),
        ("index", num(index)),
        ("total", num(total)),
        ("data", text(data)),
    ])
}

#[test]
fn cover_assembles_out_of_order() {
    let mut env = Env::new();
    env.deliver(obj(vec![
        ("type", text("app_data_comic")),
        ("index", num(0)),
        ("comic", JsonScalar::Object(obj(vec![("name", text("K"))]))),
    ]));
    let fx = env.deliver(chunk("K", 1, 2, "BB"));
    assert!(fx.reply.is_none());
    assert_eq!(env.state.cover_chunk_buffers.len(), 1);
    let fx = env.deliver(chunk("K", 0, 2, "AA"));
    match fx.reply {
        Some(Reply::CoverAck(n)) => assert_eq!(n, "K"),
        _ => panic!("cover not acknowledged"),
    }
    assert!(fx.render_card);
    assert_eq!(env.state.app_comics[0].cover_base64, "AABB");
    assert!(env.state.cover_chunk_buffers.is_empty());
}

#[test]
fn early_cover_waits_for_its_comic() {
    let mut env = Env::new();
    let fx = env.deliver(chunk("Late", 0, 1, "XYZ"));
    assert!(matches!(fx.reply, Some(Reply::CoverAck(_))));
    assert_eq!(env.state.pending_covers.len(), 1);
    assert_eq!(env.state.pending_covers[0].1, ("XYZ".to_string(), 100));
    env.deliver(obj(vec![
        ("type", text("app_data_comic")),
        ("index", num(0)),
        ("comic", JsonScalar::Object(obj(vec![("name", text("Late"))]))),
    ]));
    assert_eq!(env.state.app_comics[0].cover_base64, "XYZ");
    assert!(env.state.pending_covers.is_empty());
}

#[test]
fn empty_chunk_is_ignored() {
    let mut env = Env::new();
    let fx = env.deliver(chunk("", 0, 1, "X"));
    assert!(fx.reply.is_none());
    let fx = env.deliver(chunk("N", 0, 1, ""));
    assert!(fx.reply.is_none());
    assert!(env.state.cover_chunk_buffers.is_empty());
    assert!(env.state.pending_covers.is_empty());
}

#[test]
fn chunk_index_past_total_is_out_of_range() {
    let env = Env::new();
    assert!(!message_in_range(&env.state, &chunk("N", 3, 2, "X")));
}

#[test]
fn cover_done_succeeds() {
    let mut env = Env::new();
    env.state.app_data_timer_id = Some(7);
    let fx = env.deliver(obj(vec![("type", text("cover_done"))]));
    assert!(matches!(fx.recv_timer, Some(RecvTimer::Disarm)));
    let st = fx.status.expect("status change");
    assert_eq!(st.cancel_timer, Some(7));
    assert!(st.arm_hide_timer);
    assert_eq!(env.state.app_data_status, StatusState::Success("数据获取成功！".to_string()));
}

#[test]
fn unknown_message_changes_nothing() {
    let mut env = Env::new();
    let fx = env.deliver(obj(vec![("type", text("something_else"))]));
    assert!(fx.reply.is_none() && fx.status.is_none() && !fx.render_card);
    assert!(matches!(fx.upload, UploadResume::Idle));
}

#[test]
fn pong_opens_session_and_completes_handshake() {
    let mut env = Env::new();
    begin_wait(&mut env.sessions, &mut env.pending, "AA:BB".to_string(), "{}".to_string(), 1_000);
    assert!(matches!(after_register(&mut env.pending, true), RegisterOutcome::StartPing));
    let settings = obj(vec![("imageSize", text("800")), ("imageUsePng", JsonScalar::Bool(true))]);
    let fx = env.deliver(obj(vec![
        ("type", text("hs_pong")),
        ("session", text("s1")),
        ("settings", JsonScalar::Object(settings)),
    ]));
    let got = fx.handshake_done.expect("handshake completes");
    assert_eq!(got.image_size, 800);
    assert!(got.image_use_png);
    assert_eq!(got.image_quality, 50);
    assert!(env.pending.is_none());
    assert_eq!(env.state.watch_settings.map(|w| w.image_size), Some(800));
    assert!(is_session_open(&env.sessions, "AA:BB", 1_000 + 600_000));
    assert!(!is_session_open(&env.sessions, "AA:BB", 1_000 + 600_001));
}

#[test]
fn pong_without_device_is_ignored() {
    let mut env = Env::new();
    let msg = obj(vec![("type", text("hs_pong"))]);
    let fx = handle_interconnect_message(
        &mut env.state,
        &mut env.sessions,
        &mut env.pending,
        &msg,
        None,
        0,
        0,
    );
    assert!(fx.handshake_done.is_none());
    assert!(env.state.watch_settings.is_none());
}

#[test]
fn pong_defaults_when_settings_missing() {
    let mut env = Env::new();
    env.deliver(obj(vec![("type", text("hs_pong"))]));
    let w = env.state.watch_settings.expect("settings recorded");
    let d = WatchSettings::default();
    assert_eq!(w.search_page_size, d.search_page_size);
    assert_eq!(w.image_size, 600);
}

#[test]
fn receive_timeout_outcomes() {
    let mut s = UiState::new();
    assert!(handle_app_data_recv_timeout(&mut s).is_none());
    s.app_data_status = StatusState::Processing("…".to_string());
    let c = handle_app_data_recv_timeout(&mut s).expect("ends the fetch");
    assert!(c.arm_hide_timer);
    assert_eq!(s.app_data_status, StatusState::Error("接收超时，请重试。".to_string()));
    s.app_data_status = StatusState::Processing("…".to_string());
    s.app_comics.push(ComicInfo { name: "A".to_string(), page_count: 1, chapters: 1, cover_base64: String::new() });
    handle_app_data_recv_timeout(&mut s);
    assert_eq!(
        s.app_data_status,
        StatusState::Success("数据获取完成（封面可能不完整）".to_string())
    );
}

#[test]
fn reset_drops_stale_covers() {
    let mut s = UiState::new();
    s.pending_covers.push(("old".to_string(), ("x".to_string(), 10)));
    s.pending_covers.push(("new".to_string(), ("y".to_string(), 95)));
    s.pending_covers.push(("future".to_string(), ("z".to_string(), 200)));
    s.app_comic_count = Some(3);
    reset_app_data(&mut s, 100);
    assert_eq!(s.pending_covers.len(), 1);
    assert_eq!(s.pending_covers[0].0, "new");
    assert!(s.app_comic_count.is_none());
}
