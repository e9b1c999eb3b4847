//! The plugin's data model: configuration, the settings the watch app hands
//! over in the handshake, status lines, upload lists and sessions, and the
//! whole screen state.

use serde_json::Value;
use vstd::prelude::*;

use crate::seqs::keys_unique;
use crate::text::{chars_of, parse_u64, parse_unsigned, str_eq};

verus! {

pub const WATCH_APP_PKG_NAME: &'static str = "moe.yzf.comic";
pub const CONFIG_KEY_COOKIE: &'static str = "savedCookie";
pub const CONFIG_KEY_DOMAIN: &'static str = "sourceDomain";
pub const CONFIG_KEY_SOURCE_NAME: &'static str = "sourceName";

/// What the user entered on the sync page.
#[derive(Debug, Clone)]
pub struct PluginConfig {
    pub cookie: String,
    pub domain: String,
    pub source_name: String,
}

impl Default for PluginConfig {
    fn default() -> (c: Self)
        ensures
            c.cookie@.len() == 0,
            c.domain@.len() == 0,
            c.source_name@.len() == 0,
    {
        PluginConfig { cookie: String::new(), domain: String::new(), source_name: String::new() }
    }
}

/// The watch app's settings (its `APP_SETTING`), handed over in the
/// handshake answer. The defaults are those of the watch app.
#[derive(Debug, Clone, Copy)]
pub struct WatchSettings {
    pub search_page_size: u32,
    pub image_quality: u32,
    pub image_size: u32,
    pub show_cover_in_search: bool,
    pub keep_default_zoom: bool,
    pub image_use_png: bool,
    pub image_pre_transcode: bool,
}

impl WatchSettings {
    /// The watch app's defaults.
    pub open spec fn spec_default() -> WatchSettings {
        WatchSettings {
            search_page_size: 10,
            image_quality: 50,
            image_size: 600,
            show_cover_in_search: false,
            keep_default_zoom: false,
            image_use_png: false,
            image_pre_transcode: false,
        }
    }
}

impl Default for WatchSettings {
    fn default() -> (s: Self)
        ensures
            s == WatchSettings::spec_default(),
    {
        WatchSettings {
            search_page_size: 10,
            image_quality: 50,
            image_size: 600,
            show_cover_in_search: false,
            keep_default_zoom: false,
            image_use_png: false,
            image_pre_transcode: false,
        }
    }
}

/// One member of a JSON object, as far as the plugin looks at it.
#[derive(Debug)]
pub enum JsonScalar {
    /// The member is missing.
    Absent,
    Bool(bool),
    /// A number: its value when it is a non-negative integer that fits in a
    /// `u64`, `None` for any other number.
    Number(Option<u64>),
    Text(String),
    Object(JsonObject),
    /// `null` or an array.
    Other,
}

/// A JSON object's members, in order.
#[derive(Debug)]
pub struct JsonObject {
    pub entries: Vec<(String, JsonScalar)>,
}

/// The value of the member named `key` (the first one, should the name
/// repeat), if there is one.
pub open spec fn json_get(entries: Seq<(String, JsonScalar)>, key: Seq<char>) -> Option<JsonScalar>
    decreases entries.len(),
{
    if entries.len() == 0 {
        None
    } else if entries[0].0@ == key {
        Some(entries[0].1)
    } else {
        json_get(entries.drop_first(), key)
    }
}

/// The member named `key` (the first one, should the name repeat).
pub open spec fn json_member(entries: Seq<(String, JsonScalar)>, key: Seq<char>) -> JsonScalar
    decreases entries.len(),
{
    if entries.len() == 0 {
        JsonScalar::Absent
    } else if entries[0].0@ == key {
        entries[0].1
    } else {
        json_member(entries.drop_first(), key)
    }
}

/// A numeric setting: a number, or text holding a number, cut to its low
/// 32 bits; otherwise the default.
pub open spec fn setting_u32(x: JsonScalar, def: u32) -> u32 {
    match x {
        JsonScalar::Number(Some(n)) => n as u32,
        JsonScalar::Text(s) => match parse_unsigned(s@) {
            Some(v) => if v <= u64::MAX {
                v as u32
            } else {
                def
            },
            None => def,
        },
        _ => def,
    }
}

/// The member `key` of a member that is an object (`Absent` otherwise).
pub open spec fn field(x: JsonScalar, key: Seq<char>) -> JsonScalar {
    match x {
        JsonScalar::Object(o) => json_member(o.entries@, key),
        _ => JsonScalar::Absent,
    }
}

/// A non-negative integer member, or `def`.
pub open spec fn u64_or(x: JsonScalar, def: u64) -> u64 {
    match x {
        JsonScalar::Number(Some(n)) => n,
        _ => def,
    }
}

/// A text member, or the empty text.
pub open spec fn text_or_empty(x: JsonScalar) -> Seq<char> {
    match x {
        JsonScalar::Text(s) => s@,
        _ => Seq::empty(),
    }
}

/// A boolean setting: a boolean, or the text `"true"` or `"1"` (any other
/// text is false); otherwise the default.
pub open spec fn setting_bool(x: JsonScalar, def: bool) -> bool {
    match x {
        JsonScalar::Bool(b) => b,
        JsonScalar::Text(s) => s@ == "true"@ || s@ == "1"@,
        _ => def,
    }
}

/// The member named `key`, if there is one.
pub fn member<'a>(v: &'a JsonObject, key: &str) -> (r: Option<&'a JsonScalar>)
    ensures
        r matches Some(x) ==> *x == json_member(v.entries@, key@),
        r is None ==> json_member(v.entries@, key@) is Absent,
        r matches Some(x) ==> json_get(v.entries@, key@) == Some(*x),
        r is None ==> json_get(v.entries@, key@) is None,
{
    let mut i: usize = 0;
    assert(v.entries@.skip(0) =~= v.entries@);
    while i < v.entries.len()
        invariant
            i <= v.entries@.len(),
            json_member(v.entries@, key@) == json_member(v.entries@.skip(i as int), key@),
            json_get(v.entries@, key@) == json_get(v.entries@.skip(i as int), key@),
        decreases v.entries.len() - i,
    {
        let ghost rest = v.entries@.skip(i as int);
        assert(rest[0] == v.entries@[i as int]);
        if str_eq(v.entries[i].0.as_str(), key) {
            return Some(&v.entries[i].1);
        }
        assert(rest.drop_first() =~= v.entries@.skip(i + 1));
        i = i + 1;
    }
    assert(v.entries@.skip(i as int).len() == 0);
    None
}

/// The viewed member: `Absent` when missing.
pub open spec fn scalar_of(x: Option<&JsonScalar>) -> JsonScalar {
    match x {
        Some(v) => *v,
        None => JsonScalar::Absent,
    }
}

/// The member `key` of a member that is an object.
pub fn field_of<'a>(x: Option<&'a JsonScalar>, key: &str) -> (r: Option<&'a JsonScalar>)
    ensures
        scalar_of(r) == field(scalar_of(x), key@),
{
    match x {
        Some(JsonScalar::Object(o)) => member(o, key),
        _ => None,
    }
}

/// A non-negative integer member, or `def`.
pub fn read_u64_or(x: Option<&JsonScalar>, def: u64) -> (r: u64)
    ensures
        r == u64_or(scalar_of(x), def),
{
    match x {
        Some(JsonScalar::Number(Some(n))) => *n,
        _ => def,
    }
}

/// A text member, or the empty text.
pub fn read_text(x: Option<&JsonScalar>) -> (r: String)
    ensures
        r@ == text_or_empty(scalar_of(x)),
{
    match x {
        Some(JsonScalar::Text(s)) => s.clone(),
        _ => String::new(),
    }
}

fn read_u32(x: Option<&JsonScalar>, def: u32) -> (r: u32)
    ensures
        x matches Some(v) ==> r == setting_u32(*v, def),
        x is None ==> r == def,
{
    match x {
        None => def,
        Some(x) => match x {
        JsonScalar::Number(Some(n)) => #[verifier::truncate] (*n as u32),
        JsonScalar::Text(s) => match parse_u64(&chars_of(s.as_str())) {
            Some(v) => #[verifier::truncate] (v as u32),
            None => def,
        },
        _ => def,
    },
    }
}

fn read_bool(x: Option<&JsonScalar>, def: bool) -> (r: bool)
    ensures
        x matches Some(v) ==> r == setting_bool(*v, def),
        x is None ==> r == def,
{
    match x {
        None => def,
        Some(x) => match x {
            JsonScalar::Bool(b) => *b,
            JsonScalar::Text(s) => str_eq(s.as_str(), "true") || str_eq(s.as_str(), "1"),
            _ => def,
        },
    }
}

impl WatchSettings {
    /// The settings an object describes: each value as text or as a
    /// number/boolean; a missing or unreadable value keeps the default.
    pub open spec fn from_json_spec(v: JsonObject) -> WatchSettings {
        WatchSettings {
            search_page_size: setting_u32(json_member(v.entries@, "searchPageSize"@), 10),
            image_quality: setting_u32(json_member(v.entries@, "imageQuality"@), 50),
            image_size: setting_u32(json_member(v.entries@, "imageSize"@), 600),
            show_cover_in_search: setting_bool(json_member(v.entries@, "showCoverInSearch"@), false),
            keep_default_zoom: setting_bool(json_member(v.entries@, "keepDefaultZoom"@), false),
            image_use_png: setting_bool(json_member(v.entries@, "imageUsePng"@), false),
            image_pre_transcode: setting_bool(json_member(v.entries@, "imagePreTranscode"@), false),
        }
    }

    /// Reads the settings object (see `from_json_spec`).
    pub fn from_json(v: &JsonObject) -> (s: Self)
        ensures
            s == Self::from_json_spec(*v),
    {
        let d = WatchSettings::default();
        WatchSettings {
            search_page_size: read_u32(member(v, "searchPageSize"), d.search_page_size),
            image_quality: read_u32(member(v, "imageQuality"), d.image_quality),
            image_size: read_u32(member(v, "imageSize"), d.image_size),
            show_cover_in_search: read_bool(member(v, "showCoverInSearch"), d.show_cover_in_search),
            keep_default_zoom: read_bool(member(v, "keepDefaultZoom"), d.keep_default_zoom),
            image_use_png: read_bool(member(v, "imageUsePng"), d.image_use_png),
            image_pre_transcode: read_bool(member(v, "imagePreTranscode"), d.image_pre_transcode),
        }
    }
}

/// Each setting reads its own member of the settings object: a boolean
/// member gives the setting its value, a text member gives `true` exactly
/// for `"true"` or `"1"`, a number member gives its low 32 bits; a missing
/// member leaves the default (off for the switches, 10 results per page,
/// quality 50, size 600).
pub proof fn law_settings_read_their_own_members(v: JsonObject, b: bool, t: String, n: u64)
    ensures
        json_member(v.entries@, "showCoverInSearch"@) == JsonScalar::Bool(b) ==> WatchSettings::from_json_spec(v).show_cover_in_search == b,
        json_member(v.entries@, "showCoverInSearch"@) == JsonScalar::Text(t) ==> WatchSettings::from_json_spec(v).show_cover_in_search == (t@ == "true"@ || t@ == "1"@),
        json_member(v.entries@, "showCoverInSearch"@) is Absent ==> !WatchSettings::from_json_spec(v).show_cover_in_search,
        json_member(v.entries@, "keepDefaultZoom"@) == JsonScalar::Bool(b) ==> WatchSettings::from_json_spec(v).keep_default_zoom == b,
        json_member(v.entries@, "keepDefaultZoom"@) == JsonScalar::Text(t) ==> WatchSettings::from_json_spec(v).keep_default_zoom == (t@ == "true"@ || t@ == "1"@),
        json_member(v.entries@, "keepDefaultZoom"@) is Absent ==> !WatchSettings::from_json_spec(v).keep_default_zoom,
        json_member(v.entries@, "imageUsePng"@) == JsonScalar::Bool(b) ==> WatchSettings::from_json_spec(v).image_use_png == b,
        json_member(v.entries@, "imageUsePng"@) == JsonScalar::Text(t) ==> WatchSettings::from_json_spec(v).image_use_png == (t@ == "true"@ || t@ == "1"@),
        json_member(v.entries@, "imageUsePng"@) is Absent ==> !WatchSettings::from_json_spec(v).image_use_png,
        json_member(v.entries@, "imagePreTranscode"@) == JsonScalar::Bool(b) ==> WatchSettings::from_json_spec(v).image_pre_transcode == b,
        json_member(v.entries@, "imagePreTranscode"@) == JsonScalar::Text(t) ==> WatchSettings::from_json_spec(v).image_pre_transcode == (t@ == "true"@ || t@ == "1"@),
        json_member(v.entries@, "imagePreTranscode"@) is Absent ==> !WatchSettings::from_json_spec(v).image_pre_transcode,
        json_member(v.entries@, "searchPageSize"@) == JsonScalar::Number(Some(n)) ==> WatchSettings::from_json_spec(v).search_page_size == n as u32,
        json_member(v.entries@, "searchPageSize"@) is Absent ==> WatchSettings::from_json_spec(v).search_page_size == 10,
        json_member(v.entries@, "imageQuality"@) == JsonScalar::Number(Some(n)) ==> WatchSettings::from_json_spec(v).image_quality == n as u32,
        json_member(v.entries@, "imageQuality"@) is Absent ==> WatchSettings::from_json_spec(v).image_quality == 50,
        json_member(v.entries@, "imageSize"@) == JsonScalar::Number(Some(n)) ==> WatchSettings::from_json_spec(v).image_size == n as u32,
        json_member(v.entries@, "imageSize"@) is Absent ==> WatchSettings::from_json_spec(v).image_size == 600,
{
}

/// A status line: nothing to report, work in progress, success or error.
#[derive(Debug, Clone, PartialEq)]
pub enum StatusState {
    Default,
    Processing(String),
    Success(String),
    Error(String),
}

impl StatusState {
    /// Success and error lines hide themselves after a while.
    pub open spec fn spec_auto_hides(&self) -> bool {
        self is Success || self is Error
    }

    /// Whether this status line is to be hidden by a timer.
    pub fn auto_hides(&self) -> (b: bool)
        ensures
            b == self.spec_auto_hides(),
    {
        match self {
            StatusState::Success(_) | StatusState::Error(_) => true,
            _ => false,
        }
    }
}

#[derive(Debug, Clone, Copy, PartialEq, Eq, Structural)]
pub enum TabPage {
    Sync,
    Data,
    Upload,
}

/// A picked image.
#[derive(Debug, Clone)]
pub struct UploadFile {
    pub name: String,
    /// Master image (scaled to the master width); processed again per the
    /// watch app's settings before sending.
    pub data: Vec<u8>,
    /// Size of the master image.
    pub size: usize,
    /// Size of the file as picked.
    pub original_size: usize,
    /// Small preview for the list.
    pub thumbnail: Vec<u8>,
}

/// A comic of the single-book upload list: a cover and its pages.
#[derive(Debug, Clone)]
pub struct UploadItem {
    pub comic_name: String,
    pub cover: Option<UploadFile>,
    pub files: Vec<UploadFile>,
}

/// A chapter of the multi-chapter upload.
#[derive(Debug, Clone)]
pub struct ChapterItem {
    pub name: String,
    pub files: Vec<UploadFile>,
}

impl Default for ChapterItem {
    fn default() -> (c: Self)
        ensures
            c.name@.len() == 0,
            c.files@.len() == 0,
    {
        ChapterItem { name: String::new(), files: Vec::new() }
    }
}

#[derive(Debug, Clone, PartialEq)]
pub enum UploadMode {
    Single,
    Multi,
}

/// A running upload: every file cut into chunks, a cursor, and the chunk
/// in flight.
#[derive(Debug, Clone)]
pub struct UploadSession {
    pub device_addr: String,
    pub comic_name: String,
    pub all_files: Vec<(String, Vec<String>)>,
    pub current_file: usize,
    pub current_chunk: usize,
    pub total_files: usize,
    /// The chunk sent and waiting for its ACK, as (file index, chunk index).
    pub awaiting: Option<(usize, usize)>,
    /// Retransmissions of the chunk in flight; past the limit the upload stops.
    pub retry_count: u32,
    /// The header message, kept for resending on timeout.
    pub header_str: String,
    /// Whether the watch app confirmed the header.
    pub header_acked: bool,
    /// Header resends; past the limit the upload falls back to sending chunks
    /// right away (older watch apps do not confirm headers).
    pub header_retry: u32,
}

/// A comic stored on the watch.
#[derive(Debug, Clone)]
pub struct ComicInfo {
    pub name: String,
    pub page_count: usize,
    pub chapters: usize,
    pub cover_base64: String,
}

impl Default for ComicInfo {
    fn default() -> (c: Self)
        ensures
            c.name@.len() == 0,
            c.page_count == 0,
            c.chapters == 0,
            c.cover_base64@.len() == 0,
    {
        ComicInfo { name: String::new(), page_count: 0, chapters: 0, cover_base64: String::new() }
    }
}

/// A comic source known to the watch.
#[derive(Debug, Clone)]
pub struct SourceInfo {
    pub name: String,
    pub api_url: String,
}

impl Default for SourceInfo {
    fn default() -> (s: Self)
        ensures
            s.name@.len() == 0,
            s.api_url@.len() == 0,
    {
        SourceInfo { name: String::new(), api_url: String::new() }
    }
}

/// Upload progress as a fraction `done / total` (the screen shows a percentage).
#[derive(Debug, Clone, Copy)]
pub struct Progress {
    pub done: usize,
    pub total: usize,
}

/// The whole screen state.
pub struct UiState {
    pub root_element_id: Option<String>,
    pub config: PluginConfig,
    pub fetched_source_name: Option<String>,
    pub fetched_source_config: Option<Value>,
    pub current_status: StatusState,
    pub status_timer_id: Option<u64>,
    pub pending_domain_fetch: Option<String>,
    pub current_tab: TabPage,
    pub app_comic_count: Option<usize>,
    pub app_source_count: Option<usize>,
    pub app_comics: Vec<ComicInfo>,
    pub app_sources: Vec<SourceInfo>,
    pub app_data_status: StatusState,
    pub app_data_timer_id: Option<u64>,
    /// Timer of the overall receive timeout of a data fetch.
    pub app_data_recv_timer_id: Option<u64>,
    /// Cover chunks being collected, per comic name: (announced total, chunks).
    pub cover_chunk_buffers: Vec<(String, (usize, Vec<String>))>,
    pub upload_items: Vec<UploadItem>,
    pub upload_chapters: Vec<ChapterItem>,
    pub upload_comic_name_input: String,
    pub upload_mode: UploadMode,
    pub multi_cover: Option<UploadFile>,
    pub upload_progress: Progress,
    pub upload_current_file: String,
    pub upload_status: StatusState,
    pub upload_status_timer_id: Option<u64>,
    pub upload_session: Option<UploadSession>,
    /// The last handshake answer: (session, watch app settings).
    pub hs_pong: Option<(String, WatchSettings)>,
    /// Settings in force for the current session; `None` for an older watch
    /// app that does not shake hands.
    pub watch_settings: Option<WatchSettings>,
    pub upload_ack_timer_id: Option<u64>,
    pub upload_header_timer_id: Option<u64>,
    /// Covers completed before their comic's entry arrived (messages may come
    /// out of order), per comic name: (cover, arrival time in seconds).
    pub pending_covers: Vec<(String, (String, u64))>,
}

impl UiState {
    /// The state's invariant: the per-name lists (waiting covers, cover
    /// chunks being collected) hold each comic name at most once, as maps
    /// keyed by name would. Every operation keeps it.
    pub open spec fn maps_wf(&self) -> bool {
        keys_unique(self.pending_covers@) && keys_unique(self.cover_chunk_buffers@)
    }

    /// The screen as the plugin starts: the sync tab, nothing entered,
    /// fetched or listed, no status shown, single-book uploads, no upload
    /// running.
    pub fn new() -> (s: Self)
        ensures
            s.root_element_id is None,
            s.config.cookie@.len() == 0 && s.config.domain@.len() == 0
                && s.config.source_name@.len() == 0,
            s.fetched_source_name is None && s.fetched_source_config is None,
            s.current_status is Default && s.status_timer_id is None,
            s.pending_domain_fetch is None,
            s.current_tab is Sync,
            s.app_comic_count is None && s.app_source_count is None,
            s.app_comics@.len() == 0 && s.app_sources@.len() == 0,
            s.app_data_status is Default && s.app_data_timer_id is None,
            s.app_data_recv_timer_id is None,
            s.cover_chunk_buffers@.len() == 0,
            s.upload_items@.len() == 0 && s.upload_chapters@.len() == 0,
            s.upload_comic_name_input@.len() == 0,
            s.upload_mode is Single,
            s.multi_cover is None,
            s.upload_progress == (Progress { done: 0, total: 1 }),
            s.upload_current_file@.len() == 0,
            s.upload_status is Default && s.upload_status_timer_id is None,
            s.upload_session is None,
            s.hs_pong is None && s.watch_settings is None,
            s.upload_ack_timer_id is None && s.upload_header_timer_id is None,
            s.pending_covers@.len() == 0,
            s.maps_wf(),
    {
        UiState {
            root_element_id: None,
            config: PluginConfig::default(),
            fetched_source_name: None,
            fetched_source_config: None,
            current_status: StatusState::Default,
            status_timer_id: None,
            pending_domain_fetch: None,
            current_tab: TabPage::Sync,
            app_comic_count: None,
            app_source_count: None,
            app_comics: Vec::new(),
            app_sources: Vec::new(),
            app_data_status: StatusState::Default,
            app_data_timer_id: None,
            app_data_recv_timer_id: None,
            cover_chunk_buffers: Vec::new(),
            upload_items: Vec::new(),
            upload_chapters: Vec::new(),
            upload_comic_name_input: String::new(),
            upload_mode: UploadMode::Single,
            multi_cover: None,
            upload_progress: Progress { done: 0, total: 1 },
            upload_current_file: String::new(),
            upload_status: StatusState::Default,
            upload_status_timer_id: None,
            upload_session: None,
            hs_pong: None,
            watch_settings: None,
            upload_ack_timer_id: None,
            upload_header_timer_id: None,
            pending_covers: Vec::new(),
        }
    }
}

pub const DOMAIN_INPUT_CHANGE_EVENT: &'static str = "domain_input_change";
pub const DOMAIN_INPUT_BLUR_EVENT: &'static str = "domain_input_blur";
pub const COOKIE_INPUT_EVENT: &'static str = "cookie_input";
pub const SYNC_BUTTON_EVENT: &'static str = "sync_button";
pub const HIDE_STATUS_EVENT: &'static str = "hide_status";
pub const TAB_SYNC_EVENT: &'static str = "tab_sync";
pub const TAB_DATA_EVENT: &'static str = "tab_data";
pub const FETCH_APP_DATA_EVENT: &'static str = "fetch_app_data";
pub const HIDE_APP_DATA_STATUS_EVENT: &'static str = "hide_app_data_status";
/// Timer event: overall receive timeout of a data fetch.
pub const APP_DATA_RECV_TIMEOUT_EVENT: &'static str = "app_data_recv_timeout";
/// Timer event: handshake registration retry.
pub const HS_REGISTER_RETRY_EVENT: &'static str = "hs_register_retry";
/// Timer event: handshake ping poll.
pub const HS_PING_EVENT: &'static str = "hs_ping_poll";
pub const NODE_DOMAIN_LABEL: &'static str = "domain_label";
pub const NODE_DOMAIN_INPUT: &'static str = "domain_input";
pub const NODE_SOURCE_NAME_LABEL: &'static str = "source_name_label";
pub const NODE_SOURCE_NAME_INPUT: &'static str = "source_name_input";
pub const NODE_COOKIE_LABEL: &'static str = "cookie_label";
pub const NODE_COOKIE_INPUT: &'static str = "cookie_input";
pub const NODE_STATUS_MESSAGE: &'static str = "status_message";
pub const NODE_SYNC_BUTTON: &'static str = "sync_button";
pub const DELETE_COMIC_PREFIX: &'static str = "delete_comic_";
pub const DELETE_SOURCE_PREFIX: &'static str = "delete_source_";
pub const TAB_UPLOAD_EVENT: &'static str = "tab_upload";
pub const UPLOAD_NAME_INPUT_EVENT: &'static str = "upload_name_input";
pub const UPLOAD_MODE_SINGLE_EVENT: &'static str = "upload_mode_single";
pub const UPLOAD_MODE_MULTI_EVENT: &'static str = "upload_mode_multi";
pub const UPLOAD_PICK_FILES_EVENT: &'static str = "upload_pick_files";
pub const UPLOAD_START_EVENT: &'static str = "upload_start";
pub const UPLOAD_CLEAR_EVENT: &'static str = "upload_clear";
pub const UPLOAD_MOVE_UP_PREFIX: &'static str = "upload_move_up_";
pub const UPLOAD_MOVE_DOWN_PREFIX: &'static str = "upload_move_down_";
pub const UPLOAD_DELETE_PREFIX: &'static str = "upload_delete_";
pub const UPLOAD_PICK_COVER_EVENT: &'static str = "upload_pick_cover";
pub const HIDE_UPLOAD_STATUS_EVENT: &'static str = "hide_upload_status";
/// Timer event: chunk ACK timeout (retransmission).
pub const UPLOAD_ACK_TIMEOUT_EVENT: &'static str = "upload_ack_timeout";
/// Timer event: header ACK timeout (header resend).
pub const UPLOAD_HEADER_TIMEOUT_EVENT: &'static str = "upload_header_timeout";
pub const UPLOAD_ADD_CHAPTER_EVENT: &'static str = "upload_add_chapter";
pub const CHAPTER_NAME_INPUT_PREFIX: &'static str = "chapter_name_input_";
pub const CHAPTER_PICK_FILES_PREFIX: &'static str = "chapter_pick_files_";
pub const CHAPTER_UPLOAD_PREFIX: &'static str = "chapter_upload_";
pub const CHAPTER_CLEAR_PREFIX: &'static str = "chapter_clear_";
pub const CHAPTER_DELETE_PREFIX: &'static str = "chapter_delete_";
pub const CHAPTER_MOVE_UP_PREFIX: &'static str = "chapter_move_up_";
pub const CHAPTER_MOVE_DOWN_PREFIX: &'static str = "chapter_move_down_";
pub const CHAPTER_DEL_FILE_PREFIX: &'static str = "chapter_del_file_";
/// The book-level cover of a multi-chapter upload.
pub const UPLOAD_PICK_MULTI_COVER_EVENT: &'static str = "upload_pick_multi_cover";

} // verus!
