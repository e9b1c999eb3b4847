//! The decisions of the sync page and of deleting data from the watch: what
//! to check first, what to remember, and which status to show. Requests,
//! dialogs and messages are the caller's part.

use serde_json::Value;
use vstd::prelude::*;
use vstd::string::StringExecFns;

use super::app_data::{show_app_data_status, show_status, StatusChange};
use super::state::{ComicInfo, SourceInfo, StatusState, UiState};
use crate::text::{chars_of, str_eq};

verus! {

/// Whether the text holds a `.`.
pub open spec fn has_dot(s: Seq<char>) -> bool {
    exists|i: int| 0 <= i < s.len() && s[i] == '.'
}

fn contains_dot(s: &str) -> (b: bool)
    ensures
        b == has_dot(s@),
{
    let v = chars_of(s);
    let mut i: usize = 0;
    while i < v.len()
        invariant
            v@ == s@,
            i <= v@.len(),
            forall|k: int| 0 <= k < i ==> v@[k] != '.',
        decreases v.len() - i,
    {
        if v[i] == '.' {
            return true;
        }
        i = i + 1;
    }
    false
}

/// The domain field lost focus: the domain is taken and whatever was
/// fetched for the previous one is forgotten. Returns whether the domain
/// looks like one (holds a `.`), in which case its configuration is to be
/// fetched.
pub fn handle_domain_blur(state: &mut UiState, input_value: String) -> (fetch: bool)
    ensures
        *final(state) == (UiState {
            config: super::state::PluginConfig { domain: input_value, ..old(state).config },
            fetched_source_name: None,
            fetched_source_config: None,
            ..*old(state)
        }),
        fetch == has_dot(input_value@),
{
    let fetch = contains_dot(input_value.as_str());
    state.config.domain = input_value;
    state.fetched_source_name = None;
    state.fetched_source_config = None;
    fetch
}

/// The outcome of fetching a domain's configuration arrived: with a source
/// name, it is remembered (with the full configuration, if that came too)
/// and reported; without, everything fetched is forgotten and an error
/// shown.
pub fn apply_domain_config(state: &mut UiState, fetched: Option<(String, Option<Value>)>) -> (r:
    StatusChange)
    ensures
        fetched is None ==> {
            &&& *final(state) == (UiState {
                config: super::state::PluginConfig {
                    source_name: final(state).config.source_name,
                    ..old(state).config
                },
                fetched_source_name: None,
                fetched_source_config: None,
                current_status: final(state).current_status,
                ..*old(state)
            })
            &&& final(state).config.source_name@.len() == 0
            &&& final(state).current_status matches StatusState::Error(m) && m@
                == "无法获取漫画源配置，请检查域名是否正确。"@
        },
        fetched matches Some((name, config)) ==> {
            &&& *final(state) == (UiState {
                config: super::state::PluginConfig { source_name: name, ..old(state).config },
                fetched_source_name: Some(name),
                fetched_source_config: config,
                current_status: final(state).current_status,
                ..*old(state)
            })
            &&& final(state).current_status matches StatusState::Success(m) && m@ == "获取成功："@
                + name@
        },
        r.cancel_timer == old(state).status_timer_id,
        r.arm_hide_timer,
        r.root == old(state).root_element_id,
{
    proof {
        reveal_strlit("无法获取漫画源配置，请检查域名是否正确。");
        reveal_strlit("获取成功：");
    }
    match fetched {
        Some((name, config)) => {
            let msg = String::from_str("获取成功：").concat(name.as_str());
            state.fetched_source_name = Some(name.clone());
            state.config.source_name = name;
            state.fetched_source_config = config;
            show_status(state, StatusState::Success(msg))
        },
        None => {
            state.fetched_source_name = None;
            state.fetched_source_config = None;
            state.config.source_name = String::new();
            show_status(
                state,
                StatusState::Error(String::from_str("无法获取漫画源配置，请检查域名是否正确。")),
            )
        },
    }
}

/// The source name a sync uses: the one fetched for the domain, else the
/// one configured, when set.
pub open spec fn sync_source_name(s: UiState) -> Option<Seq<char>> {
    match s.fetched_source_name {
        Some(n) => Some(n@),
        None => if s.config.source_name@.len() > 0 {
            Some(s.config.source_name@)
        } else {
            None
        },
    }
}

/// How a sync starts.
pub enum SyncStart {
    /// The domain is empty: this error is shown.
    MissingDomain(String),
    /// No source name yet: it is to be fetched for the domain.
    FetchSourceName,
    /// Go ahead with this source name.
    Ready(String),
}

/// The sync button was pressed.
pub fn begin_sync(state: &UiState) -> (r: SyncStart)
    ensures
        state.config.domain@.len() == 0 ==> (r matches SyncStart::MissingDomain(m) && m@
            == "漫画源域名不能为空。"@),
        state.config.domain@.len() > 0 ==> match sync_source_name(*state) {
            Some(n) => r matches SyncStart::Ready(m) && m@ == n,
            None => r is FetchSourceName,
        },
{
    proof {
        reveal_strlit("");
        reveal_strlit("漫画源域名不能为空。");
    }
    if str_eq(state.config.domain.as_str(), "") {
        return SyncStart::MissingDomain(String::from_str("漫画源域名不能为空。"));
    }
    assert(state.config.domain@.len() > 0) by {
        if state.config.domain@.len() == 0 {
            assert(state.config.domain@ =~= ""@);
        }
    }
    match &state.fetched_source_name {
        Some(n) => SyncStart::Ready(n.clone()),
        None => {
            if str_eq(state.config.source_name.as_str(), "") {
                SyncStart::FetchSourceName
            } else {
                assert(state.config.source_name@.len() > 0) by {
                    if state.config.source_name@.len() == 0 {
                        assert(state.config.source_name@ =~= ""@);
                    }
                }
                SyncStart::Ready(state.config.source_name.clone())
            }
        },
    }
}

/// The source name fetched for a sync is remembered.
pub fn record_source_name(state: &mut UiState, name: String)
    ensures
        *final(state) == (UiState {
            config: super::state::PluginConfig { source_name: name, ..old(state).config },
            fetched_source_name: Some(name),
            ..*old(state)
        }),
{
    state.fetched_source_name = Some(name.clone());
    state.config.source_name = name;
}

/// What happened last while sending a sync to the watch.
#[derive(Debug, Clone, Copy, PartialEq, Eq, Structural)]
pub enum SyncEvent {
    /// The watch app is ready: sending starts.
    Start,
    /// The cookie message went out (`true`) or could not be sent.
    CookieSent(bool),
    /// The source configuration was fetched (`true`) or could not be.
    ConfigFetched(bool),
    /// The source configuration message went out (`true`) or could not be sent.
    ConfigSent(bool),
}

/// What to do next while sending a sync to the watch.
#[derive(Debug, Clone, Copy, PartialEq, Eq, Structural)]
pub enum SyncAction {
    /// Send the cookie for the source.
    SendCookie,
    /// There is no cookie to send: go on as after a sent cookie (answer
    /// with `CookieSent(true)`).
    SkipCookie,
    /// Fetch the source configuration for the domain (none is cached).
    FetchConfig,
    /// Send the source configuration (the cached one, or the one just fetched).
    SendConfig,
    /// The sync is over (the status line tells how).
    Finish,
}

/// The status kinds of the sync page, as the next step sets them.
#[derive(Debug, Clone, Copy, PartialEq, Eq, Structural)]
pub enum SyncStatusKind {
    Processing,
    Success,
    Error,
}

/// The step after `ev`, with a cookie to send (`has_cookie`) and a
/// configuration cached from the domain's fetch (`cached`): the action, and
/// the status line shown (its kind and text).
pub open spec fn sync_spec(has_cookie: bool, cached: bool, ev: SyncEvent) -> (SyncAction, SyncStatusKind, Seq<char>) {
    let to_config = if cached { SyncAction::SendConfig } else { SyncAction::FetchConfig };
    match ev {
        SyncEvent::Start => if has_cookie {
            (SyncAction::SendCookie, SyncStatusKind::Processing, "正在发送到手表..."@)
        } else {
            (SyncAction::SkipCookie, SyncStatusKind::Processing, "正在发送到手表..."@)
        },
        SyncEvent::CookieSent(ok) => if ok {
            (to_config, SyncStatusKind::Processing, "正在发送漫画源配置..."@)
        } else {
            (SyncAction::Finish, SyncStatusKind::Error, "Cookie 发送失败。"@)
        },
        SyncEvent::ConfigFetched(ok) => if ok {
            (SyncAction::SendConfig, SyncStatusKind::Processing, "正在发送漫画源配置..."@)
        } else {
            (SyncAction::Finish, SyncStatusKind::Success, "Cookie 已同步，但漫画源配置获取失败。"@)
        },
        SyncEvent::ConfigSent(ok) => if ok {
            (SyncAction::Finish, SyncStatusKind::Success, "同步成功！"@)
        } else {
            (SyncAction::Finish, SyncStatusKind::Error, "漫画源配置发送失败。"@)
        },
    }
}

/// The status line of a kind with a text.
pub open spec fn status_of(kind: SyncStatusKind, text: Seq<char>, st: StatusState) -> bool {
    match kind {
        SyncStatusKind::Processing => st matches StatusState::Processing(m) && m@ == text,
        SyncStatusKind::Success => st matches StatusState::Success(m) && m@ == text,
        SyncStatusKind::Error => st matches StatusState::Error(m) && m@ == text,
    }
}

/// The next step of sending a sync to the watch (once its app is ready):
/// the line that sending starts, the cookie first when there is one, then the source configuration (the
/// cached one, or fetched now), each failure ending the sync with its
/// status line. Shows the step's status line on the sync page and returns
/// the action with the status change.
pub fn sync_next(state: &mut UiState, cookie: &str, ev: SyncEvent) -> (r: (SyncAction, StatusChange))
    ensures
        *final(state) == (UiState { current_status: final(state).current_status, ..*old(state) }),
        r.0 == sync_spec(cookie@.len() > 0, old(state).fetched_source_config is Some, ev).0,
        status_of(
            sync_spec(cookie@.len() > 0, old(state).fetched_source_config is Some, ev).1,
            sync_spec(cookie@.len() > 0, old(state).fetched_source_config is Some, ev).2,
            final(state).current_status,
        ),
        r.1 == (StatusChange {
            cancel_timer: old(state).status_timer_id,
            arm_hide_timer: sync_spec(cookie@.len() > 0, old(state).fetched_source_config is Some, ev).1
                != SyncStatusKind::Processing,
            root: old(state).root_element_id,
        }),
{
    proof {
        reveal_strlit("");
    }
    let has_cookie = !str_eq(cookie, "");
    assert(has_cookie == (cookie@.len() > 0)) by {
        if cookie@.len() == 0 {
            assert(cookie@ =~= ""@);
        }
    }
    let cached = state.fetched_source_config.is_some();
    let to_config = if cached { SyncAction::SendConfig } else { SyncAction::FetchConfig };
    let (action, status) = match ev {
        SyncEvent::Start => if has_cookie {
            (SyncAction::SendCookie, StatusState::Processing(String::from_str("正在发送到手表...")))
        } else {
            (SyncAction::SkipCookie, StatusState::Processing(String::from_str("正在发送到手表...")))
        },
        SyncEvent::CookieSent(ok) => if ok {
            (to_config, StatusState::Processing(String::from_str("正在发送漫画源配置...")))
        } else {
            (SyncAction::Finish, StatusState::Error(String::from_str("Cookie 发送失败。")))
        },
        SyncEvent::ConfigFetched(ok) => if ok {
            (SyncAction::SendConfig, StatusState::Processing(String::from_str("正在发送漫画源配置...")))
        } else {
            (SyncAction::Finish, StatusState::Success(String::from_str("Cookie 已同步，但漫画源配置获取失败。")))
        },
        SyncEvent::ConfigSent(ok) => if ok {
            (SyncAction::Finish, StatusState::Success(String::from_str("同步成功！")))
        } else {
            (SyncAction::Finish, StatusState::Error(String::from_str("漫画源配置发送失败。")))
        },
    };
    let change = show_status(state, status);
    (action, change)
}

/// A sync sends the configuration before it reports success: whatever the
/// cookie and the cache, a configuration just fetched is sent next, a
/// cached one is sent right after the cookie step, and the success line
/// "同步成功！" comes only once the configuration was sent; a failed step
/// never reports that success.
pub proof fn law_sync_sends_config_before_success(has_cookie: bool, cached: bool, ev: SyncEvent)
    ensures
        sync_spec(has_cookie, cached, SyncEvent::ConfigFetched(true)).0 == SyncAction::SendConfig,
        cached ==> sync_spec(has_cookie, cached, SyncEvent::CookieSent(true)).0 == SyncAction::SendConfig,
        !cached ==> sync_spec(has_cookie, cached, SyncEvent::CookieSent(true)).0 == SyncAction::FetchConfig,
        sync_spec(has_cookie, cached, ev).1 == SyncStatusKind::Success && sync_spec(has_cookie, cached, ev).2
            == "同步成功！"@ ==> ev == SyncEvent::ConfigSent(true),
        sync_spec(has_cookie, cached, ev).0 == SyncAction::Finish ==> ev != SyncEvent::Start
            && ev != SyncEvent::CookieSent(true) && ev != SyncEvent::ConfigFetched(true),
{
    reveal_strlit("同步成功！");
    reveal_strlit("Cookie 已同步，但漫画源配置获取失败。");
    assert("Cookie 已同步，但漫画源配置获取失败。"@.len() != "同步成功！"@.len());
}

/// What deleting an entry of the data page finds.
pub enum DeleteTarget {
    /// The entry's name, to confirm and delete.
    Found(String),
    /// No such entry, or one without a name: this error is shown.
    NotFound(String),
}

/// The comic to delete at `index`.
pub fn comic_to_delete(comics: &Vec<ComicInfo>, index: usize) -> (r: DeleteTarget)
    ensures
        index < comics@.len() && comics@[index as int].name@.len() > 0 ==> (r matches DeleteTarget::Found(
            n,
        ) && n@ == comics@[index as int].name@),
        !(index < comics@.len() && comics@[index as int].name@.len() > 0) ==> (r matches DeleteTarget::NotFound(
            m,
        ) && m@ == "找不到该漫画信息。"@),
{
    proof {
        reveal_strlit("");
        reveal_strlit("找不到该漫画信息。");
    }
    if index < comics.len() && !str_eq(comics[index].name.as_str(), "") {
        assert(comics@[index as int].name@.len() > 0) by {
            if comics@[index as int].name@.len() == 0 {
                assert(comics@[index as int].name@ =~= ""@);
            }
        }
        DeleteTarget::Found(comics[index].name.clone())
    } else {
        DeleteTarget::NotFound(String::from_str("找不到该漫画信息。"))
    }
}

/// The comic source to delete at `index`.
pub fn source_to_delete(sources: &Vec<SourceInfo>, index: usize) -> (r: DeleteTarget)
    ensures
        index < sources@.len() && sources@[index as int].name@.len() > 0 ==> (r matches DeleteTarget::Found(
            n,
        ) && n@ == sources@[index as int].name@),
        !(index < sources@.len() && sources@[index as int].name@.len() > 0) ==> (r matches DeleteTarget::NotFound(
            m,
        ) && m@ == "找不到该漫画源信息。"@),
{
    proof {
        reveal_strlit("");
        reveal_strlit("找不到该漫画源信息。");
    }
    if index < sources.len() && !str_eq(sources[index].name.as_str(), "") {
        assert(sources@[index as int].name@.len() > 0) by {
            if sources@[index as int].name@.len() == 0 {
                assert(sources@[index as int].name@ =~= ""@);
            }
        }
        DeleteTarget::Found(sources[index].name.clone())
    } else {
        DeleteTarget::NotFound(String::from_str("找不到该漫画源信息。"))
    }
}

/// The confirmation dialog for deleting a comic: (title, text).
pub fn delete_comic_dialog(name: &str) -> (r: (String, String))
    ensures
        r.0@ == "确认删除《"@ + name@ + "》"@,
        r.1@ == "此操作将删除该漫画的所有本地文件，不可恢复。"@,
{
    (
        String::from_str("确认删除《").concat(name).concat("》"),
        String::from_str("此操作将删除该漫画的所有本地文件，不可恢复。"),
    )
}

/// The confirmation dialog for deleting a comic source: (title, text).
pub fn delete_source_dialog(name: &str) -> (r: (String, String))
    ensures
        r.0@ == "确认删除漫画源「"@ + name@ + "」"@,
        r.1@ == "删除后需重新同步才能恢复，确定要删除吗？"@,
{
    (
        String::from_str("确认删除漫画源「").concat(name).concat("」"),
        String::from_str("删除后需重新同步才能恢复，确定要删除吗？"),
    )
}

/// The watch confirmed deleting comic `name` at `index`: the entry goes
/// (when the index is still valid, and the count follows the list) and
/// success is shown.
pub fn on_comic_deleted(state: &mut UiState, index: usize, name: &str) -> (r: StatusChange)
    ensures
        index < old(state).app_comics@.len() ==> {
            &&& final(state).app_comics@ == old(state).app_comics@.remove(index as int)
            &&& final(state).app_comic_count == Some((old(state).app_comics@.len() - 1) as usize)
        },
        index >= old(state).app_comics@.len() ==> final(state).app_comics == old(state).app_comics
            && final(state).app_comic_count == old(state).app_comic_count,
        *final(state) == (UiState {
            app_comics: final(state).app_comics,
            app_comic_count: final(state).app_comic_count,
            app_data_status: final(state).app_data_status,
            ..*old(state)
        }),
        final(state).app_data_status matches StatusState::Success(m) && m@ == "已删除: "@ + name@,
        r.cancel_timer == old(state).app_data_timer_id,
        r.arm_hide_timer,
        r.root == old(state).root_element_id,
{
    if index < state.app_comics.len() {
        let _ = state.app_comics.remove(index);
        state.app_comic_count = Some(state.app_comics.len());
    }
    show_app_data_status(state, StatusState::Success(String::from_str("已删除: ").concat(name)))
}

/// The watch confirmed deleting comic source `name` at `index`: the entry
/// goes (when the index is still valid, and the count follows the list) and
/// success is shown.
pub fn on_source_deleted(state: &mut UiState, index: usize, name: &str) -> (r: StatusChange)
    ensures
        index < old(state).app_sources@.len() ==> {
            &&& final(state).app_sources@ == old(state).app_sources@.remove(index as int)
            &&& final(state).app_source_count == Some((old(state).app_sources@.len() - 1) as usize)
        },
        index >= old(state).app_sources@.len() ==> final(state).app_sources == old(state).app_sources
            && final(state).app_source_count == old(state).app_source_count,
        *final(state) == (UiState {
            app_sources: final(state).app_sources,
            app_source_count: final(state).app_source_count,
            app_data_status: final(state).app_data_status,
            ..*old(state)
        }),
        final(state).app_data_status matches StatusState::Success(m) && m@ == "已删除漫画源: "@
            + name@,
        r.cancel_timer == old(state).app_data_timer_id,
        r.arm_hide_timer,
        r.root == old(state).root_element_id,
{
    if index < state.app_sources.len() {
        let _ = state.app_sources.remove(index);
        state.app_source_count = Some(state.app_sources.len());
    }
    show_app_data_status(
        state,
        StatusState::Success(String::from_str("已删除漫画源: ").concat(name)),
    )
}

/// The progress line while deleting a comic.
pub fn deleting_comic_text(name: &str) -> (s: String)
    ensures
        s@ == "正在删除: "@ + name@ + "..."@,
{
    String::from_str("正在删除: ").concat(name).concat("...")
}

/// The progress line while deleting a comic source.
pub fn deleting_source_text(name: &str) -> (s: String)
    ensures
        s@ == "正在删除漫画源: "@ + name@ + "..."@,
{
    String::from_str("正在删除漫画源: ").concat(name).concat("...")
}

} // verus!
