//! Receiving the watch app's data: the list header, comics, sources and
//! cover chunks, in whatever order the phone delivers them; and the status
//! lines with their auto-hide timers.

use vstd::prelude::*;
use vstd::string::StringExecFns;

use super::message::copy_opt_string;
use super::state::{
    field, field_of, read_text, read_u64_or, text_or_empty, u64_or, ComicInfo,
    JsonScalar, SourceInfo, StatusState, UiState,
};
use crate::seqs::{
    find_key, first_index, string_views, keyed, keys_unique, lemma_first_index_at, lemma_first_index_found,
    lemma_first_index_none, lemma_keys_unique_push, lemma_keys_unique_remove,
    lemma_keys_unique_update,
};
use crate::text::{decimal, decimal_string, str_eq};

verus! {

/// How long the whole list transfer may take.
pub const APP_DATA_RECV_TIMEOUT_MS: u64 = 20_000;

/// How long the cover transfer may take once the lists are in.
pub const COVER_RECV_TIMEOUT_MS: u64 = 30_000;

/// Covers that found no comic are dropped after this many seconds.
pub const PENDING_COVER_TTL_SECS: u64 = 30;

/// Delay before the sync page's success or error line hides itself.
pub const STATUS_HIDE_MS: u64 = 3000;

/// Delay before the upload and data pages' success or error lines hide
/// themselves.
pub const PAGE_STATUS_HIDE_MS: u64 = 5000;

/// What showing a status line asks of the caller: cancel the running hide
/// timer, arm a new one (and record its id), and re-render the root.
#[derive(Debug)]
pub struct StatusChange {
    pub cancel_timer: Option<u64>,
    pub arm_hide_timer: bool,
    pub root: Option<String>,
}

/// Shows a status on the sync page.
pub fn show_status(state: &mut UiState, status: StatusState) -> (r: StatusChange)
    ensures
        *final(state) == (UiState { current_status: status, ..*old(state) }),
        r.cancel_timer == old(state).status_timer_id,
        r.arm_hide_timer == status.spec_auto_hides(),
        r.root == old(state).root_element_id,
{
    let cancel_timer = state.status_timer_id;
    let arm_hide_timer = status.auto_hides();
    state.current_status = status;
    StatusChange { cancel_timer, arm_hide_timer, root: copy_opt_string(&state.root_element_id) }
}

/// Shows a status on the upload page.
pub fn show_upload_status(state: &mut UiState, status: StatusState) -> (r: StatusChange)
    ensures
        *final(state) == (UiState { upload_status: status, ..*old(state) }),
        r.cancel_timer == old(state).upload_status_timer_id,
        r.arm_hide_timer == status.spec_auto_hides(),
        r.root == old(state).root_element_id,
{
    let cancel_timer = state.upload_status_timer_id;
    let arm_hide_timer = status.auto_hides();
    state.upload_status = status;
    StatusChange { cancel_timer, arm_hide_timer, root: copy_opt_string(&state.root_element_id) }
}

/// Shows a status on the data page.
pub fn show_app_data_status(state: &mut UiState, status: StatusState) -> (r: StatusChange)
    ensures
        *final(state) == (UiState { app_data_status: status, ..*old(state) }),
        r.cancel_timer == old(state).app_data_timer_id,
        r.arm_hide_timer == status.spec_auto_hides(),
        r.root == old(state).root_element_id,
{
    let cancel_timer = state.app_data_timer_id;
    let arm_hide_timer = status.auto_hides();
    state.app_data_status = status;
    StatusChange { cancel_timer, arm_hide_timer, root: copy_opt_string(&state.root_element_id) }
}

/// A comic entry not filled in yet.
pub open spec fn is_blank_comic(c: ComicInfo) -> bool {
    c.name@.len() == 0 && c.page_count == 0 && c.chapters == 0 && c.cover_base64@.len() == 0
}

/// A source entry not filled in yet.
pub open spec fn is_blank_source(s: SourceInfo) -> bool {
    s.name@.len() == 0 && s.api_url@.len() == 0
}

/// `after` is `before` grown to at least `n` entries, the new ones blank.
pub open spec fn grown<T>(before: Seq<T>, after: Seq<T>, n: int, blank: spec_fn(T) -> bool) -> bool {
    &&& after.len() == if before.len() < n {
        n
    } else {
        before.len() as int
    }
    &&& forall|k: int| 0 <= k < before.len() ==> after[k] == before[k]
    &&& forall|k: int| before.len() <= k < after.len() ==> blank(#[trigger] after[k])
}

/// `after` is `before` grown to hold position `index`, the new entries
/// blank, with position `index` replaced.
pub open spec fn placed<T>(before: Seq<T>, after: Seq<T>, index: int, blank: spec_fn(T) -> bool) -> bool {
    &&& after.len() == if before.len() <= index {
        index + 1
    } else {
        before.len() as int
    }
    &&& forall|k: int| 0 <= k < before.len() && k != index ==> after[k] == before[k]
    &&& forall|k: int| before.len() <= k < after.len() && k != index ==> blank(#[trigger] after[k])
}

pub open spec fn blank_comic() -> spec_fn(ComicInfo) -> bool {
    |c: ComicInfo| is_blank_comic(c)
}

pub open spec fn blank_source() -> spec_fn(SourceInfo) -> bool {
    |s: SourceInfo| is_blank_source(s)
}

fn grow_comics(v: &mut Vec<ComicInfo>, n: usize)
    ensures
        grown(old(v)@, final(v)@, n as int, blank_comic()),
{
    while v.len() < n
        invariant
            grown(old(v)@, v@, v@.len() as int, blank_comic()),
            v@.len() >= old(v)@.len(),
            v@.len() == old(v)@.len() || v@.len() <= n,
        decreases n - v.len(),
    {
        v.push(ComicInfo::default());
    }
}

fn grow_sources(v: &mut Vec<SourceInfo>, n: usize)
    ensures
        grown(old(v)@, final(v)@, n as int, blank_source()),
{
    while v.len() < n
        invariant
            grown(old(v)@, v@, v@.len() as int, blank_source()),
            v@.len() >= old(v)@.len(),
            v@.len() == old(v)@.len() || v@.len() <= n,
        decreases n - v.len(),
    {
        v.push(SourceInfo::default());
    }
}

/// The state after the list header announcing the given counts.
pub open spec fn header_applied(s0: UiState, s1: UiState, comic_count: usize, source_count: usize) -> bool {
    &&& s1 == (UiState {
        app_comic_count: Some(comic_count),
        app_source_count: Some(source_count),
        app_comics: s1.app_comics,
        app_sources: s1.app_sources,
        app_data_status: s1.app_data_status,
        ..s0
    })
    &&& grown(s0.app_comics@, s1.app_comics@, comic_count as int, blank_comic())
    &&& grown(s0.app_sources@, s1.app_sources@, source_count as int, blank_source())
    &&& s1.app_data_status matches StatusState::Processing(m) && m@ == "接收中..."@
}

/// The list header arrived: it announces how many comics and sources
/// follow. Entries that arrived before it stay; the lists only grow to the
/// announced sizes. The caller acknowledges the header as message 0.
pub fn on_app_data_header(state: &mut UiState, comic_count: usize, source_count: usize)
    ensures
        header_applied(*old(state), *final(state), comic_count, source_count),
{
    state.app_comic_count = Some(comic_count);
    state.app_source_count = Some(source_count);
    grow_comics(&mut state.app_comics, comic_count);
    grow_sources(&mut state.app_sources, source_count);
    state.app_data_status = StatusState::Processing(String::from_str("接收中..."));
    proof {
        reveal_strlit("接收中...");
    }
}

/// The progress line `"{label}{index + 1}/{count}"`.
pub open spec fn progress_text(label: Seq<char>, index: nat, count: Option<usize>) -> Seq<char> {
    label + decimal(index + 1) + "/"@ + decimal(
        match count {
            Some(c) => c as nat,
            None => 0,
        },
    )
}

fn progress_line(label: &str, index: usize, count: Option<usize>) -> (s: String)
    requires
        index < usize::MAX,
    ensures
        s@ == progress_text(label@, index as nat, count),
{
    let c: usize = match count {
        Some(c) => c,
        None => 0,
    };
    let s = String::from_str(label);
    let s = s.concat(decimal_string((index + 1) as u64).as_str());
    let s = s.concat("/");
    let s = s.concat(decimal_string(c as u64).as_str());
    proof {
        reveal_strlit("/");
    }
    s
}

/// Whether a comic entry carries the given name.
pub open spec fn comic_named(name: Seq<char>) -> spec_fn(ComicInfo) -> bool {
    |c: ComicInfo| c.name@ == name
}

/// The comic entry a `app_data_comic` message describes.
pub open spec fn comic_entry_ok(c: ComicInfo, comic: JsonScalar, cover: Seq<char>) -> bool {
    &&& c.name@ == text_or_empty(field(comic, "name"@))
    &&& c.page_count == u64_or(field(comic, "page_count"@), 0) as usize
    &&& c.chapters == u64_or(field(comic, "chapters"@), 1) as usize
    &&& c.cover_base64@ == cover
}

/// The cover waiting for a comic of the given name, or the empty text.
pub open spec fn pending_cover_for(pending: Seq<(String, (String, u64))>, name: Seq<char>) -> Seq<
    char,
> {
    match first_index(pending, keyed(name)) {
        Some(i) => pending[i].1.0@,
        None => Seq::empty(),
    }
}

/// `pending` without the cover waiting for the given name.
pub open spec fn pending_without(pending: Seq<(String, (String, u64))>, name: Seq<char>) -> Seq<
    (String, (String, u64)),
> {
    match first_index(pending, keyed(name)) {
        Some(i) => pending.remove(i),
        None => pending,
    }
}

/// The member handed over, if any.
pub open spec fn opt_scalar(x: Option<&JsonScalar>) -> Option<JsonScalar> {
    match x {
        Some(v) => Some(*v),
        None => None,
    }
}

/// The state after a comic entry for position `index` (nothing happens
/// when the message has no `comic` member).
pub open spec fn comic_applied(s0: UiState, s1: UiState, index: usize, comic: Option<JsonScalar>) -> bool {
    match comic {
        None => s1 == s0,
        Some(c) => {
            let name = text_or_empty(field(c, "name"@));
            &&& s1 == (UiState {
                app_comics: s1.app_comics,
                pending_covers: s1.pending_covers,
                app_data_status: s1.app_data_status,
                ..s0
            })
            &&& placed(s0.app_comics@, s1.app_comics@, index as int, blank_comic())
            &&& comic_entry_ok(
                s1.app_comics@[index as int],
                c,
                pending_cover_for(s0.pending_covers@, name),
            )
            &&& s1.pending_covers@ == pending_without(s0.pending_covers@, name)
            &&& keys_unique(s0.pending_covers@) ==> keys_unique(s1.pending_covers@)
            &&& s1.app_data_status matches StatusState::Processing(m) && m@ == progress_text(
                "接收漫画 "@,
                index as nat,
                s0.app_comic_count,
            )
        },
    }
}

/// A comic entry (`app_data_comic`, the `comic` member of the message)
/// arrived for position `index`. The list grows to hold it; a cover that
/// arrived before the entry is attached to it. The caller acknowledges the
/// message as number `index + 1`, which this returns.
pub fn on_app_data_comic(state: &mut UiState, index: usize, comic: Option<&JsonScalar>) -> (ack:
    usize)
    requires
        index < usize::MAX,
    ensures
        old(state).maps_wf() ==> final(state).maps_wf(),
        ack == index + 1,
        comic_applied(*old(state), *final(state), index, opt_scalar(comic)),
{
    if let Some(c) = comic {
        let name = read_text(field_of(Some(c), "name"));
        let page_count = read_u64_or(field_of(Some(c), "page_count"), 0);
        let chapters = read_u64_or(field_of(Some(c), "chapters"), 1);
        let mut cover = String::new();
        match find_key(&state.pending_covers, name.as_str()) {
            Some(i) => {
                proof {
                    lemma_first_index_found(state.pending_covers@, keyed(name@));
                    if keys_unique(state.pending_covers@) {
                        lemma_keys_unique_remove(state.pending_covers@, i as int);
                    }
                }
                let (_, (c0, _)) = state.pending_covers.remove(i);
                cover = c0;
            },
            None => {},
        }
        let info = ComicInfo {
            name,
            page_count: #[verifier::truncate] (page_count as usize),
            chapters: #[verifier::truncate] (chapters as usize),
            cover_base64: cover,
        };
        let ghost before = state.app_comics@;
        grow_comics(&mut state.app_comics, index + 1);
        let ghost grown_list = state.app_comics@;
        state.app_comics.set(index, info);
        state.app_data_status = StatusState::Processing(
            progress_line("接收漫画 ", index, state.app_comic_count),
        );
    }
    index + 1
}

/// The source entry a `app_data_source` message describes.
pub open spec fn source_entry_ok(e: SourceInfo, source: JsonScalar) -> bool {
    &&& e.name@ == text_or_empty(field(source, "name"@))
    &&& e.api_url@ == text_or_empty(field(source, "apiUrl"@))
}

/// The number of comics announced, or 0 before the header.
pub open spec fn count_or_zero(c: Option<usize>) -> nat {
    match c {
        Some(n) => n as nat,
        None => 0,
    }
}

/// The state after a source entry for position `index` (nothing happens
/// when the message has no `source` member).
pub open spec fn source_applied(s0: UiState, s1: UiState, index: usize, source: Option<JsonScalar>) -> bool {
    match source {
        None => s1 == s0,
        Some(x) => {
            &&& s1 == (UiState { app_sources: s1.app_sources, app_data_status: s1.app_data_status, ..s0 })
            &&& placed(s0.app_sources@, s1.app_sources@, index as int, blank_source())
            &&& source_entry_ok(s1.app_sources@[index as int], x)
            &&& s1.app_data_status matches StatusState::Processing(m) && m@ == progress_text(
                "接收漫画源 "@,
                index as nat,
                s0.app_source_count,
            )
        },
    }
}

/// A source entry (`app_data_source`, the `source` member of the message)
/// arrived for position `index`. The list grows to hold it. The caller
/// acknowledges the message as number `1 + comics + index` (the header and
/// the announced comics come first), which this returns.
pub fn on_app_data_source(state: &mut UiState, index: usize, source: Option<&JsonScalar>) -> (ack:
    usize)
    requires
        1 + count_or_zero(old(state).app_comic_count) + index <= usize::MAX,
    ensures
        ack == 1 + count_or_zero(old(state).app_comic_count) + index,
        source_applied(*old(state), *final(state), index, opt_scalar(source)),
{
    if let Some(x) = source {
        let info = SourceInfo {
            name: read_text(field_of(Some(x), "name")),
            api_url: read_text(field_of(Some(x), "apiUrl")),
        };
        grow_sources(&mut state.app_sources, index + 1);
        state.app_sources.set(index, info);
        state.app_data_status = StatusState::Processing(
            progress_line("接收漫画源 ", index, state.app_source_count),
        );
    }
    let comics: usize = match state.app_comic_count {
        Some(n) => n,
        None => 0,
    };
    1 + comics + index
}

/// What to do with the overall receive timeout.
pub enum RecvTimer {
    /// (Re)arm it with this many milliseconds.
    Arm(u64),
    Disarm,
}

/// The state once the lists are complete.
pub open spec fn done_applied(s0: UiState, s1: UiState) -> bool {
    &&& s1 == (UiState { app_data_status: s1.app_data_status, ..s0 })
    &&& count_or_zero(s0.app_comic_count) > 0 ==> (s1.app_data_status matches StatusState::Processing(
        m,
    ) && m@ == "正在接收封面..."@)
    &&& count_or_zero(s0.app_comic_count) == 0 ==> (s1.app_data_status matches StatusState::Success(
        m,
    ) && m@ == "数据获取成功！"@)
}

/// The receive timeout once the lists are complete: armed for the covers
/// when comics were announced, otherwise disarmed.
pub open spec fn done_timer(s0: UiState) -> RecvTimer {
    if count_or_zero(s0.app_comic_count) > 0 {
        RecvTimer::Arm(COVER_RECV_TIMEOUT_MS)
    } else {
        RecvTimer::Disarm
    }
}

/// The lists are complete (`app_data_done`). With comics announced the
/// covers come next, under a fresh timeout; with none the fetch is over.
/// Returns the message number to acknowledge (`1 + comics + sources`) and
/// what to do with the receive timeout.
pub fn on_app_data_done(state: &mut UiState) -> (r: (usize, RecvTimer))
    requires
        1 + count_or_zero(old(state).app_comic_count) + count_or_zero(old(state).app_source_count)
            <= usize::MAX,
    ensures
        done_applied(*old(state), *final(state)),
        r.0 == 1 + count_or_zero(old(state).app_comic_count) + count_or_zero(
            old(state).app_source_count,
        ),
        r.1 == done_timer(*old(state)),
{
    let comics: usize = match state.app_comic_count {
        Some(n) => n,
        None => 0,
    };
    let sources: usize = match state.app_source_count {
        Some(n) => n,
        None => 0,
    };
    proof {
        reveal_strlit("正在接收封面...");
        reveal_strlit("数据获取成功！");
    }
    let timer = if comics > 0 {
        state.app_data_status = StatusState::Processing(String::from_str("正在接收封面..."));
        RecvTimer::Arm(COVER_RECV_TIMEOUT_MS)
    } else {
        state.app_data_status = StatusState::Success(String::from_str("数据获取成功！"));
        RecvTimer::Disarm
    };
    (1 + comics + sources, timer)
}

/// All covers are in (`cover_done`): the fetch succeeded. The caller
/// disarms the receive timeout and applies the status change.
pub fn on_cover_done(state: &mut UiState) -> (r: StatusChange)
    ensures
        final(state).app_data_status matches StatusState::Success(m) && m@ == "数据获取成功！"@,
        *final(state) == (UiState { app_data_status: final(state).app_data_status, ..*old(state) }),
        r.cancel_timer == old(state).app_data_timer_id,
        r.arm_hide_timer,
        r.root == old(state).root_element_id,
{
    proof {
        reveal_strlit("数据获取成功！");
    }
    show_app_data_status(state, StatusState::Success(String::from_str("数据获取成功！")))
}

/// Whether some comic entry is filled in.
pub open spec fn any_named(comics: Seq<ComicInfo>) -> bool {
    exists|k: int| 0 <= k < comics.len() && #[trigger] comics[k].name@.len() > 0
}

fn has_named_comic(comics: &Vec<ComicInfo>) -> (r: bool)
    ensures
        r == any_named(comics@),
{
    let mut i: usize = 0;
    while i < comics.len()
        invariant
            i <= comics@.len(),
            forall|k: int| 0 <= k < i ==> #[trigger] comics@[k].name@.len() == 0,
        decreases comics.len() - i,
    {
        proof {
            reveal_strlit("");
        }
        if !str_eq(comics[i].name.as_str(), "") {
            assert(comics@[i as int].name@.len() > 0) by {
                if comics@[i as int].name@.len() == 0 {
                    assert(comics@[i as int].name@ =~= ""@);
                }
            }
            return true;
        }
        i = i + 1;
    }
    false
}

/// The overall receive timeout fired. A fetch still in progress ends: as a
/// success when some comic arrived (covers may be missing), as an error
/// otherwise. A finished fetch is left alone (`None`).
pub fn handle_app_data_recv_timeout(state: &mut UiState) -> (r: Option<StatusChange>)
    ensures
        !(old(state).app_data_status is Processing) ==> r is None && *final(state) == *old(state),
        old(state).app_data_status is Processing ==> {
            &&& *final(state) == (UiState {
                app_data_status: final(state).app_data_status,
                ..*old(state)
            })
            &&& any_named(old(state).app_comics@) ==> (final(state).app_data_status matches StatusState::Success(m)
                && m@ == "数据获取完成（封面可能不完整）"@)
            &&& !any_named(old(state).app_comics@) ==> (final(state).app_data_status matches StatusState::Error(m)
                && m@ == "接收超时，请重试。"@)
            &&& r matches Some(c) && c.cancel_timer == old(state).app_data_timer_id && c.arm_hide_timer
                && c.root == old(state).root_element_id
        },
{
    if let StatusState::Processing(_) = &state.app_data_status {
        proof {
            reveal_strlit("数据获取完成（封面可能不完整）");
            reveal_strlit("接收超时，请重试。");
        }
        let status = if has_named_comic(&state.app_comics) {
            StatusState::Success(String::from_str("数据获取完成（封面可能不完整）"))
        } else {
            StatusState::Error(String::from_str("接收超时，请重试。"))
        };
        Some(show_app_data_status(state, status))
    } else {
        None
    }
}

/// A waiting cover stamped at most `PENDING_COVER_TTL_SECS` ago (a stamp
/// later than `now` does not count as recent).
pub open spec fn cover_still_fresh(now: u64) -> spec_fn((String, (String, u64))) -> bool {
    |e: (String, (String, u64))| e.1.1 <= now && now - e.1.1 < PENDING_COVER_TTL_SECS
}

/// A new fetch starts: the lists, counts and cover chunks of the last one
/// are dropped, and so are waiting covers older than the time limit.
pub fn reset_app_data(state: &mut UiState, now_secs: u64)
    ensures
        old(state).maps_wf() ==> final(state).maps_wf(),
        *final(state) == (UiState {
            app_comics: final(state).app_comics,
            app_sources: final(state).app_sources,
            app_comic_count: None,
            app_source_count: None,
            cover_chunk_buffers: final(state).cover_chunk_buffers,
            pending_covers: final(state).pending_covers,
            ..*old(state)
        }),
        final(state).app_comics@.len() == 0,
        final(state).app_sources@.len() == 0,
        final(state).cover_chunk_buffers@.len() == 0,
        final(state).pending_covers@ == old(state).pending_covers@.filter(cover_still_fresh(now_secs)),
        keys_unique(old(state).pending_covers@) ==> keys_unique(final(state).pending_covers@),
{
    state.app_comics = Vec::new();
    state.app_sources = Vec::new();
    state.app_comic_count = None;
    state.app_source_count = None;
    state.cover_chunk_buffers = Vec::new();
    let mut src: Vec<(String, (String, u64))> = Vec::new();
    std::mem::swap(&mut src, &mut state.pending_covers);
    let ghost orig = src@;
    let count = src.len();
    let ghost p = cover_still_fresh(now_secs);
    let mut kept: Vec<(String, (String, u64))> = Vec::new();
    let mut i: usize = 0;
    assert(orig.take(0).filter(p) =~= Seq::<(String, (String, u64))>::empty()) by {
        reveal(Seq::filter);
    }
    while src.len() > 0
        invariant
            i <= orig.len(),
            p == cover_still_fresh(now_secs),
            orig.len() == count,
            src@ == orig.skip(i as int),
            kept@ == orig.take(i as int).filter(p),
            forall|a: int|
                0 <= a < kept@.len() ==> exists|k: int|
                    0 <= k < i && #[trigger] orig[k] == #[trigger] kept@[a],
            keys_unique(orig) ==> keys_unique(kept@),
        decreases src.len(),
    {
        assert(i < orig.len());
        let e = src.remove(0);
        assert(e == orig[i as int]);
        assert(src@ =~= orig.skip(i + 1));
        let ghost before = kept@;
        assert(orig.take(i + 1).drop_last() =~= orig.take(i as int));
        assert(orig.take(i + 1).last() == orig[i as int]);
        proof {
            reveal(Seq::filter);
        }
        if e.1.1 <= now_secs && now_secs - e.1.1 < PENDING_COVER_TTL_SECS {
            assert(p(e));
            assert(orig.take(i + 1).filter(p) == before.push(e));
            kept.push(e);
            proof {
                assert forall|a: int| 0 <= a < kept@.len() implies exists|k: int|
                    0 <= k < i + 1 && #[trigger] orig[k] == #[trigger] kept@[a] by {
                    if a < before.len() {
                        assert(kept@[a] == before[a]);
                        let k = choose|k: int| 0 <= k < i && #[trigger] orig[k] == before[a];
                        assert(orig[k] == kept@[a]);
                    } else {
                        assert(orig[i as int] == kept@[a]);
                    }
                }
                if keys_unique(orig) {
                    assert forall|a: int, b: int| 0 <= a < b < kept@.len() implies #[trigger] kept@[a].0@
                        != #[trigger] kept@[b].0@ by {
                        if b < before.len() {
                            assert(kept@[a] == before[a]);
                            assert(kept@[b] == before[b]);
                        } else {
                            assert(kept@[a] == before[a]);
                            let k = choose|k: int| 0 <= k < i && #[trigger] orig[k] == before[a];
                            assert(orig[k].0@ != orig[i as int].0@);
                        }
                    }
                }
            }
        } else {
            assert(!p(e));
            assert(orig.take(i + 1).filter(p) == before);
            assert forall|a: int| 0 <= a < kept@.len() implies exists|k: int|
                0 <= k < i + 1 && #[trigger] orig[k] == #[trigger] kept@[a] by {
                let k = choose|k: int| 0 <= k < i && #[trigger] orig[k] == kept@[a];
                assert(orig[k] == kept@[a]);
            }
        }
        i = i + 1;
    }
    assert(orig.take(i as int) =~= orig);
    state.pending_covers = kept;
}

/// The data page's line while a fetch starts.
pub open spec fn fetching_text() -> Seq<char> {
    "正在获取快应用数据..."@
}

/// A data fetch starts (the data page's fetch button): the page shows that
/// it is fetching, and the last fetch's data are reset (see
/// `reset_app_data`).
pub fn begin_fetch_app_data(state: &mut UiState, now_secs: u64) -> (r: StatusChange)
    ensures
        old(state).maps_wf() ==> final(state).maps_wf(),
        *final(state) == (UiState {
            app_comics: final(state).app_comics,
            app_sources: final(state).app_sources,
            app_comic_count: None,
            app_source_count: None,
            cover_chunk_buffers: final(state).cover_chunk_buffers,
            pending_covers: final(state).pending_covers,
            app_data_status: final(state).app_data_status,
            ..*old(state)
        }),
        final(state).app_data_status matches StatusState::Processing(m) && m@ == fetching_text(),
        final(state).app_comics@.len() == 0,
        final(state).app_sources@.len() == 0,
        final(state).cover_chunk_buffers@.len() == 0,
        final(state).pending_covers@ == old(state).pending_covers@.filter(cover_still_fresh(now_secs)),
        r == (StatusChange {
            cancel_timer: old(state).app_data_timer_id,
            arm_hide_timer: false,
            root: old(state).root_element_id,
        }),
{
    let r = show_app_data_status(state, StatusState::Processing(String::from_str("正在获取快应用数据...")));
    reset_app_data(state, now_secs);
    r
}

/// The data request went to the watch app (`sent`), or could not be sent:
/// the page waits for the data (the caller arms the receive timeout), or
/// shows the failure.
pub fn app_data_request_sent(state: &mut UiState, sent: bool) -> (r: StatusChange)
    ensures
        *final(state) == (UiState { app_data_status: final(state).app_data_status, ..*old(state) }),
        sent ==> (final(state).app_data_status matches StatusState::Processing(m) && m@
            == "等待手表返回数据..."@),
        !sent ==> (final(state).app_data_status matches StatusState::Error(m) && m@
            == "发送请求失败，请检查连接。"@),
        r == (StatusChange {
            cancel_timer: old(state).app_data_timer_id,
            arm_hide_timer: !sent,
            root: old(state).root_element_id,
        }),
{
    if sent {
        show_app_data_status(state, StatusState::Processing(String::from_str("等待手表返回数据...")))
    } else {
        show_app_data_status(state, StatusState::Error(String::from_str("发送请求失败，请检查连接。")))
    }
}

/// `vs` cut or padded with empty chunks to `n` chunks.
pub open spec fn resized(vs: Seq<Seq<char>>, n: nat) -> Seq<Seq<char>> {
    if vs.len() >= n {
        vs.take(n as int)
    } else {
        vs + Seq::new((n - vs.len()) as nat, |_i: int| Seq::<char>::empty())
    }
}

/// The chunks collected so far for the cover of `name`.
pub open spec fn buffer_views(buffers: Seq<(String, (usize, Vec<String>))>, name: Seq<char>) -> Seq<
    Seq<char>,
> {
    match first_index(buffers, keyed(name)) {
        Some(i) => string_views(buffers[i].1.1@),
        None => Seq::empty(),
    }
}

/// The chunks of the cover of `name` once chunk `index` of `total` arrived.
pub open spec fn chunks_after(
    buffers: Seq<(String, (usize, Vec<String>))>,
    name: Seq<char>,
    index: int,
    total: nat,
    data: Seq<char>,
) -> Seq<Seq<char>> {
    resized(buffer_views(buffers, name), total).update(index, data)
}

/// Every chunk has arrived.
pub open spec fn all_filled(vs: Seq<Seq<char>>) -> bool {
    forall|k: int| 0 <= k < vs.len() ==> #[trigger] vs[k].len() > 0
}

/// A completed cover went to the first comic of its name, or, with no such
/// comic yet, waits for it, stamped with `now` (replacing a cover waiting
/// under the same name).
pub open spec fn cover_stored(
    comics0: Seq<ComicInfo>,
    comics1: Seq<ComicInfo>,
    pend0: Seq<(String, (String, u64))>,
    pend1: Seq<(String, (String, u64))>,
    name: Seq<char>,
    cover: Seq<char>,
    now: u64,
) -> bool {
    match first_index(comics0, comic_named(name)) {
        Some(j) => {
            &&& comics1 == comics0.update(j, comics1[j])
            &&& comics1[j] == (ComicInfo { cover_base64: comics1[j].cover_base64, ..comics0[j] })
            &&& comics1[j].cover_base64@ == cover
            &&& pend1 == pend0
        },
        None => {
            &&& comics1 == comics0
            &&& match first_index(pend0, keyed(name)) {
                Some(p) => {
                    &&& pend1 == pend0.update(p, pend1[p])
                    &&& pend1[p].0@ == name
                    &&& pend1[p].1.0@ == cover
                    &&& pend1[p].1.1 == now
                },
                None => {
                    &&& pend1.drop_last() == pend0
                    &&& pend1.len() == pend0.len() + 1
                    &&& pend1.last().0@ == name
                    &&& pend1.last().1.0@ == cover
                    &&& pend1.last().1.1 == now
                },
            }
        },
    }
}

/// The chunks of an unfinished cover are kept under its name (a new entry
/// records the announced total).
pub open spec fn buffer_stored(
    b0: Seq<(String, (usize, Vec<String>))>,
    b1: Seq<(String, (usize, Vec<String>))>,
    name: Seq<char>,
    vs: Seq<Seq<char>>,
    total: usize,
) -> bool {
    match first_index(b0, keyed(name)) {
        Some(i) => {
            &&& b1 == b0.update(i, b1[i])
            &&& b1[i].0@ == name
            &&& b1[i].1.0 == b0[i].1.0
            &&& string_views(b1[i].1.1@) == vs
        },
        None => {
            &&& b1.drop_last() == b0
            &&& b1.len() == b0.len() + 1
            &&& b1.last().0@ == name
            &&& b1.last().1.0 == total
            &&& string_views(b1.last().1.1@) == vs
        },
    }
}

fn resize_chunks(v: &mut Vec<String>, n: usize)
    ensures
        string_views(final(v)@) == resized(string_views(old(v)@), n as nat),
{
    if v.len() >= n {
        v.truncate(n);
        assert forall|k: int| 0 <= k < n implies #[trigger] string_views(v@)[k] == resized(
            string_views(old(v)@),
            n as nat,
        )[k] by {
            assert(v@[k] == old(v)@[k]);
        }
        assert(string_views(v@) =~= resized(string_views(old(v)@), n as nat));
    } else {
        while v.len() < n
            invariant
                v@.len() <= n,
                old(v)@.len() <= v@.len(),
                forall|k: int| 0 <= k < old(v)@.len() ==> v@[k] == old(v)@[k],
                forall|k: int| old(v)@.len() <= k < v@.len() ==> (#[trigger] v@[k])@.len() == 0,
            decreases n - v.len(),
        {
            v.push(String::new());
        }
        assert forall|k: int| 0 <= k < n implies #[trigger] string_views(v@)[k] == resized(
            string_views(old(v)@),
            n as nat,
        )[k] by {
            if k < old(v)@.len() {
                assert(v@[k] == old(v)@[k]);
            } else {
                assert(v@[k]@.len() == 0);
                assert(v@[k]@ =~= Seq::<char>::empty());
            }
        }
        assert(string_views(v@) =~= resized(string_views(old(v)@), n as nat));
    }
}

fn all_nonempty(v: &Vec<String>) -> (r: bool)
    ensures
        r == all_filled(string_views(v@)),
{
    let mut i: usize = 0;
    while i < v.len()
        invariant
            i <= v@.len(),
            forall|k: int| 0 <= k < i ==> (#[trigger] v@[k])@.len() > 0,
        decreases v.len() - i,
    {
        proof {
            reveal_strlit("");
        }
        if str_eq(v[i].as_str(), "") {
            assert(string_views(v@)[i as int].len() == 0);
            return false;
        }
        assert(v@[i as int]@.len() > 0) by {
            if v@[i as int]@.len() == 0 {
                assert(v@[i as int]@ =~= ""@);
            }
        }
        i = i + 1;
    }
    assert forall|k: int| 0 <= k < string_views(v@).len() implies #[trigger] string_views(v@)[k].len() > 0 by {
        assert(string_views(v@)[k] == v@[k]@);
    }
    true
}

fn concat_chunks(v: &Vec<String>) -> (s: String)
    ensures
        s@ == string_views(v@).flatten(),
{
    let mut s = String::new();
    let mut i: usize = 0;
    assert(string_views(v@).take(0) =~= Seq::<Seq<char>>::empty());
    while i < v.len()
        invariant
            i <= v@.len(),
            s@ == string_views(v@).take(i as int).flatten(),
        decreases v.len() - i,
    {
        assert(string_views(v@).take(i + 1) =~= string_views(v@).take(i as int).push(v@[i as int]@));
        proof {
            string_views(v@).take(i as int).lemma_flatten_push(v@[i as int]@);
        }
        s.append(v[i].as_str());
        i = i + 1;
    }
    assert(string_views(v@).take(i as int) =~= string_views(v@));
    s
}

fn find_comic_named(comics: &Vec<ComicInfo>, name: &str) -> (r: Option<usize>)
    ensures
        r matches Some(i) ==> first_index(comics@, comic_named(name@)) == Some(i as int),
        r is None ==> first_index(comics@, comic_named(name@)) is None,
{
    let mut i: usize = 0;
    while i < comics.len()
        invariant
            i <= comics@.len(),
            forall|k: int| 0 <= k < i ==> !comic_named(name@)(#[trigger] comics@[k]),
        decreases comics.len() - i,
    {
        if str_eq(comics[i].name.as_str(), name) {
            proof {
                lemma_first_index_at(comics@, comic_named(name@), i as int);
            }
            return Some(i);
        }
        i = i + 1;
    }
    proof {
        lemma_first_index_none(comics@, comic_named(name@));
    }
    None
}

fn store_pending_cover(
    pending: &mut Vec<(String, (String, u64))>,
    name: &str,
    cover: String,
    now: u64,
)
    ensures
        match first_index(old(pending)@, keyed(name@)) {
            Some(p) => {
                &&& final(pending)@ == old(pending)@.update(p, final(pending)@[p])
                &&& final(pending)@[p].0@ == name@
                &&& final(pending)@[p].1.0@ == cover@
                &&& final(pending)@[p].1.1 == now
            },
            None => {
                &&& final(pending)@.drop_last() == old(pending)@
                &&& final(pending)@.len() == old(pending)@.len() + 1
                &&& final(pending)@.last().0@ == name@
                &&& final(pending)@.last().1.0@ == cover@
                &&& final(pending)@.last().1.1 == now
            },
        },
        keys_unique(old(pending)@) ==> keys_unique(final(pending)@),
{
    match find_key(pending, name) {
        Some(p) => {
            proof {
                lemma_first_index_found(pending@, keyed(name@));
            }
            let ghost before = pending@;
            let _ = pending.remove(p);
            pending.insert(p, (String::from_str(name), (cover, now)));
            assert(pending@ =~= before.update(p as int, pending@[p as int]));
            proof {
                if keys_unique(before) {
                    lemma_keys_unique_update(before, p as int, pending@[p as int]);
                }
            }
        },
        None => {
            let ghost before = pending@;
            let e = (String::from_str(name), (cover, now));
            proof {
                if keys_unique(before) {
                    lemma_keys_unique_push(before, e);
                }
            }
            pending.push(e);
            assert(pending@.drop_last() =~= before);
        },
    }
}

/// The state after chunk `index` of `total` of the cover of `name` arrived;
/// `done` tells whether the cover is complete.
pub open spec fn cover_chunk_applied(
    s0: UiState,
    s1: UiState,
    name: Seq<char>,
    index: usize,
    total: usize,
    data: Seq<char>,
    now_secs: u64,
    done: bool,
) -> bool {
    if name.len() == 0 || data.len() == 0 {
        !done && s1 == s0
    } else {
        let vs = chunks_after(s0.cover_chunk_buffers@, name, index as int, total as nat, data);
        &&& done == all_filled(vs)
        &&& s1 == (UiState {
            cover_chunk_buffers: s1.cover_chunk_buffers,
            app_comics: s1.app_comics,
            pending_covers: s1.pending_covers,
            ..s0
        })
        &&& keys_unique(s0.cover_chunk_buffers@) ==> keys_unique(s1.cover_chunk_buffers@)
        &&& keys_unique(s0.pending_covers@) ==> keys_unique(s1.pending_covers@)
        &&& done ==> {
            &&& s1.cover_chunk_buffers@ == match first_index(s0.cover_chunk_buffers@, keyed(name)) {
                Some(i) => s0.cover_chunk_buffers@.remove(i),
                None => s0.cover_chunk_buffers@,
            }
            &&& cover_stored(
                s0.app_comics@,
                s1.app_comics@,
                s0.pending_covers@,
                s1.pending_covers@,
                name,
                vs.flatten(),
                now_secs,
            )
        }
        &&& !done ==> {
            &&& s1.app_comics == s0.app_comics
            &&& s1.pending_covers == s0.pending_covers
            &&& buffer_stored(s0.cover_chunk_buffers@, s1.cover_chunk_buffers@, name, vs, total)
        }
    }
}

/// Chunk `index` of `total` of the cover of comic `name` arrived
/// (`cover_data_chunk`). A chunk without name or data is ignored. Chunks
/// are collected per name; the buffer takes the size announced by the
/// latest chunk. Once every chunk is in, the cover is assembled and goes to
/// the first comic of that name, or, when that comic has not arrived yet,
/// waits for it stamped with `now_secs`; either way the buffer is dropped
/// and the result is `true` (the caller acknowledges the cover).
pub fn on_cover_chunk(
    state: &mut UiState,
    name: &str,
    index: usize,
    total: usize,
    data: &str,
    now_secs: u64,
) -> (done: bool)
    requires
        name@.len() > 0 && data@.len() > 0 ==> index < total,
    ensures
        old(state).maps_wf() ==> final(state).maps_wf(),
        cover_chunk_applied(*old(state), *final(state), name@, index, total, data@, now_secs, done),
{
    proof {
        reveal_strlit("");
    }
    if str_eq(name, "") || str_eq(data, "") {
        return false;
    }
    assert(name@.len() > 0 && data@.len() > 0) by {
        if name@.len() == 0 {
            assert(name@ =~= ""@);
        }
        if data@.len() == 0 {
            assert(data@ =~= ""@);
        }
    }
    let ghost b0 = state.cover_chunk_buffers@;
    let found = find_key(&state.cover_chunk_buffers, name);
    let mut chunks: Vec<String> = Vec::new();
    let mut announced: usize = total;
    match found {
        Some(i) => {
            proof {
                lemma_first_index_found(b0, keyed(name@));
                if keys_unique(b0) {
                    lemma_keys_unique_remove(b0, i as int);
                }
            }
            let (_, (t0, v)) = state.cover_chunk_buffers.remove(i);
            chunks = v;
            announced = t0;
        },
        None => {},
    }
    assert(string_views(chunks@) == buffer_views(b0, name@));
    resize_chunks(&mut chunks, total);
    assert(chunks@.len() == string_views(chunks@).len());
    assert(string_views(chunks@).len() == total);
    chunks.set(index, String::from_str(data));
    let ghost vs = chunks_after(b0, name@, index as int, total as nat, data@);
    assert(string_views(chunks@) =~= vs);
    if all_nonempty(&chunks) {
        let cover = concat_chunks(&chunks);
        match find_comic_named(&state.app_comics, name) {
            Some(j) => {
                proof {
                    lemma_first_index_found(state.app_comics@, comic_named(name@));
                }
                let ghost c0 = state.app_comics@;
                let mut c = state.app_comics.remove(j);
                c.cover_base64 = cover;
                state.app_comics.insert(j, c);
                assert(state.app_comics@ =~= c0.update(j as int, state.app_comics@[j as int]));
            },
            None => {
                store_pending_cover(&mut state.pending_covers, name, cover, now_secs);
            },
        }
        true
    } else {
        match found {
            Some(i) => {
                let ghost b1 = state.cover_chunk_buffers@;
                state.cover_chunk_buffers.insert(i, (String::from_str(name), (announced, chunks)));
                assert(state.cover_chunk_buffers@ =~= b0.update(
                    i as int,
                    state.cover_chunk_buffers@[i as int],
                ));
                proof {
                    if keys_unique(b0) {
                        lemma_keys_unique_update(b0, i as int, state.cover_chunk_buffers@[i as int]);
                    }
                }
            },
            None => {
                let e = (String::from_str(name), (total, chunks));
                proof {
                    if keys_unique(b0) {
                        lemma_keys_unique_push(b0, e);
                    }
                }
                state.cover_chunk_buffers.push(e);
                assert(state.cover_chunk_buffers@.drop_last() =~= b0);
            },
        }
        false
    }
}

/// After a cover is stored while its comic is missing, it is the cover
/// waiting under its name.
proof fn lemma_stored_cover_waits(
    pend0: Seq<(String, (String, u64))>,
    pend1: Seq<(String, (String, u64))>,
    name: Seq<char>,
    cover: Seq<char>,
    now: u64,
    comics: Seq<ComicInfo>,
)
    requires
        first_index(comics, comic_named(name)) is None,
        cover_stored(comics, comics, pend0, pend1, name, cover, now),
    ensures
        pending_cover_for(pend1, name) == cover,
        first_index(pend1, keyed::<(String, u64)>(name)) is Some,
{
    lemma_first_index_found(pend0, keyed::<(String, u64)>(name));
    match first_index(pend0, keyed::<(String, u64)>(name)) {
        Some(p) => {
            assert forall|k: int| 0 <= k < p implies !keyed::<(String, u64)>(name)(#[trigger] pend1[k]) by {
                assert(pend1[k] == pend0[k]);
            }
            lemma_first_index_at(pend1, keyed::<(String, u64)>(name), p);
        },
        None => {
            let q = pend0.len() as int;
            assert forall|k: int| 0 <= k < q implies !keyed::<(String, u64)>(name)(#[trigger] pend1[k]) by {
                assert(pend1[k] == pend1.drop_last()[k]);
            }
            lemma_first_index_at(pend1, keyed::<(String, u64)>(name), q);
        },
    }
}

/// The cover slots after the chunks `arrivals` (index, data) came in, in
/// that order, onto `n` empty slots.
pub open spec fn filled_slots(n: nat, arrivals: Seq<(int, Seq<char>)>) -> Seq<Seq<char>>
    decreases arrivals.len(),
{
    if arrivals.len() == 0 {
        Seq::new(n, |_i: int| Seq::<char>::empty())
    } else {
        filled_slots(n, arrivals.drop_last()).update(arrivals.last().0, arrivals.last().1)
    }
}

/// Whether chunk `k` is among the arrivals.
pub open spec fn chunk_arrived(arrivals: Seq<(int, Seq<char>)>, k: int) -> bool {
    exists|i: int| 0 <= i < arrivals.len() && #[trigger] arrivals[i].0 == k
}

proof fn lemma_filled_slots(n: nat, arrivals: Seq<(int, Seq<char>)>, data: Seq<Seq<char>>)
    requires
        data.len() == n,
        forall|i: int|
            0 <= i < arrivals.len() ==> 0 <= #[trigger] arrivals[i].0 < n && arrivals[i].1 == data[arrivals[i].0],
    ensures
        filled_slots(n, arrivals).len() == n,
        forall|k: int|
            0 <= k < n ==> #[trigger] filled_slots(n, arrivals)[k] == if chunk_arrived(arrivals, k) {
                data[k]
            } else {
                Seq::<char>::empty()
            },
    decreases arrivals.len(),
{
    if arrivals.len() > 0 {
        let prev = arrivals.drop_last();
        lemma_filled_slots(n, prev, data);
        let last = arrivals.last();
        assert(arrivals[arrivals.len() - 1] == last);
        assert forall|k: int| 0 <= k < n implies #[trigger] filled_slots(n, arrivals)[k] == if chunk_arrived(
            arrivals,
            k,
        ) {
            data[k]
        } else {
            Seq::<char>::empty()
        } by {
            if k == last.0 {
                assert(chunk_arrived(arrivals, k));
            } else {
                if chunk_arrived(arrivals, k) {
                    let i = choose|i: int| 0 <= i < arrivals.len() && #[trigger] arrivals[i].0 == k;
                    assert(i < arrivals.len() - 1);
                    assert(prev[i].0 == k);
                    assert(chunk_arrived(prev, k));
                } else {
                    assert forall|i: int| 0 <= i < prev.len() implies #[trigger] prev[i].0 != k by {
                        assert(arrivals[i].0 == prev[i].0);
                    }
                }
            }
        }
    }
}

/// A cover comes out whole whatever order its chunks arrive in: onto `n`
/// empty slots, each chunk fills its own slot (re-sent chunks carry the same
/// data), the cover counts as complete exactly when every index arrived, and
/// then the slots are the chunks in index order, so the assembled cover is
/// their concatenation in index order.
pub proof fn law_cover_any_order(n: nat, arrivals: Seq<(int, Seq<char>)>, data: Seq<Seq<char>>)
    requires
        data.len() == n,
        forall|k: int| 0 <= k < n ==> (#[trigger] data[k]).len() > 0,
        forall|i: int|
            0 <= i < arrivals.len() ==> 0 <= #[trigger] arrivals[i].0 < n && arrivals[i].1 == data[arrivals[i].0],
    ensures
        all_filled(filled_slots(n, arrivals)) <==> forall|k: int| 0 <= k < n ==> chunk_arrived(arrivals, k),
        all_filled(filled_slots(n, arrivals)) ==> filled_slots(n, arrivals) == data
            && filled_slots(n, arrivals).flatten() == data.flatten(),
{
    lemma_filled_slots(n, arrivals, data);
    let f = filled_slots(n, arrivals);
    if all_filled(f) {
        assert forall|k: int| 0 <= k < n implies chunk_arrived(arrivals, k) by {
            assert(f[k].len() > 0);
        }
        assert(f =~= data);
    }
    if forall|k: int| 0 <= k < n ==> chunk_arrived(arrivals, k) {
        assert forall|k: int| 0 <= k < f.len() implies #[trigger] f[k].len() > 0 by {
            assert(chunk_arrived(arrivals, k));
            assert(data[k].len() > 0);
        }
    }
}

/// The chunks of a cover being collected follow its slots: when the
/// collected chunks for `name`, taken to `total` slots, are `slots`, a chunk
/// `(index, data)` of that cover either completes it (exactly when every
/// slot is then filled) or leaves the collected chunks at `slots` with slot
/// `index` filled. With `law_cover_any_order`, a cover whose chunks arrive
/// in any order is stored as its chunks in index order.
pub proof fn law_cover_buffer_follows_slots(
    s0: UiState,
    s1: UiState,
    name: Seq<char>,
    index: usize,
    total: usize,
    data: Seq<char>,
    now: u64,
    done: bool,
    slots: Seq<Seq<char>>,
)
    requires
        s0.maps_wf(),
        name.len() > 0,
        data.len() > 0,
        index < total,
        resized(buffer_views(s0.cover_chunk_buffers@, name), total as nat) == slots,
        cover_chunk_applied(s0, s1, name, index, total, data, now, done),
    ensures
        done == all_filled(slots.update(index as int, data)),
        !done ==> resized(buffer_views(s1.cover_chunk_buffers@, name), total as nat) == slots.update(
            index as int,
            data,
        ),
        done ==> cover_stored(
            s0.app_comics@,
            s1.app_comics@,
            s0.pending_covers@,
            s1.pending_covers@,
            name,
            slots.update(index as int, data).flatten(),
            now,
        ),
{
    let b0 = s0.cover_chunk_buffers@;
    let b1 = s1.cover_chunk_buffers@;
    let vs = chunks_after(b0, name, index as int, total as nat, data);
    assert(vs == slots.update(index as int, data));
    if !done {
        lemma_first_index_found(b0, keyed::<(usize, Vec<String>)>(name));
        match first_index(b0, keyed::<(usize, Vec<String>)>(name)) {
            Some(i) => {
                assert forall|k: int| 0 <= k < i implies !keyed::<(usize, Vec<String>)>(name)(#[trigger] b1[k]) by {
                    assert(b1[k] == b0[k]);
                    assert(!keyed::<(usize, Vec<String>)>(name)(b0[k]));
                }
                lemma_first_index_at(b1, keyed::<(usize, Vec<String>)>(name), i);
            },
            None => {
                let j = b0.len() as int;
                assert forall|k: int| 0 <= k < j implies !keyed::<(usize, Vec<String>)>(name)(#[trigger] b1[k]) by {
                    assert(b1.drop_last()[k] == b1[k]);
                    assert(!keyed::<(usize, Vec<String>)>(name)(b0[k]));
                }
                assert(b1[j] == b1.last());
                lemma_first_index_at(b1, keyed::<(usize, Vec<String>)>(name), j);
            },
        }
        assert(buffer_views(b1, name) == vs);
        assert(resized(vs, total as nat) =~= vs);
    }
}

/// A run of cover chunks of comic `name`, all announcing `total` chunks:
/// chunk `i` (`arrivals[i]`: index and data) takes state `states[i]` to
/// `states[i + 1]`, `dones[i]` telling whether it completed the cover; no
/// chunk of that cover was collected before the run.
pub open spec fn cover_run(
    states: Seq<UiState>,
    name: Seq<char>,
    total: usize,
    arrivals: Seq<(int, Seq<char>)>,
    now: u64,
    dones: Seq<bool>,
) -> bool {
    &&& states.len() == arrivals.len() + 1
    &&& dones.len() == arrivals.len()
    &&& states[0].maps_wf()
    &&& buffer_views(states[0].cover_chunk_buffers@, name).len() == 0
    &&& name.len() > 0
    &&& forall|i: int|
        0 <= i < arrivals.len() ==> {
            &&& 0 <= arrivals[i].0 < total
            &&& arrivals[i].1.len() > 0
            &&& #[trigger] cover_chunk_applied(
                states[i],
                states[i + 1],
                name,
                arrivals[i].0 as usize,
                total,
                arrivals[i].1,
                now,
                dones[i],
            )
        }
}

proof fn lemma_cover_run_prefix(
    states: Seq<UiState>,
    name: Seq<char>,
    total: usize,
    arrivals: Seq<(int, Seq<char>)>,
    now: u64,
    dones: Seq<bool>,
    n: int,
)
    requires
        cover_run(states, name, total, arrivals, now, dones),
        0 <= n <= arrivals.len(),
        forall|i: int| 0 <= i < n ==> !#[trigger] dones[i],
    ensures
        states[n].maps_wf(),
        resized(buffer_views(states[n].cover_chunk_buffers@, name), total as nat) == filled_slots(
            total as nat,
            arrivals.take(n),
        ),
    decreases n,
{
    if n == 0 {
        assert(resized(buffer_views(states[0].cover_chunk_buffers@, name), total as nat) =~= filled_slots(
            total as nat,
            arrivals.take(0),
        ));
    } else {
        let i = n - 1;
        lemma_cover_run_prefix(states, name, total, arrivals, now, dones, i);
        assert(cover_chunk_applied(
            states[i],
            states[i + 1],
            name,
            arrivals[i].0 as usize,
            total,
            arrivals[i].1,
            now,
            dones[i],
        ));
        assert(!dones[i]);
        law_cover_buffer_follows_slots(
            states[i],
            states[n],
            name,
            arrivals[i].0 as usize,
            total,
            arrivals[i].1,
            now,
            dones[i],
            filled_slots(total as nat, arrivals.take(i)),
        );
        assert(arrivals.take(n).drop_last() =~= arrivals.take(i));
        assert(arrivals.take(n).last() == arrivals[i]);
    }
}

/// A cover's chunks collected over several messages, in any order and with
/// re-sends, make the cover in index order: along a run of chunks of one
/// cover (each index carrying its one piece of data), the cover completes
/// on the first chunk after which every index has arrived, and is then
/// stored (on its comic, or waiting for it) as the pieces joined in index
/// order.
pub proof fn law_cover_run_assembles(
    states: Seq<UiState>,
    name: Seq<char>,
    total: usize,
    arrivals: Seq<(int, Seq<char>)>,
    now: u64,
    dones: Seq<bool>,
    data: Seq<Seq<char>>,
)
    requires
        cover_run(states, name, total, arrivals, now, dones),
        arrivals.len() > 0,
        forall|i: int| 0 <= i < arrivals.len() - 1 ==> !#[trigger] dones[i],
        data.len() == total,
        forall|k: int| 0 <= k < total ==> (#[trigger] data[k]).len() > 0,
        forall|i: int| 0 <= i < arrivals.len() ==> #[trigger] arrivals[i].1 == data[arrivals[i].0],
    ensures
        dones.last() <==> forall|k: int| 0 <= k < total ==> chunk_arrived(arrivals, k),
        dones.last() ==> cover_stored(
            states[arrivals.len() - 1].app_comics@,
            states.last().app_comics@,
            states[arrivals.len() - 1].pending_covers@,
            states.last().pending_covers@,
            name,
            data.flatten(),
            now,
        ),
{
    let m = arrivals.len() as int;
    let i = m - 1;
    lemma_cover_run_prefix(states, name, total, arrivals, now, dones, i);
    assert(cover_chunk_applied(
        states[i],
        states[i + 1],
        name,
        arrivals[i].0 as usize,
        total,
        arrivals[i].1,
        now,
        dones[i],
    ));
    law_cover_buffer_follows_slots(
        states[i],
        states[m],
        name,
        arrivals[i].0 as usize,
        total,
        arrivals[i].1,
        now,
        dones[i],
        filled_slots(total as nat, arrivals.take(i)),
    );
    assert(arrivals.take(m) =~= arrivals);
    assert(arrivals.take(m).drop_last() =~= arrivals.take(i));
    assert(filled_slots(total as nat, arrivals) == filled_slots(total as nat, arrivals.take(i)).update(
        arrivals[i].0,
        arrivals[i].1,
    ));
    assert forall|j: int| 0 <= j < arrivals.len() implies 0 <= #[trigger] arrivals[j].0 < total
        && arrivals[j].1 == data[arrivals[j].0] by {
        assert(cover_chunk_applied(
            states[j],
            states[j + 1],
            name,
            arrivals[j].0 as usize,
            total,
            arrivals[j].1,
            now,
            dones[j],
        ));
    }
    law_cover_any_order(total as nat, arrivals, data);
}

proof fn lemma_no_early_completion(
    states: Seq<UiState>,
    name: Seq<char>,
    total: usize,
    arrivals: Seq<(int, Seq<char>)>,
    now: u64,
    dones: Seq<bool>,
    data: Seq<Seq<char>>,
    n: int,
)
    requires
        cover_run(states, name, total, arrivals, now, dones),
        0 <= n < arrivals.len(),
        forall|i: int, j: int| 0 <= i < j < arrivals.len() ==> #[trigger] arrivals[i].0 != #[trigger] arrivals[j].0,
        data.len() == total,
        forall|k: int| 0 <= k < total ==> (#[trigger] data[k]).len() > 0,
        forall|i: int| 0 <= i < arrivals.len() ==> #[trigger] arrivals[i].1 == data[arrivals[i].0],
    ensures
        forall|i: int| 0 <= i < n ==> !#[trigger] dones[i],
    decreases n,
{
    if n > 0 {
        let i = n - 1;
        lemma_no_early_completion(states, name, total, arrivals, now, dones, data, i);
        lemma_cover_run_prefix(states, name, total, arrivals, now, dones, i);
        assert(cover_chunk_applied(
            states[i],
            states[i + 1],
            name,
            arrivals[i].0 as usize,
            total,
            arrivals[i].1,
            now,
            dones[i],
        ));
        law_cover_buffer_follows_slots(
            states[i],
            states[n],
            name,
            arrivals[i].0 as usize,
            total,
            arrivals[i].1,
            now,
            dones[i],
            filled_slots(total as nat, arrivals.take(i)),
        );
        let pre = arrivals.take(n);
        assert(pre.drop_last() =~= arrivals.take(i));
        assert(pre.last() == arrivals[i]);
        assert forall|j: int| 0 <= j < pre.len() implies 0 <= #[trigger] pre[j].0 < total && pre[j].1
            == data[pre[j].0] by {
            assert(pre[j] == arrivals[j]);
            assert(cover_chunk_applied(
                states[j],
                states[j + 1],
                name,
                arrivals[j].0 as usize,
                total,
                arrivals[j].1,
                now,
                dones[j],
            ));
        }
        law_cover_any_order(total as nat, pre, data);
        let last = arrivals.len() - 1;
        let k0 = arrivals[last].0;
        assert(0 <= k0 < total) by {
            assert(cover_chunk_applied(
                states[last],
                states[last + 1],
                name,
                arrivals[last].0 as usize,
                total,
                arrivals[last].1,
                now,
                dones[last],
            ));
        }
        assert(!chunk_arrived(pre, k0)) by {
            if chunk_arrived(pre, k0) {
                let j = choose|j: int| 0 <= j < pre.len() && #[trigger] pre[j].0 == k0;
                assert(pre[j] == arrivals[j]);
                assert(arrivals[j].0 != arrivals[last].0);
            }
        }
        assert forall|j: int| 0 <= j < n implies !#[trigger] dones[j] by {}
    }
}

/// One cover acknowledgement, on the last chunk: when each chunk `0..total`
/// of a cover arrives exactly once, in any order, the cover completes (and
/// the caller acknowledges it, see `handle_interconnect_message`) on the
/// last chunk only, and is then stored as the pieces joined in index order.
pub proof fn law_cover_completes_on_last_chunk(
    states: Seq<UiState>,
    name: Seq<char>,
    total: usize,
    arrivals: Seq<(int, Seq<char>)>,
    now: u64,
    dones: Seq<bool>,
    data: Seq<Seq<char>>,
)
    requires
        cover_run(states, name, total, arrivals, now, dones),
        arrivals.len() == total,
        total > 0,
        forall|i: int, j: int| 0 <= i < j < arrivals.len() ==> #[trigger] arrivals[i].0 != #[trigger] arrivals[j].0,
        forall|k: int| 0 <= k < total ==> chunk_arrived(arrivals, k),
        data.len() == total,
        forall|k: int| 0 <= k < total ==> (#[trigger] data[k]).len() > 0,
        forall|i: int| 0 <= i < arrivals.len() ==> #[trigger] arrivals[i].1 == data[arrivals[i].0],
    ensures
        forall|i: int| 0 <= i < arrivals.len() ==> #[trigger] dones[i] == (i == arrivals.len() - 1),
        cover_stored(
            states[arrivals.len() - 1].app_comics@,
            states.last().app_comics@,
            states[arrivals.len() - 1].pending_covers@,
            states.last().pending_covers@,
            name,
            data.flatten(),
            now,
        ),
{
    let last = arrivals.len() - 1;
    lemma_no_early_completion(states, name, total, arrivals, now, dones, data, last);
    law_cover_run_assembles(states, name, total, arrivals, now, dones, data);
    assert(dones.last() == dones[last]);
}

/// A cover completed before its comic's entry arrived (the phone may
/// reorder messages) is not lost: the comic's entry, when it comes, carries
/// it, and it no longer waits.
pub proof fn law_early_cover_attached(
    s0: UiState,
    s1: UiState,
    s2: UiState,
    name: Seq<char>,
    index: usize,
    total: usize,
    data: Seq<char>,
    now: u64,
    slot: usize,
    comic: JsonScalar,
)
    requires
        s0.maps_wf(),
        first_index(s0.app_comics@, comic_named(name)) is None,
        cover_chunk_applied(s0, s1, name, index, total, data, now, true),
        comic_applied(s1, s2, slot, Some(comic)),
        text_or_empty(field(comic, "name"@)) == name,
    ensures
        s2.app_comics@[slot as int].cover_base64@ == chunks_after(
            s0.cover_chunk_buffers@,
            name,
            index as int,
            total as nat,
            data,
        ).flatten(),
        first_index(s2.pending_covers@, keyed(name)) is None,
{
    let vs = chunks_after(s0.cover_chunk_buffers@, name, index as int, total as nat, data);
    lemma_stored_cover_waits(
        s0.pending_covers@,
        s1.pending_covers@,
        name,
        vs.flatten(),
        now,
        s0.app_comics@,
    );
    let p1 = s1.pending_covers@;
    lemma_first_index_found(p1, keyed::<(String, u64)>(name));
    let q = first_index(p1, keyed::<(String, u64)>(name))->0;
    assert(0 <= q < p1.len());
    assert(keys_unique(p1));
    let p2 = p1.remove(q);
    assert(s2.pending_covers@ == p2);
    assert forall|k: int| 0 <= k < p2.len() implies !keyed::<(String, u64)>(name)(#[trigger] p2[k]) by {
        if k < q {
            assert(p2[k] == p1[k]);
        } else {
            assert(p2[k] == p1[k + 1]);
            assert(p1[q].0@ != p1[k + 1].0@);
        }
    }
    lemma_first_index_none(p2, keyed::<(String, u64)>(name));
}

/// The data messages are acknowledged by their place in the stream: once
/// the header announced `comic_count` comics and `source_count` sources,
/// comic `i` is message `1 + i`, source `j` is message
/// `1 + comic_count + j` and the end of the lists comes last, after the
/// header (message 0); no two of them share a number.
pub proof fn law_ack_numbers_follow_stream(
    s0: UiState,
    s1: UiState,
    comic_count: usize,
    source_count: usize,
    i: nat,
    j: nat,
)
    requires
        header_applied(s0, s1, comic_count, source_count),
        i < comic_count,
        j < source_count,
    ensures
        0 < i + 1 < 1 + count_or_zero(s1.app_comic_count) + j,
        1 + count_or_zero(s1.app_comic_count) + j < 1 + count_or_zero(s1.app_comic_count)
            + count_or_zero(s1.app_source_count),
{
}

} // verus!
