//! What the plugin's UI events do to the screen state. Rendering, dialogs,
//! timers and messages to the watch are the caller's part; each function
//! here updates the state and, where the screen is to be redrawn, hands back
//! the root element to render.

use vstd::prelude::*;

use super::message::{copy_opt_string, hide_status};
use super::flows::{handle_domain_blur, has_dot};
use serde_json::Value;
use crate::seqs::{first_index, lemma_first_index_at, lemma_first_index_found, lemma_first_index_none};
use crate::text::{
    decimal, is_digit, lemma_decimal_parses, chars_eq, chars_of, name_stem, name_stem_of, parse_unsigned, parse_usize, str_eq, string_of,
    trim, trim_chars,
};
use super::state::{
    CHAPTER_CLEAR_PREFIX, CHAPTER_DELETE_PREFIX, CHAPTER_DEL_FILE_PREFIX, CHAPTER_MOVE_DOWN_PREFIX,
    CHAPTER_MOVE_UP_PREFIX, CHAPTER_NAME_INPUT_PREFIX, CHAPTER_PICK_FILES_PREFIX,
    CHAPTER_UPLOAD_PREFIX, COOKIE_INPUT_EVENT, DELETE_COMIC_PREFIX, DELETE_SOURCE_PREFIX,
    DOMAIN_INPUT_BLUR_EVENT, DOMAIN_INPUT_CHANGE_EVENT, FETCH_APP_DATA_EVENT,
    HIDE_APP_DATA_STATUS_EVENT, HIDE_STATUS_EVENT, HIDE_UPLOAD_STATUS_EVENT, SYNC_BUTTON_EVENT,
    TAB_DATA_EVENT, TAB_SYNC_EVENT, TAB_UPLOAD_EVENT, UPLOAD_ADD_CHAPTER_EVENT,
    UPLOAD_CLEAR_EVENT, UPLOAD_DELETE_PREFIX, UPLOAD_MODE_MULTI_EVENT, UPLOAD_MODE_SINGLE_EVENT,
    UPLOAD_MOVE_DOWN_PREFIX, UPLOAD_MOVE_UP_PREFIX, UPLOAD_NAME_INPUT_EVENT,
    UPLOAD_PICK_COVER_EVENT, UPLOAD_PICK_FILES_EVENT, UPLOAD_PICK_MULTI_COVER_EVENT,
    UPLOAD_START_EVENT,
};
use super::state::{
    json_get, member, read_text, read_u64_or, scalar_of, text_or_empty, u64_or, ChapterItem,
    JsonObject, JsonScalar, Progress, StatusState, TabPage, UiState, UploadFile, UploadItem,
    UploadMode, WatchSettings,
};
use super::app_data::{
    comic_applied, count_or_zero, cover_chunk_applied, done_applied, done_timer, header_applied,
    on_app_data_comic, on_app_data_done, on_app_data_header, on_app_data_source, on_cover_chunk,
    on_cover_done, source_applied, RecvTimer, StatusChange,
};
use super::handshake::{
    fresh_only, handle_hs_pong, pending_in, touched, HandshakeState, PendingHandshake,
};
use super::upload::{ack_names_chunk_in_flight, header_ack_is_fresh, on_chunk_ack, on_header_ack};

verus! {

/// Exchanges the elements at `i` and `j`.
pub fn swap_elements<T>(v: &mut Vec<T>, i: usize, j: usize)
    requires
        i < old(v)@.len(),
        j < old(v)@.len(),
    ensures
        final(v)@ == old(v)@.update(i as int, old(v)@[j as int]).update(j as int, old(v)@[i as int]),
{
    if i == j {
        assert(v@ =~= v@.update(i as int, v@[j as int]).update(j as int, v@[i as int]));
        return;
    }
    let (lo, hi) = if i < j { (i, j) } else { (j, i) };
    let ghost s = v@;
    let b = v.remove(hi);
    let a = v.remove(lo);
    v.insert(lo, b);
    v.insert(hi, a);
    assert(v@ =~= s.update(i as int, s[j as int]).update(j as int, s[i as int]));
}

/// Clears the upload page's status line (its auto-hide timer has fired).
/// Returns the root element to re-render, if the page is shown.
pub fn hide_upload_status(state: &mut UiState) -> (root: Option<String>)
    ensures
        *final(state) == (UiState {
            upload_status: StatusState::Default,
            upload_status_timer_id: None,
            ..*old(state)
        }),
        root == old(state).root_element_id,
{
    state.upload_status = StatusState::Default;
    state.upload_status_timer_id = None;
    copy_opt_string(&state.root_element_id)
}

/// Clears the data page's status line (its auto-hide timer has fired).
/// Returns the root element to re-render, if the page is shown.
pub fn hide_app_data_status(state: &mut UiState) -> (root: Option<String>)
    ensures
        *final(state) == (UiState {
            app_data_status: StatusState::Default,
            app_data_timer_id: None,
            ..*old(state)
        }),
        root == old(state).root_element_id,
{
    state.app_data_status = StatusState::Default;
    state.app_data_timer_id = None;
    copy_opt_string(&state.root_element_id)
}

/// Shows another tab. Returns the root element to re-render.
pub fn switch_tab(state: &mut UiState, tab: TabPage) -> (root: Option<String>)
    ensures
        *final(state) == (UiState { current_tab: tab, ..*old(state) }),
        root == old(state).root_element_id,
{
    state.current_tab = tab;
    copy_opt_string(&state.root_element_id)
}

/// The upload page changed outside a status update: returns the root
/// element to re-render, if the page is shown.
pub fn rerender_upload_ui(state: &UiState) -> (root: Option<String>)
    ensures
        root == state.root_element_id,
{
    copy_opt_string(&state.root_element_id)
}

/// Shows handshake progress on the upload page (no timer involved).
pub fn render_upload_progress(state: &mut UiState, msg: String) -> (root: Option<String>)
    ensures
        *final(state) == (UiState { upload_status: StatusState::Processing(msg), ..*old(state) }),
        root == old(state).root_element_id,
{
    state.upload_status = StatusState::Processing(msg);
    copy_opt_string(&state.root_element_id)
}

/// Shows handshake progress on the data page (no timer involved).
pub fn render_app_data_progress(state: &mut UiState, msg: String) -> (root: Option<String>)
    ensures
        *final(state) == (UiState { app_data_status: StatusState::Processing(msg), ..*old(state) }),
        root == old(state).root_element_id,
{
    state.app_data_status = StatusState::Processing(msg);
    copy_opt_string(&state.root_element_id)
}

/// Shows handshake progress on the sync page (no timer involved).
pub fn render_sync_progress(state: &mut UiState, msg: String) -> (root: Option<String>)
    ensures
        *final(state) == (UiState { current_status: StatusState::Processing(msg), ..*old(state) }),
        root == old(state).root_element_id,
{
    state.current_status = StatusState::Processing(msg);
    copy_opt_string(&state.root_element_id)
}

/// The watch app's settings in force: those of the last handshake, or the
/// watch app's defaults when there was none.
pub fn current_watch_settings(state: &UiState) -> (s: WatchSettings)
    ensures
        s == match state.watch_settings {
            Some(w) => w,
            None => WatchSettings::spec_default(),
        },
{
    match state.watch_settings {
        Some(w) => w,
        None => WatchSettings::default(),
    }
}

/// The domain field changed.
pub fn update_domain_state(state: &mut UiState, input_value: String)
    ensures
        final(state).config == (super::state::PluginConfig { domain: input_value, ..old(state).config }),
        *final(state) == (UiState { config: final(state).config, ..*old(state) }),
{
    state.config.domain = input_value;
}

/// The cookie field changed.
pub fn handle_cookie_input(state: &mut UiState, input_value: String)
    ensures
        final(state).config == (super::state::PluginConfig { cookie: input_value, ..old(state).config }),
        *final(state) == (UiState { config: final(state).config, ..*old(state) }),
{
    state.config.cookie = input_value;
}

/// The comic name field of the upload page changed.
pub fn set_upload_name_input(state: &mut UiState, text: String)
    ensures
        *final(state) == (UiState { upload_comic_name_input: text, ..*old(state) }),
{
    state.upload_comic_name_input = text;
}

/// Switches between single-book and multi-chapter upload.
pub fn set_upload_mode(state: &mut UiState, mode: UploadMode)
    ensures
        *final(state) == (UiState { upload_mode: mode, ..*old(state) }),
{
    state.upload_mode = mode;
}

/// Moves a comic of the upload list one place up (`direction == -1`) or
/// down (`1`); a move past either end does nothing. Returns whether the
/// list changed (and is to be re-rendered).
pub fn handle_upload_move(state: &mut UiState, index: usize, direction: i32) -> (moved: bool)
    requires
        direction == 1 || direction == -1,
        i32::MIN <= (index as i32) + direction <= i32::MAX,
        0 <= (index as i32) + direction < old(state).upload_items@.len() ==> index < old(
            state,
        ).upload_items@.len(),
    ensures
        moved == (0 <= (index as i32) + direction < old(state).upload_items@.len()),
        moved ==> *final(state) == (UiState {
            upload_items: final(state).upload_items,
            ..*old(state)
        }) && final(state).upload_items@ == old(state).upload_items@.update(
            index as int,
            old(state).upload_items@[(index as i32) + direction],
        ).update((index as i32) + direction, old(state).upload_items@[index as int]),
        !moved ==> *final(state) == *old(state),
{
    let wi: i32 = #[verifier::truncate] (index as i32);
    let ni: i32 = wi + direction;
    if ni < 0 || ni as usize >= state.upload_items.len() {
        return false;
    }
    let new_index = ni as usize;
    swap_elements(&mut state.upload_items, index, new_index);
    true
}

/// Removes a comic from the upload list; an index past the end does
/// nothing. Returns whether the list changed.
pub fn handle_upload_delete(state: &mut UiState, index: usize) -> (deleted: bool)
    ensures
        deleted == (index < old(state).upload_items@.len()),
        deleted ==> *final(state) == (UiState {
            upload_items: final(state).upload_items,
            ..*old(state)
        }) && final(state).upload_items@ == old(state).upload_items@.remove(index as int),
        !deleted ==> *final(state) == *old(state),
{
    if index >= state.upload_items.len() {
        return false;
    }
    state.upload_items.remove(index);
    true
}

/// Empties both upload lists, the book cover, the progress and the status.
pub fn handle_upload_clear(state: &mut UiState)
    ensures
        *final(state) == (UiState {
            upload_items: final(state).upload_items,
            upload_chapters: final(state).upload_chapters,
            multi_cover: None,
            upload_progress: Progress { done: 0, total: 1 },
            upload_current_file: final(state).upload_current_file,
            upload_status: StatusState::Default,
            ..*old(state)
        }),
        final(state).upload_items@.len() == 0,
        final(state).upload_chapters@.len() == 0,
        final(state).upload_current_file@.len() == 0,
{
    state.upload_items.clear();
    state.upload_chapters.clear();
    state.multi_cover = None;
    state.upload_progress = Progress { done: 0, total: 1 };
    state.upload_current_file = String::new();
    state.upload_status = StatusState::Default;
}

/// Appends an empty, unnamed chapter.
pub fn handle_add_chapter(state: &mut UiState)
    ensures
        *final(state) == (UiState { upload_chapters: final(state).upload_chapters, ..*old(state) }),
        final(state).upload_chapters@.len() == old(state).upload_chapters@.len() + 1,
        final(state).upload_chapters@.drop_last() == old(state).upload_chapters@,
        final(state).upload_chapters@.last().name@.len() == 0,
        final(state).upload_chapters@.last().files@.len() == 0,
{
    state.upload_chapters.push(ChapterItem::default());
}

/// A chapter's name field changed; an unknown chapter is ignored.
pub fn handle_chapter_name_input(state: &mut UiState, chapter_index: usize, value: String)
    ensures
        chapter_index < old(state).upload_chapters@.len() ==> *final(state) == (UiState {
            upload_chapters: final(state).upload_chapters,
            ..*old(state)
        }) && final(state).upload_chapters@ == old(state).upload_chapters@.update(
            chapter_index as int,
            ChapterItem { name: value, ..old(state).upload_chapters@[chapter_index as int] },
        ),
        chapter_index >= old(state).upload_chapters@.len() ==> *final(state) == *old(state),
{
    if chapter_index < state.upload_chapters.len() {
        let mut ch = state.upload_chapters.remove(chapter_index);
        ch.name = value;
        state.upload_chapters.insert(chapter_index, ch);
    }
}


/// `b` is `a` with at most the element at `i` changed.
pub open spec fn same_except<T>(a: Seq<T>, b: Seq<T>, i: int) -> bool {
    &&& a.len() == b.len()
    &&& forall|k: int| 0 <= k < a.len() && k != i ==> #[trigger] b[k] == a[k]
}

/// Empties a chapter's pages; an unknown chapter is ignored.
pub fn handle_chapter_clear(state: &mut UiState, chapter_index: usize)
    ensures
        chapter_index < old(state).upload_chapters@.len() ==> {
            &&& *final(state) == (UiState {
                upload_chapters: final(state).upload_chapters,
                ..*old(state)
            })
            &&& same_except(old(state).upload_chapters@, final(state).upload_chapters@, chapter_index as int)
            &&& final(state).upload_chapters@[chapter_index as int].name == old(state).upload_chapters@[chapter_index as int].name
            &&& final(state).upload_chapters@[chapter_index as int].files@.len() == 0
        },
        chapter_index >= old(state).upload_chapters@.len() ==> *final(state) == *old(state),
{
    if chapter_index < state.upload_chapters.len() {
        let ghost s = state.upload_chapters@;
        let mut ch = state.upload_chapters.remove(chapter_index);
        ch.files.clear();
        state.upload_chapters.insert(chapter_index, ch);
        assert forall|k: int|
            0 <= k < s.len() && k != chapter_index implies #[trigger] state.upload_chapters@[k]
                == s[k] by {
            assert(state.upload_chapters@[k] == s[k]);
        }
    }
}

/// Removes a chapter; an unknown chapter is ignored.
pub fn handle_chapter_delete_chapter(state: &mut UiState, chapter_index: usize)
    ensures
        chapter_index < old(state).upload_chapters@.len() ==> *final(state) == (UiState {
            upload_chapters: final(state).upload_chapters,
            ..*old(state)
        }) && final(state).upload_chapters@ == old(state).upload_chapters@.remove(
            chapter_index as int,
        ),
        chapter_index >= old(state).upload_chapters@.len() ==> *final(state) == *old(state),
{
    if chapter_index < state.upload_chapters.len() {
        state.upload_chapters.remove(chapter_index);
    }
}

/// Moves a page of a chapter one place up (`direction == -1`) or down
/// (`1`); an unknown chapter or a move past either end does nothing.
/// Returns whether the chapter changed.
pub fn handle_chapter_move_file(
    state: &mut UiState,
    chapter_index: usize,
    file_index: usize,
    direction: i32,
) -> (moved: bool)
    requires
        direction == 1 || direction == -1,
        chapter_index < old(state).upload_chapters@.len() ==> i32::MIN <= (file_index as i32)
            + direction <= i32::MAX,
        chapter_index < old(state).upload_chapters@.len() && 0 <= (file_index as i32) + direction
            < old(state).upload_chapters@[chapter_index as int].files@.len() ==> file_index < old(
            state,
        ).upload_chapters@[chapter_index as int].files@.len(),
    ensures
        moved == (chapter_index < old(state).upload_chapters@.len() && 0 <= (file_index as i32)
            + direction < old(state).upload_chapters@[chapter_index as int].files@.len()),
        moved ==> {
            let old_ch = old(state).upload_chapters@[chapter_index as int];
            let j = (file_index as i32) + direction;
            &&& *final(state) == (UiState {
                upload_chapters: final(state).upload_chapters,
                ..*old(state)
            })
            &&& same_except(old(state).upload_chapters@, final(state).upload_chapters@, chapter_index as int)
            &&& final(state).upload_chapters@[chapter_index as int].name == old_ch.name
            &&& final(state).upload_chapters@[chapter_index as int].files@ == old_ch.files@.update(
                file_index as int,
                old_ch.files@[j],
            ).update(j, old_ch.files@[file_index as int])
        },
        !moved ==> *final(state) == *old(state),
{
    if chapter_index >= state.upload_chapters.len() {
        return false;
    }
    let wi: i32 = #[verifier::truncate] (file_index as i32);
    let ni: i32 = wi + direction;
    if ni < 0 || ni as usize >= state.upload_chapters[chapter_index].files.len() {
        return false;
    }
    let ghost s = state.upload_chapters@;
    let mut ch = state.upload_chapters.remove(chapter_index);
    swap_elements(&mut ch.files, file_index, ni as usize);
    state.upload_chapters.insert(chapter_index, ch);
    assert forall|k: int|
        0 <= k < s.len() && k != chapter_index implies #[trigger] state.upload_chapters@[k]
            == s[k] by {
        assert(state.upload_chapters@[k] == s[k]);
    }
    true
}

/// Removes a page of a chapter; an unknown chapter or page is ignored.
/// Returns whether the chapter changed.
pub fn handle_chapter_del_file(state: &mut UiState, chapter_index: usize, file_index: usize) -> (deleted: bool)
    ensures
        deleted == (chapter_index < old(state).upload_chapters@.len() && file_index < old(state).upload_chapters@[chapter_index as int].files@.len()),
        deleted ==> {
            let old_ch = old(state).upload_chapters@[chapter_index as int];
            &&& *final(state) == (UiState {
                upload_chapters: final(state).upload_chapters,
                ..*old(state)
            })
            &&& same_except(old(state).upload_chapters@, final(state).upload_chapters@, chapter_index as int)
            &&& final(state).upload_chapters@[chapter_index as int].name == old_ch.name
            &&& final(state).upload_chapters@[chapter_index as int].files@ == old_ch.files@.remove(
                file_index as int,
            )
        },
        !deleted ==> *final(state) == *old(state),
{
    if chapter_index >= state.upload_chapters.len() {
        return false;
    }
    if file_index >= state.upload_chapters[chapter_index].files.len() {
        return false;
    }
    let ghost s = state.upload_chapters@;
    let mut ch = state.upload_chapters.remove(chapter_index);
    ch.files.remove(file_index);
    state.upload_chapters.insert(chapter_index, ch);
    assert forall|k: int|
        0 <= k < s.len() && k != chapter_index implies #[trigger] state.upload_chapters@[k]
            == s[k] by {
        assert(state.upload_chapters@[k] == s[k]);
    }
    true
}


/// Whether an upload item carries the given comic name.
pub open spec fn named(name: Seq<char>) -> spec_fn(UploadItem) -> bool {
    |it: UploadItem| it.comic_name@ == name
}

/// Position of the first upload item with the given comic name.
fn find_item_named(items: &Vec<UploadItem>, name: &Vec<char>) -> (r: Option<usize>)
    ensures
        r matches Some(i) ==> first_index(items@, named(name@)) == Some(i as int),
        r is None ==> first_index(items@, named(name@)) is None,
{
    let mut i: usize = 0;
    while i < items.len()
        invariant
            i <= items@.len(),
            forall|k: int| 0 <= k < i ==> !named(name@)(#[trigger] items@[k]),
        decreases items.len() - i,
    {
        if chars_eq(&chars_of(items[i].comic_name.as_str()), name) {
            proof {
                lemma_first_index_at(items@, named(name@), i as int);
            }
            return Some(i);
        }
        i = i + 1;
    }
    proof {
        lemma_first_index_none(items@, named(name@));
    }
    None
}

/// Whether a list of pages holds a page with the given file name.
pub open spec fn has_file_named(files: Seq<UploadFile>, name: Seq<char>) -> bool {
    exists|k: int| 0 <= k < files.len() && #[trigger] files[k].name@ == name
}

fn contains_file_named(files: &Vec<UploadFile>, name: &str) -> (r: bool)
    ensures
        r == has_file_named(files@, name@),
{
    let mut i: usize = 0;
    while i < files.len()
        invariant
            i <= files@.len(),
            forall|k: int| 0 <= k < i ==> #[trigger] files@[k].name@ != name@,
        decreases files.len() - i,
    {
        if str_eq(files[i].name.as_str(), name) {
            return true;
        }
        i = i + 1;
    }
    false
}

/// The comic name a picked file goes under in single-book mode: the name
/// field (trimmed), or, when it is blank, the stem of the file name.
pub open spec fn picked_comic_name(input: Seq<char>, file_name: Seq<char>) -> Seq<char> {
    if trim(input).len() == 0 {
        name_stem(file_name)
    } else {
        trim(input)
    }
}

/// A picked image (already scaled) joins the upload lists.
///
/// Single-book mode: a blank name field takes the suggested comic name; the
/// image joins the pages of the first comic of that name, or else starts a
/// new comic with the image as its cover, named after the (trimmed) name
/// field, or after the file when the field is blank.
///
/// Multi-chapter mode: the image joins the last chapter (one is created when
/// there is none), unless that chapter already has a page of the same file
/// name.
pub fn add_picked_file(state: &mut UiState, file: UploadFile)
    ensures
        old(state).upload_mode is Single ==> {
            let comic = picked_comic_name(old(state).upload_comic_name_input@, file.name@);
            let input = if trim(old(state).upload_comic_name_input@).len() == 0 {
                comic
            } else {
                old(state).upload_comic_name_input@
            };
            &&& *final(state) == (UiState {
                upload_items: final(state).upload_items,
                upload_comic_name_input: final(state).upload_comic_name_input,
                ..*old(state)
            })
            &&& final(state).upload_comic_name_input@ == input
            &&& match first_index(old(state).upload_items@, named(comic)) {
                Some(j) => {
                    &&& same_except(old(state).upload_items@, final(state).upload_items@, j)
                    &&& final(state).upload_items@[j] == (UploadItem {
                        files: final(state).upload_items@[j].files,
                        ..old(state).upload_items@[j]
                    })
                    &&& final(state).upload_items@[j].files@ == old(state).upload_items@[j].files@.push(file)
                },
                None => {
                    &&& final(state).upload_items@.drop_last() == old(state).upload_items@
                    &&& final(state).upload_items@.len() == old(state).upload_items@.len() + 1
                    &&& final(state).upload_items@.last().comic_name@ == if trim(input).len() == 0 {
                        file.name@
                    } else {
                        trim(input)
                    }
                    &&& final(state).upload_items@.last().cover == Some(file)
                    &&& final(state).upload_items@.last().files@.len() == 0
                },
            }
        },
        old(state).upload_mode is Multi ==> {
            let chs = old(state).upload_chapters@;
            &&& *final(state) == (UiState {
                upload_chapters: final(state).upload_chapters,
                ..*old(state)
            })
            &&& chs.len() == 0 ==> final(state).upload_chapters@.len() == 1
                && final(state).upload_chapters@[0].name@.len() == 0
                && final(state).upload_chapters@[0].files@ == seq![file]
            &&& chs.len() > 0 && has_file_named(chs.last().files@, file.name@) ==> final(state).upload_chapters@ == chs
            &&& chs.len() > 0 && !has_file_named(chs.last().files@, file.name@) ==> {
                &&& final(state).upload_chapters@.drop_last() == chs.drop_last()
                &&& final(state).upload_chapters@.len() == chs.len()
                &&& final(state).upload_chapters@.last().name == chs.last().name
                &&& final(state).upload_chapters@.last().files@ == chs.last().files@.push(file)
            }
        },
{
    match state.upload_mode {
        UploadMode::Single => {
            let input_trim = trim_chars(&chars_of(state.upload_comic_name_input.as_str()));
            let comic: Vec<char> = if input_trim.len() == 0 {
                name_stem_of(file.name.as_str())
            } else {
                input_trim
            };
            if trim_chars(&chars_of(state.upload_comic_name_input.as_str())).len() == 0 {
                state.upload_comic_name_input = string_of(&comic);
            }
            match find_item_named(&state.upload_items, &comic) {
                Some(j) => {
                    proof {
                        lemma_first_index_found(state.upload_items@, named(comic@));
                    }
                    let ghost s = state.upload_items@;
                    let mut item = state.upload_items.remove(j);
                    item.files.push(file);
                    state.upload_items.insert(j, item);
                    assert forall|k: int|
                        0 <= k < s.len() && k != j implies #[trigger] state.upload_items@[k]
                            == s[k] by {
                        assert(state.upload_items@[k] == s[k]);
                    }
                },
                None => {
                    let input_now = trim_chars(&chars_of(state.upload_comic_name_input.as_str()));
                    let display = if input_now.len() == 0 {
                        file.name.clone()
                    } else {
                        string_of(&input_now)
                    };
                    let item = UploadItem { comic_name: display, cover: Some(file), files: Vec::new() };
                    state.upload_items.push(item);
                },
            }
        },
        UploadMode::Multi => {
            if state.upload_chapters.len() == 0 {
                state.upload_chapters.push(ChapterItem::default());
            }
            let last = state.upload_chapters.len() - 1;
            if !contains_file_named(&state.upload_chapters[last].files, file.name.as_str()) {
                let ghost s = state.upload_chapters@;
                let mut ch = state.upload_chapters.remove(last);
                ch.files.push(file);
                state.upload_chapters.push(ch);
                assert(state.upload_chapters@.drop_last() =~= s.drop_last());
                proof {
                    if old(state).upload_chapters@.len() == 0 {
                        assert(state.upload_chapters@[0].files@ =~= seq![file]);
                    }
                }
            }
        },
    }
}

/// A picked page joins a chapter, unless the chapter already has a page of
/// the same file name; an unknown chapter is ignored.
pub fn add_chapter_file(state: &mut UiState, chapter_index: usize, file: UploadFile)
    ensures
        chapter_index < old(state).upload_chapters@.len() && !has_file_named(
            old(state).upload_chapters@[chapter_index as int].files@,
            file.name@,
        ) ==> {
            let old_ch = old(state).upload_chapters@[chapter_index as int];
            &&& *final(state) == (UiState {
                upload_chapters: final(state).upload_chapters,
                ..*old(state)
            })
            &&& same_except(old(state).upload_chapters@, final(state).upload_chapters@, chapter_index as int)
            &&& final(state).upload_chapters@[chapter_index as int].name == old_ch.name
            &&& final(state).upload_chapters@[chapter_index as int].files@ == old_ch.files@.push(file)
        },
        !(chapter_index < old(state).upload_chapters@.len() && !has_file_named(
            old(state).upload_chapters@[chapter_index as int].files@,
            file.name@,
        )) ==> *final(state) == *old(state),
{
    if chapter_index < state.upload_chapters.len() {
        if !contains_file_named(&state.upload_chapters[chapter_index].files, file.name.as_str()) {
            let ghost s = state.upload_chapters@;
            let mut ch = state.upload_chapters.remove(chapter_index);
            ch.files.push(file);
            state.upload_chapters.insert(chapter_index, ch);
            assert forall|k: int|
                0 <= k < s.len() && k != chapter_index implies #[trigger] state.upload_chapters@[k]
                    == s[k] by {
                assert(state.upload_chapters@[k] == s[k]);
            }
        }
    }
}

/// A picked cover replaces the cover of the first comic of the upload list
/// (with no comic listed it is dropped).
pub fn set_upload_cover(state: &mut UiState, cover: UploadFile)
    ensures
        old(state).upload_items@.len() > 0 ==> {
            &&& *final(state) == (UiState {
                upload_items: final(state).upload_items,
                ..*old(state)
            })
            &&& final(state).upload_items@ == old(state).upload_items@.update(
                0,
                UploadItem { cover: Some(cover), ..old(state).upload_items@[0] },
            )
        },
        old(state).upload_items@.len() == 0 ==> *final(state) == *old(state),
{
    if state.upload_items.len() > 0 {
        let mut item = state.upload_items.remove(0);
        item.cover = Some(cover);
        state.upload_items.insert(0, item);
    }
}

/// A picked cover becomes the book cover of the multi-chapter upload.
pub fn set_multi_cover(state: &mut UiState, cover: UploadFile)
    ensures
        *final(state) == (UiState { multi_cover: Some(cover), ..*old(state) }),
{
    state.multi_cover = Some(cover);
}

/// The kinds of message the watch app sends.
#[derive(Debug, Clone, Copy, PartialEq, Eq, Structural)]
pub enum InboundKind {
    AppDataHeader,
    AppDataComic,
    AppDataSource,
    AppDataDone,
    CoverDone,
    CoverDataChunk,
    ImportHeaderAck,
    HsPong,
    ImportChunkAck,
    Other,
}

/// The `type` member of a message (empty when it is not text).
pub open spec fn message_type(msg: JsonObject) -> Seq<char> {
    text_or_empty(json_member_of(msg, "type"@))
}

/// A member of a message (`Absent` when missing).
pub open spec fn json_member_of(msg: JsonObject, key: Seq<char>) -> JsonScalar {
    super::state::json_member(msg.entries@, key)
}

/// A non-negative integer member of a message, or `def`, as a `usize`.
pub open spec fn msg_usize(msg: JsonObject, key: Seq<char>, def: u64) -> usize {
    u64_or(json_member_of(msg, key), def) as usize
}

/// A text member of a message, or the empty text.
pub open spec fn msg_text(msg: JsonObject, key: Seq<char>) -> Seq<char> {
    text_or_empty(json_member_of(msg, key))
}

/// The kind named by a message type.
pub open spec fn inbound_kind(t: Seq<char>) -> InboundKind {
    if t == "app_data_header"@ {
        InboundKind::AppDataHeader
    } else if t == "app_data_comic"@ {
        InboundKind::AppDataComic
    } else if t == "app_data_source"@ {
        InboundKind::AppDataSource
    } else if t == "app_data_done"@ {
        InboundKind::AppDataDone
    } else if t == "cover_done"@ {
        InboundKind::CoverDone
    } else if t == "cover_data_chunk"@ {
        InboundKind::CoverDataChunk
    } else if t == "import_header_ack"@ {
        InboundKind::ImportHeaderAck
    } else if t == "hs_pong"@ {
        InboundKind::HsPong
    } else if t == "import_chunk_ack"@ {
        InboundKind::ImportChunkAck
    } else {
        InboundKind::Other
    }
}

/// Each message type of the protocol has its own kind: a message whose
/// `type` member is the text `"import_chunk_ack"` is a chunk ACK, one whose
/// type is `"import_header_ack"` a header confirmation, and so on for every
/// type the watch app sends; a message without a text `type` is of no
/// known kind.
pub proof fn law_message_types_have_their_own_kinds(msg: JsonObject, t: String)
    ensures
        json_member_of(msg, "type"@) == JsonScalar::Text(t) && t@ == "app_data_header"@ ==> inbound_kind(message_type(msg)) == InboundKind::AppDataHeader,
        json_member_of(msg, "type"@) == JsonScalar::Text(t) && t@ == "app_data_comic"@ ==> inbound_kind(message_type(msg)) == InboundKind::AppDataComic,
        json_member_of(msg, "type"@) == JsonScalar::Text(t) && t@ == "app_data_source"@ ==> inbound_kind(message_type(msg)) == InboundKind::AppDataSource,
        json_member_of(msg, "type"@) == JsonScalar::Text(t) && t@ == "app_data_done"@ ==> inbound_kind(message_type(msg)) == InboundKind::AppDataDone,
        json_member_of(msg, "type"@) == JsonScalar::Text(t) && t@ == "cover_done"@ ==> inbound_kind(message_type(msg)) == InboundKind::CoverDone,
        json_member_of(msg, "type"@) == JsonScalar::Text(t) && t@ == "cover_data_chunk"@ ==> inbound_kind(message_type(msg)) == InboundKind::CoverDataChunk,
        json_member_of(msg, "type"@) == JsonScalar::Text(t) && t@ == "import_header_ack"@ ==> inbound_kind(message_type(msg)) == InboundKind::ImportHeaderAck,
        json_member_of(msg, "type"@) == JsonScalar::Text(t) && t@ == "hs_pong"@ ==> inbound_kind(message_type(msg)) == InboundKind::HsPong,
        json_member_of(msg, "type"@) == JsonScalar::Text(t) && t@ == "import_chunk_ack"@ ==> inbound_kind(message_type(msg)) == InboundKind::ImportChunkAck,
        !(json_member_of(msg, "type"@) is Text) ==> inbound_kind(message_type(msg)) == InboundKind::Other,
{
    reveal_strlit("");
    reveal_strlit("app_data_header");
    reveal_strlit("app_data_comic");
    reveal_strlit("app_data_source");
    reveal_strlit("app_data_done");
    reveal_strlit("cover_done");
    reveal_strlit("cover_data_chunk");
    reveal_strlit("import_header_ack");
    reveal_strlit("hs_pong");
    reveal_strlit("import_chunk_ack");
    assert("app_data_comic"@.len() != "app_data_header"@.len());
    assert("app_data_source"@[9] != "app_data_header"@[9]);
    assert("app_data_source"@.len() != "app_data_comic"@.len());
    assert("app_data_done"@.len() != "app_data_header"@.len());
    assert("app_data_done"@.len() != "app_data_comic"@.len());
    assert("app_data_done"@.len() != "app_data_source"@.len());
    assert("cover_done"@.len() != "app_data_header"@.len());
    assert("cover_done"@.len() != "app_data_comic"@.len());
    assert("cover_done"@.len() != "app_data_source"@.len());
    assert("cover_done"@.len() != "app_data_done"@.len());
    assert("cover_data_chunk"@.len() != "app_data_header"@.len());
    assert("cover_data_chunk"@.len() != "app_data_comic"@.len());
    assert("cover_data_chunk"@.len() != "app_data_source"@.len());
    assert("cover_data_chunk"@.len() != "app_data_done"@.len());
    assert("cover_data_chunk"@.len() != "cover_done"@.len());
    assert("import_header_ack"@.len() != "app_data_header"@.len());
    assert("import_header_ack"@.len() != "app_data_comic"@.len());
    assert("import_header_ack"@.len() != "app_data_source"@.len());
    assert("import_header_ack"@.len() != "app_data_done"@.len());
    assert("import_header_ack"@.len() != "cover_done"@.len());
    assert("import_header_ack"@.len() != "cover_data_chunk"@.len());
    assert("hs_pong"@.len() != "app_data_header"@.len());
    assert("hs_pong"@.len() != "app_data_comic"@.len());
    assert("hs_pong"@.len() != "app_data_source"@.len());
    assert("hs_pong"@.len() != "app_data_done"@.len());
    assert("hs_pong"@.len() != "cover_done"@.len());
    assert("hs_pong"@.len() != "cover_data_chunk"@.len());
    assert("hs_pong"@.len() != "import_header_ack"@.len());
    assert("import_chunk_ack"@.len() != "app_data_header"@.len());
    assert("import_chunk_ack"@.len() != "app_data_comic"@.len());
    assert("import_chunk_ack"@.len() != "app_data_source"@.len());
    assert("import_chunk_ack"@.len() != "app_data_done"@.len());
    assert("import_chunk_ack"@.len() != "cover_done"@.len());
    assert("import_chunk_ack"@[0] != "cover_data_chunk"@[0]);
    assert("import_chunk_ack"@.len() != "import_header_ack"@.len());
    assert("import_chunk_ack"@.len() != "hs_pong"@.len());
}

/// The kind of a message.
pub fn message_kind(msg: &JsonObject) -> (k: InboundKind)
    ensures
        k == inbound_kind(message_type(*msg)),
{
    let t = read_text(member(msg, "type"));
    let t = t.as_str();
    if str_eq(t, "app_data_header") {
        InboundKind::AppDataHeader
    } else if str_eq(t, "app_data_comic") {
        InboundKind::AppDataComic
    } else if str_eq(t, "app_data_source") {
        InboundKind::AppDataSource
    } else if str_eq(t, "app_data_done") {
        InboundKind::AppDataDone
    } else if str_eq(t, "cover_done") {
        InboundKind::CoverDone
    } else if str_eq(t, "cover_data_chunk") {
        InboundKind::CoverDataChunk
    } else if str_eq(t, "import_header_ack") {
        InboundKind::ImportHeaderAck
    } else if str_eq(t, "hs_pong") {
        InboundKind::HsPong
    } else if str_eq(t, "import_chunk_ack") {
        InboundKind::ImportChunkAck
    } else {
        InboundKind::Other
    }
}

/// The inbound messages whose numbers stay in range: acknowledgement
/// numbers must fit in a `usize`, and a cover chunk's index must be within
/// its announced total.
pub open spec fn message_fits(s: UiState, msg: JsonObject) -> bool {
    match inbound_kind(message_type(msg)) {
        InboundKind::AppDataComic => msg_usize(msg, "index"@, 0) < usize::MAX,
        InboundKind::AppDataSource => 1 + count_or_zero(s.app_comic_count) + msg_usize(
            msg,
            "index"@,
            0,
        ) <= usize::MAX,
        InboundKind::AppDataDone => 1 + count_or_zero(s.app_comic_count) + count_or_zero(
            s.app_source_count,
        ) <= usize::MAX,
        InboundKind::CoverDataChunk => msg_text(msg, "name"@).len() > 0 && msg_text(
            msg,
            "data"@,
        ).len() > 0 ==> msg_usize(msg, "index"@, 0) < msg_usize(msg, "total"@, 1),
        _ => true,
    }
}

fn read_usize(x: Option<&JsonScalar>, def: u64) -> (r: usize)
    ensures
        r == u64_or(scalar_of(x), def) as usize,
{
    #[verifier::truncate]
    (read_u64_or(x, def) as usize)
}

fn count_of(c: Option<usize>) -> (r: usize)
    ensures
        r == count_or_zero(c),
{
    match c {
        Some(n) => n,
        None => 0,
    }
}

/// Whether a message's numbers are in range (see `message_fits`).
pub fn message_in_range(state: &UiState, msg: &JsonObject) -> (ok: bool)
    ensures
        ok == message_fits(*state, *msg),
{
    match message_kind(msg) {
        InboundKind::AppDataComic => read_usize(member(msg, "index"), 0) < usize::MAX,
        InboundKind::AppDataSource => {
            let c = count_of(state.app_comic_count);
            let i = read_usize(member(msg, "index"), 0);
            c < usize::MAX && i <= usize::MAX - 1 - c
        },
        InboundKind::AppDataDone => {
            let c = count_of(state.app_comic_count);
            let n = count_of(state.app_source_count);
            c < usize::MAX && n <= usize::MAX - 1 - c
        },
        InboundKind::CoverDataChunk => {
            proof {
                reveal_strlit("");
            }
            let name = read_text(member(msg, "name"));
            let data = read_text(member(msg, "data"));
            if str_eq(name.as_str(), "") || str_eq(data.as_str(), "") {
                assert(name@.len() == 0 || data@.len() == 0);
                true
            } else {
                assert(name@.len() > 0 && data@.len() > 0) by {
                    if name@.len() == 0 {
                        assert(name@ =~= ""@);
                    }
                    if data@.len() == 0 {
                        assert(data@ =~= ""@);
                    }
                }
                read_usize(member(msg, "index"), 0) < read_usize(member(msg, "total"), 1)
            }
        },
        _ => true,
    }
}

/// A message back to the watch app.
pub enum Reply {
    /// Acknowledges data message number `n`.
    AppDataAck(usize),
    /// Acknowledges the completed cover of a comic.
    CoverAck(String),
}

/// How an accepted upload confirmation resumes the upload: stop the
/// header (or chunk) timer and send the next chunk.
#[derive(Debug, Clone, Copy, PartialEq, Eq, Structural)]
pub enum UploadResume {
    Idle,
    AfterHeader,
    AfterChunk,
}

/// What handling an inbound message asks of the caller.
pub struct MessageEffects {
    pub kind: InboundKind,
    /// To send to the watch app, when a device is connected.
    pub reply: Option<Reply>,
    /// What to do with the overall receive timeout.
    pub recv_timer: Option<RecvTimer>,
    /// A status line change to apply.
    pub status: Option<StatusChange>,
    /// The root element to re-render.
    pub root: Option<String>,
    /// Whether to re-render the comic-data card.
    pub render_card: bool,
    pub upload: UploadResume,
    /// A handshake completed: its continuation runs with these settings.
    pub handshake_done: Option<WatchSettings>,
}

/// Effects that touch neither the upload nor a handshake.
pub open spec fn no_upload_or_handshake(fx: MessageEffects) -> bool {
    fx.upload == UploadResume::Idle && fx.handshake_done is None
}

/// Effects of a message that only changes state (or nothing at all).
pub open spec fn quiet(fx: MessageEffects) -> bool {
    &&& fx.reply is None
    &&& fx.recv_timer is None
    &&& fx.status is None
    &&& fx.root is None
    &&& !fx.render_card
    &&& no_upload_or_handshake(fx)
}

/// An inbound message from the watch app (its payload already decoded to
/// an object; a payload that is no object is an empty one).
///
/// - `app_data_header`, `app_data_comic`, `app_data_source`, `app_data_done`:
///   the data lists (see `on_app_data_*`); each is acknowledged with its
///   message number.
/// - `cover_data_chunk`, `cover_done`: the covers; a completed cover is
///   acknowledged by name.
/// - `import_header_ack`, `import_chunk_ack`: confirmations of the upload
///   in progress; an accepted one resumes sending.
/// - `hs_pong`: a handshake answer, applied only when a device is connected
///   (`device_addr`); it opens the device's session with the watch app's
///   settings and completes a waiting handshake.
/// - anything else is ignored.
///
/// `now_ms` is the monotonic clock of the handshake sessions, `now_secs`
/// the wall clock stamping covers that wait for their comic.
pub fn handle_interconnect_message(
    state: &mut UiState,
    sessions: &mut HandshakeState,
    pending: &mut Option<PendingHandshake>,
    msg: &JsonObject,
    device_addr: Option<&str>,
    now_ms: u64,
    now_secs: u64,
) -> (fx: MessageEffects)
    requires
        old(sessions).wf(),
        old(state).upload_session matches Some(s) ==> s.wf(),
        message_fits(*old(state), *msg),
    ensures
        old(state).maps_wf() ==> final(state).maps_wf(),
        final(sessions).wf(),
        final(state).upload_session matches Some(s) ==> s.wf(),
        fx.kind == inbound_kind(message_type(*msg)),
        fx.kind != InboundKind::HsPong ==> *final(sessions) == *old(sessions) && *final(pending)
            == *old(pending),
        fx.kind == InboundKind::AppDataHeader ==> {
            &&& header_applied(
                *old(state),
                *final(state),
                msg_usize(*msg, "comic_count"@, 0),
                msg_usize(*msg, "source_count"@, 0),
            )
            &&& fx.reply == Some(Reply::AppDataAck(0))
            &&& fx.recv_timer is None && fx.status is None && fx.root is None && !fx.render_card
            &&& no_upload_or_handshake(fx)
        },
        fx.kind == InboundKind::AppDataComic ==> {
            let comic = json_get(msg.entries@, "comic"@);
            &&& comic_applied(*old(state), *final(state), msg_usize(*msg, "index"@, 0), comic)
            &&& fx.reply == Some(Reply::AppDataAck((msg_usize(*msg, "index"@, 0) + 1) as usize))
            &&& fx.recv_timer is None && fx.status is None
            &&& fx.root == if comic is Some {
                old(state).root_element_id
            } else {
                None
            }
            &&& fx.render_card == (comic is Some && old(state).root_element_id is Some)
            &&& no_upload_or_handshake(fx)
        },
        fx.kind == InboundKind::AppDataSource ==> {
            let source = json_get(msg.entries@, "source"@);
            &&& source_applied(*old(state), *final(state), msg_usize(*msg, "index"@, 0), source)
            &&& fx.reply == Some(
                Reply::AppDataAck(
                    (1 + count_or_zero(old(state).app_comic_count) + msg_usize(*msg, "index"@, 0)) as usize,
                ),
            )
            &&& fx.recv_timer is None && fx.status is None && !fx.render_card
            &&& fx.root == if source is Some {
                old(state).root_element_id
            } else {
                None
            }
            &&& no_upload_or_handshake(fx)
        },
        fx.kind == InboundKind::AppDataDone ==> {
            &&& done_applied(*old(state), *final(state))
            &&& fx.reply == Some(
                Reply::AppDataAck(
                    (1 + count_or_zero(old(state).app_comic_count) + count_or_zero(
                        old(state).app_source_count,
                    )) as usize,
                ),
            )
            &&& fx.recv_timer == Some(done_timer(*old(state)))
            &&& fx.status is None
            &&& fx.root == old(state).root_element_id
            &&& fx.render_card
            &&& no_upload_or_handshake(fx)
        },
        fx.kind == InboundKind::CoverDone ==> {
            &&& final(state).app_data_status matches StatusState::Success(m) && m@ == "数据获取成功！"@
            &&& *final(state) == (UiState { app_data_status: final(state).app_data_status, ..*old(state) })
            &&& fx.recv_timer == Some(RecvTimer::Disarm)
            &&& fx.status matches Some(c) && c.cancel_timer == old(state).app_data_timer_id
                && c.arm_hide_timer && c.root == old(state).root_element_id
            &&& fx.reply is None && fx.root is None && fx.render_card
            &&& no_upload_or_handshake(fx)
        },
        fx.kind == InboundKind::CoverDataChunk ==> {
            let done = fx.render_card;
            &&& cover_chunk_applied(
                *old(state),
                *final(state),
                msg_text(*msg, "name"@),
                msg_usize(*msg, "index"@, 0),
                msg_usize(*msg, "total"@, 1),
                msg_text(*msg, "data"@),
                now_secs,
                done,
            )
            &&& done ==> (fx.reply matches Some(Reply::CoverAck(n)) && n@ == msg_text(*msg, "name"@))
            &&& !done ==> fx.reply is None
            &&& fx.root == if done {
                old(state).root_element_id
            } else {
                None
            }
            &&& fx.recv_timer is None && fx.status is None
            &&& no_upload_or_handshake(fx)
        },
        fx.kind == InboundKind::ImportHeaderAck ==> {
            let start = header_ack_is_fresh(old(state).upload_session, msg_text(*msg, "name"@));
            &&& start ==> *final(state) == (UiState {
                upload_session: Some(
                    super::state::UploadSession { header_acked: true, ..old(state).upload_session->0 },
                ),
                ..*old(state)
            })
            &&& !start ==> *final(state) == *old(state)
            &&& fx.upload == if start {
                UploadResume::AfterHeader
            } else {
                UploadResume::Idle
            }
            &&& fx.reply is None && fx.recv_timer is None && fx.status is None && fx.root is None
            &&& !fx.render_card && fx.handshake_done is None
        },
        fx.kind == InboundKind::ImportChunkAck ==> {
            let accepted = ack_names_chunk_in_flight(
                old(state).upload_session,
                msg_text(*msg, "name"@),
                msg_text(*msg, "file"@),
                msg_usize(*msg, "index"@, 0),
            );
            &&& accepted ==> *final(state) == (UiState {
                upload_session: Some(
                    super::state::UploadSession {
                        awaiting: None,
                        retry_count: 0,
                        ..old(state).upload_session->0
                    },
                ),
                ..*old(state)
            })
            &&& !accepted ==> *final(state) == *old(state)
            &&& fx.upload == if accepted {
                UploadResume::AfterChunk
            } else {
                UploadResume::Idle
            }
            &&& fx.reply is None && fx.recv_timer is None && fx.status is None && fx.root is None
            &&& !fx.render_card && fx.handshake_done is None
        },
        fx.kind == InboundKind::HsPong ==> match device_addr {
            None => *final(state) == *old(state) && *final(sessions) == *old(sessions)
                && *final(pending) == *old(pending) && quiet(fx),
            Some(addr) => {
                let settings = match json_get(msg.entries@, "settings"@) {
                    Some(JsonScalar::Object(o)) => WatchSettings::from_json_spec(o),
                    _ => WatchSettings::spec_default(),
                };
                &&& *final(state) == (UiState { watch_settings: Some(settings), ..*old(state) })
                &&& forall|k: Seq<char>|
                    #[trigger] final(sessions).lookup(k) == if k == addr@ {
                        Some(
                            touched(
                                fresh_only(old(sessions).lookup(k), now_ms),
                                Some(true),
                                Some(settings),
                                now_ms,
                            ),
                        )
                    } else {
                        fresh_only(old(sessions).lookup(k), now_ms)
                    }
                &&& pending_in(*old(pending), true) ==> *final(pending) is None
                    && fx.handshake_done == Some(settings)
                &&& !pending_in(*old(pending), true) ==> *final(pending) == *old(pending)
                    && fx.handshake_done is None
                &&& fx.reply is None && fx.recv_timer is None && fx.status is None
                &&& fx.root is None && !fx.render_card && fx.upload == UploadResume::Idle
            },
        },
        fx.kind == InboundKind::Other ==> *final(state) == *old(state) && quiet(fx),
{
    let kind = message_kind(msg);
    let mut fx = MessageEffects {
        kind,
        reply: None,
        recv_timer: None,
        status: None,
        root: None,
        render_card: false,
        upload: UploadResume::Idle,
        handshake_done: None,
    };
    match kind {
        InboundKind::AppDataHeader => {
            let comic_count = read_usize(member(msg, "comic_count"), 0);
            let source_count = read_usize(member(msg, "source_count"), 0);
            on_app_data_header(state, comic_count, source_count);
            fx.reply = Some(Reply::AppDataAck(0));
        },
        InboundKind::AppDataComic => {
            let index = read_usize(member(msg, "index"), 0);
            let comic = member(msg, "comic");
            let root = copy_opt_string(&state.root_element_id);
            let present = comic.is_some();
            let ack = on_app_data_comic(state, index, comic);
            fx.reply = Some(Reply::AppDataAck(ack));
            if present {
                fx.render_card = root.is_some();
                fx.root = root;
            }
        },
        InboundKind::AppDataSource => {
            let index = read_usize(member(msg, "index"), 0);
            let source = member(msg, "source");
            let root = copy_opt_string(&state.root_element_id);
            let present = source.is_some();
            let ack = on_app_data_source(state, index, source);
            fx.reply = Some(Reply::AppDataAck(ack));
            if present {
                fx.root = root;
            }
        },
        InboundKind::AppDataDone => {
            let root = copy_opt_string(&state.root_element_id);
            let (ack, timer) = on_app_data_done(state);
            fx.reply = Some(Reply::AppDataAck(ack));
            fx.recv_timer = Some(timer);
            fx.root = root;
            fx.render_card = true;
        },
        InboundKind::CoverDone => {
            fx.status = Some(on_cover_done(state));
            fx.recv_timer = Some(RecvTimer::Disarm);
            fx.render_card = true;
        },
        InboundKind::CoverDataChunk => {
            let name = read_text(member(msg, "name"));
            let index = read_usize(member(msg, "index"), 0);
            let total = read_usize(member(msg, "total"), 1);
            let data = read_text(member(msg, "data"));
            let root = copy_opt_string(&state.root_element_id);
            let done = on_cover_chunk(state, name.as_str(), index, total, data.as_str(), now_secs);
            if done {
                fx.reply = Some(Reply::CoverAck(name));
                fx.root = root;
                fx.render_card = true;
            }
        },
        InboundKind::ImportHeaderAck => {
            let name = read_text(member(msg, "name"));
            if on_header_ack(state, name.as_str()) {
                fx.upload = UploadResume::AfterHeader;
            }
        },
        InboundKind::ImportChunkAck => {
            let name = read_text(member(msg, "name"));
            let file = read_text(member(msg, "file"));
            let index = read_usize(member(msg, "index"), 0);
            if on_chunk_ack(state, name.as_str(), file.as_str(), index) {
                fx.upload = UploadResume::AfterChunk;
            }
        },
        InboundKind::HsPong => {
            if let Some(addr) = device_addr {
                let settings_json = match member(msg, "settings") {
                    Some(JsonScalar::Object(o)) => Some(o),
                    _ => None,
                };
                let (settings, completed) = handle_hs_pong(
                    sessions,
                    pending,
                    addr,
                    settings_json,
                    now_ms,
                );
                state.watch_settings = Some(settings);
                if completed {
                    fx.handshake_done = Some(settings);
                }
            }
        },
        InboundKind::Other => {},
    }
    fx
}

/// What a UI event asks for. Events that carry text (`value` in their
/// payload) are only acted on when the payload holds it; the caller hands
/// the text to the handler.
#[derive(Debug, Clone, Copy, PartialEq, Eq, Structural)]
pub enum UiCommand {
    DomainInput,
    DomainBlur,
    CookieInput,
    Sync,
    HideStatus,
    HideAppDataStatus,
    HideUploadStatus,
    UploadNameInput,
    UploadModeSingle,
    UploadModeMulti,
    PickFiles,
    UploadStart,
    UploadClear,
    AddChapter,
    PickCover,
    PickMultiCover,
    ShowTab(TabPage),
    FetchAppData,
    UploadMove(usize, i32),
    UploadDelete(usize),
    ChapterPickFiles(usize),
    ChapterUpload(usize),
    ChapterClear(usize),
    ChapterDelete(usize),
    ChapterMoveFile(usize, usize, i32),
    ChapterDelFile(usize, usize),
    ChapterNameInput(usize),
    DeleteComic(usize),
    DeleteSource(usize),
    Ignored,
}

/// `s` without the prefix `p`, when it starts with it.
pub open spec fn strip(s: Seq<char>, p: Seq<char>) -> Option<Seq<char>> {
    if p.len() <= s.len() && s.take(p.len() as int) == p {
        Some(s.skip(p.len() as int))
    } else {
        None
    }
}

/// An index argument: an unsigned number that fits in a `usize`.
pub open spec fn index_arg(s: Seq<char>) -> Option<usize> {
    match parse_unsigned(s) {
        Some(n) => if n <= usize::MAX {
            Some(n as usize)
        } else {
            None
        },
        None => None,
    }
}

/// Two index arguments around the first `_`.
pub open spec fn pair_arg(s: Seq<char>) -> Option<(usize, usize)> {
    match first_index(s, |c: char| c == '_') {
        Some(u) => match (index_arg(s.take(u)), index_arg(s.skip(u + 1))) {
            (Some(a), Some(b)) => Some((a, b)),
            _ => None,
        },
        None => None,
    }
}

/// An indexed event: the command for the index after prefix `p`, when
/// `id` starts with `p` (`Ignored` when the index does not parse).
pub open spec fn indexed(rest: Seq<char>, f: spec_fn(usize) -> UiCommand) -> UiCommand {
    match index_arg(rest) {
        Some(i) => f(i),
        None => UiCommand::Ignored,
    }
}

pub open spec fn paired(rest: Seq<char>, f: spec_fn(usize, usize) -> UiCommand) -> UiCommand {
    match pair_arg(rest) {
        Some((a, b)) => f(a, b),
        None => UiCommand::Ignored,
    }
}

/// The command for an event id with an indexed prefix.
pub open spec fn prefixed_command(id: Seq<char>, has_value: bool) -> UiCommand {
    if let Some(r) = strip(id, UPLOAD_MOVE_UP_PREFIX@) {
        indexed(r, |i: usize| UiCommand::UploadMove(i, -1i32))
    } else if let Some(r) = strip(id, UPLOAD_MOVE_DOWN_PREFIX@) {
        indexed(r, |i: usize| UiCommand::UploadMove(i, 1i32))
    } else if let Some(r) = strip(id, UPLOAD_DELETE_PREFIX@) {
        indexed(r, |i: usize| UiCommand::UploadDelete(i))
    } else if let Some(r) = strip(id, CHAPTER_PICK_FILES_PREFIX@) {
        indexed(r, |i: usize| UiCommand::ChapterPickFiles(i))
    } else if let Some(r) = strip(id, CHAPTER_UPLOAD_PREFIX@) {
        indexed(r, |i: usize| UiCommand::ChapterUpload(i))
    } else if let Some(r) = strip(id, CHAPTER_CLEAR_PREFIX@) {
        indexed(r, |i: usize| UiCommand::ChapterClear(i))
    } else if let Some(r) = strip(id, CHAPTER_DELETE_PREFIX@) {
        indexed(r, |i: usize| UiCommand::ChapterDelete(i))
    } else if let Some(r) = strip(id, CHAPTER_MOVE_UP_PREFIX@) {
        paired(r, |a: usize, b: usize| UiCommand::ChapterMoveFile(a, b, -1i32))
    } else if let Some(r) = strip(id, CHAPTER_MOVE_DOWN_PREFIX@) {
        paired(r, |a: usize, b: usize| UiCommand::ChapterMoveFile(a, b, 1i32))
    } else if let Some(r) = strip(id, CHAPTER_DEL_FILE_PREFIX@) {
        paired(r, |a: usize, b: usize| UiCommand::ChapterDelFile(a, b))
    } else if let Some(r) = strip(id, CHAPTER_NAME_INPUT_PREFIX@) {
        if has_value {
            indexed(r, |i: usize| UiCommand::ChapterNameInput(i))
        } else {
            UiCommand::Ignored
        }
    } else if let Some(r) = strip(id, DELETE_COMIC_PREFIX@) {
        indexed(r, |i: usize| UiCommand::DeleteComic(i))
    } else if let Some(r) = strip(id, DELETE_SOURCE_PREFIX@) {
        indexed(r, |i: usize| UiCommand::DeleteSource(i))
    } else {
        UiCommand::Ignored
    }
}

/// A text event: its command when the payload carries text.
pub open spec fn with_value(has_value: bool, c: UiCommand) -> UiCommand {
    if has_value {
        c
    } else {
        UiCommand::Ignored
    }
}

/// The command for a UI event id; `has_value` tells whether the payload
/// carries text.
pub open spec fn ui_command(id: Seq<char>, has_value: bool) -> UiCommand {
    if id == DOMAIN_INPUT_CHANGE_EVENT@ {
        with_value(has_value, UiCommand::DomainInput)
    } else if id == DOMAIN_INPUT_BLUR_EVENT@ {
        with_value(has_value, UiCommand::DomainBlur)
    } else if id == COOKIE_INPUT_EVENT@ {
        with_value(has_value, UiCommand::CookieInput)
    } else if id == SYNC_BUTTON_EVENT@ {
        UiCommand::Sync
    } else if id == HIDE_STATUS_EVENT@ {
        UiCommand::HideStatus
    } else if id == HIDE_APP_DATA_STATUS_EVENT@ {
        UiCommand::HideAppDataStatus
    } else if id == HIDE_UPLOAD_STATUS_EVENT@ {
        UiCommand::HideUploadStatus
    } else if id == UPLOAD_NAME_INPUT_EVENT@ {
        with_value(has_value, UiCommand::UploadNameInput)
    } else if id == UPLOAD_MODE_SINGLE_EVENT@ {
        UiCommand::UploadModeSingle
    } else if id == UPLOAD_MODE_MULTI_EVENT@ {
        UiCommand::UploadModeMulti
    } else if id == UPLOAD_PICK_FILES_EVENT@ {
        UiCommand::PickFiles
    } else if id == UPLOAD_START_EVENT@ {
        UiCommand::UploadStart
    } else if id == UPLOAD_CLEAR_EVENT@ {
        UiCommand::UploadClear
    } else if id == UPLOAD_ADD_CHAPTER_EVENT@ {
        UiCommand::AddChapter
    } else if id == UPLOAD_PICK_COVER_EVENT@ {
        UiCommand::PickCover
    } else if id == UPLOAD_PICK_MULTI_COVER_EVENT@ {
        UiCommand::PickMultiCover
    } else if id == TAB_SYNC_EVENT@ {
        UiCommand::ShowTab(TabPage::Sync)
    } else if id == TAB_DATA_EVENT@ {
        UiCommand::ShowTab(TabPage::Data)
    } else if id == TAB_UPLOAD_EVENT@ {
        UiCommand::ShowTab(TabPage::Upload)
    } else if id == FETCH_APP_DATA_EVENT@ {
        UiCommand::FetchAppData
    } else {
        prefixed_command(id, has_value)
    }
}

/// `id` does not start with `q` when they differ at position `k`.
proof fn lemma_not_prefix(id: Seq<char>, q: Seq<char>, k: int)
    requires
        0 <= k < q.len(),
        k < id.len(),
        id[k] != q[k],
    ensures
        strip(id, q) is None,
{
    if q.len() <= id.len() && id.take(q.len() as int) == q {
        assert(id.take(q.len() as int)[k] == id[k]);
    }
}

/// A prefix followed by the rest strips to the rest.
proof fn lemma_strip_prefix(p: Seq<char>, rest: Seq<char>)
    ensures
        strip(p + rest, p) == Some(rest),
{
    assert((p + rest).take(p.len() as int) =~= p);
    assert((p + rest).skip(p.len() as int) =~= rest);
}

/// A number written in decimal is an index argument for that number.
proof fn lemma_index_arg_decimal(a: usize)
    ensures
        index_arg(decimal(a as nat)) == Some(a),
{
    lemma_decimal_parses(a as nat);
}

/// Two numbers in decimal around a `_` are the pair argument for them.
proof fn lemma_pair_arg_decimals(a: usize, b: usize)
    ensures
        pair_arg(decimal(a as nat) + "_"@ + decimal(b as nat)) == Some((a, b)),
{
    reveal_strlit("_");
    lemma_decimal_parses(a as nat);
    lemma_decimal_parses(b as nat);
    let da = decimal(a as nat);
    let db = decimal(b as nat);
    let r = da + "_"@ + db;
    let p = |c: char| c == '_';
    assert forall|k: int| 0 <= k < da.len() implies !p(#[trigger] r[k]) by {
        assert(r[k] == da[k]);
        assert(is_digit(da[k]));
    }
    assert(r[da.len() as int] == '_');
    lemma_first_index_at(r, p, da.len() as int);
    assert(r.take(da.len() as int) =~= da);
    assert(r.skip(da.len() as int + 1) =~= db);
    lemma_index_arg_decimal(a);
    lemma_index_arg_decimal(b);
}


proof fn lemma_route_chapter_move_up(a: usize, b: usize, hv: bool)
    ensures
        ui_command(CHAPTER_MOVE_UP_PREFIX@ + decimal(a as nat) + "_"@ + decimal(b as nat), hv) == UiCommand::ChapterMoveFile(a, b, -1i32),
{
    let rest = decimal(a as nat) + "_"@ + decimal(b as nat);
    let id = CHAPTER_MOVE_UP_PREFIX@ + rest;
    assert(CHAPTER_MOVE_UP_PREFIX@ + decimal(a as nat) + "_"@ + decimal(b as nat) =~= id);
    reveal_strlit("chapter_move_up_");
    assert(CHAPTER_MOVE_UP_PREFIX@ == "chapter_move_up_"@);
    assert(id.len() > CHAPTER_MOVE_UP_PREFIX@.len());
    assert forall|k: int| 0 <= k < CHAPTER_MOVE_UP_PREFIX@.len() implies id[k] == CHAPTER_MOVE_UP_PREFIX@[k] by {}
    reveal_strlit("domain_input_change");
    assert(DOMAIN_INPUT_CHANGE_EVENT@ == "domain_input_change"@);
    assert(id[0] != DOMAIN_INPUT_CHANGE_EVENT@[0]);
    reveal_strlit("domain_input_blur");
    assert(DOMAIN_INPUT_BLUR_EVENT@ == "domain_input_blur"@);
    assert(id[0] != DOMAIN_INPUT_BLUR_EVENT@[0]);
    reveal_strlit("cookie_input");
    assert(COOKIE_INPUT_EVENT@ == "cookie_input"@);
    assert(id[1] != COOKIE_INPUT_EVENT@[1]);
    reveal_strlit("sync_button");
    assert(SYNC_BUTTON_EVENT@ == "sync_button"@);
    assert(id[0] != SYNC_BUTTON_EVENT@[0]);
    reveal_strlit("hide_status");
    assert(HIDE_STATUS_EVENT@ == "hide_status"@);
    assert(id[0] != HIDE_STATUS_EVENT@[0]);
    reveal_strlit("hide_app_data_status");
    assert(HIDE_APP_DATA_STATUS_EVENT@ == "hide_app_data_status"@);
    assert(id[0] != HIDE_APP_DATA_STATUS_EVENT@[0]);
    reveal_strlit("hide_upload_status");
    assert(HIDE_UPLOAD_STATUS_EVENT@ == "hide_upload_status"@);
    assert(id[0] != HIDE_UPLOAD_STATUS_EVENT@[0]);
    reveal_strlit("upload_name_input");
    assert(UPLOAD_NAME_INPUT_EVENT@ == "upload_name_input"@);
    assert(id[0] != UPLOAD_NAME_INPUT_EVENT@[0]);
    reveal_strlit("upload_mode_single");
    assert(UPLOAD_MODE_SINGLE_EVENT@ == "upload_mode_single"@);
    assert(id[0] != UPLOAD_MODE_SINGLE_EVENT@[0]);
    reveal_strlit("upload_mode_multi");
    assert(UPLOAD_MODE_MULTI_EVENT@ == "upload_mode_multi"@);
    assert(id[0] != UPLOAD_MODE_MULTI_EVENT@[0]);
    reveal_strlit("upload_pick_files");
    assert(UPLOAD_PICK_FILES_EVENT@ == "upload_pick_files"@);
    assert(id[0] != UPLOAD_PICK_FILES_EVENT@[0]);
    reveal_strlit("upload_start");
    assert(UPLOAD_START_EVENT@ == "upload_start"@);
    assert(id[0] != UPLOAD_START_EVENT@[0]);
    reveal_strlit("upload_clear");
    assert(UPLOAD_CLEAR_EVENT@ == "upload_clear"@);
    assert(id[0] != UPLOAD_CLEAR_EVENT@[0]);
    reveal_strlit("upload_add_chapter");
    assert(UPLOAD_ADD_CHAPTER_EVENT@ == "upload_add_chapter"@);
    assert(id[0] != UPLOAD_ADD_CHAPTER_EVENT@[0]);
    reveal_strlit("upload_pick_cover");
    assert(UPLOAD_PICK_COVER_EVENT@ == "upload_pick_cover"@);
    assert(id[0] != UPLOAD_PICK_COVER_EVENT@[0]);
    reveal_strlit("upload_pick_multi_cover");
    assert(UPLOAD_PICK_MULTI_COVER_EVENT@ == "upload_pick_multi_cover"@);
    assert(id[0] != UPLOAD_PICK_MULTI_COVER_EVENT@[0]);
    reveal_strlit("tab_sync");
    assert(TAB_SYNC_EVENT@ == "tab_sync"@);
    assert(id[0] != TAB_SYNC_EVENT@[0]);
    reveal_strlit("tab_data");
    assert(TAB_DATA_EVENT@ == "tab_data"@);
    assert(id[0] != TAB_DATA_EVENT@[0]);
    reveal_strlit("tab_upload");
    assert(TAB_UPLOAD_EVENT@ == "tab_upload"@);
    assert(id[0] != TAB_UPLOAD_EVENT@[0]);
    reveal_strlit("fetch_app_data");
    assert(FETCH_APP_DATA_EVENT@ == "fetch_app_data"@);
    assert(id[0] != FETCH_APP_DATA_EVENT@[0]);
    reveal_strlit("upload_move_up_");
    assert(UPLOAD_MOVE_UP_PREFIX@ == "upload_move_up_"@);
    lemma_not_prefix(id, UPLOAD_MOVE_UP_PREFIX@, 0);
    reveal_strlit("upload_move_down_");
    assert(UPLOAD_MOVE_DOWN_PREFIX@ == "upload_move_down_"@);
    lemma_not_prefix(id, UPLOAD_MOVE_DOWN_PREFIX@, 0);
    reveal_strlit("upload_delete_");
    assert(UPLOAD_DELETE_PREFIX@ == "upload_delete_"@);
    lemma_not_prefix(id, UPLOAD_DELETE_PREFIX@, 0);
    reveal_strlit("chapter_pick_files_");
    assert(CHAPTER_PICK_FILES_PREFIX@ == "chapter_pick_files_"@);
    lemma_not_prefix(id, CHAPTER_PICK_FILES_PREFIX@, 8);
    reveal_strlit("chapter_upload_");
    assert(CHAPTER_UPLOAD_PREFIX@ == "chapter_upload_"@);
    lemma_not_prefix(id, CHAPTER_UPLOAD_PREFIX@, 8);
    reveal_strlit("chapter_clear_");
    assert(CHAPTER_CLEAR_PREFIX@ == "chapter_clear_"@);
    lemma_not_prefix(id, CHAPTER_CLEAR_PREFIX@, 8);
    reveal_strlit("chapter_delete_");
    assert(CHAPTER_DELETE_PREFIX@ == "chapter_delete_"@);
    lemma_not_prefix(id, CHAPTER_DELETE_PREFIX@, 8);
    lemma_strip_prefix(CHAPTER_MOVE_UP_PREFIX@, rest);
    lemma_pair_arg_decimals(a, b);
}

proof fn lemma_route_chapter_move_down(a: usize, b: usize, hv: bool)
    ensures
        ui_command(CHAPTER_MOVE_DOWN_PREFIX@ + decimal(a as nat) + "_"@ + decimal(b as nat), hv) == UiCommand::ChapterMoveFile(a, b, 1i32),
{
    let rest = decimal(a as nat) + "_"@ + decimal(b as nat);
    let id = CHAPTER_MOVE_DOWN_PREFIX@ + rest;
    assert(CHAPTER_MOVE_DOWN_PREFIX@ + decimal(a as nat) + "_"@ + decimal(b as nat) =~= id);
    reveal_strlit("chapter_move_down_");
    assert(CHAPTER_MOVE_DOWN_PREFIX@ == "chapter_move_down_"@);
    assert(id.len() > CHAPTER_MOVE_DOWN_PREFIX@.len());
    assert forall|k: int| 0 <= k < CHAPTER_MOVE_DOWN_PREFIX@.len() implies id[k] == CHAPTER_MOVE_DOWN_PREFIX@[k] by {}
    reveal_strlit("domain_input_change");
    assert(DOMAIN_INPUT_CHANGE_EVENT@ == "domain_input_change"@);
    assert(id[0] != DOMAIN_INPUT_CHANGE_EVENT@[0]);
    reveal_strlit("domain_input_blur");
    assert(DOMAIN_INPUT_BLUR_EVENT@ == "domain_input_blur"@);
    assert(id[0] != DOMAIN_INPUT_BLUR_EVENT@[0]);
    reveal_strlit("cookie_input");
    assert(COOKIE_INPUT_EVENT@ == "cookie_input"@);
    assert(id[1] != COOKIE_INPUT_EVENT@[1]);
    reveal_strlit("sync_button");
    assert(SYNC_BUTTON_EVENT@ == "sync_button"@);
    assert(id[0] != SYNC_BUTTON_EVENT@[0]);
    reveal_strlit("hide_status");
    assert(HIDE_STATUS_EVENT@ == "hide_status"@);
    assert(id[0] != HIDE_STATUS_EVENT@[0]);
    reveal_strlit("hide_app_data_status");
    assert(HIDE_APP_DATA_STATUS_EVENT@ == "hide_app_data_status"@);
    assert(id[0] != HIDE_APP_DATA_STATUS_EVENT@[0]);
    reveal_strlit("hide_upload_status");
    assert(HIDE_UPLOAD_STATUS_EVENT@ == "hide_upload_status"@);
    assert(id[0] != HIDE_UPLOAD_STATUS_EVENT@[0]);
    reveal_strlit("upload_name_input");
    assert(UPLOAD_NAME_INPUT_EVENT@ == "upload_name_input"@);
    assert(id[0] != UPLOAD_NAME_INPUT_EVENT@[0]);
    reveal_strlit("upload_mode_single");
    assert(UPLOAD_MODE_SINGLE_EVENT@ == "upload_mode_single"@);
    assert(id[0] != UPLOAD_MODE_SINGLE_EVENT@[0]);
    reveal_strlit("upload_mode_multi");
    assert(UPLOAD_MODE_MULTI_EVENT@ == "upload_mode_multi"@);
    assert(id[0] != UPLOAD_MODE_MULTI_EVENT@[0]);
    reveal_strlit("upload_pick_files");
    assert(UPLOAD_PICK_FILES_EVENT@ == "upload_pick_files"@);
    assert(id[0] != UPLOAD_PICK_FILES_EVENT@[0]);
    reveal_strlit("upload_start");
    assert(UPLOAD_START_EVENT@ == "upload_start"@);
    assert(id[0] != UPLOAD_START_EVENT@[0]);
    reveal_strlit("upload_clear");
    assert(UPLOAD_CLEAR_EVENT@ == "upload_clear"@);
    assert(id[0] != UPLOAD_CLEAR_EVENT@[0]);
    reveal_strlit("upload_add_chapter");
    assert(UPLOAD_ADD_CHAPTER_EVENT@ == "upload_add_chapter"@);
    assert(id[0] != UPLOAD_ADD_CHAPTER_EVENT@[0]);
    reveal_strlit("upload_pick_cover");
    assert(UPLOAD_PICK_COVER_EVENT@ == "upload_pick_cover"@);
    assert(id[0] != UPLOAD_PICK_COVER_EVENT@[0]);
    reveal_strlit("upload_pick_multi_cover");
    assert(UPLOAD_PICK_MULTI_COVER_EVENT@ == "upload_pick_multi_cover"@);
    assert(id[0] != UPLOAD_PICK_MULTI_COVER_EVENT@[0]);
    reveal_strlit("tab_sync");
    assert(TAB_SYNC_EVENT@ == "tab_sync"@);
    assert(id[0] != TAB_SYNC_EVENT@[0]);
    reveal_strlit("tab_data");
    assert(TAB_DATA_EVENT@ == "tab_data"@);
    assert(id[0] != TAB_DATA_EVENT@[0]);
    reveal_strlit("tab_upload");
    assert(TAB_UPLOAD_EVENT@ == "tab_upload"@);
    assert(id[0] != TAB_UPLOAD_EVENT@[0]);
    reveal_strlit("fetch_app_data");
    assert(FETCH_APP_DATA_EVENT@ == "fetch_app_data"@);
    assert(id[0] != FETCH_APP_DATA_EVENT@[0]);
    reveal_strlit("upload_move_up_");
    assert(UPLOAD_MOVE_UP_PREFIX@ == "upload_move_up_"@);
    lemma_not_prefix(id, UPLOAD_MOVE_UP_PREFIX@, 0);
    reveal_strlit("upload_move_down_");
    assert(UPLOAD_MOVE_DOWN_PREFIX@ == "upload_move_down_"@);
    lemma_not_prefix(id, UPLOAD_MOVE_DOWN_PREFIX@, 0);
    reveal_strlit("upload_delete_");
    assert(UPLOAD_DELETE_PREFIX@ == "upload_delete_"@);
    lemma_not_prefix(id, UPLOAD_DELETE_PREFIX@, 0);
    reveal_strlit("chapter_pick_files_");
    assert(CHAPTER_PICK_FILES_PREFIX@ == "chapter_pick_files_"@);
    lemma_not_prefix(id, CHAPTER_PICK_FILES_PREFIX@, 8);
    reveal_strlit("chapter_upload_");
    assert(CHAPTER_UPLOAD_PREFIX@ == "chapter_upload_"@);
    lemma_not_prefix(id, CHAPTER_UPLOAD_PREFIX@, 8);
    reveal_strlit("chapter_clear_");
    assert(CHAPTER_CLEAR_PREFIX@ == "chapter_clear_"@);
    lemma_not_prefix(id, CHAPTER_CLEAR_PREFIX@, 8);
    reveal_strlit("chapter_delete_");
    assert(CHAPTER_DELETE_PREFIX@ == "chapter_delete_"@);
    lemma_not_prefix(id, CHAPTER_DELETE_PREFIX@, 8);
    reveal_strlit("chapter_move_up_");
    assert(CHAPTER_MOVE_UP_PREFIX@ == "chapter_move_up_"@);
    lemma_not_prefix(id, CHAPTER_MOVE_UP_PREFIX@, 13);
    lemma_strip_prefix(CHAPTER_MOVE_DOWN_PREFIX@, rest);
    lemma_pair_arg_decimals(a, b);
}

proof fn lemma_route_upload_move_up(a: usize, b: usize, hv: bool)
    ensures
        ui_command(UPLOAD_MOVE_UP_PREFIX@ + decimal(a as nat), hv) == UiCommand::UploadMove(a, -1i32),
{
    let rest = decimal(a as nat);
    let id = UPLOAD_MOVE_UP_PREFIX@ + rest;
    reveal_strlit("upload_move_up_");
    assert(UPLOAD_MOVE_UP_PREFIX@ == "upload_move_up_"@);
    assert(id.len() > UPLOAD_MOVE_UP_PREFIX@.len());
    assert forall|k: int| 0 <= k < UPLOAD_MOVE_UP_PREFIX@.len() implies id[k] == UPLOAD_MOVE_UP_PREFIX@[k] by {}
    reveal_strlit("domain_input_change");
    assert(DOMAIN_INPUT_CHANGE_EVENT@ == "domain_input_change"@);
    assert(id[0] != DOMAIN_INPUT_CHANGE_EVENT@[0]);
    reveal_strlit("domain_input_blur");
    assert(DOMAIN_INPUT_BLUR_EVENT@ == "domain_input_blur"@);
    assert(id[0] != DOMAIN_INPUT_BLUR_EVENT@[0]);
    reveal_strlit("cookie_input");
    assert(COOKIE_INPUT_EVENT@ == "cookie_input"@);
    assert(id[0] != COOKIE_INPUT_EVENT@[0]);
    reveal_strlit("sync_button");
    assert(SYNC_BUTTON_EVENT@ == "sync_button"@);
    assert(id[0] != SYNC_BUTTON_EVENT@[0]);
    reveal_strlit("hide_status");
    assert(HIDE_STATUS_EVENT@ == "hide_status"@);
    assert(id[0] != HIDE_STATUS_EVENT@[0]);
    reveal_strlit("hide_app_data_status");
    assert(HIDE_APP_DATA_STATUS_EVENT@ == "hide_app_data_status"@);
    assert(id[0] != HIDE_APP_DATA_STATUS_EVENT@[0]);
    reveal_strlit("hide_upload_status");
    assert(HIDE_UPLOAD_STATUS_EVENT@ == "hide_upload_status"@);
    assert(id[0] != HIDE_UPLOAD_STATUS_EVENT@[0]);
    reveal_strlit("upload_name_input");
    assert(UPLOAD_NAME_INPUT_EVENT@ == "upload_name_input"@);
    assert(id[7] != UPLOAD_NAME_INPUT_EVENT@[7]);
    reveal_strlit("upload_mode_single");
    assert(UPLOAD_MODE_SINGLE_EVENT@ == "upload_mode_single"@);
    assert(id[9] != UPLOAD_MODE_SINGLE_EVENT@[9]);
    reveal_strlit("upload_mode_multi");
    assert(UPLOAD_MODE_MULTI_EVENT@ == "upload_mode_multi"@);
    assert(id[9] != UPLOAD_MODE_MULTI_EVENT@[9]);
    reveal_strlit("upload_pick_files");
    assert(UPLOAD_PICK_FILES_EVENT@ == "upload_pick_files"@);
    assert(id[7] != UPLOAD_PICK_FILES_EVENT@[7]);
    reveal_strlit("upload_start");
    assert(UPLOAD_START_EVENT@ == "upload_start"@);
    assert(id[7] != UPLOAD_START_EVENT@[7]);
    reveal_strlit("upload_clear");
    assert(UPLOAD_CLEAR_EVENT@ == "upload_clear"@);
    assert(id[7] != UPLOAD_CLEAR_EVENT@[7]);
    reveal_strlit("upload_add_chapter");
    assert(UPLOAD_ADD_CHAPTER_EVENT@ == "upload_add_chapter"@);
    assert(id[7] != UPLOAD_ADD_CHAPTER_EVENT@[7]);
    reveal_strlit("upload_pick_cover");
    assert(UPLOAD_PICK_COVER_EVENT@ == "upload_pick_cover"@);
    assert(id[7] != UPLOAD_PICK_COVER_EVENT@[7]);
    reveal_strlit("upload_pick_multi_cover");
    assert(UPLOAD_PICK_MULTI_COVER_EVENT@ == "upload_pick_multi_cover"@);
    assert(id[7] != UPLOAD_PICK_MULTI_COVER_EVENT@[7]);
    reveal_strlit("tab_sync");
    assert(TAB_SYNC_EVENT@ == "tab_sync"@);
    assert(id[0] != TAB_SYNC_EVENT@[0]);
    reveal_strlit("tab_data");
    assert(TAB_DATA_EVENT@ == "tab_data"@);
    assert(id[0] != TAB_DATA_EVENT@[0]);
    reveal_strlit("tab_upload");
    assert(TAB_UPLOAD_EVENT@ == "tab_upload"@);
    assert(id[0] != TAB_UPLOAD_EVENT@[0]);
    reveal_strlit("fetch_app_data");
    assert(FETCH_APP_DATA_EVENT@ == "fetch_app_data"@);
    assert(id[0] != FETCH_APP_DATA_EVENT@[0]);
    lemma_strip_prefix(UPLOAD_MOVE_UP_PREFIX@, rest);
    lemma_index_arg_decimal(a);
}

proof fn lemma_route_upload_move_down(a: usize, b: usize, hv: bool)
    ensures
        ui_command(UPLOAD_MOVE_DOWN_PREFIX@ + decimal(a as nat), hv) == UiCommand::UploadMove(a, 1i32),
{
    let rest = decimal(a as nat);
    let id = UPLOAD_MOVE_DOWN_PREFIX@ + rest;
    reveal_strlit("upload_move_down_");
    assert(UPLOAD_MOVE_DOWN_PREFIX@ == "upload_move_down_"@);
    assert(id.len() > UPLOAD_MOVE_DOWN_PREFIX@.len());
    assert forall|k: int| 0 <= k < UPLOAD_MOVE_DOWN_PREFIX@.len() implies id[k] == UPLOAD_MOVE_DOWN_PREFIX@[k] by {}
    reveal_strlit("domain_input_change");
    assert(DOMAIN_INPUT_CHANGE_EVENT@ == "domain_input_change"@);
    assert(id[0] != DOMAIN_INPUT_CHANGE_EVENT@[0]);
    reveal_strlit("domain_input_blur");
    assert(DOMAIN_INPUT_BLUR_EVENT@ == "domain_input_blur"@);
    assert(id[0] != DOMAIN_INPUT_BLUR_EVENT@[0]);
    reveal_strlit("cookie_input");
    assert(COOKIE_INPUT_EVENT@ == "cookie_input"@);
    assert(id[0] != COOKIE_INPUT_EVENT@[0]);
    reveal_strlit("sync_button");
    assert(SYNC_BUTTON_EVENT@ == "sync_button"@);
    assert(id[0] != SYNC_BUTTON_EVENT@[0]);
    reveal_strlit("hide_status");
    assert(HIDE_STATUS_EVENT@ == "hide_status"@);
    assert(id[0] != HIDE_STATUS_EVENT@[0]);
    reveal_strlit("hide_app_data_status");
    assert(HIDE_APP_DATA_STATUS_EVENT@ == "hide_app_data_status"@);
    assert(id[0] != HIDE_APP_DATA_STATUS_EVENT@[0]);
    reveal_strlit("hide_upload_status");
    assert(HIDE_UPLOAD_STATUS_EVENT@ == "hide_upload_status"@);
    assert(id[0] != HIDE_UPLOAD_STATUS_EVENT@[0]);
    reveal_strlit("upload_name_input");
    assert(UPLOAD_NAME_INPUT_EVENT@ == "upload_name_input"@);
    assert(id[7] != UPLOAD_NAME_INPUT_EVENT@[7]);
    reveal_strlit("upload_mode_single");
    assert(UPLOAD_MODE_SINGLE_EVENT@ == "upload_mode_single"@);
    assert(id[9] != UPLOAD_MODE_SINGLE_EVENT@[9]);
    reveal_strlit("upload_mode_multi");
    assert(UPLOAD_MODE_MULTI_EVENT@ == "upload_mode_multi"@);
    assert(id[9] != UPLOAD_MODE_MULTI_EVENT@[9]);
    reveal_strlit("upload_pick_files");
    assert(UPLOAD_PICK_FILES_EVENT@ == "upload_pick_files"@);
    assert(id[7] != UPLOAD_PICK_FILES_EVENT@[7]);
    reveal_strlit("upload_start");
    assert(UPLOAD_START_EVENT@ == "upload_start"@);
    assert(id[7] != UPLOAD_START_EVENT@[7]);
    reveal_strlit("upload_clear");
    assert(UPLOAD_CLEAR_EVENT@ == "upload_clear"@);
    assert(id[7] != UPLOAD_CLEAR_EVENT@[7]);
    reveal_strlit("upload_add_chapter");
    assert(UPLOAD_ADD_CHAPTER_EVENT@ == "upload_add_chapter"@);
    assert(id[7] != UPLOAD_ADD_CHAPTER_EVENT@[7]);
    reveal_strlit("upload_pick_cover");
    assert(UPLOAD_PICK_COVER_EVENT@ == "upload_pick_cover"@);
    assert(id[7] != UPLOAD_PICK_COVER_EVENT@[7]);
    reveal_strlit("upload_pick_multi_cover");
    assert(UPLOAD_PICK_MULTI_COVER_EVENT@ == "upload_pick_multi_cover"@);
    assert(id[7] != UPLOAD_PICK_MULTI_COVER_EVENT@[7]);
    reveal_strlit("tab_sync");
    assert(TAB_SYNC_EVENT@ == "tab_sync"@);
    assert(id[0] != TAB_SYNC_EVENT@[0]);
    reveal_strlit("tab_data");
    assert(TAB_DATA_EVENT@ == "tab_data"@);
    assert(id[0] != TAB_DATA_EVENT@[0]);
    reveal_strlit("tab_upload");
    assert(TAB_UPLOAD_EVENT@ == "tab_upload"@);
    assert(id[0] != TAB_UPLOAD_EVENT@[0]);
    reveal_strlit("fetch_app_data");
    assert(FETCH_APP_DATA_EVENT@ == "fetch_app_data"@);
    assert(id[0] != FETCH_APP_DATA_EVENT@[0]);
    reveal_strlit("upload_move_up_");
    assert(UPLOAD_MOVE_UP_PREFIX@ == "upload_move_up_"@);
    lemma_not_prefix(id, UPLOAD_MOVE_UP_PREFIX@, 12);
    lemma_strip_prefix(UPLOAD_MOVE_DOWN_PREFIX@, rest);
    lemma_index_arg_decimal(a);
}

/// The move buttons move the way they say, for every position: the event
/// `chapter_move_up_{a}_{b}` moves page `b` of chapter `a` one place up
/// (direction -1, towards the front), `chapter_move_down_{a}_{b}` one
/// place down (+1); likewise `upload_move_up_{a}` and `upload_move_down_{a}`
/// for item `a` of the upload list. Up and down always give opposite
/// directions, up being -1 for pages and items alike.
pub proof fn law_move_events_route_by_direction(a: usize, b: usize, hv: bool)
    ensures
        ui_command(CHAPTER_MOVE_UP_PREFIX@ + decimal(a as nat) + "_"@ + decimal(b as nat), hv)
            == UiCommand::ChapterMoveFile(a, b, -1i32),
        ui_command(CHAPTER_MOVE_DOWN_PREFIX@ + decimal(a as nat) + "_"@ + decimal(b as nat), hv)
            == UiCommand::ChapterMoveFile(a, b, 1i32),
        ui_command(UPLOAD_MOVE_UP_PREFIX@ + decimal(a as nat), hv) == UiCommand::UploadMove(a, -1i32),
        ui_command(UPLOAD_MOVE_DOWN_PREFIX@ + decimal(a as nat), hv) == UiCommand::UploadMove(a, 1i32),
{
    lemma_route_chapter_move_up(a, b, hv);
    lemma_route_chapter_move_down(a, b, hv);
    lemma_route_upload_move_up(a, b, hv);
    lemma_route_upload_move_down(a, b, hv);
}


fn strip_chars(s: &Vec<char>, p: &str) -> (r: Option<Vec<char>>)
    ensures
        r matches Some(t) ==> strip(s@, p@) == Some(t@),
        r is None ==> strip(s@, p@) is None,
{
    let pc = chars_of(p);
    if pc.len() > s.len() {
        return None;
    }
    let mut i: usize = 0;
    while i < pc.len()
        invariant
            pc@ == p@,
            pc@.len() <= s@.len(),
            i <= pc@.len(),
            forall|k: int| 0 <= k < i ==> s@[k] == pc@[k],
        decreases pc.len() - i,
    {
        if s[i] != pc[i] {
            assert(s@.take(pc@.len() as int)[i as int] != pc@[i as int]);
            return None;
        }
        i = i + 1;
    }
    assert(s@.take(pc@.len() as int) =~= pc@);
    let mut rest: Vec<char> = Vec::new();
    let mut j = pc.len();
    while j < s.len()
        invariant
            pc@.len() <= j <= s@.len(),
            rest@ == s@.subrange(pc@.len() as int, j as int),
        decreases s.len() - j,
    {
        rest.push(s[j]);
        assert(s@.subrange(pc@.len() as int, j + 1) =~= rest@);
        j = j + 1;
    }
    assert(rest@ =~= s@.skip(pc@.len() as int));
    Some(rest)
}

fn index_of(s: &Vec<char>) -> (r: Option<usize>)
    ensures
        r == index_arg(s@),
{
    parse_usize(s)
}

fn pair_of(s: &Vec<char>) -> (r: Option<(usize, usize)>)
    ensures
        r == pair_arg(s@),
{
    let ghost p = |c: char| c == '_';
    let mut u: usize = 0;
    while u < s.len() && s[u] != '_'
        invariant
            p == (|c: char| c == '_'),
            u <= s@.len(),
            forall|k: int| 0 <= k < u ==> !p(#[trigger] s@[k]),
        decreases s.len() - u,
    {
        u = u + 1;
    }
    if u == s.len() {
        proof {
            lemma_first_index_none(s@, p);
        }
        return None;
    }
    proof {
        lemma_first_index_at(s@, p, u as int);
    }
    let mut a: Vec<char> = Vec::new();
    let mut b: Vec<char> = Vec::new();
    let mut i: usize = 0;
    while i < s.len()
        invariant
            u < s@.len(),
            i <= s@.len(),
            i <= u ==> a@ == s@.take(i as int) && b@.len() == 0,
            i > u ==> a@ == s@.take(u as int) && b@ == s@.subrange(u + 1, i as int),
        decreases s.len() - i,
    {
        if i < u {
            a.push(s[i]);
            assert(a@ =~= s@.take(i + 1));
        } else if i > u {
            b.push(s[i]);
            assert(b@ =~= s@.subrange(u + 1, i + 1));
        } else {
            assert(b@ =~= s@.subrange(u + 1, i + 1));
        }
        i = i + 1;
    }
    assert(b@ =~= s@.skip(u + 1));
    match (index_of(&a), index_of(&b)) {
        (Some(x), Some(y)) => Some((x, y)),
        _ => None,
    }
}

/// Routes a UI event to its command (see `ui_command`).
pub fn route_ui_event(event_id: &str, has_value: bool) -> (c: UiCommand)
    ensures
        c == ui_command(event_id@, has_value),
{
    let t = if str_eq(event_id, DOMAIN_INPUT_CHANGE_EVENT) {
        Some(if has_value { UiCommand::DomainInput } else { UiCommand::Ignored })
    } else if str_eq(event_id, DOMAIN_INPUT_BLUR_EVENT) {
        Some(if has_value { UiCommand::DomainBlur } else { UiCommand::Ignored })
    } else if str_eq(event_id, COOKIE_INPUT_EVENT) {
        Some(if has_value { UiCommand::CookieInput } else { UiCommand::Ignored })
    } else if str_eq(event_id, SYNC_BUTTON_EVENT) {
        Some(UiCommand::Sync)
    } else if str_eq(event_id, HIDE_STATUS_EVENT) {
        Some(UiCommand::HideStatus)
    } else if str_eq(event_id, HIDE_APP_DATA_STATUS_EVENT) {
        Some(UiCommand::HideAppDataStatus)
    } else if str_eq(event_id, HIDE_UPLOAD_STATUS_EVENT) {
        Some(UiCommand::HideUploadStatus)
    } else if str_eq(event_id, UPLOAD_NAME_INPUT_EVENT) {
        Some(if has_value { UiCommand::UploadNameInput } else { UiCommand::Ignored })
    } else if str_eq(event_id, UPLOAD_MODE_SINGLE_EVENT) {
        Some(UiCommand::UploadModeSingle)
    } else if str_eq(event_id, UPLOAD_MODE_MULTI_EVENT) {
        Some(UiCommand::UploadModeMulti)
    } else if str_eq(event_id, UPLOAD_PICK_FILES_EVENT) {
        Some(UiCommand::PickFiles)
    } else if str_eq(event_id, UPLOAD_START_EVENT) {
        Some(UiCommand::UploadStart)
    } else if str_eq(event_id, UPLOAD_CLEAR_EVENT) {
        Some(UiCommand::UploadClear)
    } else if str_eq(event_id, UPLOAD_ADD_CHAPTER_EVENT) {
        Some(UiCommand::AddChapter)
    } else if str_eq(event_id, UPLOAD_PICK_COVER_EVENT) {
        Some(UiCommand::PickCover)
    } else if str_eq(event_id, UPLOAD_PICK_MULTI_COVER_EVENT) {
        Some(UiCommand::PickMultiCover)
    } else if str_eq(event_id, TAB_SYNC_EVENT) {
        Some(UiCommand::ShowTab(TabPage::Sync))
    } else if str_eq(event_id, TAB_DATA_EVENT) {
        Some(UiCommand::ShowTab(TabPage::Data))
    } else if str_eq(event_id, TAB_UPLOAD_EVENT) {
        Some(UiCommand::ShowTab(TabPage::Upload))
    } else if str_eq(event_id, FETCH_APP_DATA_EVENT) {
        Some(UiCommand::FetchAppData)
    } else {
        None
    };
    if let Some(c) = t {
        return c;
    }
    let id = chars_of(event_id);
    if let Some(r) = strip_chars(&id, UPLOAD_MOVE_UP_PREFIX) {
        match index_of(&r) { Some(i) => UiCommand::UploadMove(i, -1), None => UiCommand::Ignored }
    } else if let Some(r) = strip_chars(&id, UPLOAD_MOVE_DOWN_PREFIX) {
        match index_of(&r) { Some(i) => UiCommand::UploadMove(i, 1), None => UiCommand::Ignored }
    } else if let Some(r) = strip_chars(&id, UPLOAD_DELETE_PREFIX) {
        match index_of(&r) { Some(i) => UiCommand::UploadDelete(i), None => UiCommand::Ignored }
    } else if let Some(r) = strip_chars(&id, CHAPTER_PICK_FILES_PREFIX) {
        match index_of(&r) { Some(i) => UiCommand::ChapterPickFiles(i), None => UiCommand::Ignored }
    } else if let Some(r) = strip_chars(&id, CHAPTER_UPLOAD_PREFIX) {
        match index_of(&r) { Some(i) => UiCommand::ChapterUpload(i), None => UiCommand::Ignored }
    } else if let Some(r) = strip_chars(&id, CHAPTER_CLEAR_PREFIX) {
        match index_of(&r) { Some(i) => UiCommand::ChapterClear(i), None => UiCommand::Ignored }
    } else if let Some(r) = strip_chars(&id, CHAPTER_DELETE_PREFIX) {
        match index_of(&r) { Some(i) => UiCommand::ChapterDelete(i), None => UiCommand::Ignored }
    } else if let Some(r) = strip_chars(&id, CHAPTER_MOVE_UP_PREFIX) {
        match pair_of(&r) {
            Some((a, b)) => UiCommand::ChapterMoveFile(a, b, -1),
            None => UiCommand::Ignored,
        }
    } else if let Some(r) = strip_chars(&id, CHAPTER_MOVE_DOWN_PREFIX) {
        match pair_of(&r) {
            Some((a, b)) => UiCommand::ChapterMoveFile(a, b, 1),
            None => UiCommand::Ignored,
        }
    } else if let Some(r) = strip_chars(&id, CHAPTER_DEL_FILE_PREFIX) {
        match pair_of(&r) { Some((a, b)) => UiCommand::ChapterDelFile(a, b), None => UiCommand::Ignored }
    } else if let Some(r) = strip_chars(&id, CHAPTER_NAME_INPUT_PREFIX) {
        if has_value {
            match index_of(&r) { Some(i) => UiCommand::ChapterNameInput(i), None => UiCommand::Ignored }
        } else {
            UiCommand::Ignored
        }
    } else if let Some(r) = strip_chars(&id, DELETE_COMIC_PREFIX) {
        match index_of(&r) { Some(i) => UiCommand::DeleteComic(i), None => UiCommand::Ignored }
    } else if let Some(r) = strip_chars(&id, DELETE_SOURCE_PREFIX) {
        match index_of(&r) { Some(i) => UiCommand::DeleteSource(i), None => UiCommand::Ignored }
    } else {
        UiCommand::Ignored
    }
}


/// What the `value` member of a UI event's payload holds as text: the
/// payload parsed as JSON (`serde_json::from_str`) and its `value` member
/// read as a string; `None` when the payload is no JSON, or has no such
/// member, or it is no string.
pub uninterp spec fn payload_value(payload: Seq<char>) -> Option<Seq<char>>;

/// The views of an optional text.
pub open spec fn opt_view(o: Option<String>) -> Option<Seq<char>> {
    match o {
        Some(s) => Some(s@),
        None => None,
    }
}

/// Reads the `value` text of a UI event payload: `serde_json::from_str` into
/// a `Value`, then `Value::get("value")` and `Value::as_str`. The result is
/// named by `payload_value`.
#[verifier::external_body]
fn event_value(payload: &str) -> (r: Option<String>)
    ensures
        opt_view(r) == payload_value(payload@),
{
    serde_json::from_str::<Value>(payload).ok().and_then(
        |v| v.get("value").and_then(|t| t.as_str()).map(|t| t.to_string()),
    )
}

/// The text a command takes from the payload.
pub open spec fn text_of(value: Option<String>) -> String {
    match value {
        Some(t) => t,
        None => arbitrary(),
    }
}

/// What a UI event's command does to the screen state (`s0` before, `s1`
/// after), with the payload's text `value`: the text fields take the text;
/// the status lines hide; the tabs and upload modes switch; the upload
/// lists are edited as the list handlers do. Commands that need the host
/// (dialogs, requests, messages) leave the state to their flows.
pub open spec fn ui_event_applied(s0: UiState, s1: UiState, cmd: UiCommand, value: Option<String>) -> bool {
    match cmd {
        UiCommand::DomainInput => s1 == (UiState {
            config: super::state::PluginConfig { domain: text_of(value), ..s0.config },
            ..s0
        }),
        UiCommand::DomainBlur => s1 == (UiState {
            config: super::state::PluginConfig { domain: text_of(value), ..s0.config },
            fetched_source_name: None,
            fetched_source_config: None,
            ..s0
        }),
        UiCommand::CookieInput => s1 == (UiState {
            config: super::state::PluginConfig { cookie: text_of(value), ..s0.config },
            ..s0
        }),
        UiCommand::UploadNameInput => s1 == (UiState { upload_comic_name_input: text_of(value), ..s0 }),
        UiCommand::HideStatus => s1 == (UiState {
            current_status: StatusState::Default,
            status_timer_id: None,
            ..s0
        }),
        UiCommand::HideAppDataStatus => s1 == (UiState {
            app_data_status: StatusState::Default,
            app_data_timer_id: None,
            ..s0
        }),
        UiCommand::HideUploadStatus => s1 == (UiState {
            upload_status: StatusState::Default,
            upload_status_timer_id: None,
            ..s0
        }),
        UiCommand::UploadModeSingle => s1 == (UiState {
            upload_mode: UploadMode::Single,
            current_tab: TabPage::Upload,
            ..s0
        }),
        UiCommand::UploadModeMulti => s1 == (UiState {
            upload_mode: UploadMode::Multi,
            current_tab: TabPage::Upload,
            ..s0
        }),
        UiCommand::ShowTab(t) => s1 == (UiState { current_tab: t, ..s0 }),
        UiCommand::UploadClear => {
            &&& s1 == (UiState {
                upload_items: s1.upload_items,
                upload_chapters: s1.upload_chapters,
                multi_cover: None,
                upload_progress: Progress { done: 0, total: 1 },
                upload_current_file: s1.upload_current_file,
                upload_status: StatusState::Default,
                ..s0
            })
            &&& s1.upload_items@.len() == 0
            &&& s1.upload_chapters@.len() == 0
            &&& s1.upload_current_file@.len() == 0
        },
        UiCommand::AddChapter => {
            &&& s1 == (UiState { upload_chapters: s1.upload_chapters, ..s0 })
            &&& s1.upload_chapters@.len() == s0.upload_chapters@.len() + 1
            &&& s1.upload_chapters@.drop_last() == s0.upload_chapters@
            &&& s1.upload_chapters@.last().name@.len() == 0
            &&& s1.upload_chapters@.last().files@.len() == 0
        },
        UiCommand::UploadMove(index, direction) => if 0 <= (index as i32) + direction
            < s0.upload_items@.len() {
            &&& s1 == (UiState { upload_items: s1.upload_items, ..s0 })
            &&& s1.upload_items@ == s0.upload_items@.update(
                index as int,
                s0.upload_items@[(index as i32) + direction],
            ).update((index as i32) + direction, s0.upload_items@[index as int])
        } else {
            s1 == s0
        },
        UiCommand::UploadDelete(index) => if index < s0.upload_items@.len() {
            &&& s1 == (UiState { upload_items: s1.upload_items, ..s0 })
            &&& s1.upload_items@ == s0.upload_items@.remove(index as int)
        } else {
            s1 == s0
        },
        UiCommand::ChapterNameInput(ci) => if ci < s0.upload_chapters@.len() {
            &&& s1 == (UiState { upload_chapters: s1.upload_chapters, ..s0 })
            &&& s1.upload_chapters@ == s0.upload_chapters@.update(
                ci as int,
                ChapterItem { name: text_of(value), ..s0.upload_chapters@[ci as int] },
            )
        } else {
            s1 == s0
        },
        UiCommand::ChapterClear(ci) => if ci < s0.upload_chapters@.len() {
            &&& s1 == (UiState { upload_chapters: s1.upload_chapters, ..s0 })
            &&& same_except(s0.upload_chapters@, s1.upload_chapters@, ci as int)
            &&& s1.upload_chapters@[ci as int].name == s0.upload_chapters@[ci as int].name
            &&& s1.upload_chapters@[ci as int].files@.len() == 0
        } else {
            s1 == s0
        },
        UiCommand::ChapterDelete(ci) => if ci < s0.upload_chapters@.len() {
            &&& s1 == (UiState { upload_chapters: s1.upload_chapters, ..s0 })
            &&& s1.upload_chapters@ == s0.upload_chapters@.remove(ci as int)
        } else {
            s1 == s0
        },
        UiCommand::ChapterMoveFile(ci, fi, direction) => if ci < s0.upload_chapters@.len() && 0 <= (
        fi as i32) + direction < s0.upload_chapters@[ci as int].files@.len() {
            let old_ch = s0.upload_chapters@[ci as int];
            let j = (fi as i32) + direction;
            &&& s1 == (UiState { upload_chapters: s1.upload_chapters, ..s0 })
            &&& same_except(s0.upload_chapters@, s1.upload_chapters@, ci as int)
            &&& s1.upload_chapters@[ci as int].name == old_ch.name
            &&& s1.upload_chapters@[ci as int].files@ == old_ch.files@.update(
                fi as int,
                old_ch.files@[j],
            ).update(j, old_ch.files@[fi as int])
        } else {
            s1 == s0
        },
        UiCommand::ChapterDelFile(ci, fi) => if ci < s0.upload_chapters@.len() && fi
            < s0.upload_chapters@[ci as int].files@.len() {
            let old_ch = s0.upload_chapters@[ci as int];
            &&& s1 == (UiState { upload_chapters: s1.upload_chapters, ..s0 })
            &&& same_except(s0.upload_chapters@, s1.upload_chapters@, ci as int)
            &&& s1.upload_chapters@[ci as int].name == old_ch.name
            &&& s1.upload_chapters@[ci as int].files@ == old_ch.files@.remove(fi as int)
        } else {
            s1 == s0
        },
        _ => s1 == s0,
    }
}

/// Whether the screen is redrawn after a command on state `s0`: after the
/// status lines hide, the tab or mode switches, or an upload list changes.
pub open spec fn ui_event_renders(s0: UiState, cmd: UiCommand) -> bool {
    match cmd {
        UiCommand::HideStatus | UiCommand::HideAppDataStatus | UiCommand::HideUploadStatus
        | UiCommand::UploadModeSingle | UiCommand::UploadModeMulti | UiCommand::ShowTab(_)
        | UiCommand::UploadClear | UiCommand::AddChapter | UiCommand::ChapterClear(_)
        | UiCommand::ChapterDelete(_) => true,
        UiCommand::UploadMove(index, direction) => 0 <= (index as i32) + direction
            < s0.upload_items@.len(),
        UiCommand::UploadDelete(index) => index < s0.upload_items@.len(),
        UiCommand::ChapterMoveFile(ci, fi, direction) => ci < s0.upload_chapters@.len() && 0 <= (
        fi as i32) + direction < s0.upload_chapters@[ci as int].files@.len(),
        UiCommand::ChapterDelFile(ci, fi) => ci < s0.upload_chapters@.len() && fi
            < s0.upload_chapters@[ci as int].files@.len(),
        _ => false,
    }
}

/// Whether a UI event on state `s0` would panic: moving an entry (of the
/// upload list or of a chapter's files) one place whose target lies in the
/// list although the entry itself does not, or whose target index
/// overflows an `i32`.
pub open spec fn ui_event_panics(s0: UiState, cmd: UiCommand) -> bool {
    match cmd {
        UiCommand::UploadMove(i, d) => !(i32::MIN <= (i as i32) + d <= i32::MAX) || (0 <= (i as i32) + d
            < s0.upload_items@.len() && i >= s0.upload_items@.len()),
        UiCommand::ChapterMoveFile(ci, fi, d) => ci < s0.upload_chapters@.len() && (!(i32::MIN <= (
        fi as i32) + d <= i32::MAX) || (0 <= (fi as i32) + d < s0.upload_chapters@[ci as int].files@.len()
            && fi >= s0.upload_chapters@[ci as int].files@.len())),
        _ => false,
    }
}

/// What a UI event asks of the caller after the state was updated.
pub struct UiEventEffect {
    /// The event's command (the caller runs the flows that need the host).
    pub command: UiCommand,
    /// The payload's text, for the commands that take one.
    pub value: Option<String>,
    /// The domain's configuration is to be fetched (the domain field lost
    /// focus holding a `.`).
    pub fetch_domain: bool,
    /// The root element to redraw, if the screen is to be redrawn.
    pub render: Option<String>,
}

/// Applies a UI event whose payload's text is `value` (see `ui_event_applied`).
pub fn apply_ui_event(state: &mut UiState, event_id: &str, value: Option<String>) -> (e: UiEventEffect)
    requires
        !ui_event_panics(*old(state), ui_command(event_id@, value is Some)),
    ensures
        e.command == ui_command(event_id@, value is Some),
        e.value == value,
        ui_event_applied(*old(state), *final(state), e.command, value),
        e.fetch_domain == (e.command == UiCommand::DomainBlur && has_dot(text_of(value)@)),
        e.render == if ui_event_renders(*old(state), e.command) {
            old(state).root_element_id
        } else {
            None
        },
{
    let command = route_ui_event(event_id, value.is_some());
    let root = copy_opt_string(&state.root_element_id);
    let mut fetch_domain = false;
    let render = match command {
        UiCommand::DomainInput => {
            update_domain_state(state, value.clone().unwrap());
            false
        },
        UiCommand::DomainBlur => {
            fetch_domain = handle_domain_blur(state, value.clone().unwrap());
            false
        },
        UiCommand::CookieInput => {
            handle_cookie_input(state, value.clone().unwrap());
            false
        },
        UiCommand::UploadNameInput => {
            set_upload_name_input(state, value.clone().unwrap());
            false
        },
        UiCommand::HideStatus => {
            hide_status(state);
            true
        },
        UiCommand::HideAppDataStatus => {
            hide_app_data_status(state);
            true
        },
        UiCommand::HideUploadStatus => {
            hide_upload_status(state);
            true
        },
        UiCommand::UploadModeSingle => {
            set_upload_mode(state, UploadMode::Single);
            switch_tab(state, TabPage::Upload);
            true
        },
        UiCommand::UploadModeMulti => {
            set_upload_mode(state, UploadMode::Multi);
            switch_tab(state, TabPage::Upload);
            true
        },
        UiCommand::ShowTab(t) => {
            switch_tab(state, t);
            true
        },
        UiCommand::UploadClear => {
            handle_upload_clear(state);
            true
        },
        UiCommand::AddChapter => {
            handle_add_chapter(state);
            true
        },
        UiCommand::UploadMove(i, d) => handle_upload_move(state, i, d),
        UiCommand::UploadDelete(i) => handle_upload_delete(state, i),
        UiCommand::ChapterNameInput(ci) => {
            handle_chapter_name_input(state, ci, value.clone().unwrap());
            false
        },
        UiCommand::ChapterClear(ci) => {
            handle_chapter_clear(state, ci);
            true
        },
        UiCommand::ChapterDelete(ci) => {
            handle_chapter_delete_chapter(state, ci);
            true
        },
        UiCommand::ChapterMoveFile(ci, fi, d) => handle_chapter_move_file(state, ci, fi, d),
        UiCommand::ChapterDelFile(ci, fi) => handle_chapter_del_file(state, ci, fi),
        _ => false,
    };
    UiEventEffect { command, value, fetch_domain, render: if render { root } else { None } }
}

/// A UI event from the plugin's screens: the payload's `value` text is read
/// (see `payload_value`) and the event applied (see `apply_ui_event`).
pub fn ui_event_processor(state: &mut UiState, event_id: &str, event_payload: &str) -> (e: UiEventEffect)
    requires
        forall|hv: bool| !ui_event_panics(*old(state), #[trigger] ui_command(event_id@, hv)),
    ensures
        opt_view(e.value) == payload_value(event_payload@),
        e.command == ui_command(event_id@, payload_value(event_payload@) is Some),
        ui_event_applied(*old(state), *final(state), e.command, e.value),
        e.fetch_domain == (e.command == UiCommand::DomainBlur && has_dot(text_of(e.value)@)),
        e.render == if ui_event_renders(*old(state), e.command) {
            old(state).root_element_id
        } else {
            None
        },
{
    let value = event_value(event_payload);
    let has = value.is_some();
    assert(!ui_event_panics(*old(state), ui_command(event_id@, has)));
    apply_ui_event(state, event_id, value)
}

} // verus!
