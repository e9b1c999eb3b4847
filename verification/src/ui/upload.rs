//! The upload protocol's bookkeeping: the session's cursor over files and
//! chunks, the chunk in flight and its ACK, and the header handshake.
//!
//! The header goes first and chunks follow only once the watch app confirms
//! it (messages may be reordered on the way); every chunk waits for its ACK,
//! a lost ACK retransmits the chunk, and too many retransmissions abort.

use vstd::prelude::*;

use super::app_data::{show_upload_status, StatusChange};
use super::state::{Progress, StatusState, UiState, UploadSession};
use crate::text::{decimal, decimal_string, str_eq};
use vstd::string::StringExecFns;

verus! {

/// ACK timeout of a header or chunk, in milliseconds.
pub const ACK_TIMEOUT_MS: u64 = 3000;

/// Retransmissions of one chunk before the upload is abandoned.
pub const MAX_ACK_RETRIES: u32 = 5;

/// Header resends before falling back to sending chunks unconfirmed.
pub const MAX_HEADER_RETRIES: u32 = 3;

impl UploadSession {
    /// Number of chunks of file `f`.
    pub open spec fn chunk_count(self, f: int) -> nat {
        self.all_files@[f].1@.len()
    }

    /// The session's invariant: the file count is known, the cursor is within
    /// the files, the chunk in flight exists, and the retry counters are
    /// within their limits.
    pub open spec fn wf(self) -> bool {
        &&& self.total_files == self.all_files@.len()
        &&& self.all_files@.len() < usize::MAX
        &&& self.current_file <= self.all_files@.len()
        &&& (self.awaiting matches Some(p) ==> p.0 < self.all_files@.len() && p.1
            < self.chunk_count(p.0 as int))
        &&& self.retry_count <= MAX_ACK_RETRIES
        &&& (!self.header_acked ==> self.header_retry <= MAX_HEADER_RETRIES)
    }

    /// The first chunk at or after position `(f, c)`, in file order.
    pub open spec fn next_position(self, f: int, c: int) -> Option<(int, int)>
        decreases self.all_files@.len() - f,
    {
        if f < 0 || f >= self.all_files@.len() {
            None
        } else if 0 <= c < self.chunk_count(f) {
            Some((f, c))
        } else {
            self.next_position(f + 1, 0)
        }
    }

    /// The chunk the cursor points at, skipping files with no chunk left.
    pub open spec fn cursor_chunk(self) -> Option<(int, int)> {
        self.next_position(self.current_file as int, self.current_chunk as int)
    }
}

/// What to do next in an upload.
#[derive(Debug)]
pub enum ChunkStep {
    /// No upload is running.
    Idle,
    /// Every chunk went out: the session is over and the page shows the
    /// success line; the watch app is to be told that the comic is complete.
    Finished { device_addr: String, comic_name: String, status: StatusChange },
    /// Send this chunk and wait for its ACK.
    Send {
        device_addr: String,
        comic_name: String,
        file_key: String,
        index: usize,
        total: usize,
        data: String,
    },
}

/// The upload page's line when every chunk went out.
pub open spec fn upload_done_text() -> Seq<char> {
    "上传完成！"@
}

/// The upload page's line when sending a chunk failed or its
/// retransmissions ran out.
pub open spec fn chunk_failed_text() -> Seq<char> {
    "发送中断，请重试。"@
}

/// The upload page's line when sending the header failed.
pub open spec fn header_failed_text() -> Seq<char> {
    "发送失败，请重试。"@
}

/// Marks the upload as not started: no progress, no current file.
pub fn reset_upload_progress(state: &mut UiState)
    ensures
        *final(state) == (UiState {
            upload_progress: Progress { done: 0, total: 1 },
            upload_current_file: final(state).upload_current_file,
            ..*old(state)
        }),
        final(state).upload_current_file@.len() == 0,
{
    state.upload_progress = Progress { done: 0, total: 1 };
    state.upload_current_file = String::new();
}

/// Ends the running upload after a failure: the session is dropped and the
/// progress reset.
pub fn abort_upload(state: &mut UiState)
    ensures
        *final(state) == (UiState {
            upload_session: None,
            upload_progress: Progress { done: 0, total: 1 },
            upload_current_file: final(state).upload_current_file,
            ..*old(state)
        }),
        final(state).upload_current_file@.len() == 0,
{
    state.upload_session = None;
    reset_upload_progress(state);
}

/// Picks the next chunk to send and moves the cursor past it; when no chunk
/// is left the session ends with full progress. Moving on to a later file
/// shows that file and the share of files done.
pub fn next_chunk(state: &mut UiState) -> (step: ChunkStep)
    requires
        old(state).upload_session matches Some(s) ==> s.wf(),
    ensures
        final(state).upload_session matches Some(s) ==> s.wf(),
        old(state).upload_session is None ==> step is Idle && *final(state) == *old(state),
        old(state).upload_session matches Some(s) ==> match s.cursor_chunk() {
            None => {
                &&& step matches ChunkStep::Finished { device_addr, comic_name, status }
                &&& device_addr == s.device_addr
                &&& comic_name == s.comic_name
                &&& status == (StatusChange {
                    cancel_timer: old(state).upload_status_timer_id,
                    arm_hide_timer: true,
                    root: old(state).root_element_id,
                })
                &&& *final(state) == (UiState {
                    upload_session: None,
                    upload_progress: Progress { done: 1, total: 1 },
                    upload_current_file: final(state).upload_current_file,
                    upload_status: final(state).upload_status,
                    ..*old(state)
                })
                &&& final(state).upload_current_file@.len() == 0
                &&& final(state).upload_status matches StatusState::Success(m) && m@ == upload_done_text()
            },
            Some(p) => {
                &&& step == (ChunkStep::Send {
                    device_addr: s.device_addr,
                    comic_name: s.comic_name,
                    file_key: s.all_files@[p.0].0,
                    index: p.1 as usize,
                    total: s.chunk_count(p.0) as usize,
                    data: s.all_files@[p.0].1@[p.1],
                })
                &&& final(state).upload_session == Some(
                    UploadSession {
                        current_file: p.0 as usize,
                        current_chunk: (p.1 + 1) as usize,
                        awaiting: Some((p.0 as usize, p.1 as usize)),
                        ..s
                    },
                )
                &&& if p.0 > s.current_file {
                    *final(state) == (UiState {
                        upload_session: final(state).upload_session,
                        upload_progress: Progress { done: p.0 as usize, total: s.total_files },
                        upload_current_file: s.all_files@[p.0].0,
                        ..*old(state)
                    })
                } else {
                    *final(state) == (UiState {
                        upload_session: final(state).upload_session,
                        ..*old(state)
                    })
                }
            },
        },
{
    let mut session = match state.upload_session.take() {
        Some(s) => s,
        None => {
            return ChunkStep::Idle;
        },
    };
    let ghost s0 = session;
    loop
        invariant
            s0.wf(),
            old(state).upload_session == Some(s0),
            session == (UploadSession {
                current_file: session.current_file,
                current_chunk: session.current_chunk,
                ..s0
            }),
            s0.current_file <= session.current_file <= s0.all_files@.len(),
            s0.cursor_chunk() == s0.next_position(
                session.current_file as int,
                session.current_chunk as int,
            ),
            session.current_file == s0.current_file ==> *state == (UiState {
                upload_session: None,
                ..*old(state)
            }),
            s0.current_file < session.current_file < s0.all_files@.len() ==> *state == (UiState {
                upload_session: None,
                upload_progress: Progress {
                    done: session.current_file,
                    total: s0.total_files,
                },
                upload_current_file: s0.all_files@[session.current_file as int].0,
                ..*old(state)
            }),
            session.current_file > s0.current_file ==> *state == (UiState {
                upload_session: None,
                upload_progress: state.upload_progress,
                upload_current_file: state.upload_current_file,
                ..*old(state)
            }),
        decreases s0.all_files@.len() - session.current_file,
    {
        if session.current_file >= session.all_files.len() {
            state.upload_progress = Progress { done: 1, total: 1 };
            state.upload_current_file = String::new();
            state.upload_session = None;
            let status = show_upload_status(state, StatusState::Success(String::from_str("上传完成！")));
            return ChunkStep::Finished {
                device_addr: session.device_addr.clone(),
                comic_name: session.comic_name.clone(),
                status,
            };
        }
        let chunks_len = session.all_files[session.current_file].1.len();
        if session.current_chunk >= chunks_len {
            session.current_file = session.current_file + 1;
            session.current_chunk = 0;
            if session.current_file < session.all_files.len() {
                state.upload_progress = Progress {
                    done: session.current_file,
                    total: session.total_files,
                };
                state.upload_current_file = session.all_files[session.current_file].0.clone();
            }
            continue;
        }
        let f = session.current_file;
        let c = session.current_chunk;
        let step = ChunkStep::Send {
            device_addr: session.device_addr.clone(),
            comic_name: session.comic_name.clone(),
            file_key: session.all_files[f].0.clone(),
            index: c,
            total: chunks_len,
            data: session.all_files[f].1[c].clone(),
        };
        session.current_chunk = c + 1;
        session.awaiting = Some((f, c));
        state.upload_session = Some(session);
        return step;
    }
}

/// The share of files sent, as "(current file number, file count)", while an
/// upload runs.
pub fn sending_position(state: &UiState) -> (r: Option<(usize, usize)>)
    requires
        state.upload_session matches Some(s) ==> s.wf(),
    ensures
        state.upload_session is None ==> r is None,
        state.upload_session matches Some(s) ==> r == Some(
            ((s.current_file + 1) as usize, s.total_files),
        ),
{
    match &state.upload_session {
        Some(s) => {
            assert(s.current_file <= s.all_files@.len());
            Some((s.current_file + 1, s.total_files))
        },
        None => None,
    }
}


/// The progress line while an upload runs: `正在发送 {file number}/{file count}`.
pub fn sending_text(state: &UiState) -> (r: Option<String>)
    requires
        state.upload_session matches Some(s) ==> s.wf(),
    ensures
        state.upload_session is None ==> r is None,
        state.upload_session matches Some(s) ==> (r matches Some(t) && t@ == "正在发送 "@ + decimal(
            (s.current_file + 1) as nat,
        ) + "/"@ + decimal(s.total_files as nat)),
{
    match sending_position(state) {
        Some((current, total)) => Some(
            String::from_str("正在发送 ").concat(decimal_string(current as u64).as_str()).concat(
                "/",
            ).concat(decimal_string(total as u64).as_str()),
        ),
        None => None,
    }
}

/// Starts an upload session for chunked files, once the header is built:
/// the cursor at the first chunk, nothing in flight, the header unconfirmed.
pub fn start_upload_session(
    state: &mut UiState,
    device_addr: String,
    comic_name: String,
    files: Vec<(String, Vec<String>)>,
    header_str: String,
)
    requires
        0 < files@.len() < usize::MAX,
    ensures
        *final(state) == (UiState {
            upload_session: Some(
                UploadSession {
                    device_addr,
                    comic_name,
                    all_files: files,
                    current_file: 0,
                    current_chunk: 0,
                    total_files: files@.len() as usize,
                    awaiting: None,
                    retry_count: 0,
                    header_str,
                    header_acked: false,
                    header_retry: 0,
                },
            ),
            upload_current_file: files@[0].0,
            ..*old(state)
        }),
        final(state).upload_session->0.wf(),
{
    let first_key = files[0].0.clone();
    let total = files.len();
    state.upload_session = Some(
        UploadSession {
            device_addr,
            comic_name,
            all_files: files,
            current_file: 0,
            current_chunk: 0,
            total_files: total,
            awaiting: None,
            retry_count: 0,
            header_str,
            header_acked: false,
            header_retry: 0,
        },
    );
    state.upload_current_file = first_key;
}

/// Ends the running upload with an error line on the upload page.
fn fail_upload(state: &mut UiState, msg: String) -> (r: StatusChange)
    ensures
        *final(state) == (UiState {
            upload_session: None,
            upload_progress: Progress { done: 0, total: 1 },
            upload_current_file: final(state).upload_current_file,
            upload_status: StatusState::Error(msg),
            ..*old(state)
        }),
        final(state).upload_current_file@.len() == 0,
        r == (StatusChange {
            cancel_timer: old(state).upload_status_timer_id,
            arm_hide_timer: true,
            root: old(state).root_element_id,
        }),
{
    abort_upload(state);
    show_upload_status(state, StatusState::Error(msg))
}

/// Sending a chunk failed (its first send or a retransmission): the upload
/// ends, with no progress, and the page shows the interruption.
pub fn chunk_send_failed(state: &mut UiState) -> (r: StatusChange)
    ensures
        *final(state) == (UiState {
            upload_session: None,
            upload_progress: Progress { done: 0, total: 1 },
            upload_current_file: final(state).upload_current_file,
            upload_status: final(state).upload_status,
            ..*old(state)
        }),
        final(state).upload_current_file@.len() == 0,
        final(state).upload_status matches StatusState::Error(m) && m@ == chunk_failed_text(),
        r == (StatusChange {
            cancel_timer: old(state).upload_status_timer_id,
            arm_hide_timer: true,
            root: old(state).root_element_id,
        }),
{
    fail_upload(state, String::from_str("发送中断，请重试。"))
}

/// Sending the header failed (its first send or a resend): the upload ends,
/// with no progress, and the page shows the failure.
pub fn header_send_failed(state: &mut UiState) -> (r: StatusChange)
    ensures
        *final(state) == (UiState {
            upload_session: None,
            upload_progress: Progress { done: 0, total: 1 },
            upload_current_file: final(state).upload_current_file,
            upload_status: final(state).upload_status,
            ..*old(state)
        }),
        final(state).upload_current_file@.len() == 0,
        final(state).upload_status matches StatusState::Error(m) && m@ == header_failed_text(),
        r == (StatusChange {
            cancel_timer: old(state).upload_status_timer_id,
            arm_hide_timer: true,
            root: old(state).root_element_id,
        }),
{
    fail_upload(state, String::from_str("发送失败，请重试。"))
}

/// Whether a chunk is waiting for its ACK.
pub open spec fn in_flight(session: Option<UploadSession>) -> bool {
    match session {
        Some(s) => s.awaiting is Some,
        None => false,
    }
}

/// Whether an upload waits for its header's confirmation.
pub open spec fn header_pending(session: Option<UploadSession>) -> bool {
    match session {
        Some(s) => !s.header_acked,
        None => false,
    }
}

/// Whether a chunk ACK names the running upload's chunk in flight.
pub open spec fn ack_names_chunk_in_flight(
    session: Option<UploadSession>,
    name: Seq<char>,
    file: Seq<char>,
    index: usize,
) -> bool {
    match session {
        Some(s) => s.comic_name@ == name && match s.awaiting {
            Some(p) => s.all_files@[p.0 as int].0@ == file && p.1 == index,
            None => false,
        },
        None => false,
    }
}

/// Whether a header confirmation is the first one for the running upload.
pub open spec fn header_ack_is_fresh(session: Option<UploadSession>, name: Seq<char>) -> bool {
    match session {
        Some(s) => s.comic_name@ == name && !s.header_acked,
        None => false,
    }
}

/// What an ACK timeout asks for.
#[derive(Debug)]
pub enum AckTimeout {
    /// Nothing is in flight.
    Nothing,
    /// Send the chunk in flight again.
    Resend {
        device_addr: String,
        comic_name: String,
        file_key: String,
        index: usize,
        total: usize,
        data: String,
    },
    /// Too many retransmissions: the upload was abandoned and the page shows
    /// the interruption.
    Abort(StatusChange),
}

/// A chunk's ACK did not come in time: counts a retransmission of the chunk
/// in flight, or abandons the upload when the limit is passed.
pub fn handle_upload_ack_timeout(state: &mut UiState) -> (r: AckTimeout)
    requires
        old(state).upload_session matches Some(s) ==> s.wf(),
    ensures
        final(state).upload_session matches Some(s) ==> s.wf(),
        !in_flight(old(state).upload_session) ==> r is Nothing && *final(state) == *old(state),
        old(state).upload_session matches Some(s) ==> (s.awaiting is Some ==> final(state).upload_session
            == ack_timeout_step(s)),
        old(state).upload_session matches Some(s) ==> (s.awaiting matches Some(p) ==> if s.retry_count
            >= MAX_ACK_RETRIES {
            &&& r == AckTimeout::Abort(StatusChange {
                cancel_timer: old(state).upload_status_timer_id,
                arm_hide_timer: true,
                root: old(state).root_element_id,
            })
            &&& *final(state) == (UiState {
                upload_session: None,
                upload_progress: Progress { done: 0, total: 1 },
                upload_current_file: final(state).upload_current_file,
                upload_status: final(state).upload_status,
                ..*old(state)
            })
            &&& final(state).upload_current_file@.len() == 0
            &&& final(state).upload_status matches StatusState::Error(m) && m@ == chunk_failed_text()
        } else {
            &&& r == (AckTimeout::Resend {
                device_addr: s.device_addr,
                comic_name: s.comic_name,
                file_key: s.all_files@[p.0 as int].0,
                index: p.1,
                total: s.chunk_count(p.0 as int) as usize,
                data: s.all_files@[p.0 as int].1@[p.1 as int],
            })
            &&& *final(state) == (UiState {
                upload_session: Some(UploadSession { retry_count: (s.retry_count + 1) as u32, ..s }),
                ..*old(state)
            })
        }),
{
    let (fi, ci) = match &state.upload_session {
        Some(s) => match s.awaiting {
            Some(p) => p,
            None => {
                return AckTimeout::Nothing;
            },
        },
        None => {
            return AckTimeout::Nothing;
        },
    };
    let mut s = state.upload_session.take().unwrap();
    if s.retry_count >= MAX_ACK_RETRIES {
        let status = fail_upload(state, String::from_str("发送中断，请重试。"));
        return AckTimeout::Abort(status);
    }
    s.retry_count = s.retry_count + 1;
    let r = AckTimeout::Resend {
        device_addr: s.device_addr.clone(),
        comic_name: s.comic_name.clone(),
        file_key: s.all_files[fi].0.clone(),
        index: ci,
        total: s.all_files[fi].1.len(),
        data: s.all_files[fi].1[ci].clone(),
    };
    state.upload_session = Some(s);
    r
}

/// What a header timeout asks for.
#[derive(Debug)]
pub enum HeaderTimeout {
    /// The header is confirmed, or no upload runs.
    Nothing,
    /// Send the header again.
    Resend { device_addr: String, header: String },
    /// The header was never confirmed: an older watch app; send the chunks
    /// right away.
    LegacyStart,
}

/// The header's confirmation did not come in time: resend it, up to the
/// limit; past it, treat the header as confirmed and fall back to sending
/// the chunks.
pub fn handle_upload_header_timeout(state: &mut UiState) -> (r: HeaderTimeout)
    requires
        old(state).upload_session matches Some(s) ==> s.wf(),
    ensures
        final(state).upload_session matches Some(s) ==> s.wf(),
        !header_pending(old(state).upload_session) ==> r is Nothing && *final(state) == *old(state),
        old(state).upload_session matches Some(s) ==> (!s.header_acked ==> if s.header_retry
            >= MAX_HEADER_RETRIES {
            &&& r is LegacyStart
            &&& *final(state) == (UiState {
                upload_session: Some(
                    UploadSession {
                        header_retry: (s.header_retry + 1) as u32,
                        header_acked: true,
                        ..s
                    },
                ),
                ..*old(state)
            })
        } else {
            &&& r == (HeaderTimeout::Resend { device_addr: s.device_addr, header: s.header_str })
            &&& *final(state) == (UiState {
                upload_session: Some(UploadSession { header_retry: (s.header_retry + 1) as u32, ..s }),
                ..*old(state)
            })
        }),
{
    let pending = match &state.upload_session {
        Some(s) => !s.header_acked,
        None => false,
    };
    if !pending {
        return HeaderTimeout::Nothing;
    }
    let mut s = state.upload_session.take().unwrap();
    s.header_retry = s.header_retry + 1;
    if s.header_retry > MAX_HEADER_RETRIES {
        s.header_acked = true;
        state.upload_session = Some(s);
        return HeaderTimeout::LegacyStart;
    }
    let r = HeaderTimeout::Resend { device_addr: s.device_addr.clone(), header: s.header_str.clone() };
    state.upload_session = Some(s);
    r
}

/// An `import_chunk_ack` from the watch app: accepted only when it names the
/// chunk in flight of the running upload (stale or repeated ACKs would move
/// the session on wrongly); an accepted ACK clears the chunk in flight and
/// its retry count. Returns whether it was accepted.
pub fn on_chunk_ack(state: &mut UiState, name: &str, file: &str, index: usize) -> (accepted: bool)
    requires
        old(state).upload_session matches Some(s) ==> s.wf(),
    ensures
        final(state).upload_session matches Some(s) ==> s.wf(),
        accepted == ack_names_chunk_in_flight(old(state).upload_session, name@, file@, index),
        accepted ==> *final(state) == (UiState {
            upload_session: Some(
                UploadSession { awaiting: None, retry_count: 0, ..old(state).upload_session->0 },
            ),
            ..*old(state)
        }),
        !accepted ==> *final(state) == *old(state),
{
    let matches_chunk = match &state.upload_session {
        Some(s) => {
            if str_eq(s.comic_name.as_str(), name) {
                match s.awaiting {
                    Some((afi, aci)) => afi < s.all_files.len() && str_eq(
                        s.all_files[afi].0.as_str(),
                        file,
                    ) && aci == index,
                    None => false,
                }
            } else {
                false
            }
        },
        None => false,
    };
    if !matches_chunk {
        return false;
    }
    let mut s = state.upload_session.take().unwrap();
    s.awaiting = None;
    s.retry_count = 0;
    state.upload_session = Some(s);
    true
}

/// An `import_header_ack` from the watch app: confirms the header of the
/// running upload once (a repeated confirmation, e.g. after a resend, is
/// ignored). Returns whether sending the chunks is to start now.
pub fn on_header_ack(state: &mut UiState, name: &str) -> (start: bool)
    requires
        old(state).upload_session matches Some(s) ==> s.wf(),
    ensures
        final(state).upload_session matches Some(s) ==> s.wf(),
        start == header_ack_is_fresh(old(state).upload_session, name@),
        start ==> *final(state) == (UiState {
            upload_session: Some(UploadSession { header_acked: true, ..old(state).upload_session->0 }),
            ..*old(state)
        }),
        !start ==> *final(state) == *old(state),
{
    let fresh = match &state.upload_session {
        Some(s) => str_eq(s.comic_name.as_str(), name) && !s.header_acked,
        None => false,
    };
    if !fresh {
        return false;
    }
    let mut s = state.upload_session.take().unwrap();
    s.header_acked = true;
    state.upload_session = Some(s);
    true
}

/// No chunk is skipped: the cursor's next chunk is the position itself when
/// it holds a chunk, and otherwise the first chunk of a later file, with
/// every file in between empty; when there is none, no later file has a
/// chunk.
pub proof fn law_cursor_skips_only_empty_files(s: UploadSession, f: int, c: int)
    requires
        0 <= f,
    ensures
        s.next_position(f, c) matches Some(p) ==> (p == (f, c) && 0 <= c < s.chunk_count(f)) || (
        f < p.0 < s.all_files@.len() && p.1 == 0 && s.chunk_count(p.0) > 0 && !(0 <= c
            < s.chunk_count(f)) && forall|g: int| f < g < p.0 ==> #[trigger] s.chunk_count(g) == 0),
        s.next_position(f, c) is None ==> (f < s.all_files@.len() ==> !(0 <= c < s.chunk_count(f)))
            && forall|g: int| f < g < s.all_files@.len() ==> #[trigger] s.chunk_count(g) == 0,
    decreases s.all_files@.len() - f,
{
    if f < s.all_files@.len() && !(0 <= c < s.chunk_count(f)) {
        law_cursor_skips_only_empty_files(s, f + 1, 0);
    }
}

/// Each chunk goes out once, in file order: after chunk `(f, c)` is sent the
/// cursor stands just past it, so the next chunk sent is the first one after
/// it, and nothing before it is sent again.
pub proof fn law_chunks_sent_in_order(s: UploadSession, f: int, c: int)
    requires
        s.wf(),
        s.current_file == f,
        s.current_chunk == c + 1,
        s.awaiting == Some((f as usize, c as usize)),
    ensures
        s.cursor_chunk() matches Some(p) ==> (p.0 == f && p.1 == c + 1) || (p.0 > f && p.1 == 0),
{
    law_cursor_skips_only_empty_files(s, f, c + 1);
}

/// The session after an ACK timeout: the chunk in flight counts one more
/// retransmission, or, past the limit, the upload is abandoned (`None`).
pub open spec fn ack_timeout_step(s: UploadSession) -> Option<UploadSession> {
    if s.retry_count >= MAX_ACK_RETRIES {
        None
    } else {
        Some(UploadSession { retry_count: (s.retry_count + 1) as u32, ..s })
    }
}

/// The session after `k` ACK timeouts in a row (no ACK in between).
pub open spec fn after_ack_timeouts(s: Option<UploadSession>, k: nat) -> Option<UploadSession>
    decreases k,
{
    if k == 0 {
        s
    } else {
        match after_ack_timeouts(s, (k - 1) as nat) {
            Some(t) => ack_timeout_step(t),
            None => None,
        }
    }
}

/// Retransmissions are bounded: with no ACK in between, the chunk in
/// flight is resent `MAX_ACK_RETRIES - retry_count` more times, and the
/// timeout after that abandons the upload.
pub proof fn law_retransmissions_bounded(s: UploadSession, k: nat)
    requires
        s.wf(),
    ensures
        k <= MAX_ACK_RETRIES - s.retry_count ==> after_ack_timeouts(Some(s), k) == Some(
            UploadSession { retry_count: (s.retry_count + k) as u32, ..s },
        ),
        k > MAX_ACK_RETRIES - s.retry_count ==> after_ack_timeouts(Some(s), k) is None,
    decreases k,
{
    if k > 0 {
        law_retransmissions_bounded(s, (k - 1) as nat);
    }
}

} // verus!
