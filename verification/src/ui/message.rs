//! Status lines and the small texts shown with them.

use vstd::prelude::*;
use vstd::string::StringExecFns;

use super::state::{Progress, StatusState, UiState};
use crate::text::{chars_of, last_dot};

verus! {

/// Text and colour of a status line.
pub open spec fn status_text(s: StatusState) -> (Seq<char>, Seq<char>) {
    match s {
        StatusState::Processing(m) => (m@, "#1890ff"@),
        StatusState::Success(m) => (m@, "#52c41a"@),
        StatusState::Error(m) => ("错误："@ + m@, "#ff4d4f"@),
        StatusState::Default => ("请输入漫画源域名和 Cookie。"@, "#666666"@),
    }
}

/// Text and colour to show for a status.
pub fn get_status_text(status: &StatusState) -> (r: (String, String))
    ensures
        (r.0@, r.1@) == status_text(*status),
{
    match status {
        StatusState::Processing(msg) => (msg.clone(), String::from_str("#1890ff")),
        StatusState::Success(msg) => (msg.clone(), String::from_str("#52c41a")),
        StatusState::Error(msg) => (
            String::from_str("错误：").concat(msg.as_str()),
            String::from_str("#ff4d4f"),
        ),
        StatusState::Default => (
            String::from_str("请输入漫画源域名和 Cookie。"),
            String::from_str("#666666"),
        ),
    }
}

/// A copy of an optional string.
pub fn copy_opt_string(o: &Option<String>) -> (r: Option<String>)
    ensures
        r == *o,
{
    match o {
        Some(s) => Some(s.clone()),
        None => None,
    }
}

/// Clears the sync page's status line (its auto-hide timer has fired).
/// Returns the root element to re-render, if the page is shown.
pub fn hide_status(state: &mut UiState) -> (root: Option<String>)
    ensures
        *final(state) == (UiState {
            current_status: StatusState::Default,
            status_timer_id: None,
            ..*old(state)
        }),
        root == old(state).root_element_id,
{
    state.current_status = StatusState::Default;
    state.status_timer_id = None;
    copy_opt_string(&state.root_element_id)
}

/// Upload progress in whole percent (0 before anything is known).
pub open spec fn percent(p: Progress) -> nat {
    if p.total == 0 {
        0
    } else {
        (p.done as nat * 100 / p.total as nat) as nat
    }
}

/// Upload progress in whole percent.
pub fn progress_percent(p: &Progress) -> (pct: u128)
    ensures
        pct == percent(*p),
{
    if p.total == 0 {
        0
    } else {
        (p.done as u128) * 100 / (p.total as u128)
    }
}

/// ASCII letters lowered; other characters kept.
pub open spec fn ascii_lower(s: Seq<char>) -> Seq<char> {
    s.map_values(|c: char| if 'A' <= c <= 'Z' {
        ((c as u32) + 32) as char
    } else {
        c
    })
}

/// The extension of a file name: the text after its last `.` (the whole
/// name without one).
pub open spec fn extension(name: Seq<char>) -> Seq<char> {
    name.skip(last_dot(name) + 1)
}

/// The MIME type of a picked image, from its extension (compared without
/// regard to case; JPEG for anything unknown).
pub open spec fn mime_of(name: Seq<char>) -> Seq<char> {
    let e = ascii_lower(extension(name));
    if e == "png"@ {
        "image/png"@
    } else if e == "webp"@ {
        "image/webp"@
    } else if e == "bmp"@ {
        "image/bmp"@
    } else if e == "gif"@ {
        "image/gif"@
    } else {
        "image/jpeg"@
    }
}

proof fn lemma_last_dot_bounds(s: Seq<char>)
    ensures
        -1 <= last_dot(s) < s.len(),
        last_dot(s) >= 0 ==> s[last_dot(s)] == '.',
        forall|k: int| last_dot(s) < k < s.len() ==> s[k] != '.',
    decreases s.len(),
{
    if s.len() > 0 && s.last() != '.' {
        lemma_last_dot_bounds(s.drop_last());
        assert forall|k: int| last_dot(s) < k < s.len() implies s[k] != '.' by {
            if k < s.len() - 1 {
                assert(s.drop_last()[k] == s[k]);
            }
        }
        if last_dot(s) >= 0 {
            assert(s.drop_last()[last_dot(s)] == s[last_dot(s)]);
        }
    }
}

/// The MIME type of a picked image (see `mime_of`).
pub fn detect_mime(filename: &str) -> (m: String)
    ensures
        m@ == mime_of(filename@),
{
    let v = chars_of(filename);
    let mut start: usize = v.len();
    while start > 0 && v[start - 1] != '.'
        invariant
            v@ == filename@,
            start <= v@.len(),
            forall|k: int| start <= k < v@.len() ==> v@[k] != '.',
        decreases start,
    {
        start = start - 1;
    }
    proof {
        lemma_last_dot_bounds(v@);
        if start > 0 {
            assert(last_dot(v@) == start - 1) by {
                if last_dot(v@) > start - 1 {
                    assert(v@[last_dot(v@)] == '.');
                }
            }
        } else {
            assert(last_dot(v@) == -1) by {
                if last_dot(v@) >= 0 {
                    assert(v@[last_dot(v@)] == '.');
                }
            }
        }
    }
    let mut e: Vec<char> = Vec::new();
    let mut i = start;
    let ghost ext = extension(v@);
    assert(ext =~= v@.subrange(start as int, v@.len() as int));
    while i < v.len()
        invariant
            v@ == filename@,
            start <= i <= v@.len(),
            ext == v@.subrange(start as int, v@.len() as int),
            e@ == ascii_lower(ext).take(i - start),
        decreases v.len() - i,
    {
        let c = v[i];
        let lc = if 'A' <= c && c <= 'Z' {
            (((c as u32) + 32) as u8) as char
        } else {
            c
        };
        e.push(lc);
        assert(e@ =~= ascii_lower(ext).take(i - start + 1));
        i = i + 1;
    }
    assert(e@ =~= ascii_lower(ext));
    proof {
        reveal_strlit("png");
        reveal_strlit("webp");
        reveal_strlit("bmp");
        reveal_strlit("gif");
    }
    let is = |t: &str| -> (b: bool)
        ensures
            b == (e@ == t@),
        { crate::text::chars_eq(&e, &chars_of(t)) };
    if is("png") {
        String::from_str("image/png")
    } else if is("webp") {
        String::from_str("image/webp")
    } else if is("bmp") {
        String::from_str("image/bmp")
    } else if is("gif") {
        String::from_str("image/gif")
    } else {
        String::from_str("image/jpeg")
    }
}

} // verus!
