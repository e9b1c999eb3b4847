//! The comic source's configuration endpoint: where it is and what the
//! answer names.

use vstd::prelude::*;
use vstd::string::StringExecFns;

use serde_json::Value;

use crate::seqs::string_views;
use crate::text::{chars_of, string_of};

verus! {

/// `s` without trailing `/` characters.
pub open spec fn trim_end_slashes(s: Seq<char>) -> Seq<char>
    decreases s.len(),
{
    if s.len() > 0 && s.last() == '/' {
        trim_end_slashes(s.drop_last())
    } else {
        s
    }
}

/// The configuration URL of a domain: the domain without trailing slashes,
/// then `/config`.
pub fn config_url(domain: &str) -> (url: String)
    ensures
        url@ == trim_end_slashes(domain@) + "/config"@,
{
    let v = chars_of(domain);
    let mut n = v.len();
    assert(v@.take(n as int) =~= v@);
    while n > 0 && v[n - 1] == '/'
        invariant
            n <= v@.len(),
            trim_end_slashes(v@) == trim_end_slashes(v@.take(n as int)),
        decreases n,
    {
        assert(v@.take(n as int).drop_last() =~= v@.take(n - 1));
        n = n - 1;
    }
    let mut t: Vec<char> = Vec::new();
    let mut i: usize = 0;
    while i < n
        invariant
            n <= v@.len(),
            i <= n,
            t@ == v@.take(i as int),
        decreases n - i,
    {
        t.push(v[i]);
        assert(v@.take(i + 1) =~= v@.take(i as int).push(v@[i as int]));
        i = i + 1;
    }
    assert(trim_end_slashes(v@.take(n as int)) == v@.take(n as int));
    string_of(&t).concat("/config")
}

/// Whether the configuration request succeeded (HTTP 200).
pub fn config_status_ok(status: u16) -> (ok: bool)
    ensures
        ok == (status == 200),
{
    status == 200
}

/// The source name a configuration gives: its first key (`None` when it has
/// none).
pub fn first_source_name(keys: &Vec<String>) -> (r: Option<String>)
    ensures
        keys@.len() == 0 ==> r is None,
        keys@.len() > 0 ==> r == Some(keys@[0]),
{
    if keys.len() == 0 {
        None
    } else {
        Some(keys[0].clone())
    }
}


/// The source names of a configuration answer: the body read as UTF-8
/// (invalid sequences replaced, `String::from_utf8_lossy`) and parsed as JSON
/// (`serde_json::from_str`); `None` when it is no JSON; otherwise the keys
/// of the object in the order `serde_json` keeps them (none when the value
/// is no object).
pub uninterp spec fn config_keys_spec(body: Seq<u8>) -> Option<Seq<Seq<char>>>;

/// The views of optional texts.
pub open spec fn opt_views(r: Option<Vec<String>>) -> Option<Seq<Seq<char>>> {
    match r {
        Some(v) => Some(string_views(v@)),
        None => None,
    }
}

/// `String::from_utf8_lossy` on the body, `serde_json::from_str::<Value>`,
/// then the keys of `Value::as_object` (none for a value that is no object).
/// The result is named by `config_keys_spec`.
#[verifier::external_body]
fn config_keys(body: &[u8]) -> (r: Option<Vec<String>>)
    ensures
        opt_views(r) == config_keys_spec(body@),
{
    let text = String::from_utf8_lossy(body);
    serde_json::from_str::<Value>(&text).ok().map(
        |v| v.as_object().map(|o| o.keys().cloned().collect()).unwrap_or_default(),
    )
}

/// The JSON text of one source's member of a configuration answer: the
/// body read as `config_keys_spec` reads it, its member `key`
/// (`Value::index`, `null` when missing) written back as JSON text
/// (`serde_json::to_string`); empty when the body is no JSON.
pub uninterp spec fn config_member_text(body: Seq<u8>, key: Seq<char>) -> Seq<char>;

/// `String::from_utf8_lossy` and `serde_json::from_str::<Value>` on the body,
/// the member `key` by `Value::index`, then `serde_json::to_string`. The
/// result is named by `config_member_text`.
#[verifier::external_body]
fn member_text(body: &[u8], key: &String) -> (r: String)
    ensures
        r@ == config_member_text(body@, key@),
{
    let text = String::from_utf8_lossy(body);
    match serde_json::from_str::<Value>(&text) {
        Ok(config) => serde_json::to_string(&config[key.as_str()]).unwrap_or_default(),
        Err(_) => String::new(),
    }
}

/// The source name a configuration answer gives: its first key; `None` when
/// the body is no JSON or names no source.
pub fn source_name_of_body(body: &[u8]) -> (r: Option<String>)
    ensures
        match config_keys_spec(body@) {
            Some(ks) => if ks.len() > 0 {
                r matches Some(n) && n@ == ks[0]
            } else {
                r is None
            },
            None => r is None,
        },
{
    match config_keys(body) {
        Some(keys) => {
            let r = first_source_name(&keys);
            proof {
                if keys@.len() > 0 {
                    assert(string_views(keys@)[0] == keys@[0]@);
                }
            }
            r
        },
        None => None,
    }
}

/// The configuration as the watch app takes it: for each source, in the
/// configuration's order, its name with the JSON text of its own member of
/// the configuration (sent as one single-member object per source); `None`
/// when the body is no JSON or names no source.
pub fn source_config_of_body(body: &[u8]) -> (r: Option<Vec<(String, String)>>)
    ensures
        match config_keys_spec(body@) {
            Some(ks) => if ks.len() > 0 {
                r matches Some(v) && v@.len() == ks.len() && forall|i: int|
                    0 <= i < ks.len() ==> (#[trigger] v@[i]).0@ == ks[i] && v@[i].1@
                        == config_member_text(body@, ks[i])
            } else {
                r is None
            },
            None => r is None,
        },
{
    let keys = match config_keys(body) {
        Some(k) => k,
        None => {
            return None;
        },
    };
    if keys.len() == 0 {
        return None;
    }
    let mut items: Vec<(String, String)> = Vec::new();
    let mut i: usize = 0;
    while i < keys.len()
        invariant
            i <= keys@.len(),
            items@.len() == i,
            forall|j: int|
                0 <= j < i ==> (#[trigger] items@[j]).0@ == keys@[j]@ && items@[j].1@
                    == config_member_text(body@, keys@[j]@),
        decreases keys.len() - i,
    {
        let t = member_text(body, &keys[i]);
        items.push((keys[i].clone(), t));
        i = i + 1;
    }
    proof {
        assert forall|j: int| 0 <= j < keys@.len() implies (#[trigger] items@[j]).0@ == string_views(keys@)[j]
            && items@[j].1@ == config_member_text(body@, string_views(keys@)[j]) by {}
    }
    Some(items)
}

} // verus!
