//! Standard base64 (RFC 4648 alphabet, `=` padding) and the splitting of
//! encoded text into transport chunks.

use vstd::prelude::*;

use crate::text::{push_char, string_of};

verus! {

/// Maximum number of characters per transport chunk.
pub const CHUNK_SIZE: usize = 5500;

/// The base64 alphabet: `A-Z`, `a-z`, `0-9`, `+`, `/`.
pub open spec fn b64_char(i: nat) -> char {
    if i < 26 {
        (('A' as nat) + i) as char
    } else if i < 52 {
        (('a' as nat) + (i - 26)) as char
    } else if i < 62 {
        (('0' as nat) + (i - 52)) as char
    } else if i == 62 {
        '+'
    } else {
        '/'
    }
}

/// Base64 encoding of `d`: every 3 bytes give 4 characters, a final group of
/// 1 or 2 bytes is padded with `=`.
pub open spec fn b64_encode(d: Seq<u8>) -> Seq<char>
    decreases d.len(),
{
    if d.len() == 0 {
        Seq::empty()
    } else if d.len() == 1 {
        seq![b64_char((d[0] / 4) as nat), b64_char(((d[0] % 4) * 16) as nat), '=', '=']
    } else if d.len() == 2 {
        seq![
            b64_char((d[0] / 4) as nat),
            b64_char(((d[0] % 4) * 16 + d[1] / 16) as nat),
            b64_char(((d[1] % 16) * 4) as nat),
            '=',
        ]
    } else {
        seq![
            b64_char((d[0] / 4) as nat),
            b64_char(((d[0] % 4) * 16 + d[1] / 16) as nat),
            b64_char(((d[1] % 16) * 4 + d[2] / 64) as nat),
            b64_char((d[2] % 64) as nat),
        ] + b64_encode(d.skip(3))
    }
}

/// The value of a base64 character (`-1` for a character outside the
/// alphabet).
pub open spec fn b64_value(c: char) -> int {
    if 'A' <= c && c <= 'Z' {
        c as int - 'A' as int
    } else if 'a' <= c && c <= 'z' {
        c as int - 'a' as int + 26
    } else if '0' <= c && c <= '9' {
        c as int - '0' as int + 52
    } else if c == '+' {
        62
    } else if c == '/' {
        63
    } else {
        -1
    }
}

/// Standard base64 decoding (RFC 4648) of padded text: every 4 characters
/// give 3 bytes, a final group with one `=` gives 2, with two gives 1.
pub open spec fn b64_decode(s: Seq<char>) -> Seq<u8>
    decreases s.len(),
{
    if s.len() < 4 {
        Seq::empty()
    } else {
        let v0 = b64_value(s[0]);
        let v1 = b64_value(s[1]);
        let v2 = b64_value(s[2]);
        let v3 = b64_value(s[3]);
        let b0 = (v0 * 4 + v1 / 16) as u8;
        let b1 = ((v1 % 16) * 16 + v2 / 4) as u8;
        let b2 = ((v2 % 4) * 64 + v3) as u8;
        if s[2] == '=' {
            seq![b0]
        } else if s[3] == '=' {
            seq![b0, b1]
        } else {
            seq![b0, b1, b2] + b64_decode(s.skip(4))
        }
    }
}

proof fn lemma_b64_char_value(i: nat)
    requires
        i < 64,
    ensures
        b64_value(b64_char(i)) == i,
        b64_char(i) != '=',
{
}

/// Decoding undoes the encoding: standard base64 decoding of the encoded
/// text gives the bytes back; the text has four characters for every three
/// bytes, started or not.
pub proof fn law_decode_encode(d: Seq<u8>)
    ensures
        b64_decode(b64_encode(d)) == d,
        b64_encode(d).len() == 4 * ((d.len() + 2) / 3),
    decreases d.len(),
{
    let e = b64_encode(d);
    if d.len() == 0 {
    } else {
        let x0 = d[0] as int;
        lemma_b64_char_value((d[0] / 4) as nat);
        if d.len() == 1 {
            lemma_b64_char_value(((d[0] % 4) * 16) as nat);
            assert(((x0 / 4) * 4 + ((x0 % 4) * 16) / 16) == x0);
            assert(b64_decode(e) =~= d);
        } else {
            let x1 = d[1] as int;
            lemma_b64_char_value(((d[0] % 4) * 16 + d[1] / 16) as nat);
            assert(((x0 % 4) * 16 + x1 / 16) / 16 == x0 % 4);
            assert(((x0 % 4) * 16 + x1 / 16) % 16 == x1 / 16);
            if d.len() == 2 {
                lemma_b64_char_value(((d[1] % 16) * 4) as nat);
                assert(((x1 % 16) * 4) / 4 == x1 % 16);
                assert(b64_decode(e) =~= d);
            } else {
                let x2 = d[2] as int;
                lemma_b64_char_value(((d[1] % 16) * 4 + d[2] / 64) as nat);
                lemma_b64_char_value((d[2] % 64) as nat);
                assert(((x1 % 16) * 4 + x2 / 64) / 4 == x1 % 16);
                assert(((x1 % 16) * 4 + x2 / 64) % 4 == x2 / 64);
                law_decode_encode(d.skip(3));
                let head = seq![
                    b64_char((d[0] / 4) as nat),
                    b64_char(((d[0] % 4) * 16 + d[1] / 16) as nat),
                    b64_char(((d[1] % 16) * 4 + d[2] / 64) as nat),
                    b64_char((d[2] % 64) as nat),
                ];
                assert(e == head + b64_encode(d.skip(3)));
                assert(e.skip(4) =~= b64_encode(d.skip(3)));
                assert(e[0] == head[0] && e[1] == head[1] && e[2] == head[2] && e[3] == head[3]);
                assert(b64_decode(e) == seq![d[0], d[1], d[2]] + b64_decode(e.skip(4)));
                assert(b64_decode(e) =~= d);
            }
        }
    }
}

/// The shape of the encoded text: four characters for every three bytes,
/// started or not; every character from the alphabet, except padding `=`
/// at the end, at most two of them (and only after the alphabet
/// characters).
pub proof fn law_encode_shape(d: Seq<u8>)
    ensures
        b64_encode(d).len() == 4 * ((d.len() + 2) / 3),
        forall|i: int|
            0 <= i < b64_encode(d).len() ==> b64_value(#[trigger] b64_encode(d)[i]) >= 0 || (
            b64_encode(d)[i] == '=' && i >= b64_encode(d).len() - 2),
        forall|i: int, j: int|
            0 <= i < j < b64_encode(d).len() && #[trigger] b64_encode(d)[i] == '=' ==> #[trigger] b64_encode(d)[j]
                == '=',
    decreases d.len(),
{
    law_decode_encode(d);
    let e = b64_encode(d);
    if d.len() == 0 {
    } else {
        lemma_b64_char_value((d[0] / 4) as nat);
        if d.len() == 1 {
            lemma_b64_char_value(((d[0] % 4) * 16) as nat);
        } else {
            lemma_b64_char_value(((d[0] % 4) * 16 + d[1] / 16) as nat);
            if d.len() == 2 {
                lemma_b64_char_value(((d[1] % 16) * 4) as nat);
            } else {
                lemma_b64_char_value(((d[1] % 16) * 4 + d[2] / 64) as nat);
                lemma_b64_char_value((d[2] % 64) as nat);
                law_encode_shape(d.skip(3));
                let rest = b64_encode(d.skip(3));
                let head = seq![
                    b64_char((d[0] / 4) as nat),
                    b64_char(((d[0] % 4) * 16 + d[1] / 16) as nat),
                    b64_char(((d[1] % 16) * 4 + d[2] / 64) as nat),
                    b64_char((d[2] % 64) as nat),
                ];
                assert(e == head + rest);
                assert forall|i: int| 0 <= i < e.len() implies b64_value(#[trigger] e[i]) >= 0 || (e[i] == '='
                    && i >= e.len() - 2) by {
                    if i >= 4 {
                        assert(e[i] == rest[i - 4]);
                    }
                }
                assert forall|i: int, j: int| 0 <= i < j < e.len() && #[trigger] e[i] == '=' implies #[trigger] e[j]
                    == '=' by {
                    if i >= 4 {
                        assert(e[i] == rest[i - 4]);
                        assert(e[j] == rest[j - 4]);
                    } else {
                        assert(b64_value(e[i]) >= 0);
                    }
                }
            }
        }
    }
}

fn alphabet(i: u8) -> (c: char)
    requires
        i < 64,
    ensures
        c == b64_char(i as nat),
{
    if i < 26 {
        (65u8 + i) as char
    } else if i < 52 {
        (97u8 + (i - 26)) as char
    } else if i < 62 {
        (48u8 + (i - 52)) as char
    } else if i == 62 {
        '+'
    } else {
        '/'
    }
}

/// Encodes bytes as base64 text.
pub fn base64_encode(data: &[u8]) -> (s: String)
    ensures
        s@ == b64_encode(data@),
{
    let len = data.len();
    let mut result = String::new();
    let mut i: usize = 0;
    assert(data@.skip(0) =~= data@);
    while i < len
        invariant
            len == data@.len(),
            i <= len,
            b64_encode(data@) == result@ + b64_encode(data@.skip(i as int)),
        decreases len - i,
    {
        let ghost rest = data@.skip(i as int);
        let b1 = data[i];
        let b2 = if len - i > 1 { data[i + 1] } else { 0 };
        let b3 = if len - i > 2 { data[i + 2] } else { 0 };
        assert(rest[0] == b1);
        assert(i + 1 < len ==> rest[1] == b2);
        assert(i + 2 < len ==> rest[2] == b3);
        push_char(&mut result, alphabet(b1 / 4));
        push_char(&mut result, alphabet((b1 % 4) * 16 + b2 / 16));
        push_char(
            &mut result,
            if len - i > 1 {
                alphabet((b2 % 16) * 4 + b3 / 64)
            } else {
                '='
            },
        );
        push_char(
            &mut result,
            if len - i > 2 {
                alphabet(b3 % 64)
            } else {
                '='
            },
        );
        if len - i >= 3 {
            assert(rest.skip(3) =~= data@.skip(i + 3));
            i = i + 3;
        } else {
            assert(data@.skip(len as int) =~= Seq::<u8>::empty());
            i = len;
        }
    }
    assert(data@.skip(len as int) =~= Seq::<u8>::empty());
    assert(result@ + Seq::<char>::empty() =~= result@);
    result
}

/// `s` cut into consecutive pieces of `size` characters (the last one may be
/// shorter); no piece is empty.
pub open spec fn chunks(s: Seq<char>, size: nat) -> Seq<Seq<char>>
    decreases s.len(),
{
    if s.len() == 0 || size == 0 {
        Seq::empty()
    } else if s.len() <= size {
        seq![s]
    } else {
        seq![s.take(size as int)] + chunks(s.skip(size as int), size)
    }
}

/// Splits text into pieces of at most `size` characters, in order.
pub fn chunk_text(s: &String, size: usize) -> (out: Vec<String>)
    requires
        size > 0,
    ensures
        out@.len() == chunks(s@, size as nat).len(),
        forall|i: int| 0 <= i < out@.len() ==> #[trigger] out@[i]@ == chunks(s@, size as nat)[i],
{
    let v = crate::text::chars_of(s.as_str());
    let n = v.len();
    let mut out: Vec<String> = Vec::new();
    let mut i: usize = 0;
    assert(v@.skip(0) =~= v@);
    while i < n
        invariant
            n == v@.len(),
            v@ == s@,
            size > 0,
            i <= n,
            out@.len() + chunks(v@.skip(i as int), size as nat).len() == chunks(s@, size as nat).len(),
            forall|k: int| 0 <= k < out@.len() ==> #[trigger] out@[k]@ == chunks(s@, size as nat)[k],
            forall|k: int|
                0 <= k < chunks(v@.skip(i as int), size as nat).len() ==> #[trigger] chunks(
                    v@.skip(i as int),
                    size as nat,
                )[k] == chunks(s@, size as nat)[out@.len() + k],
        decreases n - i,
    {
        let ghost rest = v@.skip(i as int);
        let end = if n - i <= size { n } else { i + size };
        let mut piece: Vec<char> = Vec::new();
        let mut j = i;
        while j < end
            invariant
                n == v@.len(),
                i <= j <= end <= n,
                piece@ == v@.subrange(i as int, j as int),
            decreases end - j,
        {
            piece.push(v[j]);
            assert(v@.subrange(i as int, j + 1) =~= v@.subrange(i as int, j as int).push(v@[j as int]));
            j = j + 1;
        }
        let ghost rest_chunks = chunks(rest, size as nat);
        if n - i <= size {
            assert(piece@ =~= rest);
            assert(rest_chunks =~= seq![rest]);
        } else {
            assert(piece@ =~= rest.take(size as int));
            assert(rest.skip(size as int) =~= v@.skip(end as int));
            assert(rest_chunks =~= seq![rest.take(size as int)] + chunks(v@.skip(end as int), size as nat));
        }
        let ghost before = out@.len();
        out.push(string_of(&piece));
        assert(rest_chunks[0] == piece@);
        assert forall|k: int|
            0 <= k < chunks(v@.skip(end as int), size as nat).len() implies #[trigger] chunks(
                v@.skip(end as int),
                size as nat,
            )[k] == chunks(s@, size as nat)[out@.len() + k] by {
            assert(rest_chunks[k + 1] == chunks(v@.skip(end as int), size as nat)[k]);
        }
        if end == n {
            assert(v@.skip(n as int) =~= Seq::<char>::empty());
        }
        i = end;
    }
    assert(v@.skip(n as int) =~= Seq::<char>::empty());
    out
}

/// Cutting text into chunks loses nothing: the chunks joined in order give
/// the text back, and each chunk holds between 1 and `size` characters.
pub proof fn law_chunks_rejoin(s: Seq<char>, size: nat)
    requires
        size > 0,
    ensures
        chunks(s, size).flatten() == s,
        forall|i: int|
            0 <= i < chunks(s, size).len() ==> 0 < (#[trigger] chunks(s, size)[i]).len() <= size,
    decreases s.len(),
{
    if s.len() == 0 {
        assert(chunks(s, size).flatten() =~= s);
    } else if s.len() <= size {
        assert(chunks(s, size) == seq![s]);
        seq![s].lemma_flatten_one_element();
    } else {
        let rest = s.skip(size as int);
        law_chunks_rejoin(rest, size);
        let c = chunks(s, size);
        assert(c == seq![s.take(size as int)] + chunks(rest, size));
        assert(c.drop_first() =~= chunks(rest, size));
        assert(c.flatten() == c.first() + c.drop_first().flatten());
        assert(s.take(size as int) + rest =~= s);
        assert forall|i: int| 0 <= i < c.len() implies 0 < (#[trigger] c[i]).len() <= size by {
            if i > 0 {
                assert(c[i] == chunks(rest, size)[i - 1]);
            }
        }
    }
}

} // verus!
