//! The wire line `<nonce-hex>:<ciphertext-hex>`, newline-terminated.

use vstd::prelude::*;
use vstd::utf8::*;
use crate::cipher::{decrypt, encrypt, is_sealing_of, opened_text, MAX_PLAINTEXT_LEN};
use crate::hexcode::{digit_value, hex_of, hex_digit};

verus! {

/// The separator between the two hex fields of a frame.
pub const SEPARATOR: u8 = 58;

/// The byte that ends a frame on the wire.
pub const NEWLINE: u8 = 10;

/// ASCII whitespace, as `char::is_whitespace` sees it.
pub open spec fn is_blank(b: u8) -> bool {
    b == 32 || (9 <= b && b <= 13)
}

/// `s` without its leading whitespace.
pub open spec fn trim_start(s: Seq<u8>) -> Seq<u8>
    decreases s.len(),
{
    if s.len() > 0 && is_blank(s[0]) {
        trim_start(s.drop_first())
    } else {
        s
    }
}

/// `s` without its trailing whitespace.
pub open spec fn trim_end(s: Seq<u8>) -> Seq<u8>
    decreases s.len(),
{
    if s.len() > 0 && is_blank(s.last()) {
        trim_end(s.drop_last())
    } else {
        s
    }
}

/// `s` without whitespace at either end.
pub open spec fn trimmed(s: Seq<u8>) -> Seq<u8> {
    trim_end(trim_start(s))
}

/// `s` cut at the first `sep`: what stands before it and what after it, or
/// `None` where `s` holds no `sep`.
pub open spec fn split_first(s: Seq<u8>, sep: u8) -> Option<(Seq<u8>, Seq<u8>)>
    decreases s.len(),
{
    if s.len() == 0 {
        None
    } else if s[0] == sep {
        Some((Seq::empty(), s.drop_first()))
    } else {
        match split_first(s.drop_first(), sep) {
            Some((a, b)) => Some((seq![s[0]] + a, b)),
            None => None,
        }
    }
}

/// The two hex fields of a received line: the line trimmed of whitespace
/// and cut at its first separator.
pub open spec fn frame_fields(line: Seq<u8>) -> Option<(Seq<u8>, Seq<u8>)> {
    split_first(trimmed(line), SEPARATOR)
}

/// The text that a received line carries under `key`, or `None` where the
/// line is malformed or does not decrypt.
pub open spec fn frame_text(key: Seq<u8>, line: Seq<u8>) -> Option<Seq<char>> {
    match frame_fields(line) {
        Some((n, c)) => opened_text(key, n, c),
        None => None,
    }
}

proof fn lemma_split_first_at(s: Seq<u8>, sep: u8, k: int)
    requires
        0 <= k < s.len(),
        s[k] == sep,
        forall|m: int| 0 <= m < k ==> s[m] != sep,
    ensures
        split_first(s, sep) == Some((s.subrange(0, k), s.subrange(k + 1, s.len() as int))),
    decreases k,
{
    if k > 0 {
        let t = s.drop_first();
        lemma_split_first_at(t, sep, k - 1);
        assert(seq![s[0]] + t.subrange(0, k - 1) =~= s.subrange(0, k));
        assert(t.subrange(k, t.len() as int) =~= s.subrange(k + 1, s.len() as int));
    } else {
        assert(s.drop_first() =~= s.subrange(1, s.len() as int));
        assert(s.subrange(0, 0) =~= Seq::<u8>::empty());
    }
}

proof fn lemma_split_first_none(s: Seq<u8>, sep: u8)
    requires
        forall|m: int| 0 <= m < s.len() ==> s[m] != sep,
    ensures
        split_first(s, sep) is None,
    decreases s.len(),
{
    if s.len() > 0 {
        lemma_split_first_none(s.drop_first(), sep);
    }
}

proof fn lemma_trim_start_from(s: Seq<u8>, i: int)
    requires
        0 <= i <= s.len(),
        forall|m: int| 0 <= m < i ==> is_blank(s[m]),
    ensures
        trim_start(s) == trim_start(s.subrange(i, s.len() as int)),
    decreases i,
{
    if i > 0 {
        let t = s.drop_first();
        lemma_trim_start_from(t, i - 1);
        assert(t.subrange(i - 1, t.len() as int) =~= s.subrange(i, s.len() as int));
    } else {
        assert(s.subrange(0, s.len() as int) =~= s);
    }
}

proof fn lemma_trim_end_to(s: Seq<u8>, j: int)
    requires
        0 <= j <= s.len(),
        forall|m: int| j <= m < s.len() ==> is_blank(s[m]),
    ensures
        trim_end(s) == trim_end(s.subrange(0, j)),
    decreases s.len() - j,
{
    if j < s.len() {
        let t = s.drop_last();
        lemma_trim_end_to(t, j);
        assert(t.subrange(0, j) =~= s.subrange(0, j));
    } else {
        assert(s.subrange(0, j) =~= s);
    }
}

proof fn lemma_hex_digits(b: Seq<u8>)
    ensures
        forall|i: int| 0 <= i < hex_of(b).len() ==> (#[trigger] digit_value(hex_of(b)[i])) is Some,
        hex_of(b).len() == 2 * b.len(),
    decreases b.len(),
{
    if b.len() > 0 {
        lemma_hex_digits(b.drop_last());
        let x = b.last();
        assert(digit_value(hex_digit(x / 16)) is Some);
        assert(digit_value(hex_digit(x % 16)) is Some);
        let s = hex_of(b);
        let p = hex_of(b.drop_last());
        assert forall|i: int| 0 <= i < s.len() implies (#[trigger] digit_value(s[i])) is Some by {
            if i < p.len() {
                assert(s[i] == p[i]);
            }
        }
    }
}

fn copy_range(s: &[u8], from: usize, to: usize) -> (r: Vec<u8>)
    requires
        from <= to <= s@.len(),
    ensures
        r@ == s@.subrange(from as int, to as int),
{
    let mut r: Vec<u8> = Vec::new();
    let mut m: usize = from;
    while m < to
        invariant
            from <= m <= to <= s@.len(),
            r@ == s@.subrange(from as int, m as int),
        decreases to - m,
    {
        r.push(s[m]);
        m = m + 1;
        assert(r@ =~= s@.subrange(from as int, m as int));
    }
    r
}

/// Splits a received line into its hex nonce and hex ciphertext: the line
/// is trimmed of whitespace and cut at its first separator. `None` where the
/// line holds no separator, a malformed message.
pub fn decode_frame(line: &[u8]) -> (r: Option<(Vec<u8>, Vec<u8>)>)
    ensures
        r matches Some((n, c)) ==> frame_fields(line@) == Some((n@, c@)),
        r is None ==> frame_fields(line@) is None,
{
    let len = line.len();
    let mut i: usize = 0;
    while i < len && (line[i] == 32 || (9 <= line[i] && line[i] <= 13))
        invariant
            i <= len == line@.len(),
            forall|m: int| 0 <= m < i ==> is_blank(line@[m]),
        decreases len - i,
    {
        i = i + 1;
    }
    let ghost rest = line@.subrange(i as int, len as int);
    proof {
        lemma_trim_start_from(line@, i as int);
    }
    let mut j: usize = len;
    while j > i && (line[j - 1] == 32 || (9 <= line[j - 1] && line[j - 1] <= 13))
        invariant
            i <= j <= len == line@.len(),
            rest == line@.subrange(i as int, len as int),
            forall|m: int| j <= m < len ==> is_blank(line@[m]),
        decreases j,
    {
        j = j - 1;
    }
    let ghost core = line@.subrange(i as int, j as int);
    proof {
        assert(trim_start(rest) == rest);
        lemma_trim_end_to(rest, j - i);
        assert(rest.subrange(0, j - i) =~= core);
        assert(trim_end(core) == core);
        assert(trimmed(line@) == core);
    }
    let mut k: usize = i;
    while k < j && line[k] != SEPARATOR
        invariant
            i <= k <= j <= len == line@.len(),
            core == line@.subrange(i as int, j as int),
            forall|m: int| i <= m < k ==> line@[m] != SEPARATOR,
        decreases j - k,
    {
        k = k + 1;
    }
    if k == j {
        proof {
            lemma_split_first_none(core, SEPARATOR);
        }
        return None;
    }
    let n = copy_range(line, i, k);
    let c = copy_range(line, k + 1, j);
    proof {
        lemma_split_first_at(core, SEPARATOR, k - i);
        assert(core.subrange(0, k - i) =~= n@);
        assert(core.subrange(k - i + 1, core.len() as int) =~= c@);
    }
    Some((n, c))
}

/// The frame for `plaintext` under `key`: hex nonce, separator, hex
/// ciphertext, newline; a fresh nonce for each call. The line opens to
/// `plaintext` again under the same key.
pub fn encode_frame(plaintext: &str, key: &[u8; 32]) -> (r: Vec<u8>)
    requires
        encode_utf8(plaintext@).len() <= MAX_PLAINTEXT_LEN,
    ensures
        exists|n: Seq<u8>, c: Seq<u8>|
            #![trigger is_sealing_of(key@, plaintext@, n, c)]
            is_sealing_of(key@, plaintext@, n, c) && r@ == n + seq![SEPARATOR] + c + seq![NEWLINE],
        frame_text(key@, r@) == Some(plaintext@),
{
    let (mut line, cipher_hex) = encrypt(plaintext, key);
    let ghost n = line@;
    let ghost c = cipher_hex@;
    line.push(SEPARATOR);
    let mut m: usize = 0;
    while m < cipher_hex.len()
        invariant
            m <= cipher_hex@.len(),
            c == cipher_hex@,
            line@ == n + seq![SEPARATOR] + c.subrange(0, m as int),
        decreases cipher_hex@.len() - m,
    {
        line.push(cipher_hex[m]);
        m = m + 1;
        assert(line@ =~= n + seq![SEPARATOR] + c.subrange(0, m as int));
    }
    line.push(NEWLINE);
    proof {
        assert(c.subrange(0, c.len() as int) =~= c);
        let body = n + seq![SEPARATOR] + c;
        assert(line@ =~= body + seq![NEWLINE]);
        let nonce = choose|nb: Seq<u8>|
            nb.len() == 12 && #[trigger] hex_of(nb) == n && c == hex_of(
                crate::cipher::aes_seal(key@, nb, encode_utf8(plaintext@)),
            );
        lemma_hex_digits(nonce);
        lemma_hex_digits(crate::cipher::aes_seal(key@, nonce, encode_utf8(plaintext@)));
        assert(c.len() > 0);
        assert(digit_value(n[0]) is Some);
        assert(digit_value(c.last()) is Some);
        assert(line@[0] == n[0]);
        assert(trim_start(line@) == line@);
        assert(line@.drop_last() =~= body);
        assert(body.last() == c.last());
        assert(trim_end(line@) == trim_end(body));
        assert(trim_end(body) == body);
        assert(trimmed(line@) == body);
        assert forall|m2: int| 0 <= m2 < n.len() implies body[m2] != SEPARATOR by {
            assert(body[m2] == n[m2]);
            assert(digit_value(n[m2]) is Some);
        }
        lemma_split_first_at(body, SEPARATOR, n.len() as int);
        assert(body.subrange(0, n.len() as int) =~= n);
        assert(body.subrange(n.len() as int + 1, body.len() as int) =~= c);
    }
    line
}

/// The text that a received line carries under `key`; `None` where the line
/// is malformed or does not decrypt, with no hint of which.
pub fn open_frame(line: &[u8], key: &[u8; 32]) -> (r: Option<String>)
    ensures
        r matches Some(s) ==> frame_text(key@, line@) == Some(s@),
        r is None ==> frame_text(key@, line@) is None,
{
    match decode_frame(line) {
        Some((n, c)) => decrypt(n.as_slice(), c.as_slice(), key),
        None => None,
    }
}

} // verus!
