//! The persisted encoding of a task collection: a JSON array of objects
//! with the fields `id`, `title`, `body`, in that order, and its decoder.
//!
//! The encoding is canonical: inside a string, `"` and `\` are escaped with
//! a backslash, control characters are written as `\u00` followed by two
//! lowercase hex digits, and every other character stands for itself. The
//! decoder accepts exactly the encodings that the encoder produces, so
//! decoding is the exact inverse of encoding.

use vstd::prelude::*;

use crate::task::{TaskModel, Todo};

verus! {

/// One parse failure reason for the persisted file.
#[derive(Debug)]
pub enum StorageError {
    /// The text is not a canonical encoding of a task collection.
    Malformed,
    /// The text decodes, but two records share an id.
    DuplicateId,
}

// ---------------------------------------------------------------------------
// Specification of the encoding
// ---------------------------------------------------------------------------

/// The lowercase hexadecimal digit of a value below 16.
pub open spec fn spec_hex_digit(n: int) -> char {
    if n == 0 { '0' } else if n == 1 { '1' } else if n == 2 { '2' } else if n == 3 { '3' }
    else if n == 4 { '4' } else if n == 5 { '5' } else if n == 6 { '6' } else if n == 7 { '7' }
    else if n == 8 { '8' } else if n == 9 { '9' } else if n == 10 { 'a' } else if n == 11 { 'b' }
    else if n == 12 { 'c' } else if n == 13 { 'd' } else if n == 14 { 'e' } else { 'f' }
}

/// How one character is written inside a JSON string.
pub open spec fn esc_char(c: char) -> Seq<char> {
    if c == '"' {
        seq!['\\', '"']
    } else if c == '\\' {
        seq!['\\', '\\']
    } else if (c as u32) < 32 {
        seq!['\\', 'u', '0', '0', spec_hex_digit((c as u32) as int / 16),
            spec_hex_digit((c as u32) as int % 16)]
    } else {
        seq![c]
    }
}

/// How a whole string is written inside a JSON string literal.
pub open spec fn esc_str(s: Seq<char>) -> Seq<char>
    decreases s.len(),
{
    if s.len() == 0 {
        Seq::empty()
    } else {
        esc_char(s[0]) + esc_str(s.drop_first())
    }
}

/// The opening of a record, up to and including the quote of the id value.
pub open spec fn lit_obj_id() -> Seq<char> {
    seq!['{', '"', 'i', 'd', '"', ':', '"']
}

/// After the quote closing the id value, up to the quote opening the title
/// value.
pub open spec fn lit_mid_title() -> Seq<char> {
    seq![',', '"', 't', 'i', 't', 'l', 'e', '"', ':', '"']
}

/// After the quote closing the title value, up to the quote opening the body
/// value.
pub open spec fn lit_mid_body() -> Seq<char> {
    seq![',', '"', 'b', 'o', 'd', 'y', '"', ':', '"']
}

/// The encoding of one task record.
pub open spec fn enc_task(t: TaskModel) -> Seq<char> {
    lit_obj_id() + esc_str(t.id) + seq!['"'] + lit_mid_title() + esc_str(t.title) + seq!['"']
        + lit_mid_body() + esc_str(t.body) + seq!['"', '}']
}

/// The encodings of the records, separated by commas.
pub open spec fn enc_items(ts: Seq<TaskModel>) -> Seq<char>
    decreases ts.len(),
{
    if ts.len() == 0 {
        Seq::empty()
    } else if ts.len() == 1 {
        enc_task(ts[0])
    } else {
        enc_task(ts[0]) + seq![','] + enc_items(ts.drop_first())
    }
}

/// The encoding of a whole collection: the records between brackets.
pub open spec fn enc_list(ts: Seq<TaskModel>) -> Seq<char> {
    seq!['['] + enc_items(ts) + seq![']']
}

// ---------------------------------------------------------------------------
// Specification of the decoder
// ---------------------------------------------------------------------------

/// The value of a lowercase hexadecimal digit, or -1 for any other character.
pub open spec fn spec_hex_val(c: char) -> int {
    if c == '0' { 0 } else if c == '1' { 1 } else if c == '2' { 2 } else if c == '3' { 3 }
    else if c == '4' { 4 } else if c == '5' { 5 } else if c == '6' { 6 } else if c == '7' { 7 }
    else if c == '8' { 8 } else if c == '9' { 9 } else if c == 'a' { 10 } else if c == 'b' { 11 }
    else if c == 'c' { 12 } else if c == 'd' { 13 } else if c == 'e' { 14 } else if c == 'f' { 15 }
    else { -1 }
}

/// `p` is an initial segment of `t`.
pub open spec fn begins_with(t: Seq<char>, p: Seq<char>) -> bool {
    t.len() >= p.len() && t.take(p.len() as int) == p
}

/// Parses a string literal's content up to and including its closing quote.
/// Returns the decoded characters and the number of characters consumed, or
/// nothing when `t` does not begin with a canonically escaped content and a
/// closing quote.
pub open spec fn dec_string_body(t: Seq<char>) -> Option<(Seq<char>, int)>
    decreases t.len(),
{
    if t.len() == 0 {
        None
    } else if t[0] == '"' {
        Some((Seq::empty(), 1))
    } else if t[0] == '\\' {
        if t.len() < 2 {
            None
        } else if t[1] == '"' || t[1] == '\\' {
            match dec_string_body(t.skip(2)) {
                Some(p) => Some((seq![t[1]] + p.0, p.1 + 2)),
                None => None,
            }
        } else if t[1] == 'u' {
            if t.len() >= 6 && t[2] == '0' && t[3] == '0' && spec_hex_val(t[4]) >= 0
                && spec_hex_val(t[5]) >= 0 && spec_hex_val(t[4]) * 16 + spec_hex_val(t[5]) < 32 {
                match dec_string_body(t.skip(6)) {
                    Some(p) => Some(
                        (seq![((spec_hex_val(t[4]) * 16 + spec_hex_val(t[5])) as u32) as char]
                            + p.0,
                        p.1 + 6),
                    ),
                    None => None,
                }
            } else {
                None
            }
        } else {
            None
        }
    } else if (t[0] as u32) < 32 {
        None
    } else {
        match dec_string_body(t.skip(1)) {
            Some(p) => Some((seq![t[0]] + p.0, p.1 + 1)),
            None => None,
        }
    }
}

/// Parses one record. Returns its model and the number of characters
/// consumed.
pub open spec fn dec_task(t: Seq<char>) -> Option<(TaskModel, int)> {
    if !begins_with(t, lit_obj_id()) {
        None
    } else {
        match dec_string_body(t.skip(7)) {
            None => None,
            Some(pid) => {
                let t1 = t.skip(7 + pid.1);
                if !begins_with(t1, lit_mid_title()) {
                    None
                } else {
                    match dec_string_body(t1.skip(10)) {
                        None => None,
                        Some(pti) => {
                            let t2 = t1.skip(10 + pti.1);
                            if !begins_with(t2, lit_mid_body()) {
                                None
                            } else {
                                match dec_string_body(t2.skip(9)) {
                                    None => None,
                                    Some(pbo) => {
                                        let t3 = t2.skip(9 + pbo.1);
                                        if t3.len() >= 1 && t3[0] == '}' {
                                            Some(
                                                (TaskModel {
                                                    id: pid.0,
                                                    title: pti.0,
                                                    body: pbo.0,
                                                }, 7 + pid.1 + 10 + pti.1 + 9 + pbo.1 + 1),
                                            )
                                        } else {
                                            None
                                        }
                                    },
                                }
                            }
                        },
                    }
                }
            },
        }
    }
}

/// Parses one or more comma-separated records.
pub open spec fn dec_items(t: Seq<char>) -> Option<(Seq<TaskModel>, int)>
    decreases t.len(),
{
    match dec_task(t) {
        None => None,
        Some(p) => {
            if p.1 <= 0 || p.1 > t.len() {
                None
            } else if p.1 < t.len() && t[p.1] == ',' {
                match dec_items(t.skip(p.1 + 1)) {
                    None => None,
                    Some(q) => Some((seq![p.0] + q.0, p.1 + 1 + q.1)),
                }
            } else {
                Some((seq![p.0], p.1))
            }
        },
    }
}

/// Parses a whole persisted text: a bracketed, comma-separated list of
/// records, with nothing before or after.
pub open spec fn dec_tasks(s: Seq<char>) -> Option<Seq<TaskModel>> {
    if s.len() == 2 && s[0] == '[' && s[1] == ']' {
        Some(Seq::empty())
    } else if s.len() >= 2 && s[0] == '[' {
        match dec_items(s.skip(1)) {
            None => None,
            Some(p) => {
                if p.1 == s.len() - 2 && s[s.len() - 1] == ']' {
                    Some(p.0)
                } else {
                    None
                }
            },
        }
    } else {
        None
    }
}

// ---------------------------------------------------------------------------
// Lemmas about the encoding
// ---------------------------------------------------------------------------

/// Escaping a string extended by one character appends that character's
/// escape.
pub proof fn lemma_esc_str_snoc(s: Seq<char>, c: char)
    ensures
        esc_str(s.push(c)) == esc_str(s) + esc_char(c),
    decreases s.len(),
{
    if s.len() == 0 {
        assert(s.push(c)[0] == c);
        assert(s.push(c).drop_first() =~= Seq::<char>::empty());
        assert(esc_str(Seq::<char>::empty()) == Seq::<char>::empty());
        assert(esc_str(s.push(c)) == esc_char(c) + Seq::<char>::empty());
        assert(esc_str(s.push(c)) =~= esc_str(s) + esc_char(c));
    } else {
        assert(s.push(c).drop_first() =~= s.drop_first().push(c));
        lemma_esc_str_snoc(s.drop_first(), c);
        assert(esc_str(s.push(c)) =~= esc_str(s) + esc_char(c));
    }
}

/// Encoding a collection extended by one record appends that record's
/// encoding, after a comma when the collection was not empty.
pub proof fn lemma_enc_items_snoc(ts: Seq<TaskModel>, t: TaskModel)
    ensures
        ts.len() == 0 ==> enc_items(ts.push(t)) == enc_task(t),
        ts.len() > 0 ==> enc_items(ts.push(t)) == enc_items(ts) + seq![','] + enc_task(t),
    decreases ts.len(),
{
    if ts.len() == 0 {
        assert(enc_items(ts.push(t)) =~= enc_task(t));
    } else if ts.len() == 1 {
        assert(ts.push(t)[0] == ts[0]);
        assert(ts.push(t).drop_first() =~= seq![t]);
        assert(enc_items(seq![t]) == enc_task(t));
        assert(enc_items(ts.push(t)) == enc_task(ts[0]) + seq![','] + enc_task(t));
        assert(enc_items(ts) == enc_task(ts[0]));
        assert(enc_items(ts.push(t)) =~= enc_items(ts) + seq![','] + enc_task(t));
    } else {
        assert(ts.push(t).drop_first() =~= ts.drop_first().push(t));
        lemma_enc_items_snoc(ts.drop_first(), t);
        assert(enc_items(ts.push(t)) =~= enc_items(ts) + seq![','] + enc_task(t));
    }
}

// ---------------------------------------------------------------------------
// Round trip: decoding an encoding gives back what was encoded
// ---------------------------------------------------------------------------

/// Decoding a canonically escaped string content with its closing quote
/// yields exactly the original characters.
proof fn lemma_dec_esc(w: Seq<char>, rest: Seq<char>)
    ensures
        dec_string_body(esc_str(w) + seq!['"'] + rest) == Some((w, esc_str(w).len() as int + 1)),
    decreases w.len(),
{
    let t = esc_str(w) + seq!['"'] + rest;
    if w.len() == 0 {
        assert(esc_str(w) == Seq::<char>::empty());
        assert(t[0] == '"');
        assert(dec_string_body(t) == Some((Seq::<char>::empty(), 1int)));
        assert(Seq::<char>::empty() =~= w);
    } else {
        let c = w[0];
        let w2 = w.drop_first();
        assert(esc_str(w) == esc_char(c) + esc_str(w2));
        lemma_dec_esc(w2, rest);
        let t2 = esc_str(w2) + seq!['"'] + rest;
        let n2 = esc_str(w2).len() as int;
        if c == '"' {
            assert(t[0] == '\\' && t[1] == '"');
            assert(t.skip(2) =~= t2);
            assert(dec_string_body(t) == Some((seq![t[1]] + w2, n2 + 1 + 2)));
            assert(seq![c] + w2 =~= w);
        } else if c == '\\' {
            assert(t[0] == '\\' && t[1] == '\\');
            assert(t.skip(2) =~= t2);
            assert(dec_string_body(t) == Some((seq![t[1]] + w2, n2 + 1 + 2)));
            assert(seq![c] + w2 =~= w);
        } else if (c as u32) < 32 {
            let u = c as u32;
            let v = u as int;
            assert(t[0] == '\\' && t[1] == 'u' && t[2] == '0' && t[3] == '0');
            assert(t[4] == spec_hex_digit(v / 16) && t[5] == spec_hex_digit(v % 16));
            assert(0 <= v < 32);
            assert(0 <= v / 16 < 16 && 0 <= v % 16 < 16);
            assert(spec_hex_val(spec_hex_digit(v / 16)) == v / 16);
            assert(spec_hex_val(spec_hex_digit(v % 16)) == v % 16);
            assert((v / 16) * 16 + v % 16 == v);
            assert(t.skip(6) =~= t2);
            vstd::utf8::char_u32_cast(c, u);
            assert(((spec_hex_val(t[4]) * 16 + spec_hex_val(t[5])) as u32) == u);
            assert((u as char) == c);
            assert(dec_string_body(t) == Some((seq![c] + w2, n2 + 1 + 6)));
            assert(seq![c] + w2 =~= w);
        } else {
            assert(t[0] == c);
            assert(t.skip(1) =~= t2);
            assert(dec_string_body(t) == Some((seq![c] + w2, n2 + 1 + 1)));
            assert(seq![c] + w2 =~= w);
        }
    }
}

/// Decoding the encoding of one record, followed by anything, consumes
/// exactly the encoding and yields the record.
#[verifier::rlimit(100)]
proof fn lemma_dec_task_enc(tv: TaskModel, rest: Seq<char>)
    ensures
        dec_task(enc_task(tv) + rest) == Some((tv, enc_task(tv).len() as int)),
{
    let t = enc_task(tv) + rest;
    let e1 = esc_str(tv.id);
    let e2 = esc_str(tv.title);
    let e3 = esc_str(tv.body);
    let q = seq!['"'];
    let s3 = e3 + q + (seq!['}'] + rest);
    let s2 = e2 + q + (lit_mid_body() + s3);
    let s1 = e1 + q + (lit_mid_title() + s2);
    assert(t =~= lit_obj_id() + s1);
    assert(begins_with(t, lit_obj_id())) by {
        assert(t.take(7) =~= lit_obj_id());
    }
    assert(t.skip(7) =~= s1);
    lemma_dec_esc(tv.id, lit_mid_title() + s2);
    let n1 = e1.len() + 1;
    assert(dec_string_body(t.skip(7)) == Some((tv.id, n1 as int)));
    let t1 = t.skip(7 + n1 as int);
    assert(t1 =~= lit_mid_title() + s2);
    assert(begins_with(t1, lit_mid_title())) by {
        assert(t1.take(10) =~= lit_mid_title());
    }
    assert(t1.skip(10) =~= s2);
    lemma_dec_esc(tv.title, lit_mid_body() + s3);
    let n2 = e2.len() + 1;
    assert(dec_string_body(t1.skip(10)) == Some((tv.title, n2 as int)));
    let t2 = t1.skip(10 + n2 as int);
    assert(t2 =~= lit_mid_body() + s3);
    assert(begins_with(t2, lit_mid_body())) by {
        assert(t2.take(9) =~= lit_mid_body());
    }
    assert(t2.skip(9) =~= s3);
    lemma_dec_esc(tv.body, seq!['}'] + rest);
    let n3 = e3.len() + 1;
    assert(dec_string_body(t2.skip(9)) == Some((tv.body, n3 as int)));
    let t3 = t2.skip(9 + n3 as int);
    assert(t3 =~= seq!['}'] + rest);
    assert(t3.len() >= 1 && t3[0] == '}');
    assert(TaskModel { id: tv.id, title: tv.title, body: tv.body } == tv);
    assert(dec_task(t) == Some((tv, 7 + n1 as int + 10 + n2 as int + 9 + n3 as int + 1)));
    assert(enc_task(tv).len() == 30 + e1.len() + e2.len() + e3.len());
}

/// Decoding the encodings of one or more records, followed by anything that
/// does not begin with a comma, consumes exactly the encodings and yields
/// the records.
proof fn lemma_dec_items_enc(ts: Seq<TaskModel>, rest: Seq<char>)
    requires
        ts.len() >= 1,
        rest.len() >= 1,
        rest[0] != ',',
    ensures
        dec_items(enc_items(ts) + rest) == Some((ts, enc_items(ts).len() as int)),
    decreases ts.len(),
{
    let t = enc_items(ts) + rest;
    if ts.len() == 1 {
        assert(enc_items(ts) == enc_task(ts[0]));
        lemma_dec_task_enc(ts[0], rest);
        let n = enc_task(ts[0]).len() as int;
        assert(n >= 1);
        assert(t.len() == n + rest.len());
        assert(t[n] == rest[0]);
        assert(dec_items(t) == Some((seq![ts[0]], n)));
        assert(seq![ts[0]] =~= ts);
    } else {
        let ts2 = ts.drop_first();
        assert(enc_items(ts) == enc_task(ts[0]) + seq![','] + enc_items(ts2));
        let tail = enc_items(ts2) + rest;
        lemma_dec_task_enc(ts[0], seq![','] + tail);
        assert(t =~= enc_task(ts[0]) + (seq![','] + tail));
        let n = enc_task(ts[0]).len() as int;
        assert(dec_task(t) == Some((ts[0], n)));
        assert(n >= 1);
        assert(n < t.len() && t[n] == ',');
        assert(t.skip(n + 1) =~= tail);
        lemma_dec_items_enc(ts2, rest);
        let m = enc_items(ts2).len() as int;
        assert(dec_items(t) == Some((seq![ts[0]] + ts2, n + 1 + m)));
        assert(seq![ts[0]] + ts2 =~= ts);
        assert(enc_items(ts).len() == n + 1 + m);
    }
}

/// The encoding of a nonempty collection's records is nonempty.
proof fn lemma_enc_items_len(ts: Seq<TaskModel>)
    requires
        ts.len() >= 1,
    ensures
        enc_items(ts).len() >= 1,
{
    if ts.len() == 1 {
        assert(enc_items(ts) == enc_task(ts[0]));
    } else {
        assert(enc_items(ts) == enc_task(ts[0]) + seq![','] + enc_items(ts.drop_first()));
    }
    assert(enc_task(ts[0]).len() >= 30);
}

/// Round trip: decoding the encoding of any task collection yields exactly
/// that collection.
pub proof fn lemma_round_trip(ts: Seq<TaskModel>)
    ensures
        dec_tasks(enc_list(ts)) == Some(ts),
{
    let s = enc_list(ts);
    if ts.len() == 0 {
        assert(enc_items(ts) == Seq::<char>::empty());
        assert(s =~= seq!['[', ']']);
        assert(s.len() == 2 && s[0] == '[' && s[1] == ']');
        assert(Seq::<TaskModel>::empty() =~= ts);
    } else {
        lemma_enc_items_len(ts);
        assert(s.len() >= 3);
        assert(s[0] == '[');
        assert(s.skip(1) =~= enc_items(ts) + seq![']']);
        lemma_dec_items_enc(ts, seq![']']);
        let n = enc_items(ts).len() as int;
        assert(dec_items(s.skip(1)) == Some((ts, n)));
        assert(n == s.len() - 2);
        assert(s[s.len() - 1] == ']');
    }
}

/// Two collections with the same encoding are the same collection.
pub proof fn lemma_enc_injective(ts1: Seq<TaskModel>, ts2: Seq<TaskModel>)
    requires
        enc_list(ts1) == enc_list(ts2),
    ensures
        ts1 == ts2,
{
    lemma_round_trip(ts1);
    lemma_round_trip(ts2);
}

// ---------------------------------------------------------------------------
// Soundness: whatever decodes was exactly an encoding
// ---------------------------------------------------------------------------

/// A decoded string content is the unique one whose escaped form, with its
/// closing quote, is the consumed prefix.
proof fn lemma_dec_string_sound(t: Seq<char>)
    ensures
        match dec_string_body(t) {
            Some(p) => 1 <= p.1 <= t.len() && t.take(p.1) == esc_str(p.0) + seq!['"'],
            None => true,
        },
    decreases t.len(),
{
    if dec_string_body(t) is Some {
        if t[0] == '"' {
            assert(t.take(1) =~= seq![t[0]]);
            assert(esc_str(Seq::<char>::empty()) + seq!['"'] =~= seq!['"']);
        } else if t[0] == '\\' {
            if t[1] == '"' || t[1] == '\\' {
                lemma_dec_string_sound(t.skip(2));
                match dec_string_body(t.skip(2)) {
                    Some(q) => {
                        let w = seq![t[1]] + q.0;
                        assert(w[0] == t[1] && w.drop_first() =~= q.0);
                        assert(esc_str(w) == esc_char(t[1]) + esc_str(q.0));
                        assert(esc_char(t[1]) =~= seq![t[0], t[1]]);
                        assert(t.take(q.1 + 2) =~= seq![t[0], t[1]] + t.skip(2).take(q.1));
                        assert(t.take(q.1 + 2) =~= esc_str(w) + seq!['"']);
                    },
                    None => {},
                }
            } else {
                // the `\u00` escape of a control character
                let v = spec_hex_val(t[4]) * 16 + spec_hex_val(t[5]);
                assert(0 <= spec_hex_val(t[4]) < 16 && 0 <= spec_hex_val(t[5]) < 16);
                assert(0 <= v < 32);
                let c = (v as u32) as char;
                assert((c as u32) == v as u32);
                assert((c as u32) as int == v);
                assert(c != '"' && c != '\\') by {
                    assert(('"' as u32) == 34 && ('\\' as u32) == 92);
                }
                assert(v / 16 == spec_hex_val(t[4]) && v % 16 == spec_hex_val(t[5]));
                assert(spec_hex_digit(spec_hex_val(t[4])) == t[4]);
                assert(spec_hex_digit(spec_hex_val(t[5])) == t[5]);
                assert(esc_char(c) =~= seq![t[0], t[1], t[2], t[3], t[4], t[5]]);
                lemma_dec_string_sound(t.skip(6));
                match dec_string_body(t.skip(6)) {
                    Some(q) => {
                        let w = seq![c] + q.0;
                        assert(w[0] == c && w.drop_first() =~= q.0);
                        assert(esc_str(w) == esc_char(c) + esc_str(q.0));
                        assert(t.take(q.1 + 6) =~= seq![t[0], t[1], t[2], t[3], t[4], t[5]]
                            + t.skip(6).take(q.1));
                        assert(t.take(q.1 + 6) =~= esc_str(w) + seq!['"']);
                    },
                    None => {},
                }
            }
        } else {
            lemma_dec_string_sound(t.skip(1));
            match dec_string_body(t.skip(1)) {
                Some(q) => {
                    let w = seq![t[0]] + q.0;
                    assert(w[0] == t[0] && w.drop_first() =~= q.0);
                    assert(esc_str(w) == esc_char(t[0]) + esc_str(q.0));
                    assert(esc_char(t[0]) =~= seq![t[0]]);
                    assert(t.take(q.1 + 1) =~= seq![t[0]] + t.skip(1).take(q.1));
                    assert(t.take(q.1 + 1) =~= esc_str(w) + seq!['"']);
                },
                None => {},
            }
        }
    }
}

/// A decoded record is the unique one whose encoding is the consumed prefix.
#[verifier::rlimit(100)]
proof fn lemma_dec_task_sound(t: Seq<char>)
    ensures
        match dec_task(t) {
            Some(p) => 1 <= p.1 <= t.len() && t.take(p.1) == enc_task(p.0),
            None => true,
        },
{
    if dec_task(t) is Some {
        lemma_dec_string_sound(t.skip(7));
        match dec_string_body(t.skip(7)) {
            Some(pid) => {
                let t1 = t.skip(7 + pid.1);
                assert(t1.len() == t.len() - 7 - pid.1);
                lemma_dec_string_sound(t1.skip(10));
                match dec_string_body(t1.skip(10)) {
                    Some(pti) => {
                        let t2 = t1.skip(10 + pti.1);
                        lemma_dec_string_sound(t2.skip(9));
                        match dec_string_body(t2.skip(9)) {
                            Some(pbo) => {
                                let n = 7 + pid.1 + 10 + pti.1 + 9 + pbo.1 + 1;
                                assert(t1 =~= t.skip(7).skip(pid.1));
                                assert(t2 =~= t1.skip(10).skip(pti.1));
                                let t3 = t2.skip(9 + pbo.1);
                                assert(t3 =~= t2.skip(9).skip(pbo.1));
                                assert(t.take(n) =~= t.take(7) + t.skip(7).take(pid.1)
                                    + t1.take(10) + t1.skip(10).take(pti.1) + t2.take(9)
                                    + t2.skip(9).take(pbo.1) + seq![t3[0]]);
                                assert(t.take(7) == lit_obj_id());
                                assert(t1.take(10) == lit_mid_title());
                                assert(t2.take(9) == lit_mid_body());
                                assert(esc_str(pid.0) + seq!['"'] + lit_mid_title()
                                    =~= esc_str(pid.0) + (seq!['"'] + lit_mid_title()));
                                let tv = TaskModel { id: pid.0, title: pti.0, body: pbo.0 };
                                assert(t.take(n) =~= enc_task(tv));
                            },
                            None => {},
                        }
                    },
                    None => {},
                }
            },
            None => {},
        }
    }
}

/// A decoded record list is the unique one whose encoding is the consumed
/// prefix.
proof fn lemma_dec_items_sound(t: Seq<char>)
    ensures
        match dec_items(t) {
            Some(p) => 1 <= p.1 <= t.len() && p.0.len() >= 1 && t.take(p.1) == enc_items(p.0),
            None => true,
        },
    decreases t.len(),
{
    if dec_items(t) is Some {
        lemma_dec_task_sound(t);
        match dec_task(t) {
            Some(p) => {
                if p.1 < t.len() && t[p.1] == ',' {
                    lemma_dec_items_sound(t.skip(p.1 + 1));
                    match dec_items(t.skip(p.1 + 1)) {
                        Some(q) => {
                            let ts = seq![p.0] + q.0;
                            assert(ts[0] == p.0 && ts.drop_first() =~= q.0);
                            assert(ts.len() >= 2);
                            assert(enc_items(ts) == enc_task(p.0) + seq![','] + enc_items(q.0));
                            assert(t.take(p.1 + 1 + q.1) =~= t.take(p.1) + seq![t[p.1]]
                                + t.skip(p.1 + 1).take(q.1));
                            assert(t.take(p.1 + 1 + q.1) =~= enc_items(ts));
                        },
                        None => {},
                    }
                } else {
                    assert(enc_items(seq![p.0]) == enc_task(p.0));
                }
            },
            None => {},
        }
    }
}

/// Whatever decodes as a whole collection is exactly that collection's
/// encoding.
pub proof fn lemma_dec_tasks_sound(s: Seq<char>)
    ensures
        match dec_tasks(s) {
            Some(ts) => s == enc_list(ts),
            None => true,
        },
{
    if dec_tasks(s) is Some {
        if s.len() == 2 && s[0] == '[' && s[1] == ']' {
            assert(enc_items(Seq::<TaskModel>::empty()) == Seq::<char>::empty());
            assert(enc_list(Seq::<TaskModel>::empty()) =~= seq!['[', ']']);
            assert(s =~= seq!['[', ']']);
        } else {
            lemma_dec_items_sound(s.skip(1));
            match dec_items(s.skip(1)) {
                Some(p) => {
                    assert(s.skip(1).take(p.1) == enc_items(p.0));
                    assert(s =~= seq![s[0]] + s.skip(1).take(p.1) + seq![s[s.len() - 1]]);
                    assert(s =~= enc_list(p.0));
                },
                None => {},
            }
        }
    }
}

// ---------------------------------------------------------------------------
// The executable encoder
// ---------------------------------------------------------------------------

/// Relies on String::push: appends exactly the given character to the end of
/// the string.
#[verifier::external_body]
pub(crate) fn push_char(s: &mut String, c: char)
    ensures
        final(s)@ == old(s)@.push(c),
{
    s.push(c)
}

/// The lowercase hexadecimal digit of a value below 16.
fn hex_char(n: u8) -> (r: char)
    requires
        n < 16,
    ensures
        r == spec_hex_digit(n as int),
{
    if n == 0 { '0' } else if n == 1 { '1' } else if n == 2 { '2' } else if n == 3 { '3' }
    else if n == 4 { '4' } else if n == 5 { '5' } else if n == 6 { '6' } else if n == 7 { '7' }
    else if n == 8 { '8' } else if n == 9 { '9' } else if n == 10 { 'a' } else if n == 11 { 'b' }
    else if n == 12 { 'c' } else if n == 13 { 'd' } else if n == 14 { 'e' } else { 'f' }
}

/// Appends the escaped form of `s` to `out`.
fn encode_string_into(out: &mut String, s: &str)
    ensures
        final(out)@ == old(out)@ + esc_str(s@),
{
    let n = s.unicode_len();
    let mut i: usize = 0;
    while i < n
        invariant
            n == s@.len(),
            i <= n,
            out@ == old(out)@ + esc_str(s@.take(i as int)),
        decreases n - i,
    {
        let c = s.get_char(i);
        proof {
            assert(s@.take(i as int).push(c) =~= s@.take(i + 1));
            lemma_esc_str_snoc(s@.take(i as int), c);
        }
        if c == '"' {
            push_char(out, '\\');
            push_char(out, '"');
            assert(out@ =~= old(out)@ + esc_str(s@.take(i + 1)));
        } else if c == '\\' {
            push_char(out, '\\');
            push_char(out, '\\');
            assert(out@ =~= old(out)@ + esc_str(s@.take(i + 1)));
        } else if (c as u32) < 32 {
            let v = c as u32;
            push_char(out, '\\');
            push_char(out, 'u');
            push_char(out, '0');
            push_char(out, '0');
            push_char(out, hex_char((v / 16) as u8));
            push_char(out, hex_char((v % 16) as u8));
            assert(out@ =~= old(out)@ + esc_str(s@.take(i + 1)));
        } else {
            push_char(out, c);
            assert(out@ =~= old(out)@ + esc_str(s@.take(i + 1)));
        }
        i = i + 1;
    }
    assert(s@.take(n as int) =~= s@);
}

/// Appends the encoding of one task record to `out`.
fn encode_task_into(out: &mut String, t: &Todo)
    ensures
        final(out)@ == old(out)@ + enc_task(t@),
{
    proof {
        reveal_strlit("{\"id\":\"");
        reveal_strlit("\",\"title\":\"");
        reveal_strlit("\",\"body\":\"");
        reveal_strlit("\"}");
        assert("{\"id\":\""@ =~= lit_obj_id());
        assert("\",\"title\":\""@ =~= seq!['"'] + lit_mid_title());
        assert("\",\"body\":\""@ =~= seq!['"'] + lit_mid_body());
        assert("\"}"@ =~= seq!['"', '}']);
    }
    out.append("{\"id\":\"");
    encode_string_into(out, t.id.as_str());
    out.append("\",\"title\":\"");
    encode_string_into(out, t.title.as_str());
    out.append("\",\"body\":\"");
    encode_string_into(out, t.body.as_str());
    out.append("\"}");
    assert(out@ =~= old(out)@ + enc_task(t@));
}

/// Encodes a task collection as its canonical JSON text.
pub fn encode(todos: &Vec<Todo>) -> (r: String)
    ensures
        r@ == enc_list(todos.deep_view()),
{
    let mut out = String::new();
    push_char(&mut out, '[');
    let n = todos.len();
    let mut i: usize = 0;
    while i < n
        invariant
            n == todos.len(),
            i <= n,
            out@ == seq!['['] + enc_items(todos.deep_view().take(i as int)),
        decreases n - i,
    {
        proof {
            assert(todos.deep_view().take(i as int).push(todos.deep_view()[i as int])
                =~= todos.deep_view().take(i + 1));
            lemma_enc_items_snoc(todos.deep_view().take(i as int), todos.deep_view()[i as int]);
        }
        if i > 0 {
            push_char(&mut out, ',');
        }
        encode_task_into(&mut out, &todos[i]);
        assert(out@ =~= seq!['['] + enc_items(todos.deep_view().take(i + 1)));
        i = i + 1;
    }
    proof {
        assert(todos.deep_view().take(n as int) =~= todos.deep_view());
    }
    push_char(&mut out, ']');
    assert(out@ =~= enc_list(todos.deep_view()));
    out
}

// ---------------------------------------------------------------------------
// The executable decoder
// ---------------------------------------------------------------------------

/// The characters of a string slice.
fn to_char_vec(s: &str) -> (r: Vec<char>)
    ensures
        r@ == s@,
{
    let n = s.unicode_len();
    let mut r: Vec<char> = Vec::new();
    let mut i: usize = 0;
    while i < n
        invariant
            n == s@.len(),
            i <= n,
            r@ == s@.take(i as int),
        decreases n - i,
    {
        r.push(s.get_char(i));
        assert(r@ =~= s@.take(i + 1));
        i = i + 1;
    }
    assert(s@.take(n as int) =~= s@);
    r
}

/// The value of a lowercase hexadecimal digit, or -1 for any other
/// character.
fn hex_val(c: char) -> (r: i8)
    ensures
        r as int == spec_hex_val(c),
{
    if c == '0' { 0 } else if c == '1' { 1 } else if c == '2' { 2 } else if c == '3' { 3 }
    else if c == '4' { 4 } else if c == '5' { 5 } else if c == '6' { 6 } else if c == '7' { 7 }
    else if c == '8' { 8 } else if c == '9' { 9 } else if c == 'a' { 10 } else if c == 'b' { 11 }
    else if c == 'c' { 12 } else if c == 'd' { 13 } else if c == 'e' { 14 } else if c == 'f' { 15 }
    else { -1 }
}

/// Parses a string literal's content from `start` up to and including its
/// closing quote; returns the decoded text and the position after the quote.
fn parse_string_body(v: &Vec<char>, start: usize) -> (r: Option<(String, usize)>)
    requires
        start <= v@.len(),
    ensures
        ({
            let d = dec_string_body(v@.skip(start as int));
            match r {
                Some(p) => {
                    &&& d == Some((p.0@, p.1 - start as int))
                    &&& start < p.1 <= v@.len()
                },
                None => d is None,
            }
        }),
{
    let n = v.len();
    let mut pos = start;
    let mut acc = String::new();
    loop
        invariant
            start <= pos <= n,
            n == v@.len(),
            dec_string_body(v@.skip(start as int)) == (match dec_string_body(
                v@.skip(pos as int),
            ) {
                Some(q) => Some((acc@ + q.0, (pos - start) as int + q.1)),
                None => None::<(Seq<char>, int)>,
            }),
        decreases n - pos,
    {
        if pos >= n {
            assert(v@.skip(pos as int).len() == 0);
            return None;
        }
        let c = v[pos];
        proof {
            assert(v@.skip(pos as int)[0] == c);
        }
        if c == '"' {
            proof {
                assert(dec_string_body(v@.skip(pos as int)) == Some(
                    (Seq::<char>::empty(), 1int),
                ));
                assert(acc@ + Seq::<char>::empty() =~= acc@);
            }
            return Some((acc, pos + 1));
        } else if c == '\\' {
            if pos + 1 >= n {
                assert(v@.skip(pos as int).len() < 2);
                return None;
            }
            let c2 = v[pos + 1];
            proof {
                assert(v@.skip(pos as int)[1] == c2);
            }
            if c2 == '"' || c2 == '\\' {
                proof {
                    assert(v@.skip(pos as int).skip(2) =~= v@.skip(pos as int + 2));
                    match dec_string_body(v@.skip(pos as int + 2)) {
                        Some(q) => {
                            assert(acc@ + (seq![c2] + q.0) =~= acc@.push(c2) + q.0);
                        },
                        None => {},
                    }
                }
                push_char(&mut acc, c2);
                pos = pos + 2;
            } else if c2 == 'u' {
                if n - pos < 6 {
                    assert(v@.skip(pos as int).len() < 6);
                    return None;
                }
                let d2 = v[pos + 2];
                let d3 = v[pos + 3];
                let h1 = hex_val(v[pos + 4]);
                let h2 = hex_val(v[pos + 5]);
                proof {
                    assert(v@.skip(pos as int)[2] == d2);
                    assert(v@.skip(pos as int)[3] == d3);
                    assert(v@.skip(pos as int)[4] == v@[pos as int + 4]);
                    assert(v@.skip(pos as int)[5] == v@[pos as int + 5]);
                }
                if d2 == '0' && d3 == '0' && h1 >= 0 && h2 >= 0
                    && (h1 as i32) * 16 + (h2 as i32) < 32 {
                    let val: u8 = (h1 as u8) * 16 + (h2 as u8);
                    let ch = val as char;
                    proof {
                        let t = v@.skip(pos as int);
                        let sv = spec_hex_val(t[4]) * 16 + spec_hex_val(t[5]);
                        assert(val as int == sv);
                        assert(ch == (sv as u32) as char);
                        assert(v@.skip(pos as int).skip(6) =~= v@.skip(pos as int + 6));
                        match dec_string_body(v@.skip(pos as int + 6)) {
                            Some(q) => {
                                assert(acc@ + (seq![ch] + q.0) =~= acc@.push(ch) + q.0);
                            },
                            None => {},
                        }
                    }
                    push_char(&mut acc, ch);
                    pos = pos + 6;
                } else {
                    assert(dec_string_body(v@.skip(pos as int)) is None);
                    return None;
                }
            } else {
                return None;
            }
        } else if (c as u32) < 32 {
            return None;
        } else {
            proof {
                assert(v@.skip(pos as int).skip(1) =~= v@.skip(pos as int + 1));
                match dec_string_body(v@.skip(pos as int + 1)) {
                    Some(q) => {
                        assert(acc@ + (seq![c] + q.0) =~= acc@.push(c) + q.0);
                    },
                    None => {},
                }
            }
            push_char(&mut acc, c);
            pos = pos + 1;
        }
    }
}

/// True when the record opening, up to the quote of the id value, stands at
/// `start`.
fn has_obj_id_at(v: &Vec<char>, start: usize) -> (r: bool)
    requires
        start <= v@.len(),
    ensures
        r == begins_with(v@.skip(start as int), lit_obj_id()),
{
    let r = v.len() - start >= 7 && v[start] == '{' && v[start + 1] == '"' && v[start + 2] == 'i'
        && v[start + 3] == 'd' && v[start + 4] == '"' && v[start + 5] == ':'
        && v[start + 6] == '"';
    proof {
        if r {
            assert(v@.skip(start as int).take(7) =~= lit_obj_id());
        }
    }
    r
}

/// True when the separator between the id value and the title value stands
/// at `start`.
fn has_mid_title_at(v: &Vec<char>, start: usize) -> (r: bool)
    requires
        start <= v@.len(),
    ensures
        r == begins_with(v@.skip(start as int), lit_mid_title()),
{
    let r = v.len() - start >= 10 && v[start] == ',' && v[start + 1] == '"'
        && v[start + 2] == 't' && v[start + 3] == 'i' && v[start + 4] == 't'
        && v[start + 5] == 'l' && v[start + 6] == 'e' && v[start + 7] == '"'
        && v[start + 8] == ':' && v[start + 9] == '"';
    proof {
        if r {
            assert(v@.skip(start as int).take(10) =~= lit_mid_title());
        }
    }
    r
}

/// True when the separator between the title value and the body value stands
/// at `start`.
fn has_mid_body_at(v: &Vec<char>, start: usize) -> (r: bool)
    requires
        start <= v@.len(),
    ensures
        r == begins_with(v@.skip(start as int), lit_mid_body()),
{
    let r = v.len() - start >= 9 && v[start] == ',' && v[start + 1] == '"' && v[start + 2] == 'b'
        && v[start + 3] == 'o' && v[start + 4] == 'd' && v[start + 5] == 'y'
        && v[start + 6] == '"' && v[start + 7] == ':' && v[start + 8] == '"';
    proof {
        if r {
            assert(v@.skip(start as int).take(9) =~= lit_mid_body());
        }
    }
    r
}

/// Parses one record from `start`; returns the task and the position after
/// its closing brace.
fn parse_task(v: &Vec<char>, start: usize) -> (r: Option<(Todo, usize)>)
    requires
        start <= v@.len(),
    ensures
        ({
            let d = dec_task(v@.skip(start as int));
            match r {
                Some(p) => {
                    &&& d == Some((p.0@, p.1 - start as int))
                    &&& start < p.1 <= v@.len()
                },
                None => d is None,
            }
        }),
{
    let t = Ghost(v@.skip(start as int));
    let n = v.len();
    if !has_obj_id_at(v, start) {
        return None;
    }
    proof {
        assert(t@.len() >= 7);
        assert(start + 7 <= n);
        assert(t@.skip(7) =~= v@.skip(start as int + 7));
    }
    match parse_string_body(v, start + 7) {
        None => None,
        Some((id_s, e1)) => {
            proof {
                assert(t@.skip(7 + (e1 - (start + 7) as int)) =~= v@.skip(e1 as int));
            }
            if !has_mid_title_at(v, e1) {
                return None;
            }
            proof {
                assert(v@.skip(e1 as int).len() >= 10);
                assert(e1 + 10 <= n);
                assert(v@.skip(e1 as int).skip(10) =~= v@.skip(e1 as int + 10));
            }
            match parse_string_body(v, e1 + 10) {
                None => None,
                Some((ti_s, e2)) => {
                    proof {
                        assert(v@.skip(e1 as int).skip(10 + (e2 - (e1 + 10) as int)) =~= v@.skip(
                            e2 as int,
                        ));
                    }
                    if !has_mid_body_at(v, e2) {
                        return None;
                    }
                    proof {
                        assert(v@.skip(e2 as int).len() >= 9);
                        assert(e2 + 9 <= n);
                        assert(v@.skip(e2 as int).skip(9) =~= v@.skip(e2 as int + 9));
                    }
                    match parse_string_body(v, e2 + 9) {
                        None => None,
                        Some((bo_s, e3)) => {
                            proof {
                                assert(v@.skip(e2 as int).skip(9 + (e3 - (e2 + 9) as int))
                                    =~= v@.skip(e3 as int));
                                assert(v@.skip(e3 as int).len() == v@.len() - e3);
                            }
                            if e3 < v.len() && v[e3] == '}' {
                                proof {
                                    assert(v@.skip(e3 as int)[0] == v@[e3 as int]);
                                }
                                let todo = Todo { id: id_s, title: ti_s, body: bo_s };
                                Some((todo, e3 + 1))
                            } else {
                                None
                            }
                        },
                    }
                },
            }
        },
    }
}

/// Parses one or more comma-separated records from `start`; returns the
/// tasks and the position after the last record.
fn parse_items(v: &Vec<char>, start: usize) -> (r: Option<(Vec<Todo>, usize)>)
    requires
        start <= v@.len(),
    ensures
        ({
            let d = dec_items(v@.skip(start as int));
            match r {
                Some(p) => {
                    &&& d == Some((p.0.deep_view(), p.1 - start as int))
                    &&& start < p.1 <= v@.len()
                },
                None => d is None,
            }
        }),
{
    let mut acc: Vec<Todo> = Vec::new();
    let mut pos = start;
    loop
        invariant
            start <= pos <= v@.len(),
            dec_items(v@.skip(start as int)) == (match dec_items(v@.skip(pos as int)) {
                Some(q) => Some((acc.deep_view() + q.0, (pos - start) as int + q.1)),
                None => None::<(Seq<TaskModel>, int)>,
            }),
        decreases v@.len() - pos,
    {
        match parse_task(v, pos) {
            None => {
                return None;
            },
            Some((todo, end)) => {
                proof {
                    assert(v@.skip(pos as int).len() == v@.len() - pos);
                }
                if end < v.len() && v[end] == ',' {
                    proof {
                        let t = v@.skip(pos as int);
                        assert(t[end - pos as int] == v@[end as int]);
                        assert(t.skip(end - pos as int + 1) =~= v@.skip(end as int + 1));
                        match dec_items(v@.skip(end as int + 1)) {
                            Some(q) => {
                                assert(acc.deep_view() + (seq![todo@] + q.0) =~= acc.deep_view()
                                    .push(todo@) + q.0);
                            },
                            None => {},
                        }
                    }
                    acc.push(todo);
                    proof {
                        assert(acc.deep_view() =~= acc.deep_view().drop_last().push(todo@));
                    }
                    pos = end + 1;
                } else {
                    proof {
                        let t = v@.skip(pos as int);
                        if end - pos < t.len() {
                            assert(t[end - pos as int] == v@[end as int]);
                        }
                        assert(dec_items(t) == Some((seq![todo@], end - pos as int)));
                    }
                    acc.push(todo);
                    proof {
                        assert(acc.deep_view() =~= acc.deep_view().drop_last().push(todo@));
                        assert(acc.deep_view().drop_last() + seq![todo@] =~= acc.deep_view());
                    }
                    return Some((acc, end));
                }
            },
        }
    }
}

/// Decodes a persisted text. Succeeds exactly on the canonical encodings of
/// task collections, and then returns the one collection the text encodes.
pub fn decode(s: &str) -> (r: Result<Vec<Todo>, StorageError>)
    ensures
        match r {
            Ok(v) => s@ == enc_list(v.deep_view()),
            Err(e) => (forall|ts: Seq<TaskModel>| s@ != enc_list(ts)) && e is Malformed,
        },
{
    let v = to_char_vec(s);
    let d = Ghost(dec_tasks(s@));
    let ok: Option<Vec<Todo>> = if v.len() >= 2 && v[0] == '[' {
        if v.len() == 2 && v[1] == ']' {
            assert(d@ == Some(Seq::<TaskModel>::empty()));
            let empty: Vec<Todo> = Vec::new();
            assert(empty.deep_view() =~= Seq::<TaskModel>::empty());
            Some(empty)
        } else {
            match parse_items(&v, 1) {
                None => {
                    assert(d@ is None);
                    None
                },
                Some((todos, end)) => {
                    if end == v.len() - 1 && v[end] == ']' {
                        assert(d@ == Some(todos.deep_view()));
                        Some(todos)
                    } else {
                        assert(d@ is None);
                        None
                    }
                },
            }
        }
    } else {
        assert(d@ is None);
        None
    };
    match ok {
        Some(todos) => {
            proof {
                lemma_dec_tasks_sound(s@);
            }
            Ok(todos)
        },
        None => {
            proof {
                assert forall|ts: Seq<TaskModel>| s@ != enc_list(ts) by {
                    if s@ == enc_list(ts) {
                        lemma_round_trip(ts);
                    }
                }
            }
            Err(StorageError::Malformed)
        },
    }
}

} // verus!
