//! The wire format: one JSON object per line, newline-terminated.
//!
//! These spec functions define, character by character, the one canonical
//! line of text that encodes a log entry.  The encoder produces exactly
//! this sequence and the decoder accepts exactly this sequence, so the
//! two sides can never disagree on the record shape.
//!
//! Strings are JSON-escaped: `"` and `\` get a backslash escape, the
//! common control characters use `\n`, `\r`, `\t`, and every other
//! control character is written `\u00XX` with two lowercase hex digits.
//! Numbers are written in decimal with no leading zeros; the timestamp
//! is written `YYYY-MM-DDThh:mm:ssZ` with fixed-width zero-padded
//! fields.

use vstd::prelude::*;

use crate::model::{ActionV, EntryV, MessageV};
use crate::Timestamp;

verus! {

// ---------------------------------------------------------------------
// Characters
// ---------------------------------------------------------------------
pub open spec fn is_digit(c: char) -> bool {
    48 <= c as u32 <= 57
}

pub open spec fn digit_val(c: char) -> nat {
    (c as u32 - 48) as nat
}

pub open spec fn digit_char(d: nat) -> char {
    if d == 0 { '0' } else if d == 1 { '1' } else if d == 2 { '2' } else if d == 3 { '3' }
    else if d == 4 { '4' } else if d == 5 { '5' } else if d == 6 { '6' } else if d == 7 { '7' }
    else if d == 8 { '8' } else { '9' }
}

/// Lowercase hexadecimal digit.
pub open spec fn is_lhex(c: char) -> bool {
    is_digit(c) || 97 <= c as u32 <= 102
}

pub open spec fn lhex_val(c: char) -> nat {
    if is_digit(c) { digit_val(c) } else { (c as u32 - 87) as nat }
}

pub open spec fn hex_char(d: nat) -> char {
    if d < 10 { digit_char(d) } else if d == 10 { 'a' } else if d == 11 { 'b' }
    else if d == 12 { 'c' } else if d == 13 { 'd' } else if d == 14 { 'e' } else { 'f' }
}

/// The control character with code `v` (`v < 32`).
pub open spec fn ctrl_char(v: nat) -> char {
    if v == 0 { '\u{0}' } else if v == 1 { '\u{1}' } else if v == 2 { '\u{2}' }
    else if v == 3 { '\u{3}' } else if v == 4 { '\u{4}' } else if v == 5 { '\u{5}' }
    else if v == 6 { '\u{6}' } else if v == 7 { '\u{7}' } else if v == 8 { '\u{8}' }
    else if v == 9 { '\u{9}' } else if v == 10 { '\u{a}' } else if v == 11 { '\u{b}' }
    else if v == 12 { '\u{c}' } else if v == 13 { '\u{d}' } else if v == 14 { '\u{e}' }
    else if v == 15 { '\u{f}' } else if v == 16 { '\u{10}' } else if v == 17 { '\u{11}' }
    else if v == 18 { '\u{12}' } else if v == 19 { '\u{13}' } else if v == 20 { '\u{14}' }
    else if v == 21 { '\u{15}' } else if v == 22 { '\u{16}' } else if v == 23 { '\u{17}' }
    else if v == 24 { '\u{18}' } else if v == 25 { '\u{19}' } else if v == 26 { '\u{1a}' }
    else if v == 27 { '\u{1b}' } else if v == 28 { '\u{1c}' } else if v == 29 { '\u{1d}' }
    else if v == 30 { '\u{1e}' } else { '\u{1f}' }
}

pub proof fn lemma_digit_char_inv(d: nat, c: char)
    requires
        d < 10,
        is_digit(c),
    ensures
        is_digit(digit_char(d)),
        digit_val(digit_char(d)) == d,
        digit_char(digit_val(c)) == c,
{
}

pub proof fn lemma_hex_char_inv(d: nat, c: char)
    requires
        d < 16,
        is_lhex(c),
    ensures
        is_lhex(hex_char(d)),
        lhex_val(hex_char(d)) == d,
        hex_char(lhex_val(c)) == c,
{
}

pub proof fn lemma_ctrl_char_inv(v: nat, c: char)
    requires
        v < 32,
        (c as u32) < 32,
    ensures
        (ctrl_char(v) as u32) == v,
        ctrl_char((c as u32) as nat) == c,
{
}

// ---------------------------------------------------------------------
// Strings
// ---------------------------------------------------------------------
/// How one character appears inside a quoted JSON string.
pub open spec fn esc_char(c: char) -> Seq<char> {
    if c == '"' { seq!['\\', '"'] }
    else if c == '\\' { seq!['\\', '\\'] }
    else if c == '\n' { seq!['\\', 'n'] }
    else if c == '\r' { seq!['\\', 'r'] }
    else if c == '\t' { seq!['\\', 't'] }
    else if (c as u32) < 32 {
        seq!['\\', 'u', '0', '0', hex_char((c as u32 / 16) as nat), hex_char((c as u32 % 16) as nat)]
    } else { seq![c] }
}

pub open spec fn esc_str(s: Seq<char>) -> Seq<char>
    decreases s.len(),
{
    if s.len() == 0 { Seq::empty() } else { esc_char(s[0]) + esc_str(s.skip(1)) }
}

/// A JSON string: quotes around the escaped content.
pub open spec fn quoted(s: Seq<char>) -> Seq<char> {
    seq!['"'] + esc_str(s) + seq!['"']
}

pub proof fn lemma_esc_str_app(a: Seq<char>, b: Seq<char>)
    ensures
        esc_str(a + b) == esc_str(a) + esc_str(b),
    decreases a.len(),
{
    if a.len() == 0 {
        assert(a + b =~= b);
        assert(esc_str(a) + esc_str(b) =~= esc_str(b));
    } else {
        assert((a + b).skip(1) =~= a.skip(1) + b);
        lemma_esc_str_app(a.skip(1), b);
        assert(esc_char((a + b)[0]) + (esc_str(a.skip(1)) + esc_str(b))
            =~= (esc_char(a[0]) + esc_str(a.skip(1))) + esc_str(b));
    }
}

// ---------------------------------------------------------------------
// Numbers
// ---------------------------------------------------------------------
/// Decimal digits of `n`, no leading zeros.
pub open spec fn dec_digits(n: nat) -> Seq<char>
    decreases n,
{
    if n < 10 { seq![digit_char(n)] } else { dec_digits(n / 10).push(digit_char(n % 10)) }
}

/// Exactly `w` decimal digits of `n`, zero-padded on the left.
pub open spec fn padded(n: nat, w: nat) -> Seq<char>
    decreases w,
{
    if w == 0 { Seq::empty() } else { padded(n / 10, (w - 1) as nat).push(digit_char(n % 10)) }
}

// ---------------------------------------------------------------------
// Records
// ---------------------------------------------------------------------
/// `YYYY-MM-DDThh:mm:ssZ`.
pub open spec fn enc_ts(t: Timestamp) -> Seq<char> {
    padded(t.year as nat, 4) + seq!['-'] + padded(t.month as nat, 2) + seq!['-']
        + padded(t.day as nat, 2) + seq!['T'] + padded(t.hour as nat, 2) + seq![':']
        + padded(t.minute as nat, 2) + seq![':'] + padded(t.second as nat, 2) + seq!['Z']
}

/// Comma-separated quoted strings (the body of an attachment list).
pub open spec fn enc_att_items(a: Seq<Seq<char>>) -> Seq<char>
    decreases a.len(),
{
    if a.len() == 0 { Seq::empty() }
    else if a.len() == 1 { quoted(a[0]) }
    else { quoted(a[0]) + seq![','] + enc_att_items(a.skip(1)) }
}

/// One message object.
pub open spec fn enc_msg(m: MessageV) -> Seq<char> {
    "{\"id\":"@ + dec_digits(m.id as nat) + ",\"content\":"@ + quoted(m.content)
        + ",\"attachments\":["@ + enc_att_items(m.attachments) + "]}"@
}

/// Comma-separated message objects (the body of a `DeleteHour` list).
pub open spec fn enc_msg_items(ms: Seq<MessageV>) -> Seq<char>
    decreases ms.len(),
{
    if ms.len() == 0 { Seq::empty() }
    else if ms.len() == 1 { enc_msg(ms[0]) }
    else { enc_msg(ms[0]) + seq![','] + enc_msg_items(ms.skip(1)) }
}

pub proof fn lemma_att_items_snoc(a: Seq<Seq<char>>, x: Seq<char>)
    ensures
        enc_att_items(a.push(x)) == if a.len() == 0 { quoted(x) } else {
            enc_att_items(a) + seq![','] + quoted(x)
        },
    decreases a.len(),
{
    if a.len() == 0 {
        assert(a.push(x).len() == 1);
        assert(a.push(x)[0] == x);
    } else {
        assert(a.push(x).len() >= 2);
        assert(a.push(x)[0] == a[0]);
        assert(a.push(x).skip(1) =~= a.skip(1).push(x));
        lemma_att_items_snoc(a.skip(1), x);
        if a.len() == 1 {
            assert(a.skip(1).len() == 0);
            assert(enc_att_items(a.push(x)) == quoted(a[0]) + seq![','] + quoted(x));
            assert(enc_att_items(a) == quoted(a[0]));
        } else {
            assert(enc_att_items(a.push(x)) == quoted(a[0]) + seq![','] + (enc_att_items(
                a.skip(1),
            ) + seq![','] + quoted(x)));
            assert(enc_att_items(a) == quoted(a[0]) + seq![','] + enc_att_items(a.skip(1)));
            assert(quoted(a[0]) + seq![','] + (enc_att_items(a.skip(1)) + seq![','] + quoted(x))
                =~= (quoted(a[0]) + seq![','] + enc_att_items(a.skip(1))) + seq![','] + quoted(
                x,
            ));
        }
    }
}

pub proof fn lemma_msg_items_snoc(ms: Seq<MessageV>, x: MessageV)
    ensures
        enc_msg_items(ms.push(x)) == if ms.len() == 0 { enc_msg(x) } else {
            enc_msg_items(ms) + seq![','] + enc_msg(x)
        },
    decreases ms.len(),
{
    if ms.len() == 0 {
        assert(ms.push(x).len() == 1);
        assert(ms.push(x)[0] == x);
    } else {
        assert(ms.push(x).len() >= 2);
        assert(ms.push(x)[0] == ms[0]);
        assert(ms.push(x).skip(1) =~= ms.skip(1).push(x));
        lemma_msg_items_snoc(ms.skip(1), x);
        if ms.len() == 1 {
            assert(ms.skip(1).len() == 0);
            assert(enc_msg_items(ms.push(x)) == enc_msg(ms[0]) + seq![','] + enc_msg(x));
            assert(enc_msg_items(ms) == enc_msg(ms[0]));
        } else {
            assert(enc_msg_items(ms.push(x)) == enc_msg(ms[0]) + seq![','] + (enc_msg_items(
                ms.skip(1),
            ) + seq![','] + enc_msg(x)));
            assert(enc_msg_items(ms) == enc_msg(ms[0]) + seq![','] + enc_msg_items(ms.skip(1)));
            assert(enc_msg(ms[0]) + seq![','] + (enc_msg_items(ms.skip(1)) + seq![','] + enc_msg(
                x,
            )) =~= (enc_msg(ms[0]) + seq![','] + enc_msg_items(ms.skip(1))) + seq![','] + enc_msg(
                x,
            ));
        }
    }
}

/// The action, tagged by variant name.
pub open spec fn enc_action(a: ActionV) -> Seq<char> {
    match a {
        ActionV::DeleteMessage(m) => "{\"DeleteMessage\":"@ + enc_msg(m) + "}"@,
        ActionV::DeleteHour(ms) => "{\"DeleteHour\":["@ + enc_msg_items(ms) + "]}"@,
        ActionV::Reason(s) => "{\"Reason\":"@ + quoted(s) + "}"@,
    }
}

/// The whole entry object, without the line terminator.
pub open spec fn enc_entry(e: EntryV) -> Seq<char> {
    "{\"timestamp\":\""@ + enc_ts(e.timestamp) + "\",\"channel_id\":"@
        + dec_digits(e.channel_id as nat) + ",\"moderator_id\":"@
        + dec_digits(e.moderator_id as nat) + ",\"moderator_name\":"@
        + quoted(e.moderator_name) + ",\"moderator_discrim\":"@
        + dec_digits(e.moderator_discrim as nat) + ",\"action\":"@ + enc_action(e.action)
        + "}"@
}

/// One line of the log: the entry followed by `\n`.
pub open spec fn enc_line(e: EntryV) -> Seq<char> {
    enc_entry(e) + seq!['\n']
}

// ---------------------------------------------------------------------
// Line framing: the encoded entry itself never contains a newline, so
// the terminating `\n` of `enc_line` is the first newline of the line.
// ---------------------------------------------------------------------
pub open spec fn nl_free(s: Seq<char>) -> bool {
    forall|i: int| 0 <= i < s.len() ==> s[i] != '\n'
}

pub proof fn lemma_nl_free_app(a: Seq<char>, b: Seq<char>)
    requires
        nl_free(a),
        nl_free(b),
    ensures
        nl_free(a + b),
{
    assert forall|i: int| 0 <= i < (a + b).len() implies (a + b)[i] != '\n' by {
        if i < a.len() {
            assert((a + b)[i] == a[i]);
        } else {
            assert((a + b)[i] == b[i - a.len()]);
        }
    }
}

proof fn lemma_esc_char_nl_free(c: char)
    ensures
        nl_free(esc_char(c)),
{
}

proof fn lemma_esc_str_nl_free(s: Seq<char>)
    ensures
        nl_free(esc_str(s)),
    decreases s.len(),
{
    if s.len() != 0 {
        lemma_esc_char_nl_free(s[0]);
        lemma_esc_str_nl_free(s.skip(1));
        lemma_nl_free_app(esc_char(s[0]), esc_str(s.skip(1)));
    }
}

proof fn lemma_quoted_nl_free(s: Seq<char>)
    ensures
        nl_free(quoted(s)),
{
    lemma_esc_str_nl_free(s);
    lemma_nl_free_app(seq!['"'], esc_str(s));
    lemma_nl_free_app(seq!['"'] + esc_str(s), seq!['"']);
}

proof fn lemma_dec_digits_nl_free(n: nat)
    ensures
        nl_free(dec_digits(n)),
    decreases n,
{
    if n >= 10 {
        lemma_dec_digits_nl_free(n / 10);
        lemma_nl_free_app(dec_digits(n / 10), seq![digit_char(n % 10)]);
        assert(dec_digits(n) =~= dec_digits(n / 10) + seq![digit_char(n % 10)]);
    }
}

proof fn lemma_padded_nl_free(n: nat, w: nat)
    ensures
        nl_free(padded(n, w)),
    decreases w,
{
    if w != 0 {
        lemma_padded_nl_free(n / 10, (w - 1) as nat);
        lemma_nl_free_app(padded(n / 10, (w - 1) as nat), seq![digit_char(n % 10)]);
        assert(padded(n, w) =~= padded(n / 10, (w - 1) as nat) + seq![digit_char(n % 10)]);
    }
}

proof fn lemma_enc_ts_nl_free(t: Timestamp)
    ensures
        nl_free(enc_ts(t)),
{
    lemma_padded_nl_free(t.year as nat, 4);
    lemma_padded_nl_free(t.month as nat, 2);
    lemma_padded_nl_free(t.day as nat, 2);
    lemma_padded_nl_free(t.hour as nat, 2);
    lemma_padded_nl_free(t.minute as nat, 2);
    lemma_padded_nl_free(t.second as nat, 2);
    assert forall|i: int| 0 <= i < enc_ts(t).len() implies enc_ts(t)[i] != '\n' by {}
}

proof fn lemma_lits_nl_free()
    ensures
        nl_free("{\"timestamp\":\""@),
        nl_free("\",\"channel_id\":"@),
        nl_free(",\"moderator_id\":"@),
        nl_free(",\"moderator_name\":"@),
        nl_free(",\"moderator_discrim\":"@),
        nl_free(",\"action\":"@),
        nl_free("}"@),
        nl_free("{\"DeleteMessage\":"@),
        nl_free("{\"DeleteHour\":["@),
        nl_free("{\"Reason\":"@),
        nl_free("{\"id\":"@),
        nl_free(",\"content\":"@),
        nl_free(",\"attachments\":["@),
        nl_free("]}"@),
{
    reveal_strlit("{\"timestamp\":\"");
    reveal_strlit("\",\"channel_id\":");
    reveal_strlit(",\"moderator_id\":");
    reveal_strlit(",\"moderator_name\":");
    reveal_strlit(",\"moderator_discrim\":");
    reveal_strlit(",\"action\":");
    reveal_strlit("}");
    reveal_strlit("{\"DeleteMessage\":");
    reveal_strlit("{\"DeleteHour\":[");
    reveal_strlit("{\"Reason\":");
    reveal_strlit("{\"id\":");
    reveal_strlit(",\"content\":");
    reveal_strlit(",\"attachments\":[");
    reveal_strlit("]}");
}

proof fn lemma_enc_att_items_nl_free(a: Seq<Seq<char>>)
    ensures
        nl_free(enc_att_items(a)),
    decreases a.len(),
{
    if a.len() == 1 {
        lemma_quoted_nl_free(a[0]);
    } else if a.len() > 1 {
        lemma_quoted_nl_free(a[0]);
        lemma_enc_att_items_nl_free(a.skip(1));
        lemma_nl_free_app(quoted(a[0]), seq![',']);
        lemma_nl_free_app(quoted(a[0]) + seq![','], enc_att_items(a.skip(1)));
    }
}

proof fn lemma_enc_msg_nl_free(m: MessageV)
    ensures
        nl_free(enc_msg(m)),
{
    lemma_lits_nl_free();
    lemma_dec_digits_nl_free(m.id as nat);
    lemma_quoted_nl_free(m.content);
    lemma_enc_att_items_nl_free(m.attachments);
    lemma_nl_free_app("{\"id\":"@, dec_digits(m.id as nat));
    lemma_nl_free_app("{\"id\":"@ + dec_digits(m.id as nat), ",\"content\":"@);
    lemma_nl_free_app(
        "{\"id\":"@ + dec_digits(m.id as nat) + ",\"content\":"@,
        quoted(m.content),
    );
    lemma_nl_free_app(
        "{\"id\":"@ + dec_digits(m.id as nat) + ",\"content\":"@ + quoted(m.content),
        ",\"attachments\":["@,
    );
    lemma_nl_free_app(
        "{\"id\":"@ + dec_digits(m.id as nat) + ",\"content\":"@ + quoted(m.content)
            + ",\"attachments\":["@,
        enc_att_items(m.attachments),
    );
    lemma_nl_free_app(
        "{\"id\":"@ + dec_digits(m.id as nat) + ",\"content\":"@ + quoted(m.content)
            + ",\"attachments\":["@ + enc_att_items(m.attachments),
        "]}"@,
    );
}

proof fn lemma_enc_msg_items_nl_free(ms: Seq<MessageV>)
    ensures
        nl_free(enc_msg_items(ms)),
    decreases ms.len(),
{
    if ms.len() == 1 {
        lemma_enc_msg_nl_free(ms[0]);
    } else if ms.len() > 1 {
        lemma_enc_msg_nl_free(ms[0]);
        lemma_enc_msg_items_nl_free(ms.skip(1));
        lemma_nl_free_app(enc_msg(ms[0]), seq![',']);
        lemma_nl_free_app(enc_msg(ms[0]) + seq![','], enc_msg_items(ms.skip(1)));
    }
}

proof fn lemma_enc_action_nl_free(a: ActionV)
    ensures
        nl_free(enc_action(a)),
{
    lemma_lits_nl_free();
    match a {
        ActionV::DeleteMessage(m) => {
            lemma_enc_msg_nl_free(m);
            lemma_nl_free_app("{\"DeleteMessage\":"@, enc_msg(m));
            lemma_nl_free_app("{\"DeleteMessage\":"@ + enc_msg(m), "}"@);
        },
        ActionV::DeleteHour(ms) => {
            lemma_enc_msg_items_nl_free(ms);
            lemma_nl_free_app("{\"DeleteHour\":["@, enc_msg_items(ms));
            lemma_nl_free_app("{\"DeleteHour\":["@ + enc_msg_items(ms), "]}"@);
        },
        ActionV::Reason(s) => {
            lemma_quoted_nl_free(s);
            lemma_nl_free_app("{\"Reason\":"@, quoted(s));
            lemma_nl_free_app("{\"Reason\":"@ + quoted(s), "}"@);
        },
    }
}

/// The encoded entry contains no newline: the `\n` that `enc_line`
/// appends is the only one on the line.
pub proof fn lemma_enc_entry_nl_free(e: EntryV)
    ensures
        nl_free(enc_entry(e)),
{
    lemma_lits_nl_free();
    lemma_enc_ts_nl_free(e.timestamp);
    lemma_dec_digits_nl_free(e.channel_id as nat);
    lemma_dec_digits_nl_free(e.moderator_id as nat);
    lemma_quoted_nl_free(e.moderator_name);
    lemma_dec_digits_nl_free(e.moderator_discrim as nat);
    lemma_enc_action_nl_free(e.action);
    let p1 = "{\"timestamp\":\""@ + enc_ts(e.timestamp);
    let p2 = p1 + "\",\"channel_id\":"@;
    let p3 = p2 + dec_digits(e.channel_id as nat);
    let p4 = p3 + ",\"moderator_id\":"@;
    let p5 = p4 + dec_digits(e.moderator_id as nat);
    let p6 = p5 + ",\"moderator_name\":"@;
    let p7 = p6 + quoted(e.moderator_name);
    let p8 = p7 + ",\"moderator_discrim\":"@;
    let p9 = p8 + dec_digits(e.moderator_discrim as nat);
    let p10 = p9 + ",\"action\":"@;
    let p11 = p10 + enc_action(e.action);
    lemma_nl_free_app("{\"timestamp\":\""@, enc_ts(e.timestamp));
    lemma_nl_free_app(p1, "\",\"channel_id\":"@);
    lemma_nl_free_app(p2, dec_digits(e.channel_id as nat));
    lemma_nl_free_app(p3, ",\"moderator_id\":"@);
    lemma_nl_free_app(p4, dec_digits(e.moderator_id as nat));
    lemma_nl_free_app(p5, ",\"moderator_name\":"@);
    lemma_nl_free_app(p6, quoted(e.moderator_name));
    lemma_nl_free_app(p7, ",\"moderator_discrim\":"@);
    lemma_nl_free_app(p8, dec_digits(e.moderator_discrim as nat));
    lemma_nl_free_app(p9, ",\"action\":"@);
    lemma_nl_free_app(p10, enc_action(e.action));
    assert(enc_entry(e) == p11 + "}"@);
    lemma_nl_free_app(p11, "}"@);
}

} // verus!
