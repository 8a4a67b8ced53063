//! The decoder: a strict recursive-descent parser for the canonical line
//! format of `crate::wire`.
//!
//! The parser is defined twice: once as spec functions over `Seq<char>`
//! (the `sp_*` family, the mathematical parser), and once as executable
//! functions that are proved to return exactly what the spec parser
//! returns.  The laws relating the parser to the encoder — a canonical
//! line parses back to the entry it encodes, and anything the parser
//! accepts is a canonical line — are proved about the spec parser by
//! induction.

use vstd::prelude::*;
use vstd::string::StrSliceExecFns;

use crate::ext::chars_to_string;
use crate::model::{
    ActionV, DecodeError, EntryV, MessageV, ModLogAction, ModLogEntry, ModLogMessage,
};
use crate::wire::{ctrl_char, digit_val, is_digit, is_lhex, lhex_val};
use crate::Timestamp;

verus! {

pub open spec fn u64_max() -> nat {
    0xffff_ffff_ffff_ffff as nat
}

// ---------------------------------------------------------------------
// The spec parser
// ---------------------------------------------------------------------
/// Expect the fixed text `lit` at `i`.
pub open spec fn sp_lit(t: Seq<char>, i: int, lit: Seq<char>) -> Option<int> {
    if 0 <= i && i + lit.len() <= t.len() && t.subrange(i, i + lit.len() as int) == lit {
        Some(i + lit.len() as int)
    } else {
        None
    }
}

/// Expect the single character `c` at `i`.
pub open spec fn sp_char(t: Seq<char>, i: int, c: char) -> Option<int> {
    if 0 <= i < t.len() && t[i] == c {
        Some(i + 1)
    } else {
        None
    }
}

/// Continue a decimal number whose digits so far have value `acc`.
/// Stops at the first non-digit (or the end); fails on overflow.
pub open spec fn sp_dec_rest(t: Seq<char>, i: int, acc: nat) -> Option<(nat, int)>
    decreases t.len() - i,
{
    if !(0 <= i < t.len()) {
        Some((acc, if i < 0 { i } else { t.len() as int }))
    } else if !is_digit(t[i]) {
        Some((acc, i))
    } else {
        let acc2 = acc * 10 + digit_val(t[i]);
        if acc2 > u64_max() {
            None
        } else {
            sp_dec_rest(t, i + 1, acc2)
        }
    }
}

/// A decimal number that fits in 64 bits, no leading zeros.
pub open spec fn sp_u64(t: Seq<char>, i: int) -> Option<(nat, int)> {
    if 0 <= i < t.len() && is_digit(t[i]) {
        if t[i] == '0' {
            if i + 1 < t.len() && is_digit(t[i + 1]) {
                None
            } else {
                Some((0, i + 1))
            }
        } else {
            sp_dec_rest(t, i, 0)
        }
    } else {
        None
    }
}

/// Exactly `w` digits, zero-padding allowed, accumulated onto `acc`.
pub open spec fn sp_fixed(t: Seq<char>, i: int, w: nat, acc: nat) -> Option<(nat, int)>
    decreases w,
{
    if w == 0 {
        Some((acc, i))
    } else if 0 <= i < t.len() && is_digit(t[i]) {
        sp_fixed(t, i + 1, (w - 1) as nat, acc * 10 + digit_val(t[i]))
    } else {
        None
    }
}

/// The body of a JSON string, starting after the opening quote and
/// consuming the closing quote.  Accepts exactly the escapes the
/// encoder emits.
pub open spec fn sp_string(t: Seq<char>, i: int) -> Option<(Seq<char>, int)>
    decreases t.len() - i,
{
    if !(0 <= i < t.len()) {
        None
    } else if t[i] == '"' {
        Some((Seq::empty(), i + 1))
    } else if t[i] == '\\' {
        if i + 1 < t.len() {
            let e = t[i + 1];
            if e == '"' || e == '\\' || e == 'n' || e == 'r' || e == 't' {
                let c = if e == '"' { '"' } else if e == '\\' { '\\' } else if e == 'n' { '\n' }
                    else if e == 'r' { '\r' } else { '\t' };
                match sp_string(t, i + 2) {
                    Some((s, j)) => Some((seq![c] + s, j)),
                    None => None,
                }
            } else if e == 'u' {
                if i + 6 <= t.len() && t[i + 2] == '0' && t[i + 3] == '0' && is_lhex(t[i + 4])
                    && is_lhex(t[i + 5]) {
                    let v = lhex_val(t[i + 4]) * 16 + lhex_val(t[i + 5]);
                    if v < 32 && v != 9 && v != 10 && v != 13 {
                        match sp_string(t, i + 6) {
                            Some((s, j)) => Some((seq![ctrl_char(v)] + s, j)),
                            None => None,
                        }
                    } else {
                        None
                    }
                } else {
                    None
                }
            } else {
                None
            }
        } else {
            None
        }
    } else if (t[i] as u32) < 32 {
        None
    } else {
        match sp_string(t, i + 1) {
            Some((s, j)) => Some((seq![t[i]] + s, j)),
            None => None,
        }
    }
}

pub proof fn lemma_sp_string_advance(t: Seq<char>, i: int)
    requires
        sp_string(t, i) is Some,
    ensures
        i < sp_string(t, i)->Some_0.1 <= t.len(),
    decreases t.len() - i,
{
    if t[i] == '"' {
    } else if t[i] == '\\' {
        let e = t[i + 1];
        if e == '"' || e == '\\' || e == 'n' || e == 'r' || e == 't' {
            lemma_sp_string_advance(t, i + 2);
        } else {
            lemma_sp_string_advance(t, i + 6);
        }
    } else {
        lemma_sp_string_advance(t, i + 1);
    }
}

/// `YYYY-MM-DDThh:mm:ssZ`, with every field in range.
pub open spec fn sp_ts(t: Seq<char>, i: int) -> Option<(Timestamp, int)> {
    match sp_fixed(t, i, 4, 0) {
        Some((y, i1)) => match sp_char(t, i1, '-') {
            Some(i2) => match sp_fixed(t, i2, 2, 0) {
                Some((mo, i3)) => match sp_char(t, i3, '-') {
                    Some(i4) => match sp_fixed(t, i4, 2, 0) {
                        Some((d, i5)) => match sp_char(t, i5, 'T') {
                            Some(i6) => match sp_fixed(t, i6, 2, 0) {
                                Some((h, i7)) => match sp_char(t, i7, ':') {
                                    Some(i8) => match sp_fixed(t, i8, 2, 0) {
                                        Some((mi, i9)) => match sp_char(t, i9, ':') {
                                            Some(i10) => match sp_fixed(t, i10, 2, 0) {
                                                Some((s, i11)) => match sp_char(t, i11, 'Z') {
                                                    Some(i12) => {
                                                        let ts = Timestamp {
                                                            year: y as u16,
                                                            month: mo as u8,
                                                            day: d as u8,
                                                            hour: h as u8,
                                                            minute: mi as u8,
                                                            second: s as u8,
                                                        };
                                                        if ts.wf() {
                                                            Some((ts, i12))
                                                        } else {
                                                            None
                                                        }
                                                    },
                                                    None => None,
                                                },
                                                None => None,
                                            },
                                            None => None,
                                        },
                                        None => None,
                                    },
                                    None => None,
                                },
                                None => None,
                            },
                            None => None,
                        },
                        None => None,
                    },
                    None => None,
                },
                None => None,
            },
            None => None,
        },
        None => None,
    }
}

/// One message object.
pub open spec fn sp_msg(t: Seq<char>, i: int) -> Option<(MessageV, int)> {
    match sp_lit(t, i, "{\"id\":"@) {
        Some(i1) => match sp_u64(t, i1) {
            Some((id, i2)) => match sp_lit(t, i2, ",\"content\":\""@) {
                Some(i3) => match sp_string(t, i3) {
                    Some((content, i4)) => match sp_lit(t, i4, ",\"attachments\":["@) {
                        Some(i5) => match sp_att_items(t, i5) {
                            Some((atts, i6)) => match sp_char(t, i6, '}') {
                                Some(i7) => Some(
                                    (MessageV { id: id as u64, content, attachments: atts }, i7),
                                ),
                                None => None,
                            },
                            None => None,
                        },
                        None => None,
                    },
                    None => None,
                },
                None => None,
            },
            None => None,
        },
        None => None,
    }
}

/// The attachment list body: quoted strings separated by commas, then
/// the closing `]` (consumed).
pub open spec fn sp_att_items(t: Seq<char>, i: int) -> Option<(Seq<Seq<char>>, int)> {
    if 0 <= i < t.len() && t[i] == ']' {
        Some((Seq::empty(), i + 1))
    } else {
        sp_att_more(t, i)
    }
}

pub open spec fn sp_att_more(t: Seq<char>, i: int) -> Option<(Seq<Seq<char>>, int)>
    decreases t.len() - i,
    via sp_att_more_dec
{
    if 0 <= i < t.len() && t[i] == '"' {
        match sp_string(t, i + 1) {
            Some((s, j)) => {
                if 0 <= j < t.len() && t[j] == ']' {
                    Some((seq![s], j + 1))
                } else if 0 <= j < t.len() && t[j] == ',' {
                    match sp_att_more(t, j + 1) {
                        Some((rest, k)) => Some((seq![s] + rest, k)),
                        None => None,
                    }
                } else {
                    None
                }
            },
            None => None,
        }
    } else {
        None
    }
}

#[via_fn]
proof fn sp_att_more_dec(t: Seq<char>, i: int) {
    if 0 <= i < t.len() && t[i] == '"' {
        if sp_string(t, i + 1) is Some {
            lemma_sp_string_advance(t, i + 1);
        }
    }
}

pub proof fn lemma_sp_dec_rest_advance(t: Seq<char>, i: int, acc: nat)
    requires
        0 <= i <= t.len(),
        sp_dec_rest(t, i, acc) is Some,
    ensures
        i <= sp_dec_rest(t, i, acc)->Some_0.1 <= t.len(),
    decreases t.len() - i,
{
    if 0 <= i < t.len() && is_digit(t[i]) {
        let acc2 = acc * 10 + digit_val(t[i]);
        if acc2 <= u64_max() {
            lemma_sp_dec_rest_advance(t, i + 1, acc2);
        }
    }
}

pub proof fn lemma_sp_u64_advance(t: Seq<char>, i: int)
    requires
        sp_u64(t, i) is Some,
    ensures
        i < sp_u64(t, i)->Some_0.1 <= t.len(),
{
    if t[i] == '0' {
    } else {
        lemma_sp_dec_rest_advance(t, i + 1, digit_val(t[i]));
    }
}

pub proof fn lemma_sp_att_more_advance(t: Seq<char>, i: int)
    requires
        sp_att_more(t, i) is Some,
    ensures
        i < sp_att_more(t, i)->Some_0.1 <= t.len(),
    decreases t.len() - i,
{
    let j = sp_string(t, i + 1)->Some_0.1;
    lemma_sp_string_advance(t, i + 1);
    if 0 <= j < t.len() && t[j] == ']' {
    } else {
        lemma_sp_att_more_advance(t, j + 1);
    }
}

pub proof fn lemma_sp_att_items_advance(t: Seq<char>, i: int)
    requires
        sp_att_items(t, i) is Some,
    ensures
        i < sp_att_items(t, i)->Some_0.1 <= t.len(),
{
    if 0 <= i < t.len() && t[i] == ']' {
    } else {
        lemma_sp_att_more_advance(t, i);
    }
}

pub proof fn lemma_sp_msg_advance(t: Seq<char>, i: int)
    requires
        sp_msg(t, i) is Some,
    ensures
        i < sp_msg(t, i)->Some_0.1 <= t.len(),
{
    let i1 = sp_lit(t, i, "{\"id\":"@)->Some_0;
    let i2 = sp_u64(t, i1)->Some_0.1;
    let i3 = sp_lit(t, i2, ",\"content\":\""@)->Some_0;
    let i4 = sp_string(t, i3)->Some_0.1;
    let i5 = sp_lit(t, i4, ",\"attachments\":["@)->Some_0;
    let i6 = sp_att_items(t, i5)->Some_0.1;
    lemma_sp_u64_advance(t, i1);
    lemma_sp_string_advance(t, i3);
    lemma_sp_att_items_advance(t, i5);
}

/// The `DeleteHour` list body: message objects separated by commas,
/// then the closing `]` (consumed).
pub open spec fn sp_msg_items(t: Seq<char>, i: int) -> Option<(Seq<MessageV>, int)> {
    if 0 <= i < t.len() && t[i] == ']' {
        Some((Seq::empty(), i + 1))
    } else {
        sp_msg_more(t, i)
    }
}

pub open spec fn sp_msg_more(t: Seq<char>, i: int) -> Option<(Seq<MessageV>, int)>
    decreases t.len() - i,
    via sp_msg_more_dec
{
    match sp_msg(t, i) {
        Some((m, j)) => {
            if 0 <= j < t.len() && t[j] == ']' {
                Some((seq![m], j + 1))
            } else if 0 <= j < t.len() && t[j] == ',' {
                match sp_msg_more(t, j + 1) {
                    Some((rest, k)) => Some((seq![m] + rest, k)),
                    None => None,
                }
            } else {
                None
            }
        },
        None => None,
    }
}

#[via_fn]
proof fn sp_msg_more_dec(t: Seq<char>, i: int) {
    if sp_msg(t, i) is Some {
        lemma_sp_msg_advance(t, i);
    }
}

pub proof fn lemma_sp_msg_more_advance(t: Seq<char>, i: int)
    requires
        sp_msg_more(t, i) is Some,
    ensures
        i < sp_msg_more(t, i)->Some_0.1 <= t.len(),
    decreases t.len() - i,
{
    let j = sp_msg(t, i)->Some_0.1;
    lemma_sp_msg_advance(t, i);
    if 0 <= j < t.len() && t[j] == ']' {
    } else {
        lemma_sp_msg_more_advance(t, j + 1);
    }
}

/// The action object, dispatching on the variant tag.
pub open spec fn sp_action(t: Seq<char>, i: int) -> Option<(ActionV, int)> {
    match sp_lit(t, i, "{\"DeleteMessage\":"@) {
        Some(i1) => match sp_msg(t, i1) {
            Some((m, j)) => match sp_char(t, j, '}') {
                Some(k) => Some((ActionV::DeleteMessage(m), k)),
                None => None,
            },
            None => None,
        },
        None => match sp_lit(t, i, "{\"DeleteHour\":["@) {
            Some(i1) => match sp_msg_items(t, i1) {
                Some((ms, j)) => match sp_char(t, j, '}') {
                    Some(k) => Some((ActionV::DeleteHour(ms), k)),
                    None => None,
                },
                None => None,
            },
            None => match sp_lit(t, i, "{\"Reason\":\""@) {
                Some(i1) => match sp_string(t, i1) {
                    Some((s, j)) => match sp_char(t, j, '}') {
                        Some(k) => Some((ActionV::Reason(s), k)),
                        None => None,
                    },
                    None => None,
                },
                None => None,
            },
        },
    }
}

/// A whole line body (without the `\n`): the parse succeeds only if it
/// consumes every character of `t`.
pub open spec fn sp_entry(t: Seq<char>) -> Option<EntryV> {
    match sp_lit(t, 0, "{\"timestamp\":\""@) {
        Some(i1) => match sp_ts(t, i1) {
            Some((ts, i2)) => match sp_lit(t, i2, "\",\"channel_id\":"@) {
                Some(i3) => match sp_u64(t, i3) {
                    Some((ch, i4)) => match sp_lit(t, i4, ",\"moderator_id\":"@) {
                        Some(i5) => match sp_u64(t, i5) {
                            Some((mid, i6)) => match sp_lit(t, i6, ",\"moderator_name\":\""@) {
                                Some(i7) => match sp_string(t, i7) {
                                    Some((name, i8)) => match sp_lit(
                                        t,
                                        i8,
                                        ",\"moderator_discrim\":"@,
                                    ) {
                                        Some(i9) => match sp_u64(t, i9) {
                                            Some((disc, i10)) => if disc <= 0xffff {
                                                match sp_lit(t, i10, ",\"action\":"@) {
                                                    Some(i11) => match sp_action(t, i11) {
                                                        Some((act, i12)) => match sp_char(
                                                            t,
                                                            i12,
                                                            '}',
                                                        ) {
                                                            Some(k) => if k == t.len() {
                                                                Some(
                                                                    EntryV {
                                                                        timestamp: ts,
                                                                        channel_id: ch as u64,
                                                                        moderator_id: mid as u64,
                                                                        moderator_name: name,
                                                                        moderator_discrim: disc as u16,
                                                                        action: act,
                                                                    },
                                                                )
                                                            } else {
                                                                None
                                                            },
                                                            None => None,
                                                        },
                                                        None => None,
                                                    },
                                                    None => None,
                                                }
                                            } else {
                                                None
                                            },
                                            None => None,
                                        },
                                        None => None,
                                    },
                                    None => None,
                                },
                                None => None,
                            },
                            None => None,
                        },
                        None => None,
                    },
                    None => None,
                },
                None => None,
            },
            None => None,
        },
        None => None,
    }
}

// ---------------------------------------------------------------------
// The executable parser: each function returns exactly what the
// corresponding spec parser returns.
// ---------------------------------------------------------------------
/// The views of a list of strings.
pub open spec fn strs_v(a: Seq<String>) -> Seq<Seq<char>> {
    Seq::new(a.len(), |k: int| a[k]@)
}

/// The views of a list of messages.
pub open spec fn msgs_v(ms: Seq<ModLogMessage>) -> Seq<MessageV> {
    Seq::new(ms.len(), |k: int| ms[k]@)
}

fn x_is_digit(c: char) -> (r: bool)
    ensures
        r == is_digit(c),
{
    let u = c as u32;
    48 <= u && u <= 57
}

fn x_is_lhex(c: char) -> (r: bool)
    ensures
        r == is_lhex(c),
{
    let u = c as u32;
    (48 <= u && u <= 57) || (97 <= u && u <= 102)
}

fn x_lhex_val(c: char) -> (r: u32)
    requires
        is_lhex(c),
    ensures
        r == lhex_val(c),
        r < 16,
{
    let u = c as u32;
    if u <= 57 {
        u - 48
    } else {
        u - 87
    }
}

fn x_ctrl_char(u: u32) -> (c: char)
    requires
        u < 32,
    ensures
        c == ctrl_char(u as nat),
{
    if u == 0 { '\u{0}' } else if u == 1 { '\u{1}' } else if u == 2 { '\u{2}' }
    else if u == 3 { '\u{3}' } else if u == 4 { '\u{4}' } else if u == 5 { '\u{5}' }
    else if u == 6 { '\u{6}' } else if u == 7 { '\u{7}' } else if u == 8 { '\u{8}' }
    else if u == 9 { '\u{9}' } else if u == 10 { '\u{a}' } else if u == 11 { '\u{b}' }
    else if u == 12 { '\u{c}' } else if u == 13 { '\u{d}' } else if u == 14 { '\u{e}' }
    else if u == 15 { '\u{f}' } else if u == 16 { '\u{10}' } else if u == 17 { '\u{11}' }
    else if u == 18 { '\u{12}' } else if u == 19 { '\u{13}' } else if u == 20 { '\u{14}' }
    else if u == 21 { '\u{15}' } else if u == 22 { '\u{16}' } else if u == 23 { '\u{17}' }
    else if u == 24 { '\u{18}' } else if u == 25 { '\u{19}' } else if u == 26 { '\u{1a}' }
    else if u == 27 { '\u{1b}' } else if u == 28 { '\u{1c}' } else if u == 29 { '\u{1d}' }
    else if u == 30 { '\u{1e}' } else { '\u{1f}' }
}

fn p_lit(v: &Vec<char>, i: usize, lit: &str) -> (r: Option<usize>)
    ensures
        match r {
            Some(j) => sp_lit(v@, i as int, lit@) == Some(j as int) && i <= j <= v@.len(),
            None => sp_lit(v@, i as int, lit@) is None,
        },
{
    let n = lit.unicode_len();
    if i > v.len() || n > v.len() - i {
        return None;
    }
    let vn = v.len();
    let mut k: usize = 0;
    while k < n
        invariant
            n == lit@.len(),
            vn == v@.len(),
            i + n <= v@.len(),
            k <= n,
            forall|q: int| 0 <= q < k ==> v@[i + q] == lit@[q],
        decreases n - k,
    {
        if v[i + k] != lit.get_char(k) {
            proof {
                assert(v@.subrange(i as int, i + lit@.len())[k as int] == v@[i + k]);
            }
            return None;
        }
        k = k + 1;
    }
    proof {
        assert(v@.subrange(i as int, i + lit@.len()) =~= lit@);
    }
    Some(i + n)
}

fn p_char(v: &Vec<char>, i: usize, c: char) -> (r: Option<usize>)
    ensures
        match r {
            Some(j) => sp_char(v@, i as int, c) == Some(j as int) && j == i + 1 && j <= v@.len(),
            None => sp_char(v@, i as int, c) is None,
        },
{
    if i < v.len() && v[i] == c {
        Some(i + 1)
    } else {
        None
    }
}

fn p_u64(v: &Vec<char>, i: usize) -> (r: Option<(u64, usize)>)
    ensures
        match r {
            Some((x, j)) => sp_u64(v@, i as int) == Some((x as nat, j as int)) && i < j <= v@.len(),
            None => sp_u64(v@, i as int) is None,
        },
{
    if i >= v.len() || !x_is_digit(v[i]) {
        return None;
    }
    if v[i] == '0' {
        if i + 1 < v.len() && x_is_digit(v[i + 1]) {
            return None;
        }
        return Some((0, i + 1));
    }
    let mut acc: u64 = 0;
    let mut j: usize = i;
    loop
        invariant
            i <= j <= v@.len(),
            i < v@.len(),
            is_digit(v@[i as int]),
            v@[i as int] != '0',
            sp_u64(v@, i as int) == sp_dec_rest(v@, j as int, acc as nat),
        decreases v@.len() - j,
    {
        if j >= v.len() {
            return Some((acc, j));
        }
        let c = v[j];
        if !x_is_digit(c) {
            return Some((acc, j));
        }
        let d = (c as u32 - 48) as u64;
        proof {
            assert(d == digit_val(c));
            assert(d <= 9);
        }
        if acc > 1844674407370955161 || (acc == 1844674407370955161 && d > 5) {
            proof {
                assert(acc as nat * 10 + d as nat > u64_max());
            }
            return None;
        }
        proof {
            assert(acc as nat * 10 + d as nat <= u64_max());
        }
        acc = acc * 10 + d;
        j = j + 1;
    }
}

fn p_fixed(v: &Vec<char>, i: usize, w: usize) -> (r: Option<(u64, usize)>)
    requires
        1 <= w <= 4,
    ensures
        match r {
            Some((x, j)) => sp_fixed(v@, i as int, w as nat, 0) == Some((x as nat, j as int)) && x
                < 10000 && i <= j <= v@.len(),
            None => sp_fixed(v@, i as int, w as nat, 0) is None,
        },
{
    let mut acc: u64 = 0;
    let mut j: usize = i;
    let mut left: usize = w;
    while left > 0
        invariant
            i <= j,
            j <= v@.len() || j == i,
            left <= w <= 4,
            acc < 10000,
            sp_fixed(v@, i as int, w as nat, 0) == sp_fixed(v@, j as int, left as nat, acc as nat),
            left < w ==> j <= v@.len(),
            (acc as nat) < pow10_small((w - left) as nat),
        decreases left,
    {
        if j >= v.len() || !x_is_digit(v[j]) {
            return None;
        }
        let c = v[j];
        let d = (c as u32 - 48) as u64;
        proof {
            assert(d == digit_val(c));
            assert(d <= 9);
            reveal_with_fuel(pow10_small, 6);
        }
        acc = acc * 10 + d;
        j = j + 1;
        left = left - 1;
    }
    proof {
        reveal_with_fuel(pow10_small, 6);
        assert(pow10_small(w as nat) <= 10000);
    }
    Some((acc, j))
}

/// `10^w` for the small fixed widths of the timestamp.
pub open spec fn pow10_small(w: nat) -> nat
    decreases w,
{
    if w == 0 { 1 } else { 10 * pow10_small((w - 1) as nat) }
}

fn p_string(v: &Vec<char>, i: usize) -> (r: Option<(String, usize)>)
    ensures
        match r {
            Some((s, j)) => sp_string(v@, i as int) == Some((s@, j as int)) && i < j <= v@.len(),
            None => sp_string(v@, i as int) is None,
        },
{
    let vn = v.len();
    let mut acc: Vec<char> = Vec::new();
    let mut j: usize = i;
    proof {
        match sp_string(v@, i as int) {
            Some((s2, k2)) => {
                assert(acc@ + s2 =~= s2);
                lemma_sp_string_advance(v@, i as int);
            },
            None => {},
        }
    }
    loop
        invariant
            vn == v@.len(),
            i <= j,
            match sp_string(v@, j as int) {
                Some((s2, k2)) => sp_string(v@, i as int) == Some((acc@ + s2, k2)) && j < k2
                    <= v@.len(),
                None => sp_string(v@, i as int) is None,
            },
        decreases v@.len() - j,
    {
        if j >= vn {
            return None;
        }
        let c = v[j];
        if c == '"' {
            proof {
                assert(sp_string(v@, j as int) == Some((Seq::<char>::empty(), j + 1)));
                assert(acc@ + Seq::<char>::empty() =~= acc@);
            }
            let s = chars_to_string(&acc);
            return Some((s, j + 1));
        }
        let ghost jold = j as int;
        let ghost accold = acc@;
        if c == '\\' {
            if j + 1 >= vn {
                return None;
            }
            let e = v[j + 1];
            if e == '"' || e == '\\' || e == 'n' || e == 'r' || e == 't' {
                let d = if e == '"' { '"' } else if e == '\\' { '\\' } else if e == 'n' { '\n' }
                    else if e == 'r' { '\r' } else { '\t' };
                acc.push(d);
                j = j + 2;
                proof {
                    lemma_p_string_step(v@, i as int, jold, accold, d, jold + 2);
                    if sp_string(v@, j as int) is Some {
                        lemma_sp_string_advance(v@, j as int);
                    }
                }
            } else if e == 'u' {
                if vn - j <= 5 || v[j + 2] != '0' || v[j + 3] != '0' || !x_is_lhex(v[j + 4])
                    || !x_is_lhex(v[j + 5]) {
                    return None;
                }
                let u = x_lhex_val(v[j + 4]) * 16 + x_lhex_val(v[j + 5]);
                if !(u < 32) || u == 9 || u == 10 || u == 13 {
                    return None;
                }
                let d = x_ctrl_char(u);
                acc.push(d);
                j = j + 6;
                proof {
                    lemma_p_string_step(v@, i as int, jold, accold, d, jold + 6);
                    if sp_string(v@, j as int) is Some {
                        lemma_sp_string_advance(v@, j as int);
                    }
                }
            } else {
                return None;
            }
        } else {
            let u = c as u32;
            if u < 32 {
                return None;
            }
            acc.push(c);
            j = j + 1;
            proof {
                lemma_p_string_step(v@, i as int, jold, accold, c, jold + 1);
                if sp_string(v@, j as int) is Some {
                    lemma_sp_string_advance(v@, j as int);
                }
            }
        }
    }
}

/// One step of the string loop: if the spec parser at `jold` conses `d`
/// and continues at `jnew`, the loop invariant carries over.
proof fn lemma_p_string_step(t: Seq<char>, i: int, jold: int, accold: Seq<char>, d: char, jnew: int)
    requires
        match sp_string(t, jnew) {
            Some((s2, k2)) => sp_string(t, jold) == Some((seq![d] + s2, k2)),
            None => sp_string(t, jold) is None,
        },
        match sp_string(t, jold) {
            Some((s2, k2)) => sp_string(t, i) == Some((accold + s2, k2)),
            None => sp_string(t, i) is None,
        },
    ensures
        match sp_string(t, jnew) {
            Some((s2, k2)) => sp_string(t, i) == Some((accold.push(d) + s2, k2)),
            None => sp_string(t, i) is None,
        },
{
    match sp_string(t, jnew) {
        Some((s2, k2)) => {
            assert(accold + (seq![d] + s2) =~= accold.push(d) + s2);
        },
        None => {},
    }
}

fn p_att_items(v: &Vec<char>, i: usize) -> (r: Option<(Vec<String>, usize)>)
    ensures
        match r {
            Some((a, j)) => sp_att_items(v@, i as int) == Some((strs_v(a@), j as int)) && i < j
                <= v@.len(),
            None => sp_att_items(v@, i as int) is None,
        },
{
    let vn = v.len();
    if i < vn && v[i] == ']' {
        let a: Vec<String> = Vec::new();
        proof {
            assert(strs_v(a@) =~= Seq::<Seq<char>>::empty());
        }
        return Some((a, i + 1));
    }
    let mut acc: Vec<String> = Vec::new();
    let mut j: usize = i;
    proof {
        match sp_att_more(v@, i as int) {
            Some((rest, k2)) => {
                assert(strs_v(acc@) + rest =~= rest);
                lemma_sp_att_more_advance(v@, i as int);
            },
            None => {},
        }
    }
    loop
        invariant
            vn == v@.len(),
            i <= j,
            match sp_att_more(v@, j as int) {
                Some((rest, k2)) => sp_att_items(v@, i as int) == Some(
                    (strs_v(acc@) + rest, k2),
                ) && j < k2 <= v@.len(),
                None => sp_att_items(v@, i as int) is None,
            },
        decreases v@.len() - j,
    {
        if j >= vn || v[j] != '"' {
            return None;
        }
        let ghost jold = j as int;
        let ghost accold = acc@;
        match p_string(v, j + 1) {
            None => {
                return None;
            },
            Some((s, j2)) => {
                proof {
                    if sp_att_more(v@, jold) is Some {
                        lemma_sp_att_more_advance(v@, jold);
                    }
                }
                if j2 < vn && v[j2] == ']' {
                    proof {
                        assert(sp_att_more(v@, jold) == Some((seq![s@], j2 + 1)));
                        assert(strs_v(accold.push(s)) =~= strs_v(accold) + seq![s@]);
                        assert(strs_v(accold) + seq![s@] + Seq::<Seq<char>>::empty() =~= strs_v(
                            accold,
                        ) + seq![s@]);
                    }
                    acc.push(s);
                    return Some((acc, j2 + 1));
                } else if j2 < vn && v[j2] == ',' {
                    acc.push(s);
                    j = j2 + 1;
                    proof {
                        match sp_att_more(v@, j as int) {
                            Some((rest2, k2)) => {
                                assert(sp_att_more(v@, jold) == Some((seq![s@] + rest2, k2)));
                                assert(strs_v(accold) + (seq![s@] + rest2) =~= strs_v(
                                    accold.push(s),
                                ) + rest2);
                                lemma_sp_att_more_advance(v@, j as int);
                            },
                            None => {
                                assert(sp_att_more(v@, jold) is None);
                            },
                        }
                    }
                } else {
                    return None;
                }
            },
        }
    }
}

fn p_msg_items(v: &Vec<char>, i: usize) -> (r: Option<(Vec<ModLogMessage>, usize)>)
    ensures
        match r {
            Some((ms, j)) => sp_msg_items(v@, i as int) == Some((msgs_v(ms@), j as int)) && i < j
                <= v@.len(),
            None => sp_msg_items(v@, i as int) is None,
        },
{
    let vn = v.len();
    if i < vn && v[i] == ']' {
        let ms: Vec<ModLogMessage> = Vec::new();
        proof {
            assert(msgs_v(ms@) =~= Seq::<MessageV>::empty());
        }
        return Some((ms, i + 1));
    }
    let mut acc: Vec<ModLogMessage> = Vec::new();
    let mut j: usize = i;
    proof {
        match sp_msg_more(v@, i as int) {
            Some((rest, k2)) => {
                assert(msgs_v(acc@) + rest =~= rest);
                lemma_sp_msg_more_advance(v@, i as int);
            },
            None => {},
        }
    }
    loop
        invariant
            vn == v@.len(),
            i <= j,
            match sp_msg_more(v@, j as int) {
                Some((rest, k2)) => sp_msg_items(v@, i as int) == Some(
                    (msgs_v(acc@) + rest, k2),
                ) && j < k2 <= v@.len(),
                None => sp_msg_items(v@, i as int) is None,
            },
        decreases v@.len() - j,
    {
        let ghost jold = j as int;
        let ghost accold = acc@;
        match p_msg(v, j) {
            None => {
                return None;
            },
            Some((m, j2)) => {
                if j2 < vn && v[j2] == ']' {
                    proof {
                        assert(sp_msg_more(v@, jold) == Some((seq![m@], j2 + 1)));
                        assert(msgs_v(accold.push(m)) =~= msgs_v(accold) + seq![m@]);
                    }
                    acc.push(m);
                    return Some((acc, j2 + 1));
                } else if j2 < vn && v[j2] == ',' {
                    acc.push(m);
                    j = j2 + 1;
                    proof {
                        match sp_msg_more(v@, j as int) {
                            Some((rest2, k2)) => {
                                assert(sp_msg_more(v@, jold) == Some((seq![m@] + rest2, k2)));
                                assert(msgs_v(accold) + (seq![m@] + rest2) =~= msgs_v(
                                    accold.push(m),
                                ) + rest2);
                                lemma_sp_msg_more_advance(v@, j as int);
                            },
                            None => {
                                assert(sp_msg_more(v@, jold) is None);
                            },
                        }
                    }
                } else {
                    return None;
                }
            },
        }
    }
}

fn p_ts(v: &Vec<char>, i: usize) -> (r: Option<(Timestamp, usize)>)
    ensures
        match r {
            Some((ts, j)) => sp_ts(v@, i as int) == Some((ts, j as int)) && i < j <= v@.len(),
            None => sp_ts(v@, i as int) is None,
        },
{
    let (y, i1) = match p_fixed(v, i, 4) { Some(p) => p, None => { return None; } };
    let i2 = match p_char(v, i1, '-') { Some(p) => p, None => { return None; } };
    let (mo, i3) = match p_fixed(v, i2, 2) { Some(p) => p, None => { return None; } };
    let i4 = match p_char(v, i3, '-') { Some(p) => p, None => { return None; } };
    let (d, i5) = match p_fixed(v, i4, 2) { Some(p) => p, None => { return None; } };
    let i6 = match p_char(v, i5, 'T') { Some(p) => p, None => { return None; } };
    let (h, i7) = match p_fixed(v, i6, 2) { Some(p) => p, None => { return None; } };
    let i8 = match p_char(v, i7, ':') { Some(p) => p, None => { return None; } };
    let (mi, i9) = match p_fixed(v, i8, 2) { Some(p) => p, None => { return None; } };
    let i10 = match p_char(v, i9, ':') { Some(p) => p, None => { return None; } };
    let (s, i11) = match p_fixed(v, i10, 2) { Some(p) => p, None => { return None; } };
    let i12 = match p_char(v, i11, 'Z') { Some(p) => p, None => { return None; } };
    let ts = Timestamp {
        year: y as u16,
        month: mo as u8,
        day: d as u8,
        hour: h as u8,
        minute: mi as u8,
        second: s as u8,
    };
    if ts.is_wf() {
        Some((ts, i12))
    } else {
        None
    }
}

fn p_msg(v: &Vec<char>, i: usize) -> (r: Option<(ModLogMessage, usize)>)
    ensures
        match r {
            Some((m, j)) => sp_msg(v@, i as int) == Some((m@, j as int)) && i < j <= v@.len(),
            None => sp_msg(v@, i as int) is None,
        },
{
    let i1 = match p_lit(v, i, "{\"id\":") { Some(p) => p, None => { return None; } };
    let (id, i2) = match p_u64(v, i1) { Some(p) => p, None => { return None; } };
    let i3 = match p_lit(v, i2, ",\"content\":\"") { Some(p) => p, None => { return None; } };
    let (content, i4) = match p_string(v, i3) { Some(p) => p, None => { return None; } };
    let i5 = match p_lit(v, i4, ",\"attachments\":[") { Some(p) => p, None => { return None; } };
    let (atts, i6) = match p_att_items(v, i5) { Some(p) => p, None => { return None; } };
    let i7 = match p_char(v, i6, '}') { Some(p) => p, None => { return None; } };
    let m = ModLogMessage { id, content, attachments: atts };
    proof {
        assert(m@ =~= MessageV { id: id, content: content@, attachments: strs_v(atts@) });
    }
    Some((m, i7))
}

fn p_action(v: &Vec<char>, i: usize) -> (r: Option<(ModLogAction, usize)>)
    ensures
        match r {
            Some((a, j)) => sp_action(v@, i as int) == Some((a@, j as int)) && i < j <= v@.len(),
            None => sp_action(v@, i as int) is None,
        },
{
    match p_lit(v, i, "{\"DeleteMessage\":") {
        Some(i1) => {
            let (m, j) = match p_msg(v, i1) { Some(p) => p, None => { return None; } };
            let k = match p_char(v, j, '}') { Some(p) => p, None => { return None; } };
            let a = ModLogAction::DeleteMessage(m);
            proof {
                assert(a@ =~= ActionV::DeleteMessage(m@));
            }
            Some((a, k))
        },
        None => match p_lit(v, i, "{\"DeleteHour\":[") {
            Some(i1) => {
                let (ms, j) = match p_msg_items(v, i1) { Some(p) => p, None => { return None; } };
                let k = match p_char(v, j, '}') { Some(p) => p, None => { return None; } };
                let a = ModLogAction::DeleteHour(ms);
                proof {
                    assert(a@ =~= ActionV::DeleteHour(msgs_v(ms@)));
                }
                Some((a, k))
            },
            None => match p_lit(v, i, "{\"Reason\":\"") {
                Some(i1) => {
                    let (s, j) = match p_string(v, i1) { Some(p) => p, None => { return None; } };
                    let k = match p_char(v, j, '}') { Some(p) => p, None => { return None; } };
                    let a = ModLogAction::Reason(s);
                    proof {
                        assert(a@ =~= ActionV::Reason(s@));
                    }
                    Some((a, k))
                },
                None => None,
            },
        },
    }
}

fn p_entry(line: &Vec<char>) -> (r: Option<ModLogEntry>)
    ensures
        match r {
            Some(ent) => sp_entry(line@) == Some(ent@),
            None => sp_entry(line@) is None,
        },
{
    let i1 = match p_lit(line, 0, "{\"timestamp\":\"") { Some(p) => p, None => { return None; } };
    let (ts, i2) = match p_ts(line, i1) { Some(p) => p, None => { return None; } };
    let i3 = match p_lit(line, i2, "\",\"channel_id\":") {
        Some(p) => p,
        None => { return None; },
    };
    let (ch, i4) = match p_u64(line, i3) { Some(p) => p, None => { return None; } };
    let i5 = match p_lit(line, i4, ",\"moderator_id\":") {
        Some(p) => p,
        None => { return None; },
    };
    let (mid, i6) = match p_u64(line, i5) { Some(p) => p, None => { return None; } };
    let i7 = match p_lit(line, i6, ",\"moderator_name\":\"") {
        Some(p) => p,
        None => { return None; },
    };
    let (name, i8) = match p_string(line, i7) { Some(p) => p, None => { return None; } };
    let i9 = match p_lit(line, i8, ",\"moderator_discrim\":") {
        Some(p) => p,
        None => { return None; },
    };
    let (disc, i10) = match p_u64(line, i9) { Some(p) => p, None => { return None; } };
    if disc > 0xffff {
        return None;
    }
    let i11 = match p_lit(line, i10, ",\"action\":") { Some(p) => p, None => { return None; } };
    let (act, i12) = match p_action(line, i11) { Some(p) => p, None => { return None; } };
    let k = match p_char(line, i12, '}') { Some(p) => p, None => { return None; } };
    if k != line.len() {
        return None;
    }
    let ent = ModLogEntry {
        timestamp: ts,
        channel_id: ch,
        moderator_id: mid,
        moderator_name: name,
        moderator_discrim: disc as u16,
        action: act,
    };
    proof {
        assert(ent@ =~= EntryV {
            timestamp: ts,
            channel_id: ch,
            moderator_id: mid,
            moderator_name: name@,
            moderator_discrim: disc as u16,
            action: act@,
        });
    }
    Some(ent)
}

/// The position of the first `\n` at or after `p`, or the length of `s`
/// if there is none.
pub open spec fn first_nl(s: Seq<char>, p: int) -> int
    decreases s.len() - p,
{
    if !(0 <= p < s.len()) {
        s.len() as int
    } else if s[p] == '\n' {
        p
    } else {
        first_nl(s, p + 1)
    }
}

/// Collect the characters from `start` up to (not including) the next
/// `\n`, or to the end of `src` if there is none.
fn take_line(src: &str, start: usize, n: usize) -> (r: (Vec<char>, usize))
    requires
        n == src@.len(),
        start < n,
    ensures
        ({
            let (line, j) = r;
            &&& start <= j <= n
            &&& j == first_nl(src@, start as int)
            &&& line@ == src@.subrange(start as int, j as int)
        }),
{
    let mut line: Vec<char> = Vec::new();
    let mut j: usize = start;
    while j < n && src.get_char(j) != '\n'
        invariant
            n == src@.len(),
            start <= j <= n,
            line@ == src@.subrange(start as int, j as int),
            first_nl(src@, start as int) == first_nl(src@, j as int),
        decreases n - j,
    {
        line.push(src.get_char(j));
        j = j + 1;
        proof {
            assert(src@.subrange(start as int, j as int) =~= src@.subrange(
                start as int,
                j - 1,
            ).push(src@[j - 1]));
        }
    }
    proof {
        assert(first_nl(src@, start as int) == j as int);
    }
    (line, j)
}

impl ModLogEntry {
    /// Read one entry from `src`, starting at the character position
    /// `*pos`: take the characters up to the next `\n` (or the end) as
    /// one line, advance `*pos` past the line, and parse the line.  At
    /// the end of the source there is no line to read and the result is
    /// `Ok(None)`; a line that is not a canonical encoded entry leaves
    /// `*pos` unchanged and gives `DecodeError::Serialization`.
    #[verifier::rlimit(100)]
    #[verifier::spinoff_prover]
    pub fn read(src: &str, pos: &mut usize) -> (r: Result<Option<ModLogEntry>, DecodeError>)
        requires
            *old(pos) <= src@.len(),
        ensures
            *old(pos) == src@.len() ==> (r matches Ok(oe) && oe is None) && *final(pos) == *old(
                pos,
            ),
            *old(pos) < src@.len() ==> {
                let nl = first_nl(src@, *old(pos) as int);
                let line = src@.subrange(*old(pos) as int, nl);
                match r {
                    Ok(oe) => oe matches Some(ent) && sp_entry(line) == Some(ent@) && *final(pos)
                        == (if nl < src@.len() { nl + 1 } else { nl }),
                    Err(de) => de is Serialization && sp_entry(line) is None && *final(pos)
                        == *old(pos),
                }
            },
            forall|ev: EntryV|
                #[trigger] crate::laws::line_at(src@, *old(pos) as int, ev) ==> (r matches Ok(oe)
                    && oe matches Some(ent) && ent@ == ev && *final(pos) == *old(pos)
                    + crate::wire::enc_line(ev).len()),
            match r {
                Ok(oe) => match oe {
                    Some(ent) => ent@.wf() && src@.subrange(
                        *old(pos) as int,
                        first_nl(src@, *old(pos) as int),
                    ) == crate::wire::enc_entry(ent@),
                    None => true,
                },
                Err(_) => true,
            },
    {
        let n = src.unicode_len();
        let start = *pos;
        if start == n {
            proof {
                crate::laws::lemma_no_line_at_end(src@, start as int);
            }
            return Ok(None);
        }
        let (line, j) = take_line(src, start, n);
        match p_entry(&line) {
            Some(ent) => {
                let np = if j < n { j + 1 } else { j };
                *pos = np;
                proof {
                    crate::laws::lemma_read_ok(src@, start as int, line@, j as int, ent@);
                    assert(first_nl(src@, start as int) == j as int);
                    assert(src@.subrange(start as int, j as int) == crate::wire::enc_entry(
                        ent@,
                    ));
                }
                Ok(Some(ent))
            },
            None => {
                proof {
                    crate::laws::lemma_read_err(src@, start as int, line@, j as int);
                }
                Err(DecodeError::Serialization)
            },
        }
    }
}

} // verus!
