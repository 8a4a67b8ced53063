//! The encoder: turns a `ModLogEntry` into exactly the line of text that
//! `crate::wire` specifies, one character at a time.

use vstd::prelude::*;
use vstd::string::{StrSliceExecFns, StringExecFns};

use crate::ext::chars_to_string;
use crate::model::{EncodeError, ModLogAction, ModLogEntry, ModLogMessage};
use crate::wire::{
    dec_digits, digit_char, enc_action, enc_att_items, enc_entry, enc_line, enc_msg,
    enc_msg_items, enc_ts, esc_char, esc_str, hex_char, lemma_att_items_snoc, lemma_esc_str_app,
    lemma_msg_items_snoc, padded, quoted,
};
use crate::Timestamp;

verus! {

fn digit_to_char(d: u64) -> (c: char)
    requires
        d < 10,
    ensures
        c == digit_char(d as nat),
{
    if d == 0 { '0' } else if d == 1 { '1' } else if d == 2 { '2' } else if d == 3 { '3' }
    else if d == 4 { '4' } else if d == 5 { '5' } else if d == 6 { '6' } else if d == 7 { '7' }
    else if d == 8 { '8' } else { '9' }
}

fn hex_to_char(d: u32) -> (c: char)
    requires
        d < 16,
    ensures
        c == hex_char(d as nat),
{
    if d < 10 { digit_to_char(d as u64) } else if d == 10 { 'a' } else if d == 11 { 'b' }
    else if d == 12 { 'c' } else if d == 13 { 'd' } else if d == 14 { 'e' } else { 'f' }
}

fn push_lit(out: &mut Vec<char>, lit: &str)
    ensures
        final(out)@ == old(out)@ + lit@,
{
    let n = lit.unicode_len();
    let mut i: usize = 0;
    while i < n
        invariant
            n == lit@.len(),
            i <= n,
            out@ == old(out)@ + lit@.take(i as int),
        decreases n - i,
    {
        out.push(lit.get_char(i));
        proof {
            assert(lit@.take(i + 1) =~= lit@.take(i as int).push(lit@[i as int]));
        }
        i = i + 1;
    }
    proof {
        assert(lit@.take(n as int) =~= lit@);
    }
}

fn push_u64(n: u64, out: &mut Vec<char>)
    ensures
        final(out)@ == old(out)@ + dec_digits(n as nat),
    decreases n,
{
    if n >= 10 {
        push_u64(n / 10, out);
    }
    out.push(digit_to_char(n % 10));
    proof {
        if n >= 10 {
            assert(dec_digits(n as nat) == dec_digits(n as nat / 10).push(
                digit_char(n as nat % 10),
            ));
            assert(n as nat / 10 == (n / 10) as nat);
            assert(old(out)@ + dec_digits((n / 10) as nat).push(digit_char(n as nat % 10))
                =~= (old(out)@ + dec_digits((n / 10) as nat)).push(digit_char(n as nat % 10)));
        } else {
            assert(dec_digits(n as nat) == seq![digit_char(n as nat)]);
            assert(old(out)@ + seq![digit_char(n as nat)] =~= old(out)@.push(
                digit_char(n as nat),
            ));
        }
    }
}

fn push_padded2(n: u8, out: &mut Vec<char>)
    ensures
        final(out)@ == old(out)@ + padded(n as nat, 2),
{
    out.push(digit_to_char(((n / 10) % 10) as u64));
    out.push(digit_to_char((n % 10) as u64));
    proof {
        reveal_with_fuel(padded, 3);
        assert(padded(n as nat, 2) =~= seq![
            digit_char(((n / 10) % 10) as nat),
            digit_char((n % 10) as nat),
        ]);
        assert(old(out)@ + padded(n as nat, 2) =~= old(out)@.push(
            digit_char(((n / 10) % 10) as nat),
        ).push(digit_char((n % 10) as nat)));
    }
}

fn push_padded4(n: u16, out: &mut Vec<char>)
    ensures
        final(out)@ == old(out)@ + padded(n as nat, 4),
{
    out.push(digit_to_char(((n / 1000) % 10) as u64));
    out.push(digit_to_char(((n / 100) % 10) as u64));
    out.push(digit_to_char(((n / 10) % 10) as u64));
    out.push(digit_to_char((n % 10) as u64));
    proof {
        reveal_with_fuel(padded, 5);
        assert(padded(n as nat, 4) =~= seq![
            digit_char(((n / 1000) % 10) as nat),
            digit_char(((n / 100) % 10) as nat),
            digit_char(((n / 10) % 10) as nat),
            digit_char((n % 10) as nat),
        ]);
        assert(old(out)@ + padded(n as nat, 4) =~= old(out)@.push(
            digit_char(((n / 1000) % 10) as nat),
        ).push(digit_char(((n / 100) % 10) as nat)).push(digit_char(((n / 10) % 10) as nat)).push(
            digit_char((n % 10) as nat),
        ));
    }
}

fn push_ts(t: &Timestamp, out: &mut Vec<char>)
    ensures
        final(out)@ == old(out)@ + enc_ts(*t),
{
    push_padded4(t.year, out);
    out.push('-');
    push_padded2(t.month, out);
    out.push('-');
    push_padded2(t.day, out);
    out.push('T');
    push_padded2(t.hour, out);
    out.push(':');
    push_padded2(t.minute, out);
    out.push(':');
    push_padded2(t.second, out);
    out.push('Z');
    proof {
        assert(out@ =~= old(out)@ + enc_ts(*t));
    }
}

fn push_escaped_char(c: char, out: &mut Vec<char>)
    ensures
        final(out)@ == old(out)@ + esc_char(c),
{
    if c == '"' {
        out.push('\\');
        out.push('"');
    } else if c == '\\' {
        out.push('\\');
        out.push('\\');
    } else if c == '\n' {
        out.push('\\');
        out.push('n');
    } else if c == '\r' {
        out.push('\\');
        out.push('r');
    } else if c == '\t' {
        out.push('\\');
        out.push('t');
    } else {
        let u = c as u32;
        if u < 32 {
            out.push('\\');
            out.push('u');
            out.push('0');
            out.push('0');
            out.push(hex_to_char(u / 16));
            out.push(hex_to_char(u % 16));
        } else {
            out.push(c);
        }
    }
    proof {
        assert(out@ =~= old(out)@ + esc_char(c));
    }
}

fn push_escaped(s: &str, out: &mut Vec<char>)
    ensures
        final(out)@ == old(out)@ + esc_str(s@),
{
    let n = s.unicode_len();
    let mut i: usize = 0;
    while i < n
        invariant
            n == s@.len(),
            i <= n,
            out@ == old(out)@ + esc_str(s@.take(i as int)),
        decreases n - i,
    {
        push_escaped_char(s.get_char(i), out);
        proof {
            lemma_esc_str_app(s@.take(i as int), seq![s@[i as int]]);
            assert(s@.take(i + 1) =~= s@.take(i as int) + seq![s@[i as int]]);
            assert(seq![s@[i as int]].skip(1) =~= Seq::<char>::empty());
            assert(esc_str(Seq::<char>::empty()) == Seq::<char>::empty());
            assert(esc_str(seq![s@[i as int]]) =~= esc_char(s@[i as int]));
            assert(old(out)@ + esc_str(s@.take(i + 1)) =~= (old(out)@ + esc_str(
                s@.take(i as int),
            )) + esc_char(s@[i as int]));
        }
        i = i + 1;
    }
    proof {
        assert(s@.take(n as int) =~= s@);
    }
}

fn push_quoted(s: &str, out: &mut Vec<char>)
    ensures
        final(out)@ == old(out)@ + quoted(s@),
{
    out.push('"');
    push_escaped(s, out);
    out.push('"');
    proof {
        assert(out@ =~= old(out)@ + quoted(s@));
    }
}

fn push_msg(m: &ModLogMessage, out: &mut Vec<char>)
    ensures
        final(out)@ == old(out)@ + enc_msg(m@),
{
    push_lit(out, "{\"id\":");
    push_u64(m.id, out);
    push_lit(out, ",\"content\":");
    push_quoted(m.content.as_str(), out);
    push_lit(out, ",\"attachments\":[");
    let ghost pre = out@;
    let n = m.attachments.len();
    let mut i: usize = 0;
    while i < n
        invariant
            n == m.attachments@.len(),
            i <= n,
            out@ == pre + enc_att_items(m@.attachments.take(i as int)),
        decreases n - i,
    {
        if i > 0 {
            out.push(',');
        }
        push_quoted(m.attachments[i].as_str(), out);
        proof {
            lemma_att_items_snoc(m@.attachments.take(i as int), m@.attachments[i as int]);
            assert(m@.attachments.take(i + 1) =~= m@.attachments.take(i as int).push(
                m@.attachments[i as int],
            ));
            assert(m@.attachments[i as int] == m.attachments@[i as int]@);
            if i > 0 {
                assert(pre + (enc_att_items(m@.attachments.take(i as int)) + seq![','] + quoted(
                    m@.attachments[i as int],
                )) =~= ((pre + enc_att_items(m@.attachments.take(i as int))).push(',')) + quoted(
                    m@.attachments[i as int],
                ));
            }
        }
        i = i + 1;
    }
    push_lit(out, "]}");
    proof {
        assert(m@.attachments.take(n as int) =~= m@.attachments);
        assert(out@ =~= old(out)@ + enc_msg(m@));
    }
}

fn push_action(a: &ModLogAction, out: &mut Vec<char>)
    ensures
        final(out)@ == old(out)@ + enc_action(a@),
{
    match a {
        ModLogAction::DeleteMessage(m) => {
            push_lit(out, "{\"DeleteMessage\":");
            push_msg(m, out);
            push_lit(out, "}");
            proof {
                assert(out@ =~= old(out)@ + enc_action(a@));
            }
        },
        ModLogAction::DeleteHour(ms) => {
            push_lit(out, "{\"DeleteHour\":[");
            let ghost mv: Seq<crate::model::MessageV> = Seq::new(
                ms@.len(),
                |i: int| ms@[i]@,
            );
            let ghost pre = out@;
            let n = ms.len();
            let mut i: usize = 0;
            while i < n
                invariant
                    n == ms@.len(),
                    mv == Seq::new(ms@.len(), |j: int| ms@[j]@),
                    i <= n,
                    out@ == pre + enc_msg_items(mv.take(i as int)),
                decreases n - i,
            {
                if i > 0 {
                    out.push(',');
                }
                push_msg(&ms[i], out);
                proof {
                    lemma_msg_items_snoc(mv.take(i as int), mv[i as int]);
                    assert(mv.take(i + 1) =~= mv.take(i as int).push(mv[i as int]));
                    assert(mv[i as int] == ms@[i as int]@);
                    if i > 0 {
                        assert(pre + (enc_msg_items(mv.take(i as int)) + seq![','] + enc_msg(
                            mv[i as int],
                        )) =~= ((pre + enc_msg_items(mv.take(i as int))).push(',')) + enc_msg(
                            mv[i as int],
                        ));
                    }
                }
                i = i + 1;
            }
            push_lit(out, "]}");
            proof {
                assert(mv.take(n as int) =~= mv);
                assert(out@ =~= old(out)@ + enc_action(a@));
            }
        },
        ModLogAction::Reason(s) => {
            push_lit(out, "{\"Reason\":");
            push_quoted(s.as_str(), out);
            push_lit(out, "}");
            proof {
                assert(out@ =~= old(out)@ + enc_action(a@));
            }
        },
    }
}

fn push_entry(e: &ModLogEntry, out: &mut Vec<char>)
    ensures
        final(out)@ == old(out)@ + enc_entry(e@),
{
    push_lit(out, "{\"timestamp\":\"");
    push_ts(&e.timestamp, out);
    push_lit(out, "\",\"channel_id\":");
    push_u64(e.channel_id, out);
    push_lit(out, ",\"moderator_id\":");
    push_u64(e.moderator_id, out);
    push_lit(out, ",\"moderator_name\":");
    push_quoted(e.moderator_name.as_str(), out);
    push_lit(out, ",\"moderator_discrim\":");
    push_u64(e.moderator_discrim as u64, out);
    push_lit(out, ",\"action\":");
    push_action(&e.action, out);
    push_lit(out, "}");
    proof {
        assert(out@ =~= old(out)@ + enc_entry(e@));
    }
}

impl ModLogEntry {
    /// Serialize this entry as one newline-terminated line of text and
    /// append it to `out`.  Appending to an in-memory sink cannot fail,
    /// so the result is always `Ok`; the `EncodeError` side exists for
    /// callers that drive a real stream behind this sink.
    pub fn write(&self, out: &mut String) -> (r: Result<(), EncodeError>)
        ensures
            final(out)@ == old(out)@ + enc_line(self@),
            r is Ok,
    {
        let mut buf: Vec<char> = Vec::new();
        push_entry(self, &mut buf);
        buf.push('\n');
        let s = chars_to_string(&buf);
        out.append(s.as_str());
        proof {
            assert(out@ =~= old(out)@ + enc_line(self@));
        }
        Ok(())
    }
}

} // verus!
