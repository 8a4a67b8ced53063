//! The laws of the codec, proved about the wire format and the spec
//! parser: a canonical encoded line parses back to exactly the entry it
//! encodes.

use vstd::prelude::*;

use crate::decode::{
    first_nl, lemma_sp_att_more_advance, lemma_sp_msg_advance, lemma_sp_msg_more_advance,
    lemma_sp_string_advance, lemma_sp_u64_advance, sp_action, sp_att_items, sp_att_more, sp_char,
    sp_dec_rest, sp_entry, sp_fixed, sp_lit, sp_msg, sp_msg_items, sp_msg_more, sp_string, sp_ts,
    sp_u64, u64_max,
};
use crate::model::{ActionV, EntryV, MessageV};
use crate::wire::{
    dec_digits, digit_char, digit_val, enc_action, enc_att_items, enc_entry, enc_line, enc_msg,
    enc_msg_items, enc_ts, esc_char, esc_str, hex_char, is_digit, is_lhex, lemma_digit_char_inv,
    lemma_hex_char_inv, lhex_val, padded, quoted,
};
use crate::Timestamp;

verus! {

// ---------------------------------------------------------------------
// Helpers
// ---------------------------------------------------------------------
/// If `full` stands in `t` at `i`, any piece of `full` stands in `t` at
/// the corresponding offset.
proof fn lemma_chunk(t: Seq<char>, i: int, full: Seq<char>, off: int, part: Seq<char>)
    requires
        0 <= i,
        i + full.len() <= t.len(),
        t.subrange(i, i + full.len()) == full,
        0 <= off,
        off + part.len() <= full.len(),
        full.subrange(off, off + part.len()) == part,
    ensures
        t.subrange(i + off, i + off + part.len()) == part,
{
    assert forall|k: int| 0 <= k < part.len() implies t.subrange(
        i + off,
        i + off + part.len(),
    )[k] == part[k] by {
        assert(t.subrange(i, i + full.len())[off + k] == t[i + off + k]);
        assert(full.subrange(off, off + part.len())[k] == full[off + k]);
    }
    assert(t.subrange(i + off, i + off + part.len()) =~= part);
}

proof fn lemma_index_of_sub(t: Seq<char>, i: int, full: Seq<char>, off: int)
    requires
        0 <= i,
        i + full.len() <= t.len(),
        t.subrange(i, i + full.len()) == full,
        0 <= off < full.len(),
    ensures
        t[i + off] == full[off],
{
    assert(t.subrange(i, i + full.len())[off] == t[i + off]);
}

// ---------------------------------------------------------------------
// Numbers
// ---------------------------------------------------------------------
pub proof fn lemma_padded_len(n: nat, w: nat)
    ensures
        padded(n, w).len() == w,
    decreases w,
{
    if w != 0 {
        lemma_padded_len(n / 10, (w - 1) as nat);
    }
}

proof fn lemma_sp_fixed2_complete(t: Seq<char>, i: int, n: nat)
    requires
        0 <= i,
        i + 2 <= t.len(),
        t.subrange(i, i + 2) == padded(n, 2),
        n < 100,
    ensures
        sp_fixed(t, i, 2, 0) == Some((n, i + 2)),
{
    reveal_with_fuel(padded, 3);
    lemma_padded_len(n, 2);
    assert(padded(n, 2) == padded(n / 10, 1).push(digit_char(n % 10)));
    assert(padded(n / 10, 1) == padded(n / 100, 0).push(digit_char((n / 10) % 10)));
    assert(padded(n, 2) =~= seq![digit_char((n / 10) % 10), digit_char(n % 10)]);
    lemma_digit_char_inv((n / 10) % 10, '0');
    lemma_digit_char_inv(n % 10, '0');
    lemma_index_of_sub(t, i, padded(n, 2), 0);
    lemma_index_of_sub(t, i, padded(n, 2), 1);
    assert(t[i] == digit_char((n / 10) % 10));
    assert(t[i + 1] == digit_char(n % 10));
    reveal_with_fuel(sp_fixed, 4);
    assert(digit_val(t[i]) == (n / 10) % 10);
    assert(digit_val(t[i + 1]) == n % 10);
    assert(sp_fixed(t, i, 2, 0) == Some((((n / 10) % 10) * 10 + n % 10, i + 2)));
    assert(((n / 10) % 10) * 10 + n % 10 == n);
}

proof fn lemma_sp_fixed4_complete(t: Seq<char>, i: int, n: nat)
    requires
        0 <= i,
        i + 4 <= t.len(),
        t.subrange(i, i + 4) == padded(n, 4),
        n < 10000,
    ensures
        sp_fixed(t, i, 4, 0) == Some((n, i + 4)),
{
    reveal_with_fuel(padded, 5);
    lemma_padded_len(n, 4);
    assert(padded(n, 4) =~= seq![
        digit_char((n / 1000) % 10),
        digit_char((n / 100) % 10),
        digit_char((n / 10) % 10),
        digit_char(n % 10),
    ]);
    lemma_digit_char_inv((n / 1000) % 10, '0');
    lemma_digit_char_inv((n / 100) % 10, '0');
    lemma_digit_char_inv((n / 10) % 10, '0');
    lemma_digit_char_inv(n % 10, '0');
    lemma_index_of_sub(t, i, padded(n, 4), 0);
    lemma_index_of_sub(t, i, padded(n, 4), 1);
    lemma_index_of_sub(t, i, padded(n, 4), 2);
    lemma_index_of_sub(t, i, padded(n, 4), 3);
    reveal_with_fuel(sp_fixed, 6);
    assert(sp_fixed(t, i, 4, 0) == Some(
        (((((n / 1000) % 10) * 10 + (n / 100) % 10) * 10 + (n / 10) % 10) * 10 + n % 10, i + 4),
    ));
    assert(((((n / 1000) % 10) * 10 + (n / 100) % 10) * 10 + (n / 10) % 10) * 10 + n % 10 == n);
}

/// The value of a digit string, most significant digit first.
pub open spec fn val_of(ds: Seq<char>) -> nat
    decreases ds.len(),
{
    if ds.len() == 0 {
        0
    } else {
        val_of(ds.drop_last()) * 10 + digit_val(ds.last())
    }
}

pub open spec fn all_digits(ds: Seq<char>) -> bool {
    forall|k: int| 0 <= k < ds.len() ==> is_digit(ds[k])
}

pub open spec fn pow10(w: nat) -> nat
    decreases w,
{
    if w == 0 { 1 } else { 10 * pow10((w - 1) as nat) }
}

proof fn lemma_val_of_dec_digits(n: nat)
    ensures
        val_of(dec_digits(n)) == n,
        all_digits(dec_digits(n)),
        dec_digits(n).len() >= 1,
        n >= 1 ==> dec_digits(n)[0] != '0',
        n < 10 ==> dec_digits(n).len() == 1,
    decreases n,
{
    if n < 10 {
        lemma_digit_char_inv(n, '0');
        assert(dec_digits(n) == seq![digit_char(n)]);
        assert(dec_digits(n).drop_last() =~= Seq::<char>::empty());
        assert(val_of(Seq::<char>::empty()) == 0);
        assert(dec_digits(n).last() == digit_char(n));
        assert(val_of(dec_digits(n)) == val_of(Seq::<char>::empty()) * 10 + digit_val(
            digit_char(n),
        ));
    } else {
        lemma_val_of_dec_digits(n / 10);
        lemma_digit_char_inv(n % 10, '0');
        let ds = dec_digits(n);
        assert(ds == dec_digits(n / 10).push(digit_char(n % 10)));
        assert(ds.drop_last() =~= dec_digits(n / 10));
        assert(ds.last() == digit_char(n % 10));
        assert(val_of(ds) == (n / 10) * 10 + n % 10);
        assert forall|k: int| 0 <= k < ds.len() implies is_digit(ds[k]) by {
            if k < ds.len() - 1 {
                assert(ds[k] == dec_digits(n / 10)[k]);
            }
        }
        assert(ds[0] == dec_digits(n / 10)[0]);
    }
}

proof fn lemma_val_of_front(ds: Seq<char>)
    requires
        ds.len() >= 1,
    ensures
        val_of(ds) == digit_val(ds[0]) * pow10((ds.len() - 1) as nat) + val_of(ds.skip(1)),
    decreases ds.len(),
{
    if ds.len() == 1 {
        assert(ds.drop_last() =~= Seq::<char>::empty());
        assert(ds.skip(1) =~= Seq::<char>::empty());
        assert(val_of(Seq::<char>::empty()) == 0);
        assert(pow10(0) == 1);
        assert(ds.last() == ds[0]);
        assert(val_of(ds) == val_of(Seq::<char>::empty()) * 10 + digit_val(ds[0]));
        assert((ds.len() - 1) as nat == 0);
        assert(val_of(ds) == digit_val(ds[0]) * pow10((ds.len() - 1) as nat) + val_of(
            ds.skip(1),
        ));
    } else {
        let dl = ds.drop_last();
        lemma_val_of_front(dl);
        assert(dl[0] == ds[0]);
        assert(ds.skip(1).drop_last() =~= dl.skip(1));
        assert(ds.skip(1).last() == ds.last());
        assert(val_of(ds.skip(1)) == val_of(dl.skip(1)) * 10 + digit_val(ds.last()));
        let w = (dl.len() - 1) as nat;
        assert(val_of(ds) == val_of(dl) * 10 + digit_val(ds.last()));
        assert(val_of(dl) == digit_val(ds[0]) * pow10(w) + val_of(dl.skip(1)));
        assert((digit_val(ds[0]) * pow10(w) + val_of(dl.skip(1))) * 10 == digit_val(ds[0]) * (
        pow10(w) * 10) + val_of(dl.skip(1)) * 10) by (nonlinear_arith);
        assert(pow10(w + 1) == 10 * pow10(w));
        assert(pow10(w) * 10 == 10 * pow10(w));
        assert((ds.len() - 1) as nat == w + 1);
        assert(digit_val(ds[0]) * (pow10(w) * 10) == digit_val(ds[0]) * pow10(w + 1));
        assert(val_of(ds) == (digit_val(ds[0]) * pow10(w) + val_of(dl.skip(1))) * 10 + digit_val(
            ds.last(),
        ));
        assert(val_of(ds) == digit_val(ds[0]) * pow10(w + 1) + (val_of(dl.skip(1)) * 10
            + digit_val(ds.last())));
        assert(val_of(ds) == digit_val(ds[0]) * pow10(w + 1) + val_of(ds.skip(1)));
    }
}

proof fn lemma_sp_dec_rest_complete(t: Seq<char>, i: int, ds: Seq<char>, acc: nat)
    requires
        0 <= i,
        i + ds.len() <= t.len(),
        t.subrange(i, i + ds.len()) == ds,
        all_digits(ds),
        acc * pow10(ds.len() as nat) + val_of(ds) <= u64_max(),
        i + ds.len() == t.len() || !is_digit(t[i + ds.len()]),
    ensures
        sp_dec_rest(t, i, acc) == Some((acc * pow10(ds.len() as nat) + val_of(ds), i + ds.len())),
    decreases ds.len(),
{
    if ds.len() == 0 {
        assert(pow10(0) == 1);
        assert(val_of(ds) == 0);
        if i < t.len() {
            assert(!is_digit(t[i]));
            assert(sp_dec_rest(t, i, acc) == Some((acc, i)));
        } else {
            assert(i == t.len());
            assert(sp_dec_rest(t, i, acc) == Some((acc, t.len() as int)));
        }
        assert(pow10(ds.len() as nat) == 1);
        assert(acc * pow10(ds.len() as nat) == acc) by (nonlinear_arith)
            requires pow10(ds.len() as nat) == 1,
        ;
        assert(acc * pow10(ds.len() as nat) + val_of(ds) == acc);
        assert(sp_dec_rest(t, i, acc) == Some(
            (acc * pow10(ds.len() as nat) + val_of(ds), i + ds.len()),
        ));
    } else {
        lemma_index_of_sub(t, i, ds, 0);
        assert(is_digit(ds[0]));
        assert(is_digit(t[i]));
        let d0 = digit_val(ds[0]);
        let rest = ds.skip(1);
        let w = (ds.len() - 1) as nat;
        lemma_val_of_front(ds);
        assert(val_of(ds) == d0 * pow10(w) + val_of(rest));
        let acc2 = acc * 10 + d0;
        assert(acc * pow10(ds.len() as nat) == acc * (10 * pow10(w)));
        assert(acc * (10 * pow10(w)) == (acc * 10) * pow10(w)) by (nonlinear_arith);
        assert((acc * 10) * pow10(w) + d0 * pow10(w) == (acc * 10 + d0) * pow10(w))
            by (nonlinear_arith);
        assert((acc * 10 + d0) * pow10(w) == acc2 * pow10(w));
        assert(acc2 * pow10(w) + val_of(rest) == acc * pow10(ds.len() as nat) + val_of(ds));
        assert(pow10(w) >= 1) by {
            lemma_pow10_pos(w);
        }
        assert(acc2 <= acc2 * pow10(w)) by (nonlinear_arith)
            requires pow10(w) >= 1,
        ;
        assert(acc2 <= u64_max());
        assert(t.subrange(i + 1, i + 1 + rest.len()) =~= rest) by {
            assert forall|k: int| 0 <= k < rest.len() implies t.subrange(
                i + 1,
                i + 1 + rest.len(),
            )[k] == rest[k] by {
                assert(t.subrange(i, i + ds.len())[k + 1] == t[i + 1 + k]);
                assert(rest[k] == ds[k + 1]);
            }
        }
        assert(all_digits(rest)) by {
            assert forall|k: int| 0 <= k < rest.len() implies is_digit(rest[k]) by {
                assert(rest[k] == ds[k + 1]);
            }
        }
        lemma_sp_dec_rest_complete(t, i + 1, rest, acc2);
        assert(sp_dec_rest(t, i + 1, acc2) == Some(
            (acc2 * pow10(rest.len() as nat) + val_of(rest), i + 1 + rest.len()),
        ));
        assert(rest.len() as nat == w);
        assert(acc2 * pow10(rest.len() as nat) + val_of(rest) == acc * pow10(ds.len() as nat)
            + val_of(ds));
        assert(i + 1 + rest.len() == i + ds.len());
        assert(sp_dec_rest(t, i, acc) == sp_dec_rest(t, i + 1, acc2));
        assert(sp_dec_rest(t, i, acc) == Some(
            (acc * pow10(ds.len() as nat) + val_of(ds), i + ds.len()),
        ));
    }
}

proof fn lemma_pow10_pos(w: nat)
    ensures
        pow10(w) >= 1,
    decreases w,
{
    if w != 0 {
        lemma_pow10_pos((w - 1) as nat);
    }
}

pub proof fn lemma_sp_u64_complete(t: Seq<char>, i: int, n: nat)
    requires
        0 <= i,
        n <= u64_max(),
        i + dec_digits(n).len() <= t.len(),
        t.subrange(i, i + dec_digits(n).len()) == dec_digits(n),
        i + dec_digits(n).len() == t.len() || !is_digit(t[i + dec_digits(n).len()]),
    ensures
        sp_u64(t, i) == Some((n, i + dec_digits(n).len())),
{
    let ds = dec_digits(n);
    lemma_val_of_dec_digits(n);
    lemma_index_of_sub(t, i, ds, 0);
    assert(is_digit(t[i]));
    if n == 0 {
        assert(ds =~= seq![digit_char(0)]);
        assert(t[i] == '0');
        if i + 1 < t.len() {
            assert(!is_digit(t[i + 1]));
        }
        assert(sp_u64(t, i) == Some((0nat, i + 1)));
    } else {
        assert(t[i] == ds[0]);
        assert(t[i] != '0');
        lemma_sp_dec_rest_complete(t, i, ds, 0);
        lemma_pow10_pos(ds.len() as nat);
        assert(0 * pow10(ds.len() as nat) + val_of(ds) == n);
        assert(sp_u64(t, i) == sp_dec_rest(t, i, 0));
    }
}

/// A digit string without a leading zero is the decimal form of its
/// value: the decimal form is unique.
proof fn lemma_digits_unique(ds: Seq<char>)
    requires
        all_digits(ds),
        ds.len() >= 1,
        ds.len() > 1 ==> ds[0] != '0',
    ensures
        ds == dec_digits(val_of(ds)),
    decreases ds.len(),
{
    let n = val_of(ds);
    if ds.len() == 1 {
        assert(ds.drop_last() =~= Seq::<char>::empty());
        assert(val_of(Seq::<char>::empty()) == 0);
        assert(n == digit_val(ds[0]));
        lemma_digit_char_inv(0, ds[0]);
        assert(n < 10);
        assert(dec_digits(n) == seq![digit_char(n)]);
        assert(digit_char(digit_val(ds[0])) == ds[0]);
        assert(ds =~= dec_digits(n));
    } else {
        let dl = ds.drop_last();
        assert(all_digits(dl)) by {
            assert(forall|k: int| 0 <= k < dl.len() ==> dl[k] == ds[k]);
        }
        assert(dl[0] == ds[0]);
        lemma_digits_unique(dl);
        let v = val_of(dl);
        let d = digit_val(ds.last());
        assert(n == v * 10 + d);
        assert(d <= 9);
        assert(v >= 1) by {
            lemma_val_of_front(dl);
            assert(digit_val(dl[0]) >= 1) by {
                lemma_digit_char_inv(0, dl[0]);
                assert(dl[0] != '0');
            }
            lemma_pow10_pos((dl.len() - 1) as nat);
            assert(digit_val(dl[0]) * pow10((dl.len() - 1) as nat) >= 1) by (nonlinear_arith)
                requires
                    digit_val(dl[0]) >= 1,
                    pow10((dl.len() - 1) as nat) >= 1,
            ;
        }
        assert(n >= 10);
        assert(n / 10 == v && n % 10 == d);
        assert(dec_digits(n) == dec_digits(n / 10).push(digit_char(n % 10)));
        lemma_digit_char_inv(0, ds.last());
        assert(digit_char(d) == ds.last());
        assert(ds =~= dl.push(ds.last()));
        assert(ds =~= dec_digits(n));
    }
}

proof fn lemma_sp_dec_rest_sound(t: Seq<char>, i: int, acc: nat)
    requires
        0 <= i <= t.len(),
        acc <= u64_max(),
        sp_dec_rest(t, i, acc) is Some,
    ensures
        ({
            let (n, j) = sp_dec_rest(t, i, acc)->Some_0;
            &&& i <= j <= t.len()
            &&& all_digits(t.subrange(i, j))
            &&& n == acc * pow10((j - i) as nat) + val_of(t.subrange(i, j))
            &&& n <= u64_max()
            &&& (j == t.len() || !is_digit(t[j]))
        }),
    decreases t.len() - i,
{
    let (n, j) = sp_dec_rest(t, i, acc)->Some_0;
    if !(0 <= i < t.len()) || !is_digit(t[i]) {
        assert(t.subrange(i, i) =~= Seq::<char>::empty());
        assert(val_of(Seq::<char>::empty()) == 0);
        assert(pow10(0) == 1);
        assert(acc * 1 == acc) by (nonlinear_arith);
        assert(n == acc);
    } else {
        let d0 = digit_val(t[i]);
        let acc2 = acc * 10 + d0;
        assert(acc2 <= u64_max());
        lemma_sp_dec_rest_sound(t, i + 1, acc2);
        let ds2 = t.subrange(i + 1, j);
        let ds = t.subrange(i, j);
        assert(ds =~= seq![t[i]] + ds2);
        lemma_sp_string_sound_digit_glue(t, i, j, acc, acc2, d0);
    }
}

/// The arithmetic step of `lemma_sp_dec_rest_sound`: folding the first
/// digit back into the accumulator.
proof fn lemma_sp_string_sound_digit_glue(
    t: Seq<char>,
    i: int,
    j: int,
    acc: nat,
    acc2: nat,
    d0: nat,
)
    requires
        0 <= i < j <= t.len(),
        is_digit(t[i]),
        d0 == digit_val(t[i]),
        acc2 == acc * 10 + d0,
        all_digits(t.subrange(i + 1, j)),
        sp_dec_rest(t, i, acc) is Some,
        sp_dec_rest(t, i, acc) == sp_dec_rest(t, i + 1, acc2),
        sp_dec_rest(t, i + 1, acc2)->Some_0.0 == acc2 * pow10((j - i - 1) as nat) + val_of(
            t.subrange(i + 1, j),
        ),
    ensures
        all_digits(t.subrange(i, j)),
        sp_dec_rest(t, i, acc)->Some_0.0 == acc * pow10((j - i) as nat) + val_of(
            t.subrange(i, j),
        ),
{
    let ds = t.subrange(i, j);
    let ds2 = t.subrange(i + 1, j);
    assert(ds =~= seq![t[i]] + ds2);
    assert(all_digits(ds)) by {
        assert(forall|k: int| 1 <= k < ds.len() ==> ds[k] == ds2[k - 1]);
        assert(ds[0] == t[i]);
    }
    assert(ds.len() >= 1);
    assert(ds[0] == t[i]);
    assert(ds.skip(1) =~= ds2);
    lemma_val_of_front(ds);
    let w = (ds.len() - 1) as nat;
    assert(val_of(ds) == d0 * pow10(w) + val_of(ds2));
    assert((j - i - 1) as nat == w);
    assert(acc2 * pow10(w) == (acc * 10 + d0) * pow10(w));
    assert((acc * 10 + d0) * pow10(w) == (acc * 10) * pow10(w) + d0 * pow10(w))
        by (nonlinear_arith);
    assert((acc * 10) * pow10(w) == acc * (10 * pow10(w))) by (nonlinear_arith);
    assert(pow10((j - i) as nat) == 10 * pow10(w));
}

proof fn lemma_sp_u64_sound(t: Seq<char>, i: int)
    requires
        sp_u64(t, i) is Some,
    ensures
        ({
            let (n, j) = sp_u64(t, i)->Some_0;
            &&& i < j <= t.len()
            &&& n <= u64_max()
            &&& t.subrange(i, j) == dec_digits(n)
            &&& (j == t.len() || !is_digit(t[j]))
        }),
{
    let (n, j) = sp_u64(t, i)->Some_0;
    lemma_sp_u64_advance(t, i);
    if t[i] == '0' {
        assert(t.subrange(i, i + 1) =~= seq![t[i]]);
        assert(dec_digits(0) == seq![digit_char(0)]);
        assert(t.subrange(i, j) =~= dec_digits(0));
    } else {
        lemma_sp_dec_rest_sound(t, i, 0);
        let ds = t.subrange(i, j);
        assert(0 * pow10((j - i) as nat) == 0) by (nonlinear_arith);
        assert(n == val_of(ds));
        assert(ds[0] == t[i]);
        assert(ds[0] != '0');
        lemma_digits_unique(ds);
    }
}

proof fn lemma_sp_fixed2_sound(t: Seq<char>, i: int)
    requires
        sp_fixed(t, i, 2, 0) is Some,
    ensures
        ({
            let (n, j) = sp_fixed(t, i, 2, 0)->Some_0;
            &&& 0 <= i && j == i + 2 && j <= t.len()
            &&& n < 100
            &&& t.subrange(i, i + 2) == padded(n, 2)
        }),
{
    reveal_with_fuel(sp_fixed, 4);
    reveal_with_fuel(padded, 3);
    let (n, j) = sp_fixed(t, i, 2, 0)->Some_0;
    let d1 = digit_val(t[i]);
    let d0 = digit_val(t[i + 1]);
    assert(d1 <= 9 && d0 <= 9);
    assert(n == d1 * 10 + d0);
    assert(n / 10 == d1 && n % 10 == d0);
    lemma_digit_char_inv(0, t[i]);
    lemma_digit_char_inv(0, t[i + 1]);
    assert(padded(n, 2) =~= seq![digit_char((n / 10) % 10), digit_char(n % 10)]);
    assert(digit_char(d1) == t[i]);
    assert(digit_char(d0) == t[i + 1]);
    assert(t.subrange(i, i + 2) =~= padded(n, 2));
}

proof fn lemma_sp_fixed4_sound(t: Seq<char>, i: int)
    requires
        sp_fixed(t, i, 4, 0) is Some,
    ensures
        ({
            let (n, j) = sp_fixed(t, i, 4, 0)->Some_0;
            &&& 0 <= i && j == i + 4 && j <= t.len()
            &&& n < 10000
            &&& t.subrange(i, i + 4) == padded(n, 4)
        }),
{
    reveal_with_fuel(sp_fixed, 6);
    reveal_with_fuel(padded, 5);
    let (n, j) = sp_fixed(t, i, 4, 0)->Some_0;
    let d3 = digit_val(t[i]);
    let d2 = digit_val(t[i + 1]);
    let d1 = digit_val(t[i + 2]);
    let d0 = digit_val(t[i + 3]);
    assert(d3 <= 9 && d2 <= 9 && d1 <= 9 && d0 <= 9);
    assert(n == ((d3 * 10 + d2) * 10 + d1) * 10 + d0);
    assert(n / 1000 == d3 && (n / 100) % 10 == d2 && (n / 10) % 10 == d1 && n % 10 == d0);
    lemma_digit_char_inv(0, t[i]);
    lemma_digit_char_inv(0, t[i + 1]);
    lemma_digit_char_inv(0, t[i + 2]);
    lemma_digit_char_inv(0, t[i + 3]);
    assert(padded(n, 4) =~= seq![
        digit_char((n / 1000) % 10),
        digit_char((n / 100) % 10),
        digit_char((n / 10) % 10),
        digit_char(n % 10),
    ]);
    assert(t.subrange(i, i + 4) =~= padded(n, 4));
}

proof fn lemma_sp_ts_sound(t: Seq<char>, i: int)
    requires
        sp_ts(t, i) is Some,
    ensures
        ({
            let (ts, j) = sp_ts(t, i)->Some_0;
            &&& 0 <= i && j == i + 20 && j <= t.len()
            &&& ts.wf()
            &&& t.subrange(i, i + 20) == enc_ts(ts)
        }),
{
    let (ts, j) = sp_ts(t, i)->Some_0;
    lemma_sp_fixed4_sound(t, i);
    lemma_sp_fixed2_sound(t, i + 5);
    lemma_sp_fixed2_sound(t, i + 8);
    lemma_sp_fixed2_sound(t, i + 11);
    lemma_sp_fixed2_sound(t, i + 14);
    lemma_sp_fixed2_sound(t, i + 17);
    let y = sp_fixed(t, i, 4, 0)->Some_0.0;
    let mo = sp_fixed(t, i + 5, 2, 0)->Some_0.0;
    let d = sp_fixed(t, i + 8, 2, 0)->Some_0.0;
    let h = sp_fixed(t, i + 11, 2, 0)->Some_0.0;
    let mi = sp_fixed(t, i + 14, 2, 0)->Some_0.0;
    let se = sp_fixed(t, i + 17, 2, 0)->Some_0.0;
    assert(ts.year == y as u16 && ts.month == mo as u8 && ts.day == d as u8 && ts.hour == h as u8
        && ts.minute == mi as u8 && ts.second == se as u8);
    assert(ts.year as nat == y && ts.month as nat == mo && ts.day as nat == d && ts.hour as nat
        == h && ts.minute as nat == mi && ts.second as nat == se);
    lemma_enc_ts_len(ts);
    assert(t[i + 4] == '-' && t[i + 7] == '-' && t[i + 10] == 'T' && t[i + 13] == ':'
        && t[i + 16] == ':' && t[i + 19] == 'Z');
    assert forall|k: int| 0 <= k < 4 implies t[i + k] == padded(y, 4)[k] by {
        assert(t.subrange(i, i + 4)[k] == t[i + k]);
    }
    assert forall|k: int| 0 <= k < 2 implies t[i + 5 + k] == padded(mo, 2)[k] by {
        assert(t.subrange(i + 5, i + 7)[k] == t[i + 5 + k]);
    }
    assert forall|k: int| 0 <= k < 2 implies t[i + 8 + k] == padded(d, 2)[k] by {
        assert(t.subrange(i + 8, i + 10)[k] == t[i + 8 + k]);
    }
    assert forall|k: int| 0 <= k < 2 implies t[i + 11 + k] == padded(h, 2)[k] by {
        assert(t.subrange(i + 11, i + 13)[k] == t[i + 11 + k]);
    }
    assert forall|k: int| 0 <= k < 2 implies t[i + 14 + k] == padded(mi, 2)[k] by {
        assert(t.subrange(i + 14, i + 16)[k] == t[i + 14 + k]);
    }
    assert forall|k: int| 0 <= k < 2 implies t[i + 17 + k] == padded(se, 2)[k] by {
        assert(t.subrange(i + 17, i + 19)[k] == t[i + 17 + k]);
    }
    assert(t.subrange(i, i + 20) =~= enc_ts(ts)) by {
        assert forall|k: int| 0 <= k < 20 implies t.subrange(i, i + 20)[k] == enc_ts(ts)[k] by {
            assert(t.subrange(i, i + 20)[k] == t[i + k]);
        }
    }
}

// ---------------------------------------------------------------------
// Strings
// ---------------------------------------------------------------------
pub proof fn lemma_sp_string_complete(t: Seq<char>, i: int, s: Seq<char>)
    requires
        0 <= i,
        i + esc_str(s).len() + 1 <= t.len(),
        t.subrange(i, i + esc_str(s).len() + 1) == esc_str(s) + seq!['"'],
    ensures
        sp_string(t, i) == Some((s, i + esc_str(s).len() + 1)),
    decreases s.len(),
{
    let full = esc_str(s) + seq!['"'];
    let fl = esc_str(s).len() + 1;
    if s.len() == 0 {
        assert(esc_str(s) == Seq::<char>::empty());
        lemma_index_of_sub(t, i, full, 0);
        assert(t[i] == '"');
        assert(sp_string(t, i) == Some((Seq::<char>::empty(), i + 1)));
        assert(s =~= Seq::<char>::empty());
    } else {
        let c = s[0];
        let rest = s.skip(1);
        assert(esc_str(s) == esc_char(c) + esc_str(rest));
        let ec = esc_char(c);
        let el = ec.len();
        assert(fl == el + esc_str(rest).len() + 1);
        assert(full.subrange(el as int, fl as int) =~= esc_str(rest) + seq!['"']) by {
            assert forall|k: int| 0 <= k < esc_str(rest).len() + 1 implies full.subrange(
                el as int,
                fl as int,
            )[k] == (esc_str(rest) + seq!['"'])[k] by {
                assert(full.subrange(el as int, fl as int)[k] == full[el + k]);
                if k < esc_str(rest).len() {
                    assert(full[el + k] == esc_str(s)[el + k]);
                    assert(esc_str(s)[el + k] == esc_str(rest)[k]);
                } else {
                    assert(full[el + k] == '"');
                }
            }
        }
        lemma_chunk(t, i, full, el as int, esc_str(rest) + seq!['"']);
        let j2 = i + el;
        lemma_sp_string_complete(t, j2, rest);
        assert(sp_string(t, j2) == Some((rest, i + fl)));
        assert(seq![c] + rest =~= s);
        if c == '"' {
            assert(ec =~= seq!['\\', '"']);
            lemma_index_of_sub(t, i, full, 0);
            lemma_index_of_sub(t, i, full, 1);
            assert(t[i] == '\\' && t[i + 1] == '"');
            assert(sp_string(t, i) == Some((seq![c] + rest, i + fl)));
        } else if c == '\\' {
            assert(ec =~= seq!['\\', '\\']);
            lemma_index_of_sub(t, i, full, 0);
            lemma_index_of_sub(t, i, full, 1);
            assert(t[i] == '\\' && t[i + 1] == '\\');
            assert(sp_string(t, i) == Some((seq![c] + rest, i + fl)));
        } else if c == '\n' {
            assert(ec =~= seq!['\\', 'n']);
            lemma_index_of_sub(t, i, full, 0);
            lemma_index_of_sub(t, i, full, 1);
            assert(t[i] == '\\' && t[i + 1] == 'n');
            assert(sp_string(t, i) == Some((seq![c] + rest, i + fl)));
        } else if c == '\r' {
            assert(ec =~= seq!['\\', 'r']);
            lemma_index_of_sub(t, i, full, 0);
            lemma_index_of_sub(t, i, full, 1);
            assert(t[i] == '\\' && t[i + 1] == 'r');
            assert(sp_string(t, i) == Some((seq![c] + rest, i + fl)));
        } else if c == '\t' {
            assert(ec =~= seq!['\\', 't']);
            lemma_index_of_sub(t, i, full, 0);
            lemma_index_of_sub(t, i, full, 1);
            assert(t[i] == '\\' && t[i + 1] == 't');
            assert(sp_string(t, i) == Some((seq![c] + rest, i + fl)));
        } else if (c as u32) < 32 {
            let cu = (c as u32) as nat;
            let h1 = hex_char(cu / 16);
            let h0 = hex_char(cu % 16);
            assert(ec =~= seq!['\\', 'u', '0', '0', h1, h0]);
            lemma_index_of_sub(t, i, full, 0);
            lemma_index_of_sub(t, i, full, 1);
            lemma_index_of_sub(t, i, full, 2);
            lemma_index_of_sub(t, i, full, 3);
            lemma_index_of_sub(t, i, full, 4);
            lemma_index_of_sub(t, i, full, 5);
            assert(t[i] == '\\' && t[i + 1] == 'u' && t[i + 2] == '0' && t[i + 3] == '0'
                && t[i + 4] == h1 && t[i + 5] == h0);
            lemma_hex_char_inv(cu / 16, '0');
            lemma_hex_char_inv(cu % 16, '0');
            assert(is_lhex(t[i + 4]) && is_lhex(t[i + 5]));
            let v = lhex_val(t[i + 4]) * 16 + lhex_val(t[i + 5]);
            assert(v == (cu / 16) * 16 + cu % 16);
            assert(v == cu);
            crate::wire::lemma_ctrl_char_inv(v, c);
            assert(crate::wire::ctrl_char(v) == c);
            assert(crate::wire::ctrl_char(9) == '\u{9}');
            assert(v != 9 && v != 10 && v != 13) by {
                if v == 9 {
                    assert(c == '\u{9}');
                    assert(c == '\t');
                }
                if v == 10 {
                    assert(c == '\u{a}');
                    assert(c == '\n');
                }
                if v == 13 {
                    assert(c == '\u{d}');
                    assert(c == '\r');
                }
            }
            assert(sp_string(t, i) == Some((seq![c] + rest, i + fl)));
        } else {
            assert(ec =~= seq![c]);
            lemma_index_of_sub(t, i, full, 0);
            assert(t[i] == c);
            assert(sp_string(t, i) == Some((seq![c] + rest, i + fl)));
        }
    }
}

proof fn lemma_sp_string_sound(t: Seq<char>, i: int)
    requires
        sp_string(t, i) is Some,
    ensures
        ({
            let (s, j) = sp_string(t, i)->Some_0;
            &&& i < j <= t.len()
            &&& t.subrange(i, j) == esc_str(s) + seq!['"']
        }),
    decreases t.len() - i,
{
    let (s, j) = sp_string(t, i)->Some_0;
    lemma_sp_string_advance(t, i);
    if t[i] == '"' {
        assert(s =~= Seq::<char>::empty());
        assert(esc_str(s) == Seq::<char>::empty());
        assert(t.subrange(i, j) =~= seq![t[i]]);
        assert(t.subrange(i, j) =~= esc_str(s) + seq!['"']);
    } else if t[i] == '\\' {
        let e = t[i + 1];
        if e == '"' || e == '\\' || e == 'n' || e == 'r' || e == 't' {
            let c = if e == '"' { '"' } else if e == '\\' { '\\' } else if e == 'n' { '\n' }
                else if e == 'r' { '\r' } else { '\t' };
            lemma_sp_string_sound(t, i + 2);
            let (s2, j2) = sp_string(t, i + 2)->Some_0;
            assert(s == seq![c] + s2 && j == j2);
            assert(esc_char(c) =~= seq!['\\', e]);
            assert(s.len() >= 1 && s[0] == c);
            assert(s.skip(1) =~= s2);
            assert(esc_str(s) == esc_char(s[0]) + esc_str(s.skip(1)));
            assert(t.subrange(i, i + 2) =~= seq!['\\', e]);
            assert(t.subrange(i, j) =~= t.subrange(i, i + 2) + t.subrange(i + 2, j));
            assert(t.subrange(i, j) =~= esc_str(s) + seq!['"']);
        } else {
            let h1 = t[i + 4];
            let h0 = t[i + 5];
            let v = lhex_val(h1) * 16 + lhex_val(h0);
            let c = crate::wire::ctrl_char(v);
            lemma_sp_string_sound(t, i + 6);
            let (s2, j2) = sp_string(t, i + 6)->Some_0;
            assert(s == seq![c] + s2 && j == j2);
            crate::wire::lemma_ctrl_char_inv(v, '\u{0}');
            assert((c as u32) == v);
            assert(v < 32);
            assert(c != '"') by {
                assert(('"' as u32) == 34);
            }
            assert(c != '\\') by {
                assert(('\\' as u32) == 92);
            }
            assert(c != '\n') by {
                assert(('\n' as u32) == 10);
            }
            assert(c != '\r') by {
                assert(('\r' as u32) == 13);
            }
            assert(c != '\t') by {
                assert(('\t' as u32) == 9);
            }
            lemma_hex_char_inv(0, h1);
            lemma_hex_char_inv(0, h0);
            assert(lhex_val(h1) < 16 && lhex_val(h0) < 16);
            assert(v / 16 == lhex_val(h1) && v % 16 == lhex_val(h0));
            assert(hex_char((c as u32 / 16) as nat) == h1);
            assert(hex_char((c as u32 % 16) as nat) == h0);
            assert(esc_char(c) =~= seq!['\\', 'u', '0', '0', h1, h0]);
            assert(s.len() >= 1 && s[0] == c);
            assert(s.skip(1) =~= s2);
            assert(esc_str(s) == esc_char(s[0]) + esc_str(s.skip(1)));
            assert(t.subrange(i, i + 6) =~= seq!['\\', 'u', '0', '0', h1, h0]);
            assert(t.subrange(i, j) =~= t.subrange(i, i + 6) + t.subrange(i + 6, j));
            assert(t.subrange(i, j) =~= esc_str(s) + seq!['"']);
        }
    } else {
        let c = t[i];
        lemma_sp_string_sound(t, i + 1);
        let (s2, j2) = sp_string(t, i + 1)->Some_0;
        assert(s == seq![c] + s2 && j == j2);
        assert((c as u32) >= 32);
        assert(esc_char(c) =~= seq![c]);
        assert(s.len() >= 1 && s[0] == c);
        assert(s.skip(1) =~= s2);
        assert(esc_str(s) == esc_char(s[0]) + esc_str(s.skip(1)));
        assert(t.subrange(i, i + 1) =~= seq![c]);
        assert(t.subrange(i, j) =~= t.subrange(i, i + 1) + t.subrange(i + 1, j));
        assert(t.subrange(i, j) =~= esc_str(s) + seq!['"']);
    }
}

// ---------------------------------------------------------------------
// Timestamps
// ---------------------------------------------------------------------
proof fn lemma_sp_ts_complete(t: Seq<char>, i: int, ts: Timestamp)
    requires
        ts.wf(),
        0 <= i,
        i + 20 <= t.len(),
        t.subrange(i, i + 20) == enc_ts(ts),
    ensures
        sp_ts(t, i) == Some((ts, i + 20)),
{
    let y = ts.year as nat;
    let mo = ts.month as nat;
    let d = ts.day as nat;
    let h = ts.hour as nat;
    let mi = ts.minute as nat;
    let se = ts.second as nat;
    lemma_padded_len(y, 4);
    lemma_padded_len(mo, 2);
    lemma_padded_len(d, 2);
    lemma_padded_len(h, 2);
    lemma_padded_len(mi, 2);
    lemma_padded_len(se, 2);
    let full = enc_ts(ts);
    assert(full.len() == 20);
    assert(full.subrange(0, 4) =~= padded(y, 4));
    assert(full[4] == '-');
    assert(full.subrange(5, 7) =~= padded(mo, 2));
    assert(full[7] == '-');
    assert(full.subrange(8, 10) =~= padded(d, 2));
    assert(full[10] == 'T');
    assert(full.subrange(11, 13) =~= padded(h, 2));
    assert(full[13] == ':');
    assert(full.subrange(14, 16) =~= padded(mi, 2));
    assert(full[16] == ':');
    assert(full.subrange(17, 19) =~= padded(se, 2));
    assert(full[19] == 'Z');
    lemma_chunk(t, i, full, 0, padded(y, 4));
    lemma_index_of_sub(t, i, full, 4);
    lemma_chunk(t, i, full, 5, padded(mo, 2));
    lemma_index_of_sub(t, i, full, 7);
    lemma_chunk(t, i, full, 8, padded(d, 2));
    lemma_index_of_sub(t, i, full, 10);
    lemma_chunk(t, i, full, 11, padded(h, 2));
    lemma_index_of_sub(t, i, full, 13);
    lemma_chunk(t, i, full, 14, padded(mi, 2));
    lemma_index_of_sub(t, i, full, 16);
    lemma_chunk(t, i, full, 17, padded(se, 2));
    lemma_index_of_sub(t, i, full, 19);
    lemma_sp_fixed4_complete(t, i, y);
    lemma_sp_fixed2_complete(t, i + 5, mo);
    lemma_sp_fixed2_complete(t, i + 8, d);
    lemma_sp_fixed2_complete(t, i + 11, h);
    lemma_sp_fixed2_complete(t, i + 14, mi);
    lemma_sp_fixed2_complete(t, i + 17, se);
    assert(sp_char(t, i + 4, '-') == Some(i + 5));
    assert(sp_char(t, i + 7, '-') == Some(i + 8));
    assert(sp_char(t, i + 10, 'T') == Some(i + 11));
    assert(sp_char(t, i + 13, ':') == Some(i + 14));
    assert(sp_char(t, i + 16, ':') == Some(i + 17));
    assert(sp_char(t, i + 19, 'Z') == Some(i + 20));
    assert(sp_ts(t, i) == Some((ts, i + 20)));
}

// ---------------------------------------------------------------------
// Lists
// ---------------------------------------------------------------------
proof fn lemma_sp_att_items_complete(t: Seq<char>, i: int, a: Seq<Seq<char>>)
    requires
        0 <= i,
        i + enc_att_items(a).len() + 1 <= t.len(),
        t.subrange(i, i + enc_att_items(a).len() + 1) == enc_att_items(a) + seq![']'],
    ensures
        sp_att_items(t, i) == Some((a, i + enc_att_items(a).len() + 1)),
    decreases a.len(),
{
    let full = enc_att_items(a) + seq![']'];
    if a.len() == 0 {
        assert(enc_att_items(a) == Seq::<char>::empty());
        lemma_index_of_sub(t, i, full, 0);
        assert(t[i] == ']');
        assert(a =~= Seq::<Seq<char>>::empty());
        assert(sp_att_items(t, i) == Some((a, i + 1)));
    } else {
        let a0 = a[0];
        let q0 = quoted(a0);
        let el = esc_str(a0).len() as int;
        assert(q0.len() == el + 2);
        assert(q0[0] == '"');
        if a.len() == 1 {
            assert(enc_att_items(a) == q0);
            lemma_index_of_sub(t, i, full, 0);
            assert(t[i] == q0[0]);
            assert(t[i] == '"');
            assert(full.subrange(1, el + 2) =~= esc_str(a0) + seq!['"']) by {
                assert forall|k: int| 0 <= k < el + 1 implies full.subrange(1, el + 2)[k]
                    == (esc_str(a0) + seq!['"'])[k] by {
                    assert(full.subrange(1, el + 2)[k] == full[1 + k]);
                    assert(q0[1 + k] == (esc_str(a0) + seq!['"'])[k]);
                }
            }
            lemma_chunk(t, i, full, 1, esc_str(a0) + seq!['"']);
            lemma_sp_string_complete(t, i + 1, a0);
            let j = i + el + 2;
            lemma_index_of_sub(t, i, full, el + 2);
            assert(t[j] == ']');
            assert(seq![a0] =~= a);
            assert(sp_att_more(t, i) == Some((a, j + 1)));
            assert(sp_att_items(t, i) == Some((a, i + enc_att_items(a).len() + 1)));
        } else {
            let rest = a.skip(1);
            assert(enc_att_items(a) == q0 + seq![','] + enc_att_items(rest));
            lemma_index_of_sub(t, i, full, 0);
            assert(t[i] == '"');
            assert(full.subrange(1, el + 2) =~= esc_str(a0) + seq!['"']) by {
                assert forall|k: int| 0 <= k < el + 1 implies full.subrange(1, el + 2)[k]
                    == (esc_str(a0) + seq!['"'])[k] by {
                    assert(full.subrange(1, el + 2)[k] == full[1 + k]);
                    assert(q0[1 + k] == (esc_str(a0) + seq!['"'])[k]);
                }
            }
            lemma_chunk(t, i, full, 1, esc_str(a0) + seq!['"']);
            lemma_sp_string_complete(t, i + 1, a0);
            let j = i + el + 2;
            lemma_index_of_sub(t, i, full, el + 2);
            assert(t[j] == ',');
            let roff: int = el + 3;
            let rlen = enc_att_items(rest).len() + 1 as int;
            assert(full.subrange(roff, roff + rlen) =~= enc_att_items(rest) + seq![']']) by {
                assert forall|k: int| 0 <= k < rlen implies full.subrange(roff, roff + rlen)[k]
                    == (enc_att_items(rest) + seq![']'])[k] by {
                    assert(full.subrange(roff, roff + rlen)[k] == full[roff + k]);
                }
            }
            lemma_chunk(t, i, full, roff, enc_att_items(rest) + seq![']']);
            lemma_sp_att_items_complete(t, i + roff, rest);
            assert(sp_att_items(t, i + roff) == Some((rest, i + roff + rlen)));
            assert(t[i + roff - 1] == ',');
            assert(i + roff - 1 == j);
            assert(sp_att_items(t, j + 1) == Some((rest, i + enc_att_items(a).len() + 1)));
            assert(t[i + roff] != ']' ==> sp_att_more(t, j + 1) == Some(
                (rest, i + enc_att_items(a).len() + 1),
            ));
            let rest0 = quoted(rest[0]);
            assert(enc_att_items(rest)[0] == '"') by {
                assert(rest.len() >= 1);
                assert(quoted(rest[0])[0] == '"');
                if rest.len() == 1 {
                    assert(enc_att_items(rest) == quoted(rest[0]));
                } else {
                    assert(enc_att_items(rest) == quoted(rest[0]) + seq![','] + enc_att_items(
                        rest.skip(1),
                    ));
                }
            }
            lemma_index_of_sub(t, i, full, roff);
            assert(t[i + roff] == '"');
            assert(sp_att_more(t, j + 1) == Some((rest, i + enc_att_items(a).len() + 1)));
            assert(seq![a0] + rest =~= a);
            assert(sp_att_more(t, i) == Some((a, i + enc_att_items(a).len() + 1)));
            assert(sp_att_items(t, i) == Some((a, i + enc_att_items(a).len() + 1)));
        }
    }
}

proof fn lemma_sp_att_items_sound(t: Seq<char>, i: int)
    requires
        sp_att_items(t, i) is Some,
    ensures
        ({
            let (a, j) = sp_att_items(t, i)->Some_0;
            &&& i < j <= t.len()
            &&& t.subrange(i, j) == enc_att_items(a) + seq![']']
        }),
    decreases t.len() - i,
{
    let (a, j) = sp_att_items(t, i)->Some_0;
    if 0 <= i < t.len() && t[i] == ']' {
        assert(a =~= Seq::<Seq<char>>::empty());
        assert(enc_att_items(a) == Seq::<char>::empty());
        assert(t.subrange(i, j) =~= seq![']']);
        assert(t.subrange(i, j) =~= enc_att_items(a) + seq![']']);
    } else {
        lemma_sp_att_more_advance(t, i);
        lemma_sp_string_sound(t, i + 1);
        let (s0, j0) = sp_string(t, i + 1)->Some_0;
        assert(t[i] == '"');
        assert(t.subrange(i + 1, j0) == esc_str(s0) + seq!['"']);
        assert(quoted(s0) == seq!['"'] + esc_str(s0) + seq!['"']);
        if t[j0] == ']' {
            assert(a =~= seq![s0] && j == j0 + 1);
            assert(a.len() == 1 && a[0] == s0);
            assert(enc_att_items(a) == quoted(s0));
            assert(t.subrange(i, j) =~= t.subrange(i, i + 1) + t.subrange(i + 1, j0)
                + t.subrange(j0, j));
            assert(t.subrange(i, i + 1) =~= seq![t[i]]);
            assert(t.subrange(j0, j) =~= seq![t[j0]]);
            assert(t.subrange(i, j) =~= enc_att_items(a) + seq![']']);
        } else {
            assert(t[j0] == ',');
            let rest_r = sp_att_more(t, j0 + 1);
            assert(rest_r is Some);
            lemma_sp_att_more_advance(t, j0 + 1);
            assert(t[j0 + 1] == '"');
            assert(sp_att_items(t, j0 + 1) == sp_att_more(t, j0 + 1));
            lemma_sp_att_items_sound(t, j0 + 1);
            let (rest, k) = rest_r->Some_0;
            assert(a == seq![s0] + rest && j == k);
            assert(t.subrange(j0 + 1, k) == enc_att_items(rest) + seq![']']);
            assert(rest.len() >= 1);
            assert(a.len() >= 2);
            assert(a[0] == s0);
            assert(a.skip(1) =~= rest);
            assert(enc_att_items(a) == quoted(a[0]) + seq![','] + enc_att_items(a.skip(1)));
            assert(t.subrange(i, j) =~= t.subrange(i, i + 1) + t.subrange(i + 1, j0)
                + t.subrange(j0, j0 + 1) + t.subrange(j0 + 1, j));
            assert(t.subrange(i, i + 1) =~= seq![t[i]]);
            assert(t.subrange(j0, j0 + 1) =~= seq![t[j0]]);
            assert(t.subrange(i, j) =~= enc_att_items(a) + seq![']']);
        }
    }
}

// ---------------------------------------------------------------------
// Messages, actions, entries
// ---------------------------------------------------------------------
#[verifier::rlimit(50)]
proof fn lemma_sp_msg_complete(t: Seq<char>, i: int, m: MessageV)
    requires
        0 <= i,
        i + enc_msg(m).len() <= t.len(),
        t.subrange(i, i + enc_msg(m).len()) == enc_msg(m),
    ensures
        sp_msg(t, i) == Some((m, i + enc_msg(m).len())),
{
    reveal_strlit("{\"id\":");
    reveal_strlit(",\"content\":");
    reveal_strlit(",\"content\":\"");
    reveal_strlit(",\"attachments\":[");
    reveal_strlit("]}");
    let full = enc_msg(m);
    let dl = dec_digits(m.id as nat).len() as int;
    let el = esc_str(m.content).len() as int;
    let al = enc_att_items(m.attachments).len() as int;
    let o2: int = 6 + dl;
    let o3: int = o2 + 11;
    let o4: int = o3 + el + 2;
    let o5: int = o4 + 16;
    let o6: int = o5 + al;
    assert(full.len() == o6 + 2);
    assert(",\"content\":"@ + seq!['"'] =~= ",\"content\":\""@);
    assert(full.subrange(0, 6) =~= "{\"id\":"@) by {
        assert forall|k: int| 0 <= k < 6 implies full.subrange(0, 6)[k] == "{\"id\":"@[k] by {
            assert(full.subrange(0, 6)[k] == full[k]);
        }
    }
    lemma_chunk(t, i, full, 0, "{\"id\":"@);
    assert(sp_lit(t, i, "{\"id\":"@) == Some(i + 6));
    assert(full.subrange(6, 6 + dl) =~= dec_digits(m.id as nat)) by {
        assert forall|k: int| 0 <= k < dl implies full.subrange(6, 6 + dl)[k] == dec_digits(
            m.id as nat,
        )[k] by {
            assert(full.subrange(6, 6 + dl)[k] == full[6 + k]);
        }
    }
    lemma_chunk(t, i, full, 6, dec_digits(m.id as nat));
    lemma_index_of_sub(t, i, full, o2);
    assert(full[o2] == ',');
    assert(!is_digit(t[i + o2]));
    lemma_sp_u64_complete(t, i + 6, m.id as nat);
    assert(sp_u64(t, i + 6) == Some((m.id as nat, i + o2)));
    assert(full.subrange(o2, o2 + 12) =~= ",\"content\":\""@) by {
        assert forall|k: int| 0 <= k < 12 implies full.subrange(o2, o2 + 12)[k]
            == ",\"content\":\""@[k] by {
            assert(full.subrange(o2, o2 + 12)[k] == full[o2 + k]);
            assert((",\"content\":"@ + seq!['"'])[k] == ",\"content\":\""@[k]);
            if k == 11 {
                assert(full[o2 + k] == quoted(m.content)[0]);
            }
        }
    }
    lemma_chunk(t, i, full, o2, ",\"content\":\""@);
    assert(sp_lit(t, i + o2, ",\"content\":\""@) == Some(i + o2 + 12));
    assert(full.subrange(o3 + 1, o4) =~= esc_str(m.content) + seq!['"']) by {
        assert forall|k: int| 0 <= k < el + 1 implies full.subrange(o3 + 1, o4)[k] == (esc_str(
            m.content,
        ) + seq!['"'])[k] by {
            assert(full.subrange(o3 + 1, o4)[k] == full[o3 + 1 + k]);
            assert(quoted(m.content)[1 + k] == (esc_str(m.content) + seq!['"'])[k]);
        }
    }
    lemma_chunk(t, i, full, o3 + 1, esc_str(m.content) + seq!['"']);
    lemma_sp_string_complete(t, i + o3 + 1, m.content);
    assert(sp_string(t, i + o3 + 1) == Some((m.content, i + o4)));
    assert(full.subrange(o4, o4 + 16) =~= ",\"attachments\":["@) by {
        assert forall|k: int| 0 <= k < 16 implies full.subrange(o4, o4 + 16)[k]
            == ",\"attachments\":["@[k] by {
            assert(full.subrange(o4, o4 + 16)[k] == full[o4 + k]);
        }
    }
    lemma_chunk(t, i, full, o4, ",\"attachments\":["@);
    assert(sp_lit(t, i + o4, ",\"attachments\":["@) == Some(i + o5));
    assert(full.subrange(o5, o6 + 1) =~= enc_att_items(m.attachments) + seq![']']) by {
        assert forall|k: int| 0 <= k < al + 1 implies full.subrange(o5, o6 + 1)[k]
            == (enc_att_items(m.attachments) + seq![']'])[k] by {
            assert(full.subrange(o5, o6 + 1)[k] == full[o5 + k]);
            if k == al {
                assert(full[o5 + k] == "]}"@[0]);
            }
        }
    }
    lemma_chunk(t, i, full, o5, enc_att_items(m.attachments) + seq![']']);
    lemma_sp_att_items_complete(t, i + o5, m.attachments);
    assert(sp_att_items(t, i + o5) == Some((m.attachments, i + o6 + 1)));
    lemma_index_of_sub(t, i, full, o6 + 1);
    assert(full[o6 + 1] == "]}"@[1]);
    assert(t[i + o6 + 1] == '}');
    assert(sp_char(t, i + o6 + 1, '}') == Some(i + o6 + 2));
    let got = MessageV { id: ((m.id as nat)) as u64, content: m.content, attachments: m.attachments };
    assert(got =~= m);
    assert(sp_msg(t, i) == Some((m, i + enc_msg(m).len())));
}

proof fn lemma_sp_msg_items_complete(t: Seq<char>, i: int, ms: Seq<MessageV>)
    requires
        0 <= i,
        i + enc_msg_items(ms).len() + 1 <= t.len(),
        t.subrange(i, i + enc_msg_items(ms).len() + 1) == enc_msg_items(ms) + seq![']'],
    ensures
        sp_msg_items(t, i) == Some((ms, i + enc_msg_items(ms).len() + 1)),
    decreases ms.len(),
{
    reveal_strlit("{\"id\":");
    let full = enc_msg_items(ms) + seq![']'];
    if ms.len() == 0 {
        assert(enc_msg_items(ms) == Seq::<char>::empty());
        lemma_index_of_sub(t, i, full, 0);
        assert(t[i] == ']');
        assert(ms =~= Seq::<MessageV>::empty());
        assert(sp_msg_items(t, i) == Some((ms, i + 1)));
    } else {
        let m0 = ms[0];
        let e0 = enc_msg(m0);
        let el = e0.len() as int;
        assert(e0[0] == "{\"id\":"@[0]);
        assert(e0[0] == '{');
        if ms.len() == 1 {
            assert(enc_msg_items(ms) == e0);
            lemma_index_of_sub(t, i, full, 0);
            assert(t[i] == '{');
            assert(full.subrange(0, el) =~= e0) by {
                assert forall|k: int| 0 <= k < el implies full.subrange(0, el)[k] == e0[k] by {
                    assert(full.subrange(0, el)[k] == full[k]);
                }
            }
            lemma_chunk(t, i, full, 0, e0);
            lemma_sp_msg_complete(t, i, m0);
            let j = i + el;
            lemma_index_of_sub(t, i, full, el);
            assert(t[j] == ']');
            assert(seq![m0] =~= ms);
            assert(sp_msg_more(t, i) == Some((ms, j + 1)));
            assert(sp_msg_items(t, i) == Some((ms, i + enc_msg_items(ms).len() + 1)));
        } else {
            let rest = ms.skip(1);
            assert(enc_msg_items(ms) == e0 + seq![','] + enc_msg_items(rest));
            lemma_index_of_sub(t, i, full, 0);
            assert(t[i] == '{');
            assert(full.subrange(0, el) =~= e0) by {
                assert forall|k: int| 0 <= k < el implies full.subrange(0, el)[k] == e0[k] by {
                    assert(full.subrange(0, el)[k] == full[k]);
                }
            }
            lemma_chunk(t, i, full, 0, e0);
            lemma_sp_msg_complete(t, i, m0);
            let j = i + el;
            lemma_index_of_sub(t, i, full, el);
            assert(t[j] == ',');
            let roff = el + 1;
            let rlen = enc_msg_items(rest).len() + 1 as int;
            assert(full.subrange(roff, roff + rlen) =~= enc_msg_items(rest) + seq![']']) by {
                assert forall|k: int| 0 <= k < rlen implies full.subrange(roff, roff + rlen)[k]
                    == (enc_msg_items(rest) + seq![']'])[k] by {
                    assert(full.subrange(roff, roff + rlen)[k] == full[roff + k]);
                }
            }
            lemma_chunk(t, i, full, roff, enc_msg_items(rest) + seq![']']);
            lemma_sp_msg_items_complete(t, i + roff, rest);
            assert(sp_msg_items(t, j + 1) == Some((rest, i + enc_msg_items(ms).len() + 1)));
            assert(enc_msg_items(rest)[0] == '{') by {
                assert(rest.len() >= 1);
                assert(enc_msg(rest[0])[0] == "{\"id\":"@[0]);
                if rest.len() == 1 {
                    assert(enc_msg_items(rest) == enc_msg(rest[0]));
                } else {
                    assert(enc_msg_items(rest) == enc_msg(rest[0]) + seq![','] + enc_msg_items(
                        rest.skip(1),
                    ));
                }
            }
            lemma_index_of_sub(t, i, full, roff);
            assert(t[i + roff] == '{');
            assert(sp_msg_more(t, j + 1) == Some((rest, i + enc_msg_items(ms).len() + 1)));
            assert(seq![m0] + rest =~= ms);
            assert(sp_msg_more(t, i) == Some((ms, i + enc_msg_items(ms).len() + 1)));
            assert(sp_msg_items(t, i) == Some((ms, i + enc_msg_items(ms).len() + 1)));
        }
    }
}

#[verifier::rlimit(60)]
proof fn lemma_sp_msg_sound(t: Seq<char>, i: int)
    requires
        sp_msg(t, i) is Some,
    ensures
        ({
            let (m, j) = sp_msg(t, i)->Some_0;
            &&& i < j <= t.len()
            &&& t.subrange(i, j) == enc_msg(m)
        }),
{
    reveal_strlit(",\"content\":");
    reveal_strlit(",\"content\":\"");
    reveal_strlit("]}");
    let (m, j) = sp_msg(t, i)->Some_0;
    lemma_sp_msg_advance(t, i);
    let i1 = sp_lit(t, i, "{\"id\":"@)->Some_0;
    let (idn, i2) = sp_u64(t, i1)->Some_0;
    let i3 = sp_lit(t, i2, ",\"content\":\""@)->Some_0;
    let (content, i4) = sp_string(t, i3)->Some_0;
    let i5 = sp_lit(t, i4, ",\"attachments\":["@)->Some_0;
    let (atts, i6) = sp_att_items(t, i5)->Some_0;
    lemma_sp_u64_sound(t, i1);
    lemma_sp_string_sound(t, i3);
    lemma_sp_att_items_sound(t, i5);
    assert(t.subrange(i, i1) == "{\"id\":"@);
    assert(t.subrange(i2, i3) == ",\"content\":\""@);
    assert(t.subrange(i4, i5) == ",\"attachments\":["@);
    assert(t[i6] == '}');
    assert(m.id as nat == idn);
    assert(m.content == content && m.attachments == atts);
    assert(",\"content\":"@ + seq!['"'] =~= ",\"content\":\""@);
    assert("]}"@ =~= seq![']', '}']);
    assert(t.subrange(i, j) =~= t.subrange(i, i1) + t.subrange(i1, i2) + t.subrange(i2, i3)
        + t.subrange(i3, i4) + t.subrange(i4, i5) + t.subrange(i5, i6) + t.subrange(i6, j));
    assert(t.subrange(i6, j) =~= seq!['}']);
    assert(enc_msg(m) =~= "{\"id\":"@ + dec_digits(idn) + ",\"content\":\""@ + (esc_str(content)
        + seq!['"']) + ",\"attachments\":["@ + (enc_att_items(atts) + seq![']']) + seq!['}']);
    assert(t.subrange(i, j) =~= enc_msg(m));
}

proof fn lemma_sp_msg_items_sound(t: Seq<char>, i: int)
    requires
        sp_msg_items(t, i) is Some,
    ensures
        ({
            let (ms, j) = sp_msg_items(t, i)->Some_0;
            &&& i < j <= t.len()
            &&& t.subrange(i, j) == enc_msg_items(ms) + seq![']']
        }),
    decreases t.len() - i,
{
    let (ms, j) = sp_msg_items(t, i)->Some_0;
    if 0 <= i < t.len() && t[i] == ']' {
        assert(ms =~= Seq::<MessageV>::empty());
        assert(enc_msg_items(ms) == Seq::<char>::empty());
        assert(t.subrange(i, j) =~= seq![']']);
        assert(t.subrange(i, j) =~= enc_msg_items(ms) + seq![']']);
    } else {
        lemma_sp_msg_more_advance(t, i);
        lemma_sp_msg_sound(t, i);
        let (m0, j0) = sp_msg(t, i)->Some_0;
        assert(t.subrange(i, j0) == enc_msg(m0));
        if t[j0] == ']' {
            assert(ms =~= seq![m0] && j == j0 + 1);
            assert(ms.len() == 1 && ms[0] == m0);
            assert(enc_msg_items(ms) == enc_msg(m0));
            assert(t.subrange(i, j) =~= t.subrange(i, j0) + t.subrange(j0, j));
            assert(t.subrange(j0, j) =~= seq![t[j0]]);
            assert(t.subrange(i, j) =~= enc_msg_items(ms) + seq![']']);
        } else {
            assert(t[j0] == ',');
            let rest_r = sp_msg_more(t, j0 + 1);
            assert(rest_r is Some);
            lemma_sp_msg_more_advance(t, j0 + 1);
            assert(sp_msg(t, j0 + 1) is Some);
            lemma_sp_msg_advance(t, j0 + 1);
            lemma_sp_msg_sound(t, j0 + 1);
            assert(t[j0 + 1] == enc_msg(sp_msg(t, j0 + 1)->Some_0.0)[0]) by {
                let (mr, jr) = sp_msg(t, j0 + 1)->Some_0;
                assert(t.subrange(j0 + 1, jr)[0] == t[j0 + 1]);
            }
            assert(t[j0 + 1] == '{') by {
                reveal_strlit("{\"id\":");
                let (mr, jr) = sp_msg(t, j0 + 1)->Some_0;
                assert(enc_msg(mr)[0] == "{\"id\":"@[0]);
            }
            assert(sp_msg_items(t, j0 + 1) == sp_msg_more(t, j0 + 1));
            lemma_sp_msg_items_sound(t, j0 + 1);
            let (rest, k) = rest_r->Some_0;
            assert(ms == seq![m0] + rest && j == k);
            assert(t.subrange(j0 + 1, k) == enc_msg_items(rest) + seq![']']);
            assert(rest.len() >= 1);
            assert(ms.len() >= 2);
            assert(ms[0] == m0);
            assert(ms.skip(1) =~= rest);
            assert(enc_msg_items(ms) == enc_msg(ms[0]) + seq![','] + enc_msg_items(ms.skip(1)));
            assert(t.subrange(i, j) =~= t.subrange(i, j0) + t.subrange(j0, j0 + 1) + t.subrange(
                j0 + 1,
                j,
            ));
            assert(t.subrange(j0, j0 + 1) =~= seq![t[j0]]);
            assert(t.subrange(i, j) =~= enc_msg_items(ms) + seq![']']);
        }
    }
}

#[verifier::rlimit(50)]
proof fn lemma_sp_action_complete(t: Seq<char>, i: int, act: ActionV)
    requires
        0 <= i,
        i + enc_action(act).len() <= t.len(),
        t.subrange(i, i + enc_action(act).len()) == enc_action(act),
    ensures
        sp_action(t, i) == Some((act, i + enc_action(act).len())),
{
    reveal_strlit("{\"DeleteMessage\":");
    reveal_strlit("{\"DeleteHour\":[");
    reveal_strlit("{\"Reason\":");
    reveal_strlit("{\"Reason\":\"");
    reveal_strlit("}");
    reveal_strlit("]}");
    let full = enc_action(act);
    match act {
        ActionV::DeleteMessage(m) => {
            let ml = enc_msg(m).len() as int;
            assert(full.len() == 17 + ml + 1);
            assert(full.subrange(0, 17) =~= "{\"DeleteMessage\":"@) by {
                assert forall|k: int| 0 <= k < 17 implies full.subrange(0, 17)[k]
                    == "{\"DeleteMessage\":"@[k] by {
                    assert(full.subrange(0, 17)[k] == full[k]);
                }
            }
            lemma_chunk(t, i, full, 0, "{\"DeleteMessage\":"@);
            assert(sp_lit(t, i, "{\"DeleteMessage\":"@) == Some(i + 17));
            assert(full.subrange(17, 17 + ml) =~= enc_msg(m)) by {
                assert forall|k: int| 0 <= k < ml implies full.subrange(17, 17 + ml)[k]
                    == enc_msg(m)[k] by {
                    assert(full.subrange(17, 17 + ml)[k] == full[17 + k]);
                }
            }
            lemma_chunk(t, i, full, 17, enc_msg(m));
            lemma_sp_msg_complete(t, i + 17, m);
            lemma_index_of_sub(t, i, full, 17 + ml);
            assert(full[17 + ml] == "}"@[0]);
            assert(t[i + 17 + ml] == '}');
            assert(sp_char(t, i + 17 + ml, '}') == Some(i + 17 + ml + 1));
            assert(sp_action(t, i) == Some((act, i + enc_action(act).len())));
        },
        ActionV::DeleteHour(ms) => {
            let ml = enc_msg_items(ms).len() as int;
            assert(full.len() == 15 + ml + 2);
            assert(sp_lit(t, i, "{\"DeleteMessage\":"@) is None) by {
                let ldm = "{\"DeleteMessage\":"@;
                if i + ldm.len() <= t.len() && t.subrange(i, i + ldm.len() as int) == ldm {
                    assert(t.subrange(i, i + ldm.len() as int)[8] == t[i + 8]);
                    lemma_index_of_sub(t, i, full, 8);
                    assert(full[8] == "{\"DeleteHour\":["@[8]);
                    assert(false);
                }
            }
            assert(full.subrange(0, 15) =~= "{\"DeleteHour\":["@) by {
                assert forall|k: int| 0 <= k < 15 implies full.subrange(0, 15)[k]
                    == "{\"DeleteHour\":["@[k] by {
                    assert(full.subrange(0, 15)[k] == full[k]);
                }
            }
            lemma_chunk(t, i, full, 0, "{\"DeleteHour\":["@);
            assert(sp_lit(t, i, "{\"DeleteHour\":["@) == Some(i + 15));
            assert(full.subrange(15, 15 + ml + 1) =~= enc_msg_items(ms) + seq![']']) by {
                assert forall|k: int| 0 <= k < ml + 1 implies full.subrange(15, 15 + ml + 1)[k]
                    == (enc_msg_items(ms) + seq![']'])[k] by {
                    assert(full.subrange(15, 15 + ml + 1)[k] == full[15 + k]);
                    if k == ml {
                        assert(full[15 + k] == "]}"@[0]);
                    }
                }
            }
            lemma_chunk(t, i, full, 15, enc_msg_items(ms) + seq![']']);
            lemma_sp_msg_items_complete(t, i + 15, ms);
            lemma_index_of_sub(t, i, full, 15 + ml + 1);
            assert(full[15 + ml + 1] == "]}"@[1]);
            assert(t[i + 15 + ml + 1] == '}');
            assert(sp_char(t, i + 15 + ml + 1, '}') == Some(i + 15 + ml + 2));
            assert(sp_action(t, i) == Some((act, i + enc_action(act).len())));
        },
        ActionV::Reason(s) => {
            let el = esc_str(s).len() as int;
            assert(full.len() == 10 + el + 2 + 1);
            assert(sp_lit(t, i, "{\"DeleteMessage\":"@) is None) by {
                let ldm = "{\"DeleteMessage\":"@;
                if i + ldm.len() <= t.len() && t.subrange(i, i + ldm.len() as int) == ldm {
                    assert(t.subrange(i, i + ldm.len() as int)[2] == t[i + 2]);
                    lemma_index_of_sub(t, i, full, 2);
                    assert(full[2] == "{\"Reason\":"@[2]);
                    assert(false);
                }
            }
            assert(sp_lit(t, i, "{\"DeleteHour\":["@) is None) by {
                let ldh = "{\"DeleteHour\":["@;
                if i + ldh.len() <= t.len() && t.subrange(i, i + ldh.len() as int) == ldh {
                    assert(t.subrange(i, i + ldh.len() as int)[2] == t[i + 2]);
                    lemma_index_of_sub(t, i, full, 2);
                    assert(full[2] == "{\"Reason\":"@[2]);
                    assert(false);
                }
            }
            assert("{\"Reason\":"@ + seq!['"'] =~= "{\"Reason\":\""@);
            assert(full.subrange(0, 11) =~= "{\"Reason\":\""@) by {
                assert forall|k: int| 0 <= k < 11 implies full.subrange(0, 11)[k]
                    == "{\"Reason\":\""@[k] by {
                    assert(full.subrange(0, 11)[k] == full[k]);
                    assert(("{\"Reason\":"@ + seq!['"'])[k] == "{\"Reason\":\""@[k]);
                    if k == 10 {
                        assert(full[k] == quoted(s)[0]);
                    }
                }
            }
            lemma_chunk(t, i, full, 0, "{\"Reason\":\""@);
            assert(sp_lit(t, i, "{\"Reason\":\""@) == Some(i + 11));
            assert(full.subrange(11, 11 + el + 1) =~= esc_str(s) + seq!['"']) by {
                assert forall|k: int| 0 <= k < el + 1 implies full.subrange(11, 11 + el + 1)[k]
                    == (esc_str(s) + seq!['"'])[k] by {
                    assert(full.subrange(11, 11 + el + 1)[k] == full[11 + k]);
                    assert(quoted(s)[1 + k] == (esc_str(s) + seq!['"'])[k]);
                }
            }
            lemma_chunk(t, i, full, 11, esc_str(s) + seq!['"']);
            lemma_sp_string_complete(t, i + 11, s);
            lemma_index_of_sub(t, i, full, 11 + el + 1);
            assert(full[11 + el + 1] == "}"@[0]);
            assert(t[i + 11 + el + 1] == '}');
            assert(sp_char(t, i + 11 + el + 1, '}') == Some(i + 11 + el + 2));
            assert(sp_action(t, i) == Some((act, i + enc_action(act).len())));
        },
    }
}

proof fn lemma_enc_ts_len(ts: Timestamp)
    ensures
        enc_ts(ts).len() == 20,
{
    lemma_padded_len(ts.year as nat, 4);
    lemma_padded_len(ts.month as nat, 2);
    lemma_padded_len(ts.day as nat, 2);
    lemma_padded_len(ts.hour as nat, 2);
    lemma_padded_len(ts.minute as nat, 2);
    lemma_padded_len(ts.second as nat, 2);
}

#[verifier::rlimit(100)]
proof fn lemma_entry_front(ev: EntryV)
    requires
        ev.wf(),
    ensures
        ({
            let t = enc_entry(ev);
            let o3 = 49int;
            let o4 = o3 + dec_digits(ev.channel_id as nat).len();
            let o5 = o4 + 16;
            let o6 = o5 + dec_digits(ev.moderator_id as nat).len();
            let o7 = o6 + 18;
            let o8 = o7 + esc_str(ev.moderator_name).len() + 2;
            &&& sp_lit(t, 0, "{\"timestamp\":\""@) == Some(14int)
            &&& sp_ts(t, 14) == Some((ev.timestamp, 34int))
            &&& sp_lit(t, 34, "\",\"channel_id\":"@) == Some(o3)
            &&& sp_u64(t, o3) == Some((ev.channel_id as nat, o4))
            &&& sp_lit(t, o4, ",\"moderator_id\":"@) == Some(o5)
            &&& sp_u64(t, o5) == Some((ev.moderator_id as nat, o6))
            &&& sp_lit(t, o6, ",\"moderator_name\":\""@) == Some(o7 + 1)
            &&& sp_string(t, o7 + 1) == Some((ev.moderator_name, o8))
        }),
{
    reveal_strlit("{\"timestamp\":\"");
    reveal_strlit("\",\"channel_id\":");
    reveal_strlit(",\"moderator_id\":");
    reveal_strlit(",\"moderator_name\":");
    reveal_strlit(",\"moderator_name\":\"");
    reveal_strlit(",\"moderator_discrim\":");
    reveal_strlit(",\"action\":");
    reveal_strlit("}");
    let t = enc_entry(ev);
    lemma_enc_ts_len(ev.timestamp);
    let dch = dec_digits(ev.channel_id as nat).len() as int;
    let dmid = dec_digits(ev.moderator_id as nat).len() as int;
    let en = esc_str(ev.moderator_name).len() as int;
    let ddisc = dec_digits(ev.moderator_discrim as nat).len() as int;
    let al = enc_action(ev.action).len() as int;
    let o2: int = 34;
    let o3: int = o2 + 15;
    let o4: int = o3 + dch;
    let o5: int = o4 + 16;
    let o6: int = o5 + dmid;
    let o7: int = o6 + 18;
    let o8: int = o7 + en + 2;
    let o9: int = o8 + 21;
    let o10: int = o9 + ddisc;
    let o11: int = o10 + 10;
    let o12: int = o11 + al;
    assert(t.len() == o12 + 1);
    assert(t.subrange(0, 14) =~= "{\"timestamp\":\""@) by {
        assert forall|k: int| 0 <= k < 14 implies t.subrange(0, 14)[k]
            == "{\"timestamp\":\""@[k] by {
            assert(t.subrange(0, 14)[k] == t[k]);
        }
    }
    assert(sp_lit(t, 0, "{\"timestamp\":\""@) == Some(14int));
    assert(t.subrange(14, 34) =~= enc_ts(ev.timestamp)) by {
        assert forall|k: int| 0 <= k < 20 implies t.subrange(14, 34)[k]
            == enc_ts(ev.timestamp)[k] by {
            assert(t.subrange(14, 34)[k] == t[14 + k]);
        }
    }
    lemma_sp_ts_complete(t, 14, ev.timestamp);
    assert(t.subrange(o2, o3) =~= "\",\"channel_id\":"@) by {
        assert forall|k: int| 0 <= k < 15 implies t.subrange(o2, o3)[k]
            == "\",\"channel_id\":"@[k] by {
            assert(t.subrange(o2, o3)[k] == t[o2 + k]);
        }
    }
    assert(sp_lit(t, o2, "\",\"channel_id\":"@) == Some(o3));
    assert(t.subrange(o3, o4) =~= dec_digits(ev.channel_id as nat)) by {
        assert forall|k: int| 0 <= k < dch implies t.subrange(o3, o4)[k] == dec_digits(
            ev.channel_id as nat,
        )[k] by {
            assert(t.subrange(o3, o4)[k] == t[o3 + k]);
        }
    }
    assert(t[o4] == ',');
    assert(!is_digit(t[o4]));
    lemma_sp_u64_complete(t, o3, ev.channel_id as nat);
    assert(t.subrange(o4, o5) =~= ",\"moderator_id\":"@) by {
        assert forall|k: int| 0 <= k < 16 implies t.subrange(o4, o5)[k]
            == ",\"moderator_id\":"@[k] by {
            assert(t.subrange(o4, o5)[k] == t[o4 + k]);
        }
    }
    assert(sp_lit(t, o4, ",\"moderator_id\":"@) == Some(o5));
    assert(t.subrange(o5, o6) =~= dec_digits(ev.moderator_id as nat)) by {
        assert forall|k: int| 0 <= k < dmid implies t.subrange(o5, o6)[k] == dec_digits(
            ev.moderator_id as nat,
        )[k] by {
            assert(t.subrange(o5, o6)[k] == t[o5 + k]);
        }
    }
    assert(t[o6] == ',');
    assert(!is_digit(t[o6]));
    lemma_sp_u64_complete(t, o5, ev.moderator_id as nat);
    assert(",\"moderator_name\":"@ + seq!['"'] =~= ",\"moderator_name\":\""@);
    assert(t.subrange(o6, o6 + 19) =~= ",\"moderator_name\":\""@) by {
        assert forall|k: int| 0 <= k < 19 implies t.subrange(o6, o6 + 19)[k]
            == ",\"moderator_name\":\""@[k] by {
            assert(t.subrange(o6, o6 + 19)[k] == t[o6 + k]);
            assert((",\"moderator_name\":"@ + seq!['"'])[k] == ",\"moderator_name\":\""@[k]);
            if k == 18 {
                assert(t[o6 + k] == quoted(ev.moderator_name)[0]);
            }
        }
    }
    assert(sp_lit(t, o6, ",\"moderator_name\":\""@) == Some(o7 + 1));
    assert(t.subrange(o7 + 1, o8) =~= esc_str(ev.moderator_name) + seq!['"']) by {
        assert forall|k: int| 0 <= k < en + 1 implies t.subrange(o7 + 1, o8)[k] == (esc_str(
            ev.moderator_name,
        ) + seq!['"'])[k] by {
            assert(t.subrange(o7 + 1, o8)[k] == t[o7 + 1 + k]);
            assert(quoted(ev.moderator_name)[1 + k] == (esc_str(ev.moderator_name)
                + seq!['"'])[k]);
        }
    }
    lemma_sp_string_complete(t, o7 + 1, ev.moderator_name);
    assert(sp_string(t, o7 + 1) == Some((ev.moderator_name, o8)));
}

#[verifier::rlimit(100)]
proof fn lemma_entry_back(ev: EntryV)
    requires
        ev.wf(),
    ensures
        ({
            let t = enc_entry(ev);
            let o8 = 49int + dec_digits(ev.channel_id as nat).len() + 16 + dec_digits(
                ev.moderator_id as nat,
            ).len() + 18 + esc_str(ev.moderator_name).len() + 2;
            let o9 = o8 + 21;
            let o10 = o9 + dec_digits(ev.moderator_discrim as nat).len();
            let o11 = o10 + 10;
            let o12 = o11 + enc_action(ev.action).len();
            &&& t.len() == o12 + 1
            &&& sp_lit(t, o8, ",\"moderator_discrim\":"@) == Some(o9)
            &&& sp_u64(t, o9) == Some((ev.moderator_discrim as nat, o10))
            &&& sp_lit(t, o10, ",\"action\":"@) == Some(o11)
            &&& sp_action(t, o11) == Some((ev.action, o12))
            &&& sp_char(t, o12, '}') == Some(o12 + 1)
        }),
{
    reveal_strlit("{\"timestamp\":\"");
    reveal_strlit("\",\"channel_id\":");
    reveal_strlit(",\"moderator_id\":");
    reveal_strlit(",\"moderator_name\":");
    reveal_strlit(",\"moderator_discrim\":");
    reveal_strlit(",\"action\":");
    reveal_strlit("}");
    let t = enc_entry(ev);
    lemma_enc_ts_len(ev.timestamp);
    let dch = dec_digits(ev.channel_id as nat).len() as int;
    let dmid = dec_digits(ev.moderator_id as nat).len() as int;
    let en = esc_str(ev.moderator_name).len() as int;
    let ddisc = dec_digits(ev.moderator_discrim as nat).len() as int;
    let al = enc_action(ev.action).len() as int;
    let o8: int = 49 + dch + 16 + dmid + 18 + en + 2;
    let o9: int = o8 + 21;
    let o10: int = o9 + ddisc;
    let o11: int = o10 + 10;
    let o12: int = o11 + al;
    assert(t.len() == o12 + 1);
    assert(t.subrange(o8, o9) =~= ",\"moderator_discrim\":"@) by {
        assert forall|k: int| 0 <= k < 21 implies t.subrange(o8, o9)[k]
            == ",\"moderator_discrim\":"@[k] by {
            assert(t.subrange(o8, o9)[k] == t[o8 + k]);
        }
    }
    assert(sp_lit(t, o8, ",\"moderator_discrim\":"@) == Some(o9));
    assert(t.subrange(o9, o10) =~= dec_digits(ev.moderator_discrim as nat)) by {
        assert forall|k: int| 0 <= k < ddisc implies t.subrange(o9, o10)[k] == dec_digits(
            ev.moderator_discrim as nat,
        )[k] by {
            assert(t.subrange(o9, o10)[k] == t[o9 + k]);
        }
    }
    assert(t[o10] == ',');
    assert(!is_digit(t[o10]));
    lemma_sp_u64_complete(t, o9, ev.moderator_discrim as nat);
    assert(t.subrange(o10, o11) =~= ",\"action\":"@) by {
        assert forall|k: int| 0 <= k < 10 implies t.subrange(o10, o11)[k]
            == ",\"action\":"@[k] by {
            assert(t.subrange(o10, o11)[k] == t[o10 + k]);
        }
    }
    assert(sp_lit(t, o10, ",\"action\":"@) == Some(o11));
    assert(t.subrange(o11, o12) =~= enc_action(ev.action)) by {
        assert forall|k: int| 0 <= k < al implies t.subrange(o11, o12)[k] == enc_action(
            ev.action,
        )[k] by {
            assert(t.subrange(o11, o12)[k] == t[o11 + k]);
        }
    }
    lemma_sp_action_complete(t, o11, ev.action);
    assert(t[o12] == "}"@[0]);
    assert(sp_char(t, o12, '}') == Some(o12 + 1));
}

#[verifier::rlimit(100)]
#[verifier::spinoff_prover]
proof fn lemma_sp_action_sound(t: Seq<char>, i: int)
    requires
        sp_action(t, i) is Some,
    ensures
        ({
            let (a, j) = sp_action(t, i)->Some_0;
            &&& i < j <= t.len()
            &&& t.subrange(i, j) == enc_action(a)
        }),
{
    reveal_strlit("}");
    reveal_strlit("]}");
    reveal_strlit("{\"Reason\":");
    reveal_strlit("{\"Reason\":\"");
    let (a, j) = sp_action(t, i)->Some_0;
    if sp_lit(t, i, "{\"DeleteMessage\":"@) is Some {
        let i1 = sp_lit(t, i, "{\"DeleteMessage\":"@)->Some_0;
        lemma_sp_msg_sound(t, i1);
        let (m, j1) = sp_msg(t, i1)->Some_0;
        assert(a == ActionV::DeleteMessage(m) && j == j1 + 1);
        assert(t.subrange(i, i1) == "{\"DeleteMessage\":"@);
        assert(t[j1] == '}');
        assert(t.subrange(i, j) =~= t.subrange(i, i1) + t.subrange(i1, j1) + t.subrange(j1, j));
        assert(t.subrange(j1, j) =~= seq![t[j1]]);
        assert(enc_action(a) =~= "{\"DeleteMessage\":"@ + enc_msg(m) + seq!['}']);
        assert(t.subrange(i, j) =~= enc_action(a));
    } else if sp_lit(t, i, "{\"DeleteHour\":["@) is Some {
        let i1 = sp_lit(t, i, "{\"DeleteHour\":["@)->Some_0;
        lemma_sp_msg_items_sound(t, i1);
        let (ms, j1) = sp_msg_items(t, i1)->Some_0;
        assert(a == ActionV::DeleteHour(ms) && j == j1 + 1);
        assert(t.subrange(i, i1) == "{\"DeleteHour\":["@);
        assert(t[j1] == '}');
        assert(t.subrange(i, j) =~= t.subrange(i, i1) + t.subrange(i1, j1) + t.subrange(j1, j));
        assert(t.subrange(j1, j) =~= seq![t[j1]]);
        assert("]}"@ =~= seq![']', '}']);
        assert(enc_action(a) =~= "{\"DeleteHour\":["@ + (enc_msg_items(ms) + seq![']'])
            + seq!['}']);
        assert(t.subrange(i, j) =~= enc_action(a));
    } else {
        let i1 = sp_lit(t, i, "{\"Reason\":\""@)->Some_0;
        lemma_sp_string_sound(t, i1);
        let (s, j1) = sp_string(t, i1)->Some_0;
        assert(a == ActionV::Reason(s) && j == j1 + 1);
        assert(t.subrange(i, i1) == "{\"Reason\":\""@);
        assert(t[j1] == '}');
        assert(t.subrange(i, j) =~= t.subrange(i, i1) + t.subrange(i1, j1) + t.subrange(j1, j));
        assert(t.subrange(j1, j) =~= seq![t[j1]]);
        assert("{\"Reason\":"@ + seq!['"'] =~= "{\"Reason\":\""@);
        assert(quoted(s) == seq!['"'] + esc_str(s) + seq!['"']);
        assert(enc_action(a) =~= "{\"Reason\":\""@ + (esc_str(s) + seq!['"']) + seq!['}']);
        assert(t.subrange(i, j) =~= enc_action(a));
    }
}

/// Gluing the consumed pieces of one parsed line back together: a text
/// that consists of the canonical pieces in order is the canonical
/// encoding of the assembled entry.
#[verifier::rlimit(100)]
proof fn lemma_entry_assemble(
    t: Seq<char>,
    i1: int,
    i2: int,
    i3: int,
    i4: int,
    i5: int,
    i6: int,
    i7: int,
    i8: int,
    i9: int,
    i10: int,
    i11: int,
    i12: int,
    ev: EntryV,
)
    requires
        0 <= i1 <= i2 <= i3 <= i4 <= i5 <= i6 <= i7 <= i8 <= i9 <= i10 <= i11 <= i12 < t.len(),
        i12 + 1 == t.len(),
        t.subrange(0, i1) == "{\"timestamp\":\""@,
        t.subrange(i1, i2) == enc_ts(ev.timestamp),
        t.subrange(i2, i3) == "\",\"channel_id\":"@,
        t.subrange(i3, i4) == dec_digits(ev.channel_id as nat),
        t.subrange(i4, i5) == ",\"moderator_id\":"@,
        t.subrange(i5, i6) == dec_digits(ev.moderator_id as nat),
        t.subrange(i6, i7) == ",\"moderator_name\":\""@,
        t.subrange(i7, i8) == esc_str(ev.moderator_name) + seq!['"'],
        t.subrange(i8, i9) == ",\"moderator_discrim\":"@,
        t.subrange(i9, i10) == dec_digits(ev.moderator_discrim as nat),
        t.subrange(i10, i11) == ",\"action\":"@,
        t.subrange(i11, i12) == enc_action(ev.action),
        t[i12] == '}',
    ensures
        t == enc_entry(ev),
{
    reveal_strlit(",\"moderator_name\":");
    reveal_strlit(",\"moderator_name\":\"");
    reveal_strlit("}");
    assert(t =~= t.subrange(0, t.len() as int));
    assert(t.subrange(0, t.len() as int) =~= t.subrange(0, i1) + t.subrange(i1, i2)
        + t.subrange(i2, i3) + t.subrange(i3, i4) + t.subrange(i4, i5) + t.subrange(i5, i6)
        + t.subrange(i6, i7) + t.subrange(i7, i8) + t.subrange(i8, i9) + t.subrange(i9, i10)
        + t.subrange(i10, i11) + t.subrange(i11, i12) + t.subrange(i12, t.len() as int));
    assert(t.subrange(i12, t.len() as int) =~= seq![t[i12]]);
    assert(",\"moderator_name\":"@ + seq!['"'] =~= ",\"moderator_name\":\""@);
    assert(quoted(ev.moderator_name) == seq!['"'] + esc_str(ev.moderator_name) + seq!['"']);
    assert(enc_entry(ev) =~= "{\"timestamp\":\""@ + enc_ts(ev.timestamp) + "\",\"channel_id\":"@
        + dec_digits(ev.channel_id as nat) + ",\"moderator_id\":"@ + dec_digits(
        ev.moderator_id as nat,
    ) + ",\"moderator_name\":\""@ + (esc_str(ev.moderator_name) + seq!['"'])
        + ",\"moderator_discrim\":"@ + dec_digits(ev.moderator_discrim as nat) + ",\"action\":"@
        + enc_action(ev.action) + seq!['}']);
    assert(t =~= enc_entry(ev));
}

/// Soundness of the parser: a line body it accepts is exactly the
/// canonical encoding of the entry it returns, which is well formed.
#[verifier::rlimit(100)]
pub proof fn lemma_wire_sound(t: Seq<char>)
    requires
        sp_entry(t) is Some,
    ensures
        sp_entry(t)->Some_0.wf(),
        t == enc_entry(sp_entry(t)->Some_0),
{
    reveal_strlit(",\"moderator_name\":");
    reveal_strlit(",\"moderator_name\":\"");
    reveal_strlit("}");
    let ev = sp_entry(t)->Some_0;
    let i1 = sp_lit(t, 0, "{\"timestamp\":\""@)->Some_0;
    let (ts, i2) = sp_ts(t, i1)->Some_0;
    let i3 = sp_lit(t, i2, "\",\"channel_id\":"@)->Some_0;
    let (ch, i4) = sp_u64(t, i3)->Some_0;
    let i5 = sp_lit(t, i4, ",\"moderator_id\":"@)->Some_0;
    let (mid, i6) = sp_u64(t, i5)->Some_0;
    let i7 = sp_lit(t, i6, ",\"moderator_name\":\""@)->Some_0;
    let (name, i8) = sp_string(t, i7)->Some_0;
    let i9 = sp_lit(t, i8, ",\"moderator_discrim\":"@)->Some_0;
    let (disc, i10) = sp_u64(t, i9)->Some_0;
    let i11 = sp_lit(t, i10, ",\"action\":"@)->Some_0;
    let (act, i12) = sp_action(t, i11)->Some_0;
    lemma_sp_ts_sound(t, i1);
    lemma_sp_u64_sound(t, i3);
    lemma_sp_u64_sound(t, i5);
    lemma_sp_string_sound(t, i7);
    lemma_sp_u64_sound(t, i9);
    lemma_sp_action_sound(t, i11);
    assert(ev.timestamp == ts && ev.action == act);
    assert(ev.channel_id as nat == ch);
    assert(ev.moderator_id as nat == mid);
    assert(ev.moderator_name == name);
    assert(ev.moderator_discrim as nat == disc);
    assert(ev.wf());
    assert(t[i12] == '}');
    assert(i12 + 1 == t.len());
    lemma_entry_assemble(t, i1, i2, i3, i4, i5, i6, i7, i8, i9, i10, i11, i12, ev);
}

/// Tag fidelity: decoding an encoded entry recovers the same action
/// variant with the same payload; a `DeleteHour` with no messages comes
/// back as an empty batch, not an absent field.
pub proof fn lemma_tag_fidelity(ev: EntryV)
    requires
        ev.wf(),
    ensures
        sp_entry(enc_entry(ev)) matches Some(e2) && e2.action == ev.action,
{
    lemma_wire_round_trip(ev);
}

/// A whole encoded line of the well-formed entry `ev` stands in `s` at
/// position `p`.
pub open spec fn line_at(s: Seq<char>, p: int, ev: EntryV) -> bool {
    &&& ev.wf()
    &&& 0 <= p
    &&& p + enc_line(ev).len() <= s.len()
    &&& s.subrange(p, p + enc_line(ev).len()) == enc_line(ev)
}

proof fn lemma_first_nl_found(s: Seq<char>, p: int, q: int)
    requires
        0 <= p <= q < s.len(),
        forall|k: int| p <= k < q ==> s[k] != '\n',
        s[q] == '\n',
    ensures
        first_nl(s, p) == q,
    decreases q - p,
{
    if p < q {
        lemma_first_nl_found(s, p + 1, q);
    }
}

/// What a reader finds when a whole encoded line stands at `p`: the
/// first newline is the line's terminator, the characters before it are
/// the encoded entry, and they parse back to the entry.
pub proof fn lemma_read_complete(s: Seq<char>, p: int, ev: EntryV)
    requires
        line_at(s, p, ev),
    ensures
        enc_line(ev).len() == enc_entry(ev).len() + 1,
        p + enc_entry(ev).len() < s.len(),
        first_nl(s, p) == p + enc_entry(ev).len(),
        s.subrange(p, p + enc_entry(ev).len()) == enc_entry(ev),
        sp_entry(s.subrange(p, p + enc_entry(ev).len())) == Some(ev),
{
    let el = enc_entry(ev).len() as int;
    let full = enc_line(ev);
    assert(full.len() == el + 1);
    crate::wire::lemma_enc_entry_nl_free(ev);
    assert forall|k: int| p <= k < p + el implies s[k] != '\n' by {
        lemma_index_of_sub(s, p, full, k - p);
        assert(full[k - p] == enc_entry(ev)[k - p]);
    }
    lemma_index_of_sub(s, p, full, el);
    assert(s[p + el] == '\n');
    lemma_first_nl_found(s, p, p + el);
    assert(s.subrange(p, p + el) =~= enc_entry(ev)) by {
        assert forall|k: int| 0 <= k < el implies s.subrange(p, p + el)[k] == enc_entry(ev)[k] by {
            lemma_index_of_sub(s, p, full, k);
            assert(s.subrange(p, p + el)[k] == s[p + k]);
        }
    }
    lemma_wire_round_trip(ev);
}

/// At the end of the source no line can stand.
pub proof fn lemma_no_line_at_end(s: Seq<char>, p: int)
    requires
        p == s.len(),
    ensures
        forall|ev: EntryV| !line_at(s, p, ev),
{
    assert forall|ev: EntryV| !line_at(s, p, ev) by {
        if line_at(s, p, ev) {
            lemma_read_complete(s, p, ev);
        }
    }
}

/// What holds when the parse of the extracted line succeeded: the line
/// is canonical, and it is the only entry line that stands at `p`.
pub proof fn lemma_read_ok(s: Seq<char>, p: int, line: Seq<char>, j: int, ent: EntryV)
    requires
        0 <= p <= j <= s.len(),
        j == first_nl(s, p),
        line == s.subrange(p, j),
        sp_entry(line) == Some(ent),
    ensures
        ent.wf(),
        line == enc_entry(ent),
        forall|ev: EntryV|
            #[trigger] line_at(s, p, ev) ==> ev == ent && j < s.len() && j + 1 == p + enc_line(
                ev,
            ).len(),
{
    lemma_wire_sound(line);
    assert forall|ev: EntryV| #[trigger] line_at(s, p, ev) implies ev == ent && j < s.len() && j
        + 1 == p + enc_line(ev).len() by {
        lemma_read_complete(s, p, ev);
        assert(j == p + enc_entry(ev).len());
        assert(line == enc_entry(ev));
        assert(sp_entry(line) == Some(ev));
    }
}

/// What holds when the parse of the extracted line failed: no entry
/// line stands at `p`.
pub proof fn lemma_read_err(s: Seq<char>, p: int, line: Seq<char>, j: int)
    requires
        0 <= p <= j <= s.len(),
        j == first_nl(s, p),
        line == s.subrange(p, j),
        sp_entry(line) is None,
    ensures
        forall|ev: EntryV| !line_at(s, p, ev),
{
    assert forall|ev: EntryV| !line_at(s, p, ev) by {
        if line_at(s, p, ev) {
            lemma_read_complete(s, p, ev);
            assert(j == p + enc_entry(ev).len());
            assert(line == enc_entry(ev));
            assert(sp_entry(line) == Some(ev));
        }
    }
}

/// Line framing: two entries written in sequence stand as two whole
/// newline-terminated lines, each of which a reader finds on its own.
pub proof fn lemma_two_lines(a: EntryV, b: EntryV, s: Seq<char>)
    requires
        a.wf(),
        b.wf(),
        s == enc_line(a) + enc_line(b),
    ensures
        line_at(s, 0, a),
        line_at(s, enc_line(a).len() as int, b),
{
    let la = enc_line(a).len() as int;
    let lb = enc_line(b).len() as int;
    assert(s.subrange(0, la) =~= enc_line(a));
    assert(s.subrange(la, la + lb) =~= enc_line(b));
}

/// The round-trip law of the wire format: a well-formed entry's encoded
/// line body parses back to exactly that entry.
pub proof fn lemma_wire_round_trip(ev: EntryV)
    requires
        ev.wf(),
    ensures
        sp_entry(enc_entry(ev)) == Some(ev),
{
    let t = enc_entry(ev);
    lemma_entry_front(ev);
    lemma_entry_back(ev);
    assert(ev.moderator_discrim as nat <= 0xffff);
    let got = EntryV {
        timestamp: ev.timestamp,
        channel_id: ((ev.channel_id as nat)) as u64,
        moderator_id: ((ev.moderator_id as nat)) as u64,
        moderator_name: ev.moderator_name,
        moderator_discrim: ((ev.moderator_discrim as nat)) as u16,
        action: ev.action,
    };
    assert(got =~= ev);
    assert(sp_entry(t) == Some(ev));
}

} // verus!
