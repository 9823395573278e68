use vstd::prelude::*;

use crate::encode::dec_digits;
use crate::encode::digit_char;
use crate::encode::digit_val;
use crate::encode::encode_task;
use crate::encode::encode_tasks;
use crate::encode::encode_tasks_rest;
use crate::encode::escape_char;
use crate::encode::escape_str;
use crate::encode::is_digit;
use crate::encode::lit_created_at;
use crate::encode::lit_task_open;
use crate::parse::sp_digits;
use crate::parse::sp_lit;
use crate::parse::sp_strbody;
use crate::parse::sp_task;
use crate::parse::sp_tasks;
use crate::parse::sp_tasks_rest;
use crate::parse::sp_u64;
use crate::task::TaskView;

verus! {

// Proof that the store reads back what it writes: parsing the canonical
// form of any task list yields exactly that list.  The lemmas walk the
// grammar piece by piece; `lemma_store_round_trip` at the end is the law.

/// Powers of ten.
spec fn pow10(k: nat) -> int
    decreases k,
{
    if k == 0 {
        1
    } else {
        10 * pow10((k - 1) as nat)
    }
}

/// The value read from a digit run, starting from the running value `acc`.
spec fn seq_val(ds: Seq<char>, acc: int) -> int
    decreases ds.len(),
{
    if ds.len() == 0 {
        acc
    } else {
        seq_val(ds.skip(1), acc * 10 + digit_val(ds[0]))
    }
}

/// A digit character reads back as its own value.
proof fn lemma_digit_char_val(d: nat)
    requires
        d < 10,
    ensures
        is_digit(digit_char(d)),
        digit_val(digit_char(d)) == d,
{
}

/// Reading one more digit multiplies the value read so far by ten.
proof fn lemma_seq_val_snoc(ds: Seq<char>, c: char, acc: int)
    ensures
        seq_val(ds + seq![c], acc) == seq_val(ds, acc) * 10 + digit_val(c),
    decreases ds.len(),
{
    if ds.len() == 0 {
        assert(ds + seq![c] =~= seq![c]);
        assert(seq![c].skip(1) =~= Seq::<char>::empty());
        assert(seq_val(Seq::<char>::empty(), acc * 10 + digit_val(c) as int) == acc * 10
            + digit_val(c));
        assert(seq_val(seq![c], acc) == acc * 10 + digit_val(c));
    } else {
        assert((ds + seq![c])[0] == ds[0]);
        assert((ds + seq![c]).skip(1) =~= ds.skip(1) + seq![c]);
        lemma_seq_val_snoc(ds.skip(1), c, acc * 10 + digit_val(ds[0]));
    }
}

/// The digits written for `n` read back as `n`, shifted past whatever was
/// read before them; and they are all digits.
proof fn lemma_dec_digits_val(n: nat, acc: int)
    ensures
        seq_val(dec_digits(n), acc) == acc * pow10(dec_digits(n).len() as nat) + n,
        dec_digits(n).len() >= 1,
        forall|k: int| 0 <= k < dec_digits(n).len() ==> is_digit(#[trigger] dec_digits(n)[k]),
    decreases n,
{
    if n < 10 {
        lemma_digit_char_val(n);
        assert(seq![digit_char(n)].skip(1) =~= Seq::<char>::empty());
        assert(seq_val(Seq::<char>::empty(), acc * 10 + n) == acc * 10 + n);
        assert(seq_val(dec_digits(n), acc) == acc * 10 + n);
        assert(pow10(0) == 1);
        assert(pow10(1) == 10);
    } else {
        lemma_dec_digits_val(n / 10, acc);
        lemma_digit_char_val(n % 10);
        lemma_seq_val_snoc(dec_digits(n / 10), digit_char(n % 10), acc);
        let p = pow10(dec_digits(n / 10).len() as nat);
        let q = n / 10;
        let r = n % 10;
        assert(dec_digits(n).len() == dec_digits(n / 10).len() + 1);
        assert(pow10(dec_digits(n).len() as nat) == 10 * p);
        assert(n == 10 * q + r);
        assert((acc * p + q) * 10 + r == acc * (10 * p) + (10 * q + r)) by (nonlinear_arith);
        assert(seq_val(dec_digits(n), acc) == acc * pow10(dec_digits(n).len() as nat) + n);
        assert(forall|k: int|
            0 <= k < dec_digits(n).len() ==> is_digit(#[trigger] dec_digits(n)[k]));
    }
}

/// The value read from a digit run never falls below its starting value.
proof fn lemma_seq_val_lb(ds: Seq<char>, acc: int)
    requires
        acc >= 0,
    ensures
        seq_val(ds, acc) >= acc,
    decreases ds.len(),
{
    if ds.len() > 0 {
        lemma_seq_val_lb(ds.skip(1), acc * 10 + digit_val(ds[0]));
    }
}

/// Reading a run of digits followed by a non-digit yields the run's value
/// and stops right after the run.
proof fn lemma_sp_digits_run(ds: Seq<char>, rest: Seq<char>, acc: u64)
    requires
        forall|k: int| 0 <= k < ds.len() ==> is_digit(#[trigger] ds[k]),
        rest.len() == 0 || !is_digit(rest[0]),
        seq_val(ds, acc as int) <= u64::MAX,
    ensures
        sp_digits(ds + rest, acc) == Some(((seq_val(ds, acc as int) as u64), rest)),
    decreases ds.len(),
{
    if ds.len() == 0 {
        assert(ds + rest =~= rest);
    } else {
        assert((ds + rest)[0] == ds[0]);
        let d = digit_val(ds[0]);
        lemma_seq_val_lb(ds.skip(1), acc * 10 + d);
        assert((ds + rest).skip(1) =~= ds.skip(1) + rest);
        lemma_sp_digits_run(ds.skip(1), rest, (acc * 10 + d) as u64);
    }
}

/// The timestamp written for `n`, followed by a non-digit, reads back as
/// `n`.
proof fn lemma_sp_u64_complete(n: u64, rest: Seq<char>)
    requires
        rest.len() == 0 || !is_digit(rest[0]),
    ensures
        sp_u64(dec_digits(n as nat) + rest) == Some((n, rest)),
{
    lemma_dec_digits_val(n as nat, 0);
    assert((dec_digits(n as nat) + rest)[0] == dec_digits(n as nat)[0]);
    lemma_sp_digits_run(dec_digits(n as nat), rest, 0);
    assert(seq_val(dec_digits(n as nat), 0) == n);
}

/// Fixed characters read back off the front of what they lead.
proof fn lemma_sp_lit_prefix(lit: Seq<char>, rest: Seq<char>)
    ensures
        sp_lit(lit + rest, lit) == Some(rest),
{
    assert((lit + rest).subrange(0, lit.len() as int) =~= lit);
    assert((lit + rest).skip(lit.len() as int) =~= rest);
}

/// An escaped text with its closing quote reads back as the text itself.
proof fn lemma_strbody_complete(text: Seq<char>, acc: Seq<char>, rest: Seq<char>)
    ensures
        sp_strbody(escape_str(text) + seq!['"'] + rest, acc) == Some((acc + text, rest)),
    decreases text.len(),
{
    let s = escape_str(text) + seq!['"'] + rest;
    if text.len() == 0 {
        assert(escape_str(text) == Seq::<char>::empty());
        assert(s =~= seq!['"'] + rest);
        assert(s[0] == '"');
        assert(s.skip(1) =~= rest);
        assert(acc + text =~= acc);
    } else {
        let c = text[0];
        let t2 = text.skip(1);
        assert(escape_str(text) == escape_char(c) + escape_str(t2));
        let s2 = escape_str(t2) + seq!['"'] + rest;
        lemma_strbody_complete(t2, acc.push(c), rest);
        assert(acc.push(c) + t2 =~= acc + text);
        if c == '"' {
            assert(s =~= seq!['\\', '"'] + s2);
            assert(s[0] == '\\');
            assert(s[1] == '"');
            assert(s.skip(2) =~= s2);
        } else if c == '\\' {
            assert(s =~= seq!['\\', '\\'] + s2);
            assert(s[0] == '\\');
            assert(s[1] == '\\');
            assert(s.skip(2) =~= s2);
        } else {
            assert(s =~= seq![c] + s2);
            assert(s[0] == c);
            assert(s.skip(1) =~= s2);
        }
    }
}

/// One encoded task record reads back as the task it was written for.
proof fn lemma_task_complete(t: TaskView, rest: Seq<char>)
    ensures
        sp_task(encode_task(t) + rest) == Some((t, rest)),
{
    let s = encode_task(t) + rest;
    let dd = dec_digits(t.created_at as nat);
    let after_text = lit_created_at() + dd + seq!['}'] + rest;
    let r1 = escape_str(t.text) + seq!['"'] + after_text;
    assert(s =~= lit_task_open() + r1);
    lemma_sp_lit_prefix(lit_task_open(), r1);
    lemma_strbody_complete(t.text, Seq::empty(), after_text);
    assert(Seq::<char>::empty() + t.text =~= t.text);
    let r3 = dd + (seq!['}'] + rest);
    assert(after_text =~= lit_created_at() + r3);
    lemma_sp_lit_prefix(lit_created_at(), r3);
    lemma_sp_u64_complete(t.created_at, seq!['}'] + rest);
    assert((seq!['}'] + rest)[0] == '}');
    assert(!is_digit('}'));
    lemma_sp_lit_prefix(seq!['}'], rest);
    assert(sp_task(s) == Some((t, rest)));
}

/// The encoded tail of a list reads back as the tasks it was written for,
/// appended to whatever was read before it, consuming everything.
proof fn lemma_rest_complete(ts: Seq<TaskView>, acc: Seq<TaskView>)
    ensures
        sp_tasks_rest(encode_tasks_rest(ts), acc) == Some((acc + ts, Seq::<char>::empty())),
    decreases ts.len(),
{
    let s = encode_tasks_rest(ts);
    if ts.len() == 0 {
        assert(s == seq![']']);
        assert(s[0] == ']');
        assert(s.skip(1) =~= Seq::<char>::empty());
        assert(acc + ts =~= acc);
    } else {
        let e = encode_task(ts[0]);
        let r = encode_tasks_rest(ts.skip(1));
        assert(s == seq![','] + e + r);
        assert(s[0] == ',');
        assert(s.skip(1) =~= e + r);
        lemma_task_complete(ts[0], r);
        assert(s.len() > r.len());
        lemma_rest_complete(ts.skip(1), acc.push(ts[0]));
        assert(acc.push(ts[0]) + ts.skip(1) =~= acc + ts);
    }
}

/// Round trip: the content written for any task list reads back as exactly
/// that list — same order, same text, same timestamp to the second.
pub proof fn lemma_store_round_trip(ts: Seq<TaskView>)
    ensures
        sp_tasks(encode_tasks(ts)) == Some(ts),
{
    let s = encode_tasks(ts);
    if ts.len() == 0 {
        assert(s == seq!['[', ']']);
        assert(s =~= seq!['['] + seq![']']);
        lemma_sp_lit_prefix(seq!['['], seq![']']);
        assert(seq![']'][0] == ']');
        assert(seq![']'].skip(1) =~= Seq::<char>::empty());
        assert(sp_tasks(s) == Some(Seq::<TaskView>::empty()));
        assert(ts =~= Seq::<TaskView>::empty());
    } else {
        let e = encode_task(ts[0]);
        let r = encode_tasks_rest(ts.skip(1));
        assert(s == seq!['['] + e + r);
        assert(s =~= seq!['['] + (e + r));
        lemma_sp_lit_prefix(seq!['['], e + r);
        assert(e[0] == lit_task_open()[0]);
        assert((e + r)[0] == '{');
        lemma_task_complete(ts[0], r);
        lemma_rest_complete(ts.skip(1), seq![ts[0]]);
        assert(seq![ts[0]] + ts.skip(1) =~= ts);
        assert(sp_tasks(s) == Some(ts));
    }
}

} // verus!
