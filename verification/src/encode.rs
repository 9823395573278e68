use vstd::prelude::*;

use crate::task::Task;
use crate::task::TaskView;
use crate::task::views;

verus! {

// The journal file holds the task list in one canonical text form:
//
//     [{"text":"...","created_at":N},{"text":"...","created_at":N}]
//
// with no whitespace, the fields always in this order, `"` and `\` in the
// text written as `\"` and `\\`, every other character written as itself,
// and N the creation time in decimal with no leading zeros.  An empty list
// is written `[]`.  The spec functions here define that form exactly; the
// executable encoder below is proved to produce it.

/// Whether a character is a decimal digit.
pub open spec fn is_digit(c: char) -> bool {
    48 <= c as u32 && c as u32 <= 57
}

/// Numeric value of a decimal digit character.
pub open spec fn digit_val(c: char) -> nat {
    (c as u32 - 48) as nat
}

/// The decimal digit character for a value below ten.
pub open spec fn digit_char(d: nat) -> char {
    if d == 0 {
        '0'
    } else if d == 1 {
        '1'
    } else if d == 2 {
        '2'
    } else if d == 3 {
        '3'
    } else if d == 4 {
        '4'
    } else if d == 5 {
        '5'
    } else if d == 6 {
        '6'
    } else if d == 7 {
        '7'
    } else if d == 8 {
        '8'
    } else {
        '9'
    }
}

/// Decimal digits of a number, most significant first, no leading zeros.
pub open spec fn dec_digits(n: nat) -> Seq<char>
    decreases n,
{
    if n < 10 {
        seq![digit_char(n)]
    } else {
        dec_digits(n / 10) + seq![digit_char(n % 10)]
    }
}

/// How one character of task text is written: `"` and `\` get a leading
/// backslash, every other character stands for itself.
pub open spec fn escape_char(c: char) -> Seq<char> {
    if c == '"' {
        seq!['\\', '"']
    } else if c == '\\' {
        seq!['\\', '\\']
    } else {
        seq![c]
    }
}

/// The escaped form of a whole task text.
pub open spec fn escape_str(s: Seq<char>) -> Seq<char>
    decreases s.len(),
{
    if s.len() == 0 {
        Seq::empty()
    } else {
        escape_char(s[0]) + escape_str(s.skip(1))
    }
}

/// The characters that open a task record, up to the start of its text.
pub open spec fn lit_task_open() -> Seq<char> {
    seq!['{', '"', 't', 'e', 'x', 't', '"', ':', '"']
}

/// The characters between the text's closing quote and its timestamp.
pub open spec fn lit_created_at() -> Seq<char> {
    seq![',', '"', 'c', 'r', 'e', 'a', 't', 'e', 'd', '_', 'a', 't', '"', ':']
}

/// The canonical form of one task record.
pub open spec fn encode_task(t: TaskView) -> Seq<char> {
    lit_task_open() + escape_str(t.text) + seq!['"'] + lit_created_at() + dec_digits(
        t.created_at as nat,
    ) + seq!['}']
}

/// The canonical form of the tail of a task list: each further task led by
/// a comma, then the closing bracket.
pub open spec fn encode_tasks_rest(ts: Seq<TaskView>) -> Seq<char>
    decreases ts.len(),
{
    if ts.len() == 0 {
        seq![']']
    } else {
        seq![','] + encode_task(ts[0]) + encode_tasks_rest(ts.skip(1))
    }
}

/// The canonical form of a whole task list.
pub open spec fn encode_tasks(ts: Seq<TaskView>) -> Seq<char> {
    if ts.len() == 0 {
        seq!['[', ']']
    } else {
        seq!['['] + encode_task(ts[0]) + encode_tasks_rest(ts.skip(1))
    }
}

/// Relies on String::push, which appends the given character to the end of
/// the string.
pub assume_specification[ String::push ](s: &mut String, ch: char)
    ensures
        final(s)@ == old(s)@.push(ch),
;

/// The decimal digit character for a value below ten.
fn digit_of(d: u64) -> (c: char)
    requires
        d < 10,
    ensures
        c == digit_char(d as nat),
{
    if d == 0 {
        '0'
    } else if d == 1 {
        '1'
    } else if d == 2 {
        '2'
    } else if d == 3 {
        '3'
    } else if d == 4 {
        '4'
    } else if d == 5 {
        '5'
    } else if d == 6 {
        '6'
    } else if d == 7 {
        '7'
    } else if d == 8 {
        '8'
    } else {
        '9'
    }
}

/// Appends the decimal digits of `n` to `out`.
fn push_u64(out: &mut String, n: u64)
    ensures
        final(out)@ == old(out)@ + dec_digits(n as nat),
    decreases n,
{
    if n < 10 {
        out.push(digit_of(n));
        proof {
            assert(old(out)@.push(digit_char(n as nat)) =~= old(out)@ + dec_digits(n as nat));
        }
    } else {
        push_u64(out, n / 10);
        out.push(digit_of(n % 10));
        proof {
            assert((old(out)@ + dec_digits((n / 10) as nat)).push(digit_char((n % 10) as nat))
                =~= old(out)@ + dec_digits(n as nat));
        }
    }
}

/// `escape_str` over a text grown by one character.
proof fn lemma_escape_str_snoc(s: Seq<char>, c: char)
    ensures
        escape_str(s.push(c)) == escape_str(s) + escape_char(c),
    decreases s.len(),
{
    if s.len() == 0 {
        assert(s.push(c)[0] == c);
        assert(s.push(c).skip(1) =~= Seq::<char>::empty());
        assert(escape_str(Seq::<char>::empty()) == Seq::<char>::empty());
        assert(escape_str(s.push(c)) == escape_char(c) + escape_str(Seq::<char>::empty()));
        assert(escape_char(c) + Seq::<char>::empty() =~= escape_char(c));
        assert(Seq::<char>::empty() + escape_char(c) =~= escape_char(c));
    } else {
        assert(s.push(c)[0] == s[0]);
        assert(s.push(c).skip(1) =~= s.skip(1).push(c));
        lemma_escape_str_snoc(s.skip(1), c);
        assert(escape_str(s.push(c)) == escape_char(s[0]) + (escape_str(s.skip(1))
            + escape_char(c)));
        assert(escape_char(s[0]) + (escape_str(s.skip(1)) + escape_char(c)) =~= (escape_char(s[0])
            + escape_str(s.skip(1))) + escape_char(c));
        assert(escape_str(s) == escape_char(s[0]) + escape_str(s.skip(1)));
    }
}

/// Appends the escaped form of `s` to `out`.
fn push_escaped(out: &mut String, s: &str)
    ensures
        final(out)@ == old(out)@ + escape_str(s@),
{
    let n = s.unicode_len();
    let mut i: usize = 0;
    proof {
        assert(s@.subrange(0, 0) =~= Seq::<char>::empty());
        assert(old(out)@ + escape_str(s@.subrange(0, 0)) =~= old(out)@);
    }
    while i < n
        invariant
            i <= n,
            n == s@.len(),
            out@ == old(out)@ + escape_str(s@.subrange(0, i as int)),
        decreases n - i,
    {
        let c = s.get_char(i);
        if c == '"' {
            out.push('\\');
            out.push('"');
        } else if c == '\\' {
            out.push('\\');
            out.push('\\');
        } else {
            out.push(c);
        }
        proof {
            assert(s@.subrange(0, i + 1) =~= s@.subrange(0, i as int).push(s@[i as int]));
            lemma_escape_str_snoc(s@.subrange(0, i as int), s@[i as int]);
            assert(out@ =~= old(out)@ + escape_str(s@.subrange(0, i + 1)));
        }
        i = i + 1;
    }
    proof {
        assert(s@.subrange(0, n as int) =~= s@);
    }
}

/// Appends the canonical form of one task record to `out`.
fn push_task(out: &mut String, t: &Task)
    ensures
        final(out)@ == old(out)@ + encode_task(t@),
{
    out.append("{\"text\":\"");
    push_escaped(out, t.text.as_str());
    out.append("\",\"created_at\":");
    push_u64(out, t.created_at);
    out.append("}");
    proof {
        reveal_strlit("{\"text\":\"");
        reveal_strlit("\",\"created_at\":");
        reveal_strlit("}");
        assert("{\"text\":\""@ =~= lit_task_open());
        assert("\",\"created_at\":"@ =~= seq!['"'] + lit_created_at());
        assert("}"@ =~= seq!['}']);
        assert(out@ =~= old(out)@ + encode_task(t@));
    }
}

/// Writes the whole task list in the journal file's canonical form: the
/// file content that stands for exactly the given tasks.
pub fn persist_tasks(tasks: &Vec<Task>) -> (r: String)
    ensures
        r@ == encode_tasks(views(tasks@)),
{
    let mut out = String::new();
    if tasks.len() == 0 {
        out.append("[]");
        proof {
            reveal_strlit("[]");
            assert(views(tasks@).len() == 0);
            assert(out@ =~= encode_tasks(views(tasks@)));
        }
        return out;
    }
    out.append("[");
    push_task(&mut out, &tasks[0]);
    proof {
        reveal_strlit("[");
        assert("["@ =~= seq!['[']);
        assert(views(tasks@)[0] == tasks@[0]@);
        assert(out@ =~= seq!['['] + encode_task(views(tasks@)[0]));
    }
    let ghost vs = views(tasks@);
    let mut i: usize = 1;
    proof {
        assert(vs.len() == tasks@.len());
    }
    while i < tasks.len()
        invariant
            1 <= i <= tasks.len(),
            vs == views(tasks@),
            vs.len() == tasks@.len(),
            encode_tasks(vs) == out@ + encode_tasks_rest(vs.skip(i as int)),
        decreases tasks.len() - i,
    {
        out.append(",");
        push_task(&mut out, &tasks[i]);
        proof {
            reveal_strlit(",");
            assert(","@ =~= seq![',']);
            assert(vs.skip(i as int)[0] == tasks@[i as int]@);
            assert(vs.skip(i as int).skip(1) =~= vs.skip(i + 1));
            assert(encode_tasks_rest(vs.skip(i as int)) == seq![','] + encode_task(
                tasks@[i as int]@,
            ) + encode_tasks_rest(vs.skip(i + 1)));
            assert(encode_tasks(vs) =~= out@ + encode_tasks_rest(vs.skip(i + 1)));
        }
        i = i + 1;
    }
    out.append("]");
    proof {
        reveal_strlit("]");
        assert("]"@ =~= seq![']']);
        assert(vs.skip(tasks@.len() as int) =~= Seq::<TaskView>::empty());
        assert(encode_tasks_rest(vs.skip(tasks@.len() as int)) == seq![']']);
        assert(out@ =~= encode_tasks(views(tasks@)));
    }
    out
}

} // verus!
