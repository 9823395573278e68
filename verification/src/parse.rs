use vstd::prelude::*;

use crate::encode::digit_val;
use crate::encode::is_digit;
use crate::encode::lit_created_at;
use crate::encode::lit_task_open;
use crate::task::Task;
use crate::task::TaskView;
use crate::task::views;

verus! {

// The spec functions here define which file contents stand for a task list
// and for which one: a recursive descent over the canonical form described
// in `encode`.  Each takes the characters still to be read and yields the
// value read and the characters after it, or nothing where the content does
// not fit the form.  The executable parser below is proved to agree with
// them exactly.

/// Reads the fixed characters `lit` off the front of `s`.
pub open spec fn sp_lit(s: Seq<char>, lit: Seq<char>) -> Option<Seq<char>> {
    if lit.len() <= s.len() && s.subrange(0, lit.len() as int) == lit {
        Some(s.skip(lit.len() as int))
    } else {
        None
    }
}

/// Reads a task text up to and including its closing quote, undoing the
/// escapes; `acc` holds the characters read so far.
pub open spec fn sp_strbody(s: Seq<char>, acc: Seq<char>) -> Option<(Seq<char>, Seq<char>)>
    decreases s.len(),
{
    if s.len() == 0 {
        None
    } else if s[0] == '"' {
        Some((acc, s.skip(1)))
    } else if s[0] == '\\' {
        if s.len() >= 2 && (s[1] == '"' || s[1] == '\\') {
            sp_strbody(s.skip(2), acc.push(s[1]))
        } else {
            None
        }
    } else {
        sp_strbody(s.skip(1), acc.push(s[0]))
    }
}

/// Reads decimal digits into the running value `acc`, stopping at the
/// first non-digit; fails only where the value would not fit in u64.
pub open spec fn sp_digits(s: Seq<char>, acc: u64) -> Option<(u64, Seq<char>)>
    decreases s.len(),
{
    if s.len() > 0 && is_digit(s[0]) {
        if acc * 10 + digit_val(s[0]) <= u64::MAX {
            sp_digits(s.skip(1), (acc * 10 + digit_val(s[0])) as u64)
        } else {
            None
        }
    } else {
        Some((acc, s))
    }
}

/// Reads a timestamp: at least one digit, value fitting in u64.
pub open spec fn sp_u64(s: Seq<char>) -> Option<(u64, Seq<char>)> {
    if s.len() > 0 && is_digit(s[0]) {
        sp_digits(s, 0)
    } else {
        None
    }
}

/// Reads one task record.
pub open spec fn sp_task(s: Seq<char>) -> Option<(TaskView, Seq<char>)> {
    match sp_lit(s, lit_task_open()) {
        None => None,
        Some(s1) => match sp_strbody(s1, Seq::empty()) {
            None => None,
            Some((text, s2)) => match sp_lit(s2, lit_created_at()) {
                None => None,
                Some(s3) => match sp_u64(s3) {
                    None => None,
                    Some((n, s4)) => match sp_lit(s4, seq!['}']) {
                        None => None,
                        Some(s5) => Some(((TaskView { text, created_at: n }), s5)),
                    },
                },
            },
        },
    }
}

/// Reads the tail of a non-empty task list: either the closing bracket, or
/// a comma and one more record, repeatedly.  A step that consumed nothing
/// would not be reading a record, so it fails.
pub open spec fn sp_tasks_rest(s: Seq<char>, acc: Seq<TaskView>) -> Option<
    (Seq<TaskView>, Seq<char>),
>
    decreases s.len(),
{
    if s.len() == 0 {
        None
    } else if s[0] == ']' {
        Some((acc, s.skip(1)))
    } else if s[0] == ',' {
        match sp_task(s.skip(1)) {
            None => None,
            Some((t, s2)) => if s2.len() < s.len() {
                sp_tasks_rest(s2, acc.push(t))
            } else {
                None
            },
        }
    } else {
        None
    }
}

/// Reads a whole task list, bracket to bracket.
pub open spec fn sp_list(s: Seq<char>) -> Option<(Seq<TaskView>, Seq<char>)> {
    match sp_lit(s, seq!['[']) {
        None => None,
        Some(s1) => if s1.len() > 0 && s1[0] == ']' {
            Some((Seq::empty(), s1.skip(1)))
        } else {
            match sp_task(s1) {
                None => None,
                Some((t, s2)) => sp_tasks_rest(s2, seq![t]),
            }
        },
    }
}

/// The meaning of stored journal content: empty content is the empty list;
/// any other content must be exactly one encoded task list, nothing after.
pub open spec fn sp_tasks(s: Seq<char>) -> Option<Seq<TaskView>> {
    if s.len() == 0 {
        Some(Seq::empty())
    } else {
        match sp_list(s) {
            None => None,
            Some((ts, rest)) => if rest.len() == 0 {
                Some(ts)
            } else {
                None
            },
        }
    }
}

/// Reads the fixed characters of `lit` at position `i` of `s`.
fn parse_lit(s: &str, i: usize, lit: &str) -> (r: Option<usize>)
    requires
        i <= s@.len(),
    ensures
        match r {
            Some(j) => i <= j <= s@.len() && sp_lit(s@.skip(i as int), lit@) == Some(
                s@.skip(j as int),
            ),
            None => sp_lit(s@.skip(i as int), lit@) is None,
        },
{
    let n = s.unicode_len();
    let m = lit.unicode_len();
    if n - i < m {
        return None;
    }
    let mut k: usize = 0;
    while k < m
        invariant
            k <= m,
            i <= n,
            m <= n - i,
            n == s@.len(),
            m == lit@.len(),
            forall|l: int| 0 <= l < k ==> s@[i + l] == lit@[l],
        decreases m - k,
    {
        if s.get_char(i + k) != lit.get_char(k) {
            proof {
                let ss = s@.skip(i as int);
                if ss.subrange(0, m as int) == lit@ {
                    assert(ss.subrange(0, m as int)[k as int] == lit@[k as int]);
                    assert(ss[k as int] == s@[i + k]);
                    assert(false);
                }
            }
            return None;
        }
        k = k + 1;
    }
    proof {
        assert(s@.skip(i as int).subrange(0, m as int) =~= lit@);
        assert(s@.skip(i as int).skip(m as int) =~= s@.skip(i + m));
    }
    Some(i + m)
}

/// Reads a task text at position `i`, undoing the escapes.
fn parse_strbody(s: &str, i: usize) -> (r: Option<(String, usize)>)
    requires
        i <= s@.len(),
    ensures
        match r {
            Some((text, j)) => i <= j <= s@.len() && sp_strbody(s@.skip(i as int), Seq::empty())
                == Some((text@, s@.skip(j as int))),
            None => sp_strbody(s@.skip(i as int), Seq::empty()) is None,
        },
{
    let n = s.unicode_len();
    let mut text = String::new();
    let mut j: usize = i;
    loop
        invariant
            i <= j <= n,
            n == s@.len(),
            sp_strbody(s@.skip(i as int), Seq::empty()) == sp_strbody(s@.skip(j as int), text@),
        decreases n - j,
    {
        if j >= n {
            return None;
        }
        let c = s.get_char(j);
        if c == '"' {
            proof {
                assert(s@.skip(j as int).skip(1) =~= s@.skip(j + 1));
            }
            return Some((text, j + 1));
        } else if c == '\\' {
            if j + 1 >= n {
                return None;
            }
            let c2 = s.get_char(j + 1);
            if c2 == '"' || c2 == '\\' {
                text.push(c2);
                proof {
                    assert(s@.skip(j as int)[1] == s@[j + 1]);
                    assert(s@.skip(j as int).skip(2) =~= s@.skip(j + 2));
                }
                j = j + 2;
            } else {
                proof {
                    assert(s@.skip(j as int)[1] == s@[j + 1]);
                }
                return None;
            }
        } else {
            text.push(c);
            proof {
                assert(s@.skip(j as int).skip(1) =~= s@.skip(j + 1));
            }
            j = j + 1;
        }
    }
}

/// Reads a timestamp at position `i`.
fn parse_u64(s: &str, i: usize) -> (r: Option<(u64, usize)>)
    requires
        i <= s@.len(),
    ensures
        match r {
            Some((v, j)) => i <= j <= s@.len() && sp_u64(s@.skip(i as int)) == Some(
                (v, s@.skip(j as int)),
            ),
            None => sp_u64(s@.skip(i as int)) is None,
        },
{
    let n = s.unicode_len();
    if i >= n {
        return None;
    }
    let c0 = s.get_char(i);
    let c0u = c0 as u32;
    if c0u < 48 || c0u > 57 {
        return None;
    }
    let mut acc: u64 = 0;
    let mut j: usize = i;
    loop
        invariant
            i <= j <= n,
            i < n,
            n == s@.len(),
            is_digit(s@[i as int]),
            sp_digits(s@.skip(i as int), 0) == sp_digits(s@.skip(j as int), acc),
        decreases n - j,
    {
        proof {
            assert(s@.skip(i as int)[0] == s@[i as int]);
        }
        if j >= n {
            proof {
                assert(s@.skip(j as int).len() == 0);
            }
            return Some((acc, j));
        }
        let c = s.get_char(j);
        let cu = c as u32;
        if cu < 48 || cu > 57 {
            proof {
                assert(s@.skip(j as int)[0] == s@[j as int]);
            }
            return Some((acc, j));
        }
        let d: u64 = (cu - 48) as u64;
        let limit: u64 = (u64::MAX - d) / 10;
        if acc > limit {
            proof {
                let x = (u64::MAX - d) as int;
                assert(x == 10 * limit + x % 10 && 0 <= x % 10 < 10);
                assert(acc * 10 >= (limit + 1) * 10) by (nonlinear_arith)
                    requires
                        acc >= limit + 1,
                ;
                assert(acc * 10 + d > u64::MAX);
                assert(s@.skip(j as int)[0] == s@[j as int]);
            }
            return None;
        }
        proof {
            let x = (u64::MAX - d) as int;
            assert(x == 10 * limit + x % 10 && 0 <= x % 10 < 10);
            assert(acc * 10 <= limit * 10) by (nonlinear_arith)
                requires
                    acc <= limit,
            ;
            assert(acc * 10 + d <= u64::MAX);
            assert(s@.skip(j as int)[0] == s@[j as int]);
            assert(digit_val(s@[j as int]) == d);
            assert(s@.skip(j as int).skip(1) =~= s@.skip(j + 1));
        }
        acc = acc * 10 + d;
        j = j + 1;
    }
}

/// Reads one task record at position `i`.
fn parse_task(s: &str, i: usize) -> (r: Option<(Task, usize)>)
    requires
        i <= s@.len(),
    ensures
        match r {
            Some((t, j)) => i <= j <= s@.len() && sp_task(s@.skip(i as int)) == Some(
                (t@, s@.skip(j as int)),
            ),
            None => sp_task(s@.skip(i as int)) is None,
        },
{
    proof {
        reveal_strlit("{\"text\":\"");
        assert("{\"text\":\""@ =~= lit_task_open());
        reveal_strlit(",\"created_at\":");
        assert(",\"created_at\":"@ =~= lit_created_at());
        reveal_strlit("}");
        assert("}"@ =~= seq!['}']);
    }
    let i1 = match parse_lit(s, i, "{\"text\":\"") {
        None => {
            return None;
        },
        Some(j) => j,
    };
    let (text, i2) = match parse_strbody(s, i1) {
        None => {
            return None;
        },
        Some(x) => x,
    };
    let i3 = match parse_lit(s, i2, ",\"created_at\":") {
        None => {
            return None;
        },
        Some(j) => j,
    };
    let (v, i4) = match parse_u64(s, i3) {
        None => {
            return None;
        },
        Some(x) => x,
    };
    let i5 = match parse_lit(s, i4, "}") {
        None => {
            return None;
        },
        Some(j) => j,
    };
    Some((Task { text, created_at: v }, i5))
}

/// Reads a whole journal: the task list its content stands for, or nothing
/// where the content is malformed.
pub fn parse_tasks(s: &str) -> (r: Option<Vec<Task>>)
    ensures
        match r {
            Some(ts) => sp_tasks(s@) == Some(views(ts@)),
            None => sp_tasks(s@) is None,
        },
{
    let n = s.unicode_len();
    if n == 0 {
        let ts: Vec<Task> = Vec::new();
        proof {
            assert(views(ts@) =~= Seq::<TaskView>::empty());
        }
        return Some(ts);
    }
    proof {
        reveal_strlit("[");
        assert("["@ =~= seq!['[']);
        assert(s@.skip(0) =~= s@);
    }
    let i0 = match parse_lit(s, 0, "[") {
        None => {
            return None;
        },
        Some(j) => j,
    };
    if i0 < n && s.get_char(i0) == ']' {
        proof {
            assert(s@.skip(i0 as int)[0] == s@[i0 as int]);
            assert(s@.skip(i0 as int).skip(1) =~= s@.skip(i0 + 1));
        }
        if i0 + 1 == n {
            let ts: Vec<Task> = Vec::new();
            proof {
                assert(views(ts@) =~= Seq::<TaskView>::empty());
            }
            return Some(ts);
        } else {
            return None;
        }
    }
    proof {
        if s@.skip(i0 as int).len() > 0 {
            assert(s@.skip(i0 as int)[0] == s@[i0 as int]);
        }
    }
    let (t0, first_end) = match parse_task(s, i0) {
        None => {
            return None;
        },
        Some(x) => x,
    };
    let mut tasks: Vec<Task> = Vec::new();
    tasks.push(t0);
    let mut j: usize = first_end;
    proof {
        assert(views(tasks@) =~= seq![t0@]);
    }
    loop
        invariant
            j <= n,
            n == s@.len(),
            sp_list(s@) == sp_tasks_rest(s@.skip(j as int), views(tasks@)),
            n >= 1,
        decreases n - j,
    {
        if j >= n {
            proof {
                assert(s@.skip(j as int).len() == 0);
            }
            return None;
        }
        let c = s.get_char(j);
        proof {
            assert(s@.skip(j as int)[0] == s@[j as int]);
        }
        if c == ']' {
            proof {
                assert(s@.skip(j as int).skip(1) =~= s@.skip(j + 1));
            }
            if j + 1 == n {
                proof {
                    assert(s@.skip(j + 1).len() == 0);
                }
                return Some(tasks);
            } else {
                return None;
            }
        } else if c == ',' {
            proof {
                assert(s@.skip(j as int).skip(1) =~= s@.skip(j + 1));
            }
            let (t, j2) = match parse_task(s, j + 1) {
                None => {
                    return None;
                },
                Some(x) => x,
            };
            proof {
                assert(s@.skip(j2 as int).len() < s@.skip(j as int).len());
                assert(views(tasks@.push(t)) =~= views(tasks@).push(t@));
            }
            tasks.push(t);
            j = j2;
        } else {
            return None;
        }
    }
}

} // verus!
