//! Deriving a session's plan/task associations from its transcript: the
//! commit commands a session ran, the `-m` messages in them, and the
//! `(plan t-NNN)` trailers in those messages.
//!
//! A link is evidence that a session worked on a task, not proof that a
//! commit exists, so each link carries whether the plan/task it names exists.

use vstd::prelude::*;

use crate::text::{
    chars_eq, copy_string, next_line, str_eq, chars_of, contains, contains_exec, find_from, find_from_exec, is_alnum,
    is_alnum_exec, is_alpha, is_alpha_exec, is_ascii_ws, is_ascii_ws_exec, is_digit,
    is_digit_exec, is_ws, is_ws_exec, lines, lines_exec, lower, lower_exec, lower_seq,
    occurs_at, occurs_at_exec, padded, padded_exec, push_char, push_chars, slice_chars,
    string_of, trim, trim_exec,
};

verus! {

// ---------------------------------------------------------------------------
// Words (`str::split_whitespace`)
// ---------------------------------------------------------------------------

/// Splitter state after reading `s`: finished words and the word in progress.
pub open spec fn ws_fold(s: Seq<char>) -> (Seq<Seq<char>>, Seq<char>)
    decreases s.len(),
{
    if s.len() == 0 {
        (Seq::empty(), Seq::empty())
    } else {
        let st = ws_fold(s.drop_last());
        let c = s.last();
        if !is_ws(c) {
            (st.0, st.1.push(c))
        } else if st.1.len() > 0 {
            (st.0.push(st.1), Seq::empty())
        } else {
            st
        }
    }
}

/// The white-space separated words of `s`, in order.
pub open spec fn words(s: Seq<char>) -> Seq<Seq<char>> {
    let st = ws_fold(s);
    if st.1.len() > 0 {
        st.0.push(st.1)
    } else {
        st.0
    }
}

/// The white-space separated words of `s`.
pub fn words_exec(s: &Vec<char>) -> (r: Vec<Vec<char>>)
    ensures
        r@.len() == words(s@).len(),
        forall|i: int| 0 <= i < r@.len() ==> #[trigger] r@[i]@ == words(s@)[i],
{
    let n: usize = s.len();
    let mut out: Vec<Vec<char>> = Vec::new();
    let mut cur: Vec<char> = Vec::new();
    let ghost mut acc: Seq<Seq<char>> = Seq::empty();
    let mut i: usize = 0;
    while i < n
        invariant
            n == s@.len(),
            i <= n,
            ws_fold(s@.take(i as int)) == (acc, cur@),
            out@.len() == acc.len(),
            forall|j: int| 0 <= j < out@.len() ==> #[trigger] out@[j]@ == acc[j],
        decreases n - i,
    {
        let c = s[i];
        assert(s@.take(i + 1).drop_last() =~= s@.take(i as int));
        if !is_ws_exec(c) {
            cur.push(c);
        } else if cur.len() > 0 {
            proof {
                acc = acc.push(cur@);
            }
            out.push(cur);
            cur = Vec::new();
            assert(cur@ =~= Seq::<char>::empty());
        }
        i = i + 1;
    }
    assert(s@.take(n as int) =~= s@);
    if cur.len() > 0 {
        proof {
            acc = acc.push(cur@);
        }
        out.push(cur);
    }
    out
}

// ---------------------------------------------------------------------------
// Task references
// ---------------------------------------------------------------------------

/// The value of a string of decimal digits.
pub open spec fn digits_value(ds: Seq<char>) -> nat
    decreases ds.len(),
{
    if ds.len() == 0 {
        0
    } else {
        digits_value(ds.drop_last()) * 10 + ((ds.last() as u32) - ('0' as u32)) as nat
    }
}

/// A plan name: starts with an ASCII letter, then ASCII alphanumerics or `-`.
pub open spec fn is_plan_name(p: Seq<char>) -> bool {
    &&& p.len() > 0
    &&& is_alpha(p[0])
    &&& forall|i: int| 0 <= i < p.len() ==> (is_alnum(#[trigger] p[i]) || p[i] == '-')
}

/// The number part of a task id, after a `t-` or `T-` prefix.
pub open spec fn task_number(t: Seq<char>) -> Option<Seq<char>> {
    if t.len() >= 2 && (t[0] == 't' || t[0] == 'T') && t[1] == '-' {
        Some(t.subrange(2, t.len() as int))
    } else {
        None
    }
}

/// All characters are ASCII digits.
pub open spec fn all_digits(ds: Seq<char>) -> bool {
    forall|i: int| 0 <= i < ds.len() ==> is_digit(#[trigger] ds[i])
}

/// The canonical task id for number `n`: `t-` and at least three digits.
pub open spec fn task_id(n: nat) -> Seq<char> {
    "t-"@ + padded(n, 3)
}

/// `t` is a canonical task id for a number that fits in 32 bits.
pub open spec fn is_task_id(t: Seq<char>) -> bool {
    exists|n: nat| n <= u32::MAX && t == task_id(n)
}

/// `plan-name t-004` → `(plan, canonical task)`: exactly two words, a plan
/// name (lowercased) and a task id whose number fits in 32 bits.
pub open spec fn ref_of(inner: Seq<char>) -> Option<(Seq<char>, Seq<char>)> {
    let ws = words(inner);
    if ws.len() != 2 {
        None
    } else if !is_plan_name(ws[0]) {
        None
    } else {
        match task_number(ws[1]) {
            None => None,
            Some(num) => if num.len() == 0 || !all_digits(num) || digits_value(num) > u32::MAX {
                None
            } else {
                Some((lower_seq(ws[0]), task_id(digits_value(num))))
            },
        }
    }
}

pub(crate) fn digits_value_exec(ds: &Vec<char>) -> (r: Option<u32>)
    requires
        all_digits(ds@),
    ensures
        r matches Some(v) ==> v == digits_value(ds@),
        r is None ==> digits_value(ds@) > u32::MAX,
{
    let n: usize = ds.len();
    let mut v: u64 = 0;
    let mut i: usize = 0;
    while i < n
        invariant
            n == ds@.len(),
            all_digits(ds@),
            i <= n,
            v == digits_value(ds@.take(i as int)),
            v <= u32::MAX,
        decreases n - i,
    {
        assert(ds@.take(i + 1).drop_last() =~= ds@.take(i as int));
        assert(is_digit(ds@[i as int]));
        let d: u64 = (ds[i] as u32 - '0' as u32) as u64;
        let nv: u64 = v * 10 + d;
        if nv > 0xFFFF_FFFF {
            proof {
                lemma_digits_value_grows(ds@, i as int + 1);
            }
            return None;
        }
        v = nv;
        i = i + 1;
    }
    assert(ds@.take(n as int) =~= ds@);
    Some(v as u32)
}

proof fn lemma_digits_value_grows(ds: Seq<char>, k: int)
    requires
        0 <= k <= ds.len(),
        all_digits(ds),
    ensures
        digits_value(ds) >= digits_value(ds.take(k)),
    decreases ds.len(),
{
    if k < ds.len() {
        assert(is_digit(ds[ds.len() - 1]));
        assert(ds.drop_last().take(k) =~= ds.take(k));
        assert forall|i: int| 0 <= i < ds.drop_last().len() implies is_digit(
            #[trigger] ds.drop_last()[i],
        ) by {
            assert(ds.drop_last()[i] == ds[i]);
        }
        lemma_digits_value_grows(ds.drop_last(), k);
        assert(digits_value(ds) >= digits_value(ds.drop_last()) * 10);
    } else {
        assert(ds.take(k) =~= ds);
    }
}

/// `plan-name t-004` → `(plan, normalized-task)`, or `None` when `inner` is
/// not exactly a plan name followed by a task id.
///
/// Task ids are zero-padded to three digits so `(plan t-4)` matches a minted
/// `t-004`.
pub fn parse_ref(inner: &str) -> (r: Option<(String, String)>)
    ensures
        r matches Some(p) ==> ref_of(inner@) == Some((p.0@, p.1@)),
        r is None ==> ref_of(inner@) is None,
{
    let cs = chars_of(inner);
    let ws = words_exec(&cs);
    if ws.len() != 2 {
        return None;
    }
    let plan = &ws[0];
    let task = &ws[1];
    assert(plan@ == words(inner@)[0]);
    assert(task@ == words(inner@)[1]);
    assert(ws@.len() == words(inner@).len());
    if plan.len() == 0 {
        return None;
    }
    if !is_alpha_exec(plan[0]) {
        assert(!is_alpha(words(inner@)[0][0]));
        return None;
    }
    let pn: usize = plan.len();
    let mut i: usize = 0;
    while i < pn
        invariant
            pn == plan@.len(),
            i <= pn,
            words(inner@).len() == 2,
            plan@ == words(inner@)[0],
            forall|j: int| 0 <= j < i ==> (is_alnum(#[trigger] plan@[j]) || plan@[j] == '-'),
        decreases pn - i,
    {
        let c = plan[i];
        if !(is_alnum_exec(c) || c == '-') {
            assert(!is_plan_name(words(inner@)[0]));
            return None;
        }
        i = i + 1;
    }
    assert(is_plan_name(words(inner@)[0]));
    if task.len() < 2 {
        return None;
    }
    if !((task[0] == 't' || task[0] == 'T') && task[1] == '-') {
        assert(task@[0] == words(inner@)[1][0] && task@[1] == words(inner@)[1][1]);
        assert(task_number(words(inner@)[1]) is None);
        return None;
    }
    let num = slice_chars(task, 2, task.len());
    assert(task_number(words(inner@)[1]) == Some(num@));
    if num.len() == 0 {
        return None;
    }
    let nn: usize = num.len();
    let mut k: usize = 0;
    while k < nn
        invariant
            nn == num@.len(),
            k <= nn,
            words(inner@).len() == 2,
            is_plan_name(words(inner@)[0]),
            task_number(words(inner@)[1]) == Some(num@),
            forall|j: int| 0 <= j < k ==> is_digit(#[trigger] num@[j]),
        decreases nn - k,
    {
        if !is_digit_exec(num[k]) {
            assert(!all_digits(num@));
            return None;
        }
        k = k + 1;
    }
    let v = match digits_value_exec(&num) {
        Some(v) => v,
        None => {
            return None;
        },
    };
    let low = crate::text::lower_chars(plan);
    let mut tid: Vec<char> = Vec::new();
    tid.push('t');
    tid.push('-');
    let digits = padded_exec(v as u64, 3);
    let task_chars = crate::text::concat_chars(&tid, &digits);
    proof {
        reveal_strlit("t-");
        assert(tid@ =~= "t-"@);
    }
    Some((string_of(&low), string_of(&task_chars)))
}

/// The references found scanning `m` from position `i`: each `(` opens a
/// group that runs to the next `)`; a group that parses as a reference yields
/// one, and the scan resumes after its `)`. An unclosed `(` ends the scan.
pub open spec fn refs_from(m: Seq<char>, i: int) -> Seq<(Seq<char>, Seq<char>)>
    decreases m.len() - i,
{
    if i < 0 || i >= m.len() {
        Seq::empty()
    } else if m[i] != '(' {
        refs_from(m, i + 1)
    } else {
        match find_from(m, seq![')'], i + 1) {
            None => Seq::empty(),
            Some(k) => if k <= i || k >= m.len() {
                Seq::empty()
            } else {
                let here = match ref_of(m.subrange(i + 1, k)) {
                    Some(p) => seq![p],
                    None => Seq::empty(),
                };
                here + refs_from(m, k + 1)
            },
        }
    }
}

/// Every reference found in a message names its task by a canonical id:
/// `t-` and the task number zero-padded to three digits.
pub proof fn law_refs_canonical(m: Seq<char>, i: int)
    ensures
        forall|k: int|
            0 <= k < refs_from(m, i).len() ==> is_task_id((#[trigger] refs_from(m, i)[k]).1),
    decreases m.len() - i,
{
    if 0 <= i < m.len() {
        if m[i] != '(' {
            law_refs_canonical(m, i + 1);
            assert(refs_from(m, i) == refs_from(m, i + 1));
            assert forall|j: int| 0 <= j < refs_from(m, i).len() implies is_task_id(
                (#[trigger] refs_from(m, i)[j]).1,
            ) by {
                assert(refs_from(m, i)[j] == refs_from(m, i + 1)[j]);
            }
        } else {
            match find_from(m, seq![')'], i + 1) {
                None => {
                    assert(refs_from(m, i).len() == 0);
                },
                Some(k) => {
                    if !(i < k < m.len()) {
                        assert(refs_from(m, i).len() == 0);
                    } else {
                        law_refs_canonical(m, k + 1);
                        let here = match ref_of(m.subrange(i + 1, k)) {
                            Some(p) => seq![p],
                            None => Seq::<(Seq<char>, Seq<char>)>::empty(),
                        };
                        let rest = refs_from(m, k + 1);
                        assert(refs_from(m, i) == here + rest);
                        assert forall|j: int| 0 <= j < refs_from(m, i).len() implies is_task_id(
                            (#[trigger] refs_from(m, i)[j]).1,
                        ) by {
                            if j < here.len() {
                                let ws = words(m.subrange(i + 1, k));
                                let num = task_number(ws[1])->0;
                                assert(refs_from(m, i)[j].1 == task_id(digits_value(num)));
                            } else {
                                assert(refs_from(m, i)[j] == rest[j - here.len()]);
                            }
                        }
                    }
                },
            }
        }
    } else {
        assert(refs_from(m, i).len() == 0);
    }
}

proof fn lemma_find_from_bounds(s: Seq<char>, p: Seq<char>, from: int)
    requires
        0 <= from,
    ensures
        find_from(s, p, from) matches Some(k) ==> from <= k && k + p.len() <= s.len(),
    decreases s.len() + 1 - from,
{
    if from <= s.len() && !occurs_at(s, p, from) {
        lemma_find_from_bounds(s, p, from + 1);
    }
}

/// Task refs mentioned in a commit message: `(plan-name t-NNN)` groups.
pub fn task_refs(message: &str) -> (r: Vec<(String, String)>)
    ensures
        r@.len() == refs_from(message@, 0).len(),
        forall|i: int|
            0 <= i < r@.len() ==> (#[trigger] r@[i]).0@ == refs_from(message@, 0)[i].0 && r@[i].1@
                == refs_from(message@, 0)[i].1,
{
    let m = chars_of(message);
    let n: usize = m.len();
    let mut close: Vec<char> = Vec::new();
    close.push(')');
    assert(close@ =~= seq![')']);
    let mut out: Vec<(String, String)> = Vec::new();
    let ghost mut acc: Seq<(Seq<char>, Seq<char>)> = Seq::empty();
    let mut i: usize = 0;
    while i < n
        invariant
            n == m@.len(),
            m@ == message@,
            close@ == seq![')'],
            i <= n,
            refs_from(m@, 0) == acc + refs_from(m@, i as int),
            out@.len() == acc.len(),
            forall|j: int|
                0 <= j < out@.len() ==> (#[trigger] out@[j]).0@ == acc[j].0 && out@[j].1@
                    == acc[j].1,
        decreases n - i,
    {
        if m[i] != '(' {
            i = i + 1;
            continue;
        }
        proof {
            lemma_find_from_bounds(m@, close@, i + 1);
        }
        match find_from_exec(&m, &close, i + 1) {
            None => {
                assert(refs_from(m@, i as int) =~= Seq::<(Seq<char>, Seq<char>)>::empty());
                assert(refs_from(m@, n as int) =~= Seq::<(Seq<char>, Seq<char>)>::empty());
                assert(acc + refs_from(m@, i as int) =~= acc + refs_from(m@, n as int));
                i = n;
            },
            Some(k) => {
                let inner = string_of(&slice_chars(&m, i + 1, k));
                let parsed = parse_ref(inner.as_str());
                proof {
                    let here = match ref_of(m@.subrange(i + 1, k as int)) {
                        Some(p) => seq![p],
                        None => Seq::empty(),
                    };
                    assert(refs_from(m@, i as int) == here + refs_from(m@, k + 1));
                }
                match parsed {
                    Some(p) => {
                        proof {
                            acc = acc.push((p.0@, p.1@));
                        }
                        out.push(p);
                    },
                    None => {},
                }
                proof {
                    assert(refs_from(m@, 0) =~= acc + refs_from(m@, k + 1));
                }
                i = k + 1;
            },
        }
    }
    assert(refs_from(m@, n as int) =~= Seq::<(Seq<char>, Seq<char>)>::empty());
    assert(refs_from(m@, 0) =~= acc);
    out
}


// ---------------------------------------------------------------------------
// Commit messages
// ---------------------------------------------------------------------------

/// Position of the closing `q` at or after `i`. Inside a double-quoted body a
/// backslash escapes the character after it.
pub open spec fn close_quote(s: Seq<char>, i: int, q: char) -> Option<int>
    decreases s.len() - i,
{
    if i < 0 || i >= s.len() {
        None
    } else if q == '"' && s[i] == '\\' {
        if i + 2 > s.len() {
            None
        } else {
            close_quote(s, i + 2, q)
        }
    } else if s[i] == q {
        Some(i)
    } else {
        close_quote(s, i + 1, q)
    }
}

proof fn lemma_close_quote(s: Seq<char>, i: int, q: char)
    requires
        0 <= i,
    ensures
        close_quote(s, i, q) matches Some(e) ==> i <= e < s.len() && s[e] == q,
    decreases s.len() - i,
{
    if i < s.len() {
        if q == '"' && s[i] == '\\' {
            if i + 2 <= s.len() {
                lemma_close_quote(s, i + 2, q);
            }
        } else if s[i] != q {
            lemma_close_quote(s, i + 1, q);
        }
    }
}

/// Index of the closing quote at or after `from`, honouring backslash escapes
/// for `"`.
fn find_close_quote(s: &Vec<char>, from: usize, quote: char) -> (r: Option<usize>)
    ensures
        r matches Some(e) ==> close_quote(s@, from as int, quote) == Some(e as int),
        r is None ==> close_quote(s@, from as int, quote) is None,
{
    let n: usize = s.len();
    let mut i: usize = from;
    while i < n
        invariant
            n == s@.len(),
            from <= i,
            close_quote(s@, from as int, quote) == close_quote(s@, i as int, quote),
        decreases n - i,
    {
        if quote == '"' && s[i] == '\\' {
            if n - i < 2 {
                return None;
            }
            i = i + 2;
        } else if s[i] == quote {
            return Some(i);
        } else {
            i = i + 1;
        }
    }
    None
}

/// `s` with every non-overlapping occurrence of the non-empty pattern `p`,
/// scanning left to right from position `i`, replaced by `r` (`str::replace`).
pub open spec fn replace_from(s: Seq<char>, p: Seq<char>, r: Seq<char>, i: int) -> Seq<char>
    decreases s.len() - i,
{
    if i < 0 || i >= s.len() || p.len() == 0 {
        Seq::empty()
    } else if occurs_at(s, p, i) {
        r + replace_from(s, p, r, i + p.len())
    } else {
        seq![s[i]] + replace_from(s, p, r, i + 1)
    }
}

/// `str::replace` for a non-empty pattern.
pub open spec fn replace_all(s: Seq<char>, p: Seq<char>, r: Seq<char>) -> Seq<char> {
    replace_from(s, p, r, 0)
}

fn replace_chars(s: &Vec<char>, p: &Vec<char>, r: &Vec<char>) -> (out: Vec<char>)
    requires
        p@.len() > 0,
    ensures
        out@ == replace_all(s@, p@, r@),
{
    let n: usize = s.len();
    let mut out: Vec<char> = Vec::new();
    let mut i: usize = 0;
    while i < n
        invariant
            n == s@.len(),
            p@.len() > 0,
            replace_all(s@, p@, r@) == out@ + replace_from(s@, p@, r@, i as int),
        decreases n - i,
    {
        if occurs_at_exec(s, p, i) {
            let next = crate::text::concat_chars(&out, r);
            assert(replace_all(s@, p@, r@) =~= next@ + replace_from(s@, p@, r@, i + p@.len()));
            out = next;
            i = i + p.len();
        } else {
            out.push(s[i]);
            assert(replace_all(s@, p@, r@) =~= out@ + replace_from(s@, p@, r@, i + 1));
            i = i + 1;
        }
    }
    assert(replace_from(s@, p@, r@, i as int) =~= Seq::<char>::empty());
    assert(replace_all(s@, p@, r@) =~= out@);
    out
}

/// A message body with `\n` and `\"` escapes resolved, in that order.
pub open spec fn unescape_spec(s: Seq<char>) -> Seq<char> {
    replace_all(replace_all(s, seq!['\\', 'n'], seq!['\n']), seq!['\\', '"'], seq!['"'])
}

fn unescape(s: &Vec<char>) -> (r: Vec<char>)
    ensures
        r@ == unescape_spec(s@),
{
    let mut p1: Vec<char> = Vec::new();
    p1.push('\\');
    p1.push('n');
    let mut r1: Vec<char> = Vec::new();
    r1.push('\n');
    let mut p2: Vec<char> = Vec::new();
    p2.push('\\');
    p2.push('"');
    let mut r2: Vec<char> = Vec::new();
    r2.push('"');
    assert(p1@ =~= seq!['\\', 'n'] && r1@ =~= seq!['\n']);
    assert(p2@ =~= seq!['\\', '"'] && r2@ =~= seq!['"']);
    let a = replace_chars(s, &p1, &r1);
    replace_chars(&a, &p2, &r2)
}

/// The first position at or after `i` that is not ASCII white space.
pub open spec fn skip_ascii_ws(s: Seq<char>, i: int) -> int
    decreases s.len() - i,
{
    if i < 0 || i >= s.len() || !is_ascii_ws(s[i]) {
        i
    } else {
        skip_ascii_ws(s, i + 1)
    }
}

/// The `-m` message bodies of command `s` found scanning from position `i`:
/// `-m`, ASCII white space, then a `"` or `'` quoted body. The scan resumes
/// after a body's closing quote.
pub open spec fn msgs_from(s: Seq<char>, i: int) -> Seq<Seq<char>>
    decreases s.len() - i,
{
    if i < 0 || i + 2 >= s.len() {
        Seq::empty()
    } else if s[i] == '-' && s[i + 1] == 'm' && is_ascii_ws(s[i + 2]) {
        let j = skip_ascii_ws(s, i + 3);
        if 0 <= j < s.len() && (s[j] == '"' || s[j] == '\'') {
            match close_quote(s, j + 1, s[j]) {
                Some(e) => if e <= i || e >= s.len() {
                    Seq::empty()
                } else {
                    seq![unescape_spec(s.subrange(j + 1, e))] + msgs_from(s, e + 1)
                },
                None => msgs_from(s, i + 1),
            }
        } else {
            msgs_from(s, i + 1)
        }
    } else {
        msgs_from(s, i + 1)
    }
}

/// A character that ends one shell command and lets another begin.
pub open spec fn command_separator(c: char) -> bool {
    c == ';' || c == '&' || c == '|' || c == '\n' || c == '('
}

/// Position `k` of `cmd` is where a shell command begins: only whitespace
/// lies between it and the start of `cmd` or a command separator.
pub open spec fn command_start(cmd: Seq<char>, k: int) -> bool
    decreases k,
{
    if k <= 0 || k > cmd.len() {
        k == 0
    } else if is_ascii_ws(cmd[k - 1]) {
        command_start(cmd, k - 1)
    } else {
        command_separator(cmd[k - 1])
    }
}

/// `git commit` is run at position `k` of `cmd`: the words begin a command
/// there and are followed by whitespace or the end.
pub open spec fn runs_commit_at(cmd: Seq<char>, k: int) -> bool {
    &&& occurs_at(cmd, "git commit"@, k)
    &&& (k + "git commit"@.len() == cmd.len() || is_ascii_ws(cmd[k + "git commit"@.len()]))
    &&& command_start(cmd, k)
}

/// `cmd` runs `git commit` (rather than only mentioning it, as an `echo`
/// or a quoted string does).
pub open spec fn runs_commit(cmd: Seq<char>) -> bool {
    exists|k: int| 0 <= k <= cmd.len() && #[trigger] runs_commit_at(cmd, k)
}

fn command_start_exec(s: &Vec<char>, k: usize) -> (r: bool)
    requires
        k <= s@.len(),
    ensures
        r == command_start(s@, k as int),
{
    let mut j: usize = k;
    while j > 0 && is_ascii_ws_exec(s[j - 1])
        invariant
            j <= k <= s@.len(),
            command_start(s@, j as int) == command_start(s@, k as int),
        decreases j,
    {
        j = j - 1;
    }
    if j == 0 {
        true
    } else {
        let c = s[j - 1];
        c == ';' || c == '&' || c == '|' || c == '\n' || c == '('
    }
}

/// Whether `s` runs `git commit`, as `runs_commit` says.
fn runs_commit_exec(s: &Vec<char>) -> (r: bool)
    ensures
        r == runs_commit(s@),
{
    proof {
        reveal_strlit("git commit");
    }
    let gc = chars_of("git commit");
    let n: usize = s.len();
    let m: usize = gc.len();
    let mut k: usize = 0;
    while k <= n && n - k >= m
        invariant
            n == s@.len(),
            m == 10,
            m == gc@.len(),
            gc@ == "git commit"@,
            k <= n + 1,
            forall|t: int| 0 <= t < k ==> !#[trigger] runs_commit_at(s@, t),
        decreases n + 1 - k,
    {
        let at = occurs_at_exec(s, &gc, k);
        let ends = k + m == n || is_ascii_ws_exec(s[k + m]);
        let starts = command_start_exec(s, k);
        proof {
            assert(at == occurs_at(s@, "git commit"@, k as int));
            assert(ends == (k + "git commit"@.len() == s@.len() || is_ascii_ws(s@[k + "git commit"@.len()])));
            assert((at && ends && starts) == runs_commit_at(s@, k as int));
        }
        if at && ends && starts {
            return true;
        }
        k = k + 1;
    }
    proof {
        assert forall|t: int| 0 <= t <= s@.len() implies !#[trigger] runs_commit_at(s@, t) by {
            if t >= k {
                assert(!occurs_at(s@, "git commit"@, t));
            }
        }
    }
    false
}

/// The messages of a command that runs `git commit`; nothing for a command
/// that only mentions it or that is a `--dry-run`.
pub open spec fn commit_msgs(cmd: Seq<char>) -> Seq<Seq<char>> {
    if !runs_commit(cmd) || contains(cmd, "--dry-run"@) {
        Seq::empty()
    } else {
        msgs_from(cmd, 0)
    }
}

/// Every `-m "…"` / `-m '…'` message body in a `git commit` command.
pub fn commit_messages(command: &str) -> (r: Vec<String>)
    ensures
        r@.len() == commit_msgs(command@).len(),
        forall|i: int| 0 <= i < r@.len() ==> #[trigger] r@[i]@ == commit_msgs(command@)[i],
{
    let s = chars_of(command);
    let dr = chars_of("--dry-run");
    if !runs_commit_exec(&s) || contains_exec(&s, &dr) {
        return Vec::new();
    }
    let n: usize = s.len();
    let mut out: Vec<String> = Vec::new();
    let ghost mut acc: Seq<Seq<char>> = Seq::empty();
    let mut i: usize = 0;
    while n - i > 2
        invariant
            n == s@.len(),
            i <= n,
            s@ == command@,
            commit_msgs(command@) == acc + msgs_from(s@, i as int),
            out@.len() == acc.len(),
            forall|k: int| 0 <= k < out@.len() ==> #[trigger] out@[k]@ == acc[k],
        decreases n - i,
    {
        if s[i] == '-' && s[i + 1] == 'm' && is_ascii_ws_exec(s[i + 2]) {
            let mut j: usize = i + 3;
            while j < n && is_ascii_ws_exec(s[j])
                invariant
                    n == s@.len(),
                    i + 3 <= j <= n,
                    skip_ascii_ws(s@, j as int) == skip_ascii_ws(s@, i + 3),
                decreases n - j,
            {
                j = j + 1;
            }
            if j < n && (s[j] == '"' || s[j] == '\'') {
                proof {
                    lemma_close_quote(s@, j + 1, s@[j as int]);
                }
                match find_close_quote(&s, j + 1, s[j]) {
                    Some(e) => {
                        let body = slice_chars(&s, j + 1, e);
                        let msg = unescape(&body);
                        proof {
                            acc = acc.push(msg@);
                            assert(commit_msgs(command@) =~= acc + msgs_from(s@, e + 1));
                        }
                        out.push(string_of(&msg));
                        i = e + 1;
                        continue;
                    },
                    None => {},
                }
            }
        }
        i = i + 1;
    }
    assert(msgs_from(s@, i as int) =~= Seq::<Seq<char>>::empty());
    assert(commit_msgs(command@) =~= acc);
    out
}


// ---------------------------------------------------------------------------
// Deriving links
// ---------------------------------------------------------------------------

/// One derived association between a session and a plan task.
#[derive(Debug, Clone, PartialEq, Eq)]
pub struct SessionLink {
    pub plan: String,
    pub task: String,
    /// The commit subject the ref was found in: the evidence for the link.
    pub evidence: String,
    /// Turn index the evidence came from.
    pub turn_index: usize,
    /// Whether `plan`/`task` exist; a `false` link is still recorded.
    pub validated: bool,
}

/// A commit command as it appears in a stored tool call.
pub struct Candidate<'a> {
    pub turn_index: usize,
    pub command: &'a str,
}

/// A link before validation: plan, task, evidence, turn index.
pub type LinkEv = (Seq<char>, Seq<char>, Seq<char>, nat);

/// The subject of a commit message: its first line, trimmed.
pub open spec fn subject_of(msg: Seq<char>) -> Seq<char> {
    if lines(msg).len() > 0 {
        trim(lines(msg)[0])
    } else {
        Seq::empty()
    }
}

/// The links one message names, in order, with their evidence and turn.
pub open spec fn msg_events(turn: nat, msg: Seq<char>) -> Seq<LinkEv> {
    refs_from(msg, 0).map_values(|p: (Seq<char>, Seq<char>)| (p.0, p.1, subject_of(msg), turn))
}

/// The links a run of messages names, message by message.
pub open spec fn msgs_events(turn: nat, msgs: Seq<Seq<char>>) -> Seq<LinkEv>
    decreases msgs.len(),
{
    if msgs.len() == 0 {
        Seq::empty()
    } else {
        msgs_events(turn, msgs.drop_last()) + msg_events(turn, msgs.last())
    }
}

/// The links a run of candidates names, candidate by candidate.
pub open spec fn events(cands: Seq<Candidate>) -> Seq<LinkEv>
    decreases cands.len(),
{
    if cands.len() == 0 {
        Seq::empty()
    } else {
        events(cands.drop_last()) + msgs_events(
            cands.last().turn_index as nat,
            commit_msgs(cands.last().command@),
        )
    }
}

/// `acc` already holds a link for `plan`/`task`.
pub open spec fn has_link(acc: Seq<LinkEv>, plan: Seq<char>, task: Seq<char>) -> bool {
    exists|j: int| 0 <= j < acc.len() && (#[trigger] acc[j]).0 == plan && acc[j].1 == task
}

/// Keeps the first link for each (plan, task).
pub open spec fn fold_links(evs: Seq<LinkEv>) -> Seq<LinkEv>
    decreases evs.len(),
{
    if evs.len() == 0 {
        Seq::empty()
    } else {
        let acc = fold_links(evs.drop_last());
        let e = evs.last();
        if has_link(acc, e.0, e.1) {
            acc
        } else {
            acc.push(e)
        }
    }
}

/// The unvalidated view of derived links.
pub open spec fn links_view(v: Seq<SessionLink>) -> Seq<LinkEv> {
    v.map_values(|l: SessionLink| (l.plan@, l.task@, l.evidence@, l.turn_index as nat))
}

/// No two entries share a (plan, task).
pub open spec fn distinct_keys(acc: Seq<LinkEv>) -> bool {
    forall|i: int, j: int|
        0 <= i < j < acc.len() ==> !((#[trigger] acc[i]).0 == (#[trigger] acc[j]).0 && acc[i].1
            == acc[j].1)
}

proof fn lemma_fold_links_distinct(evs: Seq<LinkEv>)
    ensures
        distinct_keys(fold_links(evs)),
    decreases evs.len(),
{
    if evs.len() > 0 {
        lemma_fold_links_distinct(evs.drop_last());
        let acc = fold_links(evs.drop_last());
        let e = evs.last();
        if !has_link(acc, e.0, e.1) {
            let nacc = acc.push(e);
            assert forall|i: int, j: int|
                0 <= i < j < nacc.len() implies !((#[trigger] nacc[i]).0 == (#[trigger] nacc[j]).0
                && nacc[i].1 == nacc[j].1) by {
                if j == acc.len() {
                    assert(nacc[i] == acc[i]);
                } else {
                    assert(nacc[i] == acc[i] && nacc[j] == acc[j]);
                }
            }
        }
    }
}

/// Whether `out` already has a link for `plan`/`task`.
fn has_link_exec(out: &Vec<SessionLink>, plan: &String, task: &String) -> (r: bool)
    ensures
        r == has_link(links_view(out@), plan@, task@),
{
    let n: usize = out.len();
    let mut i: usize = 0;
    while i < n
        invariant
            n == out@.len(),
            i <= n,
            forall|j: int|
                0 <= j < i ==> !((#[trigger] links_view(out@)[j]).0 == plan@ && links_view(
                    out@,
                )[j].1 == task@),
        decreases n - i,
    {
        if str_eq(out[i].plan.as_str(), plan.as_str()) && str_eq(
            out[i].task.as_str(),
            task.as_str(),
        ) {
            assert(links_view(out@)[i as int].0 == plan@ && links_view(out@)[i as int].1
                == task@);
            return true;
        }
        i = i + 1;
    }
    false
}

/// The trimmed first line of a message.
fn subject(msg: &String) -> (r: String)
    ensures
        r@ == subject_of(msg@),
{
    let cs = chars_of(msg.as_str());
    if cs.len() == 0 {
        assert(lines(msg@) =~= Seq::<Seq<char>>::empty());
        return String::new();
    }
    let (first, _next) = next_line(&cs, 0);
    string_of(&trim_exec(&first))
}

/// `plan_task_exists` may answer `l.validated` for the plan and task of `l`.
pub open spec fn validated_by<F: Fn(&str, &str) -> bool>(plan_task_exists: F, l: SessionLink) -> bool {
    exists|a: &str, b: &str|
        a@ == l.plan@ && b@ == l.task@ && #[trigger] plan_task_exists.ensures((a, b), l.validated)
}

/// Derives the links for a run of commit candidates.
///
/// `plan_task_exists` decides validation. Deduplicated on (plan, task): a task worked
/// on across many commits is one link, attributed to the first commit that
/// named it.
pub fn derive(candidates: &[Candidate], plan_task_exists: impl Fn(&str, &str) -> bool) -> (r: Vec<SessionLink>)
    requires
        forall|a: &str, b: &str| #[trigger] plan_task_exists.requires((a, b)),
    ensures
        links_view(r@) == fold_links(events(candidates@)),
        distinct_keys(links_view(r@)),
        forall|i: int| 0 <= i < r@.len() ==> validated_by(plan_task_exists, #[trigger] r@[i]),
{
    let mut out: Vec<SessionLink> = Vec::new();
    let ghost mut done: Seq<LinkEv> = Seq::empty();
    let nc: usize = candidates.len();
    let mut ci: usize = 0;
    while ci < nc
        invariant
            nc == candidates@.len(),
            ci <= nc,
            forall|a: &str, b: &str| #[trigger] plan_task_exists.requires((a, b)),
            done == events(candidates@.take(ci as int)),
            links_view(out@) == fold_links(done),
            forall|i: int| 0 <= i < out@.len() ==> validated_by(plan_task_exists, #[trigger] out@[i]),
        decreases nc - ci,
    {
        let c = &candidates[ci];
        let turn: usize = c.turn_index;
        let msgs = commit_messages(c.command);
        let ghost mviews: Seq<Seq<char>> = commit_msgs(c.command@);
        let ghost start: Seq<LinkEv> = done;
        let nm: usize = msgs.len();
        let mut mi: usize = 0;
        while mi < nm
            invariant
                nm == msgs@.len(),
                mi <= nm,
                mviews.len() == nm,
                forall|k: int| 0 <= k < nm ==> #[trigger] msgs@[k]@ == mviews[k],
                forall|a: &str, b: &str| #[trigger] plan_task_exists.requires((a, b)),
                done == start + msgs_events(turn as nat, mviews.take(mi as int)),
                links_view(out@) == fold_links(done),
                forall|i: int| 0 <= i < out@.len() ==> validated_by(plan_task_exists, #[trigger] out@[i]),
            decreases nm - mi,
        {
            let msg = &msgs[mi];
            let subj = subject(msg);
            let refs = task_refs(msg.as_str());
            let ghost mstart: Seq<LinkEv> = done;
            let ghost mev: Seq<LinkEv> = msg_events(turn as nat, msg@);
            let nr: usize = refs.len();
            let mut ri: usize = 0;
            while ri < nr
                invariant
                    nr == refs@.len(),
                    ri <= nr,
                    mev.len() == nr,
                    forall|k: int|
                        0 <= k < nr ==> (#[trigger] mev[k]) == (
                            refs@[k].0@,
                            refs@[k].1@,
                            subj@,
                            turn as nat,
                        ),
                    forall|a: &str, b: &str| #[trigger] plan_task_exists.requires((a, b)),
                    done == mstart + mev.take(ri as int),
                    links_view(out@) == fold_links(done),
                    forall|i: int| 0 <= i < out@.len() ==> validated_by(plan_task_exists, #[trigger] out@[i]),
                decreases nr - ri,
            {
                let plan = &refs[ri].0;
                let task = &refs[ri].1;
                let ghost e: LinkEv = mev[ri as int];
                proof {
                    assert((done.push(e)).drop_last() =~= done);
                    assert(mstart + mev.take(ri + 1) =~= done.push(e));
                }
                if !has_link_exec(&out, plan, task) {
                    let ps: &str = plan.as_str();
                    let ts: &str = task.as_str();
                    let validated = plan_task_exists(ps, ts);
                    let link = SessionLink {
                        plan: copy_string(plan),
                        task: copy_string(task),
                        evidence: copy_string(&subj),
                        turn_index: turn,
                        validated,
                    };
                    let ghost old_out = out@;
                    out.push(link);
                    proof {
                        assert(links_view(out@) =~= links_view(old_out).push(e));
                        assert forall|i: int| 0 <= i < out@.len() implies validated_by(plan_task_exists, #[trigger] out@[i]) by {
                            if i < old_out.len() {
                                assert(out@[i] == old_out[i]);
                            } else {
                                assert(plan_task_exists.ensures((ps, ts), validated));
                                assert(out@[i].validated == validated);
                                assert(ps@ == out@[i].plan@ && ts@ == out@[i].task@);
                                assert(plan_task_exists.ensures((ps, ts), out@[i].validated));
                            }
                        }
                    }
                }
                proof {
                    done = done.push(e);
                }
                ri = ri + 1;
            }
            proof {
                assert(mev.take(nr as int) =~= mev);
                assert(mviews.take(mi + 1).drop_last() =~= mviews.take(mi as int));
                assert(done =~= start + msgs_events(turn as nat, mviews.take(mi + 1)));
            }
            mi = mi + 1;
        }
        proof {
            assert(mviews.take(nm as int) =~= mviews);
            assert(candidates@.take(ci + 1).drop_last() =~= candidates@.take(ci as int));
            assert(done =~= events(candidates@.take(ci + 1)));
        }
        ci = ci + 1;
    }
    proof {
        assert(candidates@.take(nc as int) =~= candidates@);
        lemma_fold_links_distinct(done);
    }
    out
}

} // verus!
