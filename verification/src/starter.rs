//! Session starters from the user's own words.
//!
//! A long session is best continued in a fresh one, seeded with what the user
//! actually said: each user utterance verbatim and in order (trimmed and
//! de-noised), grouped by topic arc, rendered as paste-ready markdown.

use vstd::prelude::*;

use crate::segments::{
    arc_label, arcs_of, counts_sum, metas_from_records, record_views, segment_turns,
    tokens_total, turn_views, ArcSpec, Segment, TurnRecord,
};
use crate::text::{
    chars_of, concat_chars, decimal, has_prefix, lines, lines_exec, occurs_at, push_chars,
    push_decimal, push_str, slice_chars, starts_with, string_of, trim, trim_end, trim_end_exec, trim_exec,
    trim_start, trim_start_exec,
};

verus! {

/// Longest a single user utterance is kept in the starter (chars).
pub const MAX_SAY_CHARS: usize = 280;

/// At most this many non-empty lines are kept from one user message.
pub const MAX_SAY_LINES: usize = 3;

/// Hard cap on user utterances in the whole starter.
pub const MAX_SAYS: usize = 40;

/// Idle gap (minutes) for arc segmentation inside the starter.
pub const ARC_GAP_MIN: i64 = 90;

// ---------------------------------------------------------------------------
// Distilling one message
// ---------------------------------------------------------------------------

/// Transport or wrapper noise rather than the user's words: harness
/// reminders, command wrappers, tool-output fences.
pub open spec fn noise_line(l: Seq<char>) -> bool {
    let t = trim_start(l);
    ||| has_prefix(t, "<system-reminder"@)
    ||| has_prefix(t, "</system-reminder"@)
    ||| has_prefix(t, "<command-"@)
    ||| has_prefix(t, "</command-"@)
    ||| has_prefix(t, "<local-command"@)
    ||| has_prefix(t, "Caveat:"@)
    ||| has_prefix(t, "```"@)
}

fn starts_with_str(s: &Vec<char>, p: &str) -> (r: bool)
    ensures
        r == has_prefix(s@, p@),
{
    let pc = chars_of(p);
    starts_with(s, &pc)
}

/// Whether a line is transport or wrapper noise.
pub fn is_noise_line(l: &str) -> (r: bool)
    ensures
        r == noise_line(l@),
{
    let t = trim_start_exec(&chars_of(l));
    starts_with_str(&t, "<system-reminder") || starts_with_str(&t, "</system-reminder")
        || starts_with_str(&t, "<command-") || starts_with_str(&t, "</command-")
        || starts_with_str(&t, "<local-command") || starts_with_str(&t, "Caveat:")
        || starts_with_str(&t, "```")
}

/// The lines kept from a message whose lines are `ls`, and whether the scan
/// ends inside a ``` fence: trimmed lines that are neither empty, noise, nor
/// inside a fence, at most three of them.
pub open spec fn kept_lines(ls: Seq<Seq<char>>) -> (Seq<Seq<char>>, bool)
    decreases ls.len(),
{
    if ls.len() == 0 {
        (Seq::empty(), false)
    } else {
        let st = kept_lines(ls.drop_last());
        if st.0.len() >= MAX_SAY_LINES {
            st
        } else {
            let t = trim(ls.last());
            if has_prefix(t, "```"@) {
                (st.0, !st.1)
            } else if st.1 || t.len() == 0 || noise_line(t) {
                st
            } else {
                (st.0.push(t), st.1)
            }
        }
    }
}

/// The parts joined with single spaces.
pub open spec fn join_spaced(parts: Seq<Seq<char>>) -> Seq<char>
    decreases parts.len(),
{
    if parts.len() == 0 {
        Seq::empty()
    } else if parts.len() == 1 {
        parts[0]
    } else {
        join_spaced(parts.drop_last()) + seq![' '] + parts.last()
    }
}

/// One raw user message distilled into a trimmed utterance, or `None` when
/// nothing survives de-noising. Longer than 280 characters, it is cut there,
/// trimmed at the end and marked with `…`.
pub open spec fn distill_spec(text: Seq<char>) -> Option<Seq<char>> {
    let kept = kept_lines(lines(text)).0;
    if kept.len() == 0 {
        None
    } else {
        let j = join_spaced(kept);
        if j.len() > MAX_SAY_CHARS {
            Some(trim_end(j.take(MAX_SAY_CHARS as int)).push('…'))
        } else {
            Some(j)
        }
    }
}

/// What a message keeps are at most three lines, each trimmed, not empty
/// and not noise.
pub proof fn law_kept_lines_clean(ls: Seq<Seq<char>>)
    ensures
        kept_lines(ls).0.len() <= MAX_SAY_LINES,
        forall|k: int|
            0 <= k < kept_lines(ls).0.len() ==> {
                let l = #[trigger] kept_lines(ls).0[k];
                &&& l.len() > 0
                &&& !noise_line(l)
                &&& l == trim(l)
            },
    decreases ls.len(),
{
    if ls.len() > 0 {
        law_kept_lines_clean(ls.drop_last());
        let st = kept_lines(ls.drop_last());
        let t = trim(ls.last());
        if st.0.len() < MAX_SAY_LINES && !has_prefix(t, "```"@) && !(st.1 || t.len() == 0
            || noise_line(t)) {
            crate::text::lemma_trim_idempotent(ls.last());
            assert forall|k: int| 0 <= k < kept_lines(ls).0.len() implies {
                let l = #[trigger] kept_lines(ls).0[k];
                &&& l.len() > 0
                &&& !noise_line(l)
                &&& l == trim(l)
            } by {
                if k < st.0.len() {
                    assert(kept_lines(ls).0[k] == st.0[k]);
                }
            }
        }
    }
}

/// A distilled utterance is never empty and holds at most 280 characters
/// and the `…` that marks a cut.
pub proof fn law_distill_bounded(text: Seq<char>)
    ensures
        distill_spec(text) matches Some(x) ==> 0 < x.len() <= MAX_SAY_CHARS + 1,
{
    let kept = kept_lines(lines(text)).0;
    law_kept_lines_clean(lines(text));
    if kept.len() > 0 {
        let j = join_spaced(kept);
        lemma_join_spaced_len(kept);
        if j.len() > MAX_SAY_CHARS {
            crate::text::lemma_skip_ws_back(j.take(MAX_SAY_CHARS as int), MAX_SAY_CHARS as int);
        }
    }
}

proof fn lemma_join_spaced_len(parts: Seq<Seq<char>>)
    requires
        parts.len() > 0,
        parts[0].len() > 0,
    ensures
        join_spaced(parts).len() > 0,
    decreases parts.len(),
{
    if parts.len() > 1 {
        lemma_join_spaced_len(parts.drop_last());
    }
}

proof fn lemma_kept_lines_stop(ls: Seq<Seq<char>>, j: int, k: int)
    requires
        0 <= j <= k <= ls.len(),
        kept_lines(ls.take(j)).0.len() >= MAX_SAY_LINES,
    ensures
        kept_lines(ls.take(k)) == kept_lines(ls.take(j)),
    decreases k - j,
{
    if k > j {
        lemma_kept_lines_stop(ls, j, k - 1);
        assert(ls.take(k).drop_last() =~= ls.take(k - 1));
    }
}

/// Distills one raw user message into a trimmed utterance.
pub fn distill(user_text: &str) -> (r: Option<String>)
    ensures
        match r {
            Some(s) => distill_spec(user_text@) == Some(s@),
            None => distill_spec(user_text@) is None,
        },
{
    let cs = chars_of(user_text);
    let ls = lines_exec(&cs);
    let n: usize = ls.len();
    let mut kept: Vec<Vec<char>> = Vec::new();
    let mut in_fence = false;
    let mut i: usize = 0;
    let ghost lv = lines(user_text@);
    while i < n && kept.len() < MAX_SAY_LINES
        invariant
            n == lv.len(),
            ls@.len() == n,
            forall|k: int| 0 <= k < n ==> #[trigger] ls@[k]@ == lv[k],
            i <= n,
            kept@.len() == kept_lines(lv.take(i as int)).0.len(),
            forall|k: int| 0 <= k < kept@.len() ==> #[trigger] kept@[k]@ == kept_lines(lv.take(i as int)).0[k],
            in_fence == kept_lines(lv.take(i as int)).1,
        decreases n - i,
    {
        assert(lv.take(i + 1).drop_last() =~= lv.take(i as int));
        let t = trim_exec(&ls[i]);
        if starts_with_str(&t, "```") {
            in_fence = !in_fence;
        } else if in_fence || t.len() == 0 || is_noise_line(string_of(&t).as_str()) {
        } else {
            kept.push(t);
        }
        i = i + 1;
    }
    proof {
        if i < n {
            lemma_kept_lines_stop(lv, i as int, n as int);
        }
        assert(lv.take(n as int) =~= lv);
    }
    if kept.len() == 0 {
        return None;
    }
    let ghost kv = kept_lines(lv).0;
    let mut joined: Vec<char> = slice_chars(&kept[0], 0, kept[0].len());
    let mut k: usize = 1;
    assert(kv.take(1).drop_last() =~= Seq::<Seq<char>>::empty());
    while k < kept.len()
        invariant
            1 <= k <= kept@.len(),
            kept@.len() == kv.len(),
            forall|m: int| 0 <= m < kept@.len() ==> #[trigger] kept@[m]@ == kv[m],
            joined@ == join_spaced(kv.take(k as int)),
        decreases kept@.len() - k,
    {
        let mut sp: Vec<char> = Vec::new();
        sp.push(' ');
        let a = concat_chars(&joined, &sp);
        joined = concat_chars(&a, &kept[k]);
        assert(kv.take(k + 1).drop_last() =~= kv.take(k as int));
        assert(joined@ =~= join_spaced(kv.take(k + 1)));
        k = k + 1;
    }
    assert(kv.take(kept@.len() as int) =~= kv);
    if joined.len() > MAX_SAY_CHARS {
        let cut = slice_chars(&joined, 0, MAX_SAY_CHARS);
        let mut out = trim_end_exec(&cut);
        out.push('…');
        return Some(string_of(&out));
    }
    Some(string_of(&joined))
}


// ---------------------------------------------------------------------------
// Building the starter
// ---------------------------------------------------------------------------

/// One user utterance pulled verbatim from a turn.
pub struct UserSay {
    pub index: usize,
    pub text: String,
}

/// The generated starter and enough provenance to show where it came from.
#[derive(Debug, Clone, PartialEq, Eq)]
pub struct StarterResult {
    /// Paste-ready markdown: the user's own asks, grouped by arc.
    pub markdown: String,
    /// Distinct topic arcs the session spanned.
    pub arc_count: usize,
    /// How many user utterances contributed (after de-noising, capped).
    pub user_turn_count: usize,
    /// Turn indices that contributed, in order.
    pub source_turns: Vec<usize>,
}

/// The utterances of stored turns, in storage order: (turn index, text).
pub open spec fn says_from(rs: Seq<TurnRecord>) -> Seq<(nat, Seq<char>)>
    decreases rs.len(),
{
    if rs.len() == 0 {
        Seq::empty()
    } else {
        let prev = says_from(rs.drop_last());
        let i = rs.len() - 1;
        match rs.last().user_text {
            Some(t) => match distill_spec(t@) {
                Some(x) => prev.push((crate::segments::record_view(i as nat, rs.last()).index, x)),
                None => prev,
            },
            None => prev,
        }
    }
}

/// The utterances of stored turns, in storage order.
pub fn user_says(records: &Vec<TurnRecord>) -> (r: Vec<UserSay>)
    ensures
        r@.len() == says_from(records@).len(),
        forall|k: int|
            0 <= k < r@.len() ==> (#[trigger] r@[k]).index == says_from(records@)[k].0
                && r@[k].text@ == says_from(records@)[k].1,
{
    let n: usize = records.len();
    let mut out: Vec<UserSay> = Vec::new();
    let mut i: usize = 0;
    while i < n
        invariant
            n == records@.len(),
            i <= n,
            out@.len() == says_from(records@.take(i as int)).len(),
            forall|k: int|
                0 <= k < out@.len() ==> (#[trigger] out@[k]).index == says_from(
                    records@.take(i as int),
                )[k].0 && out@[k].text@ == says_from(records@.take(i as int))[k].1,
        decreases n - i,
    {
        assert(records@.take(i + 1).drop_last() =~= records@.take(i as int));
        let rec = &records[i];
        let index: usize = match rec.turn_index {
            Some(v) => v as usize,
            None => i,
        };
        if let Some(raw) = &rec.user_text {
            if let Some(text) = distill(raw.as_str()) {
                out.push(UserSay { index, text });
            }
        }
        i = i + 1;
    }
    assert(records@.take(n as int) =~= records@);
    out
}

/// An arc as the starter groups by it: start, end, label.
pub open spec fn arc_triples(arcs: Seq<ArcSpec>) -> Seq<(nat, nat, Seq<char>)> {
    arcs.map_values(|a: ArcSpec| (a.start, a.end, arc_label(a.branch, a.cwd, a.hint, a.start, a.end)))
}

/// The first arc, from position `from` on, whose range holds turn `index`.
pub open spec fn arc_of_spec(index: nat, arcs: Seq<(nat, nat, Seq<char>)>, from: int) -> Option<int>
    decreases arcs.len() - from,
{
    if from < 0 || from >= arcs.len() {
        None
    } else if arcs[from].0 <= index && index <= arcs[from].1 {
        Some(from)
    } else {
        arc_of_spec(index, arcs, from + 1)
    }
}

/// Which arc (by position) an absolute turn index falls in.
fn arc_of(index: usize, arcs: &Vec<(usize, usize, String)>) -> (r: Option<usize>)
    ensures
        r matches Some(k) ==> k < arcs@.len(),
        match r {
            Some(k) => arc_of_spec(index as nat, arcs_view(arcs@), 0) == Some(k as int),
            None => arc_of_spec(index as nat, arcs_view(arcs@), 0) is None,
        },
{
    let n: usize = arcs.len();
    let mut k: usize = 0;
    while k < n
        invariant
            n == arcs@.len(),
            k <= n,
            arc_of_spec(index as nat, arcs_view(arcs@), 0) == arc_of_spec(
                index as nat,
                arcs_view(arcs@),
                k as int,
            ),
        decreases n - k,
    {
        if index >= arcs[k].0 && index <= arcs[k].1 {
            return Some(k);
        }
        k = k + 1;
    }
    None
}

/// The view of the arcs an exec starter groups by.
pub open spec fn arcs_view(arcs: Seq<(usize, usize, String)>) -> Seq<(nat, nat, Seq<char>)> {
    arcs.map_values(|a: (usize, usize, String)| (a.0 as nat, a.1 as nat, a.2@))
}

/// The heading written when the arc changes to `a`: the arc's label (or
/// "Session"), written when there is more than one arc or the label is not
/// empty.
pub open spec fn heading(a: Option<int>, arcs: Seq<(nat, nat, Seq<char>)>) -> Seq<char> {
    let label: Option<Seq<char>> = match a {
        Some(i) => if 0 <= i < arcs.len() && arcs[i].2.len() > 0 {
            Some(arcs[i].2)
        } else {
            None
        },
        None => None,
    };
    if arcs.len() > 1 || label is Some {
        "\n## "@ + (match label {
            Some(l) => l,
            None => "Session"@,
        }) + "\n"@
    } else {
        Seq::empty()
    }
}

/// The grouped utterance lines: each arc change writes its heading, then
/// each utterance a `- ` bullet. Also returns the arc last written.
pub open spec fn body_of(says: Seq<(nat, Seq<char>)>, arcs: Seq<(nat, nat, Seq<char>)>) -> (
    Option<int>,
    Seq<char>,
)
    decreases says.len(),
{
    if says.len() == 0 {
        (None, Seq::empty())
    } else {
        let st = body_of(says.drop_last(), arcs);
        let s = says.last();
        let a = arc_of_spec(s.0, arcs, 0);
        let h = if a != st.0 {
            heading(a, arcs)
        } else {
            Seq::empty()
        };
        (a, st.1 + h + "- "@ + s.1 + "\n"@)
    }
}

/// The opening of a starter, with the title line when the trimmed title is
/// not empty.
pub open spec fn starter_head(title: Option<Seq<char>>) -> Seq<char> {
    "# Session starter — distilled from what you said\n\n"@ + (match title {
        Some(t) => if trim(t).len() > 0 {
            "_Continuing: "@ + trim(t) + "_\n\n"@
        } else {
            Seq::empty()
        },
        None => Seq::empty(),
    })
        + "_Seeded from your own messages, in order — not an agent summary. Trim anything that's already done, then send._\n\n"@
}

/// The whole markdown of a starter.
pub open spec fn starter_markdown(
    says: Seq<(nat, Seq<char>)>,
    arcs: Seq<(nat, nat, Seq<char>)>,
    title: Option<Seq<char>>,
) -> Seq<char> {
    if says.len() == 0 {
        starter_head(title) + "_(No user messages were found in this session's ingested turns.)_\n"@
    } else {
        let shown = if says.len() > MAX_SAYS {
            says.take(MAX_SAYS as int)
        } else {
            says
        };
        starter_head(title) + body_of(shown, arcs).1 + if says.len() > MAX_SAYS {
            "\n_("@ + decimal((says.len() - MAX_SAYS) as nat)
                + " more user messages omitted — this is a seed, not the full log.)_\n"@
        } else {
            Seq::empty()
        }
    }
}


/// The title a caller passed, as characters.
pub open spec fn title_view(title: Option<&str>) -> Option<Seq<char>> {
    match title {
        Some(t) => Some(t@),
        None => None,
    }
}

/// Appends the heading for a change to arc `a`.
fn push_heading(md: &mut String, a: Option<usize>, arcs: &Vec<(usize, usize, String)>)
    requires
        a matches Some(i) ==> i < arcs@.len(),
    ensures
        final(md)@ == old(md)@ + heading(
            match a {
                Some(i) => Some(i as int),
                None => None,
            },
            arcs_view(arcs@),
        ),
{
    let label: Option<&String> = match a {
        Some(ai) => if chars_of(arcs[ai].2.as_str()).len() > 0 {
            Some(&arcs[ai].2)
        } else {
            None
        },
        None => None,
    };
    if arcs.len() > 1 || label.is_some() {
        push_str(md, "\n## ");
        match label {
            Some(l) => push_str(md, l.as_str()),
            None => push_str(md, "Session"),
        }
        push_str(md, "\n");
    }
}

proof fn lemma_body_step(says: Seq<(nat, Seq<char>)>, arcs: Seq<(nat, nat, Seq<char>)>, k: int)
    requires
        0 <= k < says.len(),
    ensures
        ({
            let prev = body_of(says.take(k), arcs);
            let a = arc_of_spec(says[k].0, arcs, 0);
            body_of(says.take(k + 1), arcs) == (
                a,
                prev.1 + (if a != prev.0 {
                    heading(a, arcs)
                } else {
                    Seq::empty()
                }) + "- "@ + says[k].1 + "\n"@,
            )
        }),
{
    assert(says.take(k + 1).drop_last() =~= says.take(k));
    assert(says.take(k + 1).last() == says[k]);
}

/// The lines of the first `k` utterances begin the lines of all of them.
proof fn lemma_body_prefix(says: Seq<(nat, Seq<char>)>, arcs: Seq<(nat, nat, Seq<char>)>, k: int)
    requires
        0 <= k <= says.len(),
    ensures
        body_of(says.take(k), arcs).1.len() <= body_of(says, arcs).1.len(),
        body_of(says, arcs).1.subrange(0, body_of(says.take(k), arcs).1.len() as int) == body_of(
            says.take(k),
            arcs,
        ).1,
    decreases says.len(),
{
    if k == says.len() {
        assert(says.take(k) =~= says);
        assert(body_of(says, arcs).1.subrange(0, body_of(says, arcs).1.len() as int) =~= body_of(
            says,
            arcs,
        ).1);
    } else {
        let p = says.drop_last();
        assert(p.take(k) =~= says.take(k));
        lemma_body_prefix(p, arcs, k);
        let whole = body_of(says, arcs).1;
        let mid = body_of(p, arcs).1;
        let pre = body_of(says.take(k), arcs).1;
        assert(whole.subrange(0, mid.len() as int) =~= mid);
        assert(whole.subrange(0, pre.len() as int) =~= mid.subrange(0, pre.len() as int));
    }
}

/// A starter heads its first utterance with that utterance's arc: when the
/// arc holding the first utterance has a non-empty label, the markdown goes
/// on, right after its opening, with `## <label>` on a line of its own and
/// then the utterance as a bullet, whether or not the session has other
/// arcs.
pub proof fn law_starter_heads_first_arc(
    says: Seq<(nat, Seq<char>)>,
    arcs: Seq<(nat, nat, Seq<char>)>,
    title: Option<Seq<char>>,
    i: int,
)
    requires
        says.len() > 0,
        arc_of_spec(says[0].0, arcs, 0) == Some(i),
        0 <= i < arcs.len(),
        arcs[i].2.len() > 0,
    ensures
        occurs_at(
            starter_markdown(says, arcs, title),
            "\n## "@ + arcs[i].2 + "\n- "@ + says[0].1 + "\n"@,
            starter_head(title).len() as int,
        ),
{
    let shown = if says.len() > MAX_SAYS {
        says.take(MAX_SAYS as int)
    } else {
        says
    };
    assert(shown[0] == says[0]);
    let first = shown.take(1);
    assert(first.drop_last() =~= Seq::<(nat, Seq<char>)>::empty());
    assert(body_of(first.drop_last(), arcs) == (None::<int>, Seq::<char>::empty()));
    assert(first.last() == says[0]);
    let pat = "\n## "@ + arcs[i].2 + "\n- "@ + says[0].1 + "\n"@;
    assert(heading(Some(i), arcs) == "\n## "@ + arcs[i].2 + "\n"@);
    assert(body_of(first, arcs).1 == Seq::<char>::empty() + heading(Some(i), arcs) + "- "@
        + says[0].1 + "\n"@);
    reveal_strlit("\n");
    reveal_strlit("- ");
    reveal_strlit("\n- ");
    assert(body_of(first, arcs).1 =~= pat);
    lemma_body_prefix(shown, arcs, 1);
    let body = body_of(shown, arcs).1;
    let head = starter_head(title);
    let tail: Seq<char> = if says.len() > MAX_SAYS {
        "\n_("@ + decimal((says.len() - MAX_SAYS) as nat)
            + " more user messages omitted — this is a seed, not the full log.)_\n"@
    } else {
        Seq::empty()
    };
    let md = starter_markdown(says, arcs, title);
    assert(md == head + body + tail);
    assert(md.subrange(head.len() as int, (head.len() + pat.len()) as int) =~= body.subrange(
        0,
        pat.len() as int,
    ));
}

/// `law_starter_heads_first_arc` for the utterances and arcs of stored turns.
proof fn lemma_starter_heads(rs: Seq<TurnRecord>, title: Option<Seq<char>>)
    ensures
        forall|i: int|
            says_from(rs).len() > 0 && arc_of_spec(
                says_from(rs)[0].0,
                arc_triples(arcs_of(record_views(rs), ARC_GAP_MIN)),
                0,
            ) == Some(i) && 0 <= i < arcs_of(record_views(rs), ARC_GAP_MIN).len() && (
            #[trigger] arc_triples(arcs_of(record_views(rs), ARC_GAP_MIN))[i]).2.len() > 0
                ==> occurs_at(
                starter_markdown(
                    says_from(rs),
                    arc_triples(arcs_of(record_views(rs), ARC_GAP_MIN)),
                    title,
                ),
                "\n## "@ + arc_triples(arcs_of(record_views(rs), ARC_GAP_MIN))[i].2 + "\n- "@
                    + says_from(rs)[0].1 + "\n"@,
                starter_head(title).len() as int,
            ),
{
    let av = arc_triples(arcs_of(record_views(rs), ARC_GAP_MIN));
    assert forall|i: int|
        says_from(rs).len() > 0 && arc_of_spec(says_from(rs)[0].0, av, 0) == Some(i) && 0 <= i
            < arcs_of(record_views(rs), ARC_GAP_MIN).len() && (#[trigger] av[i]).2.len()
            > 0 implies occurs_at(
        starter_markdown(says_from(rs), av, title),
        "\n## "@ + av[i].2 + "\n- "@ + says_from(rs)[0].1 + "\n"@,
        starter_head(title).len() as int,
    ) by {
        law_starter_heads_first_arc(says_from(rs), av, title, i);
    }
}

/// Builds a session starter from the stored turns of a session, in storage
/// order, and an optional session title. `source_turns` are the indices of
/// the turns whose messages it shows (at most `MAX_SAYS`).
pub fn build_starter(records: &Vec<TurnRecord>, title: Option<&str>) -> (r: StarterResult)
    requires
        forall|i: int|
            0 <= i < records@.len() ==> counts_sum(#[trigger] records@[i].token_counts@)
                <= u64::MAX,
        tokens_total(record_views(records@)) <= u64::MAX,
    ensures
        r.markdown@ == starter_markdown(
            says_from(records@),
            arc_triples(arcs_of(record_views(records@), ARC_GAP_MIN)),
            title_view(title),
        ),
        r.arc_count == arcs_of(record_views(records@), ARC_GAP_MIN).len(),
        r.user_turn_count == if says_from(records@).len() > MAX_SAYS {
            MAX_SAYS as nat
        } else {
            says_from(records@).len()
        },
        r.source_turns@.len() == r.user_turn_count,
        forall|k: int|
            0 <= k < r.source_turns@.len() ==> #[trigger] r.source_turns@[k] == says_from(
                records@,
            )[k].0,
        forall|i: int|
            says_from(records@).len() > 0 && arc_of_spec(
                says_from(records@)[0].0,
                arc_triples(arcs_of(record_views(records@), ARC_GAP_MIN)),
                0,
            ) == Some(i) && 0 <= i < arcs_of(record_views(records@), ARC_GAP_MIN).len() && (
            #[trigger] arc_triples(arcs_of(record_views(records@), ARC_GAP_MIN))[i]).2.len() > 0
                ==> occurs_at(
                r.markdown@,
                "\n## "@ + arc_triples(arcs_of(record_views(records@), ARC_GAP_MIN))[i].2 + "\n- "@
                    + says_from(records@)[0].1 + "\n"@,
                starter_head(title_view(title)).len() as int,
            ),
{
    let says = user_says(records);
    let ghost sv = says_from(records@);
    let ns: usize = says.len();
    let mut source_turns: Vec<usize> = Vec::new();
    let mut i: usize = 0;
    while i < ns && i < MAX_SAYS
        invariant
            ns == says@.len(),
            ns == sv.len(),
            forall|k: int| 0 <= k < ns ==> (#[trigger] says@[k]).index == sv[k].0 && says@[k].text@ == sv[k].1,
            i <= ns,
            i <= MAX_SAYS,
            source_turns@.len() == i,
            forall|k: int| 0 <= k < i ==> #[trigger] source_turns@[k] == sv[k].0,
        decreases ns - i,
    {
        source_turns.push(says[i].index);
        i = i + 1;
    }

    let metas = metas_from_records(records);
    let segs = segment_turns(&metas, ARC_GAP_MIN);
    let ghost av = arc_triples(arcs_of(record_views(records@), ARC_GAP_MIN));
    let mut arcs: Vec<(usize, usize, String)> = Vec::new();
    let nseg: usize = segs.len();
    let mut j: usize = 0;
    while j < nseg
        invariant
            nseg == segs@.len(),
            nseg == av.len(),
            nseg == arcs_of(record_views(records@), ARC_GAP_MIN).len(),
            av == arc_triples(arcs_of(record_views(records@), ARC_GAP_MIN)),
            forall|k: int|
                0 <= k < nseg ==> crate::segments::segment_is(
                    #[trigger] segs@[k],
                    arcs_of(record_views(records@), ARC_GAP_MIN)[k],
                ),
            j <= nseg,
            arcs@.len() == j,
            forall|k: int| 0 <= k < j ==> #[trigger] arcs_view(arcs@)[k] == av[k],
        decreases nseg - j,
    {
        let sg = &segs[j];
        let ghost old_arcs = arcs@;
        arcs.push((sg.start, sg.end, crate::text::copy_string(&sg.label)));
        proof {
            assert(crate::segments::segment_is(segs@[j as int], arcs_of(record_views(records@), ARC_GAP_MIN)[j as int]));
            assert forall|k: int| 0 <= k < j + 1 implies #[trigger] arcs_view(arcs@)[k] == av[k] by {
                if k < j {
                    assert(arcs@[k] == old_arcs[k]);
                    assert(arcs_view(old_arcs)[k] == av[k]);
                } else {
                    let aa = arcs_of(record_views(records@), ARC_GAP_MIN)[k];
                    assert(av[k] == (aa.start, aa.end, arc_label(aa.branch, aa.cwd, aa.hint, aa.start, aa.end)));
                }
            }
        }
        j = j + 1;
    }
    assert(arcs_view(arcs@) =~= av);

    let mut md = String::new();
    push_str(&mut md, "# Session starter — distilled from what you said\n\n");
    if let Some(t) = title {
        let tt = trim_exec(&chars_of(t));
        if tt.len() > 0 {
            push_str(&mut md, "_Continuing: ");
            push_chars(&mut md, &tt);
            push_str(&mut md, "_\n\n");
        }
    }
    push_str(
        &mut md,
        "_Seeded from your own messages, in order — not an agent summary. Trim anything that's already done, then send._\n\n",
    );
    assert(md@ =~= starter_head(title_view(title)));

    if ns == 0 {
        push_str(&mut md, "_(No user messages were found in this session's ingested turns.)_\n");
        proof {
            assert(md@ =~= starter_markdown(
                says_from(records@),
                arc_triples(arcs_of(record_views(records@), ARC_GAP_MIN)),
                title_view(title),
            ));
            lemma_starter_heads(records@, title_view(title));
        }
        return StarterResult { markdown: md, arc_count: arcs.len(), user_turn_count: 0, source_turns };
    }

    let shown: usize = if ns > MAX_SAYS {
        MAX_SAYS
    } else {
        ns
    };
    let ghost shown_v = if sv.len() > MAX_SAYS {
        sv.take(MAX_SAYS as int)
    } else {
        sv
    };
    let ghost head = md@;
    let mut current: Option<usize> = None;
    let mut k: usize = 0;
    while k < shown
        invariant
            shown <= ns,
            ns == says@.len(),
            ns == sv.len(),
            shown_v.len() == shown,
            forall|m: int| 0 <= m < shown ==> #[trigger] shown_v[m] == sv[m],
            forall|m: int| 0 <= m < ns ==> (#[trigger] says@[m]).index == sv[m].0 && says@[m].text@ == sv[m].1,
            k <= shown,
            md@ == head + body_of(shown_v.take(k as int), arcs_view(arcs@)).1,
            body_of(shown_v.take(k as int), arcs_view(arcs@)).0 == (match current {
                Some(c) => Some(c as int),
                None => None,
            }),
        decreases shown - k,
    {
        let say = &says[k];
        let a = arc_of(say.index, &arcs);
        proof {
            lemma_body_step(shown_v, arcs_view(arcs@), k as int);
        }
        if a != current {
            current = a;
            push_heading(&mut md, a, &arcs);
        }
        push_str(&mut md, "- ");
        push_str(&mut md, say.text.as_str());
        push_str(&mut md, "\n");
        k = k + 1;
    }
    assert(shown_v.take(shown as int) =~= shown_v);
    if ns > MAX_SAYS {
        push_str(&mut md, "\n_(");
        push_decimal(&mut md, (ns - MAX_SAYS) as u64);
        push_str(&mut md, " more user messages omitted — this is a seed, not the full log.)_\n");
    }
    proof {
        assert(md@ =~= starter_markdown(
            says_from(records@),
            arc_triples(arcs_of(record_views(records@), ARC_GAP_MIN)),
            title_view(title),
        ));
        lemma_starter_heads(records@, title_view(title));
    }
    StarterResult { markdown: md, arc_count: arcs.len(), user_turn_count: shown, source_turns }
}

} // verus!
