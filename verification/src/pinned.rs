//! Pinned sections: each section under `/memory/pinned` keeps its title and
//! its body in two children, `<section>/title` and `<section>/body`. This
//! pairs them up, one entry per section that has both, in path order.

use vstd::prelude::*;

use crate::recall::{
    lemma_seq_lt_irreflexive, lemma_seq_lt_total, lemma_seq_lt_transitive, opt_view, seq_lt,
    PinnedEntry,
};
use crate::text::{chars_of, copy_string, ends_with, has_suffix, slice_chars, string_of};

verus! {

/// What one read of a pinned path gave: the path, and its text where the
/// graph held a string there.
pub struct PinnedRead {
    pub path: String,
    pub text: Option<String>,
}

/// The section a pinned path belongs to, and whether the path is its title
/// (`true`) or its body (`false`); `None` for any other path.
pub open spec fn pinned_field(path: Seq<char>) -> Option<(Seq<char>, bool)> {
    if has_suffix(path, "/title"@) {
        Some((path.subrange(0, path.len() - "/title"@.len()), true))
    } else if has_suffix(path, "/body"@) {
        Some((path.subrange(0, path.len() - "/body"@.len()), false))
    } else {
        None
    }
}

/// Title and body of each section, as the reads leave them: a later read
/// of the same field replaces an earlier one; reads of other paths, and
/// reads that found no string, change nothing.
pub open spec fn pinned_sections(reads: Seq<PinnedRead>) -> Map<
    Seq<char>,
    (Option<Seq<char>>, Option<Seq<char>>),
>
    decreases reads.len(),
{
    if reads.len() == 0 {
        Map::empty()
    } else {
        let m = pinned_sections(reads.drop_last());
        let r = reads.last();
        match (pinned_field(r.path@), r.text) {
            (Some((s, is_title)), Some(t)) => {
                let cur = if m.contains_key(s) {
                    m[s]
                } else {
                    (None, None)
                };
                m.insert(
                    s,
                    if is_title {
                        (Some(t@), cur.1)
                    } else {
                        (cur.0, Some(t@))
                    },
                )
            },
            _ => m,
        }
    }
}

/// A section whose title and body were both read.
pub open spec fn complete_section(
    m: Map<Seq<char>, (Option<Seq<char>>, Option<Seq<char>>)>,
    s: Seq<char>,
) -> bool {
    m.contains_key(s) && m[s].0 is Some && m[s].1 is Some
}

/// One slot of the table the reads fill in.
struct Slot {
    path: String,
    title: Option<String>,
    body: Option<String>,
}

/// The table holds exactly the sections of `m`, in strictly ascending path
/// order, each with its title and body.
spec fn table_matches(t: Seq<Slot>, m: Map<Seq<char>, (Option<Seq<char>>, Option<Seq<char>>)>) -> bool {
    &&& forall|i: int, j: int| 0 <= i < j < t.len() ==> seq_lt(#[trigger] t[i].path@, #[trigger] t[j].path@)
    &&& forall|i: int|
        0 <= i < t.len() ==> m.contains_key((#[trigger] t[i]).path@) && m[t[i].path@] == (
            opt_view(t[i].title),
            opt_view(t[i].body),
        )
    &&& forall|k: Seq<char>| #[trigger] m.contains_key(k) ==> exists|i: int| 0 <= i < t.len() && (#[trigger] t[i]).path@ == k
}

fn copy_opt(o: &Option<String>) -> (r: Option<String>)
    ensures
        opt_view(r) == opt_view(*o),
{
    match o {
        Some(s) => Some(copy_string(s)),
        None => None,
    }
}

/// The section and field of a pinned path, as `pinned_field` says.
fn field_of(path: &String) -> (r: Option<(String, bool)>)
    ensures
        match r {
            Some((s, b)) => pinned_field(path@) == Some((s@, b)),
            None => pinned_field(path@) is None,
        },
{
    let p = chars_of(path.as_str());
    let title = chars_of("/title");
    let body = chars_of("/body");
    proof {
        reveal_strlit("/title");
        reveal_strlit("/body");
    }
    if ends_with(&p, &title) {
        let s = slice_chars(&p, 0, p.len() - title.len());
        Some((string_of(&s), true))
    } else if ends_with(&p, &body) {
        let s = slice_chars(&p, 0, p.len() - body.len());
        Some((string_of(&s), false))
    } else {
        None
    }
}

/// Records one read in the table.
#[verifier::rlimit(40)]
fn record_read(
    table: &mut Vec<Slot>,
    section: String,
    is_title: bool,
    text: &String,
    Ghost(m): Ghost<Map<Seq<char>, (Option<Seq<char>>, Option<Seq<char>>)>>,
)
    requires
        table_matches(old(table)@, m),
    ensures
        table_matches(
            final(table)@,
            m.insert(
                section@,
                if is_title {
                    (
                        Some(text@),
                        if m.contains_key(section@) {
                            m[section@].1
                        } else {
                            None
                        },
                    )
                } else {
                    (
                        if m.contains_key(section@) {
                            m[section@].0
                        } else {
                            None
                        },
                        Some(text@),
                    )
                },
            ),
        ),
{
    let n: usize = table.len();
    let mut j: usize = 0;
    while j < n && crate::recall::str_lt(&table[j].path, &section)
        invariant
            n == table@.len(),
            table@ == old(table)@,
            j <= n,
            forall|i: int| 0 <= i < j ==> seq_lt(#[trigger] table@[i].path@, section@),
        decreases n - j,
    {
        j = j + 1;
    }
    let ghost t0 = table@;
    let ghost s = section@;
    let ghost cur: (Option<Seq<char>>, Option<Seq<char>>) = if m.contains_key(s) {
        m[s]
    } else {
        (None, None)
    };
    let ghost v: (Option<Seq<char>>, Option<Seq<char>>) = if is_title {
        (Some(text@), cur.1)
    } else {
        (cur.0, Some(text@))
    };
    let ghost m2 = m.insert(s, v);
    if j < n && crate::text::str_eq(table[j].path.as_str(), section.as_str()) {
        let old_title = copy_opt(&table[j].title);
        let old_body = copy_opt(&table[j].body);
        let slot = if is_title {
            Slot { path: section, title: Some(copy_string(text)), body: old_body }
        } else {
            Slot { path: section, title: old_title, body: Some(copy_string(text)) }
        };
        table.set(j, slot);
        proof {
            let t = table@;
            assert forall|i: int| 0 <= i < t.len() implies m2.contains_key((#[trigger] t[i]).path@)
                && m2[t[i].path@] == (opt_view(t[i].title), opt_view(t[i].body)) by {
                if i != j {
                    assert(t[i] == t0[i]);
                    if i < j {
                        assert(seq_lt(t0[i].path@, t0[j as int].path@));
                    } else {
                        assert(seq_lt(t0[j as int].path@, t0[i].path@));
                    }
                    lemma_seq_lt_irreflexive(s);
                }
            }
            assert forall|k: Seq<char>| #[trigger] m2.contains_key(k) implies exists|i: int|
                0 <= i < t.len() && (#[trigger] t[i]).path@ == k by {
                if k == s {
                    assert(t[j as int].path@ == k);
                } else {
                    let i = choose|i: int| 0 <= i < t0.len() && (#[trigger] t0[i]).path@ == k;
                    assert(t[i].path@ == k);
                }
            }
        }
    } else {
        proof {
            if j < n {
                lemma_seq_lt_total(t0[j as int].path@, s);
            }
            // The section is not in the table yet, so not in the map.
            if m.contains_key(s) {
                let i = choose|i: int| 0 <= i < t0.len() && (#[trigger] t0[i]).path@ == s;
                if i < j {
                    lemma_seq_lt_irreflexive(s);
                } else if i == j {
                } else {
                    lemma_seq_lt_transitive(s, t0[j as int].path@, t0[i].path@);
                    lemma_seq_lt_irreflexive(s);
                }
            }
        }
        let slot = if is_title {
            Slot { path: section, title: Some(copy_string(text)), body: None }
        } else {
            Slot { path: section, title: None, body: Some(copy_string(text)) }
        };
        table.insert(j, slot);
        proof {
            let t = table@;
            assert(t.len() == t0.len() + 1);
            assert forall|i: int| 0 <= i < t.len() && i != j implies (#[trigger] t[i]) == (if i < j {
                t0[i]
            } else {
                t0[i - 1]
            }) by {}
            assert forall|a: int, b: int| 0 <= a < b < t.len() implies seq_lt(
                #[trigger] t[a].path@,
                #[trigger] t[b].path@,
            ) by {
                if b < j {
                    assert(t[a] == t0[a] && t[b] == t0[b]);
                } else if b == j {
                    assert(t[a] == t0[a]);
                } else if a == j {
                    assert(t[b] == t0[b - 1]);
                    if b - 1 > j {
                        assert(seq_lt(t0[j as int].path@, t0[b - 1].path@));
                        lemma_seq_lt_transitive(s, t0[j as int].path@, t0[b - 1].path@);
                    }
                } else if a < j {
                    assert(t[a] == t0[a] && t[b] == t0[b - 1]);
                    assert(seq_lt(t0[a].path@, s));
                    if b - 1 > j {
                        lemma_seq_lt_transitive(t0[a].path@, s, t0[j as int].path@);
                        lemma_seq_lt_transitive(t0[a].path@, t0[j as int].path@, t0[b - 1].path@);
                    } else {
                        lemma_seq_lt_transitive(t0[a].path@, s, t0[j as int].path@);
                    }
                } else {
                    assert(t[a] == t0[a - 1] && t[b] == t0[b - 1]);
                }
            }
            assert forall|i: int| 0 <= i < t.len() implies m2.contains_key((#[trigger] t[i]).path@)
                && m2[t[i].path@] == (opt_view(t[i].title), opt_view(t[i].body)) by {
                if i != j {
                    let o = if i < j {
                        i
                    } else {
                        i - 1
                    };
                    assert(t[i] == t0[o]);
                    if o < j {
                        assert(seq_lt(t0[o].path@, s));
                    } else {
                        assert(seq_lt(s, t0[j as int].path@));
                        if o > j {
                            lemma_seq_lt_transitive(s, t0[j as int].path@, t0[o].path@);
                        }
                    }
                    lemma_seq_lt_irreflexive(s);
                }
            }
            assert forall|k: Seq<char>| #[trigger] m2.contains_key(k) implies exists|i: int|
                0 <= i < t.len() && (#[trigger] t[i]).path@ == k by {
                if k == s {
                    assert(t[j as int].path@ == k);
                } else {
                    let i = choose|i: int| 0 <= i < t0.len() && (#[trigger] t0[i]).path@ == k;
                    if i < j {
                        assert(t[i].path@ == k);
                    } else {
                        assert(t[i + 1].path@ == k);
                    }
                }
            }
        }
    }
}

/// Pairs the titles and bodies of pinned sections: one entry per section
/// whose title and body were both read, in ascending path order, each
/// with the text its fields were last read with.
pub fn collect_pinned(reads: &Vec<PinnedRead>) -> (r: Vec<PinnedEntry>)
    ensures
        forall|i: int, j: int|
            0 <= i < j < r@.len() ==> seq_lt(#[trigger] r@[i].path@, #[trigger] r@[j].path@),
        forall|i: int|
            0 <= i < r@.len() ==> complete_section(pinned_sections(reads@), (#[trigger] r@[i]).path@)
                && pinned_sections(reads@)[r@[i].path@] == (
                    Some(r@[i].title@),
                    Some(r@[i].body@),
                ),
        forall|k: Seq<char>|
            #[trigger] complete_section(pinned_sections(reads@), k) ==> exists|i: int|
                0 <= i < r@.len() && (#[trigger] r@[i]).path@ == k,
{
    let mut table: Vec<Slot> = Vec::new();
    let n: usize = reads.len();
    let mut i: usize = 0;
    while i < n
        invariant
            n == reads@.len(),
            i <= n,
            table_matches(table@, pinned_sections(reads@.take(i as int))),
        decreases n - i,
    {
        let ghost m = pinned_sections(reads@.take(i as int));
        assert(reads@.take(i + 1).drop_last() =~= reads@.take(i as int));
        assert(reads@.take(i + 1).last() == reads@[i as int]);
        let read = &reads[i];
        match (field_of(&read.path), &read.text) {
            (Some((section, is_title)), Some(text)) => {
                record_read(&mut table, section, is_title, text, Ghost(m));
            },
            _ => {},
        }
        i = i + 1;
    }
    assert(reads@.take(n as int) =~= reads@);
    let ghost m = pinned_sections(reads@);
    let mut out: Vec<PinnedEntry> = Vec::new();
    let ghost mut idx: Seq<int> = Seq::empty();
    let tn: usize = table.len();
    let mut k: usize = 0;
    while k < tn
        invariant
            tn == table@.len(),
            k <= tn,
            table_matches(table@, m),
            m == pinned_sections(reads@),
            idx.len() == out@.len(),
            forall|a: int| 0 <= a < idx.len() ==> 0 <= #[trigger] idx[a] < k,
            forall|a: int, b: int| 0 <= a < b < idx.len() ==> #[trigger] idx[a] < #[trigger] idx[b],
            forall|a: int|
                0 <= a < out@.len() ==> (#[trigger] out@[a]).path@ == table@[idx[a]].path@
                    && opt_view(table@[idx[a]].title) == Some(out@[a].title@)
                    && opt_view(table@[idx[a]].body) == Some(out@[a].body@),
            forall|a: int|
                0 <= a < k && (#[trigger] table@[a]).title is Some && table@[a].body is Some
                    ==> exists|b: int| 0 <= b < idx.len() && idx[b] == a,
        decreases tn - k,
    {
        let slot = &table[k];
        match (&slot.title, &slot.body) {
            (Some(t), Some(b)) => {
                out.push(
                    PinnedEntry {
                        path: copy_string(&slot.path),
                        title: copy_string(t),
                        body: copy_string(b),
                    },
                );
                proof {
                    let old_idx = idx;
                    idx = idx.push(k as int);
                    assert forall|a: int|
                        0 <= a < k + 1 && (#[trigger] table@[a]).title is Some && table@[a].body is Some
                        implies exists|b: int| 0 <= b < idx.len() && idx[b] == a by {
                        if a == k {
                            assert(idx[idx.len() - 1] == a);
                        } else {
                            let b = choose|b: int| 0 <= b < old_idx.len() && old_idx[b] == a;
                            assert(idx[b] == a);
                        }
                    }
                }
            },
            _ => {},
        }
        k = k + 1;
    }
    proof {
        assert forall|a: int, b: int| 0 <= a < b < out@.len() implies seq_lt(
            #[trigger] out@[a].path@,
            #[trigger] out@[b].path@,
        ) by {
            assert(idx[a] < idx[b]);
            assert(table@[idx[a]].path@ == out@[a].path@);
        }
        assert forall|a: int| 0 <= a < out@.len() implies complete_section(
            m,
            (#[trigger] out@[a]).path@,
        ) && m[out@[a].path@] == (Some(out@[a].title@), Some(out@[a].body@)) by {
            let t = table@[idx[a]];
            assert(m[t.path@] == (opt_view(t.title), opt_view(t.body)));
        }
        assert forall|s: Seq<char>| #[trigger] complete_section(m, s) implies exists|a: int|
            0 <= a < out@.len() && (#[trigger] out@[a]).path@ == s by {
            let i = choose|i: int| 0 <= i < table@.len() && (#[trigger] table@[i]).path@ == s;
            assert(m[table@[i].path@] == (opt_view(table@[i].title), opt_view(table@[i].body)));
            assert(table@[i].title is Some && table@[i].body is Some);
            let b = choose|b: int| 0 <= b < idx.len() && idx[b] == i;
            assert(out@[b].path@ == s);
        }
    }
    out
}

} // verus!
