//! On-demand feature documentation (`help`): how a topic is matched
//! against the compiled docs, which answer it gets, and how another binary
//! is asked for its docs.

use vstd::prelude::*;

use crate::text::{chars_of, contains, contains_exec, owned, string_of, trim, trim_exec, utf8_len, byte_len, chars_eq};

verus! {

/// Which binary owns these docs.
pub const OWNER: &'static str = "ctx";

/// The version of the running binary, stamped into every answer.
pub fn version() -> (r: &'static str)
    ensures
        r@ == "0.1.0"@,
{
    "0.1.0"
}

/// One parameter of a documented feature.
#[derive(Debug, Clone)]
pub struct HelpParam {
    pub name: &'static str,
    pub required: bool,
    pub desc: &'static str,
}

/// One feature's compiled documentation; `feature` is the tool or CLI
/// name.
#[derive(Debug, Clone)]
pub struct HelpDoc {
    pub feature: &'static str,
    /// Catalog group of the no-argument overview.
    pub group: &'static str,
    pub synopsis: &'static str,
    pub syntax: &'static str,
    pub params: &'static [HelpParam],
    pub examples: &'static [&'static str],
    pub gotchas: &'static [&'static str],
    pub related: &'static [&'static str],
}

// ---------------------------------------------------------------------------
// Token estimate
// ---------------------------------------------------------------------------

/// The total UTF-8 length of some strings.
pub open spec fn strs_len(s: Seq<&'static str>) -> nat
    decreases s.len(),
{
    if s.len() == 0 {
        0
    } else {
        strs_len(s.drop_last()) + utf8_len(s.last()@)
    }
}

/// The total UTF-8 length of some parameters' names and descriptions.
pub open spec fn params_len(s: Seq<HelpParam>) -> nat
    decreases s.len(),
{
    if s.len() == 0 {
        0
    } else {
        params_len(s.drop_last()) + utf8_len(s.last().name@) + utf8_len(s.last().desc@)
    }
}

/// The bytes of documentation a doc shows: synopsis, syntax, parameters,
/// examples, gotchas and related features.
pub open spec fn doc_bytes(doc: HelpDoc) -> nat {
    utf8_len(doc.synopsis@) + utf8_len(doc.syntax@) + params_len(doc.params@) + strs_len(
        doc.examples@,
    ) + strs_len(doc.gotchas@) + strs_len(doc.related@)
}

fn strs_bytes(s: &'static [&'static str], acc: usize) -> (r: usize)
    requires
        acc + strs_len(s@) <= usize::MAX,
    ensures
        r == acc + strs_len(s@),
{
    let n: usize = s.len();
    let mut total: usize = acc;
    let mut i: usize = 0;
    while i < n
        invariant
            n == s@.len(),
            i <= n,
            total == acc + strs_len(s@.take(i as int)),
            acc + strs_len(s@) <= usize::MAX,
        decreases n - i,
    {
        assert(s@.take(i + 1).drop_last() =~= s@.take(i as int));
        proof {
            lemma_strs_len_prefix(s@, i + 1);
        }
        total = total + byte_len(s[i]);
        i = i + 1;
    }
    assert(s@.take(n as int) =~= s@);
    total
}

proof fn lemma_strs_len_prefix(s: Seq<&'static str>, k: int)
    requires
        0 <= k <= s.len(),
    ensures
        strs_len(s.take(k)) <= strs_len(s),
    decreases s.len() - k,
{
    if k < s.len() {
        lemma_strs_len_prefix(s, k + 1);
        assert(s.take(k + 1).drop_last() =~= s.take(k));
    } else {
        assert(s.take(k) =~= s);
    }
}

proof fn lemma_params_len_prefix(s: Seq<HelpParam>, k: int)
    requires
        0 <= k <= s.len(),
    ensures
        params_len(s.take(k)) <= params_len(s),
    decreases s.len() - k,
{
    if k < s.len() {
        lemma_params_len_prefix(s, k + 1);
        assert(s.take(k + 1).drop_last() =~= s.take(k));
    } else {
        assert(s.take(k) =~= s);
    }
}

/// A rough token estimate of a doc (4 bytes per token), comparable to
/// recall's.
pub fn est_tokens(doc: &HelpDoc) -> (r: usize)
    requires
        doc_bytes(*doc) <= usize::MAX,
    ensures
        r == doc_bytes(*doc) / 4,
{
    let mut chars: usize = byte_len(doc.synopsis) + byte_len(doc.syntax);
    let ps = doc.params;
    let n: usize = ps.len();
    let mut i: usize = 0;
    while i < n
        invariant
            n == ps@.len(),
            ps@ == doc.params@,
            i <= n,
            chars == utf8_len(doc.synopsis@) + utf8_len(doc.syntax@) + params_len(ps@.take(i as int)),
            doc_bytes(*doc) <= usize::MAX,
        decreases n - i,
    {
        assert(ps@.take(i + 1).drop_last() =~= ps@.take(i as int));
        proof {
            lemma_params_len_prefix(ps@, i + 1);
        }
        chars = chars + byte_len(ps[i].name) + byte_len(ps[i].desc);
        i = i + 1;
    }
    assert(ps@.take(n as int) =~= ps@);
    chars = strs_bytes(doc.examples, chars);
    chars = strs_bytes(doc.gotchas, chars);
    chars = strs_bytes(doc.related, chars);
    chars / 4
}

// ---------------------------------------------------------------------------
// Matching a topic
// ---------------------------------------------------------------------------

/// What `str::to_lowercase` makes of a string (full Unicode lowercase
/// mapping).
pub uninterp spec fn lowercase(s: Seq<char>) -> Seq<char>;

/// Lowercases with `str::to_lowercase`; the result is what [`lowercase`]
/// names.
#[verifier::external_body]
fn to_lowercase(s: &str) -> (r: String)
    ensures
        r@ == lowercase(s@),
{
    s.to_lowercase()
}

/// What `char::is_alphanumeric` says of a character (Unicode `Alphabetic`
/// or `Numeric`).
pub uninterp spec fn alphanumeric(c: char) -> bool;

/// Tests a character with `char::is_alphanumeric`; the result is what
/// [`alphanumeric`] names.
#[verifier::external_body]
fn is_alphanumeric(c: char) -> (r: bool)
    ensures
        r == alphanumeric(c),
{
    c.is_alphanumeric()
}

/// Splitter state after reading `q`: the finished pieces and the piece in
/// progress; every non-alphanumeric character ends a piece.
pub open spec fn pieces_fold(q: Seq<char>) -> (Seq<Seq<char>>, Seq<char>)
    decreases q.len(),
{
    if q.len() == 0 {
        (Seq::empty(), Seq::empty())
    } else {
        let st = pieces_fold(q.drop_last());
        if alphanumeric(q.last()) {
            (st.0, st.1.push(q.last()))
        } else {
            (st.0.push(st.1), Seq::empty())
        }
    }
}

/// The pieces of `q` split at every non-alphanumeric character.
pub open spec fn pieces(q: Seq<char>) -> Seq<Seq<char>> {
    pieces_fold(q).0.push(pieces_fold(q).1)
}

/// The pieces longer than two bytes, in order.
pub open spec fn long_pieces(ps: Seq<Seq<char>>) -> Seq<Seq<char>>
    decreases ps.len(),
{
    if ps.len() == 0 {
        ps
    } else if utf8_len(ps.last()) > 2 {
        long_pieces(ps.drop_last()).push(ps.last())
    } else {
        long_pieces(ps.drop_last())
    }
}

/// The match tokens of a query: its pieces longer than two bytes.
pub open spec fn query_tokens(q: Seq<char>) -> Seq<Seq<char>> {
    long_pieces(pieces(q))
}

/// A score at or above this matched the feature name.
pub const STRONG_MATCH: u32 = 200;

/// `a + b` as a wrapping `u32` addition.
pub open spec fn wrap_add(a: u32, b: u32) -> u32 {
    ((a as int + b as int) % 0x1_0000_0000) as u32
}

/// The score after the first `n` tokens, from `start`: each token found
/// in the feature name adds 100, each found in the synopsis adds 20.
pub open spec fn token_score(feat: Seq<char>, syn: Seq<char>, toks: Seq<Seq<char>>, start: u32, n: int) -> u32
    decreases n,
{
    if n <= 0 || n > toks.len() {
        start
    } else {
        let s = token_score(feat, syn, toks, start, n - 1);
        let s1 = if contains(feat, toks[n - 1]) {
            wrap_add(s, 100)
        } else {
            s
        };
        if contains(syn, toks[n - 1]) {
            wrap_add(s1, 20)
        } else {
            s1
        }
    }
}

/// The score of a doc against a lowercased query: 1000 for the exact
/// feature name; else 200 when name and query contain one another, plus
/// the token overlaps (sums wrap at 2^32, as `u32` addition does in a
/// release build).
pub open spec fn score_of(feature: Seq<char>, synopsis: Seq<char>, q: Seq<char>) -> u32 {
    let feat = lowercase(feature);
    if feat == q {
        1000
    } else {
        let base: u32 = if contains(feat, q) || contains(q, feat) {
            STRONG_MATCH
        } else {
            0
        };
        let toks = query_tokens(q);
        token_score(feat, lowercase(synopsis), toks, base, toks.len() as int)
    }
}

fn query_tokens_exec(q: &Vec<char>) -> (r: Vec<Vec<char>>)
    ensures
        r@.len() == query_tokens(q@).len(),
        forall|i: int| 0 <= i < r@.len() ==> #[trigger] r@[i]@ == query_tokens(q@)[i],
{
    let n: usize = q.len();
    let mut all: Vec<Vec<char>> = Vec::new();
    let mut cur: Vec<char> = Vec::new();
    let ghost mut done: Seq<Seq<char>> = Seq::empty();
    let mut i: usize = 0;
    while i < n
        invariant
            n == q@.len(),
            i <= n,
            pieces_fold(q@.take(i as int)) == (done, cur@),
            all@.len() == done.len(),
            forall|k: int| 0 <= k < all@.len() ==> #[trigger] all@[k]@ == done[k],
        decreases n - i,
    {
        let c = q[i];
        assert(q@.take(i + 1).drop_last() =~= q@.take(i as int));
        assert(q@.take(i + 1).last() == c);
        if is_alphanumeric(c) {
            cur.push(c);
        } else {
            proof {
                done = done.push(cur@);
            }
            all.push(cur);
            cur = Vec::new();
            assert(cur@ =~= Seq::<char>::empty());
        }
        i = i + 1;
    }
    assert(q@.take(n as int) =~= q@);
    proof {
        done = done.push(cur@);
    }
    all.push(cur);
    assert(done == pieces(q@));
    // keep the pieces longer than two bytes
    let ghost ps = pieces(q@);
    let m: usize = all.len();
    let mut out: Vec<Vec<char>> = Vec::new();
    let mut j: usize = 0;
    while j < m
        invariant
            m == all@.len(),
            m == ps.len(),
            forall|k: int| 0 <= k < m ==> #[trigger] all@[k]@ == ps[k],
            j <= m,
            out@.len() == long_pieces(ps.take(j as int)).len(),
            forall|k: int| 0 <= k < out@.len() ==> #[trigger] out@[k]@ == long_pieces(ps.take(j as int))[k],
        decreases m - j,
    {
        let ghost before = ps.take(j as int);
        assert(ps.take(j + 1).drop_last() =~= before);
        let piece = &all[j];
        let s = string_of(piece);
        if crate::text::string_byte_len(&s) > 2 {
            out.push(crate::text::slice_chars(piece, 0, piece.len()));
        }
        j = j + 1;
    }
    assert(ps.take(m as int) =~= ps);
    out
}

fn score_with(feat: &Vec<char>, syn: &Vec<char>, q: &Vec<char>, toks: &Vec<Vec<char>>) -> (r: u32)
    requires
        toks@.len() == query_tokens(q@).len(),
        forall|i: int| 0 <= i < toks@.len() ==> #[trigger] toks@[i]@ == query_tokens(q@)[i],
    ensures
        r == (if feat@ == q@ {
            1000u32
        } else {
            token_score(
                feat@,
                syn@,
                query_tokens(q@),
                if contains(feat@, q@) || contains(q@, feat@) {
                    STRONG_MATCH
                } else {
                    0
                },
                query_tokens(q@).len() as int,
            )
        }),
{
    if chars_eq(feat, q) {
        return 1000;
    }
    let mut s: u32 = if contains_exec(feat, q) || contains_exec(q, feat) {
        STRONG_MATCH
    } else {
        0
    };
    let ghost start = s;
    let n: usize = toks.len();
    let mut i: usize = 0;
    while i < n
        invariant
            n == toks@.len(),
            n == query_tokens(q@).len(),
            forall|k: int| 0 <= k < n ==> #[trigger] toks@[k]@ == query_tokens(q@)[k],
            i <= n,
            s == token_score(feat@, syn@, query_tokens(q@), start, i as int),
        decreases n - i,
    {
        if contains_exec(feat, &toks[i]) {
            s = s.wrapping_add(100);
        }
        if contains_exec(syn, &toks[i]) {
            s = s.wrapping_add(20);
        }
        i = i + 1;
    }
    s
}

/// Scores a doc against a lowercased query; higher is better, 0 is no
/// match.
pub fn score(doc: &HelpDoc, q: &str) -> (r: u32)
    ensures
        r == score_of(doc.feature@, doc.synopsis@, q@),
{
    let feat = chars_of(to_lowercase(doc.feature).as_str());
    let syn = chars_of(to_lowercase(doc.synopsis).as_str());
    let qv = chars_of(q);
    let toks = query_tokens_exec(&qv);
    score_with(&feat, &syn, &qv, &toks)
}

// ---------------------------------------------------------------------------
// Ranking and answering
// ---------------------------------------------------------------------------

/// A scored feature: (feature name, score).
pub type Ranked = (Seq<char>, u32);

/// `a` ranks before `b`: a higher score, or an equal one and a feature
/// name that sorts first.
pub open spec fn ranks_ahead(a: Ranked, b: Ranked) -> bool {
    a.1 > b.1 || (a.1 == b.1 && crate::recall::seq_lt(a.0, b.0))
}

/// The first position at or after `i` whose entry `x` ranks ahead of.
pub open spec fn first_behind(x: Ranked, s: Seq<Ranked>, i: int) -> int
    decreases s.len() - i,
{
    if i < 0 || i >= s.len() {
        s.len() as int
    } else if ranks_ahead(x, s[i]) {
        i
    } else {
        first_behind(x, s, i + 1)
    }
}

/// The stable ranking of scored features (a stable sort by score, highest
/// first, then by feature name).
pub open spec fn ranking(s: Seq<Ranked>) -> Seq<Ranked>
    decreases s.len(),
{
    if s.len() == 0 {
        s
    } else {
        let r = ranking(s.drop_last());
        let k = first_behind(s.last(), r, 0);
        r.take(k) + seq![s.last()] + r.skip(k)
    }
}

/// The docs matching a lowercased query, as (feature, score), in registry
/// order.
pub open spec fn matching(docs: Seq<HelpDoc>, q: Seq<char>) -> Seq<Ranked>
    decreases docs.len(),
{
    if docs.len() == 0 {
        Seq::empty()
    } else {
        let prev = matching(docs.drop_last(), q);
        let d = docs.last();
        let s = score_of(d.feature@, d.synopsis@, q);
        if s > 0 {
            prev.push((d.feature@, s))
        } else {
            prev
        }
    }
}

/// The answer to a `help` request.
#[derive(Debug, Clone, PartialEq, Eq)]
pub enum HelpAnswer {
    /// No topic: the grouped catalog of every feature.
    Catalog,
    /// A confident match on a feature name: that feature's doc, and up to
    /// four runners-up.
    Doc { feature: String, also: Vec<String> },
    /// Only weak matches: up to six candidates to pick from.
    Matches { query: String, features: Vec<String> },
    /// Nothing matched.
    NotFound { query: String },
}

/// The features of some ranked entries.
pub open spec fn features(s: Seq<Ranked>) -> Seq<Seq<char>> {
    s.map_values(|e: Ranked| e.0)
}

/// The answer for a lowercased, trimmed query `q` over `docs`.
pub open spec fn answer_is(docs: Seq<HelpDoc>, q: Seq<char>, a: HelpAnswer) -> bool {
    let ranked = ranking(matching(docs, q));
    if q.len() == 0 {
        a == HelpAnswer::Catalog
    } else if ranked.len() == 0 {
        a matches HelpAnswer::NotFound { query } && query@ == q
    } else if ranked[0].1 >= STRONG_MATCH {
        a matches HelpAnswer::Doc { feature, also } && feature@ == ranked[0].0 && crate::text::views(
            also@,
        ) == features(ranked.subrange(1, if ranked.len() < 5 { ranked.len() as int } else { 5 }))
    } else {
        a matches HelpAnswer::Matches { query, features: fs } && query@ == q && crate::text::views(
            fs@,
        ) == features(ranked.take(if ranked.len() < 6 { ranked.len() as int } else { 6 }))
    }
}

fn str_before(a: &Vec<char>, b: &Vec<char>) -> (r: bool)
    ensures
        r == crate::recall::seq_lt(a@, b@),
{
    let mut i: usize = 0;
    assert(a@.skip(0) =~= a@ && b@.skip(0) =~= b@);
    while i < a.len() && i < b.len() && a[i] == b[i]
        invariant
            i <= a@.len(),
            i <= b@.len(),
            crate::recall::seq_lt(a@, b@) == crate::recall::seq_lt(a@.skip(i as int), b@.skip(i as int)),
        decreases a@.len() - i,
    {
        assert(a@.skip(i as int).drop_first() =~= a@.skip(i + 1));
        assert(b@.skip(i as int).drop_first() =~= b@.skip(i + 1));
        i = i + 1;
    }
    if i == b.len() {
        false
    } else if i == a.len() {
        true
    } else {
        (a[i] as u32) < (b[i] as u32)
    }
}

/// Ranks the matching docs.
fn rank_matches(docs: &[HelpDoc], q: &str) -> (r: Vec<(Vec<char>, u32)>)
    ensures
        r@.map_values(|e: (Vec<char>, u32)| (e.0@, e.1)) == ranking(matching(docs@, q@)),
{
    let n: usize = docs.len();
    let mut out: Vec<(Vec<char>, u32)> = Vec::new();
    let mut i: usize = 0;
    assert(docs@.take(0) =~= Seq::<HelpDoc>::empty());
    while i < n
        invariant
            n == docs@.len(),
            i <= n,
            out@.map_values(|e: (Vec<char>, u32)| (e.0@, e.1)) == ranking(matching(docs@.take(i as int), q@)),
        decreases n - i,
    {
        assert(docs@.take(i + 1).drop_last() =~= docs@.take(i as int));
        let s = score(&docs[i], q);
        if s > 0 {
            let f = chars_of(docs[i].feature);
            let ghost ov = out@.map_values(|e: (Vec<char>, u32)| (e.0@, e.1));
            let ghost x: Ranked = (f@, s);
            assert(matching(docs@.take(i + 1), q@) == matching(docs@.take(i as int), q@).push(x));
            assert(matching(docs@.take(i + 1), q@).drop_last() =~= matching(docs@.take(i as int), q@));
            let m: usize = out.len();
            let mut k: usize = 0;
            while k < m && !(s > out[k].1 || (s == out[k].1 && str_before(&f, &out[k].0)))
                invariant
                    m == out@.len(),
                    ov == out@.map_values(|e: (Vec<char>, u32)| (e.0@, e.1)),
                    x == (f@, s),
                    k <= m,
                    first_behind(x, ov, 0) == first_behind(x, ov, k as int),
                decreases m - k,
            {
                k = k + 1;
            }
            out.insert(k, (f, s));
            assert(out@.map_values(|e: (Vec<char>, u32)| (e.0@, e.1)) =~= ov.take(k as int) + seq![x] + ov.skip(
                k as int,
            ));
        } else {
            assert(matching(docs@.take(i + 1), q@) == matching(docs@.take(i as int), q@));
        }
        i = i + 1;
    }
    assert(docs@.take(n as int) =~= docs@);
    out
}

/// The answer to `help` for `topic` over `docs`: the catalog for no (or a
/// blank) topic; else the topic, trimmed and lowercased, is scored against
/// every doc and answered with the confident doc, the weak candidates, or
/// nothing found.
pub fn respond(docs: &[HelpDoc], topic: Option<&str>) -> (r: HelpAnswer)
    ensures
        answer_is(
            docs@,
            match topic {
                Some(t) => lowercase(trim(t@)),
                None => Seq::empty(),
            },
            r,
        ),
{
    let q: String = match topic {
        Some(t) => {
            let tt = string_of(&trim_exec(&chars_of(t)));
            to_lowercase(tt.as_str())
        },
        None => String::new(),
    };
    let qv = chars_of(q.as_str());
    if qv.len() == 0 {
        return HelpAnswer::Catalog;
    }
    let ranked = rank_matches(docs, q.as_str());
    let ghost rv = ranked@.map_values(|e: (Vec<char>, u32)| (e.0@, e.1));
    let n: usize = ranked.len();
    if n == 0 {
        return HelpAnswer::NotFound { query: q };
    }
    assert(rv[0] == (ranked@[0].0@, ranked@[0].1));
    if ranked[0].1 >= STRONG_MATCH {
        let end: usize = if n < 5 {
            n
        } else {
            5
        };
        let mut also: Vec<String> = Vec::new();
        let mut k: usize = 1;
        while k < end
            invariant
                n == ranked@.len(),
                rv == ranked@.map_values(|e: (Vec<char>, u32)| (e.0@, e.1)),
                1 <= k <= end,
                end <= n,
                crate::text::views(also@) =~= features(rv.subrange(1, k as int)),
            decreases end - k,
        {
            let ghost before = also@;
            also.push(string_of(&ranked[k].0));
            assert(crate::text::views(also@) =~= crate::text::views(before).push(rv[k as int].0));
            k = k + 1;
        }
        HelpAnswer::Doc { feature: string_of(&ranked[0].0), also }
    } else {
        let end: usize = if n < 6 {
            n
        } else {
            6
        };
        let mut fs: Vec<String> = Vec::new();
        let mut k: usize = 0;
        while k < end
            invariant
                n == ranked@.len(),
                rv == ranked@.map_values(|e: (Vec<char>, u32)| (e.0@, e.1)),
                k <= end,
                end <= n,
                crate::text::views(fs@) =~= features(rv.take(k as int)),
            decreases end - k,
        {
            let ghost before = fs@;
            fs.push(string_of(&ranked[k].0));
            assert(crate::text::views(fs@) =~= crate::text::views(before).push(rv[k as int].0));
            k = k + 1;
        }
        HelpAnswer::Matches { query: q, features: fs }
    }
}

/// How to run another tool's `help` for JSON output, with proxying off so
/// the child never bounces back: the program and its arguments.
pub fn json_invocation(tool: &str, topic: &str) -> (r: Option<(&'static str, Vec<String>)>)
    ensures
        tool@ == "ctx"@ ==> (r matches Some(v) && v.0@ == "ctx"@ && crate::text::views(v.1@) == seq![
            "help"@,
            topic@,
            "--format"@,
            "json"@,
            "--no-proxy"@,
        ]),
        tool@ == "asd"@ ==> (r matches Some(v) && v.0@ == "asd"@ && crate::text::views(v.1@) == seq![
            "help"@,
            topic@,
            "--agent"@,
            "--no-proxy"@,
        ]),
        tool@ != "ctx"@ && tool@ != "asd"@ ==> r is None,
        invocation_view(r) == invocation_of(tool@, topic@),
{
    proof {
        reveal_strlit("ctx");
        reveal_strlit("asd");
        assert("ctx"@[0] != "asd"@[0]);
    }
    if crate::text::str_eq(tool, "ctx") {
        let mut v: Vec<String> = Vec::new();
        v.push(owned("help"));
        v.push(owned(topic));
        v.push(owned("--format"));
        v.push(owned("json"));
        v.push(owned("--no-proxy"));
        assert(crate::text::views(v@) =~= seq!["help"@, topic@, "--format"@, "json"@, "--no-proxy"@]);
        Some(("ctx", v))
    } else if crate::text::str_eq(tool, "asd") {
        let mut v: Vec<String> = Vec::new();
        v.push(owned("help"));
        v.push(owned(topic));
        v.push(owned("--agent"));
        v.push(owned("--no-proxy"));
        assert(crate::text::views(v@) =~= seq!["help"@, topic@, "--agent"@, "--no-proxy"@]);
        Some(("asd", v))
    } else {
        None
    }
}


/// How another tool is asked for a topic's docs: the program and its
/// arguments, for the tools known here.
pub open spec fn invocation_of(tool: Seq<char>, topic: Seq<char>) -> Option<(Seq<char>, Seq<Seq<char>>)> {
    if tool == "ctx"@ {
        Some(("ctx"@, seq!["help"@, topic, "--format"@, "json"@, "--no-proxy"@]))
    } else if tool == "asd"@ {
        Some(("asd"@, seq!["help"@, topic, "--agent"@, "--no-proxy"@]))
    } else {
        None
    }
}

pub open spec fn invocation_view(r: Option<(&'static str, Vec<String>)>) -> Option<(Seq<char>, Seq<Seq<char>>)> {
    match r {
        Some(v) => Some((v.0@, crate::text::views(v.1@))),
        None => None,
    }
}

/// The topic to ask the other tools about, trimmed: only when proxying is
/// allowed, nothing here matched, and the topic is not blank.
pub fn proxy_topic(local: &HelpAnswer, topic: Option<&str>, allow_proxy: bool) -> (r: Option<String>)
    ensures
        r matches Some(t) ==> t@ == trim(topic->0@),
        r is Some <==> (allow_proxy && local is NotFound && topic is Some && trim(topic->0@).len() > 0),
{
    if !allow_proxy {
        return None;
    }
    match local {
        HelpAnswer::NotFound { .. } => {},
        _ => return None,
    }
    match topic {
        None => None,
        Some(t) => {
            let tt = trim_exec(&chars_of(t));
            if tt.len() == 0 {
                None
            } else {
                Some(string_of(&tt))
            }
        },
    }
}

/// The tools asked, in the index's order, with their invocations: every
/// listed tool but this one that has a known invocation.
pub open spec fn proxy_plan_of(tools: Seq<String>, topic: Seq<char>) -> Seq<
    (Seq<char>, Seq<char>, Seq<Seq<char>>),
>
    decreases tools.len(),
{
    if tools.len() == 0 {
        Seq::empty()
    } else {
        let r = proxy_plan_of(tools.drop_last(), topic);
        let t = tools.last()@;
        if t != OWNER@ && invocation_of(t, topic) is Some {
            r.push((t, (invocation_of(t, topic)->0).0, (invocation_of(t, topic)->0).1))
        } else {
            r
        }
    }
}

/// One tool to ask and how.
#[derive(Debug)]
pub struct ProxyCall {
    pub tool: String,
    pub program: &'static str,
    pub args: Vec<String>,
}

/// The calls that ask the tools of the shared help index (`tools`, in its
/// order) about `topic`; the first whose answer is a feature's doc wins.
pub fn proxy_calls(tools: &Vec<String>, topic: &str) -> (r: Vec<ProxyCall>)
    ensures
        r@.map_values(|c: ProxyCall| (c.tool@, c.program@, crate::text::views(c.args@))) == proxy_plan_of(
            tools@,
            topic@,
        ),
{
    let mut out: Vec<ProxyCall> = Vec::new();
    let n: usize = tools.len();
    let mut i: usize = 0;
    while i < n
        invariant
            n == tools@.len(),
            i <= n,
            out@.map_values(|c: ProxyCall| (c.tool@, c.program@, crate::text::views(c.args@)))
                == proxy_plan_of(tools@.take(i as int), topic@),
        decreases n - i,
    {
        proof {
            assert(tools@.take(i + 1).drop_last() =~= tools@.take(i as int));
            assert(tools@.take(i + 1).last() == tools@[i as int]);
        }
        let tool = &tools[i];
        if !crate::text::str_eq(tool.as_str(), OWNER) {
            match json_invocation(tool.as_str(), topic) {
                Some((program, args)) => {
                    let ghost before = out@;
                    out.push(ProxyCall { tool: crate::text::copy_string(tool), program, args });
                    proof {
                        assert(out@.map_values(
                            |c: ProxyCall| (c.tool@, c.program@, crate::text::views(c.args@)),
                        ) =~= before.map_values(
                            |c: ProxyCall| (c.tool@, c.program@, crate::text::views(c.args@)),
                        ).push(
                            (
                                tool@,
                                (invocation_of(tool@, topic@)->0).0,
                                (invocation_of(tool@, topic@)->0).1,
                            ),
                        ));
                    }
                },
                None => {},
            }
        }
        i = i + 1;
    }
    proof {
        assert(tools@.take(n as int) =~= tools@);
    }
    out
}

} // verus!
