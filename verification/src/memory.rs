//! Memory-facing helpers: path slugs, recall query tokenization, bounded
//! truncation, `remember` input validation, and per-session token accounting.

use vstd::prelude::*;

use crate::text::{byte_len, char_width, char_width_exec, chars_eq, chars_of, decimal, has_char, is_control, is_control_exec, owned, push_decimal, push_str, slice_chars, str_eq, string_byte_len, utf8_len, is_alnum, is_alnum_exec, lower, lower_exec, string_of};

verus! {

/// The session ID used when a request doesn't name one.
pub const DEFAULT_SESSION_ID: &'static str = "default";

/// The agent ID recorded on commits when no caller-specific agent is known.
pub const DEFAULT_AGENT_ID: &'static str = "ctxone";

/// Maximum length in bytes for a stored memory fact.
pub const MAX_FACT_LEN: usize = 65536;

/// Max length (bytes) of the `context` param on `remember`.
pub const MAX_CONTEXT_LEN: usize = 128;

/// Max tags per `remember` call.
pub const MAX_TAGS: usize = 16;

/// Max length (bytes) per tag.
pub const MAX_TAG_LEN: usize = 64;

/// Maximum length in bytes for a primed section's title.
pub const MAX_SECTION_TITLE_LEN: usize = 512;

/// Maximum length in bytes for a primed section's body.
pub const MAX_SECTION_BODY_LEN: usize = 131072;

// ---------------------------------------------------------------------------
// slugify
// ---------------------------------------------------------------------------

/// The slug before trailing dashes are trimmed: alphanumerics lowered, every
/// run of other characters after the first alphanumeric becoming one `-`.
pub open spec fn slug_raw(s: Seq<char>) -> Seq<char>
    decreases s.len(),
{
    if s.len() == 0 {
        Seq::empty()
    } else {
        let r = slug_raw(s.drop_last());
        let c = s.last();
        if is_alnum(c) {
            r.push(lower(c))
        } else if r.len() > 0 && r.last() != '-' {
            r.push('-')
        } else {
            r
        }
    }
}

/// `r` with every trailing `c` removed (`trim_end_matches(c)`).
pub open spec fn strip_trailing(r: Seq<char>, c: char) -> Seq<char>
    decreases r.len(),
{
    if r.len() > 0 && r.last() == c {
        strip_trailing(r.drop_last(), c)
    } else {
        r
    }
}

/// `r` with every leading `c` removed (`trim_start_matches(c)`).
pub open spec fn strip_leading(r: Seq<char>, c: char) -> Seq<char>
    decreases r.len(),
{
    if r.len() > 0 && r[0] == c {
        strip_leading(r.drop_first(), c)
    } else {
        r
    }
}

/// The slug of a title: lowercase ASCII alphanumerics joined by single dashes.
pub open spec fn slug(s: Seq<char>) -> Seq<char> {
    strip_trailing(slug_raw(s), '-')
}

/// A character that may appear in a slug.
pub open spec fn slug_char(c: char) -> bool {
    ('a' <= c && c <= 'z') || ('0' <= c && c <= '9') || c == '-'
}

/// The shape every slug has: only `[a-z0-9-]`, no dash at either end and no
/// two dashes in a row.
pub open spec fn is_slug(r: Seq<char>) -> bool {
    &&& forall|i: int| 0 <= i < r.len() ==> slug_char(#[trigger] r[i])
    &&& (r.len() > 0 ==> r[0] != '-' && r.last() != '-')
    &&& forall|i: int| 0 <= i < r.len() - 1 ==> !(#[trigger] r[i] == '-' && r[i + 1] == '-')
}

proof fn lemma_lower_alnum(c: char)
    requires
        is_alnum(c),
    ensures
        slug_char(lower(c)),
        lower(c) != '-',
        is_alnum(lower(c)),
        lower(lower(c)) == lower(c),
{
}

proof fn lemma_slug_raw_shape(s: Seq<char>)
    ensures
        forall|i: int| 0 <= i < slug_raw(s).len() ==> slug_char(#[trigger] slug_raw(s)[i]),
        slug_raw(s).len() > 0 ==> slug_raw(s)[0] != '-',
        forall|i: int|
            0 <= i < slug_raw(s).len() - 1 ==> !(#[trigger] slug_raw(s)[i] == '-' && slug_raw(
                s,
            )[i + 1] == '-'),
    decreases s.len(),
{
    if s.len() > 0 {
        lemma_slug_raw_shape(s.drop_last());
        let c = s.last();
        if is_alnum(c) {
            lemma_lower_alnum(c);
        }
    }
}

proof fn lemma_strip_trailing(r: Seq<char>, c: char)
    ensures
        strip_trailing(r, c).len() <= r.len(),
        strip_trailing(r, c) == r.subrange(0, strip_trailing(r, c).len() as int),
        strip_trailing(r, c).len() > 0 ==> strip_trailing(r, c).last() != c,
        forall|k: int| strip_trailing(r, c).len() <= k < r.len() ==> r[k] == c,
    decreases r.len(),
{
    if r.len() > 0 && r.last() == c {
        lemma_strip_trailing(r.drop_last(), c);
        assert forall|k: int| strip_trailing(r, c).len() <= k < r.len() implies r[k] == c by {
            if k < r.len() - 1 {
                assert(r[k] == r.drop_last()[k]);
            }
        }
    } else {
        assert(r.subrange(0, r.len() as int) =~= r);
    }
}

proof fn lemma_strip_leading(r: Seq<char>, c: char)
    ensures
        strip_leading(r, c).len() <= r.len(),
        strip_leading(r, c) == r.subrange(
            r.len() - strip_leading(r, c).len(),
            r.len() as int,
        ),
        strip_leading(r, c).len() > 0 ==> strip_leading(r, c)[0] != c,
        forall|k: int| 0 <= k < r.len() - strip_leading(r, c).len() ==> r[k] == c,
    decreases r.len(),
{
    if r.len() > 0 && r[0] == c {
        lemma_strip_leading(r.drop_first(), c);
        let t = strip_leading(r.drop_first(), c);
        assert(r.drop_first().subrange(r.drop_first().len() - t.len(), r.drop_first().len() as int)
            =~= r.subrange(r.len() - t.len(), r.len() as int));
        assert forall|k: int| 0 <= k < r.len() - t.len() implies r[k] == c by {
            if k > 0 {
                assert(r[k] == r.drop_first()[k - 1]);
            }
        }
    } else {
        assert(r.subrange(0, r.len() as int) =~= r);
    }
}

/// Every slug has the slug shape.
pub proof fn lemma_slug_shape(s: Seq<char>)
    ensures
        is_slug(slug(s)),
{
    lemma_slug_raw_shape(s);
    lemma_strip_trailing(slug_raw(s), '-');
    let r = slug_raw(s);
    let t = slug(s);
    assert forall|i: int| 0 <= i < t.len() implies slug_char(#[trigger] t[i]) by {
        assert(t[i] == r[i]);
    }
    assert forall|i: int| 0 <= i < t.len() - 1 implies !(#[trigger] t[i] == '-' && t[i + 1]
        == '-') by {
        assert(t[i] == r[i]);
        assert(t[i + 1] == r[i + 1]);
    }
    if t.len() > 0 {
        assert(t[0] == r[0]);
    }
}

proof fn lemma_slug_raw_fixed(r: Seq<char>)
    requires
        forall|i: int| 0 <= i < r.len() ==> slug_char(#[trigger] r[i]),
        r.len() > 0 ==> r[0] != '-',
        forall|i: int| 0 <= i < r.len() - 1 ==> !(#[trigger] r[i] == '-' && r[i + 1] == '-'),
    ensures
        slug_raw(r) == r,
    decreases r.len(),
{
    if r.len() > 0 {
        let p = r.drop_last();
        assert forall|i: int| 0 <= i < p.len() implies slug_char(#[trigger] p[i]) by {
            assert(p[i] == r[i]);
        }
        assert forall|i: int| 0 <= i < p.len() - 1 implies !(#[trigger] p[i] == '-' && p[i + 1]
            == '-') by {
            assert(p[i] == r[i]);
            assert(p[i + 1] == r[i + 1]);
        }
        lemma_slug_raw_fixed(p);
        let c = r.last();
        assert(slug_char(r[r.len() - 1]));
        if c == '-' {
            assert(r.len() >= 2);
            assert(!(r[r.len() - 2] == '-' && r[r.len() - 1] == '-'));
            assert(p.last() == r[r.len() - 2]);
        }
        assert(r =~= p.push(c));
    }
}

/// Slugs are stable: slugifying a slug gives it back unchanged, so re-priming
/// a section under its own slug keeps the same path.
pub proof fn law_slugify_idempotent(s: Seq<char>)
    ensures
        slug(slug(s)) == slug(s),
{
    let t = slug(s);
    lemma_slug_shape(s);
    lemma_slug_raw_fixed(t);
    if t.len() > 0 {
        assert(strip_trailing(t, '-') == t);
    }
}

/// Slugify a string for use in paths: ASCII alphanumerics lowercased, every
/// run of other characters collapsed to one `-`, no dash at either end.
pub fn slugify(s: &str) -> (r: String)
    ensures
        r@ == slug(s@),
        is_slug(r@),
{
    let cs = chars_of(s);
    let n: usize = cs.len();
    let mut out: Vec<char> = Vec::new();
    let mut prev_dash: bool = false;
    let mut i: usize = 0;
    while i < n
        invariant
            n == cs@.len(),
            i <= n,
            out@ == slug_raw(cs@.take(i as int)),
            prev_dash == (out@.len() > 0 && out@.last() == '-'),
        decreases n - i,
    {
        let c = cs[i];
        assert(cs@.take(i + 1).drop_last() =~= cs@.take(i as int));
        if is_alnum_exec(c) {
            out.push(lower_exec(c));
            proof {
                lemma_lower_alnum(c);
            }
            prev_dash = false;
        } else if !prev_dash && out.len() > 0 {
            out.push('-');
            prev_dash = true;
        }
        i = i + 1;
    }
    assert(cs@.take(n as int) =~= cs@);
    // Trim trailing dashes.
    while out.len() > 0 && out[out.len() - 1] == '-'
        invariant
            strip_trailing(out@, '-') == slug(cs@),
        decreases out.len(),
    {
        out.pop();
    }
    proof {
        lemma_slug_shape(cs@);
    }
    string_of(&out)
}

} // verus!

verus! {

// ---------------------------------------------------------------------------
// tokenize_query
// ---------------------------------------------------------------------------

/// Words too common to be worth searching for.
pub open spec fn is_stopword(w: Seq<char>) -> bool {
    stopwords().contains(w)
}

/// The stop words recall's tokenizer drops.
pub open spec fn stopwords() -> Seq<Seq<char>> {
    seq![
        "the"@, "and"@, "for"@, "with"@, "about"@, "that"@, "this"@, "what"@, "how"@, "why"@,
        "our"@, "use"@, "are"@, "was"@, "were"@, "from"@, "into"@, "their"@, "its"@, "has"@,
        "have"@, "will"@, "can"@, "did"@, "does"@, "some"@, "any"@, "all"@,
    ]
}

/// Keeps a finished word if it is long enough and not a stop word.
pub open spec fn flush_token(toks: Seq<Seq<char>>, cur: Seq<char>) -> Seq<Seq<char>> {
    if cur.len() >= 3 && !is_stopword(cur) {
        toks.push(cur)
    } else {
        toks
    }
}

/// Tokenizer state after reading `s`: finished tokens and the word in progress.
pub open spec fn tok_fold(s: Seq<char>) -> (Seq<Seq<char>>, Seq<char>)
    decreases s.len(),
{
    if s.len() == 0 {
        (Seq::empty(), Seq::empty())
    } else {
        let st = tok_fold(s.drop_last());
        let c = s.last();
        if is_alnum(c) {
            (st.0, st.1.push(lower(c)))
        } else if st.1.len() > 0 {
            (flush_token(st.0, st.1), Seq::empty())
        } else {
            st
        }
    }
}

/// The search tokens of a recall query: maximal runs of ASCII alphanumerics,
/// lowercased, keeping those of at least three characters that are not stop
/// words, in order.
pub open spec fn query_tokens(q: Seq<char>) -> Seq<Seq<char>> {
    let st = tok_fold(q);
    flush_token(st.0, st.1)
}

/// A lowercase ASCII alphanumeric.
pub open spec fn lower_alnum(c: char) -> bool {
    ('a' <= c && c <= 'z') || ('0' <= c && c <= '9')
}

/// A usable search token.
pub open spec fn good_token(t: Seq<char>) -> bool {
    &&& t.len() >= 3
    &&& !is_stopword(t)
    &&& forall|i: int| 0 <= i < t.len() ==> lower_alnum(#[trigger] t[i])
}

fn is_stopword_exec(w: &Vec<char>) -> (r: bool)
    ensures
        r == is_stopword(w@),
{
    let words: [&str; 28] = [
        "the", "and", "for", "with", "about", "that", "this", "what", "how", "why", "our", "use",
        "are", "was", "were", "from", "into", "their", "its", "has", "have", "will", "can", "did",
        "does", "some", "any", "all",
    ];
    let mut k: usize = 0;
    while k < 28
        invariant
            k <= 28,
            words@ == seq![
                "the", "and", "for", "with", "about", "that", "this", "what", "how", "why", "our",
                "use", "are", "was", "were", "from", "into", "their", "its", "has", "have", "will",
                "can", "did", "does", "some", "any", "all",
            ],
            forall|j: int| 0 <= j < k ==> w@ != (#[trigger] words@[j])@,
        decreases 28 - k,
    {
        let cand = chars_of(words[k]);
        if chars_eq(w, &cand) {
            return true;
        }
        k = k + 1;
    }
    assert(!is_stopword(w@)) by {
        assert forall|j: int| 0 <= j < 28 implies stopwords()[j] != w@ by {
            assert(stopwords()[j] == words@[j]@);
        }
    }
    false
}

/// Every token the query tokenizer keeps is at least three lowercase ASCII
/// alphanumerics and not a stop word.
pub proof fn law_query_tokens_are_good(q: Seq<char>)
    ensures
        forall|i: int| 0 <= i < query_tokens(q).len() ==> good_token(#[trigger] query_tokens(q)[i]),
{
    lemma_tok_fold_good(q);
}

proof fn lemma_tok_fold_good(q: Seq<char>)
    ensures
        forall|i: int| 0 <= i < tok_fold(q).0.len() ==> good_token(#[trigger] tok_fold(q).0[i]),
        forall|i: int| 0 <= i < tok_fold(q).1.len() ==> lower_alnum(#[trigger] tok_fold(q).1[i]),
        forall|i: int| 0 <= i < query_tokens(q).len() ==> good_token(#[trigger] query_tokens(q)[i]),
    decreases q.len(),
{
    if q.len() > 0 {
        lemma_tok_fold_good(q.drop_last());
        let st = tok_fold(q.drop_last());
        let c = q.last();
        if is_alnum(c) {
            let cur = st.1.push(lower(c));
            assert forall|i: int| 0 <= i < cur.len() implies lower_alnum(#[trigger] cur[i]) by {
                if i < st.1.len() {
                    assert(cur[i] == st.1[i]);
                }
            }
        } else if st.1.len() > 0 {
            let t = flush_token(st.0, st.1);
            assert forall|i: int| 0 <= i < t.len() implies good_token(#[trigger] t[i]) by {
                if i < st.0.len() {
                    assert(t[i] == st.0[i]);
                }
            }
        }
    }
    let st = tok_fold(q);
    let t = flush_token(st.0, st.1);
    assert forall|i: int| 0 <= i < t.len() implies good_token(#[trigger] t[i]) by {
        if i < st.0.len() {
            assert(t[i] == st.0[i]);
        }
    }
}

/// Tokenize a recall query: lowercase, split on non-alphanumerics, drop stop
/// words and tokens shorter than three characters.
pub fn tokenize_query(q: &str) -> (r: Vec<String>)
    ensures
        r@.len() == query_tokens(q@).len(),
        forall|i: int| 0 <= i < r@.len() ==> #[trigger] r@[i]@ == query_tokens(q@)[i],
{
    let cs = chars_of(q);
    let n: usize = cs.len();
    let mut tokens: Vec<String> = Vec::new();
    let mut current: Vec<char> = Vec::new();
    let ghost mut toks: Seq<Seq<char>> = Seq::empty();
    let mut i: usize = 0;
    while i < n
        invariant
            n == cs@.len(),
            i <= n,
            tok_fold(cs@.take(i as int)) == (toks, current@),
            tokens@.len() == toks.len(),
            forall|j: int| 0 <= j < tokens@.len() ==> #[trigger] tokens@[j]@ == toks[j],
        decreases n - i,
    {
        let c = cs[i];
        assert(cs@.take(i + 1).drop_last() =~= cs@.take(i as int));
        if is_alnum_exec(c) {
            current.push(lower_exec(c));
        } else if current.len() > 0 {
            if current.len() >= 3 && !is_stopword_exec(&current) {
                tokens.push(string_of(&current));
                proof {
                    toks = toks.push(current@);
                }
            }
            current = Vec::new();
            assert(current@ =~= Seq::<char>::empty());
        }
        i = i + 1;
    }
    assert(cs@.take(n as int) =~= cs@);
    if current.len() >= 3 && !is_stopword_exec(&current) {
        tokens.push(string_of(&current));
        proof {
            toks = toks.push(current@);
        }
    }
    tokens
}

} // verus!

verus! {

// ---------------------------------------------------------------------------
// truncate_utf8
// ---------------------------------------------------------------------------

/// The number of leading characters of `cs` whose UTF-8 encoding fits in
/// `max` bytes, counting from `k`.
pub open spec fn fit_from(cs: Seq<char>, max: nat, k: int) -> int
    decreases cs.len() - k,
{
    if 0 <= k < cs.len() && utf8_len(cs.take(k + 1)) <= max {
        fit_from(cs, max, k + 1)
    } else {
        k
    }
}

/// The longest prefix of `cs` (in characters) that fits in `max` bytes: the
/// cut lands on a character boundary, never inside a character.
pub open spec fn fit_len(cs: Seq<char>, max: nat) -> int {
    fit_from(cs, max, 0)
}

proof fn lemma_utf8_len_take_step(cs: Seq<char>, k: int)
    requires
        0 <= k < cs.len(),
    ensures
        utf8_len(cs.take(k + 1)) == utf8_len(cs.take(k)) + char_width(cs[k]),
{
    assert(cs.take(k + 1).drop_last() =~= cs.take(k));
}

proof fn lemma_fit_from(cs: Seq<char>, max: nat, k: int)
    requires
        0 <= k <= cs.len(),
        utf8_len(cs.take(k)) <= max,
    ensures
        k <= fit_from(cs, max, k) <= cs.len(),
        utf8_len(cs.take(fit_from(cs, max, k))) <= max,
        fit_from(cs, max, k) < cs.len() ==> utf8_len(cs.take(fit_from(cs, max, k) + 1)) > max,
    decreases cs.len() - k,
{
    if k < cs.len() && utf8_len(cs.take(k + 1)) <= max {
        lemma_fit_from(cs, max, k + 1);
    }
}

/// Truncation never splits a character and keeps as much as fits: the
/// kept prefix fits the byte budget, and one more character would not.
pub proof fn law_truncation_fits(cs: Seq<char>, max: nat)
    ensures
        0 <= fit_len(cs, max) <= cs.len(),
        utf8_len(cs.take(fit_len(cs, max))) <= max,
        fit_len(cs, max) < cs.len() ==> utf8_len(cs.take(fit_len(cs, max) + 1)) > max,
{
    assert(cs.take(0) =~= Seq::<char>::empty());
    lemma_fit_from(cs, max, 0);
}

/// What `truncate_utf8` returns: the string itself when it fits, else its
/// longest fitting prefix followed by a note giving the original size.
pub open spec fn truncated(s: Seq<char>, max: nat) -> Seq<char> {
    if utf8_len(s) <= max {
        s
    } else {
        s.take(fit_len(s, max)) + "… [truncated: original was "@ + decimal(utf8_len(s)) + " bytes]"@
    }
}

/// Truncate a string to at most `max_bytes` without splitting a UTF-8
/// codepoint. If truncated, an explanatory suffix is appended (so the result
/// may exceed `max_bytes` by the suffix's length).
pub fn truncate_utf8(s: &str, max_bytes: usize) -> (r: String)
    ensures
        r@ == truncated(s@, max_bytes as nat),
{
    let total: usize = byte_len(s);
    if total <= max_bytes {
        return owned(s);
    }
    let cs = chars_of(s);
    let n: usize = cs.len();
    let mut k: usize = 0;
    let mut used: usize = 0;
    assert(cs@.take(0) =~= Seq::<char>::empty());
    while k < n
        invariant
            n == cs@.len(),
            k <= n,
            used == utf8_len(cs@.take(k as int)),
            used <= max_bytes,
            fit_from(cs@, max_bytes as nat, k as int) == fit_len(cs@, max_bytes as nat),
        ensures
            k <= n,
            fit_from(cs@, max_bytes as nat, k as int) == k,
            fit_len(cs@, max_bytes as nat) == k,
        decreases n - k,
    {
        let w: usize = char_width_exec(cs[k]);
        proof {
            lemma_utf8_len_take_step(cs@, k as int);
        }
        if w > max_bytes - used {
            break;
        }
        used = used + w;
        k = k + 1;
    }
    let mut out = string_of(&slice_chars(&cs, 0, k));
    assert(cs@.subrange(0, k as int) =~= cs@.take(k as int));
    push_str(&mut out, "… [truncated: original was ");
    push_decimal(&mut out, total as u64);
    push_str(&mut out, " bytes]");
    out
}

// ---------------------------------------------------------------------------
// remember input validation
// ---------------------------------------------------------------------------

/// A character that must not appear in a `remember` context or tag: a
/// control character other than tab, or a Unicode line/paragraph separator.
pub open spec fn is_bad_memory_char(c: char) -> bool {
    (is_control(c) && c != '\t') || c == '\u{2028}' || c == '\u{2029}'
}

/// Whether `s` holds a control character other than tab, or a Unicode
/// line/paragraph separator.
pub open spec fn has_control(s: Seq<char>) -> bool {
    exists|i: int| 0 <= i < s.len() && is_bad_memory_char(#[trigger] s[i])
}

pub fn has_control_chars(s: &str) -> (r: bool)
    ensures
        r == has_control(s@),
{
    let cs = chars_of(s);
    let n: usize = cs.len();
    let mut i: usize = 0;
    while i < n
        invariant
            n == cs@.len(),
            cs@ == s@,
            i <= n,
            forall|j: int| 0 <= j < i ==> !is_bad_memory_char(#[trigger] cs@[j]),
        decreases n - i,
    {
        let c = cs[i];
        if (is_control_exec(c) && c != '\t') || c == '\u{2028}' || c == '\u{2029}' {
            assert(is_bad_memory_char(s@[i as int]));
            return true;
        }
        i = i + 1;
    }
    false
}

/// Parameters of a `remember` call.
pub struct RememberParams {
    /// The fact, preference, or decision to store.
    pub fact: String,
    /// Importance: "high", "medium", "low".
    pub importance: String,
    /// Category/context (e.g., "licensing", "architecture").
    pub context: Option<String>,
    /// Tags for queryability.
    pub tags: Option<Vec<String>>,
    /// Branch to write to (default: "main").
    pub ref_name: String,
}

/// The rejection message for the first tag (from `i` on) that is too long or
/// holds control characters, if any.
pub open spec fn tag_error(tags: Seq<Seq<char>>, i: int) -> Option<Seq<char>>
    decreases tags.len() - i,
{
    if i < 0 || i >= tags.len() {
        None
    } else if utf8_len(tags[i]) > MAX_TAG_LEN {
        Some("tag exceeds maximum length ("@ + decimal(utf8_len(tags[i])) + " bytes; max 64)"@)
    } else if has_control(tags[i]) {
        Some("tag contains control characters"@)
    } else {
        tag_error(tags, i + 1)
    }
}

/// Why a `remember` call with this context and these tags is rejected, or
/// `None` when it is accepted.
pub open spec fn remember_error(context: Option<Seq<char>>, tags: Option<Seq<Seq<char>>>) -> Option<
    Seq<char>,
> {
    if context is Some && utf8_len(context->0) > MAX_CONTEXT_LEN {
        Some(
            "context exceeds maximum length ("@ + decimal(utf8_len(context->0))
                + " bytes; max 128)"@,
        )
    } else if context is Some && context->0.contains('/') {
        Some("context must not contain '/' (path-injection)"@)
    } else if context is Some && has_control(context->0) {
        Some("context contains control characters"@)
    } else if tags is Some && tags->0.len() > MAX_TAGS {
        Some("tags exceeds maximum count ("@ + decimal(tags->0.len()) + "; max 16)"@)
    } else if tags is Some {
        tag_error(tags->0, 0)
    } else {
        None
    }
}

/// The context of a `remember` call as characters.
pub open spec fn context_view(p: &RememberParams) -> Option<Seq<char>> {
    match p.context {
        Some(c) => Some(c@),
        None => None,
    }
}

/// The tags of a `remember` call as characters.
pub open spec fn tags_view(p: &RememberParams) -> Option<Seq<Seq<char>>> {
    match p.tags {
        Some(t) => Some(t@.map_values(|s: String| s@)),
        None => None,
    }
}

fn message_with_number(head: &str, n: usize, tail: &str) -> (r: String)
    ensures
        r@ == head@ + decimal(n as nat) + tail@,
{
    let mut m = owned(head);
    push_decimal(&mut m, n as u64);
    push_str(&mut m, tail);
    m
}

/// Validate the non-`fact` fields of a `remember` call: the context must be
/// short, free of `/` and of control characters; there may be at most
/// `MAX_TAGS` tags, each short and free of control characters. Returns the
/// first rejection's message.
pub fn validate_remember_params(p: &RememberParams) -> (r: Result<(), String>)
    ensures
        r is Ok <==> remember_error(context_view(p), tags_view(p)) is None,
        r matches Err(m) ==> remember_error(context_view(p), tags_view(p)) == Some(m@),
{
    if let Some(ctx) = &p.context {
        let len: usize = string_byte_len(ctx);
        if len > MAX_CONTEXT_LEN {
            return Err(message_with_number("context exceeds maximum length (", len, " bytes; max 128)"));
        }
        let cs = chars_of(ctx.as_str());
        if has_char(&cs, '/') {
            return Err(owned("context must not contain '/' (path-injection)"));
        }
        if has_control_chars(ctx.as_str()) {
            return Err(owned("context contains control characters"));
        }
    }
    if let Some(tags) = &p.tags {
        let ghost tv = tags@.map_values(|s: String| s@);
        assert(tags_view(p) == Some(tv));
        if tags.len() > MAX_TAGS {
            return Err(message_with_number("tags exceeds maximum count (", tags.len(), "; max 16)"));
        }
        let n: usize = tags.len();
        let mut i: usize = 0;
        assert(remember_error(context_view(p), tags_view(p)) == tag_error(tv, 0));
        while i < n
            invariant
                n == tags@.len(),
                tv == tags@.map_values(|s: String| s@),
                i <= n,
                tag_error(tv, 0) == tag_error(tv, i as int),
                remember_error(context_view(p), tags_view(p)) == tag_error(tv, 0),
            decreases n - i,
        {
            let tag = &tags[i];
            assert(tv[i as int] == tag@);
            let len: usize = string_byte_len(tag);
            if len > MAX_TAG_LEN {
                assert(tag_error(tv, i as int) == Some(
                    "tag exceeds maximum length ("@ + decimal(len as nat) + " bytes; max 64)"@,
                ));
                let m = message_with_number("tag exceeds maximum length (", len, " bytes; max 64)");
                assert(tag_error(tv, 0) == Some(m@));
                assert(remember_error(context_view(p), tags_view(p)) == Some(m@));
                return Err(m);
            }
            if has_control_chars(tag.as_str()) {
                return Err(owned("tag contains control characters"));
            }
            i = i + 1;
        }
    }
    Ok(())
}

} // verus!

verus! {

// ---------------------------------------------------------------------------
// Parameter defaults
// ---------------------------------------------------------------------------

/// Default importance of a remembered fact.
pub fn default_importance() -> (r: String)
    ensures
        r@ == "medium"@,
{
    owned("medium")
}

/// Default token budget of a recall (about a page of content).
pub fn default_budget() -> (r: usize)
    ensures
        r == 1500,
{
    1500
}

/// Default branch.
pub fn default_ref() -> (r: String)
    ensures
        r@ == "main"@,
{
    owned("main")
}

/// Default reason recorded when a memory is forgotten through MCP.
pub fn default_forget_reason() -> (r: String)
    ensures
        r@ == "forgotten via MCP"@,
{
    owned("forgotten via MCP")
}

/// Default path for reads: the root.
pub fn default_root_path() -> (r: String)
    ensures
        r@ == "/"@,
{
    owned("/")
}

/// Default number of log entries.
pub fn default_log_limit() -> (r: usize)
    ensures
        r == 20,
{
    20
}

// ---------------------------------------------------------------------------
// Importance
// ---------------------------------------------------------------------------

/// How strongly a remembered fact is held.
#[derive(Clone, Copy, Debug, PartialEq, Eq, Structural)]
pub enum Importance {
    High,
    Medium,
    Low,
}

/// `"high"`, `"medium"` and `"low"` name their level; anything else counts
/// as medium.
pub open spec fn importance_of(s: Seq<char>) -> Importance {
    if s == "high"@ {
        Importance::High
    } else if s == "low"@ {
        Importance::Low
    } else {
        Importance::Medium
    }
}

/// The importance level a caller-supplied string names.
pub fn importance_level(s: &str) -> (r: Importance)
    ensures
        r == importance_of(s@),
{
    if str_eq(s, "high") {
        Importance::High
    } else if str_eq(s, "low") {
        Importance::Low
    } else {
        Importance::Medium
    }
}

impl Importance {
    /// The commit confidence of this importance, in hundredths: high 0.95,
    /// medium 0.70, low 0.40.
    pub fn confidence_hundredths(&self) -> (r: u32)
        ensures
            r == (match *self {
                Importance::High => 95u32,
                Importance::Medium => 70u32,
                Importance::Low => 40u32,
            }),
    {
        match self {
            Importance::High => 95,
            Importance::Medium => 70,
            Importance::Low => 40,
        }
    }
}

// ---------------------------------------------------------------------------
// Timestamp ids
// ---------------------------------------------------------------------------

/// The lowercase hexadecimal digit for `d < 16`.
pub open spec fn hex_char(d: nat) -> char {
    if d < 10 {
        (('0' as u32) + d) as char
    } else {
        (('a' as u32) + d - 10) as char
    }
}

/// Lowercase hexadecimal rendering of `n` without leading zeros
/// (`format!("{:x}", n)`).
pub open spec fn hex(n: nat) -> Seq<char>
    decreases n,
{
    if n < 16 {
        seq![hex_char(n)]
    } else {
        hex(n / 16).push(hex_char(n % 16))
    }
}

/// A lowercase hexadecimal digit.
pub open spec fn is_hex_digit(c: char) -> bool {
    ('0' <= c && c <= '9') || ('a' <= c && c <= 'f')
}

/// The value of a lowercase hexadecimal digit.
pub open spec fn hex_digit_value(c: char) -> nat {
    if '0' <= c && c <= '9' {
        (c as u32 - '0' as u32) as nat
    } else {
        (c as u32 - 'a' as u32 + 10) as nat
    }
}

/// The number a lowercase hexadecimal string spells.
pub open spec fn hex_value(s: Seq<char>) -> nat
    decreases s.len(),
{
    if s.len() == 0 {
        0
    } else {
        hex_value(s.drop_last()) * 16 + hex_digit_value(s.last())
    }
}

proof fn lemma_hex_char_value(d: nat)
    requires
        d < 16,
    ensures
        hex_digit_value(hex_char(d)) == d,
{
    vstd::utf8::char_u32_cast(hex_char(d), hex_char(d) as u32);
    if d < 10 {
        assert((('0' as u32) + d) as u32 == 48 + d);
        assert((((48 + d) as u32) as char) as u32 == 48 + d);
    } else {
        assert((((97 + d - 10) as u32) as char) as u32 == 97 + d - 10);
    }
}

/// A hexadecimal rendering reads back as the number it renders.
pub proof fn lemma_hex_round_trip(n: nat)
    ensures
        hex_value(hex(n)) == n,
    decreases n,
{
    if n < 16 {
        lemma_hex_char_value(n);
        let h = hex(n);
        assert(h.drop_last() =~= Seq::<char>::empty());
        assert(h.last() == hex_char(n));
        assert(hex_value(h) == hex_value(h.drop_last()) * 16 + hex_digit_value(h.last()));
    } else {
        lemma_hex_round_trip(n / 16);
        lemma_hex_char_value(n % 16);
        let h = hex(n);
        assert(h.drop_last() =~= hex(n / 16));
        assert(h.last() == hex_char(n % 16));
        assert(hex_value(h) == hex_value(h.drop_last()) * 16 + hex_digit_value(h.last()));
        assert((n / 16) * 16 + n % 16 == n);
    }
}

/// Time-based ids name their clock readings: an id reads back as its
/// reading, so readings that differ give different ids, and a later
/// reading gives a numerically larger id.
pub proof fn law_timestamp_ids(a: nat, b: nat)
    ensures
        hex_value(hex(a)) == a,
        a != b ==> hex(a) != hex(b),
        a < b ==> hex_value(hex(a)) < hex_value(hex(b)),
{
    lemma_hex_round_trip(a);
    lemma_hex_round_trip(b);
}

proof fn lemma_hex_digits(n: nat)
    ensures
        hex(n).len() >= 1,
        forall|i: int| 0 <= i < hex(n).len() ==> is_hex_digit(#[trigger] hex(n)[i]),
    decreases n,
{
    if n >= 16 {
        lemma_hex_digits(n / 16);
        let p = hex(n / 16);
        assert forall|i: int| 0 <= i < hex(n).len() implies is_hex_digit(#[trigger] hex(n)[i]) by {
            if i < p.len() {
                assert(hex(n)[i] == p[i]);
            }
        }
    }
}

fn hex_digit_exec(d: u128) -> (c: char)
    requires
        d < 16,
    ensures
        c == hex_char(d as nat),
{
    let b: u8 = d as u8;
    if b < 10 {
        let c = (b + 48) as char;
        assert(c == (('0' as u32) + d) as char);
        c
    } else {
        let c = (b + 87) as char;
        assert(c == (('a' as u32) + d - 10) as char);
        c
    }
}

/// Renders `n` in lowercase hexadecimal.
pub fn hex_exec(n: u128) -> (r: Vec<char>)
    ensures
        r@ == hex(n as nat),
    decreases n,
{
    if n < 16 {
        let mut r: Vec<char> = Vec::new();
        r.push(hex_digit_exec(n));
        assert(r@ =~= seq![hex_char(n as nat)]);
        r
    } else {
        let mut r = hex_exec(n / 16);
        r.push(hex_digit_exec(n % 16));
        r
    }
}

#[verifier::external_type_specification]
#[verifier::external_body]
pub struct ExSystemTime(std::time::SystemTime);

/// The system clock's current time (`SystemTime::now`). Nothing is stated
/// of it: it is the clock's.
#[verifier::external_body]
fn system_now() -> (t: std::time::SystemTime) {
    std::time::SystemTime::now()
}

/// How long after the Unix epoch `t` is (`SystemTime::duration_since` with
/// `UNIX_EPOCH`), as whole seconds and the nanoseconds within the second
/// (`Duration::as_secs`, `Duration::subsec_nanos`, documented to be below
/// one billion); `None` when `t` is earlier than the epoch. Nothing else is
/// stated: `t` is opaque here.
#[verifier::external_body]
pub(crate) fn since_epoch(t: std::time::SystemTime) -> (r: Option<(u64, u32)>)
    ensures
        r matches Some(v) ==> v.1 < 1_000_000_000,
{
    t.duration_since(std::time::UNIX_EPOCH).ok().map(|d| (d.as_secs(), d.subsec_nanos()))
}

/// An instant `secs` seconds and `nanos` nanoseconds after the Unix epoch,
/// in nanoseconds.
pub open spec fn epoch_nanos(secs: u64, nanos: u32) -> nat {
    (secs * 1_000_000_000 + nanos) as nat
}

/// A reading of the system clock: whole seconds after the Unix epoch and
/// the nanoseconds within the second; `None` when the clock reads earlier
/// than the epoch.
pub(crate) fn clock_reading() -> (r: Option<(u64, u32)>)
    ensures
        valid_reading(r),
{
    since_epoch(system_now())
}

/// A clock reading whose nanoseconds lie within the second.
pub open spec fn valid_reading(reading: Option<(u64, u32)>) -> bool {
    reading matches Some(v) ==> v.1 < 1_000_000_000
}

/// The nanoseconds since the Unix epoch of a clock reading; 0 for a
/// reading earlier than the epoch.
pub open spec fn reading_nanos(reading: Option<(u64, u32)>) -> nat {
    match reading {
        Some(v) => epoch_nanos(v.0, v.1),
        None => 0,
    }
}

/// The nanoseconds since the Unix epoch of a clock reading, as
/// `reading_nanos` says.
pub fn nanos_of_reading(reading: Option<(u64, u32)>) -> (n: u128)
    requires
        valid_reading(reading),
    ensures
        n == reading_nanos(reading),
{
    match reading {
        Some((secs, nanos)) => {
            assert(secs as u128 * 1_000_000_000 + nanos as u128 <= u128::MAX) by (nonlinear_arith)
                requires
                    secs <= u64::MAX,
                    nanos < 1_000_000_000,
            ;
            secs as u128 * 1_000_000_000 + nanos as u128
        },
        None => 0,
    }
}

/// The time-based id of a clock reading: its nanoseconds since the Unix
/// epoch in lowercase hex (`0` for a reading before the epoch).
pub fn timestamp_id_of(reading: Option<(u64, u32)>) -> (r: String)
    requires
        valid_reading(reading),
    ensures
        r@ == hex(reading_nanos(reading)),
        r@.len() >= 1,
        forall|i: int| 0 <= i < r@.len() ==> is_hex_digit(#[trigger] r@[i]),
{
    let n = nanos_of_reading(reading);
    let h = hex_exec(n);
    proof {
        lemma_hex_digits(n as nat);
    }
    string_of(&h)
}

/// A time-based id: the current Unix time in nanoseconds, in lowercase
/// hex, as `timestamp_id_of` makes it from the clock's reading.
pub fn timestamp_id() -> (r: String)
    ensures
        exists|reading: Option<(u64, u32)>| valid_reading(reading) && r@ == #[trigger] hex(reading_nanos(reading)),
        r@.len() >= 1,
        forall|i: int| 0 <= i < r@.len() ==> is_hex_digit(#[trigger] r@[i]),
{
    let reading = clock_reading();
    timestamp_id_of(reading)
}

/// Readings name their ids: a later reading gives a numerically larger
/// id, and different readings give different ids.
pub proof fn law_timestamp_id_readings(a: Option<(u64, u32)>, b: Option<(u64, u32)>)
    requires
        valid_reading(a),
        valid_reading(b),
    ensures
        reading_nanos(a) < reading_nanos(b) ==> hex_value(hex(reading_nanos(a))) < hex_value(
            hex(reading_nanos(b)),
        ),
        reading_nanos(a) != reading_nanos(b) ==> hex(reading_nanos(a)) != hex(reading_nanos(b)),
{
    law_timestamp_ids(reading_nanos(a), reading_nanos(b));
}

// ---------------------------------------------------------------------------
// Session statistics
// ---------------------------------------------------------------------------

/// `a + b` wrapped to 64 bits, as an atomic `fetch_add` does.
pub open spec fn wrap_add(a: u64, b: u64) -> u64 {
    vstd::wrapping::u64_specs::wrapping_add(a, b)
}

/// Cumulative statistics of one session.
///
/// The graph size is cached lazily: writes mark it dirty, and the next read
/// that needs it refreshes it once. The `llm_*` counters hold what agents
/// report of their model's actual usage.
#[derive(Debug, Clone)]
pub struct SessionStats {
    pub tokens_sent: u64,
    pub tokens_saved: u64,
    pub total_graph_size_chars: u64,
    pub graph_size_dirty: bool,
    pub llm_input_tokens: u64,
    pub llm_output_tokens: u64,
    pub llm_cache_read_tokens: u64,
    pub llm_cache_create_tokens: u64,
    pub llm_call_count: u64,
    pub last_model: Option<String>,
    pub last_provider: Option<String>,
}

impl SessionStats {
    /// Fresh statistics: every counter zero, graph size dirty, no model or
    /// provider seen.
    pub open spec fn new_spec() -> SessionStats {
        SessionStats {
            tokens_sent: 0,
            tokens_saved: 0,
            total_graph_size_chars: 0,
            graph_size_dirty: true,
            llm_input_tokens: 0,
            llm_output_tokens: 0,
            llm_cache_read_tokens: 0,
            llm_cache_create_tokens: 0,
            llm_call_count: 0,
            last_model: None,
            last_provider: None,
        }
    }

    /// Whether the cached graph size is stale.
    pub open spec fn dirty(&self) -> bool {
        self.graph_size_dirty
    }

    /// The last reported model.
    pub open spec fn model(&self) -> Option<String> {
        self.last_model
    }

    /// The last reported provider.
    pub open spec fn provider(&self) -> Option<String> {
        self.last_provider
    }

    /// Fresh statistics: every counter zero, graph size dirty, no model or
    /// provider seen.
    pub fn new() -> (s: Self)
        ensures
            s == Self::new_spec(),
            s.tokens_sent == 0,
            s.tokens_saved == 0,
            s.total_graph_size_chars == 0,
            s.dirty(),
            s.llm_input_tokens == 0,
            s.llm_output_tokens == 0,
            s.llm_cache_read_tokens == 0,
            s.llm_cache_create_tokens == 0,
            s.llm_call_count == 0,
            s.model() is None,
            s.provider() is None,
    {
        SessionStats {
            tokens_sent: 0,
            tokens_saved: 0,
            total_graph_size_chars: 0,
            graph_size_dirty: true,
            llm_input_tokens: 0,
            llm_output_tokens: 0,
            llm_cache_read_tokens: 0,
            llm_cache_create_tokens: 0,
            llm_call_count: 0,
            last_model: None,
            last_provider: None,
        }
    }

    /// Restore from persisted values (used on hub startup); the graph size
    /// starts unknown and dirty.
    pub fn with_values(
        tokens_sent: u64,
        tokens_saved: u64,
        llm_input: u64,
        llm_output: u64,
        llm_cache_read: u64,
        llm_cache_create: u64,
        llm_call_count: u64,
        last_model: Option<String>,
        last_provider: Option<String>,
    ) -> (s: Self)
        ensures
            s.tokens_sent == tokens_sent,
            s.tokens_saved == tokens_saved,
            s.total_graph_size_chars == 0,
            s.dirty(),
            s.llm_input_tokens == llm_input,
            s.llm_output_tokens == llm_output,
            s.llm_cache_read_tokens == llm_cache_read,
            s.llm_cache_create_tokens == llm_cache_create,
            s.llm_call_count == llm_call_count,
            s.model() == last_model,
            s.provider() == last_provider,
    {
        SessionStats {
            tokens_sent,
            tokens_saved,
            total_graph_size_chars: 0,
            graph_size_dirty: true,
            llm_input_tokens: llm_input,
            llm_output_tokens: llm_output,
            llm_cache_read_tokens: llm_cache_read,
            llm_cache_create_tokens: llm_cache_create,
            llm_call_count,
            last_model,
            last_provider,
        }
    }

    /// Account one response: `sent_chars` characters sent where
    /// `flat_chars` would have been sent without recall (4 chars per token).
    /// Tokens sent grow by `sent_chars / 4`; tokens saved by what the flat
    /// load would have cost beyond that, never negative.
    pub fn record(&mut self, sent_chars: usize, flat_chars: usize)
        ensures
            final(self).tokens_sent == wrap_add(
                old(self).tokens_sent,
                (sent_chars / 4) as u64,
            ),
            final(self).tokens_saved == wrap_add(
                old(self).tokens_saved,
                (if flat_chars / 4 >= sent_chars / 4 {
                    flat_chars / 4 - sent_chars / 4
                } else {
                    0
                }) as u64,
            ),
            final(self).total_graph_size_chars == old(self).total_graph_size_chars,
            final(self).dirty() == old(self).dirty(),
            final(self).llm_input_tokens == old(self).llm_input_tokens,
            final(self).llm_output_tokens == old(self).llm_output_tokens,
            final(self).llm_cache_read_tokens == old(self).llm_cache_read_tokens,
            final(self).llm_cache_create_tokens == old(self).llm_cache_create_tokens,
            final(self).llm_call_count == old(self).llm_call_count,
            final(self).model() == old(self).model(),
            final(self).provider() == old(self).provider(),
    {
        let sent_tokens: usize = sent_chars / 4;
        let flat_tokens: usize = flat_chars / 4;
        self.tokens_sent = self.tokens_sent.wrapping_add(sent_tokens as u64);
        self.tokens_saved = self.tokens_saved.wrapping_add(flat_tokens.saturating_sub(sent_tokens) as u64);
    }

    /// Mark the cached graph size as stale. Call after any write.
    pub fn mark_dirty(&mut self)
        ensures
            final(self).dirty(),
            final(self).tokens_sent == old(self).tokens_sent,
            final(self).tokens_saved == old(self).tokens_saved,
            final(self).total_graph_size_chars == old(self).total_graph_size_chars,
            final(self).llm_input_tokens == old(self).llm_input_tokens,
            final(self).llm_output_tokens == old(self).llm_output_tokens,
            final(self).llm_cache_read_tokens == old(self).llm_cache_read_tokens,
            final(self).llm_cache_create_tokens == old(self).llm_cache_create_tokens,
            final(self).llm_call_count == old(self).llm_call_count,
            final(self).model() == old(self).model(),
            final(self).provider() == old(self).provider(),
    {
        self.graph_size_dirty = true;
    }

    /// Whether the cached graph size must be refreshed before it is read.
    pub fn graph_size_dirty(&self) -> (r: bool)
        ensures
            r == self.dirty(),
    {
        self.graph_size_dirty
    }

    /// Store a freshly measured graph size and clear the dirty flag.
    pub fn set_graph_size(&mut self, chars: u64)
        ensures
            final(self).total_graph_size_chars == chars,
            !final(self).dirty(),
            final(self).tokens_sent == old(self).tokens_sent,
            final(self).tokens_saved == old(self).tokens_saved,
            final(self).llm_input_tokens == old(self).llm_input_tokens,
            final(self).llm_output_tokens == old(self).llm_output_tokens,
            final(self).llm_cache_read_tokens == old(self).llm_cache_read_tokens,
            final(self).llm_cache_create_tokens == old(self).llm_cache_create_tokens,
            final(self).llm_call_count == old(self).llm_call_count,
            final(self).model() == old(self).model(),
            final(self).provider() == old(self).provider(),
    {
        self.total_graph_size_chars = chars;
        self.graph_size_dirty = false;
    }

    /// Record an LLM turn's reported token usage: every counter accumulates,
    /// the call count grows by one, and a reported model or provider replaces
    /// the last one seen (an absent one keeps it).
    pub fn record_llm_usage(
        &mut self,
        input_tokens: u64,
        output_tokens: u64,
        cache_read_tokens: u64,
        cache_create_tokens: u64,
        model: Option<String>,
        provider: Option<String>,
    )
        ensures
            final(self).llm_input_tokens == wrap_add(old(self).llm_input_tokens, input_tokens),
            final(self).llm_output_tokens == wrap_add(old(self).llm_output_tokens, output_tokens),
            final(self).llm_cache_read_tokens == wrap_add(
                old(self).llm_cache_read_tokens,
                cache_read_tokens,
            ),
            final(self).llm_cache_create_tokens == wrap_add(
                old(self).llm_cache_create_tokens,
                cache_create_tokens,
            ),
            final(self).llm_call_count == wrap_add(old(self).llm_call_count, 1),
            final(self).model() == (if model is Some {
                model
            } else {
                old(self).model()
            }),
            final(self).provider() == (if provider is Some {
                provider
            } else {
                old(self).provider()
            }),
            final(self).tokens_sent == old(self).tokens_sent,
            final(self).tokens_saved == old(self).tokens_saved,
            final(self).total_graph_size_chars == old(self).total_graph_size_chars,
            final(self).dirty() == old(self).dirty(),
    {
        self.llm_input_tokens = self.llm_input_tokens.wrapping_add(input_tokens);
        self.llm_output_tokens = self.llm_output_tokens.wrapping_add(output_tokens);
        self.llm_cache_read_tokens = self.llm_cache_read_tokens.wrapping_add(cache_read_tokens);
        self.llm_cache_create_tokens = self.llm_cache_create_tokens.wrapping_add(cache_create_tokens);
        self.llm_call_count = self.llm_call_count.wrapping_add(1);
        if model.is_some() {
            self.last_model = model;
        }
        if provider.is_some() {
            self.last_provider = provider;
        }
    }

    /// The last-observed model, if any.
    pub fn last_model(&self) -> (r: Option<String>)
        ensures
            r == self.model(),
    {
        match &self.last_model {
            Some(m) => Some(m.clone()),
            None => None,
        }
    }

    /// The last-observed provider, if any.
    pub fn last_provider(&self) -> (r: Option<String>)
        ensures
            r == self.provider(),
    {
        match &self.last_provider {
            Some(p) => Some(p.clone()),
            None => None,
        }
    }
}

/// Recording usage twice accumulates: two reports add up as their sums would
/// (modulo 2^64), and the call count grows by two.
pub proof fn law_llm_usage_accumulates(x: u64, a: u64, b: u64)
    requires
        x as int + a as int + b as int <= u64::MAX,
    ensures
        wrap_add(wrap_add(x, a), b) == x + a + b,
{
}


// ---------------------------------------------------------------------------
// Per-response accounting
// ---------------------------------------------------------------------------

/// The token figures every memory response carries: what it sent and what
/// loading the whole graph flat would have sent (4 characters a token).
#[derive(Debug)]
pub struct TokenCounts {
    pub ctx_tokens_sent: u64,
    pub ctx_tokens_estimated_flat: u64,
}

/// A session's reported LLM usage, as a recall response shows it.
#[derive(Debug)]
pub struct LlmTotals {
    pub input_tokens_total: u64,
    pub output_tokens_total: u64,
    pub cache_read_tokens_total: u64,
    pub cache_create_tokens_total: u64,
    pub call_count: u64,
}

/// `after` is `before` with a response of `sent_chars` characters recorded
/// against a flat graph of `flat_chars` (as `record` does), and `r` is what
/// the response reports: its token figures, and the session's LLM usage
/// once it has reported a call.
pub open spec fn response_accounted(
    before: SessionStats,
    after: SessionStats,
    sent_chars: usize,
    flat_chars: usize,
    r: (TokenCounts, Option<LlmTotals>),
) -> bool {
    &&& after.tokens_sent == wrap_add(before.tokens_sent, (sent_chars / 4) as u64)
    &&& after.tokens_saved == wrap_add(
        before.tokens_saved,
        (if flat_chars / 4 >= sent_chars / 4 {
            flat_chars / 4 - sent_chars / 4
        } else {
            0
        }) as u64,
    )
    &&& after.total_graph_size_chars == before.total_graph_size_chars
    &&& after.dirty() == before.dirty()
    &&& after.llm_input_tokens == before.llm_input_tokens
    &&& after.llm_output_tokens == before.llm_output_tokens
    &&& after.llm_cache_read_tokens == before.llm_cache_read_tokens
    &&& after.llm_cache_create_tokens == before.llm_cache_create_tokens
    &&& after.llm_call_count == before.llm_call_count
    &&& after.model() == before.model()
    &&& after.provider() == before.provider()
    &&& r.0.ctx_tokens_sent == (sent_chars / 4) as u64
    &&& r.0.ctx_tokens_estimated_flat == (flat_chars / 4) as u64
    &&& before.llm_call_count == 0 ==> r.1 is None
    &&& before.llm_call_count > 0 ==> (r.1 matches Some(t) && t.input_tokens_total
        == before.llm_input_tokens && t.output_tokens_total == before.llm_output_tokens
        && t.cache_read_tokens_total == before.llm_cache_read_tokens
        && t.cache_create_tokens_total == before.llm_cache_create_tokens && t.call_count
        == before.llm_call_count)
}

/// Accounts for a response of `sent_chars` characters when the flat graph
/// is `flat_chars`: the session records it (as `record` does), and the
/// response reports its token figures and, once the session has reported
/// an LLM call, the session's LLM usage. The savings ratio, a float, is
/// the caller's to render.
pub fn account_response(session: &mut SessionStats, sent_chars: usize, flat_chars: usize) -> (r: (
    TokenCounts,
    Option<LlmTotals>,
))
    ensures
        response_accounted(*old(session), *final(session), sent_chars, flat_chars, r),
{
    session.record(sent_chars, flat_chars);
    let counts = TokenCounts {
        ctx_tokens_sent: (sent_chars / 4) as u64,
        ctx_tokens_estimated_flat: (flat_chars / 4) as u64,
    };
    let llm = if session.llm_call_count > 0 {
        Some(
            LlmTotals {
                input_tokens_total: session.llm_input_tokens,
                output_tokens_total: session.llm_output_tokens,
                cache_read_tokens_total: session.llm_cache_read_tokens,
                cache_create_tokens_total: session.llm_cache_create_tokens,
                call_count: session.llm_call_count,
            },
        )
    } else {
        None
    };
    (counts, llm)
}

} // verus!
