//! Who a request is: its namespace, session and agent, from the query string
//! and headers, and the fail-closed identity policy of the MCP route.

use vstd::prelude::*;

use crate::memory::{DEFAULT_AGENT_ID, DEFAULT_SESSION_ID};
use crate::text::{
    chars_of, has_prefix, is_alnum, owned, push_str, slice_chars, str_eq, string_of, trim,
    trim_exec,
};

verus! {

/// The shared namespace every request lands in unless it names another.
pub const DEFAULT_NAMESPACE: &'static str = "default";

/// Env var gating the fail-closed identity policy.
pub const REQUIRE_IDENTITY_ENV: &'static str = "CTXONE_REQUIRE_IDENTITY";

// ---------------------------------------------------------------------------
// Splitting a query string
// ---------------------------------------------------------------------------

/// Splitter state after reading `s`: finished pieces and the piece in
/// progress.
pub open spec fn split_fold(s: Seq<char>, sep: char) -> (Seq<Seq<char>>, Seq<char>)
    decreases s.len(),
{
    if s.len() == 0 {
        (Seq::empty(), Seq::empty())
    } else {
        let st = split_fold(s.drop_last(), sep);
        if s.last() == sep {
            (st.0.push(st.1), Seq::empty())
        } else {
            (st.0, st.1.push(s.last()))
        }
    }
}

/// `str::split(sep)`: the pieces between separators, empty ones included.
pub open spec fn split_on(s: Seq<char>, sep: char) -> Seq<Seq<char>> {
    let st = split_fold(s, sep);
    st.0.push(st.1)
}

/// Splits `s` at each `sep`.
pub fn split_exec(s: &str, sep: char) -> (r: Vec<Vec<char>>)
    ensures
        r@.len() == split_on(s@, sep).len(),
        forall|i: int| 0 <= i < r@.len() ==> #[trigger] r@[i]@ == split_on(s@, sep)[i],
{
    let cs = chars_of(s);
    let n: usize = cs.len();
    let mut out: Vec<Vec<char>> = Vec::new();
    let mut cur: Vec<char> = Vec::new();
    let ghost mut acc: Seq<Seq<char>> = Seq::empty();
    let mut i: usize = 0;
    while i < n
        invariant
            n == cs@.len(),
            cs@ == s@,
            i <= n,
            split_fold(cs@.take(i as int), sep) == (acc, cur@),
            out@.len() == acc.len(),
            forall|k: int| 0 <= k < out@.len() ==> #[trigger] out@[k]@ == acc[k],
        decreases n - i,
    {
        assert(cs@.take(i + 1).drop_last() =~= cs@.take(i as int));
        if cs[i] == sep {
            proof {
                acc = acc.push(cur@);
            }
            out.push(cur);
            cur = Vec::new();
            assert(cur@ =~= Seq::<char>::empty());
        } else {
            cur.push(cs[i]);
        }
        i = i + 1;
    }
    assert(cs@.take(n as int) =~= cs@);
    proof {
        acc = acc.push(cur@);
    }
    out.push(cur);
    out
}

// ---------------------------------------------------------------------------
// Percent-decoding
// ---------------------------------------------------------------------------

/// The value of an ASCII hexadecimal digit.
pub open spec fn hex_val(b: u8) -> Option<u8> {
    if 48 <= b <= 57 {
        Some((b - 48) as u8)
    } else if 97 <= b <= 102 {
        Some((b - 87) as u8)
    } else if 65 <= b <= 70 {
        Some((b - 55) as u8)
    } else {
        None
    }
}

/// The byte two hex digits `a b` spell, if both are hex digits.
pub open spec fn hex_pair(a: u8, b: u8) -> Option<u8> {
    match (hex_val(a), hex_val(b)) {
        (Some(x), Some(y)) => Some((x * 16 + y) as u8),
        _ => None,
    }
}

/// A UTF-8 continuation byte (not the start of a character).
pub open spec fn continuation(b: u8) -> bool {
    128 <= b < 192
}

/// The characters decoding the bytes of `b` from position `i` gives: `%`
/// and two hex digits (with a byte after them) give the byte they spell,
/// every other byte gives itself; each byte becomes the character with that
/// code.
pub open spec fn decode_from(b: Seq<u8>, i: int) -> Seq<char>
    decreases b.len() - i,
{
    if i < 0 || i >= b.len() {
        Seq::empty()
    } else if b[i] == 37 && i + 2 < b.len() && hex_pair(b[i + 1], b[i + 2]) is Some {
        seq![(hex_pair(b[i + 1], b[i + 2])->0) as char] + decode_from(b, i + 3)
    } else {
        seq![b[i] as char] + decode_from(b, i + 1)
    }
}

/// Decoding from position `i` cuts a character in two: a `%` with two more
/// bytes whose second one ends inside a character (slicing the text there
/// panics).
pub open spec fn decode_cuts_char(b: Seq<u8>, i: int) -> bool
    decreases b.len() - i,
{
    if i < 0 || i >= b.len() {
        false
    } else if b[i] == 37 && i + 2 < b.len() && i + 3 < b.len() && continuation(b[i + 3]) {
        true
    } else if b[i] == 37 && i + 2 < b.len() && hex_pair(b[i + 1], b[i + 2]) is Some {
        decode_cuts_char(b, i + 3)
    } else {
        decode_cuts_char(b, i + 1)
    }
}

fn hex_val_exec(b: u8) -> (r: Option<u8>)
    ensures
        r == hex_val(b),
{
    if 48 <= b && b <= 57 {
        Some(b - 48)
    } else if 97 <= b && b <= 102 {
        Some(b - 87)
    } else if 65 <= b && b <= 70 {
        Some(b - 55)
    } else {
        None
    }
}

fn hex_pair_exec(a: u8, b: u8) -> (r: Option<u8>)
    ensures
        r == hex_pair(a, b),
{
    match (hex_val_exec(a), hex_val_exec(b)) {
        (Some(x), Some(y)) => Some(x * 16 + y),
        _ => None,
    }
}

/// Minimal percent-decoding for a `?session=` value.
pub fn percent_decode(s: &str) -> (r: String)
    requires
        !decode_cuts_char(vstd::utf8::encode_utf8(s@), 0),
    ensures
        r@ == decode_from(vstd::utf8::encode_utf8(s@), 0),
{
    let b: &[u8] = s.as_bytes();
    let ghost bv = vstd::utf8::encode_utf8(s@);
    let n: usize = b.len();
    let mut out = String::new();
    let mut i: usize = 0;
    while i < n
        invariant
            b@ == bv,
            n == bv.len(),
            i <= n,
            !decode_cuts_char(bv, i as int),
            decode_from(bv, 0) == out@ + decode_from(bv, i as int),
        decreases n - i,
    {
        let mut done = false;
        if b[i] == 37 && n - i > 2 {
            match hex_pair_exec(b[i + 1], b[i + 2]) {
                Some(v) => {
                    crate::text::push_char(&mut out, v as char);
                    assert(decode_from(bv, 0) =~= out@ + decode_from(bv, i + 3));
                    i = i + 3;
                    done = true;
                },
                None => {},
            }
        }
        if !done {
            crate::text::push_char(&mut out, b[i] as char);
            assert(decode_from(bv, 0) =~= out@ + decode_from(bv, i + 1));
            i = i + 1;
        }
    }
    assert(decode_from(bv, i as int) =~= Seq::<char>::empty());
    assert(decode_from(bv, 0) =~= out@);
    out
}


// ---------------------------------------------------------------------------
// The identity policy
// ---------------------------------------------------------------------------

/// Whether a value of the policy variable turns the fail-closed identity
/// policy on: `1`, `true`, `TRUE`, `yes` or `on`, surrounding white space
/// aside.
pub open spec fn truthy(v: Seq<char>) -> bool {
    let t = trim(v);
    t == "1"@ || t == "true"@ || t == "TRUE"@ || t == "yes"@ || t == "on"@
}

/// Whether the identity policy is on, given the policy variable's value
/// (`None` when it is unset).
pub fn identity_required(env_value: Option<&str>) -> (r: bool)
    ensures
        r == (env_value matches Some(v) && truthy(v@)),
{
    match env_value {
        None => false,
        Some(v) => {
            let t = string_of(&trim_exec(&chars_of(v)));
            str_eq(t.as_str(), "1") || str_eq(t.as_str(), "true") || str_eq(t.as_str(), "TRUE")
                || str_eq(t.as_str(), "yes") || str_eq(t.as_str(), "on")
        },
    }
}

/// A legal namespace name: not empty, ASCII letters, digits, `_` and `-`.
pub open spec fn valid_namespace(s: Seq<char>) -> bool {
    s.len() > 0 && forall|i: int| 0 <= i < s.len() ==> (is_alnum(#[trigger] s[i]) || s[i] == '_'
        || s[i] == '-')
}

/// Whether `s` is a legal namespace name.
pub fn is_valid_namespace(s: &str) -> (r: bool)
    ensures
        r == valid_namespace(s@),
{
    let cs = chars_of(s);
    let n: usize = cs.len();
    if n == 0 {
        return false;
    }
    let mut i: usize = 0;
    while i < n
        invariant
            n == cs@.len(),
            cs@ == s@,
            i <= n,
            forall|k: int| 0 <= k < i ==> (is_alnum(#[trigger] cs@[k]) || cs@[k] == '_' || cs@[k]
                == '-'),
        decreases n - i,
    {
        let c = cs[i];
        if !(crate::text::is_alnum_exec(c) || c == '_' || c == '-') {
            return false;
        }
        i = i + 1;
    }
    true
}

/// What `format!("{:?}", s)` gives for `s`: the quoted, escaped text.
pub uninterp spec fn debug_quoted(s: Seq<char>) -> Seq<char>;

/// Renders `s` with `str`'s `Debug` formatting (`format!("{:?}", s)`): the
/// text in double quotes with quotes, backslashes and unprintable
/// characters escaped. The result is what [`debug_quoted`] names.
#[verifier::external_body]
fn debug_str(s: &str) -> (r: String)
    ensures
        r@ == debug_quoted(s@),
{
    format!("{:?}", s)
}

/// Why an MCP request was refused before it could reach a namespace's data.
#[derive(Debug, Clone, PartialEq, Eq)]
pub enum IdentityError {
    /// A namespace was named but is not a legal name.
    InvalidNamespace(String),
    /// No namespace named, and the fail-closed policy is on.
    MissingNamespace,
    /// No session id named, and the fail-closed policy is on.
    MissingSession,
}

/// The message of an identity error; each names its remedy.
pub open spec fn identity_error_text(e: IdentityError) -> Seq<char> {
    match e {
        IdentityError::InvalidNamespace(ns) => "invalid namespace "@ + debug_quoted(ns@)
            + ": names must be ASCII [A-Za-z0-9_-]. Refusing to fall back to the shared \"default\" workspace — fix the `?namespace=` in your MCP config, or run `ctx init` in the repo."@,
        IdentityError::MissingNamespace => "no namespace on this MCP request and CTXONE_REQUIRE_IDENTITY is on. Add `?namespace=<workspace>` to the MCP URL (run `ctx init` in the repo to write it), or pass `?namespace=default` to opt in explicitly."@,
        IdentityError::MissingSession => "no session id on this MCP request and CTXONE_REQUIRE_IDENTITY is on. Without one every agent's recall savings merge into one anonymous row. Send `X-CTXone-Session`, or add `&session=<id>` to the MCP URL for clients that cannot set headers. `ctx init` writes whichever fits."@,
    }
}

impl IdentityError {
    /// The error's message.
    pub fn message(&self) -> (r: String)
        ensures
            r@ == identity_error_text(*self),
    {
        match self {
            IdentityError::InvalidNamespace(ns) => {
                let mut m = owned("invalid namespace ");
                push_str(&mut m, debug_str(ns.as_str()).as_str());
                push_str(
                    &mut m,
                    ": names must be ASCII [A-Za-z0-9_-]. Refusing to fall back to the shared \"default\" workspace — fix the `?namespace=` in your MCP config, or run `ctx init` in the repo.",
                );
                m
            },
            IdentityError::MissingNamespace => owned(
                "no namespace on this MCP request and CTXONE_REQUIRE_IDENTITY is on. Add `?namespace=<workspace>` to the MCP URL (run `ctx init` in the repo to write it), or pass `?namespace=default` to opt in explicitly.",
            ),
            IdentityError::MissingSession => owned(
                "no session id on this MCP request and CTXONE_REQUIRE_IDENTITY is on. Without one every agent's recall savings merge into one anonymous row. Send `X-CTXone-Session`, or add `&session=<id>` to the MCP URL for clients that cannot set headers. `ctx init` writes whichever fits.",
            ),
        }
    }
}

// ---------------------------------------------------------------------------
// The MCP route's namespace and session
// ---------------------------------------------------------------------------

/// The characters of an optional `str`.
pub open spec fn opt_str(o: Option<&str>) -> Option<Seq<char>> {
    match o {
        Some(s) => Some(s@),
        None => None,
    }
}

/// The pairs of a query string (none without a query).
pub open spec fn query_pairs(query: Option<Seq<char>>) -> Seq<Seq<char>> {
    match query {
        Some(q) => split_on(q, '&'),
        None => Seq::empty(),
    }
}

/// The first non-empty `namespace=` value among the pairs from `i` on.
pub open spec fn ns_in_pairs(pairs: Seq<Seq<char>>, i: int) -> Option<Seq<char>>
    decreases pairs.len() - i,
{
    if i < 0 || i >= pairs.len() {
        None
    } else if has_prefix(pairs[i], "namespace="@) && pairs[i].len() > "namespace="@.len() {
        Some(pairs[i].skip("namespace="@.len() as int))
    } else {
        ns_in_pairs(pairs, i + 1)
    }
}

/// The namespace an MCP request names: the query's first non-empty
/// `namespace=` value, else a non-empty header.
pub open spec fn named_namespace(query: Option<Seq<char>>, header: Option<Seq<char>>) -> Option<
    Seq<char>,
> {
    match ns_in_pairs(query_pairs(query), 0) {
        Some(v) => Some(v),
        None => match header {
            Some(h) => if h.len() > 0 {
                Some(h)
            } else {
                None
            },
            None => None,
        },
    }
}

fn has_prefix_lit(s: &Vec<char>, p: &str) -> (r: bool)
    ensures
        r == has_prefix(s@, p@),
{
    crate::text::starts_with(s, &chars_of(p))
}

/// Resolves the namespace of an MCP request from its query string and
/// `X-CTXone-Namespace` header: the query's non-empty `namespace=` wins,
/// then a non-empty header. A named but illegal namespace is always
/// refused; none at all is `default` unless the identity policy is on.
pub fn resolve_namespace(query: Option<&str>, header: Option<&str>, required: bool) -> (r: Result<
    String,
    IdentityError,
>)
    ensures
        match named_namespace(opt_str(query), opt_str(header)) {
            None => if required {
                r == Err::<String, IdentityError>(IdentityError::MissingNamespace)
            } else {
                r matches Ok(ns) && ns@ == "default"@
            },
            Some(n) => if n == "default"@ || valid_namespace(n) {
                r matches Ok(ns) && ns@ == n
            } else {
                r matches Err(IdentityError::InvalidNamespace(ns)) && ns@ == n
            },
        },
{
    let ghost pairs = query_pairs(opt_str(query));
    let mut found: Option<String> = None;
    if let Some(q) = query {
        let ps = split_exec(q, '&');
        let n: usize = ps.len();
        let mut i: usize = 0;
        while i < n && found.is_none()
            invariant
                n == pairs.len(),
                ps@.len() == n,
                forall|k: int| 0 <= k < n ==> #[trigger] ps@[k]@ == pairs[k],
                i <= n,
                found is None ==> ns_in_pairs(pairs, 0) == ns_in_pairs(pairs, i as int),
                found matches Some(f) ==> ns_in_pairs(pairs, 0) == Some(f@),
            decreases n - i,
        {
            let pc = &ps[i];
            if has_prefix_lit(pc, "namespace=") {
                let plen = chars_of("namespace=").len();
                if pc.len() > plen {
                    let v = slice_chars(pc, plen, pc.len());
                    assert(v@ =~= pairs[i as int].skip("namespace="@.len() as int));
                    found = Some(string_of(&v));
                }
            }
            i = i + 1;
        }
    }
    assert(found matches Some(f) ==> ns_in_pairs(pairs, 0) == Some(f@));
    assert(found is None ==> ns_in_pairs(pairs, 0) is None);

    let explicit: Option<String> = match found {
        Some(f) => Some(f),
        None => match header {
            Some(h) => if chars_of(h).len() > 0 {
                Some(owned(h))
            } else {
                None
            },
            None => None,
        },
    };
    match explicit {
        None => if required {
            Err(IdentityError::MissingNamespace)
        } else {
            Ok(owned(DEFAULT_NAMESPACE))
        },
        Some(ns) => if str_eq(ns.as_str(), DEFAULT_NAMESPACE) || is_valid_namespace(ns.as_str()) {
            Ok(ns)
        } else {
            Err(IdentityError::InvalidNamespace(ns))
        },
    }
}


/// The first `session=` value among the pairs from `i` on that is not
/// blank once percent-decoded, trimmed.
pub open spec fn session_in_pairs(pairs: Seq<Seq<char>>, i: int) -> Option<Seq<char>>
    decreases pairs.len() - i,
{
    if i < 0 || i >= pairs.len() {
        None
    } else if has_prefix(pairs[i], "session="@) {
        let d = decode_from(
            vstd::utf8::encode_utf8(pairs[i].skip("session="@.len() as int)),
            0,
        );
        if trim(d).len() > 0 {
            Some(trim(d))
        } else {
            session_in_pairs(pairs, i + 1)
        }
    } else {
        session_in_pairs(pairs, i + 1)
    }
}

/// Decoding the `session=` values looked at, from pair `i` on, cuts no
/// character in two.
pub open spec fn sessions_decodable(pairs: Seq<Seq<char>>, i: int) -> bool
    decreases pairs.len() - i,
{
    if i < 0 || i >= pairs.len() {
        true
    } else if has_prefix(pairs[i], "session="@) {
        let b = vstd::utf8::encode_utf8(pairs[i].skip("session="@.len() as int));
        &&& !decode_cuts_char(b, 0)
        &&& (trim(decode_from(b, 0)).len() > 0 || sessions_decodable(pairs, i + 1))
    } else {
        sessions_decodable(pairs, i + 1)
    }
}

/// The session an MCP request names: the query's first non-blank
/// `session=` value, else the trimmed header when not empty.
pub open spec fn named_session(query: Option<Seq<char>>, header: Option<Seq<char>>) -> Option<
    Seq<char>,
> {
    match session_in_pairs(query_pairs(query), 0) {
        Some(v) => Some(v),
        None => match header {
            Some(h) => if trim(h).len() > 0 {
                Some(trim(h))
            } else {
                None
            },
            None => None,
        },
    }
}

/// Whether decoding `s` would cut a character in two.
pub fn decode_would_cut(s: &str) -> (r: bool)
    ensures
        r == decode_cuts_char(vstd::utf8::encode_utf8(s@), 0),
{
    let b: &[u8] = s.as_bytes();
    let ghost bv = vstd::utf8::encode_utf8(s@);
    let n: usize = b.len();
    let mut i: usize = 0;
    while i < n
        invariant
            b@ == bv,
            bv == vstd::utf8::encode_utf8(s@),
            n == bv.len(),
            i <= n,
            decode_cuts_char(bv, 0) == decode_cuts_char(bv, i as int),
        decreases n - i,
    {
        if b[i] == 37 && n - i > 3 && 128 <= b[i + 3] && b[i + 3] < 192 {
            assert(bv[i as int] == 37 && continuation(bv[i + 3]));
            assert(decode_cuts_char(bv, i as int));
            return true;
        }
        let mut step: usize = 1;
        if b[i] == 37 && n - i > 2 {
            if hex_pair_exec(b[i + 1], b[i + 2]).is_some() {
                step = 3;
            }
        }
        i = i + step;
    }
    false
}

/// Whether the `session=` values of a query that resolving its session
/// looks at all decode without cutting a character (resolving it is only
/// defined then).
pub fn sessions_decode(query: Option<&str>) -> (r: bool)
    ensures
        r == sessions_decodable(query_pairs(opt_str(query)), 0),
{
    let ghost pairs = query_pairs(opt_str(query));
    match query {
        None => true,
        Some(q) => {
            let ps = split_exec(q, '&');
            let n: usize = ps.len();
            let mut i: usize = 0;
            while i < n
                invariant
                    n == pairs.len(),
                    pairs == query_pairs(opt_str(query)),
                    ps@.len() == n,
                    forall|k: int| 0 <= k < n ==> #[trigger] ps@[k]@ == pairs[k],
                    i <= n,
                    sessions_decodable(pairs, 0) == sessions_decodable(pairs, i as int),
                decreases n - i,
            {
                let pc = &ps[i];
                if has_prefix_lit(pc, "session=") {
                    let plen = chars_of("session=").len();
                    let v = string_of(&slice_chars(pc, plen, pc.len()));
                    assert(v@ =~= pairs[i as int].skip("session="@.len() as int));
                    let ghost bb = vstd::utf8::encode_utf8(pairs[i as int].skip("session="@.len() as int));
                    if decode_would_cut(v.as_str()) {
                        assert(decode_cuts_char(bb, 0));
                        assert(!sessions_decodable(pairs, i as int));
                        return false;
                    }
                    let d = percent_decode(v.as_str());
                    let t = trim_exec(&chars_of(d.as_str()));
                    if t.len() > 0 {
                        assert(trim(decode_from(bb, 0)).len() > 0);
                        assert(sessions_decodable(pairs, i as int));
                        return true;
                    }
                }
                i = i + 1;
            }
            true
        },
    }
}

/// Resolves the session id of an MCP request: the query's `session=`
/// (percent-decoded, trimmed, not blank) first, then the trimmed
/// `X-CTXone-Session` header; none at all is `default` unless the identity
/// policy is on.
pub fn resolve_session(query: Option<&str>, header: Option<&str>, required: bool) -> (r: Result<
    String,
    IdentityError,
>)
    requires
        sessions_decodable(query_pairs(opt_str(query)), 0),
    ensures
        match named_session(opt_str(query), opt_str(header)) {
            Some(n) => r matches Ok(s) && s@ == n,
            None => if required {
                r == Err::<String, IdentityError>(IdentityError::MissingSession)
            } else {
                r matches Ok(s) && s@ == "default"@
            },
        },
{
    let ghost pairs = query_pairs(opt_str(query));
    let mut found: Option<String> = None;
    if let Some(q) = query {
        let ps = split_exec(q, '&');
        let n: usize = ps.len();
        let mut i: usize = 0;
        while i < n && found.is_none()
            invariant
                n == pairs.len(),
                ps@.len() == n,
                forall|k: int| 0 <= k < n ==> #[trigger] ps@[k]@ == pairs[k],
                i <= n,
                found is None ==> session_in_pairs(pairs, 0) == session_in_pairs(pairs, i as int),
                found is None ==> sessions_decodable(pairs, i as int),
                found matches Some(f) ==> session_in_pairs(pairs, 0) == Some(f@),
            decreases n - i,
        {
            let pc = &ps[i];
            if has_prefix_lit(pc, "session=") {
                let plen = chars_of("session=").len();
                let v = string_of(&slice_chars(pc, plen, pc.len()));
                assert(v@ =~= pairs[i as int].skip("session="@.len() as int));
                let d = percent_decode(v.as_str());
                let t = trim_exec(&chars_of(d.as_str()));
                if t.len() > 0 {
                    found = Some(string_of(&t));
                }
            }
            i = i + 1;
        }
    }
    let from_header: Option<String> = match header {
        Some(h) => {
            let t = trim_exec(&chars_of(h));
            if t.len() > 0 {
                Some(string_of(&t))
            } else {
                None
            }
        },
        None => None,
    };
    match found {
        Some(f) => Ok(f),
        None => match from_header {
            Some(h) => Ok(h),
            None => if required {
                Err(IdentityError::MissingSession)
            } else {
                Ok(owned(DEFAULT_SESSION_ID))
            },
        },
    }
}

// ---------------------------------------------------------------------------
// The REST surface's identity
// ---------------------------------------------------------------------------

/// A trimmed header value when it is not blank.
pub open spec fn header_value(h: Option<Seq<char>>) -> Option<Seq<char>> {
    match h {
        Some(v) => if trim(v).len() > 0 {
            Some(trim(v))
        } else {
            None
        },
        None => None,
    }
}

fn trimmed_header(h: Option<&str>) -> (r: Option<String>)
    ensures
        match r {
            Some(s) => header_value(opt_str(h)) == Some(s@),
            None => header_value(opt_str(h)) is None,
        },
{
    match h {
        Some(v) => {
            let t = trim_exec(&chars_of(v));
            if t.len() > 0 {
                Some(string_of(&t))
            } else {
                None
            }
        },
        None => None,
    }
}

/// The session a REST request belongs to (`X-CTXone-Session`).
#[derive(Debug, Clone)]
pub struct SessionId(pub String);

/// The namespace a REST request operates in.
#[derive(Debug, Clone)]
pub struct NamespaceId(pub String);

/// The agent a REST request comes from (`X-CTXone-Agent`).
#[derive(Debug, Clone)]
pub struct AgentId(pub String);

impl SessionId {
    /// The session of a request: the trimmed `X-CTXone-Session` header, or
    /// `default` when it is absent or blank.
    pub fn from_header(header: Option<&str>) -> (r: SessionId)
        ensures
            r.0@ == match header_value(opt_str(header)) {
                Some(v) => v,
                None => "default"@,
            },
    {
        match trimmed_header(header) {
            Some(v) => SessionId(v),
            None => SessionId(owned(DEFAULT_SESSION_ID)),
        }
    }
}

impl AgentId {
    /// The agent of a request: the trimmed `X-CTXone-Agent` header, or
    /// `ctxone` when it is absent or blank.
    pub fn from_header(header: Option<&str>) -> (r: AgentId)
        ensures
            r.0@ == match header_value(opt_str(header)) {
                Some(v) => v,
                None => "ctxone"@,
            },
    {
        match trimmed_header(header) {
            Some(v) => AgentId(v),
            None => AgentId(owned(DEFAULT_AGENT_ID)),
        }
    }
}

/// The first `namespace=` value among the pairs from `i` on, empty or not.
pub open spec fn rest_ns_in_pairs(pairs: Seq<Seq<char>>, i: int) -> Option<Seq<char>>
    decreases pairs.len() - i,
{
    if i < 0 || i >= pairs.len() {
        None
    } else if has_prefix(pairs[i], "namespace="@) {
        Some(pairs[i].skip("namespace="@.len() as int))
    } else {
        rest_ns_in_pairs(pairs, i + 1)
    }
}

/// The namespace a REST request names: the query's first `namespace=`
/// value, else the trimmed header; `default` when that is absent or empty.
pub open spec fn rest_namespace(query: Option<Seq<char>>, header: Option<Seq<char>>) -> Seq<char> {
    let v = match rest_ns_in_pairs(query_pairs(query), 0) {
        Some(q) => Some(q),
        None => match header {
            Some(h) => Some(trim(h)),
            None => None,
        },
    };
    match v {
        Some(s) => if s.len() > 0 {
            s
        } else {
            "default"@
        },
        None => "default"@,
    }
}

impl NamespaceId {
    /// The namespace of a REST request, from its query string and
    /// `X-CTXone-Namespace` header: the query's `namespace=` wins, then the
    /// header, then `default`.
    pub fn from_request(query: Option<&str>, header: Option<&str>) -> (r: NamespaceId)
        ensures
            r.0@ == rest_namespace(opt_str(query), opt_str(header)),
    {
        let ghost pairs = query_pairs(opt_str(query));
        let mut found: Option<String> = None;
        if let Some(q) = query {
            let ps = split_exec(q, '&');
            let n: usize = ps.len();
            let mut i: usize = 0;
            while i < n && found.is_none()
                invariant
                    n == pairs.len(),
                    ps@.len() == n,
                    forall|k: int| 0 <= k < n ==> #[trigger] ps@[k]@ == pairs[k],
                    i <= n,
                    found is None ==> rest_ns_in_pairs(pairs, 0) == rest_ns_in_pairs(pairs, i as int),
                    found matches Some(f) ==> rest_ns_in_pairs(pairs, 0) == Some(f@),
                decreases n - i,
            {
                let pc = &ps[i];
                if has_prefix_lit(pc, "namespace=") {
                    let plen = chars_of("namespace=").len();
                    let v = slice_chars(pc, plen, pc.len());
                    assert(v@ =~= pairs[i as int].skip("namespace="@.len() as int));
                    found = Some(string_of(&v));
                }
                i = i + 1;
            }
        }
        let v: Option<String> = match found {
            Some(f) => Some(f),
            None => match header {
                Some(h) => Some(string_of(&trim_exec(&chars_of(h)))),
                None => None,
            },
        };
        match v {
            Some(s) => if chars_of(s.as_str()).len() > 0 {
                NamespaceId(s)
            } else {
                NamespaceId(owned(DEFAULT_NAMESPACE))
            },
            None => NamespaceId(owned(DEFAULT_NAMESPACE)),
        }
    }
}

} // verus!
