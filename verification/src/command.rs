use vstd::prelude::*;

use crate::errors::ToolError;
use crate::text::contains_seq;
use crate::text::ends_with;
use crate::text::fold_join;
use crate::text::lemma_fold_join_concat;
use crate::text::lemma_fold_join_single;
use crate::text::match_at;
use crate::text::lemma_fold_join_split;
use crate::text::lemma_split_sp_no_space;
use crate::text::split_sp;
use crate::text::split_spaces;
use crate::text::starts_with;
use crate::text::str_ends_with;
use crate::text::str_eq;
use crate::text::str_starts_with;
use crate::text::trim_spec;
use crate::text::trim_str;

verus! {

// ---------------------------------------------------------------------------
// The shape of a traced invocation line
// ---------------------------------------------------------------------------

/// The fixed prefix that marks a traced subprocess line in the build tool's
/// verbose diagnostic stream.
pub open spec fn running_prefix() -> Seq<char> {
    "Running "@
}

/// The `NAME=value` token that identifies the target package's own
/// invocation among the invocations logged for its dependencies.
pub open spec fn marker_of(target: Seq<char>) -> Seq<char> {
    "CARGO_PKG_NAME="@ + target
}

/// Whether a token is the target's marker. The first token of a record may
/// still carry the leading backtick of the log's legacy quoting artifact,
/// which is ignored for the test.
pub open spec fn is_marker_token(t: Seq<char>, target: Seq<char>) -> bool {
    t == marker_of(target) || t == seq!['`'] + marker_of(target)
}

/// The suffix that names the linter-driver executable; the token carrying
/// it marks the boundary between environment assignments and the command.
pub open spec fn driver_suffix() -> Seq<char> {
    "clippy-driver"@
}

/// The diagnostic-output-formatting flags that the build tool appends and
/// that must be removed before the command is replayed interactively.
pub open spec fn noise() -> Seq<char> {
    "--error-format=json --json=diagnostic-rendered-ansi,artifacts,future-incompat"@
}

/// The index of the first token naming the driver executable, or `ts.len()`
/// if no token does.
pub open spec fn find_driver(ts: Seq<Seq<char>>) -> int
    decreases ts.len(),
{
    if ts.len() == 0 {
        0
    } else if ends_with(ts[0], driver_suffix()) {
        0
    } else {
        1 + find_driver(ts.skip(1))
    }
}

/// The first driver token is where a left-to-right scan says it is.
pub proof fn lemma_find_driver_at(ts: Seq<Seq<char>>, i: int)
    requires
        0 <= i <= ts.len(),
        forall|j: int| 0 <= j < i ==> !ends_with(#[trigger] ts[j], driver_suffix()),
        i == ts.len() || ends_with(ts[i], driver_suffix()),
    ensures
        find_driver(ts) == i,
    decreases i,
{
    if ts.len() == 0 {
    } else if i == 0 {
    } else {
        lemma_find_driver_at(ts.skip(1), i - 1);
    }
}

// ---------------------------------------------------------------------------
// Stripping the join and quoting artifacts
// ---------------------------------------------------------------------------

/// What remains of `s` after removing `r` once as a prefix if present, and
/// then once as a suffix of the result if present.
pub open spec fn strip_spec(s: Seq<char>, r: Seq<char>) -> Seq<char> {
    let a = if starts_with(s, r) {
        s.skip(r.len() as int)
    } else {
        s
    };
    if ends_with(a, r) {
        a.take(a.len() - r.len())
    } else {
        a
    }
}

/// Removes `remove` once from the front of `s` if it stands there, and then
/// once from the back of what remains. This is the fixed-sentinel trim used
/// on the two joined halves of a traced invocation record: a generic
/// whitespace trim would destroy interior spacing that must stay verbatim.
pub fn strip_in_place(s: &mut String, remove: &str)
    ensures
        final(s)@ == strip_spec(old(s)@, remove@),
{
    let n = s.as_str().unicode_len();
    let m = remove.unicode_len();
    let a: String = if str_starts_with(s.as_str(), remove) {
        let t = s.as_str().substring_char(m, n);
        proof {
            assert(s@.subrange(m as int, n as int) =~= s@.skip(m as int));
        }
        String::from_str(t)
    } else {
        s.clone()
    };
    let an = a.as_str().unicode_len();
    let b: String = if str_ends_with(a.as_str(), remove) {
        let t = a.as_str().substring_char(0, an - m);
        proof {
            assert(a@.subrange(0, an - m) =~= a@.take(an - m));
        }
        String::from_str(t)
    } else {
        a
    };
    *s = b;
}

// ---------------------------------------------------------------------------
// Removing the diagnostic-format flags
// ---------------------------------------------------------------------------

/// `s` with every occurrence of `p` removed, scanning left to right over
/// non-overlapping occurrences, the way `str::replace` with an empty
/// replacement behaves.
pub open spec fn replace_all_spec(s: Seq<char>, p: Seq<char>) -> Seq<char>
    decreases s.len(),
{
    if s.len() == 0 {
        s
    } else if p.len() > 0 && starts_with(s, p) {
        replace_all_spec(s.skip(p.len() as int), p)
    } else {
        seq![s[0]] + replace_all_spec(s.skip(1), p)
    }
}

/// Removes every occurrence of the diagnostic-format flags from `s`.
pub fn remove_noise(s: &str) -> (r: String)
    ensures
        r@ == replace_all_spec(s@, noise()),
{
    let noise_lit: &str =
        "--error-format=json --json=diagnostic-rendered-ansi,artifacts,future-incompat";
    proof {
        reveal_strlit("--error-format=json --json=diagnostic-rendered-ansi,artifacts,future-incompat");
        assert(noise_lit@ == noise());
        assert(noise().len() > 0);
    }
    let n = s.unicode_len();
    let m = noise_lit.unicode_len();
    let mut out = String::new();
    let mut i: usize = 0;
    proof {
        assert(s@.skip(0) =~= s@);
        assert(out@ + replace_all_spec(s@, noise()) =~= replace_all_spec(s@, noise()));
    }
    while i < n
        invariant
            n == s@.len(),
            m == noise().len(),
            noise_lit@ == noise(),
            m >= 1,
            0 <= i <= n,
            replace_all_spec(s@, noise()) == out@ + replace_all_spec(s@.skip(i as int), noise()),
        decreases n - i,
    {
        let ghost d = s@.skip(i as int);
        let ghost out0 = out@;
        if n - i >= m && match_at(s, noise_lit, i) {
            proof {
                assert(d.subrange(0, m as int) =~= s@.subrange(i as int, i + m));
                assert(starts_with(d, noise()));
                assert(d.skip(m as int) =~= s@.skip(i + m));
                assert(replace_all_spec(d, noise()) == replace_all_spec(s@.skip(i + m), noise()));
            }
            i = i + m;
        } else {
            let c = s.substring_char(i, i + 1);
            out.append(c);
            proof {
                if n - i >= m {
                    assert(d.subrange(0, m as int) =~= s@.subrange(i as int, i + m));
                    assert(!starts_with(d, noise()));
                } else {
                    assert(!starts_with(d, noise()));
                }
                assert(d[0] == s@[i as int]);
                assert(replace_all_spec(d, noise()) == seq![d[0]] + replace_all_spec(
                    d.skip(1),
                    noise(),
                ));
                assert(c@ =~= seq![d[0]]);
                assert(d.skip(1) =~= s@.skip(i + 1));
                assert(out0 + (seq![d[0]] + replace_all_spec(s@.skip(i + 1), noise())) =~= (out0
                    + seq![d[0]]) + replace_all_spec(s@.skip(i + 1), noise()));
            }
            i = i + 1;
        }
    }
    proof {
        assert(s@.skip(n as int) =~= Seq::<char>::empty());
        assert(replace_all_spec(Seq::<char>::empty(), noise()) == Seq::<char>::empty());
        assert(out@ + Seq::<char>::empty() =~= out@);
    }
    out
}

// ---------------------------------------------------------------------------
// Parsing one traced invocation record
// ---------------------------------------------------------------------------

/// Splits a raw invocation record (the text after the `Running ` prefix)
/// into the environment-assignment half and the command half, stripping the
/// join and quoting artifacts from each, provided the record carries the
/// target's marker token and a token naming the driver executable.
pub open spec fn split_record(raw: Seq<char>, target: Seq<char>) -> Option<(Seq<char>, Seq<char>)> {
    let toks = split_sp(raw);
    let i = find_driver(toks);
    if !(exists|k: int| 0 <= k < toks.len() && is_marker_token(#[trigger] toks[k], target)) {
        None
    } else if i >= toks.len() {
        None
    } else {
        let envs = strip_spec(strip_spec(fold_join(toks.take(i)), " `"@), " "@);
        let cmd = strip_spec(strip_spec(fold_join(toks.skip(i)), "`"@), " "@);
        Some((envs, cmd))
    }
}

/// `split_record`, with the diagnostic-format flags removed from the
/// command half.
pub open spec fn parse_record(raw: Seq<char>, target: Seq<char>) -> Option<(Seq<char>, Seq<char>)> {
    match split_record(raw, target) {
        Some(p) => Some((p.0, replace_all_spec(p.1, noise()))),
        None => None,
    }
}

/// What one diagnostic-stream line yields: the trimmed line must carry the
/// traced-invocation prefix and its record must parse for the target.
pub open spec fn parse_line_spec(line: Seq<char>, target: Seq<char>) -> Option<
    (Seq<char>, Seq<char>),
> {
    let t = trim_spec(line);
    if starts_with(t, running_prefix()) {
        parse_record(t.skip(running_prefix().len() as int), target)
    } else {
        None
    }
}

/// Whether `tok` is the marker (`marker` is the full `NAME=value` text),
/// tolerating the leading quoting backtick.
fn token_is_marker(tok: &str, marker: &str) -> (r: bool)
    ensures
        r == (tok@ == marker@ || tok@ == seq!['`'] + marker@),
{
    if str_eq(tok, marker) {
        return true;
    }
    let n = tok.unicode_len();
    if n >= 1 && tok.get_char(0) == '`' {
        let rest = tok.substring_char(1, n);
        if str_eq(rest, marker) {
            proof {
                assert(tok@ =~= seq!['`'] + marker@);
            }
            return true;
        }
        proof {
            if tok@ == seq!['`'] + marker@ {
                assert(rest@ =~= marker@);
            }
        }
        return false;
    }
    proof {
        if tok@ == seq!['`'] + marker@ {
            assert(tok@[0] == '`');
        }
    }
    false
}

/// Parses one line of the build tool's diagnostic stream. The result is the
/// target's environment prefix and its command line (executable and
/// arguments, with the diagnostic-format flags removed), or nothing when
/// the line is not the target's traced invocation.
pub fn parse_running_line(line: &str, target_pkg_name: &str) -> (r: Option<(String, String)>)
    ensures
        (parse_line_spec(line@, target_pkg_name@) is Some) <==> (r is Some),
        r matches Some(p) ==> (parse_line_spec(line@, target_pkg_name@) matches Some(q) && p.0@
            == q.0 && p.1@ == q.1),
{
    let t = trim_str(line);
    let tn = t.unicode_len();
    if !str_starts_with(t, "Running ") {
        return None;
    }
    proof {
        reveal_strlit("Running ");
        assert(running_prefix().len() == 8);
    }
    let rest = t.substring_char(8, tn);
    proof {
        assert(rest@ =~= trim_spec(line@).skip(8));
    }
    let toks = split_spaces(rest);
    let ghost tv = toks.deep_view();
    let tl = toks.len();
    proof {
        assert(tv.len() == tl);
    }

    let mut marker = String::from_str("CARGO_PKG_NAME=");
    marker.append(target_pkg_name);
    proof {
        assert(marker@ == marker_of(target_pkg_name@));
    }

    let mut has_marker = false;
    let mut k: usize = 0;
    while k < tl
        invariant
            tl == tv.len(),
            tl == toks.len(),
            tv == toks.deep_view(),
            0 <= k <= tl,
            marker@ == marker_of(target_pkg_name@),
            has_marker == exists|j: int|
                0 <= j < k && is_marker_token(#[trigger] tv[j], target_pkg_name@),
        decreases tl - k,
    {
        let hit = token_is_marker(toks[k], marker.as_str());
        proof {
            assert(tv[k as int] == toks@[k as int]@);
        }
        if hit {
            has_marker = true;
        }
        k = k + 1;
    }
    if !has_marker {
        return None;
    }

    let mut di: usize = tl;
    let mut k: usize = 0;
    while k < tl
        invariant
            tl == tv.len(),
            tl == toks.len(),
            tv == toks.deep_view(),
            0 <= k <= tl,
            di == tl || (di < k && ends_with(tv[di as int], driver_suffix())),
            forall|j: int|
                0 <= j < k && j < di ==> !ends_with(#[trigger] tv[j], driver_suffix()),
        decreases tl - k,
    {
        if di == tl {
            let hit = str_ends_with(toks[k], "clippy-driver");
            proof {
                assert(tv[k as int] == toks@[k as int]@);
            }
            if hit {
                di = k;
            }
        }
        k = k + 1;
    }
    proof {
        lemma_find_driver_at(tv, di as int);
    }
    if di == tl {
        return None;
    }

    let mut envs = String::new();
    let mut k: usize = 0;
    proof {
        assert(tv.take(0) =~= Seq::<Seq<char>>::empty());
    }
    while k < di
        invariant
            tl == tv.len(),
            tl == toks.len(),
            tv == toks.deep_view(),
            0 <= k <= di <= tl,
            envs@ == fold_join(tv.take(k as int)),
        decreases di - k,
    {
        envs.append(" ");
        envs.append(toks[k]);
        proof {
            reveal_strlit(" ");
            assert(" "@ =~= seq![' ']);
            assert(tv[k as int] == toks@[k as int]@);
            assert(tv.take(k + 1) =~= tv.take(k as int) + seq![tv[k as int]]);
            lemma_fold_join_concat(tv.take(k as int), seq![tv[k as int]]);
            lemma_fold_join_single(tv[k as int]);
            assert(envs@ =~= fold_join(tv.take(k + 1)));
        }
        k = k + 1;
    }

    let mut cmd = String::new();
    let mut k: usize = di;
    proof {
        assert(tv.subrange(di as int, di as int) =~= Seq::<Seq<char>>::empty());
    }
    while k < tl
        invariant
            tl == tv.len(),
            tl == toks.len(),
            tv == toks.deep_view(),
            0 <= di <= k <= tl,
            cmd@ == fold_join(tv.subrange(di as int, k as int)),
        decreases tl - k,
    {
        cmd.append(" ");
        cmd.append(toks[k]);
        proof {
            reveal_strlit(" ");
            assert(" "@ =~= seq![' ']);
            assert(tv[k as int] == toks@[k as int]@);
            assert(tv.subrange(di as int, k + 1) =~= tv.subrange(di as int, k as int) + seq![
                tv[k as int],
            ]);
            lemma_fold_join_concat(tv.subrange(di as int, k as int), seq![tv[k as int]]);
            lemma_fold_join_single(tv[k as int]);
            assert(cmd@ =~= fold_join(tv.subrange(di as int, k + 1)));
        }
        k = k + 1;
    }
    proof {
        assert(tv.subrange(di as int, tl as int) =~= tv.skip(di as int));
    }

    strip_in_place(&mut envs, " `");
    strip_in_place(&mut envs, " ");
    strip_in_place(&mut cmd, "`");
    strip_in_place(&mut cmd, " ");
    let cmd_clean = remove_noise(cmd.as_str());
    proof {
        assert(split_record(rest@, target_pkg_name@) matches Some(q) && q.0 == envs@ && q.1
            == cmd@);
        assert(parse_line_spec(line@, target_pkg_name@) matches Some(q) && q.0 == envs@ && q.1
            == cmd_clean@);
    }
    Some((envs, cmd_clean))
}

// ---------------------------------------------------------------------------
// Scanning the diagnostic stream
// ---------------------------------------------------------------------------

/// What a sequential single-pass scan of the stream yields: the parse of
/// the first matching line, or nothing when no line matches.
pub open spec fn scan_spec(lines: Seq<Seq<char>>, target: Seq<char>) -> Option<
    (Seq<char>, Seq<char>),
>
    decreases lines.len(),
{
    if lines.len() == 0 {
        None
    } else {
        match parse_line_spec(lines[0], target) {
            Some(r) => Some(r),
            None => scan_spec(lines.skip(1), target),
        }
    }
}

/// The extracted invocation: the environment assignments and the command
/// line of the target's traced linter invocation, verbatim from the log but
/// for the stripped artifacts and flags, plus the directories a replay
/// needs.
#[derive(Debug, Clone)]
pub struct ClippyDriverCommandParts {
    /// Space-joined `NAME=value` assignments, verbatim from the log.
    pub envs: String,
    /// Space-joined executable path and arguments, with the
    /// diagnostic-format flags removed.
    pub exec_and_args: String,
    /// The toolchain project root the build ran from.
    pub clippy_cwd: String,
    /// The resolved runtime library search path.
    pub libdir: String,
}

/// Scans captured diagnostic-stream lines in order and returns the parse of
/// the first line carrying the target's traced invocation. An exhausted
/// stream is a fatal condition: there is no partial result to return.
pub fn scan_lines(lines: &Vec<String>, target_pkg_name: &str) -> (r: Result<
    (String, String),
    ToolError,
>)
    ensures
        r matches Ok(p) ==> (scan_spec(lines.deep_view(), target_pkg_name@) matches Some(q) && p.0@
            == q.0 && p.1@ == q.1),
        r matches Err(e) ==> (e == ToolError::TargetInvocationNotFound && scan_spec(
            lines.deep_view(),
            target_pkg_name@,
        ) is None),
{
    let ghost lv = lines.deep_view();
    let n = lines.len();
    let mut i: usize = 0;
    proof {
        assert(lv.len() == n);
        assert(lv.skip(0) =~= lv);
    }
    while i < n
        invariant
            n == lines.len(),
            lv == lines.deep_view(),
            lv.len() == n,
            0 <= i <= n,
            scan_spec(lv, target_pkg_name@) == scan_spec(lv.skip(i as int), target_pkg_name@),
        decreases n - i,
    {
        let line: &String = &lines[i];
        let parsed = parse_running_line(line.as_str(), target_pkg_name);
        proof {
            assert(lv[i as int] == lines@[i as int]@);
            assert(lv.skip(i as int)[0] == lv[i as int]);
            assert(lv.skip(i as int).skip(1) =~= lv.skip(i + 1));
        }
        match parsed {
            Some(p) => {
                return Ok(p);
            },
            None => {},
        }
        i = i + 1;
    }
    proof {
        assert(lv.skip(n as int) =~= Seq::<Seq<char>>::empty());
    }
    Err(ToolError::TargetInvocationNotFound)
}

/// Runs the scan over a captured stream and packages the result together
/// with the directories a replay needs.
pub fn extract_invocation(
    lines: &Vec<String>,
    target_pkg_name: &str,
    clippy_cwd: &str,
    libdir: &str,
) -> (r: Result<ClippyDriverCommandParts, ToolError>)
    ensures
        r matches Ok(parts) ==> (scan_spec(lines.deep_view(), target_pkg_name@) matches Some(q)
            && parts.envs@ == q.0 && parts.exec_and_args@ == q.1 && parts.clippy_cwd@ == clippy_cwd@
            && parts.libdir@ == libdir@),
        r matches Err(e) ==> (e == ToolError::TargetInvocationNotFound && scan_spec(
            lines.deep_view(),
            target_pkg_name@,
        ) is None),
{
    match scan_lines(lines, target_pkg_name) {
        Ok(p) => Ok(
            ClippyDriverCommandParts {
                envs: p.0,
                exec_and_args: p.1,
                clippy_cwd: String::from_str(clippy_cwd),
                libdir: String::from_str(libdir),
            },
        ),
        Err(e) => Err(e),
    }
}

// ---------------------------------------------------------------------------
// Laws
// ---------------------------------------------------------------------------

/// The raw invocation record of a line: what follows the traced-invocation
/// prefix of the trimmed line.
pub open spec fn record_of(line: Seq<char>) -> Seq<char> {
    trim_spec(line).skip(running_prefix().len() as int)
}

/// No token of the line's record carries the target's marker.
pub open spec fn no_marker_in(line: Seq<char>, target: Seq<char>) -> bool {
    forall|k: int|
        0 <= k < split_sp(record_of(line)).len() ==> !is_marker_token(
            #[trigger] split_sp(record_of(line))[k],
            target,
        )
}

/// A line lacking the target's marker token is never matched, even if it
/// names the driver executable: invocations traced for the target's
/// dependencies are ignored.
pub proof fn lemma_no_marker_no_match(line: Seq<char>, target: Seq<char>)
    requires
        no_marker_in(line, target),
    ensures
        parse_line_spec(line, target) is None,
{
    let t = trim_spec(line);
    if starts_with(t, running_prefix()) {
        let raw = t.skip(running_prefix().len() as int);
        assert(raw == record_of(line));
        assert(split_record(raw, target) is None);
    }
}

/// Removing every occurrence of `p` from a sequence that holds none leaves
/// it unchanged.
pub proof fn lemma_replace_all_absent(s: Seq<char>, p: Seq<char>)
    requires
        p.len() > 0,
        !contains_seq(s, p),
    ensures
        replace_all_spec(s, p) == s,
    decreases s.len(),
{
    if s.len() == 0 {
    } else {
        if starts_with(s, p) {
            assert(s.subrange(0, 0 + p.len() as int) == p);
            assert(contains_seq(s, p));
        }
        assert(!starts_with(s, p));
        assert forall|i: int| 0 <= i && i + p.len() <= s.skip(1).len() implies #[trigger] s.skip(
            1,
        ).subrange(i, i + p.len()) != p by {
            assert(s.skip(1).subrange(i, i + p.len()) =~= s.subrange(i + 1, (i + 1) + p.len()));
            if s.skip(1).subrange(i, i + p.len()) == p {
                assert(s.subrange(i + 1, (i + 1) + p.len()) == p);
                assert(contains_seq(s, p));
            }
        }
        lemma_replace_all_absent(s.skip(1), p);
        assert(seq![s[0]] + s.skip(1) =~= s);
    }
}

/// Stripping the diagnostic-format flags is idempotent: whenever one pass
/// leaves no further occurrence of the flag text, a second pass returns its
/// input unchanged.
pub proof fn lemma_remove_noise_idempotent(s: Seq<char>)
    requires
        !contains_seq(replace_all_spec(s, noise()), noise()),
    ensures
        replace_all_spec(replace_all_spec(s, noise()), noise()) == replace_all_spec(s, noise()),
{
    reveal_strlit("--error-format=json --json=diagnostic-rendered-ansi,artifacts,future-incompat");
    assert(noise().len() > 0);
    lemma_replace_all_absent(replace_all_spec(s, noise()), noise());
}

/// The boundary characters of a join: it starts with the artificial space,
/// continues with the first segment, and ends with the last segment after
/// one join space.
proof fn lemma_fold_join_bounds(ts: Seq<Seq<char>>)
    requires
        ts.len() >= 1,
    ensures
        fold_join(ts).len() >= 1 + ts[0].len(),
        fold_join(ts)[0] == ' ',
        ts[0].len() > 0 ==> fold_join(ts)[1] == ts[0][0],
        fold_join(ts) == fold_join(ts.take(ts.len() - 1)) + (seq![' '] + ts.last()),
        fold_join(ts).len() >= 1 + ts.last().len(),
        ts.last().len() > 0 ==> fold_join(ts).last() == ts.last().last(),
        ts.last().len() >= 2 ==> fold_join(ts)[fold_join(ts).len() - 2] == ts.last()[ts.last().len()
            - 2],
        ts.last().len() == 1 ==> fold_join(ts)[fold_join(ts).len() - 2] == ' ',
{
    let f = fold_join(ts);
    assert(f == seq![' '] + ts[0] + fold_join(ts.skip(1)));
    assert(f[0] == ' ');
    assert(ts =~= ts.take(ts.len() - 1) + seq![ts.last()]);
    lemma_fold_join_concat(ts.take(ts.len() - 1), seq![ts.last()]);
    lemma_fold_join_single(ts.last());
    assert(f == fold_join(ts.take(ts.len() - 1)) + (seq![' '] + ts.last()));
    let g = fold_join(ts.take(ts.len() - 1));
    let tl = seq![' '] + ts.last();
    assert(f.len() == g.len() + 1 + ts.last().len());
    if ts.last().len() > 0 {
        assert(f[f.len() - 1] == tl[tl.len() - 1]);
        assert(tl[tl.len() - 1] == ts.last()[ts.last().len() - 1]);
    }
    if ts.last().len() >= 2 {
        assert(f[f.len() - 2] == tl[tl.len() - 2]);
    }
    if ts.last().len() == 1 {
        assert(f[f.len() - 2] == tl[0]);
    }
}

/// The driver scan lands inside the token list only on a token that names
/// the driver.
proof fn lemma_find_driver_props(ts: Seq<Seq<char>>)
    ensures
        0 <= find_driver(ts) <= ts.len(),
        find_driver(ts) < ts.len() ==> ends_with(ts[find_driver(ts)], driver_suffix()),
    decreases ts.len(),
{
    if ts.len() == 0 {
    } else if ends_with(ts[0], driver_suffix()) {
    } else {
        lemma_find_driver_props(ts.skip(1));
    }
}

/// The record with the legacy backtick quoting artifact removed: when the
/// record is wrapped in a backtick-delimited block, its two boundary
/// markers go; otherwise the record stands as it is.
pub open spec fn unquote(raw: Seq<char>) -> Seq<char> {
    if raw.len() >= 2 && raw[0] == '`' && raw.last() == '`' {
        raw.subrange(1, raw.len() - 1)
    } else {
        raw
    }
}

/// A well-formed traced invocation record: every token is non-empty, one of
/// them is the target's marker, a token naming the driver stands after at
/// least one environment assignment, the token before the driver is not a
/// lone backtick, and the backtick quoting artifact is either absent or
/// wraps the whole record.
pub open spec fn wf_record(raw: Seq<char>, target: Seq<char>) -> bool {
    let toks = split_sp(raw);
    let i = find_driver(toks);
    &&& forall|k: int| 0 <= k < toks.len() ==> (#[trigger] toks[k]).len() > 0
    &&& exists|k: int| 0 <= k < toks.len() && is_marker_token(#[trigger] toks[k], target)
    &&& 1 <= i < toks.len()
    &&& toks[i - 1] != seq!['`']
    &&& {
        ||| (toks[0][0] != '`' && toks[toks.len() - 1].last() != '`')
        ||| (toks[0][0] == '`' && toks[0].len() >= 2 && toks[toks.len() - 1].last() == '`'
            && toks[toks.len() - 1].len() >= 2)
    }
}

/// Splitting a well-formed record yields two halves that are non-empty and
/// non-overlapping, and joining them back with one space reconstructs the
/// record's token sequence exactly, after accounting for the stripped
/// quoting artifacts.
pub proof fn lemma_split_reconstructs_record(raw: Seq<char>, target: Seq<char>)
    requires
        wf_record(raw, target),
    ensures
        split_record(raw, target) matches Some(p) && p.0 + " "@ + p.1 == unquote(raw),
{
    reveal_strlit(" ");
    reveal_strlit(" `");
    reveal_strlit("`");
    reveal_strlit("clippy-driver");
    assert(" "@ =~= seq![' ']);
    assert(" `"@ =~= seq![' ', '`']);
    assert("`"@ =~= seq!['`']);
    assert(driver_suffix().len() == 13);
    let toks = split_sp(raw);
    let i = find_driver(toks);
    lemma_split_sp_no_space(raw);
    lemma_fold_join_split(raw);
    lemma_find_driver_props(toks);
    assert(toks.take(i) + toks.skip(i) =~= toks);
    lemma_fold_join_concat(toks.take(i), toks.skip(i));
    let e = fold_join(toks.take(i));
    let c = fold_join(toks.skip(i));
    assert(e + c == seq![' '] + raw);
    let et = toks.take(i);
    let ct = toks.skip(i);
    assert(et[0] == toks[0]);
    assert(et.last() == toks[i - 1]);
    assert(ct[0] == toks[i]);
    assert(ct.last() == toks[toks.len() - 1]);
    lemma_fold_join_bounds(et);
    lemma_fold_join_bounds(ct);
    let last = toks[toks.len() - 1];
    let before = toks[i - 1];
    assert(toks[0].len() > 0);
    assert(before.len() > 0);
    assert(last.len() > 0);
    assert(toks[i].len() >= 13) by {
        assert(ends_with(toks[i], driver_suffix()));
    }
    assert(c.len() >= 14);
    assert(e.len() >= 1 + toks[0].len());
    // the record's own first and last characters
    assert(raw[0] == toks[0][0]) by {
        assert((e + c)[1] == e[1]);
        assert((seq![' '] + raw)[1] == raw[0]);
    }
    assert(raw.len() >= 2);
    assert(raw.last() == last.last()) by {
        assert((e + c)[e.len() + c.len() - 1] == c[c.len() - 1]);
        assert((seq![' '] + raw)[(seq![' '] + raw).len() - 1] == raw[raw.len() - 1]);
    }
    // the join of the environment half never ends in the quoting sentinel
    assert(!ends_with(e, " `"@)) by {
        if ends_with(e, " `"@) {
            assert(e.subrange(e.len() - 2, e.len() as int)[0] == e[e.len() - 2]);
            assert(e.subrange(e.len() - 2, e.len() as int)[1] == e[e.len() - 1]);
            assert(e[e.len() - 2] == ' ' && e[e.len() - 1] == '`');
            if before.len() >= 2 {
                assert(e[e.len() - 2] == before[before.len() - 2]);
                assert(before[before.len() - 2] != ' ');
            } else {
                assert(e[e.len() - 1] == before[0]);
                assert(before =~= seq!['`']);
            }
        }
    }
    assert(e.last() == before.last());
    assert(before.last() != ' ');
    assert(c[0] == ' ');
    assert(c.last() == last.last());
    assert(last.last() != ' ');
    if toks[0][0] != '`' && last.last() != '`' {
        // no quoting artifact anywhere
        assert(!starts_with(e, " `"@)) by {
            if starts_with(e, " `"@) {
                assert(e.subrange(0, 2)[1] == e[1]);
                assert(e[1] == '`');
            }
        }
        let e3 = strip_spec(strip_spec(e, " `"@), " "@);
        assert(starts_with(e, " "@)) by {
            assert(e.subrange(0, 1) =~= seq![' ']);
        }
        assert(!ends_with(e.skip(1), " "@)) by {
            if ends_with(e.skip(1), " "@) {
                assert(e.skip(1).subrange(e.len() - 1 - 1, e.len() - 1)[0] == e[e.len() - 1]);
            }
        }
        assert(e3 == e.skip(1));
        let c3 = strip_spec(strip_spec(c, "`"@), " "@);
        assert(!starts_with(c, "`"@)) by {
            if starts_with(c, "`"@) {
                assert(c.subrange(0, 1)[0] == c[0]);
            }
        }
        assert(!ends_with(c, "`"@)) by {
            if ends_with(c, "`"@) {
                assert(c.subrange(c.len() - 1, c.len() as int)[0] == c[c.len() - 1]);
            }
        }
        assert(starts_with(c, " "@)) by {
            assert(c.subrange(0, 1) =~= seq![' ']);
        }
        assert(!ends_with(c.skip(1), " "@)) by {
            if ends_with(c.skip(1), " "@) {
                assert(c.skip(1).subrange(c.len() - 1 - 1, c.len() - 1)[0] == c[c.len() - 1]);
            }
        }
        assert(c3 == c.skip(1));
        assert(unquote(raw) == raw);
        assert(raw =~= (e + c).skip(1));
        assert(e.skip(1) + " "@ + c.skip(1) =~= (e + c).skip(1));
        assert(split_record(raw, target) matches Some(p) && p.0 + " "@ + p.1 == unquote(raw));
    } else {
        // the record is wrapped in the backtick-delimited block
        assert(toks[0][0] == '`' && toks[0].len() >= 2 && last.last() == '`' && last.len() >= 2);
        assert(e.len() >= 3);
        // the environment half loses the leading space and backtick
        let e3 = strip_spec(strip_spec(e, " `"@), " "@);
        assert(e[1] == toks[0][0]);
        assert(starts_with(e, " `"@)) by {
            assert(e.subrange(0, 2) =~= seq![' ', '`']);
        }
        let ea = e.skip(2);
        assert(ea.len() >= 1);
        assert(!ends_with(ea, " `"@)) by {
            if ends_with(ea, " `"@) {
                assert(ea.subrange(ea.len() - 2, ea.len() as int)[0] == ea[ea.len() - 2]);
                assert(ea.subrange(ea.len() - 2, ea.len() as int)[1] == ea[ea.len() - 1]);
                assert(ea[ea.len() - 1] == e[e.len() - 1]);
                assert(ea[ea.len() - 2] == e[e.len() - 2]);
                if before.len() >= 2 {
                    assert(before[before.len() - 2] != ' ');
                } else {
                    assert(before =~= seq!['`']);
                }
            }
        }
        assert(!starts_with(ea, " "@)) by {
            if starts_with(ea, " "@) {
                assert(ea.subrange(0, 1)[0] == ea[0]);
                assert(ea[0] == e[2]);
                assert(e[2] == toks[0][1]) by {
                    assert(e == seq![' '] + toks[0] + fold_join(et.skip(1)));
                }
                assert(toks[0][1] != ' ');
            }
        }
        assert(!ends_with(ea, " "@)) by {
            if ends_with(ea, " "@) {
                assert(ea.subrange(ea.len() - 1, ea.len() as int)[0] == ea[ea.len() - 1]);
                assert(ea[ea.len() - 1] == e[e.len() - 1]);
            }
        }
        assert(e3 == e.skip(2));
        // the command half loses the trailing backtick and the leading space
        let c3 = strip_spec(strip_spec(c, "`"@), " "@);
        assert(!starts_with(c, "`"@)) by {
            if starts_with(c, "`"@) {
                assert(c.subrange(0, 1)[0] == c[0]);
            }
        }
        assert(ends_with(c, "`"@)) by {
            assert(c.subrange(c.len() - 1, c.len() as int) =~= seq!['`']);
        }
        let cb = c.take(c.len() - 1);
        assert(cb.len() >= 13);
        assert(starts_with(cb, " "@)) by {
            assert(cb.subrange(0, 1)[0] == cb[0]);
            assert(cb[0] == c[0]);
            assert(cb.subrange(0, 1) =~= seq![' ']);
        }
        assert(!ends_with(cb.skip(1), " "@)) by {
            if ends_with(cb.skip(1), " "@) {
                assert(cb.skip(1).subrange(cb.len() - 1 - 1, cb.len() - 1)[0] == cb[cb.len() - 1]);
                assert(cb[cb.len() - 1] == c[c.len() - 2]);
                assert(c[c.len() - 2] == last[last.len() - 2]);
                assert(last[last.len() - 2] != ' ');
            }
        }
        assert(c3 == cb.skip(1));
        assert(c3 =~= c.subrange(1, c.len() - 1));
        // reconstruction: both halves come from dropping the quoting block
        assert(raw[0] == '`');
        assert(raw.last() == '`');
        assert(unquote(raw) == raw.subrange(1, raw.len() - 1));
        assert(raw =~= (e + c).skip(1));
        assert(raw.subrange(1, raw.len() - 1) =~= (e + c).subrange(2, e.len() + c.len() - 1));
        assert(e.skip(2) + " "@ + c.subrange(1, c.len() - 1) =~= (e + c).subrange(
            2,
            e.len() + c.len() - 1,
        ));
        assert(split_record(raw, target) matches Some(p) && p.0 + " "@ + p.1 == unquote(raw));
    }
}

/// A scan over a stream whose first match stands at index `n` consumes the
/// `n` non-matching lines and yields exactly the parse of line `n`.
pub proof fn lemma_scan_stops_at_first_match(lines: Seq<Seq<char>>, target: Seq<char>, n: int)
    requires
        0 <= n < lines.len(),
        forall|j: int| 0 <= j < n ==> parse_line_spec(#[trigger] lines[j], target) is None,
        parse_line_spec(lines[n], target) is Some,
    ensures
        scan_spec(lines, target) == parse_line_spec(lines[n], target),
    decreases n,
{
    if n == 0 {
    } else {
        assert(parse_line_spec(lines[0], target) is None);
        assert forall|j: int| 0 <= j < n - 1 implies parse_line_spec(
            #[trigger] lines.skip(1)[j],
            target,
        ) is None by {
            assert(lines.skip(1)[j] == lines[j + 1]);
        }
        assert(lines.skip(1)[n - 1] == lines[n]);
        lemma_scan_stops_at_first_match(lines.skip(1), target, n - 1);
    }
}

/// A scan comes back empty exactly when no line of the stream matches; in
/// particular it terminates on a closed stream instead of hanging.
pub proof fn lemma_scan_none_iff_no_match(lines: Seq<Seq<char>>, target: Seq<char>)
    ensures
        (scan_spec(lines, target) is None) <==> (forall|j: int|
            0 <= j < lines.len() ==> parse_line_spec(#[trigger] lines[j], target) is None),
    decreases lines.len(),
{
    if lines.len() == 0 {
    } else {
        lemma_scan_none_iff_no_match(lines.skip(1), target);
        assert forall|j: int| 0 <= j < lines.skip(1).len() implies lines.skip(1)[j] == lines[j
            + 1] by {}
        if scan_spec(lines, target) is None {
            assert forall|j: int| 0 <= j < lines.len() implies parse_line_spec(
                #[trigger] lines[j],
                target,
            ) is None by {
                if j > 0 {
                    assert(lines[j] == lines.skip(1)[j - 1]);
                }
            }
        } else {
            if parse_line_spec(lines[0], target) is None {
                assert(scan_spec(lines.skip(1), target) is Some);
                let w = choose|j: int|
                    0 <= j < lines.skip(1).len() && !(parse_line_spec(
                        #[trigger] lines.skip(1)[j],
                        target,
                    ) is None);
                assert(parse_line_spec(lines[w + 1], target) is Some);
            }
        }
    }
}

} // verus!
