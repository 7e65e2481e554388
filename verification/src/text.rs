use vstd::prelude::*;

verus! {

// ---------------------------------------------------------------------------
// Character-sequence specifications
// ---------------------------------------------------------------------------

/// The whitespace characters that line trimming removes.
pub open spec fn is_ws(c: char) -> bool {
    c == ' ' || c == '\t' || c == '\r' || c == '\n'
}

/// `p` is a prefix of `s`.
pub open spec fn starts_with(s: Seq<char>, p: Seq<char>) -> bool {
    p.len() <= s.len() && s.subrange(0, p.len() as int) == p
}

/// `p` is a suffix of `s`.
pub open spec fn ends_with(s: Seq<char>, p: Seq<char>) -> bool {
    p.len() <= s.len() && s.subrange(s.len() - p.len(), s.len() as int) == p
}

/// `p` occurs somewhere inside `s`.
pub open spec fn contains_seq(s: Seq<char>, p: Seq<char>) -> bool {
    exists|i: int| 0 <= i && i + p.len() <= s.len() && #[trigger] s.subrange(i, i + p.len()) == p
}

/// What is left of `s` after dropping leading whitespace.
pub open spec fn trim_start_spec(s: Seq<char>) -> Seq<char>
    decreases s.len(),
{
    if s.len() > 0 && is_ws(s[0]) {
        trim_start_spec(s.drop_first())
    } else {
        s
    }
}

/// What is left of `s` after dropping trailing whitespace.
pub open spec fn trim_end_spec(s: Seq<char>) -> Seq<char>
    decreases s.len(),
{
    if s.len() > 0 && is_ws(s.last()) {
        trim_end_spec(s.drop_last())
    } else {
        s
    }
}

/// `s` with both leading and trailing whitespace removed.
pub open spec fn trim_spec(s: Seq<char>) -> Seq<char> {
    trim_end_spec(trim_start_spec(s))
}

/// The index of the first occurrence of `c` in `s`, or `s.len()` if absent.
pub open spec fn find_char(s: Seq<char>, c: char) -> int
    decreases s.len(),
{
    if s.len() == 0 {
        0
    } else if s[0] == c {
        0
    } else {
        1 + find_char(s.drop_first(), c)
    }
}

/// `s` split on single spaces, keeping empty segments, as `str::split(' ')`
/// does: splitting the empty sequence gives one empty segment, and every
/// space ends the segment before it.
pub open spec fn split_sp(s: Seq<char>) -> Seq<Seq<char>>
    decreases s.len(),
{
    if s.len() == 0 {
        seq![Seq::<char>::empty()]
    } else if s[0] == ' ' {
        seq![Seq::<char>::empty()] + split_sp(s.drop_first())
    } else {
        let rest = split_sp(s.drop_first());
        seq![seq![s[0]] + rest[0]] + rest.skip(1)
    }
}

/// The segments joined by prefixing one space before each of them, the way a
/// fold starting from an empty accumulator joins: the result carries one
/// artificial leading space whenever `ts` is non-empty.
pub open spec fn fold_join(ts: Seq<Seq<char>>) -> Seq<char>
    decreases ts.len(),
{
    if ts.len() == 0 {
        Seq::<char>::empty()
    } else {
        seq![' '] + ts[0] + fold_join(ts.skip(1))
    }
}

// ---------------------------------------------------------------------------
// Lemmas
// ---------------------------------------------------------------------------

/// If everything before `a` is whitespace and `a` is the end or a
/// non-whitespace position, then trimming the start drops exactly `a` chars.
pub proof fn lemma_trim_start_at(s: Seq<char>, a: int)
    requires
        0 <= a <= s.len(),
        forall|j: int| 0 <= j < a ==> is_ws(s[j]),
        a == s.len() || !is_ws(s[a]),
    ensures
        trim_start_spec(s) == s.skip(a),
    decreases a,
{
    if a == 0 {
        assert(s.skip(0) =~= s);
    } else {
        assert(is_ws(s[0]));
        lemma_trim_start_at(s.drop_first(), a - 1);
        assert(s.drop_first().skip(a - 1) =~= s.skip(a));
    }
}

/// If everything from `b` on is whitespace and `b` is the start or follows a
/// non-whitespace position, then trimming the end keeps exactly `b` chars.
pub proof fn lemma_trim_end_at(s: Seq<char>, b: int)
    requires
        0 <= b <= s.len(),
        forall|j: int| b <= j < s.len() ==> is_ws(s[j]),
        b == 0 || !is_ws(s[b - 1]),
    ensures
        trim_end_spec(s) == s.take(b),
    decreases s.len(),
{
    if b == s.len() {
        assert(s.take(b) =~= s);
    } else {
        assert(is_ws(s.last()));
        lemma_trim_end_at(s.drop_last(), b);
        assert(s.drop_last().take(b) =~= s.take(b));
    }
}

/// The first occurrence of `c` is where the scan says it is.
pub proof fn lemma_find_char_at(s: Seq<char>, c: char, i: int)
    requires
        0 <= i <= s.len(),
        forall|j: int| 0 <= j < i ==> s[j] != c,
        i == s.len() || s[i] == c,
    ensures
        find_char(s, c) == i,
    decreases i,
{
    if s.len() == 0 {
    } else if i == 0 {
    } else {
        lemma_find_char_at(s.drop_first(), c, i - 1);
    }
}

/// Splitting always yields at least one segment.
pub proof fn lemma_split_sp_len(s: Seq<char>)
    ensures
        split_sp(s).len() >= 1,
    decreases s.len(),
{
    if s.len() == 0 {
    } else if s[0] == ' ' {
        lemma_split_sp_len(s.drop_first());
    } else {
        lemma_split_sp_len(s.drop_first());
    }
}

/// Splitting steps over the first space: if the first space of `s` stands at
/// `i`, the first segment is `s.take(i)` and the rest is the split of what
/// follows the space; if there is no space, `s` is the only segment.
pub proof fn lemma_split_sp_at(s: Seq<char>, i: int)
    requires
        0 <= i <= s.len(),
        forall|j: int| 0 <= j < i ==> s[j] != ' ',
        i == s.len() || s[i] == ' ',
    ensures
        i < s.len() ==> split_sp(s) == seq![s.take(i)] + split_sp(s.skip(i + 1)),
        i == s.len() ==> split_sp(s) == seq![s],
    decreases i,
{
    if s.len() == 0 {
        assert(s =~= Seq::<char>::empty());
        assert(split_sp(s) =~~= seq![s]);
    } else if i == 0 {
        if i < s.len() {
            assert(s[0] == ' ');
            assert(s.drop_first() =~= s.skip(1));
            assert(s.take(0) =~= Seq::<char>::empty());
            assert(split_sp(s) =~= seq![s.take(0)] + split_sp(s.skip(1)));
        }
    } else {
        assert(s[0] != ' ');
        let d = s.drop_first();
        lemma_split_sp_at(d, i - 1);
        let rest = split_sp(d);
        lemma_split_sp_len(d);
        if i < s.len() {
            // rest == [d.take(i-1)] + split_sp(d.skip(i))
            assert(rest[0] == d.take(i - 1));
            assert(rest.skip(1) =~= split_sp(d.skip(i)));
            assert(seq![s[0]] + d.take(i - 1) =~= s.take(i));
            assert(d.skip(i) =~= s.skip(i + 1));
            assert(split_sp(s) =~= seq![s.take(i)] + split_sp(s.skip(i + 1)));
        } else {
            // rest == [d]
            assert(rest[0] == d);
            assert(rest.skip(1) =~= Seq::<Seq<char>>::empty());
            assert(seq![s[0]] + d =~= s);
            assert(split_sp(s) =~= seq![s]);
        }
    }
}

/// No segment of a split contains a space.
pub proof fn lemma_split_sp_no_space(s: Seq<char>)
    ensures
        forall|k: int, j: int|
            0 <= k < split_sp(s).len() && 0 <= j < split_sp(s)[k].len() ==> split_sp(s)[k][j]
                != ' ',
    decreases s.len(),
{
    if s.len() == 0 {
    } else if s[0] == ' ' {
        lemma_split_sp_no_space(s.drop_first());
        assert forall|k: int, j: int|
            0 <= k < split_sp(s).len() && 0 <= j < split_sp(s)[k].len() implies split_sp(
            s,
        )[k][j] != ' ' by {
            if k >= 1 {
                assert(split_sp(s)[k] == split_sp(s.drop_first())[k - 1]);
            }
        }
    } else {
        lemma_split_sp_no_space(s.drop_first());
        lemma_split_sp_len(s.drop_first());
        let rest = split_sp(s.drop_first());
        assert forall|k: int, j: int|
            0 <= k < split_sp(s).len() && 0 <= j < split_sp(s)[k].len() implies split_sp(
            s,
        )[k][j] != ' ' by {
            if k == 0 {
                assert(split_sp(s)[0] == seq![s[0]] + rest[0]);
                if j >= 1 {
                    assert((seq![s[0]] + rest[0])[j] == rest[0][j - 1]);
                }
            } else {
                assert(split_sp(s)[k] == rest.skip(1)[k - 1]);
                assert(rest.skip(1)[k - 1] == rest[k]);
            }
        }
    }
}

/// Joining a single segment puts one space before it.
pub proof fn lemma_fold_join_single(t: Seq<char>)
    ensures
        fold_join(seq![t]) == seq![' '] + t,
{
    assert(seq![t].skip(1) =~= Seq::<Seq<char>>::empty());
    assert(fold_join(Seq::<Seq<char>>::empty()) == Seq::<char>::empty());
    assert(fold_join(seq![t]) =~= seq![' '] + t);
}

/// Joining distributes over concatenation of segment sequences.
pub proof fn lemma_fold_join_concat(a: Seq<Seq<char>>, b: Seq<Seq<char>>)
    ensures
        fold_join(a + b) == fold_join(a) + fold_join(b),
    decreases a.len(),
{
    if a.len() == 0 {
        assert(a + b =~= b);
        assert(fold_join(a) + fold_join(b) =~= fold_join(b));
    } else {
        lemma_fold_join_concat(a.skip(1), b);
        assert((a + b).skip(1) =~= a.skip(1) + b);
        assert((a + b)[0] == a[0]);
        assert(fold_join(a + b) =~= fold_join(a) + fold_join(b));
    }
}

/// Joining the split of `s` gives back `s` with one extra leading space.
pub proof fn lemma_fold_join_split(s: Seq<char>)
    ensures
        fold_join(split_sp(s)) == seq![' '] + s,
    decreases s.len(),
{
    if s.len() == 0 {
        lemma_fold_join_single(Seq::<char>::empty());
        assert(fold_join(split_sp(s)) =~= seq![' '] + s);
    } else if s[0] == ' ' {
        lemma_fold_join_split(s.drop_first());
        let ts = split_sp(s);
        lemma_split_sp_len(s);
        assert(ts[0] =~= Seq::<char>::empty());
        assert(ts.skip(1) =~= split_sp(s.drop_first()));
        assert(fold_join(ts) == seq![' '] + ts[0] + fold_join(ts.skip(1)));
        assert(fold_join(ts.skip(1)) == seq![' '] + s.drop_first());
        assert(seq![' '] + ts[0] + (seq![' '] + s.drop_first()) =~= seq![' '] + s);
        assert(fold_join(split_sp(s)) == seq![' '] + s);
    } else {
        let d = s.drop_first();
        lemma_fold_join_split(d);
        lemma_split_sp_len(d);
        let rest = split_sp(d);
        // fold_join(rest) == [' '] + d, and rest == [rest[0]] + rest.skip(1)
        assert(rest =~= seq![rest[0]] + rest.skip(1));
        lemma_fold_join_concat(seq![rest[0]], rest.skip(1));
        lemma_fold_join_single(rest[0]);
        // so [' '] + rest[0] + fold_join(rest.skip(1)) == [' '] + d
        assert(seq![' '] + rest[0] + fold_join(rest.skip(1)) == seq![' '] + d);
        assert((seq![' '] + rest[0] + fold_join(rest.skip(1))).skip(1) =~= rest[0] + fold_join(
            rest.skip(1),
        ));
        assert((seq![' '] + d).skip(1) =~= d);
        assert(rest[0] + fold_join(rest.skip(1)) == d);
        assert(split_sp(s) == seq![seq![s[0]] + rest[0]] + rest.skip(1));
        lemma_fold_join_concat(seq![seq![s[0]] + rest[0]], rest.skip(1));
        lemma_fold_join_single(seq![s[0]] + rest[0]);
        assert(fold_join(split_sp(s)) == (seq![' '] + (seq![s[0]] + rest[0])) + fold_join(
            rest.skip(1),
        ));
        assert((seq![' '] + (seq![s[0]] + rest[0])) + fold_join(rest.skip(1)) =~= (seq![' ', s[0]])
            + (rest[0] + fold_join(rest.skip(1))));
        assert(seq![' ', s[0]] + d =~= seq![' '] + s);
        assert(fold_join(split_sp(s)) == seq![' '] + s);
    }
}

// ---------------------------------------------------------------------------
// Executable helpers
// ---------------------------------------------------------------------------

/// Whether `c` counts as whitespace for line trimming.
pub fn is_ws_char(c: char) -> (r: bool)
    ensures
        r == is_ws(c),
{
    c == ' ' || c == '\t' || c == '\r' || c == '\n'
}

/// Whether the characters of `p` stand in `s` at position `i`.
pub fn match_at(s: &str, p: &str, i: usize) -> (r: bool)
    requires
        i + p@.len() <= s@.len(),
        s@.len() <= usize::MAX,
    ensures
        r == (s@.subrange(i as int, i + p@.len()) == p@),
{
    let m = p.unicode_len();
    let mut j: usize = 0;
    while j < m
        invariant
            0 <= j <= m,
            m == p@.len(),
            i + m <= s@.len(),
            s@.len() <= usize::MAX,
            forall|k: int| 0 <= k < j ==> s@[i + k] == p@[k],
        decreases m - j,
    {
        if s.get_char(i + j) != p.get_char(j) {
            proof {
                assert(s@.subrange(i as int, i + p@.len())[j as int] == s@[i + j]);
            }
            return false;
        }
        j = j + 1;
    }
    proof {
        assert(s@.subrange(i as int, i + p@.len()) =~= p@);
    }
    true
}

/// Whether `s` starts with `p`.
pub fn str_starts_with(s: &str, p: &str) -> (r: bool)
    ensures
        r == starts_with(s@, p@),
{
    let n = s.unicode_len();
    let m = p.unicode_len();
    if m > n {
        return false;
    }
    match_at(s, p, 0)
}

/// Whether `s` ends with `p`.
pub fn str_ends_with(s: &str, p: &str) -> (r: bool)
    ensures
        r == ends_with(s@, p@),
{
    let n = s.unicode_len();
    let m = p.unicode_len();
    if m > n {
        return false;
    }
    match_at(s, p, n - m)
}

/// Whether `s` and `p` hold the same characters.
pub fn str_eq(s: &str, p: &str) -> (r: bool)
    ensures
        r == (s@ == p@),
{
    let n = s.unicode_len();
    let m = p.unicode_len();
    if m != n {
        return false;
    }
    let r = match_at(s, p, 0);
    proof {
        assert(s@.subrange(0, p@.len() as int) =~= s@);
    }
    r
}

/// Whether `p` occurs anywhere inside `s`.
pub fn str_contains(s: &str, p: &str) -> (r: bool)
    ensures
        r == contains_seq(s@, p@),
{
    let n = s.unicode_len();
    let m = p.unicode_len();
    if m > n {
        return false;
    }
    if m == 0 {
        proof {
            assert(s@.subrange(0, 0 + p@.len() as int) =~= p@);
            assert(contains_seq(s@, p@));
        }
        return true;
    }
    let mut i: usize = 0;
    while i <= n - m
        invariant
            n == s@.len(),
            m == p@.len(),
            m <= n,
            0 <= i <= n - m + 1,
            forall|k: int| 0 <= k < i ==> #[trigger] s@.subrange(k, k + p@.len()) != p@,
            m >= 1,
        decreases n - m + 1 - i,
    {
        if match_at(s, p, i) {
            return true;
        }
        i = i + 1;
    }
    false
}

/// `s` with leading and trailing whitespace removed.
pub fn trim_str<'a>(s: &'a str) -> (r: &'a str)
    ensures
        r@ == trim_spec(s@),
{
    let n = s.unicode_len();
    let mut a: usize = 0;
    while a < n && is_ws_char(s.get_char(a))
        invariant
            n == s@.len(),
            0 <= a <= n,
            forall|j: int| 0 <= j < a ==> is_ws(s@[j]),
        decreases n - a,
    {
        a = a + 1;
    }
    let mut b: usize = n;
    while b > a && is_ws_char(s.get_char(b - 1))
        invariant
            n == s@.len(),
            0 <= a <= b <= n,
            forall|j: int| 0 <= j < a ==> is_ws(s@[j]),
            forall|j: int| b <= j < n ==> is_ws(s@[j]),
        decreases b,
    {
        b = b - 1;
    }
    let r = s.substring_char(a, b);
    proof {
        lemma_trim_start_at(s@, a as int);
        let d = s@.skip(a as int);
        lemma_trim_end_at(d, b - a);
        assert(d.take(b - a) =~= s@.subrange(a as int, b as int));
    }
    r
}

/// `s` with trailing whitespace removed, as a fresh string.
pub fn trim_trailing(s: &str) -> (r: String)
    ensures
        r@ == trim_end_spec(s@),
{
    let n = s.unicode_len();
    let mut b: usize = n;
    while b > 0 && is_ws_char(s.get_char(b - 1))
        invariant
            n == s@.len(),
            0 <= b <= n,
            forall|j: int| b <= j < n ==> is_ws(s@[j]),
        decreases b,
    {
        b = b - 1;
    }
    let r = s.substring_char(0, b);
    proof {
        lemma_trim_end_at(s@, b as int);
        assert(s@.take(b as int) =~= s@.subrange(0, b as int));
    }
    String::from_str(r)
}

/// `s` split on single spaces, keeping empty segments.
pub fn split_spaces<'a>(s: &'a str) -> (r: Vec<&'a str>)
    ensures
        r.deep_view() == split_sp(s@),
{
    let n = s.unicode_len();
    let mut out: Vec<&'a str> = Vec::new();
    let mut start: usize = 0;
    let mut i: usize = 0;
    proof {
        assert(s@.skip(0) =~= s@);
        assert(out.deep_view() =~= Seq::<Seq<char>>::empty());
        assert(out.deep_view() + split_sp(s@.skip(0)) =~= split_sp(s@));
    }
    loop
        invariant
            n == s@.len(),
            0 <= start <= i <= n,
            forall|j: int| start <= j < i ==> s@[j] != ' ',
            split_sp(s@) == out.deep_view() + split_sp(s@.skip(start as int)),
        decreases n - i,
    {
        if i == n {
            let tok = s.substring_char(start, n);
            proof {
                let d = s@.skip(start as int);
                assert(forall|j: int| 0 <= j < d.len() ==> d[j] == s@[start + j]);
                lemma_split_sp_at(d, d.len() as int);
                assert(tok@ =~= d);
                assert(out.deep_view().push(tok@) =~= out.deep_view() + seq![d]);
            }
            let ghost prev = out.deep_view();
            out.push(tok);
            proof {
                assert(out.deep_view() =~= prev.push(tok@));
            }
            return out;
        }
        if s.get_char(i) == ' ' {
            let tok = s.substring_char(start, i);
            proof {
                let d = s@.skip(start as int);
                assert(forall|j: int| 0 <= j < d.len() ==> d[j] == s@[start + j]);
                lemma_split_sp_at(d, i - start);
                assert(tok@ =~= d.take(i - start));
                assert(d.skip(i - start + 1) =~= s@.skip(i + 1));
                assert(out.deep_view().push(tok@) + split_sp(s@.skip(i + 1)) =~= out.deep_view() + (
                seq![d.take(i - start)] + split_sp(d.skip(i - start + 1))));
            }
            let ghost prev = out.deep_view();
            out.push(tok);
            proof {
                assert(out.deep_view() =~= prev.push(tok@));
            }
            start = i + 1;
        }
        i = i + 1;
    }
}

} // verus!
