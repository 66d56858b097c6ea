//! Byte-string utilities shared by the name normalizer and the probe
//! parser: substring search, token stripping, whitespace trimming,
//! space collapsing, and ASCII lower-casing, all modeled over `Seq<u8>`.
//!
//! Every token this crate strips or searches for is ASCII, so working on
//! bytes matches character-level semantics on any UTF-8 input: an ASCII
//! byte never occurs inside a multi-byte UTF-8 sequence.

use vstd::prelude::*;

verus! {

/// The ASCII space byte, the only byte the collapse step targets.
pub open spec fn sp() -> u8 {
    ' ' as u8
}

/// ASCII whitespace, the bytes the trim step removes at either end.
pub open spec fn is_space(b: u8) -> bool {
    b == sp() || (9 <= b && b <= 13)
}

/// True when `pat` occurs in `s` starting at index `i`.
pub open spec fn matches_at(s: Seq<u8>, pat: Seq<u8>, i: int) -> bool {
    0 <= i && i + pat.len() <= s.len() && s.subrange(i, i + pat.len()) == pat
}

/// True when `pat` occurs somewhere in `s`.
pub open spec fn contains_seq(s: Seq<u8>, pat: Seq<u8>) -> bool {
    exists|i: int| matches_at(s, pat, i)
}

/// Index of the first occurrence of `pat` in `s`; `s.len()` when absent.
pub open spec fn first_match(s: Seq<u8>, pat: Seq<u8>) -> int
    decreases s.len(),
{
    if s.len() == 0 {
        0
    } else if matches_at(s, pat, 0) {
        0
    } else {
        1 + first_match(s.skip(1), pat)
    }
}

/// One left-to-right pass that removes each non-overlapping occurrence of
/// `pat` from `s`, exactly as a single string `replace` with the empty
/// string does: a removal is never re-scanned, so removals that butt two
/// halves of a token together leave that token in the result.
pub open spec fn strip_token(s: Seq<u8>, pat: Seq<u8>) -> Seq<u8>
    decreases s.len(),
{
    if pat.len() == 0 || s.len() < pat.len() {
        s
    } else if s.subrange(0, pat.len() as int) == pat {
        strip_token(s.skip(pat.len() as int), pat)
    } else {
        seq![s[0]] + strip_token(s.skip(1), pat)
    }
}

/// Strips each token of `pats` in order, each in one pass over the
/// previous result.
pub open spec fn strip_tokens(s: Seq<u8>, pats: Seq<Seq<u8>>) -> Seq<u8>
    decreases pats.len(),
{
    if pats.len() == 0 {
        s
    } else {
        strip_tokens(strip_token(s, pats[0]), pats.skip(1))
    }
}

/// Drops leading ASCII whitespace.
pub open spec fn trim_start(s: Seq<u8>) -> Seq<u8>
    decreases s.len(),
{
    if s.len() > 0 && is_space(s[0]) {
        trim_start(s.skip(1))
    } else {
        s
    }
}

/// Drops trailing ASCII whitespace.
pub open spec fn trim_end(s: Seq<u8>) -> Seq<u8>
    decreases s.len(),
{
    if s.len() > 0 && is_space(s.last()) {
        trim_end(s.take(s.len() - 1))
    } else {
        s
    }
}

/// Drops leading and trailing ASCII whitespace.
pub open spec fn trim_spaces(s: Seq<u8>) -> Seq<u8> {
    trim_end(trim_start(s))
}

/// True when `s` neither starts nor ends with whitespace.
pub open spec fn is_trimmed(s: Seq<u8>) -> bool {
    s.len() > 0 ==> !is_space(s[0]) && !is_space(s.last())
}

/// Collapses every run of two or more spaces down to a single space:
/// the fixed point of replacing a double space with a single one.
pub open spec fn collapse_spaces(s: Seq<u8>) -> Seq<u8>
    decreases s.len(),
{
    if s.len() == 0 {
        s
    } else if s.len() >= 2 && s[0] == sp() && s[1] == sp() {
        collapse_spaces(s.skip(1))
    } else {
        seq![s[0]] + collapse_spaces(s.skip(1))
    }
}

/// True when `s` holds no two consecutive spaces.
pub open spec fn no_double_space(s: Seq<u8>) -> bool {
    forall|i: int| 0 <= i && i + 1 < s.len() ==> !(#[trigger] s[i] == sp() && s[i + 1] == sp())
}

/// ASCII lower-casing of one byte; bytes outside `A`..`Z` are unchanged.
pub open spec fn lower_byte(b: u8) -> u8 {
    if 'A' as u8 <= b && b <= 'Z' as u8 {
        (b + 32) as u8
    } else {
        b
    }
}

/// ASCII lower-casing of a byte string.
pub open spec fn lower_bytes(s: Seq<u8>) -> Seq<u8> {
    s.map_values(|b: u8| lower_byte(b))
}

/// Byte-for-byte copy, so callers need not clone through `Vec`'s
/// element-wise clone specification.
pub fn copy_bytes(s: &Vec<u8>) -> (r: Vec<u8>)
    ensures
        r@ == s@,
{
    let mut r: Vec<u8> = Vec::new();
    let mut i: usize = 0;
    while i < s.len()
        invariant
            i <= s@.len(),
            r@ == s@.take(i as int),
        decreases s@.len() - i,
    {
        r.push(s[i]);
        assert(r@ =~= s@.take(i + 1));
        i = i + 1;
    }
    assert(r@ =~= s@);
    r
}

/// Appends `add` to `out`.
pub fn append_bytes(out: &mut Vec<u8>, add: &Vec<u8>)
    ensures
        final(out)@ == old(out)@ + add@,
{
    let n = add.len();
    let mut i: usize = 0;
    proof {
        assert(out@ =~= old(out)@ + add@.take(0));
    }
    while i < n
        invariant
            n == add@.len(),
            i <= n,
            out@ == old(out)@ + add@.take(i as int),
        decreases n - i,
    {
        out.push(add[i]);
        assert(out@ =~= old(out)@ + add@.take(i + 1));
        i = i + 1;
    }
    assert(out@ =~= old(out)@ + add@);
}

/// True exactly when `pat` occurs in `s` at index `i`.
pub fn eq_at(s: &Vec<u8>, pat: &Vec<u8>, i: usize) -> (r: bool)
    requires
        i + pat@.len() <= s@.len(),
    ensures
        r == matches_at(s@, pat@, i as int),
{
    let n = s.len();
    let p = pat.len();
    let mut j: usize = 0;
    while j < p
        invariant
            p == pat@.len(),
            n == s@.len(),
            j <= p,
            i + p <= n,
            forall|t: int| 0 <= t < j ==> s@[i + t] == pat@[t],
        decreases p - j,
    {
        if s[i + j] != pat[j] {
            assert(s@.subrange(i as int, i + pat@.len())[j as int] != pat@[j as int]);
            return false;
        }
        j = j + 1;
    }
    assert(s@.subrange(i as int, i + pat@.len()) =~= pat@);
    true
}

/// Finds the first occurrence of `pat` in `s`, as the spec-level
/// `first_match` names it; `None` when `pat` does not occur.
pub fn find_first(s: &Vec<u8>, pat: &Vec<u8>) -> (r: Option<usize>)
    requires
        pat@.len() >= 1,
    ensures
        match r {
            Some(i) => matches_at(s@, pat@, i as int) && i == first_match(s@, pat@),
            None => !contains_seq(s@, pat@) && first_match(s@, pat@) == s@.len(),
        },
{
    let n = s.len();
    let p = pat.len();
    if p > n {
        proof {
            lemma_first_match_absent(s@, pat@);
        }
        return None;
    }
    let mut i: usize = 0;
    while i <= n - p
        invariant
            p == pat@.len(),
            n == s@.len(),
            p >= 1,
            p <= n,
            i <= n - p + 1,
            forall|j: int| 0 <= j < i ==> !matches_at(s@, pat@, j),
        decreases n - i,
    {
        if eq_at(s, pat, i) {
            proof {
                lemma_first_match_found(s@, pat@, i as int);
            }
            return Some(i);
        }
        i = i + 1;
    }
    proof {
        assert(forall|j: int| j + pat@.len() > s@.len() ==> !matches_at(s@, pat@, j));
        assert(!contains_seq(s@, pat@));
        lemma_first_match_absent(s@, pat@);
    }
    None
}

/// Where the least occurrence of `pat` sits, `first_match` names it.
pub proof fn lemma_first_match_found(s: Seq<u8>, pat: Seq<u8>, i: int)
    requires
        matches_at(s, pat, i),
        forall|j: int| 0 <= j < i ==> !matches_at(s, pat, j),
    ensures
        first_match(s, pat) == i,
    decreases s.len(),
{
    if s.len() == 0 {
        assert(i == 0);
    } else if matches_at(s, pat, 0) {
        assert(i == 0);
    } else {
        assert(i >= 1);
        assert(matches_at(s.skip(1), pat, i - 1)) by {
            assert(s.skip(1).subrange(i - 1, i - 1 + pat.len()) =~= s.subrange(i, i + pat.len()));
        }
        assert forall|j: int| 0 <= j < i - 1 implies !matches_at(s.skip(1), pat, j) by {
            if matches_at(s.skip(1), pat, j) {
                assert(s.subrange(j + 1, j + 1 + pat.len()) =~= s.skip(1).subrange(
                    j,
                    j + pat.len(),
                ));
                assert(matches_at(s, pat, j + 1));
            }
        }
        lemma_first_match_found(s.skip(1), pat, i - 1);
    }
}

/// Where `pat` does not occur, `first_match` is the sentinel `s.len()`.
pub proof fn lemma_first_match_absent(s: Seq<u8>, pat: Seq<u8>)
    requires
        pat.len() >= 1,
        !contains_seq(s, pat),
    ensures
        first_match(s, pat) == s.len(),
    decreases s.len(),
{
    if s.len() == 0 {
    } else {
        assert(!matches_at(s, pat, 0));
        assert(!contains_seq(s.skip(1), pat)) by {
            if contains_seq(s.skip(1), pat) {
                let j = choose|j: int| matches_at(s.skip(1), pat, j);
                assert(s.subrange(j + 1, j + 1 + pat.len()) =~= s.skip(1).subrange(
                    j,
                    j + pat.len(),
                ));
                assert(matches_at(s, pat, j + 1));
            }
        }
        lemma_first_match_absent(s.skip(1), pat);
    }
}

/// True exactly when `pat` occurs somewhere in `s`.
pub fn contains_bytes(s: &Vec<u8>, pat: &Vec<u8>) -> (r: bool)
    requires
        pat@.len() >= 1,
    ensures
        r == contains_seq(s@, pat@),
{
    match find_first(s, pat) {
        Some(_) => true,
        None => false,
    }
}

/// Removes every non-overlapping occurrence of `pat` from `s` in one
/// left-to-right pass.
pub fn strip_token_exec(s: &Vec<u8>, pat: &Vec<u8>) -> (r: Vec<u8>)
    requires
        pat@.len() >= 1,
    ensures
        r@ == strip_token(s@, pat@),
{
    let n = s.len();
    let p = pat.len();
    let mut out: Vec<u8> = Vec::new();
    let mut i: usize = 0;
    proof {
        assert(s@.skip(0) =~= s@);
        assert(Seq::<u8>::empty() + strip_token(s@, pat@) =~= strip_token(s@, pat@));
    }
    while i < n
        invariant
            n == s@.len(),
            p == pat@.len(),
            p >= 1,
            i <= n,
            out@ + strip_token(s@.skip(i as int), pat@) == strip_token(s@, pat@),
        decreases n - i,
    {
        let rem = n - i;
        if rem >= p && eq_at(s, pat, i) {
            proof {
                let tail = s@.skip(i as int);
                assert(tail.subrange(0, p as int) =~= s@.subrange(i as int, i + p));
                assert(tail.skip(p as int) =~= s@.skip(i + p));
            }
            i = i + p;
        } else {
            proof {
                let tail = s@.skip(i as int);
                if rem >= p {
                    assert(tail.subrange(0, p as int) =~= s@.subrange(i as int, i + p));
                    assert(tail.subrange(0, p as int) != pat@);
                    assert(strip_token(tail, pat@) == seq![tail[0]] + strip_token(
                        tail.skip(1),
                        pat@,
                    ));
                } else {
                    assert(strip_token(tail, pat@) == tail);
                    assert(strip_token(tail.skip(1), pat@) == tail.skip(1));
                    assert(tail =~= seq![tail[0]] + tail.skip(1));
                }
                assert(tail[0] == s@[i as int]);
                assert(tail.skip(1) =~= s@.skip(i + 1));
                assert((out@ + seq![s@[i as int]]) + strip_token(s@.skip(i + 1), pat@) =~= out@
                    + strip_token(s@.skip(i as int), pat@));
            }
            out.push(s[i]);
            i = i + 1;
        }
    }
    proof {
        assert(s@.skip(n as int) =~= Seq::<u8>::empty());
        assert(strip_token(Seq::<u8>::empty(), pat@) =~= Seq::<u8>::empty());
        assert(out@ =~= out@ + Seq::<u8>::empty());
    }
    out
}

/// Strips each token of `toks` in order, one pass per token.
pub fn strip_all_tokens(s: &Vec<u8>, toks: &Vec<Vec<u8>>) -> (r: Vec<u8>)
    requires
        forall|k: int| 0 <= k < toks@.len() ==> (#[trigger] toks@[k])@.len() >= 1,
    ensures
        r@ == strip_tokens(s@, toks.deep_view()),
{
    let m = toks.len();
    let mut r = copy_bytes(s);
    let mut k: usize = 0;
    proof {
        assert(toks.deep_view().skip(0) =~= toks.deep_view());
    }
    while k < m
        invariant
            m == toks@.len(),
            k <= m,
            forall|t: int| 0 <= t < toks@.len() ==> (#[trigger] toks@[t])@.len() >= 1,
            strip_tokens(r@, toks.deep_view().skip(k as int)) == strip_tokens(
                s@,
                toks.deep_view(),
            ),
        decreases m - k,
    {
        proof {
            let dv = toks.deep_view();
            assert(dv.skip(k as int)[0] =~= toks@[k as int]@);
            assert(dv.skip(k as int).skip(1) =~= dv.skip(k + 1));
        }
        r = strip_token_exec(&r, &toks[k]);
        k = k + 1;
    }
    proof {
        assert(toks.deep_view().skip(m as int) =~= Seq::<Seq<u8>>::empty());
    }
    r
}

/// Drops leading and trailing ASCII whitespace.
pub fn trim_exec(s: &Vec<u8>) -> (r: Vec<u8>)
    ensures
        r@ == trim_spaces(s@),
{
    let n = s.len();
    let mut start: usize = 0;
    proof {
        assert(s@.skip(0) =~= s@);
    }
    while start < n && is_space_exec(s[start])
        invariant
            n == s@.len(),
            start <= n,
            trim_start(s@.skip(start as int)) == trim_start(s@),
        decreases n - start,
    {
        proof {
            let tail = s@.skip(start as int);
            assert(tail[0] == s@[start as int]);
            assert(tail.skip(1) =~= s@.skip(start + 1));
        }
        start = start + 1;
    }
    proof {
        let tail = s@.skip(start as int);
        if start < n {
            assert(tail[0] == s@[start as int]);
        }
        assert(trim_start(tail) == tail);
    }
    let ghost t = s@.skip(start as int);
    let mut end: usize = n;
    proof {
        assert(t.take(n - start as int) =~= t);
    }
    while end > start && is_space_exec(s[end - 1])
        invariant
            n == s@.len(),
            start <= end <= n,
            t == s@.skip(start as int),
            trim_start(s@) == t,
            trim_end(t.take(end - start as int)) == trim_end(t),
        decreases end,
    {
        proof {
            let cur = t.take(end - start as int);
            assert(cur.last() == s@[end - 1]);
            assert(cur.take(cur.len() - 1) =~= t.take(end - 1 - start as int));
        }
        end = end - 1;
    }
    proof {
        let cur = t.take(end - start as int);
        if end > start {
            assert(cur.last() == s@[end - 1]);
        }
        assert(trim_end(cur) == cur);
    }
    let mut out: Vec<u8> = Vec::new();
    let mut i: usize = start;
    while i < end
        invariant
            n == s@.len(),
            start <= i <= end <= n,
            out@ == s@.subrange(start as int, i as int),
        decreases end - i,
    {
        out.push(s[i]);
        assert(out@ =~= s@.subrange(start as int, i + 1));
        i = i + 1;
    }
    proof {
        assert(out@ =~= t.take(end - start as int));
    }
    out
}

/// Exec form of `is_space`.
pub fn is_space_exec(b: u8) -> (r: bool)
    ensures
        r == is_space(b),
{
    b == 32 || (9 <= b && b <= 13)
}

/// Collapses every run of two or more spaces down to a single space.
pub fn collapse_exec(s: &Vec<u8>) -> (r: Vec<u8>)
    ensures
        r@ == collapse_spaces(s@),
{
    let n = s.len();
    let mut out: Vec<u8> = Vec::new();
    let mut i: usize = 0;
    proof {
        assert(s@.skip(0) =~= s@);
        assert(Seq::<u8>::empty() + collapse_spaces(s@) =~= collapse_spaces(s@));
    }
    while i < n
        invariant
            n == s@.len(),
            i <= n,
            out@ + collapse_spaces(s@.skip(i as int)) == collapse_spaces(s@),
        decreases n - i,
    {
        proof {
            let tail = s@.skip(i as int);
            assert(tail[0] == s@[i as int]);
            if i + 1 < n {
                assert(tail[1] == s@[i + 1]);
            }
            assert(tail.skip(1) =~= s@.skip(i + 1));
        }
        if i + 1 < n && s[i] == 32 && s[i + 1] == 32 {
            i = i + 1;
        } else {
            proof {
                assert((out@ + seq![s@[i as int]]) + collapse_spaces(s@.skip(i + 1)) =~= out@
                    + collapse_spaces(s@.skip(i as int)));
            }
            out.push(s[i]);
            i = i + 1;
        }
    }
    proof {
        assert(s@.skip(n as int) =~= Seq::<u8>::empty());
        assert(out@ =~= out@ + Seq::<u8>::empty());
    }
    out
}

/// ASCII lower-casing, byte for byte.
pub fn lower_exec(s: &Vec<u8>) -> (r: Vec<u8>)
    ensures
        r@ == lower_bytes(s@),
{
    let n = s.len();
    let mut out: Vec<u8> = Vec::new();
    let mut i: usize = 0;
    while i < n
        invariant
            n == s@.len(),
            i <= n,
            out@ == lower_bytes(s@.take(i as int)),
        decreases n - i,
    {
        let b = s[i];
        let lb = if 65 <= b && b <= 90 {
            b + 32
        } else {
            b
        };
        assert(lb == lower_byte(s@[i as int]));
        out.push(lb);
        assert(out@ =~= lower_bytes(s@.take(i + 1)));
        i = i + 1;
    }
    assert(out@ =~= lower_bytes(s@));
    out
}

/// A byte string without any occurrence of `pat` passes a strip
/// unchanged.
pub proof fn lemma_strip_token_id(s: Seq<u8>, pat: Seq<u8>)
    requires
        pat.len() >= 1,
        !contains_seq(s, pat),
    ensures
        strip_token(s, pat) == s,
    decreases s.len(),
{
    if s.len() < pat.len() {
    } else {
        assert(!matches_at(s, pat, 0));
        assert(s.subrange(0, pat.len() as int) != pat);
        assert(!contains_seq(s.skip(1), pat)) by {
            if contains_seq(s.skip(1), pat) {
                let j = choose|j: int| matches_at(s.skip(1), pat, j);
                assert(s.subrange(j + 1, j + 1 + pat.len()) =~= s.skip(1).subrange(
                    j,
                    j + pat.len(),
                ));
                assert(matches_at(s, pat, j + 1));
            }
        }
        lemma_strip_token_id(s.skip(1), pat);
        assert(seq![s[0]] + s.skip(1) =~= s);
    }
}

/// A byte string in which no listed token occurs passes the whole strip
/// pipeline unchanged.
pub proof fn lemma_strip_tokens_id(s: Seq<u8>, pats: Seq<Seq<u8>>)
    requires
        forall|k: int| 0 <= k < pats.len() ==> (#[trigger] pats[k]).len() >= 1,
        forall|k: int| 0 <= k < pats.len() ==> !contains_seq(s, #[trigger] pats[k]),
    ensures
        strip_tokens(s, pats) == s,
    decreases pats.len(),
{
    if pats.len() == 0 {
    } else {
        lemma_strip_token_id(s, pats[0]);
        assert(forall|k: int|
            0 <= k < pats.skip(1).len() ==> #[trigger] pats.skip(1)[k] == pats[k + 1]);
        lemma_strip_tokens_id(s, pats.skip(1));
    }
}

/// `trim_start` returns the suffix of `s` past its leading whitespace.
pub proof fn lemma_trim_start_props(s: Seq<u8>)
    ensures
        trim_start(s).len() <= s.len(),
        trim_start(s) == s.skip(s.len() - trim_start(s).len()),
        trim_start(s).len() > 0 ==> !is_space(trim_start(s)[0]),
    decreases s.len(),
{
    if s.len() > 0 && is_space(s[0]) {
        lemma_trim_start_props(s.skip(1));
        let r = trim_start(s);
        assert(s.skip(1).skip(s.skip(1).len() - r.len()) =~= s.skip(s.len() - r.len()));
    } else {
        assert(s.skip(0) =~= s);
    }
}

/// `trim_end` returns the prefix of `s` before its trailing whitespace.
pub proof fn lemma_trim_end_props(s: Seq<u8>)
    ensures
        trim_end(s).len() <= s.len(),
        trim_end(s) == s.take(trim_end(s).len() as int),
        trim_end(s).len() > 0 ==> !is_space(trim_end(s).last()),
    decreases s.len(),
{
    if s.len() > 0 && is_space(s.last()) {
        lemma_trim_end_props(s.take(s.len() - 1));
        let r = trim_end(s);
        assert(s.take(s.len() - 1).take(r.len() as int) =~= s.take(r.len() as int));
    } else {
        assert(s.take(s.len() as int) =~= s);
    }
}

/// What `trim_spaces` returns neither starts nor ends with whitespace.
pub proof fn lemma_trim_spaces_trimmed(s: Seq<u8>)
    ensures
        is_trimmed(trim_spaces(s)),
{
    let a = trim_start(s);
    let r = trim_end(a);
    lemma_trim_start_props(s);
    lemma_trim_end_props(a);
    if r.len() > 0 {
        assert(r[0] == a[0]);
    }
}

/// An already-trimmed byte string passes `trim_spaces` unchanged.
pub proof fn lemma_trim_id(s: Seq<u8>)
    requires
        is_trimmed(s),
    ensures
        trim_spaces(s) == s,
{
    assert(trim_start(s) == s);
    assert(trim_end(s) == s);
}

/// The collapse keeps the first byte of a run: a collapsed string is
/// nonempty when its input is, starts with a space only when the input
/// does, and keeps a non-space first byte.
pub proof fn lemma_collapse_first(s: Seq<u8>)
    requires
        s.len() > 0,
    ensures
        collapse_spaces(s).len() > 0,
        (collapse_spaces(s)[0] == sp()) == (s[0] == sp()),
        s[0] != sp() ==> collapse_spaces(s)[0] == s[0],
    decreases s.len(),
{
    if s.len() >= 2 && s[0] == sp() && s[1] == sp() {
        lemma_collapse_first(s.skip(1));
    }
}

/// The collapse keeps the last byte.
pub proof fn lemma_collapse_last(s: Seq<u8>)
    requires
        s.len() > 0,
    ensures
        collapse_spaces(s).len() > 0,
        collapse_spaces(s).last() == s.last(),
    decreases s.len(),
{
    if s.len() >= 2 {
        lemma_collapse_last(s.skip(1));
        assert(s.skip(1).last() == s.last());
        if !(s[0] == sp() && s[1] == sp()) {
            assert((seq![s[0]] + collapse_spaces(s.skip(1))).last() == collapse_spaces(
                s.skip(1),
            ).last());
        }
    } else {
        assert(s.skip(1) =~= Seq::<u8>::empty());
        assert(collapse_spaces(Seq::<u8>::empty()) =~= Seq::<u8>::empty());
        assert(collapse_spaces(s) == seq![s[0]] + collapse_spaces(s.skip(1)));
        assert(seq![s[0]] + Seq::<u8>::empty() =~= seq![s[0]]);
    }
}

/// A collapsed string never holds two consecutive spaces, whatever the
/// input was.
pub proof fn lemma_collapse_no_double(s: Seq<u8>)
    ensures
        no_double_space(collapse_spaces(s)),
    decreases s.len(),
{
    if s.len() == 0 {
    } else if s.len() >= 2 && s[0] == sp() && s[1] == sp() {
        lemma_collapse_no_double(s.skip(1));
    } else {
        lemma_collapse_no_double(s.skip(1));
        let r = seq![s[0]] + collapse_spaces(s.skip(1));
        assert forall|i: int| 0 <= i && i + 1 < r.len() implies !(#[trigger] r[i] == sp() && r[i
            + 1] == sp()) by {
            if i == 0 {
                if s.len() >= 2 && s[0] == sp() {
                    lemma_collapse_first(s.skip(1));
                    assert(r[1] == collapse_spaces(s.skip(1))[0]);
                    assert(s.skip(1)[0] == s[1]);
                }
            } else {
                assert(r[i] == collapse_spaces(s.skip(1))[i - 1]);
                assert(r[i + 1] == collapse_spaces(s.skip(1))[i]);
            }
        }
    }
}

/// A string without a double space passes the collapse unchanged.
pub proof fn lemma_collapse_id(s: Seq<u8>)
    requires
        no_double_space(s),
    ensures
        collapse_spaces(s) == s,
    decreases s.len(),
{
    if s.len() == 0 {
    } else {
        assert(!(s.len() >= 2 && s[0] == sp() && s[1] == sp()));
        assert(no_double_space(s.skip(1))) by {
            assert(forall|i: int|
                0 <= i && i + 1 < s.skip(1).len() ==> #[trigger] s.skip(1)[i] == s[i + 1]
                    && s.skip(1)[i + 1] == s[i + 2]);
        }
        lemma_collapse_id(s.skip(1));
        assert(seq![s[0]] + s.skip(1) =~= s);
    }
}

/// Collapsing a concatenation whose left half is already collapse-free
/// and whose junction is not a double space collapses only the right
/// half.
pub proof fn lemma_collapse_prefix(p: Seq<u8>, t: Seq<u8>)
    requires
        p.len() > 0,
        no_double_space(p),
        t.len() > 0 ==> !(p.last() == sp() && t[0] == sp()),
    ensures
        collapse_spaces(p + t) == p + collapse_spaces(t),
    decreases p.len(),
{
    let s = p + t;
    assert(s[0] == p[0]);
    if p.len() == 1 {
        if t.len() == 0 {
            assert(s =~= p);
            assert(collapse_spaces(s) == seq![s[0]] + collapse_spaces(s.skip(1)));
            assert(s.skip(1) =~= Seq::<u8>::empty());
            assert(p + collapse_spaces(t) =~= seq![s[0]]);
            assert(seq![s[0]] + Seq::<u8>::empty() =~= seq![s[0]]);
        } else {
            assert(s.len() >= 2 ==> s[1] == t[0]);
            assert(!(s.len() >= 2 && s[0] == sp() && s[1] == sp()));
            assert(s.skip(1) =~= t);
            assert(p + collapse_spaces(t) =~= seq![s[0]] + collapse_spaces(t));
        }
    } else {
        assert(s[1] == p[1]);
        assert(!(s[0] == sp() && s[1] == sp()));
        assert(s.skip(1) =~= p.skip(1) + t);
        assert(no_double_space(p.skip(1))) by {
            assert(forall|i: int|
                0 <= i && i + 1 < p.skip(1).len() ==> #[trigger] p.skip(1)[i] == p[i + 1]
                    && p.skip(1)[i + 1] == p[i + 2]);
        }
        assert(p.skip(1).last() == p.last());
        lemma_collapse_prefix(p.skip(1), t);
        assert(seq![p[0]] + (p.skip(1) + collapse_spaces(t)) =~= p + collapse_spaces(t));
    }
}

} // verus!
