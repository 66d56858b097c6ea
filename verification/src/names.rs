//! The name normalizer: turns vendor marketing strings for CPUs and
//! GPUs into terse canonical display names.
//!
//! CPU cleaning strips a fixed token list, trims, and collapses runs of
//! spaces. GPU cleaning strips a larger token list, re-prepends a series
//! tag (`RTX`, `GTX` or `RX`, in that priority) when the original string
//! carries one in any case, collapses spaces, and falls back to the
//! lightly-stripped original when the cleaned name is shorter than three
//! bytes.

use crate::bytestr::{
    append_bytes, collapse_exec, collapse_spaces, contains_bytes, contains_seq, copy_bytes,
    is_space,
    is_trimmed, lemma_collapse_first, lemma_collapse_id, lemma_collapse_last,
    lemma_collapse_no_double, lemma_collapse_prefix, lemma_strip_tokens_id, lemma_trim_id,
    lemma_trim_spaces_trimmed, lower_bytes, lower_exec, no_double_space, sp, strip_all_tokens,
    strip_token, strip_token_exec, strip_tokens, trim_exec, trim_spaces,
};
use vstd::prelude::*;

verus! {

/// The literal substrings stripped from a CPU brand string, in order.
pub open spec fn cpu_token_list() -> Seq<Seq<u8>> {
    seq![
        seq!['I' as u8, 'n' as u8, 't' as u8, 'e' as u8, 'l' as u8],
        seq!['A' as u8, 'M' as u8, 'D' as u8],
        seq!['(' as u8, 'R' as u8, ')' as u8],
        seq!['(' as u8, 'T' as u8, 'M' as u8, ')' as u8],
        seq!['C' as u8, 'o' as u8, 'r' as u8, 'e' as u8],
        seq!['P' as u8, 'r' as u8, 'o' as u8, 'c' as u8, 'e' as u8, 's' as u8, 's' as u8, 'o' as u8, 'r' as u8],
        seq!['C' as u8, 'P' as u8, 'U' as u8],
    ]
}

/// Builds the CPU token table.
fn cpu_tokens() -> (r: Vec<Vec<u8>>)
    ensures
        r.deep_view() == cpu_token_list(),
        forall|k: int| 0 <= k < r@.len() ==> (#[trigger] r@[k])@.len() >= 1,
{
    let mut r: Vec<Vec<u8>> = Vec::new();
    r.push(vec!['I' as u8, 'n' as u8, 't' as u8, 'e' as u8, 'l' as u8]);
    r.push(vec!['A' as u8, 'M' as u8, 'D' as u8]);
    r.push(vec!['(' as u8, 'R' as u8, ')' as u8]);
    r.push(vec!['(' as u8, 'T' as u8, 'M' as u8, ')' as u8]);
    r.push(vec!['C' as u8, 'o' as u8, 'r' as u8, 'e' as u8]);
    r.push(vec!['P' as u8, 'r' as u8, 'o' as u8, 'c' as u8, 'e' as u8, 's' as u8, 's' as u8, 'o' as u8, 'r' as u8]);
    r.push(vec!['C' as u8, 'P' as u8, 'U' as u8]);
    proof {
        assert(r.deep_view() =~~= cpu_token_list());
        assert(forall|k: int|
            0 <= k < cpu_token_list().len() ==> (#[trigger] cpu_token_list()[k]).len() >= 1);
    }
    r
}

/// The vendor, OEM, board-partner and line-name substrings stripped from
/// a GPU marketing string, in order.
pub open spec fn gpu_token_list() -> Seq<Seq<u8>> {
    seq![
        seq!['N' as u8, 'V' as u8, 'I' as u8, 'D' as u8, 'I' as u8, 'A' as u8],
        seq!['A' as u8, 'M' as u8, 'D' as u8],
        seq!['I' as u8, 'n' as u8, 't' as u8, 'e' as u8, 'l' as u8],
        seq!['(' as u8, 'R' as u8, ')' as u8],
        seq!['(' as u8, 'T' as u8, 'M' as u8, ')' as u8],
        seq!['C' as u8, 'o' as u8, 'r' as u8, 'p' as u8, 'o' as u8, 'r' as u8, 'a' as u8, 't' as u8, 'i' as u8, 'o' as u8, 'n' as u8],
        seq!['I' as u8, 'n' as u8, 'c' as u8, '.' as u8],
        seq!['C' as u8, 'o' as u8, '.' as u8],
        seq!['L' as u8, 't' as u8, 'd' as u8, '.' as u8],
        seq!['A' as u8, 'S' as u8, 'U' as u8, 'S' as u8],
        seq!['G' as u8, 'i' as u8, 'g' as u8, 'a' as u8, 'b' as u8, 'y' as u8, 't' as u8, 'e' as u8],
        seq!['M' as u8, 'S' as u8, 'I' as u8],
        seq!['M' as u8, 'i' as u8, 'c' as u8, 'r' as u8, 'o' as u8, '-' as u8, 'S' as u8, 't' as u8, 'a' as u8, 'r' as u8],
        seq!['E' as u8, 'V' as u8, 'G' as u8, 'A' as u8],
        seq!['Z' as u8, 'o' as u8, 't' as u8, 'a' as u8, 'c' as u8],
        seq!['P' as u8, 'a' as u8, 'l' as u8, 'i' as u8, 't' as u8],
        seq!['G' as u8, 'a' as u8, 'l' as u8, 'a' as u8, 'x' as u8],
        seq!['P' as u8, 'N' as u8, 'Y' as u8],
        seq!['C' as u8, 'o' as u8, 'l' as u8, 'o' as u8, 'r' as u8, 'f' as u8, 'u' as u8, 'l' as u8],
        seq!['I' as u8, 'n' as u8, 'n' as u8, 'o' as u8, '3' as u8, 'D' as u8],
        seq!['G' as u8, 'e' as u8, 'F' as u8, 'o' as u8, 'r' as u8, 'c' as u8, 'e' as u8],
        seq!['R' as u8, 'a' as u8, 'd' as u8, 'e' as u8, 'o' as u8, 'n' as u8],
        seq!['A' as u8, 'r' as u8, 'c' as u8],
        seq!['G' as u8, 'r' as u8, 'a' as u8, 'p' as u8, 'h' as u8, 'i' as u8, 'c' as u8, 's' as u8],
    ]
}

/// Builds the GPU token table.
fn gpu_tokens() -> (r: Vec<Vec<u8>>)
    ensures
        r.deep_view() == gpu_token_list(),
        forall|k: int| 0 <= k < r@.len() ==> (#[trigger] r@[k])@.len() >= 1,
{
    let mut r: Vec<Vec<u8>> = Vec::new();
    r.push(vec!['N' as u8, 'V' as u8, 'I' as u8, 'D' as u8, 'I' as u8, 'A' as u8]);
    r.push(vec!['A' as u8, 'M' as u8, 'D' as u8]);
    r.push(vec!['I' as u8, 'n' as u8, 't' as u8, 'e' as u8, 'l' as u8]);
    r.push(vec!['(' as u8, 'R' as u8, ')' as u8]);
    r.push(vec!['(' as u8, 'T' as u8, 'M' as u8, ')' as u8]);
    r.push(vec!['C' as u8, 'o' as u8, 'r' as u8, 'p' as u8, 'o' as u8, 'r' as u8, 'a' as u8, 't' as u8, 'i' as u8, 'o' as u8, 'n' as u8]);
    r.push(vec!['I' as u8, 'n' as u8, 'c' as u8, '.' as u8]);
    r.push(vec!['C' as u8, 'o' as u8, '.' as u8]);
    r.push(vec!['L' as u8, 't' as u8, 'd' as u8, '.' as u8]);
    r.push(vec!['A' as u8, 'S' as u8, 'U' as u8, 'S' as u8]);
    r.push(vec!['G' as u8, 'i' as u8, 'g' as u8, 'a' as u8, 'b' as u8, 'y' as u8, 't' as u8, 'e' as u8]);
    r.push(vec!['M' as u8, 'S' as u8, 'I' as u8]);
    r.push(vec!['M' as u8, 'i' as u8, 'c' as u8, 'r' as u8, 'o' as u8, '-' as u8, 'S' as u8, 't' as u8, 'a' as u8, 'r' as u8]);
    r.push(vec!['E' as u8, 'V' as u8, 'G' as u8, 'A' as u8]);
    r.push(vec!['Z' as u8, 'o' as u8, 't' as u8, 'a' as u8, 'c' as u8]);
    r.push(vec!['P' as u8, 'a' as u8, 'l' as u8, 'i' as u8, 't' as u8]);
    r.push(vec!['G' as u8, 'a' as u8, 'l' as u8, 'a' as u8, 'x' as u8]);
    r.push(vec!['P' as u8, 'N' as u8, 'Y' as u8]);
    r.push(vec!['C' as u8, 'o' as u8, 'l' as u8, 'o' as u8, 'r' as u8, 'f' as u8, 'u' as u8, 'l' as u8]);
    r.push(vec!['I' as u8, 'n' as u8, 'n' as u8, 'o' as u8, '3' as u8, 'D' as u8]);
    r.push(vec!['G' as u8, 'e' as u8, 'F' as u8, 'o' as u8, 'r' as u8, 'c' as u8, 'e' as u8]);
    r.push(vec!['R' as u8, 'a' as u8, 'd' as u8, 'e' as u8, 'o' as u8, 'n' as u8]);
    r.push(vec!['A' as u8, 'r' as u8, 'c' as u8]);
    r.push(vec!['G' as u8, 'r' as u8, 'a' as u8, 'p' as u8, 'h' as u8, 'i' as u8, 'c' as u8, 's' as u8]);
    proof {
        assert(r.deep_view() =~~= gpu_token_list());
        assert(forall|k: int|
            0 <= k < gpu_token_list().len() ==> (#[trigger] gpu_token_list()[k]).len() >= 1);
    }
    r
}

/// The canonical `RTX` series tag.
pub open spec fn rtx_tag() -> Seq<u8> {
    seq!['R' as u8, 'T' as u8, 'X' as u8]
}

/// The canonical `GTX` series tag.
pub open spec fn gtx_tag() -> Seq<u8> {
    seq!['G' as u8, 'T' as u8, 'X' as u8]
}

/// The canonical `RX` series tag.
pub open spec fn rx_tag() -> Seq<u8> {
    seq!['R' as u8, 'X' as u8]
}

/// Lower-case series key searched for in the lower-cased original.
pub open spec fn rtx_key() -> Seq<u8> {
    seq!['r' as u8, 't' as u8, 'x' as u8]
}

/// Lower-case series key searched for in the lower-cased original.
pub open spec fn gtx_key() -> Seq<u8> {
    seq!['g' as u8, 't' as u8, 'x' as u8]
}

/// Lower-case series key searched for in the lower-cased original.
pub open spec fn rx_key() -> Seq<u8> {
    seq!['r' as u8, 'x' as u8]
}

/// The `(R)` registered mark.
pub open spec fn r_mark() -> Seq<u8> {
    seq!['(' as u8, 'R' as u8, ')' as u8]
}

/// The `(TM)` trademark mark.
pub open spec fn tm_mark() -> Seq<u8> {
    seq!['(' as u8, 'T' as u8, 'M' as u8, ')' as u8]
}

/// What CPU cleaning returns: strip the token table in order, trim,
/// then collapse every run of spaces.
pub open spec fn clean_cpu_spec(s: Seq<u8>) -> Seq<u8> {
    collapse_spaces(trim_spaces(strip_tokens(s, cpu_token_list())))
}

/// The GPU string after the token table is stripped and the ends are
/// trimmed.
pub open spec fn gpu_stripped(s: Seq<u8>) -> Seq<u8> {
    trim_spaces(strip_tokens(s, gpu_token_list()))
}

/// Re-prepends the canonical series tag when the lower-cased original
/// carries `rtx`, `gtx` or `rx`, in that priority; any residual copy of
/// the tag itself is removed from the stripped name first.
pub open spec fn gpu_tagged(s: Seq<u8>) -> Seq<u8> {
    let stripped = gpu_stripped(s);
    let low = lower_bytes(s);
    if contains_seq(low, rtx_key()) {
        rtx_tag() + seq![sp()] + trim_spaces(strip_token(stripped, rtx_tag()))
    } else if contains_seq(low, gtx_key()) {
        gtx_tag() + seq![sp()] + trim_spaces(strip_token(stripped, gtx_tag()))
    } else if contains_seq(low, rx_key()) {
        rx_tag() + seq![sp()] + trim_spaces(strip_token(stripped, rx_tag()))
    } else {
        stripped
    }
}

/// The fully cleaned GPU name before the length guard.
pub open spec fn gpu_collapsed(s: Seq<u8>) -> Seq<u8> {
    collapse_spaces(gpu_tagged(s))
}

/// The fallback name: the original with only `(R)` and `(TM)` removed
/// and the ends trimmed.
pub open spec fn rtm_stripped(s: Seq<u8>) -> Seq<u8> {
    trim_spaces(strip_token(strip_token(s, r_mark()), tm_mark()))
}

/// What GPU cleaning returns: the cleaned name, unless it came out
/// shorter than three bytes, in which case the fallback name.
pub open spec fn clean_gpu_spec(s: Seq<u8>) -> Seq<u8> {
    if gpu_collapsed(s).len() < 3 {
        rtm_stripped(s)
    } else {
        gpu_collapsed(s)
    }
}

/// Cleans a CPU brand string into its display form. The result never
/// holds a double space and never starts or ends with whitespace.
pub fn clean_cpu_name(name: &Vec<u8>) -> (r: Vec<u8>)
    ensures
        r@ == clean_cpu_spec(name@),
        no_double_space(r@),
        is_trimmed(r@),
{
    let toks = cpu_tokens();
    let stripped = strip_all_tokens(name, &toks);
    let trimmed = trim_exec(&stripped);
    let r = collapse_exec(&trimmed);
    proof {
        lemma_collapse_no_double(trimmed@);
        lemma_trim_spaces_trimmed(stripped@);
        if trimmed@.len() > 0 {
            lemma_collapse_first(trimmed@);
            lemma_collapse_last(trimmed@);
        }
    }
    r
}

/// Prepends `tag` and a space to the stripped name, from which any
/// residual copy of the tag has been removed and the ends trimmed.
fn apply_series_tag(stripped: &Vec<u8>, tag: &Vec<u8>) -> (r: Vec<u8>)
    requires
        tag@.len() >= 1,
    ensures
        r@ == tag@ + seq![sp()] + trim_spaces(strip_token(stripped@, tag@)),
{
    let mut out = copy_bytes(tag);
    out.push(32);
    let residue = strip_token_exec(stripped, tag);
    let rest = trim_exec(&residue);
    proof {
        assert(out@ =~= tag@ + seq![sp()]);
    }
    append_bytes(&mut out, &rest);
    proof {
        assert(out@ =~= tag@ + seq![sp()] + trim_spaces(strip_token(stripped@, tag@)));
    }
    out
}

/// The fallback name, computed from the raw model string.
pub fn rtm_strip_name(model: &Vec<u8>) -> (r: Vec<u8>)
    ensures
        r@ == rtm_stripped(model@),
{
    let r_mark_v: Vec<u8> = vec!['(' as u8, 'R' as u8, ')' as u8];
    let tm_mark_v: Vec<u8> = vec!['(' as u8, 'T' as u8, 'M' as u8, ')' as u8];
    proof {
        assert(r_mark_v@ =~= r_mark());
        assert(tm_mark_v@ =~= tm_mark());
    }
    let step = strip_token_exec(model, &r_mark_v);
    let step = strip_token_exec(&step, &tm_mark_v);
    trim_exec(&step)
}

/// Cleans a GPU marketing string into its display form.
pub fn clean_gpu_name(model: &Vec<u8>) -> (r: Vec<u8>)
    ensures
        r@ == clean_gpu_spec(model@),
{
    let toks = gpu_tokens();
    let stripped0 = strip_all_tokens(model, &toks);
    let stripped = trim_exec(&stripped0);
    let low = lower_exec(model);
    let rtx_key_v: Vec<u8> = vec!['r' as u8, 't' as u8, 'x' as u8];
    let gtx_key_v: Vec<u8> = vec!['g' as u8, 't' as u8, 'x' as u8];
    let rx_key_v: Vec<u8> = vec!['r' as u8, 'x' as u8];
    let rtx_tag_v: Vec<u8> = vec!['R' as u8, 'T' as u8, 'X' as u8];
    let gtx_tag_v: Vec<u8> = vec!['G' as u8, 'T' as u8, 'X' as u8];
    let rx_tag_v: Vec<u8> = vec!['R' as u8, 'X' as u8];
    proof {
        assert(rtx_key_v@ =~= rtx_key());
        assert(gtx_key_v@ =~= gtx_key());
        assert(rx_key_v@ =~= rx_key());
        assert(rtx_tag_v@ =~= rtx_tag());
        assert(gtx_tag_v@ =~= gtx_tag());
        assert(rx_tag_v@ =~= rx_tag());
    }
    let tagged = if contains_bytes(&low, &rtx_key_v) {
        apply_series_tag(&stripped, &rtx_tag_v)
    } else if contains_bytes(&low, &gtx_key_v) {
        apply_series_tag(&stripped, &gtx_tag_v)
    } else if contains_bytes(&low, &rx_key_v) {
        apply_series_tag(&stripped, &rx_tag_v)
    } else {
        stripped
    };
    let collapsed = collapse_exec(&tagged);
    if collapsed.len() < 3 {
        rtm_strip_name(model)
    } else {
        collapsed
    }
}

/// CPU cleaning is idempotent wherever no listed token survives in the
/// cleaned result. (A token can survive one pass when a removal butts
/// its two halves together, so the guard cannot be dropped.)
pub proof fn lemma_clean_cpu_idempotent(x: Seq<u8>)
    requires
        forall|k: int|
            0 <= k < cpu_token_list().len() ==> !contains_seq(
                clean_cpu_spec(x),
                #[trigger] cpu_token_list()[k],
            ),
    ensures
        clean_cpu_spec(clean_cpu_spec(x)) == clean_cpu_spec(x),
{
    let c = clean_cpu_spec(x);
    assert(forall|k: int|
        0 <= k < cpu_token_list().len() ==> (#[trigger] cpu_token_list()[k]).len() >= 1);
    lemma_strip_tokens_id(c, cpu_token_list());
    let tr = trim_spaces(strip_tokens(x, cpu_token_list()));
    lemma_trim_spaces_trimmed(strip_tokens(x, cpu_token_list()));
    if tr.len() > 0 {
        lemma_collapse_first(tr);
        lemma_collapse_last(tr);
    }
    assert(is_trimmed(c));
    lemma_trim_id(c);
    lemma_collapse_no_double(tr);
    lemma_collapse_id(c);
}

/// A cleaned CPU name never holds two consecutive spaces, whatever the
/// input was.
pub proof fn lemma_clean_cpu_no_double_space(x: Seq<u8>)
    ensures
        no_double_space(clean_cpu_spec(x)),
{
    lemma_collapse_no_double(trim_spaces(strip_tokens(x, cpu_token_list())));
}

/// A cleaned GPU name never holds two consecutive spaces, as long as
/// the length guard did not fall back to the lightly-stripped original
/// (the fallback skips the collapse, so a double space can survive
/// there).
pub proof fn lemma_clean_gpu_no_double_space(x: Seq<u8>)
    requires
        gpu_collapsed(x).len() >= 3,
    ensures
        no_double_space(clean_gpu_spec(x)),
{
    lemma_collapse_no_double(gpu_tagged(x));
}

/// Series-tag priority: an original that carries `rtx` in any case is
/// tagged `RTX`, never `RX`, whatever else it carries.
pub proof fn lemma_gpu_series_tag_priority(x: Seq<u8>)
    requires
        contains_seq(lower_bytes(x), rtx_key()),
    ensures
        clean_gpu_spec(x).len() >= 4,
        clean_gpu_spec(x).subrange(0, 4) == rtx_tag() + seq![sp()],
{
    let stripped = gpu_stripped(x);
    let y = trim_spaces(strip_token(stripped, rtx_tag()));
    let p = rtx_tag() + seq![sp()];
    assert(p.len() == 4);
    assert(p[0] == 'R' as u8 && p[1] == 'T' as u8 && p[2] == 'X' as u8 && p[3] == sp());
    assert(no_double_space(p));
    lemma_trim_spaces_trimmed(strip_token(stripped, rtx_tag()));
    assert(y.len() > 0 ==> !is_space(y[0]));
    lemma_collapse_prefix(p, y);
    assert(gpu_tagged(x) == p + y);
    assert(gpu_collapsed(x) == p + collapse_spaces(y));
    assert(gpu_collapsed(x).len() >= 4);
    assert(clean_gpu_spec(x) == gpu_collapsed(x));
    assert(clean_gpu_spec(x).subrange(0, 4) =~= p);
}

/// Fallback guard: when the cleaned name came out shorter than three
/// bytes, the result is the original with only `(R)` and `(TM)` removed
/// and the ends trimmed, and it is nonempty whenever that fallback is.
pub proof fn lemma_gpu_fallback_guard(x: Seq<u8>)
    ensures
        gpu_collapsed(x).len() < 3 ==> clean_gpu_spec(x) == rtm_stripped(x),
        gpu_collapsed(x).len() < 3 && rtm_stripped(x).len() > 0 ==> clean_gpu_spec(x).len() > 0,
{
}

} // verus!
