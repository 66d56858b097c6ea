//! The vendor GPU probe's output contracts: the list-mode line format
//! (`GPU <index>: <model> (UUID: ...)`) feeding the static pipeline, and
//! the CSV query format (`name, utilization, temperature, memory-used`)
//! feeding the dynamic pipeline. Malformed lines are skipped, malformed
//! numeric fields default to zero, and extra trailing fields are
//! tolerated; a whole record is never lost to one corrupt field.

use crate::bytestr::{
    contains_seq, find_first, first_match, lemma_first_match_absent, lemma_first_match_found,
    matches_at, trim_exec, trim_spaces,
};
use crate::names::{clean_gpu_name, clean_gpu_spec};
use crate::num::{mib_field_bytes, mib_to_bytes, parse_centi, parse_centi_spec};
use vstd::prelude::*;

verus! {

/// The GPU vendor the probe can report. Only one vendor's tool is
/// queried; everything else stays unreported.
#[derive(Clone, Copy, PartialEq, Eq, Structural, Debug)]
pub enum GpuVendor {
    Nvidia,
    Unknown,
}

/// One GPU identity from the static list query. `vram_bytes` is always
/// zero: the list source cannot report capacity cheaply, an
/// acknowledged incompleteness.
pub struct GpuIdentity {
    pub raw_model: Vec<u8>,
    pub normalized_name: Vec<u8>,
    pub vendor: GpuVendor,
    pub vram_bytes: u64,
}

/// The mathematical value of a `GpuIdentity`.
pub struct GpuIdentityAbs {
    pub raw_model: Seq<u8>,
    pub normalized_name: Seq<u8>,
    pub vendor: GpuVendor,
    pub vram_bytes: u64,
}

impl DeepView for GpuIdentity {
    type V = GpuIdentityAbs;

    open spec fn deep_view(&self) -> GpuIdentityAbs {
        GpuIdentityAbs {
            raw_model: self.raw_model@,
            normalized_name: self.normalized_name@,
            vendor: self.vendor,
            vram_bytes: self.vram_bytes,
        }
    }
}

/// One live GPU reading from the CSV query. The model is the raw
/// vendor-reported name, deliberately not normalized: the static and
/// dynamic pipelines are decoupled and may disagree on naming.
/// Utilization and temperature are carried in centi-units so that a
/// fractional probe value survives exactly.
pub struct GpuReading {
    pub model: Vec<u8>,
    pub utilization_centi: u64,
    pub temperature_centi: u64,
    pub memory_used_bytes: u64,
}

/// The mathematical value of a `GpuReading`.
pub struct GpuReadingAbs {
    pub model: Seq<u8>,
    pub utilization_centi: u64,
    pub temperature_centi: u64,
    pub memory_used_bytes: u64,
}

impl DeepView for GpuReading {
    type V = GpuReadingAbs;

    open spec fn deep_view(&self) -> GpuReadingAbs {
        GpuReadingAbs {
            model: self.model@,
            utilization_centi: self.utilization_centi,
            temperature_centi: self.temperature_centi,
            memory_used_bytes: self.memory_used_bytes,
        }
    }
}

/// The line feed byte.
pub open spec fn nl() -> Seq<u8> {
    seq!['\n' as u8]
}

/// The field separator of the CSV query format.
pub open spec fn comma() -> Seq<u8> {
    seq![',' as u8]
}

/// The separator before the model in a list-mode line.
pub open spec fn colon_sep() -> Seq<u8> {
    seq![':' as u8, ' ' as u8]
}

/// The marker after the model in a list-mode line.
pub open spec fn uuid_mark() -> Seq<u8> {
    seq![' ' as u8, '(' as u8, 'U' as u8, 'U' as u8, 'I' as u8, 'D' as u8]
}

/// Drops a single trailing carriage return, as splitting on line feeds
/// must on output written with CRLF endings.
pub open spec fn strip_cr(line: Seq<u8>) -> Seq<u8> {
    if line.len() > 0 && line.last() == '\r' as u8 {
        line.take(line.len() - 1)
    } else {
        line
    }
}

/// Splits probe output into lines on line feeds, dropping one trailing
/// carriage return per line; a trailing line feed opens no empty final
/// line, and empty output has no lines.
pub open spec fn split_lines(s: Seq<u8>) -> Seq<Seq<u8>>
    decreases s.len(),
{
    if s.len() == 0 {
        seq![]
    } else {
        let k = first_match(s, nl());
        if 0 <= k && k < s.len() {
            seq![strip_cr(s.take(k))] + split_lines(s.skip(k + 1))
        } else {
            seq![strip_cr(s)]
        }
    }
}

/// Splits a line into fields on commas; every field is kept, so an
/// empty line has exactly one empty field.
pub open spec fn split_fields(s: Seq<u8>) -> Seq<Seq<u8>>
    decreases s.len(),
{
    let k = first_match(s, comma());
    if 0 <= k && k < s.len() {
        seq![s.take(k)] + split_fields(s.skip(k + 1))
    } else {
        seq![s]
    }
}

/// The `Some` value, or zero: how a malformed numeric field defaults.
pub open spec fn or_zero(v: Option<u64>) -> u64 {
    match v {
        Some(x) => x,
        None => 0,
    }
}

/// What one CSV line yields: a reading when the line has at least four
/// fields (extra trailing fields are ignored), with each numeric field
/// parsed leniently and defaulting to zero on its own; fewer than four
/// fields skip the line.
pub open spec fn csv_gpu_record(line: Seq<u8>) -> Option<GpuReadingAbs> {
    let parts = split_fields(line);
    if parts.len() >= 4 {
        Some(
            GpuReadingAbs {
                model: trim_spaces(parts[0]),
                utilization_centi: or_zero(parse_centi_spec(trim_spaces(parts[1]))),
                temperature_centi: or_zero(parse_centi_spec(trim_spaces(parts[2]))),
                memory_used_bytes: mib_field_bytes(trim_spaces(parts[3])),
            },
        )
    } else {
        None
    }
}

/// The readings that a sequence of CSV lines yields, in order, skipped
/// lines contributing nothing.
pub open spec fn csv_records(ls: Seq<Seq<u8>>) -> Seq<GpuReadingAbs>
    decreases ls.len(),
{
    if ls.len() == 0 {
        seq![]
    } else {
        match csv_gpu_record(ls[0]) {
            Some(r) => seq![r] + csv_records(ls.skip(1)),
            None => csv_records(ls.skip(1)),
        }
    }
}

/// All readings in the CSV query output.
pub open spec fn gpu_readings(out: Seq<u8>) -> Seq<GpuReadingAbs> {
    csv_records(split_lines(out))
}

/// The raw model in one list-mode line: the bytes between the first
/// `": "` and the first `" (UUID"`; a line without both markers in
/// that order is skipped.
pub open spec fn list_line_model(line: Seq<u8>) -> Option<Seq<u8>> {
    let i = first_match(line, colon_sep());
    let e = first_match(line, uuid_mark());
    if i < line.len() && e < line.len() && i + 2 <= e {
        Some(line.subrange(i + 2, e))
    } else {
        None
    }
}

/// The identity built for one listed model: the raw string, its
/// normalized display name, the one vendor the probe reports, and no
/// capacity.
pub open spec fn gpu_identity_of(model: Seq<u8>) -> GpuIdentityAbs {
    GpuIdentityAbs {
        raw_model: model,
        normalized_name: clean_gpu_spec(model),
        vendor: GpuVendor::Nvidia,
        vram_bytes: 0,
    }
}

/// The identities that a sequence of list-mode lines yields, in order.
pub open spec fn list_identities(ls: Seq<Seq<u8>>) -> Seq<GpuIdentityAbs>
    decreases ls.len(),
{
    if ls.len() == 0 {
        seq![]
    } else {
        match list_line_model(ls[0]) {
            Some(m) => seq![gpu_identity_of(m)] + list_identities(ls.skip(1)),
            None => list_identities(ls.skip(1)),
        }
    }
}

/// All identities in the list query output.
pub open spec fn gpu_identities(out: Seq<u8>) -> Seq<GpuIdentityAbs> {
    list_identities(split_lines(out))
}

/// Every enumerated identity is well formed: its vendor is the one
/// vendor the probe reports, its capacity is the acknowledged zero,
/// and its display name is exactly the normalized form of its raw
/// model.
pub proof fn lemma_gpu_identities_well_formed(ls: Seq<Seq<u8>>)
    ensures
        forall|i: int|
            0 <= i < list_identities(ls).len() ==> (#[trigger] list_identities(ls)[i]).vendor
                == GpuVendor::Nvidia && list_identities(ls)[i].vram_bytes == 0 && list_identities(
                ls,
            )[i].normalized_name == clean_gpu_spec(list_identities(ls)[i].raw_model),
    decreases ls.len(),
{
    if ls.len() > 0 {
        lemma_gpu_identities_well_formed(ls.skip(1));
        match list_line_model(ls[0]) {
            Some(m) => {
                assert(list_identities(ls) == seq![gpu_identity_of(m)] + list_identities(
                    ls.skip(1),
                ));
                assert forall|i: int| 0 <= i < list_identities(ls).len() implies (
                #[trigger] list_identities(ls)[i]).vendor == GpuVendor::Nvidia && list_identities(
                    ls,
                )[i].vram_bytes == 0 && list_identities(ls)[i].normalized_name == clean_gpu_spec(
                    list_identities(ls)[i].raw_model,
                ) by {
                    if i > 0 {
                        assert(list_identities(ls)[i] == list_identities(ls.skip(1))[i - 1]);
                    }
                }
            },
            None => {
                assert(list_identities(ls) == list_identities(ls.skip(1)));
            },
        }
    }
}

/// Finds the first occurrence of byte `b` at or past `from`.
#[verifier::loop_isolation(false)]
fn find_byte_from(s: &Vec<u8>, b: u8, from: usize) -> (r: Option<usize>)
    requires
        from <= s@.len(),
    ensures
        match r {
            Some(i) => from <= i < s@.len() && s@[i as int] == b && forall|j: int|
                from <= j < i ==> s@[j] != b,
            None => forall|j: int| from <= j < s@.len() ==> s@[j] != b,
        },
{
    let n = s.len();
    let mut i = from;
    while i < n
        invariant
            from <= i <= n,
            forall|j: int| from <= j < i ==> s@[j] != b,
        decreases n - i,
    {
        if s[i] == b {
            return Some(i);
        }
        i = i + 1;
    }
    None
}

/// A one-byte pattern occurs at `m` exactly when that byte stands
/// there.
proof fn lemma_single_byte_match(t: Seq<u8>, b: u8, m: int)
    requires
        0 <= m < t.len(),
    ensures
        matches_at(t, seq![b], m) == (t[m] == b),
{
    if t[m] == b {
        assert(t.subrange(m, m + 1) =~= seq![b]);
    } else {
        assert(t.subrange(m, m + 1)[0] == t[m]);
    }
}

/// Copies `s[from..to]`.
#[verifier::loop_isolation(false)]
fn copy_range(s: &Vec<u8>, from: usize, to: usize) -> (r: Vec<u8>)
    requires
        from <= to <= s@.len(),
    ensures
        r@ == s@.subrange(from as int, to as int),
{
    let mut r: Vec<u8> = Vec::new();
    let mut i = from;
    while i < to
        invariant
            from <= i <= to,
            r@ == s@.subrange(from as int, i as int),
        decreases to - i,
    {
        r.push(s[i]);
        assert(r@ =~= s@.subrange(from as int, i + 1));
        i = i + 1;
    }
    r
}

/// Splits probe output into lines, as the spec-level `split_lines`
/// names them.
#[verifier::loop_isolation(false)]
pub fn split_lines_exec(s: &Vec<u8>) -> (r: Vec<Vec<u8>>)
    ensures
        r.deep_view() == split_lines(s@),
{
    let n = s.len();
    let mut out: Vec<Vec<u8>> = Vec::new();
    let mut pos: usize = 0;
    proof {
        assert(s@.skip(0) =~= s@);
        assert(out.deep_view() =~~= Seq::<Seq<u8>>::empty());
        assert(Seq::<Seq<u8>>::empty() + split_lines(s@) =~~= split_lines(s@));
    }
    while pos < n
        invariant
            pos <= n,
            out.deep_view() + split_lines(s@.skip(pos as int)) == split_lines(s@),
        decreases n - pos,
    {
        let ghost t = s@.skip(pos as int);
        let (line_end, next_pos): (usize, usize) = match find_byte_from(s, 10, pos) {
            Some(i) => (i, i + 1),
            None => (n, n),
        };
        proof {
            if line_end < n {
                assert(matches_at(t, nl(), line_end - pos)) by {
                    assert(t[line_end - pos] == s@[line_end as int]);
                    lemma_single_byte_match(t, '\n' as u8, line_end - pos);
                }
                assert forall|m: int| 0 <= m < line_end - pos implies !matches_at(t, nl(), m) by {
                    assert(t[m] == s@[m + pos]);
                    lemma_single_byte_match(t, '\n' as u8, m);
                }
                lemma_first_match_found(t, nl(), line_end - pos);
            } else {
                assert(!contains_seq(t, nl())) by {
                    if contains_seq(t, nl()) {
                        let m = choose|m: int| matches_at(t, nl(), m);
                        lemma_single_byte_match(t, '\n' as u8, m);
                        assert(s@[m + pos] == '\n' as u8);
                    }
                }
                lemma_first_match_absent(t, nl());
            }
        }
        let line_trim = if line_end > pos && s[line_end - 1] == 13 {
            line_end - 1
        } else {
            line_end
        };
        let line = copy_range(s, pos, line_trim);
        proof {
            assert(t.take(line_end - pos) =~= s@.subrange(pos as int, line_end as int));
            if line_end < n {
                assert(strip_cr(t.take(line_end - pos)) =~= line@);
                assert(t.skip(line_end - pos + 1) =~= s@.skip(next_pos as int));
            } else {
                assert(t =~= s@.subrange(pos as int, line_end as int));
                assert(strip_cr(t) =~= line@);
            }
        }
        out.push(line);
        proof {
            if line_end < n {
                assert(out.deep_view() + split_lines(s@.skip(next_pos as int)) =~~= split_lines(
                    s@,
                ));
            } else {
                assert(s@.skip(next_pos as int) =~= Seq::<u8>::empty());
                assert(out.deep_view() + split_lines(s@.skip(next_pos as int)) =~~= split_lines(
                    s@,
                ));
            }
        }
        pos = next_pos;
    }
    proof {
        assert(s@.skip(n as int) =~= Seq::<u8>::empty());
        assert(out.deep_view() =~~= out.deep_view() + split_lines(Seq::<u8>::empty()));
    }
    out
}

/// Splits a line into fields on commas, as the spec-level
/// `split_fields` names them.
#[verifier::loop_isolation(false)]
pub fn split_fields_exec(s: &Vec<u8>) -> (r: Vec<Vec<u8>>)
    ensures
        r.deep_view() == split_fields(s@),
{
    let n = s.len();
    let mut out: Vec<Vec<u8>> = Vec::new();
    let mut pos: usize = 0;
    proof {
        assert(s@.skip(0) =~= s@);
        assert(Seq::<Seq<u8>>::empty() + split_fields(s@) =~~= split_fields(s@));
    }
    loop
        invariant
            pos <= n,
            n == s@.len(),
            out.deep_view() + split_fields(s@.skip(pos as int)) == split_fields(s@),
        decreases n - pos + 1,
    {
        let ghost t = s@.skip(pos as int);
        let (field_end, more): (usize, bool) = match find_byte_from(s, 44, pos) {
            Some(i) => (i, true),
            None => (n, false),
        };
        proof {
            if more {
                assert(matches_at(t, comma(), field_end - pos)) by {
                    assert(t[field_end - pos] == s@[field_end as int]);
                    lemma_single_byte_match(t, ',' as u8, field_end - pos);
                }
                assert forall|m: int| 0 <= m < field_end - pos implies !matches_at(
                    t,
                    comma(),
                    m,
                ) by {
                    assert(t[m] == s@[m + pos]);
                    lemma_single_byte_match(t, ',' as u8, m);
                }
                lemma_first_match_found(t, comma(), field_end - pos);
            } else {
                assert(!contains_seq(t, comma())) by {
                    if contains_seq(t, comma()) {
                        let m = choose|m: int| matches_at(t, comma(), m);
                        lemma_single_byte_match(t, ',' as u8, m);
                        assert(s@[m + pos] == ',' as u8);
                    }
                }
                lemma_first_match_absent(t, comma());
            }
        }
        let field = copy_range(s, pos, field_end);
        proof {
            assert(t.take(field_end - pos) =~= s@.subrange(pos as int, field_end as int));
            assert(t =~= s@.subrange(pos as int, n as int));
        }
        out.push(field);
        if more {
            proof {
                assert(t.skip(field_end - pos + 1) =~= s@.skip(field_end + 1));
                assert(out.deep_view() + split_fields(s@.skip(field_end + 1)) =~~= split_fields(
                    s@,
                ));
            }
            pos = field_end + 1;
        } else {
            proof {
                assert(out.deep_view() =~~= split_fields(s@));
            }
            return out;
        }
    }
}

/// Parses one CSV line into a reading, as the spec-level
/// `csv_gpu_record` names it.
pub fn csv_line_record(line: &Vec<u8>) -> (r: Option<GpuReading>)
    ensures
        match r {
            Some(g) => csv_gpu_record(line@) == Some(g.deep_view()),
            None => csv_gpu_record(line@) is None,
        },
{
    let parts = split_fields_exec(line);
    if parts.len() < 4 {
        return None;
    }
    proof {
        assert(parts.deep_view()[0] == parts@[0]@);
        assert(parts.deep_view()[1] == parts@[1]@);
        assert(parts.deep_view()[2] == parts@[2]@);
        assert(parts.deep_view()[3] == parts@[3]@);
    }
    let model = trim_exec(&parts[0]);
    let util_field = trim_exec(&parts[1]);
    let temp_field = trim_exec(&parts[2]);
    let mem_field = trim_exec(&parts[3]);
    let utilization_centi = match parse_centi(&util_field) {
        Some(v) => v,
        None => 0,
    };
    let temperature_centi = match parse_centi(&temp_field) {
        Some(v) => v,
        None => 0,
    };
    let memory_used_bytes = mib_to_bytes(&mem_field);
    Some(
        GpuReading {
            model,
            utilization_centi,
            temperature_centi,
            memory_used_bytes,
        },
    )
}

/// Parses the whole CSV query output into readings, one per well-formed
/// line, in order.
#[verifier::loop_isolation(false)]
pub fn parse_gpu_csv(out: &Vec<u8>) -> (r: Vec<GpuReading>)
    ensures
        r.deep_view() == gpu_readings(out@),
{
    let lines = split_lines_exec(out);
    let ghost dv = lines.deep_view();
    let n = lines.len();
    let mut r: Vec<GpuReading> = Vec::new();
    let mut i: usize = 0;
    proof {
        assert(dv.skip(0) =~= dv);
        assert(Seq::<GpuReadingAbs>::empty() + csv_records(dv) =~= csv_records(dv));
    }
    while i < n
        invariant
            i <= n,
            n == lines@.len(),
            dv == lines.deep_view(),
            r.deep_view() + csv_records(dv.skip(i as int)) == csv_records(dv),
        decreases n - i,
    {
        proof {
            assert(dv.skip(i as int)[0] == dv[i as int]);
            assert(dv[i as int] == lines@[i as int]@);
            assert(dv.skip(i as int).skip(1) =~= dv.skip(i + 1));
        }
        match csv_line_record(&lines[i]) {
            Some(g) => {
                r.push(g);
                proof {
                    assert(r.deep_view() + csv_records(dv.skip(i + 1)) =~= csv_records(dv));
                }
            },
            None => {
                proof {
                    assert(r.deep_view() + csv_records(dv.skip(i + 1)) =~= csv_records(dv));
                }
            },
        }
        i = i + 1;
    }
    proof {
        assert(dv.skip(n as int) =~= Seq::<Seq<u8>>::empty());
        assert(r.deep_view() =~= r.deep_view() + csv_records(Seq::<Seq<u8>>::empty()));
    }
    r
}

/// Extracts the raw model from one list-mode line, as the spec-level
/// `list_line_model` names it.
pub fn list_line_model_exec(line: &Vec<u8>) -> (r: Option<Vec<u8>>)
    ensures
        match r {
            Some(m) => list_line_model(line@) == Some(m@),
            None => list_line_model(line@) is None,
        },
{
    let colon_v: Vec<u8> = vec![':' as u8, ' ' as u8];
    let uuid_v: Vec<u8> = vec![
        ' ' as u8,
        '(' as u8,
        'U' as u8,
        'U' as u8,
        'I' as u8,
        'D' as u8,
    ];
    proof {
        assert(colon_v@ =~= colon_sep());
        assert(uuid_v@ =~= uuid_mark());
    }
    let i = match find_first(line, &colon_v) {
        Some(i) => i,
        None => {
            return None;
        },
    };
    let e = match find_first(line, &uuid_v) {
        Some(e) => e,
        None => {
            return None;
        },
    };
    let n = line.len();
    proof {
        assert(colon_sep().len() == 2);
        assert(i + 2 <= n);
    }
    if i + 2 <= e {
        Some(copy_range(line, i + 2, e))
    } else {
        None
    }
}

/// Parses the whole list query output into identities, one per
/// well-formed line, in order, each model normalized for display.
#[verifier::loop_isolation(false)]
pub fn parse_gpu_list(out: &Vec<u8>) -> (r: Vec<GpuIdentity>)
    ensures
        r.deep_view() == gpu_identities(out@),
{
    let lines = split_lines_exec(out);
    let ghost dv = lines.deep_view();
    let n = lines.len();
    let mut r: Vec<GpuIdentity> = Vec::new();
    let mut i: usize = 0;
    proof {
        assert(dv.skip(0) =~= dv);
        assert(Seq::<GpuIdentityAbs>::empty() + list_identities(dv) =~= list_identities(dv));
    }
    while i < n
        invariant
            i <= n,
            n == lines@.len(),
            dv == lines.deep_view(),
            r.deep_view() + list_identities(dv.skip(i as int)) == list_identities(dv),
        decreases n - i,
    {
        proof {
            assert(dv.skip(i as int)[0] == dv[i as int]);
            assert(dv[i as int] == lines@[i as int]@);
            assert(dv.skip(i as int).skip(1) =~= dv.skip(i + 1));
        }
        match list_line_model_exec(&lines[i]) {
            Some(m) => {
                let normalized_name = clean_gpu_name(&m);
                let g = GpuIdentity {
                    raw_model: m,
                    normalized_name,
                    vendor: GpuVendor::Nvidia,
                    vram_bytes: 0,
                };
                r.push(g);
                proof {
                    assert(r.deep_view() + list_identities(dv.skip(i + 1)) =~= list_identities(
                        dv,
                    ));
                }
            },
            None => {
                proof {
                    assert(r.deep_view() + list_identities(dv.skip(i + 1)) =~= list_identities(
                        dv,
                    ));
                }
            },
        }
        i = i + 1;
    }
    proof {
        assert(dv.skip(n as int) =~= Seq::<Seq<u8>>::empty());
        assert(r.deep_view() =~= r.deep_view() + list_identities(Seq::<Seq<u8>>::empty()));
    }
    r
}

} // verus!
