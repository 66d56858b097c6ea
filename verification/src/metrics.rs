//! The two sampling pipelines. The host adapter in front of this
//! module hands in plain values it read from the OS metrics library;
//! everything here assembles them, together with parsed probe output,
//! into the two snapshot records. A total failure of every source
//! still yields a structurally valid record with zero or empty fields:
//! no call in this module can fail.
//!
//! Percent-like quantities are carried as integers: CPU load and GPU
//! utilization in centi-percent, temperatures in centi-degrees, disk
//! usage in basis points (hundredths of a percent), so that every
//! computation here is exact.

use crate::bytestr::{contains_bytes, contains_seq, copy_bytes, lower_bytes, lower_exec};
use crate::names::{clean_cpu_name, clean_cpu_spec};
use crate::probe::{
    gpu_identities, gpu_readings, parse_gpu_csv, parse_gpu_list, GpuIdentity, GpuIdentityAbs,
    GpuReading, GpuReadingAbs,
};
use vstd::arithmetic::div_mod::{
    lemma_div_is_ordered, lemma_div_multiples_vanish, lemma_div_pos_is_pos,
};
use vstd::arithmetic::mul::lemma_mul_inequality;
use vstd::prelude::*;

verus! {

/// One thermal sensor reading, as the host adapter hands it in:
/// a label and a temperature in centi-degrees Celsius.
pub struct SensorReading {
    pub label: Vec<u8>,
    pub temp_centi: i64,
}

/// The mathematical value of a `SensorReading`.
pub struct SensorReadingAbs {
    pub label: Seq<u8>,
    pub temp_centi: i64,
}

impl DeepView for SensorReading {
    type V = SensorReadingAbs;

    open spec fn deep_view(&self) -> SensorReadingAbs {
        SensorReadingAbs { label: self.label@, temp_centi: self.temp_centi }
    }
}

/// One mounted volume, as the host adapter hands it in.
pub struct VolumeInfo {
    pub mount_point: Vec<u8>,
    pub total_bytes: u64,
    pub available_bytes: u64,
}

/// The mathematical value of a `VolumeInfo`.
pub struct VolumeInfoAbs {
    pub mount_point: Seq<u8>,
    pub total_bytes: u64,
    pub available_bytes: u64,
}

impl DeepView for VolumeInfo {
    type V = VolumeInfoAbs;

    open spec fn deep_view(&self) -> VolumeInfoAbs {
        VolumeInfoAbs {
            mount_point: self.mount_point@,
            total_bytes: self.total_bytes,
            available_bytes: self.available_bytes,
        }
    }
}

/// One disk usage reading of a kept volume; usage is in basis points,
/// hundredths of a percent.
pub struct DiskReading {
    pub mount_point: Vec<u8>,
    pub used_percent_bp: u64,
    pub used_bytes: u64,
    pub total_bytes: u64,
}

/// The mathematical value of a `DiskReading`.
pub struct DiskReadingAbs {
    pub mount_point: Seq<u8>,
    pub used_percent_bp: u64,
    pub used_bytes: u64,
    pub total_bytes: u64,
}

impl DeepView for DiskReading {
    type V = DiskReadingAbs;

    open spec fn deep_view(&self) -> DiskReadingAbs {
        DiskReadingAbs {
            mount_point: self.mount_point@,
            used_percent_bp: self.used_percent_bp,
            used_bytes: self.used_bytes,
            total_bytes: self.total_bytes,
        }
    }
}

/// What the host adapter reads once for the static pipeline.
pub struct StaticHostInfo {
    pub cpu_brand: Vec<u8>,
    pub physical_cores: Option<usize>,
    pub mem_total_bytes: u64,
}

/// What the host adapter reads on each tick for the dynamic pipeline.
pub struct DynamicHostInfo {
    pub cpu_load_centi: u64,
    pub mem_used_bytes: u64,
    pub sensors: Vec<SensorReading>,
    pub volumes: Vec<VolumeInfo>,
}

/// The static snapshot: hardware facts assumed constant for the
/// process lifetime.
pub struct StaticSnapshot {
    pub cpu_model: Vec<u8>,
    pub cpu_cores: usize,
    pub mem_total_bytes: u64,
    pub gpus: Vec<GpuIdentity>,
}

/// One point-in-time sample of the live metrics.
pub struct DynamicSample {
    pub cpu_load_centi: u64,
    pub cpu_temp_centi: i64,
    pub mem_used_bytes: u64,
    pub gpus: Vec<GpuReading>,
    pub disks: Vec<DiskReading>,
}

/// Sensor-label key marking a CPU-adjacent sensor.
pub open spec fn cpu_key() -> Seq<u8> {
    seq!['c' as u8, 'p' as u8, 'u' as u8]
}

/// Sensor-label key marking a CPU-adjacent sensor.
pub open spec fn package_key() -> Seq<u8> {
    seq!['p' as u8, 'a' as u8, 'c' as u8, 'k' as u8, 'a' as u8, 'g' as u8, 'e' as u8]
}

/// Sensor-label key marking a CPU-adjacent sensor.
pub open spec fn core_key() -> Seq<u8> {
    seq!['c' as u8, 'o' as u8, 'r' as u8, 'e' as u8]
}

/// True when a sensor label names a CPU-adjacent sensor: its
/// lower-cased form holds `cpu`, `package` or `core`.
pub open spec fn is_cpu_sensor(label: Seq<u8>) -> bool {
    contains_seq(lower_bytes(label), cpu_key()) || contains_seq(lower_bytes(label), package_key())
        || contains_seq(lower_bytes(label), core_key())
}

/// Folds the sensors left to right, keeping the hottest CPU-adjacent
/// reading seen so far.
pub open spec fn fold_cpu_temp(ss: Seq<SensorReadingAbs>, acc: i64) -> i64
    decreases ss.len(),
{
    if ss.len() == 0 {
        acc
    } else {
        fold_cpu_temp(
            ss.skip(1),
            if is_cpu_sensor(ss[0].label) && ss[0].temp_centi > acc {
                ss[0].temp_centi
            } else {
                acc
            },
        )
    }
}

/// The derived CPU temperature: the maximum over CPU-adjacent sensors,
/// and zero — the caller-visible "unknown" — when none matches or none
/// is hotter than zero.
pub open spec fn cpu_temp_from(ss: Seq<SensorReadingAbs>) -> i64 {
    fold_cpu_temp(ss, 0)
}

/// One gibibyte; only volumes strictly larger are reported.
pub open spec fn gib() -> u64 {
    1073741824
}

/// True when a volume is large enough to report; tiny virtual and
/// system volumes fall below this.
pub open spec fn volume_kept(v: VolumeInfoAbs) -> bool {
    v.total_bytes > gib()
}

/// The used bytes of a volume; a report of more available than total
/// space is treated as nothing used rather than wrapping.
pub open spec fn used_of(v: VolumeInfoAbs) -> u64 {
    if v.available_bytes <= v.total_bytes {
        (v.total_bytes - v.available_bytes) as u64
    } else {
        0
    }
}

/// Used space over total space, in basis points, rounded down.
pub open spec fn percent_bp_of(v: VolumeInfoAbs) -> int {
    if v.total_bytes > 0 {
        used_of(v) * 10000 / (v.total_bytes as int)
    } else {
        0
    }
}

/// The disk reading built for one kept volume.
pub open spec fn disk_of(v: VolumeInfoAbs) -> DiskReadingAbs {
    DiskReadingAbs {
        mount_point: v.mount_point,
        used_percent_bp: percent_bp_of(v) as u64,
        used_bytes: used_of(v),
        total_bytes: v.total_bytes,
    }
}

/// The disk readings of the kept volumes, in order.
pub open spec fn disks_of(vs: Seq<VolumeInfoAbs>) -> Seq<DiskReadingAbs>
    decreases vs.len(),
{
    if vs.len() == 0 {
        seq![]
    } else if volume_kept(vs[0]) {
        seq![disk_of(vs[0])] + disks_of(vs.skip(1))
    } else {
        disks_of(vs.skip(1))
    }
}

/// Every reported disk reading is well formed: it comes from a volume
/// whose total strictly exceeds one gibibyte, its used bytes never
/// exceed its total, and its usage never exceeds ten thousand basis
/// points — one hundred percent.
pub proof fn lemma_disk_readings_well_formed(vs: Seq<VolumeInfoAbs>)
    ensures
        forall|i: int|
            0 <= i < disks_of(vs).len() ==> (#[trigger] disks_of(vs)[i]).total_bytes > gib()
                && disks_of(vs)[i].used_bytes <= disks_of(vs)[i].total_bytes && disks_of(
                vs,
            )[i].used_percent_bp <= 10000,
    decreases vs.len(),
{
    if vs.len() > 0 {
        lemma_disk_readings_well_formed(vs.skip(1));
        if volume_kept(vs[0]) {
            let v = vs[0];
            let total = v.total_bytes as int;
            let used = used_of(v) as int;
            lemma_mul_inequality(used, total, 10000);
            lemma_div_is_ordered(used * 10000, total * 10000, total);
            lemma_div_multiples_vanish(10000, total);
            assert(total * 10000 == 10000 * total) by (nonlinear_arith);
            assert(used * 10000 >= 0) by (nonlinear_arith)
                requires
                    used >= 0,
            ;
            lemma_div_pos_is_pos(used * 10000, total);
            assert(0 <= percent_bp_of(v) <= 10000);
            assert(disks_of(vs) == seq![disk_of(v)] + disks_of(vs.skip(1)));
            assert forall|i: int| 0 <= i < disks_of(vs).len() implies (#[trigger] disks_of(
                vs,
            )[i]).total_bytes > gib() && disks_of(vs)[i].used_bytes <= disks_of(
                vs,
            )[i].total_bytes && disks_of(vs)[i].used_percent_bp <= 10000 by {
                if i == 0 {
                    assert(disks_of(vs)[0] == disk_of(v));
                } else {
                    assert(disks_of(vs)[i] == disks_of(vs.skip(1))[i - 1]);
                }
            }
        } else {
            assert(disks_of(vs) == disks_of(vs.skip(1)));
        }
    }
}

/// The reported core count: the physical count when the host knows one
/// of at least one core, and one otherwise.
pub open spec fn core_count_of(c: Option<usize>) -> usize {
    match c {
        Some(n) => if n >= 1 {
            n
        } else {
            1
        },
        None => 1,
    }
}

/// Derives the CPU temperature from the thermal sensors: the maximum
/// centi-degree reading over sensors whose lower-cased label holds
/// `cpu`, `package` or `core`, and zero when no such sensor reads
/// above zero. The result is the hottest matching reading or the
/// "unknown" zero, never anything else.
#[verifier::loop_isolation(false)]
pub fn max_cpu_temp(sensors: &Vec<SensorReading>) -> (r: i64)
    ensures
        r == cpu_temp_from(sensors.deep_view()),
        r >= 0,
        forall|k: int|
            0 <= k < sensors.deep_view().len() && is_cpu_sensor(
                (#[trigger] sensors.deep_view()[k]).label,
            ) ==> r >= sensors.deep_view()[k].temp_centi,
        r != 0 ==> exists|k: int|
            0 <= k < sensors.deep_view().len() && is_cpu_sensor(
                (#[trigger] sensors.deep_view()[k]).label,
            ) && sensors.deep_view()[k].temp_centi == r,
{
    let ghost dv = sensors.deep_view();
    let n = sensors.len();
    let cpu_v: Vec<u8> = vec!['c' as u8, 'p' as u8, 'u' as u8];
    let package_v: Vec<u8> = vec![
        'p' as u8,
        'a' as u8,
        'c' as u8,
        'k' as u8,
        'a' as u8,
        'g' as u8,
        'e' as u8,
    ];
    let core_v: Vec<u8> = vec!['c' as u8, 'o' as u8, 'r' as u8, 'e' as u8];
    proof {
        assert(cpu_v@ =~= cpu_key());
        assert(package_v@ =~= package_key());
        assert(core_v@ =~= core_key());
        assert(dv.skip(0) =~= dv);
    }
    let mut acc: i64 = 0;
    let mut i: usize = 0;
    while i < n
        invariant
            i <= n,
            acc >= 0,
            fold_cpu_temp(dv.skip(i as int), acc) == cpu_temp_from(dv),
            forall|k: int|
                0 <= k < i && is_cpu_sensor((#[trigger] dv[k]).label) ==> acc >= dv[k].temp_centi,
            acc != 0 ==> exists|k: int|
                0 <= k < i && is_cpu_sensor((#[trigger] dv[k]).label) && dv[k].temp_centi == acc,
        decreases n - i,
    {
        proof {
            assert(dv.skip(i as int)[0] == dv[i as int]);
            assert(dv[i as int] == sensors@[i as int].deep_view());
            assert(dv.skip(i as int).skip(1) =~= dv.skip(i + 1));
        }
        let low = lower_exec(&sensors[i].label);
        let matched = contains_bytes(&low, &cpu_v) || contains_bytes(&low, &package_v)
            || contains_bytes(&low, &core_v);
        assert(matched == is_cpu_sensor(dv[i as int].label));
        if matched && sensors[i].temp_centi > acc {
            acc = sensors[i].temp_centi;
        }
        i = i + 1;
    }
    proof {
        assert(dv.skip(n as int) =~= Seq::<SensorReadingAbs>::empty());
    }
    acc
}

/// Builds the disk reading of one kept volume; the basis-point figure
/// is exact integer arithmetic, so it never exceeds ten thousand.
fn disk_reading_of(v: &VolumeInfo) -> (r: DiskReading)
    requires
        volume_kept(v.deep_view()),
    ensures
        r.deep_view() == disk_of(v.deep_view()),
        r.used_percent_bp <= 10000,
{
    let total = v.total_bytes;
    let used: u64 = if v.available_bytes <= total {
        total - v.available_bytes
    } else {
        0
    };
    let bp128: u128 = (used as u128) * 10000 / (total as u128);
    proof {
        lemma_mul_inequality(used as int, total as int, 10000);
        lemma_div_is_ordered(used as int * 10000, total as int * 10000, total as int);
        lemma_div_multiples_vanish(10000, total as int);
        assert(total as int * 10000 == 10000 * (total as int)) by (nonlinear_arith);
        assert(bp128 <= 10000);
    }
    let bp = bp128 as u64;
    let mount_point = copy_bytes(&v.mount_point);
    DiskReading { mount_point, used_percent_bp: bp, used_bytes: used, total_bytes: total }
}

/// Filters the volumes down to the kept ones and computes each usage
/// figure.
#[verifier::loop_isolation(false)]
pub fn disk_readings(volumes: &Vec<VolumeInfo>) -> (r: Vec<DiskReading>)
    ensures
        r.deep_view() == disks_of(volumes.deep_view()),
{
    let ghost dv = volumes.deep_view();
    let n = volumes.len();
    let mut r: Vec<DiskReading> = Vec::new();
    let mut i: usize = 0;
    proof {
        assert(dv.skip(0) =~= dv);
        assert(Seq::<DiskReadingAbs>::empty() + disks_of(dv) =~= disks_of(dv));
    }
    while i < n
        invariant
            i <= n,
            r.deep_view() + disks_of(dv.skip(i as int)) == disks_of(dv),
        decreases n - i,
    {
        proof {
            assert(dv.skip(i as int)[0] == dv[i as int]);
            assert(dv[i as int] == volumes@[i as int].deep_view());
            assert(dv.skip(i as int).skip(1) =~= dv.skip(i + 1));
        }
        if volumes[i].total_bytes > 1073741824 {
            let d = disk_reading_of(&volumes[i]);
            r.push(d);
            proof {
                assert(r.deep_view() + disks_of(dv.skip(i + 1)) =~= disks_of(dv));
            }
        } else {
            proof {
                assert(r.deep_view() + disks_of(dv.skip(i + 1)) =~= disks_of(dv));
            }
        }
        i = i + 1;
    }
    proof {
        assert(dv.skip(n as int) =~= Seq::<VolumeInfoAbs>::empty());
        assert(r.deep_view() =~= r.deep_view() + disks_of(Seq::<VolumeInfoAbs>::empty()));
    }
    r
}

/// The static pipeline: assembles the static snapshot from what the
/// host adapter read and what the probe's list query printed. A probe
/// that could not be run at all (`None`) yields an empty GPU list, the
/// same as one that printed nothing; the call itself cannot fail.
pub fn get_static_data(host: &StaticHostInfo, probe_list: Option<Vec<u8>>) -> (r: StaticSnapshot)
    ensures
        r.cpu_model@ == clean_cpu_spec(host.cpu_brand@),
        r.cpu_cores == core_count_of(host.physical_cores),
        r.cpu_cores >= 1,
        r.mem_total_bytes == host.mem_total_bytes,
        r.gpus.deep_view() == match probe_list {
            Some(out) => gpu_identities(out@),
            None => Seq::<GpuIdentityAbs>::empty(),
        },
{
    let cpu_model = clean_cpu_name(&host.cpu_brand);
    let cpu_cores = match host.physical_cores {
        Some(n) => if n >= 1 {
            n
        } else {
            1
        },
        None => 1,
    };
    let gpus = match probe_list {
        Some(out) => parse_gpu_list(&out),
        None => Vec::new(),
    };
    proof {
        if probe_list is None {
            assert(gpus.deep_view() =~= Seq::<GpuIdentityAbs>::empty());
        }
    }
    StaticSnapshot { cpu_model, cpu_cores, mem_total_bytes: host.mem_total_bytes, gpus }
}

/// The dynamic pipeline: assembles one sample from what the host
/// adapter read on this tick and what the probe's CSV query printed.
/// A probe that could not be run at all (`None`) yields an empty GPU
/// list; missing sensors yield the zero "unknown" temperature; the
/// call itself cannot fail.
pub fn get_dynamic_data(host: &DynamicHostInfo, probe_csv: Option<Vec<u8>>) -> (r: DynamicSample)
    ensures
        r.cpu_load_centi == host.cpu_load_centi,
        r.cpu_temp_centi == cpu_temp_from(host.sensors.deep_view()),
        r.cpu_temp_centi >= 0,
        r.mem_used_bytes == host.mem_used_bytes,
        r.gpus.deep_view() == match probe_csv {
            Some(out) => gpu_readings(out@),
            None => Seq::<GpuReadingAbs>::empty(),
        },
        r.disks.deep_view() == disks_of(host.volumes.deep_view()),
{
    let cpu_temp_centi = max_cpu_temp(&host.sensors);
    let disks = disk_readings(&host.volumes);
    let gpus = match probe_csv {
        Some(out) => parse_gpu_csv(&out),
        None => Vec::new(),
    };
    proof {
        if probe_csv is None {
            assert(gpus.deep_view() =~= Seq::<GpuReadingAbs>::empty());
        }
    }
    DynamicSample {
        cpu_load_centi: host.cpu_load_centi,
        cpu_temp_centi,
        mem_used_bytes: host.mem_used_bytes,
        gpus,
        disks,
    }
}

} // verus!
