//! Samples of fragmented files: the track-fragment runs (`trun`) of every
//! `moof`, with per-sample values falling back on the track fragment header
//! (`tfhd`) and then on the track's `trex` defaults.

use vstd::prelude::*;
use crate::api::Box;
use crate::info::{child_at, deref_box, find_child, first_box, first_with, same_text};
use crate::registry::data::{StructuredData, TfhdData, TrunData, TrunSample};
use crate::samples::{sat_add_signed, track_fails, track_result, SampleInfo, TrackSamples};

verus! {

/// Values a run's samples fall back on when the run does not carry them.
#[derive(Debug, Clone, Copy, PartialEq, Eq, Structural)]
pub struct RunDefaults {
    pub duration: u32,
    pub size: u32,
    pub flags: u32,
}

/// One track-fragment run as the sample walk sees it: where its decode
/// times and its data start when it says so (else it continues where the
/// previous run ended), and its defaults.
#[derive(Debug, Clone, Copy)]
pub struct FragRun<'a> {
    pub trun: &'a TrunData,
    pub defaults: RunDefaults,
    pub start_dts: Option<u64>,
    pub start_offset: Option<u64>,
}

pub open spec fn run_len(r: FragRun) -> int {
    r.trun.samples@.len() as int
}

pub open spec fn run_duration(r: FragRun, k: int) -> u32 {
    match r.trun.samples@[k].duration {
        Some(d) => d,
        None => r.defaults.duration,
    }
}

pub open spec fn run_size(r: FragRun, k: int) -> u32 {
    match r.trun.samples@[k].size {
        Some(s) => s,
        None => r.defaults.size,
    }
}

/// A sample's flags: its own, else the run's first-sample flags for the
/// first sample, else the defaults.
pub open spec fn run_flags(r: FragRun, k: int) -> u32 {
    match r.trun.samples@[k].flags {
        Some(f) => f,
        None => if k == 0 && r.trun.first_sample_flags is Some {
            r.trun.first_sample_flags.unwrap()
        } else {
            r.defaults.flags
        },
    }
}

pub open spec fn run_cto(r: FragRun, k: int) -> int {
    match r.trun.samples@[k].composition_time_offset {
        Some(c) => c as int,
        None => 0,
    }
}

/// A sample is a sync sample when the non-sync bit (0x10000) of its flags
/// is clear.
pub open spec fn flags_sync(f: u32) -> bool {
    (f as int / 65536) % 2 == 0
}

/// Decode time and data offset after the first `k` samples of `r`, started
/// at `d` and `o`.
pub open spec fn run_pos(r: FragRun, k: int, d: int, o: int) -> (int, int)
    decreases k,
{
    if k <= 0 {
        (d, o)
    } else {
        let p = run_pos(r, k - 1, d, o);
        (p.0 + run_duration(r, k - 1), p.1 + run_size(r, k - 1))
    }
}

/// Where `r` starts when the previous run ended at `d` and `o`.
pub open spec fn run_start(r: FragRun, d: int, o: int) -> (int, int) {
    (
        match r.start_dts {
            Some(x) => x as int,
            None => d,
        },
        match r.start_offset {
            Some(x) => x as int,
            None => o,
        },
    )
}

/// Where run `i` starts, when the first run starts from `d` and `o`.
pub open spec fn runs_pos(rs: Seq<FragRun>, i: int, d: int, o: int) -> (int, int)
    decreases i,
{
    if i <= 0 {
        (d, o)
    } else {
        let p = runs_pos(rs, i - 1, d, o);
        let s = run_start(rs[i - 1], p.0, p.1);
        run_pos(rs[i - 1], run_len(rs[i - 1]), s.0, s.1)
    }
}

/// Number of samples in the runs before `i`.
pub open spec fn runs_count(rs: Seq<FragRun>, i: int) -> int
    decreases i,
{
    if i <= 0 {
        0
    } else {
        runs_count(rs, i - 1) + run_len(rs[i - 1])
    }
}

/// Position `k` (0 to the run's length) of run `i`.
pub open spec fn pos_at(rs: Seq<FragRun>, i: int, k: int, d: int, o: int) -> (int, int) {
    let p = runs_pos(rs, i, d, o);
    let s = run_start(rs[i], p.0, p.1);
    run_pos(rs[i], k, s.0, s.1)
}

/// Every decode time and data offset of the walk fits in 64 bits and every
/// sample index in 32.
pub open spec fn runs_fit(rs: Seq<FragRun>, d: int, o: int, idx: int) -> bool {
    &&& forall|i: int, k: int|
        0 <= i < rs.len() && 0 <= k <= run_len(rs[i]) ==> #[trigger] pos_at(rs, i, k, d, o).0 <= u64::MAX
            && pos_at(rs, i, k, d, o).1 <= u64::MAX
    &&& idx + runs_count(rs, rs.len() as int) <= u32::MAX + 1
}

/// `si` is sample `k` of run `i`.
pub open spec fn frag_sample_is(si: SampleInfo, rs: Seq<FragRun>, i: int, k: int, d: int, o: int, idx: int) -> bool {
    let q = pos_at(rs, i, k, d, o);
    &&& si.index == idx + runs_count(rs, i) + k
    &&& si.dts == q.0
    &&& si.pts == sat_add_signed(q.0, run_cto(rs[i], k))
    &&& si.duration == run_duration(rs[i], k)
    &&& si.rendered_offset == run_cto(rs[i], k)
    &&& si.file_offset == q.1
    &&& si.size == run_size(rs[i], k)
    &&& si.is_sync == flags_sync(run_flags(rs[i], k))
}

/// `s` lists the samples of the runs, in order.
pub open spec fn frag_samples_are(s: Seq<SampleInfo>, rs: Seq<FragRun>, d: int, o: int, idx: int) -> bool {
    &&& s.len() == runs_count(rs, rs.len() as int)
    &&& forall|i: int, k: int|
        0 <= i < rs.len() && 0 <= k < run_len(rs[i]) ==> #[trigger] frag_sample_is(
            s[runs_count(rs, i) + k],
            rs,
            i,
            k,
            d,
            o,
            idx,
        )
}

proof fn lemma_runs_count_mono(rs: Seq<FragRun>, i: int, j: int)
    requires
        0 <= i <= j <= rs.len(),
    ensures
        runs_count(rs, i) <= runs_count(rs, j),
        i < rs.len() ==> runs_count(rs, i + 1) == runs_count(rs, i) + run_len(rs[i]),
    decreases j - i,
{
    if i < j {
        lemma_runs_count_mono(rs, i, j - 1);
    }
    if i < rs.len() {
        assert(runs_count(rs, i + 1) == runs_count(rs, i) + run_len(rs[i]));
    }
}

/// Walks the runs from decode time `d0` and data offset `o0`, appending
/// their samples, numbered from `idx0`, to `out`. Returns where the walk
/// ended, or `None` (with `out` in an unspecified state) when a decode
/// time, data offset or index does not fit.
pub fn walk_runs(runs: &Vec<FragRun>, d0: u64, o0: u64, idx0: u32, out: &mut Vec<SampleInfo>) -> (r: Option<(u64, u64)>)
    ensures
        r is Some <==> runs_fit(runs@, d0 as int, o0 as int, idx0 as int),
        r matches Some(e) ==> {
            &&& final(out)@.len() >= old(out)@.len()
            &&& e.0 == runs_pos(runs@, runs@.len() as int, d0 as int, o0 as int).0
            &&& e.1 == runs_pos(runs@, runs@.len() as int, d0 as int, o0 as int).1
            &&& final(out)@.subrange(0, old(out)@.len() as int) == old(out)@
            &&& frag_samples_are(final(out)@.subrange(old(out)@.len() as int, final(out)@.len() as int), runs@, d0 as int, o0 as int, idx0 as int)
        },
{
    let ghost rs = runs@;
    let ghost base = out@;
    let ghost dd = d0 as int;
    let ghost oo = o0 as int;
    let mut d: u64 = d0;
    let mut o: u64 = o0;
    let mut n: u64 = 0;
    let mut i: usize = 0;
    while i < runs.len()
        invariant
            rs == runs@,
            dd == d0 as int,
            oo == o0 as int,
            base == old(out)@,
            i <= rs.len(),
            out@.len() == base.len() + n,
            out@.subrange(0, base.len() as int) == base,
            n == runs_count(rs, i as int),
            (d as int, o as int) == runs_pos(rs, i as int, dd, oo),
            idx0 + n <= u32::MAX + 1,
            forall|a: int, k: int|
                0 <= a < i && 0 <= k <= run_len(rs[a]) ==> #[trigger] pos_at(rs, a, k, dd, oo).0 <= u64::MAX
                    && pos_at(rs, a, k, dd, oo).1 <= u64::MAX,
            forall|a: int, k: int|
                0 <= a < i && 0 <= k < run_len(rs[a]) ==> #[trigger] frag_sample_is(
                    out@[base.len() + runs_count(rs, a) + k],
                    rs,
                    a,
                    k,
                    dd,
                    oo,
                    idx0 as int,
                ),
        decreases rs.len() - i,
    {
        let run = runs[i];
        let ghost ri = rs[i as int];
        let mut cd: u64 = match run.start_dts {
            Some(x) => x,
            None => d,
        };
        let mut co: u64 = match run.start_offset {
            Some(x) => x,
            None => o,
        };
        let ghost s = run_start(ri, d as int, o as int);
        let len = run.trun.samples.len();
        let mut k: usize = 0;
        while k < len
            invariant
                rs == runs@,
                dd == d0 as int,
                oo == o0 as int,
                base == old(out)@,
                i < rs.len(),
                ri == rs[i as int],
                run == ri,
                len == run_len(ri),
                s == run_start(ri, runs_pos(rs, i as int, dd, oo).0, runs_pos(rs, i as int, dd, oo).1),
                k <= len,
                out@.len() == base.len() + n,
                out@.subrange(0, base.len() as int) == base,
                n == runs_count(rs, i as int) + k,
                (cd as int, co as int) == run_pos(ri, k as int, s.0, s.1),
                idx0 + n <= u32::MAX + 1,
                forall|a: int, j: int|
                    0 <= a < i && 0 <= j <= run_len(rs[a]) ==> #[trigger] pos_at(rs, a, j, dd, oo).0 <= u64::MAX
                        && pos_at(rs, a, j, dd, oo).1 <= u64::MAX,
                forall|j: int|
                    0 <= j <= k ==> #[trigger] pos_at(rs, i as int, j, dd, oo).0 <= u64::MAX
                        && pos_at(rs, i as int, j, dd, oo).1 <= u64::MAX,
                forall|a: int, j: int|
                    0 <= a < i && 0 <= j < run_len(rs[a]) ==> #[trigger] frag_sample_is(
                        out@[base.len() + runs_count(rs, a) + j],
                        rs,
                        a,
                        j,
                        dd,
                        oo,
                        idx0 as int,
                    ),
                forall|j: int|
                    0 <= j < k ==> #[trigger] frag_sample_is(
                        out@[base.len() + runs_count(rs, i as int) + j],
                        rs,
                        i as int,
                        j,
                        dd,
                        oo,
                        idx0 as int,
                    ),
            decreases len - k,
        {
            let ts: TrunSample = run.trun.samples[k];
            let dur = match ts.duration {
                Some(x) => x,
                None => run.defaults.duration,
            };
            let size = match ts.size {
                Some(x) => x,
                None => run.defaults.size,
            };
            let flags = match ts.flags {
                Some(f) => f,
                None => if k == 0 && run.trun.first_sample_flags.is_some() {
                    match run.trun.first_sample_flags {
                        Some(f) => f,
                        None => run.defaults.flags,
                    }
                } else {
                    run.defaults.flags
                },
            };
            let cto: i64 = match ts.composition_time_offset {
                Some(c) => c as i64,
                None => 0,
            };
            proof {
                assert(pos_at(rs, i as int, k as int + 1, dd, oo) == run_pos(ri, k as int + 1, s.0, s.1));
            }
            if n >= (u32::MAX as u64) + 1 - (idx0 as u64) {
                proof {
                    lemma_runs_count_mono(rs, i as int, rs.len() as int);
                    lemma_runs_count_mono(rs, i as int + 1, rs.len() as int);
                    assert(idx0 + runs_count(rs, rs.len() as int) > u32::MAX + 1);
                }
                return None;
            }
            if dur as u64 > u64::MAX - cd || size as u64 > u64::MAX - co {
                proof {
                    let ii = i as int;
                    let kk = k as int + 1;
                    assert(pos_at(rs, ii, kk, dd, oo).0 > u64::MAX || pos_at(rs, ii, kk, dd, oo).1 > u64::MAX);
                    assert(0 <= ii < rs.len() && 0 <= kk <= run_len(rs[ii]));
                    assert(!runs_fit(rs, dd, oo, idx0 as int));
                }
                return None;
            }
            let pts: u64 = if cto < 0 {
                let m = (0 - cto) as u64;
                if m > cd {
                    0
                } else {
                    cd - m
                }
            } else {
                let p = cto as u64;
                if p > u64::MAX - cd {
                    u64::MAX
                } else {
                    cd + p
                }
            };
            let si = SampleInfo {
                index: (idx0 as u64 + n) as u32,
                dts: cd,
                pts,
                duration: dur,
                rendered_offset: cto,
                file_offset: co,
                size,
                is_sync: flags & 0x10000 == 0,
            };
            proof {
                assert(flags & 0x10000 == 0 <==> (flags as int / 65536) % 2 == 0) by (bit_vector);
                assert(frag_sample_is(si, rs, i as int, k as int, dd, oo, idx0 as int));
            }
            let ghost prev = out@;
            out.push(si);
            proof {
                assert(out@ == prev.push(si));
                assert(out@.subrange(0, base.len() as int) =~= prev.subrange(0, base.len() as int));
                assert forall|a: int, j: int|
                    0 <= a < i && 0 <= j < run_len(rs[a]) implies #[trigger] frag_sample_is(
                        out@[base.len() + runs_count(rs, a) + j],
                        rs,
                        a,
                        j,
                        dd,
                        oo,
                        idx0 as int,
                    ) by {
                    lemma_runs_count_mono(rs, 0, a);
                    lemma_runs_count_mono(rs, a, i as int);
                    lemma_runs_count_mono(rs, a + 1, i as int);
                    assert(runs_count(rs, a) + j < runs_count(rs, i as int));
                    assert(base.len() + runs_count(rs, a) + j < prev.len());
                    assert(out@[base.len() + runs_count(rs, a) + j] == prev[base.len() + runs_count(rs, a) + j]);
                }
                assert forall|j: int|
                    0 <= j < k + 1 implies #[trigger] frag_sample_is(
                        out@[base.len() + runs_count(rs, i as int) + j],
                        rs,
                        i as int,
                        j,
                        dd,
                        oo,
                        idx0 as int,
                    ) by {
                    lemma_runs_count_mono(rs, 0, i as int);
                    if j < k {
                        assert(out@[base.len() + runs_count(rs, i as int) + j] == prev[base.len() + runs_count(rs, i as int) + j]);
                    }
                }
            }
            cd = cd + dur as u64;
            co = co + size as u64;
            n = n + 1;
            k = k + 1;
        }
        proof {
            lemma_runs_count_mono(rs, i as int, i as int);
        }
        d = cd;
        o = co;
        i = i + 1;
    }
    proof {
        assert(out@.subrange(base.len() as int, out@.len() as int).len() == runs_count(rs, rs.len() as int));
        assert forall|a: int, k: int|
            0 <= a < rs.len() && 0 <= k < run_len(rs[a]) implies #[trigger] frag_sample_is(
                out@.subrange(base.len() as int, out@.len() as int)[runs_count(rs, a) + k],
                rs,
                a,
                k,
                dd,
                oo,
                idx0 as int,
            ) by {
            lemma_runs_count_mono(rs, 0, a);
            lemma_runs_count_mono(rs, a, rs.len() as int);
            lemma_runs_count_mono(rs, a + 1, rs.len() as int);
            assert(out@.subrange(base.len() as int, out@.len() as int)[runs_count(rs, a) + k] == out@[base.len() + runs_count(rs, a) + k]);
        }
    }
    Some((d, o))
}

// ---------- runs of a track ----------

pub open spec fn no_defaults() -> RunDefaults {
    RunDefaults { duration: 0, size: 0, flags: 0 }
}

/// The defaults of the first `trex` among `kids` from `j` on for track `id`.
pub open spec fn trex_in(kids: Seq<Box>, j: int, id: u32) -> RunDefaults
    decreases kids.len() - j,
{
    if j < 0 || j >= kids.len() {
        no_defaults()
    } else {
        match kids[j].structured_data {
            Some(StructuredData::TrackExtends(d)) => if d.track_id == id {
                RunDefaults {
                    duration: d.default_sample_duration,
                    size: d.default_sample_size,
                    flags: d.default_sample_flags,
                }
            } else {
                trex_in(kids, j + 1, id)
            },
            _ => trex_in(kids, j + 1, id),
        }
    }
}

/// The `trex` defaults for track `id` in the first `moov`'s `mvex`, or
/// zeros.
pub open spec fn trex_defaults(boxes: Seq<Box>, id: u32) -> RunDefaults {
    match first_with(boxes, "moov"@, 0) {
        Some(m) => match child_at(m, "mvex"@) {
            Some(mv) => match mv.children {
                Some(k) => trex_in(k@, 0, id),
                None => no_defaults(),
            },
            None => no_defaults(),
        },
        None => no_defaults(),
    }
}

/// The decoded `tfhd` of a track fragment.
pub open spec fn tfhd_of(traf: Box) -> Option<TfhdData> {
    match child_at(traf, "tfhd"@) {
        Some(b) => match b.structured_data {
            Some(StructuredData::TrackFragmentHeader(h)) => Some(h),
            _ => None,
        },
        None => None,
    }
}

/// The base media decode time of a track fragment, from its `tfdt`.
pub open spec fn tfdt_of(traf: Box) -> Option<u64> {
    match child_at(traf, "tfdt"@) {
        Some(b) => match b.structured_data {
            Some(StructuredData::TrackFragmentDecodeTime(t)) => Some(t.base_media_decode_time),
            _ => None,
        },
        None => None,
    }
}

/// A track fragment's defaults: its `tfhd` values, else the `trex` ones.
pub open spec fn traf_defaults(h: TfhdData, tx: RunDefaults) -> RunDefaults {
    RunDefaults {
        duration: match h.default_sample_duration {
            Some(x) => x,
            None => tx.duration,
        },
        size: match h.default_sample_size {
            Some(x) => x,
            None => tx.size,
        },
        flags: match h.default_sample_flags {
            Some(x) => x,
            None => tx.flags,
        },
    }
}

/// Where a run's data starts: its data offset from the base, the base for
/// the first run of a fragment without one, else where the previous run
/// ended (`None`).
pub open spec fn run_offset(base: int, o: Option<i32>, first: bool) -> Option<int> {
    match o {
        Some(x) => Some(base + x),
        None => if first {
            Some(base)
        } else {
            None
        },
    }
}

pub open spec fn offset_fits(x: Option<int>) -> bool {
    match x {
        Some(v) => 0 <= v <= u64::MAX,
        None => true,
    }
}

/// `a` followed by `b`, when both are there.
pub open spec fn cat_runs<'a>(a: Seq<FragRun<'a>>, b: Option<Seq<FragRun<'a>>>) -> Option<Seq<FragRun<'a>>> {
    match b {
        Some(y) => Some(a + y),
        None => None,
    }
}

/// The runs among the children of a track fragment from `j` on; `first`
/// while no run has been seen. `None` when a data offset does not fit.
pub open spec fn truns_from<'a>(
    kids: Seq<Box>,
    j: int,
    first: bool,
    base: int,
    tfdt: Option<u64>,
    dfl: RunDefaults,
) -> Option<Seq<FragRun<'a>>>
    decreases kids.len() - j,
{
    if j < 0 || j >= kids.len() {
        Some(Seq::empty())
    } else {
        match kids[j].structured_data {
            Some(StructuredData::TrackFragmentRun(r)) => {
                let off = run_offset(base, r.data_offset, first);
                if !offset_fits(off) {
                    None
                } else {
                    let run = FragRun {
                        trun: &r,
                        defaults: dfl,
                        start_dts: if first {
                            tfdt
                        } else {
                            None
                        },
                        start_offset: match off {
                            Some(v) => Some(v as u64),
                            None => None,
                        },
                    };
                    cat_runs(seq![run], truns_from(kids, j + 1, false, base, tfdt, dfl))
                }
            },
            _ => truns_from(kids, j + 1, first, base, tfdt, dfl),
        }
    }
}

/// The runs of a track fragment for track `id`, with data offsets based at
/// its `tfhd` base data offset or else at the start of its `moof`.
pub open spec fn traf_runs<'a>(traf: Box, moof_start: u64, id: u32, tx: RunDefaults) -> Option<Seq<FragRun<'a>>> {
    match tfhd_of(traf) {
        Some(h) => if h.track_id == id && traf.children is Some {
            let base = match h.base_data_offset {
                Some(b) => b,
                None => moof_start,
            };
            truns_from(traf.children.unwrap()@, 0, true, base as int, tfdt_of(traf), traf_defaults(h, tx))
        } else {
            Some(Seq::empty())
        },
        None => Some(Seq::empty()),
    }
}

/// The runs for track `id` of the track fragments among a `moof`'s
/// children from `j` on.
pub open spec fn moof_runs<'a>(kids: Seq<Box>, j: int, moof_start: u64, id: u32, tx: RunDefaults) -> Option<Seq<FragRun<'a>>>
    decreases kids.len() - j,
{
    if j < 0 || j >= kids.len() {
        Some(Seq::empty())
    } else {
        match traf_runs(kids[j], moof_start, id, tx) {
            Some(a) => cat_runs(a, moof_runs(kids, j + 1, moof_start, id, tx)),
            None => None,
        }
    }
}

/// The runs for track `id` of the `moof` boxes among the top-level boxes
/// from `i` on, in file order.
pub open spec fn runs_from<'a>(boxes: Seq<Box>, i: int, id: u32, tx: RunDefaults) -> Option<Seq<FragRun<'a>>>
    decreases boxes.len() - i,
{
    if i < 0 || i >= boxes.len() {
        Some(Seq::empty())
    } else if boxes[i].typ@ == "moof"@ && boxes[i].children is Some {
        match moof_runs(boxes[i].children.unwrap()@, 0, boxes[i].offset, id, tx) {
            Some(a) => cat_runs(a, runs_from(boxes, i + 1, id, tx)),
            None => None,
        }
    } else {
        runs_from(boxes, i + 1, id, tx)
    }
}

/// The runs of track `id` in a parsed file.
pub open spec fn track_runs<'a>(boxes: Seq<Box>, id: u32) -> Option<Seq<FragRun<'a>>> {
    runs_from(boxes, 0, id, trex_defaults(boxes, id))
}

fn trex_of(boxes: &Vec<Box>, id: u32) -> (r: RunDefaults)
    ensures
        r == trex_defaults(boxes@, id),
{
    let none = RunDefaults { duration: 0, size: 0, flags: 0 };
    let kids = match first_box(boxes, "moov") {
        Some(m) => match find_child(m, "mvex") {
            Some(mv) => match &mv.children {
                Some(k) => k,
                None => return none,
            },
            None => return none,
        },
        None => return none,
    };
    let mut j: usize = 0;
    while j < kids.len()
        invariant
            j <= kids@.len(),
            trex_defaults(boxes@, id) == trex_in(kids@, 0, id),
            trex_in(kids@, 0, id) == trex_in(kids@, j as int, id),
        decreases kids@.len() - j,
    {
        match &kids[j].structured_data {
            Some(StructuredData::TrackExtends(d)) => {
                if d.track_id == id {
                    return RunDefaults {
                        duration: d.default_sample_duration,
                        size: d.default_sample_size,
                        flags: d.default_sample_flags,
                    };
                }
            },
            _ => {},
        }
        j = j + 1;
    }
    none
}

fn tfhd_exec(traf: &Box) -> (r: Option<&TfhdData>)
    ensures
        match tfhd_of(*traf) {
            Some(h) => r matches Some(x) && *x == h,
            None => r is None,
        },
{
    match find_child(traf, "tfhd") {
        Some(b) => match &b.structured_data {
            Some(StructuredData::TrackFragmentHeader(h)) => Some(h),
            _ => None,
        },
        None => None,
    }
}

fn tfdt_exec(traf: &Box) -> (r: Option<u64>)
    ensures
        r == tfdt_of(*traf),
{
    match find_child(traf, "tfdt") {
        Some(b) => match &b.structured_data {
            Some(StructuredData::TrackFragmentDecodeTime(t)) => Some(t.base_media_decode_time),
            _ => None,
        },
        None => None,
    }
}

/// Appends the runs of one track fragment's children; `false` when a data
/// offset does not fit.
fn collect_truns<'a>(
    kids: &'a Vec<Box>,
    base: u64,
    tfdt: Option<u64>,
    dfl: RunDefaults,
    out: &mut Vec<FragRun<'a>>,
) -> (r: bool)
    ensures
        r <==> truns_from(kids@, 0, true, base as int, tfdt, dfl) is Some,
        r ==> final(out)@ == old(out)@ + truns_from(kids@, 0, true, base as int, tfdt, dfl).unwrap(),
{
    let ghost whole = truns_from(kids@, 0, true, base as int, tfdt, dfl);
    let ghost start = out@;
    let mut first = true;
    let mut j: usize = 0;
    proof {
        assert(out@.subrange(start.len() as int, out@.len() as int) =~= Seq::<FragRun<'a>>::empty());
        match whole {
            Some(w) => {
                assert(Seq::<FragRun<'a>>::empty() + w =~= w);
            },
            None => {},
        }
    }
    while j < kids.len()
        invariant
            j <= kids@.len(),
            whole == truns_from(kids@, 0, true, base as int, tfdt, dfl),
            whole == match truns_from(kids@, j as int, first, base as int, tfdt, dfl) {
                Some(rest) => Some(out@.subrange(start.len() as int, out@.len() as int) + rest),
                None => None::<Seq<FragRun<'a>>>,
            },
            out@.len() >= start.len(),
            out@.subrange(0, start.len() as int) == start,
        decreases kids@.len() - j,
    {
        match &kids[j].structured_data {
            Some(StructuredData::TrackFragmentRun(r)) => {
                let off: Option<u64> = match r.data_offset {
                    Some(x) => {
                        if x >= 0 {
                            if x as u64 > u64::MAX - base {
                                return false;
                            }
                            Some(base + x as u64)
                        } else {
                            let m = (0 - (x as i64)) as u64;
                            if m > base {
                                return false;
                            }
                            Some(base - m)
                        }
                    },
                    None => if first {
                        Some(base)
                    } else {
                        None
                    },
                };
                let run = FragRun {
                    trun: r,
                    defaults: dfl,
                    start_dts: if first {
                        tfdt
                    } else {
                        None
                    },
                    start_offset: off,
                };
                let ghost prev = out@;
                out.push(run);
                proof {
                    let done = prev.subrange(start.len() as int, prev.len() as int);
                    assert(out@.subrange(start.len() as int, out@.len() as int) =~= done.push(run));
                    assert(out@.subrange(0, start.len() as int) =~= prev.subrange(0, start.len() as int));
                    match truns_from(kids@, j + 1, false, base as int, tfdt, dfl) {
                        Some(rest) => {
                            assert(done + (seq![run] + rest) =~= done.push(run) + rest);
                        },
                        None => {},
                    }
                }
                first = false;
            },
            _ => {},
        }
        j = j + 1;
    }
    proof {
        assert(out@ =~= start + out@.subrange(start.len() as int, out@.len() as int));
        match truns_from(kids@, j as int, first, base as int, tfdt, dfl) {
            Some(rest) => {
                assert(rest =~= Seq::<FragRun<'a>>::empty());
                assert(out@.subrange(start.len() as int, out@.len() as int) + rest =~= out@.subrange(start.len() as int, out@.len() as int));
            },
            None => {},
        }
    }
    true
}

/// Appends the runs of one track fragment for track `id`.
fn collect_traf<'a>(traf: &'a Box, moof_start: u64, id: u32, tx: RunDefaults, out: &mut Vec<FragRun<'a>>) -> (r: bool)
    ensures
        r <==> traf_runs(*traf, moof_start, id, tx) is Some,
        r ==> final(out)@ == old(out)@ + traf_runs(*traf, moof_start, id, tx).unwrap(),
{
    let h = match tfhd_exec(traf) {
        Some(h) => h,
        None => {
            assert(old(out)@ + Seq::<FragRun<'a>>::empty() =~= old(out)@);
            return true;
        },
    };
    let kids = match &traf.children {
        Some(k) => k,
        None => {
            assert(old(out)@ + Seq::<FragRun<'a>>::empty() =~= old(out)@);
            return true;
        },
    };
    if h.track_id != id {
        assert(old(out)@ + Seq::<FragRun<'a>>::empty() =~= old(out)@);
        return true;
    }
    let base = match h.base_data_offset {
        Some(b) => b,
        None => moof_start,
    };
    let dfl = RunDefaults {
        duration: match h.default_sample_duration {
            Some(x) => x,
            None => tx.duration,
        },
        size: match h.default_sample_size {
            Some(x) => x,
            None => tx.size,
        },
        flags: match h.default_sample_flags {
            Some(x) => x,
            None => tx.flags,
        },
    };
    collect_truns(kids, base, tfdt_exec(traf), dfl, out)
}

/// The runs of track `id` in a parsed file, in file order; `None` when a
/// run's data offset does not fit in 64 bits.
pub fn find_track_runs<'a>(boxes: &'a Vec<Box>, id: u32) -> (r: Option<Vec<FragRun<'a>>>)
    ensures
        match track_runs(boxes@, id) {
            Some(rs) => r matches Some(v) && v@ == rs,
            None => r is None,
        },
{
    let tx = trex_of(boxes, id);
    let ghost whole = runs_from(boxes@, 0, id, tx);
    let mut out: Vec<FragRun<'a>> = Vec::new();
    let mut i: usize = 0;
    proof {
        match whole {
            Some(w) => {
                assert(out@ + w =~= w);
            },
            None => {},
        }
    }
    while i < boxes.len()
        invariant
            i <= boxes@.len(),
            whole == runs_from(boxes@, 0, id, tx),
            tx == trex_defaults(boxes@, id),
            whole == cat_runs(out@, runs_from(boxes@, i as int, id, tx)),
        decreases boxes@.len() - i,
    {
        let b = &boxes[i];
        if same_text(b.typ.as_str(), "moof") {
            match &b.children {
                Some(kids) => {
                    let ghost mid = out@;
                    let mut j: usize = 0;
                    proof {
                        match moof_runs(kids@, 0, b.offset, id, tx) {
                            Some(a) => {
                                match runs_from(boxes@, i + 1, id, tx) {
                                    Some(rest) => {
                                        assert(mid + (a + rest) =~= (mid + a) + rest);
                                    },
                                    None => {},
                                }
                            },
                            None => {},
                        }
                        assert(out@.subrange(mid.len() as int, out@.len() as int) =~= Seq::<FragRun<'a>>::empty());
                        match moof_runs(kids@, 0, b.offset, id, tx) {
                            Some(a) => {
                                assert(Seq::<FragRun<'a>>::empty() + a =~= a);
                            },
                            None => {},
                        }
                    }
                    while j < kids.len()
                        invariant
                            j <= kids@.len(),
                            i < boxes@.len(),
                            b == boxes@[i as int],
                            b.typ@ == "moof"@,
                            whole == runs_from(boxes@, 0, id, tx),
                            tx == trex_defaults(boxes@, id),
                            whole == cat_runs(mid, runs_from(boxes@, i as int, id, tx)),
                            b.children == Some(*kids),
                            out@.len() >= mid.len(),
                            out@.subrange(0, mid.len() as int) == mid,
                            moof_runs(kids@, 0, b.offset, id, tx) == cat_runs(
                                out@.subrange(mid.len() as int, out@.len() as int),
                                moof_runs(kids@, j as int, b.offset, id, tx),
                            ),
                        decreases kids@.len() - j,
                    {
                        let ghost prev = out@;
                        if !collect_traf(&kids[j], b.offset, id, tx, &mut out) {
                            proof {
                                assert(moof_runs(kids@, j as int, b.offset, id, tx) is None);
                                assert(moof_runs(kids@, 0, b.offset, id, tx) is None);
                                assert(whole is None);
                            }
                            return None;
                        }
                        proof {
                            let t = traf_runs(kids@[j as int], b.offset, id, tx).unwrap();
                            assert(out@.subrange(0, mid.len() as int) =~= prev.subrange(0, mid.len() as int));
                            assert(out@.subrange(mid.len() as int, out@.len() as int) =~= prev.subrange(mid.len() as int, prev.len() as int) + t);
                            match moof_runs(kids@, j + 1, b.offset, id, tx) {
                                Some(rest) => {
                                    assert(prev.subrange(mid.len() as int, prev.len() as int) + (t + rest) =~= (prev.subrange(mid.len() as int, prev.len() as int) + t) + rest);
                                },
                                None => {},
                            }
                        }
                        j = j + 1;
                    }
                    proof {
                        let a = out@.subrange(mid.len() as int, out@.len() as int);
                        assert(moof_runs(kids@, j as int, b.offset, id, tx) == Some(Seq::<FragRun<'a>>::empty()));
                        assert(a + Seq::<FragRun<'a>>::empty() =~= a);
                        assert(out@ =~= mid + a);
                        match runs_from(boxes@, i + 1, id, tx) {
                            Some(rest) => {
                                assert(mid + (a + rest) =~= (mid + a) + rest);
                            },
                            None => {},
                        }
                    }
                },
                None => {},
            }
        }
        i = i + 1;
    }
    proof {
        assert(out@ + Seq::<FragRun<'a>>::empty() =~= out@);
    }
    Some(out)
}

// ---------- tracks ----------

/// Decode time after the last of a track's samples (0 when it has none).
pub open spec fn samples_end(ts: TrackSamples) -> int {
    if ts.samples@.len() == 0 {
        0
    } else {
        ts.samples@.last().dts + ts.samples@.last().duration
    }
}

/// The walk over `rs` after the samples of `p` fits.
pub open spec fn frag_fits(p: TrackSamples, rs: Seq<FragRun>) -> bool {
    &&& samples_end(p) <= u64::MAX
    &&& p.samples@.len() <= u32::MAX
    &&& runs_fit(rs, samples_end(p), 0, p.samples@.len() as int)
}

/// `t` is the track `p` with the samples of `rs` appended: numbered on,
/// timed from the end of `p`'s samples, counted, and with the duration
/// taken from where the walk ends when `p` has none.
pub open spec fn frag_track(p: TrackSamples, rs: Seq<FragRun>, r: Result<TrackSamples, String>) -> bool {
    if rs.len() == 0 {
        r matches Ok(t) && {
            &&& t.track_id == p.track_id
            &&& t.handler_type@ == p.handler_type@
            &&& t.timescale == p.timescale
            &&& t.duration == p.duration
            &&& t.sample_count == p.sample_count
            &&& t.samples@ == p.samples@
        }
    } else if !frag_fits(p, rs) {
        r matches Err(m) && m@ == "sample file offsets overflow"@
    } else {
        r matches Ok(t) && {
            let n0 = p.samples@.len() as int;
            let d0 = samples_end(p);
            &&& t.track_id == p.track_id
            &&& t.handler_type@ == p.handler_type@
            &&& t.timescale == p.timescale
            &&& n0 <= t.samples@.len()
            &&& t.samples@.subrange(0, n0) == p.samples@
            &&& frag_samples_are(t.samples@.subrange(n0, t.samples@.len() as int), rs, d0, 0, n0)
            &&& t.sample_count == t.samples@.len() as u32
            &&& t.duration == if p.duration == 0 {
                runs_pos(rs, rs.len() as int, d0, 0).0 as u64
            } else {
                p.duration
            }
        }
    }
}

/// Appends the samples of the runs `runs` to a track's samples.
pub fn append_fragments(p: TrackSamples, runs: &Vec<FragRun>) -> (r: Result<TrackSamples, String>)
    ensures
        frag_track(p, runs@, r),
{
    if runs.len() == 0 {
        return Ok(p);
    }
    let ghost p0 = p;
    let mut t = p;
    let n0 = t.samples.len();
    let d0: u64 = if n0 == 0 {
        0
    } else {
        let last = t.samples[n0 - 1];
        if last.duration as u64 > u64::MAX - last.dts {
            return Err("sample file offsets overflow".to_owned());
        }
        last.dts + last.duration as u64
    };
    if n0 > 0xffff_ffff {
        return Err("sample file offsets overflow".to_owned());
    }
    match walk_runs(runs, d0, 0, n0 as u32, &mut t.samples) {
        None => Err("sample file offsets overflow".to_owned()),
        Some(end) => {
            let cnt = t.samples.len();
            t.sample_count = cnt as u32;
            if t.duration == 0 {
                t.duration = end.0;
            }
            proof {
                assert(d0 == samples_end(p0));
            }
            Ok(t)
        },
    }
}

/// One sample table of a track as extraction computes it, when it does not
/// fail.
pub open spec fn prog_samples(trak: Box) -> TrackSamples {
    choose|p: TrackSamples| track_result(trak, Ok(p))
}

/// What extracting the samples of `trak`, fragments of the file included,
/// gives.
pub open spec fn full_track(boxes: Seq<Box>, trak: Box, r: Result<TrackSamples, String>) -> bool {
    if track_fails(trak) {
        track_result(trak, r)
    } else {
        let p = prog_samples(trak);
        match track_runs(boxes, p.track_id) {
            None => r matches Err(m) && m@ == "sample file offsets overflow"@,
            Some(rs) => frag_track(p, rs, r),
        }
    }
}

/// Whether extracting the samples of `trak`, fragments included, fails.
pub open spec fn full_fails(boxes: Seq<Box>, trak: Box) -> bool {
    track_fails(trak) || {
        let p = prog_samples(trak);
        match track_runs(boxes, p.track_id) {
            None => true,
            Some(rs) => rs.len() > 0 && !frag_fits(p, rs),
        }
    }
}

/// Two results of extracting the same track agree.
proof fn lemma_track_result_unique(trak: Box, a: TrackSamples, b: TrackSamples)
    requires
        track_result(trak, Ok(a)),
        track_result(trak, Ok(b)),
    ensures
        a.track_id == b.track_id,
        a.handler_type@ == b.handler_type@,
        a.timescale == b.timescale,
        a.duration == b.duration,
        a.sample_count == b.sample_count,
        a.samples@ == b.samples@,
{
    assert(a.samples@ =~= b.samples@);
}

/// Extracts the samples of one track, followed by those of its fragments.
pub fn track_with_fragments(boxes: &Vec<Box>, trak: &Box) -> (r: Result<TrackSamples, String>)
    ensures
        full_track(boxes@, *trak, r),
        r is Err <==> full_fails(boxes@, *trak),
{
    let x = crate::samples::extract_track_samples(trak)?;
    let ghost p = prog_samples(*trak);
    proof {
        lemma_track_result_unique(*trak, x, p);
    }
    let runs = match find_track_runs(boxes, x.track_id) {
        Some(rs) => rs,
        None => return Err("sample file offsets overflow".to_owned()),
    };
    let r = append_fragments(x, &runs);
    proof {
        assert(samples_end(x) == samples_end(p));
    }
    r
}

} // verus!
