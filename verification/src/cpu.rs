//! The CPU adapter's parsing and matching: grouping logical processors by
//! physical id from the cpuinfo text, averaging per-package frequencies,
//! and matching hwmon nodes to physical CPUs. The file reads are the
//! caller's.

use vstd::prelude::*;
use vstd::string::StringSliceAdditionalSpecFns;

use crate::device::{Device, Mhz};
use crate::error::CCError;
use crate::hwmon::HwmonChannelInfo;
use crate::text;

verus! {

/// The id of a physical CPU package.
pub type PhysicalID = u8;

/// The id of one logical processor.
pub type ProcessorID = u16;

/// The grouping state while walking cpuinfo entries: the groups built so
/// far and the values seen since the last completed entry.
pub struct CpuParseState {
    pub infos: Seq<(PhysicalID, Seq<ProcessorID>)>,
    pub names: Seq<(PhysicalID, Seq<u8>)>,
    pub proc_id: ProcessorID,
    pub phys_id: PhysicalID,
    pub model: Seq<u8>,
    pub proc_seen: bool,
    pub phys_seen: bool,
    pub model_seen: bool,
}

/// The groups with `proc` appended to the entry of `phys`, or a new entry
/// at the end.
pub open spec fn spec_append_info(
    infos: Seq<(PhysicalID, Seq<ProcessorID>)>,
    phys: PhysicalID,
    proc_id: ProcessorID,
) -> Seq<(PhysicalID, Seq<ProcessorID>)>
    decreases infos.len(),
{
    if infos.len() == 0 {
        seq![(phys, seq![proc_id])]
    } else if infos[0].0 == phys {
        seq![(phys, infos[0].1.push(proc_id))] + infos.drop_first()
    } else {
        seq![infos[0]] + spec_append_info(infos.drop_first(), phys, proc_id)
    }
}

/// The names with the entry of `phys` set to `name`, or a new entry at
/// the end.
pub open spec fn spec_upsert_name(
    names: Seq<(PhysicalID, Seq<u8>)>,
    phys: PhysicalID,
    name: Seq<u8>,
) -> Seq<(PhysicalID, Seq<u8>)>
    decreases names.len(),
{
    if names.len() == 0 {
        seq![(phys, name)]
    } else if names[0].0 == phys {
        seq![(phys, name)] + names.drop_first()
    } else {
        seq![names[0]] + spec_upsert_name(names.drop_first(), phys, name)
    }
}

/// One cpuinfo key-value pair folded into the grouping state: an entry
/// completes once its processor, physical id and model name have all been
/// seen. An unparsable id is an error, as the standard parse would raise.
pub open spec fn spec_cpu_fold_step(st: CpuParseState, key: Seq<u8>, value: Seq<u8>) -> Result<
    CpuParseState,
    (),
> {
    let st1 = if key == "processor".spec_bytes() {
        match text::spec_parse_uint(value, 65535) {
            Ok(v) => Ok(
                CpuParseState { proc_id: v as ProcessorID, proc_seen: true, ..st },
            ),
            Err(_) => Err(()),
        }
    } else if key == "model name".spec_bytes() {
        Ok(CpuParseState { model: value, model_seen: true, ..st })
    } else if key == "physical id".spec_bytes() {
        match text::spec_parse_uint(value, 255) {
            Ok(v) => Ok(CpuParseState { phys_id: v as PhysicalID, phys_seen: true, ..st }),
            Err(_) => Err(()),
        }
    } else {
        Ok(st)
    };
    match st1 {
        Err(e) => Err(e),
        Ok(s) => {
            if s.proc_seen && s.phys_seen && s.model_seen {
                Ok(
                    CpuParseState {
                        infos: spec_append_info(s.infos, s.phys_id, s.proc_id),
                        names: spec_upsert_name(s.names, s.phys_id, s.model),
                        proc_seen: false,
                        phys_seen: false,
                        model_seen: false,
                        ..s
                    },
                )
            } else {
                Ok(s)
            }
        },
    }
}

/// The key and value of a cpuinfo line, split at the first colon and
/// trimmed; a line without a colon carries nothing.
pub open spec fn spec_kv_of_line(line: Seq<u8>) -> Option<(Seq<u8>, Seq<u8>)> {
    match text::spec_find(line, 58, 0) {
        Some(i) => Some((text::spec_trim(line.take(i)), text::spec_trim(line.skip(i + 1)))),
        None => None,
    }
}

/// The grouping state after folding every line of a cpuinfo text.
pub open spec fn spec_cpu_fold(lines: Seq<Seq<u8>>, st: CpuParseState) -> Result<CpuParseState, ()>
    decreases lines.len(),
{
    if lines.len() == 0 {
        Ok(st)
    } else {
        let rest = spec_cpu_fold(lines.drop_last(), st);
        match rest {
            Err(e) => Err(e),
            Ok(s) => match spec_kv_of_line(lines.last()) {
                None => Ok(s),
                Some(kv) => spec_cpu_fold_step(s, kv.0, kv.1),
            },
        }
    }
}

/// The empty grouping state.
pub open spec fn spec_cpu_state_empty() -> CpuParseState {
    CpuParseState {
        infos: Seq::empty(),
        names: Seq::empty(),
        proc_id: 0,
        phys_id: 0,
        model: Seq::empty(),
        proc_seen: false,
        phys_seen: false,
        model_seen: false,
    }
}

/// The Raspberry-Pi fallback over the same lines: without physical ids,
/// every processor joins the one package 0, named by the "Model" key.
pub open spec fn spec_cpu_fallback_fold(lines: Seq<Seq<u8>>, st: CpuParseState) -> Result<
    CpuParseState,
    (),
>
    decreases lines.len(),
{
    if lines.len() == 0 {
        Ok(st)
    } else {
        let rest = spec_cpu_fallback_fold(lines.drop_last(), st);
        match rest {
            Err(e) => Err(e),
            Ok(s) => match spec_kv_of_line(lines.last()) {
                None => Ok(s),
                Some(kv) => {
                    if kv.0 == "processor".spec_bytes() {
                        match text::spec_parse_uint(kv.1, 65535) {
                            Ok(v) => Ok(
                                CpuParseState {
                                    infos: spec_append_info(s.infos, 0, v as ProcessorID),
                                    ..s
                                },
                            ),
                            Err(_) => Err(()),
                        }
                    } else if kv.0 == "Model".spec_bytes() {
                        Ok(CpuParseState { names: spec_upsert_name(s.names, 0, kv.1), ..s })
                    } else {
                        Ok(s)
                    }
                },
            },
        }
    }
}

/// Appends a processor to its package's group, in first-seen package
/// order.
fn append_info(
    infos: &mut Vec<(PhysicalID, Vec<ProcessorID>)>,
    phys: PhysicalID,
    proc_id: ProcessorID,
)
    ensures
        final(infos)@.map_values(|p: (PhysicalID, Vec<ProcessorID>)| (p.0, p.1@))
            == spec_append_info(
            old(infos)@.map_values(|p: (PhysicalID, Vec<ProcessorID>)| (p.0, p.1@)),
            phys,
            proc_id,
        ),
{
    let ghost iv = infos@.map_values(|p: (PhysicalID, Vec<ProcessorID>)| (p.0, p.1@));
    let n = infos.len();
    let mut i: usize = 0;
    while i < n
        invariant
            i <= n,
            n == infos@.len(),
            iv == infos@.map_values(|p: (PhysicalID, Vec<ProcessorID>)| (p.0, p.1@)),
            infos@ == old(infos)@,
            forall|a: int| 0 <= a < i ==> (#[trigger] iv[a]).0 != phys,
        decreases n - i,
    {
        if infos[i].0 == phys {
            let mut entry = infos.remove(i);
            entry.1.push(proc_id);
            infos.insert(i, entry);
            proof {
                lemma_append_info_at(iv, phys, proc_id, i as int);
                assert(infos@.map_values(|p: (PhysicalID, Vec<ProcessorID>)| (p.0, p.1@))
                    =~= iv.update(i as int, (phys, iv[i as int].1.push(proc_id))));
            }
            return ;
        }
        i = i + 1;
    }
    infos.push((phys, {
        let mut v: Vec<ProcessorID> = Vec::new();
        v.push(proc_id);
        v
    }));
    proof {
        lemma_append_info_missing(iv, phys, proc_id);
        assert(infos@.map_values(|p: (PhysicalID, Vec<ProcessorID>)| (p.0, p.1@)) =~= iv.push(
            (phys, seq![proc_id]),
        ));
    }
}

/// Appending to a present package updates its entry in place.
proof fn lemma_append_info_at(
    infos: Seq<(PhysicalID, Seq<ProcessorID>)>,
    phys: PhysicalID,
    proc_id: ProcessorID,
    i: int,
)
    requires
        0 <= i < infos.len(),
        infos[i].0 == phys,
        forall|a: int| 0 <= a < i ==> (#[trigger] infos[a]).0 != phys,
    ensures
        spec_append_info(infos, phys, proc_id) =~= infos.update(
            i,
            (phys, infos[i].1.push(proc_id)),
        ),
    decreases i,
{
    if i == 0 {
        assert(spec_append_info(infos, phys, proc_id) =~= seq![
            (phys, infos[0].1.push(proc_id)),
        ] + infos.drop_first());
    } else {
        assert(infos.drop_first()[i - 1].0 == phys);
        assert(forall|a: int| 0 <= a < i - 1 ==> (#[trigger] infos.drop_first()[a]).0 != phys);
        lemma_append_info_at(infos.drop_first(), phys, proc_id, i - 1);
        assert(spec_append_info(infos, phys, proc_id) =~= infos.update(
            i,
            (phys, infos[i].1.push(proc_id)),
        ));
    }
}

/// Appending to an absent package adds a new entry at the end.
proof fn lemma_append_info_missing(
    infos: Seq<(PhysicalID, Seq<ProcessorID>)>,
    phys: PhysicalID,
    proc_id: ProcessorID,
)
    requires
        forall|a: int| 0 <= a < infos.len() ==> (#[trigger] infos[a]).0 != phys,
    ensures
        spec_append_info(infos, phys, proc_id) =~= infos.push((phys, seq![proc_id])),
    decreases infos.len(),
{
    if infos.len() > 0 {
        assert(forall|a: int|
            0 <= a < infos.drop_first().len() ==> (#[trigger] infos.drop_first()[a]).0 != phys);
        lemma_append_info_missing(infos.drop_first(), phys, proc_id);
        assert(spec_append_info(infos, phys, proc_id) =~= infos.push((phys, seq![proc_id])));
    }
}

/// Sets a package's name, in first-seen package order.
fn upsert_name(names: &mut Vec<(PhysicalID, Vec<u8>)>, phys: PhysicalID, name: Vec<u8>)
    ensures
        final(names)@.map_values(|p: (PhysicalID, Vec<u8>)| (p.0, p.1@)) == spec_upsert_name(
            old(names)@.map_values(|p: (PhysicalID, Vec<u8>)| (p.0, p.1@)),
            phys,
            name@,
        ),
{
    let ghost nv = names@.map_values(|p: (PhysicalID, Vec<u8>)| (p.0, p.1@));
    let n = names.len();
    let mut i: usize = 0;
    while i < n
        invariant
            i <= n,
            n == names@.len(),
            nv == names@.map_values(|p: (PhysicalID, Vec<u8>)| (p.0, p.1@)),
            names@ == old(names)@,
            forall|a: int| 0 <= a < i ==> (#[trigger] nv[a]).0 != phys,
        decreases n - i,
    {
        if names[i].0 == phys {
            let ghost name_v = name@;
            names.remove(i);
            names.insert(i, (phys, name));
            proof {
                lemma_upsert_name_at(nv, phys, name_v, i as int);
                assert(names@.map_values(|p: (PhysicalID, Vec<u8>)| (p.0, p.1@)) =~= nv.update(
                    i as int,
                    (phys, name_v),
                ));
            }
            return ;
        }
        i = i + 1;
    }
    let ghost name_v = name@;
    names.push((phys, name));
    proof {
        lemma_upsert_name_missing(nv, phys, name_v);
        assert(names@.map_values(|p: (PhysicalID, Vec<u8>)| (p.0, p.1@)) =~= nv.push(
            (phys, name_v),
        ));
    }
}

proof fn lemma_upsert_name_at(
    names: Seq<(PhysicalID, Seq<u8>)>,
    phys: PhysicalID,
    name: Seq<u8>,
    i: int,
)
    requires
        0 <= i < names.len(),
        names[i].0 == phys,
        forall|a: int| 0 <= a < i ==> (#[trigger] names[a]).0 != phys,
    ensures
        spec_upsert_name(names, phys, name) =~= names.update(i, (phys, name)),
    decreases i,
{
    if i == 0 {
        assert(spec_upsert_name(names, phys, name) =~= seq![(phys, name)] + names.drop_first());
    } else {
        assert(names.drop_first()[i - 1].0 == phys);
        assert(forall|a: int| 0 <= a < i - 1 ==> (#[trigger] names.drop_first()[a]).0 != phys);
        lemma_upsert_name_at(names.drop_first(), phys, name, i - 1);
        assert(spec_upsert_name(names, phys, name) =~= names.update(i, (phys, name)));
    }
}

proof fn lemma_upsert_name_missing(names: Seq<(PhysicalID, Seq<u8>)>, phys: PhysicalID, name: Seq<u8>)
    requires
        forall|a: int| 0 <= a < names.len() ==> (#[trigger] names[a]).0 != phys,
    ensures
        spec_upsert_name(names, phys, name) =~= names.push((phys, name)),
    decreases names.len(),
{
    if names.len() > 0 {
        assert(forall|a: int|
            0 <= a < names.drop_first().len() ==> (#[trigger] names.drop_first()[a]).0 != phys);
        lemma_upsert_name_missing(names.drop_first(), phys, name);
        assert(spec_upsert_name(names, phys, name) =~= names.push((phys, name)));
    }
}


/// Sorts a processor list ascending, keeping exactly its elements.
fn sort_processor_list(v: &mut Vec<ProcessorID>)
    ensures
        final(v)@.len() == old(v)@.len(),
        final(v)@.to_multiset() == old(v)@.to_multiset(),
        forall|a: int, b: int| 0 <= a < b < final(v)@.len() ==> final(v)@[a] <= final(v)@[b],
{
    broadcast use vstd::seq_lib::group_to_multiset_ensures;

    let mut i: usize = 1;
    while i < v.len()
        invariant
            1 <= i <= v@.len() || v@.len() == 0,
            v@.len() == old(v)@.len(),
            v@.to_multiset() == old(v)@.to_multiset(),
            forall|a: int, b: int| 0 <= a < b < i ==> v@[a] <= v@[b],
        decreases v@.len() - i,
    {
        let x = v[i];
        let mut j: usize = i;
        while j > 0 && v[j - 1] > x
            invariant
                j <= i < v@.len(),
                x == v@[i as int],
                forall|a: int| j <= a < i ==> #[trigger] v@[a] >= x || a == i,
                forall|a: int| j < a <= i ==> #[trigger] v@[a - 1] > x || a - 1 == i,
                forall|a: int, b: int| 0 <= a < b < i ==> v@[a] <= v@[b],
            decreases j,
        {
            j = j - 1;
        }
        let ghost before = v@;
        v.remove(i);
        v.insert(j, x);
        proof {
            broadcast use vstd::seq_lib::group_to_multiset_ensures;

            let after = v@;
            assert(after =~= before.remove(i as int).insert(j as int, x));
            assert(after.to_multiset() == before.to_multiset()) by {
                vstd::seq_lib::to_multiset_remove(before, i as int);
                vstd::seq_lib::to_multiset_insert(before.remove(i as int), j as int, x);
            }
            assert forall|a: int, b: int| 0 <= a < b < i + 1 implies after[a] <= after[b] by {
                if b < j {
                    assert(after[a] == before[a] && after[b] == before[b]);
                } else if b == j {
                    assert(after[b] == x);
                    if a < j {
                        assert(after[a] == before[a]);
                        assert(!(before[a] > x));
                    }
                } else {
                    assert(after[b] == before[b - 1]);
                    assert(before[b - 1] >= x || b - 1 == i);
                    if a < j {
                        assert(after[a] == before[a]);
                    } else if a == j {
                        assert(after[a] == x);
                    } else {
                        assert(after[a] == before[a - 1]);
                    }
                }
            }
        }
        i = i + 1;
    }
}

/// An error at any prefix makes the whole fold an error.
proof fn lemma_cpu_fold_prefix_err(lines: Seq<Seq<u8>>, st: CpuParseState, k: int)
    requires
        0 <= k <= lines.len(),
        spec_cpu_fold(lines.take(k), st) is Err,
    ensures
        spec_cpu_fold(lines, st) is Err,
    decreases lines.len() - k,
{
    if k < lines.len() {
        assert(lines.take(k + 1).drop_last() =~= lines.take(k));
        lemma_cpu_fold_prefix_err(lines, st, k + 1);
    } else {
        assert(lines.take(k) =~= lines);
    }
}

/// An error at any prefix makes the whole fallback fold an error.
proof fn lemma_cpu_fallback_prefix_err(lines: Seq<Seq<u8>>, st: CpuParseState, k: int)
    requires
        0 <= k <= lines.len(),
        spec_cpu_fallback_fold(lines.take(k), st) is Err,
    ensures
        spec_cpu_fallback_fold(lines, st) is Err,
    decreases lines.len() - k,
{
    if k < lines.len() {
        assert(lines.take(k + 1).drop_last() =~= lines.take(k));
        lemma_cpu_fallback_prefix_err(lines, st, k + 1);
    } else {
        assert(lines.take(k) =~= lines);
    }
}

/// The repository of physical-CPU devices: the grouping parsed from
/// cpuinfo and the device records built from it.
pub struct CpuRepo {
    pub cpu_infos: Vec<(PhysicalID, Vec<ProcessorID>)>,
    pub cpu_model_names: Vec<(PhysicalID, Vec<u8>)>,
    pub devices: Vec<Device>,
    pub poll_rate_ms: u64,
}

impl CpuRepo {
    /// The ghost image of the processor grouping.
    pub open spec fn spec_infos(&self) -> Seq<(PhysicalID, Seq<ProcessorID>)> {
        self.cpu_infos@.map_values(|p: (PhysicalID, Vec<ProcessorID>)| (p.0, p.1@))
    }

    /// The ghost image of the model names.
    pub open spec fn spec_names(&self) -> Seq<(PhysicalID, Seq<u8>)> {
        self.cpu_model_names@.map_values(|p: (PhysicalID, Vec<u8>)| (p.0, p.1@))
    }

    pub fn new(poll_rate_ms: u64) -> (r: CpuRepo)
        requires
            crate::device::valid_poll_rate_ms(poll_rate_ms),
        ensures
            r.spec_infos() == Seq::<(PhysicalID, Seq<ProcessorID>)>::empty(),
            r.spec_names() == Seq::<(PhysicalID, Seq<u8>)>::empty(),
            r.devices@.len() == 0,
            r.poll_rate_ms == poll_rate_ms,
    {
        let r = CpuRepo {
            cpu_infos: Vec::new(),
            cpu_model_names: Vec::new(),
            devices: Vec::new(),
            poll_rate_ms,
        };
        proof {
            assert(r.spec_infos() =~= Seq::<(PhysicalID, Seq<ProcessorID>)>::empty());
            assert(r.spec_names() =~= Seq::<(PhysicalID, Seq<u8>)>::empty());
        }
        r
    }

    /// Parses the cpuinfo text into the processor grouping and model
    /// names, each group sorted. Uses the Raspberry-Pi fallback — one
    /// package, id 0, named by the "Model" key — when no entry carries a
    /// physical id; fails when the text yields no usable grouping at all,
    /// or an id does not parse. On failure nothing changes.
    pub fn set_cpu_infos(&mut self, cpu_info_data: &Vec<u8>) -> (r: Result<(), CCError>)
        ensures
            final(self).devices == old(self).devices,
            final(self).poll_rate_ms == old(self).poll_rate_ms,
            r is Err ==> final(self).cpu_infos == old(self).cpu_infos && final(self).cpu_model_names == old(self).cpu_model_names,
            ({
                let lines = text::spec_lines(cpu_info_data@);
                match spec_cpu_fold(lines, spec_cpu_state_empty()) {
                    Err(_) => r is Err,
                    Ok(st) => {
                        let chosen = if st.infos.len() == 0 && st.names.len() == 0 {
                            spec_cpu_fallback_fold(lines, st)
                        } else {
                            Ok(st)
                        };
                        match chosen {
                            Err(_) => r is Err,
                            Ok(s2) => {
                                if s2.infos.len() > 0 && s2.names.len() > 0 {
                                    &&& r is Ok
                                    &&& final(self).spec_names() == s2.names
                                    &&& final(self).spec_infos().len() == s2.infos.len()
                                    &&& forall|k: int|
                                        0 <= k < s2.infos.len() ==> {
                                            let entry = #[trigger] final(self).spec_infos()[k];
                                            &&& entry.0 == s2.infos[k].0
                                            &&& entry.1.to_multiset()
                                                == s2.infos[k].1.to_multiset()
                                            &&& entry.1.len() == s2.infos[k].1.len()
                                            &&& forall|a: int, b: int|
                                                0 <= a < b < entry.1.len() ==> entry.1[a]
                                                    <= entry.1[b]
                                        }
                                } else {
                                    r is Err
                                }
                            },
                        }
                    },
                }
            }),
    {
        let lines = text::split_lines(cpu_info_data.as_slice());
        let ghost lines_v = lines@.map_values(|l: Vec<u8>| l@);
        let mut infos: Vec<(PhysicalID, Vec<ProcessorID>)> = Vec::new();
        let mut names: Vec<(PhysicalID, Vec<u8>)> = Vec::new();
        let mut proc_id: ProcessorID = 0;
        let mut phys_id: PhysicalID = 0;
        let mut model: Vec<u8> = Vec::new();
        let mut proc_seen = false;
        let mut phys_seen = false;
        let mut model_seen = false;

        let n = lines.len();
        let mut i: usize = 0;
        proof {
            assert(lines_v.take(0) =~= Seq::<Seq<u8>>::empty());
            assert(infos@.map_values(|p: (PhysicalID, Vec<ProcessorID>)| (p.0, p.1@))
                =~= spec_cpu_state_empty().infos);
            assert(names@.map_values(|p: (PhysicalID, Vec<u8>)| (p.0, p.1@))
                =~= spec_cpu_state_empty().names);
            assert(model@ =~= spec_cpu_state_empty().model);
        }
        while i < n
            invariant
                i <= n,
                n == lines@.len(),
                lines_v == lines@.map_values(|l: Vec<u8>| l@),
                lines_v == text::spec_lines(cpu_info_data@),
                self == old(self),
                spec_cpu_fold(lines_v.take(i as int), spec_cpu_state_empty()) == Ok::<
                    CpuParseState,
                    (),
                >(
                    CpuParseState {
                        infos: infos@.map_values(
                            |p: (PhysicalID, Vec<ProcessorID>)| (p.0, p.1@),
                        ),
                        names: names@.map_values(|p: (PhysicalID, Vec<u8>)| (p.0, p.1@)),
                        proc_id: proc_id,
                        phys_id: phys_id,
                        model: model@,
                        proc_seen: proc_seen,
                        phys_seen: phys_seen,
                        model_seen: model_seen,
                    },
                ),
            decreases n - i,
        {
            proof {
                assert(lines_v.take(i + 1).drop_last() =~= lines_v.take(i as int));
                assert(lines_v.take(i + 1).last() == lines_v[i as int]);
                assert(lines_v[i as int] == lines@[i as int]@);
            }
            match text::split_once_byte(lines[i].as_slice(), 58) {
                None => {},
                Some((k, v)) => {
                    let key = text::trim_bytes(k.as_slice());
                    let value = text::trim_bytes(v.as_slice());
                    if text::bytes_eq(key.as_slice(), "processor".as_bytes()) {
                        match text::parse_uint_bytes(value.as_slice(), 65535) {
                            Ok(p) => {
                                proc_id = p as ProcessorID;
                                proc_seen = true;
                            },
                            Err(_) => {
                                proof {
                                    assert(spec_kv_of_line(lines_v[i as int]) == Some(
                                        (key@, value@),
                                    ));
                                    assert(spec_cpu_fold(
                                        lines_v.take(i + 1),
                                        spec_cpu_state_empty(),
                                    ) is Err);
                                    lemma_cpu_fold_prefix_err(
                                        lines_v,
                                        spec_cpu_state_empty(),
                                        i + 1,
                                    );
                                }
                                return Err(
                                    CCError::InternalError {
                                        msg: "invalid processor id in cpuinfo".to_owned(),
                                    },
                                );
                            },
                        }
                    } else if text::bytes_eq(key.as_slice(), "model name".as_bytes()) {
                        model = value;
                        model_seen = true;
                    } else if text::bytes_eq(key.as_slice(), "physical id".as_bytes()) {
                        match text::parse_uint_bytes(value.as_slice(), 255) {
                            Ok(p) => {
                                phys_id = p as PhysicalID;
                                phys_seen = true;
                            },
                            Err(_) => {
                                proof {
                                    assert(spec_kv_of_line(lines_v[i as int]) == Some(
                                        (key@, value@),
                                    ));
                                    assert(spec_cpu_fold(
                                        lines_v.take(i + 1),
                                        spec_cpu_state_empty(),
                                    ) is Err);
                                    lemma_cpu_fold_prefix_err(
                                        lines_v,
                                        spec_cpu_state_empty(),
                                        i + 1,
                                    );
                                }
                                return Err(
                                    CCError::InternalError {
                                        msg: "invalid physical id in cpuinfo".to_owned(),
                                    },
                                );
                            },
                        }
                    }
                    if proc_seen && phys_seen && model_seen {
                        append_info(&mut infos, phys_id, proc_id);
                        upsert_name(&mut names, phys_id, model.clone());
                        proc_seen = false;
                        phys_seen = false;
                        model_seen = false;
                    }
                },
            }
            i = i + 1;
        }
        proof {
            assert(lines_v.take(n as int) =~= lines_v);
        }

        if infos.len() == 0 && names.len() == 0 {
            let mut j: usize = 0;
            proof {
                assert(infos@.map_values(|p: (PhysicalID, Vec<ProcessorID>)| (p.0, p.1@))
                    =~= Seq::<(PhysicalID, Seq<ProcessorID>)>::empty());
                assert(names@.map_values(|p: (PhysicalID, Vec<u8>)| (p.0, p.1@)) =~= Seq::<
                    (PhysicalID, Seq<u8>),
                >::empty());
                assert(lines_v.take(0) =~= Seq::<Seq<u8>>::empty());
            }
            let ghost base_state = CpuParseState {
                infos: infos@.map_values(|p: (PhysicalID, Vec<ProcessorID>)| (p.0, p.1@)),
                names: names@.map_values(|p: (PhysicalID, Vec<u8>)| (p.0, p.1@)),
                proc_id: proc_id,
                phys_id: phys_id,
                model: model@,
                proc_seen: proc_seen,
                phys_seen: phys_seen,
                model_seen: model_seen,
            };
            while j < n
                invariant
                    j <= n,
                    n == lines@.len(),
                    lines_v == lines@.map_values(|l: Vec<u8>| l@),
                    lines_v == text::spec_lines(cpu_info_data@),
                    self == old(self),
                    spec_cpu_fold(lines_v, spec_cpu_state_empty()) == Ok::<CpuParseState, ()>(
                        base_state,
                    ),
                    base_state.infos.len() == 0,
                    base_state.names.len() == 0,
                    proc_id == base_state.proc_id,
                    phys_id == base_state.phys_id,
                    proc_seen == base_state.proc_seen,
                    phys_seen == base_state.phys_seen,
                    model_seen == base_state.model_seen,
                    model@ == base_state.model,
                    spec_cpu_fallback_fold(lines_v.take(j as int), base_state) == Ok::<
                        CpuParseState,
                        (),
                    >(
                        CpuParseState {
                            infos: infos@.map_values(
                                |p: (PhysicalID, Vec<ProcessorID>)| (p.0, p.1@),
                            ),
                            names: names@.map_values(|p: (PhysicalID, Vec<u8>)| (p.0, p.1@)),
                            ..base_state
                        },
                    ),
                decreases n - j,
            {
                proof {
                    assert(lines_v.take(j + 1).drop_last() =~= lines_v.take(j as int));
                    assert(lines_v.take(j + 1).last() == lines_v[j as int]);
                    assert(lines_v[j as int] == lines@[j as int]@);
                }
                match text::split_once_byte(lines[j].as_slice(), 58) {
                    None => {},
                    Some((k, v)) => {
                        let key = text::trim_bytes(k.as_slice());
                        let value = text::trim_bytes(v.as_slice());
                        if text::bytes_eq(key.as_slice(), "processor".as_bytes()) {
                            match text::parse_uint_bytes(value.as_slice(), 65535) {
                                Ok(p) => {
                                    append_info(&mut infos, 0, p as ProcessorID);
                                },
                                Err(_) => {
                                    proof {
                                        assert(spec_kv_of_line(lines_v[j as int]) == Some(
                                            (key@, value@),
                                        ));
                                        assert(spec_cpu_fallback_fold(
                                            lines_v.take(j + 1),
                                            base_state,
                                        ) is Err);
                                        lemma_cpu_fallback_prefix_err(lines_v, base_state, j + 1);
                                    }
                                    return Err(
                                        CCError::InternalError {
                                            msg: "invalid processor id in cpuinfo".to_owned(),
                                        },
                                    );
                                },
                            }
                        } else if text::bytes_eq(key.as_slice(), "Model".as_bytes()) {
                            upsert_name(&mut names, 0, value);
                        }
                    },
                }
                j = j + 1;
            }
            proof {
                assert(lines_v.take(n as int) =~= lines_v);
            }
        }

        if infos.len() > 0 && names.len() > 0 {
            let ghost pre_sort = infos@.map_values(
                |p: (PhysicalID, Vec<ProcessorID>)| (p.0, p.1@),
            );
            let m = infos.len();
            let mut k: usize = 0;
            while k < m
                invariant
                    k <= m,
                    m == infos@.len(),
                    self == old(self),
                    pre_sort.len() == m,
                    forall|a: int|
                        k <= a < m ==> #[trigger] infos@[a].0 == pre_sort[a].0 && infos@[a].1@
                            == pre_sort[a].1,
                    forall|a: int|
                        0 <= a < k ==> {
                            let entry = #[trigger] infos@[a];
                            &&& entry.0 == pre_sort[a].0
                            &&& entry.1@.to_multiset() == pre_sort[a].1.to_multiset()
                            &&& entry.1@.len() == pre_sort[a].1.len()
                            &&& forall|x: int, y: int|
                                0 <= x < y < entry.1@.len() ==> entry.1@[x] <= entry.1@[y]
                        },
                decreases m - k,
            {
                let mut entry = infos.remove(k);
                sort_processor_list(&mut entry.1);
                infos.insert(k, entry);
                k = k + 1;
            }
            self.cpu_infos = infos;
            self.cpu_model_names = names;
            proof {
                assert(self.spec_names() =~= names@.map_values(
                    |p: (PhysicalID, Vec<u8>)| (p.0, p.1@),
                ));
            }
            Ok(())
        } else {
            Err(
                CCError::InternalError {
                    msg: "cpuinfo either not found or missing data on this system".to_owned(),
                },
            )
        }
    }
}


/// Whether every byte is a decimal digit.
pub open spec fn spec_all_digits(bs: Seq<u8>) -> bool {
    forall|i: int| 0 <= i < bs.len() ==> text::spec_is_digit(#[trigger] bs[i])
}

/// The whole MHz a cpuinfo frequency value names: the integer part of a
/// plain decimal literal, as truncation would give; anything else — signs,
/// exponents, stray characters — does not parse.
pub open spec fn spec_mhz_of(bs: Seq<u8>) -> Option<int> {
    let split = match text::spec_find(bs, 46, 0) {
        Some(i) => (bs.take(i), spec_all_digits(bs.skip(i + 1))),
        None => (bs, true),
    };
    if !split.1 {
        None
    } else {
        match text::spec_parse_uint(split.0, 1_000_000_000) {
            Ok(v) => Some(v),
            Err(_) => None,
        }
    }
}

/// Parses a cpuinfo frequency value, as `spec_mhz_of` says.
fn parse_mhz(bs: &Vec<u8>) -> (r: Option<Mhz>)
    ensures
        match r {
            Some(v) => spec_mhz_of(bs@) == Some(v as int),
            None => spec_mhz_of(bs@) is None,
        },
{
    let (int_part, frac_ok): (Vec<u8>, bool) = match text::split_once_byte(bs.as_slice(), 46) {
        Some((left, right)) => {
            let mut ok = true;
            let mut i: usize = 0;
            while i < right.len()
                invariant
                    i <= right@.len(),
                    ok == forall|a: int| 0 <= a < i ==> text::spec_is_digit(#[trigger] right@[a]),
                decreases right@.len() - i,
            {
                if !(48 <= right[i] && right[i] <= 57) {
                    ok = false;
                }
                i = i + 1;
            }
            (left, ok)
        },
        None => (bs.clone(), true),
    };
    if !frac_ok {
        return None;
    }
    match text::parse_uint_bytes(int_part.as_slice(), 1_000_000_000) {
        Ok(v) => Some(v),
        Err(_) => None,
    }
}

/// The frequency-collection state: per-package frequency lists and the
/// values seen since the last completed pair.
pub struct FreqParseState {
    pub freqs: Seq<(PhysicalID, Seq<Mhz>)>,
    pub phys_id: PhysicalID,
    pub freq: Mhz,
    pub phys_seen: bool,
    pub freq_seen: bool,
}

pub open spec fn spec_freq_state_empty() -> FreqParseState {
    FreqParseState { freqs: Seq::empty(), phys_id: 0, freq: 0, phys_seen: false, freq_seen: false }
}

/// The groups with `freq` appended to the entry of `phys`.
pub open spec fn spec_append_freq(
    freqs: Seq<(PhysicalID, Seq<Mhz>)>,
    phys: PhysicalID,
    freq: Mhz,
) -> Seq<(PhysicalID, Seq<Mhz>)>
    decreases freqs.len(),
{
    if freqs.len() == 0 {
        seq![(phys, seq![freq])]
    } else if freqs[0].0 == phys {
        seq![(phys, freqs[0].1.push(freq))] + freqs.drop_first()
    } else {
        seq![freqs[0]] + spec_append_freq(freqs.drop_first(), phys, freq)
    }
}

/// One cpuinfo line folded into the frequency state; an unparsable value
/// abandons the collection.
pub open spec fn spec_freq_fold(lines: Seq<Seq<u8>>, st: FreqParseState) -> Result<
    FreqParseState,
    (),
>
    decreases lines.len(),
{
    if lines.len() == 0 {
        Ok(st)
    } else {
        match spec_freq_fold(lines.drop_last(), st) {
            Err(e) => Err(e),
            Ok(s) => match spec_kv_of_line(lines.last()) {
                None => Ok(s),
                Some(kv) => {
                    let s1 = if kv.0 == "physical id".spec_bytes() {
                        match text::spec_parse_uint(kv.1, 255) {
                            Ok(v) => Ok(
                                FreqParseState { phys_id: v as PhysicalID, phys_seen: true, ..s },
                            ),
                            Err(_) => Err(()),
                        }
                    } else if kv.0 == "cpu MHz".spec_bytes() {
                        match spec_mhz_of(kv.1) {
                            Some(v) => Ok(FreqParseState { freq: v as Mhz, freq_seen: true, ..s }),
                            None => Err(()),
                        }
                    } else {
                        Ok(s)
                    };
                    match s1 {
                        Err(e) => Err(e),
                        Ok(s2) => {
                            if s2.phys_seen && s2.freq_seen {
                                Ok(
                                    FreqParseState {
                                        freqs: spec_append_freq(s2.freqs, s2.phys_id, s2.freq),
                                        phys_seen: false,
                                        freq_seen: false,
                                        ..s2
                                    },
                                )
                            } else {
                                Ok(s2)
                            }
                        },
                    }
                },
            },
        }
    }
}

/// The truncated mean of a frequency list; zero for an empty one.
pub open spec fn spec_freq_avg(freqs: Seq<Mhz>) -> int
    recommends
        freqs.len() >= 1,
{
    if freqs.len() == 0 {
        0
    } else {
        spec_sum_freqs(freqs) / (freqs.len() as int)
    }
}

pub open spec fn spec_sum_freqs(freqs: Seq<Mhz>) -> int
    decreases freqs.len(),
{
    if freqs.len() == 0 {
        0
    } else {
        spec_sum_freqs(freqs.drop_last()) + freqs.last()
    }
}

/// Appends a frequency to its package's group.
fn append_freq(freqs: &mut Vec<(PhysicalID, Vec<Mhz>)>, phys: PhysicalID, freq: Mhz)
    ensures
        final(freqs)@.map_values(|p: (PhysicalID, Vec<Mhz>)| (p.0, p.1@)) == spec_append_freq(
            old(freqs)@.map_values(|p: (PhysicalID, Vec<Mhz>)| (p.0, p.1@)),
            phys,
            freq,
        ),
{
    let ghost fv = freqs@.map_values(|p: (PhysicalID, Vec<Mhz>)| (p.0, p.1@));
    let n = freqs.len();
    let mut i: usize = 0;
    while i < n
        invariant
            i <= n,
            n == freqs@.len(),
            fv == freqs@.map_values(|p: (PhysicalID, Vec<Mhz>)| (p.0, p.1@)),
            freqs@ == old(freqs)@,
            forall|a: int| 0 <= a < i ==> (#[trigger] fv[a]).0 != phys,
        decreases n - i,
    {
        if freqs[i].0 == phys {
            let mut entry = freqs.remove(i);
            entry.1.push(freq);
            freqs.insert(i, entry);
            proof {
                lemma_append_freq_at(fv, phys, freq, i as int);
                assert(freqs@.map_values(|p: (PhysicalID, Vec<Mhz>)| (p.0, p.1@)) =~= fv.update(
                    i as int,
                    (phys, fv[i as int].1.push(freq)),
                ));
            }
            return ;
        }
        i = i + 1;
    }
    freqs.push((phys, {
        let mut v: Vec<Mhz> = Vec::new();
        v.push(freq);
        v
    }));
    proof {
        lemma_append_freq_missing(fv, phys, freq);
        assert(freqs@.map_values(|p: (PhysicalID, Vec<Mhz>)| (p.0, p.1@)) =~= fv.push(
            (phys, seq![freq]),
        ));
    }
}

proof fn lemma_append_freq_at(freqs: Seq<(PhysicalID, Seq<Mhz>)>, phys: PhysicalID, freq: Mhz, i: int)
    requires
        0 <= i < freqs.len(),
        freqs[i].0 == phys,
        forall|a: int| 0 <= a < i ==> (#[trigger] freqs[a]).0 != phys,
    ensures
        spec_append_freq(freqs, phys, freq) =~= freqs.update(i, (phys, freqs[i].1.push(freq))),
    decreases i,
{
    if i == 0 {
        assert(spec_append_freq(freqs, phys, freq) =~= seq![
            (phys, freqs[0].1.push(freq)),
        ] + freqs.drop_first());
    } else {
        assert(freqs.drop_first()[i - 1].0 == phys);
        assert(forall|a: int| 0 <= a < i - 1 ==> (#[trigger] freqs.drop_first()[a]).0 != phys);
        lemma_append_freq_at(freqs.drop_first(), phys, freq, i - 1);
        assert(spec_append_freq(freqs, phys, freq) =~= freqs.update(
            i,
            (phys, freqs[i].1.push(freq)),
        ));
    }
}

proof fn lemma_append_freq_missing(freqs: Seq<(PhysicalID, Seq<Mhz>)>, phys: PhysicalID, freq: Mhz)
    requires
        forall|a: int| 0 <= a < freqs.len() ==> (#[trigger] freqs[a]).0 != phys,
    ensures
        spec_append_freq(freqs, phys, freq) =~= freqs.push((phys, seq![freq])),
    decreases freqs.len(),
{
    if freqs.len() > 0 {
        assert(forall|a: int|
            0 <= a < freqs.drop_first().len() ==> (#[trigger] freqs.drop_first()[a]).0 != phys);
        lemma_append_freq_missing(freqs.drop_first(), phys, freq);
        assert(spec_append_freq(freqs, phys, freq) =~= freqs.push((phys, seq![freq])));
    }
}

/// Collects the mean frequency per physical package from the cpuinfo
/// text: each "cpu MHz" value joins the preceding "physical id"'s list,
/// and each list is averaged, truncating. Any unparsable value abandons
/// the collection and yields nothing, as the early return would.
pub fn collect_freq(cpuinfo: &Vec<u8>) -> (r: Vec<(PhysicalID, Mhz)>)
    ensures
        ({
            let lines = text::spec_lines(cpuinfo@);
            match spec_freq_fold(lines, spec_freq_state_empty()) {
                Err(_) => r@.len() == 0,
                Ok(st) => {
                    &&& r@.len() == st.freqs.len()
                    &&& forall|k: int|
                        0 <= k < st.freqs.len() ==> (#[trigger] r@[k]).0 == st.freqs[k].0
                            && r@[k].1 == spec_freq_avg(st.freqs[k].1)
                },
            }
        }),
{
    let lines = text::split_lines(cpuinfo.as_slice());
    let ghost lines_v = lines@.map_values(|l: Vec<u8>| l@);
    let mut freqs: Vec<(PhysicalID, Vec<Mhz>)> = Vec::new();
    let mut phys_id: PhysicalID = 0;
    let mut freq: Mhz = 0;
    let mut phys_seen = false;
    let mut freq_seen = false;
    let n = lines.len();
    let mut i: usize = 0;
    proof {
        assert(lines_v.take(0) =~= Seq::<Seq<u8>>::empty());
        assert(freqs@.map_values(|p: (PhysicalID, Vec<Mhz>)| (p.0, p.1@))
            =~= spec_freq_state_empty().freqs);
    }
    while i < n
        invariant
            i <= n,
            n == lines@.len(),
            lines_v == lines@.map_values(|l: Vec<u8>| l@),
            lines_v == text::spec_lines(cpuinfo@),
            spec_freq_fold(lines_v.take(i as int), spec_freq_state_empty()) == Ok::<
                FreqParseState,
                (),
            >(
                FreqParseState {
                    freqs: freqs@.map_values(|p: (PhysicalID, Vec<Mhz>)| (p.0, p.1@)),
                    phys_id: phys_id,
                    freq: freq,
                    phys_seen: phys_seen,
                    freq_seen: freq_seen,
                },
            ),
        decreases n - i,
    {
        proof {
            assert(lines_v.take(i + 1).drop_last() =~= lines_v.take(i as int));
            assert(lines_v.take(i + 1).last() == lines_v[i as int]);
            assert(lines_v[i as int] == lines@[i as int]@);
        }
        match text::split_once_byte(lines[i].as_slice(), 58) {
            None => {},
            Some((k, v)) => {
                let key = text::trim_bytes(k.as_slice());
                let value = text::trim_bytes(v.as_slice());
                if text::bytes_eq(key.as_slice(), "physical id".as_bytes()) {
                    match text::parse_uint_bytes(value.as_slice(), 255) {
                        Ok(p) => {
                            phys_id = p as PhysicalID;
                            phys_seen = true;
                        },
                        Err(_) => {
                            proof {
                                assert(spec_kv_of_line(lines_v[i as int]) == Some(
                                    (key@, value@),
                                ));
                                assert(spec_freq_fold(
                                    lines_v.take(i + 1),
                                    spec_freq_state_empty(),
                                ) is Err);
                                lemma_freq_fold_prefix_err(lines_v, spec_freq_state_empty(), i + 1);
                            }
                            return Vec::new();
                        },
                    }
                } else if text::bytes_eq(key.as_slice(), "cpu MHz".as_bytes()) {
                    match parse_mhz(&value) {
                        Some(f) => {
                            freq = f;
                            freq_seen = true;
                        },
                        None => {
                            proof {
                                assert(spec_kv_of_line(lines_v[i as int]) == Some(
                                    (key@, value@),
                                ));
                                assert(spec_freq_fold(
                                    lines_v.take(i + 1),
                                    spec_freq_state_empty(),
                                ) is Err);
                                lemma_freq_fold_prefix_err(lines_v, spec_freq_state_empty(), i + 1);
                            }
                            return Vec::new();
                        },
                    }
                }
                if phys_seen && freq_seen {
                    append_freq(&mut freqs, phys_id, freq);
                    phys_seen = false;
                    freq_seen = false;
                }
            },
        }
        i = i + 1;
    }
    proof {
        assert(lines_v.take(n as int) =~= lines_v);
    }
    let m = freqs.len();
    let mut avgs: Vec<(PhysicalID, Mhz)> = Vec::new();
    let ghost fv = freqs@.map_values(|p: (PhysicalID, Vec<Mhz>)| (p.0, p.1@));
    let mut k: usize = 0;
    while k < m
        invariant
            k <= m,
            m == freqs@.len(),
            fv == freqs@.map_values(|p: (PhysicalID, Vec<Mhz>)| (p.0, p.1@)),
            avgs@.len() == k,
            forall|a: int|
                0 <= a < k ==> (#[trigger] avgs@[a]).0 == fv[a].0 && avgs@[a].1 == spec_freq_avg(
                    fv[a].1,
                ),
        decreases m - k,
    {
        let entry_avg = freq_avg(&freqs[k].1);
        avgs.push((freqs[k].0, entry_avg));
        proof {
            assert(fv[k as int] == (freqs@[k as int].0, freqs@[k as int].1@));
        }
        k = k + 1;
    }
    avgs
}

/// An error at any prefix makes the whole frequency fold an error.
proof fn lemma_freq_fold_prefix_err(lines: Seq<Seq<u8>>, st: FreqParseState, k: int)
    requires
        0 <= k <= lines.len(),
        spec_freq_fold(lines.take(k), st) is Err,
    ensures
        spec_freq_fold(lines, st) is Err,
    decreases lines.len() - k,
{
    if k < lines.len() {
        assert(lines.take(k + 1).drop_last() =~= lines.take(k));
        lemma_freq_fold_prefix_err(lines, st, k + 1);
    } else {
        assert(lines.take(k) =~= lines);
    }
}

/// The truncated mean of one package's frequencies.
fn freq_avg(freqs: &Vec<Mhz>) -> (r: Mhz)
    ensures
        r == spec_freq_avg(freqs@),
{
    if freqs.len() == 0 {
        return 0;
    }
    let mut sum: u128 = 0;
    let n = freqs.len();
    let mut i: usize = 0;
    proof {
        assert(freqs@.take(0) =~= Seq::<Mhz>::empty());
    }
    while i < n
        invariant
            i <= n,
            n == freqs@.len(),
            sum == spec_sum_freqs(freqs@.take(i as int)),
            sum <= (i as int) * 0xffff_ffff_ffff_ffff,
        decreases n - i,
    {
        proof {
            assert(freqs@.take(i + 1).drop_last() =~= freqs@.take(i as int));
            assert(freqs@.take(i + 1).last() == freqs@[i as int]);
            let c = i as int;
            assert(c * 0xffff_ffff_ffff_ffff + 0xffff_ffff_ffff_ffff == (c + 1)
                * 0xffff_ffff_ffff_ffff) by (nonlinear_arith);
            assert((c + 1) * 0xffff_ffff_ffff_ffff <= 0xffff_ffff_ffff_ffff_ffff_ffff_ffff_ffff)
                by (nonlinear_arith)
                requires
                    0 <= c + 1 <= 0xffff_ffff_ffff_ffff,
            ;
        }
        sum = sum + (freqs[i] as u128);
        i = i + 1;
    }
    proof {
        assert(freqs@.take(n as int) =~= freqs@);
        lemma_sum_freqs_bound(freqs@);
    }
    let avg: u128 = sum / (n as u128);
    proof {
        assert(avg * (n as int) <= sum) by (nonlinear_arith)
            requires
                n >= 1,
                avg == sum as int / (n as int),
                sum >= 0,
        ;
        assert(avg <= 0xffff_ffff_ffff_ffff) by (nonlinear_arith)
            requires
                n >= 1,
                avg == sum as int / (n as int),
                sum <= (n as int) * 0xffff_ffff_ffff_ffff,
                sum >= 0,
        ;
    }
    avg as Mhz
}

/// The sum of a frequency list is bounded by its length times the largest
/// frequency value.
proof fn lemma_sum_freqs_bound(freqs: Seq<Mhz>)
    ensures
        0 <= spec_sum_freqs(freqs) <= (freqs.len() as int) * 0xffff_ffff_ffff_ffff,
    decreases freqs.len(),
{
    if freqs.len() > 0 {
        lemma_sum_freqs_bound(freqs.drop_last());
        let c = freqs.len() as int;
        assert((c - 1) * 0xffff_ffff_ffff_ffff + 0xffff_ffff_ffff_ffff == c
            * 0xffff_ffff_ffff_ffff) by (nonlinear_arith);
    }
}


/// Whether the lowered label ends in "package id " followed by digits,
/// and those digits.
pub open spec fn spec_package_id_digits(bs: Seq<u8>) -> Option<Seq<u8>> {
    let digits = crate::liquidctl::spec_trailing_digits(bs);
    if digits.len() >= 1 && bs.len() >= digits.len() + 11 && bs.subrange(
        bs.len() - digits.len() - 11,
        bs.len() - digits.len(),
    ) == "package id ".spec_bytes() {
        Some(digits)
    } else {
        None
    }
}

impl CpuRepo {
    /// Whether a package id is among the parsed groups.
    pub open spec fn spec_has_physical_id(&self, id: PhysicalID) -> bool {
        exists|i: int| 0 <= i < self.spec_infos().len() && (#[trigger] self.spec_infos()[i]).0 == id
    }

    fn has_physical_id(&self, id: PhysicalID) -> (r: bool)
        ensures
            r == self.spec_has_physical_id(id),
    {
        let n = self.cpu_infos.len();
        let mut i: usize = 0;
        while i < n
            invariant
                i <= n,
                n == self.cpu_infos@.len(),
                forall|a: int| 0 <= a < i ==> (#[trigger] self.spec_infos()[a]).0 != id,
            decreases n - i,
        {
            proof {
                assert(self.spec_infos()[i as int] == (
                    self.cpu_infos@[i as int].0,
                    self.cpu_infos@[i as int].1@,
                ));
            }
            if self.cpu_infos[i].0 == id {
                return true;
            }
            i = i + 1;
        }
        false
    }

    /// For AMD packages: with a single package its id wins, whatever it
    /// is; otherwise the hwmon enumeration index is assumed to equal the
    /// physical id — the best available heuristic — and must name a
    /// parsed package.
    pub fn parse_amd_physical_id(&self, index: usize) -> (r: Result<PhysicalID, CCError>)
        requires
            index <= 255,
        ensures
            self.spec_infos().len() == 1 ==> r == Ok::<PhysicalID, CCError>(
                self.spec_infos()[0].0,
            ),
            self.spec_infos().len() != 1 && self.spec_has_physical_id(index as PhysicalID) ==> r
                == Ok::<PhysicalID, CCError>(index as PhysicalID),
            self.spec_infos().len() != 1 && !self.spec_has_physical_id(index as PhysicalID) ==> (
            r matches Err(e) && e.is_internal_error()),
    {
        if self.cpu_infos.len() == 1 {
            proof {
                assert(self.spec_infos()[0] == (self.cpu_infos@[0].0, self.cpu_infos@[0].1@));
            }
            return Ok(self.cpu_infos[0].0);
        }
        let physical_id = index as PhysicalID;
        if self.has_physical_id(physical_id) {
            Ok(physical_id)
        } else {
            Err(
                CCError::InternalError {
                    msg: "Could not match hwmon index to cpuinfo physical id".to_owned(),
                },
            )
        }
    }

    /// For Intel packages: the first channel whose lowered label ends in
    /// "package id N", with N naming a parsed package, wins; digits beyond
    /// a u8 fail as the parse would. Older single-package CPUs without a
    /// package sensor fall back to the only package.
    pub fn parse_intel_physical_id(&self, channels: &Vec<HwmonChannelInfo>) -> (r: Result<
        PhysicalID,
        CCError,
    >)
        ensures
            r matches Ok(id) ==> self.spec_has_physical_id(id) || (self.spec_infos().len() == 1
                && id == self.spec_infos()[0].0),
            r is Err ==> self.spec_infos().len() != 1,
    {
        let n = channels.len();
        let mut i: usize = 0;
        while i < n
            invariant
                i <= n,
                n == channels@.len(),
            decreases n - i,
        {
            if let Some(label) = &channels[i].label {
                let lowered = crate::case::to_lowercase(label.as_str());
                let bytes_slice = lowered.as_str().as_bytes();
                let mut label_bytes: Vec<u8> = Vec::new();
                let mut b: usize = 0;
                while b < bytes_slice.len()
                    invariant
                        b <= bytes_slice@.len(),
                        label_bytes@ =~= bytes_slice@.take(b as int),
                    decreases bytes_slice@.len() - b,
                {
                    label_bytes.push(bytes_slice[b]);
                    b = b + 1;
                }
                proof {
                    assert(label_bytes@ =~= bytes_slice@);
                }
                if let Some(digits) = package_id_digits(&label_bytes) {
                    match crate::text::parse_uint_bytes(digits.as_slice(), 255) {
                        Ok(v) => {
                            let package_id = v as PhysicalID;
                            if self.has_physical_id(package_id) {
                                return Ok(package_id);
                            }
                        },
                        Err(_) => {
                            if self.cpu_infos.len() == 1 {
                                proof {
                                    assert(self.spec_infos()[0] == (
                                        self.cpu_infos@[0].0,
                                        self.cpu_infos@[0].1@,
                                    ));
                                }
                                return Ok(self.cpu_infos[0].0);
                            }
                            return Err(
                                CCError::InternalError {
                                    msg: "package id out of range".to_owned(),
                                },
                            );
                        },
                    }
                }
            }
            i = i + 1;
        }
        if self.cpu_infos.len() == 1 {
            proof {
                assert(self.spec_infos()[0] == (self.cpu_infos@[0].0, self.cpu_infos@[0].1@));
            }
            Ok(self.cpu_infos[0].0)
        } else {
            Err(
                CCError::InternalError {
                    msg: "Could not find and match package ID to physical ID".to_owned(),
                },
            )
        }
    }

    /// Matches a hwmon node to a physical package: Intel nodes by their
    /// package-id labels, all others by the AMD heuristic.
    pub fn match_physical_id(
        &self,
        device_name: &String,
        channels: &Vec<HwmonChannelInfo>,
        index: usize,
    ) -> (r: Result<PhysicalID, CCError>)
        requires
            index <= 255,
        ensures
            r matches Ok(id) ==> self.spec_has_physical_id(id) || (self.spec_infos().len() == 1
                && id == self.spec_infos()[0].0),
    {
        if *device_name == "coretemp".to_owned() {
            self.parse_intel_physical_id(channels)
        } else {
            self.parse_amd_physical_id(index)
        }
    }
}

/// The trailing digits of a lowered label, where it ends in
/// "package id N".
fn package_id_digits(bs: &Vec<u8>) -> (r: Option<Vec<u8>>)
    ensures
        match r {
            Some(d) => spec_package_id_digits(bs@) == Some(d@) && d@.len() >= 1 && forall|a: int|
                0 <= a < d@.len() ==> text::spec_is_digit(#[trigger] d@[a]),
            None => spec_package_id_digits(bs@) is None,
        },
{
    let n = bs.len();
    let mut start: usize = n;
    proof {
        assert(bs@.take(n as int) =~= bs@);
        assert(bs@.subrange(n as int, n as int) =~= Seq::<u8>::empty());
        assert(crate::liquidctl::spec_trailing_digits(bs@) == crate::liquidctl::spec_trailing_digits(
            bs@.take(n as int),
        ) + bs@.subrange(n as int, n as int));
    }
    while start > 0 && 48 <= bs[start - 1] && bs[start - 1] <= 57
        invariant
            start <= n,
            n == bs@.len(),
            crate::liquidctl::spec_trailing_digits(bs@) == crate::liquidctl::spec_trailing_digits(
                bs@.take(start as int),
            ) + bs@.subrange(start as int, n as int),
            forall|a: int| start <= a < n ==> text::spec_is_digit(#[trigger] bs@[a]),
        decreases start,
    {
        proof {
            let cur = bs@.take(start as int);
            assert(cur.last() == bs@[start - 1]);
            assert(cur.drop_last() =~= bs@.take(start - 1));
            assert(crate::liquidctl::spec_trailing_digits(cur)
                =~= crate::liquidctl::spec_trailing_digits(cur.drop_last()).push(cur.last()));
            assert(crate::liquidctl::spec_trailing_digits(cur.drop_last()) + bs@.subrange(
                start - 1,
                n as int,
            ) =~= crate::liquidctl::spec_trailing_digits(cur.drop_last()).push(cur.last())
                + bs@.subrange(start as int, n as int));
        }
        start = start - 1;
    }
    proof {
        let cur = bs@.take(start as int);
        if start > 0 {
            assert(cur.last() == bs@[start - 1]);
        }
        assert(crate::liquidctl::spec_trailing_digits(cur) =~= Seq::<u8>::empty());
        assert(crate::liquidctl::spec_trailing_digits(bs@) =~= bs@.subrange(
            start as int,
            n as int,
        ));
    }
    let dig_len = n - start;
    if dig_len == 0 {
        return None;
    }
    if start < 11 {
        return None;
    }
    let mut marker: Vec<u8> = Vec::new();
    let mut p: usize = start - 11;
    while p < start
        invariant
            11 <= start,
            start - 11 <= p <= start <= n,
            n == bs@.len(),
            marker@ =~= bs@.subrange(start - 11, p as int),
        decreases start - p,
    {
        marker.push(bs[p]);
        p = p + 1;
    }
    proof {
        assert(marker@ =~= bs@.subrange(start - 11, start as int));
    }
    if !text::bytes_eq(marker.as_slice(), "package id ".as_bytes()) {
        return None;
    }
    let mut digits: Vec<u8> = Vec::new();
    let mut q: usize = start;
    while q < n
        invariant
            start <= q <= n,
            n == bs@.len(),
            digits@ =~= bs@.subrange(start as int, q as int),
        decreases n - q,
    {
        digits.push(bs[q]);
        q = q + 1;
    }
    proof {
        assert(digits@ =~= bs@.subrange(start as int, n as int));
        assert(bs@.len() >= digits@.len() + 11);
        assert(bs@.subrange(
            bs@.len() - digits@.len() - 11,
            bs@.len() - digits@.len(),
        ) == "package id ".spec_bytes());
    }
    Some(digits)
}


/// The logical-processor percentages belonging to one package, in order:
/// the reading at each index whose processor id is in the package's
/// group.
pub open spec fn spec_package_percents(
    percents: Seq<u64>,
    processor_ids: Seq<ProcessorID>,
) -> Seq<u64>
    decreases percents.len(),
{
    if percents.len() == 0 {
        Seq::empty()
    } else {
        let rest = spec_package_percents(percents.drop_last(), processor_ids);
        if percents.len() - 1 <= 65535 && processor_ids.contains(
            (percents.len() - 1) as ProcessorID,
        ) {
            rest.push(percents.last())
        } else {
            rest
        }
    }
}

pub open spec fn spec_sum_percents(ps: Seq<u64>) -> int
    decreases ps.len(),
{
    if ps.len() == 0 {
        0
    } else {
        spec_sum_percents(ps.drop_last()) + ps.last()
    }
}

impl CpuRepo {
    /// Averages one package's load out of the per-logical-processor
    /// readings (centi-percent, indexed by processor id): the truncated
    /// mean when every grouped processor reported, nothing otherwise.
    pub fn collect_load(
        &self,
        physical_id: PhysicalID,
        percents: &Vec<u64>,
        channel_name: &String,
    ) -> (r: Option<crate::device::ChannelStatus>)
        requires
            forall|i: int| 0 <= i < percents@.len() ==> #[trigger] percents@[i] <= 100000,
        ensures
            ({
                match spec_lookup_info(self.spec_infos(), physical_id) {
                    None => r is None,
                    Some(ids) => {
                        let grouped = spec_package_percents(percents@, ids);
                        if grouped.len() == ids.len() && ids.len() > 0 {
                            &&& r matches Some(status)
                            &&& status@.name == channel_name@
                            &&& status@.duty == Some(
                                (spec_sum_percents(grouped) / (ids.len() as int)) as i64,
                            )
                            &&& status@.rpm is None
                        } else {
                            r is None
                        }
                    },
                }
            }),
    {
        let ids: &Vec<ProcessorID> = match self.lookup_info(physical_id) {
            Some(ids) => ids,
            None => {
                return None;
            },
        };
        let ghost ids_v = ids@;
        let n = percents.len();
        let mut sum: u128 = 0;
        let mut count: usize = 0;
        let mut i: usize = 0;
        proof {
            assert(percents@.take(0) =~= Seq::<u64>::empty());
        }
        while i < n
            invariant
                i <= n,
                n == percents@.len(),
                ids_v == ids@,
                forall|a: int| 0 <= a < n ==> #[trigger] percents@[a] <= 100000,
                count <= i,
                count == spec_package_percents(percents@.take(i as int), ids_v).len(),
                sum == spec_sum_percents(spec_package_percents(percents@.take(i as int), ids_v)),
                sum <= (i as int) * 100000,
            decreases n - i,
        {
            proof {
                assert(percents@.take(i + 1).drop_last() =~= percents@.take(i as int));
                assert(percents@.take(i + 1).last() == percents@[i as int]);
                let c = i as int;
                assert(c * 100000 + 100000 == (c + 1) * 100000) by (nonlinear_arith);
                assert((c + 1) * 100000 <= 100000 * 0x1_0000_0000_0000_0000) by (nonlinear_arith)
                    requires
                        0 <= c + 1 <= 0x1_0000_0000_0000_0000,
                ;
            }
            let in_group = i <= 65535 && contains_processor(ids, i as ProcessorID);
            proof {
                let g1 = spec_package_percents(percents@.take(i + 1), ids_v);
                let g0 = spec_package_percents(percents@.take(i as int), ids_v);
                if in_group {
                    assert(g1 == g0.push(percents@[i as int]));
                    assert(g0.push(percents@[i as int]).drop_last() =~= g0);
                    assert(g0.push(percents@[i as int]).last() == percents@[i as int]);
                } else {
                    assert(g1 == g0);
                }
            }
            if in_group {
                sum = sum + (percents[i] as u128);
                count = count + 1;
            }
            i = i + 1;
        }
        proof {
            assert(percents@.take(n as int) =~= percents@);
        }
        if count == ids.len() && count > 0 {
            let avg: u128 = sum / (count as u128);
            proof {
                lemma_package_percents_bounded(percents@, ids_v);
                lemma_sum_percents_bound(spec_package_percents(percents@, ids_v));
                assert(avg <= 100000) by (nonlinear_arith)
                    requires
                        count >= 1,
                        avg == sum as int / (count as int),
                        sum <= (count as int) * 100000,
                        sum >= 0,
                ;
            }
            Some(
                crate::device::ChannelStatus {
                    name: channel_name.clone(),
                    rpm: None,
                    duty: Some(avg as i64),
                    watts: None,
                    freq: None,
                },
            )
        } else {
            None
        }
    }

    fn lookup_info(&self, physical_id: PhysicalID) -> (r: Option<&Vec<ProcessorID>>)
        ensures
            match r {
                Some(ids) => spec_lookup_info(self.spec_infos(), physical_id) == Some(ids@),
                None => spec_lookup_info(self.spec_infos(), physical_id) is None,
            },
    {
        let ghost iv = self.spec_infos();
        let n = self.cpu_infos.len();
        let mut i: usize = 0;
        proof {
            assert(iv.skip(0) =~= iv);
        }
        while i < n
            invariant
                i <= n,
                n == self.cpu_infos@.len(),
                iv == self.spec_infos(),
                spec_lookup_info(iv, physical_id) == spec_lookup_info(
                    iv.skip(i as int),
                    physical_id,
                ),
            decreases n - i,
        {
            proof {
                assert(iv.skip(i as int)[0] == iv[i as int]);
                assert(iv[i as int] == (self.cpu_infos@[i as int].0, self.cpu_infos@[i as int].1@));
                assert(iv.skip(i as int).drop_first() =~= iv.skip(i + 1));
            }
            if self.cpu_infos[i].0 == physical_id {
                return Some(&self.cpu_infos[i].1);
            }
            i = i + 1;
        }
        None
    }
}

/// The group stored for a package, if any.
pub open spec fn spec_lookup_info(
    infos: Seq<(PhysicalID, Seq<ProcessorID>)>,
    physical_id: PhysicalID,
) -> Option<Seq<ProcessorID>>
    decreases infos.len(),
{
    if infos.len() == 0 {
        None
    } else if infos[0].0 == physical_id {
        Some(infos[0].1)
    } else {
        spec_lookup_info(infos.drop_first(), physical_id)
    }
}

fn contains_processor(ids: &Vec<ProcessorID>, id: ProcessorID) -> (r: bool)
    ensures
        r == ids@.contains(id),
{
    let n = ids.len();
    let mut i: usize = 0;
    while i < n
        invariant
            i <= n,
            n == ids@.len(),
            forall|a: int| 0 <= a < i ==> ids@[a] != id,
        decreases n - i,
    {
        if ids[i] == id {
            proof {
                assert(ids@.contains(id));
            }
            return true;
        }
        i = i + 1;
    }
    proof {
        assert(!ids@.contains(id));
    }
    false
}

/// Grouped readings inherit the readings' bound.
proof fn lemma_package_percents_bounded(percents: Seq<u64>, ids: Seq<ProcessorID>)
    requires
        forall|i: int| 0 <= i < percents.len() ==> #[trigger] percents[i] <= 100000,
    ensures
        forall|i: int|
            0 <= i < spec_package_percents(percents, ids).len() ==> #[trigger] spec_package_percents(
                percents,
                ids,
            )[i] <= 100000,
    decreases percents.len(),
{
    if percents.len() > 0 {
        assert(forall|i: int|
            0 <= i < percents.drop_last().len() ==> #[trigger] percents.drop_last()[i] <= 100000);
        lemma_package_percents_bounded(percents.drop_last(), ids);
        let g0 = spec_package_percents(percents.drop_last(), ids);
        let g1 = spec_package_percents(percents, ids);
        assert forall|i: int| 0 <= i < g1.len() implies #[trigger] g1[i] <= 100000 by {
            if i < g0.len() {
                assert(g1[i] == g0[i]);
            } else {
                assert(g1[i] == percents.last());
            }
        }
    }
}

proof fn lemma_sum_percents_bound(ps: Seq<u64>)
    requires
        forall|i: int| 0 <= i < ps.len() ==> #[trigger] ps[i] <= 100000,
    ensures
        0 <= spec_sum_percents(ps) <= (ps.len() as int) * 100000,
    decreases ps.len(),
{
    if ps.len() > 0 {
        assert(forall|i: int| 0 <= i < ps.drop_last().len() ==> #[trigger] ps.drop_last()[i]
            <= 100000);
        lemma_sum_percents_bound(ps.drop_last());
        let c = ps.len() as int;
        assert((c - 1) * 100000 + 100000 == c * 100000) by (nonlinear_arith);
    }
}

} // verus!
