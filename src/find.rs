use vstd::prelude::*;

use crate::device::{effective_cores, same_file, Arch, CoreIdx, CoreStatus, Device, DeviceFile, DeviceMode};

verus! {

/// What an allocation asks for: a device family, a grouping mode and how many
/// device files.
#[derive(Clone, Copy, Debug, PartialEq, Eq, Structural)]
pub struct DeviceConfig {
    pub arch: Arch,
    pub mode: DeviceMode,
    pub count: u8,
}

impl DeviceConfig {
    /// Starts a request for Warboy devices, in Single mode, for one file.
    pub fn warboy() -> (r: WarboyConfigBuilder)
        ensures
            r.0 == (DeviceConfig { arch: Arch::Warboy, mode: DeviceMode::Single, count: 1 }),
    {
        let builder = DeviceConfig { arch: Arch::Warboy, mode: DeviceMode::Single, count: 1 };
        WarboyConfigBuilder(builder)
    }
}

impl Default for DeviceConfig {
    /// One fused Warboy device file.
    fn default() -> (r: Self)
        ensures
            r == (DeviceConfig { arch: Arch::Warboy, mode: DeviceMode::Fusion, count: 1 }),
    {
        DeviceConfig::warboy().fused().count(1)
    }
}

/// Fluent construction of a Warboy [`DeviceConfig`].
pub struct WarboyConfigBuilder(pub DeviceConfig);

impl WarboyConfigBuilder {
    pub fn multicore(self) -> (r: Self)
        ensures
            r.0 == (DeviceConfig { mode: DeviceMode::MultiCore, ..self.0 }),
    {
        let mut this = self;
        this.0.mode = DeviceMode::MultiCore;
        this
    }

    pub fn fused(self) -> (r: Self)
        ensures
            r.0 == (DeviceConfig { mode: DeviceMode::Fusion, ..self.0 }),
    {
        let mut this = self;
        this.0.mode = DeviceMode::Fusion;
        this
    }

    pub fn count(self, count: u8) -> (r: DeviceConfig)
        ensures
            r == (DeviceConfig { count, ..self.0 }),
    {
        let mut this = self;
        this.0.count = count;
        this.0
    }

    pub fn build(self) -> (r: DeviceConfig)
        ensures
            r == self.0,
    {
        self.0
    }
}

/// A device together with an occupancy snapshot: `statuses[c]` is the status
/// of core `c`.
#[derive(Debug)]
pub struct DeviceWithStatus {
    pub device: Device,
    pub statuses: Vec<CoreStatus>,
}

/// Cores of a device that the snapshot shows in use.
pub open spec fn initial_used(d: DeviceWithStatus) -> Set<CoreIdx> {
    Set::new(|c: CoreIdx| (c as int) < d.statuses.len() && !(d.statuses@[c as int] is Available))
}

pub open spec fn initial_used_all(devs: Seq<DeviceWithStatus>) -> Seq<Set<CoreIdx>> {
    Seq::new(devs.len(), |k: int| initial_used(devs[k]))
}

/// None of the cores that `f` names is in `used`.
pub open spec fn file_free(f: DeviceFile, used: Set<CoreIdx>) -> bool {
    forall|k: int| 0 <= k < f.indices.len() ==> !used.contains(#[trigger] f.indices@[k])
}

pub open spec fn fits(config: DeviceConfig, f: DeviceFile, used: Set<CoreIdx>) -> bool {
    f.mode == config.mode && file_free(f, used)
}

/// The first file at or after position `j` that fits the request.
pub open spec fn first_fit(config: DeviceConfig, files: Seq<DeviceFile>, used: Set<CoreIdx>, j: int) -> Option<int>
    decreases files.len() - j,
{
    if j < 0 || j >= files.len() {
        None
    } else if fits(config, files[j], used) {
        Some(j)
    } else {
        first_fit(config, files, used, j + 1)
    }
}

/// A device may serve a slot: its family matches, and for a MultiCore
/// request none of its cores is committed.
pub open spec fn device_open(config: DeviceConfig, dev: Device, used: Set<CoreIdx>) -> bool {
    &&& dev.arch == config.arch
    &&& (config.mode == DeviceMode::MultiCore ==> used == Set::<CoreIdx>::empty())
}

/// The (device position, file position) chosen for one slot, scanning devices
/// from position `k` on.
pub open spec fn pick(config: DeviceConfig, devs: Seq<DeviceWithStatus>, used: Seq<Set<CoreIdx>>, k: int) -> Option<(int, int)>
    decreases devs.len() - k,
{
    if k < 0 || k >= devs.len() {
        None
    } else if device_open(config, devs[k].device, used[k]) {
        match first_fit(config, devs[k].device.dev_files@, used[k], 0) {
            Some(j) => Some((k, j)),
            None => pick(config, devs, used, k + 1),
        }
    } else {
        pick(config, devs, used, k + 1)
    }
}

pub open spec fn selected_file(devs: Seq<DeviceWithStatus>, p: (int, int)) -> DeviceFile {
    devs[p.0].device.dev_files@[p.1]
}

/// The committed cores after choosing `p`.
pub open spec fn next_used(devs: Seq<DeviceWithStatus>, used: Seq<Set<CoreIdx>>, p: (int, int)) -> Seq<Set<CoreIdx>> {
    used.update(p.0, used[p.0] + effective_cores(devs[p.0].device, selected_file(devs, p)))
}

/// Greedy filling of `n` slots, or `None` where some slot cannot be filled.
pub open spec fn greedy(config: DeviceConfig, devs: Seq<DeviceWithStatus>, used: Seq<Set<CoreIdx>>, n: nat) -> Option<Seq<(int, int)>>
    decreases n,
{
    if n == 0 {
        Some(Seq::empty())
    } else {
        match pick(config, devs, used, 0) {
            None => None,
            Some(p) => match greedy(config, devs, next_used(devs, used, p), (n - 1) as nat) {
                None => None,
                Some(rest) => Some(seq![p] + rest),
            },
        }
    }
}

/// The positions that an allocation selects: all slots, or nothing.
pub open spec fn allocation(config: DeviceConfig, devs: Seq<DeviceWithStatus>) -> Seq<(int, int)> {
    match greedy(config, devs, initial_used_all(devs), config.count as nat) {
        Some(s) => s,
        None => Seq::empty(),
    }
}

/// `r` holds, in order, the device files that the allocation selects.
pub open spec fn allocated_as(config: DeviceConfig, devs: Seq<DeviceWithStatus>, r: Seq<DeviceFile>) -> bool {
    let s = allocation(config, devs);
    &&& r.len() == s.len()
    &&& forall|i: int| 0 <= i < r.len() ==> same_file(#[trigger] r[i], selected_file(devs, s[i]))
}

spec fn used_set(u: Seq<bool>) -> Set<CoreIdx> {
    Set::new(|c: CoreIdx| u[c as int])
}

spec fn used_sets(u: Seq<Vec<bool>>) -> Seq<Set<CoreIdx>> {
    Seq::new(u.len(), |k: int| used_set(u[k]@))
}

spec fn rows_ok(u: Seq<Vec<bool>>) -> bool {
    forall|k: int| 0 <= k < u.len() ==> (#[trigger] u[k]).len() == 256
}

/// Whether every core that `f` names is outside `used`.
fn file_is_free(f: &DeviceFile, used: &Vec<bool>) -> (r: bool)
    requires
        used.len() == 256,
    ensures
        r == file_free(*f, used_set(used@)),
{
    let mut k: usize = 0;
    while k < f.indices.len()
        invariant
            k <= f.indices.len(),
            used.len() == 256,
            forall|i: int| 0 <= i < k ==> !used_set(used@).contains(#[trigger] f.indices@[i]),
        decreases f.indices.len() - k,
    {
        let c = f.indices[k];
        if used[c as usize] {
            assert(used_set(used@).contains(f.indices@[k as int]));
            return false;
        }
        k += 1;
    }
    true
}

/// Whether no core is marked in `used`.
fn none_used(used: &Vec<bool>) -> (r: bool)
    requires
        used.len() == 256,
    ensures
        r == (used_set(used@) == Set::<CoreIdx>::empty()),
{
    let mut c: usize = 0;
    while c < 256
        invariant
            c <= 256,
            used.len() == 256,
            forall|i: int| 0 <= i < c ==> !used@[i],
        decreases 256 - c,
    {
        if used[c] {
            assert(used_set(used@).contains(c as u8));
            return false;
        }
        c += 1;
    }
    assert(used_set(used@) =~= Set::<CoreIdx>::empty());
    true
}

/// Position of the first file of `files` that fits the request.
fn first_fit_in(config: &DeviceConfig, files: &Vec<DeviceFile>, used: &Vec<bool>) -> (r: Option<usize>)
    requires
        used.len() == 256,
    ensures
        match r {
            Some(j) => first_fit(*config, files@, used_set(used@), 0) == Some(j as int),
            None => first_fit(*config, files@, used_set(used@), 0) is None,
        },
{
    let mut j: usize = 0;
    while j < files.len()
        invariant
            j <= files.len(),
            used.len() == 256,
            first_fit(*config, files@, used_set(used@), 0) == first_fit(*config, files@, used_set(used@), j as int),
        decreases files.len() - j,
    {
        if files[j].mode == config.mode && file_is_free(&files[j], used) {
            return Some(j);
        }
        j += 1;
    }
    None
}

/// The (device position, file position) chosen for the next slot.
fn pick_in(config: &DeviceConfig, devices: &[DeviceWithStatus], used: &Vec<Vec<bool>>) -> (r: Option<(usize, usize)>)
    requires
        used.len() == devices.len(),
        rows_ok(used@),
    ensures
        match r {
            Some(p) => pick(*config, devices@, used_sets(used@), 0) == Some((p.0 as int, p.1 as int)),
            None => pick(*config, devices@, used_sets(used@), 0) is None,
        },
{
    let mut k: usize = 0;
    while k < devices.len()
        invariant
            k <= devices.len(),
            used.len() == devices.len(),
            rows_ok(used@),
            pick(*config, devices@, used_sets(used@), 0) == pick(*config, devices@, used_sets(used@), k as int),
        decreases devices.len() - k,
    {
        let dev = &devices[k].device;
        let row = &used[k];
        assert(used_sets(used@)[k as int] == used_set(row@));
        if dev.arch == config.arch && (config.mode != DeviceMode::MultiCore || none_used(row)) {
            match first_fit_in(config, &dev.dev_files, row) {
                Some(j) => {
                    return Some((k, j));
                },
                None => {},
            }
        }
        k += 1;
    }
    None
}

/// Snapshot occupancy as one row of 256 flags per device.
fn initial_rows(devices: &[DeviceWithStatus]) -> (r: Vec<Vec<bool>>)
    ensures
        r.len() == devices.len(),
        rows_ok(r@),
        used_sets(r@) == initial_used_all(devices@),
{
    let mut rows: Vec<Vec<bool>> = Vec::new();
    let mut k: usize = 0;
    while k < devices.len()
        invariant
            k <= devices.len(),
            rows.len() == k,
            rows_ok(rows@),
            forall|i: int| 0 <= i < k ==> used_set(#[trigger] rows@[i]@) == initial_used(devices@[i]),
        decreases devices.len() - k,
    {
        let statuses = &devices[k].statuses;
        let mut row: Vec<bool> = Vec::new();
        let mut c: usize = 0;
        while c < 256
            invariant
                c <= 256,
                row.len() == c,
                forall|i: int| 0 <= i < c ==> #[trigger] row@[i] == (i < statuses.len() && !(statuses@[i] is Available)),
            decreases 256 - c,
        {
            row.push(c < statuses.len() && !statuses[c].is_available());
            c += 1;
        }
        assert(used_set(row@) =~= initial_used(devices@[k as int]));
        rows.push(row);
        k += 1;
    }
    assert(used_sets(rows@) =~= initial_used_all(devices@));
    rows
}

/// Marks the cores of `cs` in `row`.
fn mark_all(cs: &Vec<CoreIdx>, row: &mut Vec<bool>)
    requires
        old(row).len() == 256,
    ensures
        final(row).len() == 256,
        used_set(final(row)@) == used_set(old(row)@) + cs@.to_set(),
{
    let ghost start = row@;
    let mut k: usize = 0;
    while k < cs.len()
        invariant
            k <= cs.len(),
            row.len() == 256,
            start.len() == 256,
            forall|c: u8| #[trigger] row@[c as int] == (start[c as int] || exists|i: int| 0 <= i < k && cs@[i] == c),
        decreases cs.len() - k,
    {
        let c = cs[k];
        row.set(c as usize, true);
        assert forall|d: u8| #[trigger] row@[d as int] == (start[d as int] || exists|i: int| 0 <= i < k + 1 && cs@[i] == d) by {
            if d == c {
                assert(cs@[k as int] == d);
            }
        }
        k += 1;
    }
    assert forall|d: u8| cs@.to_set().contains(d) <==> exists|i: int| 0 <= i < cs.len() && cs@[i] == d by {
        if cs@.to_set().contains(d) {
            assert(cs@.contains(d));
        }
    }
    assert(used_set(row@) =~= used_set(start) + cs@.to_set());
}

/// Marks the cores that `f` locks on device `dev`.
fn commit_row(dev: &Device, f: &DeviceFile, row: &mut Vec<bool>)
    requires
        old(row).len() == 256,
    ensures
        final(row).len() == 256,
        used_set(final(row)@) == used_set(old(row)@) + effective_cores(*dev, *f),
{
    mark_all(&f.indices, row);
    if f.mode == DeviceMode::MultiCore {
        mark_all(&dev.cores, row);
    }
    assert(used_set(row@) =~= used_set(old(row)@) + effective_cores(*dev, *f));
}

proof fn lemma_first_fit(config: DeviceConfig, files: Seq<DeviceFile>, used: Set<CoreIdx>, j: int)
    ensures
        match first_fit(config, files, used, j) {
            Some(t) => j <= t < files.len() && fits(config, files[t], used),
            None => true,
        },
    decreases files.len() - j,
{
    if 0 <= j < files.len() && !fits(config, files[j], used) {
        lemma_first_fit(config, files, used, j + 1);
    }
}

proof fn lemma_pick(config: DeviceConfig, devs: Seq<DeviceWithStatus>, used: Seq<Set<CoreIdx>>, k: int)
    ensures
        match pick(config, devs, used, k) {
            Some(p) => {
                &&& k <= p.0 < devs.len()
                &&& device_open(config, devs[p.0].device, used[p.0])
                &&& 0 <= p.1 < devs[p.0].device.dev_files.len()
                &&& fits(config, selected_file(devs, p), used[p.0])
            },
            None => true,
        },
    decreases devs.len() - k,
{
    if 0 <= k < devs.len() {
        lemma_first_fit(config, devs[k].device.dev_files@, used[k], 0);
        lemma_pick(config, devs, used, k + 1);
    }
}

/// Chooses, for `config.count` slots in turn, the first device file (devices
/// in order, then files in order) of the requested family and mode whose cores
/// are all free, committing its cores before the next slot. Returns every
/// chosen file, or an empty list if some slot cannot be filled.
pub fn find_devices_in(config: &DeviceConfig, devices: &[DeviceWithStatus]) -> (r: Vec<DeviceFile>)
    ensures
        allocated_as(*config, devices@, r@),
{
    let ghost devs = devices@;
    let ghost total = greedy(*config, devs, initial_used_all(devs), config.count as nat);
    let mut used = initial_rows(devices);
    let mut found: Vec<DeviceFile> = Vec::new();
    let ghost mut sel: Seq<(int, int)> = Seq::empty();
    let mut slot: u8 = 0;
    assert(total == match greedy(*config, devs, used_sets(used@), config.count as nat) {
        Some(rest) => Some(sel + rest),
        None => None::<Seq<(int, int)>>,
    }) by {
        match greedy(*config, devs, used_sets(used@), config.count as nat) {
            Some(rest) => assert(sel + rest =~= rest),
            None => {},
        }
    }
    while slot < config.count
        invariant
            slot <= config.count,
            used.len() == devices.len(),
            rows_ok(used@),
            devs == devices@,
            total == greedy(*config, devs, initial_used_all(devs), config.count as nat),
            total == match greedy(*config, devs, used_sets(used@), (config.count - slot) as nat) {
                Some(rest) => Some(sel + rest),
                None => None::<Seq<(int, int)>>,
            },
            found.len() == sel.len(),
            forall|i: int| 0 <= i < found.len() ==> same_file(#[trigger] found@[i], selected_file(devs, sel[i])),
        decreases config.count - slot,
    {
        proof {
            lemma_pick(*config, devs, used_sets(used@), 0);
        }
        match pick_in(config, devices, &used) {
            None => {
                return Vec::new();
            },
            Some((k, j)) => {
                let ghost p = (k as int, j as int);
                let ghost before = used_sets(used@);
                let dev = &devices[k].device;
                let f = dev.dev_files[j].clone();
                let mut row = used[k].clone();
                assert(row@ =~= used@[k as int]@);
                commit_row(dev, &dev.dev_files[j], &mut row);
                used.set(k, row);
                assert(used_sets(used@) =~= next_used(devs, before, p));
                found.push(f);
                proof {
                    let m = (config.count - slot) as nat;
                    match greedy(*config, devs, used_sets(used@), (m - 1) as nat) {
                        Some(rest) => {
                            assert(sel + (seq![p] + rest) =~= (sel + seq![p]) + rest);
                        },
                        None => {},
                    }
                    sel = sel.push(p);
                }
                slot += 1;
            },
        }
    }
    assert(sel + Seq::<(int, int)>::empty() =~= sel);
    found
}

/// What holds of every greedy run that fills its `n` slots from `used`.
spec fn greedy_facts(config: DeviceConfig, devs: Seq<DeviceWithStatus>, used: Seq<Set<CoreIdx>>, s: Seq<(int, int)>) -> bool {
    &&& forall|i: int| 0 <= i < s.len() ==> {
        &&& 0 <= (#[trigger] s[i]).0 < devs.len()
        &&& 0 <= s[i].1 < devs[s[i].0].device.dev_files.len()
        &&& devs[s[i].0].device.arch == config.arch
        &&& selected_file(devs, s[i]).mode == config.mode
        &&& file_free(selected_file(devs, s[i]), used[s[i].0])
        &&& (config.mode == DeviceMode::MultiCore ==> used[s[i].0] == Set::<CoreIdx>::empty())
    }
    &&& forall|i: int, j: int| 0 <= i < j < s.len() && (#[trigger] s[i]).0 == (#[trigger] s[j]).0 ==> {
        &&& file_free(selected_file(devs, s[j]), effective_cores(devs[s[i].0].device, selected_file(devs, s[i])))
        &&& (config.mode == DeviceMode::MultiCore ==> effective_cores(devs[s[i].0].device, selected_file(devs, s[i])) == Set::<CoreIdx>::empty())
    }
}

proof fn lemma_greedy(config: DeviceConfig, devs: Seq<DeviceWithStatus>, used: Seq<Set<CoreIdx>>, n: nat)
    requires
        used.len() == devs.len(),
    ensures
        match greedy(config, devs, used, n) {
            Some(s) => s.len() == n && greedy_facts(config, devs, used, s),
            None => true,
        },
    decreases n,
{
    if n > 0 {
        lemma_pick(config, devs, used, 0);
        match pick(config, devs, used, 0) {
            None => {},
            Some(p) => {
                let used2 = next_used(devs, used, p);
                lemma_greedy(config, devs, used2, (n - 1) as nat);
                match greedy(config, devs, used2, (n - 1) as nat) {
                    None => {},
                    Some(rest) => {
                        let s = seq![p] + rest;
                        let eff = effective_cores(devs[p.0].device, selected_file(devs, p));
                        assert forall|i: int| 0 <= i < s.len() implies {
                            &&& 0 <= (#[trigger] s[i]).0 < devs.len()
                            &&& 0 <= s[i].1 < devs[s[i].0].device.dev_files.len()
                            &&& devs[s[i].0].device.arch == config.arch
                            &&& selected_file(devs, s[i]).mode == config.mode
                            &&& file_free(selected_file(devs, s[i]), used[s[i].0])
                            &&& (config.mode == DeviceMode::MultiCore ==> used[s[i].0] == Set::<CoreIdx>::empty())
                        } by {
                            if i > 0 {
                                let q = rest[i - 1];
                                assert(s[i] == q);
                                assert(used[q.0].subset_of(used2[q.0]));
                                if config.mode == DeviceMode::MultiCore {
                                    assert(used[q.0] =~= Set::<CoreIdx>::empty());
                                }
                            }
                        }
                        assert forall|i: int, j: int| 0 <= i < j < s.len() && (#[trigger] s[i]).0 == (#[trigger] s[j]).0 implies {
                            &&& file_free(selected_file(devs, s[j]), effective_cores(devs[s[i].0].device, selected_file(devs, s[i])))
                            &&& (config.mode == DeviceMode::MultiCore ==> effective_cores(devs[s[i].0].device, selected_file(devs, s[i])) == Set::<CoreIdx>::empty())
                        } by {
                            assert(s[j] == rest[j - 1]);
                            if i == 0 {
                                assert(s[i] == p);
                                assert(eff.subset_of(used2[p.0]));
                                if config.mode == DeviceMode::MultiCore {
                                    assert(eff =~= Set::<CoreIdx>::empty());
                                }
                            } else {
                                assert(s[i] == rest[i - 1]);
                            }
                        }
                        assert(s.len() == n);
                    },
                }
            },
        }
    }
}

proof fn lemma_allocation(config: DeviceConfig, devs: Seq<DeviceWithStatus>)
    ensures
        allocation(config, devs).len() == 0 || allocation(config, devs).len() == config.count,
        greedy_facts(config, devs, initial_used_all(devs), allocation(config, devs)),
{
    lemma_greedy(config, devs, initial_used_all(devs), config.count as nat);
}

/// Two results that meet the contract of [`find_devices_in`] for the same
/// request and snapshot hold the same files in the same order.
pub proof fn allocation_is_deterministic(config: DeviceConfig, devs: Seq<DeviceWithStatus>, r1: Seq<DeviceFile>, r2: Seq<DeviceFile>)
    requires
        allocated_as(config, devs, r1),
        allocated_as(config, devs, r2),
    ensures
        r1.len() == r2.len(),
        forall|i: int| 0 <= i < r1.len() ==> same_file(#[trigger] r1[i], r2[i]),
{
    assert forall|i: int| 0 <= i < r1.len() implies same_file(#[trigger] r1[i], r2[i]) by {
        assert(same_file(r1[i], selected_file(devs, allocation(config, devs)[i])));
        assert(same_file(r2[i], selected_file(devs, allocation(config, devs)[i])));
    }
}

/// An allocation either fills every requested slot or holds nothing.
pub proof fn allocation_is_all_or_nothing(config: DeviceConfig, devs: Seq<DeviceWithStatus>)
    ensures
        allocation(config, devs).len() == config.count || allocation(config, devs).len() == 0,
{
    lemma_allocation(config, devs);
}

/// Every file an allocation selects has the requested mode, and belongs to a
/// device of the requested family.
pub proof fn allocation_keeps_mode(config: DeviceConfig, devs: Seq<DeviceWithStatus>, i: int)
    requires
        0 <= i < allocation(config, devs).len(),
    ensures
        selected_file(devs, allocation(config, devs)[i]).mode == config.mode,
        devs[allocation(config, devs)[i].0].device.arch == config.arch,
{
    lemma_allocation(config, devs);
    assert(0 <= allocation(config, devs)[i].0);
}

/// No file an allocation selects names a core that the snapshot shows in
/// use, and two selected files of one device name no core in common.
pub proof fn allocation_never_double_books(config: DeviceConfig, devs: Seq<DeviceWithStatus>, i: int, j: int)
    requires
        0 <= i < allocation(config, devs).len(),
        0 <= j < allocation(config, devs).len(),
        i != j,
    ensures
        selected_file(devs, allocation(config, devs)[i]).indices@.to_set().disjoint(
            initial_used(devs[allocation(config, devs)[i].0]),
        ),
        allocation(config, devs)[i].0 == allocation(config, devs)[j].0 ==> selected_file(
            devs,
            allocation(config, devs)[i],
        ).indices@.to_set().disjoint(selected_file(devs, allocation(config, devs)[j]).indices@.to_set()),
{
    lemma_allocation(config, devs);
    let s = allocation(config, devs);
    let fi = selected_file(devs, s[i]);
    let fj = selected_file(devs, s[j]);
    assert(0 <= s[i].0 < devs.len());
    assert(initial_used_all(devs)[s[i].0] == initial_used(devs[s[i].0]));
    assert forall|c: CoreIdx| fi.indices@.to_set().contains(c) implies !initial_used(devs[s[i].0]).contains(c) by {
        assert(fi.indices@.contains(c));
        let k = choose|k: int| 0 <= k < fi.indices.len() && fi.indices@[k] == c;
        assert(file_free(fi, initial_used_all(devs)[s[i].0]));
    }
    if s[i].0 == s[j].0 {
        let (a, b) = if i < j { (i, j) } else { (j, i) };
        let fa = selected_file(devs, s[a]);
        let fb = selected_file(devs, s[b]);
        assert(file_free(fb, effective_cores(devs[s[a].0].device, fa)));
        assert forall|c: CoreIdx| fi.indices@.to_set().contains(c) implies !fj.indices@.to_set().contains(c) by {
            assert(fi.indices@.contains(c));
            if fj.indices@.to_set().contains(c) {
                assert(fj.indices@.contains(c));
                let ka = choose|k: int| 0 <= k < fa.indices.len() && fa.indices@[k] == c;
                let kb = choose|k: int| 0 <= k < fb.indices.len() && fb.indices@[k] == c;
                assert(fa.indices@.to_set().contains(c));
                assert(effective_cores(devs[s[a].0].device, fa).contains(c));
                assert(!effective_cores(devs[s[a].0].device, fa).contains(fb.indices@[kb]));
            }
        }
    }
}

/// A MultiCore file is selected only on a device none of whose cores the
/// snapshot shows in use, and to which no earlier selection of the same call
/// committed any core.
pub proof fn allocation_multicore_exclusive(config: DeviceConfig, devs: Seq<DeviceWithStatus>, i: int)
    requires
        0 <= i < allocation(config, devs).len(),
        selected_file(devs, allocation(config, devs)[i]).mode == DeviceMode::MultiCore,
    ensures
        initial_used(devs[allocation(config, devs)[i].0]) == Set::<CoreIdx>::empty(),
        forall|j: int| 0 <= j < i && #[trigger] allocation(config, devs)[j].0 == allocation(config, devs)[i].0 ==>
            effective_cores(devs[allocation(config, devs)[j].0].device, selected_file(devs, allocation(config, devs)[j]))
                == Set::<CoreIdx>::empty(),
{
    lemma_allocation(config, devs);
    let s = allocation(config, devs);
    assert(0 <= s[i].0 < devs.len());
    assert(initial_used_all(devs)[s[i].0] == initial_used(devs[s[i].0]));
    assert forall|j: int| 0 <= j < i && #[trigger] s[j].0 == s[i].0 implies
        effective_cores(devs[s[j].0].device, selected_file(devs, s[j])) == Set::<CoreIdx>::empty() by {
        assert(s[j].0 == s[i].0);
    }
}

} // verus!
