use vstd::prelude::*;

use crate::device::{effective_cores, CoreIdx, CoreStatus, Device, DeviceFile, DeviceMode};
use crate::find::{allocated_as, find_devices_in, DeviceConfig, DeviceWithStatus};

verus! {

/// The file that ends up holding core `c` after the first `upto` files of
/// `dev` were probed: the last busy one among them whose lock covers `c`.
pub open spec fn holder(dev: Device, busy: Seq<bool>, c: CoreIdx, upto: int) -> Option<DeviceFile>
    decreases upto,
{
    if upto <= 0 {
        None
    } else if busy[upto - 1] && effective_cores(dev, dev.dev_files@[upto - 1]).contains(c) {
        Some(dev.dev_files@[upto - 1])
    } else {
        holder(dev, busy, c, upto - 1)
    }
}

/// `s` is Available when no file holds the core, else Occupied by that file's name.
pub open spec fn status_matches(s: CoreStatus, h: Option<DeviceFile>) -> bool {
    match h {
        None => s is Available,
        Some(f) => s is Occupied && s->Occupied_0@ == f.name@,
    }
}

/// `r` is the per-core status of `dev` when `busy[j]` says whether its file
/// `j` is held by another consumer.
pub open spec fn status_map_of(dev: Device, busy: Seq<bool>, r: Seq<CoreStatus>) -> bool {
    &&& r.len() == dev.cores.len()
    &&& forall|c: int| 0 <= c < r.len() ==> status_matches(#[trigger] r[c], holder(dev, busy, c as CoreIdx, dev.dev_files.len() as int))
}

/// Per-core status of `device`, from the probe result of each of its files:
/// `busy[j]` tells whether `device.dev_files[j]` is held. A held file marks
/// the cores it names as occupied by it, and a held MultiCore file every core
/// of the device; where several held files cover a core, the last one names it.
pub fn get_status_all(device: &Device, busy: &Vec<bool>) -> (r: Vec<CoreStatus>)
    requires
        device.wf(),
        busy.len() == device.dev_files.len(),
    ensures
        status_map_of(*device, busy@, r@),
{
    let n = device.cores.len();
    let mut r: Vec<CoreStatus> = Vec::new();
    while r.len() < n
        invariant
            r.len() <= n,
            forall|c: int| 0 <= c < r.len() ==> #[trigger] r@[c] is Available,
        decreases n - r.len(),
    {
        r.push(CoreStatus::Available);
    }
    let mut j: usize = 0;
    while j < device.dev_files.len()
        invariant
            device.wf(),
            n == device.cores.len(),
            busy.len() == device.dev_files.len(),
            j <= device.dev_files.len(),
            r.len() == n,
            forall|c: int| 0 <= c < n ==> status_matches(#[trigger] r@[c], holder(*device, busy@, c as CoreIdx, j as int)),
        decreases device.dev_files.len() - j,
    {
        let f = &device.dev_files[j];
        if busy[j] {
            let ghost prev = r@;
            let mut k: usize = 0;
            while k < f.indices.len()
                invariant
                    device.wf(),
                    n == device.cores.len(),
                    j < device.dev_files.len(),
                    f == device.dev_files@[j as int],
                    k <= f.indices.len(),
                    forall|c: int| 0 <= c < n ==> status_matches(#[trigger] prev[c], holder(*device, busy@, c as CoreIdx, j as int)),
                    r.len() == n,
                    prev.len() == n,
                    forall|c: int| 0 <= c < n ==> if (exists|i: int| 0 <= i < k && f.indices@[i] == c) {
                        (#[trigger] r@[c]) is Occupied && r@[c]->Occupied_0@ == f.name@
                    } else {
                        r@[c] == prev[c]
                    },
                decreases f.indices.len() - k,
            {
                let c = f.indices[k];
                assert(device.dev_files@[j as int].indices@[k as int] < n);
                r.set(c as usize, CoreStatus::Occupied(f.name.clone()));
                assert forall|d: int| 0 <= d < n implies if (exists|i: int| 0 <= i < k + 1 && f.indices@[i] == d) {
                    (#[trigger] r@[d]) is Occupied && r@[d]->Occupied_0@ == f.name@
                } else {
                    r@[d] == prev[d]
                } by {
                    if d == c {
                        assert(f.indices@[k as int] == d);
                    }
                }
                k += 1;
            }
            if f.mode == DeviceMode::MultiCore {
                let mut c: usize = 0;
                while c < n
                    invariant
                        n == device.cores.len(),
                        c <= n,
                        r.len() == n,
                        forall|d: int| 0 <= d < n ==> status_matches(#[trigger] prev[d], holder(*device, busy@, d as CoreIdx, j as int)),
                        prev.len() == n,
                        forall|d: int| 0 <= d < c ==> (#[trigger] r@[d]) is Occupied && r@[d]->Occupied_0@ == f.name@,
                        forall|d: int| c <= d < n ==> if (exists|i: int| 0 <= i < f.indices.len() && f.indices@[i] == d) {
                            (#[trigger] r@[d]) is Occupied && r@[d]->Occupied_0@ == f.name@
                        } else {
                            r@[d] == prev[d]
                        },
                    decreases n - c,
                {
                    r.set(c, CoreStatus::Occupied(f.name.clone()));
                    c += 1;
                }
            }
            assert forall|c: int| 0 <= c < n implies status_matches(#[trigger] r@[c], holder(*device, busy@, c as CoreIdx, j + 1)) by {
                let cc = c as CoreIdx;
                if f.indices@.to_set().contains(cc) {
                    assert(f.indices@.contains(cc));
                }
                if exists|i: int| 0 <= i < f.indices.len() && f.indices@[i] == c {
                    let i = choose|i: int| 0 <= i < f.indices.len() && f.indices@[i] == c;
                    assert(f.indices@.to_set().contains(cc));
                }
                if f.mode == DeviceMode::MultiCore {
                    assert(device.cores@[c] == cc);
                    assert(device.cores@.to_set().contains(cc));
                } else {
                    if device.cores@.to_set().contains(cc) {
                        assert(device.cores@.contains(cc));
                    }
                }
            }
        }
        j += 1;
    }
    r
}

/// `ds` pairs each device of `devices`, in order, with the status map that
/// its probe results `busy` give.
pub open spec fn snapshot_of(devices: Seq<Device>, busy: Seq<Vec<bool>>, ds: Seq<DeviceWithStatus>) -> bool {
    &&& ds.len() == devices.len()
    &&& forall|k: int| 0 <= k < ds.len() ==> (#[trigger] ds[k]).device == devices[k] && status_map_of(devices[k], busy[k]@, ds[k].statuses@)
}

pub open spec fn probes_fit(devices: Seq<Device>, busy: Seq<Vec<bool>>) -> bool {
    &&& busy.len() == devices.len()
    &&& forall|k: int| 0 <= k < devices.len() ==> (#[trigger] devices[k]).wf() && busy[k].len() == devices[k].dev_files.len()
}

/// Pairs every device with its status map; `busy[k]` holds the probe results
/// of the files of `devices[k]`.
pub fn expand_status(devices: Vec<Device>, busy: &Vec<Vec<bool>>) -> (r: Vec<DeviceWithStatus>)
    requires
        probes_fit(devices@, busy@),
    ensures
        snapshot_of(devices@, busy@, r@),
{
    let ghost all = devices@;
    let mut rest = devices;
    let mut r: Vec<DeviceWithStatus> = Vec::new();
    while rest.len() > 0
        invariant
            probes_fit(all, busy@),
            r.len() + rest.len() == all.len(),
            rest@ == all.subrange(r.len() as int, all.len() as int),
            forall|k: int| 0 <= k < r.len() ==> (#[trigger] r@[k]).device == all[k] && status_map_of(all[k], busy@[k]@, r@[k].statuses@),
        decreases rest.len(),
    {
        let k = r.len();
        let device = rest.remove(0);
        assert(device == all[k as int]);
        let statuses = get_status_all(&device, &busy[k]);
        r.push(DeviceWithStatus { device, statuses });
        assert(rest@ =~= all.subrange(r.len() as int, all.len() as int));
    }
    r
}

/// Allocates device files for `config` on `devices`, whose files' probe
/// results are `busy`: the allocation that [`find_devices_in`] makes on the
/// status snapshot that these probes give.
pub fn find_devices(config: &DeviceConfig, devices: Vec<Device>, busy: &Vec<Vec<bool>>) -> (r: Vec<DeviceFile>)
    requires
        probes_fit(devices@, busy@),
    ensures
        exists|ds: Seq<DeviceWithStatus>| snapshot_of(devices@, busy@, ds) && allocated_as(*config, ds, r@),
{
    let ds = expand_status(devices, busy);
    let r = find_devices_in(config, ds.as_slice());
    assert(snapshot_of(devices@, busy@, ds@) && allocated_as(*config, ds@, r@));
    r
}

/// The file of index `j` holds core `c` once probing has passed it, unless a
/// later held file covers `c`: in any case some file holds `c`.
proof fn lemma_holder_some(dev: Device, busy: Seq<bool>, c: CoreIdx, j: int, upto: int)
    requires
        0 <= j < upto,
        busy[j],
        effective_cores(dev, dev.dev_files@[j]).contains(c),
    ensures
        holder(dev, busy, c, upto) is Some,
    decreases upto,
{
    if upto - 1 != j && !(busy[upto - 1] && effective_cores(dev, dev.dev_files@[upto - 1]).contains(c)) {
        lemma_holder_some(dev, busy, c, j, upto - 1);
    }
}

/// A held MultiCore file makes every core of its device show as occupied,
/// whether or not the file names that core.
pub proof fn multicore_busy_occupies_device(dev: Device, busy: Seq<bool>, r: Seq<CoreStatus>, j: int, c: int)
    requires
        dev.wf(),
        busy.len() == dev.dev_files.len(),
        status_map_of(dev, busy, r),
        0 <= j < dev.dev_files.len(),
        busy[j],
        dev.dev_files@[j].mode == DeviceMode::MultiCore,
        0 <= c < dev.cores.len(),
    ensures
        r[c] is Occupied,
{
    assert(dev.cores@[c] == c);
    assert(dev.cores@.to_set().contains(c as CoreIdx));
    lemma_holder_some(dev, busy, c as CoreIdx, j, dev.dev_files.len() as int);
}

} // verus!
