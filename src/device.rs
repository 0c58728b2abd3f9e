use vstd::prelude::*;

verus! {

/// Index of a core, local to its device.
pub type CoreIdx = u8;

/// Device family.
#[derive(Clone, Copy, Debug, PartialEq, Eq, Structural)]
pub enum Arch {
    Warboy,
    Renegade,
}

/// How a device file groups the cores of its device.
#[derive(Clone, Copy, Debug, PartialEq, Eq, Structural)]
pub enum DeviceMode {
    /// One core.
    Single,
    /// A fixed group of cores, acquired together.
    Fusion,
    /// Every core of the device at once.
    MultiCore,
}

/// Occupancy of one core.
#[derive(Debug, PartialEq, Eq)]
pub enum CoreStatus {
    Available,
    /// Held through the device file of this name.
    Occupied(String),
}

impl CoreStatus {
    pub fn is_available(&self) -> (r: bool)
        ensures
            r == (*self is Available),
    {
        match self {
            CoreStatus::Available => true,
            CoreStatus::Occupied(_) => false,
        }
    }
}

/// An OS-visible handle to one grouping of the cores of one device.
#[derive(Debug, PartialEq, Eq)]
pub struct DeviceFile {
    pub device_index: u8,
    /// The cores this file covers by name.
    pub indices: Vec<CoreIdx>,
    pub mode: DeviceMode,
    /// Full path of the file, e.g. `/dev/npu0pe0`.
    pub path: String,
    /// File name, e.g. `npu0pe0`.
    pub name: String,
}

/// Two device files that agree on every field.
pub open spec fn same_file(a: DeviceFile, b: DeviceFile) -> bool {
    &&& a.device_index == b.device_index
    &&& a.indices@ == b.indices@
    &&& a.mode == b.mode
    &&& a.path@ == b.path@
    &&& a.name@ == b.name@
}

impl Clone for DeviceFile {
    fn clone(&self) -> (r: Self)
        ensures
            same_file(r, *self),
    {
        DeviceFile {
            device_index: self.device_index,
            indices: self.indices.clone(),
            mode: self.mode,
            path: self.path.clone(),
            name: self.name.clone(),
        }
    }
}

impl DeviceFile {
    pub fn new(device_index: u8, indices: Vec<CoreIdx>, mode: DeviceMode, path: String, name: String) -> (r: Self)
        ensures
            r.device_index == device_index,
            r.indices@ == indices@,
            r.mode == mode,
            r.path@ == path@,
            r.name@ == name@,
    {
        DeviceFile { device_index, indices, mode, path, name }
    }

    pub fn filename(&self) -> (r: &str)
        ensures
            r@ == self.name@,
    {
        self.name.as_str()
    }

    pub fn mode(&self) -> (r: DeviceMode)
        ensures
            r == self.mode,
    {
        self.mode
    }

    pub fn indices(&self) -> (r: &Vec<CoreIdx>)
        ensures
            r@ == self.indices@,
    {
        &self.indices
    }

    pub fn is_multicore(&self) -> (r: bool)
        ensures
            r == (self.mode == DeviceMode::MultiCore),
    {
        self.mode == DeviceMode::MultiCore
    }
}

/// A physical accelerator: its family, its cores and its device files.
#[derive(Debug, PartialEq, Eq)]
pub struct Device {
    pub index: u8,
    pub arch: Arch,
    pub cores: Vec<CoreIdx>,
    pub dev_files: Vec<DeviceFile>,
}

/// The cores that a file locks when it is in use: the ones it names, and for
/// a MultiCore file every core of its device.
pub open spec fn effective_cores(dev: Device, f: DeviceFile) -> Set<CoreIdx> {
    if f.mode == DeviceMode::MultiCore {
        f.indices@.to_set() + dev.cores@.to_set()
    } else {
        f.indices@.to_set()
    }
}

impl Device {
    /// Cores are numbered densely from 0, and every file names cores of the device.
    pub open spec fn wf(self) -> bool {
        &&& self.cores.len() <= 256
        &&& forall|c: int| 0 <= c < self.cores.len() ==> self.cores@[c] == c
        &&& forall|j: int, k: int|
            0 <= j < self.dev_files.len() && 0 <= k < self.dev_files@[j].indices.len()
                ==> self.dev_files@[j].indices@[k] < self.cores.len()
    }

    pub fn new(index: u8, arch: Arch, cores: Vec<CoreIdx>, dev_files: Vec<DeviceFile>) -> (r: Self)
        ensures
            r.index == index,
            r.arch == arch,
            r.cores@ == cores@,
            r.dev_files@ == dev_files@,
    {
        Device { index, arch, cores, dev_files }
    }

    /// Whether [`Device::wf`] holds.
    pub fn is_well_formed(&self) -> (r: bool)
        ensures
            r == self.wf(),
    {
        let n = self.cores.len();
        if n > 256 {
            return false;
        }
        let mut c: usize = 0;
        while c < n
            invariant
                n == self.cores.len(),
                n <= 256,
                c <= n,
                forall|i: int| 0 <= i < c ==> self.cores@[i] == i,
            decreases n - c,
        {
            if self.cores[c] as usize != c {
                return false;
            }
            c += 1;
        }
        let mut j: usize = 0;
        while j < self.dev_files.len()
            invariant
                n == self.cores.len(),
                j <= self.dev_files.len(),
                forall|a: int, b: int|
                    0 <= a < j && 0 <= b < self.dev_files@[a].indices.len()
                        ==> #[trigger] self.dev_files@[a].indices@[b] < n,
            decreases self.dev_files.len() - j,
        {
            let f = &self.dev_files[j];
            let mut k: usize = 0;
            while k < f.indices.len()
                invariant
                    n == self.cores.len(),
                    j < self.dev_files.len(),
                    f == self.dev_files@[j as int],
                    k <= f.indices.len(),
                    forall|b: int| 0 <= b < k ==> #[trigger] f.indices@[b] < n,
                decreases f.indices.len() - k,
            {
                if f.indices[k] as usize >= n {
                    return false;
                }
                k += 1;
            }
            j += 1;
        }
        true
    }

    pub fn device_index(&self) -> (r: u8)
        ensures
            r == self.index,
    {
        self.index
    }

    pub fn arch(&self) -> (r: Arch)
        ensures
            r == self.arch,
    {
        self.arch
    }

    pub fn cores(&self) -> (r: &Vec<CoreIdx>)
        ensures
            r@ == self.cores@,
    {
        &self.cores
    }

    pub fn dev_files(&self) -> (r: &Vec<DeviceFile>)
        ensures
            r@ == self.dev_files@,
    {
        &self.dev_files
    }
}

} // verus!
