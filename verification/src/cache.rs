//! The GPU cache: the NVIDIA PCI address and device IDs kept across mode
//! switches.

use vstd::prelude::*;
use crate::error::GswitchError;
use crate::helper::{copy_cache_data, CacheFile, CacheState, HostState};
use crate::num::{dec, push_dec};
use crate::num::{parse_radix, parse_unsigned, u32_max};
use crate::text::{chars_eq_str, chars_of, push_str, split_chars, split_on, views};

verus! {

/// The cache format that this version writes and accepts.
pub const CACHE_VERSION: u32 = 2;

/// An NVIDIA PCI vendor and device ID pair.
#[derive(Debug, Clone, Copy, PartialEq, Eq, Structural)]
pub struct NvidiaDeviceId {
    pub vendor: u16,
    pub device: u16,
}

/// The cached NVIDIA bus address (`PCI:BB:DD:F`) and device IDs, with the
/// format version they were written in.
#[derive(Debug)]
pub struct CacheData {
    pub version: u32,
    pub nvidia_gpu_pci_bus: String,
    pub nvidia_device_ids: Vec<NvidiaDeviceId>,
}

impl CacheData {
    /// Cache data of the current format.
    pub fn new(nvidia_gpu_pci_bus: String, device_ids: Vec<NvidiaDeviceId>) -> (r: CacheData)
        ensures
            r.version == CACHE_VERSION,
            r.nvidia_gpu_pci_bus == nvidia_gpu_pci_bus,
            r.nvidia_device_ids == device_ids,
    {
        CacheData { version: CACHE_VERSION, nvidia_gpu_pci_bus, nvidia_device_ids: device_ids }
    }
}

/// `PCI:BB:DD:F` with bus at most 255, device at most 31 and function at
/// most 7, each a decimal `u32` numeral.
pub open spec fn valid_pci_bus(s: Seq<char>) -> bool {
    let p = split_on(s, ':');
    &&& p.len() == 4
    &&& p[0] == "PCI"@
    &&& parse_unsigned(p[1], 10, u32_max()) matches Some(b) && b <= 255
    &&& parse_unsigned(p[2], 10, u32_max()) matches Some(d) && d <= 31
    &&& parse_unsigned(p[3], 10, u32_max()) matches Some(f) && f <= 7
}

/// Reading and writing the GPU cache.
pub struct GpuCache;

impl GpuCache {
    /// Whether `bus` is a well-formed `PCI:BB:DD:F` address in range.
    pub fn validate_pci_bus(bus: &str) -> (r: bool)
        ensures
            r == valid_pci_bus(bus@),
    {
        let v = chars_of(bus);
        let parts = split_chars(&v, ':');
        proof {
            assert(views(parts@).len() == parts@.len());
        }
        if parts.len() != 4 {
            return false;
        }
        proof {
            assert(views(parts@)[0] == parts@[0]@);
            assert(views(parts@)[1] == parts@[1]@);
            assert(views(parts@)[2] == parts@[2]@);
            assert(views(parts@)[3] == parts@[3]@);
        }
        if !chars_eq_str(&parts[0], "PCI") {
            return false;
        }
        let b = parse_radix(&parts[1], 10, 0xffff_ffff);
        let d = parse_radix(&parts[2], 10, 0xffff_ffff);
        let f = parse_radix(&parts[3], 10, 0xffff_ffff);
        match (b, d, f) {
            (Some(b), Some(d), Some(f)) => b <= 255 && d <= 31 && f <= 7,
            _ => false,
        }
    }

    /// Checks cache data as read back: the format version must be the
    /// current one and the bus text well formed.
    pub fn check(data: CacheData) -> (r: Result<CacheData, GswitchError>)
        ensures
            r matches Ok(d) ==> d == data,
            r is Ok <==> data.version == CACHE_VERSION && valid_pci_bus(data.nvidia_gpu_pci_bus@),
            r matches Err(e) ==> (e matches GswitchError::Gpu(m) && m@ == cache_check_error(data.version, data.nvidia_gpu_pci_bus@)),
    {
        if data.version != CACHE_VERSION {
            let mut msg = String::new();
            push_str(&mut msg, "缓存版本不匹配 (期望: 2, 实际: ");
            push_dec(&mut msg, data.version as u64);
            push_str(&mut msg, ")");
            proof {
                assert(msg@ =~= "缓存版本不匹配 (期望: 2, 实际: "@ + dec(data.version as nat) + ")"@);
            }
            return Err(GswitchError::Gpu(msg));
        }
        if !Self::validate_pci_bus(data.nvidia_gpu_pci_bus.as_str()) {
            let mut msg = String::new();
            push_str(&mut msg, "缓存中 PCI 总线格式无效: ");
            push_str(&mut msg, data.nvidia_gpu_pci_bus.as_str());
            proof {
                assert(msg@ =~= "缓存中 PCI 总线格式无效: "@ + data.nvidia_gpu_pci_bus@);
            }
            return Err(GswitchError::Gpu(msg));
        }
        Ok(data)
    }

    /// Stores cache data (no change in dry-run mode).
    pub fn write(host: &mut HostState, data: &CacheData) -> (r: Result<(), GswitchError>)
        requires
            old(host).wf(),
        ensures
            r is Ok,
            final(host).wf(),
            final(host).cache() == if old(host).dry() {
                old(host).cache()
            } else {
                CacheState::Present(data.version, data.nvidia_gpu_pci_bus@, data.nvidia_device_ids@)
            },
            final(host).files() == old(host).files(),
            final(host).services() == old(host).services(),
            final(host).commands() == old(host).commands(),
            final(host).dry() == old(host).dry(),
    {
        let copy = copy_cache_data(data);
        host.store_cache(CacheFile::Present(copy));
        Ok(())
    }

    /// The cache data, when the cache exists, reads, and passes `check`.
    pub fn read(host: &HostState) -> (r: Result<CacheData, GswitchError>)
        ensures
            r matches Ok(d) ==> host.cache() == CacheState::Present(d.version, d.nvidia_gpu_pci_bus@, d.nvidia_device_ids@),
            r is Ok <==> cache_usable(host.cache()),
            r matches Err(e) ==> (e matches GswitchError::Gpu(m) && m@ == cache_error(host.cache())),
    {
        match host.cache_file() {
            CacheFile::Absent => Err(GswitchError::Gpu(String::from_str("读取缓存失败: 缓存文件不存在"))),
            CacheFile::Unreadable(msg) => Err(GswitchError::Gpu(msg.clone())),
            CacheFile::Present(d) => Self::check(copy_cache_data(d)),
        }
    }

    /// Deletes the cache (no change in dry-run mode).
    pub fn delete(host: &mut HostState) -> (r: Result<(), GswitchError>)
        requires
            old(host).wf(),
        ensures
            r is Ok,
            final(host).wf(),
            final(host).cache() == if old(host).dry() { old(host).cache() } else { CacheState::Absent },
            final(host).files() == old(host).files(),
            final(host).services() == old(host).services(),
            final(host).commands() == old(host).commands(),
            final(host).dry() == old(host).dry(),
    {
        host.store_cache(CacheFile::Absent);
        Ok(())
    }

    /// The cache data to show, or the text shown when there is none.
    pub fn query(host: &HostState) -> (r: Result<CacheData, String>)
        ensures
            r matches Ok(d) ==> host.cache() == CacheState::Present(d.version, d.nvidia_gpu_pci_bus@, d.nvidia_device_ids@),
            r is Ok <==> cache_usable(host.cache()),
            r matches Err(m) ==> m@ == "无缓存数据"@,
    {
        match Self::read(host) {
            Ok(d) => Ok(d),
            Err(_) => Err(String::from_str("无缓存数据")),
        }
    }
}

/// Why cache data of this version and bus text is refused.
pub open spec fn cache_check_error(version: u32, bus: Seq<char>) -> Seq<char> {
    if version != CACHE_VERSION {
        "缓存版本不匹配 (期望: 2, 实际: "@ + dec(version as nat) + ")"@
    } else {
        "缓存中 PCI 总线格式无效: "@ + bus
    }
}

/// Why the cache cannot be used: missing, unreadable (the text says why),
/// or refused by the check.
pub open spec fn cache_error(c: CacheState) -> Seq<char> {
    match c {
        CacheState::Absent => "读取缓存失败: 缓存文件不存在"@,
        CacheState::Unreadable(m) => m,
        CacheState::Present(v, bus, _) => cache_check_error(v, bus),
    }
}

/// The cache exists, reads, has the current format and a well-formed bus.
pub open spec fn cache_usable(c: CacheState) -> bool {
    c matches CacheState::Present(v, bus, ids) && v == CACHE_VERSION && valid_pci_bus(bus)
}

/// What `write` stores, `read` gives back: cache data of the current
/// format is read back (with the same bus text and device IDs, see `read`)
/// exactly when its bus text is well formed.
pub proof fn lemma_cache_write_then_read(bus: Seq<char>, ids: Seq<NvidiaDeviceId>)
    ensures
        cache_usable(CacheState::Present(CACHE_VERSION, bus, ids)) <==> valid_pci_bus(bus),
{
}

} // verus!
