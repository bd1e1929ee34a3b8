//! Hardware detection: which GPUs the machine has, whether it can switch,
//! the current mode, the sleep mode, and the recommended mode.
//!
//! The caller reads sysfs, `/proc` and the NVIDIA driver's
//! `supported-gpus.json` into a `SystemInfo`; the functions here decide.

use vstd::prelude::*;
use crate::config::{
    DEFAULT_DISCRETE_MODELS, EXTERNAL_DISPLAY_REQUIRES_NVIDIA, MODESET_PATH,
    MODPROBE_GPU_PATH, NON_SWITCHABLE_CHASSIS_TYPES, NVIDIA_DOC_PATTERNS, NVIDIA_GPU_JSON_ALT_PATHS, PRIME_DISCRETE_PATH,
};
use crate::error::GswitchError;
use crate::graphics::GraphicsMode;
use crate::helper::{file_at, file_exists, read_file, CacheFile, CacheState, HostState};
use crate::num::{hex_padded, parse_radix, parse_unsigned, push_hex_padded, u32_max};
use crate::text::{
    chars_eq, chars_eq_str, chars_of, contains_str, has_sub, lines_chars, lines_of, push_str, slice_chars,
    starts_with, starts_with_str, string_of, strip_prefixes, strip_prefixes_chars, trim, trim_chars, views,
    words, words_chars, join_path, joined_path,
};

verus! {

/// One PCI function as sysfs shows it: its address and the raw contents of
/// its `class`, `vendor` and `device` attributes (empty when unreadable).
#[derive(Debug)]
pub struct PciDevice {
    pub name: String,
    pub class: String,
    pub vendor: String,
    pub device: String,
}

/// An entry of the NVIDIA driver's `supported-gpus.json`.
#[derive(Debug)]
pub struct NvidiaDevice {
    pub devid: String,
    pub name: String,
    pub features: Vec<String>,
}

/// Which initramfs tools and markers exist on the host.
#[derive(Debug, Clone, Copy)]
pub struct InitramfsTools {
    /// `/ostree`
    pub ostree: bool,
    /// `/sysroot/ostree`
    pub sysroot_ostree: bool,
    /// `/usr/sbin/update-initramfs`
    pub usr_sbin_update_initramfs: bool,
    /// `/sbin/update-initramfs`
    pub sbin_update_initramfs: bool,
    /// `/usr/bin/mkinitcpio`
    pub usr_bin_mkinitcpio: bool,
    /// `/usr/bin/dracut`
    pub usr_bin_dracut: bool,
    /// `/usr/sbin/dracut`
    pub usr_sbin_dracut: bool,
    /// `/usr/bin/systemd-inhibit`
    pub usr_bin_systemd_inhibit: bool,
}

/// What detection reads from the host.
#[derive(Debug)]
pub struct SystemInfo {
    /// `/sys/class/dmi/id/chassis_type` (empty when unreadable).
    pub chassis_type: String,
    /// The functions under `/sys/bus/pci/devices`, or why they could not be
    /// listed (the directory is missing or unreadable).
    pub pci_devices: Result<Vec<PciDevice>, String>,
    /// `/sys/class/dmi/id/product_version` (empty when unreadable).
    pub product_version: String,
    /// `/sys/class/dmi/id/sys_vendor` (empty when unreadable).
    pub sys_vendor: String,
    /// `/proc/modules` (empty when unreadable).
    pub proc_modules: String,
    /// `/sys/power/mem_sleep` (empty when unreadable).
    pub mem_sleep: String,
    /// The entries of every `supported-gpus.json` found, or why none could be
    /// had.
    pub supported_gpus: Result<Vec<NvidiaDevice>, String>,
    /// Initramfs tools present.
    pub tools: InitramfsTools,
    /// Whether `/etc/X11/xorg.conf.d` exists.
    pub xorg_conf_dir: bool,
}

/// The system's sleep mode.
#[derive(Debug, Clone, Copy, PartialEq, Eq, Structural)]
pub enum SleepMode {
    S0ix,
    S3,
    /// Not detectable (`mem_sleep` missing or of unknown form).
    Unknown,
}

/// A display controller: its PCI address and device ID.
#[derive(Debug)]
pub struct GpuInfo {
    pub pci_id: String,
    pub device_id: u16,
}

/// The display controllers by vendor, in sysfs order.
#[derive(Debug)]
pub struct DetectedGpus {
    pub nvidia: Vec<GpuInfo>,
    pub amd: Vec<GpuInfo>,
    pub intel: Vec<GpuInfo>,
}

pub open spec fn u16_max() -> nat {
    0xffff
}

/// The value of a hexadecimal sysfs attribute: whitespace trimmed, leading
/// `0x` removed, 0 when it does not parse.
pub open spec fn attr_value(raw: Seq<char>, max: nat) -> nat {
    match parse_unsigned(strip_prefixes(trim(raw), "0x"@), 16, max) {
        Some(v) => v,
        None => 0,
    }
}

/// A display controller (PCI class `0x03xxxx`).
pub open spec fn is_display(d: PciDevice) -> bool {
    attr_value(d.class@, u32_max()) / 0x10000 == 3
}

/// The display controllers of one vendor, as address and device ID.
pub open spec fn gpus_of(devs: Seq<PciDevice>, vendor: nat) -> Seq<(Seq<char>, nat)>
    decreases devs.len(),
{
    if devs.len() == 0 {
        Seq::empty()
    } else {
        let d = devs.last();
        let rest = gpus_of(devs.drop_last(), vendor);
        if is_display(d) && attr_value(d.vendor@, u16_max()) == vendor {
            rest.push((d.name@, attr_value(d.device@, u16_max())))
        } else {
            rest
        }
    }
}

/// Address and device ID of detected controllers.
pub open spec fn infos(v: Seq<GpuInfo>) -> Seq<(Seq<char>, nat)> {
    v.map_values(|g: GpuInfo| (g.pci_id@, g.device_id as nat))
}

pub open spec fn nvidia_vendor() -> nat {
    0x10de
}

pub open spec fn amd_vendor() -> nat {
    0x1002
}

pub open spec fn intel_vendor() -> nat {
    0x8086
}

/// Every PCI function from NVIDIA, as vendor and device ID.
pub open spec fn nvidia_functions(devs: Seq<PciDevice>) -> Seq<(nat, nat)>
    decreases devs.len(),
{
    if devs.len() == 0 {
        Seq::empty()
    } else {
        let d = devs.last();
        let rest = nvidia_functions(devs.drop_last());
        if attr_value(d.vendor@, u16_max()) == nvidia_vendor() {
            rest.push((nvidia_vendor(), attr_value(d.device@, u16_max())))
        } else {
            rest
        }
    }
}

/// The chassis type number, 0 when unreadable.
pub open spec fn chassis_number(raw: Seq<char>) -> nat {
    match parse_unsigned(trim(raw), 10, u32_max()) {
        Some(v) => v,
        None => 0,
    }
}

/// A desktop or server chassis.
pub open spec fn is_fixed_chassis(raw: Seq<char>) -> bool {
    let n = chassis_number(raw);
    n != 0 && NON_SWITCHABLE_CHASSIS_TYPES@.contains(n as u32)
}

/// The rule for switching: a laptop (or unknown chassis) with an NVIDIA
/// GPU and an integrated GPU, or with an integrated GPU and a cache (the
/// NVIDIA GPU removed by integrated mode).
pub open spec fn switchable(sys: SystemInfo, cache: CacheState) -> bool {
    let devs = sys.pci_devices.unwrap()@;
    let has_nvidia = gpus_of(devs, nvidia_vendor()).len() > 0;
    let has_igpu = gpus_of(devs, amd_vendor()).len() > 0 || gpus_of(devs, intel_vendor()).len() > 0;
    !is_fixed_chassis(sys.chassis_type@) && (has_igpu && (has_nvidia || cache !is Absent))
}

/// Names of the NVIDIA kernel modules.
pub open spec fn is_nvidia_module(name: Seq<char>) -> bool {
    name == "nvidia"@ || name == "nvidia_drm"@ || name == "nvidia_current"@ || name == "nvidia_current_drm"@
}

/// The first word of a line, empty when it has none.
pub open spec fn first_word(l: Seq<char>) -> Seq<char> {
    if words(l).len() > 0 {
        words(l)[0]
    } else {
        Seq::empty()
    }
}

/// `/proc/modules` lists an NVIDIA module.
pub open spec fn nvidia_loaded(modules: Seq<char>) -> bool {
    exists|i: int| 0 <= i < lines_of(modules).len() && is_nvidia_module(first_word(#[trigger] lines_of(modules)[i]))
}

/// A modprobe text binds devices to vfio-pci on a line that is not a
/// comment.
pub open spec fn binds_vfio(content: Seq<char>) -> bool {
    exists|i: int|
        0 <= i < lines_of(content).len() && !starts_with(trim(#[trigger] lines_of(content)[i]), "#"@)
            && has_sub(lines_of(content)[i], "options vfio-pci"@)
}

/// A file's content, empty when it is missing.
pub open spec fn content_or_empty(files: Map<Seq<char>, Seq<char>>, path: Seq<char>) -> Seq<char> {
    match file_at(files, path) {
        Some(c) => c,
        None => Seq::empty(),
    }
}

/// The mode the machine is in: passthrough when the modprobe file binds
/// vfio-pci; otherwise integrated when no NVIDIA module is loaded; otherwise
/// NVIDIA when the PRIME flag is `on`, hybrid when it is `on-demand` or the
/// modeset file exists, and NVIDIA when nothing tells.
pub open spec fn current_mode(modules: Seq<char>, files: Map<Seq<char>, Seq<char>>) -> GraphicsMode {
    let prime = trim(content_or_empty(files, PRIME_DISCRETE_PATH@));
    if binds_vfio(content_or_empty(files, MODPROBE_GPU_PATH@)) {
        GraphicsMode::Passthrough
    } else if !nvidia_loaded(modules) {
        GraphicsMode::Integrated
    } else if prime == "on"@ {
        GraphicsMode::Nvidia
    } else if prime == "on-demand"@ || files.dom().contains(MODESET_PATH@) {
        GraphicsMode::Hybrid
    } else {
        GraphicsMode::Nvidia
    }
}

/// The sleep mode that `mem_sleep` selects: the bracketed default first,
/// then any mention.
pub open spec fn sleep_mode_of(mem_sleep: Seq<char>) -> SleepMode {
    if has_sub(mem_sleep, "[s2idle]"@) {
        SleepMode::S0ix
    } else if has_sub(mem_sleep, "[deep]"@) {
        SleepMode::S3
    } else if has_sub(mem_sleep, "s2idle"@) {
        SleepMode::S0ix
    } else if has_sub(mem_sleep, "deep"@) {
        SleepMode::S3
    } else {
        SleepMode::Unknown
    }
}

/// The device ID in a `supported-gpus.json` entry: `0x` removed, then
/// whitespace trimmed, read as hexadecimal.
pub open spec fn devid_value(devid: Seq<char>) -> Option<nat> {
    parse_unsigned(trim(strip_prefixes(devid, "0x"@)), 16, u16_max())
}

/// The position of the first entry for device `id`.
pub open spec fn first_device_with(devs: Seq<NvidiaDevice>, id: nat, i: int) -> bool {
    &&& 0 <= i < devs.len()
    &&& devid_value(devs[i].devid@) == Some(id)
    &&& forall|j: int| 0 <= j < i ==> devid_value(#[trigger] devs[j].devid@) != Some(id)
}

/// Two first entries for the same device are the same entry.
pub proof fn lemma_first_device_unique(devs: Seq<NvidiaDevice>, id: nat, i: int, j: int)
    requires
        first_device_with(devs, id, i),
        first_device_with(devs, id, j),
    ensures
        i == j,
{
    if i < j {
        assert(devid_value(devs[i].devid@) != Some(id));
    }
    if j < i {
        assert(devid_value(devs[j].devid@) != Some(id));
    }
}

/// A display controller of a vendor anywhere in the device list is among
/// that vendor's detected GPUs.
pub proof fn lemma_display_detected(devs: Seq<PciDevice>, vendor: nat, i: int)
    requires
        0 <= i < devs.len(),
        is_display(devs[i]),
        attr_value(devs[i].vendor@, u16_max()) == vendor,
    ensures
        gpus_of(devs, vendor).len() > 0,
    decreases devs.len(),
{
    if i < devs.len() - 1 {
        assert(devs.drop_last()[i] == devs[i]);
        lemma_display_detected(devs.drop_last(), vendor, i);
    }
}

/// A vendor and device pair that belongs to one of the PCI functions of
/// NVIDIA.
pub open spec fn nvidia_pair_of(devs: Seq<PciDevice>, p: (nat, nat)) -> bool {
    exists|i: int| 0 <= i < devs.len() && attr_value(devs[i].vendor@, u16_max()) == 0x10de
        && p == (0x10de as nat, #[trigger] attr_value(devs[i].device@, u16_max()))
}

/// A PCI function of NVIDIA is among the NVIDIA functions.
proof fn lemma_nvidia_function_listed(devs: Seq<PciDevice>, i: int)
    requires
        0 <= i < devs.len(),
        attr_value(devs[i].vendor@, u16_max()) == 0x10de,
    ensures
        nvidia_functions(devs).contains((0x10de as nat, attr_value(devs[i].device@, u16_max()))),
    decreases devs.len(),
{
    let f = nvidia_functions(devs);
    let p = (0x10de as nat, attr_value(devs[i].device@, u16_max()));
    if i < devs.len() - 1 {
        let rest = devs.drop_last();
        assert(rest[i] == devs[i]);
        lemma_nvidia_function_listed(rest, i);
        let fr = nvidia_functions(rest);
        let j = choose|j: int| 0 <= j < fr.len() && fr[j] == p;
        assert(f[j] == p);
    } else {
        assert(f[f.len() - 1] == p);
    }
}

/// Each listed NVIDIA function is the device ID of a PCI function of NVIDIA.
proof fn lemma_nvidia_function_found(devs: Seq<PciDevice>, k: int) -> (i: int)
    requires
        0 <= k < nvidia_functions(devs).len(),
    ensures
        0 <= i < devs.len(),
        attr_value(devs[i].vendor@, u16_max()) == 0x10de,
        nvidia_functions(devs)[k] == (0x10de as nat, attr_value(devs[i].device@, u16_max())),
    decreases devs.len(),
{
    let rest = devs.drop_last();
    let fr = nvidia_functions(rest);
    if k < fr.len() {
        let i = lemma_nvidia_function_found(rest, k);
        assert(rest[i] == devs[i]);
        i
    } else {
        devs.len() - 1
    }
}

/// The NVIDIA functions are exactly the PCI functions whose vendor is
/// NVIDIA, display controller or not: each one's device ID is listed, and
/// every listed pair is the NVIDIA vendor with the device ID of one of them.
pub proof fn lemma_nvidia_functions_complete(devs: Seq<PciDevice>)
    ensures
        forall|i: int|
            0 <= i < devs.len() && attr_value(#[trigger] devs[i].vendor@, u16_max()) == 0x10de ==> nvidia_functions(devs).contains(
                (0x10de as nat, attr_value(devs[i].device@, u16_max())),
            ),
        forall|k: int| 0 <= k < nvidia_functions(devs).len() ==> nvidia_pair_of(devs, #[trigger] nvidia_functions(devs)[k]),
{
    assert forall|i: int|
        0 <= i < devs.len() && attr_value(#[trigger] devs[i].vendor@, u16_max()) == 0x10de implies nvidia_functions(devs).contains(
            (0x10de as nat, attr_value(devs[i].device@, u16_max())),
        ) by {
        lemma_nvidia_function_listed(devs, i);
    }
    assert forall|k: int| 0 <= k < nvidia_functions(devs).len() implies nvidia_pair_of(devs, #[trigger] nvidia_functions(devs)[k]) by {
        let i = lemma_nvidia_function_found(devs, k);
        assert(0 <= i < devs.len() && attr_value(devs[i].vendor@, u16_max()) == 0x10de
            && nvidia_functions(devs)[k] == (0x10de as nat, attr_value(devs[i].device@, u16_max())));
    }
}

/// On a chassis that is not a desktop or server, a machine whose PCI
/// functions include an NVIDIA display controller is switchable as soon as
/// they also include an AMD or an Intel display controller: either vendor
/// counts as the integrated GPU.
pub proof fn lemma_switchable_with_either_integrated_gpu(sys: SystemInfo, cache: CacheState, n: int, g: int)
    requires
        !is_fixed_chassis(sys.chassis_type@),
        sys.pci_devices is Ok,
        0 <= n < sys.pci_devices.unwrap()@.len(),
        0 <= g < sys.pci_devices.unwrap()@.len(),
        is_display(sys.pci_devices.unwrap()@[n]),
        attr_value(sys.pci_devices.unwrap()@[n].vendor@, u16_max()) == 0x10de,
        is_display(sys.pci_devices.unwrap()@[g]),
        attr_value(sys.pci_devices.unwrap()@[g].vendor@, u16_max()) == 0x1002
            || attr_value(sys.pci_devices.unwrap()@[g].vendor@, u16_max()) == 0x8086,
    ensures
        switchable(sys, cache),
{
    let devs = sys.pci_devices.unwrap()@;
    lemma_display_detected(devs, 0x10de, n);
    lemma_display_detected(devs, attr_value(devs[g].vendor@, u16_max()), g);
}

/// Whether the first NVIDIA display controller supports runtime power
/// management: its first `supported-gpus.json` entry lists `runtimepm`.
/// `Some(false)` without an NVIDIA controller; `None` (no answer) when the
/// PCI directory is missing, the JSON could not be had, or no entry matches.
pub open spec fn runtimepm_of(sys: SystemInfo) -> Option<bool> {
    match sys.pci_devices {
        Err(_) => None,
        Ok(devs) => {
            let g = gpus_of(devs@, nvidia_vendor());
            if g.len() == 0 {
                Some(false)
            } else {
                match sys.supported_gpus {
                    Err(_) => None,
                    Ok(list) => if exists|i: int| first_device_with(list@, g[0].1, i) {
                        let i = choose|i: int| first_device_with(list@, g[0].1, i);
                        Some(list@[i].features@.map_values(|f: String| f@).contains("runtimepm"@))
                    } else {
                        None
                    },
                }
            }
        },
    }
}

/// The model name is on a list, both compared in lower case.
pub open spec fn model_listed(list: Seq<&'static str>, product: Seq<char>) -> bool {
    exists|i: int| 0 <= i < list.len() && str_lowercase(#[trigger] list[i]@) == str_lowercase(trim(product))
}

/// Lower-case form of a string (`str::to_lowercase`, full Unicode mapping).
pub uninterp spec fn str_lowercase(s: Seq<char>) -> Seq<char>;

/// `str::to_lowercase`: the Unicode lower-case mapping of every character.
#[verifier::external_body]
fn to_lowercase(s: &str) -> (r: String)
    ensures
        r@ == str_lowercase(s@),
{
    s.to_lowercase()
}

/// Why the PCI functions could not be listed (empty when they could).
pub open spec fn pci_dir_error(sys: SystemInfo) -> Seq<char> {
    match sys.pci_devices {
        Err(m) => m@,
        Ok(_) => Seq::empty(),
    }
}

/// The message when the first NVIDIA controller has no entry in the NVIDIA
/// GPU list, or the list could not be had.
pub open spec fn device_lookup_error(gpus: Result<Vec<NvidiaDevice>, String>, id: nat) -> Seq<char> {
    match gpus {
        Err(m) => m@,
        Ok(_) => "在所有 supported-gpus.json 中均未找到设备 0x"@ + hex_padded(id, 4),
    }
}

/// Why `runtimepm_of` has no answer.
pub open spec fn runtimepm_error(sys: SystemInfo) -> Seq<char> {
    match sys.pci_devices {
        Err(m) => m@,
        Ok(devs) => device_lookup_error(sys.supported_gpus, gpus_of(devs@, nvidia_vendor())[0].1),
    }
}

/// The hardware detector.
pub struct Detector;

impl Detector {
    /// The display controllers by vendor (NVIDIA `0x10de`, AMD `0x1002`,
    /// Intel `0x8086`), in the order sysfs lists them.
    pub fn detect_all(sys: &SystemInfo) -> (r: Result<DetectedGpus, GswitchError>)
        ensures
            r matches Ok(g) ==> sys.pci_devices matches Ok(devs) && infos(g.nvidia@) == gpus_of(devs@, nvidia_vendor())
                && infos(g.amd@) == gpus_of(devs@, amd_vendor()) && infos(g.intel@) == gpus_of(devs@, intel_vendor()),
            r matches Err(e) ==> (e matches GswitchError::Gpu(m) && m@ == pci_dir_error(*sys) && sys.pci_devices is Err),
    {
        let devs = match &sys.pci_devices {
            Ok(d) => d,
            Err(m) => {
                return Err(GswitchError::Gpu(m.clone()));
            },
        };
        let mut nvidia: Vec<GpuInfo> = Vec::new();
        let mut amd: Vec<GpuInfo> = Vec::new();
        let mut intel: Vec<GpuInfo> = Vec::new();
        let mut i: usize = 0;
        while i < devs.len()
            invariant
                i <= devs.len(),
                infos(nvidia@) == gpus_of(devs@.take(i as int), nvidia_vendor()),
                infos(amd@) == gpus_of(devs@.take(i as int), amd_vendor()),
                infos(intel@) == gpus_of(devs@.take(i as int), intel_vendor()),
            decreases devs.len() - i,
        {
            let d = &devs[i];
            let class = attr_number(&d.class, 0xffff_ffff);
            let vendor = attr_number(&d.vendor, 0xffff);
            let device = attr_number(&d.device, 0xffff);
            proof {
                assert(devs@.take(i as int + 1).drop_last() =~= devs@.take(i as int));
                assert(devs@.take(i as int + 1).last() == *d);
            }
            if class / 0x10000 == 3 {
                let gpu = GpuInfo { pci_id: d.name.clone(), device_id: device as u16 };
                let ghost gv = (gpu.pci_id@, gpu.device_id as nat);
                if vendor == 0x10de {
                    let ghost old_v = nvidia@;
                    nvidia.push(gpu);
                    proof { assert(infos(nvidia@) =~= infos(old_v).push(gv)); }
                } else if vendor == 0x1002 {
                    let ghost old_v = amd@;
                    amd.push(gpu);
                    proof { assert(infos(amd@) =~= infos(old_v).push(gv)); }
                } else if vendor == 0x8086 {
                    let ghost old_v = intel@;
                    intel.push(gpu);
                    proof { assert(infos(intel@) =~= infos(old_v).push(gv)); }
                }
            }
            i += 1;
        }
        proof {
            assert(devs@.take(devs.len() as int) =~= devs@);
        }
        Ok(DetectedGpus { nvidia, amd, intel })
    }

    /// Whether the machine can switch GPUs (see `switchable`); an error when
    /// the PCI device directory is missing on a machine that is not a
    /// desktop or server.
    pub fn can_switch(sys: &SystemInfo, host: &HostState) -> (r: Result<bool, GswitchError>)
        ensures
            r is Err <==> !is_fixed_chassis(sys.chassis_type@) && sys.pci_devices is Err,
            r matches Ok(b) ==> b == switchable(*sys, host.cache()),
            r matches Err(e) ==> (e matches GswitchError::Gpu(m) && m@ == pci_dir_error(*sys)),
    {
        let chassis = chassis_value(&sys.chassis_type);
        let mut fixed = false;
        let mut k: usize = 0;
        while k < 7
            invariant
                k <= 7,
                fixed == exists|j: int| 0 <= j < k && NON_SWITCHABLE_CHASSIS_TYPES@[j] == chassis,
            decreases 7 - k,
        {
            if NON_SWITCHABLE_CHASSIS_TYPES[k] == chassis {
                fixed = true;
            }
            k += 1;
        }
        proof {
            if fixed {
                let j = choose|j: int| 0 <= j < 7 && NON_SWITCHABLE_CHASSIS_TYPES@[j] == chassis;
                assert(NON_SWITCHABLE_CHASSIS_TYPES@.contains(chassis));
            }
            if NON_SWITCHABLE_CHASSIS_TYPES@.contains(chassis) {
                let j = choose|j: int| 0 <= j < NON_SWITCHABLE_CHASSIS_TYPES@.len() && NON_SWITCHABLE_CHASSIS_TYPES@[j] == chassis;
                assert(j < 7);
            }
        }
        if chassis != 0 && fixed {
            return Ok(false);
        }
        let gpus = Self::detect_all(sys)?;
        let has_nvidia = gpus.nvidia.len() > 0;
        let has_igpu = gpus.amd.len() > 0 || gpus.intel.len() > 0;
        if has_nvidia && has_igpu {
            return Ok(true);
        }
        let cache_present = match host.cache_file() {
            CacheFile::Absent => false,
            _ => true,
        };
        Ok(has_igpu && cache_present)
    }

    /// The mode the machine is in (see `current_mode`).
    pub fn query_current_mode(sys: &SystemInfo, host: &HostState) -> (r: GraphicsMode)
        requires
            host.wf(),
        ensures
            r == current_mode(sys.proc_modules@, host.files()),
    {
        let modules = chars_of(sys.proc_modules.as_str());
        let nvidia_loaded = any_nvidia_module(&modules);
        let prime = match read_file(host, PRIME_DISCRETE_PATH) {
            Ok(s) => trim_chars(&chars_of(s.as_str())),
            Err(_) => Vec::new(),
        };
        proof {
            if file_at(host.files(), PRIME_DISCRETE_PATH@) is None {
                assert(prime@ =~= trim(Seq::<char>::empty()));
            }
        }
        let has_modeset = file_exists(host, MODESET_PATH);
        let modprobe = match read_file(host, MODPROBE_GPU_PATH) {
            Ok(s) => chars_of(s.as_str()),
            Err(_) => Vec::new(),
        };
        proof {
            if file_at(host.files(), MODPROBE_GPU_PATH@) is None {
                assert(modprobe@ =~= Seq::<char>::empty());
            }
        }
        if any_vfio_binding(&modprobe) {
            return GraphicsMode::Passthrough;
        }
        if !nvidia_loaded {
            return GraphicsMode::Integrated;
        }
        if chars_eq_str(&prime, "on") {
            return GraphicsMode::Nvidia;
        }
        if chars_eq_str(&prime, "on-demand") || has_modeset {
            return GraphicsMode::Hybrid;
        }
        GraphicsMode::Nvidia
    }

    /// The raw PCI address of the first NVIDIA display controller.
    pub fn get_nvidia_pci_id(sys: &SystemInfo) -> (r: Result<String, GswitchError>)
        ensures
            r matches Ok(s) ==> sys.pci_devices matches Ok(devs) && gpus_of(devs@, nvidia_vendor()).len() > 0
                && s@ == gpus_of(devs@, nvidia_vendor())[0].0,
            r is Err ==> sys.pci_devices is Err || gpus_of(sys.pci_devices.unwrap()@, nvidia_vendor()).len() == 0,
            r matches Err(e) ==> (e matches GswitchError::Gpu(m)
                && m@ == if sys.pci_devices is Err { pci_dir_error(*sys) } else { "未找到 NVIDIA GPU"@ }),
    {
        let gpus = Self::detect_all(sys)?;
        if gpus.nvidia.len() == 0 {
            return Err(GswitchError::Gpu(String::from_str("未找到 NVIDIA GPU")));
        }
        proof {
            assert(infos(gpus.nvidia@)[0] == (gpus.nvidia@[0].pci_id@, gpus.nvidia@[0].device_id as nat));
        }
        Ok(gpus.nvidia[0].pci_id.clone())
    }

    /// Vendor and device ID of every NVIDIA PCI function (display or not).
    pub fn get_all_nvidia_ids(sys: &SystemInfo) -> (r: Result<Vec<(u16, u16)>, GswitchError>)
        ensures
            r matches Ok(ids) ==> sys.pci_devices matches Ok(devs) && ids@.len() > 0
                && ids@.map_values(|p: (u16, u16)| (p.0 as nat, p.1 as nat)) == nvidia_functions(devs@),
            r is Err ==> sys.pci_devices is Err || nvidia_functions(sys.pci_devices.unwrap()@).len() == 0,
            r matches Err(e) ==> (e matches GswitchError::Gpu(m)
                && m@ == if sys.pci_devices is Err { pci_dir_error(*sys) } else { "未找到任何 NVIDIA PCI 设备"@ }),
    {
        let devs = match &sys.pci_devices {
            Ok(d) => d,
            Err(m) => {
                return Err(GswitchError::Gpu(m.clone()));
            },
        };
        let mut ids: Vec<(u16, u16)> = Vec::new();
        let mut i: usize = 0;
        while i < devs.len()
            invariant
                i <= devs.len(),
                ids@.map_values(|p: (u16, u16)| (p.0 as nat, p.1 as nat)) == nvidia_functions(devs@.take(i as int)),
            decreases devs.len() - i,
        {
            let d = &devs[i];
            let vendor = attr_number(&d.vendor, 0xffff);
            proof {
                assert(devs@.take(i as int + 1).drop_last() =~= devs@.take(i as int));
                assert(devs@.take(i as int + 1).last() == *d);
            }
            if vendor == 0x10de {
                let device = attr_number(&d.device, 0xffff);
                let ghost old_ids = ids@;
                ids.push((vendor as u16, device as u16));
                proof {
                    assert(ids@.map_values(|p: (u16, u16)| (p.0 as nat, p.1 as nat)) =~= old_ids.map_values(|p: (u16, u16)| (p.0 as nat, p.1 as nat)).push((vendor as nat, device as nat)));
                }
            }
            i += 1;
        }
        proof {
            assert(devs@.take(devs.len() as int) =~= devs@);
        }
        if ids.len() == 0 {
            return Err(GswitchError::Gpu(String::from_str("未找到任何 NVIDIA PCI 设备")));
        }
        Ok(ids)
    }

    /// Whether an NVIDIA display controller is present in sysfs.
    pub fn is_nvidia_online(sys: &SystemInfo) -> (r: bool)
        ensures
            r == (sys.pci_devices matches Ok(devs) && gpus_of(devs@, nvidia_vendor()).len() > 0),
    {
        match Self::detect_all(sys) {
            Ok(g) => g.nvidia.len() > 0,
            Err(_) => false,
        }
    }

    /// The sleep mode that `/sys/power/mem_sleep` selects.
    pub fn detect_sleep_mode(sys: &SystemInfo) -> (r: SleepMode)
        ensures
            r == sleep_mode_of(sys.mem_sleep@),
    {
        let m = chars_of(sys.mem_sleep.as_str());
        if contains_str(&m, "[s2idle]") {
            return SleepMode::S0ix;
        }
        if contains_str(&m, "[deep]") {
            return SleepMode::S3;
        }
        if contains_str(&m, "s2idle") {
            return SleepMode::S0ix;
        }
        if contains_str(&m, "deep") {
            return SleepMode::S3;
        }
        SleepMode::Unknown
    }

    /// The first `supported-gpus.json` entry for device `id`.
    pub fn get_nvidia_device(sys: &SystemInfo, id: u16) -> (r: Result<&NvidiaDevice, GswitchError>)
        ensures
            r matches Ok(d) ==> sys.supported_gpus matches Ok(devs) && exists|i: int| first_device_with(devs@, id as nat, i) && *d == devs@[i],
            r is Err ==> (sys.supported_gpus is Err || forall|i: int| 0 <= i < sys.supported_gpus.unwrap()@.len() ==> devid_value(#[trigger] sys.supported_gpus.unwrap()@[i].devid@) != Some(id as nat)),
            r matches Err(e) ==> (e matches GswitchError::Gpu(m) && m@ == device_lookup_error(sys.supported_gpus, id as nat)),
    {
        let devs = match &sys.supported_gpus {
            Ok(d) => d,
            Err(msg) => {
                return Err(GswitchError::Gpu(msg.clone()));
            },
        };
        let mut i: usize = 0;
        while i < devs.len()
            invariant
                i <= devs.len(),
                sys.supported_gpus is Ok,
                sys.supported_gpus.unwrap() == *devs,
                forall|j: int| 0 <= j < i ==> devid_value(#[trigger] devs@[j].devid@) != Some(id as nat),
            decreases devs.len() - i,
        {
            let stripped = strip_prefixes_chars(&chars_of(devs[i].devid.as_str()), &chars_of("0x"));
            let did = trim_chars(&stripped);
            match parse_radix(&did, 16, 0xffff) {
                Some(v) => {
                    if v == id as u32 {
                        proof {
                            assert(sys.supported_gpus.unwrap()@ == devs@);
                            assert(first_device_with(devs@, id as nat, i as int));
                            assert(first_device_with(sys.supported_gpus.unwrap()@, id as nat, i as int) && devs@[i as int] == sys.supported_gpus.unwrap()@[i as int]);
                        }
                        return Ok(&devs[i]);
                    }
                },
                None => {},
            }
            i += 1;
        }
        let mut msg = String::new();
        push_str(&mut msg, "在所有 supported-gpus.json 中均未找到设备 0x");
        push_hex_padded(&mut msg, id as u32, 4);
        Err(GswitchError::Gpu(msg))
    }

    /// Whether the first NVIDIA display controller supports runtime power
    /// management (see `runtimepm_of`).
    pub fn gpu_supports_runtimepm(sys: &SystemInfo) -> (r: Result<bool, GswitchError>)
        ensures
            r matches Ok(b) ==> runtimepm_of(*sys) == Some(b),
            r is Err ==> runtimepm_of(*sys) is None,
            r matches Err(e) ==> (e matches GswitchError::Gpu(m) && m@ == runtimepm_error(*sys)),
    {
        let gpus = Self::detect_all(sys)?;
        if gpus.nvidia.len() == 0 {
            return Ok(false);
        }
        let device_id = gpus.nvidia[0].device_id;
        proof {
            assert(infos(gpus.nvidia@)[0] == (gpus.nvidia@[0].pci_id@, gpus.nvidia@[0].device_id as nat));
        }
        let dev = Self::get_nvidia_device(sys, device_id)?;
        let mut found = false;
        let mut k: usize = 0;
        while k < dev.features.len()
            invariant
                k <= dev.features.len(),
                found == exists|j: int| 0 <= j < k && dev.features@[j]@ == "runtimepm"@,
            decreases dev.features.len() - k,
        {
            if chars_eq_str(&chars_of(dev.features[k].as_str()), "runtimepm") {
                found = true;
            }
            k += 1;
        }
        proof {
            let fv = dev.features@.map_values(|f: String| f@);
            if found {
                let j = choose|j: int| 0 <= j < dev.features.len() && dev.features@[j]@ == "runtimepm"@;
                assert(fv[j] == "runtimepm"@);
            }
            if fv.contains("runtimepm"@) {
                let j = choose|j: int| 0 <= j < fv.len() && fv[j] == "runtimepm"@;
                assert(dev.features@[j]@ == "runtimepm"@);
            }
            let list = sys.supported_gpus.unwrap();
            let devs = sys.pci_devices.unwrap();
            let i = choose|i: int| first_device_with(list@, device_id as nat, i) && *dev == list@[i];
            assert(gpus_of(devs@, nvidia_vendor())[0].1 == device_id as nat);
            let c = choose|c: int| first_device_with(list@, device_id as nat, c);
            lemma_first_device_unique(list@, device_id as nat, i, c);
            assert(found == list@[i].features@.map_values(|f: String| f@).contains("runtimepm"@));
        }
        Ok(found)
    }

    /// The DMI vendor, trimmed.
    pub fn get_vendor(sys: &SystemInfo) -> (r: String)
        ensures
            r@ == trim(sys.sys_vendor@),
    {
        string_of(&trim_chars(&chars_of(sys.sys_vendor.as_str())))
    }

    /// The DMI product version (the model name), trimmed.
    pub fn get_product(sys: &SystemInfo) -> (r: String)
        ensures
            r@ == trim(sys.product_version@),
    {
        string_of(&trim_chars(&chars_of(sys.product_version.as_str())))
    }

    /// Whether `model` is one of `names`, compared exactly.
    pub fn name_listed(names: &Vec<String>, model: &str) -> (r: bool)
        ensures
            r == exists|i: int| 0 <= i < names@.len() && #[trigger] names@[i]@ == model@,
    {
        let mv = chars_of(model);
        let mut k: usize = 0;
        while k < names.len()
            invariant
                k <= names@.len(),
                mv@ == model@,
                forall|j: int| 0 <= j < k ==> #[trigger] names@[j]@ != model@,
            decreases names@.len() - k,
        {
            if chars_eq(&chars_of(names[k].as_str()), &mv) {
                return true;
            }
            k += 1;
        }
        false
    }

    /// Whether the model is in `list` with both in lower case; `model` is
    /// the lower-cased model name.
    fn model_in_list(list: &[&'static str], model: &str) -> (r: bool)
        ensures
            r == exists|i: int| 0 <= i < list@.len() && str_lowercase(#[trigger] list@[i]@) == model@,
    {
        let mut lowered: Vec<String> = Vec::new();
        let mut k: usize = 0;
        while k < list.len()
            invariant
                k <= list@.len(),
                lowered@.len() == k,
                forall|j: int| 0 <= j < k ==> #[trigger] lowered@[j]@ == str_lowercase(list@[j]@),
            decreases list@.len() - k,
        {
            lowered.push(to_lowercase(list[k]));
            k += 1;
        }
        let r = Self::name_listed(&lowered, model);
        proof {
            if r {
                let i = choose|i: int| 0 <= i < lowered@.len() && #[trigger] lowered@[i]@ == model@;
                assert(str_lowercase(list@[i]@) == model@);
            }
            if exists|i: int| 0 <= i < list@.len() && str_lowercase(#[trigger] list@[i]@) == model@ {
                let i = choose|i: int| 0 <= i < list@.len() && str_lowercase(#[trigger] list@[i]@) == model@;
                assert(lowered@[i]@ == model@);
            }
        }
        r
    }

    /// Whether external displays need the NVIDIA GPU on this model (the
    /// model list, compared in lower case); an error when the machine
    /// cannot switch.
    pub fn external_display_requires_nvidia(sys: &SystemInfo, host: &HostState) -> (r: Result<bool, GswitchError>)
        ensures
            r matches Ok(b) ==> sys.pci_devices is Ok && switchable(*sys, host.cache())
                && b == model_listed(EXTERNAL_DISPLAY_REQUIRES_NVIDIA@, sys.product_version@),
            r is Err ==> is_fixed_chassis(sys.chassis_type@) || sys.pci_devices is Err || !switchable(*sys, host.cache()),
            r matches Err(e) ==> (e matches GswitchError::Gpu(m) && m@ == if !is_fixed_chassis(sys.chassis_type@) && sys.pci_devices is Err {
                pci_dir_error(*sys)
            } else {
                "系统不支持 GPU 切换"@
            }),
    {
        if !Self::can_switch(sys, host)? {
            return Err(GswitchError::Gpu(String::from_str("系统不支持 GPU 切换")));
        }
        let product = Self::get_product(sys);
        let model = to_lowercase(product.as_str());
        let list: &[&'static str] = &EXTERNAL_DISPLAY_REQUIRES_NVIDIA;
        Ok(Self::model_in_list(list, model.as_str()))
    }

    /// The recommended mode: NVIDIA for the listed models (compared in
    /// lower case), otherwise hybrid when the GPU supports runtime power
    /// management and integrated when not (or when that cannot be told);
    /// `NotSwitchable` when the machine cannot switch.
    pub fn get_default(sys: &SystemInfo, host: &HostState) -> (r: Result<GraphicsMode, GswitchError>)
        ensures
            sys.pci_devices is Ok && switchable(*sys, host.cache()) ==> (r matches Ok(m) && m == (
                if model_listed(DEFAULT_DISCRETE_MODELS@, sys.product_version@) {
                    GraphicsMode::Nvidia
                } else if runtimepm_of(*sys) == Some(true) {
                    GraphicsMode::Hybrid
                } else {
                    GraphicsMode::Integrated
                })),
            !is_fixed_chassis(sys.chassis_type@) && sys.pci_devices is Err ==> (r matches Err(GswitchError::Gpu(m))
                && m@ == pci_dir_error(*sys)),
            is_fixed_chassis(sys.chassis_type@) || (sys.pci_devices is Ok && !switchable(*sys, host.cache())) ==> r matches Err(
                GswitchError::NotSwitchable,
            ),
    {
        if !Self::can_switch(sys, host)? {
            return Err(GswitchError::NotSwitchable);
        }
        let product = Self::get_product(sys);
        let lowered = to_lowercase(product.as_str());
        let runtimepm = match Self::gpu_supports_runtimepm(sys) {
            Ok(b) => b,
            Err(_) => false,
        };
        let list: &[&'static str] = &DEFAULT_DISCRETE_MODELS;
        if Self::model_in_list(list, lowered.as_str()) {
            return Ok(GraphicsMode::Nvidia);
        }
        if runtimepm {
            Ok(GraphicsMode::Hybrid)
        } else {
            Ok(GraphicsMode::Integrated)
        }
    }
}

/// The value of a hexadecimal sysfs attribute (see `attr_value`).
fn attr_number(raw: &String, max: u32) -> (r: u32)
    ensures
        r == attr_value(raw@, max as nat),
        r <= max,
{
    let t = trim_chars(&chars_of(raw.as_str()));
    let s = strip_prefixes_chars(&t, &chars_of("0x"));
    match parse_radix(&s, 16, max) {
        Some(v) => v,
        None => 0,
    }
}

/// The chassis type number, 0 when unreadable.
fn chassis_value(raw: &String) -> (r: u32)
    ensures
        r == chassis_number(raw@),
{
    let t = trim_chars(&chars_of(raw.as_str()));
    match parse_radix(&t, 10, 0xffff_ffff) {
        Some(v) => v,
        None => 0,
    }
}

/// Whether a line of `/proc/modules` names an NVIDIA module.
fn any_nvidia_module(modules: &Vec<char>) -> (r: bool)
    ensures
        r == nvidia_loaded(modules@),
{
    let lines = lines_chars(modules);
    let mut k: usize = 0;
    while k < lines.len()
        invariant
            k <= lines.len(),
            views(lines@) == lines_of(modules@),
            forall|j: int| 0 <= j < k ==> !is_nvidia_module(first_word(#[trigger] lines_of(modules@)[j])),
        decreases lines.len() - k,
    {
        let ws = words_chars(&lines[k]);
        proof {
            assert(views(lines@)[k as int] == lines@[k as int]@);
            assert(views(ws@).len() == ws@.len());
        }
        let first = if ws.len() > 0 {
            proof { assert(views(ws@)[0] == ws@[0]@); }
            slice_chars(&ws[0], 0, ws[0].len())
        } else {
            Vec::new()
        };
        proof {
            assert(lines@[k as int]@ == lines_of(modules@)[k as int]);
            if ws.len() == 0 {
                assert(first@ =~= Seq::<char>::empty());
            } else {
                assert(first@ =~= ws@[0]@);
            }
            assert(first@ == first_word(lines_of(modules@)[k as int]));
        }
        if chars_eq_str(&first, "nvidia") || chars_eq_str(&first, "nvidia_drm") || chars_eq_str(&first, "nvidia_current")
            || chars_eq_str(&first, "nvidia_current_drm") {
            return true;
        }
        k += 1;
    }
    proof {
        assert(!nvidia_loaded(modules@)) by {
            assert forall|j: int| 0 <= j < lines_of(modules@).len() implies !is_nvidia_module(first_word(#[trigger] lines_of(modules@)[j])) by {
                assert(j < k);
            }
        }
    }
    false
}

/// Whether a modprobe text binds vfio-pci on a line that is not a comment.
fn any_vfio_binding(content: &Vec<char>) -> (r: bool)
    ensures
        r == binds_vfio(content@),
{
    let lines = lines_chars(content);
    let mut k: usize = 0;
    while k < lines.len()
        invariant
            k <= lines.len(),
            views(lines@) == lines_of(content@),
            forall|j: int| 0 <= j < k ==> !(!starts_with(trim(#[trigger] lines_of(content@)[j]), "#"@)
                && has_sub(lines_of(content@)[j], "options vfio-pci"@)),
        decreases lines.len() - k,
    {
        proof {
            assert(views(lines@)[k as int] == lines@[k as int]@);
        }
        let t = trim_chars(&lines[k]);
        proof {
            assert(lines@[k as int]@ == lines_of(content@)[k as int]);
        }
        if !starts_with_str(&t, "#") && contains_str(&lines[k], "options vfio-pci") {
            return true;
        }
        k += 1;
    }
    proof {
        assert(!binds_vfio(content@)) by {
            assert forall|j: int| 0 <= j < lines_of(content@).len() implies !(!starts_with(trim(#[trigger] lines_of(content@)[j]), "#"@)
                && has_sub(lines_of(content@)[j], "options vfio-pci"@)) by {
                assert(j < k);
            }
        }
    }
    false
}

/// Whether a `/usr/share/doc` entry's path marks NVIDIA driver
/// documentation: it contains one of `NVIDIA_DOC_PATTERNS`.
pub open spec fn is_nvidia_doc(path: Seq<char>) -> bool {
    exists|k: int| 0 <= k < NVIDIA_DOC_PATTERNS@.len() && has_sub(path, #[trigger] NVIDIA_DOC_PATTERNS@[k]@)
}

/// The `supported-gpus.json` path inside each NVIDIA documentation
/// directory among `entries`, in order.
pub open spec fn doc_json_paths(entries: Seq<Seq<char>>) -> Seq<Seq<char>>
    decreases entries.len(),
{
    if entries.len() == 0 {
        Seq::empty()
    } else {
        let rest = doc_json_paths(entries.drop_last());
        if is_nvidia_doc(entries.last()) {
            rest.push(joined_path(entries.last(), "supported-gpus.json"@))
        } else {
            rest
        }
    }
}

fn is_nvidia_doc_path(p: &Vec<char>) -> (r: bool)
    ensures
        r == is_nvidia_doc(p@),
{
    let pats: &[&'static str] = &NVIDIA_DOC_PATTERNS;
    let mut k: usize = 0;
    while k < pats.len()
        invariant
            k <= pats@.len(),
            pats@ == NVIDIA_DOC_PATTERNS@,
            forall|j: int| 0 <= j < k ==> !has_sub(p@, #[trigger] NVIDIA_DOC_PATTERNS@[j]@),
        decreases pats@.len() - k,
    {
        if contains_str(p, pats[k]) {
            return true;
        }
        k += 1;
    }
    false
}

/// The `supported-gpus.json` files to look for in the NVIDIA documentation
/// directories among the `/usr/share/doc` entries (full paths), in order
/// (see `doc_json_paths`).
pub fn supported_gpu_candidates(doc_entries: &Vec<String>) -> (r: Vec<String>)
    ensures
        r@.map_values(|s: String| s@) == doc_json_paths(doc_entries@.map_values(|s: String| s@)),
{
    let ghost ev = doc_entries@.map_values(|s: String| s@);
    let mut out: Vec<String> = Vec::new();
    let mut i: usize = 0;
    while i < doc_entries.len()
        invariant
            i <= doc_entries.len(),
            ev == doc_entries@.map_values(|s: String| s@),
            out@.map_values(|s: String| s@) == doc_json_paths(ev.take(i as int)),
        decreases doc_entries.len() - i,
    {
        let ghost before = out@.map_values(|s: String| s@);
        let p = chars_of(doc_entries[i].as_str());
        proof {
            assert(ev.take(i as int + 1).drop_last() =~= ev.take(i as int));
            assert(ev.take(i as int + 1).last() == p@);
        }
        if is_nvidia_doc_path(&p) {
            out.push(join_path(&p, "supported-gpus.json"));
            proof {
                assert(out@.map_values(|s: String| s@) =~= before.push(joined_path(p@, "supported-gpus.json"@)));
            }
        }
        i += 1;
    }
    proof {
        assert(ev.take(doc_entries.len() as int) =~= ev);
    }
    out
}

/// The files found, then each of the first `n` of
/// `NVIDIA_GPU_JSON_ALT_PATHS` that exists (`alt_present`) and is not
/// listed already.
pub open spec fn with_alt_paths(found: Seq<Seq<char>>, alt_present: Seq<bool>, n: nat) -> Seq<Seq<char>>
    decreases n,
{
    if n == 0 {
        found
    } else {
        let prev = with_alt_paths(found, alt_present, (n - 1) as nat);
        let p = NVIDIA_GPU_JSON_ALT_PATHS@[n - 1]@;
        if alt_present[n - 1] && !prev.contains(p) {
            prev.push(p)
        } else {
            prev
        }
    }
}

/// The `supported-gpus.json` files to read: those found in the
/// documentation directories, then the other known places that exist
/// (`alt_present[i]` for `NVIDIA_GPU_JSON_ALT_PATHS[i]`) and are not listed
/// already. An error when there are none.
pub fn supported_gpu_files(found: Vec<String>, alt_present: &Vec<bool>) -> (r: Result<Vec<String>, String>)
    requires
        alt_present.len() == NVIDIA_GPU_JSON_ALT_PATHS@.len(),
    ensures
        ({
            let fs = with_alt_paths(found@.map_values(|s: String| s@), alt_present@, NVIDIA_GPU_JSON_ALT_PATHS@.len());
            &&& fs.len() == 0 ==> (r matches Err(m) && m@ == "未找到 supported-gpus.json（NVIDIA 驱动可能未安装）"@)
            &&& fs.len() > 0 ==> (r matches Ok(v) && v@.map_values(|s: String| s@) == fs)
        }),
{
    let ghost fv = found@.map_values(|s: String| s@);
    let alts: &[&'static str] = &NVIDIA_GPU_JSON_ALT_PATHS;
    let mut out = found;
    let mut k: usize = 0;
    while k < alts.len()
        invariant
            k <= alts@.len(),
            alts@ == NVIDIA_GPU_JSON_ALT_PATHS@,
            alt_present.len() == NVIDIA_GPU_JSON_ALT_PATHS@.len(),
            out@.map_values(|s: String| s@) == with_alt_paths(fv, alt_present@, k as nat),
        decreases alts@.len() - k,
    {
        let ghost before = out@.map_values(|s: String| s@);
        if alt_present[k] {
            let a = chars_of(alts[k]);
            let mut listed = false;
            let mut j: usize = 0;
            while j < out.len()
                invariant
                    j <= out.len(),
                    before == out@.map_values(|s: String| s@),
                    a@ == NVIDIA_GPU_JSON_ALT_PATHS@[k as int]@,
                    listed == exists|t: int| 0 <= t < j && before[t] == a@,
                decreases out.len() - j,
            {
                if chars_eq(&chars_of(out[j].as_str()), &a) {
                    listed = true;
                }
                proof {
                    assert(before[j as int] == out@[j as int]@);
                }
                j += 1;
            }
            proof {
                if before.contains(a@) {
                    let t = choose|t: int| 0 <= t < before.len() && before[t] == a@;
                    assert(0 <= t < j);
                }
            }
            if !listed {
                out.push(string_of(&a));
                proof {
                    assert(out@.map_values(|s: String| s@) =~= before.push(a@));
                }
            }
        }
        k += 1;
    }
    if out.len() == 0 {
        Err(String::from_str("未找到 supported-gpus.json（NVIDIA 驱动可能未安装）"))
    } else {
        Ok(out)
    }
}

/// The entries of the parsed files in file order; an unreadable or
/// unparsable file (`None`) contributes nothing.
pub open spec fn merged_devices(lists: Seq<Option<Vec<NvidiaDevice>>>) -> Seq<NvidiaDevice>
    decreases lists.len(),
{
    if lists.len() == 0 {
        Seq::empty()
    } else {
        (match lists[0] {
            Some(v) => v@,
            None => Seq::empty(),
        }) + merged_devices(lists.drop_first())
    }
}

/// All entries of the `supported-gpus.json` files, in file order (see
/// `merged_devices`); an error when there are none.
pub fn merge_supported_gpus(lists: Vec<Option<Vec<NvidiaDevice>>>) -> (r: Result<Vec<NvidiaDevice>, String>)
    ensures
        merged_devices(lists@).len() == 0 ==> (r matches Err(m) && m@ == "supported-gpus.json 中未解析到任何设备条目"@),
        merged_devices(lists@).len() > 0 ==> (r matches Ok(v) && v@ == merged_devices(lists@)),
{
    let ghost all = merged_devices(lists@);
    let mut rest = lists;
    let mut out: Vec<NvidiaDevice> = Vec::new();
    while rest.len() > 0
        invariant
            out@ + merged_devices(rest@) == all,
        decreases rest.len(),
    {
        let ghost r0 = rest@;
        let first = rest.remove(0);
        proof {
            assert(rest@ =~= r0.drop_first());
            assert(merged_devices(r0) == (match r0[0] {
                Some(v) => v@,
                None => Seq::<NvidiaDevice>::empty(),
            }) + merged_devices(r0.drop_first()));
        }
        match first {
            Some(mut v) => {
                let ghost vv = v@;
                let ghost before = out@;
                out.append(&mut v);
                proof {
                    assert(out@ + merged_devices(rest@) =~= before + (vv + merged_devices(rest@)));
                }
            },
            None => {
                proof {
                    assert(merged_devices(r0) =~= merged_devices(rest@));
                }
            },
        }
    }
    proof {
        assert(out@ + Seq::<NvidiaDevice>::empty() =~= out@);
    }
    if out.len() == 0 {
        Err(String::from_str("supported-gpus.json 中未解析到任何设备条目"))
    } else {
        Ok(out)
    }
}

} // verus!
