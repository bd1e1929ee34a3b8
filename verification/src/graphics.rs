//! Graphics modes, PCI address conversion and the modprobe text that the
//! modes write.

use vstd::prelude::*;
use crate::cache::{cache_error, cache_usable, valid_pci_bus, CacheData, GpuCache, NvidiaDeviceId, CACHE_VERSION};
use crate::config::{
    MODESET_CONTENT, MODPROBE_GPU_PATH, MODPROBE_INTEGRATED, NV_ENV_CONTENT, NV_ENV_PATH, PRIME_DISCRETE_PATH,
    SERVICE_SNAPSHOT_NAMES, SNAPSHOT_PATHS, UDEV_INTEGRATED, UDEV_INTEGRATED_PATH, UDEV_PM_CONTENT, UDEV_PM_PATH,
    XORG_CONF_NVIDIA_CONTENT, XORG_CONF_NVIDIA_FALLBACK_PATH, XORG_CONF_NVIDIA_PATH,
};
use crate::detector::{
    content_or_empty, gpus_of, model_listed, nvidia_functions, nvidia_vendor, runtimepm_of, sleep_mode_of, switchable,
    Detector, SystemInfo,
};
use crate::helper::{
    add_vfio_to_initramfs, append_sleep_config, cleaned_files, cleanup, configure_gpu_services, file_at,
    merged_sleep_config, no_rebuild_tool_msg, path_set, rebuild_command, rebuild_initramfs, restored_files, restored_services,
    saved_services, saved_states, set_prime_discrete, sleep_config_applies, sleep_settings, vfio_added_files,
    with_gpu_services, with_suspend_services, write_file, write_nvidia_env_config, write_xorg_nvidia_config,
    CacheState, ConfigSnapshot, HostState,
};
use crate::error::GswitchError;
use crate::num::{dec, hex_padded, lemma_parse_dec, lemma_dec_digits, parse_radix, parse_unsigned, push_dec, push_hex_padded, u32_max};
use crate::text::{chars_of, lemma_split_join, lemma_split_no_sep, push_str, split_chars, split_on, views};

verus! {

/// The GPU mode of the machine.
#[derive(Debug, Clone, Copy, PartialEq, Eq, Structural)]
pub enum GraphicsMode {
    Integrated,
    Passthrough,
    Hybrid,
    Nvidia,
}

/// The name of a mode on the command line and in `query` output.
pub open spec fn mode_name(m: GraphicsMode) -> Seq<char> {
    match m {
        GraphicsMode::Integrated => "integrated"@,
        GraphicsMode::Passthrough => "passthrough"@,
        GraphicsMode::Hybrid => "hybrid"@,
        GraphicsMode::Nvidia => "nvidia"@,
    }
}

impl GraphicsMode {
    /// The mode's name.
    pub fn as_str(&self) -> (r: &'static str)
        ensures
            r@ == mode_name(*self),
    {
        match self {
            GraphicsMode::Integrated => "integrated",
            GraphicsMode::Passthrough => "passthrough",
            GraphicsMode::Hybrid => "hybrid",
            GraphicsMode::Nvidia => "nvidia",
        }
    }

    /// The mode with the given name; names are matched exactly.
    pub fn from_str(s: &str) -> (r: Result<GraphicsMode, GswitchError>)
        ensures
            r matches Ok(m) ==> s@ == mode_name(m),
            r is Err ==> (forall|m: GraphicsMode| s@ != mode_name(m)),
            r matches Err(e) ==> e matches GswitchError::Input(msg) && msg@ == "不支持的模式: "@ + s@,
    {
        let v = chars_of(s);
        if crate::text::chars_eq_str(&v, "integrated") {
            Ok(GraphicsMode::Integrated)
        } else if crate::text::chars_eq_str(&v, "passthrough") {
            Ok(GraphicsMode::Passthrough)
        } else if crate::text::chars_eq_str(&v, "hybrid") {
            Ok(GraphicsMode::Hybrid)
        } else if crate::text::chars_eq_str(&v, "nvidia") {
            Ok(GraphicsMode::Nvidia)
        } else {
            proof {
                assert forall|m: GraphicsMode| s@ != mode_name(m) by {
                    match m {
                        GraphicsMode::Integrated => {},
                        GraphicsMode::Passthrough => {},
                        GraphicsMode::Hybrid => {},
                        GraphicsMode::Nvidia => {},
                    }
                }
            }
            let mut msg = String::new();
            push_str(&mut msg, "不支持的模式: ");
            push_str(&mut msg, s);
            proof {
                assert(msg@ =~= "不支持的模式: "@ + s@);
            }
            Err(GswitchError::Input(msg))
        }
    }
}

impl std::str::FromStr for GraphicsMode {
    type Err = GswitchError;

    fn from_str(s: &str) -> (r: Result<GraphicsMode, GswitchError>)
        ensures
            r matches Ok(m) ==> s@ == mode_name(m),
            r is Err ==> (forall|m: GraphicsMode| s@ != mode_name(m)),
            r matches Err(e) ==> e matches GswitchError::Input(msg) && msg@ == "不支持的模式: "@ + s@,
    {
        GraphicsMode::from_str(s)
    }
}

/// The four mode names differ from one another.
pub proof fn lemma_mode_names_distinct(a: GraphicsMode, b: GraphicsMode)
    ensures
        mode_name(a) == mode_name(b) ==> a == b,
{
    reveal_strlit("integrated");
    reveal_strlit("passthrough");
    reveal_strlit("hybrid");
    reveal_strlit("nvidia");
    if mode_name(a) == mode_name(b) && a != b {
        assert(mode_name(a).len() != mode_name(b).len() || mode_name(a)[0] != mode_name(b)[0]);
    }
}

/// Reading back the name of a mode gives the mode: `from_str(as_str(m))`
/// is `Ok(m)` for every mode `m`.
pub proof fn lemma_mode_name_round_trip(m: GraphicsMode, r: Result<GraphicsMode, GswitchError>)
    requires
        r matches Ok(x) ==> mode_name(m) == mode_name(x),
        r is Err ==> (forall|x: GraphicsMode| mode_name(m) != mode_name(x)),
    ensures
        r == Ok::<GraphicsMode, GswitchError>(m),
{
    match r {
        Ok(x) => {
            lemma_mode_names_distinct(m, x);
        },
        Err(_) => {
            assert(mode_name(m) == mode_name(m));
        },
    }
}

/// The bus, device and function numbers of a sysfs PCI address such as
/// `0000:01:00.0` or `01:00.0`, each read as hexadecimal.
pub open spec fn pci_id_fields(raw: Seq<char>) -> Option<(nat, nat, nat)> {
    let cp = split_on(raw, ':');
    if cp.len() != 2 && cp.len() != 3 {
        None
    } else {
        let bus = if cp.len() == 3 { cp[1] } else { cp[0] };
        let df = if cp.len() == 3 { cp[2] } else { cp[1] };
        let dp = split_on(df, '.');
        if dp.len() != 2 {
            None
        } else {
            match (
                parse_unsigned(bus, 16, u32_max()),
                parse_unsigned(dp[0], 16, u32_max()),
                parse_unsigned(dp[1], 16, u32_max()),
            ) {
                (Some(b), Some(d), Some(f)) => Some((b, d, f)),
                _ => None,
            }
        }
    }
}

/// The X11 form `PCI:bus:device:function`, in decimal.
pub open spec fn bus_text(b: nat, d: nat, f: nat) -> Seq<char> {
    "PCI:"@ + dec(b) + ":"@ + dec(d) + ":"@ + dec(f)
}

/// The message for a sysfs PCI address that does not convert: a wrong
/// number of `:` parts, a device part without one `.`, or the first field
/// that is not hexadecimal.
pub open spec fn pci_id_error(raw: Seq<char>) -> Seq<char> {
    let cp = split_on(raw, ':');
    if cp.len() != 2 && cp.len() != 3 {
        "PCI ID '"@ + raw + "' 段数异常（期望 2 或 3 段，实际 "@ + dec(cp.len()) + " 段）"@
    } else {
        let bus = if cp.len() == 3 { cp[1] } else { cp[0] };
        let df = if cp.len() == 3 { cp[2] } else { cp[1] };
        let dp = split_on(df, '.');
        if dp.len() != 2 {
            "期望 PCI 设备.功能号格式，实际为 '"@ + df + "' (原始: '"@ + raw + "')"@
        } else if parse_unsigned(bus, 16, u32_max()) is None {
            "PCI ID '"@ + raw + "' 中总线号 '"@ + bus + "' 不是有效的十六进制数"@
        } else if parse_unsigned(dp[0], 16, u32_max()) is None {
            "PCI ID '"@ + raw + "' 中设备号 '"@ + dp[0] + "' 不是有效的十六进制数"@
        } else {
            "PCI ID '"@ + raw + "' 中功能号 '"@ + dp[1] + "' 不是有效的十六进制数"@
        }
    }
}

/// `a + raw + b + part + c` as a GPU error.
fn field_error(a: &str, raw: &str, b: &str, part: &Vec<char>, c: &str) -> (e: GswitchError)
    ensures
        e matches GswitchError::Gpu(m) && m@ == a@ + raw@ + b@ + part@ + c@,
{
    let mut msg = String::new();
    push_str(&mut msg, a);
    push_str(&mut msg, raw);
    push_str(&mut msg, b);
    crate::text::push_chars(&mut msg, part);
    push_str(&mut msg, c);
    proof {
        assert(msg@ =~= a@ + raw@ + b@ + part@ + c@);
    }
    GswitchError::Gpu(msg)
}

/// Converts a sysfs PCI address (`0000:01:00.0` or `01:00.0`) to the X11
/// form `PCI:1:0:0`; an error naming the fault (see `pci_id_error`) when it
/// does not convert.
pub fn parse_pci_id(raw: &str) -> (r: Result<String, GswitchError>)
    ensures
        r matches Ok(s) ==> pci_id_fields(raw@) matches Some((b, d, f)) && s@ == bus_text(b, d, f),
        r is Err ==> pci_id_fields(raw@) is None,
        r matches Err(e) ==> (e matches GswitchError::Gpu(m) && m@ == pci_id_error(raw@)),
{
    let v = chars_of(raw);
    let parts = split_chars(&v, ':');
    proof {
        assert(views(parts@).len() == parts@.len());
    }
    if parts.len() != 2 && parts.len() != 3 {
        let mut msg = String::new();
        push_str(&mut msg, "PCI ID '");
        push_str(&mut msg, raw);
        push_str(&mut msg, "' 段数异常（期望 2 或 3 段，实际 ");
        push_dec(&mut msg, parts.len() as u64);
        push_str(&mut msg, " 段）");
        proof {
            assert(msg@ =~= "PCI ID '"@ + raw@ + "' 段数异常（期望 2 或 3 段，实际 "@ + dec(parts.len() as nat) + " 段）"@);
        }
        return Err(GswitchError::Gpu(msg));
    }
    let bi: usize = if parts.len() == 3 { 1 } else { 0 };
    let bus = &parts[bi];
    let df = &parts[bi + 1];
    proof {
        assert(views(parts@)[bi as int] == bus@);
        assert(views(parts@)[bi + 1] == df@);
    }
    let dparts = split_chars(df, '.');
    proof {
        assert(views(dparts@).len() == dparts@.len());
    }
    if dparts.len() != 2 {
        let mut msg = String::new();
        push_str(&mut msg, "期望 PCI 设备.功能号格式，实际为 '");
        crate::text::push_chars(&mut msg, df);
        push_str(&mut msg, "' (原始: '");
        push_str(&mut msg, raw);
        push_str(&mut msg, "')");
        proof {
            assert(msg@ =~= "期望 PCI 设备.功能号格式，实际为 '"@ + df@ + "' (原始: '"@ + raw@ + "')"@);
        }
        return Err(GswitchError::Gpu(msg));
    }
    proof {
        assert(views(dparts@)[0] == dparts@[0]@);
        assert(views(dparts@)[1] == dparts@[1]@);
    }
    let b = match parse_radix(bus, 16, 0xffff_ffff) {
        Some(x) => x,
        None => {
            return Err(field_error("PCI ID '", raw, "' 中总线号 '", bus, "' 不是有效的十六进制数"));
        },
    };
    let d = match parse_radix(&dparts[0], 16, 0xffff_ffff) {
        Some(x) => x,
        None => {
            return Err(field_error("PCI ID '", raw, "' 中设备号 '", &dparts[0], "' 不是有效的十六进制数"));
        },
    };
    let f = match parse_radix(&dparts[1], 16, 0xffff_ffff) {
        Some(x) => x,
        None => {
            return Err(field_error("PCI ID '", raw, "' 中功能号 '", &dparts[1], "' 不是有效的十六进制数"));
        },
    };
    let mut out = String::new();
    push_str(&mut out, "PCI:");
    push_dec(&mut out, b as u64);
    push_str(&mut out, ":");
    push_dec(&mut out, d as u64);
    push_str(&mut out, ":");
    push_dec(&mut out, f as u64);
    Ok(out)
}

/// The X11 bus form of numbers within `u32` is accepted by the cache check
/// exactly when the bus is at most 255, the device at most 31 and the
/// function at most 7.
pub proof fn lemma_bus_text_valid(b: nat, d: nat, f: nat)
    requires
        b <= u32_max(),
        d <= u32_max(),
        f <= u32_max(),
    ensures
        valid_pci_bus(bus_text(b, d, f)) <==> (b <= 255 && d <= 31 && f <= 7),
{
    reveal_strlit("PCI:");
    reveal_strlit("PCI");
    reveal_strlit(":");
    lemma_dec_digits(b);
    lemma_dec_digits(d);
    lemma_dec_digits(f);
    lemma_parse_dec(b, u32_max());
    lemma_parse_dec(d, u32_max());
    lemma_parse_dec(f, u32_max());
    let pci = "PCI"@;
    assert("PCI:"@ =~= pci.push(':'));
    assert forall|i: int| 0 <= i < pci.len() implies pci[i] != ':' by {}
    assert forall|i: int| 0 <= i < dec(b).len() implies dec(b)[i] != ':' by {
        assert(48 <= (dec(b)[i] as u32) <= 57);
    }
    assert forall|i: int| 0 <= i < dec(d).len() implies dec(d)[i] != ':' by {
        assert(48 <= (dec(d)[i] as u32) <= 57);
    }
    assert forall|i: int| 0 <= i < dec(f).len() implies dec(f)[i] != ':' by {
        assert(48 <= (dec(f)[i] as u32) <= 57);
    }
    lemma_split_no_sep(pci, ':');
    lemma_split_no_sep(dec(b), ':');
    lemma_split_no_sep(dec(d), ':');
    lemma_split_no_sep(dec(f), ':');
    let t = bus_text(b, d, f);
    assert(t =~= pci.push(':') + (dec(b).push(':') + (dec(d).push(':') + dec(f))));
    lemma_split_join(dec(d), dec(f), ':');
    lemma_split_join(dec(b), dec(d).push(':') + dec(f), ':');
    lemma_split_join(pci, dec(b).push(':') + (dec(d).push(':') + dec(f)), ':');
    assert(split_on(t, ':') =~= seq![pci, dec(b), dec(d), dec(f)]);
}

/// A PCI address that converts, and whose numbers are in range, gives a
/// bus text that the cache check accepts; one out of range gives a bus text
/// that it rejects.
pub proof fn lemma_converted_bus_validates(raw: Seq<char>)
    requires
        pci_id_fields(raw) is Some,
    ensures
        pci_id_fields(raw) matches Some((b, d, f)) && (valid_pci_bus(bus_text(b, d, f)) <==> (b <= 255 && d <= 31 && f <= 7)),
{
    let (b, d, f) = pci_id_fields(raw).unwrap();
    lemma_bus_text_valid(b, d, f);
}

/// The modprobe text for hybrid and NVIDIA mode: the fixed modeset text
/// without RTD3, or with `NVreg_DynamicPowerManagement` set to the level
/// (capped at 3) in two-digit hexadecimal.
pub open spec fn modeset_text(rtd3: Option<u32>) -> Seq<char> {
    match rtd3 {
        None => MODESET_CONTENT@,
        Some(v) => {
            let level: nat = if v > 3 { 3 } else { v as nat };
            "# Automatically generated by gswitch\noptions nvidia-drm modeset=1\noptions nvidia \"NVreg_DynamicPowerManagement=0x"@
                + hex_padded(level, 2)
                + "\"\noptions nvidia NVreg_UsePageAttributeTable=1 NVreg_InitializeSystemMemoryAllocations=0\n"@
        },
    }
}

/// The modprobe text for hybrid and NVIDIA mode with an optional RTD3 level.
pub fn generate_modeset_content(rtd3: Option<u32>) -> (r: String)
    ensures
        r@ == modeset_text(rtd3),
{
    match rtd3 {
        None => String::from_str(MODESET_CONTENT),
        Some(v) => {
            let level: u32 = if v > 3 { 3 } else { v };
            let mut out = String::new();
            push_str(&mut out, "# Automatically generated by gswitch\noptions nvidia-drm modeset=1\noptions nvidia \"NVreg_DynamicPowerManagement=0x");
            push_hex_padded(&mut out, level, 2);
            push_str(&mut out, "\"\noptions nvidia NVreg_UsePageAttributeTable=1 NVreg_InitializeSystemMemoryAllocations=0\n");
            out
        },
    }
}


/// NVIDIA-specific switch options.
#[derive(Debug, Clone, Copy)]
pub struct NvidiaOptions {
    /// RTD3 runtime power management level, 0 to 3.
    pub rtd3: Option<u32>,
    /// Coolbits mask for NVIDIA mode (`None`: not enabled).
    pub coolbits: Option<u8>,
    /// ForceCompositionPipeline for NVIDIA mode.
    pub force_comp: bool,
}

impl Default for NvidiaOptions {
    fn default() -> (r: NvidiaOptions)
        ensures
            r.rtd3 is None && r.coolbits is None && !r.force_comp,
    {
        NvidiaOptions { rtd3: None, coolbits: None, force_comp: false }
    }
}

/// A switch request.
#[derive(Debug, Clone, Copy)]
pub struct SwitchOptions {
    pub mode: GraphicsMode,
    pub nvidia_opts: NvidiaOptions,
}

/// A runtime power request.
#[derive(Debug, Clone, Copy, PartialEq, Eq, Structural)]
pub enum PowerAction {
    On,
    Off,
    Auto,
}

/// The NVIDIA device IDs of vendor and device pairs.
pub open spec fn device_ids_of(s: Seq<(nat, nat)>) -> Seq<NvidiaDeviceId> {
    s.map_values(|p: (nat, nat)| NvidiaDeviceId { vendor: p.0 as u16, device: p.1 as u16 })
}

/// Vendor and device pairs of NVIDIA device IDs.
pub open spec fn id_pairs(s: Seq<NvidiaDeviceId>) -> Seq<(nat, nat)> {
    s.map_values(|d: NvidiaDeviceId| (d.vendor as nat, d.device as nat))
}

/// The NVIDIA PCI functions of the host, none when the PCI directory is
/// missing.
pub open spec fn host_nvidia_functions(sys: SystemInfo) -> Seq<(nat, nat)> {
    match sys.pci_devices {
        Ok(devs) => nvidia_functions(devs@),
        Err(_) => Seq::empty(),
    }
}

/// What caching the NVIDIA GPU stores: its bus text (from the first NVIDIA
/// display controller's address) with the IDs of all NVIDIA functions; or,
/// with no NVIDIA controller in sysfs, what a usable cache already holds.
/// `None` when the address does not convert or there is nothing to reuse.
pub open spec fn nvidia_cache_entry(sys: SystemInfo, cache: CacheState) -> Option<(Seq<char>, Seq<NvidiaDeviceId>)> {
    if sys.pci_devices is Ok && gpus_of(sys.pci_devices.unwrap()@, nvidia_vendor()).len() > 0 {
        match pci_id_fields(gpus_of(sys.pci_devices.unwrap()@, nvidia_vendor())[0].0) {
            Some((b, d, f)) => Some((bus_text(b, d, f), device_ids_of(host_nvidia_functions(sys)))),
            None => None,
        }
    } else if cache_usable(cache) {
        match cache {
            CacheState::Present(_, bus, ids) => Some((bus, ids)),
            _ => None,
        }
    } else {
        None
    }
}

/// The cache after caching the NVIDIA GPU.
pub open spec fn cache_after_nvidia(sys: SystemInfo, cache: CacheState, dry: bool) -> CacheState {
    match nvidia_cache_entry(sys, cache) {
        Some((bus, ids)) => if dry { cache } else { CacheState::Present(CACHE_VERSION, bus, ids) },
        None => cache,
    }
}

/// The device IDs that passthrough binds to vfio-pci: every NVIDIA function
/// in sysfs, or, with none there, the IDs in a usable cache; `None` when
/// neither gives any.
pub open spec fn passthrough_ids(sys: SystemInfo, cache: CacheState) -> Option<Seq<(nat, nat)>> {
    if host_nvidia_functions(sys).len() > 0 {
        Some(host_nvidia_functions(sys))
    } else if cache_usable(cache) && cache->Present_2.len() > 0 {
        Some(id_pairs(cache->Present_2))
    } else {
        None
    }
}

/// Why passthrough finds no device IDs: the cache is unusable (with the
/// cache's own error after the prefix of that error's kind), or it holds
/// none.
pub open spec fn passthrough_error(cache: CacheState) -> Seq<char> {
    if !cache_usable(cache) {
        "未检测到 NVIDIA GPU 设备且缓存不可用: GPU 操作错误: "@ + cache_error(cache)
    } else {
        "未检测到 NVIDIA GPU 设备且缓存中无设备 ID（请先切换到混合模式生成缓存）"@
    }
}

/// `vendor:device` pairs in four-digit lower-case hexadecimal, separated by
/// commas.
pub open spec fn ids_line(ids: Seq<(nat, nat)>) -> Seq<char>
    decreases ids.len(),
{
    if ids.len() == 0 {
        Seq::empty()
    } else {
        let one = hex_padded(ids.last().0, 4) + ":"@ + hex_padded(ids.last().1, 4);
        if ids.len() == 1 {
            one
        } else {
            ids_line(ids.drop_last()) + ","@ + one
        }
    }
}

/// The fixed part of the passthrough modprobe text.
pub open spec fn vfio_prefix() -> Seq<char> {
    "# Automatically generated by gswitch - VFIO Passthrough mode\nblacklist nouveau\nblacklist nvidia\nblacklist nvidia-drm\nblacklist nvidia-modeset\nblacklist nvidia-uvm\ninstall nouveau /bin/false\ninstall nvidia /bin/false\ninstall nvidia-drm /bin/false\ninstall nvidia-modeset /bin/false\ninstall nvidia-uvm /bin/false\noptions vfio-pci ids="@
}

/// The passthrough modprobe text: NVIDIA drivers blocked, the devices bound
/// to vfio-pci.
pub open spec fn vfio_modprobe_text(ids: Seq<(nat, nat)>) -> Seq<char> {
    vfio_prefix() + ids_line(ids) + "\n"@
}

/// The PRIME discrete flag of a mode.
pub open spec fn prime_flag(mode: GraphicsMode) -> Seq<char> {
    match mode {
        GraphicsMode::Hybrid => "on-demand"@,
        GraphicsMode::Nvidia => "on"@,
        _ => "off"@,
    }
}

/// The X11 configuration path.
pub open spec fn xorg_path(sys: SystemInfo) -> Seq<char> {
    if sys.xorg_conf_dir {
        XORG_CONF_NVIDIA_PATH@
    } else {
        XORG_CONF_NVIDIA_FALLBACK_PATH@
    }
}

/// What a switch does before the initramfs rebuild.
pub struct SwitchEffect {
    /// Passthrough found device IDs (always true for the other modes).
    pub ids_ok: bool,
    pub files: Map<Seq<char>, Seq<char>>,
    pub services: Map<Seq<char>, bool>,
    pub cache: CacheState,
}

/// The PRIME flag and suspend settings added after the mode's own files.
pub open spec fn finish_effect(
    mode: GraphicsMode,
    sys: SystemInfo,
    files: Map<Seq<char>, Seq<char>>,
    services: Map<Seq<char>, bool>,
    cache: CacheState,
) -> SwitchEffect {
    let f2 = files.insert(PRIME_DISCRETE_PATH@, prime_flag(mode));
    if sleep_config_applies(sys, f2, mode) {
        SwitchEffect {
            ids_ok: true,
            files: f2.insert(
                MODPROBE_GPU_PATH@,
                merged_sleep_config(content_or_empty(f2, MODPROBE_GPU_PATH@), sleep_settings(sleep_mode_of(sys.mem_sleep@)).unwrap().0),
            ),
            services: with_suspend_services(services, true),
            cache,
        }
    } else {
        SwitchEffect { ids_ok: true, files: f2, services, cache }
    }
}

/// What a switch to `mode` does, before the initramfs rebuild: generated
/// files cleaned up; the NVIDIA GPU cached; the mode's services set; the
/// mode's files written (integrated: driver block list and udev removal;
/// hybrid: modeset text with the RTD3 level and runtime PM udev rules;
/// NVIDIA: modeset text, X11 and environment files; passthrough: vfio-pci
/// binding and initramfs VFIO setup); then the PRIME flag and suspend
/// settings. In dry-run mode nothing changes. Passthrough without device
/// IDs stops after the cache and services.
pub open spec fn switch_effect(
    mode: GraphicsMode,
    rtd3: Option<u32>,
    sys: SystemInfo,
    files: Map<Seq<char>, Seq<char>>,
    services: Map<Seq<char>, bool>,
    cache: CacheState,
    dry: bool,
) -> SwitchEffect {
    let c1 = cache_after_nvidia(sys, cache, dry);
    if dry {
        SwitchEffect { ids_ok: mode != GraphicsMode::Passthrough || passthrough_ids(sys, c1) is Some, files, services, cache }
    } else {
        let f0 = cleaned_files(files);
        match mode {
            GraphicsMode::Integrated => finish_effect(
                mode,
                sys,
                f0.insert(MODPROBE_GPU_PATH@, MODPROBE_INTEGRATED@).insert(UDEV_INTEGRATED_PATH@, UDEV_INTEGRATED@),
                with_gpu_services(services, false, false, false),
                c1,
            ),
            GraphicsMode::Hybrid => finish_effect(
                mode,
                sys,
                f0.insert(MODPROBE_GPU_PATH@, modeset_text(rtd3)).insert(UDEV_PM_PATH@, UDEV_PM_CONTENT@),
                with_gpu_services(services, true, false, true),
                c1,
            ),
            GraphicsMode::Nvidia => finish_effect(
                mode,
                sys,
                f0.insert(MODPROBE_GPU_PATH@, MODESET_CONTENT@).insert(xorg_path(sys), XORG_CONF_NVIDIA_CONTENT@).insert(
                    NV_ENV_PATH@,
                    NV_ENV_CONTENT@,
                ),
                with_gpu_services(services, true, true, true),
                c1,
            ),
            GraphicsMode::Passthrough => match passthrough_ids(sys, c1) {
                None => SwitchEffect { ids_ok: false, files: f0, services: with_gpu_services(services, false, false, false), cache: c1 },
                Some(ids) => finish_effect(
                    mode,
                    sys,
                    vfio_added_files(sys.tools, f0.insert(MODPROBE_GPU_PATH@, vfio_modprobe_text(ids))),
                    with_gpu_services(services, false, false, false),
                    c1,
                ),
            },
        }
    }
}

/// When sysfs lists NVIDIA PCI functions, passthrough binds every one of
/// them to vfio-pci, whatever the cache holds: the device IDs are those of
/// all NVIDIA functions (the display controller and its audio and other
/// functions), and the modprobe file that the switch leaves names them all.
pub proof fn lemma_passthrough_binds_every_nvidia_function(
    rtd3: Option<u32>,
    sys: SystemInfo,
    files: Map<Seq<char>, Seq<char>>,
    services: Map<Seq<char>, bool>,
    cache: CacheState,
)
    requires
        sys.pci_devices is Ok,
        nvidia_functions(sys.pci_devices.unwrap()@).len() > 0,
    ensures
        passthrough_ids(sys, cache) == Some(nvidia_functions(sys.pci_devices.unwrap()@)),
        switch_effect(GraphicsMode::Passthrough, rtd3, sys, files, services, cache, false).ids_ok,
        file_at(switch_effect(GraphicsMode::Passthrough, rtd3, sys, files, services, cache, false).files, MODPROBE_GPU_PATH@)
            == Some(vfio_modprobe_text(nvidia_functions(sys.pci_devices.unwrap()@))),
{
    let ids = nvidia_functions(sys.pci_devices.unwrap()@);
    let c1 = cache_after_nvidia(sys, cache, false);
    assert(passthrough_ids(sys, c1) == Some(ids));
    reveal_strlit("/etc/modprobe.d/gswitch-gpu.conf");
    reveal_strlit("/etc/prime-discrete");
    reveal_strlit("/etc/dracut.conf.d/gswitch-vfio.conf");
    reveal_strlit("/etc/initramfs-tools/modules");
    reveal_strlit("/etc/mkinitcpio.conf.d/gswitch-vfio.conf");
    assert(MODPROBE_GPU_PATH@ != PRIME_DISCRETE_PATH@) by {
        assert(MODPROBE_GPU_PATH@.len() != PRIME_DISCRETE_PATH@.len());
    }
    assert(MODPROBE_GPU_PATH@ != crate::config::DRACUT_VFIO_CONF_PATH@) by {
        assert(MODPROBE_GPU_PATH@.len() != crate::config::DRACUT_VFIO_CONF_PATH@.len());
    }
    assert(MODPROBE_GPU_PATH@ != crate::config::INITRAMFS_TOOLS_MODULES_PATH@) by {
        assert(MODPROBE_GPU_PATH@.len() != crate::config::INITRAMFS_TOOLS_MODULES_PATH@.len());
    }
    assert(MODPROBE_GPU_PATH@ != crate::config::MKINITCPIO_VFIO_CONF_PATH@) by {
        assert(MODPROBE_GPU_PATH@.len() != crate::config::MKINITCPIO_VFIO_CONF_PATH@.len());
    }
    let f1 = vfio_added_files(sys.tools, cleaned_files(files).insert(MODPROBE_GPU_PATH@, vfio_modprobe_text(ids)));
    assert(file_at(f1, MODPROBE_GPU_PATH@) == Some(vfio_modprobe_text(ids)));
    assert(!sleep_config_applies(sys, f1.insert(PRIME_DISCRETE_PATH@, prime_flag(GraphicsMode::Passthrough)), GraphicsMode::Passthrough));
}

/// Appends `vendor:device` pairs in four-digit hexadecimal, comma
/// separated.
fn push_ids_line(s: &mut String, ids: &Vec<(u16, u16)>)
    ensures
        final(s)@ == old(s)@ + ids_line(ids@.map_values(|p: (u16, u16)| (p.0 as nat, p.1 as nat))),
{
    let ghost base = s@;
    let ghost all = ids@.map_values(|p: (u16, u16)| (p.0 as nat, p.1 as nat));
    let mut i: usize = 0;
    proof {
        assert(all.take(0) =~= Seq::<(nat, nat)>::empty());
    }
    while i < ids.len()
        invariant
            i <= ids.len(),
            all == ids@.map_values(|p: (u16, u16)| (p.0 as nat, p.1 as nat)),
            s@ == base + ids_line(all.take(i as int)),
        decreases ids.len() - i,
    {
        let ghost before = s@;
        if i > 0 {
            push_str(s, ",");
        }
        push_hex_padded(s, ids[i].0 as u32, 4);
        push_str(s, ":");
        push_hex_padded(s, ids[i].1 as u32, 4);
        proof {
            let t = all.take(i as int + 1);
            assert(t.drop_last() =~= all.take(i as int));
            assert(t.last() == all[i as int]);
            assert(all[i as int] == (ids@[i as int].0 as nat, ids@[i as int].1 as nat));
            if i == 0 {
                assert(all.take(0) =~= Seq::<(nat, nat)>::empty());
            }
            assert(s@ =~= base + ids_line(t));
        }
        i += 1;
    }
    proof {
        assert(all.take(ids.len() as int) =~= all);
    }
}

/// The GPU controller: mode switching, power and cache operations.
pub struct GpuController;

impl GpuController {
    /// Caches the NVIDIA GPU's bus address and device IDs (see
    /// `nvidia_cache_entry`); an error when there is nothing to cache.
    fn write_nvidia_cache(sys: &SystemInfo, host: &mut HostState) -> (r: Result<(), GswitchError>)
        requires
            old(host).wf(),
        ensures
            final(host).wf(),
            r is Ok <==> nvidia_cache_entry(*sys, old(host).cache()) is Some,
            final(host).cache() == cache_after_nvidia(*sys, old(host).cache(), old(host).dry()),
            final(host).files() == old(host).files(),
            final(host).services() == old(host).services(),
            final(host).commands() == old(host).commands(),
            final(host).dry() == old(host).dry(),
    {
        match Detector::get_nvidia_pci_id(sys) {
            Ok(raw) => {
                let pci_bus = parse_pci_id(raw.as_str())?;
                let pairs = match Detector::get_all_nvidia_ids(sys) {
                    Ok(ids) => ids,
                    Err(_) => Vec::new(),
                };
                let mut device_ids: Vec<NvidiaDeviceId> = Vec::new();
                let mut i: usize = 0;
                while i < pairs.len()
                    invariant
                        i <= pairs.len(),
                        device_ids@ == device_ids_of(pairs@.map_values(|p: (u16, u16)| (p.0 as nat, p.1 as nat)).take(i as int)),
                    decreases pairs.len() - i,
                {
                    let ghost old_ids = device_ids@;
                    device_ids.push(NvidiaDeviceId { vendor: pairs[i].0, device: pairs[i].1 });
                    proof {
                        let all = pairs@.map_values(|p: (u16, u16)| (p.0 as nat, p.1 as nat));
                        assert(all.take(i as int + 1) =~= all.take(i as int).push(all[i as int]));
                        assert(device_ids@ =~= device_ids_of(all.take(i as int + 1)));
                    }
                    i += 1;
                }
                proof {
                    let all = pairs@.map_values(|p: (u16, u16)| (p.0 as nat, p.1 as nat));
                    assert(all.take(pairs.len() as int) =~= all);
                    if sys.pci_devices is Ok && nvidia_functions(sys.pci_devices.unwrap()@).len() == 0 {
                        assert(all =~= nvidia_functions(sys.pci_devices.unwrap()@));
                    }
                    assert(device_ids@ =~= device_ids_of(host_nvidia_functions(*sys)));
                }
                let data = CacheData::new(pci_bus, device_ids);
                GpuCache::write(host, &data)
            },
            Err(_) => {
                let data = match GpuCache::read(host) {
                    Ok(d) => d,
                    Err(_) => {
                        return Err(GswitchError::Gpu(String::from_str("sysfs 中未找到 NVIDIA GPU 且无可用缓存")));
                    },
                };
                let fresh = CacheData::new(data.nvidia_gpu_pci_bus, data.nvidia_device_ids);
                GpuCache::write(host, &fresh)
            },
        }
    }

    fn switch_integrated(sys: &SystemInfo, host: &mut HostState) -> (r: Result<(), GswitchError>)
        requires
            old(host).wf(),
        ensures
            r is Ok,
            final(host).wf(),
            final(host).dry() == old(host).dry(),
            final(host).commands() == old(host).commands(),
            final(host).cache() == cache_after_nvidia(*sys, old(host).cache(), old(host).dry()),
            final(host).services() == if old(host).dry() {
                old(host).services()
            } else {
                with_gpu_services(old(host).services(), false, false, false)
            },
            final(host).files() == if old(host).dry() {
                old(host).files()
            } else {
                old(host).files().insert(MODPROBE_GPU_PATH@, MODPROBE_INTEGRATED@).insert(UDEV_INTEGRATED_PATH@, UDEV_INTEGRATED@)
            },
    {
        let _ = Self::write_nvidia_cache(sys, host);
        configure_gpu_services(host, false, false, false);
        write_file(host, MODPROBE_GPU_PATH, MODPROBE_INTEGRATED)?;
        write_file(host, UDEV_INTEGRATED_PATH, UDEV_INTEGRATED)?;
        Ok(())
    }

    fn switch_hybrid(sys: &SystemInfo, host: &mut HostState, rtd3: Option<u32>) -> (r: Result<(), GswitchError>)
        requires
            old(host).wf(),
        ensures
            r is Ok,
            final(host).wf(),
            final(host).dry() == old(host).dry(),
            final(host).commands() == old(host).commands(),
            final(host).cache() == cache_after_nvidia(*sys, old(host).cache(), old(host).dry()),
            final(host).services() == if old(host).dry() {
                old(host).services()
            } else {
                with_gpu_services(old(host).services(), true, false, true)
            },
            final(host).files() == if old(host).dry() {
                old(host).files()
            } else {
                old(host).files().insert(MODPROBE_GPU_PATH@, modeset_text(rtd3)).insert(UDEV_PM_PATH@, UDEV_PM_CONTENT@)
            },
    {
        configure_gpu_services(host, true, false, true);
        let content = generate_modeset_content(rtd3);
        write_file(host, MODPROBE_GPU_PATH, content.as_str())?;
        write_file(host, UDEV_PM_PATH, UDEV_PM_CONTENT)?;
        let _ = Self::write_nvidia_cache(sys, host);
        Ok(())
    }

    fn switch_nvidia(sys: &SystemInfo, host: &mut HostState) -> (r: Result<(), GswitchError>)
        requires
            old(host).wf(),
        ensures
            r is Ok,
            final(host).wf(),
            final(host).dry() == old(host).dry(),
            final(host).commands() == old(host).commands(),
            final(host).cache() == cache_after_nvidia(*sys, old(host).cache(), old(host).dry()),
            final(host).services() == if old(host).dry() {
                old(host).services()
            } else {
                with_gpu_services(old(host).services(), true, true, true)
            },
            final(host).files() == if old(host).dry() {
                old(host).files()
            } else {
                old(host).files().insert(MODPROBE_GPU_PATH@, MODESET_CONTENT@).insert(xorg_path(*sys), XORG_CONF_NVIDIA_CONTENT@).insert(
                    NV_ENV_PATH@,
                    NV_ENV_CONTENT@,
                )
            },
    {
        let _ = Self::write_nvidia_cache(sys, host);
        configure_gpu_services(host, true, true, true);
        write_file(host, MODPROBE_GPU_PATH, MODESET_CONTENT)?;
        write_xorg_nvidia_config(sys, host)?;
        write_nvidia_env_config(host)?;
        Ok(())
    }

    fn switch_passthrough(sys: &SystemInfo, host: &mut HostState) -> (r: Result<(), GswitchError>)
        requires
            old(host).wf(),
        ensures
            final(host).wf(),
            final(host).dry() == old(host).dry(),
            final(host).commands() == old(host).commands(),
            final(host).cache() == cache_after_nvidia(*sys, old(host).cache(), old(host).dry()),
            final(host).services() == if old(host).dry() {
                old(host).services()
            } else {
                with_gpu_services(old(host).services(), false, false, false)
            },
            r is Ok <==> passthrough_ids(*sys, cache_after_nvidia(*sys, old(host).cache(), old(host).dry())) is Some,
            r matches Err(e) ==> (e matches GswitchError::Gpu(m)
                && m@ == passthrough_error(cache_after_nvidia(*sys, old(host).cache(), old(host).dry()))),
            final(host).files() == if old(host).dry() || r is Err {
                old(host).files()
            } else {
                vfio_added_files(
                    sys.tools,
                    old(host).files().insert(
                        MODPROBE_GPU_PATH@,
                        vfio_modprobe_text(passthrough_ids(*sys, cache_after_nvidia(*sys, old(host).cache(), old(host).dry())).unwrap()),
                    ),
                )
            },
    {
        let _ = Self::write_nvidia_cache(sys, host);
        configure_gpu_services(host, false, false, false);
        let ids: Vec<(u16, u16)> = match Detector::get_all_nvidia_ids(sys) {
            Ok(ids) => ids,
            Err(_) => {
                let cache = match GpuCache::read(host) {
                    Ok(c) => c,
                    Err(e) => {
                        let mut msg = String::from_str("未检测到 NVIDIA GPU 设备且缓存不可用: GPU 操作错误: ");
                        match e {
                            GswitchError::Gpu(m) => push_str(&mut msg, m.as_str()),
                            _ => {},
                        }
                        return Err(GswitchError::Gpu(msg));
                    },
                };
                if cache.nvidia_device_ids.len() == 0 {
                    return Err(
                        GswitchError::Gpu(
                            String::from_str("未检测到 NVIDIA GPU 设备且缓存中无设备 ID（请先切换到混合模式生成缓存）"),
                        ),
                    );
                }
                let mut pairs: Vec<(u16, u16)> = Vec::new();
                let mut i: usize = 0;
                while i < cache.nvidia_device_ids.len()
                    invariant
                        i <= cache.nvidia_device_ids.len(),
                        pairs@.map_values(|p: (u16, u16)| (p.0 as nat, p.1 as nat)) == id_pairs(cache.nvidia_device_ids@.take(i as int)),
                    decreases cache.nvidia_device_ids.len() - i,
                {
                    let d = cache.nvidia_device_ids[i];
                    let ghost old_pairs = pairs@;
                    pairs.push((d.vendor, d.device));
                    proof {
                        assert(cache.nvidia_device_ids@.take(i as int + 1) =~= cache.nvidia_device_ids@.take(i as int).push(d));
                        assert(pairs@.map_values(|p: (u16, u16)| (p.0 as nat, p.1 as nat)) =~= old_pairs.map_values(|p: (u16, u16)| (p.0 as nat, p.1 as nat)).push((d.vendor as nat, d.device as nat)));
                        assert(id_pairs(cache.nvidia_device_ids@.take(i as int + 1)) =~= id_pairs(cache.nvidia_device_ids@.take(i as int)).push((d.vendor as nat, d.device as nat)));
                    }
                    i += 1;
                }
                proof {
                    assert(cache.nvidia_device_ids@.take(cache.nvidia_device_ids.len() as int) =~= cache.nvidia_device_ids@);
                }
                pairs
            },
        };
        let mut content = String::from_str("# Automatically generated by gswitch - VFIO Passthrough mode\nblacklist nouveau\nblacklist nvidia\nblacklist nvidia-drm\nblacklist nvidia-modeset\nblacklist nvidia-uvm\ninstall nouveau /bin/false\ninstall nvidia /bin/false\ninstall nvidia-drm /bin/false\ninstall nvidia-modeset /bin/false\ninstall nvidia-uvm /bin/false\noptions vfio-pci ids=");
        push_ids_line(&mut content, &ids);
        push_str(&mut content, "\n");
        write_file(host, MODPROBE_GPU_PATH, content.as_str())?;
        add_vfio_to_initramfs(sys, host)
    }

    /// Switches to the requested mode before the initramfs rebuild is
    /// queued (see `switch_effect`), then queues the rebuild.
    fn do_switch(opts: &SwitchOptions, sys: &SystemInfo, host: &mut HostState) -> (r: Result<(), GswitchError>)
        requires
            old(host).wf(),
        ensures
            final(host).wf(),
            final(host).dry() == old(host).dry(),
            final(host).files() == effect_of(opts, *sys, *old(host)).files,
            final(host).services() == effect_of(opts, *sys, *old(host)).services,
            final(host).cache() == effect_of(opts, *sys, *old(host)).cache,
            r is Ok <==> switch_succeeds(opts, *sys, *old(host)),
            final(host).commands() == if old(host).dry() || !effect_of(opts, *sys, *old(host)).ids_ok || rebuild_command(sys.tools) is None {
                old(host).commands()
            } else {
                old(host).commands().push(rebuild_command(sys.tools).unwrap())
            },
            r matches Err(e) ==> (e matches GswitchError::Gpu(m) && m@ == if !effect_of(opts, *sys, *old(host)).ids_ok {
                passthrough_error(cache_after_nvidia(*sys, old(host).cache(), old(host).dry()))
            } else {
                no_rebuild_tool_msg()
            }),
    {
        cleanup(host)?;
        match opts.mode {
            GraphicsMode::Hybrid => {
                Self::switch_hybrid(sys, host, opts.nvidia_opts.rtd3)?;
            },
            GraphicsMode::Integrated => {
                Self::switch_integrated(sys, host)?;
            },
            GraphicsMode::Passthrough => {
                Self::switch_passthrough(sys, host)?;
            },
            GraphicsMode::Nvidia => {
                Self::switch_nvidia(sys, host)?;
            },
        }
        let prime: &'static str = match opts.mode {
            GraphicsMode::Hybrid => "on-demand",
            GraphicsMode::Nvidia => "on",
            GraphicsMode::Passthrough => "off",
            GraphicsMode::Integrated => "off",
        };
        set_prime_discrete(host, prime)?;
        append_sleep_config(sys, host, opts.mode)?;
        rebuild_initramfs(sys, host)
    }

    /// Switches the GPU mode (effective after a reboot): when the machine
    /// can switch, saves a snapshot of the configuration, switches (see
    /// `switch_effect`) and queues the initramfs rebuild. When the switch
    /// fails, the files and known service states are restored from the
    /// snapshot and the rebuild is queued again. On success the snapshot is
    /// returned, for rolling back should the queued rebuild fail.
    pub fn switch_mode(opts: &SwitchOptions, sys: &SystemInfo, host: &mut HostState) -> (r: Result<ConfigSnapshot, GswitchError>)
        requires
            old(host).wf(),
        ensures
            final(host).wf(),
            final(host).dry() == old(host).dry(),
            !(sys.pci_devices is Ok && switchable(*sys, old(host).cache())) ==> r is Err && final(host).files() == old(host).files()
                && final(host).services() == old(host).services() && final(host).cache() == old(host).cache()
                && final(host).commands() == old(host).commands(),
            sys.pci_devices is Ok && switchable(*sys, old(host).cache()) && switch_succeeds(opts, *sys, *old(host)) ==> (r matches Ok(snap)
                && snap.wf() && snap.files() == saved_states(old(host).files(), SNAPSHOT_PATHS@)
                && snap.services() == saved_services(old(host).services(), old(host).dry(), SERVICE_SNAPSHOT_NAMES@))
                && final(host).files() == effect_of(opts, *sys, *old(host)).files
                && final(host).services() == effect_of(opts, *sys, *old(host)).services
                && final(host).cache() == effect_of(opts, *sys, *old(host)).cache
                && final(host).commands() == if old(host).dry() {
                    old(host).commands()
                } else {
                    old(host).commands().push(rebuild_command(sys.tools).unwrap())
                },
            sys.pci_devices is Ok && switchable(*sys, old(host).cache()) && !switch_succeeds(opts, *sys, *old(host)) ==> r is Err
                && final(host).files() == old(host).files()
                && final(host).cache() == effect_of(opts, *sys, *old(host)).cache
                && final(host).services() == restored_services(
                    effect_of(opts, *sys, *old(host)).services,
                    saved_services(old(host).services(), old(host).dry(), SERVICE_SNAPSHOT_NAMES@),
                )
                && final(host).commands() == if old(host).dry() || rebuild_command(sys.tools) is None {
                    old(host).commands()
                } else {
                    old(host).commands().push(rebuild_command(sys.tools).unwrap())
                },
            r matches Err(e) ==> (e matches GswitchError::Gpu(m) && m@ == switch_error(opts, *sys, *old(host))),
    {
        if !Detector::can_switch(sys, host)? {
            return Err(GswitchError::Gpu(String::from_str("系统不支持 GPU 切换")));
        }
        let paths: &[&'static str] = &SNAPSHOT_PATHS;
        let snapshot = match ConfigSnapshot::save(host, paths) {
            Ok(s) => s,
            Err(e) => {
                return Err(e);
            },
        };
        let ghost before = *host;
        let result = Self::do_switch(opts, sys, host);
        match result {
            Ok(()) => Ok(snapshot),
            Err(e) => {
                let ghost mid = host.files();
                snapshot.restore(host);
                let _ = rebuild_initramfs(sys, host);
                proof {
                    if !before.dry() {
                        lemma_switch_confined(opts, *sys, before);
                        lemma_restore_confined(before.files(), mid);
                    } else {
                        assert(restored_services(before.services(), saved_services(before.services(), true, SERVICE_SNAPSHOT_NAMES@))
                            =~= before.services());
                    }
                }
                Err(e)
            },
        }
    }

    /// What a switch would do, for a preview: on a copy of the host that is
    /// not in preview mode, the switch's changes and the queued rebuild
    /// (see `switch_effect`), as if every step were carried out; the host
    /// itself is not changed.
    pub fn preview_switch(opts: &SwitchOptions, sys: &SystemInfo, host: &HostState) -> (r: HostState)
        requires
            host.wf(),
        ensures
            r.wf(),
            !r.dry(),
            ({
                let e = switch_effect(opts.mode, opts.nvidia_opts.rtd3, *sys, host.files(), host.services(), host.cache(), false);
                &&& r.files() == e.files
                &&& r.services() == e.services
                &&& r.cache() == e.cache
                &&& r.commands() == if !e.ids_ok || rebuild_command(sys.tools) is None {
                    host.commands()
                } else {
                    host.commands().push(rebuild_command(sys.tools).unwrap())
                }
            }),
    {
        let mut c = host.copy_as(false);
        let _ = Self::do_switch(opts, sys, &mut c);
        c
    }

    /// The mode the machine is in.
    pub fn query_mode(sys: &SystemInfo, host: &HostState) -> (r: GraphicsMode)
        requires
            host.wf(),
        ensures
            r == crate::detector::current_mode(sys.proc_modules@, host.files()),
    {
        Detector::query_current_mode(sys, host)
    }

    /// Whether the machine can switch GPUs.
    pub fn can_switch(sys: &SystemInfo, host: &HostState) -> (r: Result<bool, GswitchError>)
        ensures
            r is Err <==> !crate::detector::is_fixed_chassis(sys.chassis_type@) && sys.pci_devices is Err,
            r matches Ok(b) ==> b == switchable(*sys, host.cache()),
            r matches Err(e) ==> (e matches GswitchError::Gpu(m) && m@ == crate::detector::pci_dir_error(*sys)),
    {
        Detector::can_switch(sys, host)
    }

    /// Removes every generated file and the cache and queues the initramfs
    /// rebuild.
    pub fn reset(sys: &SystemInfo, host: &mut HostState) -> (r: Result<(), GswitchError>)
        requires
            old(host).wf(),
        ensures
            final(host).wf(),
            final(host).dry() == old(host).dry(),
            final(host).files() == if old(host).dry() { old(host).files() } else { cleaned_files(old(host).files()) },
            final(host).services() == old(host).services(),
            final(host).cache() == if old(host).dry() { old(host).cache() } else { CacheState::Absent },
            final(host).commands() == if old(host).dry() || rebuild_command(sys.tools) is None {
                old(host).commands()
            } else {
                old(host).commands().push(rebuild_command(sys.tools).unwrap())
            },
            r is Err <==> !old(host).dry() && rebuild_command(sys.tools) is None,
            r matches Err(e) ==> (e matches GswitchError::Gpu(m) && m@ == no_rebuild_tool_msg()),
    {
        cleanup(host)?;
        GpuCache::delete(host)?;
        rebuild_initramfs(sys, host)
    }

    /// Caches the NVIDIA GPU; only in hybrid or passthrough mode.
    pub fn cache_create(sys: &SystemInfo, host: &mut HostState) -> (r: Result<(), GswitchError>)
        requires
            old(host).wf(),
        ensures
            final(host).wf(),
            final(host).dry() == old(host).dry(),
            final(host).files() == old(host).files(),
            final(host).services() == old(host).services(),
            final(host).commands() == old(host).commands(),
            ({
                let m = crate::detector::current_mode(sys.proc_modules@, old(host).files());
                if m != GraphicsMode::Hybrid && m != GraphicsMode::Passthrough {
                    r matches Err(e) && e matches GswitchError::Input(msg) && msg@ == "缓存创建需要混合或直通模式处于激活状态"@
                        && final(host).cache() == old(host).cache()
                } else {
                    (r is Ok <==> nvidia_cache_entry(*sys, old(host).cache()) is Some)
                        && final(host).cache() == cache_after_nvidia(*sys, old(host).cache(), old(host).dry())
                }
            }),
    {
        let mode = Detector::query_current_mode(sys, host);
        if mode != GraphicsMode::Hybrid && mode != GraphicsMode::Passthrough {
            return Err(GswitchError::Input(String::from_str("缓存创建需要混合或直通模式处于激活状态")));
        }
        Self::write_nvidia_cache(sys, host)
    }

    /// Deletes the cache.
    pub fn cache_delete(host: &mut HostState) -> (r: Result<(), GswitchError>)
        requires
            old(host).wf(),
        ensures
            r is Ok,
            final(host).wf(),
            final(host).cache() == if old(host).dry() { old(host).cache() } else { CacheState::Absent },
            final(host).files() == old(host).files(),
            final(host).services() == old(host).services(),
            final(host).commands() == old(host).commands(),
            final(host).dry() == old(host).dry(),
    {
        GpuCache::delete(host)
    }

    /// The cache data to show, or the text shown when there is none.
    pub fn cache_query(host: &HostState) -> (r: Result<CacheData, String>)
        ensures
            r matches Ok(d) ==> host.cache() == CacheState::Present(d.version, d.nvidia_gpu_pci_bus@, d.nvidia_device_ids@),
            r is Ok <==> cache_usable(host.cache()),
            r matches Err(m) ==> m@ == "无缓存数据"@,
    {
        GpuCache::query(host)
    }

    /// The power action to carry out: `On` and `Off` as asked; `Auto`
    /// resolves by `auto_power_action` (`None`: nothing to do).
    pub fn power(action: PowerAction, sys: &SystemInfo, host: &HostState) -> (r: Option<PowerAction>)
        requires
            host.wf(),
        ensures
            r == match action {
                PowerAction::On => Some(PowerAction::On),
                PowerAction::Off => Some(PowerAction::Off),
                PowerAction::Auto => crate::helper::auto_power_action(*sys, host.files()),
            },
    {
        match action {
            PowerAction::On => Some(PowerAction::On),
            PowerAction::Off => Some(PowerAction::Off),
            PowerAction::Auto => crate::helper::auto_power(sys, host),
        }
    }

    /// Whether the NVIDIA GPU is powered (present in sysfs).
    pub fn query_power(sys: &SystemInfo) -> (r: bool)
        ensures
            r == (sys.pci_devices matches Ok(devs) && gpus_of(devs@, nvidia_vendor()).len() > 0),
    {
        crate::helper::query_runtime_power(sys)
    }

    /// The recommended mode.
    pub fn get_default(sys: &SystemInfo, host: &HostState) -> (r: Result<GraphicsMode, GswitchError>)
        ensures
            sys.pci_devices is Ok && switchable(*sys, host.cache()) ==> (r matches Ok(m) && m == (
                if model_listed(crate::config::DEFAULT_DISCRETE_MODELS@, sys.product_version@) {
                    GraphicsMode::Nvidia
                } else if runtimepm_of(*sys) == Some(true) {
                    GraphicsMode::Hybrid
                } else {
                    GraphicsMode::Integrated
                })),
            !crate::detector::is_fixed_chassis(sys.chassis_type@) && sys.pci_devices is Err ==> (r matches Err(GswitchError::Gpu(m))
                && m@ == crate::detector::pci_dir_error(*sys)),
            crate::detector::is_fixed_chassis(sys.chassis_type@) || (sys.pci_devices is Ok && !switchable(*sys, host.cache())) ==> r matches Err(
                GswitchError::NotSwitchable,
            ),
    {
        Detector::get_default(sys, host)
    }

    /// Whether external displays need the NVIDIA GPU on this model.
    pub fn external_display_requires_nvidia(sys: &SystemInfo, host: &HostState) -> (r: Result<bool, GswitchError>)
        ensures
            r matches Ok(b) ==> sys.pci_devices is Ok && switchable(*sys, host.cache())
                && b == model_listed(crate::config::EXTERNAL_DISPLAY_REQUIRES_NVIDIA@, sys.product_version@),
            r is Err ==> crate::detector::is_fixed_chassis(sys.chassis_type@) || sys.pci_devices is Err || !switchable(*sys, host.cache()),
            r matches Err(e) ==> (e matches GswitchError::Gpu(m)
                && m@ == if !crate::detector::is_fixed_chassis(sys.chassis_type@) && sys.pci_devices is Err {
                crate::detector::pci_dir_error(*sys)
            } else {
                "系统不支持 GPU 切换"@
            }),
    {
        Detector::external_display_requires_nvidia(sys, host)
    }

    /// Whether the NVIDIA GPU supports runtime power management.
    pub fn supports_runtimepm(sys: &SystemInfo) -> (r: Result<bool, GswitchError>)
        ensures
            r matches Ok(b) ==> runtimepm_of(*sys) == Some(b),
            r is Err ==> runtimepm_of(*sys) is None,
            r matches Err(e) ==> (e matches GswitchError::Gpu(m) && m@ == crate::detector::runtimepm_error(*sys)),
    {
        Detector::gpu_supports_runtimepm(sys)
    }
}

/// The effect of a switch request on a host.
pub open spec fn effect_of(opts: &SwitchOptions, sys: SystemInfo, h: HostState) -> SwitchEffect {
    switch_effect(opts.mode, opts.nvidia_opts.rtd3, sys, h.files(), h.services(), h.cache(), h.dry())
}

/// A preview changes nothing: in dry-run mode a switch leaves the files,
/// the service states and the cache as they were (and `switch_mode` queues
/// no command).
pub proof fn lemma_preview_switch_changes_nothing(opts: &SwitchOptions, sys: SystemInfo, h: HostState)
    requires
        h.dry(),
    ensures
        effect_of(opts, sys, h).files == h.files(),
        effect_of(opts, sys, h).services == h.services(),
        effect_of(opts, sys, h).cache == h.cache(),
{
}

/// Why a switch request fails: the machine cannot switch (or its PCI
/// directory is missing), passthrough finds no device IDs, or no initramfs
/// tool is present.
pub open spec fn switch_error(opts: &SwitchOptions, sys: SystemInfo, h: HostState) -> Seq<char> {
    if !(sys.pci_devices is Ok && switchable(sys, h.cache())) {
        if !crate::detector::is_fixed_chassis(sys.chassis_type@) && sys.pci_devices is Err {
            crate::detector::pci_dir_error(sys)
        } else {
            "系统不支持 GPU 切换"@
        }
    } else if !effect_of(opts, sys, h).ids_ok {
        passthrough_error(cache_after_nvidia(sys, h.cache(), h.dry()))
    } else {
        no_rebuild_tool_msg()
    }
}

/// A switch request completes: passthrough found device IDs, and an
/// initramfs tool is present (or this is a preview).
pub open spec fn switch_succeeds(opts: &SwitchOptions, sys: SystemInfo, h: HostState) -> bool {
    effect_of(opts, sys, h).ids_ok && (h.dry() || rebuild_command(sys.tools) is Some)
}

/// The paths a switch writes or removes are all among the snapshot paths.
proof fn lemma_switch_confined(opts: &SwitchOptions, sys: SystemInfo, h: HostState)
    requires
        !h.dry(),
    ensures
        forall|p: Seq<char>| !path_set(SNAPSHOT_PATHS@).contains(p) ==> #[trigger] file_at(effect_of(opts, sys, h).files, p) == file_at(h.files(), p),
{
    let snap = path_set(SNAPSHOT_PATHS@);
    assert forall|i: int| 0 <= i < 11 implies snap.contains(#[trigger] SNAPSHOT_PATHS@[i]@) by {}
    assert(snap.contains(SNAPSHOT_PATHS@[0]@));
    assert(snap.contains(SNAPSHOT_PATHS@[2]@));
    assert(snap.contains(SNAPSHOT_PATHS@[3]@));
    assert(snap.contains(SNAPSHOT_PATHS@[4]@));
    assert(snap.contains(SNAPSHOT_PATHS@[5]@));
    assert(snap.contains(SNAPSHOT_PATHS@[6]@));
    assert(snap.contains(SNAPSHOT_PATHS@[7]@));
    assert(snap.contains(SNAPSHOT_PATHS@[8]@));
    assert(snap.contains(SNAPSHOT_PATHS@[9]@));
    assert(snap.contains(SNAPSHOT_PATHS@[10]@));
    assert forall|p: Seq<char>| path_set(crate::config::CLEANUP_PATHS@).contains(p) implies snap.contains(p) by {
        let i = choose|i: int| 0 <= i < 10 && #[trigger] crate::config::CLEANUP_PATHS@[i]@ == p;
        assert(crate::config::CLEANUP_PATHS@[i] == SNAPSHOT_PATHS@[i]);
    }
    assert forall|p: Seq<char>| !snap.contains(p) implies #[trigger] file_at(effect_of(opts, sys, h).files, p) == file_at(h.files(), p) by {
        assert(!path_set(crate::config::CLEANUP_PATHS@).contains(p));
    }
}

/// Restoring a snapshot of the snapshot paths, after changes confined to
/// them, gives back the files as they were.
proof fn lemma_restore_confined(before: Map<Seq<char>, Seq<char>>, after: Map<Seq<char>, Seq<char>>)
    requires
        forall|p: Seq<char>| !path_set(SNAPSHOT_PATHS@).contains(p) ==> #[trigger] file_at(after, p) == file_at(before, p),
    ensures
        restored_files(after, saved_states(before, SNAPSHOT_PATHS@)) == before,
{
    let r = restored_files(after, saved_states(before, SNAPSHOT_PATHS@));
    assert forall|p: Seq<char>| r.dom().contains(p) == before.dom().contains(p) by {
        assert(file_at(after, p) == file_at(before, p) || path_set(SNAPSHOT_PATHS@).contains(p));
    }
    assert forall|p: Seq<char>| r.dom().contains(p) implies r[p] == before[p] by {
        assert(file_at(after, p) == file_at(before, p) || path_set(SNAPSHOT_PATHS@).contains(p));
    }
    assert(r =~= before);
}

} // verus!
