//! Paths of the files the tool manages, their fixed contents, and the
//! machine lists that the detection rules consult.

use vstd::prelude::*;

verus! {

/// modprobe configuration written for every mode.
pub const MODPROBE_GPU_PATH: &'static str = "/etc/modprobe.d/gswitch-gpu.conf";
/// Separate modeset configuration (older layout; only removed and probed).
pub const MODESET_PATH: &'static str = "/etc/modprobe.d/gswitch-nvidia-modeset.conf";
/// udev rules that remove the NVIDIA devices in integrated mode.
pub const UDEV_INTEGRATED_PATH: &'static str = "/etc/udev/rules.d/50-gswitch-remove-nvidia.rules";
/// udev rules for runtime power management in hybrid mode.
pub const UDEV_PM_PATH: &'static str = "/etc/udev/rules.d/80-gswitch-nvidia-pm.rules";
/// PRIME discrete flag: `off`, `on-demand` or `on`.
pub const PRIME_DISCRETE_PATH: &'static str = "/etc/prime-discrete";
/// Environment variables that request rendering on the NVIDIA GPU.
pub const NV_ENV_PATH: &'static str = "/etc/environment.d/gswitch-nvidia.conf";
/// X11 configuration that makes the NVIDIA GPU primary.
pub const XORG_CONF_NVIDIA_PATH: &'static str = "/etc/X11/xorg.conf.d/11-nvidia-discrete.conf";
/// Where the X11 configuration goes when `/etc/X11/xorg.conf.d` is missing.
pub const XORG_CONF_NVIDIA_FALLBACK_PATH: &'static str = "/usr/share/X11/xorg.conf.d/11-nvidia-discrete.conf";
/// dracut drop-in that adds the VFIO drivers to the initramfs.
pub const DRACUT_VFIO_CONF_PATH: &'static str = "/etc/dracut.conf.d/gswitch-vfio.conf";
/// mkinitcpio drop-in that adds the VFIO modules to the initramfs.
pub const MKINITCPIO_VFIO_CONF_PATH: &'static str = "/etc/mkinitcpio.conf.d/gswitch-vfio.conf";
/// initramfs-tools module list (Debian, Ubuntu).
pub const INITRAMFS_TOOLS_MODULES_PATH: &'static str = "/etc/initramfs-tools/modules";
/// The GPU cache.
pub const CACHE_FILE_PATH: &'static str = "/var/cache/gswitch/gpu-cache.json";
/// Directory whose presence selects `XORG_CONF_NVIDIA_PATH`.
pub const XORG_CONF_DIR: &'static str = "/etc/X11/xorg.conf.d";

/// First line of every generated modprobe file.
pub const GENERATED_HEADER: &'static str = "# Automatically generated by gswitch";

/// modprobe configuration for integrated mode: NVIDIA drivers blocked.
pub const MODPROBE_INTEGRATED: &'static str = "# Automatically generated by gswitch
blacklist i2c_nvidia_gpu
blacklist nouveau
blacklist nvidia
blacklist nvidia-drm
blacklist nvidia-modeset
blacklist nvidia-uvm
alias i2c_nvidia_gpu off
alias nouveau off
alias nvidia off
alias nvidia-drm off
alias nvidia-modeset off
alias nvidia-uvm off
install nouveau /bin/false
install nvidia /bin/false
install nvidia-drm /bin/false
install nvidia-modeset /bin/false
install nvidia-uvm /bin/false
";

/// udev rules for integrated mode: remove every NVIDIA PCI function.
pub const UDEV_INTEGRATED: &'static str = "# Automatically generated by gswitch
# Remove NVIDIA USB xHCI Host Controller devices, if present
ACTION==\"add\", SUBSYSTEM==\"pci\", ATTR{vendor}==\"0x10de\", ATTR{class}==\"0x0c0330\", ATTR{remove}=\"1\"
# Remove NVIDIA USB Type-C UCSI devices, if present
ACTION==\"add\", SUBSYSTEM==\"pci\", ATTR{vendor}==\"0x10de\", ATTR{class}==\"0x0c8000\", ATTR{remove}=\"1\"
# Remove NVIDIA Audio devices, if present
ACTION==\"add\", SUBSYSTEM==\"pci\", ATTR{vendor}==\"0x10de\", ATTR{class}==\"0x040300\", ATTR{remove}=\"1\"
# Remove NVIDIA VGA/3D controller devices
ACTION==\"add\", SUBSYSTEM==\"pci\", ATTR{vendor}==\"0x10de\", ATTR{class}==\"0x03[0-9]*\", ATTR{remove}=\"1\"
";

/// udev rules for hybrid mode: runtime power management on bind.
pub const UDEV_PM_CONTENT: &'static str = "# Automatically generated by gswitch
# Enable runtime PM for NVIDIA VGA/3D controller devices on driver bind
ACTION==\"bind\", SUBSYSTEM==\"pci\", DRIVERS==\"nvidia\", ATTR{vendor}==\"0x10de\", ATTR{class}==\"0x030000\", TEST==\"power/control\", ATTR{power/control}=\"auto\"
ACTION==\"bind\", SUBSYSTEM==\"pci\", DRIVERS==\"nvidia\", ATTR{vendor}==\"0x10de\", ATTR{class}==\"0x030200\", TEST==\"power/control\", ATTR{power/control}=\"auto\"
# Disable runtime PM for NVIDIA VGA/3D controller devices on driver unbind
ACTION==\"unbind\", SUBSYSTEM==\"pci\", DRIVERS==\"nvidia\", ATTR{vendor}==\"0x10de\", ATTR{class}==\"0x030000\", TEST==\"power/control\", ATTR{power/control}=\"on\"
ACTION==\"unbind\", SUBSYSTEM==\"pci\", DRIVERS==\"nvidia\", ATTR{vendor}==\"0x10de\", ATTR{class}==\"0x030200\", TEST==\"power/control\", ATTR{power/control}=\"on\"
";

/// modprobe configuration for hybrid and NVIDIA mode without RTD3.
pub const MODESET_CONTENT: &'static str = "# Automatically generated by gswitch
options nvidia-drm modeset=1
options nvidia NVreg_UsePageAttributeTable=1 NVreg_InitializeSystemMemoryAllocations=0
";

/// Suspend settings appended for S0ix (s2idle) systems.
pub const MODPROBE_S0IX: &'static str = "options nvidia NVreg_EnableS0ixPowerManagement=1
";

/// Suspend settings appended for S3 (deep) systems.
pub const MODPROBE_S3: &'static str = "options nvidia NVreg_PreserveVideoMemoryAllocations=1 NVreg_TemporaryFilePath=/var/tmp
";

/// Environment for NVIDIA mode: ask applications to render on the NVIDIA GPU.
pub const NV_ENV_CONTENT: &'static str = "# Automatically generated by gswitch
__NV_PRIME_RENDER_OFFLOAD=1
__GLX_VENDOR_LIBRARY_NAME=nvidia
__VK_LAYER_NV_optimus=NVIDIA_only
DRI_PRIME=1
";

/// X11 configuration for NVIDIA mode.
pub const XORG_CONF_NVIDIA_CONTENT: &'static str = "# Automatically generated by gswitch
Section \"OutputClass\"
    Identifier \"nvidia\"
    MatchDriver \"nvidia-drm\"
    Driver \"nvidia\"
    Option \"AllowEmptyInitialConfiguration\"
    Option \"PrimaryGPU\" \"yes\"
    ModulePath \"/usr/lib/nvidia/xorg\"
    ModulePath \"/usr/lib/xorg/modules\"
EndSection
";

/// dracut drop-in for passthrough mode.
pub const DRACUT_VFIO_CONTENT: &'static str = "# Automatically generated by gswitch
add_drivers+=\" vfio_pci vfio vfio_iommu_type1 \"";

/// mkinitcpio drop-in for passthrough mode.
pub const MKINITCPIO_VFIO_CONTENT: &'static str = "# Automatically generated by gswitch
MODULES=(vfio_pci vfio vfio_iommu_type1 vfio_virqfd)";

/// Lines appended to the initramfs-tools module list for passthrough mode.
pub const INITRAMFS_VFIO_LINES: &'static str = "# Added by gswitch for VFIO passthrough
vfio_pci
";

/// NVIDIA suspend, resume and hibernate services.
pub const NVIDIA_SUSPEND_SERVICES: [&'static str; 3] = [
    "nvidia-suspend.service",
    "nvidia-resume.service",
    "nvidia-hibernate.service",
];

/// Dynamic Boost daemon, wanted in hybrid and NVIDIA mode.
pub const NVIDIA_POWERD_SERVICE: &'static str = "nvidia-powerd.service";

/// Fallback service, wanted in NVIDIA mode.
pub const NVIDIA_FALLBACK_SERVICE: &'static str = "nvidia-fallback.service";

/// Services whose enablement a configuration snapshot records.
pub const SERVICE_SNAPSHOT_NAMES: [&'static str; 5] = [
    "nvidia-suspend.service",
    "nvidia-resume.service",
    "nvidia-hibernate.service",
    "nvidia-powerd.service",
    "nvidia-fallback.service",
];

/// Files that a configuration snapshot records before a switch.
pub const SNAPSHOT_PATHS: [&'static str; 11] = [
    MODPROBE_GPU_PATH,
    MODESET_PATH,
    UDEV_INTEGRATED_PATH,
    UDEV_PM_PATH,
    PRIME_DISCRETE_PATH,
    NV_ENV_PATH,
    XORG_CONF_NVIDIA_PATH,
    XORG_CONF_NVIDIA_FALLBACK_PATH,
    DRACUT_VFIO_CONF_PATH,
    MKINITCPIO_VFIO_CONF_PATH,
    INITRAMFS_TOOLS_MODULES_PATH,
];

/// Files that `cleanup` removes.
pub const CLEANUP_PATHS: [&'static str; 10] = [
    MODPROBE_GPU_PATH,
    MODESET_PATH,
    UDEV_INTEGRATED_PATH,
    UDEV_PM_PATH,
    PRIME_DISCRETE_PATH,
    NV_ENV_PATH,
    XORG_CONF_NVIDIA_PATH,
    XORG_CONF_NVIDIA_FALLBACK_PATH,
    DRACUT_VFIO_CONF_PATH,
    MKINITCPIO_VFIO_CONF_PATH,
];

/// Machines whose external display outputs are wired to the NVIDIA GPU.
pub const EXTERNAL_DISPLAY_REQUIRES_NVIDIA: [&'static str; 24] = [
    "addw1",
    "addw2",
    "addw3",
    "addw4",
    "addw5",
    "gaze14",
    "gaze15",
    "gaze16-3050",
    "gaze16-3060",
    "gaze16-3060-b",
    "gaze17-3050",
    "gaze17-3060-b",
    "gaze18",
    "kudu6",
    "oryp4",
    "oryp4-b",
    "oryp5",
    "oryp6",
    "oryp7",
    "oryp8",
    "oryp9",
    "oryp10",
    "oryp11",
    "serw13",
];

/// Machines whose recommended mode is NVIDIA.
pub const DEFAULT_DISCRETE_MODELS: [&'static str; 4] = [
    "bonw14",
    "bonw15",
    "bonw16",
    "serw13",
];

/// DMI chassis types of desktops and servers, which cannot switch:
/// 3 Desktop, 4 Low Profile Desktop, 5 Pizza Box, 6 Mini Tower, 7 Tower,
/// 17 Main Server Chassis, 23 Blade Server.
pub const NON_SWITCHABLE_CHASSIS_TYPES: [u32; 7] = [3, 4, 5, 6, 7, 17, 23];

/// Parts of a `/usr/share/doc` entry's path that mark the NVIDIA driver's
/// documentation, which ships `supported-gpus.json`.
pub const NVIDIA_DOC_PATTERNS: [&'static str; 2] = [
    "nvidia-driver-",
    "nvidia-kernel-common-",
];

/// Other places where distributions put `supported-gpus.json`.
pub const NVIDIA_GPU_JSON_ALT_PATHS: [&'static str; 2] = [
    "/usr/share/nvidia/supported-gpus/supported-gpus.json",
    "/usr/share/doc/nvidia/supported-gpus.json",
];

} // verus!
