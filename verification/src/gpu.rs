//! Graphics adapter facts: what the probing tools print, turned into a `GpuInfo`,
//! and the capability table for a vendor.
use vstd::prelude::*;
use vstd::string::StringExecFns;
use crate::text::{
    after_first, after_first_chars, chars_of, contains, contains_chars, lines_of, lower_lines,
    lowered, parse_u64_chars, parse_u64_spec, remove_all, remove_all_chars, second_piece,
    second_piece_chars, spec_lowercase, spec_utf8_lossy, splitn_chars, splitn_on, starts_with,
    starts_with_chars, str_contains, string_of, text_lines, trim, trim_chars, views, words_chars,
    words_of,
};

verus! {

// ------------------------------------------------------------------ model

/// What is known of the graphics adapter, as text and byte counts.
pub struct GpuInfo {
    pub name: String,
    pub vendor: String,
    pub vram_bytes: Option<u64>,
    pub driver: String,
    pub bus: String,
    pub renderer: String,
    pub api: String,
}

/// The contents of a `GpuInfo`.
pub struct GpuView {
    pub name: Seq<char>,
    pub vendor: Seq<char>,
    pub vram_bytes: Option<u64>,
    pub driver: Seq<char>,
    pub bus: Seq<char>,
    pub renderer: Seq<char>,
    pub api: Seq<char>,
}

impl View for GpuInfo {
    type V = GpuView;

    open spec fn view(&self) -> GpuView {
        GpuView {
            name: self.name@,
            vendor: self.vendor@,
            vram_bytes: self.vram_bytes,
            driver: self.driver@,
            bus: self.bus@,
            renderer: self.renderer@,
            api: self.api@,
        }
    }
}

/// The adapter before any probe ran: name and vendor `"Unknown"`, the rest empty.
pub open spec fn default_gpu() -> GpuView {
    GpuView {
        name: "Unknown"@,
        vendor: "Unknown"@,
        vram_bytes: None,
        driver: Seq::empty(),
        bus: Seq::empty(),
        renderer: Seq::empty(),
        api: Seq::empty(),
    }
}

impl Default for GpuInfo {
    fn default() -> (r: GpuInfo)
        ensures
            r@ == default_gpu(),
    {
        GpuInfo {
            name: String::from_str("Unknown"),
            vendor: String::from_str("Unknown"),
            vram_bytes: None,
            driver: String::new(),
            bus: String::new(),
            renderer: String::new(),
            api: String::new(),
        }
    }
}

// ------------------------------------------------------------------ capabilities

/// The contents of each pair of strings, in order.
pub open spec fn pair_views(v: Seq<(String, String)>) -> Seq<(Seq<char>, Seq<char>)> {
    v.map_values(|p: (String, String)| (p.0@, p.1@))
}

/// The contents of each pair of string slices, in order.
pub open spec fn str_pair_views(v: Seq<(&str, &str)>) -> Seq<(Seq<char>, Seq<char>)> {
    v.map_values(|p: (&str, &str)| (p.0@, p.1@))
}

/// Capabilities listed for NVIDIA adapters.
pub open spec fn nvidia_capabilities() -> Seq<(Seq<char>, Seq<char>)> {
    seq![
        ("CUDA"@, "Supported (driver required)"@),
        ("OpenCL"@, "Supported"@),
        ("Vulkan"@, "Supported"@),
        ("OpenGL"@, "Supported"@),
        ("DirectX"@, "12 / DX12 Ultimate (Windows)"@),
        ("NVENC"@, "Hardware video encoding"@),
        ("NVDEC"@, "Hardware video decoding"@),
        ("DLSS"@, "AI upscaling (Turing+)"@),
        ("RTX"@, "Ray tracing (Turing+)"@),
        ("NvLink"@, "Multi-GPU bridge"@),
    ]
}

/// Capabilities listed for AMD adapters.
pub open spec fn amd_capabilities() -> Seq<(Seq<char>, Seq<char>)> {
    seq![
        ("OpenCL"@, "Supported"@),
        ("Vulkan"@, "Supported"@),
        ("OpenGL"@, "Supported"@),
        ("DirectX"@, "12 / DX12 Ultimate (Windows)"@),
        ("ROCm"@, "Linux compute platform"@),
        ("AMF"@, "Hardware video encoding"@),
        ("FidelityFX"@, "FSR upscaling"@),
        ("Ray Tracing"@, "RDNA2+ supported"@),
        ("Infinity Cache"@, "RDNA2+ last-level cache"@),
        ("Smart Access Memory"@, "Supported (with Ryzen)"@),
    ]
}

/// Capabilities listed for Intel adapters.
pub open spec fn intel_capabilities() -> Seq<(Seq<char>, Seq<char>)> {
    seq![
        ("OpenCL"@, "Supported"@),
        ("Vulkan"@, "Supported"@),
        ("OpenGL"@, "Supported"@),
        ("DirectX"@, "12 (Xe+)"@),
        ("QuickSync"@, "Hardware video encode/decode"@),
        ("XMX"@, "Xe Matrix Extension (Arc)"@),
        ("XeSS"@, "AI upscaling (Arc)"@),
        ("Ray Tracing"@, "Arc Alchemist supported"@),
    ]
}

/// Capabilities listed for any other adapter.
pub open spec fn unknown_capabilities() -> Seq<(Seq<char>, Seq<char>)> {
    seq![("OpenCL"@, "Unknown"@), ("Vulkan"@, "Unknown"@), ("OpenGL"@, "Unknown"@)]
}

/// The capability table for a lowercased vendor name.
pub open spec fn gpu_capabilities_spec(v: Seq<char>) -> Seq<(Seq<char>, Seq<char>)> {
    if contains(v, "nvidia"@) {
        nvidia_capabilities()
    } else if contains(v, "amd"@) || contains(v, "ati"@) {
        amd_capabilities()
    } else if contains(v, "intel"@) {
        intel_capabilities()
    } else {
        unknown_capabilities()
    }
}

/// Owned copies of `items`.
fn owned_pairs(items: Vec<(&str, &str)>) -> (r: Vec<(String, String)>)
    ensures
        pair_views(r@) == str_pair_views(items@),
{
    let mut out: Vec<(String, String)> = Vec::new();
    let mut i: usize = 0;
    while i < items.len()
        invariant
            i <= items.len(),
            pair_views(out@) == str_pair_views(items@).take(i as int),
        decreases items.len() - i,
    {
        let (k, v) = items[i];
        let p = (String::from_str(k), String::from_str(v));
        let ghost before = out@;
        out.push(p);
        assert(pair_views(out@) =~= pair_views(before).push((items@[i as int].0@, items@[i as int].1@)));
        assert(str_pair_views(items@).take(i + 1) =~= str_pair_views(items@).take(i as int).push(
            (items@[i as int].0@, items@[i as int].1@),
        ));
        i = i + 1;
    }
    assert(str_pair_views(items@).take(items.len() as int) =~= str_pair_views(items@));
    out
}

/// The capabilities and APIs listed for an adapter whose lowercased vendor is `vendor`.
pub fn gpu_capabilities(vendor: &str) -> (r: Vec<(String, String)>)
    ensures
        pair_views(r@) == gpu_capabilities_spec(vendor@),
{
    if str_contains(vendor, "nvidia") {
        let r = owned_pairs(
            vec![
                ("CUDA", "Supported (driver required)"),
                ("OpenCL", "Supported"),
                ("Vulkan", "Supported"),
                ("OpenGL", "Supported"),
                ("DirectX", "12 / DX12 Ultimate (Windows)"),
                ("NVENC", "Hardware video encoding"),
                ("NVDEC", "Hardware video decoding"),
                ("DLSS", "AI upscaling (Turing+)"),
                ("RTX", "Ray tracing (Turing+)"),
                ("NvLink", "Multi-GPU bridge"),
            ],
        );
        assert(pair_views(r@) =~= nvidia_capabilities());
        r
    } else if str_contains(vendor, "amd") || str_contains(vendor, "ati") {
        let r = owned_pairs(
            vec![
                ("OpenCL", "Supported"),
                ("Vulkan", "Supported"),
                ("OpenGL", "Supported"),
                ("DirectX", "12 / DX12 Ultimate (Windows)"),
                ("ROCm", "Linux compute platform"),
                ("AMF", "Hardware video encoding"),
                ("FidelityFX", "FSR upscaling"),
                ("Ray Tracing", "RDNA2+ supported"),
                ("Infinity Cache", "RDNA2+ last-level cache"),
                ("Smart Access Memory", "Supported (with Ryzen)"),
            ],
        );
        assert(pair_views(r@) =~= amd_capabilities());
        r
    } else if str_contains(vendor, "intel") {
        let r = owned_pairs(
            vec![
                ("OpenCL", "Supported"),
                ("Vulkan", "Supported"),
                ("OpenGL", "Supported"),
                ("DirectX", "12 (Xe+)"),
                ("QuickSync", "Hardware video encode/decode"),
                ("XMX", "Xe Matrix Extension (Arc)"),
                ("XeSS", "AI upscaling (Arc)"),
                ("Ray Tracing", "Arc Alchemist supported"),
            ],
        );
        assert(pair_views(r@) =~= intel_capabilities());
        r
    } else {
        let r = owned_pairs(
            vec![("OpenCL", "Unknown"), ("Vulkan", "Unknown"), ("OpenGL", "Unknown")],
        );
        assert(pair_views(r@) =~= unknown_capabilities());
        r
    }
}

// ------------------------------------------------------------------ lspci

/// An `lspci -v` line that introduces a display controller.
pub open spec fn is_gpu_header(line: Seq<char>) -> bool {
    contains(line, "VGA"@) || contains(line, "3D"@) || contains(line, "Display"@)
}

/// The vendor named by a lowercased `lspci` header line.
pub open spec fn lspci_vendor(lower: Seq<char>) -> Seq<char> {
    if contains(lower, "nvidia"@) {
        "NVIDIA"@
    } else if contains(lower, "amd"@) || contains(lower, "ati"@) {
        "AMD"@
    } else if contains(lower, "intel"@) {
        "Intel"@
    } else {
        "Unknown"@
    }
}

/// The adapter name on an `lspci` header line: what follows its second colon,
/// trimmed, or the whole line trimmed when it has fewer than two colons.
pub open spec fn lspci_name(line: Seq<char>) -> Seq<char> {
    let p = splitn_on(line, 3, ':');
    trim(if p.len() > 2 { p[2] } else { line })
}

/// The bus address on an `lspci` header line: its first word, or nothing.
pub open spec fn first_word(line: Seq<char>) -> Seq<char> {
    let w = words_of(line);
    if w.len() > 0 {
        w[0]
    } else {
        Seq::empty()
    }
}

/// The line belongs to the block of the entry above it (it starts with a tab or space).
pub open spec fn is_indented(line: Seq<char>) -> bool {
    line.len() > 0 && (line[0] == '\t' || line[0] == ' ')
}

/// One line of `lspci -v`: `st` holds the adapter and whether the line before
/// lies in a display controller's block; `lower` is the line lowercased.
pub open spec fn lspci_step(st: (GpuView, bool), line: Seq<char>, lower: Seq<char>) -> (
    GpuView,
    bool,
) {
    let g = st.0;
    if is_gpu_header(line) {
        (
            GpuView {
                name: lspci_name(line),
                bus: first_word(line),
                vendor: lspci_vendor(lower),
                ..g
            },
            true,
        )
    } else if st.1 && is_indented(line) {
        let t = trim(line);
        if starts_with(t, "Kernel driver in use:"@) {
            (GpuView { driver: trim(remove_all(t, "Kernel driver in use:"@)), ..g }, true)
        } else {
            (g, true)
        }
    } else {
        (g, false)
    }
}

/// The state after the first `n` lines of `lspci -v`.
pub open spec fn lspci_run(g: GpuView, lines: Seq<Seq<char>>, lowers: Seq<Seq<char>>, n: nat) -> (
    GpuView,
    bool,
)
    decreases n,
{
    if n == 0 {
        (g, false)
    } else {
        lspci_step(
            lspci_run(g, lines, lowers, (n - 1) as nat),
            lines[n - 1],
            lowers[n - 1],
        )
    }
}

/// The vendor named by a lowercased `lspci` header line.
fn lspci_vendor_exec(lower: &Vec<char>) -> (r: String)
    ensures
        r@ == lspci_vendor(lower@),
{
    if contains_chars(lower, &chars_of("nvidia")) {
        String::from_str("NVIDIA")
    } else if contains_chars(lower, &chars_of("amd")) || contains_chars(lower, &chars_of("ati")) {
        String::from_str("AMD")
    } else if contains_chars(lower, &chars_of("intel")) {
        String::from_str("Intel")
    } else {
        String::from_str("Unknown")
    }
}

/// One line of `lspci -v` applied to `g`; returns whether the line lies in a
/// display controller's block.
fn lspci_line(g: &mut GpuInfo, in_gpu: bool, line: &Vec<char>, lower: &Vec<char>) -> (r: bool)
    ensures
        (final(g)@, r) == lspci_step((old(g)@, in_gpu), line@, lower@),
{
    if contains_chars(line, &chars_of("VGA")) || contains_chars(line, &chars_of("3D"))
        || contains_chars(line, &chars_of("Display")) {
        let parts = splitn_chars(line, 3, ':');
        assert(views(parts@).len() == parts@.len());
        let name = if parts.len() > 2 {
            assert(views(parts@)[2] == parts@[2]@);
            trim_chars(&parts[2])
        } else {
            trim_chars(line)
        };
        let words = words_chars(line);
        assert(views(words@).len() == words@.len());
        let bus = if words.len() > 0 {
            assert(views(words@)[0] == words@[0]@);
            string_of(&words[0])
        } else {
            String::new()
        };
        g.name = string_of(&name);
        g.bus = bus;
        g.vendor = lspci_vendor_exec(lower);
        true
    } else if in_gpu && line.len() > 0 && (line[0] == '\t' || line[0] == ' ') {
        let t = trim_chars(line);
        let pat = chars_of("Kernel driver in use:");
        if starts_with_chars(&t, &pat) {
            let d = trim_chars(&remove_all_chars(&t, &pat));
            g.driver = string_of(&d);
        }
        true
    } else {
        false
    }
}

/// The adapter after the lines of `lspci -v` are read into `g`; `lowers` holds
/// each line lowercased.
pub fn apply_lspci_lines(g: GpuInfo, lines: &Vec<Vec<char>>, lowers: &Vec<Vec<char>>) -> (r:
    GpuInfo)
    requires
        lowers.len() == lines.len(),
    ensures
        r@ == lspci_run(g@, views(lines@), views(lowers@), lines.len() as nat).0,
{
    let ghost g0 = g@;
    let mut g = g;
    let mut in_gpu = false;
    let mut i: usize = 0;
    while i < lines.len()
        invariant
            i <= lines.len() == lowers.len(),
            (g@, in_gpu) == lspci_run(g0, views(lines@), views(lowers@), i as nat),
        decreases lines.len() - i,
    {
        assert(views(lines@)[i as int] == lines@[i as int]@);
        assert(views(lowers@)[i as int] == lowers@[i as int]@);
        in_gpu = lspci_line(&mut g, in_gpu, &lines[i], &lowers[i]);
        i = i + 1;
    }
    g
}

/// The adapter after the output of `lspci -v` is read into `g`: a display
/// controller's header line sets name, bus and vendor, and a `Kernel driver in use:`
/// line in its block sets the driver.
pub fn apply_lspci(g: GpuInfo, out: &[u8]) -> (r: GpuInfo)
    ensures
        r@ == lspci_run(
            g@,
            lines_of(spec_utf8_lossy(out@)),
            lowered(lines_of(spec_utf8_lossy(out@))),
            lines_of(spec_utf8_lossy(out@)).len(),
        ).0,
        crate::text::ascii_lowered(lines_of(spec_utf8_lossy(out@))),
{
    let lines = text_lines(out);
    let lowers = lower_lines(&lines);
    assert(views(lines@).len() == lines@.len());
    assert(views(lowers@).len() == lowers@.len());
    apply_lspci_lines(g, &lines, &lowers)
}

// ------------------------------------------------------------------ other probes

/// `mib` mebibytes in bytes, wrapping at 2^64 as the release build's `mib * 1024 * 1024` does.
pub open spec fn mib_bytes(mib: u64) -> u64 {
    ((mib as nat * 0x10_0000) % 0x1_0000_0000_0000_0000) as u64
}

/// `mib` mebibytes in bytes, wrapping at 2^64.
fn mib_bytes_exec(mib: u64) -> (r: u64)
    ensures
        r == mib_bytes(mib),
{
    (((mib as u128) * 0x10_0000) % 0x1_0000_0000_0000_0000) as u64
}

/// The adapter after the text of `mem_info_vram_total` is read: a number there
/// becomes the VRAM size.
pub open spec fn sysfs_vram_spec(g: GpuView, text: Seq<char>) -> GpuView {
    match parse_u64_spec(trim(text)) {
        Some(v) => GpuView { vram_bytes: Some(v), ..g },
        None => g,
    }
}

/// The adapter after the text of the `mem_info_vram_total` file is read into `g`.
pub fn apply_sysfs_vram(g: GpuInfo, text: &str) -> (r: GpuInfo)
    ensures
        r@ == sysfs_vram_spec(g@, text@),
{
    let mut g = g;
    let t = trim_chars(&chars_of(text));
    match parse_u64_chars(&t) {
        Some(v) => {
            g.vram_bytes = Some(v);
        },
        None => {},
    }
    g
}

/// `nvidia-smi` is worth asking: the vendor or the driver names NVIDIA.
pub open spec fn wants_nvidia_smi_spec(g: GpuView) -> bool {
    contains(g.vendor, "NVIDIA"@) || contains(g.driver, "nvidia"@)
}

/// Whether `nvidia-smi` is worth asking about `g`.
pub fn wants_nvidia_smi(g: &GpuInfo) -> (r: bool)
    ensures
        r == wants_nvidia_smi_spec(g@),
{
    str_contains(g.vendor.as_str(), "NVIDIA") || str_contains(g.driver.as_str(), "nvidia")
}

/// The adapter after the CSV line `name, driver, memory MiB, temperature` of
/// `nvidia-smi` is read: each field present replaces what `g` had, a memory
/// field that parses becomes the VRAM size, and the API becomes `"CUDA"`.
pub open spec fn nvidia_smi_spec(g: GpuView, text: Seq<char>) -> GpuView {
    let p = splitn_on(trim(text), 4, ',');
    GpuView {
        name: trim(p[0]),
        driver: if p.len() >= 2 {
            trim(p[1])
        } else {
            g.driver
        },
        vram_bytes: if p.len() >= 3 && parse_u64_spec(trim(p[2])) is Some {
            Some(mib_bytes(parse_u64_spec(trim(p[2]))->0))
        } else {
            g.vram_bytes
        },
        api: "CUDA"@,
        ..g
    }
}

/// The temperature field of the `nvidia-smi` line, trimmed, when there is one.
pub open spec fn nvidia_smi_temp_field(text: Seq<char>) -> Option<Seq<char>> {
    let p = splitn_on(trim(text), 4, ',');
    if p.len() >= 4 {
        Some(trim(p[3]))
    } else {
        None
    }
}

/// The adapter after the output of `nvidia-smi --query-gpu=name,driver_version,
/// memory.total,temperature.gpu --format=csv,noheader,nounits` is read into `g`,
/// and the temperature field as text (its decimal value is read by the caller).
pub fn apply_nvidia_smi(g: GpuInfo, out: &[u8]) -> (r: (GpuInfo, Option<String>))
    ensures
        r.0@ == nvidia_smi_spec(g@, spec_utf8_lossy(out@)),
        match r.1 {
            Some(t) => nvidia_smi_temp_field(spec_utf8_lossy(out@)) == Some(t@),
            None => nvidia_smi_temp_field(spec_utf8_lossy(out@)) is None,
        },
{
    let mut g = g;
    let text = crate::text::utf8_lossy(out);
    let t = trim_chars(&chars_of(text.as_str()));
    let p = splitn_chars(&t, 4, ',');
    proof {
        crate::text::lemma_splitn_nonempty(t@, 4, ',');
    }
    assert(views(p@).len() == p@.len());
    assert(views(p@)[0] == p@[0]@);
    g.name = string_of(&trim_chars(&p[0]));
    if p.len() >= 2 {
        assert(views(p@)[1] == p@[1]@);
        g.driver = string_of(&trim_chars(&p[1]));
    }
    if p.len() >= 3 {
        assert(views(p@)[2] == p@[2]@);
        match parse_u64_chars(&trim_chars(&p[2])) {
            Some(mb) => {
                g.vram_bytes = Some(mib_bytes_exec(mb));
            },
            None => {},
        }
    }
    let temp = if p.len() >= 4 {
        assert(views(p@)[3] == p@[3]@);
        Some(string_of(&trim_chars(&p[3])))
    } else {
        None
    };
    g.api = String::from_str("CUDA");
    (g, temp)
}

/// One line of `glxinfo -B`: the renderer line sets the renderer, and the version
/// line sets the API when none is known yet.
pub open spec fn glxinfo_step(g: GpuView, line: Seq<char>) -> GpuView {
    let g1 = if contains(line, "OpenGL renderer"@) {
        GpuView { renderer: trim(second_piece(line, ':')), ..g }
    } else {
        g
    };
    if contains(line, "OpenGL version"@) && g1.api.len() == 0 {
        GpuView { api: trim(second_piece(line, ':')), ..g1 }
    } else {
        g1
    }
}

/// The adapter after the first `n` lines of `glxinfo -B`.
pub open spec fn glxinfo_run(g: GpuView, lines: Seq<Seq<char>>, n: nat) -> GpuView
    decreases n,
{
    if n == 0 {
        g
    } else {
        glxinfo_step(glxinfo_run(g, lines, (n - 1) as nat), lines[n - 1])
    }
}

/// The adapter after the output of `glxinfo -B` is read into `g`.
pub fn apply_glxinfo(g: GpuInfo, out: &[u8]) -> (r: GpuInfo)
    ensures
        r@ == glxinfo_run(
            g@,
            lines_of(spec_utf8_lossy(out@)),
            lines_of(spec_utf8_lossy(out@)).len(),
        ),
{
    let lines = text_lines(out);
    assert(views(lines@).len() == lines@.len());
    let ghost g0 = g@;
    let mut g = g;
    let mut i: usize = 0;
    while i < lines.len()
        invariant
            i <= lines.len(),
            views(lines@).len() == lines@.len(),
            g@ == glxinfo_run(g0, views(lines@), i as nat),
        decreases lines.len() - i,
    {
        let line = &lines[i];
        assert(views(lines@)[i as int] == line@);
        if contains_chars(line, &chars_of("OpenGL renderer")) {
            g.renderer = string_of(&trim_chars(&second_piece_chars(line, ':')));
        }
        if contains_chars(line, &chars_of("OpenGL version")) && g.api.as_str().is_empty() {
            g.api = string_of(&trim_chars(&second_piece_chars(line, ':')));
        }
        i = i + 1;
    }
    g
}

/// One line of `system_profiler SPDisplaysDataType`, trimmed to `t`.
pub open spec fn profiler_step(g: GpuView, line: Seq<char>) -> GpuView {
    let t = trim(line);
    let g1 = if starts_with(t, "Chipset Model:"@) {
        GpuView { name: trim(after_first(t, ':')), ..g }
    } else {
        g
    };
    let g2 = if starts_with(t, "Type:"@) && g1.vendor.len() == 0 {
        GpuView { vendor: trim(after_first(t, ':')), ..g1 }
    } else {
        g1
    };
    let g3 = if starts_with(t, "VRAM"@) && split_has_second(t) {
        let num = first_word_or_zero(trim(second_piece(t, ':')));
        match parse_u64_spec(num) {
            Some(mb) => GpuView { vram_bytes: Some(mib_bytes(mb)), ..g2 },
            None => g2,
        }
    } else {
        g2
    };
    let g4 = if starts_with(t, "Metal:"@) {
        GpuView { api: "Metal "@ + trim(after_first(t, ':')), ..g3 }
    } else {
        g3
    };
    if starts_with(t, "Vendor:"@) {
        GpuView { vendor: trim(after_first(t, ':')), ..g4 }
    } else {
        g4
    }
}

/// `t` has a colon, so that `t.split(':')` has a second piece.
pub open spec fn split_has_second(t: Seq<char>) -> bool {
    crate::text::split_on(t, ':').len() > 1
}

/// The first word of `v`, or `"0"` when it has none.
pub open spec fn first_word_or_zero(v: Seq<char>) -> Seq<char> {
    let w = words_of(v);
    if w.len() > 0 {
        w[0]
    } else {
        "0"@
    }
}

/// The adapter after the first `n` lines of `system_profiler SPDisplaysDataType`.
pub open spec fn profiler_run(g: GpuView, lines: Seq<Seq<char>>, n: nat) -> GpuView
    decreases n,
{
    if n == 0 {
        g
    } else {
        profiler_step(profiler_run(g, lines, (n - 1) as nat), lines[n - 1])
    }
}

/// The adapter after the output of `system_profiler SPDisplaysDataType` is read into `g`.
pub fn apply_system_profiler(g: GpuInfo, out: &[u8]) -> (r: GpuInfo)
    ensures
        r@ == profiler_run(
            g@,
            lines_of(spec_utf8_lossy(out@)),
            lines_of(spec_utf8_lossy(out@)).len(),
        ),
{
    let lines = text_lines(out);
    assert(views(lines@).len() == lines@.len());
    let ghost g0 = g@;
    let mut g = g;
    let mut i: usize = 0;
    while i < lines.len()
        invariant
            i <= lines.len(),
            views(lines@).len() == lines@.len(),
            g@ == profiler_run(g0, views(lines@), i as nat),
        decreases lines.len() - i,
    {
        assert(views(lines@)[i as int] == lines@[i as int]@);
        let t = trim_chars(&lines[i]);
        if starts_with_chars(&t, &chars_of("Chipset Model:")) {
            g.name = string_of(&trim_chars(&after_first_chars(&t, ':')));
        }
        if starts_with_chars(&t, &chars_of("Type:")) && g.vendor.as_str().is_empty() {
            g.vendor = string_of(&trim_chars(&after_first_chars(&t, ':')));
        }
        if starts_with_chars(&t, &chars_of("VRAM")) {
            let pieces = crate::text::split_chars(&t, ':');
            assert(views(pieces@).len() == pieces@.len());
            if pieces.len() > 1 {
                assert(views(pieces@)[1] == pieces@[1]@);
                let v = trim_chars(&pieces[1]);
                let w = words_chars(&v);
                assert(views(w@).len() == w@.len());
                let num = if w.len() > 0 {
                    assert(views(w@)[0] == w@[0]@);
                    assert(w@[0]@.subrange(0, w@[0]@.len() as int) =~= w@[0]@);
                    crate::text::sub_vec(&w[0], 0, w[0].len())
                } else {
                    chars_of("0")
                };
                match parse_u64_chars(&num) {
                    Some(mb) => {
                        g.vram_bytes = Some(mib_bytes_exec(mb));
                    },
                    None => {},
                }
            }
        }
        if starts_with_chars(&t, &chars_of("Metal:")) {
            let mut api = String::from_str("Metal ");
            crate::fmt::push_chars(&mut api, &trim_chars(&after_first_chars(&t, ':')));
            g.api = api;
        }
        if starts_with_chars(&t, &chars_of("Vendor:")) {
            g.vendor = string_of(&trim_chars(&after_first_chars(&t, ':')));
        }
        i = i + 1;
    }
    g
}

/// One line of `wmic path win32_VideoController get ... /value`, trimmed to `l`:
/// each `Key=value` line of interest sets its field to the text after the `=`.
pub open spec fn wmic_step(g: GpuView, line: Seq<char>) -> GpuView {
    let l = trim(line);
    let g1 = if starts_with(l, "Name="@) {
        GpuView { name: l.skip(5), ..g }
    } else {
        g
    };
    let g2 = if starts_with(l, "DriverVersion="@) {
        GpuView { driver: l.skip(14), ..g1 }
    } else {
        g1
    };
    let g3 = if starts_with(l, "AdapterRAM="@) && parse_u64_spec(l.skip(11)) is Some {
        GpuView { vram_bytes: Some(parse_u64_spec(l.skip(11))->0), ..g2 }
    } else {
        g2
    };
    if starts_with(l, "VideoProcessor="@) {
        GpuView { renderer: l.skip(15), ..g3 }
    } else {
        g3
    }
}

/// The adapter after the first `n` lines of the `wmic` output.
pub open spec fn wmic_run(g: GpuView, lines: Seq<Seq<char>>, n: nat) -> GpuView
    decreases n,
{
    if n == 0 {
        g
    } else {
        wmic_step(wmic_run(g, lines, (n - 1) as nat), lines[n - 1])
    }
}

/// The vendor named by a lowercased adapter name from `wmic`.
pub open spec fn wmic_vendor(lower_name: Seq<char>) -> Seq<char> {
    if contains(lower_name, "nvidia"@) {
        "NVIDIA"@
    } else if contains(lower_name, "amd"@) {
        "AMD"@
    } else if contains(lower_name, "intel"@) {
        "Intel"@
    } else {
        "Unknown"@
    }
}

/// `g` with the vendor named by its lowercased name `lower_name` and the API `"DirectX"`.
pub open spec fn wmic_finish_spec(g: GpuView, lower_name: Seq<char>) -> GpuView {
    GpuView { vendor: wmic_vendor(lower_name), api: "DirectX"@, ..g }
}

/// The text after a `Key=` prefix of `k` characters.
fn value_after(l: &Vec<char>, k: usize) -> (r: String)
    requires
        k <= l.len(),
    ensures
        r@ == l@.skip(k as int),
{
    assert(l@.subrange(k as int, l.len() as int) =~= l@.skip(k as int));
    crate::text::string_of_range(l, k, l.len())
}

/// The adapter after the `Key=value` lines of the `wmic` output are read into `g`.
pub fn apply_wmic_lines(g: GpuInfo, lines: &Vec<Vec<char>>) -> (r: GpuInfo)
    ensures
        r@ == wmic_run(g@, views(lines@), lines.len() as nat),
{
    assert(views(lines@).len() == lines@.len());
    let ghost g0 = g@;
    let mut g = g;
    let mut i: usize = 0;
    while i < lines.len()
        invariant
            i <= lines.len(),
            views(lines@).len() == lines@.len(),
            g@ == wmic_run(g0, views(lines@), i as nat),
        decreases lines.len() - i,
    {
        assert(views(lines@)[i as int] == lines@[i as int]@);
        let l = trim_chars(&lines[i]);
        proof {
            reveal_strlit("Name=");
            reveal_strlit("DriverVersion=");
            reveal_strlit("AdapterRAM=");
            reveal_strlit("VideoProcessor=");
        }
        if starts_with_chars(&l, &chars_of("Name=")) {
            g.name = value_after(&l, 5);
        }
        if starts_with_chars(&l, &chars_of("DriverVersion=")) {
            g.driver = value_after(&l, 14);
        }
        if starts_with_chars(&l, &chars_of("AdapterRAM=")) {
            assert(l@.subrange(11, l@.len() as int) =~= l@.skip(11));
            match parse_u64_chars(&crate::text::sub_vec(&l, 11, l.len())) {
                Some(b) => {
                    g.vram_bytes = Some(b);
                },
                None => {},
            }
        }
        if starts_with_chars(&l, &chars_of("VideoProcessor=")) {
            g.renderer = value_after(&l, 15);
        }
        i = i + 1;
    }
    g
}

/// `g` with the vendor named by its lowercased name and the API `"DirectX"`.
pub fn wmic_finish(g: GpuInfo, lower_name: &str) -> (r: GpuInfo)
    ensures
        r@ == wmic_finish_spec(g@, lower_name@),
{
    let mut g = g;
    g.vendor = if str_contains(lower_name, "nvidia") {
        String::from_str("NVIDIA")
    } else if str_contains(lower_name, "amd") {
        String::from_str("AMD")
    } else if str_contains(lower_name, "intel") {
        String::from_str("Intel")
    } else {
        String::from_str("Unknown")
    };
    g.api = String::from_str("DirectX");
    g
}

/// The adapter after the output of `wmic path win32_VideoController get
/// Name,DriverVersion,AdapterRAM,VideoProcessor /value` is read into `g`: the
/// `Key=value` fields, then the vendor from the lowercased name and the API `"DirectX"`.
pub fn apply_wmic(g: GpuInfo, out: &[u8]) -> (r: GpuInfo)
    ensures
        ({
            let read = wmic_run(
                g@,
                lines_of(spec_utf8_lossy(out@)),
                lines_of(spec_utf8_lossy(out@)).len(),
            );
            &&& r@ == wmic_finish_spec(read, spec_lowercase(read.name))
            &&& vstd::utf8::is_ascii_chars(read.name) ==> spec_lowercase(read.name)
                == crate::text::ascii_lower(read.name)
        }),
{
    let lines = text_lines(out);
    assert(views(lines@).len() == lines@.len());
    let g = apply_wmic_lines(g, &lines);
    let lower = crate::text::lowercase(g.name.as_str());
    wmic_finish(g, lower.as_str())
}

/// `g`, named `"Unknown GPU"` when no probe gave it a name.
pub open spec fn finish_gpu_spec(g: GpuView) -> GpuView {
    if g.name.len() == 0 {
        GpuView { name: "Unknown GPU"@, ..g }
    } else {
        g
    }
}

/// `g`, named `"Unknown GPU"` when no probe gave it a name.
pub fn finish_gpu(g: GpuInfo) -> (r: GpuInfo)
    ensures
        r@ == finish_gpu_spec(g@),
{
    let mut g = g;
    if g.name.as_str().is_empty() {
        g.name = String::from_str("Unknown GPU");
    }
    g
}

// ------------------------------------------------------------------ laws

/// The table lists capability `name` with the description `desc`.
pub open spec fn lists_capability(table: Seq<(Seq<char>, Seq<char>)>, name: Seq<char>, desc: Seq<char>) -> bool {
    exists|i: int| 0 <= i < table.len() && #[trigger] table[i] == (name, desc)
}

/// No capability is named twice in the table, so each name has one description.
pub open spec fn names_unique(table: Seq<(Seq<char>, Seq<char>)>) -> bool {
    forall|i: int, j: int|
        0 <= i < table.len() && 0 <= j < table.len() && i != j ==> (#[trigger] table[i]).0 != (#[trigger] table[j]).0
}

/// Law: the capability table for an NVIDIA adapter has 10 entries, names each
/// capability once, and pairs each capability with its own description.
pub proof fn lemma_nvidia_capability_table(v: Seq<char>)
    requires
        contains(v, "nvidia"@),
    ensures
        ({
            let t = gpu_capabilities_spec(v);
            &&& t.len() == 10
            &&& names_unique(t)
            &&& lists_capability(t, "CUDA"@, "Supported (driver required)"@)
            &&& lists_capability(t, "OpenCL"@, "Supported"@)
            &&& lists_capability(t, "Vulkan"@, "Supported"@)
            &&& lists_capability(t, "OpenGL"@, "Supported"@)
            &&& lists_capability(t, "DirectX"@, "12 / DX12 Ultimate (Windows)"@)
            &&& lists_capability(t, "NVENC"@, "Hardware video encoding"@)
            &&& lists_capability(t, "NVDEC"@, "Hardware video decoding"@)
            &&& lists_capability(t, "DLSS"@, "AI upscaling (Turing+)"@)
            &&& lists_capability(t, "RTX"@, "Ray tracing (Turing+)"@)
            &&& lists_capability(t, "NvLink"@, "Multi-GPU bridge"@)
        }),
{
    reveal_strlit("12 / DX12 Ultimate (Windows)");
    reveal_strlit("AI upscaling (Turing+)");
    reveal_strlit("CUDA");
    reveal_strlit("DLSS");
    reveal_strlit("DirectX");
    reveal_strlit("Hardware video decoding");
    reveal_strlit("Hardware video encoding");
    reveal_strlit("Multi-GPU bridge");
    reveal_strlit("NVDEC");
    reveal_strlit("NVENC");
    reveal_strlit("NvLink");
    reveal_strlit("OpenCL");
    reveal_strlit("OpenGL");
    reveal_strlit("RTX");
    reveal_strlit("Ray tracing (Turing+)");
    reveal_strlit("Supported");
    reveal_strlit("Supported (driver required)");
    reveal_strlit("Vulkan");
    let t = gpu_capabilities_spec(v);
    assert(t[0] == ("CUDA"@, "Supported (driver required)"@));
    assert(t[1] == ("OpenCL"@, "Supported"@));
    assert(t[2] == ("Vulkan"@, "Supported"@));
    assert(t[3] == ("OpenGL"@, "Supported"@));
    assert(t[4] == ("DirectX"@, "12 / DX12 Ultimate (Windows)"@));
    assert(t[5] == ("NVENC"@, "Hardware video encoding"@));
    assert(t[6] == ("NVDEC"@, "Hardware video decoding"@));
    assert(t[7] == ("DLSS"@, "AI upscaling (Turing+)"@));
    assert(t[8] == ("RTX"@, "Ray tracing (Turing+)"@));
    assert(t[9] == ("NvLink"@, "Multi-GPU bridge"@));
    assert forall|i: int, j: int|
        0 <= i < t.len() && 0 <= j < t.len() && i != j implies (#[trigger] t[i]).0 != (#[trigger] t[j]).0 by {
        if t[i].0 == t[j].0 {
            assert(t[i].0.len() == t[j].0.len());
            assert(t[i].0[0] == t[j].0[0]);
            assert(t[i].0[1] == t[j].0[1]);
            assert(t[i].0[2] == t[j].0[2]);
            assert(t[i].0[3] == t[j].0[3]);
            assert(t[i].0[4] == t[j].0[4]);
            assert(t[i].0[t[i].0.len() - 1] == t[j].0[t[j].0.len() - 1]);
        }
    }
}

/// Law: the capability table for an AMD adapter has 10 entries, names each
/// capability once, and pairs each capability with its own description.
pub proof fn lemma_amd_capability_table(v: Seq<char>)
    requires
        !contains(v, "nvidia"@) && (contains(v, "amd"@) || contains(v, "ati"@)),
    ensures
        ({
            let t = gpu_capabilities_spec(v);
            &&& t.len() == 10
            &&& names_unique(t)
            &&& lists_capability(t, "OpenCL"@, "Supported"@)
            &&& lists_capability(t, "Vulkan"@, "Supported"@)
            &&& lists_capability(t, "OpenGL"@, "Supported"@)
            &&& lists_capability(t, "DirectX"@, "12 / DX12 Ultimate (Windows)"@)
            &&& lists_capability(t, "ROCm"@, "Linux compute platform"@)
            &&& lists_capability(t, "AMF"@, "Hardware video encoding"@)
            &&& lists_capability(t, "FidelityFX"@, "FSR upscaling"@)
            &&& lists_capability(t, "Ray Tracing"@, "RDNA2+ supported"@)
            &&& lists_capability(t, "Infinity Cache"@, "RDNA2+ last-level cache"@)
            &&& lists_capability(t, "Smart Access Memory"@, "Supported (with Ryzen)"@)
        }),
{
    reveal_strlit("12 / DX12 Ultimate (Windows)");
    reveal_strlit("AMF");
    reveal_strlit("DirectX");
    reveal_strlit("FSR upscaling");
    reveal_strlit("FidelityFX");
    reveal_strlit("Hardware video encoding");
    reveal_strlit("Infinity Cache");
    reveal_strlit("Linux compute platform");
    reveal_strlit("OpenCL");
    reveal_strlit("OpenGL");
    reveal_strlit("RDNA2+ last-level cache");
    reveal_strlit("RDNA2+ supported");
    reveal_strlit("ROCm");
    reveal_strlit("Ray Tracing");
    reveal_strlit("Smart Access Memory");
    reveal_strlit("Supported");
    reveal_strlit("Supported (with Ryzen)");
    reveal_strlit("Vulkan");
    let t = gpu_capabilities_spec(v);
    assert(t[0] == ("OpenCL"@, "Supported"@));
    assert(t[1] == ("Vulkan"@, "Supported"@));
    assert(t[2] == ("OpenGL"@, "Supported"@));
    assert(t[3] == ("DirectX"@, "12 / DX12 Ultimate (Windows)"@));
    assert(t[4] == ("ROCm"@, "Linux compute platform"@));
    assert(t[5] == ("AMF"@, "Hardware video encoding"@));
    assert(t[6] == ("FidelityFX"@, "FSR upscaling"@));
    assert(t[7] == ("Ray Tracing"@, "RDNA2+ supported"@));
    assert(t[8] == ("Infinity Cache"@, "RDNA2+ last-level cache"@));
    assert(t[9] == ("Smart Access Memory"@, "Supported (with Ryzen)"@));
    assert forall|i: int, j: int|
        0 <= i < t.len() && 0 <= j < t.len() && i != j implies (#[trigger] t[i]).0 != (#[trigger] t[j]).0 by {
        if t[i].0 == t[j].0 {
            assert(t[i].0.len() == t[j].0.len());
            assert(t[i].0[0] == t[j].0[0]);
            assert(t[i].0[1] == t[j].0[1]);
            assert(t[i].0[2] == t[j].0[2]);
            assert(t[i].0[3] == t[j].0[3]);
            assert(t[i].0[4] == t[j].0[4]);
            assert(t[i].0[t[i].0.len() - 1] == t[j].0[t[j].0.len() - 1]);
        }
    }
}

/// Law: the capability table for an Intel adapter has 8 entries, names each
/// capability once, and pairs each capability with its own description.
pub proof fn lemma_intel_capability_table(v: Seq<char>)
    requires
        !contains(v, "nvidia"@) && !contains(v, "amd"@) && !contains(v, "ati"@) && contains(v, "intel"@),
    ensures
        ({
            let t = gpu_capabilities_spec(v);
            &&& t.len() == 8
            &&& names_unique(t)
            &&& lists_capability(t, "OpenCL"@, "Supported"@)
            &&& lists_capability(t, "Vulkan"@, "Supported"@)
            &&& lists_capability(t, "OpenGL"@, "Supported"@)
            &&& lists_capability(t, "DirectX"@, "12 (Xe+)"@)
            &&& lists_capability(t, "QuickSync"@, "Hardware video encode/decode"@)
            &&& lists_capability(t, "XMX"@, "Xe Matrix Extension (Arc)"@)
            &&& lists_capability(t, "XeSS"@, "AI upscaling (Arc)"@)
            &&& lists_capability(t, "Ray Tracing"@, "Arc Alchemist supported"@)
        }),
{
    reveal_strlit("12 (Xe+)");
    reveal_strlit("AI upscaling (Arc)");
    reveal_strlit("Arc Alchemist supported");
    reveal_strlit("DirectX");
    reveal_strlit("Hardware video encode/decode");
    reveal_strlit("OpenCL");
    reveal_strlit("OpenGL");
    reveal_strlit("QuickSync");
    reveal_strlit("Ray Tracing");
    reveal_strlit("Supported");
    reveal_strlit("Vulkan");
    reveal_strlit("XMX");
    reveal_strlit("Xe Matrix Extension (Arc)");
    reveal_strlit("XeSS");
    let t = gpu_capabilities_spec(v);
    assert(t[0] == ("OpenCL"@, "Supported"@));
    assert(t[1] == ("Vulkan"@, "Supported"@));
    assert(t[2] == ("OpenGL"@, "Supported"@));
    assert(t[3] == ("DirectX"@, "12 (Xe+)"@));
    assert(t[4] == ("QuickSync"@, "Hardware video encode/decode"@));
    assert(t[5] == ("XMX"@, "Xe Matrix Extension (Arc)"@));
    assert(t[6] == ("XeSS"@, "AI upscaling (Arc)"@));
    assert(t[7] == ("Ray Tracing"@, "Arc Alchemist supported"@));
    assert forall|i: int, j: int|
        0 <= i < t.len() && 0 <= j < t.len() && i != j implies (#[trigger] t[i]).0 != (#[trigger] t[j]).0 by {
        if t[i].0 == t[j].0 {
            assert(t[i].0.len() == t[j].0.len());
            assert(t[i].0[0] == t[j].0[0]);
            assert(t[i].0[1] == t[j].0[1]);
            assert(t[i].0[2] == t[j].0[2]);
            assert(t[i].0[3] == t[j].0[3]);
            assert(t[i].0[4] == t[j].0[4]);
            assert(t[i].0[t[i].0.len() - 1] == t[j].0[t[j].0.len() - 1]);
        }
    }
}

/// Law: the capability table for any other adapter has 3 entries, names each
/// capability once, and pairs each capability with its own description.
pub proof fn lemma_unknown_capability_table(v: Seq<char>)
    requires
        !contains(v, "nvidia"@) && !contains(v, "amd"@) && !contains(v, "ati"@) && !contains(v, "intel"@),
    ensures
        ({
            let t = gpu_capabilities_spec(v);
            &&& t.len() == 3
            &&& names_unique(t)
            &&& lists_capability(t, "OpenCL"@, "Unknown"@)
            &&& lists_capability(t, "Vulkan"@, "Unknown"@)
            &&& lists_capability(t, "OpenGL"@, "Unknown"@)
        }),
{
    reveal_strlit("OpenCL");
    reveal_strlit("OpenGL");
    reveal_strlit("Unknown");
    reveal_strlit("Vulkan");
    let t = gpu_capabilities_spec(v);
    assert(t[0] == ("OpenCL"@, "Unknown"@));
    assert(t[1] == ("Vulkan"@, "Unknown"@));
    assert(t[2] == ("OpenGL"@, "Unknown"@));
    assert forall|i: int, j: int|
        0 <= i < t.len() && 0 <= j < t.len() && i != j implies (#[trigger] t[i]).0 != (#[trigger] t[j]).0 by {
        if t[i].0 == t[j].0 {
            assert(t[i].0.len() == t[j].0.len());
            assert(t[i].0[0] == t[j].0[0]);
            assert(t[i].0[1] == t[j].0[1]);
            assert(t[i].0[2] == t[j].0[2]);
            assert(t[i].0[3] == t[j].0[3]);
            assert(t[i].0[4] == t[j].0[4]);
            assert(t[i].0[t[i].0.len() - 1] == t[j].0[t[j].0.len() - 1]);
        }
    }
}

/// Law: the `wmic` reading names the vendor by the lowercased adapter name: NVIDIA
/// when it mentions "nvidia"; otherwise AMD when it mentions "amd"; otherwise Intel
/// when it mentions "intel"; otherwise Unknown. The API becomes DirectX, and the
/// other fields stay as read.
pub proof fn lemma_wmic_vendor(g: GpuView, lower_name: Seq<char>)
    ensures
        ({
            let r = wmic_finish_spec(g, lower_name);
            &&& contains(lower_name, "nvidia"@) ==> r.vendor == "NVIDIA"@
            &&& !contains(lower_name, "nvidia"@) && contains(lower_name, "amd"@) ==> r.vendor == "AMD"@
            &&& !contains(lower_name, "nvidia"@) && !contains(lower_name, "amd"@) && contains(
                lower_name,
                "intel"@,
            ) ==> r.vendor == "Intel"@
            &&& !contains(lower_name, "nvidia"@) && !contains(lower_name, "amd"@) && !contains(
                lower_name,
                "intel"@,
            ) ==> r.vendor == "Unknown"@
            &&& r.api == "DirectX"@
            &&& r.name == g.name && r.driver == g.driver && r.vram_bytes == g.vram_bytes
            &&& r.renderer == g.renderer && r.bus == g.bus
        }),
{
}


/// Law: once detection is finished the adapter always has a name.
pub proof fn lemma_finished_gpu_named(g: GpuView)
    ensures
        finish_gpu_spec(g).name.len() > 0,
{
    reveal_strlit("Unknown GPU");
}

/// Law: an `lspci` header line that names NVIDIA makes the adapter one that
/// `nvidia-smi` is asked about.
pub proof fn lemma_lspci_nvidia_asks_smi(st: (GpuView, bool), line: Seq<char>, lower: Seq<char>)
    requires
        is_gpu_header(line),
        contains(lower, "nvidia"@),
    ensures
        wants_nvidia_smi_spec(lspci_step(st, line, lower).0),
{
    let v: Seq<char> = "NVIDIA"@;
    assert(v.subrange(0, v.len() as int) =~= v);
    assert(crate::text::occurs_at(v, v, 0));
}

} // verus!
