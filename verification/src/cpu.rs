//! Processor facts derived from the vendor and architecture strings.
use vstd::prelude::*;
use vstd::string::StringExecFns;
use crate::text::{
    ascii_lower, ascii_upper, contains, lemma_ascii_case, lowercase, spec_lowercase, str_contains,
    string_views,
};
use vstd::utf8::is_ascii_chars;

verus! {

/// Extensions every x86 processor is listed with, before AVX.
pub open spec fn x86_base_extensions() -> Seq<Seq<char>> {
    seq![
        "MMX"@, "SSE"@, "SSE2"@, "SSE3"@, "SSSE3"@, "SSE4.1"@, "SSE4.2"@, "AES-NI"@,
        "PCLMUL"@, "RDRAND"@, "RDSEED"@, "AVX"@, "AVX2"@,
    ]
}

/// Extensions listed for AMD x86 processors.
pub open spec fn x86_amd_extensions() -> Seq<Seq<char>> {
    seq!["AVX-512F"@, "FMA3"@, "BMI1"@, "BMI2"@, "SHA"@, "AMD-V (SVM)"@, "CLZERO"@, "MWAITX"@]
}

/// Extensions listed for Intel x86 processors.
pub open spec fn x86_intel_extensions() -> Seq<Seq<char>> {
    seq!["FMA3"@, "BMI1"@, "BMI2"@, "CLMUL"@, "VT-x"@, "TSX"@, "SGX"@, "MPX"@]
}

/// Extensions every x86 processor is listed with last.
pub open spec fn x86_tail_extensions() -> Seq<Seq<char>> {
    seq!["POPCNT"@, "LZCNT"@, "MOVBE"@, "XSAVE"@, "FSGSBASE"@]
}

/// Extensions listed for ARM processors.
pub open spec fn arm_extensions() -> Seq<Seq<char>> {
    seq!["NEON"@, "CRC32"@, "AES"@, "SHA1"@, "SHA2"@, "SHA3"@, "PMULL"@, "DOTPROD"@, "SVE"@, "SVE2"@]
}

/// The architecture names an x86 processor.
pub open spec fn is_x86_arch(a: Seq<char>) -> bool {
    contains(a, "x86"@) || contains(a, "amd64"@) || contains(a, "i686"@)
}

/// The architecture names an ARM processor.
pub open spec fn is_arm_arch(a: Seq<char>) -> bool {
    contains(a, "aarch64"@) || contains(a, "arm"@)
}

/// The instruction-set extensions listed for a lowercased vendor `v` and a
/// lowercased architecture `a`.
pub open spec fn cpu_extensions_spec(v: Seq<char>, a: Seq<char>) -> Seq<Seq<char>> {
    if is_x86_arch(a) {
        x86_base_extensions() + (if contains(v, "amd"@) || contains(v, "authentic"@) {
            x86_amd_extensions()
        } else if contains(v, "intel"@) || contains(v, "genuine"@) {
            x86_intel_extensions()
        } else {
            Seq::empty()
        }) + x86_tail_extensions()
    } else if is_arm_arch(a) {
        arm_extensions() + (if contains(v, "apple"@) {
            seq!["AMX (Apple Matrix Extension)"@]
        } else {
            Seq::empty()
        })
    } else {
        Seq::empty()
    }
}

/// Appends an owned copy of each of `items` to `out`.
fn push_all(out: &mut Vec<String>, items: Vec<&str>)
    ensures
        string_views(final(out)@) == string_views(old(out)@) + items@.map_values(|s: &str| s@),
{
    let ghost start = string_views(out@);
    let mut i: usize = 0;
    while i < items.len()
        invariant
            i <= items.len(),
            string_views(out@) == start + items@.map_values(|s: &str| s@).take(i as int),
        decreases items.len() - i,
    {
        let s = String::from_str(items[i]);
        let ghost before = out@;
        out.push(s);
        assert(string_views(out@) =~= string_views(before).push(items@[i as int]@));
        assert(items@.map_values(|s: &str| s@).take(i + 1) =~= items@.map_values(|s: &str| s@).take(
            i as int,
        ).push(items@[i as int]@));
        assert(string_views(out@) =~= start + items@.map_values(|s: &str| s@).take(i + 1));
        i = i + 1;
    }
    assert(items@.map_values(|s: &str| s@).take(items.len() as int) =~= items@.map_values(
        |s: &str| s@,
    ));
}

/// The instruction-set extensions listed for an already lowercased vendor and
/// architecture.
pub fn cpu_extensions_lc(v: &str, a: &str) -> (r: Vec<String>)
    ensures
        string_views(r@) == cpu_extensions_spec(v@, a@),
{
    let mut e: Vec<String> = Vec::new();
    assert(string_views(e@) =~= Seq::empty());
    if str_contains(a, "x86") || str_contains(a, "amd64") || str_contains(a, "i686") {
        push_all(
            &mut e,
            vec![
                "MMX", "SSE", "SSE2", "SSE3", "SSSE3", "SSE4.1", "SSE4.2", "AES-NI", "PCLMUL",
                "RDRAND", "RDSEED", "AVX", "AVX2",
            ],
        );
        assert(string_views(e@) =~= x86_base_extensions());
        let ghost base = string_views(e@);
        if str_contains(v, "amd") || str_contains(v, "authentic") {
            push_all(
                &mut e,
                vec!["AVX-512F", "FMA3", "BMI1", "BMI2", "SHA", "AMD-V (SVM)", "CLZERO", "MWAITX"],
            );
            assert(string_views(e@) =~= base + x86_amd_extensions());
        } else if str_contains(v, "intel") || str_contains(v, "genuine") {
            push_all(&mut e, vec!["FMA3", "BMI1", "BMI2", "CLMUL", "VT-x", "TSX", "SGX", "MPX"]);
            assert(string_views(e@) =~= base + x86_intel_extensions());
        } else {
            assert(string_views(e@) =~= base + Seq::<Seq<char>>::empty());
        }
        let ghost mid = string_views(e@);
        push_all(&mut e, vec!["POPCNT", "LZCNT", "MOVBE", "XSAVE", "FSGSBASE"]);
        assert(string_views(e@) =~= mid + x86_tail_extensions());
    } else if str_contains(a, "aarch64") || str_contains(a, "arm") {
        push_all(
            &mut e,
            vec!["NEON", "CRC32", "AES", "SHA1", "SHA2", "SHA3", "PMULL", "DOTPROD", "SVE", "SVE2"],
        );
        assert(string_views(e@) =~= arm_extensions());
        let ghost base = string_views(e@);
        if str_contains(v, "apple") {
            push_all(&mut e, vec!["AMX (Apple Matrix Extension)"]);
            assert(string_views(e@) =~= base + seq!["AMX (Apple Matrix Extension)"@]);
        } else {
            assert(string_views(e@) =~= base + Seq::<Seq<char>>::empty());
        }
    }
    e
}

/// The instruction-set extensions listed for a processor: the x86 or ARM lists,
/// chosen by the lowercased architecture and completed by the lowercased vendor.
pub fn cpu_extensions(vendor: &str, arch: &str) -> (r: Vec<String>)
    ensures
        string_views(r@) == cpu_extensions_spec(spec_lowercase(vendor@), spec_lowercase(arch@)),
        is_ascii_chars(vendor@) && is_ascii_chars(arch@) ==> string_views(r@)
            == cpu_extensions_spec(ascii_lower(vendor@), ascii_lower(arch@)),
{
    let v = lowercase(vendor);
    let a = lowercase(arch);
    cpu_extensions_lc(v.as_str(), a.as_str())
}


/// Law: for ASCII vendor and architecture names the case never matters: the
/// extensions listed for the vendor uppercased and the architecture lowercased are
/// those listed for the names as given (both are ASCII again, so `cpu_extensions`
/// lists `cpu_extensions_spec` of their ASCII lowercase).
pub proof fn lemma_cpu_extensions_case_free(v: Seq<char>, a: Seq<char>)
    requires
        is_ascii_chars(v),
        is_ascii_chars(a),
    ensures
        is_ascii_chars(ascii_upper(v)),
        is_ascii_chars(ascii_lower(a)),
        cpu_extensions_spec(ascii_lower(ascii_upper(v)), ascii_lower(ascii_lower(a)))
            == cpu_extensions_spec(ascii_lower(v), ascii_lower(a)),
{
    lemma_ascii_case(v);
    lemma_ascii_case(a);
}

/// Law: no extension is listed twice, whatever the vendor and architecture.
pub proof fn lemma_cpu_extensions_distinct(v: Seq<char>, a: Seq<char>)
    ensures
        cpu_extensions_spec(v, a).no_duplicates(),
{
    reveal_strlit("MMX");
    reveal_strlit("SSE");
    reveal_strlit("SSE2");
    reveal_strlit("SSE3");
    reveal_strlit("SSSE3");
    reveal_strlit("SSE4.1");
    reveal_strlit("SSE4.2");
    reveal_strlit("AES-NI");
    reveal_strlit("PCLMUL");
    reveal_strlit("RDRAND");
    reveal_strlit("RDSEED");
    reveal_strlit("AVX");
    reveal_strlit("AVX2");
    reveal_strlit("AVX-512F");
    reveal_strlit("FMA3");
    reveal_strlit("BMI1");
    reveal_strlit("BMI2");
    reveal_strlit("SHA");
    reveal_strlit("AMD-V (SVM)");
    reveal_strlit("CLZERO");
    reveal_strlit("MWAITX");
    reveal_strlit("CLMUL");
    reveal_strlit("VT-x");
    reveal_strlit("TSX");
    reveal_strlit("SGX");
    reveal_strlit("MPX");
    reveal_strlit("POPCNT");
    reveal_strlit("LZCNT");
    reveal_strlit("MOVBE");
    reveal_strlit("XSAVE");
    reveal_strlit("FSGSBASE");
    reveal_strlit("NEON");
    reveal_strlit("CRC32");
    reveal_strlit("AES");
    reveal_strlit("SHA1");
    reveal_strlit("SHA2");
    reveal_strlit("SHA3");
    reveal_strlit("PMULL");
    reveal_strlit("DOTPROD");
    reveal_strlit("SVE");
    reveal_strlit("SVE2");
    reveal_strlit("AMX (Apple Matrix Extension)");
    let s = cpu_extensions_spec(v, a);
    assert forall|i: int, j: int| 0 <= i < s.len() && 0 <= j < s.len() && i != j implies s[i]
        != s[j] by {
        if s[i] == s[j] {
            assert(s[i].len() == s[j].len());
            assert(s[i][0] == s[j][0]);
            assert(s[i][1] == s[j][1]);
            assert(s[i][2] == s[j][2]);
            assert(s[i][s[i].len() - 1] == s[j][s[j].len() - 1]);
        }
    }
}

/// Columns of the per-core usage grid for `cores` cores.
pub fn core_grid_columns(cores: usize) -> (r: usize)
    ensures
        r == if cores > 8 {
            4usize
        } else if cores > 4 {
            3usize
        } else {
            2usize
        },
{
    if cores > 8 {
        4
    } else if cores > 4 {
        3
    } else {
        2
    }
}

/// Whether simultaneous multithreading shows: more logical than physical cores.
pub fn hyperthreading_label(logical: usize, physical: usize) -> (r: &'static str)
    ensures
        r@ == if logical > physical {
            "Enabled"@
        } else {
            "Disabled / N/A"@
        },
{
    if logical > physical {
        "Enabled"
    } else {
        "Disabled / N/A"
    }
}

} // verus!
