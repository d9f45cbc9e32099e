use specs_ultra::cpu::{core_grid_columns, cpu_extensions, cpu_extensions_lc, hyperthreading_label};

fn reference_extensions(vendor: &str, arch: &str) -> Vec<String> {
    let v = vendor.to_lowercase();
    let a = arch.to_lowercase();
    let mut e: Vec<String> = vec![];
    if a.contains("x86") || a.contains("amd64") || a.contains("i686") {
        e.extend(["MMX", "SSE", "SSE2", "SSE3", "SSSE3", "SSE4.1", "SSE4.2", "AES-NI", "PCLMUL", "RDRAND", "RDSEED"].map(String::from));
        e.push("AVX".into());
        e.push("AVX2".into());
        if v.contains("amd") || v.contains("authentic") {
            e.extend(["AVX-512F", "FMA3", "BMI1", "BMI2", "SHA", "AMD-V (SVM)", "CLZERO", "MWAITX"].map(String::from));
        } else if v.contains("intel") || v.contains("genuine") {
            e.extend(["FMA3", "BMI1", "BMI2", "CLMUL", "VT-x", "TSX", "SGX", "MPX"].map(String::from));
        }
        e.extend(["POPCNT", "LZCNT", "MOVBE", "XSAVE", "FSGSBASE"].map(String::from));
    } else if a.contains("aarch64") || a.contains("arm") {
        e.extend(["NEON", "CRC32", "AES", "SHA1", "SHA2", "SHA3", "PMULL", "DOTPROD", "SVE", "SVE2"].map(String::from));
        if v.contains("apple") {
            e.push("AMX (Apple Matrix Extension)".into());
        }
    }
    e
}

#[test]
fn intel_x86_extensions() {
    let e = cpu_extensions("GenuineIntel", "x86_64");
    assert_eq!(e.len(), 26);
    assert_eq!(e[0], "MMX");
    assert_eq!(e[13], "FMA3");
    assert_eq!(e[25], "FSGSBASE");
    assert!(e.contains(&"SGX".to_string()));
}

#[test]
fn amd_x86_extensions() {
    let e = cpu_extensions("AuthenticAMD", "x86_64");
    assert_eq!(e[13], "AVX-512F");
    assert_eq!(e.len(), 26);
}

#[test]
fn apple_arm_extensions() {
    let e = cpu_extensions("Apple", "aarch64");
    assert_eq!(e.len(), 11);
    assert_eq!(e[10], "AMX (Apple Matrix Extension)");
}

#[test]
fn unknown_arch_has_no_extensions() {
    assert!(cpu_extensions("GenuineIntel", "riscv64").is_empty());
    assert!(cpu_extensions_lc("", "").is_empty());
}

#[test]
fn extensions_agree_with_reference() {
    let vendors = ["GenuineIntel", "AuthenticAMD", "Apple", "", "HygonGenuine", "ARM", "CentaurHauls"];
    let arches = ["x86_64", "X86", "amd64", "i686", "aarch64", "arm", "ARMv7", "riscv64", "", "powerpc"];
    for v in vendors {
        for a in arches {
            assert_eq!(cpu_extensions(v, a), reference_extensions(v, a), "{} {}", v, a);
        }
    }
}

#[test]
fn grid_columns_and_threads() {
    assert_eq!(core_grid_columns(1), 2);
    assert_eq!(core_grid_columns(4), 2);
    assert_eq!(core_grid_columns(5), 3);
    assert_eq!(core_grid_columns(8), 3);
    assert_eq!(core_grid_columns(9), 4);
    assert_eq!(hyperthreading_label(16, 8), "Enabled");
    assert_eq!(hyperthreading_label(8, 8), "Disabled / N/A");
}

#[test]
fn extension_case_never_matters_and_nothing_repeats() {
    let vendors = ["GenuineIntel", "AuthenticAMD", "Apple", "", "hygon"];
    let arches = ["x86_64", "AMD64", "aarch64", "ARM", "riscv64"];
    for v in vendors {
        for a in arches {
            let e = cpu_extensions(v, a);
            assert_eq!(cpu_extensions(&v.to_uppercase(), &a.to_lowercase()), e);
            assert_eq!(cpu_extensions(&v.to_lowercase(), &a.to_uppercase()), e);
            let mut seen = std::collections::HashSet::new();
            for x in &e {
                assert!(seen.insert(x.clone()), "{} listed twice", x);
            }
        }
    }
}
