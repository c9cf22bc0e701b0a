use io_lang::build::{BuildConfig, HostPlatform, Target};
use io_lang::codegen::OptimizationLevel;

fn host(arch: &str, os: &str) -> HostPlatform {
    HostPlatform { arch: arch.to_string(), os: os.to_string() }
}

#[test]
fn triples_name_targets() {
    assert_eq!(Target::from_triple("wasm32-unknown-unknown"), Some(Target::Wasm32));
    assert_eq!(Target::from_triple("riscv64"), None);
    assert_eq!(Target::Aarch64.get_target_triple("x86_64"), "aarch64-unknown-linux-gnu");
    assert_eq!(Target::Native.get_target_triple("x86_64"), "x86_64");
}

#[test]
fn linux_target_on_linux_host_with_libraries_is_compatible() {
    let config = BuildConfig::new(Target::X86_64Linux);
    assert!(config.verify_target_compatibility(&host("x86_64", "linux"), true, &vec![true, true]).is_ok());
}

#[test]
fn missing_library_is_named_with_the_triple() {
    let config = BuildConfig::new(Target::X86_64Linux);
    let err = config.verify_target_compatibility(&host("x86_64", "linux"), true, &vec![true, false]).unwrap_err();
    assert_eq!(err.message(), "Required library libstdc++.so.6 not found for target x86_64-unknown-linux-gnu");
}

#[test]
fn host_mismatch_comes_first() {
    let config = BuildConfig::new(Target::Aarch64);
    let err = config.verify_target_compatibility(&host("x86_64", "linux"), false, &vec![false, false]).unwrap_err();
    assert_eq!(err.message(), "AArch64 target requires ARM64 Linux host architecture");
}

#[test]
fn wasm_needs_its_toolchain() {
    let config = BuildConfig::new(Target::Wasm32);
    let probe = config.toolchain_probe(&host("wasm32", "unknown")).unwrap();
    assert_eq!(probe.0, "wasm-pack");
    let err = config.verify_target_compatibility(&host("wasm32", "unknown"), false, &vec![true]).unwrap_err();
    assert_eq!(err.message(), "wasm-pack not found. Please install wasm-pack for WebAssembly targets");
    assert!(config.verify_target_compatibility(&host("wasm32", "unknown"), true, &vec![false]).is_ok());
}

#[test]
fn builder_setters_change_one_field() {
    let mut config = BuildConfig::new(Target::Native);
    config.with_optimization(OptimizationLevel::Aggressive);
    config.with_debug(false);
    assert_eq!(config.optimization_level, OptimizationLevel::Aggressive);
    assert!(!config.debug_info);
    assert_eq!(config.target, Target::Native);
}
