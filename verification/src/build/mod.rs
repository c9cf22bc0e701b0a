//! Compilation targets.
use vstd::prelude::*;
use crate::text::{str_eq, push_str, to_owned_string};
use crate::codegen::OptimizationLevel;
use crate::error::{IoError, ErrorKind};

verus! {

/// A platform to compile for.
#[derive(Debug, Clone, Copy, PartialEq, Eq, Structural)]
pub enum Target {
    Native,
    Wasm32,
    X86_64Linux,
    X86_64Windows,
    Aarch64,
}

/// The target named by a target triple, if it is one of the known triples.
pub open spec fn spec_from_triple(triple: Seq<char>) -> Option<Target> {
    if triple == "wasm32-unknown-unknown"@ {
        Some(Target::Wasm32)
    } else if triple == "x86_64-unknown-linux-gnu"@ {
        Some(Target::X86_64Linux)
    } else if triple == "x86_64-pc-windows-msvc"@ {
        Some(Target::X86_64Windows)
    } else if triple == "aarch64-unknown-linux-gnu"@ {
        Some(Target::Aarch64)
    } else {
        None
    }
}

/// The triple of a target; the native target is described by the host's architecture.
pub open spec fn spec_target_triple(t: Target, host_arch: Seq<char>) -> Seq<char> {
    match t {
        Target::Wasm32 => "wasm32-unknown-unknown"@,
        Target::X86_64Linux => "x86_64-unknown-linux-gnu"@,
        Target::X86_64Windows => "x86_64-pc-windows-msvc"@,
        Target::Aarch64 => "aarch64-unknown-linux-gnu"@,
        Target::Native => host_arch,
    }
}

impl Target {
    /// The target named by a target triple; `None` for an unknown triple.
    pub fn from_triple(triple: &str) -> (r: Option<Self>)
        ensures
            r == spec_from_triple(triple@),
    {
        if str_eq(triple, "wasm32-unknown-unknown") {
            Some(Target::Wasm32)
        } else if str_eq(triple, "x86_64-unknown-linux-gnu") {
            Some(Target::X86_64Linux)
        } else if str_eq(triple, "x86_64-pc-windows-msvc") {
            Some(Target::X86_64Windows)
        } else if str_eq(triple, "aarch64-unknown-linux-gnu") {
            Some(Target::Aarch64)
        } else {
            None
        }
    }

    /// The target's triple. For the native target this is `host_arch`, the
    /// architecture of the machine the compiler runs on.
    pub fn get_target_triple(&self, host_arch: &'static str) -> (r: &'static str)
        ensures
            r@ == spec_target_triple(*self, host_arch@),
    {
        match self {
            Target::Wasm32 => "wasm32-unknown-unknown",
            Target::X86_64Linux => "x86_64-unknown-linux-gnu",
            Target::X86_64Windows => "x86_64-pc-windows-msvc",
            Target::Aarch64 => "aarch64-unknown-linux-gnu",
            Target::Native => host_arch,
        }
    }
}

/// Reading a target's triple back gives the target.
pub proof fn lemma_triple_round_trip(t: Target, host_arch: Seq<char>)
    requires
        t != Target::Native,
    ensures
        spec_from_triple(spec_target_triple(t, host_arch)) == Some(t),
{
    reveal_strlit("wasm32-unknown-unknown");
    reveal_strlit("x86_64-unknown-linux-gnu");
    reveal_strlit("x86_64-pc-windows-msvc");
    reveal_strlit("aarch64-unknown-linux-gnu");
    assert("wasm32-unknown-unknown"@[0] != "x86_64-unknown-linux-gnu"@[0]);
    assert("x86_64-unknown-linux-gnu"@[7] != "x86_64-pc-windows-msvc"@[7]);
    assert("wasm32-unknown-unknown"@[0] != "x86_64-pc-windows-msvc"@[0]);
    assert("wasm32-unknown-unknown"@[0] != "aarch64-unknown-linux-gnu"@[0]);
    assert("x86_64-unknown-linux-gnu"@[0] != "aarch64-unknown-linux-gnu"@[0]);
    assert("x86_64-pc-windows-msvc"@[0] != "aarch64-unknown-linux-gnu"@[0]);
}

/// The machine the compiler runs on: its architecture and operating system,
/// as Rust names them ("x86_64", "linux", ...).
#[derive(Debug)]
pub struct HostPlatform {
    pub arch: String,
    pub os: String,
}

/// Why a target cannot be built on a host, if it cannot.
pub open spec fn host_error(t: Target, arch: Seq<char>, os: Seq<char>) -> Option<Seq<char>> {
    match t {
        Target::Wasm32 => if arch != "wasm32"@ {
            Some("WASM target requires wasm32 target architecture"@)
        } else {
            None
        },
        Target::X86_64Linux => if !(arch == "x86_64"@ && os == "linux"@) {
            Some("Linux x86_64 target requires matching host architecture"@)
        } else {
            None
        },
        Target::X86_64Windows => if !(arch == "x86_64"@ && os == "windows"@) {
            Some("Windows x86_64 target requires matching host architecture"@)
        } else {
            None
        },
        Target::Aarch64 => if !(arch == "aarch64"@ && os == "linux"@) {
            Some("AArch64 target requires ARM64 Linux host architecture"@)
        } else {
            None
        },
        Target::Native => None,
    }
}

/// The program that must run for a target to be built on a host, and the
/// message when it does not; none when no tool is needed.
pub open spec fn toolchain_need(t: Target, arch: Seq<char>, os: Seq<char>) -> Option<(Seq<char>, Seq<char>)> {
    match t {
        Target::Wasm32 => Some(("wasm-pack"@, "wasm-pack not found. Please install wasm-pack for WebAssembly targets"@)),
        Target::X86_64Windows => if os == "linux"@ {
            Some(("wine64"@, "wine64 not found. Please install wine for cross-compilation to Windows"@))
        } else {
            None
        },
        Target::Aarch64 => if arch == "x86_64"@ {
            Some(("aarch64-linux-gnu-gcc"@, "ARM64 toolchain not found. Please install gcc-aarch64-linux-gnu"@))
        } else {
            None
        },
        _ => None,
    }
}

/// The system libraries a target needs.
pub open spec fn required_libraries(t: Target) -> Seq<Seq<char>> {
    match t {
        Target::X86_64Linux | Target::Aarch64 => seq!["libc.so.6"@, "libstdc++.so.6"@],
        Target::X86_64Windows => seq!["kernel32.dll"@, "user32.dll"@],
        Target::Wasm32 => seq!["Javascript runtime"@],
        Target::Native => Seq::empty(),
    }
}

/// The directories a target's libraries are looked for in; a target with
/// none takes its libraries as present.
pub open spec fn library_dirs(t: Target) -> Seq<Seq<char>> {
    match t {
        Target::X86_64Linux | Target::Aarch64 => seq!["/usr/lib"@, "/usr/lib64"@],
        Target::X86_64Windows => seq!["C:\\Windows\\System32"@],
        _ => Seq::empty(),
    }
}

/// The first required library, from the `i`-th on, that was not found.
pub open spec fn first_missing_library(t: Target, found: Seq<bool>, i: nat) -> Option<Seq<char>>
    decreases required_libraries(t).len() - i,
{
    if i >= required_libraries(t).len() {
        None
    } else if library_dirs(t).len() > 0 && !found[i as int] {
        Some(required_libraries(t)[i as int])
    } else {
        first_missing_library(t, found, i + 1)
    }
}

/// What keeps a target from being built, in the order it is checked: the
/// host, the toolchain, then the libraries (named with the target's triple).
pub open spec fn compatibility_error(
    t: Target,
    arch: Seq<char>,
    os: Seq<char>,
    toolchain_found: bool,
    found: Seq<bool>,
) -> Option<Seq<char>> {
    if host_error(t, arch, os) is Some {
        host_error(t, arch, os)
    } else if toolchain_need(t, arch, os) is Some && !toolchain_found {
        Some(toolchain_need(t, arch, os)->Some_0.1)
    } else {
        match first_missing_library(t, found, 0) {
            Some(lib) => Some("Required library "@ + lib + " not found for target "@ + spec_target_triple(t, arch)),
            None => None,
        }
    }
}

/// How to build: target, optimization, debug information, where the output
/// goes, the sources, and whether to emit IR and strip symbols.
#[derive(Debug)]
pub struct BuildConfig {
    pub target: Target,
    pub optimization_level: OptimizationLevel,
    pub debug_info: bool,
    pub output_dir: String,
    pub source_files: Vec<String>,
    pub emit_ir: bool,
    pub strip_symbols: bool,
}

/// The triple of a target, the host's architecture for the native target.
fn triple_text(t: Target, arch: &String) -> (r: String)
    ensures
        r@ == spec_target_triple(t, arch@),
{
    match t {
        Target::Native => arch.clone(),
        _ => to_owned_string(t.get_target_triple("")),
    }
}

fn static_str_eq(a: &String, b: &'static str) -> (r: bool)
    ensures
        r == (a@ == b@),
{
    str_eq(a.as_str(), b)
}

impl BuildConfig {
    /// A configuration for the target: default optimization, debug
    /// information, no output directory or source, no IR, symbols kept.
    pub fn new(target: Target) -> (r: Self)
        ensures
            r.target == target,
            r.optimization_level == OptimizationLevel::Default,
            r.debug_info,
            r.output_dir@.len() == 0,
            r.source_files@.len() == 0,
            !r.emit_ir,
            !r.strip_symbols,
    {
        BuildConfig {
            target,
            optimization_level: OptimizationLevel::Default,
            debug_info: true,
            output_dir: String::new(),
            source_files: Vec::new(),
            emit_ir: false,
            strip_symbols: false,
        }
    }

    /// Sets the optimization level.
    pub fn with_optimization(&mut self, level: OptimizationLevel)
        ensures
            *final(self) == (BuildConfig { optimization_level: level, ..*old(self) }),
    {
        self.optimization_level = level;
    }

    /// Turns debug information on or off.
    pub fn with_debug(&mut self, debug: bool)
        ensures
            *final(self) == (BuildConfig { debug_info: debug, ..*old(self) }),
    {
        self.debug_info = debug;
    }

    /// The program to probe before building, and the message when it is
    /// missing.
    pub fn toolchain_probe(&self, host: &HostPlatform) -> (r: Option<(&'static str, &'static str)>)
        ensures
            match toolchain_need(self.target, host.arch@, host.os@) {
                Some((p, m)) => r matches Some(x) && x.0@ == p && x.1@ == m,
                None => r is None,
            },
    {
        match self.target {
            Target::Wasm32 => Some(("wasm-pack", "wasm-pack not found. Please install wasm-pack for WebAssembly targets")),
            Target::X86_64Windows => if static_str_eq(&host.os, "linux") {
                Some(("wine64", "wine64 not found. Please install wine for cross-compilation to Windows"))
            } else {
                None
            },
            Target::Aarch64 => if static_str_eq(&host.arch, "x86_64") {
                Some(("aarch64-linux-gnu-gcc", "ARM64 toolchain not found. Please install gcc-aarch64-linux-gnu"))
            } else {
                None
            },
            _ => None,
        }
    }

    /// The libraries the target needs, and the directories to look for them
    /// in (none: taken as present).
    pub fn library_search(&self) -> (r: (Vec<&'static str>, Vec<&'static str>))
        ensures
            r.0@.map_values(|s: &'static str| s@) == required_libraries(self.target),
            r.1@.map_values(|s: &'static str| s@) == library_dirs(self.target),
    {
        let mut libs: Vec<&'static str> = Vec::new();
        let mut dirs: Vec<&'static str> = Vec::new();
        match self.target {
            Target::X86_64Linux | Target::Aarch64 => {
                libs.push("libc.so.6");
                libs.push("libstdc++.so.6");
                dirs.push("/usr/lib");
                dirs.push("/usr/lib64");
            },
            Target::X86_64Windows => {
                libs.push("kernel32.dll");
                libs.push("user32.dll");
                dirs.push("C:\\Windows\\System32");
            },
            Target::Wasm32 => {
                libs.push("Javascript runtime");
            },
            Target::Native => {},
        }
        assert(libs@.map_values(|s: &'static str| s@) =~= required_libraries(self.target));
        assert(dirs@.map_values(|s: &'static str| s@) =~= library_dirs(self.target));
        (libs, dirs)
    }

    /// Checks that the target can be built on the host, given whether the
    /// toolchain probe succeeded and which required libraries were found, as
    /// [`compatibility_error`] says.
    pub fn verify_target_compatibility(&self, host: &HostPlatform, toolchain_found: bool, libraries_found: &Vec<bool>) -> (r:
        Result<(), IoError>)
        requires
            libraries_found@.len() == required_libraries(self.target).len(),
        ensures
            match compatibility_error(self.target, host.arch@, host.os@, toolchain_found, libraries_found@) {
                Some(m) => r matches Err(e) && e.spec_kind() == ErrorKind::ValidationError && e.spec_message() == m,
                None => r is Ok,
            },
    {
        let arch = &host.arch;
        let os = &host.os;
        let host_msg: Option<&'static str> = match self.target {
            Target::Wasm32 => if !static_str_eq(arch, "wasm32") {
                Some("WASM target requires wasm32 target architecture")
            } else {
                None
            },
            Target::X86_64Linux => if !(static_str_eq(arch, "x86_64") && static_str_eq(os, "linux")) {
                Some("Linux x86_64 target requires matching host architecture")
            } else {
                None
            },
            Target::X86_64Windows => if !(static_str_eq(arch, "x86_64") && static_str_eq(os, "windows")) {
                Some("Windows x86_64 target requires matching host architecture")
            } else {
                None
            },
            Target::Aarch64 => if !(static_str_eq(arch, "aarch64") && static_str_eq(os, "linux")) {
                Some("AArch64 target requires ARM64 Linux host architecture")
            } else {
                None
            },
            Target::Native => None,
        };
        match host_msg {
            Some(m) => {
                return Err(IoError::validation_error(m));
            },
            None => {},
        }
        match self.toolchain_probe(host) {
            Some((_, m)) => if !toolchain_found {
                return Err(IoError::validation_error(m));
            },
            None => {},
        }
        let (libs, dirs) = self.library_search();
        proof {
            assert(libs@.len() == required_libraries(self.target).len());
        }
        let mut i: usize = 0;
        while i < libs.len()
            invariant
                i <= libs@.len(),
                libs@.map_values(|s: &'static str| s@) == required_libraries(self.target),
                dirs@.map_values(|s: &'static str| s@) == library_dirs(self.target),
                libraries_found@.len() == libs@.len(),
                host_error(self.target, host.arch@, host.os@) is None,
                !(toolchain_need(self.target, host.arch@, host.os@) is Some && !toolchain_found),
                first_missing_library(self.target, libraries_found@, i as nat) == first_missing_library(
                    self.target,
                    libraries_found@,
                    0,
                ),
            decreases libs.len() - i,
        {
            proof {
                assert(libs@.map_values(|s: &'static str| s@)[i as int] == libs@[i as int]@);
            }
            if dirs.len() > 0 && !libraries_found[i] {
                let mut m = to_owned_string("Required library ");
                push_str(&mut m, libs[i]);
                push_str(&mut m, " not found for target ");
                let triple = triple_text(self.target, arch);
                push_str(&mut m, triple.as_str());
                return Err(IoError::validation_error(m.as_str()));
            }
            i = i + 1;
        }
        Ok(())
    }
}

} // verus!
