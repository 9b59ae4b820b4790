//! Generated files for the wrapper-tool environment: the cmake
//! toolchain file and the libc description.
use vstd::prelude::*;

verus! {

use vstd::string::StringExecFns;
use crate::arch::Arch;

/// The `CMAKE_SYSTEM_PROCESSOR` line for a target CPU, if it has one.
pub open spec fn spec_processor_line(target_cpu: Arch) -> Seq<char> {
    match target_cpu {
        Arch::X64 => "set(CMAKE_SYSTEM_PROCESSOR AMD64)\n"@,
        Arch::X86 => "set(CMAKE_SYSTEM_PROCESSOR X86)\n"@,
        Arch::Arm => Seq::<char>::empty(),
        Arch::Arm64 => "set(CMAKE_SYSTEM_PROCESSOR ARM64)\n"@,
    }
}

/// The compiler/linker lines pointing cmake at the MSVC wrappers.
pub open spec fn spec_msvc_tool_lines() -> Seq<char> {
    "set(CMAKE_C_COMPILER \"${CMAKE_CURRENT_LIST_DIR}/cl.exe\")\n"@
        + "set(CMAKE_CXX_COMPILER \"${CMAKE_CURRENT_LIST_DIR}/cl.exe\")\n"@
        + "set(CMAKE_ASM_COMPILER \"${CMAKE_CURRENT_LIST_DIR}/ml64.exe\")\n"@
        + "set(CMAKE_LINKER \"${CMAKE_CURRENT_LIST_DIR}/link.exe\")\n"@
        + "set(CMAKE_AR \"${CMAKE_CURRENT_LIST_DIR}/lib.exe\")\n"@
}

/// The resource/manifest tool lines pointing cmake at the SDK wrappers.
pub open spec fn spec_sdk_tool_lines() -> Seq<char> {
    "set(CMAKE_RC_COMPILER \"${CMAKE_CURRENT_LIST_DIR}/rc.exe\")\n"@
        + "set(CMAKE_MT \"${CMAKE_CURRENT_LIST_DIR}/mt.exe\")\n"@
}

/// The whole toolchain file contents.
pub open spec fn spec_toolchain_cmake(target_cpu: Arch, has_msvc: bool, has_sdk: bool) -> Seq<
    char,
> {
    "set(CMAKE_SYSTEM_NAME Windows)\n"@ + spec_processor_line(target_cpu) + (if has_msvc {
        spec_msvc_tool_lines()
    } else {
        Seq::<char>::empty()
    }) + (if has_sdk {
        spec_sdk_tool_lines()
    } else {
        Seq::<char>::empty()
    })
}

/// Generate the cmake toolchain file that routes the build through
/// the wrapper executables.
pub fn generate_toolchain_cmake(target_cpu: Arch, has_msvc: bool, has_sdk: bool) -> (r: String)
    ensures
        r@ == spec_toolchain_cmake(target_cpu, has_msvc, has_sdk),
{
    let mut content = String::new();
    content.append("set(CMAKE_SYSTEM_NAME Windows)\n");
    match target_cpu {
        Arch::X64 => {
            content.append("set(CMAKE_SYSTEM_PROCESSOR AMD64)\n");
        },
        Arch::X86 => {
            content.append("set(CMAKE_SYSTEM_PROCESSOR X86)\n");
        },
        Arch::Arm => {},
        Arch::Arm64 => {
            content.append("set(CMAKE_SYSTEM_PROCESSOR ARM64)\n");
        },
    }
    if has_msvc {
        content.append("set(CMAKE_C_COMPILER \"${CMAKE_CURRENT_LIST_DIR}/cl.exe\")\n");
        content.append("set(CMAKE_CXX_COMPILER \"${CMAKE_CURRENT_LIST_DIR}/cl.exe\")\n");
        content.append("set(CMAKE_ASM_COMPILER \"${CMAKE_CURRENT_LIST_DIR}/ml64.exe\")\n");
        content.append("set(CMAKE_LINKER \"${CMAKE_CURRENT_LIST_DIR}/link.exe\")\n");
        content.append("set(CMAKE_AR \"${CMAKE_CURRENT_LIST_DIR}/lib.exe\")\n");
    }
    if has_sdk {
        content.append("set(CMAKE_RC_COMPILER \"${CMAKE_CURRENT_LIST_DIR}/rc.exe\")\n");
        content.append("set(CMAKE_MT \"${CMAKE_CURRENT_LIST_DIR}/mt.exe\")\n");
    }
    proof {
        assert(content@ =~= spec_toolchain_cmake(target_cpu, has_msvc, has_sdk));
    }
    content
}

/// Generate the libc description: the install versions are only known
/// from the installed directories, so the contents are fixed.
pub fn generate_libc_txt(
    maybe_msvc_version: Option<&str>,
    maybe_sdk_version: Option<&str>,
    target_cpu: Arch,
) -> (r: String)
    ensures
        r@ == "gcc_dir=\n"@,
{
    let mut content = String::new();
    content.append("gcc_dir=\n");
    content
}

} // verus!
