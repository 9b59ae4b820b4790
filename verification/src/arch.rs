//! Target CPU architectures and their canonical names.
use vstd::prelude::*;

verus! {

use crate::strutil::spec_eq_ignore_case;
use crate::strutil::str_eq;
use crate::strutil::str_eq_ignore_ascii_case;

#[derive(Debug, Clone, Copy, PartialEq, Eq, Structural, Hash)]
pub enum Arch {
    X64,
    X86,
    Arm,
    Arm64,
}

/// The canonical lowercase name of an architecture.
pub open spec fn spec_arch_str(a: Arch) -> Seq<char> {
    match a {
        Arch::X64 => "x64"@,
        Arch::X86 => "x86"@,
        Arch::Arm => "arm"@,
        Arch::Arm64 => "arm64"@,
    }
}

pub open spec fn spec_arch_from_exact(s: Seq<char>) -> Option<Arch> {
    if s == "x64"@ {
        Some(Arch::X64)
    } else if s == "x86"@ {
        Some(Arch::X86)
    } else if s == "arm"@ {
        Some(Arch::Arm)
    } else if s == "arm64"@ {
        Some(Arch::Arm64)
    } else {
        None
    }
}

pub open spec fn spec_arch_from_ignore_case(s: Seq<char>) -> Option<Arch> {
    if spec_eq_ignore_case(s, "x64"@) {
        Some(Arch::X64)
    } else if spec_eq_ignore_case(s, "x86"@) {
        Some(Arch::X86)
    } else if spec_eq_ignore_case(s, "arm"@) {
        Some(Arch::Arm)
    } else if spec_eq_ignore_case(s, "arm64"@) {
        Some(Arch::Arm64)
    } else {
        None
    }
}

impl Arch {
    pub fn from_str_exact(s: &str) -> (r: Option<Arch>)
        ensures
            r == spec_arch_from_exact(s@),
    {
        if str_eq(s, "x64") {
            Some(Arch::X64)
        } else if str_eq(s, "x86") {
            Some(Arch::X86)
        } else if str_eq(s, "arm") {
            Some(Arch::Arm)
        } else if str_eq(s, "arm64") {
            Some(Arch::Arm64)
        } else {
            None
        }
    }

    pub fn from_str_ignore_case(s: &str) -> (r: Option<Arch>)
        ensures
            r == spec_arch_from_ignore_case(s@),
    {
        if str_eq_ignore_ascii_case(s, "x64") {
            Some(Arch::X64)
        } else if str_eq_ignore_ascii_case(s, "x86") {
            Some(Arch::X86)
        } else if str_eq_ignore_ascii_case(s, "arm") {
            Some(Arch::Arm)
        } else if str_eq_ignore_ascii_case(s, "arm64") {
            Some(Arch::Arm64)
        } else {
            None
        }
    }

    pub fn as_str(&self) -> (r: &'static str)
        ensures
            r@ == spec_arch_str(*self),
    {
        match self {
            Arch::X64 => "x64",
            Arch::X86 => "x86",
            Arch::Arm => "arm",
            Arch::Arm64 => "arm64",
        }
    }
}

} // verus!
