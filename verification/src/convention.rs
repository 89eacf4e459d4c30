//! Calling-convention resolution: an exact lookup over the five recognized
//! convention tokens. An unknown convention is never guessed or defaulted —
//! an incorrect convention silently corrupts the stack at call time, so
//! resolution refuses to proceed rather than assume one.

use vstd::prelude::*;
use crate::text::str_eq;

verus! {

/// The stack/register discipline a hooked function must be called with.
#[derive(Clone, Copy, PartialEq, Eq, Structural, Debug)]
pub enum CallingConvention {
    Cdecl,
    Stdcall,
    Fastcall,
    Thiscall,
    Vectorcall,
}

/// The ABI tag a convention token resolves to, if any: exactly the five
/// recognized tokens map to a tag, every other token to `None`.
pub open spec fn spec_calling_convention(s: Seq<char>) -> Option<CallingConvention> {
    if s == "__cdecl"@ {
        Some(CallingConvention::Cdecl)
    } else if s == "__stdcall"@ {
        Some(CallingConvention::Stdcall)
    } else if s == "__fastcall"@ {
        Some(CallingConvention::Fastcall)
    } else if s == "__thiscall"@ {
        Some(CallingConvention::Thiscall)
    } else if s == "__vectorcall"@ {
        Some(CallingConvention::Vectorcall)
    } else {
        None
    }
}

/// Takes a calling-convention token from an unmangled declaration and returns
/// the matching ABI tag; any token outside the five recognized ones yields
/// `None`.
pub fn get_calling_convention(abi: &str) -> (r: Option<CallingConvention>)
    ensures
        r == spec_calling_convention(abi@),
{
    proof {
        reveal_strlit("__cdecl");
        reveal_strlit("__stdcall");
        reveal_strlit("__fastcall");
        reveal_strlit("__thiscall");
        reveal_strlit("__vectorcall");
    }
    if str_eq(abi, "__cdecl") {
        Some(CallingConvention::Cdecl)
    } else if str_eq(abi, "__stdcall") {
        Some(CallingConvention::Stdcall)
    } else if str_eq(abi, "__fastcall") {
        Some(CallingConvention::Fastcall)
    } else if str_eq(abi, "__thiscall") {
        Some(CallingConvention::Thiscall)
    } else if str_eq(abi, "__vectorcall") {
        Some(CallingConvention::Vectorcall)
    } else {
        None
    }
}

/// Why a calling convention could not be determined for a hook.
#[derive(Clone, Copy, PartialEq, Eq, Structural, Debug)]
pub enum ConventionError {
    /// The hook declaration carried an explicit ABI of its own; the ABI is
    /// chosen from the demangled name, never written by hand.
    ExplicitAbi,
    /// The token is not one of the five recognized conventions.
    Unknown,
}

/// Determines the convention for a hook declaration: a declaration that
/// spells out an ABI of its own is rejected, otherwise the token is resolved
/// exactly, and an unknown token is an error rather than a default.
pub fn determine_calling_convention(has_explicit_abi: bool, token: &str) -> (r: Result<
    CallingConvention,
    ConventionError,
>)
    ensures
        has_explicit_abi ==> r == Err::<CallingConvention, ConventionError>(
            ConventionError::ExplicitAbi,
        ),
        !has_explicit_abi ==> r == (match spec_calling_convention(token@) {
            Some(c) => Ok::<CallingConvention, ConventionError>(c),
            None => Err::<CallingConvention, ConventionError>(ConventionError::Unknown),
        }),
{
    if has_explicit_abi {
        Err(ConventionError::ExplicitAbi)
    } else {
        match get_calling_convention(token) {
            Some(c) => Ok(c),
            None => Err(ConventionError::Unknown),
        }
    }
}

} // verus!
