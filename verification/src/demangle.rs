//! Demangling with strategy fallback: a mangled symbol is first tried against
//! a Microsoft-style demangler, then against an Itanium/GCC-style demangler;
//! if both reject it, the caller falls back to the raw mangled text. Pure and
//! reentrant: the result depends on the mangled text alone.

use vstd::prelude::*;

verus! {

/// The declaration the Microsoft-style strategy produces for a mangled name,
/// or `None` where that strategy rejects the name.
pub uninterp spec fn msvc_demangling(s: Seq<char>) -> Option<Seq<char>>;

/// The declaration the Itanium/GCC-style strategy produces for a mangled
/// name, or `None` where that strategy rejects the name.
pub uninterp spec fn itanium_demangling(s: Seq<char>) -> Option<Seq<char>>;

/// Relies on undname::demangle (with access specifiers suppressed): the
/// result is a pure function of the mangled text, and rejection is reported
/// as an error value, never a panic.
#[verifier::external_body]
fn demangle_msvc(mangled: &str) -> (r: Option<String>)
    ensures
        match r {
            Some(t) => msvc_demangling(mangled@) == Some(t@),
            None => msvc_demangling(mangled@) is None,
        },
{
    undname::demangle(mangled, undname::Flags::NO_ACCESS_SPECIFIER).ok()
}

/// Relies on cpp_demangle::Symbol::new and Symbol::demangle (default
/// options): the result is a pure function of the mangled text, and both
/// parse and render failures are reported as error values, never a panic.
#[verifier::external_body]
fn demangle_itanium(mangled: &str) -> (r: Option<String>)
    ensures
        match r {
            Some(t) => itanium_demangling(mangled@) == Some(t@),
            None => itanium_demangling(mangled@) is None,
        },
{
    cpp_demangle::Symbol::new(mangled).ok().and_then(|s| s.demangle().ok())
}

/// The declaration `demangle` owes for a mangled name: the Microsoft-style
/// result where that strategy accepts the name, otherwise the Itanium-style
/// result, otherwise nothing.
pub open spec fn spec_demangle(s: Seq<char>) -> Option<Seq<char>> {
    match msvc_demangling(s) {
        Some(t) => Some(t),
        None => itanium_demangling(s),
    }
}

/// Attempts to demangle a mangled symbol name: first the Microsoft-style
/// strategy, then the Itanium/GCC-style fallback; `None` when both reject.
pub fn demangle(mangled: &str) -> (r: Option<String>)
    ensures
        match r {
            Some(t) => spec_demangle(mangled@) == Some(t@),
            None => spec_demangle(mangled@) is None,
        },
{
    match demangle_msvc(mangled) {
        Some(t) => Some(t),
        None => demangle_itanium(mangled),
    }
}

/// The text downstream processing runs on: the demangled declaration where
/// one strategy accepts the name, else the raw mangled text unchanged —
/// demangling failure is not an error and never aborts processing.
pub fn demangle_or_raw(mangled: &str) -> (r: String)
    ensures
        r@ == (match spec_demangle(mangled@) {
            Some(t) => t,
            None => mangled@,
        }),
{
    match demangle(mangled) {
        Some(t) => t,
        None => mangled.to_owned(),
    }
}

} // verus!
