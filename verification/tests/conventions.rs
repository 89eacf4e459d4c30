use rivets::convention::{
    determine_calling_convention, get_calling_convention, CallingConvention, ConventionError,
};

#[test]
fn resolves_all_five_tokens() {
    assert_eq!(get_calling_convention("__cdecl"), Some(CallingConvention::Cdecl));
    assert_eq!(get_calling_convention("__stdcall"), Some(CallingConvention::Stdcall));
    assert_eq!(get_calling_convention("__fastcall"), Some(CallingConvention::Fastcall));
    assert_eq!(get_calling_convention("__thiscall"), Some(CallingConvention::Thiscall));
    assert_eq!(get_calling_convention("__vectorcall"), Some(CallingConvention::Vectorcall));
}

#[test]
fn rejects_unknown_tokens() {
    assert_eq!(get_calling_convention(""), None);
    assert_eq!(get_calling_convention("cdecl"), None);
    assert_eq!(get_calling_convention("__pascal"), None);
    assert_eq!(get_calling_convention("__CDECL"), None);
    assert_eq!(get_calling_convention("__stdcall "), None);
}

#[test]
fn explicit_abi_is_rejected() {
    assert_eq!(
        determine_calling_convention(true, "__cdecl"),
        Err(ConventionError::ExplicitAbi)
    );
}

#[test]
fn unknown_convention_is_an_error_never_a_default() {
    assert_eq!(
        determine_calling_convention(false, "__watcall"),
        Err(ConventionError::Unknown)
    );
}

#[test]
fn determined_convention_matches_token() {
    assert_eq!(
        determine_calling_convention(false, "__thiscall"),
        Ok(CallingConvention::Thiscall)
    );
}
