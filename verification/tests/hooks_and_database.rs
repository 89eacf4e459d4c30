use rivets::convention::CallingConvention;
use rivets::database::{DatabaseError, SymbolDatabase, SymbolRecord};
use rivets::hook::{Hook, HookFailure, HookRegistry, HookState};

fn record(name: &str, is_function: bool, rva: Option<u32>) -> SymbolRecord {
    SymbolRecord { name: String::from(name), is_function, rva }
}

fn sample_database() -> SymbolDatabase {
    let records = vec![
        record("MyFunc", true, Some(0x1234)),
        record("OtherFunc", true, Some(0x2000)),
        record("some_data", false, Some(0x3000)),
    ];
    let (db, skipped) = SymbolDatabase::new(0x1400_0000_0, records).unwrap();
    assert!(skipped.is_empty());
    db
}

#[test]
fn resolves_known_symbol_to_base_plus_offset() {
    let db = sample_database();
    assert_eq!(db.get_function_address("MyFunc"), Some(0x1_4000_1234));
}

#[test]
fn missing_symbol_fails_only_its_own_hook() {
    let db = sample_database();
    assert_eq!(db.get_function_address("Missing"), None);

    let mut failed = Hook::new(String::from("Missing"));
    failed.resolve_address(&db);
    assert_eq!(failed.state, HookState::Failed(HookFailure::SymbolNotFound));

    // A sibling installation is unaffected by the failure.
    let mut sibling = Hook::new(String::from("MyFunc"));
    sibling.resolve_address(&db);
    assert_eq!(sibling.state, HookState::AddressResolved(0x1_4000_1234));
}

#[test]
fn untranslated_offset_is_skipped_not_recorded_at_zero() {
    let records = vec![
        record("Translated", true, Some(0x10)),
        record("Untranslated", true, None),
    ];
    let (db, skipped) = SymbolDatabase::new(0x1000, records).unwrap();
    assert_eq!(skipped, vec![String::from("Untranslated")]);
    assert_eq!(db.get_function_address("Untranslated"), None);
    assert_eq!(db.get_function_address("Translated"), Some(0x1010));
}

#[test]
fn non_function_symbols_are_ignored() {
    let db = sample_database();
    assert_eq!(db.get_function_address("some_data"), None);
}

#[test]
fn later_record_replaces_earlier_for_same_name() {
    let records = vec![
        record("F", true, Some(0x100)),
        record("F", true, Some(0x200)),
    ];
    let (db, _) = SymbolDatabase::new(0, records).unwrap();
    assert_eq!(db.get_function_address("F"), Some(0x200));
}

#[test]
fn overflowing_base_address_is_rejected() {
    let records = vec![record("F", true, Some(0x100))];
    assert_eq!(
        SymbolDatabase::new(u64::MAX, records).err(),
        Some(DatabaseError::BaseOutOfRange)
    );
}

#[test]
fn full_installation_protocol_enables_the_hook() {
    let db = sample_database();
    let mut registry = HookRegistry::new();
    let mut hook = Hook::new(String::from("MyFunc"));
    hook.resolve_address(&db);
    assert_eq!(hook.state, HookState::AddressResolved(0x1_4000_1234));
    hook.build_trampoline(CallingConvention::Cdecl);
    assert_eq!(
        hook.state,
        HookState::TrampolineBuilt(0x1_4000_1234, CallingConvention::Cdecl)
    );
    assert_eq!(hook.enable(&mut registry), Ok(()));
    assert_eq!(hook.state, HookState::Enabled(0x1_4000_1234));
    assert!(registry.is_enabled(0x1_4000_1234));
}

#[test]
fn second_installation_on_enabled_address_is_rejected() {
    let db = sample_database();
    let mut registry = HookRegistry::new();

    let mut first = Hook::new(String::from("MyFunc"));
    first.resolve_address(&db);
    first.build_trampoline(CallingConvention::Cdecl);
    assert_eq!(first.enable(&mut registry), Ok(()));

    let mut second = Hook::new(String::from("MyFunc"));
    second.resolve_address(&db);
    second.build_trampoline(CallingConvention::Cdecl);
    assert_eq!(second.enable(&mut registry), Err(HookFailure::DuplicateAddress));
    assert_eq!(second.state, HookState::Failed(HookFailure::DuplicateAddress));

    // The original hook remains enabled and its address registered.
    assert_eq!(first.state, HookState::Enabled(0x1_4000_1234));
    assert!(registry.is_enabled(0x1_4000_1234));
}

#[test]
fn hooks_on_distinct_addresses_both_enable() {
    let db = sample_database();
    let mut registry = HookRegistry::new();

    let mut a = Hook::new(String::from("MyFunc"));
    a.resolve_address(&db);
    a.build_trampoline(CallingConvention::Stdcall);
    assert_eq!(a.enable(&mut registry), Ok(()));

    let mut b = Hook::new(String::from("OtherFunc"));
    b.resolve_address(&db);
    b.build_trampoline(CallingConvention::Thiscall);
    assert_eq!(b.enable(&mut registry), Ok(()));

    assert!(registry.is_enabled(0x1_4000_1234));
    assert!(registry.is_enabled(0x1_4000_2000));
}

#[test]
fn failing_a_hook_is_terminal_and_touches_no_registry() {
    let registry = HookRegistry::new();
    let mut hook = Hook::new(String::from("MyFunc"));
    hook.fail(HookFailure::ConventionUnknown);
    assert_eq!(hook.state, HookState::Failed(HookFailure::ConventionUnknown));
    assert!(!registry.is_enabled(0x1_4000_1234));
}
