use rivets::demangle::{demangle, demangle_or_raw};
use rivets::signature::Symbol;

#[test]
fn microsoft_style_strategy_is_tried_first() {
    assert_eq!(
        demangle("?func@MyClass@@UEAAHHH@Z"),
        Some(String::from("virtual int __cdecl MyClass::func(int, int)"))
    );
}

#[test]
fn itanium_style_strategy_is_the_fallback() {
    assert_eq!(
        demangle("_ZN5space3fooEibc"),
        Some(String::from("space::foo(int, bool, char)"))
    );
}

#[test]
fn when_both_strategies_reject_processing_continues_on_the_raw_text() {
    let raw = "plainly not a mangled name";
    assert_eq!(demangle(raw), None);
    assert_eq!(demangle_or_raw(raw), raw);

    // Downstream keeps working on the raw text rather than aborting.
    let sym = Symbol::new(demangle_or_raw(raw));
    assert_eq!(sym.fully_qualifed(), raw);
}
