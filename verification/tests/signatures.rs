use rivets::signature::Symbol;

fn raw_texts(list: &[(String, String, String)]) -> Vec<String> {
    list.iter().map(|t| t.2.clone()).collect()
}

#[test]
fn base_name_truncates_at_first_bracket() {
    let s = Symbol::new(String::from("std::vector<int>"));
    assert_eq!(s.as_str(), "std::vector");
}

#[test]
fn literal_text_passes_through() {
    let s = Symbol::from_string(String::from("unsigned long long"));
    assert_eq!(s.as_str(), "unsigned long long");
    assert_eq!(s.fully_qualifed(), "unsigned long long");
}

#[test]
fn absent_type_renders_error_remark() {
    let s = Symbol::none();
    assert_eq!(s.as_str(), "/* error: attempt to display invalid type */");
    assert_eq!(s.fully_qualifed(), "/* error: attempt to display invalid type */");
}

#[test]
fn fresh_symbol_renders_its_base_name() {
    let s = Symbol::new(String::from("Foo"));
    assert_eq!(s.fully_qualifed(), "Foo");
}

#[test]
fn decorations_render_before_and_after_the_name() {
    let mut s = Symbol::new(String::from("Foo"));
    s.increment_pointer_count();
    s.increment_pointer_count();
    s.add_modifiers("const ");
    assert_eq!(s.fully_qualifed(), "const Foo**");
}

#[test]
fn literal_ignores_decorations() {
    let mut s = Symbol::from_string(String::from("int"));
    s.increment_pointer_count();
    s.add_modifiers("const ");
    assert_eq!(s.fully_qualifed(), "int");
}

#[test]
fn template_split_keeps_nested_commas() {
    let s = Symbol::new(String::from("Foo<A<B,C>,D>"));
    let args = s.templates_by_type();
    assert_eq!(raw_texts(&args), vec![String::from("A<B,C>"), String::from("D")]);
}

#[test]
fn namespace_split_keeps_nested_separators() {
    let s = Symbol::new(String::from("ns::Outer<T1,T2>::Inner"));
    assert_eq!(
        s.namespace_vec(),
        vec![String::from("ns"), String::from("Outer<T1,T2>"), String::from("Inner")]
    );
}

#[test]
fn namespace_split_trims_segments() {
    let s = Symbol::new(String::from("a :: b"));
    assert_eq!(s.namespace_vec(), vec![String::from("a"), String::from("b")]);
}

#[test]
fn namespace_split_of_plain_name() {
    let s = Symbol::new(String::from("Foo"));
    assert_eq!(s.namespace_vec(), vec![String::from("Foo")]);
}

#[test]
fn synthesized_identifier_positions() {
    let s = Symbol::new(String::from(
        "F<a,b,c,d,e,f,g,h,i,j,k,l,m,n,o>",
    ));
    let args = s.templates_by_type();
    let idents: Vec<&str> = args.iter().map(|t| t.1.as_str()).collect();
    assert_eq!(
        idents,
        vec!["T", "U", "V", "W", "X", "Y", "Z", "TT", "TU", "TV", "TW", "TX", "TY", "TZ", "UT"]
    );
}

#[test]
fn arguments_are_classified_by_kind() {
    let s = Symbol::new(String::from("F<3.14,42,int>"));
    let args = s.templates_by_type();
    let kinds: Vec<&str> = args.iter().map(|t| t.0.as_str()).collect();
    assert_eq!(kinds, vec!["double", "long long", "typename"]);
    let idents: Vec<&str> = args.iter().map(|t| t.1.as_str()).collect();
    assert_eq!(idents, vec!["T", "U", "V"]);
}

#[test]
fn templates_renders_declaration() {
    let s = Symbol::new(String::from("F<int,7>"));
    let args = s.templates_by_type();
    assert_eq!(Symbol::templates(&args), "template <typename T, long long U> ");
}

#[test]
fn templates_of_empty_list_render_nothing() {
    assert_eq!(Symbol::templates(&[]), "");
}

#[test]
fn no_bracket_means_no_template_arguments() {
    let s = Symbol::new(String::from("plain::name"));
    assert!(s.templates_by_type().is_empty());
}

#[test]
fn placeholder_bracket_is_not_a_template() {
    let s = Symbol::new(String::from("my_namespace::<unnamed-class-MyClass>"));
    assert!(s.templates_by_type().is_empty());
}

#[test]
fn unnamed_tag_placeholder_is_rewritten() {
    assert_eq!(Symbol::replace_unnamed_types("<unnamed-tag>"), "unnamed_tag");
}

#[test]
fn lambda_placeholder_loses_its_brackets() {
    assert_eq!(
        Symbol::replace_unnamed_types("ns::<lambda_1a2b>::go"),
        "ns::lambda_1a2b::go"
    );
}

#[test]
fn unnamed_type_and_enum_placeholders_keep_their_content() {
    assert_eq!(Symbol::replace_unnamed_types("<unnamed-type-Foo>"), "Foo");
    assert_eq!(Symbol::replace_unnamed_types("x<unnamed-enum-Bar>y"), "xBary");
}

#[test]
fn unrelated_text_is_left_alone() {
    assert_eq!(
        Symbol::replace_unnamed_types("std::vector<int>"),
        "std::vector<int>"
    );
}

#[test]
fn rewriting_happens_on_construction() {
    let s = Symbol::new(String::from("ns::<unnamed-type-Inner>"));
    assert_eq!(s.as_str(), "ns::Inner");
}

#[test]
fn empty_name_degrades_quietly() {
    let s = Symbol::new(String::new());
    assert_eq!(s.as_str(), "");
    assert_eq!(s.fully_qualifed(), "");
    assert!(s.namespace_vec().is_empty());
    assert!(s.templates_by_type().is_empty());
}

#[test]
fn malformed_nesting_is_tolerated_by_clamping() {
    let s = Symbol::new(String::from("Foo<A)B,C>"));
    let args = s.templates_by_type();
    assert_eq!(raw_texts(&args), vec![String::from("A)B"), String::from("C")]);
}
