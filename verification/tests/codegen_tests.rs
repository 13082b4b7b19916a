use enum_set::{check_members, generate, EligibilityError, Member};

fn member(name: &str, has_data: bool, has_discriminant: bool) -> Member {
    Member { name: String::from(name), has_data, has_discriminant }
}

fn plain_members(n: usize) -> Vec<Member> {
    let mut v = Vec::new();
    for i in 0..n {
        v.push(member(&format!("V{}", i), false, false));
    }
    v
}

#[test]
fn test_generate_simple_enum() {
    let members = vec![member("A", false, false), member("B", false, false), member("C", false, false)];
    let text = generate("Foo", &members).unwrap();
    let expected = "impl ::enum_set::CLike for Foo {\n    fn ordinal(&self) -> u32 {\n        *self as u32\n    }\n\n    fn ordinal_in_range(&self) {}\n\n    fn ordinal_injective(&self, _other: &Self) {}\n\n    fn from_u32(value: u32) -> Self {\n        match value {\n            0 => Foo::A,\n            1 => Foo::B,\n            2 => Foo::C,\n            _ => unreachable!(),\n        }\n    }\n\n    fn to_u32(&self) -> u32 {\n        *self as u32\n    }\n}\n";
    assert_eq!(expected, text);
}

#[test]
fn test_generate_empty_enum() {
    let members: Vec<Member> = Vec::new();
    let text = generate("Void", &members).unwrap();
    assert!(text.contains("fn ordinal(&self) -> u32 {\n        unreachable!()\n"));
    assert!(text.contains("fn to_u32(&self) -> u32 {\n        unreachable!()\n"));
    assert!(text.contains("match value {\n            _ => unreachable!(),\n"));
    assert!(check_members(&members).is_ok());
}

#[test]
fn test_generated_impl_holds_every_trait_item() {
    // The emitted text must lex as Rust and carry all five items of the
    // compiled trait, or no consumer of the derive could build.
    let members = vec![member("A", false, false), member("B", false, false), member("C", false, false)];
    let text = generate("Foo", &members).unwrap();
    let tokens: Result<proc_macro2::TokenStream, _> = text.parse();
    assert!(tokens.is_ok());
    assert_eq!(text.matches("    fn ").count(), 5);
    assert!(text.contains("fn ordinal(&self) -> u32"));
    assert!(text.contains("fn ordinal_in_range(&self) {}"));
    assert!(text.contains("fn ordinal_injective(&self, _other: &Self) {}"));
    assert!(text.contains("fn from_u32(value: u32) -> Self"));
    assert!(text.contains("fn to_u32(&self) -> u32"));
}

#[test]
fn test_reject_too_many_members() {
    let members = plain_members(33);
    assert_eq!(check_members(&members), Err(EligibilityError::TooManyMembers));
    assert_eq!(generate("Big", &members).unwrap_err(), EligibilityError::TooManyMembers);
}

#[test]
fn test_reject_data_member() {
    let members = vec![member("A", false, false), member("B", true, false)];
    assert_eq!(check_members(&members), Err(EligibilityError::DataMember));
    assert_eq!(generate("Foo", &members).unwrap_err(), EligibilityError::DataMember);
}

#[test]
fn test_reject_explicit_discriminant() {
    let members = vec![member("A", false, true)];
    assert_eq!(check_members(&members), Err(EligibilityError::ExplicitDiscriminant));
    assert_eq!(generate("Foo", &members).unwrap_err(), EligibilityError::ExplicitDiscriminant);
}

#[test]
fn test_rejection_precedence() {
    // Data is refused before a discriminant within one member, and an
    // earlier member's flaw wins over a later one's.
    let members = vec![member("A", true, true)];
    assert_eq!(check_members(&members), Err(EligibilityError::DataMember));

    let mut members = plain_members(40);
    members[5] = member("V5", true, false);
    assert_eq!(check_members(&members), Err(EligibilityError::DataMember));

    // With the first 32 members plain, the 33rd is refused for the count
    // before its own data is looked at.
    let mut members = plain_members(40);
    members[35] = member("V35", true, false);
    assert_eq!(check_members(&members), Err(EligibilityError::TooManyMembers));
}

#[test]
fn test_accept_32_members() {
    let members = plain_members(32);
    assert!(check_members(&members).is_ok());
    let text = generate("Big", &members).unwrap();
    assert!(text.contains("            31 => Big::V31,\n"));
    assert!(text.contains("            9 => Big::V9,\n"));
}

#[test]
fn test_error_messages() {
    assert_eq!(
        EligibilityError::TooManyMembers.message(),
        "#[derive(CLike)] supports at most 32 variants"
    );
    assert_eq!(
        EligibilityError::DataMember.message(),
        "#[derive(CLike)] requires C style style enum"
    );
    assert_eq!(
        EligibilityError::ExplicitDiscriminant.message(),
        "#[derive(CLike)] doesn't currently support discriminants"
    );
}
