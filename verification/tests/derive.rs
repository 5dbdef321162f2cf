use enum_collections::derive::{
    derive_enum_collections, derive_ordinals, DeriveError, Subject, Variant,
};

fn parse(source: &str) -> syn::DeriveInput {
    syn::parse_str::<syn::DeriveInput>(source).unwrap()
}

fn plain(name: &str) -> Variant {
    Variant {
        name: name.to_string(),
        has_discriminant: false,
    }
}

fn numbered(name: &str) -> Variant {
    Variant {
        name: name.to_string(),
        has_discriminant: true,
    }
}

#[test]
fn derive_numbers_variants_in_declaration_order() {
    let input = parse("enum Letter { A, B }");
    let ordinals = derive_enum_collections(&input).ok().unwrap();
    assert_eq!(2, ordinals.size);
    assert_eq!(vec!["A".to_string(), "B".to_string()], ordinals.variants);
}

#[test]
fn derive_keeps_order_of_many_variants() {
    let input = parse("pub enum Command { Stop, Go, Left, Right, Wait }");
    let ordinals = derive_enum_collections(&input).ok().unwrap();
    assert_eq!(5, ordinals.size);
    assert_eq!(
        vec![
            "Stop".to_string(),
            "Go".to_string(),
            "Left".to_string(),
            "Right".to_string(),
            "Wait".to_string()
        ],
        ordinals.variants
    );
}

#[test]
fn derive_accepts_an_empty_enum() {
    let input = parse("enum Never {}");
    let ordinals = derive_enum_collections(&input).ok().unwrap();
    assert_eq!(0, ordinals.size);
    assert!(ordinals.variants.is_empty());
}

#[test]
fn derive_refuses_a_struct() {
    let input = parse("struct Point { x: i32, y: i32 }");
    assert_eq!(
        Some(DeriveError::NotAnEnum),
        derive_enum_collections(&input).err()
    );
}

#[test]
fn derive_refuses_a_union() {
    let input = parse("union Bits { a: u32, b: i32 }");
    assert_eq!(
        Some(DeriveError::NotAnEnum),
        derive_enum_collections(&input).err()
    );
}

#[test]
fn derive_refuses_the_first_discriminant() {
    let input = parse("enum Level { Low, Mid = 5, High = 9 }");
    assert_eq!(
        Some(DeriveError::Discriminant(1)),
        derive_enum_collections(&input).err()
    );
}

#[test]
fn derive_refuses_a_discriminant_on_the_first_variant() {
    let input = parse("enum Level { Low = 0, Mid, High }");
    assert_eq!(
        Some(DeriveError::Discriminant(0)),
        derive_enum_collections(&input).err()
    );
}

#[test]
fn derive_ordinals_on_plain_values() {
    let subject = Subject::Enum(vec![plain("A"), plain("B"), plain("C")]);
    let ordinals = derive_ordinals(&subject).ok().unwrap();
    assert_eq!(3, ordinals.size);
    assert_eq!(
        vec!["A".to_string(), "B".to_string(), "C".to_string()],
        ordinals.variants
    );
}

#[test]
fn derive_ordinals_reports_first_discriminant_only() {
    let subject = Subject::Enum(vec![plain("A"), numbered("B"), numbered("C")]);
    assert_eq!(
        Some(DeriveError::Discriminant(1)),
        derive_ordinals(&subject).err()
    );
}

#[test]
fn derive_ordinals_refuses_what_is_no_enum() {
    assert_eq!(
        Some(DeriveError::NotAnEnum),
        derive_ordinals(&Subject::Struct).err()
    );
    assert_eq!(
        Some(DeriveError::NotAnEnum),
        derive_ordinals(&Subject::Union).err()
    );
}

#[test]
fn derive_error_messages() {
    assert_eq!(
        "The `Enumerated` macro only supports enums.",
        DeriveError::NotAnEnum.message()
    );
    assert_eq!(
        "`Enumerated` doesn't support discriminants",
        DeriveError::Discriminant(3).message()
    );
}
