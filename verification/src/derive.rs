//! Deriving the ordinal contract from the definition of a type: which
//! definitions are accepted, and what numbering an accepted one gets.
use vstd::prelude::*;
use vstd::string::StringExecFns;

verus! {

/// One variant of an enumeration, as far as the derivation looks at it.
pub struct Variant {
    /// The variant's identifier.
    pub name: String,
    /// Whether the definition assigns the variant an explicit discriminant.
    pub has_discriminant: bool,
}

/// The kind of type definition the derivation was asked to number.
pub enum Subject {
    /// An enumeration with its variants in declaration order.
    Enum(Vec<Variant>),
    /// A struct.
    Struct,
    /// A union.
    Union,
}

/// Why a definition cannot be numbered.
#[derive(Debug, PartialEq, Eq, Clone, Copy)]
pub enum DeriveError {
    /// The subject is not an enumeration.
    NotAnEnum,
    /// The variant at this index, the first such, has an explicit
    /// discriminant.
    Discriminant(usize),
}

/// The numbering of an accepted enumeration: the variant named
/// `variants[i]` has position `i`, and there are `size` of them.
pub struct Ordinals {
    pub size: usize,
    pub variants: Vec<String>,
}

/// No variant before index `end` has an explicit discriminant.
pub open spec fn spec_plain_before(variants: Seq<Variant>, end: int) -> bool {
    forall|j: int| 0 <= j < end && j < variants.len() ==> !(#[trigger] variants[j]).has_discriminant
}

/// `result` is the outcome of the derivation on `subject`: a struct or a
/// union is refused; an enumeration is refused at its first variant with an
/// explicit discriminant; any other enumeration is numbered in declaration
/// order.
pub open spec fn spec_derives(subject: Subject, result: Result<Ordinals, DeriveError>) -> bool {
    match subject {
        Subject::Enum(variants) => match result {
            Ok(ordinals) => {
                &&& spec_plain_before(variants@, variants@.len() as int)
                &&& ordinals.size == variants@.len()
                &&& ordinals.variants@.len() == variants@.len()
                &&& forall|i: int|
                    0 <= i < variants@.len() ==> (#[trigger] ordinals.variants@[i])@
                        == variants@[i].name@
            },
            Err(DeriveError::Discriminant(at)) => {
                &&& at < variants@.len()
                &&& variants@[at as int].has_discriminant
                &&& spec_plain_before(variants@, at as int)
            },
            Err(DeriveError::NotAnEnum) => false,
        },
        Subject::Struct => result == Err::<Ordinals, DeriveError>(DeriveError::NotAnEnum),
        Subject::Union => result == Err::<Ordinals, DeriveError>(DeriveError::NotAnEnum),
    }
}

/// Numbers the variants of `subject`, or says why it cannot be numbered.
pub fn derive_ordinals(subject: &Subject) -> (result: Result<Ordinals, DeriveError>)
    ensures
        spec_derives(*subject, result),
{
    match subject {
        Subject::Enum(variants) => {
            let mut names: Vec<String> = Vec::new();
            let mut i: usize = 0;
            while i < variants.len()
                invariant
                    *subject == Subject::Enum(*variants),
                    i <= variants@.len(),
                    names@.len() == i,
                    spec_plain_before(variants@, i as int),
                    forall|j: int| 0 <= j < i ==> (#[trigger] names@[j])@ == variants@[j].name@,
                decreases variants@.len() - i,
            {
                if variants[i].has_discriminant {
                    return Err(DeriveError::Discriminant(i));
                }
                names.push(variants[i].name.clone());
                i += 1;
            }
            Ok(Ordinals { size: variants.len(), variants: names })
        },
        Subject::Struct => Err(DeriveError::NotAnEnum),
        Subject::Union => Err(DeriveError::NotAnEnum),
    }
}

/// `syn`'s syntax tree of the item that a derive macro is applied to.
#[verifier::external_type_specification]
#[verifier::external_body]
pub struct ExDeriveInput(syn::DeriveInput);

/// What the syntax tree `input` holds, as far as the derivation looks at it:
/// the case of its `data` field and, for an enumeration, the entries of
/// `variants` in order, each with the text of its `ident` and whether its
/// `discriminant` is present.
pub uninterp spec fn spec_subject_of(input: syn::DeriveInput) -> Subject;

/// Reads a `syn::DeriveInput`: tells the three cases of its `data` field
/// (`syn::Data`) apart and, for an enumeration, copies for each entry of
/// `variants` the text of its `ident` and whether its `discriminant` is
/// present. The tree is opaque here, so the contract only names what was
/// read: it depends on the tree alone.
#[verifier::external_body]
fn subject_of(input: &syn::DeriveInput) -> (subject: Subject)
    ensures
        subject == spec_subject_of(*input),
{
    match &input.data {
        syn::Data::Enum(data) => Subject::Enum(
            data.variants
                .iter()
                .map(|v| Variant {
                    name: v.ident.to_string(),
                    has_discriminant: v.discriminant.is_some(),
                })
                .collect(),
        ),
        syn::Data::Struct(_) => Subject::Struct,
        syn::Data::Union(_) => Subject::Union,
    }
}

/// Derives the ordinal contract for the item in `input`: the result is the
/// outcome of the derivation on what the tree holds.
pub fn derive_enum_collections(input: &syn::DeriveInput) -> (result: Result<Ordinals, DeriveError>)
    ensures
        spec_derives(spec_subject_of(*input), result),
{
    let subject = subject_of(input);
    derive_ordinals(&subject)
}

impl DeriveError {
    /// The diagnostic shown to whoever wrote the refused definition.
    pub fn message(&self) -> (text: String)
        ensures
            text@ == match *self {
                DeriveError::NotAnEnum => "The `Enumerated` macro only supports enums."@,
                DeriveError::Discriminant(_) => "`Enumerated` doesn't support discriminants"@,
            },
    {
        match self {
            DeriveError::NotAnEnum => String::from_str(
                "The `Enumerated` macro only supports enums.",
            ),
            DeriveError::Discriminant(_) => String::from_str(
                "`Enumerated` doesn't support discriminants",
            ),
        }
    }
}

} // verus!
