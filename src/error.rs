//! What can go wrong while a schema is extracted.
use vstd::prelude::*;

verus! {

/// The piece of syntax that a declaration lacked where it was expected.
#[derive(Clone, Copy, Debug, PartialEq, Eq, Structural)]
pub enum Expected {
    Pound,
    Bang,
    Brackets,
    Parentheses,
    Braces,
    Ident,
    Pub,
    Struct,
    Enum,
    Colon,
    Comma,
    Eq,
    StrLit,
    FatArrow,
    Semi,
    Dollar,
    Type,
    End,
}

/// A construct that the extraction does not understand: the declarations
/// no longer follow the conventions that the extraction relies on.
#[derive(Clone, Copy, Debug, PartialEq, Eq, Structural)]
pub enum Violation {
    /// A struct with positional fields.
    StructShape,
    /// An enum variant with named fields, or with a discriminant.
    VariantShape,
    /// A type expression of a shape outside the schema's algebra.
    TypeShape,
    /// A wrapper type without a type argument where one is needed.
    MissingTypeArgument,
    /// The separator of a punctuated sequence is not a token kind.
    SeparatorNotToken,
    /// A type name that is neither built in nor a node, after aliases.
    UnknownType,
    /// A `Token!` spelling that the token table does not hold.
    UnknownToken,
    /// A feature condition other than `feature = ".."` or `any(..)` of those.
    FeaturePredicate,
    /// Two feature conditions of one declaration, neither within the other.
    IncomparableFeatures,
    /// The token file holds no token table.
    MissingTokenTable,
}

/// Why an extraction stopped.
#[derive(Clone, Debug, PartialEq, Eq)]
pub enum Error {
    /// Tokens that do not follow the grammar of a declaration.
    Syntax(Expected),
    /// An attribute without the arguments in parentheses that were asked
    /// for, with a message that suggests the expected form.
    Arguments(String),
    /// A construct outside the extraction's assumptions.
    Violation(Violation),
}

} // verus!
