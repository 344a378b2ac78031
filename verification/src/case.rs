//! Case styles and the conversion of an identifier into one of them.

use crate::text::same;
use convert_case::{Boundary, Case, Casing};
use vstd::prelude::*;

verus! {

/// A naming convention for identifiers.
#[derive(Clone, Copy, Debug, PartialEq, Eq, Structural)]
pub enum TextCase {
    /// `camelCase`: first word lower case, later words capitalised, no separator.
    CamelCase,
    /// `PascalCase`: every word capitalised, no separator.
    PascalCase,
    /// `snake_case`: lower-case words joined by `_`.
    SnakeCase,
    /// `SCREAMING_SNAKE_CASE`: upper-case words joined by `_`.
    ScreamingSnakeCase,
    /// `ALLCAPS`: rendered as `SCREAMING_SNAKE_CASE`; the default for enum values.
    AllCaps,
}

/// `convert_case::Case`, the target of a conversion: a plain enum of unit variants.
#[verifier::external_type_specification]
pub struct ExCase(Case);

/// `convert_case::Boundary`, a condition under which an identifier is split
/// into words: a plain enum of unit variants.
#[verifier::external_type_specification]
pub struct ExBoundary(Boundary);

/// What `convert_case` makes of `identifier` when it splits it into words at
/// `boundaries` and renders the words in `case`.
pub uninterp spec fn recased(identifier: Seq<char>, boundaries: Seq<Boundary>, case: Case) -> Seq<
    char,
>;

/// Where an identifier is split into words: at `_`, at `-`, and between a
/// lower-case letter and an upper-case letter that follows it. A digit next to
/// a letter does not start a new word.
pub open spec fn word_boundaries() -> Seq<Boundary> {
    seq![Boundary::Underscore, Boundary::Hyphen, Boundary::LowerUpper]
}

/// The rendering of each style. `AllCaps` is rendered as `ScreamingSnakeCase`.
pub open spec fn case_of(style: TextCase) -> Case {
    match style {
        TextCase::CamelCase => Case::Camel,
        TextCase::PascalCase => Case::Pascal,
        TextCase::SnakeCase => Case::Snake,
        TextCase::ScreamingSnakeCase => Case::ScreamingSnake,
        TextCase::AllCaps => Case::ScreamingSnake,
    }
}

/// The identifier that `identifier` becomes in `style`.
pub open spec fn converted(identifier: Seq<char>, style: TextCase) -> Seq<char> {
    recased(identifier, word_boundaries(), case_of(style))
}

/// An identifier is in a style when converting it to that style gives it back.
pub open spec fn in_style(identifier: Seq<char>, style: TextCase) -> bool {
    converted(identifier, style) == identifier
}

/// Calls `Casing::with_boundaries` and then `StateConverter::to_case` of
/// `convert_case`: the identifier is split into words at the given boundaries
/// only, each word is recased after the pattern of `case`, and the words are
/// joined by the delimiter of `case`. The contract gives that result its name
/// and claims nothing else of it.
#[verifier::external_body]
fn recase(identifier: &str, boundaries: &Vec<Boundary>, case: Case) -> (out: String)
    ensures
        out@ == recased(identifier@, boundaries@, case),
{
    identifier.with_boundaries(boundaries).to_case(case)
}

fn transform_text_case(style: TextCase) -> (case: Case)
    ensures
        case == case_of(style),
{
    match style {
        TextCase::CamelCase => Case::Camel,
        TextCase::PascalCase => Case::Pascal,
        TextCase::SnakeCase => Case::Snake,
        TextCase::ScreamingSnakeCase => Case::ScreamingSnake,
        TextCase::AllCaps => Case::ScreamingSnake,
    }
}

fn boundaries() -> (bs: Vec<Boundary>)
    ensures
        bs@ == word_boundaries(),
{
    let mut bs: Vec<Boundary> = Vec::new();
    bs.push(Boundary::Underscore);
    bs.push(Boundary::Hyphen);
    bs.push(Boundary::LowerUpper);
    bs
}

/// Converts `identifier` into `style`. An identifier that is in the style
/// already comes back unchanged.
pub fn convert(identifier: &str, style: TextCase) -> (out: String)
    ensures
        out@ == converted(identifier@, style),
        in_style(identifier@, style) ==> out@ == identifier@,
{
    let bs = boundaries();
    recase(identifier, &bs, transform_text_case(style))
}

/// Whether `identifier` is in `style`.
pub fn is_case(identifier: &str, style: TextCase) -> (yes: bool)
    ensures
        yes == in_style(identifier@, style),
{
    let target = convert(identifier, style);
    same(target.as_str(), identifier)
}

} // verus!
