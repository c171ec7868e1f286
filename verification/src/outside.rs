//! The library's only trusted boundary: small wrappers around the outside
//! crates (uuid, chrono, Inflector, itertools) and around two std case
//! folds. Verus believes each wrapper's contract; everything downstream is
//! proved from them.
use vstd::prelude::*;

verus! {

/// What Inflector's `to_title_case` returns for a string: a function of
/// the characters alone, left otherwise unspecified.
pub uninterp spec fn title_case_of(s: Seq<char>) -> Seq<char>;

/// What `str::to_lowercase` returns for a string: a function of the
/// characters alone, left otherwise unspecified.
pub uninterp spec fn lower_of(s: Seq<char>) -> Seq<char>;

/// What `str::to_uppercase` returns for a string: a function of the
/// characters alone, left otherwise unspecified.
pub uninterp spec fn upper_of(s: Seq<char>) -> Seq<char>;

/// The given parts joined with a comma and a space between neighbours.
pub open spec fn comma_joined(parts: Seq<Seq<char>>) -> Seq<char>
    decreases parts.len(),
{
    if parts.len() == 0 {
        Seq::<char>::empty()
    } else if parts.len() == 1 {
        parts[0]
    } else {
        parts[0] + seq![',', ' '] + comma_joined(parts.skip(1))
    }
}

/// Relies on `uuid::Uuid::new_v4` rendered through its hyphenated
/// `Display` form: a random identifier of 36 characters. Which identifier
/// comes back is not assumed; callers must check any freshness they need.
#[verifier::external_body]
pub(crate) fn fresh_uuid() -> (r: String)
    ensures
        r@.len() == 36,
{
    uuid::Uuid::new_v4().to_string()
}

/// Relies on Inflector's `to_title_case`: the result depends on the input
/// characters alone.
#[verifier::external_body]
pub(crate) fn title_case(s: &str) -> (r: String)
    ensures
        r@ == title_case_of(s@),
{
    inflector::Inflector::to_title_case(s)
}

/// Relies on `str::to_lowercase`: the result depends on the input
/// characters alone.
#[verifier::external_body]
pub(crate) fn lowercase(s: &str) -> (r: String)
    ensures
        r@ == lower_of(s@),
{
    s.to_lowercase()
}

/// Relies on `str::to_uppercase`: the result depends on the input
/// characters alone.
#[verifier::external_body]
pub(crate) fn uppercase(s: &str) -> (r: String)
    ensures
        r@ == upper_of(s@),
{
    s.to_uppercase()
}

/// Relies on itertools' `Itertools::intersperse` collected into a
/// `String`: the parts concatenated with `", "` between neighbours.
#[verifier::external_body]
pub(crate) fn join_comma(parts: &Vec<String>) -> (r: String)
    ensures
        r@ == comma_joined(parts.deep_view()),
{
    itertools::Itertools::intersperse(parts.iter().map(|s| s.clone()), String::from(", "))
        .collect::<String>()
}

} // verus!
