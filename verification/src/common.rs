//! Names and helpers shared by every stage.
use vstd::prelude::*;

verus! {

/// Text taken from a program: an identifier or a string literal.
pub type ProgramText = String;

/// A number of the language.
pub type Number = i64;

/// Name of the implicit function that holds top-level code.
pub const MAIN_FUNCTION_NAME: &'static str = "main";

/// Name under which a class keeps its constructor.
pub const CONSTRUCTOR_NAME: &'static str = "constructor";

/// The views of the items of a sequence, in the same order.
pub open spec fn views<T: View>(items: Seq<T>) -> Seq<T::V> {
    Seq::new(items.len(), |i: int| items[i]@)
}

/// `views` commutes with `push`.
pub proof fn lemma_views_push<T: View>(items: Seq<T>, item: T)
    ensures
        views(items.push(item)) == views(items).push(item@),
{
    assert(views(items.push(item)) =~= views(items).push(item@));
}

/// `views` commutes with `update`.
pub proof fn lemma_views_update<T: View>(items: Seq<T>, i: int, item: T)
    requires
        0 <= i < items.len(),
    ensures
        views(items.update(i, item)) == views(items).update(i, item@),
{
    assert(views(items.update(i, item)) =~= views(items).update(i, item@));
}

/// `views` commutes with `take`.
pub proof fn lemma_views_take<T: View>(items: Seq<T>, n: int)
    requires
        0 <= n <= items.len(),
    ensures
        views(items.take(n)) == views(items).take(n),
{
    assert(views(items.take(n)) =~= views(items).take(n));
}

/// Compares two string slices with `str::eq`: true exactly when they hold
/// the same characters.
#[verifier::external_body]
pub(crate) fn str_eq(a: &str, b: &str) -> (same: bool)
    ensures
        same == (a@ == b@),
{
    a == b
}

} // verus!
