//! The decision whether a restore may overwrite a file that already exists.
use vstd::prelude::*;

verus! {

/// The text with its leading and trailing whitespace removed.
pub uninterp spec fn trimmed(s: Seq<char>) -> Seq<char>;

/// Relies on `str::trim`: the result depends on the text alone.
#[verifier::external_body]
fn trim_text(s: &str) -> (r: &str)
    ensures
        r@ == trimmed(s@),
{
    s.trim()
}

/// Two characters that are equal once ASCII upper case is mapped to lower.
pub open spec fn same_ignoring_ascii_case(a: char, b: char) -> bool {
    a == b || ('A' <= a && a <= 'Z' && b as u32 == a as u32 + 32) || ('A' <= b && b <= 'Z'
        && a as u32 == b as u32 + 32)
}

/// Relies on `str::eq_ignore_ascii_case`: the texts have the same length and
/// agree character by character once ASCII letters are lower-cased.
#[verifier::external_body]
fn equal_ignoring_ascii_case(a: &str, b: &str) -> (r: bool)
    ensures
        r == (a@.len() == b@.len() && forall|i: int|
            0 <= i < a@.len() ==> same_ignoring_ascii_case(#[trigger] a@[i], b@[i])),
{
    a.eq_ignore_ascii_case(b)
}

/// An already trimmed answer accepts: it is `y` or `Y`.
pub open spec fn is_yes(t: Seq<char>) -> bool {
    t.len() == 1 && (t[0] == 'y' || t[0] == 'Y')
}

/// Whether an already trimmed answer accepts the overwrite.
pub fn answer_is_yes(t: &str) -> (r: bool)
    ensures
        r == is_yes(t@),
{
    proof {
        reveal_strlit("y");
    }
    equal_ignoring_ascii_case(t, "y")
}

/// Whether a line typed in answer to the overwrite question accepts it: once
/// trimmed, it must be `y` in either case.
pub fn accepts_overwrite(input: &str) -> (r: bool)
    ensures
        r == is_yes(trimmed(input@)),
{
    answer_is_yes(trim_text(input))
}

/// A restore target must be confirmed first when it exists and the run is
/// not forced.
pub open spec fn needs_confirmation_spec(force: bool, exists: bool) -> bool {
    !force && exists
}

/// Whether the user must be asked before the target is overwritten.
pub fn needs_confirmation(force: bool, exists: bool) -> (r: bool)
    ensures
        r == needs_confirmation_spec(force, exists),
{
    !force && exists
}

/// Whether the target may be overwritten: always when forced, always when
/// it does not exist, else only on an accepting answer.
pub open spec fn may_overwrite_spec(force: bool, exists: bool, answer: Seq<char>) -> bool {
    !needs_confirmation_spec(force, exists) || is_yes(trimmed(answer))
}

/// Whether the target may be overwritten, given the answer that would be
/// typed if asked.
pub fn may_overwrite(force: bool, exists: bool, answer: &str) -> (r: bool)
    ensures
        r == may_overwrite_spec(force, exists, answer@),
{
    !needs_confirmation(force, exists) || accepts_overwrite(answer)
}

} // verus!
