//! The outside types that the library carries through.

use vstd::prelude::*;

verus! {

/// `git2::Error`, the error that libgit2 reports. Nothing of what it holds is
/// read here: a value of it is carried through as it came.
#[verifier::external_type_specification]
#[verifier::external_body]
pub struct ExGit2Error(git2::Error);

/// `String::push_str`: the text grows by `string` at its end.
pub assume_specification[ std::string::String::push_str ](text: &mut String, string: &str)
    ensures
        final(text)@ == old(text)@ + string@,
;

} // verus!
