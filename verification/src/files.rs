//! The reply of the search route of the web tutor.

use vstd::prelude::*;

verus! {

/// The reply to a search for `term`.
pub open spec fn response_text(term: Seq<char>) -> Seq<char> {
    "You typed in "@ + term + "."@
}

/// The reply to a search for `term`: `You typed in <term>.`
pub fn response(term: &str) -> (r: String)
    ensures
        r@ == response_text(term@),
{
    let mut s = String::new();
    s.append("You typed in ");
    s.append(term);
    s.append(".");
    proof {
        assert(s@ =~= response_text(term@));
    }
    s
}

} // verus!
