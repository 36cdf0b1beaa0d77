//! Acceptance runs.

use vstd::prelude::*;
use vstd::string::*;

verus! {

/// How it is said that an item was left out and why.
pub open spec fn skip_text(item: Seq<char>, reason: Seq<char>) -> Seq<char> {
    "SKIP "@ + item + ": "@ + reason + " (probe-truthful; see build-spec-r0 §7)"@
}

/// How it is said, loudly, that an item was left out and why.
pub fn skip_line(item: &str, reason: &str) -> (r: String)
    ensures
        r@ == skip_text(item@, reason@),
{
    let mut r = "SKIP ".to_owned();
    r.append(item);
    r.append(": ");
    r.append(reason);
    r.append(" (probe-truthful; see build-spec-r0 §7)");
    r
}

/// What is said names the item first, and then the reason.
pub proof fn law_skipping_says_what_and_why(item: Seq<char>, reason: Seq<char>)
    ensures
        ("SKIP "@ + item + ": "@ + reason).is_prefix_of(skip_text(item, reason)),
{
    let head = "SKIP "@ + item + ": "@ + reason;
    assert(skip_text(item, reason).subrange(0, head.len() as int) =~= head);
}

} // verus!
