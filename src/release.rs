//! Texts of a release: the commit that records a version bump, and the
//! one-line summary of its description.

use vstd::prelude::*;

use crate::text::chars_of;
use crate::version::{format_version, Version};

verus! {

/// `chore: version bump to {version}`, a blank line, then a space and the
/// release notes.
pub open spec fn release_commit_text(v: Version, notes: Seq<char>) -> Seq<char> {
    "chore: version bump to "@ + format_version(v) + "\n\n "@ + notes
}

/// The message of the commit that records a version bump.
pub fn release_commit_message(version: &Version, notes: &str) -> (r: String)
    ensures
        r@ == release_commit_text(*version, notes@),
{
    let mut r = String::new();
    r.append("chore: version bump to ");
    let v = version.formatted();
    r.append(v.as_str());
    r.append("\n\n ");
    r.append(notes);
    r
}

/// How a description is echoed on one line: `<skipped>` when empty, the
/// text itself up to 20 characters, otherwise its first 17 characters
/// and `...`.
pub open spec fn description_summary(s: Seq<char>) -> Seq<char> {
    if s.len() == 0 {
        "<skipped>"@
    } else if s.len() <= 20 {
        s
    } else {
        s.take(17) + "..."@
    }
}

/// The one-line echo of a release description (see `description_summary`).
pub fn summarize_description(s: &str) -> (r: String)
    ensures
        r@ == description_summary(s@),
{
    let cs = chars_of(s);
    if cs.len() == 0 {
        String::from_str("<skipped>")
    } else if cs.len() <= 20 {
        String::from_str(s)
    } else {
        let mut r = String::new();
        let mut i: usize = 0;
        while i < 17
            invariant
                0 <= i <= 17,
                17 < cs.len(),
                r@ == cs@.take(i as int),
            decreases 17 - i,
        {
            r.push(cs[i]);
            assert(cs@.take(i + 1) =~= cs@.take(i as int).push(cs@[i as int]));
            i = i + 1;
        }
        r.append("...");
        assert(cs@ == s@);
        r
    }
}

} // verus!
