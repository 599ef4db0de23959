//! Patching the badge region of a README document.

use vstd::prelude::*;

verus! {

use crate::patcher::Boundary;
use crate::patcher::BoundaryMode;
use crate::patcher::PatchError;
use crate::patcher::apply;
use crate::patcher::spec_apply;
use vstd::string::StringExecFns;

/// The sentinel that opens the auto-generated badge region.
pub open spec fn start_marker() -> Seq<char> {
    "<!-- auto-generated badges -->"@
}

/// The sentinel that closes the auto-generated badge region.
pub open spec fn end_marker() -> Seq<char> {
    "<!-- /auto-generated badges -->"@
}

/// Badge content as it is spliced into the region: on lines of its own.
pub open spec fn wrapped(badges: Seq<char>) -> Seq<char> {
    "\n"@ + badges + "\n"@
}

/// Replace the region between the two badge sentinels of `content` with
/// `badge_content`, framed by a newline on either side. The sentinels
/// themselves are protected (`Exclude` mode). The document text outside the
/// region is copied exactly.
pub fn update_badge_region(content: &str, badge_content: &str) -> (r: Result<String, PatchError>)
    ensures
        ({
            let sr = spec_apply(
                content@,
                start_marker(),
                BoundaryMode::Exclude,
                end_marker(),
                BoundaryMode::Exclude,
                wrapped(badge_content@),
            );
            match r {
                Ok(out) => sr == Ok::<Seq<char>, PatchError>(out@),
                Err(pe) => sr == Err::<Seq<char>, PatchError>(pe),
            }
        }),
{
    let mut repl = "\n".to_owned();
    repl.append(badge_content);
    repl.append("\n");
    let start = Boundary::new("<!-- auto-generated badges -->".to_owned(), BoundaryMode::Exclude);
    let end = Boundary::new("<!-- /auto-generated badges -->".to_owned(), BoundaryMode::Exclude);
    proof {
        reveal_strlit("<!-- auto-generated badges -->");
        reveal_strlit("<!-- /auto-generated badges -->");
        assert(start.wf());
        assert(end.wf());
        assert(repl@ == wrapped(badge_content@));
    }
    apply(content, &start, &end, repl.as_str())
}

} // verus!
