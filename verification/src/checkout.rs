use vstd::prelude::*;

use crate::errors::ToolError;
use crate::text::find_char;
use crate::text::lemma_find_char_at;

verus! {

/// A remote branch on a contributor's fork: the fork owner's user name and
/// the branch name, as given on the command surface as `user:branch`.
#[derive(Debug, Clone)]
pub struct GitRef {
    pub user: String,
    pub branch: String,
}

/// Splits a `user:branch` pair at its first colon. A reference without a
/// colon is rejected.
pub fn git_ref_from_str(s: &str) -> (r: Result<GitRef, ToolError>)
    ensures
        find_char(s@, ':') < s@.len() ==> (r matches Ok(g) && g.user@ == s@.take(
            find_char(s@, ':'),
        ) && g.branch@ == s@.skip(find_char(s@, ':') + 1)),
        find_char(s@, ':') == s@.len() ==> r == Err::<GitRef, ToolError>(
            ToolError::GitRefMissingColon,
        ),
{
    let n = s.unicode_len();
    let mut i: usize = 0;
    while i < n && s.get_char(i) != ':'
        invariant
            n == s@.len(),
            0 <= i <= n,
            forall|j: int| 0 <= j < i ==> s@[j] != ':',
        decreases n - i,
    {
        i = i + 1;
    }
    proof {
        lemma_find_char_at(s@, ':', i as int);
    }
    if i == n {
        return Err(ToolError::GitRefMissingColon);
    }
    let user = String::from_str(s.substring_char(0, i));
    let branch = String::from_str(s.substring_char(i + 1, n));
    proof {
        assert(s@.subrange(0, i as int) =~= s@.take(i as int));
        assert(s@.subrange(i + 1, n as int) =~= s@.skip(i + 1));
    }
    Ok(GitRef { user, branch })
}

/// The fetch URL of the contributor's fork of the linter repository.
pub fn fetch_url(gr: &GitRef) -> (r: String)
    ensures
        r@ == "https://github.com/"@ + gr.user@ + "/rust-clippy"@,
{
    let mut u = String::from_str("https://github.com/");
    u.append(gr.user.as_str());
    u.append("/rust-clippy");
    u
}

} // verus!
