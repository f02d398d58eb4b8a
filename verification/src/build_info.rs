//! How a build names itself.

use vstd::prelude::*;
use vstd::string::{StrSliceExecFns, StringExecFns};

verus! {

/// What the names of the environment variables of the application begin with.
pub const ENV_PREFIX: &'static str = "FCKLOUD_";

/// The number of characters of a short commit hash.
pub const SHORT_SHA: usize = 7;

/// Whether `pattern` occurs in `text` at place `at`.
pub open spec fn occurs_at(text: Seq<char>, pattern: Seq<char>, at: int) -> bool {
    0 <= at && at + pattern.len() <= text.len() && text.subrange(at, at + pattern.len()) == pattern
}

/// Whether `pattern` occurs somewhere in `text`.
pub open spec fn occurs_in(text: Seq<char>, pattern: Seq<char>) -> bool {
    exists|at: int| occurs_at(text, pattern, at)
}

/// The first seven characters of a commit hash, or all of it where it is shorter.
pub open spec fn spec_git_sha_short(sha: Seq<char>) -> Seq<char> {
    if sha.len() >= SHORT_SHA {
        sha.subrange(0, SHORT_SHA as int)
    } else {
        sha
    }
}

/// Whether the description of a commit says that the build was made from
/// uncommitted changes.
pub open spec fn spec_is_dirty_build(describe: Seq<char>) -> bool {
    occurs_in(describe, "dirty"@)
}

/// The line that names a build.
pub open spec fn spec_version(package: Seq<char>, sha: Seq<char>, describe: Seq<char>, date: Seq<char>) -> Seq<
    char,
> {
    let dirty_flag = if spec_is_dirty_build(describe) {
        " (dirty)"@
    } else {
        ""@
    };
    "v"@ + package + ", git: "@ + spec_git_sha_short(sha) + dirty_flag + ", built: "@ + date
}

/// Returns the short Git SHA (first 7 characters).
pub fn git_sha_short(sha: &str) -> (short: &str)
    ensures
        short@ == spec_git_sha_short(sha@),
{
    if sha.unicode_len() >= SHORT_SHA {
        sha.substring_char(0, SHORT_SHA)
    } else {
        sha
    }
}

/// Whether `pattern` occurs in `text` at place `at`.
fn matches_at(text: &str, pattern: &str, at: usize) -> (r: bool)
    requires
        at + pattern@.len() <= text@.len(),
    ensures
        r == occurs_at(text@, pattern@, at as int),
{
    let n: usize = text.unicode_len();
    let m: usize = pattern.unicode_len();
    let mut k: usize = 0;
    while k < m
        invariant
            n == text@.len(),
            m == pattern@.len(),
            at + m <= n,
            k <= m,
            forall|j: int| 0 <= j < k ==> text@[at + j] == pattern@[j],
        decreases m - k,
    {
        if text.get_char(at + k) != pattern.get_char(k) {
            proof {
                if occurs_at(text@, pattern@, at as int) {
                    assert(text@.subrange(at as int, at + m)[k as int] == pattern@[k as int]);
                }
            }
            return false;
        }
        k = k + 1;
    }
    assert(text@.subrange(at as int, at + m) =~= pattern@);
    true
}

/// Whether `pattern` occurs somewhere in `text`.
pub fn contains(text: &str, pattern: &str) -> (r: bool)
    ensures
        r == occurs_in(text@, pattern@),
{
    let n: usize = text.unicode_len();
    let m: usize = pattern.unicode_len();
    if m > n {
        proof {
            if occurs_in(text@, pattern@) {
                let at = choose|at: int| occurs_at(text@, pattern@, at);
                assert(false);
            }
        }
        return false;
    }
    if m == 0 {
        assert(occurs_at(text@, pattern@, 0)) by {
            assert(text@.subrange(0, 0) =~= pattern@);
        }
        return true;
    }
    let mut at: usize = 0;
    while at <= n - m
        invariant
            n == text@.len(),
            m == pattern@.len(),
            0 < m <= n,
            at <= n - m + 1,
            forall|j: int| 0 <= j < at ==> !occurs_at(text@, pattern@, j),
        decreases n - m + 1 - at,
    {
        if matches_at(text, pattern, at) {
            return true;
        }
        at = at + 1;
    }
    proof {
        if occurs_in(text@, pattern@) {
            let j = choose|j: int| occurs_at(text@, pattern@, j);
            assert(!occurs_at(text@, pattern@, j));
        }
    }
    false
}

/// Checks if the build was made from uncommitted changes.
pub fn is_dirty_build(describe: &str) -> (dirty: bool)
    ensures
        dirty == spec_is_dirty_build(describe@),
{
    contains(describe, "dirty")
}

/// Returns the string that is shown when CLI is invoked with "--version".
pub fn version(package: &str, sha: &str, describe: &str, date: &str) -> (line: String)
    ensures
        line@ == spec_version(package@, sha@, describe@, date@),
{
    let dirty_flag = if is_dirty_build(describe) {
        " (dirty)"
    } else {
        ""
    };
    let mut line = String::from_str("v");
    line.append(package);
    line.append(", git: ");
    line.append(git_sha_short(sha));
    line.append(dirty_flag);
    line.append(", built: ");
    line.append(date);
    line
}

} // verus!
