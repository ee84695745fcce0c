//! Build-version formatting: turning the version-control facts — the
//! `hash,date` summary line of the last commit, the dirty flag, and the
//! branch name — into the quoted `"branch-hash[-dirty]@date"` literal. The
//! commands that obtain those facts are run by the caller; only the
//! formatting and its shape check live here.

use vstd::prelude::*;
use crate::text::{chars_to_string, push_chars, split_on, str_to_chars, split_char, views_of};

verus! {

/// The version literal built from a `hash,date` summary line: quoted
/// `branch-hash@date`, with `-dirty` after the hash when the work tree is
/// dirty. A summary line without exactly one comma has an unexpected format
/// and yields nothing.
pub open spec fn version_text(log: Seq<char>, dirty: bool, branch: Seq<char>) -> Option<Seq<char>> {
    let parts = split_on(log, ',');
    if parts.len() == 2 {
        Some(
            seq!['"'] + branch + seq!['-'] + parts[0] + (if dirty {
                "-dirty"@
            } else {
                Seq::<char>::empty()
            }) + seq!['@'] + parts[1] + seq!['"'],
        )
    } else {
        None
    }
}

/// Formats the build version from the commit summary line (`hash,date`),
/// the dirty flag, and the branch name.
pub fn build_version(log_output: &str, dirty: bool, branch: &str) -> (r: Option<String>)
    ensures
        match r {
            Some(v) => version_text(log_output@, dirty, branch@) == Some(v@),
            None => version_text(log_output@, dirty, branch@) is None,
        },
{
    let cs = str_to_chars(log_output);
    let parts = split_char(&cs, ',');
    proof {
        assert(views_of(parts@).len() == parts@.len());
    }
    if parts.len() != 2 {
        return None;
    }
    proof {
        assert(views_of(parts@)[0] == parts@[0]@ && views_of(parts@)[1] == parts@[1]@);
    }
    let bc = str_to_chars(branch);
    let mut out: Vec<char> = Vec::new();
    out.push('"');
    push_chars(&mut out, &bc);
    out.push('-');
    push_chars(&mut out, &parts[0]);
    if dirty {
        let dc = str_to_chars("-dirty");
        push_chars(&mut out, &dc);
    }
    out.push('@');
    push_chars(&mut out, &parts[1]);
    out.push('"');
    proof {
        let expected = version_text(log_output@, dirty, branch@);
        assert(expected is Some);
        assert(out@ =~= expected->0);
    }
    Some(chars_to_string(&out))
}

} // verus!
