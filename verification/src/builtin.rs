//! The decision behind the directory-change builtin: which directory a `cd`
//! line asks for. The directory change itself, and the lookup of the home
//! directory, are operating-system work for the surrounding program.

use vstd::prelude::*;
use crate::tokenize::shell_split;
use crate::tokenize::spec_tokenize;

verus! {

/// Why a `cd` line yields no target directory.
#[derive(Clone, Copy, PartialEq, Eq, Debug)]
pub enum CdError {
    /// The line named no directory and no home directory is known.
    HomeNotSet,
}

impl CdError {
    /// A short description of the error, for display by the surrounding loop.
    pub fn message(&self) -> (r: &'static str)
        ensures
            r@ == "HOME not set"@,
    {
        "HOME not set"
    }
}

/// The directory a `cd` line asks for: its second word if there is one, else
/// the given home directory; with fewer than two words and no home directory,
/// the error.
pub fn cd_target(line: &str, home: Option<String>) -> (r: Result<String, CdError>)
    ensures
        ({
            let toks = spec_tokenize(line@);
            if toks.len() < 2 {
                match home {
                    Some(h) => r is Ok && r->Ok_0@ == h@,
                    None => r == Err::<String, CdError>(CdError::HomeNotSet),
                }
            } else {
                r is Ok && r->Ok_0@ == toks[1]
            }
        }),
{
    let parts = shell_split(line);
    if parts.len() < 2 {
        match home {
            Some(h) => Ok(h),
            None => Err(CdError::HomeNotSet),
        }
    } else {
        let t = parts[1].clone();
        proof {
            assert(parts@[1].deep_view() =~= parts@[1]@);
        }
        Ok(t)
    }
}

} // verus!
