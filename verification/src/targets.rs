//! The targets: each declares the dotfiles of one concern.

use vstd::prelude::*;
use vstd::string::*;

pub mod aws;
pub mod git;
pub mod personal_nix_cache;

verus! {

/// The path of `rest` below the directory `home`.
pub open spec fn path_below(home: Seq<char>, rest: Seq<char>) -> Seq<char> {
    if home.len() == 0 {
        rest
    } else if home.last() == '/' {
        home + rest
    } else {
        home + seq!['/'] + rest
    }
}

/// The path of `rest`, a relative path, below the directory `home`.
pub fn join_path(home: &str, rest: &str) -> (path: String)
    ensures
        path@ == path_below(home@, rest@),
{
    let chars = crate::text::to_chars(home);
    if chars.len() == 0 {
        String::from_str(rest)
    } else if chars[chars.len() - 1] == '/' {
        String::from_str(home).concat(rest)
    } else {
        proof {
            reveal_strlit("/");
            assert("/"@ =~= seq!['/']);
        }
        String::from_str(home).concat("/").concat(rest)
    }
}

} // verus!
