//! The store directory: where a user's files lie and whether a
//! directory may serve as the store.

use vstd::prelude::*;
use vstd::string::StrSliceExecFns;
use vstd::string::StringExecFns;

verus! {

pub open spec fn passwd_suffix() -> Seq<char> {
    seq!['.', 'p', 'a', 's', 's', 'w', 'd']
}

pub open spec fn fail_suffix() -> Seq<char> {
    seq!['.', 'f', 'a', 'i', 'l']
}

/// `<dir>/<user><suffix>`.
pub open spec fn user_file(dir: Seq<char>, user: Seq<char>, suffix: Seq<char>) -> Seq<char> {
    dir + seq!['/'] + user + suffix
}

/// The path of the user's secret file.
pub fn secret_path(dir: &str, user: &str) -> (r: String)
    ensures
        r@ == user_file(dir@, user@, passwd_suffix()),
{
    proof {
        reveal_strlit("/");
        reveal_strlit(".passwd");
    }
    let r = String::from_str(dir).concat("/").concat(user).concat(".passwd");
    assert(r@ =~= user_file(dir@, user@, passwd_suffix()));
    r
}

/// The path of the user's failure-state file.
pub fn fail_path(dir: &str, user: &str) -> (r: String)
    ensures
        r@ == user_file(dir@, user@, fail_suffix()),
{
    proof {
        reveal_strlit("/");
        reveal_strlit(".fail");
    }
    let r = String::from_str(dir).concat("/").concat(user).concat(".fail");
    assert(r@ =~= user_file(dir@, user@, fail_suffix()));
    r
}

/// What the file system says of a directory, not following a final
/// symbolic link.
#[derive(Clone, Copy, Debug, PartialEq, Eq, Structural)]
pub struct DirInfo {
    pub is_symlink: bool,
    pub owner_uid: u32,
    pub mode: u32,
}

/// Why a directory may not serve as the store.
#[derive(Clone, Copy, Debug, PartialEq, Eq, Structural)]
pub enum DirError {
    NotAbsolute,
    Missing,
    Symlink,
    NotRootOwned,
    Writable,
}

/// The first rule a store directory breaks when the program runs
/// privileged: an absolute path to an existing directory, not a symbolic
/// link, owned by uid 0, without group or world write permission. Without
/// privilege any path is taken as given.
pub open spec fn dir_fault(path: Seq<char>, privileged: bool, info: Option<DirInfo>) -> Option<DirError> {
    if !privileged {
        None
    } else if !(path.len() > 0 && path[0] == '/') {
        Some(DirError::NotAbsolute)
    } else {
        match info {
            None => Some(DirError::Missing),
            Some(i) => if i.is_symlink {
                Some(DirError::Symlink)
            } else if i.owner_uid != 0 {
                Some(DirError::NotRootOwned)
            } else if i.mode & 0o022 != 0 {
                Some(DirError::Writable)
            } else {
                None
            },
        }
    }
}

/// Accepts `path` as the store directory, or says which rule it breaks.
pub fn secure_resolve_pin_dir(path: &str, privileged: bool, info: Option<DirInfo>) -> (r: Result<String, DirError>)
    ensures
        match dir_fault(path@, privileged, info) {
            Some(e) => r == Err::<String, DirError>(e),
            None => r matches Ok(p) && p@ == path@,
        },
{
    if privileged {
        let n = path.unicode_len();
        if n == 0 || path.get_char(0) != '/' {
            return Err(DirError::NotAbsolute);
        }
        match info {
            None => {
                return Err(DirError::Missing);
            },
            Some(i) => {
                if i.is_symlink {
                    return Err(DirError::Symlink);
                }
                if i.owner_uid != 0 {
                    return Err(DirError::NotRootOwned);
                }
                if i.mode & 0o022 != 0 {
                    return Err(DirError::Writable);
                }
            },
        }
    }
    Ok(path.to_owned())
}

} // verus!
