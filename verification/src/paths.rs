//! Where the bot keeps its files, below a base directory that the caller
//! chooses (the working directory, for the program).
use vstd::prelude::*;

verus! {

#[verifier::external_type_specification]
#[verifier::external_body]
pub struct ExPathBuf(std::path::PathBuf);

/// What `Path::join` gives for a base path and a further component.
pub uninterp spec fn joined(base: std::path::PathBuf, part: Seq<char>) -> std::path::PathBuf;

/// `std::path::Path::join`: the path `base` with `part` adjoined.  Its
/// result depends on the two arguments alone (with the platform's path
/// separator); nothing more is claimed of it.
#[verifier::external_body]
pub(crate) fn path_join(base: &std::path::PathBuf, part: &str) -> (r: std::path::PathBuf)
    ensures
        r == joined(*base, part@),
{
    base.join(part)
}

/// The configuration file, `<base>/config.json`.
pub fn config_path(base: &std::path::PathBuf) -> (r: std::path::PathBuf)
    ensures
        r == joined(*base, "config.json"@),
{
    path_join(base, "config.json")
}

/// The data directory, `<base>/data`.
pub fn data_dir(base: &std::path::PathBuf) -> (r: std::path::PathBuf)
    ensures
        r == joined(*base, "data"@),
{
    path_join(base, "data")
}

/// A file in the data directory, `<base>/data/<name>`.
pub fn data_path(base: &std::path::PathBuf, name: &str) -> (r: std::path::PathBuf)
    ensures
        r == joined(joined(*base, "data"@), name@),
{
    let dir = data_dir(base);
    path_join(&dir, name)
}

} // verus!
