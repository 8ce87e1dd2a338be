//! Where prmn keeps its files: the per-user base directories (from the
//! `dirs` crate) and the layout below them.

use vstd::prelude::*;
use crate::text::{join_path, path_join};

verus! {

/// The directory name prmn uses below the user's base directories.
pub open spec fn app_name() -> Seq<char> {
    "prmn"@
}

/// Which per-user base directory to use.
pub enum BaseDir {
    /// `dirs::config_dir` (`$XDG_CONFIG_HOME` or `$HOME/.config`).
    Config,
    /// `dirs::data_dir` (`$XDG_DATA_HOME` or `$HOME/.local/share`).
    Data,
}

/// `dirs::config_dir` as a string; a path that is not valid UTF-8 comes
/// back as `None`, as no string holds it. It reads the environment, so
/// nothing is claimed of the result.
#[verifier::external_body]
fn user_config_dir() -> (r: Option<String>) {
    match dirs::config_dir() {
        Some(p) => p.into_os_string().into_string().ok(),
        None => None,
    }
}

/// `dirs::data_dir` as a string; a path that is not valid UTF-8 comes
/// back as `None`, as no string holds it. It reads the environment, so
/// nothing is claimed of the result.
#[verifier::external_body]
fn user_data_dir() -> (r: Option<String>) {
    match dirs::data_dir() {
        Some(p) => p.into_os_string().into_string().ok(),
        None => None,
    }
}

/// prmn's own directory below the base directory `base`.
pub fn app_dir(base: &str) -> (r: String)
    ensures
        r@ == join_path(base@, app_name()),
{
    path_join(base, "prmn")
}

/// prmn's directory below the chosen per-user base directory, or `None`
/// where the platform reports no such directory (or one whose path is not
/// valid UTF-8).
pub fn get_dir(which: BaseDir) -> (r: Option<String>)
    ensures
        r matches Some(s) ==> exists|b: Seq<char>| s@ == join_path(b, app_name()),
{
    let base = match which {
        BaseDir::Config => user_config_dir(),
        BaseDir::Data => user_data_dir(),
    };
    match base {
        Some(b) => Some(app_dir(b.as_str())),
        None => None,
    }
}

/// The configuration file inside prmn's configuration directory.
pub fn config_file(config_dir: &str) -> (r: String)
    ensures
        r@ == join_path(config_dir@, "data.ron"@),
{
    path_join(config_dir, "data.ron")
}

/// The directory of project-type scripts inside prmn's configuration directory.
pub fn types_dir_in(config_dir: &str) -> (r: String)
    ensures
        r@ == join_path(config_dir@, "types"@),
{
    path_join(config_dir, "types")
}

/// The file that remembers the last opened project, inside prmn's data directory.
pub fn last_file(data_dir: &str) -> (r: String)
    ensures
        r@ == join_path(data_dir@, "last"@),
{
    path_join(data_dir, "last")
}

} // verus!
