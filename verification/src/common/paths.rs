//! Where the program keeps its files. Paths are text with `/` between their
//! parts.
use crate::text;
use vstd::prelude::*;
use vstd::string::StringExecFns;

verus! {

/// The name of the configuration file.
pub const CONFIG_FILE: &'static str = "config.toml";

/// The path of `name` in the directory `base`.
pub open spec fn joined_path(base: Seq<char>, name: Seq<char>) -> Seq<char> {
    if base.len() == 0 {
        name
    } else if base.last() == '/' {
        base + name
    } else {
        base.push('/') + name
    }
}

/// The path of `name` in the directory `base`.
pub fn join_path(base: &str, name: &str) -> (r: String)
    ensures
        r@ == joined_path(base@, name@),
{
    let cs = text::chars_of(base);
    let mut path = base.to_owned();
    if cs.len() > 0 && cs[cs.len() - 1] != '/' {
        path.push('/');
    }
    path.append(name);
    assert(base@.len() == 0 ==> path@ =~= name@);
    path
}

/// The configuration file in the configuration directory.
pub fn config_path(config_dir: &str) -> (r: String)
    ensures
        r@ == joined_path(config_dir@, CONFIG_FILE@),
{
    join_path(config_dir, CONFIG_FILE)
}

/// The file that holds the process id of the running daemon.
pub fn pid_path(data_dir: &str) -> (r: String)
    ensures
        r@ == joined_path(data_dir@, "daemon.pid"@),
{
    join_path(data_dir, "daemon.pid")
}

/// The daemon's log file.
pub fn log_path(data_dir: &str) -> (r: String)
    ensures
        r@ == joined_path(data_dir@, "daemon.log"@),
{
    join_path(data_dir, "daemon.log")
}

/// Default model installation directory.
pub open spec fn model_dir(data_dir: Seq<char>) -> Seq<char> {
    joined_path(joined_path(data_dir, "models"@), "sensevoice-small"@)
}

/// Default model installation directory.
pub fn default_model_dir(data_dir: &str) -> (r: String)
    ensures
        r@ == model_dir(data_dir@),
{
    let models = join_path(data_dir, "models");
    join_path(models.as_str(), "sensevoice-small")
}

// ── Laws ─────────────────────────────────────────────────────────────────────

/// A path in a directory is the directory's, the name, and a slash between them
/// where the directory's does not end in one; without a directory it is the name.
pub proof fn law_parts_of_a_path(base: Seq<char>, name: Seq<char>)
    ensures
        base.len() == 0 ==> joined_path(base, name) == name,
        base.len() > 0 && base[base.len() - 1] == '/' ==> joined_path(base, name) == base + name,
        base.len() > 0 && base[base.len() - 1] != '/' ==> joined_path(base, name) == base + seq!['/']
            + name,
{
    assert(base.push('/') =~= base + seq!['/']);
}

/// The model's directory is two directories down from that of the program's
/// data.
pub proof fn law_place_of_the_model(data_dir: Seq<char>)
    requires
        data_dir.len() > 0,
        data_dir[data_dir.len() - 1] != '/',
    ensures
        model_dir(data_dir) == data_dir + "/models/sensevoice-small"@,
{
    reveal_strlit("models");
    reveal_strlit("sensevoice-small");
    reveal_strlit("/models/sensevoice-small");
    assert(model_dir(data_dir) =~= data_dir + "/models/sensevoice-small"@);
}

}
