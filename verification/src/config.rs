//! The configuration the mount is driven by, and what to do when it cannot be
//! loaded.

use vstd::prelude::*;
use vstd::string::StringExecFns;

verus! {

/// The recognised settings.
#[derive(Clone, Debug, PartialEq, Eq)]
pub struct ConfigData {
    /// The directory that holds the modules.
    pub moduledir: String,
    /// The source name given to the mounts.
    pub mountsource: String,
    pub verbose: bool,
    /// Partitions to look at beyond the built-in ones.
    pub partitions: Vec<String>,
    pub tmpfsdir: Option<String>,
    pub umount: bool,
    /// Whether deferred unmounts are switched off.
    pub disable_umount: bool,
    /// Whether deferred unmounts stay on although a conflicting enforcement
    /// was detected.
    pub allow_umount_coexistence: bool,
}

/// Why a configuration could not be loaded.
#[derive(Clone, Debug, PartialEq, Eq)]
pub struct ConfigError {
    /// Whether the file was simply not there.
    pub not_found: bool,
    pub message: String,
}

/// The module directory used when none is configured.
pub open spec fn default_moduledir_spec() -> Seq<char> {
    "/data/adb/modules/"@
}

/// The mount source used when none is configured.
pub open spec fn default_mountsource_spec() -> Seq<char> {
    "KSU"@
}

/// The path of the configuration file.
pub open spec fn config_file_default() -> Seq<char> {
    "/data/adb/meta-hybrid/config.toml"@
}

/// Whether `c` is the configuration used when none is given.
pub open spec fn is_default_config(c: ConfigData) -> bool {
    &&& c.moduledir@ == default_moduledir_spec()
    &&& c.mountsource@ == default_mountsource_spec()
    &&& !c.verbose
    &&& c.partitions@.len() == 0
    &&& c.tmpfsdir is None
    &&& !c.umount
    &&& !c.disable_umount
    &&& !c.allow_umount_coexistence
}

/// The module directory used when none is configured.
pub fn default_moduledir() -> (r: String)
    ensures
        r@ == default_moduledir_spec(),
{
    "/data/adb/modules/".to_string()
}

/// The mount source used when none is configured.
pub fn default_mountsource() -> (r: String)
    ensures
        r@ == default_mountsource_spec(),
{
    "KSU".to_string()
}

impl Default for ConfigData {
    fn default() -> (c: ConfigData)
        ensures
            is_default_config(c),
    {
        ConfigData {
            moduledir: default_moduledir(),
            mountsource: default_mountsource(),
            verbose: false,
            partitions: Vec::new(),
            tmpfsdir: None,
            umount: false,
            disable_umount: false,
            allow_umount_coexistence: false,
        }
    }
}

/// The message of a load failure that is passed on: where the file was looked
/// for, then the cause.
pub open spec fn load_failure_message(cause: Seq<char>) -> Seq<char> {
    "Failed to load default config from "@ + config_file_default() + ": "@ + cause
}

/// The path of the configuration file.
pub fn config_file_path() -> (r: String)
    ensures
        r@ == config_file_default(),
{
    "/data/adb/meta-hybrid/config.toml".to_string()
}

/// Decides what a load of the configuration file amounts to: the loaded
/// configuration; the default one where the file is not there; any other
/// failure is passed on, with the file's path put before its message.
pub fn load_config(loaded: Result<ConfigData, ConfigError>) -> (r: Result<ConfigData, ConfigError>)
    ensures
        loaded is Ok ==> r == loaded,
        loaded is Err && loaded->Err_0.not_found ==> r is Ok && is_default_config(r->Ok_0),
        loaded is Err && !loaded->Err_0.not_found ==> r is Err && !r->Err_0.not_found
            && r->Err_0.message@ == load_failure_message(loaded->Err_0.message@),
{
    match loaded {
        Ok(config) => Ok(config),
        Err(e) => {
            if e.not_found {
                Ok(ConfigData::default())
            } else {
                let mut message = "Failed to load default config from ".to_string();
                message.append("/data/adb/meta-hybrid/config.toml");
                message.append(": ");
                message.append(e.message.as_str());
                Err(ConfigError { not_found: false, message })
            }
        },
    }
}

/// Switches deferred unmounts off where an enforcement that conflicts with
/// them was detected and the user did not ask for both to coexist.
pub fn apply_umount_policy(config: &mut ConfigData, enforced: bool)
    ensures
        final(config).disable_umount == (old(config).disable_umount || (enforced
            && !old(config).allow_umount_coexistence)),
        final(config).moduledir == old(config).moduledir,
        final(config).mountsource == old(config).mountsource,
        final(config).verbose == old(config).verbose,
        final(config).partitions == old(config).partitions,
        final(config).tmpfsdir == old(config).tmpfsdir,
        final(config).umount == old(config).umount,
        final(config).allow_umount_coexistence == old(config).allow_umount_coexistence,
{
    if enforced && !config.allow_umount_coexistence {
        config.disable_umount = true;
    }
}

} // verus!
