//! Names and values that the parts of the library agree on.

use vstd::prelude::*;

verus! {

/// Marker file: the module is switched off.
pub open spec fn disable_file_name() -> Seq<char> {
    "disable"@
}

/// Marker file: the module is to be removed.
pub open spec fn remove_file_name() -> Seq<char> {
    "remove"@
}

/// Marker file: the module is not to be mounted.
pub open spec fn skip_mount_file_name() -> Seq<char> {
    "skip_mount"@
}

/// Marker file: the module asks for magic mount.
pub open spec fn magic_mount_file_name() -> Seq<char> {
    ".magic_mount"@
}

/// Marker file: the module asks for an overlay mount.
pub open spec fn overlayfs_file_name() -> Seq<char> {
    ".overlayfs"@
}

/// Sentinel file of a directory that replaces the one beneath it.
pub open spec fn replace_dir_file_name() -> Seq<char> {
    ".replace"@
}

/// The partitions every module may touch, `system` first.
pub open spec fn builtin_partitions() -> Seq<Seq<char>> {
    seq!["system"@, "vendor"@, "system_ext"@, "product"@, "odm"@]
}

/// The built-in partitions as strings.
pub fn builtin_partition_names() -> (r: Vec<String>)
    ensures
        crate::text::views(r@) == builtin_partitions(),
{
    let mut r: Vec<String> = Vec::new();
    r.push("system".to_string());
    r.push("vendor".to_string());
    r.push("system_ext".to_string());
    r.push("product".to_string());
    r.push("odm".to_string());
    proof {
        assert(crate::text::views(r@) =~= builtin_partitions());
    }
    r
}

/// Where the writable root is mounted unless configured otherwise.
pub open spec fn fallback_content_dir() -> Seq<char> {
    "/data/adb/meta-hybrid/mnt"@
}

/// The image that backs the writable root where tmpfs will not do.
pub open spec fn modules_image() -> Seq<char> {
    "/data/adb/meta-hybrid/modules.img"@
}

/// The file that holds the record of the last run.
pub open spec fn state_file() -> Seq<char> {
    "/data/adb/meta-hybrid/run/state.json"@
}

/// The file that holds the user's mode map.
pub open spec fn module_mode_file() -> Seq<char> {
    "/data/adb/meta-hybrid/module_mode.json"@
}

/// Where the writable root is mounted unless configured otherwise.
pub fn fallback_content_dir_path() -> (r: String)
    ensures
        r@ == fallback_content_dir(),
{
    "/data/adb/meta-hybrid/mnt".to_string()
}

/// The image that backs the writable root where tmpfs will not do.
pub fn modules_image_path() -> (r: String)
    ensures
        r@ == modules_image(),
{
    "/data/adb/meta-hybrid/modules.img".to_string()
}

/// The file that holds the record of the last run.
pub fn state_file_path() -> (r: String)
    ensures
        r@ == state_file(),
{
    "/data/adb/meta-hybrid/run/state.json".to_string()
}

/// The file that holds the user's mode map.
pub fn module_mode_file_path() -> (r: String)
    ensures
        r@ == module_mode_file(),
{
    "/data/adb/meta-hybrid/module_mode.json".to_string()
}

} // verus!
