//! The image file behind the writable root, and the copy of a sparse file.

use vstd::prelude::*;
use crate::text::{contains_str, views};

verus! {

/// How the writable root is provided.
#[derive(Clone, Copy, Debug, PartialEq, Eq, Structural)]
pub enum ImgMode {
    Tmpfs,
    Ext4,
    Erofs,
}

/// The name of a mode, as it stands in the state record.
pub open spec fn mode_name(mode: ImgMode) -> Seq<char> {
    match mode {
        ImgMode::Tmpfs => "tmpfs"@,
        ImgMode::Ext4 => "ext4"@,
        ImgMode::Erofs => "erofs"@,
    }
}

impl ImgMode {
    /// The name of the mode.
    pub fn name(&self) -> (r: String)
        ensures
            r@ == mode_name(*self),
    {
        match self {
            ImgMode::Tmpfs => "tmpfs".to_string(),
            ImgMode::Ext4 => "ext4".to_string(),
            ImgMode::Erofs => "erofs".to_string(),
        }
    }
}

/// Where the image is mounted for writing.
pub open spec fn system_rw_dir() -> Seq<char> {
    "/data/adb/meta-hybrid/rw"@
}

/// The label of the directory the image is mounted at.
pub open spec fn rw_dir_context() -> Seq<char> {
    "u:object_r:ksu_file:sp"@
}

/// Where the image is mounted for writing.
pub fn system_rw_dir_path() -> (r: String)
    ensures
        r@ == system_rw_dir(),
{
    "/data/adb/meta-hybrid/rw".to_string()
}

/// The label of the directory the image is mounted at.
pub fn rw_dir_context_name() -> (r: String)
    ensures
        r@ == rw_dir_context(),
{
    "u:object_r:ksu_file:sp".to_string()
}

/// What is to be done to have the image in place.
#[derive(Clone, Copy, Debug, PartialEq, Eq, Structural)]
pub enum ImgAction {
    /// The image is there and nothing is mounted at its directory.
    Nothing,
    /// The image is there: label the directory and mount the image on it.
    LabelAndMount,
    /// The image is not there: make it by a sparse copy.
    CopySparse,
}

/// An image file.
#[derive(Clone, Debug, PartialEq, Eq)]
pub struct Img {
    path: String,
}

impl Img {
    /// The path of the image file.
    pub closed spec fn spec_path(&self) -> Seq<char> {
        self.path@
    }

    /// The image at `path`.
    pub fn new(path: &str) -> (r: Self)
        ensures
            r.spec_path() == path@,
    {
        Self { path: path.to_string() }
    }

    /// The path of the image file.
    pub fn path(&self) -> (r: &str)
        ensures
            r@ == self.spec_path(),
    {
        self.path.as_str()
    }

    /// Decides how the image comes into place, from whether the file exists
    /// and from the mount points of this process.
    pub fn create(&self, present: bool, mount_points: &Vec<String>) -> (r: ImgAction)
        ensures
            r == if !present {
                ImgAction::CopySparse
            } else if views(mount_points@).contains(system_rw_dir()) {
                ImgAction::LabelAndMount
            } else {
                ImgAction::Nothing
            },
    {
        if !present {
            ImgAction::CopySparse
        } else if contains_str(mount_points, "/data/adb/meta-hybrid/rw") {
            ImgAction::LabelAndMount
        } else {
            ImgAction::Nothing
        }
    }
}

} // verus!
