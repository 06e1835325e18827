//! Decisions for the file dialogs: the save dialog's default file name, and
//! which directory a dialog is asked to open in. The dialogs themselves are
//! the host's; these functions decide what they are given.

use vstd::prelude::*;
use vstd::string::StrSliceExecFns;
use vstd::string::StringExecFns;
use crate::text::{trim_spec, trim};
use crate::paths::{join_path_spec, resolve_project_path, parent_path_spec, parent_path};

verus! {

/// What the filesystem reports a path to be.
#[derive(Clone, Copy, PartialEq, Eq, Structural, Debug)]
pub enum PathKind {
    Missing,
    File,
    Directory,
}

/// The view of an optional string.
pub open spec fn opt_str_view(o: Option<String>) -> Option<Seq<char>> {
    match o {
        Option::Some(s) => Option::Some(s@),
        Option::None => Option::None,
    }
}

/// The save dialog's file name: the preferred name trimmed, or the fixed
/// default where none usable was given.
pub open spec fn save_file_name_spec(name: Option<Seq<char>>) -> Seq<char> {
    match name {
        Option::Some(n) => if trim_spec(n).len() > 0 {
            trim_spec(n)
        } else {
            "project.storeshot.json"@
        },
        Option::None => "project.storeshot.json"@,
    }
}

pub fn default_save_file_name(name: Option<String>) -> (r: String)
    ensures
        r@ == save_file_name_spec(opt_str_view(name)),
{
    match name {
        Option::Some(n) => {
            let t = trim(n.as_str());
            if t.unicode_len() > 0 {
                t
            } else {
                String::from_str("project.storeshot.json")
            }
        },
        Option::None => String::from_str("project.storeshot.json"),
    }
}

/// The directory a dialog is asked to open in, before the filesystem is
/// consulted: the preferred directory trimmed and resolved against the
/// project root, or nothing where no usable preference was given.
pub open spec fn dialog_candidate_spec(root: Seq<char>, preferred: Option<Seq<char>>) -> Option<
    Seq<char>,
> {
    match preferred {
        Option::Some(raw) => if trim_spec(raw).len() > 0 {
            Option::Some(join_path_spec(root, trim_spec(raw)))
        } else {
            Option::None
        },
        Option::None => Option::None,
    }
}

pub fn dialog_candidate(root: &str, preferred_dir: Option<String>) -> (r: Option<String>)
    ensures
        match dialog_candidate_spec(root@, opt_str_view(preferred_dir)) {
            Option::Some(c) => r matches Some(t) && t@ == c,
            Option::None => r is None,
        },
{
    match preferred_dir {
        Option::Some(raw) => {
            let t = trim(raw.as_str());
            if t.unicode_len() > 0 {
                Option::Some(resolve_project_path(root, t.as_str()))
            } else {
                Option::None
            }
        },
        Option::None => Option::None,
    }
}

/// The directory a dialog opens in, given what the filesystem reports of the
/// candidate and of its parent: the candidate where it is a directory; its
/// parent where the candidate is a file and the parent a directory; nothing
/// otherwise.
pub open spec fn dialog_directory_spec(
    root: Seq<char>,
    preferred: Option<Seq<char>>,
    candidate_kind: PathKind,
    parent_kind: PathKind,
) -> Option<Seq<char>> {
    match dialog_candidate_spec(root, preferred) {
        Option::None => Option::None,
        Option::Some(c) => match candidate_kind {
            PathKind::Directory => Option::Some(c),
            PathKind::Missing => Option::None,
            PathKind::File => match parent_path_spec(c) {
                Option::Some(p) => if parent_kind is Directory {
                    Option::Some(p)
                } else {
                    Option::None
                },
                Option::None => Option::None,
            },
        },
    }
}

/// Decides where a dialog opens. The two kinds are what the filesystem
/// reports of the resolved candidate directory and of its parent; they are
/// ignored where no candidate exists.
pub fn resolve_dialog_directory(
    root: &str,
    preferred_dir: Option<String>,
    candidate_kind: PathKind,
    parent_kind: PathKind,
) -> (r: Option<String>)
    ensures
        match dialog_directory_spec(
            root@,
            opt_str_view(preferred_dir),
            candidate_kind,
            parent_kind,
        ) {
            Option::Some(d) => r matches Some(t) && t@ == d,
            Option::None => r is None,
        },
{
    match dialog_candidate(root, preferred_dir) {
        Option::None => Option::None,
        Option::Some(c) => match candidate_kind {
            PathKind::Directory => Option::Some(c),
            PathKind::Missing => Option::None,
            PathKind::File => match parent_path(c.as_str()) {
                Option::Some(p) => {
                    if matches!(parent_kind, PathKind::Directory) {
                        Option::Some(p)
                    } else {
                        Option::None
                    }
                },
                Option::None => Option::None,
            },
        },
    }
}

} // verus!
