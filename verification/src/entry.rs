//! One filesystem child as the browser sees it: a display name, a visual
//! kind, and the absolute path it was listed under.
use vstd::prelude::*;
use crate::path::{has_slash, join};

verus! {

/// Visual category of an entry. A symlink is reported as a symlink even when
/// it points at a directory: the link-ness takes precedence.
#[derive(Clone, Copy, PartialEq, Eq, Structural, Debug)]
pub enum EntryKind {
    Directory,
    Symlink,
    Regular,
}

/// One directory child: `name` is the final path component, `path` the
/// absolute path `name` joined below the listed directory.
pub struct Entry {
    pub name: String,
    pub kind: EntryKind,
    pub path: String,
}

/// The mathematical value of an [`Entry`].
pub ghost struct EntryView {
    pub name: Seq<char>,
    pub kind: EntryKind,
    pub path: Seq<char>,
}

impl View for Entry {
    type V = EntryView;

    open spec fn view(&self) -> EntryView {
        EntryView { name: self.name@, kind: self.kind, path: self.path@ }
    }
}

/// The views of a run of entries.
pub open spec fn views_of(s: Seq<Entry>) -> Seq<EntryView> {
    s.map_values(|e: Entry| e@)
}

/// A well-formed entry of directory `dir`: a non-empty, slash-free name,
/// with the path derived from it.
pub open spec fn entry_wf(e: EntryView, dir: Seq<char>) -> bool {
    &&& e.name.len() > 0
    &&& !has_slash(e.name)
    &&& e.path == join(dir, e.name)
}

/// The kind an entry is shown as: symlink first, then directory, else a
/// regular file.
pub open spec fn spec_classify(is_symlink: bool, is_dir: bool) -> EntryKind {
    if is_symlink {
        EntryKind::Symlink
    } else if is_dir {
        EntryKind::Directory
    } else {
        EntryKind::Regular
    }
}

/// Classifies an entry from what the filesystem reported of it. Symlink-ness
/// is checked before directory-ness, so a symlink to a directory stays a
/// symlink.
pub fn classify(is_symlink: bool, is_dir: bool) -> (k: EntryKind)
    ensures
        k == spec_classify(is_symlink, is_dir),
{
    if is_symlink {
        EntryKind::Symlink
    } else if is_dir {
        EntryKind::Directory
    } else {
        EntryKind::Regular
    }
}

} // verus!
