//! The navigation state machine: the current directory, the selection index,
//! and one transition per recognized keystroke. The selection is clamped to
//! the current listing after every transition; descending resets it, and
//! ascending restores it to the directory that was just left.
use vstd::prelude::*;
use crate::entry::{Entry, EntryKind, EntryView, entry_wf, views_of};
use crate::path::{base_name, is_abs, is_normal_path, last_component, lemma_join_parts,
    lemma_parent_abs, lemma_parent_of_root, parent_dir, parent_of, root_path};

verus! {

/// What one input byte asks for: `q` quits, `j` and `k` move the selection,
/// `l` descends into the selected entry, `h` ascends; everything else is
/// silently ignored.
#[derive(Clone, Copy, PartialEq, Eq, Structural, Debug)]
pub enum Command {
    Quit,
    MoveDown,
    MoveUp,
    Descend,
    Ascend,
    Ignore,
}

pub open spec fn spec_command_of(byte: u8) -> Command {
    if byte == 113 {
        Command::Quit
    } else if byte == 106 {
        Command::MoveDown
    } else if byte == 107 {
        Command::MoveUp
    } else if byte == 108 {
        Command::Descend
    } else if byte == 104 {
        Command::Ascend
    } else {
        Command::Ignore
    }
}

/// Decodes one input byte into its command.
pub fn command_of(byte: u8) -> (c: Command)
    ensures
        c == spec_command_of(byte),
{
    if byte == 113 {
        Command::Quit
    } else if byte == 106 {
        Command::MoveDown
    } else if byte == 107 {
        Command::MoveUp
    } else if byte == 108 {
        Command::Descend
    } else if byte == 104 {
        Command::Ascend
    } else {
        Command::Ignore
    }
}

/// The selection one step down, clamped to the end of a listing of `len`
/// entries; an empty listing pins it at 0.
pub open spec fn spec_move_down(i: nat, len: nat) -> nat {
    if len == 0 {
        0
    } else if i + 1 >= len {
        (len - 1) as nat
    } else {
        i + 1
    }
}

/// The selection one step up, clamped at 0.
pub open spec fn spec_move_up(i: nat) -> nat {
    if i == 0 {
        0nat
    } else {
        (i - 1) as nat
    }
}

/// The selection forced back into a listing of `len` entries.
pub open spec fn spec_clamp(i: nat, len: nat) -> nat {
    if len == 0 {
        0
    } else if i >= len {
        (len - 1) as nat
    } else {
        i
    }
}

/// The selection a listing of `len` entries allows: anywhere in
/// `[0, len - 1]`, and pinned at 0 when the listing is empty.
pub open spec fn selection_in_bounds(i: nat, len: nat) -> bool {
    if len == 0 {
        i == 0
    } else {
        i < len
    }
}

/// A run of move transitions applied in order: `true` steps down, `false`
/// steps up.
pub open spec fn apply_moves(i: nat, len: nat, moves: Seq<bool>) -> nat
    decreases moves.len(),
{
    if moves.len() == 0 {
        i
    } else {
        apply_moves(
            if moves[0] {
                spec_move_down(i, len)
            } else {
                spec_move_up(i)
            },
            len,
            moves.skip(1),
        )
    }
}

/// Clamping law: from any in-bounds selection, every sequence of down and up
/// moves stays within `[0, max(0, len - 1)]`; moving down at the end or up at
/// the start changes nothing, so repeating either is idempotent.
pub proof fn lemma_moves_stay_clamped(i: nat, len: nat, moves: Seq<bool>)
    requires
        selection_in_bounds(i, len),
    ensures
        selection_in_bounds(apply_moves(i, len, moves), len),
        i + 1 >= len ==> spec_move_down(i, len) == i,
        i == 0 ==> spec_move_up(i) == i,
    decreases moves.len(),
{
    if moves.len() > 0 {
        let next = if moves[0] {
            spec_move_down(i, len)
        } else {
            spec_move_up(i)
        };
        lemma_moves_stay_clamped(next, len, moves.skip(1));
    }
}

/// The first entry whose name is `n`, or 0 when no entry has that name.
pub open spec fn first_name_index(s: Seq<EntryView>, n: Seq<char>) -> int
    decreases s.len(),
{
    if s.len() == 0 {
        0
    } else if s[0].name == n {
        0
    } else if has_name(s.skip(1), n) {
        1 + first_name_index(s.skip(1), n)
    } else {
        0
    }
}

pub open spec fn has_name(s: Seq<EntryView>, n: Seq<char>) -> bool {
    exists|i: int| 0 <= i < s.len() && s[i].name == n
}

proof fn lemma_first_name_index_at(s: Seq<EntryView>, n: Seq<char>, i: int)
    requires
        0 <= i < s.len(),
        s[i].name == n,
        forall|j: int| 0 <= j < i ==> s[j].name != n,
    ensures
        has_name(s, n),
        first_name_index(s, n) == i,
    decreases s.len(),
{
    if i == 0 {
    } else {
        assert(forall|j: int| 0 <= j < i - 1 ==> s.skip(1)[j] == s[j + 1]);
        assert(s.skip(1)[i - 1] == s[i]);
        lemma_first_name_index_at(s.skip(1), n, i - 1);
    }
}

proof fn lemma_first_name_index_none(s: Seq<EntryView>, n: Seq<char>)
    requires
        forall|j: int| 0 <= j < s.len() ==> s[j].name != n,
    ensures
        !has_name(s, n),
        first_name_index(s, n) == 0,
    decreases s.len(),
{
    if s.len() > 0 {
        assert(forall|j: int| 0 <= j < s.skip(1).len() ==> s.skip(1)[j] == s[j + 1]);
        lemma_first_name_index_none(s.skip(1), n);
    }
}

/// Index of the first entry named `name`, or 0 when none is.
pub fn find_name_index(listing: &Vec<Entry>, name: &str) -> (r: usize)
    ensures
        r as int == first_name_index(views_of(listing@), name@),
        r as int <= listing@.len(),
{
    let n = listing.len();
    let mut i: usize = 0;
    while i < n
        invariant
            i <= n,
            n == listing@.len(),
            forall|j: int| 0 <= j < i ==> views_of(listing@)[j].name != name@,
        decreases n - i,
    {
        if crate::order::str_eq(listing[i].name.as_str(), name) {
            proof {
                lemma_first_name_index_at(views_of(listing@), name@, i as int);
            }
            return i;
        }
        i = i + 1;
    }
    proof {
        lemma_first_name_index_none(views_of(listing@), name@);
    }
    0
}

/// The single mutable source of truth: where the browser stands and which
/// entry of the current listing is selected.
pub struct NavigationState {
    pub current_directory: String,
    pub selection_index: usize,
}

impl NavigationState {
    /// A navigation state is kept on an absolute path.
    pub open spec fn wf(&self) -> bool {
        is_abs(self.current_directory@)
    }

    /// Starts browsing at `initial_dir` with the first entry selected.
    pub fn new(initial_dir: String) -> (s: Self)
        requires
            is_abs(initial_dir@),
        ensures
            s.wf(),
            s.current_directory@ == initial_dir@,
            s.selection_index == 0,
    {
        NavigationState { current_directory: initial_dir, selection_index: 0 }
    }

    /// Moves the selection one step down, clamped to a listing of `len`
    /// entries; never wraps.
    pub fn move_down(&mut self, len: usize)
        ensures
            final(self).selection_index as nat == spec_move_down(
                old(self).selection_index as nat,
                len as nat,
            ),
            final(self).current_directory == old(self).current_directory,
    {
        if len == 0 {
            self.selection_index = 0;
        } else if self.selection_index >= len - 1 {
            self.selection_index = len - 1;
        } else {
            self.selection_index = self.selection_index + 1;
        }
    }

    /// Moves the selection one step up, clamped at the first entry; never
    /// wraps.
    pub fn move_up(&mut self)
        ensures
            final(self).selection_index as nat == spec_move_up(old(self).selection_index as nat),
            final(self).current_directory == old(self).current_directory,
    {
        if self.selection_index > 0 {
            self.selection_index = self.selection_index - 1;
        }
    }

    /// Forces the selection back into a freshly recomputed listing of `len`
    /// entries.
    pub fn clamp(&mut self, len: usize)
        ensures
            final(self).selection_index as nat == spec_clamp(
                old(self).selection_index as nat,
                len as nat,
            ),
            final(self).current_directory == old(self).current_directory,
            selection_in_bounds(final(self).selection_index as nat, len as nat),
    {
        if len == 0 {
            self.selection_index = 0;
        } else if self.selection_index >= len {
            self.selection_index = len - 1;
        }
    }

    /// The path to descend into, if the selected entry of the current listing
    /// is a directory; `None` otherwise — descending into anything else is a
    /// no-op.
    pub fn descend_target(&self, listing: &Vec<Entry>) -> (t: Option<String>)
        ensures
            ({
                let vs = views_of(listing@);
                let sel = self.selection_index as int;
                match t {
                    Some(p) => sel < vs.len() && vs[sel].kind == EntryKind::Directory && p@
                        == vs[sel].path,
                    None => !(sel < vs.len() && vs[sel].kind == EntryKind::Directory),
                }
            }),
    {
        if self.selection_index < listing.len() {
            let e = &listing[self.selection_index];
            match e.kind {
                EntryKind::Directory => Some(e.path.clone()),
                _ => None,
            }
        } else {
            None
        }
    }

    /// Enters the directory at `path`: the current directory becomes `path`
    /// and the selection resets to the top.
    pub fn confirm_descend(&mut self, path: String)
        requires
            is_abs(path@),
        ensures
            final(self).wf(),
            final(self).current_directory@ == path@,
            final(self).selection_index == 0,
    {
        self.current_directory = path;
        self.selection_index = 0;
    }

    /// Ascends to the parent directory and restores the selection to the
    /// entry named like the directory just left — the first such entry of
    /// `parent_listing`, or the top when none carries that name. At the
    /// filesystem root the current directory stays the root.
    pub fn ascend(&mut self, parent_listing: &Vec<Entry>)
        requires
            old(self).wf(),
        ensures
            final(self).wf(),
            final(self).current_directory@ == parent_of(old(self).current_directory@),
            final(self).selection_index as int == first_name_index(
                views_of(parent_listing@),
                last_component(old(self).current_directory@),
            ),
    {
        proof {
            lemma_parent_abs(self.current_directory@);
        }
        let name = base_name(self.current_directory.as_str());
        let parent = parent_dir(self.current_directory.as_str());
        self.current_directory = parent;
        self.selection_index = find_name_index(parent_listing, name.as_str());
    }
}

/// Descend-then-ascend restores the selection: an entry selected at index `i`
/// in a listing of `dir` whose name no earlier entry shares is found again at
/// exactly `i` when ascending out of it into the unchanged listing.
pub proof fn lemma_descend_ascend_restores(listing: Seq<EntryView>, i: int, dir: Seq<char>)
    requires
        0 <= i < listing.len(),
        entry_wf(listing[i], dir),
        is_normal_path(dir),
        forall|j: int| 0 <= j < i ==> listing[j].name != listing[i].name,
    ensures
        parent_of(listing[i].path) == dir,
        first_name_index(listing, last_component(listing[i].path)) == i,
{
    lemma_join_parts(dir, listing[i].name);
    lemma_first_name_index_at(listing, listing[i].name, i);
}

/// Root boundary: ascending from the filesystem root leaves the current
/// directory at the root.
pub proof fn lemma_ascend_at_root()
    ensures
        parent_of(root_path()) == root_path(),
{
    lemma_parent_of_root();
}

/// Where the parent pane's listing comes from: nowhere at the filesystem
/// root — the pane stays empty rather than listing above the root — and the
/// parent directory everywhere else.
pub fn parent_pane_source(current: &str) -> (r: Option<String>)
    ensures
        current@ == root_path() ==> r is None,
        current@ != root_path() ==> (r matches Some(p) && p@ == parent_of(current@)),
{
    if crate::path::is_root(current) {
        None
    } else {
        Some(parent_dir(current))
    }
}

/// The entry the selection rests on, if the selection is in range.
pub fn selected_entry<'a>(listing: &'a Vec<Entry>, index: usize) -> (r: Option<&'a Entry>)
    ensures
        match r {
            Some(e) => index < listing@.len() && *e == listing@[index as int],
            None => index >= listing@.len(),
        },
{
    if index < listing.len() {
        Some(&listing[index])
    } else {
        None
    }
}

} // verus!
