//! The file explorer: which entries of the workspace are shown, and which one is selected.

use vstd::prelude::*;

use crate::ignore;
use crate::ignore::IgnoreError;
use crate::ignore::IgnoreRules;
use crate::ignore::RulesModel;
use crate::path;
use crate::path::FsPath;
use crate::path::PathModel;
use crate::text;

verus! {

/// What an entry is shown as.
#[derive(Clone, Copy, Debug, PartialEq, Eq, Structural)]
pub enum TreeEntryKind {
    Directory,
    File,
}

/// What an entry of a directory is by itself, without following links.
#[derive(Debug)]
pub enum EntryType {
    Directory,
    Other,
    /// The type cannot be told; why not.
    Unknown(String),
}

/// The entries of a directory, in the order in which the disk gives them, or why they are
/// not known.
pub type Listing = Result<Vec<DiskEntry>, String>;

/// An entry of a directory on disk.
#[derive(Debug)]
pub struct DiskEntry {
    pub name: Vec<u8>,
    pub entry_type: EntryType,
    /// Whether the entry is a directory or a link to one.
    pub leads_to_dir: bool,
    /// Whether the entry is a file or a link to one.
    pub leads_to_file: bool,
    /// The entries inside.
    pub listing: Listing,
}

/// A row of the explorer.
#[verifier::ext_equal]
pub struct EntryModel {
    pub path: PathModel,
    pub name: Seq<char>,
    pub depth: nat,
    pub kind: TreeEntryKind,
    pub expanded: bool,
}

/// A row of the explorer.
#[derive(Debug)]
pub struct VisibleEntry {
    pub path: FsPath,
    pub name: String,
    pub depth: usize,
    pub kind: TreeEntryKind,
    pub expanded: bool,
}

impl View for VisibleEntry {
    type V = EntryModel;

    open spec fn view(&self) -> EntryModel {
        EntryModel {
            path: self.path@,
            name: self.name@,
            depth: self.depth as nat,
            kind: self.kind,
            expanded: self.expanded,
        }
    }
}

impl Clone for VisibleEntry {
    fn clone(&self) -> (r: Self)
        ensures
            r@ == self@,
    {
        VisibleEntry {
            path: self.path.clone(),
            name: self.name.clone(),
            depth: self.depth,
            kind: self.kind,
            expanded: self.expanded,
        }
    }
}

/// The models of several rows.
pub open spec fn entry_views(v: Seq<VisibleEntry>) -> Seq<EntryModel> {
    v.map_values(|e: VisibleEntry| e@)
}

/// Why the explorer cannot be brought up to date.
#[verifier::ext_equal]
pub enum TreeFault {
    Listing { dir: PathModel, reason: Seq<char> },
    EntryType { path: PathModel, reason: Seq<char> },
}

/// Why an operation of the explorer failed.
#[derive(Debug)]
pub enum TreeError {
    /// A directory cannot be read.
    Listing { dir: FsPath, reason: String },
    /// The type of an entry cannot be told.
    EntryType { path: FsPath, reason: String },
    /// An entry cannot be written into the ignore file.
    Ignore(IgnoreError),
}

impl TreeError {
    /// Whether the error tells of the fault.
    pub open spec fn tells(self, fault: TreeFault) -> bool {
        match self {
            TreeError::Listing { dir, reason } => fault == (TreeFault::Listing {
                dir: dir@,
                reason: reason@,
            }),
            TreeError::EntryType { path, reason } => fault == (TreeFault::EntryType {
                path: path@,
                reason: reason@,
            }),
            TreeError::Ignore(_) => false,
        }
    }

    /// What to tell the user.
    pub fn message(&self) -> (r: String)
        ensures
            match *self {
                TreeError::Listing { dir, reason } => r@ == "failed to read "@ + dir@.text() + ": "@
                    + reason@,
                TreeError::EntryType { path, reason } => r@ == reason@,
                TreeError::Ignore(IgnoreError::Outside { path, root }) => r@ == path@.text()
                    + " is outside "@ + root@.text(),
                TreeError::Ignore(IgnoreError::WorkspaceRoot) => r@
                    == "cannot ignore the workspace root itself"@,
            },
    {
        match self {
            TreeError::Listing { dir, reason } => {
                let mut message: String = "failed to read ".to_owned();
                message.append(dir.to_text().as_str());
                message.append(": ");
                message.append(reason.as_str());
                message
            },
            TreeError::EntryType { reason, .. } => reason.clone(),
            TreeError::Ignore(error) => error.message(),
        }
    }
}

/// Whether one name comes before another, byte by byte.
pub open spec fn name_before(a: Seq<u8>, b: Seq<u8>) -> bool
    decreases b.len(),
{
    if b.len() == 0 {
        false
    } else if a.len() == 0 {
        true
    } else if a[0] != b[0] {
        a[0] < b[0]
    } else {
        name_before(a.skip(1), b.skip(1))
    }
}

/// Whether one entry is shown before another: directories come first, then names decide.
pub open spec fn entry_before(a: DiskEntry, b: DiskEntry) -> bool {
    if a.leads_to_dir != b.leads_to_dir {
        a.leads_to_dir
    } else {
        name_before(a.name@, b.name@)
    }
}

/// The names that are never shown.
pub open spec fn is_builtin_name(name: Seq<u8>) -> bool {
    name == vstd::utf8::encode_utf8(".git"@) || name == vstd::utf8::encode_utf8(".debth"@) || name
        == vstd::utf8::encode_utf8("target"@)
}

/// Whether an entry of `dir` is left out.
pub open spec fn is_hidden_entry(rules: RulesModel, dir: PathModel, entry: DiskEntry) -> bool {
    is_builtin_name(entry.name@) || rules.ignores(dir.child(entry.name@), entry.leads_to_dir)
}

/// Puts entry `i` behind all entries of `order` that it does not come before.
pub open spec fn placed(entries: Seq<DiskEntry>, order: Seq<int>, i: int) -> Seq<int>
    decreases order.len(),
{
    if order.len() > 0 && entry_before(entries[i], entries[order.last()]) {
        placed(entries, order.drop_last(), i).push(order.last())
    } else {
        order.push(i)
    }
}

/// The indices of the first `n` entries that are not left out, in the order in which they
/// are shown.
pub open spec fn shown_order(
    rules: RulesModel,
    dir: PathModel,
    entries: Seq<DiskEntry>,
    n: nat,
) -> Seq<int>
    decreases n,
{
    if n == 0 {
        Seq::empty()
    } else {
        let before = shown_order(rules, dir, entries, (n - 1) as nat);
        if is_hidden_entry(rules, dir, entries[n - 1]) {
            before
        } else {
            placed(entries, before, n - 1)
        }
    }
}

/// Rows of the explorer, and what stopped them.
#[verifier::ext_equal]
pub struct Walk {
    pub rows: Seq<EntryModel>,
    pub fault: Option<TreeFault>,
}

/// The row for an entry of `dir`.
pub open spec fn row_for(
    expanded: Set<PathModel>,
    dir: PathModel,
    depth: nat,
    entry: DiskEntry,
) -> EntryModel {
    let is_dir = entry.entry_type is Directory;
    EntryModel {
        path: dir.child(entry.name@),
        name: path::lossy(entry.name@),
        depth,
        kind: if is_dir {
            TreeEntryKind::Directory
        } else {
            TreeEntryKind::File
        },
        expanded: is_dir && expanded.contains(dir.child(entry.name@)),
    }
}

/// The rows for the entries of a directory, each expanded directory followed by its own.
pub open spec fn walk_dir(
    rules: RulesModel,
    expanded: Set<PathModel>,
    dir: PathModel,
    depth: nat,
    listing: Listing,
) -> Walk
    decreases listing, 0nat,
{
    match listing {
        Err(reason) => Walk {
            rows: Seq::empty(),
            fault: Some(TreeFault::Listing { dir, reason: reason@ }),
        },
        Ok(entries) => {
            let order = shown_order(rules, dir, entries@, entries@.len());
            walk_entries(rules, expanded, dir, depth, entries@, order, order.len())
        },
    }
}

/// The rows for the first `n` entries of `order`.
pub open spec fn walk_entries(
    rules: RulesModel,
    expanded: Set<PathModel>,
    dir: PathModel,
    depth: nat,
    entries: Seq<DiskEntry>,
    order: Seq<int>,
    n: nat,
) -> Walk
    decreases entries, n,
{
    if n == 0 || n > order.len() {
        Walk { rows: Seq::empty(), fault: None }
    } else {
        let before = walk_entries(rules, expanded, dir, depth, entries, order, (n - 1) as nat);
        let j = order[n - 1];
        if before.fault is Some || !(0 <= j < entries.len()) {
            before
        } else {
            let entry = entries[j];
            let row = row_for(expanded, dir, depth, entry);
            match entry.entry_type {
                EntryType::Unknown(reason) => Walk {
                    rows: before.rows,
                    fault: Some(TreeFault::EntryType { path: row.path, reason: reason@ }),
                },
                _ => if row.expanded {
                    let inside = walk_dir(rules, expanded, row.path, depth + 1, entry.listing);
                    Walk { rows: before.rows.push(row) + inside.rows, fault: inside.fault }
                } else {
                    Walk { rows: before.rows.push(row), fault: None }
                },
            }
        }
    }
}

/// The files below a directory that are not left out, in the order of the listing.
pub open spec fn files_below(
    rules: RulesModel,
    dir: PathModel,
    listing: Listing,
) -> Seq<PathModel>
    decreases listing, 0nat,
{
    match listing {
        Err(_) => Seq::empty(),
        Ok(entries) => files_of_entries(rules, dir, entries@, entries@.len()),
    }
}

/// The files of the first `n` entries.
pub open spec fn files_of_entries(
    rules: RulesModel,
    dir: PathModel,
    entries: Seq<DiskEntry>,
    n: nat,
) -> Seq<PathModel>
    decreases entries, n,
{
    if n == 0 || n > entries.len() {
        Seq::empty()
    } else {
        let before = files_of_entries(rules, dir, entries, (n - 1) as nat);
        let entry = entries[n - 1];
        let path = dir.child(entry.name@);
        if is_hidden_entry(rules, dir, entry) {
            before
        } else if entry.leads_to_dir {
            before + files_below(rules, path, entry.listing)
        } else if entry.leads_to_file {
            before.push(path)
        } else {
            before
        }
    }
}

/// The state of the explorer.
#[verifier::ext_equal]
pub struct TreeModel {
    pub root: PathModel,
    pub rules: RulesModel,
    pub expanded: Set<PathModel>,
    pub visible: Seq<EntryModel>,
    pub selected: nat,
}

/// The index of the first row with this path; the number of rows if there is none.
pub open spec fn row_index(rows: Seq<EntryModel>, path: PathModel) -> nat
    decreases rows.len(),
{
    if rows.len() == 0 || rows[0].path == path {
        0
    } else {
        1 + row_index(rows.skip(1), path)
    }
}

impl TreeModel {
    /// The selected row, if there is one.
    pub open spec fn selected_entry(self) -> Option<EntryModel> {
        if self.selected < self.visible.len() {
            Some(self.visible[self.selected as int])
        } else {
            None
        }
    }

    /// Whether a row is selected wherever there is one.
    pub open spec fn in_range(self) -> bool {
        self.selected < self.visible.len() || (self.visible.len() == 0 && self.selected == 0)
    }

    /// The explorer with the row above selected.
    pub open spec fn up(self) -> TreeModel {
        TreeModel {
            selected: if self.selected == 0 {
                0
            } else {
                (self.selected - 1) as nat
            },
            ..self
        }
    }

    /// The explorer with the row below selected.
    pub open spec fn down(self) -> TreeModel {
        TreeModel {
            selected: if self.visible.len() == 0 {
                self.selected
            } else if self.selected + 1 < self.visible.len() {
                self.selected + 1
            } else {
                (self.visible.len() - 1) as nat
            },
            ..self
        }
    }

    /// The line of the ignore file that leaves out the selected entry.
    pub open spec fn ignore_line(self) -> Seq<char> {
        let entry = self.selected_entry()->0;
        ignore::pattern_line(
            ignore::relative_text(entry.path.below(self.root))->0,
            entry.kind == TreeEntryKind::Directory,
        )
    }

    /// The rows that the disk gives.
    pub open spec fn walk(self, content: Seq<char>, listing: Listing) -> Walk {
        walk_dir(
            RulesModel { root: self.root, patterns: ignore::parse_text(content) },
            self.expanded,
            self.root,
            0,
            listing,
        )
    }

    /// The explorer brought up to date with an ignore file and a listing. The selected row
    /// stays selected as long as it is shown; else the selection stays where it is, or moves
    /// up to the last row. Where the listing has a fault, the rows before it are all there
    /// is, and the selection is left alone.
    pub open spec fn refreshed(self, content: Seq<char>, listing: Listing) -> TreeModel {
        let walk = self.walk(content, listing);
        let rows = walk.rows;
        TreeModel {
            rules: RulesModel { root: self.root, patterns: ignore::parse_text(content) },
            visible: rows,
            selected: if walk.fault is Some {
                self.selected
            } else if self.selected_entry() is Some && row_index(
                rows,
                self.selected_entry()->0.path,
            ) < rows.len() {
                row_index(rows, self.selected_entry()->0.path)
            } else if self.selected < rows.len() {
                self.selected
            } else if rows.len() == 0 {
                0
            } else {
                (rows.len() - 1) as nat
            },
            ..self
        }
    }

    /// The explorer with the selected directory expanded, or collapsed if it is expanded.
    pub open spec fn turned(self) -> TreeModel {
        let entry = self.selected_entry()->0;
        self.with_expanded(
            if entry.expanded {
                self.expanded.remove(entry.path)
            } else {
                self.expanded.insert(entry.path)
            },
        )
    }

    /// The explorer with the directory around the selected entry selected, where that has a
    /// row.
    pub open spec fn at_parent(self) -> TreeModel {
        let around = self.selected_entry()->0.path.parent();
        if around is Some && around->0 != self.root && row_index(self.visible, around->0)
            < self.visible.len() {
            TreeModel { selected: row_index(self.visible, around->0), ..self }
        } else {
            self
        }
    }

    /// The explorer with another set of expanded directories.
    pub open spec fn with_expanded(self, expanded: Set<PathModel>) -> TreeModel {
        TreeModel { expanded, ..self }
    }
}

/// The explorer of the workspace at `root` before anything has been read, with nothing but
/// the root expanded.
pub open spec fn fresh_tree(root: PathModel) -> TreeModel {
    TreeModel {
        root,
        rules: RulesModel { root, patterns: Seq::empty() },
        expanded: set![root],
        visible: Seq::empty(),
        selected: 0,
    }
}

fn name_precedes(a: &[u8], b: &[u8]) -> (r: bool)
    ensures
        r == name_before(a@, b@),
{
    let mut i: usize = 0;
    assert(a@.skip(0) =~= a@);
    assert(b@.skip(0) =~= b@);
    while i < a.len() && i < b.len()
        invariant
            i <= a@.len(),
            i <= b@.len(),
            name_before(a@, b@) == name_before(a@.skip(i as int), b@.skip(i as int)),
        decreases a@.len() - i,
    {
        if a[i] != b[i] {
            return a[i] < b[i];
        }
        assert(a@.skip(i as int).skip(1) =~= a@.skip(i + 1));
        assert(b@.skip(i as int).skip(1) =~= b@.skip(i + 1));
        i = i + 1;
    }
    i < b.len()
}

fn entry_precedes(a: &DiskEntry, b: &DiskEntry) -> (r: bool)
    ensures
        r == entry_before(*a, *b),
{
    if a.leads_to_dir != b.leads_to_dir {
        a.leads_to_dir
    } else {
        name_precedes(a.name.as_slice(), b.name.as_slice())
    }
}

/// Whether a name is never shown.
pub fn is_builtin_ignored(name: &[u8]) -> (r: bool)
    ensures
        r == is_builtin_name(name@),
{
    path::same_bytes(name, ".git".as_bytes()) || path::same_bytes(name, ".debth".as_bytes())
        || path::same_bytes(name, "target".as_bytes())
}

fn is_hidden(rules: &IgnoreRules, path: &FsPath, name: &[u8], is_dir: bool) -> (r: bool)
    ensures
        r == (is_builtin_name(name@) || rules@.ignores(path@, is_dir)),
{
    is_builtin_ignored(name) || rules.is_ignored(path, is_dir)
}

/// The index as a number without bounds.
pub open spec fn index_views(v: Seq<usize>) -> Seq<int> {
    v.map_values(|x: usize| x as int)
}

fn place(entries: &Vec<DiskEntry>, order: &mut Vec<usize>, i: usize)
    requires
        i < entries@.len(),
        forall|k: int| 0 <= k < old(order)@.len() ==> #[trigger] old(order)@[k] < entries@.len(),
    ensures
        index_views(final(order)@) == placed(entries@, index_views(old(order)@), i as int),
        forall|k: int|
            0 <= k < final(order)@.len() ==> #[trigger] final(order)@[k] < entries@.len(),
{
    let ghost before = index_views(order@);
    let ghost was = order@;
    let mut at: usize = order.len();
    let ghost mut tail: Seq<int> = Seq::empty();
    assert(before.take(at as int) =~= before);
    assert(placed(entries@, before, i as int) =~= placed(entries@, before.take(at as int), i as int)
        + tail);
    while at > 0 && entry_precedes(&entries[i], &entries[order[at - 1]])
        invariant
            at <= order@.len(),
            order@ == was,
            before == index_views(was),
            i < entries@.len(),
            forall|k: int| 0 <= k < was.len() ==> #[trigger] was[k] < entries@.len(),
            tail == before.skip(at as int),
            placed(entries@, before, i as int) == placed(
                entries@,
                before.take(at as int),
                i as int,
            ) + tail,
        decreases at,
    {
        let ghost front = before.take(at as int);
        assert(front.last() == was[at - 1] as int);
        assert(front.drop_last() =~= before.take(at - 1));
        proof {
            let next = seq![front.last()] + tail;
            assert(placed(entries@, front, i as int) == placed(
                entries@,
                before.take(at - 1),
                i as int,
            ).push(front.last()));
            assert(placed(entries@, before, i as int) =~= placed(
                entries@,
                before.take(at - 1),
                i as int,
            ) + next);
            tail = next;
            assert(tail =~= before.skip(at - 1));
        }
        at = at - 1;
    }
    proof {
        if at > 0 {
            assert(before.take(at as int).last() == was[at - 1] as int);
        }
        assert(placed(entries@, before.take(at as int), i as int) == before.take(at as int).push(
            i as int,
        ));
    }
    order.insert(at, i);
    assert(index_views(order@) =~= before.take(at as int).push(i as int) + before.skip(at as int));
}

/// The shown entries of a directory, as indices in the order in which they are shown.
fn order_entries(rules: &IgnoreRules, dir: &FsPath, entries: &Vec<DiskEntry>) -> (r: Vec<usize>)
    ensures
        index_views(r@) == shown_order(rules@, dir@, entries@, entries@.len()),
        forall|k: int| 0 <= k < r@.len() ==> #[trigger] r@[k] < entries@.len(),
{
    let mut order: Vec<usize> = Vec::new();
    let mut i: usize = 0;
    assert(index_views(order@) =~= shown_order(rules@, dir@, entries@, 0));
    while i < entries.len()
        invariant
            i <= entries@.len(),
            index_views(order@) == shown_order(rules@, dir@, entries@, i as nat),
            forall|k: int| 0 <= k < order@.len() ==> #[trigger] order@[k] < entries@.len(),
        decreases entries@.len() - i,
    {
        let entry = &entries[i];
        let path = dir.child(entry.name.as_slice());
        if !is_hidden(rules, &path, entry.name.as_slice(), entry.leads_to_dir) {
            place(entries, &mut order, i);
        }
        i = i + 1;
    }
    order
}

fn contains_path(paths: &Vec<FsPath>, path: &FsPath) -> (r: bool)
    ensures
        r == path::path_views(paths@).to_set().contains(path@),
{
    let ghost all = path::path_views(paths@);
    let mut i: usize = 0;
    while i < paths.len()
        invariant
            i <= paths@.len(),
            all == path::path_views(paths@),
            forall|k: int| 0 <= k < i ==> all[k] != path@,
        decreases paths@.len() - i,
    {
        if paths[i].same(path) {
            assert(all[i as int] == path@);
            assert(all.contains(path@));
            return true;
        }
        i = i + 1;
    }
    assert(!all.contains(path@));
    false
}

/// Appends the rows for a directory.
fn push_children(
    rules: &IgnoreRules,
    expanded: &Vec<FsPath>,
    dir: &FsPath,
    depth: usize,
    listing: &Listing,
    visible: &mut Vec<VisibleEntry>,
) -> (r: Result<(), TreeError>)
    requires
        depth <= dir@.parts.len(),
    ensures
        ({
            let walk = walk_dir(
                rules@,
                path::path_views(expanded@).to_set(),
                dir@,
                depth as nat,
                *listing,
            );
            &&& entry_views(final(visible)@) == entry_views(old(visible)@) + walk.rows
            &&& match r {
                Ok(()) => walk.fault is None,
                Err(error) => walk.fault is Some && error.tells(walk.fault->0),
            }
        }),
    decreases listing,
{
    let ghost open = path::path_views(expanded@).to_set();
    let entries = match listing {
        Ok(entries) => entries,
        Err(reason) => {
            assert(entry_views(visible@) =~= entry_views(old(visible)@) + Seq::empty());
            return Err(TreeError::Listing { dir: dir.clone(), reason: reason.clone() });
        },
    };
    let order = order_entries(rules, dir, entries);
    let ghost indices = index_views(order@);
    let mut n: usize = 0;
    assert(entry_views(visible@) =~= entry_views(old(visible)@) + Seq::empty());
    while n < order.len()
        invariant
            n <= order@.len(),
            *listing == Ok::<Vec<DiskEntry>, String>(*entries),
            depth <= dir@.parts.len(),
            open == path::path_views(expanded@).to_set(),
            indices == index_views(order@),
            indices == shown_order(rules@, dir@, entries@, entries@.len()),
            forall|k: int| 0 <= k < order@.len() ==> #[trigger] order@[k] < entries@.len(),
            walk_entries(
                rules@,
                open,
                dir@,
                depth as nat,
                entries@,
                indices,
                n as nat,
            ).fault is None,
            entry_views(visible@) == entry_views(old(visible)@) + walk_entries(
                rules@,
                open,
                dir@,
                depth as nat,
                entries@,
                indices,
                n as nat,
            ).rows,
        decreases order@.len() - n,
    {
        let ghost now = walk_entries(
            rules@,
            open,
            dir@,
            depth as nat,
            entries@,
            indices,
            (n + 1) as nat,
        );
        let index: usize = order[n];
        let entry = &entries[index];
        assert(indices[n as int] == index);
        let entry_path = dir.child(entry.name.as_slice());
        let is_dir = match &entry.entry_type {
            EntryType::Directory => true,
            EntryType::Other => false,
            EntryType::Unknown(reason) => {
                proof {
                    lemma_walk_stops(
                        rules@,
                        open,
                        dir@,
                        depth as nat,
                        entries@,
                        indices,
                        (n + 1) as nat,
                        indices.len(),
                    );
                }
                return Err(TreeError::EntryType { path: entry_path, reason: reason.clone() });
            },
        };
        let open_now = is_dir && contains_path(expanded, &entry_path);
        let row = VisibleEntry {
            name: path::lossy_text(entry.name.as_slice()),
            path: entry_path.clone(),
            depth,
            kind: if is_dir {
                TreeEntryKind::Directory
            } else {
                TreeEntryKind::File
            },
            expanded: open_now,
        };
        assert(row@ =~= row_for(open, dir@, depth as nat, *entry));
        let ghost was = entry_views(visible@);
        visible.push(row);
        assert(entry_views(visible@) =~= was.push(row@));
        if open_now {
            let parts: usize = entry_path.parts.len();
            assert(parts == entry_path@.parts.len());
            let inside = push_children(
                rules,
                expanded,
                &entry_path,
                depth + 1,
                &entry.listing,
                visible,
            );
            assert(entry_views(visible@) =~= entry_views(old(visible)@) + now.rows);
            if let Err(error) = inside {
                proof {
                    lemma_walk_stops(
                        rules@,
                        open,
                        dir@,
                        depth as nat,
                        entries@,
                        indices,
                        (n + 1) as nat,
                        indices.len(),
                    );
                }
                return Err(error);
            }
        }
        assert(entry_views(visible@) =~= entry_views(old(visible)@) + now.rows);
        n = n + 1;
    }
    Ok(())
}

/// A fault is final.
proof fn lemma_walk_stops(
    rules: RulesModel,
    expanded: Set<PathModel>,
    dir: PathModel,
    depth: nat,
    entries: Seq<DiskEntry>,
    order: Seq<int>,
    n: nat,
    m: nat,
)
    requires
        n <= m <= order.len(),
        walk_entries(rules, expanded, dir, depth, entries, order, n).fault is Some,
    ensures
        walk_entries(rules, expanded, dir, depth, entries, order, m) == walk_entries(
            rules,
            expanded,
            dir,
            depth,
            entries,
            order,
            n,
        ),
    decreases m - n,
{
    if n < m {
        lemma_walk_stops(rules, expanded, dir, depth, entries, order, n, (m - 1) as nat);
    }
}

/// Appends the files below a directory.
fn collect_files(
    rules: &IgnoreRules,
    dir: &FsPath,
    listing: &Listing,
    files: &mut Vec<FsPath>,
)
    ensures
        path::path_views(final(files)@) == path::path_views(old(files)@) + files_below(
            rules@,
            dir@,
            *listing,
        ),
    decreases listing,
{
    let entries = match listing {
        Ok(entries) => entries,
        Err(_) => {
            assert(path::path_views(files@) =~= path::path_views(old(files)@) + Seq::empty());
            return;
        },
    };
    let mut n: usize = 0;
    assert(path::path_views(files@) =~= path::path_views(old(files)@) + Seq::empty());
    while n < entries.len()
        invariant
            n <= entries@.len(),
            *listing == Ok::<Vec<DiskEntry>, String>(*entries),
            path::path_views(files@) == path::path_views(old(files)@) + files_of_entries(
                rules@,
                dir@,
                entries@,
                n as nat,
            ),
        decreases entries@.len() - n,
    {
        let ghost was = path::path_views(files@);
        let entry = &entries[n];
        let entry_path = dir.child(entry.name.as_slice());
        if !is_hidden(rules, &entry_path, entry.name.as_slice(), entry.leads_to_dir) {
            if entry.leads_to_dir {
                assert(decreases_to!(*listing => listing->Ok_0));
                collect_files(rules, &entry_path, &entry.listing, files);
            } else if entry.leads_to_file {
                files.push(entry_path);
                assert(path::path_views(files@) =~= was.push(entry_path@));
            }
        }
        assert(path::path_views(files@) =~= path::path_views(old(files)@) + files_of_entries(
            rules@,
            dir@,
            entries@,
            (n + 1) as nat,
        ));
        n = n + 1;
    }
}

/// An entry that was left out from the explorer.
#[derive(Debug)]
pub struct IgnoredEntry {
    pub path: FsPath,
    pub kind: TreeEntryKind,
    pub pattern: String,
}

impl Clone for IgnoredEntry {
    fn clone(&self) -> (r: Self)
        ensures
            r.path@ == self.path@,
            r.kind == self.kind,
            r.pattern@ == self.pattern@,
    {
        IgnoredEntry {
            path: self.path.clone(),
            kind: self.kind,
            pattern: self.pattern.clone(),
        }
    }
}

/// An entry that was left out, and what follows from it.
#[derive(Debug)]
pub struct IgnoredSelection {
    pub entry: IgnoredEntry,
    /// What the ignore file has to hold, unless it does already.
    pub content: Option<String>,
    /// Whether the explorer could be brought up to date.
    pub refreshed: Result<(), TreeError>,
}

/// The file explorer of a workspace.
#[derive(Debug)]
pub struct FileTree {
    root: FsPath,
    ignore_rules: IgnoreRules,
    expanded: Vec<FsPath>,
    visible: Vec<VisibleEntry>,
    selected: usize,
}

impl View for FileTree {
    type V = TreeModel;

    closed spec fn view(&self) -> TreeModel {
        TreeModel {
            root: self.root@,
            rules: self.ignore_rules@,
            expanded: path::path_views(self.expanded@).to_set(),
            visible: entry_views(self.visible@),
            selected: self.selected as nat,
        }
    }
}

impl Clone for FileTree {
    fn clone(&self) -> (r: Self)
        ensures
            r@ == self@,
    {
        FileTree {
            root: self.root.clone(),
            ignore_rules: self.ignore_rules.clone(),
            expanded: copy_paths(&self.expanded),
            visible: copy_entries(&self.visible),
            selected: self.selected,
        }
    }
}

fn copy_paths(paths: &Vec<FsPath>) -> (r: Vec<FsPath>)
    ensures
        path::path_views(r@) == path::path_views(paths@),
{
    let ghost all = path::path_views(paths@);
    let mut r: Vec<FsPath> = Vec::new();
    let mut i: usize = 0;
    assert(path::path_views(r@) =~= all.take(0));
    while i < paths.len()
        invariant
            i <= paths@.len(),
            all == path::path_views(paths@),
            path::path_views(r@) == all.take(i as int),
        decreases paths@.len() - i,
    {
        let ghost was = path::path_views(r@);
        let copy = paths[i].clone();
        r.push(copy);
        assert(path::path_views(r@) =~= was.push(copy@));
        assert(all.take(i + 1) =~= all.take(i as int).push(all[i as int]));
        i = i + 1;
    }
    assert(all.take(all.len() as int) =~= all);
    r
}

fn copy_entries(entries: &Vec<VisibleEntry>) -> (r: Vec<VisibleEntry>)
    ensures
        entry_views(r@) == entry_views(entries@),
{
    let ghost all = entry_views(entries@);
    let mut r: Vec<VisibleEntry> = Vec::new();
    let mut i: usize = 0;
    assert(entry_views(r@) =~= all.take(0));
    while i < entries.len()
        invariant
            i <= entries@.len(),
            all == entry_views(entries@),
            entry_views(r@) == all.take(i as int),
        decreases entries@.len() - i,
    {
        let ghost was = entry_views(r@);
        let copy = entries[i].clone();
        r.push(copy);
        assert(entry_views(r@) =~= was.push(copy@));
        assert(all.take(i + 1) =~= all.take(i as int).push(all[i as int]));
        i = i + 1;
    }
    assert(all.take(all.len() as int) =~= all);
    r
}

/// The first row with a path is where no row before it has that path.
pub proof fn lemma_row_index(rows: Seq<EntryModel>, path: PathModel, i: int)
    requires
        0 <= i <= rows.len(),
        forall|k: int| 0 <= k < i ==> #[trigger] rows[k].path != path,
        i < rows.len() ==> rows[i].path == path,
    ensures
        row_index(rows, path) == i,
    decreases rows.len(),
{
    if rows.len() > 0 && i > 0 {
        assert(rows[0].path != path);
        let rest = rows.skip(1);
        assert forall|k: int| 0 <= k < i - 1 implies #[trigger] rest[k].path != path by {
            assert(rows[k + 1].path != path);
        }
        lemma_row_index(rest, path, i - 1);
    }
}

fn find_row(visible: &Vec<VisibleEntry>, path: &FsPath) -> (r: Option<usize>)
    ensures
        match r {
            Some(i) => i < visible@.len() && i == row_index(entry_views(visible@), path@),
            None => row_index(entry_views(visible@), path@) == visible@.len(),
        },
{
    let ghost rows = entry_views(visible@);
    let mut i: usize = 0;
    while i < visible.len()
        invariant
            i <= visible@.len(),
            rows == entry_views(visible@),
            forall|k: int| 0 <= k < i ==> #[trigger] rows[k].path != path@,
        decreases visible@.len() - i,
    {
        assert(rows[i as int].path == visible@[i as int].path@);
        if visible[i].path.same(path) {
            proof {
                lemma_row_index(rows, path@, i as int);
            }
            return Some(i);
        }
        i = i + 1;
    }
    proof {
        lemma_row_index(rows, path@, i as int);
    }
    None
}

fn without_path(paths: &Vec<FsPath>, path: &FsPath) -> (r: Vec<FsPath>)
    ensures
        path::path_views(r@).to_set() == path::path_views(paths@).to_set().remove(path@),
{
    let ghost all = path::path_views(paths@);
    let mut r: Vec<FsPath> = Vec::new();
    let mut i: usize = 0;
    while i < paths.len()
        invariant
            i <= paths@.len(),
            all == path::path_views(paths@),
            forall|p: PathModel|
                #[trigger] path::path_views(r@).contains(p) <==> (p != path@ && all.take(
                    i as int,
                ).contains(p)),
        decreases paths@.len() - i,
    {
        let ghost was = path::path_views(r@);
        let ghost now = all.take(i + 1);
        assert(now =~= all.take(i as int).push(paths@[i as int]@));
        assert forall|p: PathModel| now.contains(p) <==> (all.take(i as int).contains(p) || p
            == paths@[i as int]@) by {
            vstd::seq_lib::lemma_seq_contains_after_push(all.take(i as int), paths@[i as int]@, p);
        }
        if !paths[i].same(path) {
            let kept = paths[i].clone();
            r.push(kept);
            assert(path::path_views(r@) =~= was.push(kept@));
            assert forall|p: PathModel| #[trigger]
                path::path_views(r@).contains(p) <==> (was.contains(p) || p == kept@) by {
                vstd::seq_lib::lemma_seq_contains_after_push(was, kept@, p);
            }
        }
        i = i + 1;
    }
    assert(all.take(all.len() as int) =~= all);
    assert(path::path_views(r@).to_set() =~= all.to_set().remove(path@));
    r
}

impl FileTree {
    /// The explorer of the workspace at `root`, with nothing but the root expanded. `content`
    /// is what the ignore file holds, `listing` what the root holds.
    pub fn new(root: FsPath, content: &str, listing: &Listing) -> (r: Result<FileTree, TreeError>)
        ensures
            ({
                let start = fresh_tree(root@);
                let fault = start.walk(content@, *listing).fault;
                match r {
                    Ok(tree) => fault is None && tree@ == start.refreshed(content@, *listing)
                        && tree@.in_range(),
                    Err(error) => fault is Some && error.tells(fault->0),
                }
            }),
    {
        let mut expanded: Vec<FsPath> = Vec::new();
        expanded.push(root.clone());
        assert(path::path_views(expanded@) =~= seq![root@]);
        assert(path::path_views(expanded@).to_set() =~= set![root@]) by {
            let views = path::path_views(expanded@);
            assert(views[0] == root@);
        }
        let ignore_rules = IgnoreRules::load(&root, "");
        let visible: Vec<VisibleEntry> = Vec::new();
        let ghost path = root@;
        let mut tree = FileTree { root, ignore_rules, expanded, visible, selected: 0 };
        let ghost start = fresh_tree(path);
        assert(tree@.visible =~= Seq::empty());
        assert(tree@.refreshed(content@, *listing) == start.refreshed(content@, *listing));
        match tree.refresh(content, listing) {
            Ok(()) => Ok(tree),
            Err(error) => Err(error),
        }
    }

    /// Brings the rows up to date with the ignore file and the listing of the workspace.
    pub fn refresh(&mut self, content: &str, listing: &Listing) -> (r: Result<(), TreeError>)
        ensures
            final(self)@ == old(self)@.refreshed(content@, *listing),
            ({
                let fault = old(self)@.walk(content@, *listing).fault;
                match r {
                    Ok(()) => fault is None && final(self)@.in_range(),
                    Err(error) => fault is Some && error.tells(fault->0),
                }
            }),
    {
        let previous = match self.selected_path() {
            Some(path) => Some(path.clone()),
            None => None,
        };
        self.ignore_rules = IgnoreRules::load(&self.root, content);
        let mut visible: Vec<VisibleEntry> = Vec::new();
        let result = push_children(
            &self.ignore_rules,
            &self.expanded,
            &self.root,
            0,
            listing,
            &mut visible,
        );
        self.visible = visible;
        let ghost rows = old(self)@.walk(content@, *listing).rows;
        assert(self@.visible =~= rows);
        if let Err(error) = result {
            return Err(error);
        }
        if let Some(previous) = previous {
            if let Some(index) = find_row(&self.visible, &previous) {
                self.selected = index;
                return Ok(());
            }
        }
        let n: usize = self.visible.len();
        if self.selected >= n {
            self.selected = if n == 0 {
                0
            } else {
                n - 1
            };
        }
        Ok(())
    }

    /// The rows.
    pub fn visible(&self) -> (r: &Vec<VisibleEntry>)
        ensures
            entry_views(r@) == self@.visible,
    {
        &self.visible
    }

    /// The index of the selected row.
    pub fn selected(&self) -> (r: usize)
        ensures
            r == self@.selected,
    {
        self.selected
    }

    /// The selected row.
    pub fn selected_entry(&self) -> (r: Option<&VisibleEntry>)
        ensures
            match r {
                Some(entry) => self@.selected_entry() == Some(entry@),
                None => self@.selected_entry() is None,
            },
    {
        if self.selected < self.visible.len() {
            Some(&self.visible[self.selected])
        } else {
            None
        }
    }

    /// The path of the selected row.
    pub fn selected_path(&self) -> (r: Option<&FsPath>)
        ensures
            match r {
                Some(path) => self@.selected_entry() is Some && path@
                    == self@.selected_entry()->0.path,
                None => self@.selected_entry() is None,
            },
    {
        match self.selected_entry() {
            Some(entry) => Some(&entry.path),
            None => None,
        }
    }

    /// The root of the workspace.
    pub fn root(&self) -> (r: &FsPath)
        ensures
            r@ == self@.root,
    {
        &self.root
    }

    /// Whether the listing of this directory can matter to the next operation: it is
    /// expanded, or it is selected and can be.
    pub fn may_list(&self, path: &FsPath) -> (r: bool)
        ensures
            r == (self@.expanded.contains(path@) || (self@.selected_entry() is Some
                && self@.selected_entry()->0.path == path@)),
    {
        if contains_path(&self.expanded, path) {
            return true;
        }
        match self.selected_path() {
            Some(selected) => selected.same(path),
            None => false,
        }
    }

    /// Selects the row above.
    pub fn move_up(&mut self)
        ensures
            final(self)@ == old(self)@.up(),
            old(self)@.in_range() ==> final(self)@.in_range(),
    {
        self.selected = self.selected.saturating_sub(1);
    }

    /// Selects the row below.
    pub fn move_down(&mut self)
        ensures
            final(self)@ == old(self)@.down(),
            old(self)@.in_range() ==> final(self)@.in_range(),
    {
        let n: usize = self.visible.len();
        if n > 0 {
            self.selected = if self.selected < n - 1 {
                self.selected + 1
            } else {
                n - 1
            };
        }
    }

    fn set_expanded(&mut self, path: &FsPath, open: bool)
        ensures
            final(self)@ == old(self)@.with_expanded(
                if open {
                    old(self)@.expanded.insert(path@)
                } else {
                    old(self)@.expanded.remove(path@)
                },
            ),
    {
        let ghost was = path::path_views(self.expanded@);
        if open {
            if !contains_path(&self.expanded, path) {
                let more = path.clone();
                self.expanded.push(more);
                assert(path::path_views(self.expanded@) =~= was.push(more@));
                assert forall|p: PathModel|
                    path::path_views(self.expanded@).to_set().contains(p) <==> (was.to_set().contains(p) || p
                        == path@) by {
                    vstd::seq_lib::lemma_seq_contains_after_push(was, more@, p);
                }
            }
            assert(path::path_views(self.expanded@).to_set() =~= was.to_set().insert(path@));
        } else {
            self.expanded = without_path(&self.expanded, path);
        }
    }

    /// Expands the selected directory, or collapses it if it is expanded. For a selected file
    /// the answer is its path, and nothing changes.
    pub fn toggle_selected(&mut self, content: &str, listing: &Listing) -> (r: Result<
        Option<FsPath>,
        TreeError,
    >)
        ensures
            match old(self)@.selected_entry() {
                None => r is Ok && r->Ok_0 is None && final(self)@ == old(self)@,
                Some(entry) => match entry.kind {
                    TreeEntryKind::File => {
                        &&& r is Ok && r->Ok_0 is Some && r->Ok_0->0@ == entry.path
                        &&& final(self)@ == old(self)@
                    },
                    TreeEntryKind::Directory => {
                        let turned = old(self)@.turned();
                        let fault = turned.walk(content@, *listing).fault;
                        &&& final(self)@ == turned.refreshed(content@, *listing)
                        &&& match r {
                            Ok(file) => file is None && fault is None && final(self)@.in_range(),
                            Err(error) => fault is Some && error.tells(fault->0),
                        }
                    },
                },
            },
    {
        let entry = match self.selected_entry() {
            Some(entry) => entry.clone(),
            None => {
                return Ok(None);
            },
        };
        match entry.kind {
            TreeEntryKind::File => Ok(Some(entry.path)),
            TreeEntryKind::Directory => {
                self.set_expanded(&entry.path, !entry.expanded);
                match self.refresh(content, listing) {
                    Ok(()) => Ok(None),
                    Err(error) => Err(error),
                }
            },
        }
    }

    /// Expands the selected directory. For a selected file the answer is its path, and
    /// nothing changes.
    pub fn expand_selected(&mut self, content: &str, listing: &Listing) -> (r: Result<
        Option<FsPath>,
        TreeError,
    >)
        ensures
            match old(self)@.selected_entry() {
                None => r is Ok && r->Ok_0 is None && final(self)@ == old(self)@,
                Some(entry) => match entry.kind {
                    TreeEntryKind::File => {
                        &&& r is Ok && r->Ok_0 is Some && r->Ok_0->0@ == entry.path
                        &&& final(self)@ == old(self)@
                    },
                    TreeEntryKind::Directory => {
                        let opened = old(self)@.with_expanded(
                            old(self)@.expanded.insert(entry.path),
                        );
                        let fault = opened.walk(content@, *listing).fault;
                        &&& final(self)@ == opened.refreshed(content@, *listing)
                        &&& match r {
                            Ok(file) => file is None && fault is None && final(self)@.in_range(),
                            Err(error) => fault is Some && error.tells(fault->0),
                        }
                    },
                },
            },
    {
        let entry = match self.selected_entry() {
            Some(entry) => entry.clone(),
            None => {
                return Ok(None);
            },
        };
        match entry.kind {
            TreeEntryKind::Directory => {
                self.set_expanded(&entry.path, true);
                match self.refresh(content, listing) {
                    Ok(()) => Ok(None),
                    Err(error) => Err(error),
                }
            },
            TreeEntryKind::File => Ok(Some(entry.path)),
        }
    }

    /// Collapses the selected directory if it is expanded. Else the row of the directory
    /// around the selected entry is selected, if there is one.
    pub fn collapse_selected(&mut self, content: &str, listing: &Listing) -> (r: Result<
        (),
        TreeError,
    >)
        ensures
            match old(self)@.selected_entry() {
                None => r is Ok && final(self)@ == old(self)@,
                Some(entry) => if entry.kind == TreeEntryKind::Directory && entry.expanded {
                    let collapsed = old(self)@.with_expanded(
                        old(self)@.expanded.remove(entry.path),
                    );
                    let fault = collapsed.walk(content@, *listing).fault;
                    &&& final(self)@ == collapsed.refreshed(content@, *listing)
                    &&& match r {
                        Ok(()) => fault is None && final(self)@.in_range(),
                        Err(error) => fault is Some && error.tells(fault->0),
                    }
                } else {
                    r is Ok && final(self)@ == old(self)@.at_parent()
                },
            },
    {
        let entry = match self.selected_entry() {
            Some(entry) => entry.clone(),
            None => {
                return Ok(());
            },
        };
        if entry.kind == TreeEntryKind::Directory && entry.expanded {
            self.set_expanded(&entry.path, false);
            return self.refresh(content, listing);
        }
        if let Some(parent) = entry.path.parent() {
            if !parent.same(&self.root) {
                if let Some(index) = find_row(&self.visible, &parent) {
                    self.selected = index;
                }
            }
        }
        Ok(())
    }

    /// Writes the selected entry into the ignore file, which holds `existing`, and brings the
    /// rows up to date.
    pub fn ignore_selected(&mut self, existing: &str, listing: &Listing) -> (r: Result<
        Option<IgnoredSelection>,
        TreeError,
    >)
        ensures
            match old(self)@.selected_entry() {
                None => r is Ok && r->Ok_0 is None && final(self)@ == old(self)@,
                Some(entry) => {
                    let root = old(self)@.root;
                    let relative = ignore::relative_text(entry.path.below(root));
                    match r {
                        Ok(None) => false,
                        Ok(Some(ignored)) => {
                            let line = old(self)@.ignore_line();
                            let content = ignore::content_with(existing@, line);
                            let fault = old(self)@.walk(content, *listing).fault;
                            &&& entry.path.starts_with(root) && relative is Some
                            &&& ignored.entry.path@ == entry.path
                            &&& ignored.entry.kind == entry.kind
                            &&& ignored.entry.pattern@ == line
                            &&& match ignored.content {
                                Some(text) => !ignore::holds_line(existing@, line) && text@
                                    == content,
                                None => ignore::holds_line(existing@, line),
                            }
                            &&& final(self)@ == old(self)@.refreshed(content, *listing)
                            &&& match ignored.refreshed {
                                Ok(()) => fault is None && final(self)@.in_range(),
                                Err(error) => fault is Some && error.tells(fault->0),
                            }
                        },
                        Err(TreeError::Ignore(IgnoreError::Outside { path: p, root: r })) => {
                            &&& !entry.path.starts_with(root)
                            &&& p@ == entry.path
                            &&& r@ == root
                            &&& final(self)@ == old(self)@
                        },
                        Err(TreeError::Ignore(IgnoreError::WorkspaceRoot)) => {
                            &&& entry.path.starts_with(root) && relative is None
                            &&& final(self)@ == old(self)@
                        },
                        Err(_) => false,
                    }
                },
            },
    {
        let entry = match self.selected_entry() {
            Some(entry) => entry.clone(),
            None => {
                return Ok(None);
            },
        };
        let is_dir = entry.kind == TreeEntryKind::Directory;
        let mut rules = IgnoreRules::load(&self.root, existing);
        let added = match rules.add_path(&entry.path, is_dir, existing) {
            Ok(added) => added,
            Err(error) => {
                return Err(TreeError::Ignore(error));
            },
        };
        let refreshed = match &added.content {
            Some(content) => self.refresh(content.as_str(), listing),
            None => self.refresh(existing, listing),
        };
        Ok(
            Some(
                IgnoredSelection {
                    entry: IgnoredEntry {
                        path: entry.path,
                        kind: entry.kind,
                        pattern: added.pattern,
                    },
                    content: added.content,
                    refreshed,
                },
            ),
        )
    }

    /// The files of the workspace that the rules do not leave out.
    pub fn files(&self, listing: &Listing) -> (r: Vec<FsPath>)
        ensures
            path::path_views(r@) == files_below(self@.rules, self@.root, *listing),
    {
        let mut files: Vec<FsPath> = Vec::new();
        collect_files(&self.ignore_rules, &self.root, listing, &mut files);
        assert(path::path_views(files@) =~= files_below(
            self@.rules,
            self@.root,
            *listing,
        ));
        files
    }

    /// Whether an entry of the workspace is left out.
    pub fn is_hidden(&self, path: &FsPath, name: &[u8], is_dir: bool) -> (r: bool)
        ensures
            r == (is_builtin_name(name@) || self@.rules.ignores(path@, is_dir)),
    {
        is_hidden(&self.ignore_rules, path, name, is_dir)
    }
}

} // verus!
