//! What holds of the explorer as a whole: in which order entries are shown, which ones are,
//! and what opening and closing directories leaves as it was.

use vstd::prelude::*;

use crate::fs_tree;
use crate::fs_tree::DiskEntry;
use crate::fs_tree::Listing;
use crate::fs_tree::TreeEntryKind;
use crate::fs_tree::TreeModel;
use crate::ignore;
use crate::ignore::RulesModel;
use crate::ignore_laws;
use crate::path::PathModel;
use crate::rule_laws;
use crate::text;

verus! {

/// Of two names at most one comes before the other.
proof fn lemma_name_one_way(a: Seq<u8>, b: Seq<u8>)
    ensures
        !(fs_tree::name_before(a, b) && fs_tree::name_before(b, a)),
    decreases a.len(),
{
    if a.len() > 0 && b.len() > 0 && a[0] == b[0] {
        lemma_name_one_way(a.skip(1), b.skip(1));
    }
}

/// A name that does not come before a second one, which does not come before a third, does
/// not come before the third.
proof fn lemma_name_not_before(a: Seq<u8>, b: Seq<u8>, c: Seq<u8>)
    requires
        !fs_tree::name_before(a, b),
        !fs_tree::name_before(b, c),
    ensures
        !fs_tree::name_before(a, c),
    decreases a.len(),
{
    if a.len() > 0 && b.len() > 0 && c.len() > 0 && a[0] == b[0] && b[0] == c[0] {
        lemma_name_not_before(a.skip(1), b.skip(1), c.skip(1));
    }
}

proof fn lemma_one_way(a: DiskEntry, b: DiskEntry)
    ensures
        !(fs_tree::entry_before(a, b) && fs_tree::entry_before(b, a)),
{
    lemma_name_one_way(a.name@, b.name@);
}

proof fn lemma_not_before(a: DiskEntry, b: DiskEntry, c: DiskEntry)
    requires
        !fs_tree::entry_before(a, b),
        !fs_tree::entry_before(b, c),
    ensures
        !fs_tree::entry_before(a, c),
{
    if a.leads_to_dir == b.leads_to_dir && b.leads_to_dir == c.leads_to_dir {
        lemma_name_not_before(a.name@, b.name@, c.name@);
    }
}

/// Whether no entry stands behind one that it comes before, and of two that neither comes
/// before the other the one that the disk gave first stands first.
pub open spec fn in_order(entries: Seq<DiskEntry>, order: Seq<int>) -> bool {
    forall|i: int, j: int|
        0 <= i < j < order.len() ==> {
            let a = #[trigger] order[i];
            let b = #[trigger] order[j];
            ||| fs_tree::entry_before(entries[a], entries[b])
            ||| !fs_tree::entry_before(entries[b], entries[a]) && a < b
        }
}

/// Placing an entry adds it, and keeps the order.
proof fn lemma_placed(entries: Seq<DiskEntry>, order: Seq<int>, i: int)
    requires
        in_order(entries, order),
        forall|k: int| 0 <= k < order.len() ==> #[trigger] order[k] < i,
    ensures
        in_order(entries, fs_tree::placed(entries, order, i)),
        forall|x: int|
            #[trigger] fs_tree::placed(entries, order, i).contains(x) <==> (order.contains(x) || x
                == i),
        fs_tree::placed(entries, order, i).len() == order.len() + 1,
    decreases order.len(),
{
    let all = fs_tree::placed(entries, order, i);
    if order.len() > 0 && fs_tree::entry_before(entries[i], entries[order.last()]) {
        let front = order.drop_last();
        let last = order.last();
        assert(forall|k: int| 0 <= k < front.len() ==> #[trigger] front[k] == order[k]);
        lemma_placed(entries, front, i);
        let before = fs_tree::placed(entries, front, i);
        assert forall|x: int| #[trigger] all.contains(x) <==> (order.contains(x) || x == i) by {
            vstd::seq_lib::lemma_seq_contains_after_push(before, last, x);
            vstd::seq_lib::lemma_seq_contains_after_push(front, last, x);
            assert(front.push(last) =~= order);
        }
        assert forall|k: int, l: int| 0 <= k < l < all.len() implies {
            let a = #[trigger] all[k];
            let b = #[trigger] all[l];
            ||| fs_tree::entry_before(entries[a], entries[b])
            ||| !fs_tree::entry_before(entries[b], entries[a]) && a < b
        } by {
            if l == all.len() - 1 {
                assert(all[k] == before[k]);
                assert(before.contains(all[k]));
                if all[k] == i {
                    lemma_one_way(entries[i], entries[last]);
                } else {
                    let m = choose|m: int| 0 <= m < front.len() && front[m] == all[k];
                    assert(order[m] == all[k]);
                    assert(order[order.len() - 1] == last);
                }
            } else {
                assert(all[k] == before[k]);
                assert(all[l] == before[l]);
            }
        }
    } else {
        assert forall|x: int| #[trigger] all.contains(x) <==> (order.contains(x) || x == i) by {
            vstd::seq_lib::lemma_seq_contains_after_push(order, i, x);
        }
        assert forall|k: int, l: int| 0 <= k < l < all.len() implies {
            let a = #[trigger] all[k];
            let b = #[trigger] all[l];
            ||| fs_tree::entry_before(entries[a], entries[b])
            ||| !fs_tree::entry_before(entries[b], entries[a]) && a < b
        } by {
            assert(all[k] == order[k]);
            if l == order.len() {
                let last = order.last();
                if k < order.len() - 1 {
                    assert(order[order.len() - 1] == last);
                    if fs_tree::entry_before(entries[order[k]], entries[last]) {
                        lemma_one_way(entries[order[k]], entries[last]);
                    }
                    lemma_not_before(entries[i], entries[last], entries[order[k]]);
                }
            } else {
                assert(all[l] == order[l]);
            }
        }
    }
}

/// The explorer shows directories first, each group by name, and of the entries of a
/// directory exactly those that are not left out, each once.
pub proof fn shown_entries_are_in_order(
    rules: RulesModel,
    dir: PathModel,
    entries: Seq<DiskEntry>,
    n: nat,
)
    requires
        n <= entries.len(),
    ensures
        in_order(entries, fs_tree::shown_order(rules, dir, entries, n)),
        fs_tree::shown_order(rules, dir, entries, n).no_duplicates(),
        forall|i: int|
            #[trigger] fs_tree::shown_order(rules, dir, entries, n).contains(i) <==> (0 <= i < n
                && !fs_tree::is_hidden_entry(rules, dir, entries[i])),
    decreases n,
{
    let order = fs_tree::shown_order(rules, dir, entries, n);
    if n > 0 {
        let before = fs_tree::shown_order(rules, dir, entries, (n - 1) as nat);
        shown_entries_are_in_order(rules, dir, entries, (n - 1) as nat);
        if !fs_tree::is_hidden_entry(rules, dir, entries[n - 1]) {
            assert forall|k: int| 0 <= k < before.len() implies #[trigger] before[k] < n - 1 by {
                assert(before.contains(before[k]));
            }
            lemma_placed(entries, before, n - 1);
        }
    }
    assert forall|i: int, j: int| 0 <= i < order.len() && 0 <= j < order.len() && i
        != j implies order[i] != order[j] by {
        if order[i] == order[j] {
            let e = entries[order[i]];
            lemma_one_way(e, e);
        }
    }
}

/// What every disk gives: a directory is a directory whichever way one looks at it, and the
/// names in a directory differ.
pub open spec fn sound_listing(listing: Listing) -> bool
    decreases listing,
{
    match listing {
        Err(_) => true,
        Ok(entries) => {
            &&& forall|i: int|
                0 <= i < entries@.len() ==> ((#[trigger] entries@[i]).entry_type is Directory
                    ==> entries@[i].leads_to_dir) && sound_listing(entries@[i].listing)
            &&& forall|i: int, j: int|
                0 <= i < j < entries@.len() ==> (#[trigger] entries@[i]).name@ != (
                #[trigger] entries@[j]).name@
        },
    }
}

/// The first `k` names of a path.
pub open spec fn first_names(path: PathModel, k: int) -> PathModel {
    PathModel { absolute: path.absolute, parts: path.parts.take(k) }
}

/// Whether a row can be shown for `dir`: it lies as deep as it is indented, it is not left
/// out, and every directory on the way is expanded.
pub open spec fn row_belongs(
    rules: RulesModel,
    expanded: Set<PathModel>,
    dir: PathModel,
    depth: nat,
    row: fs_tree::EntryModel,
) -> bool {
    &&& row.path.starts_with(dir)
    &&& row.path.parts.len() > dir.parts.len()
    &&& row.depth + dir.parts.len() + 1 == depth + row.path.parts.len()
    &&& !fs_tree::is_builtin_name(row.path.parts.last())
    &&& !rules.ignores(row.path, true) || (row.kind == TreeEntryKind::File && !rules.ignores(
        row.path,
        false,
    ))
    &&& row.expanded ==> row.kind == TreeEntryKind::Directory
    &&& row.kind == TreeEntryKind::Directory ==> row.expanded == expanded.contains(row.path)
    &&& forall|k: int|
        dir.parts.len() < k < row.path.parts.len() ==> expanded.contains(
            #[trigger] first_names(row.path, k),
        )
}

proof fn lemma_row_belongs(
    rules: RulesModel,
    expanded: Set<PathModel>,
    dir: PathModel,
    depth: nat,
    entry: DiskEntry,
)
    requires
        !fs_tree::is_hidden_entry(rules, dir, entry),
        entry.entry_type is Directory ==> entry.leads_to_dir,
    ensures
        row_belongs(
            rules,
            expanded,
            dir,
            depth,
            fs_tree::row_for(expanded, dir, depth, entry),
        ),
{
    let row = fs_tree::row_for(expanded, dir, depth, entry);
    assert(row.path.parts.last() == entry.name@);
    assert(dir.parts =~= row.path.parts.subrange(0, dir.parts.len() as int));
}

proof fn lemma_inner_row_belongs(
    rules: RulesModel,
    expanded: Set<PathModel>,
    dir: PathModel,
    depth: nat,
    name: Seq<u8>,
    row: fs_tree::EntryModel,
)
    requires
        expanded.contains(dir.child(name)),
        row_belongs(rules, expanded, dir.child(name), depth + 1, row),
    ensures
        row_belongs(rules, expanded, dir, depth, row),
{
    let inner = dir.child(name);
    let n = dir.parts.len() as int;
    let parts = row.path.parts;
    assert(inner.parts =~= parts.subrange(0, n + 1));
    assert(dir.parts =~= parts.subrange(0, n)) by {
        assert(forall|i: int| 0 <= i < n ==> dir.parts[i] == inner.parts[i]);
        assert(forall|i: int| 0 <= i < n ==> inner.parts[i] == parts.subrange(0, n + 1)[i]);
    }
    assert forall|k: int| n < k < parts.len() implies expanded.contains(
        #[trigger] first_names(row.path, k),
    ) by {
        if k == n + 1 {
            assert(first_names(row.path, k) =~= inner);
        }
    }
}

/// Every row of the explorer is an entry that is not left out, all directories around it
/// are expanded, and it is indented once for each of them.
pub proof fn rows_belong(
    rules: RulesModel,
    expanded: Set<PathModel>,
    dir: PathModel,
    depth: nat,
    listing: Listing,
    i: int,
)
    requires
        sound_listing(listing),
        0 <= i < fs_tree::walk_dir(rules, expanded, dir, depth, listing).rows.len(),
    ensures
        row_belongs(
            rules,
            expanded,
            dir,
            depth,
            fs_tree::walk_dir(rules, expanded, dir, depth, listing).rows[i],
        ),
    decreases listing, 0nat,
{
    if let Ok(entries) = listing {
        let order = fs_tree::shown_order(rules, dir, entries@, entries@.len());
        shown_entries_are_in_order(rules, dir, entries@, entries@.len());
        assert(decreases_to!(listing => entries));
        assert(decreases_to!(entries => entries@));
        lemma_rows_of_entries(rules, expanded, dir, depth, entries, order, order.len(), i);
    }
}

proof fn lemma_rows_of_entries(
    rules: RulesModel,
    expanded: Set<PathModel>,
    dir: PathModel,
    depth: nat,
    entries: Vec<DiskEntry>,
    order: Seq<int>,
    n: nat,
    i: int,
)
    requires
        sound_listing(Ok(entries)),
        n <= order.len(),
        order == fs_tree::shown_order(rules, dir, entries@, entries@.len()),
        forall|k: int|
            #[trigger] order.contains(k) <==> (0 <= k < entries@.len() && !fs_tree::is_hidden_entry(
                rules,
                dir,
                entries@[k],
            )),
        0 <= i < fs_tree::walk_entries(
            rules,
            expanded,
            dir,
            depth,
            entries@,
            order,
            n,
        ).rows.len(),
    ensures
        row_belongs(
            rules,
            expanded,
            dir,
            depth,
            fs_tree::walk_entries(rules, expanded, dir, depth, entries@, order, n).rows[i],
        ),
    decreases entries, n,
{
    let before = fs_tree::walk_entries(
        rules,
        expanded,
        dir,
        depth,
        entries@,
        order,
        (n - 1) as nat,
    );
    let j = order[n - 1];
    assert(order.contains(j));
    let entry = entries@[j];
    if i < before.rows.len() {
        lemma_rows_of_entries(rules, expanded, dir, depth, entries, order, (n - 1) as nat, i);
    } else {
        let row = fs_tree::row_for(expanded, dir, depth, entry);
        lemma_row_belongs(rules, expanded, dir, depth, entry);
        if i > before.rows.len() {
            let k = i - before.rows.len() - 1;
            assert(decreases_to!(entries => entries@));
            assert(decreases_to!(entries@ => entries@[j]));
            assert(decreases_to!(entries@[j] => entries@[j].listing));
            rows_belong(rules, expanded, row.path, depth + 1, entry.listing, k);
            let inside = fs_tree::walk_dir(rules, expanded, row.path, depth + 1, entry.listing);
            lemma_inner_row_belongs(rules, expanded, dir, depth, entry.name@, inside.rows[k]);
        }
    }
}

/// An entry that has been ignored is no longer shown, and of a directory nothing below it
/// is. What has become a file since is not what a line for a directory speaks of.
pub proof fn ignored_entry_is_not_shown(
    tree: TreeModel,
    existing: Seq<char>,
    listing: Listing,
    i: int,
)
    requires
        tree.root.absolute,
        sound_listing(listing),
        tree.selected_entry() is Some,
        tree.selected_entry()->0.path.starts_with(tree.root),
        ignore::relative_text(tree.selected_entry()->0.path.below(tree.root)) is Some,
        ignore_laws::plain_relative(
            ignore::relative_text(tree.selected_entry()->0.path.below(tree.root))->0,
        ),
        !ignore::holds_line(existing, tree.ignore_line()),
        0 <= i < tree.refreshed(
            ignore::content_with(existing, tree.ignore_line()),
            listing,
        ).visible.len(),
    ensures
        ({
            let entry = tree.selected_entry()->0;
            let row = tree.refreshed(
                ignore::content_with(existing, tree.ignore_line()),
                listing,
            ).visible[i];
            match entry.kind {
                TreeEntryKind::File => row.path != entry.path,
                TreeEntryKind::Directory => {
                    &&& row.path == entry.path ==> row.kind == TreeEntryKind::File
                    &&& row.path.starts_with(entry.path) ==> row.path == entry.path
                },
            }
        }),
{
    let entry = tree.selected_entry()->0;
    let is_dir = entry.kind == TreeEntryKind::Directory;
    let content = ignore::content_with(existing, tree.ignore_line());
    let row = tree.refreshed(content, listing).visible[i];
    let rules = ignore_laws::rules_with(tree.root, existing, entry.path, is_dir);
    assert(rules =~= RulesModel { root: tree.root, patterns: ignore::parse_text(content) });
    rows_belong(rules, tree.expanded, tree.root, 0, listing, i);
    if row.path == entry.path {
        ignore_laws::added_path_is_ignored(tree.root, existing, entry.path, is_dir, true);
        if !is_dir {
            ignore_laws::added_path_is_ignored(tree.root, existing, entry.path, is_dir, false);
        }
    } else if is_dir && row.path.starts_with(entry.path) {
        if row.path.parts.len() == entry.path.parts.len() {
            assert(row.path.parts =~= entry.path.parts);
        }
        ignore_laws::added_directory_hides_its_contents(
            tree.root,
            existing,
            entry.path,
            row.path,
            true,
        );
        ignore_laws::added_directory_hides_its_contents(
            tree.root,
            existing,
            entry.path,
            row.path,
            false,
        );
    }
}

/// Whether the disk has a file at the end of these names.
pub open spec fn holds_file(listing: Listing, names: Seq<Seq<u8>>) -> bool
    decreases names.len(),
{
    &&& names.len() > 0
    &&& listing is Ok
    &&& exists|i: int|
        0 <= i < listing->Ok_0@.len() && (#[trigger] listing->Ok_0@[i]).name@ == names[0] && if names.len()
            == 1 {
            listing->Ok_0@[i].leads_to_file && !listing->Ok_0@[i].leads_to_dir
        } else {
            listing->Ok_0@[i].leads_to_dir && holds_file(listing->Ok_0@[i].listing, names.skip(1))
        }
}

/// Whether what the first `k` names lead to is not left out.
pub open spec fn kept_at(rules: RulesModel, file: PathModel, k: int) -> bool {
    !fs_tree::is_builtin_name(file.parts[k - 1]) && !rules.ignores(
        first_names(file, k),
        k < file.parts.len(),
    )
}

/// Whether neither the file nor a directory on the way to it from `dir` is left out.
pub open spec fn kept(rules: RulesModel, dir: PathModel, file: PathModel) -> bool {
    forall|k: int|
        dir.parts.len() < k <= file.parts.len() ==> #[trigger] kept_at(rules, file, k)
}

/// Whether entry `i` contributes the file.
spec fn gives(
    rules: RulesModel,
    dir: PathModel,
    entries: Seq<DiskEntry>,
    i: int,
    file: PathModel,
) -> bool {
    let entry = entries[i];
    let path = dir.child(entry.name@);
    !fs_tree::is_hidden_entry(rules, dir, entry) && if entry.leads_to_dir {
        fs_tree::files_below(rules, path, entry.listing).contains(file)
    } else {
        entry.leads_to_file && file == path
    }
}

proof fn lemma_files_of_entries(
    rules: RulesModel,
    dir: PathModel,
    entries: Seq<DiskEntry>,
    n: nat,
    file: PathModel,
)
    requires
        n <= entries.len(),
    ensures
        fs_tree::files_of_entries(rules, dir, entries, n).contains(file) <==> exists|i: int|
            0 <= i < n && gives(rules, dir, entries, i, file),
    decreases n,
{
    if n > 0 {
        lemma_files_of_entries(rules, dir, entries, (n - 1) as nat, file);
        let before = fs_tree::files_of_entries(rules, dir, entries, (n - 1) as nat);
        let all = fs_tree::files_of_entries(rules, dir, entries, n);
        let path = dir.child(entries[n - 1].name@);
        let inside = fs_tree::files_below(rules, path, entries[n - 1].listing);
        if before.contains(file) {
            let k = choose|k: int| 0 <= k < before.len() && before[k] == file;
            assert(all[k] == file);
        }
        if all.contains(file) {
            let k = choose|k: int| 0 <= k < all.len() && all[k] == file;
            if k < before.len() {
                assert(before[k] == file);
            } else if entries[n - 1].leads_to_dir {
                assert(inside[k - before.len()] == file);
            }
            if !before.contains(file) {
                assert(gives(rules, dir, entries, n - 1, file));
            }
        }
        if gives(rules, dir, entries, n - 1, file) {
            if entries[n - 1].leads_to_dir {
                let k = choose|k: int| 0 <= k < inside.len() && inside[k] == file;
                assert(all[before.len() + k] == file);
            } else {
                assert(all[before.len() as int] == file);
            }
        }
        if exists|i: int| 0 <= i < n && gives(rules, dir, entries, i, file) {
            let i = choose|i: int| 0 <= i < n && gives(rules, dir, entries, i, file);
            if i < n - 1 {
                assert(before.contains(file));
            }
        }
    }
}

/// Whether the names lead to a file through entry `i`.
spec fn leads(entries: Seq<DiskEntry>, i: int, names: Seq<Seq<u8>>) -> bool {
    names.len() > 0 && entries[i].name@ == names[0] && if names.len() == 1 {
        entries[i].leads_to_file && !entries[i].leads_to_dir
    } else {
        entries[i].leads_to_dir && holds_file(entries[i].listing, names.skip(1))
    }
}

/// The files of the workspace are exactly those of the disk that are not left out, neither
/// themselves nor by a directory on the way.
pub proof fn files_are_those_kept(
    rules: RulesModel,
    dir: PathModel,
    listing: Listing,
    file: PathModel,
)
    ensures
        fs_tree::files_below(rules, dir, listing).contains(file) <==> (file.absolute == dir.absolute
            && dir.parts.is_prefix_of(file.parts) && holds_file(
            listing,
            file.parts.skip(dir.parts.len() as int),
        ) && kept(rules, dir, file)),
    decreases listing,
{
    let n = dir.parts.len() as int;
    let names = file.parts.skip(n);
    let fits = file.absolute == dir.absolute && dir.parts.is_prefix_of(file.parts) && kept(
        rules,
        dir,
        file,
    );
    if let Ok(entries) = listing {
        lemma_files_of_entries(rules, dir, entries@, entries@.len(), file);
        assert forall|i: int| 0 <= i < entries@.len() implies (#[trigger] gives(
            rules,
            dir,
            entries@,
            i,
            file,
        ) <==> (fits && leads(entries@, i, names))) by {
            assert(decreases_to!(listing => entries));
            assert(decreases_to!(entries => entries@));
            assert(decreases_to!(entries@ => entries@[i]));
            assert(decreases_to!(entries@[i] => entries@[i].listing));
            files_are_those_kept(
                rules,
                dir.child(entries@[i].name@),
                entries@[i].listing,
                file,
            );
            lemma_gives(rules, dir, entries@, i, file);
        }
        if holds_file(listing, names) && fits {
            let i = choose|i: int|
                0 <= i < listing->Ok_0@.len() && (#[trigger] listing->Ok_0@[i]).name@ == names[0]
                    && if names.len() == 1 {
                    listing->Ok_0@[i].leads_to_file && !listing->Ok_0@[i].leads_to_dir
                } else {
                    listing->Ok_0@[i].leads_to_dir && holds_file(
                        listing->Ok_0@[i].listing,
                        names.skip(1),
                    )
                };
            assert(leads(entries@, i, names));
            assert(gives(rules, dir, entries@, i, file));
        }
        if fs_tree::files_below(rules, dir, listing).contains(file) {
            let i = choose|i: int|
                0 <= i < entries@.len() && gives(rules, dir, entries@, i, file);
            assert(listing->Ok_0@[i].name@ == names[0]);
        }
    }
}

/// What an entry contributes, given what its own listing does.
proof fn lemma_gives(
    rules: RulesModel,
    dir: PathModel,
    entries: Seq<DiskEntry>,
    i: int,
    file: PathModel,
)
    requires
        ({
            let inner = dir.child(entries[i].name@);
            fs_tree::files_below(rules, inner, entries[i].listing).contains(file) <==> (
            file.absolute == inner.absolute && inner.parts.is_prefix_of(file.parts) && holds_file(
                entries[i].listing,
                file.parts.skip(inner.parts.len() as int),
            ) && kept(rules, inner, file))
        }),
    ensures
        gives(rules, dir, entries, i, file) <==> (file.absolute == dir.absolute
            && dir.parts.is_prefix_of(file.parts) && kept(rules, dir, file) && leads(
            entries,
            i,
            file.parts.skip(dir.parts.len() as int),
        )),
{
    let n = dir.parts.len() as int;
    let entry = entries[i];
    let inner = dir.child(entry.name@);
    let names = file.parts.skip(n);
    assert(inner.parts.last() == entry.name@);
    lemma_child_prefix(dir, entry.name@, file);
    if inner.parts.is_prefix_of(file.parts) && file.absolute == dir.absolute {
        assert(first_names(file, n + 1).parts =~= inner.parts);
        assert(names[0] == entry.name@);
        assert(names.skip(1) =~= file.parts.skip(n + 1));
        assert(file.parts[n] == entry.name@);
        assert(first_names(file, n + 1) =~= inner);
        lemma_kept_deeper(rules, dir, entry.name@, file);
        if names.len() == 1 {
            assert(file.parts =~= inner.parts);
        }
        if file == inner {
            assert(kept(rules, inner, file));
        }
        if holds_file(entry.listing, names.skip(1)) {
            assert(names.len() > 1);
        }
    }
    if file == inner {
        assert(inner.parts =~= file.parts.subrange(0, n + 1));
    }
}

proof fn lemma_child_prefix(dir: PathModel, name: Seq<u8>, file: PathModel)
    ensures
        dir.child(name).parts.is_prefix_of(file.parts) <==> (dir.parts.is_prefix_of(file.parts)
            && file.parts.len() > dir.parts.len() && file.parts[dir.parts.len() as int] == name),
{
    let n = dir.parts.len() as int;
    let inner = dir.child(name);
    if inner.parts.is_prefix_of(file.parts) {
        assert(forall|k: int| 0 <= k <= n ==> inner.parts[k] == file.parts.subrange(0, n + 1)[k]);
        assert(forall|k: int| 0 <= k < n ==> dir.parts[k] == inner.parts[k]);
        assert(dir.parts =~= file.parts.subrange(0, n));
        assert(inner.parts[n] == name);
    }
    if dir.parts.is_prefix_of(file.parts) && file.parts.len() > n && file.parts[n] == name {
        assert(forall|k: int| 0 <= k < n ==> dir.parts[k] == file.parts.subrange(0, n)[k]);
        assert(inner.parts =~= file.parts.subrange(0, n + 1));
    }
}

/// What is kept below a directory, seen from an entry of it.
proof fn lemma_kept_deeper(rules: RulesModel, dir: PathModel, name: Seq<u8>, file: PathModel)
    requires
        file.parts.len() > dir.parts.len(),
    ensures
        kept(rules, dir, file) <==> (kept(rules, dir.child(name), file) && kept_at(
            rules,
            file,
            dir.parts.len() as int + 1,
        )),
{
    let n = dir.parts.len() as int;
    let inner = dir.child(name);
    if kept(rules, inner, file) && kept_at(rules, file, n + 1) {
        assert forall|k: int| n < k <= file.parts.len() implies #[trigger] kept_at(
            rules,
            file,
            k,
        ) by {
            assert(k == n + 1 || inner.parts.len() < k);
        }
    }
}

/// Once a file or a directory has been ignored, the file, or every file in the directory,
/// is gone from the files of the workspace.
pub proof fn ignored_files_are_not_counted(
    root: PathModel,
    existing: Seq<char>,
    path: PathModel,
    is_dir: bool,
    listing: Listing,
    file: PathModel,
)
    requires
        root.absolute,
        path.starts_with(root),
        ignore::relative_text(path.below(root)) is Some,
        ignore_laws::plain_relative(ignore::relative_text(path.below(root))->0),
        fs_tree::files_below(
            ignore_laws::rules_with(root, existing, path, is_dir),
            root,
            listing,
        ).contains(file),
    ensures
        if is_dir {
            file.starts_with(path) ==> file == path
        } else {
            file != path
        },
{
    let rules = ignore_laws::rules_with(root, existing, path, is_dir);
    files_are_those_kept(rules, root, listing, file);
    assert(first_names(file, file.parts.len() as int) =~= file);
    assert(holds_file(listing, file.parts.skip(root.parts.len() as int)));
    assert(kept_at(rules, file, file.parts.len() as int));
    if file == path && !is_dir {
        ignore_laws::added_path_is_ignored(root, existing, path, is_dir, false);
    }
    if is_dir && file.starts_with(path) && file != path {
        if file.parts.len() == path.parts.len() {
            assert(file.parts =~= path.parts);
        }
        ignore_laws::added_directory_hides_its_contents(root, existing, path, file, false);
    }
}

/// Whether entry `i` brings the row.
spec fn shows(
    rules: RulesModel,
    expanded: Set<PathModel>,
    dir: PathModel,
    depth: nat,
    entry: DiskEntry,
    row: fs_tree::EntryModel,
) -> bool {
    let own = fs_tree::row_for(expanded, dir, depth, entry);
    row == own || (own.expanded && fs_tree::walk_dir(
        rules,
        expanded,
        own.path,
        depth + 1,
        entry.listing,
    ).rows.contains(row))
}

/// The rows of some entries, where there is no fault, are those that the entries bring.
proof fn lemma_rows_shown(
    rules: RulesModel,
    expanded: Set<PathModel>,
    dir: PathModel,
    depth: nat,
    entries: Seq<DiskEntry>,
    order: Seq<int>,
    n: nat,
    row: fs_tree::EntryModel,
)
    requires
        n <= order.len(),
        forall|k: int| 0 <= k < order.len() ==> 0 <= #[trigger] order[k] < entries.len(),
        fs_tree::walk_entries(rules, expanded, dir, depth, entries, order, n).fault is None,
    ensures
        fs_tree::walk_entries(rules, expanded, dir, depth, entries, order, n).rows.contains(row)
            <==> exists|k: int|
            0 <= k < n && shows(rules, expanded, dir, depth, entries[#[trigger] order[k]], row),
        forall|k: int|
            0 <= k < n ==> !((#[trigger] entries[order[k]]).entry_type is Unknown) && (
            fs_tree::row_for(expanded, dir, depth, entries[order[k]]).expanded
                ==> fs_tree::walk_dir(
                rules,
                expanded,
                dir.child(entries[order[k]].name@),
                depth + 1,
                entries[order[k]].listing,
            ).fault is None),
    decreases n,
{
    if n > 0 {
        let before = fs_tree::walk_entries(
            rules,
            expanded,
            dir,
            depth,
            entries,
            order,
            (n - 1) as nat,
        );
        let all = fs_tree::walk_entries(rules, expanded, dir, depth, entries, order, n);
        let j = order[n - 1];
        let entry = entries[j];
        let own = fs_tree::row_for(expanded, dir, depth, entry);
        let inside = fs_tree::walk_dir(rules, expanded, own.path, depth + 1, entry.listing);
        lemma_rows_shown(rules, expanded, dir, depth, entries, order, (n - 1) as nat, row);
        if before.rows.contains(row) {
            let k = choose|k: int| 0 <= k < before.rows.len() && before.rows[k] == row;
            assert(all.rows[k] == row);
        }
        if shows(rules, expanded, dir, depth, entry, row) {
            if row == own {
                assert(all.rows[before.rows.len() as int] == row);
            } else {
                let k = choose|k: int| 0 <= k < inside.rows.len() && inside.rows[k] == row;
                assert(all.rows[before.rows.len() + 1 + k] == row);
            }
        }
        if all.rows.contains(row) {
            let k = choose|k: int| 0 <= k < all.rows.len() && all.rows[k] == row;
            if k < before.rows.len() {
                assert(before.rows[k] == row);
            } else {
                if k > before.rows.len() {
                    assert(inside.rows[k - before.rows.len() - 1] == row);
                }
                assert(shows(rules, expanded, dir, depth, entries[order[n - 1]], row));
            }
        }
        if exists|k: int|
            0 <= k < n && shows(rules, expanded, dir, depth, entries[#[trigger] order[k]], row) {
            let k = choose|k: int|
                0 <= k < n && shows(rules, expanded, dir, depth, entries[#[trigger] order[k]], row);
            if k < n - 1 {
                assert(before.rows.contains(row));
            }
        }
    }
}

/// Opening or closing one directory leaves its own row where it is.
proof fn lemma_row_stays(
    rules: RulesModel,
    expanded: Set<PathModel>,
    other: Set<PathModel>,
    dir: PathModel,
    depth: nat,
    listing: Listing,
    row: fs_tree::EntryModel,
)
    requires
        sound_listing(listing),
        forall|p: PathModel| p != row.path ==> expanded.contains(p) == other.contains(p),
        row.kind == TreeEntryKind::Directory,
        fs_tree::walk_dir(rules, expanded, dir, depth, listing).fault is None,
        fs_tree::walk_dir(rules, other, dir, depth, listing).fault is None,
        fs_tree::walk_dir(rules, expanded, dir, depth, listing).rows.contains(row),
    ensures
        fs_tree::walk_dir(rules, other, dir, depth, listing).rows.contains(
            (fs_tree::EntryModel { expanded: other.contains(row.path), ..row }),
        ),
    decreases listing,
{
    if let Ok(entries) = listing {
        let order = fs_tree::shown_order(rules, dir, entries@, entries@.len());
        let turned = fs_tree::EntryModel { expanded: other.contains(row.path), ..row };
        shown_entries_are_in_order(rules, dir, entries@, entries@.len());
        assert forall|k: int| 0 <= k < order.len() implies 0 <= #[trigger] order[k]
            < entries@.len() by {
            assert(order.contains(order[k]));
        }
        lemma_rows_shown(rules, expanded, dir, depth, entries@, order, order.len(), row);
        lemma_rows_shown(rules, other, dir, depth, entries@, order, order.len(), turned);
        let k = choose|k: int|
            0 <= k < order.len() && shows(
                rules,
                expanded,
                dir,
                depth,
                entries@[#[trigger] order[k]],
                row,
            );
        let entry = entries@[order[k]];
        let own = fs_tree::row_for(expanded, dir, depth, entry);
        if row != own {
            let inside = fs_tree::walk_dir(rules, expanded, own.path, depth + 1, entry.listing);
            let i = choose|i: int| 0 <= i < inside.rows.len() && inside.rows[i] == row;
            rows_belong(rules, expanded, own.path, depth + 1, entry.listing, i);
            assert(row.path != own.path);
            assert(decreases_to!(listing => entries));
            assert(decreases_to!(entries => entries@));
            assert(decreases_to!(entries@ => entries@[order[k]]));
            assert(decreases_to!(entries@[order[k]] => entries@[order[k]].listing));
            lemma_row_stays(rules, expanded, other, own.path, depth + 1, entry.listing, row);
        }
        assert(shows(rules, other, dir, depth, entries@[order[k]], turned));
    }
}

/// Every row of some entries lies at or below one of them.
proof fn lemma_rows_lie_below(
    rules: RulesModel,
    expanded: Set<PathModel>,
    dir: PathModel,
    depth: nat,
    entries: Vec<DiskEntry>,
    order: Seq<int>,
    n: nat,
    i: int,
) -> (m: int)
    requires
        sound_listing(Ok(entries)),
        n <= order.len(),
        forall|k: int| 0 <= k < order.len() ==> 0 <= #[trigger] order[k] < entries@.len(),
        0 <= i < fs_tree::walk_entries(
            rules,
            expanded,
            dir,
            depth,
            entries@,
            order,
            n,
        ).rows.len(),
    ensures
        0 <= m < n,
        ({
            let row = fs_tree::walk_entries(
                rules,
                expanded,
                dir,
                depth,
                entries@,
                order,
                n,
            ).rows[i];
            row.path.parts.len() > dir.parts.len() && row.path.parts[dir.parts.len() as int]
                == entries@[order[m]].name@
        }),
    decreases n,
{
    let before = fs_tree::walk_entries(
        rules,
        expanded,
        dir,
        depth,
        entries@,
        order,
        (n - 1) as nat,
    );
    if i < before.rows.len() {
        lemma_rows_lie_below(rules, expanded, dir, depth, entries, order, (n - 1) as nat, i)
    } else {
        let entry = entries@[order[n - 1]];
        let own = fs_tree::row_for(expanded, dir, depth, entry);
        if i > before.rows.len() {
            let k = i - before.rows.len() - 1;
            rows_belong(rules, expanded, own.path, depth + 1, entry.listing, k);
            let inside = fs_tree::walk_dir(rules, expanded, own.path, depth + 1, entry.listing);
            let row = inside.rows[k];
            let n = dir.parts.len() as int;
            assert(own.path.parts[n] == row.path.parts.subrange(0, n + 1)[n]);
        }
        n - 1
    }
}

/// No path is shown twice.
pub proof fn rows_differ(
    rules: RulesModel,
    expanded: Set<PathModel>,
    dir: PathModel,
    depth: nat,
    listing: Listing,
    i: int,
    j: int,
)
    requires
        sound_listing(listing),
        0 <= i < j < fs_tree::walk_dir(rules, expanded, dir, depth, listing).rows.len(),
    ensures
        fs_tree::walk_dir(rules, expanded, dir, depth, listing).rows[i].path != fs_tree::walk_dir(
            rules,
            expanded,
            dir,
            depth,
            listing,
        ).rows[j].path,
    decreases listing, 0nat,
{
    if let Ok(entries) = listing {
        let order = fs_tree::shown_order(rules, dir, entries@, entries@.len());
        shown_entries_are_in_order(rules, dir, entries@, entries@.len());
        assert forall|k: int| 0 <= k < order.len() implies 0 <= #[trigger] order[k]
            < entries@.len() by {
            assert(order.contains(order[k]));
        }
        assert(decreases_to!(listing => entries));
        lemma_entry_rows_differ(rules, expanded, dir, depth, entries, order, order.len(), i, j);
    }
}

proof fn lemma_entry_rows_differ(
    rules: RulesModel,
    expanded: Set<PathModel>,
    dir: PathModel,
    depth: nat,
    entries: Vec<DiskEntry>,
    order: Seq<int>,
    n: nat,
    i: int,
    j: int,
)
    requires
        sound_listing(Ok(entries)),
        n <= order.len(),
        order.no_duplicates(),
        forall|k: int| 0 <= k < order.len() ==> 0 <= #[trigger] order[k] < entries@.len(),
        0 <= i < j < fs_tree::walk_entries(
            rules,
            expanded,
            dir,
            depth,
            entries@,
            order,
            n,
        ).rows.len(),
    ensures
        fs_tree::walk_entries(rules, expanded, dir, depth, entries@, order, n).rows[i].path
            != fs_tree::walk_entries(rules, expanded, dir, depth, entries@, order, n).rows[j].path,
    decreases entries, n,
{
    let before = fs_tree::walk_entries(
        rules,
        expanded,
        dir,
        depth,
        entries@,
        order,
        (n - 1) as nat,
    );
    let all = fs_tree::walk_entries(rules, expanded, dir, depth, entries@, order, n);
    let last = order[n - 1];
    let entry = entries@[last];
    let own = fs_tree::row_for(expanded, dir, depth, entry);
    let at = before.rows.len() as int;
    if j < at {
        lemma_entry_rows_differ(
            rules,
            expanded,
            dir,
            depth,
            entries,
            order,
            (n - 1) as nat,
            i,
            j,
        );
    } else {
        let inside = fs_tree::walk_dir(rules, expanded, own.path, depth + 1, entry.listing);
        if j > at {
            rows_belong(rules, expanded, own.path, depth + 1, entry.listing, j - at - 1);
        }
        if i < at {
            let m = lemma_rows_lie_below(
                rules,
                expanded,
                dir,
                depth,
                entries,
                order,
                (n - 1) as nat,
                i,
            );
            assert(order[m] != last);
            assert(entries@[order[m]].name@ != entry.name@);
            let d = dir.parts.len() as int;
            if j > at {
                let row = inside.rows[j - at - 1];
                assert(own.path.parts[d] == row.path.parts.subrange(0, d + 1)[d]);
            }
            assert(all.rows[j].path.parts[d] == entry.name@);
        } else if i > at {
            assert(decreases_to!(entries => entries@));
            assert(decreases_to!(entries@ => entries@[last]));
            assert(decreases_to!(entries@[last] => entries@[last].listing));
            rows_differ(
                rules,
                expanded,
                own.path,
                depth + 1,
                entry.listing,
                i - at - 1,
                j - at - 1,
            );
        }
    }
}

/// As long as the disk and the ignore file stay as they are, opening a directory and closing
/// it again, or closing it and opening it again, gives back the explorer as it was.
pub proof fn toggling_twice_restores(tree: TreeModel, content: Seq<char>, listing: Listing)
    requires
        sound_listing(listing),
        tree == tree.refreshed(content, listing),
        tree.walk(content, listing).fault is None,
        tree.selected_entry() is Some,
        tree.selected_entry()->0.kind == TreeEntryKind::Directory,
        tree.turned().walk(content, listing).fault is None,
    ensures
        tree.turned().refreshed(content, listing).turned().refreshed(content, listing) == tree,
{
    let rules = RulesModel { root: tree.root, patterns: ignore::parse_text(content) };
    let row = tree.selected_entry()->0;
    let i = tree.selected as int;
    toggling_turns_the_selected_directory(tree, content, listing);
    rows_belong(rules, tree.expanded, tree.root, 0, listing, i);
    let once = tree.turned().refreshed(content, listing);
    assert(once.turned().expanded =~= tree.expanded);
    assert forall|k: int| 0 <= k < i implies (#[trigger] tree.visible[k]).path
        != tree.visible[i].path by {
        rows_differ(rules, tree.expanded, tree.root, 0, listing, k, i);
    }
    fs_tree::lemma_row_index(tree.visible, row.path, i);
    assert(once.turned().refreshed(content, listing) =~= tree);
}

proof fn lemma_row_is_found(rows: Seq<fs_tree::EntryModel>, path: PathModel, i: int)
    requires
        0 <= i < rows.len(),
        rows[i].path == path,
    ensures
        fs_tree::row_index(rows, path) <= i,
        rows[fs_tree::row_index(rows, path) as int].path == path,
    decreases rows.len(),
{
    if rows[0].path != path {
        let rest = rows.skip(1);
        assert(rest[i - 1] == rows[i]);
        lemma_row_is_found(rest, path, i - 1);
        let k = fs_tree::row_index(rest, path) as int;
        assert(rest[k] == rows[k + 1]);
    }
}

/// However the explorer changes, the selected entry stays selected as long as it is shown.
pub proof fn selection_follows_its_row(
    tree: TreeModel,
    content: Seq<char>,
    listing: Listing,
    i: int,
)
    requires
        tree.selected_entry() is Some,
        tree.walk(content, listing).fault is None,
        0 <= i < tree.walk(content, listing).rows.len(),
        tree.walk(content, listing).rows[i].path == tree.selected_entry()->0.path,
    ensures
        tree.refreshed(content, listing).selected_entry() is Some,
        tree.refreshed(content, listing).selected_entry()->0.path
            == tree.selected_entry()->0.path,
{
    lemma_row_is_found(
        tree.walk(content, listing).rows,
        tree.selected_entry()->0.path,
        i,
    );
}

/// No file of the workspace is listed twice.
pub proof fn files_differ(rules: RulesModel, dir: PathModel, listing: Listing)
    requires
        sound_listing(listing),
    ensures
        fs_tree::files_below(rules, dir, listing).no_duplicates(),
    decreases listing, 0nat,
{
    if let Ok(entries) = listing {
        assert(decreases_to!(listing => entries));
        lemma_entry_files_differ(rules, dir, entries, entries@.len());
    }
}

/// A file that an entry contributes goes through the name of that entry.
proof fn lemma_given_file_is_below(
    rules: RulesModel,
    dir: PathModel,
    entries: Seq<DiskEntry>,
    i: int,
    file: PathModel,
)
    requires
        gives(rules, dir, entries, i, file),
    ensures
        file.parts.len() > dir.parts.len(),
        file.parts[dir.parts.len() as int] == entries[i].name@,
{
    let inner = dir.child(entries[i].name@);
    files_are_those_kept(rules, inner, entries[i].listing, file);
    lemma_child_prefix(dir, entries[i].name@, file);
}

proof fn lemma_entry_files_differ(
    rules: RulesModel,
    dir: PathModel,
    entries: Vec<DiskEntry>,
    n: nat,
)
    requires
        sound_listing(Ok(entries)),
        n <= entries@.len(),
    ensures
        fs_tree::files_of_entries(rules, dir, entries@, n).no_duplicates(),
    decreases entries, n,
{
    if n > 0 {
        lemma_entry_files_differ(rules, dir, entries, (n - 1) as nat);
        let before = fs_tree::files_of_entries(rules, dir, entries@, (n - 1) as nat);
        let all = fs_tree::files_of_entries(rules, dir, entries@, n);
        let entry = entries@[n - 1];
        let path = dir.child(entry.name@);
        let inside = fs_tree::files_below(rules, path, entry.listing);
        assert(decreases_to!(entries => entries@));
        assert(decreases_to!(entries@ => entries@[n - 1]));
        assert(decreases_to!(entries@[n - 1] => entries@[n - 1].listing));
        files_differ(rules, path, entry.listing);
        assert forall|i: int, j: int|
            0 <= i < all.len() && 0 <= j < all.len() && i != j implies all[i] != all[j] by {
            let low = if i < j { i } else { j };
            let high = if i < j { j } else { i };
            let at = before.len() as int;
            if high >= at {
                if entry.leads_to_dir {
                    assert(inside[high - at] == all[high]);
                    assert(inside.contains(all[high]));
                }
                assert(gives(rules, dir, entries@, n - 1, all[high]));
                lemma_given_file_is_below(rules, dir, entries@, n - 1, all[high]);
                if low < at {
                    assert(before[low] == all[low]);
                    assert(before.contains(all[low]));
                    lemma_files_of_entries(rules, dir, entries@, (n - 1) as nat, all[low]);
                    let k = choose|k: int|
                        0 <= k < n - 1 && gives(rules, dir, entries@, k, all[low]);
                    lemma_given_file_is_below(rules, dir, entries@, k, all[low]);
                    assert(entries@[k].name@ != entries@[n - 1].name@);
                } else {
                    assert(inside[low - at] == all[low]);
                }
            } else {
                assert(before[low] == all[low] && before[high] == all[high]);
            }
        }
    }
}

/// Nothing is shown below a directory that is not expanded.
pub proof fn closed_directory_hides_its_contents(
    rules: RulesModel,
    expanded: Set<PathModel>,
    dir: PathModel,
    depth: nat,
    listing: Listing,
    inner: PathModel,
    i: int,
)
    requires
        sound_listing(listing),
        inner.parts.len() > dir.parts.len(),
        !expanded.contains(inner),
        0 <= i < fs_tree::walk_dir(rules, expanded, dir, depth, listing).rows.len(),
    ensures
        ({
            let row = fs_tree::walk_dir(rules, expanded, dir, depth, listing).rows[i];
            row.path.starts_with(inner) ==> row.path == inner
        }),
{
    let row = fs_tree::walk_dir(rules, expanded, dir, depth, listing).rows[i];
    rows_belong(rules, expanded, dir, depth, listing, i);
    if row.path.starts_with(inner) {
        let n = inner.parts.len() as int;
        if n < row.path.parts.len() {
            assert(first_names(row.path, n) =~= inner);
        } else {
            assert(row.path.parts =~= inner.parts);
        }
    }
}

/// As long as the disk and the ignore file stay as they are, toggling the selected directory
/// turns its mark and leaves it selected. A directory that is closed by it shows nothing below
/// it.
pub proof fn toggling_turns_the_selected_directory(
    tree: TreeModel,
    content: Seq<char>,
    listing: Listing,
)
    requires
        sound_listing(listing),
        tree == tree.refreshed(content, listing),
        tree.walk(content, listing).fault is None,
        tree.selected_entry() is Some,
        tree.selected_entry()->0.kind == TreeEntryKind::Directory,
        tree.turned().walk(content, listing).fault is None,
    ensures
        ({
            let row = tree.selected_entry()->0;
            let once = tree.turned().refreshed(content, listing);
            &&& once.selected_entry() == Some(
                (fs_tree::EntryModel { expanded: !row.expanded, ..row }),
            )
            &&& row.expanded ==> forall|i: int|
                0 <= i < once.visible.len() && (#[trigger] once.visible[i]).path.starts_with(
                    row.path,
                ) ==> once.visible[i].path == row.path
        }),
{
    let rules = RulesModel { root: tree.root, patterns: ignore::parse_text(content) };
    let row = tree.selected_entry()->0;
    let i = tree.selected as int;
    rows_belong(rules, tree.expanded, tree.root, 0, listing, i);
    let other = tree.turned().expanded;
    assert(tree.visible[i] == row);
    lemma_row_stays(rules, tree.expanded, other, tree.root, 0, listing, row);
    let turned = fs_tree::EntryModel { expanded: other.contains(row.path), ..row };
    let once = tree.turned().refreshed(content, listing);
    let rows = once.visible;
    let j = choose|j: int| 0 <= j < rows.len() && rows[j] == turned;
    assert forall|k: int| 0 <= k < j implies (#[trigger] rows[k]).path != rows[j].path by {
        rows_differ(rules, other, tree.root, 0, listing, k, j);
    }
    fs_tree::lemma_row_index(rows, row.path, j);
    if row.expanded {
        assert forall|k: int|
            0 <= k < rows.len() && (#[trigger] rows[k]).path.starts_with(
                row.path,
            ) implies rows[k].path == row.path by {
            closed_directory_hides_its_contents(
                rules,
                other,
                tree.root,
                0,
                listing,
                row.path,
                k,
            );
        }
    }
}

/// To expand a directory that is not expanded, or to collapse one that is, is to toggle it; to
/// expand one that is expanded changes nothing.
pub proof fn expanding_and_collapsing_are_toggling(
    tree: TreeModel,
    content: Seq<char>,
    listing: Listing,
)
    requires
        sound_listing(listing),
        tree == tree.refreshed(content, listing),
        tree.walk(content, listing).fault is None,
        tree.selected_entry() is Some,
        tree.selected_entry()->0.kind == TreeEntryKind::Directory,
    ensures
        ({
            let row = tree.selected_entry()->0;
            let opened = tree.with_expanded(tree.expanded.insert(row.path));
            let collapsed = tree.with_expanded(tree.expanded.remove(row.path));
            if row.expanded {
                collapsed == tree.turned() && opened.refreshed(content, listing) == tree
            } else {
                opened == tree.turned()
            }
        }),
{
    let rules = RulesModel { root: tree.root, patterns: ignore::parse_text(content) };
    let row = tree.selected_entry()->0;
    rows_belong(rules, tree.expanded, tree.root, 0, listing, tree.selected as int);
    if row.expanded {
        assert(tree.expanded.insert(row.path) =~= tree.expanded);
    }
}

/// Of two names that first differ at index `k`, the one with the smaller byte there comes
/// first, however long the names are.
pub proof fn first_difference_decides(a: Seq<u8>, b: Seq<u8>, k: int)
    requires
        0 <= k < a.len(),
        k < b.len(),
        forall|i: int| 0 <= i < k ==> a[i] == b[i],
        a[k] != b[k],
    ensures
        fs_tree::name_before(a, b) <==> a[k] < b[k],
        fs_tree::name_before(b, a) <==> b[k] < a[k],
    decreases k,
{
    if k > 0 {
        assert(a[0] == b[0]);
        assert forall|i: int| 0 <= i < k - 1 implies a.skip(1)[i] == b.skip(1)[i] by {
            assert(a[i + 1] == b[i + 1]);
        }
        first_difference_decides(a.skip(1), b.skip(1), k - 1);
    }
}

/// A name that another one starts with comes before the longer one, and no name comes before
/// itself.
pub proof fn shorter_start_comes_first(a: Seq<u8>, b: Seq<u8>)
    requires
        a.len() <= b.len(),
        forall|i: int| 0 <= i < a.len() ==> a[i] == b[i],
    ensures
        fs_tree::name_before(a, b) <==> a.len() < b.len(),
        !fs_tree::name_before(b, a),
    decreases a.len(),
{
    if a.len() > 0 {
        assert(a[0] == b[0]);
        assert forall|i: int| 0 <= i < a.len() - 1 implies a.skip(1)[i] == b.skip(1)[i] by {
            assert(a[i + 1] == b[i + 1]);
        }
        shorter_start_comes_first(a.skip(1), b.skip(1));
    }
}

/// A directory comes before what is none, whatever the names are. Of two directories, and of
/// two entries that are none, the names decide: at the first index at which they differ, or by
/// which one the other starts with.
pub proof fn directories_come_first(a: DiskEntry, b: DiskEntry, k: int)
    requires
        0 <= k <= a.name@.len(),
        k < b.name@.len(),
        forall|i: int| 0 <= i < k ==> a.name@[i] == b.name@[i],
        k < a.name@.len() ==> a.name@[k] < b.name@[k],
    ensures
        a.leads_to_dir && !b.leads_to_dir ==> fs_tree::entry_before(a, b)
            && !fs_tree::entry_before(b, a),
        b.leads_to_dir && !a.leads_to_dir ==> fs_tree::entry_before(b, a)
            && !fs_tree::entry_before(a, b),
        a.leads_to_dir == b.leads_to_dir ==> fs_tree::entry_before(a, b)
            && !fs_tree::entry_before(b, a),
{
    if k < a.name@.len() {
        first_difference_decides(a.name@, b.name@, k);
    } else {
        shorter_start_comes_first(a.name@, b.name@);
    }
}

/// The names that are never shown are, byte for byte, `.git`, `.debth` and `target`.
pub proof fn three_names_are_never_shown(name: Seq<u8>)
    ensures
        fs_tree::is_builtin_name(name) <==> (name == seq![46u8, 103u8, 105u8, 116u8] || name
            == seq![46u8, 100u8, 101u8, 98u8, 116u8, 104u8] || name == seq![
            116u8,
            97u8,
            114u8,
            103u8,
            101u8,
            116u8,
        ]),
{
    reveal_strlit(".git");
    reveal_strlit(".debth");
    reveal_strlit("target");
    vstd::utf8::is_ascii_chars_encode_utf8(".git"@);
    vstd::utf8::is_ascii_chars_encode_utf8(".debth"@);
    vstd::utf8::is_ascii_chars_encode_utf8("target"@);
    let a = vstd::utf8::encode_utf8(".git"@);
    let b = vstd::utf8::encode_utf8(".debth"@);
    let c = vstd::utf8::encode_utf8("target"@);
    assert(".git"@[0] == '.' && ".git"@[1] == 'g' && ".git"@[2] == 'i' && ".git"@[3] == 't');
    assert(a =~= seq![46u8, 103u8, 105u8, 116u8]);
    assert(".debth"@[0] == '.' && ".debth"@[1] == 'd' && ".debth"@[2] == 'e' && ".debth"@[3] == 'b'
        && ".debth"@[4] == 't' && ".debth"@[5] == 'h');
    assert(b =~= seq![46u8, 100u8, 101u8, 98u8, 116u8, 104u8]);
    assert("target"@[0] == 't' && "target"@[1] == 'a' && "target"@[2] == 'r' && "target"@[3] == 'g'
        && "target"@[4] == 'e' && "target"@[5] == 't');
    assert(c =~= seq![116u8, 97u8, 114u8, 103u8, 101u8, 116u8]);
}

/// Whether a row is the one for an entry of `dir`: it has the entry's path and name, and is
/// open where the entry is a directory that has been opened.
pub open spec fn is_row_for(
    row: fs_tree::EntryModel,
    expanded: Set<PathModel>,
    dir: PathModel,
    depth: nat,
    entry: DiskEntry,
) -> bool {
    &&& row.path.absolute == dir.absolute
    &&& row.path.parts == dir.parts + seq![entry.name@]
    &&& vstd::utf8::valid_utf8(entry.name@) ==> vstd::utf8::encode_utf8(row.name) == entry.name@
    &&& row.depth == depth
    &&& row.kind == TreeEntryKind::Directory <==> entry.entry_type is Directory
    &&& row.expanded <==> entry.entry_type is Directory && expanded.contains(row.path)
}

proof fn lemma_is_row_for(
    expanded: Set<PathModel>,
    dir: PathModel,
    depth: nat,
    entry: DiskEntry,
)
    ensures
        is_row_for(fs_tree::row_for(expanded, dir, depth, entry), expanded, dir, depth, entry),
{
    let row = fs_tree::row_for(expanded, dir, depth, entry);
    assert(row.path.parts =~= dir.parts + seq![entry.name@]);
    if vstd::utf8::valid_utf8(entry.name@) {
        vstd::utf8::decode_utf8_encode_utf8(entry.name@);
    }
}

/// The rows that walking the first entries gives are the first rows of walking all of them.
proof fn lemma_walk_prefix(
    rules: RulesModel,
    expanded: Set<PathModel>,
    dir: PathModel,
    depth: nat,
    entries: Seq<DiskEntry>,
    order: Seq<int>,
    n: nat,
    m: nat,
)
    requires
        n <= m <= order.len(),
        forall|k: int| 0 <= k < order.len() ==> 0 <= #[trigger] order[k] < entries.len(),
        fs_tree::walk_entries(rules, expanded, dir, depth, entries, order, m).fault is None,
    ensures
        fs_tree::walk_entries(rules, expanded, dir, depth, entries, order, n).fault is None,
        fs_tree::walk_entries(rules, expanded, dir, depth, entries, order, n).rows.is_prefix_of(
            fs_tree::walk_entries(rules, expanded, dir, depth, entries, order, m).rows,
        ),
    decreases m - n,
{
    let rows_n = fs_tree::walk_entries(rules, expanded, dir, depth, entries, order, n).rows;
    let rows_m = fs_tree::walk_entries(rules, expanded, dir, depth, entries, order, m).rows;
    if n < m {
        let rows = fs_tree::walk_entries(
            rules,
            expanded,
            dir,
            depth,
            entries,
            order,
            (m - 1) as nat,
        ).rows;
        lemma_walk_prefix(rules, expanded, dir, depth, entries, order, n, (m - 1) as nat);
        assert(rows =~= rows_m.subrange(0, rows.len() as int));
        assert(rows_n =~= rows.subrange(0, rows_n.len() as int));
    }
    assert(rows_n =~= rows_m.subrange(0, rows_n.len() as int));
}

/// Every entry of a directory that is not hidden has its row. Behind the row of a directory
/// that is open stand the rows of what lies in it, all of them and in their order.
pub proof fn contents_follow_their_directory(
    rules: RulesModel,
    expanded: Set<PathModel>,
    dir: PathModel,
    depth: nat,
    entries: Vec<DiskEntry>,
    i: int,
) -> (at: int)
    requires
        fs_tree::walk_dir(rules, expanded, dir, depth, Ok(entries)).fault is None,
        0 <= i < entries@.len(),
        !fs_tree::is_hidden_entry(rules, dir, entries@[i]),
    ensures
        ({
            let rows = fs_tree::walk_dir(rules, expanded, dir, depth, Ok(entries)).rows;
            let row = rows[at];
            let inside = fs_tree::walk_dir(
                rules,
                expanded,
                row.path,
                depth + 1,
                entries@[i].listing,
            );
            &&& 0 <= at < rows.len()
            &&& is_row_for(row, expanded, dir, depth, entries@[i])
            &&& row == fs_tree::row_for(expanded, dir, depth, entries@[i])
            &&& row.expanded ==> inside.fault is None && at + 1 + inside.rows.len() <= rows.len()
                && rows.subrange(at + 1, at + 1 + inside.rows.len()) == inside.rows
        }),
{
    let order = fs_tree::shown_order(rules, dir, entries@, entries@.len());
    shown_entries_are_in_order(rules, dir, entries@, entries@.len());
    assert(order.contains(i));
    let k = choose|k: int| 0 <= k < order.len() && order[k] == i;
    lemma_row_of_entry(rules, expanded, dir, depth, entries, k)
}

/// Where the row of the entry at index `k` of the order stands.
proof fn lemma_row_of_entry(
    rules: RulesModel,
    expanded: Set<PathModel>,
    dir: PathModel,
    depth: nat,
    entries: Vec<DiskEntry>,
    k: int,
) -> (at: int)
    requires
        fs_tree::walk_dir(rules, expanded, dir, depth, Ok(entries)).fault is None,
        0 <= k < fs_tree::shown_order(rules, dir, entries@, entries@.len()).len(),
    ensures
        ({
            let order = fs_tree::shown_order(rules, dir, entries@, entries@.len());
            let entry = entries@[order[k]];
            let rows = fs_tree::walk_dir(rules, expanded, dir, depth, Ok(entries)).rows;
            let row = fs_tree::row_for(expanded, dir, depth, entry);
            let inside = fs_tree::walk_dir(rules, expanded, row.path, depth + 1, entry.listing);
            &&& at == fs_tree::walk_entries(
                rules,
                expanded,
                dir,
                depth,
                entries@,
                order,
                k as nat,
            ).rows.len()
            &&& 0 <= at < rows.len()
            &&& rows[at] == row
            &&& is_row_for(row, expanded, dir, depth, entry)
            &&& row.expanded ==> inside.fault is None && at + 1 + inside.rows.len() <= rows.len()
                && rows.subrange(at + 1, at + 1 + inside.rows.len()) == inside.rows
        }),
{
    let order = fs_tree::shown_order(rules, dir, entries@, entries@.len());
    shown_entries_are_in_order(rules, dir, entries@, entries@.len());
    assert forall|x: int| 0 <= x < order.len() implies 0 <= #[trigger] order[x]
        < entries@.len() by {
        assert(order.contains(order[x]));
    }
    let n = k as nat;
    let entry = entries@[order[k]];
    let rows = fs_tree::walk_dir(rules, expanded, dir, depth, Ok(entries)).rows;
    let row = fs_tree::row_for(expanded, dir, depth, entry);
    let inside = fs_tree::walk_dir(rules, expanded, row.path, depth + 1, entry.listing);
    lemma_walk_prefix(rules, expanded, dir, depth, entries@, order, n + 1, order.len());
    lemma_walk_prefix(rules, expanded, dir, depth, entries@, order, n, order.len());
    lemma_is_row_for(expanded, dir, depth, entry);
    let before = fs_tree::walk_entries(rules, expanded, dir, depth, entries@, order, n);
    let upto = fs_tree::walk_entries(rules, expanded, dir, depth, entries@, order, n + 1);
    let at = before.rows.len() as int;
    assert(upto.rows =~= rows.subrange(0, upto.rows.len() as int));
    assert(order[n + 1 - 1] == order[k]);
    assert(upto.rows[at] == row);
    if row.expanded {
        assert(upto.rows =~= before.rows.push(row) + inside.rows);
        let shown = rows.subrange(at + 1, at + 1 + inside.rows.len());
        assert forall|x: int| 0 <= x < inside.rows.len() implies shown[x] == inside.rows[x] by {
            assert(shown[x] == rows[at + 1 + x]);
            assert(rows[at + 1 + x] == upto.rows[at + 1 + x]);
            assert(upto.rows[at + 1 + x] == inside.rows[x]);
        }
        assert(shown =~= inside.rows);
    }
    at
}

/// The rows of two entries of a directory stand in the order of the entries: directories
/// first, then by name.
pub proof fn rows_stand_in_order(
    rules: RulesModel,
    expanded: Set<PathModel>,
    dir: PathModel,
    depth: nat,
    entries: Vec<DiskEntry>,
    i: int,
    j: int,
    k: int,
    x: int,
    y: int,
)
    requires
        sound_listing(Ok(entries)),
        fs_tree::walk_dir(rules, expanded, dir, depth, Ok(entries)).fault is None,
        0 <= i < entries@.len(),
        0 <= j < entries@.len(),
        entries@[i].leads_to_dir && !entries@[j].leads_to_dir || (entries@[i].leads_to_dir
            == entries@[j].leads_to_dir && 0 <= k <= entries@[i].name@.len() && k
            < entries@[j].name@.len() && (forall|n: int|
            0 <= n < k ==> #[trigger] entries@[i].name@[n] == entries@[j].name@[n]) && (k
            < entries@[i].name@.len() ==> entries@[i].name@[k] < entries@[j].name@[k])),
        0 <= x < fs_tree::walk_dir(rules, expanded, dir, depth, Ok(entries)).rows.len(),
        0 <= y < fs_tree::walk_dir(rules, expanded, dir, depth, Ok(entries)).rows.len(),
        fs_tree::walk_dir(rules, expanded, dir, depth, Ok(entries)).rows[x].path == dir.child(
            entries@[i].name@,
        ),
        fs_tree::walk_dir(rules, expanded, dir, depth, Ok(entries)).rows[y].path == dir.child(
            entries@[j].name@,
        ),
    ensures
        x < y,
{
    let order = fs_tree::shown_order(rules, dir, entries@, entries@.len());
    let rows = fs_tree::walk_dir(rules, expanded, dir, depth, Ok(entries)).rows;
    shown_entries_are_in_order(rules, dir, entries@, entries@.len());
    assert forall|n: int| 0 <= n < order.len() implies 0 <= #[trigger] order[n]
        < entries@.len() by {
        assert(order.contains(order[n]));
    }
    if entries@[i].leads_to_dir == entries@[j].leads_to_dir {
        directories_come_first(entries@[i], entries@[j], k);
    }
    let a = lemma_place_in_order(rules, expanded, dir, depth, entries, i, x);
    let b = lemma_place_in_order(rules, expanded, dir, depth, entries, j, y);
    if b < a {
        assert(order[b] == j && order[a] == i);
        assert(fs_tree::entry_before(entries@[i], entries@[j]));
        lemma_one_way(entries@[i], entries@[j]);
    }
    assert(i != j) by {
        lemma_one_way(entries@[i], entries@[j]);
    }
    assert(a < b);
    let px = lemma_row_of_entry(rules, expanded, dir, depth, entries, a);
    let py = lemma_row_of_entry(rules, expanded, dir, depth, entries, b);
    lemma_walk_prefix(rules, expanded, dir, depth, entries@, order, b as nat, order.len());
    lemma_walk_prefix(rules, expanded, dir, depth, entries@, order, (a + 1) as nat, b as nat);
    if px < x {
        rows_differ(rules, expanded, dir, depth, Ok(entries), px, x);
    } else if x < px {
        rows_differ(rules, expanded, dir, depth, Ok(entries), x, px);
    }
    if py < y {
        rows_differ(rules, expanded, dir, depth, Ok(entries), py, y);
    } else if y < py {
        rows_differ(rules, expanded, dir, depth, Ok(entries), y, py);
    }
}

/// An entry whose row is there has a place in the order.
proof fn lemma_place_in_order(
    rules: RulesModel,
    expanded: Set<PathModel>,
    dir: PathModel,
    depth: nat,
    entries: Vec<DiskEntry>,
    i: int,
    x: int,
) -> (a: int)
    requires
        sound_listing(Ok(entries)),
        fs_tree::walk_dir(rules, expanded, dir, depth, Ok(entries)).fault is None,
        0 <= i < entries@.len(),
        0 <= x < fs_tree::walk_dir(rules, expanded, dir, depth, Ok(entries)).rows.len(),
        fs_tree::walk_dir(rules, expanded, dir, depth, Ok(entries)).rows[x].path == dir.child(
            entries@[i].name@,
        ),
    ensures
        0 <= a < fs_tree::shown_order(rules, dir, entries@, entries@.len()).len(),
        fs_tree::shown_order(rules, dir, entries@, entries@.len())[a] == i,
{
    let order = fs_tree::shown_order(rules, dir, entries@, entries@.len());
    shown_entries_are_in_order(rules, dir, entries@, entries@.len());
    assert forall|n: int| 0 <= n < order.len() implies 0 <= #[trigger] order[n]
        < entries@.len() by {
        assert(order.contains(order[n]));
    }
    let m = lemma_rows_lie_below(rules, expanded, dir, depth, entries, order, order.len(), x);
    let rows = fs_tree::walk_dir(rules, expanded, dir, depth, Ok(entries)).rows;
    assert(rows[x].path.parts[dir.parts.len() as int] == entries@[i].name@);
    let other = order[m];
    if other < i {
        assert(entries@[other].name@ != entries@[i].name@);
    } else if i < other {
        assert(entries@[i].name@ != entries@[other].name@);
    }
    m
}

/// After the selected entry has gone the selection stays at its index, or at the last row
/// where there are fewer.
pub proof fn selection_stays_at_its_index(tree: TreeModel, content: Seq<char>, listing: Listing)
    requires
        tree.walk(content, listing).fault is None,
        tree.selected_entry() is Some ==> forall|i: int|
            0 <= i < tree.walk(content, listing).rows.len() ==> (
            #[trigger] tree.walk(content, listing).rows[i]).path != tree.selected_entry()->0.path,
    ensures
        ({
            let after = tree.refreshed(content, listing);
            &&& after.visible == tree.walk(content, listing).rows
            &&& after.root == tree.root
            &&& after.expanded == tree.expanded
            &&& tree.selected < after.visible.len() ==> after.selected == tree.selected
            &&& tree.selected >= after.visible.len() > 0 ==> after.selected + 1
                == after.visible.len()
            &&& after.visible.len() == 0 ==> after.selected == 0
        }),
{
    let rows = tree.walk(content, listing).rows;
    if tree.selected_entry() is Some {
        fs_tree::lemma_row_index(rows, tree.selected_entry()->0.path, rows.len() as int);
    }
}

/// Going to the directory around an entry selects its row; where that is the root, or has no
/// row, nothing changes. The rows and what is open stay as they are either way.
pub proof fn parent_is_selected(tree: TreeModel, i: int)
    requires
        tree.selected_entry() is Some,
        tree.selected_entry()->0.path.parts.len() > 0,
        0 <= i < tree.visible.len(),
    ensures
        ({
            let path = tree.selected_entry()->0.path;
            let around = PathModel { absolute: path.absolute, parts: path.parts.drop_last() };
            let after = tree.at_parent();
            &&& after.visible == tree.visible && after.expanded == tree.expanded && after.root
                == tree.root && after.rules == tree.rules
            &&& around == tree.root ==> after == tree
            &&& around != tree.root && tree.visible[i].path == around ==> after.selected <= i
                && after.selected_entry() is Some && after.selected_entry()->0.path == around
            &&& (forall|k: int| 0 <= k < tree.visible.len() ==> #[trigger] tree.visible[k].path
                != around) ==> after == tree
        }),
{
    let path = tree.selected_entry()->0.path;
    let around = PathModel { absolute: path.absolute, parts: path.parts.drop_last() };
    if tree.visible[i].path == around {
        lemma_row_is_found(tree.visible, around, i);
    }
    if forall|k: int| 0 <= k < tree.visible.len() ==> #[trigger] tree.visible[k].path != around {
        fs_tree::lemma_row_index(tree.visible, around, tree.visible.len() as int);
    }
}

/// Moving the selection goes one row down or up and stops at the ends: a step down and a step
/// up again is no step, unless the selection was on the last row.
pub proof fn selection_moves_by_one_row(tree: TreeModel)
    requires
        tree.in_range(),
    ensures
        tree.selected + 1 < tree.visible.len() ==> tree.down().selected == tree.selected + 1
            && tree.down().up() == tree,
        tree.selected + 1 >= tree.visible.len() ==> tree.down() == tree,
        tree.selected > 0 ==> tree.up().selected + 1 == tree.selected && tree.up().down() == tree,
        tree.selected == 0 ==> tree.up() == tree,
{
}

/// A directory that cannot be read is a fault, and shows nothing.
pub proof fn unreadable_directory_is_a_fault(
    rules: RulesModel,
    expanded: Set<PathModel>,
    dir: PathModel,
    depth: nat,
    reason: String,
)
    ensures
        fs_tree::walk_dir(rules, expanded, dir, depth, Err(reason)).rows.len() == 0,
        fs_tree::walk_dir(rules, expanded, dir, depth, Err(reason)).fault == Some(
            (fs_tree::TreeFault::Listing { dir, reason: reason@ }),
        ),
{
}

/// Whether an entry of `dir` stands in the way of showing the directory: it is not hidden, and
/// its type cannot be told, or it is a directory that is open and cannot be shown.
pub open spec fn stands_in_the_way(
    rules: RulesModel,
    expanded: Set<PathModel>,
    dir: PathModel,
    depth: nat,
    entry: DiskEntry,
) -> bool {
    !fs_tree::is_hidden_entry(rules, dir, entry) && (entry.entry_type is Unknown || (
    entry.entry_type is Directory && expanded.contains(dir.child(entry.name@))
        && fs_tree::walk_dir(
        rules,
        expanded,
        dir.child(entry.name@),
        depth + 1,
        entry.listing,
    ).fault is Some))
}

/// A directory is shown without a fault exactly when none of its entries stands in the way.
/// What is hidden, or lies in a directory that is closed, does no harm.
pub proof fn walk_fails_only_for_what_is_shown(
    rules: RulesModel,
    expanded: Set<PathModel>,
    dir: PathModel,
    depth: nat,
    entries: Vec<DiskEntry>,
)
    ensures
        fs_tree::walk_dir(rules, expanded, dir, depth, Ok(entries)).fault is None <==> forall|
            i: int,
        |
            0 <= i < entries@.len() ==> !stands_in_the_way(
                rules,
                expanded,
                dir,
                depth,
                #[trigger] entries@[i],
            ),
{
    let order = fs_tree::shown_order(rules, dir, entries@, entries@.len());
    shown_entries_are_in_order(rules, dir, entries@, entries@.len());
    assert forall|x: int| 0 <= x < order.len() implies 0 <= #[trigger] order[x] < entries@.len()
        && !fs_tree::is_hidden_entry(rules, dir, entries@[order[x]]) by {
        assert(order.contains(order[x]));
    }
    if fs_tree::walk_dir(rules, expanded, dir, depth, Ok(entries)).fault is None {
        let row = fs_tree::row_for(expanded, dir, depth, arbitrary());
        lemma_rows_shown(rules, expanded, dir, depth, entries@, order, order.len(), row);
        assert forall|i: int| 0 <= i < entries@.len() implies !stands_in_the_way(
            rules,
            expanded,
            dir,
            depth,
            #[trigger] entries@[i],
        ) by {
            if !fs_tree::is_hidden_entry(rules, dir, entries@[i]) {
                assert(order.contains(i));
                let k = choose|k: int| 0 <= k < order.len() && order[k] == i;
                assert(!(entries@[order[k]].entry_type is Unknown));
            }
        }
    }
    if forall|i: int|
        0 <= i < entries@.len() ==> !stands_in_the_way(
            rules,
            expanded,
            dir,
            depth,
            #[trigger] entries@[i],
        ) {
        lemma_walk_goes_on(rules, expanded, dir, depth, entries@, order, order.len());
    }
}

proof fn lemma_walk_goes_on(
    rules: RulesModel,
    expanded: Set<PathModel>,
    dir: PathModel,
    depth: nat,
    entries: Seq<DiskEntry>,
    order: Seq<int>,
    n: nat,
)
    requires
        n <= order.len(),
        forall|k: int|
            0 <= k < order.len() ==> 0 <= #[trigger] order[k] < entries.len()
                && !fs_tree::is_hidden_entry(rules, dir, entries[order[k]]),
        forall|i: int|
            0 <= i < entries.len() ==> !stands_in_the_way(
                rules,
                expanded,
                dir,
                depth,
                #[trigger] entries[i],
            ),
    ensures
        fs_tree::walk_entries(rules, expanded, dir, depth, entries, order, n).fault is None,
    decreases n,
{
    if n > 0 {
        lemma_walk_goes_on(rules, expanded, dir, depth, entries, order, (n - 1) as nat);
        assert(!stands_in_the_way(rules, expanded, dir, depth, entries[order[n - 1]]));
    }
}

/// An explorer is brought up to date by reading the rules and the disk anew; the root and what
/// is open stay as they are.
pub proof fn refreshing_reads_everything_anew(
    tree: TreeModel,
    content: Seq<char>,
    listing: Listing,
)
    ensures
        ({
            let after = tree.refreshed(content, listing);
            let rules = RulesModel { root: tree.root, patterns: ignore::parse_text(content) };
            &&& after.root == tree.root
            &&& after.expanded == tree.expanded
            &&& after.rules.root == tree.root
            &&& after.rules.patterns == ignore::parse_text(content)
            &&& after.visible == fs_tree::walk_dir(rules, tree.expanded, tree.root, 0, listing).rows
        }),
{
}

/// A new explorer has its root open and nothing else, and starts with the first row.
pub proof fn new_explorer_starts_closed(root: PathModel, path: PathModel)
    ensures
        fs_tree::fresh_tree(root).root == root,
        fs_tree::fresh_tree(root).expanded.contains(path) <==> path == root,
        fs_tree::fresh_tree(root).visible.len() == 0,
        fs_tree::fresh_tree(root).selected == 0,
{
}

/// The line that is written for the selected entry is its names below the root, with a slash
/// before each of them, and one behind for a directory.
pub proof fn ignored_entry_is_written_by_its_names(tree: TreeModel, names: Seq<Seq<char>>)
    requires
        names.len() > 0,
        forall|i: int| 0 <= i < names.len() ==> (#[trigger] names[i]).len() > 0,
        tree.selected_entry() is Some,
        tree.selected_entry()->0.path == (PathModel {
            absolute: tree.root.absolute,
            parts: tree.root.parts + rule_laws::name_bytes(names),
        }),
    ensures
        tree.selected_entry()->0.kind == TreeEntryKind::File ==> tree.ignore_line() == seq!['/']
            + text::join(names, '/'),
        tree.selected_entry()->0.kind == TreeEntryKind::Directory ==> tree.ignore_line() == seq!['/']
            + text::join(names, '/') + seq!['/'],
{
    let path = tree.selected_entry()->0.path;
    rule_laws::names_below_the_root(tree.root, names);
    rule_laws::written_line_has_its_slashes(text::join(names, '/'));
}

/// Opening a directory adds it to those that are open, and closing takes it out again; no
/// other directory is opened or closed.
pub proof fn turning_changes_one_directory(tree: TreeModel, path: PathModel)
    requires
        tree.selected_entry() is Some,
    ensures
        ({
            let entry = tree.selected_entry()->0;
            let after = tree.turned();
            &&& after == tree.with_expanded(after.expanded)
            &&& after.visible == tree.visible && after.selected == tree.selected && after.root
                == tree.root && after.rules == tree.rules
            &&& after.expanded.contains(entry.path) <==> !entry.expanded
            &&& path != entry.path ==> (after.expanded.contains(path) <==> tree.expanded.contains(
                path,
            ))
        }),
{
}

} // verus!
