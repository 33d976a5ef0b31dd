//! What holds of the reviews of a workspace, whatever files it has.

use vstd::prelude::*;

use crate::digest;
use crate::git;
use crate::path;
use crate::path::PathModel;
use crate::path_laws;
use crate::review;
use crate::review::LineState;
use crate::review::ReviewModel;
use crate::review_laws;
use crate::rule_laws;
use crate::store;
use crate::store::DiskModel;
use crate::store::RecordModel;
use crate::store::StoreConfig;
use crate::store::StoreModel;
use crate::store::WorkspaceFile;
use crate::text;
use crate::text_laws;

verus! {

/// A file is known by its path below the root, whether it is named by that path or by its
/// whole path; a path elsewhere is refused.
pub proof fn files_are_known_below_the_root(root: PathModel, rest: PathModel, other: PathModel)
    requires
        root.absolute,
        !rest.absolute,
    ensures
        store::relative_of(root, rest) == Some(rest),
        store::relative_of(root, root.join(rest)) == Some(rest),
        other.absolute && !root.parts.is_prefix_of(other.parts) ==> store::relative_of(root, other)
            is None,
{
    path_laws::joined_path_lies_below(root, rest);
}

/// Different files have different paths below the root.
pub proof fn different_files_are_told_apart(root: PathModel, a: PathModel, b: PathModel)
    requires
        root.absolute,
        a.absolute,
        b.absolute,
        store::relative_of(root, a) is Some,
        store::relative_of(root, a) == store::relative_of(root, b),
    ensures
        a == b,
{
    path_laws::path_is_its_base_and_the_rest(a, root);
    path_laws::path_is_its_base_and_the_rest(b, root);
}

/// A review that is remembered is what the file is known by from then on, whatever lies on
/// disk; every other file is known as before, and so are the root and the settings.
pub proof fn remembered_review_is_found_again(
    store: StoreModel,
    path: PathModel,
    review: ReviewModel,
    other: PathModel,
    disk: DiskModel,
)
    requires
        store::relative_of(store.root, path) is Some,
        store::relative_of(store.root, other) is Some,
        store::relative_of(store.root, other) != store::relative_of(store.root, path),
    ensures
        ({
            let after = store.with(store::relative_of(store.root, path)->0, review);
            &&& after.root == store.root && after.config == store.config
            &&& after.knows(path)
            &&& after.review_of(path, disk) == review
            &&& after.knows(other) == store.knows(other)
            &&& after.review_of(other, disk) == store.review_of(other, disk)
        }),
{
}

/// A file that is not known has the review that is read from disk: its lines are those of the
/// content, each with a state.
pub proof fn unknown_file_is_read_from_disk(store: StoreModel, path: PathModel, disk: DiskModel)
    requires
        !store.knows(path),
        disk.content is Ok,
    ensures
        store.review_of(path, disk).lines == text::feed_lines(path::lossy(disk.content->Ok_0)),
        store.review_of(path, disk).states.len() == store.review_of(path, disk).lines.len(),
        disk.record is None ==> forall|i: int|
            0 <= i < store.review_of(path, disk).states.len()
                ==> #[trigger] store.review_of(path, disk).states[i] == LineState::Unreviewed,
{
}

/// Of a record with letters the letters count, one for each line; of an older one the list of
/// states.
pub proof fn letters_of_a_record_count(record: RecordModel, i: int)
    ensures
        record.state_codes.len() > 0 ==> record.saved_states().len() == record.state_codes.len(),
        record.state_codes.len() > 0 && 0 <= i < record.state_codes.len()
            ==> record.saved_states()[i] == review::state_of(record.state_codes[i]),
        record.state_codes.len() == 0 ==> record.saved_states() == record.states,
{
}

/// What is written of a review are its lines and a letter for each state; read again, the
/// record gives the review back. It is written where the file's path leads to.
pub proof fn written_record_holds_the_review(
    store: StoreModel,
    relative: PathModel,
    review: ReviewModel,
    i: int,
)
    requires
        0 <= i < review.states.len(),
    ensures
        ({
            let write = store.write_for(relative, review);
            &&& write.record.lines == review.lines
            &&& write.record.state_codes.len() == review.states.len()
            &&& write.record.state_codes[i] == (match review.states[i] {
                LineState::Accepted => 'a',
                LineState::Rejected => 'r',
                LineState::Unreviewed => 'u',
            })
            &&& write.record.saved_states() == review.states
            &&& write.path == store::record_place(store.root, relative)
        }),
{
    store::record_reads_back(review);
}

/// A record lies two directories below the root, in `.debth/files`, under a name that tells
/// its digest: files with different digests have different records.
pub proof fn records_lie_apart(root: PathModel, a: Seq<u8>, b: Seq<u8>)
    ensures
        store::digest_place(root, a).starts_with(root),
        store::digest_place(root, a).absolute == root.absolute,
        store::digest_place(root, a).parts.len() == root.parts.len() + 3,
        path::lossy(store::digest_place(root, a).parts[root.parts.len() as int]) == ".debth"@,
        path::lossy(store::digest_place(root, a).parts[root.parts.len() as int + 1]) == "files"@,
        path::lossy(store::digest_place(root, a).parts[root.parts.len() as int + 2]) == digest::hex(a)
            + ".json"@,
        store::digest_place(root, a) == store::digest_place(root, b) ==> a == b,
{
    let p = store::digest_place(root, a);
    let q = store::digest_place(root, b);
    assert(root.parts =~= p.parts.subrange(0, root.parts.len() as int));
    path_laws::valid_names_are_shown_unchanged(".debth"@);
    path_laws::valid_names_are_shown_unchanged("files"@);
    path_laws::valid_names_are_shown_unchanged(digest::hex(a) + ".json"@);
    path_laws::valid_names_are_shown_unchanged(digest::hex(b) + ".json"@);
    if p == q {
        assert(p.parts[root.parts.len() as int + 2] == q.parts[root.parts.len() as int + 2]);
        let x = digest::hex(a);
        let y = digest::hex(b);
        let end = ".json"@;
        assert(x + end == y + end);
        assert((x + end).len() == (y + end).len());
        assert forall|k: int| 0 <= k < x.len() implies x[k] == y[k] by {
            assert((x + end)[k] == x[k]);
            assert((y + end)[k] == y[k]);
        }
        assert(x =~= y);
        text_laws::different_bytes_have_different_hex(a, b);
    }
}

/// The record of a file is found by the digest of its names with a slash between them; paths
/// that are shown alike have the same record.
pub proof fn record_is_found_by_the_shown_path(
    root: PathModel,
    names: Seq<Seq<char>>,
    a: PathModel,
    b: PathModel,
)
    requires
        a.text() == b.text(),
    ensures
        store::record_place(
            root,
            PathModel { absolute: false, parts: rule_laws::name_bytes(names) },
        ) == store::digest_place(
            root,
            digest::sha256(vstd::utf8::encode_utf8(text::join(names, '/'))),
        ),
        store::record_place(root, a) == store::record_place(root, b),
{
    path_laws::path_is_shown_by_its_names(names);
}

/// How many lines of a file are in a state.
pub open spec fn lines_in(file: WorkspaceFile, state: LineState) -> nat {
    review::count(file.disk@.review().states, state)
}

/// The numbers of the workspace are the sums over its files.
pub proof fn workspace_numbers_are_sums(files: Seq<WorkspaceFile>)
    requires
        files.fold_left(
            0int,
            |n: int, file: WorkspaceFile| n + file.disk@.review().states.len(),
        ) <= usize::MAX,
    ensures
        store::stats_after(files).total == files.fold_left(
            0int,
            |n: int, file: WorkspaceFile| n + file.disk@.review().states.len(),
        ),
        store::stats_after(files).accepted == files.fold_left(
            0int,
            |n: int, file: WorkspaceFile| n + lines_in(file, LineState::Accepted),
        ),
        store::stats_after(files).rejected == files.fold_left(
            0int,
            |n: int, file: WorkspaceFile| n + lines_in(file, LineState::Rejected),
        ),
        store::stats_after(files).unreviewed == files.fold_left(
            0int,
            |n: int, file: WorkspaceFile| n + lines_in(file, LineState::Unreviewed),
        ),
    decreases files.len(),
{
    reveal(Seq::fold_left);
    lemma_line_count(files);
    if files.len() > 0 {
        let front = files.drop_last();
        let states = files.last().disk@.review().states;
        lemma_line_count(front);
        workspace_numbers_are_sums(front);
        store::workspace_counts_add_up(front);
        store::workspace_counts_add_up(files);
        review::counts_add_up(states);
    }
}

proof fn lemma_line_count(files: Seq<WorkspaceFile>)
    ensures
        store::line_count(files) == files.fold_left(
            0int,
            |n: int, file: WorkspaceFile| n + file.disk@.review().states.len(),
        ),
    decreases files.len(),
{
    reveal(Seq::fold_left);
    if files.len() > 0 {
        lemma_line_count(files.drop_last());
    }
}

/// After the files of the workspace have been loaded each of them is known by what was read
/// from disk, and files that are not among them are known as before.
pub proof fn loaded_files_are_known(
    store: StoreModel,
    files: Seq<WorkspaceFile>,
    i: int,
    other: PathModel,
)
    requires
        0 <= i < files.len(),
        forall|j: int|
            i < j < files.len() ==> store::relative_of(store.root, (#[trigger] files[j]).path@)->0
                != store::relative_of(store.root, files[i].path@)->0,
        forall|j: int|
            0 <= j < files.len() ==> store::relative_of(store.root, (#[trigger] files[j]).path@)->0
                != other,
    ensures
        ({
            let after = store::store_after(store, files);
            let relative = store::relative_of(store.root, files[i].path@)->0;
            &&& after.root == store.root && after.config == store.config
            &&& after.cache.dom().contains(relative)
            &&& after.cache[relative] == files[i].disk@.review()
            &&& after.cache.dom().contains(other) == store.cache.dom().contains(other)
            &&& store.cache.dom().contains(other) ==> after.cache[other] == store.cache[other]
        }),
    decreases files.len(),
{
    let front = files.drop_last();
    store::lemma_store_after_root(store, files);
    lemma_other_files(store, files, other);
    if i < files.len() - 1 {
        assert(front[i] == files[i]);
        assert forall|j: int| i < j < front.len() implies store::relative_of(
            store.root,
            (#[trigger] front[j]).path@,
        )->0 != store::relative_of(store.root, front[i].path@)->0 by {
            assert(front[j] == files[j]);
        }
        assert forall|j: int| 0 <= j < front.len() implies store::relative_of(
            store.root,
            (#[trigger] front[j]).path@,
        )->0 != other by {
            assert(front[j] == files[j]);
        }
        loaded_files_are_known(store, front, i, other);
        assert(files[files.len() - 1] == files.last());
    }
}

proof fn lemma_other_files(store: StoreModel, files: Seq<WorkspaceFile>, other: PathModel)
    requires
        forall|j: int|
            0 <= j < files.len() ==> store::relative_of(store.root, (#[trigger] files[j]).path@)->0
                != other,
    ensures
        ({
            let after = store::store_after(store, files);
            &&& after.cache.dom().contains(other) == store.cache.dom().contains(other)
            &&& store.cache.dom().contains(other) ==> after.cache[other] == store.cache[other]
        }),
    decreases files.len(),
{
    if files.len() > 0 {
        let front = files.drop_last();
        assert forall|j: int| 0 <= j < front.len() implies store::relative_of(
            store.root,
            (#[trigger] front[j]).path@,
        )->0 != other by {
            assert(front[j] == files[j]);
        }
        lemma_other_files(store, front, other);
        assert(files[files.len() - 1] == files.last());
    }
}

/// Each file that was loaded has its record written, in the order of the files.
pub proof fn each_loaded_file_is_written(store: StoreModel, files: Seq<WorkspaceFile>, i: int)
    requires
        0 <= i < files.len(),
    ensures
        store::writes_after(store, files).len() == files.len(),
        ({
            let write = store::writes_after(store, files)[i];
            let relative = store::relative_of(store.root, files[i].path@)->0;
            &&& write.path == store::record_place(store.root, relative)
            &&& write.record.lines == files[i].disk@.review().lines
            &&& write.record.saved_states() == files[i].disk@.review().states
        }),
{
    store::record_reads_back(files[i].disk@.review());
}

/// The question about `.gitignore` is asked only in a repository, only where it has not been
/// answered, and only while no line of the file names the directory; then it is always asked.
pub proof fn question_is_asked_once_and_only_in_a_repository(
    config: StoreConfig,
    is_git_repo: bool,
    content: Seq<char>,
)
    ensures
        store::asks_for_line(config, is_git_repo, None) <==> is_git_repo
            && !config.gitignore_prompted,
        store::asks_for_line(config, is_git_repo, Some(content)) <==> is_git_repo
            && !config.gitignore_prompted && !git::leaves_out_state(content),
        store::asks_for_line(config, is_git_repo, Some(git::with_state_line(content))) == false,
{
    git::state_line_is_seen(content);
}

/// A line that was marked is what the file is known by, and what its record says, until the
/// next mark: the other lines of the file and all other files keep what was said of them.
pub proof fn marked_line_is_remembered(
    store: StoreModel,
    path: PathModel,
    disk: DiskModel,
    line: int,
    state: LineState,
    other_line: int,
)
    requires
        store::relative_of(store.root, path) is Some,
        0 <= line < store.review_of(path, disk).states.len(),
        0 <= other_line < store.review_of(path, disk).states.len(),
        other_line != line,
    ensures
        ({
            let before = store.review_of(path, disk);
            let marked = store::with_line_state(before, line, state);
            let relative = store::relative_of(store.root, path)->0;
            let after = store.with(relative, marked);
            &&& after.review_of(path, disk).lines == before.lines
            &&& after.review_of(path, disk).states[line] == state
            &&& after.review_of(path, disk).states[other_line] == before.states[other_line]
            &&& store.write_for(relative, marked).record.saved_states() == after.review_of(
                path,
                disk,
            ).states
        }),
{
    review_laws::marked_line_alone_is_marked(
        store.review_of(path, disk),
        line,
        state,
        other_line,
    );
    store::record_reads_back(store::with_line_state(store.review_of(path, disk), line, state));
}

/// After a file was marked every line that it is known by, and every line of its record, has
/// the state.
pub proof fn marked_file_is_remembered(
    store: StoreModel,
    path: PathModel,
    disk: DiskModel,
    state: LineState,
    line: int,
)
    requires
        store::relative_of(store.root, path) is Some,
        0 <= line < store.review_of(path, disk).states.len(),
    ensures
        ({
            let before = store.review_of(path, disk);
            let marked = store::with_file_state(before, state);
            let relative = store::relative_of(store.root, path)->0;
            let after = store.with(relative, marked);
            &&& after.review_of(path, disk).lines == before.lines
            &&& after.review_of(path, disk).states.len() == before.states.len()
            &&& after.review_of(path, disk).states[line] == state
            &&& store.write_for(relative, marked).record.saved_states()[line] == state
            &&& review::count(after.review_of(path, disk).states, state) == before.states.len()
        }),
{
    review_laws::marked_file_is_marked_throughout(store.review_of(path, disk), state, line);
    store::record_reads_back(store::with_file_state(store.review_of(path, disk), state));
}

/// A file below the root whose content could be read can be loaded, unless its lines and the
/// saved ones are together more than a number of thirty-two bits holds.
pub proof fn readable_files_can_be_loaded(store: StoreModel, path: PathModel, disk: DiskModel)
    requires
        store::relative_of(store.root, path) is Some,
        disk.content is Ok,
        disk.saved().lines.len() + disk.lines().len() <= u32::MAX,
    ensures
        store.can_load(path, disk),
{
}

/// A file that is not below the root, or whose content could not be read, is not loaded.
pub proof fn other_files_cannot_be_loaded(store: StoreModel, path: PathModel, disk: DiskModel)
    requires
        store::relative_of(store.root, path) is None || disk.content is Err,
    ensures
        !store.can_load(path, disk),
{
}

/// What was saved of a file counts, and nothing where there is no record.
pub proof fn missing_record_is_empty(disk: DiskModel)
    ensures
        disk.record matches Some(record) ==> disk.saved() == record,
        disk.record is None ==> disk.saved().lines.len() == 0 && disk.saved().saved_states().len()
            == 0,
{
}

/// Answering the question is all that changes the settings, and changes nothing else.
pub proof fn answering_changes_the_settings(store: StoreModel)
    ensures
        store.answered().config.gitignore_prompted,
        store.answered().root == store.root,
        store.answered().cache == store.cache,
{
}

} // verus!
