//! The reviews of a workspace: what is known of each file, what is saved of it, and where.

use vstd::prelude::*;

use crate::diff;
use crate::digest;
use crate::git;
use crate::path;
use crate::path::FsPath;
use crate::path::PathModel;
use crate::review;
use crate::review::FileReview;
use crate::review::LineState;
use crate::review::ReviewModel;
use crate::review::ReviewStats;
use crate::review_laws;
use crate::text;

verus! {

/// What is saved of a file: its lines, and a letter for the state of each. Older records
/// hold a list of states in place of the letters.
#[verifier::ext_equal]
pub struct RecordModel {
    pub lines: Seq<Seq<char>>,
    pub state_codes: Seq<char>,
    pub states: Seq<LineState>,
}

impl RecordModel {
    /// The saved states: those of the letters, or of the list where there are no letters.
    pub open spec fn saved_states(self) -> Seq<LineState> {
        if self.state_codes.len() > 0 {
            review::states_of(self.state_codes)
        } else {
            self.states
        }
    }
}

/// The record of a file that has none.
pub open spec fn empty_record() -> RecordModel {
    RecordModel { lines: Seq::empty(), state_codes: Seq::empty(), states: Seq::empty() }
}

/// The record for a review.
pub open spec fn record_of(review: ReviewModel) -> RecordModel {
    RecordModel {
        lines: review.lines,
        state_codes: review::codes_of(review.states),
        states: Seq::empty(),
    }
}

/// What is saved of a review is read back as it was: the lines, and the state of each.
pub proof fn record_reads_back(review: ReviewModel)
    ensures
        record_of(review).lines == review.lines,
        record_of(review).saved_states() == review.states,
{
    review::state_codes_read_back(review.states);
    if review.states.len() == 0 {
        assert(review.states =~= Seq::empty());
    }
}

/// What is saved of a file.
#[derive(Debug)]
pub struct PersistedFileReview {
    pub lines: Vec<String>,
    pub state_codes: String,
    pub states: Vec<LineState>,
}

impl View for PersistedFileReview {
    type V = RecordModel;

    open spec fn view(&self) -> RecordModel {
        RecordModel {
            lines: text::texts(self.lines@),
            state_codes: self.state_codes@,
            states: self.states@,
        }
    }
}

impl PersistedFileReview {
    /// The saved states.
    pub fn states(&self) -> (r: Vec<LineState>)
        ensures
            r@ == self@.saved_states(),
    {
        if !self.state_codes.as_str().is_empty() {
            review::decode_state_codes(self.state_codes.as_str())
        } else {
            review::copy_states(self.states.as_slice())
        }
    }
}

/// What the disk holds for one file: its content, or why it cannot be read, and the record
/// that was saved for it.
#[verifier::ext_equal]
pub struct DiskModel {
    pub content: Result<Seq<u8>, Seq<char>>,
    pub record: Option<RecordModel>,
}

impl DiskModel {
    /// The record, an empty one where none was saved.
    pub open spec fn saved(self) -> RecordModel {
        match self.record {
            Some(record) => record,
            None => empty_record(),
        }
    }

    /// The lines of the file.
    pub open spec fn lines(self) -> Seq<Seq<char>> {
        text::feed_lines(path::lossy(self.content->Ok_0))
    }

    /// The review that the content and the record give.
    pub open spec fn review(self) -> ReviewModel {
        ReviewModel {
            lines: self.lines(),
            states: review::reconciled(self.saved().lines, self.saved().saved_states(), self.lines()),
        }
    }

    /// Whether the file can be read and its lines compared with the saved ones.
    pub open spec fn loads(self) -> bool {
        self.content is Ok && review::can_reconcile(self.saved().lines, self.lines())
    }
}

/// What the disk holds for one file.
#[derive(Debug)]
pub struct FileOnDisk {
    pub content: Result<Vec<u8>, String>,
    pub record: Option<PersistedFileReview>,
}

impl View for FileOnDisk {
    type V = DiskModel;

    open spec fn view(&self) -> DiskModel {
        DiskModel {
            content: match self.content {
                Ok(bytes) => Ok(bytes@),
                Err(reason) => Err(reason@),
            },
            record: match self.record {
                Some(record) => Some(record@),
                None => None,
            },
        }
    }
}

/// A file of the workspace and what the disk holds for it.
#[derive(Debug)]
pub struct WorkspaceFile {
    pub path: FsPath,
    pub disk: FileOnDisk,
}

/// A record and the place that it has to be written to.
#[verifier::ext_equal]
pub struct WriteModel {
    pub path: PathModel,
    pub record: RecordModel,
}

/// A record and the place that it has to be written to.
#[derive(Debug)]
pub struct RecordWrite {
    pub path: FsPath,
    pub record: PersistedFileReview,
}

impl View for RecordWrite {
    type V = WriteModel;

    open spec fn view(&self) -> WriteModel {
        WriteModel { path: self.path@, record: self.record@ }
    }
}

/// The models of several writes.
pub open spec fn write_views(v: Seq<RecordWrite>) -> Seq<WriteModel> {
    v.map_values(|w: RecordWrite| w@)
}

/// A review that has been brought up to date, and the record to write for it.
#[derive(Debug)]
pub struct LoadedFile {
    pub review: FileReview,
    pub write: RecordWrite,
}

/// Why a file cannot be reviewed.
#[derive(Debug)]
pub enum StoreError {
    /// The path does not lie in the workspace.
    Outside { path: FsPath, root: FsPath },
    /// The file cannot be read.
    Read { path: FsPath, reason: String },
    /// The file and its record have more different lines than can be compared.
    TooManyLines { path: FsPath },
}

impl StoreError {
    /// What to tell the user.
    pub fn message(&self) -> (r: String)
        ensures
            r@ == (match *self {
                StoreError::Outside { path, root } => path@.text() + " is outside "@ + root@.text(),
                StoreError::Read { path, reason } => "failed to read "@ + path@.text() + ": "@
                    + reason@,
                StoreError::TooManyLines { path } => "too many lines in "@ + path@.text(),
            }),
    {
        match self {
            StoreError::Outside { path, root } => {
                let mut message = path.to_text();
                message.append(" is outside ");
                message.append(root.to_text().as_str());
                message
            },
            StoreError::Read { path, reason } => {
                let mut message: String = "failed to read ".to_owned();
                message.append(path.to_text().as_str());
                message.append(": ");
                message.append(reason.as_str());
                message
            },
            StoreError::TooManyLines { path } => {
                let mut message: String = "too many lines in ".to_owned();
                message.append(path.to_text().as_str());
                message
            },
        }
    }
}

/// Where `path` lies in the workspace at `root`.
pub open spec fn relative_of(root: PathModel, path: PathModel) -> Option<PathModel> {
    let absolute = root.join(path);
    if absolute.starts_with(root) {
        Some(absolute.below(root))
    } else {
        None
    }
}

/// The directory for review state in the workspace at `root`.
pub open spec fn state_dir(root: PathModel) -> PathModel {
    root.child(vstd::utf8::encode_utf8(".debth"@))
}

/// The place of the record whose name is a digest.
pub open spec fn digest_place(root: PathModel, digest: Seq<u8>) -> PathModel {
    state_dir(root).child(vstd::utf8::encode_utf8("files"@)).child(
        vstd::utf8::encode_utf8(digest::hex(digest) + ".json"@),
    )
}

/// The place of the record for the file at `relative`: its name is the digest of the path.
pub open spec fn record_place(root: PathModel, relative: PathModel) -> PathModel {
    digest_place(root, digest::sha256(vstd::utf8::encode_utf8(relative.text())))
}

/// The place of the record whose name is a digest.
pub fn record_path(root: &FsPath, digest: &[u8]) -> (r: FsPath)
    ensures
        r@ == digest_place(root@, digest@),
{
    let mut file = digest::digest_name(digest);
    file.append(".json");
    root.child(".debth".as_bytes()).child("files".as_bytes()).child(file.as_str().as_bytes())
}

/// The settings that are saved for a workspace.
#[derive(Clone, Copy, Debug, PartialEq, Eq, Structural)]
pub struct StoreConfig {
    pub gitignore_prompted: bool,
}

impl Default for StoreConfig {
    fn default() -> (r: StoreConfig)
        ensures
            r == (StoreConfig { gitignore_prompted: false }),
    {
        StoreConfig { gitignore_prompted: false }
    }
}

/// What is known of a workspace: a review for each file that has been loaded, by its path in
/// the workspace.
#[verifier::ext_equal]
pub struct StoreModel {
    pub root: PathModel,
    pub cache: Map<PathModel, ReviewModel>,
    pub config: StoreConfig,
}

impl StoreModel {
    /// The store with a review for the file at `relative`.
    pub open spec fn with(self, relative: PathModel, review: ReviewModel) -> StoreModel {
        StoreModel { cache: self.cache.insert(relative, review), ..self }
    }

    /// The store after the question about `.gitignore` has been answered.
    pub open spec fn answered(self) -> StoreModel {
        StoreModel { config: StoreConfig { gitignore_prompted: true }, ..self }
    }

    /// The record to write for the file at `relative`.
    pub open spec fn write_for(self, relative: PathModel, review: ReviewModel) -> WriteModel {
        WriteModel { path: record_place(self.root, relative), record: record_of(review) }
    }

    /// Whether the file can be loaded.
    pub open spec fn can_load(self, path: PathModel, disk: DiskModel) -> bool {
        relative_of(self.root, path) is Some && disk.loads()
    }

    /// The error for a file that cannot be loaded.
    pub open spec fn load_fails_with(
        self,
        path: PathModel,
        disk: DiskModel,
        error: StoreError,
    ) -> bool {
        match error {
            StoreError::Outside { path: p, root } => {
                &&& relative_of(self.root, path) is None
                &&& p@ == path
                &&& root@ == self.root
            },
            StoreError::Read { path: p, reason } => {
                &&& relative_of(self.root, path) is Some
                &&& disk.content == Err::<Seq<u8>, Seq<char>>(reason@)
                &&& p@ == path
            },
            StoreError::TooManyLines { path: p } => {
                &&& relative_of(self.root, path) is Some
                &&& disk.content is Ok
                &&& !review::can_reconcile(disk.saved().lines, disk.lines())
                &&& p@ == path
            },
        }
    }

    /// Whether the file has been loaded before.
    pub open spec fn knows(self, path: PathModel) -> bool {
        relative_of(self.root, path) is Some && self.cache.dom().contains(
            relative_of(self.root, path)->0,
        )
    }

    /// The review of a file: the one that is known, or the one that the disk gives.
    pub open spec fn review_of(self, path: PathModel, disk: DiskModel) -> ReviewModel {
        if self.knows(path) {
            self.cache[relative_of(self.root, path)->0]
        } else {
            disk.review()
        }
    }
}

/// The review with the state of one line set; nothing changes where there is no such line.
pub open spec fn with_line_state(review: ReviewModel, i: int, state: LineState) -> ReviewModel {
    if 0 <= i < review.states.len() {
        ReviewModel { states: review.states.update(i, state), ..review }
    } else {
        review
    }
}

/// The review with the state of every line set.
pub open spec fn with_file_state(review: ReviewModel, state: LineState) -> ReviewModel {
    ReviewModel { states: Seq::new(review.states.len(), |i: int| state), ..review }
}

#[derive(Debug)]
struct CachedReview {
    path: FsPath,
    review: FileReview,
}

spec fn lookup(cache: Seq<CachedReview>, p: PathModel) -> Option<ReviewModel>
    decreases cache.len(),
{
    if cache.len() == 0 {
        None
    } else if cache[0].path@ == p {
        Some(cache[0].review@)
    } else {
        lookup(cache.skip(1), p)
    }
}

spec fn cache_map(cache: Seq<CachedReview>) -> Map<PathModel, ReviewModel> {
    Map::new(|p: PathModel| lookup(cache, p) is Some, |p: PathModel| lookup(cache, p)->0)
}

proof fn lemma_lookup(cache: Seq<CachedReview>, i: int, p: PathModel)
    requires
        0 <= i <= cache.len(),
        forall|k: int| 0 <= k < i ==> #[trigger] cache[k].path@ != p,
        i < cache.len() ==> cache[i].path@ == p,
    ensures
        lookup(cache, p) == (if i < cache.len() {
            Some(cache[i].review@)
        } else {
            None
        }),
    decreases cache.len(),
{
    if cache.len() > 0 && i > 0 {
        assert(cache[0].path@ != p);
        let rest = cache.skip(1);
        assert forall|k: int| 0 <= k < i - 1 implies #[trigger] rest[k].path@ != p by {
            assert(cache[k + 1].path@ != p);
        }
        lemma_lookup(rest, i - 1, p);
    }
}

proof fn lemma_lookup_update(cache: Seq<CachedReview>, i: int, entry: CachedReview, q: PathModel)
    requires
        0 <= i < cache.len(),
        entry.path@ == cache[i].path@,
        forall|k: int| 0 <= k < i ==> #[trigger] cache[k].path@ != entry.path@,
    ensures
        lookup(cache.update(i, entry), q) == (if q == entry.path@ {
            Some(entry.review@)
        } else {
            lookup(cache, q)
        }),
    decreases cache.len(),
{
    let next = cache.update(i, entry);
    if i == 0 {
        assert(next.skip(1) =~= cache.skip(1));
    } else {
        let rest = cache.skip(1);
        assert(cache[0].path@ != entry.path@);
        assert(next.skip(1) =~= rest.update(i - 1, entry));
        assert forall|k: int| 0 <= k < i - 1 implies #[trigger] rest[k].path@ != entry.path@ by {
            assert(cache[k + 1].path@ != entry.path@);
        }
        lemma_lookup_update(rest, i - 1, entry, q);
    }
}

proof fn lemma_lookup_push(cache: Seq<CachedReview>, entry: CachedReview, q: PathModel)
    requires
        forall|k: int| 0 <= k < cache.len() ==> #[trigger] cache[k].path@ != entry.path@,
    ensures
        lookup(cache.push(entry), q) == (if q == entry.path@ {
            Some(entry.review@)
        } else {
            lookup(cache, q)
        }),
    decreases cache.len(),
{
    let next = cache.push(entry);
    if cache.len() == 0 {
        assert(next.skip(1) =~= cache);
    } else {
        let rest = cache.skip(1);
        assert(cache[0].path@ != entry.path@);
        assert(next.skip(1) =~= rest.push(entry));
        assert forall|k: int| 0 <= k < rest.len() implies #[trigger] rest[k].path@
            != entry.path@ by {
            assert(cache[k + 1].path@ != entry.path@);
        }
        lemma_lookup_push(rest, entry, q);
    }
}

/// The reviews of a workspace.
#[derive(Debug)]
pub struct ReviewStore {
    root: FsPath,
    cache: Vec<CachedReview>,
    config: StoreConfig,
}

impl View for ReviewStore {
    type V = StoreModel;

    closed spec fn view(&self) -> StoreModel {
        StoreModel { root: self.root@, cache: cache_map(self.cache@), config: self.config }
    }
}

/// The record for a review.
fn persisted(review: &FileReview) -> (r: PersistedFileReview)
    ensures
        r@ == record_of(review@),
{
    let states: Vec<LineState> = Vec::new();
    let r = PersistedFileReview {
        lines: review::copy_lines(review.lines.as_slice()),
        state_codes: review::encode_state_codes(review.states.as_slice()),
        states,
    };
    assert(r@ =~= record_of(review@));
    r
}

impl ReviewStore {
    /// The store of the workspace at `root`, with the settings that were saved for it.
    pub fn open(root: FsPath, config: Option<StoreConfig>) -> (r: ReviewStore)
        ensures
            r@.root == root@,
            r@.cache == Map::<PathModel, ReviewModel>::empty(),
            r@.config == (match config {
                Some(config) => config,
                None => StoreConfig { gitignore_prompted: false },
            }),
    {
        let config = match config {
            Some(config) => config,
            None => StoreConfig::default(),
        };
        let cache: Vec<CachedReview> = Vec::new();
        assert(cache_map(cache@) =~= Map::empty());
        ReviewStore { root, cache, config }
    }

    /// Where `path` lies in the workspace.
    pub fn relative_path(&self, path: &FsPath) -> (r: Result<FsPath, StoreError>)
        ensures
            match r {
                Ok(relative) => relative_of(self@.root, path@) == Some(relative@),
                Err(StoreError::Outside { path: p, root }) => {
                    &&& relative_of(self@.root, path@) is None
                    &&& p@ == path@
                    &&& root@ == self@.root
                },
                Err(_) => false,
            },
    {
        let absolute = self.root.join(path);
        match absolute.strip_prefix(&self.root) {
            Some(relative) => Ok(relative),
            None => Err(StoreError::Outside { path: path.clone(), root: self.root.clone() }),
        }
    }

    /// The place of the record for the file at `relative`.
    pub fn review_path(&self, relative: &FsPath) -> (r: FsPath)
        ensures
            r@ == record_place(self@.root, relative@),
    {
        let name = relative.to_text();
        let digest = digest::sha256_digest(name.as_str().as_bytes());
        record_path(&self.root, digest.as_slice())
    }

    /// The place of the settings.
    pub fn config_path(&self) -> (r: FsPath)
        ensures
            r@ == state_dir(self@.root).child(vstd::utf8::encode_utf8("config.json"@)),
    {
        self.root.child(".debth".as_bytes()).child("config.json".as_bytes())
    }

    fn find(&self, relative: &FsPath) -> (r: Option<usize>)
        ensures
            match r {
                Some(i) => {
                    &&& i < self.cache@.len()
                    &&& self.cache@[i as int].path@ == relative@
                    &&& forall|k: int| 0 <= k < i ==> #[trigger] self.cache@[k].path@ != relative@
                    &&& self@.cache.dom().contains(relative@)
                    &&& self@.cache[relative@] == self.cache@[i as int].review@
                },
                None => {
                    &&& forall|k: int|
                        0 <= k < self.cache@.len() ==> #[trigger] self.cache@[k].path@ != relative@
                    &&& !self@.cache.dom().contains(relative@)
                },
            },
    {
        let mut i: usize = 0;
        while i < self.cache.len()
            invariant
                i <= self.cache@.len(),
                forall|k: int| 0 <= k < i ==> #[trigger] self.cache@[k].path@ != relative@,
            decreases self.cache@.len() - i,
        {
            if self.cache[i].path.same(relative) {
                proof {
                    lemma_lookup(self.cache@, i as int, relative@);
                }
                return Some(i);
            }
            i = i + 1;
        }
        proof {
            lemma_lookup(self.cache@, i as int, relative@);
        }
        None
    }

    fn remember(&mut self, relative: FsPath, review: FileReview)
        ensures
            final(self)@ == old(self)@.with(relative@, review@),
    {
        let ghost was = self.cache@;
        let ghost entry_path = relative@;
        let ghost entry_review = review@;
        match self.find(&relative) {
            Some(i) => {
                let entry = CachedReview { path: relative, review };
                let _ = self.cache.remove(i);
                self.cache.insert(i, entry);
                proof {
                    assert(self.cache@ =~= was.update(i as int, entry));
                    assert forall|q: PathModel| #[trigger] lookup(self.cache@, q) == (if q
                        == entry_path {
                        Some(entry_review)
                    } else {
                        lookup(was, q)
                    }) by {
                        lemma_lookup_update(was, i as int, entry, q);
                    }
                }
            },
            None => {
                let entry = CachedReview { path: relative, review };
                self.cache.push(entry);
                proof {
                    assert forall|q: PathModel| #[trigger] lookup(self.cache@, q) == (if q
                        == entry_path {
                        Some(entry_review)
                    } else {
                        lookup(was, q)
                    }) by {
                        lemma_lookup_push(was, entry, q);
                    }
                }
            },
        }
        assert(cache_map(self.cache@) =~= cache_map(was).insert(entry_path, entry_review));
    }

    /// The record to write for the file at `relative`, if it has been loaded.
    pub fn save_relative(&self, relative: &FsPath) -> (r: Option<RecordWrite>)
        ensures
            match r {
                Some(write) => {
                    &&& self@.cache.dom().contains(relative@)
                    &&& write@ == self@.write_for(relative@, self@.cache[relative@])
                },
                None => !self@.cache.dom().contains(relative@),
            },
    {
        match self.find(relative) {
            Some(i) => Some(
                RecordWrite {
                    path: self.review_path(relative),
                    record: persisted(&self.cache[i].review),
                },
            ),
            None => None,
        }
    }

    /// Whether the file has been loaded before, so that nothing has to be read for it.
    pub fn knows(&self, path: &FsPath) -> (r: bool)
        ensures
            r == self@.knows(path@),
    {
        match self.relative_path(path) {
            Ok(relative) => match self.find(&relative) {
                Some(_) => true,
                None => false,
            },
            Err(_) => false,
        }
    }

    /// Brings the review of a file up to date with its content. Lines that the record holds
    /// too keep the state that was saved for them.
    pub fn load_file(&mut self, path: &FsPath, disk: &FileOnDisk) -> (r: Result<
        LoadedFile,
        StoreError,
    >)
        ensures
            match r {
                Ok(loaded) => {
                    let relative = relative_of(old(self)@.root, path@)->0;
                    &&& old(self)@.can_load(path@, disk@)
                    &&& loaded.review@ == disk@.review()
                    &&& loaded.write@ == old(self)@.write_for(relative, disk@.review())
                    &&& final(self)@ == old(self)@.with(relative, disk@.review())
                },
                Err(error) => {
                    &&& !old(self)@.can_load(path@, disk@)
                    &&& old(self)@.load_fails_with(path@, disk@, error)
                    &&& final(self)@ == old(self)@
                },
            },
            r is Ok ==> review_is_sound(disk@) && gives_back_saved(disk@),
    {
        let relative = match self.relative_path(path) {
            Ok(relative) => relative,
            Err(error) => {
                return Err(error);
            },
        };
        let bytes = match &disk.content {
            Ok(bytes) => bytes,
            Err(reason) => {
                return Err(StoreError::Read { path: path.clone(), reason: reason.clone() });
            },
        };
        let content = path::lossy_text(bytes.as_slice());
        let lines = review::split_lines(content.as_str());
        let states = match &disk.record {
            Some(record) => {
                let old_lines = record.lines.as_slice();
                if old_lines.len() > 0 && !diff::diff_fits(old_lines, lines.as_slice()) {
                    return Err(StoreError::TooManyLines { path: path.clone() });
                }
                let old_states = record.states();
                review::reconcile_states(old_lines, old_states.as_slice(), lines.as_slice())
            },
            None => {
                let old_lines: Vec<String> = Vec::new();
                let old_states: Vec<LineState> = Vec::new();
                assert(text::texts(old_lines@) =~= Seq::empty());
                assert(old_states@ =~= Seq::empty());
                review::reconcile_states(
                    old_lines.as_slice(),
                    old_states.as_slice(),
                    lines.as_slice(),
                )
            },
        };
        let review = FileReview { lines, states };
        assert(review@ =~= disk@.review());
        proof {
            lemma_gives_back(disk@);
        }
        let write = RecordWrite {
            path: self.review_path(&relative),
            record: persisted(&review),
        };
        self.remember(relative, review.clone());
        Ok(LoadedFile { review, write })
    }

    /// Sets the state of one line. A file that has not been loaded is loaded first.
    pub fn set_line_state(
        &mut self,
        path: &FsPath,
        line_index: usize,
        state: LineState,
        disk: &FileOnDisk,
    ) -> (r: Result<RecordWrite, StoreError>)
        ensures
            match r {
                Ok(write) => {
                    let relative = relative_of(old(self)@.root, path@)->0;
                    let before = old(self)@.review_of(path@, disk@);
                    let marked = with_line_state(before, line_index as int, state);
                    &&& old(self)@.knows(path@) || old(self)@.can_load(path@, disk@)
                    &&& !old(self)@.knows(path@) ==> review_is_sound(disk@) && gives_back_saved(
                        disk@,
                    )
                    &&& write@ == old(self)@.write_for(relative, marked)
                    &&& final(self)@ == old(self)@.with(relative, marked)
                    &&& final(self)@.cache.dom().contains(relative)
                    &&& final(self)@.cache[relative].lines == before.lines
                    &&& final(self)@.cache[relative].states.len() == before.states.len()
                    &&& forall|i: int|
                        0 <= i < before.states.len() ==> #[trigger] final(self)@.cache[relative].states[i] == (if i == line_index {
                            state
                        } else {
                            before.states[i]
                        })
                    &&& write@.record.lines == before.lines
                    &&& review::states_of(write@.record.state_codes) == final(self)@.cache[relative].states
                },
                Err(error) => {
                    &&& !old(self)@.knows(path@) && !old(self)@.can_load(path@, disk@)
                    &&& old(self)@.load_fails_with(path@, disk@, error)
                    &&& final(self)@ == old(self)@
                },
            },
    {
        let relative = match self.relative_path(path) {
            Ok(relative) => relative,
            Err(error) => {
                return Err(error);
            },
        };
        let mut review = match self.current(path, &relative, disk) {
            Ok(review) => review,
            Err(error) => {
                return Err(error);
            },
        };
        if line_index < review.states.len() {
            review.states.set(line_index, state);
        }
        let write = RecordWrite {
            path: self.review_path(&relative),
            record: persisted(&review),
        };
        self.remember(relative, review);
        assert(self@.cache =~= old(self)@.cache.insert(relative@, review@));
        proof {
            review::state_codes_read_back(review@.states);
        }
        Ok(write)
    }

    /// A copy of the review of a file, which is loaded if it has not been before.
    fn current(&mut self, path: &FsPath, relative: &FsPath, disk: &FileOnDisk) -> (r: Result<
        FileReview,
        StoreError,
    >)
        requires
            relative_of(old(self)@.root, path@) == Some(relative@),
        ensures
            match r {
                Ok(review) => {
                    &&& old(self)@.knows(path@) || old(self)@.can_load(path@, disk@)
                    &&& !old(self)@.knows(path@) ==> review_is_sound(disk@) && gives_back_saved(
                        disk@,
                    )
                    &&& review@ == old(self)@.review_of(path@, disk@)
                    &&& final(self)@ == old(self)@ || final(self)@ == old(self)@.with(
                        relative@,
                        review@,
                    )
                },
                Err(error) => {
                    &&& !old(self)@.knows(path@) && !old(self)@.can_load(path@, disk@)
                    &&& old(self)@.load_fails_with(path@, disk@, error)
                    &&& final(self)@ == old(self)@
                },
            },
    {
        match self.find(relative) {
            Some(i) => Ok(self.cache[i].review.clone()),
            None => match self.load_file(path, disk) {
                Ok(loaded) => Ok(loaded.review),
                Err(error) => Err(error),
            },
        }
    }

    /// Sets the state of every line, and says how many there are. A file that has not been
    /// loaded is loaded first.
    pub fn set_file_state(&mut self, path: &FsPath, state: LineState, disk: &FileOnDisk) -> (r:
        Result<(usize, RecordWrite), StoreError>)
        ensures
            match r {
                Ok((lines, write)) => {
                    let relative = relative_of(old(self)@.root, path@)->0;
                    let before = old(self)@.review_of(path@, disk@);
                    let marked = with_file_state(before, state);
                    &&& old(self)@.knows(path@) || old(self)@.can_load(path@, disk@)
                    &&& !old(self)@.knows(path@) ==> review_is_sound(disk@) && gives_back_saved(
                        disk@,
                    )
                    &&& lines == before.states.len()
                    &&& write@ == old(self)@.write_for(relative, marked)
                    &&& final(self)@ == old(self)@.with(relative, marked)
                    &&& final(self)@.cache.dom().contains(relative)
                    &&& final(self)@.cache[relative].lines == before.lines
                    &&& final(self)@.cache[relative].states.len() == lines
                    &&& forall|i: int|
                        0 <= i < lines ==> #[trigger] final(self)@.cache[relative].states[i]
                            == state
                    &&& write@.record.lines == before.lines
                    &&& write@.record.state_codes.len() == lines
                    &&& forall|i: int|
                        0 <= i < lines ==> review::state_of(#[trigger] write@.record.state_codes[i])
                            == state
                    &&& review::count(final(self)@.cache[relative].states, state) == lines
                },
                Err(error) => {
                    &&& !old(self)@.knows(path@) && !old(self)@.can_load(path@, disk@)
                    &&& old(self)@.load_fails_with(path@, disk@, error)
                    &&& final(self)@ == old(self)@
                },
            },
    {
        let relative = match self.relative_path(path) {
            Ok(relative) => relative,
            Err(error) => {
                return Err(error);
            },
        };
        let review = match self.current(path, &relative, disk) {
            Ok(review) => review,
            Err(error) => {
                return Err(error);
            },
        };
        let lines: usize = review.states.len();
        let mut states: Vec<LineState> = Vec::new();
        let mut i: usize = 0;
        while i < lines
            invariant
                i <= lines,
                states@.len() == i,
                forall|k: int| 0 <= k < i ==> states@[k] == state,
            decreases lines - i,
        {
            states.push(state);
            i = i + 1;
        }
        let ghost before = review@;
        let marked = FileReview { lines: review.lines, states };
        assert(marked@ =~= with_file_state(before, state));
        let write = RecordWrite {
            path: self.review_path(&relative),
            record: persisted(&marked),
        };
        self.remember(relative, marked);
        assert(self@.cache =~= old(self)@.cache.insert(relative@, marked@));
        proof {
            review_laws::one_state_counts_for_all(marked@.states, state);
        }
        Ok((lines, write))
    }

    /// Brings the review of a file up to date and counts its lines by state.
    pub fn file_stats(&mut self, path: &FsPath, disk: &FileOnDisk) -> (r: Result<
        (ReviewStats, RecordWrite),
        StoreError,
    >)
        ensures
            match r {
                Ok((stats, write)) => {
                    let relative = relative_of(old(self)@.root, path@)->0;
                    &&& old(self)@.can_load(path@, disk@)
                    &&& review_is_sound(disk@) && gives_back_saved(disk@)
                    &&& stats == review::stats_of(disk@.review().states)
                    &&& stats.total == disk@.review().states.len()
                    &&& stats.total == stats.accepted + stats.rejected + stats.unreviewed
                    &&& write@ == old(self)@.write_for(relative, disk@.review())
                    &&& final(self)@ == old(self)@.with(relative, disk@.review())
                },
                Err(error) => {
                    &&& !old(self)@.can_load(path@, disk@)
                    &&& old(self)@.load_fails_with(path@, disk@, error)
                    &&& final(self)@ == old(self)@
                },
            },
    {
        match self.load_file(path, disk) {
            Ok(loaded) => {
                let stats = review::stats_for_states(loaded.review.states.as_slice());
                Ok((stats, loaded.write))
            },
            Err(error) => Err(error),
        }
    }
}

/// The store after all of the files have been loaded.
pub open spec fn store_after(store: StoreModel, files: Seq<WorkspaceFile>) -> StoreModel
    decreases files.len(),
{
    if files.len() == 0 {
        store
    } else {
        let file = files.last();
        store_after(store, files.drop_last()).with(
            relative_of(store.root, file.path@)->0,
            file.disk@.review(),
        )
    }
}

/// Loading files leaves the workspace and its settings alone.
pub proof fn lemma_store_after_root(store: StoreModel, files: Seq<WorkspaceFile>)
    ensures
        store_after(store, files).root == store.root,
        store_after(store, files).config == store.config,
    decreases files.len(),
{
    if files.len() > 0 {
        lemma_store_after_root(store, files.drop_last());
    }
}

/// The numbers for all of the files together.
pub open spec fn stats_after(files: Seq<WorkspaceFile>) -> ReviewStats
    decreases files.len(),
{
    if files.len() == 0 {
        ReviewStats { total: 0, accepted: 0, rejected: 0, unreviewed: 0 }
    } else {
        review::sum_of(
            stats_after(files.drop_last()),
            review::stats_of(files.last().disk@.review().states),
        )
    }
}

/// How many lines all of the files have together.
pub open spec fn line_count(files: Seq<WorkspaceFile>) -> nat
    decreases files.len(),
{
    if files.len() == 0 {
        0
    } else {
        line_count(files.drop_last()) + files.last().disk@.review().states.len()
    }
}

/// As long as a machine number holds them all, every line of the workspace is counted, and
/// each in exactly one state.
pub proof fn workspace_counts_add_up(files: Seq<WorkspaceFile>)
    requires
        line_count(files) <= usize::MAX,
    ensures
        stats_after(files).total == line_count(files),
        stats_after(files).total == stats_after(files).accepted + stats_after(files).rejected
            + stats_after(files).unreviewed,
    decreases files.len(),
{
    if files.len() > 0 {
        workspace_counts_add_up(files.drop_last());
        review::counts_add_up(files.last().disk@.review().states);
    }
}

/// The records of all of the files.
pub open spec fn writes_after(store: StoreModel, files: Seq<WorkspaceFile>) -> Seq<WriteModel> {
    files.map_values(
        |file: WorkspaceFile|
            store.write_for(relative_of(store.root, file.path@)->0, file.disk@.review()),
    )
}

/// Whether each of the files can be loaded.
pub open spec fn all_load(store: StoreModel, files: Seq<WorkspaceFile>) -> bool {
    forall|i: int|
        0 <= i < files.len() ==> store.can_load(
            (#[trigger] files[i]).path@,
            files[i].disk@,
        )
}

/// Whether the review of each of the files owes to its record what it should.
pub open spec fn all_sound(files: Seq<WorkspaceFile>) -> bool {
    forall|i: int|
        0 <= i < files.len() ==> review_is_sound((#[trigger] files[i]).disk@) && gives_back_saved(
            files[i].disk@,
        )
}

/// The content that `.gitignore` gets, where it gets one, and the settings to save.
#[derive(Debug)]
pub struct PromptAnswer {
    pub gitignore: Option<String>,
    pub config: StoreConfig,
}

/// Whether to ask for a line in `.gitignore`: in a git repository that has none, unless the
/// question has been answered before. `gitignore` is the content of the file, if it can be
/// read.
pub open spec fn asks_for_line(
    config: StoreConfig,
    is_git_repo: bool,
    gitignore: Option<Seq<char>>,
) -> bool {
    is_git_repo && !config.gitignore_prompted && match gitignore {
        Some(content) => !git::leaves_out_state(content),
        None => true,
    }
}

/// Once the question has been answered, either way, it is not asked again.
pub proof fn answered_question_is_not_asked_again(
    before: StoreModel,
    is_git_repo: bool,
    gitignore: Option<Seq<char>>,
)
    ensures
        !asks_for_line(before.answered().config, is_git_repo, gitignore),
{
}

impl ReviewStore {
    /// Brings the reviews of all files up to date and counts their lines by state. The
    /// records to write are appended to `writes`, file by file; the first file that cannot
    /// be loaded ends the count.
    pub fn workspace_stats(
        &mut self,
        files: &Vec<WorkspaceFile>,
        writes: &mut Vec<RecordWrite>,
    ) -> (r: Result<ReviewStats, StoreError>)
        ensures
            match r {
                Ok(stats) => {
                    &&& all_load(old(self)@, files@)
                    &&& all_sound(files@)
                    &&& stats == stats_after(files@)
                    &&& final(self)@ == store_after(old(self)@, files@)
                    &&& write_views(final(writes)@) == write_views(old(writes)@) + writes_after(
                        old(self)@,
                        files@,
                    )
                },
                Err(error) => exists|k: int|
                    {
                        &&& 0 <= k < files@.len()
                        &&& all_load(old(self)@, files@.take(k))
                        &&& all_sound(files@.take(k))
                        &&& !old(self)@.can_load((#[trigger] files@[k]).path@, files@[k].disk@)
                        &&& old(self)@.load_fails_with(files@[k].path@, files@[k].disk@, error)
                        &&& final(self)@ == store_after(old(self)@, files@.take(k))
                        &&& write_views(final(writes)@) == write_views(old(writes)@) + writes_after(
                            old(self)@,
                            files@.take(k),
                        )
                    },
            },
    {
        let mut stats = ReviewStats::default();
        let mut i: usize = 0;
        assert(write_views(writes@) =~= write_views(old(writes)@) + writes_after(
            old(self)@,
            files@.take(0),
        ));
        while i < files.len()
            invariant
                i <= files@.len(),
                all_load(old(self)@, files@.take(i as int)),
                all_sound(files@.take(i as int)),
                stats == stats_after(files@.take(i as int)),
                self@ == store_after(old(self)@, files@.take(i as int)),
                self@.root == old(self)@.root,
                write_views(writes@) == write_views(old(writes)@) + writes_after(
                    old(self)@,
                    files@.take(i as int),
                ),
            decreases files@.len() - i,
        {
            let ghost before = files@.take(i as int);
            let ghost now = files@.take(i + 1);
            assert(now.drop_last() =~= before);
            assert(now.last() == files@[i as int]);
            match self.file_stats(&files[i].path, &files[i].disk) {
                Ok((more, write)) => {
                    stats = stats.plus(more);
                    let ghost was = write_views(writes@);
                    writes.push(write);
                    assert(write_views(writes@) =~= was.push(write@));
                    assert(writes_after(old(self)@, now) =~= writes_after(old(self)@, before).push(
                        write@,
                    ));
                    assert(all_load(old(self)@, now)) by {
                        assert forall|k: int| 0 <= k < now.len() implies old(self)@.can_load(
                            (#[trigger] now[k]).path@,
                            now[k].disk@,
                        ) by {
                            if k < i {
                                assert(now[k] == before[k]);
                            }
                        }
                    }
                    assert(all_sound(now)) by {
                        assert forall|k: int| 0 <= k < now.len() implies review_is_sound(
                            (#[trigger] now[k]).disk@,
                        ) && gives_back_saved(now[k].disk@) by {
                            if k < i {
                                assert(now[k] == before[k]);
                            }
                        }
                    }
                },
                Err(error) => {
                    assert(!old(self)@.can_load(files@[i as int].path@, files@[i as int].disk@));
                    return Err(error);
                },
            }
            i = i + 1;
        }
        assert(files@.take(files@.len() as int) =~= files@);
        Ok(stats)
    }

    /// Whether to ask for a line in `.gitignore`, whose content is `gitignore` if it can be
    /// read.
    pub fn needs_gitignore_prompt(&self, is_git_repo: bool, gitignore: Option<&str>) -> (r: bool)
        ensures
            r == asks_for_line(
                self@.config,
                is_git_repo,
                match gitignore {
                    Some(content) => Some(content@),
                    None => None,
                },
            ),
    {
        if !is_git_repo || self.config.gitignore_prompted {
            return false;
        }
        match gitignore {
            Some(content) => !git::gitignore_contains_debth(content),
            None => true,
        }
    }

    /// Takes the answer to the question, which is not asked again. `existing` is the content
    /// of `.gitignore`, empty where it cannot be read.
    pub fn answer_gitignore_prompt(&mut self, add_line: bool, existing: &str) -> (r: PromptAnswer)
        ensures
            final(self)@ == old(self)@.answered(),
            r.config == final(self)@.config,
            match r.gitignore {
                Some(content) => add_line && content@ == git::with_state_line(existing@)
                    && git::leaves_out_state(content@),
                None => !add_line,
            },
    {
        let gitignore = if add_line {
            Some(git::append_debth_to_gitignore(existing))
        } else {
            None
        };
        self.config.gitignore_prompted = true;
        PromptAnswer { gitignore, config: self.config }
    }

    /// The root of the workspace.
    pub fn root(&self) -> (r: &FsPath)
        ensures
            r@ == self@.root,
    {
        &self.root
    }
}

/// What a loaded review owes to the record: every line has a state; a line is accepted or
/// rejected only if it comes from a line of the record with the same text and that state, in
/// order and no two from the same; a file in which lines were only put in keeps all that was
/// said; one in which lines were only taken out has for each line left the state of such a
/// line in the record; and a file whose lines are those of the record keeps all states.
pub open spec fn review_is_sound(disk: DiskModel) -> bool {
    let review = disk.review();
    let saved = disk.saved();
    &&& review.states.len() == review.lines.len()
    &&& review::states_kept(saved.lines, saved.saved_states(), review.lines, review.states)
    &&& diff::within(saved.lines, review.lines) ==> review::said(review.states) == review::said(
        review::fitted(saved.saved_states(), saved.lines.len()),
    )
    &&& diff::within(review.lines, saved.lines) ==> forall|i: int|
        0 <= i < review.states.len() ==> review::has_state(
            saved.lines,
            saved.saved_states(),
            review.lines[i],
            #[trigger] review.states[i],
        )
    &&& saved.lines == review.lines ==> review.states == review::fitted(
        saved.saved_states(),
        review.lines.len(),
    )
}

/// A review that was saved is given back as it was, as long as the lines of the file are
/// those that were saved.
pub open spec fn gives_back_saved(disk: DiskModel) -> bool {
    forall|review: ReviewModel|
        disk.record == Some(#[trigger] record_of(review)) && review.lines == disk.lines()
            && review.states.len() == review.lines.len() ==> disk.review() == review
}

proof fn lemma_gives_back(disk: DiskModel)
    requires
        review_is_sound(disk),
    ensures
        gives_back_saved(disk),
{
    assert forall|review: ReviewModel|
        disk.record == Some(#[trigger] record_of(review)) && review.lines == disk.lines()
            && review.states.len() == review.lines.len() implies disk.review() == review by {
        record_reads_back(review);
        assert(review::fitted(review.states, review.lines.len()) =~= review.states);
        assert(disk.review() =~= review);
    }
}

} // verus!
