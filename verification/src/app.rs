//! The program between the screen and the disk: what a key does, which file is open, and
//! where the cursor is.

use vstd::prelude::*;

use crate::fs_tree;
use crate::fs_tree::FileTree;
use crate::fs_tree::IgnoredSelection;
use crate::fs_tree::Listing;
use crate::fs_tree::TreeEntryKind;
use crate::fs_tree::TreeError;
use crate::fs_tree::TreeModel;
use crate::git;
use crate::ignore;
use crate::ignore::IgnoreError;
use crate::path;
use crate::path::FsPath;
use crate::path::PathModel;
use crate::review;
use crate::review::FileReview;
use crate::review::LineState;
use crate::review::ReviewModel;
use crate::review::ReviewStats;
use crate::store;
use crate::store::FileOnDisk;
use crate::store::PromptAnswer;
use crate::store::RecordWrite;
use crate::store::ReviewStore;
use crate::store::StoreConfig;
use crate::store::StoreError;
use crate::store::StoreModel;
use crate::store::WorkspaceFile;
use crate::text;

verus! {

/// The parts of the screen that can have the focus.
#[derive(Clone, Copy, Debug, PartialEq, Eq, Structural)]
pub enum Pane {
    Overview,
    Files,
    Viewer,
}

/// Whether the question about `.gitignore` is on the screen.
#[derive(Clone, Copy, Debug, PartialEq, Eq, Structural)]
pub enum GitignorePrompt {
    Hidden,
    Waiting,
}

/// The keys that the program knows.
#[derive(Clone, Copy, Debug, PartialEq, Eq, Structural)]
pub enum Key {
    Char(char),
    Enter,
    Esc,
    Tab,
    BackTab,
    Left,
    Right,
    Up,
    Down,
    PageUp,
    PageDown,
    Other,
}

/// A key that was pressed, and whether the control key was held.
#[derive(Clone, Copy, Debug, PartialEq, Eq, Structural)]
pub struct KeyPress {
    pub key: Key,
    pub control: bool,
}

/// What is left to do after a key, since it needs the disk.
#[derive(Clone, Copy, Debug, PartialEq, Eq, Structural)]
pub enum Command {
    /// Nothing.
    Continue,
    /// The program ends.
    Quit,
    /// The question about `.gitignore` was answered.
    AnswerPrompt { add_line: bool },
    /// All lines of the selected file get a state.
    MarkFile(LineState),
    /// The selected entry is to be ignored.
    IgnoreEntry,
    /// The current line gets a state.
    MarkLine(LineState),
    /// The selected file is opened, the selected directory expanded or collapsed.
    OpenOrToggle,
    /// The selected directory is collapsed.
    Collapse,
    /// The selected directory is expanded, the selected file opened.
    Expand,
}

/// The state of the program.
#[verifier::ext_equal]
pub struct AppModel {
    pub root: PathModel,
    pub repo_link: Option<Seq<char>>,
    pub tree: TreeModel,
    pub store: StoreModel,
    pub pane: Pane,
    pub file: Option<PathModel>,
    pub review: Option<ReviewModel>,
    pub line: nat,
    pub scroll: nat,
    pub height: nat,
    pub stats: ReviewStats,
    pub prompt: GitignorePrompt,
    pub status: Seq<char>,
}

/// The pane after this one.
pub open spec fn pane_after(pane: Pane) -> Pane {
    match pane {
        Pane::Overview => Pane::Files,
        Pane::Files => Pane::Viewer,
        Pane::Viewer => Pane::Overview,
    }
}

/// The pane before this one.
pub open spec fn pane_before(pane: Pane) -> Pane {
    match pane {
        Pane::Overview => Pane::Viewer,
        Pane::Files => Pane::Overview,
        Pane::Viewer => Pane::Files,
    }
}

/// A path as it is shown: below the root of the workspace where it lies there.
pub open spec fn shown_path(root: PathModel, path: PathModel) -> Seq<char> {
    if path.starts_with(root) {
        path.below(root).text()
    } else {
        path.text()
    }
}

/// Whether a file is gone once `base` is ignored.
pub open spec fn covers(base: PathModel, path: PathModel, base_is_dir: bool) -> bool {
    if base_is_dir {
        path.starts_with(base)
    } else {
        path == base
    }
}

/// `n`, or the last index of `len` lines if that is smaller.
pub open spec fn capped(n: int, len: nat) -> nat {
    if n < len {
        n as nat
    } else {
        (len - 1) as nat
    }
}

/// What the status says of a file whose lines were all marked.
pub open spec fn marked_status(state: LineState, lines: nat, shown: Seq<char>) -> Seq<char> {
    match state {
        LineState::Accepted => "Accepted "@ + text::decimal(lines) + " lines in "@ + shown,
        LineState::Rejected => "Rejected "@ + text::decimal(lines) + " lines in "@ + shown,
        LineState::Unreviewed => "Marked "@ + text::decimal(lines) + " lines unreviewed in "@
            + shown,
    }
}

/// What the status says of a line that was marked.
pub open spec fn line_status(state: LineState) -> Seq<char> {
    match state {
        LineState::Unreviewed => "Marked current line unreviewed"@,
        LineState::Accepted => "Accepted current line"@,
        LineState::Rejected => "Rejected current line"@,
    }
}

impl AppModel {
    /// What holds in every state: all parts speak of one workspace, a file is open with its
    /// review, each line has a state, and the cursor is not above the first line shown.
    pub open spec fn sound(self) -> bool {
        &&& self.tree.root == self.root
        &&& self.store.root == self.root
        &&& self.file is Some <==> self.review is Some
        &&& self.review is Some ==> self.review->0.states.len() == self.review->0.lines.len()
        &&& self.review is None ==> self.line == 0
        &&& self.scroll <= self.line
    }

    /// How many lines the viewer shows, at least one.
    pub open spec fn page(self) -> nat {
        if self.height == 0 {
            1
        } else {
            self.height
        }
    }

    /// The first line shown moved so that the cursor is on the screen. It is kept in sixteen
    /// bits.
    pub open spec fn cursor_shown(self) -> AppModel {
        let top = if self.line < self.scroll {
            self.line
        } else {
            self.scroll
        };
        AppModel {
            scroll: if self.line >= top + self.page() {
                ((self.line - (self.page() - 1)) % 0x10000) as nat
            } else {
                top
            },
            ..self
        }
    }

    /// The cursor on another line, which is brought on the screen.
    pub open spec fn at_line(self, line: nat) -> AppModel {
        AppModel { line, ..self }.cursor_shown()
    }

    /// The cursor moved up by `n` lines.
    pub open spec fn lines_up(self, n: nat) -> AppModel {
        self.at_line(
            if self.line < n {
                0
            } else {
                (self.line - n) as nat
            },
        )
    }

    /// The cursor moved down by `n` lines, within the file.
    pub open spec fn lines_down(self, n: nat) -> AppModel {
        match self.review {
            None => self,
            Some(review) => if review.lines.len() == 0 {
                self.cursor_shown()
            } else {
                self.at_line(capped((self.line + n) as int, review.lines.len()))
            },
        }
    }

    /// The selection of the focused pane moved up.
    pub open spec fn up(self) -> AppModel {
        match self.pane {
            Pane::Overview => self,
            Pane::Files => AppModel { tree: self.tree.up(), ..self },
            Pane::Viewer => self.lines_up(1),
        }
    }

    /// The selection of the focused pane moved down.
    pub open spec fn down(self) -> AppModel {
        match self.pane {
            Pane::Overview => self,
            Pane::Files => AppModel { tree: self.tree.down(), ..self },
            Pane::Viewer => self.lines_down(1),
        }
    }

    /// The cursor moved up by a page.
    pub open spec fn paged_up(self) -> AppModel {
        if self.pane == Pane::Viewer {
            self.lines_up(12)
        } else {
            self
        }
    }

    /// The cursor moved down by a page.
    pub open spec fn paged_down(self) -> AppModel {
        if self.pane == Pane::Viewer && self.review is Some && self.review->0.lines.len() > 0 {
            self.lines_down(12)
        } else {
            self
        }
    }

    /// The cursor on the first line.
    pub open spec fn at_start(self) -> AppModel {
        if self.pane == Pane::Viewer {
            AppModel { line: 0, scroll: 0, ..self }
        } else {
            self
        }
    }

    /// The cursor on the last line, with eight lines above it.
    pub open spec fn at_end(self) -> AppModel {
        if self.pane == Pane::Viewer && self.review is Some && self.review->0.lines.len() > 0 {
            let last = (self.review->0.lines.len() - 1) as nat;
            AppModel {
                line: last,
                scroll: if last < 8 {
                    0
                } else {
                    ((last - 8) % 0x10000) as nat
                },
                ..self
            }
        } else {
            self
        }
    }

    /// What is left to do after a key.
    pub open spec fn command(self, press: KeyPress) -> Command {
        if self.prompt == GitignorePrompt::Waiting {
            match press.key {
                Key::Char('y') | Key::Char('Y') => Command::AnswerPrompt { add_line: true },
                Key::Char('n') | Key::Char('N') | Key::Esc => Command::AnswerPrompt {
                    add_line: false,
                },
                _ => Command::Continue,
            }
        } else if press.control && press.key == Key::Char('c') {
            Command::Quit
        } else if press.key == Key::Char('q') {
            Command::Quit
        } else {
            match (self.pane, press.key) {
                (Pane::Files, Key::Char('a')) => Command::MarkFile(LineState::Accepted),
                (Pane::Files, Key::Char('r')) => Command::MarkFile(LineState::Rejected),
                (Pane::Files, Key::Char('i')) => Command::IgnoreEntry,
                (Pane::Files, Key::Enter) | (Pane::Files, Key::Char(' ')) => Command::OpenOrToggle,
                (Pane::Files, Key::Left) => Command::Collapse,
                (Pane::Files, Key::Right) => Command::Expand,
                (Pane::Viewer, Key::Char('a')) => Command::MarkLine(LineState::Accepted),
                (Pane::Viewer, Key::Char('r')) => Command::MarkLine(LineState::Rejected),
                (Pane::Viewer, Key::Char('u')) => Command::MarkLine(LineState::Unreviewed),
                _ => Command::Continue,
            }
        }
    }

    /// The state after a key, as far as it does not need the disk.
    pub open spec fn pressed(self, press: KeyPress) -> AppModel {
        if self.prompt == GitignorePrompt::Waiting || (press.control && press.key == Key::Char(
            'c',
        )) {
            self
        } else {
            match press.key {
                Key::Char('1') => AppModel { pane: Pane::Overview, ..self },
                Key::Char('2') => AppModel { pane: Pane::Files, ..self },
                Key::Char('3') => AppModel { pane: Pane::Viewer, ..self },
                Key::Tab | Key::Char('l') => AppModel { pane: pane_after(self.pane), ..self },
                Key::BackTab | Key::Char('h') => AppModel { pane: pane_before(self.pane), ..self },
                Key::Char('g') => self.at_start(),
                Key::Char('G') => self.at_end(),
                Key::Up | Key::Char('k') => self.up(),
                Key::Down | Key::Char('j') => self.down(),
                Key::PageUp => self.paged_up(),
                Key::PageDown => self.paged_down(),
                _ => self,
            }
        }
    }

    /// The state with a file open.
    pub open spec fn opened(self, path: PathModel, review: ReviewModel) -> AppModel {
        AppModel {
            store: self.store.with(store::relative_of(self.store.root, path)->0, review),
            file: Some(path),
            review: Some(review),
            line: 0,
            scroll: 0,
            pane: Pane::Viewer,
            status: "Opened "@ + shown_path(self.root, path),
            ..self
        }
    }

    /// The path of the selected row, if it is a file.
    pub open spec fn selected_file(self) -> Option<PathModel> {
        match self.tree.selected_entry() {
            Some(entry) => if entry.kind == TreeEntryKind::File {
                Some(entry.path)
            } else {
                None
            },
            None => None,
        }
    }

    /// Whether the cursor is on a line of the file, if there is one.
    pub open spec fn cursor_fits(self) -> bool {
        self.has_line() ==> self.line < self.review->0.lines.len()
    }

    /// Whether there is a line that can be marked.
    pub open spec fn has_line(self) -> bool {
        self.file is Some && self.review is Some && self.review->0.lines.len() > 0
    }

    /// The state without an open file.
    pub open spec fn closed_file(self) -> AppModel {
        AppModel { file: None, review: None, line: 0, scroll: 0, ..self }
    }
}

/// The program.
pub struct App {
    root: FsPath,
    repo_link: Option<String>,
    tree: FileTree,
    store: ReviewStore,
    active_pane: Pane,
    current_file: Option<FsPath>,
    current_review: Option<FileReview>,
    current_line: usize,
    scroll: u16,
    viewer_height: u16,
    stats: ReviewStats,
    prompt: GitignorePrompt,
    status: String,
}

/// What the disk holds for a workspace when the program starts.
#[derive(Debug)]
pub struct WorkspaceOnDisk {
    /// The content of the ignore file, empty where there is none.
    pub ignore: String,
    /// The entries of the root.
    pub listing: Listing,
    /// The settings, if any were saved.
    pub config: Option<StoreConfig>,
    /// Whether there is a `.git` in the root.
    pub is_git_repo: bool,
    /// The content of `.gitignore`, if it can be read.
    pub gitignore: Option<String>,
    /// The content of `.git/config`, if it can be read.
    pub git_config: Option<String>,
}

/// A file whose lines were all marked.
#[derive(Debug)]
pub struct MarkedFile {
    pub path: FsPath,
    pub lines: usize,
    /// The record to write.
    pub write: RecordWrite,
    /// Whether the file is the open one, so that it has to be read again.
    pub reload: bool,
}

/// The content of a text that may be missing.
pub open spec fn text_view(t: Option<String>) -> Option<Seq<char>> {
    match t {
        Some(t) => Some(t@),
        None => None,
    }
}

impl View for App {
    type V = AppModel;

    closed spec fn view(&self) -> AppModel {
        AppModel {
            root: self.root@,
            repo_link: text_view(self.repo_link),
            tree: self.tree@,
            store: self.store@,
            pane: self.active_pane,
            file: match self.current_file {
                Some(path) => Some(path@),
                None => None,
            },
            review: match self.current_review {
                Some(review) => Some(review@),
                None => None,
            },
            line: self.current_line as nat,
            scroll: self.scroll as nat,
            height: self.viewer_height as nat,
            stats: self.stats,
            prompt: self.prompt,
            status: self.status@,
        }
    }
}

/// A path as it is shown.
pub fn display_path(root: &FsPath, path: &FsPath) -> (r: String)
    ensures
        r@ == shown_path(root@, path@),
{
    match path.strip_prefix(root) {
        Some(relative) => relative.to_text(),
        None => path.to_text(),
    }
}

/// Whether a file is gone once `base` is ignored.
pub fn path_covers(base: &FsPath, path: &FsPath, base_is_dir: bool) -> (r: bool)
    ensures
        r == covers(base@, path@, base_is_dir),
{
    if base_is_dir {
        path.starts_with(base)
    } else {
        path.same(base)
    }
}

impl App {
    fn next_pane(&mut self)
        ensures
            final(self)@ == (AppModel { pane: pane_after(old(self)@.pane), ..old(self)@ }),
    {
        self.active_pane = match self.active_pane {
            Pane::Overview => Pane::Files,
            Pane::Files => Pane::Viewer,
            Pane::Viewer => Pane::Overview,
        };
    }

    fn previous_pane(&mut self)
        ensures
            final(self)@ == (AppModel { pane: pane_before(old(self)@.pane), ..old(self)@ }),
    {
        self.active_pane = match self.active_pane {
            Pane::Overview => Pane::Viewer,
            Pane::Files => Pane::Overview,
            Pane::Viewer => Pane::Files,
        };
    }

    /// Moves the first line shown so that the cursor is on the screen.
    pub fn ensure_cursor_visible(&mut self)
        ensures
            final(self)@ == old(self)@.cursor_shown(),
            old(self)@.sound() ==> final(self)@.sound(),
            old(self)@.line < 0x10000 + old(self)@.page() - 1 ==> final(self)@.scroll
                <= final(self)@.line < final(self)@.scroll + final(self)@.page(),
    {
        if self.current_line < self.scroll as usize {
            self.scroll = self.current_line as u16;
        }
        let height: usize = if self.viewer_height == 0 {
            1
        } else {
            self.viewer_height as usize
        };
        let bottom: usize = self.scroll as usize + height;
        if self.current_line >= bottom {
            let top: usize = self.current_line - (height - 1);
            assert(top as u16 == top % 0x10000) by (bit_vector);
            self.scroll = #[verifier::truncate]
            (top as u16);
        }
    }

    fn move_up_by(&mut self, lines: usize)
        ensures
            final(self)@ == old(self)@.lines_up(lines as nat),
    {
        self.current_line = self.current_line.saturating_sub(lines);
        self.ensure_cursor_visible();
    }

    fn move_down_by(&mut self, lines: usize)
        ensures
            final(self)@ == old(self)@.lines_down(lines as nat),
    {
        let count: usize = match &self.current_review {
            Some(review) => review.lines.len(),
            None => {
                return;
            },
        };
        if count > 0 {
            let target: usize = self.current_line.saturating_add(lines);
            self.current_line = if target < count {
                target
            } else {
                count - 1
            };
        }
        self.ensure_cursor_visible();
    }

    fn move_viewer_up(&mut self)
        ensures
            final(self)@ == old(self)@.lines_up(1),
    {
        self.move_up_by(1);
    }

    /// Moves the cursor to the next line, if there is one. This ends the marking of a line,
    /// once the numbers have been counted anew.
    pub fn move_viewer_down(&mut self)
        ensures
            final(self)@ == old(self)@.lines_down(1),
            old(self)@.sound() ==> final(self)@.sound(),
            old(self)@.cursor_fits() ==> final(self)@.cursor_fits(),
    {
        proof {
            if self@.sound() {
                lemma_cursor_shown(AppModel { line: self@.lines_down(1).line, ..self@ });
            }
        }
        self.move_down_by(1);
    }

    fn move_up(&mut self)
        ensures
            final(self)@ == old(self)@.up(),
    {
        match self.active_pane {
            Pane::Overview => {},
            Pane::Files => {
                self.tree.move_up();
            },
            Pane::Viewer => {
                self.move_viewer_up();
            },
        }
    }

    fn move_down(&mut self)
        ensures
            final(self)@ == old(self)@.down(),
    {
        match self.active_pane {
            Pane::Overview => {},
            Pane::Files => {
                self.tree.move_down();
            },
            Pane::Viewer => {
                self.move_viewer_down();
            },
        }
    }

    fn page_up(&mut self)
        ensures
            final(self)@ == old(self)@.paged_up(),
    {
        if self.active_pane == Pane::Viewer {
            self.move_up_by(12);
        }
    }

    fn page_down(&mut self)
        ensures
            final(self)@ == old(self)@.paged_down(),
    {
        if self.active_pane != Pane::Viewer {
            return;
        }
        let any = match &self.current_review {
            Some(review) => review.lines.len() > 0,
            None => false,
        };
        if any {
            self.move_down_by(12);
        }
    }

    fn move_viewer_to_start(&mut self)
        ensures
            final(self)@ == old(self)@.at_start(),
    {
        if self.active_pane == Pane::Viewer {
            self.current_line = 0;
            self.scroll = 0;
        }
    }

    fn move_viewer_to_end(&mut self)
        ensures
            final(self)@ == old(self)@.at_end(),
    {
        if self.active_pane != Pane::Viewer {
            return;
        }
        let count: usize = match &self.current_review {
            Some(review) => review.lines.len(),
            None => 0,
        };
        if count > 0 {
            let top: usize = (count - 1).saturating_sub(8);
            assert(top as u16 == top % 0x10000) by (bit_vector);
            self.current_line = count - 1;
            self.scroll = #[verifier::truncate]
            (top as u16);
        }
    }
}

/// The cursor stays below the first line shown.
proof fn lemma_cursor_shown(app: AppModel)
    ensures
        app.cursor_shown().scroll <= app.line,
{
}

/// No key breaks the state, whatever it does.
pub proof fn keys_keep_the_state_sound(app: AppModel, press: KeyPress)
    requires
        app.sound(),
    ensures
        app.pressed(press).sound(),
{
    let next = app.pressed(press);
    assert(next.tree.root == app.tree.root);
    assert(next.store == app.store && next.root == app.root);
    assert(next.file == app.file && next.review == app.review);
    if next.line != app.line || next.scroll != app.scroll {
        lemma_cursor_shown(AppModel { line: next.line, ..app });
    }
}

impl App {
    /// Takes a key. What needs the disk is left to the caller.
    #[verifier::rlimit(60)]
    pub fn handle_key(&mut self, press: KeyPress) -> (r: Command)
        ensures
            r == old(self)@.command(press),
            final(self)@ == old(self)@.pressed(press),
            old(self)@.sound() ==> final(self)@.sound(),
    {
        proof {
            if self@.sound() {
                keys_keep_the_state_sound(self@, press);
            }
        }
        if self.prompt == GitignorePrompt::Waiting {
            return match press.key {
                Key::Char('y') | Key::Char('Y') => Command::AnswerPrompt { add_line: true },
                Key::Char('n') | Key::Char('N') | Key::Esc => Command::AnswerPrompt {
                    add_line: false,
                },
                _ => Command::Continue,
            };
        }
        if press.control && press.key == Key::Char('c') {
            return Command::Quit;
        }
        let pane = self.active_pane;
        match press.key {
            Key::Char('q') => Command::Quit,
            Key::Char('1') => {
                self.active_pane = Pane::Overview;
                Command::Continue
            },
            Key::Char('2') => {
                self.active_pane = Pane::Files;
                Command::Continue
            },
            Key::Char('3') => {
                self.active_pane = Pane::Viewer;
                Command::Continue
            },
            Key::Tab | Key::Char('l') => {
                self.next_pane();
                Command::Continue
            },
            Key::BackTab | Key::Char('h') => {
                self.previous_pane();
                Command::Continue
            },
            Key::Char('a') => match pane {
                Pane::Files => Command::MarkFile(LineState::Accepted),
                Pane::Viewer => Command::MarkLine(LineState::Accepted),
                Pane::Overview => Command::Continue,
            },
            Key::Char('r') => match pane {
                Pane::Files => Command::MarkFile(LineState::Rejected),
                Pane::Viewer => Command::MarkLine(LineState::Rejected),
                Pane::Overview => Command::Continue,
            },
            Key::Char('i') => if pane == Pane::Files {
                Command::IgnoreEntry
            } else {
                Command::Continue
            },
            Key::Char('u') => if pane == Pane::Viewer {
                Command::MarkLine(LineState::Unreviewed)
            } else {
                Command::Continue
            },
            Key::Char('g') => {
                self.move_viewer_to_start();
                Command::Continue
            },
            Key::Char('G') => {
                self.move_viewer_to_end();
                Command::Continue
            },
            Key::Enter | Key::Char(' ') => if pane == Pane::Files {
                Command::OpenOrToggle
            } else {
                Command::Continue
            },
            Key::Left => if pane == Pane::Files {
                Command::Collapse
            } else {
                Command::Continue
            },
            Key::Right => if pane == Pane::Files {
                Command::Expand
            } else {
                Command::Continue
            },
            Key::Up | Key::Char('k') => {
                self.move_up();
                Command::Continue
            },
            Key::Down | Key::Char('j') => {
                self.move_down();
                Command::Continue
            },
            Key::PageUp => {
                self.page_up();
                Command::Continue
            },
            Key::PageDown => {
                self.page_down();
                Command::Continue
            },
            _ => Command::Continue,
        }
    }

    /// Takes the answer to the question about `.gitignore`, which holds `existing`.
    pub fn answer_prompt(&mut self, add_line: bool, existing: &str) -> (r: PromptAnswer)
        ensures
            final(self)@ == (AppModel {
                store: old(self)@.store.answered(),
                prompt: GitignorePrompt::Hidden,
                status: if add_line {
                    ".debth/ added to .gitignore"@
                } else {
                    ".debth/ will not be added to .gitignore"@
                },
                ..old(self)@
            }),
            r.config == final(self)@.store.config,
            match r.gitignore {
                Some(content) => add_line && content@ == git::with_state_line(existing@)
                    && git::leaves_out_state(content@),
                None => !add_line,
            },
            old(self)@.sound() ==> final(self)@.sound(),
    {
        let answer = self.store.answer_gitignore_prompt(add_line, existing);
        self.prompt = GitignorePrompt::Hidden;
        self.status = if add_line {
            ".debth/ added to .gitignore".to_owned()
        } else {
            ".debth/ will not be added to .gitignore".to_owned()
        };
        answer
    }

    /// Expands or collapses the selected directory, as long as the explorer has the focus.
    /// For a selected file the answer is its path: it is to be opened.
    pub fn open_or_toggle_selected(&mut self, content: &str, listing: &Listing) -> (r: Result<
        Option<FsPath>,
        TreeError,
    >)
        ensures
            final(self)@ == (AppModel { tree: final(self)@.tree, ..old(self)@ }),
            if old(self)@.pane != Pane::Files || old(self)@.tree.selected_entry() is None {
                r is Ok && r->Ok_0 is None && final(self)@ == old(self)@
            } else {
                let entry = old(self)@.tree.selected_entry()->0;
                match entry.kind {
                    TreeEntryKind::File => {
                        &&& r is Ok && r->Ok_0 is Some && r->Ok_0->0@ == entry.path
                        &&& final(self)@ == old(self)@
                    },
                    TreeEntryKind::Directory => {
                        let turned = old(self)@.tree.turned();
                        let fault = turned.walk(content@, *listing).fault;
                        &&& final(self)@.tree == turned.refreshed(content@, *listing)
                        &&& match r {
                            Ok(file) => file is None && fault is None,
                            Err(error) => fault is Some && error.tells(fault->0),
                        }
                    },
                }
            },
            old(self)@.sound() ==> final(self)@.sound(),
    {
        if self.active_pane != Pane::Files {
            return Ok(None);
        }
        self.tree.toggle_selected(content, listing)
    }

    /// Expands the selected directory. For a selected file the answer is its path: it is to
    /// be opened.
    pub fn expand_selected(&mut self, content: &str, listing: &Listing) -> (r: Result<
        Option<FsPath>,
        TreeError,
    >)
        ensures
            final(self)@ == (AppModel { tree: final(self)@.tree, ..old(self)@ }),
            match old(self)@.tree.selected_entry() {
                None => r is Ok && r->Ok_0 is None && final(self)@ == old(self)@,
                Some(entry) => match entry.kind {
                    TreeEntryKind::File => {
                        &&& r is Ok && r->Ok_0 is Some && r->Ok_0->0@ == entry.path
                        &&& final(self)@ == old(self)@
                    },
                    TreeEntryKind::Directory => {
                        let opened = old(self)@.tree.with_expanded(
                            old(self)@.tree.expanded.insert(entry.path),
                        );
                        let fault = opened.walk(content@, *listing).fault;
                        &&& final(self)@.tree == opened.refreshed(content@, *listing)
                        &&& match r {
                            Ok(file) => file is None && fault is None,
                            Err(error) => fault is Some && error.tells(fault->0),
                        }
                    },
                },
            },
            old(self)@.sound() ==> final(self)@.sound(),
    {
        self.tree.expand_selected(content, listing)
    }

    /// Collapses the selected directory, or selects the directory around the selected entry.
    pub fn collapse_selected(&mut self, content: &str, listing: &Listing) -> (r: Result<
        (),
        TreeError,
    >)
        ensures
            final(self)@ == (AppModel { tree: final(self)@.tree, ..old(self)@ }),
            match old(self)@.tree.selected_entry() {
                None => r is Ok && final(self)@ == old(self)@,
                Some(entry) => if entry.kind == TreeEntryKind::Directory && entry.expanded {
                    let collapsed = old(self)@.tree.with_expanded(
                        old(self)@.tree.expanded.remove(entry.path),
                    );
                    let fault = collapsed.walk(content@, *listing).fault;
                    &&& final(self)@.tree == collapsed.refreshed(content@, *listing)
                    &&& match r {
                        Ok(()) => fault is None,
                        Err(error) => fault is Some && error.tells(fault->0),
                    }
                } else {
                    r is Ok && final(self)@.tree == old(self)@.tree.at_parent()
                },
            },
            old(self)@.sound() ==> final(self)@.sound(),
    {
        self.tree.collapse_selected(content, listing)
    }

    /// Shows a file in the viewer. Its record has to be written, and the numbers counted
    /// anew.
    pub fn open_file(&mut self, path: FsPath, disk: &FileOnDisk) -> (r: Result<
        RecordWrite,
        StoreError,
    >)
        ensures
            match r {
                Ok(write) => {
                    &&& old(self)@.store.can_load(path@, disk@)
                    &&& store::review_is_sound(disk@) && store::gives_back_saved(disk@)
                    &&& final(self)@ == old(self)@.opened(path@, disk@.review())
                    &&& write@ == old(self)@.store.write_for(
                        store::relative_of(old(self)@.store.root, path@)->0,
                        disk@.review(),
                    )
                },
                Err(error) => {
                    &&& !old(self)@.store.can_load(path@, disk@)
                    &&& old(self)@.store.load_fails_with(path@, disk@, error)
                    &&& final(self)@ == old(self)@
                },
            },
            old(self)@.sound() ==> final(self)@.sound(),
    {
        let loaded = match self.store.load_file(&path, disk) {
            Ok(loaded) => loaded,
            Err(error) => {
                return Err(error);
            },
        };
        let mut status: String = "Opened ".to_owned();
        status.append(display_path(&self.root, &path).as_str());
        self.current_file = Some(path);
        self.current_review = Some(loaded.review);
        self.current_line = 0;
        self.scroll = 0;
        self.active_pane = Pane::Viewer;
        self.status = status;
        Ok(loaded.write)
    }

    /// The path of the selected row, if it is a file.
    pub fn selected_file_path(&self) -> (r: Option<FsPath>)
        ensures
            match r {
                Some(path) => self@.selected_file() == Some(path@),
                None => self@.selected_file() is None,
            },
    {
        match self.tree.selected_entry() {
            Some(entry) => match entry.kind {
                TreeEntryKind::File => Some(entry.path.clone()),
                TreeEntryKind::Directory => None,
            },
            None => None,
        }
    }
}

impl App {
    /// The program for the workspace at `root`. The files are counted next.
    pub fn new(root: FsPath, disk: &WorkspaceOnDisk) -> (r: Result<App, TreeError>)
        ensures
            ({
                let start = fs_tree::fresh_tree(root@);
                let fault = start.walk(disk.ignore@, disk.listing).fault;
                match r {
                    Ok(app) => {
                        &&& fault is None
                        &&& app@.sound()
                        &&& app@.cursor_fits()
                        &&& app@ == (AppModel {
                            root: root@,
                            repo_link: match disk.git_config {
                                Some(config) => git::origin_link(config@),
                                None => None,
                            },
                            tree: start.refreshed(disk.ignore@, disk.listing),
                            store: StoreModel {
                                root: root@,
                                cache: Map::empty(),
                                config: match disk.config {
                                    Some(config) => config,
                                    None => StoreConfig { gitignore_prompted: false },
                                },
                            },
                            pane: Pane::Files,
                            file: None,
                            review: None,
                            line: 0,
                            scroll: 0,
                            height: 12,
                            stats: ReviewStats {
                                total: 0,
                                accepted: 0,
                                rejected: 0,
                                unreviewed: 0,
                            },
                            prompt: if store::asks_for_line(
                                app@.store.config,
                                disk.is_git_repo,
                                text_view(disk.gitignore),
                            ) {
                                GitignorePrompt::Waiting
                            } else {
                                GitignorePrompt::Hidden
                            },
                            status: "Ready"@,
                        })
                    },
                    Err(error) => fault is Some && error.tells(fault->0),
                }
            }),
    {
        let tree = match FileTree::new(root.clone(), disk.ignore.as_str(), &disk.listing) {
            Ok(tree) => tree,
            Err(error) => {
                return Err(error);
            },
        };
        let store = ReviewStore::open(root.clone(), disk.config);
        let gitignore = match &disk.gitignore {
            Some(content) => Some(content.as_str()),
            None => None,
        };
        let prompt = if store.needs_gitignore_prompt(disk.is_git_repo, gitignore) {
            GitignorePrompt::Waiting
        } else {
            GitignorePrompt::Hidden
        };
        let repo_link = match &disk.git_config {
            Some(config) => git::git_repo_link(config.as_str()),
            None => None,
        };
        Ok(
            App {
                root,
                repo_link,
                tree,
                store,
                active_pane: Pane::Files,
                current_file: None,
                current_review: None,
                current_line: 0,
                scroll: 0,
                viewer_height: 12,
                stats: ReviewStats::default(),
                prompt,
                status: "Ready".to_owned(),
            },
        )
    }

    /// Whether the cursor is on a line of the file, if there is one. It may not be if the
    /// file has become shorter since.
    pub fn cursor_fits(&self) -> (r: bool)
        ensures
            r == self@.cursor_fits(),
    {
        match (&self.current_file, &self.current_review) {
            (Some(_), Some(review)) => review.lines.len() == 0 || self.current_line
                < review.lines.len(),
            _ => true,
        }
    }

    /// Sets the state of the current line. Where there is a line, its record has to be
    /// written and the numbers counted anew; only then does the cursor move on.
    pub fn mark_current_line(&mut self, state: LineState, disk: &FileOnDisk) -> (r: Result<
        Option<RecordWrite>,
        StoreError,
    >)
        requires
            old(self)@.sound(),
            old(self)@.cursor_fits(),
        ensures
            if !old(self)@.has_line() {
                r is Ok && r->Ok_0 is None && final(self)@ == old(self)@
            } else {
                let before = old(self)@;
                let path = before.file->0;
                let line = before.line as int;
                match r {
                    Ok(write) => {
                        let relative = store::relative_of(before.store.root, path)->0;
                        let marked = store::with_line_state(
                            before.store.review_of(path, disk@),
                            line,
                            state,
                        );
                        let shown = ReviewModel {
                            states: before.review->0.states.update(line, state),
                            ..before.review->0
                        };
                        &&& before.store.knows(path) || before.store.can_load(path, disk@)
                        &&& write is Some
                        &&& write->0@ == before.store.write_for(relative, marked)
                        &&& final(self)@ == (AppModel {
                            store: before.store.with(relative, marked),
                            review: Some(shown),
                            status: line_status(state),
                            ..before
                        })
                        &&& final(self)@.cursor_fits()
                        &&& !before.store.knows(path) ==> store::review_is_sound(disk@)
                            && store::gives_back_saved(disk@)
                    },
                    Err(error) => {
                        &&& !before.store.knows(path) && !before.store.can_load(path, disk@)
                        &&& before.store.load_fails_with(path, disk@, error)
                        &&& final(self)@ == before
                    },
                }
            },
            final(self)@.sound(),
    {
        let path = match &self.current_file {
            Some(path) => path.clone(),
            None => {
                return Ok(None);
            },
        };
        let mut review = match &self.current_review {
            Some(review) => review.clone(),
            None => {
                return Ok(None);
            },
        };
        if review.lines.len() == 0 {
            return Ok(None);
        }
        let write = match self.store.set_line_state(&path, self.current_line, state, disk) {
            Ok(write) => write,
            Err(error) => {
                return Err(error);
            },
        };
        review.states.set(self.current_line, state);
        self.current_review = Some(review);
        self.status = match state {
            LineState::Unreviewed => "Marked current line unreviewed".to_owned(),
            LineState::Accepted => "Accepted current line".to_owned(),
            LineState::Rejected => "Rejected current line".to_owned(),
        };
        Ok(Some(write))
    }

    fn tell_marked(&mut self, state: LineState, lines: usize, path: &FsPath)
        ensures
            final(self)@ == (AppModel {
                status: marked_status(state, lines as nat, shown_path(old(self)@.root, path@)),
                ..old(self)@
            }),
    {
        let mut status: String = match state {
            LineState::Accepted => "Accepted ".to_owned(),
            LineState::Rejected => "Rejected ".to_owned(),
            LineState::Unreviewed => "Marked ".to_owned(),
        };
        status.append(text::string_of(text::decimal_chars(lines).as_slice()).as_str());
        status.append(
            match state {
                LineState::Unreviewed => " lines unreviewed in ",
                _ => " lines in ",
            },
        );
        status.append(display_path(&self.root, path).as_str());
        self.status = status;
    }

    /// Sets the state of every line of the selected file. Its record has to be written; the
    /// file that is open has to be read again; and the numbers are to be counted anew.
    pub fn mark_selected_file(&mut self, state: LineState, disk: &FileOnDisk) -> (r: Result<
        Option<MarkedFile>,
        StoreError,
    >)
        ensures
            match old(self)@.selected_file() {
                None => {
                    &&& r is Ok && r->Ok_0 is None
                    &&& final(self)@ == (AppModel {
                        status: "Select a file before accepting or rejecting it"@,
                        ..old(self)@
                    })
                },
                Some(path) => {
                    let before = old(self)@;
                    match r {
                        Ok(None) => false,
                        Ok(Some(file)) => {
                            let relative = store::relative_of(before.store.root, path)->0;
                            let review = before.store.review_of(path, disk@);
                            let marked = store::with_file_state(review, state);
                            let next = before.store.with(relative, marked);
                            &&& before.store.knows(path) || before.store.can_load(path, disk@)
                            &&& !before.store.knows(path) ==> store::review_is_sound(disk@)
                                && store::gives_back_saved(disk@)
                            &&& file.path@ == path
                            &&& file.lines == review.states.len()
                            &&& file.write@ == before.store.write_for(relative, marked)
                            &&& file.reload == (before.file == Some(path))
                            &&& final(self)@ == (AppModel {
                                store: next,
                                status: if file.reload {
                                    before.status
                                } else {
                                    marked_status(
                                        state,
                                        file.lines as nat,
                                        shown_path(before.root, path),
                                    )
                                },
                                ..before
                            })
                        },
                        Err(error) => {
                            &&& !before.store.knows(path) && !before.store.can_load(path, disk@)
                            &&& before.store.load_fails_with(path, disk@, error)
                            &&& final(self)@ == before
                        },
                    }
                },
            },
            old(self)@.sound() ==> final(self)@.sound(),
            old(self)@.cursor_fits() ==> final(self)@.cursor_fits(),
    {
        let path = match self.selected_file_path() {
            Some(path) => path,
            None => {
                self.status = "Select a file before accepting or rejecting it".to_owned();
                return Ok(None);
            },
        };
        let (lines, write) = match self.store.set_file_state(&path, state, disk) {
            Ok(marked) => marked,
            Err(error) => {
                return Err(error);
            },
        };
        let reload = match &self.current_file {
            Some(current) => current.same(&path),
            None => false,
        };
        if !reload {
            self.tell_marked(state, lines, &path);
        }
        Ok(Some(MarkedFile { path, lines, write, reload }))
    }

    /// Takes up the open file again after all of its lines were marked. The cursor stays
    /// where it is, or moves up to the last of the marked lines. The record has to be
    /// written, and the numbers counted anew.
    pub fn reload_marked_file(
        &mut self,
        state: LineState,
        path: &FsPath,
        lines: usize,
        disk: &FileOnDisk,
    ) -> (r: Result<RecordWrite, StoreError>)
        ensures
            match r {
                Ok(write) => {
                    let before = old(self)@;
                    let relative = store::relative_of(before.store.root, path@)->0;
                    let line = if lines == 0 {
                        0
                    } else {
                        capped(before.line as int, lines as nat)
                    };
                    &&& before.store.can_load(path@, disk@)
                    &&& store::review_is_sound(disk@) && store::gives_back_saved(disk@)
                    &&& write@ == before.store.write_for(relative, disk@.review())
                    &&& final(self)@ == (AppModel {
                        store: before.store.with(relative, disk@.review()),
                        review: Some(disk@.review()),
                        status: marked_status(
                            state,
                            lines as nat,
                            shown_path(before.root, path@),
                        ),
                        ..before
                    }).at_line(line)
                    &&& disk@.lines().len() == lines ==> final(self)@.cursor_fits()
                },
                Err(error) => {
                    &&& !old(self)@.store.can_load(path@, disk@)
                    &&& old(self)@.store.load_fails_with(path@, disk@, error)
                    &&& final(self)@ == old(self)@
                },
            },
            old(self)@.sound() && old(self)@.file is Some ==> final(self)@.sound(),
    {
        let loaded = match self.store.load_file(path, disk) {
            Ok(loaded) => loaded,
            Err(error) => {
                return Err(error);
            },
        };
        self.current_review = Some(loaded.review);
        self.current_line = if lines == 0 {
            0
        } else if self.current_line < lines {
            self.current_line
        } else {
            lines - 1
        };
        self.ensure_cursor_visible();
        self.tell_marked(state, lines, path);
        Ok(loaded.write)
    }
}

impl App {
    /// Writes the selected entry into the ignore file, which holds `existing`. An open file
    /// that is left out from then on is closed. The numbers are to be counted anew.
    pub fn ignore_selected_entry(&mut self, existing: &str, listing: &Listing) -> (r: Result<
        Option<IgnoredSelection>,
        TreeError,
    >)
        ensures
            match old(self)@.tree.selected_entry() {
                None => {
                    &&& r is Ok && r->Ok_0 is None
                    &&& final(self)@ == (AppModel {
                        status: "Select a file or directory before ignoring it"@,
                        ..old(self)@
                    })
                },
                Some(entry) => {
                    let before = old(self)@;
                    let root = before.tree.root;
                    let relative = ignore::relative_text(entry.path.below(root));
                    match r {
                        Ok(None) => false,
                        Ok(Some(ignored)) => {
                            let line = before.tree.ignore_line();
                            let content = ignore::content_with(existing@, line);
                            let fault = before.tree.walk(content, *listing).fault;
                            let is_dir = entry.kind == TreeEntryKind::Directory;
                            let next = AppModel {
                                tree: before.tree.refreshed(content, *listing),
                                ..before
                            };
                            &&& entry.path.starts_with(root) && relative is Some
                            &&& ignored.entry.path@ == entry.path
                            &&& ignored.entry.kind == entry.kind
                            &&& ignored.entry.pattern@ == line
                            &&& match ignored.content {
                                Some(text) => !ignore::holds_line(existing@, line) && text@
                                    == content,
                                None => ignore::holds_line(existing@, line),
                            }
                            &&& match ignored.refreshed {
                                Ok(()) => {
                                    &&& fault is None
                                    &&& final(self)@ == (AppModel {
                                        status: "Ignored "@ + line + " in .debth/ignore"@,
                                        ..if before.file is Some && covers(
                                            entry.path,
                                            before.file->0,
                                            is_dir,
                                        ) {
                                            next.closed_file()
                                        } else {
                                            next
                                        }
                                    })
                                },
                                Err(error) => {
                                    &&& fault is Some && error.tells(fault->0)
                                    &&& final(self)@ == next
                                },
                            }
                        },
                        Err(TreeError::Ignore(IgnoreError::Outside { path: p, root: r })) => {
                            &&& !entry.path.starts_with(root)
                            &&& p@ == entry.path
                            &&& r@ == root
                            &&& final(self)@ == before
                        },
                        Err(TreeError::Ignore(IgnoreError::WorkspaceRoot)) => {
                            &&& entry.path.starts_with(root) && relative is None
                            &&& final(self)@ == before
                        },
                        Err(_) => false,
                    }
                },
            },
            old(self)@.sound() ==> final(self)@.sound(),
            old(self)@.cursor_fits() ==> final(self)@.cursor_fits(),
    {
        let ignored = match self.tree.ignore_selected(existing, listing) {
            Ok(Some(ignored)) => ignored,
            Ok(None) => {
                self.status = "Select a file or directory before ignoring it".to_owned();
                return Ok(None);
            },
            Err(error) => {
                return Err(error);
            },
        };
        if ignored.refreshed.is_err() {
            return Ok(Some(ignored));
        }
        let close = match &self.current_file {
            Some(current) => path_covers(
                &ignored.entry.path,
                current,
                ignored.entry.kind == TreeEntryKind::Directory,
            ),
            None => false,
        };
        if close {
            self.current_file = None;
            self.current_review = None;
            self.current_line = 0;
            self.scroll = 0;
        }
        let mut status: String = "Ignored ".to_owned();
        status.append(ignored.entry.pattern.as_str());
        status.append(" in .debth/ignore");
        self.status = status;
        Ok(Some(ignored))
    }

    /// Brings the explorer up to date.
    pub fn refresh_tree(&mut self, content: &str, listing: &Listing) -> (r: Result<(), TreeError>)
        ensures
            final(self)@ == (AppModel {
                tree: old(self)@.tree.refreshed(content@, *listing),
                ..old(self)@
            }),
            ({
                let fault = old(self)@.tree.walk(content@, *listing).fault;
                match r {
                    Ok(()) => fault is None && final(self)@.tree.in_range(),
                    Err(error) => fault is Some && error.tells(fault->0),
                }
            }),
            old(self)@.sound() ==> final(self)@.sound(),
    {
        self.tree.refresh(content, listing)
    }

    /// Brings the reviews of the files up to date and counts their lines by state. The
    /// records to write are appended to `writes`, as far as the files could be loaded.
    pub fn refresh_stats(&mut self, files: &Vec<WorkspaceFile>, writes: &mut Vec<RecordWrite>) -> (r:
        Result<(), StoreError>)
        ensures
            match r {
                Ok(()) => {
                    &&& store::all_load(old(self)@.store, files@)
                    &&& store::all_sound(files@)
                    &&& final(self)@ == (AppModel {
                        store: store::store_after(old(self)@.store, files@),
                        stats: store::stats_after(files@),
                        ..old(self)@
                    })
                    &&& store::write_views(final(writes)@) == store::write_views(old(writes)@)
                        + store::writes_after(old(self)@.store, files@)
                },
                Err(error) => exists|k: int|
                    {
                        let before = old(self)@.store;
                        &&& 0 <= k < files@.len()
                        &&& store::all_load(before, files@.take(k))
                        &&& store::all_sound(files@.take(k))
                        &&& !before.can_load((#[trigger] files@[k]).path@, files@[k].disk@)
                        &&& before.load_fails_with(files@[k].path@, files@[k].disk@, error)
                        &&& final(self)@ == (AppModel {
                            store: store::store_after(before, files@.take(k)),
                            ..old(self)@
                        })
                        &&& store::write_views(final(writes)@) == store::write_views(old(writes)@)
                            + store::writes_after(before, files@.take(k))
                    },
            },
            old(self)@.sound() ==> final(self)@.sound(),
    {
        proof {
            assert forall|k: int| 0 <= k <= files@.len() implies (#[trigger] store::store_after(
                self@.store,
                files@.take(k),
            )).root == self@.store.root by {
                store::lemma_store_after_root(self@.store, files@.take(k));
            }
            assert(files@.take(files@.len() as int) =~= files@);
        }
        match self.store.workspace_stats(files, writes) {
            Ok(stats) => {
                self.stats = stats;
                Ok(())
            },
            Err(error) => Err(error),
        }
    }

    /// Sets how many lines the viewer shows.
    pub fn set_viewer_height(&mut self, height: u16)
        ensures
            final(self)@ == (AppModel { height: height as nat, ..old(self)@ }),
            old(self)@.sound() ==> final(self)@.sound(),
    {
        self.viewer_height = height;
    }

    /// The root of the workspace.
    pub fn root(&self) -> (r: &FsPath)
        ensures
            r@ == self@.root,
    {
        &self.root
    }

    /// The web address of the repository.
    pub fn repo_link(&self) -> (r: &Option<String>)
        ensures
            text_view(*r) == self@.repo_link,
    {
        &self.repo_link
    }

    /// The explorer.
    pub fn tree(&self) -> (r: &FileTree)
        ensures
            r@ == self@.tree,
    {
        &self.tree
    }

    /// The reviews.
    pub fn store(&self) -> (r: &ReviewStore)
        ensures
            r@ == self@.store,
    {
        &self.store
    }

    /// The pane that has the focus.
    pub fn active_pane(&self) -> (r: Pane)
        ensures
            r == self@.pane,
    {
        self.active_pane
    }

    /// The open file.
    pub fn current_file(&self) -> (r: Option<&FsPath>)
        ensures
            match r {
                Some(path) => self@.file == Some(path@),
                None => self@.file is None,
            },
    {
        match &self.current_file {
            Some(path) => Some(path),
            None => None,
        }
    }

    /// The review of the open file.
    pub fn current_review(&self) -> (r: Option<&FileReview>)
        ensures
            match r {
                Some(review) => self@.review == Some(review@),
                None => self@.review is None,
            },
    {
        match &self.current_review {
            Some(review) => Some(review),
            None => None,
        }
    }

    /// The line that the cursor is on.
    pub fn current_line(&self) -> (r: usize)
        ensures
            r == self@.line,
    {
        self.current_line
    }

    /// The first line shown.
    pub fn scroll(&self) -> (r: u16)
        ensures
            r == self@.scroll,
    {
        self.scroll
    }

    /// The numbers for the workspace.
    pub fn stats(&self) -> (r: ReviewStats)
        ensures
            r == self@.stats,
    {
        self.stats
    }

    /// Whether the question about `.gitignore` is on the screen.
    pub fn prompt(&self) -> (r: GitignorePrompt)
        ensures
            r == self@.prompt,
    {
        self.prompt
    }

    /// The status line.
    pub fn status(&self) -> (r: &str)
        ensures
            r@ == self@.status,
    {
        self.status.as_str()
    }
}

/// No key takes the cursor out of the file.
pub proof fn keys_keep_the_cursor_in_the_file(app: AppModel, press: KeyPress)
    requires
        app.sound(),
        app.cursor_fits(),
    ensures
        app.pressed(press).cursor_fits(),
{
}

/// How far apart two lines are.
pub open spec fn distance(a: nat, b: nat) -> int {
    if a < b {
        b - a
    } else {
        a - b
    }
}

/// Wherever the cursor is, the step that brings it on the screen does so, moves the first line
/// shown no further than it must, and changes nothing else; so it changes nothing at all where
/// the cursor is on the screen, and a second step changes nothing. The first line shown has to
/// have a number of sixteen bits.
pub proof fn cursor_is_shown_by_the_smallest_step(app: AppModel)
    requires
        app.line < 0x10000 + app.page() - 1,
    ensures
        ({
            let shown = app.cursor_shown();
            &&& shown == (AppModel { scroll: shown.scroll, ..app })
            &&& shown.scroll <= app.line < shown.scroll + app.page()
            &&& forall|other: nat|
                other <= app.line < other + app.page() && other != shown.scroll ==> distance(
                    app.scroll,
                    shown.scroll,
                ) < #[trigger] distance(app.scroll, other)
            &&& app.scroll <= app.line < app.scroll + app.page() ==> shown == app
            &&& shown.cursor_shown() == shown
        }),
{
}

/// Wherever a key moves the cursor by lines, it is on the screen afterwards, as long as the
/// first line shown has a number of sixteen bits.
pub proof fn moved_cursor_is_on_the_screen(app: AppModel, line: nat)
    requires
        line < 0x10000 + app.page() - 1,
    ensures
        ({
            let moved = app.at_line(line);
            moved.line == line && moved.scroll <= line < moved.scroll + moved.page()
        }),
{
}

/// Going to the next pane and back, or back and forth, changes nothing.
pub proof fn panes_turn_both_ways(pane: Pane)
    ensures
        pane_before(pane_after(pane)) == pane,
        pane_after(pane_before(pane)) == pane,
        pane_after(pane_after(pane_after(pane))) == pane,
{
}

} // verus!
