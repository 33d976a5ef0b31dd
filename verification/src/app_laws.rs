//! What the keys do, whatever the state is.

use vstd::prelude::*;

use crate::app;
use crate::app::AppModel;
use crate::app::Command;
use crate::app::GitignorePrompt;
use crate::app::Key;
use crate::app::KeyPress;
use crate::app::Pane;
use crate::fs_tree::TreeEntryKind;
use crate::fs_tree::TreeModel;
use crate::path::PathModel;
use crate::review::LineState;
use crate::review::ReviewModel;
use crate::store;
use crate::text;
use crate::text_laws;

verus! {

/// A key that is pressed, with or without the control key.
pub open spec fn press_of(key: Key, control: bool) -> KeyPress {
    KeyPress { key, control }
}

/// While the question about `.gitignore` waits, no key changes anything; `y` and `n`, in
/// either case, and the escape key answer it, and every other key is passed over.
pub proof fn waiting_question_takes_all_keys(state: AppModel, press: KeyPress)
    requires
        state.prompt == GitignorePrompt::Waiting,
    ensures
        state.pressed(press) == state,
        state.command(press) == (Command::AnswerPrompt { add_line: true }) <==> press.key
            == Key::Char('y') || press.key == Key::Char('Y'),
        state.command(press) == (Command::AnswerPrompt { add_line: false }) <==> press.key
            == Key::Char('n') || press.key == Key::Char('N') || press.key == Key::Esc,
        state.command(press) is AnswerPrompt || state.command(press) is Continue,
{
}

/// The program ends on `q` and on `c` with the control key, in every pane, and on nothing
/// else.
pub proof fn two_keys_end_the_program(state: AppModel, press: KeyPress)
    requires
        state.prompt != GitignorePrompt::Waiting,
    ensures
        state.command(press) is Quit <==> press.key == Key::Char('q') || (press.control && press.key
            == Key::Char('c')),
        !(state.command(press) is AnswerPrompt),
{
}

/// Lines are marked in the viewer and files in the explorer, each with the letter of the
/// state; the line can also be marked as not reviewed.
pub proof fn letters_mark_in_their_panes(state: AppModel, press: KeyPress, mark: LineState)
    requires
        state.prompt != GitignorePrompt::Waiting,
    ensures
        state.command(press) == Command::MarkLine(mark) <==> state.pane == Pane::Viewer && (
        press.key == Key::Char('a') && mark == LineState::Accepted || press.key == Key::Char('r')
            && mark == LineState::Rejected || press.key == Key::Char('u') && mark
            == LineState::Unreviewed),
        state.command(press) == Command::MarkFile(mark) <==> state.pane == Pane::Files && (press.key
            == Key::Char('a') && mark == LineState::Accepted || press.key == Key::Char('r') && mark
            == LineState::Rejected),
{
}

/// Entries are opened, turned and ignored in the explorer alone.
pub proof fn entries_are_handled_in_the_explorer(state: AppModel, press: KeyPress)
    requires
        state.prompt != GitignorePrompt::Waiting,
    ensures
        state.command(press) is IgnoreEntry <==> state.pane == Pane::Files && press.key
            == Key::Char('i'),
        state.command(press) is OpenOrToggle <==> state.pane == Pane::Files && (press.key
            == Key::Enter || press.key == Key::Char(' ')),
        state.command(press) is Collapse <==> state.pane == Pane::Files && press.key == Key::Left,
        state.command(press) is Expand <==> state.pane == Pane::Files && press.key == Key::Right,
{
}

/// A key that asks for something to be done with the disk changes nothing by itself.
pub proof fn asking_changes_nothing(state: AppModel, press: KeyPress)
    requires
        !(state.command(press) is Continue),
    ensures
        state.pressed(press) == state,
{
}

/// The digits choose a pane. The tab key, and `l`, goes from the overview to the explorer, from
/// there to the viewer, and from there to the overview again; the back tab key, and `h`, goes
/// the other way round. Nothing but the focus changes, and the control key makes no difference.
pub proof fn keys_turn_the_panes(state: AppModel, control: bool)
    requires
        state.prompt != GitignorePrompt::Waiting,
    ensures
        state.pressed(press_of(Key::Char('1'), control)) == (AppModel { pane: Pane::Overview, ..state }),
        state.pressed(press_of(Key::Char('2'), control)) == (AppModel { pane: Pane::Files, ..state }),
        state.pressed(press_of(Key::Char('3'), control)) == (AppModel { pane: Pane::Viewer, ..state }),
        state.pressed(press_of(Key::Tab, control)) == (AppModel {
            pane: match state.pane {
                Pane::Overview => Pane::Files,
                Pane::Files => Pane::Viewer,
                Pane::Viewer => Pane::Overview,
            },
            ..state
        }),
        state.pressed(press_of(Key::Tab, control)).pressed(press_of(Key::BackTab, control)) == state,
        state.pressed(press_of(Key::BackTab, control)).pressed(press_of(Key::Tab, control)) == state,
        state.pressed(press_of(Key::Char('l'), control)) == state.pressed(press_of(Key::Tab, control)),
        state.pressed(press_of(Key::Char('h'), control)) == state.pressed(press_of(Key::BackTab, control)),
{
}

/// Whether two states are the same but for where the cursor is and what the screen starts
/// with.
pub open spec fn only_the_cursor_moved(before: AppModel, after: AppModel) -> bool {
    after == (AppModel { line: after.line, scroll: after.scroll, ..before })
}

/// In the viewer the arrow keys, and `j` and `k`, move the cursor by one line, and the page
/// keys by twelve; it stops at the first and the last line. `g` goes to the first line and `G`
/// to the last.
pub proof fn keys_move_the_cursor(state: AppModel, key: Key, control: bool)
    requires
        state.prompt != GitignorePrompt::Waiting,
        state.pane == Pane::Viewer,
        state.review is Some,
        state.line < state.review->0.lines.len(),
    ensures
        ({
            let n = state.review->0.lines.len();
            let after = state.pressed(press_of(key, control));
            &&& key == Key::Down || key == Key::Char('j') ==> {
                &&& only_the_cursor_moved(state, after)
                &&& state.line + 1 < n ==> after.line == state.line + 1
                &&& state.line + 1 == n ==> after.line == state.line
            }
            &&& key == Key::Up || key == Key::Char('k') ==> {
                &&& only_the_cursor_moved(state, after)
                &&& state.line > 0 ==> after.line + 1 == state.line
                &&& state.line == 0 ==> after.line == 0
            }
            &&& key == Key::PageDown ==> {
                &&& only_the_cursor_moved(state, after)
                &&& state.line + 12 < n ==> after.line == state.line + 12
                &&& state.line + 12 >= n ==> after.line + 1 == n
            }
            &&& key == Key::PageUp ==> {
                &&& only_the_cursor_moved(state, after)
                &&& state.line >= 12 ==> after.line + 12 == state.line
                &&& state.line < 12 ==> after.line == 0
            }
            &&& key == Key::Char('g') ==> {
                &&& only_the_cursor_moved(state, after)
                &&& after.line == 0 && after.scroll == 0
            }
            &&& key == Key::Char('G') ==> {
                &&& only_the_cursor_moved(state, after)
                &&& after.line + 1 == n
                &&& n <= 9 ==> after.scroll == 0
                &&& 9 < n < 0x10000 ==> after.scroll + 9 == n
            }
        }),
{
}

/// After a step in the viewer the cursor is on the screen, and a screen that shows it already
/// does not move.
pub proof fn stepped_cursor_is_on_the_screen(state: AppModel, key: Key, control: bool)
    requires
        state.prompt != GitignorePrompt::Waiting,
        state.pane == Pane::Viewer,
        state.review is Some,
        state.line < state.review->0.lines.len() < 0x10000,
        key == Key::Down || key == Key::Up || key == Key::PageDown || key == Key::PageUp || key
            == Key::Char('j') || key == Key::Char('k'),
    ensures
        ({
            let after = state.pressed(press_of(key, control));
            &&& after.scroll <= after.line
            &&& after.line < after.scroll + after.page()
            &&& state.scroll <= after.line && after.line < state.scroll + state.page()
                ==> after.scroll == state.scroll
            &&& after.page() == (if state.height == 0 {
                1
            } else {
                state.height
            })
        }),
{
    app::cursor_is_shown_by_the_smallest_step(
        AppModel { line: state.pressed(press_of(key, control)).line, ..state },
    );
}

/// In the explorer the arrow keys, and `j` and `k`, move the selection and nothing else; the
/// keys for pages and ends are for the viewer alone.
pub proof fn keys_move_the_selection(state: AppModel, key: Key, control: bool)
    requires
        state.prompt != GitignorePrompt::Waiting,
        state.pane == Pane::Files,
        state.tree.selected < state.tree.visible.len(),
    ensures
        ({
            let n = state.tree.visible.len();
            let after = state.pressed(press_of(key, control));
            &&& key == Key::Down || key == Key::Char('j') ==> {
                &&& after == (AppModel { tree: after.tree, ..state })
                &&& after.tree.visible == state.tree.visible
                &&& after.tree.expanded == state.tree.expanded
                &&& state.tree.selected + 1 < n ==> after.tree.selected == state.tree.selected + 1
                &&& state.tree.selected + 1 == n ==> after.tree.selected == state.tree.selected
            }
            &&& key == Key::Up || key == Key::Char('k') ==> {
                &&& after == (AppModel { tree: after.tree, ..state })
                &&& after.tree.visible == state.tree.visible
                &&& after.tree.expanded == state.tree.expanded
                &&& state.tree.selected > 0 ==> after.tree.selected + 1 == state.tree.selected
                &&& state.tree.selected == 0 ==> after.tree.selected == 0
            }
            &&& key == Key::PageDown || key == Key::PageUp || key == Key::Char('g') || key
                == Key::Char('G') ==> after == state
        }),
{
}

/// In the overview the keys that move do nothing.
pub proof fn nothing_moves_in_the_overview(state: AppModel, key: Key, control: bool)
    requires
        state.pane == Pane::Overview,
        key == Key::Down || key == Key::Up || key == Key::PageDown || key == Key::PageUp || key
            == Key::Char('j') || key == Key::Char('k') || key == Key::Char('g') || key
            == Key::Char('G'),
    ensures
        state.pressed(press_of(key, control)) == state,
{
}

/// While no file is open, the keys that move leave the viewer as it is.
pub proof fn nothing_moves_without_a_file(state: AppModel, press: KeyPress)
    requires
        state.sound(),
        state.review is None,
    ensures
        state.pressed(press).line == 0,
        state.pressed(press).scroll == 0,
        state.pressed(press).file is None,
        state.pressed(press).review is None,
{
}

/// No key opens or closes a file, marks a line, or changes what was counted: that is left to
/// what the key asks for. Keys that are not spoken of do nothing at all.
pub proof fn keys_change_the_focus_the_cursor_and_the_selection(state: AppModel, press: KeyPress)
    ensures
        ({
            let after = state.pressed(press);
            &&& after == (AppModel {
                pane: after.pane,
                line: after.line,
                scroll: after.scroll,
                tree: after.tree,
                ..state
            })
            &&& after.tree == (TreeModel { selected: after.tree.selected, ..state.tree })
            &&& press.key is Enter || press.key is Esc || press.key is Left || press.key is Right
                || press.key is Other ==> after == state
            &&& match press.key {
                Key::Char(c) => c != '1' && c != '2' && c != '3' && c != 'h' && c != 'l' && c != 'g'
                    && c != 'G' && c != 'j' && c != 'k' ==> after == state,
                _ => true,
            }
        }),
{
}

/// A file that is opened is the one shown, from its first line on, with the viewer in focus;
/// the store knows its review, and the explorer and the numbers stay as they are.
pub proof fn opened_file_is_shown_from_the_start(
    state: AppModel,
    path: PathModel,
    review: ReviewModel,
)
    requires
        store::relative_of(state.store.root, path) is Some,
    ensures
        ({
            let after = state.opened(path, review);
            &&& after.file == Some(path)
            &&& after.review == Some(review)
            &&& after.line == 0 && after.scroll == 0
            &&& after.pane == Pane::Viewer
            &&& after.store.knows(path)
            &&& after.store.cache[store::relative_of(state.store.root, path)->0] == review
            &&& after.tree == state.tree && after.stats == state.stats && after.root == state.root
            &&& after.prompt == state.prompt && after.height == state.height
            &&& after.status == "Opened "@ + app::shown_path(state.root, path)
        }),
{
}

/// Only a file can be marked as a whole: it is the selected one.
pub proof fn selected_file_is_the_selected_entry(state: AppModel)
    ensures
        state.selected_file() is Some <==> state.tree.selected < state.tree.visible.len()
            && state.tree.visible[state.tree.selected as int].kind == TreeEntryKind::File,
        state.selected_file() is Some ==> state.selected_file()->0
            == state.tree.visible[state.tree.selected as int].path,
{
}

/// Closing a file leaves nothing of it in the viewer, and everything else as it is.
pub proof fn closed_file_leaves_the_viewer_empty(state: AppModel)
    ensures
        state.closed_file().file is None,
        state.closed_file().review is None,
        state.closed_file().line == 0,
        state.closed_file().scroll == 0,
        state.closed_file() == (AppModel {
            file: None,
            review: None,
            line: 0,
            scroll: 0,
            ..state
        }),
        !state.closed_file().has_line(),
{
}

/// The message about a marked file tells the state, how many lines there are, and the file.
pub proof fn message_tells_what_was_marked(lines: nat, shown: Seq<char>)
    ensures
        app::marked_status(LineState::Accepted, lines, shown) == "Accepted "@ + text::decimal(lines)
            + " lines in "@ + shown,
        app::marked_status(LineState::Rejected, lines, shown) == "Rejected "@ + text::decimal(lines)
            + " lines in "@ + shown,
        app::marked_status(LineState::Unreviewed, lines, shown) == "Marked "@ + text::decimal(lines)
            + " lines unreviewed in "@ + shown,
        text_laws::number_of(text::decimal(lines)) == lines,
        app::line_status(LineState::Accepted) == "Accepted current line"@,
        app::line_status(LineState::Rejected) == "Rejected current line"@,
        app::line_status(LineState::Unreviewed) == "Marked current line unreviewed"@,
{
    text_laws::decimal_stands_for_its_number(lines);
}

} // verus!
