//! One browsing session: the frames of a loaded trace, the command line
//! being typed, and the views that commands derive from the frames.

use crate::command::{
    command_of, index_of, is_space, lemma_fixed_lines, lemma_malformed_bounds_line, lemma_range_line,
    range_of, Command,
};
use crate::inspect::{heaviest_frame, is_heaviest, is_stable_descending};
use crate::trace::{frame_views, FrameTrace, FrameTraceView};
use vstd::prelude::*;

verus! {

/// The range of frame positions on show. Positions count frames from zero;
/// they are not span ids.
#[derive(Debug, Clone, Copy, PartialEq, Eq, Structural)]
pub struct FrameState {
    pub start: usize,
    pub end: usize,
}

/// The frame under inspection: a snapshot, independent of the frames it was
/// taken from, with its children ordered for display.
#[derive(Debug, PartialEq, Eq)]
pub struct DetailState {
    pub frame_trace: FrameTrace,
}

/// Whether keys are read as commands to start typing or as typed text.
#[derive(Debug, Clone, Copy, PartialEq, Eq, Structural)]
pub enum InputMode {
    Normal,
    Editing,
}

/// A key of the keyboard, as far as the session tells keys apart.
#[derive(Debug, Clone, Copy, PartialEq, Eq, Structural)]
pub enum Key {
    Char(char),
    Enter,
    Backspace,
    Left,
    Right,
    Esc,
    Other,
}

/// Everything a session holds.
#[derive(Debug, PartialEq, Eq)]
pub struct State {
    /// The frames of the loaded trace. Commands never change them.
    pub trace_data: Vec<FrameTrace>,
    /// The command line, character by character.
    pub input: Vec<char>,
    pub input_mode: InputMode,
    /// The cursor: the number of characters of the command line before it.
    pub character_index: usize,
    /// The range of frames on show; `None` shows all.
    pub frame_state: Option<FrameState>,
    /// The frame under inspection, if any.
    pub detail_state: Option<DetailState>,
}

/// A session and the operations on it.
#[derive(Debug, PartialEq, Eq)]
pub struct App {
    pub state: State,
}

/// Mathematical value of a session.
pub ghost struct StateView {
    pub trace_data: Seq<FrameTraceView>,
    pub input: Seq<char>,
    pub input_mode: InputMode,
    pub character_index: nat,
    pub frame_state: Option<FrameState>,
    pub detail_state: Option<FrameTraceView>,
}

impl View for DetailState {
    type V = FrameTraceView;

    open spec fn view(&self) -> FrameTraceView {
        self.frame_trace@
    }
}

impl View for State {
    type V = StateView;

    open spec fn view(&self) -> StateView {
        StateView {
            trace_data: frame_views(self.trace_data@),
            input: self.input@,
            input_mode: self.input_mode,
            character_index: self.character_index as nat,
            frame_state: self.frame_state,
            detail_state: match self.detail_state {
                Some(detail) => Some(detail@),
                None => None,
            },
        }
    }
}

impl View for App {
    type V = StateView;

    open spec fn view(&self) -> StateView {
        self.state@
    }
}

/// The smaller of two numbers.
pub open spec fn at_most(value: nat, limit: nat) -> nat {
    if value <= limit {
        value
    } else {
        limit
    }
}

impl StateView {
    /// The session with the cursor one character to the left, if there is
    /// one, and never behind the end of the line.
    pub open spec fn moved_left(self) -> StateView {
        let target = if self.character_index == 0 {
            0nat
        } else {
            (self.character_index - 1) as nat
        };
        StateView { character_index: at_most(target, self.input.len()), ..self }
    }

    /// The session with the cursor one character to the right, but never
    /// behind the end of the line.
    pub open spec fn moved_right(self) -> StateView {
        let target = if self.character_index == usize::MAX {
            self.character_index
        } else {
            self.character_index + 1
        };
        StateView { character_index: at_most(target, self.input.len()), ..self }
    }

    /// The session after a character is typed: it goes in at the cursor, or
    /// at the end of the line where the cursor is behind it, and the cursor
    /// moves right.
    pub open spec fn entered(self, c: char) -> StateView {
        let at = at_most(self.character_index, self.input.len()) as int;
        StateView { input: self.input.insert(at, c), ..self }.moved_right()
    }

    /// The session after the character before the cursor is deleted and the
    /// cursor has moved left. With the cursor at the start nothing changes.
    pub open spec fn deleted(self) -> StateView {
        if self.character_index == 0 {
            self
        } else if self.character_index <= self.input.len() {
            StateView { input: self.input.remove(self.character_index - 1), ..self }.moved_left()
        } else {
            self.moved_left()
        }
    }

    /// The session with an empty command line and the cursor at its start.
    pub open spec fn cleared(self) -> StateView {
        StateView { input: Seq::empty(), character_index: 0, ..self }
    }

    /// The range of frame positions on show: the chosen one, or else all.
    pub open spec fn visible_bounds(self) -> (nat, nat) {
        match self.frame_state {
            Some(bounds) => (bounds.start as nat, bounds.end as nat),
            None => (0, self.trace_data.len()),
        }
    }
}

/// Whether `detail` is what inspecting the heaviest of `frames` shows: that
/// frame's record, with its children in descending order of total duration
/// and those of equal duration in the order they had.
pub open spec fn inspects_heaviest(frames: Seq<FrameTraceView>, detail: FrameTraceView) -> bool {
    exists|at: int|
        #![trigger frames[at]]
        is_heaviest(frames, at) && detail.trace == frames[at].trace && is_stable_descending(
            detail.child_traces,
            frames[at].child_traces,
        )
}

/// Whether `after` is the session that inspecting the heaviest frame leaves
/// behind. Without frames nothing changes.
pub open spec fn inspected(before: StateView, after: StateView) -> bool {
    if before.trace_data.len() == 0 {
        after == before
    } else {
        &&& after.detail_state is Some
        &&& inspects_heaviest(before.trace_data, after.detail_state->0)
        &&& after == StateView { detail_state: after.detail_state, ..before }
    }
}

/// Whether `after` is the session that a command leaves behind. Quitting
/// changes nothing. Every other command clears the command line; beyond
/// that, `ShowAll` drops the frame range, `Range` sets it, `InspectMax`
/// replaces the detail, and an ignored line does nothing.
pub open spec fn executed(before: StateView, command: Command, after: StateView) -> bool {
    match command {
        Command::Quit => after == before,
        Command::ShowAll => after == StateView { frame_state: None, ..before.cleared() },
        Command::Range(lower, upper) => after == StateView {
            frame_state: Some(FrameState { start: lower, end: upper }),
            ..before.cleared()
        },
        Command::InspectMax => inspected(before.cleared(), after),
        Command::Ignored => after == before.cleared(),
    }
}

/// Whether `after` and `quit` are what a key leaves behind. Outside
/// editing, only `:` does anything: it is typed and editing begins. While
/// editing, a key counts only when pressed: `Enter` runs the command line,
/// a character is typed, `Backspace` deletes, the arrows move the cursor
/// and `Esc` ends editing.
pub open spec fn handled(
    before: StateView,
    key: Key,
    pressed: bool,
    after: StateView,
    quit: bool,
) -> bool {
    match before.input_mode {
        InputMode::Normal => !quit && after == if key == Key::Char(':') {
            StateView { input_mode: InputMode::Editing, ..before.entered(':') }
        } else {
            before
        },
        InputMode::Editing => if !pressed {
            !quit && after == before
        } else {
            match key {
                Key::Enter => quit == (command_of(before.input) == Command::Quit) && executed(
                    before,
                    command_of(before.input),
                    after,
                ),
                Key::Char(c) => !quit && after == before.entered(c),
                Key::Backspace => !quit && after == before.deleted(),
                Key::Left => !quit && after == before.moved_left(),
                Key::Right => !quit && after == before.moved_right(),
                Key::Esc => !quit && after == StateView { input_mode: InputMode::Normal, ..before },
                Key::Other => !quit && after == before,
            }
        },
    }
}

impl App {
    /// A fresh session over the frames of a trace: nothing typed, every
    /// frame on show, none inspected.
    pub fn new(trace_data: Vec<FrameTrace>) -> (app: App)
        ensures
            app@ == (StateView {
                trace_data: frame_views(trace_data@),
                input: Seq::empty(),
                input_mode: InputMode::Normal,
                character_index: 0,
                frame_state: None,
                detail_state: None,
            }),
    {
        App {
            state: State {
                trace_data,
                input: Vec::new(),
                input_mode: InputMode::Normal,
                character_index: 0,
                frame_state: None,
                detail_state: None,
            },
        }
    }

    /// A cursor position brought back into the command line.
    pub fn clamp_cursor(&self, new_cursor_pos: usize) -> (clamped: usize)
        ensures
            clamped == at_most(new_cursor_pos as nat, self@.input.len()),
    {
        if new_cursor_pos <= self.state.input.len() {
            new_cursor_pos
        } else {
            self.state.input.len()
        }
    }

    /// Moves the cursor one character to the left.
    pub fn move_cursor_left(&mut self)
        ensures
            final(self)@ == old(self)@.moved_left(),
    {
        let cursor_moved_left = self.state.character_index.saturating_sub(1);
        self.state.character_index = self.clamp_cursor(cursor_moved_left);
    }

    /// Moves the cursor one character to the right.
    pub fn move_cursor_right(&mut self)
        ensures
            final(self)@ == old(self)@.moved_right(),
    {
        let cursor_moved_right = self.state.character_index.saturating_add(1);
        self.state.character_index = self.clamp_cursor(cursor_moved_right);
    }

    /// Types a character at the cursor.
    pub fn enter_char(&mut self, new_char: char)
        ensures
            final(self)@ == old(self)@.entered(new_char),
    {
        let index = self.clamp_cursor(self.state.character_index);
        self.state.input.insert(index, new_char);
        self.move_cursor_right();
    }

    /// Deletes the character before the cursor.
    pub fn delete_char(&mut self)
        ensures
            final(self)@ == old(self)@.deleted(),
    {
        let current_index = self.state.character_index;
        if current_index != 0 {
            if current_index <= self.state.input.len() {
                self.state.input.remove(current_index - 1);
            }
            self.move_cursor_left();
        }
    }

    /// Replaces the command line by the given text, the cursor behind it.
    pub fn set_input(&mut self, text: &str)
        ensures
            final(self)@ == (StateView {
                input: text@,
                character_index: text@.len(),
                ..old(self)@
            }),
    {
        self.state.input = crate::command::chars_of(text);
        self.state.character_index = self.state.input.len();
    }

    /// The range of frame positions on show: the chosen one, or else all.
    pub fn visible_bounds(&self) -> (bounds: (usize, usize))
        ensures
            (bounds.0 as nat, bounds.1 as nat) == self@.visible_bounds(),
    {
        match self.state.frame_state {
            Some(chosen) => (chosen.start, chosen.end),
            None => (0, self.state.trace_data.len()),
        }
    }

    /// Inspects the heaviest frame: the detail becomes a snapshot of the
    /// first frame with the greatest total duration, its children sorted by
    /// total duration, longest first. Without frames nothing changes.
    pub fn exec_frame_inspect(&mut self)
        ensures
            inspected(old(self)@, final(self)@),
    {
        match heaviest_frame(&self.state.trace_data) {
            Some(at) => {
                let snapshot = self.state.trace_data[at].inspected();
                proof {
                    let frames = frame_views(self.state.trace_data@);
                    assert(frames[at as int] == self.state.trace_data@[at as int]@);
                    assert(is_heaviest(frames, at as int) && snapshot@.trace == frames[at as int].trace
                        && is_stable_descending(
                        snapshot@.child_traces,
                        frames[at as int].child_traces,
                    ));
                }
                self.state.detail_state = Some(DetailState { frame_trace: snapshot });
            },
            None => {},
        }
    }

    /// Runs the command line. Returns whether the session is to end.
    ///
    /// `:q` ends the session and leaves everything as it is. Every other
    /// line is consumed: the command line is emptied and the cursor put at
    /// its start, whether or not the line named a command.
    pub fn exec_command(&mut self) -> (quit: bool)
        ensures
            quit == (command_of(old(self)@.input) == Command::Quit),
            executed(old(self)@, command_of(old(self)@.input), final(self)@),
    {
        let command = Command::parse(self.state.input.as_slice());
        match command {
            Command::Quit => {
                return true;
            },
            Command::ShowAll => {
                self.state.frame_state = None;
            },
            Command::Range(lower, upper) => {
                self.state.frame_state = Some(FrameState { start: lower, end: upper });
            },
            Command::InspectMax => {
                self.exec_frame_inspect();
            },
            Command::Ignored => {},
        }
        self.state.input.clear();
        self.state.character_index = 0;
        false
    }

    /// Handles one key. Returns whether the session is to end.
    pub fn on_key(&mut self, key: Key, pressed: bool) -> (quit: bool)
        ensures
            handled(old(self)@, key, pressed, final(self)@, quit),
    {
        match self.state.input_mode {
            InputMode::Normal => {
                match key {
                    Key::Char(c) => {
                        if c == ':' {
                            self.enter_char(':');
                            self.state.input_mode = InputMode::Editing;
                        }
                    },
                    _ => {},
                }
                false
            },
            InputMode::Editing => {
                if !pressed {
                    return false;
                }
                match key {
                    Key::Enter => self.exec_command(),
                    Key::Char(to_insert) => {
                        self.enter_char(to_insert);
                        false
                    },
                    Key::Backspace => {
                        self.delete_char();
                        false
                    },
                    Key::Left => {
                        self.move_cursor_left();
                        false
                    },
                    Key::Right => {
                        self.move_cursor_right();
                        false
                    },
                    Key::Esc => {
                        self.state.input_mode = InputMode::Normal;
                        false
                    },
                    Key::Other => false,
                }
            },
        }
    }
}

/// No command changes the frames or the input mode.
pub proof fn lemma_commands_keep_the_frames(before: StateView, command: Command, after: StateView)
    requires
        executed(before, command, after),
    ensures
        after.trace_data == before.trace_data,
        after.input_mode == before.input_mode,
{
}

/// Every command but `Quit` leaves the command line empty, the cursor at
/// its start.
pub proof fn lemma_commands_clear_the_line(before: StateView, command: Command, after: StateView)
    requires
        executed(before, command, after),
        command != Command::Quit,
    ensures
        after.input == Seq::<char>::empty(),
        after.character_index == 0,
{
}

/// `:q` ends the session whatever its state, and leaves the state as it is.
pub proof fn lemma_quit_whatever_the_state(before: StateView, after: StateView)
    requires
        before.input == seq![':', 'q'],
        executed(before, command_of(before.input), after),
    ensures
        command_of(before.input) == Command::Quit,
        after == before,
{
    lemma_fixed_lines();
}

/// `:f all` clears the frame range whatever it was, and touches nothing
/// else but the command line.
pub proof fn lemma_show_all_whatever_the_state(before: StateView, after: StateView)
    requires
        before.input == seq![':', 'f', ' ', 'a', 'l', 'l'],
        executed(before, command_of(before.input), after),
    ensures
        after.frame_state is None,
        after.detail_state == before.detail_state,
{
    lemma_fixed_lines();
}

/// `:f <lower>..<upper>` sets the frame range to the two positions,
/// whatever it was, and touches nothing else but the command line.
pub proof fn lemma_range_whatever_the_state(
    before: StateView,
    after: StateView,
    lower: Seq<char>,
    upper: Seq<char>,
)
    requires
        index_of(lower) is Some,
        index_of(upper) is Some,
        before.input == seq![':', 'f', ' '] + lower + seq!['.', '.'] + upper,
        executed(before, command_of(before.input), after),
    ensures
        after.frame_state == Some(FrameState { start: index_of(lower)->0, end: index_of(upper)->0 }),
        after.detail_state == before.detail_state,
{
    lemma_range_line(lower, upper);
}

/// `:f <word>` with a word that is neither `all` nor `inspect` nor a range
/// leaves the frame range and the detail as they were.
pub proof fn lemma_malformed_bounds_whatever_the_state(
    before: StateView,
    after: StateView,
    word: Seq<char>,
)
    requires
        word.len() > 0,
        forall|i: int| 0 <= i < word.len() ==> !is_space(#[trigger] word[i]),
        word != seq!['a', 'l', 'l'],
        word != seq!['i', 'n', 's', 'p', 'e', 'c', 't'],
        range_of(word) is None,
        before.input == seq![':', 'f', ' '] + word,
        executed(before, command_of(before.input), after),
    ensures
        after.frame_state == before.frame_state,
        after.detail_state == before.detail_state,
{
    lemma_malformed_bounds_line(word);
}

/// `:f inspect max` shows the first of the heaviest frames, whatever was
/// shown before; without frames it shows what was shown before.
pub proof fn lemma_inspect_max_whatever_the_state(before: StateView, after: StateView)
    requires
        before.input == seq![':', 'f', ' ', 'i', 'n', 's', 'p', 'e', 'c', 't', ' ', 'm', 'a', 'x'],
        executed(before, command_of(before.input), after),
    ensures
        after.frame_state == before.frame_state,
        before.trace_data.len() == 0 ==> after.detail_state == before.detail_state,
        before.trace_data.len() > 0 ==> after.detail_state is Some && inspects_heaviest(
            before.trace_data,
            after.detail_state->0,
        ),
{
    lemma_fixed_lines();
}

/// No key changes the frames, and a cursor inside the command line stays
/// inside it.
pub proof fn lemma_keys_keep_the_session_sound(
    before: StateView,
    key: Key,
    pressed: bool,
    after: StateView,
    quit: bool,
)
    requires
        handled(before, key, pressed, after, quit),
    ensures
        after.trace_data == before.trace_data,
        before.character_index <= before.input.len() ==> after.character_index
            <= after.input.len(),
{
}

/// Only a pressed `Enter` on the line `:q`, while editing, ends the
/// session.
pub proof fn lemma_only_quit_ends_the_session(
    before: StateView,
    key: Key,
    pressed: bool,
    after: StateView,
    quit: bool,
)
    requires
        handled(before, key, pressed, after, quit),
    ensures
        quit <==> before.input_mode == InputMode::Editing && pressed && key == Key::Enter
            && command_of(before.input) == Command::Quit,
{
}

} // verus!
