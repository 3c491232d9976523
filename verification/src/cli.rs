//! What the command line front end keeps between two lines: its options and
//! the history of the commands that were entered.

use vstd::prelude::*;
use vstd::string::StringExecFns;
use crate::repl::{trim, trimmed};
use crate::text::{chars_of, string_of};

verus! {

/// The options of the command line.
#[derive(Debug, Default)]
pub struct ArgStruct {
    /// Do not load the standard library.
    pub nostd: bool,
    /// Libraries to load before the first line is read.
    pub load: Vec<String>,
    /// Read lines key by key, with the history of this program, in place of
    /// the line editor of the terminal library.
    pub use_old_repl: bool,
}

/// The model of a [`CommandHistory`].
pub struct HistoryModel {
    /// The position in `ordered` of the command that is shown.
    pub index: nat,
    /// The line that was being edited when browsing began, while browsing.
    pub back_buffer: Option<Seq<char>>,
    /// The commands, oldest first, each once.
    pub ordered: Seq<Seq<char>>,
    /// Every command that was ever entered, in the order of first entry.
    pub set: Seq<Seq<char>>,
}

/// The history in which nothing was entered.
pub open spec fn empty_history() -> HistoryModel {
    HistoryModel { index: 0, back_buffer: None, ordered: Seq::empty(), set: Seq::empty() }
}

/// The first position at or after `from` at which `items` holds `x`.
pub open spec fn first_index(items: Seq<Seq<char>>, x: Seq<char>, from: int) -> Option<int>
    decreases items.len() - from,
{
    if from < 0 || from >= items.len() {
        None
    } else if items[from] == x {
        Some(from)
    } else {
        first_index(items, x, from + 1)
    }
}

/// Where [`first_index`] finds something, it is a position of the sequence
/// at or after `from`.
pub proof fn lemma_first_index_bounds(items: Seq<Seq<char>>, x: Seq<char>, from: int)
    requires
        0 <= from,
    ensures
        first_index(items, x, from) matches Some(i) ==> from <= i < items.len() && items[i] == x,
    decreases items.len() - from,
{
    if from < items.len() && items[from] != x {
        lemma_first_index_bounds(items, x, from + 1);
    }
}

/// The history after a command was entered: the command is the newest, and
/// where it was in the history before, that older entry is gone.
pub open spec fn pushed(h: HistoryModel, cmd: Seq<char>) -> HistoryModel {
    match first_index(h.ordered, cmd, 0) {
        Some(i) => HistoryModel { ordered: h.ordered.remove(i).push(cmd), ..h },
        None => HistoryModel { ordered: h.ordered.push(cmd), set: h.set.push(cmd), ..h },
    }
}

/// The history and the edited line after a step towards older commands. The
/// first step remembers the edited line and shows the newest command; a
/// further step shows the next older one, as long as there is one.
pub open spec fn moved_up(h: HistoryModel, front: Seq<char>) -> (HistoryModel, Seq<char>) {
    if h.ordered.len() == 0 {
        (h, front)
    } else {
        match h.back_buffer {
            None => {
                let index = (h.ordered.len() - 1) as nat;
                (
                    HistoryModel { index, back_buffer: Some(front), ..h },
                    h.ordered[index as int],
                )
            },
            Some(_) => if 0 < h.index <= h.ordered.len() {
                let index = (h.index - 1) as nat;
                (HistoryModel { index, ..h }, h.ordered[index as int])
            } else {
                (h, front)
            },
        }
    }
}

/// The history and the edited line after a step towards newer commands.
/// Behind the newest command the remembered line comes back and browsing
/// ends. Outside browsing nothing changes.
pub open spec fn moved_down(h: HistoryModel, front: Seq<char>) -> (HistoryModel, Seq<char>) {
    match h.back_buffer {
        None => (h, front),
        Some(saved) => if h.ordered.len() == 0 {
            (h, front)
        } else if h.index < h.ordered.len() - 1 {
            let index = h.index + 1;
            (HistoryModel { index, ..h }, h.ordered[index as int])
        } else {
            (HistoryModel { back_buffer: None, ..h }, saved)
        },
    }
}

/// The history and the edited line after browsing was given up: the
/// remembered line comes back, or the line is empty where none was remembered.
pub open spec fn reset(h: HistoryModel) -> (HistoryModel, Seq<char>) {
    match h.back_buffer {
        None => (h, Seq::empty()),
        Some(saved) => (HistoryModel { back_buffer: None, ..h }, saved),
    }
}

/// The commands that were entered, and a cursor for browsing them.
#[derive(Debug)]
pub struct CommandHistory {
    index: usize,
    back_buffer: Option<String>,
    ordered_commands: Vec<String>,
    command_set: Vec<String>,
}

impl View for CommandHistory {
    type V = HistoryModel;

    closed spec fn view(&self) -> HistoryModel {
        HistoryModel {
            index: self.index as nat,
            back_buffer: match self.back_buffer {
                Some(s) => Some(s@),
                None => None,
            },
            ordered: Seq::new(
                self.ordered_commands@.len(),
                |i: int| self.ordered_commands@[i]@,
            ),
            set: Seq::new(self.command_set@.len(), |i: int| self.command_set@[i]@),
        }
    }
}

impl CommandHistory {
    /// An empty history.
    pub fn new() -> (r: CommandHistory)
        ensures
            r@ == empty_history(),
    {
        let r = CommandHistory {
            index: 0,
            back_buffer: None,
            ordered_commands: Vec::new(),
            command_set: Vec::new(),
        };
        assert(r@.ordered =~= Seq::<Seq<char>>::empty());
        assert(r@.set =~= Seq::<Seq<char>>::empty());
        r
    }

    /// Enters a command: it becomes the newest of the history, in which it
    /// then stands once.
    pub fn push(&mut self, cmd: String)
        ensures
            final(self)@ == pushed(old(self)@, cmd@),
    {
        let ghost before = self@;
        let mut found: Option<usize> = None;
        let mut i: usize = 0;
        while i < self.ordered_commands.len()
            invariant_except_break
                i <= self.ordered_commands.len(),
                found is None,
                first_index(before.ordered, cmd@, 0) == first_index(before.ordered, cmd@, i as int),
            invariant
                *self == *old(self),
                before == self@,
            ensures
                match first_index(before.ordered, cmd@, 0) {
                    Some(k) => found is Some && found->Some_0 == k && k
                        < self.ordered_commands.len(),
                    None => found is None,
                },
            decreases self.ordered_commands.len() - i,
        {
            if self.ordered_commands[i] == cmd {
                found = Some(i);
                break ;
            }
            i += 1;
        }
        match found {
            Some(index) => {
                self.ordered_commands.remove(index);
            },
            None => {
                self.command_set.push(cmd.clone());
            },
        }
        self.ordered_commands.push(cmd);
        proof {
            assert(self@.ordered =~= pushed(before, cmd@).ordered);
            assert(self@.set =~= pushed(before, cmd@).set);
        }
    }

    /// A step towards older commands; `front_buffer` is the edited line.
    pub fn move_up(&mut self, front_buffer: &mut String)
        ensures
            (final(self)@, final(front_buffer)@) == moved_up(old(self)@, old(front_buffer)@),
    {
        let len = self.ordered_commands.len();
        if len > 0 {
            if self.back_buffer.is_none() {
                self.index = len - 1;
                self.back_buffer = Some(front_buffer.clone());
                *front_buffer = self.ordered_commands[self.index].clone();
            } else if self.index > 0 && self.index <= len {
                self.index -= 1;
                *front_buffer = self.ordered_commands[self.index].clone();
            }
        }
        proof {
            assert(self@.ordered =~= old(self)@.ordered);
            assert(self@.set =~= old(self)@.set);
        }
    }

    /// A step towards newer commands; `front_buffer` is the edited line.
    pub fn move_down(&mut self, front_buffer: &mut String)
        ensures
            (final(self)@, final(front_buffer)@) == moved_down(old(self)@, old(front_buffer)@),
    {
        if self.back_buffer.is_none() {
            return ;
        }
        let len = self.ordered_commands.len();
        if len > 0 {
            if self.index < len - 1 {
                self.index += 1;
                *front_buffer = self.ordered_commands[self.index].clone();
            } else {
                match self.back_buffer.take() {
                    Some(s) => {
                        *front_buffer = s;
                    },
                    None => {},
                }
            }
        }
        proof {
            assert(self@.ordered =~= old(self)@.ordered);
            assert(self@.set =~= old(self)@.set);
        }
    }

    /// The command at a position of the history, oldest first.
    pub fn get(&self, index: usize) -> (r: Option<&String>)
        ensures
            index < self@.ordered.len() ==> r is Some && r->Some_0@ == self@.ordered[index as int],
            index >= self@.ordered.len() ==> r is None,
    {
        if index < self.ordered_commands.len() {
            Some(&self.ordered_commands[index])
        } else {
            None
        }
    }

    /// Gives browsing up: the remembered line comes back into
    /// `front_buffer`, which is emptied where none was remembered.
    pub fn reset_buffers(&mut self, front_buffer: &mut String)
        ensures
            (final(self)@, final(front_buffer)@) == reset(old(self)@),
    {
        match self.back_buffer.take() {
            Some(s) => {
                *front_buffer = s;
            },
            None => {
                *front_buffer = String::new();
            },
        }
        proof {
            assert(self@.ordered =~= old(self)@.ordered);
            assert(self@.set =~= old(self)@.set);
        }
    }
}

/// A key that was pressed while a line is edited.
#[derive(Clone, Copy, Debug, PartialEq, Eq, Structural)]
pub enum Key {
    Esc,
    Backspace,
    Enter,
    Up,
    Down,
    Left,
    Right,
    /// A character, typed without a modifier.
    Char(char),
    /// A character, typed with the control key held.
    Control(char),
    /// Any other key.
    Other,
}

/// What the front end does after a key was handled.
#[derive(Debug)]
pub enum Effect {
    /// Nothing changed.
    Nothing,
    /// The loop ends.
    Exit,
    /// The line changed: it is drawn again.
    Redraw,
    /// The line is the same and the cursor moved.
    MoveCursor,
    /// An empty line was entered: a new prompt is shown.
    NewPrompt,
    /// This line was entered: it is evaluated, and a new prompt is shown.
    Submit(String),
}

/// The model of an [`Effect`].
pub enum EffectModel {
    Nothing,
    Exit,
    Redraw,
    MoveCursor,
    NewPrompt,
    Submit(Seq<char>),
}

impl View for Effect {
    type V = EffectModel;

    open spec fn view(&self) -> EffectModel {
        match self {
            Effect::Nothing => EffectModel::Nothing,
            Effect::Exit => EffectModel::Exit,
            Effect::Redraw => EffectModel::Redraw,
            Effect::MoveCursor => EffectModel::MoveCursor,
            Effect::NewPrompt => EffectModel::NewPrompt,
            Effect::Submit(line) => EffectModel::Submit(line@),
        }
    }
}

/// The model of a [`LineEditor`]: the line, the position of the cursor in
/// it, in characters, and the history.
pub struct EditorModel {
    pub buffer: Seq<char>,
    pub cursor: nat,
    pub history: HistoryModel,
}

/// The editor and the effect after a key was pressed.
///
/// Escape, control-c and control-d end the loop. Backspace removes the
/// character in front of the cursor. Enter on the line `exit` ends the loop
/// before anything is evaluated; on any other line it hands the trimmed line
/// in, enters it into the history where it is not empty, and empties the line. Up and
/// down browse the history and put the cursor at the end of the line. Left
/// and right move the cursor within the line. A character is put in at the
/// cursor. Any other key does nothing.
pub open spec fn pressed(e: EditorModel, key: Key) -> (EditorModel, EffectModel) {
    match key {
        Key::Esc => (e, EffectModel::Exit),
        Key::Control(c) => if c == 'c' || c == 'd' {
            (e, EffectModel::Exit)
        } else {
            (e, EffectModel::Nothing)
        },
        Key::Backspace => if e.cursor > 0 {
            (
                EditorModel {
                    buffer: e.buffer.remove(e.cursor - 1),
                    cursor: (e.cursor - 1) as nat,
                    ..e
                },
                EffectModel::Redraw,
            )
        } else {
            (e, EffectModel::Nothing)
        },
        Key::Enter => {
            let line = trimmed(e.buffer);
            if line.len() == 0 {
                (EditorModel { buffer: Seq::empty(), cursor: 0, ..e }, EffectModel::NewPrompt)
            } else if line == "exit"@ {
                (e, EffectModel::Exit)
            } else {
                (
                    EditorModel {
                        buffer: Seq::empty(),
                        cursor: 0,
                        history: reset(pushed(e.history, line)).0,
                    },
                    EffectModel::Submit(line),
                )
            }
        },
        Key::Up => {
            let (history, buffer) = moved_up(e.history, e.buffer);
            (EditorModel { buffer, cursor: buffer.len(), history }, EffectModel::Redraw)
        },
        Key::Down => {
            let (history, buffer) = moved_down(e.history, e.buffer);
            (EditorModel { buffer, cursor: buffer.len(), history }, EffectModel::Redraw)
        },
        Key::Left => if e.cursor > 0 {
            (EditorModel { cursor: (e.cursor - 1) as nat, ..e }, EffectModel::MoveCursor)
        } else {
            (e, EffectModel::Nothing)
        },
        Key::Right => if e.cursor < e.buffer.len() {
            (EditorModel { cursor: e.cursor + 1, ..e }, EffectModel::MoveCursor)
        } else {
            (e, EffectModel::Nothing)
        },
        Key::Char(c) => (
            EditorModel {
                buffer: e.buffer.insert(e.cursor as int, c),
                cursor: e.cursor + 1,
                ..e
            },
            EffectModel::Redraw,
        ),
        Key::Other => (e, EffectModel::Nothing),
    }
}

/// A line that is being edited, with the history of the lines before it.
#[derive(Debug)]
pub struct LineEditor {
    buffer: Vec<char>,
    cursor: usize,
    history: CommandHistory,
}

impl View for LineEditor {
    type V = EditorModel;

    closed spec fn view(&self) -> EditorModel {
        EditorModel { buffer: self.buffer@, cursor: self.cursor as nat, history: self.history@ }
    }
}

impl LineEditor {
    /// The cursor is in the line or at its end.
    pub open spec fn wf(&self) -> bool {
        self@.cursor <= self@.buffer.len()
    }

    /// An empty line and an empty history.
    pub fn new() -> (r: LineEditor)
        ensures
            r.wf(),
            r@.buffer == Seq::<char>::empty(),
            r@.cursor == 0,
            r@.history == empty_history(),
    {
        let r = LineEditor { buffer: Vec::new(), cursor: 0, history: CommandHistory::new() };
        assert(r@.buffer =~= Seq::<char>::empty());
        r
    }

    /// The line as it stands.
    pub fn line(&self) -> (r: String)
        ensures
            r@ == self@.buffer,
    {
        string_of(self.buffer.as_slice())
    }

    /// The position of the cursor in the line, in characters.
    pub fn cursor(&self) -> (r: usize)
        ensures
            r == self@.cursor,
    {
        self.cursor
    }

    /// Handles a key.
    pub fn press(&mut self, key: Key) -> (r: Effect)
        requires
            old(self).wf(),
        ensures
            final(self).wf(),
            (final(self)@, r@) == pressed(old(self)@, key),
    {
        match key {
            Key::Esc => Effect::Exit,
            Key::Control(c) => {
                if c == 'c' || c == 'd' {
                    Effect::Exit
                } else {
                    Effect::Nothing
                }
            },
            Key::Backspace => {
                if self.cursor > 0 {
                    self.buffer.remove(self.cursor - 1);
                    self.cursor -= 1;
                    Effect::Redraw
                } else {
                    Effect::Nothing
                }
            },
            Key::Enter => {
                let text = string_of(self.buffer.as_slice());
                let line = trim(text.as_str());
                let chars = chars_of(line);
                let entered = string_of(chars.as_slice());
                if chars.len() > 0 && entered == String::from_str("exit") {
                    return Effect::Exit;
                }
                self.buffer = Vec::new();
                self.cursor = 0;
                assert(self.buffer@ =~= Seq::<char>::empty());
                if chars.len() == 0 {
                    Effect::NewPrompt
                } else {
                    self.history.push(string_of(chars.as_slice()));
                    let mut dropped = String::new();
                    self.history.reset_buffers(&mut dropped);
                    Effect::Submit(entered)
                }
            },
            Key::Up => {
                let mut text = string_of(self.buffer.as_slice());
                self.history.move_up(&mut text);
                self.buffer = chars_of(text.as_str());
                self.cursor = self.buffer.len();
                Effect::Redraw
            },
            Key::Down => {
                let mut text = string_of(self.buffer.as_slice());
                self.history.move_down(&mut text);
                self.buffer = chars_of(text.as_str());
                self.cursor = self.buffer.len();
                Effect::Redraw
            },
            Key::Left => {
                if self.cursor > 0 {
                    self.cursor -= 1;
                    Effect::MoveCursor
                } else {
                    Effect::Nothing
                }
            },
            Key::Right => {
                if self.cursor < self.buffer.len() {
                    self.cursor += 1;
                    Effect::MoveCursor
                } else {
                    Effect::Nothing
                }
            },
            Key::Char(c) => {
                self.buffer.insert(self.cursor, c);
                let len = self.buffer.len();
                assert(self.cursor < len);
                self.cursor += 1;
                Effect::Redraw
            },
            Key::Other => Effect::Nothing,
        }
    }
}

} // verus!
