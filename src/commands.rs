use vstd::prelude::*;
use crate::key::same_text;
use crate::pairs::{lemma_pairs_map_at, lemma_pairs_map_domain, lemma_pairs_map_push, lemma_pairs_map_update, pairs_map, unique_keys};

verus! {

/// A handle on an editor action. Bindings refer to actions by these tags;
/// running them is the host's business.
#[derive(Clone, Copy, Debug, PartialEq, Eq, Structural, Hash)]
pub enum Command {
    CursorMoveUp,
    CursorMoveDown,
    CursorMoveLeft,
    CursorMoveRight,
    CursorMoveToStartOfLine,
    CursorMoveToEndOfLine,
    ViewScrollUp,
    ViewScrollDown,
    BufferInsertChar,
    BufferInsertNewline,
    BufferBackspace,
    BufferDelete,
    BufferSave,
    ApplicationSwitchToNormalMode,
    ApplicationSwitchToInsertMode,
    ApplicationExit,
}

/// A table from command names to commands.
pub struct CommandRegistry {
    entries: Vec<(String, Command)>,
}

/// The list of (name, command) pairs, with names as character sequences.
pub open spec fn name_pairs(entries: Seq<(String, Command)>) -> Seq<(Seq<char>, Command)> {
    entries.map_values(|e: (String, Command)| (e.0@, e.1))
}

impl View for CommandRegistry {
    type V = Map<Seq<char>, Command>;

    closed spec fn view(&self) -> Map<Seq<char>, Command> {
        pairs_map(name_pairs(self.entries@))
    }
}

impl CommandRegistry {
    /// Each name occurs once.
    pub closed spec fn wf(&self) -> bool {
        unique_keys(name_pairs(self.entries@))
    }

    /// A registry without commands.
    pub fn new() -> (r: CommandRegistry)
        ensures
            r.wf(),
            r@ == Map::<Seq<char>, Command>::empty(),
    {
        let r = CommandRegistry { entries: Vec::new() };
        assert(name_pairs(r.entries@).len() == 0);
        r
    }

    fn position(&self, name: &str) -> (r: Option<usize>)
        ensures
            match r {
                Some(i) => i < self.entries@.len() && self.entries@[i as int].0@ == name@,
                None => forall|i: int| 0 <= i < self.entries@.len() ==> self.entries@[i].0@ != name@,
            },
    {
        let mut i: usize = 0;
        while i < self.entries.len()
            invariant
                i <= self.entries@.len(),
                forall|j: int| 0 <= j < i ==> self.entries@[j].0@ != name@,
            decreases self.entries@.len() - i,
        {
            if same_text(self.entries[i].0.as_str(), name) {
                return Some(i);
            }
            i += 1;
        }
        None
    }

    /// Makes `name` stand for `command`, replacing what it stood for before.
    pub fn register(&mut self, name: &str, command: Command)
        requires
            old(self).wf(),
        ensures
            final(self).wf(),
            final(self)@ == old(self)@.insert(name@, command),
    {
        let ghost before = name_pairs(self.entries@);
        match self.position(name) {
            Some(i) => {
                let owned = self.entries[i].0.clone();
                self.entries[i] = (owned, command);
                proof {
                    lemma_pairs_map_update(before, i as int, command);
                    assert(name_pairs(self.entries@) =~= before.update(i as int, (before[i as int].0, command)));
                }
            },
            None => {
                self.entries.push((String::from_str(name), command));
                proof {
                    lemma_pairs_map_push(before, name@, command);
                    assert(name_pairs(self.entries@) =~= before.push((name@, command)));
                }
            },
        }
    }

    /// The command that `name` stands for, if any.
    pub fn resolve(&self, name: &str) -> (r: Option<Command>)
        requires
            self.wf(),
        ensures
            r == self@.get(name@),
    {
        let ghost s = name_pairs(self.entries@);
        proof {
            lemma_pairs_map_domain(s, name@);
        }
        match self.position(name) {
            Some(i) => {
                proof {
                    lemma_pairs_map_at(s, i as int);
                }
                Some(self.entries[i].1)
            },
            None => {
                proof {
                    assert forall|j: int| 0 <= j < s.len() implies s[j].0 != name@ by {
                        assert(s[j].0 == self.entries@[j].0@);
                    }
                }
                None
            },
        }
    }

    /// The editor's built-in commands, each under its `group::action` name.
    pub fn standard() -> (r: CommandRegistry)
        ensures
            r.wf(),
            r@ == map![
                "cursor::move_up"@ => Command::CursorMoveUp,
                "cursor::move_down"@ => Command::CursorMoveDown,
                "cursor::move_left"@ => Command::CursorMoveLeft,
                "cursor::move_right"@ => Command::CursorMoveRight,
                "cursor::move_to_start_of_line"@ => Command::CursorMoveToStartOfLine,
                "cursor::move_to_end_of_line"@ => Command::CursorMoveToEndOfLine,
                "view::scroll_up"@ => Command::ViewScrollUp,
                "view::scroll_down"@ => Command::ViewScrollDown,
                "buffer::insert_char"@ => Command::BufferInsertChar,
                "buffer::insert_newline"@ => Command::BufferInsertNewline,
                "buffer::backspace"@ => Command::BufferBackspace,
                "buffer::delete"@ => Command::BufferDelete,
                "buffer::save"@ => Command::BufferSave,
                "application::switch_to_normal_mode"@ => Command::ApplicationSwitchToNormalMode,
                "application::switch_to_insert_mode"@ => Command::ApplicationSwitchToInsertMode,
                "application::exit"@ => Command::ApplicationExit,
            ],
    {
        let mut r = CommandRegistry::new();
        r.register("cursor::move_up", Command::CursorMoveUp);
        r.register("cursor::move_down", Command::CursorMoveDown);
        r.register("cursor::move_left", Command::CursorMoveLeft);
        r.register("cursor::move_right", Command::CursorMoveRight);
        r.register("cursor::move_to_start_of_line", Command::CursorMoveToStartOfLine);
        r.register("cursor::move_to_end_of_line", Command::CursorMoveToEndOfLine);
        r.register("view::scroll_up", Command::ViewScrollUp);
        r.register("view::scroll_down", Command::ViewScrollDown);
        r.register("buffer::insert_char", Command::BufferInsertChar);
        r.register("buffer::insert_newline", Command::BufferInsertNewline);
        r.register("buffer::backspace", Command::BufferBackspace);
        r.register("buffer::delete", Command::BufferDelete);
        r.register("buffer::save", Command::BufferSave);
        r.register("application::switch_to_normal_mode", Command::ApplicationSwitchToNormalMode);
        r.register("application::switch_to_insert_mode", Command::ApplicationSwitchToInsertMode);
        r.register("application::exit", Command::ApplicationExit);
        r
    }
}

} // verus!
