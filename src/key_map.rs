use vstd::prelude::*;
use crate::commands::{Command, CommandRegistry};
use crate::document::{default_document, yaml_document, Node};
use crate::key::{key_of, parse_key, same_text, Key, KeyError};
use crate::pairs::{lemma_pairs_map_at, lemma_pairs_map_domain, lemma_pairs_map_push, lemma_pairs_map_update, pairs_map, unique_keys};

verus! {

/// Why a binding table could not be built. `mode` is the position of the
/// mode among the document's top-level entries, `binding` the position of the
/// binding within that mode.
#[derive(Clone, Copy, Debug, PartialEq, Eq, Structural)]
pub enum KeyMapError {
    /// The document is not a mapping of modes.
    ModesNotMapping,
    /// A mode name is not a string.
    ModeNameNotText { mode: usize },
    /// A mode's bindings are not a mapping.
    BindingsNotMapping { mode: usize },
    /// A key token is not a string.
    KeyNotText { mode: usize, binding: usize },
    /// A command name is not a string.
    CommandNotText { mode: usize, binding: usize },
    /// A key token does not read as a key.
    BadKey { mode: usize, binding: usize, reason: KeyError },
    /// A command name is not in the registry.
    UnknownCommand { mode: usize, binding: usize },
    /// The built-in configuration holds no readable document.
    DefaultUnreadable,
}

/// Bindings of each mode: mode name to key to command.
pub type Bindings = Map<Seq<char>, Map<Key, Command>>;

/// What one `key: command` entry of a mode means.
pub open spec fn binding_of(
    entry: (Node, Node),
    reg: Map<Seq<char>, Command>,
    mode: usize,
    binding: usize,
) -> Result<(Key, Command), KeyMapError> {
    match entry.0 {
        Node::Text(token) => match key_of(token@) {
            Err(reason) => Err(KeyMapError::BadKey { mode, binding, reason }),
            Ok(key) => match entry.1 {
                Node::Text(name) => if reg.contains_key(name@) {
                    Ok((key, reg[name@]))
                } else {
                    Err(KeyMapError::UnknownCommand { mode, binding })
                },
                _ => Err(KeyMapError::CommandNotText { mode, binding }),
            },
        },
        _ => Err(KeyMapError::KeyNotText { mode, binding }),
    }
}

/// The bindings of a mode's entries, read in order: the first failing entry
/// decides the error, and a later entry for a key replaces an earlier one.
pub open spec fn bindings_of_entries(
    s: Seq<(Node, Node)>,
    reg: Map<Seq<char>, Command>,
    mode: usize,
) -> Result<Map<Key, Command>, KeyMapError>
    decreases s.len(),
{
    if s.len() == 0 {
        Ok(Map::empty())
    } else {
        match bindings_of_entries(s.drop_last(), reg, mode) {
            Err(e) => Err(e),
            Ok(m) => match binding_of(s.last(), reg, mode, (s.len() - 1) as usize) {
                Err(e) => Err(e),
                Ok(b) => Ok(m.insert(b.0, b.1)),
            },
        }
    }
}

/// The bindings that a mode's node describes.
pub open spec fn bindings_of(node: Node, reg: Map<Seq<char>, Command>, mode: usize) -> Result<
    Map<Key, Command>,
    KeyMapError,
> {
    match node {
        Node::Mapping(entries) => bindings_of_entries(entries@, reg, mode),
        _ => Err(KeyMapError::BindingsNotMapping { mode }),
    }
}

/// The modes of a document's top-level entries, read in order: the first
/// failing entry decides the error, and a later entry for a mode replaces an
/// earlier one.
pub open spec fn modes_of_entries(s: Seq<(Node, Node)>, reg: Map<Seq<char>, Command>) -> Result<
    Bindings,
    KeyMapError,
>
    decreases s.len(),
{
    if s.len() == 0 {
        Ok(Map::empty())
    } else {
        match modes_of_entries(s.drop_last(), reg) {
            Err(e) => Err(e),
            Ok(m) => {
                let mode = (s.len() - 1) as usize;
                match s.last().0 {
                    Node::Text(name) => match bindings_of(s.last().1, reg, mode) {
                        Err(e) => Err(e),
                        Ok(b) => Ok(m.insert(name@, b)),
                    },
                    _ => Err(KeyMapError::ModeNameNotText { mode }),
                }
            },
        }
    }
}

/// The binding table that a document describes.
pub open spec fn keymap_of(doc: Node, reg: Map<Seq<char>, Command>) -> Result<Bindings, KeyMapError> {
    match doc {
        Node::Mapping(entries) => modes_of_entries(entries@, reg),
        _ => Err(KeyMapError::ModesNotMapping),
    }
}

/// The command bound to `key` in one mode: an exact binding first, and for a
/// plain character the wildcard binding after that.
pub open spec fn command_in(bindings: Map<Key, Command>, key: Key) -> Option<Command> {
    if bindings.contains_key(key) {
        Some(bindings[key])
    } else {
        match key {
            Key::Char(_) => bindings.get(Key::AnyChar),
            _ => None,
        }
    }
}

/// The command bound to `key` in `mode`; nothing for an unknown mode.
pub open spec fn command_for_spec(m: Bindings, mode: Seq<char>, key: Key) -> Option<Command> {
    if m.contains_key(mode) {
        command_in(m[mode], key)
    } else {
        None
    }
}

/// `b` merged into `a`: the modes of `a`, each with the bindings of `b`'s
/// mode of that name laid over its own. Modes that only `b` has are dropped.
pub open spec fn merged(a: Bindings, b: Bindings) -> Bindings {
    Map::new(
        |m: Seq<char>| a.contains_key(m),
        |m: Seq<char>|
            if b.contains_key(m) {
                a[m].union_prefer_right(b[m])
            } else {
                a[m]
            },
    )
}

/// The list of modes, with names as character sequences and bindings as maps.
pub open spec fn mode_pairs(modes: Seq<(String, Vec<(Key, Command)>)>) -> Seq<(Seq<char>, Map<Key, Command>)> {
    modes.map_values(|e: (String, Vec<(Key, Command)>)| (e.0@, pairs_map(e.1@)))
}

/// The built-in configuration: the modes and their bindings that the editor
/// starts with.
pub const DEFAULT_KEYMAP: &'static str = "normal:
  k: cursor::move_up
  j: cursor::move_down
  h: cursor::move_left
  l: cursor::move_right
  up: cursor::move_up
  down: cursor::move_down
  left: cursor::move_left
  right: cursor::move_right
  home: cursor::move_to_start_of_line
  end: cursor::move_to_end_of_line
  page_up: view::scroll_up
  page_down: view::scroll_down
  ctrl-u: view::scroll_up
  ctrl-d: view::scroll_down
  i: application::switch_to_insert_mode
  s: buffer::save
  q: application::exit
insert:
  escape: application::switch_to_normal_mode
  up: cursor::move_up
  down: cursor::move_down
  left: cursor::move_left
  right: cursor::move_right
  home: cursor::move_to_start_of_line
  end: cursor::move_to_end_of_line
  backspace: buffer::backspace
  delete: buffer::delete
  enter: buffer::insert_newline
  tab: buffer::insert_char
  space: buffer::insert_char
  _: buffer::insert_char
";

/// A plain character without a binding of its own gets the mode's wildcard
/// binding, whatever the character.
pub proof fn lemma_wildcard_fallback(m: Bindings, mode: Seq<char>, x: char)
    requires
        m.contains_key(mode),
        m[mode].contains_key(Key::AnyChar),
        !m[mode].contains_key(Key::Char(x)),
    ensures
        command_for_spec(m, mode, Key::Char(x)) == Some(m[mode][Key::AnyChar]),
{
}

/// A key with a binding of its own gets that binding, before any wildcard.
pub proof fn lemma_exact_binding_first(m: Bindings, mode: Seq<char>, key: Key)
    requires
        m.contains_key(mode),
        m[mode].contains_key(key),
    ensures
        command_for_spec(m, mode, key) == Some(m[mode][key]),
{
}

/// Only plain characters fall back to the wildcard: any other key gets its
/// own binding or nothing.
pub proof fn lemma_no_fallback_for_other_keys(m: Bindings, mode: Seq<char>, key: Key)
    requires
        !(key is Char),
    ensures
        command_for_spec(m, mode, key) == (if m.contains_key(mode) {
            m[mode].get(key)
        } else {
            None
        }),
{
}

/// In a mode that both tables have, merging keeps the receiver's bindings for
/// keys the other table leaves alone, replaces those it binds again, and adds
/// its new ones. A mode that only the receiver has is left as it was.
pub proof fn lemma_merge_overlays(a: Bindings, b: Bindings, mode: Seq<char>, key: Key)
    requires
        a.contains_key(mode),
    ensures
        merged(a, b).contains_key(mode),
        merged(a, b)[mode].get(key) == (if b.contains_key(mode) && b[mode].contains_key(key) {
            Some(b[mode][key])
        } else {
            a[mode].get(key)
        }),
{
}

/// Merging never adds or removes a mode: the modes are the receiver's.
pub proof fn lemma_merge_keeps_modes(a: Bindings, b: Bindings)
    ensures
        merged(a, b).dom() == a.dom(),
{
    assert(merged(a, b).dom() =~= a.dom());
}

/// A binding that names a command the registry lacks makes its whole mode
/// fail, rather than leaving that binding out.
pub proof fn lemma_unknown_command_fails_mode(node: Node, reg: Map<Seq<char>, Command>, mode: usize, j: int)
    requires
        node is Mapping,
        0 <= j < node->Mapping_0@.len(),
        node->Mapping_0@[j].1 is Text,
        !reg.contains_key(node->Mapping_0@[j].1->Text_0@),
    ensures
        bindings_of(node, reg, mode) is Err,
{
    let bs = node->Mapping_0@;
    lemma_bindings_step(bs, reg, mode, j);
    lemma_bindings_error_prefix(bs, reg, mode, j + 1);
}

/// A binding that names a command the registry lacks makes the whole
/// construction fail, rather than leaving that binding out.
pub proof fn lemma_unknown_command_fails(doc: Node, reg: Map<Seq<char>, Command>, i: int, j: int)
    requires
        doc is Mapping,
        0 <= i < doc->Mapping_0@.len(),
        doc->Mapping_0@[i].1 is Mapping,
        0 <= j < doc->Mapping_0@[i].1->Mapping_0@.len(),
        doc->Mapping_0@[i].1->Mapping_0@[j].1 is Text,
        !reg.contains_key(doc->Mapping_0@[i].1->Mapping_0@[j].1->Text_0@),
    ensures
        keymap_of(doc, reg) is Err,
{
    let entries = doc->Mapping_0@;
    lemma_unknown_command_fails_mode(entries[i].1, reg, i as usize, j);
    lemma_modes_step(entries, reg, i);
    lemma_modes_error_prefix(entries, reg, i + 1);
}

/// Keyboard bindings of each input mode.
pub struct KeyMap {
    modes: Vec<(String, Vec<(Key, Command)>)>,
}

impl View for KeyMap {
    type V = Bindings;

    closed spec fn view(&self) -> Bindings {
        pairs_map(mode_pairs(self.modes@))
    }
}

/// Once a prefix of a mode's entries fails, the whole list fails the same way.
proof fn lemma_bindings_error_prefix(s: Seq<(Node, Node)>, reg: Map<Seq<char>, Command>, mode: usize, j: int)
    requires
        0 <= j <= s.len(),
        bindings_of_entries(s.take(j), reg, mode) is Err,
    ensures
        bindings_of_entries(s, reg, mode) == bindings_of_entries(s.take(j), reg, mode),
    decreases s.len(),
{
    if j == s.len() {
        assert(s.take(j) == s);
    } else {
        assert(s.drop_last().take(j) == s.take(j));
        lemma_bindings_error_prefix(s.drop_last(), reg, mode, j);
    }
}

/// Reading the first `j + 1` entries extends the reading of the first `j`.
proof fn lemma_bindings_step(s: Seq<(Node, Node)>, reg: Map<Seq<char>, Command>, mode: usize, j: int)
    requires
        0 <= j < s.len(),
    ensures
        bindings_of_entries(s.take(j + 1), reg, mode) == match bindings_of_entries(s.take(j), reg, mode) {
            Err(e) => Err(e),
            Ok(m) => match binding_of(s[j], reg, mode, j as usize) {
                Err(e) => Err(e),
                Ok(b) => Ok(m.insert(b.0, b.1)),
            },
        },
{
    assert(s.take(j + 1).drop_last() == s.take(j));
    assert(s.take(j + 1).last() == s[j]);
}

/// Once a prefix of the top-level entries fails, the whole list fails the same way.
proof fn lemma_modes_error_prefix(s: Seq<(Node, Node)>, reg: Map<Seq<char>, Command>, j: int)
    requires
        0 <= j <= s.len(),
        modes_of_entries(s.take(j), reg) is Err,
    ensures
        modes_of_entries(s, reg) == modes_of_entries(s.take(j), reg),
    decreases s.len(),
{
    if j == s.len() {
        assert(s.take(j) == s);
    } else {
        assert(s.drop_last().take(j) == s.take(j));
        lemma_modes_error_prefix(s.drop_last(), reg, j);
    }
}

/// Reading the first `j + 1` modes extends the reading of the first `j`.
proof fn lemma_modes_step(s: Seq<(Node, Node)>, reg: Map<Seq<char>, Command>, j: int)
    requires
        0 <= j < s.len(),
    ensures
        modes_of_entries(s.take(j + 1), reg) == match modes_of_entries(s.take(j), reg) {
            Err(e) => Err(e),
            Ok(m) => match s[j].0 {
                Node::Text(name) => match bindings_of(s[j].1, reg, j as usize) {
                    Err(e) => Err(e),
                    Ok(b) => Ok(m.insert(name@, b)),
                },
                _ => Err(KeyMapError::ModeNameNotText { mode: j as usize }),
            },
        },
{
    assert(s.take(j + 1).drop_last() == s.take(j));
    assert(s.take(j + 1).last() == s[j]);
}

/// Reads the `key: command` entries of one mode into bindings.
fn parse_mode_key_bindings(mode: &Node, commands: &CommandRegistry, index: usize) -> (r: Result<
    Vec<(Key, Command)>,
    KeyMapError,
>)
    requires
        commands.wf(),
    ensures
        match r {
            Ok(b) => unique_keys(b@) && bindings_of(*mode, commands@, index) == Ok::<_, KeyMapError>(pairs_map(b@)),
            Err(e) => bindings_of(*mode, commands@, index) == Err::<Map<Key, Command>, _>(e),
        },
{
    let entries = match mode {
        Node::Mapping(entries) => entries,
        _ => return Err(KeyMapError::BindingsNotMapping { mode: index }),
    };
    let ghost reg = commands@;
    let mut key_bindings: Vec<(Key, Command)> = Vec::new();
    let mut i: usize = 0;
    proof {
        assert(entries@.take(0).len() == 0);
    }
    while i < entries.len()
        invariant
            commands.wf(),
            reg == commands@,
            bindings_of(*mode, reg, index) == bindings_of_entries(entries@, reg, index),
            i <= entries@.len(),
            unique_keys(key_bindings@),
            bindings_of_entries(entries@.take(i as int), reg, index) == Ok::<_, KeyMapError>(pairs_map(key_bindings@)),
        decreases entries@.len() - i,
    {
        proof {
            lemma_bindings_step(entries@, reg, index, i as int);
        }
        let token = match &entries[i].0 {
            Node::Text(t) => t,
            _ => {
                proof {
                    lemma_bindings_error_prefix(entries@, reg, index, i + 1);
                }
                return Err(KeyMapError::KeyNotText { mode: index, binding: i });
            },
        };
        let key = match parse_key(token.as_str()) {
            Ok(k) => k,
            Err(reason) => {
                proof {
                    lemma_bindings_error_prefix(entries@, reg, index, i + 1);
                }
                return Err(KeyMapError::BadKey { mode: index, binding: i, reason });
            },
        };
        let name = match &entries[i].1 {
            Node::Text(n) => n,
            _ => {
                proof {
                    lemma_bindings_error_prefix(entries@, reg, index, i + 1);
                }
                return Err(KeyMapError::CommandNotText { mode: index, binding: i });
            },
        };
        let command = match commands.resolve(name.as_str()) {
            Some(c) => c,
            None => {
                proof {
                    lemma_bindings_error_prefix(entries@, reg, index, i + 1);
                }
                return Err(KeyMapError::UnknownCommand { mode: index, binding: i });
            },
        };
        insert_binding(&mut key_bindings, key, command);
        i += 1;
    }
    proof {
        assert(entries@.take(i as int) == entries@);
    }
    Ok(key_bindings)
}

/// Adding a mode that `b` lacks to `b` changes the merge in that mode alone.
proof fn lemma_merged_insert(a: Bindings, b: Bindings, n: Seq<char>, bm: Map<Key, Command>)
    requires
        !b.contains_key(n),
    ensures
        merged(a, b.insert(n, bm)) == (if a.contains_key(n) {
            merged(a, b).insert(n, a[n].union_prefer_right(bm))
        } else {
            merged(a, b)
        }),
{
    if a.contains_key(n) {
        assert(merged(a, b.insert(n, bm)) =~= merged(a, b).insert(n, a[n].union_prefer_right(bm)));
    } else {
        assert(merged(a, b.insert(n, bm)) =~= merged(a, b));
    }
}

fn find_binding(bindings: &Vec<(Key, Command)>, key: Key) -> (r: Option<usize>)
    ensures
        match r {
            Some(i) => i < bindings@.len() && bindings@[i as int].0 == key,
            None => forall|i: int| 0 <= i < bindings@.len() ==> bindings@[i].0 != key,
        },
{
    let mut i: usize = 0;
    while i < bindings.len()
        invariant
            i <= bindings@.len(),
            forall|j: int| 0 <= j < i ==> bindings@[j].0 != key,
        decreases bindings@.len() - i,
    {
        if bindings[i].0 == key {
            return Some(i);
        }
        i += 1;
    }
    None
}

fn insert_binding(bindings: &mut Vec<(Key, Command)>, key: Key, command: Command)
    requires
        unique_keys(old(bindings)@),
    ensures
        unique_keys(final(bindings)@),
        pairs_map(final(bindings)@) == pairs_map(old(bindings)@).insert(key, command),
{
    match find_binding(bindings, key) {
        Some(i) => {
            proof {
                lemma_pairs_map_update(bindings@, i as int, command);
            }
            bindings[i] = (key, command);
        },
        None => {
            proof {
                lemma_pairs_map_push(bindings@, key, command);
            }
            bindings.push((key, command));
        },
    }
}

fn lookup_binding(bindings: &Vec<(Key, Command)>, key: Key) -> (r: Option<Command>)
    requires
        unique_keys(bindings@),
    ensures
        r == pairs_map(bindings@).get(key),
{
    proof {
        lemma_pairs_map_domain(bindings@, key);
    }
    match find_binding(bindings, key) {
        Some(i) => {
            proof {
                lemma_pairs_map_at(bindings@, i as int);
            }
            Some(bindings[i].1)
        },
        None => None,
    }
}

impl KeyMap {
    /// Mode names are unique, and so are the keys within each mode.
    pub closed spec fn wf(&self) -> bool {
        &&& unique_keys(mode_pairs(self.modes@))
        &&& forall|i: int| 0 <= i < self.modes@.len() ==> unique_keys(#[trigger] self.modes@[i].1@)
    }

    /// A table without modes.
    fn empty() -> (r: KeyMap)
        ensures
            r.wf(),
            r@ == Map::<Seq<char>, Map<Key, Command>>::empty(),
    {
        let r = KeyMap { modes: Vec::new() };
        assert(mode_pairs(r.modes@).len() == 0);
        r
    }

    /// Sets the bindings of mode `name`, replacing any it had.
    fn insert_mode(&mut self, name: String, bindings: Vec<(Key, Command)>)
        requires
            old(self).wf(),
            unique_keys(bindings@),
        ensures
            final(self).wf(),
            final(self)@ == old(self)@.insert(name@, pairs_map(bindings@)),
    {
        let ghost before = mode_pairs(self.modes@);
        let ghost entry = (name@, pairs_map(bindings@));
        match self.find_mode(name.as_str()) {
            Some(i) => {
                proof {
                    lemma_pairs_map_update(before, i as int, entry.1);
                }
                self.modes[i] = (name, bindings);
                proof {
                    assert(mode_pairs(self.modes@) =~= before.update(i as int, entry));
                }
            },
            None => {
                proof {
                    assert forall|j: int| 0 <= j < before.len() implies before[j].0 != entry.0 by {
                        assert(before[j].0 == self.modes@[j].0@);
                    }
                    lemma_pairs_map_push(before, entry.0, entry.1);
                }
                self.modes.push((name, bindings));
                proof {
                    assert(mode_pairs(self.modes@) =~= before.push(entry));
                }
            },
        }
    }

    /// Builds the binding table that a document of modes describes, each mode a
    /// mapping from key tokens to command names that `commands` resolves.
    ///
    /// Fails at the first entry that cannot be read; a later binding for a key
    /// within a mode, or a later mode of the same name, replaces the earlier.
    pub fn from(keymap_data: &Node, commands: &CommandRegistry) -> (r: Result<KeyMap, KeyMapError>)
        requires
            commands.wf(),
        ensures
            match r {
                Ok(km) => km.wf() && keymap_of(*keymap_data, commands@) == Ok::<_, KeyMapError>(km@),
                Err(e) => keymap_of(*keymap_data, commands@) == Err::<Bindings, _>(e),
            },
    {
        let modes = match keymap_data {
            Node::Mapping(entries) => entries,
            _ => return Err(KeyMapError::ModesNotMapping),
        };
        let ghost reg = commands@;
        let mut keymap = KeyMap::empty();
        let mut i: usize = 0;
        proof {
            assert(modes@.take(0).len() == 0);
        }
        while i < modes.len()
            invariant
                commands.wf(),
                reg == commands@,
                keymap_of(*keymap_data, reg) == modes_of_entries(modes@, reg),
                i <= modes@.len(),
                keymap.wf(),
                modes_of_entries(modes@.take(i as int), reg) == Ok::<_, KeyMapError>(keymap@),
            decreases modes@.len() - i,
        {
            proof {
                lemma_modes_step(modes@, reg, i as int);
            }
            let mode = match &modes[i].0 {
                Node::Text(m) => m,
                _ => {
                    proof {
                        lemma_modes_error_prefix(modes@, reg, i + 1);
                    }
                    return Err(KeyMapError::ModeNameNotText { mode: i });
                },
            };
            let key_bindings = match parse_mode_key_bindings(&modes[i].1, commands, i) {
                Ok(b) => b,
                Err(e) => {
                    proof {
                        lemma_modes_error_prefix(modes@, reg, i + 1);
                    }
                    return Err(e);
                },
            };
            keymap.insert_mode(mode.clone(), key_bindings);
            i += 1;
        }
        proof {
            assert(modes@.take(i as int) == modes@);
        }
        Ok(keymap)
    }

    /// The command bound to `key` in `mode`, if any. A plain character
    /// without a binding of its own falls back to the mode's wildcard binding.
    pub fn command_for(&self, mode: &str, key: &Key) -> (r: Option<Command>)
        requires
            self.wf(),
        ensures
            r == command_for_spec(self@, mode@, *key),
    {
        let ghost pairs = mode_pairs(self.modes@);
        proof {
            lemma_pairs_map_domain(pairs, mode@);
        }
        match self.find_mode(mode) {
            None => {
                proof {
                    assert forall|j: int| 0 <= j < pairs.len() implies pairs[j].0 != mode@ by {
                        assert(pairs[j].0 == self.modes@[j].0@);
                    }
                }
                None
            },
            Some(i) => {
                proof {
                    lemma_pairs_map_at(pairs, i as int);
                }
                let bindings = &self.modes[i].1;
                assert(unique_keys(bindings@));
                match lookup_binding(bindings, *key) {
                    Some(c) => Some(c),
                    None => match key {
                        Key::Char(_) => lookup_binding(bindings, Key::AnyChar),
                        _ => None,
                    },
                }
            },
        }
    }

    /// The bindings of `mode`, as a list of distinct keys with their commands;
    /// `None` for a mode the table lacks.
    pub fn mode_bindings(&self, mode: &str) -> (r: Option<Vec<(Key, Command)>>)
        requires
            self.wf(),
        ensures
            match r {
                Some(v) => self@.contains_key(mode@) && unique_keys(v@) && pairs_map(v@) == self@[mode@],
                None => !self@.contains_key(mode@),
            },
    {
        let ghost pairs = mode_pairs(self.modes@);
        proof {
            lemma_pairs_map_domain(pairs, mode@);
        }
        match self.find_mode(mode) {
            None => {
                proof {
                    assert forall|j: int| 0 <= j < pairs.len() implies pairs[j].0 != mode@ by {
                        assert(pairs[j].0 == self.modes@[j].0@);
                    }
                }
                None
            },
            Some(i) => {
                proof {
                    lemma_pairs_map_at(pairs, i as int);
                }
                let bindings = &self.modes[i].1;
                let mut out: Vec<(Key, Command)> = Vec::new();
                let mut k: usize = 0;
                while k < bindings.len()
                    invariant
                        k <= bindings@.len(),
                        out@ == bindings@.take(k as int),
                    decreases bindings@.len() - k,
                {
                    out.push(bindings[k]);
                    proof {
                        assert(bindings@.take(k + 1) == bindings@.take(k as int).push(bindings@[k as int]));
                    }
                    k += 1;
                }
                proof {
                    assert(bindings@.take(k as int) == bindings@);
                }
                Some(out)
            },
        }
    }

    /// Lays `extra` over the bindings of the mode at position `i`.
    fn merge_into_mode(&mut self, i: usize, extra: &Vec<(Key, Command)>)
        requires
            old(self).wf(),
            i < old(self).modes@.len(),
            unique_keys(extra@),
        ensures
            final(self).wf(),
            final(self)@ == old(self)@.insert(
                old(self).modes@[i as int].0@,
                old(self)@[old(self).modes@[i as int].0@].union_prefer_right(pairs_map(extra@)),
            ),
    {
        let ghost before = mode_pairs(self.modes@);
        proof {
            lemma_pairs_map_at(before, i as int);
        }
        let entry = self.modes.remove(i);
        let name = entry.0;
        let mut bindings = entry.1;
        let ghost start = pairs_map(bindings@);
        assert(unique_keys(bindings@));
        let mut k: usize = 0;
        proof {
            assert(pairs_map(extra@.take(0)) =~= Map::<Key, Command>::empty());
            assert(start.union_prefer_right(Map::empty()) =~= start);
        }
        while k < extra.len()
            invariant
                k <= extra@.len(),
                unique_keys(bindings@),
                pairs_map(bindings@) == start.union_prefer_right(pairs_map(extra@.take(k as int))),
            decreases extra@.len() - k,
        {
            proof {
                assert(extra@.take(k + 1).drop_last() == extra@.take(k as int));
                assert(extra@.take(k + 1).last() == extra@[k as int]);
                let m = pairs_map(extra@.take(k as int));
                assert(start.union_prefer_right(m.insert(extra@[k as int].0, extra@[k as int].1))
                    =~= start.union_prefer_right(m).insert(extra@[k as int].0, extra@[k as int].1));
            }
            insert_binding(&mut bindings, extra[k].0, extra[k].1);
            k += 1;
        }
        proof {
            assert(extra@.take(k as int) == extra@);
        }
        let ghost merged_mode = pairs_map(bindings@);
        self.modes.insert(i, (name, bindings));
        proof {
            assert(mode_pairs(self.modes@) =~= before.update(i as int, (before[i as int].0, merged_mode)));
            lemma_pairs_map_update(before, i as int, merged_mode);
            assert forall|j: int| 0 <= j < self.modes@.len() implies unique_keys(#[trigger] self.modes@[j].1@) by {
                if j != i {
                    assert(self.modes@[j] == old(self).modes@[j]);
                }
            }
        }
    }

    /// Lays the bindings of `key_map` over this table, mode by mode. A mode
    /// that this table lacks is dropped: merging never adds a mode.
    pub fn merge(&mut self, key_map: KeyMap)
        requires
            old(self).wf(),
            key_map.wf(),
        ensures
            final(self).wf(),
            final(self)@ == merged(old(self)@, key_map@),
    {
        let ghost a = self@;
        let other = key_map.modes;
        let ghost others = mode_pairs(other@);
        let mut j: usize = 0;
        proof {
            assert(pairs_map(others.take(0)) =~= Map::<Seq<char>, Map<Key, Command>>::empty());
            assert(merged(a, Map::empty()) =~= a);
        }
        while j < other.len()
            invariant
                self.wf(),
                others == mode_pairs(other@),
                unique_keys(others),
                forall|i: int| 0 <= i < other@.len() ==> unique_keys(#[trigger] other@[i].1@),
                j <= other@.len(),
                self@ == merged(a, pairs_map(others.take(j as int))),
            decreases other@.len() - j,
        {
            let ghost name = others[j as int].0;
            proof {
                assert(others.take(j + 1).drop_last() == others.take(j as int));
                assert(others.take(j + 1).last() == others[j as int]);
                lemma_pairs_map_domain(others.take(j as int), name);
                lemma_merged_insert(a, pairs_map(others.take(j as int)), name, others[j as int].1);
                lemma_pairs_map_domain(mode_pairs(self.modes@), name);
            }
            match self.find_mode(other[j].0.as_str()) {
                Some(i) => {
                    proof {
                        lemma_pairs_map_at(mode_pairs(self.modes@), i as int);
                    }
                    self.merge_into_mode(i, &other[j].1);
                },
                None => {
                    proof {
                        let pairs = mode_pairs(self.modes@);
                        assert forall|k: int| 0 <= k < pairs.len() implies pairs[k].0 != name by {
                            assert(pairs[k].0 == self.modes@[k].0@);
                        }
                    }
                },
            }
            j += 1;
        }
        proof {
            assert(others.take(j as int) == others);
        }
    }

    /// Builds the binding table of the built-in configuration.
    pub fn default(commands: &CommandRegistry) -> (r: Result<KeyMap, KeyMapError>)
        requires
            commands.wf(),
        ensures
            match yaml_document(DEFAULT_KEYMAP@) {
                Some(doc) => match r {
                    Ok(km) => km.wf() && keymap_of(doc, commands@) == Ok::<_, KeyMapError>(km@),
                    Err(e) => keymap_of(doc, commands@) == Err::<Bindings, _>(e),
                },
                None => r == Err::<KeyMap, _>(KeyMapError::DefaultUnreadable),
            },
    {
        match default_document() {
            Some(doc) => KeyMap::from(&doc, commands),
            None => Err(KeyMapError::DefaultUnreadable),
        }
    }

    fn find_mode(&self, name: &str) -> (r: Option<usize>)
        ensures
            match r {
                Some(i) => i < self.modes@.len() && self.modes@[i as int].0@ == name@,
                None => forall|i: int| 0 <= i < self.modes@.len() ==> self.modes@[i].0@ != name@,
            },
    {
        let mut i: usize = 0;
        while i < self.modes.len()
            invariant
                i <= self.modes@.len(),
                forall|j: int| 0 <= j < i ==> self.modes@[j].0@ != name@,
            decreases self.modes@.len() - i,
        {
            if same_text(self.modes[i].0.as_str(), name) {
                return Some(i);
            }
            i += 1;
        }
        None
    }
}

} // verus!
