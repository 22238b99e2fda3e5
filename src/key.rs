use vstd::prelude::*;

verus! {

/// A single logical keypress.
#[derive(Clone, Copy, Debug, PartialEq, Eq, Structural, Hash)]
pub enum Key {
    Char(char),
    Ctrl(char),
    /// Stands for any plain character in a binding.
    AnyChar,
    Backspace,
    Left,
    Right,
    Up,
    Down,
    Home,
    End,
    PageUp,
    PageDown,
    Delete,
    Insert,
    Esc,
    Tab,
    Enter,
}

/// Why a key token could not be read.
#[derive(Clone, Copy, Debug, PartialEq, Eq, Structural)]
pub enum KeyError {
    /// The token, or the part after a modifier, is empty.
    InvalidKey,
    /// The part before `-` is not a known modifier.
    InvalidModifier,
}

/// Index of the first `-` in `t` at or after `i`, or `t.len()` if there is none.
pub open spec fn dash_from(t: Seq<char>, i: int) -> int
    decreases t.len() - i,
{
    if i < 0 || i >= t.len() {
        t.len() as int
    } else if t[i] == '-' {
        i
    } else {
        dash_from(t, i + 1)
    }
}

/// Index of the first `-` in `t`, or `t.len()` if there is none.
pub open spec fn first_dash(t: Seq<char>) -> int {
    dash_from(t, 0)
}

/// The key named by a whole keyword token, if `t` is one.
pub open spec fn keyword_key(t: Seq<char>) -> Option<Key> {
    if t == "space"@ {
        Some(Key::Char(' '))
    } else if t == "backspace"@ {
        Some(Key::Backspace)
    } else if t == "left"@ {
        Some(Key::Left)
    } else if t == "right"@ {
        Some(Key::Right)
    } else if t == "up"@ {
        Some(Key::Up)
    } else if t == "down"@ {
        Some(Key::Down)
    } else if t == "home"@ {
        Some(Key::Home)
    } else if t == "end"@ {
        Some(Key::End)
    } else if t == "page_up"@ {
        Some(Key::PageUp)
    } else if t == "page_down"@ {
        Some(Key::PageDown)
    } else if t == "delete"@ {
        Some(Key::Delete)
    } else if t == "insert"@ {
        Some(Key::Insert)
    } else if t == "escape"@ {
        Some(Key::Esc)
    } else if t == "tab"@ {
        Some(Key::Tab)
    } else if t == "enter"@ {
        Some(Key::Enter)
    } else if t == "_"@ {
        Some(Key::AnyChar)
    } else {
        None
    }
}

/// The meaning of a key token.
///
/// A token holding `-` is a modifier (only `ctrl`) followed by a key, of which
/// only the first character counts. Otherwise the token is a keyword, or else
/// its first character.
pub open spec fn key_of(t: Seq<char>) -> Result<Key, KeyError> {
    let p = first_dash(t);
    if p < t.len() {
        let suffix = t.skip(p + 1);
        if suffix.len() == 0 {
            Err(KeyError::InvalidKey)
        } else if t.take(p) == "ctrl"@ {
            Ok(Key::Ctrl(suffix[0]))
        } else {
            Err(KeyError::InvalidModifier)
        }
    } else {
        match keyword_key(t) {
            Some(k) => Ok(k),
            None => if t.len() == 0 {
                Err(KeyError::InvalidKey)
            } else {
                Ok(Key::Char(t[0]))
            },
        }
    }
}

/// Whether two strings hold the same characters.
pub fn same_text(a: &str, b: &str) -> (r: bool)
    ensures
        r == (a@ == b@),
{
    let n = a.unicode_len();
    if n != b.unicode_len() {
        return false;
    }
    let mut i: usize = 0;
    while i < n
        invariant
            n == a@.len(),
            n == b@.len(),
            i <= n,
            forall|j: int| 0 <= j < i ==> a@[j] == b@[j],
        decreases n - i,
    {
        if a.get_char(i) != b.get_char(i) {
            return false;
        }
        i += 1;
    }
    assert(a@ =~= b@);
    true
}

fn keyword(t: &str) -> (r: Option<Key>)
    ensures
        r == keyword_key(t@),
{
    if same_text(t, "space") {
        Some(Key::Char(' '))
    } else if same_text(t, "backspace") {
        Some(Key::Backspace)
    } else if same_text(t, "left") {
        Some(Key::Left)
    } else if same_text(t, "right") {
        Some(Key::Right)
    } else if same_text(t, "up") {
        Some(Key::Up)
    } else if same_text(t, "down") {
        Some(Key::Down)
    } else if same_text(t, "home") {
        Some(Key::Home)
    } else if same_text(t, "end") {
        Some(Key::End)
    } else if same_text(t, "page_up") {
        Some(Key::PageUp)
    } else if same_text(t, "page_down") {
        Some(Key::PageDown)
    } else if same_text(t, "delete") {
        Some(Key::Delete)
    } else if same_text(t, "insert") {
        Some(Key::Insert)
    } else if same_text(t, "escape") {
        Some(Key::Esc)
    } else if same_text(t, "tab") {
        Some(Key::Tab)
    } else if same_text(t, "enter") {
        Some(Key::Enter)
    } else if same_text(t, "_") {
        Some(Key::AnyChar)
    } else {
        None
    }
}

/// Reads a key token such as `k`, `ctrl-r`, `page_up` or `_`.
pub fn parse_key(data: &str) -> (r: Result<Key, KeyError>)
    ensures
        r == key_of(data@),
{
    let n = data.unicode_len();
    let mut p: usize = 0;
    while p < n && data.get_char(p) != '-'
        invariant
            n == data@.len(),
            p <= n,
            dash_from(data@, p as int) == first_dash(data@),
        decreases n - p,
    {
        p += 1;
    }
    if p < n {
        if p + 1 == n {
            assert(data@.skip(p + 1).len() == 0);
            return Err(KeyError::InvalidKey);
        }
        let c = data.get_char(p + 1);
        let modifier = data.substring_char(0, p);
        assert(data@.skip(p + 1)[0] == c);
        assert(modifier@ == data@.take(p as int));
        if same_text(modifier, "ctrl") {
            Ok(Key::Ctrl(c))
        } else {
            Err(KeyError::InvalidModifier)
        }
    } else {
        match keyword(data) {
            Some(k) => Ok(k),
            None => if n == 0 {
                Err(KeyError::InvalidKey)
            } else {
                Ok(Key::Char(data.get_char(0)))
            },
        }
    }
}

/// A single character that is neither `-` nor the wildcard `_` reads as that
/// plain character.
pub proof fn lemma_single_char_key(c: char)
    requires
        c != '-',
        c != '_',
    ensures
        key_of(seq![c]) == Ok::<Key, KeyError>(Key::Char(c)),
{
    let t = seq![c];
    assert(dash_from(t, 1) == 1);
    assert(first_dash(t) == 1);
    reveal_strlit("space");
    reveal_strlit("backspace");
    reveal_strlit("left");
    reveal_strlit("right");
    reveal_strlit("up");
    reveal_strlit("down");
    reveal_strlit("home");
    reveal_strlit("end");
    reveal_strlit("page_up");
    reveal_strlit("page_down");
    reveal_strlit("delete");
    reveal_strlit("insert");
    reveal_strlit("escape");
    reveal_strlit("tab");
    reveal_strlit("enter");
    reveal_strlit("_");
    assert(t != "_"@) by {
        assert(t[0] != "_"@[0]);
    }
    assert(keyword_key(t) == None::<Key>);
}

} // verus!
