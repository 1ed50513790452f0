//! Keys, modifier sets and the table of named keys.
use vstd::prelude::*;

verus! {

// Named non-text keys are private-use code points, below the range used to
// smuggle undecodable input bytes.
pub const BACKSPACE: char = '\u{F500}';
pub const DELETE: char = '\u{F501}';
pub const ESCAPE: char = '\u{F502}';
pub const ENTER: char = '\u{F503}';
pub const UP: char = '\u{F504}';
pub const DOWN: char = '\u{F505}';
pub const LEFT: char = '\u{F506}';
pub const RIGHT: char = '\u{F507}';
pub const PAGE_UP: char = '\u{F508}';
pub const PAGE_DOWN: char = '\u{F509}';
pub const HOME: char = '\u{F50A}';
pub const END: char = '\u{F50B}';
pub const INSERT: char = '\u{F50C}';
pub const TAB: char = '\u{F50D}';
pub const SPACE: char = '\u{F50E}';
pub const MENU: char = '\u{F50F}';
pub const PRINT_SCREEN: char = '\u{F510}';
pub const INVALID: char = '\u{F5FF}';

/// The highest function key; function keys occupy the code points just
/// below `INVALID`.
pub const MAX_FUNCTION_KEY: u32 = 12;

/// Code point of the first function key.
pub const FIRST_FUNCTION_KEY: u32 = 0xF5F3;

/// The raw escape byte as a character.
pub const RAW_ESCAPE: char = '\x1b';

/// Code point of function key `n` (1-based).
pub open spec fn function_key_spec(n: int) -> int {
    FIRST_FUNCTION_KEY + n - 1
}

/// Whether `c` is one of the function-key code points.
pub open spec fn is_function_key(c: char) -> bool {
    FIRST_FUNCTION_KEY <= c as u32 <= FIRST_FUNCTION_KEY + MAX_FUNCTION_KEY - 1
}

/// The 1-based index of a function-key code point.
pub open spec fn function_key_index(c: char) -> int {
    c as u32 - FIRST_FUNCTION_KEY + 1
}

/// The code point of function key `n` (1-based).
pub fn function_key(n: u32) -> (r: char)
    requires
        1 <= n <= MAX_FUNCTION_KEY,
    ensures
        r as u32 == function_key_spec(n as int),
        is_function_key(r),
        function_key_index(r) == n,
{
    let v: u32 = FIRST_FUNCTION_KEY + (n - 1);
    match char::from_u32(v) {
        Some(c) => c,
        None => INVALID,
    }
}

/// Relies on `char::from_u32`: a value that is a Unicode scalar value becomes
/// that character, any other value gives `None`.
pub assume_specification[ char::from_u32 ](i: u32) -> (r: Option<char>)
    ensures
        r is Some <==> (i < 0xD800 || (0xE000 <= i && i <= 0x10FFFF)),
        r matches Some(c) ==> c as u32 == i,
;

/// Four independent modifier flags; `sup` is the Super key.
#[derive(Clone, Copy, Debug, Default, PartialEq, Eq, Structural)]
pub struct Modifiers {
    pub ctrl: bool,
    pub alt: bool,
    pub shift: bool,
    pub sup: bool,
}

/// The empty modifier set.
pub open spec fn no_modifiers() -> Modifiers {
    Modifiers { ctrl: false, alt: false, shift: false, sup: false }
}

impl Modifiers {
    pub fn new() -> (r: Self)
        ensures
            r == no_modifiers(),
    {
        Modifiers { ctrl: false, alt: false, shift: false, sup: false }
    }

    pub open spec fn any(&self) -> bool {
        self.ctrl || self.alt || self.shift || self.sup
    }

    pub fn is_some(&self) -> (r: bool)
        ensures
            r == self.any(),
    {
        self.ctrl || self.alt || self.shift || self.sup
    }

    pub fn is_none(&self) -> (r: bool)
        ensures
            r == !self.any(),
            r == (*self == no_modifiers()),
    {
        !(self.ctrl || self.alt || self.shift || self.sup)
    }
}

/// Position in terminal coordinates, i.e. not starting from the prompt.
#[derive(Clone, Copy, Debug, Default, PartialEq, Eq, Structural)]
pub struct ViewportPosition {
    pub x: usize,
    pub y: usize,
}

/// One keypress: a set of modifiers and a code point, which is either literal
/// text or one of the named-key code points above.
#[derive(Clone, Copy, Debug, PartialEq, Eq, Structural)]
pub struct Key {
    pub modifiers: Modifiers,
    pub codepoint: char,
}

/// A key without modifiers.
pub open spec fn raw_key(c: char) -> Key {
    Key { modifiers: no_modifiers(), codepoint: c }
}

impl Key {
    pub fn new(modifiers: Modifiers, codepoint: char) -> (r: Self)
        ensures
            r == (Key { modifiers, codepoint }),
    {
        Key { modifiers, codepoint }
    }

    pub fn from_raw(codepoint: char) -> (r: Self)
        ensures
            r == raw_key(codepoint),
    {
        Key::new(Modifiers::new(), codepoint)
    }
}

/// A key with Ctrl alone.
pub fn ctrl(codepoint: char) -> (r: Key)
    ensures
        r == (Key { modifiers: Modifiers { ctrl: true, ..no_modifiers() }, codepoint }),
{
    let mut modifiers = Modifiers::new();
    modifiers.ctrl = true;
    Key::new(modifiers, codepoint)
}

/// A key with Alt alone.
pub fn alt(codepoint: char) -> (r: Key)
    ensures
        r == (Key { modifiers: Modifiers { alt: true, ..no_modifiers() }, codepoint }),
{
    let mut modifiers = Modifiers::new();
    modifiers.alt = true;
    Key::new(modifiers, codepoint)
}

/// A key with Shift alone.
pub fn shift(codepoint: char) -> (r: Key)
    ensures
        r == (Key { modifiers: Modifiers { shift: true, ..no_modifiers() }, codepoint }),
{
    let mut modifiers = Modifiers::new();
    modifiers.shift = true;
    Key::new(modifiers, codepoint)
}

/// The code points that have a name, in the order in which names are looked up.
pub open spec fn named_codepoints() -> Seq<char> {
    seq![
        '-', ',', BACKSPACE, DELETE, ESCAPE, ENTER, UP, DOWN, LEFT, RIGHT, PAGE_UP,
        PAGE_DOWN, HOME, END, INSERT, TAB, SPACE, MENU, PRINT_SCREEN,
    ]
}

/// The name of a key code point, if it has one.
pub open spec fn key_name(c: char) -> Option<Seq<char>> {
    if c == '-' {
        Some(seq!['m', 'i', 'n', 'u', 's'])
    } else if c == ',' {
        Some(seq!['c', 'o', 'm', 'm', 'a'])
    } else if c == BACKSPACE {
        Some(seq!['b', 'a', 'c', 'k', 's', 'p', 'a', 'c', 'e'])
    } else if c == DELETE {
        Some(seq!['d', 'e', 'l', 'e', 't', 'e'])
    } else if c == ESCAPE {
        Some(seq!['e', 's', 'c', 'a', 'p', 'e'])
    } else if c == ENTER {
        Some(seq!['e', 'n', 't', 'e', 'r'])
    } else if c == UP {
        Some(seq!['u', 'p'])
    } else if c == DOWN {
        Some(seq!['d', 'o', 'w', 'n'])
    } else if c == LEFT {
        Some(seq!['l', 'e', 'f', 't'])
    } else if c == RIGHT {
        Some(seq!['r', 'i', 'g', 'h', 't'])
    } else if c == PAGE_UP {
        Some(seq!['p', 'a', 'g', 'e', 'u', 'p'])
    } else if c == PAGE_DOWN {
        Some(seq!['p', 'a', 'g', 'e', 'd', 'o', 'w', 'n'])
    } else if c == HOME {
        Some(seq!['h', 'o', 'm', 'e'])
    } else if c == END {
        Some(seq!['e', 'n', 'd'])
    } else if c == INSERT {
        Some(seq!['i', 'n', 's', 'e', 'r', 't'])
    } else if c == TAB {
        Some(seq!['t', 'a', 'b'])
    } else if c == SPACE {
        Some(seq!['s', 'p', 'a', 'c', 'e'])
    } else if c == MENU {
        Some(seq!['m', 'e', 'n', 'u'])
    } else if c == PRINT_SCREEN {
        Some(seq!['p', 'r', 'i', 'n', 't', 's', 'c', 'r', 'e', 'e', 'n'])
    } else {
        None
    }
}

/// The first code point of `table` whose name is `name`.
pub open spec fn find_named(table: Seq<char>, name: Seq<char>) -> Option<char>
    decreases table.len(),
{
    if table.len() == 0 {
        None
    } else if key_name(table[0]) == Some(name) {
        Some(table[0])
    } else {
        find_named(table.drop_first(), name)
    }
}

/// The code point whose name is `name`, if any.
pub open spec fn named_key(name: Seq<char>) -> Option<char> {
    find_named(named_codepoints(), name)
}

/// The name of `c` as text.
pub fn key_name_text(c: char) -> (r: Option<Vec<char>>)
    ensures
        match r {
            Some(v) => key_name(c) == Some(v@),
            None => key_name(c) is None,
        },
{
    if c == '-' {
        Some(vec!['m', 'i', 'n', 'u', 's'])
    } else if c == ',' {
        Some(vec!['c', 'o', 'm', 'm', 'a'])
    } else if c == BACKSPACE {
        Some(vec!['b', 'a', 'c', 'k', 's', 'p', 'a', 'c', 'e'])
    } else if c == DELETE {
        Some(vec!['d', 'e', 'l', 'e', 't', 'e'])
    } else if c == ESCAPE {
        Some(vec!['e', 's', 'c', 'a', 'p', 'e'])
    } else if c == ENTER {
        Some(vec!['e', 'n', 't', 'e', 'r'])
    } else if c == UP {
        Some(vec!['u', 'p'])
    } else if c == DOWN {
        Some(vec!['d', 'o', 'w', 'n'])
    } else if c == LEFT {
        Some(vec!['l', 'e', 'f', 't'])
    } else if c == RIGHT {
        Some(vec!['r', 'i', 'g', 'h', 't'])
    } else if c == PAGE_UP {
        Some(vec!['p', 'a', 'g', 'e', 'u', 'p'])
    } else if c == PAGE_DOWN {
        Some(vec!['p', 'a', 'g', 'e', 'd', 'o', 'w', 'n'])
    } else if c == HOME {
        Some(vec!['h', 'o', 'm', 'e'])
    } else if c == END {
        Some(vec!['e', 'n', 'd'])
    } else if c == INSERT {
        Some(vec!['i', 'n', 's', 'e', 'r', 't'])
    } else if c == TAB {
        Some(vec!['t', 'a', 'b'])
    } else if c == SPACE {
        Some(vec!['s', 'p', 'a', 'c', 'e'])
    } else if c == MENU {
        Some(vec!['m', 'e', 'n', 'u'])
    } else if c == PRINT_SCREEN {
        Some(vec!['p', 'r', 'i', 'n', 't', 's', 'c', 'r', 'e', 'e', 'n'])
    } else {
        None
    }
}

/// Whether two texts are equal.
pub fn text_eq(a: &[char], b: &[char]) -> (r: bool)
    ensures
        r == (a@ == b@),
{
    if a.len() != b.len() {
        return false;
    }
    let mut i: usize = 0;
    while i < a.len()
        invariant
            a@.len() == b@.len(),
            i <= a@.len(),
            forall|j: int| 0 <= j < i ==> a@[j] == b@[j],
        decreases a@.len() - i,
    {
        if a[i] != b[i] {
            return false;
        }
        i = i + 1;
    }
    assert(a@ =~= b@);
    true
}

/// Looks up the code point whose name is `name`.
pub fn lookup_key_name(name: &[char]) -> (r: Option<char>)
    ensures
        r == named_key(name@),
{
    let table: Vec<char> = vec![
        '-', ',', BACKSPACE, DELETE, ESCAPE, ENTER, UP, DOWN, LEFT, RIGHT, PAGE_UP,
        PAGE_DOWN, HOME, END, INSERT, TAB, SPACE, MENU, PRINT_SCREEN,
    ];
    assert(table@ == named_codepoints());
    assert(table@.subrange(0, table@.len() as int) =~= table@);
    let mut i: usize = 0;
    while i < table.len()
        invariant
            table@ == named_codepoints(),
            i <= table@.len(),
            find_named(table@.subrange(i as int, table@.len() as int), name@) == named_key(name@),
        decreases table@.len() - i,
    {
        let c = table[i];
        assert(table@.subrange(i as int, table@.len() as int).drop_first() =~= table@.subrange(
            i + 1,
            table@.len() as int,
        ));
        match key_name_text(c) {
            Some(n) => {
                if text_eq(n.as_slice(), name) {
                    return Some(c);
                }
            },
            None => {},
        }
        i = i + 1;
    }
    None
}

/// A name is at least two characters long.
pub proof fn lemma_key_name_len(c: char)
    ensures
        key_name(c) matches Some(n) ==> n.len() >= 2,
{
}

/// A looked-up code point has the name looked up.
pub proof fn lemma_find_named_sound(table: Seq<char>, name: Seq<char>)
    ensures
        find_named(table, name) matches Some(c) ==> key_name(c) == Some(name),
    decreases table.len(),
{
    if table.len() > 0 {
        lemma_find_named_sound(table.drop_first(), name);
    }
}

/// No name is a single character.
pub proof fn lemma_named_key_single(x: char)
    ensures
        named_key(seq![x]) is None,
{
    lemma_find_named_sound(named_codepoints(), seq![x]);
    if let Some(c) = named_key(seq![x]) {
        lemma_key_name_len(c);
    }
}

} // verus!
