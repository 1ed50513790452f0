//! Canonicalization of control characters, keys and historical
//! escape-prefixed key sequences.
use vstd::prelude::*;
use crate::key::{
    raw_key, no_modifiers, ctrl, Key, Modifiers, BACKSPACE, DELETE, ENTER, ESCAPE, RAW_ESCAPE,
    SPACE, TAB,
};
use crate::render::{key_text, push_str};

verus! {

/// The named key that a control character stands for on its own; `erase` is
/// the terminal's configured erase byte, if known. Other characters are kept.
pub open spec fn keyed_char(c: char, erase: Option<u8>) -> char {
    if c == '\r' {
        ENTER
    } else if c == '\t' {
        TAB
    } else if c == ' ' {
        SPACE
    } else if erase matches Some(b) && c as u32 == b as u32 {
        BACKSPACE
    } else if c as u32 == 0x7f {
        DELETE
    } else if c == RAW_ESCAPE {
        ESCAPE
    } else {
        c
    }
}

/// The character that a control byte is Ctrl of: NUL is Ctrl-Space, 1 to 26
/// are Ctrl and a lower-case letter, 27 to 31 Ctrl and a symbol.
pub open spec fn unkeyed_char(b: u8) -> char {
    if b == 0 {
        SPACE
    } else if b < 27 {
        ((b - 1 + 0x61) as u8) as char
    } else {
        ((b - 1 + 0x41) as u8) as char
    }
}

/// A key with the Ctrl modifier alone.
pub open spec fn ctrl_key(c: char) -> Key {
    Key { modifiers: Modifiers { ctrl: true, ..no_modifiers() }, codepoint: c }
}

/// The key a single input byte stands for, where it needs canonicalizing.
pub open spec fn control_char_key(b: u8, erase: Option<u8>) -> Option<Key> {
    let k = keyed_char(b as char, erase);
    if k as u32 > 255 {
        Some(raw_key(k))
    } else if b < 32 {
        Some(ctrl_key(unkeyed_char(b)))
    } else {
        None
    }
}

/// The key a single input byte stands for.
pub open spec fn byte_key(b: u8, erase: Option<u8>) -> Key {
    match control_char_key(b, erase) {
        Some(k) => k,
        None => raw_key(b as char),
    }
}

/// The key a single input character stands for.
pub open spec fn char_key(c: char, erase: Option<u8>) -> Key {
    if (c as u32) < 256 {
        byte_key(c as u32 as u8, erase)
    } else {
        raw_key(c)
    }
}

/// The key a control character becomes once Ctrl is made explicit.
pub open spec fn ctrl_added(k: Key, c: char) -> Key {
    Key { modifiers: Modifiers { ctrl: true, ..k.modifiers }, codepoint: unkeyed_char(c as u32 as u8) }
}

/// Whether canonicalizing `k` meets an explicit Ctrl on a control character.
pub open spec fn ctrl_conflict(k: Key, erase: Option<u8>) -> bool {
    k.codepoint != RAW_ESCAPE && (keyed_char(k.codepoint, erase) as u32) < 0x20 && k.modifiers.ctrl
}

/// The canonical form of a key: control characters become named keys or
/// Ctrl chords; a raw escape is kept for later disambiguation.
pub open spec fn canonical_key(k: Key, erase: Option<u8>) -> Key {
    if k.codepoint == RAW_ESCAPE {
        k
    } else {
        let c = keyed_char(k.codepoint, erase);
        if (c as u32) < 0x20 {
            ctrl_added(k, c)
        } else {
            Key { codepoint: c, ..k }
        }
    }
}

/// The error text for an explicit Ctrl on a control character.
pub open spec fn ctrl_conflict_message(k: Key, erase: Option<u8>) -> Seq<char> {
    "Cannot add control modifier to control character '"@ + key_text(
        canonical_key(k, erase),
        true,
    ) + "'"@
}

/// The control character that Ctrl and `c` give.
pub fn ascii_control(c: char) -> (r: char)
    ensures
        r as u32 == c as u32 % 32,
{
    ((c as u32 % 32) as u8) as char
}

/// The named key that `c` stands for on its own, or `c` itself.
pub fn canonicalize_keyed_control_char(c: char, erase: Option<u8>) -> (r: char)
    ensures
        r == keyed_char(c, erase),
{
    if c == ascii_control('m') {
        return ENTER;
    }
    if c == ascii_control('i') {
        return TAB;
    }
    if c == ' ' {
        return SPACE;
    }
    if let Some(b) = erase {
        if c == b as char {
            return BACKSPACE;
        }
    }
    if c == 127u8 as char {
        return DELETE;
    }
    if c == RAW_ESCAPE {
        return ESCAPE;
    }
    c
}

/// The character that control byte `c` is Ctrl of.
pub fn canonicalize_unkeyed_control_char(c: u8) -> (r: char)
    requires
        c < 32,
    ensures
        r == unkeyed_char(c),
{
    if c == 0 {
        // Legacy terminals send NUL for Ctrl-2, Ctrl-Shift-2 and Ctrl-Backtick;
        // the most straightforward reading is Ctrl-Space.
        return SPACE;
    }
    // Ctrl-letter combinations are lower-case, to be clear that Shift is not involved.
    if c < 27 {
        return (c - 1 + 0x61) as char;
    }
    // Ctrl-symbol combinations are "upper-case", as they are traditionally rendered.
    (c - 1 + 0x41) as char
}

/// The key a single input byte stands for, where it needs canonicalizing.
pub fn canonicalize_control_char(c: u8, erase: Option<u8>) -> (r: Option<Key>)
    ensures
        r == control_char_key(c, erase),
        c < 32 ==> r is Some,
{
    let codepoint = canonicalize_keyed_control_char(c as char, erase);
    if codepoint as u32 > 255 {
        return Some(Key::from_raw(codepoint));
    }
    if c < 32 {
        return Some(ctrl(canonicalize_unkeyed_control_char(c)));
    }
    None
}

impl Key {
    /// The key that one input character stands for. A character beyond the
    /// byte range is taken as literal text as it is, private-use code points
    /// included: input decoded from a terminal is trusted not to carry the
    /// named-key code points, and a caller that cannot trust its input must
    /// screen them out itself (`codepoint_text` returns `None` for them).
    pub fn from_single_char(c: char, erase: Option<u8>) -> (r: Self)
        ensures
            r == char_key(c, erase),
    {
        if (c as u32) < 256 {
            Key::from_single_byte(c as u32 as u8, erase)
        } else {
            Key::from_raw(c)
        }
    }

    /// The key that one input byte stands for.
    pub fn from_single_byte(c: u8, erase: Option<u8>) -> (r: Self)
        ensures
            r == byte_key(c, erase),
    {
        match canonicalize_control_char(c, erase) {
            Some(k) => k,
            None => Key::from_raw(c as char),
        }
    }
}

/// Canonicalizes a key, failing where an explicit Ctrl is asked for on what is
/// already a control character. The error text shows the key as Ctrl and a
/// letter or symbol, never `?`, so the `qmark_noglob` flag does not change it.
pub fn canonicalize_key(key: Key, erase: Option<u8>) -> (r: Result<Key, Vec<char>>)
    ensures
        r is Err <==> ctrl_conflict(key, erase),
        r matches Ok(k) ==> k == canonical_key(key, erase),
        r matches Err(e) ==> e@ == ctrl_conflict_message(key, erase),
{
    let mut key = key;
    // Raw escapes are left to be told apart from a named escape later.
    if key.codepoint != RAW_ESCAPE {
        key.codepoint = canonicalize_keyed_control_char(key.codepoint, erase);
        if (key.codepoint as u32) < 0x20 {
            key.codepoint = canonicalize_unkeyed_control_char(key.codepoint as u32 as u8);
            if key.modifiers.ctrl {
                let mut msg: Vec<char> = Vec::new();
                push_str(&mut msg, "Cannot add control modifier to control character '");
                let text = key.to_text(true);
                crate::render::push_chars(&mut msg, text.as_slice());
                push_str(&mut msg, "'");
                return Err(msg);
            }
            key.modifiers.ctrl = true;
        }
    }
    Ok(key)
}

/// Historical escape-prefixed bindings read left to right; `pending` says
/// that a raw escape waits for the key after it.
pub open spec fn resolve_escapes(keys: Seq<Key>, pending: bool) -> Seq<Key>
    decreases keys.len(),
{
    if keys.len() == 0 {
        if pending {
            seq![raw_key(ESCAPE)]
        } else {
            seq![]
        }
    } else {
        let k = keys[0];
        let rest = keys.drop_first();
        if pending {
            if k.modifiers.alt {
                seq![raw_key(ESCAPE), k] + resolve_escapes(rest, false)
            } else {
                seq![
                    Key {
                        modifiers: Modifiers { alt: true, ..k.modifiers },
                        codepoint: if k.codepoint == RAW_ESCAPE {
                            ESCAPE
                        } else {
                            k.codepoint
                        },
                    },
                ] + resolve_escapes(rest, false)
            }
        } else if k.codepoint == RAW_ESCAPE {
            resolve_escapes(rest, true)
        } else {
            seq![k] + resolve_escapes(rest, false)
        }
    }
}

/// Whether some key of `keys` is a raw escape.
pub open spec fn has_raw_escape(keys: Seq<Key>) -> bool {
    exists|i: int| 0 <= i < keys.len() && #[trigger] keys[i].codepoint == RAW_ESCAPE
}

/// A sequence without raw escapes is its own resolution.
pub proof fn lemma_resolve_no_escape(keys: Seq<Key>)
    requires
        !has_raw_escape(keys),
    ensures
        resolve_escapes(keys, false) == keys,
    decreases keys.len(),
{
    if keys.len() > 0 {
        let rest = keys.drop_first();
        assert(!has_raw_escape(rest)) by {
            if has_raw_escape(rest) {
                let i = choose|i: int| 0 <= i < rest.len() && #[trigger] rest[i].codepoint
                    == RAW_ESCAPE;
                assert(keys[i + 1].codepoint == RAW_ESCAPE);
            }
        }
        assert(keys[0].codepoint != RAW_ESCAPE);
        lemma_resolve_no_escape(rest);
        assert(seq![keys[0]] + rest =~= keys);
    }
}

/// Resolves historical `ESC`-prefixed keys: a raw escape followed by a key
/// means Alt and that key.
pub fn canonicalize_raw_escapes(keys: Vec<Key>) -> (r: Vec<Key>)
    ensures
        r@ == resolve_escapes(keys@, false),
        !has_raw_escape(keys@) ==> r@ == keys@,
{
    let mut any_escape = false;
    let mut j: usize = 0;
    while j < keys.len()
        invariant
            j <= keys@.len(),
            any_escape <==> exists|i: int| 0 <= i < j && #[trigger] keys@[i].codepoint == RAW_ESCAPE,
        decreases keys@.len() - j,
    {
        if keys[j].codepoint == RAW_ESCAPE {
            any_escape = true;
        }
        j = j + 1;
    }
    if !any_escape {
        proof {
            lemma_resolve_no_escape(keys@);
        }
        return keys;
    }
    let mut canonical: Vec<Key> = Vec::new();
    let mut had_literal_escape = false;
    assert(keys@.subrange(0, keys@.len() as int) =~= keys@);
    let mut i: usize = 0;
    while i < keys.len()
        invariant
            i <= keys@.len(),
            canonical@ + resolve_escapes(keys@.subrange(i as int, keys@.len() as int), had_literal_escape)
                == resolve_escapes(keys@, false),
        decreases keys@.len() - i,
    {
        let ghost rest = keys@.subrange(i as int, keys@.len() as int);
        let ghost before = canonical@;
        let ghost pending = had_literal_escape;
        assert(rest.drop_first() =~= keys@.subrange(i + 1, keys@.len() as int));
        let mut key = keys[i];
        if had_literal_escape {
            had_literal_escape = false;
            if key.modifiers.alt {
                canonical.push(Key::from_raw(ESCAPE));
            } else {
                key.modifiers.alt = true;
                if key.codepoint == RAW_ESCAPE {
                    key.codepoint = ESCAPE;
                }
            }
            canonical.push(key);
        } else if key.codepoint == RAW_ESCAPE {
            had_literal_escape = true;
        } else {
            canonical.push(key);
        }
        i = i + 1;
        proof {
            let next = keys@.subrange(i as int, keys@.len() as int);
            assert(canonical@ + resolve_escapes(next, had_literal_escape) =~= before
                + resolve_escapes(rest, pending));
        }
    }
    if had_literal_escape {
        canonical.push(Key::from_raw(ESCAPE));
    }
    proof {
        assert(keys@.subrange(keys@.len() as int, keys@.len() as int) =~= Seq::<Key>::empty());
    }
    canonical
}

} // verus!
