//! Rendering keys and characters as bindable, human-readable text.
use vstd::prelude::*;
use crate::key::{
    key_name, key_name_text, is_function_key, function_key_index, Key, Modifiers, ENTER, SPACE,
    TAB, FIRST_FUNCTION_KEY, MAX_FUNCTION_KEY,
};

verus! {

/// Appends the characters of `s` to `buf`.
pub fn push_str(buf: &mut Vec<char>, s: &str)
    ensures
        final(buf)@ == old(buf)@ + s@,
{
    let n = s.unicode_len();
    let mut i: usize = 0;
    while i < n
        invariant
            n == s@.len(),
            i <= n,
            buf@ == old(buf)@ + s@.subrange(0, i as int),
        decreases n - i,
    {
        buf.push(s.get_char(i));
        i = i + 1;
        assert(s@.subrange(0, i as int) =~= s@.subrange(0, i - 1).push(s@[i - 1]));
    }
    assert(s@.subrange(0, n as int) =~= s@);
}

/// Appends the characters of `s` to `buf`.
pub fn push_chars(buf: &mut Vec<char>, s: &[char])
    ensures
        final(buf)@ == old(buf)@ + s@,
{
    let mut i: usize = 0;
    while i < s.len()
        invariant
            i <= s@.len(),
            buf@ == old(buf)@ + s@.subrange(0, i as int),
        decreases s@.len() - i,
    {
        buf.push(s[i]);
        i = i + 1;
        assert(s@.subrange(0, i as int) =~= s@.subrange(0, i - 1).push(s@[i - 1]));
    }
    assert(s@.subrange(0, s@.len() as int) =~= s@);
}

/// The hexadecimal digit for `d < 16`.
pub open spec fn hex_digit(d: nat, upper: bool) -> char {
    if d < 10 {
        (('0' as u32) + d) as char
    } else if upper {
        (('A' as u32) + d - 10) as char
    } else {
        (('a' as u32) + d - 10) as char
    }
}

/// The lowest `width` hexadecimal digits of `v`, most significant first.
pub open spec fn hex_digits(v: nat, width: nat, upper: bool) -> Seq<char>
    decreases width,
{
    if width == 0 {
        seq![]
    } else {
        hex_digits(v / 16, (width - 1) as nat, upper).push(hex_digit(v % 16, upper))
    }
}

/// The hexadecimal digit for `d`.
fn hex_digit_char(d: u32, upper: bool) -> (r: char)
    requires
        d < 16,
    ensures
        r == hex_digit(d as nat, upper),
{
    let b: u8 = if d < 10 {
        48u8 + d as u8
    } else if upper {
        65u8 + (d as u8 - 10)
    } else {
        97u8 + (d as u8 - 10)
    };
    b as char
}

/// Appends the lowest `width` hexadecimal digits of `v` to `buf`.
pub fn push_hex(buf: &mut Vec<char>, v: u32, width: u32, upper: bool)
    ensures
        final(buf)@ == old(buf)@ + hex_digits(v as nat, width as nat, upper),
    decreases width,
{
    if width > 0 {
        push_hex(buf, v / 16, width - 1, upper);
        buf.push(hex_digit_char(v % 16, upper));
    }
}

/// The decimal digits of `n < 100`, without leading zeros.
pub open spec fn decimal_text(n: nat) -> Seq<char> {
    if n < 10 {
        seq![hex_digit(n, false)]
    } else {
        seq![hex_digit(n / 10, false), hex_digit(n % 10, false)]
    }
}

/// The symbol of a control character (or space or DEL).
pub open spec fn ctrl_symbol(c: char) -> Seq<char> {
    if c == '\t' {
        seq!['\\', 't']
    } else if c == '\r' {
        seq!['\\', 'r']
    } else if c == '\x1b' {
        seq!['\\', 'e']
    } else {
        seq!['\\', 'x'] + hex_digits(c as nat, 2, false)
    }
}

/// Whether `c` is one of the characters that are always backslash-escaped.
pub open spec fn is_special_char(c: char) -> bool {
    c == '[' || c == ']' || c == '(' || c == ')' || c == '{' || c == '}'
        || c == '*' || c == '\\' || c == '$' || c == ';' || c == '&' || c == '|' || c == '\''
        || c == '"'
}

/// Whether `c` must be escaped in a bind command; `?` is a glob unless the
/// `qmark_noglob` feature is on.
pub open spec fn must_escape_spec(is_first_in_token: bool, c: char, qmark_noglob: bool) -> bool {
    is_special_char(c) || (is_first_in_token && (c == '~' || c == '#')) || (c == '?'
        && !qmark_noglob)
}

/// The byte that a character of the private byte-smuggling range stands for.
pub open spec fn encoded_byte(c: char) -> Option<u8> {
    if 0xF600 <= c as u32 && (c as u32) < 0xF700 {
        Some((c as u32 - 0xF600) as u8)
    } else {
        None
    }
}

/// The display width of a character, as the terminal width tables give it
/// (`None` for control characters).
pub uninterp spec fn width_of(c: char) -> Option<usize>;

/// Whether the width tables say `c` takes up room on screen.
pub open spec fn is_visible(c: char) -> bool {
    width_of(c) matches Some(w) && w > 0
}

/// The symbol used for `c` in bindable text.
pub open spec fn symbol_of(c: char, is_first_in_token: bool, qmark_noglob: bool) -> Seq<char> {
    symbol_with_width(c, is_first_in_token, qmark_noglob, is_visible(c))
}

/// The symbol used for `c` in bindable text, where `visible` says whether the
/// width tables give `c` room on screen.
pub open spec fn symbol_with_width(
    c: char,
    is_first_in_token: bool,
    qmark_noglob: bool,
    visible: bool,
) -> Seq<char> {
    if c as u32 <= 0x20 || c as u32 == 0x7f {
        ctrl_symbol(c)
    } else if (c as u32) < 0x80 {
        if must_escape_spec(is_first_in_token, c, qmark_noglob) {
            seq!['\\', c]
        } else {
            seq![c]
        }
    } else if encoded_byte(c) is Some {
        seq!['\\', 'x'] + hex_digits(encoded_byte(c).unwrap() as nat, 2, false)
    } else if 0xE000 <= c as u32 <= 0xF8FF {
        seq!['\\', 'u'] + hex_digits(c as nat, 4, true)
    } else if visible {
        seq![c]
    } else if c as u32 <= 0xFFFF {
        seq!['\\', 'u'] + hex_digits(c as nat, 4, true)
    } else {
        seq!['\\', 'U'] + hex_digits(c as nat, 6, true)
    }
}

pub open spec fn super_prefix() -> Seq<char> {
    seq!['s', 'u', 'p', 'e', 'r', '-']
}

pub open spec fn ctrl_prefix() -> Seq<char> {
    seq!['c', 't', 'r', 'l', '-']
}

pub open spec fn alt_prefix() -> Seq<char> {
    seq!['a', 'l', 't', '-']
}

pub open spec fn shift_prefix() -> Seq<char> {
    seq!['s', 'h', 'i', 'f', 't', '-']
}

/// The modifier prefixes of a key, outermost first.
pub open spec fn modifier_prefix(m: Modifiers) -> Seq<char> {
    (if m.sup { super_prefix() } else { seq![] }) + (if m.ctrl { ctrl_prefix() } else { seq![] })
        + (if m.alt { alt_prefix() } else { seq![] }) + (if m.shift { shift_prefix() } else { seq![] })
}

/// The text of a key's code point alone.
pub open spec fn key_base_text(k: Key, qmark_noglob: bool) -> Seq<char> {
    match key_name(k.codepoint) {
        Some(n) => n,
        None => if is_function_key(k.codepoint) {
            seq!['f'] + decimal_text(function_key_index(k.codepoint) as nat)
        } else {
            symbol_of(k.codepoint, !k.modifiers.any(), qmark_noglob)
        },
    }
}

/// The canonical display text of a key, such as `super-ctrl-alt-shift-a`.
pub open spec fn key_text(k: Key, qmark_noglob: bool) -> Seq<char> {
    modifier_prefix(k.modifiers) + key_base_text(k, qmark_noglob)
}

/// The symbol of a control character (code point at most 0x20, or DEL).
pub fn ctrl_to_symbol(buf: &mut Vec<char>, c: char)
    requires
        c as u32 <= 0x20 || c as u32 == 0x7f,
    ensures
        final(buf)@ == old(buf)@ + ctrl_symbol(c),
{
    if c == '\t' {
        buf.push('\\');
        buf.push('t');
    } else if c == '\r' {
        buf.push('\\');
        buf.push('r');
    } else if c == '\x1b' {
        buf.push('\\');
        buf.push('e');
    } else {
        buf.push('\\');
        buf.push('x');
        push_hex(buf, c as u32, 2, false);
    }
    assert(final(buf)@ =~= old(buf)@ + ctrl_symbol(c));
}

/// Return true if the character must be escaped when used in the sequence of
/// chars to be bound in a `bind` command.
pub fn must_escape(is_first_in_token: bool, c: char, qmark_noglob: bool) -> (r: bool)
    ensures
        r == must_escape_spec(is_first_in_token, c, qmark_noglob),
{
    c == '[' || c == ']' || c == '(' || c == ')' || c == '{' || c == '}'
        || c == '*' || c == '\\' || c == '$' || c == ';' || c == '&' || c == '|' || c == '\''
        || c == '"' || (is_first_in_token && (c == '~' || c == '#')) || (c == '?'
        && !qmark_noglob)
}

/// Appends printable ASCII character `c`, backslash-escaped where it must be.
pub fn ascii_printable_to_symbol(
    buf: &mut Vec<char>,
    is_first_in_token: bool,
    c: char,
    qmark_noglob: bool,
)
    ensures
        final(buf)@ == old(buf)@ + (if must_escape_spec(is_first_in_token, c, qmark_noglob) {
            seq!['\\', c]
        } else {
            seq![c]
        }),
{
    if must_escape(is_first_in_token, c, qmark_noglob) {
        buf.push('\\');
    }
    buf.push(c);
    assert(final(buf)@ =~= old(buf)@ + (if must_escape_spec(is_first_in_token, c, qmark_noglob) {
        seq!['\\', c]
    } else {
        seq![c]
    }));
}

/// The byte that `c` smuggles, if it is in the private byte-smuggling range.
pub fn decode_byte_from_char(c: char) -> (r: Option<u8>)
    ensures
        r == encoded_byte(c),
{
    let v = c as u32;
    if 0xF600 <= v && v < 0xF700 {
        Some((v - 0xF600) as u8)
    } else {
        None
    }
}

/// Relies on `unicode_width::UnicodeWidthChar::width`: the column width of a
/// character, `None` for control characters; a function of the character.
#[verifier::external_body]
fn display_width(c: char) -> (r: Option<usize>)
    ensures
        r == width_of(c),
{
    unicode_width::UnicodeWidthChar::width(c)
}

/// Convert a character to a symbol that can be used in bindable text.
pub fn char_to_symbol(c: char, is_first_in_token: bool, qmark_noglob: bool) -> (r: Vec<char>)
    ensures
        r@ == symbol_of(c, is_first_in_token, qmark_noglob),
{
    symbol_for_width(c, is_first_in_token, qmark_noglob, display_width(c))
}

/// The symbol for `c` in bindable text, given the column width that the width
/// tables give it (`None` for a control character).
pub fn symbol_for_width(c: char, is_first_in_token: bool, qmark_noglob: bool, width: Option<usize>) -> (r: Vec<char>)
    ensures
        r@ == symbol_with_width(
            c,
            is_first_in_token,
            qmark_noglob,
            width matches Some(w) && w > 0,
        ),
{
    let mut buf: Vec<char> = Vec::new();
    let v = c as u32;
    if v <= 0x20 || v == 0x7f {
        ctrl_to_symbol(&mut buf, c);
    } else if v < 0x80 {
        ascii_printable_to_symbol(&mut buf, is_first_in_token, c, qmark_noglob);
    } else if let Some(byte) = decode_byte_from_char(c) {
        buf.push('\\');
        buf.push('x');
        push_hex(&mut buf, byte as u32, 2, false);
    } else if 0xE000 <= v && v <= 0xF8FF {
        // Unmapped functional keys of the private-use area.
        buf.push('\\');
        buf.push('u');
        push_hex(&mut buf, v, 4, true);
    } else if match width {
        Some(w) => w > 0,
        None => false,
    } {
        buf.push(c);
    } else if v <= 0xFFFF {
        buf.push('\\');
        buf.push('u');
        push_hex(&mut buf, v, 4, true);
    } else {
        buf.push('\\');
        buf.push('U');
        push_hex(&mut buf, v, 6, true);
    }
    assert(buf@ =~= symbol_with_width(
        c,
        is_first_in_token,
        qmark_noglob,
        width matches Some(w) && w > 0,
    ));
    buf
}

/// Whether `c` lies in one of the private-use areas.
pub open spec fn is_pua(c: char) -> bool {
    (0xE000 <= c as u32 && (c as u32) < 0xF900) || (0xF0000 <= c as u32 && (c as u32) < 0xFFFFE)
        || (0x100000 <= c as u32 && (c as u32) < 0x10FFFE)
}

/// The literal text a key stands for, if any.
pub open spec fn codepoint_text_spec(k: Key) -> Option<char> {
    if k.modifiers.any() {
        None
    } else if k.codepoint == SPACE {
        Some(' ')
    } else if k.codepoint == ENTER {
        Some('\n')
    } else if k.codepoint == TAB {
        Some('\t')
    } else if is_pua(k.codepoint) || k.codepoint as u32 <= 27 {
        None
    } else {
        Some(k.codepoint)
    }
}

/// Whether `c` lies in one of the private-use areas.
pub fn is_private_use(c: char) -> (r: bool)
    ensures
        r == is_pua(c),
{
    let v = c as u32;
    (0xE000 <= v && v < 0xF900) || (0xF0000 <= v && v < 0xFFFFE) || (0x100000 <= v && v
        < 0x10FFFE)
}

/// Appends the decimal digits of `n`.
fn push_decimal(buf: &mut Vec<char>, n: u32)
    requires
        n < 100,
    ensures
        final(buf)@ == old(buf)@ + decimal_text(n as nat),
{
    if n < 10 {
        buf.push(hex_digit_char(n, false));
    } else {
        buf.push(hex_digit_char(n / 10, false));
        buf.push(hex_digit_char(n % 10, false));
    }
    assert(final(buf)@ =~= old(buf)@ + decimal_text(n as nat));
}

impl Key {
    /// Best-effort inverse to literal text.
    pub fn codepoint_text(&self) -> (r: Option<char>)
        ensures
            r == codepoint_text_spec(*self),
    {
        if self.modifiers.is_some() {
            return None;
        }
        let c = self.codepoint;
        if c == SPACE {
            return Some(' ');
        }
        if c == ENTER {
            return Some('\n');
        }
        if c == TAB {
            return Some('\t');
        }
        if is_private_use(c) || c as u32 <= 27 {
            return None;
        }
        Some(c)
    }

    /// The canonical display text of the key, such as `ctrl-alt-a` or `f5`.
    pub fn to_text(&self, qmark_noglob: bool) -> (r: Vec<char>)
        ensures
            r@ == key_text(*self, qmark_noglob),
    {
        let mut res: Vec<char> = Vec::new();
        if self.modifiers.sup {
            push_chars(&mut res, &['s', 'u', 'p', 'e', 'r', '-']);
        }
        if self.modifiers.ctrl {
            push_chars(&mut res, &['c', 't', 'r', 'l', '-']);
        }
        if self.modifiers.alt {
            push_chars(&mut res, &['a', 'l', 't', '-']);
        }
        if self.modifiers.shift {
            push_chars(&mut res, &['s', 'h', 'i', 'f', 't', '-']);
        }
        assert(res@ =~= modifier_prefix(self.modifiers));
        match key_name_text(self.codepoint) {
            Some(name) => push_chars(&mut res, name.as_slice()),
            None => {
                let v = self.codepoint as u32;
                if FIRST_FUNCTION_KEY <= v && v <= FIRST_FUNCTION_KEY + MAX_FUNCTION_KEY - 1 {
                    res.push('f');
                    push_decimal(&mut res, v - FIRST_FUNCTION_KEY + 1);
                } else {
                    let sym = char_to_symbol(self.codepoint, self.modifiers.is_none(), qmark_noglob);
                    push_chars(&mut res, sym.as_slice());
                }
            },
        }
        assert(res@ =~= key_text(*self, qmark_noglob));
        res
    }
}

/// How one character appears in text made safe for a terminal: control
/// characters and smuggled bytes become escapes, everything else stays.
pub open spec fn sanitized_char(c: char) -> Seq<char> {
    if c == '\t' {
        seq!['\\', 't']
    } else if c == '\n' {
        seq!['\\', 'n']
    } else if c == '\x08' {
        seq!['\\', 'b']
    } else if c == '\r' {
        seq!['\\', 'r']
    } else if c == '\x1b' {
        seq!['\\', 'e']
    } else if c as u32 == 0x7f {
        seq!['\\', 'x', '7', 'f']
    } else if (c as u32) < 0x20 {
        if 0 < c as u32 && (c as u32) < 27 {
            seq!['\\', 'c', ((c as u32) + 0x60) as char]
        } else {
            seq!['\\', 'x'] + hex_digits(c as nat, 2, false)
        }
    } else if encoded_byte(c) is Some {
        seq!['\\', 'X'] + hex_digits(encoded_byte(c).unwrap() as nat, 2, true)
    } else {
        seq![c]
    }
}

/// Text made safe for a terminal, character by character.
pub open spec fn sanitized(s: Seq<char>) -> Seq<char>
    decreases s.len(),
{
    if s.len() == 0 {
        seq![]
    } else {
        sanitized(s.drop_last()) + sanitized_char(s.last())
    }
}

fn push_sanitized_char(buf: &mut Vec<char>, c: char)
    ensures
        final(buf)@ == old(buf)@ + sanitized_char(c),
{
    let v = c as u32;
    if c == '\t' {
        buf.push('\\');
        buf.push('t');
    } else if c == '\n' {
        buf.push('\\');
        buf.push('n');
    } else if c == '\x08' {
        buf.push('\\');
        buf.push('b');
    } else if c == '\r' {
        buf.push('\\');
        buf.push('r');
    } else if c == '\x1b' {
        buf.push('\\');
        buf.push('e');
    } else if v == 0x7f {
        buf.push('\\');
        buf.push('x');
        buf.push('7');
        buf.push('f');
    } else if v < 0x20 {
        buf.push('\\');
        if 0 < v && v < 27 {
            buf.push('c');
            buf.push((v as u8 + 0x60) as char);
        } else {
            buf.push('x');
            push_hex(buf, v, 2, false);
        }
    } else if let Some(byte) = decode_byte_from_char(c) {
        buf.push('\\');
        buf.push('X');
        push_hex(buf, byte as u32, 2, true);
    } else {
        buf.push(c);
    }
    assert(final(buf)@ =~= old(buf)@ + sanitized_char(c));
}

/// Escapes the unprintable characters of `text` so that it can be shown on a
/// terminal without sending it control sequences.
pub fn escape_nonprintables(text: &[char]) -> (r: Vec<char>)
    ensures
        r@ == sanitized(text@),
{
    let mut out: Vec<char> = Vec::new();
    let mut i: usize = 0;
    while i < text.len()
        invariant
            i <= text@.len(),
            out@ == sanitized(text@.subrange(0, i as int)),
        decreases text@.len() - i,
    {
        push_sanitized_char(&mut out, text[i]);
        i = i + 1;
        assert(text@.subrange(0, i as int).drop_last() =~= text@.subrange(0, i - 1));
    }
    assert(text@.subrange(0, text@.len() as int) =~= text@);
    out
}

} // verus!
