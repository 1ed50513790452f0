//! The bind-specification parser: text such as `ctrl-x,alt-f5` to keys.
use vstd::prelude::*;
use crate::key::{
    named_key, lookup_key_name, function_key, text_eq, raw_key, Key, Modifiers,
    FIRST_FUNCTION_KEY, MAX_FUNCTION_KEY,
};
use crate::canon::{
    canonical_key, ctrl_conflict, ctrl_conflict_message, canonicalize_key,
    canonicalize_raw_escapes, resolve_escapes,
};
use crate::render::{sanitized, escape_nonprintables, push_str, push_chars};

verus! {

/// Separates the chords of a bind specification.
pub const KEY_SEPARATOR: char = ',';

/// Splits `s` at each `sep`; `cur` is the part read so far.
pub open spec fn split_from(s: Seq<char>, sep: char, cur: Seq<char>) -> Seq<Seq<char>>
    decreases s.len(),
{
    if s.len() == 0 {
        seq![cur]
    } else if s[0] == sep {
        seq![cur] + split_from(s.drop_first(), sep, seq![])
    } else {
        split_from(s.drop_first(), sep, cur.push(s[0]))
    }
}

/// The parts of `s` between occurrences of `sep` (one more than there are
/// occurrences).
pub open spec fn split_text(s: Seq<char>, sep: char) -> Seq<Seq<char>> {
    split_from(s, sep, seq![])
}

/// The views of a sequence of texts.
pub open spec fn texts(v: Seq<Vec<char>>) -> Seq<Seq<char>> {
    v.map_values(|t: Vec<char>| t@)
}

pub open spec fn is_ascii_digit(c: char) -> bool {
    '0' <= c <= '9'
}

/// Whether a string looks like a function-key token (`F...`, or `f` and a digit).
pub open spec fn looks_like_function_key(v: Seq<char>) -> bool {
    v[0] == 'F' || (v[0] == 'f' && is_ascii_digit(v[1]))
}

/// Whether a bind specification of two or more characters is read as a flat
/// run of characters: it is short and no chord, or starts with a control
/// character.
pub open spec fn is_legacy(v: Seq<char>) -> bool {
    (2 <= v.len() <= 3 && !v.contains('-') && !v.contains(KEY_SEPARATOR) && named_key(v) is None
        && !looks_like_function_key(v)) || (v[0] as u32) < 0x20
}

pub open spec fn ctrl_name() -> Seq<char> {
    seq!['c', 't', 'r', 'l']
}

pub open spec fn alt_name() -> Seq<char> {
    seq!['a', 'l', 't']
}

pub open spec fn shift_name() -> Seq<char> {
    seq!['s', 'h', 'i', 'f', 't']
}

pub open spec fn super_name() -> Seq<char> {
    seq!['s', 'u', 'p', 'e', 'r']
}

/// Adds the modifier named `p` to `m`; `None` for an unknown name.
pub open spec fn apply_modifier(m: Modifiers, p: Seq<char>) -> Option<Modifiers> {
    if p == ctrl_name() {
        Some(Modifiers { ctrl: true, ..m })
    } else if p == alt_name() {
        Some(Modifiers { alt: true, ..m })
    } else if p == shift_name() {
        Some(Modifiers { shift: true, ..m })
    } else if p == super_name() {
        Some(Modifiers { sup: true, ..m })
    } else {
        None
    }
}

/// The modifiers that prefixes name, or the first unknown prefix.
pub open spec fn parse_modifiers(ps: Seq<Seq<char>>) -> Result<Modifiers, Seq<char>>
    decreases ps.len(),
{
    if ps.len() == 0 {
        Ok(Modifiers { ctrl: false, alt: false, shift: false, sup: false })
    } else {
        match parse_modifiers(ps.drop_last()) {
            Err(p) => Err(p),
            Ok(m) => match apply_modifier(m, ps.last()) {
                Some(m2) => Ok(m2),
                None => Err(ps.last()),
            },
        }
    }
}

/// Whether `name` is `f` and one or two digits.
pub open spec fn is_function_key_token(name: Seq<char>) -> bool {
    2 <= name.len() <= 3 && name[0] == 'f' && forall|i: int|
        1 <= i < name.len() ==> is_ascii_digit(#[trigger] name[i])
}

/// The decimal value of a string of digits.
pub open spec fn digits_value(d: Seq<char>) -> nat
    decreases d.len(),
{
    if d.len() == 0 {
        0
    } else {
        digits_value(d.drop_last()) * 10 + (d.last() as u32 - '0' as u32) as nat
    }
}

/// The code point of function key `n`.
pub open spec fn function_key_char(n: nat) -> char {
    ((FIRST_FUNCTION_KEY + n - 1) as u32) as char
}

pub open spec fn unknown_modifier_message(p: Seq<char>, chord: Seq<char>) -> Seq<char> {
    "unknown modifier '"@ + sanitized(p) + "' in '"@ + sanitized(chord) + "'"@
}

pub open spec fn function_key_range_message(num: Seq<char>) -> Seq<char> {
    "only f1 through f12 are supported, not 'f"@ + num + "'"@
}

pub open spec fn cannot_parse_message(chord: Seq<char>) -> Seq<char> {
    "cannot parse key '"@ + sanitized(chord) + "'"@
}

/// The key a modifier set and an explicit code point give.
pub open spec fn checked_key(k: Key, erase: Option<u8>) -> Result<Key, Seq<char>> {
    if ctrl_conflict(k, erase) {
        Err(ctrl_conflict_message(k, erase))
    } else {
        Ok(canonical_key(k, erase))
    }
}

/// Resolves the key designator `name` of chord `chord`, with modifiers `m`.
pub open spec fn parse_key_name(name: Seq<char>, m: Modifiers, chord: Seq<char>, erase: Option<u8>) -> Result<Key, Seq<char>> {
    match named_key(name) {
        Some(c) => checked_key(Key { modifiers: m, codepoint: c }, erase),
        None => if name.len() == 1 {
            checked_key(Key { modifiers: m, codepoint: name[0] }, erase)
        } else if is_function_key_token(name) {
            let n = digits_value(name.drop_first());
            if 1 <= n <= MAX_FUNCTION_KEY {
                Ok(Key { modifiers: m, codepoint: function_key_char(n) })
            } else {
                Err(function_key_range_message(name.drop_first()))
            }
        } else {
            Err(cannot_parse_message(chord))
        },
    }
}

/// One chord: modifier prefixes and a key designator, joined by `-`.
pub open spec fn parse_chord(chord: Seq<char>, erase: Option<u8>) -> Result<Key, Seq<char>> {
    if chord == seq!['-'] {
        Ok(canonical_key(raw_key('-'), erase))
    } else {
        let parts = split_text(chord, '-');
        match parse_modifiers(parts.drop_last()) {
            Err(p) => Err(unknown_modifier_message(p, chord)),
            Ok(m) => parse_key_name(parts.last(), m, chord, erase),
        }
    }
}

/// The chords in order, or the error of the first that fails.
pub open spec fn parse_chords(chords: Seq<Seq<char>>, erase: Option<u8>) -> Result<Seq<Key>, Seq<char>>
    decreases chords.len(),
{
    if chords.len() == 0 {
        Ok(seq![])
    } else {
        match parse_chords(chords.drop_last(), erase) {
            Err(e) => Err(e),
            Ok(ks) => match parse_chord(chords.last(), erase) {
                Err(e) => Err(e),
                Ok(k) => Ok(ks.push(k)),
            },
        }
    }
}

/// Each character on its own, canonicalized.
pub open spec fn flat_keys(v: Seq<char>, erase: Option<u8>) -> Seq<Key> {
    v.map_values(|c: char| canonical_key(raw_key(c), erase))
}

/// What a bind specification means: the keys it names, with historical
/// escape prefixes resolved, or the error text of the first chord that fails.
pub open spec fn parse_keys_spec(v: Seq<char>, erase: Option<u8>) -> Result<Seq<Key>, Seq<char>> {
    if v.len() == 0 {
        Ok(seq![])
    } else if v.len() == 1 || is_legacy(v) {
        Ok(resolve_escapes(flat_keys(v, erase), false))
    } else {
        match parse_chords(split_text(v, KEY_SEPARATOR), erase) {
            Ok(ks) => Ok(resolve_escapes(ks, false)),
            Err(e) => Err(e),
        }
    }
}

pub proof fn lemma_split_from_nonempty(s: Seq<char>, sep: char, cur: Seq<char>)
    ensures
        split_from(s, sep, cur).len() >= 1,
    decreases s.len(),
{
    if s.len() > 0 {
        if s[0] == sep {
            lemma_split_from_nonempty(s.drop_first(), sep, seq![]);
        } else {
            lemma_split_from_nonempty(s.drop_first(), sep, cur.push(s[0]));
        }
    }
}

/// Splits `s` at each `sep`.
pub fn split_chars(s: &[char], sep: char) -> (r: Vec<Vec<char>>)
    ensures
        texts(r@) == split_text(s@, sep),
        r@.len() >= 1,
{
    let mut parts: Vec<Vec<char>> = Vec::new();
    let mut cur: Vec<char> = Vec::new();
    let mut i: usize = 0;
    assert(s@.subrange(0, s@.len() as int) =~= s@);
    while i < s.len()
        invariant
            i <= s@.len(),
            texts(parts@) + split_from(s@.subrange(i as int, s@.len() as int), sep, cur@)
                == split_text(s@, sep),
        decreases s@.len() - i,
    {
        let ghost rest = s@.subrange(i as int, s@.len() as int);
        assert(rest.drop_first() =~= s@.subrange(i + 1, s@.len() as int));
        let ghost before = texts(parts@);
        if s[i] == sep {
            let ghost old_cur = cur@;
            parts.push(cur);
            cur = Vec::new();
            assert(texts(parts@) =~= before.push(old_cur));
        } else {
            cur.push(s[i]);
        }
        i = i + 1;
    }
    let ghost before = texts(parts@);
    parts.push(cur);
    assert(texts(parts@) =~= before.push(cur@));
    proof {
        lemma_split_from_nonempty(s@, sep, seq![]);
    }
    parts
}

/// Once a prefix of the modifier list fails, the whole list fails with the
/// same prefix.
pub proof fn lemma_parse_modifiers_err(ps: Seq<Seq<char>>, i: int)
    requires
        0 <= i <= ps.len(),
        parse_modifiers(ps.subrange(0, i)) is Err,
    ensures
        parse_modifiers(ps) == parse_modifiers(ps.subrange(0, i)),
    decreases ps.len() - i,
{
    if i < ps.len() {
        assert(ps.subrange(0, i + 1).drop_last() =~= ps.subrange(0, i));
        lemma_parse_modifiers_err(ps, i + 1);
    } else {
        assert(ps.subrange(0, i) =~= ps);
    }
}

/// Once a prefix of the chords fails, the whole list fails with the same
/// error.
pub proof fn lemma_parse_chords_err(cs: Seq<Seq<char>>, i: int, erase: Option<u8>)
    requires
        0 <= i <= cs.len(),
        parse_chords(cs.subrange(0, i), erase) is Err,
    ensures
        parse_chords(cs, erase) == parse_chords(cs.subrange(0, i), erase),
    decreases cs.len() - i,
{
    if i < cs.len() {
        assert(cs.subrange(0, i + 1).drop_last() =~= cs.subrange(0, i));
        lemma_parse_chords_err(cs, i + 1, erase);
    } else {
        assert(cs.subrange(0, i) =~= cs);
    }
}

/// Whether `s` holds `c`.
pub fn contains_char(s: &[char], c: char) -> (r: bool)
    ensures
        r == s@.contains(c),
{
    let mut i: usize = 0;
    while i < s.len()
        invariant
            i <= s@.len(),
            forall|j: int| 0 <= j < i ==> s@[j] != c,
        decreases s@.len() - i,
    {
        if s[i] == c {
            return true;
        }
        i = i + 1;
    }
    false
}

/// Checks a key built from a modifier set and an explicit code point.
fn check_key(k: Key, erase: Option<u8>) -> (r: Result<Key, Vec<char>>)
    ensures
        match r {
            Ok(key) => checked_key(k, erase) == Ok::<Key, Seq<char>>(key),
            Err(e) => checked_key(k, erase) == Err::<Key, Seq<char>>(e@),
        },
{
    canonicalize_key(k, erase)
}

/// Reads a one- or two-digit function-key number.
fn function_key_number(d: &[char]) -> (r: u32)
    requires
        1 <= d@.len() <= 2,
        forall|i: int| 0 <= i < d@.len() ==> is_ascii_digit(#[trigger] d@[i]),
    ensures
        r == digits_value(d@),
{
    reveal_with_fuel(digits_value, 3);
    if d.len() == 1 {
        assert(d@.drop_last() =~= Seq::<char>::empty());
        d[0] as u32 - '0' as u32
    } else {
        assert(d@.drop_last() =~= seq![d@[0]]);
        assert(d@.drop_last().drop_last() =~= Seq::<char>::empty());
        (d[0] as u32 - '0' as u32) * 10 + (d[1] as u32 - '0' as u32)
    }
}

fn key_name_designator(name: &[char], m: Modifiers, chord: &[char], erase: Option<u8>) -> (r: Result<Key, Vec<char>>)
    ensures
        match r {
            Ok(key) => parse_key_name(name@, m, chord@, erase) == Ok::<Key, Seq<char>>(key),
            Err(e) => parse_key_name(name@, m, chord@, erase) == Err::<Key, Seq<char>>(e@),
        },
{
    if let Some(c) = lookup_key_name(name) {
        return check_key(Key::new(m, c), erase);
    }
    if name.len() == 1 {
        return check_key(Key::new(m, name[0]), erase);
    }
    let mut token = 2 <= name.len() && name.len() <= 3 && name[0] == 'f';
    let mut i: usize = 1;
    while token && i < name.len()
        invariant
            token ==> 1 <= i <= name@.len(),
            token ==> 2 <= name@.len() <= 3 && name@[0] == 'f',
            token ==> forall|j: int| 1 <= j < i ==> is_ascii_digit(#[trigger] name@[j]),
            !token ==> !is_function_key_token(name@),
        decreases name@.len() - i,
    {
        if !('0' <= name[i] && name[i] <= '9') {
            token = false;
        }
        i = i + 1;
    }
    if token {
        assert(i >= name@.len());
        let num = name.split_at(1).1;
        assert(num@ =~= name@.drop_first());
        let n = function_key_number(num);
        if 1 <= n && n <= MAX_FUNCTION_KEY {
            let c = function_key(n);
            assert(c == function_key_char(n as nat));
            Ok(Key::new(m, c))
        } else {
            let mut msg: Vec<char> = Vec::new();
            push_str(&mut msg, "only f1 through f12 are supported, not 'f");
            push_chars(&mut msg, num);
            push_str(&mut msg, "'");
            Err(msg)
        }
    } else {
        let mut msg: Vec<char> = Vec::new();
        push_str(&mut msg, "cannot parse key '");
        let shown = escape_nonprintables(chord);
        push_chars(&mut msg, shown.as_slice());
        push_str(&mut msg, "'");
        Err(msg)
    }
}

/// Parses one chord: modifier prefixes and a key designator, joined by `-`.
pub fn parse_one_chord(chord: &[char], erase: Option<u8>) -> (r: Result<Key, Vec<char>>)
    ensures
        match r {
            Ok(key) => parse_chord(chord@, erase) == Ok::<Key, Seq<char>>(key),
            Err(e) => parse_chord(chord@, erase) == Err::<Key, Seq<char>>(e@),
        },
{
    if chord.len() == 1 && chord[0] == '-' {
        assert(chord@ =~= seq!['-']);
        return check_key(Key::from_raw('-'), erase);
    }
    assert(chord@ != seq!['-']) by {
        if chord@ == seq!['-'] {
            assert(chord@[0] == '-');
        }
    }
    let parts = split_chars(chord, '-');
    let ghost ps = texts(parts@).drop_last();
    let n = parts.len();
    let mut m = Modifiers::new();
    let ctrl_text: Vec<char> = vec!['c', 't', 'r', 'l'];
    let alt_text: Vec<char> = vec!['a', 'l', 't'];
    let shift_text: Vec<char> = vec!['s', 'h', 'i', 'f', 't'];
    let super_text: Vec<char> = vec!['s', 'u', 'p', 'e', 'r'];
    let mut i: usize = 0;
    assert(ps.subrange(0, 0) =~= Seq::<Seq<char>>::empty());
    while i < n - 1
        invariant
            n == parts@.len(),
            n >= 1,
            i <= n - 1,
            ps == texts(parts@).drop_last(),
            texts(parts@) == split_text(chord@, '-'),
            chord@ != seq!['-'],
            ctrl_text@ == ctrl_name(),
            alt_text@ == alt_name(),
            shift_text@ == shift_name(),
            super_text@ == super_name(),
            parse_modifiers(ps.subrange(0, i as int)) == Ok::<Modifiers, Seq<char>>(m),
        decreases n - 1 - i,
    {
        let p = parts[i].as_slice();
        assert(ps.subrange(0, i + 1).drop_last() =~= ps.subrange(0, i as int));
        assert(ps[i as int] == p@);
        if text_eq(p, ctrl_text.as_slice()) {
            m.ctrl = true;
        } else if text_eq(p, alt_text.as_slice()) {
            m.alt = true;
        } else if text_eq(p, shift_text.as_slice()) {
            m.shift = true;
        } else if text_eq(p, super_text.as_slice()) {
            m.sup = true;
        } else {
            proof {
                assert(ps.subrange(0, i + 1).last() == p@);
                assert(apply_modifier(m, p@) is None);
                assert(parse_modifiers(ps.subrange(0, i + 1)) == Err::<Modifiers, Seq<char>>(p@));
                lemma_parse_modifiers_err(ps, i + 1);
                assert(ps.subrange(0, ps.len() as int) =~= ps);
            }
            let mut msg: Vec<char> = Vec::new();
            push_str(&mut msg, "unknown modifier '");
            let shown_prefix = escape_nonprintables(p);
            push_chars(&mut msg, shown_prefix.as_slice());
            push_str(&mut msg, "' in '");
            let shown = escape_nonprintables(chord);
            push_chars(&mut msg, shown.as_slice());
            push_str(&mut msg, "'");
            return Err(msg);
        }
        i = i + 1;
    }
    assert(ps.subrange(0, ps.len() as int) =~= ps);
    key_name_designator(parts[n - 1].as_slice(), m, chord, erase)
}

/// Parses a bind specification into the keys it names, in order.
///
/// An empty specification names no keys; a single character names itself; a
/// short one that is no chord, or one that starts with a control character,
/// is read character by character. Otherwise it is a list of chords joined
/// by `,`, each of modifier prefixes and a key designator joined by `-`. Raw
/// escapes are resolved at the end (see `canonicalize_raw_escapes`).
pub fn parse_keys(value: &[char], erase: Option<u8>) -> (r: Result<Vec<Key>, Vec<char>>)
    ensures
        match r {
            Ok(ks) => parse_keys_spec(value@, erase) == Ok::<Seq<Key>, Seq<char>>(ks@),
            Err(e) => parse_keys_spec(value@, erase) == Err::<Seq<Key>, Seq<char>>(e@),
        },
{
    let mut res: Vec<Key> = Vec::new();
    if value.len() == 0 {
        assert(res@ =~= Seq::<Key>::empty());
        return Ok(res);
    }
    let len = value.len();
    let first = value[0];
    let mut legacy = len == 1 || (first as u32) < 0x20;
    if 2 <= len && len <= 3 && !contains_char(value, '-') && !contains_char(value, KEY_SEPARATOR)
        && value[0] != 'F' && !(value[0] == 'f' && '0' <= value[1] && value[1] <= '9') {
        if let None = lookup_key_name(value) {
            legacy = true;
        }
    }
    assert(legacy == (value@.len() == 1 || is_legacy(value@)));
    if legacy {
        let mut i: usize = 0;
        while i < len
            invariant
                len == value@.len(),
                i <= len,
                res@ == flat_keys(value@.subrange(0, i as int), erase),
            decreases len - i,
        {
            // A key without modifiers never meets a Ctrl conflict.
            let k = match canonicalize_key(Key::from_raw(value[i]), erase) {
                Ok(k) => k,
                Err(_) => Key::from_raw(value[i]),
            };
            res.push(k);
            i = i + 1;
            assert(res@ =~= flat_keys(value@.subrange(0, i as int), erase));
        }
        assert(value@.subrange(0, len as int) =~= value@);
    } else {
        let chords = split_chars(value, KEY_SEPARATOR);
        let ghost cs = texts(chords@);
        let mut i: usize = 0;
        assert(cs.subrange(0, 0) =~= Seq::<Seq<char>>::empty());
        while i < chords.len()
            invariant
                cs == texts(chords@),
                cs == split_text(value@, KEY_SEPARATOR),
                value@.len() >= 2,
                !is_legacy(value@),
                i <= chords@.len(),
                parse_chords(cs.subrange(0, i as int), erase) == Ok::<Seq<Key>, Seq<char>>(res@),
            decreases chords@.len() - i,
        {
            assert(cs.subrange(0, i + 1).drop_last() =~= cs.subrange(0, i as int));
            assert(cs[i as int] == chords@[i as int]@);
            match parse_one_chord(chords[i].as_slice(), erase) {
                Ok(k) => res.push(k),
                Err(e) => {
                    proof {
                        assert(cs.subrange(0, i + 1).last() == cs[i as int]);
                        assert(parse_chords(cs.subrange(0, i + 1), erase) == Err::<Seq<Key>, Seq<char>>(e@));
                        lemma_parse_chords_err(cs, i + 1, erase);
                    }
                    return Err(e);
                },
            }
            i = i + 1;
        }
        assert(cs.subrange(0, cs.len() as int) =~= cs);
    }
    Ok(canonicalize_raw_escapes(res))
}

} // verus!
