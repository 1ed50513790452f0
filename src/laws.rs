//! Laws that relate the parser, the canonicalizer and the renderer.
use vstd::prelude::*;
use crate::key::{
    key_name, named_key, find_named, named_codepoints, lemma_named_key_single,
    lemma_find_named_sound, is_function_key, function_key_index, raw_key, Key, Modifiers,
    RAW_ESCAPE, SPACE,
};
use crate::canon::{
    canonical_key, control_char_key, ctrl_conflict, keyed_char, resolve_escapes, has_raw_escape,
    lemma_resolve_no_escape, unkeyed_char,
};
use crate::parse::{
    flat_keys, is_legacy, parse_chord, parse_chords, parse_keys_spec, parse_key_name,
    parse_modifiers, split_from, split_text, is_function_key_token, digits_value,
    function_key_char, ctrl_name, alt_name, shift_name, super_name, checked_key, KEY_SEPARATOR,
};
use crate::render::{
    key_text, must_escape_spec, symbol_of, modifier_prefix, key_base_text, decimal_text,
};

verus! {

/// Every name leads back to the code point it names.
pub proof fn lemma_named_key_inverse(c: char)
    requires
        key_name(c) is Some,
    ensures
        named_key(key_name(c).unwrap()) == Some(c),
{
    reveal_with_fuel(find_named, 20);
    let n = key_name(c).unwrap();
    assert(n[0] == key_name(c).unwrap()[0]);
}

/// Text without the separator is one part.
pub proof fn lemma_split_without_sep(s: Seq<char>, sep: char, cur: Seq<char>)
    requires
        !s.contains(sep),
    ensures
        split_from(s, sep, cur) == seq![cur + s],
    decreases s.len(),
{
    if s.len() == 0 {
        assert(cur + s =~= cur);
    } else {
        assert(s[0] != sep);
        let rest = s.drop_first();
        assert(!rest.contains(sep)) by {
            if rest.contains(sep) {
                let i = choose|i: int| 0 <= i < rest.len() && rest[i] == sep;
                assert(s[i + 1] == sep);
            }
        }
        lemma_split_without_sep(rest, sep, cur.push(s[0]));
        assert(cur.push(s[0]) + rest =~= cur + s);
    }
}

/// Reading text without the separator only extends the current part.
pub proof fn lemma_split_prefix(a: Seq<char>, rest: Seq<char>, sep: char, cur: Seq<char>)
    requires
        !a.contains(sep),
    ensures
        split_from(a + rest, sep, cur) == split_from(rest, sep, cur + a),
    decreases a.len(),
{
    if a.len() == 0 {
        assert(a + rest =~= rest);
        assert(cur + a =~= cur);
    } else {
        assert((a + rest)[0] == a[0]);
        assert(a[0] != sep);
        let a2 = a.drop_first();
        assert(!a2.contains(sep)) by {
            if a2.contains(sep) {
                let i = choose|i: int| 0 <= i < a2.len() && a2[i] == sep;
                assert(a[i + 1] == sep);
            }
        }
        assert((a + rest).drop_first() =~= a2 + rest);
        lemma_split_prefix(a2, rest, sep, cur.push(a[0]));
        assert(cur.push(a[0]) + a2 =~= cur + a);
    }
}

/// A code point that the canonicalizer leaves alone: no control character,
/// no character that stands for a named key, and not the erase byte.
pub open spec fn keeps_itself(c: char, erase: Option<u8>) -> bool {
    keyed_char(c, erase) == c && c as u32 >= 0x20
}

/// Whether the erase byte is one of the characters that control bytes are
/// Ctrl of: a lower-case letter or one of `[\]^_`.
pub open spec fn erase_is_ctrl_target(erase: Option<u8>) -> bool {
    erase matches Some(b) && ((0x61 <= b <= 0x7a) || (0x5b <= b <= 0x5f))
}

/// Every control byte stands for a key, and the display text of that key
/// parses back to it. Ctrl-\ and Ctrl-] are the exceptions: their display
/// text escapes the symbol, and an escaped symbol is no key designator.
pub proof fn control_byte_round_trip(b: u8, erase: Option<u8>, qmark_noglob: bool)
    requires
        b < 32,
        !erase_is_ctrl_target(erase),
        (b != 28 && b != 29) || erase == Some(b),
    ensures
        control_char_key(b, erase) is Some,
        parse_keys_spec(key_text(control_char_key(b, erase).unwrap(), qmark_noglob), erase)
            == Ok::<Seq<Key>, Seq<char>>(seq![control_char_key(b, erase).unwrap()]),
{
    let kc = keyed_char(b as char, erase);
    let k = control_char_key(b, erase).unwrap();
    if kc as u32 <= 255 && b != 0 {
        let u = unkeyed_char(b);
        assert(0x5e <= u as u32 <= 0x7a);
        assert(symbol_of(u, false, qmark_noglob) == seq![u]);
    }
    display_text_round_trip(k, erase, qmark_noglob);
}

/// A printable ASCII character that needs no escaping is its own symbol, and
/// that symbol parses back to the character (unless it is the erase byte,
/// which stands for Backspace).
pub proof fn printable_symbol_round_trip(c: char, is_first_in_token: bool, qmark_noglob: bool, erase: Option<u8>)
    requires
        0x21 <= c as u32 <= 0x7e,
        !must_escape_spec(is_first_in_token, c, qmark_noglob),
        erase != Some(c as u32 as u8),
    ensures
        symbol_of(c, is_first_in_token, qmark_noglob) == seq![c],
        parse_keys_spec(symbol_of(c, is_first_in_token, qmark_noglob), erase)
            == Ok::<Seq<Key>, Seq<char>>(seq![raw_key(c)]),
{
    let s = seq![c];
    assert(canonical_key(raw_key(c), erase) == raw_key(c));
    assert(flat_keys(s, erase) =~= seq![raw_key(c)]);
    assert(!has_raw_escape(seq![raw_key(c)]));
    lemma_resolve_no_escape(seq![raw_key(c)]);
}

/// An explicit Ctrl on a control character that stays one (not CR, TAB, a
/// raw escape or the erase byte, which have keys of their own) is always
/// refused.
pub proof fn ctrl_on_control_char_refused(k: Key, erase: Option<u8>)
    requires
        k.modifiers.ctrl,
        (k.codepoint as u32) < 0x20,
        k.codepoint != '\r',
        k.codepoint != '\t',
        k.codepoint != RAW_ESCAPE,
        erase != Some(k.codepoint as u32 as u8),
    ensures
        ctrl_conflict(k, erase),
{
}

/// Canonicalizing an already canonical key gives it back unchanged, and
/// without a conflict.
pub proof fn canonical_key_idempotent(k: Key, erase: Option<u8>)
    requires
        !erase_is_ctrl_target(erase),
    ensures
        !ctrl_conflict(canonical_key(k, erase), erase),
        canonical_key(canonical_key(k, erase), erase) == canonical_key(k, erase),
{
    if k.codepoint != RAW_ESCAPE {
        let c = keyed_char(k.codepoint, erase);
        if (c as u32) < 0x20 {
            let u = unkeyed_char(c as u32 as u8);
            assert(u == SPACE || 0x5b <= u as u32 <= 0x7a);
        }
    }
}

/// Resolving raw escapes leaves no raw escape behind unless the input has
/// one with Alt already set.
pub proof fn resolve_escapes_leaves_none(keys: Seq<Key>, pending: bool)
    requires
        forall|i: int| 0 <= i < keys.len() ==> !(#[trigger] keys[i].codepoint == RAW_ESCAPE && keys[i].modifiers.alt),
    ensures
        !has_raw_escape(resolve_escapes(keys, pending)),
    decreases keys.len(),
{
    if keys.len() > 0 {
        let rest = keys.drop_first();
        assert forall|i: int| 0 <= i < rest.len() implies !(#[trigger] rest[i].codepoint == RAW_ESCAPE && rest[i].modifiers.alt) by {
            assert(rest[i] == keys[i + 1]);
        }
        resolve_escapes_leaves_none(rest, false);
        resolve_escapes_leaves_none(rest, true);
        let k = keys[0];
        assert(!(k.codepoint == RAW_ESCAPE && k.modifiers.alt));
        let out = resolve_escapes(keys, pending);
        let tail_f = resolve_escapes(rest, false);
        if has_raw_escape(out) {
            let j = choose|j: int| 0 <= j < out.len() && #[trigger] out[j].codepoint == RAW_ESCAPE;
            if pending {
                if k.modifiers.alt {
                    assert(j >= 2 ==> out[j] == tail_f[j - 2]);
                } else {
                    assert(j >= 1 ==> out[j] == tail_f[j - 1]);
                }
            } else if k.codepoint != RAW_ESCAPE {
                assert(j >= 1 ==> out[j] == tail_f[j - 1]);
            }
        }
    } else {
        if pending {
            let out = resolve_escapes(keys, pending);
            assert(out == seq![raw_key(crate::key::ESCAPE)]);
            if has_raw_escape(out) {
                let j = choose|j: int| 0 <= j < out.len() && #[trigger] out[j].codepoint == RAW_ESCAPE;
            }
        }
    }
}

/// Running the raw-escape pass on its own output changes nothing, wherever
/// that output holds no raw escape (it holds one only where the input had a
/// raw escape with Alt after a pending one; see `resolve_escapes_leaves_none`).
pub proof fn raw_escapes_idempotent(keys: Seq<Key>)
    requires
        !has_raw_escape(resolve_escapes(keys, false)),
    ensures
        resolve_escapes(resolve_escapes(keys, false), false) == resolve_escapes(keys, false),
{
    lemma_resolve_no_escape(resolve_escapes(keys, false));
}

/// The modifier names that a key's display text starts with, in order.
pub open spec fn modifier_names(m: Modifiers) -> Seq<Seq<char>> {
    let l1 = if m.sup { seq![super_name()] } else { Seq::<Seq<char>>::empty() };
    let l2 = if m.ctrl { l1.push(ctrl_name()) } else { l1 };
    let l3 = if m.alt { l2.push(alt_name()) } else { l2 };
    if m.shift { l3.push(shift_name()) } else { l3 }
}

/// A text without `sep` before `sep` becomes a part of its own.
pub proof fn lemma_split_piece(name: Seq<char>, rest: Seq<char>, sep: char)
    requires
        !name.contains(sep),
    ensures
        split_text(name + seq![sep] + rest, sep) == seq![name] + split_text(rest, sep),
{
    lemma_split_prefix(name, seq![sep] + rest, sep, seq![]);
    assert(name + seq![sep] + rest =~= name + (seq![sep] + rest));
    assert((seq![sep] + rest).drop_first() =~= rest);
    assert(Seq::<char>::empty() + name =~= name);
}

/// No character of `s` is `c`, checked index by index.
pub proof fn lemma_not_contains(s: Seq<char>, c: char)
    requires
        forall|i: int| 0 <= i < s.len() ==> s[i] != c,
    ensures
        !s.contains(c),
{
}

/// A display text splits at `-` into its modifier names and the key's text.
pub proof fn lemma_split_display(m: Modifiers, base: Seq<char>)
    requires
        !base.contains('-'),
    ensures
        split_text(modifier_prefix(m) + base, '-') == modifier_names(m).push(base),
{
    lemma_not_contains(super_name(), '-');
    lemma_not_contains(ctrl_name(), '-');
    lemma_not_contains(alt_name(), '-');
    lemma_not_contains(shift_name(), '-');
    lemma_split_without_sep(base, '-', seq![]);
    assert(Seq::<char>::empty() + base =~= base);
    let h = if m.shift { shift_name() + seq!['-'] + base } else { base };
    if m.shift {
        lemma_split_piece(shift_name(), base, '-');
    }
    assert(split_text(h, '-') == (if m.shift { seq![shift_name()] } else { Seq::<Seq<char>>::empty() }) + seq![base]) by {
        if !m.shift {
            assert(Seq::<Seq<char>>::empty() + seq![base] =~= seq![base]);
        }
    }
    let a = if m.alt { alt_name() + seq!['-'] + h } else { h };
    if m.alt {
        lemma_split_piece(alt_name(), h, '-');
    }
    let c = if m.ctrl { ctrl_name() + seq!['-'] + a } else { a };
    if m.ctrl {
        lemma_split_piece(ctrl_name(), a, '-');
    }
    let t = if m.sup { super_name() + seq!['-'] + c } else { c };
    if m.sup {
        lemma_split_piece(super_name(), c, '-');
    }
    assert(super_name() + seq!['-'] =~= crate::render::super_prefix());
    assert(ctrl_name() + seq!['-'] =~= crate::render::ctrl_prefix());
    assert(alt_name() + seq!['-'] =~= crate::render::alt_prefix());
    assert(shift_name() + seq!['-'] =~= crate::render::shift_prefix());
    assert(modifier_prefix(m) + base =~= t);
    let l1 = if m.sup { seq![super_name()] } else { Seq::<Seq<char>>::empty() };
    let l2 = if m.ctrl { l1.push(ctrl_name()) } else { l1 };
    let l3 = if m.alt { l2.push(alt_name()) } else { l2 };
    assert(split_text(t, '-') =~= modifier_names(m).push(base));
}

/// The modifier names of a display text parse back to its modifiers.
pub proof fn lemma_parse_modifier_names(m: Modifiers)
    ensures
        parse_modifiers(modifier_names(m)) == Ok::<Modifiers, Seq<char>>(m),
{
    let none = Modifiers { ctrl: false, alt: false, shift: false, sup: false };
    assert(ctrl_name() != alt_name());
    assert(shift_name() != super_name()) by {
        assert(shift_name()[1] != super_name()[1]);
    }
    assert(ctrl_name() != shift_name() && ctrl_name() != super_name());
    assert(alt_name() != shift_name() && alt_name() != super_name());
    let l0 = Seq::<Seq<char>>::empty();
    let m1 = Modifiers { sup: m.sup, ..none };
    let l1 = if m.sup { l0.push(super_name()) } else { l0 };
    assert(parse_modifiers(l0) == Ok::<Modifiers, Seq<char>>(none));
    if m.sup {
        assert(l0.push(super_name()).drop_last() =~= l0);
    }
    assert(parse_modifiers(l1) == Ok::<Modifiers, Seq<char>>(m1));
    let m2 = Modifiers { ctrl: m.ctrl, ..m1 };
    let l2 = if m.ctrl { l1.push(ctrl_name()) } else { l1 };
    if m.ctrl {
        assert(l1.push(ctrl_name()).drop_last() =~= l1);
    }
    assert(parse_modifiers(l2) == Ok::<Modifiers, Seq<char>>(m2));
    let m3 = Modifiers { alt: m.alt, ..m2 };
    let l3 = if m.alt { l2.push(alt_name()) } else { l2 };
    if m.alt {
        assert(l2.push(alt_name()).drop_last() =~= l2);
    }
    assert(parse_modifiers(l3) == Ok::<Modifiers, Seq<char>>(m3));
    let l4 = if m.shift { l3.push(shift_name()) } else { l3 };
    if m.shift {
        assert(l3.push(shift_name()).drop_last() =~= l3);
    }
    assert(seq![super_name()] =~= l0.push(super_name()));
    assert(l4 =~= modifier_names(m));
}

/// Every name is lower-case letters, and none starts with `f`.
pub proof fn lemma_key_name_shape(x: char)
    ensures
        key_name(x) matches Some(n) ==> n.len() >= 2 && n[0] != 'f' && forall|i: int|
            0 <= i < n.len() ==> 'a' <= #[trigger] n[i] <= 'z',
{
}

/// Neither part holding `c`, neither does the two joined.
pub proof fn lemma_concat_not_contains(a: Seq<char>, b: Seq<char>, c: char)
    requires
        !a.contains(c),
        !b.contains(c),
    ensures
        !(a + b).contains(c),
{
    if (a + b).contains(c) {
        let i = choose|i: int| 0 <= i < (a + b).len() && (a + b)[i] == c;
        if i < a.len() {
            assert(a[i] == c);
        } else {
            assert(b[i - a.len()] == c);
        }
    }
}

/// The modifier prefix of a display text holds no `,`.
pub proof fn lemma_prefix_no_separator(m: Modifiers)
    ensures
        !modifier_prefix(m).contains(KEY_SEPARATOR),
        !modifier_prefix(m).contains('-') ==> !m.any(),
        m.any() ==> modifier_prefix(m).len() >= 4 && 'a' <= modifier_prefix(m)[0] <= 's',
{
    let e = Seq::<char>::empty();
    let s = if m.sup { crate::render::super_prefix() } else { e };
    let c = if m.ctrl { crate::render::ctrl_prefix() } else { e };
    let a = if m.alt { crate::render::alt_prefix() } else { e };
    let h = if m.shift { crate::render::shift_prefix() } else { e };
    lemma_not_contains(s, KEY_SEPARATOR);
    lemma_not_contains(c, KEY_SEPARATOR);
    lemma_not_contains(a, KEY_SEPARATOR);
    lemma_not_contains(h, KEY_SEPARATOR);
    lemma_concat_not_contains(s, c, KEY_SEPARATOR);
    lemma_concat_not_contains(s + c, a, KEY_SEPARATOR);
    lemma_concat_not_contains(s + c + a, h, KEY_SEPARATOR);
    let p = modifier_prefix(m);
    if m.any() {
        if m.sup {
            assert(p[0] == 's' && p[5] == '-');
        } else if m.ctrl {
            assert(p[0] == 'c' && p[4] == '-');
        } else if m.alt {
            assert(p[0] == 'a' && p[3] == '-');
        } else {
            assert(p[0] == 's' && p[5] == '-');
        }
    }
}

/// The decimal text of a function-key index reads back as that index.
pub proof fn lemma_function_key_text(n: nat)
    requires
        1 <= n <= 12,
    ensures
        is_function_key_token(seq!['f'] + decimal_text(n)),
        digits_value((seq!['f'] + decimal_text(n)).drop_first()) == n,
        named_key(seq!['f'] + decimal_text(n)) is None,
{
    reveal_with_fuel(digits_value, 3);
    let t = seq!['f'] + decimal_text(n);
    assert(t.drop_first() =~= decimal_text(n));
    if n < 10 {
        assert(decimal_text(n).drop_last() =~= Seq::<char>::empty());
    } else {
        assert(decimal_text(n).drop_last() =~= seq![decimal_text(n)[0]]);
        assert(seq![decimal_text(n)[0]].drop_last() =~= Seq::<char>::empty());
    }
    lemma_find_named_sound(named_codepoints(), t);
    if let Some(x) = named_key(t) {
        lemma_key_name_shape(x);
    }
}

/// The display text of a key is a bind specification for that key again:
/// for every key that the canonicalizer leaves alone and whose text is a
/// name, a function key, or the character itself.
pub proof fn display_text_round_trip(k: Key, erase: Option<u8>, qmark_noglob: bool)
    requires
        keeps_itself(k.codepoint, erase),
        key_name(k.codepoint) is Some || is_function_key(k.codepoint) || key_base_text(
            k,
            qmark_noglob,
        ) == seq![k.codepoint],
    ensures
        parse_keys_spec(key_text(k, qmark_noglob), erase) == Ok::<Seq<Key>, Seq<char>>(seq![k]),
{
    let c = k.codepoint;
    let m = k.modifiers;
    let base = key_base_text(k, qmark_noglob);
    let text = key_text(k, qmark_noglob);
    assert(!ctrl_conflict(k, erase));
    assert(canonical_key(k, erase) == k);
    assert(checked_key(k, erase) == Ok::<Key, Seq<char>>(k));
    lemma_key_name_shape(c);
    if key_name(c) is Some {
        lemma_named_key_inverse(c);
        lemma_not_contains(base, '-');
        lemma_not_contains(base, KEY_SEPARATOR);
        assert(parse_key_name(base, m, text, erase) == Ok::<Key, Seq<char>>(k));
    } else if is_function_key(c) {
        let n = function_key_index(c) as nat;
        lemma_function_key_text(n);
        assert(base == seq!['f'] + decimal_text(n));
        assert(function_key_char(n) == c);
        lemma_not_contains(base, '-');
        lemma_not_contains(base, KEY_SEPARATOR);
        assert(parse_key_name(base, m, text, erase) == Ok::<Key, Seq<char>>(k));
    } else {
        lemma_named_key_single(c);
        lemma_not_contains(base, '-');
        lemma_not_contains(base, KEY_SEPARATOR);
        assert(parse_key_name(base, m, text, erase) == Ok::<Key, Seq<char>>(k));
    }
    lemma_prefix_no_separator(m);
    lemma_concat_not_contains(modifier_prefix(m), base, KEY_SEPARATOR);
    if !m.any() && base.len() == 1 {
        assert(modifier_prefix(m) =~= Seq::<char>::empty());
        assert(text =~= seq![c]);
        assert(k == raw_key(c));
        assert(flat_keys(text, erase) =~= seq![k]);
        assert(!has_raw_escape(seq![k]));
        lemma_resolve_no_escape(seq![k]);
    } else {
        if !m.any() {
            assert(modifier_prefix(m) =~= Seq::<char>::empty());
            assert(text =~= base);
            assert(!is_legacy(text));
        } else {
            assert(text[0] == modifier_prefix(m)[0]);
            assert(!is_legacy(text));
        }
        lemma_split_display(m, base);
        lemma_parse_modifier_names(m);
        let parts = split_text(text, '-');
        assert(parts.drop_last() =~= modifier_names(m));
        assert(parts.last() == base);
        assert(text != seq!['-']) by {
            assert(text.len() >= 2);
        }
        assert(parse_chord(text, erase) == Ok::<Key, Seq<char>>(k));
        lemma_split_without_sep(text, KEY_SEPARATOR, seq![]);
        assert(Seq::<char>::empty() + text =~= text);
        let chords = split_text(text, KEY_SEPARATOR);
        assert(chords == seq![text]);
        assert(chords.drop_last() =~= Seq::<Seq<char>>::empty());
        assert(parse_chords(Seq::<Seq<char>>::empty(), erase) == Ok::<Seq<Key>, Seq<char>>(seq![]));
        assert(Seq::<Key>::empty().push(k) =~= seq![k]);
        assert(parse_chords(chords, erase) == Ok::<Seq<Key>, Seq<char>>(seq![k]));
        assert(!has_raw_escape(seq![k]));
        lemma_resolve_no_escape(seq![k]);
    }
}

} // verus!
