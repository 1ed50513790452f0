use keychord::canon::ascii_control;
use keychord::key::{key_name_text, lookup_key_name, text_eq};
use keychord::parse::split_chars;
use keychord::render::{must_escape, ctrl_to_symbol, ascii_printable_to_symbol, symbol_for_width};
use keychord::{
    alt, canonicalize_control_char, canonicalize_key, canonicalize_keyed_control_char,
    canonicalize_raw_escapes, canonicalize_unkeyed_control_char, char_to_symbol, ctrl,
    escape_nonprintables, function_key, parse_keys, shift, Key, Modifiers, ViewportPosition,
    BACKSPACE, DELETE, ENTER, ESCAPE, SPACE, TAB, UP,
};

fn t(s: &str) -> Vec<char> {
    s.chars().collect()
}

fn parse(s: &str) -> Result<Vec<Key>, String> {
    parse_keys(&t(s), None).map_err(|e| e.into_iter().collect())
}

fn text(k: Key) -> String {
    k.to_text(true).into_iter().collect()
}

fn sym(c: char, first: bool) -> String {
    char_to_symbol(c, first, true).into_iter().collect()
}

#[test]
fn parse_simple_chords() {
    let mut m = Modifiers::new();
    m.ctrl = true;
    assert_eq!(parse("ctrl-a"), Ok(vec![Key::new(m, 'a')]));
    assert_eq!(parse("a"), Ok(vec![Key::from_raw('a')]));
    assert_eq!(parse(""), Ok(vec![]));
    assert_eq!(parse(","), Ok(vec![Key::from_raw(',')]));
    assert_eq!(parse("f1"), Ok(vec![Key::from_raw(function_key(1))]));
    assert_eq!(parse("f1"), Ok(vec![Key::from_raw('\u{F5F3}')]));
    assert_eq!(parse("f12"), Ok(vec![Key::from_raw('\u{F5FE}')]));
    let mut cs = Modifiers::new();
    cs.ctrl = true;
    cs.shift = true;
    assert_eq!(parse("ctrl-shift-up"), Ok(vec![Key::new(cs, UP)]));
}

#[test]
fn parse_function_key_out_of_range() {
    let e = parse("f13").unwrap_err();
    assert!(e.contains("f1 through f12"));
    assert_eq!(e, "only f1 through f12 are supported, not 'f13'");
    assert_eq!(parse("f0").unwrap_err(), "only f1 through f12 are supported, not 'f0'");
    assert_eq!(parse("alt-f99").unwrap_err(), "only f1 through f12 are supported, not 'f99'");
}

#[test]
fn parse_legacy_control_run() {
    assert_eq!(parse("\x01\x02"), Ok(vec![ctrl('a'), ctrl('b')]));
    assert_eq!(parse("ab"), Ok(vec![Key::from_raw('a'), Key::from_raw('b')]));
}

#[test]
fn parse_escape_prefix() {
    assert_eq!(parse("\x1bk"), Ok(vec![alt('k')]));
    assert_eq!(parse("\x1b"), Ok(vec![Key::from_raw(ESCAPE)]));
    assert_eq!(parse("\x1b\x1b"), Ok(vec![alt(ESCAPE)]));
}

#[test]
fn parse_sequences_and_names() {
    assert_eq!(
        parse("ctrl-x,alt-f5,-"),
        Ok(vec![ctrl('x'), alt(function_key(5)), Key::from_raw('-')])
    );
    assert_eq!(parse("tab"), Ok(vec![Key::from_raw(TAB)]));
    assert_eq!(parse("super-enter"), Ok(vec![Key::new(
        Modifiers { ctrl: false, alt: false, shift: false, sup: true },
        ENTER
    )]));
    assert_eq!(parse("shift-comma"), Ok(vec![shift(',')]));
    assert_eq!(parse("minus"), Ok(vec![Key::from_raw('-')]));
    assert_eq!(parse("ctrl-space"), Ok(vec![ctrl(SPACE)]));
}

#[test]
fn parse_errors() {
    assert_eq!(parse("hyper-a").unwrap_err(), "unknown modifier 'hyper' in 'hyper-a'");
    assert_eq!(parse("foo-\x01x").unwrap_err(), "unknown modifier 'foo' in 'foo-\\cax'");
    assert_eq!(parse("a\x01-b").unwrap_err(), "unknown modifier 'a\\ca' in 'a\\ca-b'");
    assert_eq!(parse("notakey").unwrap_err(), "cannot parse key 'notakey'");
    assert_eq!(parse("a,,b").unwrap_err(), "cannot parse key ''");
    assert_eq!(
        parse("ctrl-\x01").unwrap_err(),
        "Cannot add control modifier to control character 'ctrl-a'"
    );
}

#[test]
fn parse_uses_erase_byte() {
    assert_eq!(parse_keys(&t("\x7f"), Some(0x7f)), Ok(vec![Key::from_raw(BACKSPACE)]));
    assert_eq!(parse_keys(&t("\x7f"), Some(8)), Ok(vec![Key::from_raw(DELETE)]));
    assert_eq!(parse_keys(&t("\x08"), Some(8)), Ok(vec![Key::from_raw(BACKSPACE)]));
    assert_eq!(parse_keys(&t("\x08"), None), Ok(vec![ctrl('h')]));
}

#[test]
fn control_bytes_round_trip() {
    for erase in [None, Some(8u8), Some(0x7fu8)] {
        for b in 0u8..32 {
            let k = canonicalize_control_char(b, erase).unwrap();
            if b == 28 || b == 29 {
                continue;
            }
            let shown = k.to_text(true);
            assert_eq!(parse_keys(&shown, erase), Ok(vec![k]), "byte {}", b);
        }
    }
}

#[test]
fn control_char_table() {
    assert_eq!(canonicalize_control_char(0, None), Some(ctrl(SPACE)));
    assert_eq!(canonicalize_control_char(1, None), Some(ctrl('a')));
    assert_eq!(canonicalize_control_char(13, None), Some(Key::from_raw(ENTER)));
    assert_eq!(canonicalize_control_char(9, None), Some(Key::from_raw(TAB)));
    assert_eq!(canonicalize_control_char(27, None), Some(Key::from_raw(ESCAPE)));
    assert_eq!(canonicalize_control_char(28, None), Some(ctrl('\\')));
    assert_eq!(canonicalize_control_char(31, None), Some(ctrl('_')));
    assert_eq!(canonicalize_control_char(32, None), Some(Key::from_raw(SPACE)));
    assert_eq!(canonicalize_control_char(127, None), Some(Key::from_raw(DELETE)));
    assert_eq!(canonicalize_control_char(b'a', None), None);
    assert_eq!(canonicalize_unkeyed_control_char(0), SPACE);
    assert_eq!(canonicalize_unkeyed_control_char(26), 'z');
    assert_eq!(canonicalize_unkeyed_control_char(27), '[');
    assert_eq!(canonicalize_keyed_control_char('\r', None), ENTER);
    assert_eq!(canonicalize_keyed_control_char('x', Some(b'x')), BACKSPACE);
    assert_eq!(ascii_control('m'), '\r');
    assert_eq!(ascii_control('\u{1F600}'), '\0');
}

#[test]
fn single_byte_and_char_keys() {
    assert_eq!(Key::from_single_byte(8, Some(8)), Key::from_raw(BACKSPACE));
    assert_eq!(Key::from_single_byte(127, Some(8)), Key::from_raw(DELETE));
    assert_eq!(Key::from_single_byte(b'q', None), Key::from_raw('q'));
    assert_eq!(Key::from_single_char('\x03', None), ctrl('c'));
    assert_eq!(Key::from_single_char('é', None), Key::from_raw('é'));
    assert_eq!(Key::from_single_char('\u{1F600}', None), Key::from_raw('\u{1F600}'));
}

#[test]
fn printable_symbols_round_trip() {
    for v in 0x21u32..0x7f {
        let c = char::from_u32(v).unwrap();
        for first in [false, true] {
            if must_escape(first, c, true) {
                continue;
            }
            let s = char_to_symbol(c, first, true);
            assert_eq!(s, vec![c]);
            assert_eq!(parse_keys(&s, None), Ok(vec![Key::from_raw(c)]));
        }
    }
}

#[test]
fn symbols() {
    assert_eq!(sym('\t', false), "\\t");
    assert_eq!(sym('\r', false), "\\r");
    assert_eq!(sym('\x1b', false), "\\e");
    assert_eq!(sym('\x01', false), "\\x01");
    assert_eq!(sym(' ', false), "\\x20");
    assert_eq!(sym('\x7f', false), "\\x7f");
    assert_eq!(sym('*', false), "\\*");
    assert_eq!(sym('<', false), "<");
    assert_eq!(sym('>', true), ">");
    assert_eq!(sym('(', false), "\\(");
    assert_eq!(sym('~', true), "\\~");
    assert_eq!(sym('~', false), "~");
    assert_eq!(sym('#', true), "\\#");
    assert_eq!(sym('?', false), "?");
    assert_eq!(char_to_symbol('?', false, false).into_iter().collect::<String>(), "\\?");
    assert_eq!(sym('\u{F6AB}', false), "\\xab");
    assert_eq!(sym('\u{E123}', false), "\\uE123");
    assert_eq!(sym('é', false), "é");
    assert_eq!(sym('\u{0301}', false), "\\u0301");
    assert_eq!(sym('\u{E0100}', false), "\\U0E0100");
    let w = |c: char, width: Option<usize>| -> String {
        symbol_for_width(c, false, true, width).into_iter().collect()
    };
    assert_eq!(w('é', Some(1)), "é");
    assert_eq!(w('é', Some(0)), "\\u00E9");
    assert_eq!(w('\u{1F600}', Some(2)), "\u{1F600}");
    assert_eq!(w('\u{1F600}', None), "\\U01F600");
    assert_eq!(w('a', None), "a");
}

#[test]
fn symbol_helpers() {
    let mut buf = vec!['x'];
    ctrl_to_symbol(&mut buf, '\x1f');
    assert_eq!(buf, t("x\\x1f"));
    let mut buf2 = Vec::new();
    ascii_printable_to_symbol(&mut buf2, false, '$', true);
    ascii_printable_to_symbol(&mut buf2, false, 'a', true);
    assert_eq!(buf2, t("\\$a"));
}

#[test]
fn key_texts() {
    let all = Modifiers { ctrl: true, alt: true, shift: true, sup: true };
    assert_eq!(text(Key::new(all, 'a')), "super-ctrl-alt-shift-a");
    assert_eq!(text(Key::from_raw(function_key(5))), "f5");
    assert_eq!(text(alt(function_key(12))), "alt-f12");
    assert_eq!(text(Key::from_raw(ESCAPE)), "escape");
    assert_eq!(text(ctrl(SPACE)), "ctrl-space");
    assert_eq!(text(Key::from_raw('-')), "minus");
    assert_eq!(text(Key::from_raw('~')), "\\~");
    assert_eq!(text(alt('~')), "alt-~");
}

#[test]
fn codepoint_texts() {
    assert_eq!(Key::from_raw(SPACE).codepoint_text(), Some(' '));
    assert_eq!(Key::from_raw(ENTER).codepoint_text(), Some('\n'));
    assert_eq!(Key::from_raw(TAB).codepoint_text(), Some('\t'));
    assert_eq!(Key::from_raw('a').codepoint_text(), Some('a'));
    assert_eq!(ctrl('a').codepoint_text(), None);
    assert_eq!(Key::from_raw(UP).codepoint_text(), None);
    assert_eq!(Key::from_raw('\x1b').codepoint_text(), None);
    assert_eq!(Key::from_raw('\u{F0000}').codepoint_text(), None);
}

#[test]
fn ctrl_on_control_char_is_refused() {
    let e = canonicalize_key(ctrl('\x01'), None).unwrap_err();
    assert_eq!(e.into_iter().collect::<String>(), "Cannot add control modifier to control character 'ctrl-a'");
    assert!(canonicalize_key(ctrl('\x1f'), None).is_err());
    assert_eq!(canonicalize_key(ctrl('\r'), None), Ok(ctrl(ENTER)));
}

#[test]
fn canonicalize_is_idempotent() {
    for v in 0u32..300 {
        let c = char::from_u32(v).unwrap();
        for k in [Key::from_raw(c), alt(c), shift(c)] {
            let once = canonicalize_key(k, Some(0x7f)).unwrap();
            assert_eq!(canonicalize_key(once, Some(0x7f)), Ok(once));
        }
    }
    assert_eq!(canonicalize_key(Key::from_raw('\x02'), None), Ok(ctrl('b')));
}

#[test]
fn raw_escape_pass() {
    let once = canonicalize_raw_escapes(vec![
        Key::from_raw('\x1b'),
        Key::from_raw('a'),
        Key::from_raw('\x1b'),
        alt('b'),
        Key::from_raw('\x1b'),
    ]);
    assert_eq!(
        once,
        vec![alt('a'), Key::from_raw(ESCAPE), alt('b'), Key::from_raw(ESCAPE)]
    );
    assert_eq!(canonicalize_raw_escapes(once.clone()), once);
    let plain = vec![ctrl('a'), Key::from_raw(UP)];
    assert_eq!(canonicalize_raw_escapes(plain.clone()), plain);
}

#[test]
fn sanitizing() {
    assert_eq!(escape_nonprintables(&t("a\x01\x1b\n")), t("a\\ca\\e\\n"));
    assert_eq!(escape_nonprintables(&t("\x00\x7f\u{F6FF}")), t("\\x00\\x7f\\XFF"));
    assert_eq!(escape_nonprintables(&t("$*")), t("$*"));
}

#[test]
fn names_and_splitting() {
    assert_eq!(lookup_key_name(&t("pagedown")), Some(keychord::PAGE_DOWN));
    assert_eq!(lookup_key_name(&t("nope")), None);
    assert_eq!(key_name_text(keychord::PRINT_SCREEN), Some(t("printscreen")));
    assert!(text_eq(&t("ab"), &t("ab")));
    assert!(!text_eq(&t("ab"), &t("abc")));
    assert_eq!(split_chars(&t("a,b,"), ','), vec![t("a"), t("b"), t("")]);
}

#[test]
fn modifiers_and_positions() {
    let m = Modifiers::new();
    assert!(m.is_none());
    assert!(!m.is_some());
    assert!(ctrl('a').modifiers.is_some());
    assert_eq!(m, Modifiers::default());
    let p = ViewportPosition { x: 3, y: 4 };
    assert_eq!(p, ViewportPosition { x: 3, y: 4 });
}

#[test]
fn display_text_round_trips() {
    let mut all_mods = Vec::new();
    for bits in 0u8..16 {
        all_mods.push(Modifiers {
            ctrl: bits & 1 != 0,
            alt: bits & 2 != 0,
            shift: bits & 4 != 0,
            sup: bits & 8 != 0,
        });
    }
    let codepoints = [
        UP, ESCAPE, TAB, SPACE, BACKSPACE, '-', ',', 'a', 'Z', '^', '<', '>', 'é',
        function_key(1), function_key(10), function_key(12),
    ];
    for m in all_mods {
        for c in codepoints {
            let k = Key::new(m, c);
            let shown = k.to_text(true);
            assert_eq!(parse_keys(&shown, None), Ok(vec![k]), "{:?}", k);
        }
    }
}
