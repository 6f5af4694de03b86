use sql_escape::escape_internal;

/// Reads one quoted token back, the way a SQL lexer would, and returns the
/// text it denotes and the number of characters it spans.
fn read_token(t: &str, as_ident: bool) -> Option<(String, usize)> {
    let chars: Vec<char> = t.chars().collect();
    let quote = if as_ident { '"' } else { '\'' };
    let (mut i, backslash_escapes) = if !as_ident && chars.starts_with(&[' ', 'E', '\'']) {
        (3, true)
    } else if chars.first() == Some(&quote) {
        (1, false)
    } else {
        return None;
    };
    let mut text = String::new();
    while i < chars.len() {
        let c = chars[i];
        if c == quote {
            if chars.get(i + 1) == Some(&quote) {
                text.push(quote);
                i += 2;
            } else {
                return Some((text, i + 1));
            }
        } else if backslash_escapes && c == '\\' {
            if chars.get(i + 1) == Some(&'\\') {
                text.push('\\');
                i += 2;
            } else {
                return None;
            }
        } else {
            text.push(c);
            i += 1;
        }
    }
    None
}

fn count(s: &str, c: char) -> usize {
    s.chars().filter(|&x| x == c).count()
}

#[test]
fn empty_literal() {
    assert_eq!(escape_internal("", false), "''");
}

#[test]
fn empty_identifier() {
    assert_eq!(escape_internal("", true), "\"\"");
}

#[test]
fn plain_identifier() {
    assert_eq!(escape_internal("abc", true), "\"abc\"");
}

#[test]
fn literal_with_apostrophe() {
    assert_eq!(escape_internal("O'Brien", false), "'O''Brien'");
}

#[test]
fn literal_with_backslash() {
    assert_eq!(escape_internal("a\\b", false), " E'a\\\\b'");
}

#[test]
fn identifier_with_double_quote() {
    assert_eq!(escape_internal("a\"b", true), "\"a\"\"b\"");
}

#[test]
fn injection_attempt_stays_one_literal() {
    let out = escape_internal("'; DROP TABLE x; --", false);
    assert_eq!(out, "'''; DROP TABLE x; --'");
    let n = out.chars().count();
    assert_eq!(read_token(&out, false), Some(("'; DROP TABLE x; --".to_string(), n)));
}

#[test]
fn identifier_keeps_backslash() {
    assert_eq!(escape_internal("a\\b", true), "\"a\\b\"");
}

#[test]
fn literal_keeps_double_quote() {
    assert_eq!(escape_internal("a\"b", false), "'a\"b'");
}

#[test]
fn identifier_keeps_apostrophe() {
    assert_eq!(escape_internal("it's", true), "\"it's\"");
}

#[test]
fn only_quotes_are_all_doubled() {
    assert_eq!(escape_internal("'''", false), "''''''''");
    assert_eq!(escape_internal("\"\"", true), "\"\"\"\"\"\"");
}

#[test]
fn quote_and_backslash_in_literal() {
    assert_eq!(escape_internal("\\'", false), " E'\\\\'''");
}

#[test]
fn non_ascii_text_is_copied() {
    assert_eq!(escape_internal("héllo wörld", false), "'héllo wörld'");
    assert_eq!(escape_internal("日本'語", false), "'日本''語'");
}

#[test]
fn control_characters_are_not_escaped() {
    assert_eq!(escape_internal("a\nb\0c", false), "'a\nb\0c'");
}

#[test]
fn round_trip_through_reader() {
    let inputs = ["", "abc", "O'Brien", "a\\b", "a\"b", "\\\\'\"x", "''\\", "日本'\\語"];
    for s in inputs {
        for as_ident in [false, true] {
            let out = escape_internal(s, as_ident);
            let n = out.chars().count();
            assert_eq!(read_token(&out, as_ident), Some((s.to_string(), n)));
        }
    }
}

#[test]
fn delimiter_count_doubles() {
    let s = "a'b''c\"d";
    let lit = escape_internal(s, false);
    assert_eq!(count(&lit, '\'') - 2, 2 * count(s, '\''));
    let id = escape_internal(s, true);
    assert_eq!(count(&id, '"') - 2, 2 * count(s, '"'));
}

#[test]
fn backslash_count_by_mode() {
    let s = "x\\y\\\\z";
    let id = escape_internal(s, true);
    assert_eq!(count(&id, '\\'), count(s, '\\'));
    assert!(id.starts_with('"'));
    let lit = escape_internal(s, false);
    assert_eq!(count(&lit, '\\'), 2 * count(s, '\\'));
    assert!(lit.starts_with(" E'"));
    assert!(!escape_internal("xyz", false).starts_with(' '));
}
