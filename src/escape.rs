//! Building the quoted token.
use vstd::prelude::*;
use vstd::string::StringExecFns;
use vstd::utf8::encode_utf8;
use crate::model::{
    count_of, escaped, escaped_payload, escape_prefix, is_doubled, lemma_count_positive,
    lemma_payload_verbatim, lemma_take_step, quote_of,
};

verus! {

/// Relies on `String::with_capacity`: the new string is empty.
pub assume_specification[ String::with_capacity ](capacity: usize) -> (r: String)
    ensures
        r@ == Seq::<char>::empty(),
;

/// Relies on `String::push`: the character is appended at the end.
pub assume_specification[ String::push ](s: &mut String, ch: char)
    ensures
        final(s)@ == old(s)@.push(ch),
;

/// A UTF-8 encoding holds at least one byte per character.
proof fn lemma_utf8_len(chars: Seq<char>)
    ensures
        chars.len() <= encode_utf8(chars).len(),
    decreases chars.len(),
{
    if chars.len() > 0 {
        lemma_utf8_len(chars.drop_first());
    }
}

fn quote_char(as_ident: bool) -> (q: char)
    ensures
        q == quote_of(as_ident),
{
    if as_ident { '"' } else { '\'' }
}

/// Quotes `input` as one SQL token: a quoted identifier when `as_ident`,
/// else a string literal. The delimiter is doubled wherever it occurs; in a
/// literal the backslash is doubled too, and a literal that holds a
/// backslash is written in the escape-string form ` E'...'`.
pub fn escape_internal(input: &str, as_ident: bool) -> (output: String)
    ensures
        output@ == escaped(input@, as_ident),
{
    let quote_char = quote_char(as_ident);
    let n_bytes = input.as_bytes().len();
    proof {
        lemma_utf8_len(input@);
    }
    let mut num_backslashes: usize = 0;
    let mut num_quotes: usize = 0;

    // Count the characters that must be escaped.
    for ch in it: input.chars()
        invariant
            it.seq() == input@,
            input@.len() <= n_bytes,
            quote_char == quote_of(as_ident),
            num_quotes == count_of(input@.take(it.index()), quote_char),
            num_backslashes == count_of(input@.take(it.index()), '\\'),
            num_quotes + num_backslashes <= it.index(),
    {
        proof {
            lemma_take_step(input@, it.index());
        }
        if ch == quote_char {
            num_quotes += 1;
        } else if ch == '\\' {
            num_backslashes += 1;
        }
    }
    assert(input@.take(input@.len() as int) == input@);
    proof {
        lemma_count_positive(input@, quote_char);
        lemma_count_positive(input@, '\\');
    }

    // Room for the two delimiters and one spare character, and in the
    // escape-string form for the marker and the doubled backslashes.
    let mut result_size = n_bytes.saturating_add(num_quotes).saturating_add(3);
    if !as_ident && num_backslashes > 0 {
        result_size = result_size.saturating_add(num_backslashes).saturating_add(2);
    }
    let mut output = String::with_capacity(result_size);

    // A literal that holds a backslash takes the escape-string form, which
    // reads the same whatever the server's standard_conforming_strings; the
    // leading space keeps the marker apart from an identifier written just
    // before the token.
    if !as_ident && num_backslashes > 0 {
        output.push(' ');
        output.push('E');
    }
    output.push(quote_char);
    let ghost head = escape_prefix(input@, as_ident) + seq![quote_of(as_ident)];
    assert(output@ == head);

    if num_quotes == 0 && (num_backslashes == 0 || as_ident) {
        // Nothing to double: copy the text as it is.
        proof {
            assert forall|i: int| 0 <= i < input@.len() implies !is_doubled(
                #[trigger] input@[i],
                as_ident,
            ) by {
                if input@[i] == quote_char {
                    assert(input@.contains(quote_char));
                }
                if !as_ident && input@[i] == '\\' {
                    assert(input@.contains('\\'));
                }
            }
            lemma_payload_verbatim(input@, as_ident);
        }
        output.append(input);
    } else {
        for ch in it: input.chars()
            invariant
                it.seq() == input@,
                quote_char == quote_of(as_ident),
                output@ == head + escaped_payload(input@.take(it.index()), as_ident),
        {
            proof {
                lemma_take_step(input@, it.index());
            }
            if ch == quote_char || (!as_ident && ch == '\\') {
                output.push(ch);
            }
            output.push(ch);
        }
        assert(input@.take(input@.len() as int) == input@);
    }
    output.push(quote_char);
    output
}

} // verus!
