//! A reader for one quoted SQL token, and what it reads back from the
//! output of the escaper.
use vstd::prelude::*;
use crate::model::{
    count_of, escaped, escaped_payload, escape_prefix, has_escape_prefix, is_doubled, quote_of,
};

verus! {

/// Reads the body of a quoted token, the text after its opening delimiter.
/// A doubled delimiter stands for one delimiter and a single one closes the
/// token. Where `backslash_escapes` holds (an escape string, ` E'...'`), a
/// doubled backslash stands for one backslash; any other backslash sequence
/// is beyond this reader. Yields the text the token denotes and how many
/// characters the body takes up, the closing delimiter included; `None`
/// where the body never closes or holds a sequence beyond this reader.
pub open spec fn read_body(t: Seq<char>, q: char, backslash_escapes: bool) -> Option<
    (Seq<char>, nat),
>
    decreases t.len(),
{
    if t.len() == 0 {
        None
    } else if t[0] == q {
        if t.len() >= 2 && t[1] == q {
            match read_body(t.subrange(2, t.len() as int), q, backslash_escapes) {
                Some((v, n)) => Some((seq![q] + v, n + 2)),
                None => None,
            }
        } else {
            Some((Seq::empty(), 1))
        }
    } else if backslash_escapes && t[0] == '\\' {
        if t.len() >= 2 && t[1] == '\\' {
            match read_body(t.subrange(2, t.len() as int), q, backslash_escapes) {
                Some((v, n)) => Some((seq!['\\'] + v, n + 2)),
                None => None,
            }
        } else {
            None
        }
    } else {
        match read_body(t.drop_first(), q, backslash_escapes) {
            Some((v, n)) => Some((seq![t[0]] + v, n + 1)),
            None => None,
        }
    }
}

/// Reads one token from the start of `t`: a quoted identifier when
/// `as_ident`, else a string literal, plain (`'...'`) or in the
/// escape-string form (` E'...'`). Yields the text the token denotes and the
/// number of characters it spans.
pub open spec fn lex_token(t: Seq<char>, as_ident: bool) -> Option<(Seq<char>, nat)> {
    if !as_ident && t.len() >= 3 && t[0] == ' ' && t[1] == 'E' && t[2] == '\'' {
        match read_body(t.subrange(3, t.len() as int), '\'', true) {
            Some((v, n)) => Some((v, n + 3)),
            None => None,
        }
    } else if t.len() >= 1 && t[0] == quote_of(as_ident) {
        match read_body(t.drop_first(), quote_of(as_ident), false) {
            Some((v, n)) => Some((v, n + 1)),
            None => None,
        }
    } else {
        None
    }
}

/// The payload of a text that starts with `c`: the piece for `c`, then the
/// payload of the rest.
proof fn lemma_payload_cons(c: char, s: Seq<char>, as_ident: bool)
    ensures
        escaped_payload(seq![c] + s, as_ident) == (if is_doubled(c, as_ident) {
            seq![c, c]
        } else {
            seq![c]
        }) + escaped_payload(s, as_ident),
    decreases s.len(),
{
    if s.len() > 0 {
        let first = if is_doubled(c, as_ident) {
            seq![c, c]
        } else {
            seq![c]
        };
        let x = s.last();
        let last = if is_doubled(x, as_ident) {
            seq![x, x]
        } else {
            seq![x]
        };
        assert((seq![c] + s).drop_last() =~= seq![c] + s.drop_last());
        assert((seq![c] + s).last() == x);
        lemma_payload_cons(c, s.drop_last(), as_ident);
        assert((first + escaped_payload(s.drop_last(), as_ident)) + last =~= first + (
        escaped_payload(s.drop_last(), as_ident) + last));
    } else {
        let first = if is_doubled(c, as_ident) {
            seq![c, c]
        } else {
            seq![c]
        };
        assert(seq![c] + s =~= seq![c]);
        assert(seq![c].drop_last() =~= Seq::<char>::empty());
        assert(seq![c].last() == c);
        assert(escaped_payload(seq![c].drop_last(), as_ident) =~= Seq::<char>::empty());
        assert(escaped_payload(seq![c], as_ident) =~= Seq::<char>::empty() + first);
        assert(escaped_payload(seq![c], as_ident) =~= first);
        assert(first + escaped_payload(s, as_ident) =~= first);
    }
}

/// The body reader takes back the payload and its closing delimiter
/// exactly.
proof fn lemma_read_payload(s: Seq<char>, as_ident: bool, backslash_escapes: bool)
    requires
        backslash_escapes ==> !as_ident,
        !as_ident && !backslash_escapes ==> !s.contains('\\'),
    ensures
        read_body(
            escaped_payload(s, as_ident) + seq![quote_of(as_ident)],
            quote_of(as_ident),
            backslash_escapes,
        ) == Some((s, escaped_payload(s, as_ident).len() + 1)),
    decreases s.len(),
{
    let q = quote_of(as_ident);
    let t = escaped_payload(s, as_ident) + seq![q];
    if s.len() == 0 {
        assert(t =~= seq![q]);
    } else {
        let c = s[0];
        let rest = s.drop_first();
        assert(s =~= seq![c] + rest);
        lemma_payload_cons(c, rest, as_ident);
        if !as_ident && !backslash_escapes {
            assert(!rest.contains('\\')) by {
                if rest.contains('\\') {
                    let i = choose|i: int| 0 <= i < rest.len() && rest[i] == '\\';
                    assert(s[i + 1] == '\\');
                }
            }
            assert(c != '\\') by {
                if c == '\\' {
                    assert(s[0] == '\\');
                }
            }
        }
        lemma_read_payload(rest, as_ident, backslash_escapes);
        let tail = escaped_payload(rest, as_ident) + seq![q];
        if is_doubled(c, as_ident) {
            assert(t =~= seq![c, c] + tail);
            assert(t.subrange(2, t.len() as int) =~= tail);
        } else {
            assert(t =~= seq![c] + tail);
            assert(t.drop_first() =~= tail);
        }
    }
}

/// Reading the escaped text of `s` back as a token yields exactly `s`: the
/// encoding loses and adds nothing.
pub proof fn lemma_round_trip(s: Seq<char>, as_ident: bool)
    ensures
        lex_token(escaped(s, as_ident), as_ident) is Some,
        (lex_token(escaped(s, as_ident), as_ident)->0).0 == s,
{
    lemma_token_spans_output(s, as_ident);
}

/// The escaped text of `s` is one whole token: the reader closes it at the
/// last character, so nothing of the input can end the token early, leave it
/// open, or stand after it.
pub proof fn lemma_single_token(s: Seq<char>, as_ident: bool)
    ensures
        lex_token(escaped(s, as_ident), as_ident) is Some,
        (lex_token(escaped(s, as_ident), as_ident)->0).1 == escaped(s, as_ident).len(),
{
    lemma_token_spans_output(s, as_ident);
}

proof fn lemma_token_spans_output(s: Seq<char>, as_ident: bool)
    ensures
        lex_token(escaped(s, as_ident), as_ident) == Some((s, escaped(s, as_ident).len())),
{
    let q = quote_of(as_ident);
    let t = escaped(s, as_ident);
    let body = escaped_payload(s, as_ident) + seq![q];
    if has_escape_prefix(s, as_ident) {
        assert(t =~= seq![' ', 'E', '\''] + body);
        assert(t.subrange(3, t.len() as int) =~= body);
        lemma_read_payload(s, as_ident, true);
    } else {
        assert(t =~= seq![q] + body);
        assert(t.drop_first() =~= body);
        lemma_read_payload(s, as_ident, false);
    }
}

} // verus!
