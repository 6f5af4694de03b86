//! The mathematical description of the escaped text.
use vstd::prelude::*;

verus! {

/// The character that opens and closes the token: `"` for an identifier,
/// `'` for a string literal.
pub open spec fn quote_of(as_ident: bool) -> char {
    if as_ident { '"' } else { '\'' }
}

/// Whether `c` is written twice inside the token. Only the token's own
/// delimiter is doubled in an identifier; a literal doubles its delimiter
/// and the backslash.
pub open spec fn is_doubled(c: char, as_ident: bool) -> bool {
    c == quote_of(as_ident) || (!as_ident && c == '\\')
}

/// How many times `c` occurs in `s`.
pub open spec fn count_of(s: Seq<char>, c: char) -> nat
    decreases s.len(),
{
    if s.len() == 0 {
        0
    } else {
        count_of(s.drop_last(), c) + if s.last() == c { 1nat } else { 0nat }
    }
}

/// The text between the delimiters: every character of `s` in order, those
/// that `is_doubled` selects written twice.
pub open spec fn escaped_payload(s: Seq<char>, as_ident: bool) -> Seq<char>
    decreases s.len(),
{
    if s.len() == 0 {
        Seq::empty()
    } else {
        let c = s.last();
        escaped_payload(s.drop_last(), as_ident) + if is_doubled(c, as_ident) {
            seq![c, c]
        } else {
            seq![c]
        }
    }
}

/// Whether the token starts with the escape-string marker ` E`: only a
/// literal of a text that holds a backslash does.
pub open spec fn has_escape_prefix(s: Seq<char>, as_ident: bool) -> bool {
    !as_ident && s.contains('\\')
}

/// The marker written before the opening delimiter.
pub open spec fn escape_prefix(s: Seq<char>, as_ident: bool) -> Seq<char> {
    if has_escape_prefix(s, as_ident) {
        seq![' ', 'E']
    } else {
        Seq::empty()
    }
}

/// The whole token for `s`: marker, opening delimiter, payload, closing
/// delimiter.
pub open spec fn escaped(s: Seq<char>, as_ident: bool) -> Seq<char> {
    escape_prefix(s, as_ident) + seq![quote_of(as_ident)] + escaped_payload(s, as_ident) + seq![
        quote_of(as_ident),
    ]
}

/// `count_of` is positive exactly when the character occurs.
pub(crate) proof fn lemma_count_positive(s: Seq<char>, c: char)
    ensures
        count_of(s, c) > 0 <==> s.contains(c),
    decreases s.len(),
{
    if s.len() > 0 {
        lemma_count_positive(s.drop_last(), c);
        if s.drop_last().contains(c) {
            let i = choose|i: int| 0 <= i < s.drop_last().len() && s.drop_last()[i] == c;
            assert(s[i] == c);
        }
        if s.contains(c) && s.last() != c {
            let i = choose|i: int| 0 <= i < s.len() && s[i] == c;
            assert(s.drop_last()[i] == c);
        }
    }
}

/// Where no character is doubled, the payload is the text itself.
pub(crate) proof fn lemma_payload_verbatim(s: Seq<char>, as_ident: bool)
    requires
        forall|i: int| 0 <= i < s.len() ==> !is_doubled(#[trigger] s[i], as_ident),
    ensures
        escaped_payload(s, as_ident) == s,
    decreases s.len(),
{
    if s.len() > 0 {
        let t = s.drop_last();
        assert forall|i: int| 0 <= i < t.len() implies !is_doubled(#[trigger] t[i], as_ident) by {
            assert(t[i] == s[i]);
        }
        lemma_payload_verbatim(t, as_ident);
        assert(s == t.push(s.last()));
    }
}

/// The first `i + 1` characters are the first `i` and the one at `i`.
pub(crate) proof fn lemma_take_step(s: Seq<char>, i: int)
    requires
        0 <= i < s.len(),
    ensures
        s.take(i + 1).drop_last() == s.take(i),
        s.take(i + 1).last() == s[i],
{
    assert(s.take(i + 1).drop_last() =~= s.take(i));
}

/// Counting over a concatenation adds the counts of the parts.
proof fn lemma_count_concat(a: Seq<char>, b: Seq<char>, c: char)
    ensures
        count_of(a + b, c) == count_of(a, c) + count_of(b, c),
    decreases b.len(),
{
    if b.len() == 0 {
        assert(a + b =~= a);
    } else {
        assert((a + b).drop_last() =~= a + b.drop_last());
        assert((a + b).last() == b.last());
        lemma_count_concat(a, b.drop_last(), c);
    }
}

/// Each occurrence of `c` in the text gives two in the payload where `c` is
/// doubled, else one.
proof fn lemma_payload_count(s: Seq<char>, as_ident: bool, c: char)
    ensures
        count_of(escaped_payload(s, as_ident), c) == if is_doubled(c, as_ident) {
            2 * count_of(s, c)
        } else {
            count_of(s, c)
        },
    decreases s.len(),
{
    if s.len() > 0 {
        let x = s.last();
        let piece = if is_doubled(x, as_ident) {
            seq![x, x]
        } else {
            seq![x]
        };
        lemma_payload_count(s.drop_last(), as_ident, c);
        lemma_count_concat(escaped_payload(s.drop_last(), as_ident), piece, c);
        assert(seq![x, x].drop_last() =~= seq![x]);
        assert(seq![x].drop_last() =~= Seq::<char>::empty());
        assert(count_of(Seq::<char>::empty(), c) == 0);
        assert(seq![x].last() == x);
        assert(count_of(seq![x], c) == if x == c { 1nat } else { 0nat });
        assert(seq![x, x].last() == x);
    }
}

/// The payload holds exactly twice as many delimiters as the text: each
/// one is doubled, and none is added or lost.
pub proof fn lemma_delimiter_doubled(s: Seq<char>, as_ident: bool)
    ensures
        count_of(escaped_payload(s, as_ident), quote_of(as_ident)) == 2 * count_of(
            s,
            quote_of(as_ident),
        ),
{
    lemma_payload_count(s, as_ident, quote_of(as_ident));
}

/// Backslashes are doubled in a literal and kept as they are in an
/// identifier; the token starts with the ` E` marker exactly when it is a
/// literal and the text holds a backslash.
pub proof fn lemma_backslash_handling(s: Seq<char>, as_ident: bool)
    ensures
        count_of(escaped_payload(s, as_ident), '\\') == if as_ident {
            count_of(s, '\\')
        } else {
            2 * count_of(s, '\\')
        },
        (escaped(s, as_ident).len() >= 2 && escaped(s, as_ident)[0] == ' ' && escaped(
            s,
            as_ident,
        )[1] == 'E') <==> (!as_ident && s.contains('\\')),
{
    lemma_payload_count(s, as_ident, '\\');
    let t = escaped(s, as_ident);
    if has_escape_prefix(s, as_ident) {
        assert(t[0] == ' ' && t[1] == 'E');
    } else {
        assert(t[0] == quote_of(as_ident));
    }
}

} // verus!
