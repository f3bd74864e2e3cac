//! Message templates: patterns with positional placeholders such as `{0}`
//! or `{}`, and their interpolation with a list of arguments.

use vstd::prelude::*;
use crate::text::{
    chars_of, free_of, lemma_split_first, lemma_split_whole, split, split_chars, string_of, texts,
    views,
};

verus! {

/// Why a pattern could not be interpolated.
#[derive(Debug, Clone, Copy, PartialEq, Eq, Structural)]
pub enum FormatError {
    /// A brace of the pattern has no partner: a `{` that is never closed,
    /// a `{` inside a placeholder, or a `}` that closes nothing.
    UnmatchedCurlyBracket,
    /// A placeholder names no argument: what stands between its braces is
    /// not a number, or there is no argument at that index.
    InvalidPositionalArgument,
}

/// The character that opens a placeholder.
pub open spec fn opening() -> Seq<char> {
    seq!['{']
}

/// The character that closes a placeholder.
pub open spec fn closing() -> Seq<char> {
    seq!['}']
}

/// Whether `c` is one of the ten decimal digits.
pub open spec fn is_digit(c: char) -> bool {
    '0' <= c <= '9'
}

/// Whether `s` holds decimal digits only.
pub open spec fn all_digits(s: Seq<char>) -> bool {
    forall|i: int| 0 <= i < s.len() ==> is_digit(#[trigger] s[i])
}

/// The number that the decimal digits of `s` write; 0 for the empty sequence.
pub open spec fn decimal(s: Seq<char>) -> nat
    decreases s.len(),
{
    if s.len() == 0 {
        0
    } else {
        (decimal(s.drop_last()) * 10 + (s.last() as u32 - '0' as u32)) as nat
    }
}

/// The index of the argument that a placeholder asks for. `specifier` is
/// what stands between the braces and `position` is the index of the
/// placeholder's segment among the segments that `}` delimits. An empty
/// specifier means the position itself; digits mean the number they write;
/// anything else names no argument.
pub open spec fn argument_index(specifier: Seq<char>, position: nat) -> Option<nat> {
    if specifier.len() == 0 {
        Some(position)
    } else if all_digits(specifier) {
        Some(decimal(specifier))
    } else {
        None
    }
}

/// `tail` with `head` put in front of the text, where there is one.
pub open spec fn prefixed(head: Seq<char>, tail: Result<Seq<char>, FormatError>) -> Result<
    Seq<char>,
    FormatError,
> {
    match tail {
        Ok(t) => Ok(head + t),
        Err(e) => Err(e),
    }
}

/// The interpolation of the segments of a pattern, the first of which
/// stands at index `position`. Every segment but the last ends where a `}`
/// stood, so it must hold exactly one `{`: the literal text before it is
/// kept, and the argument that the specifier after it asks for takes the
/// placeholder's place. The last segment is literal text and holds no `{`.
/// The first segment that breaks these rules decides the error.
pub open spec fn render(segments: Seq<Seq<char>>, args: Seq<Seq<char>>, position: nat) -> Result<
    Seq<char>,
    FormatError,
>
    decreases segments.len(),
{
    if segments.len() == 0 {
        Ok(Seq::empty())
    } else {
        let parts = split(segments[0], opening());
        if segments.len() == 1 {
            if parts.len() == 1 {
                Ok(segments[0])
            } else {
                Err(FormatError::UnmatchedCurlyBracket)
            }
        } else if parts.len() != 2 {
            Err(FormatError::UnmatchedCurlyBracket)
        } else {
            match argument_index(parts[1], position) {
                Some(n) if n < args.len() => prefixed(
                    parts[0] + args[n as int],
                    render(segments.drop_first(), args, position + 1),
                ),
                _ => Err(FormatError::InvalidPositionalArgument),
            }
        }
    }
}

/// What interpolating `pattern` with `args` gives: the pattern is cut at
/// every `}` and the segments are rendered in order.
pub open spec fn format_spec(pattern: Seq<char>, args: Seq<Seq<char>>) -> Result<
    Seq<char>,
    FormatError,
> {
    render(split(pattern, closing()), args, 0)
}

/// The digits of a prefix write a number no greater than the digits of
/// the whole.
pub proof fn lemma_decimal_prefix(s: Seq<char>, k: int)
    requires
        all_digits(s),
        0 <= k <= s.len(),
    ensures
        decimal(s.take(k)) <= decimal(s),
    decreases s.len() - k,
{
    if k == s.len() {
        assert(s.take(k) == s);
    } else {
        lemma_decimal_prefix(s, k + 1);
        let t = s.take(k + 1);
        assert(t.drop_last() == s.take(k));
        assert(is_digit(t.last()));
    }
}

/// The argument index that a placeholder asks for, where it is below
/// `count`.
fn argument_at(specifier: &Vec<char>, position: usize, count: usize) -> (r: Option<usize>)
    ensures
        match argument_index(specifier@, position as nat) {
            Some(n) if n < count => r == Some(n as usize),
            _ => r.is_none(),
        },
{
    if specifier.len() == 0 {
        return if position < count {
            Some(position)
        } else {
            None
        };
    }
    let mut value: usize = 0;
    let mut i: usize = 0;
    while i < specifier.len()
        invariant
            i <= specifier.len(),
            all_digits(specifier@.take(i as int)),
            value == decimal(specifier@.take(i as int)),
            i > 0 ==> value < count,
        decreases specifier.len() - i,
    {
        let c = specifier[i];
        if !('0' <= c && c <= '9') {
            return None;
        }
        let digit: u128 = (c as u32 - '0' as u32) as u128;
        let next: u128 = value as u128 * 10 + digit;
        proof {
            let t = specifier@.take(i + 1);
            assert(t.drop_last() == specifier@.take(i as int));
            assert(t.last() == c);
            assert(next == decimal(t));
            assert forall|j: int| 0 <= j < t.len() implies is_digit(#[trigger] t[j]) by {
                if j < i {
                    assert(t[j] == specifier@.take(i as int)[j]);
                }
            }
            if all_digits(specifier@) {
                lemma_decimal_prefix(specifier@, i + 1);
            }
        }
        if next >= count as u128 {
            return None;
        }
        value = next as usize;
        i = i + 1;
    }
    assert(specifier@.take(i as int) == specifier@);
    Some(value)
}

/// Appends the characters of `more` to `out`.
fn append_chars(out: &mut Vec<char>, more: &Vec<char>)
    ensures
        final(out)@ == old(out)@ + more@,
{
    let mut i: usize = 0;
    while i < more.len()
        invariant
            i <= more.len(),
            out@ == old(out)@ + more@.take(i as int),
        decreases more.len() - i,
    {
        out.push(more[i]);
        i = i + 1;
    }
    assert(more@.take(i as int) == more@);
}

/// Interpolates `pattern` with `args`.
///
/// A placeholder is `{`, an optional decimal index, `}`. One with an index
/// is replaced by the argument at that index. One without is replaced by
/// the argument whose index is the number of `}` that stand before the
/// placeholder in the pattern. All other text is kept as it is. Arguments
/// that no placeholder asks for are ignored.
///
/// Fails with `UnmatchedCurlyBracket` where the braces do not pair up, and
/// with `InvalidPositionalArgument` where a placeholder's index is not a
/// decimal number or there is no such argument; the leftmost fault decides.
pub fn format(pattern: &str, args: &[&str]) -> (r: Result<String, FormatError>)
    ensures
        r matches Ok(s) ==> format_spec(pattern@, texts(args@)) == Ok::<Seq<char>, FormatError>(s@),
        r matches Err(e) ==> format_spec(pattern@, texts(args@)) == Err::<Seq<char>, FormatError>(e),
{
    let chars = chars_of(pattern);
    let close: Vec<char> = vec!['}'];
    let open: Vec<char> = vec!['{'];
    let segments = split_chars(&chars, &close);
    let mut out: Vec<char> = Vec::new();
    let mut i: usize = 0;
    proof {
        assert(close@ == closing());
        assert(open@ == opening());
        assert(views(segments@).skip(0) == views(segments@));
        let whole = render(views(segments@), texts(args@), 0);
        match whole {
            Ok(t) => {
                assert(out@ + t == t);
            },
            Err(_) => {},
        }
    }
    while i < segments.len()
        invariant
            i <= segments.len(),
            open@ == opening(),
            views(segments@) == split(pattern@, closing()),
            format_spec(pattern@, texts(args@)) == prefixed(
                out@,
                render(views(segments@).skip(i as int), texts(args@), i as nat),
            ),
        decreases segments.len() - i,
    {
        let ghost rest = views(segments@).skip(i as int);
        let ghost before = out@;
        proof {
            assert(rest[0] == segments@[i as int]@);
            assert(rest.drop_first() == views(segments@).skip(i + 1));
        }
        let parts = split_chars(&segments[i], &open);
        if i + 1 == segments.len() {
            if parts.len() != 1 {
                return Err(FormatError::UnmatchedCurlyBracket);
            }
            append_chars(&mut out, &segments[i]);
            proof {
                assert(out@ + Seq::<char>::empty() == out@);
            }
        } else {
            if parts.len() != 2 {
                return Err(FormatError::UnmatchedCurlyBracket);
            }
            match argument_at(&parts[1], i, args.len()) {
                None => {
                    return Err(FormatError::InvalidPositionalArgument);
                },
                Some(n) => {
                    append_chars(&mut out, &parts[0]);
                    let arg = chars_of(args[n]);
                    append_chars(&mut out, &arg);
                    proof {
                        let piece = views(parts@)[0] + texts(args@)[n as int];
                        assert(out@ == before + piece);
                        let tail = render(rest.drop_first(), texts(args@), (i + 1) as nat);
                        match tail {
                            Ok(t) => {
                                assert(before + (piece + t) == (before + piece) + t);
                            },
                            Err(_) => {},
                        }
                    }
                },
            }
        }
        i = i + 1;
    }
    proof {
        assert(out@ + Seq::<char>::empty() == out@);
    }
    Ok(string_of(&out))
}

/// Whether `c` is a brace.
pub open spec fn is_brace(c: char) -> bool {
    c == '{' || c == '}'
}

/// Whether `s` holds no brace.
pub open spec fn brace_free(s: Seq<char>) -> bool {
    forall|i: int| 0 <= i < s.len() ==> !is_brace(#[trigger] s[i])
}

/// The literals with the fillers between them: the first literal, the
/// first filler, the second literal, and so on to the last literal. There
/// is one literal more than there are fillers.
pub open spec fn weave(literals: Seq<Seq<char>>, fillers: Seq<Seq<char>>) -> Seq<char>
    decreases fillers.len(),
{
    if fillers.len() == 0 {
        literals[0]
    } else {
        literals[0] + fillers[0] + weave(literals.drop_first(), fillers.drop_first())
    }
}

/// The placeholders that hold the given specifiers between their braces.
pub open spec fn placeholders(specifiers: Seq<Seq<char>>) -> Seq<Seq<char>> {
    Seq::new(specifiers.len(), |i: int| seq!['{'] + specifiers[i] + seq!['}'])
}

/// Whether every specifier is empty or a decimal number, and names an
/// argument that exists; the first specifier stands at index `first`.
pub open spec fn well_indexed(specifiers: Seq<Seq<char>>, args: Seq<Seq<char>>, first: nat) -> bool {
    forall|i: int|
        0 <= i < specifiers.len() ==> all_digits(#[trigger] specifiers[i]) && argument_index(
            specifiers[i],
            (first + i) as nat,
        ).unwrap() < args.len()
}

/// The arguments that the specifiers ask for, in the order of the
/// specifiers; the first specifier stands at index `first`.
pub open spec fn chosen(specifiers: Seq<Seq<char>>, args: Seq<Seq<char>>, first: nat) -> Seq<
    Seq<char>,
> {
    Seq::new(
        specifiers.len(),
        |i: int| args[argument_index(specifiers[i], (first + i) as nat).unwrap() as int],
    )
}

/// A pattern without braces is its own interpolation, whatever the
/// arguments are.
pub proof fn lemma_plain_text_unchanged(pattern: Seq<char>, args: Seq<Seq<char>>)
    requires
        brace_free(pattern),
    ensures
        format_spec(pattern, args) == Ok::<Seq<char>, FormatError>(pattern),
{
    lemma_brace_free(pattern);
    lemma_split_whole(pattern, closing());
    lemma_split_whole(pattern, opening());
}

/// Text without braces holds neither separator of the template syntax.
proof fn lemma_brace_free(s: Seq<char>)
    requires
        brace_free(s),
    ensures
        free_of(s, opening()),
        free_of(s, closing()),
{
    assert forall|i: int| 0 <= i < s.len() implies !opening().contains(#[trigger] s[i]) by {
        assert(!is_brace(s[i]));
    }
    assert forall|i: int| 0 <= i < s.len() implies !closing().contains(#[trigger] s[i]) by {
        assert(!is_brace(s[i]));
    }
}

/// Digits hold neither separator of the template syntax.
proof fn lemma_digits_brace_free(s: Seq<char>)
    requires
        all_digits(s),
    ensures
        brace_free(s),
{
    assert forall|i: int| 0 <= i < s.len() implies !is_brace(#[trigger] s[i]) by {
        assert(is_digit(s[i]));
    }
}

/// The segments of a woven pattern, rendered from index `first` on, give
/// the literals woven with the chosen arguments.
proof fn lemma_render_woven(
    literals: Seq<Seq<char>>,
    specifiers: Seq<Seq<char>>,
    args: Seq<Seq<char>>,
    first: nat,
)
    requires
        literals.len() == specifiers.len() + 1,
        forall|i: int| 0 <= i < literals.len() ==> brace_free(#[trigger] literals[i]),
        well_indexed(specifiers, args, first),
    ensures
        render(split(weave(literals, placeholders(specifiers)), closing()), args, first) == Ok::<
            Seq<char>,
            FormatError,
        >(weave(literals, chosen(specifiers, args, first))),
    decreases specifiers.len(),
{
    let pattern = weave(literals, placeholders(specifiers));
    let head = literals[0];
    lemma_brace_free(head);
    if specifiers.len() == 0 {
        lemma_split_whole(head, closing());
        lemma_split_whole(head, opening());
    } else {
        let specifier = specifiers[0];
        let later_literals = literals.drop_first();
        let later = specifiers.drop_first();
        let tail = weave(later_literals, placeholders(later));
        assert(placeholders(specifiers).drop_first() == placeholders(later));
        assert(chosen(specifiers, args, first).drop_first() == chosen(later, args, first + 1));
        assert forall|i: int| 0 <= i < later_literals.len() implies brace_free(
            #[trigger] later_literals[i],
        ) by {
            assert(later_literals[i] == literals[i + 1]);
        }
        assert forall|i: int| 0 <= i < later.len() implies all_digits(#[trigger] later[i])
            && argument_index(later[i], (first + 1 + i) as nat).unwrap() < args.len() by {
            assert(later[i] == specifiers[i + 1]);
        }
        lemma_render_woven(later_literals, later, args, first + 1);

        assert(all_digits(specifier));
        lemma_digits_brace_free(specifier);
        lemma_brace_free(specifier);
        // The first segment ends at the first placeholder's closing brace.
        let segment = head + seq!['{'] + specifier;
        assert(free_of(segment, closing())) by {
            assert forall|i: int| 0 <= i < segment.len() implies !closing().contains(
                #[trigger] segment[i],
            ) by {
                if i < head.len() {
                    assert(segment[i] == head[i]);
                } else if i > head.len() {
                    assert(segment[i] == specifier[i - head.len() - 1]);
                }
            }
        }
        assert(pattern == segment + seq!['}'] + tail);
        assert(closing().contains('}')) by {
            assert(closing()[0] == '}');
        }
        lemma_split_first(segment, '}', tail, closing());
        let segments = split(pattern, closing());
        let others = split(tail, closing());
        assert(others.len() >= 1);
        assert(segments[0] == segment);
        assert(segments.drop_first() == others);
        // The segment holds the literal, the opening brace and the specifier.
        assert(opening().contains('{')) by {
            assert(opening()[0] == '{');
        }
        lemma_split_first(head, '{', specifier, opening());
        lemma_split_whole(specifier, opening());
        let parts = split(segment, opening());
        assert(parts == seq![head, specifier]);
        let n = argument_index(specifier, first).unwrap();
        assert(n < args.len());
        assert(chosen(specifiers, args, first)[0] == args[n as int]);
        assert(placeholders(specifiers)[0] == seq!['{'] + specifier + seq!['}']);
        let rest = weave(later_literals, chosen(later, args, first + 1));
        assert(head + args[n as int] + rest == weave(literals, chosen(specifiers, args, first)));
    }
}

/// Every placeholder of a well-formed pattern is replaced by the argument
/// it asks for, and the text around the placeholders is kept as it is.
///
/// The pattern is given by its parts: literals without braces, and between
/// each two of them a placeholder whose specifier is empty or a decimal
/// number that names an argument of `args`. Its interpolation succeeds, and
/// gives the same literals with the named arguments between them.
pub proof fn lemma_placeholders_filled(
    literals: Seq<Seq<char>>,
    specifiers: Seq<Seq<char>>,
    args: Seq<Seq<char>>,
)
    requires
        literals.len() == specifiers.len() + 1,
        forall|i: int| 0 <= i < literals.len() ==> brace_free(#[trigger] literals[i]),
        well_indexed(specifiers, args, 0),
    ensures
        format_spec(weave(literals, placeholders(specifiers)), args) == Ok::<
            Seq<char>,
            FormatError,
        >(weave(literals, chosen(specifiers, args, 0))),
{
    lemma_render_woven(literals, specifiers, args, 0);
}

} // verus!
