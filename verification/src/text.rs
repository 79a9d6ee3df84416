//! Text as sequences of characters: searching, splitting, trimming, and the
//! notations of numbers.

use vstd::prelude::*;

verus! {

// ---------------------------------------------------------------------------
// What the functions below compute
// ---------------------------------------------------------------------------

/// `p` stands in `s` at position `i`.
pub open spec fn occurs_at(s: Seq<char>, p: Seq<char>, i: int) -> bool {
    0 <= i && i + p.len() <= s.len() && s.subrange(i, i + p.len()) == p
}

/// The first position of `p` in `s`, at `i` or later.
pub open spec fn find_from(s: Seq<char>, p: Seq<char>, i: int) -> Option<int>
    decreases s.len() + 1 - i,
{
    if i < 0 || i + p.len() > s.len() {
        None
    } else if occurs_at(s, p, i) {
        Some(i)
    } else {
        find_from(s, p, i + 1)
    }
}

/// The first position of `p` in `s`.
pub open spec fn first_position(s: Seq<char>, p: Seq<char>) -> Option<int> {
    find_from(s, p, 0)
}

/// The first position of the character `c` in `s`, at `i` or later.
pub open spec fn char_from(s: Seq<char>, c: char, i: int) -> Option<int>
    decreases s.len() - i,
{
    if i < 0 || i >= s.len() {
        None
    } else if s[i] == c {
        Some(i)
    } else {
        char_from(s, c, i + 1)
    }
}

/// `s` begins with `p`.
pub open spec fn begins_with(s: Seq<char>, p: Seq<char>) -> bool {
    occurs_at(s, p, 0)
}

/// `s` ends in `p`.
pub open spec fn finishes_with(s: Seq<char>, p: Seq<char>) -> bool {
    p.len() <= s.len() && s.subrange(s.len() - p.len(), s.len() as int) == p
}

/// The characters that Unicode calls white space.
pub open spec fn is_white(c: char) -> bool {
    let u = c as u32;
    ||| 0x9 <= u <= 0xd
    ||| u == 0x20
    ||| u == 0x85
    ||| u == 0xa0
    ||| u == 0x1680
    ||| 0x2000 <= u <= 0x200a
    ||| u == 0x2028
    ||| u == 0x2029
    ||| u == 0x202f
    ||| u == 0x205f
    ||| u == 0x3000
}

/// `s` without the white space at its beginning.
pub open spec fn without_leading_white(s: Seq<char>) -> Seq<char>
    decreases s.len(),
{
    if s.len() > 0 && is_white(s[0]) {
        without_leading_white(s.skip(1))
    } else {
        s
    }
}

/// `s` without the white space at its end.
pub open spec fn without_trailing_white(s: Seq<char>) -> Seq<char>
    decreases s.len(),
{
    if s.len() > 0 && is_white(s.last()) {
        without_trailing_white(s.drop_last())
    } else {
        s
    }
}

/// `s` without the white space at both ends.
pub open spec fn trimmed(s: Seq<char>) -> Seq<char> {
    without_trailing_white(without_leading_white(s))
}

/// A line's content: a carriage return before the line feed belongs to the
/// line ending.
pub open spec fn without_return(s: Seq<char>) -> Seq<char> {
    if s.len() > 0 && s.last() == '\r' {
        s.drop_last()
    } else {
        s
    }
}

/// The lines of a text. A line ends at a line feed, with or without a carriage
/// return before it; the last line needs no ending.
pub open spec fn lines_of(s: Seq<char>) -> Seq<Seq<char>>
    decreases s.len(),
{
    if s.len() == 0 {
        seq![]
    } else {
        match char_from(s, '\n', 0) {
            Some(i) => if 0 <= i < s.len() {
                seq![without_return(s.take(i))] + lines_of(s.skip(i + 1))
            } else {
                seq![s]
            },
            None => seq![s],
        }
    }
}

/// The pieces of a text between the occurrences of a character.
pub open spec fn split_at_char(s: Seq<char>, c: char) -> Seq<Seq<char>>
    decreases s.len(),
{
    match char_from(s, c, 0) {
        Some(i) => if 0 <= i < s.len() {
            seq![s.take(i)] + split_at_char(s.skip(i + 1), c)
        } else {
            seq![s]
        },
        None => seq![s],
    }
}

/// The lines, each followed by a line feed.
pub open spec fn with_line_feeds(lines: Seq<Seq<char>>) -> Seq<char>
    decreases lines.len(),
{
    if lines.len() == 0 {
        seq![]
    } else {
        with_line_feeds(lines.drop_last()) + lines.last().push('\n')
    }
}

/// The lines put together to a text that ends in a line feed exactly where
/// `text` does.
pub open spec fn assemble(lines: Seq<Seq<char>>, text: Seq<char>) -> Seq<char> {
    let joined = with_line_feeds(lines);
    if joined.len() > 0 && !finishes_with(text, seq!['\n']) {
        joined.drop_last()
    } else {
        joined
    }
}

/// The endings of a text's lines: a line feed, with a carriage return before it or
/// without, or nothing where the last line has none.
pub open spec fn endings_of(s: Seq<char>) -> Seq<Seq<char>>
    decreases s.len(),
{
    if s.len() == 0 {
        seq![]
    } else {
        match char_from(s, '\n', 0) {
            Some(i) => if 0 <= i < s.len() {
                seq![
                    if i > 0 && s[i - 1] == '\r' {
                        seq!['\r', '\n']
                    } else {
                        seq!['\n']
                    },
                ] + endings_of(s.skip(i + 1))
            } else {
                seq![seq![]]
            },
            None => seq![seq![]],
        }
    }
}

/// The lines, each followed by its ending.
pub open spec fn with_endings(lines: Seq<Seq<char>>, endings: Seq<Seq<char>>) -> Seq<char>
    decreases lines.len(),
{
    if lines.len() == 0 {
        seq![]
    } else {
        lines[0] + endings[0] + with_endings(lines.skip(1), endings.skip(1))
    }
}

/// The lines that lines with these endings split into again: a carriage return at
/// a line's end goes with a mere line feed behind it.
pub open spec fn split_at_endings(lines: Seq<Seq<char>>, endings: Seq<Seq<char>>) -> Seq<
    Seq<char>,
> {
    Seq::new(
        lines.len(),
        |k: int|
            if endings[k] == seq!['\n'] {
                without_return(lines[k])
            } else {
                lines[k]
            },
    )
}

/// Endings that lines can have: each but the last ends its line, and the last may be
/// missing.
pub open spec fn are_endings(endings: Seq<Seq<char>>) -> bool {
    forall|k: int|
        0 <= k < endings.len() ==> #[trigger] endings[k] == seq!['\n'] || endings[k] == seq![
            '\r',
            '\n',
        ] || (k + 1 == endings.len() && endings[k] == Seq::<char>::empty())
}

/// No line feed stands in this text.
pub open spec fn has_no_line_feed(s: Seq<char>) -> bool {
    forall|i: int| 0 <= i < s.len() ==> #[trigger] s[i] != '\n'
}

/// The lines that a text of lines splits into again: a carriage return at a
/// line's end goes with the line feed behind it.
pub open spec fn split_again(ls: Seq<Seq<char>>, text: Seq<char>) -> Seq<Seq<char>> {
    Seq::new(
        ls.len(),
        |k: int|
            if k + 1 == ls.len() && !finishes_with(text, seq!['\n']) {
                ls[k]
            } else {
                without_return(ls[k])
            },
    )
}

/// The parts of a list of texts with a separator between each two.
pub open spec fn joined_with(parts: Seq<Seq<char>>, sep: Seq<char>) -> Seq<char>
    decreases parts.len(),
{
    if parts.len() == 0 {
        seq![]
    } else if parts.len() == 1 {
        parts[0]
    } else {
        joined_with(parts.drop_last(), sep) + sep + parts.last()
    }
}

/// The digit for `d`, up to base 16.
pub open spec fn digit(d: int) -> char {
    "0123456789abcdef"@[d]
}

/// The decimal notation of a number.
pub open spec fn decimal(n: nat) -> Seq<char>
    decreases n,
{
    if n < 10 {
        seq![digit(n as int)]
    } else {
        decimal(n / 10).push(digit((n % 10) as int))
    }
}

/// The decimal notation of a number that may be negative.
pub open spec fn signed_decimal(n: int) -> Seq<char> {
    if n < 0 {
        "-"@ + decimal((-n) as nat)
    } else {
        decimal(n as nat)
    }
}

/// The path of a file in a directory; a name that is a path from the root stands
/// for itself.
pub open spec fn path_in(dir: Seq<char>, name: Seq<char>) -> Seq<char> {
    if name.len() > 0 && name[0] == '/' {
        name
    } else if dir.len() == 0 || dir.last() == '/' {
        dir + name
    } else {
        dir + "/"@ + name
    }
}

/// The hexadecimal notation of a number, in lower case.
pub open spec fn hexadecimal(n: nat) -> Seq<char>
    decreases n,
{
    if n < 16 {
        seq![digit(n as int)]
    } else {
        hexadecimal(n / 16).push(digit((n % 16) as int))
    }
}

pub open spec fn is_decimal_digit(c: char) -> bool {
    0x30 <= c as u32 <= 0x39
}

/// Every character is a decimal digit.
pub open spec fn all_digits(s: Seq<char>) -> bool {
    forall|i: int| 0 <= i < s.len() ==> is_decimal_digit(#[trigger] s[i])
}

/// The number that a sequence of decimal digits denotes.
pub open spec fn number_of(s: Seq<char>) -> nat
    decreases s.len(),
{
    if s.len() == 0 {
        0
    } else {
        number_of(s.drop_last()) * 10 + ((s.last() as u32) - 0x30) as nat
    }
}

/// The unsigned number that a text denotes: digits, with at most one plus sign
/// before them, whose number fits.
pub open spec fn unsigned_of(s: Seq<char>) -> Option<u64> {
    let digits = if s.len() > 0 && s[0] == '+' { s.skip(1) } else { s };
    if digits.len() > 0 && all_digits(digits) && number_of(digits) <= u64::MAX {
        Some(number_of(digits) as u64)
    } else {
        None
    }
}

/// The contents of a list of strings.
pub open spec fn texts(v: Seq<String>) -> Seq<Seq<char>> {
    v.map_values(|s: String| s@)
}

/// What a list of strings holds at a place is the content of the string there.
pub proof fn lemma_text_at(v: Seq<String>, i: int)
    requires
        0 <= i < v.len(),
    ensures
        texts(v)[i] == v[i]@,
{
}

// ---------------------------------------------------------------------------
// Facts about the above
// ---------------------------------------------------------------------------

/// What `find_from` finds is an occurrence, and none comes before it.
pub proof fn lemma_find_from(s: Seq<char>, p: Seq<char>, i: int)
    requires
        0 <= i,
    ensures
        match find_from(s, p, i) {
            Some(k) => i <= k && occurs_at(s, p, k) && forall|j: int|
                i <= j < k ==> !occurs_at(s, p, j),
            None => forall|j: int| i <= j ==> !occurs_at(s, p, j),
        },
    decreases s.len() + 1 - i,
{
    if i + p.len() > s.len() {
    } else if occurs_at(s, p, i) {
    } else {
        lemma_find_from(s, p, i + 1);
    }
}

/// What `char_from` finds is that character, and it does not come before.
pub proof fn lemma_char_from(s: Seq<char>, c: char, i: int)
    requires
        0 <= i,
    ensures
        match char_from(s, c, i) {
            Some(k) => i <= k < s.len() && s[k] == c && forall|j: int|
                i <= j < k ==> s[j] != c,
            None => forall|j: int| i <= j < s.len() ==> s[j] != c,
        },
    decreases s.len() - i,
{
    if i >= s.len() {
    } else if s[i] == c {
    } else {
        lemma_char_from(s, c, i + 1);
    }
}

/// No line of a text holds a line feed.
pub proof fn lemma_lines_hold_no_line_feed(s: Seq<char>)
    ensures
        forall|k: int, j: int|
            0 <= k < lines_of(s).len() && 0 <= j < lines_of(s)[k].len()
                ==> #[trigger] lines_of(s)[k][j] != '\n',
    decreases s.len(),
{
    if s.len() > 0 {
        lemma_char_from(s, '\n', 0);
        match char_from(s, '\n', 0) {
            Some(i) => {
                lemma_lines_hold_no_line_feed(s.skip(i + 1));
                let rest = lines_of(s.skip(i + 1));
                assert(lines_of(s) == seq![without_return(s.take(i))] + rest);
                assert forall|k: int, j: int|
                    0 <= k < lines_of(s).len() && 0 <= j < lines_of(s)[k].len() implies
                    #[trigger] lines_of(s)[k][j] != '\n' by {
                    if k > 0 {
                        assert(lines_of(s)[k] == rest[k - 1]);
                        assert(rest[k - 1][j] != '\n');
                    }
                }
            },
            None => {},
        }
    }
}

/// Joining one more line.
pub proof fn lemma_with_line_feeds_push(lines: Seq<Seq<char>>, line: Seq<char>)
    ensures
        with_line_feeds(lines.push(line)) == with_line_feeds(lines) + line.push('\n'),
{
    assert(lines.push(line).drop_last() == lines);
}

/// A text of lines ends in a line feed.
pub proof fn lemma_with_line_feeds_last(lines: Seq<Seq<char>>)
    ensures
        lines.len() == 0 <==> with_line_feeds(lines).len() == 0,
        lines.len() > 0 ==> with_line_feeds(lines).last() == '\n',
{
}

/// Lines come one after the other.
pub proof fn lemma_with_line_feeds_first(ls: Seq<Seq<char>>)
    requires
        ls.len() > 0,
    ensures
        with_line_feeds(ls) == ls[0].push('\n') + with_line_feeds(ls.skip(1)),
    decreases ls.len(),
{
    if ls.len() == 1 {
        assert(ls.drop_last() =~= seq![]);
        assert(ls.skip(1) =~= seq![]);
        assert(with_line_feeds(ls) =~= ls[0].push('\n') + with_line_feeds(ls.skip(1)));
    } else {
        lemma_with_line_feeds_first(ls.drop_last());
        assert(ls.drop_last().skip(1) =~= ls.skip(1).drop_last());
        assert(ls.skip(1).last() == ls.last());
        assert(with_line_feeds(ls) =~= ls[0].push('\n') + with_line_feeds(ls.skip(1)));
    }
}

/// The first line feed of a line with more behind it.
pub proof fn lemma_first_line_feed(line: Seq<char>, rest: Seq<char>)
    requires
        has_no_line_feed(line),
    ensures
        char_from(line.push('\n') + rest, '\n', 0) == Some(line.len() as int),
{
    let s = line.push('\n') + rest;
    lemma_char_from(s, '\n', 0);
    assert(s[line.len() as int] == '\n');
    match char_from(s, '\n', 0) {
        Some(k) => {
            if k < line.len() {
                assert(s[k] == line[k]);
            }
        },
        None => {},
    }
}

/// Lines that are put together come apart at the same places.
pub proof fn lemma_lines_of_lines(ls: Seq<Seq<char>>)
    requires
        forall|k: int| 0 <= k < ls.len() ==> has_no_line_feed(#[trigger] ls[k]),
    ensures
        lines_of(with_line_feeds(ls)) == ls.map_values(|l: Seq<char>| without_return(l)),
    decreases ls.len(),
{
    if ls.len() == 0 {
        assert(with_line_feeds(ls) =~= seq![]);
        assert(lines_of(with_line_feeds(ls)) =~= ls.map_values(|l: Seq<char>| without_return(l)));
    } else {
        let rest = with_line_feeds(ls.skip(1));
        let s = with_line_feeds(ls);
        lemma_with_line_feeds_first(ls);
        lemma_first_line_feed(ls[0], rest);
        assert forall|k: int| 0 <= k < ls.skip(1).len() implies has_no_line_feed(
            #[trigger] ls.skip(1)[k],
        ) by {
            assert(ls.skip(1)[k] == ls[k + 1]);
        }
        lemma_lines_of_lines(ls.skip(1));
        assert(s.take(ls[0].len() as int) =~= ls[0]);
        assert(s.skip(ls[0].len() as int + 1) =~= rest);
        assert(lines_of(s) == seq![without_return(ls[0])] + lines_of(rest));
        assert(lines_of(s) =~= ls.map_values(|l: Seq<char>| without_return(l)));
    }
}

/// The same without the last line feed.
proof fn lemma_lines_of_unended_lines(ls: Seq<Seq<char>>)
    requires
        ls.len() > 0,
        ls.last().len() > 0,
        forall|k: int| 0 <= k < ls.len() ==> has_no_line_feed(#[trigger] ls[k]),
    ensures
        lines_of(with_line_feeds(ls).drop_last()) == ls.drop_last().map_values(
            |l: Seq<char>| without_return(l),
        ).push(ls.last()),
    decreases ls.len(),
{
    let s = with_line_feeds(ls).drop_last();
    let f = |l: Seq<char>| without_return(l);
    lemma_with_line_feeds_first(ls);
    if ls.len() == 1 {
        assert(ls.skip(1) =~= seq![]);
        assert(s =~= ls[0]);
        lemma_char_from(s, '\n', 0);
        assert(lines_of(s) =~= seq![s]);
        assert(ls.drop_last().map_values(f).push(ls.last()) =~= seq![s]);
    } else {
        let rest = with_line_feeds(ls.skip(1)).drop_last();
        lemma_with_line_feeds_last(ls.skip(1));
        assert(s =~= ls[0].push('\n') + rest);
        lemma_first_line_feed(ls[0], rest);
        assert forall|k: int| 0 <= k < ls.skip(1).len() implies has_no_line_feed(
            #[trigger] ls.skip(1)[k],
        ) by {
            assert(ls.skip(1)[k] == ls[k + 1]);
        }
        lemma_lines_of_unended_lines(ls.skip(1));
        assert(s.take(ls[0].len() as int) =~= ls[0]);
        assert(s.skip(ls[0].len() as int + 1) =~= rest);
        assert(lines_of(s) == seq![without_return(ls[0])] + lines_of(rest));
        assert(ls.skip(1).drop_last() =~= ls.drop_last().skip(1));
        assert(lines_of(s) =~= ls.drop_last().map_values(f).push(ls.last()));
    }
}

/// An assembled text has the lines that it was assembled from.
pub proof fn lemma_lines_of_assembled(ls: Seq<Seq<char>>, text: Seq<char>)
    requires
        forall|k: int| 0 <= k < ls.len() ==> has_no_line_feed(#[trigger] ls[k]),
        ls.len() > 0 && !finishes_with(text, seq!['\n']) ==> ls.last().len() > 0,
    ensures
        lines_of(assemble(ls, text)) == split_again(ls, text),
{
    lemma_with_line_feeds_last(ls);
    if ls.len() > 0 && !finishes_with(text, seq!['\n']) {
        lemma_lines_of_unended_lines(ls);
    } else {
        lemma_lines_of_lines(ls);
    }
    assert(lines_of(assemble(ls, text)) =~= split_again(ls, text));
}

/// A text that does not end in a line feed has a last line that is not empty.
pub proof fn lemma_last_line_not_empty(s: Seq<char>)
    requires
        s.len() > 0,
        !finishes_with(s, seq!['\n']),
    ensures
        lines_of(s).len() > 0,
        lines_of(s).last().len() > 0,
    decreases s.len(),
{
    lemma_char_from(s, '\n', 0);
    match char_from(s, '\n', 0) {
        Some(i) => {
            let rest = s.skip(i + 1);
            assert(s.subrange(s.len() - 1, s.len() as int) =~= seq![s.last()]);
            assert(i + 1 < s.len());
            assert(rest.subrange(rest.len() - 1, rest.len() as int) =~= seq![rest.last()]);
            if finishes_with(rest, seq!['\n']) {
                assert(seq![rest.last()][0] == seq!['\n'][0]);
                assert(s.last() == '\n');
            }
            lemma_last_line_not_empty(rest);
            assert(lines_of(s).last() == lines_of(rest).last());
        },
        None => {},
    }
}

/// A text is its lines with their endings.
pub proof fn lemma_lines_with_endings(s: Seq<char>)
    ensures
        endings_of(s).len() == lines_of(s).len(),
        are_endings(endings_of(s)),
        with_endings(lines_of(s), endings_of(s)) == s,
        s.len() > 0 && !finishes_with(s, seq!['\n']) <==> endings_of(s).len() > 0
            && endings_of(s).last() == Seq::<char>::empty(),
    decreases s.len(),
{
    if s.len() > 0 {
        lemma_char_from(s, '\n', 0);
        assert(s.subrange(s.len() - 1, s.len() as int) =~= seq![s.last()]);
        assert(seq![s.last()][0] == s.last() && seq!['\n'][0] == '\n');
        match char_from(s, '\n', 0) {
            Some(i) => {
                let rest = s.skip(i + 1);
                lemma_lines_with_endings(rest);
                let ls = lines_of(s);
                let es = endings_of(s);
                assert(ls.skip(1) =~= lines_of(rest));
                assert(es.skip(1) =~= endings_of(rest));
                assert(ls[0] + es[0] =~= s.take(i + 1));
                assert(with_endings(ls, es) =~= s);
                assert forall|k: int| 0 <= k < es.len() implies #[trigger] es[k] == seq!['\n']
                    || es[k] == seq!['\r', '\n'] || (k + 1 == es.len() && es[k]
                    == Seq::<char>::empty()) by {
                    if k > 0 {
                        assert(es[k] == endings_of(rest)[k - 1]);
                    }
                }
                if rest.len() > 0 {
                    assert(rest.subrange(rest.len() - 1, rest.len() as int) =~= seq![rest.last()]);
                    assert(rest.last() == s.last());
                    assert(es.last() == endings_of(rest).last());
                } else {
                    assert(i == s.len() - 1);
                    assert(es.last().len() > 0);
                }
            },
            None => {
                let ls = lines_of(s);
                let es = endings_of(s);
                assert(ls == seq![s] && es == seq![Seq::<char>::empty()]);
                assert(with_endings(ls.skip(1), es.skip(1)) =~= seq![]);
                assert(with_endings(ls, es) == ls[0] + es[0] + with_endings(
                    ls.skip(1),
                    es.skip(1),
                ));
                assert(with_endings(ls, es) =~= s);
            },
        }
    }
}

/// Lines that are put together with their endings come apart at the same places.
pub proof fn lemma_lines_of_ended_lines(ls: Seq<Seq<char>>, es: Seq<Seq<char>>)
    requires
        ls.len() == es.len(),
        are_endings(es),
        forall|k: int| 0 <= k < ls.len() ==> has_no_line_feed(#[trigger] ls[k]),
        ls.len() > 0 && es.last() == Seq::<char>::empty() ==> ls.last().len() > 0,
    ensures
        lines_of(with_endings(ls, es)) == split_at_endings(ls, es),
    decreases ls.len(),
{
    let s = with_endings(ls, es);
    if ls.len() == 0 {
        assert(lines_of(s) =~= split_at_endings(ls, es));
    } else {
        let rest = with_endings(ls.skip(1), es.skip(1));
        assert forall|k: int| 0 <= k < ls.skip(1).len() implies has_no_line_feed(
            #[trigger] ls.skip(1)[k],
        ) by {
            assert(ls.skip(1)[k] == ls[k + 1]);
        }
        assert(are_endings(es.skip(1))) by {
            assert forall|k: int| 0 <= k < es.skip(1).len() implies #[trigger] es.skip(1)[k]
                == seq!['\n'] || es.skip(1)[k] == seq!['\r', '\n'] || (k + 1 == es.skip(1).len()
                && es.skip(1)[k] == Seq::<char>::empty()) by {
                assert(es.skip(1)[k] == es[k + 1]);
            }
        }
        lemma_lines_of_ended_lines(ls.skip(1), es.skip(1));
        assert(has_no_line_feed(ls[0]));
        if es[0] == seq!['\n'] {
            assert(s =~= ls[0].push('\n') + rest);
            lemma_first_line_feed(ls[0], rest);
            assert(s.take(ls[0].len() as int) =~= ls[0]);
            assert(s.skip(ls[0].len() as int + 1) =~= rest);
            assert(lines_of(s) == seq![without_return(ls[0])] + lines_of(rest));
        } else if es[0] == seq!['\r', '\n'] {
            let line = ls[0].push('\r');
            assert(seq!['\r', '\n'] != seq!['\n']) by {
                assert(seq!['\r', '\n'].len() == 2);
            }
            assert(s =~= line.push('\n') + rest);
            lemma_first_line_feed(line, rest);
            assert(s.take(line.len() as int) =~= line);
            assert(s.skip(line.len() as int + 1) =~= rest);
            assert(without_return(line) =~= ls[0]);
            assert(lines_of(s) == seq![ls[0]] + lines_of(rest));
        } else {
            assert(ls.len() == 1);
            assert(es[0] == Seq::<char>::empty());
            assert(Seq::<char>::empty() != seq!['\n']) by {
                assert(seq!['\n'].len() == 1);
            }
            assert(ls.skip(1) =~= seq![]);
            assert(s =~= ls[0]);
            lemma_char_from(s, '\n', 0);
            assert(lines_of(s) =~= seq![ls[0]]);
        }
        assert(lines_of(s) =~= split_at_endings(ls, es)) by {
            assert forall|k: int| 1 <= k < ls.len() implies split_at_endings(ls, es)[k]
                == #[trigger] split_at_endings(ls.skip(1), es.skip(1))[k - 1] by {
                assert(ls.skip(1)[k - 1] == ls[k] && es.skip(1)[k - 1] == es[k]);
            }
        }
    }
}

// ---------------------------------------------------------------------------
// The functions
// ---------------------------------------------------------------------------

/// The characters of a string, in order.
pub fn chars_of(s: &str) -> (res: Vec<char>)
    ensures
        res@ == s@,
{
    let mut res: Vec<char> = Vec::new();
    for c in it: s.chars()
        invariant
            res@ == it.seq().take(it.index() as int),
            it.seq() == s@,
    {
        res.push(c);
    }
    res
}

/// The string with these characters.
pub fn string_of(chars: &Vec<char>) -> (res: String)
    ensures
        res@ == chars@,
{
    let mut res = String::new();
    let mut i: usize = 0;
    while i < chars.len()
        invariant
            i <= chars.len(),
            res@ == chars@.take(i as int),
        decreases chars.len() - i,
    {
        res.push(chars[i]);
        i += 1;
    }
    res
}

/// The part of `chars` from `from` up to `to`.
pub fn part(chars: &Vec<char>, from: usize, to: usize) -> (res: String)
    requires
        from <= to <= chars.len(),
    ensures
        res@ == chars@.subrange(from as int, to as int),
{
    let mut res = String::new();
    let mut i: usize = from;
    while i < to
        invariant
            from <= i <= to <= chars.len(),
            res@ == chars@.subrange(from as int, i as int),
        decreases to - i,
    {
        res.push(chars[i]);
        i += 1;
    }
    res
}

/// Whether `p` stands in `s` at position `i`.
pub fn matches_at(s: &Vec<char>, p: &Vec<char>, i: usize) -> (res: bool)
    ensures
        res == occurs_at(s@, p@, i as int),
{
    if i > s.len() || s.len() - i < p.len() {
        return false;
    }
    let mut k: usize = 0;
    while k < p.len()
        invariant
            k <= p.len(),
            i + p.len() <= s.len(),
            forall|j: int| 0 <= j < k ==> s@[i + j] == p@[j],
        decreases p.len() - k,
    {
        if s[i + k] != p[k] {
            assert(s@.subrange(i as int, i + p@.len())[k as int] != p@[k as int]);
            return false;
        }
        k += 1;
    }
    assert(s@.subrange(i as int, i + p@.len()) =~= p@);
    true
}

/// The first position of `p` in `s`, counted in characters.
pub fn position_of(s: &Vec<char>, p: &Vec<char>) -> (res: Option<usize>)
    ensures
        match res {
            Some(i) => first_position(s@, p@) == Some(i as int) && i + p@.len() <= s@.len(),
            None => first_position(s@, p@) is None,
        },
{
    let mut i: usize = 0;
    while i <= s.len() && p.len() <= s.len() - i
        invariant
            i <= s.len() + 1,
            find_from(s@, p@, 0) == find_from(s@, p@, i as int),
        decreases s.len() + 1 - i,
    {
        if matches_at(s, p, i) {
            return Some(i);
        }
        if i == s.len() {
            assert(find_from(s@, p@, i + 1) is None);
            return None;
        }
        i += 1;
    }
    None
}

/// The first position of `c` in `s`, at `start` or later.
pub fn position_of_char(s: &Vec<char>, c: char, start: usize) -> (res: Option<usize>)
    ensures
        match res {
            Some(i) => char_from(s@, c, start as int) == Some(i as int) && start <= i < s@.len()
                && s@[i as int] == c,
            None => char_from(s@, c, start as int) is None,
        },
{
    let mut i: usize = start;
    while i < s.len()
        invariant
            start <= i,
            i <= s.len() || i == start,
            char_from(s@, c, start as int) == char_from(s@, c, i as int),
        decreases s.len() - i,
    {
        if s[i] == c {
            return Some(i);
        }
        i += 1;
    }
    None
}

/// Whether `s` begins with `p`.
pub fn starts_with(s: &str, p: &str) -> (res: bool)
    ensures
        res == begins_with(s@, p@),
{
    matches_at(&chars_of(s), &chars_of(p), 0)
}

/// Whether `s` ends in `p`.
pub fn ends_with(s: &str, p: &str) -> (res: bool)
    ensures
        res == finishes_with(s@, p@),
{
    let cs = chars_of(s);
    let cp = chars_of(p);
    if cp.len() > cs.len() {
        return false;
    }
    matches_at(&cs, &cp, cs.len() - cp.len())
}

/// Whether `p` occurs in `s`.
pub fn contains(s: &str, p: &str) -> (res: bool)
    ensures
        res == (first_position(s@, p@) is Some),
{
    position_of(&chars_of(s), &chars_of(p)).is_some()
}

/// Whether two strings are the same.
pub fn same(a: &str, b: &str) -> (res: bool)
    ensures
        res == (a@ == b@),
{
    let ca = chars_of(a);
    let cb = chars_of(b);
    if ca.len() != cb.len() {
        return false;
    }
    let res = matches_at(&ca, &cb, 0);
    assert(a@.subrange(0, a@.len() as int) =~= a@);
    res
}

/// Whether a character is white space.
pub fn is_white_space(c: char) -> (res: bool)
    ensures
        res == is_white(c),
{
    let u: u32 = c as u32;
    (0x9 <= u && u <= 0xd) || u == 0x20 || u == 0x85 || u == 0xa0 || u == 0x1680 || (0x2000 <= u
        && u <= 0x200a) || u == 0x2028 || u == 0x2029 || u == 0x202f || u == 0x205f || u == 0x3000
}

/// `s` without the white space at its end.
pub fn trim_end(s: &str) -> (res: String)
    ensures
        res@ == without_trailing_white(s@),
{
    let mut cs = chars_of(s);
    while cs.len() > 0 && is_white_space(cs[cs.len() - 1])
        invariant
            without_trailing_white(cs@) == without_trailing_white(s@),
        decreases cs.len(),
    {
        let ghost before = cs@;
        cs.pop();
        assert(cs@ == before.drop_last());
    }
    string_of(&cs)
}

/// `s` without the white space at both ends.
pub fn trim(s: &str) -> (res: String)
    ensures
        res@ == trimmed(s@),
{
    let cs = chars_of(s);
    let mut i: usize = 0;
    assert(s@.skip(0) =~= s@);
    while i < cs.len() && is_white_space(cs[i])
        invariant
            i <= cs.len(),
            cs@ == s@,
            without_leading_white(s@) == without_leading_white(s@.skip(i as int)),
        decreases cs.len() - i,
    {
        assert(s@.skip(i as int).skip(1) =~= s@.skip(i + 1));
        i += 1;
    }
    assert(s@.skip(i as int) =~= s@.subrange(i as int, s@.len() as int));
    let rest = part(&cs, i, cs.len());
    trim_end(rest.as_str())
}

/// The lines of a text.
pub fn lines(text: &str) -> (res: Vec<String>)
    ensures
        texts(res@) == lines_of(text@),
{
    let cs = chars_of(text);
    let mut res: Vec<String> = Vec::new();
    let mut start: usize = 0;
    assert(text@.skip(0) =~= text@);
    while start < cs.len()
        invariant
            start <= cs.len(),
            cs@ == text@,
            lines_of(text@) =~= texts(res@) + lines_of(text@.skip(start as int)),
        decreases cs.len() - start,
    {
        let ghost rest = text@.skip(start as int);
        proof {
            lemma_char_from_skip(text@, '\n', start as int, 0);
        }
        match position_of_char(&cs, '\n', start) {
            Some(i) => {
                let mut end: usize = i;
                if start < end && cs[end - 1] == '\r' {
                    end -= 1;
                }
                let line = part(&cs, start, end);
                proof {
                    assert(line@ =~= without_return(rest.take(i - start)));
                    assert(rest.skip(i - start + 1) =~= text@.skip(i + 1));
                    assert(texts(res@.push(line)) =~= texts(res@).push(line@));
                }
                res.push(line);
                start = i + 1;
            },
            None => {
                let line = part(&cs, start, cs.len());
                proof {
                    assert(line@ =~= rest);
                    assert(texts(res@.push(line)) =~= texts(res@).push(line@));
                    assert(text@.skip(text@.len() as int) =~= seq![]);
                }
                res.push(line);
                start = cs.len();
            },
        }
    }
    assert(text@.skip(start as int) =~= seq![]);
    res
}

/// Searching the rest of a text is searching the text from there on.
pub proof fn lemma_char_from_skip(s: Seq<char>, c: char, start: int, i: int)
    requires
        0 <= start <= s.len(),
        0 <= i,
    ensures
        match char_from(s.skip(start), c, i) {
            Some(k) => char_from(s, c, start + i) == Some(start + k),
            None => char_from(s, c, start + i) is None,
        },
    decreases s.len() - start - i,
{
    if start + i >= s.len() {
    } else if s[start + i] == c {
        assert(s.skip(start)[i] == c);
    } else {
        assert(s.skip(start)[i] != c);
        lemma_char_from_skip(s, c, start, i + 1);
    }
}

/// The endings of a text's lines.
pub fn endings(text: &str) -> (res: Vec<String>)
    ensures
        texts(res@) == endings_of(text@),
{
    let cs = chars_of(text);
    let mut res: Vec<String> = Vec::new();
    let mut start: usize = 0;
    assert(text@.skip(0) =~= text@);
    while start < cs.len()
        invariant
            start <= cs.len(),
            cs@ == text@,
            endings_of(text@) =~= texts(res@) + endings_of(text@.skip(start as int)),
        decreases cs.len() - start,
    {
        let ghost rest = text@.skip(start as int);
        proof {
            lemma_char_from_skip(text@, '\n', start as int, 0);
        }
        match position_of_char(&cs, '\n', start) {
            Some(i) => {
                let mut end: usize = i;
                if start < end && cs[end - 1] == '\r' {
                    end -= 1;
                }
                let ending = part(&cs, end, i + 1);
                proof {
                    assert(rest[i - start] == '\n');
                    assert(end < i ==> rest[i - start - 1] == '\r');
                    assert(ending@ =~= endings_of(rest)[0]);
                    assert(rest.skip(i - start + 1) =~= text@.skip(i + 1));
                    assert(texts(res@.push(ending)) =~= texts(res@).push(ending@));
                }
                res.push(ending);
                start = i + 1;
            },
            None => {
                let ending = String::new();
                proof {
                    assert(ending@ =~= Seq::<char>::empty());
                    assert(texts(res@.push(ending)) =~= texts(res@).push(ending@));
                    assert(text@.skip(text@.len() as int) =~= seq![]);
                }
                res.push(ending);
                start = cs.len();
            },
        }
    }
    assert(text@.skip(start as int) =~= seq![]);
    res
}

/// The lines, each followed by its ending.
pub fn join_with_endings(ls: &Vec<String>, es: &Vec<String>) -> (res: String)
    requires
        ls@.len() == es@.len(),
    ensures
        res@ == with_endings(texts(ls@), texts(es@)),
{
    let mut res = String::new();
    let mut i: usize = 0;
    let ghost all = texts(ls@);
    let ghost ends = texts(es@);
    assert(all.skip(0) =~= all && ends.skip(0) =~= ends);
    while i < ls.len()
        invariant
            i <= ls.len(),
            ls@.len() == es@.len(),
            all == texts(ls@),
            ends == texts(es@),
            with_endings(all, ends) == res@ + with_endings(
                all.skip(i as int),
                ends.skip(i as int),
            ),
        decreases ls.len() - i,
    {
        let ghost before = res@;
        res.append(ls[i].as_str());
        res.append(es[i].as_str());
        assert(all.skip(i as int).skip(1) =~= all.skip(i + 1));
        assert(ends.skip(i as int).skip(1) =~= ends.skip(i + 1));
        assert(all.skip(i as int)[0] == ls@[i as int]@ && ends.skip(i as int)[0]
            == es@[i as int]@);
        assert(res@ + with_endings(all.skip(i + 1), ends.skip(i + 1)) =~= before + with_endings(
            all.skip(i as int),
            ends.skip(i as int),
        ));
        i += 1;
    }
    assert(all.skip(i as int) =~= seq![]);
    assert(res@ + with_endings(all.skip(i as int), ends.skip(i as int)) =~= res@);
    res
}

/// The pieces of `s` between the occurrences of `c`.
pub fn split(s: &str, c: char) -> (res: Vec<String>)
    ensures
        texts(res@) == split_at_char(s@, c),
        res@.len() > 0,
{
    let cs = chars_of(s);
    let mut res: Vec<String> = Vec::new();
    let mut start: usize = 0;
    assert(s@.skip(0) =~= s@);
    loop
        invariant
            start <= cs.len(),
            cs@ == s@,
            split_at_char(s@, c) =~= texts(res@) + split_at_char(s@.skip(start as int), c),
        decreases cs.len() - start,
    {
        let ghost rest = s@.skip(start as int);
        proof {
            lemma_char_from_skip(s@, c, start as int, 0);
        }
        match position_of_char(&cs, c, start) {
            Some(i) => {
                let piece = part(&cs, start, i);
                proof {
                    assert(piece@ =~= rest.take(i - start));
                    assert(rest.skip(i - start + 1) =~= s@.skip(i + 1));
                    assert(texts(res@.push(piece)) =~= texts(res@).push(piece@));
                }
                res.push(piece);
                start = i + 1;
            },
            None => {
                let piece = part(&cs, start, cs.len());
                proof {
                    assert(piece@ =~= rest);
                    assert(texts(res@.push(piece)) =~= texts(res@).push(piece@));
                }
                res.push(piece);
                return res;
            },
        }
    }
}

/// The digit for `d`.
fn digit_char(d: u64) -> (res: char)
    requires
        d < 16,
    ensures
        res == digit(d as int),
{
    proof {
        reveal_strlit("0123456789abcdef");
    }
    "0123456789abcdef".get_char(d as usize)
}

/// The decimal notation of a number.
pub fn decimal_text(n: u64) -> (res: String)
    ensures
        res@ == decimal(n as nat),
    decreases n,
{
    if n < 10 {
        let mut res = String::new();
        res.push(digit_char(n));
        assert(res@ =~= seq![digit(n as int)]);
        res
    } else {
        let mut res = decimal_text(n / 10);
        res.push(digit_char(n % 10));
        res
    }
}

/// The decimal notation of a number that may be negative.
pub fn signed_decimal_text(n: i32) -> (res: String)
    ensures
        res@ == signed_decimal(n as int),
{
    let wide: i64 = n as i64;
    if wide < 0 {
        let mut res = "-".to_owned();
        res.append(decimal_text((-wide) as u64).as_str());
        res
    } else {
        decimal_text(wide as u64)
    }
}

/// The path of a file in a directory.
pub fn join_path(dir: &str, name: &str) -> (res: String)
    ensures
        res@ == path_in(dir@, name@),
{
    proof {
        reveal_strlit("/");
    }
    if starts_with(name, "/") {
        assert(name@.subrange(0, 1)[0] == "/"@[0]);
        return name.to_owned();
    }
    assert(name@.len() > 0 ==> name@[0] != '/') by {
        if name@.len() > 0 && name@[0] == '/' {
            assert(name@.subrange(0, 1) =~= "/"@);
        }
    }
    let mut res = dir.to_owned();
    if !dir.is_empty() && !ends_with(dir, "/") {
        assert(dir@.last() != '/') by {
            assert(dir@.subrange(dir@.len() - 1, dir@.len() as int) =~= seq![dir@.last()]);
            assert("/"@ =~= seq!['/']);
        }
        res.append("/");
    } else {
        assert(dir@.len() > 0 ==> dir@.last() == '/') by {
            if dir@.len() > 0 {
                assert(dir@.subrange(dir@.len() - 1, dir@.len() as int)[0] == "/"@[0]);
            }
        }
    }
    res.append(name);
    res
}

/// The hexadecimal notation of a number, in lower case.
pub fn hex_text(n: u64) -> (res: String)
    ensures
        res@ == hexadecimal(n as nat),
    decreases n,
{
    if n < 16 {
        let mut res = String::new();
        res.push(digit_char(n));
        assert(res@ =~= seq![digit(n as int)]);
        res
    } else {
        let mut res = hex_text(n / 16);
        res.push(digit_char(n % 16));
        res
    }
}

/// Taking digits away never makes the number larger.
proof fn lemma_number_of_prefix(s: Seq<char>, k: int)
    requires
        0 <= k <= s.len(),
        all_digits(s),
    ensures
        number_of(s.take(k)) <= number_of(s),
    decreases s.len(),
{
    if k == s.len() {
        assert(s.take(k) =~= s);
    } else {
        let t = s.drop_last();
        assert forall|i: int| 0 <= i < t.len() implies is_decimal_digit(#[trigger] t[i]) by {
            assert(t[i] == s[i]);
        }
        lemma_number_of_prefix(t, k);
        assert(t.take(k) =~= s.take(k));
    }
}

/// The unsigned number that a text denotes, if it denotes one.
pub fn parse_unsigned(s: &str) -> (res: Option<u64>)
    ensures
        res == unsigned_of(s@),
{
    let cs = chars_of(s);
    let begin: usize = if cs.len() > 0 && cs[0] == '+' { 1 } else { 0 };
    let ghost digits = s@.skip(begin as int);
    assert(begin == 0 ==> digits =~= s@);
    if begin == cs.len() {
        return None;
    }
    let mut i: usize = begin;
    let mut n: u64 = 0;
    assert(digits.take(0) =~= seq![]);
    while i < cs.len()
        invariant
            begin <= i <= cs.len(),
            cs@ == s@,
            digits == s@.skip(begin as int),
            digits == (if s@.len() > 0 && s@[0] == '+' { s@.skip(1) } else { s@ }),
            digits.len() > 0,
            all_digits(digits.take(i - begin)),
            n == number_of(digits.take(i - begin)),
        decreases cs.len() - i,
    {
        let u: u32 = cs[i] as u32;
        let ghost k = i - begin;
        assert(digits[k] == cs@[i as int]);
        if u < 0x30 || u > 0x39 {
            assert(!is_decimal_digit(digits[k]));
            return None;
        }
        let d: u64 = (u - 0x30) as u64;
        proof {
            assert(digits.take(k + 1).drop_last() =~= digits.take(k));
            assert(digits.take(k + 1).last() == digits[k]);
            assert forall|j: int| 0 <= j < k + 1 implies is_decimal_digit(
                #[trigger] digits.take(k + 1)[j],
            ) by {
                if j < k {
                    assert(digits.take(k + 1)[j] == digits.take(k)[j]);
                }
            }
            if all_digits(digits) {
                lemma_number_of_prefix(digits, k + 1);
            }
        }
        if n > u64::MAX / 10 || n * 10 > u64::MAX - d {
            return None;
        }
        n = n * 10 + d;
        i += 1;
    }
    assert(digits.take(digits.len() as int) =~= digits);
    Some(n)
}

/// The texts one behind the other, with `sep` between them.
pub fn join(parts: &Vec<String>, sep: &str) -> (res: String)
    ensures
        res@ == joined_with(texts(parts@), sep@),
{
    let mut res = String::new();
    let mut i: usize = 0;
    let ghost all = texts(parts@);
    while i < parts.len()
        invariant
            i <= parts.len(),
            all == texts(parts@),
            res@ == joined_with(all.take(i as int), sep@),
        decreases parts.len() - i,
    {
        let ghost done = res@;
        if i > 0 {
            res.append(sep);
        }
        res.append(parts[i].as_str());
        assert(all.take(i + 1).drop_last() =~= all.take(i as int));
        assert(all.take(i + 1).last() == parts@[i as int]@);
        if i == 0 {
            assert(res@ =~= parts@[0]@);
        }
        i += 1;
    }
    assert(all.take(i as int) =~= all);
    res
}

} // verus!
