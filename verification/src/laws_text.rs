//! What holds of texts, lines and numbers, said of characters and positions.

use crate::sorting::precedes;
use crate::text::{
    all_digits, assemble, begins_with, char_from, decimal, digit, endings_of, finishes_with,
    first_position, hexadecimal, is_decimal_digit, is_white, joined_with, lemma_char_from,
    lemma_find_from, lemma_lines_with_endings, lemma_with_line_feeds_push, lines_of, number_of,
    occurs_at, path_in, signed_decimal, split_at_char, texts, trimmed, unsigned_of, with_endings,
    with_line_feeds, without_leading_white, without_trailing_white,
};
use vstd::prelude::*;

verus! {

// ---------------------------------------------------------------------------
// Searching
// ---------------------------------------------------------------------------

/// The characters of `p` stand in `s` one behind the other, from position `i` on.
pub open spec fn stands_at(s: Seq<char>, p: Seq<char>, i: int) -> bool {
    &&& 0 <= i
    &&& i + p.len() <= s.len()
    &&& forall|k: int| 0 <= k < p.len() ==> s[i + k] == #[trigger] p[k]
}

/// Standing at a position is meant character by character.
pub proof fn lemma_stands_at(s: Seq<char>, p: Seq<char>, i: int)
    ensures
        stands_at(s, p, i) <==> occurs_at(s, p, i),
{
    if occurs_at(s, p, i) {
        assert forall|k: int| 0 <= k < p.len() implies s[i + k] == #[trigger] p[k] by {
            assert(s.subrange(i, i + p.len())[k] == s[i + k]);
        }
    }
    if stands_at(s, p, i) {
        assert(s.subrange(i, i + p.len()) =~= p);
    }
}

/// A search gives the first place where the text stands, and nothing where it
/// stands nowhere.
pub proof fn law_search_gives_first_place(s: Seq<char>, p: Seq<char>, i: int)
    ensures
        first_position(s, p) == Some(i) <==> stands_at(s, p, i) && forall|j: int|
            0 <= j < i ==> !stands_at(s, p, j),
        first_position(s, p) is None <==> forall|j: int| !stands_at(s, p, j),
{
    lemma_find_from(s, p, 0);
    assert forall|j: int| stands_at(s, p, j) <==> occurs_at(s, p, j) by {
        lemma_stands_at(s, p, j);
    }
    match first_position(s, p) {
        Some(k) => {
            assert(stands_at(s, p, k));
        },
        None => {
            assert forall|j: int| !stands_at(s, p, j) by {
                if j >= 0 {
                    assert(!occurs_at(s, p, j));
                }
            }
        },
    }
}

/// A search for a character gives its first place at or behind a position, and
/// nothing where it does not stand there.
pub proof fn law_character_search_gives_first_place(s: Seq<char>, c: char, start: int, i: int)
    requires
        0 <= start,
    ensures
        char_from(s, c, start) == Some(i) <==> start <= i < s.len() && s[i] == c && forall|j: int|
            start <= j < i ==> s[j] != c,
        char_from(s, c, start) is None <==> forall|j: int| start <= j < s.len() ==> s[j] != c,
{
    lemma_char_from(s, c, start);
}

/// A text begins with another where its first characters are that text, and ends in
/// it where its last ones are.
pub proof fn law_ends_of_texts(s: Seq<char>, p: Seq<char>)
    ensures
        begins_with(s, p) <==> exists|rest: Seq<char>| s == #[trigger] (p + rest),
        finishes_with(s, p) <==> exists|rest: Seq<char>| s == #[trigger] (rest + p),
{
    if begins_with(s, p) {
        assert(s =~= p + s.skip(p.len() as int)) by {
            assert(s.subrange(0, p.len() as int) == p);
            lemma_stands_at(s, p, 0);
        }
    }
    if exists|rest: Seq<char>| s == #[trigger] (p + rest) {
        let rest = choose|rest: Seq<char>| s == #[trigger] (p + rest);
        assert(s.subrange(0, p.len() as int) =~= p);
    }
    if finishes_with(s, p) {
        let n = s.len() - p.len();
        assert(s =~= s.take(n) + s.subrange(n, s.len() as int));
        assert(s == s.take(n) + p);
    }
    if exists|rest: Seq<char>| s == #[trigger] (rest + p) {
        let rest = choose|rest: Seq<char>| s == #[trigger] (rest + p);
        assert(s.subrange(s.len() - p.len(), s.len() as int) =~= p);
    }
}

// ---------------------------------------------------------------------------
// White space
// ---------------------------------------------------------------------------

/// White space are tabs, line and page ends, spaces of every width and the
/// separators of lines and paragraphs.
pub proof fn law_white_space(c: char)
    ensures
        is_white(c) <==> {
            let u = c as u32;
            u == 9 || u == 10 || u == 11 || u == 12 || u == 13 || u == 32 || u == 133 || u == 160
                || u == 5760 || (8192 <= u && u < 8203) || u == 8232 || u == 8233 || u == 8239 || u
                == 8287 || u == 12288
        },
{
}

/// Every character is white space.
pub open spec fn all_white(s: Seq<char>) -> bool {
    forall|i: int| 0 <= i < s.len() ==> is_white(#[trigger] s[i])
}

/// The white space that is cut off at a text's end.
pub(crate) proof fn lemma_tail(s: Seq<char>) -> (tail: Seq<char>)
    ensures
        all_white(tail),
        s == without_trailing_white(s) + tail,
        without_trailing_white(s).len() > 0 ==> !is_white(without_trailing_white(s).last()),
    decreases s.len(),
{
    if s.len() > 0 && is_white(s.last()) {
        let tail = lemma_tail(s.drop_last());
        assert(s =~= s.drop_last().push(s.last()));
        assert(s =~= without_trailing_white(s) + tail.push(s.last()));
        tail.push(s.last())
    } else {
        assert(s =~= without_trailing_white(s) + Seq::<char>::empty());
        Seq::empty()
    }
}

/// The white space that is cut off at a text's beginning.
proof fn lemma_front(s: Seq<char>) -> (front: Seq<char>)
    ensures
        all_white(front),
        s == front + without_leading_white(s),
        without_leading_white(s).len() > 0 ==> !is_white(without_leading_white(s)[0]),
    decreases s.len(),
{
    if s.len() > 0 && is_white(s[0]) {
        let front = lemma_front(s.skip(1));
        let all = seq![s[0]] + front;
        assert(s =~= seq![s[0]] + s.skip(1));
        assert(s =~= all + without_leading_white(s));
        assert forall|i: int| 0 <= i < all.len() implies is_white(#[trigger] all[i]) by {
            if i > 0 {
                assert(all[i] == front[i - 1]);
            }
        }
        all
    } else {
        assert(s =~= Seq::<char>::empty() + without_leading_white(s));
        Seq::empty()
    }
}

/// What is cut off at a text's end is white space, all that stands there.
pub proof fn law_trimmed_end(s: Seq<char>)
    ensures
        exists|tail: Seq<char>|
            #[trigger] all_white(tail) && s == without_trailing_white(s) + tail,
        without_trailing_white(s).len() > 0 ==> !is_white(without_trailing_white(s).last()),
{
    let tail = lemma_tail(s);
}

/// Trimming cuts white space off at both ends, all of it and nothing else.
pub proof fn law_trimmed(s: Seq<char>)
    ensures
        exists|front: Seq<char>, tail: Seq<char>| #[trigger]
            all_white(front) && #[trigger] all_white(tail) && s == front + trimmed(s) + tail,
        trimmed(s).len() > 0 ==> !is_white(trimmed(s)[0]) && !is_white(trimmed(s).last()),
{
    let front = lemma_front(s);
    let mid = without_leading_white(s);
    let tail = lemma_tail(mid);
    assert(s =~= front + trimmed(s) + tail);
    if trimmed(s).len() > 0 {
        assert(trimmed(s)[0] == mid[0]);
    }
}

// ---------------------------------------------------------------------------
// Lines
// ---------------------------------------------------------------------------

/// A text's lines are what stands between its line endings: each line holds no line
/// feed, its ending is a line feed with or without a carriage return, only the last
/// may have none, and a carriage return before a line feed belongs to the ending.
pub proof fn law_lines_and_endings(s: Seq<char>, k: int)
    requires
        0 <= k < lines_of(s).len(),
    ensures
        lines_of(s).len() == endings_of(s).len(),
        with_endings(lines_of(s), endings_of(s)) == s,
        forall|j: int| 0 <= j < lines_of(s)[k].len() ==> #[trigger] lines_of(s)[k][j] != '\n',
        endings_of(s)[k] == seq!['\r', '\n'] || endings_of(s)[k] == seq!['\n'] || (k + 1
            == lines_of(s).len() && endings_of(s)[k].len() == 0),
        endings_of(s)[k] == seq!['\n'] && lines_of(s)[k].len() > 0 ==> lines_of(s)[k].last()
            != '\r',
        endings_of(s)[k].len() == 0 ==> lines_of(s)[k].len() > 0,
    decreases s.len(),
{
    lemma_lines_with_endings(s);
    crate::text::lemma_lines_hold_no_line_feed(s);
    assert(endings_of(s)[k] == seq!['\n'] || endings_of(s)[k] == seq!['\r', '\n'] || (k + 1
        == endings_of(s).len() && endings_of(s)[k] == Seq::<char>::empty()));
    lemma_char_from(s, '\n', 0);
    match char_from(s, '\n', 0) {
        Some(i) => {
            let rest = s.skip(i + 1);
            if k > 0 {
                law_lines_and_endings(rest, k - 1);
                assert(lines_of(s)[k] == lines_of(rest)[k - 1]);
                assert(endings_of(s)[k] == endings_of(rest)[k - 1]);
            } else {
                assert(lines_of(s)[0] == crate::text::without_return(s.take(i)));
                if i > 0 && s[i - 1] == '\r' {
                    assert(endings_of(s)[0].len() == 2);
                    assert(seq!['\n'].len() == 1);
                }
            }
        },
        None => {
            assert(endings_of(s)[0].len() == 0);
            assert(seq!['\n'].len() == 1);
        },
    }
}

/// An empty text has no lines.
pub proof fn law_empty_text_has_no_lines()
    ensures
        forall|s: Seq<char>| s.len() == 0 <==> #[trigger] lines_of(s).len() == 0,
{
    assert forall|s: Seq<char>| s.len() == 0 <==> #[trigger] lines_of(s).len() == 0 by {
        if s.len() > 0 {
            lemma_char_from(s, '\n', 0);
        }
    }
}

/// Lines with their endings stand one behind the other.
pub proof fn law_lines_stand_in_a_row(
    ls: Seq<Seq<char>>,
    es: Seq<Seq<char>>,
    line: Seq<char>,
    ending: Seq<char>,
)
    requires
        ls.len() == es.len(),
    ensures
        with_endings(ls.push(line), es.push(ending)) == with_endings(ls, es) + line + ending,
        with_endings(Seq::empty(), Seq::empty()) == Seq::<char>::empty(),
    decreases ls.len(),
{
    let all = ls.push(line);
    let ends = es.push(ending);
    if ls.len() == 0 {
        assert(all.skip(1) =~= ls && ends.skip(1) =~= es);
        assert(with_endings(all, ends) =~= with_endings(ls, es) + line + ending);
    } else {
        law_lines_stand_in_a_row(ls.skip(1), es.skip(1), line, ending);
        assert(all.skip(1) =~= ls.skip(1).push(line));
        assert(ends.skip(1) =~= es.skip(1).push(ending));
        assert(with_endings(all, ends) =~= with_endings(ls, es) + line + ending);
    }
}

/// Lines are assembled with a line feed behind each, but none behind the last where
/// the text that they come from has none.
pub proof fn law_assembled_lines(ls: Seq<Seq<char>>, line: Seq<char>, text: Seq<char>)
    ensures
        text.len() > 0 && text.last() == '\n' ==> assemble(ls.push(line), text) == assemble(ls, text)
            + line + seq!['\n'],
        !(text.len() > 0 && text.last() == '\n') ==> assemble(ls.push(line), text)
            == with_line_feeds(ls) + line,
        with_line_feeds(ls.push(line)) == with_line_feeds(ls) + line + seq!['\n'],
        assemble(Seq::empty(), text) == Seq::<char>::empty(),
        with_line_feeds(Seq::empty()) == Seq::<char>::empty(),
{
    lemma_with_line_feeds_push(ls, line);
    if text.len() > 0 {
        assert(text.subrange(text.len() - 1, text.len() as int) =~= seq![text.last()]);
        assert(seq![text.last()][0] == text.last() && seq!['\n'][0] == '\n');
    }
    assert(with_line_feeds(ls.push(line)) =~= with_line_feeds(ls) + line + seq!['\n']);
    assert(with_line_feeds(ls.push(line)).drop_last() =~= with_line_feeds(ls) + line);
}

// ---------------------------------------------------------------------------
// Pieces
// ---------------------------------------------------------------------------

/// The pieces of a text between the occurrences of a character hold it nowhere, and
/// with it between them they are the text.
pub proof fn law_pieces_make_the_text(s: Seq<char>, c: char)
    ensures
        split_at_char(s, c).len() > 0,
        joined_with(split_at_char(s, c), seq![c]) == s,
        forall|i: int, j: int|
            0 <= i < split_at_char(s, c).len() && 0 <= j < split_at_char(s, c)[i].len()
                ==> #[trigger] split_at_char(s, c)[i][j] != c,
    decreases s.len(),
{
    lemma_char_from(s, c, 0);
    let pieces = split_at_char(s, c);
    match char_from(s, c, 0) {
        Some(i) => {
            let rest = s.skip(i + 1);
            law_pieces_make_the_text(rest, c);
            let others = split_at_char(rest, c);
            assert(pieces == seq![s.take(i)] + others);
            lemma_joined_first(s.take(i), others, seq![c]);
            assert(s =~= s.take(i) + seq![c] + rest);
            assert forall|a: int, j: int| 0 <= a < pieces.len() && 0 <= j < pieces[a].len() implies
                #[trigger] pieces[a][j] != c by {
                if a > 0 {
                    assert(pieces[a] == others[a - 1]);
                    assert(others[a - 1][j] != c);
                }
            }
        },
        None => {
            assert(pieces =~= seq![s]);
        },
    }
}

/// The first of several parts comes first, and the separator behind it.
proof fn lemma_joined_first(first: Seq<char>, others: Seq<Seq<char>>, sep: Seq<char>)
    requires
        others.len() > 0,
    ensures
        joined_with(seq![first] + others, sep) == first + sep + joined_with(others, sep),
    decreases others.len(),
{
    let all = seq![first] + others;
    assert(all.last() == others.last());
    if others.len() == 1 {
        assert(all.drop_last() =~= seq![first]);
        assert(joined_with(seq![first], sep) == first);
        assert(joined_with(all, sep) =~= first + sep + joined_with(others, sep));
    } else {
        assert(all.drop_last() =~= seq![first] + others.drop_last());
        lemma_joined_first(first, others.drop_last(), sep);
        assert(joined_with(all, sep) =~= first + sep + joined_with(others, sep));
    }
}

/// Parts are joined one behind the other, with the separator between each two.
pub proof fn law_parts_are_joined(parts: Seq<Seq<char>>, part: Seq<char>, sep: Seq<char>)
    ensures
        joined_with(Seq::empty(), sep) == Seq::<char>::empty(),
        joined_with(seq![part], sep) == part,
        parts.len() > 0 ==> joined_with(parts.push(part), sep) == joined_with(parts, sep) + sep
            + part,
{
    assert(parts.push(part).drop_last() =~= parts);
}

/// The contents of a list of strings are those of its strings, in their order.
pub proof fn law_texts_of_a_list(v: Seq<String>)
    ensures
        texts(v).len() == v.len(),
        forall|i: int| 0 <= i < v.len() ==> #[trigger] texts(v)[i] == v[i]@,
{
}

// ---------------------------------------------------------------------------
// Numbers
// ---------------------------------------------------------------------------

/// One of the ten figures.
pub open spec fn is_figure(c: char) -> bool {
    48 <= c as u32 && c as u32 <= 57
}

/// One of the letters that count as digits in base sixteen.
pub open spec fn is_hex_letter(c: char) -> bool {
    97 <= c as u32 && c as u32 <= 102
}

/// The text without a plus sign at its beginning.
pub open spec fn behind_plus(s: Seq<char>) -> Seq<char> {
    if s.len() > 0 && s[0] == '+' {
        s.skip(1)
    } else {
        s
    }
}

/// The value of digits in a base, the first digit counting most.
pub open spec fn value_in_base(s: Seq<char>, base: int) -> int
    decreases s.len(),
{
    if s.len() == 0 {
        0
    } else {
        let u = s.last() as u32;
        value_in_base(s.drop_last(), base) * base + if u >= 97 {
            u - 87
        } else {
            u - 48
        }
    }
}

/// Decimal digits have the value that the notation of numbers is read with.
pub proof fn law_digits_have_their_value(s: Seq<char>)
    ensures
        all_digits(s) <==> forall|i: int| 0 <= i < s.len() ==> is_figure(#[trigger] s[i]),
        all_digits(s) ==> number_of(s) == value_in_base(s, 10),
    decreases s.len(),
{
    assert forall|i: int| 0 <= i < s.len() implies (is_decimal_digit(s[i]) <==> is_figure(
        #[trigger] s[i],
    )) by {}
    if s.len() > 0 && all_digits(s) {
        assert forall|i: int| 0 <= i < s.drop_last().len() implies is_decimal_digit(
            #[trigger] s.drop_last()[i],
        ) by {
            assert(s.drop_last()[i] == s[i]);
        }
        law_digits_have_their_value(s.drop_last());
        assert(is_decimal_digit(s[s.len() - 1]));
    }
}

/// The digits of a number below 16.
pub(crate) proof fn lemma_digit(d: int)
    requires
        0 <= d < 16,
    ensures
        d < 10 ==> digit(d) as u32 == 48 + d,
        d >= 10 ==> digit(d) as u32 == 87 + d,
{
    reveal_strlit("0123456789abcdef");
    assert(d == 0 || d == 1 || d == 2 || d == 3 || d == 4 || d == 5 || d == 6 || d == 7 || d == 8
        || d == 9 || d == 10 || d == 11 || d == 12 || d == 13 || d == 14 || d == 15);
}

/// Decimal notation denotes its number: it is made of decimal digits whose value is
/// the number, without zeros before it.
pub proof fn law_decimal_denotes_its_number(n: nat)
    ensures
        value_in_base(decimal(n), 10) == n,
        decimal(n).len() > 0,
        forall|i: int| 0 <= i < decimal(n).len() ==> is_figure(#[trigger] decimal(n)[i]),
        decimal(n)[0] == '0' <==> n == 0,
    decreases n,
{
    let s = decimal(n);
    if n < 10 {
        lemma_digit(n as int);
        assert(s =~= seq![digit(n as int)]);
        assert(s.drop_last() =~= seq![]);
        assert(value_in_base(s.drop_last(), 10) == 0);
    } else {
        let d = (n % 10) as int;
        lemma_digit(d);
        law_decimal_denotes_its_number(n / 10);
        assert(s == decimal(n / 10).push(digit(d)));
        assert(s.drop_last() =~= decimal(n / 10));
        assert forall|i: int| 0 <= i < s.len() implies is_figure(#[trigger] s[i]) by {
            if i < s.len() - 1 {
                assert(s[i] == decimal(n / 10)[i]);
            }
        }
        assert(s[0] == decimal(n / 10)[0]);
    }
}

/// Two numbers with the same decimal notation are the same.
pub proof fn law_decimal_tells_numbers_apart(a: nat, b: nat)
    requires
        decimal(a) == decimal(b),
    ensures
        a == b,
{
    law_decimal_denotes_its_number(a);
    law_decimal_denotes_its_number(b);
}

/// A number below zero is written with a minus sign before what is left without it.
pub proof fn law_signed_decimal(n: int)
    ensures
        n < 0 ==> signed_decimal(n) == seq!['-'] + decimal((-n) as nat),
        n >= 0 ==> signed_decimal(n) == decimal(n as nat),
{
    reveal_strlit("-");
    assert("-"@ =~= seq!['-']);
}

/// Hexadecimal notation denotes its number: it is made of digits and the letters a
/// to f, whose value is the number, without zeros before it.
pub proof fn law_hexadecimal_denotes_its_number(n: nat)
    ensures
        value_in_base(hexadecimal(n), 16) == n,
        hexadecimal(n).len() > 0,
        forall|i: int|
            0 <= i < hexadecimal(n).len() ==> is_figure(#[trigger] hexadecimal(n)[i])
                || is_hex_letter(hexadecimal(n)[i]),
        hexadecimal(n)[0] == '0' <==> n == 0,
    decreases n,
{
    let s = hexadecimal(n);
    if n < 16 {
        lemma_digit(n as int);
        assert(s =~= seq![digit(n as int)]);
        assert(s.drop_last() =~= seq![]);
        assert(value_in_base(s.drop_last(), 16) == 0);
    } else {
        let d = (n % 16) as int;
        lemma_digit(d);
        law_hexadecimal_denotes_its_number(n / 16);
        assert(s == hexadecimal(n / 16).push(digit(d)));
        assert(s.drop_last() =~= hexadecimal(n / 16));
        assert forall|i: int| 0 <= i < s.len() implies is_figure(#[trigger] s[i]) || is_hex_letter(
            s[i],
        ) by {
            if i < s.len() - 1 {
                assert(s[i] == hexadecimal(n / 16)[i]);
            }
        }
        assert(s[0] == hexadecimal(n / 16)[0]);
    }
}

/// A text is read as a number where it is digits, with at most one plus sign before
/// them, whose value fits; the number is that value.
pub proof fn law_numbers_are_read(s: Seq<char>, n: u64)
    ensures
        unsigned_of(s) == Some(n) <==> behind_plus(s).len() > 0 && (forall|i: int|
            0 <= i < behind_plus(s).len() ==> is_figure(#[trigger] behind_plus(s)[i]))
            && value_in_base(behind_plus(s), 10) == n,
        unsigned_of(s) is None <==> behind_plus(s).len() == 0 || (exists|i: int|
            0 <= i < behind_plus(s).len() && !is_figure(#[trigger] behind_plus(s)[i]))
            || value_in_base(behind_plus(s), 10) > u64::MAX,
{
    law_digits_have_their_value(behind_plus(s));
}

/// What is written in decimal notation is read back as it was.
pub proof fn law_decimal_is_read_back(n: u64)
    ensures
        unsigned_of(decimal(n as nat)) == Some(n),
{
    law_decimal_denotes_its_number(n as nat);
    law_numbers_are_read(decimal(n as nat), n);
    assert(is_figure(decimal(n as nat)[0]));
}

/// A path in a directory is the directory, a slash where it ends in none, and the
/// name; a name from the root stands for itself.
pub proof fn law_path_in_directory(dir: Seq<char>, name: Seq<char>)
    ensures
        name.len() > 0 && name[0] == '/' ==> path_in(dir, name) == name,
        !(name.len() > 0 && name[0] == '/') && dir.len() > 0 && dir.last() != '/' ==> path_in(
            dir,
            name,
        ) == dir + seq!['/'] + name,
        !(name.len() > 0 && name[0] == '/') && !(dir.len() > 0 && dir.last() != '/') ==> path_in(
            dir,
            name,
        ) == dir + name,
{
    reveal_strlit("/");
    assert("/"@ =~= seq!['/']);
}

// ---------------------------------------------------------------------------
// Order
// ---------------------------------------------------------------------------

/// A text is the beginning of another.
pub open spec fn is_beginning(a: Seq<char>, b: Seq<char>) -> bool {
    a.len() <= b.len() && forall|i: int| 0 <= i < a.len() ==> #[trigger] a[i] == b[i]
}

/// Two texts are the same up to a place, where the first has the smaller character.
pub open spec fn falls_below_at(a: Seq<char>, b: Seq<char>, k: int) -> bool {
    &&& 0 <= k < a.len()
    &&& k < b.len()
    &&& forall|i: int| 0 <= i < k ==> #[trigger] a[i] == b[i]
    &&& (a[k] as u32) < (b[k] as u32)
}

/// A text comes before another where it is the beginning of it, or has the smaller
/// character at the first place where they differ.
pub proof fn law_order_of_texts(a: Seq<char>, b: Seq<char>)
    ensures
        precedes(a, b) <==> is_beginning(a, b) || exists|k: int| #[trigger]
            falls_below_at(a, b, k),
    decreases a.len(),
{
    if a.len() > 0 && b.len() > 0 {
        if a[0] != b[0] {
            if (a[0] as u32) < (b[0] as u32) {
                assert(falls_below_at(a, b, 0));
            }
            assert forall|k: int| #[trigger] falls_below_at(a, b, k) implies k == 0 by {
                if k > 0 {
                    assert(a[0] == b[0]);
                }
            }
        } else {
            let c = a.skip(1);
            let d = b.skip(1);
            law_order_of_texts(c, d);
            if is_beginning(c, d) {
                assert forall|i: int| 0 <= i < a.len() implies #[trigger] a[i] == b[i] by {
                    if i > 0 {
                        assert(c[i - 1] == d[i - 1]);
                    }
                }
            }
            if is_beginning(a, b) {
                assert forall|i: int| 0 <= i < c.len() implies #[trigger] c[i] == d[i] by {
                    assert(a[i + 1] == b[i + 1]);
                }
            }
            if exists|k: int| #[trigger] falls_below_at(c, d, k) {
                let k = choose|k: int| #[trigger] falls_below_at(c, d, k);
                assert forall|i: int| 0 <= i < k + 1 implies #[trigger] a[i] == b[i] by {
                    if i > 0 {
                        assert(c[i - 1] == d[i - 1]);
                    }
                }
                assert(falls_below_at(a, b, k + 1));
            }
            if exists|k: int| #[trigger] falls_below_at(a, b, k) {
                let k = choose|k: int| #[trigger] falls_below_at(a, b, k);
                assert(k > 0);
                assert forall|i: int| 0 <= i < k - 1 implies #[trigger] c[i] == d[i] by {
                    assert(a[i + 1] == b[i + 1]);
                }
                assert(falls_below_at(c, d, k - 1));
            }
        }
    }
}

} // verus!
