//! What holds of the functions on text, whatever the text is.

use vstd::prelude::*;

use crate::digest;
use crate::text;

verus! {

/// The number that some decimal digits stand for.
pub open spec fn number_of(digits: Seq<char>) -> int {
    digits.fold_left(0int, |n: int, c: char| 10 * n + (c as int - 48))
}

/// Whether some text is made of decimal digits alone.
pub open spec fn all_digits(s: Seq<char>) -> bool {
    forall|i: int| 0 <= i < s.len() ==> 48 <= #[trigger] s[i] as int <= 57
}

/// The digits that a number is written with stand for that number, and none of them is an
/// idle zero in front.
pub proof fn decimal_stands_for_its_number(n: nat)
    ensures
        number_of(text::decimal(n)) == n,
        all_digits(text::decimal(n)),
        text::decimal(n).len() > 0,
        n > 0 ==> text::decimal(n)[0] != '0',
        n == 0 ==> text::decimal(n) == seq!['0'],
    decreases n,
{
    reveal_with_fuel(Seq::fold_left, 2);
    let s = text::decimal(n);
    let f = |m: int, c: char| 10 * m + (c as int - 48);
    if n < 10 {
        let c = (('0' as u32) + n) as char;
        assert(c as int == 48 + n);
        assert(s.drop_last() =~= Seq::empty());
        assert(s.drop_last().fold_left(0int, f) == 0);
        assert(s.last() == c);
    } else {
        decimal_stands_for_its_number(n / 10);
        let c = (('0' as u32) + n % 10) as char;
        assert(c as int == 48 + n % 10);
        assert(s.drop_last() =~= text::decimal(n / 10));
        assert(s.last() == c);
        assert(number_of(s) == 10 * number_of(text::decimal(n / 10)) + (c as int - 48));
    }
}

/// A larger number is not written with fewer digits.
pub proof fn larger_numbers_are_not_shorter(a: nat, b: nat)
    requires
        a <= b,
    ensures
        text::decimal(a).len() <= text::decimal(b).len(),
    decreases b,
{
    if b >= 10 {
        if a >= 10 {
            larger_numbers_are_not_shorter(a / 10, b / 10);
        } else {
            decimal_stands_for_its_number(b / 10);
        }
    }
}

/// Among the characters of ASCII, only the blank and the five controls from the tab to the
/// carriage return are white space.
pub proof fn ascii_white_space(c: char)
    requires
        (c as u32) < 128,
    ensures
        text::is_white_space(c) <==> c == ' ' || 9 <= c as u32 <= 13,
{
}

/// Text without the white space in front is the longest end of it that starts with no white
/// space: only white space is taken away.
pub proof fn trim_start_takes_white_space(s: Seq<char>) -> (i: int)
    ensures
        0 <= i <= s.len(),
        text::trim_start(s) == s.skip(i),
        forall|k: int| 0 <= k < i ==> text::is_white_space(#[trigger] s[k]),
        i < s.len() ==> !text::is_white_space(s[i]),
    decreases s.len(),
{
    if s.len() > 0 && text::is_white_space(s[0]) {
        let i = trim_start_takes_white_space(s.skip(1)) + 1;
        assert(s.skip(1).skip(i - 1) =~= s.skip(i));
        assert forall|k: int| 0 <= k < i implies text::is_white_space(#[trigger] s[k]) by {
            if k > 0 {
                assert(s.skip(1)[k - 1] == s[k]);
            }
        }
        i
    } else {
        assert(s.skip(0) =~= s);
        0
    }
}

/// Text without the white space at the end is the longest front of it that ends with no white
/// space.
pub proof fn trim_end_takes_white_space(s: Seq<char>) -> (j: int)
    ensures
        0 <= j <= s.len(),
        text::trim_end(s) == s.take(j),
        forall|k: int| j <= k < s.len() ==> text::is_white_space(#[trigger] s[k]),
        j > 0 ==> !text::is_white_space(s[j - 1]),
    decreases s.len(),
{
    if s.len() > 0 && text::is_white_space(s.last()) {
        let j = trim_end_takes_white_space(s.drop_last());
        assert(s.drop_last().take(j) =~= s.take(j));
        assert forall|k: int| j <= k < s.len() implies text::is_white_space(#[trigger] s[k]) by {
            if k < s.len() - 1 {
                assert(s.drop_last()[k] == s[k]);
            }
        }
        j
    } else {
        assert(s.take(s.len() as int) =~= s);
        s.len() as int
    }
}

/// Trimmed text is what stands between the first and the last character that is no white
/// space: it neither starts nor ends with white space, and only white space is taken away.
pub proof fn trim_takes_white_space(s: Seq<char>) -> (r: (int, int))
    ensures
        0 <= r.0 <= r.1 <= s.len(),
        text::trim(s) == s.subrange(r.0, r.1),
        forall|k: int| 0 <= k < r.0 ==> text::is_white_space(#[trigger] s[k]),
        forall|k: int| r.1 <= k < s.len() ==> text::is_white_space(#[trigger] s[k]),
        r.0 < r.1 ==> !text::is_white_space(s[r.0]) && !text::is_white_space(s[r.1 - 1]),
{
    let i = trim_start_takes_white_space(s);
    let rest = text::trim_start(s);
    let j = trim_end_takes_white_space(rest);
    assert(rest.take(j) =~= s.subrange(i, i + j));
    assert forall|k: int| i + j <= k < s.len() implies text::is_white_space(#[trigger] s[k]) by {
        assert(rest[k - i] == s[k]);
    }
    if j > 0 {
        assert(rest[j - 1] == s[i + j - 1]);
    }
    (i, i + j)
}

/// What is taken off the end is a run of the character, and all of it.
pub proof fn trim_end_char_takes_the_run(s: Seq<char>, c: char) -> (j: int)
    ensures
        0 <= j <= s.len(),
        text::trim_end_char(s, c) == s.take(j),
        forall|k: int| j <= k < s.len() ==> #[trigger] s[k] == c,
        j > 0 ==> s[j - 1] != c,
    decreases s.len(),
{
    if s.len() > 0 && s.last() == c {
        let j = trim_end_char_takes_the_run(s.drop_last(), c);
        assert(s.drop_last().take(j) =~= s.take(j));
        assert forall|k: int| j <= k < s.len() implies #[trigger] s[k] == c by {
            if k < s.len() - 1 {
                assert(s.drop_last()[k] == s[k]);
            }
        }
        j
    } else {
        assert(s.take(s.len() as int) =~= s);
        s.len() as int
    }
}

/// Text that is cut at a character falls into one piece more than it holds of that character;
/// no piece holds it, and the pieces with the character between them are the text.
pub proof fn pieces_make_up_the_text(s: Seq<char>, sep: char)
    ensures
        text::split(s, sep).len() == s.filter(|c: char| c == sep).len() + 1,
        forall|i: int|
            0 <= i < text::split(s, sep).len() ==> !(#[trigger] text::split(s, sep)[i]).contains(
                sep,
            ),
        text::join(text::split(s, sep), sep) == s,
    decreases s.len(),
{
    text::lemma_join_split(s, sep);
    reveal(Seq::filter);
    let pieces = text::split(s, sep);
    if s.len() > 0 {
        let front = s.drop_last();
        pieces_make_up_the_text(front, sep);
        let before = text::split(front, sep);
        assert forall|i: int| 0 <= i < pieces.len() implies !(#[trigger] pieces[i]).contains(
            sep,
        ) by {
            if i < before.len() - 1 {
                assert(pieces[i] == before[i]);
            } else if s.last() == sep {
                if i == before.len() - 1 {
                    assert(pieces[i] == before[i]);
                }
            } else {
                let last = before[before.len() - 1];
                assert(pieces[i] == last.push(s.last()));
                assert(!last.contains(sep));
                if pieces[i].contains(sep) {
                    let k = choose|k: int| 0 <= k < pieces[i].len() && pieces[i][k] == sep;
                    assert(k < last.len() ==> last[k] == sep);
                }
            }
        }
    }
}

/// Pieces without the character, put together with it between them, are found again when the
/// text is cut.
pub proof fn joined_pieces_are_found_again(parts: Seq<Seq<char>>, sep: char)
    requires
        parts.len() > 0,
        forall|i: int| 0 <= i < parts.len() ==> !(#[trigger] parts[i]).contains(sep),
    ensures
        text::split(text::join(parts, sep), sep) == parts,
    decreases parts.len(),
{
    if parts.len() == 1 {
        assert(!parts[0].contains(sep));
        text::lemma_split_unbroken(parts[0], sep);
        assert(parts =~= seq![parts[0]]);
    } else {
        let front = parts.drop_last();
        assert forall|i: int| 0 <= i < front.len() implies !(#[trigger] front[i]).contains(sep) by {
            assert(front[i] == parts[i]);
        }
        joined_pieces_are_found_again(front, sep);
        assert(!parts[parts.len() - 1].contains(sep));
        text::lemma_split_unbroken(parts.last(), sep);
        text::lemma_split_around(text::join(front, sep), sep, parts.last());
        assert(front + seq![parts.last()] =~= parts);
    }
}

/// One piece is put together to itself, two with the character between them, and lists of
/// pieces in the same way.
pub proof fn joining_puts_the_character_between(
    a: Seq<Seq<char>>,
    b: Seq<Seq<char>>,
    piece: Seq<char>,
    sep: char,
)
    requires
        a.len() > 0,
        b.len() > 0,
    ensures
        text::join(Seq::empty(), sep) == Seq::<char>::empty(),
        text::join(seq![piece], sep) == piece,
        text::join(a + b, sep) == text::join(a, sep) + seq![sep] + text::join(b, sep),
{
    text::lemma_join_append(a, b, sep);
    assert(text::join(a, sep).push(sep) =~= text::join(a, sep) + seq![sep]);
}

/// The lines of a text hold no line feed, and with a line feed between them they are the text,
/// but for the one at its end.
pub proof fn lines_make_up_the_text(s: Seq<char>)
    ensures
        forall|i: int|
            0 <= i < text::feed_lines(s).len() ==> !(#[trigger] text::feed_lines(s)[i]).contains(
                '\n',
            ),
        s.len() == 0 ==> text::feed_lines(s).len() == 0,
        s.len() > 0 ==> text::feed_lines(s).len() > 0,
        s.len() > 0 && s.last() == '\n' ==> text::join(text::feed_lines(s), '\n').push('\n') == s,
        s.len() > 0 && s.last() != '\n' ==> text::join(text::feed_lines(s), '\n') == s,
{
    pieces_make_up_the_text(s, '\n');
    let pieces = text::split(s, '\n');
    let lines = text::feed_lines(s);
    assert forall|i: int| 0 <= i < lines.len() implies !(#[trigger] lines[i]).contains('\n') by {
        assert(lines[i] == pieces[i]);
    }
    if s.len() > 0 {
        let before = text::split(s.drop_last(), '\n');
        text::lemma_split_nonempty(s.drop_last(), '\n');
        if s.last() == '\n' {
            assert(pieces.last() =~= Seq::empty());
            assert(pieces.drop_last() =~= before);
            text::lemma_join_split(s.drop_last(), '\n');
            assert(s.drop_last().push('\n') =~= s);
        } else {
            assert(pieces.last() == before.last().push(s.last()));
            assert(pieces.len() == before.len());
        }
    } else {
        assert(pieces.last() =~= Seq::empty());
    }
}

/// The lines that the rules are read from are the same, but for one carriage return in front
/// of a line feed.
pub proof fn text_lines_lose_a_return(s: Seq<char>, i: int)
    requires
        0 <= i < text::feed_lines(s).len(),
    ensures
        text::text_lines(s).len() == text::feed_lines(s).len(),
        ({
            let line = text::feed_lines(s)[i];
            let ended = i + 1 < text::feed_lines(s).len() || s.last() == '\n';
            if ended && line.len() > 0 && line.last() == '\r' {
                text::text_lines(s)[i].push('\r') == line
            } else {
                text::text_lines(s)[i] == line
            }
        }),
{
    let pieces = text::split(s, '\n');
    text::lemma_split_nonempty(s, '\n');
    lines_make_up_the_text(s);
    if s.len() > 0 {
        text::lemma_split_nonempty(s.drop_last(), '\n');
        if s.last() == '\n' {
            assert(pieces.last() =~= Seq::empty());
        } else {
            assert(pieces.last().len() > 0);
        }
    }
    let line = text::feed_lines(s)[i];
    if line.len() > 0 && line.last() == '\r' {
        assert(line.drop_last().push('\r') =~= line);
    }
}

/// Replacing a character works on each part of the text by itself: where the character
/// stands, its replacement stands, and every other character is kept.
pub proof fn replacing_works_on_each_part(
    a: Seq<char>,
    b: Seq<char>,
    from: char,
    to: Seq<char>,
)
    ensures
        text::replace(Seq::empty(), from, to) == Seq::<char>::empty(),
        text::replace(seq![from], from, to) == to,
        forall|c: char| c != from ==> #[trigger] text::replace(seq![c], from, to) == seq![c],
        text::replace(a + b, from, to) == text::replace(a, from, to) + text::replace(b, from, to),
    decreases b.len(),
{
    reveal_with_fuel(text::replace, 2);
    assert(seq![from].drop_last() =~= Seq::empty());
    assert(text::replace(seq![from], from, to) =~= to);
    assert forall|c: char| c != from implies #[trigger] text::replace(seq![c], from, to) == seq![
        c,
    ] by {
        assert(seq![c].drop_last() =~= Seq::empty());
        assert(text::replace(seq![c], from, to) =~= seq![c]);
    }
    if b.len() == 0 {
        assert(a + b =~= a);
        assert(text::replace(a, from, to) + text::replace(b, from, to) =~= text::replace(
            a,
            from,
            to,
        ));
    } else {
        replacing_works_on_each_part(a, b.drop_last(), from, to);
        assert((a + b).drop_last() =~= a + b.drop_last());
        assert(text::replace(a + b, from, to) =~= text::replace(a, from, to) + text::replace(
            b,
            from,
            to,
        ));
    }
}

/// Text without the character is not changed by replacing it.
pub proof fn replacing_nothing_changes_nothing(s: Seq<char>, from: char, to: Seq<char>)
    requires
        !s.contains(from),
    ensures
        text::replace(s, from, to) == s,
    decreases s.len(),
{
    if s.len() > 0 {
        assert(s[s.len() - 1] != from);
        assert forall|k: int| 0 <= k < s.len() - 1 implies s.drop_last()[k] != from by {
            assert(s[k] != from);
        }
        replacing_nothing_changes_nothing(s.drop_last(), from, to);
        assert(s.drop_last().push(s.last()) =~= s);
    }
}

/// The place of a character is the first index at which it stands, or the end of the text.
pub proof fn first_at_is_first(s: Seq<char>, c: char)
    ensures
        0 <= text::first_at(s, c) <= s.len(),
        forall|k: int| 0 <= k < text::first_at(s, c) ==> #[trigger] s[k] != c,
        text::first_at(s, c) < s.len() ==> s[text::first_at(s, c)] == c,
    decreases s.len(),
{
    if s.len() > 0 && s[0] != c {
        first_at_is_first(s.skip(1), c);
        let i = text::first_at(s, c);
        assert forall|k: int| 0 <= k < i implies #[trigger] s[k] != c by {
            if k > 0 {
                assert(s.skip(1)[k - 1] == s[k]);
            }
        }
    }
}

/// Each byte is written with two digits to the base of sixteen, the larger one first: a digit
/// below ten as itself, and the others as letters from `a` on.
pub proof fn hex_writes_each_byte(bytes: Seq<u8>, i: int)
    requires
        0 <= i < bytes.len(),
    ensures
        digest::hex(bytes).len() == 2 * bytes.len(),
        digest::hex(bytes)[2 * i] == digest::hex_digit(bytes[i] as int / 16),
        digest::hex(bytes)[2 * i + 1] == digest::hex_digit(bytes[i] as int % 16),
        forall|n: int| 0 <= n < 10 ==> #[trigger] digest::hex_digit(n) as int == 48 + n,
        forall|n: int| 10 <= n < 16 ==> #[trigger] digest::hex_digit(n) as int == 97 + (n - 10),
    decreases bytes.len(),
{
    let front = bytes.drop_last();
    lemma_hex_len(front);
    if i < front.len() {
        hex_writes_each_byte(front, i);
        assert(front[i] == bytes[i]);
    }
}

proof fn lemma_hex_len(bytes: Seq<u8>)
    ensures
        digest::hex(bytes).len() == 2 * bytes.len(),
    decreases bytes.len(),
{
    if bytes.len() > 0 {
        lemma_hex_len(bytes.drop_last());
    }
}

/// Different bytes are written differently.
pub proof fn different_bytes_have_different_hex(a: Seq<u8>, b: Seq<u8>)
    requires
        digest::hex(a) == digest::hex(b),
    ensures
        a == b,
{
    lemma_hex_len(a);
    lemma_hex_len(b);
    assert forall|i: int| 0 <= i < a.len() implies a[i] == b[i] by {
        hex_writes_each_byte(a, i);
        hex_writes_each_byte(b, i);
        let x = a[i] as int;
        let y = b[i] as int;
        assert(x / 16 < 16 && y / 16 < 16);
        assert(digest::hex_digit(x / 16) as int == digest::hex_digit(y / 16) as int);
        assert(digest::hex_digit(x % 16) as int == digest::hex_digit(y % 16) as int);
        assert(x / 16 == y / 16);
        assert(x % 16 == y % 16);
    }
    assert(a =~= b);
}

/// The white space of the other scripts is what Unicode calls so: the next line, the no-break
/// blank, the blanks of different width, the separators of lines and paragraphs, and the
/// blanks of Ogham and of the ideographs.
pub proof fn unicode_white_space(c: char)
    ensures
        text::is_white_space(c) <==> seq![
            9int,
            10,
            11,
            12,
            13,
            32,
            133,
            160,
            5760,
            8192,
            8193,
            8194,
            8195,
            8196,
            8197,
            8198,
            8199,
            8200,
            8201,
            8202,
            8232,
            8233,
            8239,
            8287,
            12288,
        ].contains(c as int),
{
    let all = seq![
        9int,
        10,
        11,
        12,
        13,
        32,
        133,
        160,
        5760,
        8192,
        8193,
        8194,
        8195,
        8196,
        8197,
        8198,
        8199,
        8200,
        8201,
        8202,
        8232,
        8233,
        8239,
        8287,
        12288,
    ];
    let u = c as int;
    assert(all[0] == 9 && all[1] == 10 && all[2] == 11 && all[3] == 12 && all[4] == 13);
    assert(all[5] == 32 && all[6] == 133 && all[7] == 160 && all[8] == 5760 && all[9] == 8192);
    assert(all[10] == 8193 && all[11] == 8194 && all[12] == 8195 && all[13] == 8196);
    assert(all[14] == 8197 && all[15] == 8198 && all[16] == 8199 && all[17] == 8200);
    assert(all[18] == 8201 && all[19] == 8202 && all[20] == 8232 && all[21] == 8233);
    assert(all[22] == 8239 && all[23] == 8287 && all[24] == 12288);
    if text::is_white_space(c) {
        assert(all.contains(u));
    }
    if all.contains(u) {
        let i = choose|i: int| 0 <= i < all.len() && all[i] == u;
        assert(0 <= i < 25);
    }
}

} // verus!
