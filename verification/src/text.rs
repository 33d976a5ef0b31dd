//! Character sequences: the trimming, splitting and joining that the rest of the library
//! reads text with.

use vstd::prelude::*;

verus! {

/// `String::push` appends the given character to the end of the string.
pub assume_specification[ String::push ](s: &mut String, c: char)
    ensures
        final(s)@ == old(s)@.push(c),
;

/// The Unicode `White_Space` property.
pub open spec fn is_white_space(c: char) -> bool {
    let u = c as u32;
    ||| 0x09 <= u <= 0x0d
    ||| u == 0x20
    ||| u == 0x85
    ||| u == 0xa0
    ||| u == 0x1680
    ||| 0x2000 <= u <= 0x200a
    ||| u == 0x2028
    ||| u == 0x2029
    ||| u == 0x202f
    ||| u == 0x205f
    ||| u == 0x3000
}

/// `s` without the white space that it starts with.
pub open spec fn trim_start(s: Seq<char>) -> Seq<char>
    decreases s.len(),
{
    if s.len() > 0 && is_white_space(s[0]) {
        trim_start(s.skip(1))
    } else {
        s
    }
}

/// `s` without the white space that it ends with.
pub open spec fn trim_end(s: Seq<char>) -> Seq<char>
    decreases s.len(),
{
    if s.len() > 0 && is_white_space(s.last()) {
        trim_end(s.drop_last())
    } else {
        s
    }
}

/// `s` without white space on either side.
pub open spec fn trim(s: Seq<char>) -> Seq<char> {
    trim_end(trim_start(s))
}

/// `s` without the run of `c` that it ends with.
pub open spec fn trim_end_char(s: Seq<char>, c: char) -> Seq<char>
    decreases s.len(),
{
    if s.len() > 0 && s.last() == c {
        trim_end_char(s.drop_last(), c)
    } else {
        s
    }
}

/// The pieces of `s` between the occurrences of `sep`: always one more than there are
/// occurrences.
pub open spec fn split(s: Seq<char>, sep: char) -> Seq<Seq<char>>
    decreases s.len(),
{
    if s.len() == 0 {
        seq![Seq::empty()]
    } else {
        let before = split(s.drop_last(), sep);
        if s.last() == sep {
            before.push(Seq::empty())
        } else {
            before.drop_last().push(before.last().push(s.last()))
        }
    }
}

/// The parts in order, with `sep` between neighbours.
pub open spec fn join(parts: Seq<Seq<char>>, sep: char) -> Seq<char>
    decreases parts.len(),
{
    if parts.len() == 0 {
        Seq::empty()
    } else if parts.len() == 1 {
        parts[0]
    } else {
        join(parts.drop_last(), sep).push(sep) + parts.last()
    }
}

/// The lines of a text whose lines end in a line feed; what follows the last line feed is
/// a line only if it is not empty.
pub open spec fn feed_lines(s: Seq<char>) -> Seq<Seq<char>> {
    let pieces = split(s, '\n');
    if pieces.last().len() == 0 {
        pieces.drop_last()
    } else {
        pieces
    }
}

/// A line that ended in a line feed, without the carriage return before it.
pub open spec fn strip_return(line: Seq<char>) -> Seq<char> {
    if line.len() > 0 && line.last() == '\r' {
        line.drop_last()
    } else {
        line
    }
}

/// The lines of a text whose lines end in a line feed or in a carriage return and a line
/// feed. A last line that nothing ends keeps what it holds.
pub open spec fn text_lines(s: Seq<char>) -> Seq<Seq<char>> {
    let pieces = split(s, '\n');
    let ended = pieces.drop_last().map_values(|line: Seq<char>| strip_return(line));
    if pieces.last().len() == 0 {
        ended
    } else {
        ended.push(pieces.last())
    }
}

/// `s` with every `from` replaced by the characters of `to`.
pub open spec fn replace(s: Seq<char>, from: char, to: Seq<char>) -> Seq<char>
    decreases s.len(),
{
    if s.len() == 0 {
        Seq::empty()
    } else if s.last() == from {
        replace(s.drop_last(), from, to) + to
    } else {
        replace(s.drop_last(), from, to).push(s.last())
    }
}

/// The index of the first `c`; the length of `s` if there is none.
pub open spec fn first_at(s: Seq<char>, c: char) -> int
    decreases s.len(),
{
    if s.len() == 0 || s[0] == c {
        0
    } else {
        1 + first_at(s.skip(1), c)
    }
}

/// The decimal digits of `n`.
pub open spec fn decimal(n: nat) -> Seq<char>
    decreases n,
{
    if n < 10 {
        seq![(('0' as u32) + n) as char]
    } else {
        decimal(n / 10).push((('0' as u32) + n % 10) as char)
    }
}

/// The contents of each vector.
pub open spec fn views(v: Seq<Vec<char>>) -> Seq<Seq<char>> {
    v.map_values(|x: Vec<char>| x@)
}

/// The contents of each string.
pub open spec fn texts(v: Seq<String>) -> Seq<Seq<char>> {
    v.map_values(|x: String| x@)
}

pub proof fn lemma_split_nonempty(s: Seq<char>, sep: char)
    ensures
        split(s, sep).len() > 0,
    decreases s.len(),
{
    if s.len() > 0 {
        lemma_split_nonempty(s.drop_last(), sep);
    }
}

/// Splitting a text around one of its separators splits both sides.
pub proof fn lemma_split_around(a: Seq<char>, sep: char, b: Seq<char>)
    ensures
        split(a.push(sep) + b, sep) == split(a, sep) + split(b, sep),
    decreases b.len(),
{
    let whole = a.push(sep) + b;
    if b.len() == 0 {
        assert(whole =~= a.push(sep));
        assert(whole.drop_last() =~= a);
        assert(split(a, sep).push(Seq::empty()) =~= split(a, sep) + split(b, sep));
    } else {
        lemma_split_around(a, sep, b.drop_last());
        lemma_split_nonempty(b.drop_last(), sep);
        assert(whole.drop_last() =~= a.push(sep) + b.drop_last());
        let before = split(a, sep) + split(b.drop_last(), sep);
        if b.last() == sep {
            assert(before.push(Seq::empty()) =~= split(a, sep) + split(b, sep));
        } else {
            assert(before.drop_last() =~= split(a, sep) + split(b.drop_last(), sep).drop_last());
            assert(before.drop_last().push(before.last().push(b.last())) =~= split(a, sep) + split(
                b,
                sep,
            ));
        }
    }
}

/// A text without the separator is its only piece.
pub proof fn lemma_split_unbroken(s: Seq<char>, sep: char)
    requires
        !s.contains(sep),
    ensures
        split(s, sep) == seq![s],
    decreases s.len(),
{
    if s.len() > 0 {
        assert(s.last() != sep) by {
            assert(s.contains(s.last()));
        }
        assert forall|c: char| s.drop_last().contains(c) implies s.contains(c) by {
            let i = choose|i: int| 0 <= i < s.drop_last().len() && s.drop_last()[i] == c;
            assert(s[i] == c);
        }
        lemma_split_unbroken(s.drop_last(), sep);
        let before = split(s.drop_last(), sep);
        assert(before.last().push(s.last()) =~= s);
        assert(before.drop_last().push(s) =~= seq![s]);
    } else {
        assert(s =~= Seq::empty());
    }
}

/// Joining the pieces of a text gives the text back.
pub proof fn lemma_join_split(s: Seq<char>, sep: char)
    ensures
        join(split(s, sep), sep) == s,
    decreases s.len(),
{
    if s.len() == 0 {
        assert(s =~= Seq::empty());
    } else {
        let before = split(s.drop_last(), sep);
        lemma_join_split(s.drop_last(), sep);
        lemma_split_nonempty(s.drop_last(), sep);
        let pieces = split(s, sep);
        if s.last() == sep {
            assert(pieces.drop_last() =~= before);
            assert(join(pieces, sep) =~= s.drop_last().push(sep));
            assert(s =~= s.drop_last().push(sep));
        } else {
            assert(pieces.drop_last() =~= before.drop_last());
            assert(s =~= s.drop_last().push(s.last()));
            if before.len() == 1 {
                assert(join(pieces, sep) =~= before[0].push(s.last()));
            } else {
                assert(join(pieces, sep) =~= join(before, sep).push(s.last()));
            }
        }
    }
}

/// Joining two runs of parts.
pub proof fn lemma_join_append(a: Seq<Seq<char>>, b: Seq<Seq<char>>, sep: char)
    requires
        a.len() > 0,
        b.len() > 0,
    ensures
        join(a + b, sep) == join(a, sep).push(sep) + join(b, sep),
    decreases b.len(),
{
    if b.len() == 1 {
        assert((a + b).drop_last() =~= a);
    } else {
        lemma_join_append(a, b.drop_last(), sep);
        assert((a + b).drop_last() =~= a + b.drop_last());
        assert(join(a + b, sep) =~= join(a, sep).push(sep) + join(b, sep));
    }
}

/// A carriage return at the end of a line is white space, so trimming does not see it.
pub proof fn lemma_trim_strip_return(line: Seq<char>)
    ensures
        trim(strip_return(line)) == trim(line),
{
    if line.len() > 0 && line.last() == '\r' {
        let rest = line.drop_last();
        assert(line =~= rest.push('\r'));
        lemma_trim_push_white(rest, '\r');
    }
}

proof fn lemma_trim_push_white(s: Seq<char>, c: char)
    requires
        is_white_space(c),
    ensures
        trim(s.push(c)) == trim(s),
    decreases s.len(),
{
    if s.len() == 0 {
        assert(s =~= Seq::empty());
        assert(s.push(c).skip(1) =~= Seq::empty());
        assert(trim_start(s.push(c)) == trim_start(s.push(c).skip(1)));
    } else if is_white_space(s[0]) {
        lemma_trim_push_white(s.skip(1), c);
        assert(s.push(c).skip(1) =~= s.skip(1).push(c));
    } else {
        assert(s.push(c).drop_last() =~= s);
    }
}

/// Whether `c` is none of the first `n` characters.
pub open spec fn lacks(s: Seq<char>, c: char, n: nat) -> bool
    decreases n,
{
    n == 0 || (s[n - 1] != c && lacks(s, c, (n - 1) as nat))
}

pub proof fn lemma_lacks(s: Seq<char>, c: char, n: nat)
    requires
        lacks(s, c, n),
    ensures
        forall|i: int| 0 <= i < n ==> s[i] != c,
    decreases n,
{
    if n > 0 {
        lemma_lacks(s, c, (n - 1) as nat);
    }
}

proof fn lemma_first_at(s: Seq<char>, c: char, i: int)
    requires
        0 <= i <= s.len(),
        forall|k: int| 0 <= k < i ==> s[k] != c,
        i < s.len() ==> s[i] == c,
    ensures
        first_at(s, c) == i,
    decreases s.len(),
{
    if s.len() > 0 && i > 0 {
        assert(s[0] != c);
        lemma_first_at(s.skip(1), c, i - 1);
    }
}

/// Trimming an empty text leaves it empty.
pub proof fn lemma_trim_empty(s: Seq<char>)
    ensures
        trim(s).len() > 0 ==> s.len() > 0,
{
}

/// Characters of `s` in a vector.
pub fn chars_of(s: &str) -> (r: Vec<char>)
    ensures
        r@ == s@,
{
    let mut r: Vec<char> = Vec::new();
    for c in it: s.chars()
        invariant
            r@ == s@.take(it.index()),
            it.seq() == s@,
    {
        r.push(c);
        assert(s@.take(it.index() + 1) =~= s@.take(it.index()).push(c));
    }
    assert(s@.take(s@.len() as int) =~= s@);
    r
}

/// The string made of the given characters.
pub fn string_of(cs: &[char]) -> (r: String)
    ensures
        r@ == cs@,
{
    let mut r: String = String::new();
    let mut i: usize = 0;
    while i < cs.len()
        invariant
            i <= cs.len(),
            r@ == cs@.take(i as int),
        decreases cs.len() - i,
    {
        r.push(cs[i]);
        assert(cs@.take(i + 1) =~= cs@.take(i as int).push(cs@[i as int]));
        i = i + 1;
    }
    assert(cs@.take(cs@.len() as int) =~= cs@);
    r
}

/// The characters from `from` up to `to`.
pub fn copy_range(cs: &[char], from: usize, to: usize) -> (r: Vec<char>)
    requires
        from <= to <= cs@.len(),
    ensures
        r@ == cs@.subrange(from as int, to as int),
{
    let mut r: Vec<char> = Vec::new();
    let mut i: usize = from;
    while i < to
        invariant
            from <= i <= to <= cs@.len(),
            r@ == cs@.subrange(from as int, i as int),
        decreases to - i,
    {
        r.push(cs[i]);
        assert(cs@.subrange(from as int, i + 1) =~= cs@.subrange(from as int, i as int).push(
            cs@[i as int],
        ));
        i = i + 1;
    }
    r
}

/// Appends the characters of `more`.
pub fn append_chars(to: &mut Vec<char>, more: &[char])
    ensures
        final(to)@ == old(to)@ + more@,
{
    let mut i: usize = 0;
    while i < more.len()
        invariant
            i <= more.len(),
            to@ == old(to)@ + more@.take(i as int),
        decreases more.len() - i,
    {
        to.push(more[i]);
        assert(more@.take(i + 1) =~= more@.take(i as int).push(more@[i as int]));
        i = i + 1;
    }
    assert(more@.take(more@.len() as int) =~= more@);
}

/// Whether two character sequences are the same.
pub fn same_chars(a: &[char], b: &[char]) -> (r: bool)
    ensures
        r == (a@ == b@),
{
    if a.len() != b.len() {
        return false;
    }
    let mut i: usize = 0;
    while i < a.len()
        invariant
            i <= a.len(),
            a@.len() == b@.len(),
            forall|k: int| 0 <= k < i ==> a@[k] == b@[k],
        decreases a.len() - i,
    {
        if a[i] != b[i] {
            return false;
        }
        i = i + 1;
    }
    assert(a@ =~= b@);
    true
}

/// Whether the characters are those of `s`.
pub fn chars_are(cs: &[char], s: &str) -> (r: bool)
    ensures
        r == (cs@ == s@),
{
    let other = chars_of(s);
    same_chars(cs, other.as_slice())
}

/// Whether `c` has the Unicode `White_Space` property.
pub fn white_space(c: char) -> (r: bool)
    ensures
        r == is_white_space(c),
{
    let u: u32 = c as u32;
    (0x09 <= u && u <= 0x0d) || u == 0x20 || u == 0x85 || u == 0xa0 || u == 0x1680 || (0x2000 <= u
        && u <= 0x200a) || u == 0x2028 || u == 0x2029 || u == 0x202f || u == 0x205f || u == 0x3000
}

/// Removes leading white space.
pub fn trimmed_start(cs: &[char]) -> (r: Vec<char>)
    ensures
        r@ == trim_start(cs@),
{
    let mut i: usize = 0;
    assert(cs@.skip(0) =~= cs@);
    while i < cs.len() && white_space(cs[i])
        invariant
            i <= cs.len(),
            trim_start(cs@.skip(i as int)) == trim_start(cs@),
        decreases cs.len() - i,
    {
        assert(cs@.skip(i as int).skip(1) =~= cs@.skip(i + 1));
        i = i + 1;
    }
    assert(cs@.skip(i as int) =~= cs@.subrange(i as int, cs@.len() as int));
    copy_range(cs, i, cs.len())
}

/// Removes trailing white space.
pub fn trimmed_end(cs: &[char]) -> (r: Vec<char>)
    ensures
        r@ == trim_end(cs@),
{
    let mut n: usize = cs.len();
    assert(cs@.take(n as int) =~= cs@);
    while n > 0 && white_space(cs[n - 1])
        invariant
            n <= cs.len(),
            trim_end(cs@.take(n as int)) == trim_end(cs@),
        decreases n,
    {
        assert(cs@.take(n as int).drop_last() =~= cs@.take(n - 1));
        n = n - 1;
    }
    assert(cs@.take(n as int) =~= cs@.subrange(0, n as int));
    copy_range(cs, 0, n)
}

/// Removes white space from both sides.
pub fn trimmed(cs: &[char]) -> (r: Vec<char>)
    ensures
        r@ == trim(cs@),
{
    let front = trimmed_start(cs);
    trimmed_end(front.as_slice())
}

/// Removes the run of `c` at the end.
pub fn trimmed_end_char(cs: &[char], c: char) -> (r: Vec<char>)
    ensures
        r@ == trim_end_char(cs@, c),
{
    let mut n: usize = cs.len();
    assert(cs@.take(n as int) =~= cs@);
    while n > 0 && cs[n - 1] == c
        invariant
            n <= cs.len(),
            trim_end_char(cs@.take(n as int), c) == trim_end_char(cs@, c),
        decreases n,
    {
        assert(cs@.take(n as int).drop_last() =~= cs@.take(n - 1));
        n = n - 1;
    }
    assert(cs@.take(n as int) =~= cs@.subrange(0, n as int));
    copy_range(cs, 0, n)
}

/// The pieces between the occurrences of `sep`.
pub fn pieces(cs: &[char], sep: char) -> (r: Vec<Vec<char>>)
    ensures
        views(r@) == split(cs@, sep),
{
    let mut done: Vec<Vec<char>> = Vec::new();
    let mut cur: Vec<char> = Vec::new();
    let mut i: usize = 0;
    assert(views(done@).push(cur@) =~= split(cs@.take(0), sep));
    while i < cs.len()
        invariant
            i <= cs.len(),
            views(done@).push(cur@) == split(cs@.take(i as int), sep),
        decreases cs.len() - i,
    {
        let ghost before = views(done@).push(cur@);
        assert(cs@.take(i + 1).drop_last() =~= cs@.take(i as int));
        assert(before.drop_last() =~= views(done@));
        if cs[i] == sep {
            done.push(cur);
            proof {
                assert(views(done@) =~= before);
            }
            cur = Vec::new();
        } else {
            cur.push(cs[i]);
        }
        i = i + 1;
    }
    assert(cs@.take(cs@.len() as int) =~= cs@);
    let ghost before = views(done@).push(cur@);
    done.push(cur);
    assert(views(done@) =~= before);
    done
}

/// The parts with `sep` between neighbours.
pub fn joined(parts: &[Vec<char>], sep: char) -> (r: Vec<char>)
    ensures
        r@ == join(views(parts@), sep),
{
    let mut r: Vec<char> = Vec::new();
    let mut i: usize = 0;
    while i < parts.len()
        invariant
            i <= parts.len(),
            r@ == join(views(parts@.take(i as int)), sep),
        decreases parts.len() - i,
    {
        let ghost before = views(parts@.take(i as int));
        let ghost now = views(parts@.take(i + 1));
        assert(now.drop_last() =~= before);
        if i > 0 {
            r.push(sep);
        }
        append_chars(&mut r, parts[i].as_slice());
        assert(now.last() == parts@[i as int]@);
        assert(i == 0 ==> r@ =~= now[0]);
        i = i + 1;
    }
    assert(parts@.take(parts@.len() as int) =~= parts@);
    r
}

/// The strings with `sep` between neighbours.
pub fn joined_texts(parts: &[String], sep: char) -> (r: String)
    ensures
        r@ == join(texts(parts@), sep),
{
    let mut r: String = String::new();
    let mut i: usize = 0;
    while i < parts.len()
        invariant
            i <= parts.len(),
            r@ == join(texts(parts@.take(i as int)), sep),
        decreases parts.len() - i,
    {
        let ghost before = texts(parts@.take(i as int));
        let ghost now = texts(parts@.take(i + 1));
        assert(now.drop_last() =~= before);
        if i > 0 {
            r.push(sep);
        }
        r.append(parts[i].as_str());
        assert(now.last() == parts@[i as int]@);
        assert(i == 0 ==> r@ =~= now[0]);
        i = i + 1;
    }
    assert(parts@.take(parts@.len() as int) =~= parts@);
    r
}

/// The lines of `s`, line feeds ending them.
pub fn lines_by_feed(s: &str) -> (r: Vec<String>)
    ensures
        texts(r@) == feed_lines(s@),
{
    let cs = chars_of(s);
    let parts = pieces(cs.as_slice(), '\n');
    proof {
        lemma_split_nonempty(s@, '\n');
    }
    let n: usize = if parts[parts.len() - 1].len() == 0 {
        parts.len() - 1
    } else {
        parts.len()
    };
    let mut r: Vec<String> = Vec::new();
    let mut i: usize = 0;
    while i < n
        invariant
            i <= n <= parts.len(),
            texts(r@) == views(parts@).take(i as int),
        decreases n - i,
    {
        let line = string_of(parts[i].as_slice());
        let ghost was = texts(r@);
        r.push(line);
        assert(texts(r@) =~= was.push(line@));
        assert(views(parts@).take(i + 1) =~= views(parts@).take(i as int).push(
            views(parts@)[i as int],
        ));
        i = i + 1;
    }
    assert(views(parts@).take(n as int) =~= feed_lines(s@));
    r
}

/// The lines of `s`, a carriage return before a line feed belonging to the ending.
pub fn lines_of_text(s: &str) -> (r: Vec<Vec<char>>)
    ensures
        views(r@) == text_lines(s@),
{
    let cs = chars_of(s);
    let parts = pieces(cs.as_slice(), '\n');
    proof {
        lemma_split_nonempty(s@, '\n');
    }
    let last: usize = parts.len() - 1;
    let ghost all = split(s@, '\n');
    let ghost ended = all.drop_last().map_values(|line: Seq<char>| strip_return(line));
    let mut r: Vec<Vec<char>> = Vec::new();
    let mut i: usize = 0;
    while i < last
        invariant
            i <= last,
            last + 1 == parts.len(),
            all == views(parts@),
            ended == all.drop_last().map_values(|line: Seq<char>| strip_return(line)),
            views(r@) == ended.take(i as int),
        decreases last - i,
    {
        let line = &parts[i];
        let ghost was = views(r@);
        let n: usize = line.len();
        let end: usize = if n > 0 && line[n - 1] == '\r' {
            n - 1
        } else {
            n
        };
        let kept = copy_range(line.as_slice(), 0, end);
        assert(all[i as int] == line@);
        assert(kept@ =~= strip_return(line@));
        r.push(kept);
        assert(views(r@) =~= was.push(kept@));
        assert(ended.take(i + 1) =~= ended.take(i as int).push(ended[i as int]));
        i = i + 1;
    }
    assert(ended.take(last as int) =~= ended);
    if parts[last].len() > 0 {
        let ghost was = views(r@);
        let kept = copy_range(parts[last].as_slice(), 0, parts[last].len());
        assert(kept@ =~= parts@[last as int]@);
        r.push(kept);
        assert(views(r@) =~= was.push(kept@));
        assert(views(r@) =~= text_lines(s@));
    }
    r
}

/// Replaces every `from` by the characters of `to`.
pub fn replaced(cs: &[char], from: char, to: &[char]) -> (r: Vec<char>)
    ensures
        r@ == replace(cs@, from, to@),
{
    let mut r: Vec<char> = Vec::new();
    let mut i: usize = 0;
    while i < cs.len()
        invariant
            i <= cs.len(),
            r@ == replace(cs@.take(i as int), from, to@),
        decreases cs.len() - i,
    {
        assert(cs@.take(i + 1).drop_last() =~= cs@.take(i as int));
        if cs[i] == from {
            append_chars(&mut r, to);
        } else {
            r.push(cs[i]);
        }
        i = i + 1;
    }
    assert(cs@.take(cs@.len() as int) =~= cs@);
    r
}

/// The index of the first `c`, if there is one.
pub fn first_index(cs: &[char], c: char) -> (r: Option<usize>)
    ensures
        match r {
            Some(i) => i < cs@.len() && cs@[i as int] == c && i == first_at(cs@, c),
            None => !cs@.contains(c) && first_at(cs@, c) == cs@.len(),
        },
{
    let mut i: usize = 0;
    while i < cs.len()
        invariant
            i <= cs.len(),
            forall|k: int| 0 <= k < i ==> cs@[k] != c,
        decreases cs.len() - i,
    {
        if cs[i] == c {
            proof {
                lemma_first_at(cs@, c, i as int);
            }
            return Some(i);
        }
        i = i + 1;
    }
    proof {
        lemma_first_at(cs@, c, i as int);
    }
    None
}

/// Whether `cs` starts with the characters of `prefix`.
pub fn starts_with(cs: &[char], prefix: &str) -> (r: bool)
    ensures
        r == prefix@.is_prefix_of(cs@),
{
    let p = chars_of(prefix);
    if p.len() > cs.len() {
        return false;
    }
    let head = copy_range(cs, 0, p.len());
    same_chars(p.as_slice(), head.as_slice())
}

/// Whether `cs` ends with the characters of `suffix`.
pub fn ends_with(cs: &[char], suffix: &str) -> (r: bool)
    ensures
        r == suffix@.is_suffix_of(cs@),
{
    let p = chars_of(suffix);
    if p.len() > cs.len() {
        return false;
    }
    let tail = copy_range(cs, cs.len() - p.len(), cs.len());
    same_chars(p.as_slice(), tail.as_slice())
}

/// `n` in decimal digits.
pub fn decimal_chars(n: usize) -> (r: Vec<char>)
    ensures
        r@ == decimal(n as nat),
    decreases n,
{
    let digit: u8 = (n % 10) as u8;
    let c: char = (48 + digit) as char;
    if n < 10 {
        let mut r: Vec<char> = Vec::new();
        r.push(c);
        assert(r@ =~= decimal(n as nat));
        r
    } else {
        let mut r = decimal_chars(n / 10);
        r.push(c);
        r
    }
}

} // verus!
