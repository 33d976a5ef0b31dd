//! Wildcard patterns: `*` stands for any run of bytes, `?` for any single byte.

use vstd::prelude::*;

verus! {

pub const STAR: u8 = 42;

pub const ANY_BYTE: u8 = 63;

/// What a wildcard pattern stands for: `*` for any run of bytes, `?` for one byte, and every
/// other byte for itself.
pub open spec fn glob(p: Seq<u8>, t: Seq<u8>) -> bool
    decreases p.len() + t.len(),
{
    if p.len() == 0 {
        t.len() == 0
    } else if p[0] == STAR {
        glob(p.skip(1), t) || (t.len() > 0 && glob(p, t.skip(1)))
    } else {
        t.len() > 0 && (p[0] == ANY_BYTE || p[0] == t[0]) && glob(p.skip(1), t.skip(1))
    }
}

/// The scan of `t` for the pattern `p`, from byte `pi` of the pattern and byte `ti` of the
/// text. A `*` of the pattern is remembered with the place in the text that it was met at;
/// where the scan fails, it goes on from there with one more byte given to that `*`. A byte
/// of the pattern that equals the byte of the text is taken as it is, a `*` that meets a `*`
/// too.
pub open spec fn scan(p: Seq<u8>, t: Seq<u8>, pi: int, ti: int, star: Option<(int, int)>) -> bool
    decreases
            (match star {
                Some(at) => t.len() - at.1,
                None => t.len() + 1int,
            }),
            t.len() - ti,
            p.len() - pi,
{
    if !scan_state(p, t, pi, ti, star) {
        false
    } else if ti < t.len() {
        if pi < p.len() && (p[pi] == ANY_BYTE || p[pi] == t[ti]) {
            scan(p, t, pi + 1, ti + 1, star)
        } else if pi < p.len() && p[pi] == STAR {
            scan(p, t, pi + 1, ti, Some((pi, ti)))
        } else {
            match star {
                Some(at) => scan(p, t, at.0 + 1, at.1 + 1, Some((at.0, at.1 + 1))),
                None => false,
            }
        }
    } else {
        forall|x: int| pi <= x < p.len() ==> p[x] == STAR
    }
}

/// Indices that a scan can reach.
pub open spec fn scan_state(
    p: Seq<u8>,
    t: Seq<u8>,
    pi: int,
    ti: int,
    star: Option<(int, int)>,
) -> bool {
    &&& 0 <= pi <= p.len()
    &&& 0 <= ti <= t.len()
    &&& match star {
        Some(at) => 0 <= at.0 < pi && 0 <= at.1 <= ti,
        None => true,
    }
}

/// The answer for a whole pattern and a whole text.
pub open spec fn wildcard(p: Seq<u8>, t: Seq<u8>) -> bool {
    scan(p, t, 0, 0, None)
}

/// The answer for a pattern and a text in characters: both are read as UTF-8.
pub open spec fn text_matches(pattern: Seq<char>, text: Seq<char>) -> bool {
    wildcard(vstd::utf8::encode_utf8(pattern), vstd::utf8::encode_utf8(text))
}

spec fn glob_from(p: Seq<u8>, t: Seq<u8>, i: int, j: int) -> bool {
    glob(p.skip(i), t.skip(j))
}

proof fn lemma_glob_step(p: Seq<u8>, t: Seq<u8>, i: int, j: int)
    requires
        0 <= i <= p.len(),
        0 <= j <= t.len(),
    ensures
        glob_from(p, t, i, j) == (if i == p.len() {
            j == t.len()
        } else if p[i] == STAR {
            glob_from(p, t, i + 1, j) || (j < t.len() && glob_from(p, t, i, j + 1))
        } else {
            j < t.len() && (p[i] == ANY_BYTE || p[i] == t[j]) && glob_from(p, t, i + 1, j + 1)
        }),
{
    if i < p.len() {
        assert(p.skip(i).skip(1) =~= p.skip(i + 1));
    }
    if j < t.len() {
        assert(t.skip(j).skip(1) =~= t.skip(j + 1));
    }
}

/// A run of `n` bytes of the pattern without a `*` takes `n` bytes of the text.
proof fn lemma_glob_run(p: Seq<u8>, t: Seq<u8>, i: int, j: int, n: nat)
    requires
        0 <= i,
        i + n <= p.len(),
        0 <= j <= t.len(),
        forall|x: int| i <= x < i + n ==> p[x] != STAR,
        glob_from(p, t, i, j),
    ensures
        j + n <= t.len(),
        glob_from(p, t, i + n, j + n),
    decreases n,
{
    if n > 0 {
        lemma_glob_step(p, t, i, j);
        lemma_glob_run(p, t, i + 1, j + 1, (n - 1) as nat);
    }
}

/// Where such a run agrees with the text, the rest decides.
proof fn lemma_glob_run_back(p: Seq<u8>, t: Seq<u8>, i: int, j: int, n: nat)
    requires
        0 <= i,
        i + n <= p.len(),
        0 <= j,
        j + n <= t.len(),
        forall|x: int| 0 <= x < n ==> #[trigger] p[i + x] != STAR,
        forall|x: int| 0 <= x < n ==> #[trigger] p[i + x] == ANY_BYTE || p[i + x] == t[j + x],
        glob_from(p, t, i + n, j + n),
    ensures
        glob_from(p, t, i, j),
    decreases n,
{
    if n > 0 {
        assert(p[i + 0] != STAR);
        assert forall|x: int| 0 <= x < n - 1 implies #[trigger] p[i + 1 + x] != STAR by {
            assert(p[i + (x + 1)] != STAR);
        }
        assert forall|x: int| 0 <= x < n - 1 implies #[trigger] p[i + 1 + x] == ANY_BYTE || p[i + 1
            + x] == t[j + 1 + x] by {
            assert(p[i + (x + 1)] == ANY_BYTE || p[i + (x + 1)] == t[j + (x + 1)]);
        }
        lemma_glob_run_back(p, t, i + 1, j + 1, (n - 1) as nat);
        lemma_glob_step(p, t, i, j);
    }
}

/// A `*` can take more of the text.
proof fn lemma_glob_star_grows(p: Seq<u8>, t: Seq<u8>, i: int, j: int, later: int)
    requires
        0 <= i < p.len(),
        p[i] == STAR,
        0 <= j <= later <= t.len(),
        glob_from(p, t, i, later),
    ensures
        glob_from(p, t, i, j),
    decreases later - j,
{
    if j < later {
        lemma_glob_star_grows(p, t, i, j + 1, later);
        lemma_glob_step(p, t, i, j);
    }
}

/// A `*` gives up the text at some place.
proof fn lemma_glob_star_ends(p: Seq<u8>, t: Seq<u8>, i: int, j: int) -> (end: int)
    requires
        0 <= i < p.len(),
        p[i] == STAR,
        0 <= j <= t.len(),
        glob_from(p, t, i, j),
    ensures
        j <= end <= t.len(),
        glob_from(p, t, i + 1, end),
    decreases t.len() - j,
{
    lemma_glob_step(p, t, i, j);
    if glob_from(p, t, i + 1, j) {
        j
    } else {
        lemma_glob_star_ends(p, t, i, j + 1)
    }
}

proof fn lemma_glob_at_end(p: Seq<u8>, t: Seq<u8>, i: int)
    requires
        0 <= i <= p.len(),
    ensures
        glob_from(p, t, i, t.len() as int) == (forall|x: int| i <= x < p.len() ==> p[x] == STAR),
    decreases p.len() - i,
{
    lemma_glob_step(p, t, i, t.len() as int);
    if i < p.len() {
        lemma_glob_at_end(p, t, i + 1);
    }
}

/// What the scan has learnt when it stands at `pi` and `ti`: since the remembered `*`, the
/// pattern held no `*` and agreed with the text byte by byte.
spec fn scan_agrees(p: Seq<u8>, t: Seq<u8>, pi: int, ti: int, star: Option<(int, int)>) -> bool {
    match star {
        Some(at) => {
            &&& p[at.0] == STAR
            &&& pi - (at.0 + 1) == ti - at.1
            &&& forall|x: int|
                0 <= x < ti - at.1 ==> #[trigger] p[at.0 + 1 + x] != STAR && (p[at.0 + 1 + x]
                    == ANY_BYTE || p[at.0 + 1 + x] == t[at.1 + x])
        },
        None => true,
    }
}

/// Whether the pattern from an index on has no `*`, or the text has none.
spec fn stars_apart(p: Seq<u8>, t: Seq<u8>, from: int) -> bool {
    forall|i: int, j: int|
        from <= i < p.len() && 0 <= j < t.len() ==> #[trigger] p[i] != STAR || #[trigger] t[j]
            != STAR
}

proof fn lemma_scan_is_glob(p: Seq<u8>, t: Seq<u8>, pi: int, ti: int, star: Option<(int, int)>)
    requires
        scan_state(p, t, pi, ti, star),
        scan_agrees(p, t, pi, ti, star),
        stars_apart(
            p,
            t,
            match star {
                Some(at) => at.0 + 1,
                None => pi,
            },
        ),
    ensures
        scan(p, t, pi, ti, star) == (match star {
            Some(at) => glob_from(p, t, at.0, at.1),
            None => glob_from(p, t, pi, ti),
        }),
    decreases
            (match star {
                Some(at) => t.len() - at.1,
                None => t.len() + 1int,
            }),
            t.len() - ti,
            p.len() - pi,
{
    lemma_glob_step(p, t, pi, ti);
    if ti < t.len() {
        assert(pi < p.len() ==> p[pi] != STAR || t[ti] != STAR);
        if pi < p.len() && (p[pi] == ANY_BYTE || p[pi] == t[ti]) {
            if let Some(at) = star {
                assert forall|x: int| 0 <= x < ti + 1 - at.1 implies #[trigger] p[at.0 + 1 + x]
                    != STAR && (p[at.0 + 1 + x] == ANY_BYTE || p[at.0 + 1 + x] == t[at.1 + x]) by {
                    if x == ti - at.1 {
                        assert(at.0 + 1 + x == pi);
                    }
                }
            }
            lemma_scan_is_glob(p, t, pi + 1, ti + 1, star);
        } else if pi < p.len() && p[pi] == STAR {
            lemma_scan_is_glob(p, t, pi + 1, ti, Some((pi, ti)));
            if let Some(at) = star {
                lemma_star_to_star(p, t, pi, ti, at);
            }
        } else if let Some(at) = star {
            lemma_scan_is_glob(p, t, at.0 + 1, at.1 + 1, Some((at.0, at.1 + 1)));
            lemma_glob_step(p, t, at.0, at.1);
            if glob_from(p, t, at.0 + 1, at.1) {
                assert forall|x: int| at.0 + 1 <= x < pi implies p[x] != STAR by {
                    assert(p[at.0 + 1 + (x - (at.0 + 1))] != STAR);
                }
                lemma_glob_run(p, t, at.0 + 1, at.1, (ti - at.1) as nat);
            }
        }
    } else {
        lemma_glob_at_end(p, t, pi);
        if let Some(at) = star {
            lemma_star_at_end(p, t, pi, at);
        }
    }
}

/// Between two `*` the first place that fits is as good as any later one.
proof fn lemma_star_to_star(p: Seq<u8>, t: Seq<u8>, pi: int, ti: int, at: (int, int))
    requires
        scan_state(p, t, pi, ti, Some(at)),
        scan_agrees(p, t, pi, ti, Some(at)),
        pi < p.len(),
        p[pi] == STAR,
    ensures
        glob_from(p, t, at.0, at.1) == glob_from(p, t, pi, ti),
{
    let n = (ti - at.1) as nat;
    if glob_from(p, t, pi, ti) {
        lemma_glob_run_back(p, t, at.0 + 1, at.1, n);
        lemma_glob_step(p, t, at.0, at.1);
    }
    if glob_from(p, t, at.0, at.1) {
        let end = lemma_glob_star_ends(p, t, at.0, at.1);
        assert forall|x: int| at.0 + 1 <= x < at.0 + 1 + n implies p[x] != STAR by {
            assert(p[at.0 + 1 + (x - (at.0 + 1))] != STAR);
        }
        lemma_glob_run(p, t, at.0 + 1, end, n);
        lemma_glob_star_grows(p, t, pi, ti, end + n);
    }
}

proof fn lemma_star_at_end(p: Seq<u8>, t: Seq<u8>, pi: int, at: (int, int))
    requires
        scan_state(p, t, pi, t.len() as int, Some(at)),
        scan_agrees(p, t, pi, t.len() as int, Some(at)),
    ensures
        glob_from(p, t, at.0, at.1) == glob_from(p, t, pi, t.len() as int),
{
    let n = (t.len() - at.1) as nat;
    if glob_from(p, t, pi, t.len() as int) {
        lemma_glob_run_back(p, t, at.0 + 1, at.1, n);
        lemma_glob_step(p, t, at.0, at.1);
    }
    if glob_from(p, t, at.0, at.1) {
        let end = lemma_glob_star_ends(p, t, at.0, at.1);
        assert forall|x: int| at.0 + 1 <= x < at.0 + 1 + n implies p[x] != STAR by {
            assert(p[at.0 + 1 + (x - (at.0 + 1))] != STAR);
        }
        lemma_glob_run(p, t, at.0 + 1, end, n);
    }
}

/// On every text without a `*`, the scan answers what the pattern stands for.
pub proof fn wildcard_is_glob(p: Seq<u8>, t: Seq<u8>)
    requires
        !t.contains(STAR),
    ensures
        wildcard(p, t) == glob(p, t),
{
    assert(forall|j: int| 0 <= j < t.len() ==> t.contains(#[trigger] t[j]));
    lemma_scan_is_glob(p, t, 0, 0, None);
    assert(p.skip(0) =~= p);
    assert(t.skip(0) =~= t);
}

/// Every text, read as a pattern, matches itself.
pub proof fn wildcard_matches_itself(t: Seq<u8>)
    ensures
        wildcard(t, t),
{
    lemma_scan_itself(t, 0);
}

proof fn lemma_scan_itself(t: Seq<u8>, i: int)
    requires
        0 <= i <= t.len(),
    ensures
        scan(t, t, i, i, None),
    decreases t.len() - i,
{
    if i < t.len() {
        lemma_scan_itself(t, i + 1);
    }
}

/// In UTF-8 only the character `*` is written with the byte of `*`.
proof fn lemma_star_is_ascii(chars: Seq<char>)
    requires
        !chars.contains('*'),
    ensures
        !vstd::utf8::encode_utf8(chars).contains(STAR),
    decreases chars.len(),
{
    if chars.len() > 0 {
        let c = chars[0];
        assert(c != '*') by {
            assert(chars.contains(chars[0]));
        }
        let rest = chars.drop_first();
        assert forall|x: char| rest.contains(x) implies chars.contains(x) by {
            let i = choose|i: int| 0 <= i < rest.len() && rest[i] == x;
            assert(chars[i + 1] == x);
        }
        lemma_star_is_ascii(rest);
        vstd::utf8::char_is_scalar(c);
        vstd::utf8::char_u32_cast(c, c as u32);
        assert(42u32 as char == '*');
        lemma_scalar_bytes(c as u32);
        let head = vstd::utf8::encode_scalar(c as u32);
        let all = vstd::utf8::encode_utf8(chars);
        assert(all =~= head + vstd::utf8::encode_utf8(rest));
        assert forall|i: int| 0 <= i < all.len() implies all[i] != STAR by {
            if i >= head.len() {
                assert(vstd::utf8::encode_utf8(rest).contains(all[i]));
            }
        }
    }
}

proof fn lemma_scalar_bytes(u: u32)
    requires
        vstd::utf8::is_scalar(u),
        u != 42,
    ensures
        forall|i: int|
            0 <= i < vstd::utf8::encode_scalar(u).len() ==> #[trigger] vstd::utf8::encode_scalar(
                u,
            )[i] != STAR,
{
    assert((0x80u8 | (u & 0x3f) as u8) != 42) by (bit_vector);
    assert((0x80u8 | ((u >> 6) & 0x3f) as u8) != 42) by (bit_vector);
    assert((0x80u8 | ((u >> 12) & 0x3f) as u8) != 42) by (bit_vector);
    assert((0xc0u8 | ((u >> 6) & 0x1f) as u8) != 42) by (bit_vector);
    assert((0xe0u8 | ((u >> 12) & 0x0f) as u8) != 42) by (bit_vector);
    assert((0xf0u8 | ((u >> 18) & 0x07) as u8) != 42) by (bit_vector);
    assert(u <= 0x7f && u != 42 ==> (u & 0x7f) as u8 != 42) by (bit_vector);
}

/// Whether `text` as a whole matches `pattern`, byte by byte.
#[verifier::loop_isolation(false)]
pub fn wildcard_match(pattern: &str, text: &str) -> (r: bool)
    ensures
        r == text_matches(pattern@, text@),
        !text@.contains('*') ==> r == glob(
            vstd::utf8::encode_utf8(pattern@),
            vstd::utf8::encode_utf8(text@),
        ),
{
    let ghost chars = text@;
    let pattern = pattern.as_bytes();
    let text = text.as_bytes();
    let mut pattern_index: usize = 0;
    let mut text_index: usize = 0;
    let mut star_index: Option<usize> = None;
    let mut star_text_index: usize = 0;
    let ghost mut star: Option<(int, int)> = None;
    proof {
        if !chars.contains('*') {
            lemma_star_is_ascii(chars);
            wildcard_is_glob(pattern@, text@);
        }
    }
    while text_index < text.len()
        invariant
            scan_state(pattern@, text@, pattern_index as int, text_index as int, star),
            star == (match star_index {
                Some(s) => Some((s as int, star_text_index as int)),
                None => None::<(int, int)>,
            }),
            scan(pattern@, text@, pattern_index as int, text_index as int, star) == wildcard(
                pattern@,
                text@,
            ),
        decreases
                (match star {
                    Some(at) => text@.len() - at.1,
                    None => text@.len() + 1int,
                }),
                text@.len() - text_index,
                pattern@.len() - pattern_index,
    {
        if pattern_index < pattern.len() && (pattern[pattern_index] == ANY_BYTE
            || pattern[pattern_index] == text[text_index]) {
            pattern_index = pattern_index + 1;
            text_index = text_index + 1;
        } else if pattern_index < pattern.len() && pattern[pattern_index] == STAR {
            star_index = Some(pattern_index);
            star_text_index = text_index;
            proof {
                star = Some((pattern_index as int, text_index as int));
            }
            pattern_index = pattern_index + 1;
        } else if let Some(s) = star_index {
            pattern_index = s + 1;
            star_text_index = star_text_index + 1;
            text_index = star_text_index;
            proof {
                star = Some((s as int, star_text_index as int));
            }
        } else {
            return false;
        }
    }
    let ghost stopped = pattern_index as int;
    while pattern_index < pattern.len() && pattern[pattern_index] == STAR
        invariant
            0 <= stopped <= pattern_index <= pattern@.len(),
            forall|x: int| stopped <= x < pattern_index ==> pattern@[x] == STAR,
        decreases pattern@.len() - pattern_index,
    {
        pattern_index = pattern_index + 1;
    }
    pattern_index == pattern.len()
}

/// Whatever a pattern matches, its glob matches, also in a text with a `*`.
pub proof fn wildcard_is_within_glob(p: Seq<u8>, t: Seq<u8>)
    ensures
        wildcard(p, t) ==> glob(p, t),
{
    if wildcard(p, t) {
        lemma_scan_within_glob(p, t, 0, 0, None);
        assert(p.skip(0) =~= p);
        assert(t.skip(0) =~= t);
    }
}

proof fn lemma_scan_within_glob(
    p: Seq<u8>,
    t: Seq<u8>,
    pi: int,
    ti: int,
    star: Option<(int, int)>,
)
    requires
        scan_state(p, t, pi, ti, star),
        star matches Some(at) ==> p[at.0] == STAR,
        scan(p, t, pi, ti, star),
    ensures
        glob_from(p, t, pi, ti) || (match star {
            Some(at) => glob_from(p, t, at.0, at.1),
            None => false,
        }),
    decreases
            (match star {
                Some(at) => t.len() - at.1,
                None => t.len() + 1int,
            }),
            t.len() - ti,
            p.len() - pi,
{
    lemma_glob_step(p, t, pi, ti);
    if ti < t.len() {
        if pi < p.len() && (p[pi] == ANY_BYTE || p[pi] == t[ti]) {
            lemma_scan_within_glob(p, t, pi + 1, ti + 1, star);
            lemma_glob_step(p, t, pi, ti + 1);
        } else if pi < p.len() && p[pi] == STAR {
            lemma_scan_within_glob(p, t, pi + 1, ti, Some((pi, ti)));
        } else {
            let at = star->0;
            lemma_scan_within_glob(p, t, at.0 + 1, at.1 + 1, Some((at.0, at.1 + 1)));
            lemma_glob_step(p, t, at.0, at.1 + 1);
            lemma_glob_step(p, t, at.0, at.1);
        }
    } else {
        lemma_glob_at_end(p, t, pi);
    }
}

/// A pattern without `*` answers what it stands for on every text, also on one with a `*`.
pub proof fn pattern_without_star_is_glob(p: Seq<u8>, t: Seq<u8>)
    requires
        !p.contains(STAR),
    ensures
        wildcard(p, t) == glob(p, t),
{
    assert(forall|i: int| 0 <= i < p.len() ==> p.contains(#[trigger] p[i]));
    lemma_scan_is_glob(p, t, 0, 0, None);
    assert(p.skip(0) =~= p);
    assert(t.skip(0) =~= t);
}

/// So does a pattern with one `*`, unless the text has a `*` in the same place.
pub proof fn pattern_with_one_star_is_glob(a: Seq<u8>, b: Seq<u8>, t: Seq<u8>)
    requires
        !a.contains(STAR),
        !b.contains(STAR),
        a.len() < t.len() ==> t[a.len() as int] != STAR,
    ensures
        wildcard(a + seq![STAR] + b, t) == glob(a + seq![STAR] + b, t),
{
    let p = a + seq![STAR] + b;
    let k = a.len() as int;
    assert forall|i: int| 0 <= i < k implies p[i] != STAR by {
        assert(a.contains(a[i]));
    }
    assert forall|i: int| k < i < p.len() implies p[i] != STAR by {
        assert(b.contains(b[i - k - 1]));
    }
    lemma_scan_to_star(p, t, 0, k);
    assert(p.skip(0) =~= p);
    assert(t.skip(0) =~= t);
}

proof fn lemma_scan_to_star(p: Seq<u8>, t: Seq<u8>, i: int, k: int)
    requires
        0 <= i <= k < p.len(),
        i <= t.len(),
        p[k] == STAR,
        forall|x: int| 0 <= x < p.len() && x != k ==> p[x] != STAR,
        k < t.len() ==> t[k] != STAR,
    ensures
        scan(p, t, i, i, None) == glob_from(p, t, i, i),
    decreases k - i,
{
    lemma_glob_step(p, t, i, i);
    if i == t.len() {
        lemma_glob_at_end(p, t, i);
    } else if i < k {
        if p[i] == ANY_BYTE || p[i] == t[i] {
            lemma_scan_to_star(p, t, i + 1, k);
        }
    } else {
        lemma_scan_is_glob(p, t, k + 1, k, Some((k, k)));
    }
}

/// A pattern of one byte: `*` matches every text, `?` every text of one byte, and any other
/// byte only itself. The empty pattern matches the empty text alone.
pub proof fn one_byte_patterns(c: u8, t: Seq<u8>)
    ensures
        glob(Seq::empty(), t) <==> t.len() == 0,
        glob(seq![STAR], t),
        glob(seq![ANY_BYTE], t) <==> t.len() == 1,
        c != STAR && c != ANY_BYTE ==> (glob(seq![c], t) <==> t == seq![c]),
        STAR == 42 && ANY_BYTE == 63,
    decreases t.len(),
{
    reveal_with_fuel(glob, 2);
    assert(seq![STAR].skip(1) =~= Seq::empty());
    assert(seq![ANY_BYTE].skip(1) =~= Seq::empty());
    assert(seq![c].skip(1) =~= Seq::empty());
    if t.len() > 0 {
        one_byte_patterns(c, t.skip(1));
        if t.len() == 1 {
            assert(t =~= seq![t[0]]);
        }
    }
}

/// Two patterns one behind the other match a text that falls into two parts, of which the
/// first pattern matches the first and the second the second.
pub proof fn patterns_match_part_by_part(p: Seq<u8>, q: Seq<u8>, t: Seq<u8>)
    ensures
        glob(p + q, t) <==> exists|n: int|
            0 <= n <= t.len() && glob(p, #[trigger] t.take(n)) && glob(q, t.skip(n)),
{
    if glob(p + q, t) {
        let n = lemma_glob_falls_apart(p, q, t);
        assert(glob(p, t.take(n)) && glob(q, t.skip(n)));
    }
    if exists|n: int|
        0 <= n <= t.len() && glob(p, #[trigger] t.take(n)) && glob(q, t.skip(n)) {
        let n = choose|n: int|
            0 <= n <= t.len() && glob(p, #[trigger] t.take(n)) && glob(q, t.skip(n));
        lemma_glob_comes_together(p, q, t, n);
    }
}

proof fn lemma_glob_falls_apart(p: Seq<u8>, q: Seq<u8>, t: Seq<u8>) -> (n: int)
    requires
        glob(p + q, t),
    ensures
        0 <= n <= t.len(),
        glob(p, t.take(n)),
        glob(q, t.skip(n)),
    decreases p.len() + t.len(),
{
    if p.len() == 0 {
        assert(p + q =~= q);
        assert(t.skip(0) =~= t);
        0
    } else {
        assert((p + q).skip(1) =~= p.skip(1) + q);
        assert((p + q)[0] == p[0]);
        if p[0] == STAR && glob(p.skip(1) + q, t) {
            lemma_glob_falls_apart(p.skip(1), q, t)
        } else {
            let n = if p[0] == STAR {
                lemma_glob_falls_apart(p, q, t.skip(1))
            } else {
                lemma_glob_falls_apart(p.skip(1), q, t.skip(1))
            };
            assert(t.take(n + 1).skip(1) =~= t.skip(1).take(n));
            assert(t.skip(n + 1) =~= t.skip(1).skip(n));
            assert(t.take(n + 1)[0] == t[0]);
            n + 1
        }
    }
}

proof fn lemma_glob_comes_together(p: Seq<u8>, q: Seq<u8>, t: Seq<u8>, n: int)
    requires
        0 <= n <= t.len(),
        glob(p, t.take(n)),
        glob(q, t.skip(n)),
    ensures
        glob(p + q, t),
    decreases p.len() + t.len(),
{
    if p.len() == 0 {
        assert(p + q =~= q);
        assert(t.skip(0) =~= t);
    } else {
        assert((p + q).skip(1) =~= p.skip(1) + q);
        assert((p + q)[0] == p[0]);
        if p[0] == STAR && glob(p.skip(1), t.take(n)) {
            lemma_glob_comes_together(p.skip(1), q, t, n);
        } else {
            assert(n > 0);
            assert(t.take(n).skip(1) =~= t.skip(1).take(n - 1));
            assert(t.skip(n) =~= t.skip(1).skip(n - 1));
            assert(t.take(n)[0] == t[0]);
            if p[0] == STAR {
                lemma_glob_comes_together(p, q, t.skip(1), n - 1);
            } else {
                lemma_glob_comes_together(p.skip(1), q, t.skip(1), n - 1);
            }
        }
    }
}

/// A pattern without `*` matches a text of its own length that has the same bytes, or any byte
/// where the pattern has `?`.
pub proof fn pattern_without_star_is_compared(p: Seq<u8>, t: Seq<u8>)
    requires
        !p.contains(STAR),
    ensures
        glob(p, t) <==> p.len() == t.len() && forall|i: int|
            0 <= i < p.len() ==> #[trigger] p[i] == ANY_BYTE || p[i] == t[i],
    decreases p.len(),
{
    if p.len() > 0 {
        assert(p[0] != STAR);
        if t.len() > 0 {
            assert forall|k: int| 0 <= k < p.skip(1).len() implies p.skip(1)[k] != STAR by {
                assert(p[k + 1] != STAR);
            }
            pattern_without_star_is_compared(p.skip(1), t.skip(1));
            let same = forall|i: int|
                0 <= i < p.len() ==> #[trigger] p[i] == ANY_BYTE || p[i] == t[i];
            let same_rest = forall|i: int|
                0 <= i < p.skip(1).len() ==> #[trigger] p.skip(1)[i] == ANY_BYTE || p.skip(1)[i]
                    == t.skip(1)[i];
            if same && p.len() == t.len() {
                assert forall|i: int| 0 <= i < p.skip(1).len() implies #[trigger] p.skip(1)[i]
                    == ANY_BYTE || p.skip(1)[i] == t.skip(1)[i] by {
                    assert(p[i + 1] == ANY_BYTE || p[i + 1] == t[i + 1]);
                }
            }
            if same_rest && (p[0] == ANY_BYTE || p[0] == t[0]) && p.len() == t.len() {
                assert forall|i: int| 0 <= i < p.len() implies #[trigger] p[i] == ANY_BYTE || p[i]
                    == t[i] by {
                    if i > 0 {
                        assert(p.skip(1)[i - 1] == ANY_BYTE || p.skip(1)[i - 1] == t.skip(1)[i
                            - 1]);
                    }
                }
            }
            if same {
                assert(p[0] == ANY_BYTE || p[0] == t[0]);
            }
        }
    }
}

/// A pattern matches a text without `*` exactly when its glob matches the bytes of the text.
pub proof fn text_match_is_glob(pattern: Seq<char>, text: Seq<char>)
    requires
        !text.contains('*'),
    ensures
        text_matches(pattern, text) <==> glob(
            vstd::utf8::encode_utf8(pattern),
            vstd::utf8::encode_utf8(text),
        ),
{
    lemma_star_is_ascii(text);
    wildcard_is_glob(vstd::utf8::encode_utf8(pattern), vstd::utf8::encode_utf8(text));
}

} // verus!
