//! Character-level text helpers: whitespace, trimming, searching and
//! splitting, each stated over the `Seq<char>` view of a string.
use vstd::prelude::*;
use vstd::string::*;

verus! {

broadcast use vstd::string::group_string_axioms;

// ---------------------------------------------------------------------------
// Specification
// ---------------------------------------------------------------------------

/// The Unicode `White_Space` characters, as `char::is_whitespace` knows them.
pub open spec fn is_whitespace(c: char) -> bool {
    ||| ('\u{09}' <= c && c <= '\u{0D}')
    ||| c == ' '
    ||| c == '\u{85}'
    ||| c == '\u{A0}'
    ||| c == '\u{1680}'
    ||| ('\u{2000}' <= c && c <= '\u{200A}')
    ||| c == '\u{2028}'
    ||| c == '\u{2029}'
    ||| c == '\u{202F}'
    ||| c == '\u{205F}'
    ||| c == '\u{3000}'
}

/// `s` without its leading whitespace.
pub open spec fn trimmed_start(s: Seq<char>) -> Seq<char>
    decreases s.len(),
{
    if s.len() > 0 && is_whitespace(s[0]) {
        trimmed_start(s.drop_first())
    } else {
        s
    }
}

/// `s` without its trailing whitespace.
pub open spec fn trimmed_end(s: Seq<char>) -> Seq<char>
    decreases s.len(),
{
    if s.len() > 0 && is_whitespace(s.last()) {
        trimmed_end(s.drop_last())
    } else {
        s
    }
}

/// `s` without its leading and trailing whitespace.
pub open spec fn trimmed(s: Seq<char>) -> Seq<char> {
    trimmed_end(trimmed_start(s))
}

/// `pat` occurs in `s` starting at position `i`.
pub open spec fn matches_at(s: Seq<char>, pat: Seq<char>, i: int) -> bool {
    &&& 0 <= i
    &&& i + pat.len() <= s.len()
    &&& s.subrange(i, i + pat.len()) == pat
}

/// The first position at or after `i` where `pat` occurs in `s`, or -1.
pub open spec fn first_match_from(s: Seq<char>, pat: Seq<char>, i: int) -> int
    decreases s.len() - i,
{
    if i < 0 || i + pat.len() > s.len() {
        -1
    } else if pat.len() == 0 || matches_at(s, pat, i) {
        i
    } else {
        first_match_from(s, pat, i + 1)
    }
}

/// The first position where `pat` occurs in `s`, or -1.
pub open spec fn first_match(s: Seq<char>, pat: Seq<char>) -> int {
    first_match_from(s, pat, 0)
}

/// `s` cut at each non-overlapping occurrence of the non-empty `pat`,
/// scanning from the left; an `s` without `pat` is one piece.
pub open spec fn pieces(s: Seq<char>, pat: Seq<char>) -> Seq<Seq<char>>
    decreases s.len(),
{
    if pat.len() == 0 {
        seq![s]
    } else {
        let k = first_match(s, pat);
        if k < 0 {
            seq![s]
        } else {
            proof {
                lemma_first_match_from(s, pat, 0);
            }
            seq![s.take(k)] + pieces(s.skip(k + pat.len()), pat)
        }
    }
}

/// The pieces of `ps` with `sep` between each two of them.
pub open spec fn joined(ps: Seq<Seq<char>>, sep: Seq<char>) -> Seq<char>
    decreases ps.len(),
{
    if ps.len() == 0 {
        Seq::empty()
    } else if ps.len() == 1 {
        ps[0]
    } else {
        ps[0] + sep + joined(ps.drop_first(), sep)
    }
}

/// The views of a sequence of string slices.
pub open spec fn views<'a>(ss: Seq<&'a str>) -> Seq<Seq<char>> {
    ss.map_values(|p: &'a str| p@)
}

/// The views of a sequence of strings.
pub open spec fn string_views(ss: Seq<String>) -> Seq<Seq<char>> {
    ss.map_values(|p: String| p@)
}

/// The characters of `v` between the two positions of a span.
pub open spec fn span_text(v: Seq<char>, span: (usize, usize)) -> Seq<char> {
    v.subrange(span.0 as int, span.1 as int)
}

// ---------------------------------------------------------------------------
// Lemmas
// ---------------------------------------------------------------------------

/// What the search finds: a match, and none before it; or no match at all.
pub proof fn lemma_first_match_from(s: Seq<char>, pat: Seq<char>, i: int)
    requires
        0 <= i,
    ensures
        first_match_from(s, pat, i) == -1 || i <= first_match_from(s, pat, i),
        first_match_from(s, pat, i) >= 0 ==> matches_at(s, pat, first_match_from(s, pat, i)),
        forall|j: int|
            i <= j && (j < first_match_from(s, pat, i) || first_match_from(s, pat, i) == -1)
                ==> !#[trigger] matches_at(s, pat, j),
    decreases s.len() - i,
{
    if i + pat.len() > s.len() {
    } else if pat.len() == 0 {
        assert(s.subrange(i, i) =~= pat);
    } else if matches_at(s, pat, i) {
    } else {
        lemma_first_match_from(s, pat, i + 1);
    }
}

proof fn lemma_trimmed_start_shape(s: Seq<char>)
    ensures
        exists|a: int|
            0 <= a <= s.len() && trimmed_start(s) == s.skip(a) && (forall|j: int|
                0 <= j < a ==> is_whitespace(#[trigger] s[j])),
        trimmed_start(s).len() > 0 ==> !is_whitespace(trimmed_start(s)[0]),
    decreases s.len(),
{
    if s.len() > 0 && is_whitespace(s[0]) {
        let t = s.drop_first();
        lemma_trimmed_start_shape(t);
        let a = choose|a: int|
            0 <= a <= t.len() && trimmed_start(t) == t.skip(a) && (forall|j: int|
                0 <= j < a ==> is_whitespace(#[trigger] t[j]));
        assert(t.skip(a) =~= s.skip(a + 1));
        assert forall|j: int| 0 <= j < a + 1 implies is_whitespace(#[trigger] s[j]) by {
            if j > 0 {
                assert(s[j] == t[j - 1]);
            }
        }
    } else {
        assert(s.skip(0) =~= s);
    }
}

proof fn lemma_trimmed_end_shape(s: Seq<char>)
    ensures
        exists|b: int|
            0 <= b <= s.len() && trimmed_end(s) == s.take(b) && (forall|j: int|
                b <= j < s.len() ==> is_whitespace(#[trigger] s[j])),
        trimmed_end(s).len() > 0 ==> !is_whitespace(trimmed_end(s).last()),
    decreases s.len(),
{
    if s.len() > 0 && is_whitespace(s.last()) {
        let t = s.drop_last();
        lemma_trimmed_end_shape(t);
        let b = choose|b: int|
            0 <= b <= t.len() && trimmed_end(t) == t.take(b) && (forall|j: int|
                b <= j < t.len() ==> is_whitespace(#[trigger] t[j]));
        assert(t.take(b) =~= s.take(b));
        assert forall|j: int| b <= j < s.len() implies is_whitespace(#[trigger] s[j]) by {
            if j < s.len() - 1 {
                assert(s[j] == t[j]);
            }
        }
    } else {
        assert(s.take(s.len() as int) =~= s);
    }
}

proof fn lemma_trimmed_end_keeps_first(s: Seq<char>)
    requires
        s.len() > 0,
        !is_whitespace(s[0]),
    ensures
        trimmed_end(s).len() > 0,
        trimmed_end(s)[0] == s[0],
    decreases s.len(),
{
    if is_whitespace(s.last()) {
        lemma_trimmed_end_keeps_first(s.drop_last());
    }
}

proof fn lemma_trimmed_start_fixed(s: Seq<char>)
    requires
        s.len() == 0 || !is_whitespace(s[0]),
    ensures
        trimmed_start(s) == s,
{
}

proof fn lemma_trimmed_end_fixed(s: Seq<char>)
    requires
        s.len() == 0 || !is_whitespace(s.last()),
    ensures
        trimmed_end(s) == s,
{
}

/// Law: among ASCII characters, the whitespace is the space, tab, line
/// feed, vertical tab, form feed and carriage return.
pub proof fn law_ascii_whitespace(c: char)
    requires
        c <= '\u{7F}',
    ensures
        is_whitespace(c) <==> (c == ' ' || c == '\t' || c == '\n' || c == '\u{0B}' || c == '\u{0C}'
            || c == '\r'),
{
}

/// Law: trimming removes exactly the leading and the trailing whitespace.
/// What it keeps is one contiguous part of the text, everything cut away on
/// either side of it is whitespace, and the kept part neither starts nor ends
/// with whitespace; so trimming twice is trimming once.
pub proof fn law_trim_removes_only_surrounding_whitespace(s: Seq<char>)
    ensures
        exists|a: int, b: int|
            #![trigger s.subrange(a, b)]
            0 <= a <= b <= s.len() && trimmed(s) == s.subrange(a, b) && (forall|j: int|
                0 <= j < a ==> is_whitespace(#[trigger] s[j])) && (forall|j: int|
                b <= j < s.len() ==> is_whitespace(#[trigger] s[j])),
        trimmed(s).len() > 0 ==> !is_whitespace(trimmed(s)[0]) && !is_whitespace(
            trimmed(s).last(),
        ),
        trimmed(trimmed(s)) == trimmed(s),
{
    lemma_trimmed_start_shape(s);
    let a = choose|a: int|
        0 <= a <= s.len() && trimmed_start(s) == s.skip(a) && (forall|j: int|
            0 <= j < a ==> is_whitespace(#[trigger] s[j]));
    let t = trimmed_start(s);
    lemma_trimmed_end_shape(t);
    let b = choose|b: int|
        0 <= b <= t.len() && trimmed_end(t) == t.take(b) && (forall|j: int|
            b <= j < t.len() ==> is_whitespace(#[trigger] t[j]));
    assert(t.take(b) =~= s.subrange(a, a + b));
    assert forall|j: int| a + b <= j < s.len() implies is_whitespace(#[trigger] s[j]) by {
        assert(s[j] == t[j - a]);
    }
    let r = trimmed(s);
    if r.len() > 0 {
        assert(t.len() > 0);
        lemma_trimmed_end_keeps_first(t);
    }
    lemma_trimmed_start_fixed(r);
    lemma_trimmed_end_fixed(r);
}

/// Law: joining the pieces of `s` with `pat` between them gives `s` back.
pub proof fn law_pieces_join_back(s: Seq<char>, pat: Seq<char>)
    requires
        pat.len() > 0,
    ensures
        joined(pieces(s, pat), pat) == s,
        pieces(s, pat).len() >= 1,
    decreases s.len(),
{
    let k = first_match(s, pat);
    lemma_first_match_from(s, pat, 0);
    if k < 0 {
    } else {
        let rest = s.skip(k + pat.len());
        law_pieces_join_back(rest, pat);
        let ps = pieces(s, pat);
        assert(ps.drop_first() =~= pieces(rest, pat));
        assert(s =~= s.take(k) + pat + rest);
    }
}

/// Law: no piece of `s` holds `pat`; the pieces are cut at every occurrence.
pub proof fn law_pieces_hold_no_separator(s: Seq<char>, pat: Seq<char>)
    requires
        pat.len() > 0,
    ensures
        forall|i: int| 0 <= i < pieces(s, pat).len() ==> first_match(#[trigger] pieces(s, pat)[i], pat) == -1,
    decreases s.len(),
{
    let k = first_match(s, pat);
    lemma_first_match_from(s, pat, 0);
    if k < 0 {
        lemma_first_match_from(s, pat, 0);
    } else {
        let rest = s.skip(k + pat.len());
        law_pieces_hold_no_separator(rest, pat);
        let ps = pieces(s, pat);
        let head = s.take(k);
        lemma_first_match_from(head, pat, 0);
        if first_match(head, pat) >= 0 {
            let j = first_match(head, pat);
            assert(head.subrange(j, j + pat.len()) =~= s.subrange(j, j + pat.len()));
            assert(matches_at(s, pat, j));
        }
        assert forall|i: int| 0 <= i < ps.len() implies first_match(#[trigger] ps[i], pat) == -1 by {
            if i > 0 {
                assert(ps[i] == pieces(rest, pat)[i - 1]);
            }
        }
    }
}

/// The first match in `s` is at `r` when `pat` occurs there and nowhere
/// before.
proof fn lemma_first_match_is(s: Seq<char>, pat: Seq<char>, r: int)
    requires
        matches_at(s, pat, r),
        forall|j: int| 0 <= j < r ==> !#[trigger] matches_at(s, pat, j),
    ensures
        first_match(s, pat) == r,
{
    lemma_first_match_from(s, pat, 0);
    let f = first_match(s, pat);
    if f == -1 {
        assert(!matches_at(s, pat, r));
    } else if f < r {
        assert(!matches_at(s, pat, f));
    } else if f > r {
        assert(!matches_at(s, pat, r));
    }
}

/// A one-character pattern occurs exactly where that character stands.
proof fn lemma_matches_one_char(s: Seq<char>, c: char, k: int)
    ensures
        matches_at(s, seq![c], k) <==> (0 <= k < s.len() && s[k] == c),
{
    if 0 <= k < s.len() && s[k] == c {
        assert(s.subrange(k, k + 1) =~= seq![c]);
    }
    if matches_at(s, seq![c], k) {
        assert(s.subrange(k, k + 1)[0] == s[k]);
    }
}

/// Law: text is cut from the left. Where the non-empty `pat` first occurs
/// at `k`, that is where the search finds it, the first piece is the text
/// before it, and the other pieces are those of the text after it; text in
/// which `pat` does not occur is one piece.
pub proof fn law_pieces_cut_at_first_occurrence(s: Seq<char>, pat: Seq<char>, k: int)
    requires
        pat.len() > 0,
    ensures
        0 <= k && k + pat.len() <= s.len() && s.subrange(k, k + pat.len()) == pat && (forall|j: int|
            0 <= j < k ==> #[trigger] s.subrange(j, j + pat.len()) != pat) ==> {
            &&& first_match(s, pat) == k
            &&& pieces(s, pat).len() >= 2
            &&& pieces(s, pat)[0] == s.take(k)
            &&& pieces(s, pat).drop_first() == pieces(s.skip(k + pat.len()), pat)
        },
        (forall|j: int| 0 <= j && j + pat.len() <= s.len() ==> #[trigger] s.subrange(j, j + pat.len()) != pat)
            ==> first_match(s, pat) == -1 && pieces(s, pat) == seq![s],
{
    lemma_first_match_from(s, pat, 0);
    if 0 <= k && k + pat.len() <= s.len() && s.subrange(k, k + pat.len()) == pat && (forall|j: int|
        0 <= j < k ==> #[trigger] s.subrange(j, j + pat.len()) != pat) {
        assert forall|j: int| 0 <= j < k implies !#[trigger] matches_at(s, pat, j) by {
            assert(s.subrange(j, j + pat.len()) != pat);
        }
        lemma_first_match_is(s, pat, k);
        law_pieces_join_back(s.skip(k + pat.len()), pat);
        assert((seq![s.take(k)] + pieces(s.skip(k + pat.len()), pat)).drop_first() =~= pieces(
            s.skip(k + pat.len()),
            pat,
        ));
    }
    if forall|j: int| 0 <= j && j + pat.len() <= s.len() ==> #[trigger] s.subrange(j, j + pat.len()) != pat {
        let f = first_match(s, pat);
        if f >= 0 {
            assert(s.subrange(f, f + pat.len()) == pat);
        }
    }
}

/// Cutting at a one-character separator: the text `a`, the separator and
/// the text `b` are cut into the pieces of `a` followed by those of `b`.
pub proof fn lemma_pieces_around_separator(a: Seq<char>, c: char, b: Seq<char>)
    ensures
        pieces(a + seq![c] + b, seq![c]) == pieces(a, seq![c]) + pieces(b, seq![c]),
    decreases a.len(),
{
    let pat = seq![c];
    let s = a + pat + b;
    lemma_first_match_from(a, pat, 0);
    let k = first_match(a, pat);
    assert forall|j: int| 0 <= j < a.len() implies (#[trigger] matches_at(s, pat, j)
        <==> matches_at(a, pat, j)) by {
        lemma_matches_one_char(s, c, j);
        lemma_matches_one_char(a, c, j);
        assert(s[j] == a[j]);
    }
    if k < 0 {
        lemma_matches_one_char(s, c, a.len() as int);
        assert(s[a.len() as int] == c);
        lemma_first_match_is(s, pat, a.len() as int);
        assert(s.take(a.len() as int) =~= a);
        assert(s.skip(a.len() as int + 1) =~= b);
        assert(pieces(s, pat) =~= seq![a] + pieces(b, pat));
    } else {
        lemma_first_match_is(s, pat, k);
        let rest = a.skip(k + 1);
        lemma_pieces_around_separator(rest, c, b);
        assert(s.take(k) =~= a.take(k));
        assert(s.skip(k + 1) =~= rest + pat + b);
        assert(pieces(s, pat) =~= seq![a.take(k)] + pieces(rest, pat) + pieces(b, pat));
    }
}

/// Text without the character `c` is one piece when cut at `c`.
pub proof fn lemma_pieces_without_separator(s: Seq<char>, c: char)
    requires
        forall|j: int| 0 <= j < s.len() ==> s[j] != c,
    ensures
        pieces(s, seq![c]) == seq![s],
{
    lemma_first_match_from(s, seq![c], 0);
    let f = first_match(s, seq![c]);
    if f >= 0 {
        lemma_matches_one_char(s, c, f);
    }
}

/// The marks and separators of command lines, as text.
pub proof fn lemma_mark_literals()
    ensures
        "&"@ == seq!['&'],
        "<"@ == seq!['<'],
        ">"@ == seq!['>'],
        " "@ == seq![' '],
        " | "@ == seq![' ', '|', ' '],
        "  "@ == seq![' ', ' '],
        "\n"@ == seq!['\n'],
        ""@ == Seq::<char>::empty(),
{
    reveal_strlit("&");
    reveal_strlit("<");
    reveal_strlit(">");
    reveal_strlit(" ");
    reveal_strlit(" | ");
    reveal_strlit("  ");
    reveal_strlit("\n");
    reveal_strlit("");
    assert("&"@ =~= seq!['&']);
    assert("<"@ =~= seq!['<']);
    assert(">"@ =~= seq!['>']);
    assert(" "@ =~= seq![' ']);
    assert(" | "@ =~= seq![' ', '|', ' ']);
    assert("  "@ =~= seq![' ', ' ']);
    assert("\n"@ =~= seq!['\n']);
    assert(""@ =~= Seq::<char>::empty());
}

/// A one-character pattern occurs in `s` exactly when `s` holds that
/// character.
pub proof fn lemma_one_char_occurs(s: Seq<char>, c: char)
    ensures
        first_match(s, seq![c]) >= 0 <==> s.contains(c),
{
    lemma_first_match_from(s, seq![c], 0);
    let f = first_match(s, seq![c]);
    if f >= 0 {
        lemma_matches_one_char(s, c, f);
    }
    if s.contains(c) {
        let j = choose|j: int| 0 <= j < s.len() && s[j] == c;
        lemma_matches_one_char(s, c, j);
    }
}

/// A character that the separator does not hold is in the joined text
/// exactly when it is in one of the pieces.
pub proof fn lemma_joined_holds(ps: Seq<Seq<char>>, sep: Seq<char>, c: char)
    requires
        !sep.contains(c),
    ensures
        joined(ps, sep).contains(c) <==> exists|i: int| 0 <= i < ps.len() && (#[trigger] ps[i]).contains(c),
    decreases ps.len(),
{
    if ps.len() == 0 {
    } else if ps.len() == 1 {
        if ps[0].contains(c) {
            assert(ps[0].contains(c));
        }
    } else {
        let rest = ps.drop_first();
        lemma_joined_holds(rest, sep, c);
        let j = joined(ps, sep);
        let a = ps[0];
        let b = joined(rest, sep);
        assert(j == a + sep + b);
        if j.contains(c) {
            let k = choose|k: int| 0 <= k < j.len() && j[k] == c;
            if k < a.len() {
                assert(a[k] == c);
                assert(ps[0].contains(c));
            } else if k < a.len() + sep.len() {
                assert(sep[k - a.len()] == c);
            } else {
                assert(b[k - a.len() - sep.len()] == c);
                let i = choose|i: int| 0 <= i < rest.len() && (#[trigger] rest[i]).contains(c);
                assert(ps[i + 1] == rest[i]);
            }
        }
        if exists|i: int| 0 <= i < ps.len() && (#[trigger] ps[i]).contains(c) {
            let i = choose|i: int| 0 <= i < ps.len() && (#[trigger] ps[i]).contains(c);
            if i == 0 {
                let k = choose|k: int| 0 <= k < a.len() && a[k] == c;
                assert(j[k] == c);
            } else {
                assert(rest[i - 1] == ps[i]);
                assert(b.contains(c));
                let k = choose|k: int| 0 <= k < b.len() && b[k] == c;
                assert(j[a.len() + sep.len() + k] == c);
            }
        }
    }
}

// ---------------------------------------------------------------------------
// Executable functions
// ---------------------------------------------------------------------------

/// `char::is_whitespace`.
pub fn is_whitespace_char(c: char) -> (b: bool)
    ensures
        b == is_whitespace(c),
{
    ('\u{09}' <= c && c <= '\u{0D}') || c == ' ' || c == '\u{85}' || c == '\u{A0}' || c
        == '\u{1680}' || ('\u{2000}' <= c && c <= '\u{200A}') || c == '\u{2028}' || c
        == '\u{2029}' || c == '\u{202F}' || c == '\u{205F}' || c == '\u{3000}'
}

/// The characters of `s`, in order.
pub fn chars_of(s: &str) -> (v: Vec<char>)
    ensures
        v@ == s@,
{
    let mut v: Vec<char> = Vec::new();
    for c in it: s.chars()
        invariant
            v@ == it.seq().take(it.index() as int),
    {
        v.push(c);
    }
    v
}

/// The text between `lo` and `hi` is the same as `other`.
pub fn span_equals(v: &Vec<char>, lo: usize, hi: usize, other: &Vec<char>) -> (b: bool)
    requires
        lo <= hi <= v.len(),
    ensures
        b == (v@.subrange(lo as int, hi as int) == other@),
{
    if hi - lo != other.len() {
        return false;
    }
    let mut t: usize = 0;
    while t < other.len()
        invariant
            lo <= hi <= v.len(),
            hi - lo == other.len(),
            t <= other.len(),
            forall|j: int| 0 <= j < t ==> v@[lo + j] == other@[j],
        decreases other.len() - t,
    {
        if v[lo + t] != other[t] {
            assert(v@.subrange(lo as int, hi as int)[t as int] != other@[t as int]);
            return false;
        }
        t = t + 1;
    }
    assert(v@.subrange(lo as int, hi as int) =~= other@);
    true
}

/// The leading and trailing whitespace cut from the text between `lo` and
/// `hi`, as the positions of what is left.
pub fn trim_span(v: &Vec<char>, lo: usize, hi: usize) -> (r: (usize, usize))
    requires
        lo <= hi <= v.len(),
    ensures
        lo <= r.0 <= r.1 <= hi,
        v@.subrange(r.0 as int, r.1 as int) == trimmed(v@.subrange(lo as int, hi as int)),
{
    let ghost s = v@.subrange(lo as int, hi as int);
    let mut a = lo;
    while a < hi && is_whitespace_char(v[a])
        invariant
            lo <= a <= hi <= v.len(),
            trimmed_start(s) == trimmed_start(v@.subrange(a as int, hi as int)),
        decreases hi - a,
    {
        assert(v@.subrange(a as int, hi as int).drop_first() =~= v@.subrange(
            a + 1,
            hi as int,
        ));
        a = a + 1;
    }
    let ghost t = v@.subrange(a as int, hi as int);
    assert(trimmed_start(t) == t);
    let mut b = hi;
    while b > a && is_whitespace_char(v[b - 1])
        invariant
            lo <= a <= b <= hi <= v.len(),
            trimmed_end(t) == trimmed_end(v@.subrange(a as int, b as int)),
        decreases b - a,
    {
        assert(v@.subrange(a as int, b as int).drop_last() =~= v@.subrange(
            a as int,
            b - 1,
        ));
        b = b - 1;
    }
    let ghost u = v@.subrange(a as int, b as int);
    assert(trimmed_end(u) == u);
    (a, b)
}

/// The first occurrence of the non-empty `pat` in the text between `lo` and
/// `hi`, as a position in `v`.
pub fn find_in_span(v: &Vec<char>, lo: usize, hi: usize, pat: &Vec<char>) -> (r: Option<usize>)
    requires
        lo <= hi <= v.len(),
        pat.len() > 0,
    ensures
        match r {
            Some(k) => lo <= k && k - lo == first_match(v@.subrange(lo as int, hi as int), pat@),
            None => first_match(v@.subrange(lo as int, hi as int), pat@) == -1,
        },
{
    let ghost s = v@.subrange(lo as int, hi as int);
    if hi - lo < pat.len() {
        return None;
    }
    let last = hi - pat.len();
    let mut i = lo;
    while i <= last
        invariant
            lo <= i <= last + 1,
            last + pat.len() == hi,
            hi <= v.len(),
            pat.len() > 0,
            s == v@.subrange(lo as int, hi as int),
            first_match(s, pat@) == first_match_from(s, pat@, i - lo),
        decreases last + 1 - i,
    {
        let m = span_equals(v, i, i + pat.len(), pat);
        assert(s.subrange(i - lo, i - lo + pat.len()) =~= v@.subrange(
            i as int,
            i + pat.len(),
        ));
        if m {
            return Some(i);
        }
        i = i + 1;
    }
    None
}

/// The pieces of the text between `lo` and `hi` cut at the non-empty `pat`,
/// as spans of `v`.
pub fn split_spans(v: &Vec<char>, lo: usize, hi: usize, pat: &Vec<char>) -> (r: Vec<
    (usize, usize),
>)
    requires
        lo <= hi <= v.len(),
        pat.len() > 0,
    ensures
        forall|i: int| 0 <= i < r.len() ==> lo <= (#[trigger] r@[i]).0 <= r@[i].1 <= hi,
        r@.map_values(|p: (usize, usize)| span_text(v@, p)) == pieces(
            v@.subrange(lo as int, hi as int),
            pat@,
        ),
{
    let mut r: Vec<(usize, usize)> = Vec::new();
    let mut start = lo;
    loop
        invariant
            lo <= start <= hi <= v.len(),
            pat.len() > 0,
            forall|i: int| 0 <= i < r.len() ==> lo <= (#[trigger] r@[i]).0 <= r@[i].1 <= start,
            r@.map_values(|p: (usize, usize)| span_text(v@, p)) + pieces(
                v@.subrange(start as int, hi as int),
                pat@,
            ) == pieces(v@.subrange(lo as int, hi as int), pat@),
        decreases hi - start,
    {
        let ghost s = v@.subrange(start as int, hi as int);
        let ghost before = r@.map_values(|p: (usize, usize)| span_text(v@, p));
        match find_in_span(v, start, hi, pat) {
            None => {
                r.push((start, hi));
                assert(r@.map_values(|p: (usize, usize)| span_text(v@, p)) =~= before + seq![s]);
                return r;
            },
            Some(k) => {
                proof {
                    lemma_first_match_from(s, pat@, 0);
                }
                let next = k + pat.len();
                r.push((start, k));
                assert(s.take(k - start) =~= v@.subrange(start as int, k as int));
                assert(s.skip(k - start + pat.len()) =~= v@.subrange(next as int, hi as int));
                assert(r@.map_values(|p: (usize, usize)| span_text(v@, p)) =~= before + seq![
                    v@.subrange(start as int, k as int),
                ]);
                start = next;
            },
        }
    }
}

/// The pieces of `s` cut at each occurrence of the non-empty `pat`
/// (`str::split` with a string pattern).
pub fn split<'a>(s: &'a str, pat: &str) -> (r: Vec<&'a str>)
    requires
        pat@.len() > 0,
    ensures
        views(r@) == pieces(s@, pat@),
{
    let v = chars_of(s);
    let p = chars_of(pat);
    let spans = split_spans(&v, 0, v.len(), &p);
    assert(v@.subrange(0, v@.len() as int) =~= v@);
    let mut r: Vec<&'a str> = Vec::new();
    for i in 0..spans.len()
        invariant
            v@ == s@,
            forall|j: int| 0 <= j < spans.len() ==> 0 <= (#[trigger] spans@[j]).0 <= spans@[j].1 <= v.len(),
            r.len() == i,
            forall|j: int| 0 <= j < i ==> (#[trigger] r@[j])@ == span_text(v@, spans@[j]),
    {
        let (a, b) = spans[i];
        r.push(s.substring_char(a, b));
    }
    assert(views(r@) =~= spans@.map_values(|p: (usize, usize)| span_text(v@, p)));
    r
}

/// `s` without its leading and trailing whitespace (`str::trim`).
pub fn trim<'a>(s: &'a str) -> (r: &'a str)
    ensures
        r@ == trimmed(s@),
{
    let v = chars_of(s);
    let (a, b) = trim_span(&v, 0, v.len());
    assert(v@.subrange(0, v@.len() as int) =~= v@);
    s.substring_char(a, b)
}

/// Whether the non-empty `pat` occurs in `s` (`str::contains`).
pub fn contains(s: &str, pat: &str) -> (b: bool)
    requires
        pat@.len() > 0,
    ensures
        b == (first_match(s@, pat@) >= 0),
{
    let v = chars_of(s);
    let p = chars_of(pat);
    assert(v@.subrange(0, v@.len() as int) =~= v@);
    find_in_span(&v, 0, v.len(), &p).is_some()
}

/// Whether `a` and `b` hold the same characters.
pub fn same_text(a: &str, b: &str) -> (r: bool)
    ensures
        r == (a@ == b@),
{
    let v = chars_of(a);
    let w = chars_of(b);
    assert(v@.subrange(0, v@.len() as int) =~= v@);
    span_equals(&v, 0, v.len(), &w)
}

/// `String::push`: appends `c` to the end of `s`.
#[verifier::external_body]
fn push_char(s: &mut String, c: char)
    ensures
        final(s)@ == old(s)@.push(c),
{
    s.push(c);
}

/// A string holding the characters of `v`.
pub fn string_of(v: &Vec<char>) -> (s: String)
    ensures
        s@ == v@,
{
    let mut s = String::new();
    for i in 0..v.len()
        invariant
            s@ == v@.take(i as int),
    {
        push_char(&mut s, v[i]);
        assert(s@ =~= v@.take(i + 1));
    }
    assert(v@.take(v.len() as int) =~= v@);
    s
}

/// Appends the characters of `text` to `out`.
pub fn push_str(out: &mut String, text: &str)
    ensures
        final(out)@ == old(out)@ + text@,
{
    out.append(text);
}

/// Appends the character `c` to `out`.
pub fn push(out: &mut String, c: char)
    ensures
        final(out)@ == old(out)@.push(c),
{
    push_char(out, c);
}

} // verus!
