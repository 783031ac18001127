//! The chord-name grammar and the search for chord lines.
//!
//! A chord name is, in order: a root note, an optional accidental, an optional
//! quality, any number of extensions, an optional alteration and an optional
//! slash bass note:
//!
//! ```text
//! chord      := root accidental? quality? extension* alteration? slash?
//! root       := A | B | C | D | E | F | G
//! accidental := b | #
//! quality    := m | M | min | maj | dim | Δ | ° | ø | Ø
//! extension  := (sus | add)? accidental? degree?
//! degree     := 2 | 4 | 5 | 6 | 7 | 9 | 10 | 11 | 13
//! alteration := + | aug | alt
//! slash      := / root accidental?
//! ```
//!
//! `matches_chord_grammar` states the grammar as it stands. `is_chord_name`
//! reads a name from the left and takes each optional group whenever it is
//! there; the extensions are then a run of the pieces `sus`, `add`, `b`, `#`
//! and the degrees. `chord_name_iff_grammar` proves that the two accept the
//! same names, and the executable check follows the reading from the left.

use vstd::prelude::*;
use crate::song::{ChordModel, SongChord};
use crate::text::{chars_of, copy_chars, is_blank, lemma_not_blank, string_of};

verus! {

pub open spec fn is_root(c: char) -> bool {
    c == 'A' || c == 'B' || c == 'C' || c == 'D' || c == 'E' || c == 'F' || c == 'G'
}

pub open spec fn is_accidental(c: char) -> bool {
    c == 'b' || c == '#'
}

/// `t` holds `a`, `b` at `i`.
pub open spec fn at2(t: Seq<char>, i: int, a: char, b: char) -> bool {
    0 <= i && t.len() - i >= 2 && t[i] == a && t[i + 1] == b
}

/// `t` holds `a`, `b`, `c` at `i`.
pub open spec fn at3(t: Seq<char>, i: int, a: char, b: char, c: char) -> bool {
    0 <= i && t.len() - i >= 3 && t[i] == a && t[i + 1] == b && t[i + 2] == c
}

/// Past the accidental at `i`, if there is one.
pub open spec fn after_accidental(t: Seq<char>, i: int) -> int {
    if 0 <= i < t.len() && is_accidental(t[i]) {
        i + 1
    } else {
        i
    }
}

/// Past the quality at `i`, if there is one.
pub open spec fn after_quality(t: Seq<char>, i: int) -> int {
    if at3(t, i, 'm', 'i', 'n') || at3(t, i, 'm', 'a', 'j') || at3(t, i, 'd', 'i', 'm') {
        i + 3
    } else if 0 <= i < t.len() && (t[i] == 'm' || t[i] == 'M' || t[i] == 'Δ' || t[i] == '°'
        || t[i] == 'ø' || t[i] == 'Ø') {
        i + 1
    } else {
        i
    }
}

/// The length of the extension piece at `i`: `sus`, `add`, an accidental or a
/// degree; 0 where none begins there.
pub open spec fn extension_piece(t: Seq<char>, i: int) -> int {
    if at3(t, i, 's', 'u', 's') || at3(t, i, 'a', 'd', 'd') {
        3
    } else if at2(t, i, '1', '0') || at2(t, i, '1', '1') || at2(t, i, '1', '3') {
        2
    } else if 0 <= i < t.len() && (is_accidental(t[i]) || t[i] == '2' || t[i] == '4' || t[i]
        == '5' || t[i] == '6' || t[i] == '7' || t[i] == '9') {
        1
    } else {
        0
    }
}

/// Past the run of extension pieces that starts at `i`.
pub open spec fn after_extensions(t: Seq<char>, i: int) -> int
    decreases t.len() - i,
{
    let n = extension_piece(t, i);
    if 0 <= i && 0 < n && i + n <= t.len() {
        after_extensions(t, i + n)
    } else {
        i
    }
}

/// Past the alteration at `i`, if there is one.
pub open spec fn after_alteration(t: Seq<char>, i: int) -> int {
    if 0 <= i < t.len() && t[i] == '+' {
        i + 1
    } else if at3(t, i, 'a', 'u', 'g') || at3(t, i, 'a', 'l', 't') {
        i + 3
    } else {
        i
    }
}

/// From `i` on, `t` holds nothing, or exactly a slash bass note.
pub open spec fn slash_to_end(t: Seq<char>, i: int) -> bool {
    i == t.len() || (0 <= i && i + 2 <= t.len() && t[i] == '/' && is_root(t[i + 1]) && (i + 2
        == t.len() || (i + 3 == t.len() && is_accidental(t[i + 2]))))
}

/// `t` is, as a whole, a chord name.
pub open spec fn is_chord_name(t: Seq<char>) -> bool {
    t.len() > 0 && is_root(t[0]) && slash_to_end(
        t,
        after_alteration(t, after_extensions(t, after_quality(t, after_accidental(t, 1)))),
    )
}

/// A quality word of the grammar.
pub open spec fn is_quality(w: Seq<char>) -> bool {
    ||| w == seq!['m']
    ||| w == seq!['M']
    ||| w == seq!['m', 'i', 'n']
    ||| w == seq!['m', 'a', 'j']
    ||| w == seq!['d', 'i', 'm']
    ||| w == seq!['Δ']
    ||| w == seq!['°']
    ||| w == seq!['ø']
    ||| w == seq!['Ø']
}

/// A degree of the grammar.
pub open spec fn is_degree(w: Seq<char>) -> bool {
    ||| w == seq!['2']
    ||| w == seq!['4']
    ||| w == seq!['5']
    ||| w == seq!['6']
    ||| w == seq!['7']
    ||| w == seq!['9']
    ||| w == seq!['1', '0']
    ||| w == seq!['1', '1']
    ||| w == seq!['1', '3']
}

/// `(sus | add)? accidental? degree?`, split at `i` and `j`.
pub open spec fn is_extension_split(w: Seq<char>, i: int, j: int) -> bool {
    &&& 0 <= i <= j <= w.len()
    &&& (i == 0 || w.subrange(0, i) == seq!['s', 'u', 's'] || w.subrange(0, i) == seq![
        'a',
        'd',
        'd',
    ])
    &&& (j == i || (j == i + 1 && is_accidental(w[i])))
    &&& (j == w.len() || is_degree(w.subrange(j, w.len() as int)))
}

/// An extension of the grammar: `(sus | add)? accidental? degree?`.
pub open spec fn is_extension(w: Seq<char>) -> bool {
    exists|i: int, j: int| is_extension_split(w, i, j)
}

/// `t.subrange(x, y)` is one extension, not empty.
pub open spec fn extension_between(t: Seq<char>, x: int, y: int) -> bool {
    x < y && is_extension(t.subrange(x, y))
}

/// `t` cut at the ascending indices `cuts` into extensions.
pub open spec fn is_extension_cuts(t: Seq<char>, cuts: Seq<int>) -> bool {
    &&& cuts.len() >= 1
    &&& forall|j: int|
        0 <= j < cuts.len() - 1 ==> #[trigger] extension_between(t, cuts[j], cuts[j + 1])
}

/// `t.subrange(b, c)` is a run of extensions: `extension*`.
pub open spec fn is_extension_run(t: Seq<char>, b: int, c: int) -> bool {
    exists|cuts: Seq<int>| is_extension_cuts(t, cuts) && cuts[0] == b && cuts.last() == c
}

/// An alteration of the grammar.
pub open spec fn is_alteration(w: Seq<char>) -> bool {
    w == seq!['+'] || w == seq!['a', 'u', 'g'] || w == seq!['a', 'l', 't']
}

/// A slash bass note of the grammar: `/ root accidental?`.
pub open spec fn is_slash(w: Seq<char>) -> bool {
    w.len() >= 2 && w[0] == '/' && is_root(w[1]) && (w.len() == 2 || (w.len() == 3
        && is_accidental(w[2])))
}

/// `t` split at `a`, `b`, `c` and `d` reads as
/// `root accidental? quality? extension* alteration? slash?`.
pub open spec fn is_grammar_split(t: Seq<char>, a: int, b: int, c: int, d: int) -> bool {
    &&& 1 <= a <= b <= c <= d <= t.len()
    &&& is_root(t[0])
    &&& (a == 1 || (a == 2 && is_accidental(t[1])))
    &&& (b == a || is_quality(t.subrange(a, b)))
    &&& is_extension_run(t, b, c)
    &&& (d == c || is_alteration(t.subrange(c, d)))
    &&& (d == t.len() || is_slash(t.subrange(d, t.len() as int)))
}

/// `t`, as a whole, matches the chord grammar.
pub open spec fn matches_chord_grammar(t: Seq<char>) -> bool {
    exists|a: int, b: int, c: int, d: int| is_grammar_split(t, a, b, c, d)
}

proof fn lemma_seq1(w: Seq<char>)
    requires
        w.len() == 1,
    ensures
        w == seq![w[0]],
{
    assert(w =~= seq![w[0]]);
}

proof fn lemma_seq2(w: Seq<char>)
    requires
        w.len() == 2,
    ensures
        w == seq![w[0], w[1]],
{
    assert(w =~= seq![w[0], w[1]]);
}

proof fn lemma_seq3(w: Seq<char>)
    requires
        w.len() == 3,
    ensures
        w == seq![w[0], w[1], w[2]],
{
    assert(w =~= seq![w[0], w[1], w[2]]);
}

proof fn lemma_after_extensions_bounds(t: Seq<char>, i: int)
    requires
        0 <= i <= t.len(),
    ensures
        i <= after_extensions(t, i) <= t.len(),
    decreases t.len() - i,
{
    let n = extension_piece(t, i);
    if 0 < n && i + n <= t.len() {
        lemma_after_extensions_bounds(t, i + n);
    }
}

/// The run of pieces that `after_extensions` passes over, cut into extensions.
proof fn lemma_pieces_are_extensions(t: Seq<char>, i: int) -> (cuts: Seq<int>)
    requires
        0 <= i <= t.len(),
    ensures
        is_extension_cuts(t, cuts),
        cuts[0] == i,
        cuts.last() == after_extensions(t, i),
    decreases t.len() - i,
{
    let n = extension_piece(t, i);
    if 0 < n && i + n <= t.len() {
        let rest = lemma_pieces_are_extensions(t, i + n);
        let w = t.subrange(i, i + n);
        assert(w.subrange(0, n) =~= w);
        assert(w.subrange(n, n) =~= Seq::<char>::empty());
        if n == 3 {
            lemma_seq3(w);
            assert(is_extension_split(w, 3, 3));
        } else if n == 2 {
            lemma_seq2(w);
            assert(is_degree(w.subrange(0, 2)));
            assert(is_extension_split(w, 0, 0));
        } else if is_accidental(t[i]) {
            assert(is_extension_split(w, 0, 1));
        } else {
            lemma_seq1(w);
            assert(is_extension_split(w, 0, 0));
        }
        assert(is_extension(w));
        let cuts = seq![i] + rest;
        assert forall|j: int| 0 <= j < cuts.len() - 1 implies #[trigger] extension_between(
            t,
            cuts[j],
            cuts[j + 1],
        ) by {
            if j > 0 {
                assert(cuts[j] == rest[j - 1]);
                assert(cuts[j + 1] == rest[j]);
                let k = j - 1;
                assert(0 <= k < rest.len() - 1);
                assert(extension_between(t, rest[k], rest[k + 1]));
            } else {
                assert(cuts[1] == rest[0]);
            }
        }
        cuts
    } else {
        seq![i]
    }
}

/// Every name that `is_chord_name` accepts matches the chord grammar.
pub proof fn chord_name_matches_grammar(t: Seq<char>)
    requires
        is_chord_name(t),
    ensures
        matches_chord_grammar(t),
{
    let a = after_accidental(t, 1);
    let b = after_quality(t, a);
    lemma_after_extensions_bounds(t, b);
    let c = after_extensions(t, b);
    let d = after_alteration(t, c);
    let cuts = lemma_pieces_are_extensions(t, b);
    if b == a + 3 {
        lemma_seq3(t.subrange(a, b));
    } else if b == a + 1 {
        lemma_seq1(t.subrange(a, b));
    }
    if d == c + 3 {
        lemma_seq3(t.subrange(c, d));
    } else if d == c + 1 {
        lemma_seq1(t.subrange(c, d));
    }
    if d != t.len() {
        assert(is_slash(t.subrange(d, t.len() as int)));
    }
    assert(is_grammar_split(t, a, b, c, d));
}

/// A character that can begin a quality.
pub open spec fn begins_quality(c: char) -> bool {
    c == 'm' || c == 'M' || c == 'd' || c == 'Δ' || c == '°' || c == 'ø' || c == 'Ø'
}

/// What may stand at `p` after a root, accidental or quality: nothing that
/// begins a quality, and nothing that would extend the quality `m`.
pub open spec fn may_follow(t: Seq<char>, p: int) -> bool {
    p == t.len() || (t[p] != 'i' && !begins_quality(t[p]) && (t[p] == 'a' ==> p + 1 < t.len()
        && t[p + 1] != 'j'))
}

/// The part of a grammar split from the alteration on: `alteration? slash?`.
pub open spec fn is_tail_split(t: Seq<char>, c: int, d: int) -> bool {
    &&& 0 <= c <= d <= t.len()
    &&& (d == c || is_alteration(t.subrange(c, d)))
    &&& (d == t.len() || is_slash(t.subrange(d, t.len() as int)))
}

proof fn lemma_tail_start(t: Seq<char>, c: int, d: int)
    requires
        is_tail_split(t, c, d),
    ensures
        may_follow(t, c),
        extension_piece(t, c) == 0,
        d > c ==> after_alteration(t, c) == d,
        d == c ==> after_alteration(t, c) == c,
        slash_to_end(t, d),
{
    if d > c {
        let w = t.subrange(c, d);
        assert(w[0] == t[c]);
        if w.len() == 3 {
            assert(w[1] == t[c + 1]);
            assert(w[2] == t[c + 2]);
        }
    } else if c < t.len() {
        let w = t.subrange(d, t.len() as int);
        assert(w[0] == t[d]);
    }
    if d < t.len() {
        let w = t.subrange(d, t.len() as int);
        assert(w[0] == t[d]);
        assert(w[1] == t[d + 1]);
        if w.len() == 3 {
            assert(w[2] == t[d + 2]);
        }
    }
}

proof fn lemma_extension_start(t: Seq<char>, x: int, y: int)
    requires
        0 <= x < y <= t.len(),
        is_extension(t.subrange(x, y)),
    ensures
        may_follow(t, x),
        after_extensions(t, x) == after_extensions(t, y),
{
    let w = t.subrange(x, y);
    let (i, j) = choose|i: int, j: int| is_extension_split(w, i, j);
    assert(w.subrange(0, i).len() == i);
    assert(i == 0 || i == 3);
    let mut p = x;
    if i == 3 {
        assert(w.subrange(0, 3)[0] == t[x]);
        assert(w.subrange(0, 3)[1] == t[x + 1]);
        assert(w.subrange(0, 3)[2] == t[x + 2]);
        assert(extension_piece(t, x) == 3);
        assert(after_extensions(t, x) == after_extensions(t, x + 3));
        p = x + 3;
    }
    if j == i + 1 {
        assert(w[i] == t[p]);
        assert(extension_piece(t, p) == 1);
        assert(after_extensions(t, p) == after_extensions(t, p + 1));
        p = p + 1;
    }
    assert(p == x + j);
    if j < w.len() {
        let g = w.subrange(j, w.len() as int);
        assert(g[0] == t[p]);
        if g.len() == 2 {
            assert(g[1] == t[p + 1]);
        }
        assert(extension_piece(t, p) == g.len());
        assert(p + g.len() == y);
        assert(after_extensions(t, p) == after_extensions(t, y));
    }
}

proof fn lemma_cuts_ascend(t: Seq<char>, cuts: Seq<int>, m: int)
    requires
        is_extension_cuts(t, cuts),
        0 <= m < cuts.len(),
    ensures
        cuts[0] <= cuts[m],
    decreases m,
{
    if m > 0 {
        lemma_cuts_ascend(t, cuts, m - 1);
        let k = m - 1;
        assert(extension_between(t, cuts[k], cuts[k + 1]));
    }
}

/// From each cut on, `after_extensions` reaches the last cut, and what stands
/// at each cut may follow a quality.
proof fn lemma_cuts_greedy(t: Seq<char>, cuts: Seq<int>, m: int, d: int)
    requires
        is_extension_cuts(t, cuts),
        0 <= m < cuts.len(),
        0 <= cuts[0],
        is_tail_split(t, cuts.last(), d),
    ensures
        after_extensions(t, cuts[m]) == cuts.last(),
        may_follow(t, cuts[m]),
        cuts[m] <= cuts.last(),
    decreases cuts.len() - m,
{
    lemma_tail_start(t, cuts.last(), d);
    if m == cuts.len() - 1 {
    } else {
        lemma_cuts_greedy(t, cuts, m + 1, d);
        lemma_cuts_ascend(t, cuts, m);
        assert(extension_between(t, cuts[m], cuts[m + 1]));
        lemma_extension_start(t, cuts[m], cuts[m + 1]);
    }
}

/// Every name that matches the chord grammar is accepted by `is_chord_name`.
pub proof fn grammar_match_is_chord_name(t: Seq<char>)
    requires
        matches_chord_grammar(t),
    ensures
        is_chord_name(t),
{
    let (a, b, c, d) = choose|a: int, b: int, c: int, d: int| is_grammar_split(t, a, b, c, d);
    let cuts = choose|cuts: Seq<int>| is_extension_cuts(t, cuts) && cuts[0] == b && cuts.last() == c;
    assert(is_tail_split(t, c, d));
    lemma_tail_start(t, c, d);
    lemma_cuts_greedy(t, cuts, 0, d);
    let g = after_accidental(t, 1);
    if g == a {
        if b == a {
            assert(after_quality(t, a) == a);
        } else {
            let q = t.subrange(a, b);
            assert(q[0] == t[a]);
            if q.len() == 3 {
                assert(q[1] == t[a + 1]);
                assert(q[2] == t[a + 2]);
            } else {
                assert(may_follow(t, b));
            }
            assert(after_quality(t, a) == b);
        }
    } else {
        // the grammar read the accidental after the root as an extension
        assert(a == 1 && is_accidental(t[1]));
        if b > a {
            assert(t.subrange(a, b)[0] == t[1]);
        }
        assert(b == 1);
        assert(c > 1);
        assert(cuts.len() >= 2);
        lemma_cuts_greedy(t, cuts, 1, d);
        let k = 0int;
        assert(extension_between(t, cuts[k], cuts[k + 1]));
        lemma_extension_start(t, 1, cuts[1]);
        assert(extension_piece(t, 1) == 1);
        assert(after_extensions(t, 1) == after_extensions(t, 2));
        let w = t.subrange(1, cuts[1]);
        let (i, j) = choose|i: int, j: int| is_extension_split(w, i, j);
        assert(w.subrange(0, i).len() == i);
        if i == 3 {
            assert(w.subrange(0, 3)[0] == w[0]);
        }
        assert(i == 0);
        if cuts[1] == 2 {
        } else {
            assert(w[1] == t[2]);
            if j == 0 {
                assert(w.subrange(0, w.len() as int)[0] == w[0]);
            } else {
                assert(w.subrange(1, w.len() as int)[0] == w[1]);
            }
        }
        assert(after_quality(t, 2) == 2);
    }
}

/// A token is accepted by `is_chord_name`, the reading from the left, exactly
/// when it matches the chord grammar as a whole.
pub proof fn chord_name_iff_grammar(t: Seq<char>)
    ensures
        is_chord_name(t) <==> matches_chord_grammar(t),
{
    if is_chord_name(t) {
        chord_name_matches_grammar(t);
    }
    if matches_chord_grammar(t) {
        grammar_match_is_chord_name(t);
    }
}

/// The end of the run of non-space characters that starts at `i`.
pub open spec fn run_end(l: Seq<char>, i: int) -> int
    decreases l.len() - i,
{
    if 0 <= i < l.len() && l[i] != ' ' {
        run_end(l, i + 1)
    } else {
        i
    }
}

proof fn lemma_run_end_bounds(l: Seq<char>, i: int)
    requires
        0 <= i <= l.len(),
    ensures
        i <= run_end(l, i) <= l.len(),
        forall|k: int| i <= k < run_end(l, i) ==> l[k] != ' ',
        run_end(l, i) == l.len() || l[run_end(l, i)] == ' ',
    decreases l.len() - i,
{
    if i < l.len() && l[i] != ' ' {
        lemma_run_end_bounds(l, i + 1);
    }
}

/// The tokens of `l` from `i` on, as (start, end) pairs: the maximal runs of
/// characters other than the space character.
pub open spec fn token_spans(l: Seq<char>, i: int) -> Seq<(int, int)>
    decreases l.len() - i,
    via token_spans_decreases
{
    if i < 0 || i >= l.len() {
        Seq::empty()
    } else if l[i] == ' ' {
        token_spans(l, i + 1)
    } else {
        let e = run_end(l, i);
        seq![(i, e)] + token_spans(l, e)
    }
}

#[via_fn]
proof fn token_spans_decreases(l: Seq<char>, i: int) {
    if 0 <= i < l.len() {
        lemma_run_end_bounds(l, i);
        lemma_run_end_bounds(l, i + 1);
    }
}

proof fn lemma_token_spans(l: Seq<char>, i: int)
    requires
        0 <= i <= l.len(),
        i == 0 || i == l.len() || l[i - 1] == ' ' || l[i] == ' ',
    ensures
        forall|k: int|
            0 <= k < token_spans(l, i).len() ==> {
                let sp = #[trigger] token_spans(l, i)[k];
                &&& i <= sp.0 < sp.1 <= l.len()
                &&& sp.0 == 0 || l[sp.0 - 1] == ' '
                &&& sp.1 == l.len() || l[sp.1] == ' '
                &&& forall|c: int| sp.0 <= c < sp.1 ==> l[c] != ' '
            },
        forall|a: int, b: int|
            0 <= a < b < token_spans(l, i).len() ==> (#[trigger] token_spans(l, i)[a]).1 < (
            #[trigger] token_spans(l, i)[b]).0,
    decreases l.len() - i,
{
    if i < l.len() {
        if l[i] == ' ' {
            lemma_token_spans(l, i + 1);
            assert(token_spans(l, i) == token_spans(l, i + 1));
        } else {
            let e = run_end(l, i);
            lemma_run_end_bounds(l, i);
            lemma_run_end_bounds(l, i + 1);
            lemma_token_spans(l, e);
            let rest = token_spans(l, e);
            assert(token_spans(l, i) == seq![(i, e)] + rest);
            assert forall|k: int| 0 < k < token_spans(l, i).len() implies #[trigger] token_spans(
                l,
                i,
            )[k] == rest[k - 1] by {}
            assert forall|a: int, b: int|
                0 <= a < b < token_spans(l, i).len() implies (#[trigger] token_spans(l, i)[a]).1 < (
            #[trigger] token_spans(l, i)[b]).0 by {
                if a == 0 {
                    assert(token_spans(l, i)[b] == rest[b - 1]);
                    if e < l.len() {
                        assert(rest[b - 1].0 > e) by {
                            assert(l[e] == ' ');
                        }
                    }
                } else {
                    assert(token_spans(l, i)[a] == rest[a - 1]);
                    assert(token_spans(l, i)[b] == rest[b - 1]);
                }
            }
        }
    }
}

/// The chords found in a chord line stand in the order of their tokens, each
/// at the offset where its token starts: after a space or at the start of the
/// line, the token running up to a space or the end of the line.
pub proof fn chord_offsets_ascend(l: Seq<char>)
    requires
        chord_line(l) is Some,
    ensures
        ({
            let cs = chord_line(l)->0;
            &&& forall|a: int, b: int| 0 <= a < b < cs.len() ==> #[trigger] cs[a].pos < #[trigger] cs[b].pos
            &&& forall|k: int|
                0 <= k < cs.len() ==> {
                    let c = #[trigger] cs[k];
                    &&& c.name.len() > 0
                    &&& c.pos + c.name.len() <= l.len()
                    &&& l.subrange(c.pos as int, (c.pos + c.name.len()) as int) == c.name
                    &&& c.pos == 0 || l[c.pos - 1] == ' '
                    &&& c.pos + c.name.len() == l.len() || l[(c.pos + c.name.len()) as int] == ' '
                    &&& is_chord_name(c.name)
                }
        }),
{
    lemma_token_spans(l, 0);
    let spans = token_spans(l, 0);
    let cs = chord_line(l)->0;
    assert forall|a: int, b: int| 0 <= a < b < cs.len() implies #[trigger] cs[a].pos < #[trigger] cs[b].pos by {
        assert(spans[a].1 < spans[b].0);
    }
    assert forall|k: int| 0 <= k < cs.len() implies {
        let c = #[trigger] cs[k];
        &&& c.name.len() > 0
        &&& c.pos + c.name.len() <= l.len()
        &&& l.subrange(c.pos as int, (c.pos + c.name.len()) as int) == c.name
        &&& c.pos == 0 || l[c.pos - 1] == ' '
        &&& c.pos + c.name.len() == l.len() || l[(c.pos + c.name.len()) as int] == ' '
        &&& is_chord_name(c.name)
    } by {
        let sp = spans[k];
        assert(is_chord_name(token_text(l, spans[k])));
        assert(cs[k].name.len() == sp.1 - sp.0);
    }
}

proof fn lemma_token_at_or_after(l: Seq<char>, i: int, p: int)
    requires
        0 <= i <= p < l.len(),
        l[p] != ' ',
    ensures
        token_spans(l, i).len() > 0,
    decreases p - i,
{
    if l[i] == ' ' {
        lemma_token_at_or_after(l, i + 1, p);
    }
}

/// A chord line that is not blank holds at least one chord.
pub proof fn chord_line_not_blank(l: Seq<char>)
    requires
        !is_blank(l),
        chord_line(l) is Some,
    ensures
        chord_line(l)->0.len() > 0,
{
    let p = lemma_not_blank(l);
    lemma_token_at_or_after(l, 0, p);
}

/// The token of `l` that `sp` spans.
pub open spec fn token_text(l: Seq<char>, sp: (int, int)) -> Seq<char> {
    l.subrange(sp.0, sp.1)
}

/// The chords of `l` if every token of it is a chord name, else `None`.
pub open spec fn chord_line(l: Seq<char>) -> Option<Seq<ChordModel>> {
    let spans = token_spans(l, 0);
    if forall|k: int| 0 <= k < spans.len() ==> is_chord_name(#[trigger] token_text(l, spans[k])) {
        Some(
            spans.map_values(
                |sp: (int, int)| ChordModel { name: token_text(l, sp), pos: sp.0 as nat },
            ),
        )
    } else {
        None
    }
}

fn after_accidental_at(t: &[char], i: usize) -> (r: usize)
    requires
        i <= t@.len(),
    ensures
        r == after_accidental(t@, i as int),
        r <= t@.len(),
{
    if i < t.len() && (t[i] == 'b' || t[i] == '#') {
        i + 1
    } else {
        i
    }
}

fn holds3(t: &[char], i: usize, a: char, b: char, c: char) -> (r: bool)
    requires
        i <= t@.len(),
    ensures
        r == at3(t@, i as int, a, b, c),
{
    t.len() - i >= 3 && t[i] == a && t[i + 1] == b && t[i + 2] == c
}

fn holds2(t: &[char], i: usize, a: char, b: char) -> (r: bool)
    requires
        i <= t@.len(),
    ensures
        r == at2(t@, i as int, a, b),
{
    t.len() - i >= 2 && t[i] == a && t[i + 1] == b
}

fn after_quality_at(t: &[char], i: usize) -> (r: usize)
    requires
        i <= t@.len(),
    ensures
        r == after_quality(t@, i as int),
        r <= t@.len(),
{
    let len = t.len();
    if holds3(t, i, 'm', 'i', 'n') || holds3(t, i, 'm', 'a', 'j') || holds3(t, i, 'd', 'i', 'm') {
        i + 3
    } else if i < t.len() && (t[i] == 'm' || t[i] == 'M' || t[i] == 'Δ' || t[i] == '°' || t[i]
        == 'ø' || t[i] == 'Ø') {
        i + 1
    } else {
        i
    }
}

fn extension_piece_at(t: &[char], i: usize) -> (r: usize)
    requires
        i <= t@.len(),
    ensures
        r == extension_piece(t@, i as int),
        i + r <= t@.len(),
{
    if holds3(t, i, 's', 'u', 's') || holds3(t, i, 'a', 'd', 'd') {
        3
    } else if holds2(t, i, '1', '0') || holds2(t, i, '1', '1') || holds2(t, i, '1', '3') {
        2
    } else if i < t.len() && (t[i] == 'b' || t[i] == '#' || t[i] == '2' || t[i] == '4' || t[i]
        == '5' || t[i] == '6' || t[i] == '7' || t[i] == '9') {
        1
    } else {
        0
    }
}

fn after_extensions_at(t: &[char], i: usize) -> (r: usize)
    requires
        i <= t@.len(),
    ensures
        r == after_extensions(t@, i as int),
        r <= t@.len(),
{
    let len = t.len();
    let mut j = i;
    loop
        invariant
            i <= j <= t@.len(),
            len == t@.len(),
            after_extensions(t@, j as int) == after_extensions(t@, i as int),
        decreases t@.len() - j,
    {
        let n = extension_piece_at(t, j);
        if n == 0 {
            return j;
        }
        j = j + n;
    }
}

fn after_alteration_at(t: &[char], i: usize) -> (r: usize)
    requires
        i <= t@.len(),
    ensures
        r == after_alteration(t@, i as int),
        r <= t@.len(),
{
    let len = t.len();
    if i < t.len() && t[i] == '+' {
        i + 1
    } else if holds3(t, i, 'a', 'u', 'g') || holds3(t, i, 'a', 'l', 't') {
        i + 3
    } else {
        i
    }
}

fn is_root_char(c: char) -> (r: bool)
    ensures
        r == is_root(c),
{
    c == 'A' || c == 'B' || c == 'C' || c == 'D' || c == 'E' || c == 'F' || c == 'G'
}

/// Whether the characters `t` form a chord name.
pub fn is_chord_chars(t: &[char]) -> (r: bool)
    ensures
        r == is_chord_name(t@),
{
    if t.len() == 0 || !is_root_char(t[0]) {
        return false;
    }
    let i = after_alteration_at(
        t,
        after_extensions_at(t, after_quality_at(t, after_accidental_at(t, 1))),
    );
    i == t.len() || (t.len() - i >= 2 && t[i] == '/' && is_root_char(t[i + 1]) && (t.len() - i
        == 2 || (t.len() - i == 3 && (t[i + 2] == 'b' || t[i + 2] == '#'))))
}

/// Whether `token` is, as a whole, a chord name.
pub fn is_chord(token: &str) -> (r: bool)
    ensures
        r == matches_chord_grammar(token@),
        r == is_chord_name(token@),
{
    let t = chars_of(token);
    proof {
        chord_name_iff_grammar(token@);
    }
    is_chord_chars(t.as_slice())
}

/// The chord of each token of `l`, with the offset where the token starts;
/// `None` as soon as one token is not a chord name.
pub open spec fn chords_of_spans(l: Seq<char>, spans: Seq<(int, int)>) -> Seq<ChordModel> {
    spans.map_values(|sp: (int, int)| ChordModel { name: token_text(l, sp), pos: sp.0 as nat })
}

/// The chords of `line` when it is a chord line (every token a chord name),
/// each with the character offset where its token starts; `None` otherwise.
pub fn parse_chords(line: &[char]) -> (r: Option<Vec<SongChord>>)
    ensures
        match r {
            None => chord_line(line@) is None,
            Some(v) => chord_line(line@) == Some(crate::song::chord_models(v@)),
        },
{
    let ghost l = line@;
    let len = line.len();
    let mut chords: Vec<SongChord> = Vec::new();
    let ghost mut done: Seq<(int, int)> = Seq::empty();
    let mut i: usize = 0;
    while i < len
        invariant
            i <= len == l.len(),
            l == line@,
            done + token_spans(l, i as int) == token_spans(l, 0),
            crate::song::chord_models(chords@) == chords_of_spans(l, done),
            forall|k: int| 0 <= k < done.len() ==> is_chord_name(#[trigger] token_text(l, done[k])),
        decreases len - i,
    {
        if line[i] == ' ' {
            i = i + 1;
        } else {
            let mut e = i;
            while e < len && line[e] != ' '
                invariant
                    i <= e <= len == l.len(),
                    l == line@,
                    run_end(l, e as int) == run_end(l, i as int),
                decreases len - e,
            {
                e = e + 1;
            }
            let ghost spans = token_spans(l, 0);
            assert(token_spans(l, i as int) == seq![(i as int, e as int)] + token_spans(
                l,
                e as int,
            ));
            assert(spans[done.len() as int] == (i as int, e as int));
            let tok = copy_chars(line, i, e);
            if !is_chord_chars(tok.as_slice()) {
                assert(!is_chord_name(token_text(l, spans[done.len() as int])));
                return None;
            }
            let ghost before = chords@;
            chords.push(SongChord { name: string_of(line, i, e), pos: i });
            proof {
                assert(crate::song::chord_models(chords@) =~= crate::song::chord_models(
                    before,
                ).push(ChordModel { name: token_text(l, (i as int, e as int)), pos: i as nat }));
                assert(chords_of_spans(l, done.push((i as int, e as int))) =~= chords_of_spans(
                    l,
                    done,
                ).push(ChordModel { name: token_text(l, (i as int, e as int)), pos: i as nat }));
                assert(done.push((i as int, e as int)) + token_spans(l, e as int) =~= done + (seq![
                    (i as int, e as int),
                ] + token_spans(l, e as int)));
                done = done.push((i as int, e as int));
            }
            i = e;
        }
    }
    assert(done =~= token_spans(l, 0));
    Some(chords)
}

} // verus!
