//! The general properties of the engine, stated and proved over its
//! mathematical model: pass-through of unmapped characters, empty input,
//! longest-match digraph precedence, exception override with its
//! first-match-wins tie-break, whitespace normalization, and word
//! independence.

use vstd::prelude::*;

verus! {

use crate::charmaps;
use crate::outside::is_space;
use crate::transliterate::{
    Direction,
    table_for,
    matches_at,
    rev_lookup,
    spec_lookup,
    find_alt_from,
    marker_hit,
    exception_from,
    spec_exception,
    scan_from,
    advance_of,
    spec_process_word,
    split_ws,
    join_sp,
    map_words,
    spec_process,
    lemma_split_take_word,
    lemma_split_skip_space,
    lemma_rev_lookup_matches,
};

// ---------------------------------------------------------------------------
// Empty input
// ---------------------------------------------------------------------------

/// An empty input produces an empty output, in either direction.
pub proof fn lemma_empty_input(dir: Direction)
    ensures
        spec_process(dir, Seq::<char>::empty()) == Seq::<char>::empty(),
{
    assert(split_ws(Seq::<char>::empty()) == Seq::<Seq<char>>::empty());
    assert(map_words(dir, Seq::<Seq<char>>::empty()) =~= Seq::<Seq<char>>::empty());
}

// ---------------------------------------------------------------------------
// Pass-through
// ---------------------------------------------------------------------------

/// A character that no table entry's source sequence begins with; the
/// scanner can only copy it through unchanged.
pub open spec fn unmapped_char(dir: Direction, c: char) -> bool {
    forall|j: int|
        0 <= j < table_for(dir).len() ==> (#[trigger] table_for(dir)[j].0)[0] != c
}

proof fn lemma_rev_lookup_unmapped(
    t: Seq<(Seq<char>, Seq<char>)>,
    chars: Seq<char>,
    pos: int,
    j: int,
)
    requires
        0 <= pos < chars.len(),
        charmaps::sources_nonempty(t),
        j < t.len(),
        forall|m: int| 0 <= m < t.len() ==> (#[trigger] t[m].0)[0] != chars[pos],
    ensures
        rev_lookup(t, chars, pos, j) is None,
    decreases j + 1,
{
    if j < 0 {
    } else {
        if matches_at(t[j].0, chars, pos) {
            assert(chars.subrange(pos, pos + t[j].0.len())[0] == chars[pos]);
            assert(false);
        }
        lemma_rev_lookup_unmapped(t, chars, pos, j - 1);
    }
}

proof fn lemma_scan_pass_through(dir: Direction, word: Seq<char>, pos: int)
    requires
        0 <= pos <= word.len(),
        forall|i: int| 0 <= i < word.len() ==> unmapped_char(dir, #[trigger] word[i]),
    ensures
        scan_from(dir, word, pos) == word.skip(pos),
    decreases word.len() - pos,
{
    charmaps::lemma_tables_wf();
    if pos == word.len() {
        assert(word.skip(pos) =~= Seq::<char>::empty());
    } else {
        let t = table_for(dir);
        assert(unmapped_char(dir, word[pos]));
        assert(forall|m: int| 0 <= m < t.len() ==> (#[trigger] t[m].0)[0] != word[pos]);
        lemma_rev_lookup_unmapped(t, word, pos, t.len() - 1);
        assert(spec_lookup(t, word, pos) is None);
        lemma_scan_pass_through(dir, word, pos + 1);
        assert(scan_from(dir, word, pos) == seq![word[pos]] + word.skip(pos + 1));
        assert(seq![word[pos]] + word.skip(pos + 1) =~= word.skip(pos));
    }
}

/// Pass-through: a non-empty word of characters that appear in no table
/// entry and are not whitespace is returned unchanged.
pub proof fn lemma_pass_through(dir: Direction, word: Seq<char>)
    requires
        word.len() > 0,
        forall|i: int| 0 <= i < word.len() ==> unmapped_char(dir, #[trigger] word[i]),
        forall|i: int| 0 <= i < word.len() ==> !is_space(#[trigger] word[i]),
    ensures
        spec_process_word(dir, word) == word,
        spec_process(dir, word) == word,
{
    lemma_scan_pass_through(dir, word, 0);
    assert(word.skip(0) =~= word);
    lemma_split_take_word(word, 0, word.len() as int);
    assert(word.subrange(0, word.len() as int) =~= word);
    assert(word.skip(word.len() as int) =~= Seq::<char>::empty());
    assert(split_ws(word) =~= seq![word]);
    let ws = map_words(dir, seq![word]);
    assert(ws.len() == 1 && ws[0] == spec_process_word(dir, word));
    assert(join_sp(ws) == ws[0]);
}

// ---------------------------------------------------------------------------
// Digraph precedence
// ---------------------------------------------------------------------------

proof fn lemma_rev_lookup_ge(t: Seq<(Seq<char>, Seq<char>)>, chars: Seq<char>, pos: int, j: int, k: int)
    requires
        0 <= k <= j < t.len(),
        matches_at(t[k].0, chars, pos),
    ensures
        rev_lookup(t, chars, pos, j) is Some,
        rev_lookup(t, chars, pos, j)->Some_0 >= k,
    decreases j + 1,
{
    if matches_at(t[j].0, chars, pos) {
    } else {
        lemma_rev_lookup_ge(t, chars, pos, j - 1, k);
    }
}

/// Digraph precedence: when a later-registered entry (a digraph standing
/// after its single-letter prefix) matches at a position, the scanner never
/// selects an earlier entry there, so a prefix of a registered digraph is
/// never matched as the shorter form.
pub proof fn lemma_digraph_precedence(dir: Direction, chars: Seq<char>, pos: int, k: int)
    requires
        0 <= k < table_for(dir).len(),
        matches_at(table_for(dir)[k].0, chars, pos),
    ensures
        spec_lookup(table_for(dir), chars, pos) is Some,
        spec_lookup(table_for(dir), chars, pos)->Some_0 >= k,
{
    let t = table_for(dir);
    lemma_rev_lookup_ge(t, chars, pos, t.len() - 1, k);
}

// ---------------------------------------------------------------------------
// Exception override
// ---------------------------------------------------------------------------

proof fn lemma_exception_skip(
    gs: Seq<(Seq<(Seq<char>, Seq<char>)>, Seq<Seq<char>>)>,
    word: Seq<char>,
    c: Seq<char>,
    g: int,
    gi: int,
)
    requires
        0 <= g <= gi <= gs.len(),
        forall|h: int|
            g <= h < gi ==> !(find_alt_from(#[trigger] gs[h].0, c, 0) is Some && marker_hit(
                gs[h].1,
                word,
            )),
    ensures
        exception_from(gs, word, c, g) == exception_from(gs, word, c, gi),
    decreases gi - g,
{
    if g < gi {
        assert(!(find_alt_from(gs[g].0, c, 0) is Some && marker_hit(gs[g].1, word)));
        lemma_exception_skip(gs, word, c, g + 1, gi);
    }
}

/// Exception override: when a word contains a marker of the first exception
/// group that lists the matched symbol sequence among its alternatives, the
/// disambiguator yields that alternative's override — earlier groups that do
/// not apply are skipped, and the first applicable group in table order
/// wins, the deliberate tie-break rule.
pub proof fn lemma_exception_override(word: Seq<char>, c: Seq<char>, gi: int, ai: int)
    requires
        0 <= gi < charmaps::exception_groups().len(),
        forall|g: int|
            0 <= g < gi ==> !(find_alt_from(#[trigger] charmaps::exception_groups()[g].0, c, 0)
                is Some && marker_hit(charmaps::exception_groups()[g].1, word)),
        find_alt_from(charmaps::exception_groups()[gi].0, c, 0) == Some(ai),
        marker_hit(charmaps::exception_groups()[gi].1, word),
    ensures
        spec_exception(word, c) == Some(charmaps::exception_groups()[gi].0[ai].1),
{
    let gs = charmaps::exception_groups();
    lemma_exception_skip(gs, word, c, 0, gi);
}

/// Two sequences that differ at one index are different.
proof fn lemma_neq_at(a: Seq<char>, b: Seq<char>, i: int)
    requires
        0 <= i < a.len(),
        0 <= i < b.len(),
        a[i] != b[i],
    ensures
        a != b,
{
}

/// The dictionary's groups list pairwise disjoint alternative source forms:
/// a form found in one group is listed by no earlier group.
pub proof fn lemma_groups_distinct(c: Seq<char>, gi: int)
    requires
        0 <= gi < charmaps::exception_groups().len(),
        find_alt_from(charmaps::exception_groups()[gi].0, c, 0) is Some,
    ensures
        forall|g: int|
            0 <= g < gi ==> find_alt_from(#[trigger] charmaps::exception_groups()[g].0, c, 0)
                is None,
{
    let gs = charmaps::exception_groups();
    lemma_find_alt_bounds(gs[gi].0, c, 0);
    let i = find_alt_from(gs[gi].0, c, 0)->Some_0;
    assert forall|g: int| 0 <= g < gi implies find_alt_from(gs[g].0, c, 0) is None by {
        let a = gs[g].0;
        if gi == 1 {
            if i == 0 {
                lemma_neq_at(a[0].0, c, 1);
                lemma_neq_at(a[1].0, c, 0);
                lemma_neq_at(a[2].0, c, 0);
            } else if i == 1 {
                lemma_neq_at(a[0].0, c, 0);
                lemma_neq_at(a[1].0, c, 1);
                lemma_neq_at(a[2].0, c, 1);
            } else {
                lemma_neq_at(a[0].0, c, 0);
                lemma_neq_at(a[1].0, c, 1);
                lemma_neq_at(a[2].0, c, 1);
            }
        } else {
            lemma_neq_at(a[0].0, c, 0);
            lemma_neq_at(a[1].0, c, 0);
            lemma_neq_at(a[2].0, c, 0);
        }
        assert(find_alt_from(a, c, 0) == find_alt_from(a, c, 1));
        assert(find_alt_from(a, c, 1) == find_alt_from(a, c, 2));
        assert(find_alt_from(a, c, 2) == find_alt_from(a, c, 3));
    }
}

/// Exception override with the tie-break discharged from the dictionary
/// itself: because the groups' alternative lists are disjoint, the group
/// that lists the matched sequence is the first applicable one, and its
/// override governs whenever a marker occurs in the word.
pub proof fn lemma_exception_override_applies(word: Seq<char>, c: Seq<char>, gi: int, ai: int)
    requires
        0 <= gi < charmaps::exception_groups().len(),
        find_alt_from(charmaps::exception_groups()[gi].0, c, 0) == Some(ai),
        marker_hit(charmaps::exception_groups()[gi].1, word),
    ensures
        spec_exception(word, c) == Some(charmaps::exception_groups()[gi].0[ai].1),
{
    lemma_groups_distinct(c, gi);
    lemma_exception_override(word, c, gi, ai);
}

/// When the disambiguator returns an override for the matched entry, the
/// scanner emits the override in place of the default target and consumes
/// the matched source length.
pub proof fn lemma_scan_emits_override(word: Seq<char>, pos: int, j: int)
    requires
        0 <= pos < word.len(),
        spec_lookup(table_for(Direction::LatinToCyrillic), word, pos) == Some(j),
        spec_exception(word, table_for(Direction::LatinToCyrillic)[j].0) is Some,
    ensures
        scan_from(Direction::LatinToCyrillic, word, pos) == spec_exception(
            word,
            table_for(Direction::LatinToCyrillic)[j].0,
        )->Some_0 + scan_from(
            Direction::LatinToCyrillic,
            word,
            pos + advance_of(table_for(Direction::LatinToCyrillic)[j].0.len() as int),
        ),
{
}

// ---------------------------------------------------------------------------
// Whitespace normalization and word independence
// ---------------------------------------------------------------------------

/// A word list is clean when every word is non-empty and holds no
/// whitespace character.
pub open spec fn clean_words(ws: Seq<Seq<char>>) -> bool {
    forall|i: int|
        0 <= i < ws.len() ==> (#[trigger] ws[i]).len() > 0 && (forall|k: int|
            0 <= k < ws[i].len() ==> !is_space(ws[i][k]))
}

/// Splitting yields only clean words: non-empty, with no whitespace inside.
pub proof fn lemma_split_words_clean(s: Seq<char>)
    ensures
        clean_words(split_ws(s)),
    decreases s.len(),
{
    if s.len() == 0 {
    } else if is_space(s[0]) {
        lemma_split_words_clean(s.drop_first());
    } else {
        lemma_split_words_clean(s.drop_first());
        let rest = split_ws(s.drop_first());
        if s.len() > 1 && !is_space(s[1]) {
            assert(s.drop_first().len() > 0 && !is_space(s.drop_first()[0]));
            assert(rest.len() > 0);
            let w0 = seq![s[0]] + rest[0];
            assert(w0.len() > 0);
            assert(forall|k: int| 0 <= k < w0.len() ==> !is_space(w0[k])) by {
                assert(forall|k: int| 1 <= k < w0.len() ==> w0[k] == rest[0][k - 1]);
            }
            let r = seq![w0] + rest.drop_first();
            assert(split_ws(s) == r);
            assert forall|i: int| 0 <= i < r.len() implies (#[trigger] r[i]).len() > 0 && (
            forall|k: int| 0 <= k < r[i].len() ==> !is_space(r[i][k])) by {
                if i > 0 {
                    assert(r[i] == rest[i]);
                }
            }
        } else {
            let r = seq![seq![s[0]]] + rest;
            assert(split_ws(s) == r);
            assert forall|i: int| 0 <= i < r.len() implies (#[trigger] r[i]).len() > 0 && (
            forall|k: int| 0 <= k < r[i].len() ==> !is_space(r[i][k])) by {
                if i > 0 {
                    assert(r[i] == rest[i - 1]);
                }
            }
        }
    }
}

/// Splitting the single-space join of clean words returns exactly those
/// words.
pub proof fn lemma_split_of_join(ws: Seq<Seq<char>>)
    requires
        clean_words(ws),
    ensures
        split_ws(join_sp(ws)) == ws,
    decreases ws.len(),
{
    if ws.len() == 0 {
    } else if ws.len() == 1 {
        let w = ws[0];
        assert(join_sp(ws) == w);
        lemma_split_take_word(w, 0, w.len() as int);
        assert(w.subrange(0, w.len() as int) =~= w);
        assert(w.skip(w.len() as int) =~= Seq::<char>::empty());
        assert(split_ws(w) =~= ws);
    } else {
        let w = ws[0];
        let s = join_sp(ws);
        let tail = join_sp(ws.drop_first());
        assert(s == w + seq![' '] + tail);
        let l = w.len() as int;
        assert(forall|k: int| 0 <= k < l ==> s[k] == w[k]);
        assert(s[l] == ' ');
        lemma_split_take_word(s, 0, l);
        assert(s.subrange(0, l) =~= w);
        lemma_split_skip_space(s, l);
        assert(s.skip(l + 1) =~= tail);
        assert(forall|i: int|
            0 <= i < ws.drop_first().len() ==> ws.drop_first()[i] == ws[i + 1]);
        lemma_split_of_join(ws.drop_first());
        assert(s.skip(0) =~= s);
        assert(split_ws(s) == seq![w] + ws.drop_first());
        assert(seq![w] + ws.drop_first() =~= ws);
    }
}

/// A found alternative lies within the group and its source form equals the
/// matched sequence.
proof fn lemma_find_alt_bounds(alts: Seq<(Seq<char>, Seq<char>)>, c: Seq<char>, i0: int)
    requires
        find_alt_from(alts, c, i0) is Some,
    ensures
        ({
            let i = find_alt_from(alts, c, i0)->Some_0;
            &&& i0 <= i < alts.len()
            &&& alts[i].0 == c
        }),
    decreases alts.len() - i0,
{
    if 0 <= i0 < alts.len() && !(alts[i0].0 == c) {
        lemma_find_alt_bounds(alts, c, i0 + 1);
    }
}

/// Whatever override the disambiguator yields is one of the dictionary's
/// renderings: non-empty and whitespace-free.
proof fn lemma_exception_result_clean(
    gs: Seq<(Seq<(Seq<char>, Seq<char>)>, Seq<Seq<char>>)>,
    word: Seq<char>,
    c: Seq<char>,
    gi: int,
)
    requires
        0 <= gi <= gs.len(),
        charmaps::groups_targets_clean(gs),
    ensures
        exception_from(gs, word, c, gi) matches Some(o) ==> o.len() >= 1 && (forall|k: int|
            0 <= k < o.len() ==> !is_space(o[k])),
    decreases gs.len() - gi,
{
    if gi < gs.len() {
        match find_alt_from(gs[gi].0, c, 0) {
            Some(i) => {
                lemma_find_alt_bounds(gs[gi].0, c, 0);
                if !marker_hit(gs[gi].1, word) {
                    lemma_exception_result_clean(gs, word, c, gi + 1);
                }
            },
            None => {
                lemma_exception_result_clean(gs, word, c, gi + 1);
            },
        }
    }
}

/// Concatenation keeps whitespace-freedom.
proof fn lemma_concat_nonspace(a: Seq<char>, b: Seq<char>)
    requires
        forall|k: int| 0 <= k < a.len() ==> !is_space(#[trigger] a[k]),
        forall|k: int| 0 <= k < b.len() ==> !is_space(#[trigger] b[k]),
    ensures
        forall|k: int| 0 <= k < (a + b).len() ==> !is_space(#[trigger] (a + b)[k]),
{
    assert forall|k: int| 0 <= k < (a + b).len() implies !is_space((a + b)[k]) by {
        if k < a.len() {
            assert((a + b)[k] == a[k]);
        } else {
            assert((a + b)[k] == b[k - a.len()]);
        }
    }
}

/// The scanner's output for a whitespace-free word is itself
/// whitespace-free, and non-empty as soon as any input is left: every step
/// emits an override, a target sequence, or the input character, and the
/// tables hold no whitespace.
proof fn lemma_scan_output_clean(dir: Direction, word: Seq<char>, pos: int)
    requires
        0 <= pos <= word.len(),
        forall|i: int| 0 <= i < word.len() ==> !is_space(#[trigger] word[i]),
    ensures
        forall|k: int|
            0 <= k < scan_from(dir, word, pos).len() ==> !is_space(
                #[trigger] scan_from(dir, word, pos)[k],
            ),
        pos < word.len() ==> scan_from(dir, word, pos).len() >= 1,
    decreases word.len() - pos,
{
    charmaps::lemma_tables_wf();
    charmaps::lemma_targets_wf();
    if pos < word.len() {
        let t = table_for(dir);
        match spec_lookup(t, word, pos) {
            Some(j) => {
                lemma_rev_lookup_matches(t, word, pos, t.len() - 1);
                let src = t[j].0;
                let dst = t[j].1;
                let adv = advance_of(src.len() as int);
                let rest = scan_from(dir, word, pos + adv);
                lemma_scan_output_clean(dir, word, pos + adv);
                if dir is LatinToCyrillic && spec_exception(word, src) is Some {
                    let o = spec_exception(word, src)->Some_0;
                    lemma_exception_result_clean(charmaps::exception_groups(), word, src, 0);
                    lemma_concat_nonspace(o, rest);
                    assert(scan_from(dir, word, pos) == o + rest);
                } else {
                    lemma_concat_nonspace(dst, rest);
                    assert(scan_from(dir, word, pos) == dst + rest);
                }
            },
            None => {
                let rest = scan_from(dir, word, pos + 1);
                lemma_scan_output_clean(dir, word, pos + 1);
                lemma_concat_nonspace(seq![word[pos]], rest);
                assert(scan_from(dir, word, pos) == seq![word[pos]] + rest);
            },
        }
    }
}

/// The transliterated words of any input are themselves clean: non-empty
/// and whitespace-free.
pub proof fn lemma_output_words_clean(dir: Direction, s: Seq<char>)
    ensures
        clean_words(map_words(dir, split_ws(s))),
{
    lemma_split_words_clean(s);
    let ws = split_ws(s);
    let mapped = map_words(dir, ws);
    assert forall|i: int| 0 <= i < mapped.len() implies (#[trigger] mapped[i]).len() > 0 && (
    forall|k: int| 0 <= k < mapped[i].len() ==> !is_space(mapped[i][k])) by {
        lemma_scan_output_clean(dir, ws[i], 0);
    }
}

/// The single-space join of clean words is non-empty, begins and ends with
/// non-whitespace, and never holds two adjacent whitespace characters.
proof fn lemma_join_clean(ws: Seq<Seq<char>>)
    requires
        clean_words(ws),
    ensures
        ws.len() > 0 ==> join_sp(ws).len() > 0,
        join_sp(ws).len() > 0 ==> !is_space(join_sp(ws)[0]) && !is_space(
            join_sp(ws)[join_sp(ws).len() - 1],
        ),
        forall|i: int|
            0 <= i < join_sp(ws).len() - 1 ==> !(is_space(join_sp(ws)[i]) && is_space(
                #[trigger] join_sp(ws)[i + 1],
            )),
    decreases ws.len(),
{
    if ws.len() == 0 {
    } else if ws.len() == 1 {
        assert(join_sp(ws) == ws[0]);
        assert(ws[0].len() > 0 && forall|k: int| 0 <= k < ws[0].len() ==> !is_space(ws[0][k]));
    } else {
        let tail = ws.drop_first();
        assert(clean_words(tail)) by {
            assert(forall|i: int| 0 <= i < tail.len() ==> tail[i] == ws[i + 1]);
        }
        lemma_join_clean(tail);
        let w0 = ws[0];
        let t = join_sp(tail);
        let o = join_sp(ws);
        assert(o == w0 + seq![' '] + t);
        let l = w0.len() as int;
        assert(w0.len() > 0 && forall|k: int| 0 <= k < w0.len() ==> !is_space(w0[k]));
        assert(t.len() > 0);
        assert(o[0] == w0[0]);
        assert(o[o.len() - 1] == t[t.len() - 1]);
        assert forall|i: int|
            0 <= i < o.len() - 1 implies !(is_space(o[i]) && is_space(#[trigger] o[i + 1])) by {
            if i < l {
                assert(o[i] == (w0 + seq![' '])[i]);
                assert((w0 + seq![' '])[i] == w0[i]);
                assert(!is_space(o[i]));
            } else if i == l {
                assert(o[i + 1] == t[0]);
                assert(!is_space(t[0]));
            } else {
                let j = i - l - 1;
                assert(o[i] == t[j]);
                assert(o[i + 1] == t[j + 1]);
                assert(!(is_space(t[j]) && is_space(t[j + 1])));
            }
        }
    }
}

/// Whitespace in the output: the output of any input is the single-space
/// join of its clean transliterated words, so it carries no leading or
/// trailing whitespace and never two adjacent whitespace characters — every
/// whitespace run of the input collapses to one space.
pub proof fn lemma_output_spacing(dir: Direction, s: Seq<char>)
    ensures
        clean_words(map_words(dir, split_ws(s))),
        spec_process(dir, s).len() > 0 ==> !is_space(spec_process(dir, s)[0]) && !is_space(
            spec_process(dir, s)[spec_process(dir, s).len() - 1],
        ),
        forall|i: int|
            0 <= i < spec_process(dir, s).len() - 1 ==> !(is_space(spec_process(dir, s)[i])
                && is_space(#[trigger] spec_process(dir, s)[i + 1])),
{
    lemma_output_words_clean(dir, s);
    lemma_join_clean(map_words(dir, split_ws(s)));
}

/// Whitespace normalization: any input transliterates exactly as its
/// normalized form does, in which the words are joined by single spaces with
/// nothing leading or trailing.
pub proof fn lemma_whitespace_normalization(dir: Direction, s: Seq<char>)
    ensures
        spec_process(dir, s) == spec_process(dir, join_sp(split_ws(s))),
{
    lemma_split_words_clean(s);
    lemma_split_of_join(split_ws(s));
}

/// Word independence: transliterating the single-space join of clean words
/// equals joining the independently transliterated words with single
/// spaces.
pub proof fn lemma_word_independence(dir: Direction, ws: Seq<Seq<char>>)
    requires
        clean_words(ws),
    ensures
        spec_process(dir, join_sp(ws)) == join_sp(map_words(dir, ws)),
{
    lemma_split_of_join(ws);
}

// ---------------------------------------------------------------------------
// Round trip
// ---------------------------------------------------------------------------

/// Round trip, lifted from words to whole inputs: when every word of the
/// input round-trips through one direction and back — which holds exactly
/// for canonical, non-ambiguous words — then the whole input round-trips to
/// its whitespace-normalized form, and so to itself when its words are
/// already single-space joined.
pub proof fn lemma_round_trip_words(there: Direction, back: Direction, s: Seq<char>)
    requires
        forall|i: int|
            0 <= i < split_ws(s).len() ==> spec_process_word(
                back,
                spec_process_word(there, #[trigger] split_ws(s)[i]),
            ) == split_ws(s)[i],
    ensures
        spec_process(back, spec_process(there, s)) == join_sp(split_ws(s)),
{
    let ws = split_ws(s);
    let mapped = map_words(there, ws);
    lemma_output_words_clean(there, s);
    lemma_split_of_join(mapped);
    assert(spec_process(back, join_sp(mapped)) == join_sp(map_words(back, mapped)));
    assert(map_words(back, mapped) =~= ws);
}

} // verus!
