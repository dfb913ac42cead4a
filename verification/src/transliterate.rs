//! The transliteration engine: a longest-match word scanner over the mapping
//! table, the digraph disambiguator, and per-word UTF-8 output assembly.

use vstd::prelude::*;

verus! {

use vstd::utf8::encode_scalar;
use vstd::utf8::encode_utf8;
use crate::charmaps;
use crate::charmaps::{Mapping, table_view, groups_view};
use crate::outside;
use crate::outside::{lower_of, is_space, contains_bytes};

/// The transliteration direction.
pub enum Direction {
    LatinToCyrillic,
    CyrillicToLatin,
}

/// The error taxonomy of the processing operation. The growable output
/// buffer and the proved validity of the assembled UTF-8 leave every variant
/// unused by `process`, which always succeeds; the variants remain for the
/// callers that match on them.
#[derive(Debug)]
pub enum Error {
    EmptyDigest,
    BufferOverflow,
    IoError,
    UTFError,
    FromUTFError,
}

/// The transliteration engine for one chosen direction.
pub struct Transliterate {
    direction: Direction,
}

// ---------------------------------------------------------------------------
// The mathematical model of the scanner
// ---------------------------------------------------------------------------

/// The source table a direction scans, with its parallel target sequences.
pub open spec fn table_for(dir: Direction) -> Seq<(Seq<char>, Seq<char>)> {
    match dir {
        Direction::LatinToCyrillic => charmaps::latin_to_cyrillic(),
        Direction::CyrillicToLatin => charmaps::cyrillic_to_latin(),
    }
}

/// True when `src` matches the characters of `chars` starting at `pos`.
pub open spec fn matches_at(src: Seq<char>, chars: Seq<char>, pos: int) -> bool {
    &&& 0 <= pos
    &&& pos + src.len() <= chars.len()
    &&& chars.subrange(pos, pos + src.len()) == src
}

/// Scans table entries from index `j` down to 0 and yields the index of the
/// first entry whose source matches at `pos`, so that entries registered
/// later take precedence.
pub open spec fn rev_lookup(
    t: Seq<(Seq<char>, Seq<char>)>,
    chars: Seq<char>,
    pos: int,
    j: int,
) -> Option<int>
    decreases j + 1,
{
    if j < 0 {
        None
    } else if matches_at(t[j].0, chars, pos) {
        Some(j)
    } else {
        rev_lookup(t, chars, pos, j - 1)
    }
}

/// The table entry selected at `pos`: the matching entry of highest index.
pub open spec fn spec_lookup(t: Seq<(Seq<char>, Seq<char>)>, chars: Seq<char>, pos: int) -> Option<
    int,
> {
    rev_lookup(t, chars, pos, t.len() - 1)
}

/// The word with each character replaced by its Unicode lowercase mapping.
pub open spec fn lower_word(w: Seq<char>) -> Seq<char>
    decreases w.len(),
{
    if w.len() == 0 {
        Seq::empty()
    } else {
        lower_of(w[0]) + lower_word(w.drop_first())
    }
}

/// The first alternative of a group whose source form equals `c`, scanning
/// from index `i` upward.
pub open spec fn find_alt_from(alts: Seq<(Seq<char>, Seq<char>)>, c: Seq<char>, i: int) -> Option<
    int,
>
    decreases alts.len() - i,
{
    if !(0 <= i < alts.len()) {
        None
    } else if alts[i].0 == c {
        Some(i)
    } else {
        find_alt_from(alts, c, i + 1)
    }
}

/// True when one of the group's marker substrings occurs, byte-level, in the
/// UTF-8 encoding of the lowercased word.
pub open spec fn marker_hit(markers: Seq<Seq<char>>, word: Seq<char>) -> bool {
    exists|k: int|
        0 <= k < markers.len() && contains_bytes(
            encode_utf8(lower_word(word)),
            encode_utf8(#[trigger] markers[k]),
        )
}

/// Walks the exception groups from index `gi` on; the first group that both
/// lists `c` among its alternatives and has a marker in the word yields that
/// alternative's override.
pub open spec fn exception_from(
    gs: Seq<(Seq<(Seq<char>, Seq<char>)>, Seq<Seq<char>>)>,
    word: Seq<char>,
    c: Seq<char>,
    gi: int,
) -> Option<Seq<char>>
    decreases gs.len() - gi,
{
    if !(0 <= gi < gs.len()) {
        None
    } else {
        match find_alt_from(gs[gi].0, c, 0) {
            Some(i) => if marker_hit(gs[gi].1, word) {
                Some(gs[gi].0[i].1)
            } else {
                exception_from(gs, word, c, gi + 1)
            },
            None => exception_from(gs, word, c, gi + 1),
        }
    }
}

/// The override the digraph disambiguator selects for the matched source
/// symbol sequence `c` inside `word`, if any.
pub open spec fn spec_exception(word: Seq<char>, c: Seq<char>) -> Option<Seq<char>> {
    exception_from(charmaps::exception_groups(), word, c, 0)
}

/// How far the input cursor moves after a match of `n` source characters
/// (always at least one position).
pub open spec fn advance_of(n: int) -> int {
    if n < 1 {
        1
    } else {
        n
    }
}

/// The characters the scanner emits for `word` from position `pos` on: the
/// longest (last-registered) match is mapped, the disambiguator may override
/// it in the Latin-to-Cyrillic direction, and an unmatched character is
/// copied through unchanged.
pub open spec fn scan_from(dir: Direction, word: Seq<char>, pos: int) -> Seq<char>
    decreases word.len() - pos,
    via scan_from_decreases
{
    if pos < 0 || pos >= word.len() {
        Seq::empty()
    } else {
        match spec_lookup(table_for(dir), word, pos) {
            Some(j) => {
                let src = table_for(dir)[j].0;
                let dst = table_for(dir)[j].1;
                let adv = advance_of(src.len() as int);
                if dir is LatinToCyrillic {
                    match spec_exception(word, src) {
                        Some(o) => o + scan_from(dir, word, pos + adv),
                        None => dst + scan_from(dir, word, pos + adv),
                    }
                } else {
                    dst + scan_from(dir, word, pos + adv)
                }
            },
            None => seq![word[pos]] + scan_from(dir, word, pos + 1),
        }
    }
}

#[via_fn]
proof fn scan_from_decreases(dir: Direction, word: Seq<char>, pos: int) {
    if !(pos < 0 || pos >= word.len()) {
        let t = table_for(dir);
        match spec_lookup(t, word, pos) {
            Some(j) => {
                lemma_rev_lookup_matches(t, word, pos, t.len() - 1);
            },
            None => {},
        }
    }
}

/// A successful reverse lookup names a matching entry within the scanned
/// range.
pub proof fn lemma_rev_lookup_matches(
    t: Seq<(Seq<char>, Seq<char>)>,
    chars: Seq<char>,
    pos: int,
    j: int,
)
    requires
        rev_lookup(t, chars, pos, j) is Some,
    ensures
        ({
            let m = rev_lookup(t, chars, pos, j)->Some_0;
            &&& 0 <= m <= j
            &&& matches_at(t[m].0, chars, pos)
        }),
    decreases j + 1,
{
    if j < 0 {
    } else if matches_at(t[j].0, chars, pos) {
    } else {
        lemma_rev_lookup_matches(t, chars, pos, j - 1);
    }
}

/// The transliteration of one whitespace-free word.
pub open spec fn spec_process_word(dir: Direction, word: Seq<char>) -> Seq<char> {
    scan_from(dir, word, 0)
}

/// The maximal whitespace-free words of `s`, in order.
pub open spec fn split_ws(s: Seq<char>) -> Seq<Seq<char>>
    decreases s.len(),
{
    if s.len() == 0 {
        Seq::empty()
    } else if is_space(s[0]) {
        split_ws(s.drop_first())
    } else {
        let rest = split_ws(s.drop_first());
        if s.len() > 1 && !is_space(s[1]) {
            seq![seq![s[0]] + rest[0]] + rest.drop_first()
        } else {
            seq![seq![s[0]]] + rest
        }
    }
}

/// The words joined with exactly one space between neighbours.
pub open spec fn join_sp(ws: Seq<Seq<char>>) -> Seq<char>
    decreases ws.len(),
{
    if ws.len() == 0 {
        Seq::empty()
    } else if ws.len() == 1 {
        ws[0]
    } else {
        ws[0] + seq![' '] + join_sp(ws.drop_first())
    }
}

/// Every word transliterated independently.
pub open spec fn map_words(dir: Direction, ws: Seq<Seq<char>>) -> Seq<Seq<char>> {
    Seq::new(ws.len(), |i: int| spec_process_word(dir, ws[i]))
}

/// The transliteration of a whole input: its words are transliterated
/// independently and rejoined with single spaces.
pub open spec fn spec_process(dir: Direction, s: Seq<char>) -> Seq<char> {
    join_sp(map_words(dir, split_ws(s)))
}

// ---------------------------------------------------------------------------
// Sequence lemmas
// ---------------------------------------------------------------------------

/// UTF-8 encoding distributes over concatenation.
pub proof fn lemma_encode_utf8_concat(a: Seq<char>, b: Seq<char>)
    ensures
        encode_utf8(a + b) == encode_utf8(a) + encode_utf8(b),
    decreases a.len(),
{
    if a.len() == 0 {
        assert(a + b =~= b);
        assert(encode_utf8(a) + encode_utf8(b) =~= encode_utf8(b));
    } else {
        assert((a + b).drop_first() =~= a.drop_first() + b);
        lemma_encode_utf8_concat(a.drop_first(), b);
        assert(encode_utf8(a + b) =~= encode_utf8(a) + encode_utf8(b));
    }
}

/// The encoding of a single character is the encoding of its scalar value.
pub proof fn lemma_encode_utf8_single(c: char)
    ensures
        encode_utf8(seq![c]) == encode_scalar(c as u32),
{
    let s = seq![c];
    assert(s.drop_first() =~= Seq::<char>::empty());
    assert(encode_utf8(s.drop_first()) == Seq::<u8>::empty());
    assert(encode_utf8(s) =~= encode_scalar(c as u32));
}

/// The encoding of a non-empty character sequence is a non-empty byte
/// sequence: every scalar encodes to at least one byte.
pub proof fn lemma_encode_utf8_nonempty(chars: Seq<char>)
    requires
        chars.len() >= 1,
    ensures
        encode_utf8(chars).len() >= 1,
{
    assert(encode_scalar(chars[0] as u32).len() >= 1);
}

/// Extending the encoded prefix of a character sequence by one character.
pub proof fn lemma_encode_utf8_snoc(s: Seq<char>, i: int)
    requires
        0 <= i < s.len(),
    ensures
        encode_utf8(s.take(i + 1)) == encode_utf8(s.take(i)) + encode_scalar(s[i] as u32),
{
    assert(s.take(i + 1) =~= s.take(i) + seq![s[i]]);
    lemma_encode_utf8_concat(s.take(i), seq![s[i]]);
    lemma_encode_utf8_single(s[i]);
}

/// Lowercasing distributes over concatenation.
pub proof fn lemma_lower_word_concat(a: Seq<char>, b: Seq<char>)
    ensures
        lower_word(a + b) == lower_word(a) + lower_word(b),
    decreases a.len(),
{
    if a.len() == 0 {
        assert(a + b =~= b);
        assert(lower_word(a + b) =~= lower_word(a) + lower_word(b));
    } else {
        assert((a + b).drop_first() =~= a.drop_first() + b);
        lemma_lower_word_concat(a.drop_first(), b);
        assert(lower_word(a + b) =~= lower_word(a) + lower_word(b));
    }
}

/// Extending the lowercased prefix of a word by one character.
pub proof fn lemma_lower_word_snoc(s: Seq<char>, i: int)
    requires
        0 <= i < s.len(),
    ensures
        lower_word(s.take(i + 1)) == lower_word(s.take(i)) + lower_of(s[i]),
{
    assert(s.take(i + 1) =~= s.take(i) + seq![s[i]]);
    lemma_lower_word_concat(s.take(i), seq![s[i]]);
    let w = seq![s[i]];
    assert(w.drop_first() =~= Seq::<char>::empty());
    assert(lower_word(w.drop_first()) == Seq::<char>::empty());
    assert(lower_word(w) =~= lower_of(s[i]));
}

// ---------------------------------------------------------------------------
// Executable helpers
// ---------------------------------------------------------------------------

/// Appends the UTF-8 encoding of one character.
fn push_char_utf8(c: char, out: &mut Vec<u8>)
    ensures
        final(out)@ == old(out)@ + encode_scalar(c as u32),
{
    proof {
        vstd::utf8::char_is_scalar(c);
    }
    let u = c as u32;
    if u < 0x80 {
        out.push((u & 0x7F) as u8);
    } else if u < 0x800 {
        out.push(0xC0 | ((u >> 6) & 0x1F) as u8);
        out.push(0x80 | (u & 0x3F) as u8);
    } else if u < 0x10000 {
        out.push(0xE0 | ((u >> 12) & 0x0F) as u8);
        out.push(0x80 | ((u >> 6) & 0x3F) as u8);
        out.push(0x80 | (u & 0x3F) as u8);
    } else {
        out.push(0xF0 | ((u >> 18) & 0x7) as u8);
        out.push(0x80 | ((u >> 12) & 0x3F) as u8);
        out.push(0x80 | ((u >> 6) & 0x3F) as u8);
        out.push(0x80 | (u & 0x3F) as u8);
    }
    proof {
        assert(out@ =~= old(out)@ + encode_scalar(c as u32));
    }
}

/// True when the characters of `src` appear in `chars` starting at `pos`.
fn starts_with_at(src: &Vec<char>, chars: &Vec<char>, pos: usize) -> (r: bool)
    requires
        pos <= chars@.len(),
    ensures
        r == matches_at(src@, chars@, pos as int),
{
    let clen = chars.len();
    if src.len() > clen - pos {
        assert(!matches_at(src@, chars@, pos as int));
        return false;
    }
    let n = src.len();
    let mut i: usize = 0;
    while i < n
        invariant
            i <= n,
            n == src@.len(),
            clen == chars@.len(),
            pos + n <= clen,
            forall|k: int| 0 <= k < i ==> chars@[pos + k] == src@[k],
        decreases n - i,
    {
        if chars[pos + i] != src[i] {
            proof {
                let sub = chars@.subrange(pos as int, pos + src@.len());
                assert(sub[i as int] != src@[i as int]);
            }
            return false;
        }
        i += 1;
    }
    proof {
        assert(chars@.subrange(pos as int, pos + src@.len()) =~= src@);
    }
    true
}

/// True when the two character sequences are equal.
fn chars_eq(a: &Vec<char>, b: &Vec<char>) -> (r: bool)
    ensures
        r == (a@ == b@),
{
    if a.len() != b.len() {
        assert(a@ != b@);
        return false;
    }
    let n = a.len();
    for i in 0..n
        invariant
            n == a@.len() == b@.len(),
            forall|k: int| 0 <= k < i ==> a@[k] == b@[k],
    {
        if a[i] != b[i] {
            return false;
        }
    }
    proof {
        assert(a@ =~= b@);
    }
    true
}

/// Copies a character sequence.
fn clone_chars(v: &Vec<char>) -> (r: Vec<char>)
    ensures
        r@ == v@,
{
    let mut r: Vec<char> = Vec::new();
    let n = v.len();
    for i in 0..n
        invariant
            n == v@.len(),
            r@ == v@.take(i as int),
    {
        r.push(v[i]);
        proof {
            assert(v@.take(i + 1) =~= v@.take(i as int).push(v@[i as int]));
        }
    }
    proof {
        assert(v@.take(n as int) =~= v@);
    }
    r
}

/// The first alternative of a group whose source form equals `c`.
fn find_alt_exec(alts: &Vec<Mapping>, c: &Vec<char>) -> (r: Option<usize>)
    ensures
        match r {
            Some(i) => i < alts@.len() && find_alt_from(table_view(alts@), c@, 0) == Some(i as int),
            None => find_alt_from(table_view(alts@), c@, 0) is None,
        },
{
    let n = alts.len();
    let ghost av = table_view(alts@);
    let mut i: usize = 0;
    while i < n
        invariant
            i <= n,
            n == alts@.len(),
            av == table_view(alts@),
            find_alt_from(av, c@, 0) == find_alt_from(av, c@, i as int),
        decreases n - i,
    {
        if chars_eq(&alts[i].src, c) {
            proof {
                assert(av[i as int].0 == alts@[i as int].src@);
                assert(find_alt_from(av, c@, i as int) == Some(i as int));
            }
            return Some(i);
        }
        proof {
            assert(av[i as int].0 == alts@[i as int].src@);
        }
        i += 1;
    }
    None
}

/// The word with every character replaced by its lowercase mapping.
fn lower_chars(word: &Vec<char>) -> (r: Vec<char>)
    ensures
        r@ == lower_word(word@),
{
    let mut r: Vec<char> = Vec::new();
    let n = word.len();
    let mut i: usize = 0;
    while i < n
        invariant
            i <= n,
            n == word@.len(),
            r@ == lower_word(word@.take(i as int)),
        decreases n - i,
    {
        let mut lc = outside::char_lowercase(word[i]);
        r.append(&mut lc);
        proof {
            lemma_lower_word_snoc(word@, i as int);
        }
        i += 1;
    }
    proof {
        assert(word@.take(n as int) =~= word@);
    }
    r
}

/// The reverse-order table lookup: the matching entry of highest index.
fn lookup(table: &Vec<Mapping>, chars: &Vec<char>, pos: usize) -> (r: Option<usize>)
    requires
        pos <= chars@.len(),
    ensures
        match r {
            Some(j) => j < table@.len() && spec_lookup(table_view(table@), chars@, pos as int)
                == Some(j as int),
            None => spec_lookup(table_view(table@), chars@, pos as int) is None,
        },
{
    let ghost tv = table_view(table@);
    let mut j = table.len();
    while j > 0
        invariant
            j <= table@.len(),
            pos <= chars@.len(),
            tv == table_view(table@),
            rev_lookup(tv, chars@, pos as int, tv.len() - 1) == rev_lookup(
                tv,
                chars@,
                pos as int,
                j as int - 1,
            ),
        decreases j,
    {
        j -= 1;
        if starts_with_at(&table[j].src, chars, pos) {
            proof {
                assert(tv[j as int].0 == table@[j as int].src@);
                assert(rev_lookup(tv, chars@, pos as int, j as int) == Some(j as int));
            }
            return Some(j);
        }
        proof {
            assert(tv[j as int].0 == table@[j as int].src@);
            assert(rev_lookup(tv, chars@, pos as int, j as int) == rev_lookup(
                tv,
                chars@,
                pos as int,
                j as int - 1,
            ));
        }
    }
    None
}

impl Transliterate {
    /// The direction this engine was constructed with.
    pub closed spec fn dir(&self) -> Direction {
        self.direction
    }

    /// Creates an engine for the given direction.
    pub fn new(direction: Direction) -> (r: Self)
        ensures
            r.dir() == direction,
    {
        Transliterate { direction }
    }

    /// Appends the UTF-8 encoding of the characters to the output buffer and
    /// returns how many bytes were written.
    pub fn chars_to_utf8(input: &Vec<char>, output: &mut Vec<u8>) -> (n: usize)
        ensures
            final(output)@ == old(output)@ + encode_utf8(input@),
            n == encode_utf8(input@).len(),
    {
        let start = output.len();
        let ghost orig = output@;
        let len = input.len();
        for i in 0..len
            invariant
                len == input@.len(),
                start == orig.len(),
                output@ == orig + encode_utf8(input@.take(i as int)),
        {
            push_char_utf8(input[i], output);
            proof {
                lemma_encode_utf8_snoc(input@, i as int);
            }
        }
        proof {
            assert(input@.take(len as int) =~= input@);
        }
        output.len() - start
    }

    /// The digraph disambiguator: when the matched source symbol sequence is
    /// listed as an ambiguous alternative and one of its group's lowercase
    /// markers occurs, byte-level, in the lowercased word, that alternative's
    /// override rendering is returned.
    pub fn digraph_exception(word: &Vec<char>, character: &Vec<char>) -> (r: Option<Vec<char>>)
        ensures
            match r {
                Some(v) => spec_exception(word@, character@) == Some(v@),
                None => spec_exception(word@, character@) is None,
            },
    {
        let groups = charmaps::build_exceptions();
        let ghost gv = charmaps::exception_groups();
        let glen = groups.len();
        let mut gi: usize = 0;
        while gi < glen
            invariant
                gi <= glen,
                glen == groups@.len(),
                groups_view(groups@) == gv,
                gv == charmaps::exception_groups(),
                spec_exception(word@, character@) == exception_from(
                    gv,
                    word@,
                    character@,
                    gi as int,
                ),
            decreases glen - gi,
        {
            proof {
                assert(charmaps::group_view(groups@[gi as int]) == gv[gi as int]);
            }
            match find_alt_exec(&groups[gi].alts, character) {
                Some(ai) => {
                    let lower = lower_chars(word);
                    let mut hay: Vec<u8> = Vec::new();
                    Self::chars_to_utf8(&lower, &mut hay);
                    let mlen = groups[gi].markers.len();
                    let mut mi: usize = 0;
                    while mi < mlen
                        invariant
                            mi <= mlen,
                            gi < glen,
                            glen == groups@.len(),
                            mlen == groups@[gi as int].markers@.len(),
                            groups_view(groups@) == gv,
                            gv == charmaps::exception_groups(),
                            hay@ == encode_utf8(lower_word(word@)),
                            ai < groups@[gi as int].alts@.len(),
                            find_alt_from(gv[gi as int].0, character@, 0) == Some(ai as int),
                            spec_exception(word@, character@) == exception_from(
                                gv,
                                word@,
                                character@,
                                gi as int,
                            ),
                            forall|k: int|
                                0 <= k < mi ==> !contains_bytes(
                                    encode_utf8(lower_word(word@)),
                                    encode_utf8(#[trigger] gv[gi as int].1[k]),
                                ),
                        decreases mlen - mi,
                    {
                        proof {
                            assert(charmaps::group_view(groups@[gi as int]) == gv[gi as int]);
                            assert(gv[gi as int].1[mi as int] == groups@[gi as int].markers@[mi as int]@);
                        }
                        let mut nb: Vec<u8> = Vec::new();
                        Self::chars_to_utf8(&groups[gi].markers[mi], &mut nb);
                        proof {
                            charmaps::lemma_markers_wf();
                            lemma_encode_utf8_nonempty(gv[gi as int].1[mi as int]);
                        }
                        if outside::find_sub(&hay, &nb).is_some() {
                            let res = clone_chars(&groups[gi].alts[ai].dst);
                            proof {
                                assert(marker_hit(gv[gi as int].1, word@));
                                assert(gv[gi as int].0[ai as int].1 == groups@[gi as int].alts@[ai as int].dst@);
                                assert(exception_from(gv, word@, character@, gi as int) == Some(
                                    gv[gi as int].0[ai as int].1,
                                ));
                            }
                            return Some(res);
                        }
                        mi += 1;
                    }
                    proof {
                        assert(!marker_hit(gv[gi as int].1, word@));
                    }
                },
                None => {},
            }
            gi += 1;
        }
        None
    }

    /// Transliterates one word, given as its character sequence, into the
    /// UTF-8 bytes of its output.
    fn word_bytes(&self, chars: &Vec<char>) -> (out: Vec<u8>)
        ensures
            out@ == encode_utf8(spec_process_word(self.dir(), chars@)),
    {
        let table = match &self.direction {
            Direction::LatinToCyrillic => charmaps::build_latin_to_cyrillic(),
            Direction::CyrillicToLatin => charmaps::build_cyrillic_to_latin(),
        };
        let is_lat = match &self.direction {
            Direction::LatinToCyrillic => true,
            Direction::CyrillicToLatin => false,
        };
        let ghost dir = self.dir();
        let ghost tv = table_for(dir);
        proof {
            charmaps::lemma_tables_wf();
        }
        let mut out: Vec<u8> = Vec::new();
        let ghost mut done: Seq<char> = Seq::<char>::empty();
        let clen = chars.len();
        let mut cursor: usize = 0;
        proof {
            assert(out@ =~= encode_utf8(done));
            assert(done + scan_from(dir, chars@, 0) =~= scan_from(dir, chars@, 0));
        }
        while cursor < clen
            invariant
                cursor <= clen,
                clen == chars@.len(),
                dir == self.dir(),
                tv == table_for(dir),
                table_view(table@) == tv,
                is_lat == (dir is LatinToCyrillic),
                charmaps::sources_nonempty(tv),
                out@ == encode_utf8(done),
                done + scan_from(dir, chars@, cursor as int) == scan_from(dir, chars@, 0),
            decreases clen - cursor,
        {
            match lookup(&table, chars, cursor) {
                Some(j) => {
                    let src_len = table[j].src.len();
                    proof {
                        lemma_rev_lookup_matches(tv, chars@, cursor as int, tv.len() - 1);
                        assert(tv[j as int].0 == table@[j as int].src@);
                        assert(tv[j as int].1 == table@[j as int].dst@);
                        assert(1 <= src_len && cursor + src_len <= clen);
                        assert(advance_of(tv[j as int].0.len() as int) == src_len as int);
                    }
                    let mut took_exception = false;
                    if is_lat {
                        match Self::digraph_exception(chars, &table[j].src) {
                            Some(o) => {
                                Self::chars_to_utf8(&o, &mut out);
                                took_exception = true;
                                proof {
                                    lemma_encode_utf8_concat(done, o@);
                                    assert(scan_from(dir, chars@, cursor as int) == o@ + scan_from(
                                        dir,
                                        chars@,
                                        cursor + src_len as int,
                                    ));
                                    done = done + o@;
                                    assert(done + scan_from(dir, chars@, cursor + src_len as int)
                                        =~= scan_from(dir, chars@, 0));
                                }
                            },
                            None => {},
                        }
                    }
                    if !took_exception {
                        Self::chars_to_utf8(&table[j].dst, &mut out);
                        proof {
                            let dst = tv[j as int].1;
                            lemma_encode_utf8_concat(done, dst);
                            assert(scan_from(dir, chars@, cursor as int) == dst + scan_from(
                                dir,
                                chars@,
                                cursor + src_len as int,
                            ));
                            done = done + dst;
                            assert(done + scan_from(dir, chars@, cursor + src_len as int)
                                =~= scan_from(dir, chars@, 0));
                        }
                    }
                    cursor += src_len;
                },
                None => {
                    let mut single: Vec<char> = Vec::new();
                    single.push(chars[cursor]);
                    Self::chars_to_utf8(&single, &mut out);
                    proof {
                        assert(single@ =~= seq![chars@[cursor as int]]);
                        lemma_encode_utf8_concat(done, single@);
                        assert(scan_from(dir, chars@, cursor as int) == seq![
                            chars@[cursor as int],
                        ] + scan_from(dir, chars@, cursor + 1));
                        done = done + seq![chars@[cursor as int]];
                        assert(done + scan_from(dir, chars@, cursor + 1) =~= scan_from(
                            dir,
                            chars@,
                            0,
                        ));
                    }
                    cursor += 1;
                },
            }
        }
        proof {
            assert(scan_from(dir, chars@, clen as int) == Seq::<char>::empty());
            assert(done =~= scan_from(dir, chars@, 0));
        }
        out
    }

    /// Transliterates one whitespace-free word.
    pub fn process_word(&self, word: &str) -> (r: Result<String, Error>)
        ensures
            r matches Ok(s) && s@ == spec_process_word(self.dir(), word@),
    {
        let chars = outside::str_chars(word);
        let bytes = self.word_bytes(&chars);
        proof {
            vstd::utf8::encode_utf8_valid_utf8(spec_process_word(self.dir(), word@));
            vstd::utf8::encode_utf8_decode_utf8(spec_process_word(self.dir(), word@));
        }
        let s = outside::string_from_utf8(bytes);
        Ok(s)
    }

    /// Transliterates a whole input: each whitespace-delimited word is
    /// transliterated independently and the results are rejoined with single
    /// spaces, so whitespace runs collapse and leading and trailing
    /// whitespace disappears.
    pub fn process(&self, input: &str) -> (r: Result<String, Error>)
        ensures
            r matches Ok(s) && s@ == spec_process(self.dir(), input@),
    {
        let ghost dir = self.dir();
        let chars = outside::str_chars(input);
        let clen = chars.len();
        let mut out: Vec<u8> = Vec::new();
        let mut first = true;
        let ghost mut wdone: Seq<Seq<char>> = Seq::<Seq<char>>::empty();
        let mut i: usize = 0;
        proof {
            assert(wdone + split_ws(chars@.skip(0)) =~= split_ws(chars@.skip(0)));
            assert(chars@.skip(0) =~= chars@);
            assert(map_words(dir, wdone) =~= Seq::<Seq<char>>::empty());
            assert(out@ =~= encode_utf8(join_sp(map_words(dir, wdone))));
        }
        while i < clen
            invariant
                i <= clen,
                clen == chars@.len(),
                dir == self.dir(),
                split_ws(chars@) == wdone + split_ws(chars@.skip(i as int)),
                out@ == encode_utf8(join_sp(map_words(dir, wdone))),
                first <==> wdone.len() == 0,
            decreases clen - i,
        {
            if outside::char_is_space(chars[i]) {
                proof {
                    lemma_split_skip_space(chars@, i as int);
                }
                i += 1;
            } else {
                let e = word_end(&chars, i);
                let mut w: Vec<char> = Vec::new();
                let mut k = i;
                while k < e
                    invariant
                        i <= k <= e <= clen,
                        clen == chars@.len(),
                        w@ == chars@.subrange(i as int, k as int),
                    decreases e - k,
                {
                    w.push(chars[k]);
                    proof {
                        assert(chars@.subrange(i as int, k as int + 1) =~= chars@.subrange(
                            i as int,
                            k as int,
                        ).push(chars@[k as int]));
                    }
                    k += 1;
                }
                let mut wb = self.word_bytes(&w);
                if !first {
                    out.push(0x20);
                }
                out.append(&mut wb);
                proof {
                    lemma_split_take_word(chars@, i as int, e as int);
                    let word = chars@.subrange(i as int, e as int);
                    let pw = spec_process_word(dir, word);
                    let mapped = map_words(dir, wdone);
                    lemma_join_sp_push(mapped, pw);
                    assert(map_words(dir, wdone.push(word)) =~= mapped.push(pw));
                    if wdone.len() == 0 {
                        assert(join_sp(mapped) == Seq::<char>::empty());
                        assert(join_sp(mapped.push(pw)) == pw);
                        assert(out@ =~= encode_utf8(join_sp(mapped.push(pw))));
                    } else {
                        lemma_encode_utf8_concat(join_sp(mapped), seq![' '] + pw);
                        lemma_encode_utf8_concat(seq![' '], pw);
                        lemma_encode_utf8_single(' ');
                        assert((' ' as u32) == 0x20);
                        assert(((0x20u32 & 0x7F) as u8) == 0x20u8) by (bit_vector);
                        assert(encode_scalar(' ' as u32) =~= seq![0x20u8]);
                        assert(join_sp(mapped.push(pw)) == join_sp(mapped) + (seq![' '] + pw));
                        assert(out@ =~= encode_utf8(join_sp(mapped.push(pw))));
                    }
                    wdone = wdone.push(word);
                    assert(split_ws(chars@) =~= wdone + split_ws(chars@.skip(e as int)));
                }
                first = false;
                i = e;
            }
        }
        proof {
            assert(chars@.skip(clen as int) =~= Seq::<char>::empty());
            assert(split_ws(Seq::<char>::empty()) == Seq::<Seq<char>>::empty());
            assert(wdone =~= split_ws(chars@));
            vstd::utf8::encode_utf8_valid_utf8(join_sp(map_words(dir, split_ws(chars@))));
            vstd::utf8::encode_utf8_decode_utf8(join_sp(map_words(dir, split_ws(chars@))));
        }
        let s = outside::string_from_utf8(out);
        Ok(s)
    }
}

impl Default for Transliterate {
    /// The default engine transliterates from the Latin to the Cyrillic
    /// alphabet.
    fn default() -> (r: Self)
        ensures
            r.dir() is LatinToCyrillic,
    {
        Transliterate { direction: Direction::LatinToCyrillic }
    }
}

/// The end of the whitespace-free run that starts at `start`.
fn word_end(chars: &Vec<char>, start: usize) -> (e: usize)
    requires
        start < chars@.len(),
        !is_space(chars@[start as int]),
    ensures
        start < e <= chars@.len(),
        forall|k: int| start <= k < e ==> !is_space(chars@[k]),
        e < chars@.len() ==> is_space(chars@[e as int]),
{
    let n = chars.len();
    let mut e = start;
    while e < n
        invariant
            start <= e <= n,
            n == chars@.len(),
            !is_space(chars@[start as int]),
            forall|k: int| start <= k < e ==> !is_space(chars@[k]),
        decreases n - e,
    {
        if outside::char_is_space(chars[e]) {
            return e;
        }
        e += 1;
    }
    e
}

/// Skipping a whitespace character does not change the word list.
pub proof fn lemma_split_skip_space(s: Seq<char>, i: int)
    requires
        0 <= i < s.len(),
        is_space(s[i]),
    ensures
        split_ws(s.skip(i)) == split_ws(s.skip(i + 1)),
{
    assert(s.skip(i)[0] == s[i]);
    assert(s.skip(i).drop_first() =~= s.skip(i + 1));
}

/// A maximal whitespace-free run is the first word of the remaining input.
pub proof fn lemma_split_take_word(s: Seq<char>, i: int, e: int)
    requires
        0 <= i < e <= s.len(),
        forall|k: int| i <= k < e ==> !is_space(s[k]),
        e == s.len() || is_space(s[e]),
    ensures
        split_ws(s.skip(i)) == seq![s.subrange(i, e)] + split_ws(s.skip(e)),
    decreases e - i,
{
    let t = s.skip(i);
    assert(t[0] == s[i]);
    assert(t.drop_first() =~= s.skip(i + 1));
    if i + 1 == e {
        if e < s.len() {
            assert(t[1] == s[e]);
        }
        assert(!(t.len() > 1 && !is_space(t[1])));
        assert(seq![t[0]] =~= s.subrange(i, e));
        assert(split_ws(t) =~= seq![s.subrange(i, e)] + split_ws(s.skip(e)));
    } else {
        lemma_split_take_word(s, i + 1, e);
        let rest = split_ws(s.skip(i + 1));
        assert(rest == seq![s.subrange(i + 1, e)] + split_ws(s.skip(e)));
        assert(rest.len() > 0);
        assert(rest[0] == s.subrange(i + 1, e));
        assert(t.len() > 1 && t[1] == s[i + 1]);
        assert(!is_space(t[1]));
        assert(split_ws(t) == seq![seq![t[0]] + rest[0]] + rest.drop_first());
        assert(seq![t[0]] + rest[0] =~= s.subrange(i, e));
        assert(rest.drop_first() =~= split_ws(s.skip(e)));
        assert(split_ws(t) =~= seq![s.subrange(i, e)] + split_ws(s.skip(e)));
    }
}

/// Joining one more word appends a single separating space.
pub proof fn lemma_join_sp_push(ws: Seq<Seq<char>>, w: Seq<char>)
    ensures
        join_sp(ws.push(w)) == if ws.len() == 0 {
            w
        } else {
            join_sp(ws) + seq![' '] + w
        },
    decreases ws.len(),
{
    let p = ws.push(w);
    if ws.len() == 0 {
        assert(p[0] == w);
    } else if ws.len() == 1 {
        assert(p.drop_first() =~= seq![w]);
        assert(join_sp(seq![w]) == w);
        assert(join_sp(p) == p[0] + seq![' '] + join_sp(p.drop_first()));
        assert(join_sp(ws) == ws[0]);
        assert(join_sp(p) =~= join_sp(ws) + seq![' '] + w);
    } else {
        lemma_join_sp_push(ws.drop_first(), w);
        assert(p.drop_first() =~= ws.drop_first().push(w));
        assert(join_sp(p) == p[0] + seq![' '] + join_sp(p.drop_first()));
        assert(join_sp(ws) == ws[0] + seq![' '] + join_sp(ws.drop_first()));
        assert(join_sp(p) =~= join_sp(ws) + seq![' '] + w);
    }
}

} // verus!
