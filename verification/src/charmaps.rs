//! The static mapping data: ordered source/target symbol-sequence pairs for
//! both directions, and the digraph exception dictionary.
//!
//! Entries are registered shortest first; the scanner walks them in reverse
//! registration order, so the multi-character digraphs at the end of the
//! Latin table take precedence over their single-letter prefixes.

use vstd::prelude::*;

verus! {

use crate::outside::is_space;
use crate::outside::str_chars;

/// One table entry: a source symbol sequence and the target symbol sequence
/// it maps to.
pub struct Mapping {
    pub src: Vec<char>,
    pub dst: Vec<char>,
}

impl View for Mapping {
    type V = (Seq<char>, Seq<char>);

    open spec fn view(&self) -> (Seq<char>, Seq<char>) {
        (self.src@, self.dst@)
    }
}

/// A group of mutually ambiguous digraph alternatives, each paired with its
/// override rendering, together with the lowercase marker substrings whose
/// presence in a word selects the override.
pub struct ExceptionGroup {
    pub alts: Vec<Mapping>,
    pub markers: Vec<Vec<char>>,
}

pub open spec fn table_view(t: Seq<Mapping>) -> Seq<(Seq<char>, Seq<char>)> {
    Seq::new(t.len(), |i: int| t[i]@)
}

pub open spec fn markers_view(m: Seq<Vec<char>>) -> Seq<Seq<char>> {
    Seq::new(m.len(), |i: int| m[i]@)
}

pub open spec fn group_view(g: ExceptionGroup) -> (Seq<(Seq<char>, Seq<char>)>, Seq<Seq<char>>) {
    (table_view(g.alts@), markers_view(g.markers@))
}

pub open spec fn groups_view(gs: Seq<ExceptionGroup>) -> Seq<
    (Seq<(Seq<char>, Seq<char>)>, Seq<Seq<char>>),
> {
    Seq::new(gs.len(), |i: int| group_view(gs[i]))
}

// ---------------------------------------------------------------------------
// Latin (with denormalized variants) to Cyrillic
// ---------------------------------------------------------------------------

pub open spec fn lat_upper_a() -> Seq<(Seq<char>, Seq<char>)> {
    seq![
        (seq!['A'], seq!['А']),
        (seq!['B'], seq!['Б']),
        (seq!['V'], seq!['В']),
        (seq!['G'], seq!['Г']),
        (seq!['D'], seq!['Д']),
        (seq!['Đ'], seq!['Ђ']),
        (seq!['Ð'], seq!['Ђ']),
        (seq!['E'], seq!['Е']),
        (seq!['Ž'], seq!['Ж']),
        (seq!['Z'], seq!['З']),
        (seq!['I'], seq!['И']),
        (seq!['J'], seq!['Ј']),
        (seq!['K'], seq!['К']),
        (seq!['L'], seq!['Л']),
        (seq!['Ǉ'], seq!['Љ']),
        (seq!['ǈ'], seq!['Љ']),
        (seq!['M'], seq!['М']),
    ]
}

pub open spec fn lat_upper_b() -> Seq<(Seq<char>, Seq<char>)> {
    seq![
        (seq!['N'], seq!['Н']),
        (seq!['Ǌ'], seq!['Њ']),
        (seq!['ǋ'], seq!['Њ']),
        (seq!['O'], seq!['О']),
        (seq!['P'], seq!['П']),
        (seq!['R'], seq!['Р']),
        (seq!['S'], seq!['С']),
        (seq!['T'], seq!['Т']),
        (seq!['Ć'], seq!['Ћ']),
        (seq!['U'], seq!['У']),
        (seq!['F'], seq!['Ф']),
        (seq!['H'], seq!['Х']),
        (seq!['C'], seq!['Ц']),
        (seq!['Č'], seq!['Ч']),
        (seq!['Ǆ'], seq!['Џ']),
        (seq!['ǅ'], seq!['Џ']),
        (seq!['Š'], seq!['Ш']),
    ]
}

pub open spec fn lat_lower_a() -> Seq<(Seq<char>, Seq<char>)> {
    seq![
        (seq!['a'], seq!['а']),
        (seq!['æ'], seq!['а', 'е']),
        (seq!['b'], seq!['б']),
        (seq!['v'], seq!['в']),
        (seq!['g'], seq!['г']),
        (seq!['d'], seq!['д']),
        (seq!['đ'], seq!['ђ']),
        (seq!['e'], seq!['е']),
        (seq!['ž'], seq!['ж']),
        (seq!['z'], seq!['з']),
        (seq!['i'], seq!['и']),
        (seq!['ĳ'], seq!['и', 'ј']),
        (seq!['j'], seq!['ј']),
        (seq!['k'], seq!['к']),
        (seq!['l'], seq!['л']),
        (seq!['ǉ'], seq!['љ']),
        (seq!['m'], seq!['м']),
        (seq!['n'], seq!['н']),
    ]
}

pub open spec fn lat_lower_b() -> Seq<(Seq<char>, Seq<char>)> {
    seq![
        (seq!['ǌ'], seq!['њ']),
        (seq!['o'], seq!['о']),
        (seq!['œ'], seq!['о', 'е']),
        (seq!['p'], seq!['п']),
        (seq!['r'], seq!['р']),
        (seq!['s'], seq!['с']),
        (seq!['ﬆ'], seq!['с', 'т']),
        (seq!['t'], seq!['т']),
        (seq!['ć'], seq!['ћ']),
        (seq!['u'], seq!['у']),
        (seq!['f'], seq!['ф']),
        (seq!['ﬁ'], seq!['ф', 'и']),
        (seq!['ﬂ'], seq!['ф', 'л']),
        (seq!['h'], seq!['х']),
        (seq!['c'], seq!['ц']),
        (seq!['č'], seq!['ч']),
        (seq!['ǆ'], seq!['џ']),
        (seq!['š'], seq!['ш']),
    ]
}

pub open spec fn lat_digraphs() -> Seq<(Seq<char>, Seq<char>)> {
    seq![
        (seq!['D', 'J'], seq!['Ђ']),
        (seq!['D', 'j'], seq!['Ђ']),
        (seq!['d', 'j'], seq!['ђ']),
        (seq!['L', 'J'], seq!['Љ']),
        (seq!['L', 'j'], seq!['Љ']),
        (seq!['l', 'j'], seq!['љ']),
        (seq!['N', 'J'], seq!['Њ']),
        (seq!['N', 'j'], seq!['Њ']),
        (seq!['n', 'j'], seq!['њ']),
        (seq!['D', 'Ž'], seq!['Џ']),
        (seq!['D', 'ž'], seq!['Џ']),
        (seq!['d', 'ž'], seq!['џ']),
    ]
}

/// The ordered source/target table for the Latin-to-Cyrillic direction,
/// denormalized variants included.
pub open spec fn latin_to_cyrillic() -> Seq<(Seq<char>, Seq<char>)> {
    lat_upper_a() + lat_upper_b() + lat_lower_a() + lat_lower_b() + lat_digraphs()
}

// ---------------------------------------------------------------------------
// Cyrillic to Latin (canonical entries only)
// ---------------------------------------------------------------------------

pub open spec fn cyr_upper_a() -> Seq<(Seq<char>, Seq<char>)> {
    seq![
        (seq!['А'], seq!['A']),
        (seq!['Б'], seq!['B']),
        (seq!['В'], seq!['V']),
        (seq!['Г'], seq!['G']),
        (seq!['Д'], seq!['D']),
        (seq!['Ђ'], seq!['Đ']),
        (seq!['Е'], seq!['E']),
        (seq!['Ж'], seq!['Ž']),
        (seq!['З'], seq!['Z']),
        (seq!['И'], seq!['I']),
        (seq!['Ј'], seq!['J']),
        (seq!['К'], seq!['K']),
        (seq!['Л'], seq!['L']),
        (seq!['Љ'], seq!['L', 'j']),
        (seq!['М'], seq!['M']),
    ]
}

pub open spec fn cyr_upper_b() -> Seq<(Seq<char>, Seq<char>)> {
    seq![
        (seq!['Н'], seq!['N']),
        (seq!['Њ'], seq!['N', 'j']),
        (seq!['О'], seq!['O']),
        (seq!['П'], seq!['P']),
        (seq!['Р'], seq!['R']),
        (seq!['С'], seq!['S']),
        (seq!['Т'], seq!['T']),
        (seq!['Ћ'], seq!['Ć']),
        (seq!['У'], seq!['U']),
        (seq!['Ф'], seq!['F']),
        (seq!['Х'], seq!['H']),
        (seq!['Ц'], seq!['C']),
        (seq!['Ч'], seq!['Č']),
        (seq!['Џ'], seq!['D', 'ž']),
        (seq!['Ш'], seq!['Š']),
    ]
}

pub open spec fn cyr_lower_a() -> Seq<(Seq<char>, Seq<char>)> {
    seq![
        (seq!['а'], seq!['a']),
        (seq!['б'], seq!['b']),
        (seq!['в'], seq!['v']),
        (seq!['г'], seq!['g']),
        (seq!['д'], seq!['d']),
        (seq!['ђ'], seq!['đ']),
        (seq!['е'], seq!['e']),
        (seq!['ж'], seq!['ž']),
        (seq!['з'], seq!['z']),
        (seq!['и'], seq!['i']),
        (seq!['ј'], seq!['j']),
        (seq!['к'], seq!['k']),
        (seq!['л'], seq!['l']),
        (seq!['љ'], seq!['l', 'j']),
        (seq!['м'], seq!['m']),
    ]
}

pub open spec fn cyr_lower_b() -> Seq<(Seq<char>, Seq<char>)> {
    seq![
        (seq!['н'], seq!['n']),
        (seq!['њ'], seq!['n', 'j']),
        (seq!['о'], seq!['o']),
        (seq!['п'], seq!['p']),
        (seq!['р'], seq!['r']),
        (seq!['с'], seq!['s']),
        (seq!['т'], seq!['t']),
        (seq!['ћ'], seq!['ć']),
        (seq!['у'], seq!['u']),
        (seq!['ф'], seq!['f']),
        (seq!['х'], seq!['h']),
        (seq!['ц'], seq!['c']),
        (seq!['ч'], seq!['č']),
        (seq!['џ'], seq!['d', 'ž']),
        (seq!['ш'], seq!['š']),
    ]
}

/// The ordered source/target table for the Cyrillic-to-Latin direction.
pub open spec fn cyrillic_to_latin() -> Seq<(Seq<char>, Seq<char>)> {
    cyr_upper_a() + cyr_upper_b() + cyr_lower_a() + cyr_lower_b()
}

// ---------------------------------------------------------------------------
// Digraph exception dictionary
// ---------------------------------------------------------------------------

pub open spec fn dj_alts() -> Seq<(Seq<char>, Seq<char>)> {
    seq![
        (seq!['d', 'j'], seq!['д', 'ј']),
        (seq!['D', 'j'], seq!['Д', 'ј']),
        (seq!['D', 'J'], seq!['Д', 'Ј']),
    ]
}

pub open spec fn dj_markers() -> Seq<Seq<char>> {
    seq!["adjektiv"@, "adjunkt"@, "bazdje"@, "bludje"@, "vindjakn"@]
}

pub open spec fn dz_alts() -> Seq<(Seq<char>, Seq<char>)> {
    seq![
        (seq!['d', 'ž'], seq!['д', 'ж']),
        (seq!['D', 'ž'], seq!['Д', 'ж']),
        (seq!['D', 'Ž'], seq!['Д', 'Ж']),
    ]
}

pub open spec fn dz_markers() -> Seq<Seq<char>> {
    seq![
        "feldžandarm"@,
        "nadžanj"@,
        "nadživ"@,
        "odžval"@,
        "odžvać"@,
        "podžanr"@,
        "predželu"@,
        "predživ"@,
    ]
}

pub open spec fn nj_alts() -> Seq<(Seq<char>, Seq<char>)> {
    seq![
        (seq!['n', 'j'], seq!['н', 'ј']),
        (seq!['N', 'j'], seq!['Н', 'ј']),
        (seq!['N', 'J'], seq!['Н', 'Ј']),
    ]
}

pub open spec fn nj_markers() -> Seq<Seq<char>> {
    seq![
        "anjon"@,
        "injekc"@,
        "injunk"@,
        "kenjon"@,
        "konjug"@,
        "konjunk"@,
        "tanjug"@,
        "vanjezičk"@,
    ]
}

/// The exception dictionary, in priority order: the first group whose marker
/// is found in a word governs.
pub open spec fn exception_groups() -> Seq<(Seq<(Seq<char>, Seq<char>)>, Seq<Seq<char>>)> {
    seq![(dj_alts(), dj_markers()), (dz_alts(), dz_markers()), (nj_alts(), nj_markers())]
}

// ---------------------------------------------------------------------------
// Executable construction of the tables
// ---------------------------------------------------------------------------

fn p11(t: &mut Vec<Mapping>, s: char, d: char)
    ensures
        table_view(final(t)@) == table_view(old(t)@).push((seq![s], seq![d])),
{
    let mut src: Vec<char> = Vec::new();
    src.push(s);
    let mut dst: Vec<char> = Vec::new();
    dst.push(d);
    t.push(Mapping { src, dst });
    proof {
        assert(table_view(t@) =~~= table_view(old(t)@).push((seq![s], seq![d])));
    }
}

fn p12(t: &mut Vec<Mapping>, s: char, d1: char, d2: char)
    ensures
        table_view(final(t)@) == table_view(old(t)@).push((seq![s], seq![d1, d2])),
{
    let mut src: Vec<char> = Vec::new();
    src.push(s);
    let mut dst: Vec<char> = Vec::new();
    dst.push(d1);
    dst.push(d2);
    t.push(Mapping { src, dst });
    proof {
        assert(table_view(t@) =~~= table_view(old(t)@).push((seq![s], seq![d1, d2])));
    }
}

fn p21(t: &mut Vec<Mapping>, s1: char, s2: char, d: char)
    ensures
        table_view(final(t)@) == table_view(old(t)@).push((seq![s1, s2], seq![d])),
{
    let mut src: Vec<char> = Vec::new();
    src.push(s1);
    src.push(s2);
    let mut dst: Vec<char> = Vec::new();
    dst.push(d);
    t.push(Mapping { src, dst });
    proof {
        assert(table_view(t@) =~~= table_view(old(t)@).push((seq![s1, s2], seq![d])));
    }
}

fn p22(t: &mut Vec<Mapping>, s1: char, s2: char, d1: char, d2: char)
    ensures
        table_view(final(t)@) == table_view(old(t)@).push((seq![s1, s2], seq![d1, d2])),
{
    let mut src: Vec<char> = Vec::new();
    src.push(s1);
    src.push(s2);
    let mut dst: Vec<char> = Vec::new();
    dst.push(d1);
    dst.push(d2);
    t.push(Mapping { src, dst });
    proof {
        assert(table_view(t@) =~~= table_view(old(t)@).push((seq![s1, s2], seq![d1, d2])));
    }
}

#[verifier::rlimit(50)]
fn add_lat_upper_a(t: &mut Vec<Mapping>)
    ensures
        table_view(final(t)@) == table_view(old(t)@) + lat_upper_a(),
{
    p11(t, 'A', 'А');
    p11(t, 'B', 'Б');
    p11(t, 'V', 'В');
    p11(t, 'G', 'Г');
    p11(t, 'D', 'Д');
    p11(t, 'Đ', 'Ђ');
    p11(t, 'Ð', 'Ђ');
    p11(t, 'E', 'Е');
    p11(t, 'Ž', 'Ж');
    p11(t, 'Z', 'З');
    p11(t, 'I', 'И');
    p11(t, 'J', 'Ј');
    p11(t, 'K', 'К');
    p11(t, 'L', 'Л');
    p11(t, 'Ǉ', 'Љ');
    p11(t, 'ǈ', 'Љ');
    p11(t, 'M', 'М');
    proof {
        assert(table_view(t@) =~~= table_view(old(t)@) + lat_upper_a());
    }
}

#[verifier::rlimit(50)]
fn add_lat_upper_b(t: &mut Vec<Mapping>)
    ensures
        table_view(final(t)@) == table_view(old(t)@) + lat_upper_b(),
{
    p11(t, 'N', 'Н');
    p11(t, 'Ǌ', 'Њ');
    p11(t, 'ǋ', 'Њ');
    p11(t, 'O', 'О');
    p11(t, 'P', 'П');
    p11(t, 'R', 'Р');
    p11(t, 'S', 'С');
    p11(t, 'T', 'Т');
    p11(t, 'Ć', 'Ћ');
    p11(t, 'U', 'У');
    p11(t, 'F', 'Ф');
    p11(t, 'H', 'Х');
    p11(t, 'C', 'Ц');
    p11(t, 'Č', 'Ч');
    p11(t, 'Ǆ', 'Џ');
    p11(t, 'ǅ', 'Џ');
    p11(t, 'Š', 'Ш');
    proof {
        assert(table_view(t@) =~~= table_view(old(t)@) + lat_upper_b());
    }
}

#[verifier::rlimit(50)]
fn add_lat_lower_a(t: &mut Vec<Mapping>)
    ensures
        table_view(final(t)@) == table_view(old(t)@) + lat_lower_a(),
{
    p11(t, 'a', 'а');
    p12(t, 'æ', 'а', 'е');
    p11(t, 'b', 'б');
    p11(t, 'v', 'в');
    p11(t, 'g', 'г');
    p11(t, 'd', 'д');
    p11(t, 'đ', 'ђ');
    p11(t, 'e', 'е');
    p11(t, 'ž', 'ж');
    p11(t, 'z', 'з');
    p11(t, 'i', 'и');
    p12(t, 'ĳ', 'и', 'ј');
    p11(t, 'j', 'ј');
    p11(t, 'k', 'к');
    p11(t, 'l', 'л');
    p11(t, 'ǉ', 'љ');
    p11(t, 'm', 'м');
    p11(t, 'n', 'н');
    proof {
        assert(table_view(t@) =~~= table_view(old(t)@) + lat_lower_a());
    }
}

#[verifier::rlimit(50)]
fn add_lat_lower_b(t: &mut Vec<Mapping>)
    ensures
        table_view(final(t)@) == table_view(old(t)@) + lat_lower_b(),
{
    p11(t, 'ǌ', 'њ');
    p11(t, 'o', 'о');
    p12(t, 'œ', 'о', 'е');
    p11(t, 'p', 'п');
    p11(t, 'r', 'р');
    p11(t, 's', 'с');
    p12(t, 'ﬆ', 'с', 'т');
    p11(t, 't', 'т');
    p11(t, 'ć', 'ћ');
    p11(t, 'u', 'у');
    p11(t, 'f', 'ф');
    p12(t, 'ﬁ', 'ф', 'и');
    p12(t, 'ﬂ', 'ф', 'л');
    p11(t, 'h', 'х');
    p11(t, 'c', 'ц');
    p11(t, 'č', 'ч');
    p11(t, 'ǆ', 'џ');
    p11(t, 'š', 'ш');
    proof {
        assert(table_view(t@) =~~= table_view(old(t)@) + lat_lower_b());
    }
}

#[verifier::rlimit(50)]
fn add_lat_digraphs(t: &mut Vec<Mapping>)
    ensures
        table_view(final(t)@) == table_view(old(t)@) + lat_digraphs(),
{
    p21(t, 'D', 'J', 'Ђ');
    p21(t, 'D', 'j', 'Ђ');
    p21(t, 'd', 'j', 'ђ');
    p21(t, 'L', 'J', 'Љ');
    p21(t, 'L', 'j', 'Љ');
    p21(t, 'l', 'j', 'љ');
    p21(t, 'N', 'J', 'Њ');
    p21(t, 'N', 'j', 'Њ');
    p21(t, 'n', 'j', 'њ');
    p21(t, 'D', 'Ž', 'Џ');
    p21(t, 'D', 'ž', 'Џ');
    p21(t, 'd', 'ž', 'џ');
    proof {
        assert(table_view(t@) =~~= table_view(old(t)@) + lat_digraphs());
    }
}

#[verifier::rlimit(50)]
fn add_cyr_upper_a(t: &mut Vec<Mapping>)
    ensures
        table_view(final(t)@) == table_view(old(t)@) + cyr_upper_a(),
{
    p11(t, 'А', 'A');
    p11(t, 'Б', 'B');
    p11(t, 'В', 'V');
    p11(t, 'Г', 'G');
    p11(t, 'Д', 'D');
    p11(t, 'Ђ', 'Đ');
    p11(t, 'Е', 'E');
    p11(t, 'Ж', 'Ž');
    p11(t, 'З', 'Z');
    p11(t, 'И', 'I');
    p11(t, 'Ј', 'J');
    p11(t, 'К', 'K');
    p11(t, 'Л', 'L');
    p12(t, 'Љ', 'L', 'j');
    p11(t, 'М', 'M');
    proof {
        assert(table_view(t@) =~~= table_view(old(t)@) + cyr_upper_a());
    }
}

#[verifier::rlimit(50)]
fn add_cyr_upper_b(t: &mut Vec<Mapping>)
    ensures
        table_view(final(t)@) == table_view(old(t)@) + cyr_upper_b(),
{
    p11(t, 'Н', 'N');
    p12(t, 'Њ', 'N', 'j');
    p11(t, 'О', 'O');
    p11(t, 'П', 'P');
    p11(t, 'Р', 'R');
    p11(t, 'С', 'S');
    p11(t, 'Т', 'T');
    p11(t, 'Ћ', 'Ć');
    p11(t, 'У', 'U');
    p11(t, 'Ф', 'F');
    p11(t, 'Х', 'H');
    p11(t, 'Ц', 'C');
    p11(t, 'Ч', 'Č');
    p12(t, 'Џ', 'D', 'ž');
    p11(t, 'Ш', 'Š');
    proof {
        assert(table_view(t@) =~~= table_view(old(t)@) + cyr_upper_b());
    }
}

#[verifier::rlimit(50)]
fn add_cyr_lower_a(t: &mut Vec<Mapping>)
    ensures
        table_view(final(t)@) == table_view(old(t)@) + cyr_lower_a(),
{
    p11(t, 'а', 'a');
    p11(t, 'б', 'b');
    p11(t, 'в', 'v');
    p11(t, 'г', 'g');
    p11(t, 'д', 'd');
    p11(t, 'ђ', 'đ');
    p11(t, 'е', 'e');
    p11(t, 'ж', 'ž');
    p11(t, 'з', 'z');
    p11(t, 'и', 'i');
    p11(t, 'ј', 'j');
    p11(t, 'к', 'k');
    p11(t, 'л', 'l');
    p12(t, 'љ', 'l', 'j');
    p11(t, 'м', 'm');
    proof {
        assert(table_view(t@) =~~= table_view(old(t)@) + cyr_lower_a());
    }
}

#[verifier::rlimit(50)]
fn add_cyr_lower_b(t: &mut Vec<Mapping>)
    ensures
        table_view(final(t)@) == table_view(old(t)@) + cyr_lower_b(),
{
    p11(t, 'н', 'n');
    p12(t, 'њ', 'n', 'j');
    p11(t, 'о', 'o');
    p11(t, 'п', 'p');
    p11(t, 'р', 'r');
    p11(t, 'с', 's');
    p11(t, 'т', 't');
    p11(t, 'ћ', 'ć');
    p11(t, 'у', 'u');
    p11(t, 'ф', 'f');
    p11(t, 'х', 'h');
    p11(t, 'ц', 'c');
    p11(t, 'ч', 'č');
    p12(t, 'џ', 'd', 'ž');
    p11(t, 'ш', 'š');
    proof {
        assert(table_view(t@) =~~= table_view(old(t)@) + cyr_lower_b());
    }
}

/// Builds the Latin-to-Cyrillic table.
pub fn build_latin_to_cyrillic() -> (t: Vec<Mapping>)
    ensures
        table_view(t@) == latin_to_cyrillic(),
{
    let mut t: Vec<Mapping> = Vec::new();
    add_lat_upper_a(&mut t);
    add_lat_upper_b(&mut t);
    add_lat_lower_a(&mut t);
    add_lat_lower_b(&mut t);
    add_lat_digraphs(&mut t);
    proof {
        assert(table_view(t@) =~~= latin_to_cyrillic());
    }
    t
}

/// Builds the Cyrillic-to-Latin table.
pub fn build_cyrillic_to_latin() -> (t: Vec<Mapping>)
    ensures
        table_view(t@) == cyrillic_to_latin(),
{
    let mut t: Vec<Mapping> = Vec::new();
    add_cyr_upper_a(&mut t);
    add_cyr_upper_b(&mut t);
    add_cyr_lower_a(&mut t);
    add_cyr_lower_b(&mut t);
    proof {
        assert(table_view(t@) =~~= cyrillic_to_latin());
    }
    t
}

fn marker(t: &mut Vec<Vec<char>>, s: &str)
    ensures
        markers_view(final(t)@) == markers_view(old(t)@).push(s@),
{
    t.push(str_chars(s));
    proof {
        assert(markers_view(t@) =~~= markers_view(old(t)@).push(s@));
    }
}

/// Builds the digraph exception dictionary.
#[verifier::rlimit(50)]
pub fn build_exceptions() -> (gs: Vec<ExceptionGroup>)
    ensures
        groups_view(gs@) == exception_groups(),
{
    let mut gs: Vec<ExceptionGroup> = Vec::new();

    let mut alts: Vec<Mapping> = Vec::new();
    p22(&mut alts, 'd', 'j', 'д', 'ј');
    p22(&mut alts, 'D', 'j', 'Д', 'ј');
    p22(&mut alts, 'D', 'J', 'Д', 'Ј');
    let mut markers: Vec<Vec<char>> = Vec::new();
    marker(&mut markers, "adjektiv");
    marker(&mut markers, "adjunkt");
    marker(&mut markers, "bazdje");
    marker(&mut markers, "bludje");
    marker(&mut markers, "vindjakn");
    proof {
        assert(table_view(alts@) =~~= dj_alts());
        assert(markers_view(markers@) =~~= dj_markers());
    }
    gs.push(ExceptionGroup { alts, markers });

    let mut alts: Vec<Mapping> = Vec::new();
    p22(&mut alts, 'd', 'ž', 'д', 'ж');
    p22(&mut alts, 'D', 'ž', 'Д', 'ж');
    p22(&mut alts, 'D', 'Ž', 'Д', 'Ж');
    let mut markers: Vec<Vec<char>> = Vec::new();
    marker(&mut markers, "feldžandarm");
    marker(&mut markers, "nadžanj");
    marker(&mut markers, "nadživ");
    marker(&mut markers, "odžval");
    marker(&mut markers, "odžvać");
    marker(&mut markers, "podžanr");
    marker(&mut markers, "predželu");
    marker(&mut markers, "predživ");
    proof {
        assert(table_view(alts@) =~~= dz_alts());
        assert(markers_view(markers@) =~~= dz_markers());
    }
    gs.push(ExceptionGroup { alts, markers });

    let mut alts: Vec<Mapping> = Vec::new();
    p22(&mut alts, 'n', 'j', 'н', 'ј');
    p22(&mut alts, 'N', 'j', 'Н', 'ј');
    p22(&mut alts, 'N', 'J', 'Н', 'Ј');
    let mut markers: Vec<Vec<char>> = Vec::new();
    marker(&mut markers, "anjon");
    marker(&mut markers, "injekc");
    marker(&mut markers, "injunk");
    marker(&mut markers, "kenjon");
    marker(&mut markers, "konjug");
    marker(&mut markers, "konjunk");
    marker(&mut markers, "tanjug");
    marker(&mut markers, "vanjezičk");
    proof {
        assert(table_view(alts@) =~~= nj_alts());
        assert(markers_view(markers@) =~~= nj_markers());
    }
    gs.push(ExceptionGroup { alts, markers });

    proof {
        assert(groups_view(gs@) =~~= exception_groups());
    }
    gs
}

/// Every source symbol sequence in the table is non-empty, so each match
/// consumes at least one input character.
pub open spec fn sources_nonempty(t: Seq<(Seq<char>, Seq<char>)>) -> bool {
    forall|j: int| 0 <= j < t.len() ==> (#[trigger] t[j].0).len() >= 1
}

/// Every marker in the exception dictionary is a non-empty character
/// sequence.
pub open spec fn markers_nonempty(gs: Seq<(Seq<(Seq<char>, Seq<char>)>, Seq<Seq<char>>)>) -> bool {
    forall|g: int, k: int|
        0 <= g < gs.len() && 0 <= k < gs[g].1.len() ==> (#[trigger] gs[g].1[k]).len() >= 1
}

/// The exception dictionary lists only non-empty markers.
pub proof fn lemma_markers_wf()
    ensures
        markers_nonempty(exception_groups()),
{
    reveal_strlit("adjektiv");
    reveal_strlit("adjunkt");
    reveal_strlit("bazdje");
    reveal_strlit("bludje");
    reveal_strlit("vindjakn");
    reveal_strlit("feldžandarm");
    reveal_strlit("nadžanj");
    reveal_strlit("nadživ");
    reveal_strlit("odžval");
    reveal_strlit("odžvać");
    reveal_strlit("podžanr");
    reveal_strlit("predželu");
    reveal_strlit("predživ");
    reveal_strlit("anjon");
    reveal_strlit("injekc");
    reveal_strlit("injunk");
    reveal_strlit("kenjon");
    reveal_strlit("konjug");
    reveal_strlit("konjunk");
    reveal_strlit("tanjug");
    reveal_strlit("vanjezičk");
    assert(markers_nonempty(exception_groups()));
}

/// Both direction tables register only non-empty source symbol sequences.
pub proof fn lemma_tables_wf()
    ensures
        sources_nonempty(latin_to_cyrillic()),
        sources_nonempty(cyrillic_to_latin()),
{
    assert(sources_nonempty(lat_upper_a()));
    assert(sources_nonempty(lat_upper_b()));
    assert(sources_nonempty(lat_lower_a()));
    assert(sources_nonempty(lat_lower_b()));
    assert(sources_nonempty(lat_digraphs()));
    assert(sources_nonempty(cyr_upper_a()));
    assert(sources_nonempty(cyr_upper_b()));
    assert(sources_nonempty(cyr_lower_a()));
    assert(sources_nonempty(cyr_lower_b()));
}

/// Every target symbol sequence in a table is non-empty and carries no
/// whitespace character.
pub open spec fn targets_clean(t: Seq<(Seq<char>, Seq<char>)>) -> bool {
    forall|j: int|
        0 <= j < t.len() ==> (#[trigger] t[j].1).len() >= 1 && (forall|k: int|
            0 <= k < t[j].1.len() ==> !is_space(t[j].1[k]))
}

/// Every override rendering in the exception dictionary is non-empty and
/// carries no whitespace character.
pub open spec fn groups_targets_clean(
    gs: Seq<(Seq<(Seq<char>, Seq<char>)>, Seq<Seq<char>>)>,
) -> bool {
    forall|g: int| 0 <= g < gs.len() ==> targets_clean(#[trigger] gs[g].0)
}

/// Both tables and the exception dictionary emit only non-empty,
/// whitespace-free target sequences.
pub proof fn lemma_targets_wf()
    ensures
        targets_clean(latin_to_cyrillic()),
        targets_clean(cyrillic_to_latin()),
        groups_targets_clean(exception_groups()),
{
    assert(targets_clean(lat_upper_a()));
    assert(targets_clean(lat_upper_b()));
    assert(targets_clean(lat_lower_a()));
    assert(targets_clean(lat_lower_b()));
    assert(targets_clean(lat_digraphs()));
    assert(targets_clean(cyr_upper_a()));
    assert(targets_clean(cyr_upper_b()));
    assert(targets_clean(cyr_lower_a()));
    assert(targets_clean(cyr_lower_b()));
    assert(targets_clean(dj_alts()));
    assert(targets_clean(dz_alts()));
    assert(targets_clean(nj_alts()));
}

} // verus!
