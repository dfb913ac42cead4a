//! Concrete checks of the engine's stated properties: pass-through, empty
//! input, digraph precedence, exception override, denormalized-input
//! normalization, whitespace normalization, word independence, and the
//! clean round trip.

use transliterate::{Direction, Transliterate};

#[test]
fn test_pass_through_both_directions() {
    let digits = "1234567890";
    let lat = Transliterate::new(Direction::LatinToCyrillic);
    assert_eq!(lat.process(digits).unwrap(), digits);
    let cyr = Transliterate::new(Direction::CyrillicToLatin);
    assert_eq!(cyr.process(digits).unwrap(), digits);
    assert_eq!(lat.process("...!?").unwrap(), "...!?");
}

#[test]
fn test_empty_input() {
    let lat = Transliterate::new(Direction::LatinToCyrillic);
    assert_eq!(lat.process("").unwrap(), "");
    let cyr = Transliterate::new(Direction::CyrillicToLatin);
    assert_eq!(cyr.process("").unwrap(), "");
}

#[test]
fn test_digraph_precedence() {
    let t = Transliterate::new(Direction::LatinToCyrillic);
    assert_eq!(t.process("Ljubav").unwrap(), "Љубав");
    assert_eq!(t.process("ljeto").unwrap(), "љето");
    assert_eq!(t.process("Njiva").unwrap(), "Њива");
    assert_eq!(t.process("džak").unwrap(), "џак");
}

#[test]
fn test_exception_override() {
    let t = Transliterate::new(Direction::LatinToCyrillic);
    assert_eq!(t.process("konjugacija").unwrap(), "конјугација");
    assert_eq!(t.process("injekcija").unwrap(), "инјекција");
    assert_eq!(t.process("nadživeti").unwrap(), "надживети");
    assert_eq!(t.process("ZABLUDJE").unwrap(), "ЗАБЛУДЈЕ");
}

#[test]
fn test_exception_override_case_folded() {
    // The marker search runs over the lowercased word, so an all-caps word
    // still selects the override.
    let t = Transliterate::new(Direction::LatinToCyrillic);
    assert_eq!(t.process("TANJug").unwrap(), "ТАНЈуг");
    assert_eq!(t.process("KONJUGACIJA").unwrap(), "КОНЈУГАЦИЈА");
}

#[test]
fn test_digraph_exception_direct() {
    let word: Vec<char> = "kenjon".chars().collect();
    let nj: Vec<char> = vec!['n', 'j'];
    let r = Transliterate::digraph_exception(&word, &nj);
    assert_eq!(r, Some(vec!['н', 'ј']));

    let plain: Vec<char> = "njiva".chars().collect();
    let r = Transliterate::digraph_exception(&plain, &nj);
    assert_eq!(r, None);
}

#[test]
fn test_denormalized_normalization() {
    let t = Transliterate::new(Direction::LatinToCyrillic);
    assert_eq!(t.process("ﬁlm").unwrap(), "филм");
    assert_eq!(t.process("Ǆak").unwrap(), "Џак");
    assert_eq!(t.process("ǋegov").unwrap(), "Његов");
    assert_eq!(t.process("æon").unwrap(), "аеон");
}

#[test]
fn test_whitespace_normalization() {
    let t = Transliterate::new(Direction::LatinToCyrillic);
    assert_eq!(t.process("  abv   gda  ").unwrap(), "абв гда");
    assert_eq!(t.process("abv\t\ngda").unwrap(), "абв гда");
    assert_eq!(t.process("abv\u{00A0}\u{2003}gda").unwrap(), "абв гда");
    assert_eq!(t.process("   ").unwrap(), "");
}

#[test]
fn test_word_independence() {
    let t = Transliterate::new(Direction::LatinToCyrillic);
    let whole = t.process("dan mrak zora").unwrap();
    let a = t.process("dan").unwrap();
    let b = t.process("mrak").unwrap();
    let c = t.process("zora").unwrap();
    assert_eq!(whole, format!("{} {} {}", a, b, c));
}

#[test]
fn test_process_word_single() {
    let t = Transliterate::new(Direction::LatinToCyrillic);
    assert_eq!(t.process_word("mreža").unwrap(), "мрежа");
    let c = Transliterate::new(Direction::CyrillicToLatin);
    assert_eq!(c.process_word("мрежа").unwrap(), "mreža");
}

#[test]
fn test_round_trip_clean() {
    let sentence = "Nevesele snene žene plele teške mreže";
    let lat = Transliterate::new(Direction::LatinToCyrillic);
    let cyr = Transliterate::new(Direction::CyrillicToLatin);
    let there = lat.process(sentence).unwrap();
    let back = cyr.process(&there).unwrap();
    assert_eq!(back, sentence);
}

#[test]
fn test_default_direction() {
    let t = Transliterate::default();
    assert_eq!(t.process("mreža").unwrap(), "мрежа");
}

#[test]
fn test_chars_to_utf8() {
    let input: Vec<char> = "Џеп".chars().collect();
    let mut out: Vec<u8> = Vec::new();
    let n = Transliterate::chars_to_utf8(&input, &mut out);
    assert_eq!(out, "Џеп".as_bytes().to_vec());
    assert_eq!(n, out.len());

    let ascii: Vec<char> = vec!['a', 'b'];
    let n = Transliterate::chars_to_utf8(&ascii, &mut out);
    assert_eq!(n, 2);
    assert_eq!(out, "Џепab".as_bytes().to_vec());
}
