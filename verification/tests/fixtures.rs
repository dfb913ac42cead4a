//! The fixture suite of the transliteration engine: clean round-trippable
//! pairs, exception words, and denormalized (dirty) inputs.

use transliterate::{Direction, Transliterate};

fn examples() -> Vec<(&'static str, &'static str, bool)> {
    vec![
        ("", "", true),
        ("1234567890", "1234567890", true),
        ("ABVGDĐEŽZIJKLLjMNNjOPRSTĆUFHCČDžŠabvgdđežzijklljmnnjoprstćufhcčdžš", "АБВГДЂЕЖЗИЈКЛЉМНЊОПРСТЋУФХЦЧЏШабвгдђежзијклљмнњопрстћуфхцчџш", true),
        ("Stala mala Mara na kraj stara hana sama.", "Стала мала Мара на крај стара хана сама.", true),
        ("Nevesele snene žene plele teške mreže", "Невеселе снене жене плеле тешке мреже", true),
        ("Javorov jaram, javorova ralica, ralo drvo javorovo.", "Јаворов јарам, јаворова ралица, рало дрво јаворово.", true),
        ("Jesi li to ti to tu? Jesi li to tu ti? Jesi li to ti tu? Jesi li tu ti to?", "Јеси ли то ти то ту? Јеси ли то ту ти? Јеси ли то ти ту? Јеси ли ту ти то?", true),
        ("Adjektivisati|ZABLUDJE|odžvać|PredŽivot|kenjon|konjug|TANJug", "Адјективисати|ЗАБЛУДЈЕ|оджваћ|ПредЖивот|кенјон|конјуг|ТАНЈуг", true),
        ("ABVGDĐÐDJDjEZŽŽIJKLLJǇLjǈMNNJǊNjǋOPRSTĆĆUFHCČČDŽǄDŽDžǅDžŠŠ", "АБВГДЂЂЂЂЕЗЖЖИЈКЛЉЉЉЉМНЊЊЊЊОПРСТЋЋУФХЦЧЧЏЏЏЏЏЏШШ", false),
        ("aæbvgdđdjezžžiĳjklljǉmnnjǌoœprsﬆtććufﬁﬂhcččdžǆdžšš", "ааебвгдђђезжжиијјклљљмнњњооепрссттћћуффифлхцччџџџшш", false),
        ("ABVGDĐÐDJDjezžžiĳjklljǉMNNJǊNjǋOPRsﬆtććufﬁﬂhcččdžǄDŽDžǅDžŠŠ", "АБВГДЂЂЂЂезжжиијјклљљМНЊЊЊЊОПРссттћћуффифлхцччџЏЏЏЏЏШШ", false),
    ]
}

#[test]
fn test_transliterate_lat_cyr() {
    for (lat, cyr, _clean) in examples() {
        let t = Transliterate::new(Direction::LatinToCyrillic);
        let res = t.process(lat).unwrap();
        assert_eq!(res, cyr);
    }
}

#[test]
fn test_transliterate_cyr_lat() {
    for (lat, cyr, clean) in examples() {
        if !clean {
            continue;
        }
        let t = Transliterate::new(Direction::CyrillicToLatin);
        let res = t.process(cyr).unwrap();
        assert_eq!(res, lat);
    }
}
