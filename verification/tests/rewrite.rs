use ptts::preprocess::rewrite::{numbers, rewrite_word, rewrite_words, Rules};
use ptts::preprocess::Lang;

#[test]
fn numbers_are_read_out() {
    let cases = [
        ("0", Some("0")),
        ("123", Some("123")),
        ("2024", Some("2024")),
        ("1234", Some("1 thousand 234")),
        ("1,234.56...", Some("1 thousand 234 point 56...")),
        ("3.14", Some("3 point 14")),
        ("12.10", Some("12 point 10")),
        ("-12.00", Some("minus 12 point 00")),
        ("1000000", Some("1 million")),
        ("2500000", Some("2 million 500 thousand")),
        ("2,500,000,", Some("2 million 500 thousand,")),
        ("1002003004", Some("1 billion 2 million 3 thousand 4")),
        ("-4500", Some("minus 4 thousand 500")),
        ("-12.", Some("minus 12.")),
        // Not quantities: a code, a time, a range, a unit, a value past a trillion.
        ("007", None),
        ("12:30", None),
        ("10-15", None),
        ("3.5%", None),
        ("1234567890123", None),
        ("hello", None),
        ("", None),
        ("12,345", Some("12 thousand 345")),
        // Commas are stripped wherever they fall, and a grouped number can still look like a
        // year. Both are quirks, pinned here because the readings have to stay identical to the
        // ones the serving stack already speaks.
        ("1,2,3", Some("123")),
        ("1,23", Some("123")),
        ("1234,567", Some("1 million 234 thousand 567")),
        ("1,999", Some("1999")),
        ("0,123", Some("123")),
    ];
    for (input, expected) in cases {
        assert_eq!(numbers(input, Lang::En).as_deref(), expected, "{input:?}");
    }

    // Outside English a comma is the decimal mark, not a thousands separator, and the count in
    // front of a scale word follows the language's grammar.
    let rest = [
        (Lang::Fr, "1234", Some("mille 234")),
        (Lang::Fr, "2234", Some("2 mille 234")),
        (Lang::Fr, "2000000", Some("2 millions")),
        (Lang::Fr, "2001000", Some("2 millions mille")),
        (Lang::Fr, "1500000", Some("1 million 500 mille")),
        (Lang::Fr, "2024", Some("2024")),
        (Lang::Fr, "-4500", Some("moins 4 mille 500")),
        (Lang::Fr, "1234,56", Some("mille 234 virgule 56")),
        (Lang::Fr, "1,234", Some("1 virgule 234")),
        (Lang::De, "1000", Some("ein Tausend")),
        (Lang::De, "1000000", Some("eine Million")),
        (Lang::De, "1000000000", Some("eine Milliarde")),
        (Lang::De, "2001000", Some("2 Millionen ein Tausend")),
        (Lang::De, "-1000", Some("minus ein Tausend")),
        (Lang::De, "1,234", Some("1 Komma 234")),
        // A dot groups thousands only when the groups after the first have three digits.
        (Lang::De, "1.042", Some("ein Tausend 42")),
        (Lang::De, "1.234,567", Some("ein Tausend 234 Komma 567")),
        (Lang::De, "1.23", None),
        (Lang::De, "1.2.3", None),
        // A trailing sentence period breaks the grouping, so the number is left as written.
        (Lang::De, "1.500.", None),
        (Lang::Es, "1000000", Some("1 millón")),
        (Lang::Es, "2001000", Some("2 millones mil")),
        (Lang::Es, "-4500", Some("menos 4 mil 500")),
        (Lang::Es, "1.234,5", Some("mil 234 coma 5")),
        (Lang::Pt, "1000000", Some("1 milhão")),
        (Lang::Pt, "2000000", Some("2 milhões")),
        (Lang::Pt, "2001000", Some("2 milhões mil")),
        (Lang::Pt, "1000000000", Some("1 bilhão")),
    ];
    for (lang, input, expected) in rest {
        assert_eq!(numbers(input, lang).as_deref(), expected, "{lang:?} {input:?}");
    }
}

#[test]
fn rules_pick_what_runs() {
    assert_eq!(Rules::parse("all").unwrap(), Rules::all());
    assert_eq!(Rules::parse("numbers").unwrap(), Rules::all());
    assert_eq!(Rules::parse("none").unwrap(), Rules::none());
    assert!(Rules::parse("dates").is_err());
    assert_eq!(rewrite_word("1234", Lang::En, Rules::all()).as_deref(), Some("1 thousand 234"));
    assert_eq!(rewrite_word("1234", Lang::Fr, Rules::all()).as_deref(), Some("mille 234"));
    assert_eq!(rewrite_word("1234", Lang::En, Rules::none()), None);
    assert_eq!(rewrite_word("1234", Lang::De, Rules::all()).as_deref(), Some("ein Tausend 234"));
}

#[test]
fn the_first_unknown_rule_is_named() {
    assert_eq!(Rules::parse(" OFF ").unwrap(), Rules::none());
    assert_eq!(Rules::parse("Numbers , numbers").unwrap(), Rules::all());
    assert_eq!(
        Rules::parse("numbers, dates,times").unwrap_err().message(),
        "unknown rewrite rule:  dates; expected all, none, or any of: numbers"
    );
    assert_eq!(
        Rules::parse("").unwrap_err().message(),
        "unknown rewrite rule: ; expected all, none, or any of: numbers"
    );
}

#[test]
fn groups_are_measured_in_bytes() {
    // The ellipsis takes three bytes, so it passes for a group.
    assert_eq!(numbers("1.234.…", Lang::De).as_deref(), Some("ein Tausend 234.…"));
    assert_eq!(numbers("1.234.!", Lang::De), None);
    assert_eq!(numbers("-", Lang::En), None);
    assert_eq!(numbers(",", Lang::En), None);
    assert_eq!(numbers("999999999999", Lang::En).as_deref(), Some(
        "999 billion 999 million 999 thousand 999"
    ));
    assert_eq!(numbers("1000000000000", Lang::En), None);
    assert_eq!(numbers("99999999999999999999999999", Lang::En), None);
    assert_eq!(numbers("1000000000", Lang::Es).as_deref(), Some("1 mil millones"));
}

#[test]
fn small_numbers_and_years_are_left_as_digits() {
    for n in (0..1000).chain(1900..2100) {
        let word = format!("{n}");
        for lang in [Lang::En, Lang::Fr, Lang::De, Lang::Es, Lang::Pt] {
            assert_eq!(numbers(&word, lang).as_deref(), Some(word.as_str()));
        }
    }
    assert_eq!(numbers("1899", Lang::En).as_deref(), Some("1 thousand 899"));
    assert_eq!(numbers("2100", Lang::En).as_deref(), Some("2 thousand 100"));
}

#[test]
fn words_are_rewritten_one_by_one() {
    assert_eq!(
        rewrite_words("from 1500 to 2024, or 12:30", Lang::En, Rules::all()),
        "from 1 thousand 500 to 2024, or 12:30"
    );
    assert_eq!(rewrite_words("from 1500 on", Lang::En, Rules::none()), "from 1500 on");
    assert_eq!(rewrite_words("", Lang::En, Rules::all()), "");
}

#[test]
fn signs_marks_and_groups_are_read_around_the_number() {
    let say = |w: &str, lang| numbers(w, lang);
    for lang in [Lang::En, Lang::Fr, Lang::De, Lang::Es, Lang::Pt] {
        let plain = say("4500", lang).unwrap();
        let minus = match lang {
            Lang::Fr => "moins",
            Lang::Es | Lang::Pt => "menos",
            _ => "minus",
        };
        assert_eq!(say("-4500", lang).unwrap(), format!("{minus} {plain}"));
        for mark in ['!', '?', '.', ':', ',', ';', '…'] {
            assert_eq!(say(&format!("4500{mark}"), lang).unwrap(), format!("{plain}{mark}"));
        }
        let point = if lang == Lang::En { '.' } else { ',' };
        let word = lang.decimal_separator();
        assert_eq!(say(&format!("4500{point}050"), lang).unwrap(), format!("{plain} {word} 050"));
    }
    assert_eq!(say("4,5,00", Lang::En), say("4500", Lang::En));
    // Dots group only as long as nothing follows them.
    assert_eq!(say("1.234", Lang::De).as_deref(), Some("ein Tausend 234"));
    assert_eq!(say("1.234!", Lang::De), None);
}
