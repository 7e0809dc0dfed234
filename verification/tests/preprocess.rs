use std::borrow::Cow;
use std::str::FromStr;

use ptts::error::Error;
use ptts::preprocess::{normalize_text, Lang, Normalize};

#[test]
fn normalize_text_cases() {
    let cases: &[(&str, &str)] = &[
        ("Hello, world!", "Hello, world!"),
        ("", ""),
        ("“hello” world it's", "hello world it's"),
        ("a‐b‑c‒d―e", "a-b-c-d-e"),
        ("a–b—c", "a b c"),
        ("foo (bar) [baz] {qux} *quux*", "foo, bar, baz qux quux"),
        ("• ‣ ◦ · a→b←c↑d↓e ➡ ➜", "a b c d e"),
        ("wait… a…b", "wait. a.b"),
        ("user@host @home", "user at host at home"),
        ("café résumé 日本語", "café résumé 日本語"),
        ("hello 😀 flag 🇫🇷 sun ☀", "hello flag sun"),
        // ';', ':' and '(' / ')' all collapse to ", " (comma + single space).
        ("a;b:c", "a, b, c"),
        ("time: 10:30", "time, 10, 30"),
        ("; leading", ", leading"),
        ("hello (world)", "hello, world,"),
        // Surrounding whitespace is absorbed into the comma replacement.
        ("foo ; bar  :  baz", "foo, bar, baz"),
        // Runs of ASCII and non-ASCII whitespace collapse to a single space, and trailing
        // whitespace is stripped.
        ("a   b\t\tc\n\nd", "a b c d"),
        ("hello   ", "hello"),
        ("a • b • c", "a b c"),
        ("“Hello”; please email user@host (now)… 🚀", "Hello, please email user at host, now."),
        (
            "Numbers: one, two, three, four, five. Special items: at sign, hash, dollar, percent.",
            "Numbers, one, two, three, four, five. Special items, at sign, hash, dollar, percent.",
        ),
        (
            "The conference will be held on Tuesday, March 15th at 3:30 PM.",
            "The conference will be held on Tuesday, March 15th at 3, 30 PM.",
        ),
    ];
    for (input, expected) in cases {
        assert_eq!(&normalize_text(input, Lang::En), expected, "input: {input:?}");
    }
}

#[test]
fn spoken_symbols_follow_the_language() {
    assert_eq!(normalize_text("a@b", Lang::En), "a at b");
    assert_eq!(normalize_text("a@b", Lang::Fr), "a arobaze b");
    assert_eq!(normalize_text("a@b", Lang::De), "a ät b");
    assert_eq!(normalize_text("1+1=2", Lang::Es), "1 mas 1 igual 2");
    assert_eq!(normalize_text("1+1=2", Lang::Pt), "1 mais 1 igual 2");
}

#[test]
fn normalize_parses_and_round_trips() {
    for lang in [Lang::En, Lang::Fr, Lang::De, Lang::Es, Lang::Pt] {
        let norm = Normalize::For(lang);
        assert_eq!(Normalize::parse(lang.as_str()).unwrap(), norm);
        assert_eq!(Normalize::parse(norm.as_str()).unwrap(), norm);
    }
    assert_eq!(Normalize::parse("EN").unwrap(), Normalize::For(Lang::En));
    assert_eq!(Normalize::parse("none").unwrap(), Normalize::Off);
    assert_eq!(Normalize::parse("off").unwrap(), Normalize::Off);
    assert_eq!(Normalize::parse(Normalize::Off.as_str()).unwrap(), Normalize::Off);
    let err = Normalize::parse("klingon").unwrap_err();
    assert!(matches!(err, Error::InvalidArgument(_)), "{err:?}");
    let msg = err.message();
    assert!(msg.contains("klingon"), "{msg}");
    assert!(msg.contains("none"), "the error must name the opt-out: {msg}");
}

#[test]
fn apply_follows_the_policy() {
    assert_eq!(Normalize::Off.apply("a@b (c)"), "a@b (c)");
    assert_eq!(Normalize::For(Lang::En).apply("a@b (c)"), "a at b, c,");
    assert_eq!(Normalize::For(Lang::Fr).apply("a@b"), "a arobaze b");
    assert!(matches!(Normalize::Off.apply("text"), Cow::Borrowed(_)));
}

#[test]
fn lang_round_trips_through_str() {
    for (s, lang) in [
        ("en", Lang::En),
        ("FR", Lang::Fr),
        ("de", Lang::De),
        ("es", Lang::Es),
        ("pt", Lang::Pt),
    ] {
        assert_eq!(Lang::from_str(s).unwrap(), lang);
    }
    assert!(Lang::from_str("klingon").is_err());
}

#[test]
fn an_unknown_language_is_quoted_as_it_was_given() {
    assert_eq!(
        Lang::from_str("Klingon").unwrap_err().message(),
        "unsupported language code: Klingon; expected en, fr, de, es, pt, or none to skip \
         normalization"
    );
    // The flag is lowered first, so that is what the message quotes.
    assert_eq!(
        Normalize::parse("Klingon").unwrap_err().message(),
        "unsupported language code: klingon; expected en, fr, de, es, pt, or none to skip \
         normalization"
    );
    // Lowering goes beyond ASCII.
    assert_eq!(
        Normalize::parse("ÄÖ").unwrap_err().message(),
        "unsupported language code: äö; expected en, fr, de, es, pt, or none to skip normalization"
    );
}

#[test]
fn normalizing_again_changes_nothing() {
    for text in [
        "“Hello”; please email user@host (now)… 🚀",
        "  .. ,, a ;; b !!! . c ",
        "1+1=2 — x*y",
        "\u{a0}\u{2003}tab\tand\u{85}nel",
    ] {
        let once = normalize_text(text, Lang::En);
        assert_eq!(normalize_text(&once, Lang::En), once);
        assert_eq!(normalize_text(&once, Lang::De), once);
    }
    assert_eq!(normalize_text("a !!! . b", Lang::En), "a. b");
    assert_eq!(normalize_text("...", Lang::En), ".");
    assert_eq!(normalize_text("@", Lang::Es), "arroba");
}

#[test]
fn every_word_of_a_language_is_its_own() {
    assert_eq!(Lang::De.special_chars().colon, "Doppelpunkt");
    assert_eq!(Lang::De.special_chars().slash, "Slash");
    assert_eq!(Lang::Pt.special_chars().slash, "slash");
    assert_eq!(Lang::Fr.special_chars().dash, "tiret");
    assert_eq!(Lang::Es.special_chars().dot, "punto");
    assert_eq!(Lang::Pt.special_chars().equals, "igual");
    assert_eq!(Lang::Pt.decimal_separator(), "vírgula");
    assert_eq!(Lang::Es.underscore(), "guion bajo");
    assert_eq!(Lang::De.underscore(), "Unterstrich");
    assert_eq!(Lang::Pt.underscore(), "underscore");
    assert_eq!(Lang::Es.dollars(), "dólares");
    assert_eq!(Lang::Es.dollars_singular(), "dólar");
    assert_eq!(Lang::De.dollars_singular(), "Dollar");
    assert_eq!(Lang::De.euros(), "Euro");
    assert_eq!(Lang::Fr.euros_singular(), "euro");
    assert_eq!(Lang::Fr.pounds(), "livres");
    assert_eq!(Lang::En.pounds_singular(), "pound");
    assert_eq!(Lang::En.currency('$'), Some("dollars"));
    assert_eq!(Lang::De.currency('€'), Some("Euro"));
    assert_eq!(Lang::Pt.currency('£'), Some("libras"));
    assert_eq!(Lang::En.currency('¥'), None);
    assert_eq!(Lang::En.currency_singular('$'), Some("dollar"));
    assert_eq!(Lang::Es.currency_singular('€'), Some("euro"));
    assert_eq!(Lang::Fr.currency_singular('£'), Some("livre"));
    assert_eq!(Lang::Fr.currency_singular('x'), None);
}

#[test]
fn every_kind_of_emoji_is_dropped() {
    for (input, expected) in [
        ("hi \u{1F389}", "hi"),
        ("hi \u{1F389} you", "hi you"),
        // The ends of the blocks.
        ("a\u{1F300}b\u{1F5FF}c\u{1FAFF}d", "a b c d"),
        ("❤\u{FE0F} love", "love"),
        ("👨\u{200D}👩\u{200D}👧 family", "family"),
        ("1\u{FE0F}\u{20E3} first", "1 first"),
        ("⏰ wake ⌚ up ⭐", "wake up"),
        ("\u{1F170} \u{1F18E} \u{1F21A} \u{1F004} \u{1F0CF} x", "x"),
        ("\u{1F3F4}\u{E0067}\u{E0062}\u{E007F} flag", "flag"),
        ("#\u{FE0F}\u{20E3}1\u{20E3}2", "# 1 2"),
        ("\u{1F1EB}\u{1F1F7}\u{1F201}\u{1F251}\u{1F22F}◽⬛⏳⏸ fin", "fin"),
        // Marks that are text stay.
        ("© 2024 ™", "© 2024 ™"),
    ] {
        assert_eq!(normalize_text(input, Lang::En), expected, "{input:?}");
    }
}

#[test]
fn typographic_marks_of_every_language_are_folded() {
    for (input, expected) in [
        ("« oui » et ‹ non ›", "oui et non"),
        ("„Ja“, sagte sie", "Ja, sagte sie"),
        ("‚so‘ und ‛so’", "'so' und 'so'"),
        ("5 ‒ 3 － 1", "5 - 3 - 1"),
        ("a⸺b⸻c﹘d", "a b c d"),
        ("● eins ○ zwei ■ drei ▪ vier ⁃ fünf ∙ sechs", "eins zwei drei vier fünf sechs"),
        ("a⇒b⟶c⤵d⬅e↔f", "a b c d e f"),
    ] {
        assert_eq!(normalize_text(input, Lang::De), expected, "{input:?}");
    }
}

#[test]
fn a_joining_mark_goes_only_with_an_emoji() {
    for kept in [
        "a\u{200D}b",
        "क्\u{200D}ष",
        "a\u{FE0F}b",
        "a\u{20E3}b",
        "a\u{E0067}b",
        "1\u{200D}2",
        "©\u{FE0F} 2024",
        "\u{200D}\u{FE0F}\u{20E3}",
    ] {
        assert_eq!(normalize_text(kept, Lang::En), kept, "{kept:?}");
    }
    // Behind a gap the emoji is over.
    assert_eq!(normalize_text("🎉 \u{200D}b", Lang::En), "\u{200D}b");
    assert_eq!(normalize_text("a 🎉 \u{200D}b", Lang::En), "a \u{200D}b");
    assert_eq!(normalize_text("a🎉\u{200D}\u{200D}b", Lang::En), "a b");
}

#[test]
fn symbols_that_are_no_typographic_marks_stay() {
    for kept in ["5 − 3", "▲ △ ▼ ◐ ◯ ▦", "⬡ ⬢ ⯐", "🄰 🈀", "⏏ ⌘ ⏴"] {
        assert_eq!(normalize_text(kept, Lang::En), kept, "{kept:?}");
    }
}

#[test]
fn the_language_matters_for_spoken_symbols_only() {
    let langs = [Lang::En, Lang::Fr, Lang::De, Lang::Es, Lang::Pt];
    for lang in langs {
        assert_eq!(normalize_text("« Hallo »; (1.234) – ok… 🚀", lang), "Hallo, 1.234, ok.");
        assert_ne!(normalize_text("a@b", lang), "a@b");
    }
}
