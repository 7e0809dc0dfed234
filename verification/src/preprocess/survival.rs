//! What normalization keeps: every letter and digit, in order, and ordinary prose as it stands.
use super::{Action, Ending, Lang};
use crate::text;
use vstd::prelude::*;
use vstd::string::*;

verus! {

/// Letters and digits of every script -- ASCII, accented Latin, Greek, Cyrillic, Hebrew, Arabic,
/// the scripts of India and of Southeast Asia, kana, ideographs, Hangul and those beyond -- and the
/// signs that stand among them: those of Latin-1, of currencies and of mathematics.
pub open spec fn glyph(c: char) -> bool {
    let n = c as u32;
    ||| 'a' <= c <= 'z'
    ||| 'A' <= c <= 'Z'
    ||| '0' <= c <= '9'
    ||| 0xA1 <= n <= 0xAA
    ||| 0xAC <= n <= 0xB6
    ||| 0xB8 <= n <= 0xBA
    ||| 0xBC <= n <= 0x167F
    ||| 0x1681 <= n <= 0x1FFF
    ||| 0x20A0 <= n <= 0x20BF
    ||| 0x2100 <= n <= 0x218F
    ||| 0x2200 <= n <= 0x2218
    ||| 0x221A <= n <= 0x22FF
    ||| 0x2C00 <= n <= 0x2DFF
    ||| 0x3040 <= n <= 0xD7FF
    ||| 0xF900 <= n <= 0xFAFF
    ||| 0x10000 <= n <= 0x1EFFF
    ||| 0x20000 <= n <= 0x3FFFF
}

/// What is neither whitespace, a control character, ASCII punctuation, an emoji or part of one,
/// nor one of the typographic marks.
pub open spec fn solid(c: char) -> bool {
    &&& !text::whitespace(c)
    &&& !text::control(c)
    &&& !text::punctuation(c)
    &&& !super::emoji(c)
    &&& !super::joining_mark(c)
    &&& !super::arrow(c)
    &&& !super::bullet(c)
    &&& !super::quote_mark(c)
    &&& !super::single_quote(c)
    &&& !super::hyphen(c)
    &&& !super::long_dash(c)
    &&& c != '…'
}

/// No letter, digit or sign is special in any way.
pub proof fn letters_are_solid(c: char)
    requires
        glyph(c),
    ensures
        solid(c),
{
}

/// `input` with the symbols that are read aloud spelled out.
pub open spec fn spelled_out(input: Seq<char>, lang: Lang) -> Seq<char>
    decreases input.len(),
{
    if input.len() == 0 {
        Seq::empty()
    } else {
        let before = spelled_out(input.drop_last(), lang);
        if input.last() == '@' {
            before + lang.at_word()
        } else if input.last() == '+' {
            before + lang.plus_word()
        } else if input.last() == '=' {
            before + lang.equals_word()
        } else {
            before.push(input.last())
        }
    }
}

/// The characters of `s` that are in `class`, in order.
pub open spec fn only(s: Seq<char>, class: spec_fn(char) -> bool) -> Seq<char>
    decreases s.len(),
{
    if s.len() == 0 {
        s
    } else if class(s.last()) {
        only(s.drop_last(), class).push(s.last())
    } else {
        only(s.drop_last(), class)
    }
}

proof fn only_of_push(s: Seq<char>, c: char, class: spec_fn(char) -> bool)
    ensures
        only(s.push(c), class) == (if class(c) {
            only(s, class).push(c)
        } else {
            only(s, class)
        }),
{
    assert(s.push(c).drop_last() =~= s);
}

proof fn only_adds(a: Seq<char>, b: Seq<char>, class: spec_fn(char) -> bool)
    ensures
        only(a + b, class) == only(a, class) + only(b, class),
    decreases b.len(),
{
    if b.len() == 0 {
        assert(a + b =~= a);
        assert(only(a, class) + only(b, class) =~= only(a, class));
    } else {
        only_adds(a, b.drop_last(), class);
        assert((a + b).drop_last() =~= a + b.drop_last());
        assert(only(a + b, class) =~= only(a, class) + only(b, class));
    }
}

/// What a stop swallows, and what is trimmed, is not solid.
proof fn tightening_keeps_what_is_solid(s: Seq<char>, class: spec_fn(char) -> bool)
    requires
        forall|c: char| #[trigger] class(c) ==> solid(c),
    ensures
        only(super::tightened(s), class) == only(s, class),
        only(text::trim_end(s), class) == only(s, class),
    decreases s.len(),
{
    if s.len() > 0 {
        tightening_keeps_what_is_solid(s.drop_last(), class);
        assert(class(s.last()) ==> solid(s.last()));
    }
}

proof fn putting_adds(s: Seq<char>, c: char, class: spec_fn(char) -> bool)
    requires
        forall|c: char| #[trigger] class(c) ==> solid(c),
    ensures
        only(super::put(s, c), class) == (if class(c) {
            only(s, class).push(c)
        } else {
            only(s, class)
        }),
{
    tightening_keeps_what_is_solid(s, class);
    only_of_push(s, c, class);
    only_of_push(super::tightened(s), c, class);
}

proof fn spacing_adds_nothing(s: Seq<char>, class: spec_fn(char) -> bool)
    requires
        forall|c: char| #[trigger] class(c) ==> solid(c),
    ensures
        only(super::spaced(s), class) == only(s, class),
{
    only_of_push(s, ' ', class);
    assert(class(' ') ==> solid(' '));
}

proof fn putting_all_adds(s: Seq<char>, word: Seq<char>, class: spec_fn(char) -> bool)
    requires
        forall|c: char| #[trigger] class(c) ==> solid(c),
    ensures
        only(super::put_all(s, word), class) == only(s, class) + only(word, class),
    decreases word.len(),
{
    if word.len() == 0 {
        assert(only(s, class) + only(word, class) =~= only(s, class));
    } else {
        putting_all_adds(s, word.drop_last(), class);
        putting_adds(super::put_all(s, word.drop_last()), word.last(), class);
        assert(only(super::put_all(s, word), class) =~= only(s, class) + only(word, class));
    }
}

proof fn what_is_solid_is_collected(
    input: Seq<char>,
    lang: Lang,
    class: spec_fn(char) -> bool,
)
    requires
        forall|c: char| #[trigger] class(c) ==> solid(c),
    ensures
        only(super::collected(input, lang), class) == only(spelled_out(input, lang), class),
    decreases input.len(),
{
    if input.len() > 0 {
        let init = input.drop_last();
        let c = input.last();
        let before = super::collected(init, lang);
        let said = spelled_out(init, lang);
        what_is_solid_is_collected(init, lang, class);
        assert(class(c) ==> solid(c));
        only_of_push(said, c, class);
        if super::joined(super::ending(init), c) {
            spacing_adds_nothing(before, class);
        } else {
            match super::action_of(c, lang) {
                Action::Gap => {
                    spacing_adds_nothing(before, class);
                },
                Action::Keep(k) => {
                    putting_adds(before, k, class);
                    assert(class(k) ==> solid(k));
                },
                Action::Say(word) => {
                    spacing_adds_nothing(before, class);
                    putting_all_adds(super::spaced(before), word, class);
                    spacing_adds_nothing(super::put_all(super::spaced(before), word), class);
                    only_adds(said, word, class);
                },
                Action::Pause => {
                    tightening_keeps_what_is_solid(before, class);
                    putting_adds(text::trim_end(before), ',', class);
                    assert(class(',') ==> solid(','));
                    spacing_adds_nothing(super::put(text::trim_end(before), ','), class);
                },
            }
        }
    }
}

/// Everything solid survives: whatever the text and the language, the solid characters of the
/// output are those of the input, in order, with the symbols that are read aloud spelled out.
pub proof fn everything_solid_survives(input: Seq<char>, lang: Lang)
    ensures
        only(super::normalized(input, lang), |c: char| solid(c)) == only(
            spelled_out(input, lang),
            |c: char| solid(c),
        ),
{
    let class = |c: char| solid(c);
    what_is_solid_is_collected(input, lang, class);
    tightening_keeps_what_is_solid(super::collected(input, lang), class);
}

/// Every letter and every digit survives: whatever the text and the language, those of the output
/// are those of the input, in order, with the symbols that are read aloud spelled out.
pub proof fn every_letter_survives(input: Seq<char>, lang: Lang)
    ensures
        only(super::normalized(input, lang), |c: char| glyph(c)) == only(
            spelled_out(input, lang),
            |c: char| glyph(c),
        ),
{
    let class = |c: char| glyph(c);
    assert forall|c: char| #[trigger] class(c) implies solid(c) by {
        letters_are_solid(c);
    }
    what_is_solid_is_collected(input, lang, class);
    tightening_keeps_what_is_solid(super::collected(input, lang), class);
}

/// The ASCII marks that prose is written with and that are kept: all but those that are dropped,
/// read aloud, or turned into a pause.
pub open spec fn prose_mark(c: char) -> bool {
    ||| c == '!' || c == '?' || c == '.' || c == ',' || c == '\'' || c == '-' || c == '%'
    ||| c == '$' || c == '&' || c == '/' || c == '#' || c == '<' || c == '>' || c == '\\'
    ||| c == '^' || c == '_' || c == '`' || c == '|' || c == '~'
}

/// Ordinary prose: letters and the marks of prose, with single spaces between words, and no stop
/// right behind a space or another mark.
pub open spec fn prose(s: Seq<char>) -> bool {
    &&& forall|i: int|
        0 <= i < s.len() ==> glyph(#[trigger] s[i]) || prose_mark(s[i]) || s[i] == ' '
    &&& s.len() > 0 ==> s[0] != ' ' && s.last() != ' '
    &&& forall|i: int, j: int|
        #![trigger s[i], s[j]]
        0 <= i && j == i + 1 && j < s.len() ==> {
            &&& !(s[i] == ' ' && s[j] == ' ')
            &&& s[j] == '.' || s[j] == ',' ==> glyph(s[i])
        }
}

proof fn prose_is_tidy(s: Seq<char>)
    requires
        prose(s),
    ensures
        super::tidy(s),
{
    assert forall|i: int| 0 <= i < s.len() implies super::plain(#[trigger] s[i]) by {
        if glyph(s[i]) {
            letters_are_solid(s[i]);
        }
    }
    assert forall|i: int, j: int| 0 <= i && j == i + 1 && j < s.len() implies #[trigger] super::fits(
        s[i],
        s[j],
    ) by {
        assert(glyph(s[j]) || prose_mark(s[j]) || s[j] == ' ');
        if glyph(s[i]) {
            letters_are_solid(s[i]);
        }
        if glyph(s[j]) {
            letters_are_solid(s[j]);
        }
    }
}

/// Ordinary prose is left exactly as it is, in every language: "Un café, s'il vous plaît." stays.
pub proof fn prose_is_left_alone(s: Seq<char>, lang: Lang)
    requires
        prose(s),
    ensures
        super::normalized(s, lang) == s,
{
    prose_is_tidy(s);
    super::normal_text_is_left_alone(s, lang);
}

/// A word: letters, and at least one.
pub open spec fn word(s: Seq<char>) -> bool {
    s.len() > 0 && forall|i: int| 0 <= i < s.len() ==> glyph(#[trigger] s[i])
}

/// What a single character between two words becomes.
pub open spec fn between(c: char, lang: Lang) -> Seq<char> {
    if c == '’' || c == '‘' || c == '‚' || c == '‛' || c == '＇' || c == '\'' {
        "'"@
    } else if c == '‐' || c == '‑' || c == '‒' || c == '―' || c == '﹣' || c == '－' || c == '-' {
        "-"@
    } else if c == '…' || c == '.' {
        "."@
    } else if c == ';' || c == ':' || c == '(' || c == ')' {
        ", "@
    } else if c == '@' {
        match lang {
            Lang::En => " at "@,
            Lang::Fr => " arobaze "@,
            Lang::De => " ät "@,
            Lang::Es | Lang::Pt => " arroba "@,
        }
    } else if c == '+' {
        match lang {
            Lang::En | Lang::Fr => " plus "@,
            Lang::De => " Plus "@,
            Lang::Es => " mas "@,
            Lang::Pt => " mais "@,
        }
    } else if c == '=' {
        match lang {
            Lang::En => " equals "@,
            Lang::Fr => " égal "@,
            Lang::De => " Gleich "@,
            Lang::Es | Lang::Pt => " igual "@,
        }
    } else if prose_mark(c) || glyph(c) {
        seq![c]
    } else {
        " "@
    }
}

/// The marks that are folded to others, spelled out, or turned into a pause.
pub open spec fn folded(c: char) -> bool {
    ||| c == '’' || c == '‘' || c == '‚' || c == '‛' || c == '＇' || c == '‐' || c == '‑'
    ||| c == '‒' || c == '―' || c == '﹣' || c == '－' || c == '…'
    ||| c == ';' || c == ':' || c == '(' || c == ')' || c == '@' || c == '+' || c == '='
}

/// The characters that part words: spaces and line ends, quotes, dashes, brackets, bullets,
/// arrows, and emoji.
pub open spec fn parting(c: char) -> bool {
    let n = c as u32;
    ||| c == ' ' || c == '\t' || c == '\n' || c == '\r' || n == 0xA0 || n == 0x2028 || n == 0x3000
    ||| 0x2000 <= n <= 0x200A || n == 0x202F || n == 0x205F
    ||| c == '"' || c == '“' || c == '”' || c == '„' || c == '‟' || c == '«' || c == '»'
    ||| c == '‹' || c == '›' || c == '–' || c == '—' || c == '*' || c == '[' || c == ']'
    ||| c == '{' || c == '}' || c == '•' || c == '‣' || c == '◦' || c == '·' || c == '→'
    ||| c == '←' || c == '↑' || c == '↓' || c == '➡' || c == '➜'
    ||| 0x1F600 <= n <= 0x1FAFF || 0x2600 <= n <= 0x27BF || 0x1F1E6 <= n <= 0x1F1FF
}

/// A word is collected as it is, behind text that ends in no stop that would join it.
proof fn a_word_is_appended(before: Seq<char>, w: Seq<char>, lang: Lang)
    requires
        forall|i: int| 0 <= i < w.len() ==> glyph(#[trigger] w[i]),
    ensures
        super::collected(before + w, lang) == super::collected(before, lang) + w,
    decreases w.len(),
{
    if w.len() == 0 {
        assert(before + w =~= before);
        assert(super::collected(before, lang) + w =~= super::collected(before, lang));
    } else {
        let init = w.drop_last();
        assert forall|i: int| 0 <= i < init.len() implies glyph(#[trigger] init[i]) by {
            assert(glyph(w[i]));
        }
        a_word_is_appended(before, init, lang);
        assert(glyph(w[w.len() - 1]));
        letters_are_solid(w.last());
        assert((before + w).drop_last() =~= before + init);
        assert((before + w).last() == w.last());
        assert((super::collected(before, lang) + init).push(w.last()) =~= super::collected(
            before,
            lang,
        ) + w);
    }
}

/// A word is put as it is.
proof fn a_word_is_put(s: Seq<char>, w: Seq<char>)
    requires
        forall|i: int| 0 <= i < w.len() ==> !super::stop(#[trigger] w[i]),
    ensures
        super::put_all(s, w) == s + w,
    decreases w.len(),
{
    if w.len() == 0 {
        assert(s + w =~= s);
    } else {
        let init = w.drop_last();
        assert forall|i: int| 0 <= i < init.len() implies !super::stop(#[trigger] init[i]) by {
            assert(!super::stop(w[i]));
        }
        a_word_is_put(s, init);
        assert(!super::stop(w[w.len() - 1]));
        assert((s + init).push(w.last()) =~= s + w);
    }
}

/// What stands between two words becomes what [`between`] says: a typographic mark is folded to
/// its ASCII equivalent or parts the words, a symbol that is read aloud is spelled out in the
/// language, and a semicolon, a colon or a parenthesis becomes a pause.
pub proof fn marks_between_words_are_folded(a: Seq<char>, c: char, b: Seq<char>, lang: Lang)
    requires
        word(a),
        word(b),
        glyph(c) || prose_mark(c) || parting(c) || folded(c),
    ensures
        super::normalized(a.push(c) + b, lang) == a + between(c, lang) + b,
{
    let none = Seq::<char>::empty();
    assert(none + a =~= a);
    a_word_is_appended(none, a, lang);
    assert(super::collected(a, lang) =~= a);
    let more = a.push(c);
    assert(more.drop_last() =~= a);
    a_word_is_appended(more, b, lang);
    let out = super::collected(more, lang);
    assert(glyph(a[a.len() - 1]));
    letters_are_solid(a.last());
    assert(glyph(b[b.len() - 1]));
    letters_are_solid(b.last());
    if glyph(c) {
        letters_are_solid(c);
    }
    reveal_strlit("'");
    reveal_strlit("-");
    reveal_strlit(".");
    reveal_strlit(", ");
    reveal_strlit(" ");
    assert(super::ending(a) != Ending::Emoji) by {
        a_word_ends_no_emoji(a);
    }
    assert(super::tightened(a) == a);
    assert(text::trim_end(a) == a);
    if c == '@' || c == '+' || c == '=' {
        the_words_are_spelled(lang);
        let said = if c == '@' {
            lang.at_word()
        } else if c == '+' {
            lang.plus_word()
        } else {
            lang.equals_word()
        };
        assert forall|i: int| 0 <= i < said.len() implies !super::stop(#[trigger] said[i]) by {}
        a_word_is_put(a.push(' '), said);
        let spelled = a.push(' ') + said;
        assert(spelled.last() == said.last());
        assert(!text::whitespace(said.last()));
        assert(out == spelled.push(' '));
        assert(out =~= a + between(c, lang));
    } else {
        assert(out =~= a + between(c, lang));
    }
    assert((a + between(c, lang) + b).last() == b.last());
}

/// The spoken words, with the spaces around them.
proof fn the_words_are_spelled(lang: Lang)
    ensures
        between('@', lang) == seq![' '] + lang.at_word() + seq![' '],
        between('+', lang) == seq![' '] + lang.plus_word() + seq![' '],
        between('=', lang) == seq![' '] + lang.equals_word() + seq![' '],
        lang.at_word().len() > 0 && lang.plus_word().len() > 0 && lang.equals_word().len() > 0,
        forall|i: int| 0 <= i < lang.at_word().len() ==> glyph(#[trigger] lang.at_word()[i]),
        forall|i: int| 0 <= i < lang.plus_word().len() ==> glyph(#[trigger] lang.plus_word()[i]),
        forall|i: int|
            0 <= i < lang.equals_word().len() ==> glyph(#[trigger] lang.equals_word()[i]),
{
    reveal_strlit("at");
    reveal_strlit("arobaze");
    reveal_strlit("ät");
    reveal_strlit("arroba");
    reveal_strlit("plus");
    reveal_strlit("Plus");
    reveal_strlit("mas");
    reveal_strlit("mais");
    reveal_strlit("equals");
    reveal_strlit("égal");
    reveal_strlit("Gleich");
    reveal_strlit("igual");
    reveal_strlit(" at ");
    reveal_strlit(" arobaze ");
    reveal_strlit(" ät ");
    reveal_strlit(" arroba ");
    reveal_strlit(" plus ");
    reveal_strlit(" Plus ");
    reveal_strlit(" mas ");
    reveal_strlit(" mais ");
    reveal_strlit(" equals ");
    reveal_strlit(" égal ");
    reveal_strlit(" Gleich ");
    reveal_strlit(" igual ");
    assert(between('@', lang) =~= seq![' '] + lang.at_word() + seq![' ']);
    assert(between('+', lang) =~= seq![' '] + lang.plus_word() + seq![' ']);
    assert(between('=', lang) =~= seq![' '] + lang.equals_word() + seq![' ']);
}

/// A word ends in no emoji.
proof fn a_word_ends_no_emoji(a: Seq<char>)
    requires
        forall|i: int| 0 <= i < a.len() ==> glyph(#[trigger] a[i]),
    ensures
        super::ending(a) != Ending::Emoji,
{
    if a.len() > 0 {
        assert(glyph(a[a.len() - 1]));
        letters_are_solid(a.last());
    }
}

/// What a stop swallows: spaces, and ASCII marks other than those that are read aloud.
pub open spec fn swallowed(c: char) -> bool {
    ||| c == ' ' || c == '\t' || c == '\n' || prose_mark(c)
    ||| c == '"' || c == '*' || c == '[' || c == ']' || c == '{' || c == '}'
    ||| c == ';' || c == ':' || c == '(' || c == ')'
}

/// Tightening sees through what is loose.
proof fn tightening_drops_what_is_loose(s: Seq<char>, c: char)
    requires
        super::loose(c),
    ensures
        super::tightened(s.push(c)) == super::tightened(s),
{
    assert(s.push(c).drop_last() =~= s);
}

proof fn tightening_sees_through_trimming(s: Seq<char>)
    ensures
        super::tightened(text::trim_end(s)) == super::tightened(s),
    decreases s.len(),
{
    if s.len() > 0 && text::whitespace(s.last()) {
        tightening_sees_through_trimming(s.drop_last());
    }
}

proof fn loose_marks_stay_loose(a: Seq<char>, x: Seq<char>, lang: Lang)
    requires
        super::collected(a, lang) == a,
        super::tightened(a) == a,
        forall|i: int| 0 <= i < x.len() ==> swallowed(#[trigger] x[i]),
    ensures
        super::tightened(super::collected(a + x, lang)) == a,
    decreases x.len(),
{
    if x.len() == 0 {
        assert(a + x =~= a);
    } else {
        let init = x.drop_last();
        let c = x.last();
        assert forall|i: int| 0 <= i < init.len() implies swallowed(#[trigger] init[i]) by {
            assert(swallowed(x[i]));
        }
        loose_marks_stay_loose(a, init, lang);
        assert((a + x).drop_last() =~= a + init);
        assert((a + x).last() == c);
        assert(swallowed(x[x.len() - 1]));
        let before = super::collected(a + init, lang);
        tightening_drops_what_is_loose(before, ' ');
        tightening_drops_what_is_loose(before, c);
        tightening_drops_what_is_loose(a, c);
        let trimmed = text::trim_end(before);
        tightening_sees_through_trimming(before);
        tightening_drops_what_is_loose(a, ',');
        tightening_drops_what_is_loose(super::put(trimmed, ','), ' ');
    }
}

/// A full stop or a comma swallows the spaces and marks right before it, and nothing else: it
/// ends up behind the last letter.
pub proof fn a_stop_swallows_only_what_is_loose(
    a: Seq<char>,
    x: Seq<char>,
    stop: char,
    lang: Lang,
)
    requires
        prose(a),
        a.len() > 0,
        glyph(a.last()),
        forall|i: int| 0 <= i < x.len() ==> swallowed(#[trigger] x[i]),
        stop == '.' || stop == ',',
    ensures
        super::normalized((a + x).push(stop), lang) == a.push(stop),
{
    prose_is_collected(a, lang);
    letters_are_solid(a.last());
    assert(super::tightened(a) == a);
    loose_marks_stay_loose(a, x, lang);
    let all = (a + x).push(stop);
    assert(all.drop_last() =~= a + x);
    assert(super::collected(all, lang) == a.push(stop));
}

proof fn prose_is_collected(s: Seq<char>, lang: Lang)
    requires
        prose(s),
    ensures
        super::collected(s, lang) == s,
{
    prose_is_tidy(s);
    super::tidy_text_is_collected_as_it_is(s, lang);
}

/// What normalizing a text gives back holds every letter and digit of it, in order, with the
/// symbols that are read aloud spelled out; and ordinary prose comes back as it is.
pub proof fn normalizing_loses_no_glyph(input: &str, lang: Lang, normal: String)
    requires
        call_ensures(super::normalize_text, (input, lang), normal),
    ensures
        only(normal@, |c: char| glyph(c)) == only(spelled_out(input@, lang), |c: char| glyph(c)),
        prose(input@) ==> normal@ == input@,
{
    every_letter_survives(input@, lang);
    if prose(input@) {
        prose_is_left_alone(input@, lang);
    }
}

/// Behind a gap, what parts words adds nothing; behind a word, it adds one gap.
proof fn gaps_run_together(before: Seq<char>, x: Seq<char>, lang: Lang)
    requires
        forall|i: int| 0 <= i < x.len() ==> parting(#[trigger] x[i]),
        super::collected(before, lang).len() > 0,
    ensures
        super::collected(before + x, lang) == (if x.len() == 0 {
            super::collected(before, lang)
        } else {
            super::spaced(super::collected(before, lang))
        }),
    decreases x.len(),
{
    if x.len() == 0 {
        assert(before + x =~= before);
    } else {
        let init = x.drop_last();
        let c = x.last();
        assert forall|i: int| 0 <= i < init.len() implies parting(#[trigger] init[i]) by {
            assert(parting(x[i]));
        }
        gaps_run_together(before, init, lang);
        assert((before + x).drop_last() =~= before + init);
        assert((before + x).last() == c);
        assert(parting(x[x.len() - 1]));
        let out = super::collected(before, lang);
        assert(super::spaced(super::spaced(out)) == super::spaced(out));
        assert(super::action_of(c, lang) == Action::Gap);
    }
}

/// However many characters part two words, one space does in the end: no two words run together,
/// and nothing of what parted them is left.
pub proof fn words_stay_apart(a: Seq<char>, x: Seq<char>, b: Seq<char>, lang: Lang)
    requires
        word(a),
        word(b),
        x.len() > 0,
        forall|i: int| 0 <= i < x.len() ==> parting(#[trigger] x[i]),
    ensures
        super::normalized(a + x + b, lang) == a + seq![' '] + b,
{
    let none = Seq::<char>::empty();
    assert(none + a =~= a);
    a_word_is_appended(none, a, lang);
    assert(super::collected(a, lang) =~= a);
    gaps_run_together(a, x, lang);
    assert(glyph(a[a.len() - 1]));
    letters_are_solid(a.last());
    assert(super::collected(a + x, lang) =~= a + seq![' ']);
    a_word_is_appended(a + x, b, lang);
    assert(glyph(b[b.len() - 1]));
    letters_are_solid(b.last());
    assert((a + seq![' '] + b).last() == b.last());
}

/// A pause and a symbol that is read aloud take the gaps around them in: whatever parts them from
/// the words, the words are parted by what [`between`] says alone.
pub proof fn pauses_and_symbols_take_the_gaps_in(
    a: Seq<char>,
    u: Seq<char>,
    c: char,
    v: Seq<char>,
    b: Seq<char>,
    lang: Lang,
)
    requires
        word(a),
        word(b),
        forall|i: int| 0 <= i < u.len() ==> parting(#[trigger] u[i]),
        forall|i: int| 0 <= i < v.len() ==> parting(#[trigger] v[i]),
        c == ';' || c == ':' || c == '(' || c == ')' || c == '@' || c == '+' || c == '=',
    ensures
        super::normalized((a + u).push(c) + v + b, lang) == a + between(c, lang) + b,
{
    let none = Seq::<char>::empty();
    assert(none + a =~= a);
    a_word_is_appended(none, a, lang);
    assert(super::collected(a, lang) =~= a);
    gaps_run_together(a, u, lang);
    assert(glyph(a[a.len() - 1]));
    letters_are_solid(a.last());
    assert(glyph(b[b.len() - 1]));
    letters_are_solid(b.last());
    let before = super::collected(a + u, lang);
    let more = (a + u).push(c);
    assert(more.drop_last() =~= a + u);
    let out = super::collected(more, lang);
    reveal_strlit(", ");
    assert(super::tightened(a) == a);
    assert(text::trim_end(a) == a);
    assert(a.push(' ').drop_last() =~= a);
    assert(text::trim_end(before) == a);
    assert(super::spaced(before) == a.push(' '));
    if c == '@' || c == '+' || c == '=' {
        the_words_are_spelled(lang);
        let said = if c == '@' {
            lang.at_word()
        } else if c == '+' {
            lang.plus_word()
        } else {
            lang.equals_word()
        };
        assert forall|i: int| 0 <= i < said.len() implies !super::stop(#[trigger] said[i]) by {}
        a_word_is_put(a.push(' '), said);
        let spelled = a.push(' ') + said;
        assert(spelled.last() == said.last());
        assert(!text::whitespace(said.last()));
        assert(out == spelled.push(' '));
        assert(out =~= a + between(c, lang));
    } else {
        assert(out =~= a + between(c, lang));
    }
    assert(out.last() == ' ');
    gaps_run_together(more, v, lang);
    assert(super::collected(more + v, lang) == out);
    a_word_is_appended(more + v, b, lang);
    assert((a + between(c, lang) + b).last() == b.last());
}

} // verus!
