//! What a number that is said means, so that readings can be held against what was written.
use super::Lang;
use crate::text;
use vstd::prelude::*;
use vstd::string::*;

verus! {

/// What a scale word counts in.
pub open spec fn scale_value(word: Seq<char>, lang: Lang) -> Option<nat> {
    match lang {
        Lang::En => if word == "thousand"@ {
            Some(1000)
        } else if word == "million"@ {
            Some(1_000_000)
        } else if word == "billion"@ {
            Some(1_000_000_000)
        } else {
            None
        },
        Lang::Fr => if word == "mille"@ {
            Some(1000)
        } else if word == "million"@ || word == "millions"@ {
            Some(1_000_000)
        } else if word == "milliard"@ || word == "milliards"@ {
            Some(1_000_000_000)
        } else {
            None
        },
        Lang::De => if word == "Tausend"@ {
            Some(1000)
        } else if word == "Million"@ || word == "Millionen"@ {
            Some(1_000_000)
        } else if word == "Milliarde"@ || word == "Milliarden"@ {
            Some(1_000_000_000)
        } else {
            None
        },
        Lang::Es => if word == "mil"@ {
            Some(1000)
        } else if word == "millón"@ || word == "millones"@ {
            Some(1_000_000)
        } else {
            None
        },
        Lang::Pt => if word == "mil"@ {
            Some(1000)
        } else if word == "milhão"@ || word == "milhões"@ {
            Some(1_000_000)
        } else if word == "bilhão"@ || word == "bilhões"@ {
            Some(1_000_000_000)
        } else {
            None
        },
    }
}

/// A word that is a count in digits.
pub open spec fn numeral(word: Seq<char>) -> bool {
    word.len() > 0 && forall|i: int| 0 <= i < word.len() ==> '0' <= #[trigger] word[i] <= '9'
}

/// A number that is being listened to: what is complete, the last amount of it, and the amount
/// that is being said.
pub struct Tally {
    pub done: nat,
    pub last: nat,
    pub group: nat,
}

/// The amount being said is complete. It has to be smaller than the one before it.
pub open spec fn settled(t: Tally) -> Option<Tally> {
    if t.group == 0 {
        Some(t)
    } else if t.last == 0 || t.group < t.last {
        Some(Tally { done: t.done + t.group, last: t.group, group: 0 })
    } else {
        None
    }
}

/// One more word: a count starts a new amount. A scale word multiplies an amount that is smaller
/// than it; otherwise it stands for one of its kind.
pub open spec fn counted_on(t: Tally, word: Seq<char>, lang: Lang) -> Option<Tally> {
    if numeral(word) {
        match settled(t) {
            Some(u) => Some(Tally { group: text::decimal_value(word), ..u }),
            None => None,
        }
    } else if lang == Lang::De && (word == "ein"@ || word == "eine"@) {
        match settled(t) {
            Some(u) => Some(Tally { group: 1, ..u }),
            None => None,
        }
    } else {
        match scale_value(word, lang) {
            Some(k) => if 0 < t.group < k {
                Some(Tally { group: t.group * k, ..t })
            } else {
                match settled(t) {
                    Some(u) => Some(Tally { group: k, ..u }),
                    None => None,
                }
            },
            None => None,
        }
    }
}

/// The tally behind some words.
pub open spec fn tally(start: Tally, words: Seq<Seq<char>>, lang: Lang) -> Option<Tally>
    decreases words.len(),
{
    if words.len() == 0 {
        Some(start)
    } else {
        match tally(start, words.drop_last(), lang) {
            Some(t) => counted_on(t, words.last(), lang),
            None => None,
        }
    }
}

/// The number that a reading means to someone who speaks the language: its amounts added up, from
/// the largest down.
pub open spec fn meant(reading: Seq<char>, lang: Lang) -> Option<nat> {
    match tally(Tally { done: 0, last: 0, group: 0 }, text::split(reading, ' '), lang) {
        Some(t) => match settled(t) {
            Some(u) => Some(u.done),
            None => None,
        },
        None => None,
    }
}

/// A thousand, a million, a milliard.
spec fn power(scale: int) -> nat {
    if scale == 1 {
        1000
    } else if scale == 2 {
        1_000_000
    } else {
        1_000_000_000
    }
}

proof fn split_around(a: Seq<char>, b: Seq<char>)
    ensures
        text::split(a + seq![' '] + b, ' ') == text::split(a, ' ') + text::split(b, ' '),
        text::split(b, ' ').len() > 0,
    decreases b.len(),
{
    let all = a + seq![' '] + b;
    if b.len() == 0 {
        assert(all.drop_last() =~= a);
        assert(text::split(all, ' ') =~= text::split(a, ' ') + text::split(b, ' '));
    } else {
        let init = b.drop_last();
        split_around(a, init);
        assert(all.drop_last() =~= a + seq![' '] + init);
        assert(all.last() == b.last());
        assert(text::split(all, ' ') =~= text::split(a, ' ') + text::split(b, ' '));
    }
}

proof fn a_word_is_one_piece(w: Seq<char>)
    requires
        forall|i: int| 0 <= i < w.len() ==> #[trigger] w[i] != ' ',
    ensures
        text::split(w, ' ') == seq![w],
    decreases w.len(),
{
    if w.len() == 0 {
        assert(w =~= Seq::<char>::empty());
        assert(text::split(w, ' ') =~= seq![w]);
    } else {
        let init = w.drop_last();
        assert forall|i: int| 0 <= i < init.len() implies #[trigger] init[i] != ' ' by {
            assert(w[i] != ' ');
        }
        a_word_is_one_piece(init);
        assert(w[w.len() - 1] != ' ');
        assert(init.push(w.last()) =~= w);
        assert(text::split(w, ' ') =~= seq![w]);
    }
}

proof fn tally_goes_on(start: Tally, a: Seq<Seq<char>>, b: Seq<Seq<char>>, lang: Lang)
    ensures
        tally(start, a + b, lang) == (match tally(start, a, lang) {
            Some(t) => tally(t, b, lang),
            None => None,
        }),
    decreases b.len(),
{
    if b.len() == 0 {
        assert(a + b =~= a);
    } else {
        tally_goes_on(start, a, b.drop_last(), lang);
        assert((a + b).drop_last() =~= a + b.drop_last());
        assert((a + b).last() == b.last());
    }
}

proof fn tally_of_one(start: Tally, w: Seq<char>, lang: Lang)
    ensures
        tally(start, seq![w], lang) == counted_on(start, w, lang),
{
    assert(seq![w].drop_last() =~= Seq::<Seq<char>>::empty());
    assert(tally(start, Seq::<Seq<char>>::empty(), lang) == Some(start));
}

proof fn decimals_are_numerals(n: nat)
    ensures
        numeral(text::decimal(n)),
        text::decimal_value(text::decimal(n)) == n,
        text::split(text::decimal(n), ' ') == seq![text::decimal(n)],
{
    text::decimal_denotes_its_number(n);
    let w = text::decimal(n);
    assert forall|i: int| 0 <= i < w.len() implies '0' <= #[trigger] w[i] <= '9' by {
        assert(text::digit(w[i]));
    }
    assert forall|i: int| 0 <= i < w.len() implies #[trigger] w[i] != ' ' by {
        assert(text::digit(w[i]));
    }
    a_word_is_one_piece(w);
}

/// A scale word is one word, or "mil millones", and counts in its scale.
proof fn scale_words_count(lang: Lang, scale: int, one: bool)
    requires
        1 <= scale <= 3,
    ensures
        ({
            let w = super::scale_word(lang, scale, one);
            if lang == Lang::Es && scale == 3 {
                text::split(w, ' ') == seq!["mil"@, "millones"@]
            } else {
                &&& text::split(w, ' ') == seq![w]
                &&& !numeral(w)
                &&& w != "ein"@ && w != "eine"@
                &&& scale_value(w, lang) == Some(power(scale))
            }
        }),
        !numeral("mil"@) && !numeral("millones"@),
        lang == Lang::Es ==> scale_value("mil"@, lang) == Some(1000nat),
        lang == Lang::Es ==> scale_value("millones"@, lang) == Some(1_000_000nat),
{
    reveal_strlit("thousand");
    reveal_strlit("million");
    reveal_strlit("billion");
    reveal_strlit("mille");
    reveal_strlit("millions");
    reveal_strlit("milliard");
    reveal_strlit("milliards");
    reveal_strlit("Tausend");
    reveal_strlit("Million");
    reveal_strlit("Millionen");
    reveal_strlit("Milliarde");
    reveal_strlit("Milliarden");
    reveal_strlit("mil millones");
    reveal_strlit("mil");
    reveal_strlit("millón");
    reveal_strlit("millones");
    reveal_strlit("milhão");
    reveal_strlit("milhões");
    reveal_strlit("bilhão");
    reveal_strlit("bilhões");
    reveal_strlit("ein");
    reveal_strlit("eine");
    assert("million"@[0] == 'm' && "billion"@[0] == 'b');
    assert("Tausend"@[0] == 'T' && "Million"@[0] == 'M');
    assert("millions"@[4] == 'i' && "milliard"@[4] == 'i');
    assert("millions"@[5] == 'o' && "milliard"@[5] == 'a');
    assert("Millionen"@[5] == 'o' && "Milliarde"@[5] == 'a');
    assert("milhão"@[0] == 'm' && "bilhão"@[0] == 'b');
    assert("milhões"@[0] == 'm' && "bilhões"@[0] == 'b');
    assert("mil"@[0] == 'm' && "millones"@[0] == 'm' && "ein"@[0] == 'e');
    assert("mil"@.len() == 3 && "millón"@.len() == 6 && "millones"@.len() == 8);
    let w = super::scale_word(lang, scale, one);
    assert(!('0' <= w[0] <= '9'));
    if lang == Lang::Es && scale == 3 {
        assert(w =~= "mil"@ + seq![' '] + "millones"@);
        split_around("mil"@, "millones"@);
        a_word_is_one_piece("mil"@);
        a_word_is_one_piece("millones"@);
        assert(text::split(w, ' ') =~= seq!["mil"@, "millones"@]);
    } else {
        a_word_is_one_piece(w);
    }
}

/// From a count on, a scale word makes it an amount.
proof fn a_counted_scale_adds(t: Tally, lang: Lang, scale: int, one: bool)
    requires
        1 <= scale <= 3,
        0 < t.group < 1000,
    ensures
        tally(t, text::split(super::scale_word(lang, scale, one), ' '), lang) == Some(
            Tally { group: t.group * power(scale), ..t },
        ),
{
    let w = super::scale_word(lang, scale, one);
    scale_words_count(lang, scale, one);
    if lang == Lang::Es && scale == 3 {
        let mid = Tally { group: t.group * 1000, ..t };
        tally_goes_on(t, seq!["mil"@], seq!["millones"@], lang);
        assert(seq!["mil"@] + seq!["millones"@] =~= seq!["mil"@, "millones"@]);
        tally_of_one(t, "mil"@, lang);
        tally_of_one(mid, "millones"@, lang);
        assert(t.group * 1000 * 1_000_000 == t.group * 1_000_000_000);
    } else {
        tally_of_one(t, w, lang);
    }
}

/// An amount adds to the tally, as long as larger ones came before it.
proof fn an_amount_adds(t: Tally, count: nat, lang: Lang, scale: int)
    requires
        1 <= scale <= 3,
        0 < count < 1000,
        settled(t) is Some,
        t.group == 0 || t.group >= 1000 * power(scale),
    ensures
        tally(t, text::split(super::scaled(count, lang, scale), ' '), lang) == Some(
            Tally { group: count * power(scale), ..settled(t)->0 },
        ),
{
    let u = settled(t)->0;
    let said = super::scaled(count, lang, scale);
    let w = super::scale_word(lang, scale, count == 1);
    reveal_strlit("1 ");
    reveal_strlit("ein ");
    reveal_strlit("eine ");
    reveal_strlit("ein");
    reveal_strlit("eine");
    reveal_strlit("");
    reveal_strlit(" ");
    decimals_are_numerals(count);
    scale_words_count(lang, scale, count == 1);
    let counting = Tally { group: count, ..u };
    a_counted_scale_adds(counting, lang, scale, count == 1);
    if count == 1 && scale == 1 && (lang == Lang::Fr || lang == Lang::Es || lang == Lang::Pt) {
        assert(said =~= w);
        tally_of_one(t, w, lang);
    } else {
        let lead = if count == 1 && lang == Lang::De {
            if scale == 1 {
                "ein"@
            } else {
                "eine"@
            }
        } else {
            text::decimal(count)
        };
        if count == 1 {
            assert(text::decimal(1) =~= seq!['1']);
        }
        assert(said =~= lead + seq![' '] + w);
        split_around(lead, w);
        if count == 1 && lang == Lang::De {
            a_word_is_one_piece(lead);
            assert(lead[0] == 'e');
            assert(!numeral(lead));
        }
        tally_goes_on(t, seq![lead], text::split(w, ' '), lang);
        tally_of_one(t, lead, lang);
    }
}

/// The tally of what is said so far.
spec fn stands(parts: Seq<Seq<char>>, t: Tally, lang: Lang) -> bool {
    if parts.len() == 0 {
        t == (Tally { done: 0, last: 0, group: 0 })
    } else {
        tally(
            Tally { done: 0, last: 0, group: 0 },
            text::split(text::joined(parts, " "@), ' '),
            lang,
        ) == Some(t)
    }
}

proof fn one_more_part(parts: Seq<Seq<char>>, t: Tally, part: Seq<char>, u: Tally, lang: Lang)
    requires
        stands(parts, t, lang),
        tally(t, text::split(part, ' '), lang) == Some(u),
    ensures
        stands(parts.push(part), u, lang),
{
    let all = parts.push(part);
    reveal_strlit(" ");
    assert(" "@ =~= seq![' ']);
    assert(all.drop_last() =~= parts);
    if parts.len() > 0 {
        let before = text::joined(parts, " "@);
        assert(text::joined(all, " "@) =~= before + seq![' '] + part);
        split_around(before, part);
        tally_goes_on(
            Tally { done: 0, last: 0, group: 0 },
            text::split(before, ' '),
            text::split(part, ' '),
            lang,
        );
    } else {
        assert(text::joined(all, " "@) == part);
    }
}

/// The parts of a number are tallied up to its value.
proof fn parts_mean_their_number(value: nat, lang: Lang)
    requires
        0 < value < 1_000_000_000_000,
    ensures
        meant(text::joined(super::parts(value, lang), " "@), lang) == Some(value),
{
    let a = value / 1_000_000_000 % 1000;
    let b = value / 1_000_000 % 1000;
    let c = value / 1000 % 1000;
    let d = value % 1000;
    super::parts_add_up(value);
    let t0 = Tally { done: 0, last: 0, group: 0 };
    let p0 = Seq::<Seq<char>>::empty();
    let s3 = super::scaled(a, lang, 3);
    let s2 = super::scaled(b, lang, 2);
    let s1 = super::scaled(c, lang, 1);
    let (p1, t1) = if a > 0 {
        an_amount_adds(t0, a, lang, 3);
        one_more_part(p0, t0, s3, Tally { group: a * 1_000_000_000, ..t0 }, lang);
        (p0.push(s3), Tally { group: a * 1_000_000_000, ..t0 })
    } else {
        (p0, t0)
    };
    assert(p1 =~= p0 + super::part(a, s3));
    let (p2, t2) = if b > 0 {
        an_amount_adds(t1, b, lang, 2);
        let t = Tally { group: b * 1_000_000, ..settled(t1)->0 };
        one_more_part(p1, t1, s2, t, lang);
        (p1.push(s2), t)
    } else {
        (p1, t1)
    };
    assert(p2 =~= p1 + super::part(b, s2));
    assert(t2.done + t2.group == a * 1_000_000_000 + b * 1_000_000);
    assert(settled(t2) is Some);
    assert(t2.group == 0 || t2.group >= 1_000_000);
    let (p3, t3) = if c > 0 {
        an_amount_adds(t2, c, lang, 1);
        let t = Tally { group: c * 1000, ..settled(t2)->0 };
        one_more_part(p2, t2, s1, t, lang);
        (p2.push(s1), t)
    } else {
        (p2, t2)
    };
    assert(p3 =~= p2 + super::part(c, s1));
    assert(t3.done + t3.group == a * 1_000_000_000 + b * 1_000_000 + c * 1000);
    assert(settled(t3) is Some);
    assert(t3.group == 0 || t3.group >= 1000);
    let (p4, t4) = if d > 0 {
        let w = text::decimal(d);
        decimals_are_numerals(d);
        tally_of_one(t3, w, lang);
        let t = Tally { group: d, ..settled(t3)->0 };
        one_more_part(p3, t3, w, t, lang);
        (p3.push(w), t)
    } else {
        (p3, t3)
    };
    assert(p4 =~= p3 + super::part(d, text::decimal(d)));
    assert(p4 =~= super::parts(value, lang));
    assert(p4.len() > 0);
    assert(t4.done + t4.group == value);
    assert(settled(t4) is Some);
}

/// A number is read as the number it is: what the words mean to someone who speaks the language
/// is its value, whatever the number below a trillion and the language.
pub proof fn readings_mean_their_number(value: nat, lang: Lang)
    requires
        value < 1_000_000_000_000,
    ensures
        meant(super::whole_reading(value, lang), lang) == Some(value),
{
    if super::stays_digits(value) {
        decimals_are_numerals(value);
        tally_of_one(Tally { done: 0, last: 0, group: 0 }, text::decimal(value), lang);
    } else {
        parts_mean_their_number(value, lang);
    }
}

/// No two numbers are read alike.
pub proof fn readings_tell_numbers_apart(one: nat, other: nat, lang: Lang)
    requires
        one < 1_000_000_000_000,
        other < 1_000_000_000_000,
        super::whole_reading(one, lang) == super::whole_reading(other, lang),
    ensures
        one == other,
{
    readings_mean_their_number(one, lang);
    readings_mean_their_number(other, lang);
}

/// A number written in digits alone is read as what it is, below a trillion; from there on it is
/// left as it is written.
pub proof fn written_numbers_are_read(value: nat, lang: Lang)
    ensures
        match super::number_reading(text::decimal(value), lang) {
            Some(said) => value < 1_000_000_000_000 && meant(said, lang) == Some(value),
            None => value >= 1_000_000_000_000,
        },
{
    digits_are_a_quantity(value, lang);
    if value < 1_000_000_000_000 {
        readings_mean_their_number(value, lang);
    }
}

proof fn digits_are_a_quantity(value: nat, lang: Lang)
    ensures
        super::number_reading(text::decimal(value), lang) == (if value < 1_000_000_000_000 {
            Some(super::whole_reading(value, lang))
        } else {
            None
        }),
{
    let word = text::decimal(value);
    let group = super::group_mark(word, lang);
    text::decimal_denotes_its_number(value);
    assert(text::digit(word[0]));
    if word.len() >= 2 && word[0] == '0' {
        assert(value == 0);
        assert(text::decimal(0).len() == 1);
    }
    super::digits_stand_alone(word, None);
    assert(!super::dots_group(word));
    super::digits_stand_alone(word, group);
    assert(word.take(word.len() as int) =~= word);
    assert(word.skip(word.len() as int) =~= Seq::<char>::empty());
    let q = super::quantity(word, lang)->0;
    assert(q.whole == word);
    assert(super::reading(q, lang) =~= super::whole_reading(value, lang));
}

/// Numbers under a thousand and years are left as digits, and no others are: any other number is
/// said with a scale word.
pub proof fn only_small_numbers_and_years_stay_digits(value: nat, lang: Lang)
    requires
        value < 1_000_000_000_000,
    ensures
        (super::whole_reading(value, lang) == text::decimal(value)) <==> (value < 1000 || 1900
            <= value < 2100),
{
    if !(value < 1000 || 1900 <= value < 2100) {
        let reading = super::whole_reading(value, lang);
        if reading == text::decimal(value) {
            decimals_are_numerals(value);
            a_scale_word_is_said(value, lang);
        }
    }
}

/// A reading in parts holds a scale word, so it is no numeral.
proof fn a_scale_word_is_said(value: nat, lang: Lang)
    requires
        1000 <= value < 1_000_000_000_000,
    ensures
        !numeral(text::joined(super::parts(value, lang), " "@)),
{
    let a = value / 1_000_000_000 % 1000;
    let b = value / 1_000_000 % 1000;
    let c = value / 1000 % 1000;
    super::parts_add_up(value);
    let parts = super::parts(value, lang);
    let (count, scale) = if a > 0 {
        (a, 3int)
    } else if b > 0 {
        (b, 2int)
    } else {
        (c, 1int)
    };
    assert(count > 0);
    let first = super::scaled(count, lang, scale);
    assert(parts.len() > 0 && parts[0] == first);
    the_first_part_comes_first(parts);
    scale_words_count(lang, scale, count == 1);
    let all = text::joined(parts, " "@);
    reveal_strlit("1 ");
    reveal_strlit("ein ");
    reveal_strlit("eine ");
    reveal_strlit("");
    reveal_strlit(" ");
    let w = super::scale_word(lang, scale, count == 1);
    // The last character of the first part is a letter.
    scale_words_end_in_letters(lang, scale, count == 1);
    assert(first.last() == w.last());
    assert(all[first.len() - 1] == first.last());
}

proof fn scale_words_end_in_letters(lang: Lang, scale: int, one: bool)
    requires
        1 <= scale <= 3,
    ensures
        super::scale_word(lang, scale, one).len() > 0,
        !('0' <= super::scale_word(lang, scale, one).last() <= '9'),
{
    reveal_strlit("thousand");
    reveal_strlit("million");
    reveal_strlit("billion");
    reveal_strlit("mille");
    reveal_strlit("millions");
    reveal_strlit("milliard");
    reveal_strlit("milliards");
    reveal_strlit("Tausend");
    reveal_strlit("Million");
    reveal_strlit("Millionen");
    reveal_strlit("Milliarde");
    reveal_strlit("Milliarden");
    reveal_strlit("mil millones");
    reveal_strlit("mil");
    reveal_strlit("millón");
    reveal_strlit("millones");
    reveal_strlit("milhão");
    reveal_strlit("milhões");
    reveal_strlit("bilhão");
    reveal_strlit("bilhões");
}

proof fn the_first_part_comes_first(parts: Seq<Seq<char>>)
    requires
        parts.len() > 0,
    ensures
        text::joined(parts, " "@).len() >= parts[0].len(),
        text::joined(parts, " "@).take(parts[0].len() as int) == parts[0],
    decreases parts.len(),
{
    let all = text::joined(parts, " "@);
    if parts.len() > 1 {
        the_first_part_comes_first(parts.drop_last());
        let before = text::joined(parts.drop_last(), " "@);
        assert(all.take(parts[0].len() as int) =~= before.take(parts[0].len() as int));
    } else {
        assert(all.take(parts[0].len() as int) =~= parts[0]);
    }
}

/// How a count of one scale alone is said: in the singular when it is one, with the article that
/// German wants and without a count before "mille" and "mil"; in the plural otherwise.
pub open spec fn round_number(count: nat, scale: int, lang: Lang) -> Seq<char> {
    let more = text::decimal(count);
    match lang {
        Lang::En => if scale == 1 {
            more + " thousand"@
        } else if scale == 2 {
            more + " million"@
        } else {
            more + " billion"@
        },
        Lang::Fr => if scale == 1 {
            if count == 1 {
                "mille"@
            } else {
                more + " mille"@
            }
        } else if scale == 2 {
            if count == 1 {
                "1 million"@
            } else {
                more + " millions"@
            }
        } else {
            if count == 1 {
                "1 milliard"@
            } else {
                more + " milliards"@
            }
        },
        Lang::De => if scale == 1 {
            if count == 1 {
                "ein Tausend"@
            } else {
                more + " Tausend"@
            }
        } else if scale == 2 {
            if count == 1 {
                "eine Million"@
            } else {
                more + " Millionen"@
            }
        } else {
            if count == 1 {
                "eine Milliarde"@
            } else {
                more + " Milliarden"@
            }
        },
        Lang::Es => if scale == 1 {
            if count == 1 {
                "mil"@
            } else {
                more + " mil"@
            }
        } else if scale == 2 {
            if count == 1 {
                "1 millón"@
            } else {
                more + " millones"@
            }
        } else {
            more + " mil millones"@
        },
        Lang::Pt => if scale == 1 {
            if count == 1 {
                "mil"@
            } else {
                more + " mil"@
            }
        } else if scale == 2 {
            if count == 1 {
                "1 milhão"@
            } else {
                more + " milhões"@
            }
        } else {
            if count == 1 {
                "1 bilhão"@
            } else {
                more + " bilhões"@
            }
        },
    }
}

proof fn scaled_is_a_round_number(count: nat, scale: int, lang: Lang)
    requires
        0 < count < 1000,
        1 <= scale <= 3,
    ensures
        super::scaled(count, lang, scale) == round_number(count, scale, lang),
{
    reveal_strlit("1 ");
    reveal_strlit("ein ");
    reveal_strlit("eine ");
    reveal_strlit("");
    reveal_strlit(" ");
    reveal_strlit("thousand");
    reveal_strlit("million");
    reveal_strlit("billion");
    reveal_strlit("mille");
    reveal_strlit("millions");
    reveal_strlit("milliard");
    reveal_strlit("milliards");
    reveal_strlit("Tausend");
    reveal_strlit("Million");
    reveal_strlit("Millionen");
    reveal_strlit("Milliarde");
    reveal_strlit("Milliarden");
    reveal_strlit("mil millones");
    reveal_strlit("mil");
    reveal_strlit("millón");
    reveal_strlit("millones");
    reveal_strlit("milhão");
    reveal_strlit("milhões");
    reveal_strlit("bilhão");
    reveal_strlit("bilhões");
    reveal_strlit(" thousand");
    reveal_strlit(" million");
    reveal_strlit(" billion");
    reveal_strlit(" mille");
    reveal_strlit(" millions");
    reveal_strlit(" milliards");
    reveal_strlit(" Tausend");
    reveal_strlit(" Millionen");
    reveal_strlit(" Milliarden");
    reveal_strlit(" mil millones");
    reveal_strlit(" mil");
    reveal_strlit(" millones");
    reveal_strlit(" milhões");
    reveal_strlit(" bilhões");
    reveal_strlit("1 million");
    reveal_strlit("1 milliard");
    reveal_strlit("ein Tausend");
    reveal_strlit("eine Million");
    reveal_strlit("eine Milliarde");
    reveal_strlit("1 millón");
    reveal_strlit("1 milhão");
    reveal_strlit("1 bilhão");
    if count == 1 {
        assert(text::decimal(1) =~= seq!['1']);
    }
    assert(super::scaled(count, lang, scale) =~= round_number(count, scale, lang));
}

/// Round numbers are said as the grammar of the language has them.
pub proof fn round_numbers_follow_the_grammar(count: nat, lang: Lang)
    requires
        0 < count < 1000,
    ensures
        super::whole_reading(count * 1000, lang) == round_number(count, 1, lang) || count * 1000
            == 2000,
        super::whole_reading(count * 1_000_000, lang) == round_number(count, 2, lang),
        super::whole_reading(count * 1_000_000_000, lang) == round_number(count, 3, lang),
{
    scaled_is_a_round_number(count, 1, lang);
    scaled_is_a_round_number(count, 2, lang);
    scaled_is_a_round_number(count, 3, lang);
    let s1 = super::scaled(count, lang, 1);
    let s2 = super::scaled(count, lang, 2);
    let s3 = super::scaled(count, lang, 3);
    let a = count * 1000;
    assert(a / 1_000_000_000 == 0 && a / 1_000_000 == 0 && a / 1000 == count && a % 1000 == 0);
    assert(super::parts(a, lang) =~= seq![s1]);
    let b = count * 1_000_000;
    assert(b / 1_000_000_000 == 0 && b / 1_000_000 == count && b / 1000 == count * 1000);
    assert(super::parts(b, lang) =~= seq![s2]);
    let c = count * 1_000_000_000;
    assert(c / 1_000_000_000 == count && c / 1_000_000 == count * 1000 && c / 1000 == count
        * 1_000_000);
    assert(super::parts(c, lang) =~= seq![s3]);
    assert(text::joined(seq![s1], " "@) == s1);
    assert(text::joined(seq![s2], " "@) == s2);
    assert(text::joined(seq![s3], " "@) == s3);
}

/// Any other number is said amount by amount: what a number of a thousand or more and what a
/// smaller amount adds to it is said as both are, one behind the other.
pub proof fn amounts_are_said_one_by_one(
    milliards: nat,
    millions: nat,
    thousands: nat,
    units: nat,
    lang: Lang,
)
    requires
        milliards < 1000,
        millions < 1000,
        thousands < 1000,
        units < 1000,
        ({
            let value = milliards * 1_000_000_000 + millions * 1_000_000 + thousands * 1000 + units;
            value >= 1000 && !(1900 <= value < 2100)
        }),
    ensures
        super::whole_reading(
            milliards * 1_000_000_000 + millions * 1_000_000 + thousands * 1000 + units,
            lang,
        ) == text::joined(
            (if milliards > 0 {
                seq![round_number(milliards, 3, lang)]
            } else {
                Seq::empty()
            }) + (if millions > 0 {
                seq![round_number(millions, 2, lang)]
            } else {
                Seq::empty()
            }) + (if thousands > 0 {
                seq![round_number(thousands, 1, lang)]
            } else {
                Seq::empty()
            }) + (if units > 0 {
                seq![text::decimal(units)]
            } else {
                Seq::empty()
            }),
            " "@,
        ),
{
    let value = milliards * 1_000_000_000 + millions * 1_000_000 + thousands * 1000 + units;
    assert(value % 1000 == units);
    assert(value / 1000 == milliards * 1_000_000 + millions * 1000 + thousands);
    assert(value / 1000 % 1000 == thousands);
    assert(value / 1_000_000 == milliards * 1000 + millions);
    assert(value / 1_000_000 % 1000 == millions);
    assert(value / 1_000_000_000 == milliards);
    if milliards > 0 {
        scaled_is_a_round_number(milliards, 3, lang);
    }
    if millions > 0 {
        scaled_is_a_round_number(millions, 2, lang);
    }
    if thousands > 0 {
        scaled_is_a_round_number(thousands, 1, lang);
    }
}

/// Digits and dots, starting with a digit.
pub open spec fn dotted(word: Seq<char>) -> bool {
    &&& word.len() > 0
    &&& '0' <= word[0] <= '9'
    &&& forall|i: int| 0 <= i < word.len() ==> '0' <= #[trigger] word[i] <= '9' || word[i] == '.'
}

/// Behind each dot stand three digits, up to the next.
pub open spec fn in_threes(word: Seq<char>) -> bool {
    let groups = text::split(word, '.');
    forall|k: int| 1 <= k < groups.len() ==> (#[trigger] groups[k]).len() == 3
}

proof fn pieces_of_digits_and_dots(word: Seq<char>)
    requires
        forall|i: int| 0 <= i < word.len() ==> '0' <= #[trigger] word[i] <= '9' || word[i] == '.',
    ensures
        ({
            let groups = text::split(word, '.');
            &&& groups.len() >= 1
            &&& forall|k: int|
                0 <= k < groups.len() ==> text::utf8_len(#[trigger] groups[k]) == groups[k].len()
            &&& groups.len() > 1 <==> word.contains('.')
            &&& groups.last().len() > 0 ==> word.len() > 0 && word.last() != '.'
            &&& word.len() > 0 && word.last() != '.' ==> groups.last().len() > 0
        }),
        super::up_to_last(word, ',') is None,
    decreases word.len(),
{
    let groups = text::split(word, '.');
    if word.len() > 0 {
        let init = word.drop_last();
        assert forall|i: int| 0 <= i < init.len() implies '0' <= #[trigger] init[i] <= '9'
            || init[i] == '.' by {
            assert('0' <= word[i] <= '9' || word[i] == '.');
        }
        pieces_of_digits_and_dots(init);
        let before = text::split(init, '.');
        let last = word[word.len() - 1];
        assert('0' <= last <= '9' || last == '.');
        assert(init.push(last) =~= word);
        if last == '.' {
            assert(word.contains('.'));
            assert forall|k: int| 0 <= k < groups.len() implies text::utf8_len(#[trigger] groups[k])
                == groups[k].len() by {
                if k < before.len() {
                    assert(text::utf8_len(before[k]) == before[k].len());
                }
            }
        } else {
            let piece = before.last().push(last);
            assert(piece.drop_last() =~= before.last());
            assert(text::utf8_len(before[before.len() - 1]) == before.last().len());
            assert(text::utf8_len(piece) == piece.len());
            assert forall|k: int| 0 <= k < groups.len() implies text::utf8_len(#[trigger] groups[k])
                == groups[k].len() by {
                if k < before.len() - 1 {
                    assert(text::utf8_len(before[k]) == before[k].len());
                }
            }
            if word.contains('.') {
                let at = choose|at: int| 0 <= at < word.len() && word[at] == '.';
                assert(init[at] == '.');
            }
            if init.contains('.') {
                let at = choose|at: int| 0 <= at < init.len() && init[at] == '.';
                assert(word[at] == '.');
            }
        }
    }
}

/// Where the languages other than English and French group digits in threes with dots, the dots
/// are not said: the number is read as without them.
pub proof fn grouping_dots_are_not_said(word: Seq<char>, lang: Lang)
    requires
        lang == Lang::De || lang == Lang::Es || lang == Lang::Pt,
        dotted(word),
        word[0] != '0',
        word.contains('.'),
        in_threes(word),
    ensures
        super::number_reading(word, lang) == super::number_reading(super::only_digits(word), lang),
{
    let group = Some('.');
    let digits = super::only_digits(word);
    pieces_of_digits_and_dots(word);
    let groups = text::split(word, '.');
    assert(super::before_last(word, ',') == word);
    assert forall|k: int| 1 <= k < groups.len() implies text::utf8_len(#[trigger] groups[k])
        == 3 by {
        assert(groups[k].len() == 3);
    }
    assert(super::dots_group(word));
    assert(groups[groups.len() - 1].len() == 3);
    assert(word[word.len() - 1] != '.');
    super::digits_only(word);
    assert forall|i: int| 0 <= i < word.len() implies super::counted(#[trigger] word[i], group) by {
        assert('0' <= word[i] <= '9' || word[i] == '.');
    }
    super::whole_ends_at(word, group, word.len() as int, word.len() as int);
    assert(word.take(word.len() as int) =~= word);
    assert(word.skip(word.len() as int) =~= Seq::<char>::empty());
    super::digits_stand_alone(digits, None);
    assert(!super::dots_group(digits));
    assert(digits.take(digits.len() as int) =~= digits);
    assert(digits.skip(digits.len() as int) =~= Seq::<char>::empty());
    let q = super::quantity(word, lang)->0;
    let d = super::quantity(digits, lang)->0;
    assert(super::quantity(word, lang) is Some);
    assert(super::quantity(digits, lang) is Some);
    assert(q.value() == d.value());
    assert(super::reading(q, lang) == super::reading(d, lang));
}

/// Dots that do not group digits in threes make it no number: "1.23" and "1.2.3" are left as they
/// are outside English.
pub proof fn other_dots_make_no_number(word: Seq<char>, lang: Lang)
    requires
        lang != Lang::En,
        dotted(word),
        word.contains('.'),
        word.last() != '.',
        lang == Lang::Fr || !in_threes(word),
    ensures
        super::number_reading(word, lang) is None,
{
    pieces_of_digits_and_dots(word);
    let groups = text::split(word, '.');
    assert(super::before_last(word, ',') == word);
    if lang != Lang::Fr {
        let k = choose|k: int| 1 <= k < groups.len() && (#[trigger] groups[k]).len() != 3;
        assert(text::utf8_len(groups[k]) != 3);
        assert(!super::dots_group(word));
    }
    assert(super::group_mark(word, lang) is None);
    super::run_is_counted(word, None);
    let m = super::run(word, None) as int;
    let at = choose|at: int| 0 <= at < word.len() && word[at] == '.';
    assert(m <= at) by {
        if at < m {
            assert(super::counted(word[at], None));
        }
    }
    assert(word[m] == '.') by {
        assert('0' <= word[m] <= '9' || word[m] == '.');
    }
    let whole = super::ungrouped_end(word.take(m), None);
    assert(whole == word.take(m));
    let rest = word.skip(m);
    assert(rest[0] == '.');
    let last = word[word.len() - 1];
    assert('0' <= last <= '9');
    assert(rest[rest.len() - 1] == last);
    assert(!super::closing(rest[rest.len() - 1]));
    assert(!super::all_closing(rest));
}

/// What reading a number out gives back means the number that was written.
pub proof fn reading_out_keeps_the_number(word: &str, lang: Lang, value: nat, said: Option<String>)
    requires
        call_ensures(super::numbers, (word, lang), said),
        word@ == text::decimal(value),
    ensures
        match said {
            Some(said) => value < 1_000_000_000_000 && meant(said@, lang) == Some(value),
            None => value >= 1_000_000_000_000,
        },
{
    written_numbers_are_read(value, lang);
}

/// A word without a digit is no number, and is left as it is.
pub proof fn words_without_digits_are_left_alone(word: Seq<char>, lang: Lang)
    requires
        forall|i: int| 0 <= i < word.len() ==> !('0' <= #[trigger] word[i] <= '9'),
    ensures
        super::number_reading(word, lang) is None,
        forall|rules: Set<super::Rule>| #[trigger] super::rewritten(word, lang, rules) == word,
{
    if let Some(q) = super::quantity(word, lang) {
        let group = super::group_mark(word, lang);
        let body = if word.len() > 0 && word[0] == '-' {
            word.skip(1)
        } else {
            word
        };
        super::run_is_counted(body, group);
        let marks = body.take(super::run(body, group) as int);
        super::trimmed_marks(marks, group);
        let k = q.whole.len() as int;
        assert(k > 0);
        assert(super::counted(body[k - 1], group));
        assert(marks[k - 1] == body[k - 1]);
        assert(group != Some(body[k - 1]));
        assert(text::digit(body[k - 1]));
        let at = if word.len() > 0 && word[0] == '-' {
            k
        } else {
            k - 1
        };
        assert(word[at] == body[k - 1]);
    }
}

/// Words are rewritten each on its own: what is said of two texts, one behind the other, is what is
/// said of each.
pub proof fn words_are_rewritten_on_their_own(
    a: Seq<char>,
    b: Seq<char>,
    lang: Lang,
    rules: Set<super::Rule>,
)
    ensures
        super::all_rewritten(a + seq![' '] + b, lang, rules) == super::all_rewritten(a, lang, rules)
            + seq![' '] + super::all_rewritten(b, lang, rules),
{
    split_around(a, b);
    reveal_strlit(" ");
    assert(" "@ =~= seq![' ']);
    text::pieces_hold_no_separator(a, ' ');
    let x = super::words_of(a);
    let y = super::words_of(b);
    let said_x = Seq::new(x.len(), |i: int| super::rewritten(x[i], lang, rules));
    let said_y = Seq::new(y.len(), |i: int| super::rewritten(y[i], lang, rules));
    let all = x + y;
    let said = Seq::new(all.len(), |i: int| super::rewritten(all[i], lang, rules));
    assert(said =~= said_x + said_y);
    joined_around(said_x, said_y);
}

proof fn joined_around(x: Seq<Seq<char>>, y: Seq<Seq<char>>)
    requires
        x.len() > 0,
        y.len() > 0,
    ensures
        text::joined(x + y, " "@) == text::joined(x, " "@) + seq![' '] + text::joined(y, " "@),
    decreases y.len(),
{
    reveal_strlit(" ");
    assert(" "@ =~= seq![' ']);
    let all = x + y;
    assert(all.drop_last() =~= x + y.drop_last());
    assert(all.last() == y.last());
    if y.len() == 1 {
        assert(x + y.drop_last() =~= x);
        assert(text::joined(all, " "@) =~= text::joined(x, " "@) + seq![' '] + y[0]);
    } else {
        joined_around(x, y.drop_last());
        assert(text::joined(all, " "@) =~= text::joined(x, " "@) + seq![' '] + text::joined(
            y,
            " "@,
        ));
    }
}

/// A number with decimals and a sign is said as the language has it: the word for minus in front,
/// and the word for the decimal mark before the digits behind it, which are said as written.
pub proof fn signs_and_decimals_are_said(value: nat, digits: Seq<char>, lang: Lang)
    requires
        value < 1_000_000_000_000,
        digits.len() > 0,
        forall|i: int| 0 <= i < digits.len() ==> text::digit(#[trigger] digits[i]),
    ensures
        ({
            let mark = if lang == Lang::En {
                seq!['.']
            } else {
                seq![',']
            };
            let point = match lang {
                Lang::En => " point "@,
                Lang::Fr => " virgule "@,
                Lang::De => " Komma "@,
                Lang::Es => " coma "@,
                Lang::Pt => " vírgula "@,
            };
            let minus = match lang {
                Lang::En | Lang::De => "minus "@,
                Lang::Fr => "moins "@,
                Lang::Es | Lang::Pt => "menos "@,
            };
            let said = super::whole_reading(value, lang) + point + digits;
            let word = text::decimal(value) + mark + digits;
            &&& super::number_reading(word, lang) == Some(said)
            &&& super::number_reading(seq!['-'] + word, lang) == Some(minus + said)
        }),
{
    super::decimals_are_said_as_written(value, digits, lang);
    let word = text::decimal(value) + seq![super::decimal_mark(lang)] + digits;
    text::decimal_denotes_its_number(value);
    assert(text::digit(text::decimal(value)[0]));
    assert(word[0] == text::decimal(value)[0]);
    super::a_minus_sign_is_said(word, lang);
    reveal_strlit(" ");
    reveal_strlit("point");
    reveal_strlit("virgule");
    reveal_strlit("Komma");
    reveal_strlit("coma");
    reveal_strlit("vírgula");
    reveal_strlit(" point ");
    reveal_strlit(" virgule ");
    reveal_strlit(" Komma ");
    reveal_strlit(" coma ");
    reveal_strlit(" vírgula ");
    reveal_strlit("minus");
    reveal_strlit("moins");
    reveal_strlit("menos");
    reveal_strlit("minus ");
    reveal_strlit("moins ");
    reveal_strlit("menos ");
    let point = match lang {
        Lang::En => " point "@,
        Lang::Fr => " virgule "@,
        Lang::De => " Komma "@,
        Lang::Es => " coma "@,
        Lang::Pt => " vírgula "@,
    };
    let minus = match lang {
        Lang::En | Lang::De => "minus "@,
        Lang::Fr => "moins "@,
        Lang::Es | Lang::Pt => "menos "@,
    };
    assert(" "@ + lang.decimal_word() + " "@ =~= point);
    assert(super::minus_word(lang) + " "@ =~= minus);
    let whole = super::whole_reading(value, lang);
    assert(whole + " "@ + lang.decimal_word() + " "@ + digits =~= whole + (" "@
        + lang.decimal_word() + " "@) + digits);
    let said = whole + point + digits;
    assert(super::minus_word(lang) + " "@ + said =~= minus + said);
}

} // verus!
