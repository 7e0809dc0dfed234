//! Word-level rewrites, one whitespace-separated word at a time. The first rule that claims a
//! word wins, and rules are never chained.
use super::Lang;
use crate::error::{Error, Failure, Result};
use crate::text;
use vstd::prelude::*;
use vstd::slice::*;
use vstd::string::*;

pub mod denotation;

verus! {

/// Which of the rewrite rules run.
#[derive(Clone, Copy, Debug, PartialEq, Eq, Structural)]
pub struct Rules(u32);

/// The set of rules that a flag names: every rule, none, or those in a comma-separated list.
pub open spec fn rules_of(flag: Seq<char>) -> Option<Set<Rule>> {
    let flag = text::lowercase(text::trimmed(flag));
    if flag == "all"@ {
        Some(set![Rule::Numbers])
    } else if flag == "none"@ || flag == "off"@ {
        Some(Set::empty())
    } else if first_unknown(text::split(flag, ',')) is Some {
        None
    } else {
        Some(set![Rule::Numbers])
    }
}

/// The rules there are.
pub enum Rule {
    /// [`numbers`].
    Numbers,
}

/// The first of `names` that names no rule.
pub open spec fn first_unknown(names: Seq<Seq<char>>) -> Option<Seq<char>>
    decreases names.len(),
{
    if names.len() == 0 {
        None
    } else {
        match first_unknown(names.drop_last()) {
            Some(name) => Some(name),
            None => if text::trimmed(names.last()) == "numbers"@ {
                None
            } else {
                Some(names.last())
            },
        }
    }
}

/// What a flag that names an unknown rule is refused with.
pub open spec fn unknown_rule(flag: Seq<char>) -> Failure {
    let names = text::split(text::lowercase(text::trimmed(flag)), ',');
    Failure::InvalidArgument(
        "unknown rewrite rule: "@ + first_unknown(names)->0
            + "; expected all, none, or any of: numbers"@,
    )
}

impl View for Rules {
    type V = Set<Rule>;

    closed spec fn view(&self) -> Set<Rule> {
        if self.0 & 1 != 0 {
            set![Rule::Numbers]
        } else {
            Set::empty()
        }
    }
}

impl Rules {
    /// No rewrites: the character pass alone.
    pub fn none() -> (r: Self)
        ensures
            r@ == Set::<Rule>::empty(),
    {
        assert(0u32 & 1 == 0) by (bit_vector);
        Rules(0)
    }

    /// Every rule this version implements.
    pub fn all() -> (r: Self)
        ensures
            r@ == set![Rule::Numbers],
    {
        assert(1u32 & 1 != 0) by (bit_vector);
        Rules(1)
    }

    /// Whether [`numbers`] is one of the rules.
    fn has_numbers(self) -> (r: bool)
        ensures
            r == self@.contains(Rule::Numbers),
    {
        self.0 & 1 != 0
    }

    /// Parse the frontends' `--rewrites` flag: `all`, `none`, or a comma-separated list of rule
    /// names.
    pub fn parse(s: &str) -> (r: Result<Self>)
        ensures
            match r {
                Ok(rules) => rules_of(s@) == Some(rules@),
                Err(e) => rules_of(s@) is None && e@ == unknown_rule(s@),
            },
    {
        let trimmed = text::trim(&text::chars_of(s));
        let lower = text::string_of(&trimmed).to_lowercase();
        if text::same(lower.as_str(), "all") {
            return Ok(Rules::all());
        }
        if text::same(lower.as_str(), "none") || text::same(lower.as_str(), "off") {
            return Ok(Rules::none());
        }
        let ghost flag = text::lowercase(text::trimmed(s@));
        let ghost pieces = text::split(flag, ',');
        let names = text::split_on(&text::chars_of(lower.as_str()), ',');
        let mut i: usize = 0;
        assert(pieces.take(0) =~= Seq::<Seq<char>>::empty());
        while i < names.len()
            invariant
                i <= names@.len(),
                flag == text::lowercase(text::trimmed(s@)),
                flag != "all"@ && flag != "none"@ && flag != "off"@,
                pieces == text::split(flag, ','),
                names@.len() == pieces.len(),
                forall|k: int| 0 <= k < names@.len() ==> #[trigger] names@[k]@ == pieces[k],
                first_unknown(pieces.take(i as int)) is None,
            decreases names@.len() - i,
        {
            let bare = text::trim(&names[i]);
            assert(pieces.take(i + 1).drop_last() =~= pieces.take(i as int));
            if !text::same_chars(&bare, &text::chars_of("numbers")) {
                let name = text::string_of(&names[i]);
                proof {
                    first_unknown_stays(pieces, i + 1);
                }
                return Err(
                    Error::InvalidArgument(
                        text::glue3(
                            "unknown rewrite rule: ",
                            name.as_str(),
                            "; expected all, none, or any of: numbers",
                        ),
                    ),
                );
            }
            i += 1;
        }
        assert(pieces.take(i as int) =~= pieces);
        Ok(Rules::all())
    }
}

/// What the first names decide is not undone by later ones.
proof fn first_unknown_stays(names: Seq<Seq<char>>, k: int)
    requires
        0 <= k <= names.len(),
        first_unknown(names.take(k)) is Some,
    ensures
        first_unknown(names) == first_unknown(names.take(k)),
    decreases names.len(),
{
    if k == names.len() {
        assert(names.take(k) =~= names);
    } else {
        assert(names.drop_last().take(k) =~= names.take(k));
        first_unknown_stays(names.drop_last(), k);
    }
}

/// Rewrite `word` under `rules`, or `None` when no rule claims it.
pub fn rewrite_word(word: &str, lang: Lang, rules: Rules) -> (r: Option<String>)
    ensures
        match r {
            Some(w) => rules@.contains(Rule::Numbers) && number_reading(word@, lang) == Some(w@),
            None => rules@.contains(Rule::Numbers) ==> number_reading(word@, lang) is None,
        },
{
    if rules.has_numbers() {
        numbers(word, lang)
    } else {
        None
    }
}

/// A word under `rules`: rewritten, or as it was when no rule claims it.
pub open spec fn rewritten(word: Seq<char>, lang: Lang, rules: Set<Rule>) -> Seq<char> {
    if rules.contains(Rule::Numbers) {
        match number_reading(word, lang) {
            Some(said) => said,
            None => word,
        }
    } else {
        word
    }
}

/// The words of a normalized text.
pub open spec fn words_of(text: Seq<char>) -> Seq<Seq<char>> {
    text::split(text, ' ')
}

/// A normalized text with each of its words rewritten.
pub open spec fn all_rewritten(text: Seq<char>, lang: Lang, rules: Set<Rule>) -> Seq<char> {
    let words = words_of(text);
    text::joined(Seq::new(words.len(), |i: int| rewritten(words[i], lang, rules)), " "@)
}

/// Rewrite the words of a normalized text, one at a time.
pub fn rewrite_words(text: &str, lang: Lang, rules: Rules) -> (r: String)
    ensures
        r@ == all_rewritten(text@, lang, rules@),
{
    let words = text::split_on(&text::chars_of(text), ' ');
    let ghost said = Seq::new(
        words_of(text@).len(),
        |i: int| rewritten(words_of(text@)[i], lang, rules@),
    );
    let mut out: Vec<String> = Vec::new();
    for i in 0..words.len()
        invariant
            words@.len() == words_of(text@).len(),
            forall|k: int| 0 <= k < words@.len() ==> #[trigger] words@[k]@ == words_of(text@)[k],
            said == Seq::new(
                words_of(text@).len(),
                |i: int| rewritten(words_of(text@)[i], lang, rules@),
            ),
            text::texts(out@) == said.take(i as int),
    {
        let ghost before = out@;
        let word = text::string_of(&words[i]);
        let done = match rewrite_word(word.as_str(), lang, rules) {
            Some(w) => w,
            None => word,
        };
        out.push(done);
        assert(done@ == said[i as int]);
        assert(text::texts(out@) =~= text::texts(before).push(done@));
        assert(said.take(i + 1) =~= said.take(i as int).push(done@));
    }
    assert(said.take(words@.len() as int) =~= said);
    text::join(&out, " ")
}

/// Without rules a text stays as it is.
pub proof fn no_rules_change_nothing(text: Seq<char>, lang: Lang)
    ensures
        all_rewritten(text, lang, Set::empty()) == text,
{
    let words = words_of(text);
    assert(Seq::new(words.len(), |i: int| rewritten(words[i], lang, Set::empty())) =~= words);
    reveal_strlit(" ");
    assert(" "@ =~= seq![' ']);
    text::pieces_join_again(text, ' ');
}

/// The punctuation that a rule carries through at the end of a word.
pub open spec fn closing(c: char) -> bool {
    c == '!' || c == '?' || c == '.' || c == ':' || c == ',' || c == ';' || c == '…'
}

/// `s` is nothing but closing punctuation.
pub open spec fn all_closing(s: Seq<char>) -> bool {
    forall|i: int| 0 <= i < s.len() ==> closing(#[trigger] s[i])
}

/// What stands before the last `c` in `s`, or all of it.
pub open spec fn before_last(s: Seq<char>, c: char) -> Seq<char> {
    match up_to_last(s, c) {
        Some(before) => before,
        None => s,
    }
}

/// What stands before the last `c` in `s`, if there is one.
pub open spec fn up_to_last(s: Seq<char>, c: char) -> Option<Seq<char>>
    decreases s.len(),
{
    if s.len() == 0 {
        None
    } else if s.last() == c {
        Some(s.drop_last())
    } else {
        up_to_last(s.drop_last(), c)
    }
}

/// Dots group the digits of `word`: before the last comma there is one, and behind each stand
/// three bytes up to the next.
pub open spec fn dots_group(word: Seq<char>) -> bool {
    let groups = text::split(before_last(word, ','), '.');
    groups.len() > 1 && forall|k: int|
        1 <= k < groups.len() ==> text::utf8_len(#[trigger] groups[k]) == 3
}

/// The mark between groups of digits in `word`, if the language has one there.
pub open spec fn group_mark(word: Seq<char>, lang: Lang) -> Option<char> {
    match lang {
        Lang::En => Some(','),
        Lang::Fr => None,
        _ => if dots_group(word) {
            Some('.')
        } else {
            None
        },
    }
}

/// The decimal mark.
pub open spec fn decimal_mark(lang: Lang) -> char {
    if lang == Lang::En {
        '.'
    } else {
        ','
    }
}

/// How many characters at the start of `s` are digits or the group mark.
pub open spec fn run(s: Seq<char>, group: Option<char>) -> nat
    decreases s.len(),
{
    if s.len() > 0 && (text::digit(s[0]) || group == Some(s[0])) {
        1 + run(s.skip(1), group)
    } else {
        0
    }
}

/// `s` without the group marks at its end.
pub open spec fn ungrouped_end(s: Seq<char>, group: Option<char>) -> Seq<char>
    decreases s.len(),
{
    if s.len() > 0 && group == Some(s.last()) {
        ungrouped_end(s.drop_last(), group)
    } else {
        s
    }
}

/// The digits of `s`.
pub open spec fn only_digits(s: Seq<char>) -> Seq<char>
    decreases s.len(),
{
    if s.len() == 0 {
        s
    } else if text::digit(s.last()) {
        only_digits(s.drop_last()).push(s.last())
    } else {
        only_digits(s.drop_last())
    }
}

/// A word taken apart as a written number.
pub struct Quantity {
    pub negative: bool,
    /// The digits before the decimal mark, with the group marks among them.
    pub whole: Seq<char>,
    /// The digits behind the decimal mark.
    pub decimals: Option<Seq<char>>,
    /// The punctuation behind the number.
    pub suffix: Seq<char>,
}

impl Quantity {
    /// The number before the decimal mark.
    pub open spec fn value(self) -> nat {
        text::decimal_value(only_digits(self.whole))
    }
}

/// `word` taken apart as a number written in `lang`, if it is one.
pub open spec fn quantity(word: Seq<char>, lang: Lang) -> Option<Quantity> {
    let group = group_mark(word, lang);
    let negative = word.len() > 0 && word[0] == '-';
    let body = if negative {
        word.skip(1)
    } else {
        word
    };
    let whole = ungrouped_end(body.take(run(body, group) as int), group);
    let rest = body.skip(whole.len() as int);
    let n = if rest.len() > 0 && rest[0] == decimal_mark(lang) {
        run(rest.skip(1), None)
    } else {
        0
    };
    let suffix = if n > 0 {
        rest.skip(1 + n as int)
    } else {
        rest
    };
    if word.len() >= 2 && word[0] == '0' && text::digit(word[1]) {
        None
    } else if whole.len() == 0 || !all_closing(suffix) {
        None
    } else {
        Some(
            Quantity {
                negative,
                whole,
                decimals: if n > 0 {
                    Some(rest.subrange(1, 1 + n as int))
                } else {
                    None
                },
                suffix,
            },
        )
    }
}

/// The scale words from a milliard down to a thousand, as a count of one and of more.
pub open spec fn scale_word(lang: Lang, scale: int, one: bool) -> Seq<char> {
    match lang {
        Lang::En => if scale == 3 {
            "billion"@
        } else if scale == 2 {
            "million"@
        } else {
            "thousand"@
        },
        Lang::Fr => if scale == 3 {
            if one {
                "milliard"@
            } else {
                "milliards"@
            }
        } else if scale == 2 {
            if one {
                "million"@
            } else {
                "millions"@
            }
        } else {
            "mille"@
        },
        Lang::De => if scale == 3 {
            if one {
                "Milliarde"@
            } else {
                "Milliarden"@
            }
        } else if scale == 2 {
            if one {
                "Million"@
            } else {
                "Millionen"@
            }
        } else {
            "Tausend"@
        },
        Lang::Es => if scale == 3 {
            "mil millones"@
        } else if scale == 2 {
            if one {
                "millón"@
            } else {
                "millones"@
            }
        } else {
            "mil"@
        },
        Lang::Pt => if scale == 3 {
            if one {
                "bilhão"@
            } else {
                "bilhões"@
            }
        } else if scale == 2 {
            if one {
                "milhão"@
            } else {
                "milhões"@
            }
        } else {
            "mil"@
        },
    }
}

/// What stands before a scale word that is counted once: nothing before "mille" and "mil", which
/// are numeral adjectives, and an article in German, with the gender of the scale noun.
pub open spec fn one_before(lang: Lang, scale: int) -> Seq<char> {
    match lang {
        Lang::En => "1 "@,
        Lang::De => if scale == 1 {
            "ein "@
        } else {
            "eine "@
        },
        _ => if scale == 1 {
            ""@
        } else {
            "1 "@
        },
    }
}

/// How `count` thousands, millions or milliards are said.
pub open spec fn scaled(count: nat, lang: Lang, scale: int) -> Seq<char> {
    if count == 1 {
        one_before(lang, scale) + scale_word(lang, scale, true)
    } else {
        text::decimal(count) + " "@ + scale_word(lang, scale, false)
    }
}

/// A part that is said, unless it counts nothing.
pub open spec fn part(count: nat, said: Seq<char>) -> Seq<Seq<char>> {
    if count == 0 {
        Seq::empty()
    } else {
        seq![said]
    }
}

/// The parts a number is said in: its milliards, millions, thousands, and what is left.
pub open spec fn parts(value: nat, lang: Lang) -> Seq<Seq<char>> {
    let milliards = value / 1_000_000_000 % 1000;
    let millions = value / 1_000_000 % 1000;
    let thousands = value / 1000 % 1000;
    let units = value % 1000;
    part(milliards, scaled(milliards, lang, 3)) + part(millions, scaled(millions, lang, 2)) + part(
        thousands,
        scaled(thousands, lang, 1),
    ) + part(units, text::decimal(units))
}

/// The numbers that stay as digits: those under a thousand, and the years.
pub open spec fn stays_digits(value: nat) -> bool {
    value < 1000 || 1900 <= value < 2100
}

/// How a whole number is said.
pub open spec fn whole_reading(value: nat, lang: Lang) -> Seq<char> {
    if stays_digits(value) {
        text::decimal(value)
    } else {
        text::joined(parts(value, lang), " "@)
    }
}

/// How the sign of a negative number is said.
pub open spec fn minus_word(lang: Lang) -> Seq<char> {
    match lang {
        Lang::Fr => "moins"@,
        Lang::Es | Lang::Pt => "menos"@,
        _ => "minus"@,
    }
}

/// How a quantity is said, with its suffix behind it.
pub open spec fn reading(q: Quantity, lang: Lang) -> Seq<char> {
    let sign = if q.negative {
        minus_word(lang) + " "@
    } else {
        Seq::empty()
    };
    let decimals = match q.decimals {
        Some(d) => " "@ + lang.decimal_word() + " "@ + d,
        None => Seq::empty(),
    };
    sign + whole_reading(q.value(), lang) + decimals + q.suffix
}

/// How `word` is said as a number, if it is one below a trillion.
pub open spec fn number_reading(word: Seq<char>, lang: Lang) -> Option<Seq<char>> {
    match quantity(word, lang) {
        Some(q) => if q.value() < 1_000_000_000_000 {
            Some(reading(q, lang))
        } else {
            None
        },
        None => None,
    }
}

/// Whether `s` is nothing but closing punctuation: anything else means that a rule did not
/// account for the whole word and must not fire.
fn is_suffix(s: &[char]) -> (r: bool)
    ensures
        r == all_closing(s@),
{
    for i in 0..s.len()
        invariant
            forall|j: int| 0 <= j < i ==> closing(#[trigger] s@[j]),
    {
        let c = s[i];
        if !(c == '!' || c == '?' || c == '.' || c == ':' || c == ',' || c == ';' || c == '…') {
            assert(!closing(s@[i as int]));
            return false;
        }
    }
    true
}

/// The length of what stands before the last `c` in `s`, or of all of it.
fn len_before_last(s: &[char], c: char) -> (r: usize)
    ensures
        r <= s@.len(),
        s@.take(r as int) == before_last(s@, c),
{
    let mut i: usize = s.len();
    assert(s@.take(i as int) =~= s@);
    while i > 0
        invariant
            i <= s@.len(),
            up_to_last(s@, c) == up_to_last(s@.take(i as int), c),
        decreases i,
    {
        assert(s@.take(i as int).drop_last() =~= s@.take(i - 1));
        if s[i - 1] == c {
            return i - 1;
        }
        i -= 1;
    }
    assert(s@.take(s@.len() as int) =~= s@);
    s.len()
}

/// Whether dots group the digits of `word`.
fn has_dot_groups(word: &[char]) -> (r: bool)
    ensures
        r == dots_group(word@),
{
    let end = len_before_last(word, ',');
    let groups = text::split_on(slice_subrange(word, 0, end), '.');
    assert(word@.subrange(0, end as int) =~= word@.take(end as int));
    let ghost spec_groups = text::split(before_last(word@, ','), '.');
    if groups.len() <= 1 {
        return false;
    }
    let mut i: usize = 1;
    while i < groups.len()
        invariant
            1 <= i <= groups@.len(),
            spec_groups == text::split(before_last(word@, ','), '.'),
            groups@.len() == spec_groups.len(),
            forall|k: int| 0 <= k < groups@.len() ==> #[trigger] groups@[k]@ == spec_groups[k],
            forall|k: int| 1 <= k < i ==> text::utf8_len(#[trigger] spec_groups[k]) == 3,
        decreases groups@.len() - i,
    {
        if !text::has_utf8_len(&groups[i], 3) {
            assert(text::utf8_len(spec_groups[i as int]) != 3);
            return false;
        }
        i += 1;
    }
    true
}

/// How many characters from position `from` on are digits or the group mark.
fn run_from(s: &[char], from: usize, group: Option<char>) -> (r: usize)
    requires
        from <= s@.len(),
    ensures
        r == run(s@.skip(from as int), group),
        from + r <= s@.len(),
{
    let mut i: usize = from;
    while i < s.len() && (text::is_digit(s[i]) || group == Some(s[i]))
        invariant
            from <= i <= s@.len(),
            run(s@.skip(from as int), group) == (i - from) + run(s@.skip(i as int), group),
        decreases s@.len() - i,
    {
        assert(s@.skip(i as int).skip(1) =~= s@.skip(i + 1));
        i += 1;
    }
    i - from
}

/// The digits of `s`.
fn digits_of(s: &[char]) -> (r: Vec<char>)
    ensures
        r@ == only_digits(s@),
        forall|i: int| 0 <= i < r@.len() ==> text::digit(#[trigger] r@[i]),
{
    let mut r: Vec<char> = Vec::new();
    assert(s@.take(0) =~= Seq::<char>::empty());
    for i in 0..s.len()
        invariant
            r@ == only_digits(s@.take(i as int)),
            forall|j: int| 0 <= j < r@.len() ==> text::digit(#[trigger] r@[j]),
    {
        assert(s@.take(i + 1).drop_last() =~= s@.take(i as int));
        if text::is_digit(s[i]) {
            r.push(s[i]);
        }
    }
    assert(s@.take(s@.len() as int) =~= s@);
    r
}

/// A start of a run of digits denotes no more than the whole.
proof fn value_grows(s: Seq<char>, k: int)
    requires
        0 <= k <= s.len(),
        forall|i: int| 0 <= i < s.len() ==> text::digit(#[trigger] s[i]),
    ensures
        text::decimal_value(s.take(k)) <= text::decimal_value(s),
    decreases s.len(),
{
    if k == s.len() {
        assert(s.take(k) =~= s);
    } else {
        assert(s.drop_last().take(k) =~= s.take(k));
        value_grows(s.drop_last(), k);
        assert(text::digit(s[s.len() - 1]));
    }
}

/// The number that `digits` denote, if it is below a trillion.
fn value_of(digits: &[char]) -> (r: Option<u64>)
    requires
        forall|i: int| 0 <= i < digits@.len() ==> text::digit(#[trigger] digits@[i]),
    ensures
        match r {
            Some(v) => v == text::decimal_value(digits@) && v < 1_000_000_000_000,
            None => text::decimal_value(digits@) >= 1_000_000_000_000,
        },
{
    let mut v: u64 = 0;
    let mut i: usize = 0;
    assert(digits@.take(0) =~= Seq::<char>::empty());
    while i < digits.len()
        invariant
            i <= digits@.len(),
            v < 1_000_000_000_000,
            v == text::decimal_value(digits@.take(i as int)),
            forall|j: int| 0 <= j < digits@.len() ==> text::digit(#[trigger] digits@[j]),
        decreases digits@.len() - i,
    {
        assert(digits@.take(i + 1).drop_last() =~= digits@.take(i as int));
        assert(text::digit(digits@[i as int]));
        let d: u32 = digits[i] as u32 - 48;
        v = v * 10 + d as u64;
        i += 1;
        if v >= 1_000_000_000_000 {
            proof {
                value_grows(digits@, i as int);
            }
            return None;
        }
    }
    assert(digits@.take(digits@.len() as int) =~= digits@);
    Some(v)
}

/// A scale word, for a count of one or of more.
fn scale_text(lang: Lang, scale: u8, one: bool) -> (r: &'static str)
    requires
        1 <= scale <= 3,
    ensures
        r@ == scale_word(lang, scale as int, one),
{
    match lang {
        Lang::En => if scale == 3 {
            "billion"
        } else if scale == 2 {
            "million"
        } else {
            "thousand"
        },
        Lang::Fr => if scale == 3 {
            if one {
                "milliard"
            } else {
                "milliards"
            }
        } else if scale == 2 {
            if one {
                "million"
            } else {
                "millions"
            }
        } else {
            "mille"
        },
        Lang::De => if scale == 3 {
            if one {
                "Milliarde"
            } else {
                "Milliarden"
            }
        } else if scale == 2 {
            if one {
                "Million"
            } else {
                "Millionen"
            }
        } else {
            "Tausend"
        },
        Lang::Es => if scale == 3 {
            "mil millones"
        } else if scale == 2 {
            if one {
                "millón"
            } else {
                "millones"
            }
        } else {
            "mil"
        },
        Lang::Pt => if scale == 3 {
            if one {
                "bilhão"
            } else {
                "bilhões"
            }
        } else if scale == 2 {
            if one {
                "milhão"
            } else {
                "milhões"
            }
        } else {
            "mil"
        },
    }
}

/// How `count` thousands, millions or milliards are said.
fn scaled_text(count: u64, lang: Lang, scale: u8) -> (r: String)
    requires
        1 <= scale <= 3,
    ensures
        r@ == scaled(count as nat, lang, scale as int),
{
    if count == 1 {
        let before = match lang {
            Lang::En => "1 ",
            Lang::De => if scale == 1 {
                "ein "
            } else {
                "eine "
            },
            _ => if scale == 1 {
                ""
            } else {
                "1 "
            },
        };
        text::glue2(before, scale_text(lang, scale, true))
    } else {
        text::glue3(text::decimal_of(count).as_str(), " ", scale_text(lang, scale, false))
    }
}

/// How a whole number is said.
fn whole_text(value: u64, lang: Lang) -> (r: String)
    requires
        value < 1_000_000_000_000,
    ensures
        r@ == whole_reading(value as nat, lang),
{
    if value < 1000 || (1900 <= value && value < 2100) {
        return text::decimal_of(value);
    }
    let milliards: u64 = value / 1_000_000_000 % 1000;
    let millions: u64 = value / 1_000_000 % 1000;
    let thousands: u64 = value / 1000 % 1000;
    let units: u64 = value % 1000;
    let mut said: Vec<String> = Vec::new();
    if milliards != 0 {
        said.push(scaled_text(milliards, lang, 3));
    }
    if millions != 0 {
        said.push(scaled_text(millions, lang, 2));
    }
    if thousands != 0 {
        said.push(scaled_text(thousands, lang, 1));
    }
    if units != 0 {
        said.push(text::decimal_of(units));
    }
    assert(text::texts(said@) =~= parts(value as nat, lang));
    text::join(&said, " ")
}

/// Large numbers with their scale words: "1,234.56" becomes "1 thousand 234 point 56", and in
/// French "1234,56" becomes "mille 234 virgule 56". Values under a thousand and years stay as
/// digits, and a leading zero marks a code, not a quantity.
///
/// English groups thousands with commas and marks decimals with a dot. French does neither. The
/// other three mark decimals with a comma and may group with dots, but a dot only groups when
/// every group after the first has three digits: "1.234" is a thousand, "1.23" is not a number
/// at all.
pub fn numbers(word: &str, lang: Lang) -> (r: Option<String>)
    ensures
        match r {
            Some(w) => number_reading(word@, lang) == Some(w@),
            None => number_reading(word@, lang) is None,
        },
{
    let all = text::chars_of(word);
    let chars = all.as_slice();
    if chars.len() >= 2 && chars[0] == '0' && text::is_digit(chars[1]) {
        return None;
    }
    let group: Option<char> = match lang {
        Lang::En => Some(','),
        Lang::Fr => None,
        _ => if has_dot_groups(chars) {
            Some('.')
        } else {
            None
        },
    };
    let point = match lang {
        Lang::En => '.',
        _ => ',',
    };
    let negative = chars.len() > 0 && chars[0] == '-';
    let body: &[char] = if negative {
        slice_subrange(chars, 1, chars.len())
    } else {
        chars
    };
    let ghost spec_body = if negative {
        word@.skip(1)
    } else {
        word@
    };
    assert(body@ =~= spec_body);
    assert(body@.skip(0) =~= body@);
    let mut end = run_from(body, 0, group);
    let ghost spec_end = end;
    while end > 0 && group == Some(body[end - 1])
        invariant
            end <= spec_end <= body@.len(),
            ungrouped_end(body@.take(end as int), group) == ungrouped_end(
                body@.take(spec_end as int),
                group,
            ),
        decreases end,
    {
        assert(body@.take(end as int).drop_last() =~= body@.take(end - 1));
        end -= 1;
    }
    let whole = slice_subrange(body, 0, end);
    assert(whole@ =~= body@.take(end as int));
    if whole.len() == 0 {
        return None;
    }
    let rest = slice_subrange(body, end, body.len());
    assert(rest@ =~= body@.skip(end as int));
    let n: usize = if rest.len() > 0 && rest[0] == point {
        run_from(rest, 1, None)
    } else {
        0
    };
    let suffix: &[char] = if n > 0 {
        slice_subrange(rest, 1 + n, rest.len())
    } else {
        rest
    };
    assert(n > 0 ==> suffix@ =~= rest@.skip(1 + n));
    if !is_suffix(suffix) {
        return None;
    }
    let ghost q = quantity(word@, lang)->0;
    assert(quantity(word@, lang) is Some);
    let digits = digits_of(whole);
    let value = match value_of(&digits) {
        Some(v) => v,
        None => {
            return None;
        },
    };
    let mut words = if negative {
        let minus = match lang {
            Lang::Fr => "moins",
            Lang::Es | Lang::Pt => "menos",
            _ => "minus",
        };
        text::glue2(minus, " ")
    } else {
        String::new()
    };
    words.append(whole_text(value, lang).as_str());
    if n > 0 {
        let mut decimals = text::glue3(" ", lang.decimal_separator(), " ");
        decimals.append(text::string_of(slice_subrange(rest, 1, 1 + n)).as_str());
        words.append(decimals.as_str());
    }
    words.append(text::string_of(suffix).as_str());
    assert(words@ =~= reading(q, lang));
    Some(words)
}

/// A leading zero marks a code, not a quantity: such a word is never read as a number.
pub proof fn codes_are_left_alone(word: Seq<char>, lang: Lang)
    requires
        word.len() >= 2,
        word[0] == '0',
        text::digit(word[1]),
    ensures
        number_reading(word, lang) is None,
{
}

/// The parts a number is said in account for all of it.
pub proof fn parts_add_up(value: nat)
    requires
        value < 1_000_000_000_000,
    ensures
        (value / 1_000_000_000 % 1000) * 1_000_000_000 + (value / 1_000_000 % 1000) * 1_000_000 + (
        value / 1000 % 1000) * 1000 + value % 1000 == value,
{
    let v = value as int;
    let a = v / 1000;
    let b = a / 1000;
    let c = b / 1000;
    vstd::arithmetic::div_mod::lemma_div_denominator(v, 1000, 1000);
    vstd::arithmetic::div_mod::lemma_div_denominator(v, 1_000_000, 1000);
    assert(v / 1_000_000 == b && v / 1_000_000_000 == c);
    assert(v == a * 1000 + v % 1000);
    assert(a == b * 1000 + a % 1000);
    assert(b == c * 1000 + b % 1000);
    assert(c < 1000 && c % 1000 == c);
}

/// The end that is taken off is all group marks, so what is left is a start.
proof fn ungrouped_end_is_a_start(s: Seq<char>, group: Option<char>)
    ensures
        ungrouped_end(s, group).len() <= s.len(),
        ungrouped_end(s, group) == s.take(ungrouped_end(s, group).len() as int),
    decreases s.len(),
{
    if s.len() > 0 && group == Some(s.last()) {
        ungrouped_end_is_a_start(s.drop_last(), group);
        let k = ungrouped_end(s, group).len() as int;
        assert(s.drop_last().take(k) =~= s.take(k));
    } else {
        assert(s.take(s.len() as int) =~= s);
    }
}

/// A run lies within the text.
proof fn run_is_within(s: Seq<char>, group: Option<char>)
    ensures
        run(s, group) <= s.len(),
    decreases s.len(),
{
    if s.len() > 0 {
        run_is_within(s.skip(1), group);
    }
}

/// The rule accounts for the whole word: sign, digits, decimals and closing punctuation, in this
/// order and with nothing between them.
pub proof fn a_quantity_is_the_whole_word(word: Seq<char>, lang: Lang)
    ensures
        quantity(word, lang) matches Some(q) ==> {
            let sign = if q.negative {
                seq!['-']
            } else {
                Seq::empty()
            };
            let decimals = match q.decimals {
                Some(d) => seq![decimal_mark(lang)] + d,
                None => Seq::empty(),
            };
            word == sign + q.whole + decimals + q.suffix && all_closing(q.suffix)
        },
{
    if let Some(q) = quantity(word, lang) {
        let group = group_mark(word, lang);
        let body = if q.negative {
            word.skip(1)
        } else {
            word
        };
        run_is_within(body, group);
        ungrouped_end_is_a_start(body.take(run(body, group) as int), group);
        let rest = body.skip(q.whole.len() as int);
        assert(body =~= q.whole + rest);
        if rest.len() > 0 {
            run_is_within(rest.skip(1), None);
        }
        let sign = if q.negative {
            seq!['-']
        } else {
            Seq::empty()
        };
        let decimals = match q.decimals {
            Some(d) => seq![decimal_mark(lang)] + d,
            None => Seq::empty(),
        };
        assert(rest =~= decimals + q.suffix);
        assert(word =~= sign + body);
        assert(word =~= sign + q.whole + decimals + q.suffix);
    }
}

/// In a run of digits, nothing is cut off, split or filtered out.
proof fn digits_stand_alone(s: Seq<char>, group: Option<char>)
    requires
        forall|i: int| 0 <= i < s.len() ==> text::digit(#[trigger] s[i]),
        group matches Some(g) ==> !text::digit(g),
    ensures
        run(s, group) == s.len(),
        ungrouped_end(s, group) == s,
        only_digits(s) == s,
        up_to_last(s, ',') is None,
        text::split(s, '.').len() == 1,
    decreases s.len(),
{
    if s.len() > 0 {
        assert(text::digit(s[0]));
        assert(text::digit(s[s.len() - 1]));
        let init = s.drop_last();
        assert forall|i: int| 0 <= i < init.len() implies text::digit(#[trigger] init[i]) by {
            assert(text::digit(s[i]));
        }
        digits_stand_alone(init, group);
        let tail = s.skip(1);
        assert forall|i: int| 0 <= i < tail.len() implies text::digit(#[trigger] tail[i]) by {
            assert(text::digit(s[i + 1]));
        }
        digits_stand_alone(tail, group);
        assert(init.push(s.last()) =~= s);
    }
}

/// A value under a thousand, or a year, written in digits is read as those digits, in every
/// language.
pub proof fn small_numbers_and_years_stay_digits(value: nat, lang: Lang)
    requires
        stays_digits(value),
    ensures
        number_reading(text::decimal(value), lang) == Some(text::decimal(value)),
{
    let word = text::decimal(value);
    let group = group_mark(word, lang);
    text::decimal_denotes_its_number(value);
    assert(text::digit(word[0]));
    if word.len() >= 2 && word[0] == '0' {
        assert(value == 0);
        assert(text::decimal(0).len() == 1);
    }
    digits_stand_alone(word, None);
    assert(!dots_group(word));
    digits_stand_alone(word, group);
    assert(word.take(word.len() as int) =~= word);
    assert(word.skip(word.len() as int) =~= Seq::<char>::empty());
    let q = quantity(word, lang)->0;
    assert(q.whole == word);
    assert(reading(q, lang) =~= word);
}

/// A minus sign in front of a number is said in front of it.
pub proof fn a_minus_sign_is_said(word: Seq<char>, lang: Lang)
    requires
        number_reading(word, lang) is Some,
        word[0] != '-',
    ensures
        number_reading(seq!['-'] + word, lang) == Some(
            minus_word(lang) + " "@ + number_reading(word, lang)->0,
        ),
{
    let signed = seq!['-'] + word;
    let q = quantity(word, lang)->0;
    assert(word.len() > 0) by {
        if word.len() == 0 {
            assert(word.take(0) =~= word);
        }
    }
    assert(signed.skip(1) =~= word);
    signs_do_not_group(word);
    assert(group_mark(signed, lang) == group_mark(word, lang));
    let with = quantity(signed, lang)->0;
    assert(with == (Quantity { negative: true, ..q }));
    assert(reading(with, lang) =~= minus_word(lang) + " "@ + reading(q, lang));
}

/// A sign in front of a word does not change whether dots group its digits.
proof fn signs_do_not_group(word: Seq<char>)
    ensures
        dots_group(seq!['-'] + word) == dots_group(word),
{
    let signed = seq!['-'] + word;
    let before = before_last(word, ',');
    sign_before_last(word);
    sign_in_first_piece(before);
    let groups = text::split(before, '.');
    let signed_groups = text::split(seq!['-'] + before, '.');
    if dots_group(word) {
        assert forall|k: int| 1 <= k < signed_groups.len() implies text::utf8_len(
            #[trigger] signed_groups[k],
        ) == 3 by {
            assert(text::utf8_len(groups[k]) == 3);
        }
    }
    if dots_group(signed) {
        assert forall|k: int| 1 <= k < groups.len() implies text::utf8_len(#[trigger] groups[k])
            == 3 by {
            assert(text::utf8_len(signed_groups[k]) == 3);
        }
    }
}

proof fn sign_before_last(word: Seq<char>)
    ensures
        before_last(seq!['-'] + word, ',') == seq!['-'] + before_last(word, ','),
        up_to_last(seq!['-'] + word, ',') is Some == up_to_last(word, ',') is Some,
    decreases word.len(),
{
    let signed = seq!['-'] + word;
    if word.len() == 0 {
        assert(signed.drop_last() =~= Seq::<char>::empty());
        assert(up_to_last(signed.drop_last(), ',') is None);
    } else {
        assert(signed.drop_last() =~= seq!['-'] + word.drop_last());
        sign_before_last(word.drop_last());
        if word.last() != ',' && up_to_last(word, ',') is None {
            assert(up_to_last(signed, ',') is None);
        }
    }
}

proof fn sign_in_first_piece(s: Seq<char>)
    ensures
        ({
            let pieces = text::split(s, '.');
            let signed = text::split(seq!['-'] + s, '.');
            &&& pieces.len() >= 1
            &&& signed.len() == pieces.len()
            &&& forall|k: int| 1 <= k < pieces.len() ==> #[trigger] signed[k] == pieces[k]
        }),
    decreases s.len(),
{
    let signed = seq!['-'] + s;
    if s.len() == 0 {
        assert(signed.drop_last() =~= Seq::<char>::empty());
        assert(text::split(signed.drop_last(), '.').len() == 1);
    } else {
        assert(signed.drop_last() =~= seq!['-'] + s.drop_last());
        sign_in_first_piece(s.drop_last());
    }
}

/// `c` is a digit or the group mark.
spec fn counted(c: char, group: Option<char>) -> bool {
    text::digit(c) || group == Some(c)
}

/// A run ends where it is said to.
proof fn run_ends_at(s: Seq<char>, group: Option<char>, m: int)
    requires
        0 <= m <= s.len(),
        forall|i: int| 0 <= i < m ==> counted(#[trigger] s[i], group),
        m < s.len() ==> !counted(s[m], group),
    ensures
        run(s, group) == m,
    decreases m,
{
    if m > 0 {
        assert(counted(s[0], group));
        let rest = s.skip(1);
        assert forall|i: int| 0 <= i < m - 1 implies counted(#[trigger] rest[i], group) by {
            assert(counted(s[i + 1], group));
        }
        run_ends_at(rest, group, m - 1);
    }
}

/// What a run is made of.
proof fn run_is_counted(s: Seq<char>, group: Option<char>)
    ensures
        run(s, group) <= s.len(),
        forall|i: int| 0 <= i < run(s, group) ==> counted(#[trigger] s[i], group),
        run(s, group) < s.len() ==> !counted(s[run(s, group) as int], group),
    decreases s.len(),
{
    if s.len() > 0 && counted(s[0], group) {
        let rest = s.skip(1);
        run_is_counted(rest, group);
        assert forall|i: int| 0 <= i < run(s, group) implies counted(#[trigger] s[i], group) by {
            if i > 0 {
                assert(counted(rest[i - 1], group));
            }
        }
        if run(s, group) < s.len() {
            assert(rest[run(rest, group) as int] == s[run(s, group) as int]);
        }
    }
}

/// Behind what is kept of a run stand group marks, and none at its end.
proof fn trimmed_marks(s: Seq<char>, group: Option<char>)
    ensures
        ({
            let k = ungrouped_end(s, group).len();
            &&& k <= s.len()
            &&& ungrouped_end(s, group) == s.take(k as int)
            &&& k > 0 ==> group != Some(s[k - 1])
            &&& forall|i: int| k <= i < s.len() ==> group == Some(#[trigger] s[i])
        }),
    decreases s.len(),
{
    ungrouped_end_is_a_start(s, group);
    if s.len() > 0 && group == Some(s.last()) {
        let init = s.drop_last();
        trimmed_marks(init, group);
        let k = ungrouped_end(s, group).len();
        assert forall|i: int| k <= i < s.len() implies group == Some(#[trigger] s[i]) by {
            if i < init.len() {
                assert(group == Some(init[i]));
            }
        }
        if k > 0 {
            assert(init[k - 1] == s[k - 1]);
        }
    }
}

/// Trimming stops where it is said to.
proof fn trimming_stops_at(s: Seq<char>, group: Option<char>, k: int)
    requires
        0 <= k <= s.len(),
        k > 0 ==> group != Some(s[k - 1]),
        forall|i: int| k <= i < s.len() ==> group == Some(#[trigger] s[i]),
    ensures
        ungrouped_end(s, group) == s.take(k),
    decreases s.len(),
{
    if k < s.len() {
        assert(group == Some(s[s.len() - 1]));
        let init = s.drop_last();
        assert forall|i: int| k <= i < init.len() implies group == Some(#[trigger] init[i]) by {
            assert(group == Some(s[i]));
        }
        trimming_stops_at(init, group, k);
        assert(init.take(k) =~= s.take(k));
    } else {
        assert(s.take(k) =~= s);
    }
}

/// The whole part of a number ends where it is said to: behind it only group marks are counted.
proof fn whole_ends_at(body: Seq<char>, group: Option<char>, k: int, m: int)
    requires
        0 <= k <= m <= body.len(),
        forall|i: int| 0 <= i < k ==> counted(#[trigger] body[i], group),
        k > 0 ==> group != Some(body[k - 1]),
        forall|i: int| k <= i < m ==> group == Some(#[trigger] body[i]),
        m < body.len() ==> !counted(body[m], group),
    ensures
        ungrouped_end(body.take(run(body, group) as int), group) == body.take(k),
{
    assert forall|i: int| 0 <= i < m implies counted(#[trigger] body[i], group) by {}
    run_ends_at(body, group, m);
    let all = body.take(m);
    assert forall|i: int| k <= i < all.len() implies group == Some(#[trigger] all[i]) by {
        assert(group == Some(body[i]));
    }
    trimming_stops_at(all, group, k);
    assert(all.take(k) =~= body.take(k));
}

/// Punctuation behind a number is carried through: one more closing mark is said as it stands.
///
/// The exception is a language that groups digits with dots. There the dots of "1.234" no longer
/// group once a mark follows them.
#[verifier::rlimit(60)]
pub proof fn closing_punctuation_is_carried_through(word: Seq<char>, c: char, lang: Lang)
    requires
        number_reading(word, lang) is Some,
        closing(c),
        only_digits(quantity(word, lang)->0.whole) == quantity(word, lang)->0.whole || group_mark(
            word.push(c),
            lang,
        ) == group_mark(word, lang),
    ensures
        number_reading(word.push(c), lang) == Some(number_reading(word, lang)->0.push(c)),
{
    let more = word.push(c);
    let q = quantity(word, lang)->0;
    let group = group_mark(word, lang);
    let group2 = group_mark(more, lang);
    let negative = word.len() > 0 && word[0] == '-';
    let body = if negative {
        word.skip(1)
    } else {
        word
    };
    let body2 = body.push(c);
    run_is_counted(body, group);
    let run_text = body.take(run(body, group) as int);
    trimmed_marks(run_text, group);
    let k = q.whole.len() as int;
    let m = run(body, group) as int;
    assert(word.len() > 0);
    assert((if negative {
        more.skip(1)
    } else {
        more
    }) =~= body2);
    assert(q.whole =~= body.take(k));
    assert forall|i: int| 0 <= i < k implies counted(#[trigger] body2[i], group2) by {
        assert(counted(body[i], group));
        if group2 != group {
            digits_are_kept(q.whole, i);
            assert(text::digit(q.whole[i]));
        }
    }
    if k > 0 && group2 != group {
        digits_are_kept(q.whole, k - 1);
    }
    assert(k > 0 ==> group2 != Some(body2[k - 1])) by {
        assert(q.whole[k - 1] == run_text[k - 1]);
    }
    let rest = body.skip(k);
    let rest2 = body2.skip(k);
    assert(rest2 =~= rest.push(c));
    let n = if rest.len() > 0 && rest[0] == decimal_mark(lang) {
        run(rest.skip(1), None)
    } else {
        0
    };
    if rest.len() > 0 {
        run_is_counted(rest.skip(1), None);
    }
    if group2 == group {
        assert forall|i: int| k <= i < m implies group == Some(#[trigger] body[i]) by {
            assert(group == Some(run_text[i]));
        }
        let m2 = if m == body.len() && group == Some(c) {
            m + 1
        } else {
            m
        };
        assert forall|i: int| k <= i < m2 implies group2 == Some(#[trigger] body2[i]) by {
            if i < m {
                assert(group == Some(body[i]));
            }
        }
        whole_ends_at(body2, group2, k, m2);
    } else {
        run_is_counted(rest2, group2);
        let j = run(rest2, group2) as int;
        assert forall|i: int| k <= i < k + j implies group2 == Some(#[trigger] body2[i]) by {
            assert(counted(rest2[i - k], group2));
            if n > 0 {
                assert(j == 0) by {
                    assert(rest2[0] == decimal_mark(lang));
                }
            } else {
                assert(closing(rest2[i - k])) by {
                    if i - k < rest.len() {
                        assert(closing(rest[i - k]));
                    }
                }
            }
        }
        if k + j < body2.len() {
            assert(rest2[j] == body2[k + j]);
        }
        whole_ends_at(body2, group2, k, k + j);
    }
    assert(body2.take(k) =~= q.whole);
    let n2 = if rest2.len() > 0 && rest2[0] == decimal_mark(lang) {
        run(rest2.skip(1), None)
    } else {
        0
    };
    assert(n2 == n) by {
        if rest2[0] == decimal_mark(lang) {
            let tail = rest2.skip(1);
            if rest.len() > 0 {
                assert(tail =~= rest.skip(1).push(c));
                assert forall|i: int| 0 <= i < n implies counted(#[trigger] tail[i], None) by {
                    assert(counted(rest.skip(1)[i], None));
                }
                run_ends_at(tail, None, n as int);
            } else {
                run_ends_at(tail, None, 0);
            }
        }
    }
    let with = quantity(more, lang)->0;
    if n > 0 {
        assert(rest2.skip(1 + n as int) =~= q.suffix.push(c));
        assert(rest2.subrange(1, 1 + n as int) =~= rest.subrange(1, 1 + n as int));
    } else {
        assert(rest2 =~= q.suffix.push(c));
    }
    assert forall|i: int| 0 <= i < q.suffix.push(c).len() implies closing(
        #[trigger] q.suffix.push(c)[i],
    ) by {
        if i < q.suffix.len() {
            assert(closing(q.suffix[i]));
        }
    }
    assert(!(more[0] == '0' && text::digit(more[1]))) by {
        if word.len() >= 2 {
            assert(more[1] == word[1]);
        } else {
            assert(more[1] == c);
        }
    }
    assert(with == (Quantity { suffix: q.suffix.push(c), ..q }));
    assert(reading(with, lang) =~= reading(q, lang).push(c));
}

/// What is all digits has a digit everywhere.
proof fn digits_are_kept(s: Seq<char>, i: int)
    requires
        only_digits(s) == s,
        0 <= i < s.len(),
    ensures
        text::digit(s[i]),
{
    digits_only(s);
    assert(text::digit(only_digits(s)[i]));
}

/// Filtered digits are digits, and no more than there were characters.
proof fn digits_only(s: Seq<char>)
    ensures
        only_digits(s).len() <= s.len(),
        forall|i: int| 0 <= i < only_digits(s).len() ==> text::digit(#[trigger] only_digits(s)[i]),
        s.len() > 0 && text::digit(s[0]) ==> only_digits(s).len() > 0 && only_digits(s)[0] == s[0],
    decreases s.len(),
{
    if s.len() > 0 {
        digits_only(s.drop_last());
    }
}

/// What stands before the decimal mark is before the last comma, when only digits follow it.
proof fn last_comma_is_the_mark(before: Seq<char>, digits: Seq<char>)
    requires
        forall|i: int| 0 <= i < digits.len() ==> text::digit(#[trigger] digits[i]),
    ensures
        up_to_last(before + seq![','] + digits, ',') == Some(before),
    decreases digits.len(),
{
    let all = before + seq![','] + digits;
    if digits.len() == 0 {
        assert(all.drop_last() =~= before);
    } else {
        assert(text::digit(digits[digits.len() - 1]));
        assert(all.last() == digits.last());
        let less = digits.drop_last();
        assert forall|i: int| 0 <= i < less.len() implies text::digit(#[trigger] less[i]) by {
            assert(text::digit(digits[i]));
        }
        assert(all.drop_last() =~= before + seq![','] + less);
        last_comma_is_the_mark(before, less);
    }
}

/// Decimals are said digit by digit, as they are written, behind the language's word for the
/// mark.
pub proof fn decimals_are_said_as_written(value: nat, digits: Seq<char>, lang: Lang)
    requires
        value < 1_000_000_000_000,
        digits.len() > 0,
        forall|i: int| 0 <= i < digits.len() ==> text::digit(#[trigger] digits[i]),
    ensures
        number_reading(text::decimal(value) + seq![decimal_mark(lang)] + digits, lang) == Some(
            whole_reading(value, lang) + " "@ + lang.decimal_word() + " "@ + digits,
        ),
{
    let whole = text::decimal(value);
    let mark = decimal_mark(lang);
    let word = whole + seq![mark] + digits;
    text::decimal_denotes_its_number(value);
    let k = whole.len() as int;
    digits_stand_alone(whole, None);
    if lang != Lang::En {
        last_comma_is_the_mark(whole, digits);
        assert(before_last(word, ',') == whole);
        assert(!dots_group(word));
    }
    let group = group_mark(word, lang);
    assert(text::digit(whole[0]));
    assert(word[0] == whole[0]);
    assert(!(word[0] == '0' && text::digit(word[1]))) by {
        if word[0] == '0' {
            assert(value == 0);
            assert(text::decimal(0).len() == 1);
            assert(word[1] == mark);
        }
    }
    assert forall|i: int| 0 <= i < k implies counted(#[trigger] word[i], group) by {
        assert(text::digit(whole[i]));
    }
    assert(text::digit(whole[k - 1]));
    assert(word[k] == mark);
    whole_ends_at(word, group, k, k);
    assert(word.take(k) =~= whole);
    let rest = word.skip(k);
    assert(rest.skip(1) =~= digits);
    digits_stand_alone(digits, None);
    assert(rest.subrange(1, 1 + digits.len() as int) =~= digits);
    assert(rest.skip(1 + digits.len() as int) =~= Seq::<char>::empty());
    let q = quantity(word, lang)->0;
    assert(q == (Quantity {
        negative: false,
        whole,
        decimals: Some(digits),
        suffix: Seq::empty(),
    }));
    assert(reading(q, lang) =~= whole_reading(value, lang) + " "@ + lang.decimal_word() + " "@
        + digits);
}

/// In English, commas between digits only group them: the number is read as without them.
pub proof fn grouping_commas_are_not_said(word: Seq<char>)
    requires
        word.len() > 0,
        forall|i: int| 0 <= i < word.len() ==> text::digit(#[trigger] word[i]) || word[i] == ',',
        text::digit(word[0]) && word[0] != '0',
        text::digit(word.last()),
    ensures
        number_reading(word, Lang::En) == number_reading(only_digits(word), Lang::En),
{
    let group = Some(',');
    let digits = only_digits(word);
    digits_only(word);
    assert forall|i: int| 0 <= i < word.len() implies counted(#[trigger] word[i], group) by {}
    whole_ends_at(word, group, word.len() as int, word.len() as int);
    assert(word.take(word.len() as int) =~= word);
    assert(word.skip(word.len() as int) =~= Seq::<char>::empty());
    digits_stand_alone(digits, group);
    assert(digits.take(digits.len() as int) =~= digits);
    assert(digits.skip(digits.len() as int) =~= Seq::<char>::empty());
    assert(quantity(word, Lang::En) is Some);
    assert(quantity(digits, Lang::En) is Some);
    let q = quantity(word, Lang::En)->0;
    let d = quantity(digits, Lang::En)->0;
    assert(q.value() == d.value());
    assert(reading(q, Lang::En) == reading(d, Lang::En));
}

} // verus!
