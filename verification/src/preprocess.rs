//! Text normalization applied before tokenization.
//!
//! The model is trained on ordinary written prose, so characters it never saw -- typographic
//! quotes, bullets, arrows, emoji -- are best removed rather than tokenized, and symbols that
//! are read aloud (`@`, `+`, `=`) are best spelled out in the target language. [`normalize_text`]
//! does both, driven by a [`Lang`].
//!
//! This is deliberately conservative: it does not expand numbers, dates or abbreviations, which
//! the model handles natively.
//!
//! Every caller says which language, or says not to normalize. There is no default,
//! deliberately: normalizing German as English speaks `@` as "at" rather than "ät", so guessing
//! the language is worse than doing nothing.
use crate::error::{Error, Failure, Result};
use crate::text;
use std::borrow::Cow;
use vstd::prelude::*;
use vstd::string::*;
use vstd::utf8::*;

pub mod rewrite;
pub mod survival;

verus! {

/// Spoken forms of the punctuation characters that are read aloud rather than dropped.
#[derive(Debug, Clone, Copy)]
pub struct SpecialChars {
    pub colon: &'static str,
    pub slash: &'static str,
    pub dash: &'static str,
    pub dot: &'static str,
    pub at: &'static str,
    pub plus: &'static str,
    pub equals: &'static str,
}

/// Language driving the spoken forms used by [`normalize_text`].
///
/// Deliberately has no default: the spoken forms differ per language, so a caller that has not
/// said which language it has is better off not normalizing at all. See [`Normalize`].
#[derive(Clone, Copy, Debug, PartialEq, Eq, Structural)]
pub enum Lang {
    En,
    Fr,
    De,
    Es,
    Pt,
}

/// Whether to normalize, and in which language.
///
/// [`Normalize::Off`] is the way to say "hand the text to the tokenizer as written", which is
/// for callers that normalize it themselves.
#[derive(Clone, Copy, Debug, PartialEq, Eq, Structural)]
pub enum Normalize {
    For(Lang),
    Off,
}

impl Lang {
    /// The code a language goes by.
    pub open spec fn code(self) -> Seq<char> {
        match self {
            Lang::En => "en"@,
            Lang::Fr => "fr"@,
            Lang::De => "de"@,
            Lang::Es => "es"@,
            Lang::Pt => "pt"@,
        }
    }

    /// How `@` is spoken.
    pub open spec fn at_word(self) -> Seq<char> {
        match self {
            Lang::En => "at"@,
            Lang::Fr => "arobaze"@,
            Lang::De => "ät"@,
            Lang::Es => "arroba"@,
            Lang::Pt => "arroba"@,
        }
    }

    /// How `+` is spoken.
    pub open spec fn plus_word(self) -> Seq<char> {
        match self {
            Lang::En => "plus"@,
            Lang::Fr => "plus"@,
            Lang::De => "Plus"@,
            Lang::Es => "mas"@,
            Lang::Pt => "mais"@,
        }
    }

    /// How `=` is spoken.
    pub open spec fn equals_word(self) -> Seq<char> {
        match self {
            Lang::En => "equals"@,
            Lang::Fr => "égal"@,
            Lang::De => "Gleich"@,
            Lang::Es => "igual"@,
            Lang::Pt => "igual"@,
        }
    }

    /// How the decimal mark is spoken.
    pub open spec fn decimal_word(self) -> Seq<char> {
        match self {
            Lang::En => "point"@,
            Lang::Fr => "virgule"@,
            Lang::De => "Komma"@,
            Lang::Es => "coma"@,
            Lang::Pt => "vírgula"@,
        }
    }

    /// How an amount of dollars is named.
    pub open spec fn dollar_word(self, one: bool) -> Seq<char> {
        match self {
            Lang::En | Lang::Fr => if one {
                "dollar"@
            } else {
                "dollars"@
            },
            Lang::De => "Dollar"@,
            Lang::Es | Lang::Pt => if one {
                "dólar"@
            } else {
                "dólares"@
            },
        }
    }

    /// How an amount of euros is named.
    pub open spec fn euro_word(self, one: bool) -> Seq<char> {
        match self {
            Lang::En | Lang::Fr | Lang::Es | Lang::Pt => if one {
                "euro"@
            } else {
                "euros"@
            },
            Lang::De => "Euro"@,
        }
    }

    /// How an amount of pounds is named.
    pub open spec fn pound_word(self, one: bool) -> Seq<char> {
        match self {
            Lang::En => if one {
                "pound"@
            } else {
                "pounds"@
            },
            Lang::Fr => if one {
                "livre"@
            } else {
                "livres"@
            },
            Lang::De => "Pfund"@,
            Lang::Es | Lang::Pt => if one {
                "libra"@
            } else {
                "libras"@
            },
        }
    }

    /// How the currency behind a symbol is named.
    pub open spec fn currency_word(self, symbol: char, one: bool) -> Option<Seq<char>> {
        if symbol == '$' {
            Some(self.dollar_word(one))
        } else if symbol == '€' {
            Some(self.euro_word(one))
        } else if symbol == '£' {
            Some(self.pound_word(one))
        } else {
            None
        }
    }
}

/// The language that a code names, in either case.
pub open spec fn lang_of(code: Seq<char>) -> Option<Lang> {
    let code = text::lowercase(code);
    if code == Lang::En.code() {
        Some(Lang::En)
    } else if code == Lang::Fr.code() {
        Some(Lang::Fr)
    } else if code == Lang::De.code() {
        Some(Lang::De)
    } else if code == Lang::Es.code() {
        Some(Lang::Es)
    } else if code == Lang::Pt.code() {
        Some(Lang::Pt)
    } else {
        None
    }
}

/// What a code that names no language is refused with.
pub open spec fn unknown_lang(code: Seq<char>) -> Failure {
    Failure::InvalidArgument(
        "unsupported language code: "@ + code
            + "; expected en, fr, de, es, pt, or none to skip normalization"@,
    )
}

impl std::str::FromStr for Lang {
    type Err = Error;

    fn from_str(s: &str) -> (r: Result<Self>)
        ensures
            match r {
                Ok(lang) => lang_of(s@) == Some(lang),
                Err(e) => lang_of(s@) is None && e@ == unknown_lang(s@),
            },
    {
        let lower = s.to_lowercase();
        let code = lower.as_str();
        if text::same(code, "en") {
            Ok(Lang::En)
        } else if text::same(code, "fr") {
            Ok(Lang::Fr)
        } else if text::same(code, "de") {
            Ok(Lang::De)
        } else if text::same(code, "es") {
            Ok(Lang::Es)
        } else if text::same(code, "pt") {
            Ok(Lang::Pt)
        } else {
            Err(
                Error::InvalidArgument(
                    text::glue3(
                        "unsupported language code: ",
                        s,
                        "; expected en, fr, de, es, pt, or none to skip normalization",
                    ),
                ),
            )
        }
    }
}

impl Lang {
    /// The language code this variant parses from.
    pub fn as_str(self) -> (r: &'static str)
        ensures
            r@ == self.code(),
    {
        match self {
            Lang::En => "en",
            Lang::Fr => "fr",
            Lang::De => "de",
            Lang::Es => "es",
            Lang::Pt => "pt",
        }
    }

    /// The spoken forms of this language.
    pub fn special_chars(self) -> (r: SpecialChars)
        ensures
            r.at@ == self.at_word(),
            r.plus@ == self.plus_word(),
            r.equals@ == self.equals_word(),
            r.colon@ == (match self {
                Lang::En => "colon"@,
                Lang::Fr => "deux-points"@,
                Lang::De => "Doppelpunkt"@,
                Lang::Es => "dos-puntos"@,
                Lang::Pt => "dois-pontos"@,
            }),
            r.slash@ == (if self == Lang::De {
                "Slash"@
            } else {
                "slash"@
            }),
            r.dash@ == (match self {
                Lang::En => "dash"@,
                Lang::Fr => "tiret"@,
                Lang::De => "Bindestrich"@,
                Lang::Es => "guion"@,
                Lang::Pt => "hifen"@,
            }),
            r.dot@ == (match self {
                Lang::En => "dot"@,
                Lang::Fr => "point"@,
                Lang::De => "Punkt"@,
                Lang::Es => "punto"@,
                Lang::Pt => "ponto"@,
            }),
    {
        match self {
            Lang::En => SpecialChars {
                colon: "colon",
                slash: "slash",
                dash: "dash",
                dot: "dot",
                at: "at",
                plus: "plus",
                equals: "equals",
            },
            Lang::Fr => SpecialChars {
                colon: "deux-points",
                slash: "slash",
                dash: "tiret",
                dot: "point",
                at: "arobaze",
                plus: "plus",
                equals: "égal",
            },
            Lang::De => SpecialChars {
                colon: "Doppelpunkt",
                slash: "Slash",
                dash: "Bindestrich",
                dot: "Punkt",
                at: "ät",
                plus: "Plus",
                equals: "Gleich",
            },
            Lang::Es => SpecialChars {
                colon: "dos-puntos",
                slash: "slash",
                dash: "guion",
                dot: "punto",
                at: "arroba",
                plus: "mas",
                equals: "igual",
            },
            Lang::Pt => SpecialChars {
                colon: "dois-pontos",
                slash: "slash",
                dash: "hifen",
                dot: "ponto",
                at: "arroba",
                plus: "mais",
                equals: "igual",
            },
        }
    }

    /// How the decimal mark is spoken.
    pub fn decimal_separator(self) -> (r: &'static str)
        ensures
            r@ == self.decimal_word(),
    {
        match self {
            Lang::En => "point",
            Lang::Fr => "virgule",
            Lang::De => "Komma",
            Lang::Es => "coma",
            Lang::Pt => "vírgula",
        }
    }

    /// How `_` is spoken.
    pub fn underscore(self) -> (r: &'static str)
        ensures
            r@ == (match self {
                Lang::En | Lang::Fr | Lang::Pt => "underscore"@,
                Lang::De => "Unterstrich"@,
                Lang::Es => "guion bajo"@,
            }),
    {
        match self {
            Lang::En | Lang::Fr | Lang::Pt => "underscore",
            Lang::De => "Unterstrich",
            Lang::Es => "guion bajo",
        }
    }

    /// Several dollars.
    pub fn dollars(self) -> (r: &'static str)
        ensures
            r@ == self.dollar_word(false),
    {
        match self {
            Lang::En | Lang::Fr => "dollars",
            Lang::De => "Dollar",
            Lang::Es | Lang::Pt => "dólares",
        }
    }

    /// One dollar.
    pub fn dollars_singular(self) -> (r: &'static str)
        ensures
            r@ == self.dollar_word(true),
    {
        match self {
            Lang::En | Lang::Fr => "dollar",
            Lang::De => "Dollar",
            Lang::Es | Lang::Pt => "dólar",
        }
    }

    /// Several euros.
    pub fn euros(self) -> (r: &'static str)
        ensures
            r@ == self.euro_word(false),
    {
        match self {
            Lang::En | Lang::Fr | Lang::Es | Lang::Pt => "euros",
            Lang::De => "Euro",
        }
    }

    /// One euro.
    pub fn euros_singular(self) -> (r: &'static str)
        ensures
            r@ == self.euro_word(true),
    {
        match self {
            Lang::En | Lang::Fr | Lang::Es | Lang::Pt => "euro",
            Lang::De => "Euro",
        }
    }

    /// Several pounds.
    pub fn pounds(self) -> (r: &'static str)
        ensures
            r@ == self.pound_word(false),
    {
        match self {
            Lang::En => "pounds",
            Lang::Fr => "livres",
            Lang::De => "Pfund",
            Lang::Es | Lang::Pt => "libras",
        }
    }

    /// One pound.
    pub fn pounds_singular(self) -> (r: &'static str)
        ensures
            r@ == self.pound_word(true),
    {
        match self {
            Lang::En => "pound",
            Lang::Fr => "livre",
            Lang::De => "Pfund",
            Lang::Es | Lang::Pt => "libra",
        }
    }

    /// Several units of the currency behind `symbol`, if it is one that has a name here.
    pub fn currency(&self, symbol: char) -> (r: Option<&'static str>)
        ensures
            match r {
                Some(w) => self.currency_word(symbol, false) == Some(w@),
                None => self.currency_word(symbol, false) is None,
            },
    {
        match symbol {
            '$' => Some(self.dollars()),
            '€' => Some(self.euros()),
            '£' => Some(self.pounds()),
            _ => None,
        }
    }

    /// One unit of the currency behind `symbol`, if it is one that has a name here.
    pub fn currency_singular(&self, symbol: char) -> (r: Option<&'static str>)
        ensures
            match r {
                Some(w) => self.currency_word(symbol, true) == Some(w@),
                None => self.currency_word(symbol, true) is None,
            },
    {
        match symbol {
            '$' => Some(self.dollars_singular()),
            '€' => Some(self.euros_singular()),
            '£' => Some(self.pounds_singular()),
            _ => None,
        }
    }
}

/// The policy that a flag names: a language code, or `none` / `off`.
pub open spec fn policy_of(flag: Seq<char>) -> Option<Normalize> {
    let flag = text::lowercase(flag);
    if flag == "none"@ || flag == "off"@ {
        Some(Normalize::Off)
    } else {
        match lang_of(flag) {
            Some(lang) => Some(Normalize::For(lang)),
            None => None,
        }
    }
}

impl Normalize {
    /// How a policy is spelled.
    pub open spec fn spelling(self) -> Seq<char> {
        match self {
            Normalize::For(lang) => lang.code(),
            Normalize::Off => "none"@,
        }
    }

    /// Parse what the frontends' `--lang` flag accepts: a language code, or `none` / `off`.
    pub fn parse(s: &str) -> (r: Result<Self>)
        ensures
            match r {
                Ok(policy) => policy_of(s@) == Some(policy),
                Err(e) => policy_of(s@) is None && e@ == unknown_lang(text::lowercase(s@)),
            },
    {
        let lower = s.to_lowercase();
        let flag = lower.as_str();
        if text::same(flag, "none") || text::same(flag, "off") {
            return Ok(Normalize::Off);
        }
        match <Lang as std::str::FromStr>::from_str(flag) {
            Ok(lang) => Ok(Normalize::For(lang)),
            Err(e) => Err(e),
        }
    }

    /// How this policy spells itself back, round-tripping through [`Self::parse`].
    pub fn as_str(self) -> (r: &'static str)
        ensures
            r@ == self.spelling(),
    {
        match self {
            Normalize::For(lang) => lang.as_str(),
            Normalize::Off => "none",
        }
    }

    /// Normalize `text`, or hand it back untouched when this is [`Self::Off`].
    ///
    /// Borrows when off, so opting out costs no allocation per request.
    ///
    /// This has to run before the prompt is prepared, which pads short text with leading spaces
    /// that normalization would collapse away.
    pub fn apply<'a>(self, text: &'a str) -> (r: Cow<'a, str>)
        ensures
            match self {
                Normalize::Off => r matches Cow::Borrowed(t) && t@ == text@,
                Normalize::For(lang) => r matches Cow::Owned(t) && t@ == normalized(text@, lang),
            },
    {
        match self {
            Normalize::Off => Cow::Borrowed(text),
            Normalize::For(lang) => Cow::Owned(normalize_text(text, lang)),
        }
    }
}

/// Every language parses back from its code, and every policy from its spelling; `off` is
/// another name for no normalization.
pub proof fn policies_round_trip(lang: Lang, policy: Normalize)
    ensures
        lang_of(lang.code()) == Some(lang),
        policy_of(policy.spelling()) == Some(policy),
        policy_of("off"@) == Some(Normalize::Off),
{
    reveal_strlit("en");
    reveal_strlit("fr");
    reveal_strlit("de");
    reveal_strlit("es");
    reveal_strlit("pt");
    reveal_strlit("none");
    reveal_strlit("off");
    assert(Lang::En.code()[0] == 'e' && Lang::En.code()[1] == 'n');
    assert(Lang::Fr.code()[0] == 'f');
    assert(Lang::De.code()[0] == 'd');
    assert(Lang::Es.code()[0] == 'e' && Lang::Es.code()[1] == 's');
    assert(Lang::Pt.code()[0] == 'p');
    assert("none"@[0] == 'n');
    assert("off"@[0] == 'o');
    assert forall|l: Lang| #[trigger] text::lowercase(l.code()) == l.code() by {
        assert(text::ascii_lowercase(l.code()) =~= l.code());
    }
    assert(text::ascii_lowercase("none"@) =~= "none"@);
    assert(text::ascii_lowercase("off"@) =~= "off"@);
    assert(text::lowercase(lang.code()) == lang.code());
    match policy {
        Normalize::For(l) => {
            assert(text::lowercase(l.code()) == l.code());
        },
        Normalize::Off => {},
    }
}

/// The emoji that are dropped: pictographs, symbols, and the letters that flags are made of.
pub open spec fn emoji(c: char) -> bool {
    let n = c as u32;
    ||| 0x1F300 <= n <= 0x1FAFF
    ||| 0x2600 <= n <= 0x27BF
    ||| 0x1F1E6 <= n <= 0x1F1FF
    ||| 0x1F170 <= n <= 0x1F171
    ||| 0x1F17E <= n <= 0x1F17F
    ||| 0x1F191 <= n <= 0x1F19A
    ||| 0x1F201 <= n <= 0x1F202
    ||| 0x1F232 <= n <= 0x1F23A
    ||| 0x1F250 <= n <= 0x1F251
    ||| 0x231A <= n <= 0x231B
    ||| 0x23E9 <= n <= 0x23F3
    ||| 0x23F8 <= n <= 0x23FA
    ||| 0x25FD <= n <= 0x25FE
    ||| 0x2B1B <= n <= 0x2B1C
    ||| n == 0x1F004 || n == 0x1F0CF || n == 0x1F18E || n == 0x1F21A || n == 0x1F22F
    ||| n == 0x2B50 || n == 0x2B55
}

/// The marks that hold an emoji of several characters together: the joiner, the variation
/// selector, the keycap and the tags. Elsewhere they are characters like any other.
pub open spec fn joining_mark(c: char) -> bool {
    let n = c as u32;
    ||| 0xE0020 <= n <= 0xE007F
    ||| n == 0x200D || n == 0x20E3 || n == 0xFE0F
}

/// What a keycap can be drawn around.
pub open spec fn keycap_base(c: char) -> bool {
    ('0' <= c && c <= '9') || c == '#' || c == '*'
}

/// The marks that turn a character into a keycap.
pub open spec fn keycap_mark(c: char) -> bool {
    c as u32 == 0x20E3 || c as u32 == 0xFE0F
}

/// What the text so far ends in, as far as emoji go.
#[derive(Clone, Copy, Debug, PartialEq, Eq, Structural)]
pub enum Ending {
    /// Neither of the others.
    Plain,
    /// A character that a keycap can be drawn around.
    Base,
    /// An emoji.
    Emoji,
}

/// The character `c` belongs to the emoji that it stands behind.
pub open spec fn joined(before: Ending, c: char) -> bool {
    match before {
        Ending::Plain => false,
        Ending::Base => keycap_mark(c),
        Ending::Emoji => joining_mark(c),
    }
}

/// What the text ends in with `c` behind it.
pub open spec fn ending_with(before: Ending, c: char) -> Ending {
    if emoji(c) || joined(before, c) {
        Ending::Emoji
    } else if keycap_base(c) {
        Ending::Base
    } else {
        Ending::Plain
    }
}

/// What a text ends in.
pub open spec fn ending(s: Seq<char>) -> Ending
    decreases s.len(),
{
    if s.len() == 0 {
        Ending::Plain
    } else {
        ending_with(ending(s.drop_last()), s.last())
    }
}

/// Arrows.
pub open spec fn arrow(c: char) -> bool {
    let n = c as u32;
    ||| 0x2190 <= n <= 0x21FF
    ||| 0x27F0 <= n <= 0x27FF
    ||| 0x2900 <= n <= 0x297F
    ||| 0x2B00 <= n <= 0x2B11
    ||| 0x2B30 <= n <= 0x2B4F
    ||| 0x2B5A <= n <= 0x2B73
    ||| 0x2B76 <= n <= 0x2B95
    ||| 0x2B98 <= n <= 0x2BB8
}

/// Bullets, and the geometric shapes that lists are bulleted with.
pub open spec fn bullet(c: char) -> bool {
    ||| c == '•' || c == '‣' || c == '◦' || c == '·' || c == '⁃' || c == '⁌' || c == '⁍'
    ||| c == '∙' || c == '⦾' || c == '⦿' || c == '◘' || c == '●' || c == '○' || c == '■'
    ||| c == '□' || c == '▪' || c == '▫' || c == '◆' || c == '◇' || c == '▸' || c == '►'
}

/// Double quotes, and the angle quotes of both kinds.
pub open spec fn quote_mark(c: char) -> bool {
    ||| c == '"' || c == '“' || c == '”' || c == '„' || c == '‟' || c == '«' || c == '»'
    ||| c == '‹' || c == '›' || c == '〝' || c == '〞' || c == '〟' || c == '＂'
}

/// Single quotes other than the apostrophe itself.
pub open spec fn single_quote(c: char) -> bool {
    c == '’' || c == '‘' || c == '‚' || c == '‛' || c == '＇'
}

/// Hyphens, and the dashes that are written like them.
pub open spec fn hyphen(c: char) -> bool {
    c == '‐' || c == '‑' || c == '‒' || c == '―' || c == '﹣' || c == '－'
}

/// The dashes that part words.
pub open spec fn long_dash(c: char) -> bool {
    c == '–' || c == '—' || c == '⸺' || c == '⸻' || c == '﹘'
}

/// What one input character asks for.
pub enum Action {
    /// A gap between words.
    Gap,
    /// This character.
    Keep(char),
    /// This word, with gaps around it.
    Say(Seq<char>),
    /// A comma, right behind the word before it.
    Pause,
}

/// What the character `c` asks for in `lang`.
pub open spec fn action_of(c: char, lang: Lang) -> Action {
    if quote_mark(c) || long_dash(c) || bullet(c) || arrow(c) {
        Action::Gap
    } else if c == '*' || c == '[' || c == ']' || c == '{' || c == '}' {
        Action::Gap
    } else if single_quote(c) {
        Action::Keep('\'')
    } else if hyphen(c) {
        Action::Keep('-')
    } else if c == '…' {
        Action::Keep('.')
    } else if c == '@' {
        Action::Say(lang.at_word())
    } else if c == '+' {
        Action::Say(lang.plus_word())
    } else if c == '=' {
        Action::Say(lang.equals_word())
    } else if c == ';' || c == ':' || c == '(' || c == ')' {
        Action::Pause
    } else if emoji(c) || text::control(c) || text::whitespace(c) {
        Action::Gap
    } else {
        Action::Keep(c)
    }
}

/// The marks that swallow what stands right before them.
pub open spec fn stop(c: char) -> bool {
    c == '.' || c == ','
}

/// What a stop swallows.
pub open spec fn loose(c: char) -> bool {
    text::whitespace(c) || text::punctuation(c)
}

/// `s` without the whitespace and punctuation at its end.
pub open spec fn tightened(s: Seq<char>) -> Seq<char>
    decreases s.len(),
{
    if s.len() > 0 && loose(s.last()) {
        tightened(s.drop_last())
    } else {
        s
    }
}

/// `s` with `c` added at its end: a stop takes the place of the loose characters before it.
pub open spec fn put(s: Seq<char>, c: char) -> Seq<char> {
    if stop(c) {
        tightened(s).push(c)
    } else {
        s.push(c)
    }
}

/// `s` with the characters of `word` added one after the other.
pub open spec fn put_all(s: Seq<char>, word: Seq<char>) -> Seq<char>
    decreases word.len(),
{
    if word.len() == 0 {
        s
    } else {
        put(put_all(s, word.drop_last()), word.last())
    }
}

/// `s` with a space at its end, unless it is empty or has one already.
pub open spec fn spaced(s: Seq<char>) -> Seq<char> {
    if s.len() == 0 || text::whitespace(s.last()) {
        s
    } else {
        s.push(' ')
    }
}

/// The output after one more input character, which stands behind input that ends in `before`.
/// What belongs to an emoji is dropped with it.
pub open spec fn extended(s: Seq<char>, before: Ending, c: char, lang: Lang) -> Seq<char> {
    if joined(before, c) {
        spaced(s)
    } else {
        match action_of(c, lang) {
            Action::Gap => spaced(s),
            Action::Keep(k) => put(s, k),
            Action::Say(word) => spaced(put_all(spaced(s), word)),
            Action::Pause => spaced(put(text::trim_end(s), ',')),
        }
    }
}

/// The output after all of `input`, before the end is trimmed.
pub open spec fn collected(input: Seq<char>, lang: Lang) -> Seq<char>
    decreases input.len(),
{
    if input.len() == 0 {
        Seq::empty()
    } else {
        let before = input.drop_last();
        extended(collected(before, lang), ending(before), input.last(), lang)
    }
}

/// `input` in the character set the model was trained on.
pub open spec fn normalized(input: Seq<char>, lang: Lang) -> Seq<char> {
    text::trim_end(collected(input, lang))
}

/// Whether `c` is an emoji.
fn is_emoji(c: char) -> (r: bool)
    ensures
        r == emoji(c),
{
    let n: u32 = c as u32;
    (0x1F300 <= n && n <= 0x1FAFF) || (0x2600 <= n && n <= 0x27BF) || (0x1F1E6 <= n && n <= 0x1F1FF)
        || (0x1F170 <= n && n <= 0x1F171) || (0x1F17E <= n && n <= 0x1F17F) || (0x1F191 <= n && n
        <= 0x1F19A) || (0x1F201 <= n && n <= 0x1F202) || (0x1F232 <= n && n <= 0x1F23A) || (0x1F250
        <= n && n <= 0x1F251) || (0x231A <= n && n <= 0x231B) || (0x23E9 <= n && n <= 0x23F3) || (
    0x23F8 <= n && n <= 0x23FA) || (0x25FD <= n && n <= 0x25FE) || (0x2B1B <= n && n <= 0x2B1C)
        || matches!(n, 0x1F004 | 0x1F0CF | 0x1F18E | 0x1F21A | 0x1F22F | 0x2B50 | 0x2B55)
}

/// Whether `c` belongs to the emoji that it stands behind.
fn is_joined(before: Ending, c: char) -> (r: bool)
    ensures
        r == joined(before, c),
{
    let n: u32 = c as u32;
    match before {
        Ending::Plain => false,
        Ending::Base => n == 0x20E3 || n == 0xFE0F,
        Ending::Emoji => (0xE0020 <= n && n <= 0xE007F) || n == 0x200D || n == 0x20E3 || n == 0xFE0F,
    }
}

/// What the text ends in with `c` behind it.
fn next_ending(before: Ending, c: char) -> (r: Ending)
    ensures
        r == ending_with(before, c),
{
    if is_emoji(c) || is_joined(before, c) {
        Ending::Emoji
    } else if ('0' <= c && c <= '9') || c == '#' || c == '*' {
        Ending::Base
    } else {
        Ending::Plain
    }
}

/// Whether `c` is an arrow or a bullet.
fn is_arrow_or_bullet(c: char) -> (r: bool)
    ensures
        r == (arrow(c) || bullet(c)),
{
    let n: u32 = c as u32;
    (0x2190 <= n && n <= 0x21FF) || (0x27F0 <= n && n <= 0x27FF) || (0x2900 <= n && n <= 0x297F)
        || (0x2B00 <= n && n <= 0x2B11) || (0x2B30 <= n && n <= 0x2B4F) || (0x2B5A <= n && n
        <= 0x2B73) || (0x2B76 <= n && n <= 0x2B95) || (0x2B98 <= n && n <= 0x2BB8) || matches!(
        c,
        '•' | '‣' | '◦' | '·' | '⁃' | '⁌' | '⁍' | '∙' | '⦾' | '⦿' | '◘' | '●' | '○' | '■' | '□'
        | '▪' | '▫' | '◆' | '◇' | '▸' | '►'
    )
}

/// Character sink that keeps the output free of the punctuation pile-ups the substitutions
/// would otherwise produce: a `.` or `,` swallows any whitespace and punctuation immediately
/// before it, and runs of whitespace collapse to a single space.
struct StringAppender {
    buffer: Vec<char>,
}

impl StringAppender {
    fn new() -> (r: Self)
        ensures
            r.buffer@ == Seq::<char>::empty(),
    {
        StringAppender { buffer: Vec::new() }
    }

    fn push(&mut self, c: char)
        ensures
            final(self).buffer@ == put(old(self).buffer@, c),
    {
        if c == '.' || c == ',' {
            while self.buffer.len() > 0 && (text::is_whitespace(self.buffer[self.buffer.len() - 1])
                || text::is_punctuation(self.buffer[self.buffer.len() - 1]))
                invariant
                    tightened(self.buffer@) == tightened(old(self).buffer@),
                decreases self.buffer@.len(),
            {
                self.buffer.pop();
            }
        }
        self.buffer.push(c);
    }

    fn push_str(&mut self, s: &str)
        ensures
            final(self).buffer@ == put_all(old(self).buffer@, s@),
    {
        for c in it: s.chars()
            invariant
                it.seq() == s@,
                self.buffer@ == put_all(old(self).buffer@, it.seq().take(it.index() as int)),
        {
            assert(s@.take(it.index() + 1).drop_last() =~= s@.take(it.index() as int));
            self.push(c);
        }
        assert(s@.take(s@.len() as int) =~= s@);
    }

    fn into_string(self) -> (r: String)
        ensures
            r@ == text::trim_end(self.buffer@),
    {
        let mut done = self;
        done.pop_whitespace();
        text::string_of(&done.buffer)
    }

    fn last_is_whitespace(&self) -> (r: bool)
        ensures
            r == (self.buffer@.len() > 0 && text::whitespace(self.buffer@.last())),
    {
        self.buffer.len() > 0 && text::is_whitespace(self.buffer[self.buffer.len() - 1])
    }

    fn push_whitespace(&mut self)
        ensures
            final(self).buffer@ == spaced(old(self).buffer@),
    {
        if !self.last_is_whitespace() && self.buffer.len() > 0 {
            self.push(' ');
        }
    }

    fn pop_whitespace(&mut self)
        ensures
            final(self).buffer@ == text::trim_end(old(self).buffer@),
    {
        while self.last_is_whitespace()
            invariant
                text::trim_end(self.buffer@) == text::trim_end(old(self).buffer@),
            decreases self.buffer@.len(),
        {
            self.buffer.pop();
        }
    }
}

/// Rewrite `input` into the character set the model was trained on.
///
/// Typographic quotes, dashes, bullets, arrows and emoji are dropped or folded to their ASCII
/// equivalents; `@`, `+` and `=` are spelled out in `lang`; `;`, `:` and parentheses become
/// commas, which is how the model is asked to pause. Numbers, dates and abbreviations are left
/// alone -- the model reads those natively.
pub fn normalize_text(input: &str, lang: Lang) -> (r: String)
    ensures
        r@ == normalized(input@, lang),
{
    let mut res = StringAppender::new();
    let spoken = lang.special_chars();
    let mut before = Ending::Plain;
    for c in it: input.chars()
        invariant
            it.seq() == input@,
            spoken.at@ == lang.at_word(),
            spoken.plus@ == lang.plus_word(),
            spoken.equals@ == lang.equals_word(),
            before == ending(it.seq().take(it.index() as int)),
            res.buffer@ == collected(it.seq().take(it.index() as int), lang),
    {
        assert(input@.take(it.index() + 1).drop_last() =~= input@.take(it.index() as int));
        match c {
            // What belongs to an emoji goes with it.
            c if is_joined(before, c) => res.push_whitespace(),
            '"' | '“' | '”' | '„' | '‟' | '«' | '»' | '‹' | '›' | '〝' | '〞' | '〟' | '＂' => {
                res.push_whitespace();
            },
            '’' | '‘' | '‚' | '‛' | '＇' => res.push('\''),
            // None of these dashes, nor of those below, is - (ascii 45).
            '‐' | '‑' | '‒' | '―' | '﹣' | '－' => res.push('-'),
            '–' | '—' | '⸺' | '⸻' | '﹘' => res.push_whitespace(),
            '*' | '[' | ']' | '{' | '}' => res.push_whitespace(),
            '…' => res.push('.'),
            '@' => {
                res.push_whitespace();
                res.push_str(spoken.at);
                res.push_whitespace();
            },
            '+' => {
                res.push_whitespace();
                res.push_str(spoken.plus);
                res.push_whitespace();
            },
            '=' => {
                res.push_whitespace();
                res.push_str(spoken.equals);
                res.push_whitespace();
            },
            ';' | ':' | '(' | ')' => {
                res.pop_whitespace();
                res.push(',');
                res.push_whitespace();
            },
            c => {
                if is_arrow_or_bullet(c) || is_emoji(c) || text::is_control(c)
                    || text::is_whitespace(c) {
                    res.push_whitespace();
                } else {
                    res.push(c)
                }
            },
        }
        before = next_ending(before, c);
    }
    assert(input@.take(input@.len() as int) =~= input@);
    res.into_string()
}

/// The characters that normalized text is made of: those that pass through as they are, and the
/// plain space.
pub open spec fn plain(c: char) -> bool {
    c == ' ' || action_of(c, Lang::En) == Action::Keep(c)
}

/// `b` may stand right behind `a`: no space behind a space, no stop behind a space or
/// punctuation, no keycap around anything.
pub open spec fn fits(a: char, b: char) -> bool {
    &&& !(a == ' ' && b == ' ')
    &&& !(keycap_base(a) && keycap_mark(b))
    &&& stop(b) ==> !loose(a)
}

/// Text whose characters are plain and sit well with their neighbours, and which does not begin
/// with a space.
pub open spec fn tidy(s: Seq<char>) -> bool {
    &&& forall|i: int| 0 <= i < s.len() ==> plain(#[trigger] s[i])
    &&& s.len() > 0 ==> s[0] != ' '
    &&& forall|i: int, j: int| 0 <= i && j == i + 1 && j < s.len() ==> #[trigger] fits(s[i], s[j])
}

/// Normal text: tidy, and without a space at the end.
pub open spec fn normal(s: Seq<char>) -> bool {
    tidy(s) && (s.len() > 0 ==> s.last() != ' ')
}

/// The only whitespace that is plain is the plain space, and no plain character is special.
proof fn plain_is_settled(c: char, lang: Lang)
    requires
        plain(c),
    ensures
        c != ' ' ==> action_of(c, lang) == Action::Keep(c) && !text::whitespace(c),
        c == ' ' ==> action_of(c, lang) == Action::Gap && text::whitespace(c),
{
}

/// The start of tidy text is tidy.
proof fn tidy_start(s: Seq<char>, k: int)
    requires
        tidy(s),
        0 <= k <= s.len(),
    ensures
        tidy(s.take(k)),
{
    let t = s.take(k);
    assert forall|i: int, j: int| 0 <= i && j == i + 1 && j < t.len() implies #[trigger] fits(
        t[i],
        t[j],
    ) by {
        assert(fits(s[i], s[j]));
    }
}

/// Tidy text stays tidy with a plain character behind it that fits there.
proof fn tidy_push(s: Seq<char>, c: char)
    requires
        tidy(s),
        plain(c),
        s.len() > 0 ==> fits(s.last(), c),
        s.len() == 0 ==> c != ' ',
    ensures
        tidy(s.push(c)),
{
    let t = s.push(c);
    assert forall|i: int, j: int| 0 <= i && j == i + 1 && j < t.len() implies #[trigger] fits(
        t[i],
        t[j],
    ) by {
        if j < s.len() {
            assert(fits(s[i], s[j]));
        }
    }
}

/// Tightening keeps a start of the text, one that a stop may follow.
proof fn tightened_is_a_start(s: Seq<char>)
    ensures
        tightened(s).len() <= s.len(),
        tightened(s) == s.take(tightened(s).len() as int),
        tightened(s).len() > 0 ==> !loose(tightened(s).last()),
    decreases s.len(),
{
    if s.len() > 0 && loose(s.last()) {
        tightened_is_a_start(s.drop_last());
        assert(s.drop_last().take(tightened(s).len() as int) =~= s.take(tightened(s).len() as int));
    } else {
        assert(s.take(s.len() as int) =~= s);
    }
}

/// Trimming keeps a start of the text that ends in no whitespace.
proof fn trim_end_is_a_start(s: Seq<char>)
    ensures
        text::trim_end(s).len() <= s.len(),
        text::trim_end(s) == s.take(text::trim_end(s).len() as int),
        text::trim_end(s).len() > 0 ==> !text::whitespace(text::trim_end(s).last()),
    decreases s.len(),
{
    if s.len() > 0 && text::whitespace(s.last()) {
        trim_end_is_a_start(s.drop_last());
        assert(s.drop_last().take(text::trim_end(s).len() as int) =~= s.take(
            text::trim_end(s).len() as int,
        ));
    } else {
        assert(s.take(s.len() as int) =~= s);
    }
}

/// Putting a plain character that is not a space keeps text tidy.
proof fn put_keeps_tidy(s: Seq<char>, c: char)
    requires
        tidy(s),
        plain(c),
        c != ' ',
        s.len() > 0 ==> !(keycap_base(s.last()) && keycap_mark(c)),
    ensures
        tidy(put(s, c)),
        put(s, c).len() > 0,
{
    if stop(c) {
        tightened_is_a_start(s);
        tidy_start(s, tightened(s).len() as int);
        tidy_push(tightened(s), c);
    } else {
        tidy_push(s, c);
    }
}

/// A gap keeps text tidy.
proof fn spaced_keeps_tidy(s: Seq<char>)
    requires
        tidy(s),
    ensures
        tidy(spaced(s)),
{
    if !(s.len() == 0 || text::whitespace(s.last())) {
        tidy_push(s, ' ');
    }
}

/// The plain characters that can stand behind any other.
spec fn speakable(c: char) -> bool {
    plain(c) && c != ' ' && !keycap_mark(c)
}

/// Putting plain characters that can stand behind any other keeps text tidy.
proof fn put_all_keeps_tidy(s: Seq<char>, word: Seq<char>)
    requires
        tidy(s),
        forall|i: int| 0 <= i < word.len() ==> speakable(#[trigger] word[i]),
    ensures
        tidy(put_all(s, word)),
    decreases word.len(),
{
    if word.len() > 0 {
        put_all_keeps_tidy(s, word.drop_last());
        put_keeps_tidy(put_all(s, word.drop_last()), word.last());
    }
}

/// The spoken words are plain and have no gaps in them.
proof fn spoken_words_are_plain(lang: Lang)
    ensures
        forall|i: int|
            0 <= i < lang.at_word().len() ==> speakable(#[trigger] lang.at_word()[i]),
        forall|i: int|
            0 <= i < lang.plus_word().len() ==> speakable(#[trigger] lang.plus_word()[i]),
        forall|i: int|
            0 <= i < lang.equals_word().len() ==> speakable(#[trigger] lang.equals_word()[i]),
{
    reveal_strlit("at");
    reveal_strlit("arobaze");
    reveal_strlit("ät");
    reveal_strlit("arroba");
    reveal_strlit("plus");
    reveal_strlit("Plus");
    reveal_strlit("mas");
    reveal_strlit("mais");
    reveal_strlit("equals");
    reveal_strlit("égal");
    reveal_strlit("Gleich");
    reveal_strlit("igual");
}

/// A tidy text holds no emoji, so it ends in none.
proof fn tidy_text_ends_plainly(s: Seq<char>)
    requires
        tidy(s),
    ensures
        ending(s) == (if s.len() > 0 && keycap_base(s.last()) {
            Ending::Base
        } else {
            Ending::Plain
        }),
    decreases s.len(),
{
    if s.len() > 0 {
        let before = s.drop_last();
        assert(before =~= s.take(s.len() - 1));
        tidy_start(s, s.len() - 1);
        tidy_text_ends_plainly(before);
        assert(plain(s[s.len() - 1]));
        if before.len() > 0 {
            assert(fits(s[s.len() - 2], s[s.len() - 1]));
        }
    }
}

/// Where the output ends in what a keycap can be drawn around, the input does too.
proof fn a_base_comes_from_the_input(input: Seq<char>, lang: Lang)
    requires
        collected(input, lang).len() > 0,
        keycap_base(collected(input, lang).last()),
    ensures
        ending(input) == Ending::Base,
{
    let c = input.last();
    assert(input.len() > 0);
    assert(!joined(ending(input.drop_last()), c));
    assert(action_of(c, lang) is Keep);
}

/// Every input character keeps the output tidy.
proof fn collected_is_tidy(input: Seq<char>, lang: Lang)
    ensures
        tidy(collected(input, lang)),
    decreases input.len(),
{
    if input.len() > 0 {
        let before = collected(input.drop_last(), lang);
        let c = input.last();
        collected_is_tidy(input.drop_last(), lang);
        spaced_keeps_tidy(before);
        match action_of(c, lang) {
            Action::Gap => {},
            Action::Keep(k) => if !joined(ending(input.drop_last()), c) {
                if before.len() > 0 && keycap_base(before.last()) {
                    a_base_comes_from_the_input(input.drop_last(), lang);
                }
                put_keeps_tidy(before, k);
            },
            Action::Say(word) => {
                spoken_words_are_plain(lang);
                put_all_keeps_tidy(spaced(before), word);
                spaced_keeps_tidy(put_all(spaced(before), word));
            },
            Action::Pause => {
                trim_end_is_a_start(before);
                tidy_start(before, text::trim_end(before).len() as int);
                put_keeps_tidy(text::trim_end(before), ',');
                spaced_keeps_tidy(put(text::trim_end(before), ','));
            },
        }
    }
}

/// Normalization gives normal text, whatever it is given: no character outside the model's set,
/// no space at either end, no two spaces in a row, no stop behind a space or punctuation, and no
/// keycap.
pub proof fn normalization_gives_normal_text(input: Seq<char>, lang: Lang)
    ensures
        normal(normalized(input, lang)),
{
    collected_is_tidy(input, lang);
    let all = collected(input, lang);
    trim_end_is_a_start(all);
    tidy_start(all, text::trim_end(all).len() as int);
}

/// Emoji, arrows, bullets, and typographic quotes and dashes are dropped or folded: none of them
/// is left, whatever the text was.
pub proof fn typographic_marks_are_gone(input: Seq<char>, lang: Lang)
    ensures
        forall|i: int|
            0 <= i < normalized(input, lang).len() ==> {
                let c = #[trigger] normalized(input, lang)[i];
                &&& !emoji(c)
                &&& !arrow(c)
                &&& !bullet(c)
                &&& !quote_mark(c)
                &&& !single_quote(c)
                &&& !hyphen(c)
                &&& !long_dash(c)
            },
{
    normalization_gives_normal_text(input, lang);
    let out = normalized(input, lang);
    assert forall|i: int| 0 <= i < out.len() implies plain(#[trigger] out[i]) by {}
}

/// Collecting tidy text reproduces it.
proof fn tidy_text_is_collected_as_it_is(s: Seq<char>, lang: Lang)
    requires
        tidy(s),
    ensures
        collected(s, lang) == s,
    decreases s.len(),
{
    if s.len() > 0 {
        let before = s.drop_last();
        let c = s.last();
        assert(before =~= s.take(s.len() - 1));
        tidy_start(s, s.len() - 1);
        tidy_text_is_collected_as_it_is(before, lang);
        tidy_text_ends_plainly(before);
        assert(plain(s[s.len() - 1]));
        plain_is_settled(c, lang);
        if before.len() > 0 {
            assert(fits(s[s.len() - 2], s[s.len() - 1]));
            assert(plain(s[s.len() - 2]));
            plain_is_settled(s[s.len() - 2], lang);
        }
        assert(before.push(c) =~= s);
    } else {
        assert(s =~= Seq::<char>::empty());
    }
}

/// Normal text is left as it is, in every language.
pub proof fn normal_text_is_left_alone(s: Seq<char>, lang: Lang)
    requires
        normal(s),
    ensures
        normalized(s, lang) == s,
{
    tidy_text_is_collected_as_it_is(s, lang);
    if s.len() > 0 {
        assert(plain(s[s.len() - 1]));
        plain_is_settled(s.last(), lang);
    }
}

/// Normalizing twice is normalizing once, even when the second pass takes another language.
pub proof fn normalization_is_idempotent(input: Seq<char>, lang: Lang, again: Lang)
    ensures
        normalized(normalized(input, lang), again) == normalized(input, lang),
{
    normalization_gives_normal_text(input, lang);
    normal_text_is_left_alone(normalized(input, lang), again);
}

/// The language matters only for what is said of `@`, `+` and `=`: a text without them is
/// normalized alike in every language.
pub proof fn the_language_matters_only_for_spoken_symbols(input: Seq<char>, one: Lang, other: Lang)
    requires
        forall|i: int|
            0 <= i < input.len() ==> #[trigger] input[i] != '@' && input[i] != '+' && input[i]
                != '=',
    ensures
        normalized(input, one) == normalized(input, other),
{
    collected_alike(input, one, other);
}

proof fn collected_alike(input: Seq<char>, one: Lang, other: Lang)
    requires
        forall|i: int|
            0 <= i < input.len() ==> #[trigger] input[i] != '@' && input[i] != '+' && input[i]
                != '=',
    ensures
        collected(input, one) == collected(input, other),
    decreases input.len(),
{
    if input.len() > 0 {
        collected_alike(input.drop_last(), one, other);
        assert(action_of(input[input.len() - 1], one) == action_of(input[input.len() - 1], other));
    }
}

/// A policy hands a text back untouched when it is off, and otherwise as normalizing it in the
/// language gives it.
pub proof fn a_policy_normalizes_in_its_language<'a>(
    lang: Lang,
    text: &'a str,
    off: Cow<'a, str>,
    on: Cow<'a, str>,
    normal: String,
)
    requires
        call_ensures(Normalize::apply, (Normalize::Off, text), off),
        call_ensures(Normalize::apply, (Normalize::For(lang), text), on),
        call_ensures(normalize_text, (text, lang), normal),
    ensures
        off matches Cow::Borrowed(t) && t@ == text@,
        on matches Cow::Owned(t) && t@ == normal@,
{
}

} // verus!
