//! Character-level text: the vocabulary every other module states its contracts in.
//!
//! A string is the sequence of its characters. Searching, splitting, trimming and joining are
//! spec functions on such sequences, and the executable functions below compute them.
use vstd::prelude::*;
use vstd::string::*;
use vstd::utf8::*;

verus! {

/// `String::push` appends one character at the end of the string.
pub assume_specification[ String::push ](s: &mut String, c: char)
    ensures
        final(s)@ == old(s)@.push(c),
;

/// What `str::to_lowercase` gives for a text that is not all ASCII: the Unicode lowercase
/// mapping, which is too long to write down here.
pub uninterp spec fn unicode_lowercase(s: Seq<char>) -> Seq<char>;

/// `str::to_lowercase` maps an ASCII text letter by letter, and any other text by the Unicode
/// lowercase mapping.
pub assume_specification[ str::to_lowercase ](s: &str) -> (r: String)
    ensures
        r@ == (if is_ascii_chars(s@) {
            ascii_lowercase(s@)
        } else {
            unicode_lowercase(s@)
        }),
;

/// The lowercase form of `s`.
pub open spec fn lowercase(s: Seq<char>) -> Seq<char> {
    if is_ascii_chars(s) {
        ascii_lowercase(s)
    } else {
        unicode_lowercase(s)
    }
}

/// `c` with an ASCII capital made small.
pub open spec fn ascii_lower(c: char) -> char {
    if 'A' <= c <= 'Z' {
        ((c as u32) + 32) as char
    } else {
        c
    }
}

/// `s` with every ASCII capital made small.
pub open spec fn ascii_lowercase(s: Seq<char>) -> Seq<char> {
    Seq::new(s.len(), |i: int| ascii_lower(s[i]))
}

/// The Unicode `White_Space` property.
pub open spec fn whitespace(c: char) -> bool {
    let n = c as u32;
    ||| 0x09 <= n <= 0x0d
    ||| n == 0x20
    ||| n == 0x85
    ||| n == 0xa0
    ||| n == 0x1680
    ||| 0x2000 <= n <= 0x200a
    ||| 0x2028 <= n <= 0x2029
    ||| n == 0x202f
    ||| n == 0x205f
    ||| n == 0x3000
}

/// The Unicode general category `Cc`.
pub open spec fn control(c: char) -> bool {
    let n = c as u32;
    n <= 0x1f || 0x7f <= n <= 0x9f
}

/// The ASCII characters that are neither letters, digits, spaces nor controls.
pub open spec fn punctuation(c: char) -> bool {
    let n = c as u32;
    ||| 0x21 <= n <= 0x2f
    ||| 0x3a <= n <= 0x40
    ||| 0x5b <= n <= 0x60
    ||| 0x7b <= n <= 0x7e
}

/// The ASCII digits.
pub open spec fn digit(c: char) -> bool {
    '0' <= c <= '9'
}

/// The bytes `c` takes in UTF-8.
pub open spec fn utf8_width(c: char) -> nat {
    let n = c as u32;
    if n < 0x80 {
        1
    } else if n < 0x800 {
        2
    } else if n < 0x10000 {
        3
    } else {
        4
    }
}

/// The bytes `s` takes in UTF-8.
pub open spec fn utf8_len(s: Seq<char>) -> nat
    decreases s.len(),
{
    if s.len() == 0 {
        0
    } else {
        utf8_len(s.drop_last()) + utf8_width(s.last())
    }
}

/// `pat` stands in `s` at position `i`.
pub open spec fn occurs_at(s: Seq<char>, pat: Seq<char>, i: int) -> bool {
    &&& 0 <= i
    &&& i + pat.len() <= s.len()
    &&& s.subrange(i, i + pat.len()) == pat
}

/// `pat` stands somewhere in `s`.
pub open spec fn holds(s: Seq<char>, pat: Seq<char>) -> bool {
    exists|i: int| occurs_at(s, pat, i)
}

/// `s` with every occurrence of `from` replaced by `to`, taking the leftmost first and never
/// looking into a replacement.
pub open spec fn replaced(s: Seq<char>, from: Seq<char>, to: Seq<char>) -> Seq<char>
    decreases s.len(),
{
    if s.len() == 0 || from.len() == 0 {
        s
    } else if occurs_at(s, from, 0) {
        to + replaced(s.skip(from.len() as int), from, to)
    } else {
        seq![s[0]] + replaced(s.skip(1), from, to)
    }
}

/// The pieces of `s` between the occurrences of `sep`: one more than there are occurrences.
pub open spec fn split(s: Seq<char>, sep: char) -> Seq<Seq<char>>
    decreases s.len(),
{
    if s.len() == 0 {
        seq![Seq::empty()]
    } else {
        let before = split(s.drop_last(), sep);
        if s.last() == sep {
            before.push(Seq::empty())
        } else {
            before.update(before.len() - 1, before.last().push(s.last()))
        }
    }
}

/// The parts of a list, with `sep` between neighbours.
pub open spec fn joined(parts: Seq<Seq<char>>, sep: Seq<char>) -> Seq<char>
    decreases parts.len(),
{
    if parts.len() == 0 {
        Seq::empty()
    } else if parts.len() == 1 {
        parts[0]
    } else {
        joined(parts.drop_last(), sep) + sep + parts.last()
    }
}

/// `s` without its leading whitespace.
pub open spec fn trim_start(s: Seq<char>) -> Seq<char>
    decreases s.len(),
{
    if s.len() > 0 && whitespace(s[0]) {
        trim_start(s.skip(1))
    } else {
        s
    }
}

/// `s` without its trailing whitespace.
pub open spec fn trim_end(s: Seq<char>) -> Seq<char>
    decreases s.len(),
{
    if s.len() > 0 && whitespace(s.last()) {
        trim_end(s.drop_last())
    } else {
        s
    }
}

/// `s` without whitespace at either end.
pub open spec fn trimmed(s: Seq<char>) -> Seq<char> {
    trim_end(trim_start(s))
}

/// The character of the digit `d`.
pub open spec fn digit_char(d: nat) -> char {
    (48 + d) as char
}

/// `n` in decimal, without leading zeros.
pub open spec fn decimal(n: nat) -> Seq<char>
    decreases n,
{
    if n < 10 {
        seq![digit_char(n)]
    } else {
        decimal(n / 10).push(digit_char(n % 10))
    }
}

/// The number that a run of digits denotes.
pub open spec fn decimal_value(s: Seq<char>) -> nat
    decreases s.len(),
{
    if s.len() == 0 {
        0
    } else {
        decimal_value(s.drop_last()) * 10 + ((s.last() as u32) - 48) as nat
    }
}

/// The texts of a list of strings.
pub open spec fn texts(v: Seq<String>) -> Seq<Seq<char>> {
    Seq::new(v.len(), |i: int| v[i]@)
}

/// `n` in decimal denotes `n`, is made of digits, and has no leading zero unless it is `0`.
pub proof fn decimal_denotes_its_number(n: nat)
    ensures
        decimal_value(decimal(n)) == n,
        decimal(n).len() > 0,
        forall|i: int| 0 <= i < decimal(n).len() ==> digit(#[trigger] decimal(n)[i]),
        n > 0 ==> decimal(n)[0] != '0',
    decreases n,
{
    if n < 10 {
        assert(decimal(n).drop_last() == Seq::<char>::empty());
        assert(digit_char(n) as u32 == 48 + n);
        assert(decimal_value(decimal(n).drop_last()) == 0);
    } else {
        decimal_denotes_its_number(n / 10);
        assert(decimal(n).drop_last() == decimal(n / 10));
        assert(digit_char(n % 10) as u32 == 48 + n % 10);
        assert(decimal_value(decimal(n)) == (n / 10) * 10 + n % 10);
    }
}

/// The characters of `s`, in order.
pub fn chars_of(s: &str) -> (r: Vec<char>)
    ensures
        r@ == s@,
{
    let mut r: Vec<char> = Vec::new();
    for c in it: s.chars()
        invariant
            r@ == it.seq().take(it.index() as int),
            it.seq() == s@,
    {
        r.push(c);
    }
    r
}

/// The string made of the characters in `v`.
pub fn string_of(v: &[char]) -> (r: String)
    ensures
        r@ == v@,
{
    let mut r = String::new();
    for i in 0..v.len()
        invariant
            r@ == v@.take(i as int),
    {
        r.push(v[i]);
    }
    r
}

/// Whether two runs of characters are equal.
pub fn same_chars(a: &[char], b: &[char]) -> (r: bool)
    ensures
        r == (a@ == b@),
{
    if a.len() != b.len() {
        return false;
    }
    for i in 0..a.len()
        invariant
            a@.len() == b@.len(),
            forall|j: int| 0 <= j < i ==> a@[j] == b@[j],
    {
        if a[i] != b[i] {
            assert(a@[i as int] != b@[i as int]);
            return false;
        }
    }
    assert(a@ =~= b@);
    true
}

/// Whether `a` and `b` hold the same characters.
pub fn same(a: &str, b: &str) -> (r: bool)
    ensures
        r == (a@ == b@),
{
    let a = chars_of(a);
    let b = chars_of(b);
    same_chars(&a, &b)
}

/// Whether `c` is whitespace.
pub fn is_whitespace(c: char) -> (r: bool)
    ensures
        r == whitespace(c),
{
    let n: u32 = c as u32;
    (0x09 <= n && n <= 0x0d) || n == 0x20 || n == 0x85 || n == 0xa0 || n == 0x1680 || (0x2000 <= n
        && n <= 0x200a) || (0x2028 <= n && n <= 0x2029) || n == 0x202f || n == 0x205f || n == 0x3000
}

/// Whether `c` is a control character.
pub fn is_control(c: char) -> (r: bool)
    ensures
        r == control(c),
{
    let n: u32 = c as u32;
    n <= 0x1f || (0x7f <= n && n <= 0x9f)
}

/// Whether `c` is ASCII punctuation.
pub fn is_punctuation(c: char) -> (r: bool)
    ensures
        r == punctuation(c),
{
    let n: u32 = c as u32;
    (0x21 <= n && n <= 0x2f) || (0x3a <= n && n <= 0x40) || (0x5b <= n && n <= 0x60) || (0x7b <= n
        && n <= 0x7e)
}

/// Whether `c` is an ASCII digit.
pub fn is_digit(c: char) -> (r: bool)
    ensures
        r == digit(c),
{
    '0' <= c && c <= '9'
}

/// The bytes `c` takes in UTF-8.
pub fn width_of(c: char) -> (r: usize)
    ensures
        r == utf8_width(c),
        1 <= r <= 4,
{
    let n: u32 = c as u32;
    if n < 0x80 {
        1
    } else if n < 0x800 {
        2
    } else if n < 0x10000 {
        3
    } else {
        4
    }
}

/// Whether `pat` stands in `s` at position `at`.
pub fn is_at(s: &[char], pat: &[char], at: usize) -> (r: bool)
    ensures
        r == occurs_at(s@, pat@, at as int),
{
    if at > s.len() || pat.len() > s.len() - at {
        return false;
    }
    for i in 0..pat.len()
        invariant
            at + pat@.len() <= s@.len() <= usize::MAX,
            forall|j: int| 0 <= j < i ==> s@[at + j] == pat@[j],
    {
        if s[at + i] != pat[i] {
            assert(s@.subrange(at as int, at + pat@.len())[i as int] != pat@[i as int]);
            return false;
        }
    }
    assert(s@.subrange(at as int, at + pat@.len()) =~= pat@);
    true
}

/// Whether `pat` stands anywhere in `s`.
pub fn contains(s: &[char], pat: &str) -> (r: bool)
    ensures
        r == holds(s@, pat@),
{
    let p = chars_of(pat);
    let mut i: usize = 0;
    while i < s.len()
        invariant
            i <= s@.len(),
            p@ == pat@,
            forall|j: int| 0 <= j < i ==> !occurs_at(s@, p@, j),
        decreases s@.len() - i,
    {
        if is_at(s, &p, i) {
            assert(occurs_at(s@, pat@, i as int));
            return true;
        }
        i += 1;
    }
    let at_end = is_at(s, &p, i);
    assert(at_end ==> occurs_at(s@, pat@, i as int));
    at_end
}

/// Whether `s` begins with `pat`.
pub fn starts_with(s: &[char], pat: &str) -> (r: bool)
    ensures
        r == occurs_at(s@, pat@, 0),
{
    let pat = chars_of(pat);
    is_at(s, &pat, 0)
}

/// `s` with every occurrence of `from` replaced by `to`.
pub fn replace(s: &[char], from: &str, to: &str) -> (r: Vec<char>)
    requires
        from@.len() > 0,
    ensures
        r@ == replaced(s@, from@, to@),
{
    let from = chars_of(from);
    let to = chars_of(to);
    let mut r: Vec<char> = Vec::new();
    let mut i: usize = 0;
    assert(s@.skip(0) =~= s@);
    while i < s.len()
        invariant
            i <= s@.len(),
            from@.len() > 0,
            r@ + replaced(s@.skip(i as int), from@, to@) == replaced(s@, from@, to@),
        decreases s@.len() - i,
    {
        let ghost rest = s@.skip(i as int);
        if is_at(s, &from, i) {
            assert(rest.subrange(0, from@.len() as int) =~= s@.subrange(
                i as int,
                i + from@.len(),
            ));
            assert(rest.skip(from@.len() as int) =~= s@.skip(i + from@.len()));
            let ghost before = r@;
            r.extend_from_slice(&to);
            assert(r@ =~= before + to@);
            i += from.len();
            assert(before + (to@ + replaced(s@.skip(i as int), from@, to@)) =~= r@ + replaced(
                s@.skip(i as int),
                from@,
                to@,
            ));
        } else {
            assert(!occurs_at(rest, from@, 0)) by {
                if occurs_at(rest, from@, 0) {
                    assert(rest.subrange(0, from@.len() as int) =~= s@.subrange(
                        i as int,
                        i + from@.len(),
                    ));
                }
            }
            assert(rest.skip(1) =~= s@.skip(i + 1));
            let ghost before = r@;
            r.push(s[i]);
            i += 1;
            assert(before + (seq![rest[0]] + replaced(s@.skip(i as int), from@, to@)) =~= r@
                + replaced(s@.skip(i as int), from@, to@));
        }
    }
    assert(s@.skip(i as int) =~= Seq::<char>::empty());
    assert(r@ + Seq::<char>::empty() =~= r@);
    r
}

/// The pieces of `s` between the occurrences of `sep`.
pub fn split_on(s: &[char], sep: char) -> (r: Vec<Vec<char>>)
    ensures
        r@.len() == split(s@, sep).len(),
        r@.len() > 0,
        forall|k: int| 0 <= k < r@.len() ==> #[trigger] r@[k]@ == split(s@, sep)[k],
{
    let mut done: Vec<Vec<char>> = Vec::new();
    let mut last: Vec<char> = Vec::new();
    assert(s@.take(0) =~= Seq::<char>::empty());
    for i in 0..s.len()
        invariant
            split(s@.take(i as int), sep).len() == done@.len() + 1,
            split(s@.take(i as int), sep).last() == last@,
            forall|k: int|
                0 <= k < done@.len() ==> #[trigger] done@[k]@ == split(s@.take(i as int), sep)[k],
    {
        assert(s@.take(i + 1).drop_last() =~= s@.take(i as int));
        if s[i] == sep {
            done.push(last);
            last = Vec::new();
        } else {
            last.push(s[i]);
        }
    }
    assert(s@.take(s@.len() as int) =~= s@);
    done.push(last);
    done
}

/// `s` without whitespace at either end.
pub fn trim(s: &[char]) -> (r: Vec<char>)
    ensures
        r@ == trimmed(s@),
{
    let mut from: usize = 0;
    assert(s@.skip(0) =~= s@);
    while from < s.len() && is_whitespace(s[from])
        invariant
            from <= s@.len(),
            trim_start(s@.skip(from as int)) == trim_start(s@),
        decreases s@.len() - from,
    {
        assert(s@.skip(from as int).skip(1) =~= s@.skip(from + 1));
        from += 1;
    }
    let ghost rest = s@.skip(from as int);
    assert(rest == trim_start(s@));
    let mut to: usize = s.len();
    assert(s@.subrange(from as int, to as int) =~= rest);
    while to > from && is_whitespace(s[to - 1])
        invariant
            from <= to <= s@.len(),
            trim_end(s@.subrange(from as int, to as int)) == trim_end(rest),
        decreases to,
    {
        assert(s@.subrange(from as int, to as int).drop_last() =~= s@.subrange(
            from as int,
            to - 1,
        ));
        to -= 1;
    }
    let mut r: Vec<char> = Vec::new();
    let mut i: usize = from;
    while i < to
        invariant
            from <= i <= to <= s@.len(),
            r@ == s@.subrange(from as int, i as int),
        decreases to - i,
    {
        r.push(s[i]);
        i += 1;
    }
    r
}

/// The bytes `s` takes in UTF-8, when that is `n`.
pub fn has_utf8_len(s: &[char], n: usize) -> (r: bool)
    ensures
        r == (utf8_len(s@) == n),
{
    let mut left: usize = n;
    let mut i: usize = 0;
    assert(s@.take(0) =~= Seq::<char>::empty());
    while i < s.len()
        invariant
            i <= s@.len(),
            utf8_len(s@.take(i as int)) + left == n,
        decreases s@.len() - i,
    {
        assert(s@.take(i + 1).drop_last() =~= s@.take(i as int));
        let w = width_of(s[i]);
        if w > left {
            proof {
                utf8_len_grows(s@, i + 1);
            }
            return false;
        }
        left -= w;
        i += 1;
    }
    assert(s@.take(s@.len() as int) =~= s@);
    left == 0
}

/// A prefix takes no more bytes than the whole.
proof fn utf8_len_grows(s: Seq<char>, k: int)
    requires
        0 <= k <= s.len(),
    ensures
        utf8_len(s.take(k)) <= utf8_len(s),
    decreases s.len(),
{
    if k == s.len() {
        assert(s.take(k) =~= s);
    } else {
        assert(s.drop_last().take(k) =~= s.take(k));
        utf8_len_grows(s.drop_last(), k);
    }
}

/// `n` in decimal.
pub fn decimal_of(n: u64) -> (r: String)
    ensures
        r@ == decimal(n as nat),
    decreases n,
{
    let mut head = if n < 10 {
        String::new()
    } else {
        decimal_of(n / 10)
    };
    let d: u8 = (n % 10) as u8;
    let c = (48u8 + d) as char;
    head.push(c);
    assert(n < 10 ==> head@ =~= decimal(n as nat));
    head
}

/// The parts, with `sep` between neighbours.
pub fn join(parts: &Vec<String>, sep: &str) -> (r: String)
    ensures
        r@ == joined(texts(parts@), sep@),
{
    let mut r = String::new();
    let ghost all = texts(parts@);
    for i in 0..parts.len()
        invariant
            all == texts(parts@),
            r@ == joined(all.take(i as int), sep@),
    {
        assert(all.take(i + 1).drop_last() =~= all.take(i as int));
        if i > 0 {
            r.append(sep);
        }
        r.append(parts[i].as_str());
    }
    assert(all.take(parts@.len() as int) =~= all);
    r
}

/// `a` followed by `b`.
pub fn glue2(a: &str, b: &str) -> (r: String)
    ensures
        r@ == a@ + b@,
{
    let mut r = String::from_str(a);
    r.append(b);
    r
}

/// `a`, `b` and `c`, one after the other.
pub fn glue3(a: &str, b: &str, c: &str) -> (r: String)
    ensures
        r@ == a@ + b@ + c@,
{
    let mut r = glue2(a, b);
    r.append(c);
    r
}

/// Whether `name` is one of `names`.
pub fn is_listed(names: &Vec<String>, name: &str) -> (r: bool)
    ensures
        r == texts(names@).contains(name@),
{
    for i in 0..names.len()
        invariant
            forall|j: int| 0 <= j < i ==> texts(names@)[j] != name@,
    {
        if same(names[i].as_str(), name) {
            assert(texts(names@)[i as int] == name@);
            return true;
        }
    }
    false
}

/// The decimal forms of a list of numbers.
pub open spec fn decimals(v: Seq<usize>) -> Seq<Seq<char>> {
    Seq::new(v.len(), |i: int| decimal(v[i] as nat))
}

/// A list of numbers as it is shown in a message: in brackets, with commas between them.
pub open spec fn bracketed(v: Seq<usize>) -> Seq<char> {
    "["@ + joined(decimals(v), ", "@) + "]"@
}

/// A list of numbers as it is shown in a message.
pub fn list_of(v: &Vec<usize>) -> (r: String)
    ensures
        r@ == bracketed(v@),
{
    let mut parts: Vec<String> = Vec::new();
    for i in 0..v.len()
        invariant
            texts(parts@) == decimals(v@.take(i as int)),
    {
        let ghost before = parts@;
        let d = decimal_of(v[i] as u64);
        parts.push(d);
        assert(decimals(v@.take(i + 1)) =~= decimals(v@.take(i as int)).push(d@));
        assert(texts(parts@) =~= texts(before).push(d@));
    }
    assert(v@.take(v@.len() as int) =~= v@);
    glue3("[", join(&parts, ", ").as_str(), "]")
}

/// Text that does not hold a pattern is left as it is when the pattern is replaced.
pub proof fn absent_patterns_change_nothing(s: Seq<char>, from: Seq<char>, to: Seq<char>)
    requires
        !holds(s, from),
    ensures
        replaced(s, from, to) == s,
    decreases s.len(),
{
    if s.len() > 0 && from.len() > 0 {
        assert(!occurs_at(s, from, 0));
        let rest = s.skip(1);
        assert forall|i: int| !occurs_at(rest, from, i) by {
            if occurs_at(rest, from, i) {
                assert(s.subrange(i + 1, i + 1 + from.len()) =~= rest.subrange(i, i + from.len()));
                assert(occurs_at(s, from, i + 1));
            }
        }
        absent_patterns_change_nothing(rest, from, to);
        assert(seq![s[0]] + rest =~= s);
    }
}

/// Laid over `a` from position `i` on, `b` differs from it in its own character `j`.
pub open spec fn differ(a: Seq<char>, b: Seq<char>, i: int, j: int) -> bool {
    0 <= i && 0 <= j < b.len() && i + j < a.len() && a[i + j] != b[j]
}

/// Laid over `a` from position `i` on, `b` differs from it.
pub open spec fn differ_somewhere(a: Seq<char>, b: Seq<char>, i: int) -> bool {
    exists|j: int| differ(a, b, i, j)
}

/// Wherever `b` is laid over `a`, from position `from` on, the two differ.
pub open spec fn differ_from(a: Seq<char>, b: Seq<char>, from: int) -> bool {
    forall|i: int| from <= i < a.len() ==> #[trigger] differ_somewhere(a, b, i)
}

/// No occurrence of `pat` can share a character with an occurrence of `to`.
pub open spec fn apart(pat: Seq<char>, to: Seq<char>) -> bool {
    differ_from(to, pat, 0) && differ_from(pat, to, 1)
}

/// What a text holds without its start, it holds.
proof fn holds_what_the_rest_holds(s: Seq<char>, pat: Seq<char>, k: int)
    requires
        0 <= k <= s.len(),
        holds(s.skip(k), pat),
    ensures
        holds(s, pat),
{
    let i = choose|i: int| occurs_at(s.skip(k), pat, i);
    assert(s.subrange(i + k, i + k + pat.len()) =~= s.skip(k).subrange(i, i + pat.len()));
    assert(occurs_at(s, pat, i + k));
}

/// Where a text starts, after a replacement, with the end of a pattern that the replacement text
/// cannot be part of, it did so before.
pub proof fn such_a_start_was_there(
    s: Seq<char>,
    from: Seq<char>,
    to: Seq<char>,
    pat: Seq<char>,
    p: int,
)
    requires
        from.len() > 0,
        differ_from(pat, to, 1),
        1 <= p <= pat.len(),
        occurs_at(replaced(s, from, to), pat.skip(p), 0),
    ensures
        occurs_at(s, pat.skip(p), 0),
    decreases s.len(),
{
    let out = replaced(s, from, to);
    let end = pat.skip(p);
    assert(out.subrange(0, end.len() as int) == end);
    if p == pat.len() {
        assert(s.subrange(0, 0) =~= end);
    } else if s.len() > 0 {
        if occurs_at(s, from, 0) {
            assert(differ_somewhere(pat, to, p));
            let j = choose|j: int| differ(pat, to, p, j);
            assert(out[j] == to[j]);
            assert(out.subrange(0, end.len() as int)[j] == end[j]);
            assert(false);
        } else {
            let rest = replaced(s.skip(1), from, to);
            assert(out[0] == s[0]);
            assert(out.subrange(0, end.len() as int)[0] == end[0]);
            assert(rest.subrange(0, end.len() - 1) =~= pat.skip(p + 1)) by {
                assert forall|i: int| 0 <= i < end.len() - 1 implies rest[i] == pat.skip(p + 1)[i] by {
                    assert(out.subrange(0, end.len() as int)[i + 1] == end[i + 1]);
                }
            }
            such_a_start_was_there(s.skip(1), from, to, pat, p + 1);
            assert(s.skip(1).subrange(0, end.len() - 1) == pat.skip(p + 1));
            assert forall|i: int| 0 <= i < end.len() implies s.subrange(0, end.len() as int)[i]
                == end[i] by {
                if i > 0 {
                    assert(s.skip(1).subrange(0, end.len() - 1)[i - 1] == pat.skip(p + 1)[i - 1]);
                }
            }
            assert(s.subrange(0, end.len() as int) =~= end);
        }
    }
}

/// Where a pattern stands first after a replacement, and nothing was replaced there, it stood
/// there before.
proof fn the_first_was_there(s: Seq<char>, from: Seq<char>, to: Seq<char>, pat: Seq<char>)
    requires
        from.len() > 0,
        pat.len() > 0,
        s.len() > 0,
        !occurs_at(s, from, 0),
        differ_from(pat, to, 1),
        occurs_at(replaced(s, from, to), pat, 0),
    ensures
        occurs_at(s, pat, 0),
{
    let found = replaced(s, from, to).subrange(0, pat.len() as int);
    let rest = replaced(s.skip(1), from, to);
    assert(found[0] == s[0]);
    assert forall|m: int| 0 <= m < pat.len() - 1 implies rest[m] == pat.skip(1)[m] by {
        assert(found[m + 1] == pat[m + 1]);
    }
    assert(rest.subrange(0, pat.len() - 1) =~= pat.skip(1));
    such_a_start_was_there(s.skip(1), from, to, pat, 1);
    assert forall|m: int| 0 <= m < pat.len() implies s[m] == pat[m] by {
        if m > 0 {
            assert(s.skip(1).subrange(0, pat.len() - 1)[m - 1] == pat.skip(1)[m - 1]);
        }
    }
    assert(s.subrange(0, pat.len() as int) =~= pat);
}

/// A replacement brings in no occurrence of a pattern that its text stays apart from; and if the
/// pattern is what is replaced, none is left.
pub proof fn replacing_brings_in_nothing_else(
    s: Seq<char>,
    from: Seq<char>,
    to: Seq<char>,
    pat: Seq<char>,
)
    requires
        from.len() > 0,
        pat.len() > 0,
        apart(pat, to),
        pat == from || !holds(s, pat),
    ensures
        !holds(replaced(s, from, to), pat),
    decreases s.len(),
{
    let out = replaced(s, from, to);
    if s.len() == 0 {
        assert forall|i: int| !occurs_at(out, pat, i) by {}
    } else {
        let (k, first) = if occurs_at(s, from, 0) {
            (from.len() as int, to)
        } else {
            (1int, seq![s[0]])
        };
        if holds(s.skip(k), pat) {
            holds_what_the_rest_holds(s, pat, k);
        }
        replacing_brings_in_nothing_else(s.skip(k), from, to, pat);
        let rest = replaced(s.skip(k), from, to);
        assert(out == first + rest);
        assert forall|i: int| !occurs_at(out, pat, i) by {
            if occurs_at(out, pat, i) {
                let found = out.subrange(i, i + pat.len());
                if i >= first.len() {
                    assert(rest.subrange(i - first.len(), i - first.len() + pat.len()) =~= found);
                    assert(occurs_at(rest, pat, i - first.len()));
                } else if occurs_at(s, from, 0) {
                    assert(differ_somewhere(to, pat, i));
                    let j = choose|j: int| differ(to, pat, i, j);
                    assert(found[j] == to[i + j]);
                } else {
                    the_first_was_there(s, from, to, pat);
                }
            }
        }
    }
}

/// When a pattern is replaced by its own start, none is left, unless what follows an occurrence
/// makes another of that start.
pub proof fn shortening_leaves_nothing(s: Seq<char>, to: Seq<char>, tail: Seq<char>)
    requires
        to.len() > 0,
        tail.len() > 0,
        differ_from(to, to + tail, 1),
        differ_from(to + tail, to, 1),
        !holds(s, to + tail + tail),
    ensures
        !holds(replaced(s, to + tail, to), to + tail),
    decreases s.len(),
{
    let from = to + tail;
    let out = replaced(s, from, to);
    if s.len() == 0 {
        assert forall|i: int| !occurs_at(out, from, i) by {}
    } else if occurs_at(s, from, 0) {
        let after = s.skip(from.len() as int);
        let rest = replaced(after, from, to);
        if holds(after, from + tail) {
            holds_what_the_rest_holds(s, from + tail, from.len() as int);
        }
        shortening_leaves_nothing(after, to, tail);
        assert forall|i: int| !occurs_at(out, from, i) by {
            if occurs_at(out, from, i) {
                let found = out.subrange(i, i + from.len());
                if i >= to.len() {
                    assert(rest.subrange(i - to.len(), i - to.len() + from.len()) =~= found);
                    assert(occurs_at(rest, from, i - to.len()));
                } else if i > 0 {
                    assert(differ_somewhere(to, from, i));
                    let j = choose|j: int| differ(to, from, i, j);
                    assert(found[j] == to[i + j]);
                } else {
                    assert(from.skip(to.len() as int) =~= tail);
                    assert forall|m: int| 0 <= m < tail.len() implies rest[m] == tail[m] by {
                        assert(found[to.len() + m] == from[to.len() + m]);
                    }
                    assert(rest.subrange(0, tail.len() as int) =~= tail);
                    such_a_start_was_there(after, from, to, from, to.len() as int);
                    assert(s.subrange(0, from.len() as int) == from);
                    assert forall|m: int| 0 <= m < from.len() + tail.len() implies s[m] == (from
                        + tail)[m] by {
                        if m < from.len() {
                            assert(s.subrange(0, from.len() as int)[m] == from[m]);
                        } else {
                            assert(after.subrange(0, tail.len() as int)[m - from.len()] == tail[m
                                - from.len()]);
                        }
                    }
                    assert(s.subrange(0, (from + tail).len() as int) =~= from + tail);
                    assert(occurs_at(s, from + tail, 0));
                }
            }
        }
    } else {
        let after = s.skip(1);
        let rest = replaced(after, from, to);
        if holds(after, from + tail) {
            holds_what_the_rest_holds(s, from + tail, 1);
        }
        shortening_leaves_nothing(after, to, tail);
        assert forall|i: int| !occurs_at(out, from, i) by {
            if occurs_at(out, from, i) {
                let found = out.subrange(i, i + from.len());
                if i >= 1 {
                    assert(rest.subrange(i - 1, i - 1 + from.len()) =~= found);
                    assert(occurs_at(rest, from, i - 1));
                } else {
                    the_first_was_there(s, from, to, from);
                }
            }
        }
    }
}

/// How a text is shown with quotes around it and its special characters escaped.
pub uninterp spec fn quoted(s: Seq<char>) -> Seq<char>;

/// `format!` with `{:?}` on a `str` puts it in quotes and escapes what has to be escaped. Which
/// characters those are is left to std.
#[verifier::external_body]
pub(crate) fn quote(s: &str) -> (r: String)
    ensures
        r@ == quoted(s@),
{
    format!("{s:?}")
}

/// The quoted forms of a list of texts.
pub open spec fn all_quoted(v: Seq<Seq<char>>) -> Seq<Seq<char>> {
    Seq::new(v.len(), |i: int| quoted(v[i]))
}

/// A list of texts as it is shown in a message: each in quotes, in brackets.
pub open spec fn quoted_list(v: Seq<Seq<char>>) -> Seq<char> {
    "["@ + joined(all_quoted(v), ", "@) + "]"@
}

/// A list of texts as it is shown in a message.
pub fn show_list(v: &Vec<String>) -> (r: String)
    ensures
        r@ == quoted_list(texts(v@)),
{
    let mut shown: Vec<String> = Vec::new();
    let ghost all = all_quoted(texts(v@));
    for i in 0..v.len()
        invariant
            all == all_quoted(texts(v@)),
            texts(shown@) == all.take(i as int),
    {
        let ghost before = shown@;
        let q = quote(v[i].as_str());
        shown.push(q);
        assert(texts(shown@) =~= texts(before).push(q@));
        assert(all.take(i + 1) =~= all.take(i as int).push(q@));
    }
    assert(all.take(v@.len() as int) =~= all);
    glue3("[", join(&shown, ", ").as_str(), "]")
}

/// Joining the pieces of a text gives it back.
pub proof fn pieces_join_again(s: Seq<char>, sep: char)
    ensures
        split(s, sep).len() > 0,
        joined(split(s, sep), seq![sep]) == s,
    decreases s.len(),
{
    if s.len() == 0 {
        assert(joined(split(s, sep), seq![sep]) =~= s);
    } else {
        let before = split(s.drop_last(), sep);
        let all = split(s, sep);
        pieces_join_again(s.drop_last(), sep);
        assert(s =~= s.drop_last().push(s.last()));
        if s.last() == sep {
            assert(all.drop_last() =~= before);
            assert(joined(all, seq![sep]) =~= joined(before, seq![sep]) + seq![sep]);
        } else {
            assert(all.drop_last() =~= before.drop_last());
            assert(all.last() == before.last().push(s.last()));
            assert(joined(all, seq![sep]) =~= joined(before, seq![sep]).push(s.last()));
        }
    }
}

/// `s` with every ASCII capital made small.
pub fn to_ascii_lowercase(s: &str) -> (r: String)
    ensures
        r@ == ascii_lowercase(s@),
{
    let mut r = String::new();
    let chars = chars_of(s);
    for i in 0..chars.len()
        invariant
            chars@ == s@,
            r@ == ascii_lowercase(s@).take(i as int),
    {
        let c = chars[i];
        let low = if 'A' <= c && c <= 'Z' {
            (c as u8 + 32) as char
        } else {
            c
        };
        r.push(low);
        assert(ascii_lowercase(s@).take(i + 1) =~= ascii_lowercase(s@).take(i as int).push(low));
    }
    assert(ascii_lowercase(s@).take(chars@.len() as int) =~= ascii_lowercase(s@));
    r
}

/// The pieces of a text hold no separator.
pub proof fn pieces_hold_no_separator(s: Seq<char>, sep: char)
    ensures
        forall|k: int, i: int|
            0 <= k < split(s, sep).len() && 0 <= i < split(s, sep)[k].len()
                ==> #[trigger] split(s, sep)[k][i] != sep,
        split(s, sep).len() > 0,
    decreases s.len(),
{
    if s.len() > 0 {
        pieces_hold_no_separator(s.drop_last(), sep);
        let before = split(s.drop_last(), sep);
        let all = split(s, sep);
        assert forall|k: int, i: int| 0 <= k < all.len() && 0 <= i < all[k].len() implies
            #[trigger] all[k][i] != sep by {
            if s.last() == sep {
                if k < before.len() {
                    assert(before[k][i] != sep);
                }
            } else if k < before.len() - 1 {
                assert(before[k][i] != sep);
            } else if i < before.last().len() {
                assert(before[before.len() - 1][i] != sep);
            }
        }
    }
}

} // verus!
