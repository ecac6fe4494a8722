//! String operations, specified over sequences of characters.
use vstd::prelude::*;
use vstd::string::*;

verus! {

/// The characters with Unicode's `White_Space` property.
pub open spec fn is_white_space(c: char) -> bool {
    ||| '\u{9}' <= c <= '\u{d}'
    ||| c == '\u{20}'
    ||| c == '\u{85}'
    ||| c == '\u{a0}'
    ||| c == '\u{1680}'
    ||| '\u{2000}' <= c <= '\u{200a}'
    ||| c == '\u{2028}'
    ||| c == '\u{2029}'
    ||| c == '\u{202f}'
    ||| c == '\u{205f}'
    ||| c == '\u{3000}'
}

/// The ASCII white space characters: space, tab, line feed, form feed, carriage return.
pub open spec fn is_ascii_space(c: char) -> bool {
    c == ' ' || c == '\t' || c == '\n' || c == '\u{c}' || c == '\r'
}

/// `s` without leading and trailing white space.
pub open spec fn trimmed(s: Seq<char>) -> Seq<char>
    decreases s.len(),
{
    if s.len() > 0 && is_white_space(s[0]) {
        trimmed(s.subrange(1, s.len() as int))
    } else if s.len() > 0 && is_white_space(s[s.len() - 1]) {
        trimmed(s.subrange(0, s.len() - 1))
    } else {
        s
    }
}

/// `c` with an ASCII capital letter replaced by its small form.
pub open spec fn lower_char(c: char) -> char {
    if 'A' <= c <= 'Z' {
        ((c as u8 + 32) as u8) as char
    } else {
        c
    }
}

/// `s` with every ASCII capital letter replaced by its small form.
pub open spec fn lowered(s: Seq<char>) -> Seq<char> {
    Seq::new(s.len(), |i: int| lower_char(s[i]))
}

/// Whether `part` occurs in `s`.
pub open spec fn occurs(s: Seq<char>, part: Seq<char>) -> bool {
    exists|i: int| occurs_at(s, part, i)
}

/// Whether `part` occurs in `s` starting at index `i`.
pub open spec fn occurs_at(s: Seq<char>, part: Seq<char>, i: int) -> bool {
    0 <= i && i + part.len() <= s.len() && s.subrange(i, i + part.len()) == part
}

/// The pieces of `s` between the separators `a` and `b`.
pub open spec fn pieces(s: Seq<char>, a: char, b: char) -> Seq<Seq<char>>
    decreases s.len(),
{
    if s.len() == 0 {
        seq![s]
    } else {
        let before = pieces(s.drop_last(), a, b);
        if s.last() == a || s.last() == b {
            before.push(Seq::empty())
        } else {
            before.update(before.len() - 1, before.last().push(s.last()))
        }
    }
}

/// The maximal runs of characters of `s` that are not ASCII white space.
pub open spec fn words(s: Seq<char>) -> Seq<Seq<char>>
    decreases s.len(),
{
    if s.len() == 0 {
        Seq::empty()
    } else {
        let before = words(s.drop_last());
        if is_ascii_space(s.last()) {
            before
        } else if s.len() == 1 || is_ascii_space(s[s.len() - 2]) {
            before.push(seq![s.last()])
        } else {
            before.update(before.len() - 1, before.last().push(s.last()))
        }
    }
}

/// The index of the first `c` in `s`; the length of `s` where there is none.
pub open spec fn position_of(s: Seq<char>, c: char) -> int
    decreases s.len(),
{
    if s.len() == 0 || s[0] == c {
        0
    } else {
        1 + position_of(s.subrange(1, s.len() as int), c)
    }
}

/// The decimal digit for `d`, which is below ten.
pub open spec fn digit_char(d: int) -> char {
    ((48 + d) as u8) as char
}

/// The decimal representation of `n`.
pub open spec fn decimal(n: nat) -> Seq<char>
    decreases n,
{
    if n < 10 {
        seq![digit_char(n as int)]
    } else {
        decimal(n / 10).push(digit_char((n % 10) as int))
    }
}

/// What `c` stands for as a digit of a number in base `radix`, if it is one.
pub open spec fn digit_value(c: char, radix: int) -> Option<int> {
    let d = if '0' <= c <= '9' {
        c as int - '0' as int
    } else if 'a' <= c <= 'z' {
        c as int - 'a' as int + 10
    } else if 'A' <= c <= 'Z' {
        c as int - 'A' as int + 10
    } else {
        radix
    };
    if d < radix {
        Some(d)
    } else {
        None
    }
}

/// Whether `s` consists of digits in base `radix`.
pub open spec fn all_digits(s: Seq<char>, radix: int) -> bool {
    forall|i: int| 0 <= i < s.len() ==> digit_value(#[trigger] s[i], radix) is Some
}

/// The number that the digits `s` write in base `radix`.
pub open spec fn digits_value(s: Seq<char>, radix: int) -> int
    decreases s.len(),
{
    if s.len() == 0 {
        0
    } else {
        digits_value(s.drop_last(), radix) * radix + digit_value(s.last(), radix)->0
    }
}

/// `s` without one leading plus sign, where anything follows it.
pub open spec fn unsigned_digits(s: Seq<char>) -> Seq<char> {
    if s.len() > 1 && s[0] == '+' {
        s.subrange(1, s.len() as int)
    } else {
        s
    }
}

/// The number up to `limit` that `s` writes in base `radix`: an optional plus
/// sign, then at least one digit and nothing else.
pub open spec fn parsed_number(s: Seq<char>, radix: int, limit: int) -> Option<int> {
    let digits = unsigned_digits(s);
    if digits.len() > 0 && all_digits(digits, radix) && digits_value(digits, radix) <= limit {
        Some(digits_value(digits, radix))
    } else {
        None
    }
}

/// The views of a list of strings.
pub open spec fn views(list: Seq<String>) -> Seq<Seq<char>> {
    Seq::new(list.len(), |i: int| list[i]@)
}

/// The view of an optional string.
pub open spec fn opt_view(s: Option<String>) -> Option<Seq<char>> {
    match s {
        Some(t) => Some(t@),
        None => None,
    }
}

/// Whether `c` has the `White_Space` property.
pub fn white_space(c: char) -> (r: bool)
    ensures
        r == is_white_space(c),
{
    ('\u{9}' <= c && c <= '\u{d}') || c == '\u{20}' || c == '\u{85}' || c == '\u{a0}' || c
        == '\u{1680}' || ('\u{2000}' <= c && c <= '\u{200a}') || c == '\u{2028}' || c == '\u{2029}'
        || c == '\u{202f}' || c == '\u{205f}' || c == '\u{3000}'
}

/// Whether `c` is ASCII white space.
pub fn ascii_space(c: char) -> (r: bool)
    ensures
        r == is_ascii_space(c),
{
    c == ' ' || c == '\t' || c == '\n' || c == '\u{c}' || c == '\r'
}

/// The characters of `s`.
pub fn characters(s: &str) -> (r: Vec<char>)
    ensures
        r@ == s@,
{
    let mut v: Vec<char> = Vec::new();
    for c in it: s.chars()
        invariant
            it.seq() == s@,
            v@ == s@.take(it.index() as int),
    {
        v.push(c);
    }
    v
}

/// Whether two strings are equal.
pub fn same(a: &str, b: &str) -> (r: bool)
    ensures
        r == (a@ == b@),
{
    let x = characters(a);
    let y = characters(b);
    if x.len() != y.len() {
        return false;
    }
    let mut i: usize = 0;
    while i < x.len()
        invariant
            i <= x@.len(),
            x@.len() == y@.len(),
            x@ == a@,
            y@ == b@,
            x@.take(i as int) == y@.take(i as int),
        decreases x@.len() - i,
    {
        if x[i] != y[i] {
            return false;
        }
        assert(x@.take(i + 1) == x@.take(i as int).push(x@[i as int]));
        assert(y@.take(i + 1) == y@.take(i as int).push(y@[i as int]));
        i += 1;
    }
    assert(x@.take(i as int) == x@);
    assert(y@.take(i as int) == y@);
    true
}

/// `c` with an ASCII capital letter made small.
pub fn lower(c: char) -> (r: char)
    ensures
        r == lower_char(c),
{
    if 'A' <= c && c <= 'Z' {
        (c as u8 + 32) as char
    } else {
        c
    }
}

/// Whether `a`, with its ASCII capital letters made small, is `b`.
pub fn lower_same(a: &str, b: &str) -> (r: bool)
    ensures
        r == (lowered(a@) == b@),
{
    let x = characters(a);
    let y = characters(b);
    if x.len() != y.len() {
        assert(lowered(a@).len() != b@.len());
        return false;
    }
    let mut i: usize = 0;
    while i < x.len()
        invariant
            i <= x@.len(),
            x@.len() == y@.len(),
            x@ == a@,
            y@ == b@,
            forall|j: int| 0 <= j < i ==> lower_char(x@[j]) == y@[j],
        decreases x@.len() - i,
    {
        if lower(x[i]) != y[i] {
            assert(lowered(a@)[i as int] != b@[i as int]);
            return false;
        }
        i += 1;
    }
    assert(lowered(a@) =~= b@);
    true
}

/// `s` without leading and trailing white space.
pub fn trim<'a>(s: &'a str) -> (r: &'a str)
    ensures
        r@ == trimmed(s@),
{
    let x = characters(s);
    let mut from: usize = 0;
    let mut to: usize = x.len();
    assert(s@.subrange(0, to as int) == s@);
    while from < to && white_space(x[from])
        invariant
            from <= to == x@.len(),
            x@ == s@,
            trimmed(s@) == trimmed(s@.subrange(from as int, to as int)),
        decreases to - from,
    {
        assert(s@.subrange(from as int, to as int).subrange(1, to - from) =~= s@.subrange(
            from + 1,
            to as int,
        ));
        from += 1;
    }
    while from < to && white_space(x[to - 1])
        invariant
            from <= to <= x@.len(),
            x@ == s@,
            from < to ==> !is_white_space(s@[from as int]),
            trimmed(s@) == trimmed(s@.subrange(from as int, to as int)),
        decreases to,
    {
        assert(s@.subrange(from as int, to as int).subrange(0, to - from - 1) =~= s@.subrange(
            from as int,
            to - 1,
        ));
        to -= 1;
    }
    s.substring_char(from, to)
}

/// Whether `part` occurs in `s`.
pub fn contains(s: &str, part: &str) -> (r: bool)
    ensures
        r == occurs(s@, part@),
{
    occurs_in(&characters(s), &characters(part))
}

/// Whether `part` occurs in `s` with its ASCII capital letters made small.
pub fn lower_contains(s: &str, part: &str) -> (r: bool)
    ensures
        r == occurs(lowered(s@), part@),
{
    let x = characters(s);
    let mut small: Vec<char> = Vec::new();
    let mut i: usize = 0;
    while i < x.len()
        invariant
            x@ == s@,
            i <= x@.len(),
            small@ =~= lowered(s@).take(i as int),
        decreases x@.len() - i,
    {
        small.push(lower(x[i]));
        i += 1;
    }
    assert(small@ =~= lowered(s@));
    occurs_in(&small, &characters(part))
}

/// Whether the characters `y` occur in `x`.
fn occurs_in(x: &Vec<char>, y: &Vec<char>) -> (r: bool)
    ensures
        r == occurs(x@, y@),
{
    if y.len() > x.len() {
        return false;
    }
    let last: usize = x.len() - y.len();
    let mut i: usize = 0;
    loop
        invariant
            i <= last,
            last + y@.len() == x@.len(),
            x@.len() <= usize::MAX,
            forall|k: int| 0 <= k < i ==> !occurs_at(x@, y@, k),
        decreases last - i,
    {
        let mut j: usize = 0;
        while j < y.len() && x[i + j] == y[j]
            invariant
                j <= y@.len(),
                i + y@.len() <= x@.len(),
                x@.len() <= usize::MAX,
                forall|k: int| 0 <= k < j ==> x@[i + k] == y@[k],
            decreases y@.len() - j,
        {
            j += 1;
        }
        if j == y.len() {
            assert(x@.subrange(i as int, i + y@.len()) =~= y@);
            assert(occurs_at(x@, y@, i as int));
            return true;
        }
        assert(x@.subrange(i as int, i + y@.len())[j as int] != y@[j as int]);
        if i == last {
            return false;
        }
        i += 1;
    }
}

/// The pieces of `s` between the separators `a` and `b`.
pub fn split<'a>(s: &'a str, a: char, b: char) -> (r: Vec<&'a str>)
    ensures
        r@.len() == pieces(s@, a, b).len(),
        forall|i: int| 0 <= i < r@.len() ==> (#[trigger] r@[i])@ == pieces(s@, a, b)[i],
{
    let x = characters(s);
    let mut out: Vec<&'a str> = Vec::new();
    let mut from: usize = 0;
    let mut i: usize = 0;
    assert(s@.take(0) == s@.subrange(0, 0));
    while i < x.len()
        invariant
            x@ == s@,
            from <= i <= x@.len(),
            pieces(s@.take(i as int), a, b).len() == out@.len() + 1,
            pieces(s@.take(i as int), a, b).last() == s@.subrange(from as int, i as int),
            forall|k: int|
                0 <= k < out@.len() ==> (#[trigger] out@[k])@ == pieces(s@.take(i as int), a, b)[k],
        decreases x@.len() - i,
    {
        let ghost next = s@.take(i + 1);
        assert(next.drop_last() =~= s@.take(i as int));
        assert(next.last() == s@[i as int]);
        if x[i] == a || x[i] == b {
            out.push(s.substring_char(from, i));
            from = i + 1;
            assert(pieces(next, a, b).last() =~= s@.subrange(from as int, i + 1));
        } else {
            assert(pieces(next, a, b).last() =~= s@.subrange(from as int, i + 1));
        }
        i += 1;
    }
    assert(s@.take(i as int) =~= s@);
    out.push(s.substring_char(from, x.len()));
    out
}

/// The words of `s` between ASCII white space.
pub fn split_words<'a>(s: &'a str) -> (r: Vec<&'a str>)
    ensures
        r@.len() == words(s@).len(),
        forall|i: int| 0 <= i < r@.len() ==> (#[trigger] r@[i])@ == words(s@)[i],
{
    let x = characters(s);
    let mut out: Vec<&'a str> = Vec::new();
    let mut open: bool = false;
    let mut from: usize = 0;
    let mut i: usize = 0;
    while i < x.len()
        invariant
            x@ == s@,
            from <= i <= x@.len(),
            open == (i > 0 && !is_ascii_space(s@[i - 1])),
            words(s@.take(i as int)).len() == out@.len() + (if open { 1int } else { 0 }),
            open ==> words(s@.take(i as int)).last() == s@.subrange(from as int, i as int),
            forall|k: int|
                0 <= k < out@.len() ==> (#[trigger] out@[k])@ == words(s@.take(i as int))[k],
        decreases x@.len() - i,
    {
        let ghost next = s@.take(i + 1);
        assert(next.drop_last() =~= s@.take(i as int));
        assert(next.last() == s@[i as int]);
        assert(i > 0 ==> next[i - 1] == s@[i - 1]);
        if ascii_space(x[i]) {
            if open {
                out.push(s.substring_char(from, i));
                open = false;
            }
        } else {
            if !open {
                from = i;
                open = true;
            }
            assert(words(next).last() =~= s@.subrange(from as int, i + 1));
        }
        i += 1;
    }
    assert(s@.take(i as int) =~= s@);
    if open {
        out.push(s.substring_char(from, x.len()));
    }
    out
}

/// Where the first `c` stands in a sequence of characters.
proof fn lemma_position_of(s: Seq<char>, c: char, i: int)
    requires
        0 <= i <= s.len(),
        forall|j: int| 0 <= j < i ==> s[j] != c,
        i < s.len() ==> s[i] == c,
    ensures
        position_of(s, c) == i,
    decreases i,
{
    if i > 0 {
        let rest = s.subrange(1, s.len() as int);
        assert forall|j: int| 0 <= j < i - 1 implies rest[j] != c by {
            assert(rest[j] == s[j + 1]);
        }
        lemma_position_of(rest, c, i - 1);
    }
}

/// What stands before and after the first `c` in `s`, where there is one.
pub fn split_once<'a>(s: &'a str, c: char) -> (r: Option<(&'a str, &'a str)>)
    ensures
        r is Some <==> position_of(s@, c) < s@.len(),
        r matches Some(parts) ==> {
            &&& parts.0@ == s@.take(position_of(s@, c))
            &&& parts.1@ == s@.skip(position_of(s@, c) + 1)
        },
        position_of(s@, c) <= s@.len(),
{
    let x = characters(s);
    let mut i: usize = 0;
    while i < x.len() && x[i] != c
        invariant
            x@ == s@,
            i <= x@.len(),
            forall|j: int| 0 <= j < i ==> s@[j] != c,
        decreases x@.len() - i,
    {
        i += 1;
    }
    proof {
        lemma_position_of(s@, c, i as int);
    }
    if i == x.len() {
        return None;
    }
    Some((s.substring_char(0, i), s.substring_char(i + 1, x.len())))
}

/// The string of one decimal digit.
fn digit_text(d: usize) -> (r: &'static str)
    requires
        d < 10,
    ensures
        r@ == seq![digit_char(d as int)],
{
    proof {
        reveal_strlit("0123456789");
    }
    let digits = "0123456789";
    let r = digits.substring_char(d, d + 1);
    assert(r@ =~= seq![digit_char(d as int)]);
    r
}

/// The decimal representation of `n`.
pub fn decimal_text(n: usize) -> (r: String)
    ensures
        r@ == decimal(n as nat),
    decreases n,
{
    if n < 10 {
        String::from_str(digit_text(n))
    } else {
        let mut r = decimal_text(n / 10);
        r.append(digit_text(n % 10));
        assert(r@ =~= decimal(n as nat));
        r
    }
}

/// `digits_value` of a shorter prefix is no larger.
proof fn lemma_digits_value_grows(s: Seq<char>, radix: int, i: int)
    requires
        0 <= i <= s.len(),
        radix >= 2,
        all_digits(s, radix),
    ensures
        0 <= digits_value(s.take(i), radix) <= digits_value(s, radix),
    decreases s.len(),
{
    if s.len() == 0 {
        assert(s.take(i) =~= s);
    } else {
        let rest = s.drop_last();
        let d = digit_value(s.last(), radix)->0;
        assert(digit_value(s[s.len() - 1], radix) is Some);
        assert forall|j: int| 0 <= j < rest.len() implies digit_value(
            #[trigger] rest[j],
            radix,
        ) is Some by {
            assert(rest[j] == s[j]);
        }
        if i < s.len() {
            lemma_digits_value_grows(rest, radix, i);
            assert(rest.take(i) =~= s.take(i));
        } else {
            lemma_digits_value_grows(rest, radix, rest.len() as int);
            assert(rest.take(rest.len() as int) =~= rest);
            assert(s.take(i) =~= s);
        }
        let v = digits_value(rest, radix);
        assert(v * radix >= v) by (nonlinear_arith)
            requires
                v >= 0,
                radix >= 2,
        ;
        assert(0 <= d);
    }
}

/// The value of `c` as a digit in base `radix`.
fn digit(c: char, radix: u64) -> (r: Option<u64>)
    requires
        2 <= radix <= 36,
    ensures
        r is Some <==> digit_value(c, radix as int) is Some,
        r is Some ==> r->0 == digit_value(c, radix as int)->0 && r->0 < radix,
{
    let d: u64 = if '0' <= c && c <= '9' {
        (c as u8 - 48) as u64
    } else if 'a' <= c && c <= 'z' {
        (c as u8 - 97) as u64 + 10
    } else if 'A' <= c && c <= 'Z' {
        (c as u8 - 65) as u64 + 10
    } else {
        radix
    };
    if d < radix {
        Some(d)
    } else {
        None
    }
}

/// The number up to `limit` that `s` writes in base `radix`: an optional plus
/// sign, then digits.
pub fn parse_number(s: &str, radix: u64, limit: u64) -> (r: Option<u64>)
    requires
        2 <= radix <= 36,
    ensures
        r is Some <==> parsed_number(s@, radix as int, limit as int) is Some,
        r is Some ==> r->0 == parsed_number(s@, radix as int, limit as int)->0,
{
    let x = characters(s);
    let from: usize = if x.len() > 1 && x[0] == '+' {
        1
    } else {
        0
    };
    let ghost digits = unsigned_digits(s@);
    assert(digits =~= s@.subrange(from as int, s@.len() as int));
    if x.len() == 0 {
        return None;
    }
    let mut value: u64 = 0;
    let mut i: usize = from;
    while i < x.len()
        invariant
            x@ == s@,
            from <= i <= x@.len(),
            2 <= radix <= 36,
            digits == s@.subrange(from as int, s@.len() as int),
            forall|j: int|
                0 <= j < i - from ==> digit_value(#[trigger] digits[j], radix as int) is Some,
            value == digits_value(digits.take(i - from), radix as int),
            value <= limit,
            digits == unsigned_digits(s@),
        decreases x@.len() - i,
    {
        let ghost next = digits.take(i - from + 1);
        assert(next.drop_last() =~= digits.take(i - from));
        assert(next.last() == digits[i - from]);
        assert(digits[i - from] == x@[i as int]);
        match digit(x[i], radix) {
            None => {
                return None;
            },
            Some(d) => {
                proof {
                    assert(0 <= value * radix <= u64::MAX * 36) by (nonlinear_arith)
                        requires
                            0 <= value <= u64::MAX,
                            0 <= radix <= 36,
                    ;
                }
                let wide: u128 = value as u128 * radix as u128 + d as u128;
                assert(wide == digits_value(next, radix as int));
                if wide > limit as u128 {
                    proof {
                        if all_digits(digits, radix as int) {
                            lemma_digits_value_grows(digits, radix as int, i - from + 1);
                        }
                    }
                    return None;
                }
                value = wide as u64;
            },
        }
        i += 1;
    }
    assert(digits.take(i - from) =~= digits);
    Some(value)
}

/// A copy of an optional string.
pub fn copy_opt(s: &Option<String>) -> (r: Option<String>)
    ensures
        r == *s,
{
    match s {
        Some(t) => Some(t.clone()),
        None => None,
    }
}

/// Whether an optional string is present and equal to `t`.
pub fn opt_same(s: &Option<String>, t: &str) -> (r: bool)
    ensures
        r == (opt_view(*s) == Some(t@)),
{
    match s {
        Some(u) => same(u.as_str(), t),
        None => false,
    }
}

/// The strings `a`, `b` and `c`, joined.
pub fn joined(a: &str, b: &str, c: &str) -> (r: String)
    ensures
        r@ == a@ + b@ + c@,
{
    let mut r = String::from_str(a);
    r.append(b);
    r.append(c);
    r
}

/// Whether `s` is white space up to `from` and from `to` on, and what stands
/// between is empty or starts and ends with other characters.
pub open spec fn is_bare(s: Seq<char>, from: int, to: int) -> bool {
    &&& 0 <= from <= to <= s.len()
    &&& forall|i: int| 0 <= i < from ==> is_white_space(#[trigger] s[i])
    &&& forall|i: int| to <= i < s.len() ==> is_white_space(#[trigger] s[i])
    &&& from < to ==> !is_white_space(s[from]) && !is_white_space(s[to - 1])
}

/// Trimming takes away the white space at both ends and nothing else.
pub proof fn trimming_takes_the_outer_white_space(s: Seq<char>)
    ensures
        exists|from: int, to: int| #[trigger]
            is_bare(s, from, to) && trimmed(s) == s.subrange(from, to),
    decreases s.len(),
{
    let n = s.len() as int;
    if n > 0 && is_white_space(s[0]) {
        let rest = s.subrange(1, n);
        trimming_takes_the_outer_white_space(rest);
        let (from, to) = choose|from: int, to: int| #[trigger]
            is_bare(rest, from, to) && trimmed(rest) == rest.subrange(from, to);
        assert forall|i: int| 0 <= i < from + 1 implies is_white_space(#[trigger] s[i]) by {
            if i > 0 {
                assert(is_white_space(rest[i - 1]));
            }
        }
        assert forall|i: int| to + 1 <= i < n implies is_white_space(#[trigger] s[i]) by {
            assert(is_white_space(rest[i - 1]));
        }
        assert(is_bare(s, from + 1, to + 1));
        assert(rest.subrange(from, to) =~= s.subrange(from + 1, to + 1));
    } else if n > 0 && is_white_space(s[n - 1]) {
        let rest = s.subrange(0, n - 1);
        trimming_takes_the_outer_white_space(rest);
        let (from, to) = choose|from: int, to: int| #[trigger]
            is_bare(rest, from, to) && trimmed(rest) == rest.subrange(from, to);
        assert forall|i: int| 0 <= i < from implies is_white_space(#[trigger] s[i]) by {
            assert(is_white_space(rest[i]));
        }
        assert forall|i: int| to <= i < n implies is_white_space(#[trigger] s[i]) by {
            if i < n - 1 {
                assert(is_white_space(rest[i]));
            }
        }
        assert(is_bare(s, from, to));
        assert(rest.subrange(from, to) =~= s.subrange(from, to));
    } else {
        assert(is_bare(s, 0, n));
        assert(s.subrange(0, n) =~= s);
    }
}

/// Lowering replaces each ASCII capital letter by the small letter of the same
/// place in the alphabet and keeps everything else where it is.
pub proof fn lowering_keeps_all_but_capitals(s: Seq<char>, i: int)
    requires
        0 <= i < s.len(),
    ensures
        lowered(s).len() == s.len(),
        'A' <= s[i] <= 'Z' ==> lowered(s)[i] as int - 'a' as int == s[i] as int - 'A' as int,
        !('A' <= s[i] <= 'Z') ==> lowered(s)[i] == s[i],
        lowered(lowered(s)) == lowered(s),
{
    assert(lowered(lowered(s)) =~= lowered(s));
}

/// Text without a separator is one piece.
pub proof fn unseparated_text_is_one_piece(s: Seq<char>, a: char, b: char)
    requires
        !s.contains(a),
        !s.contains(b),
    ensures
        pieces(s, a, b) == seq![s],
    decreases s.len(),
{
    if s.len() > 0 {
        let rest = s.drop_last();
        assert(s[s.len() - 1] == s.last());
        assert forall|c: char| rest.contains(c) implies #[trigger] s.contains(c) by {
            let k = choose|k: int| 0 <= k < rest.len() && rest[k] == c;
            assert(s[k] == c);
        }
        unseparated_text_is_one_piece(rest, a, b);
        assert(rest.push(s.last()) =~= s);
        assert(pieces(s, a, b) =~= seq![s]);
    } else {
        assert(pieces(s, a, b) =~= seq![s]);
    }
}

/// There is always at least one piece.
proof fn lemma_a_piece(s: Seq<char>, a: char, b: char)
    ensures
        pieces(s, a, b).len() > 0,
    decreases s.len(),
{
    if s.len() > 0 {
        lemma_a_piece(s.drop_last(), a, b);
    }
}

/// A separator parts the pieces of what stands before it from the pieces of
/// what stands behind it.
pub proof fn separators_part_the_pieces(s: Seq<char>, c: char, t: Seq<char>, a: char, b: char)
    requires
        c == a || c == b,
    ensures
        pieces(s.push(c) + t, a, b) == pieces(s, a, b) + pieces(t, a, b),
    decreases t.len(),
{
    let all = s.push(c) + t;
    lemma_a_piece(t, a, b);
    if t.len() == 0 {
        assert(all.drop_last() =~= s);
        assert(t =~= Seq::empty());
        assert(pieces(all, a, b) =~= pieces(s, a, b) + pieces(t, a, b));
    } else {
        let rest = t.drop_last();
        separators_part_the_pieces(s, c, rest, a, b);
        lemma_a_piece(rest, a, b);
        assert(all.drop_last() =~= s.push(c) + rest);
        assert(all.last() == t.last());
        assert(pieces(all, a, b) =~= pieces(s, a, b) + pieces(t, a, b));
    }
}

/// Text without white space is one word, and no text is no word.
pub proof fn unspaced_text_is_one_word(s: Seq<char>)
    requires
        forall|i: int| 0 <= i < s.len() ==> !is_ascii_space(#[trigger] s[i]),
    ensures
        s.len() > 0 ==> words(s) == seq![s],
        s.len() == 0 ==> words(s) == Seq::<Seq<char>>::empty(),
    decreases s.len(),
{
    if s.len() > 0 {
        let rest = s.drop_last();
        assert(s[s.len() - 1] == s.last());
        assert forall|i: int| 0 <= i < rest.len() implies !is_ascii_space(#[trigger] rest[i]) by {
            assert(!is_ascii_space(s[i]));
        }
        unspaced_text_is_one_word(rest);
        if s.len() > 1 {
            assert(!is_ascii_space(s[s.len() - 2]));
            assert(rest.push(s.last()) =~= s);
        } else {
            assert(s =~= seq![s.last()]);
        }
        assert(words(s) =~= seq![s]);
    }
}

/// Text that ends with anything but white space has a word.
proof fn lemma_a_word(s: Seq<char>)
    requires
        s.len() > 0,
        !is_ascii_space(s.last()),
    ensures
        words(s).len() > 0,
    decreases s.len(),
{
    let rest = s.drop_last();
    if s.len() > 1 && !is_ascii_space(s[s.len() - 2]) {
        assert(rest.last() == s[s.len() - 2]);
        lemma_a_word(rest);
    }
}

/// White space parts the words of what stands before it from the words of what
/// stands behind it.
pub proof fn white_space_parts_the_words(s: Seq<char>, c: char, t: Seq<char>)
    requires
        is_ascii_space(c),
    ensures
        words(s.push(c) + t) == words(s) + words(t),
    decreases t.len(),
{
    let all = s.push(c) + t;
    if t.len() == 0 {
        assert(all.drop_last() =~= s);
        assert(words(all) =~= words(s) + words(t));
    } else {
        let rest = t.drop_last();
        white_space_parts_the_words(s, c, rest);
        assert(all.drop_last() =~= s.push(c) + rest);
        assert(all.last() == t.last());
        if t.len() == 1 {
            assert(all[all.len() - 2] == c);
            assert(rest =~= Seq::empty());
        } else {
            assert(all[all.len() - 2] == t[t.len() - 2]);
            if !is_ascii_space(t[t.len() - 2]) {
                assert(rest.last() == t[t.len() - 2]);
                lemma_a_word(rest);
            }
        }
        assert(words(all) =~= words(s) + words(t));
    }
}

/// The position of a character is that of its first occurrence, or the length
/// of the text where there is none.
pub proof fn positions_are_of_the_first_occurrence(s: Seq<char>, c: char)
    ensures
        0 <= position_of(s, c) <= s.len(),
        forall|i: int| 0 <= i < position_of(s, c) ==> #[trigger] s[i] != c,
        position_of(s, c) < s.len() ==> s[position_of(s, c)] == c,
    decreases s.len(),
{
    if s.len() > 0 && s[0] != c {
        let rest = s.subrange(1, s.len() as int);
        positions_are_of_the_first_occurrence(rest, c);
        assert forall|i: int| 0 <= i < position_of(s, c) implies #[trigger] s[i] != c by {
            if i > 0 {
                assert(rest[i - 1] != c);
            }
        }
    }
}

/// A plus sign in front of a number changes nothing, and neither do zeros.
pub proof fn signs_and_zeros_change_nothing(s: Seq<char>, radix: int, limit: int)
    requires
        s.len() > 0,
        s[0] != '+',
        radix >= 2,
    ensures
        parsed_number(seq!['+'] + s, radix, limit) == parsed_number(s, radix, limit),
        parsed_number(seq!['0'] + s, radix, limit) == parsed_number(s, radix, limit),
{
    let signed = seq!['+'] + s;
    assert(signed.subrange(1, signed.len() as int) =~= s);
    let padded = seq!['0'] + s;
    lemma_padded(s, radix);
    if all_digits(s, radix) {
        assert forall|i: int| 0 <= i < padded.len() implies digit_value(
            #[trigger] padded[i],
            radix,
        ) is Some by {
            if i > 0 {
                assert(digit_value(s[i - 1], radix) is Some);
            }
        }
    }
    if all_digits(padded, radix) {
        assert forall|i: int| 0 <= i < s.len() implies digit_value(#[trigger] s[i], radix) is Some by {
            assert(digit_value(padded[i + 1], radix) is Some);
        }
    }
}

/// A zero in front of digits leaves what they write.
proof fn lemma_padded(s: Seq<char>, radix: int)
    requires
        radix >= 2,
    ensures
        digits_value(seq!['0'] + s, radix) == digits_value(s, radix),
    decreases s.len(),
{
    let padded = seq!['0'] + s;
    if s.len() == 0 {
        assert(padded.drop_last() =~= Seq::empty());
        assert(digits_value(padded.drop_last(), radix) == 0);
        assert(padded.last() == '0');
        assert(0 * radix == 0) by (nonlinear_arith);
    } else {
        lemma_padded(s.drop_last(), radix);
        assert(padded.drop_last() =~= seq!['0'] + s.drop_last());
        assert(padded.last() == s.last());
    }
}

/// Whether text occurs depends on its being there between some text before and
/// some text behind it.
pub proof fn text_occurs_where_it_stands(before: Seq<char>, part: Seq<char>, behind: Seq<char>)
    ensures
        occurs(before + part + behind, part),
{
    let s = before + part + behind;
    let i = before.len() as int;
    assert(s.subrange(i, i + part.len()) =~= part);
    assert(occurs_at(s, part, i));
}

/// Text that occurs stands between some text before and some text behind it.
pub proof fn occurring_text_stands_somewhere(s: Seq<char>, part: Seq<char>)
    requires
        occurs(s, part),
    ensures
        exists|before: Seq<char>, behind: Seq<char>| s == #[trigger] (before + part + behind),
{
    let i = choose|i: int| occurs_at(s, part, i);
    let before = s.subrange(0, i);
    let behind = s.subrange(i + part.len(), s.len() as int);
    assert(s =~= before + part + behind);
}

} // verus!
