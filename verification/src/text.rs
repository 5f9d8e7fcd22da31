//! Character and string helpers shared by the credential model and the
//! native-store codecs.
//!
//! Everything here works on `Seq<char>` in specifications and on `Vec<char>`
//! in executable code; [`to_chars`] and [`from_chars`] move between strings
//! and character vectors without changing a character.

use vstd::prelude::*;

verus! {

/// `str`'s `==` holds exactly when both slices spell the same characters.
pub assume_specification[ <str as PartialEq>::eq ](a: &str, b: &str) -> (r: bool)
    ensures
        r == (a@ == b@),
;

/// `String::push` appends the one character to the end of the string.
pub assume_specification[ String::push ](s: &mut String, c: char)
    ensures
        final(s)@ == old(s)@.push(c),
;

/// What `char::is_alphanumeric` answers: membership in Unicode's
/// Alphabetic property or one of its number categories.
pub uninterp spec fn unicode_alphanumeric(c: char) -> bool;

/// `char::is_alphanumeric` is a function of the character alone.
pub assume_specification[ char::is_alphanumeric ](c: char) -> (b: bool)
    ensures
        b == unicode_alphanumeric(c),
;

/// The characters with Unicode's White_Space property: the controls from
/// tab to carriage return, space, next line, no-break space, ogham space
/// mark, the spaces from en quad to hair space, line and paragraph
/// separator, narrow no-break space, medium mathematical space and
/// ideographic space.
pub open spec fn is_blank(c: char) -> bool {
    let n = c as u32;
    (0x09 <= n && n <= 0x0D) || n == 0x20 || n == 0x85 || n == 0xA0 || n == 0x1680 || (0x2000
        <= n && n <= 0x200A) || n == 0x2028 || n == 0x2029 || n == 0x202F || n == 0x205F || n
        == 0x3000
}

/// `char::is_whitespace` says whether the character has Unicode's
/// White_Space property, that is, whether it is one of the characters that
/// [`is_blank`] lists.
pub assume_specification[ char::is_whitespace ](c: char) -> (b: bool)
    ensures
        b == is_blank(c),
;

/// What `str::to_uppercase` returns for a string with these characters.
pub uninterp spec fn unicode_uppercase(s: Seq<char>) -> Seq<char>;

/// `str::to_uppercase` is a function of the characters alone.
pub assume_specification[ str::to_uppercase ](s: &str) -> (r: String)
    ensures
        r@ == unicode_uppercase(s@),
;

/// What `str::to_lowercase` returns for a string with these characters.
pub uninterp spec fn unicode_lowercase(s: Seq<char>) -> Seq<char>;

/// `str::to_lowercase` is a function of the characters alone.
pub assume_specification[ str::to_lowercase ](s: &str) -> (r: String)
    ensures
        r@ == unicode_lowercase(s@),
;

pub open spec fn is_ascii(c: char) -> bool {
    (c as u32) < 128
}

pub open spec fn is_digit(c: char) -> bool {
    '0' <= c && c <= '9'
}

/// One of `0-9`, `a-f`, `A-F`.
pub open spec fn is_hex_digit(c: char) -> bool {
    is_digit(c) || ('a' <= c && c <= 'f') || ('A' <= c && c <= 'F')
}

pub open spec fn all_hex(s: Seq<char>) -> bool {
    forall|i: int| 0 <= i < s.len() ==> is_hex_digit(#[trigger] s[i])
}

pub open spec fn is_ascii_alphanumeric(c: char) -> bool {
    is_digit(c) || ('a' <= c && c <= 'z') || ('A' <= c && c <= 'Z')
}

/// Letters and digits: decided here for ASCII, by Unicode's tables beyond it.
pub open spec fn is_alnum(c: char) -> bool {
    if is_ascii(c) {
        is_ascii_alphanumeric(c)
    } else {
        unicode_alphanumeric(c)
    }
}

/// `a-z` mapped onto `A-Z`, every other character unchanged.
pub open spec fn ascii_upper(c: char) -> char {
    if 'a' <= c && c <= 'z' {
        ((c as u8) - 32) as char
    } else {
        c
    }
}

pub fn char_is_hex_digit(c: char) -> (b: bool)
    ensures
        b == is_hex_digit(c),
{
    (c >= '0' && c <= '9') || (c >= 'a' && c <= 'f') || (c >= 'A' && c <= 'F')
}

pub fn char_is_alphanumeric(c: char) -> (b: bool)
    ensures
        b == is_alnum(c),
{
    if (c as u32) < 128 {
        (c >= '0' && c <= '9') || (c >= 'a' && c <= 'z') || (c >= 'A' && c <= 'Z')
    } else {
        c.is_alphanumeric()
    }
}

pub fn char_is_whitespace(c: char) -> (b: bool)
    ensures
        b == is_blank(c),
{
    c.is_whitespace()
}

pub fn char_ascii_upper(c: char) -> (r: char)
    ensures
        r == ascii_upper(c),
{
    if c >= 'a' && c <= 'z' {
        ((c as u8) - 32) as char
    } else {
        c
    }
}

/// The characters of `s`, in order.
pub fn to_chars(s: &str) -> (v: Vec<char>)
    ensures
        v@ == s@,
{
    broadcast use vstd::string::group_string_axioms;

    let mut v: Vec<char> = Vec::new();
    for c in it: s.chars()
        invariant
            it.seq() == s@,
            v@ == s@.take(it.index()),
    {
        assert(s@.take(it.index() + 1) == s@.take(it.index()).push(c));
        v.push(c);
    }
    assert(s@.take(s@.len() as int) == s@);
    v
}

/// The string that spells the characters `v[from..to]`.
pub fn from_chars(v: &Vec<char>, from: usize, to: usize) -> (s: String)
    requires
        from <= to <= v.len(),
    ensures
        s@ == v@.subrange(from as int, to as int),
{
    let mut s = String::new();
    let mut i: usize = from;
    while i < to
        invariant
            from <= i <= to <= v.len(),
            s@ == v@.subrange(from as int, i as int),
        decreases to - i,
    {
        assert(v@.subrange(from as int, i + 1) == v@.subrange(from as int, i as int).push(
            v@[i as int],
        ));
        s.push(v[i]);
        i += 1;
    }
    s
}

/// The alphanumeric characters of `s`, in order.
pub open spec fn keep_alphanumeric(s: Seq<char>) -> Seq<char>
    decreases s.len(),
{
    if s.len() == 0 {
        s
    } else if is_alnum(s.last()) {
        keep_alphanumeric(s.drop_last()).push(s.last())
    } else {
        keep_alphanumeric(s.drop_last())
    }
}

/// `s` with each of `a-z` replaced by its capital.
pub open spec fn upper_all(s: Seq<char>) -> Seq<char> {
    Seq::new(s.len(), |i: int| ascii_upper(s[i]))
}

pub open spec fn all_alphanumeric(s: Seq<char>) -> bool {
    forall|i: int| 0 <= i < s.len() ==> is_alnum(#[trigger] s[i])
}

pub proof fn lemma_keep_alphanumeric(s: Seq<char>)
    ensures
        all_alphanumeric(keep_alphanumeric(s)),
        keep_alphanumeric(s).len() <= s.len(),
        all_alphanumeric(s) ==> keep_alphanumeric(s) == s,
    decreases s.len(),
{
    if s.len() > 0 {
        lemma_keep_alphanumeric(s.drop_last());
        if all_alphanumeric(s) {
            assert forall|i: int| 0 <= i < s.drop_last().len() implies is_alnum(
                #[trigger] s.drop_last()[i],
            ) by {
                assert(s.drop_last()[i] == s[i]);
            }
            assert(s.drop_last().push(s.last()) == s);
        }
    }
}

pub proof fn lemma_upper_all(s: Seq<char>)
    ensures
        upper_all(upper_all(s)) == upper_all(s),
        all_alphanumeric(s) ==> all_alphanumeric(upper_all(s)),
{
    assert(upper_all(upper_all(s)) =~= upper_all(s));
}

/// The alphanumeric characters of `v`, in order.
pub fn alphanumerics(v: &Vec<char>) -> (r: Vec<char>)
    ensures
        r@ == keep_alphanumeric(v@),
{
    let mut r: Vec<char> = Vec::new();
    let mut i: usize = 0;
    while i < v.len()
        invariant
            i <= v.len(),
            r@ == keep_alphanumeric(v@.take(i as int)),
        decreases v.len() - i,
    {
        assert(v@.take(i + 1).drop_last() == v@.take(i as int));
        if char_is_alphanumeric(v[i]) {
            r.push(v[i]);
        }
        i += 1;
    }
    assert(v@.take(v@.len() as int) == v@);
    r
}

/// The decimal digit for `d`.
pub open spec fn digit_char(d: nat) -> char
    recommends
        d < 10,
{
    ((48 + d) as u8) as char
}

/// `n` in decimal, without leading zeros.
pub open spec fn decimal(n: nat) -> Seq<char>
    decreases n,
{
    if n < 10 {
        seq![digit_char(n)]
    } else {
        decimal(n / 10).push(digit_char(n % 10))
    }
}

/// Appends `n` in decimal to `out`.
pub fn push_decimal(out: &mut String, n: u64)
    ensures
        final(out)@ == old(out)@ + decimal(n as nat),
    decreases n,
{
    if n >= 10 {
        push_decimal(out, n / 10);
    }
    let d: u8 = (n % 10) as u8;
    out.push((48 + d) as char);
    assert(final(out)@ =~= old(out)@ + decimal(n as nat));
}

/// `n` in decimal.
pub fn decimal_string(n: u64) -> (s: String)
    ensures
        s@ == decimal(n as nat),
{
    let mut s = String::new();
    push_decimal(&mut s, n);
    assert(s@ =~= decimal(n as nat));
    s
}

/// The text of `s`, character for character, as an owned string.
pub fn owned(s: &str) -> (r: String)
    ensures
        r@ == s@,
{
    s.to_owned()
}

/// `s` without the blank characters at its start.
pub open spec fn trim_start(s: Seq<char>) -> Seq<char>
    decreases s.len(),
{
    if s.len() > 0 && is_blank(s[0]) {
        trim_start(s.drop_first())
    } else {
        s
    }
}

/// `s` without the blank characters at its end.
pub open spec fn trim_end(s: Seq<char>) -> Seq<char>
    decreases s.len(),
{
    if s.len() > 0 && is_blank(s.last()) {
        trim_end(s.drop_last())
    } else {
        s
    }
}

/// `s` without the blank characters at either end.
pub open spec fn trimmed(s: Seq<char>) -> Seq<char> {
    trim_end(trim_start(s))
}

/// The characters `v[from..to]` without the blank characters at either end.
pub fn trim(v: &Vec<char>, from: usize, to: usize) -> (r: Vec<char>)
    requires
        from <= to <= v.len(),
    ensures
        r@ == trimmed(v@.subrange(from as int, to as int)),
{
    let ghost whole = v@.subrange(from as int, to as int);
    let mut a: usize = from;
    while a < to && char_is_whitespace(v[a])
        invariant
            from <= a <= to <= v.len(),
            trim_start(whole) == trim_start(v@.subrange(a as int, to as int)),
        decreases to - a,
    {
        assert(v@.subrange(a as int, to as int).drop_first() == v@.subrange(a + 1, to as int));
        a += 1;
    }
    let ghost started = v@.subrange(a as int, to as int);
    assert(trim_start(whole) == started);
    let mut b: usize = to;
    while b > a && char_is_whitespace(v[b - 1])
        invariant
            a <= b <= to <= v.len(),
            trim_end(started) == trim_end(v@.subrange(a as int, b as int)),
        decreases b - a,
    {
        assert(v@.subrange(a as int, b as int).drop_last() == v@.subrange(a as int, b - 1));
        b -= 1;
    }
    let mut r: Vec<char> = Vec::new();
    let mut i: usize = a;
    while i < b
        invariant
            a <= i <= b <= v.len(),
            r@ == v@.subrange(a as int, i as int),
        decreases b - i,
    {
        assert(v@.subrange(a as int, i + 1) == v@.subrange(a as int, i as int).push(v@[i as int]));
        r.push(v[i]);
        i += 1;
    }
    r
}

/// The lines of `s`: the pieces between its line feeds. A text that ends in
/// a line feed has an empty last line.
pub open spec fn split_lines(s: Seq<char>) -> Seq<Seq<char>>
    decreases s.len(),
{
    if s.len() == 0 {
        seq![Seq::<char>::empty()]
    } else {
        let head = split_lines(s.drop_last());
        if s.last() == '\n' {
            head.push(Seq::<char>::empty())
        } else {
            head.drop_last().push(head.last().push(s.last()))
        }
    }
}

/// Whether `s` holds no line feed.
pub open spec fn no_line_feed(s: Seq<char>) -> bool {
    forall|i: int| 0 <= i < s.len() ==> #[trigger] s[i] != '\n'
}

/// Whether the last line of `s` is empty: `s` is empty or ends in a line
/// feed.
pub open spec fn ends_a_line(s: Seq<char>) -> bool {
    split_lines(s).len() >= 1 && split_lines(s).last().len() == 0
}

/// A text has at least one line.
pub proof fn lemma_split_lines_nonempty(s: Seq<char>)
    ensures
        split_lines(s).len() >= 1,
    decreases s.len(),
{
    if s.len() > 0 {
        lemma_split_lines_nonempty(s.drop_last());
    }
}

/// Text without a line feed, put after `s`, lengthens the last line of
/// `s`.
pub proof fn lemma_split_lines_append(s: Seq<char>, l: Seq<char>)
    requires
        no_line_feed(l),
    ensures
        split_lines(s).len() >= 1,
        split_lines(s + l) == split_lines(s).drop_last().push(split_lines(s).last() + l),
    decreases l.len(),
{
    lemma_split_lines_nonempty(s);
    let lines = split_lines(s);
    if l.len() == 0 {
        assert(s + l =~= s);
        assert(lines.last() + l =~= lines.last());
        assert(lines.drop_last().push(lines.last()) =~= lines);
    } else {
        let shorter = l.drop_last();
        assert(no_line_feed(shorter)) by {
            assert forall|i: int| 0 <= i < shorter.len() implies #[trigger] shorter[i]
                != '\n' by {
                assert(shorter[i] == l[i]);
            }
        }
        lemma_split_lines_append(s, shorter);
        assert((s + l).drop_last() =~= s + shorter);
        assert((s + l).last() == l.last());
        assert(l[l.len() - 1] != '\n');
        let head = split_lines(s + shorter);
        assert(head.drop_last() =~= lines.drop_last());
        assert(head.last().push(l.last()) =~= lines.last() + l);
    }
}

/// A whole line put after a text that ends a line is one more line, and
/// the text ends a line again.
pub proof fn lemma_split_lines_line(s: Seq<char>, l: Seq<char>)
    requires
        ends_a_line(s),
        no_line_feed(l),
    ensures
        split_lines(s + l + seq!['\n']) == split_lines(s).drop_last().push(l).push(
            Seq::<char>::empty(),
        ),
        ends_a_line(s + l + seq!['\n']),
{
    lemma_split_lines_append(s, l);
    let whole = s + l + seq!['\n'];
    assert(whole.drop_last() =~= s + l);
    assert(whole.last() == '\n');
    assert(split_lines(s).last() + l =~= l);
}

/// Text that neither begins nor ends with a blank character is trimmed
/// already.
pub proof fn lemma_trimmed_unchanged(s: Seq<char>)
    requires
        s.len() == 0 || (!is_blank(s[0]) && !is_blank(s.last())),
    ensures
        trimmed(s) == s,
{
}

/// The character sequences that the vectors of `lines` hold.
pub open spec fn line_views(lines: Seq<Vec<char>>) -> Seq<Seq<char>> {
    Seq::new(lines.len(), |i: int| lines[i]@)
}

/// The lines of `v`.
pub fn lines(v: &Vec<char>) -> (r: Vec<Vec<char>>)
    ensures
        line_views(r@) == split_lines(v@),
{
    let mut done: Vec<Vec<char>> = Vec::new();
    let mut current: Vec<char> = Vec::new();
    let mut i: usize = 0;
    while i < v.len()
        invariant
            i <= v.len(),
            line_views(done@).push(current@) == split_lines(v@.take(i as int)),
        decreases v.len() - i,
    {
        let ghost before = line_views(done@);
        let ghost open = current@;
        proof {
            assert(v@.take(i + 1).drop_last() == v@.take(i as int));
            assert(before.push(open).drop_last() == before);
            assert(before.push(open).last() == open);
        }
        if v[i] == '\n' {
            done.push(current);
            current = Vec::new();
            assert(line_views(done@) == before.push(open));
        } else {
            current.push(v[i]);
        }
        i += 1;
    }
    let ghost before = line_views(done@);
    done.push(current);
    assert(line_views(done@) == before.push(current@));
    assert(v@.take(v@.len() as int) == v@);
    done
}

/// The position of the first `c` in `s`, or the length of `s` where there
/// is none.
pub open spec fn position_of(s: Seq<char>, c: char) -> int
    decreases s.len(),
{
    if s.len() == 0 {
        0
    } else if s[0] == c {
        0
    } else {
        1 + position_of(s.drop_first(), c)
    }
}

pub proof fn lemma_position_of(s: Seq<char>, c: char, i: int)
    requires
        0 <= i <= s.len(),
        forall|j: int| 0 <= j < i ==> s[j] != c,
        i < s.len() ==> s[i] == c,
    ensures
        position_of(s, c) == i,
    decreases s.len(),
{
    if s.len() > 0 && i > 0 {
        let rest = s.drop_first();
        assert forall|j: int| 0 <= j < i - 1 implies rest[j] != c by {
            assert(rest[j] == s[j + 1]);
        }
        lemma_position_of(rest, c, i - 1);
    }
}

/// The position of the first `c` in `v`, or the length of `v`.
pub fn find_char(v: &Vec<char>, c: char) -> (i: usize)
    ensures
        i == position_of(v@, c),
        i <= v.len(),
        i < v.len() ==> v@[i as int] == c,
        forall|j: int| 0 <= j < i ==> v@[j] != c,
{
    let mut i: usize = 0;
    while i < v.len() && v[i] != c
        invariant
            i <= v.len(),
            forall|j: int| 0 <= j < i ==> v@[j] != c,
        decreases v.len() - i,
    {
        i += 1;
    }
    proof {
        lemma_position_of(v@, c, i as int);
    }
    i
}

pub open spec fn all_digits(s: Seq<char>) -> bool {
    forall|i: int| 0 <= i < s.len() ==> is_digit(#[trigger] s[i])
}

/// The number that the decimal digits of `s` spell.
pub open spec fn digits_value(s: Seq<char>) -> nat
    decreases s.len(),
{
    if s.len() == 0 {
        0
    } else {
        digits_value(s.drop_last()) * 10 + ((s.last() as u32) - 48) as nat
    }
}

/// The text after an optional plus sign.
pub open spec fn unsigned_digits(s: Seq<char>) -> Seq<char> {
    if s.len() > 0 && s[0] == '+' {
        s.drop_first()
    } else {
        s
    }
}

/// The number that `s` spells, where `s` is decimal digits, with or without
/// a plus sign before them and nothing else around them, for a number up to
/// `max`.
pub open spec fn parse_unsigned(s: Seq<char>, max: nat) -> Option<nat> {
    let d = unsigned_digits(s);
    if d.len() > 0 && all_digits(d) && digits_value(d) <= max {
        Some(digits_value(d))
    } else {
        None
    }
}

/// Reads a decimal number of at most `max` from `v`.
pub fn parse_number(v: &Vec<char>, max: u64) -> (r: Option<u64>)
    ensures
        match r {
            Some(n) => parse_unsigned(v@, max as nat) == Some(n as nat),
            None => parse_unsigned(v@, max as nat) is None,
        },
{
    let start: usize = if v.len() > 0 && v[0] == '+' {
        1
    } else {
        0
    };
    let ghost d = unsigned_digits(v@);
    assert(d == v@.subrange(start as int, v@.len() as int));
    if start == v.len() {
        return None;
    }
    let mut value: u64 = 0;
    let mut fits = true;
    let mut i: usize = start;
    while i < v.len()
        invariant
            start <= i <= v.len(),
            d == v@.subrange(start as int, v@.len() as int),
            d == unsigned_digits(v@),
            all_digits(d.take(i - start)),
            fits ==> value == digits_value(d.take(i - start)) && value <= max,
            !fits ==> digits_value(d.take(i - start)) > max,
        decreases v.len() - i,
    {
        let c = v[i];
        let ghost seen = d.take(i - start);
        let ghost next = d.take(i - start + 1);
        proof {
            assert(d[i - start] == c);
            assert(next.drop_last() == seen);
            assert(next.last() == c);
        }
        if !(c >= '0' && c <= '9') {
            proof {
                assert(!is_digit(d[i - start]));
            }
            return None;
        }
        proof {
            assert forall|j: int| 0 <= j < next.len() implies is_digit(#[trigger] next[j]) by {
                if j < seen.len() {
                    assert(next[j] == seen[j]);
                }
            }
        }
        let digit: u64 = (c as u32 - 48) as u64;
        if fits {
            if digit > max || value > (max - digit) / 10 {
                fits = false;
            } else {
                value = value * 10 + digit;
            }
        }
        i += 1;
    }
    proof {
        assert(d.take(d.len() as int) == d);
    }
    if fits {
        Some(value)
    } else {
        None
    }
}

/// Whether `c` occurs in `v`.
pub fn contains_char(v: &Vec<char>, c: char) -> (b: bool)
    ensures
        b == v@.contains(c),
{
    let i = find_char(v, c);
    if i < v.len() {
        assert(v@[i as int] == c);
        true
    } else {
        false
    }
}

/// `s` with each of `a-z` replaced by its capital.
pub fn ascii_uppercase(s: &str) -> (r: String)
    ensures
        r@ == upper_all(s@),
{
    let chars = to_chars(s);
    let mut out = String::new();
    let mut i: usize = 0;
    while i < chars.len()
        invariant
            i <= chars.len(),
            out@ == upper_all(chars@.take(i as int)),
        decreases chars.len() - i,
    {
        assert(upper_all(chars@.take(i + 1)) == upper_all(chars@.take(i as int)).push(
            ascii_upper(chars@[i as int]),
        ));
        out.push(char_ascii_upper(chars[i]));
        i += 1;
    }
    assert(chars@.take(chars@.len() as int) == chars@);
    out
}

} // verus!
