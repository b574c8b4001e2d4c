//! Text as sequences of characters: conversion, search, decimal numbers.
//!
//! Every contract in this crate speaks of a string through its view, a
//! `Seq<char>`. The functions here move between `&str`, `String` and
//! `Vec<char>` and give the searches that the rest of the crate is built on.

use vstd::prelude::*;

verus! {

/// `String::push` appends one character to the end of the string.
pub assume_specification[ String::push ](s: &mut String, c: char)
    ensures
        final(s)@ == old(s)@.push(c),
;

/// `needle` stands in `hay` at position `i`.
pub open spec fn occurs_at(hay: Seq<char>, needle: Seq<char>, i: int) -> bool {
    &&& 0 <= i
    &&& i + needle.len() <= hay.len()
    &&& hay.subrange(i, i + needle.len()) == needle
}

/// `needle` stands somewhere in `hay`.
pub open spec fn contains(hay: Seq<char>, needle: Seq<char>) -> bool {
    exists|i: int| occurs_at(hay, needle, i)
}

/// The first position at or after `start` where `needle` stands in `hay`.
pub open spec fn find_from(hay: Seq<char>, needle: Seq<char>, start: int) -> Option<int>
    decreases hay.len() + 1 - start,
{
    if start < 0 || start + needle.len() > hay.len() {
        None
    } else if occurs_at(hay, needle, start) {
        Some(start)
    } else {
        find_from(hay, needle, start + 1)
    }
}

/// The first position where `needle` stands in `hay`.
pub open spec fn find(hay: Seq<char>, needle: Seq<char>) -> Option<int> {
    find_from(hay, needle, 0)
}

/// What `find_from` returns is the least position from `start` on, and it
/// returns `None` only when there is none.
pub proof fn lemma_find_from(hay: Seq<char>, needle: Seq<char>, start: int)
    requires
        0 <= start,
    ensures
        match find_from(hay, needle, start) {
            Some(i) => start <= i && occurs_at(hay, needle, i) && forall|j: int|
                start <= j < i ==> !occurs_at(hay, needle, j),
            None => forall|j: int| start <= j ==> !occurs_at(hay, needle, j),
        },
    decreases hay.len() + 1 - start,
{
    if start + needle.len() > hay.len() {
    } else if occurs_at(hay, needle, start) {
    } else {
        lemma_find_from(hay, needle, start + 1);
    }
}

/// `find` is `Some` exactly when `needle` stands in `hay`, and then names the
/// first place.
pub proof fn lemma_find(hay: Seq<char>, needle: Seq<char>)
    ensures
        find(hay, needle) is Some <==> contains(hay, needle),
        find(hay, needle) matches Some(i) ==> occurs_at(hay, needle, i) && forall|j: int|
            0 <= j < i ==> !occurs_at(hay, needle, j),
{
    lemma_find_from(hay, needle, 0);
}

/// Skipping places where `needle` does not stand changes nothing.
proof fn lemma_find_from_skip(hay: Seq<char>, needle: Seq<char>, start: int, to: int)
    requires
        0 <= start <= to,
        to + needle.len() <= hay.len() + 1,
        forall|j: int| start <= j < to ==> !occurs_at(hay, needle, j),
    ensures
        find_from(hay, needle, start) == find_from(hay, needle, to),
    decreases to - start,
{
    if start < to {
        lemma_find_from_skip(hay, needle, start + 1, to);
    }
}

/// The characters of `s`, in order.
pub fn chars_of(s: &str) -> (v: Vec<char>)
    ensures
        v@ == s@,
{
    let mut v: Vec<char> = Vec::new();
    for c in it: s.chars()
        invariant
            it.seq() == s@,
            v@ =~= it.seq().take(it.index() as int),
    {
        v.push(c);
    }
    assert(v@ =~= s@);
    v
}

/// The string made of the characters of `v`, in order.
pub fn string_of(v: &Vec<char>) -> (s: String)
    ensures
        s@ == v@,
{
    let mut s = String::new();
    let mut i: usize = 0;
    while i < v.len()
        invariant
            i <= v.len(),
            s@ == v@.take(i as int),
        decreases v.len() - i,
    {
        s.push(v[i]);
        i += 1;
        assert(s@ =~= v@.take(i as int));
    }
    assert(s@ =~= v@);
    s
}

/// Whether `needle` stands in `hay` at position `i`.
fn matches_at(hay: &Vec<char>, needle: &Vec<char>, i: usize) -> (r: bool)
    requires
        i + needle.len() <= hay.len(),
    ensures
        r == occurs_at(hay@, needle@, i as int),
{
    let n = needle.len();
    let mut k: usize = 0;
    while k < n
        invariant
            n == needle.len(),
            i + n <= hay.len(),
            k <= n,
            forall|m: int| 0 <= m < k ==> hay@[i + m] == needle@[m],
        decreases n - k,
    {
        if hay[i + k] != needle[k] {
            assert(hay@.subrange(i as int, i + n)[k as int] == hay@[i + k]);
            return false;
        }
        k += 1;
    }
    assert(hay@.subrange(i as int, i + n) =~= needle@);
    true
}

/// The first position where `needle` stands in `hay`, as `str::find` gives it
/// counted in characters.
pub fn find_chars(hay: &Vec<char>, needle: &Vec<char>) -> (r: Option<usize>)
    ensures
        match r {
            Some(i) => find(hay@, needle@) == Some(i as int),
            None => find(hay@, needle@) is None,
        },
{
    let n = needle.len();
    if n > hay.len() {
        return None;
    }
    let last = hay.len() - n;
    let mut i: usize = 0;
    while i < last
        invariant
            n == needle.len(),
            n <= hay.len(),
            last == hay.len() - n,
            i <= last,
            forall|j: int| 0 <= j < i ==> !occurs_at(hay@, needle@, j),
        decreases last - i,
    {
        if matches_at(hay, needle, i) {
            proof {
                lemma_find_from_skip(hay@, needle@, 0, i as int);
            }
            return Some(i);
        }
        i += 1;
    }
    let found = matches_at(hay, needle, last);
    proof {
        lemma_find_from_skip(hay@, needle@, 0, last as int);
        if !found {
            lemma_find_from_skip(hay@, needle@, 0, last + 1);
        }
    }
    if found {
        Some(last)
    } else {
        None
    }
}

/// Whether `needle` stands somewhere in `hay`.
pub fn contains_chars(hay: &Vec<char>, needle: &Vec<char>) -> (r: bool)
    ensures
        r == contains(hay@, needle@),
{
    proof {
        lemma_find(hay@, needle@);
    }
    find_chars(hay, needle).is_some()
}

/// Whether two strings hold the same characters.
pub fn str_eq(a: &str, b: &str) -> (r: bool)
    ensures
        r == (a@ == b@),
{
    let x = chars_of(a);
    let y = chars_of(b);
    if x.len() != y.len() {
        return false;
    }
    let mut i: usize = 0;
    while i < x.len()
        invariant
            x@ == a@,
            y@ == b@,
            x.len() == y.len(),
            i <= x.len(),
            forall|m: int| 0 <= m < i ==> x@[m] == y@[m],
        decreases x.len() - i,
    {
        if x[i] != y[i] {
            assert(a@[i as int] != b@[i as int]);
            return false;
        }
        i += 1;
    }
    assert(x@ =~= y@);
    true
}

/// Appends the characters of `tail` to `out`.
pub fn push_chars(out: &mut Vec<char>, tail: &Vec<char>)
    ensures
        final(out)@ == old(out)@ + tail@,
{
    let mut i: usize = 0;
    while i < tail.len()
        invariant
            i <= tail.len(),
            out@ == old(out)@ + tail@.take(i as int),
        decreases tail.len() - i,
    {
        out.push(tail[i]);
        i += 1;
        assert(out@ =~= old(out)@ + tail@.take(i as int));
    }
    assert(tail@.take(tail.len() as int) =~= tail@);
}

/// Appends the characters of the string `tail` to `out`.
pub fn push_str_chars(out: &mut Vec<char>, tail: &str)
    ensures
        final(out)@ == old(out)@ + tail@,
{
    let t = chars_of(tail);
    push_chars(out, &t);
}

/// The character that writes the digit `d`.
pub open spec fn digit_char(d: int) -> char {
    ((48 + d) as u8) as char
}

/// The decimal digits of `n`, most significant first, without a sign.
pub open spec fn digits(n: nat) -> Seq<char>
    decreases n,
{
    if n < 10 {
        seq![digit_char(n as int)]
    } else {
        digits(n / 10).push(digit_char((n % 10) as int))
    }
}

/// The decimal writing of `n`: a minus sign where it is negative, then its
/// digits with no leading zero.
pub open spec fn decimal(n: int) -> Seq<char> {
    if n < 0 {
        seq!['-'] + digits((-n) as nat)
    } else {
        digits(n as nat)
    }
}

/// Appends the decimal digits of `n` to `out`.
pub fn push_digits(out: &mut Vec<char>, n: u64)
    ensures
        final(out)@ == old(out)@ + digits(n as nat),
{
    // the digits of n, least significant first
    let mut low: Vec<char> = Vec::new();
    let mut m: u64 = n;
    while m >= 10
        invariant
            digits(n as nat) =~= digits(m as nat) + low@.reverse(),
        decreases m,
    {
        let d: u8 = (m % 10) as u8;
        let ghost before = low@;
        low.push((48 + d) as char);
        proof {
            assert(low@.reverse() =~= seq![digit_char((m % 10) as int)] + before.reverse());
            assert(digits(m as nat) == digits((m / 10) as nat).push(digit_char((m % 10) as int)));
        }
        m = m / 10;
    }
    let d: u8 = m as u8;
    out.push((48 + d) as char);
    assert(out@ =~= old(out)@ + digits(m as nat));
    let mut k: usize = low.len();
    while k > 0
        invariant
            k <= low.len(),
            out@ =~= old(out)@ + digits(m as nat) + low@.reverse().take(low.len() - k),
        decreases k,
    {
        k -= 1;
        out.push(low[k]);
        assert(low@.reverse()[low.len() - k - 1] == low@[k as int]);
        assert(low@.reverse().take(low.len() - k) =~= low@.reverse().take(low.len() - k - 1).push(
            low@[k as int],
        ));
    }
    assert(low@.reverse().take(low.len() as int) =~= low@.reverse());
}

/// Appends the decimal writing of `n` to `out`.
pub fn push_decimal(out: &mut Vec<char>, n: i64)
    ensures
        final(out)@ == old(out)@ + decimal(n as int),
{
    if n < 0 {
        out.push('-');
        let m: u64 = if n == i64::MIN {
            9223372036854775808u64
        } else {
            (-n) as u64
        };
        push_digits(out, m);
        assert(out@ =~= old(out)@ + (seq!['-'] + digits((-n) as nat)));
    } else {
        push_digits(out, n as u64);
    }
}

/// The decimal writing of `n`, as `i64::to_string` gives it.
pub fn decimal_string(n: i64) -> (s: String)
    ensures
        s@ == decimal(n as int),
{
    let mut out: Vec<char> = Vec::new();
    push_decimal(&mut out, n);
    assert(out@ =~= decimal(n as int));
    string_of(&out)
}

/// The decimal writing of `n`, as `u64::to_string` gives it.
pub fn digits_string(n: u64) -> (s: String)
    ensures
        s@ == digits(n as nat),
{
    let mut out: Vec<char> = Vec::new();
    push_digits(&mut out, n);
    assert(out@ =~= digits(n as nat));
    string_of(&out)
}

/// The parts of `parts`, one after the other.
pub open spec fn concat(parts: Seq<Seq<char>>) -> Seq<char>
    decreases parts.len(),
{
    if parts.len() == 0 {
        Seq::empty()
    } else {
        concat(parts.drop_last()) + parts.last()
    }
}

/// Whether `c` is white space, as `char::is_whitespace` decides it.
pub open spec fn is_space(c: char) -> bool {
    let u = c as u32;
    ||| 0x09 <= u <= 0x0D
    ||| u == 0x20
    ||| u == 0x85
    ||| u == 0xA0
    ||| u == 0x1680
    ||| 0x2000 <= u <= 0x200A
    ||| u == 0x2028
    ||| u == 0x2029
    ||| u == 0x202F
    ||| u == 0x205F
    ||| u == 0x3000
}

/// Whether `c` is white space.
pub fn is_whitespace(c: char) -> (r: bool)
    ensures
        r == is_space(c),
{
    let u = c as u32;
    (0x09 <= u && u <= 0x0D) || u == 0x20 || u == 0x85 || u == 0xA0 || u == 0x1680 || (0x2000 <= u
        && u <= 0x200A) || u == 0x2028 || u == 0x2029 || u == 0x202F || u == 0x205F || u == 0x3000
}

/// How many characters of white space `s` begins with.
pub open spec fn leading_space(s: Seq<char>) -> nat
    decreases s.len(),
{
    if s.len() > 0 && is_space(s[0]) {
        1 + leading_space(s.drop_first())
    } else {
        0
    }
}

/// How many characters of white space `s` ends with.
pub open spec fn trailing_space(s: Seq<char>) -> nat
    decreases s.len(),
{
    if s.len() > 0 && is_space(s.last()) {
        1 + trailing_space(s.drop_last())
    } else {
        0
    }
}

/// The text `s` without the white space at its beginning and at its end,
/// as `str::trim` gives it.
pub open spec fn trimmed(s: Seq<char>) -> Seq<char> {
    let rest = s.skip(leading_space(s) as int);
    rest.take(rest.len() - trailing_space(rest))
}

/// The characters of `v` without the white space at the beginning and at
/// the end.
pub fn trim_chars(v: &Vec<char>) -> (r: Vec<char>)
    ensures
        r@ == trimmed(v@),
{
    let n = v.len();
    let mut i: usize = 0;
    assert(v@.skip(0) =~= v@);
    while i < n && is_whitespace(v[i])
        invariant
            i <= n,
            n == v.len(),
            leading_space(v@) == i + leading_space(v@.skip(i as int)),
        decreases n - i,
    {
        assert(v@.skip(i as int)[0] == v@[i as int]);
        assert(v@.skip(i as int).drop_first() =~= v@.skip(i + 1));
        i += 1;
    }
    proof {
        if i < n {
            assert(v@.skip(i as int)[0] == v@[i as int]);
        }
    }
    let ghost rest = v@.skip(i as int);
    let mut j: usize = n;
    assert(rest.take(n - i) =~= rest);
    while j > i && is_whitespace(v[j - 1])
        invariant
            i <= j <= n,
            n == v.len(),
            rest == v@.skip(i as int),
            trailing_space(rest) == (n - j) + trailing_space(rest.take(j - i)),
        decreases j,
    {
        assert(rest.take(j - i).last() == v@[j - 1]);
        assert(rest.take(j - i).drop_last() =~= rest.take(j - i - 1));
        j -= 1;
    }
    proof {
        if j > i {
            assert(rest.take(j - i).last() == v@[j - 1]);
        }
    }
    let mut r: Vec<char> = Vec::new();
    let mut k: usize = i;
    while k < j
        invariant
            i <= k <= j <= n,
            n == v.len(),
            r@ == v@.subrange(i as int, k as int),
        decreases j - k,
    {
        r.push(v[k]);
        k += 1;
        assert(r@ =~= v@.subrange(i as int, k as int));
    }
    assert(r@ =~= rest.take(rest.len() - trailing_space(rest)));
    r
}

/// The digit that `c` writes, if it writes one.
pub open spec fn digit_value(c: char) -> Option<int> {
    if 48 <= c as u32 <= 57 {
        Some(c as u32 - 48)
    } else {
        None
    }
}

/// The number that the digits `ds` write, if they are digits.
pub open spec fn number(ds: Seq<char>) -> Option<int>
    decreases ds.len(),
{
    if ds.len() == 0 {
        Some(0)
    } else {
        match (number(ds.drop_last()), digit_value(ds.last())) {
            (Some(v), Some(d)) => Some(v * 10 + d),
            _ => None,
        }
    }
}

/// The number that `s` writes in decimal, as `str::parse::<i64>` reads it:
/// an optional sign and then at least one digit, and a number that an
/// `i64` holds.
pub open spec fn parsed_i64(s: Seq<char>) -> Option<int> {
    if s.len() == 0 {
        None
    } else {
        let negative = s[0] == '-';
        let ds = if s[0] == '-' || s[0] == '+' {
            s.skip(1)
        } else {
            s
        };
        if ds.len() == 0 {
            None
        } else {
            match number(ds) {
                Some(v) => {
                    let x = if negative {
                        -v
                    } else {
                        v
                    };
                    if i64::MIN <= x <= i64::MAX {
                        Some(x)
                    } else {
                        None
                    }
                },
                None => None,
            }
        }
    }
}

/// What the first digits write is no more than what all of them write,
/// and if all are digits then so are the first.
pub proof fn lemma_number_grows(ds: Seq<char>, k: int)
    requires
        0 <= k <= ds.len(),
    ensures
        number(ds) matches Some(w) ==> number(ds.take(k)) matches Some(v) && 0 <= v <= w,
    decreases ds.len() - k,
{
    if k == ds.len() {
        assert(ds.take(k) =~= ds);
        lemma_number_nonnegative(ds);
    } else {
        lemma_number_grows(ds.drop_last(), k);
        assert(ds.drop_last().take(k) =~= ds.take(k));
    }
}

/// Digits write no negative number.
pub proof fn lemma_number_nonnegative(ds: Seq<char>)
    ensures
        number(ds) matches Some(v) ==> v >= 0,
    decreases ds.len(),
{
    if ds.len() > 0 {
        lemma_number_nonnegative(ds.drop_last());
    }
}

/// The number that the characters `v` write in decimal, read as
/// `str::parse::<i64>` reads it.
pub fn parse_i64_chars(v: &Vec<char>) -> (r: Option<i64>)
    ensures
        match r {
            Some(x) => parsed_i64(v@) == Some(x as int),
            None => parsed_i64(v@) is None,
        },
{
    let n = v.len();
    if n == 0 {
        return None;
    }
    let negative = v[0] == '-';
    let first: usize = if v[0] == '-' || v[0] == '+' {
        1
    } else {
        0
    };
    let ghost ds = if first == 1 {
        v@.skip(1)
    } else {
        v@
    };
    assert(ds =~= v@.skip(first as int));
    if first == n {
        return None;
    }
    let mut acc: i128 = 0;
    let mut i: usize = first;
    assert(ds.take(0) =~= Seq::<char>::empty());
    while i < n
        invariant
            first <= i <= n,
            n == v.len(),
            ds == v@.skip(first as int),
            n > 0,
            first == if v@[0] == '-' || v@[0] == '+' {
                1int
            } else {
                0int
            },
            number(ds.take(i - first)) == Some(acc as int),
            0 <= acc <= 0x8000_0000_0000_0000,
        decreases n - i,
    {
        let c: u32 = v[i] as u32;
        proof {
            assert(ds.take(i - first + 1).drop_last() =~= ds.take(i - first));
            assert(ds.take(i - first + 1).last() == v@[i as int]);
            assert(v@.skip(0) =~= v@);
        }
        if !(48 <= c && c <= 57) {
            proof {
                lemma_number_grows(ds, i - first + 1);
            }
            return None;
        }
        let d: i128 = (c - 48) as i128;
        acc = acc * 10 + d;
        if acc > 0x8000_0000_0000_0000 {
            proof {
                lemma_number_grows(ds, i - first + 1);
            }
            return None;
        }
        i += 1;
    }
    assert(ds.take(n - first) =~= ds);
    let x: i128 = if negative {
        -acc
    } else {
        acc
    };
    if x < i64::MIN as i128 || x > i64::MAX as i128 {
        None
    } else {
        Some(x as i64)
    }
}

/// The number that `s` writes in decimal between white space, read as
/// `s.trim().parse::<i64>()` reads it.
pub fn parse_trimmed_i64(s: &str) -> (r: Option<i64>)
    ensures
        match r {
            Some(x) => parsed_i64(trimmed(s@)) == Some(x as int),
            None => parsed_i64(trimmed(s@)) is None,
        },
{
    let v = chars_of(s);
    let t = trim_chars(&v);
    parse_i64_chars(&t)
}


/// The view of an optional string.
pub open spec fn opt_view(o: Option<String>) -> Option<Seq<char>> {
    match o {
        Some(s) => Some(s@),
        None => None,
    }
}

/// A copy of an optional string.
pub fn copy_opt(o: &Option<String>) -> (c: Option<String>)
    ensures
        opt_view(c) == opt_view(*o),
{
    match o {
        Some(s) => Some(s.clone()),
        None => None,
    }
}


/// How often the character `c` stands in `s`.
pub open spec fn count(s: Seq<char>, c: char) -> nat
    decreases s.len(),
{
    if s.len() == 0 {
        0
    } else {
        count(s.drop_last(), c) + if s.last() == c {
            1nat
        } else {
            0nat
        }
    }
}

/// Counting goes part by part.
pub proof fn lemma_count_add(a: Seq<char>, b: Seq<char>, c: char)
    ensures
        count(a + b, c) == count(a, c) + count(b, c),
    decreases b.len(),
{
    if b.len() == 0 {
        assert(a + b =~= a);
    } else {
        lemma_count_add(a, b.drop_last(), c);
        assert((a + b).drop_last() =~= a + b.drop_last());
        assert((a + b).last() == b.last());
    }
}

/// A character that is nowhere is counted nowhere.
pub proof fn lemma_count_none(s: Seq<char>, c: char)
    requires
        forall|i: int| 0 <= i < s.len() ==> s[i] != c,
    ensures
        count(s, c) == 0,
    decreases s.len(),
{
    if s.len() > 0 {
        lemma_count_none(s.drop_last(), c);
    }
}

/// The digits of a number are digits.
pub proof fn lemma_digits_are_digits(n: nat)
    ensures
        forall|i: int| 0 <= i < digits(n).len() ==> 48 <= (#[trigger] digits(n)[i]) as u32 <= 57,
    decreases n,
{
    let d = digits(n);
    if n >= 10 {
        lemma_digits_are_digits(n / 10);
        let front = digits(n / 10);
        assert forall|i: int| 0 <= i < d.len() implies 48 <= (#[trigger] d[i]) as u32 <= 57 by {
            if i < front.len() {
                assert(d[i] == front[i]);
            } else {
                assert(d[i] == digit_char((n % 10) as int));
                assert(digit_char((n % 10) as int) as u32 == 48 + n % 10);
            }
        }
    } else {
        assert(d[0] == digit_char(n as int));
        assert(digit_char(n as int) as u32 == 48 + n);
    }
}

/// How often a character stands in a text of one character.
pub proof fn lemma_count_one(only: char, c: char)
    ensures
        count(seq![only], c) == if only == c {
            1nat
        } else {
            0nat
        },
{
    let one = seq![only];
    assert(one.drop_last() =~= Seq::<char>::empty());
    assert(count(one.drop_last(), c) == 0);
    assert(one.last() == only);
}

/// No line break stands in the decimal writing of a number.
pub proof fn lemma_decimal_has_no_newline(n: int)
    ensures
        count(decimal(n), '\n') == 0,
{
    let d = decimal(n);
    if n < 0 {
        lemma_digits_are_digits((-n) as nat);
        assert forall|i: int| 0 <= i < d.len() implies d[i] != '\n' by {
            if i > 0 {
                assert(d[i] == digits((-n) as nat)[i - 1]);
            }
        }
    } else {
        lemma_digits_are_digits(n as nat);
        assert forall|i: int| 0 <= i < d.len() implies d[i] != '\n' by {
            assert(d[i] == digits(n as nat)[i]);
        }
    }
    lemma_count_none(d, '\n');
}

/// The line breaks of parts put together are those of the parts.
pub proof fn lemma_count_concat(parts: Seq<Seq<char>>, c: char, each: nat)
    requires
        forall|i: int| 0 <= i < parts.len() ==> count(#[trigger] parts[i], c) == each,
    ensures
        count(concat(parts), c) == parts.len() * each,
    decreases parts.len(),
{
    if parts.len() > 0 {
        let front = parts.drop_last();
        assert forall|i: int| 0 <= i < front.len() implies count(#[trigger] front[i], c)
            == each by {
            assert(front[i] == parts[i]);
        }
        lemma_count_concat(front, c, each);
        lemma_count_add(concat(front), parts.last(), c);
        assert(count(parts[parts.len() - 1], c) == each);
        assert(parts.len() * each == front.len() * each + each) by (nonlinear_arith)
            requires
                parts.len() == front.len() + 1,
        ;
    }
}


} // verus!
