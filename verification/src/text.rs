//! Operations on text. Strings are specified by the sequence of their characters, and worked on
//! as slices of characters.
use vstd::prelude::*;
use vstd::slice::slice_subrange;
use vstd::utf8::*;

verus! {

/// `String::push` appends one character.
pub assume_specification[ std::string::String::push ](s: &mut std::string::String, c: char)
    ensures
        final(s)@ == old(s)@.push(c),
;

/// The contents of a list of strings.
pub open spec fn strings(v: Seq<String>) -> Seq<Seq<char>> {
    Seq::new(v.len(), |i: int| v[i]@)
}

/// The contents of a list of character vectors.
pub open spec fn texts(v: Seq<Vec<char>>) -> Seq<Seq<char>> {
    Seq::new(v.len(), |i: int| v[i]@)
}

/// The contents of an optional string.
pub open spec fn opt_text(o: Option<String>) -> Option<Seq<char>> {
    match o {
        Some(s) => Some(s@),
        None => None,
    }
}

/// The characters of `s`.
pub fn chars_of(s: &str) -> (r: Vec<char>)
    ensures
        r@ == s@,
{
    let mut out: Vec<char> = Vec::new();
    for c in it: s.chars()
        invariant
            out@ == it.seq().take(it.index()),
            it.seq() == s@,
    {
        out.push(c);
        assert(it.seq().take(it.index() + 1) == it.seq().take(it.index()).push(c));
    }
    out
}

/// The string with the characters `c`.
pub fn string_of(c: &[char]) -> (r: String)
    ensures
        r@ == c@,
{
    let mut out = String::new();
    let mut i: usize = 0;
    while i < c.len()
        invariant
            i <= c@.len(),
            out@ == c@.take(i as int),
        decreases c@.len() - i,
    {
        out.push(c[i]);
        i += 1;
        assert(c@.take(i as int) == c@.take(i - 1).push(c@[i - 1]));
    }
    out
}

/// Whether two byte strings are equal.
pub fn bytes_same(a: &[u8], b: &[u8]) -> (r: bool)
    ensures
        r == (a@ == b@),
{
    if a.len() != b.len() {
        return false;
    }
    let mut i: usize = 0;
    while i < a.len()
        invariant
            i <= a@.len(),
            a@.len() == b@.len(),
            forall|j: int| 0 <= j < i ==> a@[j] == b@[j],
        decreases a@.len() - i,
    {
        if a[i] != b[i] {
            return false;
        }
        i += 1;
    }
    assert(a@ =~= b@);
    true
}

/// Equal encodings are encodings of equal texts.
pub proof fn lemma_encoding_injective(a: Seq<char>, b: Seq<char>)
    ensures
        encode_utf8(a) == encode_utf8(b) <==> a == b,
{
    encode_utf8_decode_utf8(a);
    encode_utf8_decode_utf8(b);
}

/// Whether two strings are equal.
pub fn same(a: &str, b: &str) -> (r: bool)
    ensures
        r == (a@ == b@),
{
    proof {
        lemma_encoding_injective(a@, b@);
    }
    bytes_same(a.as_bytes(), b.as_bytes())
}

/// Whether two slices of characters are equal.
pub fn chars_same(a: &[char], b: &[char]) -> (r: bool)
    ensures
        r == (a@ == b@),
{
    if a.len() != b.len() {
        return false;
    }
    let mut i: usize = 0;
    while i < a.len()
        invariant
            i <= a@.len(),
            a@.len() == b@.len(),
            forall|j: int| 0 <= j < i ==> a@[j] == b@[j],
        decreases a@.len() - i,
    {
        if a[i] != b[i] {
            return false;
        }
        i += 1;
    }
    assert(a@ =~= b@);
    true
}

/// Whether `part` stands in `s` at index `i`.
pub open spec fn occurs_at(s: Seq<char>, part: Seq<char>, i: int) -> bool {
    &&& 0 <= i <= s.len() - part.len()
    &&& s.subrange(i, i + part.len()) == part
}

/// Whether `part` stands in `s` somewhere.
pub open spec fn contains_text(s: Seq<char>, part: Seq<char>) -> bool {
    exists|i: int| occurs_at(s, part, i)
}

/// Whether `s` begins with `part`.
pub open spec fn begins_with(s: Seq<char>, part: Seq<char>) -> bool {
    occurs_at(s, part, 0)
}

/// Whether `s` ends with `part`.
pub open spec fn finishes_with(s: Seq<char>, part: Seq<char>) -> bool {
    occurs_at(s, part, s.len() - part.len())
}

/// Whether `part` stands in `s` at index `i`.
pub fn is_at(s: &[char], part: &[char], i: usize) -> (r: bool)
    ensures
        r == occurs_at(s@, part@, i as int),
{
    if part.len() > s.len() || i > s.len() - part.len() {
        return false;
    }
    chars_same(slice_subrange(s, i, i + part.len()), part)
}

/// Whether `part` stands in `s` somewhere.
pub fn has_text(s: &[char], part: &[char]) -> (r: bool)
    ensures
        r == contains_text(s@, part@),
{
    if part.len() > s.len() {
        return false;
    }
    let last: usize = s.len() - part.len();
    let mut i: usize = 0;
    while i <= last
        invariant
            i <= last + 1,
            last == s@.len() - part@.len(),
            s@.len() <= usize::MAX,
            forall|j: int| 0 <= j < i ==> !occurs_at(s@, part@, j),
        decreases last + 1 - i,
    {
        if is_at(s, part, i) {
            return true;
        }
        if i == last {
            assert forall|j: int| !occurs_at(s@, part@, j) by {}
            return false;
        }
        i += 1;
    }
    false
}

/// Whether `s` begins with `part`.
pub fn has_prefix(s: &[char], part: &[char]) -> (r: bool)
    ensures
        r == begins_with(s@, part@),
{
    is_at(s, part, 0)
}

/// Whether `s` ends with `part`.
pub fn has_suffix(s: &[char], part: &[char]) -> (r: bool)
    ensures
        r == finishes_with(s@, part@),
{
    if part.len() > s.len() {
        return false;
    }
    is_at(s, part, s.len() - part.len())
}

/// The lower-case form of an ASCII letter; any other character itself.
pub open spec fn ascii_lower(c: char) -> char {
    if 'A' <= c <= 'Z' {
        (c as u8 + 32) as char
    } else {
        c
    }
}

/// The lower-case form of an ASCII letter; any other character itself.
pub fn to_ascii_lower(c: char) -> (r: char)
    ensures
        r == ascii_lower(c),
{
    if 'A' <= c && c <= 'Z' {
        let b: u8 = c as u8;
        (b + 32) as char
    } else {
        c
    }
}

/// Whether two texts are equal when the case of ASCII letters is set aside.
pub open spec fn same_ignoring_case(a: Seq<char>, b: Seq<char>) -> bool {
    &&& a.len() == b.len()
    &&& forall|i: int| 0 <= i < a.len() ==> ascii_lower(#[trigger] a[i]) == ascii_lower(b[i])
}

/// Whether two slices of characters are equal when the case of ASCII letters is set aside.
pub fn eq_ignoring_case(a: &[char], b: &[char]) -> (r: bool)
    ensures
        r == same_ignoring_case(a@, b@),
{
    if a.len() != b.len() {
        return false;
    }
    let mut i: usize = 0;
    while i < a.len()
        invariant
            i <= a@.len(),
            a@.len() == b@.len(),
            forall|j: int| 0 <= j < i ==> ascii_lower(#[trigger] a@[j]) == ascii_lower(b@[j]),
        decreases a@.len() - i,
    {
        if to_ascii_lower(a[i]) != to_ascii_lower(b[i]) {
            return false;
        }
        i += 1;
    }
    true
}

/// Whether two strings are equal when the case of ASCII letters is set aside.
pub fn str_eq_ignoring_case(a: &str, b: &str) -> (r: bool)
    ensures
        r == same_ignoring_case(a@, b@),
{
    let x = chars_of(a);
    let y = chars_of(b);
    eq_ignoring_case(x.as_slice(), y.as_slice())
}

/// The index of the first `c` in `s`; the length of `s` where there is none.
pub open spec fn find_char(s: Seq<char>, c: char) -> int
    decreases s.len(),
{
    if s.len() == 0 || s[0] == c {
        0
    } else {
        1 + find_char(s.skip(1), c)
    }
}

/// The first index at which a character stands.
pub proof fn lemma_find_char(s: Seq<char>, c: char)
    ensures
        0 <= find_char(s, c) <= s.len(),
        find_char(s, c) < s.len() ==> s[find_char(s, c)] == c,
        forall|j: int| 0 <= j < find_char(s, c) ==> s[j] != c,
    decreases s.len(),
{
    if s.len() > 0 && s[0] != c {
        let t = s.skip(1);
        lemma_find_char(t, c);
        assert forall|j: int| 0 <= j < find_char(s, c) implies s[j] != c by {
            if j > 0 {
                assert(s[j] == t[j - 1]);
            }
        }
    }
}

/// The first index at which `c` stands is the only one with none before it.
pub proof fn lemma_find_char_unique(s: Seq<char>, c: char, i: int)
    requires
        0 <= i <= s.len(),
        i < s.len() ==> s[i] == c,
        forall|j: int| 0 <= j < i ==> s[j] != c,
    ensures
        find_char(s, c) == i,
{
    lemma_find_char(s, c);
    let k = find_char(s, c);
    if k < i {
        assert(s[k] != c);
    } else if i < k {
        assert(s[i] != c);
    }
}

/// The index of the first `c` in `s`; the length of `s` where there is none.
pub fn position_of(s: &[char], c: char) -> (r: usize)
    ensures
        r == find_char(s@, c),
        r <= s@.len(),
{
    let mut i: usize = 0;
    while i < s.len()
        invariant
            i <= s@.len(),
            forall|j: int| 0 <= j < i ==> s@[j] != c,
        decreases s@.len() - i,
    {
        if s[i] == c {
            proof {
                lemma_find_char_unique(s@, c, i as int);
            }
            return i;
        }
        i += 1;
    }
    proof {
        lemma_find_char_unique(s@, c, i as int);
    }
    i
}

/// The parts of `s` between the occurrences of `sep`.
pub open spec fn split(s: Seq<char>, sep: char) -> Seq<Seq<char>>
    decreases s.len(),
{
    let i = find_char(s, sep);
    if 0 <= i < s.len() {
        seq![s.take(i)] + split(s.skip(i + 1), sep)
    } else {
        seq![s]
    }
}

/// The parts of `s` between the occurrences of `sep`.
pub fn split_chars(s: &[char], sep: char) -> (r: Vec<Vec<char>>)
    ensures
        texts(r@) == split(s@, sep),
{
    let mut out: Vec<Vec<char>> = Vec::new();
    let mut start: usize = 0;
    assert(s@.skip(0) == s@);
    assert(texts(out@) + split(s@.skip(0), sep) =~= split(s@, sep));
    loop
        invariant
            start <= s@.len(),
            texts(out@) + split(s@.skip(start as int), sep) == split(s@, sep),
        decreases s@.len() - start,
    {
        let rest = slice_subrange(s, start, s.len());
        assert(rest@ == s@.skip(start as int));
        let n = position_of(rest, sep);
        let part = vstd::slice::slice_to_vec(slice_subrange(rest, 0, n));
        let ghost before = texts(out@);
        out.push(part);
        assert(texts(out@) =~= before.push(part@));
        if n == rest.len() {
            assert(part@ == rest@);
            assert(texts(out@) =~= before + seq![rest@]);
            return out;
        }
        assert(part@ == rest@.take(n as int));
        assert(rest@.skip(n + 1) == s@.skip(start + n + 1));
        assert(texts(out@) + split(s@.skip(start + n + 1), sep) =~= before + (seq![
            rest@.take(n as int),
        ] + split(rest@.skip(n + 1), sep)));
        start = start + n + 1;
    }
}

/// The parts joined, with `sep` between each two.
pub open spec fn join(parts: Seq<Seq<char>>, sep: Seq<char>) -> Seq<char>
    decreases parts.len(),
{
    if parts.len() == 0 {
        seq![]
    } else if parts.len() == 1 {
        parts[0]
    } else {
        join(parts.drop_last(), sep) + sep + parts.last()
    }
}

/// The parts joined, with `sep` between each two.
pub fn join_chars(parts: &Vec<Vec<char>>, sep: &str) -> (r: String)
    ensures
        r@ == join(texts(parts@), sep@),
{
    let mut out = String::new();
    let mut i: usize = 0;
    let ghost all = texts(parts@);
    while i < parts.len()
        invariant
            i <= parts@.len(),
            all == texts(parts@),
            out@ == join(all.take(i as int), sep@),
        decreases parts@.len() - i,
    {
        if i > 0 {
            out.append(sep);
        }
        let p = string_of(parts[i].as_slice());
        out.append(p.as_str());
        i += 1;
        assert(all.take(i as int).drop_last() == all.take(i - 1));
        assert(all.take(i as int).last() == p@);
        if i == 1 {
            assert(out@ == p@);
        }
    }
    assert(all.take(i as int) == all);
    out
}

/// The strings joined, with `sep` between each two.
pub fn join_strings(parts: &Vec<String>, sep: &str) -> (r: String)
    ensures
        r@ == join(strings(parts@), sep@),
{
    let mut out = String::new();
    let mut i: usize = 0;
    let ghost all = strings(parts@);
    while i < parts.len()
        invariant
            i <= parts@.len(),
            all == strings(parts@),
            out@ == join(all.take(i as int), sep@),
        decreases parts@.len() - i,
    {
        if i > 0 {
            out.append(sep);
        }
        out.append(parts[i].as_str());
        i += 1;
        assert(all.take(i as int).drop_last() == all.take(i - 1));
        assert(all.take(i as int).last() == parts@[i - 1]@);
        if i == 1 {
            assert(out@ == parts@[0]@);
        }
    }
    assert(all.take(i as int) == all);
    out
}

/// No part of a split text holds the separator.
pub proof fn lemma_split_parts(s: Seq<char>, sep: char)
    ensures
        split(s, sep).len() > 0,
        forall|k: int| 0 <= k < split(s, sep).len() ==> !(#[trigger] split(s, sep)[k]).contains(sep),
    decreases s.len(),
{
    lemma_find_char(s, sep);
    let i = find_char(s, sep);
    if i < s.len() {
        lemma_split_parts(s.skip(i + 1), sep);
        assert forall|k: int| 0 <= k < split(s, sep).len() implies !(#[trigger] split(
            s,
            sep,
        )[k]).contains(sep) by {
            if k == 0 {
                assert(split(s, sep)[0] == s.take(i));
            } else {
                assert(split(s, sep)[k] == split(s.skip(i + 1), sep)[k - 1]);
            }
        }
    } else {
        assert(split(s, sep)[0] == s);
    }
}

/// Splitting again what was put together from a text, a separator and one more part.
pub proof fn lemma_split_last(x: Seq<char>, sep: char, p: Seq<char>)
    requires
        !p.contains(sep),
    ensures
        split(x + seq![sep] + p, sep) == split(x, sep).push(p),
    decreases x.len(),
{
    let s = x + seq![sep] + p;
    lemma_find_char(x, sep);
    let i = find_char(x, sep);
    assert forall|j: int| 0 <= j < i implies s[j] != sep by {
        assert(s[j] == x[j]);
    }
    if i < x.len() {
        assert(s[i] == x[i]);
        lemma_find_char_unique(s, sep, i);
        assert(s.take(i) == x.take(i));
        assert(s.skip(i + 1) == x.skip(i + 1) + seq![sep] + p);
        lemma_split_last(x.skip(i + 1), sep, p);
        assert(split(s, sep) =~= split(x, sep).push(p));
    } else {
        assert(s[i] == sep);
        lemma_find_char_unique(s, sep, i);
        assert(s.take(i) == x);
        assert(s.skip(i + 1) == p);
        assert forall|j: int| 0 <= j < p.len() implies p[j] != sep by {
            assert(p.contains(p[j]));
        }
        lemma_find_char_unique(p, sep, p.len() as int);
        assert(split(p, sep) =~= seq![p]);
        assert(split(s, sep) =~= split(x, sep).push(p));
    }
}

/// Splitting undoes joining, where no part holds the separator.
pub proof fn lemma_split_join(parts: Seq<Seq<char>>, sep: char)
    requires
        parts.len() > 0,
        forall|k: int| 0 <= k < parts.len() ==> !(#[trigger] parts[k]).contains(sep),
    ensures
        split(join(parts, seq![sep]), sep) == parts,
    decreases parts.len(),
{
    if parts.len() == 1 {
        let p = parts[0];
        assert forall|j: int| 0 <= j < p.len() implies p[j] != sep by {
            assert(p.contains(p[j]));
        }
        lemma_find_char_unique(p, sep, p.len() as int);
        assert(split(p, sep) =~= parts);
    } else {
        lemma_split_join(parts.drop_last(), sep);
        lemma_split_last(join(parts.drop_last(), seq![sep]), sep, parts.last());
        assert(parts.drop_last().push(parts.last()) =~= parts);
    }
}

/// A part of joined parts stands in the whole: the result is what stands before it and after it.
pub proof fn lemma_join_holds_parts(parts: Seq<Seq<char>>, sep: Seq<char>, i: int) -> (r: (
    Seq<char>,
    Seq<char>,
))
    requires
        0 <= i < parts.len(),
    ensures
        join(parts, sep) == r.0 + parts[i] + r.1,
    decreases parts.len(),
{
    if parts.len() == 1 {
        assert(join(parts, sep) =~= Seq::<char>::empty() + parts[i] + Seq::<char>::empty());
        (Seq::empty(), Seq::empty())
    } else if i == parts.len() - 1 {
        let before = join(parts.drop_last(), sep) + sep;
        assert(join(parts, sep) =~= before + parts[i] + Seq::<char>::empty());
        (before, Seq::empty())
    } else {
        let (before, after) = lemma_join_holds_parts(parts.drop_last(), sep, i);
        let rest = after + sep + parts.last();
        assert(join(parts, sep) =~= before + parts[i] + rest);
        (before, rest)
    }
}

/// The blank characters of a header line.
pub open spec fn is_blank(c: char) -> bool {
    c == ' ' || c == '\t'
}

/// `s` without the blanks at its start.
pub open spec fn trim_start(s: Seq<char>) -> Seq<char>
    decreases s.len(),
{
    if s.len() > 0 && is_blank(s[0]) {
        trim_start(s.skip(1))
    } else {
        s
    }
}

/// `s` without the blanks at its end.
pub open spec fn trim_end(s: Seq<char>) -> Seq<char>
    decreases s.len(),
{
    if s.len() > 0 && is_blank(s.last()) {
        trim_end(s.drop_last())
    } else {
        s
    }
}

/// `s` without the blanks at either end.
pub open spec fn trim(s: Seq<char>) -> Seq<char> {
    trim_end(trim_start(s))
}

/// `s` without the blanks at either end.
pub fn trimmed(s: &[char]) -> (r: &[char])
    ensures
        r@ == trim(s@),
{
    let mut i: usize = 0;
    assert(s@.skip(0) == s@);
    while i < s.len() && (s[i] == ' ' || s[i] == '\t')
        invariant
            i <= s@.len(),
            trim_start(s@.skip(i as int)) == trim_start(s@),
        decreases s@.len() - i,
    {
        assert(s@.skip(i as int).skip(1) == s@.skip(i + 1));
        i += 1;
    }
    let rest = slice_subrange(s, i, s.len());
    assert(rest@ == s@.skip(i as int));
    let mut n: usize = rest.len();
    assert(rest@.take(n as int) == rest@);
    while n > 0 && (rest[n - 1] == ' ' || rest[n - 1] == '\t')
        invariant
            n <= rest@.len(),
            trim_end(rest@.take(n as int)) == trim_end(rest@),
        decreases n,
    {
        assert(rest@.take(n as int).drop_last() == rest@.take(n - 1));
        n -= 1;
    }
    let r = slice_subrange(rest, 0, n);
    assert(r@ == rest@.take(n as int));
    r
}

/// The value of a decimal digit.
pub open spec fn digit_value(c: char) -> nat {
    (c as nat - '0' as nat) as nat
}

/// Whether a character is a decimal digit.
pub open spec fn is_digit(c: char) -> bool {
    '0' <= c <= '9'
}

/// The number that a run of decimal digits writes.
pub open spec fn digits_value(s: Seq<char>) -> nat
    decreases s.len(),
{
    if s.len() == 0 {
        0
    } else {
        10 * digits_value(s.drop_last()) + digit_value(s.last())
    }
}

/// The digits that follow an optional plus sign.
pub open spec fn after_plus(s: Seq<char>) -> Seq<char> {
    if s.len() > 0 && s[0] == '+' {
        s.skip(1)
    } else {
        s
    }
}

/// The number that `s` writes in decimal, an optional plus sign before its digits.
pub open spec fn parse_nat(s: Seq<char>) -> Option<nat> {
    let d = after_plus(s);
    if d.len() > 0 && forall|i: int| 0 <= i < d.len() ==> is_digit(#[trigger] d[i]) {
        Some(digits_value(d))
    } else {
        None
    }
}

/// The number that `s` writes in decimal, where it is at most `max`.
pub open spec fn parse_up_to(s: Seq<char>, max: nat) -> Option<nat> {
    match parse_nat(s) {
        Some(n) => if n <= max {
            Some(n)
        } else {
            None
        },
        None => None,
    }
}

proof fn lemma_digits_grow(s: Seq<char>, n: int)
    requires
        0 <= n <= s.len(),
    ensures
        digits_value(s.take(n)) <= digits_value(s),
    decreases s.len() - n,
{
    if n == s.len() {
        assert(s.take(n) == s);
    } else {
        lemma_digits_grow(s, n + 1);
        assert(s.take(n + 1).drop_last() == s.take(n));
    }
}

/// The number that `s` writes in decimal, where it is at most `max`.
pub fn parse_number(s: &[char], max: u64) -> (r: Option<u64>)
    ensures
        match parse_up_to(s@, max as nat) {
            Some(n) => r == Some(n as u64),
            None => r is None,
        },
{
    let start: usize = if s.len() > 0 && s[0] == '+' {
        1
    } else {
        0
    };
    let d = slice_subrange(s, start, s.len());
    assert(d@ == after_plus(s@));
    if d.len() == 0 {
        return None;
    }
    let mut value: u64 = 0;
    let mut i: usize = 0;
    while i < d.len()
        invariant
            i <= d@.len(),
            d@ == after_plus(s@),
            value <= max,
            value == digits_value(d@.take(i as int)),
            forall|j: int| 0 <= j < i ==> is_digit(#[trigger] d@[j]),
        decreases d@.len() - i,
    {
        let c = d[i];
        if c < '0' || c > '9' {
            return None;
        }
        let digit: u64 = c as u64 - '0' as u64;
        let next: u128 = value as u128 * 10 + digit as u128;
        assert(d@.take(i + 1).drop_last() == d@.take(i as int));
        assert(next == digits_value(d@.take(i + 1)));
        if next > max as u128 {
            proof {
                lemma_digits_grow(d@, i + 1);
            }
            return None;
        }
        value = next as u64;
        i += 1;
    }
    assert(d@.take(i as int) == d@);
    Some(value)
}

/// The character of a decimal digit.
pub open spec fn digit_char(d: nat) -> char {
    (d + 48) as char
}

/// `n` in decimal.
pub open spec fn decimal(n: nat) -> Seq<char>
    decreases n,
{
    if n < 10 {
        seq![digit_char(n)]
    } else {
        decimal(n / 10).push(digit_char(n % 10))
    }
}

/// A number is written in digits alone.
pub proof fn lemma_decimal_digits(n: nat)
    ensures
        forall|i: int| 0 <= i < decimal(n).len() ==> '0' <= #[trigger] decimal(n)[i] <= '9',
    decreases n,
{
    if n >= 10 {
        lemma_decimal_digits(n / 10);
        let head = decimal(n / 10);
        assert forall|i: int| 0 <= i < decimal(n).len() implies '0' <= #[trigger] decimal(n)[i]
            <= '9' by {
            if i < head.len() {
                assert(decimal(n)[i] == head[i]);
            } else {
                assert(decimal(n)[i] == digit_char(n % 10));
            }
        }
    }
}

/// `n` in decimal.
pub fn decimal_text(n: u128) -> (r: String)
    ensures
        r@ == decimal(n as nat),
    decreases n,
{
    let mut out = if n < 10 {
        String::new()
    } else {
        decimal_text(n / 10)
    };
    let d: u8 = (n % 10) as u8;
    out.push((d + 48) as char);
    if n < 10 {
        assert(out@ =~= seq![digit_char(n as nat)]);
    }
    out
}

/// "true" or "false".
pub open spec fn bool_chars(b: bool) -> Seq<char> {
    if b {
        "true"@
    } else {
        "false"@
    }
}

/// "true" or "false".
pub fn bool_text(b: bool) -> (r: String)
    ensures
        r@ == bool_chars(b),
{
    if b {
        "true".to_string()
    } else {
        "false".to_string()
    }
}

/// A copy of an optional string.
pub fn copy_opt(o: &Option<String>) -> (r: Option<String>)
    ensures
        r == *o,
{
    match o {
        Some(s) => Some(s.clone()),
        None => None,
    }
}

/// A text begins with another exactly where that is what its first characters are.
pub proof fn law_beginning(s: Seq<char>, part: Seq<char>)
    ensures
        begins_with(s, part) <==> part.len() <= s.len() && s.take(part.len() as int) == part,
{
    if part.len() <= s.len() {
        assert(s.subrange(0, part.len() as int) =~= s.take(part.len() as int));
    }
}

/// A text ends with another exactly where that is what its last characters are.
pub proof fn law_end(s: Seq<char>, part: Seq<char>)
    ensures
        finishes_with(s, part) <==> part.len() <= s.len() && s.skip(s.len() - part.len()) == part,
{
    if part.len() <= s.len() {
        assert(s.subrange(s.len() - part.len(), s.len() as int) =~= s.skip(s.len() - part.len()));
    }
}

/// A text contains another exactly where it is made of something, that text and something more.
pub proof fn law_containing(s: Seq<char>, part: Seq<char>)
    ensures
        contains_text(s, part) <==> exists|a: Seq<char>, b: Seq<char>| s == #[trigger] (a + part + b),
{
    if contains_text(s, part) {
        let i = choose|i: int| occurs_at(s, part, i);
        let a = s.take(i);
        let b = s.skip(i + part.len());
        assert(s =~= a + part + b) by {
            assert(part =~= s.subrange(i, i + part.len()));
        }
    }
    if exists|a: Seq<char>, b: Seq<char>| s == #[trigger] (a + part + b) {
        let (a, b) = choose|a: Seq<char>, b: Seq<char>| s == #[trigger] (a + part + b);
        let i = a.len() as int;
        assert(s.subrange(i, i + part.len()) =~= part);
        assert(occurs_at(s, part, i));
    }
}

/// Two texts are the same but for case exactly where each character is the same in both, or is a
/// letter from `A` to `Z` in one and its small form, 32 further on, in the other.
pub proof fn law_same_but_for_case(a: Seq<char>, b: Seq<char>)
    ensures
        same_ignoring_case(a, b) <==> a.len() == b.len() && forall|i: int|
            #![trigger a[i], b[i]]
            0 <= i < a.len() ==> {
                ||| a[i] == b[i]
                ||| 'A' <= a[i] <= 'Z' && b[i] as int == a[i] as int + 32
                ||| 'A' <= b[i] <= 'Z' && a[i] as int == b[i] as int + 32
            },
{
    if same_ignoring_case(a, b) {
        assert forall|i: int|
            #![trigger a[i], b[i]]
            0 <= i < a.len() implies {
            ||| a[i] == b[i]
            ||| 'A' <= a[i] <= 'Z' && b[i] as int == a[i] as int + 32
            ||| 'A' <= b[i] <= 'Z' && a[i] as int == b[i] as int + 32
        } by {
            lemma_lower(a[i]);
            lemma_lower(b[i]);
            assert(ascii_lower(a[i]) == ascii_lower(b[i]));
        }
    } else if a.len() == b.len() {
        let i = choose|i: int|
            0 <= i < a.len() && ascii_lower(#[trigger] a[i]) != ascii_lower(b[i]);
        lemma_lower(a[i]);
        lemma_lower(b[i]);
    }
}

proof fn lemma_lower(c: char)
    ensures
        'A' <= c <= 'Z' ==> ascii_lower(c) as int == c as int + 32,
        !('A' <= c <= 'Z') ==> ascii_lower(c) == c,
{
}

/// What trimming leaves out are the spaces and tabs before and after: what it leaves neither
/// begins nor ends with one.
pub proof fn law_trimming(s: Seq<char>) -> (r: (int, int))
    ensures
        0 <= r.0 <= r.1 <= s.len(),
        trim(s) == s.subrange(r.0, r.1),
        forall|k: int| 0 <= k < r.0 || r.1 <= k < s.len() ==> #[trigger] s[k] == ' ' || s[k] == '\t',
        r.0 < r.1 ==> s[r.0] != ' ' && s[r.0] != '\t' && s[r.1 - 1] != ' ' && s[r.1 - 1] != '\t',
{
    let i = lemma_trim_start(s);
    let t = trim_start(s);
    let j = lemma_trim_end(t);
    assert(t.take(j) =~= s.subrange(i, i + j));
    assert forall|k: int| 0 <= k < i || i + j <= k < s.len() implies #[trigger] s[k] == ' ' || s[k]
        == '\t' by {
        if k >= i + j {
            assert(t[k - i] == s[k]);
        }
    }
    if j > 0 {
        assert(t[0] == s[i]);
        assert(t[j - 1] == s[i + j - 1]);
    }
    (i, i + j)
}

proof fn lemma_trim_start(s: Seq<char>) -> (i: int)
    ensures
        0 <= i <= s.len(),
        trim_start(s) == s.skip(i),
        forall|k: int| 0 <= k < i ==> #[trigger] s[k] == ' ' || s[k] == '\t',
        i < s.len() ==> s[i] != ' ' && s[i] != '\t',
    decreases s.len(),
{
    if s.len() > 0 && is_blank(s[0]) {
        let t = s.skip(1);
        let i = lemma_trim_start(t);
        assert(t.skip(i) =~= s.skip(i + 1));
        assert forall|k: int| 0 <= k < i + 1 implies #[trigger] s[k] == ' ' || s[k] == '\t' by {
            if k > 0 {
                assert(t[k - 1] == s[k]);
            }
        }
        if i < t.len() {
            assert(t[i] == s[i + 1]);
        }
        i + 1
    } else {
        assert(s.skip(0) =~= s);
        0
    }
}

proof fn lemma_trim_end(s: Seq<char>) -> (j: int)
    ensures
        0 <= j <= s.len(),
        trim_end(s) == s.take(j),
        forall|k: int| j <= k < s.len() ==> #[trigger] s[k] == ' ' || s[k] == '\t',
        j > 0 ==> s[j - 1] != ' ' && s[j - 1] != '\t',
    decreases s.len(),
{
    if s.len() > 0 && is_blank(s.last()) {
        let t = s.drop_last();
        let j = lemma_trim_end(t);
        assert(t.take(j) =~= s.take(j));
        assert forall|k: int| j <= k < s.len() implies #[trigger] s[k] == ' ' || s[k] == '\t' by {
            if k < t.len() {
                assert(t[k] == s[k]);
            }
        }
        if j > 0 {
            assert(t[j - 1] == s[j - 1]);
        }
        j
    } else {
        assert(s.take(s.len() as int) =~= s);
        s.len() as int
    }
}

/// The parts of a text, put together again with the separator, are the text.
pub proof fn law_split_parts_make_up_the_text(s: Seq<char>, sep: char)
    ensures
        join(split(s, sep), seq![sep]) == s,
    decreases s.len(),
{
    lemma_find_char(s, sep);
    let i = find_char(s, sep);
    if i < s.len() {
        let rest = s.skip(i + 1);
        law_split_parts_make_up_the_text(rest, sep);
        lemma_split_parts(rest, sep);
        lemma_join_first(s.take(i), split(rest, sep), seq![sep]);
        assert(s.take(i) + seq![sep] + rest =~= s);
    } else {
        assert(split(s, sep) =~= seq![s]);
    }
}

proof fn lemma_join_first(first: Seq<char>, rest: Seq<Seq<char>>, sep: Seq<char>)
    requires
        rest.len() > 0,
    ensures
        join(seq![first] + rest, sep) == first + sep + join(rest, sep),
    decreases rest.len(),
{
    let all = seq![first] + rest;
    assert(all.last() == rest.last());
    assert(all.drop_last() =~= seq![first] + rest.drop_last());
    if rest.len() > 1 {
        lemma_join_first(first, rest.drop_last(), sep);
        assert(first + sep + join(rest.drop_last(), sep) + sep + rest.last() =~= first + sep + (
        join(rest.drop_last(), sep) + sep + rest.last()));
    } else {
        assert(all.drop_last() =~= seq![first]);
        assert(join(all.drop_last(), sep) == first);
        assert(rest =~= seq![rest.last()]);
        assert(join(rest, sep) == rest.last());
    }
}

/// The decimal text of a number is read as that number, with a plus sign before it too, and has
/// no needless zero at its start.
pub proof fn law_decimal_text_is_read_as_the_number(n: nat)
    ensures
        parse_nat(decimal(n)) == Some(n),
        parse_nat(seq!['+'] + decimal(n)) == Some(n),
        n > 0 ==> decimal(n)[0] != '0',
        n == 0 ==> decimal(n) == seq!['0'],
{
    lemma_decimal_digits(n);
    lemma_decimal_value(n);
    let d = decimal(n);
    assert(d[0] != '+');
    assert(forall|i: int| 0 <= i < d.len() ==> is_digit(#[trigger] d[i]));
    assert((seq!['+'] + d).skip(1) =~= d);
    if n == 0 {
        assert(d =~= seq!['0']);
    }
}

proof fn lemma_decimal_value(n: nat)
    ensures
        decimal(n).len() > 0,
        digits_value(decimal(n)) == n,
        n > 0 ==> decimal(n)[0] != '0',
    decreases n,
{
    let d = decimal(n);
    if n < 10 {
        assert(d.drop_last() =~= Seq::<char>::empty());
        assert(digits_value(d.drop_last()) == 0);
    } else {
        lemma_decimal_value(n / 10);
        assert(d.drop_last() =~= decimal(n / 10));
        assert(d[0] == decimal(n / 10)[0]);
    }
}

/// A number is read digit by digit: each digit more multiplies what came before by ten. What holds
/// anything but digits, or none, is no number.
pub proof fn law_numbers_are_decimal(s: Seq<char>, c: char)
    requires
        s.len() > 0,
        s[0] != '+',
    ensures
        match (parse_nat(s), parse_nat(s.push(c))) {
            (Some(n), Some(m)) => '0' <= c <= '9' && m == 10 * n + (c as int - '0' as int),
            (Some(_), None) => !('0' <= c <= '9'),
            (None, r) => r is None,
        },
        parse_nat(Seq::empty()) is None,
{
    let t = s.push(c);
    assert(t.drop_last() =~= s);
    if parse_nat(t) is Some {
        assert forall|i: int| 0 <= i < s.len() implies is_digit(#[trigger] s[i]) by {
            assert(t[i] == s[i]);
        }
        assert(is_digit(t[t.len() - 1]));
    }
    if parse_nat(s) is Some && '0' <= c <= '9' {
        assert forall|i: int| 0 <= i < t.len() implies is_digit(#[trigger] t[i]) by {
            if i < s.len() {
                assert(t[i] == s[i]);
            }
        }
    }
}

/// A text with a separator in it has the parts of what is before it and those of what is after
/// it; one without has itself as its only part.
pub proof fn law_splitting_at_a_separator(a: Seq<char>, b: Seq<char>, sep: char)
    ensures
        split(a + seq![sep] + b, sep) == split(a, sep) + split(b, sep),
        !a.contains(sep) ==> split(a, sep) == seq![a],
    decreases a.len(),
{
    let s = a + seq![sep] + b;
    lemma_find_char(a, sep);
    let i = find_char(a, sep);
    if i < a.len() {
        lemma_find_char_unique(s, sep, i);
        assert(a.contains(sep)) by {
            assert(a[i] == sep);
        }
        assert(s.take(i) =~= a.take(i));
        assert(s.skip(i + 1) =~= a.skip(i + 1) + seq![sep] + b);
        law_splitting_at_a_separator(a.skip(i + 1), b, sep);
        assert(seq![a.take(i)] + (split(a.skip(i + 1), sep) + split(b, sep)) =~= (seq![a.take(i)]
            + split(a.skip(i + 1), sep)) + split(b, sep));
    } else {
        assert(s[a.len() as int] == sep);
        lemma_find_char_unique(s, sep, a.len() as int);
        assert(s.take(a.len() as int) =~= a);
        assert(s.skip(a.len() as int + 1) =~= b);
    }
}

/// Parts are joined one by one, with the separator between each two.
pub proof fn law_joining(a: Seq<Seq<char>>, p: Seq<char>, sep: Seq<char>)
    ensures
        join(Seq::empty(), sep) == Seq::<char>::empty(),
        join(seq![p], sep) == p,
        a.len() > 0 ==> join(a.push(p), sep) == join(a, sep) + sep + p,
{
    assert(a.push(p).drop_last() =~= a);
}

/// The parts of a text hold no separator.
pub proof fn law_parts_hold_no_separator(s: Seq<char>, sep: char, i: int)
    requires
        0 <= i < split(s, sep).len(),
    ensures
        !split(s, sep)[i].contains(sep),
{
    lemma_split_parts(s, sep);
}

/// What a text contains, every text that holds it contains too.
pub proof fn law_longer_texts_contain_as_much(a: Seq<char>, s: Seq<char>, b: Seq<char>, part: Seq<char>)
    requires
        contains_text(s, part),
    ensures
        contains_text(a + s + b, part),
        contains_text(a + s, part),
        contains_text(s + b, part),
{
    let i = choose|i: int| occurs_at(s, part, i);
    let n = part.len() as int;
    assert((a + s + b).subrange(a.len() + i, a.len() + i + n) =~= s.subrange(i, i + n));
    assert(occurs_at(a + s + b, part, a.len() + i));
    assert((a + s).subrange(a.len() + i, a.len() + i + n) =~= s.subrange(i, i + n));
    assert(occurs_at(a + s, part, a.len() + i));
    assert((s + b).subrange(i, i + n) =~= s.subrange(i, i + n));
    assert(occurs_at(s + b, part, i));
}

/// A text contains itself, with whatever stands round it.
pub proof fn law_texts_contain_themselves(a: Seq<char>, s: Seq<char>, b: Seq<char>)
    ensures
        contains_text(a + s + b, s),
        contains_text(s, s),
{
    assert(s.subrange(0, s.len() as int) =~= s);
    assert(occurs_at(s, s, 0));
    law_longer_texts_contain_as_much(a, s, b, s);
}

/// A number is read up to a largest one, which itself is read, and no further.
pub proof fn law_numbers_up_to_a_largest(s: Seq<char>, max: nat, n: nat)
    ensures
        parse_nat(s) == Some(n) && n <= max ==> parse_up_to(s, max) == Some(n),
        parse_nat(s) == Some(n) && n > max ==> parse_up_to(s, max) is None,
        parse_nat(s) is None ==> parse_up_to(s, max) is None,
{
}

/// What optional strings and lists of strings stand for: the characters of each.
pub proof fn law_what_strings_stand_for(s: String, v: Seq<String>, w: Seq<Vec<char>>, i: int)
    ensures
        opt_text(Some(s)) == Some(s@),
        opt_text(None) is None,
        strings(v).len() == v.len(),
        0 <= i < v.len() ==> strings(v)[i] == v[i]@,
        texts(w).len() == w.len(),
        0 <= i < w.len() ==> texts(w)[i] == w[i]@,
{
}

} // verus!
