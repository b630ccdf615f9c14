//! Text as sequences of characters: trimming, splitting, decimal numbers, joining.

use vstd::prelude::*;
use vstd::slice::slice_subrange;

verus! {

/// `String::push` appends the character `ch` to the end of the string.
pub assume_specification[ String::push ](s: &mut String, ch: char)
    ensures
        final(s)@ == old(s)@.push(ch),
;

/// The characters with Unicode's `White_Space` property.
pub open spec fn is_white(c: char) -> bool {
    let u = c as u32;
    ||| 0x9 <= u <= 0xd
    ||| u == 0x20
    ||| u == 0x85
    ||| u == 0xa0
    ||| u == 0x1680
    ||| 0x2000 <= u <= 0x200a
    ||| u == 0x2028
    ||| u == 0x2029
    ||| u == 0x202f
    ||| u == 0x205f
    ||| u == 0x3000
}

/// `s` without its leading white space.
pub open spec fn trim_start(s: Seq<char>) -> Seq<char>
    decreases s.len(),
{
    if s.len() > 0 && is_white(s[0]) {
        trim_start(s.skip(1))
    } else {
        s
    }
}

/// `s` without its trailing white space.
pub open spec fn trim_end(s: Seq<char>) -> Seq<char>
    decreases s.len(),
{
    if s.len() > 0 && is_white(s.last()) {
        trim_end(s.drop_last())
    } else {
        s
    }
}

/// `s` without white space at either end.
pub open spec fn trim(s: Seq<char>) -> Seq<char> {
    trim_end(trim_start(s))
}

/// The position of the first `c` in `s`, or the length of `s` where there is none.
pub open spec fn find(s: Seq<char>, c: char) -> nat
    decreases s.len(),
{
    if s.len() == 0 || s[0] == c {
        0
    } else {
        1 + find(s.skip(1), c)
    }
}

/// The pieces of `s` between occurrences of `sep`; there is always at least one.
pub open spec fn split(s: Seq<char>, sep: char) -> Seq<Seq<char>>
    decreases s.len(),
{
    let i = find(s, sep) as int;
    if i >= s.len() {
        seq![s]
    } else {
        seq![s.take(i)] + split(s.skip(i + 1), sep)
    }
}

/// The text before and after the first `c`, where there is one.
pub open spec fn split_once(s: Seq<char>, c: char) -> Option<(Seq<char>, Seq<char>)> {
    let i = find(s, c) as int;
    if i < s.len() {
        Some((s.take(i), s.skip(i + 1)))
    } else {
        None
    }
}

/// `s` without one carriage return at its end.
pub open spec fn strip_carriage_return(s: Seq<char>) -> Seq<char> {
    if s.len() > 0 && s.last() == '\r' {
        s.drop_last()
    } else {
        s
    }
}

/// The lines of `s`. A line ends in `\n` or `\r\n`; the end of the last line is optional.
pub open spec fn lines(s: Seq<char>) -> Seq<Seq<char>>
    decreases s.len(),
{
    let i = find(s, '\n') as int;
    if s.len() == 0 {
        Seq::empty()
    } else if i >= s.len() {
        seq![s]
    } else {
        seq![strip_carriage_return(s.take(i))] + lines(s.skip(i + 1))
    }
}

/// The number of leading characters of `s` that are not white space.
pub open spec fn word_len(s: Seq<char>) -> nat
    decreases s.len(),
{
    if s.len() == 0 || is_white(s[0]) {
        0
    } else {
        1 + word_len(s.skip(1))
    }
}

/// The maximal runs of characters of `s` that are not white space.
pub open spec fn words(s: Seq<char>) -> Seq<Seq<char>>
    decreases s.len(),
{
    if s.len() == 0 {
        Seq::empty()
    } else {
        let n = word_len(s) as int;
        if 0 < n <= s.len() {
            seq![s.take(n)] + words(s.skip(n))
        } else {
            words(s.skip(1))
        }
    }
}

/// Does `p` stand in `s` at position `i`?
pub open spec fn occurs_at(s: Seq<char>, p: Seq<char>, i: int) -> bool {
    0 <= i && i + p.len() <= s.len() && s.subrange(i, i + p.len()) == p
}

/// Does `p` stand anywhere in `s`?
pub open spec fn contains_text(s: Seq<char>, p: Seq<char>) -> bool {
    exists|i: int| occurs_at(s, p, i)
}

/// The first position at which `p` stands in `s`, or the length of `s` where there is none.
pub open spec fn find_text(s: Seq<char>, p: Seq<char>) -> nat
    decreases s.len(),
{
    if s.len() == 0 || occurs_at(s, p, 0) {
        0
    } else {
        1 + find_text(s.skip(1), p)
    }
}

/// The pieces of `s` between occurrences of the nonempty text `p`, taken from the left.
pub open spec fn split_text(s: Seq<char>, p: Seq<char>) -> Seq<Seq<char>>
    decreases s.len(),
{
    let i = find_text(s, p) as int;
    if p.len() == 0 || i + p.len() > s.len() {
        seq![s]
    } else {
        seq![s.take(i)] + split_text(s.skip(i + p.len()), p)
    }
}

/// Does `s` begin with `p`?
pub open spec fn starts_with(s: Seq<char>, p: Seq<char>) -> bool {
    p.len() <= s.len() && s.take(p.len() as int) == p
}

/// What follows `p` in `s`, where `s` begins with `p`.
pub open spec fn strip_prefix(s: Seq<char>, p: Seq<char>) -> Option<Seq<char>> {
    if starts_with(s, p) {
        Some(s.skip(p.len() as int))
    } else {
        None
    }
}

/// The value of the last line `key: value` among the lines.
pub open spec fn last_field(lines: Seq<Seq<char>>, key: Seq<char>) -> Option<Seq<char>>
    decreases lines.len(),
{
    if lines.len() == 0 {
        None
    } else {
        match split_once(lines.last(), ':') {
            Some((name, value)) if trim(name) == key => Some(trim(value)),
            _ => last_field(lines.drop_last(), key),
        }
    }
}

pub open spec fn is_digit(c: char) -> bool {
    '0' <= c <= '9'
}

pub open spec fn all_digits(s: Seq<char>) -> bool {
    forall|i: int| 0 <= i < s.len() ==> #[trigger] is_digit(s[i])
}

/// The value of a sequence of decimal digits.
pub open spec fn digits_value(s: Seq<char>) -> nat
    decreases s.len(),
{
    if s.len() == 0 {
        0
    } else {
        10 * digits_value(s.drop_last()) + (s.last() as u32 - '0' as u32) as nat
    }
}

/// The natural number that `s` writes: an optional `+` and one or more decimal digits.
pub open spec fn parse_nat(s: Seq<char>) -> Option<nat> {
    let digits = if s.len() > 0 && s[0] == '+' {
        s.skip(1)
    } else {
        s
    };
    if digits.len() > 0 && all_digits(digits) {
        Some(digits_value(digits))
    } else {
        None
    }
}

/// The number that `s` writes, where it is at most `max`.
pub open spec fn parse_up_to(s: Seq<char>, max: nat) -> Option<nat> {
    match parse_nat(s) {
        Some(n) if n <= max => Some(n),
        _ => None,
    }
}

pub open spec fn digit_char(d: nat) -> char {
    (('0' as u32) + d) as char
}

/// The decimal digits of `n`, without leading zeros.
pub open spec fn decimal(n: nat) -> Seq<char>
    decreases n,
{
    if n < 10 {
        seq![digit_char(n)]
    } else {
        decimal(n / 10).push(digit_char(n % 10))
    }
}

/// `parts` one after the other, with `sep` between neighbours.
pub open spec fn join(parts: Seq<Seq<char>>, sep: Seq<char>) -> Seq<char>
    decreases parts.len(),
{
    if parts.len() == 0 {
        Seq::empty()
    } else if parts.len() == 1 {
        parts[0]
    } else {
        join(parts.drop_last(), sep) + sep + parts.last()
    }
}

/// `parts` one after the other.
pub open spec fn concat(parts: Seq<Seq<char>>) -> Seq<char>
    decreases parts.len(),
{
    if parts.len() == 0 {
        Seq::empty()
    } else {
        concat(parts.drop_last()) + parts.last()
    }
}

pub open spec fn lower_char(c: char) -> char {
    if 'A' <= c <= 'Z' {
        ((c as u32) + 32) as char
    } else {
        c
    }
}

/// `s` with the ASCII capitals in lower case.
pub open spec fn lower(s: Seq<char>) -> Seq<char> {
    s.map_values(|c: char| lower_char(c))
}

/// `n` times the character `c`.
pub open spec fn repeated(c: char, n: nat) -> Seq<char> {
    Seq::new(n, |i: int| c)
}

/// `s` followed by spaces up to a width of `width` characters.
pub open spec fn pad_right(s: Seq<char>, width: nat) -> Seq<char> {
    if s.len() < width {
        s + repeated(' ', (width - s.len()) as nat)
    } else {
        s
    }
}

/// `s` preceded by spaces up to a width of `width` characters.
pub open spec fn pad_left(s: Seq<char>, width: nat) -> Seq<char> {
    if s.len() < width {
        repeated(' ', (width - s.len()) as nat) + s
    } else {
        s
    }
}

/// The contents of a list of character slices.
pub open spec fn slice_views(parts: Seq<&[char]>) -> Seq<Seq<char>> {
    parts.map_values(|p: &[char]| p@)
}

/// The contents of a list of strings.
pub open spec fn string_views(parts: Seq<String>) -> Seq<Seq<char>> {
    parts.map_values(|p: String| p@)
}

/// The characters of `s`.
pub fn chars_of(s: &str) -> (out: Vec<char>)
    ensures
        out@ == s@,
{
    let mut out: Vec<char> = Vec::new();
    for c in it: s.chars()
        invariant
            out@ == it.seq().take(it.index() as int),
            it.seq() == s@,
    {
        out.push(c);
    }
    out
}

/// The string with the characters `cs`.
pub fn string_of(cs: &[char]) -> (out: String)
    ensures
        out@ == cs@,
{
    let mut out = String::new();
    for i in 0..cs.len()
        invariant
            out@ == cs@.take(i as int),
    {
        out.push(cs[i]);
    }
    out
}

/// Is `c` white space?
pub fn white(c: char) -> (r: bool)
    ensures
        r == is_white(c),
{
    let u: u32 = c as u32;
    (0x9 <= u && u <= 0xd) || u == 0x20 || u == 0x85 || u == 0xa0 || u == 0x1680 || (0x2000 <= u
        && u <= 0x200a) || u == 0x2028 || u == 0x2029 || u == 0x202f || u == 0x205f || u == 0x3000
}

/// `s` without white space at either end.
pub fn trimmed(s: &[char]) -> (r: &[char])
    ensures
        r@ == trim(s@),
{
    let mut i: usize = 0;
    assert(s@.skip(0) == s@);
    while i < s.len() && white(s[i])
        invariant
            i <= s.len(),
            trim_start(s@) == trim_start(s@.skip(i as int)),
        decreases s.len() - i,
    {
        assert(s@.skip(i as int).skip(1) == s@.skip(i + 1));
        i = i + 1;
    }
    assert(trim_start(s@) == s@.skip(i as int));
    let mut j: usize = s.len();
    assert(s@.subrange(i as int, j as int) == s@.skip(i as int));
    while j > i && white(s[j - 1])
        invariant
            i <= j <= s.len(),
            trim(s@) == trim_end(s@.subrange(i as int, j as int)),
        decreases j,
    {
        assert(s@.subrange(i as int, j as int).drop_last() == s@.subrange(i as int, j - 1));
        j = j - 1;
    }
    slice_subrange(s, i, j)
}

/// The position of the first `c` in `s`, or the length of `s`.
pub fn position(s: &[char], c: char) -> (r: usize)
    ensures
        r == find(s@, c),
        r <= s.len(),
        r < s.len() ==> s@[r as int] == c,
{
    let mut i: usize = 0;
    assert(s@.skip(0) == s@);
    while i < s.len() && s[i] != c
        invariant
            i <= s.len(),
            find(s@, c) == i + find(s@.skip(i as int), c),
        decreases s.len() - i,
    {
        assert(s@.skip(i as int).skip(1) == s@.skip(i + 1));
        i = i + 1;
    }
    i
}

proof fn lemma_views_push(parts: Seq<&[char]>, p: &[char])
    ensures
        slice_views(parts.push(p)) == slice_views(parts).push(p@),
{
    assert(slice_views(parts.push(p)) =~= slice_views(parts).push(p@));
}

/// The pieces of `s` between occurrences of `sep`.
pub fn split_on(s: &[char], sep: char) -> (r: Vec<&[char]>)
    ensures
        slice_views(r@) == split(s@, sep),
{
    let mut out: Vec<&[char]> = Vec::new();
    let mut start: usize = 0;
    assert(s@.skip(0) == s@);
    assert(slice_views(out@) =~= Seq::<Seq<char>>::empty());
    loop
        invariant
            start <= s.len(),
            split(s@, sep) == slice_views(out@) + split(s@.skip(start as int), sep),
        decreases s.len() - start,
    {
        let rest = slice_subrange(s, start, s.len());
        assert(rest@ == s@.skip(start as int));
        let i: usize = position(rest, sep);
        let ghost before = out@;
        if i == rest.len() {
            out.push(rest);
            proof {
                lemma_views_push(before, rest);
                assert(slice_views(before) + seq![rest@] == slice_views(before).push(rest@));
            }
            return out;
        }
        let piece = slice_subrange(rest, 0, i);
        out.push(piece);
        proof {
            lemma_views_push(before, piece);
            assert(piece@ == rest@.take(i as int));
            assert(rest@.skip(i + 1) == s@.skip(start + i + 1));
            assert(slice_views(before) + (seq![piece@] + split(rest@.skip(i + 1), sep))
                == slice_views(before).push(piece@) + split(rest@.skip(i + 1), sep));
        }
        start = start + i + 1;
    }
}

/// The text before and after the first `c`, where there is one.
pub fn split_at_first(s: &[char], c: char) -> (r: Option<(&[char], &[char])>)
    ensures
        match r {
            Some((a, b)) => split_once(s@, c) == Some((a@, b@)),
            None => split_once(s@, c) is None,
        },
{
    let i: usize = position(s, c);
    if i < s.len() {
        let a = slice_subrange(s, 0, i);
        let b = slice_subrange(s, i + 1, s.len());
        assert(a@ == s@.take(i as int));
        assert(b@ == s@.skip(i + 1));
        Some((a, b))
    } else {
        None
    }
}

/// The lines of `s`.
pub fn lines_of(s: &[char]) -> (r: Vec<&[char]>)
    ensures
        slice_views(r@) == lines(s@),
{
    let mut out: Vec<&[char]> = Vec::new();
    let mut start: usize = 0;
    assert(s@.skip(0) == s@);
    assert(slice_views(out@) =~= Seq::<Seq<char>>::empty());
    while start < s.len()
        invariant
            start <= s.len(),
            lines(s@) == slice_views(out@) + lines(s@.skip(start as int)),
        decreases s.len() - start,
    {
        let rest = slice_subrange(s, start, s.len());
        assert(rest@ == s@.skip(start as int));
        let i: usize = position(rest, '\n');
        let ghost before = out@;
        if i == rest.len() {
            out.push(rest);
            proof {
                lemma_views_push(before, rest);
                assert(slice_views(before) + seq![rest@] == slice_views(before).push(rest@));
                assert(s@.skip(s@.len() as int) == Seq::<char>::empty());
            }
            return out;
        }
        let line = if i > 0 && rest[i - 1] == '\r' {
            slice_subrange(rest, 0, i - 1)
        } else {
            slice_subrange(rest, 0, i)
        };
        out.push(line);
        proof {
            lemma_views_push(before, line);
            assert(line@ == strip_carriage_return(rest@.take(i as int)));
            assert(rest@.skip(i + 1) == s@.skip(start + i + 1));
            assert(slice_views(before) + (seq![line@] + lines(rest@.skip(i + 1)))
                == slice_views(before).push(line@) + lines(rest@.skip(i + 1)));
        }
        start = start + i + 1;
    }
    out
}

/// The number of leading characters of `s` that are not white space.
pub fn word_end(s: &[char]) -> (r: usize)
    ensures
        r == word_len(s@),
        r <= s.len(),
{
    let mut i: usize = 0;
    assert(s@.skip(0) == s@);
    while i < s.len() && !white(s[i])
        invariant
            i <= s.len(),
            word_len(s@) == i + word_len(s@.skip(i as int)),
        decreases s.len() - i,
    {
        assert(s@.skip(i as int).skip(1) == s@.skip(i + 1));
        i = i + 1;
    }
    i
}

/// The maximal runs of characters of `s` that are not white space.
pub fn words_of(s: &[char]) -> (r: Vec<&[char]>)
    ensures
        slice_views(r@) == words(s@),
{
    let mut out: Vec<&[char]> = Vec::new();
    let mut start: usize = 0;
    assert(s@.skip(0) == s@);
    assert(slice_views(out@) =~= Seq::<Seq<char>>::empty());
    while start < s.len()
        invariant
            start <= s.len(),
            words(s@) == slice_views(out@) + words(s@.skip(start as int)),
        decreases s.len() - start,
    {
        let rest = slice_subrange(s, start, s.len());
        assert(rest@ == s@.skip(start as int));
        let n: usize = word_end(rest);
        if n == 0 {
            assert(rest@.skip(1) == s@.skip(start + 1));
            start = start + 1;
        } else {
            let ghost before = out@;
            let word = slice_subrange(rest, 0, n);
            out.push(word);
            proof {
                lemma_views_push(before, word);
                assert(word@ == rest@.take(n as int));
                assert(rest@.skip(n as int) == s@.skip(start + n));
                assert(slice_views(before) + (seq![word@] + words(rest@.skip(n as int)))
                    == slice_views(before).push(word@) + words(rest@.skip(n as int)));
            }
            start = start + n;
        }
    }
    out
}

/// Are the two character sequences the same?
pub fn same(a: &[char], b: &[char]) -> (r: bool)
    ensures
        r == (a@ == b@),
{
    if a.len() != b.len() {
        return false;
    }
    let mut i: usize = 0;
    while i < a.len()
        invariant
            i <= a.len(),
            a.len() == b.len(),
            forall|k: int| 0 <= k < i ==> a@[k] == b@[k],
        decreases a.len() - i,
    {
        if a[i] != b[i] {
            return false;
        }
        i = i + 1;
    }
    assert(a@ =~= b@);
    true
}

/// Are `cs` the characters of `s`?
pub fn text_is(cs: &[char], s: &str) -> (r: bool)
    ensures
        r == (cs@ == s@),
{
    let other = chars_of(s);
    same(cs, other.as_slice())
}

/// Does `s` begin with `p`?
pub fn begins_with(s: &[char], p: &[char]) -> (r: bool)
    ensures
        r == starts_with(s@, p@),
{
    if p.len() > s.len() {
        return false;
    }
    let head = slice_subrange(s, 0, p.len());
    assert(head@ == s@.take(p@.len() as int));
    same(head, p)
}

/// What follows `p` in `s`, where `s` begins with `p`.
pub fn after_prefix<'a>(s: &'a [char], p: &[char]) -> (r: Option<&'a [char]>)
    ensures
        match r {
            Some(rest) => strip_prefix(s@, p@) == Some(rest@),
            None => strip_prefix(s@, p@) is None,
        },
{
    if begins_with(s, p) {
        let rest = slice_subrange(s, p.len(), s.len());
        assert(rest@ == s@.skip(p@.len() as int));
        Some(rest)
    } else {
        None
    }
}

/// The first position at which `p` stands in `s`, or the length of `s`.
pub fn position_of_text(s: &[char], p: &[char]) -> (r: usize)
    ensures
        r == find_text(s@, p@),
        r <= s.len(),
        r < s.len() ==> occurs_at(s@, p@, r as int),
        forall|k: int| 0 <= k < r ==> !occurs_at(s@, p@, k),
{
    let mut i: usize = 0;
    assert(s@.skip(0) == s@);
    while i < s.len()
        invariant
            i <= s.len(),
            find_text(s@, p@) == i + find_text(s@.skip(i as int), p@),
            forall|k: int| 0 <= k < i ==> !occurs_at(s@, p@, k),
        decreases s.len() - i,
    {
        let rest = slice_subrange(s, i, s.len());
        assert(rest@ == s@.skip(i as int));
        proof {
            if p@.len() <= rest@.len() {
                assert(rest@.subrange(0, p@.len() as int) == rest@.take(p@.len() as int));
                assert(s@.subrange(i as int, i + p@.len()) == rest@.take(p@.len() as int));
            }
        }
        if begins_with(rest, p) {
            assert(occurs_at(rest@, p@, 0));
            return i;
        }
        assert(!occurs_at(rest@, p@, 0));
        assert(rest@.skip(1) == s@.skip(i + 1));
        i = i + 1;
    }
    i
}

/// Does the nonempty text `p` stand anywhere in `s`?
pub fn has_text(s: &[char], p: &[char]) -> (r: bool)
    requires
        p.len() > 0,
    ensures
        r == contains_text(s@, p@),
{
    let i: usize = position_of_text(s, p);
    i < s.len()
}

/// The pieces of `s` between occurrences of the nonempty text `p`.
pub fn split_on_text<'a>(s: &'a [char], p: &[char]) -> (r: Vec<&'a [char]>)
    requires
        p.len() > 0,
    ensures
        slice_views(r@) == split_text(s@, p@),
{
    let mut out: Vec<&[char]> = Vec::new();
    let mut start: usize = 0;
    assert(s@.skip(0) == s@);
    assert(slice_views(out@) =~= Seq::<Seq<char>>::empty());
    loop
        invariant
            start <= s.len(),
            p.len() > 0,
            split_text(s@, p@) == slice_views(out@) + split_text(s@.skip(start as int), p@),
        decreases s.len() - start,
    {
        let rest = slice_subrange(s, start, s.len());
        assert(rest@ == s@.skip(start as int));
        let i: usize = position_of_text(rest, p);
        let ghost before = out@;
        if i == rest.len() {
            out.push(rest);
            proof {
                lemma_views_push(before, rest);
                assert(slice_views(before) + seq![rest@] == slice_views(before).push(rest@));
            }
            return out;
        }
        let piece = slice_subrange(rest, 0, i);
        out.push(piece);
        proof {
            lemma_views_push(before, piece);
            assert(piece@ == rest@.take(i as int));
            assert(rest@.skip(i + p@.len()) == s@.skip(start + i + p@.len()));
            assert(slice_views(before) + (seq![piece@] + split_text(rest@.skip(i + p@.len()), p@))
                == slice_views(before).push(piece@) + split_text(rest@.skip(i + p@.len()), p@));
        }
        start = start + i + p.len();
    }
}

proof fn lemma_digits_value_grows(s: Seq<char>, i: int)
    requires
        0 <= i <= s.len(),
        all_digits(s),
    ensures
        digits_value(s.take(i)) <= digits_value(s),
    decreases s.len() - i,
{
    if i < s.len() {
        lemma_digits_value_grows(s, i + 1);
        assert(s.take(i + 1).drop_last() == s.take(i));
        assert(s.take(i + 1).last() == s[i]);
        assert(is_digit(s[i]));
    } else {
        assert(s.take(i) == s);
    }
}

/// The number that `s` writes, where it fits in 64 bits.
pub fn parse_u64(s: &[char]) -> (r: Option<u64>)
    ensures
        match r {
            Some(n) => parse_up_to(s@, u64::MAX as nat) == Some(n as nat),
            None => parse_up_to(s@, u64::MAX as nat) is None,
        },
{
    let digits = if s.len() > 0 && s[0] == '+' {
        slice_subrange(s, 1, s.len())
    } else {
        slice_subrange(s, 0, s.len())
    };
    assert(digits@ == if s@.len() > 0 && s@[0] == '+' {
        s@.skip(1)
    } else {
        s@
    });
    let ghost parsed = if all_digits(digits@) {
        Some(digits_value(digits@))
    } else {
        None
    };
    if digits.len() == 0 {
        return None;
    }
    let mut k: usize = 0;
    while k < digits.len()
        invariant
            k <= digits.len(),
            parse_nat(s@) == parsed,
            parsed is Some ==> all_digits(digits@),
            forall|i: int| 0 <= i < k ==> #[trigger] is_digit(digits@[i]),
        decreases digits.len() - k,
    {
        if digits[k] < '0' || digits[k] > '9' {
            assert(!is_digit(digits@[k as int]));
            return None;
        }
        k = k + 1;
    }
    let mut value: u64 = 0;
    let mut i: usize = 0;
    while i < digits.len()
        invariant
            i <= digits.len(),
            all_digits(digits@),
            parse_nat(s@) == Some(digits_value(digits@)),
            value == digits_value(digits@.take(i as int)),
        decreases digits.len() - i,
    {
        let c = digits[i];
        assert(is_digit(digits@[i as int]));
        let digit: u64 = (c as u32 - '0' as u32) as u64;
        proof {
            lemma_digits_value_grows(digits@, i + 1);
            assert(digits@.take(i + 1).drop_last() == digits@.take(i as int));
        }
        if value > (u64::MAX - digit) / 10 {
            return None;
        }
        value = value * 10 + digit;
        i = i + 1;
    }
    assert(digits@.take(digits@.len() as int) == digits@);
    Some(value)
}

/// The number that `s` writes, where it fits in a `usize`.
pub fn parse_usize(s: &[char]) -> (r: Option<usize>)
    ensures
        match r {
            Some(n) => parse_up_to(s@, usize::MAX as nat) == Some(n as nat),
            None => parse_up_to(s@, usize::MAX as nat) is None,
        },
{
    match parse_u64(s) {
        Some(n) => if n <= usize::MAX as u64 {
            Some(n as usize)
        } else {
            None
        },
        None => None,
    }
}

/// Appends the decimal digits of `n` to `out`.
pub fn push_decimal(out: &mut String, n: u64)
    ensures
        final(out)@ == old(out)@ + decimal(n as nat),
    decreases n,
{
    if n >= 10 {
        push_decimal(out, n / 10);
    }
    let d: u8 = (n % 10) as u8;
    let c: char = (48 + d) as char;
    assert(c == digit_char((n % 10) as nat));
    out.push(c);
    proof {
        if n < 10 {
            assert(old(out)@.push(c) == old(out)@ + seq![c]);
        } else {
            assert((old(out)@ + decimal((n / 10) as nat)).push(c) == old(out)@ + decimal(
                (n / 10) as nat,
            ).push(c));
        }
    }
}

/// The decimal digits of `n`.
pub fn decimal_of(n: u64) -> (r: String)
    ensures
        r@ == decimal(n as nat),
{
    let mut out = String::new();
    push_decimal(&mut out, n);
    assert(Seq::<char>::empty() + decimal(n as nat) == decimal(n as nat));
    out
}

/// Appends `n` times the character `c` to `out`.
pub fn push_repeated(out: &mut String, c: char, n: usize)
    ensures
        final(out)@ == old(out)@ + repeated(c, n as nat),
{
    for i in 0..n
        invariant
            out@ == old(out)@ + repeated(c, i as nat),
    {
        out.push(c);
        assert((old(out)@ + repeated(c, i as nat)).push(c) =~= old(out)@ + repeated(
            c,
            (i + 1) as nat,
        ));
    }
    assert(old(out)@ + repeated(c, 0) =~= old(out)@);
}

/// `s` followed by spaces up to a width of `width` characters.
pub fn padded_right(s: &str, width: usize) -> (r: String)
    ensures
        r@ == pad_right(s@, width as nat),
{
    let mut out = s.to_string();
    let len: usize = chars_of(s).len();
    if len < width {
        push_repeated(&mut out, ' ', width - len);
    }
    out
}

/// `s` preceded by spaces up to a width of `width` characters.
pub fn padded_left(s: &str, width: usize) -> (r: String)
    ensures
        r@ == pad_left(s@, width as nat),
{
    let mut out = String::new();
    let len: usize = chars_of(s).len();
    if len < width {
        push_repeated(&mut out, ' ', width - len);
    }
    out.append(s);
    proof {
        if s@.len() < width {
            assert(Seq::<char>::empty() + repeated(' ', (width - s@.len()) as nat) == repeated(
                ' ',
                (width - s@.len()) as nat,
            ));
        } else {
            assert(Seq::<char>::empty() + s@ == s@);
        }
    }
    out
}

/// `parts` one after the other, with `sep` between neighbours.
pub fn joined(parts: &Vec<String>, sep: &str) -> (r: String)
    ensures
        r@ == join(string_views(parts@), sep@),
{
    let mut out = String::new();
    let ghost views = string_views(parts@);
    for i in 0..parts.len()
        invariant
            views == string_views(parts@),
            out@ == join(views.take(i as int), sep@),
    {
        assert(views.take(i + 1).drop_last() == views.take(i as int));
        assert(views.take(i + 1).last() == parts@[i as int]@);
        if i > 0 {
            out.append(sep);
        } else {
            assert(Seq::<char>::empty() + parts@[0]@ == parts@[0]@);
        }
        out.append(parts[i].as_str());
    }
    assert(views.take(parts@.len() as int) == views);
    out
}

/// `parts` one after the other.
pub fn concatenated(parts: &Vec<String>) -> (r: String)
    ensures
        r@ == concat(string_views(parts@)),
{
    let mut out = String::new();
    let ghost views = string_views(parts@);
    for i in 0..parts.len()
        invariant
            views == string_views(parts@),
            out@ == concat(views.take(i as int)),
    {
        assert(views.take(i + 1).drop_last() == views.take(i as int));
        assert(views.take(i + 1).last() == parts@[i as int]@);
        out.append(parts[i].as_str());
    }
    assert(views.take(parts@.len() as int) == views);
    out
}

/// `s` with the ASCII capitals in lower case.
pub fn lowered(s: &[char]) -> (r: Vec<char>)
    ensures
        r@ == lower(s@),
{
    let mut out: Vec<char> = Vec::new();
    for i in 0..s.len()
        invariant
            out@ == lower(s@.take(i as int)),
    {
        let c = s[i];
        let l: char = if 'A' <= c && c <= 'Z' {
            (c as u8 + 32) as char
        } else {
            c
        };
        assert(l == lower_char(c));
        out.push(l);
        assert(lower(s@.take(i + 1)) =~= lower(s@.take(i as int)).push(lower_char(s@[i as int])));
    }
    assert(s@.take(s@.len() as int) == s@);
    out
}

proof fn lemma_digit_char(d: nat)
    requires
        d < 10,
    ensures
        is_digit(digit_char(d)),
        digit_char(d) as u32 - '0' as u32 == d,
{
}

/// Decimal digits: at least one, and nothing but digits.
pub proof fn decimal_is_digits(n: nat)
    ensures
        decimal(n).len() > 0,
        all_digits(decimal(n)),
    decreases n,
{
    if n < 10 {
        lemma_digit_char(n);
    } else {
        decimal_is_digits(n / 10);
        lemma_digit_char(n % 10);
        let head = decimal(n / 10);
        assert forall|i: int| 0 <= i < decimal(n).len() implies #[trigger] is_digit(decimal(n)[i]) by {
            if i < head.len() {
                assert(decimal(n)[i] == head[i]);
                assert(is_digit(head[i]));
            }
        }
    }
}

proof fn lemma_decimal_value(n: nat)
    ensures
        digits_value(decimal(n)) == n,
    decreases n,
{
    if n < 10 {
        lemma_digit_char(n);
        assert(decimal(n).drop_last() == Seq::<char>::empty());
        reveal_with_fuel(digits_value, 2);
    } else {
        lemma_decimal_value(n / 10);
        lemma_digit_char(n % 10);
        assert(decimal(n).drop_last() == decimal(n / 10));
    }
}

/// The decimal digits of a number read back as that number.
pub proof fn decimal_reads_back(n: nat)
    ensures
        parse_nat(decimal(n)) == Some(n),
{
    decimal_is_digits(n);
    lemma_decimal_value(n);
    assert(is_digit(decimal(n)[0]));
}

/// Different numbers have different digits.
pub proof fn decimal_is_injective(a: nat, b: nat)
    requires
        decimal(a) == decimal(b),
    ensures
        a == b,
{
    decimal_reads_back(a);
    decimal_reads_back(b);
}

/// `find` passes over a prefix without `c`.
pub proof fn lemma_find_after(a: Seq<char>, b: Seq<char>, c: char)
    requires
        forall|i: int| 0 <= i < a.len() ==> a[i] != c,
    ensures
        find(a + b, c) == a.len() + find(b, c),
    decreases a.len(),
{
    if a.len() == 0 {
        assert(a + b == b);
    } else {
        assert((a + b)[0] == a[0]);
        assert((a + b).skip(1) == a.skip(1) + b);
        lemma_find_after(a.skip(1), b, c);
    }
}

/// `find` stops inside a prefix that holds `c`, wherever that prefix stands.
pub proof fn lemma_find_within(a: Seq<char>, b: Seq<char>, c: char)
    ensures
        find(a, c) <= a.len(),
        find(a, c) < a.len() ==> find(a + b, c) == find(a, c) && a[find(a, c) as int] == c,
        find(a, c) == a.len() ==> forall|i: int| 0 <= i < a.len() ==> a[i] != c,
    decreases a.len(),
{
    if a.len() > 0 {
        assert((a + b)[0] == a[0]);
        assert((a + b).skip(1) == a.skip(1) + b);
        lemma_find_within(a.skip(1), b, c);
        if a[0] != c {
            let t = a.skip(1);
            if find(a, c) < a.len() {
                assert(t[find(t, c) as int] == a[find(a, c) as int]);
            }
            if find(t, c) == t.len() {
                assert forall|i: int| 0 <= i < a.len() implies a[i] != c by {
                    if i > 0 {
                        assert(t[i - 1] == a[i]);
                    }
                }
            }
        }
    }
}

/// Splitting a text at a separator and its two sides apart gives the same pieces.
pub proof fn split_of_joined(a: Seq<char>, b: Seq<char>, sep: char)
    ensures
        split(a + seq![sep] + b, sep) == split(a, sep) + split(b, sep),
    decreases a.len(),
{
    let s = a + seq![sep] + b;
    let i = find(a, sep) as int;
    assert(s == a + (seq![sep] + b));
    lemma_find_within(a, seq![sep] + b, sep);
    if i < a.len() {
        assert(s.take(i) == a.take(i));
        assert(s.skip(i + 1) == a.skip(i + 1) + seq![sep] + b);
        split_of_joined(a.skip(i + 1), b, sep);
        assert(seq![a.take(i)] + (split(a.skip(i + 1), sep) + split(b, sep)) == (seq![a.take(i)]
            + split(a.skip(i + 1), sep)) + split(b, sep));
    } else {
        lemma_find_after(a, seq![sep] + b, sep);
        assert((seq![sep] + b)[0] == sep);
        assert(s.take(i) == a);
        assert(s.skip(i + 1) == b);
    }
}

/// The lines of two texts with a line end between them are those of the one and of the other.
pub proof fn lines_of_two(a: Seq<char>, b: Seq<char>)
    requires
        a.len() > 0,
        a.last() != '\n',
        a.last() != '\r',
    ensures
        lines(a + seq!['\n'] + b) == lines(a) + lines(b),
    decreases a.len(),
{
    let s = a + seq!['\n'] + b;
    let i = find(a, '\n') as int;
    assert(s == a + (seq!['\n'] + b));
    lemma_find_within(a, seq!['\n'] + b, '\n');
    if i < a.len() {
        let rest = a.skip(i + 1);
        assert(i + 1 < a.len());
        assert(s.take(i) == a.take(i));
        assert(s.skip(i + 1) == rest + seq!['\n'] + b);
        assert(rest.last() == a.last());
        lines_of_two(rest, b);
        let line = strip_carriage_return(a.take(i));
        assert(seq![line] + (lines(rest) + lines(b)) == (seq![line] + lines(rest)) + lines(b));
    } else {
        lemma_find_after(a, seq!['\n'] + b, '\n');
        assert((seq!['\n'] + b)[0] == '\n');
        assert(s.take(i) == a);
        assert(s.skip(i + 1) == b);
    }
}

/// Can `line` stand as a line of a text: is there something in it, and no line end?
pub open spec fn is_line(line: Seq<char>) -> bool {
    &&& line.len() > 0
    &&& line.last() != '\r'
    &&& forall|i: int| 0 <= i < line.len() ==> #[trigger] line[i] != '\n'
}

/// The lines of a text that was joined from lines are those lines.
pub proof fn lines_of_joined(parts: Seq<Seq<char>>)
    requires
        forall|i: int| 0 <= i < parts.len() ==> is_line(#[trigger] parts[i]),
    ensures
        lines(join(parts, seq!['\n'])) == parts,
        parts.len() > 0 ==> join(parts, seq!['\n']).len() > 0 && join(parts, seq!['\n']).last()
            == parts.last().last(),
    decreases parts.len(),
{
    if parts.len() > 0 {
        let last = parts.last();
        assert(is_line(last));
        lemma_find_within(last, Seq::empty(), '\n');
        assert(last.len() > 0);
        if find(last, '\n') < last.len() {
            assert(last[find(last, '\n') as int] == '\n');
        }
        assert(lines(last) =~= seq![last]);
        if parts.len() == 1 {
            assert(parts =~= seq![last]);
        } else {
            let earlier = parts.drop_last();
            assert forall|i: int| 0 <= i < earlier.len() implies is_line(#[trigger] earlier[i]) by {
                assert(earlier[i] == parts[i]);
            }
            lines_of_joined(earlier);
            assert(is_line(earlier.last()));
            lines_of_two(join(earlier, seq!['\n']), last);
            assert(parts =~= earlier + seq![last]);
        }
    }
}

/// Where the characters of parts of one width come to stand in the joined text.
pub proof fn lemma_join_grid(parts: Seq<Seq<char>>, sep: Seq<char>, width: nat)
    requires
        forall|i: int| 0 <= i < parts.len() ==> (#[trigger] parts[i]).len() == width,
    ensures
        parts.len() > 0 ==> join(parts, sep).len() == parts.len() * (width + sep.len()) - sep.len(),
        forall|i: int, j: int|
            0 <= i < parts.len() && 0 <= j < width ==> join(parts, sep)[i * (width + sep.len()) + j]
                == #[trigger] parts[i][j],
        forall|i: int, j: int|
            0 <= i < parts.len() - 1 && 0 <= j < sep.len() ==> #[trigger] at(
                join(parts, sep),
                i * (width + sep.len()) + width + j,
            ) == sep[j],
    decreases parts.len(),
{
    let pitch = width + sep.len();
    if parts.len() == 1 {
        assert(0 * pitch == 0);
        assert(1 * pitch == pitch);
    } else if parts.len() > 1 {
        let earlier = parts.drop_last();
        let n = earlier.len() as int;
        lemma_join_grid(earlier, sep, width);
        let whole = join(parts, sep);
        let head = join(earlier, sep);
        assert(parts.len() * pitch == n * pitch + pitch) by (nonlinear_arith)
            requires
                parts.len() == n + 1,
        ;
        assert forall|i: int, j: int| 0 <= i < parts.len() && 0 <= j < width implies whole[i * pitch
            + j] == #[trigger] parts[i][j] by {
            if i < n {
                lemma_within_grid(i, n, pitch as int);
                assert(parts[i] == earlier[i]);
                assert(head[i * pitch + j] == earlier[i][j]);
            } else {
                assert(i * pitch + j == head.len() + sep.len() + j);
            }
        }
        assert forall|i: int, j: int|
            0 <= i < parts.len() - 1 && 0 <= j < sep.len() implies #[trigger] at(
            whole,
            i * pitch + width + j,
        ) == sep[j] by {
            if i < n - 1 {
                lemma_within_grid(i, n - 1, pitch as int);
                assert((n - 1) * pitch == n * pitch - pitch) by (nonlinear_arith);
                assert(at(head, i * pitch + width + j) == sep[j]);
            } else {
                assert((n - 1) * pitch == n * pitch - pitch) by (nonlinear_arith);
            }
        }
    }
}

/// The character of `s` at `i`.
pub open spec fn at(s: Seq<char>, i: int) -> char {
    s[i]
}

proof fn lemma_within_grid(i: int, n: int, pitch: int)
    requires
        0 <= i < n,
        pitch >= 0,
    ensures
        0 <= i * pitch,
        i * pitch + pitch <= n * pitch,
{
    assert(i * pitch + pitch <= n * pitch && 0 <= i * pitch) by (nonlinear_arith)
        requires
            0 <= i < n,
            pitch >= 0,
    ;
}

/// White space in front does not matter to `trim`.
pub proof fn lemma_trim_skips_front(s: Seq<char>)
    requires
        s.len() > 0,
        is_white(s[0]),
    ensures
        trim(s) == trim(s.skip(1)),
{
}

proof fn lemma_trim_start_of_longer(s: Seq<char>, w: char)
    requires
        is_white(w),
    ensures
        trim_start(s).len() == 0 ==> trim_start(s.push(w)).len() == 0,
        trim_start(s).len() > 0 ==> trim_start(s.push(w)) == trim_start(s).push(w),
    decreases s.len(),
{
    if s.len() == 0 {
        assert(s.push(w).skip(1) == Seq::<char>::empty());
        reveal_with_fuel(trim_start, 2);
    } else if is_white(s[0]) {
        assert(s.push(w)[0] == s[0]);
        assert(s.push(w).skip(1) == s.skip(1).push(w));
        lemma_trim_start_of_longer(s.skip(1), w);
    } else {
        assert(s.push(w)[0] == s[0]);
    }
}

/// White space at the end does not matter to `trim`.
pub proof fn lemma_trim_skips_end(s: Seq<char>, w: char)
    requires
        is_white(w),
    ensures
        trim(s.push(w)) == trim(s),
{
    lemma_trim_start_of_longer(s, w);
    let t = trim_start(s);
    if t.len() > 0 {
        assert(t.push(w).drop_last() == t);
    } else {
        assert(trim_start(s.push(w)) =~= t);
    }
}

/// A text with no white space at its ends is its own trimmed text.
pub proof fn lemma_trim_keeps(s: Seq<char>)
    requires
        s.len() > 0 ==> !is_white(s[0]) && !is_white(s.last()),
    ensures
        trim(s) == s,
{
}

/// White space is what Unicode gives the property `White_Space`: the ASCII line and tab controls and
/// the space, the next-line control, the no-break space, and the spaces and separators further up.
pub proof fn white_space_is_unicodes(c: char)
    ensures
        is_white(c) <==> {
            ||| c == '\t'
            ||| c == '\n'
            ||| c == '\u{b}'
            ||| c == '\u{c}'
            ||| c == '\r'
            ||| c == ' '
            ||| c == '\u{85}'
            ||| c == '\u{a0}'
            ||| c == '\u{1680}'
            ||| '\u{2000}' <= c <= '\u{200a}'
            ||| c == '\u{2028}'
            ||| c == '\u{2029}'
            ||| c == '\u{202f}'
            ||| c == '\u{205f}'
            ||| c == '\u{3000}'
        },
{
}

/// Trimming takes white space off both ends, and all of it: what is left neither begins nor ends
/// with white space, and what was taken off is nothing else.
pub proof fn trimming_takes_off_the_white_ends(s: Seq<char>)
    ensures
        exists|a: int, b: int|
            #![trigger s.subrange(a, b)]
            {
                &&& 0 <= a <= b <= s.len()
                &&& trim(s) == s.subrange(a, b)
                &&& forall|i: int| 0 <= i < a || b <= i < s.len() ==> is_white(#[trigger] s[i])
                &&& a < b ==> !is_white(s[a]) && !is_white(s[b - 1])
            },
    decreases s.len(),
{
    if s.len() == 0 {
        assert(s.subrange(0, 0) =~= s);
        assert(trim(s) == s);
    } else if is_white(s[0]) {
        let t = s.skip(1);
        trimming_takes_off_the_white_ends(t);
        let (a, b) = choose|a: int, b: int|
            #![trigger t.subrange(a, b)]
            {
                &&& 0 <= a <= b <= t.len()
                &&& trim(t) == t.subrange(a, b)
                &&& forall|i: int| 0 <= i < a || b <= i < t.len() ==> is_white(#[trigger] t[i])
                &&& a < b ==> !is_white(t[a]) && !is_white(t[b - 1])
            };
        assert(s.subrange(a + 1, b + 1) =~= t.subrange(a, b));
        assert forall|i: int| 0 <= i < a + 1 || b + 1 <= i < s.len() implies is_white(
            #[trigger] s[i],
        ) by {
            if i > 0 {
                assert(t[i - 1] == s[i]);
                assert(is_white(t[i - 1]));
            }
        }
    } else {
        assert(trim_start(s) == s);
        lemma_trim_end_cuts(s);
        let b = trim_end(s).len() as int;
        assert(s.subrange(0, b) =~= trim_end(s));
    }
}

proof fn lemma_trim_end_cuts(s: Seq<char>)
    requires
        s.len() > 0,
        !is_white(s[0]),
    ensures
        0 < trim_end(s).len() <= s.len(),
        trim_end(s) == s.take(trim_end(s).len() as int),
        !is_white(s[trim_end(s).len() - 1]),
        forall|i: int| trim_end(s).len() <= i < s.len() ==> is_white(#[trigger] s[i]),
    decreases s.len(),
{
    if is_white(s.last()) {
        let t = s.drop_last();
        assert(t.len() > 0 && t[0] == s[0]);
        lemma_trim_end_cuts(t);
        assert(s.take(trim_end(s).len() as int) =~= t.take(trim_end(t).len() as int));
        assert(t[trim_end(t).len() - 1] == s[trim_end(t).len() - 1]);
        assert forall|i: int| trim_end(s).len() <= i < s.len() implies is_white(#[trigger] s[i]) by {
            if i < t.len() {
                assert(t[i] == s[i]);
            }
        }
    } else {
        assert(s.take(s.len() as int) =~= s);
    }
}

/// Splitting once cuts a text at the first separator, and only a text without it cannot be cut.
pub proof fn splitting_once_cuts_at_the_first(s: Seq<char>, c: char)
    ensures
        match split_once(s, c) {
            Some((a, b)) => s == a + seq![c] + b && !a.contains(c),
            None => !s.contains(c),
        },
{
    lemma_find_within(s, Seq::empty(), c);
    let i = find(s, c) as int;
    if i < s.len() {
        lemma_find_is_first(s, c);
        assert(s =~= s.take(i) + seq![c] + s.skip(i + 1));
        assert forall|k: int| 0 <= k < i implies s.take(i)[k] != c by {
            assert(s.take(i)[k] == s[k]);
        }
    }
}

proof fn lemma_find_is_first(s: Seq<char>, c: char)
    ensures
        find(s, c) <= s.len(),
        forall|k: int| 0 <= k < find(s, c) ==> s[k] != c,
        find(s, c) < s.len() ==> s[find(s, c) as int] == c,
    decreases s.len(),
{
    if s.len() > 0 && s[0] != c {
        let t = s.skip(1);
        lemma_find_is_first(t, c);
        assert forall|k: int| 0 <= k < find(s, c) implies s[k] != c by {
            if k > 0 {
                assert(t[k - 1] == s[k]);
            }
        }
    }
}

/// The pieces of a split text hold no separator, and with separators between them they are the text.
pub proof fn pieces_join_to_the_text(s: Seq<char>, sep: char)
    ensures
        split(s, sep).len() > 0,
        join(split(s, sep), seq![sep]) == s,
        forall|i: int| 0 <= i < split(s, sep).len() ==> !(#[trigger] split(s, sep)[i]).contains(sep),
    decreases s.len(),
{
    let i = find(s, sep) as int;
    lemma_find_is_first(s, sep);
    if i >= s.len() {
        assert(split(s, sep) =~= seq![s]);
        if s.contains(sep) {
            let k = choose|k: int| 0 <= k < s.len() && s[k] == sep;
            assert(s[k] != sep);
        }
    } else {
        let rest = s.skip(i + 1);
        let tail = split(rest, sep);
        pieces_join_to_the_text(rest, sep);
        join_of_two(seq![s.take(i)], tail, seq![sep]);
        assert(join(seq![s.take(i)], seq![sep]) == s.take(i));
        assert(s =~= s.take(i) + seq![sep] + rest);
        assert forall|k: int| 0 <= k < split(s, sep).len() implies !(#[trigger] split(
            s,
            sep,
        )[k]).contains(sep) by {
            if k == 0 {
                assert(split(s, sep)[0] == s.take(i));
                if s.take(i).contains(sep) {
                    let m = choose|m: int| 0 <= m < i && s.take(i)[m] == sep;
                    assert(s[m] == sep);
                }
            } else {
                assert(split(s, sep)[k] == tail[k - 1]);
            }
        }
    }
}

/// Joining two lists of parts gives the text of the one, a separator, and the text of the other; a
/// single part is joined to itself.
pub proof fn join_of_two(a: Seq<Seq<char>>, b: Seq<Seq<char>>, sep: Seq<char>)
    requires
        a.len() > 0,
        b.len() > 0,
    ensures
        join(a + b, sep) == join(a, sep) + sep + join(b, sep),
        a.len() == 1 ==> join(a, sep) == a[0],
        join(Seq::<Seq<char>>::empty(), sep) == Seq::<char>::empty(),
    decreases b.len(),
{
    let whole = a + b;
    if b.len() == 1 {
        assert(whole.drop_last() =~= a);
        assert(whole.last() == b[0]);
    } else {
        join_of_two(a, b.drop_last(), sep);
        assert(whole.drop_last() =~= a + b.drop_last());
        assert(whole.last() == b.last());
        assert(join(whole, sep) =~= join(a, sep) + sep + join(b, sep));
    }
}

/// Putting two lists of parts together gives the text of the one and then that of the other.
pub proof fn concat_of_two(a: Seq<Seq<char>>, b: Seq<Seq<char>>)
    ensures
        concat(a + b) == concat(a) + concat(b),
        a.len() == 0 ==> concat(a) == Seq::<char>::empty(),
        a.len() == 1 ==> concat(a) == a[0],
    decreases b.len(),
{
    if a.len() == 1 {
        assert(a.drop_last() =~= Seq::<Seq<char>>::empty());
        reveal_with_fuel(concat, 2);
        assert(concat(a) =~= a[0]);
    }
    if b.len() == 0 {
        assert(a + b =~= a);
        assert(concat(a) + concat(b) =~= concat(a));
    } else {
        concat_of_two(a, b.drop_last());
        assert((a + b).drop_last() =~= a + b.drop_last());
        assert(concat(a + b) =~= concat(a) + concat(b));
    }
}

/// A text up to its first line end is its first line, without a carriage return before that end; a
/// text without a line end is one line, unless it is empty.
pub proof fn first_line_ends_at_the_line_end(a: Seq<char>, b: Seq<char>)
    requires
        !a.contains('\n'),
    ensures
        lines(a + seq!['\n'] + b) == seq![
            if a.len() > 0 && a.last() == '\r' {
                a.drop_last()
            } else {
                a
            },
        ] + lines(b),
        a.len() > 0 ==> lines(a) == seq![a],
        a.len() == 0 ==> lines(a) == Seq::<Seq<char>>::empty(),
{
    assert forall|i: int| 0 <= i < a.len() implies a[i] != '\n' by {
        assert(a.contains(a[i]));
    }
    let s = a + seq!['\n'] + b;
    assert(s =~= a + (seq!['\n'] + b));
    lemma_find_after(a, seq!['\n'] + b, '\n');
    assert((seq!['\n'] + b)[0] == '\n');
    assert(find(seq!['\n'] + b, '\n') == 0);
    assert(s.take(a.len() as int) =~= a);
    assert(s.skip(a.len() as int + 1) =~= b);
    lemma_find_is_first(a, '\n');
}

/// White space separates words: a text is cut into words at each white character, a text without
/// one is one word, and an empty text has none.
pub proof fn white_space_separates_words(a: Seq<char>, w: char, b: Seq<char>)
    requires
        is_white(w),
    ensures
        words(a + seq![w] + b) == words(a) + words(b),
        a.len() == 0 ==> words(a) == Seq::<Seq<char>>::empty(),
        a.len() > 0 && (forall|i: int| 0 <= i < a.len() ==> !is_white(#[trigger] a[i])) ==> words(a)
            == seq![a],
    decreases a.len(),
{
    let s = a + seq![w] + b;
    lemma_word_len(a);
    lemma_word_len(s);
    let n = word_len(a) as int;
    if a.len() == 0 {
        assert(s[0] == w);
        assert(s.skip(1) =~= b);
        assert(words(a) + words(b) =~= words(b));
    } else if n == 0 {
        assert(is_white(a[0]));
        assert(s[0] == a[0]);
        assert(s.skip(1) =~= a.skip(1) + seq![w] + b);
        white_space_separates_words(a.skip(1), w, b);
    } else {
        if n < a.len() {
            assert(s[n] == a[n]);
        } else {
            assert(s[n] == w);
        }
        let m = word_len(s) as int;
        assert(m == n) by {
            if m < n {
                assert(s[m] == a[m]);
            } else if m > n {
                assert(!is_white(s[n]));
            }
        }
        assert(s.take(n) =~= a.take(n));
        assert(s.skip(n) =~= a.skip(n) + seq![w] + b);
        white_space_separates_words(a.skip(n), w, b);
        assert(seq![a.take(n)] + (words(a.skip(n)) + words(b)) =~= (seq![a.take(n)] + words(
            a.skip(n),
        )) + words(b));
        if forall|i: int| 0 <= i < a.len() ==> !is_white(#[trigger] a[i]) {
            if n < a.len() {
                assert(!is_white(a[n]));
            }
            assert(a.take(n) =~= a);
            assert(words(a.skip(n)) =~= Seq::<Seq<char>>::empty());
            assert(words(a) =~= seq![a]);
        }
    }
}

proof fn lemma_word_len(s: Seq<char>)
    ensures
        word_len(s) <= s.len(),
        forall|i: int| 0 <= i < word_len(s) ==> !is_white(#[trigger] s[i]),
        word_len(s) < s.len() ==> is_white(s[word_len(s) as int]),
    decreases s.len(),
{
    if s.len() > 0 && !is_white(s[0]) {
        let t = s.skip(1);
        lemma_word_len(t);
        assert forall|i: int| 0 <= i < word_len(s) implies !is_white(#[trigger] s[i]) by {
            if i > 0 {
                assert(t[i - 1] == s[i]);
            }
        }
    }
}

/// What follows a prefix: it is there exactly where the text is the prefix and then that.
pub proof fn prefix_and_rest_are_the_text(s: Seq<char>, p: Seq<char>, rest: Seq<char>)
    ensures
        strip_prefix(s, p) == Some(rest) <==> s == p + rest,
        starts_with(s, p) <==> exists|r: Seq<char>| s == #[trigger] (p + r),
        strip_prefix(s, p) is Some <==> starts_with(s, p),
{
    if starts_with(s, p) {
        let r = s.skip(p.len() as int);
        assert(s =~= p + r);
        if s == p + rest {
            assert(rest =~= r);
        }
    }
    if s == p + rest {
        assert(s.take(p.len() as int) =~= p);
        assert(s.skip(p.len() as int) =~= rest);
    }
    if exists|r: Seq<char>| s == #[trigger] (p + r) {
        let r = choose|r: Seq<char>| s == #[trigger] (p + r);
        assert(s.take(p.len() as int) =~= p);
    }
}

/// A text holds another exactly where it is something, the other, and something.
pub proof fn held_text_stands_between(s: Seq<char>, p: Seq<char>)
    ensures
        contains_text(s, p) <==> exists|a: Seq<char>, b: Seq<char>| s == #[trigger] (a + p + b),
{
    if contains_text(s, p) {
        let i = choose|i: int| occurs_at(s, p, i);
        assert(s =~= s.take(i) + p + s.skip(i + p.len()));
    }
    if exists|a: Seq<char>, b: Seq<char>| s == #[trigger] (a + p + b) {
        let (a, b) = choose|a: Seq<char>, b: Seq<char>| s == #[trigger] (a + p + b);
        assert(s.subrange(a.len() as int, (a.len() + p.len()) as int) =~= p);
        assert(occurs_at(s, p, a.len() as int));
    }
}

/// Splitting at a text cuts at its first occurrence, and then what follows it; a text that does not
/// hold it stays whole.
pub proof fn splitting_at_a_text_cuts_at_the_first(a: Seq<char>, p: Seq<char>, b: Seq<char>)
    requires
        p.len() > 0,
        forall|x: Seq<char>, y: Seq<char>|
            #[trigger] (x + p + y) == a + p + b ==> x.len() >= a.len(),
    ensures
        split_text(a + p + b, p) == seq![a] + split_text(b, p),
        !contains_text(a, p) ==> split_text(a, p) == seq![a],
{
    let s = a + p + b;
    lemma_find_text_is_first(s, p);
    assert(s.subrange(a.len() as int, (a.len() + p.len()) as int) =~= p);
    assert(occurs_at(s, p, a.len() as int));
    let i = find_text(s, p) as int;
    if i < a.len() {
        assert(occurs_at(s, p, i));
        assert(s =~= s.take(i) + p + s.skip(i + p.len()));
    }
    assert(i == a.len());
    assert(s.take(i) =~= a);
    assert(s.skip(i + p.len()) =~= b);
    if !contains_text(a, p) {
        lemma_find_text_is_first(a, p);
        let k = find_text(a, p) as int;
        if k + p.len() <= a.len() {
            assert(occurs_at(a, p, k));
        }
    }
}

proof fn lemma_find_text_is_first(s: Seq<char>, p: Seq<char>)
    requires
        p.len() > 0,
    ensures
        find_text(s, p) <= s.len(),
        find_text(s, p) < s.len() ==> occurs_at(s, p, find_text(s, p) as int),
        forall|k: int| 0 <= k < find_text(s, p) ==> !occurs_at(s, p, k),
    decreases s.len(),
{
    if s.len() > 0 && !occurs_at(s, p, 0) {
        let t = s.skip(1);
        lemma_find_text_is_first(t, p);
        let n = find_text(t, p) as int;
        if n < t.len() {
            assert(s.subrange(n + 1, n + 1 + p.len()) =~= t.subrange(n, n + p.len()));
        }
        assert forall|k: int| 0 <= k < find_text(s, p) implies !occurs_at(s, p, k) by {
            if k > 0 && occurs_at(s, p, k) {
                assert(t.subrange(k - 1, k - 1 + p.len()) =~= s.subrange(k, k + p.len()));
                assert(occurs_at(t, p, k - 1));
            }
        }
    }
}

/// A field has the value of the last line `key: value`: the line is cut at its first colon, and the
/// white space around key and value does not count.
pub proof fn last_line_gives_the_field(
    earlier: Seq<Seq<char>>,
    line: Seq<char>,
    key: Seq<char>,
)
    ensures
        match split_once(line, ':') {
            Some((name, value)) => last_field(earlier.push(line), key) == if trim(name) == key {
                Some(trim(value))
            } else {
                last_field(earlier, key)
            },
            None => last_field(earlier.push(line), key) == last_field(earlier, key),
        },
        last_field(Seq::<Seq<char>>::empty(), key) is None,
{
    assert(earlier.push(line).drop_last() =~= earlier);
}

/// Decimal numbers: another digit makes ten times the number and the digit of it, a plus in front
/// makes no difference, and what is not digits is no number.
pub proof fn digits_make_numbers(s: Seq<char>, d: char)
    ensures
        '0' <= d <= '9' ==> parse_nat(seq![d]) == Some((d as u32 - '0' as u32) as nat),
        '0' <= d <= '9' && parse_nat(s) is Some ==> parse_nat(s.push(d)) == Some(
            (10 * parse_nat(s)->0 + (d as u32 - '0' as u32)) as nat,
        ),
        !('0' <= d <= '9') ==> parse_nat(s.push(d)) is None,
        s.len() > 0 && s[0] != '+' ==> parse_nat(seq!['+'] + s) == parse_nat(s),
        s.len() > 0 && parse_nat(s) is None && s != seq!['+'] ==> parse_nat(s.push(d)) is None,
        parse_nat(Seq::<char>::empty()) is None,
        parse_nat(seq!['+']) is None,
{
    let plus = s.len() > 0 && s[0] == '+';
    let digits = if plus {
        s.skip(1)
    } else {
        s
    };
    let t = s.push(d);
    assert(seq![d].drop_last() =~= Seq::<char>::empty());
    reveal_with_fuel(digits_value, 2);
    if '0' <= d <= '9' {
        assert(all_digits(seq![d])) by {
            assert forall|i: int| 0 <= i < seq![d].len() implies #[trigger] is_digit(seq![d][i]) by {
            }
        }
    }
    if s.len() > 0 {
        let more = if plus {
            t.skip(1)
        } else {
            t
        };
        assert(t[0] == s[0]);
        assert(more =~= digits.push(d));
        assert(more.drop_last() =~= digits);
        if all_digits(digits) && '0' <= d <= '9' {
            assert forall|i: int| 0 <= i < more.len() implies #[trigger] is_digit(more[i]) by {
                if i < digits.len() {
                    assert(more[i] == digits[i]);
                    assert(is_digit(digits[i]));
                }
            }
        }
        if !('0' <= d <= '9') {
            assert(more[more.len() - 1] == d);
            if all_digits(more) {
                assert(is_digit(more[more.len() - 1]));
            }
        }
        if !all_digits(digits) {
            let i = choose|i: int| 0 <= i < digits.len() && !#[trigger] is_digit(digits[i]);
            assert(more[i] == digits[i]);
            if all_digits(more) {
                assert(is_digit(more[i]));
            }
        }
        if plus && s.len() == 1 {
            assert(s =~= seq!['+']);
        }
        let with_plus = seq!['+'] + s;
        assert(with_plus.skip(1) =~= s);
    } else {
        assert(t =~= seq![d]);
        if !('0' <= d <= '9') {
            let rest = if d == '+' {
                t.skip(1)
            } else {
                t
            };
            if rest.len() > 0 && all_digits(rest) {
                assert(is_digit(rest[0]));
            }
        }
    }
    assert(seq!['+'].skip(1) =~= Seq::<char>::empty());
}

/// A limit on a number refuses what lies above it and nothing else.
pub proof fn limit_refuses_what_is_above(s: Seq<char>, max: nat)
    ensures
        parse_up_to(s, max) is Some <==> parse_nat(s) is Some && parse_nat(s)->0 <= max,
        parse_up_to(s, max) is Some ==> parse_up_to(s, max) == parse_nat(s),
{
}

/// A number is written in the digits 0 to 9, and begins with a zero only where it is zero itself.
pub proof fn decimal_has_no_leading_zero(n: nat)
    ensures
        n > 0 ==> decimal(n)[0] != '0',
        n < 10 ==> decimal(n).len() == 1,
        forall|i: int| 0 <= i < decimal(n).len() ==> '0' <= #[trigger] decimal(n)[i] <= '9',
    decreases n,
{
    if n >= 10 {
        decimal_has_no_leading_zero(n / 10);
        decimal_is_digits(n / 10);
        assert(decimal(n)[0] == decimal(n / 10)[0]);
    } else {
        lemma_digit_char(n);
    }
}

/// Lower case changes the ASCII capitals to the small letters, and nothing else.
pub proof fn lower_case_changes_capitals_only(s: Seq<char>, i: int)
    ensures
        lower(s).len() == s.len(),
        0 <= i < s.len() && 'A' <= s[i] <= 'Z' ==> lower(s)[i] as u32 - 'a' as u32 == s[i] as u32 - 'A' as u32,
        0 <= i < s.len() && !('A' <= s[i] <= 'Z') ==> lower(s)[i] == s[i],
{
}

/// Padding keeps the text at its side, fills up to the width with spaces, and cuts nothing off.
pub proof fn padding_fills_with_spaces(s: Seq<char>, width: nat)
    ensures
        pad_right(s, width).len() == if s.len() < width {
            width
        } else {
            s.len()
        },
        pad_left(s, width).len() == pad_right(s, width).len(),
        pad_right(s, width).take(s.len() as int) == s,
        forall|i: int| s.len() <= i < pad_right(s, width).len() ==> pad_right(s, width)[i] == ' ',
        pad_left(s, width).skip(pad_left(s, width).len() - s.len()) == s,
        forall|i: int| 0 <= i < pad_left(s, width).len() - s.len() ==> pad_left(s, width)[i] == ' ',
{
    assert(pad_right(s, width).take(s.len() as int) =~= s);
    assert(pad_left(s, width).skip(pad_left(s, width).len() - s.len()) =~= s);
}

/// A repeated character: so many of it, and nothing else.
pub proof fn repeating_repeats(c: char, n: nat)
    ensures
        repeated(c, n).len() == n,
        forall|i: int| 0 <= i < n ==> repeated(c, n)[i] == c,
{
}

/// A position that is looked for is the first: that of a character, that at which a text begins, and
/// the end of the word at the front, which white space ends. Where there is none it is the end.
pub proof fn positions_are_the_first(s: Seq<char>, c: char, p: Seq<char>)
    ensures
        find(s, c) <= s.len(),
        !s.take(find(s, c) as int).contains(c),
        find(s, c) < s.len() ==> s[find(s, c) as int] == c,
        word_len(s) <= s.len(),
        forall|i: int| 0 <= i < word_len(s) ==> !is_white(#[trigger] s[i]),
        word_len(s) < s.len() ==> is_white(s[word_len(s) as int]),
        p.len() > 0 ==> {
            &&& find_text(s, p) <= s.len()
            &&& find_text(s, p) < s.len() ==> p.is_prefix_of(s.skip(find_text(s, p) as int))
            &&& forall|k: int| 0 <= k < find_text(s, p) ==> !p.is_prefix_of(#[trigger] s.skip(k))
        },
{
    lemma_find_is_first(s, c);
    lemma_word_len(s);
    if s.take(find(s, c) as int).contains(c) {
        let k = choose|k: int| 0 <= k < find(s, c) && s.take(find(s, c) as int)[k] == c;
        assert(s[k] != c);
    }
    if p.len() > 0 {
        lemma_find_text_is_first(s, p);
        let n = find_text(s, p) as int;
        if n < s.len() {
            assert(s.skip(n).subrange(0, p.len() as int) =~= s.subrange(n, n + p.len()));
        }
        assert forall|k: int| 0 <= k < n implies !p.is_prefix_of(#[trigger] s.skip(k)) by {
            assert(!occurs_at(s, p, k));
            if p.is_prefix_of(s.skip(k)) {
                assert(s.subrange(k, k + p.len()) =~= s.skip(k).subrange(0, p.len() as int));
            }
        }
    }
}

/// Parts of a text, and texts, are seen as their characters, one for one.
pub proof fn parts_are_seen_whole(parts: Seq<&[char]>, texts: Seq<String>, i: int)
    ensures
        slice_views(parts).len() == parts.len(),
        0 <= i < parts.len() ==> slice_views(parts)[i] == parts[i]@,
        string_views(texts).len() == texts.len(),
        0 <= i < texts.len() ==> string_views(texts)[i] == texts[i]@,
{
}

} // verus!
