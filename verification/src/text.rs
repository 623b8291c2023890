//! Characters and strings: white space, trimming, splitting, decimal digits.

use vstd::prelude::*;

verus! {

/// The characters that Unicode marks as white space.
pub open spec fn is_space(c: char) -> bool {
    let n = c as u32;
    ||| 0x09 <= n <= 0x0D
    ||| n == 0x20
    ||| n == 0x85
    ||| n == 0xA0
    ||| n == 0x1680
    ||| 0x2000 <= n <= 0x200A
    ||| n == 0x2028
    ||| n == 0x2029
    ||| n == 0x202F
    ||| n == 0x205F
    ||| n == 0x3000
}

/// Tells whether `c` is white space.
pub fn is_whitespace(c: char) -> (b: bool)
    ensures
        b == is_space(c),
{
    let n: u32 = c as u32;
    (0x09 <= n && n <= 0x0D) || n == 0x20 || n == 0x85 || n == 0xA0 || n == 0x1680 || (0x2000 <= n
        && n <= 0x200A) || n == 0x2028 || n == 0x2029 || n == 0x202F || n == 0x205F || n == 0x3000
}

/// `String::push`: the string grows by the one character at its end.
#[verifier::external_body]
pub(crate) fn push_char(s: &mut String, c: char)
    ensures
        final(s)@ == old(s)@.push(c),
{
    s.push(c)
}

/// The characters of `s`, in order.
pub fn chars_of(s: &str) -> (v: Vec<char>)
    ensures
        v@ == s@,
{
    let mut v: Vec<char> = Vec::new();
    for c in it: s.chars()
        invariant
            it.seq() == s@,
            v@ == it.seq().take(it.index()),
    {
        v.push(c);
    }
    v
}

/// The string made of `v[from..to]`.
pub fn string_of(v: &Vec<char>, from: usize, to: usize) -> (s: String)
    requires
        from <= to <= v.len(),
    ensures
        s@ == v@.subrange(from as int, to as int),
{
    let mut s = String::new();
    let mut i: usize = from;
    while i < to
        invariant
            from <= i <= to <= v.len(),
            s@ == v@.subrange(from as int, i as int),
        decreases to - i,
    {
        push_char(&mut s, v[i]);
        i += 1;
    }
    s
}

/// `s` without the white space at its end.
pub open spec fn trim_end(s: Seq<char>) -> Seq<char>
    decreases s.len(),
{
    if s.len() > 0 && is_space(s.last()) {
        trim_end(s.drop_last())
    } else {
        s
    }
}

/// What `trim_end` leaves is a start of `s` that does not end in white
/// space, and what it cuts off is white space only.
pub proof fn lemma_trim_end(s: Seq<char>)
    ensures
        trim_end(s).len() <= s.len(),
        trim_end(s) == s.take(trim_end(s).len() as int),
        trim_end(s).len() > 0 ==> !is_space(trim_end(s).last()),
        forall|j: int| trim_end(s).len() <= j < s.len() ==> is_space(s[j]),
    decreases s.len(),
{
    if s.len() > 0 && is_space(s.last()) {
        lemma_trim_end(s.drop_last());
        assert forall|j: int| trim_end(s).len() <= j < s.len() implies is_space(s[j]) by {
            if j < s.len() - 1 {
                assert(s[j] == s.drop_last()[j]);
            }
        }
    }
}

/// Where `v[from..to]` ends once the white space at its end is cut off.
pub fn trim_end_of(v: &Vec<char>, from: usize, to: usize) -> (end: usize)
    requires
        from <= to <= v.len(),
    ensures
        from <= end <= to,
        v@.subrange(from as int, end as int) == trim_end(v@.subrange(from as int, to as int)),
{
    let mut end: usize = to;
    while end > from && is_whitespace(v[end - 1])
        invariant
            from <= end <= to <= v.len(),
            trim_end(v@.subrange(from as int, end as int)) == trim_end(
                v@.subrange(from as int, to as int),
            ),
        decreases end,
    {
        assert(v@.subrange(from as int, end as int).drop_last() == v@.subrange(
            from as int,
            end - 1,
        ));
        end -= 1;
    }
    end
}

/// The place of the first `d` in `s`, or the length of `s` where it holds none.
pub open spec fn find<T>(s: Seq<T>, d: T) -> nat
    decreases s.len(),
{
    if s.len() == 0 || s[0] == d {
        0
    } else {
        1 + find(s.drop_first(), d)
    }
}

/// `find` gives the first place: nothing before it is `d`, and it stays
/// within `s`.
pub proof fn lemma_find_first<T>(s: Seq<T>, d: T)
    ensures
        find(s, d) <= s.len(),
        forall|j: int| 0 <= j < find(s, d) ==> s[j] != d,
        find(s, d) < s.len() ==> s[find(s, d) as int] == d,
    decreases s.len(),
{
    if s.len() > 0 && s[0] != d {
        let rest = s.drop_first();
        lemma_find_first(rest, d);
        assert forall|j: int| 0 <= j < find(s, d) implies s[j] != d by {
            if j > 0 {
                assert(s[j] == rest[j - 1]);
            }
        }
    }
}

/// A place with no `d` before it, which holds `d` or ends `s`, is the one
/// that `find` gives.
pub proof fn lemma_find_is<T>(s: Seq<T>, d: T, i: int)
    requires
        0 <= i <= s.len(),
        forall|j: int| 0 <= j < i ==> s[j] != d,
        i < s.len() ==> s[i] == d,
    ensures
        find(s, d) == i,
{
    lemma_find_first(s, d);
}

/// The place of the first `d` in `v[from..to]`, or `to` where it holds none.
pub fn find_in(v: &Vec<char>, from: usize, to: usize, d: char) -> (at: usize)
    requires
        from <= to <= v.len(),
    ensures
        from <= at <= to,
        at - from == find(v@.subrange(from as int, to as int), d),
{
    let mut at: usize = from;
    while at < to && v[at] != d
        invariant
            from <= at <= to <= v.len(),
            forall|j: int| from <= j < at ==> v@[j] != d,
        decreases to - at,
    {
        at += 1;
    }
    proof {
        lemma_find_is(v@.subrange(from as int, to as int), d, at - from);
    }
    at
}

/// The pieces of `s` between its occurrences of `d`: one more piece than
/// there are occurrences, none of them holding `d`.
pub open spec fn split(s: Seq<char>, d: char) -> Seq<Seq<char>>
    decreases s.len(),
{
    let i = find(s, d) as int;
    if i >= s.len() {
        seq![s]
    } else {
        seq![s.take(i)] + split(s.skip(i + 1), d)
    }
}

/// The pieces put together again, with `d` between each two of them.
pub open spec fn join(pieces: Seq<Seq<char>>, d: char) -> Seq<char>
    decreases pieces.len(),
{
    if pieces.len() == 0 {
        Seq::empty()
    } else if pieces.len() == 1 {
        pieces[0]
    } else {
        pieces[0] + seq![d] + join(pieces.drop_first(), d)
    }
}

/// Splitting loses nothing: there is at least one piece, no piece holds the
/// delimiter, and the pieces joined by the delimiter are the text again.
pub proof fn lemma_split_join(s: Seq<char>, d: char)
    ensures
        split(s, d).len() >= 1,
        join(split(s, d), d) == s,
        forall|k: int, j: int|
            0 <= k < split(s, d).len() && 0 <= j < split(s, d)[k].len() ==> split(s, d)[k][j] != d,
    decreases s.len(),
{
    let i = find(s, d) as int;
    lemma_find_first(s, d);
    if i < s.len() {
        let rest = s.skip(i + 1);
        let pieces = split(s, d);
        lemma_split_join(rest, d);
        assert(pieces.drop_first() == split(rest, d));
    }
}

/// The pieces of `v[from..to]` between its occurrences of `d`.
pub fn split_in(v: &Vec<char>, from: usize, to: usize, d: char) -> (pieces: Vec<String>)
    requires
        from <= to <= v.len(),
    ensures
        pieces.deep_view() == split(v@.subrange(from as int, to as int), d),
{
    let mut pieces: Vec<String> = Vec::new();
    let mut start: usize = from;
    loop
        invariant_except_break
            from <= start <= to <= v.len(),
            split(v@.subrange(from as int, to as int), d) == pieces.deep_view() + split(
                v@.subrange(start as int, to as int),
                d,
            ),
        ensures
            pieces.deep_view() == split(v@.subrange(from as int, to as int), d),
        decreases to - start,
    {
        let at = find_in(v, start, to, d);
        let piece = string_of(v, start, at);
        let ghost rest = v@.subrange(start as int, to as int);
        pieces.push(piece);
        if at == to {
            break ;
        }
        assert(rest.take(at - start) == v@.subrange(start as int, at as int));
        assert(rest.skip(at - start + 1) == v@.subrange(at + 1, to as int));
        start = at + 1;
    }
    pieces
}

/// The lines of `s`: each ends before a line feed or at the end of `s`, and
/// a line feed at the very end starts no further line.
pub open spec fn lines(s: Seq<char>) -> Seq<Seq<char>>
    decreases s.len(),
{
    let i = find(s, '\n') as int;
    if s.len() == 0 {
        seq![]
    } else if i >= s.len() {
        seq![s]
    } else {
        seq![s.take(i)] + lines(s.skip(i + 1))
    }
}

/// The lines lose nothing but the line feeds: no line holds one, and the
/// lines joined by line feeds are the text again, less the line feed at its
/// very end if it has one there.
pub proof fn lemma_lines_join(s: Seq<char>)
    ensures
        forall|k: int, j: int|
            0 <= k < lines(s).len() && 0 <= j < lines(s)[k].len() ==> lines(s)[k][j] != '\n',
        s.len() > 0 && s.last() == '\n' ==> join(lines(s), '\n') == s.drop_last(),
        !(s.len() > 0 && s.last() == '\n') ==> join(lines(s), '\n') == s,
    decreases s.len(),
{
    let i = find(s, '\n') as int;
    lemma_find_first(s, '\n');
    if s.len() > 0 && i < s.len() {
        let rest = s.skip(i + 1);
        let ls = lines(s);
        lemma_lines_join(rest);
        assert(ls.drop_first() == lines(rest));
    }
}

/// How many characters stand at the start of `s` before its first white
/// space.
pub open spec fn word_len(s: Seq<char>) -> nat
    decreases s.len(),
{
    if s.len() == 0 || is_space(s[0]) {
        0
    } else {
        1 + word_len(s.drop_first())
    }
}

/// The word at the start of `s` lies within `s`, holds no white space, and
/// ends at white space or at the end of `s`.
pub proof fn lemma_word_len(s: Seq<char>)
    ensures
        word_len(s) <= s.len(),
        forall|j: int| 0 <= j < word_len(s) ==> !is_space(s[j]),
        word_len(s) < s.len() ==> is_space(s[word_len(s) as int]),
    decreases s.len(),
{
    if s.len() > 0 && !is_space(s[0]) {
        let rest = s.drop_first();
        lemma_word_len(rest);
        assert forall|j: int| 0 <= j < word_len(s) implies !is_space(s[j]) by {
            if j > 0 {
                assert(s[j] == rest[j - 1]);
            }
        }
    }
}

/// A run without white space, which ends at white space or at the end of
/// `s`, is the word at the start of `s`.
pub proof fn lemma_word_len_is(s: Seq<char>, n: int)
    requires
        0 <= n <= s.len(),
        forall|j: int| 0 <= j < n ==> !is_space(s[j]),
        n < s.len() ==> is_space(s[n]),
    ensures
        word_len(s) == n,
{
    lemma_word_len(s);
}

/// The words of `s`: its longest runs of characters that are not white space.
pub open spec fn tokens(s: Seq<char>) -> Seq<Seq<char>>
    decreases s.len(),
{
    if s.len() == 0 {
        seq![]
    } else if is_space(s[0]) {
        tokens(s.drop_first())
    } else {
        let n = word_len(s) as int;
        proof {
            lemma_word_len(s);
        }
        seq![s.take(n)] + tokens(s.skip(n))
    }
}

/// Every word has at least one character, and none that is white space.
pub proof fn lemma_tokens_are_words(s: Seq<char>)
    ensures
        forall|k: int| 0 <= k < tokens(s).len() ==> (#[trigger] tokens(s)[k]).len() > 0,
        forall|k: int, j: int|
            0 <= k < tokens(s).len() && 0 <= j < tokens(s)[k].len() ==> !is_space(
                tokens(s)[k][j],
            ),
    decreases s.len(),
{
    if s.len() > 0 && is_space(s[0]) {
        lemma_tokens_are_words(s.drop_first());
        assert(tokens(s) == tokens(s.drop_first()));
    } else if s.len() > 0 {
        let n = word_len(s) as int;
        lemma_word_len(s);
        lemma_tokens_are_words(s.skip(n));
        assert(tokens(s) == seq![s.take(n)] + tokens(s.skip(n)));
    }
}

/// The words of `v`.
pub fn tokens_of(v: &Vec<char>) -> (words: Vec<String>)
    ensures
        words.deep_view() == tokens(v@),
{
    let mut words: Vec<String> = Vec::new();
    let mut i: usize = 0;
    assert(v@.skip(0) == v@);
    while i < v.len()
        invariant
            i <= v.len(),
            tokens(v@) == words.deep_view() + tokens(v@.skip(i as int)),
        decreases v.len() - i,
    {
        let ghost rest = v@.skip(i as int);
        if is_whitespace(v[i]) {
            assert(rest.drop_first() == v@.skip(i + 1));
            i += 1;
        } else {
            let start: usize = i;
            while i < v.len() && !is_whitespace(v[i])
                invariant
                    start <= i <= v.len(),
                    forall|j: int| start <= j < i ==> !is_space(v@[j]),
                decreases v.len() - i,
            {
                i += 1;
            }
            let word = string_of(v, start, i);
            words.push(word);
            proof {
                lemma_word_len_is(rest, i - start);
                assert(rest.take(i - start) == v@.subrange(start as int, i as int));
                assert(rest.skip(i - start) == v@.skip(i as int));
            }
        }
    }
    words
}

/// The character that stands for the digit `d`.
pub open spec fn digit(d: nat) -> char {
    if d == 0 {
        '0'
    } else if d == 1 {
        '1'
    } else if d == 2 {
        '2'
    } else if d == 3 {
        '3'
    } else if d == 4 {
        '4'
    } else if d == 5 {
        '5'
    } else if d == 6 {
        '6'
    } else if d == 7 {
        '7'
    } else if d == 8 {
        '8'
    } else {
        '9'
    }
}

/// `n` written in decimal digits, without leading zeros.
pub open spec fn decimal(n: nat) -> Seq<char>
    decreases n,
{
    if n < 10 {
        seq![digit(n)]
    } else {
        decimal(n / 10).push(digit(n % 10))
    }
}

/// The character that stands for the digit `d`.
pub fn digit_of(d: u16) -> (c: char)
    requires
        d < 10,
    ensures
        c == digit(d as nat),
{
    if d == 0 {
        '0'
    } else if d == 1 {
        '1'
    } else if d == 2 {
        '2'
    } else if d == 3 {
        '3'
    } else if d == 4 {
        '4'
    } else if d == 5 {
        '5'
    } else if d == 6 {
        '6'
    } else if d == 7 {
        '7'
    } else if d == 8 {
        '8'
    } else {
        '9'
    }
}

/// Writes `n` in decimal digits at the end of `s`.
pub fn push_decimal(s: &mut String, n: u16)
    ensures
        final(s)@ == old(s)@ + decimal(n as nat),
    decreases n,
{
    if n >= 10 {
        push_decimal(s, n / 10);
    }
    push_char(s, digit_of(n % 10));
}

/// The digit that `c` stands for, if it stands for one.
pub open spec fn digit_value(c: char) -> Option<nat> {
    if '0' <= c <= '9' {
        Some((c as u32 - '0' as u32) as nat)
    } else {
        None
    }
}

/// The number that `s` writes in decimal digits, if it is made of digits
/// and has at least one. Zeros may lead.
pub open spec fn number(s: Seq<char>) -> Option<nat>
    decreases s.len(),
{
    if s.len() == 0 {
        None
    } else if s.len() == 1 {
        digit_value(s[0])
    } else {
        match (number(s.drop_last()), digit_value(s.last())) {
            (Some(n), Some(d)) => Some(10 * n + d),
            _ => None,
        }
    }
}

/// The 16-bit number that `s` writes: decimal digits, after a plus sign or
/// without one, that make a number of at most 65535.
pub open spec fn short_number(s: Seq<char>) -> Option<u16> {
    let digits = if s.len() > 0 && s[0] == '+' {
        s.drop_first()
    } else {
        s
    };
    match number(digits) {
        Some(n) => if n <= u16::MAX {
            Some(n as u16)
        } else {
            None
        },
        None => None,
    }
}

/// Where some digits of `s` do not make a number, or make one above a
/// bound, the whole of `s` does no better.
pub proof fn lemma_number_grows(s: Seq<char>, i: int)
    requires
        1 <= i <= s.len(),
    ensures
        number(s.take(i)) is None ==> number(s) is None,
        number(s) is Some ==> number(s.take(i))->Some_0 <= number(s)->Some_0,
    decreases s.len() - i,
{
    if i == s.len() {
        assert(s.take(i) == s);
    } else {
        let longer = s.take(i + 1);
        assert(longer.drop_last() == s.take(i));
        lemma_number_grows(s, i + 1);
    }
}

/// Reads a 16-bit number.
pub fn parse_short(text: &str) -> (ret: Option<u16>)
    ensures
        ret == short_number(text@),
{
    let chars = chars_of(text);
    let start: usize = if chars.len() > 0 && chars[0] == '+' {
        1
    } else {
        0
    };
    let ghost digits = chars@.skip(start as int);
    proof {
        if start == 1 {
        } else {
            assert(digits == text@);
        }
    }
    if start == chars.len() {
        return None;
    }
    let mut value: u32 = 0;
    let mut i: usize = start;
    while i < chars.len()
        invariant
            start <= i <= chars.len(),
            start < chars.len(),
            digits == chars@.skip(start as int),
            short_number(text@) == match number(digits) {
                Some(n) => if n <= u16::MAX {
                    Some(n as u16)
                } else {
                    None
                },
                None => None,
            },
            value <= u16::MAX,
            i == start ==> value == 0,
            i > start ==> number(digits.take(i - start)) == Some(value as nat),
        decreases chars.len() - i,
    {
        let c = chars[i];
        let ghost longer = digits.take(i - start + 1);
        proof {
            assert(longer.drop_last() == digits.take(i - start));
            lemma_number_grows(digits, i - start + 1);
        }
        if !('0' <= c && c <= '9') {
            return None;
        }
        let d: u32 = c as u32 - '0' as u32;
        value = 10 * value + d;
        if value > 65535 {
            return None;
        }
        i += 1;
    }
    assert(digits.take(digits.len() as int) == digits);
    Some(value as u16)
}

/// A number written in decimal digits reads as itself, and its first
/// character is a digit.
pub proof fn lemma_number_of_decimal(n: nat)
    ensures
        decimal(n).len() >= 1,
        digit_value(decimal(n)[0]) is Some,
        number(decimal(n)) == Some(n),
    decreases n,
{
    if n >= 10 {
        lemma_number_of_decimal(n / 10);
        assert(decimal(n).drop_last() == decimal(n / 10));
    }
}

/// A 16-bit number written in decimal digits reads as itself.
pub proof fn lemma_short_number_of_decimal(n: u16)
    ensures
        short_number(decimal(n as nat)) == Some(n),
{
    lemma_number_of_decimal(n as nat);
}

} // verus!
