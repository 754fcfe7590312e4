//! Character-level string operations with their mathematical meaning.
//!
//! Strings are handled as sequences of Unicode scalar values (`Seq<char>`).
//! The byte offsets that `str` methods use and the character offsets used
//! here select the same substrings, because every pattern matched below
//! starts and ends on a character boundary.
use vstd::prelude::*;

verus! {

// ---------------------------------------------------------------------
// Specifications
// ---------------------------------------------------------------------

/// `s` with every trailing `c` removed (`str::trim_end_matches(c)`).
pub open spec fn trim_end(s: Seq<char>, c: char) -> Seq<char>
    decreases s.len(),
{
    if s.len() > 0 && s.last() == c {
        trim_end(s.drop_last(), c)
    } else {
        s
    }
}

/// `s` with every leading `c` removed (`str::trim_start_matches(c)`).
pub open spec fn trim_start(s: Seq<char>, c: char) -> Seq<char>
    decreases s.len(),
{
    if s.len() > 0 && s[0] == c {
        trim_start(s.drop_first(), c)
    } else {
        s
    }
}

/// An optional position as a mathematical integer.
pub open spec fn opt_int(o: Option<usize>) -> Option<int> {
    match o {
        Some(k) => Some(k as int),
        None => None,
    }
}

/// `needle` occurs in `hay` starting at position `i`.
pub open spec fn occurs_at(hay: Seq<char>, needle: Seq<char>, i: int) -> bool {
    0 <= i && i + needle.len() <= hay.len() && hay.subrange(i, i + needle.len()) == needle
}

/// The first position at or after `from` where `needle` occurs in `hay`.
pub open spec fn find_from(hay: Seq<char>, needle: Seq<char>, from: int) -> Option<int>
    decreases hay.len() + 1 - from,
{
    if from < 0 || from + needle.len() > hay.len() {
        None
    } else if occurs_at(hay, needle, from) {
        Some(from)
    } else {
        find_from(hay, needle, from + 1)
    }
}

/// The first position where `needle` occurs in `hay` (`str::find`).
pub open spec fn find(hay: Seq<char>, needle: Seq<char>) -> Option<int> {
    find_from(hay, needle, 0)
}

/// `hay` contains `needle` (`str::contains`).
pub open spec fn contains(hay: Seq<char>, needle: Seq<char>) -> bool {
    find(hay, needle) is Some
}

/// The pieces of `s` between the occurrences of the separator `sep`,
/// scanning from the left (`str::split`); an empty separator leaves `s`
/// whole.
pub open spec fn split(s: Seq<char>, sep: Seq<char>) -> Seq<Seq<char>>
    decreases s.len(),
{
    if sep.len() == 0 {
        seq![s]
    } else {
        match find(s, sep) {
            Some(i) => {
                if 0 <= i && i + sep.len() <= s.len() {
                    seq![s.take(i)] + split(s.skip(i + sep.len()), sep)
                } else {
                    seq![s]
                }
            },
            None => seq![s],
        }
    }
}

/// `s` with every `c` replaced by `rep` (`str::replace` with a char pattern).
pub open spec fn replace_char(s: Seq<char>, c: char, rep: Seq<char>) -> Seq<char>
    decreases s.len(),
{
    if s.len() == 0 {
        s
    } else {
        replace_char(s.drop_last(), c, rep) + (if s.last() == c {
            rep
        } else {
            seq![s.last()]
        })
    }
}

/// The last non-empty sequence of `parts`, if there is one.
pub open spec fn last_nonempty(parts: Seq<Seq<char>>) -> Option<Seq<char>>
    decreases parts.len(),
{
    if parts.len() == 0 {
        None
    } else if parts.last().len() > 0 {
        Some(parts.last())
    } else {
        last_nonempty(parts.drop_last())
    }
}

/// The character sequences held by a sequence of character vectors.
pub open spec fn views(v: Seq<Vec<char>>) -> Seq<Seq<char>> {
    v.map_values(|x: Vec<char>| x@)
}

/// Lexicographic order of character sequences by code point; this is the
/// order of `String`'s `Ord`, since UTF-8 preserves code point order.
pub open spec fn lex_less(a: Seq<char>, b: Seq<char>) -> bool
    decreases a.len(),
{
    if a.len() == 0 {
        b.len() > 0
    } else if b.len() == 0 {
        false
    } else if a[0] != b[0] {
        a[0] < b[0]
    } else {
        lex_less(a.drop_first(), b.drop_first())
    }
}

/// The decimal digit character for `d < 10`.
pub open spec fn digit_char(d: nat) -> char {
    (('0' as u32) + d) as char
}

/// The decimal representation of `n`, without leading zeros.
pub open spec fn decimal(n: nat) -> Seq<char>
    decreases n,
{
    if n < 10 {
        seq![digit_char(n)]
    } else {
        decimal(n / 10).push(digit_char(n % 10))
    }
}

/// `c` is an ASCII decimal digit.
pub open spec fn is_digit(c: char) -> bool {
    '0' <= c && c <= '9'
}

/// The number written by a sequence of decimal digits.
pub open spec fn digits_value(s: Seq<char>) -> nat
    decreases s.len(),
{
    if s.len() == 0 {
        0
    } else {
        digits_value(s.drop_last()) * 10 + ((s.last() as u32) - ('0' as u32)) as nat
    }
}

/// `s` without one leading `+`.
pub open spec fn unsigned_digits(s: Seq<char>) -> Seq<char> {
    if s.len() > 0 && s[0] == '+' {
        s.drop_first()
    } else {
        s
    }
}

/// What `s.parse::<u64>()` accepts: an optional `+`, then one or more
/// ASCII digits whose value fits in a `u64`; anything else is an error.
pub open spec fn parse_u64(s: Seq<char>) -> Option<u64> {
    let d = unsigned_digits(s);
    if d.len() > 0 && (forall|i: int| 0 <= i < d.len() ==> is_digit(#[trigger] d[i]))
        && digits_value(d) <= u64::MAX {
        Some(digits_value(d) as u64)
    } else {
        None
    }
}

/// `c` has the Unicode `White_Space` property (`char::is_whitespace`).
pub open spec fn is_whitespace(c: char) -> bool {
    let u = c as u32;
    (0x9 <= u <= 0xD) || u == 0x20 || u == 0x85 || u == 0xA0 || u == 0x1680 || (0x2000 <= u
        <= 0x200A) || u == 0x2028 || u == 0x2029 || u == 0x202F || u == 0x205F || u == 0x3000
}

/// The number of leading characters of `s` that are not white space.
pub open spec fn word_len(s: Seq<char>) -> nat
    decreases s.len(),
{
    if s.len() == 0 || is_whitespace(s[0]) {
        0
    } else {
        1 + word_len(s.drop_first())
    }
}

/// The maximal runs of non-white-space characters of `s`, in order
/// (`str::split_whitespace`).
pub open spec fn words(s: Seq<char>) -> Seq<Seq<char>>
    decreases s.len(),
{
    if s.len() == 0 {
        seq![]
    } else if is_whitespace(s[0]) {
        words(s.drop_first())
    } else {
        let n = word_len(s);
        if 0 < n <= s.len() {
            seq![s.take(n as int)] + words(s.skip(n as int))
        } else {
            seq![]
        }
    }
}

/// The first line of `s` as `str::lines` yields it: up to the first
/// `\n`, without a `\r` that directly precedes it; all of `s` when it has
/// no `\n`.
pub open spec fn first_line(s: Seq<char>) -> Seq<char> {
    match find(s, seq!['\n']) {
        Some(i) => {
            let l = s.take(i);
            if l.len() > 0 && l.last() == '\r' {
                l.drop_last()
            } else {
                l
            }
        },
        None => s,
    }
}

// ---------------------------------------------------------------------
// Lemmas about the specifications
// ---------------------------------------------------------------------

/// `find_from` gives the first occurrence at or after `from`, and `None`
/// exactly when there is none.
pub proof fn lemma_find_from(hay: Seq<char>, needle: Seq<char>, from: int)
    requires
        0 <= from,
    ensures
        match find_from(hay, needle, from) {
            Some(k) => from <= k && occurs_at(hay, needle, k) && forall|j: int|
                from <= j < k ==> !occurs_at(hay, needle, j),
            None => forall|j: int| from <= j ==> !occurs_at(hay, needle, j),
        },
    decreases hay.len() + 1 - from,
{
    if from + needle.len() > hay.len() {
    } else if occurs_at(hay, needle, from) {
    } else {
        lemma_find_from(hay, needle, from + 1);
    }
}

/// The first occurrence at or after `from` is what `find_from` finds.
pub proof fn lemma_find_from_is(hay: Seq<char>, needle: Seq<char>, from: int, k: int)
    requires
        0 <= from <= k,
        occurs_at(hay, needle, k),
        forall|j: int| from <= j < k ==> !occurs_at(hay, needle, j),
    ensures
        find_from(hay, needle, from) == Some(k),
    decreases k - from,
{
    if from < k {
        lemma_find_from_is(hay, needle, from + 1, k);
    }
}

/// Searching a suffix of `hay` is searching `hay` from further on.
pub proof fn lemma_find_from_skip(hay: Seq<char>, needle: Seq<char>, start: int, from: int)
    requires
        0 <= start <= hay.len(),
        0 <= from,
    ensures
        opt_shift(find_from(hay.skip(start), needle, from), start) == find_from(
            hay,
            needle,
            from + start,
        ),
    decreases hay.len() + 1 - (from + start),
{
    let t = hay.skip(start);
    if from + needle.len() > t.len() {
    } else {
        assert(t.subrange(from, from + needle.len()) =~= hay.subrange(
            from + start,
            from + start + needle.len(),
        ));
        if occurs_at(t, needle, from) {
        } else {
            lemma_find_from_skip(hay, needle, start, from + 1);
        }
    }
}

/// `Some(k)` moved by `d`.
pub open spec fn opt_shift(o: Option<int>, d: int) -> Option<int> {
    match o {
        Some(k) => Some(k + d),
        None => None,
    }
}

/// Lexicographic order is irreflexive.
pub proof fn lemma_lex_irreflexive(a: Seq<char>)
    ensures
        !lex_less(a, a),
    decreases a.len(),
{
    if a.len() > 0 {
        lemma_lex_irreflexive(a.drop_first());
    }
}

/// Lexicographic order is transitive.
pub proof fn lemma_lex_transitive(a: Seq<char>, b: Seq<char>, c: Seq<char>)
    requires
        lex_less(a, b),
        lex_less(b, c),
    ensures
        lex_less(a, c),
    decreases a.len(),
{
    if a.len() > 0 && b.len() > 0 && c.len() > 0 && a[0] == b[0] && b[0] == c[0] {
        lemma_lex_transitive(a.drop_first(), b.drop_first(), c.drop_first());
    }
}

/// Lexicographic order is total: two sequences are equal or one is less.
pub proof fn lemma_lex_total(a: Seq<char>, b: Seq<char>)
    ensures
        a == b || lex_less(a, b) || lex_less(b, a),
    decreases a.len(),
{
    if a.len() > 0 && b.len() > 0 && a[0] == b[0] {
        lemma_lex_total(a.drop_first(), b.drop_first());
        if a.drop_first() == b.drop_first() {
            assert(a =~= seq![a[0]] + a.drop_first());
            assert(b =~= seq![b[0]] + b.drop_first());
        }
    } else if a.len() > 0 && b.len() > 0 {
    } else if a.len() == 0 && b.len() == 0 {
        assert(a =~= b);
    }
}

/// A prefix of a digit sequence never has a larger value.
pub proof fn lemma_digits_prefix_le(d: Seq<char>, k: int)
    requires
        0 <= k <= d.len(),
        forall|i: int| 0 <= i < d.len() ==> is_digit(#[trigger] d[i]),
    ensures
        digits_value(d.take(k)) <= digits_value(d),
    decreases d.len() - k,
{
    if k < d.len() {
        lemma_digits_prefix_le(d, k + 1);
        assert(d.take(k + 1).drop_last() =~= d.take(k));
    } else {
        assert(d.take(k) =~= d);
    }
}

/// `word_len` is the length of the leading run of non-white-space.
pub proof fn lemma_word_len(s: Seq<char>, n: int)
    requires
        0 <= n <= s.len(),
        forall|k: int| 0 <= k < n ==> !is_whitespace(#[trigger] s[k]),
        n == s.len() || is_whitespace(s[n]),
    ensures
        word_len(s) == n,
    decreases n,
{
    if n > 0 {
        let t = s.drop_first();
        assert forall|k: int| 0 <= k < n - 1 implies !is_whitespace(#[trigger] t[k]) by {
            assert(t[k] == s[k + 1]);
        }
        lemma_word_len(t, n - 1);
    }
}

// ---------------------------------------------------------------------
// Laws
// ---------------------------------------------------------------------

/// Trimming trailing `c` leaves no trailing `c`.
pub proof fn law_trim_end_no_trailing(s: Seq<char>, c: char)
    ensures
        trim_end(s, c).len() == 0 || trim_end(s, c).last() != c,
    decreases s.len(),
{
    if s.len() > 0 && s.last() == c {
        law_trim_end_no_trailing(s.drop_last(), c);
    }
}

/// Trimming trailing `c` twice is trimming once.
pub proof fn law_trim_end_idempotent(s: Seq<char>, c: char)
    ensures
        trim_end(trim_end(s, c), c) == trim_end(s, c),
{
    law_trim_end_no_trailing(s, c);
}

/// Trimming leading `c` leaves no leading `c`.
pub proof fn law_trim_start_no_leading(s: Seq<char>, c: char)
    ensures
        trim_start(s, c).len() == 0 || trim_start(s, c)[0] != c,
    decreases s.len(),
{
    if s.len() > 0 && s[0] == c {
        law_trim_start_no_leading(s.drop_first(), c);
    }
}

/// Trailing `c` added to a sequence are trimmed again.
pub proof fn law_trim_end_push(s: Seq<char>, c: char)
    ensures
        trim_end(s.push(c), c) == trim_end(s, c),
{
    assert(s.push(c).drop_last() =~= s);
}

/// Leading `c` added to a sequence are trimmed again.
pub proof fn law_trim_start_prepend(s: Seq<char>, c: char)
    ensures
        trim_start(seq![c] + s, c) == trim_start(s, c),
{
    assert((seq![c] + s).drop_first() =~= s);
}

/// The decimal representation of a number consists of digits and has
/// that number as its value.
pub proof fn lemma_decimal_digits(n: nat)
    ensures
        decimal(n).len() > 0,
        forall|i: int| 0 <= i < decimal(n).len() ==> is_digit(#[trigger] decimal(n)[i]),
        digits_value(decimal(n)) == n,
    decreases n,
{
    if n < 10 {
        assert((digit_char(n) as u32) == 48 + n);
        assert(('0' as u32) == 48);
        assert(decimal(n).drop_last() =~= Seq::<char>::empty());
        assert(digits_value(Seq::<char>::empty()) == 0);
        assert(decimal(n).last() == digit_char(n));
    } else {
        lemma_decimal_digits(n / 10);
        let d = decimal(n / 10);
        assert(decimal(n) == d.push(digit_char(n % 10)));
        assert(decimal(n).drop_last() =~= d);
        assert((digit_char(n % 10) as u32) == 48 + n % 10);
        assert(('0' as u32) == 48);
        assert(decimal(n).last() == digit_char(n % 10));
        assert(digits_value(decimal(n)) == digits_value(d) * 10 + ((digit_char(n % 10) as u32) - (
        '0' as u32)) as nat);
        assert((n / 10) * 10 + n % 10 == n);
        assert forall|i: int| 0 <= i < decimal(n).len() implies is_digit(
            #[trigger] decimal(n)[i],
        ) by {
            if i < d.len() {
                assert(decimal(n)[i] == d[i]);
            }
        }
    }
}

/// Reading back the decimal representation of a number gives the number.
pub proof fn law_parse_decimal(n: u64)
    ensures
        parse_u64(decimal(n as nat)) == Some(n),
{
    lemma_decimal_digits(n as nat);
    let d = decimal(n as nat);
    assert(is_digit(d[0]));
    assert(unsigned_digits(d) == d);
}

// ---------------------------------------------------------------------
// Executable operations
// ---------------------------------------------------------------------

/// Appends one character to a string (`String::push`).
#[verifier::external_body]
fn push_char(s: &mut String, c: char)
    ensures
        final(s)@ == old(s)@.push(c),
{
    s.push(c)
}

/// The characters of a string slice, in order.
pub fn chars_of(s: &str) -> (r: Vec<char>)
    ensures
        r@ == s@,
{
    let mut r: Vec<char> = Vec::new();
    for c in it: s.chars()
        invariant
            r@ == it.seq().take(it.index() as int),
            it.seq() == s@,
    {
        r.push(c);
    }
    r
}

/// The string made of the given characters, in order.
pub fn string_of(cs: &[char]) -> (r: String)
    ensures
        r@ == cs@,
{
    let mut r = String::new();
    let mut i: usize = 0;
    while i < cs.len()
        invariant
            i <= cs@.len(),
            r@ == cs@.take(i as int),
        decreases cs@.len() - i,
    {
        push_char(&mut r, cs[i]);
        assert(cs@.take(i + 1) == cs@.take(i as int).push(cs@[i as int]));
        i = i + 1;
    }
    assert(cs@.take(cs@.len() as int) == cs@);
    r
}

/// The characters `cs[from..to]`.
pub fn slice_chars(cs: &[char], from: usize, to: usize) -> (r: Vec<char>)
    requires
        from <= to <= cs@.len(),
    ensures
        r@ == cs@.subrange(from as int, to as int),
{
    let mut r: Vec<char> = Vec::new();
    let mut i = from;
    while i < to
        invariant
            from <= i <= to <= cs@.len(),
            r@ == cs@.subrange(from as int, i as int),
        decreases to - i,
    {
        r.push(cs[i]);
        assert(cs@.subrange(from as int, i + 1) == cs@.subrange(from as int, i as int).push(
            cs@[i as int],
        ));
        i = i + 1;
    }
    r
}

/// Appends the characters of `tail` to `v`.
pub fn push_all(v: &mut Vec<char>, tail: &[char])
    ensures
        final(v)@ == old(v)@ + tail@,
{
    let mut i: usize = 0;
    while i < tail.len()
        invariant
            i <= tail@.len(),
            v@ == old(v)@ + tail@.take(i as int),
        decreases tail@.len() - i,
    {
        v.push(tail[i]);
        assert(tail@.take(i + 1) == tail@.take(i as int).push(tail@[i as int]));
        i = i + 1;
    }
    assert(tail@.take(tail@.len() as int) == tail@);
}

/// `s` with every trailing `c` removed.
pub fn trim_end_chars(s: &[char], c: char) -> (r: Vec<char>)
    ensures
        r@ == trim_end(s@, c),
{
    let mut n = s.len();
    assert(s@.take(n as int) =~= s@);
    while n > 0 && s[n - 1] == c
        invariant
            n <= s@.len(),
            trim_end(s@.take(n as int), c) == trim_end(s@, c),
        decreases n,
    {
        assert(s@.take(n as int).drop_last() == s@.take(n - 1));
        n = n - 1;
    }
    slice_chars(s, 0, n)
}

/// `s` with every leading `c` removed.
pub fn trim_start_chars(s: &[char], c: char) -> (r: Vec<char>)
    ensures
        r@ == trim_start(s@, c),
{
    let mut k: usize = 0;
    assert(s@.skip(0) =~= s@);
    while k < s.len() && s[k] == c
        invariant
            k <= s@.len(),
            trim_start(s@.skip(k as int), c) == trim_start(s@, c),
        decreases s@.len() - k,
    {
        assert(s@.skip(k as int).drop_first() == s@.skip(k + 1));
        k = k + 1;
    }
    assert(s@.skip(k as int) == s@.subrange(k as int, s@.len() as int));
    slice_chars(s, k, s.len())
}

/// Whether `needle` occurs in `hay` at position `i`.
pub fn occurs_at_exec(hay: &[char], needle: &[char], i: usize) -> (r: bool)
    ensures
        r == occurs_at(hay@, needle@, i as int),
{
    if i > hay.len() || needle.len() > hay.len() - i {
        return false;
    }
    let mut k: usize = 0;
    while k < needle.len()
        invariant
            i + needle.len() <= hay.len(),
            k <= needle@.len(),
            forall|j: int| 0 <= j < k ==> hay@[i + j] == needle@[j],
        decreases needle@.len() - k,
    {
        if hay[i + k] != needle[k] {
            assert(hay@.subrange(i as int, i + needle@.len())[k as int] != needle@[k as int]);
            return false;
        }
        k = k + 1;
    }
    assert(hay@.subrange(i as int, i + needle@.len()) =~= needle@);
    true
}

/// The first position at or after `from` where `needle` occurs in `hay`.
pub fn find_from_exec(hay: &[char], needle: &[char], from: usize) -> (r: Option<usize>)
    ensures
        opt_int(r) == find_from(hay@, needle@, from as int),
{
    let mut i = from;
    loop
        invariant
            from <= i,
            find_from(hay@, needle@, i as int) == find_from(hay@, needle@, from as int),
        decreases hay@.len() + 1 - i,
    {
        if i > hay.len() || needle.len() > hay.len() - i {
            return None;
        }
        if occurs_at_exec(hay, needle, i) {
            return Some(i);
        }
        if i == hay.len() {
            assert(find_from(hay@, needle@, i + 1) is None);
            return None;
        }
        i = i + 1;
    }
}


/// The pieces of `s` between the occurrences of `sep`, from the left.
pub fn split_exec(s: &[char], sep: &[char]) -> (r: Vec<Vec<char>>)
    requires
        sep@.len() > 0,
    ensures
        views(r@) == split(s@, sep@),
{
    let mut parts: Vec<Vec<char>> = Vec::new();
    let mut start: usize = 0;
    assert(s@.skip(0) =~= s@);
    loop
        invariant
            sep@.len() > 0,
            start <= s@.len(),
            split(s@, sep@) == views(parts@) + split(s@.skip(start as int), sep@),
        decreases s@.len() - start,
    {
        let ghost rest = s@.skip(start as int);
        proof {
            lemma_find_from_skip(s@, sep@, start as int, 0);
        }
        match find_from_exec(s, sep, start) {
            Some(k) => {
                proof {
                    lemma_find_from(s@, sep@, start as int);
                }
                let piece = slice_chars(s, start, k);
                proof {
                    assert(rest.take(k - start) =~= piece@);
                    assert(rest.skip(k - start + sep@.len()) =~= s@.skip(k + sep@.len()));
                    assert(views(parts@.push(piece)) =~= views(parts@).push(piece@));
                }
                parts.push(piece);
                let total = s.len();
                assert(k + sep@.len() <= total);
                start = k + sep.len();
            },
            None => {
                let piece = slice_chars(s, start, s.len());
                proof {
                    assert(rest =~= piece@);
                    assert(views(parts@.push(piece)) =~= views(parts@).push(piece@));
                }
                parts.push(piece);
                return parts;
            },
        }
    }
}

/// `s` with every `c` replaced by `rep`.
pub fn replace_char_exec(s: &[char], c: char, rep: &[char]) -> (r: Vec<char>)
    ensures
        r@ == replace_char(s@, c, rep@),
{
    let mut r: Vec<char> = Vec::new();
    let mut i: usize = 0;
    while i < s.len()
        invariant
            i <= s@.len(),
            r@ == replace_char(s@.take(i as int), c, rep@),
        decreases s@.len() - i,
    {
        assert(s@.take(i + 1).drop_last() == s@.take(i as int));
        if s[i] == c {
            push_all(&mut r, rep);
        } else {
            r.push(s[i]);
        }
        i = i + 1;
    }
    assert(s@.take(s@.len() as int) == s@);
    r
}

/// The last non-empty part, if any.
pub fn last_nonempty_exec(parts: &Vec<Vec<char>>) -> (r: Option<Vec<char>>)
    ensures
        match r {
            Some(v) => last_nonempty(views(parts@)) == Some(v@),
            None => last_nonempty(views(parts@)) is None,
        },
{
    let mut n = parts.len();
    assert(views(parts@).take(n as int) =~= views(parts@));
    while n > 0
        invariant
            n <= parts@.len(),
            last_nonempty(views(parts@).take(n as int)) == last_nonempty(views(parts@)),
        decreases n,
    {
        let ghost prefix = views(parts@).take(n as int);
        if parts[n - 1].len() > 0 {
            assert(prefix.last() == parts@[n - 1]@);
            return Some(slice_chars(parts[n - 1].as_slice(), 0, parts[n - 1].len()));
        }
        assert(prefix.drop_last() =~= views(parts@).take(n - 1));
        n = n - 1;
    }
    None
}

/// Whether `a` comes before `b` in lexicographic order.
pub fn lex_less_exec(a: &[char], b: &[char]) -> (r: bool)
    ensures
        r == lex_less(a@, b@),
{
    let mut i: usize = 0;
    assert(a@.skip(0) =~= a@);
    assert(b@.skip(0) =~= b@);
    loop
        invariant
            i <= a@.len(),
            i <= b@.len(),
            lex_less(a@.skip(i as int), b@.skip(i as int)) == lex_less(a@, b@),
        decreases a@.len() - i,
    {
        if i == a.len() {
            return i < b.len();
        }
        if i == b.len() {
            return false;
        }
        if a[i] != b[i] {
            return a[i] < b[i];
        }
        assert(a@.skip(i as int).drop_first() =~= a@.skip(i + 1));
        assert(b@.skip(i as int).drop_first() =~= b@.skip(i + 1));
        i = i + 1;
    }
}

/// The decimal digit character for `d`.
fn digit_char_exec(d: u64) -> (c: char)
    requires
        d < 10,
    ensures
        c == digit_char(d as nat),
{
    let b: u8 = 48u8 + (d as u8);
    let c = b as char;
    assert(c == digit_char(d as nat)) by {
        assert(('0' as u32) == 48);
    }
    c
}

/// The decimal representation of `n`.
pub fn decimal_exec(n: u64) -> (r: Vec<char>)
    ensures
        r@ == decimal(n as nat),
    decreases n,
{
    if n < 10 {
        let mut v: Vec<char> = Vec::new();
        v.push(digit_char_exec(n));
        assert(v@ =~= seq![digit_char(n as nat)]);
        v
    } else {
        let mut v = decimal_exec(n / 10);
        v.push(digit_char_exec(n % 10));
        v
    }
}


/// `s.parse::<u64>()`, as an `Option`.
pub fn parse_u64_exec(s: &[char]) -> (r: Option<u64>)
    ensures
        r == parse_u64(s@),
{
    let start: usize = if s.len() > 0 && s[0] == '+' {
        1
    } else {
        0
    };
    let ghost d = unsigned_digits(s@);
    assert(d =~= s@.skip(start as int));
    if start == s.len() {
        return None;
    }
    let mut val: u64 = 0;
    let mut i = start;
    assert(d.take(0) =~= Seq::<char>::empty());
    while i < s.len()
        invariant
            start <= i <= s@.len(),
            d == s@.skip(start as int),
            d == unsigned_digits(s@),
            val as nat == digits_value(d.take(i - start)),
            forall|j: int| 0 <= j < i - start ==> is_digit(#[trigger] d[j]),
        decreases s@.len() - i,
    {
        let c = s[i];
        assert(d[i - start] == c);
        if !('0' <= c && c <= '9') {
            assert(!is_digit(d[i - start]));
            assert(parse_u64(s@) is None);
            return None;
        }
        assert(d.take(i - start + 1).drop_last() =~= d.take(i - start));
        assert(d.take(i - start + 1).last() == c);
        let dv: u64 = ((c as u32) - 48u32) as u64;
        assert(('0' as u32) == 48);
        match val.checked_mul(10) {
            Some(m) => match m.checked_add(dv) {
                Some(nv) => {
                    val = nv;
                },
                None => {
                    proof {
                        if forall|j: int| 0 <= j < d.len() ==> is_digit(#[trigger] d[j]) {
                            lemma_digits_prefix_le(d, i - start + 1);
                        }
                    }
                    assert(parse_u64(s@) is None);
                    return None;
                },
            },
            None => {
                proof {
                    if forall|j: int| 0 <= j < d.len() ==> is_digit(#[trigger] d[j]) {
                        lemma_digits_prefix_le(d, i - start + 1);
                    }
                }
                assert(parse_u64(s@) is None);
                return None;
            },
        }
        i = i + 1;
    }
    assert(d.take(i - start) =~= d);
    Some(val)
}

/// Whether `c` is white space (`char::is_whitespace`).
pub fn is_whitespace_exec(c: char) -> (r: bool)
    ensures
        r == is_whitespace(c),
{
    let u = c as u32;
    (0x9 <= u && u <= 0xD) || u == 0x20 || u == 0x85 || u == 0xA0 || u == 0x1680 || (0x2000 <= u
        && u <= 0x200A) || u == 0x2028 || u == 0x2029 || u == 0x202F || u == 0x205F || u == 0x3000
}


/// The white-space separated words of `s`.
pub fn words_exec(s: &[char]) -> (r: Vec<Vec<char>>)
    ensures
        views(r@) == words(s@),
{
    let mut acc: Vec<Vec<char>> = Vec::new();
    let mut i: usize = 0;
    assert(s@.skip(0) =~= s@);
    while i < s.len()
        invariant
            i <= s@.len(),
            words(s@) == views(acc@) + words(s@.skip(i as int)),
        decreases s@.len() - i,
    {
        let ghost rest = s@.skip(i as int);
        if is_whitespace_exec(s[i]) {
            assert(rest.drop_first() =~= s@.skip(i + 1));
            i = i + 1;
        } else {
            let mut j = i + 1;
            while j < s.len() && !is_whitespace_exec(s[j])
                invariant
                    i < j <= s@.len(),
                    forall|k: int| i <= k < j ==> !is_whitespace(#[trigger] s@[k]),
                decreases s@.len() - j,
            {
                j = j + 1;
            }
            proof {
                assert forall|k: int| 0 <= k < j - i implies !is_whitespace(#[trigger] rest[k]) by {
                    assert(rest[k] == s@[i + k]);
                }
                if j < s@.len() {
                    assert(rest[j - i] == s@[j as int]);
                }
                lemma_word_len(rest, j - i);
            }
            let w = slice_chars(s, i, j);
            assert(rest.take(j - i) =~= w@);
            assert(rest.skip(j - i) =~= s@.skip(j as int));
            assert(views(acc@.push(w)) =~= views(acc@).push(w@));
            acc.push(w);
            i = j;
        }
    }
    assert(s@.skip(i as int) =~= Seq::<char>::empty());
    assert(views(acc@) + Seq::<Seq<char>>::empty() =~= views(acc@));
    acc
}

/// The first line of `s`, as `str::lines` yields it.
pub fn first_line_exec(s: &[char]) -> (r: Vec<char>)
    ensures
        r@ == first_line(s@),
{
    let newline: [char; 1] = ['\n'];
    assert(newline@ =~= seq!['\n']);
    match find_exec(s, &newline) {
        Some(i) => {
            proof {
                lemma_find_from(s@, seq!['\n'], 0);
            }
            if i > 0 && s[i - 1] == '\r' {
                slice_chars(s, 0, i - 1)
            } else {
                slice_chars(s, 0, i)
            }
        },
        None => slice_chars(s, 0, s.len()),
    }
}

/// The first position where `needle` occurs in `hay`.
pub fn find_exec(hay: &[char], needle: &[char]) -> (r: Option<usize>)
    ensures
        opt_int(r) == find(hay@, needle@),
{
    find_from_exec(hay, needle, 0)
}

/// Whether `hay` contains `needle`.
pub fn contains_exec(hay: &[char], needle: &[char]) -> (r: bool)
    ensures
        r == contains(hay@, needle@),
{
    find_exec(hay, needle).is_some()
}

/// Replacing a character that does not occur changes nothing.
pub proof fn lemma_replace_char_absent(s: Seq<char>, c: char, rep: Seq<char>)
    requires
        !s.contains(c),
    ensures
        replace_char(s, c, rep) == s,
    decreases s.len(),
{
    if s.len() > 0 {
        assert(s.last() != c) by {
            if s.last() == c {
                assert(s[s.len() - 1] == c);
            }
        }
        assert forall|x: char| s.drop_last().contains(x) implies s.contains(x) by {
            let k = choose|k: int| 0 <= k < s.drop_last().len() && s.drop_last()[k] == x;
            assert(s[k] == x);
        }
        lemma_replace_char_absent(s.drop_last(), c, rep);
        assert(s.drop_last() + seq![s.last()] =~= s);
    }
}

} // verus!
