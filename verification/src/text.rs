//! Character-level building blocks shared by the header parsers and the path
//! resolver: whitespace trimming, splitting on a separator, and decimal
//! numbers in both directions.
//!
//! Every function works on a window `[lo, hi)` of a `Vec<char>` so that
//! parsers can walk one buffer without copying, and every contract is stated
//! over the mathematical sequence `Seq<char>` that the window denotes.
use vstd::prelude::*;

verus! {

/// The contract of `String::push` of the standard library, which is taken
/// on trust and not proved: the call appends the character `c` to the end of
/// the string and leaves the characters before it as they were.
pub assume_specification[ String::push ](s: &mut String, c: char)
    ensures
        final(s)@ == old(s)@.push(c),
;

/// The characters of `s`, in order.
pub fn to_chars(s: &str) -> (v: Vec<char>)
    ensures
        v@ == s@,
{
    let mut v: Vec<char> = Vec::new();
    for c in it: s.chars()
        invariant
            v@ == it.seq().take(it.index() as int),
            it.seq() == s@,
    {
        v.push(c);
    }
    v
}

/// A copy of `s`.
pub(crate) fn clone_string(s: &String) -> (r: String)
    ensures
        r@ == s@,
{
    s.as_str().to_owned()
}

/// A copy of `encoding`.
pub(crate) fn clone_encoding(encoding: &Option<String>) -> (r: Option<String>)
    ensures
        r.deep_view() == encoding.deep_view(),
{
    match encoding {
        Some(e) => Some(clone_string(e)),
        None => None,
    }
}

/// Appends the window `[lo, hi)` of `v` to `s`.
pub(crate) fn push_chars(s: &mut String, v: &Vec<char>, lo: usize, hi: usize)
    requires
        lo <= hi <= v.len(),
    ensures
        final(s)@ == old(s)@ + v@.subrange(lo as int, hi as int),
{
    let mut i: usize = lo;
    while i < hi
        invariant
            lo <= i <= hi <= v.len(),
            s@ == old(s)@ + v@.subrange(lo as int, i as int),
        decreases hi - i,
    {
        s.push(v[i]);
        i += 1;
        assert(v@.subrange(lo as int, i as int) =~= v@.subrange(lo as int, i - 1).push(
            v@[i - 1],
        ));
        assert(s@ =~= old(s)@ + v@.subrange(lo as int, i as int));
    }
    assert(s@ =~= old(s)@ + v@.subrange(lo as int, hi as int));
}

/// The window `[lo, hi)` of `v` as an owned string.
pub(crate) fn to_string(v: &Vec<char>, lo: usize, hi: usize) -> (s: String)
    requires
        lo <= hi <= v.len(),
    ensures
        s@ == v@.subrange(lo as int, hi as int),
{
    let mut s = String::new();
    push_chars(&mut s, v, lo, hi);
    assert(s@ =~= v@.subrange(lo as int, hi as int));
    s
}

/// Tells whether the window `[lo, hi)` of `v` spells exactly `word`.
pub(crate) fn window_is(v: &Vec<char>, lo: usize, hi: usize, word: &str) -> (b: bool)
    requires
        lo <= hi <= v.len(),
    ensures
        b == (v@.subrange(lo as int, hi as int) == word@),
{
    let mut i: usize = lo;
    for c in it: word.chars()
        invariant
            lo <= i <= hi <= v.len(),
            it.seq() == word@,
            i - lo == it.index(),
            forall|k: int| 0 <= k < it.index() ==> v@[lo + k] == word@[k],
    {
        if i >= hi {
            assert(v@.subrange(lo as int, hi as int).len() < word@.len());
            return false;
        }
        if v[i] != c {
            assert(v@.subrange(lo as int, hi as int)[i - lo] != word@[i - lo]);
            return false;
        }
        i += 1;
    }
    if i == hi {
        assert(v@.subrange(lo as int, hi as int) =~= word@);
        true
    } else {
        assert(v@.subrange(lo as int, hi as int).len() > word@.len());
        false
    }
}

/// One more than the position of the last `c` in `s`, or zero where `s`
/// holds none: the position at which what follows the last `c` begins.
pub open spec fn after_last(s: Seq<char>, c: char) -> nat
    decreases s.len(),
{
    if s.len() == 0 || s.last() == c {
        s.len()
    } else {
        after_last(s.drop_last(), c)
    }
}

/// `after_last` is the one position from which on no `c` stands and before
/// which either a `c` stands or the sequence begins.
pub proof fn lemma_after_last(s: Seq<char>, c: char, n: int)
    requires
        0 <= n <= s.len(),
        forall|k: int| n <= k < s.len() ==> s[k] != c,
        n == 0 || s[n - 1] == c,
    ensures
        after_last(s, c) == n,
    decreases s.len(),
{
    if s.len() == 0 || s.last() == c {
    } else {
        lemma_after_last(s.drop_last(), c, n);
    }
}

/// The position just behind the last `c` in the window `[lo, hi)` of `v`, or
/// `lo` where the window holds none.
pub(crate) fn find_after_last(v: &Vec<char>, lo: usize, hi: usize, c: char) -> (i: usize)
    requires
        lo <= hi <= v.len(),
    ensures
        lo <= i <= hi,
        i - lo == after_last(v@.subrange(lo as int, hi as int), c),
{
    let mut i: usize = hi;
    while i > lo && v[i - 1] != c
        invariant
            lo <= i <= hi <= v.len(),
            forall|k: int| i <= k < hi ==> v@[k] != c,
        decreases i - lo,
    {
        i -= 1;
    }
    proof {
        lemma_after_last(v@.subrange(lo as int, hi as int), c, i - lo);
    }
    i
}

/// Whether `s` begins with `p`.
pub open spec fn starts_with(s: Seq<char>, p: Seq<char>) -> bool {
    p.len() <= s.len() && s.take(p.len() as int) == p
}

/// Where the window `[lo, hi)` of `v` begins with `word`, the position just
/// behind that occurrence of `word`.
pub(crate) fn strip_prefix(v: &Vec<char>, lo: usize, hi: usize, word: &str) -> (r: Option<usize>)
    requires
        lo <= hi <= v.len(),
    ensures
        r is Some == starts_with(v@.subrange(lo as int, hi as int), word@),
        r matches Some(at) ==> lo <= at <= hi && at - lo == word@.len(),
{
    let n = word.unicode_len();
    if n > hi - lo {
        return None;
    }
    proof {
        assert(v@.subrange(lo as int, hi as int).take(n as int) =~= v@.subrange(
            lo as int,
            lo + n,
        ));
    }
    if window_is(v, lo, lo + n, word) {
        Some(lo + n)
    } else {
        None
    }
}

/// White space as Unicode defines it: the characters that carry the
/// `White_Space` property.
pub open spec fn is_space(c: char) -> bool {
    ||| ('\u{9}' <= c && c <= '\u{d}')
    ||| c == ' '
    ||| c == '\u{85}'
    ||| c == '\u{a0}'
    ||| c == '\u{1680}'
    ||| ('\u{2000}' <= c && c <= '\u{200a}')
    ||| c == '\u{2028}'
    ||| c == '\u{2029}'
    ||| c == '\u{202f}'
    ||| c == '\u{205f}'
    ||| c == '\u{3000}'
}

/// Tells whether `c` is white space.
pub fn char_is_space(c: char) -> (b: bool)
    ensures
        b == is_space(c),
{
    ('\u{9}' <= c && c <= '\u{d}') || c == ' ' || c == '\u{85}' || c == '\u{a0}' || c
        == '\u{1680}' || ('\u{2000}' <= c && c <= '\u{200a}') || c == '\u{2028}' || c
        == '\u{2029}' || c == '\u{202f}' || c == '\u{205f}' || c == '\u{3000}'
}

/// `s` without its leading white space.
pub open spec fn trim_start(s: Seq<char>) -> Seq<char>
    decreases s.len(),
{
    if s.len() > 0 && is_space(s[0]) {
        trim_start(s.drop_first())
    } else {
        s
    }
}

/// `s` without its trailing white space.
pub open spec fn trim_end(s: Seq<char>) -> Seq<char>
    decreases s.len(),
{
    if s.len() > 0 && is_space(s.last()) {
        trim_end(s.drop_last())
    } else {
        s
    }
}

/// `s` without leading and trailing white space.
pub open spec fn trim(s: Seq<char>) -> Seq<char> {
    trim_end(trim_start(s))
}

/// Narrows the window `[lo, hi)` of `v` to what is left of it once leading
/// and trailing white space is dropped.
pub(crate) fn trim_window(v: &Vec<char>, lo: usize, hi: usize) -> (r: (usize, usize))
    requires
        lo <= hi <= v.len(),
    ensures
        lo <= r.0 <= r.1 <= hi,
        v@.subrange(r.0 as int, r.1 as int) == trim(v@.subrange(lo as int, hi as int)),
{
    let mut a: usize = lo;
    while a < hi && char_is_space(v[a])
        invariant
            lo <= a <= hi <= v.len(),
            trim_start(v@.subrange(a as int, hi as int)) == trim_start(
                v@.subrange(lo as int, hi as int),
            ),
        decreases hi - a,
    {
        assert(v@.subrange(a as int, hi as int).drop_first() =~= v@.subrange(
            a + 1,
            hi as int,
        ));
        a += 1;
    }
    assert(trim_start(v@.subrange(lo as int, hi as int)) == v@.subrange(a as int, hi as int));
    let mut b: usize = hi;
    while a < b && char_is_space(v[b - 1])
        invariant
            lo <= a <= b <= hi <= v.len(),
            trim_end(v@.subrange(a as int, b as int)) == trim_end(
                v@.subrange(a as int, hi as int),
            ),
        decreases b - a,
    {
        assert(v@.subrange(a as int, b as int).drop_last() =~= v@.subrange(a as int, b - 1));
        b -= 1;
    }
    (a, b)
}

/// The position of the first `c` in `s`, or the length of `s` where it holds
/// none.
pub open spec fn index_of(s: Seq<char>, c: char) -> nat
    decreases s.len(),
{
    if s.len() == 0 || s[0] == c {
        0
    } else {
        (1 + index_of(s.drop_first(), c)) as nat
    }
}

/// `index_of` is the one position before which no `c` stands and at which
/// either a `c` stands or the sequence ends.
pub proof fn lemma_index_of(s: Seq<char>, c: char, n: int)
    requires
        0 <= n <= s.len(),
        forall|k: int| 0 <= k < n ==> s[k] != c,
        n == s.len() || s[n] == c,
    ensures
        index_of(s, c) == n,
    decreases s.len(),
{
    if s.len() == 0 || s[0] == c {
    } else {
        lemma_index_of(s.drop_first(), c, n - 1);
    }
}

/// What `index_of` returns lies within the sequence, no `c` stands before
/// it, and a `c` stands at it unless it is the end.
pub proof fn lemma_index_of_bounds(s: Seq<char>, c: char)
    ensures
        index_of(s, c) <= s.len(),
        forall|k: int| 0 <= k < index_of(s, c) ==> s[k] != c,
        index_of(s, c) < s.len() ==> s[index_of(s, c) as int] == c,
    decreases s.len(),
{
    if s.len() == 0 || s[0] == c {
    } else {
        lemma_index_of_bounds(s.drop_first(), c);
        let t = s.drop_first();
        assert forall|k: int| 0 <= k < index_of(s, c) implies s[k] != c by {
            if k > 0 {
                assert(s[k] == t[k - 1]);
            }
        }
        if index_of(s, c) < s.len() {
            assert(s[index_of(s, c) as int] == t[index_of(t, c) as int]);
        }
    }
}

/// The position of the first `c` in the window `[lo, hi)` of `v`, or `hi`
/// where the window holds none.
pub(crate) fn find(v: &Vec<char>, lo: usize, hi: usize, c: char) -> (i: usize)
    requires
        lo <= hi <= v.len(),
    ensures
        lo <= i <= hi,
        i - lo == index_of(v@.subrange(lo as int, hi as int), c),
        forall|k: int| lo <= k < i ==> v@[k] != c,
        i < hi ==> v@[i as int] == c,
{
    let mut i: usize = lo;
    while i < hi && v[i] != c
        invariant
            lo <= i <= hi <= v.len(),
            forall|k: int| lo <= k < i ==> v@[k] != c,
        decreases hi - i,
    {
        i += 1;
    }
    proof {
        lemma_index_of(v@.subrange(lo as int, hi as int), c, i - lo);
    }
    i
}

/// The pieces of `s` between occurrences of `sep`. There is always at least
/// one piece, and a piece may be empty.
pub open spec fn split(s: Seq<char>, sep: char) -> Seq<Seq<char>>
    decreases s.len(),
{
    let i = index_of(s, sep);
    if i >= s.len() {
        seq![s]
    } else {
        seq![s.take(i as int)] + split(s.skip(i + 1 as int), sep)
    }
}

/// Splitting goes through a separator: what is split off before a
/// separator and what is split off behind it are split as they would be
/// alone.
pub proof fn lemma_split_concat(a: Seq<char>, b: Seq<char>, sep: char)
    ensures
        split(a + seq![sep] + b, sep) == split(a, sep) + split(b, sep),
    decreases a.len(),
{
    let s = a + seq![sep] + b;
    let i = index_of(a, sep);
    lemma_index_of_bounds(a, sep);
    if i >= a.len() {
        assert forall|k: int| 0 <= k < a.len() implies s[k] != sep by {
            assert(s[k] == a[k]);
        }
        assert(s[a.len() as int] == sep);
        lemma_index_of(s, sep, a.len() as int);
        assert(s.take(a.len() as int) =~= a);
        assert(s.skip(a.len() + 1 as int) =~= b);
        assert(split(a, sep) =~= seq![a]);
    } else {
        assert forall|k: int| 0 <= k < i implies s[k] != sep by {
            assert(s[k] == a[k]);
        }
        assert(s[i as int] == a[i as int]);
        lemma_index_of(s, sep, i as int);
        assert(s.take(i as int) =~= a.take(i as int));
        assert(s.skip(i + 1 as int) =~= a.skip(i + 1 as int) + seq![sep] + b);
        lemma_split_concat(a.skip(i + 1 as int), b, sep);
        assert(split(s, sep) =~= split(a, sep) + split(b, sep));
    }
}

/// The sub-sequences of `s` that a list of windows denotes.
pub open spec fn windows(s: Seq<char>, w: Seq<(usize, usize)>) -> Seq<Seq<char>> {
    Seq::new(w.len(), |i: int| s.subrange(w[i].0 as int, w[i].1 as int))
}

/// Splits the window `[lo, hi)` of `v` on `sep`, and returns the pieces as
/// windows of `v`.
pub(crate) fn split_window(v: &Vec<char>, lo: usize, hi: usize, sep: char) -> (w: Vec<(usize, usize)>)
    requires
        lo <= hi <= v.len(),
    ensures
        windows(v@, w@) == split(v@.subrange(lo as int, hi as int), sep),
        forall|i: int| 0 <= i < w.len() ==> lo <= (#[trigger] w[i]).0 <= w[i].1 <= hi,
        w.len() > 0,
{
    let mut w: Vec<(usize, usize)> = Vec::new();
    let mut start: usize = lo;
    loop
        invariant_except_break
            lo <= start <= hi <= v.len(),
            forall|i: int| 0 <= i < w.len() ==> lo <= (#[trigger] w[i]).0 <= w[i].1 <= hi,
            split(v@.subrange(lo as int, hi as int), sep) == windows(v@, w@) + split(
                v@.subrange(start as int, hi as int),
                sep,
            ),
        ensures
            lo <= hi <= v.len(),
            windows(v@, w@) == split(v@.subrange(lo as int, hi as int), sep),
            forall|i: int| 0 <= i < w.len() ==> lo <= (#[trigger] w[i]).0 <= w[i].1 <= hi,
            w.len() > 0,
        decreases hi - start,
    {
        let end = find(v, start, hi, sep);
        let ghost before = w@;
        let ghost rest = v@.subrange(start as int, hi as int);
        w.push((start, end));
        proof {
            assert(rest.take(end - start) =~= v@.subrange(start as int, end as int));
            assert(windows(v@, w@) =~= windows(v@, before) + seq![
                v@.subrange(start as int, end as int),
            ]);
        }
        if end == hi {
            proof {
                assert(rest.take(end - start) =~= rest);
                assert(split(rest, sep) =~= seq![rest]);
            }
            break ;
        }
        proof {
            assert(rest.skip(end - start + 1) =~= v@.subrange(end + 1, hi as int));
            assert(split(rest, sep) =~= seq![rest.take(end - start)] + split(
                v@.subrange(end + 1, hi as int),
                sep,
            ));
            assert(windows(v@, before) + (seq![rest.take(end - start)] + split(
                v@.subrange(end + 1, hi as int),
                sep,
            )) =~= windows(v@, w@) + split(v@.subrange(end + 1, hi as int), sep));
        }
        start = end + 1;
    }
    w
}

/// Whether `c` is one of the ten ASCII decimal digits.
pub open spec fn is_digit(c: char) -> bool {
    '0' <= c && c <= '9'
}

/// The number that the digit `c` stands for.
pub open spec fn digit_value(c: char) -> nat {
    (c as u32 - '0' as u32) as nat
}

/// Whether `s` holds decimal digits only.
pub open spec fn all_digits(s: Seq<char>) -> bool {
    forall|i: int| 0 <= i < s.len() ==> is_digit(#[trigger] s[i])
}

/// The number that a run of decimal digits denotes, most significant digit
/// first. The empty run denotes zero.
pub open spec fn decimal_value(s: Seq<char>) -> nat
    decreases s.len(),
{
    if s.len() == 0 {
        0
    } else {
        decimal_value(s.drop_last()) * 10 + digit_value(s.last())
    }
}

/// Whether `s` is a non-empty run of decimal digits whose value a `usize`
/// can hold.
pub open spec fn is_number(s: Seq<char>) -> bool {
    s.len() > 0 && all_digits(s) && decimal_value(s) <= usize::MAX
}

/// A run of digits denotes at least as much as any of its prefixes.
pub proof fn lemma_decimal_value_grows(s: Seq<char>, k: int)
    requires
        0 <= k <= s.len(),
    ensures
        decimal_value(s.take(k)) <= decimal_value(s),
    decreases s.len(),
{
    if k == s.len() {
        assert(s.take(k) =~= s);
    } else {
        lemma_decimal_value_grows(s.drop_last(), k);
        assert(s.drop_last().take(k) =~= s.take(k));
    }
}

/// Reads the window `[lo, hi)` of `v` as a decimal number. Succeeds exactly
/// when the window is a non-empty run of digits whose value fits a `usize`.
pub(crate) fn parse_number(v: &Vec<char>, lo: usize, hi: usize) -> (r: Option<usize>)
    requires
        lo <= hi <= v.len(),
    ensures
        r == if is_number(v@.subrange(lo as int, hi as int)) {
            Some(decimal_value(v@.subrange(lo as int, hi as int)) as usize)
        } else {
            None
        },
{
    let ghost s = v@.subrange(lo as int, hi as int);
    if lo == hi {
        return None;
    }
    let mut acc: usize = 0;
    let mut i: usize = lo;
    while i < hi
        invariant
            lo <= i <= hi <= v.len(),
            s == v@.subrange(lo as int, hi as int),
            all_digits(s.take(i - lo)),
            acc == decimal_value(s.take(i - lo)),
        decreases hi - i,
    {
        let c = v[i];
        if !('0' <= c && c <= '9') {
            assert(!is_digit(s[i - lo]));
            return None;
        }
        let d = (c as u32 - '0' as u32) as usize;
        proof {
            assert(s.take(i - lo + 1).drop_last() =~= s.take(i - lo));
            assert(s.take(i - lo + 1).last() == c);
            assert(decimal_value(s.take(i - lo + 1)) == acc * 10 + d);
            lemma_decimal_value_grows(s, i - lo + 1);
        }
        if acc > (usize::MAX - d) / 10 {
            assert(acc * 10 + d > usize::MAX) by (nonlinear_arith)
                requires
                    acc > (usize::MAX - d) / 10,
                    d <= usize::MAX,
            ;
            return None;
        }
        assert(acc * 10 + d <= usize::MAX) by (nonlinear_arith)
            requires
                acc <= (usize::MAX - d) / 10,
                d <= usize::MAX,
        ;
        acc = acc * 10 + d;
        i += 1;
    }
    assert(s.take(hi - lo) =~= s);
    Some(acc)
}

/// The character that stands for the digit `d`.
pub open spec fn digit_char(d: nat) -> char {
    if d == 0 {
        '0'
    } else if d == 1 {
        '1'
    } else if d == 2 {
        '2'
    } else if d == 3 {
        '3'
    } else if d == 4 {
        '4'
    } else if d == 5 {
        '5'
    } else if d == 6 {
        '6'
    } else if d == 7 {
        '7'
    } else if d == 8 {
        '8'
    } else {
        '9'
    }
}

/// The decimal representation of `n`, without sign or leading zeros.
pub open spec fn decimal(n: nat) -> Seq<char>
    decreases n,
{
    if n < 10 {
        seq![digit_char(n)]
    } else {
        decimal(n / 10).push(digit_char(n % 10))
    }
}

fn digit_to_char(d: usize) -> (c: char)
    requires
        d < 10,
    ensures
        c == digit_char(d as nat),
{
    if d == 0 {
        '0'
    } else if d == 1 {
        '1'
    } else if d == 2 {
        '2'
    } else if d == 3 {
        '3'
    } else if d == 4 {
        '4'
    } else if d == 5 {
        '5'
    } else if d == 6 {
        '6'
    } else if d == 7 {
        '7'
    } else if d == 8 {
        '8'
    } else {
        '9'
    }
}

/// Appends the decimal representation of `n` to `s`.
pub fn push_decimal(s: &mut String, n: usize)
    ensures
        final(s)@ == old(s)@ + decimal(n as nat),
    decreases n,
{
    if n < 10 {
        s.push(digit_to_char(n));
        assert(s@ =~= old(s)@ + decimal(n as nat));
    } else {
        push_decimal(s, n / 10);
        s.push(digit_to_char(n % 10));
        assert(s@ =~= old(s)@ + decimal(n as nat));
    }
}

/// Writing a number down and reading it back gives the number: the decimal
/// representation of `n` is a non-empty run of digits that denotes `n`.
pub proof fn lemma_decimal_round_trip(n: nat)
    ensures
        decimal(n).len() > 0,
        all_digits(decimal(n)),
        decimal_value(decimal(n)) == n,
    decreases n,
{
    let d = if n < 10 {
        n
    } else {
        n % 10
    };
    assert(is_digit(digit_char(d)) && digit_value(digit_char(d)) == d);
    assert(decimal(n).last() == digit_char(d));
    if n < 10 {
        assert(decimal(n).drop_last() =~= Seq::<char>::empty());
        assert(decimal_value(decimal(n).drop_last()) == 0);
    } else {
        lemma_decimal_round_trip(n / 10);
        assert(decimal(n).drop_last() =~= decimal(n / 10));
    }
}

} // verus!
