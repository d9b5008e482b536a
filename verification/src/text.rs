//! Character-level text handling: decimal numbers, Unicode white space,
//! trimming and splitting, stated over `Seq<char>`.
use vstd::prelude::*;

verus! {

// ---------------------------------------------------------------------------
// conversions between `str`/`String` and character vectors
// ---------------------------------------------------------------------------

/// The characters of `s`, in order.
pub fn chars_of(s: &str) -> (v: Vec<char>)
    ensures
        v@ == s@,
{
    broadcast use vstd::string::axiom_spec_iter, vstd::string::next_postcondition;

    let mut v: Vec<char> = Vec::new();
    let mut it = s.chars();
    loop
        invariant
            v@ + vstd::std_specs::iter::IteratorSpec::remaining(&it) == s@,
            vstd::std_specs::iter::IteratorSpec::decrease(&it) is Some,
        ensures
            v@ == s@,
        decreases vstd::std_specs::iter::IteratorSpec::decrease(&it)->0,
    {
        let ghost before = vstd::std_specs::iter::IteratorSpec::remaining(&it);
        match it.next() {
            Some(c) => {
                v.push(c);
                assert(v@ + vstd::std_specs::iter::IteratorSpec::remaining(&it) =~= s@) by {
                    assert(before =~= seq![c] + vstd::std_specs::iter::IteratorSpec::remaining(&it));
                }
            },
            None => {
                assert(v@ =~= s@);
                break;
            },
        }
    }
    v
}


/// Collects characters into a `String`.
///
/// Trusted: `FromIterator<char>` for `String` (std) appends each character in
/// order, so the string holds exactly the characters of `v`.
#[verifier::external_body]
pub(crate) fn string_from_chars(v: &Vec<char>) -> (s: String)
    ensures
        s@ == v@,
{
    v.iter().collect()
}

// ---------------------------------------------------------------------------
// ASCII digits and decimal values
// ---------------------------------------------------------------------------

/// True for the ASCII digits `'0'..='9'`.
pub open spec fn is_digit(c: char) -> bool {
    '0' <= c && c <= '9'
}

/// Numeric value of an ASCII digit.
pub open spec fn digit_value(c: char) -> int {
    (c as int) - ('0' as int)
}

/// True when every character of `s` is an ASCII digit.
pub open spec fn all_digits(s: Seq<char>) -> bool {
    forall|i: int| 0 <= i < s.len() ==> is_digit(#[trigger] s[i])
}

/// The number that the decimal digits `s` denote (0 for the empty sequence).
pub open spec fn decimal_value(s: Seq<char>) -> nat
    decreases s.len(),
{
    if s.len() == 0 {
        0
    } else {
        (decimal_value(s.drop_last()) * 10 + digit_value(s.last())) as nat
    }
}

/// The digit character for `d` in `0..10`.
pub open spec fn digit_char(d: nat) -> char {
    ((d + ('0' as nat)) as u32) as char
}

/// Decimal representation of `n`, without sign or leading zeros
/// (`"0"` for zero), as `to_string` writes it.
pub open spec fn decimal_chars(n: nat) -> Seq<char>
    decreases n,
{
    if n < 10 {
        seq![digit_char(n)]
    } else {
        decimal_chars(n / 10).push(digit_char(n % 10))
    }
}

/// Checks whether `c` is an ASCII digit.
pub fn char_is_digit(c: char) -> (res: bool)
    ensures
        res == is_digit(c),
{
    '0' <= c && c <= '9'
}

/// Appends the decimal representation of `n` to `out`.
pub fn push_decimal(out: &mut Vec<char>, n: u64)
    ensures
        final(out)@ == old(out)@ + decimal_chars(n as nat),
    decreases n,
{
    if n >= 10 {
        push_decimal(out, n / 10);
    }
    let d = (n % 10) as u8;
    let c = (d + 48) as char;
    proof {
        assert(c == digit_char((n % 10) as nat));
    }
    out.push(c);
    assert(final(out)@ =~= old(out)@ + decimal_chars(n as nat));
}

/// Decimal representation of `n` as a `String` (what `n.to_string()` gives).
pub fn decimal_string(n: u64) -> (s: String)
    ensures
        s@ == decimal_chars(n as nat),
{
    let mut v: Vec<char> = Vec::new();
    push_decimal(&mut v, n);
    assert(v@ =~= decimal_chars(n as nat));
    string_from_chars(&v)
}


/// Decimal representation of a signed number, as `to_string` writes it:
/// a `-` for negatives, then the digits of the magnitude.
pub open spec fn int_chars(n: int) -> Seq<char> {
    if n < 0 {
        seq!['-'] + decimal_chars((-n) as nat)
    } else {
        decimal_chars(n as nat)
    }
}

/// `digit_char` gives an ASCII digit of the right value.
pub proof fn lemma_digit_char(d: nat)
    requires
        d < 10,
    ensures
        is_digit(digit_char(d)),
        digit_value(digit_char(d)) == d,
{
    let c = digit_char(d);
    assert(c as int == d + 48);
}

/// The digits that `decimal_chars` writes read back as the number.
pub proof fn lemma_decimal_chars(n: nat)
    ensures
        decimal_chars(n).len() > 0,
        all_digits(decimal_chars(n)),
        decimal_value(decimal_chars(n)) == n,
    decreases n,
{
    let s = decimal_chars(n);
    lemma_digit_char((n % 10) as nat);
    if n < 10 {
        assert(s.drop_last() =~= Seq::<char>::empty());
        assert(decimal_value(s.drop_last()) == 0);
        assert(digit_value(s.last()) == n);
        assert(decimal_value(s) == decimal_value(s.drop_last()) * 10 + digit_value(s.last()));
    } else {
        lemma_decimal_chars(n / 10);
        assert(s.drop_last() =~= decimal_chars(n / 10));
        assert(digit_value(s.last()) == n % 10);
        assert((n / 10) * 10 + n % 10 == n);
        assert(decimal_value(s) == decimal_value(s.drop_last()) * 10 + digit_value(s.last()));
        assert forall|i: int| 0 <= i < s.len() implies is_digit(#[trigger] s[i]) by {
            if i < s.len() - 1 {
                assert(s[i] == decimal_chars(n / 10)[i]);
            }
        }
    }
}

/// Parsing what `int_chars` writes gives the number back.
pub proof fn lemma_int_chars_parse(n: int)
    requires
        i64::MIN <= n <= i64::MAX,
    ensures
        parse_int(int_chars(n), true, i64::MIN as int, i64::MAX as int) == Some(n),
{
    let s = int_chars(n);
    if n < 0 {
        lemma_decimal_chars((-n) as nat);
        assert(s.drop_first() =~= decimal_chars((-n) as nat));
    } else {
        lemma_decimal_chars(n as nat);
        assert(is_digit(s[0]));
    }
}

/// `n.to_string()` for a signed number.
pub fn int_string(n: i64) -> (s: String)
    ensures
        s@ == int_chars(n as int),
{
    let mut v: Vec<char> = Vec::new();
    if n < 0 {
        v.push('-');
        let m: u64 = (0i128 - n as i128) as u64;
        push_decimal(&mut v, m);
    } else {
        push_decimal(&mut v, n as u64);
    }
    assert(v@ =~= int_chars(n as int));
    string_from_chars(&v)
}

/// Reads the decimal digits `cs[from..]` as an unsigned number.
/// `None` when that part is empty, holds a non-digit, or exceeds `u64::MAX`.
pub fn digits_value_u64(cs: &Vec<char>, from: usize) -> (r: Option<u64>)
    requires
        from <= cs@.len(),
    ensures
        r is Some <==> (from < cs@.len() && all_digits(cs@.skip(from as int)) && decimal_value(
            cs@.skip(from as int),
        ) <= u64::MAX),
        r matches Some(v) ==> v == decimal_value(cs@.skip(from as int)),
{
    if from >= cs.len() {
        return None;
    }
    let mut acc: u64 = 0;
    let mut over = false;
    let mut i = from;
    while i < cs.len()
        invariant
            from <= i <= cs@.len(),
            all_digits(cs@.subrange(from as int, i as int)),
            !over ==> acc == decimal_value(cs@.subrange(from as int, i as int)),
            over ==> decimal_value(cs@.subrange(from as int, i as int)) > u64::MAX,
        decreases cs@.len() - i,
    {
        let c = cs[i];
        if !char_is_digit(c) {
            assert(cs@.skip(from as int)[i - from] == c);
            return None;
        }
        let ghost prev = cs@.subrange(from as int, i as int);
        let ghost next = cs@.subrange(from as int, i + 1);
        assert(next.drop_last() =~= prev);
        assert(next.last() == c);
        let d = (c as u32 - 48) as u64;
        if !over {
            if acc > (u64::MAX - d) / 10 {
                over = true;
            } else {
                acc = acc * 10 + d;
            }
        }
        i = i + 1;
    }
    assert(cs@.subrange(from as int, cs@.len() as int) =~= cs@.skip(from as int));
    if over {
        None
    } else {
        Some(acc)
    }
}

/// What Rust's `FromStr` for a primitive integer gives for `s`: an optional
/// `+` (or `-` when `signed`), then one or more ASCII digits, whose value must
/// lie in `lo..=hi`; anything else (white space included) is an error.
pub open spec fn parse_int(s: Seq<char>, signed: bool, lo: int, hi: int) -> Option<int> {
    if s.len() == 0 {
        None
    } else if (s[0] == '+' || s[0] == '-') && s.len() == 1 {
        None
    } else {
        let neg = signed && s[0] == '-';
        let digits = if s[0] == '+' || neg {
            s.drop_first()
        } else {
            s
        };
        let v = if neg {
            -(decimal_value(digits) as int)
        } else {
            decimal_value(digits) as int
        };
        if all_digits(digits) && lo <= v && v <= hi {
            Some(v)
        } else {
            None
        }
    }
}

/// `s.parse::<i64>()`.
pub fn parse_i64(cs: &Vec<char>) -> (r: Option<i64>)
    ensures
        r matches Some(v) ==> parse_int(cs@, true, i64::MIN as int, i64::MAX as int) == Some(
            v as int,
        ),
        r is None ==> parse_int(cs@, true, i64::MIN as int, i64::MAX as int) is None,
{
    if cs.len() == 0 {
        return None;
    }
    let first = cs[0];
    if (first == '+' || first == '-') && cs.len() == 1 {
        return None;
    }
    let neg = first == '-';
    let from: usize = if first == '+' || neg {
        1
    } else {
        0
    };
    proof {
        if from == 1 {
            assert(cs@.skip(1) =~= cs@.drop_first());
        } else {
            assert(cs@.skip(0) =~= cs@);
        }
    }
    match digits_value_u64(cs, from) {
        None => None,
        Some(m) => {
            if neg {
                if m <= 9223372036854775807u64 {
                    Some(-(m as i64))
                } else if m == 9223372036854775808u64 {
                    Some(i64::MIN)
                } else {
                    None
                }
            } else if m <= 9223372036854775807u64 {
                Some(m as i64)
            } else {
                None
            }
        },
    }
}

/// `s.parse::<u64>()`.
pub fn parse_u64(cs: &Vec<char>) -> (r: Option<u64>)
    ensures
        r matches Some(v) ==> parse_int(cs@, false, 0, u64::MAX as int) == Some(v as int),
        r is None ==> parse_int(cs@, false, 0, u64::MAX as int) is None,
{
    if cs.len() == 0 {
        return None;
    }
    let first = cs[0];
    if (first == '+' || first == '-') && cs.len() == 1 {
        return None;
    }
    let from: usize = if first == '+' {
        1
    } else {
        0
    };
    proof {
        if from == 1 {
            assert(cs@.skip(1) =~= cs@.drop_first());
        } else {
            assert(cs@.skip(0) =~= cs@);
        }
    }
    digits_value_u64(cs, from)
}

/// `s.parse::<u32>()`.
pub fn parse_u32(cs: &Vec<char>) -> (r: Option<u32>)
    ensures
        r matches Some(v) ==> parse_int(cs@, false, 0, u32::MAX as int) == Some(v as int),
        r is None ==> parse_int(cs@, false, 0, u32::MAX as int) is None,
{
    match parse_u64(cs) {
        Some(v) => {
            if v <= 4294967295u64 {
                Some(v as u32)
            } else {
                None
            }
        },
        None => None,
    }
}

// ---------------------------------------------------------------------------
// white space, trimming, searching
// ---------------------------------------------------------------------------

/// The Unicode `White_Space` property, which `char::is_whitespace` tests.
pub open spec fn is_white_space(c: char) -> bool {
    ||| ('\u{9}' <= c && c <= '\u{d}')
    ||| c == ' '
    ||| c == '\u{85}'
    ||| c == '\u{a0}'
    ||| c == '\u{1680}'
    ||| ('\u{2000}' <= c && c <= '\u{200a}')
    ||| c == '\u{2028}'
    ||| c == '\u{2029}'
    ||| c == '\u{202f}'
    ||| c == '\u{205f}'
    ||| c == '\u{3000}'
}

/// `c.is_whitespace()`.
pub fn char_is_white_space(c: char) -> (res: bool)
    ensures
        res == is_white_space(c),
{
    ('\u{9}' <= c && c <= '\u{d}') || c == ' ' || c == '\u{85}' || c == '\u{a0}' || c
        == '\u{1680}' || ('\u{2000}' <= c && c <= '\u{200a}') || c == '\u{2028}' || c
        == '\u{2029}' || c == '\u{202f}' || c == '\u{205f}' || c == '\u{3000}'
}

/// `s` without leading white space.
pub open spec fn trim_start(s: Seq<char>) -> Seq<char>
    decreases s.len(),
{
    if s.len() > 0 && is_white_space(s[0]) {
        trim_start(s.drop_first())
    } else {
        s
    }
}

/// `s` without trailing white space.
pub open spec fn trim_end(s: Seq<char>) -> Seq<char>
    decreases s.len(),
{
    if s.len() > 0 && is_white_space(s.last()) {
        trim_end(s.drop_last())
    } else {
        s
    }
}

/// `str::trim`: `s` without leading and trailing white space.
pub open spec fn trim(s: Seq<char>) -> Seq<char> {
    trim_end(trim_start(s))
}

/// `s.trim()` on characters.
pub fn trim_chars(cs: &Vec<char>) -> (r: Vec<char>)
    ensures
        r@ == trim(cs@),
{
    let mut a: usize = 0;
    assert(cs@.skip(0) =~= cs@);
    while a < cs.len() && char_is_white_space(cs[a])
        invariant
            a <= cs@.len(),
            trim_start(cs@) == trim_start(cs@.skip(a as int)),
        decreases cs@.len() - a,
    {
        assert(cs@.skip(a as int).drop_first() =~= cs@.skip(a + 1));
        a = a + 1;
    }
    let ghost t = cs@.skip(a as int);
    assert(trim_start(cs@) == t);
    let mut b: usize = cs.len();
    while b > a && char_is_white_space(cs[b - 1])
        invariant
            a <= b <= cs@.len(),
            trim_end(t) == trim_end(cs@.subrange(a as int, b as int)),
        decreases b,
    {
        assert(cs@.subrange(a as int, b as int).drop_last() =~= cs@.subrange(a as int, b - 1));
        b = b - 1;
    }
    assert(trim_end(t) == cs@.subrange(a as int, b as int));
    let mut r: Vec<char> = Vec::new();
    let mut i = a;
    while i < b
        invariant
            a <= i <= b <= cs@.len(),
            r@ == cs@.subrange(a as int, i as int),
        decreases b - i,
    {
        r.push(cs[i]);
        i = i + 1;
        assert(r@ =~= cs@.subrange(a as int, i as int));
    }
    r
}

/// Index of the first occurrence of `c` in `s`.
pub open spec fn find_char(s: Seq<char>, c: char) -> Option<int>
    decreases s.len(),
{
    if s.len() == 0 {
        None
    } else if s[0] == c {
        Some(0)
    } else {
        match find_char(s.drop_first(), c) {
            Some(i) => Some(i + 1),
            None => None,
        }
    }
}

/// `find_char` is the first index holding `c`.
pub proof fn lemma_find_char(s: Seq<char>, c: char, i: int)
    requires
        0 <= i <= s.len(),
        forall|j: int| 0 <= j < i ==> s[j] != c,
    ensures
        i < s.len() && s[i] == c ==> find_char(s, c) == Some(i),
        i == s.len() ==> find_char(s, c) is None,
    decreases i,
{
    if i > 0 {
        lemma_find_char(s.drop_first(), c, i - 1);
    }
}

/// `str::split_once` with a character pattern: the parts before and after
/// the first occurrence of `c`.
pub open spec fn split_once(s: Seq<char>, c: char) -> Option<(Seq<char>, Seq<char>)> {
    match find_char(s, c) {
        Some(i) => Some((s.take(i), s.skip(i + 1))),
        None => None,
    }
}

/// `s.split_once(c)` on characters.
pub fn split_once_chars(cs: &Vec<char>, c: char) -> (r: Option<(Vec<char>, Vec<char>)>)
    ensures
        r matches Some(p) ==> split_once(cs@, c) == Some((p.0@, p.1@)),
        r is None ==> split_once(cs@, c) is None,
{
    let mut i: usize = 0;
    while i < cs.len() && cs[i] != c
        invariant
            i <= cs@.len(),
            forall|j: int| 0 <= j < i ==> cs@[j] != c,
        decreases cs@.len() - i,
    {
        i = i + 1;
    }
    proof {
        lemma_find_char(cs@, c, i as int);
    }
    if i == cs.len() {
        return None;
    }
    let mut before: Vec<char> = Vec::new();
    let mut after: Vec<char> = Vec::new();
    let mut k: usize = 0;
    while k < cs.len()
        invariant
            i < cs@.len(),
            k <= cs@.len(),
            before@ == cs@.take(if k <= i { k as int } else { i as int }),
            after@ == (if k <= i + 1 { Seq::<char>::empty() } else { cs@.subrange(i + 1, k as int) }),
        decreases cs@.len() - k,
    {
        if k < i {
            before.push(cs[k]);
        } else if k > i {
            after.push(cs[k]);
        }
        k = k + 1;
        assert(before@ =~= cs@.take(if k <= i { k as int } else { i as int }));
        assert(after@ =~= (if k <= i + 1 { Seq::<char>::empty() } else { cs@.subrange(i + 1, k as int) }));
    }
    assert(cs@.subrange(i + 1, cs@.len() as int) =~= cs@.skip(i + 1));
    Some((before, after))
}


// ---------------------------------------------------------------------------
// lexicographic order
// ---------------------------------------------------------------------------

/// `a` sorts before or equal to `b`, comparing code points left to right,
/// a proper prefix first (the order of UTF-8 byte strings).
pub open spec fn lex_le(a: Seq<char>, b: Seq<char>) -> bool
    decreases a.len(),
{
    if a.len() == 0 {
        true
    } else if b.len() == 0 {
        false
    } else if a[0] != b[0] {
        a[0] < b[0]
    } else {
        lex_le(a.drop_first(), b.drop_first())
    }
}

pub proof fn lemma_lex_total(a: Seq<char>, b: Seq<char>)
    ensures
        lex_le(a, b) || lex_le(b, a),
    decreases a.len(),
{
    if a.len() > 0 && b.len() > 0 && a[0] == b[0] {
        lemma_lex_total(a.drop_first(), b.drop_first());
    }
}

pub proof fn lemma_lex_transitive(a: Seq<char>, b: Seq<char>, c: Seq<char>)
    requires
        lex_le(a, b),
        lex_le(b, c),
    ensures
        lex_le(a, c),
    decreases a.len(),
{
    if a.len() > 0 && b.len() > 0 && c.len() > 0 && a[0] == b[0] && b[0] == c[0] {
        lemma_lex_transitive(a.drop_first(), b.drop_first(), c.drop_first());
    }
}

/// Compares two character sequences with `lex_le`.
pub fn chars_lex_le(a: &Vec<char>, b: &Vec<char>) -> (r: bool)
    ensures
        r == lex_le(a@, b@),
{
    let mut i: usize = 0;
    assert(a@.skip(0) =~= a@);
    assert(b@.skip(0) =~= b@);
    while i < a.len() && i < b.len() && a[i] == b[i]
        invariant
            i <= a@.len(),
            i <= b@.len(),
            lex_le(a@, b@) == lex_le(a@.skip(i as int), b@.skip(i as int)),
        decreases a@.len() - i,
    {
        assert(a@.skip(i as int).drop_first() =~= a@.skip(i + 1));
        assert(b@.skip(i as int).drop_first() =~= b@.skip(i + 1));
        i = i + 1;
    }
    if i == a.len() {
        true
    } else if i == b.len() {
        false
    } else {
        a[i] < b[i]
    }
}


// ---------------------------------------------------------------------------
// lines and words
// ---------------------------------------------------------------------------

/// The first line of `s` as `s.lines().next()` sees it, up to the first
/// `'\n'` (a `'\r'` before it is white space, which words skip anyway).
pub open spec fn first_line(s: Seq<char>) -> Seq<char> {
    match find_char(s, '\n') {
        Some(i) => s.take(i),
        None => s,
    }
}

/// Splits `s` at white space: the words finished so far and the word still
/// open at the end.
pub open spec fn words_acc(s: Seq<char>) -> (Seq<Seq<char>>, Seq<char>)
    decreases s.len(),
{
    if s.len() == 0 {
        (Seq::empty(), Seq::empty())
    } else {
        let (done, cur) = words_acc(s.drop_last());
        if !is_white_space(s.last()) {
            (done, cur.push(s.last()))
        } else if cur.len() > 0 {
            (done.push(cur), Seq::empty())
        } else {
            (done, Seq::empty())
        }
    }
}

/// The words of `s`, as `s.split_whitespace()` yields them.
pub open spec fn words(s: Seq<char>) -> Seq<Seq<char>> {
    let (done, cur) = words_acc(s);
    if cur.len() > 0 {
        done.push(cur)
    } else {
        done
    }
}

/// `s.lines().next()` on characters (for a non-empty `s`).
pub fn first_line_chars(cs: &Vec<char>) -> (r: Vec<char>)
    ensures
        r@ == first_line(cs@),
{
    let mut r: Vec<char> = Vec::new();
    let mut i: usize = 0;
    while i < cs.len() && cs[i] != '\n'
        invariant
            i <= cs@.len(),
            forall|j: int| 0 <= j < i ==> cs@[j] != '\n',
            r@ == cs@.take(i as int),
        decreases cs@.len() - i,
    {
        r.push(cs[i]);
        i = i + 1;
        assert(r@ =~= cs@.take(i as int));
    }
    proof {
        lemma_find_char(cs@, '\n', i as int);
        if i == cs@.len() {
            assert(cs@.take(i as int) =~= cs@);
        }
    }
    r
}

/// `s.split_whitespace()` on characters.
pub fn words_of(cs: &Vec<char>) -> (r: Vec<Vec<char>>)
    ensures
        r@.len() == words(cs@).len(),
        forall|k: int| 0 <= k < r@.len() ==> r@[k]@ == words(cs@)[k],
{
    let mut r: Vec<Vec<char>> = Vec::new();
    let mut cur: Vec<char> = Vec::new();
    let ghost mut done: Seq<Seq<char>> = Seq::empty();
    let mut i: usize = 0;
    assert(cs@.take(0) =~= Seq::<char>::empty());
    while i < cs.len()
        invariant
            i <= cs@.len(),
            words_acc(cs@.take(i as int)) == (done, cur@),
            r@.len() == done.len(),
            forall|k: int| 0 <= k < r@.len() ==> r@[k]@ == done[k],
        decreases cs@.len() - i,
    {
        let c = cs[i];
        assert(cs@.take(i + 1).drop_last() =~= cs@.take(i as int));
        assert(cs@.take(i + 1).last() == c);
        if !char_is_white_space(c) {
            cur.push(c);
        } else {
            if cur.len() > 0 {
                proof {
                    done = done.push(cur@);
                }
                let mut fresh: Vec<char> = Vec::new();
                std::mem::swap(&mut fresh, &mut cur);
                r.push(fresh);
            }
        }
        i = i + 1;
    }
    assert(cs@.take(cs@.len() as int) =~= cs@);
    if cur.len() > 0 {
        proof {
            done = done.push(cur@);
        }
        r.push(cur);
    }
    r
}


// ---------------------------------------------------------------------------
// splitting at a separator, joining with one
// ---------------------------------------------------------------------------

/// Splits `s` at every `sep`: the pieces finished so far and the piece
/// still open at the end.
pub open spec fn pieces_acc(s: Seq<char>, sep: char) -> (Seq<Seq<char>>, Seq<char>)
    decreases s.len(),
{
    if s.len() == 0 {
        (Seq::empty(), Seq::empty())
    } else {
        let (done, cur) = pieces_acc(s.drop_last(), sep);
        if s.last() == sep {
            (done.push(cur), Seq::empty())
        } else {
            (done, cur.push(s.last()))
        }
    }
}

/// The pieces of `s` between occurrences of `sep`, empty ones included, as
/// `s.split(sep)` yields them.
pub open spec fn pieces(s: Seq<char>, sep: char) -> Seq<Seq<char>> {
    let (done, cur) = pieces_acc(s, sep);
    done.push(cur)
}

/// `s.split(sep)` on characters.
pub fn split_chars(cs: &Vec<char>, sep: char) -> (r: Vec<Vec<char>>)
    ensures
        r@.len() == pieces(cs@, sep).len(),
        forall|k: int| 0 <= k < r@.len() ==> r@[k]@ == pieces(cs@, sep)[k],
{
    let mut r: Vec<Vec<char>> = Vec::new();
    let mut cur: Vec<char> = Vec::new();
    let ghost mut done: Seq<Seq<char>> = Seq::empty();
    let mut i: usize = 0;
    assert(cs@.take(0) =~= Seq::<char>::empty());
    while i < cs.len()
        invariant
            i <= cs@.len(),
            pieces_acc(cs@.take(i as int), sep) == (done, cur@),
            r@.len() == done.len(),
            forall|k: int| 0 <= k < r@.len() ==> r@[k]@ == done[k],
        decreases cs@.len() - i,
    {
        let c = cs[i];
        assert(cs@.take(i + 1).drop_last() =~= cs@.take(i as int));
        assert(cs@.take(i + 1).last() == c);
        if c == sep {
            proof {
                done = done.push(cur@);
            }
            let mut fresh: Vec<char> = Vec::new();
            std::mem::swap(&mut fresh, &mut cur);
            r.push(fresh);
        } else {
            cur.push(c);
        }
        i = i + 1;
    }
    assert(cs@.take(cs@.len() as int) =~= cs@);
    r.push(cur);
    r
}

/// `parts.join(sep)`.
pub open spec fn join(parts: Seq<Seq<char>>, sep: Seq<char>) -> Seq<char>
    decreases parts.len(),
{
    if parts.len() == 0 {
        Seq::empty()
    } else if parts.len() == 1 {
        parts[0]
    } else {
        join(parts.drop_last(), sep) + sep + parts.last()
    }
}

/// Joins character vectors with `sep` between them.
pub fn join_chars(parts: &Vec<Vec<char>>, sep: &Vec<char>) -> (r: Vec<char>)
    ensures
        r@ == join(parts@.map_values(|p: Vec<char>| p@), sep@),
{
    let ghost ps = parts@.map_values(|p: Vec<char>| p@);
    let mut r: Vec<char> = Vec::new();
    let mut i: usize = 0;
    assert(ps.take(0) =~= Seq::<Seq<char>>::empty());
    while i < parts.len()
        invariant
            i <= parts@.len(),
            ps == parts@.map_values(|p: Vec<char>| p@),
            r@ == join(ps.take(i as int), sep@),
        decreases parts@.len() - i,
    {
        assert(ps.take(i + 1).drop_last() =~= ps.take(i as int));
        if i > 0 {
            let mut s = sep.clone();
            r.append(&mut s);
        }
        let mut p = parts[i].clone();
        r.append(&mut p);
        i = i + 1;
        assert(ps.take(i as int).last() == parts@[i - 1]@);
        if i == 1 {
            assert(r@ =~= join(ps.take(i as int), sep@));
        } else {
            assert(r@ =~= join(ps.take(i as int), sep@));
        }
    }
    assert(ps.take(parts@.len() as int) =~= ps);
    r
}

} // verus!
