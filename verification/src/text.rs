//! Text primitives: characters, decimal numbers, words and separators.

use vstd::prelude::*;
use vstd::string::*;

verus! {

/// The Unicode `White_Space` property, which `str::split_whitespace` splits on.
pub open spec fn is_white_space(c: char) -> bool {
    let u = c as u32;
    ||| 0x09 <= u <= 0x0D
    ||| u == 0x20
    ||| u == 0x85
    ||| u == 0xA0
    ||| u == 0x1680
    ||| 0x2000 <= u <= 0x200A
    ||| u == 0x2028
    ||| u == 0x2029
    ||| u == 0x202F
    ||| u == 0x205F
    ||| u == 0x3000
}

/// Whether `c` is white space.
pub fn white_space(c: char) -> (b: bool)
    ensures
        b == is_white_space(c),
{
    let u = c as u32;
    (0x09 <= u && u <= 0x0D) || u == 0x20 || u == 0x85 || u == 0xA0 || u == 0x1680 || (0x2000
        <= u && u <= 0x200A) || u == 0x2028 || u == 0x2029 || u == 0x202F || u == 0x205F || u
        == 0x3000
}

/// An ASCII decimal digit.
pub open spec fn is_digit(c: char) -> bool {
    48 <= c as u32 <= 57
}

/// The value of an ASCII decimal digit.
pub open spec fn digit_value(c: char) -> nat {
    (c as u32 - 48) as nat
}

/// The ASCII digit of `d`, for `d < 10`.
pub open spec fn digit_char(d: nat) -> char {
    ((d + 48) as u32) as char
}

/// Every character of `s` is an ASCII decimal digit.
pub open spec fn all_digits(s: Seq<char>) -> bool {
    forall|i: int| 0 <= i < s.len() ==> is_digit(#[trigger] s[i])
}

/// A Unicode decimal digit (general category `Nd`, Unicode 16): the characters
/// that a `\d` of a Unicode regular expression matches.
pub open spec fn is_decimal_digit(c: char) -> bool {
    let u = c as u32;
    ||| 0x30 <= u <= 0x39
    ||| 0x660 <= u <= 0x669
    ||| 0x6f0 <= u <= 0x6f9
    ||| 0x7c0 <= u <= 0x7c9
    ||| 0x966 <= u <= 0x96f
    ||| 0x9e6 <= u <= 0x9ef
    ||| 0xa66 <= u <= 0xa6f
    ||| 0xae6 <= u <= 0xaef
    ||| 0xb66 <= u <= 0xb6f
    ||| 0xbe6 <= u <= 0xbef
    ||| 0xc66 <= u <= 0xc6f
    ||| 0xce6 <= u <= 0xcef
    ||| 0xd66 <= u <= 0xd6f
    ||| 0xde6 <= u <= 0xdef
    ||| 0xe50 <= u <= 0xe59
    ||| 0xed0 <= u <= 0xed9
    ||| 0xf20 <= u <= 0xf29
    ||| 0x1040 <= u <= 0x1049
    ||| 0x1090 <= u <= 0x1099
    ||| 0x17e0 <= u <= 0x17e9
    ||| 0x1810 <= u <= 0x1819
    ||| 0x1946 <= u <= 0x194f
    ||| 0x19d0 <= u <= 0x19d9
    ||| 0x1a80 <= u <= 0x1a89
    ||| 0x1a90 <= u <= 0x1a99
    ||| 0x1b50 <= u <= 0x1b59
    ||| 0x1bb0 <= u <= 0x1bb9
    ||| 0x1c40 <= u <= 0x1c49
    ||| 0x1c50 <= u <= 0x1c59
    ||| 0xa620 <= u <= 0xa629
    ||| 0xa8d0 <= u <= 0xa8d9
    ||| 0xa900 <= u <= 0xa909
    ||| 0xa9d0 <= u <= 0xa9d9
    ||| 0xa9f0 <= u <= 0xa9f9
    ||| 0xaa50 <= u <= 0xaa59
    ||| 0xabf0 <= u <= 0xabf9
    ||| 0xff10 <= u <= 0xff19
    ||| 0x104a0 <= u <= 0x104a9
    ||| 0x10d30 <= u <= 0x10d39
    ||| 0x10d40 <= u <= 0x10d49
    ||| 0x11066 <= u <= 0x1106f
    ||| 0x110f0 <= u <= 0x110f9
    ||| 0x11136 <= u <= 0x1113f
    ||| 0x111d0 <= u <= 0x111d9
    ||| 0x112f0 <= u <= 0x112f9
    ||| 0x11450 <= u <= 0x11459
    ||| 0x114d0 <= u <= 0x114d9
    ||| 0x11650 <= u <= 0x11659
    ||| 0x116c0 <= u <= 0x116c9
    ||| 0x116d0 <= u <= 0x116e3
    ||| 0x11730 <= u <= 0x11739
    ||| 0x118e0 <= u <= 0x118e9
    ||| 0x11950 <= u <= 0x11959
    ||| 0x11bf0 <= u <= 0x11bf9
    ||| 0x11c50 <= u <= 0x11c59
    ||| 0x11d50 <= u <= 0x11d59
    ||| 0x11da0 <= u <= 0x11da9
    ||| 0x11f50 <= u <= 0x11f59
    ||| 0x16130 <= u <= 0x16139
    ||| 0x16a60 <= u <= 0x16a69
    ||| 0x16ac0 <= u <= 0x16ac9
    ||| 0x16b50 <= u <= 0x16b59
    ||| 0x16d70 <= u <= 0x16d79
    ||| 0x1ccf0 <= u <= 0x1ccf9
    ||| 0x1d7ce <= u <= 0x1d7ff
    ||| 0x1e140 <= u <= 0x1e149
    ||| 0x1e2f0 <= u <= 0x1e2f9
    ||| 0x1e4f0 <= u <= 0x1e4f9
    ||| 0x1e5f1 <= u <= 0x1e5fa
    ||| 0x1e950 <= u <= 0x1e959
    ||| 0x1fbf0 <= u <= 0x1fbf9
}

/// Every character is a Unicode decimal digit.
pub open spec fn all_decimal_digits(s: Seq<char>) -> bool {
    forall|i: int| 0 <= i < s.len() ==> is_decimal_digit(#[trigger] s[i])
}

/// Whether a character is a Unicode decimal digit.
pub fn decimal_digit(c: char) -> (b: bool)
    ensures
        b == is_decimal_digit(c),
{
    let u = c as u32;
    (0x30 <= u && u <= 0x39) ||
        (0x660 <= u && u <= 0x669) ||
        (0x6f0 <= u && u <= 0x6f9) ||
        (0x7c0 <= u && u <= 0x7c9) ||
        (0x966 <= u && u <= 0x96f) ||
        (0x9e6 <= u && u <= 0x9ef) ||
        (0xa66 <= u && u <= 0xa6f) ||
        (0xae6 <= u && u <= 0xaef) ||
        (0xb66 <= u && u <= 0xb6f) ||
        (0xbe6 <= u && u <= 0xbef) ||
        (0xc66 <= u && u <= 0xc6f) ||
        (0xce6 <= u && u <= 0xcef) ||
        (0xd66 <= u && u <= 0xd6f) ||
        (0xde6 <= u && u <= 0xdef) ||
        (0xe50 <= u && u <= 0xe59) ||
        (0xed0 <= u && u <= 0xed9) ||
        (0xf20 <= u && u <= 0xf29) ||
        (0x1040 <= u && u <= 0x1049) ||
        (0x1090 <= u && u <= 0x1099) ||
        (0x17e0 <= u && u <= 0x17e9) ||
        (0x1810 <= u && u <= 0x1819) ||
        (0x1946 <= u && u <= 0x194f) ||
        (0x19d0 <= u && u <= 0x19d9) ||
        (0x1a80 <= u && u <= 0x1a89) ||
        (0x1a90 <= u && u <= 0x1a99) ||
        (0x1b50 <= u && u <= 0x1b59) ||
        (0x1bb0 <= u && u <= 0x1bb9) ||
        (0x1c40 <= u && u <= 0x1c49) ||
        (0x1c50 <= u && u <= 0x1c59) ||
        (0xa620 <= u && u <= 0xa629) ||
        (0xa8d0 <= u && u <= 0xa8d9) ||
        (0xa900 <= u && u <= 0xa909) ||
        (0xa9d0 <= u && u <= 0xa9d9) ||
        (0xa9f0 <= u && u <= 0xa9f9) ||
        (0xaa50 <= u && u <= 0xaa59) ||
        (0xabf0 <= u && u <= 0xabf9) ||
        (0xff10 <= u && u <= 0xff19) ||
        (0x104a0 <= u && u <= 0x104a9) ||
        (0x10d30 <= u && u <= 0x10d39) ||
        (0x10d40 <= u && u <= 0x10d49) ||
        (0x11066 <= u && u <= 0x1106f) ||
        (0x110f0 <= u && u <= 0x110f9) ||
        (0x11136 <= u && u <= 0x1113f) ||
        (0x111d0 <= u && u <= 0x111d9) ||
        (0x112f0 <= u && u <= 0x112f9) ||
        (0x11450 <= u && u <= 0x11459) ||
        (0x114d0 <= u && u <= 0x114d9) ||
        (0x11650 <= u && u <= 0x11659) ||
        (0x116c0 <= u && u <= 0x116c9) ||
        (0x116d0 <= u && u <= 0x116e3) ||
        (0x11730 <= u && u <= 0x11739) ||
        (0x118e0 <= u && u <= 0x118e9) ||
        (0x11950 <= u && u <= 0x11959) ||
        (0x11bf0 <= u && u <= 0x11bf9) ||
        (0x11c50 <= u && u <= 0x11c59) ||
        (0x11d50 <= u && u <= 0x11d59) ||
        (0x11da0 <= u && u <= 0x11da9) ||
        (0x11f50 <= u && u <= 0x11f59) ||
        (0x16130 <= u && u <= 0x16139) ||
        (0x16a60 <= u && u <= 0x16a69) ||
        (0x16ac0 <= u && u <= 0x16ac9) ||
        (0x16b50 <= u && u <= 0x16b59) ||
        (0x16d70 <= u && u <= 0x16d79) ||
        (0x1ccf0 <= u && u <= 0x1ccf9) ||
        (0x1d7ce <= u && u <= 0x1d7ff) ||
        (0x1e140 <= u && u <= 0x1e149) ||
        (0x1e2f0 <= u && u <= 0x1e2f9) ||
        (0x1e4f0 <= u && u <= 0x1e4f9) ||
        (0x1e5f1 <= u && u <= 0x1e5fa) ||
        (0x1e950 <= u && u <= 0x1e959) ||
        (0x1fbf0 <= u && u <= 0x1fbf9)
}

/// The number that a string of decimal digits denotes.
pub open spec fn decimal_value(s: Seq<char>) -> nat
    decreases s.len(),
{
    if s.len() == 0 {
        0
    } else {
        decimal_value(s.drop_last()) * 10 + digit_value(s.last())
    }
}

/// The shortest decimal text of `n`.
pub open spec fn nat_text(n: nat) -> Seq<char>
    decreases n,
{
    if n < 10 {
        seq![digit_char(n)]
    } else {
        nat_text(n / 10).push(digit_char(n % 10))
    }
}

/// The decimal text of `n`, with a leading `-` when it is negative (as `Display` prints it).
pub open spec fn int_text(n: int) -> Seq<char> {
    if n < 0 {
        seq!['-'] + nat_text((-n) as nat)
    } else {
        nat_text(n as nat)
    }
}

/// Appends a character to a string.
/// Calls `String::push`, which std documents as appending the given char
/// to the end of the string; the contract says exactly that.
#[verifier::external_body]
pub(crate) fn push_char(s: &mut String, c: char)
    ensures
        final(s)@ == old(s)@.push(c),
{
    s.push(c)
}

fn digit_of(d: u64) -> (c: char)
    requires
        d < 10,
    ensures
        c == digit_char(d as nat),
        is_digit(c),
        digit_value(c) == d,
{
    let b: u8 = d as u8 + 48;
    b as char
}

/// The decimal text of `n`.
pub fn nat_to_text(n: u64) -> (s: String)
    ensures
        s@ == nat_text(n as nat),
    decreases n,
{
    if n < 10 {
        let mut s = String::new();
        push_char(&mut s, digit_of(n));
        s
    } else {
        let mut s = nat_to_text(n / 10);
        push_char(&mut s, digit_of(n % 10));
        s
    }
}

/// The decimal text of `n`, as `Display` writes an `i32`.
pub fn i32_to_text(n: i32) -> (s: String)
    ensures
        s@ == int_text(n as int),
{
    if n < 0 {
        let m: i64 = n as i64;
        let a: u64 = (-m) as u64;
        let mut s = String::new();
        push_char(&mut s, '-');
        let digits = nat_to_text(a);
        s.append(digits.as_str());
        s
    } else {
        nat_to_text(n as u64)
    }
}


/// The digit of `d` is a digit and is worth `d`.
pub proof fn lemma_digit_char_value(d: nat)
    requires
        d < 10,
    ensures
        is_digit(digit_char(d)),
        digit_value(digit_char(d)) == d,
{
    let u: u32 = (d + 48) as u32;
    assert(u as char as u32 == u);
}

/// `nat_text(n)` is made of digits and reads back as `n`.
pub proof fn lemma_nat_text_reads_back(n: nat)
    ensures
        nat_text(n).len() > 0,
        all_digits(nat_text(n)),
        decimal_value(nat_text(n)) == n,
    decreases n,
{
    lemma_digit_char_value(n % 10);
    if n < 10 {
        lemma_digit_char_value(n);
        let t = nat_text(n);
        assert(t.drop_last() =~= Seq::<char>::empty());
        assert(decimal_value(t.drop_last()) == 0);
        assert(t.last() == digit_char(n));
    } else {
        lemma_nat_text_reads_back(n / 10);
        let t = nat_text(n);
        assert(t.drop_last() =~= nat_text(n / 10));
        assert(t.last() == digit_char(n % 10));
        assert((n / 10) * 10 + n % 10 == n) by (nonlinear_arith);
        assert(decimal_value(t) == decimal_value(nat_text(n / 10)) * 10 + digit_value(t.last()));
        assert forall|i: int| 0 <= i < t.len() implies is_digit(#[trigger] t[i]) by {
            if i < t.len() - 1 {
                assert(t[i] == nat_text(n / 10)[i]);
            }
        }
    }
}

/// A longer digit string denotes at least as much as any of its prefixes.
pub proof fn lemma_decimal_value_prefix(s: Seq<char>, k: int)
    requires
        0 <= k <= s.len(),
    ensures
        decimal_value(s.take(k)) <= decimal_value(s),
    decreases s.len(),
{
    if k < s.len() {
        lemma_decimal_value_prefix(s.drop_last(), k);
        assert(s.drop_last().take(k) =~= s.take(k));
    } else {
        assert(s.take(k) =~= s);
    }
}

/// The characters of `s`, in order.
pub fn chars_of(s: &str) -> (cs: Vec<char>)
    ensures
        cs@ == s@,
{
    let n = s.unicode_len();
    let mut cs: Vec<char> = Vec::new();
    let mut i: usize = 0;
    while i < n
        invariant
            n == s@.len(),
            i <= n,
            cs@ == s@.take(i as int),
        decreases n - i,
    {
        let c = s.get_char(i);
        cs.push(c);
        i = i + 1;
        assert(cs@ =~= s@.take(i as int));
    }
    assert(cs@ =~= s@);
    cs
}

/// The text of `cs[start..end]` as a string.
pub fn string_of(cs: &Vec<char>, start: usize, end: usize) -> (s: String)
    requires
        start <= end <= cs@.len(),
    ensures
        s@ == cs@.subrange(start as int, end as int),
{
    let mut s = String::new();
    let mut i = start;
    while i < end
        invariant
            start <= i <= end <= cs@.len(),
            s@ == cs@.subrange(start as int, i as int),
        decreases end - i,
    {
        push_char(&mut s, cs[i]);
        i = i + 1;
        assert(s@ =~= cs@.subrange(start as int, i as int));
    }
    s
}

/// The value of the digits `cs[start..end]` when they are all digits and
/// denote at most `limit`.
pub fn digits_value(cs: &Vec<char>, start: usize, end: usize, limit: u64) -> (r: Option<u64>)
    requires
        start <= end <= cs@.len(),
    ensures
        ({
            let sub = cs@.subrange(start as int, end as int);
            match r {
                Some(v) => all_digits(sub) && decimal_value(sub) == v && v <= limit,
                None => !all_digits(sub) || decimal_value(sub) > limit,
            }
        }),
{
    let ghost sub = cs@.subrange(start as int, end as int);
    let mut acc: u64 = 0;
    let mut i = start;
    assert(cs@.subrange(start as int, start as int) =~= Seq::<char>::empty());
    while i < end
        invariant
            start <= i <= end <= cs@.len(),
            sub == cs@.subrange(start as int, end as int),
            all_digits(cs@.subrange(start as int, i as int)),
            acc as nat == decimal_value(cs@.subrange(start as int, i as int)),
            acc <= limit,
        decreases end - i,
    {
        let c = cs[i];
        let u = c as u32;
        if u < 48 || u > 57 {
            assert(sub[i - start] == c);
            return None;
        }
        let d: u64 = (u - 48) as u64;
        let ghost next = cs@.subrange(start as int, i + 1);
        assert(next.drop_last() =~= cs@.subrange(start as int, i as int));
        if d > limit || acc > (limit - d) / 10 {
            assert(acc * 10 + d > limit) by (nonlinear_arith)
                requires
                    d > limit || acc > (limit - d) / 10,
                    d <= 9,
            ;
            proof {
                assert(sub.take(i + 1 - start) =~= next);
                lemma_decimal_value_prefix(sub, i + 1 - start);
            }
            return None;
        }
        assert(acc * 10 + d <= limit) by (nonlinear_arith)
            requires
                d <= limit,
                acc <= (limit - d) / 10,
        ;
        acc = acc * 10 + d;
        i = i + 1;
        assert forall|j: int| 0 <= j < next.len() implies is_digit(#[trigger] next[j]) by {
            if j < next.len() - 1 {
                assert(next[j] == cs@.subrange(start as int, (i - 1) as int)[j]);
            }
        }
    }
    Some(acc)
}

/// The optionally `+`-signed decimal number that `s` spells, as `u64::from_str`
/// and `usize::from_str` read it (before the range check).
pub open spec fn unsigned_decimal(s: Seq<char>) -> Option<nat> {
    let body = if s.len() > 0 && s[0] == '+' {
        s.skip(1)
    } else {
        s
    };
    if body.len() > 0 && all_digits(body) {
        Some(decimal_value(body))
    } else {
        None
    }
}

/// The optionally signed decimal number that `s` spells, as `i32::from_str`
/// reads it (before the range check).
pub open spec fn signed_decimal(s: Seq<char>) -> Option<int> {
    if s.len() > 0 && s[0] == '-' {
        let body = s.skip(1);
        if body.len() > 0 && all_digits(body) {
            Some(-(decimal_value(body) as int))
        } else {
            None
        }
    } else {
        match unsigned_decimal(s) {
            Some(v) => Some(v as int),
            None => None,
        }
    }
}

/// What `s.parse::<i32>()` gives, `None` standing for its error.
pub open spec fn i32_value(s: Seq<char>) -> Option<i32> {
    match signed_decimal(s) {
        Some(v) => if i32::MIN <= v <= i32::MAX {
            Some(v as i32)
        } else {
            None
        },
        None => None,
    }
}

/// What `s.parse::<usize>()` gives, `None` standing for its error.
pub open spec fn usize_value(s: Seq<char>) -> Option<usize> {
    match unsigned_decimal(s) {
        Some(v) => if v <= usize::MAX {
            Some(v as usize)
        } else {
            None
        },
        None => None,
    }
}

/// Reads `s` as an `i32` the way `str::parse::<i32>` does.
pub fn parse_i32(s: &str) -> (r: Option<i32>)
    ensures
        r == i32_value(s@),
{
    let cs = chars_of(s);
    let n = cs.len();
    if n > 0 && cs[0] == '-' {
        assert(cs@.subrange(1, n as int) =~= s@.skip(1));
        if n == 1 {
            return None;
        }
        match digits_value(&cs, 1, n, 2147483648u64) {
            Some(v) => {
                let m: i64 = -(v as i64);
                Some(m as i32)
            },
            None => None,
        }
    } else {
        let start: usize = if n > 0 && cs[0] == '+' { 1 } else { 0 };
        assert(cs@.subrange(start as int, n as int) =~= (if s@.len() > 0 && s@[0] == '+' {
            s@.skip(1)
        } else {
            s@
        }));
        if start == n {
            return None;
        }
        match digits_value(&cs, start, n, 2147483647u64) {
            Some(v) => Some(v as i32),
            None => None,
        }
    }
}

/// Reads `s` as a `usize` the way `str::parse::<usize>` does.
pub fn parse_usize(s: &str) -> (r: Option<usize>)
    ensures
        r == usize_value(s@),
{
    let cs = chars_of(s);
    let n = cs.len();
    let start: usize = if n > 0 && cs[0] == '+' { 1 } else { 0 };
    assert(cs@.subrange(start as int, n as int) =~= (if s@.len() > 0 && s@[0] == '+' {
        s@.skip(1)
    } else {
        s@
    }));
    if start == n {
        return None;
    }
    match digits_value(&cs, start, n, usize::MAX as u64) {
        Some(v) => Some(v as usize),
        None => None,
    }
}


/// What `Display` writes of an `i32` reads back, by `str::parse::<i32>`, as that `i32`.
pub proof fn lemma_int_text_reads_back(n: i32)
    ensures
        i32_value(int_text(n as int)) == Some(n),
{
    if n < 0 {
        let m: nat = (-n) as nat;
        lemma_nat_text_reads_back(m);
        let t = int_text(n as int);
        assert(t.skip(1) =~= nat_text(m));
        assert(t[0] == '-');
    } else {
        let m: nat = n as nat;
        lemma_nat_text_reads_back(m);
        let t = int_text(n as int);
        assert(t[0] != '-' && t[0] != '+') by {
            assert(is_digit(t[0]));
        }
    }
}

/// The words of `s`: its maximal runs of characters that are not white space,
/// in order, as `str::split_whitespace` yields them.
pub open spec fn words(s: Seq<char>) -> Seq<Seq<char>>
    decreases s.len(),
{
    if s.len() == 0 {
        Seq::empty()
    } else {
        let before = words(s.drop_last());
        let c = s.last();
        if is_white_space(c) {
            before
        } else if s.len() >= 2 && !is_white_space(s[s.len() - 2]) {
            before.update(before.len() - 1, before.last().push(c))
        } else {
            before.push(seq![c])
        }
    }
}

/// The pieces of `s` between occurrences of `sep`, in order, as `str::split`
/// yields them for a one-character pattern (there is always at least one).
pub open spec fn pieces(s: Seq<char>, sep: char) -> Seq<Seq<char>>
    decreases s.len(),
{
    if s.len() == 0 {
        seq![Seq::empty()]
    } else {
        let before = pieces(s.drop_last(), sep);
        let c = s.last();
        if c == sep {
            before.push(Seq::empty())
        } else {
            before.update(before.len() - 1, before.last().push(c))
        }
    }
}

/// The texts of `parts` with `sep` between consecutive ones, as `[T]::join` makes it.
pub open spec fn joined(parts: Seq<Seq<char>>, sep: Seq<char>) -> Seq<char>
    decreases parts.len(),
{
    if parts.len() == 0 {
        Seq::empty()
    } else if parts.len() == 1 {
        parts[0]
    } else {
        joined(parts.drop_last(), sep) + sep + parts.last()
    }
}

/// Splitting at a separator loses nothing: no piece holds the separator, and
/// joining the pieces with it gives back the text.
pub proof fn lemma_pieces_join_back(s: Seq<char>, sep: char)
    ensures
        pieces(s, sep).len() >= 1,
        forall|i: int| 0 <= i < pieces(s, sep).len() ==> !(#[trigger] pieces(s, sep)[i]).contains(sep),
        joined(pieces(s, sep), seq![sep]) == s,
    decreases s.len(),
{
    if s.len() > 0 {
        let t = s.drop_last();
        lemma_pieces_join_back(t, sep);
        let before = pieces(t, sep);
        let c = s.last();
        let now = pieces(s, sep);
        if c == sep {
            assert(now.drop_last() =~= before);
            assert forall|i: int| 0 <= i < now.len() implies !(#[trigger] now[i]).contains(sep) by {
                if i < now.len() - 1 {
                    assert(now[i] == before[i]);
                } else {
                    assert(now[i] =~= Seq::<char>::empty());
                }
            }
            assert(joined(now, seq![sep]) =~= joined(before, seq![sep]) + seq![sep] + Seq::<char>::empty());
            assert(s =~= t + seq![sep]);
        } else {
            let last = before.last();
            assert forall|i: int| 0 <= i < now.len() implies !(#[trigger] now[i]).contains(sep) by {
                if i < now.len() - 1 {
                    assert(now[i] == before[i]);
                } else {
                    assert(now[i] == last.push(c));
                    assert(!before[before.len() - 1].contains(sep));
                    if now[i].contains(sep) {
                        let j = choose|j: int| 0 <= j < now[i].len() && now[i][j] == sep;
                        if j < last.len() {
                            assert(last[j] == sep);
                        }
                    }
                }
            }
            lemma_joined_update_last(before, seq![sep], c);
            assert(s =~= t.push(c));
        }
    }
}

/// Appending a character to the last part appends it to the joined text.
proof fn lemma_joined_update_last(parts: Seq<Seq<char>>, sep: Seq<char>, c: char)
    requires
        parts.len() >= 1,
    ensures
        joined(parts.update(parts.len() - 1, parts.last().push(c)), sep) == joined(parts, sep).push(c),
{
    let now = parts.update(parts.len() - 1, parts.last().push(c));
    if parts.len() == 1 {
        assert(now[0] == parts[0].push(c));
    } else {
        assert(now.drop_last() =~= parts.drop_last());
        assert(joined(now, sep) =~= joined(parts, sep).push(c));
    }
}

/// Every word is a non-empty run of characters that are not white space.
pub proof fn lemma_words_are_words(s: Seq<char>)
    ensures
        forall|i: int| 0 <= i < words(s).len() ==> (#[trigger] words(s)[i]).len() > 0
            && forall|j: int| 0 <= j < words(s)[i].len() ==> !is_white_space(#[trigger] words(s)[i][j]),
    decreases s.len(),
{
    if s.len() > 0 {
        let t = s.drop_last();
        lemma_words_are_words(t);
        lemma_words_nonempty(t);
        let before = words(t);
        let now = words(s);
        let c = s.last();
        assert forall|i: int| 0 <= i < now.len() implies (#[trigger] now[i]).len() > 0
            && forall|j: int| 0 <= j < now[i].len() ==> !is_white_space(#[trigger] now[i][j]) by {
            if is_white_space(c) {
            } else if s.len() >= 2 && !is_white_space(s[s.len() - 2]) {
                assert(t.last() == s[s.len() - 2]);
                if i == now.len() - 1 {
                    assert(now[i] == before.last().push(c));
                    assert forall|j: int| 0 <= j < now[i].len() implies !is_white_space(#[trigger] now[i][j]) by {
                        if j < now[i].len() - 1 {
                            assert(now[i][j] == before[before.len() - 1][j]);
                        }
                    }
                } else {
                    assert(now[i] == before[i]);
                }
            } else {
                if i == now.len() - 1 {
                    assert(now[i] == seq![c]);
                } else {
                    assert(now[i] == before[i]);
                }
            }
        }
    }
}

/// The views of a vector of strings.
pub open spec fn texts(v: Seq<String>) -> Seq<Seq<char>> {
    v.map_values(|s: String| s@)
}

proof fn lemma_pieces_nonempty(s: Seq<char>, sep: char)
    ensures
        pieces(s, sep).len() >= 1,
    decreases s.len(),
{
    if s.len() > 0 {
        lemma_pieces_nonempty(s.drop_last(), sep);
    }
}

proof fn lemma_words_nonempty(s: Seq<char>)
    ensures
        s.len() > 0 && !is_white_space(s.last()) ==> words(s).len() >= 1,
    decreases s.len(),
{
    if s.len() > 0 {
        lemma_words_nonempty(s.drop_last());
    }
}

/// The words of `line`, as `split_whitespace` gives them.
pub fn split_words(line: &str) -> (ws: Vec<String>)
    ensures
        texts(ws@) == words(line@),
{
    let cs = chars_of(line);
    let n = cs.len();
    let mut ws: Vec<String> = Vec::new();
    let mut cur = String::new();
    let mut in_word = false;
    let mut i: usize = 0;
    while i < n
        invariant
            cs@ == line@,
            n == cs@.len(),
            i <= n,
            in_word == (cur@.len() > 0),
            cur@.len() > 0 <==> (i > 0 && !is_white_space(cs@[i - 1])),
            texts(ws@) + (if cur@.len() > 0 {
                seq![cur@]
            } else {
                Seq::empty()
            }) == words(cs@.take(i as int)),
        decreases n - i,
    {
        let c = cs[i];
        let ghost prefix = cs@.take(i as int);
        let ghost next = cs@.take(i + 1);
        assert(next.drop_last() =~= prefix);
        assert(next.last() == c);
        proof {
            lemma_words_nonempty(prefix);
        }
        if white_space(c) {
            if in_word {
                let done = cur;
                cur = String::new();
                in_word = false;
                ws.push(done);
                assert(texts(ws@) =~= texts(ws@.drop_last()).push(done@));
            }
            assert(texts(ws@) + Seq::<Seq<char>>::empty() =~= texts(ws@));
        } else {
            let had = in_word;
            let ghost old_ws = texts(ws@);
            assert(!had ==> cur@ =~= Seq::<char>::empty());
            push_char(&mut cur, c);
            in_word = true;
            if had {
                assert(prefix[prefix.len() - 1] == cs@[i - 1]);
                assert(next[next.len() - 2] == cs@[i - 1]);
                assert(old_ws + seq![cur@] =~= words(prefix).update(
                    words(prefix).len() - 1,
                    words(prefix).last().push(c),
                ));
            } else {
                assert(old_ws + Seq::<Seq<char>>::empty() =~= old_ws);
                if i > 0 {
                    assert(next[next.len() - 2] == cs@[i - 1]);
                }
                assert(old_ws + seq![cur@] =~= words(prefix).push(seq![c]));
            }
        }
        i = i + 1;
    }
    assert(cs@.take(n as int) =~= cs@);
    if in_word {
        let ghost old_ws = texts(ws@);
        ws.push(cur);
        assert(texts(ws@) =~= old_ws.push(texts(ws@).last()));
        assert(texts(ws@) =~= old_ws + seq![texts(ws@).last()]);
    } else {
        assert(texts(ws@) + Seq::<Seq<char>>::empty() =~= texts(ws@));
    }
    ws
}

/// The pieces of `s` between occurrences of `sep`, as `s.split(sep)` gives them.
pub fn split_pieces(s: &str, sep: char) -> (ps: Vec<String>)
    ensures
        texts(ps@) == pieces(s@, sep),
{
    let cs = chars_of(s);
    let n = cs.len();
    let mut ps: Vec<String> = Vec::new();
    let mut cur = String::new();
    let mut i: usize = 0;
    assert(cs@.take(0) =~= Seq::<char>::empty());
    assert(texts(ps@).push(cur@) =~= pieces(Seq::<char>::empty(), sep));
    while i < n
        invariant
            cs@ == s@,
            n == cs@.len(),
            i <= n,
            texts(ps@).push(cur@) == pieces(cs@.take(i as int), sep),
        decreases n - i,
    {
        let c = cs[i];
        let ghost prefix = cs@.take(i as int);
        let ghost next = cs@.take(i + 1);
        assert(next.drop_last() =~= prefix);
        assert(next.last() == c);
        let ghost old_ps = texts(ps@);
        if c == sep {
            let done = cur;
            cur = String::new();
            ps.push(done);
            assert(texts(ps@) =~= old_ps.push(done@));
        } else {
            push_char(&mut cur, c);
            assert(old_ps.push(cur@) =~= pieces(prefix, sep).update(
                pieces(prefix, sep).len() - 1,
                pieces(prefix, sep).last().push(c),
            ));
        }
        i = i + 1;
    }
    assert(cs@.take(n as int) =~= cs@);
    let ghost old_ps = texts(ps@);
    ps.push(cur);
    assert(texts(ps@) =~= old_ps.push(texts(ps@).last()));
    ps
}

/// `parts[from..]` joined with `sep` between consecutive ones.
pub fn join_from(parts: &Vec<String>, from: usize, sep: &str) -> (r: String)
    requires
        from <= parts@.len(),
    ensures
        r@ == joined(texts(parts@).skip(from as int), sep@),
{
    let n = parts.len();
    let mut r = String::new();
    let mut i = from;
    assert(texts(parts@).skip(from as int).take(0) =~= Seq::<Seq<char>>::empty());
    while i < n
        invariant
            from <= i <= n,
            n == parts@.len(),
            r@ == joined(texts(parts@).skip(from as int).take(i - from), sep@),
        decreases n - i,
    {
        let ghost all = texts(parts@).skip(from as int);
        let ghost next = all.take(i + 1 - from);
        assert(next.drop_last() =~= all.take(i - from));
        assert(next.last() == parts@[i as int]@);
        if i > from {
            r.append(sep);
        } else {
            assert(next =~= seq![parts@[i as int]@]);
            assert(r@ =~= Seq::<char>::empty());
        }
        r.append(parts[i].as_str());
        i = i + 1;
    }
    assert(texts(parts@).skip(from as int).take(n - from) =~= texts(parts@).skip(from as int));
    r
}

/// The text that `format!("{:?}", s)` writes for a string slice: `s` between
/// double quotes, with the escapes of `str::escape_debug`.
pub uninterp spec fn debug_quoted(s: Seq<char>) -> Seq<char>;

/// The `Debug` text of a string.
/// Calls `<str as Debug>::fmt` through `format!`; the result depends on `s` alone,
/// so the contract names it `debug_quoted(s)` without spelling out the escapes.
#[verifier::external_body]
pub(crate) fn quoted(s: &str) -> (r: String)
    ensures
        r@ == debug_quoted(s@),
{
    format!("{:?}", s)
}

} // verus!
