//! Decimal parsing of the configuration's numbers and flags, as `str::parse`
//! documents it for `u16`, `i32` and `bool`.

use vstd::prelude::*;
use vstd::string::*;

verus! {

/// Whether a character is an ASCII decimal digit.
pub open spec fn is_digit(c: char) -> bool {
    '0' <= c <= '9'
}

/// Whether every character is a decimal digit.
pub open spec fn all_digits(s: Seq<char>) -> bool {
    forall|i: int| 0 <= i < s.len() ==> is_digit(#[trigger] s[i])
}

/// The number that a string of decimal digits denotes.
pub open spec fn digits_value(s: Seq<char>) -> nat
    decreases s.len(),
{
    if s.len() == 0 {
        0
    } else {
        digits_value(s.drop_last()) * 10 + ((s.last() as int) - ('0' as int)) as nat
    }
}

/// The digits of a number written with an optional leading sign.
pub open spec fn unsigned_part(s: Seq<char>) -> Seq<char> {
    if s.len() > 0 && (s[0] == '+' || s[0] == '-') {
        s.drop_first()
    } else {
        s
    }
}

/// `u16::from_str`: an optional `+` followed by at least one digit, within range.
pub open spec fn parse_u16_spec(s: Seq<char>) -> Option<u16> {
    let d = if s.len() > 0 && s[0] == '+' {
        s.drop_first()
    } else {
        s
    };
    if d.len() > 0 && all_digits(d) && digits_value(d) <= u16::MAX {
        Some(digits_value(d) as u16)
    } else {
        None
    }
}

/// `i32::from_str`: an optional `+` or `-` followed by at least one digit, within range.
pub open spec fn parse_i32_spec(s: Seq<char>) -> Option<i32> {
    let d = unsigned_part(s);
    let negative = s.len() > 0 && s[0] == '-';
    if d.len() > 0 && all_digits(d) {
        if negative && digits_value(d) <= 0x8000_0000 {
            Some((-(digits_value(d) as int)) as i32)
        } else if !negative && digits_value(d) <= i32::MAX {
            Some(digits_value(d) as i32)
        } else {
            None
        }
    } else {
        None
    }
}

/// `bool::from_str`: exactly `true` or `false`.
pub open spec fn parse_bool_spec(s: Seq<char>) -> Option<bool> {
    if s == seq!['t', 'r', 'u', 'e'] {
        Some(true)
    } else if s == seq!['f', 'a', 'l', 's', 'e'] {
        Some(false)
    } else {
        None
    }
}

/// A longer string of digits denotes at least as much as its prefix.
proof fn lemma_digits_value_grows(s: Seq<char>, k: int)
    requires
        0 <= k <= s.len(),
        all_digits(s),
    ensures
        digits_value(s.subrange(0, k)) <= digits_value(s),
    decreases s.len(),
{
    if k < s.len() {
        assert(s.drop_last().subrange(0, k) =~= s.subrange(0, k));
        assert(is_digit(s[s.len() - 1]));
        lemma_digits_value_grows(s.drop_last(), k);
    } else {
        assert(s.subrange(0, k) =~= s);
    }
}

/// The characters of a string slice, one by one.
fn chars_of(s: &str) -> (r: Vec<char>)
    ensures
        r@ == s@,
{
    let n = s.unicode_len();
    let mut out: Vec<char> = Vec::new();
    let mut i: usize = 0;
    while i < n
        invariant
            n == s@.len(),
            i <= n,
            out@ == s@.subrange(0, i as int),
        decreases n - i,
    {
        out.push(s.get_char(i));
        i = i + 1;
        assert(out@ =~= s@.subrange(0, i as int));
    }
    assert(out@ =~= s@);
    out
}

/// The value of the digits `d[from..]`, when they are all digits and the value is at most `bound`.
fn digits_at_most(d: &Vec<char>, from: usize, bound: u64) -> (r: Option<u64>)
    requires
        from <= d@.len(),
        bound <= 0xffff_ffff,
    ensures
        ({
            let t = d@.subrange(from as int, d@.len() as int);
            match r {
                Some(v) => all_digits(t) && digits_value(t) == v && v <= bound,
                None => !all_digits(t) || digits_value(t) > bound,
            }
        }),
{
    let ghost t = d@.subrange(from as int, d@.len() as int);
    let mut i: usize = from;
    let mut value: u64 = 0;
    while i < d.len()
        invariant
            from <= i <= d@.len(),
            t == d@.subrange(from as int, d@.len() as int),
            bound <= 0xffff_ffff,
            all_digits(d@.subrange(from as int, i as int)),
            value == digits_value(d@.subrange(from as int, i as int)),
            value <= bound,
        decreases d@.len() - i,
    {
        let c = d[i];
        if !('0' <= c && c <= '9') {
            assert(!all_digits(t)) by {
                assert(t[i - from] == c);
            }
            return None;
        }
        let digit = (c as u64) - ('0' as u64);
        assert(d@.subrange(from as int, i + 1).drop_last() =~= d@.subrange(from as int, i as int));
        value = value * 10 + digit;
        i = i + 1;
        if value > bound {
            proof {
                if all_digits(t) {
                    assert(t.subrange(0, i - from) =~= d@.subrange(from as int, i as int));
                    lemma_digits_value_grows(t, i - from);
                }
            }
            return None;
        }
    }
    assert(d@.subrange(from as int, i as int) =~= t);
    Some(value)
}

/// Parses a `u16` as `str::parse` does.
pub fn parse_u16(s: &str) -> (r: Option<u16>)
    ensures
        r == parse_u16_spec(s@),
{
    let cs = chars_of(s);
    let from: usize = if cs.len() > 0 && cs[0] == '+' {
        1
    } else {
        0
    };
    assert(cs@.subrange(from as int, cs@.len() as int) =~= if s@.len() > 0 && s@[0] == '+' {
        s@.drop_first()
    } else {
        s@
    });
    if from == cs.len() {
        return None;
    }
    match digits_at_most(&cs, from, 0xffff) {
        Some(v) => Some(v as u16),
        None => None,
    }
}

/// Parses an `i32` as `str::parse` does.
pub fn parse_i32(s: &str) -> (r: Option<i32>)
    ensures
        r == parse_i32_spec(s@),
{
    let cs = chars_of(s);
    let signed = cs.len() > 0 && (cs[0] == '+' || cs[0] == '-');
    let negative = cs.len() > 0 && cs[0] == '-';
    let from: usize = if signed {
        1
    } else {
        0
    };
    assert(cs@.subrange(from as int, cs@.len() as int) =~= unsigned_part(s@));
    if from == cs.len() {
        return None;
    }
    if negative {
        match digits_at_most(&cs, from, 0x8000_0000) {
            Some(v) => {
                let w: i64 = -(v as i64);
                Some(w as i32)
            },
            None => None,
        }
    } else {
        match digits_at_most(&cs, from, 0x7fff_ffff) {
            Some(v) => Some(v as i32),
            None => None,
        }
    }
}

/// Parses a `bool` as `str::parse` does.
pub fn parse_bool(s: &str) -> (r: Option<bool>)
    ensures
        r == parse_bool_spec(s@),
{
    let cs = chars_of(s);
    if cs.len() == 4 && cs[0] == 't' && cs[1] == 'r' && cs[2] == 'u' && cs[3] == 'e' {
        assert(s@ =~= seq!['t', 'r', 'u', 'e']);
        Some(true)
    } else if cs.len() == 5 && cs[0] == 'f' && cs[1] == 'a' && cs[2] == 'l' && cs[3] == 's'
        && cs[4] == 'e' {
        assert(s@ =~= seq!['f', 'a', 'l', 's', 'e']);
        Some(false)
    } else {
        None
    }
}

} // verus!

verus! {

/// The decimal digit of a number below ten.
pub open spec fn digit_char(d: nat) -> char {
    if d == 0 {
        '0'
    } else if d == 1 {
        '1'
    } else if d == 2 {
        '2'
    } else if d == 3 {
        '3'
    } else if d == 4 {
        '4'
    } else if d == 5 {
        '5'
    } else if d == 6 {
        '6'
    } else if d == 7 {
        '7'
    } else if d == 8 {
        '8'
    } else {
        '9'
    }
}

/// The decimal digits of a natural number, without leading zeros.
pub open spec fn nat_digits(n: nat) -> Seq<char>
    decreases n,
{
    if n < 10 {
        seq![digit_char(n)]
    } else {
        nat_digits(n / 10).push(digit_char(n % 10))
    }
}

/// The decimal text of an integer, as `Display` writes it.
pub open spec fn int_to_decimal(n: int) -> Seq<char> {
    if n < 0 {
        seq!['-'] + nat_digits((-n) as nat)
    } else {
        nat_digits(n as nat)
    }
}

/// The digit text of a number below ten.
fn digit_str(d: u64) -> (r: &'static str)
    requires
        d < 10,
    ensures
        r@ == seq![digit_char(d as nat)],
{
    proof {
        reveal_strlit("0");
        reveal_strlit("1");
        reveal_strlit("2");
        reveal_strlit("3");
        reveal_strlit("4");
        reveal_strlit("5");
        reveal_strlit("6");
        reveal_strlit("7");
        reveal_strlit("8");
        reveal_strlit("9");
    }
    if d == 0 {
        "0"
    } else if d == 1 {
        "1"
    } else if d == 2 {
        "2"
    } else if d == 3 {
        "3"
    } else if d == 4 {
        "4"
    } else if d == 5 {
        "5"
    } else if d == 6 {
        "6"
    } else if d == 7 {
        "7"
    } else if d == 8 {
        "8"
    } else {
        "9"
    }
}

/// The decimal digits of `n`.
fn format_u64(n: u64) -> (r: String)
    ensures
        r@ == nat_digits(n as nat),
    decreases n,
{
    if n < 10 {
        String::from_str(digit_str(n))
    } else {
        let mut s = format_u64(n / 10);
        s.append(digit_str(n % 10));
        s
    }
}

/// The decimal text of `n`, as `Display` writes it.
pub fn format_i32(n: i32) -> (r: String)
    ensures
        r@ == int_to_decimal(n as int),
{
    if n < 0 {
        let m: i64 = -(n as i64);
        let digits = format_u64(m as u64);
        let mut s = String::from_str("-");
        proof {
            reveal_strlit("-");
        }
        s.append(digits.as_str());
        s
    } else {
        format_u64(n as u64)
    }
}

proof fn lemma_digit_char(d: nat)
    requires
        d < 10,
    ensures
        is_digit(digit_char(d)),
        (digit_char(d) as int) - ('0' as int) == d,
{
}

proof fn lemma_nat_digits(n: nat)
    ensures
        all_digits(nat_digits(n)),
        digits_value(nat_digits(n)) == n,
        nat_digits(n).len() > 0,
        nat_digits(n)[0] != '+' && nat_digits(n)[0] != '-',
    decreases n,
{
    if n >= 10 {
        lemma_nat_digits(n / 10);
        lemma_digit_char(n % 10);
        let d = nat_digits(n / 10);
        assert(nat_digits(n).drop_last() =~= d);
        assert(nat_digits(n)[0] == d[0]);
        assert(n == (n / 10) * 10 + n % 10);
        assert(nat_digits(n).last() == digit_char(n % 10));
        assert(digits_value(nat_digits(n)) == digits_value(d) * 10 + ((digit_char(n % 10) as int)
            - ('0' as int)) as nat);
    } else {
        lemma_digit_char(n);
        assert(nat_digits(n).drop_last() =~= Seq::<char>::empty());
        assert(digits_value(Seq::<char>::empty()) == 0);
        assert(nat_digits(n).last() == digit_char(n));
    }
}

/// Reading back the decimal text of an `i32` gives the number.
pub proof fn lemma_format_parse_i32(n: i32)
    ensures
        parse_i32_spec(int_to_decimal(n as int)) == Some(n),
{
    let s = int_to_decimal(n as int);
    if n < 0 {
        lemma_nat_digits((-n) as nat);
        assert(unsigned_part(s) =~= nat_digits((-n) as nat));
    } else {
        lemma_nat_digits(n as nat);
        assert(unsigned_part(s) =~= nat_digits(n as nat));
    }
}

} // verus!
