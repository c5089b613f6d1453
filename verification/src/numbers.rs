//! Parsing and printing of integers and booleans, as `from_str_radix`,
//! `FromStr` and the `{}` / `{:x}` formats do it.
use vstd::prelude::*;

verus! {

/// The value of digit `c` in base `radix` (10 or 16), or -1 when `c` is no such digit.
pub open spec fn digit_of(c: char, radix: nat) -> int {
    if '0' <= c && c <= '9' && (c as int) - ('0' as int) < radix {
        (c as int) - ('0' as int)
    } else if radix == 16 && 'a' <= c && c <= 'f' {
        (c as int) - ('a' as int) + 10
    } else if radix == 16 && 'A' <= c && c <= 'F' {
        (c as int) - ('A' as int) + 10
    } else {
        -1
    }
}

/// Every character of `s` is a digit of base `radix`.
pub open spec fn all_digits(s: Seq<char>, radix: nat) -> bool {
    forall|i: int| 0 <= i < s.len() ==> digit_of(#[trigger] s[i], radix) >= 0
}

/// The number that the digits `s` denote in base `radix`.
pub open spec fn digits_value(s: Seq<char>, radix: nat) -> nat
    decreases s.len(),
{
    if s.len() == 0 {
        0
    } else {
        (digits_value(s.drop_last(), radix) * radix + digit_of(s.last(), radix)) as nat
    }
}

/// `s` without one leading `+`.
pub open spec fn unsigned_body(s: Seq<char>) -> Seq<char> {
    if s.len() > 0 && s[0] == '+' {
        s.drop_first()
    } else {
        s
    }
}

/// What `from_str_radix` gives for an unsigned type whose largest value is `max`:
/// an optional `+`, then at least one digit, and a value no larger than `max`.
pub open spec fn parse_unsigned(s: Seq<char>, radix: nat, max: nat) -> Option<nat> {
    let b = unsigned_body(s);
    if b.len() > 0 && all_digits(b, radix) && digits_value(b, radix) <= max {
        Some(digits_value(b, radix))
    } else {
        None
    }
}

/// What `i64::from_str_radix(s, 10)` (and `i64::from_str`) gives.
pub open spec fn parse_i64(s: Seq<char>) -> Option<int> {
    if s.len() > 0 && s[0] == '-' {
        let b = s.drop_first();
        if b.len() > 0 && all_digits(b, 10) && digits_value(b, 10) <= 0x8000_0000_0000_0000 {
            Some(-digits_value(b, 10))
        } else {
            None
        }
    } else {
        match parse_unsigned(s, 10, 0x7fff_ffff_ffff_ffff) {
            Some(v) => Some(v as int),
            None => None,
        }
    }
}

/// What `bool::from_str` gives.
pub open spec fn parse_bool(s: Seq<char>) -> Option<bool> {
    if s == seq!['t', 'r', 'u', 'e'] {
        Some(true)
    } else if s == seq!['f', 'a', 'l', 's', 'e'] {
        Some(false)
    } else {
        None
    }
}

proof fn lemma_digits_prefix(s: Seq<char>, radix: nat, i: int)
    requires
        radix >= 1,
        all_digits(s, radix),
        0 <= i <= s.len(),
    ensures
        digits_value(s.take(i), radix) <= digits_value(s, radix),
    decreases s.len(),
{
    if i < s.len() {
        assert(s.drop_last().take(i) =~= s.take(i));
        assert(all_digits(s.drop_last(), radix));
        lemma_digits_prefix(s.drop_last(), radix, i);
        let v = digits_value(s.drop_last(), radix);
        assert(digit_of(s.last(), radix) >= 0) by {
            assert(s.last() == s[s.len() - 1]);
        }
        assert(v * radix >= v) by (nonlinear_arith)
            requires
                radix >= 1,
        ;
    } else {
        assert(s.take(i) =~= s);
    }
}

/// The value of digit `c` in base `radix`, if it is one.
pub fn digit(c: char, radix: u32) -> (r: Option<u32>)
    requires
        radix == 10 || radix == 16,
    ensures
        match r {
            Some(d) => d == digit_of(c, radix as nat) && d < radix,
            None => digit_of(c, radix as nat) < 0,
        },
{
    if '0' <= c && c <= '9' {
        Some(c as u32 - '0' as u32)
    } else if radix == 16 && 'a' <= c && c <= 'f' {
        Some(c as u32 - 'a' as u32 + 10)
    } else if radix == 16 && 'A' <= c && c <= 'F' {
        Some(c as u32 - 'A' as u32 + 10)
    } else {
        None
    }
}

/// Parses `s[from..]` as digits of base `radix` whose value is at most `max`.
fn digits_upto(s: &Vec<char>, from: usize, radix: u32, max: u64) -> (r: Option<u64>)
    requires
        radix == 10 || radix == 16,
        from <= s.len(),
    ensures
        ({
            let b = s@.skip(from as int);
            match r {
                Some(v) => b.len() > 0 && all_digits(b, radix as nat) && digits_value(
                    b,
                    radix as nat,
                ) == v && v <= max,
                None => !(b.len() > 0 && all_digits(b, radix as nat) && digits_value(
                    b,
                    radix as nat,
                ) <= max),
            }
        }),
{
    let ghost b = s@.skip(from as int);
    if from == s.len() {
        return None;
    }
    let mut acc: u64 = 0;
    let mut i = from;
    while i < s.len()
        invariant
            radix == 10 || radix == 16,
            from <= i <= s.len(),
            b == s@.skip(from as int),
            all_digits(b.take(i - from), radix as nat),
            acc == digits_value(b.take(i - from), radix as nat),
            acc <= max,
        decreases s.len() - i,
    {
        let ghost pre = b.take(i - from);
        let ghost next = b.take(i - from + 1);
        assert(next.drop_last() =~= pre);
        assert(next.last() == s@[i as int]);
        match digit(s[i], radix) {
            None => {
                proof {
                    assert(b[i - from] == s@[i as int]);
                }
                return None;
            },
            Some(d) => {
                if d as u64 > max || acc > (max - d as u64) / radix as u64 {
                    proof {
                        let r = radix as int;
                        let a = acc as int;
                        let m = max as int;
                        let dd = d as int;
                        assert(a * r + dd > m) by (nonlinear_arith)
                            requires
                                dd > m || a > (m - dd) / r,
                                r > 0,
                                0 <= dd,
                                0 <= a,
                        ;
                        if b.len() > 0 && all_digits(b, radix as nat) {
                            lemma_digits_prefix(b, radix as nat, i - from + 1);
                        }
                    }
                    return None;
                }
                proof {
                    let r = radix as int;
                    let a = acc as int;
                    let m = max as int;
                    let dd = d as int;
                    assert(a * r + dd <= m) by (nonlinear_arith)
                        requires
                            a <= (m - dd) / r,
                            r > 0,
                            0 <= dd <= m,
                    ;
                }
                acc = acc * radix as u64 + d as u64;
                i += 1;
                assert forall|k: int| 0 <= k < next.len() implies digit_of(
                    #[trigger] next[k],
                    radix as nat,
                ) >= 0 by {
                    if k < pre.len() {
                        assert(next[k] == pre[k]);
                    }
                }
            },
        }
    }
    assert(b.take(s.len() - from) =~= b);
    Some(acc)
}

/// `from_str_radix(s, radix)` for an unsigned type whose largest value is `max`.
pub fn parse_uint(s: &Vec<char>, radix: u32, max: u64) -> (r: Option<u64>)
    requires
        radix == 10 || radix == 16,
    ensures
        match r {
            Some(v) => parse_unsigned(s@, radix as nat, max as nat) == Some(v as nat),
            None => parse_unsigned(s@, radix as nat, max as nat) is None,
        },
{
    let from: usize = if s.len() > 0 && s[0] == '+' {
        1
    } else {
        0
    };
    assert(s@.skip(from as int) =~= unsigned_body(s@));
    digits_upto(s, from, radix, max)
}

/// `i64::from_str(s)`.
pub fn parse_int(s: &Vec<char>) -> (r: Option<i64>)
    ensures
        match r {
            Some(v) => parse_i64(s@) == Some(v as int),
            None => parse_i64(s@) is None,
        },
{
    if s.len() > 0 && s[0] == '-' {
        assert(s@.skip(1) =~= s@.drop_first());
        match digits_upto(s, 1, 10, 0x8000_0000_0000_0000) {
            Some(m) => {
                if m == 0x8000_0000_0000_0000 {
                    Some(i64::MIN)
                } else {
                    Some(-(m as i64))
                }
            },
            None => None,
        }
    } else {
        match parse_uint(s, 10, 0x7fff_ffff_ffff_ffff) {
            Some(v) => Some(v as i64),
            None => None,
        }
    }
}

/// `bool::from_str(s)`.
pub fn parse_boolean(s: &Vec<char>) -> (r: Option<bool>)
    ensures
        r == parse_bool(s@),
{
    let t = vec!['t', 'r', 'u', 'e'];
    let f = vec!['f', 'a', 'l', 's', 'e'];
    assert(t@ =~= seq!['t', 'r', 'u', 'e']);
    assert(f@ =~= seq!['f', 'a', 'l', 's', 'e']);
    if crate::text::same(s, &t) {
        Some(true)
    } else if crate::text::same(s, &f) {
        Some(false)
    } else {
        None
    }
}

/// The digit character for `d` (lower-case letters above nine).
pub open spec fn digit_char(d: nat) -> char {
    if d < 10 {
        ((d + 48) as u8) as char
    } else {
        ((d - 10 + 97) as u8) as char
    }
}

/// The digits of `n` in base `radix`, most significant first, without leading
/// zeros (`"0"` for zero): what `{}` and `{:x}` print.
pub open spec fn digits_of(n: nat, radix: nat) -> Seq<char>
    decreases n,
{
    if radix < 2 {
        seq![]
    } else if n < radix {
        seq![digit_char(n)]
    } else {
        proof {
            assert(n / radix < n) by (nonlinear_arith)
                requires
                    n >= radix,
                    radix >= 2,
            ;
        }
        digits_of(n / radix, radix).push(digit_char(n % radix))
    }
}

/// `format!("{}", n)` (radix 10) or `format!("{:x}", n)` (radix 16).
pub fn print_uint(n: u64, radix: u64) -> (r: Vec<char>)
    requires
        radix == 10 || radix == 16,
    ensures
        r@ == digits_of(n as nat, radix as nat),
    decreases n,
{
    let d = n % radix;
    let c: char = if d < 10 {
        ((d as u8) + 48u8) as char
    } else {
        ((d as u8) - 10u8 + 97u8) as char
    };
    assert(c == digit_char(d as nat));
    if n < radix {
        assert(d == n);
        vec![c]
    } else {
        let mut r = print_uint(n / radix, radix);
        r.push(c);
        r
    }
}

/// `format!("{}", n)` for a signed number.
pub open spec fn signed_digits(n: int) -> Seq<char> {
    if n < 0 {
        seq!['-'] + digits_of((-n) as nat, 10)
    } else {
        digits_of(n as nat, 10)
    }
}

/// `format!("{}", n)`.
pub fn print_int(n: i64) -> (r: Vec<char>)
    ensures
        r@ == signed_digits(n as int),
{
    if n < 0 {
        let m: u64 = if n == i64::MIN {
            0x8000_0000_0000_0000
        } else {
            (-n) as u64
        };
        let mut r = vec!['-'];
        let d = print_uint(m, 10);
        crate::text::push_all(&mut r, &d);
        r
    } else {
        print_uint(n as u64, 10)
    }
}

/// `format!("{}", b)` for a boolean.
pub open spec fn bool_text(b: bool) -> Seq<char> {
    if b {
        seq!['t', 'r', 'u', 'e']
    } else {
        seq!['f', 'a', 'l', 's', 'e']
    }
}

/// `b.to_string()`.
pub fn print_bool(b: bool) -> (r: Vec<char>)
    ensures
        r@ == bool_text(b),
{
    if b {
        let r = vec!['t', 'r', 'u', 'e'];
        assert(r@ =~= bool_text(b));
        r
    } else {
        let r = vec!['f', 'a', 'l', 's', 'e'];
        assert(r@ =~= bool_text(b));
        r
    }
}

} // verus!
