//! Numbers, addresses and words as text.
use vstd::prelude::*;
use vstd::string::*;

pub mod fixed;

verus! {

/// The lowercase form of an ASCII letter; any other character stays as it is.
pub open spec fn lower_char(c: char) -> char {
    if 'A' <= c && c <= 'Z' {
        ((c as u32) + 32) as char
    } else {
        c
    }
}

/// `s` with its ASCII letters in lowercase.
pub open spec fn lower(s: Seq<char>) -> Seq<char> {
    Seq::new(s.len(), |i: int| lower_char(s[i]))
}

/// `str::to_ascii_lowercase`: a copy of the string in which the letters `A` to `Z` are
/// replaced by `a` to `z`, and every other character is kept.
pub assume_specification[ str::to_ascii_lowercase ](s: &str) -> (r: String)
    ensures
        r@ == lower(s@),
;

/// The character of a decimal digit.
pub open spec fn digit_char(d: nat) -> char {
    (48 + d) as char
}

/// `n` in decimal.
pub open spec fn digits(n: nat) -> Seq<char>
    decreases n,
{
    if n < 10 {
        seq![digit_char(n)]
    } else {
        digits(n / 10).push(digit_char(n % 10))
    }
}

pub fn digit_text(d: u64) -> (r: &'static str)
    requires
        d < 10,
    ensures
        r@ == seq![digit_char(d as nat)],
{
    proof {
        reveal_strlit("0");
        reveal_strlit("1");
        reveal_strlit("2");
        reveal_strlit("3");
        reveal_strlit("4");
        reveal_strlit("5");
        reveal_strlit("6");
        reveal_strlit("7");
        reveal_strlit("8");
        reveal_strlit("9");
    }
    if d == 0 {
        "0"
    } else if d == 1 {
        "1"
    } else if d == 2 {
        "2"
    } else if d == 3 {
        "3"
    } else if d == 4 {
        "4"
    } else if d == 5 {
        "5"
    } else if d == 6 {
        "6"
    } else if d == 7 {
        "7"
    } else if d == 8 {
        "8"
    } else {
        "9"
    }
}

/// `n` in decimal.
pub fn decimal_text(n: u64) -> (r: String)
    ensures
        r@ == digits(n as nat),
    decreases n,
{
    if n < 10 {
        digit_text(n).to_owned()
    } else {
        let mut r: String = decimal_text(n / 10);
        r.append(digit_text(n % 10));
        proof {
            assert(digits((n / 10) as nat) + seq![digit_char((n % 10) as nat)] =~= digits(
                n as nat,
            ));
        }
        r
    }
}

/// The four octets of an address, in decimal, with dots between them.
pub open spec fn ipv4(ip: u32) -> Seq<char> {
    digits((ip / 0x100_0000) as nat) + "."@ + digits((ip / 0x1_0000 % 0x100) as nat) + "."@
        + digits((ip / 0x100 % 0x100) as nat) + "."@ + digits((ip % 0x100) as nat)
}

/// The dotted-quad form of an address.
pub fn ipv4_text(ip: u32) -> (r: String)
    ensures
        r@ == ipv4(ip),
{
    let mut r: String = decimal_text((ip / 0x100_0000) as u64);
    r.append(".");
    r.append(decimal_text((ip / 0x1_0000 % 0x100) as u64).as_str());
    r.append(".");
    r.append(decimal_text((ip / 0x100 % 0x100) as u64).as_str());
    r.append(".");
    r.append(decimal_text((ip % 0x100) as u64).as_str());
    r
}

/// Whether `c` is none of the characters of `s`.
pub open spec fn lacks(s: Seq<char>, c: char) -> bool {
    forall|i: int| 0 <= i < s.len() ==> (#[trigger] s[i]) != c
}

proof fn lemma_digits_lack_dots(n: nat)
    ensures
        lacks(digits(n), '.'),
        digits(n).len() >= 1,
    decreases n,
{
    if n >= 10 {
        lemma_digits_lack_dots(n / 10);
    }
}

/// Different numbers are written differently.
pub proof fn law_numbers_are_told_apart(n: nat, m: nat)
    requires
        digits(n) == digits(m),
    ensures
        n == m,
    decreases n,
{
    let a = digits(n);
    let b = digits(m);
    lemma_digits_lack_dots(n / 10);
    lemma_digits_lack_dots(m / 10);
    assert(a.last() == digit_char(n % 10));
    assert(b.last() == digit_char(m % 10));
    if n >= 10 {
        assert(a.drop_last() =~= digits(n / 10));
        assert(b.drop_last() =~= digits(m / 10));
        law_numbers_are_told_apart(n / 10, m / 10);
    }
}

/// What stands before and after the first dot of a text.
proof fn lemma_split_at_dot(p: Seq<char>, q: Seq<char>, r: Seq<char>, s: Seq<char>)
    requires
        p + "."@ + q == r + "."@ + s,
        lacks(p, '.'),
        lacks(r, '.'),
    ensures
        p == r,
        q == s,
{
    reveal_strlit(".");
    let a = p + "."@ + q;
    let b = r + "."@ + s;
    assert(a[p.len() as int] == '.');
    assert(b[r.len() as int] == '.');
    if p.len() < r.len() {
        assert(b[p.len() as int] == r[p.len() as int]);
    }
    if r.len() < p.len() {
        assert(a[r.len() as int] == p[r.len() as int]);
    }
    assert(p =~= a.take(p.len() as int));
    assert(r =~= b.take(p.len() as int));
    assert(q =~= a.skip(p.len() as int + 1));
    assert(s =~= b.skip(p.len() as int + 1));
}

/// The address behind its first octet, in dotted form.
spec fn octet_tail(ip: u32) -> Seq<char> {
    digits((ip / 0x1_0000 % 0x100) as nat) + "."@ + (digits((ip / 0x100 % 0x100) as nat) + "."@
        + digits((ip % 0x100) as nat))
}

proof fn lemma_ipv4_by_dots(ip: u32)
    ensures
        ipv4(ip) == digits((ip / 0x100_0000) as nat) + "."@ + octet_tail(ip),
{
    assert(ipv4(ip) =~= digits((ip / 0x100_0000) as nat) + "."@ + octet_tail(ip));
}

proof fn lemma_octets_make_the_address(ip: u32)
    ensures
        ip == 0x100_0000 * (ip / 0x100_0000) + 0x1_0000 * (ip / 0x1_0000 % 0x100) + 0x100 * (ip
            / 0x100 % 0x100) + ip % 0x100,
{
    assert(ip == 0x100_0000 * (ip / 0x100_0000) + 0x1_0000 * (ip / 0x1_0000 % 0x100) + 0x100 * (ip
        / 0x100 % 0x100) + ip % 0x100) by (bit_vector);
}

/// Equal tails have equal octets.
proof fn lemma_equal_tails(a: u32, b: u32)
    requires
        octet_tail(a) == octet_tail(b),
    ensures
        a / 0x1_0000 % 0x100 == b / 0x1_0000 % 0x100,
        a / 0x100 % 0x100 == b / 0x100 % 0x100,
        a % 0x100 == b % 0x100,
{
    let a1 = (a / 0x1_0000 % 0x100) as nat;
    let a2 = (a / 0x100 % 0x100) as nat;
    let a3 = (a % 0x100) as nat;
    let b1 = (b / 0x1_0000 % 0x100) as nat;
    let b2 = (b / 0x100 % 0x100) as nat;
    let b3 = (b % 0x100) as nat;
    lemma_digits_lack_dots(a1);
    lemma_digits_lack_dots(a2);
    lemma_digits_lack_dots(b1);
    lemma_digits_lack_dots(b2);
    lemma_split_at_dot(
        digits(a1),
        digits(a2) + "."@ + digits(a3),
        digits(b1),
        digits(b2) + "."@ + digits(b3),
    );
    lemma_split_at_dot(digits(a2), digits(a3), digits(b2), digits(b3));
    law_numbers_are_told_apart(a1, b1);
    law_numbers_are_told_apart(a2, b2);
    law_numbers_are_told_apart(a3, b3);
}

/// Different addresses are written differently.
pub proof fn law_addresses_are_told_apart(a: u32, b: u32)
    requires
        ipv4(a) == ipv4(b),
    ensures
        a == b,
{
    let a0 = (a / 0x100_0000) as nat;
    let b0 = (b / 0x100_0000) as nat;
    lemma_ipv4_by_dots(a);
    lemma_ipv4_by_dots(b);
    lemma_digits_lack_dots(a0);
    lemma_digits_lack_dots(b0);
    lemma_split_at_dot(digits(a0), octet_tail(a), digits(b0), octet_tail(b));
    law_numbers_are_told_apart(a0, b0);
    lemma_equal_tails(a, b);
    lemma_octets_make_the_address(a);
    lemma_octets_make_the_address(b);
}

/// The number that a text of decimal digits stands for, highest digit first.
pub open spec fn read_back(s: Seq<char>) -> int
    decreases s.len(),
{
    if s.len() == 0 {
        0
    } else {
        10 * read_back(s.drop_last()) + (s.last() as int - '0' as int)
    }
}

/// Whether `s` is made of decimal digits only.
pub open spec fn is_numeric(s: Seq<char>) -> bool {
    forall|i: int| 0 <= i < s.len() ==> '0' <= (#[trigger] s[i]) && s[i] <= '9'
}

/// A number is written in decimal digits that stand for it, without a zero in front.
pub proof fn law_numbers_are_read_back(n: nat)
    ensures
        is_numeric(digits(n)),
        digits(n).len() >= 1,
        read_back(digits(n)) == n,
        n > 0 ==> digits(n)[0] != '0',
    decreases n,
{
    if n >= 10 {
        law_numbers_are_read_back(n / 10);
        assert(digits(n).drop_last() =~= digits(n / 10));
    } else {
        assert(digits(n).drop_last() =~= Seq::<char>::empty());
        assert(digits(n).last() == digit_char(n));
        assert(read_back(digits(n).drop_last()) == 0);
    }
}

/// An address is written as its four octets, most significant first, each as a number of its
/// own, with dots between them.
pub proof fn law_address_is_its_octets(a: u8, b: u8, c: u8, d: u8)
    ensures
        ipv4((a * 0x100_0000 + b * 0x1_0000 + c * 0x100 + d) as u32) == digits(a as nat) + "."@
            + digits(b as nat) + "."@ + digits(c as nat) + "."@ + digits(d as nat),
{
    let ip = (a * 0x100_0000 + b * 0x1_0000 + c * 0x100 + d) as u32;
    assert(ip / 0x100_0000 == a);
    assert(ip / 0x1_0000 == a * 0x100 + b);
    assert(ip / 0x1_0000 % 0x100 == b);
    assert(ip / 0x100 == a * 0x1_0000 + b * 0x100 + c);
    assert(ip / 0x100 % 0x100 == c);
    assert(ip % 0x100 == d);
}

/// Lowercase keeps the length of a text and every character but the letters `A` to `Z`, which
/// become the letters 32 places on.
pub proof fn law_lowercase_letter_by_letter(s: Seq<char>, i: int)
    requires
        0 <= i < s.len(),
    ensures
        lower(s).len() == s.len(),
        'A' <= s[i] && s[i] <= 'Z' ==> lower(s)[i] as int == s[i] as int + 32,
        !('A' <= s[i] && s[i] <= 'Z') ==> lower(s)[i] == s[i],
{
}

} // verus!
