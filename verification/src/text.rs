//! Numbers in texts, and texts in texts.
use vstd::arithmetic::div_mod::*;
use vstd::prelude::*;
use vstd::string::*;

verus! {

/// The digit for a number below ten.
pub open spec fn digit(d: nat) -> char {
    if d == 0 {
        '0'
    } else if d == 1 {
        '1'
    } else if d == 2 {
        '2'
    } else if d == 3 {
        '3'
    } else if d == 4 {
        '4'
    } else if d == 5 {
        '5'
    } else if d == 6 {
        '6'
    } else if d == 7 {
        '7'
    } else if d == 8 {
        '8'
    } else {
        '9'
    }
}

/// Whether the character is a decimal digit.
pub open spec fn is_digit(c: char) -> bool {
    '0' <= c && c <= '9'
}

/// What a digit stands for.
pub open spec fn worth(c: char) -> nat {
    (c as int - '0' as int) as nat
}

/// A number in decimal digits, without zeros in front.
pub open spec fn decimal(n: nat) -> Seq<char>
    decreases n,
{
    if n < 10 {
        seq![digit(n)]
    } else {
        decimal(n / 10).push(digit(n % 10))
    }
}

/// What the digits stand for.
pub open spec fn number(s: Seq<char>) -> nat
    decreases s.len(),
{
    if s.len() == 0 {
        0
    } else {
        number(s.drop_last()) * 10 + worth(s.last())
    }
}

/// Whether the text is made of decimal digits only.
pub open spec fn all_digits(s: Seq<char>) -> bool {
    forall|i: int| 0 <= i < s.len() ==> is_digit(#[trigger] s[i])
}

/// The digits of a text: what follows a plus sign, or all of it.
pub open spec fn unsigned_part(s: Seq<char>) -> Seq<char> {
    if s.len() > 0 && s[0] == '+' {
        s.drop_first()
    } else {
        s
    }
}

/// The number of 32 bits that a text stands for: one or more digits, perhaps after a plus sign.
pub open spec fn parsed(s: Seq<char>) -> Option<u32> {
    let d = unsigned_part(s);
    if d.len() > 0 && all_digits(d) && number(d) <= u32::MAX {
        Some(number(d) as u32)
    } else {
        None
    }
}

proof fn lemma_digit(d: nat)
    requires
        d < 10,
    ensures
        is_digit(digit(d)),
        worth(digit(d)) == d,
{
}

proof fn lemma_decimal(n: nat)
    ensures
        decimal(n).len() > 0,
        all_digits(decimal(n)),
        number(decimal(n)) == n,
    decreases n,
{
    if n < 10 {
        lemma_digit(n);
        let s = decimal(n);
        assert(s.drop_last() =~= Seq::<char>::empty());
        assert(number(Seq::<char>::empty()) == 0);
    } else {
        lemma_decimal(n / 10);
        lemma_digit(n % 10);
        let s = decimal(n);
        assert(s.drop_last() =~= decimal(n / 10));
        assert(s.last() == digit(n % 10));
        lemma_fundamental_div_mod(n as int, 10);
    }
}

/// A number that was written out is read back.
pub proof fn numbers_are_read_back(n: u32)
    ensures
        parsed(decimal(n as nat)) == Some(n),
{
    lemma_decimal(n as nat);
    let s = decimal(n as nat);
    assert(is_digit(s[0]));
}

/// The first digits of a text stand for no more than all of them.
proof fn lemma_number_grows(s: Seq<char>, k: int)
    requires
        0 <= k <= s.len(),
        all_digits(s),
    ensures
        number(s.take(k)) <= number(s),
    decreases s.len() - k,
{
    if k < s.len() {
        let t = s.take(k + 1);
        assert(t.drop_last() =~= s.take(k));
        lemma_number_grows(s, k + 1);
    } else {
        assert(s.take(k) =~= s);
    }
}

fn digit_text(d: u32) -> (s: &'static str)
    requires
        d < 10,
    ensures
        s@ == seq![digit(d as nat)],
{
    proof {
        reveal_strlit("0");
        reveal_strlit("1");
        reveal_strlit("2");
        reveal_strlit("3");
        reveal_strlit("4");
        reveal_strlit("5");
        reveal_strlit("6");
        reveal_strlit("7");
        reveal_strlit("8");
        reveal_strlit("9");
    }
    let s = if d == 0 {
        "0"
    } else if d == 1 {
        "1"
    } else if d == 2 {
        "2"
    } else if d == 3 {
        "3"
    } else if d == 4 {
        "4"
    } else if d == 5 {
        "5"
    } else if d == 6 {
        "6"
    } else if d == 7 {
        "7"
    } else if d == 8 {
        "8"
    } else {
        "9"
    };
    assert(s@ =~= seq![digit(d as nat)]);
    s
}

/// Writes a number out.
pub fn decimal_text(n: u32) -> (s: String)
    ensures
        s@ == decimal(n as nat),
    decreases n,
{
    if n < 10 {
        String::from_str(digit_text(n))
    } else {
        let mut s = decimal_text(n / 10);
        s.append(digit_text(n % 10));
        assert(s@ =~= decimal(n as nat));
        s
    }
}

/// What a digit stands for, if it is one.
fn digit_value(c: char) -> (d: Option<u32>)
    ensures
        d == (if is_digit(c) {
            Some(worth(c) as u32)
        } else {
            None
        }),
        d matches Some(w) ==> w < 10 && w == worth(c),
{
    if c >= '0' && c <= '9' {
        Some(c as u32 - '0' as u32)
    } else {
        None
    }
}

/// Reads a number of 32 bits.
pub fn parse_u32(s: &str) -> (r: Option<u32>)
    ensures
        r == parsed(s@),
{
    let n: usize = s.unicode_len();
    let start: usize = if n > 0 && s.get_char(0) == '+' { 1 } else { 0 };
    let ghost d = unsigned_part(s@);
    if start == n {
        return None;
    }
    let mut total: u32 = 0;
    let mut i: usize = start;
    while i < n
        invariant
            n == s@.len(),
            start <= i <= n,
            start == 0 || start == 1,
            d == unsigned_part(s@),
            d.len() == n - start,
            forall|k: int| 0 <= k < d.len() ==> #[trigger] d[k] == s@[k + start],
            all_digits(d.take(i - start)),
            total == number(d.take(i - start)),
        decreases n - i,
    {
        let c = s.get_char(i);
        let ghost k = i - start;
        assert(d[k] == c);
        match digit_value(c) {
            Some(w) => {
                proof {
                    let t = d.take(k + 1);
                    assert(t.drop_last() =~= d.take(k));
                    assert(t.last() == c);
                    if all_digits(d) {
                        lemma_number_grows(d, k + 1);
                    }
                    assert forall|j: int| 0 <= j < t.len() implies is_digit(#[trigger] t[j]) by {
                        if j < k {
                            assert(d.take(k)[j] == t[j]);
                        }
                    }
                }
                let wide: u64 = total as u64 * 10 + w as u64;
                if wide > 0xffff_ffff {
                    return None;
                }
                total = wide as u32;
            },
            None => {
                return None;
            },
        }
        i = i + 1;
    }
    assert(d.take(n - start) =~= d);
    Some(total)
}

/// Whether a text has another at the given place.
pub open spec fn has_at(s: Seq<char>, p: Seq<char>, i: int) -> bool {
    0 <= i && i + p.len() <= s.len() && s.subrange(i, i + p.len()) == p
}

/// Whether a text has another in it.
pub open spec fn has_within(s: Seq<char>, p: Seq<char>) -> bool {
    exists|i: int| #[trigger] has_at(s, p, i)
}

/// Whether a text has another in it.
pub fn contains(s: &str, p: &str) -> (r: bool)
    ensures
        r == has_within(s@, p@),
{
    let n: usize = s.unicode_len();
    let m: usize = p.unicode_len();
    if m > n {
        return false;
    }
    let mut i: usize = 0;
    while i <= n - m
        invariant
            n == s@.len(),
            m == p@.len(),
            m <= n,
            i <= n - m + 1,
            forall|k: int| 0 <= k < i ==> !has_at(s@, p@, k),
        decreases n - m + 1 - i,
    {
        let mut j: usize = 0;
        while j < m && s.get_char(i + j) == p.get_char(j)
            invariant
                n == s@.len(),
                m == p@.len(),
                i + m <= n,
                j <= m,
                forall|k: int| 0 <= k < j ==> s@[i + k] == #[trigger] p@[k],
            decreases m - j,
        {
            j = j + 1;
        }
        if j == m {
            assert(s@.subrange(i as int, i + m) =~= p@);
            assert(has_at(s@, p@, i as int));
            return true;
        }
        assert(!has_at(s@, p@, i as int)) by {
            if has_at(s@, p@, i as int) {
                assert(s@.subrange(i as int, i + m)[j as int] == p@[j as int]);
            }
        }
        i = i + 1;
    }
    false
}

/// Whether a character is white space.
pub open spec fn is_space(c: char) -> bool {
    ||| 0x9 <= c as u32 <= 0xd
    ||| c as u32 == 0x20
    ||| c as u32 == 0x85
    ||| c as u32 == 0xa0
    ||| c as u32 == 0x1680
    ||| 0x2000 <= c as u32 <= 0x200a
    ||| 0x2028 <= c as u32 <= 0x2029
    ||| c as u32 == 0x202f
    ||| c as u32 == 0x205f
    ||| c as u32 == 0x3000
}

fn spaces(c: char) -> (r: bool)
    ensures
        r == is_space(c),
{
    let u: u32 = c as u32;
    (u >= 0x9 && u <= 0xd) || u == 0x20 || u == 0x85 || u == 0xa0 || u == 0x1680 || (u >= 0x2000
        && u <= 0x200a) || u == 0x2028 || u == 0x2029 || u == 0x202f || u == 0x205f || u == 0x3000
}

/// A text without the white space around it.
pub open spec fn trimmed(s: Seq<char>) -> Seq<char>
    decreases s.len(),
{
    if s.len() == 0 {
        s
    } else if is_space(s.first()) {
        trimmed(s.drop_first())
    } else if is_space(s.last()) {
        trimmed(s.drop_last())
    } else {
        s
    }
}

/// A text without the white space around it.
pub fn trim(s: &str) -> (r: &str)
    ensures
        r@ == trimmed(s@),
{
    let n: usize = s.unicode_len();
    let mut a: usize = 0;
    let mut b: usize = n;
    assert(s@.subrange(0, n as int) =~= s@);
    while a < b && spaces(s.get_char(a))
        invariant
            n == s@.len(),
            a <= b <= n,
            trimmed(s@) == trimmed(s@.subrange(a as int, b as int)),
        decreases b - a,
    {
        let ghost t = s@.subrange(a as int, b as int);
        assert(t.first() == s@[a as int]);
        assert(t.drop_first() =~= s@.subrange(a + 1, b as int));
        a = a + 1;
    }
    while a < b && spaces(s.get_char(b - 1))
        invariant
            n == s@.len(),
            a <= b <= n,
            a < b ==> !is_space(s@[a as int]),
            trimmed(s@) == trimmed(s@.subrange(a as int, b as int)),
        decreases b - a,
    {
        let ghost t = s@.subrange(a as int, b as int);
        assert(t.first() == s@[a as int]);
        assert(t.last() == s@[b - 1]);
        assert(t.drop_last() =~= s@.subrange(a as int, b - 1));
        b = b - 1;
    }
    proof {
        let t = s@.subrange(a as int, b as int);
        if a < b {
            assert(t.first() == s@[a as int]);
            assert(t.last() == s@[b - 1]);
        }
    }
    s.substring_char(a, b)
}

/// A digit more makes ten times the number and the digit.
pub proof fn digits_count_tenfold(s: Seq<char>, d: nat)
    requires
        d < 10,
    ensures
        number(s.push(digit(d))) == number(s) * 10 + d,
        number(Seq::<char>::empty()) == 0,
{
    lemma_digit(d);
    assert(s.push(digit(d)).drop_last() =~= s);
}

/// A text stands for a number exactly if it is made of digits, at least one, perhaps behind a plus
/// sign, and the number is not too large.
pub proof fn only_digits_are_numbers(s: Seq<char>, i: int)
    ensures
        s.len() == 0 ==> parsed(s) is None,
        0 <= i < s.len() && !('0' <= s[i] <= '9') && (i > 0 || s[i] != '+') ==> parsed(s) is None,
        s.len() > 0 && (forall|k: int| 0 <= k < s.len() ==> '0' <= #[trigger] s[k] <= '9') && number(
            s,
        ) <= u32::MAX ==> parsed(s) == Some(number(s) as u32) && parsed(seq!['+'] + s) == Some(
            number(s) as u32,
        ),
        s.len() > 0 && (forall|k: int| 0 <= k < s.len() ==> '0' <= #[trigger] s[k] <= '9') && number(
            s,
        ) > u32::MAX ==> parsed(s) is None,
{
    let d = unsigned_part(s);
    if 0 <= i < s.len() && !('0' <= s[i] <= '9') && (i > 0 || s[i] != '+') {
        if s[0] == '+' {
            assert(d[i - 1] == s[i]);
            assert(!is_digit(d[i - 1]));
        } else {
            assert(!is_digit(d[i]));
        }
    }
    if s.len() > 0 && (forall|k: int| 0 <= k < s.len() ==> '0' <= #[trigger] s[k] <= '9') {
        assert('0' <= s[0] <= '9');
        let t = seq!['+'] + s;
        assert(t.drop_first() =~= s);
    }
}

/// One text is in another exactly if it stands somewhere in it, character by character.
pub proof fn parts_are_found(s: Seq<char>, p: Seq<char>, i: int)
    ensures
        0 <= i && i + p.len() <= s.len() && (forall|k: int|
            0 <= k < p.len() ==> s[i + k] == #[trigger] p[k]) ==> has_within(s, p),
        has_within(s, p) ==> p.len() <= s.len(),
        has_within(s, p) && p.len() > 0 ==> s.contains(p[0]),
{
    if 0 <= i && i + p.len() <= s.len() && (forall|k: int|
        0 <= k < p.len() ==> s[i + k] == #[trigger] p[k]) {
        assert(s.subrange(i, i + p.len()) =~= p);
        assert(has_at(s, p, i));
    }
    if has_within(s, p) {
        let j = choose|j: int| #[trigger] has_at(s, p, j);
        if p.len() > 0 {
            assert(s.subrange(j, j + p.len())[0] == p[0]);
            assert(s[j] == p[0]);
        }
    }
}

/// White space around a text is taken off, however much there is of it, and nothing else is: a text
/// that neither begins nor ends with it stays as it is.
pub proof fn only_space_around_is_trimmed(s: Seq<char>, c: char)
    ensures
        is_space(c) ==> trimmed(seq![c] + s) == trimmed(s),
        is_space(c) ==> trimmed(s.push(c)) == trimmed(s),
        s.len() > 0 && !is_space(s.first()) && !is_space(s.last()) ==> trimmed(s) == s,
        trimmed(s).len() > 0 ==> !is_space(trimmed(s).first()) && !is_space(trimmed(s).last()),
        is_space(' ') && is_space('\n') && is_space('\t') && is_space('\r'),
    decreases s.len(),
{
    assert((seq![c] + s).drop_first() =~= s);
    assert(s.push(c).drop_last() =~= s);
    if s.len() > 0 {
        if is_space(s.first()) {
            only_space_around_is_trimmed(s.drop_first(), c);
            assert(s.push(c).drop_first() =~= s.drop_first().push(c));
        } else if is_space(s.last()) {
            only_space_around_is_trimmed(s.drop_last(), c);
        }
    } else {
        assert(s.push(c).drop_first() =~= s);
    }
}

} // verus!
