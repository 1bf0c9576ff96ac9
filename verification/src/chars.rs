//! Character-level helpers shared by the parsers: digit handling, searching
//! for a separator, and rendering unsigned numbers as decimal text.

use vstd::prelude::*;

use crate::errors::CronError;

verus! {

/// `c` is an ASCII decimal digit.
pub open spec fn is_digit(c: char) -> bool {
    48 <= c as u32 && c as u32 <= 57
}

/// The numeric value of a digit character.
pub open spec fn digit_val(c: char) -> int {
    c as u32 - 48
}

/// Every character of `s` is a decimal digit.
pub open spec fn all_digits(s: Seq<char>) -> bool {
    forall|i: int| 0 <= i < s.len() ==> is_digit(#[trigger] s[i])
}

/// The value of a digit string read in base ten.
pub open spec fn digits_val(s: Seq<char>) -> int
    decreases s.len(),
{
    if s.len() == 0 {
        0
    } else {
        digits_val(s.drop_last()) * 10 + digit_val(s.last())
    }
}

/// `s` is a well-formed decimal numeral whose value fits in a `u32`.
pub open spec fn valid_number(s: Seq<char>) -> bool {
    s.len() > 0 && all_digits(s) && digits_val(s) <= u32::MAX
}

pub proof fn lemma_digits_val_nonneg(s: Seq<char>)
    requires
        all_digits(s),
    ensures
        digits_val(s) >= 0,
    decreases s.len(),
{
    if s.len() > 0 {
        assert(all_digits(s.drop_last())) by {
            assert(forall|i: int|
                0 <= i < s.len() - 1 ==> is_digit(#[trigger] s.drop_last()[i]) == is_digit(s[i]));
        }
        lemma_digits_val_nonneg(s.drop_last());
    }
}

/// Extending a digit string on the right multiplies its value by ten and adds
/// the new digit.
pub proof fn lemma_digits_val_take_step(s: Seq<char>, i: int)
    requires
        0 <= i < s.len(),
    ensures
        digits_val(s.take(i + 1)) == digits_val(s.take(i)) * 10 + digit_val(s[i]),
{
    assert(s.take(i + 1).drop_last() =~= s.take(i));
    assert(s.take(i + 1).last() == s[i]);
}

/// The value of a prefix never exceeds the value of the whole digit string.
pub proof fn lemma_digits_val_prefix(s: Seq<char>, i: int)
    requires
        0 <= i <= s.len(),
        all_digits(s),
    ensures
        digits_val(s.take(i)) <= digits_val(s),
    decreases s.len() - i,
{
    if i == s.len() {
        assert(s.take(i) =~= s);
    } else {
        lemma_digits_val_take_step(s, i);
        assert(all_digits(s.take(i))) by {
            assert(forall|j: int|
                0 <= j < i ==> is_digit(#[trigger] s.take(i)[j]) == is_digit(s[j]));
        }
        lemma_digits_val_nonneg(s.take(i));
        lemma_digits_val_prefix(s, i + 1);
    }
}

/// Parses `v[lo..hi]` as an unsigned decimal number.
///
/// Succeeds exactly on nonempty all-digit spans whose value fits in a `u32`,
/// and then returns that value.
pub fn parse_u32(v: &Vec<char>, lo: usize, hi: usize) -> (r: Result<u32, CronError>)
    requires
        lo <= hi <= v@.len(),
    ensures
        match r {
            Ok(x) => valid_number(v@.subrange(lo as int, hi as int)) && x == digits_val(
                v@.subrange(lo as int, hi as int),
            ),
            Err(e) => e == CronError::InvalidFieldSyntax && !valid_number(
                v@.subrange(lo as int, hi as int),
            ),
        },
{
    let ghost s = v@.subrange(lo as int, hi as int);
    if lo == hi {
        return Err(CronError::InvalidFieldSyntax);
    }
    let mut acc: u64 = 0;
    let mut i: usize = lo;
    while i < hi
        invariant
            lo <= i <= hi <= v@.len(),
            s == v@.subrange(lo as int, hi as int),
            acc <= u32::MAX,
            all_digits(s.take(i - lo)),
            acc == digits_val(s.take(i - lo)),
        decreases hi - i,
    {
        let c = v[i];
        assert(s[i - lo] == c);
        let cv = c as u32;
        if cv < 48 || cv > 57 {
            assert(!is_digit(s[i - lo]));
            return Err(CronError::InvalidFieldSyntax);
        }
        let d = (cv - 48) as u64;
        proof {
            lemma_digits_val_take_step(s, i - lo);
        }
        let next = acc * 10 + d;
        if next > u32::MAX as u64 {
            proof {
                assert(all_digits(s.take(i - lo + 1))) by {
                    assert(forall|j: int|
                        0 <= j < i - lo + 1 ==> s.take(i - lo + 1)[j] == s[j]);
                }
                if valid_number(s) {
                    lemma_digits_val_prefix(s, i - lo + 1);
                }
            }
            return Err(CronError::InvalidFieldSyntax);
        }
        acc = next;
        i = i + 1;
        assert(all_digits(s.take(i - lo))) by {
            assert(forall|j: int| 0 <= j < i - lo ==> s.take(i - lo)[j] == s[j]);
        }
    }
    assert(s.take(hi - lo) =~= s);
    Ok(acc as u32)
}

/// `s` is a decimal numeral whose value fits in an `i64`.
pub open spec fn valid_i64_digits(s: Seq<char>) -> bool {
    s.len() > 0 && all_digits(s) && digits_val(s) <= i64::MAX
}

/// Parses `v[lo..hi]` as a nonnegative decimal number fitting an `i64`.
pub fn parse_i64_digits(v: &Vec<char>, lo: usize, hi: usize) -> (r: Option<i64>)
    requires
        lo <= hi <= v@.len(),
    ensures
        match r {
            Some(x) => valid_i64_digits(v@.subrange(lo as int, hi as int)) && x == digits_val(
                v@.subrange(lo as int, hi as int),
            ) && x >= 0,
            None => !valid_i64_digits(v@.subrange(lo as int, hi as int)),
        },
{
    let ghost s = v@.subrange(lo as int, hi as int);
    if lo == hi {
        return None;
    }
    let mut acc: u64 = 0;
    let mut i: usize = lo;
    while i < hi
        invariant
            lo <= i <= hi <= v@.len(),
            s == v@.subrange(lo as int, hi as int),
            acc <= i64::MAX,
            all_digits(s.take(i - lo)),
            acc == digits_val(s.take(i - lo)),
        decreases hi - i,
    {
        let c = v[i];
        assert(s[i - lo] == c);
        let cv = c as u32;
        if cv < 48 || cv > 57 {
            assert(!is_digit(s[i - lo]));
            return None;
        }
        let d = (cv - 48) as u64;
        proof {
            lemma_digits_val_take_step(s, i - lo);
        }
        let limit: u64 = (i64::MAX as u64 - d) / 10;
        proof {
            vstd::arithmetic::div_mod::lemma_fundamental_div_mod(i64::MAX - d, 10);
        }
        if acc > limit {
            proof {
                assert(acc * 10 >= limit * 10 + 10) by {
                    vstd::arithmetic::mul::lemma_mul_inequality(limit as int + 1, acc as int, 10);
                }
                assert(digits_val(s.take(i - lo + 1)) > i64::MAX);
                assert(all_digits(s.take(i - lo + 1))) by {
                    assert(forall|j: int|
                        0 <= j < i - lo + 1 ==> s.take(i - lo + 1)[j] == s[j]);
                }
                if valid_i64_digits(s) {
                    lemma_digits_val_prefix(s, i - lo + 1);
                }
            }
            return None;
        }
        proof {
            assert(acc * 10 <= limit * 10) by {
                vstd::arithmetic::mul::lemma_mul_inequality(acc as int, limit as int, 10);
            }
        }
        acc = acc * 10 + d;
        i = i + 1;
        assert(all_digits(s.take(i - lo))) by {
            assert(forall|j: int| 0 <= j < i - lo ==> s.take(i - lo)[j] == s[j]);
        }
    }
    assert(s.take(hi - lo) =~= s);
    Some(acc as i64)
}

/// The index of the first occurrence of `c` in `s`, or `-1` if absent.
pub open spec fn first_index(s: Seq<char>, c: char) -> int
    decreases s.len(),
{
    if s.len() == 0 {
        -1
    } else if s[0] == c {
        0
    } else if first_index(s.skip(1), c) < 0 {
        -1
    } else {
        first_index(s.skip(1), c) + 1
    }
}

/// Characterization of `first_index`: it is the least index holding `c`, or
/// `-1` when `c` does not occur.
pub proof fn lemma_first_index(s: Seq<char>, c: char)
    ensures
        first_index(s, c) == -1 || (0 <= first_index(s, c) < s.len()),
        first_index(s, c) >= 0 ==> s[first_index(s, c)] == c,
        forall|j: int|
            0 <= j < s.len() && (first_index(s, c) == -1 || j < first_index(s, c)) ==> s[j] != c,
    decreases s.len(),
{
    if s.len() > 0 && s[0] != c {
        lemma_first_index(s.skip(1), c);
        assert(forall|j: int| 1 <= j < s.len() ==> s[j] == s.skip(1)[j - 1]);
    }
}

/// Finds the first occurrence of `c` within `v[lo..hi]`.
pub fn find_char(v: &Vec<char>, lo: usize, hi: usize, c: char) -> (r: Option<usize>)
    requires
        lo <= hi <= v@.len(),
    ensures
        ({
            let fi = first_index(v@.subrange(lo as int, hi as int), c);
            match r {
                Some(i) => fi == i - lo && lo <= i < hi,
                None => fi == -1,
            }
        }),
{
    let ghost s = v@.subrange(lo as int, hi as int);
    proof {
        lemma_first_index(s, c);
    }
    let mut i: usize = lo;
    while i < hi
        invariant
            lo <= i <= hi <= v@.len(),
            s == v@.subrange(lo as int, hi as int),
            forall|j: int| 0 <= j < i - lo ==> s[j] != c,
        decreases hi - i,
    {
        if v[i] == c {
            assert(s[i - lo] == c);
            assert(first_index(s, c) == i - lo) by {
                lemma_first_index(s, c);
            }
            return Some(i);
        }
        assert(s[i - lo] != c);
        i = i + 1;
    }
    assert(first_index(s, c) == -1) by {
        lemma_first_index(s, c);
        if first_index(s, c) >= 0 {
            assert(s[first_index(s, c)] == c);
        }
    }
    None
}

/// `c` is a space or a tab.
pub open spec fn is_blank(c: char) -> bool {
    c == ' ' || c == '\t'
}

/// How many blanks `s` starts with.
pub open spec fn leading_blanks(s: Seq<char>) -> int
    decreases s.len(),
{
    if s.len() == 0 {
        0
    } else if !is_blank(s[0]) {
        0
    } else {
        1 + leading_blanks(s.skip(1))
    }
}

pub proof fn lemma_leading_blanks(s: Seq<char>)
    ensures
        0 <= leading_blanks(s) <= s.len(),
        forall|j: int| 0 <= j < leading_blanks(s) ==> is_blank(s[j]),
        leading_blanks(s) < s.len() ==> !is_blank(s[leading_blanks(s)]),
    decreases s.len(),
{
    if s.len() > 0 && is_blank(s[0]) {
        lemma_leading_blanks(s.skip(1));
        assert(forall|j: int| 1 <= j < s.len() ==> s[j] == s.skip(1)[j - 1]);
    }
}

/// The length of `s` without its trailing blanks.
pub open spec fn trimmed_len(s: Seq<char>) -> int
    decreases s.len(),
{
    if s.len() == 0 {
        0
    } else if is_blank(s.last()) {
        trimmed_len(s.drop_last())
    } else {
        s.len() as int
    }
}

pub proof fn lemma_trimmed_len(s: Seq<char>)
    ensures
        0 <= trimmed_len(s) <= s.len(),
        forall|j: int| trimmed_len(s) <= j < s.len() ==> is_blank(s[j]),
        trimmed_len(s) > 0 ==> !is_blank(s[trimmed_len(s) - 1]),
    decreases s.len(),
{
    if s.len() > 0 && is_blank(s.last()) {
        lemma_trimmed_len(s.drop_last());
        assert(forall|j: int| 0 <= j < s.len() - 1 ==> s[j] == s.drop_last()[j]);
    }
}

/// Index of the first character of `v[lo..hi]` that is not a blank.
pub fn skip_blanks(v: &Vec<char>, lo: usize, hi: usize) -> (r: usize)
    requires
        lo <= hi <= v@.len(),
    ensures
        lo <= r <= hi,
        r - lo == leading_blanks(v@.subrange(lo as int, hi as int)),
{
    let ghost s = v@.subrange(lo as int, hi as int);
    proof {
        lemma_leading_blanks(s);
    }
    let mut i: usize = lo;
    while i < hi && (v[i] == ' ' || v[i] == '\t')
        invariant
            lo <= i <= hi <= v@.len(),
            s == v@.subrange(lo as int, hi as int),
            forall|j: int| 0 <= j < i - lo ==> is_blank(s[j]),
        decreases hi - i,
    {
        assert(is_blank(s[i - lo]));
        i = i + 1;
    }
    proof {
        let lb = leading_blanks(s);
        if i < hi {
            assert(!is_blank(s[i - lo]));
        }
        if lb < i - lo {
            assert(is_blank(s[lb]));
        }
        if lb > i - lo {
            assert(is_blank(s[i - lo]));
        }
    }
    i
}

/// Length of `v[lo..hi]` without its trailing blanks.
pub fn trim_end_blanks(v: &Vec<char>, lo: usize, hi: usize) -> (r: usize)
    requires
        lo <= hi <= v@.len(),
    ensures
        lo <= r <= hi,
        r - lo == trimmed_len(v@.subrange(lo as int, hi as int)),
{
    let ghost s = v@.subrange(lo as int, hi as int);
    proof {
        lemma_trimmed_len(s);
    }
    let mut i: usize = hi;
    while i > lo && (v[i - 1] == ' ' || v[i - 1] == '\t')
        invariant
            lo <= i <= hi <= v@.len(),
            s == v@.subrange(lo as int, hi as int),
            forall|j: int| i - lo <= j < s.len() ==> is_blank(s[j]),
        decreases i,
    {
        assert(is_blank(s[i - 1 - lo]));
        i = i - 1;
    }
    proof {
        let tl = trimmed_len(s);
        if i > lo {
            assert(!is_blank(s[i - lo - 1]));
        }
        if tl < i - lo {
            assert(is_blank(s[i - lo - 1]));
        }
        if tl > i - lo {
            assert(is_blank(s[tl - 1]));
        }
    }
    i
}

/// The index of the `n`-th occurrence (1-based) of `c` in `s`, or `-1`.
pub open spec fn nth_index(s: Seq<char>, c: char, n: nat) -> int
    decreases n,
{
    if n == 0 {
        -1
    } else {
        let f = first_index(s, c);
        if f < 0 {
            -1
        } else if n == 1 {
            f
        } else {
            let r = nth_index(s.skip(f + 1), c, (n - 1) as nat);
            if r < 0 {
                -1
            } else {
                f + 1 + r
            }
        }
    }
}

pub proof fn lemma_nth_index_bounds(s: Seq<char>, c: char, n: nat)
    requires
        n >= 1,
    ensures
        nth_index(s, c, n) < s.len(),
        nth_index(s, c, n) >= 0 ==> s[nth_index(s, c, n)] == c,
    decreases n,
{
    lemma_first_index(s, c);
    let f = first_index(s, c);
    if f >= 0 && n > 1 {
        lemma_nth_index_bounds(s.skip(f + 1), c, (n - 1) as nat);
    }
}

/// Finds the `n`-th occurrence (1-based) of `c` within `v[lo..hi]`.
pub fn find_nth(v: &Vec<char>, lo: usize, hi: usize, c: char, n: u32) -> (r: Option<usize>)
    requires
        lo <= hi <= v@.len(),
        n >= 1,
    ensures
        ({
            let k = nth_index(v@.subrange(lo as int, hi as int), c, n as nat);
            match r {
                Some(i) => k == i - lo && lo <= i < hi,
                None => k == -1,
            }
        }),
    decreases n,
{
    let ghost s = v@.subrange(lo as int, hi as int);
    match find_char(v, lo, hi, c) {
        None => None,
        Some(f) => {
            if n == 1 {
                Some(f)
            } else {
                assert(s.skip(f - lo + 1) =~= v@.subrange(f as int + 1, hi as int));
                match find_nth(v, f + 1, hi, c, n - 1) {
                    None => None,
                    Some(i) => Some(i),
                }
            }
        },
    }
}

/// Copies `v[lo..hi]` into a fresh vector.
pub fn subvec(v: &Vec<char>, lo: usize, hi: usize) -> (r: Vec<char>)
    requires
        lo <= hi <= v@.len(),
    ensures
        r@ == v@.subrange(lo as int, hi as int),
{
    let mut r: Vec<char> = Vec::new();
    let mut i: usize = lo;
    while i < hi
        invariant
            lo <= i <= hi <= v@.len(),
            r@ =~= v@.subrange(lo as int, i as int),
        decreases hi - i,
    {
        r.push(v[i]);
        i = i + 1;
        assert(r@ =~= v@.subrange(lo as int, i as int));
    }
    r
}

/// Collects the characters of a string slice into a vector.
pub fn chars_of(s: &str) -> (r: Vec<char>)
    ensures
        r@ == s@,
{
    let n = s.unicode_len();
    let mut r: Vec<char> = Vec::new();
    let mut i: usize = 0;
    while i < n
        invariant
            i <= n,
            n == s@.len(),
            r@ == s@.take(i as int),
        decreases n - i,
    {
        let c = s.get_char(i);
        r.push(c);
        i = i + 1;
        assert(r@ =~= s@.take(i as int));
    }
    assert(s@.take(n as int) =~= s@);
    r
}

/// Builds a `String` from a sequence of characters.
///
/// Relies on `String: FromIterator<char>` from std: collecting characters
/// yields the string of exactly those characters in order.
#[verifier::external_body]
pub fn string_from_chars(v: &Vec<char>) -> (r: String)
    ensures
        r@ == v@,
{
    v.iter().collect()
}

/// The digit character for a value below ten.
pub open spec fn digit_char(d: int) -> char {
    if d == 0 {
        '0'
    } else if d == 1 {
        '1'
    } else if d == 2 {
        '2'
    } else if d == 3 {
        '3'
    } else if d == 4 {
        '4'
    } else if d == 5 {
        '5'
    } else if d == 6 {
        '6'
    } else if d == 7 {
        '7'
    } else if d == 8 {
        '8'
    } else {
        '9'
    }
}

/// The decimal numeral of a nonnegative integer, without leading zeros.
pub open spec fn dec_str(n: int) -> Seq<char>
    decreases n,
{
    if n < 10 {
        seq![digit_char(n)]
    } else {
        dec_str(n / 10).push(digit_char(n % 10))
    }
}

fn digit_str(d: u64) -> (r: &'static str)
    requires
        d < 10,
    ensures
        r@ =~= seq![digit_char(d as int)],
{
    proof {
        reveal_strlit("0");
        reveal_strlit("1");
        reveal_strlit("2");
        reveal_strlit("3");
        reveal_strlit("4");
        reveal_strlit("5");
        reveal_strlit("6");
        reveal_strlit("7");
        reveal_strlit("8");
        reveal_strlit("9");
    }
    match d {
        0 => "0",
        1 => "1",
        2 => "2",
        3 => "3",
        4 => "4",
        5 => "5",
        6 => "6",
        7 => "7",
        8 => "8",
        _ => "9",
    }
}

/// Renders `n` as its decimal numeral.
pub fn u64_to_string(n: u64) -> (r: String)
    ensures
        r@ == dec_str(n as int),
    decreases n,
{
    if n < 10 {
        String::from_str(digit_str(n))
    } else {
        let mut s = u64_to_string(n / 10);
        let d = digit_str(n % 10);
        s.append(d);
        assert(s@ =~= dec_str(n as int));
        s
    }
}

} // verus!
