//! Small verified string utilities: equality, trimming, decimal parsing
//! and decimal formatting.

use vstd::prelude::*;
use vstd::string::StrSliceExecFns;

verus! {

/// The whitespace characters that `trim` removes.
pub open spec fn is_space(c: char) -> bool {
    c == ' ' || c == '\t' || c == '\n' || c == '\r'
}

/// `s` without its leading whitespace.
pub open spec fn trim_front(s: Seq<char>) -> Seq<char>
    decreases s.len(),
{
    if s.len() > 0 && is_space(s[0]) {
        trim_front(s.skip(1))
    } else {
        s
    }
}

/// `s` without its trailing whitespace.
pub open spec fn trim_back(s: Seq<char>) -> Seq<char>
    decreases s.len(),
{
    if s.len() > 0 && is_space(s.last()) {
        trim_back(s.drop_last())
    } else {
        s
    }
}

/// `s` without leading and trailing whitespace.
pub open spec fn spec_trim(s: Seq<char>) -> Seq<char> {
    trim_back(trim_front(s))
}

/// Whether two string slices hold the same characters.
pub fn str_eq(a: &str, b: &str) -> (r: bool)
    ensures
        r == (a@ == b@),
{
    let sa = a.to_owned();
    let sb = b.to_owned();
    sa.eq(&sb)
}

fn is_space_char(c: char) -> (r: bool)
    ensures
        r == is_space(c),
{
    c == ' ' || c == '\t' || c == '\n' || c == '\r'
}

proof fn lemma_trim_front_step(s: Seq<char>, i: int)
    requires
        0 <= i < s.len(),
        forall|j: int| 0 <= j < i ==> is_space(s[j]),
    ensures
        trim_front(s) == if is_space(s[i]) {
            trim_front(s.skip(i + 1))
        } else {
            s.skip(i)
        },
    decreases i,
{
    if i == 0 {
        assert(s.skip(0) =~= s);
    } else {
        assert(is_space(s[0]));
        lemma_trim_front_step(s.skip(1), i - 1);
        assert(s.skip(1).skip(i) =~= s.skip(i + 1));
        assert(s.skip(1).skip(i - 1) =~= s.skip(i));
        assert(s.skip(1)[i - 1] == s[i]);
    }
}

proof fn lemma_trim_back_step(s: Seq<char>, i: int)
    requires
        0 <= i < s.len(),
        forall|j: int| i < j < s.len() ==> is_space(s[j]),
    ensures
        trim_back(s) == if is_space(s[i]) {
            trim_back(s.take(i))
        } else {
            s.take(i + 1)
        },
    decreases s.len() - i,
{
    if i == s.len() - 1 {
        assert(s.take(s.len() as int) =~= s);
        assert(s.drop_last() =~= s.take(s.len() - 1));
    } else {
        assert(is_space(s.last()));
        lemma_trim_back_step(s.drop_last(), i);
        assert(s.drop_last() =~= s.take(s.len() - 1));
        assert(s.take(s.len() - 1).take(i) =~= s.take(i));
        assert(s.take(s.len() - 1).take(i + 1) =~= s.take(i + 1));
        assert(s.take(s.len() - 1)[i] == s[i]);
    }
}

proof fn lemma_trim_front_all_space(s: Seq<char>)
    requires
        forall|j: int| 0 <= j < s.len() ==> is_space(s[j]),
    ensures
        trim_front(s) == Seq::<char>::empty(),
    decreases s.len(),
{
    if s.len() == 0 {
        assert(s =~= Seq::<char>::empty());
    } else {
        lemma_trim_front_all_space(s.skip(1));
    }
}

/// `s` with leading and trailing whitespace removed.
pub fn trim(s: &str) -> (r: &str)
    ensures
        r@ == spec_trim(s@),
{
    let len = s.unicode_len();
    let mut start: usize = 0;
    while start < len && is_space_char(s.get_char(start))
        invariant
            len == s@.len(),
            start <= len,
            forall|j: int| 0 <= j < start ==> is_space(s@[j]),
        decreases len - start,
    {
        start = start + 1;
    }
    if start == len {
        proof {
            lemma_trim_front_all_space(s@);
            reveal_strlit("");
            assert(""@ =~= Seq::<char>::empty());
        }
        return "";
    }
    // `start` is the first non-space index.
    proof {
        lemma_trim_front_step(s@, start as int);
        assert(trim_front(s@) == s@.skip(start as int));
    }
    let mut end: usize = len;
    while end > start + 1 && is_space_char(s.get_char(end - 1))
        invariant
            len == s@.len(),
            start < end <= len,
            !is_space(s@[start as int]),
            forall|j: int| end <= j < len ==> is_space(s@[j]),
        decreases end,
    {
        end = end - 1;
    }
    // `end - 1` is the last non-space index.
    let r = s.substring_char(start, end);
    proof {
        let t = trim_front(s@);
        assert(t =~= s@.skip(start as int));
        if end < len {
            assert(is_space(s@[end as int]));
            assert(!is_space(s@[end - 1]));
        }
        assert(forall|k: int|
            end - 1 - start < k < t.len() ==> is_space(#[trigger] t[k])) by {
            assert(forall|k: int|
                end - 1 - start < k < t.len() ==> #[trigger] t[k] == s@[start + k]);
        }
        assert(t[end - 1 - start] == s@[end - 1]);
        assert(!is_space(t[end - 1 - start]));
        lemma_trim_back_step(t, end - 1 - start);
        assert(t.take(end - start) =~= s@.subrange(start as int, end as int));
    }
    r
}

/// Index of the first occurrence of `c` in `s`, if any.
pub fn find_char(s: &str, c: char) -> (r: Option<usize>)
    ensures
        match r {
            Some(i) => i < s@.len() && s@[i as int] == c && forall|j: int|
                0 <= j < i ==> s@[j] != c,
            None => forall|j: int| 0 <= j < s@.len() ==> s@[j] != c,
        },
{
    let len = s.unicode_len();
    let mut i: usize = 0;
    while i < len
        invariant
            len == s@.len(),
            i <= len,
            forall|j: int| 0 <= j < i ==> s@[j] != c,
        decreases len - i,
    {
        if s.get_char(i) == c {
            return Some(i);
        }
        i = i + 1;
    }
    None
}

/// The numeric value of a decimal digit character, or -1 for any other
/// character.
pub open spec fn digit_of(c: char) -> int {
    if c == '0' {
        0
    } else if c == '1' {
        1
    } else if c == '2' {
        2
    } else if c == '3' {
        3
    } else if c == '4' {
        4
    } else if c == '5' {
        5
    } else if c == '6' {
        6
    } else if c == '7' {
        7
    } else if c == '8' {
        8
    } else if c == '9' {
        9
    } else {
        -1
    }
}

pub open spec fn is_digit(c: char) -> bool {
    digit_of(c) >= 0
}

/// The value of a digit string read as a decimal number.
pub open spec fn digits_val(s: Seq<char>) -> int
    decreases s.len(),
{
    if s.len() == 0 {
        0
    } else {
        digits_val(s.drop_last()) * 10 + digit_of(s.last())
    }
}

/// `s` without one leading `+` sign, if it has one.
pub open spec fn strip_plus(s: Seq<char>) -> Seq<char> {
    if s.len() > 0 && s[0] == '+' {
        s.skip(1)
    } else {
        s
    }
}

/// What parsing a plain digit string returns: the value when `body` is one
/// or more digits whose value fits in a u64, and nothing otherwise.
pub open spec fn dec_parse_digits(body: Seq<char>) -> Option<u64> {
    if body.len() > 0 && (forall|i: int| 0 <= i < body.len() ==> is_digit(body[i]))
        && digits_val(body) <= u64::MAX {
        Some(digits_val(body) as u64)
    } else {
        None
    }
}

/// What parsing an unsigned decimal number returns: the value when `s` is an
/// optional `+` followed by one or more digits and the value fits in a u64,
/// and nothing otherwise.
pub open spec fn dec_parse(s: Seq<char>) -> Option<u64> {
    dec_parse_digits(strip_plus(s))
}

fn digit_value(c: char) -> (r: Option<u64>)
    ensures
        r == if is_digit(c) {
            Some(digit_of(c) as u64)
        } else {
            None::<u64>
        },
{
    match c {
        '0' => Some(0),
        '1' => Some(1),
        '2' => Some(2),
        '3' => Some(3),
        '4' => Some(4),
        '5' => Some(5),
        '6' => Some(6),
        '7' => Some(7),
        '8' => Some(8),
        '9' => Some(9),
        _ => None,
    }
}

proof fn lemma_digits_val_nonneg(s: Seq<char>)
    requires
        forall|i: int| 0 <= i < s.len() ==> is_digit(s[i]),
    ensures
        digits_val(s) >= 0,
    decreases s.len(),
{
    if s.len() > 0 {
        lemma_digits_val_nonneg(s.drop_last());
    }
}

proof fn lemma_digits_val_prefix_grows(s: Seq<char>, i: int)
    requires
        forall|k: int| 0 <= k < s.len() ==> is_digit(s[k]),
        0 <= i <= s.len(),
    ensures
        digits_val(s) >= digits_val(s.take(i)),
    decreases s.len() - i,
{
    if i == s.len() {
        assert(s.take(i) =~= s);
    } else {
        lemma_digits_val_prefix_grows(s, i + 1);
        assert(s.take(i + 1).drop_last() =~= s.take(i));
        assert(s.take(i + 1).last() == s[i]);
        lemma_digits_val_nonneg(s.take(i));
    }
}

/// Parse an unsigned decimal number, returning nothing on any malformed or
/// out-of-range input.
pub fn parse_u64(s: &str) -> (r: Option<u64>)
    ensures
        r == dec_parse(s@),
{
    let len = s.unicode_len();
    let start: usize = if len > 0 && s.get_char(0) == '+' {
        1
    } else {
        0
    };
    let ghost body = strip_plus(s@);
    proof {
        assert(forall|k: int| 0 <= k < body.len() ==> body[k] == s@[k + start]);
    }
    if start == len {
        return None;
    }
    let mut acc: u64 = 0;
    let mut i: usize = start;
    while i < len
        invariant
            len == s@.len(),
            start <= i <= len,
            start <= 1,
            body == strip_plus(s@),
            body.len() == len - start,
            forall|k: int| 0 <= k < body.len() ==> body[k] == s@[k + start],
            forall|k: int| 0 <= k < i - start ==> is_digit(body[k]),
            acc == digits_val(body.take(i - start)),
        decreases len - i,
    {
        let c = s.get_char(i);
        proof {
            assert(body[i - start] == c);
        }
        let d = match digit_value(c) {
            Some(d) => d,
            None => {
                proof {
                    assert(!is_digit(body[i - start]));
                    assert(dec_parse_digits(body) == None::<u64>);
                }
                return None;
            },
        };
        proof {
            assert(body.take(i + 1 - start).drop_last() =~= body.take(i - start));
            assert(body.take(i + 1 - start).last() == body[i - start]);
        }
        if acc > (u64::MAX - d) / 10 {
            proof {
                assert(digits_val(body.take(i + 1 - start)) == acc * 10 + d);
                assert(acc * 10 + d > u64::MAX) by (nonlinear_arith)
                    requires
                        acc > (u64::MAX - d) / 10,
                        0 <= d <= 9,
                ;
                if forall|k: int| 0 <= k < body.len() ==> is_digit(#[trigger] body[k]) {
                    lemma_digits_val_prefix_grows(body, i + 1 - start);
                    assert(body.take(body.len() as int) =~= body);
                }
                assert(dec_parse_digits(body) == None::<u64>);
            }
            return None;
        }
        proof {
            assert(acc * 10 + d <= u64::MAX) by (nonlinear_arith)
                requires
                    acc <= (u64::MAX - d) / 10,
                    0 <= d <= 9,
            ;
        }
        acc = acc * 10 + d;
        i = i + 1;
    }
    proof {
        assert(body.take(body.len() as int) =~= body);
        lemma_digits_val_nonneg(body);
        assert(dec_parse_digits(body) == Some(acc));
    }
    Some(acc)
}

/// The character for a decimal digit value.
pub open spec fn digit_char(d: int) -> char {
    if d == 0 {
        '0'
    } else if d == 1 {
        '1'
    } else if d == 2 {
        '2'
    } else if d == 3 {
        '3'
    } else if d == 4 {
        '4'
    } else if d == 5 {
        '5'
    } else if d == 6 {
        '6'
    } else if d == 7 {
        '7'
    } else if d == 8 {
        '8'
    } else {
        '9'
    }
}

/// The decimal representation of `n`, without leading zeros (except for the
/// number 0 itself).
pub open spec fn dec_digits(n: nat) -> Seq<char>
    decreases n,
{
    if n < 10 {
        seq![digit_char(n as int)]
    } else {
        dec_digits(n / 10) + seq![digit_char((n % 10) as int)]
    }
}

fn digit_str(d: u64) -> (r: &'static str)
    requires
        d < 10,
    ensures
        r@ == seq![digit_char(d as int)],
{
    proof {
        reveal_strlit("0");
        reveal_strlit("1");
        reveal_strlit("2");
        reveal_strlit("3");
        reveal_strlit("4");
        reveal_strlit("5");
        reveal_strlit("6");
        reveal_strlit("7");
        reveal_strlit("8");
        reveal_strlit("9");
    }
    let r = if d == 0 {
        "0"
    } else if d == 1 {
        "1"
    } else if d == 2 {
        "2"
    } else if d == 3 {
        "3"
    } else if d == 4 {
        "4"
    } else if d == 5 {
        "5"
    } else if d == 6 {
        "6"
    } else if d == 7 {
        "7"
    } else if d == 8 {
        "8"
    } else {
        "9"
    };
    proof {
        assert(r@ =~= seq![digit_char(d as int)]);
    }
    r
}

proof fn lemma_dec_digits_props(n: nat)
    ensures
        dec_digits(n).len() >= 1,
        forall|i: int| 0 <= i < dec_digits(n).len() ==> is_digit(#[trigger] dec_digits(n)[i]),
        digits_val(dec_digits(n)) == n,
    decreases n,
{
    if n < 10 {
        assert(dec_digits(n) == seq![digit_char(n as int)]);
        assert(dec_digits(n).len() == 1);
        assert(dec_digits(n).last() == digit_char(n as int));
        assert(dec_digits(n).drop_last() =~= Seq::<char>::empty());
        assert(digits_val(dec_digits(n).drop_last()) == 0);
        assert(digit_of(digit_char(n as int)) == n);
        assert(digits_val(dec_digits(n)) == digits_val(dec_digits(n).drop_last()) * 10 + digit_of(
            dec_digits(n).last(),
        ));
    } else {
        lemma_dec_digits_props(n / 10);
        assert(dec_digits(n).drop_last() =~= dec_digits(n / 10));
        assert(dec_digits(n).last() == digit_char((n % 10) as int));
        assert(digit_of(digit_char((n % 10) as int)) == n % 10);
        assert(forall|i: int|
            0 <= i < dec_digits(n).len() - 1 ==> #[trigger] dec_digits(n)[i] == dec_digits(
                n / 10,
            )[i]);
        assert(dec_digits(n)[dec_digits(n).len() - 1] == digit_char((n % 10) as int));
        assert(forall|i: int|
            0 <= i < dec_digits(n).len() ==> is_digit(#[trigger] dec_digits(n)[i]));
        assert(digits_val(dec_digits(n).drop_last()) == n / 10);
        assert(digits_val(dec_digits(n)) == digits_val(dec_digits(n).drop_last()) * 10 + digit_of(
            dec_digits(n).last(),
        ));
        assert(digits_val(dec_digits(n)) == (n / 10) * 10 + n % 10);
        assert((n / 10) * 10 + n % 10 == n) by (nonlinear_arith);
    }
}

/// Law: the decimal formatter and parser agree; parsing the decimal
/// representation of any value yields that value back.
pub proof fn lemma_dec_round_trip(n: u64)
    ensures
        dec_parse(dec_digits(n as nat)) == Some(n),
{
    let s = dec_digits(n as nat);
    lemma_dec_digits_props(n as nat);
    assert(is_digit(s[0]));
    assert(s[0] != '+');
    assert(strip_plus(s) == s);
}

/// The decimal representation of `n` as a string.
pub fn dec_string(n: u64) -> (r: String)
    ensures
        r@ == dec_digits(n as nat),
    decreases n,
{
    if n < 10 {
        digit_str(n).to_owned()
    } else {
        let mut s = dec_string(n / 10);
        s.append(digit_str(n % 10));
        proof {
            assert(s@ =~= dec_digits((n as nat) / 10) + seq![digit_char((n % 10) as int)]);
        }
        s
    }
}

} // verus!
