//! Verified text utilities: equality, prefix and substring tests, finding a
//! character, and decimal formatting and parsing. The rest of the crate
//! states its contracts over `Seq<char>` views through the spec functions
//! here.

use vstd::prelude::*;

verus! {

/// `needle` occurs in `hay` starting at position `at`.
pub open spec fn match_at(hay: Seq<char>, needle: Seq<char>, at: int) -> bool {
    &&& 0 <= at
    &&& at + needle.len() <= hay.len()
    &&& forall|j: int| 0 <= j < needle.len() ==> hay[at + j] == needle[j]
}

/// `needle` occurs somewhere in `hay`.
pub open spec fn contains_seq(hay: Seq<char>, needle: Seq<char>) -> bool {
    exists|i: int| match_at(hay, needle, i)
}

/// Character-for-character equality of two string slices.
pub fn str_eq(a: &str, b: &str) -> (r: bool)
    ensures
        r <==> a@ == b@,
{
    let a_len = a.unicode_len();
    let b_len = b.unicode_len();
    if a_len != b_len {
        return false;
    }
    let mut i: usize = 0;
    while i < a_len
        invariant
            i <= a_len,
            a_len == a@.len(),
            a_len == b@.len(),
            forall|j: int| 0 <= j < i ==> a@[j] == b@[j],
        decreases a_len - i,
    {
        if a.get_char(i) != b.get_char(i) {
            return false;
        }
        i += 1;
    }
    proof {
        assert(a@ =~= b@);
    }
    true
}

/// Whether `s` starts with `prefix`.
pub fn starts_with(s: &str, prefix: &str) -> (r: bool)
    ensures
        r <==> prefix@.is_prefix_of(s@),
{
    let s_len = s.unicode_len();
    let p_len = prefix.unicode_len();
    if p_len > s_len {
        return false;
    }
    let mut i: usize = 0;
    while i < p_len
        invariant
            i <= p_len,
            p_len == prefix@.len(),
            p_len <= s@.len(),
            forall|j: int| 0 <= j < i ==> s@[j] == prefix@[j],
        decreases p_len - i,
    {
        if s.get_char(i) != prefix.get_char(i) {
            return false;
        }
        i += 1;
    }
    proof {
        assert(prefix@ =~= s@.subrange(0, prefix@.len() as int));
    }
    true
}

/// Whether `needle` occurs in `hay` as a contiguous run of characters.
pub fn contains_str(hay: &str, needle: &str) -> (r: bool)
    ensures
        r <==> contains_seq(hay@, needle@),
{
    let h_len = hay.unicode_len();
    let n_len = needle.unicode_len();
    if n_len > h_len {
        return false;
    }
    if n_len == 0 {
        proof {
            assert(match_at(hay@, needle@, 0));
        }
        return true;
    }
    let mut i: usize = 0;
    while i <= h_len - n_len
        invariant
            h_len == hay@.len(),
            n_len == needle@.len(),
            n_len <= h_len,
            1 <= n_len,
            i <= h_len - n_len + 1,
            forall|k: int| 0 <= k < i ==> !match_at(hay@, needle@, k),
        decreases h_len - n_len + 1 - i,
    {
        let mut j: usize = 0;
        let mut matched = true;
        while j < n_len
            invariant
                j <= n_len,
                h_len == hay@.len(),
                n_len == needle@.len(),
                i + n_len <= h_len,
                matched ==> forall|m: int| 0 <= m < j ==> hay@[i + m] == needle@[m],
                !matched ==> !match_at(hay@, needle@, i as int),
            decreases n_len - j,
        {
            if hay.get_char(i + j) != needle.get_char(j) {
                matched = false;
                proof {
                    assert(!match_at(hay@, needle@, i as int));
                }
                j = n_len;
            } else {
                j += 1;
            }
        }
        if matched {
            proof {
                assert(match_at(hay@, needle@, i as int));
            }
            return true;
        }
        i += 1;
    }
    proof {
        assert(forall|k: int| match_at(hay@, needle@, k) ==> 0 <= k <= hay@.len() - needle@.len());
    }
    false
}

/// The position of the first occurrence of `c` in `s`, if any.
pub fn find_char(s: &str, c: char) -> (r: Option<usize>)
    ensures
        match r {
            Some(i) => {
                &&& i < s@.len()
                &&& s@[i as int] == c
                &&& forall|j: int| 0 <= j < i ==> s@[j] != c
            },
            None => forall|j: int| 0 <= j < s@.len() ==> s@[j] != c,
        },
{
    let len = s.unicode_len();
    let mut i: usize = 0;
    while i < len
        invariant
            i <= len,
            len == s@.len(),
            forall|j: int| 0 <= j < i ==> s@[j] != c,
        decreases len - i,
    {
        if s.get_char(i) == c {
            return Some(i);
        }
        i += 1;
    }
    None
}

/// The position of the first occurrence of `c` in `s`, as a function.
pub open spec fn first_index(s: Seq<char>, c: char) -> Option<int>
    decreases s.len(),
{
    if s.len() == 0 {
        None
    } else if s[0] == c {
        Some(0)
    } else {
        match first_index(s.drop_first(), c) {
            Some(i) => Some(i + 1),
            None => None,
        }
    }
}

/// The position of a first occurrence determines `first_index`.
pub proof fn lemma_first_index_is(s: Seq<char>, c: char, i: int)
    requires
        0 <= i < s.len(),
        s[i] == c,
        forall|j: int| 0 <= j < i ==> s[j] != c,
    ensures
        first_index(s, c) == Some(i),
    decreases i,
{
    if i > 0 {
        lemma_first_index_is(s.drop_first(), c, i - 1);
    }
}

/// A character that never occurs has no first occurrence.
pub proof fn lemma_first_index_none(s: Seq<char>, c: char)
    requires
        forall|j: int| 0 <= j < s.len() ==> s[j] != c,
    ensures
        first_index(s, c) is None,
    decreases s.len(),
{
    if s.len() > 0 {
        lemma_first_index_none(s.drop_first(), c);
    }
}

/// A decimal digit.
pub open spec fn is_digit_char(c: char) -> bool {
    '0' <= c <= '9'
}

/// The numeric value of a decimal digit character.
pub open spec fn digit_val(c: char) -> nat {
    (c as nat - 48) as nat
}

/// The digit character for a value below ten.
pub open spec fn digit_char(d: nat) -> char {
    (48 + d) as char
}

/// Every character of `s` is a decimal digit.
pub open spec fn all_digits(s: Seq<char>) -> bool {
    forall|i: int| 0 <= i < s.len() ==> is_digit_char(s[i])
}

/// The number a digit string denotes, most significant digit first.
pub open spec fn dec_value(s: Seq<char>) -> nat
    decreases s.len(),
{
    if s.len() == 0 {
        0
    } else {
        dec_value(s.drop_last()) * 10 + digit_val(s.last())
    }
}

/// The canonical decimal spelling of a number: no leading zeros except for
/// the number zero itself.
pub open spec fn dec_rep(n: nat) -> Seq<char>
    decreases n,
{
    if n < 10 {
        seq![digit_char(n)]
    } else {
        dec_rep(n / 10).push(digit_char(n % 10))
    }
}

/// A digit value below ten maps to its digit character and back.
pub proof fn lemma_digit_char(n: nat)
    requires
        n < 10,
    ensures
        digit_char(n) as nat == 48 + n,
        is_digit_char(digit_char(n)),
        digit_val(digit_char(n)) == n,
{
}

/// The canonical spelling consists of digits and denotes the number it
/// spells.
pub proof fn lemma_dec_rep_value(n: nat)
    ensures
        all_digits(dec_rep(n)),
        dec_rep(n).len() >= 1,
        dec_value(dec_rep(n)) == n,
    decreases n,
{
    if n < 10 {
        lemma_digit_char(n);
        let s = dec_rep(n);
        assert(s =~= seq![digit_char(n)]);
        assert(s.drop_last() =~= Seq::<char>::empty());
        assert(dec_value(Seq::<char>::empty()) == 0);
        assert(s.last() == digit_char(n));
        assert(dec_value(s) == digit_val(digit_char(n)));
    } else {
        lemma_dec_rep_value(n / 10);
        lemma_digit_char(n % 10);
        let s = dec_rep(n / 10).push(digit_char(n % 10));
        assert(s.drop_last() =~= dec_rep(n / 10));
        assert(s.last() == digit_char(n % 10));
        assert(dec_value(s) == (n / 10) * 10 + n % 10);
        assert((n / 10) * 10 + n % 10 == n) by (nonlinear_arith);
        assert(forall|i: int|
            0 <= i < s.len() ==> is_digit_char(#[trigger] s[i])) by {
            assert(forall|i: int|
                0 <= i < dec_rep((n / 10) as nat).len() ==> is_digit_char(
                    #[trigger] dec_rep((n / 10) as nat)[i],
                ));
        }
    }
}

/// Extending a digit string on the right multiplies its value by ten and
/// adds the new digit.
pub proof fn lemma_dec_value_snoc(s: Seq<char>, c: char)
    ensures
        dec_value(s.push(c)) == dec_value(s) * 10 + digit_val(c),
{
    assert(s.push(c).drop_last() =~= s);
    assert(s.push(c).last() == c);
}

/// A longer digit prefix never denotes a smaller number.
pub proof fn lemma_dec_value_monotone(s: Seq<char>, i: int, j: int)
    requires
        0 <= i <= j <= s.len(),
    ensures
        dec_value(s.subrange(0, i)) <= dec_value(s.subrange(0, j)),
    decreases j - i,
{
    if i < j {
        let t = s.subrange(0, j - 1);
        assert(s.subrange(0, j) =~= t.push(s[j - 1]));
        lemma_dec_value_snoc(t, s[j - 1]);
        assert(dec_value(t) <= dec_value(t) * 10 + digit_val(s[j - 1])) by (nonlinear_arith);
        lemma_dec_value_monotone(s, i, j - 1);
    }
}

/// Parses a string of decimal digits. Returns the value exactly when the
/// string is non-empty, holds only digits, and denotes a number that fits
/// in 64 bits.
pub fn parse_u64(s: &str) -> (r: Option<u64>)
    ensures
        match r {
            Some(v) => {
                &&& s@.len() >= 1
                &&& all_digits(s@)
                &&& v == dec_value(s@)
            },
            None => s@.len() == 0 || !all_digits(s@) || dec_value(s@) > u64::MAX,
        },
{
    let len = s.unicode_len();
    if len == 0 {
        return None;
    }
    let mut acc: u64 = 0;
    let mut i: usize = 0;
    while i < len
        invariant
            i <= len,
            len == s@.len(),
            all_digits(s@.subrange(0, i as int)),
            acc == dec_value(s@.subrange(0, i as int)),
        decreases len - i,
    {
        let c = s.get_char(i);
        if c < '0' || c > '9' {
            return None;
        }
        let d: u32 = c as u32;
        let dv: u64 = (d - 48) as u64;
        proof {
            lemma_dec_value_snoc(s@.subrange(0, i as int), c);
            assert(s@.subrange(0, i as int).push(c) =~= s@.subrange(0, i + 1));
        }
        let next = match acc.checked_mul(10) {
            Some(m) => m.checked_add(dv),
            None => None,
        };
        match next {
            Some(n) => {
                acc = n;
            },
            None => {
                proof {
                    lemma_dec_value_monotone(s@, i + 1, s@.len() as int);
                    assert(s@.subrange(0, s@.len() as int) =~= s@);
                }
                return None;
            },
        }
        i += 1;
    }
    proof {
        assert(s@.subrange(0, s@.len() as int) =~= s@);
    }
    Some(acc)
}

/// The one-character string for a digit value.
pub fn digit_str(d: u8) -> (s: &'static str)
    requires
        d < 10,
    ensures
        s@ =~= seq![digit_char(d as nat)],
{
    proof {
        reveal_strlit("0");
        reveal_strlit("1");
        reveal_strlit("2");
        reveal_strlit("3");
        reveal_strlit("4");
        reveal_strlit("5");
        reveal_strlit("6");
        reveal_strlit("7");
        reveal_strlit("8");
        reveal_strlit("9");
    }
    match d {
        0 => "0",
        1 => "1",
        2 => "2",
        3 => "3",
        4 => "4",
        5 => "5",
        6 => "6",
        7 => "7",
        8 => "8",
        _ => "9",
    }
}

/// Formats a number in decimal, most significant digit first, without
/// leading zeros.
pub fn format_u64(v: u64) -> (s: String)
    ensures
        s@ == dec_rep(v as nat),
    decreases v,
{
    if v < 10 {
        let s = String::from_str(digit_str(v as u8));
        proof {
            assert(s@ =~= dec_rep(v as nat));
        }
        s
    } else {
        let mut s = format_u64(v / 10);
        s.append(digit_str((v % 10) as u8));
        proof {
            assert(s@ =~= dec_rep(v as nat));
        }
        s
    }
}

/// The decimal spelling of a signed number: a minus sign ahead of the
/// magnitude when it is negative.
pub open spec fn dec_rep_i(v: int) -> Seq<char> {
    if v >= 0 {
        dec_rep(v as nat)
    } else {
        "-"@ + dec_rep((-v) as nat)
    }
}

/// Formats a signed number in decimal.
pub fn format_i64(v: i64) -> (s: String)
    ensures
        s@ == dec_rep_i(v as int),
{
    if v >= 0 {
        format_u64(v as u64)
    } else {
        let magnitude: u64 = ((-(v + 1)) as u64) + 1;
        proof {
            assert(magnitude == -(v as int));
        }
        let mut s = String::from_str("-");
        let digits = format_u64(magnitude);
        s.append(digits.as_str());
        proof {
            assert(s@ =~= dec_rep_i(v as int));
        }
        s
    }
}

/// Parsing the canonical spelling of a number gives the number back.
pub proof fn lemma_format_parse_round_trip(v: u64)
    ensures
        all_digits(dec_rep(v as nat)),
        dec_rep(v as nat).len() >= 1,
        dec_value(dec_rep(v as nat)) == v,
{
    lemma_dec_rep_value(v as nat);
}

} // verus!
