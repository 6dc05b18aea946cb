//! Small verified helpers over strings and character sequences that the
//! extractor's attribute parsers build on.

use vstd::prelude::*;

verus! {

/// Collects the characters of a string slice into a vector.
pub fn chars_of(s: &str) -> (v: Vec<char>)
    ensures
        v@ == s@,
{
    let n = s.unicode_len();
    let mut v: Vec<char> = Vec::new();
    let mut i: usize = 0;
    while i < n
        invariant
            i <= n,
            n == s@.len(),
            v@ == s@.subrange(0, i as int),
        decreases n - i,
    {
        v.push(s.get_char(i));
        proof {
            assert(v@ =~= s@.subrange(0, i + 1));
        }
        i = i + 1;
    }
    proof {
        assert(s@.subrange(0, n as int) =~= s@);
    }
    v
}

/// Compares two string slices character by character.
pub fn str_eq(a: &str, b: &str) -> (r: bool)
    ensures
        r == (a@ == b@),
{
    let na = a.unicode_len();
    let nb = b.unicode_len();
    if na != nb {
        return false;
    }
    let mut i: usize = 0;
    while i < na
        invariant
            i <= na,
            na == a@.len(),
            na == b@.len(),
            forall|j: int| 0 <= j < i ==> a@[j] == b@[j],
        decreases na - i,
    {
        if a.get_char(i) != b.get_char(i) {
            return false;
        }
        i = i + 1;
    }
    proof {
        assert(a@ =~= b@);
    }
    true
}

/// Compares two character vectors.
pub fn vec_eq(a: &Vec<char>, b: &Vec<char>) -> (r: bool)
    ensures
        r == (a@ == b@),
{
    if a.len() != b.len() {
        return false;
    }
    let mut i: usize = 0;
    while i < a.len()
        invariant
            i <= a@.len(),
            a@.len() == b@.len(),
            forall|j: int| 0 <= j < i ==> a@[j] == b@[j],
        decreases a@.len() - i,
    {
        if a[i] != b[i] {
            return false;
        }
        i = i + 1;
    }
    proof {
        assert(a@ =~= b@);
    }
    true
}

/// Whether a character is one of the whitespace characters that separate
/// attribute tokens.
pub open spec fn is_space(c: char) -> bool {
    c == ' ' || c == '\t' || c == '\n' || c == '\r'
}

/// Tests a character for token-separating whitespace.
pub fn char_is_space(c: char) -> (r: bool)
    ensures
        r == is_space(c),
{
    c == ' ' || c == '\t' || c == '\n' || c == '\r'
}

/// Whether a character is a decimal digit.
pub open spec fn is_digit(c: char) -> bool {
    c == '0' || c == '1' || c == '2' || c == '3' || c == '4' || c == '5' || c == '6' || c == '7'
        || c == '8' || c == '9'
}

/// The numeric value of a decimal digit.
pub open spec fn digit_val(c: char) -> int {
    if c == '0' {
        0
    } else if c == '1' {
        1
    } else if c == '2' {
        2
    } else if c == '3' {
        3
    } else if c == '4' {
        4
    } else if c == '5' {
        5
    } else if c == '6' {
        6
    } else if c == '7' {
        7
    } else if c == '8' {
        8
    } else if c == '9' {
        9
    } else {
        10
    }
}

/// The numeric value of a decimal digit, 10 on any other character.
pub fn digit_value(c: char) -> (r: u8)
    ensures
        r == digit_val(c),
        is_digit(c) <==> r < 10,
{
    match c {
        '0' => 0u8,
        '1' => 1u8,
        '2' => 2u8,
        '3' => 3u8,
        '4' => 4u8,
        '5' => 5u8,
        '6' => 6u8,
        '7' => 7u8,
        '8' => 8u8,
        '9' => 9u8,
        _ => 10u8,
    }
}

/// Copies the characters of `v` between `a` and `b`.
pub fn copy_range(v: &Vec<char>, a: usize, b: usize) -> (out: Vec<char>)
    requires
        a <= b <= v@.len(),
    ensures
        out@ == v@.subrange(a as int, b as int),
{
    let mut out: Vec<char> = Vec::new();
    let mut i: usize = a;
    while i < b
        invariant
            a <= i <= b <= v@.len(),
            out@ == v@.subrange(a as int, i as int),
        decreases b - i,
    {
        out.push(v[i]);
        proof {
            assert(out@ =~= v@.subrange(a as int, i as int + 1));
        }
        i = i + 1;
    }
    out
}

/// The first position of `c` in `v` at or after `i`, or the length of `v`
/// if `c` does not occur there.
pub open spec fn spec_find(v: Seq<char>, c: char, i: int) -> int
    decreases v.len() - i,
{
    if i < 0 || i >= v.len() {
        v.len() as int
    } else if v[i] == c {
        i
    } else {
        spec_find(v, c, i + 1)
    }
}

/// Finds the first position of `c` at or after `from`.
pub fn find_from(v: &Vec<char>, c: char, from: usize) -> (idx: usize)
    requires
        from <= v@.len(),
    ensures
        idx == spec_find(v@, c, from as int),
        from <= idx <= v@.len(),
        idx < v@.len() ==> v@[idx as int] == c,
{
    let mut i: usize = from;
    while i < v.len()
        invariant
            from <= i <= v@.len(),
            spec_find(v@, c, from as int) == spec_find(v@, c, i as int),
        decreases v@.len() - i,
    {
        if v[i] == c {
            return i;
        }
        i = i + 1;
    }
    i
}

/// `v` with leading token-separating whitespace removed.
pub open spec fn spec_trim_front(v: Seq<char>) -> Seq<char>
    decreases v.len(),
{
    if v.len() > 0 && is_space(v[0]) {
        spec_trim_front(v.drop_first())
    } else {
        v
    }
}

/// `v` with trailing token-separating whitespace removed.
pub open spec fn spec_trim_back(v: Seq<char>) -> Seq<char>
    decreases v.len(),
{
    if v.len() > 0 && is_space(v.last()) {
        spec_trim_back(v.drop_last())
    } else {
        v
    }
}

/// `v` with whitespace removed from both ends.
pub open spec fn spec_trim(v: Seq<char>) -> Seq<char> {
    spec_trim_back(spec_trim_front(v))
}

/// Removes whitespace from both ends of a character vector.
pub fn trim(v: &Vec<char>) -> (out: Vec<char>)
    ensures
        out@ == spec_trim(v@),
{
    let mut i: usize = 0;
    proof {
        assert(v@.subrange(0, v@.len() as int) =~= v@);
    }
    while i < v.len() && (v[i] == ' ' || v[i] == '\t' || v[i] == '\n' || v[i] == '\r')
        invariant
            i <= v@.len(),
            spec_trim_front(v@) == spec_trim_front(v@.subrange(i as int, v@.len() as int)),
        decreases v@.len() - i,
    {
        proof {
            assert(v@.subrange(i as int, v@.len() as int).drop_first() =~= v@.subrange(
                i as int + 1,
                v@.len() as int,
            ));
        }
        i = i + 1;
    }
    proof {
        assert(spec_trim_front(v@) == v@.subrange(i as int, v@.len() as int));
    }
    let mut j: usize = v.len();
    while j > i && (v[j - 1] == ' ' || v[j - 1] == '\t' || v[j - 1] == '\n' || v[j - 1] == '\r')
        invariant
            i <= j <= v@.len(),
            spec_trim_front(v@) == v@.subrange(i as int, v@.len() as int),
            spec_trim(v@) == spec_trim_back(v@.subrange(i as int, j as int)),
        decreases j,
    {
        proof {
            assert(v@.subrange(i as int, j as int).drop_last() =~= v@.subrange(
                i as int,
                j as int - 1,
            ));
        }
        j = j - 1;
    }
    proof {
        assert(spec_trim(v@) == v@.subrange(i as int, j as int));
    }
    copy_range(v, i, j)
}

/// The whitespace-separated tokens of `v` from position `i` on, with the
/// partial token `cur` already collected.
pub open spec fn spec_tokens_acc(v: Seq<char>, i: int, cur: Seq<char>) -> Seq<Seq<char>>
    decreases v.len() - i,
{
    if i < 0 || i >= v.len() {
        if cur.len() > 0 {
            seq![cur]
        } else {
            Seq::<Seq<char>>::empty()
        }
    } else if is_space(v[i]) {
        if cur.len() > 0 {
            seq![cur] + spec_tokens_acc(v, i + 1, Seq::<char>::empty())
        } else {
            spec_tokens_acc(v, i + 1, Seq::<char>::empty())
        }
    } else {
        spec_tokens_acc(v, i + 1, cur.push(v[i]))
    }
}

/// The whitespace-separated tokens of `v`.
pub open spec fn spec_tokens(v: Seq<char>) -> Seq<Seq<char>> {
    spec_tokens_acc(v, 0, Seq::<char>::empty())
}

/// Splits a character vector into its whitespace-separated tokens.
pub fn split_tokens(v: &Vec<char>) -> (out: Vec<Vec<char>>)
    ensures
        out.deep_view() == spec_tokens(v@),
{
    let mut out: Vec<Vec<char>> = Vec::new();
    let mut cur: Vec<char> = Vec::new();
    let mut i: usize = 0;
    proof {
        assert(out.deep_view() =~= Seq::<Seq<char>>::empty());
        assert(out.deep_view() + spec_tokens_acc(v@, 0, cur@) =~= spec_tokens_acc(v@, 0, cur@));
        assert(cur@ =~= Seq::<char>::empty());
    }
    while i < v.len()
        invariant
            i <= v@.len(),
            spec_tokens(v@) == out.deep_view() + spec_tokens_acc(v@, i as int, cur@),
        decreases v@.len() - i,
    {
        let c = v[i];
        if char_is_space(c) {
            proof {
                if cur@.len() == 0 {
                    assert(cur@ =~= Seq::<char>::empty());
                }
            }
            if cur.len() > 0 {
                let ghost old_out = out.deep_view();
                let ghost old_cur = cur@;
                out.push(cur);
                cur = Vec::new();
                proof {
                    assert(out.deep_view() =~~= old_out.push(old_cur));
                    assert(old_out + (seq![old_cur] + spec_tokens_acc(
                        v@,
                        i as int + 1,
                        Seq::<char>::empty(),
                    )) =~= out.deep_view() + spec_tokens_acc(
                        v@,
                        i as int + 1,
                        Seq::<char>::empty(),
                    ));
                }
            }
        } else {
            cur.push(c);
        }
        i = i + 1;
    }
    if cur.len() > 0 {
        let ghost old_out = out.deep_view();
        let ghost old_cur = cur@;
        out.push(cur);
        proof {
            assert(out.deep_view() =~~= old_out.push(old_cur));
            assert(old_out + seq![old_cur] =~= out.deep_view());
            assert(out.deep_view() =~= spec_tokens(v@));
        }
    } else {
        proof {
            assert(out.deep_view() + Seq::<Seq<char>>::empty() =~= out.deep_view());
        }
    }
    out
}

/// Whether `needle` occurs as a contiguous run inside `hay`.
pub open spec fn is_substring_of(needle: Seq<char>, hay: Seq<char>) -> bool {
    exists|k: int|
        0 <= k <= hay.len() - needle.len() && #[trigger] hay.subrange(k, k + needle.len())
            == needle
}

/// Searches `hay` for a contiguous occurrence of `needle`.
pub fn contains_seq(hay: &Vec<char>, needle: &Vec<char>) -> (r: bool)
    ensures
        r == is_substring_of(needle@, hay@),
{
    let n = needle.len();
    if n > hay.len() {
        return false;
    }
    let mut k: usize = 0;
    while k <= hay.len() - n
        invariant
            n == needle@.len(),
            n <= hay@.len(),
            hay@.len() <= usize::MAX,
            k <= hay@.len() - n + 1,
            forall|kk: int|
                0 <= kk < k ==> #[trigger] hay@.subrange(kk, kk + needle@.len()) != needle@,
        decreases hay@.len() - n - k + 1,
    {
        let mut m: usize = 0;
        let mut mism = false;
        while !mism && m < n
            invariant
                n == needle@.len(),
                k + n <= hay@.len(),
                hay@.len() <= usize::MAX,
                m <= n,
                forall|q: int| 0 <= q < m ==> hay@[k + q] == needle@[q],
                mism ==> m < n && hay@[k + m] != needle@[m as int],
            decreases 2 * (n - m) + (if mism {
                0int
            } else {
                1int
            }),
        {
            proof {
                assert(k + m < hay@.len());
            }
            if hay[k + m] != needle[m] {
                mism = true;
            } else {
                m = m + 1;
            }
        }
        if !mism {
            proof {
                assert(hay@.subrange(k as int, k as int + needle@.len()) =~= needle@);
            }
            return true;
        }
        proof {
            assert(hay@.subrange(k as int, k as int + needle@.len()) != needle@) by {
                assert(hay@.subrange(k as int, k as int + needle@.len())[m as int]
                    != needle@[m as int]);
            }
        }
        k = k + 1;
    }
    proof {
        assert(!is_substring_of(needle@, hay@)) by {
            assert(forall|kk: int|
                0 <= kk <= hay@.len() - needle@.len() ==> #[trigger] hay@.subrange(
                    kk,
                    kk + needle@.len(),
                ) != needle@);
        }
    }
    false
}

/// The numeric value of a run of decimal digits, most significant first.
pub open spec fn digits_val(v: Seq<char>) -> int
    decreases v.len(),
{
    if v.len() == 0 {
        0
    } else {
        digits_val(v.drop_last()) * 10 + digit_val(v.last())
    }
}

/// Whether every character of `v` is a decimal digit.
pub open spec fn all_digits(v: Seq<char>) -> bool {
    forall|i: int| 0 <= i < v.len() ==> is_digit(#[trigger] v[i])
}

/// The hundredths contributed by a fraction part: its first two digits,
/// the second taken as zero when absent.
pub open spec fn frac_centi(v: Seq<char>) -> int {
    if v.len() == 0 {
        0
    } else if v.len() == 1 {
        digit_val(v[0]) * 10
    } else {
        digit_val(v[0]) * 10 + digit_val(v[1])
    }
}

/// The value of a decimal percentage literal such as `87.5`, in hundredths
/// of a percent: an integer part of one to four digits, optionally
/// followed by a point and a digit fraction, of which the first two digits
/// are kept. Anything else is rejected.
pub open spec fn spec_percent_value(v: Seq<char>) -> Option<int> {
    let dot = spec_find(v, '.', 0);
    let ip = v.subrange(0, dot);
    let fp = if dot >= v.len() {
        Seq::<char>::empty()
    } else {
        v.subrange(dot + 1, v.len() as int)
    };
    if 1 <= ip.len() <= 4 && all_digits(ip) && all_digits(fp) {
        Some(digits_val(ip) * 100 + frac_centi(fp))
    } else {
        None
    }
}

/// Ten to the power `n`.
pub open spec fn ten_pow(n: int) -> int
    decreases n,
{
    if n <= 0 {
        1
    } else {
        10 * ten_pow(n - 1)
    }
}

/// The value of a digit run stays below ten to the power of its length.
proof fn lemma_digits_val_bound(v: Seq<char>)
    requires
        all_digits(v),
    ensures
        0 <= digits_val(v) < ten_pow(v.len() as int),
    decreases v.len(),
{
    if v.len() > 0 {
        assert(all_digits(v.drop_last())) by {
            assert(forall|i: int|
                0 <= i < v.len() - 1 ==> v.drop_last()[i] == #[trigger] v[i]);
        }
        lemma_digits_val_bound(v.drop_last());
        assert(is_digit(v[v.len() - 1]));
        assert(digit_val(v.last()) <= 9);
    }
}

/// The value of a digit run of at most four digits stays below ten
/// thousand.
proof fn lemma_digits_val_small(v: Seq<char>)
    requires
        all_digits(v),
        v.len() <= 4,
    ensures
        0 <= digits_val(v) < 10000,
{
    lemma_digits_val_bound(v);
    assert(ten_pow(0) == 1);
    assert(ten_pow(1) == 10);
    assert(ten_pow(2) == 100);
    assert(ten_pow(3) == 1000);
    assert(ten_pow(4) == 10000);
    assert(ten_pow(v.len() as int) <= 10000) by {
        if v.len() == 0 {
        } else if v.len() == 1 {
        } else if v.len() == 2 {
        } else if v.len() == 3 {
        } else {
            assert(v.len() == 4);
        }
    }
}

/// Parses a decimal percentage literal into hundredths of a percent.
pub fn parse_percent_value(v: &Vec<char>) -> (r: Option<u32>)
    ensures
        spec_percent_value(v@) matches Some(p) ==> r matches Some(c) && c as int == p,
        spec_percent_value(v@) is None ==> r is None,
        r matches Some(c) ==> c < 1000000,
{
    let dot = find_from(v, '.', 0);
    if dot < 1 || dot > 4 {
        return None;
    }
    let ghost ip = v@.subrange(0, dot as int);
    let mut acc: u32 = 0;
    let mut i: usize = 0;
    while i < dot
        invariant
            i <= dot,
            dot <= v@.len(),
            1 <= dot <= 4,
            dot as int == spec_find(v@, '.', 0),
            ip == v@.subrange(0, dot as int),
            all_digits(v@.subrange(0, i as int)),
            acc as int == digits_val(v@.subrange(0, i as int)),
            acc < 10000,
        decreases dot - i,
    {
        let d = digit_value(v[i]);
        if d >= 10 {
            proof {
                assert(!all_digits(ip)) by {
                    assert(!is_digit(ip[i as int]));
                }
                assert(spec_percent_value(v@) is None);
            }
            return None;
        }
        proof {
            assert(v@.subrange(0, i as int + 1).drop_last() =~= v@.subrange(0, i as int));
            assert(all_digits(v@.subrange(0, i as int + 1)));
            lemma_digits_val_small(v@.subrange(0, i as int + 1));
        }
        acc = acc * 10 + (d as u32);
        i = i + 1;
    }
    proof {
        assert(all_digits(ip));
        lemma_digits_val_small(ip);
    }
    let mut frac: u32 = 0;
    if dot + 1 < v.len() {
        let ghost fp = v@.subrange(dot as int + 1, v@.len() as int);
        let mut j: usize = dot + 1;
        while j < v.len()
            invariant
                dot as int + 1 <= j <= v@.len(),
                1 <= dot <= 4,
                dot as int == spec_find(v@, '.', 0),
                fp == v@.subrange(dot as int + 1, v@.len() as int),
                forall|q: int| dot + 1 <= q < j ==> is_digit(#[trigger] v@[q]),
            decreases v@.len() - j,
        {
            if digit_value(v[j]) >= 10 {
                proof {
                    assert(!all_digits(fp)) by {
                        assert(!is_digit(fp[j - (dot + 1)]));
                    }
                    assert(spec_percent_value(v@) is None);
                }
                return None;
            }
            j = j + 1;
        }
        proof {
            assert(all_digits(fp)) by {
                assert(forall|q: int|
                    0 <= q < fp.len() ==> fp[q] == #[trigger] v@[dot + 1 + q]);
            }
        }
        let first = digit_value(v[dot + 1]);
        if dot + 2 < v.len() {
            let second = digit_value(v[dot + 2]);
            frac = (first as u32) * 10 + (second as u32);
        } else {
            frac = (first as u32) * 10;
        }
        proof {
            assert(fp[0] == v@[dot as int + 1]);
            if dot + 2 < v@.len() {
                assert(fp[1] == v@[dot as int + 2]);
                assert(fp.len() >= 2);
            } else {
                assert(fp.len() == 1);
            }
            assert(frac as int == frac_centi(fp));
        }
    } else {
        proof {
            if (dot as int) < v@.len() {
                assert(v@.subrange(dot as int + 1, v@.len() as int).len() == 0);
                assert(frac_centi(v@.subrange(dot as int + 1, v@.len() as int)) == 0);
                assert(all_digits(v@.subrange(dot as int + 1, v@.len() as int)));
            }
        }
    }
    Some(acc * 100 + frac)
}

} // verus!
