//! Character-level text utilities: conversions between strings and character
//! vectors, searching, trimming, and decimal parsing.

use vstd::prelude::*;

verus! {

/// Relies on `str::chars` and `Iterator::collect`: the characters of the
/// string, in order.
#[verifier::external_body]
pub(crate) fn chars_of(s: &str) -> (r: Vec<char>)
    ensures
        r@ == s@,
{
    s.chars().collect()
}

/// Relies on `Iterator::collect` for `String`: the collected string holds
/// exactly the given characters, in order.
#[verifier::external_body]
pub(crate) fn string_from_chars(cs: &Vec<char>) -> (r: String)
    ensures
        r@ == cs@,
{
    cs.iter().collect()
}

/// Copy of `v[i..j]` as its own vector.
pub fn subvec(v: &Vec<char>, i: usize, j: usize) -> (r: Vec<char>)
    requires
        i <= j <= v@.len(),
    ensures
        r@ == v@.subrange(i as int, j as int),
{
    let mut r: Vec<char> = Vec::new();
    let mut k: usize = i;
    while k < j
        invariant
            i <= k <= j <= v@.len(),
            r@ == v@.subrange(i as int, k as int),
        decreases j - k,
    {
        r.push(v[k]);
        proof {
            assert(v@.subrange(i as int, k + 1 as int) =~= v@.subrange(i as int, k as int).push(
                v@[k as int],
            ));
        }
        k += 1;
    }
    r
}

/// First position `>= from` where `c` occurs, if any.
pub open spec fn spec_find(s: Seq<char>, from: int, c: char) -> Option<int>
    decreases s.len() - from,
{
    if from < 0 || from >= s.len() {
        None
    } else if s[from] == c {
        Some(from)
    } else {
        spec_find(s, from + 1, c)
    }
}

pub proof fn lemma_find_props(s: Seq<char>, from: int, c: char)
    requires
        0 <= from <= s.len(),
    ensures
        match spec_find(s, from, c) {
            Some(i) => from <= i < s.len() && s[i] == c && forall|k: int|
                from <= k < i ==> s[k] != c,
            None => forall|k: int| from <= k < s.len() ==> s[k] != c,
        },
    decreases s.len() - from,
{
    if from < s.len() && s[from] != c {
        lemma_find_props(s, from + 1, c);
    }
}

pub fn find_char(v: &Vec<char>, from: usize, c: char) -> (r: Option<usize>)
    requires
        from <= v@.len(),
    ensures
        match r {
            Some(i) => from <= i < v@.len() && Some(i as int) == spec_find(v@, from as int, c),
            None => spec_find(v@, from as int, c) is None,
        },
{
    let mut k: usize = from;
    while k < v.len()
        invariant
            from <= k <= v@.len(),
            spec_find(v@, from as int, c) == spec_find(v@, k as int, c),
        decreases v@.len() - k,
    {
        if v[k] == c {
            return Some(k);
        }
        k += 1;
    }
    None
}

/// The first occurrence is the position whose predecessors all miss.
pub proof fn lemma_find_at(s: Seq<char>, from: int, c: char, j: int)
    requires
        0 <= from <= j < s.len(),
        s[j] == c,
        forall|k: int| from <= k < j ==> s[k] != c,
    ensures
        spec_find(s, from, c) == Some(j),
    decreases j - from,
{
    if from < j {
        lemma_find_at(s, from + 1, c, j);
    }
}

/// A sequence without `c` has no occurrence to find.
pub proof fn lemma_find_none(s: Seq<char>, from: int, c: char)
    requires
        0 <= from <= s.len(),
        forall|k: int| from <= k < s.len() ==> s[k] != c,
    ensures
        spec_find(s, from, c) is None,
    decreases s.len() - from,
{
    if from < s.len() {
        lemma_find_none(s, from + 1, c);
    }
}

/// Searching within a suffix finds the same occurrence, shifted.
pub proof fn lemma_find_sub(s: Seq<char>, cursor: int, j: int, c: char)
    requires
        0 <= cursor,
        0 <= j,
        cursor + j <= s.len(),
    ensures
        spec_find(s.subrange(cursor, s.len() as int), j, c) == match spec_find(s, cursor + j, c) {
            None => None::<int>,
            Some(i) => Some(i - cursor),
        },
    decreases s.len() - cursor - j,
{
    let sub = s.subrange(cursor, s.len() as int);
    if cursor + j < s.len() {
        assert(sub[j] == s[cursor + j]);
        if sub[j] != c {
            lemma_find_sub(s, cursor, j + 1, c);
        }
    }
}

/// The characters this library treats as blank when trimming a line: the
/// ASCII whitespace set.
pub open spec fn is_blank_char(c: char) -> bool {
    c == ' ' || c == '\t' || c == '\n' || c == '\r' || c == '\u{b}' || c == '\u{c}'
}

pub fn blank_char(c: char) -> (r: bool)
    ensures
        r == is_blank_char(c),
{
    c == ' ' || c == '\t' || c == '\n' || c == '\r' || c == '\u{b}' || c == '\u{c}'
}

pub open spec fn spec_trim_start(s: Seq<char>) -> Seq<char>
    decreases s.len(),
{
    if s.len() > 0 && is_blank_char(s[0]) {
        spec_trim_start(s.drop_first())
    } else {
        s
    }
}

pub open spec fn spec_trim_end(s: Seq<char>) -> Seq<char>
    decreases s.len(),
{
    if s.len() > 0 && is_blank_char(s.last()) {
        spec_trim_end(s.drop_last())
    } else {
        s
    }
}

/// Both ends trimmed of blank characters.
pub open spec fn spec_trim(s: Seq<char>) -> Seq<char> {
    spec_trim_end(spec_trim_start(s))
}

pub fn trim_chars(v: &Vec<char>) -> (r: Vec<char>)
    ensures
        r@ == spec_trim(v@),
{
    proof {
        assert(v@.subrange(0, v@.len() as int) =~= v@);
    }
    let mut start: usize = 0;
    while start < v.len() && blank_char(v[start])
        invariant
            0 <= start <= v@.len(),
            forall|k: int| 0 <= k < start ==> is_blank_char(v@[k]),
            spec_trim_start(v@) == spec_trim_start(v@.subrange(start as int, v@.len() as int)),
        decreases v@.len() - start,
    {
        proof {
            let tail = v@.subrange(start as int, v@.len() as int);
            assert(tail[0] == v@[start as int]);
            assert(tail.drop_first() =~= v@.subrange(start + 1, v@.len() as int));
        }
        start += 1;
    }
    proof {
        let tail = v@.subrange(start as int, v@.len() as int);
        if start < v@.len() {
            assert(tail[0] == v@[start as int]);
        }
        assert(spec_trim_start(tail) == tail);
    }
    let mut end: usize = v.len();
    while end > start && blank_char(v[end - 1])
        invariant
            start <= end <= v@.len(),
            spec_trim_end(v@.subrange(start as int, v@.len() as int)) == spec_trim_end(
                v@.subrange(start as int, end as int),
            ),
        decreases end,
    {
        proof {
            let cur = v@.subrange(start as int, end as int);
            assert(cur.last() == v@[end - 1]);
            assert(cur.drop_last() =~= v@.subrange(start as int, end - 1));
        }
        end -= 1;
    }
    proof {
        let cur = v@.subrange(start as int, end as int);
        if end > start {
            assert(cur.last() == v@[end - 1]);
        }
        assert(spec_trim_end(cur) == cur);
    }
    subvec(v, start, end)
}

/// Decimal digit test.
pub open spec fn is_digit_char(c: char) -> bool {
    '0' <= c && c <= '9'
}

pub open spec fn digit_val(c: char) -> int {
    c as int - '0' as int
}

/// Value of an unsigned decimal numeral.
pub open spec fn dec_val(s: Seq<char>) -> int
    decreases s.len(),
{
    if s.len() == 0 {
        0
    } else {
        dec_val(s.drop_last()) * 10 + digit_val(s.last())
    }
}

pub open spec fn all_digits(s: Seq<char>) -> bool {
    forall|k: int| 0 <= k < s.len() ==> is_digit_char(#[trigger] s[k])
}

/// Whether `s` is a numeral this library accepts for a `u64`: nonempty, all
/// digits, value in range.
pub open spec fn is_u64_numeral(s: Seq<char>) -> bool {
    s.len() > 0 && all_digits(s) && dec_val(s) <= u64::MAX
}

/// Parse an unsigned decimal numeral; `None` on anything else, including
/// overflow.
pub fn parse_u64(v: &Vec<char>) -> (r: Option<u64>)
    ensures
        r is Some <==> is_u64_numeral(v@),
        r is Some ==> r->0 == dec_val(v@),
{
    if v.len() == 0 {
        return None;
    }
    let mut acc: u64 = 0;
    let mut k: usize = 0;
    while k < v.len()
        invariant
            0 <= k <= v@.len(),
            v@.len() > 0,
            all_digits(v@.subrange(0, k as int)),
            acc == dec_val(v@.subrange(0, k as int)),
        decreases v@.len() - k,
    {
        let c = v[k];
        if c < '0' || c > '9' {
            proof {
                assert(!is_digit_char(v@[k as int]));
            }
            return None;
        }
        let d: u64 = (c as u32 - '0' as u32) as u64;
        if acc > (u64::MAX - d) / 10 {
            proof {
                let pre = v@.subrange(0, k + 1 as int);
                assert(pre.drop_last() =~= v@.subrange(0, k as int));
                assert(pre.last() == v@[k as int]);
                assert(dec_val(pre) > u64::MAX);
                if all_digits(v@) {
                    lemma_dec_val_prefix_bound(v@, k + 1);
                }
            }
            return None;
        }
        proof {
            let pre = v@.subrange(0, k + 1 as int);
            assert(pre.drop_last() =~= v@.subrange(0, k as int));
        }
        acc = acc * 10 + d;
        k += 1;
    }
    proof {
        assert(v@.subrange(0, v@.len() as int) =~= v@);
    }
    Some(acc)
}

/// A numeral is at least as large as the value of any of its prefixes.
proof fn lemma_dec_val_prefix_bound(s: Seq<char>, i: int)
    requires
        0 <= i <= s.len(),
        all_digits(s),
    ensures
        dec_val(s.subrange(0, i)) <= dec_val(s),
    decreases s.len() - i,
{
    if i < s.len() {
        lemma_dec_val_prefix_bound(s, i + 1);
        let a = s.subrange(0, i);
        let b = s.subrange(0, i + 1);
        assert(b.drop_last() =~= a);
        assert(b.last() == s[i]);
        assert(is_digit_char(s[i]));
        assert(dec_val(b) == dec_val(a) * 10 + digit_val(s[i]));
        assert(all_digits(a)) by {
            assert(forall|k: int| 0 <= k < a.len() ==> #[trigger] a[k] == s[k]);
        }
        lemma_dec_val_nonneg(a);
        assert(dec_val(a) <= dec_val(b));
    } else {
        assert(s.subrange(0, i) =~= s);
    }
}

pub proof fn lemma_dec_val_nonneg(s: Seq<char>)
    requires
        all_digits(s),
    ensures
        dec_val(s) >= 0,
    decreases s.len(),
{
    if s.len() > 0 {
        assert(all_digits(s.drop_last())) by {
            assert(forall|k: int|
                0 <= k < s.len() - 1 ==> is_digit_char(#[trigger] s.drop_last()[k]) == is_digit_char(
                    s[k],
                ));
        }
        lemma_dec_val_nonneg(s.drop_last());
        assert(is_digit_char(s.last()));
    }
}

pub fn digits_only(v: &Vec<char>) -> (r: bool)
    ensures
        r == all_digits(v@),
{
    let mut k: usize = 0;
    while k < v.len()
        invariant
            0 <= k <= v@.len(),
            all_digits(v@.subrange(0, k as int)),
        decreases v@.len() - k,
    {
        let c = v[k];
        if c < '0' || c > '9' {
            proof {
                assert(!is_digit_char(v@[k as int]));
            }
            return false;
        }
        proof {
            assert(forall|i: int|
                0 <= i < k + 1 ==> is_digit_char(#[trigger] v@.subrange(0, k + 1 as int)[i])
                    == is_digit_char(v@.subrange(0, k + 1 as int)[i]));
            assert forall|i: int| 0 <= i < k + 1 implies is_digit_char(
                #[trigger] v@.subrange(0, k + 1 as int)[i],
            ) by {
                if i < k {
                    assert(v@.subrange(0, k + 1 as int)[i] == v@.subrange(0, k as int)[i]);
                } else {
                    assert(v@.subrange(0, k + 1 as int)[i] == v@[k as int]);
                }
            }
        }
        k += 1;
    }
    proof {
        assert(v@.subrange(0, v@.len() as int) =~= v@);
    }
    true
}

/// Whether `s` is a numeral this library accepts for an `i64`: an optional
/// sign followed by digits, with the signed value in range.
pub open spec fn is_i64_numeral(s: Seq<char>) -> bool {
    if s.len() > 0 && (s[0] == '-' || s[0] == '+') {
        let digits = s.drop_first();
        digits.len() > 0 && all_digits(digits) && (if s[0] == '-' {
            dec_val(digits) <= 0x8000_0000_0000_0000
        } else {
            dec_val(digits) <= i64::MAX
        })
    } else {
        s.len() > 0 && all_digits(s) && dec_val(s) <= i64::MAX
    }
}

/// Signed value of an `i64` numeral.
pub open spec fn i64_numeral_val(s: Seq<char>) -> int {
    if s.len() > 0 && s[0] == '-' {
        -dec_val(s.drop_first())
    } else if s.len() > 0 && s[0] == '+' {
        dec_val(s.drop_first())
    } else {
        dec_val(s)
    }
}

/// Parse a signed decimal numeral; `None` on anything else, including
/// overflow.
pub fn parse_i64(v: &Vec<char>) -> (r: Option<i64>)
    ensures
        r is Some <==> is_i64_numeral(v@),
        r is Some ==> r->0 == i64_numeral_val(v@),
{
    if v.len() == 0 {
        return None;
    }
    let c0 = v[0];
    if c0 == '-' || c0 == '+' {
        let digits = subvec(v, 1, v.len());
        proof {
            assert(digits@ =~= v@.drop_first());
        }
        match parse_u64(&digits) {
            None => None,
            Some(mag) => {
                if c0 == '-' {
                    if mag > 0x8000_0000_0000_0000u64 {
                        None
                    } else if mag == 0x8000_0000_0000_0000u64 {
                        Some(i64::MIN)
                    } else {
                        Some(-(mag as i64))
                    }
                } else {
                    if mag > i64::MAX as u64 {
                        None
                    } else {
                        Some(mag as i64)
                    }
                }
            },
        }
    } else {
        match parse_u64(v) {
            None => None,
            Some(mag) => {
                if mag > i64::MAX as u64 {
                    None
                } else {
                    Some(mag as i64)
                }
            },
        }
    }
}

/// The character of one decimal digit.
pub open spec fn digit_char(d: nat) -> char
    recommends
        d < 10,
{
    (('0' as u8) + d) as char
}

/// Decimal numeral of `x`, without leading zeros.
pub open spec fn dec_str(x: nat) -> Seq<char>
    decreases x,
{
    if x < 10 {
        seq![digit_char(x)]
    } else {
        dec_str(x / 10).push(digit_char(x % 10))
    }
}

/// Append the decimal numeral of `x`.
pub fn push_dec(x: u64, out: &mut Vec<char>)
    ensures
        final (out)@ == old(out)@ + dec_str(x as nat),
    decreases x,
{
    if x < 10 {
        let c: char = (('0' as u8) + (x as u8)) as char;
        out.push(c);
        proof {
            assert(old(out)@ + dec_str(x as nat) =~= old(out)@.push(digit_char(x as nat)));
        }
    } else {
        push_dec(x / 10, out);
        let c: char = (('0' as u8) + ((x % 10) as u8)) as char;
        out.push(c);
        proof {
            assert(old(out)@ + dec_str(x as nat) =~= (old(out)@ + dec_str((x as nat) / 10)).push(
                digit_char((x as nat) % 10),
            ));
        }
    }
}

/// Append all characters of a string slice.
pub fn push_all(out: &mut Vec<char>, s: &str)
    ensures
        final (out)@ == old(out)@ + s@,
{
    let cs = chars_of(s);
    let ghost base = out@;
    let mut i: usize = 0;
    while i < cs.len()
        invariant
            0 <= i <= cs@.len(),
            cs@ == s@,
            out@ == base + cs@.subrange(0, i as int),
        decreases cs@.len() - i,
    {
        out.push(cs[i]);
        proof {
            assert(base + cs@.subrange(0, i + 1 as int) =~= (base + cs@.subrange(0, i as int)).push(
                cs@[i as int],
            ));
        }
        i += 1;
    }
    proof {
        assert(cs@.subrange(0, cs@.len() as int) =~= cs@);
    }
}

/// Append all characters of a character vector.
pub fn push_chars(out: &mut Vec<char>, v: &Vec<char>)
    ensures
        final (out)@ == old(out)@ + v@,
{
    let ghost base = out@;
    let mut i: usize = 0;
    while i < v.len()
        invariant
            0 <= i <= v@.len(),
            out@ == base + v@.subrange(0, i as int),
        decreases v@.len() - i,
    {
        out.push(v[i]);
        proof {
            assert(base + v@.subrange(0, i + 1 as int) =~= (base + v@.subrange(0, i as int)).push(
                v@[i as int],
            ));
        }
        i += 1;
    }
    proof {
        assert(v@.subrange(0, v@.len() as int) =~= v@);
    }
}

/// The decimal numeral of `x` as a string.
pub fn u64_to_string(x: u64) -> (r: String)
    ensures
        r@ == dec_str(x as nat),
{
    let mut out: Vec<char> = Vec::new();
    push_dec(x, &mut out);
    proof {
        assert(Seq::<char>::empty() + dec_str(x as nat) =~= dec_str(x as nat));
    }
    string_from_chars(&out)
}

/// The decimal numeral of `x` as a string, for signed values.
pub fn i64_to_string(x: i64) -> (r: String)
    ensures
        r@ == if x < 0 {
            seq!['-'] + dec_str((-(x as int)) as nat)
        } else {
            dec_str(x as nat)
        },
{
    let mut out: Vec<char> = Vec::new();
    if x < 0 {
        out.push('-');
        let mag: u64 = if x == i64::MIN {
            9223372036854775808u64
        } else {
            (-x) as u64
        };
        push_dec(mag, &mut out);
        proof {
            assert(Seq::<char>::empty().push('-') =~= seq!['-']);
        }
    } else {
        push_dec(x as u64, &mut out);
        proof {
            assert(Seq::<char>::empty() + dec_str(x as nat) =~= dec_str(x as nat));
        }
    }
    string_from_chars(&out)
}

/// ASCII lowercase of one character: `A`..`Z` folded, all else unchanged.
pub open spec fn ascii_lower_char(c: char) -> char {
    if 'A' <= c && c <= 'Z' {
        ((c as u8) + 32) as char
    } else {
        c
    }
}

pub open spec fn ascii_lower(s: Seq<char>) -> Seq<char> {
    s.map_values(|c: char| ascii_lower_char(c))
}

pub fn to_ascii_lower(v: &Vec<char>) -> (r: Vec<char>)
    ensures
        r@ == ascii_lower(v@),
{
    let mut r: Vec<char> = Vec::new();
    let mut k: usize = 0;
    while k < v.len()
        invariant
            0 <= k <= v@.len(),
            r@ == ascii_lower(v@.subrange(0, k as int)),
        decreases v@.len() - k,
    {
        let c = v[k];
        let lc: char = if c >= 'A' && c <= 'Z' {
            ((c as u8) + 32) as char
        } else {
            c
        };
        r.push(lc);
        proof {
            assert(ascii_lower(v@.subrange(0, k + 1 as int)) =~= ascii_lower(
                v@.subrange(0, k as int),
            ).push(ascii_lower_char(v@[k as int])));
        }
        k += 1;
    }
    proof {
        assert(v@.subrange(0, v@.len() as int) =~= v@);
    }
    r
}

/// ASCII-lowercased copy of a string.
pub fn lowercase_string(s: &str) -> (r: String)
    ensures
        r@ == ascii_lower(s@),
{
    let cs = chars_of(s);
    let lowered = to_ascii_lower(&cs);
    string_from_chars(&lowered)
}

} // verus!
