//! Character-level helpers shared by the parsing and rendering code:
//! decimal numerals, character search, and string equality.

use vstd::prelude::*;

verus! {

/// The numeral character for a single decimal digit.
pub open spec fn digit_char(d: int) -> char {
    if d == 0 {
        '0'
    } else if d == 1 {
        '1'
    } else if d == 2 {
        '2'
    } else if d == 3 {
        '3'
    } else if d == 4 {
        '4'
    } else if d == 5 {
        '5'
    } else if d == 6 {
        '6'
    } else if d == 7 {
        '7'
    } else if d == 8 {
        '8'
    } else {
        '9'
    }
}

/// Decimal rendering of a non-negative integer, most significant digit first.
pub open spec fn spec_dec(n: int) -> Seq<char>
    decreases n,
{
    if n < 10 {
        seq![digit_char(n)]
    } else {
        spec_dec(n / 10).push(digit_char(n % 10))
    }
}

pub open spec fn is_digit(c: char) -> bool {
    '0' <= c && c <= '9'
}

pub open spec fn digit_val(c: char) -> int {
    c as int - '0' as int
}

pub open spec fn all_digits(s: Seq<char>) -> bool {
    forall|i: int| 0 <= i < s.len() ==> is_digit(#[trigger] s[i])
}

/// The value of a digit string, read in base ten; 0 for the empty string.
pub open spec fn dec_value(s: Seq<char>) -> int
    decreases s.len(),
{
    if s.len() == 0 {
        0
    } else {
        dec_value(s.drop_last()) * 10 + digit_val(s.last())
    }
}

fn digit_str(d: u64) -> (r: &'static str)
    requires
        d < 10,
    ensures
        r@ == seq![digit_char(d as int)],
{
    proof {
        reveal_strlit("0");
        reveal_strlit("1");
        reveal_strlit("2");
        reveal_strlit("3");
        reveal_strlit("4");
        reveal_strlit("5");
        reveal_strlit("6");
        reveal_strlit("7");
        reveal_strlit("8");
        reveal_strlit("9");
    }
    let r: &'static str = match d {
        0 => "0",
        1 => "1",
        2 => "2",
        3 => "3",
        4 => "4",
        5 => "5",
        6 => "6",
        7 => "7",
        8 => "8",
        _ => "9",
    };
    proof {
        assert(r@ =~= seq![digit_char(d as int)]);
    }
    r
}

/// Renders `n` in decimal.
pub fn u64_to_string(n: u64) -> (r: String)
    ensures
        r@ == spec_dec(n as int),
    decreases n,
{
    if n < 10 {
        String::from_str(digit_str(n))
    } else {
        let mut s = u64_to_string(n / 10);
        s.append(digit_str(n % 10));
        s
    }
}

/// Renders a port number in decimal.
pub fn u16_to_string(n: u16) -> (r: String)
    ensures
        r@ == spec_dec(n as int),
{
    u64_to_string(n as u64)
}

pub proof fn lemma_dec_value_nonneg(s: Seq<char>)
    requires
        all_digits(s),
    ensures
        dec_value(s) >= 0,
    decreases s.len(),
{
    if s.len() > 0 {
        lemma_dec_value_nonneg(s.drop_last());
    }
}

proof fn lemma_dec_value_prefix_le(s: Seq<char>, j: int)
    requires
        all_digits(s),
        0 <= j <= s.len(),
    ensures
        dec_value(s.take(j)) <= dec_value(s),
    decreases s.len() - j,
{
    if j < s.len() {
        lemma_dec_value_prefix_le(s, j + 1);
        assert(s.take(j + 1).drop_last() =~= s.take(j));
        assert(all_digits(s.take(j))) by {
            assert(forall|i: int| 0 <= i < j ==> s.take(j)[i] == #[trigger] s[i]);
        }
        lemma_dec_value_nonneg(s.take(j));
        assert(dec_value(s.take(j + 1)) == dec_value(s.take(j)) * 10 + digit_val(s.take(j + 1).last()));
        assert(digit_val(s.take(j + 1).last()) >= 0);
        assert(dec_value(s.take(j)) * 10 >= dec_value(s.take(j))) by (nonlinear_arith)
            requires
                dec_value(s.take(j)) >= 0,
        ;
    } else {
        assert(s.take(j) =~= s);
    }
}

/// Parses a string of decimal digits as an integer, refusing the empty
/// string, non-digit characters, and values above `max`.
pub fn parse_dec_bounded(s: &str, max: u64) -> (r: Option<u64>)
    ensures
        r is Some <==> s@.len() > 0 && all_digits(s@) && 0 <= dec_value(s@) <= max,
        r is Some ==> r->0 == dec_value(s@),
{
    let n = s.unicode_len();
    if n == 0 {
        return None;
    }
    let mut i: usize = 0;
    let mut val: u64 = 0;
    while i < n
        invariant
            0 < n == s@.len(),
            0 <= i <= n,
            all_digits(s@.take(i as int)),
            val == dec_value(s@.take(i as int)),
            val <= max,
            max <= u64::MAX,
        decreases n - i,
    {
        let c = s.get_char(i);
        if !('0' <= c && c <= '9') {
            proof {
                assert(s@[i as int] == c && !is_digit(c));
            }
            return None;
        }
        let d: u64 = (c as u32 as u64) - 48;
        proof {
            assert(d == digit_val(c));
            assert(s@.take(i as int + 1).drop_last() =~= s@.take(i as int));
            assert(dec_value(s@.take(i as int + 1)) == val * 10 + d as int);
        }
        let over: bool = if val > max / 10 {
            true
        } else {
            proof {
                assert(10 * val <= max) by (nonlinear_arith)
                    requires
                        0 <= val <= max / 10,
                        max >= 0,
                ;
            }
            d > max || 10 * val > max - d
        };
        if over {
            proof {
                assert(val * 10 + d > max) by (nonlinear_arith)
                    requires
                        val > max / 10 && max >= 0 || d > max && val >= 0 || 10 * val > max - d
                            && d <= max && val >= 0,
                        d < 10,
                        val >= 0,
                ;
                if s@.len() > 0 && all_digits(s@) && dec_value(s@) <= max {
                    assert(all_digits(s@.take(i as int + 1)));
                    lemma_dec_value_prefix_le(s@, i as int + 1);
                }
            }
            return None;
        }
        val = 10 * val + d;
        i = i + 1;
    }
    proof {
        assert(s@.take(n as int) =~= s@);
    }
    Some(val)
}

/// Parses a decimal port number in `1..=65535`; `0` itself parses but is a
/// valid `u16`, so the caller decides whether to refuse it.
pub fn parse_u16(s: &str) -> (r: Option<u16>)
    ensures
        r is Some <==> s@.len() > 0 && all_digits(s@) && dec_value(s@) <= u16::MAX,
        r is Some ==> r->0 == dec_value(s@),
{
    proof {
        if s@.len() > 0 && all_digits(s@) {
            lemma_dec_value_nonneg(s@);
        }
    }
    match parse_dec_bounded(s, 65535) {
        Some(v) => Some(v as u16),
        None => None,
    }
}

/// True when `c` occurs in `s`.
pub fn str_contains_char(s: &str, c: char) -> (b: bool)
    ensures
        b == s@.contains(c),
{
    let n = s.unicode_len();
    let mut i: usize = 0;
    while i < n
        invariant
            0 <= i <= n == s@.len(),
            forall|j: int| 0 <= j < i ==> s@[j] != c,
        decreases n - i,
    {
        if s.get_char(i) == c {
            return true;
        }
        i = i + 1;
    }
    false
}

/// How often `c` occurs in `s`.
pub open spec fn count_char(s: Seq<char>, c: char) -> int
    decreases s.len(),
{
    if s.len() == 0 {
        0
    } else {
        count_char(s.drop_last(), c) + if s.last() == c {
            1int
        } else {
            0int
        }
    }
}

/// Counts the occurrences of `c` in `s`.
pub fn str_count_char(s: &str, c: char) -> (r: usize)
    ensures
        r == count_char(s@, c),
{
    let n = s.unicode_len();
    let mut i: usize = 0;
    let mut cnt: usize = 0;
    while i < n
        invariant
            0 <= i <= n == s@.len(),
            cnt == count_char(s@.take(i as int), c),
            cnt <= i,
        decreases n - i,
    {
        proof {
            assert(s@.take(i as int + 1).drop_last() =~= s@.take(i as int));
            assert(s@.take(i as int + 1).last() == s@[i as int]);
        }
        if s.get_char(i) == c {
            cnt = cnt + 1;
        }
        i = i + 1;
    }
    proof {
        assert(s@.take(n as int) =~= s@);
    }
    cnt
}

/// The index of the first occurrence of `c` in `s`, if any.
pub fn str_find_char(s: &str, c: char) -> (r: Option<usize>)
    ensures
        match r {
            Some(i) => i < s@.len() && s@[i as int] == c && forall|j: int| 0 <= j < i ==> s@[j] != c,
            None => !s@.contains(c),
        },
{
    let n = s.unicode_len();
    let mut i: usize = 0;
    while i < n
        invariant
            0 <= i <= n == s@.len(),
            forall|j: int| 0 <= j < i ==> s@[j] != c,
        decreases n - i,
    {
        if s.get_char(i) == c {
            return Some(i);
        }
        i = i + 1;
    }
    None
}

/// The index of the first occurrence of `c` in `s`, or `-1`.
pub open spec fn first_index(s: Seq<char>, c: char) -> int
    decreases s.len(),
{
    if s.len() == 0 {
        -1
    } else if s[0] == c {
        0
    } else {
        let r = first_index(s.drop_first(), c);
        if r < 0 {
            -1
        } else {
            r + 1
        }
    }
}

pub proof fn lemma_first_index_of(s: Seq<char>, c: char, i: int)
    requires
        0 <= i < s.len(),
        s[i] == c,
        forall|j: int| 0 <= j < i ==> s[j] != c,
    ensures
        first_index(s, c) == i,
    decreases s.len(),
{
    if i > 0 {
        lemma_first_index_of(s.drop_first(), c, i - 1);
    }
}

pub proof fn lemma_first_index_none(s: Seq<char>, c: char)
    requires
        !s.contains(c),
    ensures
        first_index(s, c) == -1,
    decreases s.len(),
{
    if s.len() > 0 {
        assert(s[0] != c);
        assert(!s.drop_first().contains(c)) by {
            if s.drop_first().contains(c) {
                let w = choose|w: int| 0 <= w < s.drop_first().len() && s.drop_first()[w] == c;
                assert(s[w + 1] == c);
            }
        }
        lemma_first_index_none(s.drop_first(), c);
    }
}

pub proof fn lemma_first_index_bounds(s: Seq<char>, c: char)
    ensures
        first_index(s, c) == -1 || (0 <= first_index(s, c) < s.len() && s[first_index(s, c)] == c
            && forall|j: int| 0 <= j < first_index(s, c) ==> s[j] != c),
    decreases s.len(),
{
    if s.len() > 0 && s[0] != c {
        lemma_first_index_bounds(s.drop_first(), c);
        let r = first_index(s.drop_first(), c);
        if r >= 0 {
            assert(s.drop_first()[r] == s[r + 1]);
            assert(forall|j: int| 1 <= j < r + 1 ==> s[j] == s.drop_first()[j - 1]);
        }
    }
}

/// `s` split on `c`: the groups between the separators, in order. A string
/// without the separator is one group; every separator begins a new group.
pub open spec fn split_char(s: Seq<char>, c: char) -> Seq<Seq<char>>
    decreases s.len(),
{
    let i = first_index(s, c);
    if 0 <= i < s.len() {
        seq![s.take(i)] + split_char(s.skip(i + 1), c)
    } else {
        seq![s]
    }
}

/// Splitting a string that starts with a separator-free prefix: the prefix
/// is the first group and the rest splits on its own.
pub proof fn lemma_split_char_step(s: Seq<char>, c: char, i: int)
    requires
        0 <= i < s.len(),
        s[i] == c,
        forall|j: int| 0 <= j < i ==> s[j] != c,
    ensures
        split_char(s, c) == seq![s.take(i)] + split_char(s.skip(i + 1), c),
{
    lemma_first_index_of(s, c, i);
}

/// A character other than the separator occurring in `s` occurs in a group.
pub proof fn lemma_split_char_free(s: Seq<char>, c: char, bad: char)
    requires
        bad != c,
        forall|g: int| 0 <= g < split_char(s, c).len() ==> !(#[trigger] split_char(s, c)[g]).contains(
            bad,
        ),
    ensures
        !s.contains(bad),
    decreases s.len(),
{
    lemma_first_index_bounds(s, c);
    let i = first_index(s, c);
    let gs = split_char(s, c);
    if 0 <= i < s.len() {
        let rest = s.skip(i + 1);
        assert(gs == seq![s.take(i)] + split_char(rest, c));
        assert forall|g: int| 0 <= g < split_char(rest, c).len() implies !(#[trigger] split_char(
            rest,
            c,
        )[g]).contains(bad) by {
            assert(split_char(rest, c)[g] == gs[g + 1]);
            assert(!gs[g + 1].contains(bad));
        }
        lemma_split_char_free(rest, c, bad);
        if s.contains(bad) {
            let w = choose|w: int| 0 <= w < s.len() && s[w] == bad;
            if w < i {
                assert(gs[0] == s.take(i));
                assert(s.take(i)[w] == bad);
                assert(gs[0].contains(bad));
                assert(!gs[0].contains(bad));
            } else if w > i {
                assert(rest[w - i - 1] == bad);
                assert(rest.contains(bad));
            } else {
                assert(s[i] == c);
            }
        }
    } else {
        assert(gs[0] == s);
        assert(!gs[0].contains(bad));
    }
}

/// Splits `s` on `c` into owned groups.
pub fn split_on_char(s: &str, c: char) -> (r: Vec<String>)
    ensures
        r.deep_view() == split_char(s@, c),
{
    let n = s.unicode_len();
    let mut out: Vec<String> = Vec::new();
    let mut start: usize = 0;
    let mut i: usize = 0;
    proof {
        assert(s@.skip(0) =~= s@);
        assert(out.deep_view() + split_char(s@, c) =~= split_char(s@, c));
    }
    while i < n
        invariant
            0 <= start <= i <= n == s@.len(),
            split_char(s@, c) == out.deep_view() + split_char(s@.skip(start as int), c),
            forall|j: int| start <= j < i ==> s@[j] != c,
        decreases n - i,
    {
        if s.get_char(i) == c {
            let g = s.substring_char(start, i);
            let ghost pre = out.deep_view();
            out.push(String::from_str(g));
            proof {
                let rest = s@.skip(start as int);
                assert(rest[i as int - start as int] == s@[i as int]);
                assert(forall|j: int| 0 <= j < i as int - start as int ==> rest[j] == s@[j
                    + start as int]);
                lemma_split_char_step(rest, c, i as int - start as int);
                assert(rest.take(i as int - start as int) =~= s@.subrange(
                    start as int,
                    i as int,
                ));
                assert(rest.skip(i as int - start as int + 1) =~= s@.skip(i as int + 1));
                assert(out.deep_view() =~= pre.push(g@));
                assert(pre.push(g@) + split_char(s@.skip(i as int + 1), c) =~= pre + (seq![g@]
                    + split_char(s@.skip(i as int + 1), c)));
            }
            start = i + 1;
        }
        i = i + 1;
    }
    let g = s.substring_char(start, n);
    let ghost pre = out.deep_view();
    out.push(String::from_str(g));
    proof {
        let rest = s@.skip(start as int);
        assert(forall|j: int| 0 <= j < rest.len() ==> rest[j] == s@[j + start as int]);
        assert(!rest.contains(c)) by {
            if rest.contains(c) {
                let w = choose|w: int| 0 <= w < rest.len() && rest[w] == c;
                assert(s@[w + start as int] == c);
            }
        }
        lemma_first_index_none(rest, c);
        assert(split_char(rest, c) == seq![rest]);
        assert(g@ =~= rest);
        assert(out.deep_view() =~= pre.push(g@));
        assert(pre.push(g@) =~= pre + seq![g@]);
        assert(out.deep_view() =~= split_char(s@, c));
    }
    out
}

/// Copies a vector of strings.
pub fn clone_string_vec(v: &Vec<String>) -> (r: Vec<String>)
    ensures
        r.deep_view() == v.deep_view(),
{
    let mut r: Vec<String> = Vec::new();
    let mut i: usize = 0;
    while i < v.len()
        invariant
            0 <= i <= v.len(),
            r.deep_view() =~= v.deep_view().take(i as int),
        decreases v.len() - i,
    {
        let ghost pre = r.deep_view();
        r.push(v[i].clone());
        proof {
            assert(r.deep_view() =~= pre.push(v@[i as int]@));
            assert(pre.push(v@[i as int]@) =~= v.deep_view().take(i as int + 1));
        }
        i = i + 1;
    }
    proof {
        assert(v.deep_view().take(v.len() as int) =~= v.deep_view());
    }
    r
}

/// Leading and trailing spaces removed.
pub open spec fn spec_trim_front(s: Seq<char>) -> Seq<char>
    decreases s.len(),
{
    if s.len() > 0 && s[0] == ' ' {
        spec_trim_front(s.drop_first())
    } else {
        s
    }
}

pub open spec fn spec_trim_back(s: Seq<char>) -> Seq<char>
    decreases s.len(),
{
    if s.len() > 0 && s.last() == ' ' {
        spec_trim_back(s.drop_last())
    } else {
        s
    }
}

pub open spec fn spec_trim_spaces(s: Seq<char>) -> Seq<char> {
    spec_trim_back(spec_trim_front(s))
}

pub fn trim_spaces(s: &str) -> (r: String)
    ensures
        r@ == spec_trim_spaces(s@),
{
    let n = s.unicode_len();
    let mut a: usize = 0;
    proof {
        assert(s@.skip(0) =~= s@);
    }
    while a < n && s.get_char(a) == ' '
        invariant
            0 <= a <= n == s@.len(),
            spec_trim_front(s@) == spec_trim_front(s@.skip(a as int)),
            forall|j: int| 0 <= j < a ==> s@[j] == ' ',
        decreases n - a,
    {
        proof {
            assert(s@.skip(a as int)[0] == s@[a as int]);
            assert(s@.skip(a as int).drop_first() =~= s@.skip(a as int + 1));
        }
        a = a + 1;
    }
    proof {
        if a < n {
            assert(s@.skip(a as int)[0] == s@[a as int]);
        }
        assert(spec_trim_front(s@) == s@.skip(a as int));
    }
    let mut b: usize = n;
    proof {
        assert(s@.skip(a as int).take(n as int - a as int) =~= s@.skip(a as int));
    }
    while b > a && s.get_char(b - 1) == ' '
        invariant
            a <= b <= n == s@.len(),
            spec_trim_front(s@) == s@.skip(a as int),
            a < n ==> s@[a as int] != ' ',
            spec_trim_back(s@.skip(a as int)) == spec_trim_back(
                s@.skip(a as int).take(b as int - a as int),
            ),
        decreases b,
    {
        proof {
            let cur = s@.skip(a as int).take(b as int - a as int);
            assert(cur.last() == s@[b as int - 1]);
            assert(cur.drop_last() =~= s@.skip(a as int).take(b as int - 1 - a as int));
        }
        b = b - 1;
    }
    let r = s.substring_char(a, b);
    proof {
        let cur = s@.skip(a as int).take(b as int - a as int);
        if b > a {
            assert(cur.last() == s@[b as int - 1]);
        }
        assert(spec_trim_back(cur) == cur);
        assert(r@ =~= cur);
    }
    String::from_str(r)
}

/// Relies on String::push: appends the given character to the end of the
/// string.
pub assume_specification[ String::push ](s: &mut String, ch: char)
    ensures
        final(s)@ == old(s)@.push(ch),
;

/// The ASCII-lowercase image of a character: letters 'A' through 'Z' map
/// to 'a' through 'z'; every other character is unchanged.
pub open spec fn spec_lower_char(c: char) -> char {
    if c == 'A' {
        'a'
    } else if c == 'B' {
        'b'
    } else if c == 'C' {
        'c'
    } else if c == 'D' {
        'd'
    } else if c == 'E' {
        'e'
    } else if c == 'F' {
        'f'
    } else if c == 'G' {
        'g'
    } else if c == 'H' {
        'h'
    } else if c == 'I' {
        'i'
    } else if c == 'J' {
        'j'
    } else if c == 'K' {
        'k'
    } else if c == 'L' {
        'l'
    } else if c == 'M' {
        'm'
    } else if c == 'N' {
        'n'
    } else if c == 'O' {
        'o'
    } else if c == 'P' {
        'p'
    } else if c == 'Q' {
        'q'
    } else if c == 'R' {
        'r'
    } else if c == 'S' {
        's'
    } else if c == 'T' {
        't'
    } else if c == 'U' {
        'u'
    } else if c == 'V' {
        'v'
    } else if c == 'W' {
        'w'
    } else if c == 'X' {
        'x'
    } else if c == 'Y' {
        'y'
    } else if c == 'Z' {
        'z'
    } else {
        c
    }
}

/// The ASCII-lowercase image of a string, character by character.
pub open spec fn spec_ascii_lower(s: Seq<char>) -> Seq<char> {
    Seq::new(s.len(), |i: int| spec_lower_char(s[i]))
}

fn lower_char(c: char) -> (r: char)
    ensures
        r == spec_lower_char(c),
{
    match c {
        'A' => 'a',
        'B' => 'b',
        'C' => 'c',
        'D' => 'd',
        'E' => 'e',
        'F' => 'f',
        'G' => 'g',
        'H' => 'h',
        'I' => 'i',
        'J' => 'j',
        'K' => 'k',
        'L' => 'l',
        'M' => 'm',
        'N' => 'n',
        'O' => 'o',
        'P' => 'p',
        'Q' => 'q',
        'R' => 'r',
        'S' => 's',
        'T' => 't',
        'U' => 'u',
        'V' => 'v',
        'W' => 'w',
        'X' => 'x',
        'Y' => 'y',
        'Z' => 'z',
        _ => c,
    }
}

/// Lowercases the ASCII letters of a string.
pub fn ascii_lowercase(s: &str) -> (r: String)
    ensures
        r@ == spec_ascii_lower(s@),
{
    let n = s.unicode_len();
    let mut out = String::new();
    let mut i: usize = 0;
    proof {
        assert(out@ =~= spec_ascii_lower(s@).take(0));
    }
    while i < n
        invariant
            0 <= i <= n == s@.len(),
            out@ == spec_ascii_lower(s@).take(i as int),
        decreases n - i,
    {
        out.push(lower_char(s.get_char(i)));
        proof {
            assert(out@ =~= spec_ascii_lower(s@).take(i as int + 1));
        }
        i = i + 1;
    }
    proof {
        assert(spec_ascii_lower(s@).take(n as int) =~= spec_ascii_lower(s@));
    }
    out
}

/// Character-for-character string equality.
pub fn str_eq(a: &str, b: &str) -> (r: bool)
    ensures
        r == (a@ == b@),
{
    let n = a.unicode_len();
    if n != b.unicode_len() {
        proof {
            assert(a@.len() != b@.len());
        }
        return false;
    }
    let mut i: usize = 0;
    while i < n
        invariant
            0 <= i <= n == a@.len() == b@.len(),
            forall|j: int| 0 <= j < i ==> a@[j] == b@[j],
        decreases n - i,
    {
        if a.get_char(i) != b.get_char(i) {
            return false;
        }
        i = i + 1;
    }
    proof {
        assert(a@ =~= b@);
    }
    true
}

} // verus!
