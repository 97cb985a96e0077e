//! Character-level text helpers shared by the parsers: trimming, prefix and
//! substring search, ASCII case folding, and decimal numbers in and out.

use vstd::prelude::*;
use vstd::string::StringExecFns;

verus! {

/// Unicode `White_Space`, the set that `str::trim` strips.
pub open spec fn is_white_space(c: char) -> bool {
    let u = c as u32;
    ||| 0x09 <= u <= 0x0d
    ||| u == 0x20
    ||| u == 0x85
    ||| u == 0xa0
    ||| u == 0x1680
    ||| 0x2000 <= u <= 0x200a
    ||| u == 0x2028
    ||| u == 0x2029
    ||| u == 0x202f
    ||| u == 0x205f
    ||| u == 0x3000
}

/// The characters `cs[lo..hi]`.
pub open spec fn window(cs: Seq<char>, lo: usize, hi: usize) -> Seq<char> {
    cs.subrange(lo as int, hi as int)
}

/// `s` without its leading white space.
pub open spec fn trim_start(s: Seq<char>) -> Seq<char>
    decreases s.len(),
{
    if s.len() > 0 && is_white_space(s[0]) {
        trim_start(s.drop_first())
    } else {
        s
    }
}

/// `s` without its trailing white space.
pub open spec fn trim_end(s: Seq<char>) -> Seq<char>
    decreases s.len(),
{
    if s.len() > 0 && is_white_space(s.last()) {
        trim_end(s.drop_last())
    } else {
        s
    }
}

/// `s` without white space at either end, as `str::trim` gives it.
pub open spec fn trim(s: Seq<char>) -> Seq<char> {
    trim_end(trim_start(s))
}

/// `p` is a prefix of `s`.
pub open spec fn has_prefix(s: Seq<char>, p: Seq<char>) -> bool {
    p.len() <= s.len() && s.subrange(0, p.len() as int) == p
}

/// `p` occurs in `s` starting at index `i`.
pub open spec fn occurs_at(s: Seq<char>, p: Seq<char>, i: int) -> bool {
    0 <= i && i + p.len() <= s.len() && s.subrange(i, i + p.len()) == p
}

/// The index of the first occurrence of `p` in `s`, as `str::find` gives it.
#[verifier::opaque]
pub open spec fn first_occurrence(s: Seq<char>, p: Seq<char>) -> Option<int> {
    if exists|i: int| occurs_at(s, p, i) {
        Some(choose|i: int| occurs_at(s, p, i) && forall|j: int| 0 <= j < i ==> !occurs_at(s, p, j))
    } else {
        None
    }
}

/// ASCII upper-case letters mapped to lower case, everything else unchanged.
pub open spec fn ascii_lower(c: char) -> char {
    if 'A' <= c && c <= 'Z' {
        ((c as u32) + 32) as char
    } else {
        c
    }
}

/// `s` with every ASCII letter in lower case, as `str::to_ascii_lowercase`.
pub open spec fn ascii_lowercase(s: Seq<char>) -> Seq<char> {
    s.map_values(|c: char| ascii_lower(c))
}

pub open spec fn is_digit(c: char) -> bool {
    '0' <= c && c <= '9'
}

pub open spec fn all_digits(s: Seq<char>) -> bool {
    forall|i: int| 0 <= i < s.len() ==> is_digit(#[trigger] s[i])
}

pub open spec fn digit_value(c: char) -> nat {
    ((c as u32) - ('0' as u32)) as nat
}

/// The number that a string of decimal digits denotes.
pub open spec fn digits_value(s: Seq<char>) -> nat
    decreases s.len(),
{
    if s.len() == 0 {
        0
    } else {
        digits_value(s.drop_last()) * 10 + digit_value(s.last())
    }
}

/// What `str::parse` gives for an unsigned integer type whose largest value
/// is `max`: an optional `+`, then one or more ASCII digits whose value is at
/// most `max`.
pub open spec fn parse_unsigned(s: Seq<char>, max: nat) -> Option<nat> {
    let d = if s.len() > 0 && s[0] == '+' { s.drop_first() } else { s };
    if d.len() > 0 && all_digits(d) && digits_value(d) <= max {
        Some(digits_value(d))
    } else {
        None
    }
}

pub open spec fn digit_char(d: nat) -> char {
    (('0' as u32) + d) as char
}

/// The decimal text of `n`, without leading zeros, as `Display` writes it.
pub open spec fn decimal(n: nat) -> Seq<char>
    decreases n,
{
    if n < 10 {
        seq![digit_char(n)]
    } else {
        decimal(n / 10).push(digit_char(n % 10))
    }
}

/// The characters of `s`.
pub fn chars_of(s: &str) -> (v: Vec<char>)
    ensures
        v@ == s@,
{
    let mut v: Vec<char> = Vec::new();
    for c in it: s.chars()
        invariant
            v@ == it.seq().take(it.index() as int),
            it.seq() == s@,
    {
        v.push(c);
    }
    v
}

/// Appends `c` to `s` (`String::push`).
#[verifier::external_body]
pub(crate) fn push_char(s: &mut String, c: char)
    ensures
        final(s)@ == old(s)@.push(c),
{
    s.push(c);
}

/// Appends the characters `cs[lo..hi]` to `out`.
pub fn push_chars(out: &mut String, cs: &[char], lo: usize, hi: usize)
    requires
        lo <= hi <= cs@.len(),
    ensures
        final(out)@ == old(out)@ + cs@.subrange(lo as int, hi as int),
{
    let mut i = lo;
    while i < hi
        invariant
            lo <= i <= hi <= cs@.len(),
            out@ == old(out)@ + cs@.subrange(lo as int, i as int),
        decreases hi - i,
    {
        push_char(out, cs[i]);
        assert(cs@.subrange(lo as int, i + 1) == cs@.subrange(lo as int, i as int).push(cs@[i as int]));
        i = i + 1;
    }
}

/// A new string holding `cs[lo..hi]`.
pub fn string_of(cs: &[char], lo: usize, hi: usize) -> (r: String)
    requires
        lo <= hi <= cs@.len(),
    ensures
        r@ == cs@.subrange(lo as int, hi as int),
{
    let mut r = String::new();
    push_chars(&mut r, cs, lo, hi);
    r
}

pub fn is_white_space_char(c: char) -> (r: bool)
    ensures
        r == is_white_space(c),
{
    let u = c as u32;
    (0x09 <= u && u <= 0x0d) || u == 0x20 || u == 0x85 || u == 0xa0 || u == 0x1680 || (0x2000
        <= u && u <= 0x200a) || u == 0x2028 || u == 0x2029 || u == 0x202f || u == 0x205f || u
        == 0x3000
}

proof fn lemma_trim_start_step(s: Seq<char>, i: int, hi: int)
    requires
        0 <= i < hi <= s.len(),
        is_white_space(s[i]),
    ensures
        trim_start(s.subrange(i, hi)) == trim_start(s.subrange(i + 1, hi)),
{
    assert(s.subrange(i, hi).drop_first() == s.subrange(i + 1, hi));
}

proof fn lemma_trim_end_step(s: Seq<char>, lo: int, j: int)
    requires
        0 <= lo < j <= s.len(),
        is_white_space(s[j - 1]),
    ensures
        trim_end(s.subrange(lo, j)) == trim_end(s.subrange(lo, j - 1)),
{
    assert(s.subrange(lo, j).drop_last() == s.subrange(lo, j - 1));
}

/// The bounds of `cs[lo..hi]` with white space trimmed from both ends.
pub fn trim_window(cs: &[char], lo: usize, hi: usize) -> (r: (usize, usize))
    requires
        lo <= hi <= cs@.len(),
    ensures
        lo <= r.0 <= r.1 <= hi,
        cs@.subrange(r.0 as int, r.1 as int) == trim(cs@.subrange(lo as int, hi as int)),
{
    let mut i = lo;
    while i < hi && is_white_space_char(cs[i])
        invariant
            lo <= i <= hi <= cs@.len(),
            trim_start(cs@.subrange(lo as int, hi as int)) == trim_start(
                cs@.subrange(i as int, hi as int),
            ),
        decreases hi - i,
    {
        proof {
            lemma_trim_start_step(cs@, i as int, hi as int);
        }
        i = i + 1;
    }
    assert(trim_start(cs@.subrange(i as int, hi as int)) == cs@.subrange(i as int, hi as int));
    let mut j = hi;
    while j > i && is_white_space_char(cs[j - 1])
        invariant
            lo <= i <= j <= hi <= cs@.len(),
            trim_end(cs@.subrange(i as int, hi as int)) == trim_end(
                cs@.subrange(i as int, j as int),
            ),
        decreases j - i,
    {
        proof {
            lemma_trim_end_step(cs@, i as int, j as int);
        }
        j = j - 1;
    }
    assert(trim_end(cs@.subrange(i as int, j as int)) == cs@.subrange(i as int, j as int));
    (i, j)
}

/// `pat` occurs in `cs` at index `i`.
pub fn matches_at(cs: &[char], i: usize, pat: &[char]) -> (r: bool)
    ensures
        r == occurs_at(cs@, pat@, i as int),
{
    if pat.len() > cs.len() || i > cs.len() - pat.len() {
        return false;
    }
    let end = i + pat.len();
    let mut k: usize = 0;
    while k < pat.len()
        invariant
            end == i + pat@.len(),
            end <= cs@.len(),
            0 <= k <= pat@.len(),
            forall|m: int| 0 <= m < k ==> cs@[i + m] == pat@[m],
        decreases pat@.len() - k,
    {
        if cs[i + k] != pat[k] {
            assert(cs@.subrange(i as int, i + pat@.len())[k as int] != pat@[k as int]);
            return false;
        }
        k = k + 1;
    }
    assert(cs@.subrange(i as int, i + pat@.len()) == pat@);
    true
}

/// The first occurrence of `pat` in `cs` (`str::find`).
pub fn find(cs: &[char], pat: &[char]) -> (r: Option<usize>)
    ensures
        match r {
            Some(i) => first_occurrence(cs@, pat@) == Some(i as int) && occurs_at(cs@, pat@, i as int),
            None => first_occurrence(cs@, pat@) is None,
        },
{
    reveal(first_occurrence);
    if pat.len() > cs.len() {
        assert(forall|i: int| !occurs_at(cs@, pat@, i));
        return None;
    }
    if pat.len() == 0 {
        assert(cs@.subrange(0, 0) =~= pat@);
        assert(occurs_at(cs@, pat@, 0));
        proof {
            let w = choose|w: int| occurs_at(cs@, pat@, w) && forall|j: int| 0 <= j < w ==> !occurs_at(cs@, pat@, j);
            assert(occurs_at(cs@, pat@, w) && forall|j: int| 0 <= j < w ==> !occurs_at(cs@, pat@, j)) by {
                assert(occurs_at(cs@, pat@, 0) && forall|j: int| 0 <= j < 0 ==> !occurs_at(cs@, pat@, j));
            }
            if w > 0 {
                assert(!occurs_at(cs@, pat@, 0));
            }
        }
        return Some(0);
    }
    let last = cs.len() - pat.len();
    let mut i: usize = 0;
    loop
        invariant
            pat@.len() <= cs@.len(),
            last == cs@.len() - pat@.len(),
            i <= last,
            forall|j: int| 0 <= j < i ==> !occurs_at(cs@, pat@, j),
        ensures
            forall|j: int| 0 <= j <= last ==> !occurs_at(cs@, pat@, j),
        decreases last - i,
    {
        if matches_at(cs, i, pat) {
            proof {
                reveal(first_occurrence);
                let w = choose|w: int| occurs_at(cs@, pat@, w) && forall|j: int| 0 <= j < w ==> !occurs_at(cs@, pat@, j);
                assert(occurs_at(cs@, pat@, w) && forall|j: int| 0 <= j < w ==> !occurs_at(cs@, pat@, j)) by {
                    assert(occurs_at(cs@, pat@, i as int) && forall|j: int| 0 <= j < i ==> !occurs_at(cs@, pat@, j));
                }
                if w < i {
                } else if w > i {
                    assert(!occurs_at(cs@, pat@, i as int));
                }
            }
            return Some(i);
        }
        if i == last {
            break;
        }
        i = i + 1;
    }
    assert forall|j: int| !occurs_at(cs@, pat@, j) by {
        if 0 <= j <= last {
        }
    }
    None
}

pub fn ascii_lower_char(c: char) -> (r: char)
    ensures
        r == ascii_lower(c),
{
    if 'A' <= c && c <= 'Z' {
        let u = c as u32 + 32;
        assert(0x61 <= u <= 0x7a);
        char_from_ascii(u)
    } else {
        c
    }
}

/// The character whose code is `u`, for an ASCII code.
fn char_from_ascii(u: u32) -> (r: char)
    requires
        u < 0x80,
    ensures
        r == u as char,
{
    let b = u as u8;
    b as char
}

/// `cs` with ASCII letters in lower case.
pub fn lowercase_chars(cs: &[char]) -> (r: Vec<char>)
    ensures
        r@ == ascii_lowercase(cs@),
{
    let mut r: Vec<char> = Vec::new();
    let mut i: usize = 0;
    while i < cs.len()
        invariant
            i <= cs@.len(),
            r@ == ascii_lowercase(cs@.subrange(0, i as int)),
        decreases cs@.len() - i,
    {
        r.push(ascii_lower_char(cs[i]));
        assert(ascii_lowercase(cs@.subrange(0, i + 1)) == ascii_lowercase(cs@.subrange(0, i as int)).push(ascii_lower(cs@[i as int])));
        i = i + 1;
    }
    assert(cs@.subrange(0, cs@.len() as int) == cs@);
    r
}

proof fn lemma_digits_prefix(s: Seq<char>, k: int)
    requires
        0 <= k <= s.len(),
        all_digits(s),
    ensures
        digits_value(s.subrange(0, k)) <= digits_value(s),
    decreases s.len() - k,
{
    if k < s.len() {
        lemma_digits_prefix(s, k + 1);
        assert(s.subrange(0, k + 1).drop_last() == s.subrange(0, k));
    } else {
        assert(s.subrange(0, k) == s);
    }
}

/// Parses `cs[lo..hi]` as an unsigned integer no greater than `max`, as
/// `str::parse` does for unsigned integer types.
pub fn parse_unsigned_window(cs: &[char], lo: usize, hi: usize, max: u64) -> (r: Option<u64>)
    requires
        lo <= hi <= cs@.len(),
    ensures
        match parse_unsigned(cs@.subrange(lo as int, hi as int), max as nat) {
            Some(v) => r == Some(v as u64),
            None => r is None,
        },
{
    let ghost s = cs@.subrange(lo as int, hi as int);
    let mut start = lo;
    if lo < hi && cs[lo] == '+' {
        start = lo + 1;
    }
    let ghost d = cs@.subrange(start as int, hi as int);
    if lo < hi && cs[lo] == '+' {
        assert(d =~= s.drop_first());
    } else {
        assert(d =~= s);
    }
    assert(d == (if s.len() > 0 && s[0] == '+' { s.drop_first() } else { s }));
    if start == hi {
        assert(d.len() == 0);
        assert(parse_unsigned(s, max as nat) is None);
        return None;
    }
    let mut acc: u64 = 0;
    let mut i = start;
    while i < hi
        invariant
            lo <= start <= i <= hi <= cs@.len(),
            d == cs@.subrange(start as int, hi as int),
            s == cs@.subrange(lo as int, hi as int),
            d == (if s.len() > 0 && s[0] == '+' { s.drop_first() } else { s }),
            acc <= max,
            all_digits(cs@.subrange(start as int, i as int)),
            acc == digits_value(cs@.subrange(start as int, i as int)),
        decreases hi - i,
    {
        let c = cs[i];
        assert(cs@.subrange(start as int, i + 1).drop_last() == cs@.subrange(start as int, i as int));
        if !('0' <= c && c <= '9') {
            assert(d[i - start] == c);
            assert(!all_digits(d));
            assert(parse_unsigned(s, max as nat) is None);
            return None;
        }
        let dv = (c as u32 - '0' as u32) as u64;
        assert(digits_value(cs@.subrange(start as int, i + 1)) == acc * 10 + dv);
        if dv > max || acc > (max - dv) / 10 {
            proof {
                if dv <= max {
                    assert(acc * 10 + dv > max) by (nonlinear_arith)
                        requires
                            acc > (max - dv) / 10,
                            dv <= max,
                    ;
                }
                if all_digits(d) {
                    lemma_digits_prefix(d, i + 1 - start);
                    assert(d.subrange(0, i + 1 - start) == cs@.subrange(start as int, i + 1));
                }
                assert(parse_unsigned(s, max as nat) is None);
            }
            return None;
        }
        proof {
            assert(acc * 10 + dv <= max) by (nonlinear_arith)
                requires
                    acc <= (max - dv) / 10,
                    dv <= max,
            ;
        }
        acc = acc * 10 + dv;
        i = i + 1;
    }
    assert(cs@.subrange(start as int, hi as int) == d);
    Some(acc)
}

/// Appends the decimal text of `n` to `out`, as `Display` for integers does.
pub fn push_decimal(out: &mut String, n: u64)
    ensures
        final(out)@ == old(out)@ + decimal(n as nat),
    decreases n,
{
    if n < 10 {
        push_char(out, char_from_ascii(48 + n as u32));
        assert(old(out)@.push(digit_char(n as nat)) == old(out)@ + seq![digit_char(n as nat)]);
    } else {
        push_decimal(out, n / 10);
        push_char(out, char_from_ascii(48 + (n % 10) as u32));
        assert(old(out)@ + decimal((n / 10) as nat) + seq![digit_char((n % 10) as nat)] == old(out)@ + decimal((n / 10) as nat).push(digit_char((n % 10) as nat)));
    }
}

/// Appends the characters of `s` to `out`.
pub fn push_str(out: &mut String, s: &str)
    ensures
        final(out)@ == old(out)@ + s@,
{
    out.append(s);
}

/// The index of the first line feed in `s`, or its length.
pub open spec fn line_end(s: Seq<char>) -> int
    decreases s.len(),
{
    if s.len() == 0 {
        0
    } else if s[0] == '\n' {
        0
    } else {
        1 + line_end(s.drop_first())
    }
}

/// `s` without one trailing carriage return.
pub open spec fn strip_cr(s: Seq<char>) -> Seq<char> {
    if s.len() > 0 && s.last() == '\r' {
        s.drop_last()
    } else {
        s
    }
}

pub proof fn lemma_line_end_bounds(s: Seq<char>)
    ensures
        0 <= line_end(s) <= s.len(),
        line_end(s) < s.len() ==> s[line_end(s)] == '\n',
        forall|i: int| 0 <= i < line_end(s) ==> s[i] != '\n',
    decreases s.len(),
{
    if s.len() > 0 && s[0] != '\n' {
        lemma_line_end_bounds(s.drop_first());
        assert forall|i: int| 0 <= i < line_end(s) implies s[i] != '\n' by {
            if i > 0 {
                assert(s[i] == s.drop_first()[i - 1]);
            }
        }
    }
}

/// The lines of `s`, as `str::lines` gives them: split after each line
/// feed, the line feed and a carriage return before it removed; no empty
/// line after a final line feed.
pub open spec fn lines(s: Seq<char>) -> Seq<Seq<char>>
    decreases s.len(),
{
    if s.len() == 0 {
        Seq::empty()
    } else {
        let e = line_end(s);
        if e < s.len() {
            proof {
                lemma_line_end_bounds(s);
            }
            seq![strip_cr(s.subrange(0, e))] + lines(s.subrange(e + 1, s.len() as int))
        } else {
            seq![s]
        }
    }
}

proof fn lemma_line_end_step(s: Seq<char>, j: int)
    requires
        0 <= j < s.len(),
        s[j] != '\n',
    ensures
        line_end(s.subrange(j, s.len() as int)) == 1 + line_end(s.subrange(j + 1, s.len() as int)),
{
    assert(s.subrange(j, s.len() as int).drop_first() == s.subrange(j + 1, s.len() as int));
}

/// The end of the line that starts at `start`: the index of the next line
/// feed, or the end of `cs`.
pub fn find_line_end(cs: &[char], start: usize) -> (r: usize)
    requires
        start <= cs@.len(),
    ensures
        start + line_end(cs@.subrange(start as int, cs@.len() as int)) == r,
        r <= cs@.len(),
{
    let mut j = start;
    while j < cs.len() && cs[j] != '\n'
        invariant
            start <= j <= cs@.len(),
            line_end(cs@.subrange(start as int, cs@.len() as int)) == (j - start) + line_end(cs@.subrange(j as int, cs@.len() as int)),
        decreases cs@.len() - j,
    {
        proof {
            lemma_line_end_step(cs@, j as int);
        }
        j = j + 1;
    }
    j
}

/// The bounds of the line `cs[start..e]` without a trailing carriage
/// return.
pub fn strip_cr_window(cs: &[char], start: usize, e: usize) -> (r: usize)
    requires
        start <= e <= cs@.len(),
    ensures
        start <= r <= e,
        cs@.subrange(start as int, r as int) == strip_cr(cs@.subrange(start as int, e as int)),
{
    if e > start && cs[e - 1] == '\r' {
        assert(cs@.subrange(start as int, e as int).drop_last() == cs@.subrange(start as int, e - 1));
        e - 1
    } else {
        e
    }
}

/// The bounds of the lines of `cs`, in order.
pub fn line_windows(cs: &[char]) -> (r: Vec<(usize, usize)>)
    ensures
        r@.len() == lines(cs@).len(),
        forall|i: int| 0 <= i < r@.len() ==> #[trigger] r@[i].0 <= r@[i].1 <= cs@.len(),
        forall|i: int| 0 <= i < r@.len() ==> cs@.subrange(#[trigger] r@[i].0 as int, r@[i].1 as int) == lines(cs@)[i],
{
    let mut r: Vec<(usize, usize)> = Vec::new();
    let mut start: usize = 0;
    let ghost n = cs@.len();
    assert(cs@.subrange(0, n as int) == cs@);
    while start < cs.len()
        invariant
            start <= cs@.len(),
            n == cs@.len(),
            lines(cs@) == r@.map_values(|w: (usize, usize)| cs@.subrange(w.0 as int, w.1 as int)) + lines(cs@.subrange(start as int, n as int)),
            forall|i: int| 0 <= i < r@.len() ==> #[trigger] r@[i].0 <= r@[i].1 <= cs@.len(),
        decreases cs@.len() - start,
    {
        let ghost rest = cs@.subrange(start as int, n as int);
        let e = find_line_end(cs, start);
        proof {
            lemma_line_end_bounds(rest);
        }
        let ghost before = r@;
        if e < cs.len() {
            let stop = strip_cr_window(cs, start, e);
            r.push((start, stop));
            proof {
                assert(rest.subrange(0, e - start) == cs@.subrange(start as int, e as int));
                assert(rest.subrange(e - start + 1, rest.len() as int) == cs@.subrange(e + 1, n as int));
                assert(r@.map_values(|w: (usize, usize)| cs@.subrange(w.0 as int, w.1 as int)) == before.map_values(|w: (usize, usize)| cs@.subrange(w.0 as int, w.1 as int)).push(cs@.subrange(start as int, stop as int)));
            }
            start = e + 1;
        } else {
            r.push((start, e));
            proof {
                assert(rest == cs@.subrange(start as int, e as int));
                assert(r@.map_values(|w: (usize, usize)| cs@.subrange(w.0 as int, w.1 as int)) == before.map_values(|w: (usize, usize)| cs@.subrange(w.0 as int, w.1 as int)).push(cs@.subrange(start as int, e as int)));
                assert(cs@.subrange(e as int, n as int).len() == 0);
            }
            start = e;
        }
    }
    proof {
        assert(lines(cs@.subrange(start as int, n as int)) == Seq::<Seq<char>>::empty());
        let mapped = r@.map_values(|w: (usize, usize)| cs@.subrange(w.0 as int, w.1 as int));
        assert(lines(cs@) == mapped);
        assert forall|i: int| 0 <= i < r@.len() implies cs@.subrange(#[trigger] r@[i].0 as int, r@[i].1 as int) == lines(cs@)[i] by {
            assert(mapped[i] == cs@.subrange(r@[i].0 as int, r@[i].1 as int));
        }
    }
    r
}

/// The index of the first white-space character of `s`, or its length.
pub open spec fn word_end(s: Seq<char>) -> int
    decreases s.len(),
{
    if s.len() == 0 {
        0
    } else if is_white_space(s[0]) {
        0
    } else {
        1 + word_end(s.drop_first())
    }
}

pub proof fn lemma_word_end_bounds(s: Seq<char>)
    ensures
        0 <= word_end(s) <= s.len(),
        word_end(s) < s.len() ==> is_white_space(s[word_end(s)]),
    decreases s.len(),
{
    if s.len() > 0 && !is_white_space(s[0]) {
        lemma_word_end_bounds(s.drop_first());
    }
}

/// The white-space separated words of `s`, as `str::split_whitespace`
/// gives them.
pub open spec fn words(s: Seq<char>) -> Seq<Seq<char>>
    decreases s.len(),
{
    if s.len() == 0 {
        Seq::empty()
    } else if is_white_space(s[0]) {
        words(s.drop_first())
    } else {
        let e = word_end(s);
        proof {
            lemma_word_end_bounds(s.drop_first());
        }
        seq![s.subrange(0, e)] + words(s.subrange(e, s.len() as int))
    }
}

proof fn lemma_word_end_step(s: Seq<char>, j: int, hi: int)
    requires
        0 <= j < hi <= s.len(),
        !is_white_space(s[j]),
    ensures
        word_end(s.subrange(j, hi)) == 1 + word_end(s.subrange(j + 1, hi)),
{
    assert(s.subrange(j, hi).drop_first() == s.subrange(j + 1, hi));
}

/// The bounds of the words of `cs[lo..hi]`, in order.
pub fn word_windows(cs: &[char], lo: usize, hi: usize) -> (r: Vec<(usize, usize)>)
    requires
        lo <= hi <= cs@.len(),
    ensures
        r@.len() == words(cs@.subrange(lo as int, hi as int)).len(),
        forall|i: int| 0 <= i < r@.len() ==> lo <= #[trigger] r@[i].0 <= r@[i].1 <= hi,
        forall|i: int| 0 <= i < r@.len() ==> cs@.subrange(#[trigger] r@[i].0 as int, r@[i].1 as int) == words(cs@.subrange(lo as int, hi as int))[i],
{
    let mut r: Vec<(usize, usize)> = Vec::new();
    let mut pos: usize = lo;
    while pos < hi
        invariant
            lo <= pos <= hi <= cs@.len(),
            words(cs@.subrange(lo as int, hi as int)) == r@.map_values(|w: (usize, usize)| cs@.subrange(w.0 as int, w.1 as int)) + words(cs@.subrange(pos as int, hi as int)),
            forall|i: int| 0 <= i < r@.len() ==> lo <= #[trigger] r@[i].0 <= r@[i].1 <= hi,
        decreases hi - pos,
    {
        let ghost rest = cs@.subrange(pos as int, hi as int);
        if is_white_space_char(cs[pos]) {
            assert(rest.drop_first() == cs@.subrange(pos + 1, hi as int));
            pos = pos + 1;
        } else {
            let mut e = pos + 1;
            proof {
                lemma_word_end_step(cs@, pos as int, hi as int);
            }
            while e < hi && !is_white_space_char(cs[e])
                invariant
                    pos < e <= hi <= cs@.len(),
                    word_end(rest) == (e - pos) + word_end(cs@.subrange(e as int, hi as int)),
                    rest == cs@.subrange(pos as int, hi as int),
                decreases hi - e,
            {
                proof {
                    lemma_word_end_step(cs@, e as int, hi as int);
                }
                e = e + 1;
            }
            proof {
                let tail = cs@.subrange(e as int, hi as int);
                if e < hi {
                    assert(tail[0] == cs@[e as int]);
                }
                assert(word_end(tail) == 0);
                lemma_word_end_bounds(rest.drop_first());
                assert(rest.subrange(0, e - pos) == cs@.subrange(pos as int, e as int));
                assert(rest.subrange(e - pos, rest.len() as int) == tail);
            }
            let ghost before = r@;
            r.push((pos, e));
            proof {
                assert(r@.map_values(|w: (usize, usize)| cs@.subrange(w.0 as int, w.1 as int)) == before.map_values(|w: (usize, usize)| cs@.subrange(w.0 as int, w.1 as int)).push(cs@.subrange(pos as int, e as int)));
            }
            pos = e;
        }
    }
    proof {
        assert(words(cs@.subrange(pos as int, hi as int)) == Seq::<Seq<char>>::empty());
        let mapped = r@.map_values(|w: (usize, usize)| cs@.subrange(w.0 as int, w.1 as int));
        assert(words(cs@.subrange(lo as int, hi as int)) == mapped);
        assert forall|i: int| 0 <= i < r@.len() implies cs@.subrange(#[trigger] r@[i].0 as int, r@[i].1 as int) == words(cs@.subrange(lo as int, hi as int))[i] by {
            assert(mapped[i] == cs@.subrange(r@[i].0 as int, r@[i].1 as int));
        }
    }
    r
}

/// `s` without any trailing `c`, as `str::trim_end_matches` with a char.
pub open spec fn trim_end_char(s: Seq<char>, c: char) -> Seq<char>
    decreases s.len(),
{
    if s.len() > 0 && s.last() == c {
        trim_end_char(s.drop_last(), c)
    } else {
        s
    }
}

/// `s` without any leading `c`, as `str::trim_start_matches` with a char.
pub open spec fn trim_start_char(s: Seq<char>, c: char) -> Seq<char>
    decreases s.len(),
{
    if s.len() > 0 && s[0] == c {
        trim_start_char(s.drop_first(), c)
    } else {
        s
    }
}

/// `s` without `c` at either end, as `str::trim_matches` with a char.
pub open spec fn trim_char(s: Seq<char>, c: char) -> Seq<char> {
    trim_end_char(trim_start_char(s, c), c)
}

/// The bounds of `cs[lo..hi]` without trailing `c`.
pub fn trim_end_char_window(cs: &[char], lo: usize, hi: usize, c: char) -> (r: usize)
    requires
        lo <= hi <= cs@.len(),
    ensures
        lo <= r <= hi,
        cs@.subrange(lo as int, r as int) == trim_end_char(cs@.subrange(lo as int, hi as int), c),
{
    let mut j = hi;
    while j > lo && cs[j - 1] == c
        invariant
            lo <= j <= hi <= cs@.len(),
            trim_end_char(cs@.subrange(lo as int, hi as int), c) == trim_end_char(cs@.subrange(lo as int, j as int), c),
        decreases j - lo,
    {
        assert(cs@.subrange(lo as int, j as int).drop_last() == cs@.subrange(lo as int, j - 1));
        j = j - 1;
    }
    j
}

/// The bounds of `cs[lo..hi]` without `c` at either end.
pub fn trim_char_window(cs: &[char], lo: usize, hi: usize, c: char) -> (r: (usize, usize))
    requires
        lo <= hi <= cs@.len(),
    ensures
        lo <= r.0 <= r.1 <= hi,
        cs@.subrange(r.0 as int, r.1 as int) == trim_char(cs@.subrange(lo as int, hi as int), c),
{
    let mut i = lo;
    while i < hi && cs[i] == c
        invariant
            lo <= i <= hi <= cs@.len(),
            trim_start_char(cs@.subrange(lo as int, hi as int), c) == trim_start_char(cs@.subrange(i as int, hi as int), c),
        decreases hi - i,
    {
        assert(cs@.subrange(i as int, hi as int).drop_first() == cs@.subrange(i + 1, hi as int));
        i = i + 1;
    }
    assert(trim_start_char(cs@.subrange(i as int, hi as int), c) == cs@.subrange(i as int, hi as int));
    let j = trim_end_char_window(cs, i, hi, c);
    (i, j)
}

/// A copy of `cs[lo..hi]`.
pub fn chars_window(cs: &[char], lo: usize, hi: usize) -> (r: Vec<char>)
    requires
        lo <= hi <= cs@.len(),
    ensures
        r@ == cs@.subrange(lo as int, hi as int),
{
    let mut r: Vec<char> = Vec::new();
    let mut i = lo;
    while i < hi
        invariant
            lo <= i <= hi <= cs@.len(),
            r@ == cs@.subrange(lo as int, i as int),
        decreases hi - i,
    {
        r.push(cs[i]);
        assert(cs@.subrange(lo as int, i + 1) == cs@.subrange(lo as int, i as int).push(cs@[i as int]));
        i = i + 1;
    }
    r
}

/// Whether `cs` holds exactly the characters of `lit`.
pub fn same_chars(cs: &[char], lit: &str) -> (r: bool)
    ensures
        r == (cs@ == lit@),
{
    let l = chars_of(lit);
    if cs.len() != l.len() {
        return false;
    }
    let mut i: usize = 0;
    while i < cs.len()
        invariant
            cs@.len() == l@.len(),
            l@ == lit@,
            i <= cs@.len(),
            forall|k: int| 0 <= k < i ==> cs@[k] == l@[k],
        decreases cs@.len() - i,
    {
        if cs[i] != l[i] {
            return false;
        }
        i = i + 1;
    }
    assert(cs@ =~= l@);
    true
}

/// Whether `a` and `b` hold the same characters.
pub fn chars_eq(a: &[char], b: &[char]) -> (r: bool)
    ensures
        r == (a@ == b@),
{
    if a.len() != b.len() {
        return false;
    }
    let mut i: usize = 0;
    while i < a.len()
        invariant
            a@.len() == b@.len(),
            i <= a@.len(),
            forall|k: int| 0 <= k < i ==> a@[k] == b@[k],
        decreases a@.len() - i,
    {
        if a[i] != b[i] {
            return false;
        }
        i = i + 1;
    }
    assert(a@ =~= b@);
    true
}

/// Appends the decimal text of `n` to `out`, as `Display` for integers does.
pub fn push_decimal_wide(out: &mut String, n: u128)
    ensures
        final(out)@ == old(out)@ + decimal(n as nat),
    decreases n,
{
    if n < 10 {
        push_char(out, char_from_ascii(48 + n as u32));
        assert(old(out)@.push(digit_char(n as nat)) == old(out)@ + seq![digit_char(n as nat)]);
    } else {
        push_decimal_wide(out, n / 10);
        push_char(out, char_from_ascii(48 + (n % 10) as u32));
        assert(old(out)@ + decimal((n / 10) as nat) + seq![digit_char((n % 10) as nat)] == old(out)@ + decimal((n / 10) as nat).push(digit_char((n % 10) as nat)));
    }
}

/// `n` spaces.
pub open spec fn spaces(n: nat) -> Seq<char> {
    Seq::new(n, |i: int| ' ')
}

/// `s` followed by spaces up to `w` characters, as `{:<w}` writes it.
pub open spec fn pad_right(s: Seq<char>, w: nat) -> Seq<char> {
    if s.len() >= w {
        s
    } else {
        s + spaces((w - s.len()) as nat)
    }
}

/// `s` after spaces up to `w` characters, as `{:>w}` writes it.
pub open spec fn pad_left(s: Seq<char>, w: nat) -> Seq<char> {
    if s.len() >= w {
        s
    } else {
        spaces((w - s.len()) as nat) + s
    }
}

fn push_spaces(out: &mut String, n: usize)
    ensures
        final(out)@ == old(out)@ + spaces(n as nat),
{
    let mut i: usize = 0;
    while i < n
        invariant
            i <= n,
            out@ == old(out)@ + spaces(i as nat),
        decreases n - i,
    {
        push_char(out, ' ');
        assert(spaces((i + 1) as nat) == spaces(i as nat).push(' '));
        i = i + 1;
    }
}

/// Appends `s` padded on the right to `w` characters.
pub fn push_padded_right(out: &mut String, s: &str, w: usize)
    ensures
        final(out)@ == old(out)@ + pad_right(s@, w as nat),
{
    let n = chars_of(s).len();
    push_str(out, s);
    if n < w {
        push_spaces(out, w - n);
    }
}

/// Appends `s` padded on the left to `w` characters.
pub fn push_padded_left(out: &mut String, s: &str, w: usize)
    ensures
        final(out)@ == old(out)@ + pad_left(s@, w as nat),
{
    let n = chars_of(s).len();
    if n < w {
        push_spaces(out, w - n);
    }
    push_str(out, s);
    proof {
        if n < w {
            assert(old(out)@ + spaces((w - n) as nat) + s@ == old(out)@ + (spaces((w - n) as nat) + s@));
        }
    }
}

} // verus!
