//! Character-level text primitives shared by the rest of the library.

use vstd::prelude::*;
use vstd::std_specs::iter::IteratorSpec;

verus! {

broadcast use vstd::string::group_string_axioms;

/// The characters of a string, in order.
pub fn chars_of(s: &str) -> (v: Vec<char>)
    ensures
        v@ == s@,
{
    let mut v: Vec<char> = Vec::new();
    for c in it: s.chars()
        invariant
            it.seq() == s@,
            v@ == s@.take(it.index()),
    {
        v.push(c);
        assert(v@ =~= s@.take(it.index() + 1));
    }
    assert(v@ =~= s@);
    v
}

/// `String::push`: appends one character at the end of the string.
#[verifier::external_body]
fn push_char(s: &mut String, c: char)
    ensures
        final(s)@ == old(s)@.push(c),
{
    s.push(c);
}

/// The string made of the given characters.
pub fn string_of(v: &[char]) -> (s: String)
    ensures
        s@ == v@,
{
    let mut s = String::new();
    let mut i: usize = 0;
    while i < v.len()
        invariant
            i <= v.len(),
            s@ == v@.take(i as int),
        decreases v.len() - i,
    {
        push_char(&mut s, v[i]);
        i = i + 1;
        assert(s@ =~= v@.take(i as int));
    }
    assert(v@.take(v.len() as int) =~= v@);
    s
}


/// `p` occurs in `s` at position `i`.
pub open spec fn matches_at(s: Seq<char>, p: Seq<char>, i: int) -> bool {
    0 <= i && i + p.len() <= s.len() && s.subrange(i, i + p.len()) == p
}

/// The first position at or after `i` where `p` occurs in `s`.
pub open spec fn find_from(s: Seq<char>, p: Seq<char>, i: int) -> Option<int>
    decreases s.len() + 1 - i,
{
    if i < 0 || i + p.len() > s.len() {
        None
    } else if matches_at(s, p, i) {
        Some(i)
    } else {
        find_from(s, p, i + 1)
    }
}

/// `s` contains `p` somewhere.
pub open spec fn contains(s: Seq<char>, p: Seq<char>) -> bool {
    find_from(s, p, 0) is Some
}

/// `s` begins with `p`.
pub open spec fn starts_with(s: Seq<char>, p: Seq<char>) -> bool {
    matches_at(s, p, 0)
}

/// `s` ends with `p`.
pub open spec fn ends_with(s: Seq<char>, p: Seq<char>) -> bool {
    p.len() <= s.len() && matches_at(s, p, s.len() - p.len())
}

/// What `find_from` returns is a match, and no earlier position from `i` on is one.
pub proof fn lemma_find_from(s: Seq<char>, p: Seq<char>, i: int)
    requires
        0 <= i,
    ensures
        find_from(s, p, i) matches Some(k) ==> i <= k && matches_at(s, p, k) && forall|j: int|
            i <= j < k ==> !matches_at(s, p, j),
        find_from(s, p, i) is None ==> forall|j: int| i <= j ==> !matches_at(s, p, j),
    decreases s.len() + 1 - i,
{
    if i + p.len() > s.len() {
    } else if matches_at(s, p, i) {
    } else {
        lemma_find_from(s, p, i + 1);
    }
}

/// Whether `p` occurs in `s` at position `i`.
pub fn matches_at_exec(s: &[char], p: &[char], i: usize) -> (r: bool)
    ensures
        r == matches_at(s@, p@, i as int),
{
    if i > s.len() || p.len() > s.len() - i {
        return false;
    }
    let mut k: usize = 0;
    while k < p.len()
        invariant
            k <= p.len(),
            i + p.len() <= s.len(),
            forall|j: int| 0 <= j < k ==> s@[i + j] == p@[j],
        decreases p.len() - k,
    {
        if s[i + k] != p[k] {
            assert(s@.subrange(i as int, i + p.len())[k as int] != p@[k as int]);
            return false;
        }
        k = k + 1;
    }
    assert(s@.subrange(i as int, i + p.len()) =~= p@);
    true
}

/// The first position at or after `start` where `p` occurs in `s`.
pub fn find_from_exec(s: &[char], p: &[char], start: usize) -> (r: Option<usize>)
    ensures
        r matches Some(k) ==> find_from(s@, p@, start as int) == Some(k as int),
        r is None ==> find_from(s@, p@, start as int) is None,
{
    let mut i: usize = start;
    while i <= s.len() && p.len() <= s.len() - i
        invariant
            start <= i,
            find_from(s@, p@, start as int) == find_from(s@, p@, i as int),
        decreases s.len() + 1 - i,
    {
        if matches_at_exec(s, p, i) {
            return Some(i);
        }
        assert(i < s.len()) by {
            if i == s.len() {
                assert(s@.subrange(i as int, i as int) =~= p@);
            }
        }
        i = i + 1;
    }
    None
}

/// `s` with every non-overlapping occurrence of `from`, taken from the left,
/// replaced by `to`.
pub open spec fn replace_all(s: Seq<char>, from: Seq<char>, to: Seq<char>) -> Seq<char>
    recommends
        from.len() > 0,
    decreases s.len(),
{
    if s.len() == 0 || from.len() == 0 {
        s
    } else if matches_at(s, from, 0) {
        to + replace_all(s.skip(from.len() as int), from, to)
    } else {
        seq![s[0]] + replace_all(s.skip(1), from, to)
    }
}

/// `str::replace` for a non-empty pattern: every non-overlapping occurrence of
/// `from`, taken from the left, replaced by `to`.
pub fn replace_all_exec(s: &[char], from: &[char], to: &[char]) -> (r: Vec<char>)
    requires
        from@.len() > 0,
    ensures
        r@ == replace_all(s@, from@, to@),
{
    let mut r: Vec<char> = Vec::new();
    let mut i: usize = 0;
    assert(s@.skip(0) =~= s@);
    while i < s.len()
        invariant
            i <= s.len(),
            from@.len() > 0,
            r@ + replace_all(s@.skip(i as int), from@, to@) == replace_all(s@, from@, to@),
        decreases s.len() - i,
    {
        let ghost rest = s@.skip(i as int);
        if matches_at_exec(s, from, i) {
            assert(rest.subrange(0, from@.len() as int) =~= s@.subrange(i as int, i + from@.len()));
            assert(rest.skip(from@.len() as int) =~= s@.skip(i + from@.len()));
            let mut k: usize = 0;
            let ghost r0 = r@;
            while k < to.len()
                invariant
                    k <= to.len(),
                    r@ == r0 + to@.take(k as int),
                decreases to.len() - k,
            {
                r.push(to[k]);
                k = k + 1;
                assert(r@ =~= r0 + to@.take(k as int));
            }
            assert(to@.take(to.len() as int) =~= to@);
            assert(r0 + (to@ + replace_all(rest.skip(from@.len() as int), from@, to@)) =~= r@
                + replace_all(rest.skip(from@.len() as int), from@, to@));
            i = i + from.len();
        } else {
            assert(!matches_at(rest, from@, 0)) by {
                if matches_at(rest, from@, 0) {
                    assert(rest.subrange(0, from@.len() as int) =~= s@.subrange(i as int, i + from@.len()));
                }
            }
            assert(rest.skip(1) =~= s@.skip(i + 1));
            let ghost r0 = r@;
            r.push(s[i]);
            assert(r0 + (seq![s@[i as int]] + replace_all(rest.skip(1), from@, to@)) =~= r@
                + replace_all(rest.skip(1), from@, to@));
            i = i + 1;
        }
    }
    assert(s@.skip(i as int) =~= Seq::<char>::empty());
    assert(r@ + Seq::<char>::empty() =~= r@);
    r
}


/// The Unicode `White_Space` property (the set that `char::is_whitespace` and
/// the `\s` class of regular expressions both use).
pub open spec fn is_white_space(c: char) -> bool {
    let u = c as u32;
    ||| 0x09 <= u <= 0x0d
    ||| u == 0x20
    ||| u == 0x85
    ||| u == 0xa0
    ||| u == 0x1680
    ||| 0x2000 <= u <= 0x200a
    ||| u == 0x2028
    ||| u == 0x2029
    ||| u == 0x202f
    ||| u == 0x205f
    ||| u == 0x3000
}

/// Whether `c` has the Unicode `White_Space` property.
pub fn is_white_space_exec(c: char) -> (r: bool)
    ensures
        r == is_white_space(c),
{
    let u = c as u32;
    (0x09 <= u && u <= 0x0d) || u == 0x20 || u == 0x85 || u == 0xa0 || u == 0x1680 || (0x2000
        <= u && u <= 0x200a) || u == 0x2028 || u == 0x2029 || u == 0x202f || u == 0x205f || u
        == 0x3000
}

/// The ASCII decimal digit for `d`.
pub open spec fn digit_char(d: int) -> char {
    (48 + d) as char
}

/// An ASCII decimal digit.
pub open spec fn is_ascii_digit(c: char) -> bool {
    '0' <= c && c <= '9'
}

/// The decimal notation of `n`, without sign or leading zeros (as `to_string`
/// writes an unsigned integer).
pub open spec fn decimal(n: nat) -> Seq<char>
    decreases n,
{
    if n < 10 {
        seq![digit_char(n as int)]
    } else {
        decimal(n / 10).push(digit_char((n % 10) as int))
    }
}

fn digit_exec(d: u64) -> (c: char)
    requires
        d < 10,
    ensures
        c == digit_char(d as int),
        is_ascii_digit(c),
{
    let b: u8 = 48u8 + (d as u8);
    b as char
}

/// The decimal notation of `n` (`n.to_string()`).
pub fn decimal_exec(n: u64) -> (r: Vec<char>)
    ensures
        r@ == decimal(n as nat),
    decreases n,
{
    if n < 10 {
        let mut r: Vec<char> = Vec::new();
        r.push(digit_exec(n));
        assert(r@ =~= seq![digit_char(n as int)]);
        r
    } else {
        let mut r = decimal_exec(n / 10);
        r.push(digit_exec(n % 10));
        r
    }
}

/// The decimal notation of `n` (`n.to_string()`).
pub fn decimal_usize(n: usize) -> (r: Vec<char>)
    ensures
        r@ == decimal(n as nat),
{
    decimal_exec(n as u64)
}

/// The value of a string of ASCII decimal digits.
pub open spec fn digits_value(s: Seq<char>) -> nat
    decreases s.len(),
{
    if s.len() == 0 {
        0
    } else {
        digits_value(s.drop_last()) * 10 + ((s.last() as int - 48) as nat)
    }
}

/// Every character of `s` is an ASCII decimal digit.
pub open spec fn all_digits(s: Seq<char>) -> bool {
    forall|i: int| 0 <= i < s.len() ==> is_ascii_digit(#[trigger] s[i])
}

/// `str::parse::<u32>`: an optional `+` sign, then one or more ASCII digits
/// whose value fits in a `u32`.
pub open spec fn parse_u32(s: Seq<char>) -> Option<u32> {
    let d = if s.len() > 1 && s[0] == '+' {
        s.skip(1)
    } else {
        s
    };
    if d.len() > 0 && all_digits(d) && digits_value(d) <= u32::MAX {
        Some(digits_value(d) as u32)
    } else {
        None
    }
}

proof fn lemma_digits_value_prefix(s: Seq<char>, k: int)
    requires
        0 <= k <= s.len(),
        all_digits(s),
    ensures
        digits_value(s.take(k)) <= digits_value(s),
    decreases s.len(),
{
    if k < s.len() {
        let t = s.drop_last();
        assert(all_digits(t)) by {
            assert forall|i: int| 0 <= i < t.len() implies is_ascii_digit(#[trigger] t[i]) by {
                assert(t[i] == s[i]);
            }
        }
        lemma_digits_value_prefix(t, k);
        assert(t.take(k) =~= s.take(k));
        assert(is_ascii_digit(s[s.len() - 1]));
    } else {
        assert(s.take(k) =~= s);
    }
}

/// `str::parse::<u32>`.
#[verifier::rlimit(40)]
pub fn parse_u32_exec(s: &[char]) -> (r: Option<u32>)
    ensures
        r == parse_u32(s@),
{
    let start: usize = if s.len() > 1 && s[0] == '+' {
        1
    } else {
        0
    };
    let ghost d = if s@.len() > 1 && s@[0] == '+' {
        s@.skip(1)
    } else {
        s@
    };
    assert(d =~= s@.skip(start as int));
    if start >= s.len() {
        return None;
    }
    let mut v: u64 = 0;
    let mut overflow = false;
    let mut i: usize = start;
    while i < s.len()
        invariant
            start <= i <= s.len(),
            d =~= s@.skip(start as int),
            d == (if s@.len() > 1 && s@[0] == '+' {
                s@.skip(1)
            } else {
                s@
            }),
            all_digits(d.take(i - start)),
            !overflow ==> v == digits_value(d.take(i - start)) && v <= u32::MAX,
            overflow ==> digits_value(d.take(i - start)) > u32::MAX,
        decreases s.len() - i,
    {
        let c = s[i];
        if !('0' <= c && c <= '9') {
            assert(d[i - start] == c);
            assert(!is_ascii_digit(d[(i - start) as int]));
            assert(!all_digits(d));
            return None;
        }
        let ghost pre = d.take(i - start);
        let ghost nxt = d.take(i - start + 1);
        assert(nxt.drop_last() =~= pre);
        assert(nxt.last() == c);
        assert(all_digits(nxt)) by {
            assert forall|j: int| 0 <= j < nxt.len() implies is_ascii_digit(#[trigger] nxt[j]) by {
                if j < pre.len() {
                    assert(nxt[j] == pre[j]);
                }
            }
        }
        if !overflow {
            let dv: u64 = (c as u32 - 48) as u64;
            let nv: u64 = v * 10 + dv;
            if nv > 4294967295u64 {
                overflow = true;
            } else {
                v = nv;
            }
        }
        i = i + 1;
    }
    assert(d.take(i - start) =~= d);
    if overflow {
        None
    } else {
        Some(v as u32)
    }
}

/// The value that `decimal` writes reads back with `parse_u32`.
pub proof fn lemma_decimal_digits(n: nat)
    ensures
        decimal(n).len() > 0,
        all_digits(decimal(n)),
        digits_value(decimal(n)) == n,
        decimal(n)[0] != '+',
    decreases n,
{
    if n < 10 {
        let d = decimal(n);
        assert(d.drop_last() =~= Seq::<char>::empty());
        assert(d.last() == digit_char(n as int));
        assert(digit_char(n as int) as int == 48 + n);
        assert(digits_value(d.drop_last()) == 0);
        assert(digits_value(d) == digits_value(d.drop_last()) * 10 + ((d.last() as int - 48) as nat));
    } else {
        lemma_decimal_digits(n / 10);
        let d = decimal(n);
        let p = decimal(n / 10);
        assert(d.drop_last() =~= p);
        assert(all_digits(d)) by {
            assert forall|j: int| 0 <= j < d.len() implies is_ascii_digit(#[trigger] d[j]) by {
                if j < p.len() {
                    assert(d[j] == p[j]);
                }
            }
        }
        assert(d[0] == p[0]);
        assert(d.last() == digit_char((n % 10) as int));
        assert(digit_char((n % 10) as int) as int == 48 + n % 10);
        assert(digits_value(d) == digits_value(p) * 10 + n % 10);
        assert((n / 10) * 10 + n % 10 == n);
    }
}

/// Reading back a written number gives the number: `parse_u32(decimal(n)) == n`.
pub proof fn lemma_parse_decimal(n: u32)
    ensures
        parse_u32(decimal(n as nat)) == Some(n),
{
    lemma_decimal_digits(n as nat);
}


/// The end of the run of non-white-space characters that starts at `i`.
pub open spec fn run_end(s: Seq<char>, i: int) -> int
    decreases s.len() - i,
{
    if i < 0 || i >= s.len() || is_white_space(s[i]) {
        i
    } else {
        run_end(s, i + 1)
    }
}

pub proof fn lemma_run_end(s: Seq<char>, i: int)
    requires
        0 <= i <= s.len(),
    ensures
        i <= run_end(s, i) <= s.len(),
        i < s.len() && !is_white_space(s[i]) ==> i < run_end(s, i),
        forall|j: int| i <= j < run_end(s, i) ==> !is_white_space(#[trigger] s[j]),
        run_end(s, i) < s.len() ==> is_white_space(s[run_end(s, i)]),
    decreases s.len() - i,
{
    if i < s.len() && !is_white_space(s[i]) {
        lemma_run_end(s, i + 1);
    }
}

/// The white-space separated words of `s` from position `i` on, in order
/// (`str::split_whitespace`).
pub open spec fn words_from(s: Seq<char>, i: int) -> Seq<Seq<char>>
    decreases s.len() - i,
{
    if i < 0 || i >= s.len() {
        Seq::empty()
    } else if is_white_space(s[i]) {
        words_from(s, i + 1)
    } else {
        proof {
            lemma_run_end(s, i);
        }
        seq![s.subrange(i, run_end(s, i))] + words_from(s, run_end(s, i))
    }
}

/// The white-space separated words of `s` (`str::split_whitespace`).
pub open spec fn words(s: Seq<char>) -> Seq<Seq<char>> {
    words_from(s, 0)
}

/// `str::split_whitespace`, collected.
pub fn split_whitespace(s: &[char]) -> (r: Vec<Vec<char>>)
    ensures
        r.len() == words(s@).len(),
        forall|k: int| 0 <= k < r.len() ==> (#[trigger] r[k])@ == words(s@)[k],
{
    let mut r: Vec<Vec<char>> = Vec::new();
    let ghost done: Seq<Seq<char>> = Seq::empty();
    let mut i: usize = 0;
    while i < s.len()
        invariant
            i <= s.len(),
            r.len() == done.len(),
            forall|k: int| 0 <= k < r.len() ==> (#[trigger] r[k])@ == done[k],
            done + words_from(s@, i as int) == words(s@),
        decreases s.len() - i,
    {
        if is_white_space_exec(s[i]) {
            i = i + 1;
        } else {
            proof {
                lemma_run_end(s@, i as int);
            }
            let mut e: usize = i;
            while e < s.len() && !is_white_space_exec(s[e])
                invariant
                    i <= e <= s.len(),
                    run_end(s@, e as int) == run_end(s@, i as int),
                decreases s.len() - e,
            {
                e = e + 1;
            }
            let mut w: Vec<char> = Vec::new();
            let mut k: usize = i;
            while k < e
                invariant
                    i <= k <= e <= s.len(),
                    w@ == s@.subrange(i as int, k as int),
                decreases e - k,
            {
                w.push(s[k]);
                k = k + 1;
                assert(w@ =~= s@.subrange(i as int, k as int));
            }
            proof {
                let nd = done.push(s@.subrange(i as int, e as int));
                assert(done + words_from(s@, i as int) =~= nd + words_from(s@, e as int));
                done = nd;
            }
            r.push(w);
            i = e;
        }
    }
    assert(done + words_from(s@, i as int) =~= done);
    r
}

/// The end of the line that starts at `i`: the next line feed, or the end.
pub open spec fn line_end(s: Seq<char>, i: int) -> int
    decreases s.len() - i,
{
    if i < 0 || i >= s.len() || s[i] == '\n' {
        i
    } else {
        line_end(s, i + 1)
    }
}

pub proof fn lemma_line_end(s: Seq<char>, i: int)
    requires
        0 <= i <= s.len(),
    ensures
        i <= line_end(s, i) <= s.len(),
        forall|j: int| i <= j < line_end(s, i) ==> #[trigger] s[j] != '\n',
        line_end(s, i) < s.len() ==> s[line_end(s, i)] == '\n',
    decreases s.len() - i,
{
    if i < s.len() && s[i] != '\n' {
        lemma_line_end(s, i + 1);
    }
}

/// A line without its terminator: a carriage return just before the line
/// feed is dropped too.
pub open spec fn strip_terminator(s: Seq<char>, i: int, e: int) -> Seq<char> {
    let raw = s.subrange(i, e);
    if e < s.len() && raw.len() > 0 && raw.last() == '\r' {
        raw.drop_last()
    } else {
        raw
    }
}

/// The lines of `s` from position `i` on (`str::lines`): split at line feeds,
/// a `\r\n` pair ends a line too, and a final line ending adds no empty line.
pub open spec fn lines_from(s: Seq<char>, i: int) -> Seq<Seq<char>>
    decreases s.len() + 1 - i,
{
    if i < 0 || i >= s.len() {
        Seq::empty()
    } else {
        proof {
            lemma_line_end(s, i);
        }
        seq![strip_terminator(s, i, line_end(s, i))] + lines_from(s, line_end(s, i) + 1)
    }
}

/// The lines of `s` (`str::lines`).
pub open spec fn lines(s: Seq<char>) -> Seq<Seq<char>> {
    lines_from(s, 0)
}

/// `str::lines`, collected.
pub fn split_lines(s: &[char]) -> (r: Vec<Vec<char>>)
    ensures
        r.len() == lines(s@).len(),
        forall|k: int| 0 <= k < r.len() ==> (#[trigger] r[k])@ == lines(s@)[k],
{
    let mut r: Vec<Vec<char>> = Vec::new();
    let ghost done: Seq<Seq<char>> = Seq::empty();
    let mut i: usize = 0;
    while i < s.len()
        invariant
            i <= s.len(),
            r.len() == done.len(),
            forall|k: int| 0 <= k < r.len() ==> (#[trigger] r[k])@ == done[k],
            done + lines_from(s@, i as int) == lines(s@),
        decreases s.len() - i,
    {
        proof {
            lemma_line_end(s@, i as int);
        }
        let mut e: usize = i;
        while e < s.len() && s[e] != '\n'
            invariant
                i <= e <= s.len(),
                line_end(s@, e as int) == line_end(s@, i as int),
            decreases s.len() - e,
        {
            e = e + 1;
        }
        let stop: usize = if e < s.len() && e > i && s[e - 1] == '\r' {
            e - 1
        } else {
            e
        };
        let mut w: Vec<char> = Vec::new();
        let mut k: usize = i;
        while k < stop
            invariant
                i <= k <= stop <= e <= s.len(),
                w@ == s@.subrange(i as int, k as int),
            decreases stop - k,
        {
            w.push(s[k]);
            k = k + 1;
            assert(w@ =~= s@.subrange(i as int, k as int));
        }
        assert(w@ =~= strip_terminator(s@, i as int, e as int));
        proof {
            let nd = done.push(strip_terminator(s@, i as int, e as int));
            assert(done + lines_from(s@, i as int) =~= nd + lines_from(s@, e + 1));
            done = nd;
        }
        r.push(w);
        if e == s.len() {
            assert(lines_from(s@, e + 1) =~= Seq::<Seq<char>>::empty());
            i = e;
        } else {
            i = e + 1;
        }
    }
    assert(done + lines_from(s@, i as int) =~= done);
    r
}


/// Appends the characters of `w` to `v`.
pub fn append_chars(v: &mut Vec<char>, w: &[char])
    ensures
        final(v)@ == old(v)@ + w@,
{
    let ghost v0 = v@;
    let mut k: usize = 0;
    while k < w.len()
        invariant
            k <= w.len(),
            v@ == v0 + w@.take(k as int),
        decreases w.len() - k,
    {
        v.push(w[k]);
        k = k + 1;
        assert(v@ =~= v0 + w@.take(k as int));
    }
    assert(w@.take(w.len() as int) =~= w@);
}

/// Appends the characters of `s` to `v`.
pub fn append_str(v: &mut Vec<char>, s: &str)
    ensures
        final(v)@ == old(v)@ + s@,
{
    let w = chars_of(s);
    append_chars(v, &w);
}

/// Whether two character sequences are equal.
pub fn chars_eq(a: &[char], b: &[char]) -> (r: bool)
    ensures
        r == (a@ == b@),
{
    if a.len() != b.len() {
        return false;
    }
    let mut k: usize = 0;
    while k < a.len()
        invariant
            k <= a.len() == b.len(),
            forall|j: int| 0 <= j < k ==> a@[j] == b@[j],
        decreases a.len() - k,
    {
        if a[k] != b[k] {
            return false;
        }
        k = k + 1;
    }
    assert(a@ =~= b@);
    true
}


/// `PathBuf::join` on Unix: an absolute component replaces the path, else it
/// is added after a `/` (none when the path is empty or already ends in one).
pub open spec fn path_join(base: Seq<char>, comp: Seq<char>) -> Seq<char> {
    if comp.len() > 0 && comp[0] == '/' {
        comp
    } else if base.len() == 0 || base.last() == '/' {
        base + comp
    } else {
        base + seq!['/'] + comp
    }
}

/// `PathBuf::join` on Unix.
pub fn path_join_exec(base: &[char], comp: &[char]) -> (r: Vec<char>)
    ensures
        r@ == path_join(base@, comp@),
{
    if comp.len() > 0 && comp[0] == '/' {
        let mut r: Vec<char> = Vec::new();
        append_chars(&mut r, comp);
        assert(r@ =~= comp@);
        return r;
    }
    let mut r: Vec<char> = Vec::new();
    append_chars(&mut r, base);
    assert(r@ =~= base@);
    if !(base.len() == 0 || base[base.len() - 1] == '/') {
        r.push('/');
    }
    append_chars(&mut r, comp);
    r
}

proof fn lemma_run_end_shift(p: Seq<char>, y: Seq<char>, j: int)
    requires
        0 <= j <= y.len(),
    ensures
        run_end(p + y, p.len() + j) == p.len() + run_end(y, j),
    decreases y.len() - j,
{
    let s = p + y;
    if j < y.len() {
        assert(s[p.len() + j] == y[j]);
        if !is_white_space(y[j]) {
            lemma_run_end_shift(p, y, j + 1);
        }
    }
}

proof fn lemma_words_from_shift(p: Seq<char>, y: Seq<char>, j: int)
    requires
        0 <= j <= y.len(),
    ensures
        words_from(p + y, p.len() + j) == words_from(y, j),
    decreases y.len() - j,
{
    let s = p + y;
    if j < y.len() {
        assert(s[p.len() + j] == y[j]);
        if is_white_space(y[j]) {
            lemma_words_from_shift(p, y, j + 1);
        } else {
            lemma_run_end(y, j);
            lemma_run_end_shift(p, y, j);
            let e = run_end(y, j);
            lemma_words_from_shift(p, y, e);
            assert(s.subrange(p.len() + j, p.len() + e) =~= y.subrange(j, e));
        }
    }
}

proof fn lemma_run_end_prefix(x: Seq<char>, w: Seq<char>, i: int)
    requires
        0 <= i <= x.len(),
        w.len() > 0,
        is_white_space(w[0]),
    ensures
        run_end(x + w, i) == run_end(x, i),
    decreases x.len() - i,
{
    let s = x + w;
    if i < x.len() {
        assert(s[i] == x[i]);
        if !is_white_space(x[i]) {
            lemma_run_end_prefix(x, w, i + 1);
        }
    } else {
        assert(s[i] == w[0]);
    }
}

proof fn lemma_words_from_white(s: Seq<char>, a: int, b: int)
    requires
        0 <= a <= b <= s.len(),
        forall|k: int| a <= k < b ==> is_white_space(#[trigger] s[k]),
    ensures
        words_from(s, a) == words_from(s, b),
    decreases b - a,
{
    if a < b {
        lemma_words_from_white(s, a + 1, b);
    }
}

proof fn lemma_words_from_split(x: Seq<char>, w: Seq<char>, y: Seq<char>, i: int)
    requires
        0 <= i <= x.len(),
        w.len() > 0,
        forall|k: int| 0 <= k < w.len() ==> is_white_space(#[trigger] w[k]),
    ensures
        words_from(x + w + y, i) == words_from(x, i) + words(y),
    decreases x.len() - i,
{
    let s = x + w + y;
    let xw = x + w;
    assert(s =~= xw + y);
    if i < x.len() {
        assert(s[i] == x[i]);
        if is_white_space(x[i]) {
            lemma_words_from_split(x, w, y, i + 1);
        } else {
            lemma_run_end(x, i);
            assert(is_white_space(w[0]));
            lemma_run_end_prefix(x, w + y, i);
            assert(x + (w + y) =~= s);
            let e = run_end(x, i);
            lemma_words_from_split(x, w, y, e);
            assert(s.subrange(i, e) =~= x.subrange(i, e));
            assert(words_from(x, i) == seq![x.subrange(i, e)] + words_from(x, e));
            assert(seq![x.subrange(i, e)] + words_from(x, e) + words(y) =~= seq![x.subrange(i, e)] + (
            words_from(x, e) + words(y)));
        }
    } else {
        assert forall|k: int| x.len() <= k < x.len() + w.len() implies is_white_space(#[trigger] s[k]) by {
            assert(s[k] == w[k - x.len()]);
        }
        lemma_words_from_white(s, x.len() as int, xw.len() as int);
        lemma_words_from_shift(xw, y, 0);
        assert(words_from(x, i) =~= Seq::<Seq<char>>::empty());
        assert(Seq::<Seq<char>>::empty() + words(y) =~= words(y));
    }
}

/// White space splits a text: the words of `x`, a non-empty run of white
/// space, then `y`, are the words of `x` followed by those of `y`.
pub proof fn lemma_words_split(x: Seq<char>, w: Seq<char>, y: Seq<char>)
    requires
        w.len() > 0,
        forall|k: int| 0 <= k < w.len() ==> is_white_space(#[trigger] w[k]),
    ensures
        words(x + w + y) == words(x) + words(y),
{
    lemma_words_from_split(x, w, y, 0);
}

/// Line endings do not matter: with `\r\n` or `\n` (or a tab, or a space)
/// between them, two texts give the same words, those of one then those of
/// the other.
pub proof fn lemma_words_line_endings(x: Seq<char>, y: Seq<char>)
    ensures
        words(x + seq!['\r', '\n'] + y) == words(x) + words(y),
        words(x + seq!['\n'] + y) == words(x) + words(y),
        words(x + seq!['\r', '\n'] + y) == words(x + seq!['\n'] + y),
        words(x + seq!['\t'] + y) == words(x + seq![' '] + y),
{
    let crlf = seq!['\r', '\n'];
    assert(is_white_space(crlf[0]) && is_white_space(crlf[1]));
    lemma_words_split(x, crlf, y);
    lemma_words_split(x, seq!['\n'], y);
    lemma_words_split(x, seq!['\t'], y);
    lemma_words_split(x, seq![' '], y);
}

/// Leading zeros do not change the number a string of digits reads as.
pub proof fn lemma_leading_zeros(z: nat, t: Seq<char>)
    ensures
        digits_value(Seq::new(z, |k: int| '0') + t) == digits_value(t),
    decreases t.len(),
{
    let zs = Seq::new(z, |k: int| '0');
    if t.len() == 0 {
        lemma_zeros_value(z);
        assert(zs + t =~= zs);
    } else {
        lemma_leading_zeros(z, t.drop_last());
        assert((zs + t).drop_last() =~= zs + t.drop_last());
    }
}

proof fn lemma_zeros_value(z: nat)
    ensures
        digits_value(Seq::new(z, |k: int| '0')) == 0,
    decreases z,
{
    if z > 0 {
        lemma_zeros_value((z - 1) as nat);
        assert(Seq::new(z, |k: int| '0').drop_last() =~= Seq::new((z - 1) as nat, |k: int| '0'));
    }
}

/// A number written with any number of leading zeros reads back as itself
/// (`"042"` is 42).
pub proof fn lemma_parse_leading_zeros(z: nat, n: u32)
    ensures
        parse_u32(Seq::new(z, |k: int| '0') + decimal(n as nat)) == Some(n),
{
    let zs = Seq::new(z, |k: int| '0');
    let d = zs + decimal(n as nat);
    lemma_decimal_digits(n as nat);
    lemma_leading_zeros(z, decimal(n as nat));
    assert(all_digits(d)) by {
        assert forall|i: int| 0 <= i < d.len() implies is_ascii_digit(#[trigger] d[i]) by {
            if i >= z {
                assert(d[i] == decimal(n as nat)[i - z]);
            }
        }
    }
    if d.len() > 1 && d[0] == '+' {
        if z > 0 {
            assert(d[0] == '0');
        } else {
            assert(d[0] == decimal(n as nat)[0]);
        }
    }
}

} // verus!
