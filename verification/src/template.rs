//! Filling in the project templates of a problem.

use vstd::prelude::*;

use crate::text::{
    append_chars, chars_of, decimal, decimal_exec, find_from, find_from_exec, lemma_find_from,
    matches_at, replace_all, replace_all_exec, string_of,
};

verus! {

/// The body between the loop markers, written once for each of `0..k`, with
/// `{i}` replaced by the index.
pub open spec fn repeat_body(m: Seq<char>, k: nat) -> Seq<char>
    decreases k,
{
    if k == 0 {
        Seq::empty()
    } else {
        repeat_body(m, (k - 1) as nat) + replace_all(m, "{i}"@, decimal((k - 1) as nat))
    }
}

/// The loop markers are where the loop expansion can cut the text: when both
/// are found, a character follows the end marker and it is ASCII (the
/// expansion drops it, one byte).
pub open spec fn loop_ok(s: Seq<char>) -> bool {
    match find_from(s, "{start_loop}"@, 0) {
        None => true,
        Some(a) => match find_from(s, "{end_loop}"@, a) {
            None => true,
            Some(e) => e + "{end_loop}"@.len() < s.len() && (s[e + "{end_loop}"@.len()] as u32)
                < 128,
        },
    }
}

/// The loop expansion: the text between `{start_loop}` and the next
/// `{end_loop}` is written `n` times (with `{i}` set to each index), the
/// markers and the one character after the end marker are dropped; a text
/// without both markers is returned as it is.
pub open spec fn replace_loop_spec(s: Seq<char>, n: u32) -> Seq<char> {
    match find_from(s, "{start_loop}"@, 0) {
        None => s,
        Some(a) => match find_from(s, "{end_loop}"@, a) {
            None => s,
            Some(e) => s.take(a) + repeat_body(s.subrange(a + "{start_loop}"@.len(), e), n as nat)
                + s.skip(e + "{end_loop}"@.len() + 1),
        },
    }
}

/// The first `{end_loop}` after a `{start_loop}` starts after the whole start
/// marker.
proof fn lemma_end_after_start(s: Seq<char>, a: int)
    requires
        matches_at(s, "{start_loop}"@, a),
        find_from(s, "{end_loop}"@, a) is Some,
    ensures
        a + "{start_loop}"@.len() <= find_from(s, "{end_loop}"@, a)->0,
{
    reveal_strlit("{start_loop}");
    reveal_strlit("{end_loop}");
    lemma_find_from(s, "{end_loop}"@, a);
    let e = find_from(s, "{end_loop}"@, a)->0;
    let st = "{start_loop}"@;
    let en = "{end_loop}"@;
    assert(st =~= seq!['{', 's', 't', 'a', 'r', 't', '_', 'l', 'o', 'o', 'p', '}']);
    assert(en =~= seq!['{', 'e', 'n', 'd', '_', 'l', 'o', 'o', 'p', '}']);
    if e < a + 12 {
        assert(s.subrange(e, e + 10) == en);
        assert(s.subrange(a, a + 12) == st);
        if e == a {
            assert(s.subrange(e, e + 10)[1] == s[a + 1]);
            assert(s.subrange(a, a + 12)[1] == s[a + 1]);
            assert(false);
        } else {
            assert(s.subrange(e, e + 10)[0] == s[e]);
            assert(s.subrange(a, a + 12)[e - a] == s[e]);
            assert(false);
        }
    }
}

fn repeat_body_exec(m: &[char], n: u32) -> (r: Vec<char>)
    ensures
        r@ == repeat_body(m@, n as nat),
{
    let pat = chars_of("{i}");
    proof {
        reveal_strlit("{i}");
    }
    assert(pat@.len() == 3);
    let mut r: Vec<char> = Vec::new();
    let mut k: u32 = 0;
    while k < n
        invariant
            k <= n,
            pat@ == "{i}"@,
            pat@.len() == 3,
            r@ == repeat_body(m@, k as nat),
        decreases n - k,
    {
        let d = decimal_exec(k as u64);
        let piece = replace_all_exec(m, &pat, &d);
        append_chars(&mut r, &piece);
        k = k + 1;
    }
    r
}

fn subvec(s: &[char], a: usize, b: usize) -> (r: Vec<char>)
    requires
        a <= b <= s.len(),
    ensures
        r@ == s@.subrange(a as int, b as int),
{
    let mut r: Vec<char> = Vec::new();
    let mut k: usize = a;
    while k < b
        invariant
            a <= k <= b <= s.len(),
            r@ == s@.subrange(a as int, k as int),
        decreases b - k,
    {
        r.push(s[k]);
        k = k + 1;
        assert(r@ =~= s@.subrange(a as int, k as int));
    }
    r
}

/// Where both loop markers are, when they are.
fn find_markers(s: &[char]) -> (r: Option<(usize, usize)>)
    ensures
        r is None ==> (find_from(s@, "{start_loop}"@, 0) is None || find_from(
            s@,
            "{end_loop}"@,
            find_from(s@, "{start_loop}"@, 0)->0,
        ) is None),
        r matches Some((a, e)) ==> find_from(s@, "{start_loop}"@, 0) == Some(a as int)
            && find_from(s@, "{end_loop}"@, a as int) == Some(e as int) && a
            + "{start_loop}"@.len() <= e && e + "{end_loop}"@.len() <= s.len(),
{
    let sl = chars_of("{start_loop}");
    let el = chars_of("{end_loop}");
    match find_from_exec(s, &sl, 0) {
        None => None,
        Some(a) => match find_from_exec(s, &el, a) {
            None => None,
            Some(e) => {
                proof {
                    lemma_find_from(s@, "{start_loop}"@, 0);
                    lemma_find_from(s@, "{end_loop}"@, a as int);
                    lemma_end_after_start(s@, a as int);
                }
                Some((a, e))
            },
        },
    }
}

/// Whether the loop expansion of `s` is defined (`loop_ok`).
pub fn loop_ok_exec(s: &str) -> (r: bool)
    ensures
        r == loop_ok(s@),
{
    let v = chars_of(s);
    let el = chars_of("{end_loop}");
    match find_markers(&v) {
        None => true,
        Some((a, e)) => {
            let after = e + el.len();
            after < v.len() && (v[after] as u32) < 128
        },
    }
}

/// Expanding the `{start_loop}`…`{end_loop}` part of a template.
pub trait LoopReplace: Sized {
    /// The text the expansion works on.
    spec fn text(&self) -> Seq<char>;

    /// Writes the loop body `n` times.
    fn replace_loop(self, n: u32) -> (r: String)
        requires
            loop_ok(self.text()),
        ensures
            r@ == replace_loop_spec(self.text(), n),
    ;
}

impl<'a> LoopReplace for &'a str {
    open spec fn text(&self) -> Seq<char> {
        (*self)@
    }

    fn replace_loop(self, n: u32) -> (r: String) {
        let s = chars_of(self);
        let el = chars_of("{end_loop}");
        let sl = chars_of("{start_loop}");
        match find_markers(&s) {
            None => string_of(&s),
            Some((a, e)) => {
                let m = subvec(&s, a + sl.len(), e);
                let body = repeat_body_exec(&m, n);
                let mut out = subvec(&s, 0, a);
                append_chars(&mut out, &body);
                let tail = subvec(&s, e + el.len() + 1, s.len());
                append_chars(&mut out, &tail);
                string_of(&out)
            },
        }
    }
}


/// The older loop expansion of the contest-tree generator: it keeps the `{`
/// of both markers (the text up to and including the start marker's `{`, the
/// body up to and including the end marker's `{`), and drops the rest of the
/// end marker and one character after it.
pub open spec fn replace_loop_inclusive_spec(s: Seq<char>, n: u32) -> Seq<char> {
    match find_from(s, "{start_loop}"@, 0) {
        None => s,
        Some(a) => match find_from(s, "{end_loop}"@, a) {
            None => s,
            Some(e) => s.take(a + 1) + repeat_body(
                s.subrange(a + "{start_loop}"@.len(), e + 1),
                n as nat,
            ) + s.skip(e + "{end_loop}"@.len() + 1),
        },
    }
}

/// The older loop expansion (see `replace_loop_inclusive_spec`).
pub fn replace_loop_inclusive(s: &str, n: u32) -> (r: String)
    requires
        loop_ok(s@),
    ensures
        r@ == replace_loop_inclusive_spec(s@, n),
{
    let v = chars_of(s);
    let el = chars_of("{end_loop}");
    let sl = chars_of("{start_loop}");
    proof {
        reveal_strlit("{end_loop}");
    }
    match find_markers(&v) {
        None => string_of(&v),
        Some((a, e)) => {
            let m = subvec(&v, a + sl.len(), e + 1);
            let body = repeat_body_exec(&m, n);
            let mut out = subvec(&v, 0, a + 1);
            append_chars(&mut out, &body);
            let tail = subvec(&v, e + el.len() + 1, v.len());
            append_chars(&mut out, &tail);
            string_of(&out)
        },
    }
}

} // verus!
