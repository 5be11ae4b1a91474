//! Pointing the editor's settings at the contest being worked on.

use vstd::prelude::*;

use crate::platform::HandlerKind;
use crate::text::{
    append_chars, append_str, chars_of, find_from, find_from_exec, is_ascii_digit,
    is_white_space, is_white_space_exec, matches_at, matches_at_exec, string_of,
};

verus! {

/// The end of the run of white space that starts at `i`.
pub open spec fn space_end(s: Seq<char>, i: int) -> int
    decreases s.len() - i,
{
    if i < 0 || i >= s.len() || !is_white_space(s[i]) {
        i
    } else {
        space_end(s, i + 1)
    }
}

proof fn lemma_space_end(s: Seq<char>, i: int)
    requires
        0 <= i <= s.len(),
    ensures
        i <= space_end(s, i) <= s.len(),
    decreases s.len() - i,
{
    if i < s.len() && is_white_space(s[i]) {
        lemma_space_end(s, i + 1);
    }
}

/// Where a match of `"RUNNING_CONTEST":\s*"([^"]*)"` that starts at `i` ends,
/// and where its group starts and ends.
pub open spec fn setting_match_at(s: Seq<char>, i: int) -> Option<(int, int, int)> {
    if !matches_at(s, "\"RUNNING_CONTEST\":"@, i) {
        None
    } else {
        let w = space_end(s, i + "\"RUNNING_CONTEST\":"@.len());
        if w >= s.len() || s[w] != '"' {
            None
        } else {
            match find_from(s, seq!['"'], w + 1) {
                Some(q) => Some((q + 1, w + 1, q)),
                None => None,
            }
        }
    }
}

/// The leftmost match at or after `i`: its start, end, and group bounds.
pub open spec fn setting_first_match(s: Seq<char>, i: int) -> Option<(int, int, int, int)>
    decreases s.len() + 1 - i,
{
    if i < 0 || i > s.len() {
        None
    } else {
        match setting_match_at(s, i) {
            Some((e, g0, g1)) => Some((i, e, g0, g1)),
            None => setting_first_match(s, i + 1),
        }
    }
}

/// A letter of an unbraced group reference: `[0-9A-Za-z_]`.
pub open spec fn is_ref_letter(c: char) -> bool {
    ('0' <= c && c <= '9') || ('a' <= c && c <= 'z') || ('A' <= c && c <= 'Z') || c == '_'
}

/// The end of the run of reference letters that starts at `i`.
pub open spec fn ref_end(s: Seq<char>, i: int) -> int
    decreases s.len() - i,
{
    if i < 0 || i >= s.len() || !is_ref_letter(s[i]) {
        i
    } else {
        ref_end(s, i + 1)
    }
}

proof fn lemma_ref_end(s: Seq<char>, i: int)
    requires
        0 <= i <= s.len(),
    ensures
        i <= ref_end(s, i) <= s.len(),
    decreases s.len() - i,
{
    if i < s.len() && is_ref_letter(s[i]) {
        lemma_ref_end(s, i + 1);
    }
}

/// The group reference at the start of `rep` (which starts with `$`): its
/// name and where it ends, as `$name` (the longest run of `[0-9A-Za-z_]`) or
/// `${name}` (up to the first `}`).
pub open spec fn group_ref(rep: Seq<char>) -> Option<(Seq<char>, int)> {
    if rep.len() <= 1 {
        None
    } else if rep[1] == '{' {
        match find_from(rep, seq!['}'], 2) {
            Some(j) => Some((rep.subrange(2, j), j + 1)),
            None => None,
        }
    } else {
        let e = ref_end(rep, 1);
        if e == 1 {
            None
        } else {
            Some((rep.subrange(1, e), e))
        }
    }
}

/// The group index a reference name reads as (`usize` parsing: an optional
/// `+`, then digits), when it is 0 or 1, the two groups of the pattern; other
/// names refer to no group.
pub open spec fn group_index(name: Seq<char>) -> Option<int> {
    let d = if name.len() > 1 && name[0] == '+' {
        name.skip(1)
    } else {
        name
    };
    if d.len() > 0 && crate::text::all_digits(d) && crate::text::digits_value(d) <= 1 {
        Some(crate::text::digits_value(d) as int)
    } else {
        None
    }
}

/// The text of a referenced group: group 0 is the whole match, group 1 the
/// quoted value, and any other reference gives nothing.
pub open spec fn group_text(k: Option<int>, whole: Seq<char>, g1: Seq<char>) -> Seq<char> {
    match k {
        Some(n) => if n == 0 {
            whole
        } else if n == 1 {
            g1
        } else {
            Seq::empty()
        },
        None => Seq::empty(),
    }
}

/// The replacement text with its group references expanded (`$$` is a `$`, a
/// `$` that starts no reference stays, group 0 is the whole match, group 1
/// the quoted value, other references are dropped).
pub open spec fn expand(rep: Seq<char>, whole: Seq<char>, g1: Seq<char>) -> Seq<char>
    decreases rep.len(),
{
    if rep.len() == 0 {
        Seq::empty()
    } else if rep[0] != '$' {
        seq![rep[0]] + expand(rep.skip(1), whole, g1)
    } else if rep.len() >= 2 && rep[1] == '$' {
        seq!['$'] + expand(rep.skip(2), whole, g1)
    } else {
        match group_ref(rep) {
            None => seq!['$'] + expand(rep.skip(1), whole, g1),
            Some((name, end)) => if end <= 1 || end > rep.len() {
                Seq::empty()
            } else {
                group_text(group_index(name), whole, g1) + expand(rep.skip(end), whole, g1)
            },
        }
    }
}

/// The settings text with the first `"RUNNING_CONTEST": "…"` entry set to
/// `env` (`Regex::replace` with the replacement `"RUNNING_CONTEST": "{env}"`,
/// whose `$` references are expanded); unchanged when there is no entry.
pub open spec fn replace_running_spec(s: Seq<char>, env: Seq<char>) -> Seq<char> {
    match setting_first_match(s, 0) {
        Some((i, e, g0, g1)) => s.subrange(0, i) + expand(
            "\"RUNNING_CONTEST\": \""@ + env + "\""@,
            s.subrange(i, e),
            s.subrange(g0, g1),
        ) + s.subrange(e, s.len() as int),
        None => s,
    }
}


fn subvec(s: &[char], a: usize, b: usize) -> (r: Vec<char>)
    requires
        a <= b <= s.len(),
    ensures
        r@ == s@.subrange(a as int, b as int),
{
    let mut r: Vec<char> = Vec::new();
    let mut k: usize = a;
    while k < b
        invariant
            a <= k <= b <= s.len(),
            r@ == s@.subrange(a as int, k as int),
        decreases b - k,
    {
        r.push(s[k]);
        k = k + 1;
        assert(r@ =~= s@.subrange(a as int, k as int));
    }
    r
}

fn space_end_exec(s: &[char], i: usize) -> (e: usize)
    requires
        i <= s.len(),
    ensures
        e == space_end(s@, i as int),
        i <= e <= s.len(),
{
    proof {
        lemma_space_end(s@, i as int);
    }
    let mut e: usize = i;
    while e < s.len() && is_white_space_exec(s[e])
        invariant
            i <= e <= s.len(),
            space_end(s@, e as int) == space_end(s@, i as int),
        decreases s.len() - e,
    {
        e = e + 1;
    }
    e
}

fn setting_match_at_exec(s: &[char], i: usize) -> (r: Option<(usize, usize, usize)>)
    requires
        i <= s.len(),
    ensures
        r is None ==> setting_match_at(s@, i as int) is None,
        r matches Some((e, g0, g1)) ==> i <= g0 <= g1 < e <= s.len() && setting_match_at(
            s@,
            i as int,
        ) == Some((e as int, g0 as int, g1 as int)),
{
    let key = chars_of("\"RUNNING_CONTEST\":");
    if !matches_at_exec(s, &key, i) {
        return None;
    }
    let w = space_end_exec(s, i + key.len());
    if w >= s.len() || s[w] != '"' {
        return None;
    }
    let mut quote: Vec<char> = Vec::new();
    quote.push('"');
    assert(quote@ =~= seq!['"']);
    match find_from_exec(s, &quote, w + 1) {
        Some(q) => {
            proof {
                crate::text::lemma_find_from(s@, seq!['"'], w + 1);
            }
            Some((q + 1, w + 1, q))
        },
        None => None,
    }
}

fn setting_first_match_exec(s: &[char]) -> (r: Option<(usize, usize, usize, usize)>)
    ensures
        r is None ==> setting_first_match(s@, 0) is None,
        r matches Some((i, e, g0, g1)) ==> i <= g0 <= g1 < e <= s.len() && setting_first_match(
            s@,
            0,
        ) == Some((i as int, e as int, g0 as int, g1 as int)),
{
    let mut i: usize = 0;
    loop
        invariant
            i <= s.len(),
            setting_first_match(s@, 0) == setting_first_match(s@, i as int),
        ensures
            setting_first_match(s@, 0) is None,
        decreases s.len() - i,
    {
        match setting_match_at_exec(s, i) {
            Some((e, g0, g1)) => {
                return Some((i, e, g0, g1));
            },
            None => {},
        }
        if i == s.len() {
            assert(setting_first_match(s@, i + 1) is None);
            break ;
        }
        i = i + 1;
    }
    None
}

fn is_ref_letter_exec(c: char) -> (r: bool)
    ensures
        r == is_ref_letter(c),
{
    ('0' <= c && c <= '9') || ('a' <= c && c <= 'z') || ('A' <= c && c <= 'Z') || c == '_'
}

fn group_ref_exec(rep: &[char]) -> (r: Option<(usize, usize, usize)>)
    requires
        rep@.len() > 0,
    ensures
        r is None ==> group_ref(rep@) is None,
        r matches Some((a, b, end)) ==> a <= b <= rep.len() && 1 < end <= rep.len() && group_ref(
            rep@,
        ) == Some((rep@.subrange(a as int, b as int), end as int)),
{
    if rep.len() <= 1 {
        return None;
    }
    if rep[1] == '{' {
        let mut close: Vec<char> = Vec::new();
        close.push('}');
        assert(close@ =~= seq!['}']);
        match find_from_exec(rep, &close, 2) {
            Some(j) => {
                proof {
                    crate::text::lemma_find_from(rep@, seq!['}'], 2);
                }
                Some((2, j, j + 1))
            },
            None => None,
        }
    } else {
        proof {
            lemma_ref_end(rep@, 1);
        }
        let mut e: usize = 1;
        while e < rep.len() && is_ref_letter_exec(rep[e])
            invariant
                1 <= e <= rep.len(),
                ref_end(rep@, e as int) == ref_end(rep@, 1),
            decreases rep.len() - e,
        {
            e = e + 1;
        }
        if e == 1 {
            None
        } else {
            Some((1, e, e))
        }
    }
}

fn group_index_exec(name: &[char]) -> (r: Option<u8>)
    ensures
        r matches Some(k) ==> k <= 1 && group_index(name@) == Some(k as int),
        r is None ==> group_index(name@) is None,
{
    let start: usize = if name.len() > 1 && name[0] == '+' {
        1
    } else {
        0
    };
    let ghost d = if name@.len() > 1 && name@[0] == '+' {
        name@.skip(1)
    } else {
        name@
    };
    assert(d =~= name@.skip(start as int));
    if start >= name.len() {
        return None;
    }
    let mut cap: u8 = 0;
    let mut i: usize = start;
    while i < name.len()
        invariant
            start <= i <= name.len(),
            d =~= name@.skip(start as int),
            d == (if name@.len() > 1 && name@[0] == '+' {
                name@.skip(1)
            } else {
                name@
            }),
            crate::text::all_digits(d.take(i - start)),
            cap <= 2,
            cap < 2 ==> cap == crate::text::digits_value(d.take(i - start)),
            cap == 2 ==> crate::text::digits_value(d.take(i - start)) >= 2,
        decreases name.len() - i,
    {
        let c = name[i];
        if !('0' <= c && c <= '9') {
            assert(d[i - start] == c);
            assert(!is_ascii_digit(d[(i - start) as int]));
            assert(!crate::text::all_digits(d));
            return None;
        }
        let ghost pre = d.take(i - start);
        let ghost nxt = d.take(i - start + 1);
        assert(nxt.drop_last() =~= pre);
        assert(nxt.last() == c);
        assert(crate::text::all_digits(nxt)) by {
            assert forall|j: int| 0 <= j < nxt.len() implies is_ascii_digit(#[trigger] nxt[j]) by {
                if j < pre.len() {
                    assert(nxt[j] == pre[j]);
                }
            }
        }
        if cap < 2 {
            let x: u32 = c as u32 - 48;
            let nv: u32 = (cap as u32) * 10 + x;
            if nv >= 2 {
                cap = 2;
            } else {
                cap = nv as u8;
            }
        }
        i = i + 1;
    }
    assert(d.take(i - start) =~= d);
    if cap < 2 {
        Some(cap)
    } else {
        None
    }
}

/// Expands the group references of `rep` for a match `whole` whose group is
/// `g1`.
fn expand_exec(rep: &[char], whole: &[char], g1: &[char]) -> (r: Vec<char>)
    ensures
        r@ == expand(rep@, whole@, g1@),
{
    let mut out: Vec<char> = Vec::new();
    let mut k: usize = 0;
    assert(rep@.skip(0) =~= rep@);
    while k < rep.len()
        invariant
            k <= rep.len(),
            out@ + expand(rep@.skip(k as int), whole@, g1@) == expand(rep@, whole@, g1@),
        decreases rep.len() - k,
    {
        let suf = subvec(rep, k, rep.len());
        assert(suf@ =~= rep@.skip(k as int));
        let ghost o0 = out@;
        if suf[0] != '$' {
            out.push(suf[0]);
            assert(suf@.skip(1) =~= rep@.skip(k + 1));
            assert(o0 + (seq![suf@[0]] + expand(suf@.skip(1), whole@, g1@)) =~= out@ + expand(
                rep@.skip(k + 1),
                whole@,
                g1@,
            ));
            k = k + 1;
        } else if suf.len() >= 2 && suf[1] == '$' {
            out.push('$');
            assert(suf@.skip(2) =~= rep@.skip(k + 2));
            assert(o0 + (seq!['$'] + expand(suf@.skip(2), whole@, g1@)) =~= out@ + expand(
                rep@.skip(k + 2),
                whole@,
                g1@,
            ));
            k = k + 2;
        } else {
            match group_ref_exec(&suf) {
                None => {
                    out.push('$');
                    assert(suf@.skip(1) =~= rep@.skip(k + 1));
                    assert(o0 + (seq!['$'] + expand(suf@.skip(1), whole@, g1@)) =~= out@ + expand(
                        rep@.skip(k + 1),
                        whole@,
                        g1@,
                    ));
                    k = k + 1;
                },
                Some((a, b, end)) => {
                    let name = subvec(&suf, a, b);
                    let gi = group_index_exec(&name);
                    match gi {
                        Some(n) => {
                            if n == 0 {
                                append_chars(&mut out, whole);
                            } else {
                                append_chars(&mut out, g1);
                            }
                        },
                        None => {},
                    }
                    assert(out@ == o0 + group_text(group_index(name@), whole@, g1@));
                    assert(suf@.skip(end as int) =~= rep@.skip(k + end));
                    assert(o0 + (group_text(group_index(name@), whole@, g1@) + expand(
                        suf@.skip(end as int),
                        whole@,
                        g1@,
                    )) =~= out@ + expand(rep@.skip(k + end), whole@, g1@));
                    k = k + end;
                },
            }
        }
    }
    assert(rep@.skip(k as int) =~= Seq::<char>::empty());
    assert(out@ + Seq::<char>::empty() =~= out@);
    out
}

/// Takes a problem to a handler, and first points the editor's settings at
/// the problem's contest.
pub struct VscodeAdapter {
    pub inner: HandlerKind,
}

impl VscodeAdapter {
    /// An adapter in front of the given handler.
    pub fn new(h: HandlerKind) -> (r: Self)
        ensures
            r.inner == h,
    {
        Self { inner: h }
    }

    /// The settings text with its `"RUNNING_CONTEST"` entry set to
    /// `running_env`.
    pub fn replace_running_contest(&self, settings: &str, running_env: &str) -> (r: String)
        ensures
            r@ == replace_running_spec(settings@, running_env@),
    {
        let s = chars_of(settings);
        match setting_first_match_exec(&s) {
            None => string_of(&s),
            Some((i, e, g0, g1)) => {
                let mut rep: Vec<char> = Vec::new();
                append_str(&mut rep, "\"RUNNING_CONTEST\": \"");
                append_str(&mut rep, running_env);
                append_str(&mut rep, "\"");
                let whole = subvec(&s, i, e);
                let grp = subvec(&s, g0, g1);
                let ex = expand_exec(&rep, &whole, &grp);
                let mut out = subvec(&s, 0, i);
                append_chars(&mut out, &ex);
                let tail = subvec(&s, e, s.len());
                append_chars(&mut out, &tail);
                string_of(&out)
            },
        }
    }
}

/// The running contest the settings name: the value of their first
/// `"RUNNING_CONTEST": "…"` entry.
pub open spec fn running_contest(s: Seq<char>) -> Option<Seq<char>> {
    match setting_first_match(s, 0) {
        Some((_, _, g0, g1)) => Some(s.subrange(g0, g1)),
        None => None,
    }
}

proof fn lemma_first_match(s: Seq<char>, k: int)
    requires
        0 <= k,
    ensures
        setting_first_match(s, k) matches Some((i, e, g0, g1)) ==> k <= i && setting_match_at(s, i)
            == Some((e, g0, g1)) && forall|j: int| k <= j < i ==> setting_match_at(s, j) is None,
    decreases s.len() + 1 - k,
{
    if k <= s.len() && setting_match_at(s, k) is None {
        lemma_first_match(s, k + 1);
    }
}

proof fn lemma_first_match_from(s: Seq<char>, k: int, i: int)
    requires
        0 <= k <= i <= s.len(),
        setting_match_at(s, i) is Some,
        forall|j: int| k <= j < i ==> setting_match_at(s, j) is None,
    ensures
        setting_first_match(s, k) == Some(
            (i, setting_match_at(s, i).unwrap().0, setting_match_at(s, i).unwrap().1, setting_match_at(s, i).unwrap().2),
        ),
    decreases i - k,
{
    if k < i {
        lemma_first_match_from(s, k + 1, i);
    }
}

proof fn lemma_expand_plain(rep: Seq<char>, whole: Seq<char>, g1: Seq<char>)
    requires
        !rep.contains('$'),
    ensures
        expand(rep, whole, g1) == rep,
    decreases rep.len(),
{
    if rep.len() > 0 {
        assert(rep[0] != '$') by {
            assert(rep.contains(rep[0]));
        }
        assert(!rep.skip(1).contains('$')) by {
            if rep.skip(1).contains('$') {
                let k = choose|k: int| 0 <= k < rep.skip(1).len() && rep.skip(1)[k] == '$';
                assert(rep[k + 1] == '$');
                assert(rep.contains('$'));
            }
        }
        lemma_expand_plain(rep.skip(1), whole, g1);
        assert(rep =~= seq![rep[0]] + rep.skip(1));
    }
}

/// Two texts that agree up to a character that is not white space have the
/// same run of white space from any position before it.
proof fn lemma_space_end_agree(r: Seq<char>, s: Seq<char>, x: int, i: int)
    requires
        0 <= x <= i < r.len(),
        i < s.len(),
        forall|k: int| 0 <= k <= i ==> r[k] == s[k],
        !is_white_space(r[i]),
    ensures
        space_end(r, x) == space_end(s, x),
        space_end(r, x) <= i,
    decreases i - x,
{
    if x < i && is_white_space(r[x]) {
        lemma_space_end_agree(r, s, x + 1, i);
    }
}

proof fn lemma_quote_found(s: Seq<char>, k: int, q: int)
    requires
        0 <= k <= q < s.len(),
        s[q] == '"',
    ensures
        find_from(s, seq!['"'], k) is Some,
{
    crate::text::lemma_find_from(s, seq!['"'], k);
    assert(s.subrange(q, q + 1) =~= seq!['"']);
    assert(matches_at(s, seq!['"'], q));
}

proof fn lemma_quote_first(s: Seq<char>, k: int, q: int)
    requires
        0 <= k <= q < s.len(),
        s[q] == '"',
        forall|j: int| k <= j < q ==> s[j] != '"',
    ensures
        find_from(s, seq!['"'], k) == Some(q),
{
    crate::text::lemma_find_from(s, seq!['"'], k);
    assert(s.subrange(q, q + 1) =~= seq!['"']);
    assert(matches_at(s, seq!['"'], q));
    match find_from(s, seq!['"'], k) {
        Some(p) => {
            if p < q {
                assert(matches_at(s, seq!['"'], p));
                assert(s.subrange(p, p + 1)[0] == s[p]);
            }
        },
        None => {},
    }
}

/// After the running contest is set to `env`, the settings name `env`, when
/// they had an entry to set and `env` holds neither a quote nor a `$`.
pub proof fn lemma_running_contest_roundtrip(s: Seq<char>, env: Seq<char>)
    requires
        running_contest(s) is Some,
        !env.contains('"'),
        !env.contains('$'),
    ensures
        running_contest(replace_running_spec(s, env)) == Some(env),
{
    reveal_strlit("\"RUNNING_CONTEST\":");
    reveal_strlit("\"RUNNING_CONTEST\": \"");
    reveal_strlit("\"");
    let lit = "\"RUNNING_CONTEST\":"@;
    let head = "\"RUNNING_CONTEST\": \""@;
    let t = head + env + "\""@;
    lemma_first_match(s, 0);
    let (i, e, g0, g1) = setting_first_match(s, 0).unwrap();
    assert(!t.contains('$')) by {
        if t.contains('$') {
            let k = choose|k: int| 0 <= k < t.len() && t[k] == '$';
            if k >= 20 && k < 20 + env.len() {
                assert(env[k - 20] == '$');
                assert(env.contains('$'));
            }
        }
    }
    lemma_expand_plain(t, s.subrange(i, e), s.subrange(g0, g1));
    let r = replace_running_spec(s, env);
    assert(r == s.subrange(0, i) + t + s.subrange(e, s.len() as int));
    assert(matches_at(s, lit, i));
    assert(s.subrange(i, i + 18) == lit);
    assert forall|k: int| 0 <= k < i + 18 implies r[k] == s[k] by {
        if k >= i {
            assert(s.subrange(i, i + 18)[k - i] == s[k]);
        }
    }
    assert(r[i + 18] == ' ');
    assert(r[i + 19] == '"');
    assert(r[i + 20 + env.len()] == '"');
    assert forall|k: int| i + 20 <= k < i + 20 + env.len() implies r[k] == env[k - i - 20] by {}
    assert forall|k: int| i + 20 <= k < i + 20 + env.len() implies r[k] != '"' by {
        assert(env.contains(env[k - i - 20]));
    }
    // The entry at `i` is still the first, and now holds `env`.
    assert(r.subrange(i, i + 18) =~= lit);
    assert(space_end(r, i + 19) == i + 19);
    assert(space_end(r, i + 18) == i + 19);
    lemma_quote_first(r, i + 20, i + 20 + env.len());
    assert(setting_match_at(r, i) == Some((i + 21 + env.len(), i + 20, i + 20 + env.len())));
    assert forall|j: int| 0 <= j < i implies setting_match_at(r, j) is None by {
        if setting_match_at(r, j) is Some {
            assert(r.subrange(j, j + 18) =~= s.subrange(j, j + 18));
            assert(matches_at(s, lit, j));
            // Two occurrences of the key cannot overlap.
            assert(j + 18 <= i) by {
                if j + 18 > i {
                    let d = i - j;
                    assert(s.subrange(j, j + 18)[d] == s[i]);
                    assert(s.subrange(i, i + 18)[0] == s[i]);
                    if d == 16 {
                        assert(s.subrange(j, j + 18)[17] == s[i + 1]);
                        assert(s.subrange(i, i + 18)[1] == s[i + 1]);
                    }
                }
            }
            assert(!is_white_space(r[i]));
            lemma_space_end_agree(r, s, j + 18, i);
            lemma_space_end(r, j + 18);
            let w = space_end(r, j + 18);
            assert(r[w] == s[w]);
            if w < i {
                lemma_quote_found(s, w + 1, i);
            } else {
                assert(s.subrange(i, i + 18)[16] == s[i + 16]);
                lemma_quote_found(s, w + 1, i + 16);
            }
            assert(setting_match_at(s, j) is Some);
        }
    }
    lemma_first_match_from(r, 0, i);
    assert(r.subrange(i + 20, i + 20 + env.len()) =~= env);
}

} // verus!
