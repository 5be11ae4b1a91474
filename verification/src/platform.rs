//! Reading the contest and problem out of a problem page's address, and
//! telling the platforms apart.

use vstd::prelude::*;
use vstd::std_specs::cmp::PartialEqSpecImpl;

use crate::pattern::{class_end, class_end_exec, in_class, lemma_class_end, Class};
use crate::text::{
    chars_of, find_from, find_from_exec, matches_at, matches_at_exec, parse_u32, parse_u32_exec,
    replace_all, replace_all_exec, string_of,
};

verus! {

/// What `codeforces\.com/(?:problemset/problem|contest)/(\d+)/(?:problem/)?(\w+)`
/// captures when a match starts at `i` (the contest digits and the problem).
pub open spec fn cf_match_at(s: Seq<char>, i: int) -> Option<(Seq<char>, Seq<char>)> {
    if !matches_at(s, "codeforces.com/"@, i) {
        None
    } else {
        let j = i + "codeforces.com/"@.len();
        let k = if matches_at(s, "problemset/problem"@, j) {
            j + "problemset/problem"@.len()
        } else if matches_at(s, "contest"@, j) {
            j + "contest"@.len()
        } else {
            -1
        };
        if k < 0 || k >= s.len() || s[k] != '/' {
            None
        } else {
            let d0 = k + 1;
            let d1 = class_end(s, d0, Class::Digit);
            if d1 <= d0 || d1 >= s.len() || s[d1] != '/' {
                None
            } else {
                let m = d1 + 1;
                let with_prefix = matches_at(s, "problem/"@, m) && class_end(
                    s,
                    m + "problem/"@.len(),
                    Class::Word,
                ) > m + "problem/"@.len();
                let p0 = if with_prefix {
                    m + "problem/"@.len()
                } else {
                    m
                };
                let p1 = class_end(s, p0, Class::Word);
                if p1 > p0 {
                    Some((s.subrange(d0, d1), s.subrange(p0, p1)))
                } else {
                    None
                }
            }
        }
    }
}

/// The captures of the leftmost match at or after `i`.
pub open spec fn cf_first_match(s: Seq<char>, i: int) -> Option<(Seq<char>, Seq<char>)>
    decreases s.len() + 1 - i,
{
    if i < 0 || i > s.len() {
        None
    } else if cf_match_at(s, i) is Some {
        cf_match_at(s, i)
    } else {
        cf_first_match(s, i + 1)
    }
}

/// The contest number and problem read from a Codeforces address: from the
/// leftmost match, the number when it parses as a `u32` (else 0); `(0, "0")`
/// when nothing matches.
pub open spec fn cf_parse(url: Seq<char>) -> (u32, Seq<char>) {
    match cf_first_match(url, 0) {
        Some((d, p)) => (
            match parse_u32(d) {
                Some(n) => n,
                None => 0,
            },
            p,
        ),
        None => (0, "0"@),
    }
}

fn cf_match_at_exec(s: &[char], i: usize) -> (r: Option<(usize, usize, usize, usize)>)
    requires
        i <= s.len(),
    ensures
        r is None ==> cf_match_at(s@, i as int) is None,
        r matches Some((d0, d1, p0, p1)) ==> d0 <= d1 <= s.len() && p0 <= p1 <= s.len()
            && cf_match_at(s@, i as int) == Some(
            (s@.subrange(d0 as int, d1 as int), s@.subrange(p0 as int, p1 as int)),
        ),
{
    let host = chars_of("codeforces.com/");
    if !matches_at_exec(s, &host, i) {
        return None;
    }
    let j = i + host.len();
    let a1 = chars_of("problemset/problem");
    let a2 = chars_of("contest");
    let k: usize;
    if matches_at_exec(s, &a1, j) {
        k = j + a1.len();
    } else if matches_at_exec(s, &a2, j) {
        k = j + a2.len();
    } else {
        return None;
    }
    if k >= s.len() || s[k] != '/' {
        return None;
    }
    let d0 = k + 1;
    let d1 = class_end_exec(s, d0, Class::Digit);
    if d1 <= d0 || d1 >= s.len() || s[d1] != '/' {
        return None;
    }
    let m = d1 + 1;
    let pre = chars_of("problem/");
    let mut p0 = m;
    if matches_at_exec(s, &pre, m) {
        let e = class_end_exec(s, m + pre.len(), Class::Word);
        if e > m + pre.len() {
            p0 = m + pre.len();
        }
    }
    let p1 = class_end_exec(s, p0, Class::Word);
    if p1 > p0 {
        Some((d0, d1, p0, p1))
    } else {
        None
    }
}

fn subvec(s: &[char], a: usize, b: usize) -> (r: Vec<char>)
    requires
        a <= b <= s.len(),
    ensures
        r@ == s@.subrange(a as int, b as int),
{
    let mut r: Vec<char> = Vec::new();
    let mut k: usize = a;
    while k < b
        invariant
            a <= k <= b <= s.len(),
            r@ == s@.subrange(a as int, k as int),
        decreases b - k,
    {
        r.push(s[k]);
        k = k + 1;
        assert(r@ =~= s@.subrange(a as int, k as int));
    }
    r
}

/// Reads the contest number and the problem out of a Codeforces problem
/// address.
pub fn parse_codeforces_url(url: &str) -> (r: (u32, String))
    ensures
        r.0 == cf_parse(url@).0,
        r.1@ == cf_parse(url@).1,
{
    let s = chars_of(url);
    let mut i: usize = 0;
    loop
        invariant
            i <= s.len(),
            s@ == url@,
            cf_first_match(s@, 0) == cf_first_match(s@, i as int),
        ensures
            s@ == url@,
            cf_first_match(s@, 0) is None,
        decreases s.len() - i,
    {
        match cf_match_at_exec(&s, i) {
            Some((d0, d1, p0, p1)) => {
                let d = subvec(&s, d0, d1);
                let p = subvec(&s, p0, p1);
                let n = match parse_u32_exec(&d) {
                    Some(n) => n,
                    None => 0,
                };
                return (n, string_of(&p));
            },
            None => {},
        }
        if i == s.len() {
            assert(cf_first_match(s@, i + 1) is None);
            break ;
        }
        i = i + 1;
    }
    (0, string_of(&chars_of("0")))
}


/// The last `_` in `s[lo..=hi]`, or -1.
pub open spec fn last_underscore(s: Seq<char>, lo: int, hi: int) -> int
    decreases hi - lo + 1,
{
    if hi < lo {
        -1
    } else if s[hi] == '_' {
        hi
    } else {
        last_underscore(s, lo, hi - 1)
    }
}

proof fn lemma_last_underscore(s: Seq<char>, lo: int, hi: int)
    requires
        0 <= lo,
        hi < s.len(),
    ensures
        last_underscore(s, lo, hi) == -1 || (lo <= last_underscore(s, lo, hi) <= hi && s[last_underscore(
            s,
            lo,
            hi,
        )] == '_'),
    decreases hi - lo + 1,
{
    if hi >= lo && s[hi] != '_' {
        lemma_last_underscore(s, lo, hi - 1);
    }
}

/// What `atcoder\.jp/contests/(abc|arc|agc)(\w+)/tasks/\w+_(\w+)` captures
/// when a match starts at `i`: the contest kind, the contest id and the
/// problem (after the last `_` of the task name that leaves a word after it).
pub open spec fn at_match_at(s: Seq<char>, i: int) -> Option<(Seq<char>, Seq<char>, Seq<char>)> {
    if !matches_at(s, "atcoder.jp/contests/"@, i) {
        None
    } else {
        let j = i + "atcoder.jp/contests/"@.len();
        let kind = if matches_at(s, "abc"@, j) {
            "abc"@
        } else if matches_at(s, "arc"@, j) {
            "arc"@
        } else if matches_at(s, "agc"@, j) {
            "agc"@
        } else {
            Seq::empty()
        };
        if kind.len() == 0 {
            None
        } else {
            let t = j + kind.len();
            let g = class_end(s, t, Class::Word);
            if g <= t || !matches_at(s, "/tasks/"@, g) {
                None
            } else {
                let u = g + "/tasks/"@.len();
                let r = class_end(s, u, Class::Word);
                let p = last_underscore(s, u + 1, r - 2);
                if p < 0 {
                    None
                } else {
                    Some((kind, s.subrange(t, g), s.subrange(p + 1, r)))
                }
            }
        }
    }
}

/// The captures of the leftmost match at or after `i`.
pub open spec fn at_first_match(s: Seq<char>, i: int) -> Option<(Seq<char>, Seq<char>, Seq<char>)>
    decreases s.len() + 1 - i,
{
    if i < 0 || i > s.len() {
        None
    } else if at_match_at(s, i) is Some {
        at_match_at(s, i)
    } else {
        at_first_match(s, i + 1)
    }
}

/// `n` written in decimal after `z` zeros.
pub open spec fn zero_padded(z: nat, n: nat) -> Seq<char> {
    Seq::new(z, |i: int| '0') + crate::text::decimal(n)
}

/// The contest number read from an AtCoder address is the value of the
/// contest digits it captures, whenever they are all digits and fit in a
/// `u32`; leading zeros do not count (`abc042` is contest 42).
pub proof fn lemma_contest_number(url: Seq<char>)
    ensures
        at_first_match(url, 0) matches Some((k, d, p)) ==> (d.len() > 0 && crate::text::all_digits(d)
            && crate::text::digits_value(d) <= u32::MAX ==> at_parse(url).1
            == crate::text::digits_value(d)),
        forall|z: nat, n: u32|
            at_first_match(url, 0) matches Some((k, d, p)) ==> (d == #[trigger] zero_padded(z, n as nat)
                ==> at_parse(url).1 == n),
{
    match at_first_match(url, 0) {
        Some((k, d, p)) => {
            if d.len() > 1 && d[0] == '+' && crate::text::all_digits(d) {
                assert(crate::text::is_ascii_digit(d[0]));
            }
            assert forall|z: nat, n: u32| d == #[trigger] zero_padded(z, n as nat) implies at_parse(url).1 == n by {
                crate::text::lemma_parse_leading_zeros(z, n);
            }
        },
        None => {},
    }
}

/// The kinds of AtCoder contests.
#[derive(Debug, Clone, Copy, PartialEq, Eq, Structural)]
pub enum AtcoderContestType {
    ABC,
    ARC,
    AGC,
    Unkonwn,
}

/// The contest kind that a three-letter tag names.
pub open spec fn contest_type_of(tag: Seq<char>) -> AtcoderContestType {
    if tag == "abc"@ {
        AtcoderContestType::ABC
    } else if tag == "arc"@ {
        AtcoderContestType::ARC
    } else if tag == "agc"@ {
        AtcoderContestType::AGC
    } else {
        AtcoderContestType::Unkonwn
    }
}

/// The directory name of a contest kind (AGC contests are filed under
/// `arc`).
pub open spec fn contest_type_name(t: AtcoderContestType) -> Seq<char> {
    match t {
        AtcoderContestType::ABC => "abc"@,
        AtcoderContestType::ARC => "arc"@,
        AtcoderContestType::AGC => "arc"@,
        AtcoderContestType::Unkonwn => "unknown"@,
    }
}

impl AtcoderContestType {
    /// The contest kind that a tag names (`From<&str>`).
    pub fn from_tag(s: &str) -> (r: AtcoderContestType)
        ensures
            r == contest_type_of(s@),
    {
        let c = chars_of(s);
        let abc = chars_of("abc");
        let arc = chars_of("arc");
        let agc = chars_of("agc");
        if crate::text::chars_eq(&c, &abc) {
            AtcoderContestType::ABC
        } else if crate::text::chars_eq(&c, &arc) {
            AtcoderContestType::ARC
        } else if crate::text::chars_eq(&c, &agc) {
            AtcoderContestType::AGC
        } else {
            AtcoderContestType::Unkonwn
        }
    }

    /// The directory name of the contest kind (what `Display` prints).
    pub fn name(&self) -> (r: &'static str)
        ensures
            r@ == contest_type_name(*self),
    {
        match self {
            AtcoderContestType::ABC => "abc",
            AtcoderContestType::ARC => "arc",
            AtcoderContestType::AGC => "arc",
            AtcoderContestType::Unkonwn => "unknown",
        }
    }
}

/// The contest kind, number and problem read from an AtCoder address: from
/// the leftmost match, the number when it parses as a `u32` (else 0);
/// `(Unkonwn, 0, "0")` when nothing matches.
pub open spec fn at_parse(url: Seq<char>) -> (AtcoderContestType, u32, Seq<char>) {
    match at_first_match(url, 0) {
        Some((k, d, p)) => (
            contest_type_of(k),
            match parse_u32(d) {
                Some(n) => n,
                None => 0,
            },
            p,
        ),
        None => (AtcoderContestType::Unkonwn, 0, "0"@),
    }
}

fn last_underscore_exec(s: &[char], lo: usize, hi: usize) -> (r: Option<usize>)
    requires
        hi < s.len(),
    ensures
        r matches Some(p) ==> last_underscore(s@, lo as int, hi as int) == p,
        r is None ==> last_underscore(s@, lo as int, hi as int) == -1,
{
    let mut h: usize = hi;
    loop
        invariant
            h <= hi < s.len(),
            last_underscore(s@, lo as int, hi as int) == last_underscore(s@, lo as int, h as int),
        decreases h,
    {
        if h < lo {
            return None;
        }
        if s[h] == '_' {
            return Some(h);
        }
        if h == 0 {
            assert(last_underscore(s@, lo as int, -1) == -1);
            return None;
        }
        h = h - 1;
    }
}

fn at_match_at_exec(s: &[char], i: usize) -> (r: Option<(AtcoderContestType, usize, usize, usize, usize)>)
    requires
        i <= s.len(),
    ensures
        r is None ==> at_match_at(s@, i as int) is None,
        r matches Some((k, t, g, p, e)) ==> {
            &&& t <= g <= s.len()
            &&& p <= e <= s.len()
            &&& at_match_at(s@, i as int) is Some
            &&& {
                let m = at_match_at(s@, i as int).unwrap();
                &&& k == contest_type_of(m.0)
                &&& m.1 == s@.subrange(t as int, g as int)
                &&& m.2 == s@.subrange(p as int, e as int)
            }
        },
{
    let host = chars_of("atcoder.jp/contests/");
    if !matches_at_exec(s, &host, i) {
        return None;
    }
    let j = i + host.len();
    let abc = chars_of("abc");
    let arc = chars_of("arc");
    let agc = chars_of("agc");
    let kind: AtcoderContestType;
    let t: usize;
    if matches_at_exec(s, &abc, j) {
        kind = AtcoderContestType::ABC;
        t = j + abc.len();
    } else if matches_at_exec(s, &arc, j) {
        kind = AtcoderContestType::ARC;
        t = j + arc.len();
    } else if matches_at_exec(s, &agc, j) {
        kind = AtcoderContestType::AGC;
        t = j + agc.len();
    } else {
        return None;
    }
    proof {
        reveal_strlit("abc");
        reveal_strlit("arc");
        reveal_strlit("agc");
    }
    let g = class_end_exec(s, t, Class::Word);
    let tasks = chars_of("/tasks/");
    if g <= t || !matches_at_exec(s, &tasks, g) {
        return None;
    }
    let u = g + tasks.len();
    let r = class_end_exec(s, u, Class::Word);
    if r - u < 2 {
        assert(last_underscore(s@, u + 1, r - 2) == -1);
        return None;
    }
    proof {
        lemma_last_underscore(s@, u + 1, r - 2);
    }
    match last_underscore_exec(s, u + 1, r - 2) {
        Some(p) => Some((kind, t, g, p + 1, r)),
        None => None,
    }
}

/// Reads the contest kind, number and problem out of an AtCoder problem
/// address.
pub fn parse_atcoder_url(url: &str) -> (r: (AtcoderContestType, u32, String))
    ensures
        r.0 == at_parse(url@).0,
        r.1 == at_parse(url@).1,
        r.2@ == at_parse(url@).2,
{
    let s = chars_of(url);
    let mut i: usize = 0;
    loop
        invariant
            i <= s.len(),
            s@ == url@,
            at_first_match(s@, 0) == at_first_match(s@, i as int),
        ensures
            s@ == url@,
            at_first_match(s@, 0) is None,
        decreases s.len() - i,
    {
        match at_match_at_exec(&s, i) {
            Some((k, t, g, p, e)) => {
                let d = subvec(&s, t, g);
                let q = subvec(&s, p, e);
                let n = match parse_u32_exec(&d) {
                    Some(n) => n,
                    None => 0,
                };
                return (k, n, string_of(&q));
            },
            None => {},
        }
        if i == s.len() {
            assert(at_first_match(s@, i + 1) is None);
            break ;
        }
        i = i + 1;
    }
    (AtcoderContestType::Unkonwn, 0, string_of(&chars_of("0")))
}


/// The `([^:/\n]+)` capture when it starts at `p`.
pub open spec fn host_capture_at(s: Seq<char>, p: int) -> Option<Seq<char>> {
    let e = class_end(s, p, Class::NotColonSlashNewline);
    if 0 <= p <= s.len() && e > p {
        Some(s.subrange(p, e))
    } else {
        None
    }
}

/// `(?:www\.)?([^:/\n]+)` from `p`: the `www.` prefix is taken when the host
/// after it is not empty.
pub open spec fn host_after_user(s: Seq<char>, p: int) -> Option<Seq<char>> {
    if matches_at(s, "www."@, p) && host_capture_at(s, p + "www."@.len()) is Some {
        host_capture_at(s, p + "www."@.len())
    } else {
        host_capture_at(s, p)
    }
}

/// `(?:[^@/\n]+@)?(?:www\.)?([^:/\n]+)` from `p`: the user part is taken when
/// there is one and the rest matches after it.
pub open spec fn host_after_scheme(s: Seq<char>, p: int) -> Option<Seq<char>> {
    let q = class_end(s, p, Class::NotAtSlashNewline);
    if q > p && q < s.len() && s[q] == '@' && host_after_user(s, q + 1) is Some {
        host_after_user(s, q + 1)
    } else {
        host_after_user(s, p)
    }
}

/// The host that `^(?:https?:\/\/)?(?:[^@\/\n]+@)?(?:www\.)?([^:\/\n]+)`
/// captures: the scheme is taken when there is one and the rest matches after
/// it; `None` when the pattern does not match at all.
pub open spec fn host_of(s: Seq<char>) -> Option<Seq<char>> {
    let sp = if matches_at(s, "https://"@, 0) {
        "https://"@.len() as int
    } else if matches_at(s, "http://"@, 0) {
        "http://"@.len() as int
    } else {
        -1
    };
    if sp >= 0 && host_after_scheme(s, sp) is Some {
        host_after_scheme(s, sp)
    } else {
        host_after_scheme(s, 0)
    }
}

fn host_capture_at_exec(s: &[char], p: usize) -> (r: Option<(usize, usize)>)
    requires
        p <= s.len(),
    ensures
        r is None ==> host_capture_at(s@, p as int) is None,
        r matches Some((a, b)) ==> a <= b <= s.len() && host_capture_at(s@, p as int) == Some(
            s@.subrange(a as int, b as int),
        ),
{
    let e = class_end_exec(s, p, Class::NotColonSlashNewline);
    if e > p {
        Some((p, e))
    } else {
        None
    }
}

fn host_after_user_exec(s: &[char], p: usize) -> (r: Option<(usize, usize)>)
    requires
        p <= s.len(),
    ensures
        r is None ==> host_after_user(s@, p as int) is None,
        r matches Some((a, b)) ==> a <= b <= s.len() && host_after_user(s@, p as int) == Some(
            s@.subrange(a as int, b as int),
        ),
{
    let www = chars_of("www.");
    if matches_at_exec(s, &www, p) {
        match host_capture_at_exec(s, p + www.len()) {
            Some(r) => {
                return Some(r);
            },
            None => {},
        }
    }
    host_capture_at_exec(s, p)
}

fn host_after_scheme_exec(s: &[char], p: usize) -> (r: Option<(usize, usize)>)
    requires
        p <= s.len(),
    ensures
        r is None ==> host_after_scheme(s@, p as int) is None,
        r matches Some((a, b)) ==> a <= b <= s.len() && host_after_scheme(s@, p as int) == Some(
            s@.subrange(a as int, b as int),
        ),
{
    let q = class_end_exec(s, p, Class::NotAtSlashNewline);
    if q > p && q < s.len() && s[q] == '@' {
        match host_after_user_exec(s, q + 1) {
            Some(r) => {
                return Some(r);
            },
            None => {},
        }
    }
    host_after_user_exec(s, p)
}

fn host_of_exec(s: &[char]) -> (r: Option<(usize, usize)>)
    ensures
        r is None ==> host_of(s@) is None,
        r matches Some((a, b)) ==> a <= b <= s.len() && host_of(s@) == Some(
            s@.subrange(a as int, b as int),
        ),
{
    let https = chars_of("https://");
    let http = chars_of("http://");
    let mut sp: Option<usize> = None;
    if matches_at_exec(s, &https, 0) {
        sp = Some(https.len());
    } else if matches_at_exec(s, &http, 0) {
        sp = Some(http.len());
    }
    match sp {
        Some(p) => {
            match host_after_scheme_exec(s, p) {
                Some(r) => {
                    return Some(r);
                },
                None => {},
            }
        },
        None => {},
    }
    host_after_scheme_exec(s, 0)
}

/// The platform a problem comes from.
#[derive(Debug)]
pub enum CompetitvePlatform {
    Codeforces,
    Atcoder,
    /// Another site, named after its host with dots turned into `_`.
    Unknown(String),
}

/// The mathematical value of a `CompetitvePlatform`.
pub enum PlatformView {
    Codeforces,
    Atcoder,
    Unknown(Seq<char>),
}

impl View for CompetitvePlatform {
    type V = PlatformView;

    open spec fn view(&self) -> PlatformView {
        match self {
            CompetitvePlatform::Codeforces => PlatformView::Codeforces,
            CompetitvePlatform::Atcoder => PlatformView::Atcoder,
            CompetitvePlatform::Unknown(h) => PlatformView::Unknown(h@),
        }
    }
}

impl Clone for CompetitvePlatform {
    fn clone(&self) -> (r: Self)
        ensures
            r@ == self@,
    {
        match self {
            CompetitvePlatform::Codeforces => CompetitvePlatform::Codeforces,
            CompetitvePlatform::Atcoder => CompetitvePlatform::Atcoder,
            CompetitvePlatform::Unknown(h) => CompetitvePlatform::Unknown(h.clone()),
        }
    }
}

impl PartialEq for CompetitvePlatform {
    fn eq(&self, other: &Self) -> (r: bool) {
        match (self, other) {
            (CompetitvePlatform::Codeforces, CompetitvePlatform::Codeforces) => true,
            (CompetitvePlatform::Atcoder, CompetitvePlatform::Atcoder) => true,
            (CompetitvePlatform::Unknown(a), CompetitvePlatform::Unknown(b)) => a.eq(b),
            _ => false,
        }
    }
}

impl PartialEqSpecImpl for CompetitvePlatform {
    open spec fn obeys_eq_spec() -> bool {
        true
    }

    open spec fn eq_spec(&self, other: &CompetitvePlatform) -> bool {
        self@ == other@
    }
}

impl Eq for CompetitvePlatform {

}

/// The platform of a problem address: Codeforces when it mentions
/// `codeforces.com`, else AtCoder when it mentions `atcoder.jp`, else an
/// unknown site named after the address's host (`unknown_platform` when no
/// host can be read), with dots turned into `_`.
pub open spec fn platform_of(url: Seq<char>) -> PlatformView {
    if find_from(url, "codeforces.com"@, 0) is Some {
        PlatformView::Codeforces
    } else if find_from(url, "atcoder.jp"@, 0) is Some {
        PlatformView::Atcoder
    } else {
        PlatformView::Unknown(
            replace_all(
                match host_of(url) {
                    Some(h) => h,
                    None => "unknown_platform"@,
                },
                "."@,
                "_"@,
            ),
        )
    }
}

/// Which handler takes the problems of a platform.
#[derive(Debug, Clone, Copy, PartialEq, Eq, Structural)]
pub enum HandlerKind {
    Codeforces,
    Atcoder,
    Default,
}

impl CompetitvePlatform {
    /// The platform of a problem address.
    pub fn parse_from_url(url: &str) -> (r: CompetitvePlatform)
        ensures
            r@ == platform_of(url@),
    {
        let s = chars_of(url);
        let cf = chars_of("codeforces.com");
        if find_from_exec(&s, &cf, 0).is_some() {
            return CompetitvePlatform::Codeforces;
        }
        let at = chars_of("atcoder.jp");
        if find_from_exec(&s, &at, 0).is_some() {
            return CompetitvePlatform::Atcoder;
        }
        let host: Vec<char> = match host_of_exec(&s) {
            Some((a, b)) => subvec(&s, a, b),
            None => chars_of("unknown_platform"),
        };
        let dot = chars_of(".");
        let us = chars_of("_");
        proof {
            reveal_strlit(".");
        }
        let name = replace_all_exec(&host, &dot, &us);
        CompetitvePlatform::Unknown(string_of(&name))
    }

    /// The handler that takes this platform's problems.
    pub fn dispatch(&self) -> (r: HandlerKind)
        ensures
            r == (match self@ {
                PlatformView::Codeforces => HandlerKind::Codeforces,
                PlatformView::Atcoder => HandlerKind::Atcoder,
                PlatformView::Unknown(_) => HandlerKind::Default,
            }),
    {
        match self {
            CompetitvePlatform::Codeforces => HandlerKind::Codeforces,
            CompetitvePlatform::Atcoder => HandlerKind::Atcoder,
            CompetitvePlatform::Unknown(_) => HandlerKind::Default,
        }
    }
}

proof fn lemma_class_end_at(s: Seq<char>, a: int, b: int, cls: Class)
    requires
        0 <= a <= b <= s.len(),
        forall|k: int| a <= k < b ==> in_class(cls, #[trigger] s[k]),
        b == s.len() || !in_class(cls, s[b]),
    ensures
        class_end(s, a, cls) == b,
    decreases b - a,
{
    if a < b {
        lemma_class_end_at(s, a + 1, b, cls);
    }
}

/// A host name with nothing else in it: not empty, and without `:`, `/`,
/// line feeds or `@`.
pub open spec fn plain_host(h: Seq<char>) -> bool {
    &&& h.len() > 0
    &&& forall|k: int| 0 <= k < h.len() ==> #[trigger] h[k] != ':' && h[k] != '/' && h[k] != '\n' && h[k] != '@'
}

/// The schemes an address may start with.
pub open spec fn scheme_prefix(scheme: Seq<char>) -> bool {
    scheme == "https://"@ || scheme == "http://"@ || scheme == Seq::<char>::empty()
}

proof fn lemma_host_after_scheme_www(pre: Seq<char>, user: Seq<char>, h: Seq<char>, rest: Seq<char>)
    requires
        plain_host(h),
        rest.len() == 0 || rest[0] == '/',
        user.len() == 0 || (user.len() > 1 && user.last() == '@' && forall|k: int|
            0 <= k < user.len() - 1 ==> #[trigger] user[k] != '@' && user[k] != '/' && user[k]
                != '\n'),
    ensures
        host_after_scheme(pre + (user + "www."@ + h + rest), pre.len() as int) == Some(h),
{
    reveal_strlit("www.");
    let s = pre + (user + "www."@ + h + rest);
    let p = pre.len() as int;
    let w = p + user.len();
    let hs = w + 4;
    let he = hs + h.len();
    assert(s.len() == p + user.len() + 4 + h.len() + rest.len());
    assert forall|k: int| 0 <= k < user.len() implies s[p + k] == user[k] by {}
    assert forall|k: int| 0 <= k < 4 implies s[w + k] == "www."@[k] by {}
    assert forall|k: int| 0 <= k < h.len() implies s[hs + k] == h[k] by {}
    assert(rest.len() > 0 ==> s[he] == rest[0]);
    assert forall|k: int| hs <= k < he implies in_class(Class::NotColonSlashNewline, #[trigger] s[k]) by {
        assert(s[k] == h[k - hs]);
    }
    lemma_class_end_at(s, hs, he, Class::NotColonSlashNewline);
    assert(s.subrange(hs, he) =~= h);
    assert(s.subrange(w, w + 4) =~= "www."@);
    assert(host_after_user(s, w) == Some(h));
    if user.len() == 0 {
        assert forall|k: int| p <= k < he implies in_class(Class::NotAtSlashNewline, #[trigger] s[k]) by {
            if k >= hs {
                assert(s[k] == h[k - hs]);
            } else {
                assert(s[k] == "www."@[k - w]);
            }
        }
        lemma_class_end_at(s, p, he, Class::NotAtSlashNewline);
    } else {
        let q = w - 1;
        assert forall|k: int| p <= k < q implies in_class(Class::NotAtSlashNewline, #[trigger] s[k]) by {
            assert(s[k] == user[k - p]);
        }
        assert(s[q] == user[user.len() - 1]);
        lemma_class_end_at(s, p, q, Class::NotAtSlashNewline);
    }
}

proof fn lemma_no_scheme(s: Seq<char>, he: int)
    requires
        7 <= he <= s.len(),
        forall|k: int| 0 <= k < he ==> #[trigger] s[k] != '/',
    ensures
        !matches_at(s, "https://"@, 0),
        !matches_at(s, "http://"@, 0),
{
    reveal_strlit("https://");
    reveal_strlit("http://");
    if matches_at(s, "https://"@, 0) {
        assert(s.subrange(0, 8)[6] == s[6]);
    }
    if matches_at(s, "http://"@, 0) {
        assert(s.subrange(0, 7)[5] == s[5]);
    }
}

/// The host read from an address drops a leading `www.`, with or without a
/// user part before it: `scheme` + `user@` + `www.` + `h` + a path reads as
/// the host `h`.
pub proof fn lemma_host_drops_www(scheme: Seq<char>, user: Seq<char>, h: Seq<char>, rest: Seq<char>)
    requires
        scheme_prefix(scheme),
        plain_host(h),
        rest.len() == 0 || rest[0] == '/',
        user.len() == 0 || (user.len() > 1 && user.last() == '@' && forall|k: int|
            0 <= k < user.len() - 1 ==> #[trigger] user[k] != '@' && user[k] != '/' && user[k]
                != '\n'),
    ensures
        host_of(scheme + user + "www."@ + h + rest) == Some(h),
{
    let s = scheme + user + "www."@ + h + rest;
    let body = user + "www."@ + h + rest;
    assert(s =~= scheme + body);
    lemma_host_after_scheme_www(scheme, user, h, rest);
    if scheme == "https://"@ {
        reveal_strlit("https://");
        assert(s.subrange(0, 8) =~= "https://"@);
        assert(matches_at(s, "https://"@, 0));
    } else if scheme == "http://"@ {
        reveal_strlit("https://");
        reveal_strlit("http://");
        assert(s.subrange(0, 7) =~= "http://"@);
        assert(matches_at(s, "http://"@, 0));
        assert(!matches_at(s, "https://"@, 0)) by {
            if matches_at(s, "https://"@, 0) {
                assert(s.subrange(0, 8)[4] == s[4]);
            }
        }
    } else {
        reveal_strlit("www.");
        assert(s =~= body);
        assert(Seq::<char>::empty() + body =~= body);
        lemma_no_user_slash(user, h, rest);
        let he = (user.len() + 4 + h.len()) as int;
        if user.len() == 0 && he < 7 {
            // Without a user part the address starts with `www.`.
            reveal_strlit("https://");
            reveal_strlit("http://");
            assert(s[0] == 'w');
            if matches_at(s, "https://"@, 0) {
                assert(s.subrange(0, 8)[0] == s[0]);
            }
            if matches_at(s, "http://"@, 0) {
                assert(s.subrange(0, 7)[0] == s[0]);
            }
        } else {
            lemma_no_scheme(s, he);
        }
    }
}

proof fn lemma_no_user_slash(user: Seq<char>, h: Seq<char>, rest: Seq<char>)
    requires
        plain_host(h),
        user.len() == 0 || (user.len() > 1 && user.last() == '@' && forall|k: int|
            0 <= k < user.len() - 1 ==> #[trigger] user[k] != '@' && user[k] != '/' && user[k]
                != '\n'),
    ensures
        forall|k: int|
            0 <= k < user.len() + 4 + h.len() ==> #[trigger] (user + "www."@ + h + rest)[k] != '/',
        (user + "www."@ + h + rest).len() >= user.len() + 4 + h.len(),
        user.len() == 0 ==> (user + "www."@ + h + rest)[0] == 'w',
{
    reveal_strlit("www.");
    let s = user + "www."@ + h + rest;
    assert forall|k: int| 0 <= k < user.len() + 4 + h.len() implies #[trigger] s[k] != '/' by {
        if k < user.len() {
            assert(s[k] == user[k]);
        } else if k < user.len() + 4 {
            assert(s[k] == "www."@[k - user.len()]);
        } else {
            assert(s[k] == h[k - user.len() - 4]);
        }
    }
}

/// An address on any other site is named after its host, a leading `www.`
/// dropped and dots turned into `_`.
pub proof fn lemma_unknown_platform_drops_www(scheme: Seq<char>, user: Seq<char>, h: Seq<char>, rest: Seq<char>)
    requires
        scheme_prefix(scheme),
        plain_host(h),
        rest.len() == 0 || rest[0] == '/',
        user.len() == 0 || (user.len() > 1 && user.last() == '@' && forall|k: int|
            0 <= k < user.len() - 1 ==> #[trigger] user[k] != '@' && user[k] != '/' && user[k]
                != '\n'),
        find_from(scheme + user + "www."@ + h + rest, "codeforces.com"@, 0) is None,
        find_from(scheme + user + "www."@ + h + rest, "atcoder.jp"@, 0) is None,
    ensures
        platform_of(scheme + user + "www."@ + h + rest) == PlatformView::Unknown(
            replace_all(h, "."@, "_"@),
        ),
{
    lemma_host_drops_www(scheme, user, h, rest);
}

} // verus!
