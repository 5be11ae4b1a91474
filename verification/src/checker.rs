//! Judging the output of a solver against the expected output.

use vstd::prelude::*;
use vstd::utf8::*;

use crate::text::{
    append_chars, append_str, chars_eq, chars_of, decimal, decimal_exec, decimal_usize, split_whitespace,
    string_of, words,
};

verus! {

/// A comparison that could not be carried out, and the stage that broke.
#[derive(Debug, Clone, Copy, PartialEq, Eq, Structural)]
pub enum CompareResultUnexpected {
    BruteForceBuildFailed,
    CheckerBuildFailed,
    GenBuildFailed,
    GenRuntimeError,
    GenOutputError,
    CompareRuntimeError,
}

impl CompareResultUnexpected {
    /// The variant's name, as `{:?}` prints it.
    pub open spec fn name(self) -> Seq<char> {
        match self {
            CompareResultUnexpected::BruteForceBuildFailed => "BruteForceBuildFailed"@,
            CompareResultUnexpected::CheckerBuildFailed => "CheckerBuildFailed"@,
            CompareResultUnexpected::GenBuildFailed => "GenBuildFailed"@,
            CompareResultUnexpected::GenRuntimeError => "GenRuntimeError"@,
            CompareResultUnexpected::GenOutputError => "GenOutputError"@,
            CompareResultUnexpected::CompareRuntimeError => "CompareRuntimeError"@,
        }
    }

    /// The variant's name, as `{:?}` prints it.
    pub fn debug_name(&self) -> (r: &'static str)
        ensures
            r@ == self.name(),
    {
        match self {
            CompareResultUnexpected::BruteForceBuildFailed => "BruteForceBuildFailed",
            CompareResultUnexpected::CheckerBuildFailed => "CheckerBuildFailed",
            CompareResultUnexpected::GenBuildFailed => "GenBuildFailed",
            CompareResultUnexpected::GenRuntimeError => "GenRuntimeError",
            CompareResultUnexpected::GenOutputError => "GenOutputError",
            CompareResultUnexpected::CompareRuntimeError => "CompareRuntimeError",
        }
    }
}

/// The verdict of one comparison.
#[derive(Debug)]
pub enum CompareResult {
    /// Accepted.
    AC,
    /// The solver did not compile; the compiler's message.
    CE(String),
    /// Wrong answer: a hint, then what the brute force and the solver gave.
    WA(String, (String, String)),
    /// Runtime error, with a hint.
    RE(String),
    /// Time limit exceeded: the limit and the time used, in milliseconds.
    TLE(u64, u64),
    /// The comparison itself failed.
    CompareResultUnexpected(CompareResultUnexpected, String),
}

/// The mathematical value of a `CompareResult`.
pub enum ResultView {
    AC,
    CE(Seq<char>),
    WA(Seq<char>, Seq<char>, Seq<char>),
    RE(Seq<char>),
    TLE(u64, u64),
    Unexpected(CompareResultUnexpected, Seq<char>),
}

impl View for CompareResult {
    type V = ResultView;

    open spec fn view(&self) -> ResultView {
        match self {
            CompareResult::AC => ResultView::AC,
            CompareResult::CE(h) => ResultView::CE(h@),
            CompareResult::WA(h, (x, y)) => ResultView::WA(h@, x@, y@),
            CompareResult::RE(h) => ResultView::RE(h@),
            CompareResult::TLE(l, u) => ResultView::TLE(*l, *u),
            CompareResult::CompareResultUnexpected(k, h) => ResultView::Unexpected(*k, h@),
        }
    }
}

impl Clone for CompareResult {
    fn clone(&self) -> (r: Self)
        ensures
            r@ == self@,
    {
        match self {
            CompareResult::AC => CompareResult::AC,
            CompareResult::CE(h) => CompareResult::CE(h.clone()),
            CompareResult::WA(h, (x, y)) => CompareResult::WA(h.clone(), (x.clone(), y.clone())),
            CompareResult::RE(h) => CompareResult::RE(h.clone()),
            CompareResult::TLE(l, u) => CompareResult::TLE(*l, *u),
            CompareResult::CompareResultUnexpected(k, h) => CompareResult::CompareResultUnexpected(
                *k,
                h.clone(),
            ),
        }
    }
}

/// The text shown for a verdict.
pub open spec fn describe_spec(v: ResultView) -> Seq<char> {
    match v {
        ResultView::AC => "[accept]"@,
        ResultView::CE(h) => "[compile error] "@ + h,
        ResultView::WA(h, x, y) => "[wrong answer]: "@ + h + "\nbrute_force:\n "@ + x
            + "\nsolver:\n "@ + y,
        ResultView::RE(h) => "[runtime error]: "@ + h,
        ResultView::TLE(l, u) => "[time limit excceed]: limit: "@ + decimal(l as nat)
            + "ms, used: "@ + decimal(u as nat) + "ms"@,
        ResultView::Unexpected(k, h) => "Unexpected result: "@ + k.name() + ", hint: "@ + h,
    }
}

impl CompareResult {
    /// The text shown for this verdict (what `Display` prints).
    pub fn describe(&self) -> (s: String)
        ensures
            s@ == describe_spec(self@),
    {
        let mut v: Vec<char> = Vec::new();
        match self {
            CompareResult::AC => {
                append_str(&mut v, "[accept]");
            },
            CompareResult::CE(h) => {
                append_str(&mut v, "[compile error] ");
                append_str(&mut v, h.as_str());
            },
            CompareResult::WA(h, (x, y)) => {
                append_str(&mut v, "[wrong answer]: ");
                append_str(&mut v, h.as_str());
                append_str(&mut v, "\nbrute_force:\n ");
                append_str(&mut v, x.as_str());
                append_str(&mut v, "\nsolver:\n ");
                append_str(&mut v, y.as_str());
            },
            CompareResult::RE(h) => {
                append_str(&mut v, "[runtime error]: ");
                append_str(&mut v, h.as_str());
            },
            CompareResult::TLE(l, u) => {
                append_str(&mut v, "[time limit excceed]: limit: ");
                let ld = decimal_exec(*l);
                append_chars(&mut v, &ld);
                append_str(&mut v, "ms, used: ");
                let ud = decimal_exec(*u);
                append_chars(&mut v, &ud);
                append_str(&mut v, "ms");
            },
            CompareResult::CompareResultUnexpected(k, h) => {
                append_str(&mut v, "Unexpected result: ");
                append_str(&mut v, k.debug_name());
                append_str(&mut v, ", hint: ");
                append_str(&mut v, h.as_str());
            },
        }
        string_of(&v)
    }
}


/// `v` is what `Utf8Error::valid_up_to` reports for `bytes`: the largest
/// prefix length that is valid UTF-8.
pub open spec fn is_valid_up_to(bytes: Seq<u8>, v: int) -> bool {
    &&& 0 <= v <= bytes.len()
    &&& valid_utf8(bytes.take(v))
    &&& forall|j: int| v < j <= bytes.len() ==> !valid_utf8(#[trigger] bytes.take(j))
}

/// The length of the longest valid UTF-8 prefix of `bytes`.
pub open spec fn valid_up_to(bytes: Seq<u8>) -> int {
    choose|v: int| is_valid_up_to(bytes, v)
}

/// What `Utf8Error::error_len` reports when `std::str::from_utf8` rejects `bytes`.
pub uninterp spec fn utf8_error_len(bytes: Seq<u8>) -> Option<usize>;

/// `std::str::from_utf8`. On success the text decodes the bytes; on failure the
/// error's `valid_up_to` is the length of the longest valid prefix (as std
/// documents it) and its `error_len` is named, with only its documented range
/// stated (which byte sequence std counts as the invalid one is left unsaid).
#[verifier::external_body]
fn from_utf8(bytes: &[u8]) -> (r: Result<&str, (usize, Option<usize>)>)
    ensures
        r is Ok <==> valid_utf8(bytes@),
        r matches Ok(s) ==> s@ == decode_utf8(bytes@),
        r matches Err((v, e)) ==> is_valid_up_to(bytes@, v as int) && e == utf8_error_len(bytes@)
            && (e matches Some(l) ==> 1 <= l <= 3),
{
    std::str::from_utf8(bytes).map_err(|e| (e.valid_up_to(), e.error_len()))
}

proof fn lemma_valid_up_to_unique(bytes: Seq<u8>, v: int)
    requires
        is_valid_up_to(bytes, v),
    ensures
        valid_up_to(bytes) == v,
{
    let w = valid_up_to(bytes);
    assert(is_valid_up_to(bytes, w));
    if w < v {
        assert(!valid_utf8(bytes.take(v)));
    }
    if v < w {
        assert(!valid_utf8(bytes.take(w)));
    }
}

/// `{:?}` of the `Err` side of a `from_utf8` call: `None` when the bytes are
/// valid, else the `Utf8Error` with its two fields.
pub open spec fn utf8_error_debug(bytes: Seq<u8>) -> Seq<char> {
    if valid_utf8(bytes) {
        "None"@
    } else {
        "Some(Utf8Error { valid_up_to: "@ + decimal(valid_up_to(bytes) as nat) + ", error_len: "@
            + match utf8_error_len(bytes) {
            Some(l) => "Some("@ + decimal(l as nat) + ")"@,
            None => "None"@,
        } + " })"@
    }
}

/// The hint given when an output is not UTF-8.
pub open spec fn not_utf8_hint(a: Seq<u8>, b: Seq<u8>) -> Seq<char> {
    "some output not utf8: "@ + utf8_error_debug(a) + " "@ + utf8_error_debug(b)
}

fn append_utf8_error_debug(v: &mut Vec<char>, bytes: &[u8], r: &Result<&str, (usize, Option<usize>)>)
    requires
        r is Ok <==> valid_utf8(bytes@),
        r matches Err((u, e)) ==> is_valid_up_to(bytes@, u as int) && e == utf8_error_len(bytes@),
    ensures
        final(v)@ == old(v)@ + utf8_error_debug(bytes@),
{
    match r {
        Ok(_) => {
            append_str(v, "None");
        },
        Err((u, e)) => {
            proof {
                lemma_valid_up_to_unique(bytes@, *u as int);
            }
            let ghost v0 = v@;
            append_str(v, "Some(Utf8Error { valid_up_to: ");
            let ud = decimal_exec(*u as u64);
            append_chars(v, &ud);
            append_str(v, ", error_len: ");
            let ghost v1 = v@;
            match e {
                Some(l) => {
                    append_str(v, "Some(");
                    let ld = decimal_exec(*l as u64);
                    append_chars(v, &ld);
                    append_str(v, ")");
                },
                None => {
                    append_str(v, "None");
                },
            }
            append_str(v, " })");
            assert(v@ =~= v0 + utf8_error_debug(bytes@));
        },
    }
}

/// A way of judging an output `a` (of the brute force) against `b` (of the
/// solver).
pub trait Checker {
    /// The verdict for two texts.
    spec fn judge(&self, a: Seq<char>, b: Seq<char>) -> ResultView;

    /// Judges two texts.
    fn check_inner(&self, a: &str, b: &str) -> (r: CompareResult)
        ensures
            r@ == self.judge(a@, b@),
    ;

    /// Judges two raw outputs: both must be UTF-8, else the verdict is a
    /// runtime error that says which was not.
    fn check(&self, a: &[u8], b: &[u8]) -> (r: CompareResult)
        ensures
            valid_utf8(a@) && valid_utf8(b@) ==> r@ == self.judge(decode_utf8(a@), decode_utf8(b@)),
            !(valid_utf8(a@) && valid_utf8(b@)) ==> r@ == ResultView::RE(not_utf8_hint(a@, b@)),
    {
        let ra = from_utf8(a);
        let rb = from_utf8(b);
        match (ra, rb) {
            (Ok(sa), Ok(sb)) => self.check_inner(sa, sb),
            _ => {
                let mut v: Vec<char> = Vec::new();
                append_str(&mut v, "some output not utf8: ");
                append_utf8_error_debug(&mut v, a, &ra);
                append_str(&mut v, " ");
                append_utf8_error_debug(&mut v, b, &rb);
                CompareResult::RE(string_of(&v))
            },
        }
    }
}

/// The first index from `i` on where two word lists differ.
pub open spec fn first_diff(x: Seq<Seq<char>>, y: Seq<Seq<char>>, i: int) -> Option<int>
    decreases x.len() - i,
{
    if i < 0 || i >= x.len() || i >= y.len() {
        None
    } else if x[i] != y[i] {
        Some(i)
    } else {
        first_diff(x, y, i + 1)
    }
}

/// The verdict of the word-by-word checker: the outputs must hold the same
/// number of white-space separated words, and the same words in order.
pub open spec fn words_judge(a: Seq<char>, b: Seq<char>) -> ResultView {
    let wa = words(a);
    let wb = words(b);
    if wa.len() != wb.len() {
        ResultView::WA("words counts not equal"@, decimal(wa.len()), decimal(wb.len()))
    } else {
        match first_diff(wa, wb, 0) {
            Some(i) => ResultView::WA("words not equal in "@ + decimal(i as nat), wa[i], wb[i]),
            None => ResultView::AC,
        }
    }
}

/// Compares outputs word by word, ignoring how the words are spaced.
pub struct WCmp;

impl Checker for WCmp {
    open spec fn judge(&self, a: Seq<char>, b: Seq<char>) -> ResultView {
        words_judge(a, b)
    }

    fn check_inner(&self, a: &str, b: &str) -> (r: CompareResult) {
        let ac = chars_of(a);
        let bc = chars_of(b);
        let wa = split_whitespace(&ac);
        let wb = split_whitespace(&bc);
        if wa.len() != wb.len() {
            let la = decimal_usize(wa.len());
            let lb = decimal_usize(wb.len());
            return CompareResult::WA(
                string_of(&chars_of("words counts not equal")),
                (string_of(&la), string_of(&lb)),
            );
        }
        let ghost xa = words(a@);
        let ghost xb = words(b@);
        let mut i: usize = 0;
        while i < wa.len()
            invariant
                i <= wa.len() == wb.len() == xa.len() == xb.len(),
                xa == words(a@),
                xb == words(b@),
                forall|k: int| 0 <= k < wa.len() ==> (#[trigger] wa[k])@ == xa[k],
                forall|k: int| 0 <= k < wb.len() ==> (#[trigger] wb[k])@ == xb[k],
                first_diff(xa, xb, 0) == first_diff(xa, xb, i as int),
            decreases wa.len() - i,
        {
            if !chars_eq(&wa[i], &wb[i]) {
                assert(wa[i as int]@ == xa[i as int] && wb[i as int]@ == xb[i as int]);
                assert(first_diff(xa, xb, i as int) == Some(i as int));
                let mut h: Vec<char> = Vec::new();
                append_str(&mut h, "words not equal in ");
                let d = decimal_usize(i);
                append_chars(&mut h, &d);
                return CompareResult::WA(string_of(&h), (string_of(&wa[i]), string_of(&wb[i])));
            }
            i = i + 1;
        }
        CompareResult::AC
    }
}

proof fn lemma_first_diff_none(x: Seq<Seq<char>>, y: Seq<Seq<char>>, i: int)
    requires
        0 <= i <= x.len(),
        x.len() == y.len(),
    ensures
        first_diff(x, y, i) is None <==> forall|j: int| i <= j < x.len() ==> x[j] == y[j],
    decreases x.len() - i,
{
    if i < x.len() {
        lemma_first_diff_none(x, y, i + 1);
    }
}

/// The word checker accepts exactly when both outputs hold the same words in
/// the same order, however they are spaced.
pub proof fn lemma_words_judge_accepts(a: Seq<char>, b: Seq<char>)
    ensures
        words_judge(a, b) is AC <==> words(a) == words(b),
{
    let wa = words(a);
    let wb = words(b);
    if wa.len() == wb.len() {
        lemma_first_diff_none(wa, wb, 0);
        if first_diff(wa, wb, 0) is None {
            assert(wa =~= wb);
        }
    }
}

/// The word checker accepts `a` against `b` exactly when it accepts `b`
/// against `a`, and it always accepts an output against itself.
pub proof fn lemma_words_judge_symmetric(a: Seq<char>, b: Seq<char>)
    ensures
        words_judge(a, b) is AC <==> words_judge(b, a) is AC,
        words_judge(a, a) is AC,
{
    lemma_words_judge_accepts(a, b);
    lemma_words_judge_accepts(b, a);
    lemma_words_judge_accepts(a, a);
}

/// Outputs that differ only in their line endings (`\r\n` against `\n`) are
/// accepted, whichever side has which.
pub proof fn lemma_line_endings_accepted(x: Seq<char>, y: Seq<char>)
    ensures
        words_judge(x + seq!['\r', '\n'] + y, x + seq!['\n'] + y) is AC,
        words_judge(x + seq!['\n'] + y, x + seq!['\r', '\n'] + y) is AC,
{
    crate::text::lemma_words_line_endings(x, y);
    lemma_words_judge_accepts(x + seq!['\r', '\n'] + y, x + seq!['\n'] + y);
    lemma_words_judge_accepts(x + seq!['\n'] + y, x + seq!['\r', '\n'] + y);
}

/// A checker loaded from a dynamic library at the given path.
pub struct DynamicLibChecker(pub String);

} // verus!
