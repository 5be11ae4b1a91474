use cph_tools::checker::{Checker, CompareResult, CompareResultUnexpected, WCmp};

fn is_ac(r: &CompareResult) -> bool {
    matches!(r, CompareResult::AC)
}

#[test]
fn same_words_with_other_spacing_are_accepted() {
    let r = WCmp.check(b"1 2\n3\n", b"  1\t2 3");
    assert!(is_ac(&r));
    let r = WCmp.check_inner("", " \n\t ");
    assert!(is_ac(&r));
}

#[test]
fn word_count_difference_is_wrong_answer() {
    match WCmp.check(b"1 2 3", b"1 2") {
        CompareResult::WA(h, (a, b)) => {
            assert_eq!(h, "words counts not equal");
            assert_eq!(a, "3");
            assert_eq!(b, "2");
        }
        other => panic!("unexpected {:?}", other),
    }
}

#[test]
fn first_differing_word_is_reported() {
    match WCmp.check_inner("a b c d", "a b x y") {
        CompareResult::WA(h, (a, b)) => {
            assert_eq!(h, "words not equal in 2");
            assert_eq!(a, "c");
            assert_eq!(b, "x");
        }
        other => panic!("unexpected {:?}", other),
    }
}

#[test]
fn unicode_white_space_separates_words() {
    // U+3000 IDEOGRAPHIC SPACE and U+0085 NEXT LINE are white space for `split_whitespace`.
    assert!(is_ac(&WCmp.check_inner("a\u{3000}b\u{85}c", "a b c")));
    // U+200B ZERO WIDTH SPACE is not.
    assert!(!is_ac(&WCmp.check_inner("a\u{200B}b", "a b")));
}

#[test]
fn checker_is_symmetric_on_examples() {
    let pairs = [("1 2", "1  2"), ("1 2", "2 1"), ("x", ""), ("", "")];
    for (a, b) in pairs {
        assert_eq!(
            is_ac(&WCmp.check_inner(a, b)),
            is_ac(&WCmp.check_inner(b, a))
        );
        assert!(is_ac(&WCmp.check_inner(a, a)));
    }
}

#[test]
fn non_utf8_output_is_runtime_error() {
    let bad = [b'a', 0xff, b'b'];
    let good = b"ok";
    let want_bad = format!("{:?}", std::str::from_utf8(&bad).err());
    let want_good = format!("{:?}", std::str::from_utf8(good).err());
    match WCmp.check(&bad, good) {
        CompareResult::RE(h) => {
            assert_eq!(h, format!("some output not utf8: {} {}", want_bad, want_good));
            assert_eq!(
                h,
                "some output not utf8: Some(Utf8Error { valid_up_to: 1, error_len: Some(1) }) None"
            );
        }
        other => panic!("unexpected {:?}", other),
    }
    let truncated = [0xe4u8, 0xb8];
    match WCmp.check(good, &truncated) {
        CompareResult::RE(h) => assert_eq!(
            h,
            "some output not utf8: None Some(Utf8Error { valid_up_to: 0, error_len: None })"
        ),
        other => panic!("unexpected {:?}", other),
    }
}

#[test]
fn verdicts_are_described_as_displayed() {
    assert_eq!(CompareResult::AC.describe(), "[accept]");
    assert_eq!(CompareResult::CE("boom".to_owned()).describe(), "[compile error] boom");
    assert_eq!(
        CompareResult::WA("h".to_owned(), ("x".to_owned(), "y".to_owned())).describe(),
        "[wrong answer]: h\nbrute_force:\n x\nsolver:\n y"
    );
    assert_eq!(CompareResult::RE("r".to_owned()).describe(), "[runtime error]: r");
    assert_eq!(
        CompareResult::TLE(1000, 1503).describe(),
        "[time limit excceed]: limit: 1000ms, used: 1503ms"
    );
    assert_eq!(
        CompareResult::CompareResultUnexpected(
            CompareResultUnexpected::GenRuntimeError,
            "no gen".to_owned()
        )
        .describe(),
        "Unexpected result: GenRuntimeError, hint: no gen"
    );
}

#[test]
fn unexpected_kinds_print_their_names() {
    let all = [
        CompareResultUnexpected::BruteForceBuildFailed,
        CompareResultUnexpected::CheckerBuildFailed,
        CompareResultUnexpected::GenBuildFailed,
        CompareResultUnexpected::GenRuntimeError,
        CompareResultUnexpected::GenOutputError,
        CompareResultUnexpected::CompareRuntimeError,
    ];
    for k in all {
        assert_eq!(k.debug_name(), format!("{:?}", k));
    }
}
