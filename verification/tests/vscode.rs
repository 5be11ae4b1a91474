use cph_tools::platform::HandlerKind;
use cph_tools::vscode::VscodeAdapter;

#[test]
fn test_replace_running() {
    let s = r#"{
                "cmake.environment": {
                "GTEST_BRIEF": "1",
                "ENABLE_THIRD_PARTY": "true",
                // "ENABLE_TESTING": "true",
                "ENABLE_BINS": "true",
                "ENABLE_ARCHIVE": "true",
                "RUNNING_CONTEST": "abc374",
            },
        }"#;
    let h = VscodeAdapter::new(HandlerKind::Codeforces);
    let new = h.replace_running_contest(&s, "cf1234");
    assert_eq!(
        new.chars()
            .filter(|x| !x.is_whitespace())
            .collect::<String>(),
        r#"{
            "cmake.environment": {
            "GTEST_BRIEF": "1",
            "ENABLE_THIRD_PARTY": "true",
            // "ENABLE_TESTING": "true",
            "ENABLE_BINS": "true",
            "ENABLE_ARCHIVE": "true",
            "RUNNING_CONTEST": "cf1234",
        },
    }"#
        .chars()
        .filter(|x| !x.is_whitespace())
        .collect::<String>()
    );
}

#[test]
fn replace_running_touches_only_the_first_entry() {
    let h = VscodeAdapter::new(HandlerKind::Atcoder);
    let s = "{\"RUNNING_CONTEST\":\t \"a\", \"RUNNING_CONTEST\": \"b\"}";
    assert_eq!(
        h.replace_running_contest(s, "abc1"),
        "{\"RUNNING_CONTEST\": \"abc1\", \"RUNNING_CONTEST\": \"b\"}"
    );
}

#[test]
fn replace_running_without_entry_keeps_text() {
    let h = VscodeAdapter::new(HandlerKind::Default);
    let s = "{\"OTHER\": \"a\"}";
    assert_eq!(h.replace_running_contest(s, "cf1"), s);
}

#[test]
fn replace_running_expands_group_references_like_regex() {
    let h = VscodeAdapter::new(HandlerKind::Codeforces);
    let s = "x \"RUNNING_CONTEST\": \"old\" y";
    // `$1` in the replacement stands for the old value, as in `Regex::replace`.
    assert_eq!(
        h.replace_running_contest(s, "$1-new"),
        "x \"RUNNING_CONTEST\": \"old-new\" y"
    );
    // `$$` is a literal dollar sign.
    assert_eq!(
        h.replace_running_contest(s, "$$5"),
        "x \"RUNNING_CONTEST\": \"$5\" y"
    );
}

#[test]
fn replace_running_matches_regex_crate() {
    let re = regex::Regex::new(r#""RUNNING_CONTEST":\s*"([^"]*)""#).unwrap();
    let h = VscodeAdapter::new(HandlerKind::Codeforces);
    let inputs = [
        "{\"RUNNING_CONTEST\":\n\"abc\"}",
        "\"RUNNING_CONTEST\" : \"x\"",
        "\"RUNNING_CONTEST\":\"\"",
        "prefix \"RUNNING_CONTEST\":   \"v1\" and \"RUNNING_CONTEST\": \"v2\"",
        "\"RUNNING_CONTEST\": \"unterminated",
    ];
    for s in inputs {
        for env in ["cf1", "$1", "${1}x", "$0!", "$name"] {
            let want = re
                .replace(s, format!(r#""RUNNING_CONTEST": "{}""#, env))
                .into_owned();
            assert_eq!(h.replace_running_contest(s, env), want, "input {s:?} env {env:?}");
        }
    }
}

#[test]
fn setting_then_reading_the_running_contest() {
    let re = regex::Regex::new(r#""RUNNING_CONTEST":\s*"([^"]*)""#).unwrap();
    let h = VscodeAdapter::new(HandlerKind::Codeforces);
    let s = "{ \"A\": \"\\\"RUNNING_CONTEST\\\"\", \"RUNNING_CONTEST\":\n  \"abc1\" }";
    let out = h.replace_running_contest(s, "cf_2010");
    let value = re.captures(&out).map(|c| c[1].to_owned());
    assert_eq!(value, Some("cf_2010".to_owned()));
}
