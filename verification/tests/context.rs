use cph_tools::model::{Batch, ProblemMetaWithTestCase, TestType};
use cph_tools::platform::AtcoderContestType;
use cph_tools::problem::{AtcoderHandler, CodeforcesHandler};

fn problem(url: &str) -> ProblemMetaWithTestCase {
    ProblemMetaWithTestCase {
        name: "G. Castle Defense".to_owned(),
        group: "Codeforces - Educational Codeforces Round 40 (Rated for Div. 2)".to_owned(),
        url: url.to_owned(),
        interactive: false,
        memory_limit: 256,
        time_limit: 1500,
        tests: vec![],
        test_type: TestType::Single,
        batch: Batch { id: "123e67c8-03c6-44a4-a3f9-5918533f9fb2".to_owned(), size: 1 },
    }
}

#[test]
fn codeforces_problem_directory() {
    let cx = CodeforcesHandler::get_context(
        &problem("https://codeforces.com/problemset/problem/954/G"),
        "/a/codeforces",
        None,
    )
    .expect("the contest is known");
    assert_eq!(cx.home_dir, "/a/codeforces/954/G");
    assert_eq!(cx.contest_id, 954);
    assert_eq!(cx.problem_id, "G");
}

#[test]
fn codeforces_problem_without_contest_needs_a_number() {
    let data = problem("https://codeforces.com/gym/1");
    assert!(CodeforcesHandler::get_context(&data, "/a/cf", None).is_none());
    let cx = CodeforcesHandler::get_context(&data, "/a/cf", Some(12)).expect("numbered");
    assert_eq!(cx.home_dir, "/a/cf/0/12");
    assert_eq!(cx.problem_id, "12");
}

#[test]
fn atcoder_problem_directory() {
    let cx = AtcoderHandler::get_context(
        &problem("https://atcoder.jp/contests/agc123/tasks/agc123_b"),
        "/a/atc",
        None,
    )
    .expect("the contest is known");
    assert_eq!(cx.home_dir, "/a/atc/arc/123/b");
    assert_eq!(cx.contest_id, (AtcoderContestType::AGC, 123));
    let unknown = problem("https://atcoder.jp/contests/ahc1/tasks/ahc1_a");
    assert!(AtcoderHandler::get_context(&unknown, "/a/atc", None).is_none());
    let cx = AtcoderHandler::get_context(&unknown, "/a/atc", Some(3)).expect("numbered");
    assert_eq!(cx.home_dir, "/a/atc/unknown/3");
}
