use cph_tools::platform::{AtcoderContestType, CompetitvePlatform, HandlerKind};
use cph_tools::problem::{AtcoderHandler, CodeforcesHandler};

#[test]
fn test_parse_from_url() {
    assert_eq!(
        (AtcoderContestType::ABC, 369, "a".to_owned()),
        AtcoderHandler::parse_contest_and_problem_id_from_url(
            "https://atcoder.jp/contests/abc369/tasks/abc369_a"
        )
    );
    assert_eq!(
        (AtcoderContestType::AGC, 123, "b".to_owned()),
        AtcoderHandler::parse_contest_and_problem_id_from_url(
            "https://atcoder.jp/contests/agc123/tasks/agc123_b"
        )
    );
}

#[test]
fn mod_test_parse_from_url() {
    let url = "https://codeforces.com/contest/1";
    let platform = CompetitvePlatform::parse_from_url(url);
    assert_eq!(platform, CompetitvePlatform::Codeforces);

    let url = "https://atcoder.jp/contest/2";
    let platform = CompetitvePlatform::parse_from_url(url);
    assert_eq!(platform, CompetitvePlatform::Atcoder);

    let url = "https://leetcode.com/contest/3";
    let platform = CompetitvePlatform::parse_from_url(url);
    assert_eq!(
        platform,
        CompetitvePlatform::Unknown("leetcode_com".to_owned())
    );

    let url = "https://unknown.com";
    let platform = CompetitvePlatform::parse_from_url(url);
    assert_eq!(
        platform,
        CompetitvePlatform::Unknown("unknown_com".to_owned())
    );

    let url = "not_a_url";
    let platform = CompetitvePlatform::parse_from_url(url);
    assert_eq!(platform, CompetitvePlatform::Unknown("not_a_url".to_owned()));
}

#[test]
fn test_get_codeforces_contest_and_problem_id() {
    let urls = [
        (
            "https://codeforces.com/problemset/problem/2010/C2",
            2010,
            "C2",
        ),
        ("https://codeforces.com/contest/2010/problem/C2", 2010, "C2"),
    ];

    for (url, contest_id, problem_id) in urls {
        assert_eq!(
            (contest_id, problem_id.to_owned()),
            CodeforcesHandler::parse_contest_and_problem_id_from_url(url)
        );
    }
}

#[test]
fn codeforces_url_without_match_gives_zero() {
    assert_eq!(
        (0, "0".to_owned()),
        CodeforcesHandler::parse_contest_and_problem_id_from_url("https://codeforces.com/blog/entry/1")
    );
}

#[test]
fn codeforces_contest_number_too_large_reads_as_zero() {
    assert_eq!(
        (0, "A".to_owned()),
        CodeforcesHandler::parse_contest_and_problem_id_from_url(
            "https://codeforces.com/contest/99999999999/problem/A"
        )
    );
}

#[test]
fn atcoder_url_of_other_contest_kind_is_unknown() {
    assert_eq!(
        (AtcoderContestType::Unkonwn, 0, "0".to_owned()),
        AtcoderHandler::parse_contest_and_problem_id_from_url(
            "https://atcoder.jp/contests/ahc001/tasks/ahc001_a"
        )
    );
}

#[test]
fn atcoder_problem_id_is_after_the_last_underscore() {
    assert_eq!(
        (AtcoderContestType::ARC, 180, "b".to_owned()),
        AtcoderHandler::parse_contest_and_problem_id_from_url(
            "https://atcoder.jp/contests/arc180/tasks/arc180_b"
        )
    );
}

#[test]
fn atcoder_contest_kind_names() {
    assert_eq!(AtcoderContestType::ABC.name(), "abc");
    assert_eq!(AtcoderContestType::ARC.name(), "arc");
    assert_eq!(AtcoderContestType::AGC.name(), "arc");
    assert_eq!(AtcoderContestType::Unkonwn.name(), "unknown");
    assert_eq!(AtcoderContestType::from_tag("agc"), AtcoderContestType::AGC);
    assert_eq!(AtcoderContestType::from_tag("ahc"), AtcoderContestType::Unkonwn);
}

#[test]
fn host_is_read_after_scheme_user_and_www() {
    assert_eq!(
        CompetitvePlatform::parse_from_url("http://me@www.example.org:8080/x"),
        CompetitvePlatform::Unknown("example_org".to_owned())
    );
    assert_eq!(
        CompetitvePlatform::parse_from_url("ftp://x.y/z"),
        CompetitvePlatform::Unknown("ftp".to_owned())
    );
    assert_eq!(
        CompetitvePlatform::parse_from_url("/only/path"),
        CompetitvePlatform::Unknown("unknown_platform".to_owned())
    );
}

#[test]
fn codeforces_wins_over_atcoder() {
    assert_eq!(
        CompetitvePlatform::parse_from_url("https://atcoder.jp/?ref=codeforces.com"),
        CompetitvePlatform::Codeforces
    );
}

#[test]
fn dispatch_by_platform() {
    assert_eq!(CompetitvePlatform::Codeforces.dispatch(), HandlerKind::Codeforces);
    assert_eq!(CompetitvePlatform::Atcoder.dispatch(), HandlerKind::Atcoder);
    assert_eq!(
        CompetitvePlatform::Unknown("x".to_owned()).dispatch(),
        HandlerKind::Default
    );
}
