use cph_tools::checker::{CompareResult, CompareResultUnexpected};
use cph_tools::schedule::{AfterDone, CompareRuns, Stage};
use cph_tools::source::{
    combine_builds, compares, test_case_brute_force_output_file_name, test_case_input_file_name,
    test_case_solver_output_file_name, CheckerSource, Cmd, PrebuiltSource, Source,
};
use cph_tools::thread_manager::ThreadManager;

#[test]
fn stage_weights_sum() {
    assert_eq!(Stage::total_weight(), 52);
    assert_eq!(Stage::Build.weight(), 10);
    assert_eq!(Stage::GenInput.weight(), 2);
    assert_eq!(Stage::RunBruteforce.weight(), 15);
    assert_eq!(Stage::RunSolver.weight(), 20);
    assert_eq!(Stage::RunChecker.weight(), 5);
}

#[test]
fn runs_are_handed_out_in_order_once() {
    let mut runs = CompareRuns::new(3);
    assert_eq!(runs.next(7), Some(0));
    assert_eq!(runs.next(8), Some(1));
    assert_eq!(runs.next(9), Some(2));
    assert_eq!(runs.next(7), None);
    assert_eq!(runs.done_count(), 0);
    assert_eq!(runs.all_cases(), 3);
}

#[test]
fn done_dispatches_then_waits_then_finishes() {
    let mut runs = CompareRuns::new(3);
    assert_eq!(runs.next(0), Some(0));
    assert_eq!(runs.next(1), Some(1));
    runs.update_stage(0, Stage::RunSolver);
    assert_eq!(runs.in_progress().get(&0).map(|r| r.stage), Some(Stage::RunSolver));
    assert_eq!(runs.done(0), AfterDone::Dispatch(2));
    assert_eq!(runs.in_progress().get(&0).map(|r| (r.id, r.stage)), Some((2, Stage::Build)));
    assert_eq!(runs.done_count(), 1);
    assert_eq!(runs.done(1), AfterDone::Wait);
    assert_eq!(runs.done_count(), 2);
    assert_eq!(runs.done(0), AfterDone::Finish);
    assert_eq!(runs.done_count(), 3);
}

#[test]
fn finish_returns_the_run() {
    let mut runs = CompareRuns::new(1);
    runs.next(4);
    runs.update_stage(4, Stage::GenInput);
    let r = runs.finish(4);
    assert_eq!((r.id, r.stage), (0, Stage::GenInput));
    assert!(runs.in_progress().is_empty());
}

#[test]
fn comparison_runs_come_from_the_command() {
    let cmd = Cmd {
        brute_force: Source::CMakeTarget("bf".to_owned()),
        solver: Source::CPP20SingleFile("/a/s.cc".to_owned()),
        gen: Source::CMakeTarget("gen".to_owned()),
        checker: CheckerSource::Prebuilt(PrebuiltSource::CheckerIgnoreBlankWord),
        times: 2,
        work_path: "/tmp".to_owned(),
    };
    let mut runs = compares(&cmd);
    assert_eq!(runs.all_cases(), 2);
    assert_eq!(runs.next(0), Some(0));
    assert_eq!(runs.next(1), Some(1));
    assert_eq!(runs.next(2), None);
}

#[test]
fn sources_are_named_as_displayed() {
    assert_eq!(Source::CMakeTarget("t1".to_owned()).describe(), "cmake_target:t1");
    assert_eq!(
        Source::CPP20SingleFile("/x/a.cc".to_owned()).describe(),
        "single_file:/x/a.cc"
    );
    assert_eq!(
        CheckerSource::Prebuilt(PrebuiltSource::CheckerTotalSame).describe(),
        "prebuilt:ck_rs_total_same"
    );
    assert_eq!(
        CheckerSource::Prebuilt(PrebuiltSource::CheckerIgnoreBlankWord).describe(),
        "prebuilt:ck_rs_ignore_blank_word"
    );
    assert_eq!(
        CheckerSource::Source(Source::CMakeTarget("ck".to_owned())).describe(),
        "cmake_target:ck"
    );
}

#[test]
fn sources_from_flags() {
    match Source::get_from_flag(Some("t".to_owned()), None) {
        Source::CMakeTarget(t) => assert_eq!(t, "t"),
        other => panic!("{:?}", other),
    }
    match Source::get_from_flag(None, Some("f.cc".to_owned())) {
        Source::CPP20SingleFile(f) => assert_eq!(f, "f.cc"),
        other => panic!("{:?}", other),
    }
    match CheckerSource::get_from_flag(None, None, Some(PrebuiltSource::CheckerTotalSame)) {
        CheckerSource::Prebuilt(p) => assert_eq!(p, PrebuiltSource::CheckerTotalSame),
        other => panic!("{:?}", other),
    }
}

#[test]
fn build_paths_under_the_project_root() {
    assert_eq!(
        Source::CMakeTarget("sol".to_owned()).build_path("/proj"),
        Some("/proj/build/sol".to_owned())
    );
    assert_eq!(
        Source::CMakeTarget("sol".to_owned()).build_path("/proj/"),
        Some("/proj/build/sol".to_owned())
    );
    assert_eq!(Source::CPP20SingleFile("a.cc".to_owned()).build_path("/proj"), None);
    assert_eq!(
        CheckerSource::Prebuilt(PrebuiltSource::CheckerTotalSame).build_path("/proj"),
        Some("/proj/target/release/ck_rs_total_same".to_owned())
    );
    let root = std::path::PathBuf::from("/p");
    assert_eq!(
        Source::CMakeTarget("x".to_owned()).build_path("/p"),
        Some(root.join("build").join("x").display().to_string())
    );
}

#[test]
fn failed_builds_are_reported_in_order() {
    let ok = |s: &str| Ok::<String, String>(s.to_owned());
    let err = |s: &str| Err::<String, String>(s.to_owned());
    match combine_builds(err("b"), err("c"), err("s"), err("g")) {
        Err(CompareResult::CompareResultUnexpected(k, h)) => {
            assert_eq!(k, CompareResultUnexpected::BruteForceBuildFailed);
            assert_eq!(h, "b");
        }
        other => panic!("{:?}", other),
    }
    match combine_builds(ok("b"), err("c"), err("s"), err("g")) {
        Err(CompareResult::CompareResultUnexpected(k, h)) => {
            assert_eq!(k, CompareResultUnexpected::CheckerBuildFailed);
            assert_eq!(h, "c");
        }
        other => panic!("{:?}", other),
    }
    match combine_builds(ok("b"), ok("c"), err("s"), err("g")) {
        Err(CompareResult::CE(h)) => assert_eq!(h, "s"),
        other => panic!("{:?}", other),
    }
    match combine_builds(ok("b"), ok("c"), ok("s"), err("g")) {
        Err(CompareResult::CompareResultUnexpected(k, h)) => {
            assert_eq!(k, CompareResultUnexpected::GenBuildFailed);
            assert_eq!(h, "g");
        }
        other => panic!("{:?}", other),
    }
    match combine_builds(ok("b"), ok("c"), ok("s"), ok("g")) {
        Ok(paths) => assert_eq!(
            paths,
            ("b".to_owned(), "c".to_owned(), "s".to_owned(), "g".to_owned())
        ),
        other => panic!("{:?}", other),
    }
}

#[test]
fn test_case_files_are_numbered() {
    assert_eq!(test_case_input_file_name(0), "0.in");
    assert_eq!(test_case_solver_output_file_name(17), "17.ans");
    assert_eq!(test_case_brute_force_output_file_name(4294967295), "4294967295.correct");
}

#[test]
fn cores_are_handed_out_and_back() {
    let mut m = ThreadManager::new(2);
    assert_eq!(m.acquire(1), Some(1));
    assert_eq!(m.acquire(2), Some(0));
    assert_eq!(m.acquire(3), None);
    assert_eq!(m.acquire(4), None);
    // The core goes to the waiter that came last.
    assert_eq!(m.notify_waiter(1), Some(4));
    assert_eq!(m.notify_waiter(0), Some(3));
    assert_eq!(m.notify_waiter(1), None);
    assert_eq!(m.acquire(5), Some(1));
}

#[test]
fn no_cores_means_every_request_waits() {
    let mut m = ThreadManager::new(0);
    assert_eq!(m.acquire(1), None);
    assert_eq!(m.notify_waiter(3), Some(1));
    assert_eq!(m.acquire(2), None);
    assert_eq!(m.notify_waiter(3), Some(2));
    assert_eq!(m.notify_waiter(3), None);
    assert_eq!(m.acquire(6), Some(3));
}
