use cph_tools::model::TestCase;
use cph_tools::problem::{
    cmake_gen, info_file_path, parent_cmake_addition, test_case_files, CmakeGenError,
    CodeforcesHandler, Context, DEFAULT_MAIN_HEADER_TEMPLATE,
};
use cph_tools::template::{loop_ok_exec, replace_loop_inclusive, LoopReplace};

fn expand_loop_naive(s: &str, n: u32) -> String {
    if let Some(start_pos) = s.find("{start_loop}") {
        if let Some(end_pos) = s[start_pos..].find("{end_loop}") {
            let end_pos = start_pos + end_pos;
            let body = &s[start_pos + "{start_loop}".len()..end_pos];
            let mut res = s[..start_pos].to_owned();
            for i in 0..n {
                res.push_str(body.replace("{i}", i.to_string().as_str()).as_str());
            }
            res.push_str(&s[end_pos + "{end_loop}".len() + 1..]);
            return res;
        }
    }
    s.to_owned()
}

#[test]
fn loop_body_is_repeated_with_its_index() {
    let s = "head\n{start_loop}case({i});\n{end_loop}\ntail";
    assert_eq!(s.replace_loop(3), "head\ncase(0);\ncase(1);\ncase(2);\ntail");
    assert_eq!(s.replace_loop(0), "head\ntail");
    assert_eq!(s.replace_loop(2), expand_loop_naive(s, 2));
}

#[test]
fn text_without_markers_is_kept() {
    for s in ["plain", "{start_loop} only", "{end_loop}{start_loop}x"] {
        assert!(loop_ok_exec(s));
        assert_eq!(s.replace_loop(4), s);
        assert_eq!(s.replace_loop(4), expand_loop_naive(s, 4));
    }
}

#[test]
fn loop_markers_at_the_end_cannot_be_cut() {
    assert!(!loop_ok_exec("{start_loop}x{end_loop}"));
    assert!(loop_ok_exec("{start_loop}x{end_loop}\n"));
    assert_eq!("{start_loop}{i}{i}{end_loop}!".replace_loop(11), "001122334455667788991010");
}

#[test]
fn tree_loop_keeps_the_braces() {
    let s = "a // {start_loop}\nT({i})\n// {end_loop}\nz";
    assert_eq!(replace_loop_inclusive(s, 2), "a // {\nT(0)\n// {\nT(1)\n// {z");
}

#[test]
fn codeforces_project_files() {
    let cx = Context { home_dir: "/h/1/A".to_owned(), contest_id: 1u32, problem_id: "A".to_owned() };
    let p = CodeforcesHandler::cmake_gen(&cx, 2).expect("templates are well formed");
    assert_eq!(
        p.cmake_list,
        "add_executable(cf_1_A test.cc)\ntarget_link_libraries(cf_1_A GTest::gtest_main)\ninclude(GoogleTest)\ninclude_directories(${PROJECT_DIR})\ngtest_discover_tests(cf_1_A)\n"
    );
    assert!(p.test_cc.ends_with(
        "PROJECT_DIR + \"/archive/codeforces/1/A/cases/\";\n\nTEST_SAMPLE_CASE(0)\nTEST_SAMPLE_CASE(1)\n"
    ));
    assert_eq!(p.main_header, DEFAULT_MAIN_HEADER_TEMPLATE);
    assert_eq!(CodeforcesHandler::detecte(&cx), "cf_1");
}

#[test]
fn contest_tree_project_files() {
    let cx = Context { home_dir: "/t/5/B".to_owned(), contest_id: 5u32, problem_id: "B".to_owned() };
    let (p, line) = cmake_gen(&cx, 1).expect("templates are well formed");
    assert_eq!(line, "add_subdirectory(5/B)");
    assert!(p.test_cc.contains("const std::string CUR_DIR = \"/t/5/B/cases/\";"));
    assert!(p.test_cc.ends_with("// {\nTEST_SAMPLE_CASE(0)\n// {"));
    assert!(p.cmake_list.contains("cf_5_B"));
}

#[test]
fn too_many_tests_is_an_error() {
    let cx = Context { home_dir: "/h".to_owned(), contest_id: 1u32, problem_id: "A".to_owned() };
    if usize::MAX > u32::MAX as usize {
        let n = u32::MAX as usize + 1;
        assert!(matches!(CodeforcesHandler::cmake_gen(&cx, n), Err(CmakeGenError::TooManyTests)));
        assert!(matches!(cmake_gen(&cx, n), Err(CmakeGenError::TooManyTests)));
    }
}

#[test]
fn parent_cmake_list_gets_the_line_once() {
    assert_eq!(parent_cmake_addition("x\nadd_subdirectory(1/A)\n", "add_subdirectory(1/A)"), None);
    assert_eq!(
        parent_cmake_addition("x", "add_subdirectory(1/A)"),
        Some("\nadd_subdirectory(1/A)\n".to_owned())
    );
    assert_eq!(
        parent_cmake_addition("x\n", "add_subdirectory(1/A)"),
        Some("add_subdirectory(1/A)\n".to_owned())
    );
    assert_eq!(
        parent_cmake_addition("", "add_subdirectory(1/A)"),
        Some("add_subdirectory(1/A)\n".to_owned())
    );
}

#[test]
fn sample_files_of_a_problem() {
    let tests = vec![
        TestCase { input: "1\n".to_owned(), output: "2\n".to_owned() },
        TestCase { input: "3\n".to_owned(), output: "4\n".to_owned() },
    ];
    assert_eq!(
        test_case_files("/h/p", &tests),
        vec![
            ("/h/p/cases/0.in".to_owned(), "1\n".to_owned()),
            ("/h/p/cases/0.out".to_owned(), "2\n".to_owned()),
            ("/h/p/cases/1.in".to_owned(), "3\n".to_owned()),
            ("/h/p/cases/1.out".to_owned(), "4\n".to_owned()),
        ]
    );
    assert_eq!(test_case_files("/h/p", &vec![]), vec![]);
    assert_eq!(info_file_path("/h/p"), "/h/p/info.toml");
}
