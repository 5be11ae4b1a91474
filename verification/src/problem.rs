//! Where a problem's files go, and what the generated project files say.

use vstd::prelude::*;

use crate::model::{ProblemMetaWithTestCase, TestCase};
use crate::walk::pair_views;
use crate::platform::{
    at_parse, cf_parse, contest_type_name, parse_atcoder_url, parse_codeforces_url,
    AtcoderContestType,
};
use crate::template::{
    loop_ok, loop_ok_exec, replace_loop_inclusive, replace_loop_inclusive_spec, replace_loop_spec,
    LoopReplace,
};
use crate::text::{
    append_chars, append_str, chars_of, decimal, decimal_exec, decimal_usize, find_from, find_from_exec,
    matches_at, path_join, path_join_exec, replace_all, replace_all_exec, string_of,
};

verus! {

/// Where a problem lives: its directory, contest and problem id.
pub struct Context<ContestID, ProblemID> {
    pub home_dir: String,
    pub contest_id: ContestID,
    pub problem_id: ProblemID,
}

/// Takes Codeforces problems.
pub struct CodeforcesHandler {}

/// Takes AtCoder problems.
pub struct AtcoderHandler {}

/// Takes the problems of any other site; it has nothing to do with them yet.
pub struct DefaultHandler {}

/// The contest, problem and directory of a Codeforces problem under
/// `root`; a problem whose contest cannot be read (contest 0) is numbered
/// with `unknown`, and without it there is no context.
pub open spec fn cf_context(url: Seq<char>, root: Seq<char>, unknown: Option<u32>) -> Option<
    (u32, Seq<char>, Seq<char>),
> {
    let (cid, pid) = cf_parse(url);
    if cid == 0 {
        match unknown {
            None => None,
            Some(u) => Some(
                (0, decimal(u as nat), path_join(path_join(root, decimal(0)), decimal(u as nat))),
            ),
        }
    } else {
        Some((cid, pid, path_join(path_join(root, decimal(cid as nat)), pid)))
    }
}

/// The contest, problem and directory of an AtCoder problem under `root`: the
/// directory is `root/<kind>/<number>/<problem>`, or `root/unknown/<id>` for an
/// address that names no contest, numbered with `unknown` (without it there
/// is no context).
pub open spec fn at_context(url: Seq<char>, root: Seq<char>, unknown: Option<u32>) -> Option<
    (AtcoderContestType, u32, Seq<char>, Seq<char>),
> {
    let (t, cid, pid) = at_parse(url);
    let kind_dir = path_join(root, contest_type_name(t));
    if t == AtcoderContestType::Unkonwn {
        match unknown {
            None => None,
            Some(u) => Some((t, cid, decimal(u as nat), path_join(kind_dir, decimal(u as nat)))),
        }
    } else {
        Some((t, cid, pid, path_join(path_join(kind_dir, decimal(cid as nat)), pid)))
    }
}

impl CodeforcesHandler {
    /// The contest number and problem of a Codeforces address.
    pub fn parse_contest_and_problem_id_from_url(url: &str) -> (r: (u32, String))
        ensures
            r.0 == cf_parse(url@).0,
            r.1@ == cf_parse(url@).1,
    {
        parse_codeforces_url(url)
    }

    /// Where a Codeforces problem goes under `codeforces_project_path`.
    /// `unknown_problem_id` numbers a problem whose contest cannot be read;
    /// `None` is returned exactly when such a number is needed and not given.
    pub fn get_context(
        data: &ProblemMetaWithTestCase,
        codeforces_project_path: &str,
        unknown_problem_id: Option<u32>,
    ) -> (r: Option<Context<u32, String>>)
        ensures
            r is None <==> cf_context(data.url@, codeforces_project_path@, unknown_problem_id) is None,
            r matches Some(cx) ==> cf_context(data.url@, codeforces_project_path@, unknown_problem_id)
                == Some((cx.contest_id, cx.problem_id@, cx.home_dir@)),
    {
        let (cid, pid) = parse_codeforces_url(data.url.as_str());
        let problem: Vec<char>;
        if cid == 0 {
            match unknown_problem_id {
                None => {
                    return None;
                },
                Some(u) => {
                    problem = decimal_exec(u as u64);
                },
            }
        } else {
            problem = chars_of(pid.as_str());
        }
        let root = chars_of(codeforces_project_path);
        let cdir = decimal_exec(cid as u64);
        let contest_dir = path_join_exec(&root, &cdir);
        let home = path_join_exec(&contest_dir, &problem);
        Some(Context { home_dir: string_of(&home), contest_id: cid, problem_id: string_of(&problem) })
    }

    /// The name of the running contest for a problem: `cf_<contest>`.
    pub fn detecte(cx: &Context<u32, String>) -> (r: String)
        ensures
            r@ == "cf_"@ + decimal(cx.contest_id as nat),
    {
        let mut v: Vec<char> = Vec::new();
        append_str(&mut v, "cf_");
        let d = decimal_exec(cx.contest_id as u64);
        append_chars(&mut v, &d);
        string_of(&v)
    }
}

impl AtcoderHandler {
    /// The contest kind, number and problem of an AtCoder address.
    pub fn parse_contest_and_problem_id_from_url(url: &str) -> (r: (AtcoderContestType, u32, String))
        ensures
            r.0 == at_parse(url@).0,
            r.1 == at_parse(url@).1,
            r.2@ == at_parse(url@).2,
    {
        parse_atcoder_url(url)
    }

    /// Where an AtCoder problem goes under `atcoder_project_path`.
    /// `unknown_problem_id` numbers a problem whose contest cannot be read;
    /// `None` is returned exactly when such a number is needed and not given.
    pub fn get_context(
        data: &ProblemMetaWithTestCase,
        atcoder_project_path: &str,
        unknown_problem_id: Option<u32>,
    ) -> (r: Option<Context<(AtcoderContestType, u32), String>>)
        ensures
            r is None <==> at_context(data.url@, atcoder_project_path@, unknown_problem_id) is None,
            r matches Some(cx) ==> at_context(data.url@, atcoder_project_path@, unknown_problem_id)
                == Some((cx.contest_id.0, cx.contest_id.1, cx.problem_id@, cx.home_dir@)),
    {
        let (t, cid, pid) = parse_atcoder_url(data.url.as_str());
        let root = chars_of(atcoder_project_path);
        let kind = chars_of(t.name());
        let kind_dir = path_join_exec(&root, &kind);
        if t == AtcoderContestType::Unkonwn {
            match unknown_problem_id {
                None => None,
                Some(u) => {
                    let problem = decimal_exec(u as u64);
                    let home = path_join_exec(&kind_dir, &problem);
                    Some(
                        Context {
                            home_dir: string_of(&home),
                            contest_id: (t, cid),
                            problem_id: string_of(&problem),
                        },
                    )
                },
            }
        } else {
            let problem = chars_of(pid.as_str());
            let cdir = decimal_exec(cid as u64);
            let contest_dir = path_join_exec(&kind_dir, &cdir);
            let home = path_join_exec(&contest_dir, &problem);
            Some(
                Context {
                    home_dir: string_of(&home),
                    contest_id: (t, cid),
                    problem_id: string_of(&problem),
                },
            )
        }
    }
}


/// The CMake list of a problem's project.
pub const DEFAULT_CODEFORCES_CMAKE_LIST_TEMPLATE: &'static str =
    "add_executable(cf_{contest_id}_{problem_id} test.cc)
target_link_libraries(cf_{contest_id}_{problem_id} GTest::gtest_main)
include(GoogleTest)
include_directories(${PROJECT_DIR})
gtest_discover_tests(cf_{contest_id}_{problem_id})
";

/// The test driver of a problem's project: one test per sample.
pub const DEFAULT_TEST_CC_TEMPLATE: &'static str = "#include \"inner/tools/test_suite.hpp\"
#include \"main.h\"
#include <cstring>
#include <gtest/gtest.h>

const std::string CUR_DIR = PROJECT_DIR + \"/archive/codeforces/{contest_id}/{problem_id}/cases/\";

{start_loop}TEST_SAMPLE_CASE({i})
{end_loop}
";

/// The test driver that the contest-tree generator writes.
pub const TREE_TEST_CC_TEMPLATE: &'static str = "#include \"inner/tools/test_suite.hpp\"
#include \"main.h\"
#include <cstring>
#include <gtest/gtest.h>

const std::string CUR_DIR = \"{cur_dir}/cases/\";

// {start_loop}
TEST_SAMPLE_CASE({i})
// {end_loop}
";

/// The solution header a problem's project starts with.
pub const DEFAULT_MAIN_HEADER_TEMPLATE: &'static str = "#include \"inner/prelude\"
using namespace inner;

MAIN() {
  return 0;
}
";

/// The three files of a problem's project.
pub struct CmakeProject {
    pub cmake_list: String,
    pub test_cc: String,
    pub main_header: String,
}

/// Why a project's files cannot be written.
#[derive(Debug, Clone, Copy, PartialEq, Eq, Structural)]
pub enum CmakeGenError {
    /// More samples than a `u32` counts.
    TooManyTests,
    /// The filled-in test driver ends right after its loop end marker, or with
    /// a non-ASCII character there, where the loop expansion cannot cut.
    LoopMarkers,
}

/// The CMake list for a contest and problem.
pub open spec fn cmake_list_spec(cid: u32, pid: Seq<char>) -> Seq<char> {
    replace_all(
        replace_all(DEFAULT_CODEFORCES_CMAKE_LIST_TEMPLATE@, "{contest_id}"@, decimal(cid as nat)),
        "{problem_id}"@,
        pid,
    )
}

/// The test driver before its loop is expanded.
pub open spec fn test_cc_unrolled_spec(home: Seq<char>, cid: u32, pid: Seq<char>) -> Seq<char> {
    replace_all(
        replace_all(
            replace_all(DEFAULT_TEST_CC_TEMPLATE@, "{cur_dir}"@, home),
            "{contest_id}"@,
            decimal(cid as nat),
        ),
        "{problem_id}"@,
        pid,
    )
}

/// The contest tree's test driver before its loop is expanded.
pub open spec fn tree_test_cc_unrolled_spec(home: Seq<char>) -> Seq<char> {
    replace_all(TREE_TEST_CC_TEMPLATE@, "{cur_dir}"@, home)
}

/// The line that adds a problem's project to the contest tree.
pub open spec fn subdirectory_line(cid: u32, pid: Seq<char>) -> Seq<char> {
    "add_subdirectory("@ + decimal(cid as nat) + "/"@ + pid + ")"@
}

/// What is appended to the contest tree's CMake list so that it holds `line`:
/// nothing when it already does, else the line on a line of its own.
pub open spec fn parent_cmake_addition_spec(existing: Seq<char>, line: Seq<char>) -> Option<
    Seq<char>,
> {
    if find_from(existing, line, 0) is Some {
        None
    } else if existing.len() > 0 && existing.last() != '\n' {
        Some(seq!['\n'] + line + seq!['\n'])
    } else {
        Some(line + seq!['\n'])
    }
}

fn replace_literal(s: &[char], from: &str, to: &[char]) -> (r: Vec<char>)
    requires
        from@.len() > 0,
    ensures
        r@ == replace_all(s@, from@, to@),
{
    let f = chars_of(from);
    replace_all_exec(s, &f, to)
}

fn cmake_list_exec(cid: u32, pid: &[char]) -> (r: String)
    ensures
        r@ == cmake_list_spec(cid, pid@),
{
    proof {
        reveal_strlit("{contest_id}");
        reveal_strlit("{problem_id}");
    }
    let t = chars_of(DEFAULT_CODEFORCES_CMAKE_LIST_TEMPLATE);
    let d = decimal_exec(cid as u64);
    let a = replace_literal(&t, "{contest_id}", &d);
    let b = replace_literal(&a, "{problem_id}", pid);
    string_of(&b)
}

fn tests_count(n_tests: usize) -> (r: Option<u32>)
    ensures
        r is None <==> n_tests > u32::MAX,
        r matches Some(k) ==> k == n_tests,
{
    if n_tests > 4294967295usize {
        None
    } else {
        Some(n_tests as u32)
    }
}

impl CodeforcesHandler {
    /// The files of a problem's project, for a problem with `n_tests`
    /// samples: the CMake list, the test driver (one test per sample) and the
    /// solution header.
    pub fn cmake_gen(cx: &Context<u32, String>, n_tests: usize) -> (r: Result<CmakeProject, CmakeGenError>)
        ensures
            n_tests > u32::MAX ==> r == Err::<CmakeProject, CmakeGenError>(CmakeGenError::TooManyTests),
            n_tests <= u32::MAX && !loop_ok(test_cc_unrolled_spec(cx.home_dir@, cx.contest_id, cx.problem_id@))
                ==> r == Err::<CmakeProject, CmakeGenError>(CmakeGenError::LoopMarkers),
            n_tests <= u32::MAX && loop_ok(test_cc_unrolled_spec(cx.home_dir@, cx.contest_id, cx.problem_id@))
                ==> (r matches Ok(p) && p.cmake_list@ == cmake_list_spec(cx.contest_id, cx.problem_id@)
                && p.test_cc@ == replace_loop_spec(
                test_cc_unrolled_spec(cx.home_dir@, cx.contest_id, cx.problem_id@),
                n_tests as u32,
            ) && p.main_header@ == DEFAULT_MAIN_HEADER_TEMPLATE@),
    {
        proof {
            reveal_strlit("{cur_dir}");
            reveal_strlit("{contest_id}");
            reveal_strlit("{problem_id}");
        }
        let pid = chars_of(cx.problem_id.as_str());
        let home = chars_of(cx.home_dir.as_str());
        let cmake_list = cmake_list_exec(cx.contest_id, &pid);
        let n = match tests_count(n_tests) {
            Some(n) => n,
            None => {
                return Err(CmakeGenError::TooManyTests);
            },
        };
        let t = chars_of(DEFAULT_TEST_CC_TEMPLATE);
        let d = decimal_exec(cx.contest_id as u64);
        let a = replace_literal(&t, "{cur_dir}", &home);
        let b = replace_literal(&a, "{contest_id}", &d);
        let c = replace_literal(&b, "{problem_id}", &pid);
        let unrolled = string_of(&c);
        if !loop_ok_exec(unrolled.as_str()) {
            return Err(CmakeGenError::LoopMarkers);
        }
        let test_cc = unrolled.as_str().replace_loop(n);
        let main_header = string_of(&chars_of(DEFAULT_MAIN_HEADER_TEMPLATE));
        Ok(CmakeProject { cmake_list, test_cc, main_header })
    }
}

/// The files of a problem's project in the contest tree, for a problem with
/// `n_tests` samples, and the line that adds it to the tree's CMake list.
pub fn cmake_gen(cx: &Context<u32, String>, n_tests: usize) -> (r: Result<(CmakeProject, String), CmakeGenError>)
    ensures
        n_tests > u32::MAX ==> r is Err && r->Err_0 == CmakeGenError::TooManyTests,
        n_tests <= u32::MAX && !loop_ok(tree_test_cc_unrolled_spec(cx.home_dir@)) ==> r is Err
            && r->Err_0 == CmakeGenError::LoopMarkers,
        n_tests <= u32::MAX && loop_ok(tree_test_cc_unrolled_spec(cx.home_dir@)) ==> (r matches Ok(
            (p, line),
        ) && p.cmake_list@ == cmake_list_spec(cx.contest_id, cx.problem_id@) && p.test_cc@
            == replace_loop_inclusive_spec(tree_test_cc_unrolled_spec(cx.home_dir@), n_tests as u32)
            && p.main_header@ == DEFAULT_MAIN_HEADER_TEMPLATE@ && line@ == subdirectory_line(
            cx.contest_id,
            cx.problem_id@,
        )),
{
    proof {
        reveal_strlit("{cur_dir}");
    }
    let pid = chars_of(cx.problem_id.as_str());
    let home = chars_of(cx.home_dir.as_str());
    let cmake_list = cmake_list_exec(cx.contest_id, &pid);
    let n = match tests_count(n_tests) {
        Some(n) => n,
        None => {
            return Err(CmakeGenError::TooManyTests);
        },
    };
    let t = chars_of(TREE_TEST_CC_TEMPLATE);
    let a = replace_literal(&t, "{cur_dir}", &home);
    let unrolled = string_of(&a);
    if !loop_ok_exec(unrolled.as_str()) {
        return Err(CmakeGenError::LoopMarkers);
    }
    let test_cc = replace_loop_inclusive(unrolled.as_str(), n);
    let main_header = string_of(&chars_of(DEFAULT_MAIN_HEADER_TEMPLATE));
    let mut line: Vec<char> = Vec::new();
    append_str(&mut line, "add_subdirectory(");
    let d = decimal_exec(cx.contest_id as u64);
    append_chars(&mut line, &d);
    append_str(&mut line, "/");
    append_chars(&mut line, &pid);
    append_str(&mut line, ")");
    Ok((CmakeProject { cmake_list, test_cc, main_header }, string_of(&line)))
}

/// What to append to the contest tree's CMake list so that it holds `line`
/// (`None` when it already does).
pub fn parent_cmake_addition(existing: &str, line: &str) -> (r: Option<String>)
    ensures
        r is None <==> parent_cmake_addition_spec(existing@, line@) is None,
        r matches Some(a) ==> parent_cmake_addition_spec(existing@, line@) == Some(a@),
{
    let e = chars_of(existing);
    let l = chars_of(line);
    if find_from_exec(&e, &l, 0).is_some() {
        return None;
    }
    let mut out: Vec<char> = Vec::new();
    if e.len() > 0 && e[e.len() - 1] != '\n' {
        out.push('\n');
    }
    append_chars(&mut out, &l);
    out.push('\n');
    Some(string_of(&out))
}

/// The input and expected output of each sample test.
pub open spec fn tests_view(tests: Seq<TestCase>) -> Seq<(Seq<char>, Seq<char>)> {
    tests.map_values(|t: TestCase| (t.input@, t.output@))
}

/// `home/cases/{i}{suffix}`: where a file of sample test `i` goes.
pub open spec fn case_path(home: Seq<char>, i: nat, suffix: Seq<char>) -> Seq<char> {
    path_join(path_join(home, "cases"@), decimal(i) + suffix)
}

/// The sample test files of a problem in order: for each test, its input in
/// `cases/{i}.in`, then its expected output in `cases/{i}.out`.
pub open spec fn case_files(home: Seq<char>, tests: Seq<(Seq<char>, Seq<char>)>) -> Seq<
    (Seq<char>, Seq<char>),
>
    decreases tests.len(),
{
    if tests.len() == 0 {
        Seq::empty()
    } else {
        let i = (tests.len() - 1) as nat;
        case_files(home, tests.drop_last()) + seq![
            (case_path(home, i, ".in"@), tests.last().0),
            (case_path(home, i, ".out"@), tests.last().1),
        ]
    }
}

/// The sample test files of a problem, each with its text, in the order they
/// are written.
pub fn test_case_files(home_dir: &str, tests: &Vec<TestCase>) -> (r: Vec<(String, String)>)
    ensures
        pair_views(r@) == case_files(home_dir@, tests_view(tests@)),
{
    let home = chars_of(home_dir);
    let cases = path_join_exec(&home, &chars_of("cases"));
    let ghost tv = tests_view(tests@);
    let mut r: Vec<(String, String)> = Vec::new();
    let mut i: usize = 0;
    while i < tests.len()
        invariant
            i <= tests.len(),
            tv == tests_view(tests@),
            home@ == home_dir@,
            cases@ == path_join(home_dir@, "cases"@),
            pair_views(r@) == case_files(home_dir@, tv.take(i as int)),
        decreases tests.len() - i,
    {
        let mut name_in = decimal_usize(i);
        append_str(&mut name_in, ".in");
        let mut name_out = decimal_usize(i);
        append_str(&mut name_out, ".out");
        let p_in = string_of(&path_join_exec(&cases, &name_in));
        let p_out = string_of(&path_join_exec(&cases, &name_out));
        let ghost prev = r@;
        r.push((p_in, tests[i].input.clone()));
        r.push((p_out, tests[i].output.clone()));
        proof {
            assert(tv.take(i + 1).drop_last() =~= tv.take(i as int));
            assert(tv[i as int] == (tests@[i as int].input@, tests@[i as int].output@));
            assert(pair_views(r@) =~= pair_views(prev) + seq![
                (case_path(home_dir@, i as nat, ".in"@), tv[i as int].0),
                (case_path(home_dir@, i as nat, ".out"@), tv[i as int].1),
            ]);
        }
        i = i + 1;
    }
    assert(tv.take(tests.len() as int) =~= tv);
    r
}

/// `home/info.toml`: where the problem's description is kept.
pub fn info_file_path(home_dir: &str) -> (r: String)
    ensures
        r@ == path_join(home_dir@, "info.toml"@),
{
    string_of(&path_join_exec(&chars_of(home_dir), &chars_of("info.toml")))
}

/// A problem is registered in the contest tree once: nothing is appended
/// exactly when the line already occurs anywhere in the list; otherwise the
/// line is appended on a line of its own, so that the list then holds it.
pub proof fn lemma_parent_cmake_once(existing: Seq<char>, line: Seq<char>)
    ensures
        (exists|j: int| #[trigger] matches_at(existing, line, j)) <==> parent_cmake_addition_spec(
            existing,
            line,
        ) is None,
        parent_cmake_addition_spec(existing, line) matches Some(a) ==> {
            let after = existing + a;
            &&& matches_at(after, line, after.len() - line.len() - 1)
            &&& after.last() == '\n'
            &&& (existing.len() > 0 ==> after.subrange(0, existing.len() as int) == existing)
            &&& (existing.len() > 0 ==> after[existing.len() as int] == '\n' || existing.last() == '\n')
        },
{
    crate::text::lemma_find_from(existing, line, 0);
    match find_from(existing, line, 0) {
        Some(j) => {
            assert(matches_at(existing, line, j));
        },
        None => {},
    }
    match parent_cmake_addition_spec(existing, line) {
        Some(a) => {
            let after = existing + a;
            let k = after.len() - line.len() - 1;
            assert(after.subrange(k, k + line.len()) =~= line);
            assert(after.subrange(0, existing.len() as int) =~= existing);
        },
        None => {},
    }
}

} // verus!
