//! The programs a comparison builds and runs, and where their builds land.

use vstd::prelude::*;

use crate::checker::{CompareResult, CompareResultUnexpected, ResultView};
use crate::schedule::{CompareRuns, RunInProgress};
use crate::text::{append_chars, append_str, chars_of, decimal, decimal_exec, path_join, path_join_exec, string_of};

verus! {

/// A program to build: a target of the project's CMake build, or a single
/// C++20 file.
#[derive(Debug)]
pub enum Source {
    CMakeTarget(String),
    CPP20SingleFile(String),
}

/// The mathematical value of a `Source`.
pub enum SourceView {
    CMakeTarget(Seq<char>),
    CPP20SingleFile(Seq<char>),
}

impl View for Source {
    type V = SourceView;

    open spec fn view(&self) -> SourceView {
        match self {
            Source::CMakeTarget(t) => SourceView::CMakeTarget(t@),
            Source::CPP20SingleFile(p) => SourceView::CPP20SingleFile(p@),
        }
    }
}

impl Clone for Source {
    fn clone(&self) -> (r: Self)
        ensures
            r@ == self@,
    {
        match self {
            Source::CMakeTarget(t) => Source::CMakeTarget(t.clone()),
            Source::CPP20SingleFile(p) => Source::CPP20SingleFile(p.clone()),
        }
    }
}

/// The text that names a source (what `Display` prints); builds are cached
/// under it.
pub open spec fn source_text(v: SourceView) -> Seq<char> {
    match v {
        SourceView::CMakeTarget(t) => "cmake_target:"@ + t,
        SourceView::CPP20SingleFile(p) => "single_file:"@ + p,
    }
}

/// `project_root/build/target`: where the CMake build puts a target.
pub open spec fn cmake_build_path(project_root: Seq<char>, target: Seq<char>) -> Seq<char> {
    path_join(path_join(project_root, "build"@), target)
}

fn join_str(base: &[char], comp: &str) -> (r: Vec<char>)
    ensures
        r@ == path_join(base@, comp@),
{
    let c = chars_of(comp);
    path_join_exec(base, &c)
}

impl Source {
    /// The text that names this source.
    pub fn describe(&self) -> (r: String)
        ensures
            r@ == source_text(self@),
    {
        let mut v: Vec<char> = Vec::new();
        match self {
            Source::CMakeTarget(t) => {
                append_str(&mut v, "cmake_target:");
                append_str(&mut v, t.as_str());
            },
            Source::CPP20SingleFile(p) => {
                append_str(&mut v, "single_file:");
                append_str(&mut v, p.as_str());
            },
        }
        string_of(&v)
    }

    /// The source the command line names: exactly one of a CMake target and a
    /// single file is given.
    pub fn get_from_flag(target: Option<String>, single_file: Option<String>) -> (r: Self)
        requires
            target is Some != single_file is Some,
        ensures
            target matches Some(t) ==> r@ == SourceView::CMakeTarget(t@),
            single_file matches Some(f) ==> r@ == SourceView::CPP20SingleFile(f@),
    {
        match target {
            Some(t) => Source::CMakeTarget(t),
            None => Source::CPP20SingleFile(single_file.unwrap()),
        }
    }

    /// Where the build of a CMake target is, under the project root; a single
    /// file has to be compiled first, so it has none.
    pub fn build_path(&self, project_root: &str) -> (r: Option<String>)
        ensures
            match self@ {
                SourceView::CMakeTarget(t) => r matches Some(p) && p@ == cmake_build_path(
                    project_root@,
                    t,
                ),
                SourceView::CPP20SingleFile(_) => r is None,
            },
    {
        match self {
            Source::CMakeTarget(t) => {
                let root = chars_of(project_root);
                let build = join_str(&root, "build");
                let p = join_str(&build, t.as_str());
                Some(string_of(&p))
            },
            Source::CPP20SingleFile(_) => None,
        }
    }
}

/// A checker that comes built with these tools.
#[derive(Debug, Clone, Copy, PartialEq, Eq, Structural)]
pub enum PrebuiltSource {
    CheckerTotalSame,
    CheckerIgnoreBlankWord,
}

/// The name of a prebuilt checker's program.
pub open spec fn prebuilt_name(p: PrebuiltSource) -> Seq<char> {
    match p {
        PrebuiltSource::CheckerTotalSame => "ck_rs_total_same"@,
        PrebuiltSource::CheckerIgnoreBlankWord => "ck_rs_ignore_blank_word"@,
    }
}

impl PrebuiltSource {
    /// The name of the checker's program (what `Display` prints).
    pub fn name(&self) -> (r: &'static str)
        ensures
            r@ == prebuilt_name(*self),
    {
        match self {
            PrebuiltSource::CheckerTotalSame => "ck_rs_total_same",
            PrebuiltSource::CheckerIgnoreBlankWord => "ck_rs_ignore_blank_word",
        }
    }
}

/// The checker of a comparison: one to build, or one that comes built.
#[derive(Debug)]
pub enum CheckerSource {
    Source(Source),
    Prebuilt(PrebuiltSource),
}

/// The mathematical value of a `CheckerSource`.
pub enum CheckerView {
    Source(SourceView),
    Prebuilt(PrebuiltSource),
}

impl View for CheckerSource {
    type V = CheckerView;

    open spec fn view(&self) -> CheckerView {
        match self {
            CheckerSource::Source(s) => CheckerView::Source(s@),
            CheckerSource::Prebuilt(p) => CheckerView::Prebuilt(*p),
        }
    }
}

impl Clone for CheckerSource {
    fn clone(&self) -> (r: Self)
        ensures
            r@ == self@,
    {
        match self {
            CheckerSource::Source(s) => CheckerSource::Source(s.clone()),
            CheckerSource::Prebuilt(p) => CheckerSource::Prebuilt(*p),
        }
    }
}

/// The text that names a checker.
pub open spec fn checker_text(v: CheckerView) -> Seq<char> {
    match v {
        CheckerView::Source(s) => source_text(s),
        CheckerView::Prebuilt(p) => "prebuilt:"@ + prebuilt_name(p),
    }
}

/// `project_root/target/release/name`: where a prebuilt checker is.
pub open spec fn prebuilt_path(project_root: Seq<char>, p: PrebuiltSource) -> Seq<char> {
    path_join(path_join(path_join(project_root, "target"@), "release"@), prebuilt_name(p))
}

impl CheckerSource {
    /// The text that names this checker.
    pub fn describe(&self) -> (r: String)
        ensures
            r@ == checker_text(self@),
    {
        match self {
            CheckerSource::Source(s) => s.describe(),
            CheckerSource::Prebuilt(p) => {
                let mut v: Vec<char> = Vec::new();
                append_str(&mut v, "prebuilt:");
                append_str(&mut v, p.name());
                string_of(&v)
            },
        }
    }

    /// The checker the command line names: exactly one of a CMake target, a
    /// single file and a prebuilt checker is given.
    pub fn get_from_flag(
        target: Option<String>,
        single_file: Option<String>,
        prebuilt: Option<PrebuiltSource>,
    ) -> (r: Self)
        requires
            (target is Some && single_file is None && prebuilt is None) || (target is None
                && single_file is Some && prebuilt is None) || (target is None && single_file is None
                && prebuilt is Some),
        ensures
            target matches Some(t) ==> r@ == CheckerView::Source(SourceView::CMakeTarget(t@)),
            single_file matches Some(f) ==> r@ == CheckerView::Source(
                SourceView::CPP20SingleFile(f@),
            ),
            prebuilt matches Some(p) ==> r@ == CheckerView::Prebuilt(p),
    {
        match prebuilt {
            Some(p) => CheckerSource::Prebuilt(p),
            None => CheckerSource::Source(Source::get_from_flag(target, single_file)),
        }
    }

    /// Where the checker's program is once built, under the project root; a
    /// single file has to be compiled first, so it has none.
    pub fn build_path(&self, project_root: &str) -> (r: Option<String>)
        ensures
            match self@ {
                CheckerView::Source(SourceView::CMakeTarget(t)) => r matches Some(p) && p@
                    == cmake_build_path(project_root@, t),
                CheckerView::Source(SourceView::CPP20SingleFile(_)) => r is None,
                CheckerView::Prebuilt(b) => r matches Some(p) && p@ == prebuilt_path(
                    project_root@,
                    b,
                ),
            },
    {
        match self {
            CheckerSource::Source(s) => s.build_path(project_root),
            CheckerSource::Prebuilt(p) => {
                let root = chars_of(project_root);
                let t = join_str(&root, "target");
                let rel = join_str(&t, "release");
                let out = join_str(&rel, p.name());
                Some(string_of(&out))
            },
        }
    }
}

/// The text of a build outcome: the program's path, or the build's message.
pub open spec fn outcome_view(r: Result<String, String>) -> Result<Seq<char>, Seq<char>> {
    match r {
        Ok(p) => Ok(p@),
        Err(e) => Err(e@),
    }
}

/// The outcome of building the four programs of a comparison: their paths,
/// or the verdict for the first build that failed, taken in the order brute
/// force, checker, solver, generator. A solver that does not build is a
/// compile error; any other failed build makes the comparison fail.
pub open spec fn builds_outcome(
    brute_force: Result<Seq<char>, Seq<char>>,
    checker: Result<Seq<char>, Seq<char>>,
    solver: Result<Seq<char>, Seq<char>>,
    gen: Result<Seq<char>, Seq<char>>,
) -> Result<(Seq<char>, Seq<char>, Seq<char>, Seq<char>), ResultView> {
    match (brute_force, checker, solver, gen) {
        (Err(e), _, _, _) => Err(
            ResultView::Unexpected(CompareResultUnexpected::BruteForceBuildFailed, e),
        ),
        (Ok(_), Err(e), _, _) => Err(
            ResultView::Unexpected(CompareResultUnexpected::CheckerBuildFailed, e),
        ),
        (Ok(_), Ok(_), Err(e), _) => Err(ResultView::CE(e)),
        (Ok(_), Ok(_), Ok(_), Err(e)) => Err(
            ResultView::Unexpected(CompareResultUnexpected::GenBuildFailed, e),
        ),
        (Ok(b), Ok(c), Ok(s), Ok(g)) => Ok((b, c, s, g)),
    }
}

/// Combines the outcomes of the four builds of a comparison.
pub fn combine_builds(
    brute_force: Result<String, String>,
    checker: Result<String, String>,
    solver: Result<String, String>,
    gen: Result<String, String>,
) -> (r: Result<(String, String, String, String), CompareResult>)
    ensures
        match (
            r,
            builds_outcome(
                outcome_view(brute_force),
                outcome_view(checker),
                outcome_view(solver),
                outcome_view(gen),
            ),
        ) {
            (Ok((b, c, s, g)), Ok((vb, vc, vs, vg))) => b@ == vb && c@ == vc && s@ == vs && g@ == vg,
            (Err(e), Err(ve)) => e@ == ve,
            _ => false,
        },
{
    let b = match brute_force {
        Ok(p) => p,
        Err(e) => {
            return Err(
                CompareResult::CompareResultUnexpected(
                    CompareResultUnexpected::BruteForceBuildFailed,
                    e,
                ),
            );
        },
    };
    let c = match checker {
        Ok(p) => p,
        Err(e) => {
            return Err(
                CompareResult::CompareResultUnexpected(
                    CompareResultUnexpected::CheckerBuildFailed,
                    e,
                ),
            );
        },
    };
    let s = match solver {
        Ok(p) => p,
        Err(e) => {
            return Err(CompareResult::CE(e));
        },
    };
    let g = match gen {
        Ok(p) => p,
        Err(e) => {
            return Err(
                CompareResult::CompareResultUnexpected(CompareResultUnexpected::GenBuildFailed, e),
            );
        },
    };
    Ok((b, c, s, g))
}

fn numbered_file(index: u32, suffix: &str) -> (r: String)
    ensures
        r@ == decimal(index as nat) + suffix@,
{
    let mut v = decimal_exec(index as u64);
    append_str(&mut v, suffix);
    string_of(&v)
}

/// The file a generator writes the input of test case `index` to.
pub fn test_case_input_file_name(index: u32) -> (r: String)
    ensures
        r@ == decimal(index as nat) + ".in"@,
{
    numbered_file(index, ".in")
}

/// The file the solver's output for test case `index` goes to.
pub fn test_case_solver_output_file_name(index: u32) -> (r: String)
    ensures
        r@ == decimal(index as nat) + ".ans"@,
{
    numbered_file(index, ".ans")
}

/// The file the brute force's output for test case `index` goes to.
pub fn test_case_brute_force_output_file_name(index: u32) -> (r: String)
    ensures
        r@ == decimal(index as nat) + ".correct"@,
{
    numbered_file(index, ".correct")
}

/// A comparison as the command line asks for it.
#[derive(Debug)]
pub struct Cmd {
    pub brute_force: Source,
    pub solver: Source,
    pub gen: Source,
    pub checker: CheckerSource,
    /// How many test cases to compare on.
    pub times: u32,
    /// The directory the programs run in.
    pub work_path: String,
}

/// The runs of a comparison: one per test case, none handed out yet.
pub fn compares(cmd: &Cmd) -> (r: CompareRuns)
    ensures
        r.wf(),
        r@.all_cases == cmd.times,
        r@.next_id == 0,
        r@.in_progress == Map::<usize, RunInProgress>::empty(),
{
    CompareRuns::new(cmd.times as usize)
}

} // verus!
