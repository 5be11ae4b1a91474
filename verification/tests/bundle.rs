use std::collections::HashMap;

use cph_tools::bundle::{
    file_quote_dep_headers, remove_bundled_includes, split_semicolons_exec, BundlerContext, Cache,
};
use cph_tools::walk::{get_replace_headers, ContextInner, WalkRequest};

fn project() -> HashMap<&'static str, &'static str> {
    HashMap::from([
        (
            "main.cc",
            "#include \"inner/a.h\"\n#include <vector>\n#include \"atcoder/b.h\"\nint main(){}\n",
        ),
        ("/p/inner/a.h", "#include \"inner/c.h\"\nA\n"),
        ("/p/atcoder/b.h", "#include \"inner/c.h\"\n#include \"local.h\"\nB\n"),
        ("/p/inner/c.h", "C\n"),
        ("second.cc", "#include \"inner/a.h\"\r\nS\n"),
    ])
}

fn bundle(
    ctx: &mut BundlerContext,
    files: &HashMap<&str, &str>,
    source: &str,
    reads: &mut Vec<String>,
) -> (Vec<String>, String) {
    let mut walk = ctx.bundle_target(source);
    let mut req = match walk.waiting() {
        Some(p) => WalkRequest::Headers(p),
        None => WalkRequest::Done,
    };
    while let WalkRequest::Headers(p) = req {
        let text = match ctx.cached_text(&p) {
            Some(t) => t,
            None => {
                reads.push(p.clone());
                files[p.as_str()].to_owned()
            }
        };
        req = ctx.feed_file(&mut walk, text);
    }
    assert!(walk.is_done());
    let deps = walk.all_deps();
    let text = ctx.target_text(&deps).expect("every file was read");
    (deps, text)
}

#[test]
fn bundle_orders_headers_before_their_includers() {
    let files = project();
    let mut ctx = BundlerContext::new("/p", "/out", "main.cc", "main");
    let mut reads = vec![];
    let (deps, text) = bundle(&mut ctx, &files, "main.cc", &mut reads);
    assert_eq!(deps, vec!["/p/inner/c.h", "/p/inner/a.h", "/p/atcoder/b.h", "main.cc"]);
    assert_eq!(
        text,
        "C\nA\n#include \"local.h\"\nB\n#include <vector>\nint main(){}\n"
    );
    assert_eq!(reads, vec!["main.cc", "/p/inner/a.h", "/p/inner/c.h", "/p/atcoder/b.h"]);
}

#[test]
fn cached_files_are_not_read_again() {
    let files = project();
    let mut ctx = BundlerContext::new("/p", "/out", "main.cc;second.cc", "main;second");
    let mut reads = vec![];
    bundle(&mut ctx, &files, "main.cc", &mut reads);
    let mut reads2 = vec![];
    let (deps, text) = bundle(&mut ctx, &files, "second.cc", &mut reads2);
    assert_eq!(reads2, vec!["second.cc"]);
    assert_eq!(deps, vec!["/p/inner/c.h", "/p/inner/a.h", "second.cc"]);
    assert_eq!(text, "C\nA\nS\n");
}

#[test]
fn a_header_resolving_to_the_root_bundles_it_twice() {
    let files = HashMap::from([
        ("/p/inner/r.h", "#include \"inner/r.h\"\nR\n"),
    ]);
    let mut ctx = BundlerContext::new("/p", "/out", "", "");
    let mut reads = vec![];
    let (deps, _) = bundle(&mut ctx, &files, "/p/inner/r.h", &mut reads);
    assert_eq!(deps, vec!["/p/inner/r.h", "/p/inner/r.h"]);
    // The root comes last, and nothing but the root comes twice.
    assert_eq!(deps.last().map(|s| s.as_str()), Some("/p/inner/r.h"));
}

#[test]
fn walk_steps_by_hand() {
    let mut w = ContextInner::new("/d", "root.cc");
    assert_eq!(w.waiting(), Some("root.cc".to_owned()));
    let r = w.get_file_quote_deps_recusive(&vec![
        "other/x.h".to_owned(),
        "inner/a.h".to_owned(),
        "atcoder/b.h".to_owned(),
    ]);
    assert_eq!(r, WalkRequest::Headers("/d/inner/a.h".to_owned()));
    let r = w.get_file_quote_deps_recusive(&vec!["atcoder/b.h".to_owned()]);
    assert_eq!(r, WalkRequest::Headers("/d/atcoder/b.h".to_owned()));
    let r = w.get_file_quote_deps_recusive(&vec!["inner/a.h".to_owned()]);
    assert_eq!(r, WalkRequest::Done);
    assert!(w.is_done());
    assert_eq!(w.all_deps(), vec!["/d/atcoder/b.h", "/d/inner/a.h", "root.cc"]);
    // A complete walk asks for nothing more.
    assert_eq!(w.get_file_quote_deps_recusive(&vec![]), WalkRequest::Done);
    assert_eq!(w.all_deps().len(), 3);
}

#[test]
fn replace_headers_pairs() {
    assert_eq!(
        get_replace_headers("/proj"),
        vec![
            ("inner/".to_owned(), "/proj".to_owned()),
            ("atcoder/".to_owned(), "/proj".to_owned())
        ]
    );
}

#[test]
fn quoted_includes_are_found_line_by_line() {
    let text = "#include \"a.h\"\n  #include \"b/c.h\" // x\n#include <d>\n#include \"unterminated\nx #include \"e.h\"#include \"f.h\"\n";
    assert_eq!(file_quote_dep_headers(text), vec!["a.h", "b/c.h", "e.h"]);
    let re = regex::Regex::new("(#include \"([^\"]*)\")").unwrap();
    let want: Vec<String> = text
        .lines()
        .filter_map(|l| re.captures(l).map(|c| c[2].to_owned()))
        .collect();
    assert_eq!(file_quote_dep_headers(text), want);
}

#[test]
fn includes_of_bundled_files_are_removed() {
    let deps = vec!["/p/inner/a.h".to_owned()];
    assert_eq!(
        remove_bundled_includes("#include \"inner/a.h\"\nx\r\n#include \"a.h\"\n#include \"b.h\"", &deps),
        "x\n#include \"b.h\"\n"
    );
}

#[test]
fn replaced_text_is_worked_out_once_per_file() {
    let mut cache = Cache::default();
    assert_eq!(cache.store_file("f", "#include \"g.h\"\nF\n".to_owned()), "#include \"g.h\"\nF\n");
    // The first text read is kept.
    assert_eq!(cache.store_file("f", "other".to_owned()), "#include \"g.h\"\nF\n");
    assert_eq!(cache.get_file_quote_dep_headers("f"), Some(vec!["g.h".to_owned()]));
    assert_eq!(cache.get_file_quote_dep_headers("missing"), None);
    let first = cache.replace_header_with_file_content("f", &vec!["/x/g.h".to_owned()]);
    assert_eq!(first, Some("F\n".to_owned()));
    let later = cache.replace_header_with_file_content("f", &vec![]);
    assert_eq!(later, Some("F\n".to_owned()));
    assert_eq!(cache.replace_header_with_file_content("missing", &vec![]), None);
}

#[test]
fn split_is_str_split() {
    for s in ["a;b", "", ";", "a;;b;", "single"] {
        let want: Vec<String> = s.split(';').map(|x| x.to_owned()).collect();
        assert_eq!(split_semicolons_exec(s), want);
    }
}

#[test]
fn targets_of_the_configuration() {
    let ctx = BundlerContext::new("/p", "/out", "src/a.cc;src/b.cc", "a;b");
    assert!(ctx.lists_agree());
    assert_eq!(ctx.clear_all(), vec!["/out/a.cc", "/out/b.cc"]);
    assert_eq!(
        ctx.bundle_all(),
        vec![
            ("/out/a.cc".to_owned(), "src/a.cc".to_owned()),
            ("/out/b.cc".to_owned(), "src/b.cc".to_owned())
        ]
    );
    let bad = BundlerContext::new("/p", "/out", "a.cc;b.cc", "a");
    assert!(!bad.lists_agree());
}

#[test]
fn missing_text_gives_no_bundle() {
    let mut ctx = BundlerContext::new("/p", "/out", "", "");
    assert_eq!(ctx.target_text(&vec!["never-read".to_owned()]), None);
    assert_eq!(ctx.target_text(&vec![]), Some(String::new()));
}
