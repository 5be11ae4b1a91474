//! The depth-first walk over the quoted includes of a solution: which
//! headers get bundled, and in which order.
//!
//! The walk is a state machine. It asks for the quoted headers of one file at
//! a time; whoever drives it reads the file and hands the headers back.

use vstd::prelude::*;

use crate::text::{append_chars, chars_of, matches_at_exec, starts_with, string_of};

verus! {

broadcast use vstd::seq_lib::group_seq_properties;

/// The text of each string.
pub open spec fn strs(v: Seq<String>) -> Seq<Seq<char>> {
    v.map_values(|s: String| s@)
}

/// The header prefixes that resolve under the project directory, each with
/// the directory it resolves under.
pub open spec fn replace_headers(dir: Seq<char>) -> Seq<(Seq<char>, Seq<char>)> {
    seq![("inner/"@, dir), ("atcoder/"@, dir)]
}

/// The file a quoted header names: the first pair whose prefix the header
/// starts with gives the directory, and the header is joined under it.
pub open spec fn resolve_in(pairs: Seq<(Seq<char>, Seq<char>)>, h: Seq<char>) -> Option<
    Seq<char>,
>
    decreases pairs.len(),
{
    if pairs.len() == 0 {
        None
    } else if starts_with(h, pairs[0].0) {
        Some(pairs[0].1 + seq!['/'] + h)
    } else {
        resolve_in(pairs.drop_first(), h)
    }
}

/// The file a quoted header names, if it is one of the project's headers.
pub open spec fn resolve_header(dir: Seq<char>, h: Seq<char>) -> Option<Seq<char>> {
    resolve_in(replace_headers(dir), h)
}

/// A file whose headers are being walked: its path, its quoted headers, how
/// many of them have been looked at, and which of the files handed to the walk
/// it is.
pub struct FrameView {
    pub path: Seq<char>,
    pub headers: Seq<Seq<char>>,
    pub next: int,
    pub fed: int,
}

/// The state of a walk.
pub struct WalkView {
    /// The project directory the headers resolve under.
    pub dir: Seq<char>,
    /// The file the walk starts from.
    pub root: Seq<char>,
    /// The header files met so far, in the order they were met.
    pub found: Seq<Seq<char>>,
    /// The files whose walk is complete, in the order they completed.
    pub deps: Seq<Seq<char>>,
    /// The files being walked, the innermost last.
    pub stack: Seq<FrameView>,
    /// The file whose headers the walk waits for.
    pub waiting: Option<Seq<char>>,
    /// The root's walk is complete.
    pub done: bool,
    /// Every file handed to the walk so far, with its headers.
    pub fed: Seq<(Seq<char>, Seq<Seq<char>>)>,
}

/// The walk has to wait: for headers, or because it is complete.
pub open spec fn stopped(v: WalkView) -> bool {
    v.waiting is Some || v.stack.len() == 0
}

/// One step of the walk: look at the next header of the innermost file, or
/// finish that file when all its headers have been looked at.
pub open spec fn tick(v: WalkView) -> WalkView {
    if stopped(v) {
        v
    } else {
        let t = v.stack.len() - 1;
        let f = v.stack[t];
        if f.next < f.headers.len() {
            let stepped = WalkView {
                stack: v.stack.update(t, FrameView { next: f.next + 1, ..f }),
                ..v
            };
            match resolve_header(v.dir, f.headers[f.next]) {
                Some(sub) => if v.found.contains(sub) {
                    stepped
                } else {
                    WalkView { found: v.found.push(sub), waiting: Some(sub), ..stepped }
                },
                None => stepped,
            }
        } else {
            WalkView { stack: v.stack.drop_last(), deps: v.deps.push(f.path), done: t == 0, ..v }
        }
    }
}

/// How far the walk can go before it stops: files on the stack first, then
/// headers left in the innermost file.
pub open spec fn top_left(v: WalkView) -> int {
    if v.stack.len() == 0 {
        0
    } else {
        v.stack.last().headers.len() - v.stack.last().next
    }
}

/// The walk run until it has to wait.
pub open spec fn run(v: WalkView) -> WalkView
    decreases v.stack.len(), top_left(v),
{
    if stopped(v) {
        v
    } else {
        run(tick(v))
    }
}

/// The walk after it was handed the headers of the file it waits for.
pub open spec fn feed(v: WalkView, headers: Seq<Seq<char>>) -> WalkView {
    match v.waiting {
        Some(p) => WalkView {
            stack: v.stack.push(FrameView { path: p, headers, next: 0, fed: v.fed.len() as int }),
            waiting: None,
            fed: v.fed.push((p, headers)),
            ..v
        },
        None => v,
    }
}

/// A walk from `root` that has not begun: it waits for the root's headers.
pub open spec fn start(dir: Seq<char>, root: Seq<char>) -> WalkView {
    WalkView {
        dir,
        root,
        found: Seq::empty(),
        deps: Seq::empty(),
        stack: Seq::empty(),
        waiting: Some(root),
        done: false,
        fed: Seq::empty(),
    }
}

/// The paths of the files on the stack.
pub open spec fn frame_paths(st: Seq<FrameView>) -> Seq<Seq<char>> {
    st.map_values(|f: FrameView| f.path)
}

/// The header files whose walk is complete (the root left out once it is).
pub open spec fn settled(v: WalkView) -> Seq<Seq<char>> {
    if v.done {
        v.deps.drop_last()
    } else {
        v.deps
    }
}

/// The header files being walked (the root, at the bottom, left out).
pub open spec fn open_files(v: WalkView) -> Seq<Seq<char>> {
    if v.stack.len() == 0 {
        Seq::empty()
    } else {
        frame_paths(v.stack).drop_first()
    }
}

/// The header file the walk waits for, once it has begun.
pub open spec fn waited(v: WalkView) -> Seq<Seq<char>> {
    match v.waiting {
        Some(p) => if v.stack.len() > 0 {
            seq![p]
        } else {
            Seq::empty()
        },
        None => Seq::empty(),
    }
}

/// No element of `a` is in `b`.
pub open spec fn disjoint(a: Seq<Seq<char>>, b: Seq<Seq<char>>) -> bool {
    forall|x: Seq<char>| a.contains(x) ==> !b.contains(x)
}

/// Every project header that `headers` names has been met.
pub open spec fn all_met(dir: Seq<char>, headers: Seq<Seq<char>>, n: int, found: Seq<Seq<char>>) -> bool {
    forall|m: int|
        0 <= m < n ==> match #[trigger] resolve_header(dir, headers[m]) {
            Some(s) => found.contains(s),
            None => true,
        }
}

/// The consistency of a walk.
pub open spec fn wf(v: WalkView) -> bool {
    &&& v.done ==> v.stack.len() == 0 && v.waiting is None && v.deps.len() >= 1 && v.deps.last()
        == v.root
    &&& !v.done && v.stack.len() == 0 ==> v.waiting == Some(v.root) && v.deps.len() == 0
        && v.found.len() == 0 && v.fed.len() == 0
    &&& v.stack.len() > 0 ==> v.stack[0].path == v.root && !v.done
    &&& forall|i: int| 0 <= i < v.stack.len() ==> 0 <= #[trigger] v.stack[i].next <= v.stack[i].headers.len()
    &&& v.found.no_duplicates()
    &&& settled(v).no_duplicates()
    &&& open_files(v).no_duplicates()
    &&& disjoint(settled(v), open_files(v))
    &&& disjoint(settled(v), waited(v))
    &&& disjoint(open_files(v), waited(v))
    &&& forall|x: Seq<char>| #[trigger] v.found.contains(x) <==> settled(v).contains(x)
        || open_files(v).contains(x) || waited(v).contains(x)
    &&& forall|i: int|
        0 <= i < v.stack.len() ==> 0 <= #[trigger] v.stack[i].fed < v.fed.len() && v.fed[v.stack[i].fed]
            == (v.stack[i].path, v.stack[i].headers)
    &&& forall|i: int, j: int| 0 <= i < j < v.stack.len() ==> #[trigger] v.stack[i].fed < #[trigger] v.stack[j].fed
    &&& forall|i: int|
        0 <= i < v.stack.len() ==> all_met(v.dir, #[trigger] v.stack[i].headers, v.stack[i].next, v.found)
    &&& forall|k: int|
        0 <= k < v.fed.len() ==> all_met(v.dir, #[trigger] v.fed[k].1, v.fed[k].1.len() as int, v.found)
            || exists|i: int| 0 <= i < v.stack.len() && v.stack[i].fed == k
    &&& forall|d: Seq<char>| #[trigger] v.deps.contains(d) ==> exists|k: int| 0 <= k < v.fed.len() && v.fed[k].0 == d
}

proof fn lemma_push_no_dup(s: Seq<Seq<char>>, x: Seq<char>)
    requires
        s.no_duplicates(),
        !s.contains(x),
    ensures
        s.push(x).no_duplicates(),
{
    assert forall|i: int, j: int|
        0 <= i < s.len() + 1 && 0 <= j < s.len() + 1 && i != j implies s.push(x)[i] != s.push(
        x,
    )[j] by {
        if i == s.len() {
            assert(s.contains(s[j]));
        } else if j == s.len() {
            assert(s.contains(s[i]));
        }
    }
}

/// A walk that has not begun is consistent.
pub proof fn lemma_start_wf(dir: Seq<char>, root: Seq<char>)
    ensures
        wf(start(dir, root)),
{
    let v = start(dir, root);
    assert(settled(v) =~= Seq::<Seq<char>>::empty());
    assert(open_files(v) =~= Seq::<Seq<char>>::empty());
    assert(waited(v) =~= Seq::<Seq<char>>::empty());
}

/// Handing a consistent walk the headers it waits for keeps it consistent.
pub proof fn lemma_feed_wf(v: WalkView, headers: Seq<Seq<char>>)
    requires
        wf(v),
    ensures
        wf(feed(v, headers)),
{
    if v.waiting is Some {
        let p = v.waiting.unwrap();
        let w = feed(v, headers);
        let f = FrameView { path: p, headers, next: 0, fed: v.fed.len() as int };
        assert(w.stack == v.stack.push(f));
        assert(waited(w) =~= Seq::<Seq<char>>::empty());
        assert(settled(w) == settled(v));
        if v.stack.len() == 0 {
            assert(open_files(w) =~= Seq::<Seq<char>>::empty());
            assert(w.found =~= Seq::<Seq<char>>::empty());
            assert(w.stack[0] == f);
            assert forall|k: int| 0 <= k < w.fed.len() implies all_met(
                w.dir,
                #[trigger] w.fed[k].1,
                w.fed[k].1.len() as int,
                w.found,
            ) || exists|i: int| 0 <= i < w.stack.len() && w.stack[i].fed == k by {
                assert(w.stack[0].fed == k);
            }
        } else {
            assert(waited(v) =~= seq![p]);
            assert(open_files(w) =~= open_files(v).push(p));
            assert(waited(v).contains(p));
            lemma_push_no_dup(open_files(v), p);
            assert forall|x: Seq<char>| #[trigger] w.found.contains(x) <==> settled(w).contains(x)
                || open_files(w).contains(x) || waited(w).contains(x) by {
                assert(open_files(v).push(p).contains(x) <==> open_files(v).contains(x) || x == p);
                assert(waited(v).contains(x) <==> x == p);
            }
            assert forall|i: int|
                0 <= i < w.stack.len() implies all_met(
                w.dir,
                #[trigger] w.stack[i].headers,
                w.stack[i].next,
                w.found,
            ) by {
                if i < v.stack.len() {
                    assert(w.stack[i] == v.stack[i]);
                }
            }
            assert forall|k: int| 0 <= k < w.fed.len() implies all_met(
                w.dir,
                #[trigger] w.fed[k].1,
                w.fed[k].1.len() as int,
                w.found,
            ) || exists|i: int| 0 <= i < w.stack.len() && w.stack[i].fed == k by {
                if k == v.fed.len() {
                    assert(w.stack[v.stack.len() as int].fed == k);
                } else {
                    assert(w.fed[k] == v.fed[k]);
                    if !all_met(v.dir, v.fed[k].1, v.fed[k].1.len() as int, v.found) {
                        let i = choose|i: int| 0 <= i < v.stack.len() && v.stack[i].fed == k;
                        assert(w.stack[i].fed == k);
                    }
                }
            }
            assert forall|d: Seq<char>| #[trigger] w.deps.contains(d) implies exists|k: int|
                0 <= k < w.fed.len() && w.fed[k].0 == d by {
                let k = choose|k: int| 0 <= k < v.fed.len() && v.fed[k].0 == d;
                assert(w.fed[k] == v.fed[k]);
            }
        }
    }
}

proof fn lemma_all_met_grow(dir: Seq<char>, hs: Seq<Seq<char>>, n: int, found: Seq<Seq<char>>, x: Seq<char>)
    requires
        all_met(dir, hs, n, found),
    ensures
        all_met(dir, hs, n, found.push(x)),
{
    assert forall|m: int| 0 <= m < n implies match #[trigger] resolve_header(dir, hs[m]) {
        Some(s) => found.push(x).contains(s),
        None => true,
    } by {
        match resolve_header(dir, hs[m]) {
            Some(s) => {
                assert(found.contains(s));
            },
            None => {},
        }
    }
}

/// One step keeps a consistent walk consistent.
pub proof fn lemma_tick_wf(v: WalkView)
    requires
        wf(v),
    ensures
        wf(tick(v)),
{
    if !stopped(v) {
        let t = v.stack.len() - 1;
        let f = v.stack[t];
        let w = tick(v);
        if f.next < f.headers.len() {
            let g = FrameView { next: f.next + 1, ..f };
            let st = v.stack.update(t, g);
            assert(frame_paths(st) =~= frame_paths(v.stack));
            assert(open_files(WalkView { stack: st, ..v }) == open_files(v));
            assert(waited(v) =~= Seq::<Seq<char>>::empty());
            match resolve_header(v.dir, f.headers[f.next]) {
                Some(sub) => {
                    if v.found.contains(sub) {
                        assert(w.stack == st);
                        assert forall|i: int|
                            0 <= i < w.stack.len() implies all_met(
                            w.dir,
                            #[trigger] w.stack[i].headers,
                            w.stack[i].next,
                            w.found,
                        ) by {
                            if i == t {
                                assert(all_met(v.dir, f.headers, f.next, v.found));
                            } else {
                                assert(w.stack[i] == v.stack[i]);
                            }
                        }
                        assert forall|k: int| 0 <= k < w.fed.len() implies all_met(
                            w.dir,
                            #[trigger] w.fed[k].1,
                            w.fed[k].1.len() as int,
                            w.found,
                        ) || exists|i: int| 0 <= i < w.stack.len() && w.stack[i].fed == k by {
                            if !all_met(v.dir, v.fed[k].1, v.fed[k].1.len() as int, v.found) {
                                let i = choose|i: int| 0 <= i < v.stack.len() && v.stack[i].fed == k;
                                assert(w.stack[i].fed == k);
                            }
                        }
                    } else {
                        assert(w.stack == st);
                        assert(w.found == v.found.push(sub));
                        assert(waited(w) =~= seq![sub]);
                        lemma_push_no_dup(v.found, sub);
                        assert forall|x: Seq<char>| #[trigger] w.found.contains(x) <==> settled(w).contains(x)
                            || open_files(w).contains(x) || waited(w).contains(x) by {
                            assert(waited(w).contains(x) <==> x == sub);
                        }
                        assert forall|i: int|
                            0 <= i < w.stack.len() implies all_met(
                            w.dir,
                            #[trigger] w.stack[i].headers,
                            w.stack[i].next,
                            w.found,
                        ) by {
                            if i == t {
                                lemma_all_met_grow(v.dir, f.headers, f.next, v.found, sub);
                            } else {
                                assert(w.stack[i] == v.stack[i]);
                                lemma_all_met_grow(v.dir, v.stack[i].headers, v.stack[i].next, v.found, sub);
                            }
                        }
                        assert forall|k: int| 0 <= k < w.fed.len() implies all_met(
                            w.dir,
                            #[trigger] w.fed[k].1,
                            w.fed[k].1.len() as int,
                            w.found,
                        ) || exists|i: int| 0 <= i < w.stack.len() && w.stack[i].fed == k by {
                            if !all_met(v.dir, v.fed[k].1, v.fed[k].1.len() as int, v.found) {
                                let i = choose|i: int| 0 <= i < v.stack.len() && v.stack[i].fed == k;
                                assert(w.stack[i].fed == k);
                            } else {
                                lemma_all_met_grow(v.dir, v.fed[k].1, v.fed[k].1.len() as int, v.found, sub);
                            }
                        }
                    }
                },
                None => {
                    assert(w.stack == st);
                    assert forall|i: int|
                        0 <= i < w.stack.len() implies all_met(
                        w.dir,
                        #[trigger] w.stack[i].headers,
                        w.stack[i].next,
                        w.found,
                    ) by {
                        if i == t {
                            assert(all_met(v.dir, f.headers, f.next, v.found));
                        } else {
                            assert(w.stack[i] == v.stack[i]);
                        }
                    }
                    assert forall|k: int| 0 <= k < w.fed.len() implies all_met(
                        w.dir,
                        #[trigger] w.fed[k].1,
                        w.fed[k].1.len() as int,
                        w.found,
                    ) || exists|i: int| 0 <= i < w.stack.len() && w.stack[i].fed == k by {
                        if !all_met(v.dir, v.fed[k].1, v.fed[k].1.len() as int, v.found) {
                            let i = choose|i: int| 0 <= i < v.stack.len() && v.stack[i].fed == k;
                            assert(w.stack[i].fed == k);
                        }
                    }
                },
            }
        } else {
            assert(w.stack == v.stack.drop_last());
            assert(w.deps == v.deps.push(f.path));
            assert(waited(v) =~= Seq::<Seq<char>>::empty());
            assert(waited(w) =~= Seq::<Seq<char>>::empty());
            assert(all_met(v.dir, f.headers, f.headers.len() as int, v.found));
            assert(v.fed[f.fed] == (f.path, f.headers));
            if t == 0 {
                assert(settled(w) =~= v.deps);
                assert(open_files(v) =~= Seq::<Seq<char>>::empty());
                assert(open_files(w) =~= Seq::<Seq<char>>::empty());
                assert forall|k: int| 0 <= k < w.fed.len() implies all_met(
                    w.dir,
                    #[trigger] w.fed[k].1,
                    w.fed[k].1.len() as int,
                    w.found,
                ) || exists|i: int| 0 <= i < w.stack.len() && w.stack[i].fed == k by {
                    if !all_met(v.dir, v.fed[k].1, v.fed[k].1.len() as int, v.found) {
                        let i = choose|i: int| 0 <= i < v.stack.len() && v.stack[i].fed == k;
                        assert(i == 0);
                    }
                }
                assert forall|d: Seq<char>| #[trigger] w.deps.contains(d) implies exists|k: int|
                    0 <= k < w.fed.len() && w.fed[k].0 == d by {
                    if d == f.path {
                        assert(w.fed[f.fed].0 == d);
                    } else {
                        assert(v.deps.contains(d));
                    }
                }
            } else {
                assert(settled(w) =~= v.deps.push(f.path));
                assert(frame_paths(v.stack).last() == f.path);
                assert(open_files(w) =~= open_files(v).drop_last());
                assert(open_files(v) =~= open_files(w).push(f.path));
                assert(open_files(v).contains(f.path));
                lemma_push_no_dup(v.deps, f.path);
                assert forall|x: Seq<char>| #[trigger] w.found.contains(x) <==> settled(w).contains(x)
                    || open_files(w).contains(x) || waited(w).contains(x) by {
                    assert(open_files(v).contains(x) <==> open_files(w).contains(x) || x == f.path);
                }
                assert forall|x: Seq<char>| settled(w).contains(x) implies !open_files(w).contains(x) by {
                    if x == f.path {
                        let k = open_files(v).len() - 1;
                        if open_files(w).contains(x) {
                            let j = choose|j: int| 0 <= j < open_files(w).len() && open_files(w)[j] == x;
                            assert(open_files(v)[j] == open_files(v)[k]);
                        }
                    } else {
                        assert(open_files(w).contains(x) ==> open_files(v).contains(x));
                    }
                }
                assert forall|i: int|
                    0 <= i < w.stack.len() implies all_met(
                    w.dir,
                    #[trigger] w.stack[i].headers,
                    w.stack[i].next,
                    w.found,
                ) by {
                    assert(w.stack[i] == v.stack[i]);
                }
                assert forall|k: int| 0 <= k < w.fed.len() implies all_met(
                    w.dir,
                    #[trigger] w.fed[k].1,
                    w.fed[k].1.len() as int,
                    w.found,
                ) || exists|i: int| 0 <= i < w.stack.len() && w.stack[i].fed == k by {
                    if !all_met(v.dir, v.fed[k].1, v.fed[k].1.len() as int, v.found) {
                        let i = choose|i: int| 0 <= i < v.stack.len() && v.stack[i].fed == k;
                        if i == t {
                        } else {
                            assert(w.stack[i].fed == k);
                        }
                    }
                }
                assert forall|d: Seq<char>| #[trigger] w.deps.contains(d) implies exists|k: int|
                    0 <= k < w.fed.len() && w.fed[k].0 == d by {
                    if d == f.path {
                        assert(w.fed[f.fed].0 == d);
                    } else {
                        assert(v.deps.contains(d));
                    }
                }
            }
        }
    }
}

/// Running a consistent walk until it stops keeps it consistent.
pub proof fn lemma_run_wf(v: WalkView)
    requires
        wf(v),
    ensures
        wf(run(v)),
        stopped(run(v)),
    decreases v.stack.len(), top_left(v),
{
    if !stopped(v) {
        lemma_tick_wf(v);
        lemma_run_wf(tick(v));
    }
}

/// A complete walk bundles the root last and every other file at most once,
/// and every project header named by a file it was handed is bundled.
pub proof fn lemma_done(v: WalkView)
    requires
        wf(v),
        v.done,
    ensures
        v.deps.len() >= 1,
        v.deps.last() == v.root,
        v.deps.drop_last().no_duplicates(),
        forall|k: int, m: int|
            0 <= k < v.fed.len() && 0 <= m < v.fed[k].1.len() ==> match #[trigger] resolve_header(
                v.dir,
                v.fed[k].1[m],
            ) {
                Some(s) => v.deps.contains(s),
                None => true,
            },
        forall|d: Seq<char>| #[trigger] v.deps.contains(d) ==> exists|k: int| 0 <= k < v.fed.len() && v.fed[k].0 == d,
{
    assert(open_files(v) =~= Seq::<Seq<char>>::empty());
    assert(waited(v) =~= Seq::<Seq<char>>::empty());
    assert forall|k: int, m: int|
        0 <= k < v.fed.len() && 0 <= m < v.fed[k].1.len() implies match #[trigger] resolve_header(
        v.dir,
        v.fed[k].1[m],
    ) {
        Some(s) => v.deps.contains(s),
        None => true,
    } by {
        assert(all_met(v.dir, v.fed[k].1, v.fed[k].1.len() as int, v.found));
        match resolve_header(v.dir, v.fed[k].1[m]) {
            Some(s) => {
                assert(v.found.contains(s));
                assert(v.deps.drop_last().contains(s));
                let j = choose|j: int| 0 <= j < v.deps.drop_last().len() && v.deps.drop_last()[j] == s;
                assert(v.deps[j] == s);
            },
            None => {},
        }
    }
}

/// The text of each pair of strings.
pub open spec fn pair_views(v: Seq<(String, String)>) -> Seq<(Seq<char>, Seq<char>)> {
    v.map_values(|p: (String, String)| (p.0@, p.1@))
}

/// The header prefixes with the directory each resolves under.
pub fn get_replace_headers(project_dir: &str) -> (r: Vec<(String, String)>)
    ensures
        pair_views(r@) == replace_headers(project_dir@),
{
    let dir = string_of(&chars_of(project_dir));
    let dir2 = string_of(&chars_of(project_dir));
    let mut r: Vec<(String, String)> = Vec::new();
    r.push((string_of(&chars_of("inner/")), dir));
    r.push((string_of(&chars_of("atcoder/")), dir2));
    assert(pair_views(r@) =~= replace_headers(project_dir@));
    r
}

fn resolve_exec(pairs: &Vec<(String, String)>, h: &String) -> (r: Option<String>)
    ensures
        r matches Some(s) ==> resolve_in(pair_views(pairs@), h@) == Some(s@),
        r is None ==> resolve_in(pair_views(pairs@), h@) is None,
{
    let ghost pv = pair_views(pairs@);
    let hc = chars_of(h.as_str());
    let mut i: usize = 0;
    while i < pairs.len()
        invariant
            i <= pairs.len(),
            pv == pair_views(pairs@),
            hc@ == h@,
            resolve_in(pv, h@) == resolve_in(pv.skip(i as int), h@),
        decreases pairs.len() - i,
    {
        assert(pv.skip(i as int)[0] == pv[i as int]);
        assert(pv.skip(i as int).drop_first() =~= pv.skip(i + 1));
        let pc = chars_of(pairs[i].0.as_str());
        if matches_at_exec(&hc, &pc, 0) {
            let mut out = chars_of(pairs[i].1.as_str());
            out.push('/');
            append_chars(&mut out, &hc);
            return Some(string_of(&out));
        }
        i = i + 1;
    }
    assert(pv.skip(i as int) =~= Seq::<(Seq<char>, Seq<char>)>::empty());
    None
}

fn copy_strings(v: &Vec<String>) -> (r: Vec<String>)
    ensures
        strs(r@) == strs(v@),
{
    let mut r: Vec<String> = Vec::new();
    let mut i: usize = 0;
    while i < v.len()
        invariant
            i <= v.len(),
            strs(r@) == strs(v@).take(i as int),
        decreases v.len() - i,
    {
        let c = v[i].clone();
        assert(c@ == strs(v@)[i as int]);
        let ghost prev = r@;
        r.push(c);
        assert(strs(r@) =~= strs(prev).push(c@));
        assert(strs(v@).take(i + 1) =~= strs(v@).take(i as int).push(strs(v@)[i as int]));
        i = i + 1;
    }
    assert(strs(v@).take(v.len() as int) =~= strs(v@));
    r
}

fn contains_string(v: &Vec<String>, x: &String) -> (r: bool)
    ensures
        r == strs(v@).contains(x@),
{
    let mut i: usize = 0;
    while i < v.len()
        invariant
            i <= v.len(),
            forall|j: int| 0 <= j < i ==> strs(v@)[j] != x@,
        decreases v.len() - i,
    {
        if v[i] == *x {
            assert(strs(v@)[i as int] == x@);
            return true;
        }
        i = i + 1;
    }
    false
}

/// What a walk needs next.
#[derive(Debug, Clone, PartialEq, Eq)]
pub enum WalkRequest {
    /// The quoted headers of this file, in order.
    Headers(String),
    /// Nothing more: the walk is complete.
    Done,
}

/// The walk over the quoted includes of one solution file.
pub struct ContextInner {
    project_dir: String,
    pairs: Vec<(String, String)>,
    root: String,
    has_found: Vec<String>,
    all_deps: Vec<String>,
    paths: Vec<String>,
    headers: Vec<Vec<String>>,
    nexts: Vec<usize>,
    waiting: Option<String>,
    done: bool,
    fed_idx: Ghost<Seq<int>>,
    fed: Ghost<Seq<(Seq<char>, Seq<Seq<char>>)>>,
}

impl View for ContextInner {
    type V = WalkView;

    closed spec fn view(&self) -> WalkView {
        WalkView {
            dir: self.project_dir@,
            root: self.root@,
            found: strs(self.has_found@),
            deps: strs(self.all_deps@),
            stack: Seq::new(
                self.paths@.len(),
                |i: int|
                    FrameView {
                        path: self.paths@[i]@,
                        headers: strs(self.headers@[i]@),
                        next: self.nexts@[i] as int,
                        fed: self.fed_idx@[i],
                    },
            ),
            waiting: match self.waiting {
                Some(p) => Some(p@),
                None => None,
            },
            done: self.done,
            fed: self.fed@,
        }
    }
}

impl ContextInner {
    /// The walk is consistent and waits for headers, or is complete.
    pub closed spec fn inv(&self) -> bool {
        &&& self.headers@.len() == self.paths@.len()
        &&& self.nexts@.len() == self.paths@.len()
        &&& self.fed_idx@.len() == self.paths@.len()
        &&& pair_views(self.pairs@) == replace_headers(self.project_dir@)
        &&& wf(self@)
        &&& stopped(self@)
    }

    /// A walk at rest is consistent, and stopped.
    pub proof fn lemma_inv(&self)
        requires
            self.inv(),
        ensures
            wf(self@),
            stopped(self@),
    {
    }

    /// A walk over the includes of `root`, whose project headers live under
    /// `project_dir`; it first asks for the headers of `root`.
    pub fn new(project_dir: &str, root: &str) -> (r: Self)
        ensures
            r.inv(),
            r@ == start(project_dir@, root@),
    {
        let r = ContextInner {
            project_dir: string_of(&chars_of(project_dir)),
            pairs: get_replace_headers(project_dir),
            root: string_of(&chars_of(root)),
            has_found: Vec::new(),
            all_deps: Vec::new(),
            paths: Vec::new(),
            headers: Vec::new(),
            nexts: Vec::new(),
            waiting: Some(string_of(&chars_of(root))),
            done: false,
            fed_idx: Ghost(Seq::empty()),
            fed: Ghost(Seq::empty()),
        };
        proof {
            lemma_start_wf(project_dir@, root@);
            assert(r@.found =~= Seq::<Seq<char>>::empty());
            assert(r@.deps =~= Seq::<Seq<char>>::empty());
            assert(r@.stack =~= Seq::<FrameView>::empty());
            assert(r@ == start(project_dir@, root@));
        }
        r
    }

    /// The file whose headers the walk waits for.
    pub fn waiting(&self) -> (r: Option<String>)
        ensures
            r matches Some(p) ==> self@.waiting == Some(p@),
            r is None ==> self@.waiting is None,
    {
        match &self.waiting {
            Some(p) => Some(p.clone()),
            None => None,
        }
    }

    /// The walk is complete.
    pub fn is_done(&self) -> (r: bool)
        ensures
            r == self@.done,
    {
        self.done
    }

    /// The files whose walk is complete, in the order they completed: once the
    /// walk is done, the files to bundle, each after the headers it includes.
    pub fn all_deps(&self) -> (r: Vec<String>)
        ensures
            strs(r@) == self@.deps,
    {
        copy_strings(&self.all_deps)
    }

    /// Hands the walk the quoted headers of the file it waits for, and walks on
    /// until it needs the headers of a header file it has not met before, or
    /// until the root is complete. A walk that waits for nothing stays as it is.
    pub fn get_file_quote_deps_recusive(&mut self, headers: &Vec<String>) -> (r: WalkRequest)
        requires
            old(self).inv(),
        ensures
            final(self).inv(),
            final(self)@ == run(feed(old(self)@, strs(headers@))),
            r matches WalkRequest::Headers(p) ==> final(self)@.waiting == Some(p@),
            r is Done ==> final(self)@.waiting is None && final(self)@.done,
    {
        let p = match &self.waiting {
            Some(p) => p.clone(),
            None => {
                return WalkRequest::Done;
            },
        };
        let ghost v0 = self@;
        let ghost hs = strs(headers@);
        let ghost f = FrameView { path: p@, headers: hs, next: 0, fed: v0.fed.len() as int };
        self.paths.push(p);
        self.headers.push(copy_strings(headers));
        self.nexts.push(0);
        self.fed_idx = Ghost(self.fed_idx@.push(v0.fed.len() as int));
        self.fed = Ghost(self.fed@.push((p@, hs)));
        self.waiting = None;
        proof {
            assert(self@.stack =~= v0.stack.push(f));
            assert(self@ == feed(v0, hs));
            lemma_feed_wf(v0, hs);
        }
        loop
            invariant
                self.headers@.len() == self.paths@.len(),
                self.nexts@.len() == self.paths@.len(),
                self.fed_idx@.len() == self.paths@.len(),
                pair_views(self.pairs@) == replace_headers(self.project_dir@),
                wf(self@),
                self.waiting is None,
                self.paths@.len() > 0,
                run(self@) == run(feed(v0, hs)),
                v0 == old(self)@,
                hs == strs(headers@),
            decreases self@.stack.len(), top_left(self@),
        {
            let ghost before = self@;
            let t = self.paths.len() - 1;
            let n = self.nexts[t];
            assert(before.stack[t as int].next == n);
            assert(before.stack[t as int].headers == strs(self.headers@[t as int]@));
            if n < self.headers[t].len() {
                let x = self.headers[t][n].clone();
                self.nexts.set(t, n + 1);
                let ghost stepped = WalkView {
                    stack: before.stack.update(t as int, FrameView { next: n + 1, ..before.stack[t as int] }),
                    ..before
                };
                assert(self@.stack =~= stepped.stack);
                match resolve_exec(&self.pairs, &x) {
                    Some(sub) => {
                        if !contains_string(&self.has_found, &sub) {
                            self.has_found.push(sub.clone());
                            self.waiting = Some(sub.clone());
                            proof {
                                assert(strs(self.has_found@) =~= before.found.push(sub@));
                                assert(self@ == tick(before));
                                lemma_tick_wf(before);
                                assert(run(before) == run(tick(before)));
                                assert(run(self@) == self@);
                            }
                            return WalkRequest::Headers(sub);
                        }
                        assert(self@ == tick(before));
                    },
                    None => {
                        assert(self@ == tick(before));
                    },
                }
                proof {
                    lemma_tick_wf(before);
                    assert(run(before) == run(tick(before)));
                }
            } else {
                let q = self.paths.pop().unwrap();
                self.headers.pop();
                self.nexts.pop();
                self.fed_idx = Ghost(self.fed_idx@.drop_last());
                self.all_deps.push(q);
                assert(strs(self.all_deps@) =~= before.deps.push(before.stack[t as int].path));
                if self.paths.len() == 0 {
                    self.done = true;
                    proof {
                        assert(self@.stack =~= before.stack.drop_last());
                        assert(self@ == tick(before));
                        lemma_tick_wf(before);
                        assert(run(before) == run(tick(before)));
                        assert(run(self@) == self@);
                    }
                    return WalkRequest::Done;
                }
                proof {
                    assert(self@.stack =~= before.stack.drop_last());
                    assert(self@ == tick(before));
                    lemma_tick_wf(before);
                    assert(run(before) == run(tick(before)));
                }
            }
        }
    }
}

} // verus!
