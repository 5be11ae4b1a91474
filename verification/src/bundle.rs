//! Bundling a solution and the headers it includes into one source file.

use vstd::prelude::*;

use crate::walk::{pair_views, run, feed, start, strs, ContextInner, WalkRequest};
use crate::text::{
    append_chars, append_str, chars_eq, chars_of, find_from, find_from_exec, lemma_find_from,
    lines, matches_at, matches_at_exec, split_lines, string_of,
};

verus! {

/// The quoted header that `(#include "([^"]*)")` captures when a match
/// starts at `i`.
pub open spec fn include_at(s: Seq<char>, i: int) -> Option<Seq<char>> {
    if !matches_at(s, "#include \""@, i) {
        None
    } else {
        let b = i + "#include \""@.len();
        match find_from(s, seq!['"'], b) {
            Some(q) => Some(s.subrange(b, q)),
            None => None,
        }
    }
}

/// The quoted header of the leftmost `#include "…"` at or after `i`.
pub open spec fn include_from(s: Seq<char>, i: int) -> Option<Seq<char>>
    decreases s.len() + 1 - i,
{
    if i < 0 || i > s.len() {
        None
    } else if include_at(s, i) is Some {
        include_at(s, i)
    } else {
        include_from(s, i + 1)
    }
}

/// The header a line includes with quotes, if any.
pub open spec fn quoted_include(line: Seq<char>) -> Option<Seq<char>> {
    include_from(line, 0)
}

fn subvec(s: &[char], a: usize, b: usize) -> (r: Vec<char>)
    requires
        a <= b <= s.len(),
    ensures
        r@ == s@.subrange(a as int, b as int),
{
    let mut r: Vec<char> = Vec::new();
    let mut k: usize = a;
    while k < b
        invariant
            a <= k <= b <= s.len(),
            r@ == s@.subrange(a as int, k as int),
        decreases b - k,
    {
        r.push(s[k]);
        k = k + 1;
        assert(r@ =~= s@.subrange(a as int, k as int));
    }
    r
}

fn include_at_exec(s: &[char], i: usize) -> (r: Option<(usize, usize)>)
    requires
        i <= s.len(),
    ensures
        r is None ==> include_at(s@, i as int) is None,
        r matches Some((a, b)) ==> a <= b <= s.len() && include_at(s@, i as int) == Some(
            s@.subrange(a as int, b as int),
        ),
{
    let key = chars_of("#include \"");
    if !matches_at_exec(s, &key, i) {
        return None;
    }
    let b = i + key.len();
    let mut quote: Vec<char> = Vec::new();
    quote.push('"');
    assert(quote@ =~= seq!['"']);
    match find_from_exec(s, &quote, b) {
        Some(q) => {
            proof {
                lemma_find_from(s@, seq!['"'], b as int);
            }
            Some((b, q))
        },
        None => None,
    }
}

/// The header a line includes with quotes, if any.
pub fn quoted_include_exec(line: &[char]) -> (r: Option<Vec<char>>)
    ensures
        r is None ==> quoted_include(line@) is None,
        r matches Some(h) ==> quoted_include(line@) == Some(h@),
{
    let mut i: usize = 0;
    loop
        invariant
            i <= line.len(),
            include_from(line@, 0) == include_from(line@, i as int),
        ensures
            include_from(line@, 0) is None,
        decreases line.len() - i,
    {
        match include_at_exec(line, i) {
            Some((a, b)) => {
                return Some(subvec(line, a, b));
            },
            None => {},
        }
        if i == line.len() {
            assert(include_from(line@, i + 1) is None);
            break ;
        }
        i = i + 1;
    }
    None
}

/// The quoted headers that the lines of a file include, in order.
pub open spec fn quote_deps_of_lines(ls: Seq<Seq<char>>) -> Seq<Seq<char>>
    decreases ls.len(),
{
    if ls.len() == 0 {
        Seq::empty()
    } else {
        quote_deps_of_lines(ls.drop_last()) + match quoted_include(ls.last()) {
            Some(h) => seq![h],
            None => Seq::empty(),
        }
    }
}

/// The quoted headers that a file includes, one per line at most, in order.
pub open spec fn quote_deps(file: Seq<char>) -> Seq<Seq<char>> {
    quote_deps_of_lines(lines(file))
}

/// The quoted headers that a file's text includes.
pub fn file_quote_dep_headers(file: &str) -> (r: Vec<String>)
    ensures
        r@.len() == quote_deps(file@).len(),
        forall|k: int| 0 <= k < r@.len() ==> (#[trigger] r@[k])@ == quote_deps(file@)[k],
{
    let s = chars_of(file);
    let ls = split_lines(&s);
    let ghost all = lines(s@);
    let mut r: Vec<String> = Vec::new();
    let mut i: usize = 0;
    while i < ls.len()
        invariant
            i <= ls.len() == all.len(),
            all == lines(s@),
            s@ == file@,
            forall|k: int| 0 <= k < ls.len() ==> (#[trigger] ls[k])@ == all[k],
            r@.len() == quote_deps_of_lines(all.take(i as int)).len(),
            forall|k: int|
                0 <= k < r@.len() ==> (#[trigger] r@[k])@ == quote_deps_of_lines(
                    all.take(i as int),
                )[k],
        decreases ls.len() - i,
    {
        let ghost pre = all.take(i as int);
        let ghost nxt = all.take(i + 1);
        assert(nxt.drop_last() =~= pre);
        assert(nxt.last() == ls[i as int]@);
        match quoted_include_exec(&ls[i]) {
            Some(h) => {
                r.push(string_of(&h));
            },
            None => {},
        }
        i = i + 1;
    }
    assert(all.take(ls.len() as int) =~= all);
    r
}

/// `s` ends with `p`.
pub open spec fn seq_ends_with(s: Seq<char>, p: Seq<char>) -> bool {
    p.len() <= s.len() && s.skip(s.len() - p.len()) == p
}

/// A line stays in the bundle unless it includes, with quotes, a header that
/// one of the bundled files' paths ends with.
pub open spec fn keeps_line(line: Seq<char>, deps: Seq<Seq<char>>) -> bool {
    match quoted_include(line) {
        Some(h) => !(exists|k: int| 0 <= k < deps.len() && seq_ends_with(#[trigger] deps[k], h)),
        None => true,
    }
}

/// The kept lines, each followed by a line feed.
pub open spec fn kept_lines(ls: Seq<Seq<char>>, deps: Seq<Seq<char>>) -> Seq<char>
    decreases ls.len(),
{
    if ls.len() == 0 {
        Seq::empty()
    } else {
        kept_lines(ls.drop_last(), deps) + if keeps_line(ls.last(), deps) {
            ls.last() + seq!['\n']
        } else {
            Seq::empty()
        }
    }
}

fn ends_with_exec(s: &[char], p: &[char]) -> (r: bool)
    ensures
        r == seq_ends_with(s@, p@),
{
    if p.len() > s.len() {
        return false;
    }
    let start = s.len() - p.len();
    let t = subvec(s, start, s.len());
    assert(t@ =~= s@.skip(start as int));
    chars_eq(&t, p)
}

/// The file's text with its quoted includes of bundled headers removed.
pub fn remove_bundled_includes(file: &str, deps: &Vec<String>) -> (r: String)
    ensures
        r@ == kept_lines(lines(file@), deps@.map_values(|d: String| d@)),
{
    let ghost dv = deps@.map_values(|d: String| d@);
    let s = chars_of(file);
    let ls = split_lines(&s);
    let ghost all = lines(s@);
    let mut dc: Vec<Vec<char>> = Vec::new();
    let mut j: usize = 0;
    while j < deps.len()
        invariant
            j <= deps.len(),
            dc.len() == j,
            dv == deps@.map_values(|d: String| d@),
            forall|k: int| 0 <= k < j ==> (#[trigger] dc[k])@ == dv[k],
        decreases deps.len() - j,
    {
        dc.push(chars_of(deps[j].as_str()));
        j = j + 1;
    }
    let mut out: Vec<char> = Vec::new();
    let mut i: usize = 0;
    while i < ls.len()
        invariant
            i <= ls.len() == all.len(),
            all == lines(s@),
            s@ == file@,
            dv == deps@.map_values(|d: String| d@),
            dc.len() == dv.len(),
            forall|k: int| 0 <= k < dc.len() ==> (#[trigger] dc[k])@ == dv[k],
            forall|k: int| 0 <= k < ls.len() ==> (#[trigger] ls[k])@ == all[k],
            out@ == kept_lines(all.take(i as int), dv),
        decreases ls.len() - i,
    {
        let ghost pre = all.take(i as int);
        let ghost nxt = all.take(i + 1);
        assert(nxt.drop_last() =~= pre);
        assert(nxt.last() == ls[i as int]@);
        let keep: bool = match quoted_include_exec(&ls[i]) {
            None => true,
            Some(h) => {
                let mut found = false;
                let mut k: usize = 0;
                while k < dc.len()
                    invariant
                        k <= dc.len() == dv.len(),
                        forall|m: int| 0 <= m < dc.len() ==> (#[trigger] dc[m])@ == dv[m],
                        found <==> exists|m: int| 0 <= m < k && seq_ends_with(#[trigger] dv[m], h@),
                    decreases dc.len() - k,
                {
                    if ends_with_exec(&dc[k], &h) {
                        found = true;
                    }
                    k = k + 1;
                }
                !found
            },
        };
        assert(keep == keeps_line(ls[i as int]@, dv));
        if keep {
            append_chars(&mut out, &ls[i]);
            out.push('\n');
        }
        i = i + 1;
    }
    assert(all.take(ls.len() as int) =~= all);
    string_of(&out)
}

/// Where the piece of `s` that starts at `i` ends: at the next `;`, or at
/// the end of `s`.
pub open spec fn piece_end(s: Seq<char>, i: int) -> int
    decreases s.len() - i,
{
    if i >= s.len() {
        s.len() as int
    } else if s[i] == ';' {
        i
    } else {
        piece_end(s, i + 1)
    }
}

proof fn lemma_piece_end(s: Seq<char>, i: int)
    requires
        0 <= i <= s.len(),
    ensures
        i <= piece_end(s, i) <= s.len(),
        piece_end(s, i) < s.len() ==> s[piece_end(s, i)] == ';',
        forall|j: int| i <= j < piece_end(s, i) ==> s[j] != ';',
    decreases s.len() - i,
{
    if i < s.len() && s[i] != ';' {
        lemma_piece_end(s, i + 1);
    }
}

/// The pieces of `s` from `i` on, between the `;` separators.
pub open spec fn pieces_from(s: Seq<char>, i: int) -> Seq<Seq<char>>
    decreases s.len() - i,
{
    if i < 0 || i > s.len() {
        Seq::empty()
    } else {
        let e = piece_end(s, i);
        if e >= s.len() || e < i {
            seq![s.subrange(i, s.len() as int)]
        } else {
            seq![s.subrange(i, e)] + pieces_from(s, e + 1)
        }
    }
}

/// `str::split(";")`: the pieces between the separators, empty ones
/// included; an empty string is one empty piece.
pub open spec fn split_semicolons(s: Seq<char>) -> Seq<Seq<char>> {
    pieces_from(s, 0)
}

/// `str::split(";")` on a string.
pub fn split_semicolons_exec(s: &str) -> (r: Vec<String>)
    ensures
        strs(r@) == split_semicolons(s@),
{
    let c = chars_of(s);
    let mut r: Vec<String> = Vec::new();
    let mut i: usize = 0;
    loop
        invariant
            i <= c.len(),
            c@ == s@,
            strs(r@) + pieces_from(c@, i as int) == split_semicolons(c@),
        decreases c.len() - i,
    {
        let ghost prev = r@;
        proof {
            lemma_piece_end(c@, i as int);
        }
        let mut e: usize = i;
        while e < c.len() && c[e] != ';'
            invariant
                i <= e <= c.len(),
                piece_end(c@, i as int) == piece_end(c@, e as int),
            decreases c.len() - e,
        {
            e = e + 1;
        }
        let mut piece: Vec<char> = Vec::new();
        let mut k: usize = i;
        while k < e
            invariant
                i <= k <= e <= c.len(),
                piece@ == c@.subrange(i as int, k as int),
            decreases e - k,
        {
            piece.push(c[k]);
            k = k + 1;
            assert(piece@ =~= c@.subrange(i as int, k as int));
        }
        r.push(string_of(&piece));
        assert(strs(r@) =~= strs(prev).push(piece@));
        if e >= c.len() {
            assert(pieces_from(c@, i as int) == seq![c@.subrange(i as int, c.len() as int)]);
            assert(strs(r@) =~= strs(prev) + pieces_from(c@, i as int));
            return r;
        }
        assert(pieces_from(c@, i as int) == seq![c@.subrange(i as int, e as int)] + pieces_from(
            c@,
            e + 1,
        ));
        assert(strs(r@) + pieces_from(c@, e + 1) =~= strs(prev) + pieces_from(c@, i as int));
        i = e + 1;
    }
}

/// The value the first entry with key `k` holds.
pub open spec fn lookup(s: Seq<(Seq<char>, Seq<char>)>, k: Seq<char>) -> Option<Seq<char>>
    decreases s.len(),
{
    if s.len() == 0 {
        None
    } else {
        match lookup(s.drop_last(), k) {
            Some(v) => Some(v),
            None => if s.last().0 == k {
                Some(s.last().1)
            } else {
                None
            },
        }
    }
}

proof fn lemma_lookup_prefix(s: Seq<(Seq<char>, Seq<char>)>, n: int, k: Seq<char>)
    requires
        0 <= n <= s.len(),
        lookup(s.take(n), k) is Some,
    ensures
        lookup(s, k) == lookup(s.take(n), k),
    decreases s.len() - n,
{
    if n < s.len() {
        assert(s.take(n + 1).drop_last() =~= s.take(n));
        lemma_lookup_prefix(s, n + 1, k);
    } else {
        assert(s.take(n) =~= s);
    }
}

/// Texts kept by path; the first text stored for a path is the one kept.
pub struct PathMap {
    entries: Vec<(String, String)>,
}

impl View for PathMap {
    type V = Seq<(Seq<char>, Seq<char>)>;

    closed spec fn view(&self) -> Seq<(Seq<char>, Seq<char>)> {
        pair_views(self.entries@)
    }
}

impl PathMap {
    /// No text kept.
    pub fn new() -> (r: Self)
        ensures
            r@ == Seq::<(Seq<char>, Seq<char>)>::empty(),
    {
        let r = PathMap { entries: Vec::new() };
        assert(r@ =~= Seq::<(Seq<char>, Seq<char>)>::empty());
        r
    }

    /// The text kept for `path`.
    pub fn get(&self, path: &str) -> (r: Option<String>)
        ensures
            r matches Some(t) ==> lookup(self@, path@) == Some(t@),
            r is None ==> lookup(self@, path@) is None,
    {
        let ghost s = self@;
        let mut i: usize = 0;
        while i < self.entries.len()
            invariant
                i <= self.entries.len(),
                s == self@,
                s.len() == self.entries.len(),
                lookup(s.take(i as int), path@) is None,
            decreases self.entries.len() - i,
        {
            assert(s.take(i + 1).drop_last() =~= s.take(i as int));
            assert(s[i as int] == (self.entries@[i as int].0@, self.entries@[i as int].1@));
            if chars_eq(&chars_of(self.entries[i].0.as_str()), &chars_of(path)) {
                proof {
                    lemma_lookup_prefix(s, i + 1, path@);
                }
                return Some(self.entries[i].1.clone());
            }
            i = i + 1;
        }
        assert(s.take(i as int) =~= s);
        None
    }
}

/// The memo behind every cache: the text kept for `path` if there is one;
/// else `h` computes it and it is kept.
pub fn get_or_insert<H: FnOnce() -> String>(inner: &mut PathMap, h: H, path: &str) -> (r: String)
    requires
        h.requires(()),
    ensures
        lookup(old(inner)@, path@) matches Some(t) ==> r@ == t && final(inner)@ == old(inner)@,
        lookup(old(inner)@, path@) is None ==> h.ensures((), r) && final(inner)@ == old(
            inner,
        )@.push((path@, r@)),
{
    match inner.get(path) {
        Some(t) => t,
        None => {
            let t = h();
            let k = string_of(&chars_of(path));
            let ghost prev = inner.entries@;
            inner.entries.push((k, t.clone()));
            assert(pair_views(inner.entries@) =~= pair_views(prev).push((path@, t@)));
            t
        },
    }
}

/// The mathematical value of a `Cache`.
pub struct CacheView {
    /// The text read for each file, by path.
    pub files: Seq<(Seq<char>, Seq<char>)>,
    /// The text to bundle for each file, by path.
    pub replaced: Seq<(Seq<char>, Seq<char>)>,
}

/// The cache after a file's text was read: the first text read for a path is
/// the one kept.
pub open spec fn store_file(c: CacheView, path: Seq<char>, text: Seq<char>) -> CacheView {
    if lookup(c.files, path) is Some {
        c
    } else {
        CacheView { files: c.files.push((path, text)), ..c }
    }
}

/// The text to bundle for a file: the one worked out the first time the file
/// was bundled, else its text without the quoted includes of `deps`; none if
/// the file was never read.
pub open spec fn replaced_for(c: CacheView, path: Seq<char>, deps: Seq<Seq<char>>) -> Option<
    Seq<char>,
> {
    match lookup(c.files, path) {
        None => None,
        Some(t) => match lookup(c.replaced, path) {
            Some(r) => Some(r),
            None => Some(kept_lines(lines(t), deps)),
        },
    }
}

/// The cache after the text to bundle for a file was worked out.
pub open spec fn after_replace(c: CacheView, path: Seq<char>, deps: Seq<Seq<char>>) -> CacheView {
    match lookup(c.files, path) {
        Some(t) => if lookup(c.replaced, path) is None {
            CacheView { replaced: c.replaced.push((path, kept_lines(lines(t), deps))), ..c }
        } else {
            c
        },
        None => c,
    }
}

/// The bundle of the files `ds`, each with the quoted includes of `deps`
/// removed, one after the other; and the cache after it.
pub open spec fn emit(c: CacheView, ds: Seq<Seq<char>>, deps: Seq<Seq<char>>) -> (Seq<char>, CacheView)
    decreases ds.len(),
{
    if ds.len() == 0 {
        (Seq::empty(), c)
    } else {
        let (out, c1) = emit(c, ds.drop_last(), deps);
        (
            out + match replaced_for(c1, ds.last(), deps) {
                Some(r) => r,
                None => Seq::empty(),
            },
            after_replace(c1, ds.last(), deps),
        )
    }
}

proof fn lemma_emit_files(c: CacheView, ds: Seq<Seq<char>>, deps: Seq<Seq<char>>)
    ensures
        emit(c, ds, deps).1.files == c.files,
    decreases ds.len(),
{
    if ds.len() > 0 {
        lemma_emit_files(c, ds.drop_last(), deps);
    }
}

/// What has been read and worked out for bundling, kept across targets.
pub struct Cache {
    file_except_some_def_map: PathMap,
    replace_header_with_file_content_map: PathMap,
}

impl View for Cache {
    type V = CacheView;

    closed spec fn view(&self) -> CacheView {
        CacheView {
            files: self.file_except_some_def_map@,
            replaced: self.replace_header_with_file_content_map@,
        }
    }
}

impl Cache {
    /// Nothing read yet.
    pub fn new() -> (r: Self)
        ensures
            r@.files == Seq::<(Seq<char>, Seq<char>)>::empty(),
            r@.replaced == Seq::<(Seq<char>, Seq<char>)>::empty(),
    {
        Cache {
            file_except_some_def_map: PathMap::new(),
            replace_header_with_file_content_map: PathMap::new(),
        }
    }

    /// The text read for a file.
    pub fn get_file_except_some_def(&self, path: &str) -> (r: Option<String>)
        ensures
            r matches Some(t) ==> lookup(self@.files, path@) == Some(t@),
            r is None ==> lookup(self@.files, path@) is None,
    {
        self.file_except_some_def_map.get(path)
    }

    /// Keeps the text read for a file, unless one is kept already; returns the
    /// text kept.
    pub fn store_file(&mut self, path: &str, text: String) -> (r: String)
        ensures
            final(self)@ == store_file(old(self)@, path@, text@),
            lookup(final(self)@.files, path@) == Some(r@),
    {
        let ghost t = text@;
        let read = (move || -> (o: String)
            ensures
                o@ == t,
        { text });
        let r = get_or_insert(&mut self.file_except_some_def_map, read, path);
        proof {
            let c = old(self)@;
            if lookup(c.files, path@) is None {
                let s = c.files.push((path@, t));
                assert(s.drop_last() =~= c.files);
            }
        }
        r
    }

    /// The quoted headers of a file that was read.
    pub fn get_file_quote_dep_headers(&self, path: &str) -> (r: Option<Vec<String>>)
        ensures
            r matches Some(h) ==> lookup(self@.files, path@) matches Some(t) && strs(h@) == quote_deps(t),
            r is None ==> lookup(self@.files, path@) is None,
    {
        match self.file_except_some_def_map.get(path) {
            Some(t) => {
                let h = file_quote_dep_headers(t.as_str());
                assert(strs(h@) =~= quote_deps(t@));
                Some(h)
            },
            None => None,
        }
    }

    /// The text to bundle for a file that was read: worked out the first time
    /// with the quoted includes of `deps` removed, and the same text every time
    /// after.
    pub fn replace_header_with_file_content(&mut self, path: &str, deps: &Vec<String>) -> (r: Option<String>)
        ensures
            r matches Some(t) ==> replaced_for(old(self)@, path@, strs(deps@)) == Some(t@),
            r is None ==> replaced_for(old(self)@, path@, strs(deps@)) is None,
            final(self)@ == after_replace(old(self)@, path@, strs(deps@)),
    {
        let file_str = match self.file_except_some_def_map.get(path) {
            Some(t) => t,
            None => {
                return None;
            },
        };
        let ghost dv = strs(deps@);
        assert(deps@.map_values(|d: String| d@) == dv);
        let work = (|| -> (o: String)
            ensures
                o@ == kept_lines(lines(file_str@), dv),
        { remove_bundled_includes(file_str.as_str(), deps) });
        let r = get_or_insert(&mut self.replace_header_with_file_content_map, work, path);
        proof {
            let c = old(self)@;
            if lookup(c.replaced, path@) is None {
                let s = c.replaced.push((path@, r@));
                assert(s.drop_last() =~= c.replaced);
            }
        }
        Some(r)
    }
}

impl Default for Cache {
    fn default() -> (r: Self)
        ensures
            r@.files == Seq::<(Seq<char>, Seq<char>)>::empty(),
            r@.replaced == Seq::<(Seq<char>, Seq<char>)>::empty(),
    {
        Cache::new()
    }
}

/// The mathematical value of a `BundlerContext`.
pub struct BundlerView {
    /// The directory the project's headers live under.
    pub project_dir: Seq<char>,
    /// The directory the bundles go to.
    pub out_dir: Seq<char>,
    /// The solution files, separated by `;`.
    pub main_source: Seq<char>,
    /// The name of each solution's bundle, separated by `;`.
    pub executable_list: Seq<char>,
    pub cache: CacheView,
}

/// Where the bundle of executable `exec` goes.
pub open spec fn target_file(out_dir: Seq<char>, exec: Seq<char>) -> Seq<char> {
    out_dir + seq!['/'] + exec + seq!['.', 'c', 'c']
}

/// Bundles each solution with the project headers it includes into one
/// source file.
pub struct BundlerContext {
    project_dir: String,
    bundle_out_dir: String,
    main_source: String,
    executable_list: String,
    cache: Cache,
}

impl View for BundlerContext {
    type V = BundlerView;

    closed spec fn view(&self) -> BundlerView {
        BundlerView {
            project_dir: self.project_dir@,
            out_dir: self.bundle_out_dir@,
            main_source: self.main_source@,
            executable_list: self.executable_list@,
            cache: self.cache@,
        }
    }
}

/// There are as many solution files as bundle names.
pub open spec fn lists_agree(v: BundlerView) -> bool {
    split_semicolons(v.main_source).len() == split_semicolons(v.executable_list).len()
}

impl BundlerContext {
    /// A bundler for the given project layout, with nothing read yet.
    pub fn new(project_dir: &str, bundle_out_dir: &str, main_source: &str, executable_list: &str) -> (r: Self)
        ensures
            r@.project_dir == project_dir@,
            r@.out_dir == bundle_out_dir@,
            r@.main_source == main_source@,
            r@.executable_list == executable_list@,
            r@.cache.files == Seq::<(Seq<char>, Seq<char>)>::empty(),
            r@.cache.replaced == Seq::<(Seq<char>, Seq<char>)>::empty(),
    {
        BundlerContext {
            project_dir: string_of(&chars_of(project_dir)),
            bundle_out_dir: string_of(&chars_of(bundle_out_dir)),
            main_source: string_of(&chars_of(main_source)),
            executable_list: string_of(&chars_of(executable_list)),
            cache: Cache::new(),
        }
    }

    /// There are as many solution files as bundle names.
    pub fn lists_agree(&self) -> (r: bool)
        ensures
            r == lists_agree(self@),
    {
        split_semicolons_exec(self.main_source.as_str()).len() == split_semicolons_exec(
            self.executable_list.as_str(),
        ).len()
    }

    /// Where the bundle of `exec` goes.
    pub fn target_file(&self, exec: &str) -> (r: String)
        ensures
            r@ == target_file(self@.out_dir, exec@),
    {
        let mut out = chars_of(self.bundle_out_dir.as_str());
        out.push('/');
        append_str(&mut out, exec);
        out.push('.');
        out.push('c');
        out.push('c');
        string_of(&out)
    }

    /// The bundle files to remove before bundling anew, one per bundle name.
    pub fn clear_all(&self) -> (r: Vec<String>)
        requires
            lists_agree(self@),
        ensures
            r@.len() == split_semicolons(self@.executable_list).len(),
            forall|i: int|
                0 <= i < r@.len() ==> (#[trigger] r@[i])@ == target_file(
                    self@.out_dir,
                    split_semicolons(self@.executable_list)[i],
                ),
    {
        let execs = split_semicolons_exec(self.executable_list.as_str());
        let mut r: Vec<String> = Vec::new();
        let mut i: usize = 0;
        while i < execs.len()
            invariant
                i <= execs.len(),
                strs(execs@) == split_semicolons(self@.executable_list),
                r@.len() == i,
                forall|j: int|
                    0 <= j < i ==> (#[trigger] r@[j])@ == target_file(self@.out_dir, strs(execs@)[j]),
            decreases execs.len() - i,
        {
            r.push(self.target_file(execs[i].as_str()));
            i = i + 1;
        }
        r
    }

    /// The bundles to make, in order: each bundle file with the solution file
    /// it bundles.
    pub fn bundle_all(&self) -> (r: Vec<(String, String)>)
        requires
            lists_agree(self@),
        ensures
            r@.len() == split_semicolons(self@.main_source).len(),
            forall|i: int|
                0 <= i < r@.len() ==> (#[trigger] r@[i]).0@ == target_file(
                    self@.out_dir,
                    split_semicolons(self@.executable_list)[i],
                ) && r@[i].1@ == split_semicolons(self@.main_source)[i],
    {
        let sources = split_semicolons_exec(self.main_source.as_str());
        let execs = split_semicolons_exec(self.executable_list.as_str());
        let mut r: Vec<(String, String)> = Vec::new();
        let mut i: usize = 0;
        while i < sources.len()
            invariant
                i <= sources.len() == execs.len(),
                strs(sources@) == split_semicolons(self@.main_source),
                strs(execs@) == split_semicolons(self@.executable_list),
                r@.len() == i,
                forall|j: int|
                    0 <= j < i ==> (#[trigger] r@[j]).0@ == target_file(self@.out_dir, strs(execs@)[j])
                        && r@[j].1@ == strs(sources@)[j],
            decreases sources.len() - i,
        {
            let t = self.target_file(execs[i].as_str());
            let src = sources[i].clone();
            r.push((t, src));
            i = i + 1;
        }
        r
    }

    /// The text read for a file, if it was read before.
    pub fn cached_text(&self, path: &str) -> (r: Option<String>)
        ensures
            r matches Some(t) ==> lookup(self@.cache.files, path@) == Some(t@),
            r is None ==> lookup(self@.cache.files, path@) is None,
    {
        self.cache.get_file_except_some_def(path)
    }

    /// The walk over the includes of one solution file.
    pub fn bundle_target(&self, source: &str) -> (r: ContextInner)
        ensures
            r.inv(),
            r@ == start(self@.project_dir, source@),
    {
        ContextInner::new(self.project_dir.as_str(), source)
    }

    /// Hands the walk the text of the file it waits for: the first text read
    /// for that path is kept, and the walk goes on with its quoted headers.
    pub fn feed_file(&mut self, walk: &mut ContextInner, text: String) -> (r: WalkRequest)
        requires
            old(walk).inv(),
        ensures
            final(walk).inv(),
            old(walk)@.waiting is None ==> final(walk)@ == old(walk)@ && final(self)@ == old(self)@,
            old(walk)@.waiting matches Some(p) ==> {
                let c = store_file(old(self)@.cache, p, text@);
                &&& final(self)@ == BundlerView { cache: c, ..old(self)@ }
                &&& lookup(c.files, p) matches Some(t)
                &&& final(walk)@ == run(feed(old(walk)@, quote_deps(t)))
            },
            r matches WalkRequest::Headers(q) ==> final(walk)@.waiting == Some(q@),
            r is Done ==> final(walk)@.waiting is None && final(walk)@.done,
    {
        let p = match walk.waiting() {
            Some(p) => p,
            None => {
                proof {
                    walk.lemma_inv();
                }
                return WalkRequest::Done;
            },
        };
        let kept = self.cache.store_file(p.as_str(), text);
        let headers = file_quote_dep_headers(kept.as_str());
        assert(strs(headers@) =~= quote_deps(kept@));
        walk.get_file_quote_deps_recusive(&headers)
    }

    /// The bundle of the files `deps`, in order, each with the quoted includes
    /// of any of `deps` removed; `None`, with nothing changed, when one of them
    /// was never read.
    pub fn target_text(&mut self, deps: &Vec<String>) -> (r: Option<String>)
        ensures
            (forall|k: int| 0 <= k < deps@.len() ==> lookup(old(self)@.cache.files, #[trigger] strs(deps@)[k]) is Some) ==> {
                let (out, c) = emit(old(self)@.cache, strs(deps@), strs(deps@));
                &&& r matches Some(t) && t@ == out
                &&& final(self)@ == BundlerView { cache: c, ..old(self)@ }
            },
            !(forall|k: int| 0 <= k < deps@.len() ==> lookup(old(self)@.cache.files, #[trigger] strs(deps@)[k]) is Some) ==> r is None && final(self)@ == old(self)@,
    {
        let ghost dv = strs(deps@);
        let mut k: usize = 0;
        while k < deps.len()
            invariant
                k <= deps.len(),
                dv == strs(deps@),
                forall|j: int| 0 <= j < k ==> lookup(self@.cache.files, #[trigger] dv[j]) is Some,
                self@ == old(self)@,
            decreases deps.len() - k,
        {
            assert(dv[k as int] == deps@[k as int]@);
            match self.cache.get_file_except_some_def(deps[k].as_str()) {
                Some(_) => {},
                None => {
                    return None;
                },
            }
            k = k + 1;
        }
        let ghost c0 = self@.cache;
        let mut out: Vec<char> = Vec::new();
        let mut i: usize = 0;
        while i < deps.len()
            invariant
                i <= deps.len(),
                dv == strs(deps@),
                forall|j: int| 0 <= j < deps@.len() ==> lookup(c0.files, #[trigger] dv[j]) is Some,
                (out@, self@.cache) == emit(c0, dv.take(i as int), dv),
                self@.project_dir == old(self)@.project_dir,
                self@.out_dir == old(self)@.out_dir,
                self@.main_source == old(self)@.main_source,
                self@.executable_list == old(self)@.executable_list,
            decreases deps.len() - i,
        {
            proof {
                assert(dv.take(i + 1).drop_last() =~= dv.take(i as int));
                lemma_emit_files(c0, dv.take(i as int), dv);
                assert(lookup(c0.files, dv[i as int]) is Some);
            }
            let piece = self.cache.replace_header_with_file_content(deps[i].as_str(), deps);
            match piece {
                Some(t) => {
                    append_str(&mut out, t.as_str());
                },
                None => {},
            }
            i = i + 1;
        }
        assert(dv.take(deps.len() as int) =~= dv);
        Some(string_of(&out))
    }
}

proof fn lemma_lookup_push(s: Seq<(Seq<char>, Seq<char>)>, e: (Seq<char>, Seq<char>), k: Seq<char>)
    ensures
        lookup(s.push(e), k) == match lookup(s, k) {
            Some(v) => Some(v),
            None => if e.0 == k {
                Some(e.1)
            } else {
                None
            },
        },
{
    assert(s.push(e).drop_last() =~= s);
}

/// The text to bundle for a file is worked out once: whatever includes later
/// targets bundle, they get the text of the first time.
pub proof fn lemma_replaced_sticks(c: CacheView, path: Seq<char>, first: Seq<Seq<char>>, later: Seq<Seq<char>>)
    ensures
        replaced_for(after_replace(c, path, first), path, later) == replaced_for(c, path, first),
        after_replace(after_replace(c, path, first), path, later) == after_replace(c, path, first),
{
    let c1 = after_replace(c, path, first);
    if lookup(c.files, path) is Some && lookup(c.replaced, path) is None {
        let t = lookup(c.files, path).unwrap();
        lemma_lookup_push(c.replaced, (path, kept_lines(lines(t), first)), path);
    }
}

/// The first text read for a file is the one kept: reading it again changes
/// nothing.
pub proof fn lemma_first_text_kept(c: CacheView, path: Seq<char>, first: Seq<char>, later: Seq<char>)
    ensures
        store_file(store_file(c, path, first), path, later) == store_file(c, path, first),
        lookup(store_file(c, path, first).files, path) is Some,
{
    if lookup(c.files, path) is None {
        lemma_lookup_push(c.files, (path, first), path);
    }
}

} // verus!
