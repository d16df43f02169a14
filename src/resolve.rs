//! Mapping an import specifier to a file path: relative specifiers against
//! the importing file's directory, bare ones through a `node_modules`
//! package search. The filesystem is asked by the caller: these functions
//! say which paths to try and decide from the answers.
use vstd::prelude::*;
use crate::text::{
    append_chars, chars_of, occurs_at, occurs_here, copy_range, ends_with, find_at, find_from, has_prefix, join_chars,
    join_with, lemma_pieces_nonempty, lines, pieces, same_chars, split_lines, split_on, starts_with,
    string_from, trim, trimmed, views,
};

verus! {

pub open spec fn dot() -> Seq<char> {
    seq!['.']
}

/// A relative specifier starts with `./` or `../`.
pub open spec fn is_relative_specifier(s: Seq<char>) -> bool {
    starts_with(s, seq!['.', '/']) || starts_with(s, seq!['.', '.', '/'])
}

/// The segments of a path with one more segment added: `.` and empty
/// segments change nothing; every other segment, `..` included, is kept, so
/// that `..` is left for the filesystem to follow.
pub open spec fn push_segment(segs: Seq<Seq<char>>, seg: Seq<char>) -> Seq<Seq<char>> {
    if seg == dot() || seg.len() == 0 {
        segs
    } else {
        segs.push(seg)
    }
}

pub open spec fn push_all(segs: Seq<Seq<char>>, ps: Seq<Seq<char>>) -> Seq<Seq<char>>
    decreases ps.len(),
{
    if ps.len() == 0 {
        segs
    } else {
        push_segment(push_all(segs, ps.drop_last()), ps.last())
    }
}

/// An absolute path starts from the root, marked by one empty segment.
pub open spec fn root_of(p: Seq<char>) -> Seq<Seq<char>> {
    if p.len() > 0 && p[0] == '/' {
        seq![Seq::empty()]
    } else {
        Seq::empty()
    }
}

/// The segments of a path, without `.` and empty segments.
pub open spec fn path_segments(p: Seq<char>) -> Seq<Seq<char>> {
    push_all(root_of(p), pieces(p, '/'))
}

/// The segments of the directory that holds the file `base`.
pub open spec fn dir_segments(base: Seq<char>) -> Seq<Seq<char>> {
    push_all(root_of(base), pieces(base, '/').drop_last())
}

/// The path that the segments name.
pub open spec fn path_text(segs: Seq<Seq<char>>) -> Seq<char> {
    if segs.len() == 1 && segs[0].len() == 0 {
        seq!['/']
    } else {
        join_with(segs, '/')
    }
}

/// The directory that holds the file `base`.
pub open spec fn parent_of(base: Seq<char>) -> Seq<char> {
    path_text(dir_segments(base))
}

/// The path that a relative specifier names, seen from the file `base`.
pub open spec fn relative_target(base: Seq<char>, specifier: Seq<char>) -> Seq<char> {
    path_text(push_all(dir_segments(base), pieces(specifier, '/')))
}

pub open spec fn node_modules_seg() -> Seq<char> {
    seq!['n', 'o', 'd', 'e', '_', 'm', 'o', 'd', 'u', 'l', 'e', 's']
}

/// The lowest ancestor that the search reaches: the root of an absolute
/// path, the empty prefix of a relative one.
pub open spec fn search_floor(segs: Seq<Seq<char>>) -> int {
    if segs.len() > 0 && segs[0].len() == 0 {
        1
    } else {
        0
    }
}

/// `node_modules` under each prefix of `segs` of length `k` down to the floor.
pub open spec fn node_modules_from(segs: Seq<Seq<char>>, k: int) -> Seq<Seq<char>>
    decreases k + 1,
{
    if k < search_floor(segs) || k > segs.len() {
        Seq::empty()
    } else {
        seq![join_with(segs.take(k).push(node_modules_seg()), '/')] + node_modules_from(
            segs,
            k - 1,
        )
    }
}

/// The `node_modules` directories to look for, nearest first: in `dir`, then
/// in each of its ancestors up to the root.
pub open spec fn node_modules_dirs(dir: Seq<char>) -> Seq<Seq<char>> {
    node_modules_from(path_segments(dir), path_segments(dir).len() as int)
}

/// `rel` under the directory `dir`; an absolute `rel` (one that starts with
/// `/`) stands for itself, as with `Path::join`.
pub open spec fn join_path(dir: Seq<char>, rel: Seq<char>) -> Seq<char> {
    if rel.len() > 0 && rel[0] == '/' {
        rel
    } else {
        dir + seq!['/'] + rel
    }
}

pub open spec fn js_ext() -> Seq<char> {
    seq!['.', 'j', 's']
}

/// The package that a bare specifier names: its text up to the first `/`.
pub open spec fn package_name(s: Seq<char>) -> Seq<char> {
    match find_from(s, seq!['/'], 0) {
        Some(k) => s.take(k),
        None => s,
    }
}

/// The path inside the package that a bare specifier names, if any: its text
/// after the first `/`.
pub open spec fn package_subpath(s: Seq<char>) -> Option<Seq<char>> {
    match find_from(s, seq!['/'], 0) {
        Some(k) => Some(s.skip(k + 1)),
        None => None,
    }
}

/// The files that the load step tries for a resolved path: the path itself,
/// then with `.js` appended.
pub open spec fn module_candidates(p: Seq<char>) -> Seq<Seq<char>> {
    seq![p, p + js_ext()]
}

/// The first candidate reported present.
pub open spec fn first_present(cands: Seq<Seq<char>>, present: Seq<bool>) -> Option<Seq<char>>
    decreases cands.len(),
{
    if cands.len() == 0 || present.len() == 0 {
        None
    } else if present[0] {
        Some(cands[0])
    } else {
        first_present(cands.drop_first(), present.drop_first())
    }
}

} // verus!

verus! {

pub open spec fn is_quote(c: char) -> bool {
    c == '"' || c == '\''
}

pub open spec fn strip_quotes_start(s: Seq<char>) -> Seq<char>
    decreases s.len(),
{
    if s.len() > 0 && is_quote(s[0]) {
        strip_quotes_start(s.drop_first())
    } else {
        s
    }
}

pub open spec fn strip_quotes_end(s: Seq<char>) -> Seq<char>
    decreases s.len(),
{
    if s.len() > 0 && is_quote(s.last()) {
        strip_quotes_end(s.drop_last())
    } else {
        s
    }
}

/// `s` without quote characters at either end.
pub open spec fn unquoted(s: Seq<char>) -> Seq<char> {
    strip_quotes_end(strip_quotes_start(s))
}

/// `"main"`
pub open spec fn main_key_dq() -> Seq<char> {
    seq!['"', 'm', 'a', 'i', 'n', '"']
}

/// `'main'`
pub open spec fn main_key_sq() -> Seq<char> {
    seq!['\'', 'm', 'a', 'i', 'n', '\'']
}

/// Whether the `main` key, quoted either way, stands at position `k` of `t`
/// with a `:` after it.
pub open spec fn main_key_at(t: Seq<char>, k: int) -> bool {
    (occurs_at(t, main_key_dq(), k) || occurs_at(t, main_key_sq(), k)) && trim(t.skip(k + 6)).len()
        > 0 && trim(t.skip(k + 6))[0] == ':'
}

/// The first position at or after `k` where the `main` key stands.
pub open spec fn main_key_from(t: Seq<char>, k: int) -> Option<int>
    decreases t.len() + 1 - k,
{
    if k < 0 || k > t.len() {
        None
    } else if main_key_at(t, k) {
        Some(k)
    } else {
        main_key_from(t, k + 1)
    }
}

/// The text of `a` before its first `,` or `}`.
pub open spec fn before_delimiter(a: Seq<char>) -> Seq<char>
    decreases a.len(),
{
    if a.len() == 0 || a[0] == ',' || a[0] == '}' {
        Seq::empty()
    } else {
        seq![a[0]] + before_delimiter(a.drop_first())
    }
}

/// A `main` value as it follows the key's `:`: a quoted value whole, up to
/// its closing quote; otherwise the text up to the next `,` or `}`, trimmed
/// and without quotes at its ends.
pub open spec fn main_value(a: Seq<char>) -> Seq<char> {
    if a.len() > 0 && is_quote(a[0]) && find_from(a.drop_first(), seq![a[0]], 0) is Some {
        a.drop_first().take(find_from(a.drop_first(), seq![a[0]], 0)->Some_0)
    } else {
        unquoted(trim(before_delimiter(a)))
    }
}

/// The `main` value on one line of a `package.json`, if the line holds the
/// key with a `:` after it. A scan of the text, not a JSON parse.
pub open spec fn main_of_line(line: Seq<char>) -> Option<Seq<char>> {
    let t = trim(line);
    match main_key_from(t, 0) {
        Some(k) => Some(main_value(trim(trim(t.skip(k + 6)).drop_first()))),
        None => None,
    }
}

pub open spec fn mains_of_lines(ls: Seq<Seq<char>>) -> Seq<Seq<char>>
    decreases ls.len(),
{
    if ls.len() == 0 {
        Seq::empty()
    } else {
        let r = mains_of_lines(ls.drop_last());
        match main_of_line(ls.last()) {
            Some(m) => r.push(m),
            None => r,
        }
    }
}

/// Every `main` value that a `package.json` text names, in line order.
pub open spec fn main_values(json: Seq<char>) -> Seq<Seq<char>> {
    mains_of_lines(lines(json))
}

/// The files tried for one `main` value: the path, then with `.js` appended
/// unless it already ends so.
pub open spec fn main_candidates(pkg: Seq<char>, m: Seq<char>) -> Seq<Seq<char>> {
    if ends_with(m, js_ext()) {
        seq![join_path(pkg, m)]
    } else {
        seq![join_path(pkg, m), join_path(pkg, m) + js_ext()]
    }
}

pub open spec fn mains_candidates(pkg: Seq<char>, ms: Seq<Seq<char>>) -> Seq<Seq<char>>
    decreases ms.len(),
{
    if ms.len() == 0 {
        Seq::empty()
    } else {
        mains_candidates(pkg, ms.drop_last()) + main_candidates(pkg, ms.last())
    }
}

pub open spec fn index_js() -> Seq<char> {
    seq!['i', 'n', 'd', 'e', 'x', '.', 'j', 's']
}

/// The files tried for a package's entry point: those of each `main` value
/// when there is a `package.json`, then `index.js`.
pub open spec fn entry_candidates(pkg: Seq<char>, json: Option<Seq<char>>) -> Seq<Seq<char>> {
    match json {
        Some(j) => mains_candidates(pkg, main_values(j)) + seq![join_path(pkg, index_js())],
        None => seq![join_path(pkg, index_js())],
    }
}

/// The files tried for a bare specifier inside its package directory: the
/// subpath and the subpath with `.js` when one is given, else the entry point.
pub open spec fn package_candidates(
    pkg: Seq<char>,
    sub: Option<Seq<char>>,
    json: Option<Seq<char>>,
) -> Seq<Seq<char>> {
    match sub {
        Some(s) => seq![join_path(pkg, s), join_path(pkg, s) + js_ext()],
        None => entry_candidates(pkg, json),
    }
}

/// Why a specifier could not be mapped to a file.
#[derive(Debug, Clone, PartialEq, Eq)]
pub enum ResolveError {
    /// No `node_modules` directory in the importing file's directory or any
    /// ancestor; holds the specifier.
    NoNodeModules(String),
    /// The package directory is missing from `node_modules`; holds the
    /// package name.
    PackageNotFound(String),
    /// Neither the subpath nor the subpath with `.js` exists; holds the
    /// subpath and the package name.
    SubmoduleNotFound(String, String),
    /// No `main` target and no `index.js`; holds the package name.
    NoEntryPoint(String),
    /// Neither the path nor the path with `.js` exists; holds the path.
    ModuleNotFound(String),
}

pub enum ResolveErrorView {
    NoNodeModules(Seq<char>),
    PackageNotFound(Seq<char>),
    SubmoduleNotFound(Seq<char>, Seq<char>),
    NoEntryPoint(Seq<char>),
    ModuleNotFound(Seq<char>),
}

impl View for ResolveError {
    type V = ResolveErrorView;

    open spec fn view(&self) -> ResolveErrorView {
        match self {
            ResolveError::NoNodeModules(s) => ResolveErrorView::NoNodeModules(s@),
            ResolveError::PackageNotFound(n) => ResolveErrorView::PackageNotFound(n@),
            ResolveError::SubmoduleNotFound(s, n) => ResolveErrorView::SubmoduleNotFound(s@, n@),
            ResolveError::NoEntryPoint(n) => ResolveErrorView::NoEntryPoint(n@),
            ResolveError::ModuleNotFound(p) => ResolveErrorView::ModuleNotFound(p@),
        }
    }
}

/// Where a bare specifier leads, given the nearest `node_modules` (if any was
/// found), whether the package directory exists there, the package's
/// `package.json` text (if it has one) and which of `package_candidates`
/// exist.
pub open spec fn package_resolution(
    specifier: Seq<char>,
    node_modules: Option<Seq<char>>,
    package_present: bool,
    json: Option<Seq<char>>,
    present: Seq<bool>,
) -> Result<Seq<char>, ResolveErrorView> {
    match node_modules {
        None => Err(ResolveErrorView::NoNodeModules(specifier)),
        Some(nm) => {
            let name = package_name(specifier);
            if !package_present {
                Err(ResolveErrorView::PackageNotFound(name))
            } else {
                let cands = package_candidates(join_path(nm, name), package_subpath(specifier), json);
                match first_present(cands, present) {
                    Some(p) => Ok(p),
                    None => match package_subpath(specifier) {
                        Some(s) => Err(ResolveErrorView::SubmoduleNotFound(s, name)),
                        None => Err(ResolveErrorView::NoEntryPoint(name)),
                    },
                }
            }
        },
    }
}

/// The file that the load step takes for a resolved path, given which of
/// `module_candidates` exist.
pub open spec fn module_resolution(p: Seq<char>, present: Seq<bool>) -> Result<
    Seq<char>,
    ResolveErrorView,
> {
    match first_present(module_candidates(p), present) {
        Some(f) => Ok(f),
        None => Err(ResolveErrorView::ModuleNotFound(p)),
    }
}

} // verus!

verus! {

pub open spec fn string_views(v: Seq<String>) -> Seq<Seq<char>> {
    v.map_values(|s: String| s@)
}

/// Whether the specifier is relative: it starts with `./` or `../`.
pub fn is_relative(specifier: &str) -> (r: bool)
    ensures
        r == is_relative_specifier(specifier@),
{
    let s = chars_of(specifier);
    let a = vec!['.', '/'];
    let b = vec!['.', '.', '/'];
    assert(a@ =~= seq!['.', '/']);
    assert(b@ =~= seq!['.', '.', '/']);
    has_prefix(s.as_slice(), a.as_slice()) || has_prefix(s.as_slice(), b.as_slice())
}

fn push_segment_to(segs: &mut Vec<Vec<char>>, seg: &[char])
    ensures
        views(final(segs)@) == push_segment(views(old(segs)@), seg@),
{
    let d = vec!['.'];
    assert(d@ =~= dot());
    let ghost s0 = views(segs@);
    if same_chars(seg, d.as_slice()) || seg.len() == 0 {
        return;
    }
    let copy = copy_range(seg, 0, seg.len());
    assert(copy@ =~= seg@);
    segs.push(copy);
    assert(views(segs@) =~= s0.push(seg@));
}

fn push_all_to(segs: &mut Vec<Vec<char>>, ps: &Vec<Vec<char>>, n: usize)
    requires
        n <= ps@.len(),
    ensures
        views(final(segs)@) == push_all(views(old(segs)@), views(ps@).take(n as int)),
{
    let ghost s0 = views(segs@);
    let mut i: usize = 0;
    assert(views(ps@).take(0) =~= Seq::<Seq<char>>::empty());
    while i < n
        invariant
            n <= ps@.len(),
            i <= n,
            views(segs@) == push_all(s0, views(ps@).take(i as int)),
        decreases n - i,
    {
        assert(views(ps@).take(i + 1).drop_last() =~= views(ps@).take(i as int));
        assert(views(ps@).take(i + 1).last() == ps@[i as int]@);
        push_segment_to(segs, ps[i].as_slice());
        i = i + 1;
    }
}

fn root_segments(p: &[char]) -> (r: Vec<Vec<char>>)
    ensures
        views(r@) == root_of(p@),
{
    let r: Vec<Vec<char>> = if p.len() > 0 && p[0] == '/' {
        vec![Vec::new()]
    } else {
        Vec::new()
    };
    assert(views(r@) =~= root_of(p@));
    r
}

fn path_text_of(segs: &Vec<Vec<char>>) -> (r: Vec<char>)
    ensures
        r@ == path_text(views(segs@)),
{
    if segs.len() == 1 && segs[0].len() == 0 {
        let r = vec!['/'];
        assert(r@ =~= seq!['/']);
        r
    } else {
        join_chars(segs, '/')
    }
}

/// The directory that holds the file `base_file`.
pub fn parent_dir(base_file: &str) -> (r: String)
    ensures
        r@ == parent_of(base_file@),
{
    let b = chars_of(base_file);
    let mut segs = root_segments(b.as_slice());
    let ps = split_on(b.as_slice(), '/');
    proof {
        lemma_pieces_nonempty(base_file@, '/');
    }
    push_all_to(&mut segs, &ps, ps.len() - 1);
    assert(views(ps@).take(ps@.len() - 1) =~= pieces(base_file@, '/').drop_last());
    string_from(path_text_of(&segs).as_slice())
}

/// The path that the relative specifier names, seen from the file
/// `base_file`: its directory joined with the specifier's segments. `.` and
/// empty segments are dropped; `..` is kept for the filesystem to follow.
pub fn resolve_relative(base_file: &str, specifier: &str) -> (r: String)
    ensures
        r@ == relative_target(base_file@, specifier@),
{
    let b = chars_of(base_file);
    let mut segs = root_segments(b.as_slice());
    let ps = split_on(b.as_slice(), '/');
    proof {
        lemma_pieces_nonempty(base_file@, '/');
    }
    push_all_to(&mut segs, &ps, ps.len() - 1);
    assert(views(ps@).take(ps@.len() - 1) =~= pieces(base_file@, '/').drop_last());
    let s = chars_of(specifier);
    let qs = split_on(s.as_slice(), '/');
    push_all_to(&mut segs, &qs, qs.len());
    assert(views(qs@).take(qs@.len() as int) =~= pieces(specifier@, '/'));
    string_from(path_text_of(&segs).as_slice())
}

/// The `node_modules` directories to look for, nearest first: in `dir`,
/// then in each ancestor up to the root.
pub fn node_modules_candidates(dir: &str) -> (r: Vec<String>)
    ensures
        string_views(r@) == node_modules_dirs(dir@),
{
    let d = chars_of(dir);
    let mut segs = root_segments(d.as_slice());
    let ps = split_on(d.as_slice(), '/');
    push_all_to(&mut segs, &ps, ps.len());
    assert(views(ps@).take(ps@.len() as int) =~= pieces(dir@, '/'));
    let ghost all = views(segs@);
    let floor: usize = if segs.len() > 0 && segs[0].len() == 0 {
        1
    } else {
        0
    };
    let mut r: Vec<String> = Vec::new();
    let mut k: usize = segs.len();
    let nm = vec!['n', 'o', 'd', 'e', '_', 'm', 'o', 'd', 'u', 'l', 'e', 's'];
    assert(nm@ =~= node_modules_seg());
    loop
        invariant_except_break
            string_views(r@) + node_modules_from(all, k as int) == node_modules_dirs(dir@),
        invariant
            views(segs@) == all,
            floor == search_floor(all),
            floor <= k <= all.len(),
            nm@ == node_modules_seg(),
        ensures
            string_views(r@) == node_modules_dirs(dir@),
        decreases k,
    {
        let mut prefix: Vec<Vec<char>> = Vec::new();
        let mut j: usize = 0;
        while j < k
            invariant
                views(segs@) == all,
                j <= k <= all.len(),
                views(prefix@) == all.take(j as int),
            decreases k - j,
        {
            let ghost p0 = prefix@;
            let seg = copy_range(segs[j].as_slice(), 0, segs[j].len());
            assert(seg@ =~= all[j as int]);
            prefix.push(seg);
            assert(views(prefix@) =~= views(p0).push(all[j as int]));
            assert(all.take(j + 1) =~= all.take(j as int).push(all[j as int]));
            j = j + 1;
        }
        let ghost p1 = prefix@;
        let last = copy_range(nm.as_slice(), 0, nm.len());
        assert(last@ =~= node_modules_seg());
        prefix.push(last);
        assert(views(prefix@) =~= views(p1).push(node_modules_seg()));
        let text = join_chars(&prefix, '/');
        let ghost r0 = r@;
        r.push(string_from(text.as_slice()));
        assert(string_views(r@) =~= string_views(r0).push(text@));
        assert(node_modules_from(all, k as int) =~= seq![text@] + node_modules_from(
            all,
            k - 1,
        ));
        assert(string_views(r@) + node_modules_from(all, k - 1) =~= string_views(r0)
            + node_modules_from(all, k as int));
        if k == floor {
            assert(node_modules_from(all, k - 1) =~= Seq::<Seq<char>>::empty());
            assert(string_views(r@) =~= string_views(r@) + node_modules_from(all, k - 1));
            break;
        }
        k = k - 1;
    }
    r
}

} // verus!

verus! {

fn unquoted_of(s: &[char]) -> (r: Vec<char>)
    ensures
        r@ == unquoted(s@),
{
    let n = s.len();
    let mut i: usize = 0;
    assert(s@.subrange(0, n as int) =~= s@);
    while i < n && (s[i] == '"' || s[i] == '\'')
        invariant
            i <= n == s@.len(),
            strip_quotes_start(s@) == strip_quotes_start(s@.subrange(i as int, n as int)),
        decreases n - i,
    {
        assert(s@.subrange(i as int, n as int).drop_first() =~= s@.subrange(i + 1, n as int));
        i = i + 1;
    }
    let t = copy_range(s, i, n);
    let mut j: usize = t.len();
    assert(t@.take(j as int) =~= t@);
    while j > 0 && (t[j - 1] == '"' || t[j - 1] == '\'')
        invariant
            j <= t@.len(),
            strip_quotes_end(t@) == strip_quotes_end(t@.take(j as int)),
        decreases j,
    {
        assert(t@.take(j as int).drop_last() =~= t@.take(j - 1));
        j = j - 1;
    }
    let r = copy_range(t.as_slice(), 0, j);
    assert(r@ =~= t@.take(j as int));
    r
}

fn main_key_here(t: &[char], k: usize) -> (r: bool)
    requires
        k <= t@.len(),
    ensures
        r == main_key_at(t@, k as int),
{
    let n = t.len();
    let a = vec!['"', 'm', 'a', 'i', 'n', '"'];
    let b = vec!['\'', 'm', 'a', 'i', 'n', '\''];
    assert(a@ =~= main_key_dq());
    assert(b@ =~= main_key_sq());
    if !occurs_here(t, a.as_slice(), k) && !occurs_here(t, b.as_slice(), k) {
        return false;
    }
    let rest = copy_range(t, k + 6, n);
    assert(rest@ =~= t@.skip(k + 6));
    let r = trimmed(rest.as_slice());
    r.len() > 0 && r[0] == ':'
}

fn before_delimiter_of(a: &[char]) -> (r: Vec<char>)
    ensures
        r@ == before_delimiter(a@),
{
    let n = a.len();
    let mut j: usize = 0;
    assert(a@.skip(0) =~= a@);
    assert(a@.take(0) + before_delimiter(a@.skip(0)) =~= before_delimiter(a@));
    while j < n && a[j] != ',' && a[j] != '}'
        invariant
            j <= n == a@.len(),
            before_delimiter(a@) == a@.take(j as int) + before_delimiter(a@.skip(j as int)),
        decreases n - j,
    {
        assert(a@.skip(j as int).drop_first() =~= a@.skip(j + 1));
        assert(a@.take(j + 1) =~= a@.take(j as int) + seq![a@[j as int]]);
        j = j + 1;
    }
    let r = copy_range(a, 0, j);
    assert(before_delimiter(a@.skip(j as int)) =~= Seq::<char>::empty());
    assert(r@ =~= a@.take(j as int) + before_delimiter(a@.skip(j as int)));
    r
}

fn main_in_line(line: &[char]) -> (r: Option<Vec<char>>)
    ensures
        r matches Some(m) ==> main_of_line(line@) == Some(m@),
        r is None ==> main_of_line(line@) is None,
{
    let t = trimmed(line);
    let n = t.len();
    let mut k: usize = 0;
    while k < n && !main_key_here(t.as_slice(), k)
        invariant
            k <= n == t@.len(),
            main_key_from(t@, 0) == main_key_from(t@, k as int),
        decreases n - k,
    {
        k = k + 1;
    }
    if k >= n {
        assert(!main_key_at(t@, n as int));
        assert(main_key_from(t@, n + 1) is None);
        return None;
    }
    assert(main_key_at(t@, k as int));
    let raw = copy_range(t.as_slice(), k + 6, n);
    assert(raw@ =~= t@.skip(k + 6));
    let rest = trimmed(raw.as_slice());
    let after = copy_range(rest.as_slice(), 1, rest.len());
    assert(after@ =~= rest@.drop_first());
    let a = trimmed(after.as_slice());
    if a.len() > 0 && (a[0] == '"' || a[0] == '\'') {
        let body = copy_range(a.as_slice(), 1, a.len());
        assert(body@ =~= a@.drop_first());
        let quote = vec![a[0]];
        assert(quote@ =~= seq![a@[0]]);
        match find_at(body.as_slice(), quote.as_slice(), 0) {
            Some(e) => {
                let v = copy_range(body.as_slice(), 0, e);
                assert(v@ =~= body@.take(e as int));
                return Some(v);
            },
            None => {},
        }
    }
    let v = trimmed(before_delimiter_of(a.as_slice()).as_slice());
    Some(unquoted_of(v.as_slice()))
}

/// Every `main` value that a `package.json` text names, in line order. The
/// text is scanned line by line, not parsed as JSON.
pub fn package_main_values(package_json: &str) -> (r: Vec<String>)
    ensures
        string_views(r@) == main_values(package_json@),
{
    let cs = chars_of(package_json);
    let ls = split_lines(cs.as_slice());
    let mut r: Vec<String> = Vec::new();
    let mut i: usize = 0;
    while i < ls.len()
        invariant
            i <= ls@.len(),
            views(ls@) == lines(package_json@),
            string_views(r@) == mains_of_lines(views(ls@).take(i as int)),
        decreases ls.len() - i,
    {
        assert(views(ls@).take(i + 1).drop_last() =~= views(ls@).take(i as int));
        assert(views(ls@).take(i + 1).last() == ls@[i as int]@);
        match main_in_line(ls[i].as_slice()) {
            Some(m) => {
                let ghost r0 = r@;
                r.push(string_from(m.as_slice()));
                assert(string_views(r@) =~= string_views(r0).push(m@));
            },
            None => {},
        }
        i = i + 1;
    }
    assert(views(ls@).take(i as int) =~= views(ls@));
    r
}

pub(crate) fn join_path_of(dir: &[char], rel: &[char]) -> (r: Vec<char>)
    ensures
        r@ == join_path(dir@, rel@),
{
    if rel.len() > 0 && rel[0] == '/' {
        let r = copy_range(rel, 0, rel.len());
        assert(r@ =~= rel@);
        return r;
    }
    let mut r = copy_range(dir, 0, dir.len());
    r.push('/');
    append_chars(&mut r, rel);
    assert(r@ =~= join_path(dir@, rel@));
    r
}

fn with_js(p: &[char]) -> (r: Vec<char>)
    ensures
        r@ == p@ + js_ext(),
{
    let mut r = copy_range(p, 0, p.len());
    let ext = vec!['.', 'j', 's'];
    append_chars(&mut r, ext.as_slice());
    assert(r@ =~= p@ + js_ext());
    r
}

fn ends_with_js(m: &[char]) -> (r: bool)
    ensures
        r == ends_with(m@, js_ext()),
{
    if m.len() < 3 {
        return false;
    }
    let n = m.len();
    let r = m[n - 3] == '.' && m[n - 2] == 'j' && m[n - 1] == 's';
    assert(r == (m@.subrange(n - 3, n as int) =~= js_ext()));
    r
}

/// The package that a bare specifier names, and the path inside it if one
/// is given: the text before and after the first `/`.
pub fn split_package(specifier: &str) -> (r: (String, Option<String>))
    ensures
        r.0@ == package_name(specifier@),
        r.1 matches Some(s) ==> package_subpath(specifier@) == Some(s@),
        r.1 is None ==> package_subpath(specifier@) is None,
{
    let s = chars_of(specifier);
    let n = s.len();
    let slash = vec!['/'];
    assert(slash@ =~= seq!['/']);
    match find_at(s.as_slice(), slash.as_slice(), 0) {
        Some(k) => {
            let name = copy_range(s.as_slice(), 0, k);
            let sub = copy_range(s.as_slice(), k + 1, s.len());
            assert(name@ =~= s@.take(k as int));
            assert(sub@ =~= s@.skip(k + 1));
            (string_from(name.as_slice()), Some(string_from(sub.as_slice())))
        },
        None => (string_from(s.as_slice()), None),
    }
}

/// The files to try, in order, for a bare specifier, given the
/// `node_modules` directory where its package was found and the package's
/// `package.json` text, if it has one.
pub fn package_file_candidates(specifier: &str, node_modules: &str, package_json: Option<&str>) -> (r:
    Vec<String>)
    ensures
        string_views(r@) == package_candidates(
            join_path(node_modules@, package_name(specifier@)),
            package_subpath(specifier@),
            match package_json {
                Some(j) => Some(j@),
                None => None,
            },
        ),
{
    let (name, sub) = split_package(specifier);
    let nm = chars_of(node_modules);
    let pkg = join_path_of(nm.as_slice(), chars_of(name.as_str()).as_slice());
    match sub {
        Some(sub) => {
            let p = join_path_of(pkg.as_slice(), chars_of(sub.as_str()).as_slice());
            let q = with_js(p.as_slice());
            let r = vec![string_from(p.as_slice()), string_from(q.as_slice())];
            assert(string_views(r@) =~= seq![p@, q@]);
            r
        },
        None => {
            let mut r: Vec<String> = Vec::new();
            let ghost json = match package_json {
                Some(j) => Some(j@),
                None => None::<Seq<char>>,
            };
            match package_json {
                Some(j) => {
                    let ms = package_main_values(j);
                    let mut i: usize = 0;
                    assert(string_views(ms@).take(0) =~= Seq::<Seq<char>>::empty());
                    while i < ms.len()
                        invariant
                            i <= ms@.len(),
                            string_views(ms@) == main_values(j@),
                            string_views(r@) == mains_candidates(
                                pkg@,
                                string_views(ms@).take(i as int),
                            ),
                        decreases ms.len() - i,
                    {
                        let ghost mv = string_views(ms@);
                        assert(mv.take(i + 1).drop_last() =~= mv.take(i as int));
                        assert(mv.take(i + 1).last() == ms@[i as int]@);
                        let m = chars_of(ms[i].as_str());
                        let p = join_path_of(pkg.as_slice(), m.as_slice());
                        let ghost r0 = r@;
                        r.push(string_from(p.as_slice()));
                        if !ends_with_js(m.as_slice()) {
                            let q = with_js(p.as_slice());
                            r.push(string_from(q.as_slice()));
                            assert(string_views(r@) =~= string_views(r0) + seq![p@, q@]);
                        } else {
                            assert(string_views(r@) =~= string_views(r0) + seq![p@]);
                        }
                        i = i + 1;
                    }
                    assert(string_views(ms@).take(i as int) =~= string_views(ms@));
                },
                None => {},
            }
            let idx = vec!['i', 'n', 'd', 'e', 'x', '.', 'j', 's'];
            assert(idx@ =~= index_js());
            let p = join_path_of(pkg.as_slice(), idx.as_slice());
            let ghost r1 = r@;
            r.push(string_from(p.as_slice()));
            assert(string_views(r@) =~= string_views(r1) + seq![p@]);
            r
        },
    }
}

/// The files that the load step tries for a resolved path: the path, then
/// the path with `.js` appended.
pub fn module_file_candidates(path: &str) -> (r: Vec<String>)
    ensures
        string_views(r@) == module_candidates(path@),
{
    let p = chars_of(path);
    let q = with_js(p.as_slice());
    let r = vec![string_from(p.as_slice()), string_from(q.as_slice())];
    assert(string_views(r@) =~= module_candidates(path@));
    r
}

/// The first candidate whose flag says it is present.
pub fn first_present_of(cands: &Vec<String>, present: &Vec<bool>) -> (r: Option<String>)
    ensures
        r matches Some(p) ==> first_present(string_views(cands@), present@) == Some(p@),
        r is None ==> first_present(string_views(cands@), present@) is None,
{
    let mut i: usize = 0;
    assert(string_views(cands@).skip(0) =~= string_views(cands@));
    assert(present@.skip(0) =~= present@);
    while i < cands.len() && i < present.len()
        invariant
            i <= cands@.len(),
            i <= present@.len(),
            first_present(string_views(cands@), present@) == first_present(
                string_views(cands@).skip(i as int),
                present@.skip(i as int),
            ),
        decreases cands.len() - i,
    {
        if present[i] {
            return Some(cands[i].clone());
        }
        assert(string_views(cands@).skip(i as int).drop_first() =~= string_views(cands@).skip(
            i + 1,
        ));
        assert(present@.skip(i as int).drop_first() =~= present@.skip(i + 1));
        i = i + 1;
    }
    None
}

} // verus!

verus! {

pub open spec fn opt_text(o: Option<&str>) -> Option<Seq<char>> {
    match o {
        Some(s) => Some(s@),
        None => None,
    }
}

/// Where a bare specifier leads. `node_modules` is the nearest such
/// directory that exists (`None` when none does), `package_present` whether
/// the package directory exists in it, `package_json` the package's
/// `package.json` text if it has one, and `present` which of
/// `package_file_candidates` exist, in their order.
pub fn resolve_package(
    specifier: &str,
    node_modules: Option<&str>,
    package_present: bool,
    package_json: Option<&str>,
    present: &Vec<bool>,
) -> (r: Result<String, ResolveError>)
    ensures
        r matches Ok(p) ==> package_resolution(
            specifier@,
            opt_text(node_modules),
            package_present,
            opt_text(package_json),
            present@,
        ) == Ok::<Seq<char>, ResolveErrorView>(p@),
        r matches Err(e) ==> package_resolution(
            specifier@,
            opt_text(node_modules),
            package_present,
            opt_text(package_json),
            present@,
        ) == Err::<Seq<char>, ResolveErrorView>(e@),
{
    let nm = match node_modules {
        Some(nm) => nm,
        None => {
            return Err(ResolveError::NoNodeModules(string_from(chars_of(specifier).as_slice())));
        },
    };
    let (name, sub) = split_package(specifier);
    if !package_present {
        return Err(ResolveError::PackageNotFound(name));
    }
    let cands = package_file_candidates(specifier, nm, package_json);
    assert(opt_text(package_json) == match package_json {
        Some(j) => Some(j@),
        None => None::<Seq<char>>,
    });
    match first_present_of(&cands, present) {
        Some(p) => Ok(p),
        None => match sub {
            Some(s) => Err(ResolveError::SubmoduleNotFound(s, name)),
            None => Err(ResolveError::NoEntryPoint(name)),
        },
    }
}

/// The file that the load step takes for a resolved path, given which of
/// `module_file_candidates` exist, in their order.
pub fn locate_module(path: &str, present: &Vec<bool>) -> (r: Result<String, ResolveError>)
    ensures
        r matches Ok(f) ==> module_resolution(path@, present@) == Ok::<
            Seq<char>,
            ResolveErrorView,
        >(f@),
        r matches Err(e) ==> module_resolution(path@, present@) == Err::<
            Seq<char>,
            ResolveErrorView,
        >(e@),
{
    let cands = module_file_candidates(path);
    match first_present_of(&cands, present) {
        Some(f) => Ok(f),
        None => Err(ResolveError::ModuleNotFound(string_from(chars_of(path).as_slice()))),
    }
}

} // verus!

verus! {

/// The directory of the package that a bare specifier names, under the
/// `node_modules` directory where the search found it.
pub fn package_dir(node_modules: &str, specifier: &str) -> (r: String)
    ensures
        r@ == join_path(node_modules@, package_name(specifier@)),
{
    let (name, _) = split_package(specifier);
    string_from(join_path_of(chars_of(node_modules).as_slice(), chars_of(name.as_str()).as_slice()).as_slice())
}

/// The `package.json` of a package directory.
pub fn package_json_path(package_dir: &str) -> (r: String)
    ensures
        r@ == join_path(package_dir@, "package.json"@),
{
    string_from(join_path_of(chars_of(package_dir).as_slice(), chars_of("package.json").as_slice()).as_slice())
}

} // verus!
