//! Assembling the flat script: each module reached from the entry file's
//! imports is taken once, every requested binding is checked against the
//! module's exports, and the pieces are concatenated.
use vstd::prelude::*;
use crate::declarations::{
    Binding, BindingView, ImportDecl, ImportView, default_sentinel, exports_of, extract_exports,
    extract_imports, imports_of, kw_import,
};
use crate::strip::{remove_exports, stripped};
use crate::text::{
    append_chars, chars_of, copy_range, has_prefix, join_chars, join_lines, lines, split_lines,
    starts_with, string_from, trim, trimmed, views,
};

verus! {

/// A module file as read: its resolved path and its text.
#[derive(Debug, Clone, PartialEq, Eq)]
pub struct ModuleSource {
    pub path: String,
    pub source: String,
}

pub struct ModuleText {
    pub path: Seq<char>,
    pub source: Seq<char>,
}

impl View for ModuleSource {
    type V = ModuleText;

    open spec fn view(&self) -> ModuleText {
        ModuleText { path: self.path@, source: self.source@ }
    }
}

pub open spec fn module_views(ms: Seq<ModuleSource>) -> Seq<ModuleText> {
    ms.map_values(|m: ModuleSource| m@)
}

/// The first module of `ls` with path `p`.
pub open spec fn lookup(ls: Seq<ModuleText>, p: Seq<char>) -> Option<ModuleText>
    decreases ls.len(),
{
    if ls.len() == 0 {
        None
    } else {
        match lookup(ls.drop_last(), p) {
            Some(m) => Some(m),
            None => if ls.last().path == p {
                Some(ls.last())
            } else {
                None
            },
        }
    }
}

/// The modules in the order first reached, each path once: a module whose
/// path was seen before is taken from the cache, not loaded again.
pub open spec fn loaded(ms: Seq<ModuleText>) -> Seq<ModuleText>
    decreases ms.len(),
{
    if ms.len() == 0 {
        Seq::empty()
    } else {
        let l = loaded(ms.drop_last());
        if lookup(l, ms.last().path) is Some {
            l
        } else {
            l.push(ms.last())
        }
    }
}

/// Why a requested binding cannot be satisfied.
#[derive(Debug, Clone, PartialEq, Eq)]
pub enum BundleError {
    /// `import { name }` of a module that does not export `name`; holds the
    /// specifier and the name.
    MissingExport(String, String),
    /// `import alias` of a module without a default export; holds the
    /// specifier and the alias.
    MissingDefaultExport(String, String),
}

pub enum BundleErrorView {
    MissingExport(Seq<char>, Seq<char>),
    MissingDefaultExport(Seq<char>, Seq<char>),
}

impl View for BundleError {
    type V = BundleErrorView;

    open spec fn view(&self) -> BundleErrorView {
        match self {
            BundleError::MissingExport(s, n) => BundleErrorView::MissingExport(s@, n@),
            BundleError::MissingDefaultExport(s, a) => BundleErrorView::MissingDefaultExport(
                s@,
                a@,
            ),
        }
    }
}

/// The failure of one binding against the export names `es`, if it fails.
pub open spec fn binding_error(specifier: Seq<char>, b: BindingView, es: Seq<Seq<char>>) -> Option<
    BundleErrorView,
> {
    match b {
        BindingView::Named(n) => if es.contains(n) {
            None
        } else {
            Some(BundleErrorView::MissingExport(specifier, n))
        },
        BindingView::Default(a) => if es.contains(default_sentinel()) {
            None
        } else {
            Some(BundleErrorView::MissingDefaultExport(specifier, a))
        },
    }
}

/// The first failing binding among `bs`.
pub open spec fn bindings_error(specifier: Seq<char>, bs: Seq<BindingView>, es: Seq<Seq<char>>) -> Option<
    BundleErrorView,
>
    decreases bs.len(),
{
    if bs.len() == 0 {
        None
    } else {
        match bindings_error(specifier, bs.drop_last(), es) {
            Some(e) => Some(e),
            None => binding_error(specifier, bs.last(), es),
        }
    }
}

/// The export names of the module loaded for path `p`.
pub open spec fn exports_at(ms: Seq<ModuleText>, p: Seq<char>) -> Seq<Seq<char>> {
    match lookup(loaded(ms), p) {
        Some(m) => exports_of(m.source),
        None => Seq::empty(),
    }
}

/// The first failing binding of the imports `ds`, the `i`-th of which was
/// resolved to the module `ms[i]`.
pub open spec fn imports_error(ds: Seq<ImportView>, ms: Seq<ModuleText>) -> Option<
    BundleErrorView,
>
    decreases ds.len(),
{
    if ds.len() == 0 {
        None
    } else {
        match imports_error(ds.drop_last(), ms) {
            Some(e) => Some(e),
            None => bindings_error(
                ds.last().specifier,
                ds.last().bindings,
                exports_at(ms, ms[ds.len() - 1].path),
            ),
        }
    }
}

/// The local names of the default imports among `bs`, in order.
pub open spec fn aliases_in(bs: Seq<BindingView>) -> Seq<Seq<char>>
    decreases bs.len(),
{
    if bs.len() == 0 {
        Seq::empty()
    } else {
        match bs.last() {
            BindingView::Default(a) => aliases_in(bs.drop_last()).push(a),
            BindingView::Named(_) => aliases_in(bs.drop_last()),
        }
    }
}

/// The local names of all default imports, in request order.
pub open spec fn default_aliases(ds: Seq<ImportView>) -> Seq<Seq<char>>
    decreases ds.len(),
{
    if ds.len() == 0 {
        Seq::empty()
    } else {
        default_aliases(ds.drop_last()) + aliases_in(ds.last().bindings)
    }
}

/// `function __get_default_export__() { return __default_export_value__; }`
/// between two newlines.
pub open spec fn shim() -> Seq<char> {
    seq!['\n'] + shim_name_decl() + default_sentinel() + seq![';', ' ', '}', '\n']
}

/// `function __get_default_export__() { return `
pub open spec fn shim_name_decl() -> Seq<char> {
    seq!['f', 'u', 'n', 'c', 't', 'i', 'o', 'n', ' '] + accessor() + seq![
        '(',
        ')',
        ' ',
        '{',
        ' ',
        'r',
        'e',
        't',
        'u',
        'r',
        'n',
        ' ',
    ]
}

/// `__get_default_export__`
pub open spec fn accessor() -> Seq<char> {
    seq![
        '_', '_', 'g', 'e', 't', '_', 'd', 'e', 'f', 'a', 'u', 'l', 't', '_', 'e', 'x', 'p', 'o',
        'r', 't', '_', '_',
    ]
}

/// `var alias = __get_default_export__();` and a newline.
pub open spec fn alias_decl(a: Seq<char>) -> Seq<char> {
    seq!['v', 'a', 'r', ' '] + a + seq![' ', '=', ' '] + accessor() + seq!['(', ')', ';', '\n']
}

pub open spec fn alias_decls(als: Seq<Seq<char>>) -> Seq<char>
    decreases als.len(),
{
    if als.len() == 0 {
        Seq::empty()
    } else {
        alias_decls(als.drop_last()) + alias_decl(als.last())
    }
}

/// The stripped texts of the modules, concatenated in order.
pub open spec fn module_texts(ls: Seq<ModuleText>) -> Seq<char>
    decreases ls.len(),
{
    if ls.len() == 0 {
        Seq::empty()
    } else {
        module_texts(ls.drop_last()) + stripped(ls.last().source)
    }
}

/// The lines whose trimmed text does not start with `import`.
pub open spec fn without_imports(ls: Seq<Seq<char>>) -> Seq<Seq<char>>
    decreases ls.len(),
{
    if ls.len() == 0 {
        Seq::empty()
    } else if starts_with(trim(ls.last()), kw_import()) {
        without_imports(ls.drop_last())
    } else {
        without_imports(ls.drop_last()).push(ls.last())
    }
}

/// The entry file's own part of the script: its stripped text without its
/// import lines.
pub open spec fn entry_text(entry: Seq<char>) -> Seq<char> {
    join_lines(without_imports(lines(stripped(entry))))
}

/// The flat script: the loaded modules' stripped texts, the default-export
/// accessor, one declaration per default import, and the entry's own text.
pub open spec fn bundle_text(entry: Seq<char>, ms: Seq<ModuleText>) -> Seq<char> {
    module_texts(loaded(ms)) + shim() + alias_decls(default_aliases(imports_of(entry))) + entry_text(
        entry,
    )
}

/// What bundling gives: the first binding that cannot be satisfied, or the
/// flat script.
pub open spec fn bundle_result(entry: Seq<char>, ms: Seq<ModuleText>) -> Result<
    Seq<char>,
    BundleErrorView,
> {
    match imports_error(imports_of(entry), ms) {
        Some(e) => Err(e),
        None => Ok(bundle_text(entry, ms)),
    }
}

} // verus!

verus! {

proof fn lemma_lookup_at(ls: Seq<ModuleText>, p: Seq<char>, k: int)
    requires
        0 <= k < ls.len(),
        ls[k].path == p,
        forall|j: int| 0 <= j < k ==> ls[j].path != p,
    ensures
        lookup(ls, p) == Some(ls[k]),
    decreases ls.len(),
{
    if k < ls.len() - 1 {
        lemma_lookup_at(ls.drop_last(), p, k);
    } else {
        lemma_lookup_none(ls.drop_last(), p);
    }
}

proof fn lemma_lookup_none(ls: Seq<ModuleText>, p: Seq<char>)
    requires
        forall|j: int| 0 <= j < ls.len() ==> ls[j].path != p,
    ensures
        lookup(ls, p) is None,
    decreases ls.len(),
{
    if ls.len() > 0 {
        lemma_lookup_none(ls.drop_last(), p);
    }
}

pub proof fn lemma_lookup_in(ls: Seq<ModuleText>, p: Seq<char>)
    requires
        lookup(ls, p) is Some,
    ensures
        exists|j: int| 0 <= j < ls.len() && ls[j].path == p,
{
    if forall|j: int| 0 <= j < ls.len() ==> ls[j].path != p {
        lemma_lookup_none(ls, p);
    }
}

/// Every module handed in is among those loaded.
pub proof fn lemma_loaded_has(ms: Seq<ModuleText>, i: int)
    requires
        0 <= i < ms.len(),
    ensures
        lookup(loaded(ms), ms[i].path) is Some,
    decreases ms.len(),
{
    let l = loaded(ms.drop_last());
    let x = ms.last();
    assert(l.push(x).drop_last() =~= l);
    if i < ms.len() - 1 {
        lemma_loaded_has(ms.drop_last(), i);
        assert(ms.drop_last()[i] == ms[i]);
    }
}

/// One loaded module, with what the script and the checks need of it.
struct ModuleRecord {
    path: String,
    exports: Vec<String>,
    text: String,
}

spec fn record_of(r: ModuleRecord, m: ModuleText) -> bool {
    r.path@ == m.path && r.exports@.map_values(|s: String| s@) == exports_of(m.source) && r.text@
        == stripped(m.source)
}

fn find_record(cache: &Vec<ModuleRecord>, p: &String) -> (r: Option<usize>)
    ensures
        r matches Some(k) ==> k < cache@.len() && cache@[k as int].path@ == p@ && forall|j: int|
            0 <= j < k ==> cache@[j].path@ != p@,
        r is None ==> forall|j: int| 0 <= j < cache@.len() ==> cache@[j].path@ != p@,
{
    let mut k: usize = 0;
    while k < cache.len()
        invariant
            k <= cache@.len(),
            forall|j: int| 0 <= j < k ==> cache@[j].path@ != p@,
        decreases cache.len() - k,
    {
        if cache[k].path == *p {
            return Some(k);
        }
        k = k + 1;
    }
    None
}

fn has_name(es: &Vec<String>, n: &String) -> (r: bool)
    ensures
        r == es@.map_values(|s: String| s@).contains(n@),
{
    let mut k: usize = 0;
    while k < es.len()
        invariant
            k <= es@.len(),
            forall|j: int| 0 <= j < k ==> es@[j]@ != n@,
        decreases es.len() - k,
    {
        if es[k] == *n {
            assert(es@.map_values(|s: String| s@)[k as int] == n@);
            return true;
        }
        k = k + 1;
    }
    let ghost vs = es@.map_values(|s: String| s@);
    assert forall|j: int| 0 <= j < vs.len() implies #[trigger] vs[j] != n@ by {
        assert(vs[j] == es@[j]@);
    }
    false
}

} // verus!

verus! {

proof fn lemma_bindings_error_prefix(
    specifier: Seq<char>,
    bs: Seq<BindingView>,
    j: int,
    es: Seq<Seq<char>>,
)
    requires
        0 <= j <= bs.len(),
        bindings_error(specifier, bs.take(j), es) is Some,
    ensures
        bindings_error(specifier, bs, es) == bindings_error(specifier, bs.take(j), es),
    decreases bs.len(),
{
    if j == bs.len() {
        assert(bs.take(j) =~= bs);
    } else {
        assert(bs.drop_last().take(j) =~= bs.take(j));
        lemma_bindings_error_prefix(specifier, bs.drop_last(), j, es);
    }
}

proof fn lemma_imports_error_prefix(ds: Seq<ImportView>, ms: Seq<ModuleText>, m: int)
    requires
        0 <= m <= ds.len(),
        imports_error(ds.take(m), ms) is Some,
    ensures
        imports_error(ds, ms) == imports_error(ds.take(m), ms),
    decreases ds.len(),
{
    if m == ds.len() {
        assert(ds.take(m) =~= ds);
    } else {
        assert(ds.drop_last().take(m) =~= ds.take(m));
        lemma_imports_error_prefix(ds.drop_last(), ms, m);
    }
}

fn alias_decl_of(a: &String) -> (r: Vec<char>)
    ensures
        r@ == alias_decl(a@),
{
    let mut r = vec!['v', 'a', 'r', ' '];
    append_chars(&mut r, chars_of(a.as_str()).as_slice());
    let tail = vec![
        ' ', '=', ' ', '_', '_', 'g', 'e', 't', '_', 'd', 'e', 'f', 'a', 'u', 'l', 't', '_', 'e',
        'x', 'p', 'o', 'r', 't', '_', '_', '(', ')', ';', '\n',
    ];
    append_chars(&mut r, tail.as_slice());
    assert(r@ =~= alias_decl(a@));
    r
}

fn shim_chars() -> (r: Vec<char>)
    ensures
        r@ == shim(),
{
    let r = vec![
        '\n', 'f', 'u', 'n', 'c', 't', 'i', 'o', 'n', ' ', '_', '_', 'g', 'e', 't', '_', 'd', 'e',
        'f', 'a', 'u', 'l', 't', '_', 'e', 'x', 'p', 'o', 'r', 't', '_', '_', '(', ')', ' ', '{',
        ' ', 'r', 'e', 't', 'u', 'r', 'n', ' ', '_', '_', 'd', 'e', 'f', 'a', 'u', 'l', 't', '_',
        'e', 'x', 'p', 'o', 'r', 't', '_', 'v', 'a', 'l', 'u', 'e', '_', '_', ';', ' ', '}', '\n',
    ];
    assert(r@ =~= shim());
    r
}

/// The entry file's own part of the script: its stripped text without the
/// lines whose trimmed text starts with `import`.
pub fn entry_part(js_code: &str) -> (r: String)
    ensures
        r@ == entry_text(js_code@),
{
    let s = remove_exports(js_code);
    let ls = split_lines(chars_of(s.as_str()).as_slice());
    let kw = vec!['i', 'm', 'p', 'o', 'r', 't'];
    assert(kw@ =~= kw_import());
    let mut kept: Vec<Vec<char>> = Vec::new();
    let mut i: usize = 0;
    while i < ls.len()
        invariant
            i <= ls@.len(),
            kw@ == kw_import(),
            views(ls@) == lines(stripped(js_code@)),
            views(kept@) == without_imports(views(ls@).take(i as int)),
        decreases ls.len() - i,
    {
        assert(views(ls@).take(i + 1).drop_last() =~= views(ls@).take(i as int));
        assert(views(ls@).take(i + 1).last() == ls@[i as int]@);
        let t = trimmed(ls[i].as_slice());
        if !has_prefix(t.as_slice(), kw.as_slice()) {
            let ghost k0 = kept@;
            let l = copy_range(ls[i].as_slice(), 0, ls[i].len());
            assert(l@ =~= ls@[i as int]@);
            kept.push(l);
            assert(views(kept@) =~= views(k0).push(ls@[i as int]@));
        }
        i = i + 1;
    }
    assert(views(ls@).take(i as int) =~= views(ls@));
    string_from(join_chars(&kept, '\n').as_slice())
}

} // verus!

verus! {

/// The flat script for an entry file's text, given for each of its import
/// declarations (in the order `extract_imports` gives them) the module that
/// its specifier resolved to. A module reached twice is loaded and emitted
/// once. The first binding that its module does not export is the error.
pub fn process_es6_modules(js_code: &str, modules: &Vec<ModuleSource>) -> (r: Result<
    String,
    BundleError,
>)
    requires
        modules@.len() == imports_of(js_code@).len(),
    ensures
        r matches Ok(t) ==> bundle_result(js_code@, module_views(modules@)) == Ok::<
            Seq<char>,
            BundleErrorView,
        >(t@),
        r matches Err(e) ==> bundle_result(js_code@, module_views(modules@)) == Err::<
            Seq<char>,
            BundleErrorView,
        >(e@),
{
    let imports = extract_imports(js_code);
    let ghost ds = imports_of(js_code@);
    let ghost ms = module_views(modules@);
    let mut cache: Vec<ModuleRecord> = Vec::new();
    let mut text: Vec<char> = Vec::new();
    let mut i: usize = 0;
    assert(ms.take(0) =~= Seq::<ModuleText>::empty());
    while i < modules.len()
        invariant
            i <= modules@.len(),
            ms == module_views(modules@),
            cache@.len() == loaded(ms.take(i as int)).len(),
            forall|k: int|
                0 <= k < cache@.len() ==> record_of(
                    #[trigger] cache@[k],
                    loaded(ms.take(i as int))[k],
                ),
            text@ == module_texts(loaded(ms.take(i as int))),
        decreases modules.len() - i,
    {
        let ghost l = loaded(ms.take(i as int));
        let ghost p = modules@[i as int].path@;
        assert(ms.take(i + 1).drop_last() =~= ms.take(i as int));
        assert(ms.take(i + 1).last() == modules@[i as int]@);
        match find_record(&cache, &modules[i].path) {
            Some(k) => {
                proof {
                    assert forall|j: int| 0 <= j < k implies l[j].path != p by {
                        assert(record_of(cache@[j], l[j]));
                    }
                    assert(record_of(cache@[k as int], l[k as int]));
                    lemma_lookup_at(l, p, k as int);
                }
            },
            None => {
                proof {
                    assert forall|j: int| 0 <= j < l.len() implies l[j].path != p by {
                        assert(record_of(cache@[j], l[j]));
                    }
                    lemma_lookup_none(l, p);
                }
                let exports = extract_exports(modules[i].source.as_str());
                let stripped_text = remove_exports(modules[i].source.as_str());
                append_chars(&mut text, chars_of(stripped_text.as_str()).as_slice());
                let rec = ModuleRecord {
                    path: modules[i].path.clone(),
                    exports: exports,
                    text: stripped_text,
                };
                assert(record_of(rec, modules@[i as int]@));
                cache.push(rec);
                assert(l.push(modules@[i as int]@).drop_last() =~= l);
            },
        }
        i = i + 1;
    }
    assert(ms.take(i as int) =~= ms);
    let ghost all = loaded(ms);
    let sentinel = string_from(
        vec![
            '_', '_', 'd', 'e', 'f', 'a', 'u', 'l', 't', '_', 'e', 'x', 'p', 'o', 'r', 't', '_',
            'v', 'a', 'l', 'u', 'e', '_', '_',
        ].as_slice(),
    );
    assert(sentinel@ =~= default_sentinel());
    let mut aliases: Vec<String> = Vec::new();
    let mut i: usize = 0;
    assert(ds.take(0) =~= Seq::<ImportView>::empty());
    while i < imports.len()
        invariant
            i <= imports@.len(),
            imports@.map_values(|d: ImportDecl| d@) == ds,
            ds == imports_of(js_code@),
            modules@.len() == ds.len(),
            ms == module_views(modules@),
            all == loaded(ms),
            sentinel@ == default_sentinel(),
            cache@.len() == all.len(),
            forall|k: int| 0 <= k < cache@.len() ==> record_of(#[trigger] cache@[k], all[k]),
            imports_error(ds.take(i as int), ms) is None,
            aliases@.map_values(|s: String| s@) == default_aliases(ds.take(i as int)),
        decreases imports.len() - i,
    {
        let ghost d = ds[i as int];
        let ghost p = modules@[i as int].path@;
        assert(imports@[i as int]@ == d);
        assert(ds.take(i + 1).drop_last() =~= ds.take(i as int));
        assert(ds.take(i + 1).last() == d);
        assert(ms[i as int].path == p);
        let k = match find_record(&cache, &modules[i].path) {
            Some(k) => k,
            None => {
                proof {
                    lemma_loaded_has(ms, i as int);
                    lemma_lookup_in(all, p);
                    let j = choose|j: int| 0 <= j < all.len() && all[j].path == p;
                    assert(record_of(cache@[j], all[j]));
                    assert(false);
                }
                return Err(BundleError::MissingExport(String::new(), String::new()));
            },
        };
        proof {
            assert forall|j: int| 0 <= j < k implies all[j].path != p by {
                assert(record_of(cache@[j], all[j]));
            }
            assert(record_of(cache@[k as int], all[k as int]));
            lemma_lookup_at(all, p, k as int);
        }
        let ghost es = exports_at(ms, p);
        assert(cache@[k as int].exports@.map_values(|s: String| s@) == es);
        let decl = &imports[i];
        let ghost bs = d.bindings;
        let ghost a0 = aliases@.map_values(|s: String| s@);
        let mut j: usize = 0;
        assert(bs.take(0) =~= Seq::<BindingView>::empty());
        while j < decl.bindings.len()
            invariant
                j <= decl.bindings@.len(),
                i < ds.len(),
                d == ds[i as int],
                imports@.map_values(|d: ImportDecl| d@) == ds,
                ds == imports_of(js_code@),
                modules@.len() == ds.len(),
                ms == module_views(modules@),
                all == loaded(ms),
                cache@.len() == all.len(),
                forall|k: int| 0 <= k < cache@.len() ==> record_of(#[trigger] cache@[k], all[k]),
                es == exports_at(ms, ms[i as int].path),
                imports_error(ds.take(i as int), ms) is None,
                decl@ == d,
                bs == d.bindings,
                k < cache@.len(),
                cache@[k as int].exports@.map_values(|s: String| s@) == es,
                sentinel@ == default_sentinel(),
                bindings_error(d.specifier, bs.take(j as int), es) is None,
                aliases@.map_values(|s: String| s@) == a0 + aliases_in(bs.take(j as int)),
            decreases decl.bindings.len() - j,
        {
            assert(bs.take(j + 1).drop_last() =~= bs.take(j as int));
            assert(bs.take(j + 1).last() == decl.bindings@[j as int]@);
            match &decl.bindings[j] {
                Binding::Named(n) => {
                    if !has_name(&cache[k].exports, n) {
                        proof {
                            lemma_bindings_error_prefix(d.specifier, bs, j + 1, es);
                            assert(ds.take(i + 1).drop_last() =~= ds.take(i as int));
                            assert(ds.take(i + 1).last() == d);
                            assert(ds.take(i + 1).len() == i + 1);
                            assert(imports_error(ds.take(i + 1), ms) == bindings_error(
                                d.specifier,
                                bs,
                                es,
                            ));
                            lemma_imports_error_prefix(ds, ms, i + 1);
                        }
                        return Err(BundleError::MissingExport(decl.specifier.clone(), n.clone()));
                    }
                },
                Binding::Default(a) => {
                    if !has_name(&cache[k].exports, &sentinel) {
                        proof {
                            lemma_bindings_error_prefix(d.specifier, bs, j + 1, es);
                            assert(ds.take(i + 1).drop_last() =~= ds.take(i as int));
                            assert(ds.take(i + 1).last() == d);
                            assert(ds.take(i + 1).len() == i + 1);
                            assert(imports_error(ds.take(i + 1), ms) == bindings_error(
                                d.specifier,
                                bs,
                                es,
                            ));
                            lemma_imports_error_prefix(ds, ms, i + 1);
                        }
                        return Err(
                            BundleError::MissingDefaultExport(decl.specifier.clone(), a.clone()),
                        );
                    }
                    let ghost v0 = aliases@;
                    aliases.push(a.clone());
                    assert(aliases@.map_values(|s: String| s@) =~= v0.map_values(|s: String| s@).push(
                        a@,
                    ));
                },
            }
            j = j + 1;
        }
        assert(bs.take(j as int) =~= bs);
        i = i + 1;
    }
    assert(ds.take(i as int) =~= ds);
    let shim_text = shim_chars();
    append_chars(&mut text, shim_text.as_slice());
    let mut m: usize = 0;
    let ghost als = aliases@.map_values(|s: String| s@);
    let ghost t0 = text@;
    assert(als.take(0) =~= Seq::<Seq<char>>::empty());
    while m < aliases.len()
        invariant
            m <= aliases@.len(),
            als == aliases@.map_values(|s: String| s@),
            text@ == t0 + alias_decls(als.take(m as int)),
        decreases aliases.len() - m,
    {
        assert(als.take(m + 1).drop_last() =~= als.take(m as int));
        assert(als.take(m + 1).last() == aliases@[m as int]@);
        let decl_text = alias_decl_of(&aliases[m]);
        append_chars(&mut text, decl_text.as_slice());
        m = m + 1;
    }
    assert(als.take(m as int) =~= als);
    let entry = entry_part(js_code);
    append_chars(&mut text, chars_of(entry.as_str()).as_slice());
    Ok(string_from(text.as_slice()))
}

} // verus!
