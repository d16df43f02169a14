//! Properties of the loader that relate several of its functions or hold
//! for all inputs, proved over the models that the functions' contracts use.
use vstd::prelude::*;
use crate::bundle::{
    ModuleText, bindings_error, bundle_result, exports_at, imports_error, lemma_loaded_has,
    lemma_lookup_in, loaded, lookup,
};
use crate::strip::{Scan, balance, closed_object, scan_line, scan_lines};
use crate::text::{is_ws, starts_with, trim, trim_end, trim_start};
use crate::declarations::{
    BindingView, ImportView, imports_of, is_export_list, kw_export, kw_export_default,
};
use crate::resolve::{
    ResolveErrorView, index_js, join_path, package_candidates, package_name, package_resolution,
    package_subpath,
};

verus! {

/// Bundling is a function of the entry text and the resolved modules: the
/// same inputs give byte-identical output (or the same error).
pub proof fn bundling_is_deterministic(
    e1: Seq<char>,
    m1: Seq<ModuleText>,
    e2: Seq<char>,
    m2: Seq<ModuleText>,
)
    requires
        e1 == e2,
        m1 == m2,
    ensures
        bundle_result(e1, m1) == bundle_result(e2, m2),
{
}

proof fn lemma_loaded_from(ms: Seq<ModuleText>)
    ensures
        forall|j: int| 0 <= j < loaded(ms).len() ==> exists|i: int| 0 <= i < ms.len() && ms[i] == #[trigger] loaded(ms)[j],
        forall|j1: int, j2: int|
            0 <= j1 < j2 < loaded(ms).len() ==> #[trigger] loaded(ms)[j1].path != #[trigger] loaded(ms)[j2].path,
    decreases ms.len(),
{
    if ms.len() > 0 {
        let l = loaded(ms.drop_last());
        lemma_loaded_from(ms.drop_last());
        assert forall|j: int| 0 <= j < loaded(ms).len() implies exists|i: int|
            0 <= i < ms.len() && ms[i] == #[trigger] loaded(ms)[j] by {
            if j < l.len() {
                let i = choose|i: int| 0 <= i < ms.drop_last().len() && ms.drop_last()[i] == l[j];
                assert(ms[i] == loaded(ms)[j]);
            } else {
                assert(ms[ms.len() - 1] == loaded(ms)[j]);
            }
        }
        if lookup(l, ms.last().path) is None {
            lemma_lookup_absent(l, ms.last().path);
        }
    }
}

proof fn lemma_lookup_absent(ls: Seq<ModuleText>, p: Seq<char>)
    requires
        lookup(ls, p) is None,
    ensures
        forall|j: int| 0 <= j < ls.len() ==> #[trigger] ls[j].path != p,
    decreases ls.len(),
{
    if ls.len() > 0 {
        lemma_lookup_absent(ls.drop_last(), p);
        assert forall|j: int| 0 <= j < ls.len() implies #[trigger] ls[j].path != p by {
            if j < ls.len() - 1 {
                assert(ls.drop_last()[j] == ls[j]);
            }
        }
    }
}

/// Each module is included once: every module handed in has its path among
/// the loaded modules, no two loaded modules share a path, and every loaded
/// module is one of those handed in. The script holds the stripped text of
/// each loaded module exactly once, however often it was imported.
pub proof fn each_module_included_once(ms: Seq<ModuleText>)
    ensures
        forall|i: int|
            0 <= i < ms.len() ==> exists|j: int|
                0 <= j < loaded(ms).len() && #[trigger] loaded(ms)[j].path == #[trigger] ms[i].path,
        forall|j1: int, j2: int|
            0 <= j1 < j2 < loaded(ms).len() ==> #[trigger] loaded(ms)[j1].path != #[trigger] loaded(ms)[j2].path,
        forall|j: int|
            0 <= j < loaded(ms).len() ==> exists|i: int| 0 <= i < ms.len() && ms[i] == #[trigger] loaded(ms)[j],
{
    lemma_loaded_from(ms);
    assert forall|i: int| 0 <= i < ms.len() implies exists|j: int|
        0 <= j < loaded(ms).len() && #[trigger] loaded(ms)[j].path == #[trigger] ms[i].path by {
        lemma_loaded_has(ms, i);
        lemma_lookup_in(loaded(ms), ms[i].path);
    }
}

proof fn lemma_binding_fails(specifier: Seq<char>, bs: Seq<BindingView>, es: Seq<Seq<char>>, j: int)
    requires
        0 <= j < bs.len(),
        bs[j] is Named,
        !es.contains(bs[j]->Named_0),
    ensures
        bindings_error(specifier, bs, es) is Some,
    decreases bs.len(),
{
    if j < bs.len() - 1 {
        lemma_binding_fails(specifier, bs.drop_last(), es, j);
    }
}

proof fn lemma_import_fails(ds: Seq<ImportView>, ms: Seq<ModuleText>, i: int)
    requires
        0 <= i < ds.len(),
        bindings_error(ds[i].specifier, ds[i].bindings, exports_at(ms, ms[i].path)) is Some,
    ensures
        imports_error(ds, ms) is Some,
    decreases ds.len(),
{
    if i < ds.len() - 1 {
        lemma_import_fails(ds.drop_last(), ms, i);
    }
}

/// A named import of a name that the resolved module does not export makes
/// bundling fail: no script is produced.
pub proof fn missing_named_export_is_fatal(entry: Seq<char>, ms: Seq<ModuleText>, i: int, j: int)
    requires
        ms.len() == imports_of(entry).len(),
        0 <= i < imports_of(entry).len(),
        0 <= j < imports_of(entry)[i].bindings.len(),
        imports_of(entry)[i].bindings[j] is Named,
        !exports_at(ms, ms[i].path).contains(imports_of(entry)[i].bindings[j]->Named_0),
    ensures
        bundle_result(entry, ms) is Err,
{
    let d = imports_of(entry)[i];
    lemma_binding_fails(d.specifier, d.bindings, exports_at(ms, ms[i].path), j);
    lemma_import_fails(imports_of(entry), ms, i);
}

/// A package without `package.json` whose `index.js` exists resolves to
/// that `index.js`.
pub proof fn index_js_fallback(specifier: Seq<char>, node_modules: Seq<char>)
    requires
        package_subpath(specifier) is None,
    ensures
        package_candidates(join_path(node_modules, package_name(specifier)), None, None) == seq![
            join_path(join_path(node_modules, package_name(specifier)), index_js()),
        ],
        package_resolution(specifier, Some(node_modules), true, None, seq![true]) == Ok::<
            Seq<char>,
            ResolveErrorView,
        >(join_path(join_path(node_modules, package_name(specifier)), index_js())),
{
}

/// A bare specifier whose package directory does not exist, or for which no
/// `node_modules` directory exists at all, fails to resolve, whatever else
/// was found.
pub proof fn missing_package_is_fatal(
    specifier: Seq<char>,
    node_modules: Option<Seq<char>>,
    json: Option<Seq<char>>,
    present: Seq<bool>,
)
    ensures
        node_modules is Some ==> package_resolution(specifier, node_modules, false, json, present)
            == Err::<Seq<char>, ResolveErrorView>(
            ResolveErrorView::PackageNotFound(package_name(specifier)),
        ),
        node_modules is None ==> package_resolution(specifier, node_modules, false, json, present)
            == Err::<Seq<char>, ResolveErrorView>(ResolveErrorView::NoNodeModules(specifier)),
{
}

} // verus!

verus! {

/// The scan continued from state `s` over the lines `ls`.
pub open spec fn scan_from(s: Scan, ls: Seq<Seq<char>>) -> Scan
    decreases ls.len(),
{
    if ls.len() == 0 {
        s
    } else {
        scan_line(scan_from(s, ls.drop_last()), ls.last())
    }
}

/// The lines, each followed by `'\n'`.
pub open spec fn with_newlines(ls: Seq<Seq<char>>) -> Seq<char>
    decreases ls.len(),
{
    if ls.len() == 0 {
        Seq::empty()
    } else {
        with_newlines(ls.drop_last()) + ls.last() + seq!['\n']
    }
}

/// The brace depth after the lines, starting from `d`.
pub open spec fn depth_after(d: int, ls: Seq<Seq<char>>) -> int
    decreases ls.len(),
{
    if ls.len() == 0 {
        d
    } else {
        depth_after(d, ls.drop_last()) + balance(trim(ls.last()))
    }
}

proof fn lemma_stays_open(s: Scan, b: Seq<Seq<char>>)
    requires
        s.in_object,
        forall|k: int| 0 <= k <= b.len() ==> depth_after(s.depth, #[trigger] b.take(k)) > 0,
    ensures
        scan_from(s, b) == (Scan {
            in_object: true,
            depth: depth_after(s.depth, b),
            acc: s.acc + with_newlines(b),
            out: s.out,
        }),
    decreases b.len(),
{
    if b.len() == 0 {
        assert(s.acc + with_newlines(b) =~= s.acc);
    } else {
        let c = b.drop_last();
        assert forall|k: int| 0 <= k <= c.len() implies depth_after(s.depth, #[trigger] c.take(k))
            > 0 by {
            assert(c.take(k) =~= b.take(k));
        }
        lemma_stays_open(s, c);
        assert(b.take(b.len() as int) =~= b);
        assert(s.acc + with_newlines(c) + b.last() + seq!['\n'] =~= s.acc + with_newlines(b));
    }
}

proof fn lemma_trim_end_first(y: Seq<char>)
    requires
        y.len() > 0,
        !is_ws(y[0]),
    ensures
        trim_end(y).len() > 0,
        trim_end(y)[0] == y[0],
    decreases y.len(),
{
    if is_ws(y.last()) {
        lemma_trim_end_first(y.drop_last());
    }
}

/// A default-exported object literal over several lines is taken whole:
/// from a normal state, the opening line `export default {...` whose value
/// leaves braces open, then body lines that keep some brace open until the
/// last one closes them all, give one declaration built from the value and
/// every body line, and the scan returns to its normal state. A nested
/// closing brace ends nothing while an outer one is still open.
pub proof fn multi_line_default_object(s: Scan, open: Seq<char>, body: Seq<Seq<char>>)
    requires
        !s.in_object,
        starts_with(trim(open), kw_export_default()),
        trim(trim(open).subrange(14, trim(open).len() as int)).len() > 0,
        trim(trim(open).subrange(14, trim(open).len() as int))[0] == '{',
        balance(trim(trim(open).subrange(14, trim(open).len() as int))) > 0,
        body.len() > 0,
        forall|k: int|
            0 <= k < body.len() ==> depth_after(
                balance(trim(trim(open).subrange(14, trim(open).len() as int))),
                #[trigger] body.take(k),
            ) > 0,
        depth_after(balance(trim(trim(open).subrange(14, trim(open).len() as int))), body) <= 0,
    ensures
        scan_from(s, seq![open] + body) == (Scan {
            in_object: false,
            depth: 0,
            acc: Seq::empty(),
            out: s.out + closed_object(
                trim(trim(open).subrange(14, trim(open).len() as int)) + seq!['\n']
                    + with_newlines(body),
            ),
        }),
{
    let t = trim(open);
    let v = trim(t.subrange(14, t.len() as int));
    let x = t.subrange(6, t.len() as int);
    assert(t.subrange(0, 14) == kw_export_default());
    assert(x[0] == t[6]);
    assert(x[1] == t[7]);
    assert(is_ws(x[0]));
    assert(trim_start(x) == trim_start(x.drop_first()));
    assert(x.drop_first()[0] == 'd');
    assert(trim_start(x.drop_first()) == x.drop_first());
    lemma_trim_end_first(x.drop_first());
    assert(!is_export_list(t));
    assert(t.subrange(0, 6) =~= t.subrange(0, 14).subrange(0, 6));
    assert(kw_export_default().subrange(0, 6) =~= kw_export());
    assert(starts_with(t, kw_export()));
    let s1 = scan_line(s, open);
    assert(s1 == (Scan { in_object: true, depth: balance(v), acc: v + seq!['\n'], out: s.out }));
    let all = seq![open] + body;
    let c = body.drop_last();
    assert forall|k: int| 0 <= k <= c.len() implies depth_after(s1.depth, #[trigger] c.take(k))
        > 0 by {
        assert(c.take(k) =~= body.take(k));
    }
    lemma_stays_open(s1, c);
    lemma_scan_from_split(s, open, body);
    assert(scan_from(s, all) == scan_line(scan_from(s1, c), body.last()));
    assert(body.take(body.len() as int) =~= body);
    assert(s1.acc + with_newlines(c) + body.last() + seq!['\n'] =~= v + seq!['\n'] + with_newlines(
        body,
    ));
}

proof fn lemma_scan_from_split(s: Scan, first: Seq<char>, rest: Seq<Seq<char>>)
    ensures
        rest.len() > 0 ==> scan_from(s, seq![first] + rest) == scan_line(
            scan_from(scan_line(s, first), rest.drop_last()),
            rest.last(),
        ),
        scan_from(s, seq![first] + rest) == scan_from(scan_line(s, first), rest),
    decreases rest.len(),
{
    if rest.len() == 0 {
        assert(seq![first] + rest =~= seq![first]);
        assert(seq![first].drop_last() =~= Seq::<Seq<char>>::empty());
        assert(seq![first].last() == first);
        assert(scan_from(s, seq![first].drop_last()) == s);
        assert(scan_from(s, seq![first]) == scan_line(s, first));
        assert(scan_from(scan_line(s, first), rest) == scan_line(s, first));
    } else {
        lemma_scan_from_split(s, first, rest.drop_last());
        assert((seq![first] + rest).drop_last() =~= seq![first] + rest.drop_last());
        assert((seq![first] + rest).last() == rest.last());
        assert(scan_from(s, seq![first] + rest) == scan_line(
            scan_from(s, seq![first] + rest.drop_last()),
            rest.last(),
        ));
    }
}

} // verus!

verus! {

proof fn lemma_scan_lines_split(a: Seq<Seq<char>>, b: Seq<Seq<char>>)
    ensures
        scan_lines(a + b) == scan_from(scan_lines(a), b),
    decreases b.len(),
{
    if b.len() == 0 {
        assert(a + b =~= a);
    } else {
        lemma_scan_lines_split(a, b.drop_last());
        assert((a + b).drop_last() =~= a + b.drop_last());
        assert((a + b).last() == b.last());
    }
}

/// The multi-line default object in a whole text: when the lines before it
/// leave the scan in its normal state, the text's lines `prefix`, then the
/// opening line, then the body, give the prefix's output followed by one
/// declaration built from the value and every body line. `remove_exports`
/// is this scan over the lines of its text.
pub proof fn default_object_in_text(prefix: Seq<Seq<char>>, open: Seq<char>, body: Seq<Seq<char>>)
    requires
        !scan_lines(prefix).in_object,
        starts_with(trim(open), kw_export_default()),
        trim(trim(open).subrange(14, trim(open).len() as int)).len() > 0,
        trim(trim(open).subrange(14, trim(open).len() as int))[0] == '{',
        balance(trim(trim(open).subrange(14, trim(open).len() as int))) > 0,
        body.len() > 0,
        forall|k: int|
            0 <= k < body.len() ==> depth_after(
                balance(trim(trim(open).subrange(14, trim(open).len() as int))),
                #[trigger] body.take(k),
            ) > 0,
        depth_after(balance(trim(trim(open).subrange(14, trim(open).len() as int))), body) <= 0,
    ensures
        scan_lines(prefix + (seq![open] + body)) == (Scan {
            in_object: false,
            depth: 0,
            acc: Seq::empty(),
            out: scan_lines(prefix).out + closed_object(
                trim(trim(open).subrange(14, trim(open).len() as int)) + seq!['\n']
                    + with_newlines(body),
            ),
        }),
{
    lemma_scan_lines_split(prefix, seq![open] + body);
    multi_line_default_object(scan_lines(prefix), open, body);
}

} // verus!
