//! Reading `import` and `export` declarations out of module text, one line
//! at a time.
use vstd::prelude::*;
use crate::text::{
    chars_of, copy_range, occurs_here, occurs_at, find_at, find_from, has_ch, has_prefix, is_whitespace, is_ws, lines,
    pieces, same_chars, split_lines, split_on, starts_with, string_from, trim, trimmed, views,
    words, words_of,
};

verus! {

/// One name that an `import` asks of a module.
#[derive(Debug, Clone, PartialEq, Eq)]
pub enum Binding {
    /// `import { name } from ...`
    Named(String),
    /// `import alias from ...`: the module's default export under a local name.
    Default(String),
}

pub enum BindingView {
    Named(Seq<char>),
    Default(Seq<char>),
}

impl View for Binding {
    type V = BindingView;

    open spec fn view(&self) -> BindingView {
        match self {
            Binding::Named(n) => BindingView::Named(n@),
            Binding::Default(a) => BindingView::Default(a@),
        }
    }
}

/// One `import ... from '...'` line: what it asks for, and from where.
#[derive(Debug, Clone, PartialEq, Eq)]
pub struct ImportDecl {
    pub bindings: Vec<Binding>,
    pub specifier: String,
}

pub struct ImportView {
    pub bindings: Seq<BindingView>,
    pub specifier: Seq<char>,
}

impl View for ImportDecl {
    type V = ImportView;

    open spec fn view(&self) -> ImportView {
        ImportView {
            bindings: self.bindings@.map_values(|b: Binding| b@),
            specifier: self.specifier@,
        }
    }
}

pub open spec fn kw_import() -> Seq<char> {
    seq!['i', 'm', 'p', 'o', 'r', 't']
}

pub open spec fn kw_from() -> Seq<char> {
    seq!['f', 'r', 'o', 'm']
}

pub open spec fn kw_export() -> Seq<char> {
    seq!['e', 'x', 'p', 'o', 'r', 't']
}

/// `export default`
pub open spec fn kw_export_default() -> Seq<char> {
    seq!['e', 'x', 'p', 'o', 'r', 't', ' ', 'd', 'e', 'f', 'a', 'u', 'l', 't']
}

/// The name under which a module's default export is kept in the flat script;
/// in an export set it marks that the module has a default export.
pub open spec fn default_sentinel() -> Seq<char> {
    seq![
        '_', '_', 'd', 'e', 'f', 'a', 'u', 'l', 't', '_', 'e', 'x', 'p', 'o', 'r', 't', '_',
        'v', 'a', 'l', 'u', 'e', '_', '_',
    ]
}

pub open spec fn is_ident_char(c: char) -> bool {
    ('a' <= c && c <= 'z') || ('A' <= c && c <= 'Z') || ('0' <= c && c <= '9') || c == '_' || c
        == '$' || (c >= '\u{80}' && !is_ws(c))
}

/// A plain identifier: not empty, no leading digit, identifier characters only.
pub open spec fn is_identifier(s: Seq<char>) -> bool {
    s.len() > 0 && !('0' <= s[0] && s[0] <= '9') && forall|i: int|
        0 <= i < s.len() ==> is_ident_char(#[trigger] s[i])
}

/// The trimmed pieces that are not empty, in order.
pub open spec fn names_in(ps: Seq<Seq<char>>) -> Seq<Seq<char>>
    decreases ps.len(),
{
    if ps.len() == 0 {
        Seq::empty()
    } else {
        let r = names_in(ps.drop_last());
        if trim(ps.last()).len() > 0 {
            r.push(trim(ps.last()))
        } else {
            r
        }
    }
}

/// The names of a comma-separated list.
pub open spec fn name_list(s: Seq<char>) -> Seq<Seq<char>> {
    names_in(pieces(s, ','))
}

/// `s` without one trailing semicolon.
pub open spec fn drop_semicolon(s: Seq<char>) -> Seq<char> {
    if s.len() > 0 && s.last() == ';' {
        s.drop_last()
    } else {
        s
    }
}

pub open spec fn is_quoted(s: Seq<char>) -> bool {
    s.len() >= 2 && ((s[0] == '\'' && s.last() == '\'') || (s[0] == '"' && s.last() == '"'))
}

/// What a binding clause (the text between `import` and `from`) asks for:
/// a brace list of names, or one identifier for the default export.
pub open spec fn clause_bindings(c: Seq<char>) -> Option<Seq<BindingView>> {
    if c.len() >= 2 && c[0] == '{' && c.last() == '}' {
        Some(name_list(c.subrange(1, c.len() - 1)).map_values(|n: Seq<char>| BindingView::Named(n)))
    } else if is_identifier(c) {
        Some(seq![BindingView::Default(c)])
    } else {
        None
    }
}

/// The text after a `from` at position `i` of `t`: trimmed, one trailing
/// semicolon dropped, and trimmed again.
pub open spec fn target_after(t: Seq<char>, i: int) -> Seq<char> {
    trim(drop_semicolon(trim(t.subrange(i + 4, t.len() as int))))
}

/// Whether the `from` at position `i` of `t` is the keyword that introduces
/// the specifier: it stands after the `import` keyword, has whitespace or `}`
/// before it and whitespace or a quote after it, and a quoted specifier is
/// all that follows it.
pub open spec fn is_from_keyword(t: Seq<char>, i: int) -> bool {
    7 <= i && occurs_at(t, kw_from(), i) && i + 4 < t.len() && (is_ws(t[i - 1]) || t[i - 1]
        == '}') && (is_ws(t[i + 4]) || t[i + 4] == '\'' || t[i + 4] == '"') && is_quoted(
        target_after(t, i),
    )
}

/// The first position at or after `k` where `t` holds the `from` keyword.
pub open spec fn from_keyword(t: Seq<char>, k: int) -> Option<int>
    decreases t.len() + 1 - k,
{
    if k < 0 || k > t.len() {
        None
    } else if is_from_keyword(t, k) {
        Some(k)
    } else {
        from_keyword(t, k + 1)
    }
}

/// The import declaration on one line, if the line holds one: its trimmed
/// text starts with `import` and holds the `from` keyword; the clause
/// between the two is a recognised form, and the quoted specifier after
/// `from` is taken without its quotes.
pub open spec fn import_of_line(line: Seq<char>) -> Option<ImportView> {
    let t = trim(line);
    if starts_with(t, kw_import()) {
        match from_keyword(t, 7) {
            Some(i) => match clause_bindings(trim(t.subrange(6, i))) {
                Some(bs) => Some(
                    ImportView {
                        bindings: bs,
                        specifier: target_after(t, i).subrange(1, target_after(t, i).len() - 1),
                    },
                ),
                None => None,
            },
            None => None,
        }
    } else {
        None
    }
}

/// The import declarations of the given lines, in line order.
pub open spec fn imports_of_lines(ls: Seq<Seq<char>>) -> Seq<ImportView>
    decreases ls.len(),
{
    if ls.len() == 0 {
        Seq::empty()
    } else {
        let r = imports_of_lines(ls.drop_last());
        match import_of_line(ls.last()) {
            Some(d) => r.push(d),
            None => r,
        }
    }
}

/// The import declarations of a module's text.
pub open spec fn imports_of(src: Seq<char>) -> Seq<ImportView> {
    imports_of_lines(lines(src))
}

} // verus!

verus! {

/// The names of a comma-separated list: pieces trimmed, empty ones dropped.
fn names_of(s: &[char]) -> (r: Vec<Vec<char>>)
    ensures
        views(r@) == name_list(s@),
{
    let ps = split_on(s, ',');
    let mut r: Vec<Vec<char>> = Vec::new();
    let mut i: usize = 0;
    while i < ps.len()
        invariant
            i <= ps@.len(),
            views(ps@) == pieces(s@, ','),
            views(r@) == names_in(views(ps@).take(i as int)),
        decreases ps.len() - i,
    {
        let ghost before = views(ps@).take(i as int);
        assert(views(ps@).take(i + 1).drop_last() =~= before);
        let t = trimmed(ps[i].as_slice());
        if t.len() > 0 {
            let ghost r0 = r@;
            r.push(t);
            assert(views(r@) =~= views(r0).push(t@));
        }
        i = i + 1;
    }
    assert(views(ps@).take(i as int) =~= views(ps@));
    r
}

/// `s` without one trailing semicolon.
pub fn without_semicolon(s: &[char]) -> (r: Vec<char>)
    ensures
        r@ == drop_semicolon(s@),
{
    let n: usize = if s.len() > 0 && s[s.len() - 1] == ';' {
        s.len() - 1
    } else {
        s.len()
    };
    let r = copy_range(s, 0, n);
    assert(r@ =~= drop_semicolon(s@));
    r
}

fn is_ident_ch(c: char) -> (r: bool)
    ensures
        r == is_ident_char(c),
{
    ('a' <= c && c <= 'z') || ('A' <= c && c <= 'Z') || ('0' <= c && c <= '9') || c == '_' || c
        == '$' || (c >= '\u{80}' && !is_whitespace(c))
}

fn is_ident(s: &[char]) -> (r: bool)
    ensures
        r == is_identifier(s@),
{
    if s.len() == 0 || ('0' <= s[0] && s[0] <= '9') {
        return false;
    }
    let mut i: usize = 0;
    while i < s.len()
        invariant
            i <= s@.len(),
            forall|j: int| 0 <= j < i ==> is_ident_char(#[trigger] s@[j]),
        decreases s.len() - i,
    {
        if !is_ident_ch(s[i]) {
            return false;
        }
        i = i + 1;
    }
    true
}

fn bindings_of_clause(c: &[char]) -> (r: Option<Vec<Binding>>)
    ensures
        r matches Some(v) ==> clause_bindings(c@) == Some(v@.map_values(|b: Binding| b@)),
        r is None ==> clause_bindings(c@) is None,
{
    if c.len() >= 2 && c[0] == '{' && c[c.len() - 1] == '}' {
        let inner = copy_range(c, 1, c.len() - 1);
        let names = names_of(inner.as_slice());
        let mut v: Vec<Binding> = Vec::new();
        let mut i: usize = 0;
        while i < names.len()
            invariant
                i <= names@.len(),
                v@.map_values(|b: Binding| b@) == views(names@).take(i as int).map_values(
                    |n: Seq<char>| BindingView::Named(n),
                ),
            decreases names.len() - i,
        {
            let ghost v0 = v@;
            v.push(Binding::Named(string_from(names[i].as_slice())));
            assert(v@.map_values(|b: Binding| b@) =~= v0.map_values(|b: Binding| b@).push(
                BindingView::Named(names@[i as int]@),
            ));
            assert(views(names@).take(i + 1).map_values(|n: Seq<char>| BindingView::Named(n))
                =~= views(names@).take(i as int).map_values(
                |n: Seq<char>| BindingView::Named(n),
            ).push(BindingView::Named(names@[i as int]@)));
            i = i + 1;
        }
        assert(views(names@).take(i as int) =~= views(names@));
        Some(v)
    } else if is_ident(c) {
        let v = vec![Binding::Default(string_from(c))];
        assert(v@.map_values(|b: Binding| b@) =~= seq![BindingView::Default(c@)]);
        Some(v)
    } else {
        None
    }
}

/// The text after a `from` at position `i` of `t`.
fn target_after_of(t: &[char], i: usize) -> (r: Vec<char>)
    requires
        i + 4 <= t@.len(),
    ensures
        r@ == target_after(t@, i as int),
{
    let n = t.len();
    let after = trimmed(copy_range(t, i + 4, n).as_slice());
    trimmed(without_semicolon(after.as_slice()).as_slice())
}

fn is_quoted_of(s: &[char]) -> (r: bool)
    ensures
        r == is_quoted(s@),
{
    let m = s.len();
    m >= 2 && ((s[0] == '\'' && s[m - 1] == '\'') || (s[0] == '"' && s[m - 1] == '"'))
}

/// Whether `t` holds the `from` keyword at position `i`.
fn from_keyword_at(t: &[char], i: usize) -> (r: bool)
    requires
        i <= t@.len(),
    ensures
        r == is_from_keyword(t@, i as int),
{
    let n = t.len();
    let from = vec!['f', 'r', 'o', 'm'];
    assert(from@ =~= kw_from());
    if i < 7 || !occurs_here(t, from.as_slice(), i) || i + 4 >= t.len() {
        return false;
    }
    let b = t[i - 1];
    let a = t[i + 4];
    if !(is_whitespace(b) || b == '}') || !(is_whitespace(a) || a == '\'' || a == '"') {
        return false;
    }
    is_quoted_of(target_after_of(t, i).as_slice())
}

/// The import declaration on one line, if it holds one.
fn import_in_line(line: &[char]) -> (r: Option<ImportDecl>)
    ensures
        r matches Some(d) ==> import_of_line(line@) == Some(d@),
        r is None ==> import_of_line(line@) is None,
{
    let t = trimmed(line);
    let tn = t.len();
    let kw = vec!['i', 'm', 'p', 'o', 'r', 't'];
    assert(kw@ == kw_import());
    if !has_prefix(t.as_slice(), kw.as_slice()) {
        return None;
    }
    if tn < 7 {
        return None;
    }
    let mut i: usize = 7;
    while i < tn && !from_keyword_at(t.as_slice(), i)
        invariant
            7 <= i,
            tn == t@.len(),
            from_keyword(t@, 7) == from_keyword(t@, i as int),
        decreases tn + 1 - i,
    {
        i = i + 1;
    }
    if i >= tn {
        assert(!is_from_keyword(t@, tn as int));
        assert(from_keyword(t@, tn + 1) is None);
        return None;
    }
    let clause = trimmed(copy_range(t.as_slice(), 6, i).as_slice());
    let bs = match bindings_of_clause(clause.as_slice()) {
        Some(bs) => bs,
        None => return None,
    };
    let target = target_after_of(t.as_slice(), i);
    let m = target.len();
    let spec_chars = copy_range(target.as_slice(), 1, m - 1);
    Some(ImportDecl { bindings: bs, specifier: string_from(spec_chars.as_slice()) })
}

/// The import declarations of a module's text, in line order.
pub fn extract_imports(js_code: &str) -> (r: Vec<ImportDecl>)
    ensures
        r@.map_values(|d: ImportDecl| d@) == imports_of(js_code@),
{
    let cs = chars_of(js_code);
    let ls = split_lines(cs.as_slice());
    let mut r: Vec<ImportDecl> = Vec::new();
    let mut i: usize = 0;
    while i < ls.len()
        invariant
            i <= ls@.len(),
            views(ls@) == lines(js_code@),
            r@.map_values(|d: ImportDecl| d@) == imports_of_lines(views(ls@).take(i as int)),
        decreases ls.len() - i,
    {
        let ghost before = views(ls@).take(i as int);
        assert(views(ls@).take(i + 1).drop_last() =~= before);
        assert(views(ls@).take(i + 1).last() == ls@[i as int]@);
        match import_in_line(ls[i].as_slice()) {
            Some(d) => {
                let ghost r0 = r@;
                r.push(d);
                assert(r@.map_values(|d: ImportDecl| d@) =~= r0.map_values(|d: ImportDecl| d@).push(
                    r@.last()@,
                ));
            },
            None => {},
        }
        i = i + 1;
    }
    assert(views(ls@).take(i as int) =~= views(ls@));
    r
}

} // verus!

verus! {

pub open spec fn declaration_keyword(w: Seq<char>) -> bool {
    w == seq!['f', 'u', 'n', 'c', 't', 'i', 'o', 'n'] || w == seq!['c', 'o', 'n', 's', 't'] || w
        == seq!['l', 'e', 't'] || w == seq!['v', 'a', 'r'] || w == seq![
        'c',
        'l',
        'a',
        's',
        's',
    ]
}

/// The part of `w` before its first `(`.
pub open spec fn before_paren(w: Seq<char>) -> Seq<char> {
    match find_from(w, seq!['('], 0) {
        Some(k) => w.take(k),
        None => w,
    }
}

/// An `export { ... }` line: after the keyword comes a brace, and a closing
/// brace follows somewhere on the line.
pub open spec fn is_export_list(t: Seq<char>) -> bool {
    let rest = trim(t.subrange(6, t.len() as int));
    rest.len() > 0 && rest[0] == '{' && t.contains('}')
}

/// The names listed between the first `{` and the first `}` of the line.
pub open spec fn export_list_names(t: Seq<char>) -> Seq<Seq<char>> {
    match (find_from(t, seq!['{'], 0), find_from(t, seq!['}'], 0)) {
        (Some(a), Some(b)) => if a < b {
            name_list(t.subrange(a + 1, b))
        } else {
            Seq::empty()
        },
        _ => Seq::empty(),
    }
}

/// The names that one line exports; the default export is recorded as
/// `default_sentinel()`.
pub open spec fn exports_of_line(line: Seq<char>) -> Seq<Seq<char>> {
    let t = trim(line);
    if !starts_with(t, kw_export()) {
        Seq::empty()
    } else if is_export_list(t) {
        export_list_names(t)
    } else if starts_with(t, kw_export_default()) {
        seq![default_sentinel()]
    } else {
        let w = words(t);
        if w.len() >= 3 && declaration_keyword(w[1]) {
            seq![before_paren(w[2])]
        } else {
            Seq::empty()
        }
    }
}

pub open spec fn exports_of_lines(ls: Seq<Seq<char>>) -> Seq<Seq<char>>
    decreases ls.len(),
{
    if ls.len() == 0 {
        Seq::empty()
    } else {
        exports_of_lines(ls.drop_last()) + exports_of_line(ls.last())
    }
}

/// The names that a module's text exports, in line order.
pub open spec fn exports_of(src: Seq<char>) -> Seq<Seq<char>> {
    exports_of_lines(lines(src))
}

fn is_declaration_keyword(w: &[char]) -> (r: bool)
    ensures
        r == declaration_keyword(w@),
{
    let f = vec!['f', 'u', 'n', 'c', 't', 'i', 'o', 'n'];
    let c = vec!['c', 'o', 'n', 's', 't'];
    let l = vec!['l', 'e', 't'];
    let v = vec!['v', 'a', 'r'];
    let k = vec!['c', 'l', 'a', 's', 's'];
    same_chars(w, f.as_slice()) || same_chars(w, c.as_slice()) || same_chars(w, l.as_slice())
        || same_chars(w, v.as_slice()) || same_chars(w, k.as_slice())
}

/// Whether the trimmed line `t`, which starts with `export`, is an
/// `export { ... }` line.
pub fn export_list_line(t: &[char]) -> (r: bool)
    requires
        starts_with(t@, kw_export()),
    ensures
        r == is_export_list(t@),
{
    let rest = trimmed(copy_range(t, 6, t.len()).as_slice());
    rest.len() > 0 && rest[0] == '{' && has_ch(t, '}')
}

/// The names that one line exports.
fn exports_in_line(line: &[char]) -> (r: Vec<Vec<char>>)
    ensures
        views(r@) == exports_of_line(line@),
{
    let t = trimmed(line);
    let kw = vec!['e', 'x', 'p', 'o', 'r', 't'];
    let kwd = vec!['e', 'x', 'p', 'o', 'r', 't', ' ', 'd', 'e', 'f', 'a', 'u', 'l', 't'];
    assert(kw@ == kw_export());
    assert(kwd@ == kw_export_default());
    if !has_prefix(t.as_slice(), kw.as_slice()) {
        let r: Vec<Vec<char>> = Vec::new();
        assert(views(r@) =~= Seq::empty());
        return r;
    }
    if export_list_line(t.as_slice()) {
        let open = vec!['{'];
        let close = vec!['}'];
        assert(open@ =~= seq!['{']);
        assert(close@ =~= seq!['}']);
        let a = find_at(t.as_slice(), open.as_slice(), 0);
        let b = find_at(t.as_slice(), close.as_slice(), 0);
        match (a, b) {
            (Some(a), Some(b)) => {
                if a < b {
                    let inner = copy_range(t.as_slice(), a + 1, b);
                    return names_of(inner.as_slice());
                }
            },
            _ => {},
        }
        let r: Vec<Vec<char>> = Vec::new();
        assert(views(r@) =~= Seq::empty());
        return r;
    }
    if has_prefix(t.as_slice(), kwd.as_slice()) {
        let r = vec![
            vec![
                '_', '_', 'd', 'e', 'f', 'a', 'u', 'l', 't', '_', 'e', 'x', 'p', 'o', 'r', 't', '_',
                'v', 'a', 'l', 'u', 'e', '_', '_',
            ],
        ];
        assert(r@[0]@ =~= default_sentinel());
        assert(views(r@) =~= seq![default_sentinel()]);
        return r;
    }
    let w = words_of(t.as_slice());
    if w.len() >= 3 && is_declaration_keyword(w[1].as_slice()) {
        let paren = vec!['('];
        assert(paren@ =~= seq!['(']);
        let name = match find_at(w[2].as_slice(), paren.as_slice(), 0) {
            Some(k) => copy_range(w[2].as_slice(), 0, k),
            None => copy_range(w[2].as_slice(), 0, w[2].len()),
        };
        assert(name@ =~= before_paren(w@[2]@));
        let r = vec![name];
        assert(views(r@) =~= seq![before_paren(w@[2]@)]);
        r
    } else {
        let r: Vec<Vec<char>> = Vec::new();
        assert(views(r@) =~= Seq::empty());
        r
    }
}

/// The names that a module's text exports, in line order; a default export
/// is recorded as `__default_export_value__`.
pub fn extract_exports(js_code: &str) -> (r: Vec<String>)
    ensures
        r@.map_values(|s: String| s@) == exports_of(js_code@),
{
    let cs = chars_of(js_code);
    let ls = split_lines(cs.as_slice());
    let mut r: Vec<String> = Vec::new();
    let mut i: usize = 0;
    while i < ls.len()
        invariant
            i <= ls@.len(),
            views(ls@) == lines(js_code@),
            r@.map_values(|s: String| s@) == exports_of_lines(views(ls@).take(i as int)),
        decreases ls.len() - i,
    {
        let ghost before = views(ls@).take(i as int);
        assert(views(ls@).take(i + 1).drop_last() =~= before);
        assert(views(ls@).take(i + 1).last() == ls@[i as int]@);
        let names = exports_in_line(ls[i].as_slice());
        let ghost r0 = r@.map_values(|s: String| s@);
        let mut k: usize = 0;
        while k < names.len()
            invariant
                k <= names@.len(),
                r@.map_values(|s: String| s@) == r0 + views(names@).take(k as int),
            decreases names.len() - k,
        {
            let ghost r1 = r@;
            r.push(string_from(names[k].as_slice()));
            assert(r@.map_values(|s: String| s@) =~= r1.map_values(|s: String| s@).push(
                names@[k as int]@,
            ));
            assert(views(names@).take(k + 1) =~= views(names@).take(k as int).push(
                names@[k as int]@,
            ));
            k = k + 1;
        }
        assert(views(names@).take(k as int) =~= views(names@));
        i = i + 1;
    }
    assert(views(ls@).take(i as int) =~= views(ls@));
    r
}

} // verus!
