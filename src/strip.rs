//! Removing module syntax from a module's text: `export` keywords dropped,
//! export lists deleted, and the default export kept under a fixed global name.
use vstd::prelude::*;
use crate::declarations::{
    default_sentinel, drop_semicolon, export_list_line, is_export_list, kw_export,
    kw_export_default, without_semicolon,
};
use crate::text::{
    append_chars, chars_of, copy_range, count_ch, count_char, find_at, find_from, has_ch,
    has_prefix, join_chars, join_lines, lemma_count_char_le, lemma_trim_len, lines, split_lines,
    starts_with, string_from, trim, trimmed, views,
};

verus! {

/// `var __default_export_value__ = `
pub open spec fn decl_prefix() -> Seq<char> {
    seq!['v', 'a', 'r', ' '] + default_sentinel() + seq![' ', '=', ' ']
}

/// The declaration that stands for a default export of value `v`.
pub open spec fn default_decl(v: Seq<char>) -> Seq<char> {
    decl_prefix() + v + seq![';']
}

/// `export ` with its space.
pub open spec fn kw_export_space() -> Seq<char> {
    seq!['e', 'x', 'p', 'o', 'r', 't', ' ']
}

/// The line with its first `export ` removed.
pub open spec fn without_export_keyword(line: Seq<char>) -> Seq<char> {
    match find_from(line, kw_export_space(), 0) {
        Some(k) => line.take(k) + line.skip(k + 7),
        None => line,
    }
}

/// Opening braces minus closing braces.
pub open spec fn balance(s: Seq<char>) -> int {
    count_char(s, '{') - count_char(s, '}')
}

/// The state of the scan between two lines.
pub struct Scan {
    /// Inside a default-exported object literal that spans several lines.
    pub in_object: bool,
    /// Open braces of that literal not yet closed.
    pub depth: int,
    /// The literal's lines so far, each followed by `'\n'`.
    pub acc: Seq<char>,
    /// The output lines so far.
    pub out: Seq<Seq<char>>,
}

pub open spec fn scan_start() -> Scan {
    Scan { in_object: false, depth: 0, acc: Seq::empty(), out: Seq::empty() }
}

/// What the end of a multi-line object adds to the output: the text from its
/// first `{` to its last `}` as one declaration.
pub open spec fn closed_object(acc: Seq<char>) -> Seq<Seq<char>> {
    let start = match find_from(acc, seq!['{'], 0) {
        Some(a) => a,
        None => 0,
    };
    match last_close(acc) {
        Some(e) => if start < e {
            seq![default_decl(acc.subrange(start, e + 1))]
        } else {
            Seq::empty()
        },
        None => Seq::empty(),
    }
}

/// The position of the last `}` of `s`.
pub open spec fn last_close(s: Seq<char>) -> Option<int>
    decreases s.len(),
{
    if s.len() == 0 {
        None
    } else if s.last() == '}' {
        Some(s.len() - 1)
    } else {
        last_close(s.drop_last())
    }
}

/// One step of the scan.
pub open spec fn scan_line(s: Scan, line: Seq<char>) -> Scan {
    let t = trim(line);
    if s.in_object {
        let d = s.depth + balance(t);
        let acc = s.acc + line + seq!['\n'];
        if d <= 0 {
            Scan { in_object: false, depth: 0, acc: Seq::empty(), out: s.out + closed_object(acc) }
        } else {
            Scan { in_object: true, depth: d, acc: acc, out: s.out }
        }
    } else if !starts_with(t, kw_export()) {
        Scan { out: s.out.push(line), ..s }
    } else if is_export_list(t) && !t.contains('=') {
        s
    } else if starts_with(t, kw_export_default()) {
        let v = trim(t.subrange(14, t.len() as int));
        if v.len() > 0 && v[0] == '{' && balance(v) > 0 {
            Scan { in_object: true, depth: balance(v), acc: v + seq!['\n'], out: s.out }
        } else {
            Scan { out: s.out.push(default_decl(drop_semicolon(v))), ..s }
        }
    } else {
        Scan { out: s.out.push(without_export_keyword(line)), ..s }
    }
}

pub open spec fn scan_lines(ls: Seq<Seq<char>>) -> Scan
    decreases ls.len(),
{
    if ls.len() == 0 {
        scan_start()
    } else {
        scan_line(scan_lines(ls.drop_last()), ls.last())
    }
}

/// The lines that are not empty, in order.
pub open spec fn non_empty(ls: Seq<Seq<char>>) -> Seq<Seq<char>>
    decreases ls.len(),
{
    if ls.len() == 0 {
        Seq::empty()
    } else if ls.last().len() == 0 {
        non_empty(ls.drop_last())
    } else {
        non_empty(ls.drop_last()).push(ls.last())
    }
}

/// The text that the scan's output lines make: the non-empty ones joined
/// with `'\n'`, and a final `'\n'`.
pub open spec fn output_text(out: Seq<Seq<char>>) -> Seq<char> {
    join_lines(non_empty(out)) + seq!['\n']
}

/// A module's text with its module syntax removed.
pub open spec fn stripped(src: Seq<char>) -> Seq<char> {
    output_text(scan_lines(lines(src)).out)
}

} // verus!

verus! {

/// The position of the last `}` of `s`.
fn last_close_in(s: &[char]) -> (r: Option<usize>)
    ensures
        r matches Some(e) ==> last_close(s@) == Some(e as int) && e < s@.len(),
        r is None ==> last_close(s@) is None,
{
    let mut j: usize = s.len();
    assert(s@.take(j as int) =~= s@);
    while j > 0
        invariant
            j <= s@.len(),
            last_close(s@) == last_close(s@.take(j as int)),
        decreases j,
    {
        assert(s@.take(j as int).last() == s@[j - 1]);
        if s[j - 1] == '}' {
            return Some(j - 1);
        }
        assert(s@.take(j as int).drop_last() =~= s@.take(j - 1));
        j = j - 1;
    }
    None
}

/// The declaration that stands for a default export of value `v`.
fn default_decl_of(v: &[char]) -> (r: Vec<char>)
    ensures
        r@ == default_decl(v@),
{
    let mut r = vec![
        'v', 'a', 'r', ' ', '_', '_', 'd', 'e', 'f', 'a', 'u', 'l', 't', '_', 'e', 'x', 'p', 'o',
        'r', 't', '_', 'v', 'a', 'l', 'u', 'e', '_', '_', ' ', '=', ' ',
    ];
    assert(r@ =~= decl_prefix());
    append_chars(&mut r, v);
    r.push(';');
    assert(r@ =~= default_decl(v@));
    r
}

/// A line that starts with `export` and is neither an export list nor a
/// default export keeps its declaration; the first `export ` goes.
fn without_export_keyword_of(line: &[char]) -> (r: Vec<char>)
    ensures
        r@ == without_export_keyword(line@),
{
    let kw = vec!['e', 'x', 'p', 'o', 'r', 't', ' '];
    assert(kw@ =~= kw_export_space());
    let n = line.len();
    match find_at(line, kw.as_slice(), 0) {
        Some(k) => {
            let mut r = copy_range(line, 0, k);
            let rest = copy_range(line, k + 7, line.len());
            append_chars(&mut r, rest.as_slice());
            assert(r@ =~= line@.take(k as int) + line@.skip(k + 7));
            r
        },
        None => copy_range(line, 0, line.len()),
    }
}

/// Removes module syntax from a text fed to it one line at a time. It is
/// either in its normal state or inside a default-exported object literal
/// that spans several lines, where it counts the braces not yet closed.
pub struct ExportStripper {
    in_object: bool,
    depth: usize,
    acc: Vec<char>,
    out: Vec<Vec<char>>,
}

impl View for ExportStripper {
    type V = Scan;

    closed spec fn view(&self) -> Scan {
        Scan {
            in_object: self.in_object,
            depth: self.depth as int,
            acc: self.acc@,
            out: views(self.out@),
        }
    }
}

impl ExportStripper {
    pub closed spec fn wf(&self) -> bool {
        if self.in_object {
            0 < self.depth <= self.acc@.len()
        } else {
            self.depth == 0 && self.acc@.len() == 0
        }
    }

    /// A stripper in its normal state, with no output yet.
    pub fn new() -> (r: ExportStripper)
        ensures
            r.wf(),
            r@ == scan_start(),
    {
        let r = ExportStripper { in_object: false, depth: 0, acc: Vec::new(), out: Vec::new() };
        assert(r@.out =~= Seq::<Seq<char>>::empty());
        assert(r@.acc =~= Seq::<char>::empty());
        r
    }

    /// Whether the stripper is inside a multi-line default object.
    pub fn in_object(&self) -> (r: bool)
        ensures
            r == self@.in_object,
    {
        self.in_object
    }

    /// The braces of the current default object not yet closed.
    pub fn depth(&self) -> (r: usize)
        ensures
            r == self@.depth,
    {
        self.depth
    }

    fn emit(&mut self, l: Vec<char>)
        ensures
            final(self)@ == (Scan { out: old(self)@.out.push(l@), ..old(self)@ }),
            final(self).in_object == old(self).in_object,
            final(self).depth == old(self).depth,
            final(self).acc == old(self).acc,
    {
        let ghost o = self.out@;
        self.out.push(l);
        assert(views(self.out@) =~= views(o).push(l@));
    }

    /// Takes one line of the text.
    pub fn feed(&mut self, line: &[char])
        requires
            old(self).wf(),
        ensures
            final(self).wf(),
            final(self)@ == scan_line(old(self)@, line@),
    {
        let t = trimmed(line);
        proof {
            lemma_trim_len(line@);
            lemma_count_char_le(t@, '{');
            lemma_count_char_le(t@, '}');
        }
        if self.in_object {
            let opens = count_ch(t.as_slice(), '{');
            let closes = count_ch(t.as_slice(), '}');
            let ghost acc0 = self.acc@;
            append_chars(&mut self.acc, line);
            self.acc.push('\n');
            assert(self.acc@ =~= acc0 + line@ + seq!['\n']);
            let n = self.acc.len();
            assert(self.depth + opens <= n);
            let total = self.depth + opens;
            if closes >= total {
                let acc = copy_range(self.acc.as_slice(), 0, self.acc.len());
                assert(acc@ =~= self.acc@);
                self.acc = Vec::new();
                let open = vec!['{'];
                assert(open@ =~= seq!['{']);
                let start: usize = match find_at(acc.as_slice(), open.as_slice(), 0) {
                    Some(a) => a,
                    None => 0,
                };
                match last_close_in(acc.as_slice()) {
                    Some(e) => {
                        if start < e {
                            let body = copy_range(acc.as_slice(), start, e + 1);
                            let d = default_decl_of(body.as_slice());
                            self.emit(d);
                        }
                    },
                    None => {},
                }
                self.in_object = false;
                self.depth = 0;
                assert(self@.acc =~= Seq::<char>::empty());
                assert(self@.out =~= old(self)@.out + closed_object(acc@));
            } else {
                self.depth = total - closes;
            }
            return;
        }
        let kw = vec!['e', 'x', 'p', 'o', 'r', 't'];
        let kwd = vec!['e', 'x', 'p', 'o', 'r', 't', ' ', 'd', 'e', 'f', 'a', 'u', 'l', 't'];
        assert(kw@ == kw_export());
        assert(kwd@ == kw_export_default());
        if !has_prefix(t.as_slice(), kw.as_slice()) {
            let l = copy_range(line, 0, line.len());
            assert(l@ =~= line@);
            self.emit(l);
            return;
        }
        if export_list_line(t.as_slice()) && !has_ch(t.as_slice(), '=') {
            return;
        }
        if has_prefix(t.as_slice(), kwd.as_slice()) {
            let v = trimmed(copy_range(t.as_slice(), 14, t.len()).as_slice());
            proof {
                lemma_count_char_le(v@, '{');
            }
            let opens = count_ch(v.as_slice(), '{');
            let closes = count_ch(v.as_slice(), '}');
            if v.len() > 0 && v[0] == '{' && opens > closes {
                let mut acc = v;
                acc.push('\n');
                assert(acc@ =~= v@ + seq!['\n']);
                self.acc = acc;
                self.depth = opens - closes;
                self.in_object = true;
            } else {
                let d = default_decl_of(without_semicolon(v.as_slice()).as_slice());
                self.emit(d);
            }
            return;
        }
        let l = without_export_keyword_of(line);
        self.emit(l);
    }

    /// Takes one line of the text.
    pub fn feed_line(&mut self, line: &str)
        requires
            old(self).wf(),
        ensures
            final(self).wf(),
            final(self)@ == scan_line(old(self)@, line@),
    {
        let cs = chars_of(line);
        self.feed(cs.as_slice());
    }

    /// The text made so far: the non-empty output lines joined with `'\n'`,
    /// and a final `'\n'`. A default object still open is left out.
    pub fn finish(&self) -> (r: String)
        ensures
            r@ == output_text(self@.out),
    {
        let mut kept: Vec<Vec<char>> = Vec::new();
        let mut i: usize = 0;
        while i < self.out.len()
            invariant
                i <= self.out@.len(),
                views(kept@) == non_empty(views(self.out@).take(i as int)),
            decreases self.out.len() - i,
        {
            let ghost ls = views(self.out@);
            assert(ls.take(i + 1).drop_last() =~= ls.take(i as int));
            assert(ls.take(i + 1).last() == self.out@[i as int]@);
            if self.out[i].len() > 0 {
                let ghost k0 = kept@;
                let l = copy_range(self.out[i].as_slice(), 0, self.out[i].len());
                assert(l@ =~= self.out@[i as int]@);
                kept.push(l);
                assert(views(kept@) =~= views(k0).push(self.out@[i as int]@));
            }
            i = i + 1;
        }
        assert(views(self.out@).take(i as int) =~= views(self.out@));
        let mut text = join_chars(&kept, '\n');
        text.push('\n');
        string_from(text.as_slice())
    }
}

/// A module's text with its module syntax removed: `export { ... }` lists
/// deleted, a default export kept as `var __default_export_value__ = ...;`
/// (an object literal over several lines as one declaration), the `export`
/// keyword dropped from other declarations, and empty lines dropped.
pub fn remove_exports(js_code: &str) -> (r: String)
    ensures
        r@ == stripped(js_code@),
{
    let cs = chars_of(js_code);
    let ls = split_lines(cs.as_slice());
    let mut st = ExportStripper::new();
    let mut i: usize = 0;
    while i < ls.len()
        invariant
            i <= ls@.len(),
            views(ls@) == lines(js_code@),
            st.wf(),
            st@ == scan_lines(views(ls@).take(i as int)),
        decreases ls.len() - i,
    {
        let ghost before = views(ls@).take(i as int);
        assert(views(ls@).take(i + 1).drop_last() =~= before);
        assert(views(ls@).take(i + 1).last() == ls@[i as int]@);
        st.feed(ls[i].as_slice());
        i = i + 1;
    }
    assert(views(ls@).take(i as int) =~= views(ls@));
    st.finish()
}

} // verus!
