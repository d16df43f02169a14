//! The logic of the one-shot static responder: reading the request line,
//! choosing the file to send, the response heads, and the access-log line
//! with its timestamp.
use vstd::prelude::*;
use crate::resolve::{join_path, join_path_of, string_views};
use crate::text::{append_chars, chars_of, copy_range, find_at, find_from, string_from};

verus! {

pub open spec fn digit_char(d: int) -> char {
    if d == 0 {
        '0'
    } else if d == 1 {
        '1'
    } else if d == 2 {
        '2'
    } else if d == 3 {
        '3'
    } else if d == 4 {
        '4'
    } else if d == 5 {
        '5'
    } else if d == 6 {
        '6'
    } else if d == 7 {
        '7'
    } else if d == 8 {
        '8'
    } else {
        '9'
    }
}

/// The decimal digits of `n`, without leading zeros.
pub open spec fn decimal(n: nat) -> Seq<char>
    decreases n,
{
    if n < 10 {
        seq![digit_char(n as int)]
    } else {
        decimal(n / 10).push(digit_char((n % 10) as int))
    }
}

/// The decimal digits of `n`, with zeros in front up to width `w`.
pub open spec fn padded(n: nat, w: nat) -> Seq<char> {
    if decimal(n).len() < w {
        Seq::new((w - decimal(n).len()) as nat, |i: int| '0') + decimal(n)
    } else {
        decimal(n)
    }
}

fn digit_of(d: u64) -> (c: char)
    requires
        d < 10,
    ensures
        c == digit_char(d as int),
{
    if d == 0 {
        '0'
    } else if d == 1 {
        '1'
    } else if d == 2 {
        '2'
    } else if d == 3 {
        '3'
    } else if d == 4 {
        '4'
    } else if d == 5 {
        '5'
    } else if d == 6 {
        '6'
    } else if d == 7 {
        '7'
    } else if d == 8 {
        '8'
    } else {
        '9'
    }
}

fn push_decimal(out: &mut Vec<char>, n: u64)
    ensures
        final(out)@ == old(out)@ + decimal(n as nat),
    decreases n,
{
    if n >= 10 {
        push_decimal(out, n / 10);
    }
    out.push(digit_of(n % 10));
    proof {
        if n >= 10 {
            assert(old(out)@ + decimal((n / 10) as nat) + seq![digit_char((n % 10) as int)]
                =~= old(out)@ + decimal(n as nat));
        } else {
            assert(old(out)@ + seq![digit_char(n as int)] =~= old(out)@ + decimal(n as nat));
        }
    }
}

fn push_padded(out: &mut Vec<char>, n: u64, w: usize)
    ensures
        final(out)@ == old(out)@ + padded(n as nat, w as nat),
{
    let mut digits: Vec<char> = Vec::new();
    push_decimal(&mut digits, n);
    assert(digits@ =~= decimal(n as nat));
    if digits.len() < w {
        let k = w - digits.len();
        let ghost o = out@;
        let mut i: usize = 0;
        while i < k
            invariant
                i <= k,
                out@ == o + Seq::new(i as nat, |j: int| '0'),
            decreases k - i,
        {
            out.push('0');
            i = i + 1;
            assert(out@ =~= o + Seq::new(i as nat, |j: int| '0'));
        }
        append_chars(out, digits.as_slice());
        assert(out@ =~= o + padded(n as nat, w as nat));
    } else {
        append_chars(out, digits.as_slice());
    }
}

/// The decimal digits of `n`.
pub fn decimal_text(n: u64) -> (r: String)
    ensures
        r@ == decimal(n as nat),
{
    let mut v: Vec<char> = Vec::new();
    push_decimal(&mut v, n);
    assert(v@ =~= decimal(n as nat));
    string_from(v.as_slice())
}

pub open spec fn month_lengths() -> Seq<int> {
    seq![31, 28, 31, 30, 31, 30, 31, 31, 30, 31, 30, 31]
}

/// Month and day of the `d`-th day (from 0) of a year, counting months from
/// the `i`-th; every year has 365 days.
pub open spec fn month_and_day(d: int, i: int) -> (int, int)
    decreases 12 - i,
{
    if i >= 12 || i < 0 {
        (i + 1, d + 1)
    } else if d < month_lengths()[i] {
        (i + 1, d + 1)
    } else {
        month_and_day(d - month_lengths()[i], i + 1)
    }
}

/// `YYYY-MM-DD HH:MM:SS.mmm` for a time in seconds since 1970 and its
/// milliseconds. The calendar is simplified: 365-day years, February of 28 days.
pub open spec fn timestamp(secs: nat, millis: nat) -> Seq<char> {
    let days = secs / 86400;
    let in_day = secs % 86400;
    let md = month_and_day((days % 365) as int, 0);
    padded(1970 + days / 365, 4) + seq!['-'] + padded(md.0 as nat, 2) + seq!['-'] + padded(
        md.1 as nat,
        2,
    ) + seq![' '] + padded(in_day / 3600, 2) + seq![':'] + padded((in_day % 3600) / 60, 2)
        + seq![':'] + padded(in_day % 60, 2) + seq!['.'] + padded(millis, 3)
}

/// The log timestamp for a time in seconds since 1970 and its milliseconds.
pub fn format_timestamp(secs: u64, millis: u32) -> (r: String)
    ensures
        r@ == timestamp(secs as nat, millis as nat),
{
    let days = secs / 86400;
    let in_day = secs % 86400;
    let table: Vec<u64> = vec![31, 28, 31, 30, 31, 30, 31, 31, 30, 31, 30, 31];
    let mut d: u64 = days % 365;
    let mut i: usize = 0;
    while i < 12 && d >= table[i]
        invariant
            i <= 12,
            d <= days % 365,
            table@.len() == 12,
            forall|k: int| 0 <= k < 12 ==> table@[k] == month_lengths()[k],
            month_and_day((days % 365) as int, 0) == month_and_day(d as int, i as int),
        decreases 12 - i,
    {
        d = d - table[i];
        i = i + 1;
    }
    let mut v: Vec<char> = Vec::new();
    push_padded(&mut v, 1970 + days / 365, 4);
    v.push('-');
    push_padded(&mut v, (i + 1) as u64, 2);
    v.push('-');
    push_padded(&mut v, d + 1, 2);
    v.push(' ');
    push_padded(&mut v, in_day / 3600, 2);
    v.push(':');
    push_padded(&mut v, (in_day % 3600) / 60, 2);
    v.push(':');
    push_padded(&mut v, in_day % 60, 2);
    v.push('.');
    push_padded(&mut v, millis as u64, 3);
    assert(v@ =~= timestamp(secs as nat, millis as nat));
    string_from(v.as_slice())
}

/// The method and the target of a request: the text before the first space,
/// and the text from there to the next space; `UNKNOWN` and `/` when the
/// request has no such two spaces.
pub open spec fn request_target(req: Seq<char>) -> (Seq<char>, Seq<char>) {
    match find_from(req, seq![' '], 0) {
        Some(a) => match find_from(req.skip(a + 1), seq![' '], 0) {
            Some(b) => (req.take(a), req.subrange(a + 1, a + 1 + b)),
            None => ("UNKNOWN"@, "/"@),
        },
        None => ("UNKNOWN"@, "/"@),
    }
}

/// `s` without the slashes at its start.
pub open spec fn without_leading_slashes(s: Seq<char>) -> Seq<char>
    decreases s.len(),
{
    if s.len() > 0 && s[0] == '/' {
        without_leading_slashes(s.drop_first())
    } else {
        s
    }
}

/// The file that a `GET` request asks for: the text after the first `GET `
/// up to the next space, without leading slashes, and `index.html` for `/`.
/// Nothing when the request holds no `GET `.
pub open spec fn requested_file(req: Seq<char>) -> Option<Seq<char>> {
    match find_from(req, "GET "@, 0) {
        Some(p) => {
            let rest = req.skip(p + 4);
            let raw = match find_from(rest, seq![' '], 0) {
                Some(e) => rest.take(e),
                None => rest,
            };
            if raw == "/"@ {
                Some("index.html"@)
            } else {
                Some(without_leading_slashes(raw))
            }
        },
        None => None,
    }
}

/// The method and the target of a request.
pub fn parse_request_target(request: &str) -> (r: (String, String))
    ensures
        (r.0@, r.1@) == request_target(request@),
{
    let s = chars_of(request);
    let n = s.len();
    let sp = vec![' '];
    assert(sp@ =~= seq![' ']);
    match find_at(s.as_slice(), sp.as_slice(), 0) {
        Some(a) => {
            let rest = copy_range(s.as_slice(), a + 1, n);
            assert(rest@ =~= s@.skip(a + 1));
            match find_at(rest.as_slice(), sp.as_slice(), 0) {
                Some(b) => {
                    let m = copy_range(s.as_slice(), 0, a);
                    let t = copy_range(s.as_slice(), a + 1, a + 1 + b);
                    assert(m@ =~= s@.take(a as int));
                    return (string_from(m.as_slice()), string_from(t.as_slice()));
                },
                None => {},
            }
        },
        None => {},
    }
    (string_from(chars_of("UNKNOWN").as_slice()), string_from(chars_of("/").as_slice()))
}

/// The file that a `GET` request asks for.
pub fn parse_requested_file(request: &str) -> (r: Option<String>)
    ensures
        r matches Some(f) ==> requested_file(request@) == Some(f@),
        r is None ==> requested_file(request@) is None,
{
    let s = chars_of(request);
    let n = s.len();
    let get = chars_of("GET ");
    proof {
        reveal_strlit("GET ");
    }
    assert(get@.len() == 4);
    let p = match find_at(s.as_slice(), get.as_slice(), 0) {
        Some(p) => p,
        None => return None,
    };
    let rest = copy_range(s.as_slice(), p + 4, n);
    assert(rest@ =~= s@.skip(p + 4));
    let sp = vec![' '];
    assert(sp@ =~= seq![' ']);
    let ghost want = match find_from(rest@, seq![' '], 0) {
        Some(e) => rest@.take(e),
        None => rest@,
    };
    let raw = match find_at(rest.as_slice(), sp.as_slice(), 0) {
        Some(e) => copy_range(rest.as_slice(), 0, e),
        None => copy_range(rest.as_slice(), 0, rest.len()),
    };
    assert(raw@ =~= want);
    let slash = chars_of("/");
    if crate::text::same_chars(raw.as_slice(), slash.as_slice()) {
        return Some(string_from(chars_of("index.html").as_slice()));
    }
    let mut i: usize = 0;
    assert(raw@.subrange(0, raw@.len() as int) =~= raw@);
    while i < raw.len() && raw[i] == '/'
        invariant
            i <= raw@.len(),
            without_leading_slashes(raw@) == without_leading_slashes(
                raw@.subrange(i as int, raw@.len() as int),
            ),
        decreases raw.len() - i,
    {
        assert(raw@.subrange(i as int, raw@.len() as int).drop_first() =~= raw@.subrange(
            i + 1,
            raw@.len() as int,
        ));
        i = i + 1;
    }
    let f = copy_range(raw.as_slice(), i, raw.len());
    assert(without_leading_slashes(f@) == f@);
    Some(string_from(f.as_slice()))
}

} // verus!

verus! {

/// The media type that `mime_guess` gives for a path.
pub uninterp spec fn mime_of(path: Seq<char>) -> Seq<char>;

/// Relies on `mime_guess::from_path(..).first_or_octet_stream()`: a guess
/// from the path's extension alone, with no disk access, and
/// `application/octet-stream` for a path without an extension.
#[verifier::external_body]
fn guess_mime(path: &str) -> (r: String)
    ensures
        r@ == mime_of(path@),
        !path@.contains('.') ==> r@ == "application/octet-stream"@,
{
    mime_guess::from_path(path).first_or_octet_stream().to_string()
}

/// The head of a response: status line, `Content-Type`, `Content-Length`,
/// and the empty line.
pub open spec fn response_head(status: Seq<char>, content_type: Seq<char>, len: nat) -> Seq<char> {
    "HTTP/1.1 "@ + status + "\r\nContent-Type: "@ + content_type + "\r\nContent-Length: "@
        + decimal(len) + "\r\n\r\n"@
}

/// The head of a `200 OK` response whose body has `len` bytes.
pub fn ok_head(content_type: &str, len: usize) -> (r: String)
    ensures
        r@ == response_head("200 OK"@, content_type@, len as nat),
{
    let mut v = chars_of("HTTP/1.1 ");
    append_chars(&mut v, chars_of("200 OK").as_slice());
    append_chars(&mut v, chars_of("\r\nContent-Type: ").as_slice());
    append_chars(&mut v, chars_of(content_type).as_slice());
    append_chars(&mut v, chars_of("\r\nContent-Length: ").as_slice());
    push_decimal(&mut v, len as u64);
    append_chars(&mut v, chars_of("\r\n\r\n").as_slice());
    assert(v@ =~= response_head("200 OK"@, content_type@, len as nat));
    string_from(v.as_slice())
}

/// The head of a `200 OK` response that sends the file at `path`, of `len`
/// bytes, with the media type guessed from its extension.
pub fn file_head(path: &str, len: usize) -> (r: String)
    ensures
        r@ == response_head("200 OK"@, mime_of(path@), len as nat),
{
    let mime = guess_mime(path);
    ok_head(mime.as_str(), len)
}

/// The whole `404 Not Found` response, with a plain-text body.
pub open spec fn not_found() -> Seq<char> {
    response_head("404 Not Found"@, "text/plain"@, 13) + "404 Not Found"@
}

/// The whole `404 Not Found` response.
pub fn not_found_response() -> (r: String)
    ensures
        r@ == not_found(),
{
    let mut v = chars_of("HTTP/1.1 ");
    append_chars(&mut v, chars_of("404 Not Found").as_slice());
    append_chars(&mut v, chars_of("\r\nContent-Type: ").as_slice());
    append_chars(&mut v, chars_of("text/plain").as_slice());
    append_chars(&mut v, chars_of("\r\nContent-Length: ").as_slice());
    push_decimal(&mut v, 13);
    append_chars(&mut v, chars_of("\r\n\r\n").as_slice());
    append_chars(&mut v, chars_of("404 Not Found").as_slice());
    assert(v@ =~= not_found());
    string_from(v.as_slice())
}

/// The files that may answer a request for `path`, in order: the one file
/// configured, then `path` under the configured directory.
pub open spec fn serve_candidates(
    file: Option<Seq<char>>,
    dir: Option<Seq<char>>,
    path: Seq<char>,
) -> Seq<Seq<char>> {
    let a = match file {
        Some(f) => seq![f],
        None => Seq::empty(),
    };
    match dir {
        Some(d) => a.push(join_path(d, path)),
        None => a,
    }
}

/// The files that may answer a request for `path`, in order.
pub fn serve_file_candidates(file: &Option<String>, dir: &Option<String>, path: &str) -> (r: Vec<
    String,
>)
    ensures
        string_views(r@) == serve_candidates(
            match file {
                Some(f) => Some(f@),
                None => None,
            },
            match dir {
                Some(d) => Some(d@),
                None => None,
            },
            path@,
        ),
{
    let mut r: Vec<String> = Vec::new();
    match file {
        Some(f) => {
            r.push(f.clone());
        },
        None => {},
    }
    let ghost r0 = r@;
    match dir {
        Some(d) => {
            let v = join_path_of(chars_of(d.as_str()).as_slice(), chars_of(path).as_slice());
            r.push(string_from(v.as_slice()));
            assert(string_views(r@) =~= string_views(r0).push(join_path(d@, path@)));
        },
        None => {},
    }
    assert(string_views(r@) =~= serve_candidates(
        match file {
            Some(f) => Some(f@),
            None => None,
        },
        match dir {
            Some(d) => Some(d@),
            None => None,
        },
        path@,
    ));
    r
}

/// `time [Lunos INFO]: target ..... method ..... status`
pub open spec fn access_log(time: Seq<char>, target: Seq<char>, method: Seq<char>, status: nat) -> Seq<
    char,
> {
    time + " [Lunos INFO]: "@ + target + " ..... "@ + method + " ..... "@ + decimal(status)
}

/// The access-log line for one request.
pub fn access_log_line(time: &str, target: &str, method: &str, status: u16) -> (r: String)
    ensures
        r@ == access_log(time@, target@, method@, status as nat),
{
    let mut v = chars_of(time);
    append_chars(&mut v, chars_of(" [Lunos INFO]: ").as_slice());
    append_chars(&mut v, chars_of(target).as_slice());
    append_chars(&mut v, chars_of(" ..... ").as_slice());
    append_chars(&mut v, chars_of(method).as_slice());
    append_chars(&mut v, chars_of(" ..... ").as_slice());
    push_decimal(&mut v, status as u64);
    assert(v@ =~= access_log(time@, target@, method@, status as nat));
    string_from(v.as_slice())
}

/// The status that a request gets: `400` when it is not a `GET`, else `200`
/// when a response text is configured or a file was found, else `404`.
pub fn response_status(is_get: bool, has_text: bool, file_found: bool) -> (r: u16)
    ensures
        r == (if !is_get {
            400u16
        } else if has_text || file_found {
            200u16
        } else {
            404u16
        }),
{
    if !is_get {
        400
    } else if has_text || file_found {
        200
    } else {
        404
    }
}

/// What a `serve` call was given, with the defaults filled in.
#[derive(Debug, Clone, PartialEq, Eq)]
pub struct ServeOptions {
    pub response_text: String,
    pub content_type: String,
    pub port: u16,
    pub static_dir: Option<String>,
    pub file: Option<String>,
    pub log_middleware: bool,
}

/// The options of a `serve` call: no response text by default, the
/// `contentType` or else the `type` property or else `text/plain`, port
/// 9595, and no logging.
pub fn serve_options(
    response_text: Option<String>,
    content_type: Option<String>,
    type_property: Option<String>,
    port: Option<u16>,
    static_dir: Option<String>,
    file: Option<String>,
    log_middleware: Option<bool>,
) -> (r: ServeOptions)
    ensures
        r.response_text@ == (match response_text {
            Some(t) => t@,
            None => Seq::empty(),
        }),
        r.content_type@ == (match (content_type, type_property) {
            (Some(c), _) => c@,
            (None, Some(t)) => t@,
            (None, None) => "text/plain"@,
        }),
        r.port == (match port {
            Some(p) => p,
            None => 9595u16,
        }),
        r.static_dir == static_dir,
        r.file == file,
        r.log_middleware == (match log_middleware {
            Some(b) => b,
            None => false,
        }),
{
    let text = match response_text {
        Some(t) => t,
        None => String::new(),
    };
    let ct = match content_type {
        Some(c) => c,
        None => match type_property {
            Some(t) => t,
            None => string_from(chars_of("text/plain").as_slice()),
        },
    };
    let p: u16 = match port {
        Some(p) => p,
        None => 9595,
    };
    let log = match log_middleware {
        Some(b) => b,
        None => false,
    };
    ServeOptions {
        response_text: text,
        content_type: ct,
        port: p,
        static_dir: static_dir,
        file: file,
        log_middleware: log,
    }
}

} // verus!
