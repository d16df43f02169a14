//! What the script's `console` writes: each value in the colour of its kind,
//! values separated by spaces, a line per call; and the named colours that
//! the command line uses.
use vstd::prelude::*;
use crate::text::{append_chars, chars_of, same_chars, string_from};

verus! {

/// The kind of a script value, which picks its colour.
#[derive(Debug, Clone, Copy, PartialEq, Eq, Structural)]
pub enum JSType {
    Null,
    Undefined,
    Boolean,
    Number,
    String,
    Array,
    Object,
    Unknown,
}

/// `ESC [ code m`
pub open spec fn sgr(code: Seq<u8>) -> Seq<u8> {
    seq![0x1bu8, 0x5bu8] + code + seq![0x6du8]
}

/// The colour code of each kind: grey for null and undefined, yellow for
/// booleans and numbers, green for strings, cyan for arrays, blue for
/// objects, white otherwise.
pub open spec fn color_code(k: JSType) -> Seq<u8> {
    match k {
        JSType::Null | JSType::Undefined => seq![0x39u8, 0x30u8],
        JSType::Boolean | JSType::Number => seq![0x33u8, 0x33u8],
        JSType::String => seq![0x33u8, 0x32u8],
        JSType::Array => seq![0x33u8, 0x36u8],
        JSType::Object => seq![0x33u8, 0x34u8],
        JSType::Unknown => seq![0x33u8, 0x37u8],
    }
}

pub open spec fn reset() -> Seq<u8> {
    sgr(seq![0x30u8])
}

/// The escape sequence that starts the colour of a kind.
pub fn get_value_color(k: JSType) -> (r: Vec<u8>)
    ensures
        r@ == sgr(color_code(k)),
{
    let (a, b): (u8, u8) = match k {
        JSType::Null | JSType::Undefined => (0x39, 0x30),
        JSType::Boolean | JSType::Number => (0x33, 0x33),
        JSType::String => (0x33, 0x32),
        JSType::Array => (0x33, 0x36),
        JSType::Object => (0x33, 0x34),
        JSType::Unknown => (0x33, 0x37),
    };
    let r = vec![0x1bu8, 0x5bu8, a, b, 0x6du8];
    assert(r@ =~= sgr(color_code(k)));
    r
}

fn reset_bytes() -> (r: Vec<u8>)
    ensures
        r@ == reset(),
{
    let r = vec![0x1bu8, 0x5bu8, 0x30u8, 0x6du8];
    assert(r@ =~= reset());
    r
}

fn append_bytes(a: &mut Vec<u8>, b: &[u8])
    ensures
        final(a)@ == old(a)@ + b@,
{
    let mut k: usize = 0;
    let ghost a0 = a@;
    while k < b.len()
        invariant
            k <= b@.len(),
            a@ == a0 + b@.take(k as int),
        decreases b.len() - k,
    {
        a.push(b[k]);
        k = k + 1;
        assert(a@ =~= a0 + b@.take(k as int));
    }
    assert(b@.take(k as int) =~= b@);
}

/// One value as the console writes it: a space before all but the first,
/// then the value's text in the colour of its kind.
pub open spec fn value_text(k: JSType, text: Seq<u8>, first: bool) -> Seq<u8> {
    (if first {
        Seq::empty()
    } else {
        seq![0x20u8]
    }) + sgr(color_code(k)) + text + reset()
}

/// Appends one value as the console writes it.
pub fn write_value(buffer: &mut Vec<u8>, k: JSType, text: &[u8], is_first: bool)
    ensures
        final(buffer)@ == old(buffer)@ + value_text(k, text@, is_first),
{
    if !is_first {
        buffer.push(0x20);
    }
    append_bytes(buffer, get_value_color(k).as_slice());
    append_bytes(buffer, text);
    append_bytes(buffer, reset_bytes().as_slice());
    assert(final(buffer)@ =~= old(buffer)@ + value_text(k, text@, is_first));
}

/// The values of one call, as written, in order.
pub open spec fn values_text(vs: Seq<(JSType, Seq<u8>)>) -> Seq<u8>
    decreases vs.len(),
{
    if vs.len() == 0 {
        Seq::empty()
    } else {
        values_text(vs.drop_last()) + value_text(vs.last().0, vs.last().1, vs.len() == 1)
    }
}

pub open spec fn value_views(vs: Seq<(JSType, Vec<u8>)>) -> Seq<(JSType, Seq<u8>)> {
    vs.map_values(|v: (JSType, Vec<u8>)| (v.0, v.1@))
}

/// Appends the values of one call and the newline that ends it.
pub fn process_arguments(buffer: &mut Vec<u8>, values: &Vec<(JSType, Vec<u8>)>)
    ensures
        final(buffer)@ == old(buffer)@ + values_text(value_views(values@)) + seq![0x0au8],
{
    let ghost b0 = buffer@;
    let ghost vs = value_views(values@);
    let mut i: usize = 0;
    assert(vs.take(0) =~= Seq::<(JSType, Seq<u8>)>::empty());
    assert(b0 + values_text(vs.take(0)) =~= b0);
    while i < values.len()
        invariant
            i <= values@.len(),
            vs == value_views(values@),
            buffer@ == b0 + values_text(vs.take(i as int)),
        decreases values.len() - i,
    {
        assert(vs.take(i + 1).drop_last() =~= vs.take(i as int));
        assert(vs.take(i + 1).last() == (values@[i as int].0, values@[i as int].1@));
        write_value(buffer, values[i].0, values[i].1.as_slice(), i == 0);
        i = i + 1;
        assert(buffer@ =~= b0 + values_text(vs.take(i as int)));
    }
    assert(vs.take(i as int) =~= vs);
    buffer.push(0x0a);
}

/// Which console method was called.
#[derive(Debug, Clone, Copy, PartialEq, Eq, Structural)]
pub enum Level {
    Log,
    Warn,
    Error,
}

/// What one console call adds to the output: `log` writes the line;
/// `warn` wraps it in yellow and `error` in red.
pub open spec fn entry_text(level: Level, vs: Seq<(JSType, Seq<u8>)>) -> Seq<u8> {
    let line = values_text(vs) + seq![0x0au8];
    match level {
        Level::Log => line,
        Level::Warn => sgr(seq![0x33u8, 0x33u8]) + line + reset(),
        Level::Error => sgr(seq![0x33u8, 0x31u8]) + line + reset(),
    }
}

/// Appends what one console call writes.
pub fn console_entry(buffer: &mut Vec<u8>, level: Level, values: &Vec<(JSType, Vec<u8>)>)
    ensures
        final(buffer)@ == old(buffer)@ + entry_text(level, value_views(values@)),
{
    match level {
        Level::Log => {
            process_arguments(buffer, values);
        },
        Level::Warn => {
            append_bytes(buffer, get_value_color(JSType::Number).as_slice());
            process_arguments(buffer, values);
            append_bytes(buffer, reset_bytes().as_slice());
        },
        Level::Error => {
            let red = vec![0x1bu8, 0x5bu8, 0x33u8, 0x31u8, 0x6du8];
            append_bytes(buffer, red.as_slice());
            process_arguments(buffer, values);
            append_bytes(buffer, reset_bytes().as_slice());
        },
    }
    assert(final(buffer)@ =~= old(buffer)@ + entry_text(level, value_views(values@)));
}

/// The buffer is written out once it holds this many bytes.
pub const CHUNK_SIZE: usize = 1000;

/// Whether a `log` call should write the buffer out.
pub fn should_flush(len: usize) -> (r: bool)
    ensures
        r == (len >= CHUNK_SIZE),
{
    len >= CHUNK_SIZE
}

/// The bytes of a text the engine hands over as UTF-16 code units.
pub uninterp spec fn utf8_of_units(units: Seq<u16>) -> Seq<u8>;

/// Relies on `String::from_utf16_lossy`: the text decoded, each unpaired
/// surrogate replaced by U+FFFD; then its UTF-8 bytes.
#[verifier::external_body]
fn utf16_to_utf8(units: &[u16]) -> (r: Vec<u8>)
    ensures
        r@ == utf8_of_units(units@),
        units@.len() == 0 ==> r@.len() == 0,
{
    String::from_utf16_lossy(units).into_bytes()
}

/// How a short text (under 128 units) is written: an ASCII unit as its
/// byte, any other unit as its two bytes, low byte first.
pub open spec fn short_text_bytes(units: Seq<u16>) -> Seq<u8>
    decreases units.len(),
{
    if units.len() == 0 {
        Seq::empty()
    } else {
        let c = units.last();
        short_text_bytes(units.drop_last()) + if c < 128 {
            seq![c as u8]
        } else {
            seq![(c % 256) as u8, (c / 256) as u8]
        }
    }
}

/// The bytes written for a value's text: short texts unit by unit, longer
/// ones decoded and encoded as UTF-8.
pub fn js_text_bytes(units: &[u16]) -> (r: Vec<u8>)
    ensures
        r@ == (if units@.len() < 128 {
            short_text_bytes(units@)
        } else {
            utf8_of_units(units@)
        }),
{
    if units.len() >= 128 {
        return utf16_to_utf8(units);
    }
    let mut r: Vec<u8> = Vec::new();
    let mut i: usize = 0;
    assert(units@.take(0) =~= Seq::<u16>::empty());
    while i < units.len()
        invariant
            i <= units@.len(),
            r@ == short_text_bytes(units@.take(i as int)),
        decreases units.len() - i,
    {
        assert(units@.take(i + 1).drop_last() =~= units@.take(i as int));
        let c = units[i];
        let ghost r0 = r@;
        if c < 128 {
            r.push(c as u8);
        } else {
            r.push((c % 256) as u8);
            r.push((c / 256) as u8);
        }
        i = i + 1;
        assert(r@ =~= short_text_bytes(units@.take(i as int)));
    }
    assert(units@.take(i as int) =~= units@);
    r
}

/// The escape code of a named colour, if the name is one.
pub open spec fn named_color(color: Seq<char>) -> Option<Seq<char>> {
    if color == "red"@ {
        Some("31"@)
    } else if color == "yellow"@ {
        Some("33"@)
    } else if color == "green"@ {
        Some("32"@)
    } else if color == "blue"@ {
        Some("34"@)
    } else if color == "purple"@ || color == "pink"@ {
        Some("35"@)
    } else if color == "gray"@ {
        Some("90"@)
    } else if color == "white"@ {
        Some("37"@)
    } else if color == "black"@ {
        Some("30"@)
    } else {
        None
    }
}

fn is_word(s: &Vec<char>, w: &str) -> (r: bool)
    ensures
        r == (s@ == w@),
{
    same_chars(s.as_slice(), chars_of(w).as_slice())
}

/// The message in the named colour, reset after it; unchanged for a name
/// that is not a colour.
pub fn colorize(message: &str, color: &str) -> (r: String)
    ensures
        r@ == (match named_color(color@) {
            Some(code) => "\x1b["@ + code + "m"@ + message@ + "\x1b[0m"@,
            None => message@,
        }),
{
    let c = chars_of(color);
    let code = if is_word(&c, "red") {
        "31"
    } else if is_word(&c, "yellow") {
        "33"
    } else if is_word(&c, "green") {
        "32"
    } else if is_word(&c, "blue") {
        "34"
    } else if is_word(&c, "purple") || is_word(&c, "pink") {
        "35"
    } else if is_word(&c, "gray") {
        "90"
    } else if is_word(&c, "white") {
        "37"
    } else if is_word(&c, "black") {
        "30"
    } else {
        return string_from(chars_of(message).as_slice());
    };
    let mut v = chars_of("\x1b[");
    append_chars(&mut v, chars_of(code).as_slice());
    append_chars(&mut v, chars_of("m").as_slice());
    append_chars(&mut v, chars_of(message).as_slice());
    append_chars(&mut v, chars_of("\x1b[0m").as_slice());
    string_from(v.as_slice())
}

} // verus!
