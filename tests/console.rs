use lunos::console::{
    colorize, console_entry, get_value_color, js_text_bytes, process_arguments, should_flush,
    write_value, JSType, Level,
};

#[test]
fn colours_of_kinds() {
    assert_eq!(get_value_color(JSType::String), b"\x1b[32m".to_vec());
    assert_eq!(get_value_color(JSType::Null), b"\x1b[90m".to_vec());
    assert_eq!(get_value_color(JSType::Object), b"\x1b[34m".to_vec());
}

#[test]
fn values_are_coloured_and_spaced() {
    let mut b = Vec::new();
    write_value(&mut b, JSType::Boolean, b"true", true);
    write_value(&mut b, JSType::Array, b"[]", false);
    assert_eq!(b, b"\x1b[33mtrue\x1b[0m \x1b[36m[]\x1b[0m".to_vec());
    let mut c = Vec::new();
    process_arguments(&mut c, &vec![]);
    assert_eq!(c, b"\n".to_vec());
}

#[test]
fn entries_per_level() {
    let vals = vec![(JSType::Number, b"1".to_vec()), (JSType::String, b"a".to_vec())];
    let line = b"\x1b[33m1\x1b[0m \x1b[32ma\x1b[0m\n".to_vec();
    let mut b = Vec::new();
    console_entry(&mut b, Level::Log, &vals);
    assert_eq!(b, line);
    let mut w = Vec::new();
    console_entry(&mut w, Level::Warn, &vals);
    assert_eq!(w, [b"\x1b[33m".to_vec(), line.clone(), b"\x1b[0m".to_vec()].concat());
    let mut e = b"x".to_vec();
    console_entry(&mut e, Level::Error, &vals);
    assert_eq!(e, [b"x\x1b[31m".to_vec(), line, b"\x1b[0m".to_vec()].concat());
}

#[test]
fn text_bytes_short_and_long() {
    assert_eq!(js_text_bytes(&[104, 105]), b"hi".to_vec());
    assert_eq!(js_text_bytes(&[0xe9]), vec![0xe9, 0x00]);
    let mut long: Vec<u16> = vec![97; 130];
    long.push(0xe9);
    let mut want = vec![97u8; 130];
    want.extend_from_slice(&[0xc3, 0xa9]);
    assert_eq!(js_text_bytes(&long), want);
}

#[test]
fn named_colours() {
    assert_eq!(colorize("hi", "red"), "\x1b[31mhi\x1b[0m");
    assert_eq!(colorize("hi", "pink"), "\x1b[35mhi\x1b[0m");
    assert_eq!(colorize("hi", "gray"), "\x1b[90mhi\x1b[0m");
    assert_eq!(colorize("hi", "mauve"), "hi");
}

#[test]
fn flush_threshold() {
    assert!(!should_flush(999));
    assert!(should_flush(1000));
}
