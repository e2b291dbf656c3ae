use lancelot::hexdump::{align, hexdump, hexdump_ascii};
use lancelot::workspace::{
    check_file, check_file_size, check_format, file_format, load_section, Config, Error, Format,
};

#[test]
fn align_rounds_up() {
    assert_eq!(align(0, 0x10), 0);
    assert_eq!(align(1, 0x10), 0x10);
    assert_eq!(align(0x10, 0x10), 0x10);
    assert_eq!(align(0x11, 0x10), 0x20);
    assert_eq!(align(0x1C, 0x200), 0x200);
}

#[test]
fn ascii_column_chars() {
    assert_eq!(hexdump_ascii(b'A'), 'A');
    assert_eq!(hexdump_ascii(b' '), ' ');
    assert_eq!(hexdump_ascii(b'~'), '~');
    assert_eq!(hexdump_ascii(0x00), '.');
    assert_eq!(hexdump_ascii(0x7F), '.');
    assert_eq!(hexdump_ascii(0xFF), '.');
}

#[test]
fn hexdump_short_line() {
    let s = hexdump(&[0x41, 0x00, 0xFF], 0x10);
    let mut want = String::from("00000010:  41 00 ff ");
    want.push_str(&"   ".repeat(13));
    want.push_str("  A..");
    want.push_str(&" ".repeat(13));
    want.push_str("  \n");
    assert_eq!(s, want);
}

#[test]
fn hexdump_two_lines() {
    let buf: Vec<u8> = (0x30u8..0x4C).collect();
    let s = hexdump(&buf, 0x180001000);
    let lines: Vec<&str> = s.split_inclusive('\n').collect();
    assert_eq!(lines.len(), 2);
    assert_eq!(
        lines[0],
        "180001000:  30 31 32 33 34 35 36 37 38 39 3a 3b 3c 3d 3e 3f   0123456789:;<=>?  \n"
    );
    // the second line holds the remaining twelve bytes, read from index one
    let mut want = String::from("180001010:  31 32 33 34 35 36 37 38 39 3a 3b 3c ");
    want.push_str(&"   ".repeat(4));
    want.push_str("  123456789:;<");
    want.push_str(&" ".repeat(4));
    want.push_str("  \n");
    assert_eq!(lines[1], want);
}

#[test]
fn hexdump_empty() {
    assert_eq!(hexdump(&[], 0), "");
}

#[test]
fn config_from_args() {
    assert_eq!(Config::from_args(vec!["prog".to_string()]).err(), Some("not enough arguments"));
    assert!(Config::from_args(vec![]).is_err());
    let c = Config::from_args(vec!["prog".to_string(), "k32.bin".to_string(), "x".to_string()]).unwrap();
    assert_eq!(c.filename, "k32.bin");
}

#[test]
fn file_size_and_format_checks() {
    assert_eq!(check_file_size(0xF), Err(Error::FileFormat));
    assert_eq!(check_file_size(0x10), Ok(()));
    assert_eq!(check_format(Format::PE), Ok(()));
    assert_eq!(check_format(Format::Elf), Err(Error::NotImplemented));
    assert_eq!(check_format(Format::Mach), Err(Error::NotImplemented));
    assert_eq!(check_format(Format::Archive), Err(Error::NotImplemented));
    assert_eq!(check_format(Format::Unknown), Err(Error::NotImplemented));
}

#[test]
fn section_loading() {
    let file: Vec<u8> = (0u8..32).collect();
    let sec = load_section(&file, 4, 3, 0x10).unwrap();
    assert_eq!(sec.len(), 0x200);
    assert_eq!(&sec[..4], &[4, 5, 6, 0]);
    assert!(sec[3..].iter().all(|b| *b == 0));
    assert_eq!(load_section(&file, 30, 3, 0x10), None);
    assert_eq!(load_section(&file, 0, 0, 0x200).unwrap().len(), 0x200);
    assert_eq!(load_section(&file, 0, 0x20, 0).map(|v| v.len()), None);
}

#[test]
fn container_recognition() {
    // too short for any header
    assert_eq!(file_format(b"MZ\x90\x00"), None);
    assert_eq!(check_file(b"MZ\x90\x00"), Err(Error::FileFormat));
    // not a known magic
    let text = b"hello world, this is just text!!";
    assert_eq!(file_format(text), Some(Format::Unknown));
    assert_eq!(check_file(text), Err(Error::NotImplemented));
    // a DOS header whose PE header is missing
    let mut mz = vec![0u8; 0x40];
    mz[0] = b'M';
    mz[1] = b'Z';
    assert_eq!(file_format(&mz), None);
    assert_eq!(check_file(&mz), Err(Error::FileFormat));
}
