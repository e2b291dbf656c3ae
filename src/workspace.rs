use vstd::prelude::*;

use crate::hexdump::align_up;

verus! {

/// Why a file could not be taken up.
#[derive(Debug, Clone, Copy, PartialEq, Eq, Structural)]
pub enum Error {
    FileAccess,
    FileFormat,
    NotImplemented,
}

/// The container formats a file can be recognised as.
#[derive(Debug, Clone, Copy, PartialEq, Eq, Structural)]
pub enum Format {
    PE,
    Elf,
    Mach,
    Archive,
    Unknown,
}

/// Smallest file worth parsing, in bytes.
pub const MIN_FILE_SIZE: usize = 0x10;

/// Alignment of a section's buffer.
pub const SECTION_ALIGNMENT: usize = 0x200;

/// Command-line settings.
#[derive(Debug, Clone)]
pub struct Config {
    pub filename: String,
}

impl Config {
    /// Settings from the command line, program name first; the file to
    /// analyse comes next.
    pub fn from_args(args: Vec<String>) -> (r: Result<Config, &'static str>)
        ensures
            args@.len() < 2 <==> r is Err,
            r is Ok ==> r->Ok_0.filename == args@[1],
    {
        if args.len() < 2 {
            return Err("not enough arguments");
        }
        let filename = args[1].clone();
        Ok(Config { filename })
    }
}

/// The container format goblin recognises in `bytes`; `None` where it
/// cannot parse them.
pub uninterp spec fn parsed_format(bytes: Seq<u8>) -> Option<Format>;

/// Relies on `goblin::Object::parse`: which kind of object it parses the
/// bytes into, or `None` when it fails. The result depends on the bytes alone.
#[verifier::external_body]
fn parse_format(bytes: &[u8]) -> (r: Option<Format>)
    ensures
        r == parsed_format(bytes@),
{
    match goblin::Object::parse(bytes) {
        Ok(goblin::Object::PE(_)) => Some(Format::PE),
        Ok(goblin::Object::Elf(_)) => Some(Format::Elf),
        Ok(goblin::Object::Mach(_)) => Some(Format::Mach),
        Ok(goblin::Object::Archive(_)) => Some(Format::Archive),
        Ok(_) => Some(Format::Unknown),
        Err(_) => None,
    }
}

/// Recognise the container format of a file.
pub fn file_format(bytes: &[u8]) -> (r: Option<Format>)
    ensures
        r == parsed_format(bytes@),
{
    parse_format(bytes)
}

/// Decide whether a file can be taken up: it must parse, and as PE.
pub fn check_file(bytes: &[u8]) -> (r: Result<Format, Error>)
    ensures
        match parsed_format(bytes@) {
            None => r == Err::<Format, Error>(Error::FileFormat),
            Some(f) => r == (if f is PE { Ok::<Format, Error>(f) } else { Err(Error::NotImplemented) }),
        },
{
    match parse_format(bytes) {
        None => Err(Error::FileFormat),
        Some(f) => match check_format(f) {
            Ok(()) => Ok(f),
            Err(e) => Err(e),
        },
    }
}

/// Reject a file too short to hold any header.
pub fn check_file_size(len: usize) -> (r: Result<(), Error>)
    ensures
        r == (if len < MIN_FILE_SIZE { Err(Error::FileFormat) } else { Ok::<(), Error>(()) }),
{
    if len < MIN_FILE_SIZE {
        Err(Error::FileFormat)
    } else {
        Ok(())
    }
}

/// Only PE files are analysed; other recognised formats are not supported yet.
pub fn check_format(format: Format) -> (r: Result<(), Error>)
    ensures
        r == (if format is PE { Ok::<(), Error>(()) } else { Err(Error::NotImplemented) }),
{
    match format {
        Format::PE => Ok(()),
        _ => Err(Error::NotImplemented),
    }
}

/// A section's bytes as mapped: its raw data from the file, followed by
/// zeros up to its virtual size rounded up to the section alignment.
pub open spec fn section_bytes(file: Seq<u8>, raw_offset: int, raw_size: int, virtual_size: int) -> Seq<u8> {
    let size = align_up(virtual_size, SECTION_ALIGNMENT as int);
    Seq::new(size as nat, |k: int| if k < raw_size { file[raw_offset + k] } else { 0u8 })
}

/// Map one section; `None` when its raw data lies outside the file or does
/// not fit in its aligned virtual size.
pub fn load_section(file: &[u8], raw_offset: usize, raw_size: usize, virtual_size: usize) -> (r:
    Option<Vec<u8>>)
    ensures
        match r {
            Some(v) => v@ == section_bytes(file@, raw_offset as int, raw_size as int, virtual_size as int),
            None => raw_offset + raw_size > file@.len() || align_up(virtual_size as int, SECTION_ALIGNMENT as int) > usize::MAX
                || raw_size > align_up(virtual_size as int, SECTION_ALIGNMENT as int),
        },
{
    if raw_offset > file.len() || raw_size > file.len() - raw_offset {
        return None;
    }
    let rem = virtual_size % SECTION_ALIGNMENT;
    if rem != 0 && virtual_size > usize::MAX - (SECTION_ALIGNMENT - rem) {
        return None;
    }
    let size = if rem == 0 {
        virtual_size
    } else {
        virtual_size + (SECTION_ALIGNMENT - rem)
    };
    if raw_size > size {
        return None;
    }
    let ghost want = section_bytes(file@, raw_offset as int, raw_size as int, virtual_size as int);
    let flen = file.len();
    let mut out: Vec<u8> = Vec::new();
    let mut k: usize = 0;
    while k < size
        invariant
            flen == file@.len(),
            size == align_up(virtual_size as int, SECTION_ALIGNMENT as int),
            raw_size <= size,
            raw_offset + raw_size <= file@.len(),
            want == section_bytes(file@, raw_offset as int, raw_size as int, virtual_size as int),
            k <= size,
            out@ == want.take(k as int),
        decreases size - k,
    {
        let b = if k < raw_size {
            file[raw_offset + k]
        } else {
            0u8
        };
        out.push(b);
        assert(out@ =~= want.take(k + 1));
        k = k + 1;
    }
    assert(want.take(size as int) =~= want);
    Some(out)
}

} // verus!
