use vstd::prelude::*;

use crate::VA;

verus! {

/// Width of pointers stored in the image.
#[derive(Debug, Clone, Copy, PartialEq, Eq, Structural)]
pub enum Arch {
    X32,
    X64,
}

/// Access rights of a mapped region.
#[derive(Debug, Clone, Copy, PartialEq, Eq, Structural)]
pub struct Permissions {
    pub read: bool,
    pub write: bool,
    pub execute: bool,
}

impl Permissions {
    /// Execute permission alone.
    pub fn execute_only() -> (r: Permissions)
        ensures
            !r.read && !r.write && r.execute,
    {
        Permissions { read: false, write: false, execute: true }
    }

    /// Every right in `want` is granted by `self`.
    pub open spec fn grants(self, want: Permissions) -> bool {
        (want.read ==> self.read) && (want.write ==> self.write) && (want.execute ==> self.execute)
    }
}

/// A contiguous mapped region starting at `start`.
#[derive(Debug, Clone)]
pub struct Section {
    pub start: VA,
    pub bytes: Vec<u8>,
    pub perms: Permissions,
}

impl Section {
    pub open spec fn holds(&self, va: int) -> bool {
        self.start <= va < self.start + self.bytes@.len()
    }
}

/// A loaded image: its pointer width and its mapped sections.
#[derive(Debug, Clone)]
pub struct Module {
    pub arch: Arch,
    pub sections: Vec<Section>,
}

/// Index of the first section at or after `i` that maps `va`.
pub open spec fn section_from(secs: Seq<Section>, va: int, i: int) -> Option<int>
    decreases secs.len() - i,
{
    if i < 0 || i >= secs.len() {
        None
    } else if secs[i].holds(va) {
        Some(i)
    } else {
        section_from(secs, va, i + 1)
    }
}

/// Little-endian value of four bytes.
pub open spec fn le_u32(b: Seq<u8>) -> int {
    b[0] + b[1] * 0x100 + b[2] * 0x1_0000 + b[3] * 0x100_0000
}

/// Little-endian value of eight bytes.
pub open spec fn le_u64(b: Seq<u8>) -> int {
    le_u32(b) + b[4] * 0x1_0000_0000 + b[5] * 0x100_0000_0000 + b[6] * 0x1_0000_0000_0000 + b[7]
        * 0x100_0000_0000_0000
}

impl Arch {
    pub open spec fn pointer_size(self) -> nat {
        match self {
            Arch::X32 => 4,
            Arch::X64 => 8,
        }
    }
}

impl Module {
    /// The section that answers for `va`: the first one that maps it.
    pub open spec fn section_at(&self, va: int) -> Option<int> {
        section_from(self.sections@, va, 0)
    }

    /// The `n` bytes at `va`, present only when one section maps all of them.
    pub open spec fn bytes_at(&self, va: int, n: nat) -> Option<Seq<u8>> {
        match self.section_at(va) {
            Some(i) => {
                let s = self.sections@[i];
                let off = va - s.start;
                if off + n <= s.bytes@.len() {
                    Some(s.bytes@.subrange(off, off + n))
                } else {
                    None
                }
            },
            None => None,
        }
    }

    /// `va` is mapped with every right in `perms`.
    pub open spec fn allows(&self, va: int, perms: Permissions) -> bool {
        match self.section_at(va) {
            Some(i) => self.sections@[i].perms.grants(perms),
            None => false,
        }
    }

    /// The pointer stored at `va`, in the image's pointer width.
    pub open spec fn pointer_at(&self, va: int) -> Option<VA> {
        match self.bytes_at(va, self.arch.pointer_size()) {
            Some(b) => Some(
                match self.arch {
                    Arch::X32 => le_u32(b) as VA,
                    Arch::X64 => le_u64(b) as VA,
                },
            ),
            None => None,
        }
    }

    /// An image of one readable, writable and executable section at address zero.
    pub fn from_shellcode(arch: Arch, code: Vec<u8>) -> (r: Module)
        ensures
            r.arch == arch,
            r.sections@.len() == 1,
            r.sections@[0].start == 0,
            r.sections@[0].bytes@ == code@,
            r.sections@[0].perms == (Permissions { read: true, write: true, execute: true }),
    {
        let mut sections: Vec<Section> = Vec::new();
        sections.push(
            Section { start: 0, bytes: code, perms: Permissions { read: true, write: true, execute: true } },
        );
        Module { arch, sections }
    }

    fn find_section(&self, va: VA) -> (r: Option<usize>)
        ensures
            match r {
                Some(i) => self.section_at(va as int) == Some(i as int) && i < self.sections@.len()
                    && self.sections@[i as int].holds(va as int),
                None => self.section_at(va as int) is None,
            },
    {
        let n = self.sections.len();
        let mut i: usize = 0;
        while i < n
            invariant
                n == self.sections@.len(),
                i <= n,
                self.section_at(va as int) == section_from(self.sections@, va as int, i as int),
            decreases n - i,
        {
            let s = &self.sections[i];
            if s.start <= va && va - s.start < s.bytes.len() as u64 {
                return Some(i);
            }
            i = i + 1;
        }
        None
    }

    /// Read `n` bytes at `va`; fails when they are not all mapped by one section.
    pub fn read(&self, va: VA, n: usize) -> (r: Option<Vec<u8>>)
        ensures
            match r {
                Some(v) => self.bytes_at(va as int, n as nat) == Some(v@) && v@.len() == n,
                None => self.bytes_at(va as int, n as nat) is None,
            },
    {
        let i = match self.find_section(va) {
            Some(i) => i,
            None => return None,
        };
        let s = &self.sections[i];
        let len = s.bytes.len();
        let off = (va - s.start) as usize;
        if n > len - off {
            return None;
        }
        let mut out: Vec<u8> = Vec::new();
        let mut k: usize = 0;
        while k < n
            invariant
                off + n <= len,
                len == s.bytes@.len(),
                k <= n,
                out@ == s.bytes@.subrange(off as int, off + k),
            decreases n - k,
        {
            out.push(s.bytes[off + k]);
            assert(out@ =~= s.bytes@.subrange(off as int, off + k + 1));
            k = k + 1;
        }
        Some(out)
    }

    /// Is `va` mapped with every right in `perms`?
    pub fn probe_va(&self, va: VA, perms: Permissions) -> (r: bool)
        ensures
            r == self.allows(va as int, perms),
    {
        match self.find_section(va) {
            Some(i) => {
                let p = self.sections[i].perms;
                (!perms.read || p.read) && (!perms.write || p.write) && (!perms.execute || p.execute)
            },
            None => false,
        }
    }

    /// Read the pointer stored at `va`.
    pub fn read_va_at_va(&self, va: VA) -> (r: Option<VA>)
        ensures
            r == self.pointer_at(va as int),
    {
        match self.arch {
            Arch::X32 => match self.read(va, 4) {
                Some(b) => {
                    let v = b[0] as u64 + b[1] as u64 * 0x100 + b[2] as u64 * 0x1_0000 + b[3] as u64
                        * 0x100_0000;
                    Some(v)
                },
                None => None,
            },
            Arch::X64 => match self.read(va, 8) {
                Some(b) => {
                    let v = b[0] as u64 + b[1] as u64 * 0x100 + b[2] as u64 * 0x1_0000 + b[3] as u64
                        * 0x100_0000 + b[4] as u64 * 0x1_0000_0000 + b[5] as u64 * 0x100_0000_0000
                        + b[6] as u64 * 0x1_0000_0000_0000 + b[7] as u64 * 0x100_0000_0000_0000;
                    Some(v)
                },
                None => None,
            },
        }
    }
}

} // verus!
