//! The fixed 16-byte identification block at the start of an ELF object
//! file: the magic number, word size, byte order and ABI, decoded to
//! human-readable descriptions.  Reading the bytes from disk is the
//! caller's business; this module only decodes them.

use vstd::prelude::*;

verus! {

/// Is `m` the four-byte ELF magic number `0x7f 'E' 'L' 'F'`?
pub open spec fn is_elf_magic(m: Seq<u8>) -> bool {
    m.len() == 4 && m[0] == 0x7f && m[1] == 0x45 && m[2] == 0x4c && m[3] == 0x46
}

/// What the class byte describes.
pub open spec fn class_chars(class: u8) -> Seq<char> {
    if class == 1 {
        "ELF 32-bit"@
    } else if class == 2 {
        "ELF 64-bit"@
    } else {
        "Unknown ELF class"@
    }
}

/// What the data (byte-order) byte describes.
pub open spec fn endianness_chars(data: u8) -> Seq<char> {
    if data == 1 {
        "Little endian"@
    } else if data == 2 {
        "Big endian"@
    } else {
        "Unknown endianness"@
    }
}

/// What the ABI byte describes.
pub open spec fn abi_chars(abi: u8) -> Seq<char> {
    if abi == 0 {
        "System V"@
    } else if abi == 3 {
        "Linux"@
    } else if abi == 6 {
        "Solaris"@
    } else if abi == 9 {
        "FreeBSD"@
    } else {
        "Unknown ABI"@
    }
}

/// The identification block, field by field.
#[derive(Clone, Copy, Debug)]
pub struct ElfIdent {
    pub magic: [u8; 4],
    pub class: u8,
    pub data: u8,
    pub version: u8,
    pub abi: u8,
    pub abi_version: u8,
    pub padding: [u8; 7],
}

impl ElfIdent {
    /// Splits the first 16 bytes of `bytes` into the block's fields.
    pub fn from_bytes(bytes: &[u8]) -> (r: ElfIdent)
        requires
            bytes@.len() >= 16,
        ensures
            r.magic@ == bytes@.subrange(0, 4),
            r.class == bytes@[4],
            r.data == bytes@[5],
            r.version == bytes@[6],
            r.abi == bytes@[7],
            r.abi_version == bytes@[8],
            r.padding@ == bytes@.subrange(9, 16),
    {
        let r = ElfIdent {
            magic: [bytes[0], bytes[1], bytes[2], bytes[3]],
            class: bytes[4],
            data: bytes[5],
            version: bytes[6],
            abi: bytes[7],
            abi_version: bytes[8],
            padding: [
                bytes[9],
                bytes[10],
                bytes[11],
                bytes[12],
                bytes[13],
                bytes[14],
                bytes[15],
            ],
        };
        proof {
            assert(r.magic@ =~= bytes@.subrange(0, 4));
            assert(r.padding@ =~= bytes@.subrange(9, 16));
        }
        r
    }

    /// Does the block open with the ELF magic number?
    pub fn is_elf(&self) -> (r: bool)
        ensures
            r == is_elf_magic(self.magic@),
    {
        self.magic[0] == 0x7f && self.magic[1] == 0x45 && self.magic[2] == 0x4c && self.magic[3]
            == 0x46
    }

    /// The word size the class byte describes.
    pub fn class_str(&self) -> (r: &'static str)
        ensures
            r@ == class_chars(self.class),
    {
        match self.class {
            1u8 => "ELF 32-bit",
            2u8 => "ELF 64-bit",
            _ => "Unknown ELF class",
        }
    }

    /// The byte order the data byte describes.
    pub fn endianness_str(&self) -> (r: &'static str)
        ensures
            r@ == endianness_chars(self.data),
    {
        match self.data {
            1u8 => "Little endian",
            2u8 => "Big endian",
            _ => "Unknown endianness",
        }
    }

    /// The ABI the ABI byte describes.
    pub fn abi_str(&self) -> (r: &'static str)
        ensures
            r@ == abi_chars(self.abi),
    {
        match self.abi {
            0u8 => "System V",
            3u8 => "Linux",
            6u8 => "Solaris",
            9u8 => "FreeBSD",
            _ => "Unknown ABI",
        }
    }
}

} // verus!
