//! Decoding the ELF identification block.

use portscan::elf::ElfIdent;

fn ident_bytes() -> Vec<u8> {
    vec![
        0x7f, 0x45, 0x4c, 0x46, // magic
        2,    // class: 64-bit
        1,    // data: little endian
        1,    // version
        0,    // abi: System V
        0,    // abi version
        0, 0, 0, 0, 0, 0, 0, // padding
    ]
}

#[test]
fn splits_fields_of_ident_block() {
    let ident = ElfIdent::from_bytes(&ident_bytes());
    assert_eq!(ident.magic, [0x7f, 0x45, 0x4c, 0x46]);
    assert_eq!(ident.class, 2);
    assert_eq!(ident.data, 1);
    assert_eq!(ident.version, 1);
    assert_eq!(ident.abi, 0);
    assert_eq!(ident.abi_version, 0);
    assert_eq!(ident.padding, [0; 7]);
}

#[test]
fn recognises_elf_magic() {
    let ident = ElfIdent::from_bytes(&ident_bytes());
    assert!(ident.is_elf());
}

#[test]
fn rejects_wrong_magic() {
    let mut bytes = ident_bytes();
    bytes[0] = 0x7e;
    let ident = ElfIdent::from_bytes(&bytes);
    assert!(!ident.is_elf());
}

#[test]
fn describes_word_size() {
    let mut bytes = ident_bytes();
    let ident = ElfIdent::from_bytes(&bytes);
    assert_eq!(ident.class_str(), "ELF 64-bit");
    bytes[4] = 1;
    assert_eq!(ElfIdent::from_bytes(&bytes).class_str(), "ELF 32-bit");
    bytes[4] = 9;
    assert_eq!(ElfIdent::from_bytes(&bytes).class_str(), "Unknown ELF class");
}

#[test]
fn describes_endianness() {
    let mut bytes = ident_bytes();
    let ident = ElfIdent::from_bytes(&bytes);
    assert_eq!(ident.endianness_str(), "Little endian");
    bytes[5] = 2;
    assert_eq!(ElfIdent::from_bytes(&bytes).endianness_str(), "Big endian");
    bytes[5] = 0;
    assert_eq!(
        ElfIdent::from_bytes(&bytes).endianness_str(),
        "Unknown endianness"
    );
}

#[test]
fn describes_abi() {
    let mut bytes = ident_bytes();
    assert_eq!(ElfIdent::from_bytes(&bytes).abi_str(), "System V");
    bytes[7] = 3;
    assert_eq!(ElfIdent::from_bytes(&bytes).abi_str(), "Linux");
    bytes[7] = 6;
    assert_eq!(ElfIdent::from_bytes(&bytes).abi_str(), "Solaris");
    bytes[7] = 9;
    assert_eq!(ElfIdent::from_bytes(&bytes).abi_str(), "FreeBSD");
    bytes[7] = 5;
    assert_eq!(ElfIdent::from_bytes(&bytes).abi_str(), "Unknown ABI");
}
