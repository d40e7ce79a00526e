use tar_no_std::BLOCKSIZE;
use tar_no_std::InvalidTypeFlagError;
use tar_no_std::Mode;
use tar_no_std::ModeError;
use tar_no_std::ModeFlags;
use tar_no_std::ParseNumberError;
use tar_no_std::PosixHeader;
use tar_no_std::TypeFlag;
use core::mem::size_of;

/// Builds one 512-byte header block with the given fields at their fixed
/// offsets; everything else stays zero.
fn make_header(
    name: &str,
    size: usize,
    typeflag: u8,
    mode: &[u8],
    magic: &[u8],
    version: &[u8],
    prefix: &str,
) -> [u8; 512] {
    let mut b = [0u8; 512];
    b[..name.len()].copy_from_slice(name.as_bytes());
    b[100..100 + mode.len()].copy_from_slice(mode);
    let size_text = format!("{:011o}", size).into_bytes();
    b[124..135].copy_from_slice(&size_text);
    let mtime_text = format!("{:011}", 0).into_bytes();
    b[136..147].copy_from_slice(&mtime_text);
    b[148..156].copy_from_slice(b"        ");
    b[156] = typeflag;
    b[257..257 + magic.len()].copy_from_slice(magic);
    b[263..263 + version.len()].copy_from_slice(version);
    b[345..345 + prefix.len()].copy_from_slice(prefix.as_bytes());
    b
}

/// First header of an archive equivalent to one produced by GNU tar in its
/// default (gnu) format: magic "ustar ", version " \0".
fn first_header_gnu_default() -> [u8; 512] {
    make_header("bye_world_513b.txt", 513, b'0', b"0000664\0", b"ustar ", &[b' ', 0], "")
}

#[test]
fn test_display_header() {
    let block = first_header_gnu_default();
    let archive = PosixHeader::from_bytes(&block);
    assert_eq!(archive.name.as_str(), Ok("bye_world_513b.txt"));
    println!("{:#?}'", archive);
}

#[test]
fn test_payload_block_count() {
    // the first file is "bye_world_513b.txt" => we expect two data blocks
    let block = first_header_gnu_default();
    let archive = PosixHeader::from_bytes(&block);
    assert_eq!(archive.payload_block_count(), Ok(2));
}

#[test]
fn test_show_tar_header_magics() {
    let header = |magic: &[u8], version: &[u8]| {
        let block = make_header("bye_world_513b.txt", 513, b'0', b"0000664\0", magic, version, "");
        PosixHeader::from_bytes(&block)
    };
    let archive = header(b"ustar ", &[b' ', 0]);
    println!("default: magic='{:?}', version='{:?}'", archive.magic, archive.version);
    let archive = header(b"ustar ", &[b' ', 0]);
    println!("gnu: magic='{:?}', version='{:?}'", archive.magic, archive.version);
    let archive = header(b"ustar ", &[b' ', 0]);
    println!("oldgnu: magic='{:?}', version='{:?}'", archive.magic, archive.version);
    let archive = header(b"ustar\0", b"00");
    println!("pax: magic='{:?}', version='{:?}'", archive.magic, archive.version);
    let archive = header(b"ustar\0", b"00");
    println!("posix: magic='{:?}', version='{:?}'", archive.magic, archive.version);
    let archive = header(b"ustar\0", b"00");
    println!("ustar: magic='{:?}', version='{:?}'", archive.magic, archive.version);
    let archive = header(&[0; 6], &[0; 2]);
    println!("v7: magic='{:?}', version='{:?}'", archive.magic, archive.version);
}

#[test]
fn test_parse_tar_header_filename() {
    let gnu = |name: &str| {
        let block = make_header(name, 513, b'0', b"0000664\0", b"ustar ", &[b' ', 0], "");
        PosixHeader::from_bytes(&block)
    };

    let archive = gnu("bye_world_513b.txt");
    assert_eq!(
        archive.typeflag.try_to_type_flag(),
        Ok(TypeFlag::REGTYPE),
        "the first entry is a regular file!"
    );
    assert_eq!(archive.name.as_str(), Ok("bye_world_513b.txt"));

    let archive = gnu("bye_world_513b.txt");
    assert_eq!(
        archive.typeflag.try_to_type_flag(),
        Ok(TypeFlag::REGTYPE),
        "the first entry is a regular file!"
    );
    assert_eq!(archive.name.as_str(), Ok("bye_world_513b.txt"));

    let archive = gnu("bye_world_513b.txt");
    assert_eq!(
        archive.typeflag.try_to_type_flag(),
        Ok(TypeFlag::REGTYPE),
        "the first entry is a regular file!"
    );
    assert_eq!(archive.name.as_str(), Ok("bye_world_513b.txt"));

    let block = make_header("bye_world_513b.txt", 513, b'0', b"0000664\0", b"ustar\0", b"00", "");
    let archive = PosixHeader::from_bytes(&block);
    assert_eq!(
        archive.typeflag.try_to_type_flag(),
        Ok(TypeFlag::REGTYPE),
        "the first entry is a regular file!"
    );
    assert_eq!(archive.name.as_str(), Ok("bye_world_513b.txt"));

    // v7: the legacy regular-file encoding, with an empty magic
    let block = make_header("bye_world_513b.txt", 513, 0, b"0000664\0", &[0; 6], &[0; 2], "");
    let archive = PosixHeader::from_bytes(&block);
    assert_eq!(
        archive.typeflag.try_to_type_flag(),
        Ok(TypeFlag::AREGTYPE),
        "the first entry is a regular file!"
    );
    assert_eq!(archive.name.as_str(), Ok("bye_world_513b.txt"));
}

#[test]
fn test_size() {
    assert_eq!(BLOCKSIZE, size_of::<PosixHeader>());
}

#[test]
fn test_zero_block_detection() {
    let zero = PosixHeader::from_bytes(&[0u8; 512]);
    assert!(zero.is_zero_block());
    let nonzero = PosixHeader::from_bytes(&first_header_gnu_default());
    assert!(!nonzero.is_zero_block());
    let mut late = [0u8; 512];
    late[511] = 1;
    assert!(!PosixHeader::from_bytes(&late).is_zero_block());
}

#[test]
fn test_mode_to_flags() {
    let header = PosixHeader::from_bytes(&first_header_gnu_default());
    let flags = header.mode.to_flags().unwrap();
    assert_eq!(flags, ModeFlags::from_bits(0o664).unwrap());
    assert_eq!(flags.bits(), 0o664);
    assert!(flags.contains(
        ModeFlags::from_bits(ModeFlags::OwnerRead | ModeFlags::OwnerWrite).unwrap()
    ));
    assert_eq!(
        flags.intersection(ModeFlags::from_bits(0o770).unwrap()),
        ModeFlags::from_bits(0o660).unwrap()
    );
    assert_eq!(
        flags.union(ModeFlags::from_bits(0o111).unwrap()),
        ModeFlags::from_bits(0o775).unwrap()
    );
}

#[test]
fn test_mode_illegal_and_unparsable() {
    let mode_of = |bytes: [u8; 8]| {
        let mut block = first_header_gnu_default();
        block[100..108].copy_from_slice(&bytes);
        PosixHeader::from_bytes(&block).mode
    };
    // bits beyond the known permission bits
    let illegal: Mode = mode_of(*b"0077777\0");
    assert!(matches!(illegal.to_flags(), Err(ModeError::IllegalMode)));
    // digits outside the octal range
    let unparsable: Mode = mode_of(*b"0000998\0");
    assert!(matches!(
        unparsable.to_flags(),
        Err(ModeError::ParseInt(ParseNumberError::InvalidDigit))
    ));
    // no unknown bit set
    assert!(ModeFlags::from_bits(0o10000).is_none());
}

#[test]
fn test_invalid_type_flag_byte_is_reported() {
    let mut block = first_header_gnu_default();
    block[156] = b'Z';
    let header = PosixHeader::from_bytes(&block);
    let err: InvalidTypeFlagError = header.typeflag.try_to_type_flag().unwrap_err();
    assert_eq!(err.byte(), b'Z');
    assert!(!TypeFlag::DIRTYPE.is_regular_file());
    assert!(TypeFlag::REGTYPE.is_regular_file());
    assert!(TypeFlag::AREGTYPE.is_regular_file());
}
