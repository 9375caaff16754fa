use std::cmp::Ordering;

use eightmb::memcard::{Entry, IconSys, MemcardError, SaveIcon, Timestamp, Vec4};
use eightmb::reader::ByteReader;
use eightmb::util::{
    decoded_text, filename_to_string, read_i16, read_u16, read_u32, read_u8, shiftjis_to_string,
    trim_nuls, validate_filename, validate_shiftjis,
};

fn ts(sec: u8, min: u8, hour: u8, day: u8, mon: u8, year: u16) -> Timestamp {
    Timestamp { sec, min, hour, day, mon, year }
}

#[test]
fn test_sizeof_timestamp() {
    assert_eq!(std::mem::size_of::<Timestamp>(), 8)
}

#[test]
fn test_readsize_timestamp() {
    let data = [0u8; 8];
    let mut eight = ByteReader::new(data.as_slice());
    assert!(Timestamp::read(&mut eight).is_ok());
    assert!(eight.read_exact(&mut [0]).is_err());
}

#[test]
fn timestamp_fields_and_text() {
    let data = [9u8, 5, 4, 3, 2, 1, 0xe8, 0x07];
    let t = Timestamp::read(&mut ByteReader::new(&data)).unwrap();
    assert_eq!(t, ts(5, 4, 3, 2, 1, 2024));
    assert_eq!(t.to_string(), "2024-01-02 03:04:05");
    assert_eq!(ts(0, 0, 0, 0, 0, 7).to_string(), "0007-00-00 00:00:00");
    assert_eq!(Timestamp::default(), ts(0, 0, 0, 0, 0, 0));
    assert!(Timestamp::read(&mut ByteReader::new(&data[..7])).is_err());
}

#[test]
fn timestamp_cmp_is_chronological() {
    let a = ts(59, 0, 0, 1, 1, 2000);
    let b = ts(0, 0, 0, 1, 1, 2001);
    assert_eq!(a.cmp(&b), Ordering::Less);
    assert_eq!(b.cmp(&a), Ordering::Greater);
    assert_eq!(a.cmp(&a), Ordering::Equal);
    assert_eq!(ts(1, 2, 3, 4, 5, 6).cmp(&ts(1, 2, 3, 4, 6, 6)), Ordering::Less);
    assert_eq!(a.max(b), b);
    assert_eq!(b.max(a), b);
}

#[test]
fn timestamp_partial_cmp_is_field_order() {
    let a = ts(59, 0, 0, 1, 1, 2000);
    let b = ts(0, 0, 0, 1, 1, 2001);
    assert_eq!(a.partial_cmp(&b), Some(Ordering::Greater));
    assert!(a > b);
    assert!(ts(1, 0, 0, 0, 0, 0) < ts(1, 1, 0, 0, 0, 0));
}

fn entry_bytes() -> Vec<u8> {
    let mut b = vec![0u8; 512];
    b[0..2].copy_from_slice(&0x8417u16.to_le_bytes());
    b[4..8].copy_from_slice(&1234u32.to_le_bytes());
    b[8..16].copy_from_slice(&[0, 1, 2, 3, 4, 5, 0xd0, 0x07]);
    b[16..20].copy_from_slice(&42u32.to_le_bytes());
    b[20..24].copy_from_slice(&3u32.to_le_bytes());
    b[24..32].copy_from_slice(&[0, 6, 7, 8, 9, 10, 0xd1, 0x07]);
    b[32..36].copy_from_slice(&0x20u32.to_le_bytes());
    b[64..72].copy_from_slice(b"save.dat");
    b
}

#[test]
fn entry_fields() {
    let b = entry_bytes();
    let mut reader = ByteReader::new(&b);
    let e = Entry::read(&mut reader).unwrap();
    assert_eq!(reader.remaining_len(), 0);
    assert_eq!(e.mode, 0x8417);
    assert_eq!(e.len, 1234);
    assert_eq!(e.created, ts(1, 2, 3, 4, 5, 2000));
    assert_eq!(e.cluster, 42);
    assert_eq!(e.dir_entry, 3);
    assert_eq!(e.modified, ts(6, 7, 8, 9, 10, 2001));
    assert_eq!(e.attr, 0x20);
    assert_eq!(e.name(), "save.dat");
    assert!(Entry::read(&mut ByteReader::new(&b[..511])).is_err());
}

#[test]
fn entry_flags_and_mode_string() {
    let e = Entry::read(&mut ByteReader::new(&entry_bytes())).unwrap();
    assert!(e.can_read() && e.can_write() && e.can_execute() && e.is_file() && e.is_existing());
    assert!(!e.is_dir() && !e.is_protected() && !e.is_hidden() && !e.is_psx_save());
    assert!(e.flag_0x0400());
    assert!(!e.flag_dir_internal() && !e.is_copied_maybe() && !e.flag_0x0100());
    assert!(!e.flag_create() && !e.is_pocketstn_save() && !e.flag_0x4000());
    assert_eq!(e.mode_string(), "rwx-f-----?----e");
    let mut all = e;
    all.mode = 0xffff;
    assert_eq!(all.mode_string(), "rwxpfdic?C?PXh?e");
    assert_eq!(Entry::FLAG_DIRECTORY, 0x0020);
}

#[test]
fn entry_description() {
    let e = Entry::read(&mut ByteReader::new(&entry_bytes())).unwrap();
    let expected = "'save.dat'
    type:       file
    len:        1234
    created:    2000-05-04 03:02:01
    modified:   2001-10-09 08:07:06
    cluster:    42
    dir_entry:  3
    mode:       rwx-f-----?----e
    attr:       32";
    assert_eq!(e.to_string(), expected);
}

#[test]
fn entry_default_is_zero() {
    let e = Entry::default();
    assert_eq!(e.mode, 0);
    assert_eq!(e.name(), "");
    assert_eq!(e.modified, Timestamp::default());
}

#[test]
fn little_endian_readers() {
    let data = [0x01u8, 0x02, 0x03, 0x04, 0xfe, 0xff, 0x10];
    let mut r = ByteReader::new(&data);
    assert_eq!(read_u8(&mut r).unwrap(), 1);
    assert_eq!(read_u16(&mut r).unwrap(), 0x0302);
    assert_eq!(read_i16(&mut r).unwrap(), -508);
    assert!(read_u32(&mut r).is_err());
    let mut r = ByteReader::new(&data);
    assert_eq!(read_u32(&mut r).unwrap(), 0x0403_0201);
    assert_eq!(read_i16(&mut r).unwrap(), -2);
    assert_eq!(r.remaining_len(), 1);
}

#[test]
fn read_exact_failure_empties_reader() {
    let data = [1u8, 2, 3];
    let mut r = ByteReader::new(&data);
    let mut buf = [0u8; 4];
    assert!(matches!(r.read_exact(&mut buf), Err(MemcardError::Io(_))));
    assert_eq!(r.remaining_len(), 0);
}

#[test]
fn file_name_validation() {
    assert!(validate_filename(b"abc\0").is_ok());
    assert!(matches!(validate_filename(b"\0abc"), Err(MemcardError::FilenameIsEmpty)));
    assert!(matches!(validate_filename(b"a*c\0"), Err(MemcardError::FilenameInvalidCharacters)));
    assert!(matches!(validate_filename(b"a/c\0"), Err(MemcardError::FilenameInvalidCharacters)));
    assert!(matches!(validate_filename(b"a\x7fc\0"), Err(MemcardError::FilenameInvalidCharacters)));
    assert!(matches!(validate_filename(b"abc"), Err(MemcardError::FilenameIsntNullterminated)));
    assert!(validate_filename(b"ok\0\xff").is_ok());
}

#[test]
fn file_name_text() {
    assert_eq!(filename_to_string(b"icon.ico\0\0\0").unwrap(), "icon.ico");
    assert_eq!(filename_to_string(b"a\0b\0").unwrap(), "a\0b");
    assert!(matches!(filename_to_string(b"?\0"), Err(MemcardError::FilenameInvalidCharacters)));
    assert_eq!(trim_nuls("x\0\0"), "x");
    assert_eq!(trim_nuls("\0"), "");
}

#[test]
fn shift_jis_text() {
    assert_eq!(shiftjis_to_string(b"Hello\0\0").unwrap(), "Hello");
    assert_eq!(shiftjis_to_string(&[0x82, 0xa0]).unwrap(), "\u{3042}");
    assert!(validate_shiftjis(&[0x82, 0xa0]).is_ok());
    assert!(matches!(validate_shiftjis(&[0x82]), Err(MemcardError::StringDecodeFailed)));
    assert!(matches!(shiftjis_to_string(&[0x82]), Err(MemcardError::StringDecodeFailed)));
    assert!(matches!(decoded_text("abc", true), Err(MemcardError::StringDecodeFailed)));
    assert_eq!(decoded_text("abc\0", false).unwrap(), "abc");
}

#[test]
fn error_messages() {
    assert_eq!(
        MemcardError::InvalidMagic.to_string(),
        "Invalid magic. Is this really a PS2 memory card, and is it formatted?"
    );
    assert_eq!(
        MemcardError::UnsupportedPageLen(1024).to_string(),
        "Unsupported page length '1024'. Only standard 8MB cards are supported at the moment."
    );
    assert_eq!(
        MemcardError::UnsupportedClustersTotal(4096).to_string(),
        "Unsupported memcard size '4096' clusters. Only standard 8MB cards are supported at the moment."
    );
    assert_eq!(
        MemcardError::SaveIconInvalidVertexCount.to_string(),
        "Save icon vertex count isn't a multiple of 3."
    );
    let data = [0u8; 1];
    let err = read_u16(&mut ByteReader::new(&data)).unwrap_err();
    assert_eq!(err.to_string(), "failed to fill whole buffer");
    let io = std::io::Error::new(std::io::ErrorKind::Other, "disk on fire");
    assert_eq!(MemcardError::from(io).to_string(), "disk on fire");
}

fn icon_sys_bytes() -> Vec<u8> {
    let mut b = vec![0u8; 452];
    b[0..4].copy_from_slice(b"PS2D");
    b[6..8].copy_from_slice(&4u16.to_le_bytes());
    b[12..16].copy_from_slice(&0x80u32.to_le_bytes());
    b[16..20].copy_from_slice(&0xffu32.to_le_bytes());
    b[192..198].copy_from_slice(b"MyGame");
    b[260..265].copy_from_slice(b"a.ico");
    b[324..329].copy_from_slice(b"b.ico");
    b
}

#[test]
fn icon_sys_accessors() {
    let b = icon_sys_bytes();
    let mut reader = ByteReader::new(&b);
    let i = IconSys::read(&mut reader).unwrap();
    assert_eq!(reader.remaining_len(), 0);
    assert_eq!(i.bg_opacity, 0x80);
    assert_eq!(i.bg_color_a, Vec4 { x: 0xff, y: 0, z: 0, w: 0 });
    assert_eq!(i.title(), "MyGa");
    assert_eq!(i.subtitle(), "me");
    assert_eq!(i.list_icon(), "a.ico");
    assert_eq!(i.copy_icon(), Some("b.ico".to_string()));
    assert_eq!(i.delete_icon(), None);
    assert!(i.validate().is_ok());
}

#[test]
fn icon_sys_errors() {
    let mut b = icon_sys_bytes();
    b[0] = b'X';
    assert!(matches!(IconSys::read(&mut ByteReader::new(&b)), Err(MemcardError::InvalidMagic)));
    let mut b = icon_sys_bytes();
    b[6] = 69;
    assert!(matches!(
        IconSys::read(&mut ByteReader::new(&b)),
        Err(MemcardError::IconSysBadSubtitleOffset)
    ));
    let mut b = icon_sys_bytes();
    b[259] = 0x82;
    assert!(matches!(
        IconSys::read(&mut ByteReader::new(&b)),
        Err(MemcardError::StringDecodeFailed)
    ));
    let mut b = icon_sys_bytes();
    b[260] = 0;
    assert!(matches!(IconSys::read(&mut ByteReader::new(&b)), Err(MemcardError::FilenameIsEmpty)));
    let mut b = icon_sys_bytes();
    b[330] = b'*';
    b[325] = b'*';
    assert!(matches!(
        IconSys::read(&mut ByteReader::new(&b)),
        Err(MemcardError::FilenameInvalidCharacters)
    ));
    let b = icon_sys_bytes();
    assert!(matches!(IconSys::read(&mut ByteReader::new(&b[..451])), Err(MemcardError::Io(_))));
}

#[test]
fn vec4_read() {
    let mut b = Vec::new();
    for v in [1u32, 2, 3, 0xdead_beef] {
        b.extend_from_slice(&v.to_le_bytes());
    }
    let v = Vec4::read(&mut ByteReader::new(&b)).unwrap();
    assert_eq!(v, Vec4 { x: 1, y: 2, z: 3, w: 0xdead_beef });
    assert_eq!(Vec4::default(), Vec4 { x: 0, y: 0, z: 0, w: 0 });
}

fn icon_header(tex_flags: u32, num_vertices: u32) -> Vec<u8> {
    let mut b = Vec::new();
    for v in [0x010000u32, 2, tex_flags, 0, num_vertices] {
        b.extend_from_slice(&v.to_le_bytes());
    }
    b
}

fn vertex_bytes() -> Vec<u8> {
    let mut v = Vec::new();
    for c in [0x1000i16, -0x1000, 0, 0x1000, 1, 2, 3, 4, 7, 8, 9, 10, -5, 6] {
        v.extend_from_slice(&c.to_le_bytes());
    }
    v.extend_from_slice(&[0x80, 0x40, 0x20, 0xff]);
    v
}

#[test]
fn save_icon_vertices() {
    let mut b = icon_header(3, 3);
    for _ in 0..3 {
        b.extend_from_slice(&vertex_bytes());
    }
    let mut reader = ByteReader::new(&b);
    let icon = SaveIcon::read(&mut reader).unwrap();
    assert_eq!(reader.remaining_len(), 0);
    assert_eq!(icon.vertices.len(), 3);
    let v = &icon.vertices[2];
    assert_eq!(v.coords.len(), 2);
    assert_eq!((v.coords[0].x, v.coords[0].y, v.coords[0].z, v.coords[0].w), (0x1000, -0x1000, 0, 0x1000));
    assert_eq!((v.coords[1].x, v.coords[1].w), (1, 4));
    assert_eq!((v.normal.x, v.normal.w), (7, 10));
    assert_eq!((v.u, v.v), (-5, 6));
    assert_eq!(v.rgba, [0x80, 0x40, 0x20, 0xff]);
    assert!(icon.texture.iter().all(|t| *t == 0xff00_0000));
    assert!(icon.validate().is_ok());
    assert!(SaveIcon::read(&mut ByteReader::new(&b[..b.len() - 1])).is_err());
}

#[test]
fn save_icon_texture() {
    let mut b = icon_header(7, 0);
    let mut texels = vec![0u8; 2 * 128 * 128];
    texels[0..2].copy_from_slice(&0x7fffu16.to_le_bytes());
    texels[2..4].copy_from_slice(&0x001fu16.to_le_bytes());
    texels[4..6].copy_from_slice(&0x03e0u16.to_le_bytes());
    b.extend_from_slice(&texels);
    let icon = SaveIcon::read(&mut ByteReader::new(&b)).unwrap();
    assert_eq!(icon.texture[0], 0xfff8_f8f8);
    assert_eq!(icon.texture[1], 0xff00_00f8);
    assert_eq!(icon.texture[2], 0xff00_f800);
    assert_eq!(icon.texture[3], 0xff00_0000);
    assert!(SaveIcon::read(&mut ByteReader::new(&b[..b.len() - 2])).is_err());
}

#[test]
fn save_icon_validation_errors() {
    let mut b = icon_header(3, 1);
    b.extend_from_slice(&vertex_bytes());
    let icon = SaveIcon::read(&mut ByteReader::new(&b)).unwrap();
    assert!(matches!(icon.validate(), Err(MemcardError::SaveIconInvalidVertexCount)));
    let mut b = icon_header(3, 0);
    b[0] = 1;
    let icon = SaveIcon::read(&mut ByteReader::new(&b)).unwrap();
    assert!(matches!(icon.validate(), Err(MemcardError::InvalidMagic)));
    assert_eq!(SaveIcon::MAGIC, 0x010000);
}

#[test]
fn icon_sys_read_takes_452_bytes() {
    let mut b = icon_sys_bytes();
    b.extend_from_slice(&[1, 2, 3]);
    let mut reader = ByteReader::new(&b);
    assert!(IconSys::read(&mut reader).is_ok());
    assert_eq!(reader.remaining_len(), 3);
}

#[test]
fn ascii_text_passes_through() {
    assert!(validate_shiftjis(b"AB\0").is_ok());
    assert_eq!(shiftjis_to_string(b"AB\0\0").unwrap(), "AB");
    assert_eq!(filename_to_string(b"icon.sys\0").unwrap(), "icon.sys");
}
