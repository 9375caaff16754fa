use eightmb::memcard::{Block, Directory, DumpStep, Entry, Fat, MemcardError, MemoryCard, Page, Superblock};
use eightmb::reader::ByteReader;

const PAGE: usize = 528;
const IND_FAT_CLUSTER: u32 = 8;
const FAT_CLUSTER: u32 = 9;
const ALLOC_START: u32 = 20;

fn put_u16(b: &mut [u8], off: usize, v: u16) {
    b[off..off + 2].copy_from_slice(&v.to_le_bytes());
}

fn put_u32(b: &mut [u8], off: usize, v: u32) {
    b[off..off + 4].copy_from_slice(&v.to_le_bytes());
}

fn superblock_bytes() -> Vec<u8> {
    let mut b = vec![0u8; 512];
    b[0..28].copy_from_slice(b"Sony PS2 Memory Card Format ");
    b[28..40].copy_from_slice(b"1.2.0.0\0\0\0\0\0");
    put_u16(&mut b, 0x28, 512);
    put_u16(&mut b, 0x2a, 2);
    put_u16(&mut b, 0x2c, 16);
    put_u32(&mut b, 0x30, 8192);
    put_u32(&mut b, 0x34, ALLOC_START);
    put_u32(&mut b, 0x38, 8000);
    put_u32(&mut b, 0x3c, 0);
    put_u32(&mut b, 0x50, IND_FAT_CLUSTER);
    b[0x150] = 2;
    b
}

fn page_data(img: &mut [u8], page: usize) -> &mut [u8] {
    &mut img[page * PAGE..page * PAGE + 512]
}

/// Data offset of byte `off` of cluster `cluster` (relative to the
/// allocation start).
fn cluster_byte(cluster: usize, off: usize) -> usize {
    let page = (cluster + ALLOC_START as usize) * 2 + off / 512;
    page * PAGE + off % 512
}

fn write_cluster_bytes(img: &mut [u8], cluster: usize, off: usize, bytes: &[u8]) {
    for (i, v) in bytes.iter().enumerate() {
        img[cluster_byte(cluster, off + i)] = *v;
    }
}

fn set_fat(img: &mut [u8], cluster: usize, value: u32) {
    let page = FAT_CLUSTER as usize * 2 + if cluster % 256 >= 128 { 1 } else { 0 };
    put_u32(page_data(img, page), (cluster % 128) * 4, value);
}

fn entry_bytes(mode: u16, len: u32, cluster: u32, name: &str, modified: [u8; 8]) -> Vec<u8> {
    let mut b = vec![0u8; 512];
    put_u16(&mut b, 0, mode);
    put_u32(&mut b, 4, len);
    b[8..16].copy_from_slice(&[0, 1, 2, 3, 4, 5, 0xd0, 0x07]);
    put_u32(&mut b, 16, cluster);
    put_u32(&mut b, 20, 0);
    b[24..32].copy_from_slice(&modified);
    put_u32(&mut b, 32, 0);
    b[64..64 + name.len()].copy_from_slice(name.as_bytes());
    b
}

fn icon_sys_bytes() -> Vec<u8> {
    let mut b = vec![0u8; 452];
    b[0..4].copy_from_slice(b"PS2D");
    put_u16(&mut b, 6, 5);
    b[192..202].copy_from_slice(b"TitleSaved");
    b[260..268].copy_from_slice(b"icon.ico");
    b
}

fn save_icon_bytes(num_vertices: u32) -> Vec<u8> {
    let mut b = vec![0u8; 20];
    put_u32(&mut b, 0, 0x010000);
    put_u32(&mut b, 4, 1);
    put_u32(&mut b, 8, 3);
    put_u32(&mut b, 16, num_vertices);
    for k in 0..num_vertices {
        let mut v = vec![0u8; 24];
        put_u16(&mut v, 0, (k as u16) * 0x1000);
        put_u16(&mut v, 2, 0xf000);
        v[20..24].copy_from_slice(&[1, 2, 3, 4]);
        b.extend_from_slice(&v);
    }
    b
}

const DIR_MODE: u16 = 0x8427;
const FILE_MODE: u16 = 0x8417;

/// A small card image: the root directory (clusters 0 and 1) holds a save
/// directory (clusters 2 and 3) and a file (cluster 6); the save directory
/// holds `icon.sys` (cluster 4) and `icon.ico` (cluster 5). Cluster 7 is
/// marked free but linked from cluster 8.
fn card_image() -> Vec<u8> {
    let mut img = vec![0u8; 64 * PAGE];
    page_data(&mut img, 0).copy_from_slice(&superblock_bytes());
    put_u32(page_data(&mut img, IND_FAT_CLUSTER as usize * 2), 0, FAT_CLUSTER);
    set_fat(&mut img, 0, 0x8000_0001);
    set_fat(&mut img, 1, 0xffff_ffff);
    set_fat(&mut img, 2, 0x8000_0003);
    set_fat(&mut img, 3, 0xffff_ffff);
    set_fat(&mut img, 4, 0xffff_ffff);
    set_fat(&mut img, 5, 0xffff_ffff);
    set_fat(&mut img, 6, 0xffff_ffff);
    set_fat(&mut img, 7, 0x0000_0005);
    set_fat(&mut img, 8, 0x8000_0007);

    let early = [0, 0, 0, 0, 1, 1, 0xd0, 0x07];
    let later = [0, 0, 0, 0, 1, 1, 0xd1, 0x07];
    let root = [
        entry_bytes(DIR_MODE, 4, 0, ".", early),
        entry_bytes(DIR_MODE, 0, 0, "..", early),
        entry_bytes(DIR_MODE, 4, 2, "BESLES-00000SAVE", later),
        entry_bytes(FILE_MODE, 100, 6, "notes.txt", early),
    ];
    for (i, e) in root.iter().enumerate() {
        let cluster = i / 2;
        write_cluster_bytes(&mut img, cluster, (i % 2) * 512, e);
    }
    let save = [
        entry_bytes(DIR_MODE, 4, 2, ".", later),
        entry_bytes(DIR_MODE, 0, 0, "..", early),
        entry_bytes(FILE_MODE, 452, 4, "icon.sys", early),
        entry_bytes(FILE_MODE, 92, 5, "icon.ico", later),
    ];
    for (i, e) in save.iter().enumerate() {
        let cluster = 2 + i / 2;
        write_cluster_bytes(&mut img, cluster, (i % 2) * 512, e);
    }
    write_cluster_bytes(&mut img, 4, 0, &icon_sys_bytes());
    write_cluster_bytes(&mut img, 5, 0, &save_icon_bytes(3));
    write_cluster_bytes(&mut img, 6, 0, b"hello");
    img
}

#[test]
fn test_entry_timestamp() {
    let data = [0u8; 512];
    let mut fiveonetwo = ByteReader::new(data.as_slice());
    assert!(Entry::read(&mut fiveonetwo).is_ok());
    assert!(fiveonetwo.read_exact(&mut [0]).is_err());
}

#[test]
fn test_superblock_size() {
    assert_eq!(std::mem::size_of::<Superblock>(), 512);
}

#[test]
fn new_card_reads_superblock() {
    let card = MemoryCard::new(card_image()).unwrap();
    assert_eq!(card.superblock.page_len, 512);
    assert_eq!(card.superblock.alloc_start, ALLOC_START);
    assert_eq!(card.page_len(), 512);
    assert_eq!(card.pages_per_cluster(), 2);
    assert_eq!(card.cluster_len(), 1024);
    assert_eq!(card.indirect_fat_cluster(), IND_FAT_CLUSTER as usize);
}

#[test]
fn new_card_rejects_short_or_unformatted_images() {
    assert!(matches!(MemoryCard::new(vec![0u8; 100]), Err(MemcardError::Io(_))));
    assert!(matches!(MemoryCard::new(vec![0u8; 1024]), Err(MemcardError::InvalidMagic)));
    let mut img = card_image();
    img[0x30] = 0;
    img[0x31] = 0x10;
    assert!(matches!(MemoryCard::new(img), Err(MemcardError::UnsupportedClustersTotal(4096))));
}

#[test]
fn superblock_validate_reports_first_difference() {
    let bytes = superblock_bytes();
    let parse = |b: &[u8]| Superblock::read(&mut ByteReader::new(b)).unwrap();
    assert!(parse(&bytes).validate().is_ok());

    let mut b = bytes.clone();
    b[29] = b'9';
    assert!(matches!(parse(&b).validate(), Err(MemcardError::InvalidVersion)));
    let mut b = bytes.clone();
    b[0x3c] = 1;
    assert!(matches!(parse(&b).validate(), Err(MemcardError::InvalidRootdirCluster)));
    let mut b = bytes.clone();
    b[0x150] = 1;
    assert!(matches!(parse(&b).validate(), Err(MemcardError::InvalidType)));
    let mut b = bytes.clone();
    put_u16(&mut b, 0x28, 1024);
    assert!(matches!(parse(&b).validate(), Err(MemcardError::UnsupportedPageLen(1024))));
    let mut b = bytes.clone();
    put_u16(&mut b, 0x2a, 4);
    assert!(matches!(parse(&b).validate(), Err(MemcardError::UnsupportedPagesPerCluster(4))));
    let mut b = bytes.clone();
    put_u16(&mut b, 0x2c, 32);
    assert!(matches!(parse(&b).validate(), Err(MemcardError::UnsupportedPagesPerBlock(32))));
    let mut b = bytes.clone();
    b[0] = b's';
    b[0x150] = 1;
    assert!(matches!(parse(&b).validate(), Err(MemcardError::InvalidMagic)));
}

#[test]
fn superblock_fields_are_little_endian() {
    let mut b = superblock_bytes();
    put_u32(&mut b, 0x54, 0x1234_5678);
    put_u32(&mut b, 0xd0 + 4, 77);
    b[0x151] = 0x2b;
    let s = Superblock::read(&mut ByteReader::new(&b)).unwrap();
    assert_eq!(s.ind_fat_table[0], IND_FAT_CLUSTER);
    assert_eq!(s.ind_fat_table[1], 0x1234_5678);
    assert_eq!(s.bad_block_table[1], 77);
    assert_eq!(s.card_type, 2);
    assert_eq!(s.card_flags, 0x2b);
    assert_eq!(s.clusters_total, 8192);
    assert_eq!(&s.magic, b"Sony PS2 Memory Card Format ");
}

#[test]
fn superblock_from_page_reads_page_data() {
    let mut page = Page { raw: [0u8; 512], ecc: [0u8; 16] };
    page.raw.copy_from_slice(&superblock_bytes());
    let s = Superblock::from_page(&page).unwrap();
    assert_eq!(s.pages_per_block, 16);
    assert!(s.validate().is_ok());
}

#[test]
fn offsets_include_ecc() {
    let card = MemoryCard::new(card_image()).unwrap();
    assert_eq!(card.page_off(3), 3 * 528);
    assert_eq!(card.cluster_off(2), 2 * 1056);
    assert_eq!(card.cluster_off(5), card.page_off(10));
    assert_eq!(card.page(0), &superblock_bytes()[..]);
}

#[test]
fn fat_values_and_chains() {
    let card = MemoryCard::new(card_image()).unwrap();
    assert_eq!(card.fat_indirect_value(0), FAT_CLUSTER as i32);
    assert_eq!(card.fat_value(0), 0x8000_0001u32 as i32);
    assert_eq!(card.fat_value(1), -1);
    assert!(card.fat_chain_ends_within(0, 10));
    assert_eq!(card.fat_chain(0).unwrap(), vec![0, 1]);
    assert_eq!(card.fat_chain(4).unwrap(), vec![4]);
}

#[test]
fn fat_chain_through_free_cluster_fails() {
    let card = MemoryCard::new(card_image()).unwrap();
    assert!(card.fat_chain_ends_within(8, 10));
    assert!(matches!(card.fat_chain(8), Err(MemcardError::FreeClusterAllocated)));
    assert!(matches!(card.read_entry(8), Err(MemcardError::FreeClusterAllocated)));
}

#[test]
fn fat_chain_bound_is_checked() {
    let card = MemoryCard::new(card_image()).unwrap();
    assert!(!card.fat_chain_ends_within(0, 1));
    assert!(card.fat_chain_ends_within(0, 2));
    assert!(card.can_read_entry(0, 2));
    assert!(!card.can_read_entry(0, 1));
    let short = MemoryCard::new(card_image()[..40 * PAGE].to_vec()).unwrap();
    assert!(!short.can_read_entry(0, 10));
}

#[test]
fn read_cluster_skips_ecc() {
    let mut img = card_image();
    let second_page = (ALLOC_START as usize * 2 + 1) * PAGE;
    img[second_page - 1] = 0xee;
    let card = MemoryCard::new(img).unwrap();
    let c = card.read_cluster(0);
    assert_eq!(c.len(), 1024);
    assert!(!c.contains(&0xee));
}

#[test]
fn read_entry_concatenates_the_chain() {
    let card = MemoryCard::new(card_image()).unwrap();
    let raw = card.read_entry(0).unwrap();
    assert_eq!(raw.len(), 2 * card.cluster_len());
    let mut expected = card.read_cluster(0);
    expected.extend_from_slice(&card.read_cluster(1));
    assert_eq!(raw, expected);
    let file = card.read_entry(6).unwrap();
    assert_eq!(&file[..5], b"hello");
    assert_eq!(file.len(), 1024);
}

#[test]
fn root_directory_lists_entries() {
    let card = MemoryCard::new(card_image()).unwrap();
    assert!(card.can_read_root_directory(100));
    let root = card.root_directory().unwrap();
    assert_eq!(root.dot.name(), ".");
    assert_eq!(root.dotdot.name(), "..");
    let names: Vec<String> = root.entries.iter().map(|e| e.name()).collect();
    assert_eq!(names, vec!["BESLES-00000SAVE".to_string(), "notes.txt".to_string()]);
    assert!(root.entries[0].is_dir());
    assert!(root.entries[1].is_file());
    assert_eq!(root.total_size(), 100);
}

#[test]
fn read_directory_follows_entry() {
    let card = MemoryCard::new(card_image()).unwrap();
    let root = card.root_directory().unwrap();
    let save_entry = root.entry_by_name("BESLES-00000SAVE").unwrap();
    assert!(card.can_read_directory(save_entry, 100));
    let save = card.read_directory(save_entry).unwrap();
    assert_eq!(save.entries.len(), 2);
    assert_eq!(save.entry_by_name("icon.sys").unwrap().cluster, 4);
    assert!(save.entry_by_name("missing").is_none());
    assert_eq!(save.entry_by_name(".").unwrap().len, 4);
    assert_eq!(save.entry_by_name("..").unwrap().cluster, 0);
    assert_eq!(save.total_size(), 452 + 92);
    let m = save.last_modified();
    assert_eq!(m.year, 2001);
}

#[test]
fn read_directory_short_data_is_io_error() {
    let card = MemoryCard::new(card_image()).unwrap();
    let root = card.root_directory().unwrap();
    let mut entry = *root.entry_by_name("BESLES-00000SAVE").unwrap();
    entry.len = 9;
    assert!(card.can_read_directory(&entry, 100));
    assert!(matches!(card.read_directory(&entry), Err(MemcardError::Io(_))));
    entry.len = 1;
    assert!(!card.can_read_directory(&entry, 100));
}

#[test]
fn directory_of_a_file_is_refused() {
    let card = MemoryCard::new(card_image()).unwrap();
    let root = card.root_directory().unwrap();
    let file = root.entry_by_name("notes.txt").unwrap();
    assert!(!card.can_read_directory(file, 100));
}

#[test]
fn save_preview_reads_icon_sys_and_icons() {
    let card = MemoryCard::new(card_image()).unwrap();
    let root = card.root_directory().unwrap();
    let save_entry = root.entry_by_name("BESLES-00000SAVE").unwrap();
    let preview = card.load_save_preview(save_entry).unwrap().unwrap();
    assert_eq!(preview.icon_sys.title(), "Title");
    assert_eq!(preview.icon_sys.subtitle(), "Saved");
    assert_eq!(preview.icon_sys.list_icon(), "icon.ico");
    assert!(preview.icon_sys.copy_icon().is_none());
    let icon = preview.list_icon.unwrap();
    assert_eq!(icon.num_vertices, 3);
    assert!(icon.validate().is_ok());
    assert!(preview.copy_icon.is_none());
    assert!(preview.delete_icon.is_none());
}

#[test]
fn save_preview_without_icon_sys_is_none() {
    let card = MemoryCard::new(card_image()).unwrap();
    let root = card.root_directory().unwrap();
    let mut entry = *root.entry_by_name("BESLES-00000SAVE").unwrap();
    entry.len = 3;
    let mut img = card_image();
    let name_at = cluster_byte(3, 64);
    img[name_at] = b'X';
    let card2 = MemoryCard::new(img).unwrap();
    assert!(card2.load_save_preview(&entry).unwrap().is_none());
    assert!(card.load_save_preview(&entry).unwrap().is_some());
}

#[test]
fn card_read_from_stream() {
    let mut img = card_image();
    img.resize(16384 * PAGE + 7, 0);
    let mut reader = ByteReader::new(&img);
    let card = MemoryCard::read(&mut reader).unwrap();
    assert_eq!(card.data.len(), 16384 * PAGE);
    assert_eq!(reader.remaining_len(), 7);
    assert_eq!(card.fat_chain(0).unwrap(), vec![0, 1]);

    let short = card_image();
    assert!(matches!(MemoryCard::read(&mut ByteReader::new(&short)), Err(MemcardError::Io(_))));
    let blank = vec![0u8; 600];
    assert!(matches!(MemoryCard::read(&mut ByteReader::new(&blank)), Err(MemcardError::InvalidMagic)));
}

#[test]
fn pages_and_blocks() {
    let mut bytes = vec![0u8; 512 * PAGE];
    bytes[0] = 1;
    bytes[512] = 2;
    bytes[PAGE] = 3;
    let page = Page::read(&mut ByteReader::new(&bytes)).unwrap();
    assert_eq!(page.raw[0], 1);
    assert_eq!(page.ecc[0], 2);
    assert!(page.validate_ecc().is_ok());
    let mut block = Block::read(&mut ByteReader::new(&bytes)).unwrap();
    assert_eq!(block.pages.len(), 512);
    assert_eq!(block.pages[1].raw[0], 3);
    assert!(block.validate_ecc().is_ok());
    block.update_ecc();
    assert_eq!(block.pages[1].raw[0], 3);
    assert!(Block::read(&mut ByteReader::new(&bytes[1..])).is_err());
    assert!(Page::read(&mut ByteReader::new(&bytes[..527])).is_err());
}

#[test]
fn fat_table_in_memory() {
    let img = card_image();
    let mut pages = Vec::new();
    let mut reader = ByteReader::new(&img);
    while reader.remaining_len() >= PAGE {
        pages.push(Page::read(&mut reader).unwrap());
    }
    let card = MemoryCard::new(img.clone()).unwrap();
    let fat = Fat::new(&card.superblock, &pages);
    assert_eq!(fat.indirect_table.len(), 256);
    assert_eq!(fat.indirect_table[0].len(), 256);
    assert!(fat.indirect_table[1].is_empty());
    assert_eq!(fat.fat_value(2), 0x8000_0003u32 as i32);
    assert_eq!(fat.fat_chain(2).unwrap(), vec![2, 3]);
    assert!(matches!(fat.fat_chain(8), Err(MemcardError::FreeClusterAllocated)));
}

#[test]
fn directory_default_is_empty() {
    let d = Directory::default();
    assert!(d.entries.is_empty());
    assert_eq!(d.total_size(), 0);
}

#[test]
fn fat_chain_links_and_is_distinct() {
    let mut img = card_image();
    set_fat(&mut img, 10, 0x8000_000c);
    set_fat(&mut img, 12, 0x8000_000b);
    set_fat(&mut img, 11, 0xffff_ffff);
    let card = MemoryCard::new(img).unwrap();
    let chain = card.fat_chain(10).unwrap();
    assert_eq!(chain, vec![10, 12, 11]);
    for w in chain.windows(2) {
        let v = card.fat_value(w[0] as usize);
        assert!(v <= 0 && v != -1);
        assert_eq!((v & 0x7fff_ffff) as i32, w[1]);
    }
    assert_eq!(card.fat_value(11), -1);
    let mut seen = chain.clone();
    seen.sort();
    seen.dedup();
    assert_eq!(seen.len(), chain.len());
}

#[test]
fn fat_cycle_never_ends() {
    let mut img = card_image();
    set_fat(&mut img, 10, 0x8000_000b);
    set_fat(&mut img, 11, 0x8000_000a);
    let card = MemoryCard::new(img).unwrap();
    assert!(!card.fat_chain_ends_within(10, 8192));
    assert!(!card.can_read_entry(10, 8192));
}

#[test]
fn in_memory_fat_agrees_with_card() {
    let mut img = card_image();
    for c in 9..256 {
        set_fat(&mut img, c, 0x8000_0000 | (c as u32 + 1));
    }
    // A second FAT table, in cluster 10, for clusters 256 to 511.
    put_u32(page_data(&mut img, IND_FAT_CLUSTER as usize * 2), 4, 10);
    for c in 256..512usize {
        let page = 20 + if c % 256 >= 128 { 1 } else { 0 };
        put_u32(page_data(&mut img, page), (c % 128) * 4, 0xffff_ffff);
    }
    let card = MemoryCard::new(img).unwrap();
    let pages = card.pages();
    assert_eq!(pages.len(), 64);
    assert_eq!(pages[0].raw.to_vec(), superblock_bytes());
    let fat = card.fat().unwrap();
    for c in 0..512 {
        assert_eq!(fat.fat_value(c), card.fat_value(c));
    }
    assert_eq!(fat.fat_value(255), 0x8000_0100u32 as i32);
    assert_eq!(fat.fat_value(256), -1);
    assert_eq!(fat.fat_chain(254).unwrap(), vec![254, 255, 256]);
    assert_eq!(card.fat_chain(254).unwrap(), vec![254, 255, 256]);
}

#[test]
fn fat_value_reads_table_by_256() {
    let f = Fat { indirect_table: vec![(0..256).map(|i| i as i32).collect(), vec![-1; 256]] };
    assert_eq!(f.fat_value(254), 254);
    assert_eq!(f.fat_value(255), 255);
    assert_eq!(f.fat_value(256), -1);
}

#[test]
fn card_fat_needs_its_tables_in_the_image() {
    let mut img = card_image();
    put_u32(page_data(&mut img, IND_FAT_CLUSTER as usize * 2), 8, 500);
    let card = MemoryCard::new(img).unwrap();
    assert!(card.fat().is_none());
    let short = MemoryCard::new(card_image()[..10 * PAGE].to_vec()).unwrap();
    assert!(short.fat().is_none());
    assert_eq!(short.pages().len(), 10);
}

#[test]
fn read_and_new_find_the_same_superblock() {
    let mut img = card_image();
    img.resize(16384 * PAGE, 0);
    let card = MemoryCard::read(&mut ByteReader::new(&img)).unwrap();
    let again = MemoryCard::new(card.data.clone()).unwrap();
    assert_eq!(card.superblock.ind_fat_table, again.superblock.ind_fat_table);
    assert_eq!(card.superblock.alloc_start, again.superblock.alloc_start);
    assert_eq!(card.superblock.magic, again.superblock.magic);
    assert_eq!(card.superblock.unk_0x0154, again.superblock.unk_0x0154);
}

#[test]
fn last_modified_mixes_orders() {
    let card = MemoryCard::new(card_image()).unwrap();
    let root = card.root_directory().unwrap();
    let mut dir = root.clone();
    // "." is later in time; ".." has the greater seconds.
    dir.dot.modified = eightmb::memcard::Timestamp { sec: 0, min: 0, hour: 0, day: 1, mon: 1, year: 2005 };
    dir.dotdot.modified = eightmb::memcard::Timestamp { sec: 30, min: 0, hour: 0, day: 1, mon: 1, year: 2000 };
    dir.entries[0].modified = eightmb::memcard::Timestamp { sec: 10, min: 0, hour: 0, day: 1, mon: 1, year: 1999 };
    dir.entries[1].modified = eightmb::memcard::Timestamp { sec: 5, min: 0, hour: 0, day: 1, mon: 1, year: 2010 };
    // Chronologically "." wins over ".."; then the first entry has more
    // seconds (field order), the second fewer.
    assert_eq!(dir.last_modified(), dir.entries[0].modified);
    assert!(!(dir.entries[1].modified > dir.last_modified()));
}

#[test]
fn parsing_twice_gives_the_same_directory() {
    let card = MemoryCard::new(card_image()).unwrap();
    let a = card.root_directory().unwrap();
    let b = card.root_directory().unwrap();
    assert_eq!(a.entries.len(), b.entries.len());
    for (x, y) in a.entries.iter().zip(b.entries.iter()) {
        assert_eq!(x.name, y.name);
        assert_eq!(x.modified, y.modified);
        assert_eq!(x.cluster, y.cluster);
    }
}

#[test]
fn test_superblock_offsets() {
    let mut b = vec![0u8; 512];
    let markers: [(usize, usize); 18] = [
        (0x0, 28),
        (0x1c, 12),
        (0x28, 2),
        (0x2a, 2),
        (0x2c, 2),
        (0x2e, 2),
        (0x30, 4),
        (0x34, 4),
        (0x38, 4),
        (0x3c, 4),
        (0x40, 4),
        (0x44, 4),
        (0x50, 128),
        (0xd0, 128),
        (0x150, 1),
        (0x151, 1),
        (0x152, 2),
        (0x154, 172),
    ];
    for (k, (off, len)) in markers.iter().enumerate() {
        b[*off] = k as u8 + 1;
        b[off + len - 1] = k as u8 + 1;
    }
    let s = Superblock::read(&mut ByteReader::new(&b)).unwrap();
    assert_eq!((s.magic[0], s.magic[27]), (1, 1));
    assert_eq!((s.version[0], s.version[11]), (2, 2));
    assert_eq!(s.page_len, 0x0303);
    assert_eq!(s.pages_per_cluster, 0x0404);
    assert_eq!(s.pages_per_block, 0x0505);
    assert_eq!(s.unused_0x2e, [6, 6]);
    assert_eq!(s.clusters_total, 0x0700_0007);
    assert_eq!(s.alloc_start, 0x0800_0008);
    assert_eq!(s.alloc_end, 0x0900_0009);
    assert_eq!(s.rootdir_cluster, 0x0a00_000a);
    assert_eq!(s.backup_block1, 0x0b00_000b);
    assert_eq!(s.backup_block2, 0x0c00_000c);
    assert_eq!((s.ind_fat_table[0], s.ind_fat_table[31]), (13, 0x0d00_0000));
    assert_eq!((s.bad_block_table[0], s.bad_block_table[31]), (14, 0x0e00_0000));
    assert_eq!(s.card_type, 15);
    assert_eq!(s.card_flags, 16);
    assert_eq!(s.unused_0x152, [17, 17]);
    assert_eq!((s.unk_0x0154[0], s.unk_0x0154[171]), (18, 18));
}

#[test]
fn dump_plan_walks_the_tree() {
    let card = MemoryCard::new(card_image()).unwrap();
    let root = card.root_directory().unwrap();
    let steps = card.dump_plan(&root);
    let mut seen = Vec::new();
    for step in &steps {
        match step {
            DumpStep::EnterDir(e) => seen.push(format!("enter {}", e.name())),
            DumpStep::LeaveDir => seen.push("leave".to_string()),
            DumpStep::WriteFile(e, data) => seen.push(format!("write {} {}", e.name(), data.len())),
            DumpStep::SkipDir(e, _) => seen.push(format!("skip dir {}", e.name())),
            DumpStep::SkipFile(e, _) => seen.push(format!("skip file {}", e.name())),
            DumpStep::Broken(e) => seen.push(format!("broken {}", e.name())),
        }
    }
    assert_eq!(
        seen,
        vec![
            "enter BESLES-00000SAVE",
            "write icon.sys 1024",
            "write icon.ico 1024",
            "leave",
            "write notes.txt 1024",
        ]
    );
    match &steps[4] {
        DumpStep::WriteFile(_, data) => assert_eq!(&data[..5], b"hello"),
        _ => panic!("expected a file"),
    }
}

#[test]
fn dump_plan_skips_and_stops() {
    let card = MemoryCard::new(card_image()).unwrap();
    let mut root = card.root_directory().unwrap();
    root.entries[0].len = 9;
    root.entries[1].cluster = 8;
    let mut odd = root.entries[1];
    odd.mode = 0x8437;
    root.entries.push(odd);
    let steps = card.dump_plan(&root);
    assert_eq!(steps.len(), 3);
    assert!(matches!(&steps[0], DumpStep::SkipDir(_, MemcardError::Io(_))));
    assert!(matches!(&steps[1], DumpStep::SkipFile(_, MemcardError::FreeClusterAllocated)));
    assert!(matches!(&steps[2], DumpStep::Broken(_)));
}

#[test]
fn chain_bound_follows_the_image() {
    let card = MemoryCard::new(card_image()).unwrap();
    assert_eq!(card.cluster_capacity(), 64 * PAGE / 1056 + 1);
    let mut img = card_image();
    img.resize(9000 * 1056, 0);
    let big = MemoryCard::new(img).unwrap();
    assert_eq!(big.cluster_capacity(), 9001);
}

#[test]
fn save_dir_kinds() {
    let card = MemoryCard::new(card_image()).unwrap();
    let root = card.root_directory().unwrap();
    assert!(root.entries[0].is_ps2_save_dir());
    assert!(!root.entries[1].is_ps2_save_dir());
    let mut psx = root.entries[0];
    psx.mode |= Entry::FLAG_PSX;
    assert!(!psx.is_ps2_save_dir());
    let preview = card.load_save_preview(&root.entries[0]).unwrap().unwrap();
    assert_eq!(preview.title, "Title");
    assert_eq!(preview.subtitle, "Saved");
}
