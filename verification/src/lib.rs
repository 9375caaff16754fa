//! Reading PlayStation 2 memory card images: the superblock, the file
//! allocation table, directories and the save files kept in them.

pub mod memcard;
pub mod reader;
pub mod util;
