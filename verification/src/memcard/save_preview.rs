use vstd::prelude::*;

use crate::memcard::directory::{directory_from_bytes, entry_named, lemma_directory_unique, Directory};
use crate::memcard::entry::Entry;
use crate::memcard::icon_sys::{
    icon_sys_from_bytes, icon_sys_status, lemma_icon_sys_unique, lemma_valid_icon_sys_accessors,
    IconSys,
};
use crate::memcard::save_icon::{save_icon_fits, save_icon_from_bytes, SaveIcon};
use crate::memcard::{MemcardError, MemoryCard};
use crate::reader::ByteReader;
use crate::util::{shift_jis_decoding, trim_nul, utf8_lossy_text};

verus! {

/// What the preview of a save directory shows: the directory, its
/// `icon.sys` with the two rows of its title, and the icons that `icon.sys`
/// names, where they could be read.
#[derive(Debug, Clone)]
pub struct SavePreview {
    pub save_dir: Directory,
    pub icon_sys: IconSys,
    /// The first row of the title.
    pub title: String,
    /// The second row of the title.
    pub subtitle: String,
    pub list_icon: Option<SaveIcon>,
    pub copy_icon: Option<SaveIcon>,
    pub delete_icon: Option<SaveIcon>,
}

/// The name of the file that describes a save.
pub open spec fn icon_sys_name() -> Seq<char> {
    "icon.sys"@
}

impl MemoryCard {
    /// The longest chain that files are followed for: one more than the
    /// number of clusters (two pages with their ECC) that the image holds,
    /// so more than any chain without a repeated cluster whose clusters all
    /// lie in the image.
    pub open spec fn chain_bound(&self) -> usize {
        (self.data@.len() / 1056 + 1) as usize
    }

    /// [`MemoryCard::chain_bound`], computed.
    pub fn cluster_capacity(&self) -> (n: usize)
        ensures
            n == self.chain_bound(),
    {
        assert(self.data@.len() == self.data.len());
        self.data.len() / 1056 + 1
    }

    /// The file of `d` called `name` can be read: it is there, its chain
    /// ends within [`MemoryCard::chain_bound`] clusters that lie in the
    /// image, and it ends at the end marker.
    pub open spec fn file_readable(&self, d: Directory, name: Seq<char>) -> bool {
        &&& entry_named(d, name) is Some
        &&& self.can_read_entry_spec(entry_named(d, name)->Some_0.cluster as usize, self.chain_bound())
        &&& self.fat_chain_result(entry_named(d, name)->Some_0.cluster as usize) is Ok
    }

    /// The data of the file of `d` called `name`.
    pub open spec fn file_data(&self, d: Directory, name: Seq<char>) -> Seq<u8> {
        self.entry_data(entry_named(d, name)->Some_0.cluster as usize)
    }

    /// `icon` is what reading the file of `d` called `name` as a save icon
    /// gives: the icon where the file can be read and holds a whole one,
    /// `None` otherwise.
    pub open spec fn icon_loaded(&self, d: Directory, name: Seq<char>, icon: Option<SaveIcon>) -> bool {
        match icon {
            Some(i) => self.file_readable(d, name) && save_icon_fits(self.file_data(d, name))
                && save_icon_from_bytes(i, self.file_data(d, name)),
            None => !(self.file_readable(d, name) && save_icon_fits(self.file_data(d, name))),
        }
    }

    /// The `icon.sys` of `d` can be read and validates.
    pub open spec fn icon_sys_readable(&self, d: Directory) -> bool {
        let b = self.file_data(d, icon_sys_name());
        &&& self.file_readable(d, icon_sys_name())
        &&& b.len() >= 452
        &&& exists|i: IconSys| icon_sys_from_bytes(i, b) && icon_sys_status(i) is Ok
    }

    /// `p` is what the preview of its directory shows: the directory's
    /// `icon.sys`, the two rows of its title, and the icons it names (the
    /// copy and delete icons only where a name is given), each read where it
    /// can be.
    pub open spec fn preview_of(&self, p: SavePreview) -> bool {
        let d = p.save_dir;
        let i = p.icon_sys;
        &&& self.file_readable(d, icon_sys_name())
        &&& icon_sys_from_bytes(i, self.file_data(d, icon_sys_name()))
        &&& icon_sys_status(i) is Ok
        &&& p.title@ == trim_nul(shift_jis_decoding(i.title@.take(i.subtitle_off as int)).0)
        &&& p.subtitle@ == trim_nul(shift_jis_decoding(i.title@.skip(i.subtitle_off as int)).0)
        &&& self.icon_loaded(d, trim_nul(utf8_lossy_text(i.list_icon@)), p.list_icon)
        &&& if i.copy_icon@[0] == 0 {
            p.copy_icon is None
        } else {
            self.icon_loaded(d, trim_nul(utf8_lossy_text(i.copy_icon@)), p.copy_icon)
        }
        &&& if i.delete_icon@[0] == 0 {
            p.delete_icon is None
        } else {
            self.icon_loaded(d, trim_nul(utf8_lossy_text(i.delete_icon@)), p.delete_icon)
        }
    }

    /// The data of the file of `dir` called `name`, where it can be read.
    fn read_file_named(&self, dir: &Directory, name: &str) -> (r: Option<Vec<u8>>)
        ensures
            r is Some <==> self.file_readable(*dir, name@),
            r matches Some(v) ==> v@ == self.file_data(*dir, name@),
    {
        let e = match dir.entry_by_name(name) {
            Some(e) => e,
            None => return None,
        };
        let cluster = e.cluster as usize;
        if !self.can_read_entry(cluster, self.cluster_capacity()) {
            return None;
        }
        match self.read_entry(cluster) {
            Ok(raw) => Some(raw),
            Err(_) => None,
        }
    }

    /// The file of `dir` called `name` read as a save icon, where it can be.
    fn read_save_icon_named(&self, dir: &Directory, name: &str) -> (r: Option<SaveIcon>)
        ensures
            self.icon_loaded(*dir, name@, r),
    {
        let raw = match self.read_file_named(dir, name) {
            Some(raw) => raw,
            None => return None,
        };
        let mut reader = ByteReader::new(raw.as_slice());
        match SaveIcon::read(&mut reader) {
            Ok(icon) => Some(icon),
            Err(_) => None,
        }
    }

    /// The preview of the save directory that `save_dir_entry` describes:
    /// the directory, then its `icon.sys` and the icons that it names.
    ///
    /// An error where the directory cannot be read; `None` where it has no
    /// readable, valid `icon.sys`. An icon that cannot be read is left out.
    /// A file whose chain cannot be followed within
    /// [`MemoryCard::chain_bound`] clusters that all lie in the image (the
    /// chain repeats a cluster and never ends, or leaves the image) counts as
    /// one that cannot be read.
    pub fn load_save_preview(&self, save_dir_entry: &Entry) -> (res: Result<
        Option<SavePreview>,
        MemcardError,
    >)
        requires
            self.directory_ok(*save_dir_entry),
        ensures
            ({
                let c = save_dir_entry.cluster as usize;
                let b = self.entry_data(c);
                let n = save_dir_entry.len as int;
                &&& res is Ok <==> self.fat_chain_result(c) is Ok && b.len() >= 1024 && b.len()
                    >= 512 * n
                &&& res matches Err(e) ==> (e is FreeClusterAllocated && self.fat_chain_result(c) is Err)
                    || e is Io
                &&& res matches Ok(Some(p)) ==> directory_from_bytes(p.save_dir, b, n)
                    && self.preview_of(p)
                &&& res matches Ok(None) ==> forall|d: Directory|
                    directory_from_bytes(d, b, n) ==> !self.icon_sys_readable(d)
            }),
    {
        let save_dir = self.read_directory(save_dir_entry)?;
        let ghost b = self.entry_data(save_dir_entry.cluster as usize);
        let ghost n = save_dir_entry.len as int;
        proof {
            assert forall|d: Directory| directory_from_bytes(d, b, n) implies self.icon_sys_readable(
                d,
            ) == self.icon_sys_readable(save_dir) && self.file_readable(d, icon_sys_name())
                == self.file_readable(save_dir, icon_sys_name()) && self.file_data(
                d,
                icon_sys_name(),
            ) == self.file_data(save_dir, icon_sys_name()) by {
                lemma_directory_unique(d, save_dir, b, n);
            }
        }
        let raw = match self.read_file_named(&save_dir, "icon.sys") {
            Some(raw) => raw,
            None => return Ok(None),
        };
        let mut reader = ByteReader::new(raw.as_slice());
        let icon_sys = match IconSys::read(&mut reader) {
            Ok(i) => i,
            Err(_) => {
                proof {
                    let data = raw@;
                    if data.len() >= 452 {
                        let bad = choose|i: IconSys|
                            icon_sys_from_bytes(i, data) && icon_sys_status(i) is Err;
                        assert forall|i: IconSys| icon_sys_from_bytes(i, data) implies !(
                        icon_sys_status(i) is Ok) by {
                            lemma_icon_sys_unique(i, bad, data);
                        }
                    }
                }
                return Ok(None);
            },
        };
        proof {
            lemma_valid_icon_sys_accessors(icon_sys);
        }
        let title = icon_sys.title();
        let subtitle = icon_sys.subtitle();
        let list_icon = self.read_save_icon_named(&save_dir, icon_sys.list_icon().as_str());
        let copy_icon = match icon_sys.copy_icon() {
            Some(name) => self.read_save_icon_named(&save_dir, name.as_str()),
            None => None,
        };
        let delete_icon = match icon_sys.delete_icon() {
            Some(name) => self.read_save_icon_named(&save_dir, name.as_str()),
            None => None,
        };
        Ok(Some(SavePreview { save_dir, icon_sys, title, subtitle, list_icon, copy_icon, delete_icon }))
    }
}

/// Each icon of a preview is read from the directory's file whose name is
/// the one `icon.sys` gives in that icon's own field: the list icon from the
/// name in `list_icon`, the copy icon from the name in `copy_icon`, the
/// delete icon from the name in `delete_icon`. An icon that is there is the
/// save icon stored in that file; a copy or delete icon whose name field is
/// empty is absent.
pub proof fn lemma_preview_icons_by_name(card: MemoryCard, p: SavePreview)
    requires
        card.preview_of(p),
    ensures
        ({
            let d = p.save_dir;
            let i = p.icon_sys;
            let list_name = trim_nul(utf8_lossy_text(i.list_icon@));
            let copy_name = trim_nul(utf8_lossy_text(i.copy_icon@));
            let delete_name = trim_nul(utf8_lossy_text(i.delete_icon@));
            &&& p.list_icon matches Some(icon) ==> (entry_named(d, list_name) matches Some(e)
                && save_icon_from_bytes(icon, card.entry_data(e.cluster as usize)))
            &&& p.copy_icon matches Some(icon) ==> i.copy_icon@[0] != 0 && (entry_named(
                d,
                copy_name,
            ) matches Some(e) && save_icon_from_bytes(icon, card.entry_data(e.cluster as usize)))
            &&& p.delete_icon matches Some(icon) ==> i.delete_icon@[0] != 0 && (entry_named(
                d,
                delete_name,
            ) matches Some(e) && save_icon_from_bytes(icon, card.entry_data(e.cluster as usize)))
            &&& i.copy_icon@[0] == 0 ==> p.copy_icon is None
            &&& i.delete_icon@[0] == 0 ==> p.delete_icon is None
        }),
{
}

} // verus!
