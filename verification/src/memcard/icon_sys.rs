use vstd::prelude::*;

use crate::memcard::MemcardError;
use crate::reader::ByteReader;
use crate::util::{
    consumed, filename_status, filename_to_string, le_u16, le_u32, read_u16, read_u32,
    shift_jis_decoding, shiftjis_to_string, trim_nul, utf8_lossy_text, validate_filename,
    validate_shiftjis,
};

verus! {

/// Four `u32` components: a color (`RGB_`) or a direction.
#[derive(Debug, Clone, Copy, PartialEq, Eq, Structural)]
pub struct Vec4 {
    pub x: u32,
    pub y: u32,
    pub z: u32,
    pub w: u32,
}

/// The `Vec4` stored in the first sixteen bytes of `b`.
pub open spec fn parse_vec4(b: Seq<u8>) -> Vec4 {
    Vec4 { x: le_u32(b), y: le_u32(b.skip(4)), z: le_u32(b.skip(8)), w: le_u32(b.skip(12)) }
}

impl Default for Vec4 {
    fn default() -> (v: Self)
        ensures
            v == (Vec4 { x: 0, y: 0, z: 0, w: 0 }),
    {
        Vec4 { x: 0, y: 0, z: 0, w: 0 }
    }
}

impl Vec4 {
    /// Reads four little-endian `u32`s.
    pub fn read(reader: &mut ByteReader) -> (res: Result<Self, MemcardError>)
        ensures
            res is Ok <==> old(reader)@.len() >= 16,
            res matches Ok(v) ==> v == parse_vec4(old(reader)@) && consumed(
                old(reader)@,
                final(reader)@,
                16,
            ),
            res is Err ==> res->Err_0 is Io,
    {
        let ghost b = reader@;
        let x = read_u32(reader)?;
        let y = read_u32(reader)?;
        let z = read_u32(reader)?;
        let w = read_u32(reader)?;
        proof {
            assert(b.skip(4).skip(4) =~= b.skip(8));
            assert(b.skip(8).skip(4) =~= b.skip(12));
            assert(b.skip(12).skip(4) =~= b.skip(16));
        }
        Ok(Vec4 { x, y, z, w })
    }
}

/// PlayStation 2 save info file (`icon.sys`).
/// Color value range: 0x00..=0xff
#[derive(Debug, Clone, Copy)]
pub struct IconSys {
    pub magic: [u8; 4],
    pub unk_0x04: u16,
    /// Title is split into two rows at this offset
    pub subtitle_off: u16,
    pub unk_0x08: u32,
    pub bg_opacity: u32,
    /// Top left RGB_
    pub bg_color_a: Vec4,
    /// Top right RGB_
    pub bg_color_b: Vec4,
    /// Bottom left RGB_
    pub bg_color_c: Vec4,
    /// Bottom right RGB_
    pub bg_color_d: Vec4,
    pub light_a_dir: Vec4,
    pub light_b_dir: Vec4,
    pub light_c_dir: Vec4,
    /// RGB_
    pub light_a_color: Vec4,
    /// RGB_
    pub light_b_color: Vec4,
    /// RGB_
    pub light_c_color: Vec4,
    /// RGB_
    pub light_ambient_color: Vec4,
    /// Encoding: Shift-JIS
    pub title: [u8; 68],
    /// Required, icon for normal view. Encoding: Ascii filename
    pub list_icon: [u8; 64],
    /// Optional, falls back to list icon. Encoding: Ascii filename
    pub copy_icon: [u8; 64],
    /// Optional, falls back to list icon. Encoding: Ascii filename
    pub delete_icon: [u8; 64],
}

/// "PS2D".
pub open spec fn icon_sys_magic() -> Seq<u8> {
    seq![0x50, 0x53, 0x32, 0x44]
}

/// `i` is the `icon.sys` stored in the first 452 bytes of `b`.
pub open spec fn icon_sys_from_bytes(i: IconSys, b: Seq<u8>) -> bool {
    &&& i.magic@ == b.subrange(0, 4)
    &&& i.unk_0x04 == le_u16(b.skip(4))
    &&& i.subtitle_off == le_u16(b.skip(6))
    &&& i.unk_0x08 == le_u32(b.skip(8))
    &&& i.bg_opacity == le_u32(b.skip(12))
    &&& i.bg_color_a == parse_vec4(b.skip(16))
    &&& i.bg_color_b == parse_vec4(b.skip(32))
    &&& i.bg_color_c == parse_vec4(b.skip(48))
    &&& i.bg_color_d == parse_vec4(b.skip(64))
    &&& i.light_a_dir == parse_vec4(b.skip(80))
    &&& i.light_b_dir == parse_vec4(b.skip(96))
    &&& i.light_c_dir == parse_vec4(b.skip(112))
    &&& i.light_a_color == parse_vec4(b.skip(128))
    &&& i.light_b_color == parse_vec4(b.skip(144))
    &&& i.light_c_color == parse_vec4(b.skip(160))
    &&& i.light_ambient_color == parse_vec4(b.skip(176))
    &&& i.title@ == b.subrange(192, 260)
    &&& i.list_icon@ == b.subrange(260, 324)
    &&& i.copy_icon@ == b.subrange(324, 388)
    &&& i.delete_icon@ == b.subrange(388, 452)
}

/// `icon.sys` records read from the same bytes are the same.
pub proof fn lemma_icon_sys_unique(i1: IconSys, i2: IconSys, b: Seq<u8>)
    requires
        icon_sys_from_bytes(i1, b),
        icon_sys_from_bytes(i2, b),
    ensures
        i1 == i2,
{
    assert(i1.magic =~= i2.magic);
    assert(i1.title =~= i2.title);
    assert(i1.list_icon =~= i2.list_icon);
    assert(i1.copy_icon =~= i2.copy_icon);
    assert(i1.delete_icon =~= i2.delete_icon);
}

/// The verdict of [`IconSys::validate`]: magic, subtitle offset, Shift-JIS
/// title (whole, first row, second row), list icon name, then the copy and
/// delete icon names where given, in that order.
pub open spec fn icon_sys_status(i: IconSys) -> Result<(), MemcardError> {
    let off = i.subtitle_off as int;
    if i.magic@ != icon_sys_magic() {
        Err(MemcardError::InvalidMagic)
    } else if off > 68 {
        Err(MemcardError::IconSysBadSubtitleOffset)
    } else if shift_jis_decoding(i.title@).1 {
        Err(MemcardError::StringDecodeFailed)
    } else if shift_jis_decoding(i.title@.take(off)).1 {
        Err(MemcardError::StringDecodeFailed)
    } else if shift_jis_decoding(i.title@.skip(off)).1 {
        Err(MemcardError::StringDecodeFailed)
    } else if filename_status(i.list_icon@) is Err {
        filename_status(i.list_icon@)
    } else if i.copy_icon@[0] != 0 && filename_status(i.copy_icon@) is Err {
        filename_status(i.copy_icon@)
    } else if i.delete_icon@[0] != 0 && filename_status(i.delete_icon@) is Err {
        filename_status(i.delete_icon@)
    } else {
        Ok(())
    }
}

/// The title's first row can be decoded.
pub open spec fn title_ok(i: IconSys) -> bool {
    i.subtitle_off <= 68 && !shift_jis_decoding(i.title@.take(i.subtitle_off as int)).1
}

/// The title's second row can be decoded.
pub open spec fn subtitle_ok(i: IconSys) -> bool {
    i.subtitle_off <= 68 && !shift_jis_decoding(i.title@.skip(i.subtitle_off as int)).1
}

fn read_vec4s(reader: &mut ByteReader) -> (res: Result<[Vec4; 11], MemcardError>)
    ensures
        res is Ok <==> old(reader)@.len() >= 176,
        res matches Ok(a) ==> {
            &&& forall|k: int| 0 <= k < 11 ==> #[trigger] a@[k] == parse_vec4(old(reader)@.skip(16 * k))
            &&& consumed(old(reader)@, final(reader)@, 176)
        },
        res is Err ==> res->Err_0 is Io,
{
    let ghost b = reader@;
    let mut a = [Vec4 { x: 0, y: 0, z: 0, w: 0 }; 11];
    let mut i: usize = 0;
    while i < 11
        invariant
            i <= 11,
            b == old(reader)@,
            16 * i <= b.len(),
            reader@ == b.skip(16 * i),
            forall|k: int| 0 <= k < i ==> #[trigger] a@[k] == parse_vec4(b.skip(16 * k)),
        decreases 11 - i,
    {
        let v = match Vec4::read(reader) {
            Ok(v) => v,
            Err(e) => {
                assert(b.len() < 176);
                return Err(e);
            },
        };
        proof {
            assert(b.skip(16 * i).skip(16) =~= b.skip(16 * (i + 1)));
        }
        a[i] = v;
        i = i + 1;
    }
    Ok(a)
}

impl IconSys {
    /// "PS2D".
    pub const MAGIC: [u8; 4] = [0x50, 0x53, 0x32, 0x44];

    /// The first row of the title, decoded from Shift-JIS.
    pub fn title(&self) -> (s: String)
        requires
            title_ok(*self),
        ensures
            s@ == trim_nul(shift_jis_decoding(self.title@.take(self.subtitle_off as int)).0),
    {
        let subtitle_off = self.subtitle_off as usize;
        let row = vstd::slice::slice_subrange(self.title.as_slice(), 0, subtitle_off);
        assert(row@ =~= self.title@.take(self.subtitle_off as int));
        match shiftjis_to_string(row) {
            Ok(s) => s,
            Err(_) => String::new(),
        }
    }

    /// The second row of the title, decoded from Shift-JIS.
    pub fn subtitle(&self) -> (s: String)
        requires
            subtitle_ok(*self),
        ensures
            s@ == trim_nul(shift_jis_decoding(self.title@.skip(self.subtitle_off as int)).0),
    {
        let subtitle_off = self.subtitle_off as usize;
        let row = vstd::slice::slice_subrange(self.title.as_slice(), subtitle_off, 68);
        assert(row@ =~= self.title@.skip(self.subtitle_off as int));
        match shiftjis_to_string(row) {
            Ok(s) => s,
            Err(_) => String::new(),
        }
    }

    /// The file name of the icon for the normal view.
    pub fn list_icon(&self) -> (s: String)
        requires
            filename_status(self.list_icon@) is Ok,
        ensures
            s@ == trim_nul(utf8_lossy_text(self.list_icon@)),
    {
        match filename_to_string(self.list_icon.as_slice()) {
            Ok(s) => s,
            Err(_) => String::new(),
        }
    }

    /// The file name of the icon shown when copying, where one is given.
    pub fn copy_icon(&self) -> (r: Option<String>)
        requires
            self.copy_icon@[0] != 0 ==> filename_status(self.copy_icon@) is Ok,
        ensures
            r is None <==> self.copy_icon@[0] == 0,
            r matches Some(s) ==> s@ == trim_nul(utf8_lossy_text(self.copy_icon@)),
    {
        if self.copy_icon[0] == 0 {
            return None;
        }
        match filename_to_string(self.copy_icon.as_slice()) {
            Ok(s) => Some(s),
            Err(_) => Some(String::new()),
        }
    }

    /// The file name of the icon shown when deleting, where one is given.
    pub fn delete_icon(&self) -> (r: Option<String>)
        requires
            self.delete_icon@[0] != 0 ==> filename_status(self.delete_icon@) is Ok,
        ensures
            r is None <==> self.delete_icon@[0] == 0,
            r matches Some(s) ==> s@ == trim_nul(utf8_lossy_text(self.delete_icon@)),
    {
        if self.delete_icon[0] == 0 {
            return None;
        }
        match filename_to_string(self.delete_icon.as_slice()) {
            Ok(s) => Some(s),
            Err(_) => Some(String::new()),
        }
    }

    /// Reads the 452 bytes of `icon.sys` and validates them.
    #[verifier::rlimit(40)]
    pub fn read(reader: &mut ByteReader) -> (res: Result<Self, MemcardError>)
        ensures
            old(reader)@.len() < 452 ==> (res matches Err(e) && e is Io),
            old(reader)@.len() >= 452 ==> match res {
                Ok(i) => icon_sys_from_bytes(i, old(reader)@) && icon_sys_status(i) is Ok && consumed(
                    old(reader)@,
                    final(reader)@,
                    452,
                ),
                Err(e) => exists|i: IconSys|
                    icon_sys_from_bytes(i, old(reader)@) && icon_sys_status(i) == Err::<
                        (),
                        MemcardError,
                    >(e),
            },
    {
        let ghost b = reader@;
        let mut magic = [0u8; 4];
        reader.read_exact(&mut magic)?;
        let unk_0x04 = read_u16(reader)?;
        let unk_0x06 = read_u16(reader)?;
        let unk_0x08 = read_u32(reader)?;
        let bg_opacity = read_u32(reader)?;
        let ghost at_vecs = reader@;
        let v = read_vec4s(reader)?;
        let mut title = [0u8; 68];
        reader.read_exact(&mut title)?;
        let mut icon_list = [0u8; 64];
        reader.read_exact(&mut icon_list)?;
        let mut icon_copy = [0u8; 64];
        reader.read_exact(&mut icon_copy)?;
        let mut icon_delete = [0u8; 64];
        reader.read_exact(&mut icon_delete)?;
        let iconsys = IconSys {
            magic,
            unk_0x04,
            subtitle_off: unk_0x06,
            unk_0x08,
            bg_opacity,
            bg_color_a: v[0],
            bg_color_b: v[1],
            bg_color_c: v[2],
            bg_color_d: v[3],
            light_a_dir: v[4],
            light_b_dir: v[5],
            light_c_dir: v[6],
            light_a_color: v[7],
            light_b_color: v[8],
            light_c_color: v[9],
            light_ambient_color: v[10],
            title,
            list_icon: icon_list,
            copy_icon: icon_copy,
            delete_icon: icon_delete,
        };
        proof {
            assert(magic@ =~= b.subrange(0, 4));
            assert(at_vecs =~= b.skip(16));
            assert forall|k: int| 0 <= k < 11 implies #[trigger] at_vecs.skip(16 * k) == b.skip(
                16 + 16 * k,
            ) by {
                assert(at_vecs.skip(16 * k) =~= b.skip(16 + 16 * k));
            }
            assert(v@[0] == parse_vec4(b.skip(16)));
            assert(v@[1] == parse_vec4(b.skip(32)));
            assert(v@[2] == parse_vec4(b.skip(48)));
            assert(v@[3] == parse_vec4(b.skip(64)));
            assert(v@[4] == parse_vec4(b.skip(80)));
            assert(v@[5] == parse_vec4(b.skip(96)));
            assert(v@[6] == parse_vec4(b.skip(112)));
            assert(v@[7] == parse_vec4(b.skip(128)));
            assert(v@[8] == parse_vec4(b.skip(144)));
            assert(v@[9] == parse_vec4(b.skip(160)));
            assert(v@[10] == parse_vec4(b.skip(176)));
            assert(title@ =~= b.subrange(192, 260));
            assert(icon_list@ =~= b.subrange(260, 324));
            assert(icon_copy@ =~= b.subrange(324, 388));
            assert(icon_delete@ =~= b.subrange(388, 452));
            assert(icon_sys_from_bytes(iconsys, b));
            assert(reader@ =~= b.skip(452));
        }
        iconsys.validate()?;
        Ok(iconsys)
    }

    /// Checks the magic, the subtitle offset, the Shift-JIS title and the
    /// icon file names.
    pub fn validate(&self) -> (res: Result<(), MemcardError>)
        ensures
            res == icon_sys_status(*self),
    {
        let magic = Self::MAGIC;
        assert(magic@ =~= icon_sys_magic());
        if !(self.magic[0] == magic[0] && self.magic[1] == magic[1] && self.magic[2] == magic[2]
            && self.magic[3] == magic[3]) {
            assert(self.magic@ != icon_sys_magic());
            return Err(MemcardError::InvalidMagic);
        }
        assert(self.magic@ =~= icon_sys_magic());
        let subtitle_off = self.subtitle_off as usize;
        if subtitle_off > 68 {
            return Err(MemcardError::IconSysBadSubtitleOffset);
        }
        validate_shiftjis(self.title.as_slice())?;
        let first = vstd::slice::slice_subrange(self.title.as_slice(), 0, subtitle_off);
        assert(first@ =~= self.title@.take(subtitle_off as int));
        validate_shiftjis(first)?;
        let second = vstd::slice::slice_subrange(self.title.as_slice(), subtitle_off, 68);
        assert(second@ =~= self.title@.skip(subtitle_off as int));
        validate_shiftjis(second)?;
        validate_filename(self.list_icon.as_slice())?;
        if self.copy_icon[0] != 0 {
            validate_filename(self.copy_icon.as_slice())?;
        }
        if self.delete_icon[0] != 0 {
            validate_filename(self.delete_icon.as_slice())?;
        }
        Ok(())
    }
}

/// A valid `icon.sys` (in particular, one that [`IconSys::read`] returned)
/// meets what its title, subtitle and icon name accessors require.
pub proof fn lemma_valid_icon_sys_accessors(i: IconSys)
    requires
        icon_sys_status(i) is Ok,
    ensures
        title_ok(i),
        subtitle_ok(i),
        filename_status(i.list_icon@) is Ok,
        i.copy_icon@[0] != 0 ==> filename_status(i.copy_icon@) is Ok,
        i.delete_icon@[0] != 0 ==> filename_status(i.delete_icon@) is Ok,
{
}

/// The four little-endian `u32` at `off`, `off + 4`, `off + 8` and
/// `off + 12` of `b`.
pub open spec fn vec4_at(b: Seq<u8>, off: int) -> Vec4 {
    Vec4 {
        x: le_u32(b.subrange(off, off + 4)),
        y: le_u32(b.subrange(off + 4, off + 8)),
        z: le_u32(b.subrange(off + 8, off + 12)),
        w: le_u32(b.subrange(off + 12, off + 16)),
    }
}

/// What [`IconSys::read`] returns is laid out in the order of its fields:
/// the magic at 0, two `u16` at 4 and 6, two `u32` at 8 and 12, the eleven
/// `Vec4` records at 16, 32, ..., 176 (background corners top left, top
/// right, bottom left, bottom right; three light directions; three light
/// colors; ambient color), the title at 192, and the list, copy and delete
/// icon names at 260, 324 and 388.
pub proof fn lemma_icon_sys_layout(i: IconSys, b: Seq<u8>)
    requires
        b.len() >= 452,
        icon_sys_from_bytes(i, b),
    ensures
        i.magic@ == b.subrange(0, 4),
        i.unk_0x04 == b[4] + b[5] * 0x100,
        i.subtitle_off == b[6] + b[7] * 0x100,
        i.bg_color_a == vec4_at(b, 16),
        i.bg_color_b == vec4_at(b, 32),
        i.bg_color_c == vec4_at(b, 48),
        i.bg_color_d == vec4_at(b, 64),
        i.light_a_dir == vec4_at(b, 80),
        i.light_b_dir == vec4_at(b, 96),
        i.light_c_dir == vec4_at(b, 112),
        i.light_a_color == vec4_at(b, 128),
        i.light_b_color == vec4_at(b, 144),
        i.light_c_color == vec4_at(b, 160),
        i.light_ambient_color == vec4_at(b, 176),
        i.title@ == b.subrange(192, 260),
        i.list_icon@ == b.subrange(260, 324),
        i.copy_icon@ == b.subrange(324, 388),
        i.delete_icon@ == b.subrange(388, 452),
{
    assert forall|off: int| 16 <= off <= 176 implies #[trigger] parse_vec4(b.skip(off)) == vec4_at(b, off) by {
        assert(b.skip(off).subrange(0, 4) =~= b.subrange(off, off + 4));
        assert(b.skip(off).skip(4).subrange(0, 4) =~= b.subrange(off + 4, off + 8));
        assert(b.skip(off).skip(8).subrange(0, 4) =~= b.subrange(off + 8, off + 12));
        assert(b.skip(off).skip(12).subrange(0, 4) =~= b.subrange(off + 12, off + 16));
    }
    assert(parse_vec4(b.skip(16)) == vec4_at(b, 16));
    assert(parse_vec4(b.skip(32)) == vec4_at(b, 32));
    assert(parse_vec4(b.skip(48)) == vec4_at(b, 48));
    assert(parse_vec4(b.skip(64)) == vec4_at(b, 64));
    assert(parse_vec4(b.skip(80)) == vec4_at(b, 80));
    assert(parse_vec4(b.skip(96)) == vec4_at(b, 96));
    assert(parse_vec4(b.skip(112)) == vec4_at(b, 112));
    assert(parse_vec4(b.skip(128)) == vec4_at(b, 128));
    assert(parse_vec4(b.skip(144)) == vec4_at(b, 144));
    assert(parse_vec4(b.skip(160)) == vec4_at(b, 160));
    assert(parse_vec4(b.skip(176)) == vec4_at(b, 176));
}

} // verus!
