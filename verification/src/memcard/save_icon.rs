use vstd::prelude::*;

use crate::memcard::MemcardError;
use crate::reader::ByteReader;
use crate::util::{consumed, le_i16, le_u16, le_u32, read_i16, read_u16, read_u32};

verus! {

/// A vertex position or normal: four little-endian `i16` (fixed point,
/// 0x1000 is 1.0).
#[derive(Debug, Clone, Copy, PartialEq, Eq, Structural)]
pub struct VertexCoord {
    pub x: i16,
    pub y: i16,
    pub z: i16,
    pub w: i16,
}

/// A vertex of a save icon: one position per animation shape, a normal,
/// texture coordinates and a color.
#[derive(Debug, Clone)]
pub struct Vertex {
    pub coords: Vec<VertexCoord>,
    pub normal: VertexCoord,
    pub u: i16,
    pub v: i16,
    pub rgba: [u8; 4],
}

/// PlayStation 2 save icon
#[derive(Debug, Clone)]
pub struct SaveIcon {
    pub magic: u32,
    pub num_anim_shapes: u32,
    pub tex_flags: u32,
    pub unk_0xc: u32,
    pub num_vertices: u32,
    pub vertices: Vec<Vertex>,
    pub texture: Box<[u32; 16384]>,
}

/// The coordinate stored in the first eight bytes of `b`.
pub open spec fn parse_vertex_coord(b: Seq<u8>) -> VertexCoord {
    VertexCoord { x: le_i16(b), y: le_i16(b.skip(2)), z: le_i16(b.skip(4)), w: le_i16(b.skip(6)) }
}

/// Size in bytes of a vertex with `n` animation shapes.
pub open spec fn vertex_len(n: int) -> int {
    8 * n + 16
}

/// `v` is the vertex with `n` animation shapes stored at the start of `b`.
pub open spec fn vertex_from_bytes(v: Vertex, b: Seq<u8>, n: int) -> bool {
    &&& v.coords@.len() == n
    &&& forall|j: int| 0 <= j < n ==> #[trigger] v.coords@[j] == parse_vertex_coord(b.skip(8 * j))
    &&& v.normal == parse_vertex_coord(b.skip(8 * n))
    &&& v.u == le_i16(b.skip(8 * n + 8))
    &&& v.v == le_i16(b.skip(8 * n + 10))
    &&& v.rgba@ == b.subrange(8 * n + 12, 8 * n + 16)
}

/// A texel of a 16-bit `A1B5G5R5` texture as `0xAABBGGRR` with full alpha,
/// each 5-bit channel moved to the top of its byte.
pub open spec fn texel_from_a1b5g5r5(packed: u16) -> u32 {
    let r = (packed << 3u16) as u8;
    let g = ((packed >> 2u16) as u8) & 0xf8u8;
    let b = ((packed >> 7u16) as u8) & 0xf8u8;
    (r as u32 + g as u32 * 0x100 + b as u32 * 0x1_0000 + 0xff00_0000) as u32
}

/// The texture types that carry a 128x128 `A1B5G5R5` texture after the
/// vertices.
pub open spec fn has_a1b5g5r5_texture(tex_flags: u32) -> bool {
    tex_flags == 0x06 || tex_flags == 0x07
}

/// Offset of the texture: after the header and the vertices.
pub open spec fn texture_offset(num_vertices: u32, num_anim_shapes: u32) -> int {
    20 + num_vertices * vertex_len(num_anim_shapes as int)
}

/// Size in bytes of a save icon with this header.
pub open spec fn save_icon_len(num_vertices: u32, num_anim_shapes: u32, tex_flags: u32) -> int {
    texture_offset(num_vertices, num_anim_shapes) + if has_a1b5g5r5_texture(tex_flags) {
        32768int
    } else {
        0int
    }
}

/// `b` starts with a whole save icon: its header and all that the header
/// announces.
pub open spec fn save_icon_fits(b: Seq<u8>) -> bool {
    &&& b.len() >= 20
    &&& b.len() >= save_icon_len(le_u32(b.skip(16)), le_u32(b.skip(4)), le_u32(b.skip(8)))
}

/// `icon` is the save icon stored at the start of `b`.
pub open spec fn save_icon_from_bytes(icon: SaveIcon, b: Seq<u8>) -> bool {
    let n = icon.num_anim_shapes as int;
    let t = texture_offset(icon.num_vertices, icon.num_anim_shapes);
    &&& icon.magic == le_u32(b)
    &&& icon.num_anim_shapes == le_u32(b.skip(4))
    &&& icon.tex_flags == le_u32(b.skip(8))
    &&& icon.unk_0xc == le_u32(b.skip(12))
    &&& icon.num_vertices == le_u32(b.skip(16))
    &&& icon.vertices@.len() == icon.num_vertices
    &&& forall|k: int|
        0 <= k < icon.num_vertices ==> #[trigger] vertex_from_bytes(
            icon.vertices@[k],
            b.skip(20 + k * vertex_len(n)),
            n,
        )
    &&& forall|i: int|
        0 <= i < 128 * 128 ==> #[trigger] icon.texture@[i] == if has_a1b5g5r5_texture(
            icon.tex_flags,
        ) {
            texel_from_a1b5g5r5(le_u16(b.skip(t + 2 * i)))
        } else {
            0xff00_0000u32
        }
}

/// The verdict of [`SaveIcon::validate`].
pub open spec fn save_icon_status(icon: SaveIcon) -> Result<(), MemcardError> {
    if icon.magic != 0x01_0000 {
        Err(MemcardError::InvalidMagic)
    } else if icon.num_vertices % 3 != 0 {
        Err(MemcardError::SaveIconInvalidVertexCount)
    } else {
        Ok(())
    }
}

fn read_vertex_coord(reader: &mut ByteReader) -> (res: Result<VertexCoord, MemcardError>)
    ensures
        res is Ok <==> old(reader)@.len() >= 8,
        res matches Ok(c) ==> c == parse_vertex_coord(old(reader)@) && consumed(
            old(reader)@,
            final(reader)@,
            8,
        ),
        res is Err ==> res->Err_0 is Io,
{
    let ghost b = reader@;
    let x = read_i16(reader)?;
    let y = read_i16(reader)?;
    let z = read_i16(reader)?;
    let w = read_i16(reader)?;
    proof {
        assert(b.skip(2).skip(2) =~= b.skip(4));
        assert(b.skip(4).skip(2) =~= b.skip(6));
        assert(b.skip(6).skip(2) =~= b.skip(8));
    }
    Ok(VertexCoord { x, y, z, w })
}

fn read_vertex(reader: &mut ByteReader, num_anim_shapes: u32) -> (res: Result<Vertex, MemcardError>)
    ensures
        res is Ok <==> old(reader)@.len() >= vertex_len(num_anim_shapes as int),
        res matches Ok(v) ==> vertex_from_bytes(v, old(reader)@, num_anim_shapes as int)
            && consumed(old(reader)@, final(reader)@, vertex_len(num_anim_shapes as int)),
        res is Err ==> res->Err_0 is Io,
{
    let ghost b = reader@;
    let ghost n = num_anim_shapes as int;
    let mut coords: Vec<VertexCoord> = Vec::new();
    let mut j: u32 = 0;
    while j < num_anim_shapes
        invariant
            j <= num_anim_shapes,
            n == num_anim_shapes,
            b == old(reader)@,
            8 * j <= b.len(),
            reader@ == b.skip(8 * j),
            coords@.len() == j,
            forall|i: int| 0 <= i < j ==> #[trigger] coords@[i] == parse_vertex_coord(b.skip(8 * i)),
        decreases num_anim_shapes - j,
    {
        let c = match read_vertex_coord(reader) {
            Ok(c) => c,
            Err(e) => {
                assert(b.len() < vertex_len(n));
                return Err(e);
            },
        };
        proof {
            assert(b.skip(8 * j).skip(8) =~= b.skip(8 * (j + 1)));
        }
        coords.push(c);
        j = j + 1;
    }
    let ghost at_normal = reader@;
    let normal = read_vertex_coord(reader)?;
    let u = read_i16(reader)?;
    let v = read_i16(reader)?;
    let mut rgba = [0u8; 4];
    reader.read_exact(&mut rgba)?;
    proof {
        assert(at_normal == b.skip(8 * n));
        assert(b.skip(8 * n).skip(8) =~= b.skip(8 * n + 8));
        assert(b.skip(8 * n + 8).skip(2) =~= b.skip(8 * n + 10));
        assert(b.skip(8 * n + 10).skip(2) =~= b.skip(8 * n + 12));
        assert(rgba@ =~= b.subrange(8 * n + 12, 8 * n + 16));
        assert(reader@ =~= b.skip(vertex_len(n)));
    }
    Ok(Vertex { coords, normal, u, v, rgba })
}

fn texel(packed: u16) -> (t: u32)
    ensures
        t == texel_from_a1b5g5r5(packed),
{
    let r = (packed << 3u16) as u8;
    let g = ((packed >> 2u16) as u8) & 0xf8u8;
    let b = ((packed >> 7u16) as u8) & 0xf8u8;
    r as u32 + g as u32 * 0x100 + b as u32 * 0x1_0000 + 0xff00_0000
}

impl SaveIcon {
    pub const MAGIC: u32 = 0x010000;

    /// Reads a save icon: the header, `num_vertices` vertices of
    /// `num_anim_shapes` positions each, then, for texture types 6 and 7, a
    /// 128x128 `A1B5G5R5` texture; other texture types leave the texture
    /// black (`0xff000000`).
    pub fn read(reader: &mut ByteReader) -> (res: Result<Self, MemcardError>)
        ensures
            res is Ok <==> save_icon_fits(old(reader)@),
            old(reader)@.len() < 20 ==> (res matches Err(e) && e is Io),
            old(reader)@.len() >= 20 ==> {
                let b = old(reader)@;
                let total = save_icon_len(le_u32(b.skip(16)), le_u32(b.skip(4)), le_u32(b.skip(8)));
                &&& res is Ok <==> b.len() >= total
                &&& res matches Ok(icon) ==> save_icon_from_bytes(icon, b) && consumed(
                    b,
                    final(reader)@,
                    total,
                )
                &&& res matches Err(e) ==> e is Io
            },
    {
        let ghost b = reader@;
        let magic = read_u32(reader)?;
        let num_anim_shapes = read_u32(reader)?;
        let tex_flags = read_u32(reader)?;
        let unk_0xc = read_u32(reader)?;
        let num_vertices = read_u32(reader)?;
        proof {
            assert(b.skip(4).skip(4) =~= b.skip(8));
            assert(b.skip(8).skip(4) =~= b.skip(12));
            assert(b.skip(12).skip(4) =~= b.skip(16));
            assert(reader@ =~= b.skip(20));
        }
        let ghost n = num_anim_shapes as int;
        let ghost vl = vertex_len(n);
        let ghost total = save_icon_len(num_vertices, num_anim_shapes, tex_flags);
        let mut vertices: Vec<Vertex> = Vec::new();
        let mut k: u32 = 0;
        let ghost mut pos: int = 20;
        while k < num_vertices
            invariant
                k <= num_vertices,
                b == old(reader)@,
                n == num_anim_shapes,
                vl == vertex_len(n),
                vl >= 16,
                total == save_icon_len(num_vertices, num_anim_shapes, tex_flags),
                num_anim_shapes == le_u32(b.skip(4)),
                tex_flags == le_u32(b.skip(8)),
                num_vertices == le_u32(b.skip(16)),
                total >= 20 + num_vertices * vl,
                pos == 20 + k * vl,
                pos <= b.len(),
                reader@ == b.skip(pos),
                vertices@.len() == k,
                forall|i: int|
                    0 <= i < k ==> #[trigger] vertex_from_bytes(
                        vertices@[i],
                        b.skip(20 + i * vl),
                        n,
                    ),
            decreases num_vertices - k,
        {
            proof {
                assert((k + 1) * vl == k * vl + vl) by (nonlinear_arith);
                assert((k + 1) * vl <= num_vertices * vl) by (nonlinear_arith)
                    requires
                        k + 1 <= num_vertices,
                        vl >= 0,
                ;
            }
            let v = match read_vertex(reader, num_anim_shapes) {
                Ok(v) => v,
                Err(e) => {
                    assert(b.len() < total);
                    return Err(e);
                },
            };
            proof {
                assert(b.skip(pos).skip(vl) =~= b.skip(pos + vl));
                pos = pos + vl;
            }
            vertices.push(v);
            k = k + 1;
        }
        let ghost t = pos;
        assert(t == texture_offset(num_vertices, num_anim_shapes));
        assert(total == save_icon_len(le_u32(b.skip(16)), le_u32(b.skip(4)), le_u32(b.skip(8))));
        let mut texture = [0xff00_0000u32; 16384];
        if tex_flags == 0x07 || tex_flags == 0x06 {
            let mut i: usize = 0;
            while i < 128 * 128
                invariant
                    i <= 128 * 128,
                    b == old(reader)@,
                    0 <= t,
                    t + 2 * i <= b.len(),
                    total == t + 32768,
                    total == save_icon_len(le_u32(b.skip(16)), le_u32(b.skip(4)), le_u32(b.skip(8))),
                    reader@ == b.skip(t + 2 * i),
                    forall|j: int|
                        0 <= j < i ==> #[trigger] texture@[j] == texel_from_a1b5g5r5(
                            le_u16(b.skip(t + 2 * j)),
                        ),
                    forall|j: int| i <= j < 128 * 128 ==> #[trigger] texture@[j] == 0xff00_0000u32,
                decreases 128 * 128 - i,
            {
                let packed = match read_u16(reader) {
                    Ok(p) => p,
                    Err(e) => {
                        assert(b.len() < total);
                        return Err(e);
                    },
                };
                proof {
                    assert(b.skip(t + 2 * i).skip(2) =~= b.skip(t + 2 * (i + 1)));
                }
                texture[i] = texel(packed);
                i = i + 1;
            }
        } else {
            assert(total == t);
        }
        let icon = SaveIcon {
            magic,
            num_anim_shapes,
            tex_flags,
            unk_0xc,
            num_vertices,
            vertices,
            texture: Box::new(texture),
        };
        Ok(icon)
    }

    /// Checks the magic and that the vertices make whole triangles.
    pub fn validate(&self) -> (res: Result<(), MemcardError>)
        ensures
            res == save_icon_status(*self),
    {
        if self.magic != 0x01_0000 {
            return Err(MemcardError::InvalidMagic);
        }
        if self.num_vertices % 3 != 0 {
            return Err(MemcardError::SaveIconInvalidVertexCount);
        }
        Ok(())
    }
}

/// A texel keeps the five bits of each channel of an `A1B5G5R5` value
/// (red in the low bits, then green, then blue), each at the top of its
/// byte of `0xAABBGGRR`, with full alpha; the top bit is dropped.
pub proof fn lemma_texel_channels(packed: u16)
    ensures
        texel_from_a1b5g5r5(packed) == 0xff00_0000 + (packed / 1024 % 32) * 8 * 0x1_0000 + (packed
            / 32 % 32) * 8 * 0x100 + (packed % 32) * 8,
{
    let r = (packed << 3u16) as u8;
    let g = ((packed >> 2u16) as u8) & 0xf8u8;
    let b = ((packed >> 7u16) as u8) & 0xf8u8;
    assert(r == (packed % 32) * 8) by (bit_vector)
        requires
            r == (packed << 3u16) as u8,
    ;
    assert(g == (packed / 32 % 32) * 8) by (bit_vector)
        requires
            g == ((packed >> 2u16) as u8) & 0xf8u8,
    ;
    assert(b == (packed / 1024 % 32) * 8) by (bit_vector)
        requires
            b == ((packed >> 7u16) as u8) & 0xf8u8,
    ;
}

/// In a whole save icon, texture types 6 and 7 both carry the 128x128 `A1B5G5R5` texture stored
/// right after the vertices (texel `i` from the little-endian `u16` at
/// `2 * i` past them), and a whole icon of either type is 32768 bytes
/// longer than its header and vertices; every other texture type leaves all
/// texels black (`0xff000000`) and stores no texture.
pub proof fn lemma_texture_types(icon: SaveIcon, b: Seq<u8>, i: int)
    requires
        save_icon_fits(b),
        save_icon_from_bytes(icon, b),
        0 <= i < 128 * 128,
    ensures
        ({
            let t = 20 + icon.num_vertices * (8 * icon.num_anim_shapes + 16);
            let len = save_icon_len(icon.num_vertices, icon.num_anim_shapes, icon.tex_flags);
            &&& (icon.tex_flags == 6 || icon.tex_flags == 7) ==> {
                &&& icon.texture@[i] == texel_from_a1b5g5r5(
                    (b[t + 2 * i] + b[t + 2 * i + 1] * 0x100) as u16,
                )
                &&& len == t + 32768
            }
            &&& !(icon.tex_flags == 6 || icon.tex_flags == 7) ==> {
                &&& icon.texture@[i] == 0xff00_0000
                &&& len == t
            }
        }),
{
    let t = texture_offset(icon.num_vertices, icon.num_anim_shapes);
    assert(icon.texture@[i] == icon.texture@[i]);
    if icon.tex_flags == 6 || icon.tex_flags == 7 {
        assert(b.skip(t + 2 * i)[0] == b[t + 2 * i]);
        assert(b.skip(t + 2 * i)[1] == b[t + 2 * i + 1]);
    }
}

} // verus!
