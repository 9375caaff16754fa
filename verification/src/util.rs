use vstd::prelude::*;

use crate::memcard::MemcardError;
use crate::reader::ByteReader;

verus! {

/// Little-endian `u16` in the first two bytes of `b`.
pub open spec fn le_u16(b: Seq<u8>) -> u16 {
    (b[0] as int + b[1] as int * 0x100) as u16
}

/// Little-endian `u32` in the first four bytes of `b`.
pub open spec fn le_u32(b: Seq<u8>) -> u32 {
    (b[0] as int + b[1] as int * 0x100 + b[2] as int * 0x1_0000 + b[3] as int * 0x100_0000) as u32
}

/// Little-endian two's-complement `i16` in the first two bytes of `b`.
pub open spec fn le_i16(b: Seq<u8>) -> i16 {
    let u = le_u16(b) as int;
    (if u < 0x8000 { u } else { u - 0x1_0000 }) as i16
}

/// Little-endian two's-complement `i32` in the first four bytes of `b`.
pub open spec fn le_i32(b: Seq<u8>) -> i32 {
    let u = le_u32(b) as int;
    (if u < 0x8000_0000 { u } else { u - 0x1_0000_0000 }) as i32
}

/// What a successful fixed-size read of `n` bytes does to a reader:
/// it had at least `n` bytes and lost exactly the first `n`.
pub open spec fn consumed(before: Seq<u8>, after: Seq<u8>, n: int) -> bool {
    &&& n <= before.len()
    &&& after == before.skip(n)
}

/// Reads one byte.
pub fn read_u8(reader: &mut ByteReader) -> (res: Result<u8, MemcardError>)
    ensures
        res is Ok <==> old(reader)@.len() >= 1,
        res matches Ok(v) ==> v == old(reader)@[0] && consumed(old(reader)@, final(reader)@, 1),
        res is Err ==> res->Err_0 is Io,
{
    let mut buf = [0u8; 1];
    reader.read_exact(&mut buf)?;
    Ok(buf[0])
}

/// Reads a little-endian `u16`.
pub fn read_u16(reader: &mut ByteReader) -> (res: Result<u16, MemcardError>)
    ensures
        res is Ok <==> old(reader)@.len() >= 2,
        res matches Ok(v) ==> v == le_u16(old(reader)@) && consumed(old(reader)@, final(reader)@, 2),
        res is Err ==> res->Err_0 is Io,
{
    let mut buf = [0u8; 2];
    reader.read_exact(&mut buf)?;
    Ok(buf[0] as u16 + buf[1] as u16 * 0x100)
}

/// Reads a little-endian `u32`.
pub fn read_u32(reader: &mut ByteReader) -> (res: Result<u32, MemcardError>)
    ensures
        res is Ok <==> old(reader)@.len() >= 4,
        res matches Ok(v) ==> v == le_u32(old(reader)@) && consumed(old(reader)@, final(reader)@, 4),
        res is Err ==> res->Err_0 is Io,
{
    let mut buf = [0u8; 4];
    reader.read_exact(&mut buf)?;
    Ok(buf[0] as u32 + buf[1] as u32 * 0x100 + buf[2] as u32 * 0x1_0000 + buf[3] as u32 * 0x100_0000)
}

/// Reads a little-endian `i16`.
pub fn read_i16(reader: &mut ByteReader) -> (res: Result<i16, MemcardError>)
    ensures
        res is Ok <==> old(reader)@.len() >= 2,
        res matches Ok(v) ==> v == le_i16(old(reader)@) && consumed(old(reader)@, final(reader)@, 2),
        res is Err ==> res->Err_0 is Io,
{
    let u = read_u16(reader)?;
    if u < 0x8000 {
        Ok(u as i16)
    } else {
        Ok((u as i32 - 0x1_0000) as i16)
    }
}

/// Little-endian `u16` at `off` in `bytes`.
pub(crate) fn u16_from(bytes: &[u8], off: usize) -> (v: u16)
    requires
        off + 2 <= bytes@.len(),
    ensures
        v == le_u16(bytes@.skip(off as int)),
{
    bytes[off] as u16 + bytes[off + 1] as u16 * 0x100
}

/// Little-endian `u32` at `off` in `bytes`.
pub(crate) fn u32_from(bytes: &[u8], off: usize) -> (v: u32)
    requires
        off + 4 <= bytes@.len(),
    ensures
        v == le_u32(bytes@.subrange(off as int, off + 4)),
{
    bytes[off] as u32 + bytes[off + 1] as u32 * 0x100 + bytes[off + 2] as u32 * 0x1_0000
        + bytes[off + 3] as u32 * 0x100_0000
}

/// Little-endian `i32` at `off` in `bytes`.
pub(crate) fn i32_at(bytes: &[u8], off: usize) -> (v: i32)
    requires
        off + 4 <= bytes@.len(),
    ensures
        v == le_i32(bytes@.subrange(off as int, off + 4)),
{
    let u = bytes[off] as u32 + bytes[off + 1] as u32 * 0x100 + bytes[off + 2] as u32 * 0x1_0000
        + bytes[off + 3] as u32 * 0x100_0000;
    if u < 0x8000_0000 {
        u as i32
    } else {
        (u as i64 - 0x1_0000_0000) as i32
    }
}


/// Every byte is below 0x80.
pub open spec fn is_ascii_bytes(b: Seq<u8>) -> bool {
    forall|i: int| 0 <= i < b.len() ==> b[i] < 0x80
}

/// The characters of an ASCII byte sequence, one per byte.
pub open spec fn ascii_chars(b: Seq<u8>) -> Seq<char> {
    Seq::new(b.len(), |i: int| b[i] as char)
}

/// `s` without its trailing NUL characters.
pub open spec fn trim_nul(s: Seq<char>) -> Seq<char>
    decreases s.len(),
{
    if s.len() > 0 && s.last() == '\0' {
        trim_nul(s.drop_last())
    } else {
        s
    }
}

/// What `String::from_utf8_lossy` makes of `bytes`.
pub uninterp spec fn utf8_lossy_text(bytes: Seq<u8>) -> Seq<char>;

/// What `encoding_rs::SHIFT_JIS.decode` makes of `bytes`: the decoded text,
/// and whether malformed sequences were replaced.
pub uninterp spec fn shift_jis_decoding(bytes: Seq<u8>) -> (Seq<char>, bool);

/// Calls `String::from_utf8_lossy`. Claimed: the result is the name
/// `utf8_lossy_text` of the bytes, and ASCII bytes (valid UTF-8) come back
/// unchanged, one character per byte.
#[verifier::external_body]
pub(crate) fn utf8_lossy_owned(bytes: &[u8]) -> (s: String)
    ensures
        s@ == utf8_lossy_text(bytes@),
        is_ascii_bytes(bytes@) ==> s@ == ascii_chars(bytes@),
{
    String::from_utf8_lossy(bytes).into_owned()
}

/// Calls `encoding_rs::SHIFT_JIS.decode` (with BOM sniffing, as the crate
/// documents) and keeps the text and the error flag. Claimed: the pair is the
/// name `shift_jis_decoding` of the bytes, and ASCII-only input (which holds no
/// BOM) decodes to itself without errors, as the crate's source shows.
#[verifier::external_body]
fn decode_shift_jis(bytes: &[u8]) -> (r: (String, bool))
    ensures
        (r.0@, r.1) == shift_jis_decoding(bytes@),
        is_ascii_bytes(bytes@) ==> r.0@ == ascii_chars(bytes@) && !r.1,
{
    let (text, _encoding, had_errors) = encoding_rs::SHIFT_JIS.decode(bytes);
    (text.into_owned(), had_errors)
}

/// `s` with its trailing NUL characters removed, as an owned string.
pub fn trim_nuls(s: &str) -> (r: String)
    ensures
        r@ == trim_nul(s@),
{
    let mut n = s.unicode_len();
    assert(s@.subrange(0, n as int) =~= s@);
    while n > 0 && s.get_char(n - 1) == '\0'
        invariant
            n <= s@.len(),
            trim_nul(s@) == trim_nul(s@.subrange(0, n as int)),
        decreases n,
    {
        proof {
            let t = s@.subrange(0, n as int);
            assert(t.drop_last() =~= s@.subrange(0, n - 1));
        }
        n = n - 1;
    }
    proof {
        let t = s@.subrange(0, n as int);
        if n == 0 {
            assert(t =~= Seq::<char>::empty());
        }
    }
    s.substring_char(0, n).to_owned()
}

/// A byte allowed in a file name: printable ASCII other than `*`, `/`, `?`.
pub open spec fn filename_char_allowed(c: u8) -> bool {
    0x20 <= c <= 0x7e && c != 0x2a && c != 0x2f && c != 0x3f
}

/// Scans `s` from `i` on: the first NUL ends a valid name, the first
/// disallowed byte makes it invalid, and running out means no terminator.
pub open spec fn filename_scan(s: Seq<u8>, i: int) -> Result<(), MemcardError>
    decreases s.len() - i,
{
    if i >= s.len() || i < 0 {
        Err(MemcardError::FilenameIsntNullterminated)
    } else if s[i] == 0 {
        Ok(())
    } else if !filename_char_allowed(s[i]) {
        Err(MemcardError::FilenameInvalidCharacters)
    } else {
        filename_scan(s, i + 1)
    }
}

/// The verdict on a NUL-terminated file name field.
pub open spec fn filename_status(s: Seq<u8>) -> Result<(), MemcardError> {
    if s[0] == 0 {
        Err(MemcardError::FilenameIsEmpty)
    } else {
        filename_scan(s, 0)
    }
}

/// Checks a NUL-terminated file name field.
pub fn validate_filename(slice: &[u8]) -> (res: Result<(), MemcardError>)
    requires
        slice@.len() > 0,
    ensures
        res == filename_status(slice@),
{
    if slice[0] == 0 {
        return Err(MemcardError::FilenameIsEmpty);
    }
    let mut i: usize = 0;
    while i < slice.len()
        invariant
            i <= slice@.len(),
            slice@[0] != 0,
            filename_scan(slice@, 0) == filename_scan(slice@, i as int),
        decreases slice@.len() - i,
    {
        let c = slice[i];
        if c == 0 {
            return Ok(());
        }
        if !(0x20 <= c && c <= 0x7e) || c == 0x2a || c == 0x2f || c == 0x3f {
            return Err(MemcardError::FilenameInvalidCharacters);
        }
        i = i + 1;
    }
    Err(MemcardError::FilenameIsntNullterminated)
}

/// A file name field as text: the whole field decoded leniently as UTF-8,
/// without its trailing NULs, provided the field is a valid file name.
pub fn filename_to_string(slice: &[u8]) -> (res: Result<String, MemcardError>)
    requires
        slice@.len() > 0,
    ensures
        res is Ok <==> filename_status(slice@) is Ok,
        res matches Err(e) ==> filename_status(slice@) == Err::<(), MemcardError>(e),
        res matches Ok(s) ==> s@ == trim_nul(utf8_lossy_text(slice@)),
        is_ascii_bytes(slice@) ==> (res matches Ok(s) ==> s@ == trim_nul(ascii_chars(slice@))),
{
    validate_filename(slice)?;
    let text = utf8_lossy_owned(slice);
    Ok(trim_nuls(text.as_str()))
}

/// Checks that `slice` decodes as Shift-JIS without malformed sequences.
pub fn validate_shiftjis(slice: &[u8]) -> (res: Result<(), MemcardError>)
    ensures
        res is Ok <==> !shift_jis_decoding(slice@).1,
        res is Err ==> res->Err_0 is StringDecodeFailed,
        is_ascii_bytes(slice@) ==> res is Ok,
{
    let (_text, errors) = decode_shift_jis(slice);
    if errors {
        return Err(MemcardError::StringDecodeFailed);
    }
    Ok(())
}

/// What a decoding that gave `text` and the flag `had_errors` (malformed
/// sequences were replaced) comes to: an error where the flag is set, else
/// the text without its trailing NULs.
pub fn decoded_text(text: &str, had_errors: bool) -> (res: Result<String, MemcardError>)
    ensures
        res is Ok <==> !had_errors,
        res is Err ==> res->Err_0 is StringDecodeFailed,
        res matches Ok(s) ==> s@ == trim_nul(text@),
{
    if had_errors {
        return Err(MemcardError::StringDecodeFailed);
    }
    Ok(trim_nuls(text))
}

/// `slice` decoded as Shift-JIS, without its trailing NULs.
pub fn shiftjis_to_string(slice: &[u8]) -> (res: Result<String, MemcardError>)
    ensures
        res is Ok <==> !shift_jis_decoding(slice@).1,
        res is Err ==> res->Err_0 is StringDecodeFailed,
        res matches Ok(s) ==> s@ == trim_nul(shift_jis_decoding(slice@).0),
        is_ascii_bytes(slice@) ==> (res matches Ok(s) && s@ == trim_nul(ascii_chars(slice@))),
{
    let (text, errors) = decode_shift_jis(slice);
    decoded_text(text.as_str(), errors)
}


/// The decimal digit `d` (0 to 9) as a character.
pub open spec fn digit_char(d: int) -> char {
    if d == 0 { '0' } else if d == 1 { '1' } else if d == 2 { '2' } else if d == 3 { '3' }
    else if d == 4 { '4' } else if d == 5 { '5' } else if d == 6 { '6' } else if d == 7 { '7' }
    else if d == 8 { '8' } else { '9' }
}

/// `n` written in decimal, without leading zeros.
pub open spec fn decimal(n: nat) -> Seq<char>
    decreases n,
{
    if n < 10 {
        seq![digit_char(n as int)]
    } else {
        decimal(n / 10).push(digit_char((n % 10) as int))
    }
}

/// `n` in decimal, padded on the left with zeros to at least `width`
/// characters, as the format `{:0width$}` writes it.
pub open spec fn zero_padded(n: nat, width: nat) -> Seq<char> {
    let d = decimal(n);
    if d.len() >= width {
        d
    } else {
        Seq::new((width - d.len()) as nat, |i: int| '0') + d
    }
}

fn push_digit(s: &mut String, d: u32)
    requires
        d < 10,
    ensures
        final(s)@ == old(s)@.push(digit_char(d as int)),
{
    match d {
        0 => {
            proof {
                reveal_strlit("0");
            }
            s.append("0");
        }
        1 => {
            proof {
                reveal_strlit("1");
            }
            s.append("1");
        }
        2 => {
            proof {
                reveal_strlit("2");
            }
            s.append("2");
        }
        3 => {
            proof {
                reveal_strlit("3");
            }
            s.append("3");
        }
        4 => {
            proof {
                reveal_strlit("4");
            }
            s.append("4");
        }
        5 => {
            proof {
                reveal_strlit("5");
            }
            s.append("5");
        }
        6 => {
            proof {
                reveal_strlit("6");
            }
            s.append("6");
        }
        7 => {
            proof {
                reveal_strlit("7");
            }
            s.append("7");
        }
        8 => {
            proof {
                reveal_strlit("8");
            }
            s.append("8");
        }
        _ => {
            proof {
                reveal_strlit("9");
            }
            s.append("9");
        }
    }
}

/// Appends `n` in decimal.
pub(crate) fn push_decimal(s: &mut String, n: u32)
    ensures
        final(s)@ == old(s)@ + decimal(n as nat),
    decreases n,
{
    if n >= 10 {
        push_decimal(s, n / 10);
    }
    push_digit(s, n % 10);
    proof {
        if n >= 10 {
            assert(final(s)@ =~= old(s)@ + decimal(n as nat)) by {
                assert(decimal(n as nat) == decimal((n / 10) as nat).push(digit_char((n % 10) as int)));
            }
        } else {
            assert(final(s)@ =~= old(s)@ + decimal(n as nat));
        }
    }
}

/// Number of decimal digits of `n`.
fn decimal_len(n: u32) -> (len: usize)
    ensures
        len == decimal(n as nat).len(),
        1 <= len <= n as int + 1,
    decreases n,
{
    if n < 10 {
        1
    } else {
        decimal_len(n / 10) + 1
    }
}

/// Appends `n` in decimal, padded with zeros to at least `width` characters.
pub(crate) fn push_zero_padded(s: &mut String, n: u32, width: usize)
    ensures
        final(s)@ == old(s)@ + zero_padded(n as nat, width as nat),
{
    let len = decimal_len(n);
    let ghost start = s@;
    if len < width {
        let mut k: usize = 0;
        while k < width - len
            invariant
                len < width,
                k <= width - len,
                s@ == start + Seq::new(k as nat, |i: int| '0'),
            decreases width - len - k,
        {
            proof {
                reveal_strlit("0");
            }
            s.append("0");
            k = k + 1;
            assert(s@ =~= start + Seq::new(k as nat, |i: int| '0'));
        }
    }
    let ghost padded = s@;
    push_decimal(s, n);
    assert(s@ =~= start + zero_padded(n as nat, width as nat));
}

} // verus!
