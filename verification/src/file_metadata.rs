//! Metadata read from file headers: image resolution, ZIP entry count, video
//! duration, SQLite table count.

use vstd::prelude::*;
use crate::parse::{parse_usize, parse_usize_text, trim, trim_text};
use crate::text::{dec_digits, last_index_of, owned, push_char, push_str, push_u64, rfind_char, slice_chars, str_eq, string_from_chars, to_chars};

verus! {

/// Big-endian 32-bit value of the four bytes at `i`.
pub open spec fn be32(b: Seq<u8>, i: int) -> nat {
    b[i] as nat * 0x100_0000 + b[i + 1] as nat * 0x1_0000 + b[i + 2] as nat * 0x100 + b[i + 3] as nat
}

/// Big-endian 64-bit value of the eight bytes at `i`.
pub open spec fn be64(b: Seq<u8>, i: int) -> nat {
    be32(b, i) * 0x1_0000_0000 + be32(b, i + 4)
}

fn read_be32(b: &[u8], i: usize) -> (r: u64)
    requires
        i + 4 <= b@.len(),
    ensures
        r == be32(b@, i as int),
        r <= u32::MAX,
{
    (b[i] as u64) * 0x100_0000 + (b[i + 1] as u64) * 0x1_0000 + (b[i + 2] as u64) * 0x100 + (b[i + 3] as u64)
}

fn read_be64(b: &[u8], i: usize) -> (r: u64)
    requires
        i + 8 <= b@.len(),
    ensures
        r == be64(b@, i as int),
{
    let n = b.len();
    let hi = read_be32(b, i);
    let lo = read_be32(b, i + 4);
    assert(hi * 0x1_0000_0000 + lo <= u64::MAX) by (nonlinear_arith)
        requires
            hi <= u32::MAX,
            lo <= u32::MAX,
    ;
    hi * 0x1_0000_0000 + lo
}

/// `WxH`.
pub open spec fn dims_text(w: nat, h: nat) -> Seq<char> {
    dec_digits(w) + "x"@ + dec_digits(h)
}

/// The JPEG start-of-frame markers: `FF C0`..`FF CF` except `C4`, `C8`, `CC`.
pub open spec fn is_sof(b: Seq<u8>, i: int) -> bool {
    b[i] == 0xFF && 0xC0 <= b[i + 1] <= 0xCF && b[i + 1] != 0xC4 && b[i + 1] != 0xC8 && b[i + 1] != 0xCC
}

/// Height and width of a start-of-frame marker at `i`.
pub open spec fn sof_dims(b: Seq<u8>, i: int) -> (nat, nat) {
    (b[i + 5] as nat * 256 + b[i + 6] as nat, b[i + 7] as nat * 256 + b[i + 8] as nat)
}

/// The first start-of-frame marker at or after `i` (below `len - 9`) with
/// non-zero dimensions.
pub open spec fn jpeg_scan(b: Seq<u8>, i: int) -> Option<Seq<char>>
    decreases b.len() - i,
{
    if i < 0 || i + 9 >= b.len() {
        None
    } else if is_sof(b, i) && sof_dims(b, i).0 > 0 && sof_dims(b, i).1 > 0 {
        Some(dims_text(sof_dims(b, i).1, sof_dims(b, i).0))
    } else {
        jpeg_scan(b, i + 1)
    }
}

/// The extension without a leading dot.
pub open spec fn bare_ext(ext: Seq<char>) -> Seq<char> {
    if ext.len() > 0 && ext[0] == '.' {
        ext.skip(1)
    } else {
        ext
    }
}

/// Resolution of a PNG (width and height at bytes 16..24, big-endian) or of a
/// JPEG (from its first start-of-frame marker), as `WxH`.
pub open spec fn image_resolution(b: Seq<u8>, ext: Seq<char>) -> Option<Seq<char>> {
    let e = bare_ext(ext);
    if e == "png"@ && b.len() >= 24 {
        if be32(b, 16) > 0 && be32(b, 20) > 0 {
            Some(dims_text(be32(b, 16), be32(b, 20)))
        } else {
            None
        }
    } else if e == "jpg"@ || e == "jpeg"@ {
        jpeg_scan(b, 2)
    } else {
        None
    }
}

/// Extract image resolution from PNG or JPEG header bytes. `ext` is the
/// lowercased extension with or without the leading dot.
pub fn extract_image_resolution(bytes: &[u8], ext: &str) -> (r: Option<String>)
    ensures
        match r {
            Some(s) => image_resolution(bytes@, ext@) == Some(s@),
            None => image_resolution(bytes@, ext@) is None,
        },
{
    let ec = to_chars(ext);
    let e = if ec.len() > 0 && ec[0] == '.' {
        slice_chars(ec.as_slice(), 1, ec.len())
    } else {
        slice_chars(ec.as_slice(), 0, ec.len())
    };
    assert(e@ == bare_ext(ext@)) by {
        assert(ec@.subrange(0, ec@.len() as int) == ec@);
    }
    let es = string_from_chars(e.as_slice());
    proof {
        reveal_strlit("png");
        reveal_strlit("jpg");
        reveal_strlit("jpeg");
    }
    if str_eq(es.as_str(), "png") && bytes.len() >= 24 {
        let w = read_be32(bytes, 16);
        let h = read_be32(bytes, 20);
        if w > 0 && h > 0 {
            let mut s = String::new();
            push_u64(&mut s, w);
            push_str(&mut s, "x");
            push_u64(&mut s, h);
            return Some(s);
        }
        return None;
    } else if str_eq(es.as_str(), "jpg") || str_eq(es.as_str(), "jpeg") {
        assert(image_resolution(bytes@, ext@) == jpeg_scan(bytes@, 2));
        let mut i: usize = 2;
        while bytes.len() >= 9 && i < bytes.len() - 9
            invariant
                2 <= i,
                image_resolution(bytes@, ext@) == jpeg_scan(bytes@, 2),
                jpeg_scan(bytes@, 2) == jpeg_scan(bytes@, i as int),
            decreases bytes@.len() - i,
        {
            if bytes[i] == 0xFF && bytes[i + 1] >= 0xC0 && bytes[i + 1] <= 0xCF && bytes[i + 1] != 0xC4
                && bytes[i + 1] != 0xC8 && bytes[i + 1] != 0xCC {
                let h: u64 = (bytes[i + 5] as u64) * 256 + (bytes[i + 6] as u64);
                let w: u64 = (bytes[i + 7] as u64) * 256 + (bytes[i + 8] as u64);
                if w > 0 && h > 0 {
                    let mut s = String::new();
                    push_u64(&mut s, w);
                    push_str(&mut s, "x");
                    push_u64(&mut s, h);
                    return Some(s);
                }
            }
            i = i + 1;
        }
        return None;
    }
    None
}

/// Number of ZIP local file headers (`PK\x03\x04`) found scanning from `i`:
/// a match skips its four bytes, anything else one byte; only positions
/// below `len - 4` are looked at.
pub open spec fn zip_count_from(b: Seq<u8>, i: int) -> nat
    decreases b.len() - i,
{
    if i < 0 || i + 4 >= b.len() {
        0
    } else if b[i] == 0x50 && b[i + 1] == 0x4B && b[i + 2] == 0x03 && b[i + 3] == 0x04 {
        1 + zip_count_from(b, i + 4)
    } else {
        zip_count_from(b, i + 1)
    }
}

/// Count ZIP file entries by scanning local file headers
pub fn count_zip_entries(bytes: &[u8]) -> (r: Option<usize>)
    ensures
        r == (if zip_count_from(bytes@, 0) > 0 { Some(zip_count_from(bytes@, 0) as usize) } else { None::<usize> }),
{
    let mut count: usize = 0;
    let mut i: usize = 0;
    while bytes.len() >= 4 && i < bytes.len() - 4
        invariant
            count + zip_count_from(bytes@, i as int) == zip_count_from(bytes@, 0),
            count <= i,
            i <= bytes@.len(),
        decreases bytes@.len() - i,
    {
        if bytes[i] == 0x50 && bytes[i + 1] == 0x4B && bytes[i + 2] == 0x03 && bytes[i + 3] == 0x04 {
            count = count + 1;
            i = i + 4;
        } else {
            i = i + 1;
        }
    }
    if count > 0 {
        Some(count)
    } else {
        None
    }
}

/// What scanning an MP4 header for its duration gives.
pub enum Mp4Scan {
    Duration(String),
    NoDuration,
    /// The movie header reaches beyond the bytes read.
    Truncated,
}

pub enum Mp4Found {
    Found(Seq<char>),
    Missing,
    Cut,
}

/// Two decimal digits, zero-padded (`{:02}`).
pub open spec fn pad2(n: nat) -> Seq<char> {
    if n < 10 {
        "0"@ + dec_digits(n)
    } else {
        dec_digits(n)
    }
}

/// `H:MM:SS` from an hour on, `M:SS` from a minute on, else `Ns`.
pub open spec fn duration_clock(seconds: nat) -> Seq<char> {
    let mins = seconds / 60;
    let secs = seconds % 60;
    if mins >= 60 {
        dec_digits(mins / 60) + ":"@ + pad2(mins % 60) + ":"@ + pad2(secs)
    } else if mins > 0 {
        dec_digits(mins) + ":"@ + pad2(secs)
    } else {
        dec_digits(seconds) + "s"@
    }
}

pub open spec fn is_moov(b: Seq<u8>, i: int) -> bool {
    b[i + 4] == 0x6D && b[i + 5] == 0x6F && b[i + 6] == 0x6F && b[i + 7] == 0x76
}

pub open spec fn is_mvhd(b: Seq<u8>, j: int) -> bool {
    b[j + 4] == 0x6D && b[j + 5] == 0x76 && b[j + 6] == 0x68 && b[j + 7] == 0x64
}

/// Scans the atoms inside a `moov` (from `j`, up to `moov_end`) for `mvhd`:
/// version 0 keeps timescale and duration as 32-bit values at 20 and 24,
/// later versions at 28 (32-bit) and 32 (64-bit).
pub open spec fn mp4_inner(b: Seq<u8>, j: nat, moov_end: nat, size: nat) -> Mp4Found
    decreases (if j <= b.len() { b.len() - j } else { 0 }),
{
    if !(j + 8 < moov_end && j + 8 < b.len()) {
        Mp4Found::Missing
    } else {
        let atom = be32(b, j as int);
        if atom < 8 || atom > size {
            Mp4Found::Missing
        } else {
            let here = if is_mvhd(b, j as int) {
                if b[j + 8int] == 0 {
                    if j + 28 > b.len() {
                        Some(Mp4Found::Cut)
                    } else {
                        let ts = be32(b, j + 20int);
                        let dur = be32(b, j + 24int);
                        if ts > 0 && dur > 0 { Some(Mp4Found::Found(duration_clock(dur / ts))) } else { None }
                    }
                } else {
                    if j + 40 > b.len() {
                        Some(Mp4Found::Cut)
                    } else {
                        let ts = be32(b, j + 28int);
                        let dur = be64(b, j + 32int);
                        if ts > 0 && dur > 0 { Some(Mp4Found::Found(duration_clock(dur / ts))) } else { None }
                    }
                }
            } else {
                None
            };
            match here {
                Some(r) => r,
                None => mp4_inner(b, j + atom, moov_end, size),
            }
        }
    }
}

/// Scans the top-level atoms from `i` for a `moov` holding a `mvhd` with a
/// duration; an atom size below 8 ends the scan.
pub open spec fn mp4_outer(b: Seq<u8>, i: nat) -> Mp4Found
    decreases (if i <= b.len() { b.len() - i } else { 0 }),
{
    if !(i + 8 < b.len()) {
        Mp4Found::Missing
    } else {
        let size = be32(b, i as int);
        if size < 8 {
            Mp4Found::Missing
        } else {
            let inner = if is_moov(b, i as int) { mp4_inner(b, i + 8, i + size, size) } else { Mp4Found::Missing };
            match inner {
                Mp4Found::Missing => mp4_outer(b, i + size),
                other => other,
            }
        }
    }
}

fn pad2_push(s: &mut String, n: u64)
    requires
        n < 100,
    ensures
        final(s)@ == old(s)@ + pad2(n as nat),
{
    if n < 10 {
        push_str(s, "0");
    }
    push_u64(s, n);
}

fn clock_text(seconds: u64) -> (r: String)
    ensures
        r@ == duration_clock(seconds as nat),
{
    let mins = seconds / 60;
    let secs = seconds % 60;
    let mut s = String::new();
    if mins >= 60 {
        push_u64(&mut s, mins / 60);
        push_str(&mut s, ":");
        pad2_push(&mut s, mins % 60);
        push_str(&mut s, ":");
        pad2_push(&mut s, secs);
    } else if mins > 0 {
        push_u64(&mut s, mins);
        push_str(&mut s, ":");
        pad2_push(&mut s, secs);
    } else {
        push_u64(&mut s, seconds);
        push_str(&mut s, "s");
    }
    s
}

/// Scans an MP4 header for the movie duration.
pub fn scan_mp4_duration(buf: &[u8]) -> (r: Mp4Scan)
    ensures
        match r {
            Mp4Scan::Duration(s) => mp4_outer(buf@, 0) == Mp4Found::Found(s@),
            Mp4Scan::NoDuration => mp4_outer(buf@, 0) == Mp4Found::Missing,
            Mp4Scan::Truncated => mp4_outer(buf@, 0) == Mp4Found::Cut,
        },
{
    let len: u128 = buf.len() as u128;
    let mut i: u128 = 0;
    while i + 8 < len
        invariant
            len == buf@.len(),
            len <= usize::MAX,
            mp4_outer(buf@, i as nat) == mp4_outer(buf@, 0),
            i <= len + 0x1_0000_0000,
        decreases (if i <= len { len - i } else { 0 }),
    {
        let iu = i as usize;
        let size = read_be32(buf, iu);
        if size < 8 {
            return Mp4Scan::NoDuration;
        }
        if buf[iu + 4] == 0x6D && buf[iu + 5] == 0x6F && buf[iu + 6] == 0x6F && buf[iu + 7] == 0x76 {
            let moov_end = i + size as u128;
            let mut j = i + 8;
            assert(mp4_inner(buf@, j as nat, moov_end as nat, size as nat) == mp4_inner(buf@, (i + 8) as nat, (i + size) as nat, size as nat));
            loop
                invariant
                    len == buf@.len(),
                    len <= usize::MAX,
                    i + 8 < len,
                    mp4_outer(buf@, i as nat) == mp4_outer(buf@, 0),
                    is_moov(buf@, i as int),
                    be32(buf@, i as int) == size,
                    moov_end == i + size,
                    8 <= size <= u32::MAX,
                    j <= len + 0x1_0000_0000,
                    mp4_inner(buf@, j as nat, moov_end as nat, size as nat) == mp4_inner(buf@, (i + 8) as nat, moov_end as nat, size as nat),
                ensures
                    mp4_inner(buf@, (i + 8) as nat, moov_end as nat, size as nat) == Mp4Found::Missing,
                decreases (if j <= len { len - j } else { 0 }),
            {
                if !(j + 8 < moov_end && j + 8 < len) {
                    break;
                }
                let ju = j as usize;
                let atom = read_be32(buf, ju);
                if atom < 8 || atom > size {
                    break;
                }
                if buf[ju + 4] == 0x6D && buf[ju + 5] == 0x76 && buf[ju + 6] == 0x68 && buf[ju + 7] == 0x64 {
                    let version = buf[ju + 8];
                    let (ts, dur) = if version == 0 {
                        if j + 28 > len {
                            return Mp4Scan::Truncated;
                        }
                        (read_be32(buf, ju + 20), read_be32(buf, ju + 24))
                    } else {
                        if j + 40 > len {
                            return Mp4Scan::Truncated;
                        }
                        (read_be32(buf, ju + 28), read_be64(buf, ju + 32))
                    };
                    if ts > 0 && dur > 0 {
                        return Mp4Scan::Duration(clock_text(dur / ts));
                    }
                }
                j = j + atom as u128;
            }
        }
        i = i + size as u128;
    }
    Mp4Scan::NoDuration
}

/// The movie header of an MP4 buffer reaches beyond the bytes read (the one
/// input `parse_mp4_duration` is not defined for).
pub fn mp4_header_is_cut(buf: &[u8]) -> (r: bool)
    ensures
        r == (mp4_outer(buf@, 0) == Mp4Found::Cut),
{
    match scan_mp4_duration(buf) {
        Mp4Scan::Truncated => true,
        _ => false,
    }
}

/// Parse MP4 buffer for moov > mvhd and extract duration. Defined for headers
/// whose movie header lies wholly inside the bytes read.
pub fn parse_mp4_duration(buf: &[u8]) -> (r: Option<String>)
    requires
        mp4_outer(buf@, 0) != Mp4Found::Cut,
    ensures
        match r {
            Some(s) => mp4_outer(buf@, 0) == Mp4Found::Found(s@),
            None => mp4_outer(buf@, 0) == Mp4Found::Missing,
        },
{
    match scan_mp4_duration(buf) {
        Mp4Scan::Duration(s) => Some(s),
        Mp4Scan::NoDuration => None,
        Mp4Scan::Truncated => None,
    }
}

/// The SQLite file signature: the first 16 bytes read as UTF-8 start with
/// `SQLite format 3`.
pub open spec fn sqlite_header(b: Seq<u8>) -> bool {
    b.len() >= 16 && b.take(15) == "SQLite format 3"@.map_values(|c: char| c as u8) && b[15] < 0x80
}

pub fn is_sqlite_header(bytes: &[u8]) -> (r: bool)
    ensures
        r == sqlite_header(bytes@),
{
    if bytes.len() < 16 {
        return false;
    }
    let sig: [u8; 15] = [0x53, 0x51, 0x4c, 0x69, 0x74, 0x65, 0x20, 0x66, 0x6f, 0x72, 0x6d, 0x61, 0x74, 0x20, 0x33];
    proof {
        reveal_strlit("SQLite format 3");
        assert(sig@ =~= "SQLite format 3"@.map_values(|c: char| c as u8));
    }
    let mut i: usize = 0;
    while i < 15
        invariant
            i <= 15,
            bytes@.len() >= 16,
            sig@ == "SQLite format 3"@.map_values(|c: char| c as u8),
            forall|k: int| 0 <= k < i ==> bytes@[k] == sig@[k],
        decreases 15 - i,
    {
        if bytes[i] != sig[i] {
            assert(bytes@.take(15)[i as int] != sig@[i as int]);
            return false;
        }
        i = i + 1;
    }
    assert(bytes@.take(15) =~= sig@);
    bytes[15] < 0x80
}

/// The table count `sqlite3` printed (trimmed), if it is a number.
pub fn sqlite_table_count(out: &str) -> (r: Option<usize>)
    ensures
        match r {
            Some(n) => parse_usize_text(trim_text(out@)) == Some(n as nat),
            None => parse_usize_text(trim_text(out@)) is None,
        },
{
    let t = trim(out);
    let tc = to_chars(t.as_str());
    parse_usize(tc.as_slice())
}

/// `Path::extension` of a file name: the part after its last dot, except
/// for a name whose only dot leads it (or `..`).
pub open spec fn name_extension(name: Seq<char>) -> Option<Seq<char>> {
    if name == ".."@ {
        None
    } else {
        match last_index_of(name, '.') {
            Some(p) => if p == 0 { None } else { Some(name.skip(p + 1)) },
            None => None,
        }
    }
}

pub fn extension_of_name(name: &str) -> (r: Option<String>)
    ensures
        match r {
            Some(e) => name_extension(name@) == Some(e@),
            None => name_extension(name@) is None,
        },
{
    if str_eq(name, "..") {
        return None;
    }
    let cs = to_chars(name);
    match rfind_char(cs.as_slice(), '.') {
        Some(p) => {
            if p == 0 {
                None
            } else {
                let n = cs.len();
                let t = slice_chars(cs.as_slice(), p + 1, n);
                assert(t@ == name@.skip(p + 1));
                Some(string_from_chars(t.as_slice()))
            }
        },
        None => None,
    }
}

/// Which content probe a file gets, by its extension.
#[derive(Debug, Clone, Copy, PartialEq, Eq, Structural)]
pub enum ProbeKind {
    Image,
    Zip,
    Sqlite,
    Video,
    Text,
}

pub open spec fn probe_kind_of(ext: Seq<char>) -> ProbeKind {
    if ext == "png"@ || ext == "jpg"@ || ext == "jpeg"@ {
        ProbeKind::Image
    } else if ext == "zip"@ {
        ProbeKind::Zip
    } else if ext == "db"@ || ext == "sqlite"@ || ext == "sqlite3"@ {
        ProbeKind::Sqlite
    } else if ext == "mp4"@ || ext == "mov"@ || ext == "m4v"@ || ext == "webm"@ || ext == "mkv"@ {
        ProbeKind::Video
    } else {
        ProbeKind::Text
    }
}

/// The probe for a file name (no extension: text).
pub fn probe_kind(name: &str) -> (r: ProbeKind)
    ensures
        r == probe_kind_of(match name_extension(name@) {
            Some(e) => e,
            None => Seq::empty(),
        }),
{
    let e = match extension_of_name(name) {
        Some(e) => e,
        None => String::new(),
    };
    let t = e.as_str();
    proof {
        reveal_strlit("png");
    }
    if str_eq(t, "png") || str_eq(t, "jpg") || str_eq(t, "jpeg") {
        ProbeKind::Image
    } else if str_eq(t, "zip") {
        ProbeKind::Zip
    } else if str_eq(t, "db") || str_eq(t, "sqlite") || str_eq(t, "sqlite3") {
        ProbeKind::Sqlite
    } else if str_eq(t, "mp4") || str_eq(t, "mov") || str_eq(t, "m4v") || str_eq(t, "webm") || str_eq(t, "mkv") {
        ProbeKind::Video
    } else {
        ProbeKind::Text
    }
}

/// The contents column of a SQLite database: `<n>t`.
pub fn sqlite_contents(count: Option<usize>) -> (r: String)
    ensures
        r@ == match count {
            Some(n) => dec_digits(n as nat) + "t"@,
            None => Seq::empty(),
        },
{
    match count {
        Some(n) => {
            let mut s = String::new();
            push_u64(&mut s, n as u64);
            push_str(&mut s, "t");
            s
        },
        None => String::new(),
    }
}

} // verus!
