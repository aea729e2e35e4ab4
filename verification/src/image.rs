//! Picture files: the kind of an image from its first bytes, and the file
//! name under which a downloaded picture is stored.

use vstd::prelude::*;
use crate::text::{chars_of, push_chars, push_str_chars, u64_to_padded_decimal, decimal, zero_padded, owned};

verus! {

/// The largest picture accepted, in bytes (10 MiB).
pub const MAX_IMAGE_BYTES: usize = 10485760;

/// The longest file-name stem taken from an English name, in characters.
pub const MAX_STEM_CHARS: usize = 50;

/// The extension, with its dot, of the image whose bytes are `d`: JPEG,
/// PNG, GIF, WebP and BMP are told apart by their signatures, and anything
/// else, or fewer than four bytes, counts as JPEG.
pub open spec fn image_ext(d: Seq<u8>) -> Seq<char> {
    if d.len() < 4 {
        ".jpg"@
    } else if d[0] == 0xFF && d[1] == 0xD8 && d[2] == 0xFF {
        ".jpg"@
    } else if d[0] == 0x89 && d[1] == 0x50 && d[2] == 0x4E && d[3] == 0x47 {
        ".png"@
    } else if d[0] == 0x47 && d[1] == 0x49 && d[2] == 0x46 && d[3] == 0x38 {
        ".gif"@
    } else if d.len() >= 12 && d.subrange(0, 4) == seq![0x52u8, 0x49u8, 0x46u8, 0x46u8]
        && d.subrange(8, 12) == seq![0x57u8, 0x45u8, 0x42u8, 0x50u8] {
        ".webp"@
    } else if d[0] == 0x42 && d[1] == 0x4D {
        ".bmp"@
    } else {
        ".jpg"@
    }
}

/// The extension, with its dot, that suits the image bytes `data`.
pub fn detect_image_ext(data: &[u8]) -> (ext: &'static str)
    ensures
        ext@ == image_ext(data@),
{
    if data.len() < 4 {
        return ".jpg";
    }
    if data[0] == 0xFF && data[1] == 0xD8 && data[2] == 0xFF {
        return ".jpg";
    }
    if data[0] == 0x89 && data[1] == 0x50 && data[2] == 0x4E && data[3] == 0x47 {
        return ".png";
    }
    if data[0] == 0x47 && data[1] == 0x49 && data[2] == 0x46 && data[3] == 0x38 {
        return ".gif";
    }
    if data.len() >= 12 && data[0] == 0x52 && data[1] == 0x49 && data[2] == 0x46 && data[3] == 0x46
        && data[8] == 0x57 && data[9] == 0x45 && data[10] == 0x42 && data[11] == 0x50 {
        assert(data@.subrange(0, 4) =~= seq![0x52u8, 0x49u8, 0x46u8, 0x46u8]);
        assert(data@.subrange(8, 12) =~= seq![0x57u8, 0x45u8, 0x42u8, 0x50u8]);
        return ".webp";
    }
    proof {
        if data@.len() >= 12 && data@.subrange(0, 4) == seq![0x52u8, 0x49u8, 0x46u8, 0x46u8]
            && data@.subrange(8, 12) == seq![0x57u8, 0x45u8, 0x42u8, 0x50u8] {
            assert(data@[0] == data@.subrange(0, 4)[0]);
            assert(data@[1] == data@.subrange(0, 4)[1]);
            assert(data@[2] == data@.subrange(0, 4)[2]);
            assert(data@[3] == data@.subrange(0, 4)[3]);
            assert(data@[8] == data@.subrange(8, 12)[0]);
            assert(data@[9] == data@.subrange(8, 12)[1]);
            assert(data@[10] == data@.subrange(8, 12)[2]);
            assert(data@[11] == data@.subrange(8, 12)[3]);
        }
    }
    if data[0] == 0x42 && data[1] == 0x4D {
        return ".bmp";
    }
    ".jpg"
}

/// Law: whatever the bytes, the extension is one of the five known ones.
pub proof fn lemma_image_ext_is_known(d: Seq<u8>)
    ensures
        image_ext(d) == ".jpg"@ || image_ext(d) == ".png"@ || image_ext(d) == ".gif"@
            || image_ext(d) == ".webp"@ || image_ext(d) == ".bmp"@,
{
}

/// Law: each picture format is known by its signature: `FF D8 FF` is
/// JPEG, `89 'P' 'N' 'G'` PNG, `'G' 'I' 'F' '8'` GIF, `'R' 'I' 'F' 'F'`
/// with `'W' 'E' 'B' 'P'` at byte 8 WebP, and `'B' 'M'` BMP; too short a
/// file is taken for JPEG.
pub proof fn lemma_image_signatures(d: Seq<u8>)
    ensures
        d.len() < 4 ==> image_ext(d) == ".jpg"@,
        d.len() >= 4 && d[0] == 0xFF && d[1] == 0xD8 && d[2] == 0xFF ==> image_ext(d) == ".jpg"@,
        d.len() >= 4 && d[0] == 0x89 && d[1] == 0x50 && d[2] == 0x4E && d[3] == 0x47 ==> image_ext(d)
            == ".png"@,
        d.len() >= 4 && d[0] == 0x47 && d[1] == 0x49 && d[2] == 0x46 && d[3] == 0x38 ==> image_ext(d)
            == ".gif"@,
        d.len() >= 12 && d[0] == 0x52 && d[1] == 0x49 && d[2] == 0x46 && d[3] == 0x46 && d[8] == 0x57
            && d[9] == 0x45 && d[10] == 0x42 && d[11] == 0x50 ==> image_ext(d) == ".webp"@,
        d.len() >= 4 && d[0] == 0x42 && d[1] == 0x4D ==> image_ext(d) == ".bmp"@,
{
    if d.len() >= 12 && d[0] == 0x52 && d[1] == 0x49 && d[2] == 0x46 && d[3] == 0x46 && d[8] == 0x57
        && d[9] == 0x45 && d[10] == 0x42 && d[11] == 0x50 {
        assert(d.subrange(0, 4) =~= seq![0x52u8, 0x49u8, 0x46u8, 0x46u8]);
        assert(d.subrange(8, 12) =~= seq![0x57u8, 0x45u8, 0x42u8, 0x50u8]);
    }
}

/// Characters that a file name may not hold on common systems.
pub open spec fn is_forbidden_in_file_name(c: char) -> bool {
    c == '<' || c == '>' || c == ':' || c == '"' || c == '/' || c == '\\' || c == '|' || c == '?'
        || c == '*'
}

/// `c`, or `'_'` when it may not stand in a file name.
pub open spec fn file_name_char(c: char) -> char {
    if is_forbidden_in_file_name(c) {
        '_'
    } else {
        c
    }
}

/// The first 50 characters of `name`, each forbidden one replaced by `'_'`.
pub open spec fn safe_stem(name: Seq<char>) -> Seq<char> {
    let n = if name.len() < MAX_STEM_CHARS { name.len() } else { MAX_STEM_CHARS as nat };
    Seq::new(n, |i: int| file_name_char(name[i]))
}

/// The file-name stem made from an English name.
pub fn safe_file_stem(name: &str) -> (r: String)
    ensures
        r@ == safe_stem(name@),
{
    let v = chars_of(name);
    let n = if v.len() < MAX_STEM_CHARS { v.len() } else { MAX_STEM_CHARS };
    let mut out: Vec<char> = Vec::new();
    let mut i: usize = 0;
    while i < n
        invariant
            i <= n,
            n <= v@.len(),
            n == if v@.len() < MAX_STEM_CHARS { v@.len() } else { MAX_STEM_CHARS as nat },
            out@ == Seq::new(i as nat, |k: int| file_name_char(v@[k])),
        decreases n - i,
    {
        let c = v[i];
        let d = if c == '<' || c == '>' || c == ':' || c == '"' || c == '/' || c == '\\' || c
            == '|' || c == '?' || c == '*' {
            '_'
        } else {
            c
        };
        out.push(d);
        i = i + 1;
        assert(out@ =~= Seq::new(i as nat, |k: int| file_name_char(v@[k])));
    }
    let mut r = String::new();
    push_chars(&mut r, out.as_slice());
    assert(r@ =~= safe_stem(name@));
    r
}

/// Law: a stem holds no forbidden character and at most 50 characters.
pub proof fn lemma_safe_stem_is_safe(name: Seq<char>)
    ensures
        safe_stem(name).len() <= MAX_STEM_CHARS,
        forall|i: int|
            0 <= i < safe_stem(name).len() ==> !is_forbidden_in_file_name(
                #[trigger] safe_stem(name)[i],
            ),
        name.len() <= MAX_STEM_CHARS ==> safe_stem(name).len() == name.len(),
{
}

/// The file name, without extension, of the picture of the ending with id
/// `id`: the id in eight or more zero-padded digits, `'_'`, then the stem.
pub open spec fn image_base(id: u64, english_name: Seq<char>) -> Seq<char> {
    zero_padded(decimal(id as nat), 8) + seq!['_'] + safe_stem(english_name)
}

/// The file name, without extension, for the picture of a new ending.
pub fn image_base_name(id: u64, english_name: &str) -> (r: String)
    ensures
        r@ == image_base(id, english_name@),
{
    let mut r = u64_to_padded_decimal(id, 8);
    r.push('_');
    let stem = safe_file_stem(english_name);
    push_str_chars(&mut r, stem.as_str());
    r
}

/// Why a downloaded picture was refused.
pub enum ImageError {
    /// It is larger than 10 MiB.
    TooLarge,
}

impl ImageError {
    /// The text that reports this error.
    pub fn message(&self) -> (r: String)
        ensures
            r@ == "图片过大 (超过10MB)"@,
    {
        owned("图片过大 (超过10MB)")
    }
}

/// The file name under which the downloaded picture `data` is stored:
/// `base_name` followed by the extension its bytes call for. Refused when
/// the picture is larger than 10 MiB.
pub fn image_file_name(base_name: &str, data: &[u8]) -> (r: Result<String, ImageError>)
    ensures
        data@.len() > MAX_IMAGE_BYTES ==> r is Err,
        data@.len() <= MAX_IMAGE_BYTES ==> (r matches Ok(f) && f@ == base_name@ + image_ext(
            data@,
        )),
{
    if data.len() > MAX_IMAGE_BYTES {
        return Err(ImageError::TooLarge);
    }
    let ext = detect_image_ext(data);
    let mut f = owned(base_name);
    push_str_chars(&mut f, ext);
    Ok(f)
}

} // verus!
