//! Command-line decisions: which engine reads an input, which outputs earn
//! a warning, and the intensity option.
use vstd::prelude::*;

use crate::text::{chars_of, push_str};

verus! {

/// Whether `s` is exactly `lit`.
pub fn str_is(s: &str, lit: &str) -> (r: bool)
    ensures
        r == (s@ == lit@),
{
    let a = chars_of(s);
    let b = chars_of(lit);
    if a.len() != b.len() {
        return false;
    }
    let mut i: usize = 0;
    while i < a.len()
        invariant
            a@ == s@,
            b@ == lit@,
            a@.len() == b@.len(),
            i <= a@.len(),
            forall|q: int| 0 <= q < i ==> a@[q] == b@[q],
        decreases a@.len() - i,
    {
        if a[i] != b[i] {
            return false;
        }
        i += 1;
    }
    assert(a@ =~= b@);
    true
}

/// The (lower-case) extensions that the raster engine reads.
pub open spec fn is_raster_ext(ext: Seq<char>) -> bool {
    ||| ext == "jpg"@
    ||| ext == "jpeg"@
    ||| ext == "png"@
    ||| ext == "webp"@
    ||| ext == "bmp"@
    ||| ext == "tiff"@
    ||| ext == "tif"@
    ||| ext == "gif"@
}

/// The (lower-case) extension that the vector engine reads.
pub open spec fn is_vector_ext(ext: Seq<char>) -> bool {
    ext == "svg"@
}

/// The (lower-case) extensions that the video engine reads.
pub open spec fn is_video_ext(ext: Seq<char>) -> bool {
    ||| ext == "mp4"@
    ||| ext == "webm"@
    ||| ext == "mov"@
    ||| ext == "avi"@
    ||| ext == "mkv"@
}

/// The engine that handles a file.
#[derive(Debug, Clone, Copy, PartialEq, Eq, Structural)]
pub enum EngineKind {
    /// JPEG, PNG, WebP, BMP, TIFF, GIF.
    Raster,
    /// SVG.
    Vector,
    /// MP4, WebM, MOV, AVI, MKV.
    Video,
}

/// The engine for a (lower-case) extension, if any reads it.
pub open spec fn engine_kind(ext: Seq<char>) -> Option<EngineKind> {
    if is_raster_ext(ext) {
        Some(EngineKind::Raster)
    } else if is_vector_ext(ext) {
        Some(EngineKind::Vector)
    } else if is_video_ext(ext) {
        Some(EngineKind::Video)
    } else {
        None
    }
}

/// The refusal text for an input of another extension.
pub open spec fn unsupported_text(ext: Seq<char>) -> Seq<char> {
    "Unsupported file format: ."@ + ext
        + ". Supported: jpg, jpeg, png, webp, bmp, tiff, tif, gif, svg, mp4, webm, mov, avi, mkv"@
}

/// Picks the engine for an input file by its lower-case extension: the raster
/// formats, SVG and the video containers; any other extension is refused with
/// the list of supported ones.
pub fn engine_for_extension(ext: &str) -> (r: Result<EngineKind, String>)
    ensures
        match r {
            Ok(k) => engine_kind(ext@) == Some(k),
            Err(e) => engine_kind(ext@) is None && e@ == unsupported_text(ext@),
        },
{
    if str_is(ext, "jpg") || str_is(ext, "jpeg") || str_is(ext, "png") || str_is(ext, "webp")
        || str_is(ext, "bmp") || str_is(ext, "tiff") || str_is(ext, "tif") || str_is(ext, "gif") {
        Ok(EngineKind::Raster)
    } else if str_is(ext, "svg") {
        Ok(EngineKind::Vector)
    } else if str_is(ext, "mp4") || str_is(ext, "webm") || str_is(ext, "mov") || str_is(ext, "avi")
        || str_is(ext, "mkv") {
        Ok(EngineKind::Video)
    } else {
        let mut e = String::from_str("Unsupported file format: .");
        push_str(&mut e, ext);
        push_str(
            &mut e,
            ". Supported: jpg, jpeg, png, webp, bmp, tiff, tif, gif, svg, mp4, webm, mov, avi, mkv",
        );
        Err(e)
    }
}

/// The extensions that the refusal text names as supported, in its order.
pub open spec fn supported_extensions() -> Seq<Seq<char>> {
    seq![
        "jpg"@, "jpeg"@, "png"@, "webp"@, "bmp"@, "tiff"@, "tif"@, "gif"@, "svg"@, "mp4"@,
        "webm"@, "mov"@, "avi"@, "mkv"@,
    ]
}

/// `names` joined with ", ".
pub open spec fn comma_list(names: Seq<Seq<char>>) -> Seq<char>
    decreases names.len(),
{
    if names.len() == 0 {
        Seq::empty()
    } else if names.len() == 1 {
        names[0]
    } else {
        comma_list(names.drop_last()) + ", "@ + names.last()
    }
}

/// An extension is accepted exactly when the refusal text lists it as
/// supported, and the refusal text names every supported extension.
pub proof fn lemma_supported_extensions_accepted(ext: Seq<char>)
    ensures
        engine_kind(ext) is Some <==> supported_extensions().contains(ext),
        unsupported_text(ext) == "Unsupported file format: ."@ + ext + ". Supported: "@ + comma_list(
            supported_extensions(),
        ),
{
    let l = supported_extensions();
    if engine_kind(ext) is Some {
        if ext == "jpg"@ { assert(l[0] == ext); }
        else if ext == "jpeg"@ { assert(l[1] == ext); }
        else if ext == "png"@ { assert(l[2] == ext); }
        else if ext == "webp"@ { assert(l[3] == ext); }
        else if ext == "bmp"@ { assert(l[4] == ext); }
        else if ext == "tiff"@ { assert(l[5] == ext); }
        else if ext == "tif"@ { assert(l[6] == ext); }
        else if ext == "gif"@ { assert(l[7] == ext); }
        else if ext == "svg"@ { assert(l[8] == ext); }
        else if ext == "mp4"@ { assert(l[9] == ext); }
        else if ext == "webm"@ { assert(l[10] == ext); }
        else if ext == "mov"@ { assert(l[11] == ext); }
        else if ext == "avi"@ { assert(l[12] == ext); }
        else { assert(l[13] == ext); }
    }
    if l.contains(ext) {
        let k = choose|k: int| 0 <= k < l.len() && l[k] == ext;
        assert(0 <= k < 14);
        if k == 0 {} else if k == 1 {} else if k == 2 {} else if k == 3 {} else if k == 4 {}
        else if k == 5 {} else if k == 6 {} else if k == 7 {} else if k == 8 {} else if k == 9 {}
        else if k == 10 {} else if k == 11 {} else if k == 12 {} else {}
    }
    reveal_strlit(", ");
    reveal_strlit(". Supported: ");
    reveal_strlit(
        ". Supported: jpg, jpeg, png, webp, bmp, tiff, tif, gif, svg, mp4, webm, mov, avi, mkv",
    );
    reveal_strlit("jpg");
    reveal_strlit("jpeg");
    reveal_strlit("png");
    reveal_strlit("webp");
    reveal_strlit("bmp");
    reveal_strlit("tiff");
    reveal_strlit("tif");
    reveal_strlit("gif");
    reveal_strlit("svg");
    reveal_strlit("mp4");
    reveal_strlit("webm");
    reveal_strlit("mov");
    reveal_strlit("avi");
    reveal_strlit("mkv");
    reveal_with_fuel(comma_list, 15);
    assert(". Supported: jpg, jpeg, png, webp, bmp, tiff, tif, gif, svg, mp4, webm, mov, avi, mkv"@
        =~= ". Supported: "@ + comma_list(l));
}

/// The warning printed for an output of a lossy (lower-case) extension.
pub open spec fn lossy_warning_text(ext: Seq<char>) -> Option<Seq<char>> {
    if ext == "jpg"@ || ext == "jpeg"@ {
        Some("[警告] 输出格式为 JPEG (有损压缩)，水印可能被压缩降质。建议使用 PNG 格式。"@)
    } else if ext == "webp"@ {
        Some("[警告] 输出格式为 WebP，可能使用有损压缩，水印可能被降质。建议使用 PNG 格式。"@)
    } else if ext == "gif"@ {
        Some("[警告] 输出格式为 GIF (仅 256 色)，水印会严重降质。建议使用 PNG 格式。"@)
    } else {
        None
    }
}

/// The warning for a lossy output format, if the extension is one.
pub fn lossy_output_warning(ext: &str) -> (r: Option<String>)
    ensures
        match r {
            Some(w) => lossy_warning_text(ext@) == Some(w@),
            None => lossy_warning_text(ext@) is None,
        },
{
    if str_is(ext, "jpg") || str_is(ext, "jpeg") {
        Some(String::from_str("[警告] 输出格式为 JPEG (有损压缩)，水印可能被压缩降质。建议使用 PNG 格式。"))
    } else if str_is(ext, "webp") {
        Some(String::from_str("[警告] 输出格式为 WebP，可能使用有损压缩，水印可能被降质。建议使用 PNG 格式。"))
    } else if str_is(ext, "gif") {
        Some(String::from_str("[警告] 输出格式为 GIF (仅 256 色)，水印会严重降质。建议使用 PNG 格式。"))
    } else {
        None
    }
}

/// The intensity option: absent means automatic (0); a given value must lie
/// in 1..=10.
pub fn cli_intensity(option: Option<u8>) -> (r: Result<u8, String>)
    ensures
        option is None ==> r == Ok::<u8, String>(0),
        option matches Some(v) ==> (1 <= v <= 10 ==> r == Ok::<u8, String>(v)),
        option matches Some(v) ==> (!(1 <= v <= 10) ==> (r matches Err(e) && e@ == "[错误] 强度参数必须在 1-10 之间。"@)),
{
    match option {
        Some(v) => {
            if !(1 <= v && v <= 10) {
                Err(String::from_str("[错误] 强度参数必须在 1-10 之间。"))
            } else {
                Ok(v)
            }
        },
        None => Ok(0),
    }
}

} // verus!
