//! Asset data: PNG images, with a grey copy below the image for the
//! pictures that the map draws in one color, and gzip-compressed data, also
//! as the browser keeps save files: base64 text of the compressed bytes.
use vstd::prelude::*;

use crate::achivement_save::{base64_decode, base64_decoded, base64_encode, spec_base64};

verus! {

/// An image as rows of RGBA pixels, four bytes each, from the top row down.
pub struct RgbaImageData {
    pub width: u32,
    pub height: u32,
    pub pixels: Vec<u8>,
}

impl RgbaImageData {
    /// The pixels fill the image exactly.
    pub open spec fn wf(&self) -> bool {
        self.pixels.len() == 4 * self.width * self.height
    }
}

/// What `image` decodes from PNG bytes as RGBA: the width, the height and the
/// pixels; none when it refuses the bytes.
pub uninterp spec fn png_rgba_decoded(bytes: Seq<u8>) -> Option<(u32, u32, Seq<u8>)>;

/// `image::load_from_memory_with_format` with the PNG format, then
/// `into_rgba8`: the RGBA image of the bytes, whose buffer holds four bytes
/// per pixel.
#[verifier::external_body]
fn png_to_rgba(bytes: &[u8]) -> (r: Option<RgbaImageData>)
    ensures
        match r {
            Some(img) => png_rgba_decoded(bytes@) == Some((img.width, img.height, img.pixels@)) && img.wf(),
            None => png_rgba_decoded(bytes@) is None,
        },
{
    match image::load_from_memory_with_format(bytes, image::ImageFormat::Png) {
        Ok(img) => {
            let img = img.into_rgba8();
            Some(RgbaImageData { width: img.width(), height: img.height(), pixels: img.into_raw() })
        },
        Err(_) => None,
    }
}

/// Grey of a pixel: the mean of its red, green and blue, rounded down.
pub open spec fn spec_grey(r: u8, g: u8, b: u8) -> u8 {
    ((r as int + g as int + b as int) / 3) as u8
}

/// The pixels of the image with a grey copy of it below: each grey pixel
/// keeps the alpha of its pixel.
pub open spec fn spec_with_grey_copy(pixels: Seq<u8>) -> Seq<u8> {
    pixels + Seq::new(
        pixels.len(),
        |k: int|
            {
                let p = k - k % 4;
                if k % 4 == 3 {
                    pixels[k]
                } else {
                    spec_grey(pixels[p], pixels[p + 1], pixels[p + 2])
                }
            },
    )
}

/// The image with a grey copy of it below, twice as high.
pub fn with_grey_copy(img: &RgbaImageData) -> (r: RgbaImageData)
    requires
        img.wf(),
        img.height * 2 <= u32::MAX,
        8 * img.width * img.height <= usize::MAX,
    ensures
        r.width == img.width,
        r.height == img.height * 2,
        r.pixels@ == spec_with_grey_copy(img.pixels@),
        r.wf(),
{
    let n = img.pixels.len();
    let mut pixels: Vec<u8> = Vec::new();
    let mut i: usize = 0;
    while i < n
        invariant
            0 <= i <= n,
            n == img.pixels.len(),
            pixels@ == img.pixels@.take(i as int),
        decreases n - i,
    {
        pixels.push(img.pixels[i]);
        i += 1;
        assert(pixels@ =~= img.pixels@.take(i as int));
    }
    assert(img.pixels@.take(n as int) =~= img.pixels@);
    proof {
        let wh = img.width * img.height;
        assert(4 * img.width * img.height == wh * 4) by (nonlinear_arith)
            requires
                wh == img.width * img.height,
        ;
        vstd::arithmetic::div_mod::lemma_mod_multiples_basic(wh as int, 4);
    }
    let mut j: usize = 0;
    while j < n
        invariant
            0 <= j <= n,
            n == img.pixels.len(),
            img.wf(),
            n % 4 == 0,
            j % 4 == 0,
            pixels@.len() == n + j,
            forall|k: int| 0 <= k < n ==> #[trigger] pixels@[k] == img.pixels@[k],
            forall|k: int| 0 <= k < j ==> #[trigger] pixels@[n + k] == spec_with_grey_copy(img.pixels@)[n + k],
        decreases n - j,
    {
        let r = img.pixels[j];
        let g = img.pixels[j + 1];
        let b = img.pixels[j + 2];
        let v = ((r as u32 + g as u32 + b as u32) / 3) as u8;
        pixels.push(v);
        pixels.push(v);
        pixels.push(v);
        pixels.push(img.pixels[j + 3]);
        proof {
            let s = spec_with_grey_copy(img.pixels@);
            assert(s[n + j] == v && s[n + j + 1] == v && s[n + j + 2] == v && s[n + j + 3] == img.pixels@[j + 3]) by {
                assert((j as int) % 4 == 0);
                assert(((j + 1) as int) % 4 == 1);
                assert(((j + 2) as int) % 4 == 2);
                assert(((j + 3) as int) % 4 == 3);
            }
        }
        j += 4;
    }
    proof {
        let s = spec_with_grey_copy(img.pixels@);
        assert(j == n);
        assert forall|k: int| 0 <= k < pixels@.len() implies #[trigger] pixels@[k] == s[k] by {
            if k >= n {
                assert(pixels@[n + (k - n)] == s[n + (k - n)]);
            }
        }
        assert(pixels@ =~= s);
    }
    proof {
        assert(4 * img.width * (img.height * 2) == 2 * (4 * img.width * img.height)) by (nonlinear_arith);
    }
    RgbaImageData { width: img.width, height: img.height * 2, pixels }
}

/// The folders whose pictures the map draws in one color.
pub open spec fn spec_monochrome_dir(dir: Seq<char>) -> bool {
    dir == "animals"@ || dir == "biomes"@ || dir == "structures"@ || dir == "tile_animations"@
}

/// The first component of an asset path: the text before the first `/`.
pub open spec fn spec_first_component(path: Seq<char>) -> Seq<char> {
    match path.index_of_first('/') {
        Some(i) => path.take(i),
        None => path,
    }
}

/// The first component of an asset path.
fn first_component(path: &str) -> (r: &str)
    ensures
        r@ == spec_first_component(path@),
{
    let n = path.unicode_len();
    let mut i: usize = 0;
    while i < n
        invariant
            0 <= i <= n,
            n == path@.len(),
            forall|j: int| 0 <= j < i ==> path@[j] != '/',
        decreases n - i,
    {
        if path.get_char(i) == '/' {
            proof {
                path@.index_of_first_ensures('/');
                let k = path@.index_of_first('/').unwrap();
                if k < i {
                    assert(path@[k] != '/');
                }
                if k > i {
                    assert(path@[i as int] == '/');
                }
            }
            let r = path.substring_char(0, i);
            assert(r@ =~= path@.take(i as int));
            return r;
        }
        i += 1;
    }
    proof {
        path@.index_of_first_ensures('/');
        if path@.index_of_first('/') is Some {
            let k = path@.index_of_first('/').unwrap();
            assert(path@[k] == '/');
        }
    }
    path
}

pub(crate) fn same_text(a: &str, b: &str) -> (r: bool)
    ensures
        r == (a@ == b@),
{
    let n = a.unicode_len();
    if n != b.unicode_len() {
        return false;
    }
    let mut i: usize = 0;
    while i < n
        invariant
            0 <= i <= n,
            n == a@.len(),
            n == b@.len(),
            forall|j: int| 0 <= j < i ==> a@[j] == b@[j],
        decreases n - i,
    {
        if a.get_char(i) != b.get_char(i) {
            return false;
        }
        i += 1;
    }
    assert(a@ =~= b@);
    true
}

/// Whether the map draws the picture at the asset path in one color: its
/// path starts with one of the folders of such pictures.
pub fn is_monochrome_path(path: &str) -> (r: bool)
    ensures
        r == spec_monochrome_dir(spec_first_component(path@)),
{
    proof {
        reveal_strlit("animals");
        reveal_strlit("biomes");
        reveal_strlit("structures");
        reveal_strlit("tile_animations");
    }
    let dir = first_component(path);
    same_text(dir, "animals") || same_text(dir, "biomes") || same_text(dir, "structures") || same_text(
        dir,
        "tile_animations",
    )
}

/// An image asset: the decoded PNG, with a grey copy below it for pictures
/// that the map draws in one color; none when the bytes are no PNG image or
/// the doubled image would not fit in memory.
pub fn load_image(path: &str, bytes: &[u8]) -> (r: Option<RgbaImageData>)
    ensures
        match png_rgba_decoded(bytes@) {
            None => r is None,
            Some((w, h, pixels)) => if !spec_monochrome_dir(spec_first_component(path@)) {
                r matches Some(img) && img.width == w && img.height == h && img.pixels@ == pixels
            } else if h * 2 <= u32::MAX && 8 * w * h <= usize::MAX {
                r matches Some(img) && img.width == w && img.height == h * 2 && img.pixels@
                    == spec_with_grey_copy(pixels)
            } else {
                r is None
            },
        },
{
    let img = match png_to_rgba(bytes) {
        Some(img) => img,
        None => return None,
    };
    if !is_monochrome_path(path) {
        return Some(img);
    }
    if img.height > u32::MAX / 2 {
        return None;
    }
    assert((img.width as u64) * (img.height as u64) <= u64::MAX) by (nonlinear_arith)
        requires
            img.width <= u32::MAX,
            img.height <= u32::MAX,
    ;
    let pixels = (img.width as u64) * (img.height as u64);
    if pixels > (usize::MAX / 8) as u64 {
        assert(8 * img.width * img.height > usize::MAX) by (nonlinear_arith)
            requires
                img.width * img.height > usize::MAX / 8,
        ;
        return None;
    }
    assert(8 * img.width * img.height <= usize::MAX) by (nonlinear_arith)
        requires
            img.width * img.height <= usize::MAX / 8,
    ;
    Some(with_grey_copy(&img))
}

/// The bytes that gzip at the best compression makes of the data, with no
/// file name, time or comment in its header.
pub uninterp spec fn gzip_best(data: Seq<u8>) -> Seq<u8>;

/// The data that a gzip stream holds, if it is one.
pub uninterp spec fn gunzipped(bytes: Seq<u8>) -> Option<Seq<u8>>;

/// `flate2::write::GzEncoder` at `Compression::best()` over a vector: the
/// compressed bytes. Writing to a vector does not fail.
#[verifier::external_body]
fn gzip_compress(data: &[u8]) -> (r: Vec<u8>)
    ensures
        r@ == gzip_best(data@),
{
    let mut encoder = flate2::write::GzEncoder::new(Vec::new(), flate2::Compression::best());
    match std::io::Write::write_all(&mut encoder, data) {
        Ok(()) => {},
        Err(_) => return Vec::new(),
    }
    match encoder.finish() {
        Ok(bytes) => bytes,
        Err(_) => Vec::new(),
    }
}

/// `flate2::read::GzDecoder` read to the end: the data of the stream, none
/// when it is no gzip stream; the compression of some data gives that data
/// back.
#[verifier::external_body]
fn gzip_decompress(bytes: &[u8]) -> (r: Option<Vec<u8>>)
    ensures
        match r {
            Some(d) => gunzipped(bytes@) == Some(d@),
            None => gunzipped(bytes@) is None,
        },
        r is None ==> forall|d: Seq<u8>| #[trigger] gzip_best(d) != bytes@,
        r matches Some(v) ==> forall|d: Seq<u8>| #[trigger] gzip_best(d) == bytes@ ==> v@ == d,
{
    let mut decoder = flate2::read::GzDecoder::new(bytes);
    let mut data = Vec::new();
    match std::io::Read::read_to_end(&mut decoder, &mut data) {
        Ok(_) => Some(data),
        Err(_) => None,
    }
}

/// A gzip-compressed asset: the data it holds; none when it is no gzip stream.
pub fn gunzip_asset(bytes: &[u8]) -> (r: Option<Vec<u8>>)
    ensures
        match r {
            Some(d) => gunzipped(bytes@) == Some(d@),
            None => gunzipped(bytes@) is None,
        },
{
    gzip_decompress(bytes)
}

/// The text under which the browser keeps a save file: the base64 text of
/// the data compressed by gzip; none when the compressed data is too long for
/// its base64 text to be held in memory.
pub fn encode_for_storage(data: &[u8]) -> (r: Option<String>)
    ensures
        gzip_best(data@).len() <= usize::MAX / 2 ==> (r matches Some(s) && s@ == spec_base64(gzip_best(data@))),
        gzip_best(data@).len() > usize::MAX / 2 ==> r is None,
{
    let compressed = gzip_compress(data);
    if compressed.len() > usize::MAX / 2 {
        return None;
    }
    Some(base64_encode(&compressed))
}

/// A save file from the text the browser keeps: none when the text is no
/// base64 or its bytes are no gzip stream. The text of some data gives that
/// data back.
pub fn decode_from_storage(text: &str) -> (r: Option<Vec<u8>>)
    ensures
        match base64_decoded(text@) {
            None => r is None,
            Some(bytes) => match gunzipped(bytes) {
                None => r is None,
                Some(d) => r matches Some(v) && v@ == d,
            },
        },
        forall|d: Seq<u8>| #[trigger] spec_base64(gzip_best(d)) == text@ ==> (r matches Some(v) && v@ == d),
{
    let bytes = match base64_decode(text) {
        Some(b) => b,
        None => return None,
    };
    gzip_decompress(bytes.as_slice())
}

/// Side of a map tile in pixels, in the biome textures.
pub const TILE_SIZE_PX: u32 = 48;

/// Side of a quarter of a tile in pixels.
pub const PIECE_SIZE_PX: u32 = 24;

/// A rectangle of a texture: its corners (`min_x`, `min_y`) and
/// (`max_x`, `max_y`), in pixels.
#[derive(Clone, Copy, PartialEq, Eq, Structural, Debug)]
pub struct PixelRect {
    pub min_x: u32,
    pub min_y: u32,
    pub max_x: u32,
    pub max_y: u32,
}

/// The rectangle of a quarter piece of the biome texture: the texture holds
/// three by four tiles with a one-pixel border, each cut into four pieces, so
/// the piece (`i`, `j`) lies in tile (`i / 2`, `j / 2`).
pub open spec fn spec_biome_piece_rect(i: u32, j: u32) -> PixelRect {
    let x = (TILE_SIZE_PX + 2) * (i / 2) + 1 + PIECE_SIZE_PX * (i % 2);
    let y = (TILE_SIZE_PX + 2) * (j / 2) + 1 + PIECE_SIZE_PX * (j % 2);
    PixelRect { min_x: x as u32, min_y: y as u32, max_x: (x + PIECE_SIZE_PX) as u32, max_y: (y + PIECE_SIZE_PX) as u32 }
}

/// The rectangle of a quarter piece of the biome texture.
pub fn biome_piece_rect(i: u32, j: u32) -> (r: PixelRect)
    requires
        i < 6,
        j < 8,
    ensures
        r == spec_biome_piece_rect(i, j),
{
    let x = (TILE_SIZE_PX + 2) * (i / 2) + 1 + PIECE_SIZE_PX * (i % 2);
    let y = (TILE_SIZE_PX + 2) * (j / 2) + 1 + PIECE_SIZE_PX * (j % 2);
    PixelRect { min_x: x, min_y: y, max_x: x + PIECE_SIZE_PX, max_y: y + PIECE_SIZE_PX }
}

/// The pieces of the biome texture in the order of the texture atlas: row by
/// row, six pieces a row, eight rows.
pub fn biome_atlas_rects() -> (r: Vec<PixelRect>)
    ensures
        r.len() == 48,
        forall|k: int| 0 <= k < 48 ==> #[trigger] r@[k] == spec_biome_piece_rect((k % 6) as u32, (k / 6) as u32),
{
    let mut rects: Vec<PixelRect> = Vec::new();
    let mut j: u32 = 0;
    while j < 8
        invariant
            j <= 8,
            rects.len() == 6 * j,
            forall|k: int| 0 <= k < rects.len() ==> #[trigger] rects@[k] == spec_biome_piece_rect((k % 6) as u32, (k / 6) as u32),
        decreases 8 - j,
    {
        let mut i: u32 = 0;
        while i < 6
            invariant
                i <= 6,
                j < 8,
                rects.len() == 6 * j + i,
                forall|k: int| 0 <= k < rects.len() ==> #[trigger] rects@[k] == spec_biome_piece_rect((k % 6) as u32, (k / 6) as u32),
            decreases 6 - i,
        {
            let ghost k = rects.len() as int;
            assert(k % 6 == i && k / 6 == j);
            rects.push(biome_piece_rect(i, j));
            i += 1;
        }
        j += 1;
    }
    rects
}

/// The animal id of an animal asset: its path after `animals/` up to the first
/// `.`; none for other paths, which the game does not load.
pub fn animal_id_of_asset_path(path: &str) -> (r: Option<String>)
    ensures
        match r {
            Some(id) => {
                &&& path@.len() >= 8
                &&& path@.take(8) == "animals/"@
                &&& path@.skip(8).index_of_first('.') matches Some(k)
                &&& id@ == path@.skip(8).take(k)
            },
            None => !(path@.len() >= 8 && path@.take(8) == "animals/"@ && path@.skip(8).index_of_first('.') is Some),
        },
{
    proof {
        reveal_strlit("animals/");
    }
    let n = path.unicode_len();
    if n < 8 {
        return None;
    }
    let head = path.substring_char(0, 8);
    if !same_text(head, "animals/") {
        assert(head@ =~= path@.take(8));
        return None;
    }
    assert(head@ =~= path@.take(8));
    let rest = path.substring_char(8, n);
    assert(rest@ =~= path@.skip(8));
    let m = rest.unicode_len();
    let mut i: usize = 0;
    while i < m
        invariant
            0 <= i <= m,
            m == rest@.len(),
            rest@ == path@.skip(8),
            path@.len() >= 8 && path@.take(8) == "animals/"@,
            forall|k: int| 0 <= k < i ==> rest@[k] != '.',
        decreases m - i,
    {
        if rest.get_char(i) == '.' {
            proof {
                rest@.index_of_first_ensures('.');
                let k = rest@.index_of_first('.').unwrap();
                if k < i {
                    assert(rest@[k] != '.');
                }
                if k > i {
                    assert(rest@[i as int] == '.');
                }
            }
            let id = rest.substring_char(0, i);
            assert(id@ =~= rest@.take(i as int));
            return Some(String::from_str(id));
        }
        i += 1;
    }
    proof {
        rest@.index_of_first_ensures('.');
        if rest@.index_of_first('.') is Some {
            let k = rest@.index_of_first('.').unwrap();
            assert(rest@[k] == '.');
        }
    }
    None
}

} // verus!
