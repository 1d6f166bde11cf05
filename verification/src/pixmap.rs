//! Icons that arrive as raw pixels.

use vstd::prelude::*;

use crate::number::{decimal, push_decimal};

verus! {

/// A picture as a tray sends it: four bytes per pixel, alpha first, then red, green, blue.
#[derive(Debug)]
pub struct IconPixmap {
    pub width: i32,
    pub height: i32,
    pub pixels: Vec<u8>,
}

/// A picture ready to be saved: four bytes per pixel, red, green and blue, then alpha.
#[derive(Debug)]
pub struct RgbaIcon {
    pub width: u32,
    pub height: u32,
    pub rgba: Vec<u8>,
}

/// Why a pixmap is no picture.
#[derive(Debug, Clone, Copy, PartialEq, Eq, Structural)]
pub enum PixmapError {
    BadWidth,
    BadHeight,
    /// The pixel data holds fewer bytes than the dimensions ask for.
    TooShort { have: usize, expected: u64 },
    /// The dimensions are more than a picture can have.
    DimsMismatch,
}

impl PixmapError {
    /// The text of `message`.
    pub open spec fn message_text(self) -> Seq<char> {
        match self {
            PixmapError::BadWidth => "bad icon width"@,
            PixmapError::BadHeight => "bad icon height"@,
            PixmapError::TooShort { have, expected } => "icon pixmap too short: "@ + decimal(
                have as nat,
            ) + " < "@ + decimal(expected as nat),
            PixmapError::DimsMismatch => "pixmap dims didn't match buffer"@,
        }
    }

    /// The error in words.
    pub fn message(&self) -> (r: String)
        ensures
            r@ == self.message_text(),
            self is BadWidth ==> r@ == "bad icon width"@,
            self is BadHeight ==> r@ == "bad icon height"@,
            self matches PixmapError::TooShort { have, expected } ==> r@
                == "icon pixmap too short: "@ + decimal(have as nat) + " < "@ + decimal(
                expected as nat,
            ),
            self is DimsMismatch ==> r@ == "pixmap dims didn't match buffer"@,
    {
        match self {
            PixmapError::BadWidth => "bad icon width".to_owned(),
            PixmapError::BadHeight => "bad icon height".to_owned(),
            PixmapError::TooShort { have, expected } => {
                let mut out = "icon pixmap too short: ".to_owned();
                push_decimal(&mut out, *have as u64);
                out.append(" < ");
                push_decimal(&mut out, *expected);
                out
            },
            PixmapError::DimsMismatch => "pixmap dims didn't match buffer".to_owned(),
        }
    }
}

impl IconPixmap {
    pub open spec fn area(self) -> int {
        self.width * self.height
    }
}

/// The first `count` pixels with alpha moved behind the colours.
pub open spec fn alpha_last(pixels: Seq<u8>, count: nat) -> Seq<u8> {
    Seq::new(
        4 * count,
        |k: int|
            if k % 4 == 3 {
                pixels[k - 3]
            } else {
                pixels[k + 1]
            },
    )
}

/// What a pixmap comes to: its width, its height and its pixels with alpha last. A picture
/// has no more pixels than a `u32` can count, and no more bytes in a row than a `usize` can.
pub open spec fn picture(p: IconPixmap) -> Result<(int, int, Seq<u8>), PixmapError> {
    if p.width < 0 {
        Err(PixmapError::BadWidth)
    } else if p.height < 0 {
        Err(PixmapError::BadHeight)
    } else if p.pixels@.len() < 4 * p.area() {
        Err(
            PixmapError::TooShort {
                have: p.pixels@.len() as usize,
                expected: (4 * p.area()) as u64,
            },
        )
    } else if p.area() > u32::MAX || 4 * p.width > usize::MAX {
        Err(PixmapError::DimsMismatch)
    } else {
        Ok((p.width as int, p.height as int, alpha_last(p.pixels@, p.area() as nat)))
    }
}

/// `image::RgbaImage::from_raw` takes a buffer as the pixels of a picture: it hands one out
/// where a row's four bytes per pixel can be counted by a `usize` and the buffer holds at
/// least as many as the dimensions ask for, and nothing otherwise. The picture's own buffer,
/// which `into_raw` hands back, is the one that was given.
#[verifier::external_body]
fn rgba_image(width: u32, height: u32, data: Vec<u8>) -> (r: Option<Vec<u8>>)
    ensures
        r is Some <==> (4 * width <= usize::MAX && 4 * (width * height) <= data@.len()),
        r matches Some(raw) ==> raw@ == data@,
{
    match image::RgbaImage::from_raw(width, height, data) {
        Some(picture) => Some(picture.into_raw()),
        None => None,
    }
}

/// The first `count` pixels with alpha moved behind the colours.
fn move_alpha(pixels: &Vec<u8>, count: u64) -> (r: Vec<u8>)
    requires
        4 * count <= pixels@.len(),
    ensures
        r@ == alpha_last(pixels@, count as nat),
{
    let len: usize = pixels.len();
    let mut rgba: Vec<u8> = Vec::new();
    let mut i: u64 = 0;
    while i < count
        invariant
            i <= count,
            len == pixels@.len(),
            4 * count <= len,
            rgba@ =~= alpha_last(pixels@, i as nat),
        decreases count - i,
    {
        let at: usize = 4 * i as usize;
        rgba.push(pixels[at + 1]);
        rgba.push(pixels[at + 2]);
        rgba.push(pixels[at + 3]);
        rgba.push(pixels[at]);
        i += 1;
    }
    rgba
}

/// Checks a pixmap's dimensions against its data and moves alpha behind the colours.
pub fn pixmap_to_rgba(pixmap: &IconPixmap) -> (r: Result<RgbaIcon, PixmapError>)
    ensures
        match r {
            Ok(icon) => picture(*pixmap) == Ok::<(int, int, Seq<u8>), PixmapError>(
                (icon.width as int, icon.height as int, icon.rgba@),
            ),
            Err(e) => picture(*pixmap) == Err::<(int, int, Seq<u8>), PixmapError>(e),
        },
        r matches Ok(icon) ==> {
            &&& icon.width == pixmap.width && icon.height == pixmap.height
            &&& icon.rgba@.len() == 4 * (pixmap.width * pixmap.height)
            &&& forall|i: int|
                #![trigger icon.rgba@[4 * i]]
                0 <= i < pixmap.width * pixmap.height ==> {
                    &&& icon.rgba@[4 * i] == pixmap.pixels@[4 * i + 1]
                    &&& icon.rgba@[4 * i + 1] == pixmap.pixels@[4 * i + 2]
                    &&& icon.rgba@[4 * i + 2] == pixmap.pixels@[4 * i + 3]
                    &&& icon.rgba@[4 * i + 3] == pixmap.pixels@[4 * i]
                }
        },
{
    proof {
        law_alpha_moves_behind_the_colours(*pixmap);
    }
    if pixmap.width < 0 {
        return Err(PixmapError::BadWidth);
    }
    if pixmap.height < 0 {
        return Err(PixmapError::BadHeight);
    }
    let width: u32 = pixmap.width as u32;
    let height: u32 = pixmap.height as u32;
    proof {
        let w = width as int;
        let h = height as int;
        assert(0 <= w * h <= 0x7fff_ffff * 0x7fff_ffff) by (nonlinear_arith)
            requires
                0 <= w <= 0x7fff_ffff,
                0 <= h <= 0x7fff_ffff,
        ;
    }
    let count: u64 = width as u64 * height as u64;
    let expected: u64 = 4 * count;
    if (pixmap.pixels.len() as u64) < expected {
        return Err(PixmapError::TooShort { have: pixmap.pixels.len(), expected });
    }
    if count > u32::MAX as u64 {
        return Err(PixmapError::DimsMismatch);
    }
    match rgba_image(width, height, move_alpha(&pixmap.pixels, count)) {
        Some(rgba) => Ok(RgbaIcon { width, height, rgba }),
        None => Err(PixmapError::DimsMismatch),
    }
}

/// The product of a pixmap's dimensions.
fn area_of(pixmap: &IconPixmap) -> (r: i64)
    ensures
        r == pixmap.area(),
{
    proof {
        let w = pixmap.width as int;
        let h = pixmap.height as int;
        assert(-0x8000_0000 * 0x8000_0000 <= w * h <= 0x8000_0000 * 0x8000_0000)
            by (nonlinear_arith)
            requires
                -0x8000_0000 <= w <= 0x7fff_ffff,
                -0x8000_0000 <= h <= 0x7fff_ffff,
        ;
    }
    pixmap.width as i64 * pixmap.height as i64
}

/// Whether the pixmap at `at` is the biggest by area, the last of them where several are.
pub open spec fn is_biggest(pixmaps: Seq<IconPixmap>, at: int) -> bool {
    &&& 0 <= at < pixmaps.len()
    &&& forall|i: int|
        0 <= i < pixmaps.len() ==> (#[trigger] pixmaps[i]).area() <= pixmaps[at].area()
    &&& forall|i: int|
        at < i < pixmaps.len() ==> (#[trigger] pixmaps[i]).area() < pixmaps[at].area()
}

/// The position of the biggest pixmap, the last of them where several are.
pub fn biggest(pixmaps: &Vec<IconPixmap>) -> (r: usize)
    requires
        pixmaps@.len() > 0,
    ensures
        is_biggest(pixmaps@, r as int),
        r < pixmaps@.len(),
        forall|i: int|
            0 <= i < pixmaps@.len() ==> (#[trigger] pixmaps@[i]).width * pixmaps@[i].height
                <= pixmaps@[r as int].width * pixmaps@[r as int].height,
        forall|i: int|
            r < i < pixmaps@.len() ==> (#[trigger] pixmaps@[i]).width * pixmaps@[i].height
                < pixmaps@[r as int].width * pixmaps@[r as int].height,
{
    let mut best: usize = 0;
    let mut best_area: i64 = area_of(&pixmaps[0]);
    let mut i: usize = 1;
    while i < pixmaps.len()
        invariant
            best < i <= pixmaps@.len(),
            best_area == pixmaps@[best as int].area(),
            forall|j: int| 0 <= j < i ==> (#[trigger] pixmaps@[j]).area() <= best_area,
            forall|j: int| best < j < i ==> (#[trigger] pixmaps@[j]).area() < best_area,
        decreases pixmaps.len() - i,
    {
        let area: i64 = area_of(&pixmaps[i]);
        if area >= best_area {
            best = i;
            best_area = area;
        }
        i += 1;
    }
    best
}

/// A picture has the pixels of its pixmap, each in its place, with the byte of its alpha moved
/// behind those of its red, green and blue. It comes out wherever the dimensions are not
/// negative, all of its bytes are there, and they can be counted.
pub proof fn law_alpha_moves_behind_the_colours(p: IconPixmap)
    ensures
        picture(p) is Ok <==> {
            &&& p.width >= 0 && p.height >= 0
            &&& 4 * (p.width * p.height) <= p.pixels@.len()
            &&& p.width * p.height <= u32::MAX && 4 * p.width <= usize::MAX
        },
        picture(p) matches Ok((width, height, rgba)) ==> {
            &&& width == p.width && height == p.height
            &&& rgba.len() == 4 * (p.width * p.height)
            &&& forall|i: int|
                #![trigger rgba[4 * i]]
                0 <= i < p.width * p.height ==> {
                    &&& rgba[4 * i] == p.pixels@[4 * i + 1]
                    &&& rgba[4 * i + 1] == p.pixels@[4 * i + 2]
                    &&& rgba[4 * i + 2] == p.pixels@[4 * i + 3]
                    &&& rgba[4 * i + 3] == p.pixels@[4 * i]
                }
        },
{
    if picture(p) is Ok {
        let w = p.width as int;
        let h = p.height as int;
        assert(w * h >= 0) by (nonlinear_arith)
            requires
                w >= 0,
                h >= 0,
        ;
    }
}

/// A pixmap is refused for its width before its height, and for these before its bytes.
pub proof fn law_why_a_pixmap_is_refused(p: IconPixmap)
    ensures
        p.width < 0 ==> picture(p) == Err::<(int, int, Seq<u8>), PixmapError>(
            PixmapError::BadWidth,
        ),
        p.width >= 0 && p.height < 0 ==> picture(p) == Err::<(int, int, Seq<u8>), PixmapError>(
            PixmapError::BadHeight,
        ),
        p.width >= 0 && p.height >= 0 && p.pixels@.len() < 4 * (p.width * p.height) ==> picture(p)
            == Err::<(int, int, Seq<u8>), PixmapError>(
            PixmapError::TooShort {
                have: p.pixels@.len() as usize,
                expected: (4 * (p.width * p.height)) as u64,
            },
        ),
        p.width >= 0 && p.height >= 0 && p.pixels@.len() >= 4 * (p.width * p.height) && (p.width
            * p.height > u32::MAX || 4 * p.width > usize::MAX) ==> picture(p) == Err::<
            (int, int, Seq<u8>),
            PixmapError,
        >(PixmapError::DimsMismatch),
{
}

/// No two pictures come out the same: every byte of the pixels that are taken is kept.
pub proof fn law_no_byte_is_lost(a: Seq<u8>, b: Seq<u8>, count: nat)
    requires
        alpha_last(a, count) == alpha_last(b, count),
    ensures
        forall|k: int| 0 <= k < 4 * count ==> #[trigger] a[k] == b[k],
{
    assert forall|k: int| 0 <= k < 4 * count implies #[trigger] a[k] == b[k] by {
        let at = if k % 4 == 0 {
            k + 3
        } else {
            k - 1
        };
        assert(0 <= at < 4 * count);
        assert(alpha_last(a, count)[at] == a[k]);
        assert(alpha_last(b, count)[at] == b[k]);
    }
}

/// Only one pixmap is the biggest.
pub proof fn law_one_pixmap_is_biggest(pixmaps: Seq<IconPixmap>, a: int, b: int)
    requires
        is_biggest(pixmaps, a),
        is_biggest(pixmaps, b),
    ensures
        a == b,
{
    assert(pixmaps[a].area() <= pixmaps[b].area() && pixmaps[b].area() <= pixmaps[a].area());
}

} // verus!
