//! The window icon.

use vstd::prelude::*;

verus! {

/// An icon in the raw form that a window takes: four bytes per pixel.
#[derive(Debug)]
pub struct IconData {
    pub rgba: Vec<u8>,
    pub width: u32,
    pub height: u32,
}

impl IconData {
    /// There are as many pixels as the size says.
    pub open spec fn wf(self) -> bool {
        self.rgba@.len() == 4 * (self.width * self.height)
    }
}

/// The pixels, width and height that `image::load_from_memory` followed by
/// `DynamicImage::into_rgba8` makes of an image file, or nothing if it is none.
pub uninterp spec fn rgba_pixels(bytes: Seq<u8>) -> Option<(Seq<u8>, u32, u32)>;

/// Calls `image::load_from_memory` and takes the picture apart with
/// `into_rgba8`, `dimensions` and `into_raw`. Claimed of it: what comes out
/// depends on the bytes alone, and a picture has four bytes for each of its
/// pixels. Which picture an image file holds is left unsaid.
#[verifier::external_body]
fn decode_rgba(bytes: &[u8]) -> (pixels: Option<(Vec<u8>, u32, u32)>)
    ensures
        rgba_pixels(bytes@) == match pixels {
            Some(p) => Some((p.0@, p.1, p.2)),
            None => None,
        },
        pixels matches Some(p) ==> p.0@.len() == 4 * (p.1 * p.2),
{
    match image::load_from_memory(bytes) {
        Ok(picture) => {
            let picture = picture.into_rgba8();
            let (width, height) = picture.dimensions();
            Some((picture.into_raw(), width, height))
        },
        Err(_) => None,
    }
}

/// The icon with these pixels, if there are any.
pub fn icon_from_pixels(pixels: Option<(Vec<u8>, u32, u32)>) -> (icon: Option<IconData>)
    ensures
        icon == match pixels {
            Some(p) => Some(IconData { rgba: p.0, width: p.1, height: p.2 }),
            None => None,
        },
{
    match pixels {
        Some((rgba, width, height)) => Some(IconData { rgba, width, height }),
        None => None,
    }
}

/// Decodes an image file into an icon. There is none if the bytes are no valid
/// image.
pub fn load_icon(bytes: &[u8]) -> (icon: Option<IconData>)
    ensures
        icon is Some <==> rgba_pixels(bytes@) is Some,
        icon matches Some(i) ==> i.wf() && rgba_pixels(bytes@) == Some(
            (i.rgba@, i.width, i.height),
        ),
{
    icon_from_pixels(decode_rgba(bytes))
}

/// An icon has the pixels and the size that it was made of, and there is one
/// exactly when there are pixels.
pub proof fn law_icon_keeps_pixels(
    pixels: Option<(Vec<u8>, u32, u32)>,
    icon: Option<IconData>,
)
    requires
        call_ensures(icon_from_pixels, (pixels,), icon),
    ensures
        icon is Some <==> pixels is Some,
        icon matches Some(i) ==> pixels == Some((i.rgba, i.width, i.height)),
{
}

/// Loading the same file twice gives the same icon, with four bytes for each of
/// its pixels.
pub proof fn law_icon_of_file(
    bytes: &[u8],
    icon: Option<IconData>,
    again: Option<IconData>,
)
    requires
        call_ensures(load_icon, (bytes,), icon),
        call_ensures(load_icon, (bytes,), again),
    ensures
        icon is Some <==> again is Some,
        icon matches Some(i) ==> {
            &&& i.rgba@ == again->0.rgba@
            &&& i.width == again->0.width
            &&& i.height == again->0.height
            &&& i.rgba@.len() == 4 * (i.width * i.height)
            &&& rgba_pixels(bytes@) == Some((i.rgba@, i.width, i.height))
        },
        icon is None ==> rgba_pixels(bytes@) is None,
{
}

} // verus!
