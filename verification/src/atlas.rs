//! Texture atlas: one RGBA image and the named rectangles cut out of it.

use crate::color::Rgba;
use vstd::prelude::*;

verus! {

/// The pixel grid of an atlas. The pixels live in an `image::RgbaImage`; what
/// the renderer knows of them is stated over [`image_size`] and
/// [`image_pixels`].
#[verifier::external_body]
pub struct AtlasImage {
    buffer: image::RgbaImage,
}

/// Width and height of the grid, in pixels.
pub uninterp spec fn image_size(img: AtlasImage) -> (nat, nat);

/// The pixel stored at each `(x, y)` inside the grid.
pub uninterp spec fn image_pixels(img: AtlasImage) -> Map<(int, int), Rgba>;

/// The pixel that row-major RGBA samples hold at `(x, y)` of a grid that is
/// `width` pixels wide.
pub open spec fn sample_at(data: Seq<u8>, width: int, x: int, y: int) -> Rgba {
    let i = (y * width + x) * 4;
    Rgba { r: data[i], g: data[i + 1], b: data[i + 2], a: data[i + 3] }
}

/// `image::ImageBuffer::from_raw`: builds the grid from row-major RGBA
/// samples. It succeeds exactly when `data` holds at least four samples per
/// pixel, and then pixel `(x, y)` is made of the four samples that start at
/// `(y * width + x) * 4`.
#[verifier::external_body]
fn image_from_raw(width: u32, height: u32, data: Vec<u8>) -> (r: Option<AtlasImage>)
    ensures
        r is Some <==> 4 * width * height <= data@.len(),
        r matches Some(img) ==> {
            &&& image_size(img) == (width as nat, height as nat)
            &&& forall|x: int, y: int|
                0 <= x < width && 0 <= y < height ==> #[trigger] image_pixels(img)[(x, y)]
                    == sample_at(data@, width as int, x, y)
        },
{
    match image::RgbaImage::from_raw(width, height, data) {
        Some(buffer) => Some(AtlasImage { buffer }),
        None => None,
    }
}

/// `image::ImageBuffer::dimensions`: the width and height of the grid.
#[verifier::external_body]
fn image_dimensions(img: &AtlasImage) -> (d: (u32, u32))
    ensures
        image_size(*img) == (d.0 as nat, d.1 as nat),
{
    img.buffer.dimensions()
}

/// `image::ImageBuffer::get_pixel`: the pixel stored at `(x, y)`. The call
/// panics outside the grid, so both coordinates must lie inside it.
#[verifier::external_body]
fn image_get_pixel(img: &AtlasImage, x: u32, y: u32) -> (p: Rgba)
    requires
        x < image_size(*img).0,
        y < image_size(*img).1,
    ensures
        p == image_pixels(*img)[(x as int, y as int)],
{
    let c = img.buffer.get_pixel(x, y);
    Rgba { r: c.0[0], g: c.0[1], b: c.0[2], a: c.0[3] }
}

/// `Clone::clone` of `image::ImageBuffer`: a grid of the same size that holds
/// the same pixels.
#[verifier::external_body]
fn image_clone(img: &AtlasImage) -> (copy: AtlasImage)
    ensures
        image_size(copy) == image_size(*img),
        image_pixels(copy) == image_pixels(*img),
{
    AtlasImage { buffer: img.buffer.clone() }
}

impl Clone for AtlasImage {
    fn clone(&self) -> (copy: Self)
        ensures
            copy.width() == self.width(),
            copy.height() == self.height(),
            forall|x: int, y: int| copy.at(x, y) == self.at(x, y),
    {
        image_clone(self)
    }
}

impl AtlasImage {
    /// Width of the grid in pixels.
    pub open spec fn width(&self) -> nat {
        image_size(*self).0
    }

    /// Height of the grid in pixels.
    pub open spec fn height(&self) -> nat {
        image_size(*self).1
    }

    /// Whether `(x, y)` lies inside the grid.
    pub open spec fn contains(&self, x: int, y: int) -> bool {
        0 <= x < self.width() && 0 <= y < self.height()
    }

    /// The pixel at `(x, y)`; meaningful inside the grid only.
    pub open spec fn at(&self, x: int, y: int) -> Rgba {
        image_pixels(*self)[(x, y)]
    }

    /// Builds the grid from row-major RGBA samples, four per pixel. Fails
    /// when `data` is too short for `width * height` pixels.
    pub fn from_raw(width: u32, height: u32, data: Vec<u8>) -> (r: Option<AtlasImage>)
        ensures
            r is Some <==> 4 * width * height <= data@.len(),
            r matches Some(img) ==> {
                &&& img.width() == width
                &&& img.height() == height
                &&& forall|x: int, y: int|
                    0 <= x < width && 0 <= y < height ==> #[trigger] img.at(x, y) == sample_at(
                        data@,
                        width as int,
                        x,
                        y,
                    )
            },
    {
        image_from_raw(width, height, data)
    }

    /// Width and height of the grid.
    pub fn dimensions(&self) -> (d: (u32, u32))
        ensures
            d.0 == self.width(),
            d.1 == self.height(),
    {
        image_dimensions(self)
    }

    /// The pixel at `(x, y)`, or `None` outside the grid.
    pub fn pixel(&self, x: u32, y: u32) -> (p: Option<Rgba>)
        ensures
            p == if self.contains(x as int, y as int) {
                Some(self.at(x as int, y as int))
            } else {
                None
            },
    {
        let d = image_dimensions(self);
        if x < d.0 && y < d.1 {
            Some(image_get_pixel(self, x, y))
        } else {
            None
        }
    }
}

/// A named rectangle inside the atlas image.
#[derive(Debug)]
pub struct Frame {
    /// Name of the sprite.
    pub name: String,
    /// Left edge inside the image.
    pub x: u32,
    /// Top edge inside the image.
    pub y: u32,
    /// Width in pixels.
    pub w: u32,
    /// Height in pixels.
    pub h: u32,
}

impl Clone for Frame {
    fn clone(&self) -> (r: Self)
        ensures
            r == *self,
    {
        Frame { name: self.name.clone(), x: self.x, y: self.y, w: self.w, h: self.h }
    }
}

/// One entry of the frame table: the key a frame is found by, and the frame.
pub struct FrameEntry {
    pub key: String,
    pub frame: Frame,
}

impl Clone for FrameEntry {
    fn clone(&self) -> (r: Self)
        ensures
            r == *self,
    {
        FrameEntry { key: self.key.clone(), frame: self.frame.clone() }
    }
}

/// An atlas: the image, the frames found by name, and the tile metadata.
pub struct Atlas {
    /// The pixels that all frames are cut from.
    pub image: AtlasImage,
    /// Edge of one tile, in pixels.
    pub tile_size: u32,
    /// Version of the atlas format.
    pub version: u32,
    /// The frame table; [`Atlas::wf`] asks that no key occurs twice.
    pub entries: Vec<FrameEntry>,
}

/// No two entries share a key.
spec fn distinct_keys(entries: Seq<FrameEntry>) -> bool {
    forall|i: int, j: int|
        0 <= i < j < entries.len() ==> (#[trigger] entries[i]).key@ != (#[trigger] entries[j]).key@
}

/// Whether some entry has the key `name`.
spec fn has_key(entries: Seq<FrameEntry>, name: Seq<char>) -> bool {
    exists|i: int| 0 <= i < entries.len() && (#[trigger] entries[i]).key@ == name
}

/// Index of an entry with the key `name`.
spec fn key_index(entries: Seq<FrameEntry>, name: Seq<char>) -> int {
    choose|i: int| 0 <= i < entries.len() && (#[trigger] entries[i]).key@ == name
}

impl Clone for Atlas {
    fn clone(&self) -> (copy: Self)
        ensures
            copy.entries@ == self.entries@,
            copy.tile_size == self.tile_size,
            copy.version == self.version,
            copy.image.width() == self.image.width(),
            copy.image.height() == self.image.height(),
            forall|x: int, y: int| copy.image.at(x, y) == self.image.at(x, y),
            copy.wf() == self.wf(),
            forall|name: Seq<char>| copy.frame_of(name) == self.frame_of(name),
            copy.count() == self.count(),
    {
        let mut entries: Vec<FrameEntry> = Vec::new();
        let mut i: usize = 0;
        while i < self.entries.len()
            invariant
                i <= self.entries@.len(),
                entries@ == self.entries@.take(i as int),
            decreases self.entries@.len() - i,
        {
            entries.push(self.entries[i].clone());
            assert(entries@ =~= self.entries@.take(i + 1));
            i += 1;
        }
        assert(entries@ =~= self.entries@);
        Atlas {
            image: self.image.clone(),
            tile_size: self.tile_size,
            version: self.version,
            entries,
        }
    }
}

impl Atlas {
    /// The table is well formed: every key occurs once.
    pub closed spec fn wf(&self) -> bool {
        distinct_keys(self.entries@)
    }

    /// The frame stored under `name`, if there is one.
    pub closed spec fn frame_of(&self, name: Seq<char>) -> Option<Frame> {
        if has_key(self.entries@, name) {
            Some(self.entries@[key_index(self.entries@, name)].frame)
        } else {
            None
        }
    }

    /// Number of frames in the table.
    pub closed spec fn count(&self) -> nat {
        self.entries@.len()
    }

    /// An atlas over `image` with no frames yet.
    pub fn new(image: AtlasImage, tile_size: u32, version: u32) -> (atlas: Atlas)
        ensures
            atlas.wf(),
            atlas.image == image,
            atlas.tile_size == tile_size,
            atlas.version == version,
            atlas.count() == 0,
            forall|name: Seq<char>| atlas.frame_of(name) is None,
    {
        Atlas { image, tile_size, version, entries: Vec::new() }
    }

    /// Position of the entry with the key `name`.
    fn find(&self, name: &str) -> (r: Option<usize>)
        requires
            self.wf(),
        ensures
            r is Some <==> has_key(self.entries@, name@),
            r matches Some(i) ==> i < self.entries@.len() && i == key_index(
                self.entries@,
                name@,
            ) && self.entries@[i as int].key@ == name@,
    {
        let wanted = name.to_owned();
        let mut i: usize = 0;
        while i < self.entries.len()
            invariant
                i <= self.entries@.len(),
                wanted@ == name@,
                self.wf(),
                forall|k: int| 0 <= k < i ==> (#[trigger] self.entries@[k]).key@ != name@,
            decreases self.entries@.len() - i,
        {
            if self.entries[i].key == wanted {
                return Some(i);
            }
            i += 1;
        }
        None
    }

    /// Stores `frame` under `key`. A frame already stored under that key is
    /// replaced and handed back; every other name keeps its frame.
    pub fn insert_frame(&mut self, key: String, frame: Frame) -> (previous: Option<Frame>)
        requires
            old(self).wf(),
        ensures
            final(self).wf(),
            final(self).image == old(self).image,
            final(self).tile_size == old(self).tile_size,
            final(self).version == old(self).version,
            previous == old(self).frame_of(key@),
            final(self).frame_of(key@) == Some(frame),
            forall|name: Seq<char>|
                name != key@ ==> final(self).frame_of(name) == old(self).frame_of(name),
            final(self).count() == old(self).count() + if previous is None {
                1nat
            } else {
                0nat
            },
    {
        let ghost before = self.entries@;
        match self.find(key.as_str()) {
            Some(i) => {
                let mut entry = FrameEntry { key, frame };
                std::mem::swap(&mut self.entries[i], &mut entry);
                proof {
                    let after = self.entries@;
                    assert(after.len() == before.len());
                    assert forall|k: int| 0 <= k < after.len() implies (#[trigger] after[k]).key@
                        == before[k].key@ by {}
                    assert forall|name: Seq<char>|
                        has_key(after, name) == has_key(before, name) by {
                        if has_key(before, name) {
                            let k = key_index(before, name);
                            assert(after[k].key@ == name);
                        }
                        if has_key(after, name) {
                            let k = key_index(after, name);
                            assert(before[k].key@ == name);
                        }
                    }
                    assert forall|name: Seq<char>| has_key(before, name) implies key_index(
                        after,
                        name,
                    ) == key_index(before, name) by {
                        let k = key_index(before, name);
                        assert(after[k].key@ == name);
                        let k2 = key_index(after, name);
                        assert(before[k2].key@ == name);
                    }
                }
                Some(entry.frame)
            },
            None => {
                self.entries.push(FrameEntry { key, frame });
                proof {
                    let after = self.entries@;
                    let last = before.len() as int;
                    assert(after[last].key@ == key@);
                    assert forall|k: int| 0 <= k < before.len() implies (#[trigger] after[k])
                        == before[k] by {}
                    assert forall|name: Seq<char>| name != key@ implies has_key(after, name)
                        == has_key(before, name) by {
                        if has_key(before, name) {
                            let k = key_index(before, name);
                            assert(after[k].key@ == name);
                        }
                        if has_key(after, name) {
                            let k = key_index(after, name);
                            assert(before[k].key@ == name);
                        }
                    }
                    assert forall|name: Seq<char>|
                        name != key@ && has_key(before, name) implies key_index(after, name)
                        == key_index(before, name) by {
                        let k = key_index(before, name);
                        assert(after[k].key@ == name);
                        let k2 = key_index(after, name);
                        assert(before[k2].key@ == name);
                    }
                    assert(has_key(after, key@));
                }
                None
            },
        }
    }

    /// Retrieves a frame by its name.
    pub fn get_frame(&self, name: &str) -> (r: Option<&Frame>)
        requires
            self.wf(),
        ensures
            match r {
                Some(frame) => self.frame_of(name@) == Some(*frame),
                None => self.frame_of(name@) is None,
            },
    {
        match self.find(name) {
            Some(i) => Some(&self.entries[i].frame),
            None => None,
        }
    }

    /// Checks if the atlas contains a frame with the given name.
    pub fn contains_frame(&self, name: &str) -> (r: bool)
        requires
            self.wf(),
        ensures
            r == self.frame_of(name@).is_some(),
    {
        self.find(name).is_some()
    }

    /// Gets the total number of frames in the atlas.
    pub fn frame_count(&self) -> (n: usize)
        ensures
            n == self.count(),
    {
        self.entries.len()
    }

    /// All frames of the atlas, in the order in which their keys were first
    /// stored.
    pub fn iter_frames(&self) -> (frames: Vec<&Frame>)
        ensures
            frames@.len() == self.count(),
            forall|i: int|
                0 <= i < frames@.len() ==> *(#[trigger] frames@[i]) == self.entries@[i].frame,
    {
        let mut frames: Vec<&Frame> = Vec::new();
        let mut i: usize = 0;
        while i < self.entries.len()
            invariant
                i <= self.entries@.len(),
                frames@.len() == i,
                forall|j: int| 0 <= j < i ==> *(#[trigger] frames@[j]) == self.entries@[j].frame,
            decreases self.entries@.len() - i,
        {
            frames.push(&self.entries[i].frame);
            i += 1;
        }
        frames
    }
}

} // verus!
