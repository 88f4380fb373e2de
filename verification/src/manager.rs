//! The manager: binds an in-memory image and a lookup table, and answers
//! per-pixel queries, deterministic content hashes, and bulk snapshots.

use vstd::prelude::*;
use vstd::string::StringExecFns;
use vstd::bytes::{spec_u32_to_le_bytes, spec_u64_to_le_bytes, u32_to_le_bytes, u64_to_le_bytes};
use vstd::std_specs::hash::DefaultHasherAdditionalSpecFns;
use vstd::arithmetic::div_mod::lemma_fundamental_div_mod;
use vstd::pervasive::unreached;
use std::collections::hash_map::DefaultHasher;
use std::hash::Hasher;
use crate::color::{decode_rgb_spec, to_hex_spec, Rgba};
use crate::io::{table_of, ColorFile, LookupTable};
use crate::Error;

verus! {

/// An in-memory raster image: a row-major grid of RGBA samples.
pub struct Image {
    pub width: u32,
    pub height: u32,
    pub pixels: Vec<Rgba>,
}

impl Image {
    /// The pixel vector holds exactly width times height samples.
    pub open spec fn wf(&self) -> bool {
        self.pixels@.len() == self.width as int * self.height as int
    }

    /// Whether (x, y) lies inside the image bounds.
    pub open spec fn in_bounds(&self, x: int, y: int) -> bool {
        0 <= x < self.width as int && 0 <= y < self.height as int
    }

    /// The sample at (x, y), row-major.
    pub open spec fn sample_at(&self, x: int, y: int) -> Rgba {
        self.pixels@[y * self.width as int + x]
    }

    /// Builds an image from its dimensions and row-major samples; `None`
    /// when the sample count does not match the dimensions.
    pub fn new(width: u32, height: u32, pixels: Vec<Rgba>) -> (r: Option<Image>)
        ensures
            match r {
                Some(img) => {
                    &&& img.width == width
                    &&& img.height == height
                    &&& img.pixels@ == pixels@
                    &&& img.wf()
                },
                None => pixels@.len() != width as int * height as int,
            },
    {
        proof {
            assert((width as int) * (height as int) <= 0xffff_ffff * 0xffff_ffff)
                by (nonlinear_arith)
                requires
                    0 <= (width as int) && (width as int) <= 0xffff_ffff,
                    0 <= (height as int) && (height as int) <= 0xffff_ffff,
            ;
        }
        if (pixels.len() as u64) == (width as u64) * (height as u64) {
            Some(Image { width, height, pixels })
        } else {
            None
        }
    }

    /// The sample at in-bounds coordinates (x, y).
    pub fn get_pixel(&self, x: u32, y: u32) -> (r: Rgba)
        requires
            self.wf(),
            self.in_bounds(x as int, y as int),
        ensures
            r == self.sample_at(x as int, y as int),
    {
        let n = self.pixels.len();
        proof {
            assert((y as int) * (self.width as int) + (x as int) < (self.width as int) * (
            self.height as int)) by (nonlinear_arith)
                requires
                    0 <= (x as int) && (x as int) < (self.width as int),
                    0 <= (y as int) && (y as int) < (self.height as int),
            ;
        }
        let idx: usize = (y as usize) * (self.width as usize) + (x as usize);
        self.pixels[idx]
    }
}

/// The deterministic content hash of a pixel: the 64-bit digest that
/// std's `DefaultHasher` produces after absorbing, in this fixed order,
/// the little-endian bytes of x, then the little-endian bytes of y, then
/// the four channel bytes r, g, b, a as a slice with its little-endian
/// length prefix. The resolved color name is deliberately no part of the
/// input, so the hash identifies the pixel content under any registry.
pub open spec fn pixel_hash_of(x: u32, y: u32, c: Rgba) -> u64 {
    DefaultHasher::spec_finish(
        seq![
            spec_u32_to_le_bytes(x),
            spec_u32_to_le_bytes(y),
            spec_u64_to_le_bytes(4),
            seq![c.r, c.g, c.b, c.a],
        ],
    )
}

/// The content hash is a content identity: it is a function of the
/// coordinates and the sample alone, never of the registry or of the
/// resolved name. Two managers whose images agree at (x, y) give that
/// pixel the same hash, whatever their color files and lookup tables
/// hold.
pub proof fn lemma_hash_content_identity(m1: Manager, m2: Manager, x: u32, y: u32)
    requires
        m1.image.sample_at(x as int, y as int) == m2.image.sample_at(x as int, y as int),
    ensures
        pixel_hash_of(x, y, m1.image.sample_at(x as int, y as int)) == pixel_hash_of(
            x,
            y,
            m2.image.sample_at(x as int, y as int),
        ),
{
}

/// One query result: coordinates, sample, and resolved color name. Not
/// cached anywhere; built on demand per query.
pub struct PixelData {
    pub x: u32,
    pub y: u32,
    pub color: Rgba,
    pub color_name: String,
}

impl PixelData {
    /// The content hash of (x, y, color). `color_name` is excluded: two
    /// results with equal coordinates and sample hash identically even
    /// under registries that name the color differently.
    pub fn hash(&self) -> (h: u64)
        ensures
            h == pixel_hash_of(self.x, self.y, self.color),
    {
        let mut hasher = DefaultHasher::new();
        let xb = u32_to_le_bytes(self.x);
        hasher.write(xb.as_slice());
        let yb = u32_to_le_bytes(self.y);
        hasher.write(yb.as_slice());
        let lb = u64_to_le_bytes(4u64);
        hasher.write(lb.as_slice());
        let cb = [self.color.r, self.color.g, self.color.b, self.color.a];
        hasher.write(cb.as_slice());
        proof {
            assert(cb@ =~= seq![self.color.r, self.color.g, self.color.b, self.color.a]);
            assert(hasher@ =~= seq![
                spec_u32_to_le_bytes(self.x),
                spec_u32_to_le_bytes(self.y),
                spec_u64_to_le_bytes(4),
                seq![self.color.r, self.color.g, self.color.b, self.color.a],
            ]);
        }
        hasher.finish()
    }
}

/// Options for building a manager from external sources: the paths an
/// unverified loader reads the image and the color definition from.
pub struct ManagerOptions {
    pub image_path: String,
    pub color_file_path: String,
}

/// The manager: an image, the registry it was built with, and the lookup
/// table derived from that registry once at construction.
pub struct Manager {
    pub image: Image,
    pub color_file: ColorFile,
    pub lookup: LookupTable,
}

impl Manager {
    /// A usable manager: consistent image dimensions, distinct table keys.
    pub open spec fn wf(&self) -> bool {
        self.image.wf() && self.lookup.wf()
    }

    /// Binds an image and a registry. The lookup table is built eagerly,
    /// in registry order; a registry entry that fails to decode fails
    /// the construction with `InvalidEncoding`.
    pub fn new(image: Image, color_file: ColorFile) -> (r: Result<Manager, Error>)
        requires
            image.wf(),
        ensures
            match r {
                Ok(m) => {
                    &&& m.wf()
                    &&& m.image == image
                    &&& m.color_file == color_file
                    &&& m.lookup.as_map() == table_of(color_file.entries@)
                },
                Err(e) => {
                    &&& e == Error::InvalidEncoding
                    &&& exists|i: int|
                        0 <= i < color_file.entries@.len() && decode_rgb_spec(
                            (#[trigger] color_file.entries@[i]).color@,
                        ) is None
                },
            },
    {
        match color_file.create_lookup() {
            Ok(lookup) => Ok(Manager { image, color_file, lookup }),
            Err(e) => Err(e),
        }
    }

    /// Resolves the pixel at (x, y): its sample, and the name the table
    /// maps that sample to, or the literal `UNKNOWN` sentinel when the
    /// table holds no such key. A miss is a defined result, never an
    /// error; out-of-bounds coordinates are `IndexOutOfRange`.
    pub fn get(&self, x: u32, y: u32) -> (r: Result<PixelData, Error>)
        requires
            self.wf(),
        ensures
            match r {
                Ok(pd) => {
                    &&& self.image.in_bounds(x as int, y as int)
                    &&& pd.x == x
                    &&& pd.y == y
                    &&& pd.color == self.image.sample_at(x as int, y as int)
                    &&& if self.lookup.as_map().contains_key(pd.color) {
                        pd.color_name@ == self.lookup.as_map()[pd.color]
                    } else {
                        pd.color_name@ == "UNKNOWN"@
                    }
                },
                Err(e) => {
                    &&& e == Error::IndexOutOfRange
                    &&& !self.image.in_bounds(x as int, y as int)
                },
            },
    {
        if x >= self.image.width || y >= self.image.height {
            return Err(Error::IndexOutOfRange);
        }
        let pixel = self.image.get_pixel(x, y);
        match self.lookup.get(&pixel) {
            Some(name) => Ok(PixelData { x, y, color: pixel, color_name: name.clone() }),
            None => Ok(
                PixelData { x, y, color: pixel, color_name: String::from_str("UNKNOWN") },
            ),
        }
    }

    /// The deterministic content hash of the pixel at (x, y): a function
    /// of the coordinates and the sample alone, identical across calls,
    /// runs, and registries.
    pub fn hash(&self, x: u32, y: u32) -> (r: Result<u64, Error>)
        requires
            self.wf(),
        ensures
            match r {
                Ok(h) => {
                    &&& self.image.in_bounds(x as int, y as int)
                    &&& h == pixel_hash_of(x, y, self.image.sample_at(x as int, y as int))
                },
                Err(e) => {
                    &&& e == Error::IndexOutOfRange
                    &&& !self.image.in_bounds(x as int, y as int)
                },
            },
    {
        match self.get(x, y) {
            Ok(pd) => Ok(pd.hash()),
            Err(e) => Err(e),
        }
    }

    /// Every color key of the table as an r, g, b triple, in table order.
    pub fn colors_rgb(&self) -> (r: Vec<[u8; 3]>)
        ensures
            r@.len() == self.lookup.entries@.len(),
            forall|i: int|
                0 <= i < r@.len() ==> (#[trigger] r@[i])@ == seq![
                    self.lookup.entries@[i].color.r,
                    self.lookup.entries@[i].color.g,
                    self.lookup.entries@[i].color.b,
                ],
    {
        let mut out: Vec<[u8; 3]> = Vec::new();
        let mut i: usize = 0;
        while i < self.lookup.entries.len()
            invariant
                i <= self.lookup.entries@.len(),
                out@.len() == i,
                forall|j: int|
                    0 <= j < i ==> (#[trigger] out@[j])@ == seq![
                        self.lookup.entries@[j].color.r,
                        self.lookup.entries@[j].color.g,
                        self.lookup.entries@[j].color.b,
                    ],
            decreases self.lookup.entries@.len() - i,
        {
            out.push(self.lookup.entries[i].color.rgb());
            i += 1;
        }
        out
    }

    /// Every color key of the table as `0x`-prefixed uppercase
    /// hexadecimal RGB text, in table order.
    pub fn colors_hex(&self) -> (r: Vec<String>)
        ensures
            r@.len() == self.lookup.entries@.len(),
            forall|i: int|
                0 <= i < r@.len() ==> (#[trigger] r@[i])@ == seq!['0', 'x'] + to_hex_spec(
                    seq![
                        self.lookup.entries@[i].color.r,
                        self.lookup.entries@[i].color.g,
                        self.lookup.entries@[i].color.b,
                    ],
                ),
    {
        proof {
            reveal_strlit("0x");
        }
        let mut out: Vec<String> = Vec::new();
        let mut i: usize = 0;
        while i < self.lookup.entries.len()
            invariant
                i <= self.lookup.entries@.len(),
                out@.len() == i,
                forall|j: int|
                    0 <= j < i ==> (#[trigger] out@[j])@ == seq!['0', 'x'] + to_hex_spec(
                        seq![
                            self.lookup.entries@[j].color.r,
                            self.lookup.entries@[j].color.g,
                            self.lookup.entries@[j].color.b,
                        ],
                    ),
            decreases self.lookup.entries@.len() - i,
        {
            let mut s = String::from_str("0x");
            let hex = self.lookup.entries[i].color.hex();
            s.append(hex.as_str());
            proof {
                reveal_strlit("0x");
                assert("0x"@ =~= seq!['0', 'x']);
            }
            out.push(s);
            i += 1;
        }
        out
    }

    /// Every color name in the table, in table order.
    pub fn color_names(&self) -> (r: Vec<String>)
        ensures
            r@.len() == self.lookup.entries@.len(),
            forall|i: int|
                0 <= i < r@.len() ==> (#[trigger] r@[i])@ == self.lookup.entries@[i].name@,
    {
        let mut out: Vec<String> = Vec::new();
        let mut i: usize = 0;
        while i < self.lookup.entries.len()
            invariant
                i <= self.lookup.entries@.len(),
                out@.len() == i,
                forall|j: int|
                    0 <= j < i ==> (#[trigger] out@[j])@ == self.lookup.entries@[j].name@,
            decreases self.lookup.entries@.len() - i,
        {
            out.push(self.lookup.entries[i].name.clone());
            i += 1;
        }
        out
    }

    /// All pixels of the image, resolved, in row-major scan order: the
    /// whole of row 0 left to right, then row 1, and so on. A fresh
    /// traversal of the same manager always yields the same sequence.
    pub fn for_each_pixel(&self) -> (r: Vec<PixelData>)
        requires
            self.wf(),
        ensures
            r@.len() == self.image.width as int * self.image.height as int,
            forall|i: int|
                0 <= i < r@.len() ==> {
                    let x = i % self.image.width as int;
                    let y = i / self.image.width as int;
                    &&& (#[trigger] r@[i]).x == x
                    &&& r@[i].y == y
                    &&& r@[i].color == self.image.sample_at(x, y)
                    &&& if self.lookup.as_map().contains_key(r@[i].color) {
                        r@[i].color_name@ == self.lookup.as_map()[r@[i].color]
                    } else {
                        r@[i].color_name@ == "UNKNOWN"@
                    }
                },
    {
        let total = self.image.pixels.len();
        let w = self.image.width;
        let mut out: Vec<PixelData> = Vec::new();
        let mut i: usize = 0;
        while i < total
            invariant
                self.wf(),
                w == self.image.width,
                total == self.image.pixels@.len(),
                i <= total,
                out@.len() == i,
                forall|j: int|
                    0 <= j < i ==> {
                        let x = j % self.image.width as int;
                        let y = j / self.image.width as int;
                        &&& (#[trigger] out@[j]).x == x
                        &&& out@[j].y == y
                        &&& out@[j].color == self.image.sample_at(x, y)
                        &&& if self.lookup.as_map().contains_key(out@[j].color) {
                            out@[j].color_name@ == self.lookup.as_map()[out@[j].color]
                        } else {
                            out@[j].color_name@ == "UNKNOWN"@
                        }
                    },
            decreases total - i,
        {
            proof {
                assert(w > 0) by (nonlinear_arith)
                    requires
                        (i as int) < (w as int) * (self.image.height as int),
                        0 <= i as int,
                        w >= 0,
                ;
                assert((i as int) / (w as int) < self.image.height as int) by (nonlinear_arith)
                    requires
                        (i as int) < (w as int) * (self.image.height as int),
                        0 <= i as int,
                        w > 0,
                ;
                lemma_fundamental_div_mod(i as int, w as int);
            }
            let x = (i % (w as usize)) as u32;
            let y = (i / (w as usize)) as u32;
            match self.get(x, y) {
                Ok(pd) => {
                    out.push(pd);
                },
                Err(_) => {
                    return unreached();
                },
            }
            i += 1;
        }
        out
    }
}

} // verus!
