//! Output image formats supported by the renderer.

use vstd::prelude::*;

verus! {

/// The format of an output file produced by a render task.
#[derive(Clone, Copy, Debug, PartialEq, Eq, Structural)]
pub enum FileExt {
    /// Windows bitmap
    BMP,
    /// Iris
    RGB,
    /// PNG
    PNG,
    /// JPEG
    JPG,
    /// JPEG 2000
    JP2,
    /// Targa / Targa Raw
    TGA,
}

/// The lowercase three-character file-name extension of a format.
pub open spec fn spec_ext_name(e: FileExt) -> Seq<u8> {
    match e {
        FileExt::BMP => seq![0x62u8, 0x6d, 0x70],
        FileExt::RGB => seq![0x72u8, 0x67, 0x62],
        FileExt::PNG => seq![0x70u8, 0x6e, 0x67],
        FileExt::JPG => seq![0x6au8, 0x70, 0x67],
        FileExt::JP2 => seq![0x6au8, 0x70, 0x32],
        FileExt::TGA => seq![0x74u8, 0x67, 0x61],
    }
}

impl FileExt {
    /// The lowercase textual form used in file names, e.g. `png`.
    pub fn ext_name(self) -> (r: Vec<u8>)
        ensures
            r@ == spec_ext_name(self),
    {
        let mut v: Vec<u8> = Vec::new();
        match self {
            FileExt::BMP => {
                v.push(0x62);
                v.push(0x6d);
                v.push(0x70);
            }
            FileExt::RGB => {
                v.push(0x72);
                v.push(0x67);
                v.push(0x62);
            }
            FileExt::PNG => {
                v.push(0x70);
                v.push(0x6e);
                v.push(0x67);
            }
            FileExt::JPG => {
                v.push(0x6a);
                v.push(0x70);
                v.push(0x67);
            }
            FileExt::JP2 => {
                v.push(0x6a);
                v.push(0x70);
                v.push(0x32);
            }
            FileExt::TGA => {
                v.push(0x74);
                v.push(0x67);
                v.push(0x61);
            }
        }
        proof {
            assert(v@ =~= spec_ext_name(self));
        }
        v
    }
}

} // verus!
