//! The variant catalog: every icon variant the encoder knows, with its
//! four-byte tag, square side length, and pixel layout class.

use vstd::prelude::*;

verus! {

/// Pixel layout class of a variant's payload.
#[derive(Debug, PartialEq, Eq, Structural, Hash, Clone, Copy)]
pub enum FileFormat {
    RGB,
    ARGB,
    MASK,
    PNG,
}

/// The icon variants that can be stored in a container.
#[derive(Debug, PartialEq, Eq, Structural, Hash, Clone, Copy)]
pub enum IconFormats {
    /// 16x16 24-bit RGB icon, tag "is32".
    IS32,
    /// 32x32 24-bit RGB icon, tag "il32".
    IL32,
    /// 48x48 24-bit RGB icon, tag "ih32".
    IH32,
    /// 128x128 24-bit RGB icon with a four-byte zero prefix, tag "it32".
    IT32,
    /// 16x16 8-bit mask, tag "s8mk".
    S8MK,
    /// 32x32 8-bit mask, tag "l8mk".
    L8MK,
    /// 48x48 8-bit mask, tag "h8mk".
    H8MK,
    /// 128x128 8-bit mask, tag "t8mk".
    T8MK,
    /// 16x16 ARGB icon, tag "ic04".
    IC04,
    /// 32x32 ARGB icon, tag "ic05".
    IC05,
    /// 128x128 PNG icon, tag "ic07".
    IC07,
    /// 256x256 PNG icon, tag "ic08".
    IC08,
    /// 512x512 PNG icon, tag "ic09".
    IC09,
    /// 1024x1024 PNG icon, tag "ic10".
    IC10,
    /// 32x32 PNG icon, tag "ic11".
    IC11,
    /// 64x64 PNG icon, tag "ic12".
    IC12,
    /// 256x256 PNG icon, tag "ic13".
    IC13,
    /// 512x512 PNG icon, tag "ic14".
    IC14,
    /// 16x16 PNG icon, tag "icp4".
    ICP4,
    /// 32x32 PNG icon, tag "icp5".
    ICP5,
    /// 64x64 PNG icon, tag "icp6".
    ICP6,
}

/// Layout class of each variant.
pub open spec fn layout_of(f: IconFormats) -> FileFormat {
    match f {
        IconFormats::IS32 => FileFormat::RGB,
        IconFormats::IL32 => FileFormat::RGB,
        IconFormats::IH32 => FileFormat::RGB,
        IconFormats::IT32 => FileFormat::RGB,
        IconFormats::S8MK => FileFormat::MASK,
        IconFormats::L8MK => FileFormat::MASK,
        IconFormats::H8MK => FileFormat::MASK,
        IconFormats::T8MK => FileFormat::MASK,
        IconFormats::IC04 => FileFormat::ARGB,
        IconFormats::IC05 => FileFormat::ARGB,
        IconFormats::IC07 => FileFormat::PNG,
        IconFormats::IC08 => FileFormat::PNG,
        IconFormats::IC09 => FileFormat::PNG,
        IconFormats::IC10 => FileFormat::PNG,
        IconFormats::IC11 => FileFormat::PNG,
        IconFormats::IC12 => FileFormat::PNG,
        IconFormats::IC13 => FileFormat::PNG,
        IconFormats::IC14 => FileFormat::PNG,
        IconFormats::ICP4 => FileFormat::PNG,
        IconFormats::ICP5 => FileFormat::PNG,
        IconFormats::ICP6 => FileFormat::PNG,
    }
}

/// Square side length of each variant, in pixels.
pub open spec fn size_of(f: IconFormats) -> int {
    match f {
        IconFormats::IS32 => 16,
        IconFormats::IL32 => 32,
        IconFormats::IH32 => 48,
        IconFormats::IT32 => 128,
        IconFormats::S8MK => 16,
        IconFormats::L8MK => 32,
        IconFormats::H8MK => 48,
        IconFormats::T8MK => 128,
        IconFormats::IC04 => 16,
        IconFormats::IC05 => 32,
        IconFormats::IC07 => 128,
        IconFormats::IC08 => 256,
        IconFormats::IC09 => 512,
        IconFormats::IC10 => 1024,
        IconFormats::IC11 => 32,
        IconFormats::IC12 => 64,
        IconFormats::IC13 => 256,
        IconFormats::IC14 => 512,
        IconFormats::ICP4 => 16,
        IconFormats::ICP5 => 32,
        IconFormats::ICP6 => 64,
    }
}

/// Four-byte ASCII tag of each variant.
pub open spec fn tag_of(f: IconFormats) -> Seq<u8> {
    match f {
        IconFormats::IS32 => seq![0x69u8, 0x73u8, 0x33u8, 0x32u8],
        IconFormats::IL32 => seq![0x69u8, 0x6cu8, 0x33u8, 0x32u8],
        IconFormats::IH32 => seq![0x69u8, 0x68u8, 0x33u8, 0x32u8],
        IconFormats::IT32 => seq![0x69u8, 0x74u8, 0x33u8, 0x32u8],
        IconFormats::S8MK => seq![0x73u8, 0x38u8, 0x6du8, 0x6bu8],
        IconFormats::L8MK => seq![0x6cu8, 0x38u8, 0x6du8, 0x6bu8],
        IconFormats::H8MK => seq![0x68u8, 0x38u8, 0x6du8, 0x6bu8],
        IconFormats::T8MK => seq![0x74u8, 0x38u8, 0x6du8, 0x6bu8],
        IconFormats::IC04 => seq![0x69u8, 0x63u8, 0x30u8, 0x34u8],
        IconFormats::IC05 => seq![0x69u8, 0x63u8, 0x30u8, 0x35u8],
        IconFormats::IC07 => seq![0x69u8, 0x63u8, 0x30u8, 0x37u8],
        IconFormats::IC08 => seq![0x69u8, 0x63u8, 0x30u8, 0x38u8],
        IconFormats::IC09 => seq![0x69u8, 0x63u8, 0x30u8, 0x39u8],
        IconFormats::IC10 => seq![0x69u8, 0x63u8, 0x31u8, 0x30u8],
        IconFormats::IC11 => seq![0x69u8, 0x63u8, 0x31u8, 0x31u8],
        IconFormats::IC12 => seq![0x69u8, 0x63u8, 0x31u8, 0x32u8],
        IconFormats::IC13 => seq![0x69u8, 0x63u8, 0x31u8, 0x33u8],
        IconFormats::IC14 => seq![0x69u8, 0x63u8, 0x31u8, 0x34u8],
        IconFormats::ICP4 => seq![0x69u8, 0x63u8, 0x70u8, 0x34u8],
        IconFormats::ICP5 => seq![0x69u8, 0x63u8, 0x70u8, 0x35u8],
        IconFormats::ICP6 => seq![0x69u8, 0x63u8, 0x70u8, 0x36u8],
    }
}

/// The recommended subset of the catalog, in order: every variant but
/// the three "icp" PNG variants.
pub open spec fn recommended_seq() -> Seq<IconFormats> {
    seq![
        IconFormats::IS32,
        IconFormats::IL32,
        IconFormats::IH32,
        IconFormats::IT32,
        IconFormats::S8MK,
        IconFormats::L8MK,
        IconFormats::H8MK,
        IconFormats::T8MK,
        IconFormats::IC04,
        IconFormats::IC05,
        IconFormats::IC07,
        IconFormats::IC08,
        IconFormats::IC09,
        IconFormats::IC10,
        IconFormats::IC11,
        IconFormats::IC12,
        IconFormats::IC13,
        IconFormats::IC14,
    ]
}

/// Every side length in the catalog lies between 16 and 1024 pixels.
pub proof fn lemma_size_bounds(f: IconFormats)
    ensures
        16 <= size_of(f) <= 1024,
{
}

impl IconFormats {
    /// The recommended set of variants to bundle, in catalog order.
    pub fn recommended() -> (r: Vec<IconFormats>)
        ensures
            r@ == recommended_seq(),
    {
        let mut r: Vec<IconFormats> = Vec::new();
        r.push(IconFormats::IS32);
        r.push(IconFormats::IL32);
        r.push(IconFormats::IH32);
        r.push(IconFormats::IT32);
        r.push(IconFormats::S8MK);
        r.push(IconFormats::L8MK);
        r.push(IconFormats::H8MK);
        r.push(IconFormats::T8MK);
        r.push(IconFormats::IC04);
        r.push(IconFormats::IC05);
        r.push(IconFormats::IC07);
        r.push(IconFormats::IC08);
        r.push(IconFormats::IC09);
        r.push(IconFormats::IC10);
        r.push(IconFormats::IC11);
        r.push(IconFormats::IC12);
        r.push(IconFormats::IC13);
        r.push(IconFormats::IC14);
        proof {
            assert(r@ =~= recommended_seq());
        }
        r
    }

    /// Layout class of this variant.
    pub fn get_format(&self) -> (r: FileFormat)
        ensures
            r == layout_of(*self),
    {
        match self {
            IconFormats::IS32 => FileFormat::RGB,
            IconFormats::IL32 => FileFormat::RGB,
            IconFormats::IH32 => FileFormat::RGB,
            IconFormats::IT32 => FileFormat::RGB,
            IconFormats::S8MK => FileFormat::MASK,
            IconFormats::L8MK => FileFormat::MASK,
            IconFormats::H8MK => FileFormat::MASK,
            IconFormats::T8MK => FileFormat::MASK,
            IconFormats::IC04 => FileFormat::ARGB,
            IconFormats::IC05 => FileFormat::ARGB,
            IconFormats::IC07 => FileFormat::PNG,
            IconFormats::IC08 => FileFormat::PNG,
            IconFormats::IC09 => FileFormat::PNG,
            IconFormats::IC10 => FileFormat::PNG,
            IconFormats::IC11 => FileFormat::PNG,
            IconFormats::IC12 => FileFormat::PNG,
            IconFormats::IC13 => FileFormat::PNG,
            IconFormats::IC14 => FileFormat::PNG,
            IconFormats::ICP4 => FileFormat::PNG,
            IconFormats::ICP5 => FileFormat::PNG,
            IconFormats::ICP6 => FileFormat::PNG,
        }
    }

    /// Square side length of this variant, in pixels.
    pub fn get_size(&self) -> (r: usize)
        ensures
            r == size_of(*self),
    {
        match self {
            IconFormats::IS32 => 16,
            IconFormats::IL32 => 32,
            IconFormats::IH32 => 48,
            IconFormats::IT32 => 128,
            IconFormats::S8MK => 16,
            IconFormats::L8MK => 32,
            IconFormats::H8MK => 48,
            IconFormats::T8MK => 128,
            IconFormats::IC04 => 16,
            IconFormats::IC05 => 32,
            IconFormats::IC07 => 128,
            IconFormats::IC08 => 256,
            IconFormats::IC09 => 512,
            IconFormats::IC10 => 1024,
            IconFormats::IC11 => 32,
            IconFormats::IC12 => 64,
            IconFormats::IC13 => 256,
            IconFormats::IC14 => 512,
            IconFormats::ICP4 => 16,
            IconFormats::ICP5 => 32,
            IconFormats::ICP6 => 64,
        }
    }

    /// Four-byte ASCII tag of this variant.
    pub fn get_bytes(&self) -> (r: [u8; 4])
        ensures
            r@ == tag_of(*self),
    {
        match self {
            IconFormats::IS32 => [0x69, 0x73, 0x33, 0x32],
            IconFormats::IL32 => [0x69, 0x6c, 0x33, 0x32],
            IconFormats::IH32 => [0x69, 0x68, 0x33, 0x32],
            IconFormats::IT32 => [0x69, 0x74, 0x33, 0x32],
            IconFormats::S8MK => [0x73, 0x38, 0x6d, 0x6b],
            IconFormats::L8MK => [0x6c, 0x38, 0x6d, 0x6b],
            IconFormats::H8MK => [0x68, 0x38, 0x6d, 0x6b],
            IconFormats::T8MK => [0x74, 0x38, 0x6d, 0x6b],
            IconFormats::IC04 => [0x69, 0x63, 0x30, 0x34],
            IconFormats::IC05 => [0x69, 0x63, 0x30, 0x35],
            IconFormats::IC07 => [0x69, 0x63, 0x30, 0x37],
            IconFormats::IC08 => [0x69, 0x63, 0x30, 0x38],
            IconFormats::IC09 => [0x69, 0x63, 0x30, 0x39],
            IconFormats::IC10 => [0x69, 0x63, 0x31, 0x30],
            IconFormats::IC11 => [0x69, 0x63, 0x31, 0x31],
            IconFormats::IC12 => [0x69, 0x63, 0x31, 0x32],
            IconFormats::IC13 => [0x69, 0x63, 0x31, 0x33],
            IconFormats::IC14 => [0x69, 0x63, 0x31, 0x34],
            IconFormats::ICP4 => [0x69, 0x63, 0x70, 0x34],
            IconFormats::ICP5 => [0x69, 0x63, 0x70, 0x35],
            IconFormats::ICP6 => [0x69, 0x63, 0x70, 0x36],
        }
    }
}

} // verus!
