//! Encoder for the Apple Icon Image container format.
//!
//! The crate bundles resized variants of a source raster into a single
//! magic-prefixed, length-framed byte stream of tagged chunks, with a
//! table-of-contents chunk first.  Planar pixel layouts are compressed
//! with a PackBits-like run-length codec.

use vstd::prelude::*;

pub mod icns_format;
pub mod image_encoder;
mod image_support;
pub mod image_types;
pub mod packbits;

use crate::icns_format::family_wire;
use crate::icns_format::lemma_wire_size_lower;
use crate::icns_format::lemma_wire_size_nonneg;
use crate::icns_format::total_size;
use crate::icns_format::wire_size_from;
use crate::icns_format::IcnsDataEntry;
use crate::icns_format::IconFamily;
use crate::image_encoder::payload_ok;
use crate::image_encoder::FilterKind;
use crate::image_encoder::ImageBuilder;
use crate::image_support::clone_image;
use crate::image_support::default_image;
use crate::image_types::layout_of;
use crate::image_types::tag_of;
use crate::image_types::FileFormat;
pub use crate::image_types::IconFormats;

verus! {

/// Everything that can go wrong while producing a container.
#[derive(Debug, Clone, PartialEq, Eq)]
pub enum IcnsError {
    /// The delegated PNG encoder rejected the input; the detail string
    /// carries its message.
    PngEncodeFailed(String),
    /// A PackBits stream ended in the middle of a packet.
    TruncatedInput,
    /// A container was requested with no variants at all.
    EmptyVariantList,
    /// The chunks are so large that the total length no longer fits the
    /// 32-bit length field of the envelope.
    ContainerTooLarge,
}

/// The chunks stand for the requested variants, one each, in order:
/// chunk `k` carries variant `k`'s tag and a payload of its layout.
pub open spec fn entries_match(formats: Seq<IconFormats>, entries: Seq<IcnsDataEntry>) -> bool {
    &&& entries.len() == formats.len()
    &&& forall|k: int|
        0 <= k < formats.len() ==> (#[trigger] entries[k]).os_type@ == tag_of(formats[k])
            && payload_ok(formats[k], entries[k].data@)
}

/// The top-level encoder: a source surface and an ordered list of
/// variants, turned into one container byte stream by `build`.
pub struct IcnsEncoder {
    pub data: image::DynamicImage,
    pub formats: Vec<IconFormats>,
    pub filter: FilterKind,
}

impl IcnsEncoder {
    /// A fresh encoder with the default one-by-one source, no variants
    /// requested, and nearest-neighbor resizing.
    pub fn new() -> (r: Self)
        ensures
            r.formats@ == Seq::<IconFormats>::empty(),
            r.filter == FilterKind::Nearest,
    {
        Self { data: default_image(), formats: Vec::new(), filter: FilterKind::Nearest }
    }

    /// Sets the source surface.
    pub fn data(&mut self, data: image::DynamicImage)
        ensures
            final(self).data == data,
            final(self).formats == old(self).formats,
            final(self).filter == old(self).filter,
    {
        self.data = data;
    }

    /// Sets the ordered list of variants to produce.
    pub fn formats(&mut self, formats: Vec<IconFormats>)
        ensures
            final(self).formats@ == formats@,
            final(self).data == old(self).data,
            final(self).filter == old(self).filter,
    {
        self.formats = formats;
    }

    /// Sets the resize filter used for every variant.
    pub fn filter(&mut self, filter: FilterKind)
        ensures
            final(self).filter == filter,
            final(self).data == old(self).data,
            final(self).formats == old(self).formats,
    {
        self.filter = filter;
    }

    /// Encodes the source into a complete container: one chunk per
    /// requested variant, in order, framed with magic, total length and
    /// table of contents.  Rejects an empty variant list; fails only
    /// when the PNG delegate fails or the container would outgrow its
    /// 32-bit length field.
    pub fn build(&self) -> (r: Result<Vec<u8>, IcnsError>)
        ensures
            match r {
                Ok(bytes) => self.formats@.len() > 0 && exists|entries: Seq<IcnsDataEntry>|
                    entries_match(self.formats@, entries) && total_size(entries) <= u32::MAX
                        && bytes@ == family_wire(entries),
                Err(e) => match e {
                    IcnsError::EmptyVariantList => self.formats@.len() == 0,
                    IcnsError::PngEncodeFailed(_) => exists|k: int|
                        0 <= k < self.formats@.len() && layout_of(#[trigger] self.formats@[k])
                            == FileFormat::PNG,
                    IcnsError::ContainerTooLarge => exists|entries: Seq<IcnsDataEntry>|
                        entries_match(self.formats@, entries) && total_size(entries) > u32::MAX,
                    IcnsError::TruncatedInput => false,
                },
            },
            self.formats@.len() == 0 <==> r matches Err(IcnsError::EmptyVariantList),
    {
        let ghost fmts = self.formats@;
        if self.formats.len() == 0 {
            return Err(IcnsError::EmptyVariantList);
        }
        let mut family = IconFamily::new();
        let mut builder = ImageBuilder::new();
        builder.data(clone_image(&self.data));
        builder.filter(self.filter);
        let nf = self.formats.len();
        let mut k: usize = 0;
        while k < nf
            invariant
                k <= nf,
                nf == fmts.len(),
                fmts == self.formats@,
                entries_match(fmts.subrange(0, k as int), family.data@),
            decreases nf - k,
        {
            builder.format(self.formats[k]);
            let ghost before = family.data@;
            match builder.build() {
                Ok(entry) => {
                    family.add_data(entry);
                    proof {
                        let post = fmts.subrange(0, k as int + 1);
                        assert(post.len() == family.data@.len());
                        assert forall|j: int| 0 <= j < post.len() implies (#[trigger] family.data@[j]).os_type@
                            == tag_of(post[j]) && payload_ok(post[j], family.data@[j].data@) by {
                            if j < k as int {
                                assert(family.data@[j] == before[j]);
                                assert(fmts.subrange(0, k as int)[j] == post[j]);
                                assert(before[j].os_type@ == tag_of(post[j]) && payload_ok(
                                    post[j],
                                    before[j].data@,
                                ));
                            } else {
                                assert(family.data@[j] == entry);
                                assert(post[j] == fmts[k as int]);
                            }
                        }
                    }
                    k += 1;
                },
                Err(e) => {
                    proof {
                        assert(layout_of(fmts[k as int]) == FileFormat::PNG);
                    }
                    return Err(e);
                },
            }
        }
        let ghost s = family.data@;
        proof {
            assert(fmts.subrange(0, nf as int) =~= fmts);
            assert(entries_match(fmts, s));
            lemma_wire_size_lower(s, 0);
            lemma_wire_size_nonneg(s, 0);
        }
        let n = family.data.len();
        if n > (u32::MAX / 16) as usize {
            return Err(IcnsError::ContainerTooLarge);
        }
        let mut total: u64 = 8 + 8 * (n as u64);
        let mut k2: usize = 0;
        while k2 < n
            invariant
                k2 <= n,
                n == s.len(),
                s == family.data@,
                fmts == self.formats@,
                entries_match(fmts, s),
                total == 8 + 8 * (s.len() as int) + wire_size_from(s, 0) - wire_size_from(
                    s,
                    k2 as int,
                ),
                total <= u32::MAX,
            decreases n - k2,
        {
            proof {
                lemma_wire_size_nonneg(s, k2 as int + 1);
            }
            let dlen = family.data[k2].data.len();
            if total > (u32::MAX as u64) - 8 {
                return Err(IcnsError::ContainerTooLarge);
            }
            if (dlen as u64) > (u32::MAX as u64) - 8 - total {
                return Err(IcnsError::ContainerTooLarge);
            }
            total = total + 8 + (dlen as u64);
            k2 += 1;
        }
        proof {
            assert(wire_size_from(s, n as int) == 0);
            assert(total == total_size(s));
        }
        let out = family.build();
        proof {
            assert(entries_match(fmts, s) && total_size(s) <= u32::MAX && out@ == family_wire(s));
        }
        Ok(out)
    }
}

} // verus!
