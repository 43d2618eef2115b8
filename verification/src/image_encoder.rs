//! The per-variant encoder: scales the source to a variant's size and
//! emits that variant's payload (planar RGB, ARGB, mask, or PNG), then
//! wraps it in a tagged chunk.

use crate::icns_format::IcnsDataEntry;
use crate::image_support::default_image;
use crate::image_support::filter_type_of;
use crate::image_support::resized_la_bytes;
use crate::image_support::resized_png_bytes;
use crate::image_support::resized_rgb_bytes;
use crate::image_support::resized_rgba_bytes;
use crate::image_types::layout_of;
use crate::image_types::lemma_size_bounds;
use crate::image_types::size_of;
use crate::image_types::tag_of;
use crate::image_types::FileFormat;
use crate::image_types::IconFormats;
use crate::packbits::compress;
use crate::packbits::lemma_decode_concat;
use crate::packbits::lemma_round_trip;
use crate::packbits::pb_decode;
use crate::packbits::pb_encode;
use crate::IcnsError;
use vstd::prelude::*;

verus! {

/// Resize filter used when scaling the source to a variant's size;
/// nearest neighbor is the default.
#[derive(Debug, PartialEq, Eq, Structural, Clone, Copy)]
pub enum FilterKind {
    Nearest,
    Triangle,
    CatmullRom,
    Gaussian,
    Lanczos3,
}

/// One channel plane of interleaved pixel bytes: every `stride`-th byte
/// of `s`, starting at `offset`.
pub open spec fn plane(s: Seq<u8>, stride: int, offset: int) -> Seq<u8>
    recommends
        1 <= stride,
        0 <= offset < stride,
{
    Seq::new((s.len() as int / stride) as nat, |i: int| s[stride * i + offset])
}

/// Payload of a planar-RGB chunk built from interleaved RGB bytes: an
/// optional four-byte zero prefix, then the red, green and blue planes,
/// each compressed independently.
pub open spec fn rgb_payload_spec(rgb: Seq<u8>, with_prefix: bool) -> Seq<u8> {
    (if with_prefix {
        seq![0u8, 0u8, 0u8, 0u8]
    } else {
        Seq::empty()
    }) + pb_encode(plane(rgb, 3, 0)) + pb_encode(plane(rgb, 3, 1)) + pb_encode(plane(rgb, 3, 2))
}

/// Payload of an ARGB chunk built from interleaved RGBA bytes: the
/// literal tag "ARGB", then the alpha, red, green and blue planes, each
/// compressed independently.
pub open spec fn argb_payload_spec(rgba: Seq<u8>) -> Seq<u8> {
    seq![0x41u8, 0x52u8, 0x47u8, 0x42u8] + pb_encode(plane(rgba, 4, 3)) + pb_encode(
        plane(rgba, 4, 0),
    ) + pb_encode(plane(rgba, 4, 1)) + pb_encode(plane(rgba, 4, 2))
}

/// Payload of a mask chunk built from interleaved luminance-alpha
/// bytes: the alpha plane verbatim, uncompressed.
pub open spec fn mask_payload_spec(la: Seq<u8>) -> Seq<u8> {
    plane(la, 2, 1)
}

/// Collects one channel plane out of interleaved pixel bytes.
pub fn extract_plane(data: &Vec<u8>, stride: usize, offset: usize) -> (r: Vec<u8>)
    requires
        1 <= stride,
        offset < stride,
    ensures
        r@ == plane(data@, stride as int, offset as int),
{
    let ghost s = data@;
    let ghost p = plane(data@, stride as int, offset as int);
    let dlen = data.len();
    let n = dlen / stride;
    let mut r: Vec<u8> = Vec::new();
    let mut i: usize = 0;
    while i < n
        invariant
            i <= n,
            s == data@,
            p == plane(s, stride as int, offset as int),
            dlen == s.len(),
            n == s.len() as int / stride as int,
            1 <= stride,
            offset < stride,
            r@ == p.subrange(0, i as int),
        decreases n - i,
    {
        proof {
            assert((stride as int) * (i as int) + (offset as int) < dlen as int)
                by (nonlinear_arith)
                requires
                    0 <= i < n,
                    n == dlen as int / stride as int,
                    1 <= stride as int,
                    0 <= offset as int,
                    (offset as int) < (stride as int),
            ;
        }
        r.push(data[stride * i + offset]);
        i += 1;
        proof {
            assert(r@ =~= p.subrange(0, i as int));
        }
    }
    proof {
        assert(p.subrange(0, n as int) =~= p);
    }
    r
}

/// Appends all of `src` to `dst`.
fn push_all(dst: &mut Vec<u8>, src: &Vec<u8>)
    ensures
        final(dst)@ == old(dst)@ + src@,
{
    let mut j: usize = 0;
    while j < src.len()
        invariant
            j <= src@.len(),
            dst@ == old(dst)@ + src@.subrange(0, j as int),
        decreases src@.len() - j,
    {
        dst.push(src[j]);
        j += 1;
        proof {
            assert(dst@ =~= old(dst)@ + src@.subrange(0, j as int));
        }
    }
    proof {
        assert(old(dst)@ + src@.subrange(0, src@.len() as int) =~= old(dst)@ + src@);
    }
}

/// Builds the planar-RGB payload from interleaved RGB bytes; the flag
/// adds the four zero bytes of the 128-pixel RGB variant.
pub fn rgb_payload(rgb: &Vec<u8>, with_prefix: bool) -> (r: Vec<u8>)
    ensures
        r@ == rgb_payload_spec(rgb@, with_prefix),
{
    let mut out: Vec<u8> = Vec::new();
    if with_prefix {
        out.push(0);
        out.push(0);
        out.push(0);
        out.push(0);
    }
    let ghost prefix = out@;
    let red = extract_plane(rgb, 3, 0);
    let enc_red = compress(&red);
    push_all(&mut out, &enc_red);
    let green = extract_plane(rgb, 3, 1);
    let enc_green = compress(&green);
    push_all(&mut out, &enc_green);
    let blue = extract_plane(rgb, 3, 2);
    let enc_blue = compress(&blue);
    push_all(&mut out, &enc_blue);
    proof {
        if with_prefix {
            assert(prefix =~= seq![0u8, 0u8, 0u8, 0u8]);
        } else {
            assert(prefix =~= Seq::<u8>::empty());
        }
        assert(out@ =~= rgb_payload_spec(rgb@, with_prefix));
    }
    out
}

/// Builds the ARGB payload from interleaved RGBA bytes.
pub fn argb_payload(rgba: &Vec<u8>) -> (r: Vec<u8>)
    ensures
        r@ == argb_payload_spec(rgba@),
{
    let mut out: Vec<u8> = Vec::new();
    out.push(0x41);
    out.push(0x52);
    out.push(0x47);
    out.push(0x42);
    let ghost prefix = out@;
    let alpha = extract_plane(rgba, 4, 3);
    let enc_alpha = compress(&alpha);
    push_all(&mut out, &enc_alpha);
    let red = extract_plane(rgba, 4, 0);
    let enc_red = compress(&red);
    push_all(&mut out, &enc_red);
    let green = extract_plane(rgba, 4, 1);
    let enc_green = compress(&green);
    push_all(&mut out, &enc_green);
    let blue = extract_plane(rgba, 4, 2);
    let enc_blue = compress(&blue);
    push_all(&mut out, &enc_blue);
    proof {
        assert(prefix =~= seq![0x41u8, 0x52u8, 0x47u8, 0x42u8]);
        assert(out@ =~= argb_payload_spec(rgba@));
    }
    out
}

/// Builds the mask payload from interleaved luminance-alpha bytes: the
/// alpha plane, uncompressed.
pub fn mask_payload(la: &Vec<u8>) -> (r: Vec<u8>)
    ensures
        r@ == mask_payload_spec(la@),
{
    extract_plane(la, 2, 1)
}

/// What a chunk payload for variant `fmt` looks like, by layout class:
/// a planar-RGB or ARGB payload over the variant's pixel count, a mask
/// of exactly `side * side` bytes, or a delegated PNG stream.
pub open spec fn payload_ok(fmt: IconFormats, payload: Seq<u8>) -> bool {
    match layout_of(fmt) {
        FileFormat::RGB => exists|rgb: Seq<u8>|
            rgb.len() == 3 * size_of(fmt) * size_of(fmt) && payload == rgb_payload_spec(
                rgb,
                fmt == IconFormats::IT32,
            ),
        FileFormat::ARGB => exists|rgba: Seq<u8>|
            rgba.len() == 4 * size_of(fmt) * size_of(fmt) && payload == argb_payload_spec(rgba),
        FileFormat::MASK => payload.len() == size_of(fmt) * size_of(fmt),
        FileFormat::PNG => true,
    }
}

/// Builds one variant's payload and tagged chunk from a source surface,
/// resizing the surface to the variant's square size first.
pub struct ImageBuilder {
    pub format: IconFormats,
    pub data: image::DynamicImage,
    pub filter: FilterKind,
}

impl ImageBuilder {
    /// A builder with the default one-by-one source, the 16-pixel RGB
    /// variant, and nearest-neighbor resizing.
    pub fn new() -> (r: Self)
        ensures
            r.format == IconFormats::IS32,
            r.filter == FilterKind::Nearest,
    {
        Self { format: IconFormats::IS32, data: default_image(), filter: FilterKind::Nearest }
    }

    /// Selects the variant to produce.
    pub fn format(&mut self, format: IconFormats)
        ensures
            final(self).format == format,
            final(self).data == old(self).data,
            final(self).filter == old(self).filter,
    {
        self.format = format;
    }

    /// Sets the source surface.
    pub fn data(&mut self, data: image::DynamicImage)
        ensures
            final(self).format == old(self).format,
            final(self).data == data,
            final(self).filter == old(self).filter,
    {
        self.data = data;
    }

    /// Sets the resize filter.
    pub fn filter(&mut self, filter: FilterKind)
        ensures
            final(self).format == old(self).format,
            final(self).data == old(self).data,
            final(self).filter == filter,
    {
        self.filter = filter;
    }

    /// Encodes the planar-RGB payload for the current variant; never
    /// fails.
    pub fn rgb_image(&self) -> (r: Result<Vec<u8>, IcnsError>)
        ensures
            r is Ok,
            match r {
                Ok(v) => exists|rgb: Seq<u8>|
                    rgb.len() == 3 * size_of(self.format) * size_of(self.format) && v@
                        == rgb_payload_spec(rgb, self.format == IconFormats::IT32),
                Err(_) => false,
            },
    {
        proof {
            lemma_size_bounds(self.format);
        }
        let side = self.format.get_size();
        let bytes = resized_rgb_bytes(&self.data, side as u32, filter_type_of(self.filter));
        let with_prefix = self.format == IconFormats::IT32;
        let out = rgb_payload(&bytes, with_prefix);
        proof {
            assert(bytes@.len() == 3 * size_of(self.format) * size_of(self.format) && out@
                == rgb_payload_spec(bytes@, self.format == IconFormats::IT32));
        }
        Ok(out)
    }

    /// Encodes the ARGB payload for the current variant; never fails.
    pub fn argb_image(&self) -> (r: Result<Vec<u8>, IcnsError>)
        ensures
            r is Ok,
            match r {
                Ok(v) => exists|rgba: Seq<u8>|
                    rgba.len() == 4 * size_of(self.format) * size_of(self.format) && v@
                        == argb_payload_spec(rgba),
                Err(_) => false,
            },
    {
        proof {
            lemma_size_bounds(self.format);
        }
        let side = self.format.get_size();
        let bytes = resized_rgba_bytes(&self.data, side as u32, filter_type_of(self.filter));
        let out = argb_payload(&bytes);
        proof {
            assert(bytes@.len() == 4 * size_of(self.format) * size_of(self.format) && out@
                == argb_payload_spec(bytes@));
        }
        Ok(out)
    }

    /// Emits the alpha plane of the resized surface, uncompressed:
    /// exactly `side * side` bytes.  Never fails.
    pub fn mask_image(&self) -> (r: Result<Vec<u8>, IcnsError>)
        ensures
            r is Ok,
            match r {
                Ok(v) => v@.len() == size_of(self.format) * size_of(self.format),
                Err(_) => false,
            },
    {
        proof {
            lemma_size_bounds(self.format);
        }
        let side = self.format.get_size();
        let bytes = resized_la_bytes(&self.data, side as u32, filter_type_of(self.filter));
        let out = mask_payload(&bytes);
        proof {
            let sd = size_of(self.format);
            assert(bytes@.len() as int / 2 == sd * sd) by (nonlinear_arith)
                requires
                    bytes@.len() == 2 * sd * sd,
                    0 <= sd,
            ;
        }
        Ok(out)
    }

    /// Encodes the resized surface as a PNG stream by delegation; on
    /// failure the error carries the delegate's message.
    pub fn png_image(&self) -> (r: Result<Vec<u8>, IcnsError>)
        ensures
            match r {
                Ok(_) => true,
                Err(e) => e matches IcnsError::PngEncodeFailed(_),
            },
    {
        proof {
            lemma_size_bounds(self.format);
            let sd = size_of(self.format);
            assert(4 * sd * sd <= usize::MAX) by (nonlinear_arith)
                requires
                    16 <= sd <= 1024,
            ;
        }
        let side = self.format.get_size();
        match resized_png_bytes(&self.data, side as u32, filter_type_of(self.filter)) {
            Ok(v) => Ok(v),
            Err(detail) => Err(IcnsError::PngEncodeFailed(detail)),
        }
    }

    /// Produces the tagged chunk for the current variant: the payload
    /// for its layout class, wrapped under its four-byte tag.  Only PNG
    /// variants can fail.
    pub fn build(&self) -> (r: Result<IcnsDataEntry, IcnsError>)
        ensures
            match r {
                Ok(entry) => entry.os_type@ == tag_of(self.format) && payload_ok(
                    self.format,
                    entry.data@,
                ),
                Err(e) => layout_of(self.format) == FileFormat::PNG && e
                    matches IcnsError::PngEncodeFailed(_),
            },
            layout_of(self.format) != FileFormat::PNG ==> r is Ok,
    {
        let data = match self.format.get_format() {
            FileFormat::RGB => self.rgb_image(),
            FileFormat::ARGB => self.argb_image(),
            FileFormat::MASK => self.mask_image(),
            FileFormat::PNG => self.png_image(),
        };
        match data {
            Ok(v) => Ok(IcnsDataEntry::new(self.format.get_bytes(), v)),
            Err(e) => Err(e),
        }
    }
}

/// For a planar-RGB payload over `3 * side * side` interleaved bytes,
/// each of the three packed planes decodes back to exactly the plane it
/// came from, `side * side` bytes per channel.
pub proof fn lemma_rgb_planes_decode(rgb: Seq<u8>, side: int)
    requires
        0 <= side,
        rgb.len() == 3 * side * side,
    ensures
        forall|c: int|
            0 <= c < 3 ==> pb_decode(pb_encode(#[trigger] plane(rgb, 3, c))) == Some(
                plane(rgb, 3, c),
            ),
        forall|c: int| 0 <= c < 3 ==> (#[trigger] plane(rgb, 3, c)).len() == side * side,
{
    assert(rgb.len() as int / 3 == side * side) by (nonlinear_arith)
        requires
            rgb.len() == 3 * side * side,
            0 <= side,
    ;
    assert forall|c: int| 0 <= c < 3 implies pb_decode(pb_encode(#[trigger] plane(rgb, 3, c)))
        == Some(plane(rgb, 3, c)) by {
        lemma_round_trip(plane(rgb, 3, c));
    }
}

/// Invariant of planar-RGB chunks: everything after the optional
/// four-byte prefix decompresses in one pass to the three planes back
/// to back, exactly `3 * side * side` bytes.
pub proof fn lemma_rgb_payload_decodes(rgb: Seq<u8>, side: int, with_prefix: bool)
    requires
        0 <= side,
        rgb.len() == 3 * side * side,
    ensures
        pb_decode(rgb_payload_spec(rgb, with_prefix).skip(
            if with_prefix {
                4
            } else {
                0
            },
        )) == Some(plane(rgb, 3, 0) + plane(rgb, 3, 1) + plane(rgb, 3, 2)),
        (plane(rgb, 3, 0) + plane(rgb, 3, 1) + plane(rgb, 3, 2)).len() == 3 * side * side,
{
    lemma_rgb_planes_decode(rgb, side);
    let p0 = plane(rgb, 3, 0);
    let p1 = plane(rgb, 3, 1);
    let p2 = plane(rgb, 3, 2);
    assert(p0.len() == side * side && p1.len() == side * side && p2.len() == side * side);
    assert(3 * (side * side) == 3 * side * side) by (nonlinear_arith);
    lemma_decode_concat(pb_encode(p1), pb_encode(p2));
    lemma_decode_concat(pb_encode(p0), pb_encode(p1) + pb_encode(p2));
    assert(pb_encode(p0) + (pb_encode(p1) + pb_encode(p2)) =~= pb_encode(p0) + pb_encode(p1)
        + pb_encode(p2));
    assert(p0 + (p1 + p2) =~= p0 + p1 + p2);
    assert(rgb_payload_spec(rgb, with_prefix).skip(
        if with_prefix {
            4
        } else {
            0
        },
    ) =~= pb_encode(p0) + pb_encode(p1) + pb_encode(p2));
}

/// Invariant of ARGB chunks: everything after the literal "ARGB" tag
/// decompresses in one pass to the alpha, red, green and blue planes
/// back to back, exactly `4 * side * side` bytes.
pub proof fn lemma_argb_payload_decodes(rgba: Seq<u8>, side: int)
    requires
        0 <= side,
        rgba.len() == 4 * side * side,
    ensures
        pb_decode(argb_payload_spec(rgba).skip(4)) == Some(
            plane(rgba, 4, 3) + plane(rgba, 4, 0) + plane(rgba, 4, 1) + plane(rgba, 4, 2),
        ),
        (plane(rgba, 4, 3) + plane(rgba, 4, 0) + plane(rgba, 4, 1) + plane(rgba, 4, 2)).len() == 4
            * side * side,
{
    assert(rgba.len() as int / 4 == side * side && side * side >= 0) by (nonlinear_arith)
        requires
            rgba.len() == 4 * side * side,
            0 <= side,
    ;
    assert(4 * (side * side) == 4 * side * side) by (nonlinear_arith);
    let pa = plane(rgba, 4, 3);
    let pr = plane(rgba, 4, 0);
    let pg = plane(rgba, 4, 1);
    let pb = plane(rgba, 4, 2);
    lemma_round_trip(pa);
    lemma_round_trip(pr);
    lemma_round_trip(pg);
    lemma_round_trip(pb);
    lemma_decode_concat(pb_encode(pg), pb_encode(pb));
    lemma_decode_concat(pb_encode(pr), pb_encode(pg) + pb_encode(pb));
    lemma_decode_concat(pb_encode(pa), pb_encode(pr) + (pb_encode(pg) + pb_encode(pb)));
    assert(pb_encode(pa) + (pb_encode(pr) + (pb_encode(pg) + pb_encode(pb))) =~= pb_encode(pa)
        + pb_encode(pr) + pb_encode(pg) + pb_encode(pb));
    assert(pa + (pr + (pg + pb)) =~= pa + pr + pg + pb);
    assert(argb_payload_spec(rgba).skip(4) =~= pb_encode(pa) + pb_encode(pr) + pb_encode(pg)
        + pb_encode(pb));
}

} // verus!
