//! The container format: tagged chunks, the table of contents, and the
//! magic-prefixed, length-framed envelope around them.

use vstd::prelude::*;

verus! {

/// The four magic bytes that open every container: "icns".
pub open spec fn magic_seq() -> Seq<u8> {
    seq![0x69u8, 0x63u8, 0x6eu8, 0x73u8]
}

/// The tag of the table-of-contents chunk: "TOC ".
pub open spec fn toc_tag_seq() -> Seq<u8> {
    seq![0x54u8, 0x4fu8, 0x43u8, 0x20u8]
}

/// Big-endian four-byte encoding of `n`.
pub open spec fn be32(n: int) -> Seq<u8> {
    seq![
        ((n / 0x1000000) % 0x100) as u8,
        ((n / 0x10000) % 0x100) as u8,
        ((n / 0x100) % 0x100) as u8,
        (n % 0x100) as u8,
    ]
}

/// Appends the big-endian four-byte form of `n` to `out`.
fn push_be32(out: &mut Vec<u8>, n: u32)
    ensures
        final(out)@ == old(out)@ + be32(n as int),
{
    out.push((n / 0x1000000 % 0x100) as u8);
    out.push((n / 0x10000 % 0x100) as u8);
    out.push((n / 0x100 % 0x100) as u8);
    out.push((n % 0x100) as u8);
    proof {
        assert(out@ =~= old(out)@ + be32(n as int));
    }
}

/// A tagged chunk: a four-byte identifier and the payload it frames.
#[derive(Debug, Clone, PartialEq, Eq)]
pub struct IcnsDataEntry {
    pub os_type: [u8; 4],
    pub data: Vec<u8>,
}

impl IcnsDataEntry {
    /// On-wire length of the chunk: the eight header bytes plus the
    /// payload.
    pub open spec fn wire_len(self) -> int {
        8 + self.data@.len() as int
    }

    /// The chunk as it stands in the container: tag, inclusive
    /// big-endian length, payload.
    pub open spec fn wire(self) -> Seq<u8> {
        self.os_type@ + be32(self.wire_len()) + self.data@
    }

    /// Pairs a tag with its payload.
    pub fn new(os_type: [u8; 4], data: Vec<u8>) -> (r: Self)
        ensures
            r.os_type@ == os_type@,
            r.data@ == data@,
    {
        Self { os_type, data }
    }

    /// On-wire length of the chunk as a 32-bit value.
    pub fn len(&self) -> (r: u32)
        requires
            self.wire_len() <= u32::MAX,
        ensures
            r == self.wire_len(),
    {
        (self.data.len() + 8) as u32
    }

    /// Serializes the chunk: tag, inclusive length, payload.
    pub fn build(&self) -> (r: Vec<u8>)
        requires
            self.wire_len() <= u32::MAX,
        ensures
            r@ == self.wire(),
    {
        let mut out: Vec<u8> = Vec::new();
        out.push(self.os_type[0]);
        out.push(self.os_type[1]);
        out.push(self.os_type[2]);
        out.push(self.os_type[3]);
        let l = self.len();
        push_be32(&mut out, l);
        let ghost head = out@;
        let mut j: usize = 0;
        while j < self.data.len()
            invariant
                j <= self.data@.len(),
                out@ == head + self.data@.subrange(0, j as int),
            decreases self.data@.len() - j,
        {
            out.push(self.data[j]);
            j += 1;
            proof {
                assert(out@ =~= head + self.data@.subrange(0, j as int));
            }
        }
        proof {
            assert(out@ =~= self.wire());
        }
        out
    }
}

/// The table-of-contents payload for the entries from index `k` on: the
/// tag and inclusive on-wire length of each chunk, eight bytes apiece.
pub open spec fn toc_payload_from(entries: Seq<IcnsDataEntry>, k: int) -> Seq<u8>
    decreases entries.len() - k,
{
    if k < 0 || k >= entries.len() {
        Seq::empty()
    } else {
        entries[k].os_type@ + be32(entries[k].wire_len()) + toc_payload_from(entries, k + 1)
    }
}

/// The full table-of-contents payload.
pub open spec fn toc_payload(entries: Seq<IcnsDataEntry>) -> Seq<u8> {
    toc_payload_from(entries, 0)
}

/// The on-wire bytes of the chunks from index `k` on, concatenated.
pub open spec fn chunks_wire_from(entries: Seq<IcnsDataEntry>, k: int) -> Seq<u8>
    decreases entries.len() - k,
{
    if k < 0 || k >= entries.len() {
        Seq::empty()
    } else {
        entries[k].wire() + chunks_wire_from(entries, k + 1)
    }
}

/// Sum of the on-wire chunk lengths from index `k` on.
pub open spec fn wire_size_from(entries: Seq<IcnsDataEntry>, k: int) -> int
    decreases entries.len() - k,
{
    if k < 0 || k >= entries.len() {
        0
    } else {
        entries[k].wire_len() + wire_size_from(entries, k + 1)
    }
}

/// Value of the envelope's total-length field: the on-wire size of the
/// synthesized table of contents plus all chunks.
pub open spec fn total_size(entries: Seq<IcnsDataEntry>) -> int {
    8 + 8 * entries.len() + wire_size_from(entries, 0)
}

/// The synthesized table-of-contents chunk on wire.
pub open spec fn toc_wire(entries: Seq<IcnsDataEntry>) -> Seq<u8> {
    toc_tag_seq() + be32(8 + 8 * entries.len() as int) + toc_payload(entries)
}

/// The complete container for `entries`: magic, total length, table of
/// contents, then the chunks in order.
pub open spec fn family_wire(entries: Seq<IcnsDataEntry>) -> Seq<u8> {
    magic_seq() + be32(total_size(entries)) + toc_wire(entries) + chunks_wire_from(entries, 0)
}

pub(crate) proof fn lemma_wire_size_nonneg(entries: Seq<IcnsDataEntry>, k: int)
    ensures
        wire_size_from(entries, k) >= 0,
    decreases entries.len() - k,
{
    if 0 <= k < entries.len() {
        lemma_wire_size_nonneg(entries, k + 1);
    }
}

/// Each chunk contributes at least its eight header bytes to the sum of
/// on-wire lengths.
pub(crate) proof fn lemma_wire_size_lower(entries: Seq<IcnsDataEntry>, k: int)
    requires
        0 <= k <= entries.len(),
    ensures
        wire_size_from(entries, k) >= 8 * (entries.len() - k),
    decreases entries.len() - k,
{
    if k < entries.len() {
        lemma_wire_size_lower(entries, k + 1);
    }
}

proof fn lemma_toc_payload_len(entries: Seq<IcnsDataEntry>, k: int)
    requires
        0 <= k <= entries.len(),
    ensures
        toc_payload_from(entries, k).len() == 8 * (entries.len() - k),
    decreases entries.len() - k,
{
    if k < entries.len() {
        lemma_toc_payload_len(entries, k + 1);
    }
}

proof fn lemma_chunks_wire_len(entries: Seq<IcnsDataEntry>, k: int)
    requires
        0 <= k <= entries.len(),
    ensures
        chunks_wire_from(entries, k).len() == wire_size_from(entries, k),
    decreases entries.len() - k,
{
    if k < entries.len() {
        lemma_chunks_wire_len(entries, k + 1);
    }
}

/// An ordered family of chunks, assembled into one container byte
/// stream on demand.
#[derive(Debug, Clone, PartialEq, Eq)]
pub struct IconFamily {
    pub data: Vec<IcnsDataEntry>,
}

impl IconFamily {
    /// An empty family.
    pub fn new() -> (r: Self)
        ensures
            r.data@ == Seq::<IcnsDataEntry>::empty(),
    {
        Self { data: Vec::new() }
    }

    /// Appends a chunk; chunks keep their insertion order in the
    /// container.
    pub fn add_data(&mut self, entry: IcnsDataEntry)
        ensures
            final(self).data@ == old(self).data@.push(entry),
    {
        self.data.push(entry);
    }

    /// Synthesizes the table-of-contents chunk: for every chunk of the
    /// family, in order, its tag and inclusive on-wire length.
    pub fn create_contents_table(&self) -> (r: IcnsDataEntry)
        requires
            forall|k: int|
                0 <= k < self.data@.len() ==> (#[trigger] self.data@[k]).wire_len() <= u32::MAX,
        ensures
            r.os_type@ == toc_tag_seq(),
            r.data@ == toc_payload(self.data@),
    {
        let ghost s = self.data@;
        let mut buf: Vec<u8> = Vec::new();
        let n = self.data.len();
        let mut k: usize = 0;
        while k < n
            invariant
                k <= n,
                n == s.len(),
                s == self.data@,
                forall|m: int| 0 <= m < s.len() ==> (#[trigger] s[m]).wire_len() <= u32::MAX,
                buf@ + toc_payload_from(s, k as int) == toc_payload(s),
            decreases n - k,
        {
            let ghost buf0 = buf@;
            let entry = &self.data[k];
            buf.push(entry.os_type[0]);
            buf.push(entry.os_type[1]);
            buf.push(entry.os_type[2]);
            buf.push(entry.os_type[3]);
            let l = entry.len();
            push_be32(&mut buf, l);
            k += 1;
            proof {
                assert(buf@ =~= buf0 + s[k - 1].os_type@ + be32(s[k - 1].wire_len()));
                assert(buf@ + toc_payload_from(s, k as int) =~= buf0 + toc_payload_from(
                    s,
                    k - 1,
                ));
            }
        }
        let r = IcnsDataEntry::new([0x54, 0x4f, 0x43, 0x20], buf);
        proof {
            assert(r.os_type@ =~= toc_tag_seq());
            assert(buf@ + toc_payload_from(s, n as int) =~= buf@);
        }
        r
    }

    /// Serializes the family: magic, total length, the synthesized
    /// table of contents, then every chunk in insertion order.
    pub fn build(&self) -> (r: Vec<u8>)
        requires
            total_size(self.data@) <= u32::MAX,
        ensures
            r@ == family_wire(self.data@),
    {
        let ghost s = self.data@;
        let n = self.data.len();
        proof {
            lemma_wire_size_nonneg(s, 0);
            assert forall|k: int| 0 <= k < s.len() implies (#[trigger] s[k]).wire_len()
                <= u32::MAX by {
                lemma_wire_size_split(s, k);
            }
        }
        // The envelope's total length, accumulated without overflow: it
        // never exceeds the bound the caller guarantees.
        let mut total: u32 = 8 + 8 * (n as u32);
        proof {
            assert(8 * s.len() <= wire_size_from(s, 0) + 8 * s.len());
            assert(8 + 8 * (n as int) <= total_size(s));
        }
        let mut k: usize = 0;
        while k < n
            invariant
                k <= n,
                n == s.len(),
                s == self.data@,
                total == 8 + 8 * s.len() + wire_size_from(s, 0) - wire_size_from(s, k as int),
                total_size(s) <= u32::MAX,
            decreases n - k,
        {
            proof {
                lemma_wire_size_nonneg(s, k as int + 1);
            }
            let l = self.data[k].len();
            total = total + l;
            k += 1;
        }
        proof {
            assert(total == total_size(s));
        }
        let toc = self.create_contents_table();
        proof {
            lemma_toc_payload_len(s, 0);
            assert(toc.wire_len() == 8 + 8 * s.len());
        }
        let mut out: Vec<u8> = Vec::new();
        out.push(0x69);
        out.push(0x63);
        out.push(0x6e);
        out.push(0x73);
        push_be32(&mut out, total);
        let tb = toc.build();
        let ghost head = out@;
        let mut j: usize = 0;
        while j < tb.len()
            invariant
                j <= tb@.len(),
                out@ == head + tb@.subrange(0, j as int),
            decreases tb@.len() - j,
        {
            out.push(tb[j]);
            j += 1;
            proof {
                assert(out@ =~= head + tb@.subrange(0, j as int));
            }
        }
        proof {
            assert(tb@.subrange(0, tb@.len() as int) =~= tb@);
            assert(toc.wire() =~= toc_wire(s));
            assert(out@ =~= magic_seq() + be32(total_size(s)) + toc_wire(s));
        }
        let ghost framed = out@;
        let mut k2: usize = 0;
        while k2 < n
            invariant
                k2 <= n,
                n == s.len(),
                s == self.data@,
                forall|m: int| 0 <= m < s.len() ==> (#[trigger] s[m]).wire_len() <= u32::MAX,
                out@ + chunks_wire_from(s, k2 as int) == framed + chunks_wire_from(s, 0),
            decreases n - k2,
        {
            let ghost out0 = out@;
            let eb = self.data[k2].build();
            let ghost head2 = out@;
            let mut j2: usize = 0;
            while j2 < eb.len()
                invariant
                    j2 <= eb@.len(),
                    out@ == head2 + eb@.subrange(0, j2 as int),
                decreases eb@.len() - j2,
            {
                out.push(eb[j2]);
                j2 += 1;
                proof {
                    assert(out@ =~= head2 + eb@.subrange(0, j2 as int));
                }
            }
            k2 += 1;
            proof {
                assert(eb@.subrange(0, eb@.len() as int) =~= eb@);
                assert(out@ =~= out0 + s[k2 - 1].wire());
                assert(out@ + chunks_wire_from(s, k2 as int) =~= out0 + chunks_wire_from(
                    s,
                    k2 - 1,
                ));
            }
        }
        proof {
            assert(out@ + chunks_wire_from(s, n as int) =~= out@);
            assert(out@ =~= family_wire(s));
        }
        out
    }
}

/// The total-length field at offset 4 of a container equals the number
/// of bytes that follow the eight envelope bytes.
pub proof fn lemma_total_length_field(entries: Seq<IcnsDataEntry>)
    ensures
        family_wire(entries).len() == 8 + total_size(entries),
        family_wire(entries).subrange(4, 8) == be32(total_size(entries)),
{
    lemma_toc_payload_len(entries, 0);
    lemma_chunks_wire_len(entries, 0);
    assert(family_wire(entries).subrange(4, 8) =~= be32(total_size(entries)));
}

proof fn lemma_toc_payload_at(entries: Seq<IcnsDataEntry>, j: int, k: int)
    requires
        0 <= j <= k < entries.len(),
    ensures
        toc_payload_from(entries, j).subrange(8 * (k - j), 8 * (k - j) + 8) == entries[k].os_type@
            + be32(entries[k].wire_len()),
    decreases k - j,
{
    lemma_toc_payload_len(entries, j);
    if j == k {
        assert(toc_payload_from(entries, j).subrange(0, 8) =~= entries[k].os_type@ + be32(
            entries[k].wire_len(),
        ));
    } else {
        lemma_toc_payload_at(entries, j + 1, k);
        lemma_toc_payload_len(entries, j + 1);
        assert(toc_payload_from(entries, j).subrange(8 * (k - j), 8 * (k - j) + 8)
            =~= toc_payload_from(entries, j + 1).subrange(8 * (k - j - 1), 8 * (k - j - 1) + 8));
    }
}

/// Every chunk is listed in the table of contents exactly once, in the
/// order the chunks appear: entry `k`'s tag and on-wire length stand at
/// offset `8 k` of the TOC payload, whose length is eight bytes per
/// chunk.
pub proof fn lemma_toc_lists_chunks(entries: Seq<IcnsDataEntry>, k: int)
    requires
        0 <= k < entries.len(),
    ensures
        toc_payload(entries).len() == 8 * entries.len(),
        toc_payload(entries).subrange(8 * k, 8 * k + 8) == entries[k].os_type@ + be32(
            entries[k].wire_len(),
        ),
{
    lemma_toc_payload_len(entries, 0);
    lemma_toc_payload_at(entries, 0, k);
}

/// Everything after the eight envelope bytes is exactly the on-wire
/// table-of-contents chunk followed by the on-wire chunks in insertion
/// order.
pub proof fn lemma_body_is_chunks(entries: Seq<IcnsDataEntry>)
    ensures
        family_wire(entries).subrange(8, family_wire(entries).len() as int) == toc_wire(entries)
            + chunks_wire_from(entries, 0),
{
    assert(family_wire(entries).subrange(8, family_wire(entries).len() as int) =~= toc_wire(
        entries,
    ) + chunks_wire_from(entries, 0));
}

/// A chunk is self-framed consistently: the length field it declares
/// equals its physical on-wire length, eight header bytes plus the
/// payload.
pub proof fn lemma_chunk_self_framed(entry: IcnsDataEntry)
    ensures
        entry.wire().len() == entry.wire_len(),
        entry.wire().subrange(0, 4) == entry.os_type@,
        entry.wire().subrange(4, 8) == be32(entry.wire_len()),
        entry.wire().subrange(8, entry.wire().len() as int) == entry.data@,
{
    assert(entry.wire().subrange(0, 4) =~= entry.os_type@);
    assert(entry.wire().subrange(4, 8) =~= be32(entry.wire_len()));
    assert(entry.wire().subrange(8, entry.wire().len() as int) =~= entry.data@);
}

/// The sum of on-wire lengths bounds each of its members: splitting the
/// sum at `k` shows chunk `k`'s length is at most the whole.
proof fn lemma_wire_size_split(entries: Seq<IcnsDataEntry>, k: int)
    requires
        0 <= k < entries.len(),
    ensures
        entries[k].wire_len() <= 8 + 8 * entries.len() + wire_size_from(entries, 0),
    decreases k,
{
    lemma_wire_size_nonneg(entries, k + 1);
    if k == 0 {
    } else {
        lemma_wire_size_prefix_step(entries, 0, k);
    }
}

/// Dropping the first summands only shrinks the sum: the tail sum from
/// `k` is at most the sum from `j`.
proof fn lemma_wire_size_prefix_step(entries: Seq<IcnsDataEntry>, j: int, k: int)
    requires
        0 <= j <= k <= entries.len(),
    ensures
        wire_size_from(entries, k) <= wire_size_from(entries, j),
    decreases k - j,
{
    if j < k {
        lemma_wire_size_prefix_step(entries, j + 1, k);
    }
}

} // verus!
