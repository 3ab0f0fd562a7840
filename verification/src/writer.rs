//! The output container and the transplant primitive.
//!
//! An [`OutputContainer`] is built incrementally: created with a fixed schema,
//! mutated by appends, and closed exactly once, after which it is immutable.
//! Appending a transplanted row group copies the group's column-chunk
//! payloads verbatim from the source region onto the end of the destination
//! region, in schema-ordinal order, and records chunk metadata identical to
//! the source's except for the byte offsets, which are rewritten to the
//! destination's coordinate space. All offset rewriting lives here, in one
//! place, shared by merge and split.

use vstd::prelude::*;

use crate::error::EngineError;
use crate::footer::{
    chunk_content, chunk_in_bounds, chunk_payload, clone_copy_vec, clone_stats, container_groups,
    group_content, group_in_bounds, schema_view, stats_view, wf_container, wf_group, ChunkContent,
    ChunkMeta, Codec, ColumnStats, ContainerData, ContainerFooter, GroupContent, PageEncoding,
    RowGroupMeta, SchemaColumn,
};

verus! {

/// A byte region that extends another leaves every chunk read out of the
/// common prefix unchanged.
pub proof fn lemma_chunk_content_prefix(a: Seq<u8>, b: Seq<u8>, c: ChunkMeta)
    requires
        a.len() <= b.len(),
        b.subrange(0, a.len() as int) == a,
        chunk_in_bounds(c, a.len() as int),
    ensures
        chunk_content(b, c) == chunk_content(a, c),
{
    assert(chunk_payload(b, c) =~= chunk_payload(a, c)) by {
        assert(forall|k: int| 0 <= k < a.len() ==> a[k] == #[trigger] b[k]) by {
            assert(forall|k: int| 0 <= k < a.len() ==> a[k] == #[trigger] b.subrange(
                0,
                a.len() as int,
            )[k]);
        }
    }
    assert(chunk_content(b, c) =~= chunk_content(a, c));
}

/// A byte region that extends another leaves every row group read out of the
/// common prefix unchanged.
pub proof fn lemma_group_content_prefix(a: Seq<u8>, b: Seq<u8>, g: RowGroupMeta)
    requires
        a.len() <= b.len(),
        b.subrange(0, a.len() as int) == a,
        group_in_bounds(g, a.len() as int),
    ensures
        group_content(b, g) == group_content(a, g),
{
    assert forall|j: int| 0 <= j < g.chunks@.len() implies chunk_content(
        b,
        #[trigger] g.chunks@[j],
    ) == chunk_content(a, g.chunks@[j]) by {
        lemma_chunk_content_prefix(a, b, g.chunks@[j]);
    }
    assert(group_content(b, g).chunks =~= group_content(a, g).chunks);
}

/// Append the byte range `[offset, offset + length)` of `src` to `dst`,
/// unchanged.
#[verifier::loop_isolation(false)]
fn append_range(dst: &mut Vec<u8>, src: &Vec<u8>, offset: usize, length: usize)
    requires
        offset + length <= src@.len(),
    ensures
        final(dst)@ == old(dst)@ + src@.subrange(offset as int, offset + length),
{
    let n = src.len();
    assert(offset + length <= n);
    let mut i: usize = 0;
    while i < length
        invariant
            i <= length,
            dst@ == old(dst)@ + src@.subrange(offset as int, offset + i),
        decreases length - i,
    {
        let b = src[offset + i];
        dst.push(b);
        proof {
            assert(src@.subrange(offset as int, offset + i + 1) =~= src@.subrange(
                offset as int,
                offset + i,
            ).push(src@[offset + i]));
            assert(dst@ =~= old(dst)@ + src@.subrange(offset as int, offset + i + 1));
        }
        i += 1;
    }
}

/// Transplant one row group: copy its chunk payloads, in order, onto the end
/// of `bytes`, and return metadata identical to the source group's except for
/// the rewritten offsets. The destination's existing bytes are untouched.
#[verifier::loop_isolation(false)]
fn transplant_group(bytes: &mut Vec<u8>, src: &ContainerData, idx: usize) -> (ng: RowGroupMeta)
    requires
        wf_container(*src),
        idx < src.footer.groups@.len(),
    ensures
        final(bytes)@.len() >= old(bytes)@.len(),
        final(bytes)@.subrange(0, old(bytes)@.len() as int) == old(bytes)@,
        group_in_bounds(ng, final(bytes)@.len() as int),
        wf_group(ng, src.footer.schema@.len() as int),
        group_content(final(bytes)@, ng) == group_content(
            src.bytes@,
            src.footer.groups@[idx as int],
        ),
{
    let g = &src.footer.groups[idx];
    let mut chunks: Vec<ChunkMeta> = Vec::new();
    let mut j: usize = 0;
    while j < g.chunks.len()
        invariant
            j <= g.chunks@.len(),
            chunks@.len() == j,
            bytes@.len() >= old(bytes)@.len(),
            bytes@.subrange(0, old(bytes)@.len() as int) == old(bytes)@,
            forall|k: int| 0 <= k < j ==> chunk_in_bounds(#[trigger] chunks@[k], bytes@.len() as int),
            forall|k: int| 0 <= k < j ==> chunk_content(bytes@, #[trigger] chunks@[k])
                == chunk_content(src.bytes@, g.chunks@[k]),
            forall|k: int| 0 <= k < j ==> (#[trigger] chunks@[k]).rows == g.chunks@[k].rows,
        decreases g.chunks@.len() - j,
    {
        let c = &g.chunks[j];
        assert(chunk_in_bounds(*c, src.bytes@.len() as int));
        let new_off = bytes.len();
        let ghost pre = bytes@;
        append_range(bytes, &src.bytes, c.offset, c.length);
        let nc = ChunkMeta {
            offset: new_off,
            length: c.length,
            uncompressed: c.uncompressed,
            codec: c.codec,
            encodings: clone_copy_vec(&c.encodings),
            rows: c.rows,
            stats: clone_stats(&c.stats),
        };
        proof {
            assert(bytes@.subrange(0, pre.len() as int) =~= pre);
            assert(bytes@.subrange(0, old(bytes)@.len() as int) =~= old(bytes)@);
            assert forall|k: int| 0 <= k < j implies chunk_content(bytes@, #[trigger] chunks@[k])
                == chunk_content(pre, chunks@[k]) by {
                lemma_chunk_content_prefix(pre, bytes@, chunks@[k]);
            }
            assert(chunk_payload(bytes@, nc) =~= chunk_payload(src.bytes@, g.chunks@[j as int]));
            assert(chunk_content(bytes@, nc) =~= chunk_content(src.bytes@, g.chunks@[j as int]));
        }
        chunks.push(nc);
        j += 1;
    }
    let ng = RowGroupMeta { rows: g.rows, chunks };
    proof {
        assert(group_content(bytes@, ng).chunks =~= group_content(
            src.bytes@,
            src.footer.groups@[idx as int],
        ).chunks);
        assert(group_content(bytes@, ng) =~= group_content(
            src.bytes@,
            src.footer.groups@[idx as int],
        ));
        assert(wf_group(src.footer.groups@[idx as int], src.footer.schema@.len() as int));
    }
    ng
}

/// Place one freshly encoded row group: copy each column's encoded payload,
/// in order, onto the end of `bytes`, and return metadata pointing at the
/// copies. The destination's existing bytes are untouched.
#[verifier::loop_isolation(false)]
fn place_encoded_group(bytes: &mut Vec<u8>, rows: u64, chunks: &Vec<EncodedChunk>) -> (ng:
    RowGroupMeta)
    ensures
        final(bytes)@.len() >= old(bytes)@.len(),
        final(bytes)@.subrange(0, old(bytes)@.len() as int) == old(bytes)@,
        group_in_bounds(ng, final(bytes)@.len() as int),
        wf_group(ng, chunks@.len() as int),
        group_content(final(bytes)@, ng) == encoded_group_content(rows, chunks@),
{
    let mut metas: Vec<ChunkMeta> = Vec::new();
    let mut j: usize = 0;
    while j < chunks.len()
        invariant
            j <= chunks@.len(),
            metas@.len() == j,
            bytes@.len() >= old(bytes)@.len(),
            bytes@.subrange(0, old(bytes)@.len() as int) == old(bytes)@,
            forall|k: int| 0 <= k < j ==> chunk_in_bounds(#[trigger] metas@[k], bytes@.len() as int),
            forall|k: int| 0 <= k < j ==> chunk_content(bytes@, #[trigger] metas@[k])
                == encoded_chunk_content(rows, chunks@[k]),
            forall|k: int| 0 <= k < j ==> (#[trigger] metas@[k]).rows == rows,
        decreases chunks@.len() - j,
    {
        let c = &chunks[j];
        let new_off = bytes.len();
        let ghost pre = bytes@;
        append_range(bytes, &c.payload, 0, c.payload.len());
        let nc = ChunkMeta {
            offset: new_off,
            length: c.payload.len(),
            uncompressed: c.uncompressed,
            codec: c.codec,
            encodings: clone_copy_vec(&c.encodings),
            rows,
            stats: clone_stats(&c.stats),
        };
        proof {
            assert(bytes@.subrange(0, pre.len() as int) =~= pre);
            assert(bytes@.subrange(0, old(bytes)@.len() as int) =~= old(bytes)@);
            assert forall|k: int| 0 <= k < j implies chunk_content(bytes@, #[trigger] metas@[k])
                == chunk_content(pre, metas@[k]) by {
                lemma_chunk_content_prefix(pre, bytes@, metas@[k]);
            }
            assert(chunk_payload(bytes@, nc) =~= c.payload@);
            assert(chunk_content(bytes@, nc) =~= encoded_chunk_content(rows, chunks@[j as int]));
        }
        metas.push(nc);
        j += 1;
    }
    let ng = RowGroupMeta { rows, chunks: metas };
    proof {
        assert(group_content(bytes@, ng).chunks =~= encoded_group_content(rows, chunks@).chunks);
        assert(group_content(bytes@, ng) =~= encoded_group_content(rows, chunks@));
    }
    ng
}

/// One column chunk of a freshly encoded row group, as the configured encoder
/// produced it: the encoded payload bytes and how they were encoded. The
/// encoding itself — compression, page layout — is the encoder's work; the
/// container only places the result.
#[derive(Debug)]
pub struct EncodedChunk {
    pub payload: Vec<u8>,
    pub uncompressed: u64,
    pub codec: Codec,
    pub encodings: Vec<PageEncoding>,
    pub stats: Option<ColumnStats>,
}

pub open spec fn encoded_chunk_content(rows: u64, c: EncodedChunk) -> ChunkContent {
    ChunkContent {
        payload: c.payload@,
        codec: c.codec,
        encodings: c.encodings@,
        uncompressed: c.uncompressed,
        rows: rows,
        stats: stats_view(c.stats),
    }
}

/// The logical content a freshly encoded row group will have once appended.
pub open spec fn encoded_group_content(rows: u64, chunks: Seq<EncodedChunk>) -> GroupContent {
    GroupContent {
        rows,
        chunks: chunks.map_values(|c: EncodedChunk| encoded_chunk_content(rows, c)),
    }
}

/// A destination container under construction: a fixed schema, the byte
/// region assembled so far, and the finalized row-group metadata with
/// destination-relative offsets. Created when the first row group is ready,
/// mutated by appends, closed exactly once; appending to or closing a closed
/// container is a lifecycle error, never ignored.
#[derive(Debug)]
pub struct OutputContainer {
    pub schema: Vec<SchemaColumn>,
    pub bytes: Vec<u8>,
    pub groups: Vec<RowGroupMeta>,
    pub closed: bool,
}

impl OutputContainer {
    /// Every recorded row group is well-formed against the schema and points
    /// inside the assembled byte region.
    pub open spec fn wf(self) -> bool {
        forall|i: int| 0 <= i < self.groups@.len() ==> wf_group(
            #[trigger] self.groups@[i],
            self.schema@.len() as int,
        ) && group_in_bounds(self.groups@[i], self.bytes@.len() as int)
    }

    /// The logical content assembled so far, group by group.
    pub open spec fn content(self) -> Seq<GroupContent> {
        self.groups@.map_values(|g: RowGroupMeta| group_content(self.bytes@, g))
    }

    /// Open a fresh, empty container with the given schema.
    pub fn new(schema: Vec<SchemaColumn>) -> (w: OutputContainer)
        ensures
            w.schema == schema,
            !w.closed,
            w.wf(),
            w.content() == Seq::<GroupContent>::empty(),
            w.groups@.len() == 0,
    {
        let w = OutputContainer { schema, bytes: Vec::new(), groups: Vec::new(), closed: false };
        proof {
            assert(w.content() =~= Seq::<GroupContent>::empty());
        }
        w
    }

    /// Append one transplanted row group from `src`. The group's logical
    /// content is carried over exactly — payload bytes verbatim, codec,
    /// encodings, sizes, row count and statistics copied, offsets rewritten —
    /// and everything appended earlier is left untouched. Appending to a
    /// closed container fails with `ClosedContainer` and changes nothing.
    pub fn append_transplanted(&mut self, src: &ContainerData, idx: usize) -> (r: Result<
        (),
        EngineError,
    >)
        requires
            wf_container(*src),
            idx < src.footer.groups@.len(),
            old(self).wf(),
            schema_view(old(self).schema@) == schema_view(src.footer.schema@),
        ensures
            final(self).closed == old(self).closed,
            final(self).schema == old(self).schema,
            old(self).closed ==> (r matches Err(EngineError::ClosedContainer))
                && final(self).bytes@ == old(self).bytes@
                && final(self).groups@ == old(self).groups@,
            !old(self).closed ==> {
                &&& r is Ok
                &&& final(self).wf()
                &&& final(self).groups@.len() == old(self).groups@.len() + 1
                &&& final(self).content() == old(self).content().push(
                    group_content(src.bytes@, src.footer.groups@[idx as int]),
                )
            },
    {
        if self.closed {
            return Err(EngineError::ClosedContainer);
        }
        let ghost pre = *self;
        let ng = transplant_group(&mut self.bytes, src, idx);
        proof {
            assert forall|k: int| 0 <= k < pre.groups@.len() implies group_content(
                self.bytes@,
                #[trigger] pre.groups@[k],
            ) == group_content(pre.bytes@, pre.groups@[k]) by {
                lemma_group_content_prefix(pre.bytes@, self.bytes@, pre.groups@[k]);
            }
        }
        self.groups.push(ng);
        proof {
            assert(self.content() =~= pre.content().push(
                group_content(src.bytes@, src.footer.groups@[idx as int]),
            ));
            assert forall|i: int| 0 <= i < self.groups@.len() implies wf_group(
                #[trigger] self.groups@[i],
                self.schema@.len() as int,
            ) && group_in_bounds(self.groups@[i], self.bytes@.len() as int) by {
                if i < pre.groups@.len() {
                    assert(wf_group(pre.groups@[i], pre.schema@.len() as int));
                    assert(group_in_bounds(pre.groups@[i], pre.bytes@.len() as int));
                } else {
                    assert(schema_view(self.schema@).len() == schema_view(
                        src.footer.schema@,
                    ).len());
                }
            }
        }
        Ok(())
    }

    /// Append one freshly encoded row group: place each column's encoded
    /// payload, in schema-ordinal order, at the end of the byte region, and
    /// record chunk metadata pointing at it. The encoder's output is taken as
    /// given; the container contributes the offsets. Appending to a closed
    /// container fails with `ClosedContainer` and changes nothing.
    pub fn append_encoded(&mut self, rows: u64, chunks: &Vec<EncodedChunk>) -> (r: Result<
        (),
        EngineError,
    >)
        requires
            old(self).wf(),
            chunks@.len() == old(self).schema@.len(),
        ensures
            final(self).closed == old(self).closed,
            final(self).schema == old(self).schema,
            old(self).closed ==> (r matches Err(EngineError::ClosedContainer))
                && final(self).bytes@ == old(self).bytes@
                && final(self).groups@ == old(self).groups@,
            !old(self).closed ==> {
                &&& r is Ok
                &&& final(self).wf()
                &&& final(self).groups@.len() == old(self).groups@.len() + 1
                &&& final(self).content() == old(self).content().push(
                    encoded_group_content(rows, chunks@),
                )
            },
    {
        if self.closed {
            return Err(EngineError::ClosedContainer);
        }
        let ghost pre = *self;
        let ng = place_encoded_group(&mut self.bytes, rows, chunks);
        proof {
            assert forall|k: int| 0 <= k < pre.groups@.len() implies group_content(
                self.bytes@,
                #[trigger] pre.groups@[k],
            ) == group_content(pre.bytes@, pre.groups@[k]) by {
                lemma_group_content_prefix(pre.bytes@, self.bytes@, pre.groups@[k]);
            }
        }
        self.groups.push(ng);
        proof {
            assert(self.content() =~= pre.content().push(encoded_group_content(rows, chunks@)));
            assert forall|i: int| 0 <= i < self.groups@.len() implies wf_group(
                #[trigger] self.groups@[i],
                self.schema@.len() as int,
            ) && group_in_bounds(self.groups@[i], self.bytes@.len() as int) by {
                if i < pre.groups@.len() {
                    assert(wf_group(pre.groups@[i], pre.schema@.len() as int));
                    assert(group_in_bounds(pre.groups@[i], pre.bytes@.len() as int));
                }
            }
        }
        Ok(())
    }

    /// Finalize the container. A second close fails with `ClosedContainer`;
    /// nothing else changes either way.
    pub fn close(&mut self) -> (r: Result<(), EngineError>)
        ensures
            final(self).schema == old(self).schema,
            final(self).bytes@ == old(self).bytes@,
            final(self).groups@ == old(self).groups@,
            final(self).content() == old(self).content(),
            old(self).closed ==> (r matches Err(EngineError::ClosedContainer)) && final(self).closed,
            !old(self).closed ==> r is Ok && final(self).closed,
    {
        if self.closed {
            return Err(EngineError::ClosedContainer);
        }
        self.closed = true;
        proof {
            assert(self.content() =~= old(self).content());
        }
        Ok(())
    }

    /// Turn a closed container into the immutable container it assembled.
    pub fn into_data(self) -> (r: ContainerData)
        requires
            self.closed,
            self.wf(),
        ensures
            wf_container(r),
            r.footer.schema@ == self.schema@,
            r.footer.groups@ == self.groups@,
            container_groups(r) == self.content(),
    {
        let r = ContainerData {
            bytes: self.bytes,
            footer: ContainerFooter { schema: self.schema, groups: self.groups },
        };
        proof {
            assert(container_groups(r) =~= self.content());
        }
        r
    }
}

} // verus!
