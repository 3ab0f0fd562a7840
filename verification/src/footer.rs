//! The metadata model of a columnar container.
//!
//! A container is described by a footer: an ordered schema of typed, named
//! leaf columns, and an ordered sequence of row groups, each holding one
//! column chunk per schema column. A chunk's byte range is only meaningful
//! relative to the byte region it was read from, so the model pairs a footer
//! with that region in [`ContainerData`].

use vstd::prelude::*;

verus! {

/// The physical type of one leaf column.
#[derive(Clone, Copy, Debug, PartialEq, Eq, Structural)]
pub enum ColumnType {
    Boolean,
    Int32,
    Int64,
    Int96,
    Float32,
    Float64,
    ByteArray,
    FixedLenByteArray(u32),
}

/// The compression codec of one column chunk's payload.
#[derive(Clone, Copy, Debug, PartialEq, Eq, Structural)]
pub enum Codec {
    Uncompressed,
    Snappy,
    Gzip,
    Lzo,
    Brotli,
    Lz4,
    Zstd,
    Lz4Raw,
}

/// A page encoding used inside one column chunk.
#[derive(Clone, Copy, Debug, PartialEq, Eq, Structural)]
pub enum PageEncoding {
    Plain,
    PlainDictionary,
    Rle,
    DeltaBinaryPacked,
    DeltaLengthByteArray,
    DeltaByteArray,
    RleDictionary,
    ByteStreamSplit,
}

/// One leaf column of the schema.
#[derive(Debug)]
pub struct SchemaColumn {
    pub name: String,
    pub ptype: ColumnType,
    pub nullable: bool,
}

/// Optional statistics carried by a column chunk; transplanting copies them
/// verbatim, never recomputes them.
#[derive(Debug)]
pub struct ColumnStats {
    pub min: Vec<u8>,
    pub max: Vec<u8>,
    pub null_count: u64,
}

/// The metadata of one column chunk: where its compressed payload lies in the
/// source byte region, and how that payload is to be decoded.
#[derive(Debug)]
pub struct ChunkMeta {
    /// Byte offset of the compressed payload within the source region.
    pub offset: usize,
    /// Compressed byte length of the payload.
    pub length: usize,
    /// Uncompressed size, carried through unchanged.
    pub uncompressed: u64,
    pub codec: Codec,
    pub encodings: Vec<PageEncoding>,
    /// The chunk's row count; equal to its row group's row count.
    pub rows: u64,
    pub stats: Option<ColumnStats>,
}

/// The metadata of one row group: a row count and one chunk per schema
/// column, in schema-ordinal order.
#[derive(Debug)]
pub struct RowGroupMeta {
    pub rows: u64,
    pub chunks: Vec<ChunkMeta>,
}

/// The footer of one container: schema plus ordered row groups.
#[derive(Debug)]
pub struct ContainerFooter {
    pub schema: Vec<SchemaColumn>,
    pub groups: Vec<RowGroupMeta>,
}

/// A container as the engine sees it: the byte region the chunk offsets point
/// into, together with the footer describing it.
#[derive(Debug)]
pub struct ContainerData {
    pub bytes: Vec<u8>,
    pub footer: ContainerFooter,
}

/// The mathematical view of one schema column.
#[verifier::ext_equal]
pub struct ColumnView {
    pub name: Seq<char>,
    pub ptype: ColumnType,
    pub nullable: bool,
}

/// The mathematical view of chunk statistics.
#[verifier::ext_equal]
pub struct StatsContent {
    pub min: Seq<u8>,
    pub max: Seq<u8>,
    pub null_count: u64,
}

/// The logical content of one column chunk: its payload bytes, taken out of
/// the source region, plus everything a decoder needs. Two chunks with equal
/// content decode to the same values, wherever their bytes happen to live.
#[verifier::ext_equal]
pub struct ChunkContent {
    pub payload: Seq<u8>,
    pub codec: Codec,
    pub encodings: Seq<PageEncoding>,
    pub uncompressed: u64,
    pub rows: u64,
    pub stats: Option<StatsContent>,
}

/// The logical content of one row group.
#[verifier::ext_equal]
pub struct GroupContent {
    pub rows: u64,
    pub chunks: Seq<ChunkContent>,
}

pub open spec fn col_view(c: SchemaColumn) -> ColumnView {
    ColumnView { name: c.name@, ptype: c.ptype, nullable: c.nullable }
}

/// The view of a whole schema; two schemas are structurally equal exactly
/// when their views are equal.
pub open spec fn schema_view(s: Seq<SchemaColumn>) -> Seq<ColumnView> {
    s.map_values(|c: SchemaColumn| col_view(c))
}

pub open spec fn stats_view(s: Option<ColumnStats>) -> Option<StatsContent> {
    match s {
        Some(st) => Some(StatsContent { min: st.min@, max: st.max@, null_count: st.null_count }),
        None => None,
    }
}

/// The payload bytes of one chunk, read out of its source region.
pub open spec fn chunk_payload(bytes: Seq<u8>, c: ChunkMeta) -> Seq<u8> {
    bytes.subrange(c.offset as int, c.offset + c.length)
}

pub open spec fn chunk_content(bytes: Seq<u8>, c: ChunkMeta) -> ChunkContent {
    ChunkContent {
        payload: chunk_payload(bytes, c),
        codec: c.codec,
        encodings: c.encodings@,
        uncompressed: c.uncompressed,
        rows: c.rows,
        stats: stats_view(c.stats),
    }
}

pub open spec fn group_content(bytes: Seq<u8>, g: RowGroupMeta) -> GroupContent {
    GroupContent {
        rows: g.rows,
        chunks: g.chunks@.map_values(|c: ChunkMeta| chunk_content(bytes, c)),
    }
}

/// The logical content of a whole container: its row groups in order, each
/// taken together with its payload bytes. Concatenating the groups' rows in
/// this order reproduces the full logical table.
pub open spec fn container_groups(c: ContainerData) -> Seq<GroupContent> {
    c.footer.groups@.map_values(|g: RowGroupMeta| group_content(c.bytes@, g))
}

/// A chunk's byte range lies inside a region of `n` bytes.
pub open spec fn chunk_in_bounds(c: ChunkMeta, n: int) -> bool {
    c.offset + c.length <= n
}

pub open spec fn group_in_bounds(g: RowGroupMeta, n: int) -> bool {
    forall|j: int| 0 <= j < g.chunks@.len() ==> chunk_in_bounds(#[trigger] g.chunks@[j], n)
}

/// Well-formedness of one row group against a schema of `ncols` columns:
/// exactly one chunk per column, and every chunk reports the group's row
/// count.
pub open spec fn wf_group(g: RowGroupMeta, ncols: int) -> bool {
    &&& g.chunks@.len() == ncols
    &&& forall|j: int| 0 <= j < g.chunks@.len() ==> (#[trigger] g.chunks@[j]).rows == g.rows
}

pub open spec fn wf_footer(f: ContainerFooter) -> bool {
    forall|i: int| 0 <= i < f.groups@.len() ==> wf_group(
        #[trigger] f.groups@[i],
        f.schema@.len() as int,
    )
}

/// Well-formedness of a container: a well-formed footer whose chunk ranges
/// all lie inside the byte region.
pub open spec fn wf_container(c: ContainerData) -> bool {
    &&& wf_footer(c.footer)
    &&& forall|i: int| 0 <= i < c.footer.groups@.len() ==> group_in_bounds(
        #[trigger] c.footer.groups@[i],
        c.bytes@.len() as int,
    )
}

/// The total row count of a sequence of row groups.
pub open spec fn sum_rows(groups: Seq<RowGroupMeta>) -> int
    decreases groups.len(),
{
    if groups.len() == 0 {
        0
    } else {
        sum_rows(groups.drop_last()) + groups.last().rows
    }
}

/// The total row count of a sequence of group contents.
pub open spec fn content_rows(groups: Seq<GroupContent>) -> int
    decreases groups.len(),
{
    if groups.len() == 0 {
        0
    } else {
        content_rows(groups.drop_last()) + groups.last().rows
    }
}

pub proof fn lemma_content_rows_concat(a: Seq<GroupContent>, b: Seq<GroupContent>)
    ensures
        content_rows(a + b) == content_rows(a) + content_rows(b),
    decreases b.len(),
{
    if b.len() == 0 {
        assert(a + b =~= a);
    } else {
        lemma_content_rows_concat(a, b.drop_last());
        assert((a + b).drop_last() =~= a + b.drop_last());
        assert((a + b).last() == b.last());
    }
}

/// Copy a vector of plainly copyable elements, element for element.
pub fn clone_copy_vec<T: Copy>(v: &Vec<T>) -> (r: Vec<T>)
    ensures
        r@ == v@,
{
    let mut r: Vec<T> = Vec::new();
    let mut i: usize = 0;
    while i < v.len()
        invariant
            i <= v@.len(),
            r@ == v@.subrange(0, i as int),
        decreases v@.len() - i,
    {
        r.push(v[i]);
        proof {
            assert(v@.subrange(0, i + 1) =~= v@.subrange(0, i as int).push(v@[i as int]));
        }
        i += 1;
    }
    proof {
        assert(v@.subrange(0, v@.len() as int) =~= v@);
    }
    r
}

/// Copy a schema column for column; the copy is equal to the original.
pub fn clone_columns(v: &Vec<SchemaColumn>) -> (r: Vec<SchemaColumn>)
    ensures
        r@ == v@,
{
    let mut r: Vec<SchemaColumn> = Vec::new();
    let mut i: usize = 0;
    while i < v.len()
        invariant
            i <= v@.len(),
            r@ == v@.subrange(0, i as int),
        decreases v@.len() - i,
    {
        let c = &v[i];
        let copied = SchemaColumn { name: c.name.clone(), ptype: c.ptype, nullable: c.nullable };
        assert(copied == v@[i as int]);
        r.push(copied);
        proof {
            assert(v@.subrange(0, i + 1) =~= v@.subrange(0, i as int).push(v@[i as int]));
        }
        i += 1;
    }
    proof {
        assert(v@.subrange(0, v@.len() as int) =~= v@);
    }
    r
}

/// Copy optional chunk statistics; the copy has the same view.
pub fn clone_stats(s: &Option<ColumnStats>) -> (r: Option<ColumnStats>)
    ensures
        stats_view(r) == stats_view(*s),
{
    match s {
        None => None,
        Some(st) => Some(
            ColumnStats {
                min: clone_copy_vec(&st.min),
                max: clone_copy_vec(&st.max),
                null_count: st.null_count,
            },
        ),
    }
}

/// Sums of row counts only depend on the per-group counts, so equal contents
/// have equal totals.
pub proof fn lemma_sum_rows_matches_content(bytes: Seq<u8>, groups: Seq<RowGroupMeta>)
    ensures
        content_rows(groups.map_values(|g: RowGroupMeta| group_content(bytes, g))) == sum_rows(
            groups,
        ),
    decreases groups.len(),
{
    let mapped = groups.map_values(|g: RowGroupMeta| group_content(bytes, g));
    if groups.len() == 0 {
    } else {
        lemma_sum_rows_matches_content(bytes, groups.drop_last());
        assert(mapped.drop_last() =~= groups.drop_last().map_values(
            |g: RowGroupMeta| group_content(bytes, g),
        ));
        assert(mapped.last() == group_content(bytes, groups.last()));
    }
}

} // verus!
