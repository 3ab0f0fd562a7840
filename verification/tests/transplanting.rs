use pqpart::footer::{
    ChunkMeta, Codec, ColumnStats, ColumnType, ContainerData, ContainerFooter, PageEncoding,
    RowGroupMeta, SchemaColumn,
};
use pqpart::writer::{EncodedChunk, OutputContainer};
use pqpart::EngineError;

fn int_column(name: &str) -> SchemaColumn {
    SchemaColumn { name: name.to_string(), ptype: ColumnType::Int32, nullable: false }
}

fn chunk(offset: usize, length: usize, rows: u64) -> ChunkMeta {
    ChunkMeta {
        offset,
        length,
        uncompressed: 2 * length as u64,
        codec: Codec::Zstd,
        encodings: vec![PageEncoding::Plain, PageEncoding::Rle],
        rows,
        stats: Some(ColumnStats { min: vec![1], max: vec![9], null_count: 0 }),
    }
}

/// One column, two row groups: payloads `[10, 11, 12]` and `[20, 21]`.
fn sample_container() -> ContainerData {
    ContainerData {
        bytes: vec![10, 11, 12, 20, 21],
        footer: ContainerFooter {
            schema: vec![int_column("v")],
            groups: vec![
                RowGroupMeta { rows: 3, chunks: vec![chunk(0, 3, 3)] },
                RowGroupMeta { rows: 2, chunks: vec![chunk(3, 2, 2)] },
            ],
        },
    }
}

#[test]
fn transplant_preserves_payload_and_metadata() {
    let src = sample_container();
    let mut w = OutputContainer::new(vec![int_column("v")]);
    // Leading garbage so the rewritten offset differs from the source offset.
    w.bytes = vec![0xAA, 0xBB];
    w.append_transplanted(&src, 1).unwrap();

    assert_eq!(w.groups.len(), 1);
    let g = &w.groups[0];
    assert_eq!(g.rows, 2);
    let c = &g.chunks[0];
    // The offset is rewritten to the destination's coordinate space...
    assert_eq!(c.offset, 2);
    assert_eq!(c.length, 2);
    // ...and the payload bytes there are the source's, untouched.
    assert_eq!(&w.bytes[c.offset..c.offset + c.length], &src.bytes[3..5]);
    // Everything else is copied verbatim.
    assert_eq!(c.uncompressed, 4);
    assert!(matches!(c.codec, Codec::Zstd));
    assert_eq!(c.encodings, vec![PageEncoding::Plain, PageEncoding::Rle]);
    assert_eq!(c.rows, 2);
    let stats = c.stats.as_ref().unwrap();
    assert_eq!(stats.min, vec![1]);
    assert_eq!(stats.max, vec![9]);
    assert_eq!(stats.null_count, 0);
}

#[test]
fn encoded_append_places_payloads_after_transplants() {
    let src = sample_container();
    let mut w = OutputContainer::new(vec![int_column("v")]);
    w.append_transplanted(&src, 0).unwrap();
    let encoded = vec![EncodedChunk {
        payload: vec![77, 78, 79, 80],
        uncompressed: 8,
        codec: Codec::Uncompressed,
        encodings: vec![PageEncoding::DeltaBinaryPacked],
        stats: None,
    }];
    w.append_encoded(6, &encoded).unwrap();

    assert_eq!(w.groups.len(), 2);
    let g = &w.groups[1];
    assert_eq!(g.rows, 6);
    let c = &g.chunks[0];
    assert_eq!(c.offset, 3);
    assert_eq!(c.length, 4);
    assert_eq!(&w.bytes[c.offset..c.offset + c.length], &[77, 78, 79, 80]);
    assert_eq!(c.encodings, vec![PageEncoding::DeltaBinaryPacked]);
    // The transplanted group before it is untouched.
    assert_eq!(&w.bytes[0..3], &src.bytes[0..3]);

    w.close().unwrap();
    let again = vec![EncodedChunk {
        payload: vec![1],
        uncompressed: 1,
        codec: Codec::Uncompressed,
        encodings: vec![PageEncoding::Plain],
        stats: None,
    }];
    let e = w.append_encoded(1, &again);
    assert!(matches!(e, Err(EngineError::ClosedContainer)));
}

#[test]
fn append_after_close_is_rejected() {
    let src = sample_container();
    let mut w = OutputContainer::new(vec![int_column("v")]);
    w.append_transplanted(&src, 0).unwrap();
    w.close().unwrap();
    let r = w.append_transplanted(&src, 1);
    assert!(matches!(r, Err(EngineError::ClosedContainer)));
    // The failed append changed nothing.
    assert_eq!(w.groups.len(), 1);
    assert_eq!(w.bytes, vec![10, 11, 12]);
}

#[test]
fn double_close_is_rejected() {
    let mut w = OutputContainer::new(vec![int_column("v")]);
    w.close().unwrap();
    assert!(matches!(w.close(), Err(EngineError::ClosedContainer)));
}

#[test]
fn closed_container_becomes_data() {
    let src = sample_container();
    let mut w = OutputContainer::new(vec![int_column("v")]);
    w.append_transplanted(&src, 0).unwrap();
    w.close().unwrap();
    let out = w.into_data();
    assert_eq!(out.bytes, vec![10, 11, 12]);
    assert_eq!(out.footer.groups.len(), 1);
    assert_eq!(out.footer.groups[0].rows, 3);
    assert_eq!(out.footer.schema.len(), 1);
    assert_eq!(out.footer.schema[0].name, "v");
}
