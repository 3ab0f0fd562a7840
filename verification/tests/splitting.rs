use pqpart::footer::{
    ChunkMeta, Codec, ColumnType, ContainerData, ContainerFooter, PageEncoding, RowGroupMeta,
    SchemaColumn,
};
use pqpart::merge::merge_containers;
use pqpart::split::split_container;
use pqpart::EngineError;

fn chunk(offset: usize, length: usize, rows: u64) -> ChunkMeta {
    ChunkMeta {
        offset,
        length,
        uncompressed: length as u64,
        codec: Codec::Snappy,
        encodings: vec![PageEncoding::Plain],
        rows,
        stats: None,
    }
}

/// One column, one single-byte payload per row group.
fn container_with_groups(n: u8) -> ContainerData {
    let mut bytes = Vec::new();
    let mut groups = Vec::new();
    for k in 0..n {
        let offset = bytes.len();
        bytes.push(100 + k);
        groups.push(
            RowGroupMeta { rows: (k as u64) + 1, chunks: vec![chunk(offset, 1, (k as u64) + 1)] },
        );
    }
    ContainerData {
        bytes,
        footer: ContainerFooter {
            schema: vec![
                SchemaColumn { name: "v".to_string(), ptype: ColumnType::Int64, nullable: true },
            ],
            groups,
        },
    }
}

#[test]
fn split_seven_groups_by_three() {
    let input = container_with_groups(7);
    let parts = split_container(&input, 3).unwrap();
    // Three files with row-group counts [3, 3, 1], never [3, 4, 0].
    assert_eq!(parts.len(), 3);
    let counts: Vec<usize> = parts.iter().map(|p| p.footer.groups.len()).collect();
    assert_eq!(counts, vec![3, 3, 1]);
    // Consecutive groups land in order: the payloads read back in sequence.
    let mut seen = Vec::new();
    for p in &parts {
        for g in &p.footer.groups {
            let c = &g.chunks[0];
            seen.extend_from_slice(&p.bytes[c.offset..c.offset + c.length]);
        }
        assert_eq!(p.footer.schema[0].name, "v");
    }
    assert_eq!(seen, input.bytes);
}

#[test]
fn split_zero_group_limit_rejected() {
    let input = container_with_groups(3);
    let r = split_container(&input, 0);
    assert!(matches!(r, Err(EngineError::InvalidConfig)));
}

#[test]
fn split_of_empty_container_yields_no_files() {
    let input = container_with_groups(0);
    let parts = split_container(&input, 4).unwrap();
    assert!(parts.is_empty());
}

#[test]
fn split_then_merge_round_trip() {
    let input = container_with_groups(5);
    let parts = split_container(&input, 1).unwrap();
    assert_eq!(parts.len(), 5);
    let merged = merge_containers(&parts).unwrap();

    // The merged container is logically equal to the original: same schema,
    // same row groups with the same content in the same order.
    assert_eq!(merged.footer.schema.len(), input.footer.schema.len());
    assert_eq!(merged.footer.schema[0].name, input.footer.schema[0].name);
    assert_eq!(merged.footer.groups.len(), input.footer.groups.len());
    for (mg, ig) in merged.footer.groups.iter().zip(input.footer.groups.iter()) {
        assert_eq!(mg.rows, ig.rows);
        let mc = &mg.chunks[0];
        let ic = &ig.chunks[0];
        assert_eq!(
            &merged.bytes[mc.offset..mc.offset + mc.length],
            &input.bytes[ic.offset..ic.offset + ic.length]
        );
        assert!(matches!(mc.codec, Codec::Snappy));
    }
}
