use std::sync::Arc;

use arrow_array::{ArrayRef, Int32Array, RecordBatch};
use arrow_schema::{DataType, Field, Schema};
use parquet::arrow::ArrowWriter;
use parquet::basic::{Compression, Encoding, Type as PhysicalType};
use parquet::file::reader::{FileReader, SerializedFileReader};

use pqpart::footer::{
    ChunkMeta, Codec, ColumnType, ContainerData, ContainerFooter, PageEncoding, RowGroupMeta,
    SchemaColumn,
};
use pqpart::merge::merge_containers;
use pqpart::split::split_container;

/// Encode one Int32 column into an in-memory parquet file.
fn write_parquet(values: &[i32]) -> Vec<u8> {
    let schema = Arc::new(Schema::new(vec![Field::new("v", DataType::Int32, false)]));
    let array: ArrayRef = Arc::new(Int32Array::from(values.to_vec()));
    let batch = RecordBatch::try_new(schema.clone(), vec![array]).unwrap();
    let mut buf = Vec::new();
    let mut writer = ArrowWriter::try_new(&mut buf, schema, None).unwrap();
    writer.write(&batch).unwrap();
    writer.close().unwrap();
    buf
}

fn codec_of(c: Compression) -> Codec {
    match c {
        Compression::UNCOMPRESSED => Codec::Uncompressed,
        Compression::SNAPPY => Codec::Snappy,
        Compression::GZIP(_) => Codec::Gzip,
        Compression::LZO => Codec::Lzo,
        Compression::BROTLI(_) => Codec::Brotli,
        Compression::LZ4 => Codec::Lz4,
        Compression::ZSTD(_) => Codec::Zstd,
        Compression::LZ4_RAW => Codec::Lz4Raw,
    }
}

fn encoding_of(e: Encoding) -> PageEncoding {
    match e {
        Encoding::PLAIN => PageEncoding::Plain,
        Encoding::PLAIN_DICTIONARY => PageEncoding::PlainDictionary,
        Encoding::RLE => PageEncoding::Rle,
        Encoding::DELTA_BINARY_PACKED => PageEncoding::DeltaBinaryPacked,
        Encoding::DELTA_LENGTH_BYTE_ARRAY => PageEncoding::DeltaLengthByteArray,
        Encoding::DELTA_BYTE_ARRAY => PageEncoding::DeltaByteArray,
        Encoding::RLE_DICTIONARY => PageEncoding::RleDictionary,
        Encoding::BYTE_STREAM_SPLIT => PageEncoding::ByteStreamSplit,
        other => panic!("unexpected encoding {:?}", other),
    }
}

fn column_type_of(t: PhysicalType) -> ColumnType {
    match t {
        PhysicalType::BOOLEAN => ColumnType::Boolean,
        PhysicalType::INT32 => ColumnType::Int32,
        PhysicalType::INT64 => ColumnType::Int64,
        PhysicalType::INT96 => ColumnType::Int96,
        PhysicalType::FLOAT => ColumnType::Float32,
        PhysicalType::DOUBLE => ColumnType::Float64,
        PhysicalType::BYTE_ARRAY => ColumnType::ByteArray,
        PhysicalType::FIXED_LEN_BYTE_ARRAY => ColumnType::FixedLenByteArray(0),
    }
}

/// Read a real parquet footer into the engine's container model: the file's
/// bytes as the byte region, and its schema and row-group metadata as the
/// footer.
fn read_container(buf: &[u8]) -> ContainerData {
    let reader = SerializedFileReader::new(bytes::Bytes::copy_from_slice(buf)).unwrap();
    let md = reader.metadata();
    let schema = md
        .file_metadata()
        .schema_descr()
        .columns()
        .iter()
        .map(|cd| SchemaColumn {
            name: cd.name().to_string(),
            ptype: column_type_of(cd.physical_type()),
            nullable: cd.self_type().is_optional(),
        })
        .collect();
    let groups = md
        .row_groups()
        .iter()
        .map(|rg| RowGroupMeta {
            rows: rg.num_rows() as u64,
            chunks: rg
                .columns()
                .iter()
                .map(|cc| {
                    let (start, len) = cc.byte_range();
                    ChunkMeta {
                        offset: start as usize,
                        length: len as usize,
                        uncompressed: cc.uncompressed_size() as u64,
                        codec: codec_of(cc.compression()),
                        encodings: cc.encodings().map(encoding_of).collect(),
                        rows: rg.num_rows() as u64,
                        stats: None,
                    }
                })
                .collect(),
        })
        .collect();
    ContainerData { bytes: buf.to_vec(), footer: ContainerFooter { schema, groups } }
}

#[test]
fn merging_real_footers_concatenates_their_groups() {
    let a = read_container(&write_parquet(&[1, 2, 3]));
    let b = read_container(&write_parquet(&[4, 5]));
    let a_payload = {
        let c = &a.footer.groups[0].chunks[0];
        a.bytes[c.offset..c.offset + c.length].to_vec()
    };
    let b_payload = {
        let c = &b.footer.groups[0].chunks[0];
        b.bytes[c.offset..c.offset + c.length].to_vec()
    };

    let out = merge_containers(&vec![a, b]).unwrap();
    assert_eq!(out.footer.groups.len(), 2);
    assert_eq!(out.footer.groups[0].rows, 3);
    assert_eq!(out.footer.groups[1].rows, 2);
    assert_eq!(out.footer.schema.len(), 1);
    assert_eq!(out.footer.schema[0].name, "v");

    // The compressed payloads were transplanted byte for byte.
    let c0 = &out.footer.groups[0].chunks[0];
    assert_eq!(&out.bytes[c0.offset..c0.offset + c0.length], &a_payload[..]);
    let c1 = &out.footer.groups[1].chunks[0];
    assert_eq!(&out.bytes[c1.offset..c1.offset + c1.length], &b_payload[..]);
}

#[test]
fn splitting_a_real_footer_keeps_every_group() {
    let a = read_container(&write_parquet(&[7; 10]));
    let total_groups = a.footer.groups.len();
    let parts = split_container(&a, 1).unwrap();
    assert_eq!(parts.len(), total_groups);
    let rows: u64 = parts.iter().flat_map(|p| p.footer.groups.iter()).map(|g| g.rows).sum();
    assert_eq!(rows, 10);
}
