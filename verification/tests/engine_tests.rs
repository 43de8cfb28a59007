use std::io::Write;

use bugle::game::engine::bytes::{read_fstring, read_u32};
use bugle::game::engine::map::{MapExtractor, MapInfo};
use bugle::game::engine::pak::{footer_offset, parse_footer, Archive, Compression, EngineError};
use bugle::game::engine::uasset::{NameIndex, Package, ResourceIndex};

struct Bytes(Vec<u8>);

impl Bytes {
    fn new() -> Self {
        Bytes(Vec::new())
    }
    fn u8(&mut self, v: u8) -> &mut Self {
        self.0.push(v);
        self
    }
    fn u32(&mut self, v: u32) -> &mut Self {
        self.0.extend_from_slice(&v.to_le_bytes());
        self
    }
    fn i32(&mut self, v: i32) -> &mut Self {
        self.0.extend_from_slice(&v.to_le_bytes());
        self
    }
    fn u64(&mut self, v: u64) -> &mut Self {
        self.0.extend_from_slice(&v.to_le_bytes());
        self
    }
    fn zeros(&mut self, n: usize) -> &mut Self {
        self.0.extend(std::iter::repeat(0u8).take(n));
        self
    }
    fn fstring(&mut self, s: &str) -> &mut Self {
        if s.is_ascii() {
            self.i32(s.len() as i32 + 1);
            self.0.extend_from_slice(s.as_bytes());
            self.u8(0)
        } else {
            let units: Vec<u16> = s.encode_utf16().collect();
            self.i32(-(units.len() as i32 + 1));
            for u in units {
                self.0.extend_from_slice(&u.to_le_bytes());
            }
            self.0.extend_from_slice(&[0, 0]);
            self
        }
    }
    fn name(&mut self, index: u32, instance: u32) -> &mut Self {
        self.u32(index).u32(instance)
    }
    fn len(&self) -> u32 {
        self.0.len() as u32
    }
}

#[test]
fn footer_offset_needs_a_whole_footer() {
    assert_eq!(footer_offset(100), Ok(56));
    assert_eq!(footer_offset(44), Ok(0));
    assert_eq!(footer_offset(43), Err(EngineError::UnexpectedEof));
}

#[test]
fn footer_gives_the_index_location() {
    let mut b = Bytes::new();
    b.u32(0x5a6f12e1).u32(4).u64(10).u64(20);
    assert_eq!(parse_footer(&b.0, 30), Ok((10, 20)));
    assert_eq!(parse_footer(&b.0, 29), Err(EngineError::InvalidIndex));

    let mut wrong_magic = Bytes::new();
    wrong_magic.u32(0x12345678).u32(4).u64(0).u64(0);
    assert_eq!(parse_footer(&wrong_magic.0, 100), Err(EngineError::NotPak));

    let mut wrong_version = Bytes::new();
    wrong_version.u32(0x5a6f12e1).u32(3).u64(0).u64(0);
    assert_eq!(parse_footer(&wrong_version.0, 100), Err(EngineError::UnsupportedPakVersion(3)));

    let mut short = Bytes::new();
    short.u32(0x5a6f12e1).u32(4).u32(0);
    assert_eq!(parse_footer(&short.0, 100), Err(EngineError::UnexpectedEof));
}

#[test]
fn fstrings_are_latin1_or_utf16() {
    let mut b = Bytes::new();
    b.fstring("MapName").fstring("Ünïcödé ✓");
    let (a, p) = read_fstring(&b.0, 0).unwrap();
    assert_eq!(a.iter().collect::<String>(), "MapName");
    let (u, q) = read_fstring(&b.0, p).unwrap();
    assert_eq!(u.iter().collect::<String>(), "Ünïcödé ✓");
    assert_eq!(q, b.0.len());
    assert_eq!(read_fstring(&b.0[..3], 0), None);
    assert_eq!(read_u32(&[1, 0, 0, 0], 0), Some((1, 4)));
}

fn index_entry(b: &mut Bytes, path: &str, offset: u64, size: u64, method: u32, blocks: &[(u64, u64)], encrypted: bool) {
    b.fstring(path).u64(offset).u64(size).u64(size).u32(method).zeros(20);
    if method != 0 {
        b.u32(blocks.len() as u32);
        for (s, e) in blocks {
            b.u64(*s).u64(*e);
        }
    }
    b.u8(encrypted as u8).u32(0).u32(0);
}

fn sample_index() -> Vec<u8> {
    let mut b = Bytes::new();
    b.fstring("../../../").u32(4);
    index_entry(&mut b, "modinfo.json", 0, 5, 0, &[], false);
    index_entry(&mut b, "Mods/PreLoad/Table.uasset", 100, 8, 1, &[(200, 210)], false);
    index_entry(&mut b, "modinfo.json", 999, 1, 0, &[], false);
    index_entry(&mut b, "Secret/PreLoad/Hidden.uasset", 300, 4, 0, &[], true);
    b.0
}

#[test]
fn index_keeps_the_first_entry_of_each_path() {
    let pak = Archive::from_index("mod.pak".to_string(), &sample_index()).unwrap();
    assert_eq!(pak.path(), "mod.pak");
    let entries = pak.iter();
    assert_eq!(entries.len(), 3);
    let info = pak.entry("modinfo.json").unwrap();
    assert_eq!(info.offset, 0);
    assert_eq!(info.size, 5);
    assert!(matches!(info.compression, Compression::Uncompressed));
    assert!(pak.entry("missing").is_none());
    assert!(matches!(pak.open_entry("missing"), Err(EngineError::EntryNotFound(p)) if p == "missing"));
    assert!(matches!(pak.open_entry("Secret/PreLoad/Hidden.uasset"), Err(EngineError::Encrypted)));
    assert_eq!(
        bugle::game::engine::map::gather_preload_packages(&pak),
        vec!["Mods/PreLoad/Table".to_string()]
    );
    assert!(Archive::from_index("x".to_string(), &sample_index()[..40]).is_none());
}

#[test]
fn entries_decode_stored_and_zlib_data() {
    let pak = Archive::from_index("mod.pak".to_string(), &sample_index()).unwrap();
    let stored = pak.entry("modinfo.json").unwrap();
    assert_eq!(stored.data_ranges(), Ok(vec![(57, 5)]));
    let data = stored.decode(&vec![b"hello".to_vec()]).unwrap();
    assert_eq!(data.data, b"hello".to_vec());
    assert!(matches!(stored.decode(&vec![b"hell".to_vec()]), Err(EngineError::UnexpectedEof)));

    let packed = pak.entry("Mods/PreLoad/Table.uasset").unwrap();
    assert_eq!(packed.data_ranges(), Ok(vec![(200, 10)]));
    let mut enc = flate2::write::ZlibEncoder::new(Vec::new(), flate2::Compression::default());
    enc.write_all(b"compressed text").unwrap();
    let chunk = enc.finish().unwrap();
    let decoded = packed.decode(&vec![chunk.clone(), chunk]).unwrap();
    assert_eq!(decoded.data, b"compressed textcompressed text".to_vec());
    assert!(matches!(packed.decode(&vec![b"not zlib".to_vec()]), Err(EngineError::Decompression)));
}

const NAMES: [&str; 16] = [
    "None",
    "DataTable",
    "Class",
    "MapDataRow",
    "ScriptStruct",
    "RowStruct",
    "ObjectProperty",
    "MapName",
    "StrProperty",
    "MapWorld",
    "DBName",
    "NameProperty",
    "/Script/Engine",
    "game",
    "MapDataTable",
    "/Game/Base/AlwaysCook/MapDataTable",
];

/// A package with a `DataTable` export of map rows, and its `.uexp` data.
fn map_table(rows: &[(&str, &str, u32)]) -> (Vec<u8>, Vec<u8>) {
    // The export's data.
    let mut x = Bytes::new();
    x.name(5, 0).name(6, 0).u32(4).u32(0).u8(0).i32(-2);
    x.name(0, 0).u32(0).u32(rows.len() as u32);
    for (display, world, instance) in rows {
        x.u64(0);
        x.name(7, 0).name(8, 0).u32(0).u32(0).u8(0).fstring(display);
        x.name(9, 0).name(8, 0).u32(0).u32(0).u8(0).fstring(world);
        x.name(10, 0).name(11, 0).u32(8).u32(0).u8(0).name(13, *instance);
        x.name(0, 0);
    }
    let export_data = x.0;

    // The header.
    let mut d = Bytes::new();
    d.u32(0x9e2a83c1).i32(-7).zeros(12).i32(0);
    let header_size_at = d.0.len();
    d.u32(0);
    let hbr = d.len();
    d.fstring("None").u32(0);
    let counts_at = d.0.len();
    d.u32(0).u32(0).zeros(8).u32(0).u32(0).u32(0).u32(0);
    let name_offset = d.len();
    for n in NAMES.iter() {
        d.fstring(n).u32(0);
    }
    let import_offset = d.len();
    d.name(12, 0).name(2, 0).i32(0).name(1, 0);
    d.name(12, 0).name(4, 0).i32(0).name(3, 0);
    let export_offset = d.len();
    d.i32(-1).i32(0).i32(0).i32(0).name(13, 0).u32(0).u32(export_data.len() as u32);
    let offset_at = d.0.len();
    d.u32(0).zeros(60);
    let header_size = d.len();
    d.0[offset_at..offset_at + 4].copy_from_slice(&header_size.to_le_bytes());
    d.0[header_size_at..header_size_at + 4].copy_from_slice(&header_size.to_le_bytes());
    let counts = [NAMES.len() as u32, name_offset, 1, export_offset, 2, import_offset];
    let mut at = counts_at;
    for (k, v) in counts.iter().enumerate() {
        if k == 2 {
            at += 8;
        }
        d.0[at..at + 4].copy_from_slice(&v.to_le_bytes());
        at += 4;
    }
    let _ = hbr;
    (d.0, export_data)
}

#[test]
fn package_summary_reads_names_imports_and_exports() {
    let (uasset, _) = map_table(&[]);
    let pkg = Package::new("ConanSandbox/Content/Base/AlwaysCook/MapDataTable".to_string(), &uasset).unwrap();
    assert_eq!(pkg.summary.names.len(), NAMES.len());
    assert_eq!(pkg.summary.names[3], "MapDataRow");
    assert_eq!(pkg.summary.imports.len(), 2);
    assert_eq!(pkg.summary.imports[1].name, NameIndex { index: 3, instance: None });
    assert_eq!(pkg.summary.imports[1].outer, ResourceIndex::Null);
    assert_eq!(pkg.summary.exports.len(), 1);
    assert_eq!(pkg.summary.exports[0].class, ResourceIndex::Import(0));
    let imports = pkg.summary.iter_imports();
    assert_eq!(imports[0].name().text(), "DataTable");
    assert_eq!(imports[0].class().text(), "Class");
    assert_eq!(pkg.summary.name_ref(NameIndex { index: 13, instance: Some(3) }).to_string(), "game_2");

    let mut bad = uasset.clone();
    bad[0] = 0;
    assert!(matches!(Package::new("x".to_string(), &bad), Err(EngineError::NotUasset)));
    let mut old = uasset.clone();
    old[4..8].copy_from_slice(&(-6i32).to_le_bytes());
    assert!(matches!(Package::new("x".to_string(), &old), Err(EngineError::UnsupportedUassetVersion(-6))));
    assert!(matches!(Package::new("x".to_string(), &uasset[..30]), Err(EngineError::UnexpectedEof)));
}

#[test]
fn base_game_maps_are_the_rows_of_the_map_table() {
    let (uasset, uexp) = map_table(&[
        ("Exiled Lands", "/Game/Maps/ConanSandbox/ConanSandbox.ConanSandbox", 0),
        ("Isle of Siptah", "/Game/DLC/Siptah/Siptah.Siptah", 3),
    ]);
    let extractor = MapExtractor::new();
    let mut maps: Vec<MapInfo> = Vec::new();
    extractor.extract_base_game_maps(&Ok(uasset), &Ok(uexp), &mut maps).unwrap();
    assert_eq!(maps.len(), 2);
    assert_eq!(maps[0].display_name, "Exiled Lands");
    assert_eq!(maps[0].asset_path, "/Game/Maps/ConanSandbox/ConanSandbox");
    assert_eq!(maps[0].object_name, "ConanSandbox");
    assert_eq!(maps[0].db_name, "game");
    assert_eq!(maps[1].display_name, "Isle of Siptah");
    assert_eq!(maps[1].object_name, "Siptah");
    assert_eq!(maps[1].db_name, "game_1");
}

#[test]
fn map_reading_reports_missing_data() {
    let (uasset, uexp) = map_table(&[("Exiled Lands", "/Game/A.B", 0)]);
    let extractor = MapExtractor::new();
    let mut maps: Vec<MapInfo> = Vec::new();
    let missing = extractor.extract_base_game_maps(
        &Ok(uasset.clone()),
        &Err(EngineError::EntryNotFound("x.uexp".to_string())),
        &mut maps,
    );
    assert!(matches!(missing, Err(EngineError::EntryNotFound(_))));
    assert!(maps.is_empty());
    let truncated = extractor.extract_base_game_maps(&Ok(uasset), &Ok(uexp[..uexp.len() - 12].to_vec()), &mut maps);
    assert_eq!(truncated, Err(EngineError::UnexpectedEof));
    assert!(maps.is_empty());
    let no_asset = extractor.extract_base_game_maps(&Err(EngineError::Encrypted), &Ok(vec![]), &mut maps);
    assert_eq!(no_asset, Err(EngineError::Encrypted));
}

#[test]
fn mod_maps_read_every_table_in_order() {
    let (a, ax) = map_table(&[("First", "/Game/Mods/A.A", 0)]);
    let (b, bx) = map_table(&[("Second", "/Game/Mods/B.B", 0)]);
    let extractor = MapExtractor::new();
    let mut maps: Vec<MapInfo> = Vec::new();
    extractor
        .extract_mod_maps(&[(Ok(a.clone()), Ok(ax.clone())), (Ok(b), Ok(bx))], &mut maps)
        .unwrap();
    let names: Vec<&str> = maps.iter().map(|m| m.display_name.as_str()).collect();
    assert_eq!(names, vec!["First", "Second"]);

    let mut partial: Vec<MapInfo> = Vec::new();
    let r = extractor.extract_mod_maps(
        &[(Ok(a.clone()), Ok(ax.clone())), (Err(EngineError::Malformed), Ok(vec![])), (Ok(a), Ok(ax))],
        &mut partial,
    );
    assert_eq!(r, Err(EngineError::Malformed));
    assert_eq!(partial.len(), 1);
}

#[test]
fn resource_indexes_of_imports_and_exports() {
    let (uasset, _) = map_table(&[]);
    let pkg = Package::new("ConanSandbox/Content/Base/AlwaysCook/MapDataTable".to_string(), &uasset).unwrap();
    let import = pkg.summary.import_ref(1);
    assert_eq!(import.index(), 1);
    assert_eq!(ResourceIndex::from(import), ResourceIndex::Import(1));
    let export = pkg.summary.export_ref(0);
    assert_eq!(ResourceIndex::from(export), ResourceIndex::Export(0));
    assert_eq!(NameIndex::from(7usize), NameIndex { index: 7, instance: None });
}
