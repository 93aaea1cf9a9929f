use crystal_store::codec::{
    decode_band, decode_fermi, decode_project, encode_band, encode_fermi, encode_project,
};
use crystal_store::records::{BandStructureInfo, FermiSurfaceInfo, Project};
use crystal_store::StoreError;

fn sample_project() -> Project {
    Project {
        id: "p1".to_string(),
        name: "Iron".to_string(),
        formula: "Fe".to_string(),
        created_at: 100,
        updated_at: 100,
        last_opened_at: Some(100),
        has_cif: false,
        cif_filename: None,
    }
}

#[test]
fn project_encoding_is_canonical_pretty_printed_text() {
    let text = encode_project(&sample_project());
    let expected = "{\n  \"id\": \"p1\",\n  \"name\": \"Iron\",\n  \"formula\": \"Fe\",\n  \"created_at\": 100,\n  \"updated_at\": 100,\n  \"last_opened_at\": 100,\n  \"has_cif\": false,\n  \"cif_filename\": null\n}";
    assert_eq!(text, expected);
}

#[test]
fn project_round_trips_through_text() {
    let p = Project {
        id: "0a1b2c".to_string(),
        name: "Quartz sample".to_string(),
        formula: "SiO2".to_string(),
        created_at: 1712345678901,
        updated_at: 1712345680000,
        last_opened_at: None,
        has_cif: true,
        cif_filename: Some("quartz.cif".to_string()),
    };
    let text = encode_project(&p);
    let back = decode_project(&text).unwrap();
    assert_eq!(back.id, p.id);
    assert_eq!(back.name, p.name);
    assert_eq!(back.formula, p.formula);
    assert_eq!(back.created_at, p.created_at);
    assert_eq!(back.updated_at, p.updated_at);
    assert_eq!(back.last_opened_at, p.last_opened_at);
    assert_eq!(back.has_cif, p.has_cif);
    assert_eq!(back.cif_filename, p.cif_filename);
}

#[test]
fn project_round_trips_with_awkward_characters() {
    let p = Project {
        name: "quote \" backslash \\ newline \n tab \t bell \u{7}".to_string(),
        formula: "Fe/O".to_string(),
        ..sample_project()
    };
    let text = encode_project(&p);
    let back = decode_project(&text).unwrap();
    assert_eq!(back.name, p.name);
    assert_eq!(back.formula, p.formula);
}

#[test]
fn project_timestamps_round_trip_at_the_limit() {
    let p = Project { created_at: u64::MAX, updated_at: 0, ..sample_project() };
    let back = decode_project(&encode_project(&p)).unwrap();
    assert_eq!(back.created_at, u64::MAX);
    assert_eq!(back.updated_at, 0);
}

#[test]
fn legacy_document_without_optional_fields_decodes_with_defaults() {
    // the shape an older schema wrote: no last-opened instant, no
    // attachment flag, no remembered filename
    let text = "{\n  \"id\": \"p9\",\n  \"name\": \"Old one\",\n  \"formula\": \"NaCl\",\n  \"created_at\": 5,\n  \"updated_at\": 7\n}";
    let p = decode_project(text).unwrap();
    assert_eq!(p.id, "p9");
    assert_eq!(p.name, "Old one");
    assert_eq!(p.last_opened_at, None);
    assert!(!p.has_cif);
    assert_eq!(p.cif_filename, None);
}

#[test]
fn unknown_fields_are_ignored() {
    let text = "{\n  \"id\": \"p9\",\n  \"name\": \"N\",\n  \"formula\": \"F\",\n  \"created_at\": 5,\n  \"updated_at\": 7,\n  \"color\": \"red\"\n}";
    let p = decode_project(text).unwrap();
    assert_eq!(p.id, "p9");
}

#[test]
fn unparsable_documents_are_corrupt() {
    assert_eq!(decode_project("").err(), Some(StoreError::Corrupt));
    assert_eq!(decode_project("not a document").err(), Some(StoreError::Corrupt));
    assert_eq!(decode_project("{\n").err(), Some(StoreError::Corrupt));
    // a required field missing
    assert_eq!(
        decode_project("{\n  \"id\": \"p\"\n}").err(),
        Some(StoreError::Corrupt)
    );
    // a required field of the wrong shape
    assert_eq!(
        decode_project(
            "{\n  \"id\": 5,\n  \"name\": \"N\",\n  \"formula\": \"F\",\n  \"created_at\": 5,\n  \"updated_at\": 7\n}"
        )
        .err(),
        Some(StoreError::Corrupt)
    );
    // a number too large for the timestamp type
    assert_eq!(
        decode_project(
            "{\n  \"id\": \"p\",\n  \"name\": \"N\",\n  \"formula\": \"F\",\n  \"created_at\": 18446744073709551616,\n  \"updated_at\": 7\n}"
        )
        .err(),
        Some(StoreError::Corrupt)
    );
    // trailing bytes after the closing brace
    assert_eq!(
        decode_project(
            "{\n  \"id\": \"p\",\n  \"name\": \"N\",\n  \"formula\": \"F\",\n  \"created_at\": 5,\n  \"updated_at\": 7\n}x"
        )
        .err(),
        Some(StoreError::Corrupt)
    );
}

#[test]
fn encoded_project_is_valid_json_to_other_readers() {
    let p = Project {
        name: "Iron \"alpha\" phase\n".to_string(),
        cif_filename: Some("a.cif".to_string()),
        has_cif: true,
        ..sample_project()
    };
    let text = encode_project(&p);
    let v: serde_json::Value = serde_json::from_str(&text).unwrap();
    assert_eq!(v.get("id").unwrap().as_str().unwrap(), "p1");
    assert_eq!(v.get("name").unwrap().as_str().unwrap(), "Iron \"alpha\" phase\n");
    assert_eq!(v.get("created_at").unwrap().as_u64().unwrap(), 100);
    assert_eq!(v.get("has_cif").unwrap().as_bool().unwrap(), true);
    assert_eq!(v.get("cif_filename").unwrap().as_str().unwrap(), "a.cif");
    assert!(v.get("last_opened_at").unwrap().is_u64());
}

#[test]
fn band_record_round_trips() {
    let b = BandStructureInfo {
        id: "b1".to_string(),
        name: "run".to_string(),
        created_at: 42,
        qtl_filename: "case.qtl".to_string(),
        klist_filename: "case.klist_band".to_string(),
    };
    let back = decode_band(&encode_band(&b)).unwrap();
    assert_eq!(back.id, b.id);
    assert_eq!(back.name, b.name);
    assert_eq!(back.created_at, b.created_at);
    assert_eq!(back.qtl_filename, b.qtl_filename);
    assert_eq!(back.klist_filename, b.klist_filename);
}

#[test]
fn band_record_missing_field_is_corrupt() {
    let text = "{\n  \"id\": \"b1\",\n  \"name\": \"run\",\n  \"created_at\": 42\n}";
    assert_eq!(decode_band(text).err(), Some(StoreError::Corrupt));
}

#[test]
fn fermi_record_round_trips() {
    let f = FermiSurfaceInfo {
        id: "f1".to_string(),
        name: "surface".to_string(),
        created_at: 7,
        case_name: "tin".to_string(),
    };
    let back = decode_fermi(&encode_fermi(&f)).unwrap();
    assert_eq!(back.id, f.id);
    assert_eq!(back.name, f.name);
    assert_eq!(back.created_at, f.created_at);
    assert_eq!(back.case_name, f.case_name);
}

#[test]
fn decoder_accepts_serde_written_documents() {
    // the shape another canonical pretty printer writes for the same record
    let mut m = serde_json::Map::new();
    m.insert("id".to_string(), serde_json::Value::String("p2".to_string()));
    m.insert("name".to_string(), serde_json::Value::String("control \u{1} char".to_string()));
    m.insert("formula".to_string(), serde_json::Value::String("C".to_string()));
    m.insert(
        "created_at".to_string(),
        serde_json::Value::Number(serde_json::Number::from(9u64)),
    );
    m.insert(
        "updated_at".to_string(),
        serde_json::Value::Number(serde_json::Number::from(10u64)),
    );
    let text = serde_json::to_string_pretty(&serde_json::Value::Object(m)).unwrap();
    let p = decode_project(&text).unwrap();
    assert_eq!(p.id, "p2");
    assert_eq!(p.name, "control \u{1} char");
    assert_eq!(p.created_at, 9);
    assert_eq!(p.last_opened_at, None);
}
