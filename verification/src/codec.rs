//! The metadata codec: each record type to and from its canonical
//! pretty-printed document.
//!
//! Decoding is backward compatible by construction: a document written by
//! an older schema that lacks an optional field — the last-opened instant,
//! the attachment flag, the remembered filename — decodes with that field
//! at its documented default rather than failing. Unknown fields are
//! ignored. A document that does not parse, or whose required fields are
//! missing or of the wrong shape, is corrupt.

use crate::json::{
    fields_view, parse_document, scan_document, write_document, FieldsV, JsonValue, JsonValueV,
};
use crate::records::{
    BandStructureInfo, BandStructureInfoV, FermiSurfaceInfo, FermiSurfaceInfoV, Project, ProjectV,
};
use crate::StoreError;
use vstd::prelude::*;

verus! {

/// The value of the first field carrying `key`, if any.
pub open spec fn field_of(fields: FieldsV, key: Seq<char>) -> Option<JsonValueV>
    decreases fields.len(),
{
    if fields.len() == 0 {
        None
    } else if fields[0].0 == key {
        Some(fields[0].1)
    } else {
        field_of(fields.drop_first(), key)
    }
}

/// An optional numeric field: absent or null reads as nothing, a number as
/// itself, any other shape is invalid.
pub open spec fn opt_num_field(fields: FieldsV, key: Seq<char>) -> Option<Option<u64>> {
    match field_of(fields, key) {
        None => Some(None),
        Some(JsonValueV::Null) => Some(None),
        Some(JsonValueV::Num(n)) => Some(Some(n)),
        Some(_) => None,
    }
}

/// An optional text field: absent or null reads as nothing, a string as
/// itself, any other shape is invalid.
pub open spec fn opt_text_field(fields: FieldsV, key: Seq<char>) -> Option<Option<Seq<char>>> {
    match field_of(fields, key) {
        None => Some(None),
        Some(JsonValueV::Null) => Some(None),
        Some(JsonValueV::Text(t)) => Some(Some(t)),
        Some(_) => None,
    }
}

/// An optional boolean field: absent reads as false, a boolean as itself,
/// any other shape is invalid.
pub open spec fn flag_field(fields: FieldsV, key: Seq<char>) -> Option<bool> {
    match field_of(fields, key) {
        None => Some(false),
        Some(JsonValueV::Bool(b)) => Some(b),
        Some(_) => None,
    }
}

/// Skipping fields that do not carry the key does not change the lookup.
proof fn lemma_field_of_skip(fields: FieldsV, key: Seq<char>, i: int)
    requires
        0 <= i <= fields.len(),
        forall|j: int| 0 <= j < i ==> (#[trigger] fields[j]).0 != key,
    ensures
        field_of(fields, key) == field_of(fields.skip(i), key),
    decreases i,
{
    if i > 0 {
        assert(fields[0].0 != key);
        let rest = fields.drop_first();
        assert forall|j: int| 0 <= j < i - 1 implies (#[trigger] rest[j]).0 != key by {
            assert(rest[j] == fields[j + 1]);
        }
        lemma_field_of_skip(rest, key, i - 1);
        assert(rest.skip(i - 1) =~= fields.skip(i));
    } else {
        assert(fields.skip(0) =~= fields);
    }
}

/// The metadata field names are pairwise distinct.
proof fn lemma_meta_keys_distinct()
    ensures
        "id"@ != "name"@,
        "id"@ != "formula"@,
        "id"@ != "created_at"@,
        "id"@ != "updated_at"@,
        "id"@ != "last_opened_at"@,
        "id"@ != "has_cif"@,
        "id"@ != "cif_filename"@,
        "id"@ != "qtl_filename"@,
        "id"@ != "klist_filename"@,
        "id"@ != "case_name"@,
        "name"@ != "formula"@,
        "name"@ != "created_at"@,
        "name"@ != "updated_at"@,
        "name"@ != "last_opened_at"@,
        "name"@ != "has_cif"@,
        "name"@ != "cif_filename"@,
        "name"@ != "qtl_filename"@,
        "name"@ != "klist_filename"@,
        "name"@ != "case_name"@,
        "formula"@ != "created_at"@,
        "formula"@ != "updated_at"@,
        "formula"@ != "last_opened_at"@,
        "formula"@ != "has_cif"@,
        "formula"@ != "cif_filename"@,
        "created_at"@ != "updated_at"@,
        "created_at"@ != "last_opened_at"@,
        "created_at"@ != "has_cif"@,
        "created_at"@ != "cif_filename"@,
        "created_at"@ != "qtl_filename"@,
        "created_at"@ != "klist_filename"@,
        "created_at"@ != "case_name"@,
        "updated_at"@ != "last_opened_at"@,
        "updated_at"@ != "has_cif"@,
        "updated_at"@ != "cif_filename"@,
        "last_opened_at"@ != "has_cif"@,
        "last_opened_at"@ != "cif_filename"@,
        "has_cif"@ != "cif_filename"@,
        "qtl_filename"@ != "klist_filename"@,
        "qtl_filename"@ != "case_name"@,
        "klist_filename"@ != "case_name"@,
{
    reveal_strlit("id");
    reveal_strlit("name");
    reveal_strlit("formula");
    reveal_strlit("created_at");
    reveal_strlit("updated_at");
    reveal_strlit("last_opened_at");
    reveal_strlit("has_cif");
    reveal_strlit("cif_filename");
    reveal_strlit("qtl_filename");
    reveal_strlit("klist_filename");
    reveal_strlit("case_name");
    assert("id"@.len() == 2);
    assert("name"@.len() == 4);
    assert("formula"@.len() == 7);
    assert("created_at"@.len() == 10);
    assert("updated_at"@.len() == 10);
    assert("last_opened_at"@.len() == 14);
    assert("has_cif"@.len() == 7);
    assert("cif_filename"@.len() == 12);
    assert("qtl_filename"@.len() == 12);
    assert("klist_filename"@.len() == 14);
    assert("case_name"@.len() == 9);
    assert("created_at"@[0] == 'c');
    assert("updated_at"@[0] == 'u');
    assert("formula"@[0] == 'f');
    assert("has_cif"@[0] == 'h');
    assert("cif_filename"@[0] == 'c');
    assert("qtl_filename"@[0] == 'q');
    assert("last_opened_at"@[0] == 'l');
    assert("klist_filename"@[0] == 'k');
}

/// The lookup finds the field at `i` when no earlier field carries the
/// key.
proof fn lemma_field_at(fields: FieldsV, key: Seq<char>, i: int)
    requires
        0 <= i < fields.len(),
        fields[i].0 == key,
        forall|j: int| 0 <= j < i ==> (#[trigger] fields[j]).0 != key,
    ensures
        field_of(fields, key) == Some(fields[i].1),
{
    lemma_field_of_skip(fields, key, i);
    assert(fields.skip(i)[0] == fields[i]);
}

/// The lookup finds nothing when no field carries the key.
proof fn lemma_field_absent(fields: FieldsV, key: Seq<char>)
    requires
        forall|j: int| 0 <= j < fields.len() ==> (#[trigger] fields[j]).0 != key,
    ensures
        field_of(fields, key) is None,
{
    lemma_field_of_skip(fields, key, fields.len() as int);
    assert(fields.skip(fields.len() as int).len() == 0);
}

/// The first field carrying `key`, by a left-to-right search.
fn find_field<'a>(fields: &'a Vec<(String, JsonValue)>, key: &String) -> (r: Option<
    &'a JsonValue,
>)
    ensures
        r matches Some(v) ==> field_of(fields_view(fields@), key@) == Some(v@),
        r is None ==> field_of(fields_view(fields@), key@) is None,
{
    let ghost fv = fields_view(fields@);
    let mut i: usize = 0;
    while i < fields.len()
        invariant
            fv == fields_view(fields@),
            i <= fields@.len(),
            forall|j: int| 0 <= j < i ==> (#[trigger] fv[j]).0 != key@,
        decreases fields@.len() - i,
    {
        if fields[i].0 == *key {
            proof {
                lemma_field_of_skip(fv, key@, i as int);
                assert(fv.skip(i as int)[0] == fv[i as int]);
            }
            return Some(&fields[i].1);
        }
        i = i + 1;
    }
    proof {
        lemma_field_of_skip(fv, key@, fields@.len() as int);
        assert(fv.skip(fields@.len() as int).len() == 0);
    }
    None
}

// ---------------------------------------------------------------------
// projects
// ---------------------------------------------------------------------
/// The fields a project record is written as, in writing order.
pub open spec fn project_fields(p: ProjectV) -> FieldsV {
    seq![
        ("id"@, JsonValueV::Text(p.id)),
        ("name"@, JsonValueV::Text(p.name)),
        ("formula"@, JsonValueV::Text(p.formula)),
        ("created_at"@, JsonValueV::Num(p.created_at)),
        ("updated_at"@, JsonValueV::Num(p.updated_at)),
        (
            "last_opened_at"@,
            match p.last_opened_at {
                Some(t) => JsonValueV::Num(t),
                None => JsonValueV::Null,
            },
        ),
        ("has_cif"@, JsonValueV::Bool(p.has_cif)),
        (
            "cif_filename"@,
            match p.cif_filename {
                Some(t) => JsonValueV::Text(t),
                None => JsonValueV::Null,
            },
        ),
    ]
}

/// The record a field list decodes to: the required fields must be present
/// and of the right shape; the optional fields take their documented
/// defaults when absent.
pub open spec fn project_of_fields(fields: FieldsV) -> Option<ProjectV> {
    match (
        field_of(fields, "id"@),
        field_of(fields, "name"@),
        field_of(fields, "formula"@),
        field_of(fields, "created_at"@),
        field_of(fields, "updated_at"@),
    ) {
        (
            Some(JsonValueV::Text(id)),
            Some(JsonValueV::Text(name)),
            Some(JsonValueV::Text(formula)),
            Some(JsonValueV::Num(created_at)),
            Some(JsonValueV::Num(updated_at)),
        ) => match (
            opt_num_field(fields, "last_opened_at"@),
            flag_field(fields, "has_cif"@),
            opt_text_field(fields, "cif_filename"@),
        ) {
            (Some(last_opened_at), Some(has_cif), Some(cif_filename)) => Some(
                ProjectV {
                    id: id,
                    name: name,
                    formula: formula,
                    created_at: created_at,
                    updated_at: updated_at,
                    last_opened_at: last_opened_at,
                    has_cif: has_cif,
                    cif_filename: cif_filename,
                },
            ),
            _ => None,
        },
        _ => None,
    }
}

/// What a project metadata file decodes to, if anything.
pub open spec fn spec_decode_project(s: Seq<char>) -> Option<ProjectV> {
    match scan_document(s) {
        Some(fields) => project_of_fields(fields),
        None => None,
    }
}

/// A project record in its canonical written form.
pub open spec fn spec_encode_project(p: ProjectV) -> Seq<char> {
    crate::json::document_text(project_fields(p))
}

/// Writes a project record as its canonical metadata document.
pub fn encode_project(p: &Project) -> (r: String)
    ensures
        r@ == spec_encode_project(p@),
{
    let mut fields: Vec<(String, JsonValue)> = Vec::new();
    fields.push((String::from_str("id"), JsonValue::Text(p.id.clone())));
    fields.push((String::from_str("name"), JsonValue::Text(p.name.clone())));
    fields.push((String::from_str("formula"), JsonValue::Text(p.formula.clone())));
    fields.push((String::from_str("created_at"), JsonValue::Num(p.created_at)));
    fields.push((String::from_str("updated_at"), JsonValue::Num(p.updated_at)));
    match p.last_opened_at {
        Some(t) => fields.push((String::from_str("last_opened_at"), JsonValue::Num(t))),
        None => fields.push((String::from_str("last_opened_at"), JsonValue::Null)),
    }
    fields.push((String::from_str("has_cif"), JsonValue::Bool(p.has_cif)));
    match &p.cif_filename {
        Some(t) => fields.push((String::from_str("cif_filename"), JsonValue::Text(t.clone()))),
        None => fields.push((String::from_str("cif_filename"), JsonValue::Null)),
    }
    proof {
        assert(fields_view(fields@) =~= project_fields(p@));
    }
    write_document(&fields)
}

/// Reads a project record back from metadata text; text that does not
/// parse as a project document is corrupt.
pub fn decode_project(text: &str) -> (r: Result<Project, StoreError>)
    ensures
        r matches Ok(p) ==> spec_decode_project(text@) == Some(p@),
        r is Err ==> spec_decode_project(text@) is None && r == Err::<Project, StoreError>(
            StoreError::Corrupt,
        ),
{
    let fields = match parse_document(text) {
        Some(f) => f,
        None => {
            return Err(StoreError::Corrupt);
        },
    };
    let id = match find_field(&fields, &String::from_str("id")) {
        Some(JsonValue::Text(t)) => t.clone(),
        _ => {
            return Err(StoreError::Corrupt);
        },
    };
    let name = match find_field(&fields, &String::from_str("name")) {
        Some(JsonValue::Text(t)) => t.clone(),
        _ => {
            return Err(StoreError::Corrupt);
        },
    };
    let formula = match find_field(&fields, &String::from_str("formula")) {
        Some(JsonValue::Text(t)) => t.clone(),
        _ => {
            return Err(StoreError::Corrupt);
        },
    };
    let created_at = match find_field(&fields, &String::from_str("created_at")) {
        Some(JsonValue::Num(n)) => *n,
        _ => {
            return Err(StoreError::Corrupt);
        },
    };
    let updated_at = match find_field(&fields, &String::from_str("updated_at")) {
        Some(JsonValue::Num(n)) => *n,
        _ => {
            return Err(StoreError::Corrupt);
        },
    };
    let last_opened_at = match find_field(&fields, &String::from_str("last_opened_at")) {
        None => None,
        Some(JsonValue::Null) => None,
        Some(JsonValue::Num(n)) => Some(*n),
        _ => {
            return Err(StoreError::Corrupt);
        },
    };
    let has_cif = match find_field(&fields, &String::from_str("has_cif")) {
        None => false,
        Some(JsonValue::Bool(b)) => *b,
        _ => {
            return Err(StoreError::Corrupt);
        },
    };
    let cif_filename = match find_field(&fields, &String::from_str("cif_filename")) {
        None => None,
        Some(JsonValue::Null) => None,
        Some(JsonValue::Text(t)) => Some(t.clone()),
        _ => {
            return Err(StoreError::Corrupt);
        },
    };
    let p = Project {
        id,
        name,
        formula,
        created_at,
        updated_at,
        last_opened_at,
        has_cif,
        cif_filename,
    };
    proof {
        assert(project_of_fields(fields_view(fields@)) == Some(p@));
    }
    Ok(p)
}

// ---------------------------------------------------------------------
// band structures
// ---------------------------------------------------------------------
/// The fields a band-structure record is written as.
pub open spec fn band_fields(b: BandStructureInfoV) -> FieldsV {
    seq![
        ("id"@, JsonValueV::Text(b.id)),
        ("name"@, JsonValueV::Text(b.name)),
        ("created_at"@, JsonValueV::Num(b.created_at)),
        ("qtl_filename"@, JsonValueV::Text(b.qtl_filename)),
        ("klist_filename"@, JsonValueV::Text(b.klist_filename)),
    ]
}

/// The record a field list decodes to; every field is required.
pub open spec fn band_of_fields(fields: FieldsV) -> Option<BandStructureInfoV> {
    match (
        field_of(fields, "id"@),
        field_of(fields, "name"@),
        field_of(fields, "created_at"@),
        field_of(fields, "qtl_filename"@),
        field_of(fields, "klist_filename"@),
    ) {
        (
            Some(JsonValueV::Text(id)),
            Some(JsonValueV::Text(name)),
            Some(JsonValueV::Num(created_at)),
            Some(JsonValueV::Text(qtl_filename)),
            Some(JsonValueV::Text(klist_filename)),
        ) => Some(
            BandStructureInfoV {
                id: id,
                name: name,
                created_at: created_at,
                qtl_filename: qtl_filename,
                klist_filename: klist_filename,
            },
        ),
        _ => None,
    }
}

/// What a band-structure metadata file decodes to, if anything.
pub open spec fn spec_decode_band(s: Seq<char>) -> Option<BandStructureInfoV> {
    match scan_document(s) {
        Some(fields) => band_of_fields(fields),
        None => None,
    }
}

/// A band-structure record in its canonical written form.
pub open spec fn spec_encode_band(b: BandStructureInfoV) -> Seq<char> {
    crate::json::document_text(band_fields(b))
}

/// Writes a band-structure record as its canonical metadata document.
pub fn encode_band(b: &BandStructureInfo) -> (r: String)
    ensures
        r@ == spec_encode_band(b@),
{
    let mut fields: Vec<(String, JsonValue)> = Vec::new();
    fields.push((String::from_str("id"), JsonValue::Text(b.id.clone())));
    fields.push((String::from_str("name"), JsonValue::Text(b.name.clone())));
    fields.push((String::from_str("created_at"), JsonValue::Num(b.created_at)));
    fields.push((String::from_str("qtl_filename"), JsonValue::Text(b.qtl_filename.clone())));
    fields.push((String::from_str("klist_filename"), JsonValue::Text(b.klist_filename.clone())));
    proof {
        assert(fields_view(fields@) =~= band_fields(b@));
    }
    write_document(&fields)
}

/// Reads a band-structure record back from metadata text.
pub fn decode_band(text: &str) -> (r: Result<BandStructureInfo, StoreError>)
    ensures
        r matches Ok(b) ==> spec_decode_band(text@) == Some(b@),
        r is Err ==> spec_decode_band(text@) is None && r == Err::<
            BandStructureInfo,
            StoreError,
        >(StoreError::Corrupt),
{
    let fields = match parse_document(text) {
        Some(f) => f,
        None => {
            return Err(StoreError::Corrupt);
        },
    };
    let id = match find_field(&fields, &String::from_str("id")) {
        Some(JsonValue::Text(t)) => t.clone(),
        _ => {
            return Err(StoreError::Corrupt);
        },
    };
    let name = match find_field(&fields, &String::from_str("name")) {
        Some(JsonValue::Text(t)) => t.clone(),
        _ => {
            return Err(StoreError::Corrupt);
        },
    };
    let created_at = match find_field(&fields, &String::from_str("created_at")) {
        Some(JsonValue::Num(n)) => *n,
        _ => {
            return Err(StoreError::Corrupt);
        },
    };
    let qtl_filename = match find_field(&fields, &String::from_str("qtl_filename")) {
        Some(JsonValue::Text(t)) => t.clone(),
        _ => {
            return Err(StoreError::Corrupt);
        },
    };
    let klist_filename = match find_field(&fields, &String::from_str("klist_filename")) {
        Some(JsonValue::Text(t)) => t.clone(),
        _ => {
            return Err(StoreError::Corrupt);
        },
    };
    let b = BandStructureInfo { id, name, created_at, qtl_filename, klist_filename };
    proof {
        assert(band_of_fields(fields_view(fields@)) == Some(b@));
    }
    Ok(b)
}

// ---------------------------------------------------------------------
// Fermi surfaces
// ---------------------------------------------------------------------
/// The fields a Fermi-surface record is written as.
pub open spec fn fermi_fields(f: FermiSurfaceInfoV) -> FieldsV {
    seq![
        ("id"@, JsonValueV::Text(f.id)),
        ("name"@, JsonValueV::Text(f.name)),
        ("created_at"@, JsonValueV::Num(f.created_at)),
        ("case_name"@, JsonValueV::Text(f.case_name)),
    ]
}

/// The record a field list decodes to; every field is required.
pub open spec fn fermi_of_fields(fields: FieldsV) -> Option<FermiSurfaceInfoV> {
    match (
        field_of(fields, "id"@),
        field_of(fields, "name"@),
        field_of(fields, "created_at"@),
        field_of(fields, "case_name"@),
    ) {
        (
            Some(JsonValueV::Text(id)),
            Some(JsonValueV::Text(name)),
            Some(JsonValueV::Num(created_at)),
            Some(JsonValueV::Text(case_name)),
        ) => Some(
            FermiSurfaceInfoV { id: id, name: name, created_at: created_at, case_name: case_name },
        ),
        _ => None,
    }
}

/// What a Fermi-surface metadata file decodes to, if anything.
pub open spec fn spec_decode_fermi(s: Seq<char>) -> Option<FermiSurfaceInfoV> {
    match scan_document(s) {
        Some(fields) => fermi_of_fields(fields),
        None => None,
    }
}

/// A Fermi-surface record in its canonical written form.
pub open spec fn spec_encode_fermi(f: FermiSurfaceInfoV) -> Seq<char> {
    crate::json::document_text(fermi_fields(f))
}

/// Writes a Fermi-surface record as its canonical metadata document.
pub fn encode_fermi(f: &FermiSurfaceInfo) -> (r: String)
    ensures
        r@ == spec_encode_fermi(f@),
{
    let mut fields: Vec<(String, JsonValue)> = Vec::new();
    fields.push((String::from_str("id"), JsonValue::Text(f.id.clone())));
    fields.push((String::from_str("name"), JsonValue::Text(f.name.clone())));
    fields.push((String::from_str("created_at"), JsonValue::Num(f.created_at)));
    fields.push((String::from_str("case_name"), JsonValue::Text(f.case_name.clone())));
    proof {
        assert(fields_view(fields@) =~= fermi_fields(f@));
    }
    write_document(&fields)
}

/// Reads a Fermi-surface record back from metadata text.
pub fn decode_fermi(text: &str) -> (r: Result<FermiSurfaceInfo, StoreError>)
    ensures
        r matches Ok(f) ==> spec_decode_fermi(text@) == Some(f@),
        r is Err ==> spec_decode_fermi(text@) is None && r == Err::<
            FermiSurfaceInfo,
            StoreError,
        >(StoreError::Corrupt),
{
    let fields = match parse_document(text) {
        Some(f) => f,
        None => {
            return Err(StoreError::Corrupt);
        },
    };
    let id = match find_field(&fields, &String::from_str("id")) {
        Some(JsonValue::Text(t)) => t.clone(),
        _ => {
            return Err(StoreError::Corrupt);
        },
    };
    let name = match find_field(&fields, &String::from_str("name")) {
        Some(JsonValue::Text(t)) => t.clone(),
        _ => {
            return Err(StoreError::Corrupt);
        },
    };
    let created_at = match find_field(&fields, &String::from_str("created_at")) {
        Some(JsonValue::Num(n)) => *n,
        _ => {
            return Err(StoreError::Corrupt);
        },
    };
    let case_name = match find_field(&fields, &String::from_str("case_name")) {
        Some(JsonValue::Text(t)) => t.clone(),
        _ => {
            return Err(StoreError::Corrupt);
        },
    };
    let f = FermiSurfaceInfo { id, name, created_at, case_name };
    proof {
        assert(fermi_of_fields(fields_view(fields@)) == Some(f@));
    }
    Ok(f)
}


// ---------------------------------------------------------------------
// codec laws
// ---------------------------------------------------------------------
/// Decoding inverts encoding at the field level: the field list a project
/// record is written as decodes back to exactly that record.
pub proof fn lemma_project_fields_round_trip(p: ProjectV)
    ensures
        project_of_fields(project_fields(p)) == Some(p),
{
    lemma_meta_keys_distinct();
    let f = project_fields(p);
    assert(f[0].0 == "id"@);
    assert(f[1].0 == "name"@);
    assert(f[2].0 == "formula"@);
    assert(f[3].0 == "created_at"@);
    assert(f[4].0 == "updated_at"@);
    assert(f[5].0 == "last_opened_at"@);
    assert(f[6].0 == "has_cif"@);
    assert(f[7].0 == "cif_filename"@);
    lemma_field_at(f, "id"@, 0);
    lemma_field_at(f, "name"@, 1);
    lemma_field_at(f, "formula"@, 2);
    lemma_field_at(f, "created_at"@, 3);
    lemma_field_at(f, "updated_at"@, 4);
    lemma_field_at(f, "last_opened_at"@, 5);
    lemma_field_at(f, "has_cif"@, 6);
    lemma_field_at(f, "cif_filename"@, 7);
}

/// The field list an older schema wrote — the required fields only, no
/// last-opened instant, no attachment flag, no remembered filename.
pub open spec fn legacy_project_fields(
    id: Seq<char>,
    name: Seq<char>,
    formula: Seq<char>,
    created_at: u64,
    updated_at: u64,
) -> FieldsV {
    seq![
        ("id"@, JsonValueV::Text(id)),
        ("name"@, JsonValueV::Text(name)),
        ("formula"@, JsonValueV::Text(formula)),
        ("created_at"@, JsonValueV::Num(created_at)),
        ("updated_at"@, JsonValueV::Num(updated_at)),
    ]
}

/// A record written by a schema that lacks the optional fields decodes
/// with them at their documented defaults — never opened, no structure
/// file attached — rather than as corrupt.
pub proof fn lemma_legacy_schema_defaults(
    id: Seq<char>,
    name: Seq<char>,
    formula: Seq<char>,
    created_at: u64,
    updated_at: u64,
)
    ensures
        project_of_fields(legacy_project_fields(id, name, formula, created_at, updated_at))
            == Some(ProjectV {
            id: id,
            name: name,
            formula: formula,
            created_at: created_at,
            updated_at: updated_at,
            last_opened_at: None,
            has_cif: false,
            cif_filename: None,
        }),
{
    lemma_meta_keys_distinct();
    let f = legacy_project_fields(id, name, formula, created_at, updated_at);
    assert(f[0].0 == "id"@);
    assert(f[1].0 == "name"@);
    assert(f[2].0 == "formula"@);
    assert(f[3].0 == "created_at"@);
    assert(f[4].0 == "updated_at"@);
    lemma_field_at(f, "id"@, 0);
    lemma_field_at(f, "name"@, 1);
    lemma_field_at(f, "formula"@, 2);
    lemma_field_at(f, "created_at"@, 3);
    lemma_field_at(f, "updated_at"@, 4);
    lemma_field_absent(f, "last_opened_at"@);
    lemma_field_absent(f, "has_cif"@);
    lemma_field_absent(f, "cif_filename"@);
}

/// Decoding inverts encoding at the field level for band-structure
/// records.
pub proof fn lemma_band_fields_round_trip(b: BandStructureInfoV)
    ensures
        band_of_fields(band_fields(b)) == Some(b),
{
    lemma_meta_keys_distinct();
    let f = band_fields(b);
    assert(f[0].0 == "id"@);
    assert(f[1].0 == "name"@);
    assert(f[2].0 == "created_at"@);
    assert(f[3].0 == "qtl_filename"@);
    assert(f[4].0 == "klist_filename"@);
    lemma_field_at(f, "id"@, 0);
    lemma_field_at(f, "name"@, 1);
    lemma_field_at(f, "created_at"@, 2);
    lemma_field_at(f, "qtl_filename"@, 3);
    lemma_field_at(f, "klist_filename"@, 4);
}

/// Decoding inverts encoding at the field level for Fermi-surface records.
pub proof fn lemma_fermi_fields_round_trip(f: FermiSurfaceInfoV)
    ensures
        fermi_of_fields(fermi_fields(f)) == Some(f),
{
    lemma_meta_keys_distinct();
    let fs = fermi_fields(f);
    assert(fs[0].0 == "id"@);
    assert(fs[1].0 == "name"@);
    assert(fs[2].0 == "created_at"@);
    assert(fs[3].0 == "case_name"@);
    lemma_field_at(fs, "id"@, 0);
    lemma_field_at(fs, "name"@, 1);
    lemma_field_at(fs, "created_at"@, 2);
    lemma_field_at(fs, "case_name"@, 3);
}


/// Decoding inverts encoding: the canonical text a project record is
/// written as decodes back to exactly that record.
pub proof fn lemma_project_codec_round_trip(p: ProjectV)
    ensures
        spec_decode_project(spec_encode_project(p)) == Some(p),
{
    crate::json::lemma_scan_of_document_text(project_fields(p));
    lemma_project_fields_round_trip(p);
}

/// A metadata file written by the older schema — no last-opened instant,
/// no attachment flag, no remembered filename — decodes with those fields
/// at their documented defaults, not as corrupt.
pub proof fn lemma_legacy_file_defaults(
    id: Seq<char>,
    name: Seq<char>,
    formula: Seq<char>,
    created_at: u64,
    updated_at: u64,
)
    ensures
        spec_decode_project(
            crate::json::document_text(
                legacy_project_fields(id, name, formula, created_at, updated_at),
            ),
        ) == Some(ProjectV {
            id: id,
            name: name,
            formula: formula,
            created_at: created_at,
            updated_at: updated_at,
            last_opened_at: None,
            has_cif: false,
            cif_filename: None,
        }),
{
    crate::json::lemma_scan_of_document_text(
        legacy_project_fields(id, name, formula, created_at, updated_at),
    );
    lemma_legacy_schema_defaults(id, name, formula, created_at, updated_at);
}

/// Decoding inverts encoding for band-structure records.
pub proof fn lemma_band_codec_round_trip(b: BandStructureInfoV)
    ensures
        spec_decode_band(spec_encode_band(b)) == Some(b),
{
    crate::json::lemma_scan_of_document_text(band_fields(b));
    lemma_band_fields_round_trip(b);
}

/// Decoding inverts encoding for Fermi-surface records.
pub proof fn lemma_fermi_codec_round_trip(f: FermiSurfaceInfoV)
    ensures
        spec_decode_fermi(spec_encode_fermi(f)) == Some(f),
{
    crate::json::lemma_scan_of_document_text(fermi_fields(f));
    lemma_fermi_fields_round_trip(f);
}

} // verus!
