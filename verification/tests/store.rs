use crystal_store::records::Project;
use crystal_store::store::Workspace;
use crystal_store::StoreError;

fn seeded(entries: &[(&str, u64)]) -> Workspace {
    let mut w = Workspace::new();
    for (id, t) in entries {
        w.create_project_with_id(
            id.to_string(),
            format!("project {}", id),
            "Fe".to_string(),
            *t,
        );
    }
    w
}

#[test]
fn create_assigns_record_fields() {
    let mut w = Workspace::new();
    let p = w.create_project_with_id("p1".to_string(), "Iron".to_string(), "Fe2O3".to_string(), 100);
    assert_eq!(p.id, "p1");
    assert_eq!(p.name, "Iron");
    assert_eq!(p.formula, "Fe2O3");
    assert_eq!(p.created_at, 100);
    assert_eq!(p.updated_at, 100);
    assert_eq!(p.last_opened_at, Some(100));
    assert!(!p.has_cif);
    assert_eq!(p.cif_filename, None);
    assert!(w.contains_project(&"p1".to_string()));
}

#[test]
fn create_with_random_id_is_36_chars() {
    let mut w = Workspace::new();
    let p = w.create_project(String::from("Iron"), String::from("Fe"), 5);
    assert_eq!(p.id.chars().count(), 36);
    assert!(w.contains_project(&p.id));
}

#[test]
fn list_reflects_surviving_projects_in_order() {
    let mut w = seeded(&[("a", 100), ("b", 300), ("c", 200)]);
    let listed = w.load_projects();
    let ids: Vec<&str> = listed.iter().map(|p| p.id.as_str()).collect();
    assert_eq!(ids, vec!["b", "c", "a"]);

    w.delete_project(&"b".to_string()).unwrap();
    let listed = w.load_projects();
    let ids: Vec<&str> = listed.iter().map(|p| p.id.as_str()).collect();
    assert_eq!(ids, vec!["c", "a"]);

    w.create_project_with_id("d".to_string(), "D".to_string(), "H2O".to_string(), 400);
    let listed = w.load_projects();
    let ids: Vec<&str> = listed.iter().map(|p| p.id.as_str()).collect();
    assert_eq!(ids, vec!["d", "c", "a"]);
}

#[test]
fn list_orders_by_last_opened_before_created() {
    let mut w = seeded(&[("old", 100), ("new", 200)]);
    // opening the older project moves it to the front
    let opened = w.mark_project_opened(&"old".to_string(), 500).unwrap();
    assert_eq!(opened.last_opened_at, Some(500));
    assert_eq!(opened.updated_at, 100, "opening must not touch last-modified");
    let ids: Vec<String> = w.load_projects().into_iter().map(|p| p.id).collect();
    assert_eq!(ids, vec!["old".to_string(), "new".to_string()]);
}

#[test]
fn update_recomputes_last_modified_from_stale_record() {
    let mut w = seeded(&[("p", 100)]);
    let record = Project {
        id: "p".to_string(),
        name: "renamed".to_string(),
        formula: "SiO2".to_string(),
        created_at: 100,
        updated_at: 3, // stale value supplied by the caller
        last_opened_at: Some(100),
        has_cif: false,
        cif_filename: None,
    };
    let updated = w.update_project(record, 250).unwrap();
    assert_eq!(updated.updated_at, 250);
    assert!(updated.updated_at > updated.created_at);
    assert_eq!(updated.name, "renamed");
    assert_eq!(updated.created_at, 100, "creation instant is preserved as given");
}

#[test]
fn update_missing_project_is_not_found() {
    let mut w = Workspace::new();
    let record = Project {
        id: "ghost".to_string(),
        name: String::new(),
        formula: String::new(),
        created_at: 0,
        updated_at: 0,
        last_opened_at: None,
        has_cif: false,
        cif_filename: None,
    };
    assert_eq!(w.update_project(record, 10).err(), Some(StoreError::NotFound));
    assert_eq!(w.mark_project_opened(&"ghost".to_string(), 10).err(), Some(StoreError::NotFound));
    assert_eq!(w.delete_project(&"ghost".to_string()), Err(StoreError::NotFound));
}

#[test]
fn structure_file_reimport_overwrites() {
    let mut w = seeded(&[("p", 100)]);
    let pid = "p".to_string();
    let first = w
        .import_cif_file(&pid, "data one".to_string(), "one.cif".to_string(), 110)
        .unwrap();
    assert!(first.has_cif);
    assert_eq!(first.cif_filename, Some("one.cif".to_string()));
    assert_eq!(first.updated_at, 110);
    assert_eq!(w.read_cif_file(&pid).unwrap(), "data one");

    let second = w
        .import_cif_file(&pid, "data two".to_string(), "two.cif".to_string(), 120)
        .unwrap();
    assert_eq!(second.cif_filename, Some("two.cif".to_string()));
    assert_eq!(w.read_cif_file(&pid).unwrap(), "data two");
}

#[test]
fn structure_file_absent_is_not_found() {
    let mut w = seeded(&[("p", 100)]);
    assert_eq!(w.read_cif_file(&"p".to_string()).err(), Some(StoreError::NotFound));
    assert_eq!(w.read_cif_file(&"ghost".to_string()).err(), Some(StoreError::NotFound));
    assert_eq!(
        w.import_cif_file(&"ghost".to_string(), String::new(), String::new(), 1).err(),
        Some(StoreError::NotFound)
    );
}

#[test]
fn crystal_data_absent_then_saved() {
    let mut w = seeded(&[("p", 100)]);
    let pid = "p".to_string();
    assert_eq!(w.load_crystal_data(&pid), Ok(None));
    w.save_crystal_data(&pid, "{\"cell\": 1}".to_string()).unwrap();
    assert_eq!(w.load_crystal_data(&pid), Ok(Some("{\"cell\": 1}".to_string())));
    w.save_crystal_data(&pid, "{\"cell\": 2}".to_string()).unwrap();
    assert_eq!(w.load_crystal_data(&pid), Ok(Some("{\"cell\": 2}".to_string())));
    assert_eq!(w.load_crystal_data(&"ghost".to_string()).err(), Some(StoreError::NotFound));
}

#[test]
fn band_structure_crud() {
    let mut w = seeded(&[("p", 100)]);
    let pid = "p".to_string();
    let info = w
        .import_band_structure_with_id(
            &pid,
            "b1".to_string(),
            "run one".to_string(),
            "qtl data".to_string(),
            "case.qtl".to_string(),
            "klist data".to_string(),
            "case.klist_band".to_string(),
            150,
        )
        .unwrap();
    assert_eq!(info.id, "b1");
    assert_eq!(info.created_at, 150);
    assert_eq!(info.qtl_filename, "case.qtl");
    assert_eq!(info.klist_filename, "case.klist_band");

    let (qtl, klist) = w.load_band_structure_files(&pid, &"b1".to_string()).unwrap();
    assert_eq!(qtl, "qtl data");
    assert_eq!(klist, "klist data");

    let listed = w.list_band_structures(&pid).unwrap();
    assert_eq!(listed.len(), 1);
    assert_eq!(listed[0].name, "run one");

    w.delete_band_structure(&pid, &"b1".to_string()).unwrap();
    assert!(w.list_band_structures(&pid).unwrap().is_empty());
    assert_eq!(
        w.load_band_structure_files(&pid, &"b1".to_string()).err(),
        Some(StoreError::NotFound)
    );
    assert_eq!(
        w.delete_band_structure(&pid, &"b1".to_string()),
        Err(StoreError::NotFound)
    );
}

#[test]
fn band_structures_list_newest_first() {
    let mut w = seeded(&[("p", 100)]);
    let pid = "p".to_string();
    for (id, t) in [("b1", 10u64), ("b3", 30), ("b2", 20)] {
        w.import_band_structure_with_id(
            &pid,
            id.to_string(),
            id.to_string(),
            String::new(),
            String::new(),
            String::new(),
            String::new(),
            t,
        )
        .unwrap();
    }
    let ids: Vec<String> = w
        .list_band_structures(&pid)
        .unwrap()
        .into_iter()
        .map(|b| b.id)
        .collect();
    assert_eq!(ids, vec!["b3".to_string(), "b2".to_string(), "b1".to_string()]);
}

#[test]
fn band_sidecars_absent_then_saved() {
    let mut w = seeded(&[("p", 100)]);
    let pid = "p".to_string();
    let bid = "b1".to_string();
    w.import_band_structure_with_id(
        &pid,
        bid.clone(),
        "b".to_string(),
        String::new(),
        String::new(),
        String::new(),
        String::new(),
        1,
    )
    .unwrap();
    assert_eq!(w.load_band_structure_labels(&pid, &bid), Ok(None));
    assert_eq!(w.load_band_structure_atom_names(&pid, &bid), Ok(None));
    w.update_band_structure_labels(&pid, &bid, "[\"G\",\"X\"]".to_string()).unwrap();
    w.update_band_structure_atom_names(&pid, &bid, "[\"Fe\"]".to_string()).unwrap();
    assert_eq!(w.load_band_structure_labels(&pid, &bid), Ok(Some("[\"G\",\"X\"]".to_string())));
    assert_eq!(w.load_band_structure_atom_names(&pid, &bid), Ok(Some("[\"Fe\"]".to_string())));
    assert_eq!(
        w.load_band_structure_labels(&pid, &"ghost".to_string()).err(),
        Some(StoreError::NotFound)
    );
}

#[test]
fn fermi_surface_crud() {
    let mut w = seeded(&[("p", 100)]);
    let pid = "p".to_string();
    let info = w
        .import_fermi_surface_with_id(
            &pid,
            "f1".to_string(),
            "surface".to_string(),
            "o1".to_string(),
            "o2".to_string(),
            "kgen".to_string(),
            "struct".to_string(),
            "tin".to_string(),
            200,
        )
        .unwrap();
    assert_eq!(info.case_name, "tin");
    let (o1, o2, kgen, st) = w.load_fermi_surface_files(&pid, &"f1".to_string()).unwrap();
    assert_eq!((o1.as_str(), o2.as_str(), kgen.as_str(), st.as_str()), ("o1", "o2", "kgen", "struct"));

    let listed = w.list_fermi_surfaces(&pid).unwrap();
    assert_eq!(listed.len(), 1);

    w.delete_fermi_surface(&pid, &"f1".to_string()).unwrap();
    assert!(w.list_fermi_surfaces(&pid).unwrap().is_empty());
    assert_eq!(
        w.load_fermi_surface_files(&pid, &"f1".to_string()).err(),
        Some(StoreError::NotFound)
    );
}

#[test]
fn deleting_project_removes_children() {
    let mut w = seeded(&[("p", 100), ("q", 100)]);
    let pid = "p".to_string();
    w.import_band_structure_with_id(
        &pid,
        "b1".to_string(),
        "b".to_string(),
        String::new(),
        String::new(),
        String::new(),
        String::new(),
        1,
    )
    .unwrap();
    w.import_fermi_surface_with_id(
        &pid,
        "f1".to_string(),
        "f".to_string(),
        String::new(),
        String::new(),
        String::new(),
        String::new(),
        "case".to_string(),
        2,
    )
    .unwrap();

    w.delete_project(&pid).unwrap();

    // the parent no longer resolves, so the child listings fail
    assert_eq!(w.list_band_structures(&pid).err(), Some(StoreError::NotFound));
    assert_eq!(w.list_fermi_surfaces(&pid).err(), Some(StoreError::NotFound));
    assert_eq!(
        w.load_band_structure_files(&pid, &"b1".to_string()).err(),
        Some(StoreError::NotFound)
    );
    // the sibling project is untouched
    assert!(w.contains_project(&"q".to_string()));
}

#[test]
fn resource_listings_on_missing_project_fail() {
    let w = Workspace::new();
    let ghost_id = "ghost".to_string();
    assert_eq!(w.list_band_structures(&ghost_id).err(), Some(StoreError::NotFound));
    assert_eq!(w.list_fermi_surfaces(&ghost_id).err(), Some(StoreError::NotFound));
}

#[test]
fn errors_carry_their_messages() {
    assert_eq!(StoreError::NotFound.message(), "not found");
    assert_eq!(StoreError::Corrupt.message(), "the stored metadata does not parse");
    assert_eq!(StoreError::IoFailure.message(), "a read, write, copy or remove failed");
    assert_eq!(
        StoreError::StorageUnavailable.message(),
        "the storage root cannot be resolved or created"
    );
}

#[test]
fn empty_store_lists_nothing() {
    let w = Workspace::new();
    assert!(w.load_projects().is_empty());
    assert!(!w.contains_project(&"anything".to_string()));
}

#[test]
fn listing_keeps_both_projects_on_equal_sort_keys() {
    let mut w = seeded(&[("a", 100), ("b", 100)]);
    let listed = w.load_projects();
    assert_eq!(listed.len(), 2);
    let mut ids: Vec<String> = listed.into_iter().map(|p| p.id).collect();
    ids.sort();
    assert_eq!(ids, vec!["a".to_string(), "b".to_string()]);
    w.delete_project(&"a".to_string()).unwrap();
    assert_eq!(w.load_projects().len(), 1);
}
