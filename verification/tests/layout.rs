use crystal_store::paths;
use crystal_store::sys::now_millis;

#[test]
fn clock_reads_a_positive_instant() {
    assert!(now_millis() > 0);
}

#[test]
fn project_paths_follow_the_layout() {
    let root = "/data/app".to_string();
    let pid = "p1".to_string();
    assert_eq!(paths::projects_dir(&root), "/data/app/projects");
    assert_eq!(paths::project_dir(&root, &pid), "/data/app/projects/p1");
    assert_eq!(paths::project_meta_path(&root, &pid), "/data/app/projects/p1/project.json");
    assert_eq!(paths::structure_file_path(&root, &pid), "/data/app/projects/p1/structure.cif");
    assert_eq!(paths::crystal_data_path(&root, &pid), "/data/app/projects/p1/cif_data.json");
}

#[test]
fn band_paths_follow_the_layout() {
    let root = "/r".to_string();
    let pid = "p".to_string();
    let bid = "b".to_string();
    assert_eq!(paths::band_collection_dir(&root, &pid), "/r/projects/p/band_structures");
    assert_eq!(paths::band_dir(&root, &pid, &bid), "/r/projects/p/band_structures/b");
    assert_eq!(paths::band_meta_path(&root, &pid, &bid), "/r/projects/p/band_structures/b/info.json");
    assert_eq!(paths::band_qtl_path(&root, &pid, &bid), "/r/projects/p/band_structures/b/data.qtl");
    assert_eq!(
        paths::band_klist_path(&root, &pid, &bid),
        "/r/projects/p/band_structures/b/data.klist_band"
    );
    assert_eq!(
        paths::band_labels_path(&root, &pid, &bid),
        "/r/projects/p/band_structures/b/labels.json"
    );
    assert_eq!(
        paths::band_atom_names_path(&root, &pid, &bid),
        "/r/projects/p/band_structures/b/atom_names.json"
    );
}

#[test]
fn fermi_paths_follow_the_layout() {
    let root = "/r".to_string();
    let pid = "p".to_string();
    let fid = "f".to_string();
    assert_eq!(paths::fermi_collection_dir(&root, &pid), "/r/projects/p/fermi_surfaces");
    assert_eq!(paths::fermi_dir(&root, &pid, &fid), "/r/projects/p/fermi_surfaces/f");
    assert_eq!(paths::fermi_meta_path(&root, &pid, &fid), "/r/projects/p/fermi_surfaces/f/info.json");
    assert_eq!(
        paths::fermi_output1_path(&root, &pid, &fid),
        "/r/projects/p/fermi_surfaces/f/data.output1"
    );
    assert_eq!(
        paths::fermi_output2_path(&root, &pid, &fid),
        "/r/projects/p/fermi_surfaces/f/data.output2"
    );
    assert_eq!(
        paths::fermi_outputkgen_path(&root, &pid, &fid),
        "/r/projects/p/fermi_surfaces/f/data.outputkgen"
    );
    assert_eq!(
        paths::fermi_struct_path(&root, &pid, &fid),
        "/r/projects/p/fermi_surfaces/f/data.struct"
    );
}
