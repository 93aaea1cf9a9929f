//! The on-disk layout: the single source of truth for where, under a given
//! storage root, each project, resource and file lives. The shell resolves
//! every read and write through these functions; nothing else decides a
//! path.

use vstd::prelude::*;

verus! {

/// `dir` extended by one path component.
pub open spec fn joined(dir: Seq<char>, name: Seq<char>) -> Seq<char> {
    dir + "/"@ + name
}

/// The directory of a project inside the root.
pub open spec fn project_dir_of(root: Seq<char>, project_id: Seq<char>) -> Seq<char> {
    joined(joined(root, "projects"@), project_id)
}

/// The directory of a band structure inside its project.
pub open spec fn band_dir_of(root: Seq<char>, project_id: Seq<char>, band_id: Seq<char>) -> Seq<
    char,
> {
    joined(joined(project_dir_of(root, project_id), "band_structures"@), band_id)
}

/// The directory of a Fermi surface inside its project.
pub open spec fn fermi_dir_of(root: Seq<char>, project_id: Seq<char>, fermi_id: Seq<char>) -> Seq<
    char,
> {
    joined(joined(project_dir_of(root, project_id), "fermi_surfaces"@), fermi_id)
}

fn join_path(dir: &String, name: &str) -> (r: String)
    ensures
        r@ == joined(dir@, name@),
{
    let mut r = dir.clone();
    r.append("/");
    r.append(name);
    r
}

/// The directory all projects live under.
pub fn projects_dir(root: &String) -> (r: String)
    ensures
        r@ == joined(root@, "projects"@),
{
    join_path(root, "projects")
}

/// A project's directory; its name is the project's identifier.
pub fn project_dir(root: &String, project_id: &String) -> (r: String)
    ensures
        r@ == project_dir_of(root@, project_id@),
{
    let d = projects_dir(root);
    join_path(&d, project_id.as_str())
}

/// A project's metadata file.
pub fn project_meta_path(root: &String, project_id: &String) -> (r: String)
    ensures
        r@ == joined(project_dir_of(root@, project_id@), "project.json"@),
{
    let d = project_dir(root, project_id);
    join_path(&d, "project.json")
}

/// The canonical name under which a project's imported structure file is
/// kept, whatever it was called outside.
pub fn structure_file_path(root: &String, project_id: &String) -> (r: String)
    ensures
        r@ == joined(project_dir_of(root@, project_id@), "structure.cif"@),
{
    let d = project_dir(root, project_id);
    join_path(&d, "structure.cif")
}

/// A project's crystal-data blob.
pub fn crystal_data_path(root: &String, project_id: &String) -> (r: String)
    ensures
        r@ == joined(project_dir_of(root@, project_id@), "cif_data.json"@),
{
    let d = project_dir(root, project_id);
    join_path(&d, "cif_data.json")
}

/// The sub-collection directory a project's band structures live under.
pub fn band_collection_dir(root: &String, project_id: &String) -> (r: String)
    ensures
        r@ == joined(project_dir_of(root@, project_id@), "band_structures"@),
{
    let d = project_dir(root, project_id);
    join_path(&d, "band_structures")
}

/// A band structure's directory; its name is the resource's identifier.
pub fn band_dir(root: &String, project_id: &String, band_id: &String) -> (r: String)
    ensures
        r@ == band_dir_of(root@, project_id@, band_id@),
{
    let d = band_collection_dir(root, project_id);
    join_path(&d, band_id.as_str())
}

/// A band structure's metadata file.
pub fn band_meta_path(root: &String, project_id: &String, band_id: &String) -> (r: String)
    ensures
        r@ == joined(band_dir_of(root@, project_id@, band_id@), "info.json"@),
{
    let d = band_dir(root, project_id, band_id);
    join_path(&d, "info.json")
}

/// The canonical copy of a band structure's band data file.
pub fn band_qtl_path(root: &String, project_id: &String, band_id: &String) -> (r: String)
    ensures
        r@ == joined(band_dir_of(root@, project_id@, band_id@), "data.qtl"@),
{
    let d = band_dir(root, project_id, band_id);
    join_path(&d, "data.qtl")
}

/// The canonical copy of a band structure's k-point list file.
pub fn band_klist_path(root: &String, project_id: &String, band_id: &String) -> (r: String)
    ensures
        r@ == joined(band_dir_of(root@, project_id@, band_id@), "data.klist_band"@),
{
    let d = band_dir(root, project_id, band_id);
    join_path(&d, "data.klist_band")
}

/// A band structure's label-overlay sidecar.
pub fn band_labels_path(root: &String, project_id: &String, band_id: &String) -> (r: String)
    ensures
        r@ == joined(band_dir_of(root@, project_id@, band_id@), "labels.json"@),
{
    let d = band_dir(root, project_id, band_id);
    join_path(&d, "labels.json")
}

/// A band structure's atom-name-overlay sidecar.
pub fn band_atom_names_path(root: &String, project_id: &String, band_id: &String) -> (r: String)
    ensures
        r@ == joined(band_dir_of(root@, project_id@, band_id@), "atom_names.json"@),
{
    let d = band_dir(root, project_id, band_id);
    join_path(&d, "atom_names.json")
}

/// The sub-collection directory a project's Fermi surfaces live under.
pub fn fermi_collection_dir(root: &String, project_id: &String) -> (r: String)
    ensures
        r@ == joined(project_dir_of(root@, project_id@), "fermi_surfaces"@),
{
    let d = project_dir(root, project_id);
    join_path(&d, "fermi_surfaces")
}

/// A Fermi surface's directory; its name is the resource's identifier.
pub fn fermi_dir(root: &String, project_id: &String, fermi_id: &String) -> (r: String)
    ensures
        r@ == fermi_dir_of(root@, project_id@, fermi_id@),
{
    let d = fermi_collection_dir(root, project_id);
    join_path(&d, fermi_id.as_str())
}

/// A Fermi surface's metadata file.
pub fn fermi_meta_path(root: &String, project_id: &String, fermi_id: &String) -> (r: String)
    ensures
        r@ == joined(fermi_dir_of(root@, project_id@, fermi_id@), "info.json"@),
{
    let d = fermi_dir(root, project_id, fermi_id);
    join_path(&d, "info.json")
}

/// The canonical copy of a Fermi surface's first output file.
pub fn fermi_output1_path(root: &String, project_id: &String, fermi_id: &String) -> (r: String)
    ensures
        r@ == joined(fermi_dir_of(root@, project_id@, fermi_id@), "data.output1"@),
{
    let d = fermi_dir(root, project_id, fermi_id);
    join_path(&d, "data.output1")
}

/// The canonical copy of a Fermi surface's second output file.
pub fn fermi_output2_path(root: &String, project_id: &String, fermi_id: &String) -> (r: String)
    ensures
        r@ == joined(fermi_dir_of(root@, project_id@, fermi_id@), "data.output2"@),
{
    let d = fermi_dir(root, project_id, fermi_id);
    join_path(&d, "data.output2")
}

/// The canonical copy of a Fermi surface's k-mesh generator output file.
pub fn fermi_outputkgen_path(root: &String, project_id: &String, fermi_id: &String) -> (r: String)
    ensures
        r@ == joined(fermi_dir_of(root@, project_id@, fermi_id@), "data.outputkgen"@),
{
    let d = fermi_dir(root, project_id, fermi_id);
    join_path(&d, "data.outputkgen")
}

/// The canonical copy of a Fermi surface's structure file.
pub fn fermi_struct_path(root: &String, project_id: &String, fermi_id: &String) -> (r: String)
    ensures
        r@ == joined(fermi_dir_of(root@, project_id@, fermi_id@), "data.struct"@),
{
    let d = fermi_dir(root, project_id, fermi_id);
    join_path(&d, "data.struct")
}

} // verus!
