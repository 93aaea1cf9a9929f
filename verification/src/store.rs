//! The hierarchical resource store: projects and, under each project, its
//! band-structure and Fermi-surface resources, each with its data files and
//! optional sidecar blobs.
//!
//! `Workspace` is the store's semantics: every operation of the on-disk
//! store is defined here over in-memory state, abstracted as a map from
//! project identifier to project contents. The unverified shell mirrors
//! this state to the directory hierarchy; what each operation means is
//! fixed by the contracts in this module.

use crate::keyed::{
    distinct_keys, key_map, lemma_distinct_push, lemma_distinct_remove, lemma_key_map_dom,
    lemma_key_map_get, lemma_key_map_push, lemma_key_map_remove, lemma_key_map_replace,
    lemma_to_multiset_insert, KeyedView,
};
use crate::records::{
    opt_text, recency_key, BandStructureInfo, BandStructureInfoV, FermiSurfaceInfo,
    FermiSurfaceInfoV, Project, ProjectV,
};
use crate::sys::fresh_id;
use crate::StoreError;
use vstd::prelude::*;

verus! {

/// A band-structure resource: its record, the contents of its two copied
/// data files, and its two optional sidecar blobs.
pub struct BandNode {
    pub info: BandStructureInfo,
    pub qtl: String,
    pub klist: String,
    pub labels: Option<String>,
    pub atom_names: Option<String>,
}

#[verifier::ext_equal]
pub struct BandNodeV {
    pub info: BandStructureInfoV,
    pub qtl: Seq<char>,
    pub klist: Seq<char>,
    pub labels: Option<Seq<char>>,
    pub atom_names: Option<Seq<char>>,
}

impl View for BandNode {
    type V = BandNodeV;

    open spec fn view(&self) -> BandNodeV {
        BandNodeV {
            info: self.info@,
            qtl: self.qtl@,
            klist: self.klist@,
            labels: opt_text(self.labels),
            atom_names: opt_text(self.atom_names),
        }
    }
}

impl KeyedView for BandNode {
    open spec fn key(&self) -> Seq<char> {
        self.info.id@
    }
}

/// A Fermi-surface resource: its record and the contents of its four
/// copied data files.
pub struct FermiNode {
    pub info: FermiSurfaceInfo,
    pub output1: String,
    pub output2: String,
    pub outputkgen: String,
    pub struct_file: String,
}

#[verifier::ext_equal]
pub struct FermiNodeV {
    pub info: FermiSurfaceInfoV,
    pub output1: Seq<char>,
    pub output2: Seq<char>,
    pub outputkgen: Seq<char>,
    pub struct_file: Seq<char>,
}

impl View for FermiNode {
    type V = FermiNodeV;

    open spec fn view(&self) -> FermiNodeV {
        FermiNodeV {
            info: self.info@,
            output1: self.output1@,
            output2: self.output2@,
            outputkgen: self.outputkgen@,
            struct_file: self.struct_file@,
        }
    }
}

impl KeyedView for FermiNode {
    open spec fn key(&self) -> Seq<char> {
        self.info.id@
    }
}

/// Everything one project directory holds: the metadata record, the
/// attached structure file if any, the crystal-data blob if any, and the
/// two child resource collections.
pub struct ProjectNode {
    pub meta: Project,
    pub structure: Option<String>,
    pub crystal: Option<String>,
    pub bands: Vec<BandNode>,
    pub fermis: Vec<FermiNode>,
}

#[verifier::ext_equal]
pub struct ProjectNodeV {
    pub meta: ProjectV,
    pub structure: Option<Seq<char>>,
    pub crystal: Option<Seq<char>>,
    pub bands: Map<Seq<char>, BandNodeV>,
    pub fermis: Map<Seq<char>, FermiNodeV>,
}

impl View for ProjectNode {
    type V = ProjectNodeV;

    open spec fn view(&self) -> ProjectNodeV {
        ProjectNodeV {
            meta: self.meta@,
            structure: opt_text(self.structure),
            crystal: opt_text(self.crystal),
            bands: key_map(self.bands@),
            fermis: key_map(self.fermis@),
        }
    }
}

impl KeyedView for ProjectNode {
    open spec fn key(&self) -> Seq<char> {
        self.meta.id@
    }
}

impl ProjectNode {
    /// Child resources are filed under distinct identifiers.
    pub open spec fn wf(&self) -> bool {
        distinct_keys(self.bands@) && distinct_keys(self.fermis@)
    }
}

/// The record a create operation files: both timestamps at the creation
/// instant, just opened, no structure file attached.
pub open spec fn create_meta(id: Seq<char>, name: Seq<char>, formula: Seq<char>, now: u64) -> ProjectV {
    ProjectV {
        id: id,
        name: name,
        formula: formula,
        created_at: now,
        updated_at: now,
        last_opened_at: Some(now),
        has_cif: false,
        cif_filename: None,
    }
}

/// The entry a map holds under an identifier, if any.
pub open spec fn stored(m: Map<Seq<char>, ProjectNodeV>, id: Seq<char>) -> Option<ProjectNodeV> {
    if m.dom().contains(id) {
        Some(m[id])
    } else {
        None
    }
}

/// The project contents after a create operation: a create writes only the
/// metadata record, so contents already filed under the same identifier
/// survive; under a fresh identifier the project starts empty.
pub open spec fn created_node(prior: Option<ProjectNodeV>, meta: ProjectV) -> ProjectNodeV {
    match prior {
        Some(n) => ProjectNodeV { meta: meta, ..n },
        None => ProjectNodeV {
            meta: meta,
            structure: None,
            crystal: None,
            bands: Map::empty(),
            fermis: Map::empty(),
        },
    }
}

/// The entry a band collection holds under an identifier, if any.
pub open spec fn band_stored(m: Map<Seq<char>, BandNodeV>, id: Seq<char>) -> Option<BandNodeV> {
    if m.dom().contains(id) {
        Some(m[id])
    } else {
        None
    }
}

/// The band contents after an import: an import writes the record and the
/// two data files, so sidecar blobs already filed under the same identifier
/// survive; under a fresh identifier there are none.
pub open spec fn band_created_node(
    prior: Option<BandNodeV>,
    info: BandStructureInfoV,
    qtl: Seq<char>,
    klist: Seq<char>,
) -> BandNodeV {
    BandNodeV {
        info: info,
        qtl: qtl,
        klist: klist,
        labels: match prior {
            Some(n) => n.labels,
            None => None,
        },
        atom_names: match prior {
            Some(n) => n.atom_names,
            None => None,
        },
    }
}

/// One project-level mutation, for stating what a whole sequence of them
/// leaves behind.
pub enum ProjectOp {
    Create { id: Seq<char>, name: Seq<char>, formula: Seq<char>, now: u64 },
    Update { record: ProjectV, now: u64 },
    Delete { id: Seq<char> },
}

/// What one project-level mutation does to the store's abstract state;
/// each operation's contract ties it to this function.
pub open spec fn apply_project_op(
    m: Map<Seq<char>, ProjectNodeV>,
    op: ProjectOp,
) -> Map<Seq<char>, ProjectNodeV> {
    match op {
        ProjectOp::Create { id, name, formula, now } => m.insert(
            id,
            created_node(stored(m, id), create_meta(id, name, formula, now)),
        ),
        ProjectOp::Update { record, now } => if m.dom().contains(record.id) {
            m.insert(
                record.id,
                ProjectNodeV { meta: ProjectV { updated_at: now, ..record }, ..m[record.id] },
            )
        } else {
            m
        },
        ProjectOp::Delete { id } => if m.dom().contains(id) {
            m.remove(id)
        } else {
            m
        },
    }
}

/// The views of a sequence of project records.
pub open spec fn meta_views(s: Seq<Project>) -> Seq<ProjectV> {
    s.map_values(|p: Project| p@)
}

/// The metadata views a sequence of project nodes carries.
pub open spec fn node_metas(s: Seq<ProjectNode>) -> Seq<ProjectV> {
    s.map_values(|n: ProjectNode| n.meta@)
}

/// Ordered most recently relevant first: by last-opened instant when
/// present, else by creation instant, descending.
pub open spec fn sorted_by_recency(s: Seq<ProjectV>) -> bool {
    forall|i: int, j: int| 0 <= i < j < s.len() ==> recency_key(s[j]) <= recency_key(s[i])
}

/// Stable ordering of project records, most recently relevant first.
fn sort_projects(v: Vec<Project>) -> (r: Vec<Project>)
    ensures
        meta_views(r@).to_multiset() == meta_views(v@).to_multiset(),
        sorted_by_recency(meta_views(r@)),
{
    let mut out: Vec<Project> = Vec::new();
    let mut idx: usize = 0;
    proof {
        assert(meta_views(out@) =~= Seq::<ProjectV>::empty());
        assert(meta_views(v@.take(0)) =~= Seq::<ProjectV>::empty());
    }
    while idx < v.len()
        invariant
            idx <= v@.len(),
            meta_views(out@).to_multiset() == meta_views(v@.take(idx as int)).to_multiset(),
            sorted_by_recency(meta_views(out@)),
        decreases v@.len() - idx,
    {
        let p = v[idx].duplicate();
        let mut pos: usize = 0;
        while pos < out.len() && out[pos].recency() >= p.recency()
            invariant
                pos <= out@.len(),
                forall|j: int| 0 <= j < pos ==> recency_key(meta_views(out@)[j]) >= recency_key(p@),
            decreases out@.len() - pos,
        {
            pos += 1;
        }
        let ghost out0 = out@;
        out.insert(pos, p);
        proof {
            assert(out@ =~= out0.insert(pos as int, p));
            assert(meta_views(out@) =~= meta_views(out0).insert(pos as int, p@));
            lemma_to_multiset_insert(meta_views(out0), pos as int, p@);
            assert(v@.take(idx as int + 1) =~= v@.take(idx as int).push(v@[idx as int]));
            assert(meta_views(v@.take(idx as int + 1)) =~= meta_views(v@.take(idx as int)).push(
                v@[idx as int]@,
            ));
            broadcast use vstd::seq_lib::group_to_multiset_ensures;

            assert(meta_views(out@).to_multiset() =~= meta_views(v@.take(idx as int + 1)).to_multiset());
            let m = meta_views(out@);
            assert forall|a: int, b: int| 0 <= a < b < m.len() implies recency_key(m[b])
                <= recency_key(m[a]) by {
                let mo = meta_views(out0);
                if b < pos {
                } else if a < pos && b == pos {
                    assert(recency_key(mo[a]) >= recency_key(p@));
                } else if a < pos && b > pos {
                    assert(m[b] == mo[b - 1]);
                } else if a == pos {
                    assert(m[b] == mo[b - 1]);
                    if pos < out0.len() {
                        assert(recency_key(mo[pos as int]) < recency_key(p@));
                        if b - 1 > pos {
                            assert(recency_key(mo[b - 1]) <= recency_key(mo[pos as int]));
                        }
                    }
                } else {
                    assert(m[a] == mo[a - 1]);
                    assert(m[b] == mo[b - 1]);
                }
            }
        }
        idx += 1;
    }
    proof {
        assert(v@.take(v@.len() as int) =~= v@);
    }
    out
}


/// The views of a sequence of band-structure records.
pub open spec fn band_views(s: Seq<BandStructureInfo>) -> Seq<BandStructureInfoV> {
    s.map_values(|b: BandStructureInfo| b@)
}

/// The record views a sequence of band nodes carries.
pub open spec fn band_node_infos(s: Seq<BandNode>) -> Seq<BandStructureInfoV> {
    s.map_values(|n: BandNode| n.info@)
}

/// Ordered by creation instant, newest first.
pub open spec fn sorted_bands_by_creation(s: Seq<BandStructureInfoV>) -> bool {
    forall|i: int, j: int| 0 <= i < j < s.len() ==> s[j].created_at <= s[i].created_at
}

/// Stable ordering of band-structure records, newest first.
fn sort_band_infos(v: Vec<BandStructureInfo>) -> (r: Vec<BandStructureInfo>)
    ensures
        band_views(r@).to_multiset() == band_views(v@).to_multiset(),
        sorted_bands_by_creation(band_views(r@)),
{
    let mut out: Vec<BandStructureInfo> = Vec::new();
    let mut idx: usize = 0;
    proof {
        assert(band_views(out@) =~= Seq::<BandStructureInfoV>::empty());
        assert(band_views(v@.take(0)) =~= Seq::<BandStructureInfoV>::empty());
    }
    while idx < v.len()
        invariant
            idx <= v@.len(),
            band_views(out@).to_multiset() == band_views(v@.take(idx as int)).to_multiset(),
            sorted_bands_by_creation(band_views(out@)),
        decreases v@.len() - idx,
    {
        let p = v[idx].duplicate();
        let mut pos: usize = 0;
        while pos < out.len() && out[pos].created_at >= p.created_at
            invariant
                pos <= out@.len(),
                forall|j: int| 0 <= j < pos ==> band_views(out@)[j].created_at >= p@.created_at,
            decreases out@.len() - pos,
        {
            pos += 1;
        }
        let ghost out0 = out@;
        out.insert(pos, p);
        proof {
            assert(out@ =~= out0.insert(pos as int, p));
            assert(band_views(out@) =~= band_views(out0).insert(pos as int, p@));
            lemma_to_multiset_insert(band_views(out0), pos as int, p@);
            assert(v@.take(idx as int + 1) =~= v@.take(idx as int).push(v@[idx as int]));
            assert(band_views(v@.take(idx as int + 1)) =~= band_views(v@.take(idx as int)).push(
                v@[idx as int]@,
            ));
            broadcast use vstd::seq_lib::group_to_multiset_ensures;

            assert(band_views(out@).to_multiset() =~= band_views(
                v@.take(idx as int + 1),
            ).to_multiset());
            let m = band_views(out@);
            assert forall|a: int, b: int| 0 <= a < b < m.len() implies m[b].created_at
                <= m[a].created_at by {
                let mo = band_views(out0);
                if b < pos {
                } else if a < pos && b == pos {
                    assert(mo[a].created_at >= p@.created_at);
                } else if a < pos && b > pos {
                    assert(m[b] == mo[b - 1]);
                } else if a == pos {
                    assert(m[b] == mo[b - 1]);
                    if pos < out0.len() {
                        assert(mo[pos as int].created_at < p@.created_at);
                        if b - 1 > pos {
                            assert(mo[b - 1].created_at <= mo[pos as int].created_at);
                        }
                    }
                } else {
                    assert(m[a] == mo[a - 1]);
                    assert(m[b] == mo[b - 1]);
                }
            }
        }
        idx += 1;
    }
    proof {
        assert(v@.take(v@.len() as int) =~= v@);
    }
    out
}

/// The views of a sequence of Fermi-surface records.
pub open spec fn fermi_views(s: Seq<FermiSurfaceInfo>) -> Seq<FermiSurfaceInfoV> {
    s.map_values(|b: FermiSurfaceInfo| b@)
}

/// The record views a sequence of Fermi nodes carries.
pub open spec fn fermi_node_infos(s: Seq<FermiNode>) -> Seq<FermiSurfaceInfoV> {
    s.map_values(|n: FermiNode| n.info@)
}

/// Ordered by creation instant, newest first.
pub open spec fn sorted_fermis_by_creation(s: Seq<FermiSurfaceInfoV>) -> bool {
    forall|i: int, j: int| 0 <= i < j < s.len() ==> s[j].created_at <= s[i].created_at
}

/// Stable ordering of Fermi-surface records, newest first.
fn sort_fermi_infos(v: Vec<FermiSurfaceInfo>) -> (r: Vec<FermiSurfaceInfo>)
    ensures
        fermi_views(r@).to_multiset() == fermi_views(v@).to_multiset(),
        sorted_fermis_by_creation(fermi_views(r@)),
{
    let mut out: Vec<FermiSurfaceInfo> = Vec::new();
    let mut idx: usize = 0;
    proof {
        assert(fermi_views(out@) =~= Seq::<FermiSurfaceInfoV>::empty());
        assert(fermi_views(v@.take(0)) =~= Seq::<FermiSurfaceInfoV>::empty());
    }
    while idx < v.len()
        invariant
            idx <= v@.len(),
            fermi_views(out@).to_multiset() == fermi_views(v@.take(idx as int)).to_multiset(),
            sorted_fermis_by_creation(fermi_views(out@)),
        decreases v@.len() - idx,
    {
        let p = v[idx].duplicate();
        let mut pos: usize = 0;
        while pos < out.len() && out[pos].created_at >= p.created_at
            invariant
                pos <= out@.len(),
                forall|j: int| 0 <= j < pos ==> fermi_views(out@)[j].created_at >= p@.created_at,
            decreases out@.len() - pos,
        {
            pos += 1;
        }
        let ghost out0 = out@;
        out.insert(pos, p);
        proof {
            assert(out@ =~= out0.insert(pos as int, p));
            assert(fermi_views(out@) =~= fermi_views(out0).insert(pos as int, p@));
            lemma_to_multiset_insert(fermi_views(out0), pos as int, p@);
            assert(v@.take(idx as int + 1) =~= v@.take(idx as int).push(v@[idx as int]));
            assert(fermi_views(v@.take(idx as int + 1)) =~= fermi_views(v@.take(idx as int)).push(
                v@[idx as int]@,
            ));
            broadcast use vstd::seq_lib::group_to_multiset_ensures;

            assert(fermi_views(out@).to_multiset() =~= fermi_views(
                v@.take(idx as int + 1),
            ).to_multiset());
            let m = fermi_views(out@);
            assert forall|a: int, b: int| 0 <= a < b < m.len() implies m[b].created_at
                <= m[a].created_at by {
                let mo = fermi_views(out0);
                if b < pos {
                } else if a < pos && b == pos {
                    assert(mo[a].created_at >= p@.created_at);
                } else if a < pos && b > pos {
                    assert(m[b] == mo[b - 1]);
                } else if a == pos {
                    assert(m[b] == mo[b - 1]);
                    if pos < out0.len() {
                        assert(mo[pos as int].created_at < p@.created_at);
                        if b - 1 > pos {
                            assert(mo[b - 1].created_at <= mo[pos as int].created_at);
                        }
                    }
                } else {
                    assert(m[a] == mo[a - 1]);
                    assert(m[b] == mo[b - 1]);
                }
            }
        }
        idx += 1;
    }
    proof {
        assert(v@.take(v@.len() as int) =~= v@);
    }
    out
}

/// What a project listing promises: exactly the stored records — each
/// entry is a stored project's record, every stored project appears, no
/// identifier appears twice — ordered most recently relevant first.
pub open spec fn lists_projects(list: Seq<Project>, m: Map<Seq<char>, ProjectNodeV>) -> bool {
    &&& forall|i: int| 0 <= i < list.len() ==> m.dom().contains(#[trigger] list[i]@.id)
        && list[i]@ == m[list[i]@.id].meta
    &&& forall|k: Seq<char>| #[trigger] m.dom().contains(k) ==> exists|i: int|
        0 <= i < list.len() && list[i]@.id == k
    &&& forall|i: int, j: int| 0 <= i < j < list.len() ==> list[i]@.id != list[j]@.id
    &&& sorted_by_recency(meta_views(list))
}

/// What a band-structure listing promises: exactly the stored records,
/// none twice, newest first.
pub open spec fn lists_bands(list: Seq<BandStructureInfo>, m: Map<Seq<char>, BandNodeV>) -> bool {
    &&& forall|i: int| 0 <= i < list.len() ==> m.dom().contains(#[trigger] list[i]@.id)
        && list[i]@ == m[list[i]@.id].info
    &&& forall|k: Seq<char>| #[trigger] m.dom().contains(k) ==> exists|i: int|
        0 <= i < list.len() && list[i]@.id == k
    &&& forall|i: int, j: int| 0 <= i < j < list.len() ==> list[i]@.id != list[j]@.id
    &&& sorted_bands_by_creation(band_views(list))
}

/// What a Fermi-surface listing promises: exactly the stored records,
/// none twice, newest first.
pub open spec fn lists_fermis(list: Seq<FermiSurfaceInfo>, m: Map<Seq<char>, FermiNodeV>) -> bool {
    &&& forall|i: int| 0 <= i < list.len() ==> m.dom().contains(#[trigger] list[i]@.id)
        && list[i]@ == m[list[i]@.id].info
    &&& forall|k: Seq<char>| #[trigger] m.dom().contains(k) ==> exists|i: int|
        0 <= i < list.len() && list[i]@.id == k
    &&& forall|i: int, j: int| 0 <= i < j < list.len() ==> list[i]@.id != list[j]@.id
    &&& sorted_fermis_by_creation(fermi_views(list))
}

/// The store: its abstract state maps each project identifier to that
/// project's contents.
pub struct Workspace {
    projects: Vec<ProjectNode>,
}

impl View for Workspace {
    type V = Map<Seq<char>, ProjectNodeV>;

    closed spec fn view(&self) -> Map<Seq<char>, ProjectNodeV> {
        key_map(self.projects@)
    }
}

/// The position of the band structure filed under `id` in a project's band
/// collection, if any.
fn band_index_of(node: &ProjectNode, id: &String) -> (r: Option<usize>)
    ensures
        match r {
            Some(b) => b < node.bands@.len() && node.bands@[b as int].key() == id@,
            None => forall|j: int|
                0 <= j < node.bands@.len() ==> #[trigger] node.bands@[j].key() != id@,
        },
{
    let mut i: usize = 0;
    while i < node.bands.len()
        invariant
            i <= node.bands@.len(),
            forall|j: int| 0 <= j < i ==> #[trigger] node.bands@[j].key() != id@,
        decreases node.bands@.len() - i,
    {
        if node.bands[i].info.id == *id {
            return Some(i);
        }
        i += 1;
    }
    None
}

/// The position of the Fermi surface filed under `id` in a project's Fermi
/// collection, if any.
fn fermi_index_of(node: &ProjectNode, id: &String) -> (r: Option<usize>)
    ensures
        match r {
            Some(b) => b < node.fermis@.len() && node.fermis@[b as int].key() == id@,
            None => forall|j: int|
                0 <= j < node.fermis@.len() ==> #[trigger] node.fermis@[j].key() != id@,
        },
{
    let mut i: usize = 0;
    while i < node.fermis.len()
        invariant
            i <= node.fermis@.len(),
            forall|j: int| 0 <= j < i ==> #[trigger] node.fermis@[j].key() != id@,
        decreases node.fermis@.len() - i,
    {
        if node.fermis[i].info.id == *id {
            return Some(i);
        }
        i += 1;
    }
    None
}

/// All node well-formedness survives taking a node out and appending a
/// well-formed replacement.
proof fn lemma_nodes_wf_replace(s: Seq<ProjectNode>, i: int, t: ProjectNode)
    requires
        forall|j: int| 0 <= j < s.len() ==> #[trigger] s[j].wf(),
        0 <= i < s.len(),
        t.wf(),
    ensures
        forall|j: int|
            0 <= j < s.remove(i).push(t).len() ==> #[trigger] s.remove(i).push(t)[j].wf(),
{
    let r = s.remove(i).push(t);
    assert forall|j: int| 0 <= j < r.len() implies r[j].wf() by {
        if j == r.len() - 1 {
        } else if j < i {
            assert(r[j] == s[j]);
        } else {
            assert(r[j] == s[j + 1]);
        }
    }
}

impl Workspace {
    /// Project identifiers are distinct and every project's child
    /// collections are well formed.
    pub closed spec fn wf(&self) -> bool {
        distinct_keys(self.projects@) && (forall|i: int|
            0 <= i < self.projects@.len() ==> #[trigger] self.projects@[i].wf())
    }

    /// An empty store.
    pub fn new() -> (w: Workspace)
        ensures
            w.wf(),
            w@ == Map::<Seq<char>, ProjectNodeV>::empty(),
    {
        let w = Workspace { projects: Vec::new() };
        proof {
            assert(w@ =~= Map::<Seq<char>, ProjectNodeV>::empty());
        }
        w
    }

    /// The position of the project filed under `id`, if any.
    fn index_of(&self, id: &String) -> (r: Option<usize>)
        ensures
            match r {
                Some(i) => i < self.projects@.len() && self.projects@[i as int].key() == id@,
                None => forall|j: int|
                    0 <= j < self.projects@.len() ==> #[trigger] self.projects@[j].key() != id@,
            },
    {
        let mut i: usize = 0;
        while i < self.projects.len()
            invariant
                i <= self.projects@.len(),
                forall|j: int| 0 <= j < i ==> #[trigger] self.projects@[j].key() != id@,
            decreases self.projects@.len() - i,
        {
            if self.projects[i].meta.id == *id {
                return Some(i);
            }
            i += 1;
        }
        None
    }

    /// Whether a project is filed under `id`.
    pub fn contains_project(&self, id: &String) -> (r: bool)
        ensures
            r <==> self@.dom().contains(id@),
    {
        proof {
            lemma_key_map_dom(self.projects@);
        }
        match self.index_of(id) {
            Some(_) => true,
            None => false,
        }
    }

    /// Files a freshly created project under the caller-supplied
    /// identifier. A create writes only the metadata record: contents
    /// already filed under the same identifier survive it.
    pub fn create_project_with_id(
        &mut self,
        id: String,
        name: String,
        formula: String,
        now: u64,
    ) -> (p: Project)
        requires
            old(self).wf(),
        ensures
            final(self).wf(),
            p@ == create_meta(id@, name@, formula@, now),
            final(self)@ == apply_project_op(
                old(self)@,
                ProjectOp::Create { id: id@, name: name@, formula: formula@, now },
            ),
            final(self)@ == old(self)@.insert(id@, created_node(stored(old(self)@, id@), p@)),
    {
        let p = Project::build(id, name, formula, now);
        proof {
            lemma_key_map_dom(self.projects@);
        }
        match self.index_of(&p.id) {
            Some(i) => {
                proof {
                    lemma_key_map_get(self.projects@, i as int);
                }
                let ghost s0 = self.projects@;
                let mut node = self.projects.remove(i);
                node.meta = p.duplicate();
                let ghost t = node;
                self.projects.push(node);
                proof {
                    assert(s0[i as int].wf());
                    lemma_key_map_replace(s0, i as int, t);
                    lemma_nodes_wf_replace(s0, i as int, t);
                    assert(self@ =~= old(self)@.insert(
                        p@.id,
                        created_node(stored(old(self)@, p@.id), p@),
                    ));
                }
                p
            },
            None => {
                let ghost s0 = self.projects@;
                let node = ProjectNode {
                    meta: p.duplicate(),
                    structure: None,
                    crystal: None,
                    bands: Vec::new(),
                    fermis: Vec::new(),
                };
                let ghost t = node;
                self.projects.push(node);
                proof {
                    lemma_key_map_push(s0, t);
                    lemma_distinct_push(s0, t);
                    assert(t@ =~= created_node(stored(old(self)@, p@.id), p@));
                    assert forall|j: int| 0 <= j < self.projects@.len() implies #[trigger]
                        self.projects@[j].wf() by {
                        if j < s0.len() {
                            assert(self.projects@[j] == s0[j]);
                        }
                    }
                }
                p
            },
        }
    }

    /// Files a freshly created project under a newly drawn random
    /// identifier.
    pub fn create_project(&mut self, name: String, formula: String, now: u64) -> (p: Project)
        requires
            old(self).wf(),
        ensures
            final(self).wf(),
            p@.id.len() == 36,
            p@ == create_meta(p@.id, name@, formula@, now),
            final(self)@ == old(self)@.insert(p@.id, created_node(stored(old(self)@, p@.id), p@)),
    {
        let id = fresh_id();
        self.create_project_with_id(id, name, formula, now)
    }

    /// Replaces a project's metadata record with the caller's, except that
    /// the last-modified instant is recomputed here: whatever the caller
    /// supplied for it is discarded. Identifier and creation timestamp are
    /// preserved as given. Fails when no project is filed under the
    /// record's identifier.
    pub fn update_project(&mut self, record: Project, now: u64) -> (r: Result<Project, StoreError>)
        requires
            old(self).wf(),
        ensures
            final(self).wf(),
            final(self)@ == apply_project_op(
                old(self)@,
                ProjectOp::Update { record: record@, now },
            ),
            r is Ok <==> old(self)@.dom().contains(record@.id),
            r matches Ok(p) ==> p@ == (ProjectV { updated_at: now, ..record@ }),
            r is Err ==> r == Err::<Project, StoreError>(StoreError::NotFound),
    {
        proof {
            lemma_key_map_dom(self.projects@);
        }
        match self.index_of(&record.id) {
            Some(i) => {
                proof {
                    lemma_key_map_get(self.projects@, i as int);
                }
                let ghost s0 = self.projects@;
                let p = record.touched(now);
                let mut node = self.projects.remove(i);
                node.meta = p.duplicate();
                let ghost t = node;
                self.projects.push(node);
                proof {
                    assert(s0[i as int].wf());
                    lemma_key_map_replace(s0, i as int, t);
                    lemma_nodes_wf_replace(s0, i as int, t);
                    assert(self@ =~= apply_project_op(
                        old(self)@,
                        ProjectOp::Update { record: record@, now },
                    ));
                }
                Ok(p)
            },
            None => Err(StoreError::NotFound),
        }
    }

    /// Marks the stored record as opened now; the last-modified instant is
    /// left untouched. Fails when no project is filed under `id`.
    pub fn mark_project_opened(&mut self, id: &String, now: u64) -> (r: Result<
        Project,
        StoreError,
    >)
        requires
            old(self).wf(),
        ensures
            final(self).wf(),
            r is Ok <==> old(self)@.dom().contains(id@),
            r is Err ==> r == Err::<Project, StoreError>(StoreError::NotFound) && final(self)@
                == old(self)@,
            r matches Ok(p) ==> p@ == (ProjectV {
                last_opened_at: Some(now),
                ..old(self)@[id@].meta
            }) && final(self)@ == old(self)@.insert(
                id@,
                ProjectNodeV { meta: p@, ..old(self)@[id@] },
            ),
    {
        proof {
            lemma_key_map_dom(self.projects@);
        }
        match self.index_of(id) {
            Some(i) => {
                proof {
                    lemma_key_map_get(self.projects@, i as int);
                }
                let ghost s0 = self.projects@;
                let mut node = self.projects.remove(i);
                let p = node.meta.opened(now);
                node.meta = p.duplicate();
                let ghost t = node;
                self.projects.push(node);
                proof {
                    assert(s0[i as int].wf());
                    lemma_key_map_replace(s0, i as int, t);
                    lemma_nodes_wf_replace(s0, i as int, t);
                    assert(self@ =~= old(self)@.insert(
                        id@,
                        ProjectNodeV { meta: p@, ..old(self)@[id@] },
                    ));
                }
                Ok(p)
            },
            None => Err(StoreError::NotFound),
        }
    }

    /// Removes the project and with it everything it owns: its structure
    /// file, its crystal data, and all of its band-structure and
    /// Fermi-surface children. Fails when no project is filed under `id`.
    pub fn delete_project(&mut self, id: &String) -> (r: Result<(), StoreError>)
        requires
            old(self).wf(),
        ensures
            final(self).wf(),
            final(self)@ == apply_project_op(old(self)@, ProjectOp::Delete { id: id@ }),
            r is Ok <==> old(self)@.dom().contains(id@),
            r is Err ==> r == Err::<(), StoreError>(StoreError::NotFound),
    {
        proof {
            lemma_key_map_dom(self.projects@);
        }
        match self.index_of(id) {
            Some(i) => {
                proof {
                    lemma_key_map_get(self.projects@, i as int);
                    lemma_key_map_remove(self.projects@, i as int);
                    lemma_distinct_remove(self.projects@, i as int);
                }
                let ghost s0 = self.projects@;
                let _ = self.projects.remove(i);
                proof {
                    assert forall|j: int| 0 <= j < self.projects@.len() implies #[trigger]
                        self.projects@[j].wf() by {
                        if j < i {
                            assert(self.projects@[j] == s0[j]);
                        } else {
                            assert(self.projects@[j] == s0[j + 1]);
                        }
                    }
                    assert(self@ =~= old(self)@.remove(id@));
                }
                Ok(())
            },
            None => Err(StoreError::NotFound),
        }
    }

    /// Attaches a structure file to the project: the copied contents
    /// overwrite any prior copy, the attachment flag and remembered
    /// original filename are set, and the last-modified instant is
    /// refreshed. Fails when no project is filed under `id`.
    pub fn import_cif_file(
        &mut self,
        id: &String,
        content: String,
        original_filename: String,
        now: u64,
    ) -> (r: Result<Project, StoreError>)
        requires
            old(self).wf(),
        ensures
            final(self).wf(),
            r is Ok <==> old(self)@.dom().contains(id@),
            r is Err ==> r == Err::<Project, StoreError>(StoreError::NotFound) && final(self)@
                == old(self)@,
            r matches Ok(p) ==> p@ == (ProjectV {
                has_cif: true,
                cif_filename: Some(original_filename@),
                updated_at: now,
                ..old(self)@[id@].meta
            }) && final(self)@ == old(self)@.insert(
                id@,
                (ProjectNodeV { meta: p@, structure: Some(content@), ..old(self)@[id@] }),
            ),
    {
        proof {
            lemma_key_map_dom(self.projects@);
        }
        match self.index_of(id) {
            Some(i) => {
                proof {
                    lemma_key_map_get(self.projects@, i as int);
                }
                let ghost s0 = self.projects@;
                let mut node = self.projects.remove(i);
                let p = node.meta.with_attachment(original_filename, now);
                node.meta = p.duplicate();
                node.structure = Some(content);
                let ghost t = node;
                self.projects.push(node);
                proof {
                    assert(s0[i as int].wf());
                    lemma_key_map_replace(s0, i as int, t);
                    lemma_nodes_wf_replace(s0, i as int, t);
                    assert(self@ =~= old(self)@.insert(
                        id@,
                        (ProjectNodeV { meta: p@, structure: Some(content@), ..old(self)@[id@] }),
                    ));
                }
                Ok(p)
            },
            None => Err(StoreError::NotFound),
        }
    }

    /// The contents of the project's attached structure file. Fails when no
    /// project is filed under `id` or when none was ever attached.
    pub fn read_cif_file(&self, id: &String) -> (r: Result<String, StoreError>)
        requires
            self.wf(),
        ensures
            r is Ok <==> (self@.dom().contains(id@) && self@[id@].structure is Some),
            r matches Ok(c) ==> Some(c@) == self@[id@].structure,
            r is Err ==> r == Err::<String, StoreError>(StoreError::NotFound),
    {
        proof {
            lemma_key_map_dom(self.projects@);
        }
        match self.index_of(id) {
            Some(i) => {
                proof {
                    lemma_key_map_get(self.projects@, i as int);
                }
                match &self.projects[i].structure {
                    Some(c) => Ok(c.clone()),
                    None => Err(StoreError::NotFound),
                }
            },
            None => Err(StoreError::NotFound),
        }
    }

    /// Overwrites the project's crystal-data blob unconditionally. Fails
    /// when no project is filed under `id`.
    pub fn save_crystal_data(&mut self, id: &String, blob: String) -> (r: Result<(), StoreError>)
        requires
            old(self).wf(),
        ensures
            final(self).wf(),
            r is Ok <==> old(self)@.dom().contains(id@),
            r is Err ==> r == Err::<(), StoreError>(StoreError::NotFound) && final(self)@
                == old(self)@,
            r is Ok ==> final(self)@ == old(self)@.insert(
                id@,
                (ProjectNodeV { crystal: Some(blob@), ..old(self)@[id@] }),
            ),
    {
        proof {
            lemma_key_map_dom(self.projects@);
        }
        match self.index_of(id) {
            Some(i) => {
                proof {
                    lemma_key_map_get(self.projects@, i as int);
                }
                let ghost s0 = self.projects@;
                let mut node = self.projects.remove(i);
                node.crystal = Some(blob);
                let ghost t = node;
                self.projects.push(node);
                proof {
                    assert(s0[i as int].wf());
                    lemma_key_map_replace(s0, i as int, t);
                    lemma_nodes_wf_replace(s0, i as int, t);
                    assert(self@ =~= old(self)@.insert(
                        id@,
                        (ProjectNodeV { crystal: Some(blob@), ..old(self)@[id@] }),
                    ));
                }
                Ok(())
            },
            None => Err(StoreError::NotFound),
        }
    }

    /// The project's crystal-data blob: absent — not an error — until the
    /// first save, then exactly the last saved bytes. Fails only when no
    /// project is filed under `id`.
    pub fn load_crystal_data(&self, id: &String) -> (r: Result<Option<String>, StoreError>)
        requires
            self.wf(),
        ensures
            r is Ok <==> self@.dom().contains(id@),
            r matches Ok(o) ==> opt_text(o) == self@[id@].crystal,
            r is Err ==> r == Err::<Option<String>, StoreError>(StoreError::NotFound),
    {
        proof {
            lemma_key_map_dom(self.projects@);
        }
        match self.index_of(id) {
            Some(i) => {
                proof {
                    lemma_key_map_get(self.projects@, i as int);
                }
                match &self.projects[i].crystal {
                    Some(c) => Ok(Some(c.clone())),
                    None => Ok(None),
                }
            },
            None => Err(StoreError::NotFound),
        }
    }

    /// Files a band structure under the caller-supplied identifier,
    /// together with the contents of its two copied data files. An import
    /// does not touch sidecar blobs: any already filed under the same
    /// identifier survive. Fails when no project is filed under
    /// `project_id`.
    pub fn import_band_structure_with_id(
        &mut self,
        project_id: &String,
        id: String,
        name: String,
        qtl_content: String,
        qtl_filename: String,
        klist_content: String,
        klist_filename: String,
        now: u64,
    ) -> (r: Result<BandStructureInfo, StoreError>)
        requires
            old(self).wf(),
        ensures
            final(self).wf(),
            r is Ok <==> old(self)@.dom().contains(project_id@),
            r is Err ==> r == Err::<BandStructureInfo, StoreError>(StoreError::NotFound) && final(self)@
                == old(self)@,
            r matches Ok(info) ==> info@ == (BandStructureInfoV {
                id: id@,
                name: name@,
                created_at: now,
                qtl_filename: qtl_filename@,
                klist_filename: klist_filename@,
            }) && final(self)@ == old(self)@.insert(
                project_id@,
                (ProjectNodeV {
                    bands: old(self)@[project_id@].bands.insert(
                        id@,
                        band_created_node(
                            band_stored(old(self)@[project_id@].bands, id@),
                            info@,
                            qtl_content@,
                            klist_content@,
                        ),
                    ),
                    ..old(self)@[project_id@]
                }),
            ),
    {
        proof {
            lemma_key_map_dom(self.projects@);
        }
        match self.index_of(project_id) {
            Some(i) => {
                proof {
                    lemma_key_map_get(self.projects@, i as int);
                    assert(self.projects@[i as int].wf());
                    lemma_key_map_dom(self.projects@[i as int].bands@);
                }
                let info = BandStructureInfo::build(id, name, now, qtl_filename, klist_filename);
                let prior = band_index_of(&self.projects[i], &info.id);
                let ghost s0 = self.projects@;
                let mut node = self.projects.remove(i);
                let ghost b0 = node.bands@;
                match prior {
                    Some(b) => {
                        proof {
                            lemma_key_map_get(node.bands@, b as int);
                        }
                        let old_band = node.bands.remove(b);
                        let band = BandNode {
                            info: info.duplicate(),
                            qtl: qtl_content,
                            klist: klist_content,
                            labels: old_band.labels,
                            atom_names: old_band.atom_names,
                        };
                        let ghost tb = band;
                        node.bands.push(band);
                        proof {
                            lemma_key_map_replace(b0, b as int, tb);
                        }
                    },
                    None => {
                        let band = BandNode {
                            info: info.duplicate(),
                            qtl: qtl_content,
                            klist: klist_content,
                            labels: None,
                            atom_names: None,
                        };
                        let ghost tb = band;
                        node.bands.push(band);
                        proof {
                            lemma_key_map_push(b0, tb);
                            lemma_distinct_push(b0, tb);
                        }
                    },
                }
                let ghost t = node;
                self.projects.push(node);
                proof {
                    assert(t.wf());
                    lemma_key_map_replace(s0, i as int, t);
                    lemma_nodes_wf_replace(s0, i as int, t);
                    assert(t@.bands =~= old(self)@[project_id@].bands.insert(
                        info@.id,
                        band_created_node(
                            band_stored(old(self)@[project_id@].bands, info@.id),
                            info@,
                            qtl_content@,
                            klist_content@,
                        ),
                    ));
                    assert(self@ =~= old(self)@.insert(
                        project_id@,
                        (ProjectNodeV { bands: t@.bands, ..old(self)@[project_id@] }),
                    ));
                }
                Ok(info)
            },
            None => Err(StoreError::NotFound),
        }
    }

    /// Files a band structure under a newly drawn random identifier,
    /// together with the contents of its two copied data files. Fails when
    /// no project is filed under `project_id`.
    pub fn import_band_structure(
        &mut self,
        project_id: &String,
        name: String,
        qtl_content: String,
        qtl_filename: String,
        klist_content: String,
        klist_filename: String,
        now: u64,
    ) -> (r: Result<BandStructureInfo, StoreError>)
        requires
            old(self).wf(),
        ensures
            final(self).wf(),
            r is Ok <==> old(self)@.dom().contains(project_id@),
            r is Err ==> r == Err::<BandStructureInfo, StoreError>(StoreError::NotFound) && final(self)@
                == old(self)@,
            r matches Ok(info) ==> info@.id.len() == 36 && info@ == (BandStructureInfoV {
                id: info@.id,
                name: name@,
                created_at: now,
                qtl_filename: qtl_filename@,
                klist_filename: klist_filename@,
            }) && final(self)@ == old(self)@.insert(
                project_id@,
                (ProjectNodeV {
                    bands: old(self)@[project_id@].bands.insert(
                        info@.id,
                        band_created_node(
                            band_stored(old(self)@[project_id@].bands, info@.id),
                            info@,
                            qtl_content@,
                            klist_content@,
                        ),
                    ),
                    ..old(self)@[project_id@]
                }),
            ),
    {
        let id = fresh_id();
        self.import_band_structure_with_id(
            project_id,
            id,
            name,
            qtl_content,
            qtl_filename,
            klist_content,
            klist_filename,
            now,
        )
    }

    /// The contents of the band structure's two data files, in their fixed
    /// order. Fails when the project or the band structure is absent.
    pub fn load_band_structure_files(&self, project_id: &String, band_id: &String) -> (r: Result<
        (String, String),
        StoreError,
    >)
        requires
            self.wf(),
        ensures
            r is Ok <==> (self@.dom().contains(project_id@)
                && self@[project_id@].bands.dom().contains(band_id@)),
            r matches Ok(c) ==> c.0@ == self@[project_id@].bands[band_id@].qtl && c.1@
                == self@[project_id@].bands[band_id@].klist,
            r is Err ==> r == Err::<(String, String), StoreError>(StoreError::NotFound),
    {
        proof {
            lemma_key_map_dom(self.projects@);
        }
        match self.index_of(project_id) {
            Some(i) => {
                proof {
                    lemma_key_map_get(self.projects@, i as int);
                    assert(self.projects@[i as int].wf());
                    lemma_key_map_dom(self.projects@[i as int].bands@);
                }
                match band_index_of(&self.projects[i], band_id) {
                    Some(b) => {
                        proof {
                            lemma_key_map_get(self.projects@[i as int].bands@, b as int);
                        }
                        let band = &self.projects[i].bands[b];
                        Ok((band.qtl.clone(), band.klist.clone()))
                    },
                    None => Err(StoreError::NotFound),
                }
            },
            None => Err(StoreError::NotFound),
        }
    }

    /// Removes the band structure and everything in its directory. Fails
    /// when the project or the band structure is absent.
    pub fn delete_band_structure(&mut self, project_id: &String, band_id: &String) -> (r: Result<
        (),
        StoreError,
    >)
        requires
            old(self).wf(),
        ensures
            final(self).wf(),
            r is Ok <==> (old(self)@.dom().contains(project_id@)
                && old(self)@[project_id@].bands.dom().contains(band_id@)),
            r is Err ==> r == Err::<(), StoreError>(StoreError::NotFound) && final(self)@
                == old(self)@,
            r is Ok ==> final(self)@ == old(self)@.insert(
                project_id@,
                (ProjectNodeV {
                    bands: old(self)@[project_id@].bands.remove(band_id@),
                    ..old(self)@[project_id@]
                }),
            ),
    {
        proof {
            lemma_key_map_dom(self.projects@);
        }
        match self.index_of(project_id) {
            Some(i) => {
                proof {
                    lemma_key_map_get(self.projects@, i as int);
                    assert(self.projects@[i as int].wf());
                    lemma_key_map_dom(self.projects@[i as int].bands@);
                }
                match band_index_of(&self.projects[i], band_id) {
                    Some(b) => {
                        let ghost s0 = self.projects@;
                        let mut node = self.projects.remove(i);
                        proof {
                            lemma_key_map_get(node.bands@, b as int);
                            lemma_key_map_remove(node.bands@, b as int);
                            lemma_distinct_remove(node.bands@, b as int);
                        }
                        let _ = node.bands.remove(b);
                        let ghost t = node;
                        self.projects.push(node);
                        proof {
                            assert(t.wf());
                            lemma_key_map_replace(s0, i as int, t);
                            lemma_nodes_wf_replace(s0, i as int, t);
                            assert(self@ =~= old(self)@.insert(
                                project_id@,
                                (ProjectNodeV {
                                    bands: old(self)@[project_id@].bands.remove(band_id@),
                                    ..old(self)@[project_id@]
                                }),
                            ));
                        }
                        Ok(())
                    },
                    None => Err(StoreError::NotFound),
                }
            },
            None => Err(StoreError::NotFound),
        }
    }

    /// Overwrites the band structure's label-overlay sidecar
    /// unconditionally. Fails when the project or the band structure is
    /// absent.
    pub fn update_band_structure_labels(
        &mut self,
        project_id: &String,
        band_id: &String,
        labels_json: String,
    ) -> (r: Result<(), StoreError>)
        requires
            old(self).wf(),
        ensures
            final(self).wf(),
            r is Ok <==> (old(self)@.dom().contains(project_id@)
                && old(self)@[project_id@].bands.dom().contains(band_id@)),
            r is Err ==> r == Err::<(), StoreError>(StoreError::NotFound) && final(self)@
                == old(self)@,
            r is Ok ==> final(self)@ == old(self)@.insert(
                project_id@,
                (ProjectNodeV {
                    bands: old(self)@[project_id@].bands.insert(
                        band_id@,
                        (BandNodeV {
                            labels: Some(labels_json@),
                            ..old(self)@[project_id@].bands[band_id@]
                        }),
                    ),
                    ..old(self)@[project_id@]
                }),
            ),
    {
        proof {
            lemma_key_map_dom(self.projects@);
        }
        match self.index_of(project_id) {
            Some(i) => {
                proof {
                    lemma_key_map_get(self.projects@, i as int);
                    assert(self.projects@[i as int].wf());
                    lemma_key_map_dom(self.projects@[i as int].bands@);
                }
                match band_index_of(&self.projects[i], band_id) {
                    Some(b) => {
                        let ghost s0 = self.projects@;
                        let mut node = self.projects.remove(i);
                        proof {
                            lemma_key_map_get(node.bands@, b as int);
                        }
                        let ghost b0 = node.bands@;
                        let mut band = node.bands.remove(b);
                        band.labels = Some(labels_json);
                        let ghost tb = band;
                        node.bands.push(band);
                        let ghost t = node;
                        self.projects.push(node);
                        proof {
                            lemma_key_map_replace(b0, b as int, tb);
                            assert(t.wf());
                            lemma_key_map_replace(s0, i as int, t);
                            lemma_nodes_wf_replace(s0, i as int, t);
                            assert(self@ =~= old(self)@.insert(
                                project_id@,
                                (ProjectNodeV {
                                    bands: old(self)@[project_id@].bands.insert(
                                        band_id@,
                                        (BandNodeV {
                                            labels: Some(labels_json@),
                                            ..old(self)@[project_id@].bands[band_id@]
                                        }),
                                    ),
                                    ..old(self)@[project_id@]
                                }),
                            ));
                        }
                        Ok(())
                    },
                    None => Err(StoreError::NotFound),
                }
            },
            None => Err(StoreError::NotFound),
        }
    }

    /// The band structure's label-overlay sidecar: absent — not an error —
    /// until first saved. Fails when the project or the band structure is
    /// absent.
    pub fn load_band_structure_labels(&self, project_id: &String, band_id: &String) -> (r: Result<
        Option<String>,
        StoreError,
    >)
        requires
            self.wf(),
        ensures
            r is Ok <==> (self@.dom().contains(project_id@)
                && self@[project_id@].bands.dom().contains(band_id@)),
            r matches Ok(o) ==> opt_text(o) == self@[project_id@].bands[band_id@].labels,
            r is Err ==> r == Err::<Option<String>, StoreError>(StoreError::NotFound),
    {
        proof {
            lemma_key_map_dom(self.projects@);
        }
        match self.index_of(project_id) {
            Some(i) => {
                proof {
                    lemma_key_map_get(self.projects@, i as int);
                    assert(self.projects@[i as int].wf());
                    lemma_key_map_dom(self.projects@[i as int].bands@);
                }
                match band_index_of(&self.projects[i], band_id) {
                    Some(b) => {
                        proof {
                            lemma_key_map_get(self.projects@[i as int].bands@, b as int);
                        }
                        match &self.projects[i].bands[b].labels {
                            Some(c) => Ok(Some(c.clone())),
                            None => Ok(None),
                        }
                    },
                    None => Err(StoreError::NotFound),
                }
            },
            None => Err(StoreError::NotFound),
        }
    }

    /// Overwrites the band structure's atom-name-overlay sidecar
    /// unconditionally. Fails when the project or the band structure is
    /// absent.
    pub fn update_band_structure_atom_names(
        &mut self,
        project_id: &String,
        band_id: &String,
        atom_names_json: String,
    ) -> (r: Result<(), StoreError>)
        requires
            old(self).wf(),
        ensures
            final(self).wf(),
            r is Ok <==> (old(self)@.dom().contains(project_id@)
                && old(self)@[project_id@].bands.dom().contains(band_id@)),
            r is Err ==> r == Err::<(), StoreError>(StoreError::NotFound) && final(self)@
                == old(self)@,
            r is Ok ==> final(self)@ == old(self)@.insert(
                project_id@,
                (ProjectNodeV {
                    bands: old(self)@[project_id@].bands.insert(
                        band_id@,
                        (BandNodeV {
                            atom_names: Some(atom_names_json@),
                            ..old(self)@[project_id@].bands[band_id@]
                        }),
                    ),
                    ..old(self)@[project_id@]
                }),
            ),
    {
        proof {
            lemma_key_map_dom(self.projects@);
        }
        match self.index_of(project_id) {
            Some(i) => {
                proof {
                    lemma_key_map_get(self.projects@, i as int);
                    assert(self.projects@[i as int].wf());
                    lemma_key_map_dom(self.projects@[i as int].bands@);
                }
                match band_index_of(&self.projects[i], band_id) {
                    Some(b) => {
                        let ghost s0 = self.projects@;
                        let mut node = self.projects.remove(i);
                        proof {
                            lemma_key_map_get(node.bands@, b as int);
                        }
                        let ghost b0 = node.bands@;
                        let mut band = node.bands.remove(b);
                        band.atom_names = Some(atom_names_json);
                        let ghost tb = band;
                        node.bands.push(band);
                        let ghost t = node;
                        self.projects.push(node);
                        proof {
                            lemma_key_map_replace(b0, b as int, tb);
                            assert(t.wf());
                            lemma_key_map_replace(s0, i as int, t);
                            lemma_nodes_wf_replace(s0, i as int, t);
                            assert(self@ =~= old(self)@.insert(
                                project_id@,
                                (ProjectNodeV {
                                    bands: old(self)@[project_id@].bands.insert(
                                        band_id@,
                                        (BandNodeV {
                                            atom_names: Some(atom_names_json@),
                                            ..old(self)@[project_id@].bands[band_id@]
                                        }),
                                    ),
                                    ..old(self)@[project_id@]
                                }),
                            ));
                        }
                        Ok(())
                    },
                    None => Err(StoreError::NotFound),
                }
            },
            None => Err(StoreError::NotFound),
        }
    }

    /// The band structure's atom-name-overlay sidecar: absent — not an
    /// error — until first saved. Fails when the project or the band
    /// structure is absent.
    pub fn load_band_structure_atom_names(
        &self,
        project_id: &String,
        band_id: &String,
    ) -> (r: Result<Option<String>, StoreError>)
        requires
            self.wf(),
        ensures
            r is Ok <==> (self@.dom().contains(project_id@)
                && self@[project_id@].bands.dom().contains(band_id@)),
            r matches Ok(o) ==> opt_text(o) == self@[project_id@].bands[band_id@].atom_names,
            r is Err ==> r == Err::<Option<String>, StoreError>(StoreError::NotFound),
    {
        proof {
            lemma_key_map_dom(self.projects@);
        }
        match self.index_of(project_id) {
            Some(i) => {
                proof {
                    lemma_key_map_get(self.projects@, i as int);
                    assert(self.projects@[i as int].wf());
                    lemma_key_map_dom(self.projects@[i as int].bands@);
                }
                match band_index_of(&self.projects[i], band_id) {
                    Some(b) => {
                        proof {
                            lemma_key_map_get(self.projects@[i as int].bands@, b as int);
                        }
                        match &self.projects[i].bands[b].atom_names {
                            Some(c) => Ok(Some(c.clone())),
                            None => Ok(None),
                        }
                    },
                    None => Err(StoreError::NotFound),
                }
            },
            None => Err(StoreError::NotFound),
        }
    }

    /// Files a Fermi surface under the caller-supplied identifier, together
    /// with the contents of its four copied data files. Fails when no
    /// project is filed under `project_id`.
    pub fn import_fermi_surface_with_id(
        &mut self,
        project_id: &String,
        id: String,
        name: String,
        output1_content: String,
        output2_content: String,
        outputkgen_content: String,
        struct_content: String,
        case_name: String,
        now: u64,
    ) -> (r: Result<FermiSurfaceInfo, StoreError>)
        requires
            old(self).wf(),
        ensures
            final(self).wf(),
            r is Ok <==> old(self)@.dom().contains(project_id@),
            r is Err ==> r == Err::<FermiSurfaceInfo, StoreError>(StoreError::NotFound) && final(self)@
                == old(self)@,
            r matches Ok(info) ==> info@ == (FermiSurfaceInfoV {
                id: id@,
                name: name@,
                created_at: now,
                case_name: case_name@,
            }) && final(self)@ == old(self)@.insert(
                project_id@,
                (ProjectNodeV {
                    fermis: old(self)@[project_id@].fermis.insert(
                        id@,
                        (FermiNodeV {
                            info: info@,
                            output1: output1_content@,
                            output2: output2_content@,
                            outputkgen: outputkgen_content@,
                            struct_file: struct_content@,
                        }),
                    ),
                    ..old(self)@[project_id@]
                }),
            ),
    {
        proof {
            lemma_key_map_dom(self.projects@);
        }
        match self.index_of(project_id) {
            Some(i) => {
                proof {
                    lemma_key_map_get(self.projects@, i as int);
                    assert(self.projects@[i as int].wf());
                    lemma_key_map_dom(self.projects@[i as int].fermis@);
                }
                let info = FermiSurfaceInfo::build(id, name, now, case_name);
                let prior = fermi_index_of(&self.projects[i], &info.id);
                let ghost s0 = self.projects@;
                let mut node = self.projects.remove(i);
                let ghost f0 = node.fermis@;
                let fermi = FermiNode {
                    info: info.duplicate(),
                    output1: output1_content,
                    output2: output2_content,
                    outputkgen: outputkgen_content,
                    struct_file: struct_content,
                };
                let ghost tf = fermi;
                match prior {
                    Some(f) => {
                        proof {
                            lemma_key_map_get(node.fermis@, f as int);
                        }
                        let _ = node.fermis.remove(f);
                        node.fermis.push(fermi);
                        proof {
                            lemma_key_map_replace(f0, f as int, tf);
                        }
                    },
                    None => {
                        node.fermis.push(fermi);
                        proof {
                            lemma_key_map_push(f0, tf);
                            lemma_distinct_push(f0, tf);
                        }
                    },
                }
                let ghost t = node;
                self.projects.push(node);
                proof {
                    assert(t.wf());
                    lemma_key_map_replace(s0, i as int, t);
                    lemma_nodes_wf_replace(s0, i as int, t);
                    assert(t@.fermis =~= old(self)@[project_id@].fermis.insert(info@.id, tf@));
                    assert(self@ =~= old(self)@.insert(
                        project_id@,
                        (ProjectNodeV { fermis: t@.fermis, ..old(self)@[project_id@] }),
                    ));
                }
                Ok(info)
            },
            None => Err(StoreError::NotFound),
        }
    }

    /// Files a Fermi surface under a newly drawn random identifier,
    /// together with the contents of its four copied data files. Fails when
    /// no project is filed under `project_id`.
    pub fn import_fermi_surface(
        &mut self,
        project_id: &String,
        name: String,
        output1_content: String,
        output2_content: String,
        outputkgen_content: String,
        struct_content: String,
        case_name: String,
        now: u64,
    ) -> (r: Result<FermiSurfaceInfo, StoreError>)
        requires
            old(self).wf(),
        ensures
            final(self).wf(),
            r is Ok <==> old(self)@.dom().contains(project_id@),
            r is Err ==> r == Err::<FermiSurfaceInfo, StoreError>(StoreError::NotFound) && final(self)@
                == old(self)@,
            r matches Ok(info) ==> info@.id.len() == 36 && info@ == (FermiSurfaceInfoV {
                id: info@.id,
                name: name@,
                created_at: now,
                case_name: case_name@,
            }) && final(self)@ == old(self)@.insert(
                project_id@,
                (ProjectNodeV {
                    fermis: old(self)@[project_id@].fermis.insert(
                        info@.id,
                        (FermiNodeV {
                            info: info@,
                            output1: output1_content@,
                            output2: output2_content@,
                            outputkgen: outputkgen_content@,
                            struct_file: struct_content@,
                        }),
                    ),
                    ..old(self)@[project_id@]
                }),
            ),
    {
        let id = fresh_id();
        self.import_fermi_surface_with_id(
            project_id,
            id,
            name,
            output1_content,
            output2_content,
            outputkgen_content,
            struct_content,
            case_name,
            now,
        )
    }

    /// The contents of the Fermi surface's four data files, in their fixed
    /// order. Fails when the project or the Fermi surface is absent.
    pub fn load_fermi_surface_files(&self, project_id: &String, fermi_id: &String) -> (r: Result<
        (String, String, String, String),
        StoreError,
    >)
        requires
            self.wf(),
        ensures
            r is Ok <==> (self@.dom().contains(project_id@)
                && self@[project_id@].fermis.dom().contains(fermi_id@)),
            r matches Ok(c) ==> c.0@ == self@[project_id@].fermis[fermi_id@].output1 && c.1@
                == self@[project_id@].fermis[fermi_id@].output2 && c.2@
                == self@[project_id@].fermis[fermi_id@].outputkgen && c.3@
                == self@[project_id@].fermis[fermi_id@].struct_file,
            r is Err ==> r == Err::<(String, String, String, String), StoreError>(
                StoreError::NotFound,
            ),
    {
        proof {
            lemma_key_map_dom(self.projects@);
        }
        match self.index_of(project_id) {
            Some(i) => {
                proof {
                    lemma_key_map_get(self.projects@, i as int);
                    assert(self.projects@[i as int].wf());
                    lemma_key_map_dom(self.projects@[i as int].fermis@);
                }
                match fermi_index_of(&self.projects[i], fermi_id) {
                    Some(f) => {
                        proof {
                            lemma_key_map_get(self.projects@[i as int].fermis@, f as int);
                        }
                        let fermi = &self.projects[i].fermis[f];
                        Ok((
                            fermi.output1.clone(),
                            fermi.output2.clone(),
                            fermi.outputkgen.clone(),
                            fermi.struct_file.clone(),
                        ))
                    },
                    None => Err(StoreError::NotFound),
                }
            },
            None => Err(StoreError::NotFound),
        }
    }

    /// Removes the Fermi surface and everything in its directory. Fails
    /// when the project or the Fermi surface is absent.
    pub fn delete_fermi_surface(&mut self, project_id: &String, fermi_id: &String) -> (r: Result<
        (),
        StoreError,
    >)
        requires
            old(self).wf(),
        ensures
            final(self).wf(),
            r is Ok <==> (old(self)@.dom().contains(project_id@)
                && old(self)@[project_id@].fermis.dom().contains(fermi_id@)),
            r is Err ==> r == Err::<(), StoreError>(StoreError::NotFound) && final(self)@
                == old(self)@,
            r is Ok ==> final(self)@ == old(self)@.insert(
                project_id@,
                (ProjectNodeV {
                    fermis: old(self)@[project_id@].fermis.remove(fermi_id@),
                    ..old(self)@[project_id@]
                }),
            ),
    {
        proof {
            lemma_key_map_dom(self.projects@);
        }
        match self.index_of(project_id) {
            Some(i) => {
                proof {
                    lemma_key_map_get(self.projects@, i as int);
                    assert(self.projects@[i as int].wf());
                    lemma_key_map_dom(self.projects@[i as int].fermis@);
                }
                match fermi_index_of(&self.projects[i], fermi_id) {
                    Some(f) => {
                        let ghost s0 = self.projects@;
                        let mut node = self.projects.remove(i);
                        proof {
                            lemma_key_map_get(node.fermis@, f as int);
                            lemma_key_map_remove(node.fermis@, f as int);
                            lemma_distinct_remove(node.fermis@, f as int);
                        }
                        let _ = node.fermis.remove(f);
                        let ghost t = node;
                        self.projects.push(node);
                        proof {
                            assert(t.wf());
                            lemma_key_map_replace(s0, i as int, t);
                            lemma_nodes_wf_replace(s0, i as int, t);
                            assert(self@ =~= old(self)@.insert(
                                project_id@,
                                (ProjectNodeV {
                                    fermis: old(self)@[project_id@].fermis.remove(fermi_id@),
                                    ..old(self)@[project_id@]
                                }),
                            ));
                        }
                        Ok(())
                    },
                    None => Err(StoreError::NotFound),
                }
            },
            None => Err(StoreError::NotFound),
        }
    }

    /// All projects, most recently relevant first: ordered by last-opened
    /// instant when present, else creation instant, descending. The listing
    /// holds exactly the stored projects' records, each under its own
    /// identifier, none twice.
    #[verifier::rlimit(60)]
    pub fn load_projects(&self) -> (r: Vec<Project>)
        requires
            self.wf(),
        ensures
            lists_projects(r@, self@),
    {
        let ghost s0 = self.projects@;
        let mut metas: Vec<Project> = Vec::new();
        let mut i: usize = 0;
        while i < self.projects.len()
            invariant
                i <= s0.len(),
                s0 == self.projects@,
                metas@.len() == i,
                forall|j: int| 0 <= j < i ==> #[trigger] metas@[j]@ == s0[j].meta@,
            decreases s0.len() - i,
        {
            metas.push(self.projects[i].meta.duplicate());
            i += 1;
        }
        let r = sort_projects(metas);
        proof {
            broadcast use vstd::seq_lib::group_to_multiset_ensures;

            let mv = meta_views(r@);
            let m0 = meta_views(metas@);
            assert(m0 =~= node_metas(s0));
            lemma_key_map_dom(s0);
            assert forall|x: int| 0 <= x < r@.len() implies self@.dom().contains(
                #[trigger] r@[x]@.id,
            ) && r@[x]@ == self@[r@[x]@.id].meta by {
                assert(mv[x] == r@[x]@);
                assert(mv.contains(mv[x]));
                assert(m0.to_multiset().count(mv[x]) > 0);
                assert(m0.contains(mv[x]));
                let j = choose|j: int| 0 <= j < m0.len() && m0[j] == mv[x];
                assert(s0[j].meta@ == mv[x]);
                lemma_key_map_get(s0, j);
                assert(s0[j].key() == mv[x].id);
            }
            assert forall|k: Seq<char>| #[trigger] self@.dom().contains(k) implies exists|x: int|
                0 <= x < r@.len() && r@[x]@.id == k by {
                let j = choose|j: int| 0 <= j < s0.len() && s0[j].key() == k;
                assert(m0[j] == s0[j].meta@);
                assert(m0[j].id == k);
                assert(m0.contains(m0[j]));
                assert(mv.to_multiset().count(m0[j]) > 0);
                assert(mv.contains(m0[j]));
                let x = choose|x: int| 0 <= x < mv.len() && mv[x] == m0[j];
                assert(r@[x]@.id == k);
            }
            assert(m0.no_duplicates()) by {
                assert forall|a: int, b: int|
                    0 <= a < m0.len() && 0 <= b < m0.len() && a != b implies m0[a] != m0[b] by {
                    if a < b {
                        assert(s0[a].key() != s0[b].key());
                    } else {
                        assert(s0[b].key() != s0[a].key());
                    }
                }
            };
            m0.lemma_multiset_has_no_duplicates();
            mv.lemma_multiset_has_no_duplicates_conv();
            assert forall|x: int, y: int| 0 <= x < y < r@.len() implies r@[x]@.id != r@[y]@.id by {
                if r@[x]@.id == r@[y]@.id {
                    assert(mv[x] != mv[y]);
                    assert(mv.contains(mv[x]));
                    assert(m0.to_multiset().count(mv[x]) > 0);
                    assert(m0.contains(mv[x]));
                    assert(mv.contains(mv[y]));
                    assert(m0.to_multiset().count(mv[y]) > 0);
                    assert(m0.contains(mv[y]));
                    let a = choose|a: int| 0 <= a < m0.len() && m0[a] == mv[x];
                    let b = choose|b: int| 0 <= b < m0.len() && m0[b] == mv[y];
                    assert(a != b);
                    assert(s0[a].key() == mv[x].id);
                    assert(s0[b].key() == mv[y].id);
                    if a < b {
                        assert(s0[a].key() != s0[b].key());
                    } else {
                        assert(s0[b].key() != s0[a].key());
                    }
                    assert(false);
                }
            }
            assert(lists_projects(r@, self@));
        }
        r
    }

    /// All band structures of the project, newest first. The listing holds
    /// exactly the stored records, each under its own identifier, none
    /// twice. Fails when no project is filed under `project_id`.
    #[verifier::rlimit(60)]
    pub fn list_band_structures(&self, project_id: &String) -> (r: Result<
        Vec<BandStructureInfo>,
        StoreError,
    >)
        requires
            self.wf(),
        ensures
            r is Ok <==> self@.dom().contains(project_id@),
            r is Err ==> r == Err::<Vec<BandStructureInfo>, StoreError>(StoreError::NotFound),
            r matches Ok(list) ==> lists_bands(list@, self@[project_id@].bands),
    {
        proof {
            lemma_key_map_dom(self.projects@);
        }
        match self.index_of(project_id) {
            Some(i) => {
                proof {
                    lemma_key_map_get(self.projects@, i as int);
                    assert(self.projects@[i as int].wf());
                }
                let node = &self.projects[i];
                let ghost b0 = node.bands@;
                let mut infos: Vec<BandStructureInfo> = Vec::new();
                let mut j: usize = 0;
                while j < node.bands.len()
                    invariant
                        j <= b0.len(),
                        b0 == node.bands@,
                        infos@.len() == j,
                        forall|x: int| 0 <= x < j ==> #[trigger] infos@[x]@ == b0[x].info@,
                    decreases b0.len() - j,
                {
                    infos.push(node.bands[j].info.duplicate());
                    j += 1;
                }
                let list = sort_band_infos(infos);
                proof {
                    broadcast use vstd::seq_lib::group_to_multiset_ensures;

                    let bm = self@[project_id@].bands;
                    let mv = band_views(list@);
                    let m0 = band_views(infos@);
                    assert(m0 =~= band_node_infos(b0));
                    lemma_key_map_dom(b0);
                    assert forall|x: int| 0 <= x < list@.len() implies bm.dom().contains(
                        #[trigger] list@[x]@.id,
                    ) && list@[x]@ == bm[list@[x]@.id].info by {
                        assert(mv[x] == list@[x]@);
                        assert(mv.contains(mv[x]));
                        assert(m0.to_multiset().count(mv[x]) > 0);
                        assert(m0.contains(mv[x]));
                        let y = choose|y: int| 0 <= y < m0.len() && m0[y] == mv[x];
                        assert(b0[y].info@ == mv[x]);
                        lemma_key_map_get(b0, y);
                        assert(b0[y].key() == mv[x].id);
                    }
                    assert forall|k: Seq<char>| #[trigger] bm.dom().contains(k) implies exists|
                        x: int,
                    | 0 <= x < list@.len() && list@[x]@.id == k by {
                        let y = choose|y: int| 0 <= y < b0.len() && b0[y].key() == k;
                        assert(m0[y] == b0[y].info@);
                        assert(m0[y].id == k);
                        assert(m0.contains(m0[y]));
                        assert(mv.to_multiset().count(m0[y]) > 0);
                        assert(mv.contains(m0[y]));
                        let x = choose|x: int| 0 <= x < mv.len() && mv[x] == m0[y];
                        assert(list@[x]@.id == k);
                        assert(exists|x2: int| 0 <= x2 < list@.len() && list@[x2]@.id == k);
                    }
                    assert(m0.no_duplicates()) by {
                        assert forall|a: int, b: int|
                            0 <= a < m0.len() && 0 <= b < m0.len() && a != b implies m0[a] != m0[b] by {
                            if a < b {
                                assert(b0[a].key() != b0[b].key());
                            } else {
                                assert(b0[b].key() != b0[a].key());
                            }
                        }
                    };
                    m0.lemma_multiset_has_no_duplicates();
                    mv.lemma_multiset_has_no_duplicates_conv();
                    assert forall|x: int, y: int| 0 <= x < y < list@.len() implies list@[x]@.id
                        != list@[y]@.id by {
                        if list@[x]@.id == list@[y]@.id {
                            assert(mv[x] != mv[y]);
                            assert(mv.contains(mv[x]));
                            assert(m0.to_multiset().count(mv[x]) > 0);
                            assert(m0.contains(mv[x]));
                            assert(mv.contains(mv[y]));
                            assert(m0.to_multiset().count(mv[y]) > 0);
                            assert(m0.contains(mv[y]));
                            let a = choose|a: int| 0 <= a < m0.len() && m0[a] == mv[x];
                            let b = choose|b: int| 0 <= b < m0.len() && m0[b] == mv[y];
                            assert(a != b);
                            assert(b0[a].key() == mv[x].id);
                            assert(b0[b].key() == mv[y].id);
                            if a < b {
                                assert(b0[a].key() != b0[b].key());
                            } else {
                                assert(b0[b].key() != b0[a].key());
                            }
                            assert(false);
                        }
                    }
                    assert(lists_bands(list@, bm));
                }
                Ok(list)
            },
            None => Err(StoreError::NotFound),
        }
    }

    /// All Fermi surfaces of the project, newest first. The listing holds
    /// exactly the stored records, each under its own identifier, none
    /// twice. Fails when no project is filed under `project_id`.
    #[verifier::rlimit(60)]
    pub fn list_fermi_surfaces(&self, project_id: &String) -> (r: Result<
        Vec<FermiSurfaceInfo>,
        StoreError,
    >)
        requires
            self.wf(),
        ensures
            r is Ok <==> self@.dom().contains(project_id@),
            r is Err ==> r == Err::<Vec<FermiSurfaceInfo>, StoreError>(StoreError::NotFound),
            r matches Ok(list) ==> lists_fermis(list@, self@[project_id@].fermis),
    {
        proof {
            lemma_key_map_dom(self.projects@);
        }
        match self.index_of(project_id) {
            Some(i) => {
                proof {
                    lemma_key_map_get(self.projects@, i as int);
                    assert(self.projects@[i as int].wf());
                }
                let node = &self.projects[i];
                let ghost f0 = node.fermis@;
                let mut infos: Vec<FermiSurfaceInfo> = Vec::new();
                let mut j: usize = 0;
                while j < node.fermis.len()
                    invariant
                        j <= f0.len(),
                        f0 == node.fermis@,
                        infos@.len() == j,
                        forall|x: int| 0 <= x < j ==> #[trigger] infos@[x]@ == f0[x].info@,
                    decreases f0.len() - j,
                {
                    infos.push(node.fermis[j].info.duplicate());
                    j += 1;
                }
                let list = sort_fermi_infos(infos);
                proof {
                    broadcast use vstd::seq_lib::group_to_multiset_ensures;

                    let fm = self@[project_id@].fermis;
                    let mv = fermi_views(list@);
                    let m0 = fermi_views(infos@);
                    assert(m0 =~= fermi_node_infos(f0));
                    lemma_key_map_dom(f0);
                    assert forall|x: int| 0 <= x < list@.len() implies fm.dom().contains(
                        #[trigger] list@[x]@.id,
                    ) && list@[x]@ == fm[list@[x]@.id].info by {
                        assert(mv[x] == list@[x]@);
                        assert(mv.contains(mv[x]));
                        assert(m0.to_multiset().count(mv[x]) > 0);
                        assert(m0.contains(mv[x]));
                        let y = choose|y: int| 0 <= y < m0.len() && m0[y] == mv[x];
                        assert(f0[y].info@ == mv[x]);
                        lemma_key_map_get(f0, y);
                        assert(f0[y].key() == mv[x].id);
                    }
                    assert forall|k: Seq<char>| #[trigger] fm.dom().contains(k) implies exists|
                        x: int,
                    | 0 <= x < list@.len() && list@[x]@.id == k by {
                        let y = choose|y: int| 0 <= y < f0.len() && f0[y].key() == k;
                        assert(m0[y] == f0[y].info@);
                        assert(m0[y].id == k);
                        assert(m0.contains(m0[y]));
                        assert(mv.to_multiset().count(m0[y]) > 0);
                        assert(mv.contains(m0[y]));
                        let x = choose|x: int| 0 <= x < mv.len() && mv[x] == m0[y];
                        assert(list@[x]@.id == k);
                        assert(exists|x2: int| 0 <= x2 < list@.len() && list@[x2]@.id == k);
                    }
                    assert(m0.no_duplicates()) by {
                        assert forall|a: int, b: int|
                            0 <= a < m0.len() && 0 <= b < m0.len() && a != b implies m0[a] != m0[b] by {
                            if a < b {
                                assert(f0[a].key() != f0[b].key());
                            } else {
                                assert(f0[b].key() != f0[a].key());
                            }
                        }
                    };
                    m0.lemma_multiset_has_no_duplicates();
                    mv.lemma_multiset_has_no_duplicates_conv();
                    assert forall|x: int, y: int| 0 <= x < y < list@.len() implies list@[x]@.id
                        != list@[y]@.id by {
                        if list@[x]@.id == list@[y]@.id {
                            assert(mv[x] != mv[y]);
                            assert(mv.contains(mv[x]));
                            assert(m0.to_multiset().count(mv[x]) > 0);
                            assert(m0.contains(mv[x]));
                            assert(mv.contains(mv[y]));
                            assert(m0.to_multiset().count(mv[y]) > 0);
                            assert(m0.contains(mv[y]));
                            let a = choose|a: int| 0 <= a < m0.len() && m0[a] == mv[x];
                            let b = choose|b: int| 0 <= b < m0.len() && m0[b] == mv[y];
                            assert(a != b);
                            assert(f0[a].key() == mv[x].id);
                            assert(f0[b].key() == mv[y].id);
                            if a < b {
                                assert(f0[a].key() != f0[b].key());
                            } else {
                                assert(f0[b].key() != f0[a].key());
                            }
                            assert(false);
                        }
                    }
                    assert(lists_fermis(list@, fm));
                }
                Ok(list)
            },
            None => Err(StoreError::NotFound),
        }
    }
}

} // verus!
