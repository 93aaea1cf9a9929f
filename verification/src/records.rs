//! The entity records the store persists, their mathematical views, and the
//! pure transformations the store operations apply to them.

use vstd::prelude::*;

verus! {

/// Spec-level image of an optional owned string.
pub open spec fn opt_text(o: Option<String>) -> Option<Seq<char>> {
    match o {
        Some(s) => Some(s@),
        None => None,
    }
}

/// A top-level user project, backed by one directory.
pub struct Project {
    /// Opaque identifier; immutable once assigned and equal to the name of
    /// the backing directory.
    pub id: String,
    pub name: String,
    pub formula: String,
    /// Unix milliseconds.
    pub created_at: u64,
    /// Unix milliseconds; refreshed by every mutating operation.
    pub updated_at: u64,
    /// Unix milliseconds; set when the project is opened, absent before.
    pub last_opened_at: Option<u64>,
    /// Whether a structure file is attached.
    pub has_cif: bool,
    /// Original filename of the attached structure file, if any.
    pub cif_filename: Option<String>,
}

pub struct ProjectV {
    pub id: Seq<char>,
    pub name: Seq<char>,
    pub formula: Seq<char>,
    pub created_at: u64,
    pub updated_at: u64,
    pub last_opened_at: Option<u64>,
    pub has_cif: bool,
    pub cif_filename: Option<Seq<char>>,
}

impl View for Project {
    type V = ProjectV;

    open spec fn view(&self) -> ProjectV {
        ProjectV {
            id: self.id@,
            name: self.name@,
            formula: self.formula@,
            created_at: self.created_at,
            updated_at: self.updated_at,
            last_opened_at: self.last_opened_at,
            has_cif: self.has_cif,
            cif_filename: opt_text(self.cif_filename),
        }
    }
}

/// A band-structure resource: one metadata record plus two copied data files.
pub struct BandStructureInfo {
    pub id: String,
    pub name: String,
    /// Unix milliseconds.
    pub created_at: u64,
    /// Original filename of the copied band data file.
    pub qtl_filename: String,
    /// Original filename of the copied k-point list file.
    pub klist_filename: String,
}

pub struct BandStructureInfoV {
    pub id: Seq<char>,
    pub name: Seq<char>,
    pub created_at: u64,
    pub qtl_filename: Seq<char>,
    pub klist_filename: Seq<char>,
}

impl View for BandStructureInfo {
    type V = BandStructureInfoV;

    open spec fn view(&self) -> BandStructureInfoV {
        BandStructureInfoV {
            id: self.id@,
            name: self.name@,
            created_at: self.created_at,
            qtl_filename: self.qtl_filename@,
            klist_filename: self.klist_filename@,
        }
    }
}

/// A Fermi-surface resource: one metadata record plus four copied data files.
pub struct FermiSurfaceInfo {
    pub id: String,
    pub name: String,
    /// Unix milliseconds.
    pub created_at: u64,
    /// The calculation case name the four data files belong to.
    pub case_name: String,
}

pub struct FermiSurfaceInfoV {
    pub id: Seq<char>,
    pub name: Seq<char>,
    pub created_at: u64,
    pub case_name: Seq<char>,
}

impl View for FermiSurfaceInfo {
    type V = FermiSurfaceInfoV;

    open spec fn view(&self) -> FermiSurfaceInfoV {
        FermiSurfaceInfoV {
            id: self.id@,
            name: self.name@,
            created_at: self.created_at,
            case_name: self.case_name@,
        }
    }
}

/// The sort key project listings order by, most recent first: the
/// last-opened instant when the project was ever opened, else the creation
/// instant.
pub open spec fn recency_key(p: ProjectV) -> u64 {
    match p.last_opened_at {
        Some(t) => t,
        None => p.created_at,
    }
}

impl Project {
    /// The listing sort key of this record.
    pub fn recency(&self) -> (r: u64)
        ensures
            r == recency_key(self@),
    {
        match self.last_opened_at {
            Some(t) => t,
            None => self.created_at,
        }
    }
}

fn clone_opt_string(o: &Option<String>) -> (r: Option<String>)
    ensures
        opt_text(r) == opt_text(*o),
{
    match o {
        Some(s) => Some(s.clone()),
        None => None,
    }
}

impl Project {
    /// The record a freshly created project carries: both timestamps at the
    /// creation instant, just opened, no structure file attached.
    pub fn build(id: String, name: String, formula: String, now: u64) -> (p: Project)
        ensures
            p@ == (ProjectV {
                id: id@,
                name: name@,
                formula: formula@,
                created_at: now,
                updated_at: now,
                last_opened_at: Some(now),
                has_cif: false,
                cif_filename: None,
            }),
    {
        Project {
            id,
            name,
            formula,
            created_at: now,
            updated_at: now,
            last_opened_at: Some(now),
            has_cif: false,
            cif_filename: None,
        }
    }

    pub fn duplicate(&self) -> (r: Project)
        ensures
            r@ == self@,
    {
        Project {
            id: self.id.clone(),
            name: self.name.clone(),
            formula: self.formula.clone(),
            created_at: self.created_at,
            updated_at: self.updated_at,
            last_opened_at: self.last_opened_at,
            has_cif: self.has_cif,
            cif_filename: clone_opt_string(&self.cif_filename),
        }
    }

    /// The record after an update: last-modified refreshed to `now`
    /// regardless of what the caller supplied, all else kept.
    pub fn touched(self, now: u64) -> (r: Project)
        ensures
            r@ == (ProjectV { updated_at: now, ..self@ }),
    {
        Project { updated_at: now, ..self }
    }

    /// The record after the project is opened: last-opened set to `now`,
    /// last-modified untouched.
    pub fn opened(self, now: u64) -> (r: Project)
        ensures
            r@ == (ProjectV { last_opened_at: Some(now), ..self@ }),
    {
        Project { last_opened_at: Some(now), ..self }
    }

    /// The record after a structure file import: attachment flag set, the
    /// original filename remembered, last-modified refreshed.
    pub fn with_attachment(self, original_filename: String, now: u64) -> (r: Project)
        ensures
            r@ == (ProjectV {
                has_cif: true,
                cif_filename: Some(original_filename@),
                updated_at: now,
                ..self@
            }),
    {
        Project {
            has_cif: true,
            cif_filename: Some(original_filename),
            updated_at: now,
            ..self
        }
    }
}

impl BandStructureInfo {
    pub fn build(
        id: String,
        name: String,
        now: u64,
        qtl_filename: String,
        klist_filename: String,
    ) -> (r: BandStructureInfo)
        ensures
            r@ == (BandStructureInfoV {
                id: id@,
                name: name@,
                created_at: now,
                qtl_filename: qtl_filename@,
                klist_filename: klist_filename@,
            }),
    {
        BandStructureInfo { id, name, created_at: now, qtl_filename, klist_filename }
    }

    pub fn duplicate(&self) -> (r: BandStructureInfo)
        ensures
            r@ == self@,
    {
        BandStructureInfo {
            id: self.id.clone(),
            name: self.name.clone(),
            created_at: self.created_at,
            qtl_filename: self.qtl_filename.clone(),
            klist_filename: self.klist_filename.clone(),
        }
    }
}

impl FermiSurfaceInfo {
    pub fn build(id: String, name: String, now: u64, case_name: String) -> (r: FermiSurfaceInfo)
        ensures
            r@ == (FermiSurfaceInfoV {
                id: id@,
                name: name@,
                created_at: now,
                case_name: case_name@,
            }),
    {
        FermiSurfaceInfo { id, name, created_at: now, case_name }
    }

    pub fn duplicate(&self) -> (r: FermiSurfaceInfo)
        ensures
            r@ == self@,
    {
        FermiSurfaceInfo {
            id: self.id.clone(),
            name: self.name.clone(),
            created_at: self.created_at,
            case_name: self.case_name.clone(),
        }
    }
}

} // verus!
