//! Store-wide laws: what whole sequences of operations leave behind,
//! proved from the same abstract-state expressions the operations'
//! contracts are stated over.

use crate::records::ProjectV;
use crate::store::{
    apply_project_op, create_meta, created_node, stored, ProjectNodeV, ProjectOp,
};
use vstd::prelude::*;

verus! {

/// The abstract state a whole sequence of project mutations leaves behind.
pub open spec fn apply_project_ops(
    m: Map<Seq<char>, ProjectNodeV>,
    ops: Seq<ProjectOp>,
) -> Map<Seq<char>, ProjectNodeV>
    decreases ops.len(),
{
    if ops.len() == 0 {
        m
    } else {
        apply_project_ops(apply_project_op(m, ops[0]), ops.drop_first())
    }
}

/// Which identifiers survive one mutation: a create files its identifier,
/// a delete removes it, an update touches none.
pub open spec fn surviving_step(ids: Set<Seq<char>>, op: ProjectOp) -> Set<Seq<char>> {
    match op {
        ProjectOp::Create { id, .. } => ids.insert(id),
        ProjectOp::Update { .. } => ids,
        ProjectOp::Delete { id } => ids.remove(id),
    }
}

/// Which identifiers survive a whole sequence of mutations.
pub open spec fn surviving_ids(ids: Set<Seq<char>>, ops: Seq<ProjectOp>) -> Set<Seq<char>>
    decreases ops.len(),
{
    if ops.len() == 0 {
        ids
    } else {
        surviving_ids(surviving_step(ids, ops[0]), ops.drop_first())
    }
}

/// After any sequence of creates, updates and deletes, the store holds
/// exactly the surviving identifiers: those filed by a create and not
/// removed by a later delete. With `load_projects`' contract — the listing
/// holds exactly the stored records, ordered by last-opened-else-created
/// descending — a listing taken after the sequence reflects exactly the
/// surviving projects in that order.
pub proof fn lemma_store_reflects_surviving(m: Map<Seq<char>, ProjectNodeV>, ops: Seq<ProjectOp>)
    ensures
        apply_project_ops(m, ops).dom() =~= surviving_ids(m.dom(), ops),
    decreases ops.len(),
{
    if ops.len() > 0 {
        let m1 = apply_project_op(m, ops[0]);
        assert(m1.dom() =~= surviving_step(m.dom(), ops[0]));
        lemma_store_reflects_surviving(m1, ops.drop_first());
    }
}

/// A create followed by an update whose record carries a stale
/// last-modified value still comes out with a last-modified strictly after
/// the creation instant, because the store recomputes it: provided only
/// that the clock moved between the two instants.
pub proof fn lemma_update_refreshes_modified(
    m: Map<Seq<char>, ProjectNodeV>,
    record: ProjectV,
    name: Seq<char>,
    formula: Seq<char>,
    t_create: u64,
    t_update: u64,
)
    requires
        t_create < t_update,
        record.created_at == t_create,
    ensures
        ({
            let m1 = apply_project_op(
                m,
                ProjectOp::Create { id: record.id, name: name, formula: formula, now: t_create },
            );
            let m2 = apply_project_op(m1, ProjectOp::Update { record: record, now: t_update });
            &&& m2.dom().contains(record.id)
            &&& m2[record.id].meta.updated_at > m2[record.id].meta.created_at
            &&& m2[record.id].meta.updated_at == t_update
        }),
{
}

/// Importing a structure file twice leaves the second copy: whatever was
/// attached before, the stored contents after the second import are
/// exactly the later bytes, which is what `read_cif_file` then returns.
pub proof fn lemma_reimport_overwrites(
    m: Map<Seq<char>, ProjectNodeV>,
    id: Seq<char>,
    meta1: ProjectV,
    meta2: ProjectV,
    content1: Seq<char>,
    content2: Seq<char>,
)
    requires
        m.dom().contains(id),
    ensures
        ({
            let m1 = m.insert(
                id,
                ProjectNodeV { meta: meta1, structure: Some(content1), ..m[id] },
            );
            let m2 = m1.insert(
                id,
                ProjectNodeV { meta: meta2, structure: Some(content2), ..m1[id] },
            );
            &&& m2.dom().contains(id)
            &&& m2[id].structure == Some(content2)
        }),
{
}

/// Deleting a project removes its entry outright, and with it every
/// band-structure and Fermi-surface child it held: afterwards the
/// identifier resolves to nothing, which is exactly when the child
/// listings' contracts answer with the not-found error.
pub proof fn lemma_delete_removes_children(m: Map<Seq<char>, ProjectNodeV>, id: Seq<char>)
    ensures
        !apply_project_op(m, ProjectOp::Delete { id }).dom().contains(id),
        m.dom().contains(id) ==> apply_project_op(m, ProjectOp::Delete { id })
            =~= m.remove(id),
{
}

/// Crystal data is absent — not an error — on a freshly created project,
/// and after one save it reads back as exactly the saved bytes.
pub proof fn lemma_crystal_data_lifecycle(
    m: Map<Seq<char>, ProjectNodeV>,
    id: Seq<char>,
    name: Seq<char>,
    formula: Seq<char>,
    now: u64,
    blob: Seq<char>,
)
    ensures
        ({
            let m1 = apply_project_op(
                m,
                ProjectOp::Create { id: id, name: name, formula: formula, now: now },
            );
            !m.dom().contains(id) ==> m1[id].crystal is None
        }),
        m.dom().contains(id) ==> m.insert(
            id,
            ProjectNodeV { crystal: Some(blob), ..m[id] },
        )[id].crystal == Some(blob),
{
    assert(stored(m, id) == if m.dom().contains(id) {
        Some(m[id])
    } else {
        Option::<ProjectNodeV>::None
    });
    assert(created_node(None, create_meta(id, name, formula, now)).crystal is None);
}

} // verus!
