//! The preparer never stops on an arena that is ready for it.
use crate::frontend::ir_gen::ir::{irs_of, Ir, IrId};
use crate::frontend::ir_gen::shape::{element_ready, ready};
use crate::middleend::prepare::model::{
    emit_fault, first_emit_fault, first_hoist_fault, hoist_fault, prepare_fault,
};
use vstd::prelude::*;

verus! {

/// Whether each of the elements `elems` of the top block exists in `irs` and
/// may stand in the top block.
pub open spec fn elements_ready(irs: Seq<Ir>, elems: Seq<IrId>) -> bool {
    forall|k: int|
        0 <= k < elems.len() ==> 0 <= (#[trigger] elems[k]).0 < irs.len() && element_ready(
            irs_of(irs),
            0,
            elems[k].0 as int,
        )
}

/// An element that may stand in the top block has no fault, neither when its
/// name is hoisted nor when it is emitted.
pub proof fn lemma_element_has_no_fault(irs: Seq<Ir>, elem: IrId)
    requires
        0 <= elem.0 < irs.len(),
        element_ready(irs_of(irs), 0, elem.0 as int),
    ensures
        hoist_fault(irs, elem) is None,
        emit_fault(irs, elem) is None,
{
    let nodes = irs_of(irs);
    assert(nodes[elem.0 as int] == irs[elem.0 as int]@);
    match irs[elem.0 as int] {
        Ir::Deffun { iden, params, returns: results, body } => {
            assert(nodes[iden.0 as int] == irs[iden.0 as int]@);
            assert(nodes[body.0 as int] == irs[body.0 as int]@);
        },
        _ => {},
    }
}

/// Elements that may stand in the top block have no fault of hoisting.
pub proof fn lemma_no_hoist_fault(irs: Seq<Ir>, elems: Seq<IrId>, k: int)
    requires
        elements_ready(irs, elems),
        0 <= k,
    ensures
        first_hoist_fault(irs, elems, k) is None,
    decreases elems.len() - k,
{
    if k < elems.len() {
        lemma_element_has_no_fault(irs, elems[k]);
        lemma_no_hoist_fault(irs, elems, k + 1);
    }
}

/// Elements that may stand in the top block have no fault of emission.
pub proof fn lemma_no_emit_fault(irs: Seq<Ir>, elems: Seq<IrId>, k: int)
    requires
        elements_ready(irs, elems),
        0 <= k,
    ensures
        first_emit_fault(irs, elems, k) is None,
    decreases elems.len() - k,
{
    if k < elems.len() {
        lemma_element_has_no_fault(irs, elems[k]);
        lemma_no_emit_fault(irs, elems, k + 1);
    }
}

/// The preparer finds no fault in an arena that is ready for it.
pub proof fn lemma_ready_has_no_fault(irs: Seq<Ir>)
    requires
        ready(irs_of(irs)),
    ensures
        prepare_fault(irs) is None,
{
    let nodes = irs_of(irs);
    assert(nodes[0] == irs[0]@);
    let elems = irs[0]->Block_0@;
    assert(elements_ready(irs, elems));
    lemma_no_hoist_fault(irs, elems, 0);
    lemma_no_emit_fault(irs, elems, 0);
}

} // verus!
