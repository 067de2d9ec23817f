//! The way of a labelled document to its compact value: the steps in their
//! one order.

use crate::compact_value::{compact, CompactValue, CompactValueView};
use crate::intermediate_form::{retag, IntermediateForm};
use crate::simple_value::{SimpleValue, SimpleValueView};
use crate::typed_form::{lift, liftable, TypedForm};
use vstd::prelude::*;

verus! {

/// The step at which a document cannot go on.
#[derive(Debug, Clone, Copy, PartialEq, Eq, Structural)]
pub enum Stage {
    /// Setting the types apart: an array without a first item that
    /// describes a type, or an object whose `Z1K1` describes none.
    Lift,
    /// Collapsing references: a reference without a plain string to refer to.
    Reference,
    /// Collapsing string objects: a string object without its plain string.
    String,
    /// Collapsing monolingual texts: one without its language or its text.
    Monolingual,
}

/// The compact value of a labelled document: its types set apart; then
/// references, string objects and monolingual texts collapsed, in this
/// order; the types of the items of arrays dropped; the types moved into
/// the keys; and the objects of one field merged into the fields that hold
/// them. Where a step cannot work on what the steps before it gave, the
/// outcome is that step.
pub open spec fn compactified(v: SimpleValueView) -> Result<CompactValueView, Stage> {
    if !liftable(v) {
        Err(Stage::Lift)
    } else {
        let typed = retag(lift(v));
        if !typed.admits_compress_reference() {
            Err(Stage::Reference)
        } else {
            let without_references = typed.compress_reference();
            if !without_references.admits_compress_string() {
                Err(Stage::String)
            } else {
                let without_strings = without_references.compress_string();
                if !without_strings.admits_compress_monolingual() {
                    Err(Stage::Monolingual)
                } else {
                    Ok(
                        compact(
                            without_strings.compress_monolingual().drop_array_item_types(),
                        ).compress_simple_classes(),
                    )
                }
            }
        }
    }
}

/// What the way to the compact value ended in.
pub open spec fn outcome(r: Result<CompactValue, Stage>) -> Result<CompactValueView, Stage> {
    match r {
        Ok(v) => Ok(v@),
        Err(s) => Err(s),
    }
}

/// The compact value of a labelled document, or the step at which the
/// document cannot go on.
pub fn compactify(val: &SimpleValue) -> (r: Result<CompactValue, Stage>)
    ensures
        outcome(r) == compactified(val@),
        val@.wf() ==> (r matches Ok(v) ==> v@.wf()),
{
    let typed = match TypedForm::checked_from(val) {
        Some(t) => IntermediateForm::from(t),
        None => {
            return Err(Stage::Lift);
        },
    };
    let without_references = match typed.checked_compress_reference() {
        Some(f) => f,
        None => {
            return Err(Stage::Reference);
        },
    };
    let without_strings = match without_references.checked_compress_string() {
        Some(f) => f,
        None => {
            return Err(Stage::String);
        },
    };
    let without_texts = match without_strings.checked_compress_monolingual() {
        Some(f) => f,
        None => {
            return Err(Stage::Monolingual);
        },
    };
    let thinned = without_texts.drop_array_item_types();
    Ok(CompactValue::from(thinned).compress_simple_classes())
}

} // verus!
