//! A branching-dialog scripting and playback engine.
//!
//! Dialog is authored as a JSON document of nodes (text lines, player
//! choices, inline script actions, outbound signals). A small interpreted
//! command language mutates a persistent key/value store (the blackboard),
//! a boolean query language gates lines, and a playback state machine
//! advances line by line, emitting structured events for the host to render.
use vstd::prelude::*;

pub mod blackboard;
pub mod doc;
pub mod engine;
pub mod json;
pub mod num;
pub mod text;
pub mod track;
pub mod value;

pub use blackboard::Blackboard;
pub use doc::DocValue;
pub use engine::CoreDialog;
pub use value::Entry;

verus! {

/// Builds the engine instance the host keeps as its dialog singleton.
/// Registration with a global engine becomes explicit dependency
/// injection: the caller owns the returned core and passes it where it
/// is needed.
pub fn register_singletons() -> (r: engine::CoreDialog)
    ensures
        r.wf(),
        r@.blackboard.entries == Map::<Seq<u8>, value::EntryV>::empty(),
        r@.blackboard.event is None,
        r@.track is None,
        r@.queue == Seq::<track::LineV>::empty(),
        r@.state == engine::DialogState::Active,
        r@.pending_action is None,
        r@.choice_open is None,
        !r@.session,
        r@.outputs == Seq::<engine::OutputV>::empty(),
{
    engine::CoreDialog::new()
}

/// Releases the host's dialog singleton: any live session ends (its
/// track-ended event stays in the outbox for the host to drain) and
/// the core returns to its idle shape.
pub fn unregister_singletons(core: &mut engine::CoreDialog)
    ensures
        final(core).wf() == old(core).wf(),
        !final(core)@.session,
        final(core)@.queue == Seq::<track::LineV>::empty(),
        final(core)@.track is None,
        final(core)@.pending_action is None,
        final(core)@.choice_open is None,
        final(core)@.blackboard == old(core)@.blackboard,
        final(core)@.outputs == if old(core)@.session {
            old(core)@.outputs.push(engine::OutputV::TrackEnded)
        } else {
            old(core)@.outputs
        },
{
    core.shutdown();
}

} // verus!
