use vstd::prelude::*;

verus! {

/// Something that happened to the session: a clock tick, a line of input or
/// the end.
#[derive(Debug, Clone)]
pub enum Event {
    Tick,
    Input(String),
    Shutdown,
}

} // verus!
