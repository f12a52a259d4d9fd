//! The canvas vocabulary: what kinds of element a canvas can hold and the
//! modes it can be in.

use vstd::prelude::*;

verus! {

/// What kind of thing a canvas element is.
#[derive(Debug, Clone, Copy, PartialEq, Eq, Structural)]
pub enum ElementType {
    Rectangle,
    Circle,
    Text,
    Component,
    Wireframe,
    FlowchartNode,
    FlowchartEdge,
    StickyNote,
    Image,
}

/// The editing discipline a canvas is in.
#[derive(Debug, Clone, Copy, PartialEq, Eq, Structural)]
pub enum CanvasMode {
    Freeform,
    Wireframe,
    Flowchart,
    SystemDesign,
}

} // verus!
