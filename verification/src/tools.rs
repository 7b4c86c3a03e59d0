//! The tool wheel: which editing mode the pointer currently drives.

use vstd::prelude::*;

verus! {

/// The interaction tools, in wheel order.
#[derive(Clone, Copy, PartialEq, Eq, Structural, Debug)]
pub enum Tool {
    Viewer,
    TrackEditor,
    TrainEditor,
}

impl Tool {
    /// The tool after `t` on the wheel, wrapping around.
    pub open spec fn next_spec(t: Tool) -> Tool {
        match t {
            Tool::Viewer => Tool::TrackEditor,
            Tool::TrackEditor => Tool::TrainEditor,
            Tool::TrainEditor => Tool::Viewer,
        }
    }

    /// All tools in wheel order.
    pub fn as_vec() -> (v: Vec<Tool>)
        ensures
            v@ =~= seq![Tool::Viewer, Tool::TrackEditor, Tool::TrainEditor],
    {
        let mut v: Vec<Tool> = Vec::new();
        v.push(Tool::Viewer);
        v.push(Tool::TrackEditor);
        v.push(Tool::TrainEditor);
        v
    }

    /// Cycles to the next tool on the wheel.
    pub fn next(current_tool: &Tool) -> (r: Tool)
        ensures
            r == Tool::next_spec(*current_tool),
    {
        match current_tool {
            Tool::Viewer => Tool::TrackEditor,
            Tool::TrackEditor => Tool::TrainEditor,
            Tool::TrainEditor => Tool::Viewer,
        }
    }
}

} // verus!
