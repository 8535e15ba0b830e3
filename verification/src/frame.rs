//! What one frame leaves behind: a record per pass, in declared order, and
//! the image to present.

use crate::draw_call::{call_views, DrawCall, DrawCallView};
use crate::images::Extent;
use vstd::prelude::*;

verus! {

/// An output image as bound for a pass: its registry position, its size, and
/// whether it had to be created for this pass.
#[derive(Clone, Copy, Debug, PartialEq, Eq, Structural)]
pub struct OutputBinding {
    pub slot: usize,
    pub extent: Extent,
    pub fresh: bool,
}

/// The recording of one pass: its position in the graph, the images it
/// renders into, the images it samples, and its draws in the order made.
#[derive(Clone, Debug, PartialEq, Eq)]
pub struct PassRecord {
    pub pass: usize,
    pub outputs: Vec<OutputBinding>,
    pub inputs: Vec<usize>,
    pub draws: Vec<DrawCall>,
}

/// The value of a pass recording.
#[verifier::ext_equal]
pub struct PassRecordView {
    pub pass: usize,
    pub outputs: Seq<OutputBinding>,
    pub inputs: Seq<usize>,
    pub draws: Seq<DrawCallView>,
}

impl View for PassRecord {
    type V = PassRecordView;

    open spec fn view(&self) -> PassRecordView {
        PassRecordView {
            pass: self.pass,
            outputs: self.outputs@,
            inputs: self.inputs@,
            draws: call_views(self.draws@),
        }
    }
}

/// The views of a list of pass recordings.
pub open spec fn record_views(records: Seq<PassRecord>) -> Seq<PassRecordView> {
    records.map_values(|record: PassRecord| record@)
}

/// A finished frame: every pass once, then the registry position of the image
/// that goes to the presentation surface.
#[derive(Clone, Debug, PartialEq, Eq)]
pub struct Frame {
    pub passes: Vec<PassRecord>,
    pub present: usize,
}

/// The value of a finished frame.
#[verifier::ext_equal]
pub struct FrameView {
    pub passes: Seq<PassRecordView>,
    pub present: usize,
}

impl View for Frame {
    type V = FrameView;

    open spec fn view(&self) -> FrameView {
        FrameView { passes: record_views(self.passes@), present: self.present }
    }
}

} // verus!
