//! The pipeline's data: scanned directories, planned conversions, and
//! per-directory image groups, each with its mathematical view.

use vstd::prelude::*;

verus! {

/// A directory the scanner found, with whether its bundle already exists.
/// The caller fills `pdf_exists` from the file system.
pub struct DirEnt {
    pub path: Vec<u8>,
    pub pdf_exists: bool,
}

/// What a `DirEnt` stands for.
pub struct DirEntView {
    pub path: Seq<u8>,
    pub pdf_exists: bool,
}

impl View for DirEnt {
    type V = DirEntView;

    open spec fn view(&self) -> DirEntView {
        DirEntView { path: self.path@, pdf_exists: self.pdf_exists }
    }
}

/// One normalization job: convert `source` and write the result at
/// `target`; the source is deleted only after the write succeeded.
pub struct ConversionJob {
    pub source: Vec<u8>,
    pub target: Vec<u8>,
}

/// What a `ConversionJob` stands for.
pub struct ConversionJobView {
    pub source: Seq<u8>,
    pub target: Seq<u8>,
}

impl View for ConversionJob {
    type V = ConversionJobView;

    open spec fn view(&self) -> ConversionJobView {
        ConversionJobView { source: self.source@, target: self.target@ }
    }
}

/// One directory's bundle: the ordered image paths destined for the PDF
/// at `output`.
pub struct DirectoryGroup {
    pub dir: Vec<u8>,
    pub output: Vec<u8>,
    pub images: Vec<Vec<u8>>,
}

/// What a `DirectoryGroup` stands for.
pub struct GroupView {
    pub dir: Seq<u8>,
    pub output: Seq<u8>,
    pub images: Seq<Seq<u8>>,
}

impl View for DirectoryGroup {
    type V = GroupView;

    open spec fn view(&self) -> GroupView {
        GroupView {
            dir: self.dir@,
            output: self.output@,
            images: crate::order::path_views(self.images@),
        }
    }
}

/// The views of a sequence of directory entries.
pub open spec fn dir_views(s: Seq<DirEnt>) -> Seq<DirEntView> {
    s.map_values(|d: DirEnt| d@)
}

/// The views of a sequence of groups.
pub open spec fn group_views(s: Seq<DirectoryGroup>) -> Seq<GroupView> {
    s.map_values(|g: DirectoryGroup| g@)
}

/// The views of a sequence of conversion jobs.
pub open spec fn job_views(s: Seq<ConversionJob>) -> Seq<ConversionJobView> {
    s.map_values(|j: ConversionJob| j@)
}

} // verus!
