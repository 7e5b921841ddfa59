//! The resource deployer.
//!
//! On every startup the deployer decides, per resource bundle, whether the
//! previously extracted contents are stale relative to the bundled archive:
//! a missing marker file means extraction is required, and a bundled archive
//! whose modification time is strictly newer than the marker's means an
//! upgrade. When extraction is required and an archive is bundled, the
//! destination directory is removed whole and replaced — old and new bundle
//! contents never coexist. When extraction is required but no archive is
//! bundled (a development environment), extraction is skipped silently. The
//! deployment succeeds exactly when the marker file exists afterwards.

use vstd::prelude::*;

use crate::paths::{join_path, spec_join_path};

verus! {

/// One deployable unit, constructed once per startup from
/// environment-resolved paths and immutable thereafter: the bundled,
/// read-only archive, the writable extraction target, and the file inside
/// it whose existence proves a successful prior extraction.
#[derive(Debug)]
pub struct ResourceBundle {
    /// Logical identifier of the bundle.
    pub name: Vec<u8>,
    /// The bundled, read-only source archive.
    pub archive_path: Vec<u8>,
    /// The writable extraction target directory.
    pub dest_dir: Vec<u8>,
    /// Name of the marker file, relative to the destination directory.
    pub marker_file: Vec<u8>,
}

impl ResourceBundle {
    /// The full path of the marker file under the destination directory.
    pub fn marker_path(&self) -> (r: Vec<u8>)
        ensures
            r@ == spec_join_path(self.dest_dir@, self.marker_file@),
    {
        join_path(&self.dest_dir, &self.marker_file)
    }
}

/// Deployment failed for this resource: neither a bundled archive nor
/// pre-existing extracted contents were found. Fatal to the resource's
/// process, not to the application.
#[derive(Clone, Copy, PartialEq, Eq, Structural, Debug)]
pub enum DeployError {
    MissingResource,
}

/// What a probe of the filesystem reports about one resource bundle. The
/// two modification times are meaningful only when the respective file is
/// present.
#[derive(Clone, Copy, PartialEq, Eq, Structural, Debug)]
pub struct ResourceProbe {
    /// The marker file exists under the destination directory.
    pub marker_present: bool,
    /// Modification time of the marker file.
    pub marker_mtime: u64,
    /// The bundled archive exists.
    pub archive_present: bool,
    /// Modification time of the bundled archive.
    pub archive_mtime: u64,
}

/// The single deployment decision, evaluated once per startup and resource.
#[derive(Clone, Copy, PartialEq, Eq, Structural, Debug)]
pub enum DeployPlan {
    /// The marker is present and not older than the archive: touch nothing.
    UpToDate,
    /// Remove the destination directory if it exists, recreate it empty,
    /// and extract the archive into it.
    Replace,
    /// Extraction is required but no archive is bundled: skip silently and
    /// rely on whatever contents already exist.
    NoArchive,
}

/// Extraction is required: the marker is absent, or the archive is strictly
/// newer than the marker (the upgrade signal).
pub open spec fn spec_extraction_required(p: ResourceProbe) -> bool {
    !p.marker_present || (p.archive_present && p.archive_mtime > p.marker_mtime)
}

/// The deployment decision for a probe.
pub open spec fn spec_plan(p: ResourceProbe) -> DeployPlan {
    if !spec_extraction_required(p) {
        DeployPlan::UpToDate
    } else if p.archive_present {
        DeployPlan::Replace
    } else {
        DeployPlan::NoArchive
    }
}

/// Decide what deployment must do for one resource.
pub fn plan_deploy(p: ResourceProbe) -> (r: DeployPlan)
    ensures
        r == spec_plan(p),
{
    let required = !p.marker_present || (p.archive_present && p.archive_mtime > p.marker_mtime);
    if !required {
        DeployPlan::UpToDate
    } else if p.archive_present {
        DeployPlan::Replace
    } else {
        DeployPlan::NoArchive
    }
}

/// Whether the destination directory must be removed before extraction: only
/// a replacement removes, and only when the directory is there.
pub fn removal_required(plan: DeployPlan, dest_exists: bool) -> (r: bool)
    ensures
        r == (plan == DeployPlan::Replace && dest_exists),
{
    match plan {
        DeployPlan::Replace => dest_exists,
        _ => false,
    }
}

/// The final outcome of deployment: the destination directory is usable
/// exactly when the marker file exists after the plan was acted on;
/// otherwise the resource is missing and its process must not be launched.
pub fn deploy_outcome(dest: Vec<u8>, marker_present_after: bool) -> (r: Result<
    Vec<u8>,
    DeployError,
>)
    ensures
        marker_present_after ==> (r matches Ok(d) && d@ == dest@),
        !marker_present_after ==> r == Result::<Vec<u8>, DeployError>::Err(
            DeployError::MissingResource,
        ),
{
    if marker_present_after {
        Ok(dest)
    } else {
        Err(DeployError::MissingResource)
    }
}

/// Model of the filesystem subtree of one resource: whether the destination
/// directory exists, the relative paths of the files under it, and the
/// marker file's modification time.
pub struct FsModel {
    pub dest_exists: bool,
    pub dest_files: Set<Seq<u8>>,
    pub marker_mtime: u64,
}

/// Model of one bundled archive: presence, modification time, and the
/// relative paths of the files it carries.
pub struct ArchiveModel {
    pub present: bool,
    pub mtime: u64,
    pub files: Set<Seq<u8>>,
}

/// The marker file exists under the destination.
pub open spec fn spec_marker_present(fs: FsModel, marker: Seq<u8>) -> bool {
    fs.dest_exists && fs.dest_files.contains(marker)
}

/// What probing this modelled state reports.
pub open spec fn spec_probe(fs: FsModel, ar: ArchiveModel, marker: Seq<u8>) -> ResourceProbe {
    ResourceProbe {
        marker_present: spec_marker_present(fs, marker),
        marker_mtime: fs.marker_mtime,
        archive_present: ar.present,
        archive_mtime: ar.mtime,
    }
}

/// The filesystem after one deployment run. A replacement removes the old
/// directory whole and extracts the archive's files; `now` is the time at
/// which the freshly written marker is stamped. Every other plan leaves the
/// filesystem untouched.
pub open spec fn spec_apply(fs: FsModel, ar: ArchiveModel, marker: Seq<u8>, now: u64) -> FsModel {
    match spec_plan(spec_probe(fs, ar, marker)) {
        DeployPlan::Replace => FsModel { dest_exists: true, dest_files: ar.files, marker_mtime: now },
        _ => fs,
    }
}

/// One deployment run writes to the filesystem at all.
pub open spec fn spec_deploy_writes(fs: FsModel, ar: ArchiveModel, marker: Seq<u8>) -> bool {
    spec_plan(spec_probe(fs, ar, marker)) == DeployPlan::Replace
}

/// Deployment is idempotent: with an unchanged archive, a second run right
/// after a first finds everything up to date — it changes nothing on disk
/// and performs no write at all. Assumes a well-formed bundle (the archive
/// carries its own marker file) and that extraction does not happen before
/// the archive was built, so the fresh marker is never older than the
/// archive.
pub proof fn lemma_deploy_idempotent(
    fs: FsModel,
    ar: ArchiveModel,
    marker: Seq<u8>,
    now1: u64,
    now2: u64,
)
    requires
        ar.present ==> ar.files.contains(marker),
        ar.present ==> now1 >= ar.mtime,
    ensures
        ({
            let fs1 = spec_apply(fs, ar, marker, now1);
            &&& spec_apply(fs1, ar, marker, now2) == fs1
            &&& !spec_deploy_writes(fs1, ar, marker)
        }),
{
}

/// When success is owed: after one deployment run the marker — and with it
/// a usable destination — exists exactly when either a replacement
/// extracted an archive that carries the marker, or nothing was replaced
/// and the marker was already there. In particular a development
/// environment without a bundled archive succeeds precisely on pre-existing
/// extracted contents.
pub proof fn lemma_deploy_success(fs: FsModel, ar: ArchiveModel, marker: Seq<u8>, now: u64)
    ensures
        spec_marker_present(spec_apply(fs, ar, marker, now), marker) <==> (if spec_deploy_writes(
            fs,
            ar,
            marker,
        ) {
            ar.files.contains(marker)
        } else {
            spec_marker_present(fs, marker)
        }),
{
}

/// The upgrade guarantee: a bundled archive strictly newer than the marker
/// forces a replacement, after which the destination holds exactly the
/// archive's files — no file of the old extraction survives unless the new
/// archive carries it too.
pub proof fn lemma_upgrade_replaces(fs: FsModel, ar: ArchiveModel, marker: Seq<u8>, now: u64)
    requires
        spec_marker_present(fs, marker),
        ar.present,
        ar.mtime > fs.marker_mtime,
    ensures
        spec_deploy_writes(fs, ar, marker),
        spec_apply(fs, ar, marker, now).dest_files == ar.files,
        forall|f: Seq<u8>|
            fs.dest_files.contains(f) && !ar.files.contains(f) ==> !spec_apply(
                fs,
                ar,
                marker,
                now,
            ).dest_files.contains(f),
{
}

} // verus!
