//! The records that a threshold refers to: its project, the branch and
//! testbed it watches, and the measure it is about.

use vstd::prelude::*;
use crate::error::{ApiError, BencherResource};
use crate::ids::{
    row_index, BranchId, BranchUuid, MeasureId, MeasureUuid, ProjectId, ProjectUuid,
    ReferenceId, TestbedId, TestbedUuid, VersionId,
};
use crate::state::{lemma_measure_called, lemma_measure_not_called, StoreState};
use crate::store::Store;

verus! {

/// A stored project.
#[derive(Clone, Copy, Debug, PartialEq, Eq, Structural)]
pub struct QueryProject {
    pub id: ProjectId,
    pub uuid: ProjectUuid,
}

/// A stored branch of a project.
#[derive(Clone, Copy, Debug, PartialEq, Eq, Structural)]
pub struct QueryBranch {
    pub id: BranchId,
    pub uuid: BranchUuid,
    pub project_id: ProjectId,
}

/// A stored reference: a head that a branch had when a report was taken.
#[derive(Clone, Copy, Debug, PartialEq, Eq, Structural)]
pub struct QueryReference {
    pub id: ReferenceId,
    pub branch_id: BranchId,
}

/// A stored version: one numbered state of the code under test.
#[derive(Clone, Copy, Debug, PartialEq, Eq, Structural)]
pub struct QueryVersion {
    pub id: VersionId,
    pub number: u32,
}

/// A stored testbed of a project.
#[derive(Clone, Copy, Debug, PartialEq, Eq, Structural)]
pub struct QueryTestbed {
    pub id: TestbedId,
    pub uuid: TestbedUuid,
    pub project_id: ProjectId,
}

/// A stored measure of a project, found by its name.
#[derive(Clone, Debug)]
pub struct QueryMeasure {
    pub id: MeasureId,
    pub uuid: MeasureUuid,
    pub project_id: ProjectId,
    pub name: String,
}

/// The head of a branch that a report was taken at.
#[derive(Clone, Copy, Debug, PartialEq, Eq, Structural)]
pub struct JsonHead {
    pub reference: ReferenceId,
    pub version: u32,
}

/// A branch as shown under its project.
#[derive(Clone, Copy, Debug, PartialEq, Eq, Structural)]
pub struct JsonBranch {
    pub uuid: BranchUuid,
    pub project: ProjectUuid,
    /// Present when the branch is shown as of one report.
    pub head: Option<JsonHead>,
}

/// A testbed as shown under its project.
#[derive(Clone, Copy, Debug, PartialEq, Eq, Structural)]
pub struct JsonTestbed {
    pub uuid: TestbedUuid,
    pub project: ProjectUuid,
}

/// A measure as shown under its project.
#[derive(Clone, Debug)]
pub struct JsonMeasure {
    pub uuid: MeasureUuid,
    pub project: ProjectUuid,
    pub name: String,
}

impl StoreState {
    /// The branch of the reference `reference_id` as shown under `project`
    /// at the version `version_id`, or the first record that is missing.
    pub open spec fn branch_json_for_report(
        self,
        project: QueryProject,
        reference_id: ReferenceId,
        version_id: VersionId,
    ) -> Result<JsonBranch, ApiError> {
        match self.reference(reference_id) {
            None => Err(ApiError::NotFound(BencherResource::Reference)),
            Some(reference) => match self.branch(reference.branch_id) {
                None => Err(ApiError::NotFound(BencherResource::Branch)),
                Some(branch) => match self.version(version_id) {
                    None => Err(ApiError::NotFound(BencherResource::Version)),
                    Some(version) => Ok(
                        JsonBranch {
                            uuid: branch.uuid,
                            project: project.uuid,
                            head: Some(
                                JsonHead { reference: reference_id, version: version.number },
                            ),
                        },
                    ),
                },
            },
        }
    }

    /// The store after the measure called `name` was looked up for
    /// `project_id`, and written under `uuid` where it did not exist, with
    /// the identifier of the measure or the failure to write it.
    pub open spec fn get_or_create_measure(
        self,
        project_id: ProjectId,
        name: String,
        uuid: MeasureUuid,
    ) -> (StoreState, Result<MeasureId, ApiError>) {
        match self.measure_called(project_id, name@) {
            Some(i) => (self, Ok(self.measures[i].id)),
            None => {
                let written = self.insert_measure(uuid, project_id, name);
                if written.1 is Err {
                    (self, Err(ApiError::Conflict(BencherResource::Measure)))
                } else {
                    (written.0, Ok(MeasureId(written.0.measures.len() as i32)))
                }
            },
        }
    }
}

impl QueryProject {
    /// The stored project `id`.
    pub fn get(conn: &Store, id: ProjectId) -> (r: Result<QueryProject, ApiError>)
        ensures
            match conn@.project(id) {
                Some(row) => r == Ok::<QueryProject, ApiError>(row),
                None => r == Err::<QueryProject, ApiError>(
                    ApiError::NotFound(BencherResource::Project),
                ),
            },
    {
        match row_index(id.0, conn.projects().len()) {
            Some(i) => Ok(conn.projects()[i]),
            None => Err(ApiError::NotFound(BencherResource::Project)),
        }
    }
}

impl QueryReference {
    /// The stored reference `id`.
    pub fn get(conn: &Store, id: ReferenceId) -> (r: Result<QueryReference, ApiError>)
        ensures
            match conn@.reference(id) {
                Some(row) => r == Ok::<QueryReference, ApiError>(row),
                None => r == Err::<QueryReference, ApiError>(
                    ApiError::NotFound(BencherResource::Reference),
                ),
            },
    {
        match row_index(id.0, conn.references().len()) {
            Some(i) => Ok(conn.references()[i]),
            None => Err(ApiError::NotFound(BencherResource::Reference)),
        }
    }
}

impl QueryVersion {
    /// The stored version `id`.
    pub fn get(conn: &Store, id: VersionId) -> (r: Result<QueryVersion, ApiError>)
        ensures
            match conn@.version(id) {
                Some(row) => r == Ok::<QueryVersion, ApiError>(row),
                None => r == Err::<QueryVersion, ApiError>(
                    ApiError::NotFound(BencherResource::Version),
                ),
            },
    {
        match row_index(id.0, conn.versions().len()) {
            Some(i) => Ok(conn.versions()[i]),
            None => Err(ApiError::NotFound(BencherResource::Version)),
        }
    }
}

impl QueryBranch {
    /// The stored branch `id`.
    pub fn get(conn: &Store, id: BranchId) -> (r: Result<QueryBranch, ApiError>)
        ensures
            match conn@.branch(id) {
                Some(row) => r == Ok::<QueryBranch, ApiError>(row),
                None => r == Err::<QueryBranch, ApiError>(
                    ApiError::NotFound(BencherResource::Branch),
                ),
            },
    {
        match row_index(id.0, conn.branches().len()) {
            Some(i) => Ok(conn.branches()[i]),
            None => Err(ApiError::NotFound(BencherResource::Branch)),
        }
    }

    /// The branch that the reference `reference_id` belongs to, as shown
    /// under `project` with the head that a report was taken at.
    pub fn get_json_for_report(
        conn: &Store,
        project: &QueryProject,
        reference_id: ReferenceId,
        version_id: VersionId,
    ) -> (r: Result<JsonBranch, ApiError>)
        ensures
            r == conn@.branch_json_for_report(*project, reference_id, version_id),
    {
        let reference = match QueryReference::get(conn, reference_id) {
            Ok(reference) => reference,
            Err(e) => { return Err(e); },
        };
        let branch = match QueryBranch::get(conn, reference.branch_id) {
            Ok(branch) => branch,
            Err(e) => { return Err(e); },
        };
        let version = match QueryVersion::get(conn, version_id) {
            Ok(version) => version,
            Err(e) => { return Err(e); },
        };
        Ok(
            JsonBranch {
                uuid: branch.uuid,
                project: project.uuid,
                head: Some(JsonHead { reference: reference_id, version: version.number }),
            },
        )
    }

    /// This branch as shown under `project`.
    pub fn into_json_for_project(&self, project: &QueryProject) -> (json: JsonBranch)
        ensures
            json == (JsonBranch { uuid: self.uuid, project: project.uuid, head: None }),
    {
        JsonBranch { uuid: self.uuid, project: project.uuid, head: None }
    }
}

impl QueryTestbed {
    /// The stored testbed `id`.
    pub fn get(conn: &Store, id: TestbedId) -> (r: Result<QueryTestbed, ApiError>)
        ensures
            match conn@.testbed(id) {
                Some(row) => r == Ok::<QueryTestbed, ApiError>(row),
                None => r == Err::<QueryTestbed, ApiError>(
                    ApiError::NotFound(BencherResource::Testbed),
                ),
            },
    {
        match row_index(id.0, conn.testbeds().len()) {
            Some(i) => Ok(conn.testbeds()[i]),
            None => Err(ApiError::NotFound(BencherResource::Testbed)),
        }
    }

    /// This testbed as shown under `project`.
    pub fn into_json_for_project(&self, project: &QueryProject) -> (json: JsonTestbed)
        ensures
            json == (JsonTestbed { uuid: self.uuid, project: project.uuid }),
    {
        JsonTestbed { uuid: self.uuid, project: project.uuid }
    }
}

impl QueryMeasure {
    /// The stored measure `id`.
    pub fn get(conn: &Store, id: MeasureId) -> (r: Result<QueryMeasure, ApiError>)
        ensures
            match conn@.measure(id) {
                Some(row) => r == Ok::<QueryMeasure, ApiError>(row),
                None => r == Err::<QueryMeasure, ApiError>(
                    ApiError::NotFound(BencherResource::Measure),
                ),
            },
    {
        match row_index(id.0, conn.measures().len()) {
            Some(i) => {
                let row = &conn.measures()[i];
                Ok(
                    QueryMeasure {
                        id: row.id,
                        uuid: row.uuid,
                        project_id: row.project_id,
                        name: row.name.clone(),
                    },
                )
            },
            None => Err(ApiError::NotFound(BencherResource::Measure)),
        }
    }

    /// The identifier of the measure of `project_id` that is called
    /// `name`; where there is none yet, it is written under `uuid` first.
    pub fn get_or_create(conn: &mut Store, project_id: ProjectId, name: &String, uuid: MeasureUuid) -> (r:
        Result<MeasureId, ApiError>)
        requires
            old(conn)@.wf(),
        ensures
            final(conn)@.wf(),
            (final(conn)@, r) == old(conn)@.get_or_create_measure(project_id, *name, uuid),
    {
        match conn.find_measure(project_id, name) {
            Some(i) => {
                proof {
                    lemma_measure_called(conn@, i as int, project_id, name@);
                }
                Ok(conn.measures()[i].id)
            },
            None => {
                proof {
                    lemma_measure_not_called(conn@, project_id, name@);
                }
                match conn.insert_measure(uuid, project_id, name) {
                    Ok(()) => {
                        let n = conn.measures().len();
                        Ok(conn.measures()[n - 1].id)
                    },
                    Err(_) => Err(ApiError::Conflict(BencherResource::Measure)),
                }
            },
        }
    }

    /// This measure as shown under `project`.
    pub fn into_json_for_project(&self, project: &QueryProject) -> (json: JsonMeasure)
        ensures
            json == (JsonMeasure { uuid: self.uuid, project: project.uuid, name: self.name }),
    {
        JsonMeasure { uuid: self.uuid, project: project.uuid, name: self.name.clone() }
    }
}

} // verus!
