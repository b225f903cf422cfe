//! The store: the tables of one deployment, held in memory for the length
//! of one logical operation. Rows are only ever added or changed in place,
//! and every write is checked against the constraints of the tables.

use vstd::prelude::*;
use crate::error::{ApiError, BencherResource};
use crate::ids::{
    row_id, row_index, BranchId, BranchUuid, MeasureId, MeasureUuid, ModelId, ModelUuid,
    ProjectId, ProjectUuid, ReferenceId, TestbedId, TestbedUuid, ThresholdId, ThresholdUuid,
    VersionId, MAX_ROWS,
};
use crate::model::{InsertModel, QueryModel, UpdateModel};
use crate::project::{
    QueryBranch, QueryMeasure, QueryProject, QueryReference, QueryTestbed, QueryVersion,
};
use crate::state::{
    lemma_insert_measure_wf, lemma_insert_model_wf, lemma_insert_threshold_wf,
    lemma_set_threshold_model_wf, lemma_update_model_wf, lemma_update_threshold_wf, StoreState,
};
use crate::threshold::{InsertThreshold, QueryThreshold, UpdateThreshold};

verus! {

/// The tables of one deployment.
pub struct Store {
    projects: Vec<QueryProject>,
    branches: Vec<QueryBranch>,
    references: Vec<QueryReference>,
    versions: Vec<QueryVersion>,
    testbeds: Vec<QueryTestbed>,
    measures: Vec<QueryMeasure>,
    thresholds: Vec<QueryThreshold>,
    models: Vec<QueryModel>,
}

impl View for Store {
    type V = StoreState;

    closed spec fn view(&self) -> StoreState {
        StoreState {
            projects: self.projects@,
            branches: self.branches@,
            references: self.references@,
            versions: self.versions@,
            testbeds: self.testbeds@,
            measures: self.measures@,
            thresholds: self.thresholds@,
            models: self.models@,
        }
    }
}

impl Store {
    /// A store with no rows.
    pub fn new() -> (store: Store)
        ensures
            store@ == StoreState::empty(),
            store@.wf(),
    {
        Store {
            projects: Vec::new(),
            branches: Vec::new(),
            references: Vec::new(),
            versions: Vec::new(),
            testbeds: Vec::new(),
            measures: Vec::new(),
            thresholds: Vec::new(),
            models: Vec::new(),
        }
    }

    /// The table of projects.
    pub fn projects(&self) -> (rows: &Vec<QueryProject>)
        ensures
            rows@ == self@.projects,
    {
        &self.projects
    }

    /// The table of branches.
    pub fn branches(&self) -> (rows: &Vec<QueryBranch>)
        ensures
            rows@ == self@.branches,
    {
        &self.branches
    }

    /// The table of references.
    pub fn references(&self) -> (rows: &Vec<QueryReference>)
        ensures
            rows@ == self@.references,
    {
        &self.references
    }

    /// The table of versions.
    pub fn versions(&self) -> (rows: &Vec<QueryVersion>)
        ensures
            rows@ == self@.versions,
    {
        &self.versions
    }

    /// The table of testbeds.
    pub fn testbeds(&self) -> (rows: &Vec<QueryTestbed>)
        ensures
            rows@ == self@.testbeds,
    {
        &self.testbeds
    }

    /// The table of measures.
    pub fn measures(&self) -> (rows: &Vec<QueryMeasure>)
        ensures
            rows@ == self@.measures,
    {
        &self.measures
    }

    /// The table of thresholds.
    pub fn thresholds(&self) -> (rows: &Vec<QueryThreshold>)
        ensures
            rows@ == self@.thresholds,
    {
        &self.thresholds
    }

    /// The table of models.
    pub fn models(&self) -> (rows: &Vec<QueryModel>)
        ensures
            rows@ == self@.models,
    {
        &self.models
    }

    /// Writes a project and answers its identifier; fails when the table
    /// is full.
    pub fn insert_project(&mut self, uuid: ProjectUuid) -> (r: Result<ProjectId, ApiError>)
        requires
            old(self)@.wf(),
        ensures
            final(self)@.wf(),
            old(self)@.projects.len() < MAX_ROWS ==> r == Ok::<ProjectId, ApiError>(
                ProjectId((old(self)@.projects.len() + 1) as i32),
            ) && final(self)@ == (StoreState {
                projects: old(self)@.projects.push(
                    QueryProject { id: ProjectId((old(self)@.projects.len() + 1) as i32), uuid },
                ),
                ..old(self)@
            }),
            old(self)@.projects.len() >= MAX_ROWS ==> r == Err::<ProjectId, ApiError>(
                ApiError::Conflict(BencherResource::Project),
            ) && final(self)@ == old(self)@,
    {
        if self.projects.len() >= MAX_ROWS {
            return Err(ApiError::Conflict(BencherResource::Project));
        }
        let id = ProjectId(row_id(self.projects.len()));
        self.projects.push(QueryProject { id, uuid });
        Ok(id)
    }

    /// Writes a branch of a project and answers its identifier; fails when
    /// the table is full.
    pub fn insert_branch(&mut self, uuid: BranchUuid, project_id: ProjectId) -> (r: Result<
        BranchId,
        ApiError,
    >)
        requires
            old(self)@.wf(),
        ensures
            final(self)@.wf(),
            old(self)@.branches.len() < MAX_ROWS ==> r == Ok::<BranchId, ApiError>(
                BranchId((old(self)@.branches.len() + 1) as i32),
            ) && final(self)@ == (StoreState {
                branches: old(self)@.branches.push(
                    QueryBranch {
                        id: BranchId((old(self)@.branches.len() + 1) as i32),
                        uuid,
                        project_id,
                    },
                ),
                ..old(self)@
            }),
            old(self)@.branches.len() >= MAX_ROWS ==> r == Err::<BranchId, ApiError>(
                ApiError::Conflict(BencherResource::Branch),
            ) && final(self)@ == old(self)@,
    {
        if self.branches.len() >= MAX_ROWS {
            return Err(ApiError::Conflict(BencherResource::Branch));
        }
        let id = BranchId(row_id(self.branches.len()));
        self.branches.push(QueryBranch { id, uuid, project_id });
        Ok(id)
    }

    /// Writes a reference of a branch and answers its identifier; fails
    /// when the table is full.
    pub fn insert_reference(&mut self, branch_id: BranchId) -> (r: Result<ReferenceId, ApiError>)
        requires
            old(self)@.wf(),
        ensures
            final(self)@.wf(),
            old(self)@.references.len() < MAX_ROWS ==> r == Ok::<ReferenceId, ApiError>(
                ReferenceId((old(self)@.references.len() + 1) as i32),
            ) && final(self)@ == (StoreState {
                references: old(self)@.references.push(
                    QueryReference {
                        id: ReferenceId((old(self)@.references.len() + 1) as i32),
                        branch_id,
                    },
                ),
                ..old(self)@
            }),
            old(self)@.references.len() >= MAX_ROWS ==> r == Err::<ReferenceId, ApiError>(
                ApiError::Conflict(BencherResource::Reference),
            ) && final(self)@ == old(self)@,
    {
        if self.references.len() >= MAX_ROWS {
            return Err(ApiError::Conflict(BencherResource::Reference));
        }
        let id = ReferenceId(row_id(self.references.len()));
        self.references.push(QueryReference { id, branch_id });
        Ok(id)
    }

    /// Writes a version and answers its identifier; fails when the table
    /// is full.
    pub fn insert_version(&mut self, number: u32) -> (r: Result<VersionId, ApiError>)
        requires
            old(self)@.wf(),
        ensures
            final(self)@.wf(),
            old(self)@.versions.len() < MAX_ROWS ==> r == Ok::<VersionId, ApiError>(
                VersionId((old(self)@.versions.len() + 1) as i32),
            ) && final(self)@ == (StoreState {
                versions: old(self)@.versions.push(
                    QueryVersion { id: VersionId((old(self)@.versions.len() + 1) as i32), number },
                ),
                ..old(self)@
            }),
            old(self)@.versions.len() >= MAX_ROWS ==> r == Err::<VersionId, ApiError>(
                ApiError::Conflict(BencherResource::Version),
            ) && final(self)@ == old(self)@,
    {
        if self.versions.len() >= MAX_ROWS {
            return Err(ApiError::Conflict(BencherResource::Version));
        }
        let id = VersionId(row_id(self.versions.len()));
        self.versions.push(QueryVersion { id, number });
        Ok(id)
    }

    /// Writes a testbed of a project and answers its identifier; fails
    /// when the table is full.
    pub fn insert_testbed(&mut self, uuid: TestbedUuid, project_id: ProjectId) -> (r: Result<
        TestbedId,
        ApiError,
    >)
        requires
            old(self)@.wf(),
        ensures
            final(self)@.wf(),
            old(self)@.testbeds.len() < MAX_ROWS ==> r == Ok::<TestbedId, ApiError>(
                TestbedId((old(self)@.testbeds.len() + 1) as i32),
            ) && final(self)@ == (StoreState {
                testbeds: old(self)@.testbeds.push(
                    QueryTestbed {
                        id: TestbedId((old(self)@.testbeds.len() + 1) as i32),
                        uuid,
                        project_id,
                    },
                ),
                ..old(self)@
            }),
            old(self)@.testbeds.len() >= MAX_ROWS ==> r == Err::<TestbedId, ApiError>(
                ApiError::Conflict(BencherResource::Testbed),
            ) && final(self)@ == old(self)@,
    {
        if self.testbeds.len() >= MAX_ROWS {
            return Err(ApiError::Conflict(BencherResource::Testbed));
        }
        let id = TestbedId(row_id(self.testbeds.len()));
        self.testbeds.push(QueryTestbed { id, uuid, project_id });
        Ok(id)
    }

    /// The position of the first measure of `project_id` called `name`.
    pub fn find_measure(&self, project_id: ProjectId, name: &String) -> (r: Option<usize>)
        ensures
            match r {
                Some(i) => self@.first_measure_at(i as int, project_id, name@),
                None => self@.measure_name_free(project_id, name@),
            },
    {
        let mut i: usize = 0;
        while i < self.measures.len()
            invariant
                i <= self.measures.len(),
                forall|k: int|
                    0 <= k < i ==> !((#[trigger] self.measures@[k]).project_id == project_id
                        && self.measures@[k].name@ == name@),
            decreases self.measures.len() - i,
        {
            if self.measures[i].project_id == project_id && self.measures[i].name == *name {
                return Some(i);
            }
            i += 1;
        }
        None
    }

    /// The position of the first measure with the public identifier `uuid`.
    pub fn find_measure_uuid(&self, uuid: MeasureUuid) -> (r: Option<usize>)
        ensures
            match r {
                Some(i) => i < self@.measures.len() && self@.measures[i as int].uuid == uuid,
                None => self@.measure_uuid_free(uuid),
            },
    {
        let mut i: usize = 0;
        while i < self.measures.len()
            invariant
                i <= self.measures.len(),
                forall|k: int| 0 <= k < i ==> (#[trigger] self.measures@[k]).uuid != uuid,
            decreases self.measures.len() - i,
        {
            if self.measures[i].uuid == uuid {
                return Some(i);
            }
            i += 1;
        }
        None
    }

    /// Writes a measure; fails when the table is full, when the public
    /// identifier is taken or when the project has a measure of this name.
    pub fn insert_measure(&mut self, uuid: MeasureUuid, project_id: ProjectId, name: &String) -> (r:
        Result<(), ApiError>)
        requires
            old(self)@.wf(),
        ensures
            final(self)@.wf(),
            (final(self)@, r) == old(self)@.insert_measure(uuid, project_id, *name),
    {
        proof {
            lemma_insert_measure_wf(self@, uuid, project_id, *name);
        }
        if self.measures.len() >= MAX_ROWS {
            return Err(ApiError::Conflict(BencherResource::Measure));
        }
        if self.find_measure_uuid(uuid).is_some() {
            return Err(ApiError::Conflict(BencherResource::Measure));
        }
        if self.find_measure(project_id, name).is_some() {
            return Err(ApiError::Conflict(BencherResource::Measure));
        }
        let id = MeasureId(row_id(self.measures.len()));
        self.measures.push(QueryMeasure { id, uuid, project_id, name: name.clone() });
        assert(self@ == old(self)@.insert_measure(uuid, project_id, *name).0);
        Ok(())
    }

    /// The position of the first threshold with the public identifier
    /// `uuid`.
    pub fn find_threshold_uuid(&self, uuid: ThresholdUuid) -> (r: Option<usize>)
        ensures
            match r {
                Some(i) => self@.first_threshold_at(i as int, uuid),
                None => self@.threshold_uuid_free(uuid),
            },
    {
        let mut i: usize = 0;
        while i < self.thresholds.len()
            invariant
                i <= self.thresholds.len(),
                forall|k: int| 0 <= k < i ==> (#[trigger] self.thresholds@[k]).uuid != uuid,
            decreases self.thresholds.len() - i,
        {
            if self.thresholds[i].uuid == uuid {
                return Some(i);
            }
            i += 1;
        }
        None
    }

    /// The position of the threshold that watches the given target.
    pub fn find_target(
        &self,
        project_id: ProjectId,
        branch_id: BranchId,
        testbed_id: TestbedId,
        measure_id: MeasureId,
    ) -> (r: Option<usize>)
        ensures
            match r {
                Some(i) => i < self@.thresholds.len() && self@.thresholds[i as int].watches(
                    project_id,
                    branch_id,
                    testbed_id,
                    measure_id,
                ),
                None => self@.target_free(project_id, branch_id, testbed_id, measure_id),
            },
    {
        let mut i: usize = 0;
        while i < self.thresholds.len()
            invariant
                i <= self.thresholds.len(),
                forall|k: int|
                    0 <= k < i ==> !(#[trigger] self.thresholds@[k]).watches(
                        project_id,
                        branch_id,
                        testbed_id,
                        measure_id,
                    ),
            decreases self.thresholds.len() - i,
        {
            let row = &self.thresholds[i];
            if row.project_id == project_id && row.branch_id == branch_id && row.testbed_id
                == testbed_id && row.measure_id == measure_id {
                return Some(i);
            }
            i += 1;
        }
        None
    }

    /// Writes a threshold; fails when a constraint of the table would be
    /// broken.
    pub fn insert_threshold(&mut self, row: &InsertThreshold) -> (r: Result<(), ApiError>)
        requires
            old(self)@.wf(),
        ensures
            final(self)@.wf(),
            (final(self)@, r) == old(self)@.insert_threshold(*row),
    {
        proof {
            lemma_insert_threshold_wf(self@, *row);
        }
        if self.thresholds.len() >= MAX_ROWS || row.model_id.is_some() {
            return Err(ApiError::Conflict(BencherResource::Threshold));
        }
        if self.find_threshold_uuid(row.uuid).is_some() {
            return Err(ApiError::Conflict(BencherResource::Threshold));
        }
        if self.find_target(row.project_id, row.branch_id, row.testbed_id, row.measure_id).is_some() {
            return Err(ApiError::Conflict(BencherResource::Threshold));
        }
        let id = ThresholdId(row_id(self.thresholds.len()));
        self.thresholds.push(
            QueryThreshold {
                id,
                uuid: row.uuid,
                project_id: row.project_id,
                branch_id: row.branch_id,
                testbed_id: row.testbed_id,
                measure_id: row.measure_id,
                model_id: row.model_id,
                created: row.created,
                modified: row.modified,
            },
        );
        assert(self@ == old(self)@.insert_threshold(*row).0);
        Ok(())
    }

    /// Whether `model_id` names a stored version of the threshold
    /// `threshold_id`.
    pub fn model_of(&self, model_id: ModelId, threshold_id: ThresholdId) -> (b: bool)
        ensures
            b == self@.model_of(model_id, threshold_id),
    {
        match row_index(model_id.0, self.models.len()) {
            Some(i) => self.models[i].threshold_id == threshold_id,
            None => false,
        }
    }

    /// Applies a change to the threshold `id`. A change to a threshold that
    /// is not stored changes nothing; one that points the threshold at a
    /// model that is not its own fails.
    pub fn update_threshold(&mut self, id: ThresholdId, changes: &UpdateThreshold) -> (r: Result<
        (),
        ApiError,
    >)
        requires
            old(self)@.wf(),
        ensures
            final(self)@.wf(),
            (final(self)@, r) == old(self)@.update_threshold(id, *changes),
    {
        proof {
            lemma_update_threshold_wf(self@, id, *changes);
        }
        match row_index(id.0, self.thresholds.len()) {
            None => Ok(()),
            Some(i) => {
                let row = self.thresholds[i];
                let model_id = match changes.model_id {
                    Some(Some(m)) => {
                        if !self.model_of(m, id) {
                            return Err(ApiError::Conflict(BencherResource::Threshold));
                        }
                        Some(m)
                    },
                    Some(None) => None,
                    None => row.model_id,
                };
                self.thresholds.set(
                    i,
                    QueryThreshold {
                        id: row.id,
                        uuid: row.uuid,
                        project_id: row.project_id,
                        branch_id: row.branch_id,
                        testbed_id: row.testbed_id,
                        measure_id: row.measure_id,
                        model_id,
                        created: row.created,
                        modified: changes.modified,
                    },
                );
                assert(self@ == old(self)@.update_threshold(id, *changes).0);
                Ok(())
            },
        }
    }

    /// Points the threshold `id` at the model `model_id` and leaves its
    /// modification stamp alone. For a threshold that is not stored nothing
    /// changes; a model that is not a version of the threshold fails.
    pub fn set_threshold_model(&mut self, id: ThresholdId, model_id: ModelId) -> (r: Result<
        (),
        ApiError,
    >)
        requires
            old(self)@.wf(),
        ensures
            final(self)@.wf(),
            (final(self)@, r) == old(self)@.set_threshold_model(id, model_id),
    {
        proof {
            lemma_set_threshold_model_wf(self@, id, model_id);
        }
        match row_index(id.0, self.thresholds.len()) {
            None => Ok(()),
            Some(i) => {
                if !self.model_of(model_id, id) {
                    return Err(ApiError::Conflict(BencherResource::Threshold));
                }
                let row = self.thresholds[i];
                self.thresholds.set(
                    i,
                    QueryThreshold {
                        id: row.id,
                        uuid: row.uuid,
                        project_id: row.project_id,
                        branch_id: row.branch_id,
                        testbed_id: row.testbed_id,
                        measure_id: row.measure_id,
                        model_id: Some(model_id),
                        created: row.created,
                        modified: row.modified,
                    },
                );
                assert(self@ == old(self)@.set_threshold_model(id, model_id).0);
                Ok(())
            },
        }
    }

    /// The position of the first model with the public identifier `uuid`.
    pub fn find_model_uuid(&self, uuid: ModelUuid) -> (r: Option<usize>)
        ensures
            match r {
                Some(i) => self@.first_model_at(i as int, uuid),
                None => self@.model_uuid_free(uuid),
            },
    {
        let mut i: usize = 0;
        while i < self.models.len()
            invariant
                i <= self.models.len(),
                forall|k: int| 0 <= k < i ==> (#[trigger] self.models@[k]).uuid != uuid,
            decreases self.models.len() - i,
        {
            if self.models[i].uuid == uuid {
                return Some(i);
            }
            i += 1;
        }
        None
    }

    /// Writes a model; fails when a constraint of the table would be broken.
    pub fn insert_model(&mut self, row: &InsertModel) -> (r: Result<(), ApiError>)
        requires
            old(self)@.wf(),
        ensures
            final(self)@.wf(),
            (final(self)@, r) == old(self)@.insert_model(*row),
    {
        proof {
            lemma_insert_model_wf(self@, *row);
        }
        if self.models.len() >= MAX_ROWS {
            return Err(ApiError::Conflict(BencherResource::Model));
        }
        if self.find_model_uuid(row.uuid).is_some() {
            return Err(ApiError::Conflict(BencherResource::Model));
        }
        if row_index(row.threshold_id.0, self.thresholds.len()).is_none() {
            return Err(ApiError::Conflict(BencherResource::Model));
        }
        let id = ModelId(row_id(self.models.len()));
        self.models.push(
            QueryModel {
                id,
                uuid: row.uuid,
                threshold_id: row.threshold_id,
                model: row.model,
                created: row.created,
                replaced: row.replaced,
            },
        );
        assert(self@ == old(self)@.insert_model(*row).0);
        Ok(())
    }

    /// Stamps the model `id` as replaced. For a model that is not stored
    /// nothing changes.
    pub fn update_model(&mut self, id: ModelId, changes: &UpdateModel)
        requires
            old(self)@.wf(),
        ensures
            final(self)@.wf(),
            final(self)@ == old(self)@.update_model(id, *changes),
    {
        proof {
            lemma_update_model_wf(self@, id, *changes);
        }
        match row_index(id.0, self.models.len()) {
            None => {},
            Some(i) => {
                let row = self.models[i];
                self.models.set(
                    i,
                    QueryModel {
                        id: row.id,
                        uuid: row.uuid,
                        threshold_id: row.threshold_id,
                        model: row.model,
                        created: row.created,
                        replaced: Some(changes.replaced),
                    },
                );
                assert(self@ == old(self)@.update_model(id, *changes));
            },
        }
    }
}

} // verus!
