//! What a store holds, as mathematics: the tables as sequences of rows, the
//! constraints that every write keeps, and what each write does.

use vstd::prelude::*;
use crate::error::{ApiError, BencherResource};
use crate::ids::{
    BranchId, DateTime, MeasureId, MeasureUuid, ModelId, ModelUuid, ProjectId, ReferenceId,
    TestbedId, ThresholdId, ThresholdUuid, VersionId, MAX_ROWS,
};
use crate::model::{InsertModel, Model, QueryModel, UpdateModel};
use crate::project::{
    QueryBranch, QueryMeasure, QueryProject, QueryReference, QueryTestbed, QueryVersion,
};
use crate::threshold::{InsertThreshold, QueryThreshold, UpdateThreshold};

verus! {

/// The contents of a store: each table as the sequence of its rows, in the
/// order in which they were written.
pub struct StoreState {
    pub projects: Seq<QueryProject>,
    pub branches: Seq<QueryBranch>,
    pub references: Seq<QueryReference>,
    pub versions: Seq<QueryVersion>,
    pub testbeds: Seq<QueryTestbed>,
    pub measures: Seq<QueryMeasure>,
    pub thresholds: Seq<QueryThreshold>,
    pub models: Seq<QueryModel>,
}

impl StoreState {
    /// The store with no rows.
    pub open spec fn empty() -> StoreState {
        StoreState {
            projects: Seq::empty(),
            branches: Seq::empty(),
            references: Seq::empty(),
            versions: Seq::empty(),
            testbeds: Seq::empty(),
            measures: Seq::empty(),
            thresholds: Seq::empty(),
            models: Seq::empty(),
        }
    }

    /// Every row carries the identifier of its position, counted from one,
    /// and no table has outgrown its identifiers.
    pub open spec fn numbered(self) -> bool {
        &&& self.projects.len() <= MAX_ROWS
        &&& self.branches.len() <= MAX_ROWS
        &&& self.references.len() <= MAX_ROWS
        &&& self.versions.len() <= MAX_ROWS
        &&& self.testbeds.len() <= MAX_ROWS
        &&& self.measures.len() <= MAX_ROWS
        &&& self.thresholds.len() <= MAX_ROWS
        &&& self.models.len() <= MAX_ROWS
        &&& forall|i: int| 0 <= i < self.projects.len() ==> (#[trigger] self.projects[i]).id.0 == i + 1
        &&& forall|i: int| 0 <= i < self.branches.len() ==> (#[trigger] self.branches[i]).id.0 == i + 1
        &&& forall|i: int|
            0 <= i < self.references.len() ==> (#[trigger] self.references[i]).id.0 == i + 1
        &&& forall|i: int| 0 <= i < self.versions.len() ==> (#[trigger] self.versions[i]).id.0 == i + 1
        &&& forall|i: int| 0 <= i < self.testbeds.len() ==> (#[trigger] self.testbeds[i]).id.0 == i + 1
        &&& forall|i: int| 0 <= i < self.measures.len() ==> (#[trigger] self.measures[i]).id.0 == i + 1
        &&& forall|i: int|
            0 <= i < self.thresholds.len() ==> (#[trigger] self.thresholds[i]).id.0 == i + 1
        &&& forall|i: int| 0 <= i < self.models.len() ==> (#[trigger] self.models[i]).id.0 == i + 1
    }

    /// No stored measure has the public identifier `uuid`.
    pub open spec fn measure_uuid_free(self, uuid: MeasureUuid) -> bool {
        forall|i: int| 0 <= i < self.measures.len() ==> (#[trigger] self.measures[i]).uuid != uuid
    }

    /// The project `project_id` has no measure called `name`.
    pub open spec fn measure_name_free(self, project_id: ProjectId, name: Seq<char>) -> bool {
        forall|i: int|
            0 <= i < self.measures.len() ==> !((#[trigger] self.measures[i]).project_id
                == project_id && self.measures[i].name@ == name)
    }

    /// No stored threshold has the public identifier `uuid`.
    pub open spec fn threshold_uuid_free(self, uuid: ThresholdUuid) -> bool {
        forall|i: int|
            0 <= i < self.thresholds.len() ==> (#[trigger] self.thresholds[i]).uuid != uuid
    }

    /// No stored threshold watches this measure on this branch and testbed
    /// of this project.
    pub open spec fn target_free(
        self,
        project_id: ProjectId,
        branch_id: BranchId,
        testbed_id: TestbedId,
        measure_id: MeasureId,
    ) -> bool {
        forall|i: int|
            0 <= i < self.thresholds.len() ==> !(#[trigger] self.thresholds[i]).watches(
                project_id,
                branch_id,
                testbed_id,
                measure_id,
            )
    }

    /// No stored model has the public identifier `uuid`.
    pub open spec fn model_uuid_free(self, uuid: ModelUuid) -> bool {
        forall|i: int| 0 <= i < self.models.len() ==> (#[trigger] self.models[i]).uuid != uuid
    }

    /// The stored project `id`, if there is one.
    pub open spec fn project(self, id: ProjectId) -> Option<QueryProject> {
        if 1 <= id.0 <= self.projects.len() {
            Some(self.projects[id.0 - 1])
        } else {
            None
        }
    }

    /// The stored branch `id`, if there is one.
    pub open spec fn branch(self, id: BranchId) -> Option<QueryBranch> {
        if 1 <= id.0 <= self.branches.len() {
            Some(self.branches[id.0 - 1])
        } else {
            None
        }
    }

    /// The stored reference `id`, if there is one.
    pub open spec fn reference(self, id: ReferenceId) -> Option<QueryReference> {
        if 1 <= id.0 <= self.references.len() {
            Some(self.references[id.0 - 1])
        } else {
            None
        }
    }

    /// The stored version `id`, if there is one.
    pub open spec fn version(self, id: VersionId) -> Option<QueryVersion> {
        if 1 <= id.0 <= self.versions.len() {
            Some(self.versions[id.0 - 1])
        } else {
            None
        }
    }

    /// The stored testbed `id`, if there is one.
    pub open spec fn testbed(self, id: TestbedId) -> Option<QueryTestbed> {
        if 1 <= id.0 <= self.testbeds.len() {
            Some(self.testbeds[id.0 - 1])
        } else {
            None
        }
    }

    /// The stored measure `id`, if there is one.
    pub open spec fn measure(self, id: MeasureId) -> Option<QueryMeasure> {
        if 1 <= id.0 <= self.measures.len() {
            Some(self.measures[id.0 - 1])
        } else {
            None
        }
    }

    /// `id` names a stored threshold.
    pub open spec fn has_threshold(self, id: ThresholdId) -> bool {
        1 <= id.0 <= self.thresholds.len()
    }

    /// `id` names a stored model.
    pub open spec fn has_model(self, id: ModelId) -> bool {
        1 <= id.0 <= self.models.len()
    }

    /// The stored threshold `id`.
    pub open spec fn threshold(self, id: ThresholdId) -> QueryThreshold
        recommends
            self.has_threshold(id),
    {
        self.thresholds[id.0 - 1]
    }

    /// The stored model `id`.
    pub open spec fn model(self, id: ModelId) -> QueryModel
        recommends
            self.has_model(id),
    {
        self.models[id.0 - 1]
    }

    /// `model_id` names a stored model that is a version of the threshold
    /// `threshold_id`.
    pub open spec fn model_of(self, model_id: ModelId, threshold_id: ThresholdId) -> bool {
        self.has_model(model_id) && self.model(model_id).threshold_id == threshold_id
    }

    /// The constraints that the tables keep at all times: rows are
    /// numbered, public identifiers and measure names are unique, one
    /// threshold watches one target, every model belongs to a stored
    /// threshold, and a threshold points at a model of its own.
    pub open spec fn wf(self) -> bool {
        &&& self.numbered()
        &&& forall|i: int, j: int|
            0 <= i < j < self.measures.len() ==> (#[trigger] self.measures[i]).uuid != (
            #[trigger] self.measures[j]).uuid
        &&& forall|i: int, j: int|
            0 <= i < j < self.measures.len() ==> !((#[trigger] self.measures[i]).project_id == (
            #[trigger] self.measures[j]).project_id && self.measures[i].name@
                == self.measures[j].name@)
        &&& forall|i: int, j: int|
            0 <= i < j < self.thresholds.len() ==> (#[trigger] self.thresholds[i]).uuid != (
            #[trigger] self.thresholds[j]).uuid
        &&& forall|i: int, j: int|
            0 <= i < j < self.thresholds.len() ==> !(#[trigger] self.thresholds[i]).same_target(
                #[trigger] self.thresholds[j],
            )
        &&& forall|i: int, j: int|
            0 <= i < j < self.models.len() ==> (#[trigger] self.models[i]).uuid != (
            #[trigger] self.models[j]).uuid
        &&& forall|j: int|
            0 <= j < self.models.len() ==> self.has_threshold(
                (#[trigger] self.models[j]).threshold_id,
            )
        &&& forall|i: int|
            0 <= i < self.thresholds.len() ==> (match (#[trigger] self.thresholds[i]).model_id {
                Some(m) => self.model_of(m, self.thresholds[i].id),
                None => true,
            })
    }

    /// The history of every threshold is in order: a model carries no
    /// replacement stamp exactly while its threshold points at it.
    pub open spec fn consistent(self) -> bool {
        forall|j: int|
            0 <= j < self.models.len() ==> ((#[trigger] self.models[j]).replaced is None
                <==> self.threshold(self.models[j].threshold_id).model_id == Some(
                self.models[j].id,
            ))
    }

    /// Whether `row` can be written: room is left, its public identifier
    /// and its target are new, and it points at no model (no model can
    /// belong to a threshold that is not stored yet).
    pub open spec fn can_insert_threshold(self, row: InsertThreshold) -> bool {
        &&& self.thresholds.len() < MAX_ROWS
        &&& self.threshold_uuid_free(row.uuid)
        &&& self.target_free(row.project_id, row.branch_id, row.testbed_id, row.measure_id)
        &&& row.model_id is None
    }

    /// The store after an attempt to write the threshold `row`, and what
    /// the attempt answers.
    pub open spec fn insert_threshold(self, row: InsertThreshold) -> (StoreState, Result<
        (),
        ApiError,
    >) {
        if self.can_insert_threshold(row) {
            (
                StoreState {
                    thresholds: self.thresholds.push(
                        QueryThreshold {
                            id: ThresholdId((self.thresholds.len() + 1) as i32),
                            uuid: row.uuid,
                            project_id: row.project_id,
                            branch_id: row.branch_id,
                            testbed_id: row.testbed_id,
                            measure_id: row.measure_id,
                            model_id: row.model_id,
                            created: row.created,
                            modified: row.modified,
                        },
                    ),
                    ..self
                },
                Ok(()),
            )
        } else {
            (self, Err(ApiError::Conflict(BencherResource::Threshold)))
        }
    }

    /// Whether the change can be applied to the threshold `id`: the model
    /// it points the threshold at, if any, is a stored version of that
    /// threshold.
    pub open spec fn can_update_threshold(self, id: ThresholdId, changes: UpdateThreshold) -> bool {
        match changes.model_id {
            Some(Some(m)) => self.model_of(m, id),
            _ => true,
        }
    }

    /// The store after an attempt to change the threshold `id`, and what
    /// the attempt answers. A change to a threshold that is not stored
    /// changes nothing and succeeds.
    pub open spec fn update_threshold(self, id: ThresholdId, changes: UpdateThreshold) -> (
        StoreState,
        Result<(), ApiError>,
    ) {
        if !self.has_threshold(id) {
            (self, Ok(()))
        } else if !self.can_update_threshold(id, changes) {
            (self, Err(ApiError::Conflict(BencherResource::Threshold)))
        } else {
            (
                StoreState {
                    thresholds: self.thresholds.update(
                        id.0 - 1,
                        QueryThreshold {
                            model_id: match changes.model_id {
                                Some(pointer) => pointer,
                                None => self.threshold(id).model_id,
                            },
                            modified: changes.modified,
                            ..self.threshold(id)
                        },
                    ),
                    ..self
                },
                Ok(()),
            )
        }
    }

    /// The store after an attempt to point the threshold `id` at the model
    /// `model_id`, leaving its modification stamp alone, and what the
    /// attempt answers.
    pub open spec fn set_threshold_model(self, id: ThresholdId, model_id: ModelId) -> (
        StoreState,
        Result<(), ApiError>,
    ) {
        if !self.has_threshold(id) {
            (self, Ok(()))
        } else if !self.model_of(model_id, id) {
            (self, Err(ApiError::Conflict(BencherResource::Threshold)))
        } else {
            (
                StoreState {
                    thresholds: self.thresholds.update(
                        id.0 - 1,
                        QueryThreshold { model_id: Some(model_id), ..self.threshold(id) },
                    ),
                    ..self
                },
                Ok(()),
            )
        }
    }

    /// Whether `row` can be written: room is left, its public identifier is
    /// new and its threshold is stored.
    pub open spec fn can_insert_model(self, row: InsertModel) -> bool {
        &&& self.models.len() < MAX_ROWS
        &&& self.model_uuid_free(row.uuid)
        &&& self.has_threshold(row.threshold_id)
    }

    /// The store after an attempt to write the model `row`, and what the
    /// attempt answers.
    pub open spec fn insert_model(self, row: InsertModel) -> (StoreState, Result<(), ApiError>) {
        if self.can_insert_model(row) {
            (
                StoreState {
                    models: self.models.push(
                        QueryModel {
                            id: ModelId((self.models.len() + 1) as i32),
                            uuid: row.uuid,
                            threshold_id: row.threshold_id,
                            model: row.model,
                            created: row.created,
                            replaced: row.replaced,
                        },
                    ),
                    ..self
                },
                Ok(()),
            )
        } else {
            (self, Err(ApiError::Conflict(BencherResource::Model)))
        }
    }

    /// The store after the model `id` was stamped as replaced. A stamp for
    /// a model that is not stored changes nothing.
    pub open spec fn update_model(self, id: ModelId, changes: UpdateModel) -> StoreState {
        if !self.has_model(id) {
            self
        } else {
            StoreState {
                models: self.models.update(
                    id.0 - 1,
                    QueryModel { replaced: Some(changes.replaced), ..self.model(id) },
                ),
                ..self
            }
        }
    }

    /// Whether a measure called `name` can be written for `project_id`
    /// under the public identifier `uuid`.
    pub open spec fn can_insert_measure(
        self,
        uuid: MeasureUuid,
        project_id: ProjectId,
        name: Seq<char>,
    ) -> bool {
        &&& self.measures.len() < MAX_ROWS
        &&& self.measure_uuid_free(uuid)
        &&& self.measure_name_free(project_id, name)
    }

    /// The store after an attempt to write a measure, and what the attempt
    /// answers.
    pub open spec fn insert_measure(self, uuid: MeasureUuid, project_id: ProjectId, name: String) -> (
        StoreState,
        Result<(), ApiError>,
    ) {
        if self.can_insert_measure(uuid, project_id, name@) {
            (
                StoreState {
                    measures: self.measures.push(
                        QueryMeasure {
                            id: MeasureId((self.measures.len() + 1) as i32),
                            uuid,
                            project_id,
                            name,
                        },
                    ),
                    ..self
                },
                Ok(()),
            )
        } else {
            (self, Err(ApiError::Conflict(BencherResource::Measure)))
        }
    }

    /// Whether `i` is the position of the first measure of `project_id`
    /// that is called `name`.
    pub open spec fn first_measure_at(self, i: int, project_id: ProjectId, name: Seq<char>) -> bool {
        &&& 0 <= i < self.measures.len()
        &&& self.measures[i].project_id == project_id
        &&& self.measures[i].name@ == name
        &&& forall|k: int|
            0 <= k < i ==> !((#[trigger] self.measures[k]).project_id == project_id
                && self.measures[k].name@ == name)
    }

    /// Whether `i` is the position of the first threshold with the public
    /// identifier `uuid`.
    pub open spec fn first_threshold_at(self, i: int, uuid: ThresholdUuid) -> bool {
        &&& 0 <= i < self.thresholds.len()
        &&& self.thresholds[i].uuid == uuid
        &&& forall|k: int| 0 <= k < i ==> (#[trigger] self.thresholds[k]).uuid != uuid
    }

    /// Whether `i` is the position of the first model with the public
    /// identifier `uuid`.
    pub open spec fn first_model_at(self, i: int, uuid: ModelUuid) -> bool {
        &&& 0 <= i < self.models.len()
        &&& self.models[i].uuid == uuid
        &&& forall|k: int| 0 <= k < i ==> (#[trigger] self.models[k]).uuid != uuid
    }
}

impl StoreState {
    /// The position of the first measure of `project_id` called `name`.
    pub open spec fn measure_called(self, project_id: ProjectId, name: Seq<char>) -> Option<int> {
        if exists|i: int| self.first_measure_at(i, project_id, name) {
            Some(choose|i: int| self.first_measure_at(i, project_id, name))
        } else {
            None
        }
    }

    /// The position of the first threshold with the public identifier
    /// `uuid`.
    pub open spec fn threshold_with_uuid(self, uuid: ThresholdUuid) -> Option<int> {
        if exists|i: int| self.first_threshold_at(i, uuid) {
            Some(choose|i: int| self.first_threshold_at(i, uuid))
        } else {
            None
        }
    }

    /// The position of the first model with the public identifier `uuid`.
    pub open spec fn model_with_uuid(self, uuid: ModelUuid) -> Option<int> {
        if exists|i: int| self.first_model_at(i, uuid) {
            Some(choose|i: int| self.first_model_at(i, uuid))
        } else {
            None
        }
    }

    /// Whether `row` is a faithful copy of a stored threshold.
    pub open spec fn holds(self, row: QueryThreshold) -> bool {
        self.has_threshold(row.id) && self.threshold(row.id) == row
    }

    /// The store after the model that `row` points at was stamped as
    /// replaced at `date_time`.
    pub open spec fn update_replaced_model(self, row: QueryThreshold, date_time: DateTime) -> StoreState {
        match row.model_id {
            Some(m) => self.update_model(m, UpdateModel { replaced: date_time }),
            None => self,
        }
    }

    /// The store after an attempt to give the threshold `row` the new
    /// model `model`, and what the attempt answers: the model is written
    /// as a new version, the threshold is pointed at it and stamped as
    /// modified at `now`, and the version that `row` pointed at is stamped
    /// as replaced at `now`.
    pub open spec fn update_from_json(
        self,
        row: QueryThreshold,
        model: Model,
        uuid: ModelUuid,
        now: DateTime,
    ) -> (StoreState, Result<(), ApiError>) {
        let written = self.insert_model(
            InsertModel { uuid, threshold_id: row.id, model, created: now, replaced: None },
        );
        if written.1 is Err {
            written
        } else {
            let pointed = written.0.update_threshold(
                row.id,
                UpdateThreshold {
                    model_id: Some(Some(ModelId(written.0.models.len() as i32))),
                    modified: now,
                },
            );
            (pointed.0.update_replaced_model(row, now), Ok(()))
        }
    }

    /// The store after the threshold `row` was switched off at `now`: its
    /// pointer is cleared, it is stamped as modified, and the version that
    /// `row` pointed at is stamped as replaced.
    pub open spec fn remove_current_model(self, row: QueryThreshold, now: DateTime) -> StoreState {
        self.update_threshold(
            row.id,
            UpdateThreshold { model_id: Some(None), modified: now },
        ).0.update_replaced_model(row, now)
    }

    /// The store after an attempt to bring the threshold `row` to the
    /// model `model`, and what the attempt answers: nothing is written
    /// when the model in force is the same configuration.
    pub open spec fn update_model_if_changed(
        self,
        row: QueryThreshold,
        model: Model,
        uuid: ModelUuid,
        now: DateTime,
    ) -> (StoreState, Result<(), ApiError>) {
        match row.model_id {
            Some(m) => if !self.has_model(m) {
                (self, Err(ApiError::NotFound(BencherResource::Model)))
            } else if self.model(m).model == model {
                (self, Ok(()))
            } else {
                self.update_from_json(row, model, uuid, now)
            },
            None => self.update_from_json(row, model, uuid, now),
        }
    }

    /// The store after an attempt to create a threshold for a target with
    /// `model` as its first version, and what the attempt answers. What was
    /// written before a failure stays.
    pub open spec fn create_threshold(
        self,
        uuid: ThresholdUuid,
        project_id: ProjectId,
        branch_id: BranchId,
        testbed_id: TestbedId,
        measure_id: MeasureId,
        model: Model,
        model_uuid: ModelUuid,
        now: DateTime,
    ) -> (StoreState, Result<ThresholdId, ApiError>) {
        let first = self.insert_threshold(
            InsertThreshold {
                uuid,
                project_id,
                branch_id,
                testbed_id,
                measure_id,
                model_id: None,
                created: now,
                modified: now,
            },
        );
        if first.1 is Err {
            (self, Err(ApiError::Conflict(BencherResource::Threshold)))
        } else {
            let threshold_id = ThresholdId(first.0.thresholds.len() as i32);
            let second = first.0.insert_model(
                InsertModel {
                    uuid: model_uuid,
                    threshold_id,
                    model,
                    created: now,
                    replaced: None,
                },
            );
            if second.1 is Err {
                (first.0, Err(ApiError::Conflict(BencherResource::Model)))
            } else {
                (
                    second.0.set_threshold_model(
                        threshold_id,
                        ModelId(second.0.models.len() as i32),
                    ).0,
                    Ok(threshold_id),
                )
            }
        }
    }

    /// Whether this store has the thresholds and measures of `before`,
    /// but for the stored threshold `id`.
    pub open spec fn touches_only(self, before: StoreState, id: ThresholdId) -> bool {
        &&& self.measures == before.measures
        &&& self.thresholds.len() == before.thresholds.len()
        &&& forall|i: int|
            0 <= i < before.thresholds.len() && i != id.0 - 1 ==> (#[trigger] self.thresholds[i])
                == before.thresholds[i]
    }

    /// Whether this store has grown out of `before` by writes alone: no
    /// row has left, no threshold has changed but in its pointer and its
    /// modification stamp, no model has changed but in its replacement
    /// stamp, and the other tables have only grown.
    pub open spec fn extends(self, before: StoreState) -> bool {
        &&& self.projects == before.projects
        &&& self.branches == before.branches
        &&& self.references == before.references
        &&& self.versions == before.versions
        &&& self.testbeds == before.testbeds
        &&& before.measures.len() <= self.measures.len()
        &&& forall|i: int|
            0 <= i < before.measures.len() ==> (#[trigger] self.measures[i]) == before.measures[i]
        &&& before.thresholds.len() <= self.thresholds.len()
        &&& forall|i: int|
            0 <= i < before.thresholds.len() ==> (QueryThreshold {
                model_id: before.thresholds[i].model_id,
                modified: before.thresholds[i].modified,
                ..(#[trigger] self.thresholds[i])
            }) == before.thresholds[i]
        &&& before.models.len() <= self.models.len()
        &&& forall|j: int|
            0 <= j < before.models.len() ==> (QueryModel {
                replaced: before.models[j].replaced,
                ..(#[trigger] self.models[j])
            }) == before.models[j]
    }
}

/// A position found to be the first of its measure is the one that
/// `measure_called` names.
pub proof fn lemma_measure_called(s: StoreState, i: int, project_id: ProjectId, name: Seq<char>)
    requires
        s.first_measure_at(i, project_id, name),
    ensures
        s.measure_called(project_id, name) == Some(i),
{
    let j = choose|j: int| s.first_measure_at(j, project_id, name);
    if j < i {
        assert(!(s.measures[j].project_id == project_id && s.measures[j].name@ == name));
    } else if i < j {
        assert(!(s.measures[i].project_id == project_id && s.measures[i].name@ == name));
    }
}

/// Where no measure has the name, `measure_called` names none.
pub proof fn lemma_measure_not_called(s: StoreState, project_id: ProjectId, name: Seq<char>)
    requires
        s.measure_name_free(project_id, name),
    ensures
        s.measure_called(project_id, name) is None,
{
    if exists|i: int| s.first_measure_at(i, project_id, name) {
        let j = choose|j: int| s.first_measure_at(j, project_id, name);
        assert(!(s.measures[j].project_id == project_id && s.measures[j].name@ == name));
    }
}

/// A position found to be the first of its public identifier is the one
/// that `threshold_with_uuid` names.
pub proof fn lemma_threshold_with_uuid(s: StoreState, i: int, uuid: ThresholdUuid)
    requires
        s.first_threshold_at(i, uuid),
    ensures
        s.threshold_with_uuid(uuid) == Some(i),
{
    let j = choose|j: int| s.first_threshold_at(j, uuid);
    if j < i {
        assert(s.thresholds[j].uuid != uuid);
    } else if i < j {
        assert(s.thresholds[i].uuid != uuid);
    }
}

/// Where no threshold has the public identifier, `threshold_with_uuid`
/// names none.
pub proof fn lemma_threshold_without_uuid(s: StoreState, uuid: ThresholdUuid)
    requires
        s.threshold_uuid_free(uuid),
    ensures
        s.threshold_with_uuid(uuid) is None,
{
    if exists|i: int| s.first_threshold_at(i, uuid) {
        let j = choose|j: int| s.first_threshold_at(j, uuid);
        assert(s.thresholds[j].uuid != uuid);
    }
}

/// A position found to be the first of its public identifier is the one
/// that `model_with_uuid` names.
pub proof fn lemma_model_with_uuid(s: StoreState, i: int, uuid: ModelUuid)
    requires
        s.first_model_at(i, uuid),
    ensures
        s.model_with_uuid(uuid) == Some(i),
{
    let j = choose|j: int| s.first_model_at(j, uuid);
    if j < i {
        assert(s.models[j].uuid != uuid);
    } else if i < j {
        assert(s.models[i].uuid != uuid);
    }
}

/// Where no model has the public identifier, `model_with_uuid` names none.
pub proof fn lemma_model_without_uuid(s: StoreState, uuid: ModelUuid)
    requires
        s.model_uuid_free(uuid),
    ensures
        s.model_with_uuid(uuid) is None,
{
    if exists|i: int| s.first_model_at(i, uuid) {
        let j = choose|j: int| s.first_model_at(j, uuid);
        assert(s.models[j].uuid != uuid);
    }
}

/// A store extends itself, and extending is transitive.
pub proof fn lemma_extends_trans(a: StoreState, b: StoreState, c: StoreState)
    requires
        b.extends(a),
        c.extends(b),
    ensures
        a.extends(a),
        c.extends(a),
{
    assert forall|i: int| 0 <= i < a.measures.len() implies (#[trigger] c.measures[i])
        == a.measures[i] by {
        assert(b.measures[i] == a.measures[i]);
    }
    assert forall|i: int| 0 <= i < a.thresholds.len() implies (QueryThreshold {
        model_id: a.thresholds[i].model_id,
        modified: a.thresholds[i].modified,
        ..(#[trigger] c.thresholds[i])
    }) == a.thresholds[i] by {
        assert((QueryThreshold {
            model_id: a.thresholds[i].model_id,
            modified: a.thresholds[i].modified,
            ..b.thresholds[i]
        }) == a.thresholds[i]);
        assert((QueryThreshold {
            model_id: b.thresholds[i].model_id,
            modified: b.thresholds[i].modified,
            ..c.thresholds[i]
        }) == b.thresholds[i]);
    }
    assert forall|j: int| 0 <= j < a.models.len() implies (QueryModel {
        replaced: a.models[j].replaced,
        ..(#[trigger] c.models[j])
    }) == a.models[j] by {
        assert((QueryModel { replaced: a.models[j].replaced, ..b.models[j] }) == a.models[j]);
        assert((QueryModel { replaced: b.models[j].replaced, ..c.models[j] }) == b.models[j]);
    }
}

/// Giving a threshold a new model keeps the constraints of the tables,
/// only adds to the store, and keeps the history in order when `row` is a
/// faithful copy of the stored threshold.
pub proof fn lemma_update_from_json(
    s: StoreState,
    row: QueryThreshold,
    model: Model,
    uuid: ModelUuid,
    now: DateTime,
)
    requires
        s.wf(),
    ensures
        s.update_from_json(row, model, uuid, now).0.wf(),
        s.update_from_json(row, model, uuid, now).0.extends(s),
        s.consistent() && s.holds(row) ==> s.update_from_json(row, model, uuid, now).0.consistent(),
        s.update_from_json(row, model, uuid, now).0.touches_only(s, row.id),
{
    let ins = InsertModel { uuid, threshold_id: row.id, model, created: now, replaced: None };
    let written = s.insert_model(ins);
    lemma_insert_model_wf(s, ins);
    if written.1 is Ok {
        let new_id = ModelId(written.0.models.len() as i32);
        let changes = UpdateThreshold { model_id: Some(Some(new_id)), modified: now };
        let pointed = written.0.update_threshold(row.id, changes);
        lemma_update_threshold_wf(written.0, row.id, changes);
        assert(written.0.model_of(new_id, row.id));
        let t = pointed.0.update_replaced_model(row, now);
        match row.model_id {
            Some(m) => {
                lemma_update_model_wf(pointed.0, m, UpdateModel { replaced: now });
            },
            None => {},
        }
        assert(t.extends(s));
        if s.consistent() && s.holds(row) {
            assert forall|j: int| 0 <= j < t.models.len() implies ((
            #[trigger] t.models[j]).replaced is None <==> t.threshold(
                t.models[j].threshold_id,
            ).model_id == Some(t.models[j].id)) by {
                if j < s.models.len() {
                    assert(s.models[j].replaced is None <==> s.threshold(
                        s.models[j].threshold_id,
                    ).model_id == Some(s.models[j].id));
                    assert(s.has_threshold(s.models[j].threshold_id));
                    match row.model_id {
                        Some(m) => {
                            assert(s.model_of(m, row.id));
                        },
                        None => {},
                    }
                }
            }
        }
    }
}

/// Switching a threshold off keeps the constraints of the tables, only
/// adds to the store, and keeps the history in order when `row` is a
/// faithful copy of the stored threshold.
pub proof fn lemma_remove_current_model(s: StoreState, row: QueryThreshold, now: DateTime)
    requires
        s.wf(),
    ensures
        s.remove_current_model(row, now).wf(),
        s.remove_current_model(row, now).extends(s),
        s.consistent() && s.holds(row) ==> s.remove_current_model(row, now).consistent(),
        s.remove_current_model(row, now).touches_only(s, row.id),
        s.remove_current_model(row, now).models.len() == s.models.len(),
{
    let changes = UpdateThreshold { model_id: Some(None), modified: now };
    let cleared = s.update_threshold(row.id, changes);
    lemma_update_threshold_wf(s, row.id, changes);
    let t = cleared.0.update_replaced_model(row, now);
    match row.model_id {
        Some(m) => {
            lemma_update_model_wf(cleared.0, m, UpdateModel { replaced: now });
        },
        None => {},
    }
    assert(t.extends(s));
    if s.consistent() && s.holds(row) {
        assert forall|j: int| 0 <= j < t.models.len() implies ((
        #[trigger] t.models[j]).replaced is None <==> t.threshold(
            t.models[j].threshold_id,
        ).model_id == Some(t.models[j].id)) by {
            assert(s.models[j].replaced is None <==> s.threshold(
                s.models[j].threshold_id,
            ).model_id == Some(s.models[j].id));
            assert(s.has_threshold(s.models[j].threshold_id));
            match row.model_id {
                Some(m) => {
                    assert(s.model_of(m, row.id));
                },
                None => {},
            }
        }
    }
}

/// Bringing a threshold to a model keeps the constraints of the tables,
/// only adds to the store, and keeps the history in order when `row` is a
/// faithful copy of the stored threshold.
pub proof fn lemma_update_model_if_changed(
    s: StoreState,
    row: QueryThreshold,
    model: Model,
    uuid: ModelUuid,
    now: DateTime,
)
    requires
        s.wf(),
    ensures
        s.update_model_if_changed(row, model, uuid, now).0.wf(),
        s.update_model_if_changed(row, model, uuid, now).0.extends(s),
        s.consistent() && s.holds(row) ==> s.update_model_if_changed(
            row,
            model,
            uuid,
            now,
        ).0.consistent(),
        s.update_model_if_changed(row, model, uuid, now).0.touches_only(s, row.id),
{
    lemma_update_from_json(s, row, model, uuid, now);
    lemma_extends_trans(s, s, s);
}

/// Creating a threshold keeps the constraints of the tables, only adds to
/// the store, and keeps the history in order.
pub proof fn lemma_create_threshold(
    s: StoreState,
    uuid: ThresholdUuid,
    project_id: ProjectId,
    branch_id: BranchId,
    testbed_id: TestbedId,
    measure_id: MeasureId,
    model: Model,
    model_uuid: ModelUuid,
    now: DateTime,
)
    requires
        s.wf(),
    ensures
        s.create_threshold(
            uuid,
            project_id,
            branch_id,
            testbed_id,
            measure_id,
            model,
            model_uuid,
            now,
        ).0.wf(),
        s.create_threshold(
            uuid,
            project_id,
            branch_id,
            testbed_id,
            measure_id,
            model,
            model_uuid,
            now,
        ).0.extends(s),
        s.consistent() ==> s.create_threshold(
            uuid,
            project_id,
            branch_id,
            testbed_id,
            measure_id,
            model,
            model_uuid,
            now,
        ).0.consistent(),
{
    let row = InsertThreshold {
        uuid,
        project_id,
        branch_id,
        testbed_id,
        measure_id,
        model_id: None,
        created: now,
        modified: now,
    };
    let first = s.insert_threshold(row);
    lemma_insert_threshold_wf(s, row);
    lemma_extends_trans(s, s, s);
    if first.1 is Ok {
        let threshold_id = ThresholdId(first.0.thresholds.len() as i32);
        let ins = InsertModel {
            uuid: model_uuid,
            threshold_id,
            model,
            created: now,
            replaced: None,
        };
        let second = first.0.insert_model(ins);
        lemma_insert_model_wf(first.0, ins);
        assert(first.0.extends(s));
        if s.consistent() {
            assert forall|j: int| 0 <= j < first.0.models.len() implies ((
            #[trigger] first.0.models[j]).replaced is None <==> first.0.threshold(
                first.0.models[j].threshold_id,
            ).model_id == Some(first.0.models[j].id)) by {
                assert(s.models[j].replaced is None <==> s.threshold(
                    s.models[j].threshold_id,
                ).model_id == Some(s.models[j].id));
                assert(s.has_threshold(s.models[j].threshold_id));
            }
        }
        if second.1 is Ok {
            let model_id = ModelId(second.0.models.len() as i32);
            let t = second.0.set_threshold_model(threshold_id, model_id).0;
            lemma_set_threshold_model_wf(second.0, threshold_id, model_id);
            assert(second.0.model_of(model_id, threshold_id));
            assert(t.extends(s));
            if s.consistent() {
                assert forall|j: int| 0 <= j < t.models.len() implies ((
                #[trigger] t.models[j]).replaced is None <==> t.threshold(
                    t.models[j].threshold_id,
                ).model_id == Some(t.models[j].id)) by {
                    if j < s.models.len() {
                        assert(first.0.models[j].replaced is None <==> first.0.threshold(
                            first.0.models[j].threshold_id,
                        ).model_id == Some(first.0.models[j].id));
                        assert(s.has_threshold(s.models[j].threshold_id));
                    }
                }
            }
        }
    }
}

/// Writing a threshold keeps the constraints of the tables.
pub proof fn lemma_insert_threshold_wf(s: StoreState, row: InsertThreshold)
    requires
        s.wf(),
    ensures
        s.insert_threshold(row).0.wf(),
{
    let t = s.insert_threshold(row).0;
    if s.can_insert_threshold(row) {
        assert forall|i: int, j: int| 0 <= i < j < t.thresholds.len() implies !(
        #[trigger] t.thresholds[i]).same_target(#[trigger] t.thresholds[j]) by {
            if j == s.thresholds.len() {
                assert(!s.thresholds[i].watches(
                    row.project_id,
                    row.branch_id,
                    row.testbed_id,
                    row.measure_id,
                ));
            }
        }
        assert forall|i: int| 0 <= i < t.thresholds.len() implies (match (
        #[trigger] t.thresholds[i]).model_id {
            Some(m) => t.model_of(m, t.thresholds[i].id),
            None => true,
        }) by {
            if i < s.thresholds.len() {
                assert(t.thresholds[i] == s.thresholds[i]);
            }
        }
    }
}

/// Changing a threshold keeps the constraints of the tables.
pub proof fn lemma_update_threshold_wf(s: StoreState, id: ThresholdId, changes: UpdateThreshold)
    requires
        s.wf(),
    ensures
        s.update_threshold(id, changes).0.wf(),
{
    let t = s.update_threshold(id, changes).0;
    if s.has_threshold(id) && s.can_update_threshold(id, changes) {
        assert forall|i: int, j: int| 0 <= i < j < t.thresholds.len() implies !(
        #[trigger] t.thresholds[i]).same_target(#[trigger] t.thresholds[j]) by {
            assert(!s.thresholds[i].same_target(s.thresholds[j]));
        }
        assert forall|i: int, j: int| 0 <= i < j < t.thresholds.len() implies (
        #[trigger] t.thresholds[i]).uuid != (#[trigger] t.thresholds[j]).uuid by {
            assert(s.thresholds[i].uuid != s.thresholds[j].uuid);
        }
        assert forall|i: int| 0 <= i < t.thresholds.len() implies (match (
        #[trigger] t.thresholds[i]).model_id {
            Some(m) => t.model_of(m, t.thresholds[i].id),
            None => true,
        }) by {
            if i != id.0 - 1 {
                assert(t.thresholds[i] == s.thresholds[i]);
            }
        }
        assert forall|i: int| 0 <= i < t.thresholds.len() implies (#[trigger] t.thresholds[i]).id.0
            == i + 1 by {
            assert(s.thresholds[i].id.0 == i + 1);
        }
    }
}

/// Pointing a threshold at a model keeps the constraints of the tables.
pub proof fn lemma_set_threshold_model_wf(s: StoreState, id: ThresholdId, model_id: ModelId)
    requires
        s.wf(),
    ensures
        s.set_threshold_model(id, model_id).0.wf(),
{
    let t = s.set_threshold_model(id, model_id).0;
    if s.has_threshold(id) && s.model_of(model_id, id) {
        assert forall|i: int, j: int| 0 <= i < j < t.thresholds.len() implies !(
        #[trigger] t.thresholds[i]).same_target(#[trigger] t.thresholds[j]) by {
            assert(!s.thresholds[i].same_target(s.thresholds[j]));
        }
        assert forall|i: int, j: int| 0 <= i < j < t.thresholds.len() implies (
        #[trigger] t.thresholds[i]).uuid != (#[trigger] t.thresholds[j]).uuid by {
            assert(s.thresholds[i].uuid != s.thresholds[j].uuid);
        }
        assert forall|i: int| 0 <= i < t.thresholds.len() implies (match (
        #[trigger] t.thresholds[i]).model_id {
            Some(m) => t.model_of(m, t.thresholds[i].id),
            None => true,
        }) by {
            if i != id.0 - 1 {
                assert(t.thresholds[i] == s.thresholds[i]);
            }
        }
        assert forall|i: int| 0 <= i < t.thresholds.len() implies (#[trigger] t.thresholds[i]).id.0
            == i + 1 by {
            assert(s.thresholds[i].id.0 == i + 1);
        }
    }
}

/// Writing a model keeps the constraints of the tables.
pub proof fn lemma_insert_model_wf(s: StoreState, row: InsertModel)
    requires
        s.wf(),
    ensures
        s.insert_model(row).0.wf(),
{
    let t = s.insert_model(row).0;
    if s.can_insert_model(row) {
        assert forall|i: int| 0 <= i < t.thresholds.len() implies (match (
        #[trigger] t.thresholds[i]).model_id {
            Some(m) => t.model_of(m, t.thresholds[i].id),
            None => true,
        }) by {
            match s.thresholds[i].model_id {
                Some(m) => {
                    assert(s.model_of(m, s.thresholds[i].id));
                    assert(t.models[m.0 - 1] == s.models[m.0 - 1]);
                },
                None => {},
            }
        }
        assert forall|j: int| 0 <= j < t.models.len() implies t.has_threshold(
            (#[trigger] t.models[j]).threshold_id,
        ) by {
            if j < s.models.len() {
                assert(t.models[j] == s.models[j]);
            }
        }
    }
}

/// Stamping a model keeps the constraints of the tables.
pub proof fn lemma_update_model_wf(s: StoreState, id: ModelId, changes: UpdateModel)
    requires
        s.wf(),
    ensures
        s.update_model(id, changes).wf(),
{
    let t = s.update_model(id, changes);
    if s.has_model(id) {
        assert forall|i: int, j: int| 0 <= i < j < t.models.len() implies (
        #[trigger] t.models[i]).uuid != (#[trigger] t.models[j]).uuid by {
            assert(s.models[i].uuid != s.models[j].uuid);
        }
        assert forall|j: int| 0 <= j < t.models.len() implies t.has_threshold(
            (#[trigger] t.models[j]).threshold_id,
        ) by {
            assert(s.has_threshold(s.models[j].threshold_id));
        }
        assert forall|i: int| 0 <= i < t.thresholds.len() implies (match (
        #[trigger] t.thresholds[i]).model_id {
            Some(m) => t.model_of(m, t.thresholds[i].id),
            None => true,
        }) by {
            match s.thresholds[i].model_id {
                Some(m) => {
                    assert(s.model_of(m, s.thresholds[i].id));
                },
                None => {},
            }
        }
        assert forall|i: int| 0 <= i < t.models.len() implies (#[trigger] t.models[i]).id.0 == i
            + 1 by {
            assert(s.models[i].id.0 == i + 1);
        }
    }
}

/// Writing a measure keeps the constraints of the tables.
pub proof fn lemma_insert_measure_wf(
    s: StoreState,
    uuid: MeasureUuid,
    project_id: ProjectId,
    name: String,
)
    requires
        s.wf(),
    ensures
        s.insert_measure(uuid, project_id, name).0.wf(),
{
    let t = s.insert_measure(uuid, project_id, name).0;
    if s.can_insert_measure(uuid, project_id, name@) {
        assert forall|i: int, j: int| 0 <= i < j < t.measures.len() implies !((
        #[trigger] t.measures[i]).project_id == (#[trigger] t.measures[j]).project_id
            && t.measures[i].name@ == t.measures[j].name@) by {
            if j == s.measures.len() {
                assert(!(s.measures[i].project_id == project_id && s.measures[i].name@ == name@));
            }
        }
    }
}

impl QueryThreshold {
    /// Whether this threshold watches the given measure on the given branch
    /// and testbed of the given project.
    pub open spec fn watches(
        self,
        project_id: ProjectId,
        branch_id: BranchId,
        testbed_id: TestbedId,
        measure_id: MeasureId,
    ) -> bool {
        &&& self.project_id == project_id
        &&& self.branch_id == branch_id
        &&& self.testbed_id == testbed_id
        &&& self.measure_id == measure_id
    }

    /// Whether two thresholds watch the same target.
    pub open spec fn same_target(self, other: QueryThreshold) -> bool {
        self.watches(other.project_id, other.branch_id, other.testbed_id, other.measure_id)
    }
}

} // verus!
