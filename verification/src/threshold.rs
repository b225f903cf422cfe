//! Thresholds: for each watched (branch, testbed, measure) of a project, the
//! pointer to the model that is in force now.

use vstd::prelude::*;
use crate::error::{ApiError, BencherResource};
use crate::ids::{
    row_index, BranchId, DateTime, MeasureId, ModelId, ModelUuid, ProjectId, ProjectUuid,
    ReferenceId, TestbedId, ThresholdId, ThresholdUuid, VersionId,
};
use crate::model::{InsertModel, JsonModel, Model, QueryModel, UpdateModel};
use crate::project::{
    JsonBranch, JsonMeasure, JsonTestbed, QueryBranch, QueryMeasure, QueryProject, QueryTestbed,
};
use crate::state::{
    lemma_create_threshold, lemma_model_with_uuid, lemma_remove_current_model,
    lemma_threshold_with_uuid, lemma_threshold_without_uuid, lemma_update_from_json,
    lemma_update_model_if_changed, StoreState,
};
use crate::store::Store;

verus! {

/// A stored threshold.
#[derive(Clone, Copy, Debug, PartialEq, Eq, Structural)]
pub struct QueryThreshold {
    pub id: ThresholdId,
    pub uuid: ThresholdUuid,
    pub project_id: ProjectId,
    pub branch_id: BranchId,
    pub testbed_id: TestbedId,
    pub measure_id: MeasureId,
    /// The model in force; `None` while monitoring is switched off.
    pub model_id: Option<ModelId>,
    pub created: DateTime,
    pub modified: DateTime,
}

/// A threshold that is about to be written.
#[derive(Clone, Copy, Debug, PartialEq, Eq, Structural)]
pub struct InsertThreshold {
    pub uuid: ThresholdUuid,
    pub project_id: ProjectId,
    pub branch_id: BranchId,
    pub testbed_id: TestbedId,
    pub measure_id: MeasureId,
    pub model_id: Option<ModelId>,
    pub created: DateTime,
    pub modified: DateTime,
}

/// A change to a stored threshold.
#[derive(Clone, Copy, Debug, PartialEq, Eq, Structural)]
pub struct UpdateThreshold {
    /// `None` leaves the pointer as it is, `Some(None)` clears it and
    /// `Some(Some(id))` points it at the model `id`.
    pub model_id: Option<Option<ModelId>>,
    pub modified: DateTime,
}

/// A threshold as it is shown: with its project, its target and the model
/// in force.
#[derive(Clone, Debug)]
pub struct JsonThreshold {
    pub uuid: ThresholdUuid,
    pub project: ProjectUuid,
    pub branch: JsonBranch,
    pub testbed: JsonTestbed,
    pub measure: JsonMeasure,
    pub model: Option<JsonModel>,
    pub created: DateTime,
    pub modified: DateTime,
}

/// A threshold as it is shown beside one of its models.
#[derive(Clone, Copy, Debug, PartialEq, Eq, Structural)]
pub struct JsonThresholdModel {
    pub uuid: ThresholdUuid,
    pub project: ProjectUuid,
    pub model: JsonModel,
    pub created: DateTime,
}

impl StoreState {
    /// The threshold `row` as it is shown with the model `query_model`,
    /// its branch taken as of `reference_version` where that is given; or
    /// the first record that is missing, asked for in the order project,
    /// branch, testbed, measure.
    pub open spec fn threshold_json(
        self,
        row: QueryThreshold,
        query_model: Option<QueryModel>,
        reference_version: Option<(ReferenceId, VersionId)>,
    ) -> Result<JsonThreshold, ApiError> {
        match self.project(row.project_id) {
            None => Err(ApiError::NotFound(BencherResource::Project)),
            Some(project) => {
                let branch = match reference_version {
                    Some((reference_id, version_id)) => self.branch_json_for_report(
                        project,
                        reference_id,
                        version_id,
                    ),
                    None => match self.branch(row.branch_id) {
                        Some(branch) => Ok(
                            JsonBranch { uuid: branch.uuid, project: project.uuid, head: None },
                        ),
                        None => Err(ApiError::NotFound(BencherResource::Branch)),
                    },
                };
                match branch {
                    Err(e) => Err(e),
                    Ok(branch) => match self.testbed(row.testbed_id) {
                        None => Err(ApiError::NotFound(BencherResource::Testbed)),
                        Some(testbed) => match self.measure(row.measure_id) {
                            None => Err(ApiError::NotFound(BencherResource::Measure)),
                            Some(measure) => Ok(
                                JsonThreshold {
                                    uuid: row.uuid,
                                    project: project.uuid,
                                    branch,
                                    testbed: JsonTestbed {
                                        uuid: testbed.uuid,
                                        project: project.uuid,
                                    },
                                    measure: JsonMeasure {
                                        uuid: measure.uuid,
                                        project: project.uuid,
                                        name: measure.name,
                                    },
                                    model: match query_model {
                                        Some(m) => Some(
                                            JsonModel {
                                                uuid: m.uuid,
                                                threshold: row.uuid,
                                                model: m.model,
                                                created: m.created,
                                                replaced: m.replaced,
                                            },
                                        ),
                                        None => None,
                                    },
                                    created: row.created,
                                    modified: row.modified,
                                },
                            ),
                        },
                    },
                }
            },
        }
    }

    /// The model that the threshold `row` points at, or the failure to
    /// find it.
    pub open spec fn current_model(self, row: QueryThreshold) -> Result<
        Option<QueryModel>,
        ApiError,
    > {
        match row.model_id {
            Some(m) => if self.has_model(m) {
                Ok(Some(self.model(m)))
            } else {
                Err(ApiError::NotFound(BencherResource::Model))
            },
            None => Ok(None),
        }
    }
}

impl QueryThreshold {
    /// The stored threshold `id`.
    pub fn get(conn: &Store, id: ThresholdId) -> (r: Result<QueryThreshold, ApiError>)
        ensures
            r == (if conn@.has_threshold(id) {
                Ok::<QueryThreshold, ApiError>(conn@.threshold(id))
            } else {
                Err::<QueryThreshold, ApiError>(ApiError::NotFound(BencherResource::Threshold))
            }),
    {
        match row_index(id.0, conn.thresholds().len()) {
            Some(i) => Ok(conn.thresholds()[i]),
            None => Err(ApiError::NotFound(BencherResource::Threshold)),
        }
    }

    /// The identifier of the stored threshold with the public identifier
    /// `uuid`.
    pub fn get_id(conn: &Store, uuid: ThresholdUuid) -> (r: Result<ThresholdId, ApiError>)
        ensures
            match conn@.threshold_with_uuid(uuid) {
                Some(i) => r == Ok::<ThresholdId, ApiError>(conn@.thresholds[i].id),
                None => r == Err::<ThresholdId, ApiError>(
                    ApiError::NotFound(BencherResource::Threshold),
                ),
            },
    {
        match conn.find_threshold_uuid(uuid) {
            Some(i) => {
                proof {
                    lemma_threshold_with_uuid(conn@, i as int, uuid);
                }
                Ok(conn.thresholds()[i].id)
            },
            None => {
                proof {
                    lemma_threshold_without_uuid(conn@, uuid);
                }
                Err(ApiError::NotFound(BencherResource::Threshold))
            },
        }
    }

    /// The public identifier of the stored threshold `id`.
    pub fn get_uuid(conn: &Store, id: ThresholdId) -> (r: Result<ThresholdUuid, ApiError>)
        ensures
            r == (if conn@.has_threshold(id) {
                Ok::<ThresholdUuid, ApiError>(conn@.threshold(id).uuid)
            } else {
                Err::<ThresholdUuid, ApiError>(ApiError::NotFound(BencherResource::Threshold))
            }),
    {
        match row_index(id.0, conn.thresholds().len()) {
            Some(i) => Ok(conn.thresholds()[i].uuid),
            None => Err(ApiError::NotFound(BencherResource::Threshold)),
        }
    }

    /// The threshold of `query_project` with the public identifier `uuid`:
    /// found when a threshold has that identifier and belongs to the
    /// project.
    pub fn get_with_uuid(conn: &Store, query_project: &QueryProject, uuid: ThresholdUuid) -> (r:
        Result<QueryThreshold, ApiError>)
        ensures
            match conn@.threshold_with_uuid(uuid) {
                Some(i) => r == (if conn@.thresholds[i].project_id == query_project.id {
                    Ok::<QueryThreshold, ApiError>(conn@.thresholds[i])
                } else {
                    Err::<QueryThreshold, ApiError>(ApiError::NotFound(BencherResource::Threshold))
                }),
                None => r == Err::<QueryThreshold, ApiError>(
                    ApiError::NotFound(BencherResource::Threshold),
                ),
            },
    {
        match conn.find_threshold_uuid(uuid) {
            Some(i) => {
                proof {
                    lemma_threshold_with_uuid(conn@, i as int, uuid);
                }
                let row = conn.thresholds()[i];
                if row.project_id == query_project.id {
                    Ok(row)
                } else {
                    Err(ApiError::NotFound(BencherResource::Threshold))
                }
            },
            None => {
                proof {
                    lemma_threshold_without_uuid(conn@, uuid);
                }
                Err(ApiError::NotFound(BencherResource::Threshold))
            },
        }
    }

    /// The model in force, if the threshold points at one.
    pub fn model(&self, conn: &Store) -> (r: Result<Option<QueryModel>, ApiError>)
        ensures
            r == conn@.current_model(*self),
    {
        if let Some(model_id) = self.model_id {
            match QueryModel::get(conn, model_id) {
                Ok(query_model) => Ok(Some(query_model)),
                Err(e) => Err(e),
            }
        } else {
            Ok(None)
        }
    }

    /// Brings this threshold to `model`. Where the model in force is the
    /// same configuration nothing is written; otherwise `model` becomes a
    /// new version under `uuid` and the one in force is replaced at `now`.
    pub fn update_model_if_changed(
        &self,
        conn: &mut Store,
        model: Model,
        uuid: ModelUuid,
        now: DateTime,
    ) -> (r: Result<(), ApiError>)
        requires
            old(conn)@.wf(),
        ensures
            final(conn)@.wf(),
            (final(conn)@, r) == old(conn)@.update_model_if_changed(*self, model, uuid, now),
            final(conn)@.extends(old(conn)@),
            old(conn)@.consistent() && old(conn)@.holds(*self) ==> final(conn)@.consistent(),
    {
        proof {
            lemma_update_model_if_changed(conn@, *self, model, uuid, now);
        }
        if let Some(model_id) = self.model_id {
            let current_model = match QueryModel::get(conn, model_id) {
                Ok(query_model) => query_model.into_model(),
                Err(e) => { return Err(e); },
            };
            if current_model == model {
                return Ok(());
            }
        }
        self.update_from_json(conn, model, uuid, now)
    }

    /// Gives this threshold the new model `model`: it is written as a new
    /// version under `uuid`, the threshold is pointed at it and stamped as
    /// modified at `now`, and the version this row points at is stamped as
    /// replaced at `now`. Fails, with nothing written, when the version
    /// cannot be written.
    pub fn update_from_json(&self, conn: &mut Store, model: Model, uuid: ModelUuid, now: DateTime) -> (r:
        Result<(), ApiError>)
        requires
            old(conn)@.wf(),
        ensures
            final(conn)@.wf(),
            (final(conn)@, r) == old(conn)@.update_from_json(*self, model, uuid, now),
            final(conn)@.extends(old(conn)@),
            old(conn)@.consistent() && old(conn)@.holds(*self) ==> final(conn)@.consistent(),
    {
        proof {
            lemma_update_from_json(conn@, *self, model, uuid, now);
        }
        let insert_model = InsertModel::from_json(uuid, self.id, model, now);
        match conn.insert_model(&insert_model) {
            Ok(()) => {},
            Err(e) => { return Err(e); },
        }
        let ghost written = conn@;
        assert(written.first_model_at(written.models.len() - 1, uuid));
        assert(written.model_of(ModelId(written.models.len() as i32), self.id));
        proof {
            lemma_model_with_uuid(written, written.models.len() - 1, uuid);
        }
        let update_threshold = match UpdateThreshold::new_model(conn, insert_model.uuid, now) {
            Ok(update_threshold) => update_threshold,
            Err(e) => { return Err(e); },
        };
        match conn.update_threshold(self.id, &update_threshold) {
            Ok(()) => {},
            Err(e) => { return Err(e); },
        }
        self.update_replaced_model(conn, update_threshold.modified)
    }

    /// Switches this threshold off at `now`: its pointer is cleared, it is
    /// stamped as modified, and the version this row points at is stamped
    /// as replaced.
    pub fn remove_current_model(&self, conn: &mut Store, now: DateTime) -> (r: Result<(), ApiError>)
        requires
            old(conn)@.wf(),
        ensures
            r == Ok::<(), ApiError>(()),
            final(conn)@.wf(),
            final(conn)@ == old(conn)@.remove_current_model(*self, now),
            final(conn)@.extends(old(conn)@),
            old(conn)@.consistent() && old(conn)@.holds(*self) ==> final(conn)@.consistent(),
    {
        proof {
            lemma_remove_current_model(conn@, *self, now);
        }
        let update_threshold = UpdateThreshold::remove_model(now);
        match conn.update_threshold(self.id, &update_threshold) {
            Ok(()) => {},
            Err(e) => { return Err(e); },
        }
        self.update_replaced_model(conn, update_threshold.modified)
    }

    /// Stamps the version that this row points at, if any, as replaced at
    /// `date_time`.
    pub fn update_replaced_model(&self, conn: &mut Store, date_time: DateTime) -> (r: Result<
        (),
        ApiError,
    >)
        requires
            old(conn)@.wf(),
        ensures
            r == Ok::<(), ApiError>(()),
            final(conn)@.wf(),
            final(conn)@ == old(conn)@.update_replaced_model(*self, date_time),
    {
        if let Some(model_id) = self.model_id {
            let update_model = UpdateModel::replaced_at(date_time);
            conn.update_model(model_id, &update_model);
        }
        Ok(())
    }

    /// The threshold `threshold_id` as it is shown in an alert: with the
    /// model `model_id` that raised it and its branch as of the report.
    pub fn get_alert_json(
        conn: &Store,
        threshold_id: ThresholdId,
        model_id: ModelId,
        reference_id: ReferenceId,
        version_id: VersionId,
    ) -> (r: Result<JsonThreshold, ApiError>)
        requires
            conn@.has_threshold(threshold_id) && conn@.has_model(model_id) ==> conn@.model(
                model_id,
            ).threshold_id == conn@.threshold(threshold_id).id,
        ensures
            r == (if !conn@.has_threshold(threshold_id) {
                Err::<JsonThreshold, ApiError>(ApiError::NotFound(BencherResource::Threshold))
            } else if !conn@.has_model(model_id) {
                Err::<JsonThreshold, ApiError>(ApiError::NotFound(BencherResource::Model))
            } else {
                conn@.threshold_json(
                    conn@.threshold(threshold_id),
                    Some(conn@.model(model_id)),
                    Some((reference_id, version_id)),
                )
            }),
    {
        let query_threshold = match QueryThreshold::get(conn, threshold_id) {
            Ok(query_threshold) => query_threshold,
            Err(e) => { return Err(e); },
        };
        let query_model = match QueryModel::get(conn, model_id) {
            Ok(query_model) => query_model,
            Err(e) => { return Err(e); },
        };
        query_threshold.into_json_for_model(
            conn,
            Some(query_model),
            Some((reference_id, version_id)),
        )
    }

    /// This threshold as it is shown, with the model in force.
    pub fn into_json(self, conn: &Store) -> (r: Result<JsonThreshold, ApiError>)
        requires
            self.model_id matches Some(m) ==> (conn@.has_model(m) ==> conn@.model(m).threshold_id
                == self.id),
        ensures
            r == (match conn@.current_model(self) {
                Ok(query_model) => conn@.threshold_json(self, query_model, None),
                Err(e) => Err::<JsonThreshold, ApiError>(e),
            }),
    {
        let query_model = match self.model(conn) {
            Ok(query_model) => query_model,
            Err(e) => { return Err(e); },
        };
        self.into_json_for_model(conn, query_model, None)
    }

    /// This threshold as it is shown with the model `query_model`, which
    /// has to be a version of this threshold; the branch is the one of the
    /// threshold, or, where `reference_version` is given, the one of that
    /// reference with its head at that version.
    pub fn into_json_for_model(
        self,
        conn: &Store,
        query_model: Option<QueryModel>,
        reference_version: Option<(ReferenceId, VersionId)>,
    ) -> (r: Result<JsonThreshold, ApiError>)
        requires
            query_model matches Some(m) ==> m.threshold_id == self.id,
        ensures
            r == conn@.threshold_json(self, query_model, reference_version),
    {
        let model = if let Some(query_model) = &query_model {
            Some(query_model.into_json_for_threshold(self.uuid))
        } else {
            None
        };
        let QueryThreshold {
            uuid,
            project_id,
            branch_id,
            testbed_id,
            measure_id,
            created,
            modified,
            ..
        } = self;
        let query_project = match QueryProject::get(conn, project_id) {
            Ok(query_project) => query_project,
            Err(e) => { return Err(e); },
        };
        let branch = if let Some((reference_id, version_id)) = reference_version {
            match QueryBranch::get_json_for_report(conn, &query_project, reference_id, version_id) {
                Ok(branch) => branch,
                Err(e) => { return Err(e); },
            }
        } else {
            match QueryBranch::get(conn, branch_id) {
                Ok(query_branch) => query_branch.into_json_for_project(&query_project),
                Err(e) => { return Err(e); },
            }
        };
        let testbed = match QueryTestbed::get(conn, testbed_id) {
            Ok(query_testbed) => query_testbed.into_json_for_project(&query_project),
            Err(e) => { return Err(e); },
        };
        let measure = match QueryMeasure::get(conn, measure_id) {
            Ok(query_measure) => query_measure.into_json_for_project(&query_project),
            Err(e) => { return Err(e); },
        };
        Ok(
            JsonThreshold {
                uuid,
                project: query_project.uuid,
                branch,
                testbed,
                measure,
                model,
                created,
                modified,
            },
        )
    }

    /// This threshold as it is shown beside its model `query_model`, under
    /// the project `project` that it belongs to.
    pub fn into_threshold_model_json_for_project(
        self,
        project: &QueryProject,
        query_model: QueryModel,
    ) -> (json: JsonThresholdModel)
        requires
            project.id == self.project_id,
        ensures
            json == (JsonThresholdModel {
                uuid: self.uuid,
                project: project.uuid,
                model: JsonModel {
                    uuid: query_model.uuid,
                    threshold: self.uuid,
                    model: query_model.model,
                    created: query_model.created,
                    replaced: query_model.replaced,
                },
                created: self.created,
            }),
    {
        let model = query_model.into_json_for_threshold(self.uuid);
        let QueryThreshold { uuid, created, .. } = self;
        JsonThresholdModel { uuid, project: project.uuid, model, created }
    }
}

impl InsertThreshold {
    /// A threshold for the given target, switched off, created and
    /// modified at `timestamp`.
    pub fn new(
        uuid: ThresholdUuid,
        project_id: ProjectId,
        branch_id: BranchId,
        testbed_id: TestbedId,
        measure_id: MeasureId,
        timestamp: DateTime,
    ) -> (row: InsertThreshold)
        ensures
            row == (InsertThreshold {
                uuid,
                project_id,
                branch_id,
                testbed_id,
                measure_id,
                model_id: None,
                created: timestamp,
                modified: timestamp,
            }),
    {
        InsertThreshold {
            uuid,
            project_id,
            branch_id,
            testbed_id,
            measure_id,
            model_id: None,
            created: timestamp,
            modified: timestamp,
        }
    }

    /// Creates the threshold for a target with `model` as its first
    /// version, and answers its identifier. Fails with a conflict on the
    /// threshold when the target or `uuid` is taken, and with a conflict on
    /// the model, the threshold staying written and switched off, when
    /// `model_uuid` is taken.
    pub fn from_json(
        conn: &mut Store,
        uuid: ThresholdUuid,
        project_id: ProjectId,
        branch_id: BranchId,
        testbed_id: TestbedId,
        measure_id: MeasureId,
        model: Model,
        model_uuid: ModelUuid,
        now: DateTime,
    ) -> (r: Result<ThresholdId, ApiError>)
        requires
            old(conn)@.wf(),
        ensures
            final(conn)@.wf(),
            (final(conn)@, r) == old(conn)@.create_threshold(
                uuid,
                project_id,
                branch_id,
                testbed_id,
                measure_id,
                model,
                model_uuid,
                now,
            ),
            final(conn)@.extends(old(conn)@),
            old(conn)@.consistent() ==> final(conn)@.consistent(),
    {
        proof {
            lemma_create_threshold(
                conn@,
                uuid,
                project_id,
                branch_id,
                testbed_id,
                measure_id,
                model,
                model_uuid,
                now,
            );
        }
        // Create the new threshold
        let insert_threshold = InsertThreshold::new(
            uuid,
            project_id,
            branch_id,
            testbed_id,
            measure_id,
            now,
        );
        match conn.insert_threshold(&insert_threshold) {
            Ok(()) => {},
            Err(e) => { return Err(e); },
        }
        let ghost first = conn@;
        assert(first.first_threshold_at(first.thresholds.len() - 1, uuid));
        proof {
            lemma_threshold_with_uuid(first, first.thresholds.len() - 1, uuid);
        }
        // Get the new threshold ID
        let threshold_id = match QueryThreshold::get_id(conn, insert_threshold.uuid) {
            Ok(threshold_id) => threshold_id,
            Err(e) => { return Err(e); },
        };
        // Create the new model
        let insert_model = InsertModel::from_json(model_uuid, threshold_id, model, now);
        match conn.insert_model(&insert_model) {
            Ok(()) => {},
            Err(e) => { return Err(e); },
        }
        let ghost second = conn@;
        assert(second.first_model_at(second.models.len() - 1, model_uuid));
        proof {
            lemma_model_with_uuid(second, second.models.len() - 1, model_uuid);
        }
        // Get the new model ID
        let model_id = match QueryModel::get_id(conn, insert_model.uuid) {
            Ok(model_id) => model_id,
            Err(e) => { return Err(e); },
        };
        // Set the new model for the new threshold
        assert(second.model_of(model_id, threshold_id));
        match conn.set_threshold_model(threshold_id, model_id) {
            Ok(()) => {},
            Err(e) => { return Err(e); },
        }
        Ok(threshold_id)
    }

    /// Creates the threshold for a target with the default model that
    /// guards the lower side.
    pub fn lower_boundary(
        conn: &mut Store,
        uuid: ThresholdUuid,
        project_id: ProjectId,
        branch_id: BranchId,
        testbed_id: TestbedId,
        measure_id: MeasureId,
        model_uuid: ModelUuid,
        now: DateTime,
    ) -> (r: Result<ThresholdId, ApiError>)
        requires
            old(conn)@.wf(),
        ensures
            final(conn)@.wf(),
            (final(conn)@, r) == old(conn)@.create_threshold(
                uuid,
                project_id,
                branch_id,
                testbed_id,
                measure_id,
                Model::lower_boundary_spec(),
                model_uuid,
                now,
            ),
            final(conn)@.extends(old(conn)@),
            old(conn)@.consistent() ==> final(conn)@.consistent(),
    {
        InsertThreshold::from_json(
            conn,
            uuid,
            project_id,
            branch_id,
            testbed_id,
            measure_id,
            Model::lower_boundary(),
            model_uuid,
            now,
        )
    }

    /// Creates the threshold for a target with the default model that
    /// guards the upper side.
    pub fn upper_boundary(
        conn: &mut Store,
        uuid: ThresholdUuid,
        project_id: ProjectId,
        branch_id: BranchId,
        testbed_id: TestbedId,
        measure_id: MeasureId,
        model_uuid: ModelUuid,
        now: DateTime,
    ) -> (r: Result<ThresholdId, ApiError>)
        requires
            old(conn)@.wf(),
        ensures
            final(conn)@.wf(),
            (final(conn)@, r) == old(conn)@.create_threshold(
                uuid,
                project_id,
                branch_id,
                testbed_id,
                measure_id,
                Model::upper_boundary_spec(),
                model_uuid,
                now,
            ),
            final(conn)@.extends(old(conn)@),
            old(conn)@.consistent() ==> final(conn)@.consistent(),
    {
        InsertThreshold::from_json(
            conn,
            uuid,
            project_id,
            branch_id,
            testbed_id,
            measure_id,
            Model::upper_boundary(),
            model_uuid,
            now,
        )
    }
}

impl UpdateThreshold {
    /// The change that points a threshold at the stored model with the
    /// public identifier `model_uuid` and stamps it as modified at `now`.
    pub fn new_model(conn: &Store, model_uuid: ModelUuid, now: DateTime) -> (r: Result<
        UpdateThreshold,
        ApiError,
    >)
        ensures
            match conn@.model_with_uuid(model_uuid) {
                Some(i) => r == Ok::<UpdateThreshold, ApiError>(
                    UpdateThreshold { model_id: Some(Some(conn@.models[i].id)), modified: now },
                ),
                None => r == Err::<UpdateThreshold, ApiError>(
                    ApiError::NotFound(BencherResource::Model),
                ),
            },
    {
        match QueryModel::get_id(conn, model_uuid) {
            Ok(model_id) => Ok(UpdateThreshold { model_id: Some(Some(model_id)), modified: now }),
            Err(e) => Err(e),
        }
    }

    /// The change that switches a threshold off and stamps it as modified
    /// at `now`.
    pub fn remove_model(now: DateTime) -> (u: UpdateThreshold)
        ensures
            u == (UpdateThreshold { model_id: Some(None), modified: now }),
    {
        UpdateThreshold { model_id: Some(None), modified: now }
    }
}

} // verus!
