use bencher_core::error::{ApiError, BencherResource};
use bencher_core::ids::{
    BranchId, BranchUuid, DateTime, MeasureId, MeasureUuid, ModelId, ModelUuid, ProjectId,
    ProjectUuid, ReferenceId, TestbedId, TestbedUuid, ThresholdId, ThresholdUuid, VersionId,
    MAX_ROWS,
};
use bencher_core::ids::{row_id, row_index};
use bencher_core::model::{
    Boundary, InsertModel, JsonModel, Model, ModelTest, QueryModel, UpdateModel,
    DEFAULT_CONFIDENCE,
};
use bencher_core::project::{
    JsonBranch, JsonHead, QueryBranch, QueryMeasure, QueryProject, QueryReference, QueryTestbed,
    QueryVersion,
};
use bencher_core::store::Store;
use bencher_core::threshold::{InsertThreshold, QueryThreshold, UpdateThreshold};

fn z_score(z: i64) -> Model {
    Model {
        test: ModelTest::ZScore,
        min_sample_size: Some(2),
        max_sample_size: None,
        window: Some(5),
        lower_boundary: None,
        upper_boundary: Some(Boundary(z)),
    }
}

struct World {
    store: Store,
    project: ProjectId,
    branch: BranchId,
    testbed: TestbedId,
    measure: MeasureId,
}

fn world() -> World {
    let mut store = Store::new();
    let project = store.insert_project(ProjectUuid(11)).unwrap();
    let branch = store.insert_branch(BranchUuid(12), project).unwrap();
    let testbed = store.insert_testbed(TestbedUuid(13), project).unwrap();
    let measure =
        QueryMeasure::get_or_create(&mut store, project, &"latency".to_string(), MeasureUuid(14)).unwrap();
    World { store, project, branch, testbed, measure }
}

fn create(w: &mut World, uuid: u128, model_uuid: u128, at: i64) -> Result<ThresholdId, ApiError> {
    InsertThreshold::from_json(
        &mut w.store,
        ThresholdUuid(uuid),
        w.project,
        w.branch,
        w.testbed,
        w.measure,
        z_score(3000),
        ModelUuid(model_uuid),
        DateTime(at),
    )
}

#[test]
fn rows_are_numbered_from_one() {
    assert_eq!(row_id(0), 1);
    assert_eq!(row_id(41), 42);
    assert_eq!(row_id(MAX_ROWS - 1), i32::MAX);
    assert_eq!(row_index(1, 3), Some(0));
    assert_eq!(row_index(3, 3), Some(2));
    assert_eq!(row_index(4, 3), None);
    assert_eq!(row_index(0, 3), None);
    assert_eq!(row_index(-5, 3), None);
    assert_eq!(row_index(1, 0), None);
}

#[test]
fn insert_threshold_new_is_switched_off() {
    let row = InsertThreshold::new(
        ThresholdUuid(5),
        ProjectId(1),
        BranchId(2),
        TestbedId(3),
        MeasureId(4),
        DateTime(99),
    );
    assert_eq!(row.uuid, ThresholdUuid(5));
    assert_eq!(row.project_id, ProjectId(1));
    assert_eq!(row.branch_id, BranchId(2));
    assert_eq!(row.testbed_id, TestbedId(3));
    assert_eq!(row.measure_id, MeasureId(4));
    assert_eq!(row.model_id, None);
    assert_eq!(row.created, DateTime(99));
    assert_eq!(row.modified, DateTime(99));
}

#[test]
fn from_json_creates_a_threshold_with_its_first_model() {
    let mut w = world();
    let id = create(&mut w, 100, 200, 7).unwrap();
    assert_eq!(id, ThresholdId(1));
    let threshold = QueryThreshold::get(&w.store, id).unwrap();
    assert_eq!(threshold.model_id, Some(ModelId(1)));
    assert_eq!(threshold.measure_id, w.measure);
    let model = threshold.model(&w.store).unwrap().unwrap();
    assert_eq!(model, QueryModel {
        id: ModelId(1),
        uuid: ModelUuid(200),
        threshold_id: id,
        model: z_score(3000),
        created: DateTime(7),
        replaced: None,
    });
    assert_eq!(model.into_model(), z_score(3000));
}

#[test]
fn from_json_refuses_a_taken_target_or_uuid() {
    let mut w = world();
    create(&mut w, 100, 200, 7).unwrap();
    assert_eq!(create(&mut w, 101, 201, 8), Err(ApiError::Conflict(BencherResource::Threshold)));
    assert_eq!(w.store.thresholds().len(), 1);
    assert_eq!(w.store.models().len(), 1);
    let other =
        QueryMeasure::get_or_create(&mut w.store, w.project, &"throughput".to_string(), MeasureUuid(15))
            .unwrap();
    w.measure = other;
    assert_eq!(create(&mut w, 100, 201, 8), Err(ApiError::Conflict(BencherResource::Threshold)));
    assert_eq!(w.store.thresholds().len(), 1);
    assert_eq!(create(&mut w, 102, 200, 8), Err(ApiError::Conflict(BencherResource::Model)));
    assert_eq!(w.store.thresholds().len(), 2);
    assert_eq!(w.store.thresholds()[1].model_id, None);
    assert_eq!(w.store.models().len(), 1);
}

#[test]
fn lower_and_upper_boundary_use_the_default_models() {
    let mut w = world();
    let lower = InsertThreshold::lower_boundary(
        &mut w.store,
        ThresholdUuid(1),
        w.project,
        w.branch,
        w.testbed,
        w.measure,
        ModelUuid(2),
        DateTime(5),
    )
    .unwrap();
    let other = w.store.insert_testbed(TestbedUuid(77), w.project).unwrap();
    let upper = InsertThreshold::upper_boundary(
        &mut w.store,
        ThresholdUuid(3),
        w.project,
        w.branch,
        other,
        w.measure,
        ModelUuid(4),
        DateTime(6),
    )
    .unwrap();
    let lower_model = QueryThreshold::get(&w.store, lower).unwrap().model(&w.store).unwrap().unwrap();
    let upper_model = QueryThreshold::get(&w.store, upper).unwrap().model(&w.store).unwrap().unwrap();
    assert_eq!(lower_model.model, Model::lower_boundary());
    assert_eq!(upper_model.model, Model::upper_boundary());
    assert_eq!(Model::lower_boundary(), Model {
        test: ModelTest::TTest,
        min_sample_size: None,
        max_sample_size: None,
        window: None,
        lower_boundary: Some(Boundary(980)),
        upper_boundary: None,
    });
    assert_eq!(Model::upper_boundary().upper_boundary, Some(Boundary(DEFAULT_CONFIDENCE)));
    assert_eq!(Model::upper_boundary().lower_boundary, None);
    assert!(Model::lower_boundary().same_as(&Model::lower_boundary()));
    assert!(!Model::lower_boundary().same_as(&Model::upper_boundary()));
}

#[test]
fn lookups_find_rows_or_say_which_is_missing() {
    let mut w = world();
    let id = create(&mut w, 100, 200, 7).unwrap();
    assert_eq!(QueryThreshold::get_id(&w.store, ThresholdUuid(100)), Ok(id));
    assert_eq!(QueryThreshold::get_uuid(&w.store, id), Ok(ThresholdUuid(100)));
    assert_eq!(
        QueryThreshold::get_id(&w.store, ThresholdUuid(5)),
        Err(ApiError::NotFound(BencherResource::Threshold))
    );
    assert_eq!(
        QueryThreshold::get(&w.store, ThresholdId(2)),
        Err(ApiError::NotFound(BencherResource::Threshold))
    );
    assert_eq!(
        QueryThreshold::get_uuid(&w.store, ThresholdId(0)),
        Err(ApiError::NotFound(BencherResource::Threshold))
    );
    assert_eq!(QueryModel::get_id(&w.store, ModelUuid(200)), Ok(ModelId(1)));
    assert_eq!(QueryModel::get_id(&w.store, ModelUuid(1)), Err(ApiError::NotFound(BencherResource::Model)));
    assert_eq!(QueryModel::get(&w.store, ModelId(9)), Err(ApiError::NotFound(BencherResource::Model)));
    assert_eq!(QueryProject::get(&w.store, ProjectId(1)).unwrap().uuid, ProjectUuid(11));
    assert_eq!(QueryProject::get(&w.store, ProjectId(2)), Err(ApiError::NotFound(BencherResource::Project)));
    assert_eq!(QueryBranch::get(&w.store, BranchId(7)), Err(ApiError::NotFound(BencherResource::Branch)));
    assert_eq!(QueryTestbed::get(&w.store, TestbedId(7)), Err(ApiError::NotFound(BencherResource::Testbed)));
    assert_eq!(
        QueryReference::get(&w.store, ReferenceId(7)),
        Err(ApiError::NotFound(BencherResource::Reference))
    );
    assert_eq!(QueryVersion::get(&w.store, VersionId(7)), Err(ApiError::NotFound(BencherResource::Version)));
    assert!(matches!(
        QueryMeasure::get(&w.store, MeasureId(7)),
        Err(ApiError::NotFound(BencherResource::Measure))
    ));
    assert_eq!(QueryMeasure::get(&w.store, w.measure).unwrap().name, "latency");
    assert!(ApiError::NotFound(BencherResource::Model).is_not_found());
    assert!(!ApiError::Conflict(BencherResource::Model).is_not_found());
    assert_eq!(ApiError::Conflict(BencherResource::Measure).resource(), BencherResource::Measure);
}

#[test]
fn get_with_uuid_asks_for_the_project_too() {
    let mut w = world();
    let id = create(&mut w, 100, 200, 7).unwrap();
    let project = QueryProject::get(&w.store, w.project).unwrap();
    let found = QueryThreshold::get_with_uuid(&w.store, &project, ThresholdUuid(100)).unwrap();
    assert_eq!(found.id, id);
    let stranger = QueryProject { id: ProjectId(2), uuid: ProjectUuid(99) };
    assert_eq!(
        QueryThreshold::get_with_uuid(&w.store, &stranger, ThresholdUuid(100)),
        Err(ApiError::NotFound(BencherResource::Threshold))
    );
    assert_eq!(
        QueryThreshold::get_with_uuid(&w.store, &project, ThresholdUuid(101)),
        Err(ApiError::NotFound(BencherResource::Threshold))
    );
}

#[test]
fn measures_are_found_by_name_or_created_once() {
    let mut w = world();
    let again =
        QueryMeasure::get_or_create(&mut w.store, w.project, &"latency".to_string(), MeasureUuid(50)).unwrap();
    assert_eq!(again, w.measure);
    assert_eq!(w.store.measures().len(), 1);
    assert_eq!(w.store.measures()[0].uuid, MeasureUuid(14));
    let other_project = w.store.insert_project(ProjectUuid(21)).unwrap();
    let elsewhere =
        QueryMeasure::get_or_create(&mut w.store, other_project, &"latency".to_string(), MeasureUuid(51))
            .unwrap();
    assert_eq!(elsewhere, MeasureId(2));
    assert_eq!(
        QueryMeasure::get_or_create(&mut w.store, w.project, &"throughput".to_string(), MeasureUuid(14)),
        Err(ApiError::Conflict(BencherResource::Measure))
    );
    assert_eq!(w.store.measures().len(), 2);
    assert_eq!(w.store.find_measure(other_project, &"latency".to_string()), Some(1));
    assert_eq!(w.store.find_measure(other_project, &"throughput".to_string()), None);
    assert_eq!(w.store.find_measure_uuid(MeasureUuid(51)), Some(1));
}

#[test]
fn update_model_if_changed_skips_the_same_model() {
    let mut w = world();
    let id = create(&mut w, 100, 200, 7).unwrap();
    let threshold = QueryThreshold::get(&w.store, id).unwrap();
    assert_eq!(threshold.update_model_if_changed(&mut w.store, z_score(3000), ModelUuid(201), DateTime(8)), Ok(()));
    assert_eq!(w.store.models().len(), 1);
    assert_eq!(QueryThreshold::get(&w.store, id).unwrap(), threshold);
    assert_eq!(threshold.update_model_if_changed(&mut w.store, z_score(2000), ModelUuid(201), DateTime(9)), Ok(()));
    assert_eq!(w.store.models().len(), 2);
    let after = QueryThreshold::get(&w.store, id).unwrap();
    assert_eq!(after.model_id, Some(ModelId(2)));
    assert_eq!(after.modified, DateTime(9));
    assert_eq!(after.created, DateTime(7));
    assert_eq!(w.store.models()[0].replaced, Some(DateTime(9)));
    assert_eq!(w.store.models()[1].model, z_score(2000));
    assert_eq!(w.store.models()[1].created, DateTime(9));
    assert_eq!(w.store.models()[1].replaced, None);
}

#[test]
fn update_from_json_always_writes_a_version() {
    let mut w = world();
    let id = create(&mut w, 100, 200, 7).unwrap();
    let threshold = QueryThreshold::get(&w.store, id).unwrap();
    assert_eq!(threshold.update_from_json(&mut w.store, z_score(3000), ModelUuid(201), DateTime(8)), Ok(()));
    assert_eq!(w.store.models().len(), 2);
    assert_eq!(w.store.models()[0].replaced, Some(DateTime(8)));
    let current = QueryThreshold::get(&w.store, id).unwrap();
    assert_eq!(
        current.update_from_json(&mut w.store, z_score(1000), ModelUuid(200), DateTime(9)),
        Err(ApiError::Conflict(BencherResource::Model))
    );
    assert_eq!(w.store.models().len(), 2);
    assert_eq!(QueryThreshold::get(&w.store, id).unwrap(), current);
    let ghost = QueryThreshold { id: ThresholdId(9), ..current };
    assert_eq!(
        ghost.update_from_json(&mut w.store, z_score(1000), ModelUuid(300), DateTime(9)),
        Err(ApiError::Conflict(BencherResource::Model))
    );
}

#[test]
fn remove_current_model_switches_off_and_stamps() {
    let mut w = world();
    let id = create(&mut w, 100, 200, 7).unwrap();
    let threshold = QueryThreshold::get(&w.store, id).unwrap();
    assert_eq!(threshold.remove_current_model(&mut w.store, DateTime(12)), Ok(()));
    let after = QueryThreshold::get(&w.store, id).unwrap();
    assert_eq!(after.model_id, None);
    assert_eq!(after.modified, DateTime(12));
    assert_eq!(w.store.models()[0].replaced, Some(DateTime(12)));
    assert_eq!(after.model(&w.store), Ok(None));
}

#[test]
fn update_replaced_model_stamps_only_the_model() {
    let mut w = world();
    let id = create(&mut w, 100, 200, 7).unwrap();
    let threshold = QueryThreshold::get(&w.store, id).unwrap();
    assert_eq!(threshold.update_replaced_model(&mut w.store, DateTime(33)), Ok(()));
    assert_eq!(QueryThreshold::get(&w.store, id).unwrap(), threshold);
    assert_eq!(w.store.models()[0].replaced, Some(DateTime(33)));
    let off = QueryThreshold { model_id: None, ..threshold };
    assert_eq!(off.update_replaced_model(&mut w.store, DateTime(44)), Ok(()));
    assert_eq!(w.store.models()[0].replaced, Some(DateTime(33)));
}

#[test]
fn update_threshold_changes_follow_the_constraints() {
    let mut w = world();
    let id = create(&mut w, 100, 200, 7).unwrap();
    assert_eq!(UpdateThreshold::remove_model(DateTime(5)), UpdateThreshold {
        model_id: Some(None),
        modified: DateTime(5),
    });
    assert_eq!(UpdateThreshold::new_model(&w.store, ModelUuid(200), DateTime(6)), Ok(UpdateThreshold {
        model_id: Some(Some(ModelId(1))),
        modified: DateTime(6),
    }));
    assert_eq!(
        UpdateThreshold::new_model(&w.store, ModelUuid(1), DateTime(6)),
        Err(ApiError::NotFound(BencherResource::Model))
    );
    let keep = UpdateThreshold { model_id: None, modified: DateTime(8) };
    assert_eq!(w.store.update_threshold(id, &keep), Ok(()));
    assert_eq!(w.store.thresholds()[0].model_id, Some(ModelId(1)));
    assert_eq!(w.store.thresholds()[0].modified, DateTime(8));
    let missing = UpdateThreshold { model_id: Some(Some(ModelId(5))), modified: DateTime(9) };
    assert_eq!(w.store.update_threshold(id, &missing), Err(ApiError::Conflict(BencherResource::Threshold)));
    assert_eq!(w.store.thresholds()[0].modified, DateTime(8));
    assert_eq!(w.store.update_threshold(ThresholdId(9), &missing), Ok(()));
    assert_eq!(w.store.set_threshold_model(id, ModelId(5)), Err(ApiError::Conflict(BencherResource::Threshold)));
    assert_eq!(w.store.set_threshold_model(id, ModelId(1)), Ok(()));
    assert!(w.store.model_of(ModelId(1), id));
    assert!(!w.store.model_of(ModelId(1), ThresholdId(2)));
    assert!(!w.store.model_of(ModelId(2), id));
    w.store.update_model(ModelId(7), &UpdateModel::replaced_at(DateTime(1)));
    assert_eq!(w.store.models()[0].replaced, None);
    assert_eq!(UpdateModel::replaced_at(DateTime(3)).replaced, DateTime(3));
    let pointing = InsertThreshold {
        model_id: Some(ModelId(1)),
        ..InsertThreshold::new(ThresholdUuid(9), w.project, w.branch, w.testbed, MeasureId(9), DateTime(1))
    };
    assert_eq!(w.store.insert_threshold(&pointing), Err(ApiError::Conflict(BencherResource::Threshold)));
    let orphan = InsertModel::from_json(ModelUuid(9), ThresholdId(9), z_score(1), DateTime(1));
    assert_eq!(orphan.replaced, None);
    assert_eq!(w.store.insert_model(&orphan), Err(ApiError::Conflict(BencherResource::Model)));
    assert_eq!(w.store.find_target(w.project, w.branch, w.testbed, w.measure), Some(0));
    assert_eq!(w.store.find_target(w.project, w.branch, w.testbed, MeasureId(9)), None);
    assert_eq!(w.store.find_threshold_uuid(ThresholdUuid(100)), Some(0));
    assert_eq!(w.store.find_model_uuid(ModelUuid(200)), Some(0));
}

#[test]
fn into_json_shows_the_threshold_with_its_target_and_model() {
    let mut w = world();
    let id = create(&mut w, 100, 200, 7).unwrap();
    let threshold = QueryThreshold::get(&w.store, id).unwrap();
    let json = threshold.into_json(&w.store).unwrap();
    assert_eq!(json.uuid, ThresholdUuid(100));
    assert_eq!(json.project, ProjectUuid(11));
    assert_eq!(json.branch, JsonBranch { uuid: BranchUuid(12), project: ProjectUuid(11), head: None });
    assert_eq!(json.testbed.uuid, TestbedUuid(13));
    assert_eq!(json.testbed.project, ProjectUuid(11));
    assert_eq!(json.measure.uuid, MeasureUuid(14));
    assert_eq!(json.measure.name, "latency");
    assert_eq!(json.model, Some(JsonModel {
        uuid: ModelUuid(200),
        threshold: ThresholdUuid(100),
        model: z_score(3000),
        created: DateTime(7),
        replaced: None,
    }));
    assert_eq!(json.created, DateTime(7));
    assert_eq!(json.modified, DateTime(7));
    threshold.remove_current_model(&mut w.store, DateTime(9)).unwrap();
    let off = QueryThreshold::get(&w.store, id).unwrap().into_json(&w.store).unwrap();
    assert_eq!(off.model, None);
    assert_eq!(off.modified, DateTime(9));
}

#[test]
fn into_json_for_model_says_which_record_is_missing() {
    let mut w = world();
    let id = create(&mut w, 100, 200, 7).unwrap();
    let threshold = QueryThreshold::get(&w.store, id).unwrap();
    let lost = |change: fn(&mut QueryThreshold)| {
        let mut row = threshold;
        change(&mut row);
        row
    };
    let store = &w.store;
    assert!(matches!(
        lost(|row| row.project_id = ProjectId(9)).into_json_for_model(store, None, None),
        Err(ApiError::NotFound(BencherResource::Project))
    ));
    assert!(matches!(
        lost(|row| row.branch_id = BranchId(9)).into_json_for_model(store, None, None),
        Err(ApiError::NotFound(BencherResource::Branch))
    ));
    assert!(matches!(
        lost(|row| row.testbed_id = TestbedId(9)).into_json_for_model(store, None, None),
        Err(ApiError::NotFound(BencherResource::Testbed))
    ));
    assert!(matches!(
        lost(|row| row.measure_id = MeasureId(9)).into_json_for_model(store, None, None),
        Err(ApiError::NotFound(BencherResource::Measure))
    ));
    assert!(matches!(
        lost(|row| {
            row.project_id = ProjectId(9);
            row.measure_id = MeasureId(9);
        })
        .into_json_for_model(store, None, None),
        Err(ApiError::NotFound(BencherResource::Project))
    ));
    assert!(matches!(
        threshold.into_json_for_model(store, None, Some((ReferenceId(1), VersionId(1)))),
        Err(ApiError::NotFound(BencherResource::Reference))
    ));
    let model = QueryModel::get(store, ModelId(1)).unwrap();
    assert!(matches!(
        QueryThreshold { project_id: ProjectId(9), ..threshold }
            .into_json(store),
        Err(ApiError::NotFound(BencherResource::Project))
    ));
    assert!(matches!(
        QueryThreshold { model_id: Some(ModelId(9)), ..threshold }.into_json(store),
        Err(ApiError::NotFound(BencherResource::Model))
    ));
    let shown = threshold.into_json_for_model(store, Some(model), None).unwrap();
    assert_eq!(shown.model.unwrap().uuid, ModelUuid(200));
}

#[test]
fn alert_json_takes_the_branch_of_the_report() {
    let mut w = world();
    let id = create(&mut w, 100, 200, 7).unwrap();
    let other_branch = w.store.insert_branch(BranchUuid(30), w.project).unwrap();
    let reference = w.store.insert_reference(other_branch).unwrap();
    let version = w.store.insert_version(42).unwrap();
    let json = QueryThreshold::get_alert_json(&w.store, id, ModelId(1), reference, version).unwrap();
    assert_eq!(json.branch, JsonBranch {
        uuid: BranchUuid(30),
        project: ProjectUuid(11),
        head: Some(JsonHead { reference, version: 42 }),
    });
    assert_eq!(json.model.unwrap().uuid, ModelUuid(200));
    assert!(matches!(
        QueryThreshold::get_alert_json(&w.store, ThresholdId(5), ModelId(1), reference, version),
        Err(ApiError::NotFound(BencherResource::Threshold))
    ));
    assert!(matches!(
        QueryThreshold::get_alert_json(&w.store, id, ModelId(5), reference, version),
        Err(ApiError::NotFound(BencherResource::Model))
    ));
    assert!(matches!(
        QueryThreshold::get_alert_json(&w.store, id, ModelId(1), reference, VersionId(9)),
        Err(ApiError::NotFound(BencherResource::Version))
    ));
    let dangling = w.store.insert_reference(BranchId(99)).unwrap();
    assert!(matches!(
        QueryThreshold::get_alert_json(&w.store, id, ModelId(1), dangling, version),
        Err(ApiError::NotFound(BencherResource::Branch))
    ));
    let project = QueryProject::get(&w.store, w.project).unwrap();
    assert_eq!(
        QueryBranch::get_json_for_report(&w.store, &project, reference, version).unwrap().head,
        Some(JsonHead { reference, version: 42 })
    );
}

#[test]
fn threshold_model_json_for_project() {
    let mut w = world();
    let id = create(&mut w, 100, 200, 7).unwrap();
    let threshold = QueryThreshold::get(&w.store, id).unwrap();
    let project = QueryProject::get(&w.store, w.project).unwrap();
    let model = QueryModel::get(&w.store, ModelId(1)).unwrap();
    let json = threshold.into_threshold_model_json_for_project(&project, model);
    assert_eq!(json.uuid, ThresholdUuid(100));
    assert_eq!(json.project, ProjectUuid(11));
    assert_eq!(json.created, DateTime(7));
    assert_eq!(json.model, model.into_json_for_threshold(ThresholdUuid(100)));
    assert_eq!(json.model.threshold, ThresholdUuid(100));
    let branch = QueryBranch::get(&w.store, w.branch).unwrap();
    assert_eq!(branch.into_json_for_project(&project).project, ProjectUuid(11));
    let testbed = QueryTestbed::get(&w.store, w.testbed).unwrap();
    assert_eq!(testbed.into_json_for_project(&project).uuid, TestbedUuid(13));
    let measure = QueryMeasure::get(&w.store, w.measure).unwrap();
    assert_eq!(measure.into_json_for_project(&project).name, "latency");
}

#[test]
fn history_only_grows_and_has_one_model_in_force() {
    let mut w = world();
    let id = create(&mut w, 100, 200, 1).unwrap();
    let mut seen = 1;
    for round in 0..6i64 {
        let threshold = QueryThreshold::get(&w.store, id).unwrap();
        if round % 3 == 2 {
            threshold.remove_current_model(&mut w.store, DateTime(10 + round)).unwrap();
        } else {
            threshold
                .update_model_if_changed(&mut w.store, z_score(1000 + round / 2), ModelUuid(300 + round as u128), DateTime(10 + round))
                .unwrap();
        }
        let versions = w.store.models().iter().filter(|m| m.threshold_id == id).count();
        assert!(versions >= seen);
        seen = versions;
        let in_force = w.store.models().iter().filter(|m| m.replaced.is_none()).count();
        assert!(in_force <= 1);
        let current = QueryThreshold::get(&w.store, id).unwrap().model_id;
        assert_eq!(in_force == 1, current.is_some());
    }
    assert_eq!(seen, 4);
}
