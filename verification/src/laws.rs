//! What holds of reconciliation whatever the store and the reports: the
//! history of every threshold only grows and has at most one model in
//! force, and a report applied a second time changes nothing.

use vstd::prelude::*;
use crate::ids::{BranchId, DateTime, MeasureId, ProjectId, TestbedId, ThresholdId};
use crate::model::Model;
use crate::reconcile::{
    lemma_clear_unnamed, lemma_get_or_create_measure, lemma_reconcile,
    lemma_reconcile_entries, lemma_reconcile_entry, lemma_target_position, Pass,
    ReportThreshold,
};
use crate::state::{
    lemma_create_threshold, lemma_extends_trans, lemma_measure_called,
    lemma_remove_current_model, lemma_update_model_if_changed, StoreState,
};

verus! {

/// One report as it reaches the store: its scope, what it declares, and
/// when it is applied.
pub struct Report {
    pub project_id: ProjectId,
    pub branch_id: BranchId,
    pub testbed_id: TestbedId,
    pub thresholds: Option<Seq<ReportThreshold>>,
    pub now: DateTime,
}

impl StoreState {
    /// How many of the first `n` stored models are versions of the
    /// threshold `id`.
    pub open spec fn versions_among(self, id: ThresholdId, n: int) -> nat
        decreases n,
    {
        if n <= 0 {
            0
        } else {
            self.versions_among(id, n - 1) + if self.models[n - 1].threshold_id == id {
                1nat
            } else {
                0nat
            }
        }
    }

    /// How many versions the threshold `id` has had.
    pub open spec fn version_count(self, id: ThresholdId) -> nat {
        self.versions_among(id, self.models.len() as int)
    }

    /// No threshold has two versions without a replacement stamp.
    pub open spec fn one_in_force(self) -> bool {
        forall|j: int, k: int|
            0 <= j < k < self.models.len() && (#[trigger] self.models[j]).threshold_id == (
            #[trigger] self.models[k]).threshold_id ==> !(self.models[j].replaced is None
                && self.models[k].replaced is None)
    }

    /// The store after the reports were applied in order, whether or not
    /// any of them failed.
    pub open spec fn reconcile_all(self, reports: Seq<Report>) -> StoreState
        decreases reports.len(),
    {
        if reports.len() == 0 {
            self
        } else {
            self.reconcile_all(reports.drop_last()).reconcile(
                reports.last().project_id,
                reports.last().branch_id,
                reports.last().testbed_id,
                reports.last().thresholds,
                reports.last().now,
            ).0
        }
    }
}

proof fn lemma_versions_kept(a: StoreState, b: StoreState, id: ThresholdId, n: int)
    requires
        b.extends(a),
        n <= a.models.len(),
    ensures
        b.versions_among(id, n) == a.versions_among(id, n),
    decreases n,
{
    if n > 0 {
        lemma_versions_kept(a, b, id, n - 1);
        assert((crate::model::QueryModel {
            replaced: a.models[n - 1].replaced,
            ..b.models[n - 1]
        }) == a.models[n - 1]);
    }
}

proof fn lemma_versions_grow(s: StoreState, id: ThresholdId, n: int, m: int)
    requires
        n <= m,
    ensures
        s.versions_among(id, n) <= s.versions_among(id, m),
    decreases m - n,
{
    if n < m {
        lemma_versions_grow(s, id, n, m - 1);
    }
}

/// In a store whose histories are in order no threshold has two models in
/// force.
pub proof fn lemma_one_in_force(s: StoreState)
    requires
        s.wf(),
        s.consistent(),
    ensures
        s.one_in_force(),
{
    assert forall|j: int, k: int|
        0 <= j < k < s.models.len() && (#[trigger] s.models[j]).threshold_id == (
        #[trigger] s.models[k]).threshold_id implies !(s.models[j].replaced is None
        && s.models[k].replaced is None) by {
        assert(s.models[j].id.0 == j + 1);
        assert(s.models[k].id.0 == k + 1);
    }
}

/// History is preserved: however many reports are applied to a store
/// whose histories are in order, and whether or not they succeed, the
/// store keeps its constraints, no row leaves it, no threshold has fewer
/// versions than before, and no threshold has more than one version without
/// a replacement stamp.
pub proof fn law_history_preserved(s: StoreState, reports: Seq<Report>)
    requires
        s.wf(),
        s.consistent(),
    ensures
        s.reconcile_all(reports).wf(),
        s.reconcile_all(reports).consistent(),
        s.reconcile_all(reports).extends(s),
        s.reconcile_all(reports).one_in_force(),
        forall|id: ThresholdId| #[trigger]
            s.reconcile_all(reports).version_count(id) >= s.version_count(id),
    decreases reports.len(),
{
    let after = s.reconcile_all(reports);
    lemma_extends_trans(s, s, s);
    if reports.len() > 0 {
        let before = s.reconcile_all(reports.drop_last());
        law_history_preserved(s, reports.drop_last());
        lemma_reconcile(
            before,
            reports.last().project_id,
            reports.last().branch_id,
            reports.last().testbed_id,
            reports.last().thresholds,
            reports.last().now,
        );
        lemma_extends_trans(s, before, after);
    }
    lemma_one_in_force(after);
    assert forall|id: ThresholdId| #[trigger] after.version_count(id) >= s.version_count(id) by {
        lemma_versions_kept(s, after, id, s.models.len() as int);
        lemma_versions_grow(after, id, s.models.len() as int, after.models.len() as int);
    }
}

impl StoreState {
    /// The identifier of the measure of `project_id` called `name`, where
    /// there is one.
    pub open spec fn measure_id_called(self, project_id: ProjectId, name: Seq<char>) -> MeasureId {
        self.measures[self.measure_called(project_id, name)->0].id
    }

    /// Whether the scope watches the measure called `name`, with the
    /// configuration `model` in force.
    pub open spec fn in_force(
        self,
        project_id: ProjectId,
        branch_id: BranchId,
        testbed_id: TestbedId,
        name: Seq<char>,
        model: Model,
    ) -> bool {
        &&& self.measure_called(project_id, name) is Some
        &&& self.target_position(
            project_id,
            branch_id,
            testbed_id,
            self.measure_id_called(project_id, name),
        ) matches Some(i)
        &&& self.thresholds[i].model_id matches Some(m)
        &&& self.has_model(m)
        &&& self.model(m).model == model
    }
}

/// Whether two lists of entries declare the same: the same measures, by
/// name, with the same models, in the same order. The fresh identifiers
/// that the entries carry may differ.
pub open spec fn same_declaration(a: Seq<ReportThreshold>, b: Seq<ReportThreshold>) -> bool {
    &&& a.len() == b.len()
    &&& forall|i: int|
        0 <= i < a.len() ==> (#[trigger] a[i]).measure@ == b[i].measure@ && a[i].model
            == b[i].model
}

/// Whether every entry of `done` is in force in the scope, no two of them
/// name the same measure, and `named` holds just the measures they name.
spec fn settled(
    s: StoreState,
    project_id: ProjectId,
    branch_id: BranchId,
    testbed_id: TestbedId,
    named: Set<MeasureId>,
    done: Seq<ReportThreshold>,
) -> bool {
    &&& forall|j: int|
        0 <= j < done.len() ==> s.in_force(
            project_id,
            branch_id,
            testbed_id,
            (#[trigger] done[j]).measure@,
            done[j].model,
        ) && named.contains(s.measure_id_called(project_id, done[j].measure@))
    &&& forall|j: int, k: int|
        0 <= j < k < done.len() ==> s.measure_id_called(project_id, (#[trigger] done[j]).measure@)
            != s.measure_id_called(project_id, (#[trigger] done[k]).measure@)
    &&& forall|m: MeasureId| #[trigger]
        named.contains(m) ==> exists|j: int|
            0 <= j < done.len() && s.measure_id_called(project_id, (#[trigger] done[j]).measure@)
                == m
}

/// Whether every threshold of the scope whose measure is not in `named`
/// among the first `upto` rows is switched off.
spec fn quiet(
    s: StoreState,
    project_id: ProjectId,
    branch_id: BranchId,
    testbed_id: TestbedId,
    named: Set<MeasureId>,
    upto: int,
) -> bool {
    forall|i: int|
        0 <= i < upto && i < s.thresholds.len() && (#[trigger] s.thresholds[i]).in_scope(
            project_id,
            branch_id,
            testbed_id,
        ) && !named.contains(s.thresholds[i].measure_id) ==> s.thresholds[i].model_id is None
}

/// The measures that the first `i` entries name.
spec fn named_upto(s: StoreState, project_id: ProjectId, entries: Seq<ReportThreshold>, i: int) -> Set<
    MeasureId,
> {
    Set::new(
        |m: MeasureId|
            exists|j: int|
                0 <= j < i && j < entries.len() && s.measure_id_called(
                    project_id,
                    (#[trigger] entries[j]).measure@,
                ) == m,
    )
}

proof fn lemma_resolution_stable(
    s: StoreState,
    project_id: ProjectId,
    name: String,
    uuid: crate::ids::MeasureUuid,
    other: Seq<char>,
)
    requires
        s.wf(),
        s.measure_called(project_id, other) is Some,
    ensures
        s.get_or_create_measure(project_id, name, uuid).0.measure_called(project_id, other)
            == s.measure_called(project_id, other),
        s.get_or_create_measure(project_id, name, uuid).0.measure_id_called(project_id, other)
            == s.measure_id_called(project_id, other),
{
    let s1 = s.get_or_create_measure(project_id, name, uuid).0;
    let q = s.measure_called(project_id, other)->0;
    assert(s.first_measure_at(q, project_id, other));
    assert(s1.measures[q] == s.measures[q]);
    assert(s1.first_measure_at(q, project_id, other)) by {
        assert forall|k: int| 0 <= k < q implies !((#[trigger] s1.measures[k]).project_id
            == project_id && s1.measures[k].name@ == other) by {
            assert(s1.measures[k] == s.measures[k]);
        }
    }
    lemma_measure_called(s1, q, project_id, other);
}

proof fn lemma_resolution_result(
    s: StoreState,
    project_id: ProjectId,
    name: String,
    uuid: crate::ids::MeasureUuid,
)
    requires
        s.wf(),
        s.get_or_create_measure(project_id, name, uuid).1 is Ok,
    ensures
        s.get_or_create_measure(project_id, name, uuid).0.measure_called(project_id, name@)
            is Some,
        Ok::<MeasureId, crate::error::ApiError>(
            s.get_or_create_measure(project_id, name, uuid).0.measure_id_called(
                project_id,
                name@,
            ),
        ) == s.get_or_create_measure(project_id, name, uuid).1,
{
    let s1 = s.get_or_create_measure(project_id, name, uuid).0;
    match s.measure_called(project_id, name@) {
        Some(i) => {},
        None => {
            let last = s.measures.len() as int;
            assert(s.can_insert_measure(uuid, project_id, name@));
            assert(s1.first_measure_at(last, project_id, name@)) by {
                assert forall|k: int| 0 <= k < last implies !((
                #[trigger] s1.measures[k]).project_id == project_id && s1.measures[k].name@
                    == name@) by {
                    assert(s1.measures[k] == s.measures[k]);
                }
            }
            lemma_measure_called(s1, last, project_id, name@);
        },
    }
}

proof fn lemma_measures_kept(s1: StoreState, s2: StoreState, project_id: ProjectId, name: Seq<char>)
    requires
        s1.measures == s2.measures,
        s1.measure_called(project_id, name) is Some,
    ensures
        s2.measure_called(project_id, name) == s1.measure_called(project_id, name),
        s2.measure_id_called(project_id, name) == s1.measure_id_called(project_id, name),
{
    let q = s1.measure_called(project_id, name)->0;
    assert(s1.first_measure_at(q, project_id, name));
    assert(s2.first_measure_at(q, project_id, name));
    lemma_measure_called(s2, q, project_id, name);
}

proof fn lemma_in_force_kept(
    s1: StoreState,
    s2: StoreState,
    project_id: ProjectId,
    branch_id: BranchId,
    testbed_id: TestbedId,
    name: Seq<char>,
    model: Model,
)
    requires
        s2.wf(),
        s2.extends(s1),
        s1.in_force(project_id, branch_id, testbed_id, name, model),
        s2.measure_called(project_id, name) == s1.measure_called(project_id, name),
        s2.measure_id_called(project_id, name) == s1.measure_id_called(project_id, name),
        0 <= s1.target_position(
            project_id,
            branch_id,
            testbed_id,
            s1.measure_id_called(project_id, name),
        )->0 < s1.thresholds.len() ==> s2.thresholds[s1.target_position(
            project_id,
            branch_id,
            testbed_id,
            s1.measure_id_called(project_id, name),
        )->0] == s1.thresholds[s1.target_position(
            project_id,
            branch_id,
            testbed_id,
            s1.measure_id_called(project_id, name),
        )->0],
    ensures
        s2.in_force(project_id, branch_id, testbed_id, name, model),
{
    let m = s1.measure_id_called(project_id, name);
    let i = s1.target_position(project_id, branch_id, testbed_id, m)->0;
    assert(0 <= i < s1.thresholds.len() && s1.thresholds[i].watches(
        project_id,
        branch_id,
        testbed_id,
        m,
    ));
    lemma_target_position(s2, i, project_id, branch_id, testbed_id, m);
    let mid = s1.thresholds[i].model_id->0;
    assert((crate::model::QueryModel {
        replaced: s1.models[mid.0 - 1].replaced,
        ..s2.models[mid.0 - 1]
    }) == s1.models[mid.0 - 1]);
}

proof fn lemma_entry_settles(
    s: StoreState,
    project_id: ProjectId,
    branch_id: BranchId,
    testbed_id: TestbedId,
    named: Set<MeasureId>,
    done: Seq<ReportThreshold>,
    e: ReportThreshold,
    now: DateTime,
)
    requires
        s.wf(),
        settled(s, project_id, branch_id, testbed_id, named, done),
        s.reconcile_entry(project_id, branch_id, testbed_id, named, e, now).result is Ok,
    ensures
        settled(
            s.reconcile_entry(project_id, branch_id, testbed_id, named, e, now).store,
            project_id,
            branch_id,
            testbed_id,
            s.reconcile_entry(project_id, branch_id, testbed_id, named, e, now).named,
            done.push(e),
        ),
{
    let step = s.reconcile_entry(project_id, branch_id, testbed_id, named, e, now);
    let resolved = s.get_or_create_measure(project_id, e.measure, e.measure_uuid);
    let s1 = resolved.0;
    let s2 = step.store;
    let done2 = done.push(e);
    lemma_get_or_create_measure(s, project_id, e.measure, e.measure_uuid);
    lemma_reconcile_entry(s, project_id, branch_id, testbed_id, named, e, now);
    lemma_resolution_result(s, project_id, e.measure, e.measure_uuid);
    let m = s1.measure_id_called(project_id, e.measure@);
    assert(resolved.1 == Ok::<MeasureId, crate::error::ApiError>(m));
    let found = s1.target_position(project_id, branch_id, testbed_id, m);
    // every entry done so far is still resolved and in force after the measure was resolved
    assert forall|j: int| 0 <= j < done.len() implies s1.in_force(
        project_id,
        branch_id,
        testbed_id,
        (#[trigger] done[j]).measure@,
        done[j].model,
    ) && s1.measure_id_called(project_id, done[j].measure@) == s.measure_id_called(
        project_id,
        done[j].measure@,
    ) by {
        lemma_resolution_stable(s, project_id, e.measure, e.measure_uuid, done[j].measure@);
        lemma_in_force_kept(
            s,
            s1,
            project_id,
            branch_id,
            testbed_id,
            done[j].measure@,
            done[j].model,
        );
    }
    // the measure of the entry has not been named before
    if named.contains(m) {
        let j = choose|j: int|
            0 <= j < done.len() && s.measure_id_called(project_id, (#[trigger] done[j]).measure@)
                == m;
        assert(s1.in_force(project_id, branch_id, testbed_id, done[j].measure@, done[j].model));
        let at = found->0;
        assert(s1.thresholds[at].watches(project_id, branch_id, testbed_id, m));
        assert(!s1.target_free(project_id, branch_id, testbed_id, m));
        assert(false);
    }
    assert(s2.measures == s1.measures && s2.extends(s1)) by {
        if found is Some {
            lemma_update_model_if_changed(
                s1,
                s1.thresholds[found->0],
                e.model,
                e.model_uuid,
                now,
            );
        } else {
            lemma_create_threshold(
                s1,
                e.threshold_uuid,
                project_id,
                branch_id,
                testbed_id,
                m,
                e.model,
                e.model_uuid,
                now,
            );
        }
    }
    assert forall|j: int| 0 <= j < done.len() implies s2.in_force(
        project_id,
        branch_id,
        testbed_id,
        (#[trigger] done[j]).measure@,
        done[j].model,
    ) && s2.measure_id_called(project_id, done[j].measure@) == s.measure_id_called(
        project_id,
        done[j].measure@,
    ) by {
        let mj = s1.measure_id_called(project_id, done[j].measure@);
        let ij = s1.target_position(project_id, branch_id, testbed_id, mj)->0;
        assert(named.contains(mj));
        assert(s1.thresholds[ij].watches(project_id, branch_id, testbed_id, mj));
        if found is Some {
            lemma_update_model_if_changed(
                s1,
                s1.thresholds[found->0],
                e.model,
                e.model_uuid,
                now,
            );
            assert(s1.thresholds[found->0].id.0 == found->0 + 1);
            assert(ij != found->0);
        }
        assert(s2.thresholds[ij] == s1.thresholds[ij]);
        lemma_measures_kept(s1, s2, project_id, done[j].measure@);
        lemma_in_force_kept(
            s1,
            s2,
            project_id,
            branch_id,
            testbed_id,
            done[j].measure@,
            done[j].model,
        );
    }
    // the entry itself is in force
    lemma_measures_kept(s1, s2, project_id, e.measure@);
    assert(s2.in_force(project_id, branch_id, testbed_id, e.measure@, e.model)) by {
        if found is Some {
            let at = found->0;
            let row = s1.thresholds[at];
            assert(row.id.0 == at + 1);
            assert(row.watches(project_id, branch_id, testbed_id, m));
            lemma_update_model_if_changed(s1, row, e.model, e.model_uuid, now);
            assert((crate::threshold::QueryThreshold {
                model_id: s1.thresholds[at].model_id,
                modified: s1.thresholds[at].modified,
                ..s2.thresholds[at]
            }) == s1.thresholds[at]);
            assert(s2.thresholds[at].watches(project_id, branch_id, testbed_id, m));
            lemma_target_position(s2, at, project_id, branch_id, testbed_id, m);
            if row.model_id is Some && s1.has_model(row.model_id->0) && s1.model(
                row.model_id->0,
            ).model == e.model {
                assert(s2 == s1);
            } else {
                let ins = crate::model::InsertModel {
                    uuid: e.model_uuid,
                    threshold_id: row.id,
                    model: e.model,
                    created: now,
                    replaced: None,
                };
                let written = s1.insert_model(ins);
                assert(written.1 is Ok);
                let new_id = crate::ids::ModelId(written.0.models.len() as i32);
                assert(written.0.model_of(new_id, row.id));
                assert(s2.thresholds[at].model_id == Some(new_id));
                assert(s2.has_model(new_id));
                assert(s2.model(new_id).model == e.model);
            }
        } else {
            let at = s1.thresholds.len() as int;
            lemma_create_threshold(
                s1,
                e.threshold_uuid,
                project_id,
                branch_id,
                testbed_id,
                m,
                e.model,
                e.model_uuid,
                now,
            );
            let first = s1.insert_threshold(
                crate::threshold::InsertThreshold {
                    uuid: e.threshold_uuid,
                    project_id,
                    branch_id,
                    testbed_id,
                    measure_id: m,
                    model_id: None,
                    created: now,
                    modified: now,
                },
            );
            assert(first.1 is Ok);
            let threshold_id = ThresholdId(first.0.thresholds.len() as i32);
            let second = first.0.insert_model(
                crate::model::InsertModel {
                    uuid: e.model_uuid,
                    threshold_id,
                    model: e.model,
                    created: now,
                    replaced: None,
                },
            );
            assert(second.1 is Ok);
            let new_id = crate::ids::ModelId(second.0.models.len() as i32);
            assert(second.0.model_of(new_id, threshold_id));
            assert(s2.thresholds.len() == at + 1);
            assert(s2.thresholds[at].watches(project_id, branch_id, testbed_id, m));
            assert(s2.thresholds[at].model_id == Some(new_id));
            assert(s2.model(new_id).model == e.model);
            lemma_target_position(s2, at, project_id, branch_id, testbed_id, m);
        }
    }
    assert forall|j: int| 0 <= j < done2.len() implies s2.in_force(
        project_id,
        branch_id,
        testbed_id,
        (#[trigger] done2[j]).measure@,
        done2[j].model,
    ) && step.named.contains(s2.measure_id_called(project_id, done2[j].measure@)) by {
        if j < done.len() {
            assert(done2[j] == done[j]);
        }
    }
    assert forall|j: int, k: int| 0 <= j < k < done2.len() implies s2.measure_id_called(
        project_id,
        (#[trigger] done2[j]).measure@,
    ) != s2.measure_id_called(project_id, (#[trigger] done2[k]).measure@) by {
        assert(done2[j] == done[j]);
        if k < done.len() {
            assert(done2[k] == done[k]);
        }
    }
    assert forall|x: MeasureId| #[trigger] step.named.contains(x) implies exists|j: int|
        0 <= j < done2.len() && s2.measure_id_called(project_id, (#[trigger] done2[j]).measure@)
            == x by {
        if x == m {
            assert(done2[done.len() as int] == e);
        } else {
            let j = choose|j: int|
                0 <= j < done.len() && s.measure_id_called(
                    project_id,
                    (#[trigger] done[j]).measure@,
                ) == x;
            assert(done2[j] == done[j]);
        }
    }
}

proof fn lemma_entries_settle(
    s: StoreState,
    project_id: ProjectId,
    branch_id: BranchId,
    testbed_id: TestbedId,
    named: Set<MeasureId>,
    done: Seq<ReportThreshold>,
    rest: Seq<ReportThreshold>,
    now: DateTime,
)
    requires
        s.wf(),
        settled(s, project_id, branch_id, testbed_id, named, done),
        s.reconcile_entries(project_id, branch_id, testbed_id, named, rest, now).result is Ok,
    ensures
        settled(
            s.reconcile_entries(project_id, branch_id, testbed_id, named, rest, now).store,
            project_id,
            branch_id,
            testbed_id,
            s.reconcile_entries(project_id, branch_id, testbed_id, named, rest, now).named,
            done + rest,
        ),
    decreases rest.len(),
{
    if rest.len() == 0 {
        assert(done + rest == done);
    } else {
        let step = s.reconcile_entry(project_id, branch_id, testbed_id, named, rest[0], now);
        lemma_reconcile_entry(s, project_id, branch_id, testbed_id, named, rest[0], now);
        lemma_entry_settles(s, project_id, branch_id, testbed_id, named, done, rest[0], now);
        lemma_entries_settle(
            step.store,
            project_id,
            branch_id,
            testbed_id,
            step.named,
            done.push(rest[0]),
            rest.skip(1),
            now,
        );
        assert(done.push(rest[0]) + rest.skip(1) == done + rest);
    }
}

proof fn lemma_clear_settles(
    s: StoreState,
    project_id: ProjectId,
    branch_id: BranchId,
    testbed_id: TestbedId,
    named: Set<MeasureId>,
    done: Seq<ReportThreshold>,
    now: DateTime,
    upto: int,
)
    requires
        s.wf(),
        settled(s, project_id, branch_id, testbed_id, named, done),
        upto <= s.thresholds.len(),
    ensures
        settled(
            s.clear_unnamed(project_id, branch_id, testbed_id, named, now, upto),
            project_id,
            branch_id,
            testbed_id,
            named,
            done,
        ),
        quiet(
            s.clear_unnamed(project_id, branch_id, testbed_id, named, now, upto),
            project_id,
            branch_id,
            testbed_id,
            named,
            upto,
        ),
    decreases upto,
{
    if upto > 0 {
        let before = s.clear_unnamed(project_id, branch_id, testbed_id, named, now, upto - 1);
        let after = s.clear_unnamed(project_id, branch_id, testbed_id, named, now, upto);
        lemma_clear_settles(s, project_id, branch_id, testbed_id, named, done, now, upto - 1);
        lemma_clear_unnamed(s, project_id, branch_id, testbed_id, named, now, upto - 1);
        lemma_clear_unnamed(s, project_id, branch_id, testbed_id, named, now, upto);
        let row = before.thresholds[upto - 1];
        assert(row == s.thresholds[upto - 1]);
        assert(row.id.0 == upto);
        if row.in_scope(project_id, branch_id, testbed_id) && !named.contains(row.measure_id)
            && row.model_id is Some {
            lemma_remove_current_model(before, row, now);
            assert(after.thresholds[upto - 1].model_id is None);
            assert((crate::threshold::QueryThreshold {
                model_id: before.thresholds[upto - 1].model_id,
                modified: before.thresholds[upto - 1].modified,
                ..after.thresholds[upto - 1]
            }) == before.thresholds[upto - 1]);
            assert forall|j: int| 0 <= j < done.len() implies after.in_force(
                project_id,
                branch_id,
                testbed_id,
                (#[trigger] done[j]).measure@,
                done[j].model,
            ) && after.measure_id_called(project_id, done[j].measure@)
                == before.measure_id_called(project_id, done[j].measure@) by {
                let mj = before.measure_id_called(project_id, done[j].measure@);
                let ij = before.target_position(project_id, branch_id, testbed_id, mj)->0;
                assert(before.thresholds[ij].watches(project_id, branch_id, testbed_id, mj));
                assert(ij != upto - 1);
                assert(after.thresholds[ij] == before.thresholds[ij]);
                lemma_measures_kept(before, after, project_id, done[j].measure@);
                lemma_in_force_kept(
                    before,
                    after,
                    project_id,
                    branch_id,
                    testbed_id,
                    done[j].measure@,
                    done[j].model,
                );
            }
            assert forall|x: MeasureId| #[trigger] named.contains(x) implies exists|j: int|
                0 <= j < done.len() && after.measure_id_called(
                    project_id,
                    (#[trigger] done[j]).measure@,
                ) == x by {
                let j = choose|j: int|
                    0 <= j < done.len() && before.measure_id_called(
                        project_id,
                        (#[trigger] done[j]).measure@,
                    ) == x;
                assert(after.measure_id_called(project_id, done[j].measure@) == x);
            }
            assert forall|i: int|
                0 <= i < upto && i < after.thresholds.len() && (
                #[trigger] after.thresholds[i]).in_scope(project_id, branch_id, testbed_id)
                    && !named.contains(after.thresholds[i].measure_id) implies after.thresholds[i].model_id is None by {
                if i < upto - 1 {
                    assert(after.thresholds[i] == before.thresholds[i]);
                }
            }
        }
    }
}

proof fn lemma_clear_noop(
    s: StoreState,
    project_id: ProjectId,
    branch_id: BranchId,
    testbed_id: TestbedId,
    named: Set<MeasureId>,
    now: DateTime,
    upto: int,
)
    requires
        quiet(s, project_id, branch_id, testbed_id, named, s.thresholds.len() as int),
        upto <= s.thresholds.len(),
    ensures
        s.clear_unnamed(project_id, branch_id, testbed_id, named, now, upto) == s,
    decreases upto,
{
    if upto > 0 {
        lemma_clear_noop(s, project_id, branch_id, testbed_id, named, now, upto - 1);
    }
}

proof fn lemma_entries_noop(
    s: StoreState,
    project_id: ProjectId,
    branch_id: BranchId,
    testbed_id: TestbedId,
    named: Set<MeasureId>,
    entries: Seq<ReportThreshold>,
    i: int,
    now: DateTime,
)
    requires
        s.wf(),
        settled(s, project_id, branch_id, testbed_id, named, entries),
        0 <= i <= entries.len(),
    ensures
        s.reconcile_entries(
            project_id,
            branch_id,
            testbed_id,
            named_upto(s, project_id, entries, i),
            entries.subrange(i, entries.len() as int),
            now,
        ) == (Pass { store: s, named, result: Ok(()) }),
    decreases entries.len() - i,
{
    let rest = entries.subrange(i, entries.len() as int);
    let seen = named_upto(s, project_id, entries, i);
    if i == entries.len() {
        assert(seen =~= named) by {
            assert forall|x: MeasureId| named.contains(x) implies seen.contains(x) by {
                let j = choose|j: int|
                    0 <= j < entries.len() && s.measure_id_called(
                        project_id,
                        (#[trigger] entries[j]).measure@,
                    ) == x;
                assert(entries[j].measure@ == entries[j].measure@);
            }
        }
    } else {
        let e = entries[i];
        assert(rest[0] == e);
        assert(rest.skip(1) == entries.subrange(i + 1, entries.len() as int));
        assert(s.in_force(project_id, branch_id, testbed_id, e.measure@, e.model));
        let m = s.measure_id_called(project_id, e.measure@);
        if seen.contains(m) {
            let j = choose|j: int|
                0 <= j < i && j < entries.len() && s.measure_id_called(
                    project_id,
                    (#[trigger] entries[j]).measure@,
                ) == m;
            assert(s.measure_id_called(project_id, entries[j].measure@) != s.measure_id_called(
                project_id,
                entries[i].measure@,
            ));
            assert(false);
        }
        let step = s.reconcile_entry(project_id, branch_id, testbed_id, seen, e, now);
        assert(step.store == s);
        assert(step.result == Ok::<(), crate::error::ApiError>(()));
        assert(step.named =~= named_upto(s, project_id, entries, i + 1)) by {
            assert forall|x: MeasureId|
                named_upto(s, project_id, entries, i + 1).contains(x) implies step.named.contains(
                x,
            ) by {
                let j = choose|j: int|
                    0 <= j < i + 1 && j < entries.len() && s.measure_id_called(
                        project_id,
                        (#[trigger] entries[j]).measure@,
                    ) == x;
                if j < i {
                    assert(seen.contains(x));
                }
            }
            assert forall|x: MeasureId| step.named.contains(x) implies named_upto(
                s,
                project_id,
                entries,
                i + 1,
            ).contains(x) by {
                if x == m {
                    assert(s.measure_id_called(project_id, entries[i].measure@) == x);
                } else {
                    let j = choose|j: int|
                        0 <= j < i && j < entries.len() && s.measure_id_called(
                            project_id,
                            (#[trigger] entries[j]).measure@,
                        ) == x;
                    assert(s.measure_id_called(project_id, entries[j].measure@) == x);
                }
            }
        }
        lemma_entries_noop(s, project_id, branch_id, testbed_id, named, entries, i + 1, now);
    }
}

/// Reconciliation is idempotent: when a report has been applied to a
/// scope with success, a report that declares the same for that scope
/// succeeds and changes nothing: no row is written, and no stamp of any
/// threshold or model moves.
pub proof fn law_reconcile_idempotent(
    s: StoreState,
    project_id: ProjectId,
    branch_id: BranchId,
    testbed_id: TestbedId,
    first: Seq<ReportThreshold>,
    at: DateTime,
    second: Seq<ReportThreshold>,
    later: DateTime,
)
    requires
        s.wf(),
        same_declaration(first, second),
        s.reconcile(project_id, branch_id, testbed_id, Some(first), at).1 is Ok,
    ensures
        s.reconcile(project_id, branch_id, testbed_id, Some(first), at).0.reconcile(
            project_id,
            branch_id,
            testbed_id,
            Some(second),
            later,
        ) == (
            s.reconcile(project_id, branch_id, testbed_id, Some(first), at).0,
            Ok::<(), crate::error::ApiError>(()),
        ),
{
    let pass = s.reconcile_entries(project_id, branch_id, testbed_id, Set::empty(), first, at);
    let mid = pass.store;
    let named = pass.named;
    let once = mid.clear_unnamed(
        project_id,
        branch_id,
        testbed_id,
        named,
        at,
        mid.thresholds.len() as int,
    );
    let none: Seq<ReportThreshold> = Seq::empty();
    assert(settled(s, project_id, branch_id, testbed_id, Set::empty(), none));
    lemma_entries_settle(s, project_id, branch_id, testbed_id, Set::empty(), none, first, at);
    assert(none + first == first);
    lemma_reconcile_entries(s, project_id, branch_id, testbed_id, Set::empty(), first, at);
    lemma_clear_settles(
        mid,
        project_id,
        branch_id,
        testbed_id,
        named,
        first,
        at,
        mid.thresholds.len() as int,
    );
    lemma_clear_unnamed(
        mid,
        project_id,
        branch_id,
        testbed_id,
        named,
        at,
        mid.thresholds.len() as int,
    );
    assert(settled(once, project_id, branch_id, testbed_id, named, second)) by {
        assert forall|j: int| 0 <= j < second.len() implies once.in_force(
            project_id,
            branch_id,
            testbed_id,
            (#[trigger] second[j]).measure@,
            second[j].model,
        ) && named.contains(once.measure_id_called(project_id, second[j].measure@)) by {
            assert(first[j].measure@ == second[j].measure@);
        }
        assert forall|j: int, k: int| 0 <= j < k < second.len() implies once.measure_id_called(
            project_id,
            (#[trigger] second[j]).measure@,
        ) != once.measure_id_called(project_id, (#[trigger] second[k]).measure@) by {
            assert(first[j].measure@ == second[j].measure@);
            assert(first[k].measure@ == second[k].measure@);
        }
        assert forall|x: MeasureId| #[trigger] named.contains(x) implies exists|j: int|
            0 <= j < second.len() && once.measure_id_called(
                project_id,
                (#[trigger] second[j]).measure@,
            ) == x by {
            let j = choose|j: int|
                0 <= j < first.len() && once.measure_id_called(
                    project_id,
                    (#[trigger] first[j]).measure@,
                ) == x;
            assert(first[j].measure@ == second[j].measure@);
            assert(once.measure_id_called(project_id, second[j].measure@) == x);
        }
    }
    lemma_entries_noop(once, project_id, branch_id, testbed_id, named, second, 0, later);
    assert(second.subrange(0, second.len() as int) == second);
    assert(named_upto(once, project_id, second, 0) =~= Set::<MeasureId>::empty());
    lemma_clear_noop(
        once,
        project_id,
        branch_id,
        testbed_id,
        named,
        later,
        once.thresholds.len() as int,
    );
}

} // verus!
