//! Reconciliation: a report declares, for one branch and testbed of a
//! project, which measures are to be watched and with which model. The
//! thresholds of that scope are brought to what the report declares; what
//! it does not name is switched off, and nothing is ever deleted.

use vstd::prelude::*;
use crate::error::ApiError;
use crate::ids::{
    BranchId, DateTime, MeasureId, MeasureUuid, ModelUuid, ProjectId, TestbedId, ThresholdUuid,
};
use crate::model::Model;
use crate::project::QueryMeasure;
use crate::state::{
    lemma_create_threshold, lemma_extends_trans, lemma_insert_measure_wf,
    lemma_remove_current_model, lemma_update_model_if_changed, StoreState,
};
use crate::store::Store;
use crate::threshold::{InsertThreshold, QueryThreshold};

verus! {

/// One entry of a report: the measure to watch, by name, and the model to
/// watch it with. The three public identifiers are fresh ones, for the rows
/// that may have to be written for this entry.
#[derive(Clone, Debug)]
pub struct ReportThreshold {
    pub measure: String,
    pub model: Model,
    pub measure_uuid: MeasureUuid,
    pub threshold_uuid: ThresholdUuid,
    pub model_uuid: ModelUuid,
}

impl QueryThreshold {
    /// Whether this threshold watches the given branch and testbed of the
    /// given project.
    pub open spec fn in_scope(self, project_id: ProjectId, branch_id: BranchId, testbed_id: TestbedId) -> bool {
        &&& self.project_id == project_id
        &&& self.branch_id == branch_id
        &&& self.testbed_id == testbed_id
    }
}

/// What is left to do for the thresholds of a scope: the store as it
/// stands, and the measures that the report has named so far.
pub struct Pass {
    pub store: StoreState,
    pub named: Set<MeasureId>,
    pub result: Result<(), ApiError>,
}

impl StoreState {
    /// The position of the threshold that watches the given target.
    pub open spec fn target_position(
        self,
        project_id: ProjectId,
        branch_id: BranchId,
        testbed_id: TestbedId,
        measure_id: MeasureId,
    ) -> Option<int> {
        if exists|i: int|
            0 <= i < self.thresholds.len() && (#[trigger] self.thresholds[i]).watches(
                project_id,
                branch_id,
                testbed_id,
                measure_id,
            ) {
            Some(
                choose|i: int|
                    0 <= i < self.thresholds.len() && (#[trigger] self.thresholds[i]).watches(
                        project_id,
                        branch_id,
                        testbed_id,
                        measure_id,
                    ),
            )
        } else {
            None
        }
    }

    /// One entry of a report applied to a scope. The measure is resolved,
    /// and written where it is new. A threshold of the scope that watches
    /// it, and that the report has not named before, is brought to the
    /// model of the entry; otherwise a threshold is created for it, which
    /// fails where the scope has one already.
    pub open spec fn reconcile_entry(
        self,
        project_id: ProjectId,
        branch_id: BranchId,
        testbed_id: TestbedId,
        named: Set<MeasureId>,
        entry: ReportThreshold,
        now: DateTime,
    ) -> Pass {
        let resolved = self.get_or_create_measure(project_id, entry.measure, entry.measure_uuid);
        match resolved.1 {
            Err(e) => Pass { store: resolved.0, named, result: Err(e) },
            Ok(measure_id) => {
                let found = resolved.0.target_position(
                    project_id,
                    branch_id,
                    testbed_id,
                    measure_id,
                );
                if found is Some && !named.contains(measure_id) {
                    let updated = resolved.0.update_model_if_changed(
                        resolved.0.thresholds[found->0],
                        entry.model,
                        entry.model_uuid,
                        now,
                    );
                    Pass { store: updated.0, named: named.insert(measure_id), result: updated.1 }
                } else {
                    let created = resolved.0.create_threshold(
                        entry.threshold_uuid,
                        project_id,
                        branch_id,
                        testbed_id,
                        measure_id,
                        entry.model,
                        entry.model_uuid,
                        now,
                    );
                    Pass {
                        store: created.0,
                        named: named.insert(measure_id),
                        result: match created.1 {
                            Ok(_) => Ok(()),
                            Err(e) => Err(e),
                        },
                    }
                }
            },
        }
    }

    /// The entries of a report applied to a scope, one after the other,
    /// up to the first that fails. What was written before a failure stays.
    pub open spec fn reconcile_entries(
        self,
        project_id: ProjectId,
        branch_id: BranchId,
        testbed_id: TestbedId,
        named: Set<MeasureId>,
        entries: Seq<ReportThreshold>,
        now: DateTime,
    ) -> Pass
        decreases entries.len(),
    {
        if entries.len() == 0 {
            Pass { store: self, named, result: Ok(()) }
        } else {
            let step = self.reconcile_entry(
                project_id,
                branch_id,
                testbed_id,
                named,
                entries[0],
                now,
            );
            if step.result is Err {
                step
            } else {
                step.store.reconcile_entries(
                    project_id,
                    branch_id,
                    testbed_id,
                    step.named,
                    entries.skip(1),
                    now,
                )
            }
        }
    }

    /// The store after every threshold of the scope among the first `upto`
    /// rows whose measure is not in `named`, and which has a model in
    /// force, was switched off at `now`. A threshold that is switched off
    /// already is left as it is.
    pub open spec fn clear_unnamed(
        self,
        project_id: ProjectId,
        branch_id: BranchId,
        testbed_id: TestbedId,
        named: Set<MeasureId>,
        now: DateTime,
        upto: int,
    ) -> StoreState
        decreases upto,
    {
        if upto <= 0 {
            self
        } else {
            let before = self.clear_unnamed(
                project_id,
                branch_id,
                testbed_id,
                named,
                now,
                upto - 1,
            );
            let row = before.thresholds[upto - 1];
            if row.in_scope(project_id, branch_id, testbed_id) && !named.contains(row.measure_id)
                && row.model_id is Some {
                before.remove_current_model(row, now)
            } else {
                before
            }
        }
    }

    /// A report applied to the scope (project, branch, testbed) at `now`,
    /// and what the attempt answers. Without a list of thresholds the
    /// report changes nothing. With one, its entries are applied in order;
    /// when none has failed, every threshold of the scope whose measure
    /// the report did not name, and which has a model in force, is switched
    /// off.
    pub open spec fn reconcile(
        self,
        project_id: ProjectId,
        branch_id: BranchId,
        testbed_id: TestbedId,
        report: Option<Seq<ReportThreshold>>,
        now: DateTime,
    ) -> (StoreState, Result<(), ApiError>) {
        match report {
            None => (self, Ok(())),
            Some(entries) => {
                let pass = self.reconcile_entries(
                    project_id,
                    branch_id,
                    testbed_id,
                    Set::empty(),
                    entries,
                    now,
                );
                if pass.result is Err {
                    (pass.store, pass.result)
                } else {
                    (
                        pass.store.clear_unnamed(
                            project_id,
                            branch_id,
                            testbed_id,
                            pass.named,
                            now,
                            pass.store.thresholds.len() as int,
                        ),
                        Ok(()),
                    )
                }
            },
        }
    }
}

/// In a store that keeps its constraints, a threshold found to watch a
/// target is the one that `target_position` names.
pub proof fn lemma_target_position(
    s: StoreState,
    i: int,
    project_id: ProjectId,
    branch_id: BranchId,
    testbed_id: TestbedId,
    measure_id: MeasureId,
)
    requires
        s.wf(),
        0 <= i < s.thresholds.len(),
        s.thresholds[i].watches(project_id, branch_id, testbed_id, measure_id),
    ensures
        s.target_position(project_id, branch_id, testbed_id, measure_id) == Some(i),
{
    let j = choose|j: int|
        0 <= j < s.thresholds.len() && (#[trigger] s.thresholds[j]).watches(
            project_id,
            branch_id,
            testbed_id,
            measure_id,
        );
    if i < j {
        assert(!s.thresholds[i].same_target(s.thresholds[j]));
    } else if j < i {
        assert(!s.thresholds[j].same_target(s.thresholds[i]));
    }
}

/// Resolving a measure keeps the constraints of the tables, the
/// thresholds and the models, and only adds to the store.
pub proof fn lemma_get_or_create_measure(
    s: StoreState,
    project_id: ProjectId,
    name: String,
    uuid: MeasureUuid,
)
    requires
        s.wf(),
    ensures
        s.get_or_create_measure(project_id, name, uuid).0.wf(),
        s.get_or_create_measure(project_id, name, uuid).0.extends(s),
        s.get_or_create_measure(project_id, name, uuid).0.thresholds == s.thresholds,
        s.get_or_create_measure(project_id, name, uuid).0.models == s.models,
        s.consistent() ==> s.get_or_create_measure(project_id, name, uuid).0.consistent(),
{
    lemma_insert_measure_wf(s, uuid, project_id, name);
    lemma_extends_trans(s, s, s);
}

/// One entry of a report keeps the constraints of the tables and the
/// order of every history, and only adds to the store.
pub proof fn lemma_reconcile_entry(
    s: StoreState,
    project_id: ProjectId,
    branch_id: BranchId,
    testbed_id: TestbedId,
    named: Set<MeasureId>,
    entry: ReportThreshold,
    now: DateTime,
)
    requires
        s.wf(),
    ensures
        s.reconcile_entry(project_id, branch_id, testbed_id, named, entry, now).store.wf(),
        s.reconcile_entry(project_id, branch_id, testbed_id, named, entry, now).store.extends(s),
        s.consistent() ==> s.reconcile_entry(
            project_id,
            branch_id,
            testbed_id,
            named,
            entry,
            now,
        ).store.consistent(),
{
    let resolved = s.get_or_create_measure(project_id, entry.measure, entry.measure_uuid);
    lemma_get_or_create_measure(s, project_id, entry.measure, entry.measure_uuid);
    match resolved.1 {
        Err(e) => {},
        Ok(measure_id) => {
            let found = resolved.0.target_position(project_id, branch_id, testbed_id, measure_id);
            if found is Some && !named.contains(measure_id) {
                let row = resolved.0.thresholds[found->0];
                assert(resolved.0.holds(row));
                lemma_update_model_if_changed(resolved.0, row, entry.model, entry.model_uuid, now);
                lemma_extends_trans(
                    s,
                    resolved.0,
                    resolved.0.update_model_if_changed(row, entry.model, entry.model_uuid, now).0,
                );
            } else {
                lemma_create_threshold(
                    resolved.0,
                    entry.threshold_uuid,
                    project_id,
                    branch_id,
                    testbed_id,
                    measure_id,
                    entry.model,
                    entry.model_uuid,
                    now,
                );
                lemma_extends_trans(
                    s,
                    resolved.0,
                    resolved.0.create_threshold(
                        entry.threshold_uuid,
                        project_id,
                        branch_id,
                        testbed_id,
                        measure_id,
                        entry.model,
                        entry.model_uuid,
                        now,
                    ).0,
                );
            }
        },
    }
}

/// The entries of a report keep the constraints of the tables and the
/// order of every history, and only add to the store.
pub proof fn lemma_reconcile_entries(
    s: StoreState,
    project_id: ProjectId,
    branch_id: BranchId,
    testbed_id: TestbedId,
    named: Set<MeasureId>,
    entries: Seq<ReportThreshold>,
    now: DateTime,
)
    requires
        s.wf(),
    ensures
        s.reconcile_entries(project_id, branch_id, testbed_id, named, entries, now).store.wf(),
        s.reconcile_entries(project_id, branch_id, testbed_id, named, entries, now).store.extends(
            s,
        ),
        s.consistent() ==> s.reconcile_entries(
            project_id,
            branch_id,
            testbed_id,
            named,
            entries,
            now,
        ).store.consistent(),
    decreases entries.len(),
{
    lemma_extends_trans(s, s, s);
    if entries.len() > 0 {
        let step = s.reconcile_entry(project_id, branch_id, testbed_id, named, entries[0], now);
        lemma_reconcile_entry(s, project_id, branch_id, testbed_id, named, entries[0], now);
        if step.result is Ok {
            lemma_reconcile_entries(
                step.store,
                project_id,
                branch_id,
                testbed_id,
                step.named,
                entries.skip(1),
                now,
            );
            lemma_extends_trans(
                s,
                step.store,
                step.store.reconcile_entries(
                    project_id,
                    branch_id,
                    testbed_id,
                    step.named,
                    entries.skip(1),
                    now,
                ).store,
            );
        }
    }
}

/// Switching off what a report did not name keeps the constraints of the
/// tables and the order of every history, only adds to the store, writes no
/// row, and leaves the rows from `upto` on as they were.
pub proof fn lemma_clear_unnamed(
    s: StoreState,
    project_id: ProjectId,
    branch_id: BranchId,
    testbed_id: TestbedId,
    named: Set<MeasureId>,
    now: DateTime,
    upto: int,
)
    requires
        s.wf(),
        upto <= s.thresholds.len(),
    ensures
        s.clear_unnamed(project_id, branch_id, testbed_id, named, now, upto).wf(),
        s.clear_unnamed(project_id, branch_id, testbed_id, named, now, upto).extends(s),
        s.consistent() ==> s.clear_unnamed(
            project_id,
            branch_id,
            testbed_id,
            named,
            now,
            upto,
        ).consistent(),
        s.clear_unnamed(project_id, branch_id, testbed_id, named, now, upto).measures
            == s.measures,
        s.clear_unnamed(project_id, branch_id, testbed_id, named, now, upto).models.len()
            == s.models.len(),
        s.clear_unnamed(project_id, branch_id, testbed_id, named, now, upto).thresholds.len()
            == s.thresholds.len(),
        forall|i: int|
            upto <= i < s.thresholds.len() && 0 <= i ==> (#[trigger] s.clear_unnamed(
                project_id,
                branch_id,
                testbed_id,
                named,
                now,
                upto,
            ).thresholds[i]) == s.thresholds[i],
    decreases upto,
{
    lemma_extends_trans(s, s, s);
    if upto > 0 {
        let before = s.clear_unnamed(project_id, branch_id, testbed_id, named, now, upto - 1);
        lemma_clear_unnamed(s, project_id, branch_id, testbed_id, named, now, upto - 1);
        let row = before.thresholds[upto - 1];
        assert(row == s.thresholds[upto - 1]);
        assert(before.holds(row));
        lemma_remove_current_model(before, row, now);
        lemma_extends_trans(s, before, before.remove_current_model(row, now));
    }
}

/// A report keeps the constraints of the tables and the order of every
/// history, and only adds to the store.
pub proof fn lemma_reconcile(
    s: StoreState,
    project_id: ProjectId,
    branch_id: BranchId,
    testbed_id: TestbedId,
    report: Option<Seq<ReportThreshold>>,
    now: DateTime,
)
    requires
        s.wf(),
    ensures
        s.reconcile(project_id, branch_id, testbed_id, report, now).0.wf(),
        s.reconcile(project_id, branch_id, testbed_id, report, now).0.extends(s),
        s.consistent() ==> s.reconcile(
            project_id,
            branch_id,
            testbed_id,
            report,
            now,
        ).0.consistent(),
{
    lemma_extends_trans(s, s, s);
    match report {
        None => {},
        Some(entries) => {
            let pass = s.reconcile_entries(
                project_id,
                branch_id,
                testbed_id,
                Set::empty(),
                entries,
                now,
            );
            lemma_reconcile_entries(
                s,
                project_id,
                branch_id,
                testbed_id,
                Set::empty(),
                entries,
                now,
            );
            if pass.result is Ok {
                lemma_clear_unnamed(
                    pass.store,
                    project_id,
                    branch_id,
                    testbed_id,
                    pass.named,
                    now,
                    pass.store.thresholds.len() as int,
                );
                lemma_extends_trans(
                    s,
                    pass.store,
                    pass.store.clear_unnamed(
                        project_id,
                        branch_id,
                        testbed_id,
                        pass.named,
                        now,
                        pass.store.thresholds.len() as int,
                    ),
                );
            }
        },
    }
}

/// The list of thresholds of a report, as a sequence of entries.
pub open spec fn report_view(thresholds: Option<Vec<ReportThreshold>>) -> Option<
    Seq<ReportThreshold>,
> {
    match thresholds {
        Some(entries) => Some(entries@),
        None => None,
    }
}

/// Whether `working` holds, in the order of the table and at the positions
/// `pos`, exactly the thresholds of the scope whose measure is not in
/// `named`.
spec fn working_set(
    s: StoreState,
    project_id: ProjectId,
    branch_id: BranchId,
    testbed_id: TestbedId,
    named: Set<MeasureId>,
    working: Seq<QueryThreshold>,
    pos: Seq<int>,
) -> bool {
    &&& pos.len() == working.len()
    &&& forall|k: int|
        0 <= k < working.len() ==> 0 <= #[trigger] pos[k] < s.thresholds.len() && working[k]
            == s.thresholds[pos[k]] && working[k].in_scope(project_id, branch_id, testbed_id)
            && !named.contains(working[k].measure_id)
    &&& forall|j: int, k: int| 0 <= j < k < pos.len() ==> #[trigger] pos[j] < #[trigger] pos[k]
    &&& forall|i: int|
        0 <= i < s.thresholds.len() && (#[trigger] s.thresholds[i]).in_scope(
            project_id,
            branch_id,
            testbed_id,
        ) && !named.contains(s.thresholds[i].measure_id) ==> exists|k: int|
            0 <= k < pos.len() && #[trigger] pos[k] == i
}

proof fn lemma_working_after_update(
    s: StoreState,
    after: StoreState,
    project_id: ProjectId,
    branch_id: BranchId,
    testbed_id: TestbedId,
    named: Set<MeasureId>,
    working: Seq<QueryThreshold>,
    pos: Seq<int>,
    k: int,
)
    requires
        s.wf(),
        working_set(s, project_id, branch_id, testbed_id, named, working, pos),
        0 <= k < working.len(),
        after.touches_only(s, working[k].id),
        after.extends(s),
    ensures
        working_set(
            after,
            project_id,
            branch_id,
            testbed_id,
            named.insert(working[k].measure_id),
            working.remove(k),
            pos.remove(k),
        ),
{
    let m = working[k].measure_id;
    let named2 = named.insert(m);
    let working2 = working.remove(k);
    let pos2 = pos.remove(k);
    assert(s.thresholds[pos[k]].id.0 == pos[k] + 1);
    assert forall|q: int| 0 <= q < working2.len() implies 0 <= #[trigger] pos2[q]
        < after.thresholds.len() && working2[q] == after.thresholds[pos2[q]]
        && working2[q].in_scope(project_id, branch_id, testbed_id) && !named2.contains(
        working2[q].measure_id,
    ) by {
        let o = if q < k { q } else { q + 1 };
        assert(pos2[q] == pos[o]);
        assert(working2[q] == working[o]);
        if o < k {
            assert(pos[o] < pos[k]);
            assert(!s.thresholds[pos[o]].same_target(s.thresholds[pos[k]]));
        } else {
            assert(pos[k] < pos[o]);
            assert(!s.thresholds[pos[k]].same_target(s.thresholds[pos[o]]));
        }
        assert(after.thresholds[pos[o]] == s.thresholds[pos[o]]);
    }
    assert forall|a: int, b: int| 0 <= a < b < pos2.len() implies #[trigger] pos2[a]
        < #[trigger] pos2[b] by {
        let oa = if a < k { a } else { a + 1 };
        let ob = if b < k { b } else { b + 1 };
        assert(pos[oa] < pos[ob]);
    }
    assert forall|i: int|
        0 <= i < after.thresholds.len() && (#[trigger] after.thresholds[i]).in_scope(
            project_id,
            branch_id,
            testbed_id,
        ) && !named2.contains(after.thresholds[i].measure_id) implies exists|q: int|
        0 <= q < pos2.len() && #[trigger] pos2[q] == i by {
        if i == pos[k] {
            assert((QueryThreshold {
                model_id: s.thresholds[i].model_id,
                modified: s.thresholds[i].modified,
                ..after.thresholds[i]
            }) == s.thresholds[i]);
            assert(false);
        } else {
            assert(after.thresholds[i] == s.thresholds[i]);
            let o = choose|o: int| 0 <= o < pos.len() && #[trigger] pos[o] == i;
            let q = if o < k { o } else { o - 1 };
            assert(pos2[q] == i);
        }
    }
}

proof fn lemma_working_after_create(
    s: StoreState,
    after: StoreState,
    project_id: ProjectId,
    branch_id: BranchId,
    testbed_id: TestbedId,
    named: Set<MeasureId>,
    working: Seq<QueryThreshold>,
    pos: Seq<int>,
    measure_id: MeasureId,
)
    requires
        working_set(s, project_id, branch_id, testbed_id, named, working, pos),
        forall|k: int| 0 <= k < working.len() ==> (#[trigger] working[k]).measure_id != measure_id,
        after.thresholds.len() == s.thresholds.len() + 1,
        forall|i: int|
            0 <= i < s.thresholds.len() ==> (#[trigger] after.thresholds[i]) == s.thresholds[i],
        after.thresholds[s.thresholds.len() as int].measure_id == measure_id,
    ensures
        working_set(
            after,
            project_id,
            branch_id,
            testbed_id,
            named.insert(measure_id),
            working,
            pos,
        ),
{
    let named2 = named.insert(measure_id);
    assert forall|i: int|
        0 <= i < after.thresholds.len() && (#[trigger] after.thresholds[i]).in_scope(
            project_id,
            branch_id,
            testbed_id,
        ) && !named2.contains(after.thresholds[i].measure_id) implies exists|q: int|
        0 <= q < pos.len() && #[trigger] pos[q] == i by {
        assert(i < s.thresholds.len());
        assert(after.thresholds[i] == s.thresholds[i]);
    }
}

/// Where no threshold at the positions from `from` up to `to` is one of
/// the scope with an unnamed measure, switching off up to `to` is switching
/// off up to `from`.
proof fn lemma_clear_skip(
    s: StoreState,
    project_id: ProjectId,
    branch_id: BranchId,
    testbed_id: TestbedId,
    named: Set<MeasureId>,
    now: DateTime,
    from: int,
    to: int,
)
    requires
        s.wf(),
        0 <= from <= to <= s.thresholds.len(),
        forall|i: int|
            from <= i < to ==> !((#[trigger] s.thresholds[i]).in_scope(
                project_id,
                branch_id,
                testbed_id,
            ) && !named.contains(s.thresholds[i].measure_id) && s.thresholds[i].model_id is Some),
    ensures
        s.clear_unnamed(project_id, branch_id, testbed_id, named, now, to) == s.clear_unnamed(
            project_id,
            branch_id,
            testbed_id,
            named,
            now,
            from,
        ),
    decreases to - from,
{
    if from < to {
        lemma_clear_skip(s, project_id, branch_id, testbed_id, named, now, from, to - 1);
        lemma_clear_unnamed(s, project_id, branch_id, testbed_id, named, now, to - 1);
        let before = s.clear_unnamed(project_id, branch_id, testbed_id, named, now, to - 1);
        assert(before.thresholds[to - 1] == s.thresholds[to - 1]);
    }
}

/// The thresholds of a scope, in the order of the table.
fn load_scope(conn: &Store, project_id: ProjectId, branch_id: BranchId, testbed_id: TestbedId) -> (r:
    (Vec<QueryThreshold>, Ghost<Seq<int>>))
    ensures
        working_set(conn@, project_id, branch_id, testbed_id, Set::empty(), r.0@, r.1@),
{
    let rows = conn.thresholds();
    let mut working: Vec<QueryThreshold> = Vec::new();
    let ghost mut pos: Seq<int> = Seq::empty();
    let mut i: usize = 0;
    while i < rows.len()
        invariant
            i <= rows.len(),
            rows@ == conn@.thresholds,
            pos.len() == working@.len(),
            forall|k: int|
                0 <= k < working@.len() ==> 0 <= #[trigger] pos[k] < i && working@[k] == rows@[pos[k]]
                    && working@[k].in_scope(project_id, branch_id, testbed_id),
            forall|j: int, k: int| 0 <= j < k < pos.len() ==> #[trigger] pos[j] < #[trigger] pos[k],
            forall|q: int|
                0 <= q < i && (#[trigger] rows@[q]).in_scope(project_id, branch_id, testbed_id)
                    ==> exists|k: int| 0 <= k < pos.len() && #[trigger] pos[k] == q,
        decreases rows.len() - i,
    {
        let row = rows[i];
        if row.project_id == project_id && row.branch_id == branch_id && row.testbed_id
            == testbed_id {
            working.push(row);
            proof {
                let ghost before = pos;
                pos = pos.push(i as int);
                assert forall|q: int|
                    0 <= q < i + 1 && (#[trigger] rows@[q]).in_scope(
                        project_id,
                        branch_id,
                        testbed_id,
                    ) implies exists|k: int| 0 <= k < pos.len() && #[trigger] pos[k] == q by {
                    if q < i {
                        let k = choose|k: int| 0 <= k < before.len() && #[trigger] before[k] == q;
                        assert(pos[k] == q);
                    } else {
                        assert(pos[pos.len() - 1] == q);
                    }
                }
            }
        }
        i += 1;
    }
    (working, Ghost(pos))
}

/// A position in `rows` of a threshold about `measure_id`.
fn position_of_measure(rows: &Vec<QueryThreshold>, measure_id: MeasureId) -> (r: Option<usize>)
    ensures
        match r {
            Some(k) => k < rows.len() && rows@[k as int].measure_id == measure_id,
            None => forall|k: int|
                0 <= k < rows.len() ==> (#[trigger] rows@[k]).measure_id != measure_id,
        },
{
    let mut k: usize = 0;
    while k < rows.len()
        invariant
            k <= rows.len(),
            forall|j: int| 0 <= j < k ==> (#[trigger] rows@[j]).measure_id != measure_id,
        decreases rows.len() - k,
    {
        if rows[k].measure_id == measure_id {
            return Some(k);
        }
        k += 1;
    }
    None
}

/// Applies one entry of a report; `working` is the working set of the pass.
fn apply_entry(
    conn: &mut Store,
    project_id: ProjectId,
    branch_id: BranchId,
    testbed_id: TestbedId,
    current_thresholds: &mut Vec<QueryThreshold>,
    entry: &ReportThreshold,
    now: DateTime,
    Ghost(named): Ghost<Set<MeasureId>>,
    Ghost(pos): Ghost<Seq<int>>,
) -> (r: (Result<(), ApiError>, Ghost<Seq<int>>))
    requires
        old(conn)@.wf(),
        working_set(
            old(conn)@,
            project_id,
            branch_id,
            testbed_id,
            named,
            old(current_thresholds)@,
            pos,
        ),
    ensures
        final(conn)@.wf(),
        final(conn)@ == old(conn)@.reconcile_entry(
            project_id,
            branch_id,
            testbed_id,
            named,
            *entry,
            now,
        ).store,
        r.0 == old(conn)@.reconcile_entry(
            project_id,
            branch_id,
            testbed_id,
            named,
            *entry,
            now,
        ).result,
        r.0 is Ok ==> working_set(
            final(conn)@,
            project_id,
            branch_id,
            testbed_id,
            old(conn)@.reconcile_entry(
                project_id,
                branch_id,
                testbed_id,
                named,
                *entry,
                now,
            ).named,
            final(current_thresholds)@,
            r.1@,
        ),
{
    let ghost before = conn@;
    proof {
        lemma_get_or_create_measure(before, project_id, entry.measure, entry.measure_uuid);
    }
    let measure_id = match QueryMeasure::get_or_create(
        conn,
        project_id,
        &entry.measure,
        entry.measure_uuid,
    ) {
        Ok(measure_id) => measure_id,
        Err(e) => { return (Err(e), Ghost(pos)); },
    };
    let ghost resolved = conn@;
    match position_of_measure(current_thresholds, measure_id) {
        Some(k) => {
            let ghost working = current_thresholds@;
            let current_threshold = current_thresholds.remove(k);
            proof {
                lemma_target_position(
                    resolved,
                    pos[k as int],
                    project_id,
                    branch_id,
                    testbed_id,
                    measure_id,
                );
                lemma_update_model_if_changed(
                    resolved,
                    current_threshold,
                    entry.model,
                    entry.model_uuid,
                    now,
                );
            }
            let updated = current_threshold.update_model_if_changed(
                conn,
                entry.model,
                entry.model_uuid,
                now,
            );
            proof {
                lemma_working_after_update(
                    resolved,
                    conn@,
                    project_id,
                    branch_id,
                    testbed_id,
                    named,
                    working,
                    pos,
                    k as int,
                );
            }
            (updated, Ghost(pos.remove(k as int)))
        },
        None => {
            proof {
                if resolved.target_position(project_id, branch_id, testbed_id, measure_id) is Some
                    && !named.contains(measure_id) {
                    let at = resolved.target_position(
                        project_id,
                        branch_id,
                        testbed_id,
                        measure_id,
                    )->0;
                    assert(resolved.thresholds[at].in_scope(project_id, branch_id, testbed_id));
                    let q = choose|q: int| 0 <= q < pos.len() && #[trigger] pos[q] == at;
                    assert(current_thresholds@[q].measure_id == measure_id);
                    assert(false);
                }
            }
            match InsertThreshold::from_json(
                conn,
                entry.threshold_uuid,
                project_id,
                branch_id,
                testbed_id,
                measure_id,
                entry.model,
                entry.model_uuid,
                now,
            ) {
                Ok(_) => {},
                Err(e) => { return (Err(e), Ghost(pos)); },
            }
            proof {
                lemma_working_after_create(
                    resolved,
                    conn@,
                    project_id,
                    branch_id,
                    testbed_id,
                    named,
                    current_thresholds@,
                    pos,
                    measure_id,
                );
            }
            (Ok(()), Ghost(pos))
        },
    }
}

/// Switches off the thresholds of the working set.
fn clear_remaining(
    conn: &mut Store,
    project_id: ProjectId,
    branch_id: BranchId,
    testbed_id: TestbedId,
    current_thresholds: &Vec<QueryThreshold>,
    now: DateTime,
    Ghost(named): Ghost<Set<MeasureId>>,
    Ghost(pos): Ghost<Seq<int>>,
)
    requires
        old(conn)@.wf(),
        working_set(
            old(conn)@,
            project_id,
            branch_id,
            testbed_id,
            named,
            current_thresholds@,
            pos,
        ),
    ensures
        final(conn)@ == old(conn)@.clear_unnamed(
            project_id,
            branch_id,
            testbed_id,
            named,
            now,
            old(conn)@.thresholds.len() as int,
        ),
{
    let ghost fin = conn@;
    proof {
        lemma_clear_skip(
            fin,
            project_id,
            branch_id,
            testbed_id,
            named,
            now,
            0,
            if current_thresholds@.len() > 0 {
                pos[0]
            } else {
                fin.thresholds.len() as int
            },
        );
    }
    let mut k: usize = 0;
    while k < current_thresholds.len()
        invariant
            k <= current_thresholds.len(),
            fin.wf(),
            conn@.wf(),
            working_set(fin, project_id, branch_id, testbed_id, named, current_thresholds@, pos),
            conn@ == fin.clear_unnamed(
                project_id,
                branch_id,
                testbed_id,
                named,
                now,
                if k < current_thresholds@.len() {
                    pos[k as int]
                } else {
                    fin.thresholds.len() as int
                },
            ),
        decreases current_thresholds.len() - k,
    {
        let current_threshold = current_thresholds[k];
        proof {
            lemma_clear_unnamed(fin, project_id, branch_id, testbed_id, named, now, pos[k as int]);
            lemma_clear_skip(
                fin,
                project_id,
                branch_id,
                testbed_id,
                named,
                now,
                pos[k as int] + 1,
                if k + 1 < current_thresholds@.len() {
                    pos[k + 1]
                } else {
                    fin.thresholds.len() as int
                },
            );
        }
        if current_threshold.model_id.is_some() {
            let _ = current_threshold.remove_current_model(conn, now);
        }
        k += 1;
    }
}

impl InsertThreshold {
    /// Applies a report to the thresholds of one branch and testbed of a
    /// project. A report without a list of thresholds changes nothing.
    /// Otherwise each entry, in order, has its measure resolved; a
    /// threshold of the scope that watches the measure is brought to the
    /// entry's model, and written only where the model differs from the one
    /// in force; where the scope has no such threshold, one is created. Then
    /// every threshold of the scope that the report did not name is
    /// switched off, unless it is so already. The first failure ends the
    /// pass, and what was written before it stays.
    pub fn from_report_json(
        conn: &mut Store,
        project_id: ProjectId,
        branch_id: BranchId,
        testbed_id: TestbedId,
        thresholds: Option<Vec<ReportThreshold>>,
        now: DateTime,
    ) -> (r: Result<(), ApiError>)
        requires
            old(conn)@.wf(),
        ensures
            final(conn)@.wf(),
            (final(conn)@, r) == old(conn)@.reconcile(
                project_id,
                branch_id,
                testbed_id,
                report_view(thresholds),
                now,
            ),
            final(conn)@.extends(old(conn)@),
            old(conn)@.consistent() ==> final(conn)@.consistent(),
    {
        proof {
            lemma_reconcile(
                conn@,
                project_id,
                branch_id,
                testbed_id,
                report_view(thresholds),
                now,
            );
        }
        let entries = match thresholds {
            Some(entries) => entries,
            None => { return Ok(()); },
        };
        // Get all thresholds for the report branch and testbed
        let (mut current_thresholds, Ghost(loaded)) = load_scope(
            conn,
            project_id,
            branch_id,
            testbed_id,
        );
        let ghost start = conn@;
        let ghost mut named: Set<MeasureId> = Set::empty();
        let ghost mut pos: Seq<int> = loaded;
        assert(entries@.subrange(0, entries@.len() as int) == entries@);
        // Iterate over the thresholds in the report.
        // If the threshold does not exist, create it.
        // If it does exist, update it.
        let mut i: usize = 0;
        while i < entries.len()
            invariant
                i <= entries.len(),
                conn@.wf(),
                start == old(conn)@,
                start.wf(),
                report_view(thresholds) == Some(entries@),
                working_set(
                    conn@,
                    project_id,
                    branch_id,
                    testbed_id,
                    named,
                    current_thresholds@,
                    pos,
                ),
                conn@.reconcile_entries(
                    project_id,
                    branch_id,
                    testbed_id,
                    named,
                    entries@.subrange(i as int, entries@.len() as int),
                    now,
                ) == start.reconcile_entries(
                    project_id,
                    branch_id,
                    testbed_id,
                    Set::empty(),
                    entries@,
                    now,
                ),
            decreases entries.len() - i,
        {
            let ghost rest = entries@.subrange(i as int, entries@.len() as int);
            assert(rest[0] == entries@[i as int]);
            assert(rest.skip(1) == entries@.subrange(i + 1, entries@.len() as int));
            let ghost before = conn@;
            let (applied, Ghost(next)) = apply_entry(
                conn,
                project_id,
                branch_id,
                testbed_id,
                &mut current_thresholds,
                &entries[i],
                now,
                Ghost(named),
                Ghost(pos),
            );
            match applied {
                Ok(()) => {},
                Err(e) => {
                    proof {
                        lemma_reconcile(
                            start,
                            project_id,
                            branch_id,
                            testbed_id,
                            Some(entries@),
                            now,
                        );
                    }
                    return Err(e);
                },
            }
            proof {
                named = before.reconcile_entry(
                    project_id,
                    branch_id,
                    testbed_id,
                    named,
                    entries@[i as int],
                    now,
                ).named;
                pos = next;
            }
            i += 1;
        }
        // Remove the models from the thresholds that were not in the report
        assert(entries@.subrange(i as int, entries@.len() as int).len() == 0);
        proof {
            lemma_reconcile(start, project_id, branch_id, testbed_id, Some(entries@), now);
        }
        clear_remaining(
            conn,
            project_id,
            branch_id,
            testbed_id,
            &current_thresholds,
            now,
            Ghost(named),
            Ghost(pos),
        );
        Ok(())
    }
}

} // verus!
