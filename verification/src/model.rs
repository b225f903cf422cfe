//! Statistical models: the configuration that a report asks for, and the
//! immutable, versioned rows in which the store keeps every configuration a
//! threshold ever had.

use vstd::prelude::*;
use crate::error::{ApiError, BencherResource};
use crate::ids::{row_index, DateTime, ModelId, ModelUuid, ThresholdId, ThresholdUuid};
use crate::state::{lemma_model_with_uuid, lemma_model_without_uuid};
use crate::store::Store;

verus! {

/// A fixed-point number with three fractional digits: the integer held is
/// the magnitude times one thousand.
#[derive(Clone, Copy, Debug, PartialEq, Eq, Structural)]
pub struct Boundary(pub i64);

/// The strategies by which boundary limits are computed.
#[derive(Clone, Copy, Debug, PartialEq, Eq, Structural)]
pub enum ModelTest {
    /// Fixed limits, given by the boundaries themselves.
    Static,
    /// Limits at a fraction of the baseline below and above it.
    Percentage,
    /// Limits at a number of standard deviations from the mean.
    ZScore,
    /// Limits of a confidence interval around the mean.
    TTest,
    /// Limits at a multiple of the interquartile range beyond the quartiles.
    Iqr,
}

/// A model configuration: the strategy and its parameters. Two
/// configurations are the same model when all their fields are equal.
#[derive(Clone, Copy, Debug, PartialEq, Eq, Structural)]
pub struct Model {
    pub test: ModelTest,
    /// Fewest samples with which a decision is made.
    pub min_sample_size: Option<u32>,
    /// Most samples, counted from the newest, that are looked at.
    pub max_sample_size: Option<u32>,
    /// Length of the history window.
    pub window: Option<u32>,
    /// Parameter of the lower limit; without it no lower limit is computed.
    pub lower_boundary: Option<Boundary>,
    /// Parameter of the upper limit; without it no upper limit is computed.
    pub upper_boundary: Option<Boundary>,
}

/// The confidence level, 0.98, of the two default models.
pub const DEFAULT_CONFIDENCE: i64 = 980;

impl Model {
    /// The default model that guards the lower side only: a confidence
    /// interval at the default level with no other parameter set.
    pub open spec fn lower_boundary_spec() -> Model {
        Model {
            test: ModelTest::TTest,
            min_sample_size: None,
            max_sample_size: None,
            window: None,
            lower_boundary: Some(Boundary(DEFAULT_CONFIDENCE)),
            upper_boundary: None,
        }
    }

    /// The default model that guards the upper side only.
    pub open spec fn upper_boundary_spec() -> Model {
        Model {
            test: ModelTest::TTest,
            min_sample_size: None,
            max_sample_size: None,
            window: None,
            lower_boundary: None,
            upper_boundary: Some(Boundary(DEFAULT_CONFIDENCE)),
        }
    }

    /// The default model that guards the lower side only.
    pub fn lower_boundary() -> (m: Model)
        ensures
            m == Model::lower_boundary_spec(),
    {
        Model {
            test: ModelTest::TTest,
            min_sample_size: None,
            max_sample_size: None,
            window: None,
            lower_boundary: Some(Boundary(DEFAULT_CONFIDENCE)),
            upper_boundary: None,
        }
    }

    /// The default model that guards the upper side only.
    pub fn upper_boundary() -> (m: Model)
        ensures
            m == Model::upper_boundary_spec(),
    {
        Model {
            test: ModelTest::TTest,
            min_sample_size: None,
            max_sample_size: None,
            window: None,
            lower_boundary: None,
            upper_boundary: Some(Boundary(DEFAULT_CONFIDENCE)),
        }
    }

    /// Structural equality of two configurations.
    pub fn same_as(&self, other: &Model) -> (b: bool)
        ensures
            b == (*self == *other),
    {
        *self == *other
    }
}

/// A stored model: one version of the configuration of one threshold. A row
/// is never changed after it was written, but for the stamp that says when a
/// later version took its place.
#[derive(Clone, Copy, Debug, PartialEq, Eq, Structural)]
pub struct QueryModel {
    pub id: ModelId,
    pub uuid: ModelUuid,
    /// The threshold this version belongs to.
    pub threshold_id: ThresholdId,
    pub model: Model,
    pub created: DateTime,
    /// When this version stopped being the current one.
    pub replaced: Option<DateTime>,
}

/// A model as it is shown together with its threshold.
#[derive(Clone, Copy, Debug, PartialEq, Eq, Structural)]
pub struct JsonModel {
    pub uuid: ModelUuid,
    pub threshold: ThresholdUuid,
    pub model: Model,
    pub created: DateTime,
    pub replaced: Option<DateTime>,
}

impl QueryModel {
    /// The stored model `id`.
    pub fn get(conn: &Store, id: ModelId) -> (r: Result<QueryModel, ApiError>)
        ensures
            r == (if conn@.has_model(id) {
                Ok::<QueryModel, ApiError>(conn@.model(id))
            } else {
                Err::<QueryModel, ApiError>(ApiError::NotFound(BencherResource::Model))
            }),
    {
        match row_index(id.0, conn.models().len()) {
            Some(i) => Ok(conn.models()[i]),
            None => Err(ApiError::NotFound(BencherResource::Model)),
        }
    }

    /// The identifier of the stored model with the public identifier
    /// `uuid`.
    pub fn get_id(conn: &Store, uuid: ModelUuid) -> (r: Result<ModelId, ApiError>)
        ensures
            match conn@.model_with_uuid(uuid) {
                Some(i) => r == Ok::<ModelId, ApiError>(conn@.models[i].id),
                None => r == Err::<ModelId, ApiError>(ApiError::NotFound(BencherResource::Model)),
            },
    {
        match conn.find_model_uuid(uuid) {
            Some(i) => {
                proof {
                    lemma_model_with_uuid(conn@, i as int, uuid);
                }
                Ok(conn.models()[i].id)
            },
            None => {
                proof {
                    lemma_model_without_uuid(conn@, uuid);
                }
                Err(ApiError::NotFound(BencherResource::Model))
            },
        }
    }

    /// The configuration that this version holds.
    pub fn into_model(self) -> (m: Model)
        ensures
            m == self.model,
    {
        self.model
    }

    /// This version as shown under the threshold with the given public
    /// identifier.
    pub fn into_json_for_threshold(&self, threshold: ThresholdUuid) -> (json: JsonModel)
        ensures
            json == (JsonModel {
                uuid: self.uuid,
                threshold,
                model: self.model,
                created: self.created,
                replaced: self.replaced,
            }),
    {
        JsonModel {
            uuid: self.uuid,
            threshold,
            model: self.model,
            created: self.created,
            replaced: self.replaced,
        }
    }
}

/// A model version that is about to be written.
#[derive(Clone, Copy, Debug, PartialEq, Eq, Structural)]
pub struct InsertModel {
    pub uuid: ModelUuid,
    pub threshold_id: ThresholdId,
    pub model: Model,
    pub created: DateTime,
    pub replaced: Option<DateTime>,
}

impl InsertModel {
    /// A new, current version of `model` for the threshold `threshold_id`.
    pub fn from_json(
        uuid: ModelUuid,
        threshold_id: ThresholdId,
        model: Model,
        created: DateTime,
    ) -> (row: InsertModel)
        ensures
            row == (InsertModel { uuid, threshold_id, model, created, replaced: None }),
    {
        InsertModel { uuid, threshold_id, model, created, replaced: None }
    }
}

/// The one change that a stored model admits: the stamp of its replacement.
#[derive(Clone, Copy, Debug, PartialEq, Eq, Structural)]
pub struct UpdateModel {
    pub replaced: DateTime,
}

impl UpdateModel {
    /// The change that marks a model as replaced at `date_time`.
    pub fn replaced_at(date_time: DateTime) -> (u: UpdateModel)
        ensures
            u.replaced == date_time,
    {
        UpdateModel { replaced: date_time }
    }
}

} // verus!
