//! What the service takes from and gives to its users.

use vstd::prelude::*;
use crate::query::recommend;
use crate::server::answer_query;
use crate::snapshot::RuleSnapshot;
use crate::text::texts;

verus! {

/// The version that the service reports with every answer.
pub const SERVICE_VERSION: &'static str = "0.1.0";

/// A request for recommendations: the songs that the user has.
#[derive(Clone, Debug)]
pub struct RecommendationRequest {
    pub songs: Vec<String>,
}

/// The answer to a request: the recommended songs, the version of the
/// service, and the label of the snapshot that the answer was computed from.
#[derive(Clone, Debug)]
pub struct RecommendationResponse {
    pub playlist_ids: Vec<String>,
    pub version: &'static str,
    pub model_date: String,
}

impl RecommendationResponse {
    /// The answer with the given songs and label.
    pub fn new(playlist_ids: Vec<String>, model_date: String) -> (response: Self)
        ensures
            response.playlist_ids == playlist_ids,
            response.version@ == SERVICE_VERSION@,
            response.model_date == model_date,
    {
        RecommendationResponse { playlist_ids, version: SERVICE_VERSION, model_date }
    }
}

/// Answers `request` from `snapshot`.
pub fn respond(request: RecommendationRequest, snapshot: &RuleSnapshot) -> (response:
    RecommendationResponse)
    ensures
        texts(response.playlist_ids@).to_set() == recommend(
            texts(request.songs@),
            snapshot@.index,
        ),
        texts(response.playlist_ids@).no_duplicates(),
        response.version@ == SERVICE_VERSION@,
        response.model_date@ == snapshot@.label,
{
    let (songs, label) = answer_query(request.songs, snapshot);
    RecommendationResponse::new(songs, label)
}

} // verus!
