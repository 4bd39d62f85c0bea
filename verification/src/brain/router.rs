//! Brain router: the client of the sidecar that scores a prompt against the
//! expert pool.
//!
//! The exchange itself happens outside; this module says where to ask and which
//! answers count.

use crate::config::MoEConfig;
use crate::score::Score;
use crate::text;
use vstd::prelude::*;
use vstd::string::*;

verus! {

/// How long to wait for the sidecar, in seconds.
pub const SIDECAR_TIMEOUT_SECS: u64 = 30;

/// The sidecar and how many experts it is to score.
pub struct BrainRouter {
    endpoint: String,
    n_experts: usize,
}

/// Why an answer of the sidecar does not count.
#[derive(Debug, Clone, Copy, PartialEq, Eq, Structural)]
pub enum RouteError {
    /// There is not one score for each expert.
    WrongScoreCount { got: usize, expected: usize },
}

impl RouteError {
    /// The message for a person.
    pub fn message(&self) -> (m: String)
        ensures
            match *self {
                RouteError::WrongScoreCount { got, expected } => m@ == "sidecar returned "@
                    + text::decimal(got as nat) + " scores, expected "@ + text::decimal(
                    expected as nat,
                ),
            },
    {
        match self {
            RouteError::WrongScoreCount { got, expected } => {
                let mut m = text::concat3(
                    "sidecar returned ",
                    text::to_decimal(*got as u128).as_str(),
                    " scores, expected ",
                );
                m.append(text::to_decimal(*expected as u128).as_str());
                m
            },
        }
    }
}

impl BrainRouter {
    /// Where the sidecar listens.
    pub closed spec fn address(&self) -> Seq<char> {
        self.endpoint@
    }

    /// How many experts it scores.
    pub closed spec fn pool_size(&self) -> nat {
        self.n_experts as nat
    }

    /// The router for a pool. `endpoint` is the configured address of the sidecar,
    /// if there is one.
    pub fn load(config: &MoEConfig, endpoint: Option<String>) -> (r: Self)
        ensures
            r.address() == match endpoint {
                Some(e) => e@,
                None => "http://127.0.0.1:8008"@,
            },
            r.pool_size() == config.experts@.len(),
    {
        let endpoint = match endpoint {
            Some(e) => e,
            None => "http://127.0.0.1:8008".to_string(),
        };
        BrainRouter { endpoint, n_experts: config.n_experts() }
    }

    /// Where to ask whether the sidecar is up.
    pub fn health_url(&self) -> (u: String)
        ensures
            u@ == self.address() + "/health"@,
    {
        text::concat2(self.endpoint.as_str(), "/health")
    }

    /// Where to ask for scores.
    pub fn route_url(&self) -> (u: String)
        ensures
            u@ == self.address() + "/route"@,
    {
        text::concat2(self.endpoint.as_str(), "/route")
    }

    /// What to say where the sidecar does not answer.
    pub fn unreachable_message(&self) -> (m: String)
        ensures
            m@ == "Brain Router sidecar not reachable at "@ + (self.address() + "/health"@)
                + ". Start it with: python router_server.py"@,
    {
        text::concat3(
            "Brain Router sidecar not reachable at ",
            self.health_url().as_str(),
            ". Start it with: python router_server.py",
        )
    }

    /// The scores of a prompt, as the sidecar answered, where there is one for each
    /// expert.
    pub fn forward(&self, scores: Vec<Score>) -> (r: Result<Vec<Score>, RouteError>)
        ensures
            r == if scores@.len() == self.pool_size() {
                Ok::<Vec<Score>, RouteError>(scores)
            } else {
                Err::<Vec<Score>, RouteError>(
                    RouteError::WrongScoreCount {
                        got: scores@.len() as usize,
                        expected: self.pool_size() as usize,
                    },
                )
            },
    {
        if scores.len() != self.n_experts {
            return Err(
                RouteError::WrongScoreCount { got: scores.len(), expected: self.n_experts },
            );
        }
        Ok(scores)
    }
}

}
