//! Native router: a trained linear head over the pooled embedding of a prompt,
//! which gives one gate logit for each expert.

use crate::experts::model;
use crate::experts::model::{sequence_batch, BatchEntry};
use crate::layers::linear_head;
use crate::layers::linear_head::{HeadError, LinearHead};
use crate::score::Score;
use crate::text;
use vstd::prelude::*;
use vstd::string::*;

verus! {

/// How many layers of the embedding model go to the GPU: it is small, and video
/// memory is for the experts.
pub const ROUTER_GPU_LAYERS: u32 = 0;

/// The head and the pool that it was trained for.
pub struct NativeRouter {
    head: LinearHead,
    n_ctx: u32,
    n_experts: usize,
}

/// Why a prompt cannot be routed.
#[derive(Debug, Clone, Copy, PartialEq, Eq, Structural)]
pub enum NativeRouteError {
    /// The prompt has no token to embed.
    NothingToEmbed,
    /// The head does not give one logit for each expert.
    WrongLogitCount { got: usize, expected: usize },
}

impl NativeRouteError {
    /// The message for a person.
    pub fn message(&self) -> (m: String)
        ensures
            match *self {
                NativeRouteError::NothingToEmbed => m@ == "nothing to embed for routing"@,
                NativeRouteError::WrongLogitCount { got, expected } => m@
                    == "native router head produced "@ + text::decimal(got as nat)
                    + " outputs, expected "@ + text::decimal(expected as nat)
                    + " (one per expert)"@,
            },
    {
        match self {
            NativeRouteError::NothingToEmbed => "nothing to embed for routing".to_string(),
            NativeRouteError::WrongLogitCount { got, expected } => {
                let mut m = text::concat3(
                    "native router head produced ",
                    text::to_decimal(*got as u128).as_str(),
                    " outputs, expected ",
                );
                m.append(text::to_decimal(*expected as u128).as_str());
                m.append(" (one per expert)");
                m
            },
        }
    }
}

impl NativeRouter {
    /// The trained head.
    pub closed spec fn trained(&self) -> LinearHead {
        self.head
    }

    /// How many experts are routed to.
    pub closed spec fn pool_size(&self) -> nat {
        self.n_experts as nat
    }

    /// The size of the embedding model's context.
    pub closed spec fn context_size(&self) -> u32 {
        self.n_ctx
    }

    /// A router with the head in `head_file`. `n_embd` is the embedding size of
    /// the model.
    pub fn load(head_file: &[u8], n_embd: usize, n_ctx: u32, n_experts: usize) -> (r: Result<
        Self,
        HeadError,
    >)
        ensures
            match linear_head::parse(head_file@, n_embd as nat) {
                Ok(head) => r matches Ok(router) && router.trained().wf() && router.trained()@
                    == head && router.pool_size() == n_experts && router.context_size() == n_ctx,
                Err(e) => r matches Err(f) && f == e,
            },
    {
        match LinearHead::load(head_file, n_embd) {
            Ok(head) => Ok(NativeRouter { head, n_ctx, n_experts }),
            Err(e) => Err(e),
        }
    }

    /// The trained head.
    pub fn head(&self) -> (h: &LinearHead)
        ensures
            *h == self.trained(),
    {
        &self.head
    }

    /// The size of the embedding model's context.
    pub fn n_ctx(&self) -> (n: u32)
        ensures
            n == self.context_size(),
    {
        self.n_ctx
    }

    /// What the embedding model is fed for a prompt with these tokens.
    pub fn embedding_batch(&self, tokens: &[i32]) -> (r: Result<
        Vec<BatchEntry>,
        NativeRouteError,
    >)
        ensures
            if tokens@.len() == 0 {
                r == Err::<Vec<BatchEntry>, NativeRouteError>(NativeRouteError::NothingToEmbed)
            } else {
                r matches Ok(batch) && batch@ == model::sequence(tokens@, false)
            },
    {
        if tokens.len() == 0 {
            return Err(NativeRouteError::NothingToEmbed);
        }
        Ok(sequence_batch(tokens, false))
    }

    /// The logits, as the head gave them, where there is one for each expert.
    pub fn route(&self, gate_logits: Vec<Score>) -> (r: Result<Vec<Score>, NativeRouteError>)
        ensures
            r == if gate_logits@.len() == self.pool_size() {
                Ok::<Vec<Score>, NativeRouteError>(gate_logits)
            } else {
                Err::<Vec<Score>, NativeRouteError>(
                    NativeRouteError::WrongLogitCount {
                        got: gate_logits@.len() as usize,
                        expected: self.pool_size() as usize,
                    },
                )
            },
    {
        if gate_logits.len() != self.n_experts {
            return Err(
                NativeRouteError::WrongLogitCount {
                    got: gate_logits.len(),
                    expected: self.n_experts,
                },
            );
        }
        Ok(gate_logits)
    }
}

}
