//! Critic: scores the fused text on coherence, completion and safety, and passes
//! it or signals a re-route.
//!
//! With a trained reward head the three scores come from a pooled embedding of
//! the text. Without one, coherence comes from how likely the critic model finds
//! the text, and the other two from the text itself. The model is driven from
//! outside: it is fed what this module plans, and what it answers is judged here.

use crate::experts::model;
use crate::experts::model::{sequence_batch, BatchEntry};
use crate::layers::linear_head;
use crate::layers::linear_head::{HeadError, LinearHead};
use crate::score;
use crate::score::{Score, BITS_ONE, BITS_ZERO};
use crate::text;
use vstd::prelude::*;
use vstd::string::*;
use vstd::utf8::*;

verus! {

/// How many layers of the critic model go to the GPU: it is small, and video
/// memory is for the experts.
pub const CRITIC_GPU_LAYERS: u32 = 0;

/// The pattern of `0.25`.
pub const BITS_QUARTER: u32 = 0x3E80_0000;

/// The pattern of `0.3`.
pub const BITS_CUT_OFF: u32 = 0x3E99_999A;

/// The pattern of `0.5`.
pub const BITS_HALF: u32 = 0x3F00_0000;

/// The pattern of `0.6`.
pub const BITS_PARTIAL: u32 = 0x3F19_999A;

/// The critic: its threshold and, once trained, its reward head.
pub struct CriticModel {
    n_ctx: u32,
    threshold: Score,
    reward_head: Option<LinearHead>,
}

/// What the critic made of a text.
#[derive(Debug, Clone, Copy, PartialEq, Eq, Structural)]
pub struct CriticVerdict {
    pub coherence: Score,
    pub completion: Score,
    pub safety: Score,
    pub composite: Score,
    pub passed: bool,
}

/// What the critic model is to do with a text.
pub enum CriticStep {
    /// Decode the batch and pool an embedding for the reward head.
    Embed(Vec<BatchEntry>),
    /// Decode the batch and score every token against the prediction for it.
    ScoreTokens(Vec<BatchEntry>),
    /// Nothing: the verdict is known.
    Done(CriticVerdict),
}

/// Why a text cannot be scored.
#[derive(Debug, Clone, Copy, PartialEq, Eq, Structural)]
pub enum CriticError {
    /// The text has no token to embed.
    NothingToEmbed,
    /// The reward head does not give the three scores.
    WrongOutputCount(usize),
}

impl CriticError {
    /// The message for a person.
    pub fn message(&self) -> (m: String)
        ensures
            match *self {
                CriticError::NothingToEmbed => m@ == "nothing to embed for critic scoring"@,
                CriticError::WrongOutputCount(n) => m@ == "critic reward head produced "@
                    + text::decimal(n as nat)
                    + " outputs, expected 3 (coherence, completion, safety)"@,
            },
    {
        match self {
            CriticError::NothingToEmbed => "nothing to embed for critic scoring".to_string(),
            CriticError::WrongOutputCount(n) => text::concat3(
                "critic reward head produced ",
                text::to_decimal(*n as u128).as_str(),
                " outputs, expected 3 (coherence, completion, safety)",
            ),
        }
    }
}

/// Whether a text in lower case holds a phrase of the denylist.
pub open spec fn has_unsafe_marker(lower: Seq<char>) -> bool {
    text::contains(lower, "how to make a bomb"@) || text::contains(lower, "kill yourself"@)
}

/// The safety score of a text, given in lower case.
pub open spec fn safety_of(lower: Seq<char>) -> Score {
    Score {
        bits: if has_unsafe_marker(lower) {
            BITS_ZERO
        } else {
            BITS_ONE
        },
    }
}

/// Whether a text ends like a finished sentence, code or quotation.
pub open spec fn ends_cleanly(s: Seq<char>) -> bool {
    s.len() > 0 && {
        let c = s.last();
        c == '.' || c == '!' || c == '?' || c == '`' || c == '"' || c == ')'
    }
}

/// The completion score of a text: by its trimmed form, whether it ends cleanly
/// and has eight bytes or more.
pub open spec fn completion_of(s: Seq<char>) -> Score {
    let t = text::trim(s);
    let long = encode_utf8(t).len() >= 8;
    Score {
        bits: if t.len() == 0 {
            BITS_ZERO
        } else if ends_cleanly(t) && long {
            BITS_ONE
        } else if ends_cleanly(t) || long {
            BITS_PARTIAL
        } else {
            BITS_CUT_OFF
        },
    }
}

/// Scores whether a text looks complete.
pub fn completion_heuristic(s: &str) -> (r: Score)
    ensures
        r == completion_of(s@),
        text::trim(s@).len() > 0 && encode_utf8(text::trim(s@)).len() >= 8 ==> r.bits == if {
            let c = text::trim(s@).last();
            c == '.' || c == '!' || c == '?' || c == '`' || c == '"' || c == ')'
        } {
            BITS_ONE
        } else {
            BITS_PARTIAL
        },
{
    let trimmed = text::str_trim(s);
    if trimmed.is_empty() {
        return Score { bits: BITS_ZERO };
    }
    let n: usize = trimmed.unicode_len();
    let c = trimmed.get_char(n - 1);
    let clean: bool = c == '.' || c == '!' || c == '?' || c == '`' || c == '"' || c == ')';
    let long: bool = trimmed.as_bytes().len() >= 8;
    let bits: u32 = if clean && long {
        BITS_ONE
    } else if clean || long {
        BITS_PARTIAL
    } else {
        BITS_CUT_OFF
    };
    Score { bits }
}

/// Scores a text, given in lower case, against the denylist. The list is a
/// placeholder for a real classifier.
pub fn safety_of_lowercase(lower: &str) -> (r: Score)
    ensures
        r == safety_of(lower@),
{
    if text::str_contains(lower, "how to make a bomb") || text::str_contains(
        lower,
        "kill yourself",
    ) {
        Score { bits: BITS_ZERO }
    } else {
        Score { bits: BITS_ONE }
    }
}

/// Scores a text against the denylist, whatever its case.
pub fn safety_heuristic(s: &str) -> (r: Score)
    ensures
        r == safety_of(text::unicode_lowercase(s@)),
{
    let lower = text::str_to_lowercase(s);
    safety_of_lowercase(lower.as_str())
}

/// Coherence, completion and safety on the heuristic path: the first as the critic
/// model gave it, the other two from the text itself.
pub fn heuristic_scores(output_text: &str, coherence: Score) -> (r: (Score, Score, Score))
    ensures
        r == (
            coherence,
            completion_of(output_text@),
            safety_of(text::unicode_lowercase(output_text@)),
        ),
{
    (coherence, completion_heuristic(output_text), safety_heuristic(output_text))
}

/// What the model is to predict: behind token `i`, the token `i + 1`.
pub fn scoring_targets(tokens: &[i32]) -> (r: Vec<(i32, i32)>)
    requires
        tokens@.len() > 0,
    ensures
        r@ == Seq::new((tokens@.len() - 1) as nat, |i: int| (i as i32, tokens@[i + 1])),
{
    let n: usize = tokens.len() - 1;
    let mut r: Vec<(i32, i32)> = Vec::new();
    let mut i: usize = 0;
    while i < n
        invariant
            i <= n,
            n == tokens@.len() - 1,
            r@.len() == i,
            forall|j: int| 0 <= j < i ==> #[trigger] r@[j] == (j as i32, tokens@[j + 1]),
        decreases n - i,
    {
        r.push((#[verifier::truncate] (i as i32), tokens[i + 1]));
        i = i + 1;
    }
    r
}

impl CriticModel {
    /// From which composite score on a text passes.
    pub closed spec fn pass_mark(&self) -> Score {
        self.threshold
    }

    /// The size of the critic model's context.
    pub closed spec fn context_size(&self) -> u32 {
        self.n_ctx
    }

    /// The trained head, if there is one.
    pub closed spec fn head(&self) -> Option<LinearHead> {
        self.reward_head
    }

    /// A critic with the head in `head_file`, or without one where none is
    /// configured. `n_embd` is the embedding size of the critic model.
    pub fn load(
        threshold: Score,
        n_ctx: u32,
        head_file: Option<&[u8]>,
        n_embd: usize,
    ) -> (r: Result<Self, HeadError>)
        ensures
            match head_file {
                None => r matches Ok(c) && c.head() is None,
                Some(bytes) => match linear_head::parse(bytes@, n_embd as nat) {
                    Ok(head) => r matches Ok(c) && c.head() matches Some(h) && h.wf() && h@
                        == head,
                    Err(e) => r matches Err(f) && f == e,
                },
            },
            r matches Ok(c) ==> c.pass_mark() == threshold && c.context_size() == n_ctx,
    {
        match head_file {
            None => Ok(CriticModel { n_ctx, threshold, reward_head: None }),
            Some(bytes) => match LinearHead::load(bytes, n_embd) {
                Ok(head) => Ok(CriticModel { n_ctx, threshold, reward_head: Some(head) }),
                Err(e) => Err(e),
            },
        }
    }

    /// The size of the critic model's context.
    pub fn n_ctx(&self) -> (n: u32)
        ensures
            n == self.context_size(),
    {
        self.n_ctx
    }

    /// The trained head, if there is one.
    pub fn reward_head(&self) -> (h: Option<&LinearHead>)
        ensures
            match h {
                Some(h) => self.head() == Some(*h),
                None => self.head() is None,
            },
    {
        match &self.reward_head {
            Some(h) => Some(h),
            None => None,
        }
    }

    /// What to do with a text whose tokens are `tokens`: the trained path where
    /// there is a head, the heuristic one otherwise.
    pub fn verify(&self, output_text: &str, tokens: &[i32]) -> (r: Result<
        CriticStep,
        CriticError,
    >)
        ensures
            match self.head() {
                Some(_) => if tokens@.len() == 0 {
                    r == Err::<CriticStep, CriticError>(CriticError::NothingToEmbed)
                } else {
                    r matches Ok(CriticStep::Embed(batch)) && batch@ == model::sequence(tokens@, false)
                },
                None => if tokens@.len() < 2 {
                    r matches Ok(CriticStep::Done(v)) && v == too_short(output_text@)
                } else {
                    r matches Ok(CriticStep::ScoreTokens(batch)) && batch@ == model::sequence(
                        tokens@,
                        true,
                    )
                },
            },
    {
        match &self.reward_head {
            Some(_) => self.verify_with_head(tokens),
            None => Ok(self.verify_heuristic(output_text, tokens)),
        }
    }

    /// The trained path: embed the text.
    fn verify_with_head(&self, tokens: &[i32]) -> (r: Result<CriticStep, CriticError>)
        ensures
            if tokens@.len() == 0 {
                r == Err::<CriticStep, CriticError>(CriticError::NothingToEmbed)
            } else {
                r matches Ok(CriticStep::Embed(batch)) && batch@ == model::sequence(tokens@, false)
            },
    {
        if tokens.len() == 0 {
            return Err(CriticError::NothingToEmbed);
        }
        Ok(CriticStep::Embed(sequence_batch(tokens, false)))
    }

    /// The heuristic path: score the text token by token. A text that is too short
    /// for that fails softly.
    fn verify_heuristic(&self, output_text: &str, tokens: &[i32]) -> (r: CriticStep)
        ensures
            if tokens@.len() < 2 {
                r matches CriticStep::Done(v) && v == too_short(output_text@)
            } else {
                r matches CriticStep::ScoreTokens(batch) && batch@ == model::sequence(tokens@, true)
            },
    {
        if tokens.len() < 2 {
            return CriticStep::Done(
                CriticVerdict {
                    coherence: Score { bits: BITS_HALF },
                    completion: Score { bits: BITS_ZERO },
                    safety: safety_heuristic(output_text),
                    composite: Score { bits: BITS_QUARTER },
                    passed: false,
                },
            );
        }
        CriticStep::ScoreTokens(sequence_batch(tokens, true))
    }

    /// The verdict on these scores: a composite at the threshold or above passes.
    pub fn verdict(
        &self,
        coherence: Score,
        completion: Score,
        safety: Score,
        composite: Score,
    ) -> (v: CriticVerdict)
        ensures
            v == (CriticVerdict {
                coherence,
                completion,
                safety,
                composite,
                passed: composite.at_least(self.pass_mark()),
            }),
    {
        CriticVerdict {
            coherence,
            completion,
            safety,
            composite,
            passed: composite.ge(self.threshold),
        }
    }
}

/// The verdict on a text that is too short to score.
pub open spec fn too_short(s: Seq<char>) -> CriticVerdict {
    CriticVerdict {
        coherence: Score { bits: BITS_HALF },
        completion: Score { bits: BITS_ZERO },
        safety: safety_of(text::unicode_lowercase(s)),
        composite: Score { bits: BITS_QUARTER },
        passed: false,
    }
}

/// Coherence, completion and safety from the outputs of the reward head, which
/// must be three.
pub fn head_outputs(raw: &[Score]) -> (r: Result<(Score, Score, Score), CriticError>)
    ensures
        r == if raw@.len() == 3 {
            Ok::<(Score, Score, Score), CriticError>((raw@[0], raw@[1], raw@[2]))
        } else {
            Err::<(Score, Score, Score), CriticError>(
                CriticError::WrongOutputCount(raw@.len() as usize),
            )
        },
{
    if raw.len() != 3 {
        return Err(CriticError::WrongOutputCount(raw.len()));
    }
    Ok((raw[0], raw[1], raw[2]))
}

/// The completion score by the text without the whitespace around it. From eight bytes
/// on it is full where the text ends with a mark that closes a sentence, code or a
/// quotation, and partial otherwise; below that it is partial with such an end and low
/// without; and nothing scores nothing.
pub proof fn completion_goes_by_length_and_ending(
    before: Seq<char>,
    core: Seq<char>,
    behind: Seq<char>,
)
    requires
        text::all_whitespace(before),
        text::all_whitespace(behind),
        core.len() > 0 ==> !text::is_whitespace(core.first()) && !text::is_whitespace(core.last()),
    ensures
        ({
            let bits = completion_of(before + core + behind).bits;
            let closed = seq!['.', '!', '?', '`', '"', ')'].contains(core.last());
            let bytes = encode_utf8(core).len();
            &&& core.len() == 0 ==> bits == BITS_ZERO
            &&& core.len() > 0 && bytes >= 8 && closed ==> bits == BITS_ONE
            &&& core.len() > 0 && bytes >= 8 && !closed ==> bits == BITS_PARTIAL
            &&& core.len() > 0 && bytes < 8 && closed ==> bits == BITS_PARTIAL
            &&& core.len() > 0 && bytes < 8 && !closed ==> bits == BITS_CUT_OFF
        }),
{
    text::trimming_takes_off_the_outer_whitespace(before, core, behind);
    let marks = seq!['.', '!', '?', '`', '"', ')'];
    assert(marks[0] == '.' && marks[1] == '!' && marks[2] == '?' && marks[3] == '`' && marks[4]
        == '"' && marks[5] == ')');
}

/// Of two texts with the same ending, the longer one never scores lower.
pub proof fn longer_text_never_scores_lower(a: Seq<char>, b: Seq<char>)
    requires
        text::trim(a).len() > 0,
        text::trim(b).len() > 0,
        text::trim(a).last() == text::trim(b).last(),
        encode_utf8(text::trim(a)).len() <= encode_utf8(text::trim(b)).len(),
    ensures
        !completion_of(b).less(completion_of(a)),
{
    score::comparison_follows_the_bits(completion_of(b), completion_of(a));
}

/// A text, given in lower case, is unsafe exactly if a phrase of the denylist stands in
/// it, whatever stands around it.
pub proof fn safety_goes_by_the_denylist(lower: Seq<char>)
    ensures
        safety_of(lower).bits == BITS_ZERO || safety_of(lower).bits == BITS_ONE,
        safety_of(lower).bits == BITS_ZERO <==> (exists|a: Seq<char>, b: Seq<char>|
            lower == #[trigger] (a + "how to make a bomb"@ + b)) || (exists|
            a: Seq<char>,
            b: Seq<char>,
        |
            lower == #[trigger] (a + "kill yourself"@ + b)),
{
    text::parts_are_what_stands_between(lower, "how to make a bomb"@);
    text::parts_are_what_stands_between(lower, "kill yourself"@);
}

/// A text that is too short to score never passes; it keeps its safety score.
pub proof fn too_short_text_is_refused(s: Seq<char>)
    ensures
        !too_short(s).passed,
        too_short(s).coherence.bits == BITS_HALF,
        too_short(s).completion.bits == BITS_ZERO,
        too_short(s).composite.bits == BITS_QUARTER,
        too_short(s).safety == safety_of(text::unicode_lowercase(s)),
{
}

}
