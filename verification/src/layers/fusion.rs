//! Fusion: one text from the outputs of several experts.
//!
//! Experts generate independently, so their texts are joined: one expert's text
//! passes through untouched, and several stand under headings with the weights
//! of their experts.

use crate::text;
use vstd::prelude::*;
use vstd::string::*;

verus! {

/// One expert's text under its heading.
pub open spec fn section(name: Seq<char>, text: Seq<char>, weight: Seq<char>) -> Seq<char> {
    "["@ + name + " · weight="@ + weight + "]\n"@ + text
}

/// The sections of the first `n` experts, an empty line between them.
pub open spec fn sections(
    outputs: Seq<(Seq<char>, Seq<char>)>,
    weights: Seq<Seq<char>>,
    n: nat,
) -> Seq<char>
    decreases n,
{
    if n == 0 {
        Seq::empty()
    } else {
        let i = n - 1;
        let last = section(outputs[i].0, outputs[i].1, weights[i]);
        if n == 1 {
            last
        } else {
            sections(outputs, weights, (n - 1) as nat) + "\n\n"@ + last
        }
    }
}

/// The fused text of experts' outputs, given as pairs of name and text.
pub open spec fn fused(outputs: Seq<(Seq<char>, Seq<char>)>, weights: Seq<Seq<char>>) -> Seq<
    char,
> {
    if outputs.len() == 1 {
        outputs[0].1
    } else {
        sections(outputs, weights, outputs.len())
    }
}

/// The characters of pairs of strings.
pub open spec fn pair_views(v: Seq<(String, String)>) -> Seq<(Seq<char>, Seq<char>)> {
    v.map_values(|p: (String, String)| (p.0@, p.1@))
}

/// Fuses experts' outputs, given as pairs of name and text. `weights` holds the
/// fusion weight of each expert as it is to be shown, with two decimals.
pub fn text_fuse(outputs: &[(String, String)], weights: &[String]) -> (r: String)
    requires
        outputs@.len() == weights@.len(),
        outputs@.len() > 0,
    ensures
        r@ == fused(pair_views(outputs@), text::views(weights@)),
{
    let n: usize = outputs.len();
    if n == 1 {
        return outputs[0].1.clone();
    }
    let mut r: String = String::new();
    let mut i: usize = 0;
    while i < n
        invariant
            i <= n,
            n == outputs@.len(),
            n == weights@.len(),
            r@ == sections(pair_views(outputs@), text::views(weights@), i as nat),
        decreases n - i,
    {
        if i > 0 {
            r.append("\n\n");
        }
        let mut part = text::concat3("[", outputs[i].0.as_str(), " · weight=");
        part.append(weights[i].as_str());
        part.append("]\n");
        part.append(outputs[i].1.as_str());
        r.append(part.as_str());
        assert(r@ =~= sections(pair_views(outputs@), text::views(weights@), (i + 1) as nat));
        i = i + 1;
    }
    r
}

/// A single expert's text passes through untouched.
pub proof fn single_output_passes_through(
    outputs: Seq<(Seq<char>, Seq<char>)>,
    weights: Seq<Seq<char>>,
)
    requires
        outputs.len() == 1,
    ensures
        fused(outputs, weights) == outputs[0].1,
{
}

/// Nothing is lost: the text of every expert stands in the fused text.
pub proof fn every_output_is_in_the_fused_text(
    outputs: Seq<(Seq<char>, Seq<char>)>,
    weights: Seq<Seq<char>>,
    i: int,
)
    requires
        outputs.len() == weights.len(),
        0 <= i < outputs.len(),
    ensures
        text::contains(fused(outputs, weights), outputs[i].1),
{
    if outputs.len() == 1 {
        let s = outputs[0].1;
        assert(s.subrange(0, s.len() as int) =~= s);
        assert(text::occurs_at(s, s, 0));
    } else {
        lemma_output_in_sections(outputs, weights, outputs.len(), i);
    }
}

proof fn lemma_output_in_sections(
    outputs: Seq<(Seq<char>, Seq<char>)>,
    weights: Seq<Seq<char>>,
    n: nat,
    i: int,
)
    requires
        0 <= i < n,
    ensures
        text::contains(sections(outputs, weights, n), outputs[i].1),
    decreases n,
{
    let all = sections(outputs, weights, n);
    let out = outputs[i].1;
    if i == n - 1 {
        let at = all.len() - out.len();
        assert(all.subrange(at, at + out.len()) =~= out);
        assert(text::occurs_at(all, out, at));
    } else {
        let before = sections(outputs, weights, (n - 1) as nat);
        lemma_output_in_sections(outputs, weights, (n - 1) as nat, i);
        let at = choose|at: int| text::occurs_at(before, out, at);
        assert(all.subrange(at, at + out.len()) =~= before.subrange(at, at + out.len()));
        assert(text::occurs_at(all, out, at));
    }
}

/// Two outputs or more stand one behind the other, each under a heading with its
/// expert's name and weight, an empty line between them: so it is of the first two, and
/// every further output adds its section at the end.
pub proof fn outputs_stand_under_their_headings(
    outputs: Seq<(Seq<char>, Seq<char>)>,
    weights: Seq<Seq<char>>,
    name: Seq<char>,
    text: Seq<char>,
    weight: Seq<char>,
)
    requires
        outputs.len() == weights.len(),
        outputs.len() > 0,
    ensures
        ({
            let more = fused(outputs.push((name, text)), weights.push(weight));
            let added = "\n\n"@ + ("["@ + name + " · weight="@ + weight + "]\n"@ + text);
            &&& outputs.len() >= 2 ==> more == fused(outputs, weights) + added
            &&& outputs.len() == 1 ==> more == "["@ + outputs[0].0 + " · weight="@ + weights[0]
                + "]\n"@ + fused(outputs, weights) + added
        }),
{
    let n = outputs.len();
    let longer = outputs.push((name, text));
    let shown = weights.push(weight);
    lemma_sections_prefix(outputs, weights, (name, text), weight, n);
    assert(longer[n as int] == (name, text));
    assert(shown[n as int] == weight);
    let last = section(name, text, weight);
    assert(sections(longer, shown, n + 1) == sections(longer, shown, n) + "\n\n"@ + last);
    assert(fused(longer, shown) =~= sections(outputs, weights, n) + ("\n\n"@ + last));
    if n == 1 {
        assert(sections(outputs, weights, 1) == section(outputs[0].0, outputs[0].1, weights[0]));
    }
}

/// Further outputs leave the sections of the first ones as they are.
proof fn lemma_sections_prefix(
    outputs: Seq<(Seq<char>, Seq<char>)>,
    weights: Seq<Seq<char>>,
    more: (Seq<char>, Seq<char>),
    weight: Seq<char>,
    n: nat,
)
    requires
        outputs.len() == weights.len(),
        n <= outputs.len(),
    ensures
        sections(outputs.push(more), weights.push(weight), n) == sections(outputs, weights, n),
    decreases n,
{
    if n > 0 {
        lemma_sections_prefix(outputs, weights, more, weight, (n - 1) as nat);
    }
}

/// A list of pairs is viewed pair by pair, in its order.
pub proof fn pair_views_keep_every_pair(v: Seq<(String, String)>, i: int)
    requires
        0 <= i < v.len(),
    ensures
        pair_views(v).len() == v.len(),
        pair_views(v)[i].0 == v[i].0@,
        pair_views(v)[i].1 == v[i].1@,
{
}

}
