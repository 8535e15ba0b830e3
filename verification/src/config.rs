//! What makes a list of passes a valid graph, and which fault is reported
//! when it is not.
//!
//! The registry lists every produced image once: first the images that the
//! caller supplies, then the outputs of each pass, in declared order. A pass
//! may sample only what stands in the registry before its own outputs.

use crate::images::{
    declared_state, supplied_state, tags_of, FixedImageView, ImageDeclView, ImageState, Origin,
};
use crate::pass::PassView;
use crate::tags::Tag;
use vstd::prelude::*;

verus! {

/// The registry entries of the outputs that a pass declares.
pub open spec fn declared_states(created: Seq<ImageDeclView>, pass: int) -> Seq<ImageState> {
    created.map_values(|decl: ImageDeclView| declared_state(decl, pass))
}

/// The registry as it stands before the outputs of pass `n` are entered: the
/// supplied images, then the outputs of passes `0..n`.
pub open spec fn registry_before(
    passes: Seq<PassView>,
    fixed: Seq<FixedImageView>,
    n: int,
) -> Seq<ImageState>
    decreases n,
{
    if n <= 0 {
        fixed.map_values(|image: FixedImageView| supplied_state(image))
    } else {
        registry_before(passes, fixed, n - 1) + declared_states(passes[n - 1].created, n - 1)
    }
}

/// The whole registry of a configuration, nothing created yet but what the
/// caller supplied.
pub open spec fn registry(passes: Seq<PassView>, fixed: Seq<FixedImageView>) -> Seq<ImageState> {
    registry_before(passes, fixed, passes.len() as int)
}

/// The position of the first output of pass `n` in the registry.
pub open spec fn first_output(passes: Seq<PassView>, fixed: Seq<FixedImageView>, n: int) -> int {
    registry_before(passes, fixed, n).len() as int
}

/// Every produced tag, in registry order.
pub open spec fn produced_tags(passes: Seq<PassView>, fixed: Seq<FixedImageView>) -> Seq<Tag> {
    tags_of(registry(passes, fixed))
}

/// `k` is the first position in `tags` whose tag already occurs before it.
pub open spec fn is_first_duplicate(tags: Seq<Tag>, k: int) -> bool {
    &&& 0 <= k < tags.len()
    &&& tags.take(k).no_duplicates()
    &&& tags.take(k).contains(tags[k])
}

/// The `j`-th input of pass `i` is produced by the caller or by an earlier
/// pass.
pub open spec fn input_resolved(
    passes: Seq<PassView>,
    fixed: Seq<FixedImageView>,
    i: int,
    j: int,
) -> bool {
    tags_of(registry_before(passes, fixed, i)).contains(passes[i].needed[j])
}

/// Every input of every pass before `(i, j)`, in declared order, is resolved.
pub open spec fn inputs_resolved_before(
    passes: Seq<PassView>,
    fixed: Seq<FixedImageView>,
    i: int,
    j: int,
) -> bool {
    forall|p: int, q: int|
        0 <= p < passes.len() && 0 <= q < passes[p].needed.len() && (p < i || (p == i && q < j))
            ==> #[trigger] input_resolved(passes, fixed, p, q)
}

/// Every input of every pass is resolved.
pub open spec fn inputs_resolved(passes: Seq<PassView>, fixed: Seq<FixedImageView>) -> bool {
    forall|p: int, q: int|
        0 <= p < passes.len() && 0 <= q < passes[p].needed.len() ==> #[trigger] input_resolved(
            passes,
            fixed,
            p,
            q,
        )
}

/// `(i, j)` is the first input, in declared order, that nothing before its
/// pass produces.
pub open spec fn is_first_missing(
    passes: Seq<PassView>,
    fixed: Seq<FixedImageView>,
    i: int,
    j: int,
) -> bool {
    &&& 0 <= i < passes.len()
    &&& 0 <= j < passes[i].needed.len()
    &&& !input_resolved(passes, fixed, i, j)
    &&& inputs_resolved_before(passes, fixed, i, j)
}

/// Some pass produces `tag`: an image that the caller supplied does not count.
pub open spec fn pass_produces(
    passes: Seq<PassView>,
    fixed: Seq<FixedImageView>,
    tag: Tag,
) -> bool {
    produced_tags(passes, fixed).skip(fixed.len() as int).contains(tag)
}

/// A configuration is valid when no tag is produced twice, every input is
/// produced before the pass that needs it, and some pass produces the image
/// that is to be presented.
pub open spec fn valid_config(
    passes: Seq<PassView>,
    fixed: Seq<FixedImageView>,
    output: Tag,
) -> bool {
    &&& produced_tags(passes, fixed).no_duplicates()
    &&& inputs_resolved(passes, fixed)
    &&& pass_produces(passes, fixed, output)
}

/// The registry only grows from pass to pass: what stands before pass `i`
/// still stands, at the same positions, before any later pass.
pub proof fn lemma_registry_grows(
    passes: Seq<PassView>,
    fixed: Seq<FixedImageView>,
    i: int,
    n: int,
)
    requires
        0 <= i <= n,
    ensures
        registry_before(passes, fixed, i).len() <= registry_before(passes, fixed, n).len(),
        registry_before(passes, fixed, n).take(registry_before(passes, fixed, i).len() as int)
            == registry_before(passes, fixed, i),
    decreases n - i,
{
    let early = registry_before(passes, fixed, i);
    if i == n {
        assert(early.take(early.len() as int) =~= early);
    } else {
        lemma_registry_grows(passes, fixed, i, n - 1);
        let before = registry_before(passes, fixed, n - 1);
        let later = registry_before(passes, fixed, n);
        assert(later == before + declared_states(passes[n - 1].created, n - 1));
        assert(later.take(early.len() as int) =~= before.take(early.len() as int));
    }
}

/// The registry starts with the supplied images.
pub proof fn lemma_registry_starts_with_fixed(
    passes: Seq<PassView>,
    fixed: Seq<FixedImageView>,
    n: int,
)
    requires
        0 <= n,
    ensures
        fixed.len() <= registry_before(passes, fixed, n).len(),
        forall|k: int|
            0 <= k < fixed.len() ==> #[trigger] registry_before(passes, fixed, n)[k]
                == supplied_state(fixed[k]),
{
    lemma_registry_grows(passes, fixed, 0, n);
    let start = registry_before(passes, fixed, 0);
    let whole = registry_before(passes, fixed, n);
    assert(start.len() == fixed.len());
    assert forall|k: int| 0 <= k < fixed.len() implies #[trigger] whole[k] == supplied_state(
        fixed[k],
    ) by {
        assert(whole.take(start.len() as int)[k] == start[k]);
    }
}

/// The outputs of pass `i` stand in the registry from `first_output` on, one
/// entry per declaration, in declared order.
pub proof fn lemma_registry_holds_outputs(
    passes: Seq<PassView>,
    fixed: Seq<FixedImageView>,
    i: int,
    n: int,
)
    requires
        0 <= i < n,
    ensures
        first_output(passes, fixed, i) + passes[i].created.len() == first_output(
            passes,
            fixed,
            i + 1,
        ),
        first_output(passes, fixed, i + 1) <= registry_before(passes, fixed, n).len(),
        forall|j: int|
            0 <= j < passes[i].created.len() ==> #[trigger] registry_before(
                passes,
                fixed,
                n,
            )[first_output(passes, fixed, i) + j] == declared_state(passes[i].created[j], i),
{
    lemma_registry_grows(passes, fixed, i + 1, n);
    let next = registry_before(passes, fixed, i + 1);
    let whole = registry_before(passes, fixed, n);
    let start = first_output(passes, fixed, i);
    assert(next == registry_before(passes, fixed, i) + declared_states(passes[i].created, i));
    assert forall|j: int| 0 <= j < passes[i].created.len() implies #[trigger] whole[start + j]
        == declared_state(passes[i].created[j], i) by {
        assert(whole.take(next.len() as int)[start + j] == next[start + j]);
    }
}

/// An entry of the registry is a supplied image exactly when it stands among
/// the first `fixed.len()` entries.
pub proof fn lemma_origin_tells_source(
    passes: Seq<PassView>,
    fixed: Seq<FixedImageView>,
    n: int,
    k: int,
)
    requires
        0 <= n,
        0 <= k < registry_before(passes, fixed, n).len(),
    ensures
        k < fixed.len() <==> registry_before(passes, fixed, n)[k].origin == Origin::Supplied,
    decreases n,
{
    if n == 0 {
    } else {
        let before = registry_before(passes, fixed, n - 1);
        lemma_registry_starts_with_fixed(passes, fixed, n - 1);
        if k < before.len() {
            lemma_origin_tells_source(passes, fixed, n - 1, k);
        }
    }
}

/// The entries of supplied images exist from the start; the entries of pass
/// outputs start out not created.
pub proof fn lemma_only_supplied_exist(
    passes: Seq<PassView>,
    fixed: Seq<FixedImageView>,
    n: int,
    k: int,
)
    requires
        0 <= n,
        0 <= k < registry_before(passes, fixed, n).len(),
    ensures
        k < fixed.len() ==> registry_before(passes, fixed, n)[k] == supplied_state(fixed[k]),
        k >= fixed.len() ==> registry_before(passes, fixed, n)[k].extent is None,
    decreases n,
{
    if n == 0 {
    } else {
        let before = registry_before(passes, fixed, n - 1);
        lemma_registry_starts_with_fixed(passes, fixed, n - 1);
        if k < before.len() {
            lemma_only_supplied_exist(passes, fixed, n - 1, k);
        }
    }
}

/// The registry while the supplied images are entered: after `i` of them it
/// holds their entries and nothing else.
pub proof fn lemma_partial_supplied(passes: Seq<PassView>, fixed: Seq<FixedImageView>, i: int)
    requires
        0 <= i <= fixed.len(),
    ensures
        fixed.len() <= registry(passes, fixed).len(),
        registry(passes, fixed).take(i) == registry_before(passes, fixed, 0).take(i),
        i < fixed.len() ==> registry(passes, fixed)[i] == supplied_state(fixed[i]),
{
    lemma_registry_grows(passes, fixed, 0, passes.len() as int);
    lemma_registry_starts_with_fixed(passes, fixed, passes.len() as int);
    let start = registry_before(passes, fixed, 0);
    let whole = registry(passes, fixed);
    assert(whole.take(i) =~= whole.take(start.len() as int).take(i));
}

/// The registry while the outputs of pass `i` are entered: after `j` of them
/// it holds what stood before the pass and the entries of those `j`.
pub proof fn lemma_partial_outputs(
    passes: Seq<PassView>,
    fixed: Seq<FixedImageView>,
    i: int,
    j: int,
)
    requires
        0 <= i < passes.len(),
        0 <= j <= passes[i].created.len(),
    ensures
        first_output(passes, fixed, i) + passes[i].created.len() == first_output(
            passes,
            fixed,
            i + 1,
        ),
        first_output(passes, fixed, i + 1) <= registry(passes, fixed).len(),
        registry(passes, fixed).take(first_output(passes, fixed, i) + j) == registry_before(
            passes,
            fixed,
            i,
        ) + declared_states(passes[i].created, i).take(j),
        j < passes[i].created.len() ==> registry(passes, fixed)[first_output(passes, fixed, i)
            + j] == declared_state(passes[i].created[j], i),
{
    let n = passes.len() as int;
    lemma_registry_holds_outputs(passes, fixed, i, n);
    lemma_registry_grows(passes, fixed, i + 1, n);
    let before = registry_before(passes, fixed, i);
    let next = registry_before(passes, fixed, i + 1);
    let whole = registry(passes, fixed);
    assert(next == before + declared_states(passes[i].created, i));
    assert(whole.take(before.len() + j) =~= whole.take(next.len() as int).take(before.len() + j));
    assert(next.take(before.len() + j) =~= before + declared_states(passes[i].created, i).take(j));
}

/// Taking the first entries and reading their tags is reading the tags and
/// taking the first of them.
pub proof fn lemma_tags_of_take(images: Seq<ImageState>, k: int)
    requires
        0 <= k <= images.len(),
    ensures
        tags_of(images.take(k)) == tags_of(images).take(k),
{
    assert(tags_of(images.take(k)) =~= tags_of(images).take(k));
}

} // verus!
