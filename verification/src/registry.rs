//! Building and updating the tag registry: entering the supplied images and
//! the outputs of each pass, resolving the inputs of each pass, and creating
//! or rebuilding images in place.

use crate::build_once::lemma_push_absent_keeps_distinct;
use crate::config::{
    declared_states, first_output, input_resolved, inputs_resolved_before, is_first_duplicate,
    is_first_missing, lemma_partial_outputs, lemma_partial_supplied, lemma_registry_grows,
    lemma_tags_of_take, produced_tags, registry, registry_before,
};
use crate::error::{reports_duplicate, reports_missing_input, ConfigError};
use crate::frame::OutputBinding;
use crate::graph_state::{created_image, follows_surface, names_rebuilt, resized_image};
use crate::images::{
    declared_state, extent_under, fixed_views, slot_views, supplied_state, tags_of, Extent,
    FixedImage, FixedImageView, ImageSlot, Origin, Sizing,
};
use crate::pass::{Pass, PassView};
use vstd::prelude::*;

verus! {

/// Finds the entry with this tag among the entries `from..to`.
pub(crate) fn find_slot(
    images: &Vec<ImageSlot>,
    from: usize,
    to: usize,
    tag: &String,
) -> (found: Option<usize>)
    requires
        from <= to <= images.len(),
    ensures
        match found {
            Some(k) => from <= k < to && tags_of(slot_views(images@))[k as int] == tag@,
            None => forall|k: int| from <= k < to ==> tags_of(slot_views(images@))[k] != tag@,
        },
{
    let mut k: usize = from;
    while k < to
        invariant
            from <= k <= to <= images.len(),
            forall|j: int| from <= j < k ==> tags_of(slot_views(images@))[j] != tag@,
        decreases to - k,
    {
        if images[k].tag == *tag {
            return Some(k);
        }
        k += 1;
    }
    None
}

/// Enters the caller-supplied images into an empty registry.
pub(crate) fn enter_supplied(
    fixed: &Vec<FixedImage>,
    Ghost(passes): Ghost<Seq<PassView>>,
) -> (entered: Result<Vec<ImageSlot>, ConfigError>)
    ensures
        match entered {
            Ok(images) => {
                &&& slot_views(images@) == registry_before(passes, fixed_views(fixed@), 0)
                &&& tags_of(slot_views(images@)).no_duplicates()
            },
            Err(error) => reports_duplicate(error, passes, fixed_views(fixed@)),
        },
{
    let ghost supplied = fixed_views(fixed@);
    let ghost whole = registry(passes, supplied);
    let mut images: Vec<ImageSlot> = Vec::new();
    let mut i: usize = 0;
    assert(slot_views(images@) =~= registry_before(passes, supplied, 0).take(0));
    while i < fixed.len()
        invariant
            i <= fixed.len(),
            supplied == fixed_views(fixed@),
            whole == registry(passes, supplied),
            images.len() == i,
            slot_views(images@) == registry_before(passes, supplied, 0).take(i as int),
            tags_of(slot_views(images@)).no_duplicates(),
        decreases fixed.len() - i,
    {
        let ghost tags = tags_of(slot_views(images@));
        proof {
            lemma_partial_supplied(passes, supplied, i as int);
            lemma_tags_of_take(whole, i as int);
            assert(whole[i as int].tag == fixed@[i as int].tag@);
        }
        match find_slot(&images, 0, images.len(), &fixed[i].tag) {
            Some(k) => {
                let error = ConfigError::DuplicateTag {
                    origin: Origin::Supplied,
                    tag: fixed[i].tag.clone(),
                };
                proof {
                    let all = produced_tags(passes, supplied);
                    assert(all.take(i as int)[k as int] == all[i as int]);
                    assert(is_first_duplicate(all, i as int));
                }
                return Err(error);
            },
            None => {
                let slot = ImageSlot {
                    tag: fixed[i].tag.clone(),
                    format: fixed[i].format,
                    sizing: Sizing::Fixed(fixed[i].extent),
                    origin: Origin::Supplied,
                    extent: Some(fixed[i].extent),
                };
                assert(slot@ == supplied_state(supplied[i as int]));
                images.push(slot);
                proof {
                    lemma_push_absent_keeps_distinct(tags, slot@.tag);
                    assert(tags_of(slot_views(images@)) =~= tags.push(slot@.tag));
                    assert(slot_views(images@) =~= registry_before(passes, supplied, 0).take(
                        i + 1,
                    ));
                }
            },
        }
        i += 1;
    }
    assert(registry_before(passes, supplied, 0).take(i as int) =~= registry_before(
        passes,
        supplied,
        0,
    ));
    Ok(images)
}

/// Enters the outputs of the pass at position `index` into the registry.
pub(crate) fn enter_outputs(
    pass: &Pass,
    index: usize,
    images: &mut Vec<ImageSlot>,
    Ghost(passes): Ghost<Seq<PassView>>,
    Ghost(fixed): Ghost<Seq<FixedImageView>>,
) -> (entered: Result<(), ConfigError>)
    requires
        index < passes.len(),
        passes[index as int] == pass@,
        slot_views(old(images)@) == registry_before(passes, fixed, index as int),
        tags_of(slot_views(old(images)@)).no_duplicates(),
    ensures
        match entered {
            Ok(_) => {
                &&& slot_views(final(images)@) == registry_before(passes, fixed, index + 1)
                &&& tags_of(slot_views(final(images)@)).no_duplicates()
            },
            Err(error) => reports_duplicate(error, passes, fixed),
        },
{
    let ghost whole = registry(passes, fixed);
    let ghost before = registry_before(passes, fixed, index as int);
    let ghost declared = declared_states(pass@.created, index as int);
    let mut j: usize = 0;
    assert(slot_views(images@) =~= before + declared.take(0));
    while j < pass.created.len()
        invariant
            j <= pass.created.len(),
            index < passes.len(),
            passes[index as int] == pass@,
            whole == registry(passes, fixed),
            before == registry_before(passes, fixed, index as int),
            declared == declared_states(pass@.created, index as int),
            images.len() == before.len() + j,
            slot_views(images@) == before + declared.take(j as int),
            tags_of(slot_views(images@)).no_duplicates(),
        decreases pass.created.len() - j,
    {
        let ghost tags = tags_of(slot_views(images@));
        let ghost here = before.len() + j;
        proof {
            lemma_partial_outputs(passes, fixed, index as int, j as int);
            lemma_tags_of_take(whole, here as int);
            assert(pass@.created[j as int] == pass.created@[j as int]@);
            assert(whole[here as int].tag == pass.created@[j as int].tag@);
        }
        match find_slot(images, 0, images.len(), &pass.created[j].tag) {
            Some(k) => {
                let error = ConfigError::DuplicateTag {
                    origin: Origin::Pass(index),
                    tag: pass.created[j].tag.clone(),
                };
                proof {
                    let all = produced_tags(passes, fixed);
                    assert(all.take(here as int)[k as int] == all[here as int]);
                    assert(is_first_duplicate(all, here as int));
                }
                return Err(error);
            },
            None => {
                let slot = ImageSlot {
                    tag: pass.created[j].tag.clone(),
                    format: pass.created[j].format,
                    sizing: pass.created[j].sizing,
                    origin: Origin::Pass(index),
                    extent: None,
                };
                assert(slot@ == declared_state(pass@.created[j as int], index as int));
                let ghost earlier = slot_views(images@);
                images.push(slot);
                proof {
                    assert(slot_views(images@) =~= earlier.push(slot@));
                    assert(declared[j as int] == slot@);
                    lemma_push_absent_keeps_distinct(tags, slot@.tag);
                    assert(tags_of(slot_views(images@)) =~= tags.push(slot@.tag));
                    assert(declared.take(j + 1) =~= declared.take(j as int).push(slot@));
                    assert(slot_views(images@) =~= before + declared.take(j + 1));
                }
            },
        }
        j += 1;
    }
    assert(declared.take(j as int) =~= declared);
    Ok(())
}

/// Resolves the inputs of the pass at position `index` against the entries
/// that stand before its outputs.
pub(crate) fn resolve_inputs(
    pass: &Pass,
    index: usize,
    images: &Vec<ImageSlot>,
    limit: usize,
    Ghost(passes): Ghost<Seq<PassView>>,
    Ghost(fixed): Ghost<Seq<FixedImageView>>,
) -> (resolved: Result<Vec<usize>, ConfigError>)
    requires
        index < passes.len(),
        passes[index as int] == pass@,
        slot_views(images@) == registry(passes, fixed),
        limit == first_output(passes, fixed, index as int),
        inputs_resolved_before(passes, fixed, index as int, 0),
    ensures
        match resolved {
            Ok(row) => {
                &&& row@.len() == pass@.needed.len()
                &&& forall|j: int|
                    0 <= j < row@.len() ==> (#[trigger] row@[j]) < limit && tags_of(
                        slot_views(images@),
                    )[row@[j] as int] == pass@.needed[j]
                &&& inputs_resolved_before(passes, fixed, index + 1, 0)
            },
            Err(error) => reports_missing_input(error, passes, fixed),
        },
{
    let ghost whole = registry(passes, fixed);
    let ghost tags = tags_of(whole);
    let mut row: Vec<usize> = Vec::new();
    let mut j: usize = 0;
    proof {
        lemma_registry_grows(passes, fixed, index as int, passes.len() as int);
        lemma_tags_of_take(whole, limit as int);
    }
    while j < pass.needed_tags.len()
        invariant
            j <= pass.needed_tags.len(),
            index < passes.len(),
            passes[index as int] == pass@,
            whole == registry(passes, fixed),
            tags == tags_of(whole),
            slot_views(images@) == whole,
            limit <= images.len(),
            tags_of(registry_before(passes, fixed, index as int)) == tags.take(limit as int),
            row@.len() == j,
            forall|q: int| 0 <= q < j ==> (#[trigger] row@[q]) < limit && tags[row@[q] as int]
                == pass@.needed[q],
            inputs_resolved_before(passes, fixed, index as int, j as int),
        decreases pass.needed_tags.len() - j,
    {
        assert(pass@.needed[j as int] == pass.needed_tags@[j as int]@);
        match find_slot(images, 0, limit, &pass.needed_tags[j]) {
            Some(k) => {
                row.push(k);
                proof {
                    assert(tags.take(limit as int)[k as int] == pass@.needed[j as int]);
                    assert(input_resolved(passes, fixed, index as int, j as int));
                }
            },
            None => {
                let error = ConfigError::MissingInput {
                    pass: index,
                    tag: pass.needed_tags[j].clone(),
                };
                proof {
                    assert(!tags.take(limit as int).contains(pass@.needed[j as int])) by {
                        if tags.take(limit as int).contains(pass@.needed[j as int]) {
                            let k = tags.take(limit as int).index_of(pass@.needed[j as int]);
                            assert(tags.take(limit as int)[k] == tags[k]);
                        }
                    }
                    assert(!input_resolved(passes, fixed, index as int, j as int));
                    assert(is_first_missing(passes, fixed, index as int, j as int));
                    assert(error->MissingInput_pass == index);
                    assert(exists|q: int|
                        #[trigger] is_first_missing(passes, fixed, index as int, q)
                            && error->MissingInput_tag@ == passes[index as int].needed[q]);
                }
                return Err(error);
            },
        }
        j += 1;
    }
    Ok(row)
}

/// The size that an image with this sizing rule has under this surface.
pub(crate) fn resolve_extent(sizing: Sizing, surface: Extent) -> (extent: Extent)
    ensures
        extent == extent_under(sizing, surface),
{
    match sizing {
        Sizing::Fixed(extent) => extent,
        Sizing::WindowRelative => surface,
    }
}

/// Rebuilds at the new extent every image that exists and follows the
/// surface, and lists their positions.
pub(crate) fn rebuild_for_surface(
    images: &mut Vec<ImageSlot>,
    surface: Extent,
) -> (rebuilt: Vec<usize>)
    ensures
        slot_views(final(images)@) == Seq::new(
            old(images)@.len(),
            |k: int| resized_image(slot_views(old(images)@)[k], surface),
        ),
        names_rebuilt(slot_views(old(images)@), rebuilt@),
{
    let ghost before = slot_views(images@);
    let mut rebuilt: Vec<usize> = Vec::new();
    let mut k: usize = 0;
    while k < images.len()
        invariant
            k <= images.len(),
            images.len() == before.len(),
            forall|j: int| 0 <= j < k ==> #[trigger] slot_views(images@)[j] == resized_image(
                before[j],
                surface,
            ),
            forall|j: int|
                k <= j < images.len() ==> #[trigger] slot_views(images@)[j] == before[j],
            forall|m: int|
                0 <= m < rebuilt@.len() ==> (#[trigger] rebuilt@[m]) < k && follows_surface(
                    before[rebuilt@[m] as int],
                ),
            forall|m: int, n: int| 0 <= m < n < rebuilt@.len() ==> rebuilt@[m] < rebuilt@[n],
            forall|j: int|
                0 <= j < k && follows_surface(#[trigger] before[j]) ==> rebuilt@.contains(
                    j as usize,
                ),
        decreases images.len() - k,
    {
        assert(slot_views(images@)[k as int] == before[k as int]);
        let follows = match images[k].sizing {
            Sizing::Fixed(_) => false,
            Sizing::WindowRelative => images[k].extent.is_some(),
        };
        if follows {
            let ghost listed = rebuilt@;
            let ghost prior = images@;
            images[k].extent = Some(surface);
            rebuilt.push(k);
            proof {
                assert(images@[k as int]@ == resized_image(before[k as int], surface));
                assert forall|j: int| 0 <= j < images.len() && j != k implies #[trigger] slot_views(
                    images@,
                )[j] == slot_views(prior)[j] by {
                    assert(images@[j] == prior[j]);
                }
                assert(rebuilt@[listed.len() as int] == k);
                assert forall|j: int|
                    0 <= j < k + 1 && follows_surface(#[trigger] before[j]) implies
                    rebuilt@.contains(j as usize) by {
                    if j < k {
                        let m = listed.index_of(j as usize);
                        assert(rebuilt@[m] == j as usize);
                    }
                }
            }
        }
        k += 1;
    }
    assert(slot_views(images@) =~= Seq::new(
        before.len(),
        |k: int| resized_image(before[k], surface),
    ));
    rebuilt
}

/// Creates, where they do not exist yet, the images at `first..end`, and
/// says for each how it is bound.
pub(crate) fn bind_outputs(
    images: &mut Vec<ImageSlot>,
    first: usize,
    end: usize,
    surface: Extent,
) -> (bound: Vec<OutputBinding>)
    requires
        first <= end <= old(images)@.len(),
    ensures
        slot_views(final(images)@) == Seq::new(
            old(images)@.len(),
            |k: int|
                if first <= k < end {
                    created_image(slot_views(old(images)@)[k], surface)
                } else {
                    slot_views(old(images)@)[k]
                },
        ),
        bound@ == Seq::new(
            (end - first) as nat,
            |j: int|
                OutputBinding {
                    slot: (first + j) as usize,
                    extent: extent_under(slot_views(old(images)@)[first + j].sizing, surface),
                    fresh: slot_views(old(images)@)[first + j].extent is None,
                },
        ),
{
    let ghost before = slot_views(images@);
    let mut bound: Vec<OutputBinding> = Vec::new();
    let mut k: usize = first;
    while k < end
        invariant
            first <= k <= end <= images.len(),
            images.len() == before.len(),
            forall|j: int| first <= j < k ==> #[trigger] slot_views(images@)[j] == created_image(
                before[j],
                surface,
            ),
            forall|j: int|
                0 <= j < images.len() && !(first <= j < k) ==> #[trigger] slot_views(images@)[j]
                    == before[j],
            bound@.len() == k - first,
            forall|j: int|
                0 <= j < k - first ==> #[trigger] bound@[j] == (OutputBinding {
                    slot: (first + j) as usize,
                    extent: extent_under(before[first + j].sizing, surface),
                    fresh: before[first + j].extent is None,
                }),
        decreases end - k,
    {
        assert(slot_views(images@)[k as int] == before[k as int]);
        let extent = resolve_extent(images[k].sizing, surface);
        let fresh = images[k].extent.is_none();
        let ghost prior = images@;
        images[k].extent = Some(extent);
        bound.push(OutputBinding { slot: k, extent, fresh });
        proof {
            assert(images@[k as int]@ == created_image(before[k as int], surface));
            assert forall|j: int|
                0 <= j < images.len() && j != k implies #[trigger] slot_views(images@)[j]
                == slot_views(prior)[j] by {
                assert(images@[j] == prior[j]);
            }
        }
        k += 1;
    }
    assert(slot_views(images@) =~= Seq::new(
        before.len(),
        |k: int|
            if first <= k < end {
                created_image(before[k], surface)
            } else {
                before[k]
            },
    ));
    assert(bound@ =~= Seq::new(
        (end - first) as nat,
        |j: int|
            OutputBinding {
                slot: (first + j) as usize,
                extent: extent_under(before[first + j].sizing, surface),
                fresh: before[first + j].extent is None,
            },
    ));
    bound
}

/// A copy of a list of registry positions.
pub(crate) fn copy_slots(slots: &Vec<usize>) -> (copy: Vec<usize>)
    ensures
        copy@ == slots@,
{
    let mut copy: Vec<usize> = Vec::new();
    let mut i: usize = 0;
    while i < slots.len()
        invariant
            i <= slots.len(),
            copy@ == slots@.take(i as int),
        decreases slots.len() - i,
    {
        copy.push(slots[i]);
        assert(slots@.take(i as int).push(slots@[i as int]) =~= slots@.take(i + 1));
        i += 1;
    }
    assert(slots@.take(slots.len() as int) =~= slots@);
    copy
}

} // verus!
