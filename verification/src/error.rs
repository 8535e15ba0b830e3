//! The faults of a configuration. All of them are found before any frame
//! runs, and none can be mended at frame time.

use crate::config::{
    input_resolved, inputs_resolved, is_first_duplicate, is_first_missing, pass_produces,
    produced_tags, registry, valid_config,
};
use crate::images::{FixedImageView, Origin};
use crate::pass::PassView;
use crate::tags::Tag;
use vstd::prelude::*;

verus! {

/// Why a graph was refused.
#[derive(Clone, Debug, PartialEq, Eq)]
pub enum ConfigError {
    /// `tag` is produced a second time, by the source `origin`.
    DuplicateTag { origin: Origin, tag: String },
    /// The pass at position `pass` needs `tag`, which neither the caller nor
    /// an earlier pass produces.
    MissingInput { pass: usize, tag: String },
    /// No pass produces the image selected for presentation.
    UnknownOutput { tag: String },
    /// No pass has this name.
    UnknownPass { name: String },
}

/// `error` names the first tag, in registry order, that is produced twice,
/// and the source that produces it the second time.
pub open spec fn reports_duplicate(
    error: ConfigError,
    passes: Seq<PassView>,
    fixed: Seq<FixedImageView>,
) -> bool {
    error matches ConfigError::DuplicateTag { origin, tag } && exists|k: int|
        {
            &&& #[trigger] is_first_duplicate(produced_tags(passes, fixed), k)
            &&& tag@ == produced_tags(passes, fixed)[k]
            &&& origin == registry(passes, fixed)[k].origin
        }
}

/// `error` names the first input, in declared order, that nothing before its
/// pass produces.
pub open spec fn reports_missing_input(
    error: ConfigError,
    passes: Seq<PassView>,
    fixed: Seq<FixedImageView>,
) -> bool {
    error matches ConfigError::MissingInput { pass, tag } && exists|j: int|
        {
            &&& #[trigger] is_first_missing(passes, fixed, pass as int, j)
            &&& tag@ == passes[pass as int].needed[j]
        }
}

/// `error` is the one fault that a configuration is refused for: a tag
/// produced twice; else an input not produced in time; else an output that
/// no pass produces.
pub open spec fn explains_refusal(
    error: ConfigError,
    passes: Seq<PassView>,
    fixed: Seq<FixedImageView>,
    output: Tag,
) -> bool {
    match error {
        ConfigError::DuplicateTag { .. } => reports_duplicate(error, passes, fixed),
        ConfigError::MissingInput { .. } => {
            &&& produced_tags(passes, fixed).no_duplicates()
            &&& reports_missing_input(error, passes, fixed)
        },
        ConfigError::UnknownOutput { tag } => {
            &&& produced_tags(passes, fixed).no_duplicates()
            &&& inputs_resolved(passes, fixed)
            &&& !pass_produces(passes, fixed, output)
            &&& tag@ == output
        },
        ConfigError::UnknownPass { .. } => false,
    }
}

/// A configuration that is refused for a fault is not valid: construction
/// cannot both fail and have been owed.
pub proof fn lemma_refusal_means_invalid(
    error: ConfigError,
    passes: Seq<PassView>,
    fixed: Seq<FixedImageView>,
    output: Tag,
)
    requires
        explains_refusal(error, passes, fixed, output),
    ensures
        !valid_config(passes, fixed, output),
{
    let tags = produced_tags(passes, fixed);
    match error {
        ConfigError::DuplicateTag { origin, tag } => {
            let k = choose|k: int|
                {
                    &&& #[trigger] is_first_duplicate(tags, k)
                    &&& tag@ == tags[k]
                    &&& origin == registry(passes, fixed)[k].origin
                };
            let m = tags.take(k).index_of(tags[k]);
            assert(0 <= m < k && tags.take(k)[m] == tags[k]);
            assert(tags[m] == tags[k]);
        },
        ConfigError::MissingInput { pass, tag } => {
            let j = choose|j: int|
                {
                    &&& #[trigger] is_first_missing(passes, fixed, pass as int, j)
                    &&& tag@ == passes[pass as int].needed[j]
                };
            assert(!input_resolved(passes, fixed, pass as int, j));
        },
        _ => {},
    }
}

/// Two faults are the same fault: the same kind, the same pass or source,
/// the same tag.
pub open spec fn same_fault(a: ConfigError, b: ConfigError) -> bool {
    match (a, b) {
        (
            ConfigError::DuplicateTag { origin: first_origin, tag: first },
            ConfigError::DuplicateTag { origin: second_origin, tag: second },
        ) => first_origin == second_origin && first@ == second@,
        (
            ConfigError::MissingInput { pass: first_pass, tag: first },
            ConfigError::MissingInput { pass: second_pass, tag: second },
        ) => first_pass == second_pass && first@ == second@,
        (
            ConfigError::UnknownOutput { tag: first },
            ConfigError::UnknownOutput { tag: second },
        ) => first@ == second@,
        (ConfigError::UnknownPass { name: first }, ConfigError::UnknownPass { name: second }) => {
            first@ == second@
        },
        _ => false,
    }
}

/// A configuration is refused for one fault only: whatever explains the
/// refusal names the same kind of fault, the same pass and the same tag.
pub proof fn lemma_refusal_is_unique(
    a: ConfigError,
    b: ConfigError,
    passes: Seq<PassView>,
    fixed: Seq<FixedImageView>,
    output: Tag,
)
    requires
        explains_refusal(a, passes, fixed, output),
        explains_refusal(b, passes, fixed, output),
    ensures
        same_fault(a, b),
{
    let tags = produced_tags(passes, fixed);
    if a is DuplicateTag || b is DuplicateTag {
        let one = if a is DuplicateTag {
            a
        } else {
            b
        };
        let k = choose|k: int|
            {
                &&& #[trigger] is_first_duplicate(tags, k)
                &&& one->DuplicateTag_tag@ == tags[k]
                &&& one->DuplicateTag_origin == registry(passes, fixed)[k].origin
            };
        let m = tags.take(k).index_of(tags[k]);
        assert(0 <= m < k && tags.take(k)[m] == tags[k]);
        assert(tags[m] == tags[k]);
        assert(!tags.no_duplicates());
        assert(a is DuplicateTag && b is DuplicateTag);
        let ka = choose|k: int|
            {
                &&& #[trigger] is_first_duplicate(tags, k)
                &&& a->DuplicateTag_tag@ == tags[k]
                &&& a->DuplicateTag_origin == registry(passes, fixed)[k].origin
            };
        let kb = choose|k: int|
            {
                &&& #[trigger] is_first_duplicate(tags, k)
                &&& b->DuplicateTag_tag@ == tags[k]
                &&& b->DuplicateTag_origin == registry(passes, fixed)[k].origin
            };
        lemma_first_duplicate_is_unique(tags, ka, kb);
    } else if a is MissingInput || b is MissingInput {
        let one = if a is MissingInput {
            a
        } else {
            b
        };
        let pass = one->MissingInput_pass as int;
        let j = choose|j: int|
            {
                &&& #[trigger] is_first_missing(passes, fixed, pass, j)
                &&& one->MissingInput_tag@ == passes[pass].needed[j]
            };
        assert(!input_resolved(passes, fixed, pass, j));
        assert(a is MissingInput && b is MissingInput);
        let pa = a->MissingInput_pass as int;
        let pb = b->MissingInput_pass as int;
        let ja = choose|j: int|
            {
                &&& #[trigger] is_first_missing(passes, fixed, pa, j)
                &&& a->MissingInput_tag@ == passes[pa].needed[j]
            };
        let jb = choose|j: int|
            {
                &&& #[trigger] is_first_missing(passes, fixed, pb, j)
                &&& b->MissingInput_tag@ == passes[pb].needed[j]
            };
        if pa < pb || (pa == pb && ja < jb) {
            assert(input_resolved(passes, fixed, pa, ja));
        }
        if pb < pa || (pa == pb && jb < ja) {
            assert(input_resolved(passes, fixed, pb, jb));
        }
    }
}

/// There is one first duplicate at most.
pub proof fn lemma_first_duplicate_is_unique(tags: Seq<Tag>, first: int, second: int)
    requires
        is_first_duplicate(tags, first),
        is_first_duplicate(tags, second),
    ensures
        first == second,
{
    if first < second {
        let m = tags.take(first).index_of(tags[first]);
        assert(0 <= m < first && tags.take(first)[m] == tags[first]);
        assert(tags.take(second)[m] == tags.take(second)[first]);
    }
    if second < first {
        let m = tags.take(second).index_of(tags[second]);
        assert(0 <= m < second && tags.take(second)[m] == tags[second]);
        assert(tags.take(first)[m] == tags.take(first)[second]);
    }
}

/// Where no tag is produced twice and some input is not produced in time,
/// the refusal names that fault: the first such input, by pass and tag.
pub proof fn lemma_unresolved_input_is_named(
    error: ConfigError,
    passes: Seq<PassView>,
    fixed: Seq<FixedImageView>,
    output: Tag,
)
    requires
        explains_refusal(error, passes, fixed, output),
        produced_tags(passes, fixed).no_duplicates(),
        !inputs_resolved(passes, fixed),
    ensures
        reports_missing_input(error, passes, fixed),
{
    let tags = produced_tags(passes, fixed);
    if error is DuplicateTag {
        let k = choose|k: int|
            {
                &&& #[trigger] is_first_duplicate(tags, k)
                &&& error->DuplicateTag_tag@ == tags[k]
                &&& error->DuplicateTag_origin == registry(passes, fixed)[k].origin
            };
        let m = tags.take(k).index_of(tags[k]);
        assert(0 <= m < k && tags.take(k)[m] == tags[k]);
        assert(tags[m] == tags[k]);
    }
}

/// A list of passes in which every needed tag is produced by the caller or
/// by an earlier pass is a valid configuration as soon as no tag is produced
/// twice and some pass produces the image to present.
pub proof fn lemma_resolved_inputs_make_valid(
    passes: Seq<PassView>,
    fixed: Seq<FixedImageView>,
    output: Tag,
)
    requires
        inputs_resolved(passes, fixed),
        produced_tags(passes, fixed).no_duplicates(),
        pass_produces(passes, fixed, output),
    ensures
        valid_config(passes, fixed, output),
{
}

} // verus!
