//! The per-item orchestration plan: metadata resolution, the
//! directory-existence check that makes the pipeline idempotent, sidecar
//! generation, and the ordered format downloads. The surrounding program
//! executes each action; the plan itself is a pure function of the
//! configuration and the directory check.

use vstd::prelude::*;
use crate::config::Config;

verus! {

/// One step of the per-item pipeline, in execution order.
#[derive(Clone, Debug)]
pub enum ItemAction {
    /// Resolve the item's metadata from its detail page (failure is
    /// non-fatal: the item continues with what it has).
    FetchMetadata,
    /// Create the item's output directory.
    CreateDirectory,
    /// Write the human-readable summary sidecar.
    WriteReadme,
    /// Write the structured descriptor sidecar.
    WriteNfo,
    /// Resolve and download one format, extracting or saving its payload;
    /// a failure aborts this format only.
    DownloadFormat(String),
}

/// The plan an item gets: the metadata fetch, then — unless skip-existing
/// is set and the target directory already exists — directory creation, the
/// configured sidecars, and the configured formats in order (none in
/// metadata-only mode).
pub open spec fn spec_item_plan(
    skip_existing: bool,
    generate_readme: bool,
    generate_nfo: bool,
    metadata_only: bool,
    formats: Seq<String>,
    dir_exists: bool,
) -> Seq<ItemAction> {
    seq![ItemAction::FetchMetadata] + if skip_existing && dir_exists {
        Seq::<ItemAction>::empty()
    } else {
        seq![ItemAction::CreateDirectory] + (if generate_readme {
            seq![ItemAction::WriteReadme]
        } else {
            Seq::<ItemAction>::empty()
        }) + (if generate_nfo {
            seq![ItemAction::WriteNfo]
        } else {
            Seq::<ItemAction>::empty()
        }) + (if metadata_only {
            Seq::<ItemAction>::empty()
        } else {
            formats.map_values(|f: String| ItemAction::DownloadFormat(f))
        })
    }
}

/// Compute the ordered action plan for one item from the configuration and
/// the result of the directory-existence check.
pub fn plan_item(config: &Config, dir_exists: bool) -> (r: Vec<ItemAction>)
    ensures
        r@ == spec_item_plan(
            config.behavior.skip_existing,
            config.behavior.generate_readme,
            config.behavior.generate_nfo,
            config.behavior.metadata_only,
            config.download.formats@,
            dir_exists,
        ),
{
    let ghost goal = spec_item_plan(
        config.behavior.skip_existing,
        config.behavior.generate_readme,
        config.behavior.generate_nfo,
        config.behavior.metadata_only,
        config.download.formats@,
        dir_exists,
    );
    let mut r: Vec<ItemAction> = Vec::new();
    r.push(ItemAction::FetchMetadata);
    if config.behavior.skip_existing && dir_exists {
        assert(r@ =~= goal);
        return r;
    }
    r.push(ItemAction::CreateDirectory);
    if config.behavior.generate_readme {
        r.push(ItemAction::WriteReadme);
    }
    if config.behavior.generate_nfo {
        r.push(ItemAction::WriteNfo);
    }
    if !config.behavior.metadata_only {
        let n = config.download.formats.len();
        let ghost base = r@;
        for i in 0..n
            invariant
                n == config.download.formats@.len(),
                r@ == base + config.download.formats@.take(i as int).map_values(
                    |f: String| ItemAction::DownloadFormat(f),
                ),
        {
            let f = config.download.formats[i].clone();
            r.push(ItemAction::DownloadFormat(f));
            assert(r@ =~= base + config.download.formats@.take(i + 1).map_values(
                |f: String| ItemAction::DownloadFormat(f),
            ));
        }
        assert(config.download.formats@.take(n as int) =~= config.download.formats@);
    }
    assert(r@ =~= goal);
    r
}

/// Law: with skip-existing set and the item's target directory already
/// present, the plan holds the metadata resolution alone — in particular no
/// download action, so no download-related network call is planned for the
/// item.
pub proof fn lemma_skip_existing_plans_no_downloads(
    generate_readme: bool,
    generate_nfo: bool,
    metadata_only: bool,
    formats: Seq<String>,
)
    ensures
        spec_item_plan(true, generate_readme, generate_nfo, metadata_only, formats, true) == seq![
            ItemAction::FetchMetadata,
        ],
        forall|i: int|
            0 <= i < spec_item_plan(
                true,
                generate_readme,
                generate_nfo,
                metadata_only,
                formats,
                true,
            ).len() ==> !(#[trigger] spec_item_plan(
                true,
                generate_readme,
                generate_nfo,
                metadata_only,
                formats,
                true,
            )[i] is DownloadFormat),
{
    assert(spec_item_plan(true, generate_readme, generate_nfo, metadata_only, formats, true) =~=
        seq![ItemAction::FetchMetadata]);
}

} // verus!
