//! The post-download pipeline and the per-subscription run: the fixed order
//! of the post-processing steps, the plan of names an episode's files take
//! — computed in full before any file is touched, so a configuration fault
//! halts the run with nothing mutated — and the stop-on-first-failure rule
//! of a subscription's episode loop.

use vstd::prelude::*;

use crate::download::{staged_final_name, staged_final_name_spec, staging_name, staging_name_spec};
use crate::episode::Episode;
use crate::feed::RawPodcast;
use crate::ledger::{
    ledger_line_spec, sanitize_id, sanitize_id_spec, sanitize_title, sanitize_title_spec, Ledger,
};
use crate::pattern::{
    eval_from, evaluate, lemma_wf_evaluates, pattern_wf_from, validate_pattern, EvalCtx,
};
use crate::ConfigError;

verus! {

/// One step of the post-processing pipeline, in its fixed order: write the
/// media tags, rename the staged file into place, append the ledger entry,
/// spawn the hook.
pub enum PostStep {
    WriteTags,
    Rename,
    RecordLedger,
    SpawnHook,
}

/// The post-processing steps an episode runs after a successful download,
/// in order; the hook step only when a hook program is configured.
pub fn post_process_plan(hook_configured: bool) -> (r: Vec<PostStep>)
    ensures
        hook_configured ==> r@ =~= seq![
            PostStep::WriteTags,
            PostStep::Rename,
            PostStep::RecordLedger,
            PostStep::SpawnHook,
        ],
        !hook_configured ==> r@ =~= seq![
            PostStep::WriteTags,
            PostStep::Rename,
            PostStep::RecordLedger,
        ],
{
    let mut r: Vec<PostStep> = Vec::new();
    r.push(PostStep::WriteTags);
    r.push(PostStep::Rename);
    r.push(PostStep::RecordLedger);
    if hook_configured {
        r.push(PostStep::SpawnHook);
    }
    r
}

/// How many episodes of a subscription's queue complete: every episode
/// before the first failed download, and none at or after it.
pub fn completed_count(outcomes: &Vec<bool>) -> (r: usize)
    ensures
        r <= outcomes@.len(),
        forall|j: int| 0 <= j < r ==> outcomes@[j],
        r < outcomes@.len() ==> !outcomes@[r as int],
{
    let mut i: usize = 0;
    while i < outcomes.len()
        invariant
            i <= outcomes@.len(),
            forall|j: int| 0 <= j < i ==> outcomes@[j],
        decreases outcomes@.len() - i,
    {
        if !outcomes[i] {
            return i;
        }
        i = i + 1;
    }
    i
}

/// The names and the ledger line of one finished episode: where its stream
/// stages, what the staged file is called once the extension is known, the
/// user-facing name the filename pattern gives, the episode's ledger id —
/// the id-pattern result made safe for the line format — and the ledger
/// line recording it.
pub struct EpisodePlan {
    pub staging: String,
    pub staged: String,
    pub final_name: String,
    pub id: String,
    pub ledger_line: String,
}

/// A context with its tag set dropped: what the id pattern is evaluated
/// under — the episode context alone, never the written tags.
pub open spec fn untagged(ctx: EvalCtx<'_>) -> EvalCtx<'_> {
    EvalCtx {
        podname: ctx.podname,
        home: ctx.home,
        channel: ctx.channel,
        episode: ctx.episode,
        tags: None,
    }
}

/// Computes every name an episode's files will take, before any of them is
/// touched: the staging name from the guid, the staged name from the
/// inferred extension, the final name from the filename pattern, the
/// sanitized ledger id from the id pattern — evaluated without the tag set,
/// so it matches the ids selection runs on — and the ledger line from that
/// id and the sanitized title, so the line always parses back to the id.
/// An unrecognized token in either pattern is a fatal configuration error,
/// returned with no name computed and nothing for the caller to mutate.
pub fn plan_episode(
    filename_pattern: &str,
    id_pattern: &str,
    ctx: &EvalCtx<'_>,
    ext: &str,
    completed_at: i64,
) -> (r: Result<EpisodePlan, ConfigError>)
    ensures
        match r {
            Ok(plan) => {
                &&& eval_from(filename_pattern@, 0, *ctx) == Some(plan.final_name@)
                &&& (match eval_from(id_pattern@, 0, untagged(*ctx)) {
                    Some(raw_id) => plan.id@ == sanitize_id_spec(raw_id),
                    None => false,
                })
                &&& plan.staging@ == staging_name_spec(ctx.episode.guid@)
                &&& plan.staged@ == staged_final_name_spec(ctx.episode.guid@, ext@)
                &&& plan.ledger_line@ == ledger_line_spec(
                    plan.id@,
                    completed_at as int,
                    sanitize_title_spec(ctx.episode.title@),
                )
            },
            Err(_) => eval_from(filename_pattern@, 0, *ctx) is None || eval_from(
                id_pattern@,
                0,
                untagged(*ctx),
            ) is None,
        },
{
    let final_name = match evaluate(filename_pattern, ctx) {
        Ok(s) => s,
        Err(e) => {
            return Err(e);
        },
    };
    let id_eval_ctx = EvalCtx {
        podname: ctx.podname,
        home: ctx.home,
        channel: ctx.channel,
        episode: ctx.episode,
        tags: None,
    };
    proof {
        assert(id_eval_ctx == untagged(*ctx));
    }
    let raw_id = match evaluate(id_pattern, &id_eval_ctx) {
        Ok(s) => s,
        Err(e) => {
            return Err(e);
        },
    };
    let id = sanitize_id(raw_id.as_str());
    let title = sanitize_title(ctx.episode.title.as_str());
    let staging = staging_name(ctx.episode.guid.as_str());
    let staged = staged_final_name(ctx.episode.guid.as_str(), ext);
    let ledger_line = Ledger::render_line(id.as_str(), completed_at, title.as_str());
    Ok(EpisodePlan { staging, staged, final_name, id, ledger_line })
}

/// The evaluation context the ledger id of the episode at position `j` is
/// computed under: that episode's own attributes, no tag set.
pub open spec fn id_ctx_at<'a>(
    podname: &'a str,
    home: Option<&'a str>,
    channel: &'a RawPodcast,
    episodes: &'a Vec<Episode>,
    j: int,
) -> EvalCtx<'a> {
    EvalCtx { podname, home, channel, episode: &episodes@[j].attrs, tags: None }
}

/// Computes every episode's ledger id up front — the id pattern evaluated
/// under that episode's context, sanitized for the line format — in list
/// order, one per episode; an unrecognized token in the id pattern is a
/// fatal configuration error, returned before anything is computed.
pub fn compute_ledger_ids(
    episodes: &Vec<Episode>,
    id_pattern: &str,
    podname: &str,
    home: Option<&str>,
    channel: &RawPodcast,
) -> (r: Result<Vec<String>, ConfigError>)
    ensures
        match r {
            Ok(ids) => {
                &&& pattern_wf_from(id_pattern@, 0)
                &&& ids@.len() == episodes@.len()
                &&& forall|i: int|
                    0 <= i < episodes@.len() ==> eval_from(
                        id_pattern@,
                        0,
                        #[trigger] id_ctx_at(podname, home, channel, episodes, i),
                    ) is Some && ids@[i]@ == sanitize_id_spec(
                        eval_from(
                            id_pattern@,
                            0,
                            id_ctx_at(podname, home, channel, episodes, i),
                        )->Some_0,
                    )
            },
            Err(_) => !pattern_wf_from(id_pattern@, 0),
        },
{
    match validate_pattern(id_pattern) {
        Ok(()) => {},
        Err(e) => {
            return Err(e);
        },
    }
    let mut ids: Vec<String> = Vec::new();
    let mut i: usize = 0;
    while i < episodes.len()
        invariant
            pattern_wf_from(id_pattern@, 0),
            i <= episodes@.len(),
            ids@.len() == i,
            forall|j: int|
                0 <= j < i ==> eval_from(
                    id_pattern@,
                    0,
                    #[trigger] id_ctx_at(podname, home, channel, episodes, j),
                ) is Some && ids@[j]@ == sanitize_id_spec(
                    eval_from(id_pattern@, 0, id_ctx_at(podname, home, channel, episodes, j))->Some_0,
                ),
        decreases episodes@.len() - i,
    {
        let ctx = EvalCtx { podname, home, channel, episode: &episodes[i].attrs, tags: None };
        proof {
            assert(ctx == id_ctx_at(podname, home, channel, episodes, i as int));
        }
        let raw_id = match evaluate(id_pattern, &ctx) {
            Ok(s) => s,
            Err(_) => {
                proof {
                    lemma_wf_evaluates(id_pattern@, 0, ctx);
                }
                unreached()
            },
        };
        let ghost pre = ids@;
        ids.push(sanitize_id(raw_id.as_str()));
        proof {
            assert(eval_from(id_pattern@, 0, id_ctx_at(podname, home, channel, episodes, i as int))
                == Some(raw_id@));
            assert(ids@[i as int]@ == sanitize_id_spec(raw_id@));
            assert forall|j: int|
                0 <= j < i + 1 implies eval_from(
                    id_pattern@,
                    0,
                    #[trigger] id_ctx_at(podname, home, channel, episodes, j),
                ) is Some && (ids@[j]@ == sanitize_id_spec(
                    eval_from(id_pattern@, 0, id_ctx_at(podname, home, channel, episodes, j))->Some_0,
                )) by {
                if j < i {
                    assert(ids@[j] == pre[j]);
                } else {
                    assert(eval_from(id_pattern@, 0, id_ctx_at(podname, home, channel, episodes, j))
                        == Some(raw_id@));
                }
            }
        }
        i = i + 1;
    }
    Ok(ids)
}

} // verus!
