//! The run of the generator: load the site, write its content, copy its
//! static files. The decisions are here; the program performs each action and
//! reports how it went.
use vstd::prelude::*;

verus! {

/// Where a run stands.
#[derive(Debug)]
pub enum RunState {
    /// Nothing done yet.
    Start,
    /// The settings and templates are being loaded.
    LoadingSite,
    /// Posts, pages, indexes, sitemap and feed are being written.
    CreatingContent,
    /// The static files are being copied into the output directory.
    CopyingStatic,
    /// The run is over, with this result.
    Finished(Result<(), String>),
}

/// How the last requested action went.
#[derive(Debug)]
pub enum StepOutcome {
    Done,
    Failed(String),
}

/// What the program is asked to do next.
#[derive(Debug)]
pub enum RunAction {
    /// Read the configuration and load the templates.
    LoadSite,
    /// Register the Markdown filter, then write the site's content.
    CreateContent { publish_drafts: bool },
    /// Copy the static directory into the output directory.
    CopyStatic,
    /// Stop with this result.
    Finish(Result<(), String>),
}

/// One step of a run: from where it stands and how the last action went, to
/// where it stands next and what to do.
///
/// A site that cannot be loaded ends the run without an error; a failure to
/// write the content or to copy the static files ends it with that failure.
pub fn run(publish_drafts: bool, state: RunState, outcome: StepOutcome) -> (r: (RunState, RunAction))
    ensures
        r == run_spec(publish_drafts, state, outcome),
{
    match state {
        RunState::Start => (RunState::LoadingSite, RunAction::LoadSite),
        RunState::LoadingSite => match outcome {
            StepOutcome::Done => (RunState::CreatingContent, RunAction::CreateContent { publish_drafts }),
            StepOutcome::Failed(_) => (RunState::Finished(Ok(())), RunAction::Finish(Ok(()))),
        },
        RunState::CreatingContent => match outcome {
            StepOutcome::Done => (RunState::CopyingStatic, RunAction::CopyStatic),
            StepOutcome::Failed(e) => {
                let e2 = e.clone();
                (RunState::Finished(Err(e)), RunAction::Finish(Err(e2)))
            },
        },
        RunState::CopyingStatic => match outcome {
            StepOutcome::Done => (RunState::Finished(Ok(())), RunAction::Finish(Ok(()))),
            StepOutcome::Failed(e) => {
                let e2 = e.clone();
                (RunState::Finished(Err(e)), RunAction::Finish(Err(e2)))
            },
        },
        RunState::Finished(res) => {
            let action = match &res {
                Ok(u) => RunAction::Finish(Ok(*u)),
                Err(e) => RunAction::Finish(Err(e.clone())),
            };
            (RunState::Finished(res), action)
        },
    }
}

/// The state after feeding `run` a sequence of outcomes, from `state`.
pub open spec fn run_state_after(publish_drafts: bool, state: RunState, outcomes: Seq<StepOutcome>) -> RunState
    decreases outcomes.len(),
{
    if outcomes.len() == 0 {
        state
    } else {
        run_state_after(
            publish_drafts,
            run_spec(publish_drafts, state, outcomes[0]).0,
            outcomes.drop_first(),
        )
    }
}

/// The actions that `run` asks for along a sequence of outcomes, from `state`.
pub open spec fn run_actions(publish_drafts: bool, state: RunState, outcomes: Seq<StepOutcome>) -> Seq<RunAction>
    decreases outcomes.len(),
{
    if outcomes.len() == 0 {
        Seq::empty()
    } else {
        let (next, action) = run_spec(publish_drafts, state, outcomes[0]);
        seq![action] + run_actions(publish_drafts, next, outcomes.drop_first())
    }
}

/// `run` asks for one action per outcome.
pub proof fn lemma_run_actions_len(publish_drafts: bool, state: RunState, outcomes: Seq<StepOutcome>)
    ensures
        run_actions(publish_drafts, state, outcomes).len() == outcomes.len(),
    decreases outcomes.len(),
{
    if outcomes.len() > 0 {
        lemma_run_actions_len(publish_drafts, run_spec(publish_drafts, state, outcomes[0]).0, outcomes.drop_first());
    }
}

/// A run in which every action succeeds loads the site, writes the content
/// with the given `publish_drafts`, copies the static files, and ends without
/// an error.
pub proof fn law_successful_run(publish_drafts: bool)
    ensures
        ({
            let outcomes = seq![StepOutcome::Done, StepOutcome::Done, StepOutcome::Done, StepOutcome::Done];
            &&& run_actions(publish_drafts, RunState::Start, outcomes) == seq![
                RunAction::LoadSite,
                RunAction::CreateContent { publish_drafts },
                RunAction::CopyStatic,
                RunAction::Finish(Ok(())),
            ]
            &&& run_state_after(publish_drafts, RunState::Start, outcomes) == RunState::Finished(Ok(()))
        }),
{
    let outcomes = seq![StepOutcome::Done, StepOutcome::Done, StepOutcome::Done, StepOutcome::Done];
    reveal_with_fuel(run_actions, 5);
    reveal_with_fuel(run_state_after, 5);
    assert(outcomes.drop_first() =~= seq![StepOutcome::Done, StepOutcome::Done, StepOutcome::Done]);
    assert(outcomes.drop_first().drop_first() =~= seq![StepOutcome::Done, StepOutcome::Done]);
    assert(outcomes.drop_first().drop_first().drop_first() =~= seq![StepOutcome::Done]);
    assert(outcomes.drop_first().drop_first().drop_first().drop_first() =~= Seq::<StepOutcome>::empty());
    assert(run_actions(publish_drafts, RunState::Start, outcomes) =~= seq![
        RunAction::LoadSite,
        RunAction::CreateContent { publish_drafts },
        RunAction::CopyStatic,
        RunAction::Finish(Ok(())),
    ]);
}

/// A finished run stays finished, with the same result, whatever is
/// reported afterwards.
pub proof fn law_finished_run_is_final(publish_drafts: bool, res: Result<(), String>, outcomes: Seq<StepOutcome>)
    ensures
        run_state_after(publish_drafts, RunState::Finished(res), outcomes) == RunState::Finished(res),
        forall|i: int| 0 <= i < outcomes.len() ==>
            #[trigger] run_actions(publish_drafts, RunState::Finished(res), outcomes)[i] == RunAction::Finish(res),
    decreases outcomes.len(),
{
    if outcomes.len() > 0 {
        law_finished_run_is_final(publish_drafts, res, outcomes.drop_first());
        lemma_run_actions_len(publish_drafts, RunState::Finished(res), outcomes.drop_first());
        let rest = run_actions(publish_drafts, RunState::Finished(res), outcomes.drop_first());
        assert(run_actions(publish_drafts, RunState::Finished(res), outcomes) == seq![RunAction::Finish(res)] + rest);
        assert forall|i: int| 0 <= i < outcomes.len() implies
            #[trigger] run_actions(publish_drafts, RunState::Finished(res), outcomes)[i] == RunAction::Finish(res) by {
            if i > 0 {
                assert(rest[i - 1] == RunAction::Finish(res));
            }
        }
    }
}

/// A site that cannot be loaded ends the run at once and without an error:
/// no content is written and nothing is copied.
pub proof fn law_unloadable_site_is_no_error(publish_drafts: bool, e: String, outcomes: Seq<StepOutcome>)
    ensures
        ({
            let all = seq![StepOutcome::Done, StepOutcome::Failed(e)] + outcomes;
            &&& run_state_after(publish_drafts, RunState::Start, all) == RunState::Finished(Ok(()))
            &&& run_actions(publish_drafts, RunState::Start, all)[0] == RunAction::LoadSite
            &&& forall|i: int| 1 <= i < all.len() ==>
                #[trigger] run_actions(publish_drafts, RunState::Start, all)[i] == RunAction::Finish(Ok(()))
        }),
{
    let all = seq![StepOutcome::Done, StepOutcome::Failed(e)] + outcomes;
    assert(all.drop_first().drop_first() =~= outcomes);
    assert(all.drop_first()[0] == StepOutcome::Failed(e));
    law_finished_run_is_final(publish_drafts, Ok(()), outcomes);
    lemma_run_actions_len(publish_drafts, RunState::Finished(Ok(())), outcomes);
    let tail = run_actions(publish_drafts, RunState::Finished(Ok(())), outcomes);
    assert(run_state_after(publish_drafts, RunState::LoadingSite, all.drop_first())
        == run_state_after(publish_drafts, RunState::Finished(Ok(())), outcomes));
    assert(run_actions(publish_drafts, RunState::LoadingSite, all.drop_first()) == seq![RunAction::Finish(Ok(()))] + tail);
    assert(run_actions(publish_drafts, RunState::Start, all)
        == seq![RunAction::LoadSite] + (seq![RunAction::Finish(Ok(()))] + tail));
    assert forall|i: int| 1 <= i < all.len() implies
        #[trigger] run_actions(publish_drafts, RunState::Start, all)[i] == RunAction::Finish(Ok(())) by {
        if i > 1 {
            assert(tail[i - 2] == RunAction::Finish(Ok(())));
        }
    }
}

/// A failure to write the content ends the run with that failure, and the
/// static files are not copied.
pub proof fn law_content_failure_is_reported(publish_drafts: bool, e: String, outcomes: Seq<StepOutcome>)
    ensures
        ({
            let all = seq![StepOutcome::Done, StepOutcome::Done, StepOutcome::Failed(e)] + outcomes;
            &&& run_state_after(publish_drafts, RunState::Start, all) == RunState::Finished(Err(e))
            &&& forall|i: int| 0 <= i < all.len() ==>
                #[trigger] run_actions(publish_drafts, RunState::Start, all)[i] != RunAction::CopyStatic
        }),
{
    let all = seq![StepOutcome::Done, StepOutcome::Done, StepOutcome::Failed(e)] + outcomes;
    assert(all.drop_first().drop_first().drop_first() =~= outcomes);
    assert(all.drop_first()[0] == StepOutcome::Done);
    assert(all.drop_first().drop_first()[0] == StepOutcome::Failed(e));
    law_finished_run_is_final(publish_drafts, Err(e), outcomes);
    lemma_run_actions_len(publish_drafts, RunState::Finished(Err(e)), outcomes);
    let tail = run_actions(publish_drafts, RunState::Finished(Err(e)), outcomes);
    let o1 = all.drop_first();
    let o2 = o1.drop_first();
    assert(run_state_after(publish_drafts, RunState::CreatingContent, o2)
        == run_state_after(publish_drafts, RunState::Finished(Err(e)), outcomes));
    assert(run_state_after(publish_drafts, RunState::LoadingSite, o1)
        == run_state_after(publish_drafts, RunState::CreatingContent, o2));
    assert(run_actions(publish_drafts, RunState::CreatingContent, o2) == seq![RunAction::Finish(Err(e))] + tail);
    assert(run_actions(publish_drafts, RunState::LoadingSite, o1)
        == seq![RunAction::CreateContent { publish_drafts }] + (seq![RunAction::Finish(Err(e))] + tail));
    let acts = seq![RunAction::LoadSite] + (seq![RunAction::CreateContent { publish_drafts }]
        + (seq![RunAction::Finish(Err(e))] + tail));
    assert(run_actions(publish_drafts, RunState::Start, all) == acts);
    assert forall|i: int| 0 <= i < all.len() implies
        #[trigger] run_actions(publish_drafts, RunState::Start, all)[i] != RunAction::CopyStatic by {
        if i > 2 {
            assert(tail[i - 3] == RunAction::Finish(Err(e)));
        }
    }
}

/// `run` leaves a finished state finished, whatever the outcome.
proof fn lemma_finished_after(publish_drafts: bool, state: RunState, outcomes: Seq<StepOutcome>)
    requires
        state is Finished,
    ensures
        run_state_after(publish_drafts, state, outcomes) is Finished,
{
    law_finished_run_is_final(publish_drafts, state->Finished_0, outcomes);
}

/// Every run is finished after four steps, whatever the actions' outcomes.
pub proof fn law_every_run_finishes(publish_drafts: bool, outcomes: Seq<StepOutcome>)
    requires
        outcomes.len() >= 4,
    ensures
        run_state_after(publish_drafts, RunState::Start, outcomes) is Finished,
{
    let o1 = outcomes.drop_first();
    let o2 = o1.drop_first();
    let o3 = o2.drop_first();
    let o4 = o3.drop_first();
    let s1 = run_spec(publish_drafts, RunState::Start, outcomes[0]).0;
    assert(s1 is LoadingSite);
    let s2 = run_spec(publish_drafts, s1, o1[0]).0;
    let s3 = run_spec(publish_drafts, s2, o2[0]).0;
    let s4 = run_spec(publish_drafts, s3, o3[0]).0;
    assert(s4 is Finished);
    lemma_finished_after(publish_drafts, s4, o4);
    assert(run_state_after(publish_drafts, s3, o3) == run_state_after(publish_drafts, s4, o4));
    assert(run_state_after(publish_drafts, s2, o2) == run_state_after(publish_drafts, s3, o3));
    assert(run_state_after(publish_drafts, s1, o1) == run_state_after(publish_drafts, s2, o2));
}

/// What `run` returns, as a value.
pub open spec fn run_spec(publish_drafts: bool, state: RunState, outcome: StepOutcome) -> (RunState, RunAction) {
    match state {
        RunState::Start => (RunState::LoadingSite, RunAction::LoadSite),
        RunState::LoadingSite => match outcome {
            StepOutcome::Done => (RunState::CreatingContent, RunAction::CreateContent { publish_drafts }),
            StepOutcome::Failed(_) => (RunState::Finished(Ok(())), RunAction::Finish(Ok(()))),
        },
        RunState::CreatingContent => match outcome {
            StepOutcome::Done => (RunState::CopyingStatic, RunAction::CopyStatic),
            StepOutcome::Failed(e) => (RunState::Finished(Err(e)), RunAction::Finish(Err(e))),
        },
        RunState::CopyingStatic => match outcome {
            StepOutcome::Done => (RunState::Finished(Ok(())), RunAction::Finish(Ok(()))),
            StepOutcome::Failed(e) => (RunState::Finished(Err(e)), RunAction::Finish(Err(e))),
        },
        RunState::Finished(res) => (RunState::Finished(res), RunAction::Finish(res)),
    }
}

} // verus!
