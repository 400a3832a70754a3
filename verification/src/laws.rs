use vstd::prelude::*;
use crate::command::CmdOutputView;
use crate::hook::EventM;
use crate::hook::Hook;
use crate::hook::HookResultKind;
use crate::hook::HookStreamResult;
use crate::hook::RunModel;
use crate::hook::SkipReason;
use crate::hook::event_matches;
use crate::hook::events_match;
use crate::hook::hook_keys;
use crate::hook::hook_view_enabled;
use crate::hook::hooks_views;
use crate::hook::items_of;
use crate::hook::run_ctx;
use crate::hook::run_model;
use crate::hook::run_model_upto;
use crate::hook::spec_hook_step;
use crate::hook::spec_render_tokens;
use crate::needs::NodeView;
use crate::needs::find_node;
use crate::needs::node_enabled;
use crate::needs::spec_key_satisfied;
use crate::needs::spec_needs_satisfied;
use crate::slot::Slot;
use crate::template::RenderedFile;
use crate::template::TemplateFile;
use crate::template::fill_result_matches;
use crate::template::spec_fill_file;

verus! {

/// The run's model state once the first `n` hooks are processed.
pub open spec fn model_at(
    hooks: Seq<Hook>,
    slots: Seq<Slot>,
    data: Map<Seq<char>, Seq<char>>,
    outcomes: Seq<Result<CmdOutputView, Seq<char>>>,
    n: int,
) -> RunModel {
    run_model_upto(
        hooks_views(hooks),
        items_of(slots, hooks),
        data,
        hook_keys(hooks_views(hooks)),
        outcomes,
        n,
    )
}

/// A run that has neither failed nor stopped keeps processing hooks.
pub open spec fn model_live(st: RunModel) -> bool {
    !st.stopped && st.render_failed is None
}

/// An optional hook with default `false` and no override in the data is not
/// enabled, and the scheduler reports it skipped as user-disabled, whatever
/// its guard or needs say; the run goes on.
pub proof fn law_user_disabled_skip(
    hooks: Seq<Hook>,
    slots: Seq<Slot>,
    data: Map<Seq<char>, Seq<char>>,
    outcomes: Seq<Result<CmdOutputView, Seq<char>>>,
    k: int,
)
    requires
        0 <= k < hooks.len(),
        hooks[k]@.optional == Some(false),
        !data.contains_key(hooks[k]@.key),
        model_live(model_at(hooks, slots, data, outcomes, k)),
    ensures
        !hook_view_enabled(hooks[k]@, data),
        model_at(hooks, slots, data, outcomes, k + 1) == (RunModel {
            events: model_at(hooks, slots, data, outcomes, k).events.push(
                EventM::Started(hooks[k]@.key),
            ).push(EventM::Skipped(hooks[k]@, SkipReason::UserDisabled)),
            ..model_at(hooks, slots, data, outcomes, k)
        }),
{
    let hv = hooks_views(hooks);
    assert(hv[k] == hooks[k]@);
    let st = model_at(hooks, slots, data, outcomes, k);
    let ctx = run_ctx(data, hook_keys(hv), st.completed);
    assert(spec_hook_step(hooks[k]@, items_of(slots, hooks), data, ctx) is Disabled);
}

/// A hook whose `needs` key resolves to a slot with a default-like value —
/// absent, empty, `0`, or `false` in any ASCII case — is skipped, whatever
/// its guard says: as unmet-dependency when the hook itself is enabled, as
/// user-disabled otherwise; the run goes on.
pub proof fn law_disabled_slot_need_skips(
    hooks: Seq<Hook>,
    slots: Seq<Slot>,
    data: Map<Seq<char>, Seq<char>>,
    outcomes: Seq<Result<CmdOutputView, Seq<char>>>,
    k: int,
    sk: Seq<char>,
)
    requires
        0 <= k < hooks.len(),
        hooks[k]@.needs == seq![sk],
        (find_node(items_of(slots, hooks), sk) matches Some(nv) && nv.gate is SlotValue),
        !crate::slot::spec_slot_value_enabled(sk, data),
        model_live(model_at(hooks, slots, data, outcomes, k)),
    ensures
        model_at(hooks, slots, data, outcomes, k + 1) == (RunModel {
            events: model_at(hooks, slots, data, outcomes, k).events.push(
                EventM::Started(hooks[k]@.key),
            ).push(
                EventM::Skipped(
                    hooks[k]@,
                    if hook_view_enabled(hooks[k]@, data) {
                        SkipReason::UnmetDependency
                    } else {
                        SkipReason::UserDisabled
                    },
                ),
            ),
            ..model_at(hooks, slots, data, outcomes, k)
        }),
{
    let hv = hooks_views(hooks);
    assert(hv[k] == hooks[k]@);
    let items = items_of(slots, hooks);
    let st = model_at(hooks, slots, data, outcomes, k);
    let ctx = run_ctx(data, hook_keys(hv), st.completed);
    let nv = find_node(items, sk).unwrap();
    crate::needs::lemma_find_node_key(items, sk);
    assert(nv.key == sk);
    assert(!node_enabled(nv, data));
    assert(!spec_key_satisfied(items, data, sk, Set::empty()));
    assert(hooks[k]@.needs[0] == sk);
    assert(!spec_needs_satisfied(items, data, hooks[k]@.needs));
    if hook_view_enabled(hooks[k]@, data) {
        assert(spec_hook_step(hooks[k]@, items, data, ctx) is Unsatisfied);
    } else {
        assert(spec_hook_step(hooks[k]@, items, data, ctx) is Disabled);
    }
}

/// A `needs` key that names neither a slot nor a hook makes the hook skipped,
/// never a hard error: the run goes on, nothing stops, and nothing fails.
pub proof fn law_unknown_need_skips(
    hooks: Seq<Hook>,
    slots: Seq<Slot>,
    data: Map<Seq<char>, Seq<char>>,
    outcomes: Seq<Result<CmdOutputView, Seq<char>>>,
    k: int,
    nk: Seq<char>,
)
    requires
        0 <= k < hooks.len(),
        hooks[k]@.needs.contains(nk),
        (find_node(items_of(slots, hooks), nk) is None),
        model_live(model_at(hooks, slots, data, outcomes, k)),
    ensures
        model_at(hooks, slots, data, outcomes, k + 1) == (RunModel {
            events: model_at(hooks, slots, data, outcomes, k).events.push(
                EventM::Started(hooks[k]@.key),
            ).push(
                EventM::Skipped(
                    hooks[k]@,
                    if hook_view_enabled(hooks[k]@, data) {
                        SkipReason::UnmetDependency
                    } else {
                        SkipReason::UserDisabled
                    },
                ),
            ),
            ..model_at(hooks, slots, data, outcomes, k)
        }),
        model_live(model_at(hooks, slots, data, outcomes, k + 1)),
{
    let hv = hooks_views(hooks);
    assert(hv[k] == hooks[k]@);
    let items = items_of(slots, hooks);
    let st = model_at(hooks, slots, data, outcomes, k);
    let ctx = run_ctx(data, hook_keys(hv), st.completed);
    let j = choose|j: int| 0 <= j < hooks[k]@.needs.len() && hooks[k]@.needs[j] == nk;
    assert(!spec_key_satisfied(items, data, nk, Set::empty()));
    assert(!spec_needs_satisfied(items, data, hooks[k]@.needs));
    if hook_view_enabled(hooks[k]@, data) {
        assert(spec_hook_step(hooks[k]@, items, data, ctx) is Unsatisfied);
    } else {
        assert(spec_hook_step(hooks[k]@, items, data, ctx) is Disabled);
    }
}

/// `find_node` returns the node at an index when no earlier node has its key.
proof fn lemma_find_node_at(items: Seq<NodeView>, i: int)
    requires
        0 <= i < items.len(),
        forall|j: int| 0 <= j < i ==> (#[trigger] items[j]).key != items[i].key,
    ensures
        find_node(items, items[i].key) == Some(items[i]),
    decreases i,
{
    if i == 0 {
        assert(items.first() == items[0]);
    } else {
        assert(items.first() == items[0]);
        assert(items[0].key != items[i].key);
        let rest = items.drop_first();
        assert(rest[i - 1] == items[i]);
        assert(forall|j: int| 0 <= j < i - 1 ==> (#[trigger] rest[j]).key != rest[i - 1].key);
        lemma_find_node_at(rest, i - 1);
    }
}

/// Three hooks chained by `needs` — the second needs the first, the third
/// needs the second — all enabled, unguarded, and with rendering commands,
/// complete in declaration order when each launched process succeeds.
pub proof fn law_chain_completes(
    hooks: Seq<Hook>,
    data: Map<Seq<char>, Seq<char>>,
    outcomes: Seq<Result<CmdOutputView, Seq<char>>>,
)
    requires
        hooks.len() == 3,
        (hooks[0]@.optional is None && hooks[1]@.optional is None && hooks[2]@.optional is None),
        (hooks[0]@.if_cond is None && hooks[1]@.if_cond is None && hooks[2]@.if_cond is None),
        hooks[0]@.needs == Seq::<Seq<char>>::empty(),
        hooks[1]@.needs == seq![hooks[0]@.key],
        hooks[2]@.needs == seq![hooks[1]@.key],
        hooks[0]@.key != hooks[1]@.key && hooks[0]@.key != hooks[2]@.key && hooks[1]@.key
            != hooks[2]@.key,
        outcomes.len() == 3,
        (outcomes[0] matches Ok(o) && o.success),
        (outcomes[1] matches Ok(o) && o.success),
        (outcomes[2] matches Ok(o) && o.success),
        (spec_render_tokens(
            hooks[0]@.command,
            run_ctx(data, hook_keys(hooks_views(hooks)), Seq::empty()),
        ) is Some),
        (spec_render_tokens(
            hooks[1]@.command,
            run_ctx(data, hook_keys(hooks_views(hooks)), seq![hooks[0]@.key]),
        ) is Some),
        (spec_render_tokens(
            hooks[2]@.command,
            run_ctx(data, hook_keys(hooks_views(hooks)), seq![hooks[0]@.key, hooks[1]@.key]),
        ) is Some),
    ensures
        ({
            let m = run_model(hooks, Seq::empty(), data, outcomes);
            &&& m.completed == seq![hooks[0]@.key, hooks[1]@.key, hooks[2]@.key]
            &&& m.render_failed is None
            &&& !m.stopped
            &&& m.used == 3
            &&& m.events.len() == 6
            &&& m.events[0] == EventM::Started(hooks[0]@.key)
            &&& m.events[1] matches EventM::Completed(h, _, _) && h == hooks[0]@
            &&& m.events[2] == EventM::Started(hooks[1]@.key)
            &&& m.events[3] matches EventM::Completed(h, _, _) && h == hooks[1]@
            &&& m.events[4] == EventM::Started(hooks[2]@.key)
            &&& m.events[5] matches EventM::Completed(h, _, _) && h == hooks[2]@
        }),
{
    let hv = hooks_views(hooks);
    let slots = Seq::<Slot>::empty();
    let items = items_of(slots, hooks);
    let keys = hook_keys(hv);
    assert(hv[0] == hooks[0]@ && hv[1] == hooks[1]@ && hv[2] == hooks[2]@);
    assert(items.len() == 3);
    assert(slots.map_values(|s: Slot| crate::needs::Node::Slot(s)@).len() == 0);
    assert(items[0] == hooks.map_values(|h: Hook| crate::needs::Node::Hook(h)@)[0]);
    assert(items[0].key == hooks[0]@.key && items[0].needs == hooks[0]@.needs && items[0].gate
        is Always);
    assert(items[1].key == hooks[1]@.key && items[1].needs == hooks[1]@.needs && items[1].gate
        is Always);
    assert(items[2].key == hooks[2]@.key && items[2].needs == hooks[2]@.needs && items[2].gate
        is Always);

    // the chain of key satisfaction
    assert(Set::<Seq<char>>::empty().finite());
    assert(find_node(items, hooks[0]@.key) == Some(items[0])) by {
        lemma_find_node_at(items, 0);
    }
    assert(spec_key_satisfied(items, data, hooks[0]@.key, Set::empty())) by {
        assert(node_enabled(items[0], data));
    }
    assert(find_node(items, hooks[1]@.key) == Some(items[1])) by {
        lemma_find_node_at(items, 1);
    }
    assert(spec_key_satisfied(items, data, hooks[1]@.key, Set::empty())) by {
        let visited = Set::<Seq<char>>::empty().insert(hooks[1]@.key);
        assert(visited.finite());
        assert(!visited.contains(hooks[0]@.key));
        assert(find_node(items, hooks[0]@.key) == Some(items[0])) by {
            lemma_find_node_at(items, 0);
        }
        assert(spec_key_satisfied(items, data, hooks[0]@.key, visited));
        assert(items[1].needs[0] == hooks[0]@.key);
        assert(forall|i: int|
            0 <= i < items[1].needs.len() ==> spec_key_satisfied(
                items,
                data,
                #[trigger] items[1].needs[i],
                visited,
            ));
    }
    assert(spec_needs_satisfied(items, data, hooks[1]@.needs)) by {
        assert(hooks[1]@.needs[0] == hooks[0]@.key);
    }
    assert(spec_needs_satisfied(items, data, hooks[2]@.needs)) by {
        assert(hooks[2]@.needs[0] == hooks[1]@.key);
        let visited = Set::<Seq<char>>::empty().insert(hooks[2]@.key);
        assert(visited.finite());
        assert(spec_key_satisfied(items, data, hooks[1]@.key, visited)) by {
            assert(find_node(items, hooks[1]@.key) == Some(items[1])) by {
                lemma_find_node_at(items, 1);
            }
            let visited2 = visited.insert(hooks[1]@.key);
            assert(visited2.finite());
            assert(!visited2.contains(hooks[0]@.key));
            assert(spec_key_satisfied(items, data, hooks[0]@.key, visited2)) by {
                assert(find_node(items, hooks[0]@.key) == Some(items[0])) by {
                    lemma_find_node_at(items, 0);
                }
            }
            assert(items[1].needs[0] == hooks[0]@.key);
        }
    }
    assert(spec_needs_satisfied(items, data, hooks[0]@.needs));

    // the three steps, one after the other
    let st0 = model_at(hooks, slots, data, outcomes, 0);
    assert(st0 == crate::hook::model_init());
    let st1 = model_at(hooks, slots, data, outcomes, 1);
    assert(spec_hook_step(hooks[0]@, items, data, run_ctx(data, keys, st0.completed))
        == crate::hook::StepPlan::Launch(
        spec_render_tokens(hooks[0]@.command, run_ctx(data, keys, Seq::empty())).unwrap(),
    )) by {
        assert(st0.completed =~= Seq::<Seq<char>>::empty());
    }
    assert(st1.completed =~= seq![hooks[0]@.key]);
    let st2 = model_at(hooks, slots, data, outcomes, 2);
    assert(spec_hook_step(hooks[1]@, items, data, run_ctx(data, keys, st1.completed))
        == crate::hook::StepPlan::Launch(
        spec_render_tokens(hooks[1]@.command, run_ctx(data, keys, seq![hooks[0]@.key])).unwrap(),
    ));
    assert(st2.completed =~= seq![hooks[0]@.key, hooks[1]@.key]);
    let st3 = model_at(hooks, slots, data, outcomes, 3);
    assert(spec_hook_step(hooks[2]@, items, data, run_ctx(data, keys, st2.completed))
        == crate::hook::StepPlan::Launch(
        spec_render_tokens(
            hooks[2]@.command,
            run_ctx(data, keys, seq![hooks[0]@.key, hooks[1]@.key]),
        ).unwrap(),
    ));
    assert(st3.completed =~= seq![hooks[0]@.key, hooks[1]@.key, hooks[2]@.key]);
    assert(run_model(hooks, slots, data, outcomes) == st3);
    assert(st3.events.len() == 6);
}

/// A command that does not render fails the whole run, against its hook: no
/// process is launched for that hook or any later one, no further event is
/// emitted, and the run reports the rendering failure.
pub proof fn law_render_failure_aborts(
    hooks: Seq<Hook>,
    slots: Seq<Slot>,
    data: Map<Seq<char>, Seq<char>>,
    outcomes: Seq<Result<CmdOutputView, Seq<char>>>,
    k: int,
)
    requires
        0 <= k < hooks.len(),
        model_live(model_at(hooks, slots, data, outcomes, k)),
        (spec_hook_step(
            hooks[k]@,
            items_of(slots, hooks),
            data,
            run_ctx(
                data,
                hook_keys(hooks_views(hooks)),
                model_at(hooks, slots, data, outcomes, k).completed,
            ),
        ) is RenderFailed),
    ensures
        ({
            let st = model_at(hooks, slots, data, outcomes, k);
            let m = run_model(hooks, slots, data, outcomes);
            &&& m.render_failed == Some(hooks[k]@)
            &&& m.events == st.events
            &&& m.used == st.used
            &&& m.spawned == st.spawned
        }),
{
    let hv = hooks_views(hooks);
    assert(hv[k] == hooks[k]@);
    let st = model_at(hooks, slots, data, outcomes, k);
    let st1 = model_at(hooks, slots, data, outcomes, k + 1);
    assert(st1.render_failed == Some(hooks[k]@));
    crate::hook::lemma_model_stuck(
        hv,
        items_of(slots, hooks),
        data,
        hook_keys(hv),
        outcomes,
        k + 1,
        hooks.len() as int,
    );
}

/// A hook whose launched command exits unsuccessfully fails with its exit
/// code and the captured output, and the run stops: no later hook is taken
/// up, and no later process is launched.
pub proof fn law_command_failure_stops(
    hooks: Seq<Hook>,
    slots: Seq<Slot>,
    data: Map<Seq<char>, Seq<char>>,
    outcomes: Seq<Result<CmdOutputView, Seq<char>>>,
    k: int,
)
    requires
        0 <= k < hooks.len(),
        model_live(model_at(hooks, slots, data, outcomes, k)),
        (spec_hook_step(
            hooks[k]@,
            items_of(slots, hooks),
            data,
            run_ctx(
                data,
                hook_keys(hooks_views(hooks)),
                model_at(hooks, slots, data, outcomes, k).completed,
            ),
        ) is Launch),
        (outcomes[model_at(hooks, slots, data, outcomes, k).used] matches Ok(o) && !o.success),
    ensures
        ({
            let st = model_at(hooks, slots, data, outcomes, k);
            let o = outcomes[st.used]->Ok_0;
            let m = run_model(hooks, slots, data, outcomes);
            &&& m == model_at(hooks, slots, data, outcomes, k + 1)
            &&& m.stopped
            &&& m.events == st.events.push(EventM::Started(hooks[k]@.key)).push(
                EventM::Exited(
                    hooks[k]@,
                    crate::hook::exit_code_of(o.code),
                    o.stdout,
                    o.stderr,
                ),
            )
            &&& m.used == st.used + 1
        }),
{
    let hv = hooks_views(hooks);
    assert(hv[k] == hooks[k]@);
    let st1 = model_at(hooks, slots, data, outcomes, k + 1);
    assert(st1.stopped);
    crate::hook::lemma_model_stuck(
        hv,
        items_of(slots, hooks),
        data,
        hook_keys(hv),
        outcomes,
        k + 1,
        hooks.len() as int,
    );
}

/// Whether two emitted events report the same outcome: the same hook taken
/// up, or the same hook ended the same way, with equal captured output and
/// exit codes. Messages of template-engine errors are not compared.
pub open spec fn same_outcome(a: HookStreamResult, b: HookStreamResult) -> bool {
    match (a, b) {
        (HookStreamResult::HookStarted(x), HookStreamResult::HookStarted(y)) => x@ == y@,
        (HookStreamResult::HookDone(x), HookStreamResult::HookDone(y)) => x.hook@ == y.hook@
            && match (x.kind, y.kind) {
            (HookResultKind::Skipped(r1), HookResultKind::Skipped(r2)) => r1 == r2,
            (
                HookResultKind::Completed { stdout: so1, stderr: se1 },
                HookResultKind::Completed { stdout: so2, stderr: se2 },
            ) => so1@ == so2@ && se1@ == se2@,
            (HookResultKind::Failed(e1), HookResultKind::Failed(e2)) => match (e1, e2) {
                (
                    crate::hook::HookError::ConditionalFailed(c1),
                    crate::hook::HookError::ConditionalFailed(c2),
                ) => match (c1, c2) {
                    (
                        crate::hook::ConditionalError::InvalidTemplate(_),
                        crate::hook::ConditionalError::InvalidTemplate(_),
                    ) => true,
                    (
                        crate::hook::ConditionalError::NotBoolean(t1),
                        crate::hook::ConditionalError::NotBoolean(t2),
                    ) => t1@ == t2@,
                    _ => false,
                },
                (
                    crate::hook::HookError::CommandLaunchFailed(m1),
                    crate::hook::HookError::CommandLaunchFailed(m2),
                ) => m1@ == m2@,
                (
                    crate::hook::HookError::CommandExited {
                        exit_code: c1,
                        stdout: so1,
                        stderr: se1,
                    },
                    crate::hook::HookError::CommandExited {
                        exit_code: c2,
                        stdout: so2,
                        stderr: se2,
                    },
                ) => c1 == c2 && so1@ == so2@ && se1@ == se2@,
                _ => false,
            },
            _ => false,
        },
        _ => false,
    }
}

/// Two runs over the same manifest, the same data, and the same process
/// outcomes report the same sequence of hook outcomes, event for event: the
/// run is a function of its inputs. Rendering itself is a function of the
/// template text and the context, so the rendered files of two such runs
/// agree as well (`law_generation_deterministic`).
pub proof fn law_runs_agree(
    hooks: Seq<Hook>,
    slots: Seq<Slot>,
    data: Map<Seq<char>, Seq<char>>,
    outcomes: Seq<Result<CmdOutputView, Seq<char>>>,
    e1: Seq<HookStreamResult>,
    e2: Seq<HookStreamResult>,
)
    requires
        events_match(run_model(hooks, slots, data, outcomes).events, e1),
        events_match(run_model(hooks, slots, data, outcomes).events, e2),
    ensures
        e1.len() == e2.len(),
        forall|i: int| 0 <= i < e1.len() ==> same_outcome(#[trigger] e1[i], e2[i]),
{
    let ms = run_model(hooks, slots, data, outcomes).events;
    assert forall|i: int| 0 <= i < e1.len() implies same_outcome(#[trigger] e1[i], e2[i]) by {
        assert(event_matches(ms[i], e1[i]));
        assert(event_matches(ms[i], e2[i]));
    }
}

/// Two generations of the same template files against the same context yield
/// byte-identical rendered files: filling is a function of the file and the
/// context.
pub proof fn law_generation_deterministic(
    templates: Seq<TemplateFile>,
    ctx: Map<Seq<char>, Seq<char>>,
    v1: Seq<RenderedFile>,
    v2: Seq<RenderedFile>,
)
    requires
        v1.len() == templates.len(),
        v2.len() == templates.len(),
        forall|i: int|
            0 <= i < templates.len() ==> fill_result_matches(
                spec_fill_file((#[trigger] templates[i]).name@, templates[i].contents@, ctx),
                templates[i].name@,
                Result::<RenderedFile, crate::template::FileError>::Ok(v1[i]),
            ),
        forall|i: int|
            0 <= i < templates.len() ==> fill_result_matches(
                spec_fill_file((#[trigger] templates[i]).name@, templates[i].contents@, ctx),
                templates[i].name@,
                Result::<RenderedFile, crate::template::FileError>::Ok(v2[i]),
            ),
    ensures
        forall|i: int|
            0 <= i < templates.len() ==> (#[trigger] v1[i]).path@ == v2[i].path@ && v1[i].contents@
                == v2[i].contents@,
{
    assert forall|i: int| 0 <= i < templates.len() implies (#[trigger] v1[i]).path@ == v2[i].path@
        && v1[i].contents@ == v2[i].contents@ by {
        let o = spec_fill_file(templates[i].name@, templates[i].contents@, ctx);
        assert(fill_result_matches(
            o,
            templates[i].name@,
            Result::<RenderedFile, crate::template::FileError>::Ok(v1[i]),
        ));
        assert(fill_result_matches(
            o,
            templates[i].name@,
            Result::<RenderedFile, crate::template::FileError>::Ok(v2[i]),
        ));
        assert(o is Rendered);
    }
}

} // verus!
