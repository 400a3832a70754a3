use vstd::prelude::*;
use crate::command::CmdOutput;
use crate::command::CmdOutputView;
use crate::command::spawn_command;
use crate::command::spawn_command_as_user;
use crate::data::DataMap;
use crate::needs::Gate;
use crate::needs::Node;
use crate::needs::NodeView;
use crate::needs::is_satisfied;
use crate::needs::items_view;
use crate::needs::spec_needs_satisfied;
use crate::slot::Slot;
use crate::slot::clone_opt_string;
use crate::slot::clone_strings;
use crate::template;
use crate::text;

verus! {

/// One post-generation action declared by the manifest.
#[derive(Debug)]
pub struct Hook {
    pub key: String,
    pub command: Vec<String>,
    pub if_cond: Option<String>,
    pub optional: Option<HookConfigOptional>,
    pub needs: Vec<String>,
    pub name: Option<String>,
    pub description: Option<String>,
}

/// Marks a hook as optional, with the enabled state used when the caller
/// supplies no override.
#[derive(Clone, Copy, Debug, PartialEq, Eq, Structural)]
pub struct HookConfigOptional {
    pub default: bool,
}

/// What the contracts read of a hook.
pub struct HookView {
    pub key: Seq<char>,
    pub command: Seq<Seq<char>>,
    pub if_cond: Option<Seq<char>>,
    pub optional: Option<bool>,
    pub needs: Seq<Seq<char>>,
    pub name: Option<Seq<char>>,
    pub description: Option<Seq<char>>,
}

impl View for Hook {
    type V = HookView;

    open spec fn view(&self) -> HookView {
        HookView {
            key: self.key@,
            command: text::views_of(self.command@),
            if_cond: match self.if_cond {
                Some(c) => Some(c@),
                None => None,
            },
            optional: match self.optional {
                Some(o) => Some(o.default),
                None => None,
            },
            needs: text::views_of(self.needs@),
            name: match self.name {
                Some(n) => Some(n@),
                None => None,
            },
            description: match self.description {
                Some(d) => Some(d@),
                None => None,
            },
        }
    }
}

impl Clone for Hook {
    /// A clone keeps every field.
    fn clone(&self) -> (r: Self)
        ensures
            r@ == self@,
            r.key == self.key,
    {
        let r = Hook {
            key: self.key.clone(),
            command: clone_strings(&self.command),
            if_cond: clone_opt_string(&self.if_cond),
            optional: self.optional,
            needs: clone_strings(&self.needs),
            name: clone_opt_string(&self.name),
            description: clone_opt_string(&self.description),
        };
        proof {
            assert(text::views_of(r.command@) =~= text::views_of(self.command@));
            assert(text::views_of(r.needs@) =~= text::views_of(self.needs@));
        }
        r
    }
}

impl Default for Hook {
    /// The default hook: empty key, empty command, nothing else set.
    fn default() -> (r: Self)
        ensures
            r.key@ == Seq::<char>::empty(),
            r.command@ == Seq::<String>::empty(),
            r.if_cond is None,
            r.optional is None,
            r.needs@ == Seq::<String>::empty(),
            r.name is None,
            r.description is None,
    {
        Hook {
            key: String::new(),
            command: Vec::new(),
            if_cond: None,
            optional: None,
            needs: Vec::new(),
            name: None,
            description: None,
        }
    }
}

/// An optional hook is enabled by the boolean override under its key, where
/// the caller supplied one and it reads `true`; an absent override leaves the
/// declared default, and an unreadable one disables the hook.
pub open spec fn spec_hook_enabled(
    key: Seq<char>,
    default: bool,
    data: Map<Seq<char>, Seq<char>>,
) -> bool {
    if data.contains_key(key) {
        text::spec_parse_bool(data[key]) == Some(true)
    } else {
        default
    }
}

/// A hook without `optional` is always enabled; with it, the override under
/// the hook's key decides, falling back to the declared default.
pub open spec fn hook_view_enabled(h: HookView, data: Map<Seq<char>, Seq<char>>) -> bool {
    match h.optional {
        None => true,
        Some(d) => spec_hook_enabled(h.key, d, data),
    }
}

impl Hook {
    /// A hook without `optional` is always enabled; with it, the override
    /// under the hook's key decides, falling back to the declared default.
    pub open spec fn spec_is_enabled(&self, data: Map<Seq<char>, Seq<char>>) -> bool {
        hook_view_enabled(self@, data)
    }

    /// Whether the hook is enabled under the given data.
    pub fn is_enabled(&self, data: &DataMap) -> (r: bool)
        requires
            data.wf(),
        ensures
            r == self.spec_is_enabled(data@),
    {
        match &self.optional {
            None => true,
            Some(o) => {
                match data.get(self.key.as_str()) {
                    Some(v) => {
                        match text::parse_bool_str(v.as_str()) {
                            Some(b) => b,
                            None => false,
                        }
                    },
                    None => o.default,
                }
            },
        }
    }
}

// ---------------------------------------------------------------------------
// Conditional evaluation
// ---------------------------------------------------------------------------

/// Why a hook's guard expression could not be evaluated. The evaluator here
/// builds its contexts itself and never reports `InvalidContext`; the variant
/// stands for callers that bring a context of their own.
#[derive(Debug)]
pub enum ConditionalError {
    InvalidContext(String),
    InvalidTemplate(String),
    NotBoolean(String),
}

/// How evaluating a guard expression comes out.
pub enum CondOutcome {
    /// The guard's value; a hook without a guard counts as true.
    Value(bool),
    /// The guard text did not render.
    BadTemplate,
    /// The rendered text, after trimming, is no boolean literal; holds that
    /// rendered text.
    NotBool(Seq<char>),
}

/// Evaluating a guard: no guard means true; otherwise the guard renders
/// against the context and the trimmed result must read exactly `true` or
/// `false`.
pub open spec fn spec_evaluate_conditional(
    cond: Option<Seq<char>>,
    ctx: Map<Seq<char>, Seq<char>>,
) -> CondOutcome {
    match cond {
        None => CondOutcome::Value(true),
        Some(c) => match template::render_of(c, ctx) {
            None => CondOutcome::BadTemplate,
            Some(t) => match text::spec_parse_bool(text::spec_trim(t)) {
                Some(b) => CondOutcome::Value(b),
                None => CondOutcome::NotBool(t),
            },
        },
    }
}

/// Whether a conditional-evaluation result reports exactly the outcome.
pub open spec fn cond_matches(o: CondOutcome, r: Result<bool, ConditionalError>) -> bool {
    match o {
        CondOutcome::Value(b) => r == Result::<bool, ConditionalError>::Ok(b),
        CondOutcome::BadTemplate => r matches Err(ConditionalError::InvalidTemplate(_)),
        CondOutcome::NotBool(t) => r matches Err(ConditionalError::NotBoolean(s)) && s@ == t,
    }
}

/// A hook whose command tokens and guard keep clear of the template engine's
/// environment reader.
pub open spec fn hook_env_free(h: HookView) -> bool {
    &&& forall|i: int| 0 <= i < h.command.len() ==> template::env_free(#[trigger] h.command[i])
    &&& match h.if_cond {
        Some(c) => template::env_free(c),
        None => true,
    }
}

impl Hook {
    /// Evaluates the hook's guard expression against the context.
    pub fn evaluate_conditional(&self, context: &DataMap) -> (r: Result<bool, ConditionalError>)
        requires
            context.wf(),
            (self@.if_cond matches Some(c) ==> template::env_free(c)),
        ensures
            cond_matches(spec_evaluate_conditional(self@.if_cond, context@), r),
    {
        let cond = match &self.if_cond {
            Some(c) => c,
            None => {
                return Ok(true);
            },
        };
        let rendered = match template::render_text(cond.as_str(), context) {
            Ok(t) => t,
            Err(e) => {
                return Err(ConditionalError::InvalidTemplate(e));
            },
        };
        match text::parse_bool_trimmed(rendered.as_str()) {
            Some(b) => Ok(b),
            None => Err(ConditionalError::NotBoolean(rendered)),
        }
    }
}

// ---------------------------------------------------------------------------
// Command rendering
// ---------------------------------------------------------------------------

/// Rendering a command: every token renders against the context, or the
/// command does not render at all. Rendering never changes the number of
/// tokens.
pub open spec fn spec_render_tokens(
    toks: Seq<Seq<char>>,
    ctx: Map<Seq<char>, Seq<char>>,
) -> Option<Seq<Seq<char>>> {
    if forall|i: int| 0 <= i < toks.len() ==> template::render_of(#[trigger] toks[i], ctx) is Some {
        Some(Seq::new(toks.len(), |i: int| template::render_of(toks[i], ctx).unwrap()))
    } else {
        None
    }
}

impl Hook {
    /// Renders every token of the hook's command against the context,
    /// stopping at the first token that fails.
    pub fn render_command(&self, context: &DataMap) -> (r: Result<Vec<String>, String>)
        requires
            context.wf(),
            forall|i: int|
                0 <= i < self@.command.len() ==> template::env_free(#[trigger] self@.command[i]),
        ensures
            r matches Ok(v) ==> spec_render_tokens(self@.command, context@) == Some(
                text::views_of(v@),
            ) && v@.len() == self.command@.len(),
            r is Err ==> spec_render_tokens(self@.command, context@) is None,
    {
        let n = self.command.len();
        let mut out: Vec<String> = Vec::new();
        let mut i: usize = 0;
        while i < n
            invariant
                context.wf(),
                forall|j: int|
                    0 <= j < self@.command.len() ==> template::env_free(
                        #[trigger] self@.command[j],
                    ),
                n == self.command@.len(),
                i <= n,
                out@.len() == i,
                forall|j: int|
                    0 <= j < i ==> template::render_of(#[trigger] self@.command[j], context@)
                        == Some(out@[j]@),
            decreases n - i,
        {
            proof {
                assert(self@.command[i as int] == self.command@[i as int]@);
            }
            match template::render_text(self.command[i].as_str(), context) {
                Ok(t) => {
                    out.push(t);
                },
                Err(e) => {
                    proof {
                        assert(template::render_of(self@.command[i as int], context@) is None);
                    }
                    return Err(e);
                },
            }
            i = i + 1;
        }
        proof {
            let rendered = Seq::new(
                self@.command.len(),
                |j: int| template::render_of(self@.command[j], context@).unwrap(),
            );
            assert(text::views_of(out@) =~= rendered);
        }
        Ok(out)
    }
}

// ---------------------------------------------------------------------------
// Validating hook overrides
// ---------------------------------------------------------------------------

/// The errors hook-override validation can report.
#[derive(Debug)]
pub enum ValidateError {
    UnknownKey(String),
    NotOptional(String),
    NotABoolean(String),
}

/// The first hook with the key, if any.
pub open spec fn find_hook(hooks: Seq<Hook>, key: Seq<char>) -> Option<Hook>
    decreases hooks.len(),
{
    if hooks.len() == 0 {
        None
    } else if hooks.first().key@ == key {
        Some(hooks.first())
    } else {
        find_hook(hooks.drop_first(), key)
    }
}

fn find_hook_exec<'a>(hooks: &'a Vec<Hook>, key: &str) -> (r: Option<&'a Hook>)
    ensures
        match r {
            Some(h) => find_hook(hooks@, key@) == Some(*h),
            None => find_hook(hooks@, key@) is None,
        },
{
    let n = hooks.len();
    let mut i: usize = 0;
    proof {
        assert(hooks@.skip(0) =~= hooks@);
    }
    while i < n
        invariant
            n == hooks@.len(),
            i <= n,
            find_hook(hooks@, key@) == find_hook(hooks@.skip(i as int), key@),
        decreases n - i,
    {
        proof {
            assert(hooks@.skip(i as int).first() == hooks@[i as int]);
            assert(hooks@.skip(i as int).drop_first() =~= hooks@.skip(i as int + 1));
        }
        if text::str_eq(hooks[i].key.as_str(), key) {
            return Some(&hooks[i]);
        }
        i = i + 1;
    }
    proof {
        assert(hooks@.skip(n as int).len() == 0);
    }
    None
}

/// How validation of hook overrides comes out.
pub enum OverrideVerdict {
    Accept,
    Unknown(Seq<char>),
    NotOpt(Seq<char>),
    NotBool(Seq<char>),
}

/// Checks each override entry in order: its key must name a hook, that hook
/// must be optional, and the value must be a boolean literal.
pub open spec fn spec_check_overrides(
    hooks: Seq<Hook>,
    entries: Seq<(Seq<char>, Seq<char>)>,
) -> OverrideVerdict
    decreases entries.len(),
{
    if entries.len() == 0 {
        OverrideVerdict::Accept
    } else {
        let e = entries.first();
        match find_hook(hooks, e.0) {
            None => OverrideVerdict::Unknown(e.0),
            Some(h) => if h.optional is None {
                OverrideVerdict::NotOpt(e.0)
            } else if text::spec_parse_bool(e.1) is None {
                OverrideVerdict::NotBool(e.0)
            } else {
                spec_check_overrides(hooks, entries.drop_first())
            },
        }
    }
}

/// Whether an override-validation result reports exactly the verdict.
pub open spec fn override_verdict_matches(
    v: OverrideVerdict,
    r: Result<(), ValidateError>,
) -> bool {
    match v {
        OverrideVerdict::Accept => r is Ok,
        OverrideVerdict::Unknown(k) => r matches Err(ValidateError::UnknownKey(s)) && s@ == k,
        OverrideVerdict::NotOpt(k) => r matches Err(ValidateError::NotOptional(s)) && s@ == k,
        OverrideVerdict::NotBool(k) => r matches Err(ValidateError::NotABoolean(s)) && s@ == k,
    }
}

/// Validates caller-supplied hook overrides: every entry must name a declared
/// optional hook and carry a boolean value.
pub fn validate_data(data: &DataMap, hooks: &Vec<Hook>) -> (r: Result<(), ValidateError>)
    requires
        data.wf(),
    ensures
        override_verdict_matches(spec_check_overrides(hooks@, data.spec_entries()), r),
{
    let n = data.len();
    let mut i: usize = 0;
    proof {
        assert(data.spec_entries().skip(0) =~= data.spec_entries());
    }
    while i < n
        invariant
            data.wf(),
            n == data.spec_entries().len(),
            i <= n,
            spec_check_overrides(hooks@, data.spec_entries()) == spec_check_overrides(
                hooks@,
                data.spec_entries().skip(i as int),
            ),
        decreases n - i,
    {
        proof {
            let rest = data.spec_entries().skip(i as int);
            assert(rest.first() == data.spec_entries()[i as int]);
            assert(rest.drop_first() =~= data.spec_entries().skip(i as int + 1));
        }
        let key = data.key_at(i);
        let val = data.val_at(i);
        match find_hook_exec(hooks, key.as_str()) {
            None => {
                return Err(ValidateError::UnknownKey(key.clone()));
            },
            Some(h) => {
                if h.optional.is_none() {
                    return Err(ValidateError::NotOptional(key.clone()));
                }
                if text::parse_bool_str(val.as_str()).is_none() {
                    return Err(ValidateError::NotABoolean(key.clone()));
                }
            },
        }
        i = i + 1;
    }
    proof {
        assert(data.spec_entries().skip(n as int).len() == 0);
    }
    Ok(())
}

// ---------------------------------------------------------------------------
// The hook scheduler and its model
// ---------------------------------------------------------------------------

/// Why a hook was skipped rather than run.
#[derive(Clone, Copy, Debug, PartialEq, Eq, Structural)]
pub enum SkipReason {
    /// The hook is optional and disabled, by override or by default.
    UserDisabled,
    /// Its guard expression evaluated to false.
    FalseConditional,
    /// A key in `needs` is unknown, disabled, or itself unsatisfied.
    UnmetDependency,
}

/// Why a hook that was due to run failed.
#[derive(Debug)]
pub enum HookError {
    ConditionalFailed(ConditionalError),
    CommandLaunchFailed(String),
    CommandExited { exit_code: i32, stdout: Vec<u8>, stderr: Vec<u8> },
}

/// How one hook ended.
#[derive(Debug)]
pub enum HookResultKind {
    Skipped(SkipReason),
    Completed { stdout: Vec<u8>, stderr: Vec<u8> },
    Failed(HookError),
}

/// One hook together with how it ended.
#[derive(Debug)]
pub struct HookResult {
    pub hook: Hook,
    pub kind: HookResultKind,
}

/// One event of a run: a hook was taken up, or a hook ended.
#[derive(Debug)]
pub enum HookStreamResult {
    HookStarted(String),
    HookDone(HookResult),
}

/// A failure that ends the run before it can report per-hook results.
#[derive(Debug)]
pub enum Error {
    /// A token of the named hook's command did not render.
    ErrorRenderingTemplate(Hook, String),
}

/// The name of the per-run flag that records whether a hook has completed.
pub open spec fn flag_name(key: Seq<char>) -> Seq<char> {
    "hook_ran_"@ + key
}

/// The context with a `false` completion flag added for each key.
pub open spec fn with_false_flags(
    m: Map<Seq<char>, Seq<char>>,
    keys: Seq<Seq<char>>,
) -> Map<Seq<char>, Seq<char>>
    decreases keys.len(),
{
    if keys.len() == 0 {
        m
    } else {
        with_false_flags(m, keys.drop_last()).insert(flag_name(keys.last()), "false"@)
    }
}

/// The context with a `true` completion flag added for each key.
pub open spec fn with_true_flags(
    m: Map<Seq<char>, Seq<char>>,
    keys: Seq<Seq<char>>,
) -> Map<Seq<char>, Seq<char>>
    decreases keys.len(),
{
    if keys.len() == 0 {
        m
    } else {
        with_true_flags(m, keys.drop_last()).insert(flag_name(keys.last()), "true"@)
    }
}

/// The context a hook's templates render against: the run's data, a `false`
/// flag for every declared hook, and a `true` flag for every hook completed
/// so far.
pub open spec fn run_ctx(
    data: Map<Seq<char>, Seq<char>>,
    all_keys: Seq<Seq<char>>,
    completed: Seq<Seq<char>>,
) -> Map<Seq<char>, Seq<char>> {
    with_true_flags(with_false_flags(data, all_keys), completed)
}

/// The views of a hook list.
pub open spec fn hooks_views(hooks: Seq<Hook>) -> Seq<HookView> {
    hooks.map_values(|h: Hook| h@)
}

/// The keys of a hook list.
pub open spec fn hook_keys(hooks: Seq<HookView>) -> Seq<Seq<char>> {
    hooks.map_values(|h: HookView| h.key)
}

/// The dependency nodes a run resolves `needs` against: every slot, then
/// every hook.
pub open spec fn items_of(slots: Seq<Slot>, hooks: Seq<Hook>) -> Seq<NodeView> {
    slots.map_values(|s: Slot| Node::Slot(s)@) + hooks.map_values(|h: Hook| Node::Hook(h)@)
}

/// What the scheduler decides to do with one hook, before any process runs.
pub enum StepPlan {
    /// Not enabled: skip, without reading `needs` or the guard.
    Disabled,
    /// `needs` not satisfied: skip.
    Unsatisfied,
    /// A command token did not render: the whole run fails.
    RenderFailed,
    /// The guard did not render: the hook fails and the run stops.
    GuardBadTemplate,
    /// The rendered guard is no boolean: the hook fails and the run stops.
    GuardNotBoolean(Seq<char>),
    /// The guard is false: skip.
    GuardFalse,
    /// Launch the rendered command line.
    Launch(Seq<Seq<char>>),
}

/// The decision for one hook: enablement, then need satisfaction, then the
/// rendered command, then the guard.
pub open spec fn spec_hook_step(
    h: HookView,
    items: Seq<NodeView>,
    data: Map<Seq<char>, Seq<char>>,
    ctx: Map<Seq<char>, Seq<char>>,
) -> StepPlan {
    if !hook_view_enabled(h, data) {
        StepPlan::Disabled
    } else if !spec_needs_satisfied(items, data, h.needs) {
        StepPlan::Unsatisfied
    } else {
        match spec_render_tokens(h.command, ctx) {
            None => StepPlan::RenderFailed,
            Some(argv) => match spec_evaluate_conditional(h.if_cond, ctx) {
                CondOutcome::BadTemplate => StepPlan::GuardBadTemplate,
                CondOutcome::NotBool(t) => StepPlan::GuardNotBoolean(t),
                CondOutcome::Value(false) => StepPlan::GuardFalse,
                CondOutcome::Value(true) => StepPlan::Launch(argv),
            },
        }
    }
}

/// One event of a run, at the specification level. Error messages the
/// template engine produces are not modelled; everything else is exact.
pub enum EventM {
    Started(Seq<char>),
    Skipped(HookView, SkipReason),
    Completed(HookView, Seq<u8>, Seq<u8>),
    GuardBadTemplate(HookView),
    GuardNotBoolean(HookView, Seq<char>),
    LaunchFailed(HookView, Seq<char>),
    Exited(HookView, i32, Seq<u8>, Seq<u8>),
}

/// Whether a done event's kind reports exactly the model event.
pub open spec fn kind_matches(m: EventM, kind: HookResultKind) -> bool {
    match (m, kind) {
        (EventM::Skipped(_, reason), HookResultKind::Skipped(r2)) => r2 == reason,
        (EventM::Completed(_, so, se), HookResultKind::Completed { stdout, stderr }) => stdout@
            == so && stderr@ == se,
        (
            EventM::GuardBadTemplate(_),
            HookResultKind::Failed(HookError::ConditionalFailed(ConditionalError::InvalidTemplate(_))),
        ) => true,
        (
            EventM::GuardNotBoolean(_, t),
            HookResultKind::Failed(HookError::ConditionalFailed(ConditionalError::NotBoolean(s))),
        ) => s@ == t,
        (EventM::LaunchFailed(_, msg), HookResultKind::Failed(HookError::CommandLaunchFailed(s)))
            => s@ == msg,
        (
            EventM::Exited(_, c, so, se),
            HookResultKind::Failed(HookError::CommandExited { exit_code, stdout, stderr }),
        ) => exit_code == c && stdout@ == so && stderr@ == se,
        _ => false,
    }
}

/// The hook a model event concerns, where it carries one.
pub open spec fn event_hook(m: EventM) -> Option<HookView> {
    match m {
        EventM::Started(_) => None,
        EventM::Skipped(hv, _) => Some(hv),
        EventM::Completed(hv, _, _) => Some(hv),
        EventM::GuardBadTemplate(hv) => Some(hv),
        EventM::GuardNotBoolean(hv, _) => Some(hv),
        EventM::LaunchFailed(hv, _) => Some(hv),
        EventM::Exited(hv, _, _, _) => Some(hv),
    }
}

/// Whether an emitted event reports exactly the model event.
pub open spec fn event_matches(m: EventM, e: HookStreamResult) -> bool {
    match (m, e) {
        (EventM::Started(k), HookStreamResult::HookStarted(s)) => s@ == k,
        (EventM::Started(k), HookStreamResult::HookDone(_)) => false,
        (_, HookStreamResult::HookStarted(_)) => false,
        (_, HookStreamResult::HookDone(hr)) => event_hook(m) == Some(hr.hook@) && kind_matches(
            m,
            hr.kind,
        ),
    }
}

/// Whether a sequence of emitted events reports exactly the model events.
pub open spec fn events_match(ms: Seq<EventM>, es: Seq<HookStreamResult>) -> bool {
    ms.len() == es.len() && forall|i: int| 0 <= i < ms.len() ==> event_matches(#[trigger] ms[i], es[i])
}

/// The run's state after some prefix of the hooks was processed.
pub struct RunModel {
    /// The events emitted so far.
    pub events: Seq<EventM>,
    /// The keys of the hooks completed so far, in completion order.
    pub completed: Seq<Seq<char>>,
    /// How many processes were launched so far.
    pub used: int,
    /// A hook failed: the remaining hooks are not taken up.
    pub stopped: bool,
    /// A command failed to render: the run ends with a run-level error
    /// against this hook, and no results are reported.
    pub render_failed: Option<HookView>,
    /// The command lines handed to the process executor, in launch order.
    pub spawned: Seq<Seq<Seq<char>>>,
}

/// The state before any hook is processed.
pub open spec fn model_init() -> RunModel {
    RunModel {
        events: Seq::empty(),
        completed: Seq::empty(),
        used: 0,
        stopped: false,
        render_failed: None,
        spawned: Seq::empty(),
    }
}

/// The exit code a finished process reports: its own, or 1 where a signal
/// left none.
pub open spec fn exit_code_of(c: Option<i32>) -> i32 {
    match c {
        Some(x) => x,
        None => 1,
    }
}

/// Processing one hook: nothing once the run stopped or failed; otherwise
/// the hook is started, the step decision is taken against the current
/// context, and a launched hook consumes the next process outcome.
pub open spec fn model_step(
    st: RunModel,
    h: HookView,
    items: Seq<NodeView>,
    data: Map<Seq<char>, Seq<char>>,
    all_keys: Seq<Seq<char>>,
    outcomes: Seq<Result<CmdOutputView, Seq<char>>>,
) -> RunModel {
    if st.stopped || st.render_failed is Some {
        st
    } else {
        let ctx = run_ctx(data, all_keys, st.completed);
        let started = st.events.push(EventM::Started(h.key));
        match spec_hook_step(h, items, data, ctx) {
            StepPlan::Disabled => RunModel {
                events: started.push(EventM::Skipped(h, SkipReason::UserDisabled)),
                ..st
            },
            StepPlan::Unsatisfied => RunModel {
                events: started.push(EventM::Skipped(h, SkipReason::UnmetDependency)),
                ..st
            },
            StepPlan::RenderFailed => RunModel { render_failed: Some(h), ..st },
            StepPlan::GuardBadTemplate => RunModel {
                events: started.push(EventM::GuardBadTemplate(h)),
                stopped: true,
                ..st
            },
            StepPlan::GuardNotBoolean(t) => RunModel {
                events: started.push(EventM::GuardNotBoolean(h, t)),
                stopped: true,
                ..st
            },
            StepPlan::GuardFalse => RunModel {
                events: started.push(EventM::Skipped(h, SkipReason::FalseConditional)),
                ..st
            },
            StepPlan::Launch(argv) => {
                let st2 = RunModel { used: st.used + 1, spawned: st.spawned.push(argv), ..st };
                match outcomes[st.used] {
                    Err(msg) => RunModel {
                        events: started.push(EventM::LaunchFailed(h, msg)),
                        stopped: true,
                        ..st2
                    },
                    Ok(o) => if o.success {
                        RunModel {
                            events: started.push(EventM::Completed(h, o.stdout, o.stderr)),
                            completed: st.completed.push(h.key),
                            ..st2
                        }
                    } else {
                        RunModel {
                            events: started.push(
                                EventM::Exited(h, exit_code_of(o.code), o.stdout, o.stderr),
                            ),
                            stopped: true,
                            ..st2
                        }
                    },
                }
            },
        }
    }
}

/// The run's state after the first `n` hooks.
pub open spec fn run_model_upto(
    hooks: Seq<HookView>,
    items: Seq<NodeView>,
    data: Map<Seq<char>, Seq<char>>,
    all_keys: Seq<Seq<char>>,
    outcomes: Seq<Result<CmdOutputView, Seq<char>>>,
    n: int,
) -> RunModel
    decreases n,
{
    if n <= 0 {
        model_init()
    } else {
        model_step(
            run_model_upto(hooks, items, data, all_keys, outcomes, n - 1),
            hooks[n - 1],
            items,
            data,
            all_keys,
            outcomes,
        )
    }
}

/// The run's state after every hook, for a given sequence of process
/// outcomes: hooks in declaration order, needs resolved against all slots and
/// hooks, contexts carrying the completion flags.
pub open spec fn run_model(
    hooks: Seq<Hook>,
    slots: Seq<Slot>,
    data: Map<Seq<char>, Seq<char>>,
    outcomes: Seq<Result<CmdOutputView, Seq<char>>>,
) -> RunModel {
    run_model_upto(
        hooks_views(hooks),
        items_of(slots, hooks),
        data,
        hook_keys(hooks_views(hooks)),
        outcomes,
        hooks.len() as int,
    )
}

/// Each step launches at most one process, and never un-launches one.
pub proof fn lemma_model_used_monotone(
    hooks: Seq<HookView>,
    items: Seq<NodeView>,
    data: Map<Seq<char>, Seq<char>>,
    all_keys: Seq<Seq<char>>,
    outcomes: Seq<Result<CmdOutputView, Seq<char>>>,
    n1: int,
    n2: int,
)
    requires
        0 <= n1 <= n2,
    ensures
        0 <= run_model_upto(hooks, items, data, all_keys, outcomes, n1).used <= run_model_upto(
            hooks,
            items,
            data,
            all_keys,
            outcomes,
            n2,
        ).used,
    decreases n2,
{
    if n2 > 0 {
        if n1 == n2 {
            lemma_model_used_monotone(hooks, items, data, all_keys, outcomes, 0, n2 - 1);
        } else {
            lemma_model_used_monotone(hooks, items, data, all_keys, outcomes, n1, n2 - 1);
        }
    }
}

/// Appending an unread outcome leaves the run as it was.
pub proof fn lemma_model_extend(
    hooks: Seq<HookView>,
    items: Seq<NodeView>,
    data: Map<Seq<char>, Seq<char>>,
    all_keys: Seq<Seq<char>>,
    outcomes: Seq<Result<CmdOutputView, Seq<char>>>,
    x: Result<CmdOutputView, Seq<char>>,
    n: int,
)
    requires
        n >= 0,
        run_model_upto(hooks, items, data, all_keys, outcomes, n).used <= outcomes.len(),
    ensures
        run_model_upto(hooks, items, data, all_keys, outcomes.push(x), n) == run_model_upto(
            hooks,
            items,
            data,
            all_keys,
            outcomes,
            n,
        ),
    decreases n,
{
    if n > 0 {
        lemma_model_used_monotone(hooks, items, data, all_keys, outcomes, n - 1, n);
        lemma_model_extend(hooks, items, data, all_keys, outcomes, x, n - 1);
        let st = run_model_upto(hooks, items, data, all_keys, outcomes, n - 1);
        assert(st.used < outcomes.len() || run_model_upto(
            hooks,
            items,
            data,
            all_keys,
            outcomes,
            n,
        ).used == st.used);
        if st.used < outcomes.len() {
            assert(outcomes.push(x)[st.used] == outcomes[st.used]);
        }
    }
}

/// Once a run stopped or failed, later hooks leave it unchanged.
pub proof fn lemma_model_stuck(
    hooks: Seq<HookView>,
    items: Seq<NodeView>,
    data: Map<Seq<char>, Seq<char>>,
    all_keys: Seq<Seq<char>>,
    outcomes: Seq<Result<CmdOutputView, Seq<char>>>,
    n1: int,
    n2: int,
)
    requires
        0 <= n1 <= n2,
        run_model_upto(hooks, items, data, all_keys, outcomes, n1).stopped || run_model_upto(
            hooks,
            items,
            data,
            all_keys,
            outcomes,
            n1,
        ).render_failed is Some,
    ensures
        run_model_upto(hooks, items, data, all_keys, outcomes, n2) == run_model_upto(
            hooks,
            items,
            data,
            all_keys,
            outcomes,
            n1,
        ),
    decreases n2 - n1,
{
    if n2 > n1 {
        lemma_model_stuck(hooks, items, data, all_keys, outcomes, n1, n2 - 1);
    }
}

/// Builds the dependency node list of a run: every slot, then every hook.
fn build_items(slots: &Vec<Slot>, hooks: &Vec<Hook>) -> (r: Vec<Node>)
    ensures
        items_view(r@) == items_of(slots@, hooks@),
{
    let mut out: Vec<Node> = Vec::new();
    let ns = slots.len();
    let mut i: usize = 0;
    while i < ns
        invariant
            ns == slots@.len(),
            i <= ns,
            out@.len() == i,
            forall|j: int| 0 <= j < i ==> (#[trigger] out@[j])@ == Node::Slot(slots@[j])@,
        decreases ns - i,
    {
        out.push(Node::Slot(slots[i].clone()));
        i = i + 1;
    }
    let nh = hooks.len();
    let mut k: usize = 0;
    while k < nh
        invariant
            ns == slots@.len(),
            nh == hooks@.len(),
            k <= nh,
            out@.len() == ns + k,
            forall|j: int| 0 <= j < ns ==> (#[trigger] out@[j])@ == Node::Slot(slots@[j])@,
            forall|j: int|
                0 <= j < k ==> (#[trigger] out@[ns + j])@ == Node::Hook(hooks@[j])@,
        decreases nh - k,
    {
        out.push(Node::Hook(hooks[k].clone()));
        k = k + 1;
    }
    proof {
        let got = items_view(out@);
        let want = items_of(slots@, hooks@);
        assert(got.len() == want.len());
        assert forall|j: int| 0 <= j < got.len() implies got[j] == want[j] by {
            assert(got[j] == out@[j]@);
            if j < ns {
                assert(want[j] == slots@.map_values(|s: Slot| Node::Slot(s)@)[j]);
            } else {
                assert(out@[ns + (j - ns)]@ == Node::Hook(hooks@[j - ns])@);
                assert(want[j] == hooks@.map_values(|h: Hook| Node::Hook(h)@)[j - ns]);
            }
        }
        assert(got =~= want);
    }
    out
}

/// Adds a `false` completion flag for every hook to a copy of the data.
fn add_false_flags(data: &DataMap, hooks: &Vec<Hook>) -> (r: DataMap)
    requires
        data.wf(),
    ensures
        r@ == with_false_flags(data@, hook_keys(hooks_views(hooks@))),
        r.wf(),
{
    let mut r = data.duplicate();
    let n = hooks.len();
    let mut i: usize = 0;
    proof {
        assert(hook_keys(hooks_views(hooks@)).take(0) =~= Seq::<Seq<char>>::empty());
    }
    while i < n
        invariant
            n == hooks@.len(),
            r.wf(),
            r@ == with_false_flags(data@, hook_keys(hooks_views(hooks@)).take(i as int)),
            i <= n,
        decreases n - i,
    {
        let flag = text::concat_str("hook_ran_", hooks[i].key.as_str());
        r.insert(flag, "false".to_owned());
        proof {
            let ks = hook_keys(hooks_views(hooks@));
            assert(ks.take(i as int + 1).drop_last() =~= ks.take(i as int));
            assert(ks.take(i as int + 1).last() == ks[i as int]);
            assert(ks[i as int] == hooks@[i as int]@.key);
        }
        i = i + 1;
    }
    proof {
        assert(hook_keys(hooks_views(hooks@)).take(n as int) =~= hook_keys(hooks_views(hooks@)));
    }
    r
}

/// Flips the completion flag to `true` for every completed hook, on a copy of
/// the base context.
fn add_true_flags(base: &DataMap, completed: &Vec<String>) -> (r: DataMap)
    requires
        base.wf(),
    ensures
        r@ == with_true_flags(base@, text::views_of(completed@)),
        r.wf(),
{
    let mut r = base.duplicate();
    let n = completed.len();
    let mut i: usize = 0;
    proof {
        assert(text::views_of(completed@).take(0) =~= Seq::<Seq<char>>::empty());
    }
    while i < n
        invariant
            n == completed@.len(),
            r.wf(),
            r@ == with_true_flags(base@, text::views_of(completed@).take(i as int)),
            i <= n,
        decreases n - i,
    {
        let flag = text::concat_str("hook_ran_", completed[i].as_str());
        r.insert(flag, "true".to_owned());
        proof {
            let ks = text::views_of(completed@);
            assert(ks.take(i as int + 1).drop_last() =~= ks.take(i as int));
            assert(ks.take(i as int + 1).last() == ks[i as int]);
        }
        i = i + 1;
    }
    proof {
        assert(text::views_of(completed@).take(n as int) =~= text::views_of(completed@));
    }
    r
}

/// The view of a spawn result.
pub open spec fn outcome_view(r: Result<CmdOutput, String>) -> Result<CmdOutputView, Seq<char>> {
    match r {
        Ok(o) => Ok(o@),
        Err(e) => Err(e@),
    }
}

/// Runs the hooks in declaration order and returns the full event sequence of
/// the run: for each hook taken up, a start event and a done event. A
/// disabled hook, one with unmet needs, and one whose guard is false are
/// skipped; the first failing hook ends the run after its done event; a
/// command that does not render ends the whole run with an error naming the
/// hook. The events are exactly those of `run_model` for some sequence of
/// process outcomes, one per launched process.
pub fn run_hooks_stream(
    dir: &str,
    hooks: &Vec<Hook>,
    slots: &Vec<Slot>,
    data: &DataMap,
    run_as_user: Option<users::User>,
) -> (r: Result<Vec<HookStreamResult>, Error>)
    requires
        data.wf(),
        forall|i: int| 0 <= i < hooks@.len() ==> (#[trigger] hooks@[i]).command@.len() >= 1,
        forall|i: int| 0 <= i < hooks@.len() ==> hook_env_free((#[trigger] hooks@[i])@),
    ensures
        r matches Ok(events) ==> exists|outcomes: Seq<Result<CmdOutputView, Seq<char>>>|
            {
                let m = #[trigger] run_model(hooks@, slots@, data@, outcomes);
                &&& m.render_failed is None
                &&& outcomes.len() == m.used
                &&& events_match(m.events, events@)
            },
        r matches Err(Error::ErrorRenderingTemplate(h, _)) ==> exists|
            outcomes: Seq<Result<CmdOutputView, Seq<char>>>,
        |
            {
                let m = #[trigger] run_model(hooks@, slots@, data@, outcomes);
                &&& m.render_failed matches Some(hv) && h@ == hv
                &&& outcomes.len() == m.used
            },
{
    let ghost hv = hooks_views(hooks@);
    let ghost itemsv = items_of(slots@, hooks@);
    let ghost all_keys = hook_keys(hooks_views(hooks@));
    let items = build_items(slots, hooks);
    let base = add_false_flags(data, hooks);
    let n = hooks.len();
    let mut events: Vec<HookStreamResult> = Vec::new();
    let mut completed: Vec<String> = Vec::new();
    let mut stopped = false;
    let mut i: usize = 0;
    let ghost mut outcomes: Seq<Result<CmdOutputView, Seq<char>>> = Seq::empty();
    proof {
        assert(text::views_of(completed@) =~= Seq::<Seq<char>>::empty());
    }
    while i < n && !stopped
        invariant
            data.wf(),
            base.wf(),
            n == hooks@.len(),
            i <= n,
            forall|j: int| 0 <= j < hooks@.len() ==> (#[trigger] hooks@[j]).command@.len() >= 1,
            forall|j: int| 0 <= j < hooks@.len() ==> hook_env_free((#[trigger] hooks@[j])@),
            hv == hooks_views(hooks@),
            itemsv == items_of(slots@, hooks@),
            all_keys == hook_keys(hooks_views(hooks@)),
            items_view(items@) == itemsv,
            base@ == with_false_flags(data@, all_keys),
            ({
                let m = run_model_upto(
                    hv,
                    itemsv,
                    data@,
                    all_keys,
                    outcomes,
                    if stopped {
                        n as int
                    } else {
                        i as int
                    },
                );
                &&& m.render_failed is None
                &&& (!stopped ==> !m.stopped)
                &&& m.used == outcomes.len()
                &&& events_match(m.events, events@)
                &&& m.completed == text::views_of(completed@)
            }),
        decreases n - i,
    {
        let hook = &hooks[i];
        let ghost m0 = run_model_upto(hv, itemsv, data@, all_keys, outcomes, i as int);
        proof {
            assert(hv[i as int] == hooks@[i as int]@);
        }
        events.push(HookStreamResult::HookStarted(hook.key.clone()));
        let cur = add_true_flags(&base, &completed);
        proof {
            assert(cur@ == run_ctx(data@, all_keys, m0.completed));
        }
        if !hook.is_enabled(data) {
            events.push(
                HookStreamResult::HookDone(
                    HookResult {
                        hook: hook.clone(),
                        kind: HookResultKind::Skipped(SkipReason::UserDisabled),
                    },
                ),
            );
            proof {
                assert(spec_hook_step(hv[i as int], itemsv, data@, cur@) is Disabled);
            }
        } else if !is_satisfied(&hook.needs, &items, data) {
            events.push(
                HookStreamResult::HookDone(
                    HookResult {
                        hook: hook.clone(),
                        kind: HookResultKind::Skipped(SkipReason::UnmetDependency),
                    },
                ),
            );
            proof {
                assert(spec_hook_step(hv[i as int], itemsv, data@, cur@) is Unsatisfied);
            }
        } else {
            let argv = match hook.render_command(&cur) {
                Ok(v) => v,
                Err(msg) => {
                    let errhook = hook.clone();
                    proof {
                        assert(spec_hook_step(hv[i as int], itemsv, data@, cur@) is RenderFailed);
                        let m1 = run_model_upto(
                            hv,
                            itemsv,
                            data@,
                            all_keys,
                            outcomes,
                            i as int + 1,
                        );
                        assert(m1 == model_step(m0, hv[i as int], itemsv, data@, all_keys, outcomes));
                        assert(m1.render_failed == Some(hv[i as int]));
                        lemma_model_stuck(
                            hv,
                            itemsv,
                            data@,
                            all_keys,
                            outcomes,
                            i as int + 1,
                            n as int,
                        );
                        let mfull = run_model(hooks@, slots@, data@, outcomes);
                        assert(mfull == run_model_upto(hv, itemsv, data@, all_keys, outcomes, n as int));
                        assert(mfull.render_failed == Some(hv[i as int]));
                        assert(errhook@ == hv[i as int]);
                        assert(outcomes.len() == mfull.used);
                    }
                    return Err(Error::ErrorRenderingTemplate(errhook, msg));
                },
            };
            match hook.evaluate_conditional(&cur) {
                Err(ce) => {
                    events.push(
                        HookStreamResult::HookDone(
                            HookResult {
                                hook: hook.clone(),
                                kind: HookResultKind::Failed(HookError::ConditionalFailed(ce)),
                            },
                        ),
                    );
                    stopped = true;
                },
                Ok(false) => {
                    events.push(
                        HookStreamResult::HookDone(
                            HookResult {
                                hook: hook.clone(),
                                kind: HookResultKind::Skipped(SkipReason::FalseConditional),
                            },
                        ),
                    );
                    proof {
                        assert(spec_hook_step(hv[i as int], itemsv, data@, cur@) is GuardFalse);
                    }
                },
                Ok(true) => {
                    let res = match &run_as_user {
                        None => spawn_command(&argv, dir),
                        Some(u) => spawn_command_as_user(&argv, dir, u),
                    };
                    proof {
                        lemma_model_extend(
                            hv,
                            itemsv,
                            data@,
                            all_keys,
                            outcomes,
                            outcome_view(res),
                            i as int,
                        );
                        outcomes = outcomes.push(outcome_view(res));
                    }
                    match res {
                        Err(msg) => {
                            events.push(
                                HookStreamResult::HookDone(
                                    HookResult {
                                        hook: hook.clone(),
                                        kind: HookResultKind::Failed(
                                            HookError::CommandLaunchFailed(msg),
                                        ),
                                    },
                                ),
                            );
                            stopped = true;
                        },
                        Ok(out) => {
                            if out.success {
                                completed.push(hook.key.clone());
                                proof {
                                    assert(text::views_of(completed@) =~= text::views_of(
                                        completed@.drop_last(),
                                    ).push(hook.key@));
                                }
                                events.push(
                                    HookStreamResult::HookDone(
                                        HookResult {
                                            hook: hook.clone(),
                                            kind: HookResultKind::Completed {
                                                stdout: out.stdout,
                                                stderr: out.stderr,
                                            },
                                        },
                                    ),
                                );
                            } else {
                                let code = match out.code {
                                    Some(c) => c,
                                    None => 1,
                                };
                                events.push(
                                    HookStreamResult::HookDone(
                                        HookResult {
                                            hook: hook.clone(),
                                            kind: HookResultKind::Failed(
                                                HookError::CommandExited {
                                                    exit_code: code,
                                                    stdout: out.stdout,
                                                    stderr: out.stderr,
                                                },
                                            ),
                                        },
                                    ),
                                );
                                stopped = true;
                            }
                        },
                    }
                },
            }
        }
        proof {
            let m1 = run_model_upto(hv, itemsv, data@, all_keys, outcomes, i as int + 1);
            assert(m1 == model_step(m0, hv[i as int], itemsv, data@, all_keys, outcomes));
            if stopped {
                lemma_model_stuck(hv, itemsv, data@, all_keys, outcomes, i as int + 1, n as int);
            }
        }
        i = i + 1;
    }
    proof {
        let m = run_model(hooks@, slots@, data@, outcomes);
        assert(m == run_model_upto(hv, itemsv, data@, all_keys, outcomes, n as int));
        assert(m.render_failed is None);
        assert(outcomes.len() == m.used);
        assert(events_match(m.events, events@));
    }
    Ok(events)
}

/// The done events of a model run, in order.
pub open spec fn model_dones(ms: Seq<EventM>) -> Seq<EventM>
    decreases ms.len(),
{
    if ms.len() == 0 {
        Seq::empty()
    } else {
        let rest = model_dones(ms.drop_last());
        if ms.last() is Started {
            rest
        } else {
            rest.push(ms.last())
        }
    }
}

/// The payloads of the done events of a run, in order.
pub open spec fn done_payloads(es: Seq<HookStreamResult>) -> Seq<HookResult>
    decreases es.len(),
{
    if es.len() == 0 {
        Seq::empty()
    } else {
        let rest = done_payloads(es.drop_last());
        match es.last() {
            HookStreamResult::HookStarted(_) => rest,
            HookStreamResult::HookDone(hr) => rest.push(hr),
        }
    }
}

/// Whether a sequence of results reports exactly the model's done events.
pub open spec fn results_match(ms: Seq<EventM>, rs: Seq<HookResult>) -> bool {
    ms.len() == rs.len() && forall|i: int|
        0 <= i < ms.len() ==> event_matches(#[trigger] ms[i], HookStreamResult::HookDone(rs[i]))
}

/// Events that match pointwise have done events that match pointwise.
proof fn lemma_dones_match(ms: Seq<EventM>, es: Seq<HookStreamResult>)
    requires
        events_match(ms, es),
    ensures
        results_match(model_dones(ms), done_payloads(es)),
    decreases ms.len(),
{
    if ms.len() > 0 {
        assert(forall|i: int|
            0 <= i < ms.len() - 1 ==> event_matches(
                #[trigger] ms.drop_last()[i],
                es.drop_last()[i],
            ));
        lemma_dones_match(ms.drop_last(), es.drop_last());
        assert(event_matches(ms.last(), es.last()));
    }
}

/// Runs the hooks as `run_hooks_stream` does and keeps the per-hook results,
/// dropping the start events.
pub fn run_hooks(
    hooks: &Vec<Hook>,
    dir: &str,
    slots: &Vec<Slot>,
    data: &DataMap,
    run_as_user: Option<users::User>,
) -> (r: Result<Vec<HookResult>, Error>)
    requires
        data.wf(),
        forall|i: int| 0 <= i < hooks@.len() ==> (#[trigger] hooks@[i]).command@.len() >= 1,
        forall|i: int| 0 <= i < hooks@.len() ==> hook_env_free((#[trigger] hooks@[i])@),
    ensures
        r matches Ok(results) ==> exists|outcomes: Seq<Result<CmdOutputView, Seq<char>>>|
            {
                let m = #[trigger] run_model(hooks@, slots@, data@, outcomes);
                &&& m.render_failed is None
                &&& outcomes.len() == m.used
                &&& results_match(model_dones(m.events), results@)
            },
        r matches Err(Error::ErrorRenderingTemplate(h, _)) ==> exists|
            outcomes: Seq<Result<CmdOutputView, Seq<char>>>,
        |
            {
                let m = #[trigger] run_model(hooks@, slots@, data@, outcomes);
                &&& m.render_failed matches Some(hv) && h@ == hv
                &&& outcomes.len() == m.used
            },
{
    let mut evs = match run_hooks_stream(dir, hooks, slots, data, run_as_user) {
        Ok(e) => e,
        Err(e) => {
            return Err(e);
        },
    };
    let ghost eseq = evs@;
    let ghost oc = choose|outcomes: Seq<Result<CmdOutputView, Seq<char>>>|
        {
            let m = #[trigger] run_model(hooks@, slots@, data@, outcomes);
            &&& m.render_failed is None
            &&& outcomes.len() == m.used
            &&& events_match(m.events, eseq)
        };
    let mut results: Vec<HookResult> = Vec::new();
    proof {
        assert(eseq.take(0) =~= Seq::<HookStreamResult>::empty());
    }
    while evs.len() > 0
        invariant
            evs@.len() <= eseq.len(),
            evs@ == eseq.skip(eseq.len() - evs@.len()),
            results@ == done_payloads(eseq.take(eseq.len() - evs@.len())),
        decreases evs.len(),
    {
        let ghost c = eseq.len() - evs@.len();
        proof {
            assert(evs@[0] == eseq[c]);
            assert(eseq.take(c + 1).drop_last() =~= eseq.take(c));
            assert(eseq.take(c + 1).last() == eseq[c]);
            assert(evs@.remove(0) =~= eseq.skip(c + 1));
        }
        let e = evs.remove(0);
        match e {
            HookStreamResult::HookStarted(_) => {},
            HookStreamResult::HookDone(hr) => {
                results.push(hr);
            },
        }
    }
    proof {
        assert(eseq.take(eseq.len() as int) =~= eseq);
        let m = run_model(hooks@, slots@, data@, oc);
        lemma_dones_match(m.events, eseq);
    }
    Ok(results)
}

} // verus!

