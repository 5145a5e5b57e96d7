//! The dispatcher: which handler calls an event leads to, and how bindings
//! are grouped at startup.

use crate::actions::{handler_input, Action, ActionView};
use crate::entries::{
    distinct_keys, entry_keys, find_entry, first_index, has_key, is_first, lemma_first_exists,
    lemma_first_index, lemma_first_push, lemma_keys_push,
};
use crate::errors::AncymonError;
use crate::config::Config;
use crate::entries::{find_name, names_view};
use crate::errors::ConfigError;
use crate::events::Event;
use crate::triggers::{Trigger, TriggerView};
use crate::values::{Value, ValueView};
use vstd::string::StringExecFns;
use vstd::prelude::*;

verus! {

/// The number of events that the bus holds before a sender has to wait.
pub const BUS_CAPACITY: usize = 256;

/// What a list of actions denotes, item by item.
pub open spec fn action_views(actions: Seq<Action>) -> Seq<ActionView> {
    Seq::new(actions.len(), |i: int| actions[i]@)
}

/// The actions among `actions` that listen for the event `name`, in order.
pub open spec fn bound_to(actions: Seq<ActionView>, name: Seq<char>) -> Seq<ActionView>
    decreases actions.len(),
{
    if actions.len() == 0 {
        Seq::empty()
    } else if actions.last().event == name {
        bound_to(actions.drop_last(), name).push(actions.last())
    } else {
        bound_to(actions.drop_last(), name)
    }
}

/// Of two lists of bindings in a row, the bindings that listen for an event
/// are those of the first list followed by those of the second.
pub proof fn lemma_bound_to_concat(a: Seq<ActionView>, b: Seq<ActionView>, name: Seq<char>)
    ensures
        bound_to(a + b, name) == bound_to(a, name) + bound_to(b, name),
    decreases b.len(),
{
    if b.len() == 0 {
        assert(a + b =~= a);
        assert(bound_to(a, name) + bound_to(b, name) =~= bound_to(a, name));
    } else {
        lemma_bound_to_concat(a, b.drop_last(), name);
        assert((a + b).drop_last() =~= a + b.drop_last());
        assert((a + b).last() == b.last());
        if b.last().event == name {
            assert(bound_to(a, name) + bound_to(b.drop_last(), name).push(b.last()) =~= (bound_to(
                a,
                name,
            ) + bound_to(b.drop_last(), name)).push(b.last()));
        }
    }
}

/// Every binding that listens for an event is evaluated exactly once for
/// each occurrence of the event, whatever else is bound: among the
/// bindings that listen for the event, it stands once, between those that
/// were configured before it and those that were configured after it; a
/// binding that listens for another event does not stand among them.
pub proof fn lemma_each_binding_once(
    before: Seq<ActionView>,
    action: ActionView,
    after: Seq<ActionView>,
    name: Seq<char>,
)
    ensures
        action.event == name ==> bound_to(before.push(action) + after, name) == bound_to(
            before,
            name,
        ).push(action) + bound_to(after, name),
        action.event != name ==> bound_to(before.push(action) + after, name) == bound_to(
            before,
            name,
        ) + bound_to(after, name),
{
    lemma_bound_to_concat(before.push(action), after, name);
    assert(before.push(action).drop_last() =~= before);
}

/// What is decided about an action depends on the other handlers in one
/// thing only, whether the action's own handler is among them: a handler
/// that is missing for one action changes nothing for another.
pub proof fn lemma_evaluation_is_local(
    action: ActionView,
    value: Result<ValueView, AncymonError>,
    handlers: Seq<Seq<char>>,
    others: Seq<Seq<char>>,
)
    requires
        has_key(handlers, action.handler) == has_key(others, action.handler),
    ensures
        evaluate(action, value, handlers) == evaluate(action, value, others),
{
}

/// An action fires for a payload exactly where the filter hands the
/// handler an input, and then the handler gets that input, the action's
/// own arguments and the name to emit under; whether the handler exists
/// decides between calling it and reporting it.
pub proof fn lemma_evaluation_follows_filter(
    action: ActionView,
    value: Result<ValueView, AncymonError>,
    handlers: Seq<Seq<char>>,
)
    ensures
        evaluate(action, value, handlers) is Skipped <==> handler_input(
            value,
            action.accepted_input,
        ) is None,
        evaluate(action, value, handlers) is Invoke <==> (handler_input(
            value,
            action.accepted_input,
        ) is Some && has_key(handlers, action.handler)),
        evaluate(action, value, handlers) matches EvaluationView::Invoke {
            handler,
            input,
            arguments,
            emit,
        } ==> handler == action.handler && Some(input) == handler_input(
            value,
            action.accepted_input,
        ) && arguments == action.arguments && emit == action.emit,
{
}

/// The actions that `groups` holds for the event `name`: those of the first
/// group of that name, and none where there is no such group.
pub open spec fn grouped(groups: Seq<(String, Vec<Action>)>, name: Seq<char>) -> Seq<ActionView> {
    if has_key(entry_keys(groups), name) {
        action_views(groups[first_index(entry_keys(groups), name)].1@)
    } else {
        Seq::empty()
    }
}

/// What an [`Evaluation`] denotes.
pub enum EvaluationView {
    Skipped,
    MissingHandler { handler: Seq<char> },
    Invoke { handler: Seq<char>, input: ValueView, arguments: ValueView, emit: Seq<char> },
}

/// What the dispatcher decides about one action for one event.
#[derive(Debug)]
pub enum Evaluation {
    /// The event's payload does not pass the action's filter.
    Skipped,
    /// The action fires, but no handler of that name exists: the action is
    /// reported and passed over, and nothing else is affected.
    MissingHandler { handler: String },
    /// The action fires: the handler is to be called with `input` and
    /// `arguments`, and its outcome becomes an event named `emit`.
    Invoke { handler: String, input: Value, arguments: Value, emit: String },
}

impl View for Evaluation {
    type V = EvaluationView;

    open spec fn view(&self) -> EvaluationView {
        match self {
            Evaluation::Skipped => EvaluationView::Skipped,
            Evaluation::MissingHandler { handler } => EvaluationView::MissingHandler {
                handler: handler@,
            },
            Evaluation::Invoke { handler, input, arguments, emit } => EvaluationView::Invoke {
                handler: handler@,
                input: input@,
                arguments: arguments@,
                emit: emit@,
            },
        }
    }
}

/// The decision about one action for a payload: the filter first, then the
/// handler's name. It depends on nothing but the action, the payload and
/// the names of the handlers that exist.
pub open spec fn evaluate(
    action: ActionView,
    value: Result<ValueView, AncymonError>,
    handlers: Seq<Seq<char>>,
) -> EvaluationView {
    match handler_input(value, action.accepted_input) {
        None => EvaluationView::Skipped,
        Some(input) => if has_key(handlers, action.handler) {
            EvaluationView::Invoke {
                handler: action.handler,
                input,
                arguments: action.arguments,
                emit: action.emit,
            }
        } else {
            EvaluationView::MissingHandler { handler: action.handler }
        },
    }
}

/// A trigger source with what it is initialised with: its own configuration
/// and the trigger bindings that name it.
#[derive(Debug)]
pub struct Route {
    pub source: String,
    pub config: Value,
    pub triggers: Vec<Trigger>,
}

/// The dispatcher's state once built: action bindings grouped by the event
/// they listen for, the handler instances by name with the type each is
/// built from, and the trigger sources with their bindings.
#[derive(Debug)]
pub struct Bot {
    pub actions: Vec<(String, Vec<Action>)>,
    pub handlers: Vec<(String, String)>,
    pub sources: Vec<Route>,
}

impl Bot {
    /// The actions that listen for the event `name`, in the order in which
    /// they were configured.
    pub open spec fn matching(self, name: Seq<char>) -> Seq<ActionView> {
        grouped(self.actions@, name)
    }

    /// The names of the handler instances.
    pub open spec fn handler_names(self) -> Seq<Seq<char>> {
        entry_keys(self.handlers@)
    }

    /// Decides, for one event, what becomes of every action that listens for
    /// it: one evaluation per such action, in order, each made on its own.
    /// An event that no action listens for yields none.
    pub fn execute_event(&self, event: &Event) -> (r: Vec<Evaluation>)
        ensures
            r.len() == self.matching(event.name@).len(),
            forall|i: int|
                0 <= i < r.len() ==> (#[trigger] r[i])@ == evaluate(
                    self.matching(event.name@)[i],
                    event@.value,
                    self.handler_names(),
                ),
    {
        let mut out: Vec<Evaluation> = Vec::new();
        let g = match find_entry(&self.actions, event.name.as_str()) {
            Some(g) => g,
            None => {
                return out;
            },
        };
        proof {
            lemma_first_index(entry_keys(self.actions@), event.name@, g as int);
        }
        let members = &self.actions[g].1;
        let mut i: usize = 0;
        while i < members.len()
            invariant
                i <= members.len(),
                out.len() == i,
                self.matching(event.name@) == action_views(members@),
                forall|j: int|
                    0 <= j < i ==> (#[trigger] out[j])@ == evaluate(
                        members[j]@,
                        event@.value,
                        self.handler_names(),
                    ),
            decreases members.len() - i,
        {
            let action = &members[i];
            let step = match action.accepted_input.input_for(&event.value) {
                None => Evaluation::Skipped,
                Some(input) => match find_entry(&self.handlers, action.handler.as_str()) {
                    Some(_) => Evaluation::Invoke {
                        handler: action.handler.clone(),
                        input,
                        arguments: action.arguments.clone(),
                        emit: action.emit.clone(),
                    },
                    None => Evaluation::MissingHandler { handler: action.handler.clone() },
                },
            };
            out.push(step);
            i += 1;
        }
        out
    }
}

/// The events that `actions` listen for, each once, in the order in which
/// they first occur.
pub open spec fn events_of(actions: Seq<ActionView>) -> Seq<Seq<char>>
    decreases actions.len(),
{
    if actions.len() == 0 {
        Seq::empty()
    } else if has_key(events_of(actions.drop_last()), actions.last().event) {
        events_of(actions.drop_last())
    } else {
        events_of(actions.drop_last()).push(actions.last().event)
    }
}

/// Groups action bindings by the event they listen for: one group for each
/// event, in the order in which the events first occur. Each group holds
/// the bindings of its event in the order in which they were configured,
/// and every binding stands in exactly one group.
pub fn build_actions(actions: &Vec<Action>) -> (groups: Vec<(String, Vec<Action>)>)
    ensures
        entry_keys(groups@) == events_of(action_views(actions@)),
        distinct_keys(entry_keys(groups@)),
        forall|name: Seq<char>| #[trigger]
            grouped(groups@, name) == bound_to(action_views(actions@), name),
{
    let mut groups: Vec<(String, Vec<Action>)> = Vec::new();
    let mut i: usize = 0;
    let ghost all = action_views(actions@);
    assert(all.take(0) =~= Seq::<ActionView>::empty());
    assert(entry_keys(groups@) =~= Seq::<Seq<char>>::empty());
    while i < actions.len()
        invariant
            i <= actions.len(),
            all == action_views(actions@),
            entry_keys(groups@) == events_of(all.take(i as int)),
            forall|g: int|
                0 <= g < groups.len() ==> is_first(
                    entry_keys(groups@),
                    #[trigger] entry_keys(groups@)[g],
                    g,
                ),
            forall|name: Seq<char>| #[trigger]
                grouped(groups@, name) == bound_to(all.take(i as int), name),
        decreases actions.len() - i,
    {
        let action = actions[i].clone();
        let ghost before = groups@;
        let ghost keys = entry_keys(before);
        let ghost event = action.event@;
        proof {
            assert(all.take(i + 1).drop_last() =~= all.take(i as int));
            assert(all.take(i + 1).last() == action@);
        }
        match find_entry(&groups, action.event.as_str()) {
            Some(g) => {
                groups[g].1.push(action);
                proof {
                    assert(entry_keys(groups@) =~= keys);
                    lemma_first_index(keys, event, g as int);
                    assert forall|name: Seq<char>| #[trigger]
                        grouped(groups@, name) == bound_to(all.take(i + 1), name) by {
                        assert(grouped(before, name) == bound_to(all.take(i as int), name));
                        if name == event {
                            assert(grouped(groups@, name) =~= grouped(before, name).push(action@));
                        } else if has_key(keys, name) {
                            lemma_first_exists(keys, name);
                            assert(grouped(groups@, name) =~= grouped(before, name));
                        }
                    }
                }
            },
            None => {
                let name = action.event.clone();
                let mut members: Vec<Action> = Vec::new();
                members.push(action);
                groups.push((name, members));
                proof {
                    lemma_keys_push(before, groups@.last());
                    assert forall|g: int| 0 <= g < groups.len() implies is_first(
                        entry_keys(groups@),
                        #[trigger] entry_keys(groups@)[g],
                        g,
                    ) by {
                        lemma_first_push(keys, event, entry_keys(groups@)[g]);
                        if g < keys.len() {
                            assert(is_first(keys, keys[g], g));
                        }
                    }
                    assert forall|name: Seq<char>| #[trigger]
                        grouped(groups@, name) == bound_to(all.take(i + 1), name) by {
                        assert(grouped(before, name) == bound_to(all.take(i as int), name));
                        lemma_first_push(keys, event, name);
                        if name == event {
                            lemma_first_index(entry_keys(groups@), name, keys.len() as int);
                            assert(grouped(groups@, name) =~= Seq::empty().push(action@));
                        } else if has_key(keys, name) {
                            lemma_first_exists(keys, name);
                            lemma_first_index(
                                entry_keys(groups@),
                                name,
                                first_index(keys, name),
                            );
                            assert(grouped(groups@, name) =~= grouped(before, name));
                        }
                    }
                }
            },
        }
        i += 1;
    }
    proof {
        assert(all.take(i as int) =~= all);
        let keys = entry_keys(groups@);
        assert forall|a: int, b: int| 0 <= a < b < keys.len() implies keys[a] != keys[b] by {
            assert(is_first(keys, keys[b], b));
        }
    }
    groups
}

/// What a list of triggers denotes, item by item.
pub open spec fn trigger_views(triggers: Seq<Trigger>) -> Seq<TriggerView> {
    Seq::new(triggers.len(), |i: int| triggers[i]@)
}

/// The triggers among `triggers` that name the source `source`, in order.
pub open spec fn routed_to(triggers: Seq<TriggerView>, source: Seq<char>) -> Seq<TriggerView>
    decreases triggers.len(),
{
    if triggers.len() == 0 {
        Seq::empty()
    } else if triggers.last().source == source {
        routed_to(triggers.drop_last(), source).push(triggers.last())
    } else {
        routed_to(triggers.drop_last(), source)
    }
}

/// The sources that `triggers` name, each once, in the order in which they
/// first occur.
pub open spec fn sources_of(triggers: Seq<TriggerView>) -> Seq<Seq<char>>
    decreases triggers.len(),
{
    if triggers.len() == 0 {
        Seq::empty()
    } else if has_key(sources_of(triggers.drop_last()), triggers.last().source) {
        sources_of(triggers.drop_last())
    } else {
        sources_of(triggers.drop_last()).push(triggers.last().source)
    }
}

/// Groups trigger bindings by the source they name: one group for each
/// source named, in the order in which the sources first occur, each with
/// its bindings in the order in which they were configured.
pub fn group_triggers(triggers: &Vec<Trigger>) -> (groups: Vec<(String, Vec<Trigger>)>)
    ensures
        entry_keys(groups@) == sources_of(trigger_views(triggers@)),
        distinct_keys(entry_keys(groups@)),
        forall|g: int|
            0 <= g < groups.len() ==> trigger_views((#[trigger] groups[g]).1@) == routed_to(
                trigger_views(triggers@),
                groups[g].0@,
            ),
{
    let mut groups: Vec<(String, Vec<Trigger>)> = Vec::new();
    let mut i: usize = 0;
    let ghost all = trigger_views(triggers@);
    assert(all.take(0) =~= Seq::<TriggerView>::empty());
    assert(entry_keys(groups@) =~= Seq::<Seq<char>>::empty());
    while i < triggers.len()
        invariant
            i <= triggers.len(),
            all == trigger_views(triggers@),
            entry_keys(groups@) == sources_of(all.take(i as int)),
            forall|g: int|
                0 <= g < groups.len() ==> is_first(
                    entry_keys(groups@),
                    #[trigger] entry_keys(groups@)[g],
                    g,
                ),
            forall|g: int|
                0 <= g < groups.len() ==> trigger_views((#[trigger] groups[g]).1@) == routed_to(
                    all.take(i as int),
                    groups[g].0@,
                ),
        decreases triggers.len() - i,
    {
        let trigger = triggers[i].clone();
        let ghost before = groups@;
        let ghost keys = entry_keys(before);
        let ghost source = trigger.source@;
        proof {
            assert(all.take(i + 1).drop_last() =~= all.take(i as int));
            assert(all.take(i + 1).last() == trigger@);
        }
        match find_entry(&groups, trigger.source.as_str()) {
            Some(at) => {
                groups[at].1.push(trigger);
                proof {
                    assert(entry_keys(groups@) =~= keys);
                    assert forall|g: int| 0 <= g < groups.len() implies trigger_views(
                        (#[trigger] groups[g]).1@,
                    ) == routed_to(all.take(i + 1), groups[g].0@) by {
                        assert(is_first(keys, keys[g], g));
                        assert(trigger_views(before[g].1@) == routed_to(
                            all.take(i as int),
                            before[g].0@,
                        ));
                        if g == at {
                            assert(trigger_views(groups[g].1@) =~= trigger_views(
                                before[g].1@,
                            ).push(trigger@));
                        } else {
                            assert(keys[g] != source);
                        }
                    }
                }
            },
            None => {
                let name = trigger.source.clone();
                let mut members: Vec<Trigger> = Vec::new();
                members.push(trigger);
                groups.push((name, members));
                proof {
                    lemma_keys_push(before, groups@.last());
                    lemma_routed_none(all.take(i as int), source);
                    assert forall|g: int| 0 <= g < groups.len() implies is_first(
                        entry_keys(groups@),
                        #[trigger] entry_keys(groups@)[g],
                        g,
                    ) by {
                        lemma_first_push(keys, source, entry_keys(groups@)[g]);
                        if g < keys.len() {
                            assert(is_first(keys, keys[g], g));
                        }
                    }
                    assert forall|g: int| 0 <= g < groups.len() implies trigger_views(
                        (#[trigger] groups[g]).1@,
                    ) == routed_to(all.take(i + 1), groups[g].0@) by {
                        if g < keys.len() {
                            assert(keys[g] != source);
                            assert(trigger_views(before[g].1@) == routed_to(
                                all.take(i as int),
                                before[g].0@,
                            ));
                        } else {
                            assert(trigger_views(groups[g].1@) =~= Seq::empty().push(trigger@));
                        }
                    }
                }
            },
        }
        i += 1;
    }
    proof {
        assert(all.take(i as int) =~= all);
        let keys = entry_keys(groups@);
        assert forall|a: int, b: int| 0 <= a < b < keys.len() implies keys[a] != keys[b] by {
            assert(is_first(keys, keys[b], b));
        }
    }
    groups
}

fn copy_triggers(triggers: &Vec<Trigger>) -> (r: Vec<Trigger>)
    ensures
        trigger_views(r@) == trigger_views(triggers@),
{
    let mut out: Vec<Trigger> = Vec::new();
    let mut i: usize = 0;
    while i < triggers.len()
        invariant
            i <= triggers.len(),
            out.len() == i,
            forall|j: int| 0 <= j < i ==> out[j]@ == triggers[j]@,
        decreases triggers.len() - i,
    {
        out.push(triggers[i].clone());
        i += 1;
    }
    assert(trigger_views(out@) =~= trigger_views(triggers@));
    out
}

/// A source that triggers may name: one that is registered and has a
/// configuration table.
pub open spec fn routable(
    registered: Seq<Seq<char>>,
    configured: Seq<Seq<char>>,
    source: Seq<char>,
) -> bool {
    has_key(registered, source) && has_key(configured, source)
}

/// The error for a source that triggers name and that is not routable: an
/// unregistered source is an `InvalidSource`, a registered one without a
/// configuration table a `MissingConfig`, each with the source's name.
pub open spec fn is_route_error(
    e: AncymonError,
    registered: Seq<Seq<char>>,
    source: Seq<char>,
) -> bool {
    if has_key(registered, source) {
        e matches AncymonError::ConfigError(ConfigError::MissingConfig(text)) && text@ == source
    } else {
        e matches AncymonError::ConfigError(ConfigError::InvalidSource(text)) && text@ == source
    }
}

/// `g` is the first position among `names` of a source that is not
/// routable.
pub open spec fn first_unroutable(
    registered: Seq<Seq<char>>,
    configured: Seq<Seq<char>>,
    names: Seq<Seq<char>>,
    g: int,
) -> bool {
    &&& 0 <= g < names.len()
    &&& forall|h: int| 0 <= h < g ==> routable(registered, configured, #[trigger] names[h])
    &&& !routable(registered, configured, names[g])
}

/// `route` is the route of the source `name`: it holds the source's
/// configuration table and the triggers that name the source, in order.
pub open spec fn is_route(
    route: Route,
    configs: Seq<(String, Value)>,
    triggers: Seq<TriggerView>,
    name: Seq<char>,
) -> bool {
    &&& route.source@ == name
    &&& has_key(entry_keys(configs), name)
    &&& route.config@ == configs[first_index(entry_keys(configs), name)].1@
    &&& trigger_views(route.triggers@) == routed_to(triggers, name)
}

/// Hands every trigger binding to the source it names.
///
/// Succeeds where every source that a trigger names is registered and has a
/// configuration table: there is then one route for each such source, in
/// the order in which the sources first occur, with that table and with the
/// source's bindings in the order in which they were configured. Otherwise
/// the error is that of the first source, in that order, for which this
/// fails.
pub fn route_triggers(
    registered: &Vec<String>,
    configs: &Vec<(String, Value)>,
    triggers: &Vec<Trigger>,
) -> (r: Result<Vec<Route>, AncymonError>)
    ensures
        ({
            let all = trigger_views(triggers@);
            let names = sources_of(all);
            let known = names_view(registered@);
            let configured = entry_keys(configs@);
            match r {
                Ok(routes) => {
                    &&& routes.len() == names.len()
                    &&& forall|g: int|
                        0 <= g < names.len() ==> routable(known, configured, #[trigger] names[g])
                    &&& forall|g: int|
                        0 <= g < routes.len() ==> is_route(
                            #[trigger] routes[g],
                            configs@,
                            all,
                            names[g],
                        )
                },
                Err(e) => exists|g: int| #[trigger]
                    first_unroutable(known, configured, names, g) && is_route_error(
                        e,
                        known,
                        names[g],
                    ),
            }
        }),
{
    let groups = group_triggers(triggers);
    let ghost all = trigger_views(triggers@);
    let ghost names = sources_of(all);
    let ghost known = names_view(registered@);
    let ghost configured = entry_keys(configs@);
    let mut routes: Vec<Route> = Vec::new();
    let mut g: usize = 0;
    while g < groups.len()
        invariant
            g <= groups.len(),
            routes.len() == g,
            all == trigger_views(triggers@),
            names == sources_of(all),
            known == names_view(registered@),
            configured == entry_keys(configs@),
            entry_keys(groups@) == names,
            forall|h: int|
                0 <= h < groups.len() ==> trigger_views((#[trigger] groups[h]).1@) == routed_to(
                    all,
                    groups[h].0@,
                ),
            forall|h: int| 0 <= h < g ==> routable(known, configured, #[trigger] names[h]),
            forall|h: int| 0 <= h < g ==> is_route(#[trigger] routes[h], configs@, all, names[h]),
        decreases groups.len() - g,
    {
        let source = groups[g].0.as_str();
        assert(source@ == names[g as int]);
        if find_name(registered, source).is_none() {
            assert(first_unroutable(known, configured, names, g as int));
            return Err(AncymonError::ConfigError(ConfigError::InvalidSource(source.to_owned())));
        }
        let config = match find_entry(configs, source) {
            Some(at) => {
                proof {
                    lemma_first_index(configured, source@, at as int);
                }
                configs[at].1.clone()
            },
            None => {
                assert(first_unroutable(known, configured, names, g as int));
                return Err(
                    AncymonError::ConfigError(ConfigError::MissingConfig(source.to_owned())),
                );
            },
        };
        let members = copy_triggers(&groups[g].1);
        let route = Route { source: source.to_owned(), config, triggers: members };
        assert(is_route(route, configs@, all, names[g as int]));
        routes.push(route);
        g += 1;
    }
    Ok(routes)
}

/// The handler type that a handler's configuration table names under the
/// key `type`, where it names one as a string.
pub open spec fn handler_type(config: ValueView) -> Option<Seq<char>> {
    match config {
        ValueView::Table(m) => if m.contains_key("type"@) {
            match m["type"@] {
                ValueView::String(s) => Some(s),
                _ => None,
            }
        } else {
            None
        },
        _ => None,
    }
}

/// A handler configuration that can be built: it names a registered
/// handler type.
pub open spec fn buildable(builders: Seq<Seq<char>>, config: ValueView) -> bool {
    handler_type(config) matches Some(kind) && has_key(builders, kind)
}

/// The error for a handler configuration that cannot be built: without the
/// key `type` a `MissingValue`, with a `type` that is no string an
/// `InvalidValueType`, both with a text that names the handler; with a
/// `type` that is not registered an `InvalidHandlerType` with that type.
pub open spec fn is_handler_error(e: AncymonError, name: Seq<char>, config: ValueView) -> bool {
    match handler_type(config) {
        Some(kind) => e matches AncymonError::ConfigError(ConfigError::InvalidHandlerType(text))
            && text@ == kind,
        None => if config matches ValueView::Table(m) && m.contains_key("type"@) {
            e matches AncymonError::ConfigError(ConfigError::InvalidValueType(text)) && text@
                == "Expected string for key `type` at handler config "@ + name
        } else {
            e matches AncymonError::ConfigError(ConfigError::MissingValue(text)) && text@
                == "Key not found: `type` at handler config "@ + name
        },
    }
}

/// `i` is the first position among `handlers` of a configuration that
/// cannot be built.
pub open spec fn first_unbuildable(
    builders: Seq<Seq<char>>,
    handlers: Seq<(String, Value)>,
    i: int,
) -> bool {
    &&& 0 <= i < handlers.len()
    &&& forall|j: int| 0 <= j < i ==> buildable(builders, (#[trigger] handlers[j]).1@)
    &&& !buildable(builders, handlers[i].1@)
}

/// Resolves the type of every configured handler instance.
///
/// Succeeds where every configuration names a registered handler type:
/// the result then gives, for each instance in the order of the
/// configuration, its name and that type. Otherwise the error is that of
/// the first configuration, in that order, that cannot be built.
pub fn build_handlers(builders: &Vec<String>, handlers: &Vec<(String, Value)>) -> (r: Result<
    Vec<(String, String)>,
    AncymonError,
>)
    ensures
        ({
            let known = names_view(builders@);
            match r {
                Ok(plan) => {
                    &&& build_handlers_ok(known, handlers@)
                    &&& plan.len() == handlers.len()
                    &&& forall|i: int|
                        0 <= i < plan.len() ==> {
                            &&& (#[trigger] plan[i]).0@ == handlers[i].0@
                            &&& handler_type(handlers[i].1@) == Some(plan[i].1@)
                        }
                },
                Err(e) => exists|i: int| #[trigger]
                    first_unbuildable(known, handlers@, i) && is_handler_error(
                        e,
                        handlers[i].0@,
                        handlers[i].1@,
                    ),
            }
        }),
{
    let ghost known = names_view(builders@);
    let mut plan: Vec<(String, String)> = Vec::new();
    let mut i: usize = 0;
    while i < handlers.len()
        invariant
            i <= handlers.len(),
            plan.len() == i,
            known == names_view(builders@),
            forall|j: int| 0 <= j < i ==> buildable(known, (#[trigger] handlers[j]).1@),
            forall|j: int|
                0 <= j < i ==> {
                    &&& (#[trigger] plan[j]).0@ == handlers[j].0@
                    &&& handler_type(handlers[j].1@) == Some(plan[j].1@)
                },
        decreases handlers.len() - i,
    {
        let name = handlers[i].0.as_str();
        let ghost config = handlers[i as int].1@;
        let kind = match handlers[i].1.get("type") {
            None => {
                let text = String::from_str("Key not found: `type` at handler config ").concat(
                    name,
                );
                let e = AncymonError::ConfigError(ConfigError::MissingValue(text));
                assert(handler_type(config) is None);
                assert(first_unbuildable(known, handlers@, i as int));
                assert(is_handler_error(e, name@, config));
                return Err(e);
            },
            Some(value) => match value.as_str() {
                None => {
                    let text = String::from_str(
                        "Expected string for key `type` at handler config ",
                    ).concat(name);
                    let e = AncymonError::ConfigError(ConfigError::InvalidValueType(text));
                    assert(handler_type(config) is None);
                    assert(first_unbuildable(known, handlers@, i as int));
                    assert(is_handler_error(e, name@, config));
                    return Err(e);
                },
                Some(kind) => kind,
            },
        };
        assert(handler_type(config) == Some(kind@));
        if find_name(builders, kind).is_none() {
            let e = AncymonError::ConfigError(ConfigError::InvalidHandlerType(kind.to_owned()));
            assert(first_unbuildable(known, handlers@, i as int));
            assert(is_handler_error(e, name@, config));
            return Err(e);
        }
        plan.push((name.to_owned(), kind.to_owned()));
        i += 1;
    }
    Ok(plan)
}

/// The registry that a dispatcher is built from: the names of the handler
/// types and of the trigger sources that exist.
#[derive(Debug)]
pub struct BotBuilder {
    pub handler_builders: Vec<String>,
    pub trigger_sources: Vec<String>,
}

impl Default for BotBuilder {
    fn default() -> (r: Self)
        ensures
            r.handler_builders@.len() == 0,
            r.trigger_sources@.len() == 0,
    {
        BotBuilder { handler_builders: Vec::new(), trigger_sources: Vec::new() }
    }
}

impl BotBuilder {
    /// Registers a handler type under `name`. Registering a name again
    /// changes nothing.
    pub fn with_handler(self, name: String) -> (r: Self)
        ensures
            r.trigger_sources == self.trigger_sources,
            r.handler_builders@ == if has_key(names_view(self.handler_builders@), name@) {
                self.handler_builders@
            } else {
                self.handler_builders@.push(name)
            },
            has_key(names_view(r.handler_builders@), name@),
            forall|other: Seq<char>|
                other != name@ ==> (has_key(names_view(r.handler_builders@), other) <==> has_key(
                    names_view(self.handler_builders@),
                    other,
                )),
    {
        let mut builder = self;
        let ghost before = names_view(builder.handler_builders@);
        match find_name(&builder.handler_builders, name.as_str()) {
            Some(_) => {},
            None => {
                builder.handler_builders.push(name);
                proof {
                    assert(names_view(builder.handler_builders@) =~= before.push(name@));
                    lemma_first_push(before, name@, name@);
                    assert forall|other: Seq<char>| other != name@ implies (has_key(
                        names_view(builder.handler_builders@),
                        other,
                    ) <==> has_key(before, other)) by {
                        lemma_first_push(before, name@, other);
                    }
                }
            },
        }
        builder
    }

    /// Registers a trigger source under `name`. Registering a name again
    /// changes nothing.
    pub fn with_source(self, name: String) -> (r: Self)
        ensures
            r.handler_builders == self.handler_builders,
            r.trigger_sources@ == if has_key(names_view(self.trigger_sources@), name@) {
                self.trigger_sources@
            } else {
                self.trigger_sources@.push(name)
            },
            has_key(names_view(r.trigger_sources@), name@),
            forall|other: Seq<char>|
                other != name@ ==> (has_key(names_view(r.trigger_sources@), other) <==> has_key(
                    names_view(self.trigger_sources@),
                    other,
                )),
    {
        let mut builder = self;
        let ghost before = names_view(builder.trigger_sources@);
        match find_name(&builder.trigger_sources, name.as_str()) {
            Some(_) => {},
            None => {
                builder.trigger_sources.push(name);
                proof {
                    assert(names_view(builder.trigger_sources@) =~= before.push(name@));
                    lemma_first_push(before, name@, name@);
                    assert forall|other: Seq<char>| other != name@ implies (has_key(
                        names_view(builder.trigger_sources@),
                        other,
                    ) <==> has_key(before, other)) by {
                        lemma_first_push(before, name@, other);
                    }
                }
            },
        }
        builder
    }

    /// Builds the dispatcher's state from a configuration: resolves the
    /// handlers, groups the actions, and routes the triggers.
    ///
    /// Succeeds where every handler configuration can be built and every
    /// source that a trigger names is routable. Otherwise the error is that
    /// of the first handler configuration that cannot be built or, where
    /// all can, that of the first source that is not routable; nothing is
    /// built then.
    pub fn build(self, config: Config) -> (r: Result<Bot, AncymonError>)
        ensures
            ({
                let builders = names_view(self.handler_builders@);
                let all = trigger_views(config.triggers@);
                let names = sources_of(all);
                let known = names_view(self.trigger_sources@);
                let configured = entry_keys(config.sources@);
                match r {
                    Ok(bot) => {
                        &&& build_handlers_ok(builders, config.handlers@)
                        &&& forall|g: int|
                            0 <= g < names.len() ==> routable(
                                known,
                                configured,
                                #[trigger] names[g],
                            )
                        &&& forall|name: Seq<char>| #[trigger]
                            bot.matching(name) == bound_to(action_views(config.actions@), name)
                        &&& bot.handlers.len() == config.handlers.len()
                        &&& forall|i: int|
                            0 <= i < bot.handlers.len() ==> {
                                &&& (#[trigger] bot.handlers[i]).0@ == config.handlers[i].0@
                                &&& handler_type(config.handlers[i].1@) == Some(
                                    bot.handlers[i].1@,
                                )
                            }
                        &&& bot.sources.len() == names.len()
                        &&& forall|g: int|
                            0 <= g < bot.sources.len() ==> is_route(
                                #[trigger] bot.sources[g],
                                config.sources@,
                                all,
                                names[g],
                            )
                    },
                    Err(e) => if build_handlers_ok(builders, config.handlers@) {
                        exists|g: int| #[trigger]
                            first_unroutable(known, configured, names, g) && is_route_error(
                                e,
                                known,
                                names[g],
                            )
                    } else {
                        exists|i: int| #[trigger]
                            first_unbuildable(builders, config.handlers@, i) && is_handler_error(
                                e,
                                config.handlers[i].0@,
                                config.handlers[i].1@,
                            )
                    },
                }
            }),
    {
        let handlers = match build_handlers(&self.handler_builders, &config.handlers) {
            Ok(handlers) => handlers,
            Err(e) => {
                return Err(e);
            },
        };
        let actions = build_actions(&config.actions);
        let sources = match route_triggers(&self.trigger_sources, &config.sources, &config.triggers) {
            Ok(sources) => sources,
            Err(e) => {
                return Err(e);
            },
        };
        Ok(Bot { actions, handlers, sources })
    }
}

/// Every handler configuration can be built.
pub open spec fn build_handlers_ok(
    builders: Seq<Seq<char>>,
    handlers: Seq<(String, Value)>,
) -> bool {
    forall|i: int| 0 <= i < handlers.len() ==> buildable(builders, (#[trigger] handlers[i]).1@)
}

/// No trigger is routed to a source that none names.
pub proof fn lemma_routed_none(triggers: Seq<TriggerView>, source: Seq<char>)
    requires
        !has_key(sources_of(triggers), source),
    ensures
        routed_to(triggers, source) == Seq::<TriggerView>::empty(),
    decreases triggers.len(),
{
    if triggers.len() > 0 {
        let rest = sources_of(triggers.drop_last());
        let last = triggers.last().source;
        if has_key(rest, last) {
            lemma_routed_none(triggers.drop_last(), source);
        } else {
            lemma_first_push(rest, last, source);
            if last == source {
                lemma_first_index(rest.push(last), source, rest.len() as int);
            }
            lemma_routed_none(triggers.drop_last(), source);
        }
    }
}

} // verus!
