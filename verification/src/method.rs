//! Planning the event methods generated for a provider: their names, backing helpers, error
//! handling and documentation.

use vstd::prelude::*;
use vstd::string::StringExecFns;

use crate::idents::{is_safe_ident_of, safe_ident, safe_ident_with, snake_case_of, to_snake_case};
use crate::message::{ref_views, render_message, rendered_message};
use crate::model::{Event, ManifestError, TypeInfo};
use crate::plan::{
    backing_name, classify, idents_may_collide, reports_roles, idents_of, is_role_of, plan_event, reports_field_collision,
    roles_rejected, spec_backing_name, spec_classify, spec_field_plan, first_rejected_value, value_plan_error,
    DocRef, EventPlan, FieldSpec,
};
use crate::text::push_str;

verus! {

/// How generated event methods expose errors to their callers.
#[derive(Clone, Copy, Debug, PartialEq, Eq, Structural)]
pub enum EventErrors {
    /// Return the error to the caller as a `Result`.
    Propagate,
    /// Deliberately discard errors from event preparation and writing.
    Ignore,
}

/// When a category of event errors panics: never (`enabled` false), always, or under the
/// `cfg` predicate that the caller keeps at index `when`.
#[derive(Clone, Copy, Debug, PartialEq, Eq, Structural)]
pub struct PanicPolicy {
    pub enabled: bool,
    pub when: Option<usize>,
}

/// The error behavior of generated event methods.
#[derive(Clone, Copy, Debug, PartialEq, Eq, Structural)]
pub struct EventPolicy {
    pub errors: EventErrors,
    pub input_panics: PanicPolicy,
    pub write_panics: PanicPolicy,
}

/// What an event method does with one category of errors.
#[derive(Clone, Copy, Debug, PartialEq, Eq, Structural)]
pub enum ErrorHandler {
    /// Return it, or discard it when methods return unit.
    Fallback,
    /// Panic.
    Panic,
    /// Panic when the `cfg` predicate at this index holds, else fall back.
    PanicWhen(usize),
}

/// The handler for a category of errors under a panic policy.
pub open spec fn spec_error_handler(p: PanicPolicy) -> ErrorHandler {
    if !p.enabled {
        ErrorHandler::Fallback
    } else {
        match p.when {
            Some(w) => ErrorHandler::PanicWhen(w),
            None => ErrorHandler::Panic,
        }
    }
}

/// Chooses the handler for a category of errors under a panic policy.
pub fn event_error_handler(p: PanicPolicy) -> (h: ErrorHandler)
    ensures
        h == spec_error_handler(p),
{
    if !p.enabled {
        return ErrorHandler::Fallback;
    }
    match p.when {
        Some(w) => ErrorHandler::PanicWhen(w),
        None => ErrorHandler::Panic,
    }
}

/// The name a message placeholder uses for a field, given each field's identifier.
pub open spec fn doc_ref_text(r: DocRef, idents: Seq<Seq<char>>) -> Seq<char> {
    match r {
        DocRef::Field(i) => idents[i as int],
        DocRef::LengthOf(i) => idents[i as int] + ".len"@,
    }
}

/// Everything needed to emit one event method.
#[derive(Debug)]
pub struct MethodPlan {
    /// The method's identifier: the safe snake_case form of the event symbol.
    pub name: String,
    /// The name of the backing helper it calls.
    pub helper: String,
    /// The backing helper's arguments.
    pub specs: Vec<FieldSpec>,
    /// The event's field plan.
    pub event: EventPlan,
    /// Whether the input checks also run before the enablement check so that they can panic,
    /// and under which `cfg` predicate: `None` when they do not.
    pub prevalidation: Option<Option<usize>>,
    /// The handler of input errors.
    pub input_handler: ErrorHandler,
    /// The handler of write errors.
    pub write_handler: ErrorHandler,
    /// Whether the method returns unit, discarding the errors that it does not panic on,
    /// rather than a `Result`.
    pub returns_unit: bool,
    /// The documentation summary line.
    pub summary: String,
    /// The documentation line quoting the event's message, if it has one.
    pub message_doc: Option<String>,
}

/// The views of an event plan's identifiers.
pub open spec fn ident_views(p: EventPlan) -> Seq<Seq<char>> {
    p.idents@.map_values(|s: String| s@)
}

/// The identifier of the method generated for an event symbol, given whether the cleaned
/// snake_case form of the symbol parses as a plain identifier.
pub open spec fn method_ident_with(symbol: Seq<char>, parses: bool) -> Seq<char> {
    safe_ident_with(snake_case_of(symbol), parses)
}

/// Whether `name` is an identifier that the method for an event symbol may get, whichever
/// answer the identifier parser gives.
pub open spec fn is_method_ident(symbol: Seq<char>, name: Seq<char>) -> bool {
    is_safe_ident_of(snake_case_of(symbol), name)
}

/// Whether a method plan is the one for event `ev` under `policy`.
pub open spec fn is_method_plan_of(m: MethodPlan, ev: Event, policy: EventPolicy) -> bool {
    let params = ev.params@;
    let has_checks = exists|k: int| 0 <= k < params.len() && (#[trigger] spec_field_plan(params, k)).validation is Some;
    &&& is_method_ident(ev.symbol@, m.name@)
    &&& m.specs@ == params.map_values(|t: TypeInfo| spec_classify(t))
    &&& m.helper@ == spec_backing_name(m.specs@)
    &&& m.event.roles@.len() == params.len()
    &&& m.event.plans@.len() == params.len()
    &&& forall|k: int| 0 <= k < params.len() ==> is_role_of(#[trigger] m.event.roles@[k], params, k)
    &&& idents_of(params, m.event.idents@)
    &&& forall|k: int| 0 <= k < params.len() ==> #[trigger] m.event.plans@[k] == spec_field_plan(params, k)
    &&& m.prevalidation == (if has_checks && policy.input_panics.enabled {
        Some(policy.input_panics.when)
    } else {
        None
    })
    &&& m.input_handler == spec_error_handler(policy.input_panics)
    &&& m.write_handler == spec_error_handler(policy.write_panics)
    &&& m.returns_unit == (policy.errors == EventErrors::Ignore)
    &&& m.summary@ == "Writes the `"@ + ev.symbol@ + "` event."@
    &&& (m.message_doc is Some <==> ev.message is Some)
    &&& (m.message_doc matches Some(d) ==> d@ == "> "@ + rendered_message(
        ev.message->Some_0@,
        m.event.plans@.map_values(|p: crate::plan::FieldPlan| doc_ref_text(p.doc_ref, ident_views(m.event))),
    ))
}

fn doc_refs(event: &EventPlan) -> (refs: Vec<String>)
    requires
        event.plans@.len() == event.idents@.len(),
        forall|k: int| 0 <= k < event.plans@.len() ==> (match (#[trigger] event.plans@[k]).doc_ref {
            DocRef::Field(i) => i < event.idents@.len(),
            DocRef::LengthOf(i) => i < event.idents@.len(),
        }),
    ensures
        ref_views(refs@) == event.plans@.map_values(|p: crate::plan::FieldPlan| doc_ref_text(p.doc_ref, ident_views(*event))),
{
    let mut refs: Vec<String> = Vec::new();
    let mut k: usize = 0;
    while k < event.plans.len()
        invariant
            k <= event.plans@.len() == event.idents@.len(),
            forall|j: int| 0 <= j < event.plans@.len() ==> (match (#[trigger] event.plans@[j]).doc_ref {
                DocRef::Field(i) => i < event.idents@.len(),
                DocRef::LengthOf(i) => i < event.idents@.len(),
            }),
            refs@.len() == k,
            forall|j: int| 0 <= j < k ==> (#[trigger] refs@[j])@ == doc_ref_text(event.plans@[j].doc_ref, ident_views(*event)),
        decreases event.plans.len() - k,
    {
        let r = match event.plans[k].doc_ref {
            DocRef::Field(i) => event.idents[i].clone(),
            DocRef::LengthOf(i) => {
                let mut s = event.idents[i].clone();
                push_str(&mut s, ".len");
                s
            },
        };
        refs.push(r);
        k = k + 1;
    }
    assert(ref_views(refs@) =~= event.plans@.map_values(|p: crate::plan::FieldPlan| doc_ref_text(p.doc_ref, ident_views(*event))));
    refs
}

proof fn lemma_doc_refs_in_range(params: Seq<TypeInfo>, k: int)
    requires
        0 <= k < params.len(),
        params.len() <= usize::MAX,
        !roles_rejected(params),
    ensures
        match spec_field_plan(params, k).doc_ref {
            DocRef::Field(i) => i < params.len(),
            DocRef::LengthOf(i) => i < params.len(),
        },
{
    if crate::plan::is_binary_length_field(params, k) {
    } else if crate::plan::is_count_field(params, k) {
        crate::plan::lemma_count_sources_pub(params, k, params.len() as int);
    }
}

/// Plans the method generated for event `ev` of the provider named `provider`: its name,
/// backing helper, field plan, error handling and documentation.
pub fn plan_method(ev: &Event, provider: &str, policy: EventPolicy) -> (res: Result<MethodPlan, ManifestError>)
    ensures
        res is Ok ==> !roles_rejected(ev.params@),
        !roles_rejected(ev.params@) && !idents_may_collide(ev.params@) ==> res is Ok,
        res matches Ok(m) ==> is_method_plan_of(m, *ev, policy),
        forall|i: int| #[trigger] first_rejected_value(ev.params@, i) ==> (res matches Err(e)
            && e.spec_message() == value_plan_error(ev.params@, i, ev.symbol@, provider@)),
        res matches Err(e) ==> roles_rejected(ev.params@) ==> reports_roles(
            ev.params@,
            ev.symbol@,
            provider@,
            e.spec_message(),
        ),
        res matches Err(e) ==> !roles_rejected(ev.params@) ==> reports_field_collision(
            ev.params@,
            ev.symbol@,
            provider@,
            e.spec_message(),
        ),
{
    let snake = to_snake_case(ev.symbol.as_str());
    let name = safe_ident(snake.as_str());
    let mut specs: Vec<FieldSpec> = Vec::new();
    let mut i: usize = 0;
    while i < ev.params.len()
        invariant
            i <= ev.params@.len(),
            specs@ =~= ev.params@.take(i as int).map_values(|t: TypeInfo| spec_classify(t)),
        decreases ev.params.len() - i,
    {
        specs.push(classify(&ev.params[i]));
        i = i + 1;
    }
    assert(ev.params@.take(i as int) =~= ev.params@);
    let helper = backing_name(specs.as_slice());
    let event = match plan_event(ev, provider) {
        Ok(p) => p,
        Err(e) => {
            return Err(e);
        },
    };
    let ghost params = ev.params@;
    let mut has_checks = false;
    let mut k: usize = 0;
    while k < event.plans.len()
        invariant
            k <= event.plans@.len() == params.len(),
            forall|j: int| 0 <= j < params.len() ==> #[trigger] event.plans@[j] == spec_field_plan(params, j),
            has_checks == exists|j: int| 0 <= j < k && (#[trigger] spec_field_plan(params, j)).validation is Some,
        decreases event.plans.len() - k,
    {
        if event.plans[k].validation.is_some() {
            has_checks = true;
        }
        k = k + 1;
    }
    let prevalidation = if has_checks && policy.input_panics.enabled {
        Some(policy.input_panics.when)
    } else {
        None
    };
    let mut summary = String::from_str("Writes the `");
    push_str(&mut summary, ev.symbol.as_str());
    push_str(&mut summary, "` event.");
    let message_doc = match &ev.message {
        Some(m) => {
            proof {
                assert(params.len() <= usize::MAX) by {
                    assert(params.len() == ev.params.len());
                }
                assert forall|j: int| 0 <= j < event.plans@.len() implies (match (#[trigger] event.plans@[j]).doc_ref {
                    DocRef::Field(i) => i < event.idents@.len(),
                    DocRef::LengthOf(i) => i < event.idents@.len(),
                }) by {
                    lemma_doc_refs_in_range(params, j);
                }
            }
            let refs = doc_refs(&event);
            let mut line = String::from_str("> ");
            let rendered = render_message(m.as_str(), refs.as_slice());
            push_str(&mut line, rendered.as_str());
            Some(line)
        },
        None => None,
    };
    Ok(MethodPlan {
        name,
        helper,
        specs,
        event,
        prevalidation,
        input_handler: event_error_handler(policy.input_panics),
        write_handler: event_error_handler(policy.write_panics),
        returns_unit: match policy.errors {
            EventErrors::Ignore => true,
            EventErrors::Propagate => false,
        },
        summary,
        message_doc,
    })
}

} // verus!
