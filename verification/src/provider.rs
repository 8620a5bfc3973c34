//! Planning the provider structs generated for a manifest, with their event methods and
//! shared backing helpers.

use vstd::prelude::*;
use vstd::string::StringExecFns;

use crate::idents::{pascal_case_of, to_pascal_case};
use crate::method::{is_method_ident, is_method_plan_of, method_ident_with, plan_method, EventPolicy, MethodPlan};
use crate::model::{Event, Manifest, ManifestError, Provider};
use crate::plan::{idents_may_collide, reports_field_collision, reports_roles, roles_rejected};
use crate::text::{
    debug_quote, debug_quoted, lemma_text_less_total, lemma_text_less_transitive, push_str,
    str_equal, text_less, text_lt,
};

verus! {

/// Everything needed to emit one provider struct.
#[derive(Debug)]
pub struct ProviderPlan {
    /// The struct's name.
    pub struct_name: String,
    /// The provider GUID in `Guid::from_u128` layout.
    pub guid: u128,
    /// One method per event, in declaration order.
    pub methods: Vec<MethodPlan>,
    /// For each distinct backing helper, the index of the first method that calls it, ordered
    /// by the helpers' names.
    pub helpers: Vec<usize>,
}

/// The struct name a provider gets without an override: its symbol in PascalCase, then
/// `Logger`.
pub open spec fn default_struct_name(symbol: Seq<char>) -> Seq<char> {
    pascal_case_of(symbol) + "Logger"@
}

/// Whether the methods of events `j` and `k` may get the same name.
pub open spec fn names_may_meet(events: Seq<Event>, j: int, k: int) -> bool {
    let a = events[j].symbol@;
    let b = events[k].symbol@;
    ||| method_ident_with(a, true) == method_ident_with(b, true)
    ||| method_ident_with(a, true) == method_ident_with(b, false)
    ||| method_ident_with(a, false) == method_ident_with(b, true)
    ||| method_ident_with(a, false) == method_ident_with(b, false)
}

/// Whether event `k` may fail to be planned: its fields are rejected or may get colliding
/// names, or its method may get the name of an earlier event's method.
pub open spec fn event_may_fail(events: Seq<Event>, k: int) -> bool {
    ||| roles_rejected(events[k].params@)
    ||| idents_may_collide(events[k].params@)
    ||| exists|j: int| 0 <= j < k && #[trigger] names_may_meet(events, j, k)
}

/// Whether some event of a provider may fail to be planned.
pub open spec fn provider_may_fail(events: Seq<Event>) -> bool {
    exists|k: int| 0 <= k < events.len() && #[trigger] event_may_fail(events, k)
}

/// Whether `msg` reports that the method of event `k` got the name `ident` of the method of the
/// earlier event `j`, a name that both may get.
pub open spec fn method_collision(
    events: Seq<Event>,
    j: int,
    k: int,
    ident: Seq<char>,
    provider: Seq<char>,
    msg: Seq<char>,
) -> bool {
    &&& 0 <= j < k < events.len()
    &&& is_method_ident(events[j].symbol@, ident)
    &&& is_method_ident(events[k].symbol@, ident)
    &&& msg == collision_message(events[k].symbol@, events[j].symbol@, provider, ident)
}

/// Whether planning stopped at event `k` with the message `msg`: the events before it have
/// fields that are not rejected; rejected fields of event `k` are reported by the message of the
/// first rejection; and an event whose fields are not rejected failed on a collision of
/// parameter names or of method names.
pub open spec fn failed_at(events: Seq<Event>, k: int, provider: Seq<char>, msg: Seq<char>) -> bool {
    &&& 0 <= k < events.len()
    &&& forall|j: int| 0 <= j < k ==> !roles_rejected((#[trigger] events[j]).params@)
    &&& roles_rejected(events[k].params@) ==> reports_roles(events[k].params@, events[k].symbol@, provider, msg)
    &&& !roles_rejected(events[k].params@) ==> {
        ||| reports_field_collision(events[k].params@, events[k].symbol@, provider, msg)
        ||| exists|j: int, ident: Seq<char>| #[trigger] method_collision(events, j, k, ident, provider, msg)
    }
}

/// Whether planning the provider `p` stopped at some event with the message `msg`.
pub open spec fn provider_failed(p: Provider, msg: Seq<char>) -> bool {
    exists|k: int| #[trigger] failed_at(p.events@, k, p.symbol@, msg)
}

/// The message for two events whose methods would have the same name.
pub open spec fn collision_message(symbol: Seq<char>, prev: Seq<char>, provider: Seq<char>, ident: Seq<char>) -> Seq<char> {
    "event name "@ + symbol + " collides with "@ + prev + " in provider "@ + provider
        + " (both transform to: "@ + ident + ")"@
}

/// Whether method `i` is the first to call its backing helper.
pub open spec fn first_with_helper(ms: Seq<MethodPlan>, i: int) -> bool {
    forall|j: int| 0 <= j < i ==> (#[trigger] ms[j]).helper@ != ms[i].helper@
}

/// Whether `hs` lists, ordered by name, the first method of each backing helper that the
/// methods before `n` call.
pub open spec fn helpers_listed(ms: Seq<MethodPlan>, hs: Seq<usize>, n: int) -> bool {
    &&& forall|i: int| 0 <= i < hs.len() ==> #[trigger] hs[i] < n && first_with_helper(ms, hs[i] as int)
    &&& forall|i: int, i2: int|
        0 <= i < i2 < hs.len() ==> text_less(ms[#[trigger] hs[i] as int].helper@, ms[#[trigger] hs[i2] as int].helper@)
    &&& forall|k: int| 0 <= k < n ==> exists|i: int| 0 <= i < hs.len() && ms[#[trigger] hs[i] as int].helper@ == (#[trigger] ms[k]).helper@
}

/// Whether `plan` is the plan of provider `p`, named `name` when it is given, with events
/// under `policy`.
pub open spec fn is_provider_plan_of(plan: ProviderPlan, p: Provider, name: Option<Seq<char>>, policy: EventPolicy) -> bool {
    &&& plan.struct_name@ == (match name {
        Some(n) => n,
        None => default_struct_name(p.symbol@),
    })
    &&& plan.guid == p.guid
    &&& plan.methods@.len() == p.events@.len()
    &&& forall|k: int| 0 <= k < p.events@.len() ==> is_method_plan_of(#[trigger] plan.methods@[k], p.events@[k], policy)
    &&& forall|j: int, k: int| 0 <= j < k < plan.methods@.len() ==> (#[trigger] plan.methods@[j]).name@
        != (#[trigger] plan.methods@[k]).name@
    &&& helpers_listed(plan.methods@, plan.helpers@, p.events@.len() as int)
}

proof fn lemma_listed_found(ms: Seq<MethodPlan>, hs: Seq<usize>, k: int, i: int)
    requires
        0 <= k < ms.len(),
        0 <= i < hs.len(),
        helpers_listed(ms, hs, k),
        ms[hs[i] as int].helper@ == ms[k].helper@,
    ensures
        helpers_listed(ms, hs, k + 1),
{
    assert forall|k2: int| 0 <= k2 < k + 1 implies exists|a: int| 0 <= a < hs.len() && ms[#[trigger] hs[a] as int].helper@ == (#[trigger] ms[k2]).helper@ by {
        if k2 == k {
            assert(ms[hs[i] as int].helper@ == ms[k2].helper@);
        }
    }
}

proof fn lemma_listed_first(ms: Seq<MethodPlan>, hs: Seq<usize>, k: int)
    requires
        0 <= k < ms.len(),
        helpers_listed(ms, hs, k),
        forall|a: int| 0 <= a < hs.len() ==> ms[#[trigger] hs[a] as int].helper@ != ms[k].helper@,
    ensures
        first_with_helper(ms, k),
{
    assert forall|j: int| 0 <= j < k implies (#[trigger] ms[j]).helper@ != ms[k].helper@ by {
        if ms[j].helper@ == ms[k].helper@ {
            let a = choose|a: int| 0 <= a < hs.len() && ms[#[trigger] hs[a] as int].helper@ == ms[j].helper@;
            assert(ms[hs[a] as int].helper@ != ms[k].helper@);
        }
    }
}

proof fn lemma_listed_insert_firsts(ms: Seq<MethodPlan>, hs: Seq<usize>, k: int, p: int)
    requires
        0 <= k < ms.len(),
        0 <= p <= hs.len(),
        k <= usize::MAX,
        forall|i: int| 0 <= i < hs.len() ==> #[trigger] hs[i] < k && first_with_helper(ms, hs[i] as int),
        first_with_helper(ms, k),
    ensures
        forall|i: int| 0 <= i < hs.insert(p, k as usize).len() ==> #[trigger] hs.insert(p, k as usize)[i] < k + 1
            && first_with_helper(ms, hs.insert(p, k as usize)[i] as int),
{
    let n = hs.insert(p, k as usize);
    assert forall|i: int| 0 <= i < n.len() implies #[trigger] n[i] < k + 1 && first_with_helper(ms, n[i] as int) by {
        if i > p {
            assert(n[i] == hs[i - 1]);
        } else if i < p {
            assert(n[i] == hs[i]);
        }
    }
}

proof fn lemma_listed_insert_sorted(ms: Seq<MethodPlan>, hs: Seq<usize>, k: int, p: int)
    requires
        0 <= k < ms.len(),
        0 <= p <= hs.len(),
        k <= usize::MAX,
        forall|i: int, i2: int|
            0 <= i < i2 < hs.len() ==> text_less(ms[#[trigger] hs[i] as int].helper@, ms[#[trigger] hs[i2] as int].helper@),
        forall|a: int| 0 <= a < p ==> text_less(ms[#[trigger] hs[a] as int].helper@, ms[k].helper@),
        forall|a: int| p <= a < hs.len() ==> text_less(ms[k].helper@, ms[#[trigger] hs[a] as int].helper@),
    ensures
        forall|i: int, i2: int| 0 <= i < i2 < hs.insert(p, k as usize).len() ==> text_less(
            ms[#[trigger] hs.insert(p, k as usize)[i] as int].helper@,
            ms[#[trigger] hs.insert(p, k as usize)[i2] as int].helper@,
        ),
{
    let n = hs.insert(p, k as usize);
    assert forall|i: int, i2: int| 0 <= i < i2 < n.len() implies text_less(ms[#[trigger] n[i] as int].helper@, ms[#[trigger] n[i2] as int].helper@) by {
        if i < p && i2 == p {
            assert(n[i] == hs[i]);
        } else if i < p && i2 > p {
            assert(n[i] == hs[i]);
            assert(n[i2] == hs[i2 - 1]);
            assert(text_less(ms[hs[i] as int].helper@, ms[hs[i2 - 1] as int].helper@));
        } else if i == p {
            assert(n[i2] == hs[i2 - 1]);
        } else if i2 < p {
            assert(n[i] == hs[i] && n[i2] == hs[i2]);
        } else {
            assert(n[i] == hs[i - 1] && n[i2] == hs[i2 - 1]);
            assert(text_less(ms[hs[i - 1] as int].helper@, ms[hs[i2 - 1] as int].helper@));
        }
    }
}

proof fn lemma_listed_insert_covers(ms: Seq<MethodPlan>, hs: Seq<usize>, k: int, p: int)
    requires
        0 <= k < ms.len(),
        0 <= p <= hs.len(),
        k <= usize::MAX,
        forall|k2: int| 0 <= k2 < k ==> exists|i: int| 0 <= i < hs.len() && ms[#[trigger] hs[i] as int].helper@ == (#[trigger] ms[k2]).helper@,
    ensures
        forall|k2: int| 0 <= k2 < k + 1 ==> exists|i: int|
            0 <= i < hs.insert(p, k as usize).len() && ms[#[trigger] hs.insert(p, k as usize)[i] as int].helper@ == (#[trigger] ms[k2]).helper@,
{
    let n = hs.insert(p, k as usize);
    assert forall|k2: int| 0 <= k2 < k + 1 implies exists|a: int| 0 <= a < n.len() && ms[#[trigger] n[a] as int].helper@ == (#[trigger] ms[k2]).helper@ by {
        if k2 == k {
            assert(n[p] == k);
        } else {
            let a = choose|a: int| 0 <= a < hs.len() && ms[#[trigger] hs[a] as int].helper@ == ms[k2].helper@;
            if a < p {
                assert(n[a] == hs[a]);
            } else {
                assert(n[a + 1] == hs[a]);
            }
        }
    }
}

proof fn lemma_listed_insert(ms: Seq<MethodPlan>, hs: Seq<usize>, k: int, p: int)
    requires
        0 <= k < ms.len(),
        0 <= p <= hs.len(),
        helpers_listed(ms, hs, k),
        first_with_helper(ms, k),
        k <= usize::MAX,
        forall|a: int| 0 <= a < p ==> text_less(ms[#[trigger] hs[a] as int].helper@, ms[k].helper@),
        forall|a: int| p <= a < hs.len() ==> text_less(ms[k].helper@, ms[#[trigger] hs[a] as int].helper@),
    ensures
        helpers_listed(ms, hs.insert(p, k as usize), k + 1),
{
    lemma_listed_insert_firsts(ms, hs, k, p);
    lemma_listed_insert_sorted(ms, hs, k, p);
    lemma_listed_insert_covers(ms, hs, k, p);
}

/// Adds method `k` to the helper list if it is the first to call its helper.
fn list_helper(ms: &Vec<MethodPlan>, hs: &mut Vec<usize>, k: usize)
    requires
        k < ms@.len(),
        helpers_listed(ms@, old(hs)@, k as int),
    ensures
        helpers_listed(ms@, final(hs)@, k + 1),
{
    let ghost x = ms@[k as int].helper@;
    let mut i: usize = 0;
    while i < hs.len()
        invariant
            i <= hs@.len(),
            k < ms@.len(),
            x == ms@[k as int].helper@,
            helpers_listed(ms@, hs@, k as int),
            forall|a: int| 0 <= a < i ==> ms@[#[trigger] hs@[a] as int].helper@ != x,
        decreases hs.len() - i,
    {
        if str_equal(ms[hs[i]].helper.as_str(), ms[k].helper.as_str()) {
            proof {
                lemma_listed_found(ms@, hs@, k as int, i as int);
            }
            return;
        }
        i = i + 1;
    }
    proof {
        lemma_listed_first(ms@, hs@, k as int);
    }
    let mut p: usize = 0;
    while p < hs.len() && text_lt(ms[hs[p]].helper.as_str(), ms[k].helper.as_str())
        invariant
            p <= hs@.len(),
            k < ms@.len(),
            x == ms@[k as int].helper@,
            forall|a: int| 0 <= a < hs@.len() ==> #[trigger] hs@[a] < k,
            forall|a: int| 0 <= a < p ==> text_less(ms@[#[trigger] hs@[a] as int].helper@, x),
        decreases hs.len() - p,
    {
        p = p + 1;
    }
    proof {
        if p < hs@.len() {
            let y = ms@[hs@[p as int] as int].helper@;
            assert(y != x);
            lemma_text_less_total(x, y);
            assert forall|a: int| p <= a < hs@.len() implies text_less(x, ms@[#[trigger] hs@[a] as int].helper@) by {
                if a > p {
                    lemma_text_less_transitive(x, y, ms@[hs@[a] as int].helper@);
                }
            }
        }
        lemma_listed_insert(ms@, hs@, k as int, p as int);
    }
    hs.insert(p, k);
}

/// Plans the struct generated for provider `p`, named `name_override` when it is given, with
/// event methods under `policy`. Fails at the first event whose fields are rejected or whose
/// method name is that of an earlier event.
pub fn plan_provider(p: &Provider, name_override: Option<&str>, policy: EventPolicy) -> (res: Result<ProviderPlan, ManifestError>)
    ensures
        !provider_may_fail(p.events@) ==> res is Ok,
        res matches Ok(plan) ==> is_provider_plan_of(plan, *p, match name_override {
            Some(n) => Some(n@),
            None => None,
        }, policy),
        res matches Err(e) ==> provider_failed(*p, e.spec_message()),
{
    let struct_name = match name_override {
        Some(n) => String::from_str(n),
        None => {
            let mut s = to_pascal_case(p.symbol.as_str());
            push_str(&mut s, "Logger");
            s
        },
    };
    let ghost events = p.events@;
    let mut methods: Vec<MethodPlan> = Vec::new();
    let mut helpers: Vec<usize> = Vec::new();
    let mut k: usize = 0;
    while k < p.events.len()
        invariant
            k <= events.len(),
            events == p.events@,
            methods@.len() == k,
            forall|j: int| 0 <= j < k ==> is_method_plan_of(#[trigger] methods@[j], events[j], policy),
            forall|j: int| 0 <= j < k ==> !roles_rejected((#[trigger] events[j]).params@),
            forall|i: int, j: int| 0 <= i < j < k ==> (#[trigger] methods@[i]).name@ != (#[trigger] methods@[j]).name@,
            helpers_listed(methods@, helpers@, k as int),
        decreases p.events.len() - k,
    {
        let m = match plan_method(&p.events[k], p.symbol.as_str(), policy) {
            Ok(m) => m,
            Err(e) => {
                proof {
                    assert(event_may_fail(events, k as int));
                    assert(failed_at(events, k as int, p.symbol@, e.spec_message()));
                }
                return Err(e);
            },
        };
        let mut j: usize = 0;
        while j < methods.len()
            invariant
                j <= methods@.len() == k,
                k < events.len(),
                events == p.events@,
                forall|i: int| 0 <= i < k ==> !roles_rejected((#[trigger] events[i]).params@),
                is_method_plan_of(m, events[k as int], policy),
                !roles_rejected(events[k as int].params@),
                forall|i: int| 0 <= i < k ==> is_method_plan_of(#[trigger] methods@[i], events[i], policy),
                forall|i: int| 0 <= i < j ==> (#[trigger] methods@[i]).name@ != m.name@,
            decreases methods.len() - j,
        {
            if str_equal(methods[j].name.as_str(), m.name.as_str()) {
                let mut msg = String::from_str("event name ");
                push_str(&mut msg, p.events[k].symbol.as_str());
                push_str(&mut msg, " collides with ");
                push_str(&mut msg, p.events[j].symbol.as_str());
                push_str(&mut msg, " in provider ");
                push_str(&mut msg, p.symbol.as_str());
                push_str(&mut msg, " (both transform to: ");
                push_str(&mut msg, m.name.as_str());
                push_str(&mut msg, ")");
                let e = ManifestError::new(msg);
                proof {
                    assert(is_method_plan_of(methods@[j as int], events[j as int], policy));
                    assert(names_may_meet(events, j as int, k as int));
                    assert(event_may_fail(events, k as int));
                    assert(e.spec_message() =~= collision_message(
                        events[k as int].symbol@,
                        events[j as int].symbol@,
                        p.symbol@,
                        m.name@,
                    ));
                    assert(method_collision(events, j as int, k as int, m.name@, p.symbol@, e.spec_message()));
                    assert(failed_at(events, k as int, p.symbol@, e.spec_message()));
                }
                return Err(e);
            }
            j = j + 1;
        }
        let ghost before = methods@;
        methods.push(m);
        proof {
            assert forall|i: int| 0 <= i < k + 1 implies is_method_plan_of(#[trigger] methods@[i], events[i], policy) by {
                if i < k {
                    assert(methods@[i] == before[i]);
                }
            }
            assert forall|i: int, j2: int| 0 <= i < j2 < k + 1 implies (#[trigger] methods@[i]).name@
                != (#[trigger] methods@[j2]).name@ by {
                assert(methods@[i] == before[i]);
                if j2 < k {
                    assert(methods@[j2] == before[j2]);
                }
            }
            assert(helpers_listed(methods@, helpers@, k as int)) by {
                assert(forall|i: int| 0 <= i < k ==> #[trigger] methods@[i] == before[i]);
            }
        }
        list_helper(&methods, &mut helpers, k);
        k = k + 1;
    }
    Ok(ProviderPlan { struct_name, guid: p.guid, methods, helpers })
}

/// Whether planning some provider of `ps` stopped at an event with the message `msg`.
pub open spec fn some_provider_failed(ps: Seq<Provider>, msg: Seq<char>) -> bool {
    exists|k: int| 0 <= k < ps.len() && #[trigger] provider_failed(ps[k], msg)
}

/// A `SYMBOL -> Name` override of a provider struct's name.
#[derive(Debug, PartialEq, Eq)]
pub struct NameOverride {
    /// The provider symbol it applies to.
    pub key: String,
    /// The struct name to generate instead of the default.
    pub name: String,
}

/// Why the providers of a manifest could not be planned.
#[derive(Debug, PartialEq, Eq)]
pub enum WrapperError {
    /// The override at `index` names no provider symbol.
    UnmatchedOverride { index: usize, message: String },
    /// The override at `index` names the same provider symbol as an earlier one.
    DuplicateOverride { index: usize, message: String },
    /// A provider could not be planned.
    Manifest(ManifestError),
}

/// Whether some provider has the symbol `key`.
pub open spec fn names_provider(ps: Seq<Provider>, key: Seq<char>) -> bool {
    exists|i: int| 0 <= i < ps.len() && (#[trigger] ps[i]).symbol@ == key
}

/// Whether override `i` has the key of an earlier override.
pub open spec fn repeats_key(os: Seq<NameOverride>, i: int) -> bool {
    exists|j: int| 0 <= j < i && (#[trigger] os[j]).key@ == os[i].key@
}

/// Whether override `i` is refused: it names no provider, or it repeats an earlier key.
pub open spec fn override_refused(ps: Seq<Provider>, os: Seq<NameOverride>, i: int) -> bool {
    !names_provider(ps, os[i].key@) || repeats_key(os, i)
}

/// Whether override `i` is the first that is refused.
pub open spec fn first_refused(ps: Seq<Provider>, os: Seq<NameOverride>, i: int) -> bool {
    &&& 0 <= i < os.len()
    &&& override_refused(ps, os, i)
    &&& forall|j: int| 0 <= j < i ==> !#[trigger] override_refused(ps, os, j)
}

/// The message for an override that names no provider.
pub open spec fn unmatched_message(key: Seq<char>) -> Seq<char> {
    "name override "@ + debug_quoted(key) + " does not match any provider symbol in the manifest"@
}

/// The message for an override whose key an earlier override already has.
pub open spec fn duplicate_message(key: Seq<char>) -> Seq<char> {
    "duplicate name override for provider symbol "@ + debug_quoted(key)
}

/// The struct name that the overrides give the provider `symbol`: that of the last override
/// with that key, if any.
pub open spec fn override_for(os: Seq<NameOverride>, symbol: Seq<char>) -> Option<Seq<char>>
    decreases os.len(),
{
    if os.len() == 0 {
        None
    } else if os.last().key@ == symbol {
        Some(os.last().name@)
    } else {
        override_for(os.drop_last(), symbol)
    }
}

fn names_a_provider(ps: &Vec<Provider>, key: &str) -> (b: bool)
    ensures
        b == names_provider(ps@, key@),
{
    let mut i: usize = 0;
    while i < ps.len()
        invariant
            i <= ps@.len(),
            forall|j: int| 0 <= j < i ==> (#[trigger] ps@[j]).symbol@ != key@,
        decreases ps.len() - i,
    {
        if str_equal(ps[i].symbol.as_str(), key) {
            return true;
        }
        i = i + 1;
    }
    false
}

fn find_override(os: &[NameOverride], symbol: &str) -> (r: Option<usize>)
    ensures
        match r {
            Some(i) => i < os@.len() && override_for(os@, symbol@) == Some(os@[i as int].name@),
            None => override_for(os@, symbol@) is None,
        },
{
    let mut n: usize = os.len();
    assert(os@.take(n as int) =~= os@);
    while n > 0
        invariant
            n <= os@.len(),
            override_for(os@, symbol@) == override_for(os@.take(n as int), symbol@),
        decreases n,
    {
        let ghost t = os@.take(n as int);
        assert(t.drop_last() =~= os@.take(n - 1));
        if str_equal(os[n - 1].key.as_str(), symbol) {
            return Some(n - 1);
        }
        n = n - 1;
    }
    None
}

/// Plans the structs generated for the providers of `man`, each named by the override whose
/// key is its symbol, with event methods under `policy`. Fails at the first override that names
/// no provider or repeats an earlier key, else at the first provider that cannot be planned.
pub fn plan_wrapper(man: &Manifest, overrides: &[NameOverride], policy: EventPolicy) -> (res: Result<Vec<ProviderPlan>, WrapperError>)
    ensures
        forall|i: int| #[trigger] first_refused(man.providers@, overrides@, i) ==> if !names_provider(
            man.providers@,
            overrides@[i].key@,
        ) {
            res matches Err(WrapperError::UnmatchedOverride { index, message }) && index == i && message@
                == unmatched_message(overrides@[i].key@)
        } else {
            res matches Err(WrapperError::DuplicateOverride { index, message }) && index == i && message@
                == duplicate_message(overrides@[i].key@)
        },
        (forall|i: int| 0 <= i < overrides@.len() ==> !#[trigger] override_refused(man.providers@, overrides@, i))
            && (forall|k: int| 0 <= k < man.providers@.len() ==> !provider_may_fail((#[trigger] man.providers@[k]).events@))
            ==> res is Ok,
        res matches Ok(v) ==> {
            &&& forall|i: int| 0 <= i < overrides@.len() ==> !#[trigger] override_refused(man.providers@, overrides@, i)
            &&& v@.len() == man.providers@.len()
            &&& forall|k: int| 0 <= k < v@.len() ==> is_provider_plan_of(
                #[trigger] v@[k],
                man.providers@[k],
                override_for(overrides@, man.providers@[k].symbol@),
                policy,
            )
        },
        res matches Err(WrapperError::UnmatchedOverride { index, message }) ==> first_refused(
            man.providers@,
            overrides@,
            index as int,
        ),
        res matches Err(WrapperError::DuplicateOverride { index, message }) ==> first_refused(
            man.providers@,
            overrides@,
            index as int,
        ),
        res matches Err(WrapperError::Manifest(e)) ==> forall|i: int|
            0 <= i < overrides@.len() ==> !#[trigger] override_refused(man.providers@, overrides@, i),
        res matches Err(WrapperError::Manifest(e)) ==> some_provider_failed(man.providers@, e.spec_message()),
{
    let mut i: usize = 0;
    while i < overrides.len()
        invariant
            i <= overrides@.len(),
            forall|j: int| 0 <= j < i ==> !#[trigger] override_refused(man.providers@, overrides@, j),
        decreases overrides.len() - i,
    {
        if !names_a_provider(&man.providers, overrides[i].key.as_str()) {
            let mut message = String::from_str("name override ");
            let q = debug_quote(overrides[i].key.as_str());
            push_str(&mut message, q.as_str());
            push_str(&mut message, " does not match any provider symbol in the manifest");
            proof {
                assert(first_refused(man.providers@, overrides@, i as int));
                assert forall|i2: int| #[trigger] first_refused(man.providers@, overrides@, i2) implies i2 == i by {
                    if i2 < i {
                    } else if i2 > i {
                        assert(override_refused(man.providers@, overrides@, i as int));
                    }
                }
                assert(message@ =~= unmatched_message(overrides@[i as int].key@));
            }
            return Err(WrapperError::UnmatchedOverride { index: i, message });
        }
        let mut j: usize = 0;
        while j < i
            invariant
                j <= i < overrides@.len(),
                names_provider(man.providers@, overrides@[i as int].key@),
                forall|j2: int| 0 <= j2 < i ==> !#[trigger] override_refused(man.providers@, overrides@, j2),
                forall|j2: int| 0 <= j2 < j ==> (#[trigger] overrides@[j2]).key@ != overrides@[i as int].key@,
            decreases i - j,
        {
            if str_equal(overrides[j].key.as_str(), overrides[i].key.as_str()) {
                let mut message = String::from_str("duplicate name override for provider symbol ");
                let q = debug_quote(overrides[i].key.as_str());
                push_str(&mut message, q.as_str());
                proof {
                    assert(repeats_key(overrides@, i as int)) by {
                        assert(overrides@[j as int].key@ == overrides@[i as int].key@);
                    }
                    assert(first_refused(man.providers@, overrides@, i as int));
                    assert forall|i2: int| #[trigger] first_refused(man.providers@, overrides@, i2) implies i2 == i by {
                        if i2 < i {
                        } else if i2 > i {
                            assert(override_refused(man.providers@, overrides@, i as int));
                        }
                    }
                    assert(message@ =~= duplicate_message(overrides@[i as int].key@));
                }
                return Err(WrapperError::DuplicateOverride { index: i, message });
            }
            j = j + 1;
        }
        proof {
            assert(!repeats_key(overrides@, i as int));
            assert(!override_refused(man.providers@, overrides@, i as int));
        }
        i = i + 1;
    }
    assert(forall|i2: int| !#[trigger] first_refused(man.providers@, overrides@, i2));
    let mut plans: Vec<ProviderPlan> = Vec::new();
    let mut k: usize = 0;
    while k < man.providers.len()
        invariant
            k <= man.providers@.len(),
            plans@.len() == k,
            forall|i2: int| !#[trigger] first_refused(man.providers@, overrides@, i2),
            forall|j: int| 0 <= j < overrides@.len() ==> !#[trigger] override_refused(man.providers@, overrides@, j),
            forall|j: int| 0 <= j < k ==> is_provider_plan_of(
                #[trigger] plans@[j],
                man.providers@[j],
                override_for(overrides@, man.providers@[j].symbol@),
                policy,
            ),
        decreases man.providers.len() - k,
    {
        let p = &man.providers[k];
        let name = match find_override(overrides, p.symbol.as_str()) {
            Some(o) => Some(overrides[o].name.as_str()),
            None => None,
        };
        match plan_provider(p, name, policy) {
            Ok(plan) => {
                plans.push(plan);
            },
            Err(e) => {
                proof {
                    assert(provider_failed(man.providers@[k as int], e.spec_message()));
                    assert(some_provider_failed(man.providers@, e.spec_message()));
                    assert(provider_may_fail(man.providers@[k as int].events@));
                }
                return Err(WrapperError::Manifest(e));
            },
        }
        k = k + 1;
    }
    Ok(plans)
}

} // verus!
