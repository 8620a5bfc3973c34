//! Provider registration and enablement tracking.
//!
//! ETW tells a registered provider, through its enable callback, which sessions listen to it:
//! the most verbose level and the keyword masks they accept. The provider keeps that state and
//! consults it before building each event.

use vstd::prelude::*;

use crate::error::Error;

verus! {

/// The control code that enables a provider.
pub const EVENT_CONTROL_CODE_ENABLE_PROVIDER: u32 = 1;

/// The control code that disables a provider.
pub const EVENT_CONTROL_CODE_DISABLE_PROVIDER: u32 = 0;

/// A provider's registration handle and what ETW last told it about its sessions.
#[derive(Clone, Copy, Debug, PartialEq, Eq, Structural)]
pub struct EtwContext {
    /// The handle `EventRegister` returned; zero while unregistered.
    pub registration_handle: u64,
    /// Nonzero while a session listens to the provider.
    pub is_enabled: u32,
    /// The most verbose level a session accepts; zero accepts every level.
    pub level: u8,
    /// An event's keyword must share a bit with this mask.
    pub match_any_keyword: u64,
    /// An event's keyword must hold every bit of this mask.
    pub match_all_keyword: u64,
}

/// Whether a session accepts events of `level` and `keyword` in state `c`.
pub open spec fn spec_enabled(c: EtwContext, level: u8, keyword: u64) -> bool {
    &&& c.is_enabled != 0
    &&& (level <= c.level || c.level == 0)
    &&& (keyword == 0 || ((keyword & c.match_any_keyword) != 0 && (keyword & c.match_all_keyword) == c.match_all_keyword))
}

/// The state after ETW's enable callback delivers `code` with a session's level and masks.
pub open spec fn spec_on_control(c: EtwContext, code: u32, level: u8, match_any: u64, match_all: u64) -> EtwContext {
    if code == EVENT_CONTROL_CODE_ENABLE_PROVIDER {
        EtwContext {
            registration_handle: c.registration_handle,
            is_enabled: EVENT_CONTROL_CODE_ENABLE_PROVIDER,
            level,
            match_any_keyword: match_any,
            match_all_keyword: match_all,
        }
    } else if code == EVENT_CONTROL_CODE_DISABLE_PROVIDER {
        EtwContext {
            registration_handle: c.registration_handle,
            is_enabled: EVENT_CONTROL_CODE_DISABLE_PROVIDER,
            level: 0,
            match_any_keyword: 0,
            match_all_keyword: 0,
        }
    } else {
        c
    }
}

impl EtwContext {
    /// An unregistered context that no session listens to.
    pub fn new() -> (c: EtwContext)
        ensures
            c.registration_handle == 0,
            c.is_enabled == 0,
            c.level == 0,
            c.match_any_keyword == 0,
            c.match_all_keyword == 0,
    {
        EtwContext {
            registration_handle: 0,
            is_enabled: 0,
            level: 0,
            match_any_keyword: 0,
            match_all_keyword: 0,
        }
    }

    /// The context after `EventRegister` answered `status` and wrote `handle`: registered
    /// under `handle` on success, else the Windows error.
    pub fn register(self, status: u32, handle: u64) -> (res: Result<EtwContext, Error>)
        ensures
            status == 0 ==> res == Ok::<EtwContext, Error>(EtwContext { registration_handle: handle, ..self }),
            status != 0 ==> res == Err::<EtwContext, Error>(Error::Windows(status)),
    {
        if status != 0 {
            return Err(Error::Windows(status));
        }
        Ok(EtwContext { registration_handle: handle, ..self })
    }

    /// Returns whether the provider is enabled for the specified level and keyword.
    ///
    /// A level of zero in the session accepts every level; an event keyword of zero is
    /// accepted by every session.
    pub fn enabled(&self, level: u8, keyword: u64) -> (b: bool)
        ensures
            b == spec_enabled(*self, level, keyword),
    {
        if self.is_enabled == 0 {
            return false;
        }
        let cur_level = self.level;
        let any = self.match_any_keyword;
        let all = self.match_all_keyword;
        (level <= cur_level || cur_level == 0) && (keyword == 0 || ((keyword & any) != 0 && (keyword
            & all) == all))
    }

    /// Applies an ETW enable notification: an enable stores the session's level and masks, a
    /// disable clears them, and other codes change nothing.
    pub fn on_control(&mut self, code: u32, level: u8, match_any: u64, match_all: u64)
        ensures
            *final(self) == spec_on_control(*old(self), code, level, match_any, match_all),
    {
        if code == EVENT_CONTROL_CODE_ENABLE_PROVIDER {
            self.level = level;
            self.match_any_keyword = match_any;
            self.match_all_keyword = match_all;
            self.is_enabled = EVENT_CONTROL_CODE_ENABLE_PROVIDER;
        } else if code == EVENT_CONTROL_CODE_DISABLE_PROVIDER {
            self.is_enabled = EVENT_CONTROL_CODE_DISABLE_PROVIDER;
            self.level = 0;
            self.match_any_keyword = 0;
            self.match_all_keyword = 0;
        }
    }

    /// Whether dropping the context must unregister it: only a successful registration gives
    /// a nonzero handle.
    pub fn needs_unregister(&self) -> (b: bool)
        ensures
            b == (self.registration_handle != 0),
    {
        self.registration_handle != 0
    }
}

/// A fresh context accepts no event.
pub proof fn law_new_context_accepts_nothing(c: EtwContext, level: u8, keyword: u64)
    requires
        c.is_enabled == 0,
    ensures
        !spec_enabled(c, level, keyword),
{
}

/// After a disable notification no event is accepted, whatever was enabled before.
pub proof fn law_disable_accepts_nothing(
    c: EtwContext,
    level: u8,
    match_any: u64,
    match_all: u64,
    event_level: u8,
    keyword: u64,
)
    ensures
        !spec_enabled(
            spec_on_control(c, EVENT_CONTROL_CODE_DISABLE_PROVIDER, level, match_any, match_all),
            event_level,
            keyword,
        ),
{
}

/// After an enable notification, an event is accepted exactly when its level is within the
/// session's (or the session takes every level) and its keyword is zero or meets both masks,
/// whatever the state was before.
pub proof fn law_enable_sets_the_filter(
    c: EtwContext,
    level: u8,
    match_any: u64,
    match_all: u64,
    event_level: u8,
    keyword: u64,
)
    ensures
        spec_enabled(
            spec_on_control(c, EVENT_CONTROL_CODE_ENABLE_PROVIDER, level, match_any, match_all),
            event_level,
            keyword,
        ) == ((event_level <= level || level == 0) && (keyword == 0 || ((keyword & match_any) != 0
            && (keyword & match_all) == match_all))),
{
}

/// A control code other than enable or disable leaves the state unchanged.
pub proof fn law_other_codes_change_nothing(c: EtwContext, code: u32, level: u8, match_any: u64, match_all: u64)
    requires
        code != EVENT_CONTROL_CODE_ENABLE_PROVIDER,
        code != EVENT_CONTROL_CODE_DISABLE_PROVIDER,
    ensures
        spec_on_control(c, code, level, match_any, match_all) == c,
{
}

/// Notifications never change the registration handle.
pub proof fn law_control_keeps_the_handle(c: EtwContext, code: u32, level: u8, match_any: u64, match_all: u64)
    ensures
        spec_on_control(c, code, level, match_any, match_all).registration_handle == c.registration_handle,
{
}

/// Only the latest notification counts: two in a row leave the state the second one alone
/// would leave from the first one's result, and an enable or disable overwrites all that an
/// earlier one set.
pub proof fn law_latest_notification_wins(
    c: EtwContext,
    code1: u32,
    level1: u8,
    any1: u64,
    all1: u64,
    code2: u32,
    level2: u8,
    any2: u64,
    all2: u64,
)
    requires
        code2 == EVENT_CONTROL_CODE_ENABLE_PROVIDER || code2 == EVENT_CONTROL_CODE_DISABLE_PROVIDER,
    ensures
        spec_on_control(spec_on_control(c, code1, level1, any1, all1), code2, level2, any2, all2)
            == spec_on_control(c, code2, level2, any2, all2),
{
}

/// An event whose keyword is zero is accepted by every enabled session that takes its level.
pub proof fn law_zero_keyword_accepted(c: EtwContext, level: u8)
    requires
        c.is_enabled != 0,
        level <= c.level || c.level == 0,
    ensures
        spec_enabled(c, level, 0),
{
}

/// The state after a series of enable callbacks, each a control code with a session's level and
/// masks, delivered in order.
pub open spec fn apply_controls(c: EtwContext, events: Seq<(u32, u8, u64, u64)>) -> EtwContext
    decreases events.len(),
{
    if events.len() == 0 {
        c
    } else {
        let e = events.last();
        spec_on_control(apply_controls(c, events.drop_last()), e.0, e.1, e.2, e.3)
    }
}

/// The code of the latest callback in the series that enables or disables the provider, if any.
pub open spec fn latest_switch(events: Seq<(u32, u8, u64, u64)>) -> Option<u32>
    decreases events.len(),
{
    if events.len() == 0 {
        None
    } else if events.last().0 == EVENT_CONTROL_CODE_ENABLE_PROVIDER || events.last().0
        == EVENT_CONTROL_CODE_DISABLE_PROVIDER {
        Some(events.last().0)
    } else {
        latest_switch(events.drop_last())
    }
}

/// After any series of callbacks, no event is accepted when the latest enable or disable among
/// them was a disable, or when there was none and no session listened before.
pub proof fn law_disabled_until_enabled(c: EtwContext, events: Seq<(u32, u8, u64, u64)>, level: u8, keyword: u64)
    requires
        latest_switch(events) == Some(EVENT_CONTROL_CODE_DISABLE_PROVIDER) || (latest_switch(events) is None
            && c.is_enabled == 0),
    ensures
        !spec_enabled(apply_controls(c, events), level, keyword),
    decreases events.len(),
{
    if events.len() > 0 {
        let e = events.last();
        if e.0 != EVENT_CONTROL_CODE_ENABLE_PROVIDER && e.0 != EVENT_CONTROL_CODE_DISABLE_PROVIDER {
            law_disabled_until_enabled(c, events.drop_last(), level, keyword);
        }
    }
}

} // verus!
