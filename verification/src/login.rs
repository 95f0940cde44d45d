//! The two-step Apple ID login: a login that finishes on its own within the
//! first wait needs no code; otherwise the portal asks for a two-factor code
//! and waits a bounded time for the login to finish.

use vstd::prelude::*;
use crate::text::clone_opt_string;

verus! {

/// A finished Apple ID login.
#[derive(Debug)]
pub struct LoginData {
    pub apple_id: String,
    pub session_plist: Vec<u8>,
    pub team_id: Option<String>,
    pub team_name: Option<String>,
}

impl LoginData {
    /// A copy of this login.
    pub fn duplicate(&self) -> (r: LoginData)
        ensures
            r.apple_id == self.apple_id,
            r.session_plist@ == self.session_plist@,
            r.team_id == self.team_id,
            r.team_name == self.team_name,
    {
        LoginData {
            apple_id: self.apple_id.clone(),
            session_plist: crate::records::clone_bytes(&self.session_plist),
            team_id: clone_opt_string(&self.team_id),
            team_name: clone_opt_string(&self.team_name),
        }
    }
}

/// How many one-second checks the portal makes for a login to finish after it
/// forwarded the two-factor code.
pub const LOGIN_CHECKS: u32 = 30;

/// What to do after a check of a pending login.
#[derive(Debug, PartialEq, Eq, Structural, Clone, Copy)]
pub enum LoginWait {
    /// The login finished: store its outcome.
    Finish,
    /// Not finished yet: wait a second and check again.
    KeepWaiting,
    /// Not finished within the allowed checks: give up.
    TimedOut,
}

/// The decision after the `checks_done`-th check (counting from one) of a
/// login waiting for Apple, which had or had not finished by then.
pub fn after_login_check(checks_done: u32, finished: bool) -> (r: LoginWait)
    ensures
        r == (if finished {
            LoginWait::Finish
        } else if checks_done >= LOGIN_CHECKS {
            LoginWait::TimedOut
        } else {
            LoginWait::KeepWaiting
        }),
{
    if finished {
        LoginWait::Finish
    } else if checks_done >= LOGIN_CHECKS {
        LoginWait::TimedOut
    } else {
        LoginWait::KeepWaiting
    }
}

/// After the first wait: whether the portal must ask for a two-factor code
/// (the login has not finished yet).
pub fn needs_second_factor(finished: bool) -> (r: bool)
    ensures
        r == !finished,
{
    !finished
}

} // verus!
