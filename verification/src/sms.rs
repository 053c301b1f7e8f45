//! The steps of registering a client by a code sent to its phone. Texts are
//! sent and codes are checked elsewhere; what to do next, and what state the
//! client is in after it, is decided here.

use vstd::prelude::*;

verus! {

/// After this many texts no further one is sent.
pub const MAX_TEXTS: i32 = 10;

/// What to do for a client that asks to register.
#[derive(Debug, Clone, Copy, PartialEq, Eq, Structural)]
pub enum SmsAction {
    /// The client gave no phone number: nothing is done.
    Deny,
    /// The client submitted a code: have it checked.
    CheckText,
    /// The client waits for a code and can still get one: send a text and
    /// record that this many were sent.
    SendText { texts_sent: i32 },
    /// The client waits for a code and all texts were sent: nothing is done.
    Wait,
}

/// The state of a client's registration.
#[derive(Debug, Clone, Copy, PartialEq, Eq, Structural)]
pub enum ExitState {
    Registered,
    Pending,
    Denied,
}

/// What is done for a client that gave a phone number or not, submitted a
/// code or not, and was sent `text_num` texts so far. A code is checked
/// even after all texts were sent.
pub open spec fn sms_action(phone: bool, phone_code: bool, text_num: i32) -> SmsAction {
    if !phone {
        SmsAction::Deny
    } else if phone_code {
        SmsAction::CheckText
    } else if text_num > MAX_TEXTS {
        SmsAction::Wait
    } else {
        SmsAction::SendText { texts_sent: (text_num + 1) as i32 }
    }
}

/// Handles the minutia of phone registration states: decides what is done
/// for a client.
pub fn handle_sms_registration(phone: bool, phone_code: bool, text_num: i32) -> (action: SmsAction)
    ensures
        action == sms_action(phone, phone_code, text_num),
{
    let sent_more_than_allowed_texts = text_num > MAX_TEXTS;
    match (phone, phone_code, sent_more_than_allowed_texts) {
        // a code is checked whether or not texts are left
        (true, true, _) => SmsAction::CheckText,
        // user has exhausted attempts but is still not submitting code
        (true, false, true) => SmsAction::Wait,
        // user has attempts remaining and is requesting the code be resent
        (true, false, false) => SmsAction::SendText { texts_sent: text_num + 1 },
        // user did not submit a phonenumber
        (false, _, _) => SmsAction::Deny,
    }
}

/// The state of the client after an action was carried out without error;
/// `code_accepted` is what the check of a code gave. Only an accepted code
/// registers the client.
pub open spec fn state_after(action: SmsAction, code_accepted: bool) -> ExitState {
    match action {
        SmsAction::Deny => ExitState::Denied,
        SmsAction::CheckText => if code_accepted {
            ExitState::Registered
        } else {
            ExitState::Pending
        },
        SmsAction::SendText { .. } => ExitState::Pending,
        SmsAction::Wait => ExitState::Pending,
    }
}

/// Gives the state of the client after an action.
pub fn exit_state(action: SmsAction, code_accepted: bool) -> (state: ExitState)
    ensures
        state == state_after(action, code_accepted),
{
    match action {
        SmsAction::Deny => ExitState::Denied,
        SmsAction::CheckText => if code_accepted {
            ExitState::Registered
        } else {
            ExitState::Pending
        },
        SmsAction::SendText { .. } => ExitState::Pending,
        SmsAction::Wait => ExitState::Pending,
    }
}

/// The message that goes with a state.
pub open spec fn message_of(state: ExitState) -> Seq<char> {
    match state {
        ExitState::Registered => "Registration OK"@,
        ExitState::Pending => "awaiting phone verification"@,
        ExitState::Denied => "This exit requires a phone number to register!"@,
    }
}

impl ExitState {
    /// The message that goes with this state.
    pub fn message(&self) -> (m: &'static str)
        ensures
            m@ == message_of(*self),
    {
        match self {
            ExitState::Registered => "Registration OK",
            ExitState::Pending => "awaiting phone verification",
            ExitState::Denied => "This exit requires a phone number to register!",
        }
    }
}

/// A client is registered only through a code that was checked and
/// accepted, which takes a phone number; and no text is sent once more than
/// the allowed number were.
pub proof fn lemma_registration_needs_code(
    phone: bool,
    phone_code: bool,
    text_num: i32,
    code_accepted: bool,
)
    ensures
        state_after(sms_action(phone, phone_code, text_num), code_accepted) == ExitState::Registered
            <==> phone && phone_code && code_accepted,
        sms_action(phone, phone_code, text_num) is SendText ==> text_num <= MAX_TEXTS,
        !phone <==> state_after(sms_action(phone, phone_code, text_num), code_accepted)
            == ExitState::Denied,
{
}

} // verus!
