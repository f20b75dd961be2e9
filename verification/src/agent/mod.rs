//! Transcript routing agents: what a call does next, decided from what the
//! caller said.
//!
//! - [`IntentRouter`]: keyword and phrase rules, first match wins.
//! - [`OrderFlowAgent`]: a deterministic order-taking state machine.
//! - [`parse_action`]: the JSON action protocol spoken by external agents.

pub mod order;
pub mod reply;
pub mod router;

pub use order::{default_menu, describe_items, parse_quantity, OrderFlowAgent, OrderItem, OrderPhase};
pub use reply::parse_action;



pub use router::{default_rules, IntentRouter, Rule};

use vstd::prelude::*;

verus! {

/// What the call should do next.
#[derive(Debug, Clone, PartialEq)]
pub enum Action {
    /// Say this to the caller.
    Respond(String),
    /// Transfer the call to this destination.
    Transfer(String),
    /// Escalate, for this reason.
    Escalate(String),
    /// End the call.
    Hangup,
    /// Nothing to do yet; keep listening.
    Continue,
    /// A structured order, as JSON text.
    Order(String),
}

/// The abstract value of an [`Action`]: its variant and text.
pub enum ActionModel {
    Respond(Seq<char>),
    Transfer(Seq<char>),
    Escalate(Seq<char>),
    Hangup,
    Continue,
    Order(Seq<char>),
}

impl View for Action {
    type V = ActionModel;

    open spec fn view(&self) -> ActionModel {
        match self {
            Action::Respond(s) => ActionModel::Respond(s@),
            Action::Transfer(s) => ActionModel::Transfer(s@),
            Action::Escalate(s) => ActionModel::Escalate(s@),
            Action::Hangup => ActionModel::Hangup,
            Action::Continue => ActionModel::Continue,
            Action::Order(s) => ActionModel::Order(s@),
        }
    }
}

impl Action {
    /// A copy of this action.
    pub fn duplicate(&self) -> (copy: Action)
        ensures
            copy@ == self@,
    {
        match self {
            Action::Respond(s) => Action::Respond(s.clone()),
            Action::Transfer(s) => Action::Transfer(s.clone()),
            Action::Escalate(s) => Action::Escalate(s.clone()),
            Action::Hangup => Action::Hangup,
            Action::Continue => Action::Continue,
            Action::Order(s) => Action::Order(s.clone()),
        }
    }
}

} // verus!
