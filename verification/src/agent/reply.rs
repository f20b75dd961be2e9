//! The action protocol of external agents: one JSON action per line, such
//! as `{"Respond": "text"}`, `{"Transfer": "agent"}`, `{"Escalate": "why"}`,
//! `{"Hangup": null}`, `{"Order": {...}}` or the bare strings `"Hangup"` and
//! `"Continue"`, possibly wrapped as the string member `"result"` of an
//! outer object.
use vstd::prelude::*;

use super::{Action, ActionModel};
use crate::json::{
    find_member, json_object_members, json_string_value, member_json, member_text, parse_json_object, parse_json_string,
};
use crate::text::{chars_eq, chars_of, string_of, trim_space, trim_whitespace};

verus! {

/// The action one JSON action describes. An object: the first of `Respond`,
/// `Transfer` and `Escalate` with a string value, else `Hangup` when that
/// key is present, else `Order` with the JSON of its value, else
/// `Continue`. A bare JSON string names a unit action: `"Hangup"` is
/// `Hangup`, any other (such as `"Continue"`) `Continue`. Any other text
/// describes `Continue`.
pub open spec fn inner_action(json: Seq<char>) -> ActionModel {
    match json_object_members(trim_space(json)) {
        Some(ms) => {
            if member_text(ms, "Respond"@) is Some {
                ActionModel::Respond(member_text(ms, "Respond"@)->0)
            } else if member_text(ms, "Transfer"@) is Some {
                ActionModel::Transfer(member_text(ms, "Transfer"@)->0)
            } else if member_text(ms, "Escalate"@) is Some {
                ActionModel::Escalate(member_text(ms, "Escalate"@)->0)
            } else if member_json(ms, "Hangup"@) is Some {
                ActionModel::Hangup
            } else if member_json(ms, "Order"@) is Some {
                ActionModel::Order(member_json(ms, "Order"@)->0)
            } else {
                ActionModel::Continue
            }
        },
        None => if json_string_value(trim_space(json)) == Some("Hangup"@) {
            ActionModel::Hangup
        } else {
            ActionModel::Continue
        },
    }
}

/// The action an agent's output line describes: `Continue` for a blank
/// line; the inner action of the string member `"result"` when the line is
/// an object with one; otherwise the line read as an action object itself.
pub open spec fn line_action(line: Seq<char>) -> ActionModel {
    let t = trim_space(line);
    if t.len() == 0 {
        ActionModel::Continue
    } else {
        match json_object_members(t) {
            Some(ms) => match member_text(ms, "result"@) {
                Some(inner) => inner_action(inner),
                None => inner_action(t),
            },
            None => inner_action(t),
        }
    }
}

/// The action described by one JSON action object.
fn parse_inner(json: &str) -> (action: Action)
    ensures
        action@ == inner_action(json@),
{
    let trimmed = string_of(trim_whitespace(chars_of(json).as_slice()).as_slice());
    match parse_json_object(trimmed.as_str()) {
        Some(members) => {
            let (respond, _) = find_member(&members, "Respond");
            if let Some(reply) = respond {
                return Action::Respond(reply);
            }
            let (transfer, _) = find_member(&members, "Transfer");
            if let Some(dest) = transfer {
                return Action::Transfer(dest);
            }
            let (escalate, _) = find_member(&members, "Escalate");
            if let Some(reason) = escalate {
                return Action::Escalate(reason);
            }
            let (_, hangup) = find_member(&members, "Hangup");
            if hangup.is_some() {
                return Action::Hangup;
            }
            let (_, order) = find_member(&members, "Order");
            if let Some(payload) = order {
                return Action::Order(payload);
            }
            Action::Continue
        },
        None => match parse_json_string(trimmed.as_str()) {
            Some(name) => {
                if chars_eq(chars_of(name.as_str()).as_slice(), chars_of("Hangup").as_slice()) {
                    Action::Hangup
                } else {
                    Action::Continue
                }
            },
            None => Action::Continue,
        },
    }
}

/// Read one line of an external agent's output as an action.
pub fn parse_action(line: &str) -> (action: Action)
    ensures
        action@ == line_action(line@),
{
    let trimmed = trim_whitespace(chars_of(line).as_slice());
    if trimmed.len() == 0 {
        return Action::Continue;
    }
    let text = string_of(trimmed.as_slice());
    if let Some(members) = parse_json_object(text.as_str()) {
        let (result, _) = find_member(&members, "result");
        if let Some(inner) = result {
            return parse_inner(inner.as_str());
        }
    }
    parse_inner(text.as_str())
}

} // verus!
