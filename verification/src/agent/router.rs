use vstd::prelude::*;

use super::{Action, ActionModel};
use crate::text::{contains_chars, contains_word, has_substring, has_word, lowercase, lowercase_chars, split_words, words};

verus! {

/// A routing rule: any of its trigger phrases selects its action.
#[derive(Clone)]
pub struct Rule {
    pub triggers: Vec<String>,
    pub action: Action,
}

/// The abstract value of a [`Rule`].
pub struct RuleModel {
    pub triggers: Seq<Seq<char>>,
    pub action: ActionModel,
}

impl View for Rule {
    type V = RuleModel;

    open spec fn view(&self) -> RuleModel {
        RuleModel { triggers: self.triggers.deep_view(), action: self.action@ }
    }
}

/// A (lowercased) trigger matches a (lowercased) utterance: a trigger that
/// holds a space matches as a substring; any other trigger must equal one of
/// the utterance's words once the word's leading and trailing
/// non-alphanumeric characters are stripped.
pub open spec fn trigger_matches(text: Seq<char>, trigger: Seq<char>) -> bool {
    if trigger.contains(' ') {
        has_substring(text, trigger)
    } else {
        has_word(text, trigger)
    }
}

/// Some trigger of the rule, lowercased, matches the lowercased utterance.
pub open spec fn rule_matches(rule: RuleModel, lower_text: Seq<char>) -> bool {
    exists|j: int| 0 <= j < rule.triggers.len() && trigger_matches(lower_text, lowercase(#[trigger] rule.triggers[j]))
}

/// The reply given when no rule matches.
pub open spec fn fallback_reply() -> ActionModel {
    ActionModel::Respond("I didn't quite catch that. You can ask for a live agent, support, or a manager."@)
}

/// The action of the first rule that matches the lowercased utterance, or
/// the fallback reply when none does.
pub open spec fn first_match(rules: Seq<RuleModel>, lower_text: Seq<char>) -> ActionModel
    decreases rules.len(),
{
    if rules.len() == 0 {
        fallback_reply()
    } else if rule_matches(rules[0], lower_text) {
        rules[0].action
    } else {
        first_match(rules.drop_first(), lower_text)
    }
}

/// Keyword and phrase matcher: the first rule with a matching trigger wins.
pub struct IntentRouter {
    rules: Vec<Rule>,
}

impl View for IntentRouter {
    type V = Seq<RuleModel>;

    closed spec fn view(&self) -> Seq<RuleModel> {
        self.rules@.map_values(|r: Rule| r@)
    }
}

/// Whether `trigger` matches the utterance `text` whose words are `text_words`.
fn trigger_contains(text: &[char], trigger: &[char], text_words: &Vec<Vec<char>>) -> (found: bool)
    requires
        text_words.deep_view() == words(text@),
    ensures
        found == trigger_matches(text@, trigger@),
{
    let mut has_space = false;
    let mut k: usize = 0;
    while k < trigger.len()
        invariant
            k <= trigger@.len(),
            has_space == (exists|m: int| 0 <= m < k && trigger@[m] == ' '),
        decreases trigger@.len() - k,
    {
        if trigger[k] == ' ' {
            has_space = true;
        }
        k = k + 1;
    }
    assert(has_space == trigger@.contains(' '));
    if has_space {
        contains_chars(text, trigger)
    } else {
        contains_word(text_words, trigger, Ghost(text@))
    }
}

impl IntentRouter {
    /// A router over `rules`, tried in order.
    pub fn new(rules: Vec<Rule>) -> (router: Self)
        ensures
            router@ == rules@.map_values(|r: Rule| r@),
    {
        IntentRouter { rules }
    }

    /// Route an utterance: the action of the first rule with a trigger that
    /// matches the lowercased utterance, or a prompt to rephrase.
    pub fn route(&self, text: &str) -> (action: Action)
        ensures
            action@ == first_match(self@, lowercase(text@)),
    {
        let lower = lowercase_chars(text);
        self.route_lowercase(lower.as_slice())
    }

    /// Route an utterance already in lowercase.
    pub fn route_lowercase(&self, lower: &[char]) -> (action: Action)
        ensures
            action@ == first_match(self@, lower@),
    {
        let text_words = split_words(lower);
        let n = self.rules.len();
        let mut i: usize = 0;
        assert(self@.subrange(0, n as int) =~= self@);
        while i < n
            invariant
                n == self.rules@.len(),
                i <= n,
                text_words.deep_view() == words(lower@),
                first_match(self@, lower@) == first_match(self@.subrange(i as int, n as int), lower@),
            decreases n - i,
        {
            let rule = &self.rules[i];
            assert(self@[i as int] == rule@);
            let mut j: usize = 0;
            while j < rule.triggers.len()
                invariant
                    n == self.rules@.len(),
                    i < n,
                    rule == self.rules@[i as int],
                    self@[i as int] == rule@,
                    first_match(self@, lower@) == first_match(self@.subrange(i as int, n as int), lower@),
                    j <= rule.triggers@.len(),
                    text_words.deep_view() == words(lower@),
                    forall|m: int| 0 <= m < j ==> !trigger_matches(lower@, lowercase(#[trigger] rule@.triggers[m])),
                decreases rule.triggers@.len() - j,
            {
                let trigger_lower = lowercase_chars(rule.triggers[j].as_str());
                assert(rule.triggers@[j as int]@ == rule@.triggers[j as int]);
                if trigger_contains(lower, trigger_lower.as_slice(), &text_words) {
                    proof {
                        let rest = self@.subrange(i as int, n as int);
                        assert(rest[0] == rule@);
                        assert(trigger_matches(lower@, lowercase(rule@.triggers[j as int])));
                        assert(rule_matches(rule@, lower@));
                    }
                    return rule.action.duplicate();
                }
                j = j + 1;
            }
            proof {
                let rest = self@.subrange(i as int, n as int);
                assert(rest[0] == rule@);
                assert(!rule_matches(rule@, lower@));
                assert(rest.drop_first() =~= self@.subrange(i + 1, n as int));
            }
            i = i + 1;
        }
        let reply = String::from_str("I didn't quite catch that. You can ask for a live agent, support, or a manager.");
        Action::Respond(reply)
    }
}

/// Owned copies of `list`.
fn owned_strings(list: &[&str]) -> (v: Vec<String>)
    ensures
        v.deep_view() == list.deep_view(),
{
    let mut v: Vec<String> = Vec::new();
    let mut i: usize = 0;
    while i < list.len()
        invariant
            i <= list@.len(),
            v.deep_view() == list.deep_view().subrange(0, i as int),
        decreases list@.len() - i,
    {
        let s = String::from_str(list[i]);
        let ghost before = v.deep_view();
        v.push(s);
        assert(v.deep_view() =~= before.push(list@[i as int]@));
        assert(list.deep_view().subrange(0, i + 1) =~= list.deep_view().subrange(0, i as int).push(list@[i as int]@));
        i = i + 1;
    }
    assert(list.deep_view().subrange(0, list@.len() as int) =~= list.deep_view());
    v
}

/// The phone-bank routing rules: capabilities question, live agent,
/// supervisor escalation, technical support, goodbye, yes, and no.
pub open spec fn default_rules_model() -> Seq<RuleModel> {
    seq![
        RuleModel {
            triggers: seq![
                "what can you do"@, "what do you do"@, "capabilities"@, "who are you"@,
                "what are you"@, "how can you help"@, "what can i ask"@,
            ],
            action: ActionModel::Respond(
                "I'm the automated receptionist. I can answer questions, route you to the right department, transfer you to a live agent, or escalate issues to a supervisor. How can I help?"@,
            ),
        },
        RuleModel {
            triggers: seq![
                "agent"@, "representative"@, "human"@, "person"@, "operator"@, "speak to someone"@,
            ],
            action: ActionModel::Transfer("agent"@),
        },
        RuleModel {
            triggers: seq!["president"@, "manager"@, "supervisor"@, "escalate"@, "complaint"@],
            action: ActionModel::Escalate("caller requested supervisor"@),
        },
        RuleModel {
            triggers: seq![
                "support"@, "help"@, "issue"@, "problem"@, "broken"@, "not working"@, "error"@, "bug"@,
            ],
            action: ActionModel::Transfer("support"@),
        },
        RuleModel {
            triggers: seq![
                "goodbye"@, "bye"@, "hang up"@, "that's all"@, "thank you"@, "thanks"@,
            ],
            action: ActionModel::Respond("Thank you for calling. Goodbye."@),
        },
        RuleModel {
            triggers: seq!["yes"@, "yeah"@, "yep"@, "correct"@],
            action: ActionModel::Respond("Great, let me help you with that."@),
        },
        RuleModel {
            triggers: seq!["no"@, "nope"@, "not"@],
            action: ActionModel::Respond("Okay, let me try something else."@),
        },
    ]
}

/// The pre-built phone-bank routing configuration.
pub fn default_rules() -> (rules: Vec<Rule>)
    ensures
        rules@.map_values(|r: Rule| r@) == default_rules_model(),
{
    let t1 = owned_strings(&["what can you do", "what do you do", "capabilities", "who are you", "what are you", "how can you help", "what can i ask"]);
    assert(t1.deep_view() =~= seq!["what can you do"@, "what do you do"@, "capabilities"@, "who are you"@, "what are you"@, "how can you help"@, "what can i ask"@]);
    let t2 = owned_strings(&["agent", "representative", "human", "person", "operator", "speak to someone"]);
    assert(t2.deep_view() =~= seq!["agent"@, "representative"@, "human"@, "person"@, "operator"@, "speak to someone"@]);
    let t3 = owned_strings(&["president", "manager", "supervisor", "escalate", "complaint"]);
    assert(t3.deep_view() =~= seq!["president"@, "manager"@, "supervisor"@, "escalate"@, "complaint"@]);
    let t4 = owned_strings(&["support", "help", "issue", "problem", "broken", "not working", "error", "bug"]);
    assert(t4.deep_view() =~= seq!["support"@, "help"@, "issue"@, "problem"@, "broken"@, "not working"@, "error"@, "bug"@]);
    let t5 = owned_strings(&["goodbye", "bye", "hang up", "that's all", "thank you", "thanks"]);
    assert(t5.deep_view() =~= seq!["goodbye"@, "bye"@, "hang up"@, "that's all"@, "thank you"@, "thanks"@]);
    let t6 = owned_strings(&["yes", "yeah", "yep", "correct"]);
    assert(t6.deep_view() =~= seq!["yes"@, "yeah"@, "yep"@, "correct"@]);
    let t7 = owned_strings(&["no", "nope", "not"]);
    assert(t7.deep_view() =~= seq!["no"@, "nope"@, "not"@]);
    let mut rules: Vec<Rule> = Vec::new();
    rules.push(Rule {
        triggers: t1,
        action: Action::Respond(
            String::from_str(
                "I'm the automated receptionist. I can answer questions, route you to the right department, transfer you to a live agent, or escalate issues to a supervisor. How can I help?",
            ),
        ),
    });
    rules.push(Rule {
        triggers: t2,
        action: Action::Transfer(String::from_str("agent")),
    });
    rules.push(Rule {
        triggers: t3,
        action: Action::Escalate(String::from_str("caller requested supervisor")),
    });
    rules.push(Rule {
        triggers: t4,
        action: Action::Transfer(String::from_str("support")),
    });
    rules.push(Rule {
        triggers: t5,
        action: Action::Respond(String::from_str("Thank you for calling. Goodbye.")),
    });
    rules.push(Rule {
        triggers: t6,
        action: Action::Respond(String::from_str("Great, let me help you with that.")),
    });
    rules.push(Rule {
        triggers: t7,
        action: Action::Respond(String::from_str("Okay, let me try something else.")),
    });
    assert(rules@.map_values(|r: Rule| r@) =~= default_rules_model());
    rules
}


/// First match wins: when rule `i` matches and no earlier rule does, its
/// action is the answer, whatever the later rules say.
pub proof fn lemma_first_match_wins(rules: Seq<RuleModel>, lower_text: Seq<char>, i: int)
    requires
        0 <= i < rules.len(),
        rule_matches(rules[i], lower_text),
        forall|k: int| 0 <= k < i ==> !rule_matches(#[trigger] rules[k], lower_text),
    ensures
        first_match(rules, lower_text) == rules[i].action,
    decreases i,
{
    if i > 0 {
        assert(!rule_matches(rules[0], lower_text));
        let rest = rules.drop_first();
        assert forall|k: int| 0 <= k < i - 1 implies !rule_matches(#[trigger] rest[k], lower_text) by {
            assert(rest[k] == rules[k + 1]);
        }
        lemma_first_match_wins(rest, lower_text, i - 1);
    }
}

/// An utterance that no rule matches gets the fallback reply, never silence.
pub proof fn lemma_unmatched_gets_fallback(rules: Seq<RuleModel>, lower_text: Seq<char>)
    requires
        forall|k: int| 0 <= k < rules.len() ==> !rule_matches(#[trigger] rules[k], lower_text),
    ensures
        first_match(rules, lower_text) == fallback_reply(),
    decreases rules.len(),
{
    if rules.len() > 0 {
        assert(!rule_matches(rules[0], lower_text));
        let rest = rules.drop_first();
        assert forall|k: int| 0 <= k < rest.len() implies !rule_matches(#[trigger] rest[k], lower_text) by {
            assert(rest[k] == rules[k + 1]);
        }
        lemma_unmatched_gets_fallback(rest, lower_text);
    }
}

/// A single-word trigger matches only a whole word of the utterance
/// (punctuation around the word ignored), never part of a longer word; a
/// trigger with a space matches anywhere as a phrase.
pub proof fn lemma_trigger_word_boundary(text: Seq<char>, trigger: Seq<char>)
    ensures
        !trigger.contains(' ') ==> (trigger_matches(text, trigger) <==> has_word(text, trigger)),
        trigger.contains(' ') ==> (trigger_matches(text, trigger) <==> has_substring(text, trigger)),
{
}

proof fn lemma_rule_matches_if(rule: RuleModel, lower_text: Seq<char>, j: int)
    requires
        0 <= j < rule.triggers.len(),
        trigger_matches(lower_text, lowercase(rule.triggers[j])),
    ensures
        rule_matches(rule, lower_text),
{
}

/// Under the default rules, an utterance that asks what the receptionist can do ("what can you do", "what do you do", "capabilities", "who are you", "what are you", "how can you help", "what can i ask"), and
/// matches no earlier rule, gets the capabilities reply.
pub proof fn lemma_default_capabilities_rule(lower_text: Seq<char>)
    requires
        trigger_matches(lower_text, lowercase("what can you do"@))
            || trigger_matches(lower_text, lowercase("what do you do"@))
            || trigger_matches(lower_text, lowercase("capabilities"@))
            || trigger_matches(lower_text, lowercase("who are you"@))
            || trigger_matches(lower_text, lowercase("what are you"@))
            || trigger_matches(lower_text, lowercase("how can you help"@))
            || trigger_matches(lower_text, lowercase("what can i ask"@)),
    ensures
        first_match(default_rules_model(), lower_text) == ActionModel::Respond("I'm the automated receptionist. I can answer questions, route you to the right department, transfer you to a live agent, or escalate issues to a supervisor. How can I help?"@),
{
    let rules = default_rules_model();
    if trigger_matches(lower_text, lowercase("what can you do"@)) {
        assert(rules[0].triggers[0] == "what can you do"@);
        lemma_rule_matches_if(rules[0], lower_text, 0);
    }
    if trigger_matches(lower_text, lowercase("what do you do"@)) {
        assert(rules[0].triggers[1] == "what do you do"@);
        lemma_rule_matches_if(rules[0], lower_text, 1);
    }
    if trigger_matches(lower_text, lowercase("capabilities"@)) {
        assert(rules[0].triggers[2] == "capabilities"@);
        lemma_rule_matches_if(rules[0], lower_text, 2);
    }
    if trigger_matches(lower_text, lowercase("who are you"@)) {
        assert(rules[0].triggers[3] == "who are you"@);
        lemma_rule_matches_if(rules[0], lower_text, 3);
    }
    if trigger_matches(lower_text, lowercase("what are you"@)) {
        assert(rules[0].triggers[4] == "what are you"@);
        lemma_rule_matches_if(rules[0], lower_text, 4);
    }
    if trigger_matches(lower_text, lowercase("how can you help"@)) {
        assert(rules[0].triggers[5] == "how can you help"@);
        lemma_rule_matches_if(rules[0], lower_text, 5);
    }
    if trigger_matches(lower_text, lowercase("what can i ask"@)) {
        assert(rules[0].triggers[6] == "what can i ask"@);
        lemma_rule_matches_if(rules[0], lower_text, 6);
    }
    assert forall|j: int| 0 <= j < 0 implies !rule_matches(#[trigger] rules[j], lower_text) by {}
    lemma_first_match_wins(rules, lower_text, 0);
}

/// Under the default rules, an utterance that asks for a live agent ("agent", "representative", "human", "person", "operator", "speak to someone"), and
/// matches no earlier rule, is transferred to the agent.
pub proof fn lemma_default_live_agent_rule(lower_text: Seq<char>)
    requires
        !rule_matches(default_rules_model()[0], lower_text),
        trigger_matches(lower_text, lowercase("agent"@))
            || trigger_matches(lower_text, lowercase("representative"@))
            || trigger_matches(lower_text, lowercase("human"@))
            || trigger_matches(lower_text, lowercase("person"@))
            || trigger_matches(lower_text, lowercase("operator"@))
            || trigger_matches(lower_text, lowercase("speak to someone"@)),
    ensures
        first_match(default_rules_model(), lower_text) == ActionModel::Transfer("agent"@),
{
    let rules = default_rules_model();
    if trigger_matches(lower_text, lowercase("agent"@)) {
        assert(rules[1].triggers[0] == "agent"@);
        lemma_rule_matches_if(rules[1], lower_text, 0);
    }
    if trigger_matches(lower_text, lowercase("representative"@)) {
        assert(rules[1].triggers[1] == "representative"@);
        lemma_rule_matches_if(rules[1], lower_text, 1);
    }
    if trigger_matches(lower_text, lowercase("human"@)) {
        assert(rules[1].triggers[2] == "human"@);
        lemma_rule_matches_if(rules[1], lower_text, 2);
    }
    if trigger_matches(lower_text, lowercase("person"@)) {
        assert(rules[1].triggers[3] == "person"@);
        lemma_rule_matches_if(rules[1], lower_text, 3);
    }
    if trigger_matches(lower_text, lowercase("operator"@)) {
        assert(rules[1].triggers[4] == "operator"@);
        lemma_rule_matches_if(rules[1], lower_text, 4);
    }
    if trigger_matches(lower_text, lowercase("speak to someone"@)) {
        assert(rules[1].triggers[5] == "speak to someone"@);
        lemma_rule_matches_if(rules[1], lower_text, 5);
    }
    assert forall|j: int| 0 <= j < 1 implies !rule_matches(#[trigger] rules[j], lower_text) by {}
    lemma_first_match_wins(rules, lower_text, 1);
}

/// Under the default rules, an utterance that asks for a supervisor ("president", "manager", "supervisor", "escalate", "complaint"), and
/// matches no earlier rule, is escalated.
pub proof fn lemma_default_supervisor_rule(lower_text: Seq<char>)
    requires
        !rule_matches(default_rules_model()[0], lower_text),
        !rule_matches(default_rules_model()[1], lower_text),
        trigger_matches(lower_text, lowercase("president"@))
            || trigger_matches(lower_text, lowercase("manager"@))
            || trigger_matches(lower_text, lowercase("supervisor"@))
            || trigger_matches(lower_text, lowercase("escalate"@))
            || trigger_matches(lower_text, lowercase("complaint"@)),
    ensures
        first_match(default_rules_model(), lower_text) == ActionModel::Escalate("caller requested supervisor"@),
{
    let rules = default_rules_model();
    if trigger_matches(lower_text, lowercase("president"@)) {
        assert(rules[2].triggers[0] == "president"@);
        lemma_rule_matches_if(rules[2], lower_text, 0);
    }
    if trigger_matches(lower_text, lowercase("manager"@)) {
        assert(rules[2].triggers[1] == "manager"@);
        lemma_rule_matches_if(rules[2], lower_text, 1);
    }
    if trigger_matches(lower_text, lowercase("supervisor"@)) {
        assert(rules[2].triggers[2] == "supervisor"@);
        lemma_rule_matches_if(rules[2], lower_text, 2);
    }
    if trigger_matches(lower_text, lowercase("escalate"@)) {
        assert(rules[2].triggers[3] == "escalate"@);
        lemma_rule_matches_if(rules[2], lower_text, 3);
    }
    if trigger_matches(lower_text, lowercase("complaint"@)) {
        assert(rules[2].triggers[4] == "complaint"@);
        lemma_rule_matches_if(rules[2], lower_text, 4);
    }
    assert forall|j: int| 0 <= j < 2 implies !rule_matches(#[trigger] rules[j], lower_text) by {}
    lemma_first_match_wins(rules, lower_text, 2);
}

/// Under the default rules, an utterance that reports a problem ("support", "help", "issue", "problem", "broken", "not working", "error", "bug"), and
/// matches no earlier rule, is transferred to support.
pub proof fn lemma_default_support_rule(lower_text: Seq<char>)
    requires
        !rule_matches(default_rules_model()[0], lower_text),
        !rule_matches(default_rules_model()[1], lower_text),
        !rule_matches(default_rules_model()[2], lower_text),
        trigger_matches(lower_text, lowercase("support"@))
            || trigger_matches(lower_text, lowercase("help"@))
            || trigger_matches(lower_text, lowercase("issue"@))
            || trigger_matches(lower_text, lowercase("problem"@))
            || trigger_matches(lower_text, lowercase("broken"@))
            || trigger_matches(lower_text, lowercase("not working"@))
            || trigger_matches(lower_text, lowercase("error"@))
            || trigger_matches(lower_text, lowercase("bug"@)),
    ensures
        first_match(default_rules_model(), lower_text) == ActionModel::Transfer("support"@),
{
    let rules = default_rules_model();
    if trigger_matches(lower_text, lowercase("support"@)) {
        assert(rules[3].triggers[0] == "support"@);
        lemma_rule_matches_if(rules[3], lower_text, 0);
    }
    if trigger_matches(lower_text, lowercase("help"@)) {
        assert(rules[3].triggers[1] == "help"@);
        lemma_rule_matches_if(rules[3], lower_text, 1);
    }
    if trigger_matches(lower_text, lowercase("issue"@)) {
        assert(rules[3].triggers[2] == "issue"@);
        lemma_rule_matches_if(rules[3], lower_text, 2);
    }
    if trigger_matches(lower_text, lowercase("problem"@)) {
        assert(rules[3].triggers[3] == "problem"@);
        lemma_rule_matches_if(rules[3], lower_text, 3);
    }
    if trigger_matches(lower_text, lowercase("broken"@)) {
        assert(rules[3].triggers[4] == "broken"@);
        lemma_rule_matches_if(rules[3], lower_text, 4);
    }
    if trigger_matches(lower_text, lowercase("not working"@)) {
        assert(rules[3].triggers[5] == "not working"@);
        lemma_rule_matches_if(rules[3], lower_text, 5);
    }
    if trigger_matches(lower_text, lowercase("error"@)) {
        assert(rules[3].triggers[6] == "error"@);
        lemma_rule_matches_if(rules[3], lower_text, 6);
    }
    if trigger_matches(lower_text, lowercase("bug"@)) {
        assert(rules[3].triggers[7] == "bug"@);
        lemma_rule_matches_if(rules[3], lower_text, 7);
    }
    assert forall|j: int| 0 <= j < 3 implies !rule_matches(#[trigger] rules[j], lower_text) by {}
    lemma_first_match_wins(rules, lower_text, 3);
}

/// Under the default rules, an utterance that says goodbye ("goodbye", "bye", "hang up", "that's all", "thank you", "thanks"), and
/// matches no earlier rule, is thanked and told goodbye.
pub proof fn lemma_default_goodbye_rule(lower_text: Seq<char>)
    requires
        !rule_matches(default_rules_model()[0], lower_text),
        !rule_matches(default_rules_model()[1], lower_text),
        !rule_matches(default_rules_model()[2], lower_text),
        !rule_matches(default_rules_model()[3], lower_text),
        trigger_matches(lower_text, lowercase("goodbye"@))
            || trigger_matches(lower_text, lowercase("bye"@))
            || trigger_matches(lower_text, lowercase("hang up"@))
            || trigger_matches(lower_text, lowercase("that's all"@))
            || trigger_matches(lower_text, lowercase("thank you"@))
            || trigger_matches(lower_text, lowercase("thanks"@)),
    ensures
        first_match(default_rules_model(), lower_text) == ActionModel::Respond("Thank you for calling. Goodbye."@),
{
    let rules = default_rules_model();
    if trigger_matches(lower_text, lowercase("goodbye"@)) {
        assert(rules[4].triggers[0] == "goodbye"@);
        lemma_rule_matches_if(rules[4], lower_text, 0);
    }
    if trigger_matches(lower_text, lowercase("bye"@)) {
        assert(rules[4].triggers[1] == "bye"@);
        lemma_rule_matches_if(rules[4], lower_text, 1);
    }
    if trigger_matches(lower_text, lowercase("hang up"@)) {
        assert(rules[4].triggers[2] == "hang up"@);
        lemma_rule_matches_if(rules[4], lower_text, 2);
    }
    if trigger_matches(lower_text, lowercase("that's all"@)) {
        assert(rules[4].triggers[3] == "that's all"@);
        lemma_rule_matches_if(rules[4], lower_text, 3);
    }
    if trigger_matches(lower_text, lowercase("thank you"@)) {
        assert(rules[4].triggers[4] == "thank you"@);
        lemma_rule_matches_if(rules[4], lower_text, 4);
    }
    if trigger_matches(lower_text, lowercase("thanks"@)) {
        assert(rules[4].triggers[5] == "thanks"@);
        lemma_rule_matches_if(rules[4], lower_text, 5);
    }
    assert forall|j: int| 0 <= j < 4 implies !rule_matches(#[trigger] rules[j], lower_text) by {}
    lemma_first_match_wins(rules, lower_text, 4);
}

/// Under the default rules, an utterance that says yes ("yes", "yeah", "yep", "correct"), and
/// matches no earlier rule, gets the go-ahead reply.
pub proof fn lemma_default_yes_rule(lower_text: Seq<char>)
    requires
        !rule_matches(default_rules_model()[0], lower_text),
        !rule_matches(default_rules_model()[1], lower_text),
        !rule_matches(default_rules_model()[2], lower_text),
        !rule_matches(default_rules_model()[3], lower_text),
        !rule_matches(default_rules_model()[4], lower_text),
        trigger_matches(lower_text, lowercase("yes"@))
            || trigger_matches(lower_text, lowercase("yeah"@))
            || trigger_matches(lower_text, lowercase("yep"@))
            || trigger_matches(lower_text, lowercase("correct"@)),
    ensures
        first_match(default_rules_model(), lower_text) == ActionModel::Respond("Great, let me help you with that."@),
{
    let rules = default_rules_model();
    if trigger_matches(lower_text, lowercase("yes"@)) {
        assert(rules[5].triggers[0] == "yes"@);
        lemma_rule_matches_if(rules[5], lower_text, 0);
    }
    if trigger_matches(lower_text, lowercase("yeah"@)) {
        assert(rules[5].triggers[1] == "yeah"@);
        lemma_rule_matches_if(rules[5], lower_text, 1);
    }
    if trigger_matches(lower_text, lowercase("yep"@)) {
        assert(rules[5].triggers[2] == "yep"@);
        lemma_rule_matches_if(rules[5], lower_text, 2);
    }
    if trigger_matches(lower_text, lowercase("correct"@)) {
        assert(rules[5].triggers[3] == "correct"@);
        lemma_rule_matches_if(rules[5], lower_text, 3);
    }
    assert forall|j: int| 0 <= j < 5 implies !rule_matches(#[trigger] rules[j], lower_text) by {}
    lemma_first_match_wins(rules, lower_text, 5);
}

/// Under the default rules, an utterance that says no ("no", "nope", "not"), and
/// matches no earlier rule, gets the try-again reply.
pub proof fn lemma_default_no_rule(lower_text: Seq<char>)
    requires
        !rule_matches(default_rules_model()[0], lower_text),
        !rule_matches(default_rules_model()[1], lower_text),
        !rule_matches(default_rules_model()[2], lower_text),
        !rule_matches(default_rules_model()[3], lower_text),
        !rule_matches(default_rules_model()[4], lower_text),
        !rule_matches(default_rules_model()[5], lower_text),
        trigger_matches(lower_text, lowercase("no"@))
            || trigger_matches(lower_text, lowercase("nope"@))
            || trigger_matches(lower_text, lowercase("not"@)),
    ensures
        first_match(default_rules_model(), lower_text) == ActionModel::Respond("Okay, let me try something else."@),
{
    let rules = default_rules_model();
    if trigger_matches(lower_text, lowercase("no"@)) {
        assert(rules[6].triggers[0] == "no"@);
        lemma_rule_matches_if(rules[6], lower_text, 0);
    }
    if trigger_matches(lower_text, lowercase("nope"@)) {
        assert(rules[6].triggers[1] == "nope"@);
        lemma_rule_matches_if(rules[6], lower_text, 1);
    }
    if trigger_matches(lower_text, lowercase("not"@)) {
        assert(rules[6].triggers[2] == "not"@);
        lemma_rule_matches_if(rules[6], lower_text, 2);
    }
    assert forall|j: int| 0 <= j < 6 implies !rule_matches(#[trigger] rules[j], lower_text) by {}
    lemma_first_match_wins(rules, lower_text, 6);
}

} // verus!
