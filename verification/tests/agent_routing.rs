use rt_voice_wasm::agent::{default_menu, default_rules, describe_items, parse_action, parse_quantity};
use rt_voice_wasm::agent::{Action, IntentRouter, OrderFlowAgent, OrderItem, Rule};

#[test]
fn route_agent_request() {
    let router = IntentRouter::new(default_rules());
    let result = router.route("I want to speak to an agent please");
    assert!(matches!(result, Action::Transfer(ref d) if d == "agent"));
}

#[test]
fn route_support() {
    let router = IntentRouter::new(default_rules());
    let result = router.route("my computer is broken and not working");
    assert!(matches!(result, Action::Transfer(ref d) if d == "support"));
}

#[test]
fn route_escalate() {
    let router = IntentRouter::new(default_rules());
    let result = router.route("I need to speak to your manager right now");
    assert!(matches!(result, Action::Escalate(_)));
}

#[test]
fn route_unmatched_gets_fallback_reply() {
    let router = IntentRouter::new(default_rules());
    let result = router.route("the weather is nice today");
    assert!(
        matches!(&result, Action::Respond(r) if r.contains("didn't quite catch")),
        "unmatched utterance should get the catch-all reply, got: {:?}",
        result
    );
}

#[test]
fn route_goodbye() {
    let router = IntentRouter::new(default_rules());
    let result = router.route("thank you so much goodbye");
    assert!(matches!(result, Action::Respond(_)));
}

#[test]
fn process_agent_parse_raw_action() {
    assert!(matches!(
        parse_action("{\"Transfer\": \"support\"}"),
        Action::Transfer(ref d) if d == "support"
    ));
}

#[test]
fn process_agent_parse_dirge_wrapper() {
    let json = r#"{"type":"result","result":"{\"Respond\": \"hello\"}","duration_ms":100}"#;
    assert!(matches!(
        parse_action(json),
        Action::Respond(ref r) if r == "hello"
    ));
}

#[test]
fn process_agent_parse_hangup() {
    assert!(matches!(parse_action("{\"Hangup\": null}"), Action::Hangup));
}

#[test]
fn process_agent_parse_empty_returns_continue() {
    assert!(matches!(parse_action(""), Action::Continue));
}

#[test]
fn word_boundary_not_today_is_not_no_rule() {
    let router = IntentRouter::new(default_rules());
    let result = router.route("not today, thanks");
    assert!(
        !matches!(&result, Action::Respond(r) if r.contains("something else")),
        "'not today, thanks' should not trigger the 'not' rule, got: {:?}",
        result
    );
}

#[test]
fn phrase_not_working_still_matches() {
    let router = IntentRouter::new(default_rules());
    let result = router.route("it is not working");
    assert!(
        matches!(result, Action::Transfer(ref d) if d == "support"),
        "'it is not working' should transfer to support, got: {:?}",
        result
    );
}

#[test]
fn word_boundary_nope_still_matches() {
    let router = IntentRouter::new(default_rules());
    let result = router.route("nope");
    assert!(
        matches!(&result, Action::Respond(r) if r.contains("something else")),
        "'nope' should trigger the no rule, got: {:?}",
        result
    );
}

#[test]
fn word_boundary_yes_in_yes_please() {
    let router = IntentRouter::new(default_rules());
    let result = router.route("yes please");
    assert!(
        matches!(&result, Action::Respond(r) if r.contains("Great")),
        "'yes please' should trigger the yes rule, got: {:?}",
        result
    );
}

#[test]
fn word_boundary_agent_not_in_agentic() {
    let router = IntentRouter::new(default_rules());
    let result = router.route("this is agentic behavior");
    assert!(
        matches!(&result, Action::Respond(r) if r.contains("didn't quite catch")),
        "'agentic' should not trigger 'agent' rule, got: {:?}",
        result
    );
}

#[test]
fn word_boundary_broken_still_matches() {
    let router = IntentRouter::new(default_rules());
    let result = router.route("my computer is broken");
    assert!(
        matches!(result, Action::Transfer(ref d) if d == "support"),
        "'my computer is broken' should transfer to support, got: {:?}",
        result
    );
}

#[test]
fn word_boundary_agent_with_exclamation() {
    let router = IntentRouter::new(default_rules());
    let result = router.route("I want to speak to an agent!");
    assert!(
        matches!(result, Action::Transfer(ref d) if d == "agent"),
        "'I want to speak to an agent!' should transfer to agent, got: {:?}",
        result
    );
}

#[test]
fn word_boundary_manager_with_trailing_comma() {
    let router = IntentRouter::new(default_rules());
    let result = router.route("get me the manager,");
    assert!(
        matches!(result, Action::Escalate(_)),
        "'get me the manager,' should escalate, got: {:?}",
        result
    );
}

#[test]
fn word_boundary_help_with_question_mark() {
    let router = IntentRouter::new(default_rules());
    let result = router.route("can you help?");
    assert!(
        matches!(result, Action::Transfer(ref d) if d == "support"),
        "'can you help?' should transfer to support, got: {:?}",
        result
    );
}

#[test]
fn parse_order_action() {
    let action = parse_action(r#"{"Order": {"item": "coffee", "quantity": 2}}"#);
    assert!(matches!(action, Action::Order(ref v)
        if serde_json::from_str::<serde_json::Value>(v).unwrap()["item"] == "coffee"));
}

#[test]
fn parse_quantity_detects_number_words() {
    assert_eq!(parse_quantity("two lattes"), Some(2));
    assert_eq!(parse_quantity("make it three please"), Some(3));
    assert_eq!(parse_quantity("I'd like a coffee"), None);
}

#[test]
fn parse_quantity_rejects_embedded_words() {
    assert_eq!(parse_quantity("talk to someone"), None);
    assert_eq!(parse_quantity("call by phone"), None);
    assert_eq!(parse_quantity("leave me alone"), None);
}

#[test]
fn parse_quantity_with_punctuation() {
    assert_eq!(parse_quantity("three!"), Some(3));
    assert_eq!(parse_quantity("give me two."), Some(2));
}

#[test]
fn describe_items_singular() {
    let items = vec![OrderItem { name: "coffee".into(), quantity: 1, size: Some("large".into()) }];
    assert_eq!(describe_items(&items), "large coffee");
}

#[test]
fn describe_items_multiple_quantity() {
    let items = vec![OrderItem { name: "latte".into(), quantity: 3, size: Some("medium".into()) }];
    assert_eq!(describe_items(&items), "3 medium lattes");
}

#[test]
fn describe_items_multiple_items() {
    let items = vec![
        OrderItem { name: "coffee".into(), quantity: 1, size: Some("large".into()) },
        OrderItem { name: "muffin".into(), quantity: 2, size: None },
    ];
    assert_eq!(describe_items(&items), "large coffee, 2 regular muffins");
}

#[test]
fn order_flow_new_order() {
    let mut agent = OrderFlowAgent::new(default_menu());
    let action = agent.route("I'd like a coffee");
    assert!(
        matches!(&action, Action::Respond(r) if r.contains("size")),
        "should ask for size, got: {:?}", action
    );
}

#[test]
fn order_flow_with_size() {
    let mut agent = OrderFlowAgent::new(default_menu());
    agent.route("I'd like a large coffee");
    let action = agent.route("yes");
    assert!(matches!(action, Action::Order(_)), "should emit order, got: {:?}", action);
}

#[test]
fn order_flow_size_clarify() {
    let mut agent = OrderFlowAgent::new(default_menu());
    agent.route("I'd like a latte");
    let action = agent.route("large");
    assert!(
        matches!(&action, Action::Respond(r) if r.contains("Confirm")),
        "should confirm after size, got: {:?}", action
    );
}

#[test]
fn order_flow_confirm() {
    let mut agent = OrderFlowAgent::new(default_menu());
    agent.route("I'd like a large coffee");
    let action = agent.route("yes");
    assert!(matches!(action, Action::Order(_)), "should emit order");
}

#[test]
fn order_flow_correction() {
    let mut agent = OrderFlowAgent::new(default_menu());
    agent.route("I'd like a coffee");
    let action = agent.route("actually make it a large latte");
    assert!(
        matches!(&action, Action::Respond(r) if r.contains("Confirm")),
        "should confirm after correction, got: {:?}", action
    );
}

#[test]
fn order_flow_cancel() {
    let mut agent = OrderFlowAgent::new(default_menu());
    agent.route("I'd like a coffee");
    let action = agent.route("cancel");
    assert!(
        matches!(&action, Action::Respond(r) if r.contains("cancelled")),
        "should cancel, got: {:?}", action
    );
}

#[test]
fn order_flow_unknown_item() {
    let mut agent = OrderFlowAgent::new(default_menu());
    let action = agent.route("I'd like a pizza");
    assert!(
        matches!(&action, Action::Respond(r) if r.contains("What would you like")),
        "should prompt for known item, got: {:?}", action
    );
}

#[test]
fn call_state_routing_triggers_transfer() {
    let agent = IntentRouter::new(default_rules());
    let action = agent.route("I want to speak to an agent please");
    assert!(matches!(action, Action::Transfer(ref d) if d == "agent"));
}

// ---------------------------------------------------------------------------
// Further scenarios
// ---------------------------------------------------------------------------

#[test]
fn router_first_matching_rule_wins() {
    let rules = vec![
        Rule { triggers: vec!["help".into()], action: Action::Transfer("first".into()) },
        Rule { triggers: vec!["help".into()], action: Action::Transfer("second".into()) },
    ];
    let router = IntentRouter::new(rules);
    assert_eq!(router.route("HELP me"), Action::Transfer("first".into()));
}

#[test]
fn router_triggers_are_lowercased() {
    let rules = vec![Rule { triggers: vec!["Speak To Someone".into()], action: Action::Hangup }];
    let router = IntentRouter::new(rules);
    assert_eq!(router.route("can I speak to someone"), Action::Hangup);
}

#[test]
fn router_empty_rules_fall_back() {
    let router = IntentRouter::new(Vec::new());
    assert_eq!(
        router.route("agent"),
        Action::Respond("I didn't quite catch that. You can ask for a live agent, support, or a manager.".into())
    );
}

#[test]
fn default_rules_shape() {
    let rules = default_rules();
    assert_eq!(rules.len(), 7);
    assert_eq!(rules[1].action, Action::Transfer("agent".into()));
    assert_eq!(rules[3].triggers.len(), 8);
}

#[test]
fn parse_action_variants() {
    assert_eq!(parse_action("  {\"Respond\": \"hi\"}  "), Action::Respond("hi".into()));
    assert_eq!(parse_action("{\"Escalate\": \"angry\"}"), Action::Escalate("angry".into()));
    assert_eq!(parse_action("{\"Respond\": 5}"), Action::Continue);
    assert_eq!(parse_action("not json"), Action::Continue);
    assert_eq!(parse_action("[1, 2]"), Action::Continue);
    assert_eq!(parse_action("{\"Order\": [1,2]}"), Action::Order("[1,2]".into()));
    assert_eq!(parse_action("{\"result\": 7, \"Hangup\": true}"), Action::Hangup);
}

#[test]
fn order_flow_full_conversation_payload() {
    let mut agent = OrderFlowAgent::new(default_menu());
    assert_eq!(
        agent.route("two lattes please"),
        Action::Respond("What size \u{2014} small, medium, or large?".into())
    );
    assert_eq!(agent.route("medium"), Action::Respond("2 medium lattes. Confirm?".into()));
    assert_eq!(
        agent.route("add a muffin"),
        Action::Respond("Added. Your order now has 2 medium lattes, regular muffin. Confirm?".into())
    );
    assert_eq!(
        agent.route("yes"),
        Action::Order(
            "{\"items\":[{\"item\":\"latte\",\"quantity\":2,\"size\":\"medium\"},{\"item\":\"muffin\",\"quantity\":1,\"size\":null}]}"
                .into()
        )
    );
    assert_eq!(
        agent.route("one more thing"),
        Action::Respond("Your order is already confirmed. Is there anything else?".into())
    );
}

#[test]
fn order_flow_remove_and_restart() {
    let mut agent = OrderFlowAgent::new(default_menu());
    agent.route("a large tea");
    assert_eq!(
        agent.route("remove that"),
        Action::Respond("Removed. What would you like to order?".into())
    );
    assert_eq!(agent.route("I want to talk to a manager"), Action::Escalate("manager".into()));
    agent.route("cancel it");
    assert_eq!(
        agent.route("hello"),
        Action::Respond("Starting fresh. What would you like to order?".into())
    );
    assert_eq!(
        agent.route("a small coffee"),
        Action::Respond("small coffee \u{2014} is that correct?. Confirm with yes or make changes.".into())
    );
}

#[test]
fn order_flow_ignores_chatter_mid_order() {
    let mut agent = OrderFlowAgent::new(default_menu());
    agent.route("a small coffee");
    agent.route("great");
    assert_eq!(agent.route("hmm let me think"), Action::Continue);
}

#[test]
fn default_menu_items() {
    let menu = default_menu();
    assert_eq!(menu, vec!["coffee", "latte", "cappuccino", "hot chocolate", "tea", "muffin", "croissant"]);
}

#[test]
fn action_duplicate_is_equal() {
    let a = Action::Order("{}".into());
    assert_eq!(a.duplicate(), a);
}

#[test]
fn order_flow_quantity_correction_in_confirmation() {
    let mut agent = OrderFlowAgent::new(default_menu());
    agent.route("I'd like a large latte");
    assert_eq!(
        agent.route("actually make it three"),
        Action::Respond("3 large lattes. Confirm?".into())
    );
    let action = agent.route("yes");
    match action {
        Action::Order(payload) => {
            let v: serde_json::Value = serde_json::from_str(&payload).unwrap();
            assert_eq!(v["items"][0]["item"], "latte");
            assert_eq!(v["items"][0]["quantity"], 3);
            assert_eq!(v["items"][0]["size"], "large");
        }
        other => panic!("expected order, got {:?}", other),
    }
}

#[test]
fn order_flow_quantity_correction_while_sizing() {
    let mut agent = OrderFlowAgent::new(default_menu());
    agent.route("a coffee");
    assert_eq!(
        agent.route("actually make it two"),
        Action::Respond("Updated to 2 regular coffees. What size?".into())
    );
    assert_eq!(agent.route("small"), Action::Respond("2 small coffees. Confirm?".into()));
}

#[test]
fn order_flow_emptied_order_is_not_emitted() {
    let mut agent = OrderFlowAgent::new(default_menu());
    agent.route("a large tea");
    assert_eq!(
        agent.route("remove it"),
        Action::Respond("Removed. What would you like to order?".into())
    );
    // back to waiting for an item: "yes" emits nothing
    assert_eq!(
        agent.route("yes"),
        Action::Respond(
            "I don't have that on the menu. We have coffee, latte, cappuccino, hot chocolate, tea, and muffins. What would you like?"
                .into()
        )
    );
    agent.route("a small latte");
    assert!(matches!(agent.route("yes"), Action::Order(_)));
}

#[test]
fn order_payload_escapes_item_names() {
    let mut agent = OrderFlowAgent::new(vec!["big \"mug\"\tcafe".to_string()]);
    agent.route("one big \"mug\"\tcafe, large");
    assert_eq!(
        agent.route("yes"),
        Action::Order("{\"items\":[{\"item\":\"big \\\"mug\\\"\\tcafe\",\"quantity\":1,\"size\":\"large\"}]}".into())
    );
}

#[test]
fn parse_action_bare_strings() {
    assert_eq!(parse_action(r#""Hangup""#), Action::Hangup);
    assert_eq!(parse_action(r#"  "Hangup"  "#), Action::Hangup);
    assert_eq!(parse_action(r#""Continue""#), Action::Continue);
    assert_eq!(parse_action(r#""Respond""#), Action::Continue);
    assert_eq!(parse_action(r#"{"result":"\"Hangup\""}"#), Action::Hangup);
}

#[test]
fn order_flow_yes_and_size_come_before_quantity_correction() {
    let mut agent = OrderFlowAgent::new(default_menu());
    agent.route("a large coffee");
    agent.route("add a muffin");
    // a size completes the unsized item; the number word does not correct
    assert_eq!(
        agent.route("make it two large"),
        Action::Respond("large coffee, large muffin. Confirm?".into())
    );
    // "yes" confirms even with a number word in it
    assert_eq!(
        agent.route("yes make it two"),
        Action::Order(
            "{\"items\":[{\"item\":\"coffee\",\"quantity\":1,\"size\":\"large\"},{\"item\":\"muffin\",\"quantity\":1,\"size\":\"large\"}]}"
                .into()
        )
    );
}
