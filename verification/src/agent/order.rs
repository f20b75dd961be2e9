//! A deterministic order-taking state machine: fill the item and size
//! slots, confirm, and emit the order as JSON; corrections, added and
//! removed items, cancellation and unknown items are handled on the way.
use vstd::prelude::*;

use super::{Action, ActionModel};
use crate::json::{json_quoted, quote_json};
use crate::text::{
    append_chars, append_str, chars_of, contains_str, contains_word, decimal, has_substring,
    has_word, join, lowercase, lowercase_chars, push_decimal, split_words, string_of, words,
};

verus! {

/// One line of an order.
#[derive(Debug, Clone)]
pub struct OrderItem {
    pub name: String,
    pub quantity: u32,
    pub size: Option<String>,
}

/// The abstract value of an [`OrderItem`].
pub struct OrderItemModel {
    pub name: Seq<char>,
    pub quantity: u32,
    pub size: Option<Seq<char>>,
}

impl View for OrderItem {
    type V = OrderItemModel;

    open spec fn view(&self) -> OrderItemModel {
        OrderItemModel {
            name: self.name@,
            quantity: self.quantity,
            size: match self.size {
                Some(s) => Some(s@),
                None => None,
            },
        }
    }
}

/// The views of a list of items.
pub open spec fn items_view(items: Seq<OrderItem>) -> Seq<OrderItemModel> {
    items.map_values(|i: OrderItem| i@)
}

/// Where the conversation stands.
#[derive(Debug, Clone, Copy, PartialEq, Eq, Structural)]
pub enum OrderPhase {
    AwaitingItem,
    AwaitingSize,
    AwaitingConfirmation,
    Confirmed,
    Cancelled,
}

/// The abstract state of an [`OrderFlowAgent`].
pub struct OrderFlowView {
    pub menu: Seq<Seq<char>>,
    pub items: Seq<OrderItemModel>,
    pub phase: OrderPhase,
}

// ----------------------------------------------------------------------
// Words and phrases
// ----------------------------------------------------------------------

/// The number words `one` to `ten`; `number_word(k)` stands for `k + 1`.
pub open spec fn number_word(k: int) -> Seq<char> {
    if k == 0 { "one"@ }
    else if k == 1 { "two"@ }
    else if k == 2 { "three"@ }
    else if k == 3 { "four"@ }
    else if k == 4 { "five"@ }
    else if k == 5 { "six"@ }
    else if k == 6 { "seven"@ }
    else if k == 7 { "eight"@ }
    else if k == 8 { "nine"@ }
    else { "ten"@ }
}

/// The quantity named by the first of the number words `number_word(k)`,
/// `number_word(k + 1)`, ... that is a whole word of `text`.
pub open spec fn quantity_from(text: Seq<char>, k: int) -> Option<u32>
    decreases 10 - k,
{
    if k >= 10 || k < 0 {
        None
    } else if has_word(text, number_word(k)) {
        Some((k + 1) as u32)
    } else {
        quantity_from(text, k + 1)
    }
}

/// The quantity a text names in words: the smallest of `one`..`ten` that
/// occurs as a whole word (punctuation around it ignored, so `someone` does
/// not name one).
pub open spec fn quantity_in(text: Seq<char>) -> Option<u32> {
    quantity_from(text, 0)
}

/// The quantity named in `text`, or one.
pub open spec fn quantity_or_one(text: Seq<char>) -> u32 {
    match quantity_in(text) {
        Some(q) => q,
        None => 1,
    }
}

/// The size mentioned in a lowercased utterance: large, then medium, then
/// small.
pub open spec fn size_in(lower: Seq<char>) -> Option<Seq<char>> {
    if has_substring(lower, "large"@) {
        Some("large"@)
    } else if has_substring(lower, "medium"@) {
        Some("medium"@)
    } else if has_substring(lower, "small"@) {
        Some("small"@)
    } else {
        None
    }
}

/// The first menu entry whose lowercase form occurs in the lowercased
/// utterance.
pub open spec fn menu_item_in(menu: Seq<Seq<char>>, lower: Seq<char>) -> Option<Seq<char>>
    decreases menu.len(),
{
    if menu.len() == 0 {
        None
    } else if has_substring(lower, lowercase(menu[0])) {
        Some(menu[0])
    } else {
        menu_item_in(menu.drop_first(), lower)
    }
}

pub open spec fn asks_cancel(lower: Seq<char>) -> bool {
    has_substring(lower, "cancel"@)
}

pub open spec fn asks_human(lower: Seq<char>) -> bool {
    ||| has_substring(lower, "manager"@)
    ||| has_substring(lower, "supervisor"@)
    ||| has_substring(lower, "escalate"@)
    ||| has_substring(lower, "speak to a person"@)
}

pub open spec fn asks_correction(lower: Seq<char>) -> bool {
    ||| has_substring(lower, "actually"@)
    ||| has_substring(lower, "make it"@)
    ||| has_substring(lower, "change"@)
}

pub open spec fn asks_add(lower: Seq<char>) -> bool {
    has_substring(lower, "add"@) && !has_substring(lower, "address"@)
}

pub open spec fn asks_remove(lower: Seq<char>) -> bool {
    has_substring(lower, "remove"@)
}

pub open spec fn says_yes(lower: Seq<char>) -> bool {
    ||| has_substring(lower, "yes"@)
    ||| has_substring(lower, "correct"@)
    ||| has_substring(lower, "yeah"@)
    ||| has_substring(lower, "yep"@)
}

// ----------------------------------------------------------------------
// Descriptions and the order payload
// ----------------------------------------------------------------------

/// How one item is read back: `"3 medium lattes"`, `"large coffee"`; an
/// item without a size is `regular`.
pub open spec fn describe_item(item: OrderItemModel) -> Seq<char> {
    let size = match item.size {
        Some(s) => s,
        None => "regular"@,
    };
    let plural = if item.quantity > 1 { "s"@ } else { ""@ };
    if item.quantity > 1 {
        decimal(item.quantity as nat) + " "@ + size + " "@ + item.name + plural
    } else {
        size + " "@ + item.name + plural
    }
}

/// The items read back, separated by `", "`.
pub open spec fn describe(items: Seq<OrderItemModel>) -> Seq<char> {
    join(items.map_values(|i: OrderItemModel| describe_item(i)), ", "@)
}

/// One item as a compact JSON object with the keys `item`, `quantity` and
/// `size` (`null` when there is none).
pub open spec fn item_json(item: OrderItemModel) -> Seq<char> {
    "{\"item\":"@ + json_quoted(item.name) + ",\"quantity\":"@ + decimal(item.quantity as nat) + ",\"size\":"@
        + match item.size {
        Some(s) => json_quoted(s),
        None => "null"@,
    } + "}"@
}

/// The order payload: a compact JSON object whose `items` member lists the
/// items in order.
pub open spec fn order_json(items: Seq<OrderItemModel>) -> Seq<char> {
    "{\"items\":["@ + join(items.map_values(|i: OrderItemModel| item_json(i)), ","@) + "]}"@
}

// ----------------------------------------------------------------------
// The transition function
// ----------------------------------------------------------------------

pub open spec fn new_item(name: Seq<char>, quantity: u32, size: Option<Seq<char>>) -> OrderItemModel {
    OrderItemModel { name, quantity, size }
}

/// Give every item without a size the size `size`; when `quantity` is
/// given, it becomes every item's quantity.
pub open spec fn apply_size(items: Seq<OrderItemModel>, size: Seq<char>, quantity: Option<u32>) -> Seq<OrderItemModel> {
    items.map_values(
        |i: OrderItemModel|
            OrderItemModel {
                name: i.name,
                quantity: match quantity {
                    Some(q) => q,
                    None => i.quantity,
                },
                size: match i.size {
                    Some(s) => Some(s),
                    None => Some(size),
                },
            },
    )
}

pub open spec fn with_items(v: OrderFlowView, items: Seq<OrderItemModel>, phase: OrderPhase) -> OrderFlowView {
    OrderFlowView { menu: v.menu, items, phase }
}

pub open spec fn respond(text: Seq<char>) -> ActionModel {
    ActionModel::Respond(text)
}

/// The last item removed, and the reply to that; an order left empty goes
/// back to waiting for an item.
pub open spec fn remove_last(v: OrderFlowView) -> (OrderFlowView, ActionModel) {
    let rest = v.items.drop_last();
    if rest.len() == 0 {
        (with_items(v, rest, OrderPhase::AwaitingItem), respond("Removed. What would you like to order?"@))
    } else {
        (with_items(v, rest, v.phase), respond("Removed. Your order now has "@ + describe(rest) + ". Confirm?"@))
    }
}

/// The last item's quantity set to `quantity`.
pub open spec fn set_last_quantity(items: Seq<OrderItemModel>, quantity: u32) -> Seq<OrderItemModel> {
    items.update(items.len() - 1, OrderItemModel { quantity, ..items.last() })
}

/// A quantity correction: the utterance asks for a change (`actually`,
/// `make it`, `change`), names a quantity in words and no menu item, and
/// there is an item to correct.
pub open spec fn corrects_quantity(v: OrderFlowView, text: Seq<char>, lower: Seq<char>) -> bool {
    &&& asks_correction(lower)
    &&& quantity_in(text) is Some
    &&& menu_item_in(v.menu, lower) is None
    &&& v.items.len() > 0
}

pub open spec fn added_reply(items: Seq<OrderItemModel>) -> ActionModel {
    respond("Added. Your order now has "@ + describe(items) + ". Confirm?"@)
}

pub open spec fn updated_reply(items: Seq<OrderItemModel>) -> ActionModel {
    respond("Updated to "@ + describe(items) + ". What size?"@)
}

pub open spec fn sized_reply(items: Seq<OrderItemModel>) -> ActionModel {
    respond(describe(items) + ". Confirm?"@)
}

pub open spec fn not_on_menu_reply() -> ActionModel {
    respond(
        "I don't have that on the menu. We have coffee, latte, cappuccino, hot chocolate, tea, and muffins. What would you like?"@,
    )
}

/// A turn while waiting for an item: a first item, a correction, an addition
/// or a removal; other utterances change nothing.
pub open spec fn step_awaiting_item(v: OrderFlowView, text: Seq<char>, lower: Seq<char>) -> (OrderFlowView, ActionModel) {
    if v.items.len() == 0 || asks_correction(lower) || asks_add(lower) || asks_remove(lower) {
        if asks_remove(lower) && v.items.len() > 0 {
            remove_last(v)
        } else {
            match menu_item_in(v.menu, lower) {
                Some(name) => {
                    let item = new_item(name, quantity_or_one(text), size_in(lower));
                    if asks_add(lower) && v.items.len() > 0 {
                        let items = v.items.push(item);
                        (with_items(v, items, OrderPhase::AwaitingConfirmation), added_reply(items))
                    } else if size_in(lower) is None {
                        (with_items(v, seq![item], OrderPhase::AwaitingSize),
                            respond("What size \u{2014} small, medium, or large?"@))
                    } else {
                        (with_items(v, seq![item], OrderPhase::AwaitingConfirmation),
                            respond(describe(seq![item]) + " \u{2014} is that correct?. Confirm with yes or make changes."@))
                    }
                },
                None => (v, not_on_menu_reply()),
            }
        }
    } else {
        (v, ActionModel::Continue)
    }
}

/// A turn while waiting for a size: a size completes the items (and a number
/// word sets their quantity); naming a menu item starts over with it; a
/// quantity correction sets the last item's quantity.
pub open spec fn step_awaiting_size(v: OrderFlowView, text: Seq<char>, lower: Seq<char>) -> (OrderFlowView, ActionModel) {
    match size_in(lower) {
        Some(size) => {
            let items = apply_size(v.items, size, quantity_in(lower));
            (with_items(v, items, OrderPhase::AwaitingConfirmation), sized_reply(items))
        },
        None => match menu_item_in(v.menu, lower) {
            Some(name) => {
                let items = seq![new_item(name, quantity_or_one(text), None)];
                (with_items(v, items, v.phase), updated_reply(items))
            },
            None => if corrects_quantity(v, text, lower) {
                let items = set_last_quantity(v.items, quantity_in(text)->0);
                (with_items(v, items, v.phase), updated_reply(items))
            } else {
                (v, ActionModel::Continue)
            },
        },
    }
}

/// A turn while waiting for confirmation: remove, add, confirm (emitting the
/// order), complete sizes, start over with another item, or, failing all
/// of those, correct the last item's quantity.
pub open spec fn step_awaiting_confirmation(v: OrderFlowView, text: Seq<char>, lower: Seq<char>) -> (OrderFlowView, ActionModel) {
    if asks_remove(lower) && v.items.len() > 0 {
        remove_last(v)
    } else if asks_add(lower) && menu_item_in(v.menu, lower) is Some {
        let items = v.items.push(new_item(menu_item_in(v.menu, lower)->0, quantity_or_one(text), None));
        (with_items(v, items, v.phase), added_reply(items))
    } else if says_yes(lower) {
        (with_items(v, v.items, OrderPhase::Confirmed), ActionModel::Order(order_json(v.items)))
    } else if size_in(lower) is Some {
        let items = apply_size(v.items, size_in(lower)->0, None);
        (with_items(v, items, v.phase), sized_reply(items))
    } else if menu_item_in(v.menu, lower) is Some {
        let items = seq![new_item(menu_item_in(v.menu, lower)->0, quantity_or_one(text), None)];
        (with_items(v, items, v.phase), updated_reply(items))
    } else if corrects_quantity(v, text, lower) {
        let items = set_last_quantity(v.items, quantity_in(text)->0);
        (with_items(v, items, v.phase), sized_reply(items))
    } else {
        (v, ActionModel::Continue)
    }
}

/// One turn of the order conversation, given the utterance and its lowercase
/// form: cancelling and asking for a person are heard in every phase; the
/// rest depends on the phase.
pub open spec fn order_step(v: OrderFlowView, text: Seq<char>, lower: Seq<char>) -> (OrderFlowView, ActionModel) {
    if asks_cancel(lower) {
        (with_items(v, v.items, OrderPhase::Cancelled), respond("Order cancelled. Is there anything else?"@))
    } else if asks_human(lower) {
        (v, ActionModel::Escalate("manager"@))
    } else {
        match v.phase {
            OrderPhase::AwaitingItem => step_awaiting_item(v, text, lower),
            OrderPhase::AwaitingSize => step_awaiting_size(v, text, lower),
            OrderPhase::AwaitingConfirmation => step_awaiting_confirmation(v, text, lower),
            OrderPhase::Confirmed => (v, respond("Your order is already confirmed. Is there anything else?"@)),
            OrderPhase::Cancelled => (with_items(v, Seq::empty(), OrderPhase::AwaitingItem),
                respond("Starting fresh. What would you like to order?"@)),
        }
    }
}

// ----------------------------------------------------------------------
// Executable parts
// ----------------------------------------------------------------------

/// The number word for `k + 1`.
fn number_word_text(k: usize) -> (w: &'static str)
    requires
        k < 10,
    ensures
        w@ == number_word(k as int),
{
    if k == 0 { "one" }
    else if k == 1 { "two" }
    else if k == 2 { "three" }
    else if k == 3 { "four" }
    else if k == 4 { "five" }
    else if k == 5 { "six" }
    else if k == 6 { "seven" }
    else if k == 7 { "eight" }
    else if k == 8 { "nine" }
    else { "ten" }
}

/// The quantity named by the words of `text`.
fn quantity_of_words(text_words: &Vec<Vec<char>>, Ghost(text): Ghost<Seq<char>>) -> (q: Option<u32>)
    requires
        text_words.deep_view() == words(text),
    ensures
        q == quantity_in(text),
{
    let mut k: usize = 0;
    while k < 10
        invariant
            k <= 10,
            text_words.deep_view() == words(text),
            quantity_in(text) == quantity_from(text, k as int),
        decreases 10 - k,
    {
        let w = chars_of(number_word_text(k));
        if contains_word(text_words, w.as_slice(), Ghost(text)) {
            return Some((k + 1) as u32);
        }
        k = k + 1;
    }
    None
}

/// The quantity a text names with a number word from `one` to `ten` used as
/// a whole word, if any (the smallest such number when several are named).
pub fn parse_quantity(text: &str) -> (q: Option<u32>)
    ensures
        q == quantity_in(text@),
{
    let cs = chars_of(text);
    let ws = split_words(cs.as_slice());
    quantity_of_words(&ws, Ghost(text@))
}

fn quantity_or_one_of(text: &str) -> (q: u32)
    ensures
        q == quantity_or_one(text@),
{
    match parse_quantity(text) {
        Some(q) => q,
        None => 1,
    }
}

/// The size mentioned in a lowercased utterance.
fn size_of(lower: &[char]) -> (size: Option<String>)
    ensures
        size matches Some(s) ==> size_in(lower@) == Some(s@),
        size is None ==> size_in(lower@) is None,
{
    if contains_str(lower, "large") {
        Some(String::from_str("large"))
    } else if contains_str(lower, "medium") {
        Some(String::from_str("medium"))
    } else if contains_str(lower, "small") {
        Some(String::from_str("small"))
    } else {
        None
    }
}

/// Append how `item` is read back.
fn push_item_description(out: &mut Vec<char>, item: &OrderItem)
    ensures
        final(out)@ == old(out)@ + describe_item(item@),
{
    if item.quantity > 1 {
        push_decimal(out, item.quantity);
        append_str(out, " ");
    }
    match &item.size {
        Some(s) => append_str(out, s.as_str()),
        None => append_str(out, "regular"),
    }
    append_str(out, " ");
    append_str(out, item.name.as_str());
    if item.quantity > 1 {
        append_str(out, "s");
        assert(out@ =~= old(out)@ + describe_item(item@));
    } else {
        proof {
            reveal_strlit("");
        }
        assert(out@ =~= old(out)@ + describe_item(item@));
    }
}

proof fn lemma_join_step(parts: Seq<Seq<char>>, sep: Seq<char>, i: int)
    requires
        0 < i < parts.len(),
    ensures
        join(parts.subrange(0, i + 1), sep) == join(parts.subrange(0, i), sep) + sep + parts[i],
{
    let next = parts.subrange(0, i + 1);
    assert(next.drop_last() =~= parts.subrange(0, i));
}

/// The items read back as characters.
fn describe_chars(items: &[OrderItem]) -> (out: Vec<char>)
    ensures
        out@ == describe(items_view(items@)),
{
    let ghost parts = items_view(items@).map_values(|i: OrderItemModel| describe_item(i));
    let mut out: Vec<char> = Vec::new();
    let mut i: usize = 0;
    while i < items.len()
        invariant
            i <= items@.len(),
            parts == items_view(items@).map_values(|i: OrderItemModel| describe_item(i)),
            out@ == join(parts.subrange(0, i as int), ", "@),
        decreases items@.len() - i,
    {
        let ghost before = out@;
        if i > 0 {
            append_str(&mut out, ", ");
        }
        push_item_description(&mut out, &items[i]);
        proof {
            assert(parts[i as int] == describe_item(items@[i as int]@));
            if i > 0 {
                lemma_join_step(parts, ", "@, i as int);
            } else {
                assert(parts.subrange(0, 1) =~= seq![parts[0]]);
            }
        }
        i = i + 1;
    }
    assert(parts.subrange(0, items@.len() as int) =~= parts);
    out
}

/// How a list of items is read back: `"large coffee, 2 regular muffins"`.
pub fn describe_items(items: &[OrderItem]) -> (text: String)
    ensures
        text@ == describe(items_view(items@)),
{
    let cs = describe_chars(items);
    string_of(cs.as_slice())
}

/// Append `item` as a JSON object.
fn push_item_json(out: &mut Vec<char>, item: &OrderItem)
    ensures
        final(out)@ == old(out)@ + item_json(item@),
{
    append_str(out, "{\"item\":");
    let name = quote_json(item.name.as_str());
    append_str(out, name.as_str());
    append_str(out, ",\"quantity\":");
    push_decimal(out, item.quantity);
    append_str(out, ",\"size\":");
    match &item.size {
        Some(s) => {
            let q = quote_json(s.as_str());
            append_str(out, q.as_str());
        },
        None => append_str(out, "null"),
    }
    append_str(out, "}");
    assert(out@ =~= old(out)@ + item_json(item@));
}

/// The order payload for `items`, as JSON text.
fn order_payload(items: &[OrderItem]) -> (json: String)
    ensures
        json@ == order_json(items_view(items@)),
{
    let ghost parts = items_view(items@).map_values(|i: OrderItemModel| item_json(i));
    let mut out: Vec<char> = Vec::new();
    append_str(&mut out, "{\"items\":[");
    let ghost head = out@;
    let mut i: usize = 0;
    while i < items.len()
        invariant
            i <= items@.len(),
            head == "{\"items\":["@,
            parts == items_view(items@).map_values(|i: OrderItemModel| item_json(i)),
            out@ == head + join(parts.subrange(0, i as int), ","@),
        decreases items@.len() - i,
    {
        if i > 0 {
            append_str(&mut out, ",");
        }
        push_item_json(&mut out, &items[i]);
        proof {
            assert(parts[i as int] == item_json(items@[i as int]@));
            if i > 0 {
                lemma_join_step(parts, ","@, i as int);
            } else {
                assert(parts.subrange(0, 1) =~= seq![parts[0]]);
            }
            assert(out@ =~= head + join(parts.subrange(0, i + 1), ","@));
        }
        i = i + 1;
    }
    assert(parts.subrange(0, items@.len() as int) =~= parts);
    append_str(&mut out, "]}");
    assert(out@ =~= order_json(items_view(items@)));
    string_of(out.as_slice())
}

/// The default café menu.
pub open spec fn default_menu_model() -> Seq<Seq<char>> {
    seq!["coffee"@, "latte"@, "cappuccino"@, "hot chocolate"@, "tea"@, "muffin"@, "croissant"@]
}

/// The default café menu for the order-flow agent.
pub fn default_menu() -> (menu: Vec<String>)
    ensures
        menu.deep_view() == default_menu_model(),
{
    let mut menu: Vec<String> = Vec::new();
    menu.push(String::from_str("coffee"));
    menu.push(String::from_str("latte"));
    menu.push(String::from_str("cappuccino"));
    menu.push(String::from_str("hot chocolate"));
    menu.push(String::from_str("tea"));
    menu.push(String::from_str("muffin"));
    menu.push(String::from_str("croissant"));
    assert(menu.deep_view() =~= default_menu_model());
    menu
}

/// Deterministic order-flow agent: slot fill, confirm, finalize.
pub struct OrderFlowAgent {
    menu: Vec<String>,
    items: Vec<OrderItem>,
    phase: OrderPhase,
}

impl View for OrderFlowAgent {
    type V = OrderFlowView;

    closed spec fn view(&self) -> OrderFlowView {
        OrderFlowView { menu: self.menu.deep_view(), items: items_view(self.items@), phase: self.phase }
    }
}

/// `Respond` with `prefix`, the items read back, and `suffix`.
fn respond_about(prefix: &str, items: &[OrderItem], suffix: &str) -> (action: Action)
    ensures
        action@ == respond(prefix@ + describe(items_view(items@)) + suffix@),
{
    let mut out: Vec<char> = Vec::new();
    append_str(&mut out, prefix);
    let d = describe_chars(items);
    append_chars(&mut out, d.as_slice());
    append_str(&mut out, suffix);
    assert(out@ =~= prefix@ + describe(items_view(items@)) + suffix@);
    Action::Respond(string_of(out.as_slice()))
}

/// `Respond` with the items read back followed by `suffix`.
fn respond_items_then(items: &[OrderItem], suffix: &str) -> (action: Action)
    ensures
        action@ == respond(describe(items_view(items@)) + suffix@),
{
    let mut out = describe_chars(items);
    append_str(&mut out, suffix);
    Action::Respond(string_of(out.as_slice()))
}

fn reply(text: &str) -> (action: Action)
    ensures
        action@ == respond(text@),
{
    Action::Respond(String::from_str(text))
}

impl OrderFlowAgent {
    /// An agent taking orders from `menu`, waiting for a first item.
    pub fn new(menu: Vec<String>) -> (agent: Self)
        ensures
            agent@ == (OrderFlowView { menu: menu.deep_view(), items: Seq::empty(), phase: OrderPhase::AwaitingItem }),
            order_consistent(agent@),
    {
        let agent = OrderFlowAgent { menu, items: Vec::new(), phase: OrderPhase::AwaitingItem };
        assert(agent@.items =~= Seq::<OrderItemModel>::empty());
        agent
    }

    /// The first menu entry mentioned in the lowercased utterance.
    fn find_item(&self, lower: &[char]) -> (found: Option<String>)
        ensures
            found matches Some(n) ==> menu_item_in(self@.menu, lower@) == Some(n@),
            found is None ==> menu_item_in(self@.menu, lower@) is None,
    {
        let ghost menu = self@.menu;
        let n = self.menu.len();
        let mut i: usize = 0;
        assert(menu.subrange(0, n as int) =~= menu);
        while i < n
            invariant
                n == self.menu@.len(),
                menu == self.menu.deep_view(),
                i <= n,
                menu_item_in(menu, lower@) == menu_item_in(menu.subrange(i as int, n as int), lower@),
            decreases n - i,
        {
            let entry = lowercase_chars(self.menu[i].as_str());
            let ghost rest = menu.subrange(i as int, n as int);
            assert(rest[0] == self.menu@[i as int]@);
            if crate::text::contains_chars(lower, entry.as_slice()) {
                return Some(self.menu[i].clone());
            }
            assert(rest.drop_first() =~= menu.subrange(i + 1, n as int));
            i = i + 1;
        }
        None
    }

    fn remove_last_item(&mut self) -> (action: Action)
        requires
            old(self)@.items.len() > 0,
        ensures
            (final(self)@, action@) == remove_last(old(self)@),
    {
        let ghost before = self.items@;
        self.items.pop();
        assert(items_view(self.items@) =~= items_view(before).drop_last());
        if self.items.len() == 0 {
            self.phase = OrderPhase::AwaitingItem;
            reply("Removed. What would you like to order?")
        } else {
            respond_about("Removed. Your order now has ", self.items.as_slice(), ". Confirm?")
        }
    }

    fn set_single_item(&mut self, item: OrderItem)
        ensures
            final(self)@.items == seq![item@],
            final(self)@.menu == old(self)@.menu,
            final(self)@.phase == old(self)@.phase,
    {
        let mut items: Vec<OrderItem> = Vec::new();
        items.push(item);
        self.items = items;
        assert(items_view(self.items@) =~= seq![item@]);
    }

    fn push_item(&mut self, item: OrderItem)
        ensures
            final(self)@.items == old(self)@.items.push(item@),
            final(self)@.menu == old(self)@.menu,
            final(self)@.phase == old(self)@.phase,
    {
        let ghost before = self.items@;
        self.items.push(item);
        assert(items_view(self.items@) =~= items_view(before).push(item@));
    }

    fn set_last_quantity(&mut self, quantity: u32)
        requires
            old(self)@.items.len() > 0,
        ensures
            final(self)@.items == set_last_quantity(old(self)@.items, quantity),
            final(self)@.menu == old(self)@.menu,
            final(self)@.phase == old(self)@.phase,
    {
        let last = self.items.len() - 1;
        let item = OrderItem { name: self.items[last].name.clone(), quantity, size: self.items[last].size.clone() };
        let ghost before = self.items@;
        self.items.set(last, item);
        assert(items_view(self.items@) =~= set_last_quantity(items_view(before), quantity));
    }

    /// The quantity a correction sets (see [`corrects_quantity`]), if the
    /// utterance is one.
    fn quantity_correction(&self, text: &str, lower: &[char]) -> (q: Option<u32>)
        ensures
            q matches Some(n) ==> corrects_quantity(self@, text@, lower@) && quantity_in(text@) == Some(n),
            q is None ==> !corrects_quantity(self@, text@, lower@),
    {
        let is_correction = contains_str(lower, "actually") || contains_str(lower, "make it")
            || contains_str(lower, "change");
        if !is_correction || self.items.len() == 0 {
            return None;
        }
        match self.find_item(lower) {
            Some(_) => None,
            None => parse_quantity(text),
        }
    }

    fn apply_size_to_items(&mut self, size: &String, quantity: Option<u32>)
        ensures
            final(self)@.items == apply_size(old(self)@.items, size@, quantity),
            final(self)@.menu == old(self)@.menu,
            final(self)@.phase == old(self)@.phase,
    {
        let mut updated: Vec<OrderItem> = Vec::new();
        let ghost target = apply_size(self@.items, size@, quantity);
        let mut i: usize = 0;
        while i < self.items.len()
            invariant
                i <= self.items@.len(),
                target == apply_size(self@.items, size@, quantity),
                items_view(updated@) == target.subrange(0, i as int),
            decreases self.items@.len() - i,
        {
            let item = &self.items[i];
            let q = match quantity {
                Some(q) => q,
                None => item.quantity,
            };
            let sz = match &item.size {
                Some(s) => Some(s.clone()),
                None => Some(size.clone()),
            };
            let ghost before = updated@;
            updated.push(OrderItem { name: item.name.clone(), quantity: q, size: sz });
            assert(items_view(updated@) =~= items_view(before).push(target[i as int]));
            assert(target.subrange(0, i + 1) =~= target.subrange(0, i as int).push(target[i as int]));
            i = i + 1;
        }
        assert(target.subrange(0, target.len() as int) =~= target);
        self.items = updated;
    }

    fn step_item(&mut self, text: &str, lower: &[char]) -> (action: Action)
        requires
            old(self)@.phase == OrderPhase::AwaitingItem,
        ensures
            (final(self)@, action@) == step_awaiting_item(old(self)@, text@, lower@),
    {
        let is_correction = contains_str(lower, "actually") || contains_str(lower, "make it")
            || contains_str(lower, "change");
        let is_add = contains_str(lower, "add") && !contains_str(lower, "address");
        let is_remove = contains_str(lower, "remove");
        if self.items.len() == 0 || is_correction || is_add || is_remove {
            if is_remove && self.items.len() > 0 {
                return self.remove_last_item();
            }
            match self.find_item(lower) {
                Some(name) => {
                    let qty = quantity_or_one_of(text);
                    let size = size_of(lower);
                    if is_add && self.items.len() > 0 {
                        self.push_item(OrderItem { name, quantity: qty, size });
                        self.phase = OrderPhase::AwaitingConfirmation;
                        return respond_about("Added. Your order now has ", self.items.as_slice(), ". Confirm?");
                    }
                    let no_size = size.is_none();
                    self.set_single_item(OrderItem { name, quantity: qty, size });
                    if no_size {
                        self.phase = OrderPhase::AwaitingSize;
                        return reply("What size \u{2014} small, medium, or large?");
                    }
                    self.phase = OrderPhase::AwaitingConfirmation;
                    respond_items_then(self.items.as_slice(), " \u{2014} is that correct?. Confirm with yes or make changes.")
                },
                None => reply(
                    "I don't have that on the menu. We have coffee, latte, cappuccino, hot chocolate, tea, and muffins. What would you like?",
                ),
            }
        } else {
            Action::Continue
        }
    }

    fn step_size(&mut self, text: &str, lower: &[char]) -> (action: Action)
        requires
            old(self)@.phase == OrderPhase::AwaitingSize,
        ensures
            (final(self)@, action@) == step_awaiting_size(old(self)@, text@, lower@),
    {
        match size_of(lower) {
            Some(size) => {
                let lower_text = string_of(lower);
                let q = parse_quantity(lower_text.as_str());
                self.apply_size_to_items(&size, q);
                self.phase = OrderPhase::AwaitingConfirmation;
                respond_items_then(self.items.as_slice(), ". Confirm?")
            },
            None => match self.find_item(lower) {
                Some(name) => {
                    let qty = quantity_or_one_of(text);
                    self.set_single_item(OrderItem { name, quantity: qty, size: None });
                    respond_about("Updated to ", self.items.as_slice(), ". What size?")
                },
                None => match self.quantity_correction(text, lower) {
                    Some(q) => {
                        self.set_last_quantity(q);
                        respond_about("Updated to ", self.items.as_slice(), ". What size?")
                    },
                    None => Action::Continue,
                },
            },
        }
    }

    fn step_confirmation(&mut self, text: &str, lower: &[char]) -> (action: Action)
        requires
            old(self)@.phase == OrderPhase::AwaitingConfirmation,
        ensures
            (final(self)@, action@) == step_awaiting_confirmation(old(self)@, text@, lower@),
    {
        let is_add = contains_str(lower, "add") && !contains_str(lower, "address");
        let is_remove = contains_str(lower, "remove");
        if is_remove && self.items.len() > 0 {
            return self.remove_last_item();
        }
        if is_add {
            if let Some(name) = self.find_item(lower) {
                let qty = quantity_or_one_of(text);
                self.push_item(OrderItem { name, quantity: qty, size: None });
                return respond_about("Added. Your order now has ", self.items.as_slice(), ". Confirm?");
            }
        }
        if contains_str(lower, "yes") || contains_str(lower, "correct") || contains_str(lower, "yeah")
            || contains_str(lower, "yep") {
            self.phase = OrderPhase::Confirmed;
            return Action::Order(order_payload(self.items.as_slice()));
        }
        if let Some(size) = size_of(lower) {
            self.apply_size_to_items(&size, None);
            return respond_items_then(self.items.as_slice(), ". Confirm?");
        }
        if let Some(name) = self.find_item(lower) {
            let qty = quantity_or_one_of(text);
            self.set_single_item(OrderItem { name, quantity: qty, size: None });
            return respond_about("Updated to ", self.items.as_slice(), ". What size?");
        }
        if let Some(q) = self.quantity_correction(text, lower) {
            self.set_last_quantity(q);
            return respond_items_then(self.items.as_slice(), ". Confirm?");
        }
        Action::Continue
    }

    /// One turn of the conversation, given the utterance and its lowercase
    /// form.
    pub fn step(&mut self, text: &str, lower: &[char]) -> (action: Action)
        ensures
            (final(self)@, action@) == order_step(old(self)@, text@, lower@),
    {
        if contains_str(lower, "cancel") {
            self.phase = OrderPhase::Cancelled;
            return reply("Order cancelled. Is there anything else?");
        }
        if contains_str(lower, "manager") || contains_str(lower, "supervisor")
            || contains_str(lower, "escalate") || contains_str(lower, "speak to a person") {
            return Action::Escalate(String::from_str("manager"));
        }
        match self.phase {
            OrderPhase::AwaitingItem => self.step_item(text, lower),
            OrderPhase::AwaitingSize => self.step_size(text, lower),
            OrderPhase::AwaitingConfirmation => self.step_confirmation(text, lower),
            OrderPhase::Confirmed => reply("Your order is already confirmed. Is there anything else?"),
            OrderPhase::Cancelled => {
                self.phase = OrderPhase::AwaitingItem;
                self.items = Vec::new();
                assert(items_view(self.items@) =~= Seq::<OrderItemModel>::empty());
                reply("Starting fresh. What would you like to order?")
            },
        }
    }

    /// Route an utterance through the order flow.
    pub fn route(&mut self, text: &str) -> (action: Action)
        ensures
            (final(self)@, action@) == order_step(old(self)@, text@, lowercase(text@)),
    {
        let lower = lowercase_chars(text);
        self.step(text, lower.as_slice())
    }
}

// ----------------------------------------------------------------------
// Laws of the order flow
// ----------------------------------------------------------------------

/// Saying "cancel" cancels the order in every phase and keeps its items.
pub proof fn lemma_cancel_anywhere(v: OrderFlowView, text: Seq<char>, lower: Seq<char>)
    requires
        asks_cancel(lower),
    ensures
        order_step(v, text, lower).0.phase == OrderPhase::Cancelled,
        order_step(v, text, lower).0.items == v.items,
        order_step(v, text, lower).1 == respond("Order cancelled. Is there anything else?"@),
{
}

/// Asking for a person escalates in every phase and leaves the order as it
/// was.
pub proof fn lemma_escalation_keeps_order(v: OrderFlowView, text: Seq<char>, lower: Seq<char>)
    requires
        !asks_cancel(lower),
        asks_human(lower),
    ensures
        order_step(v, text, lower) == (v, ActionModel::Escalate("manager"@)),
{
}

/// An order is emitted only when a confirmation is awaited and the caller
/// agrees; the emitted payload holds exactly the items, and the order is
/// then confirmed.
pub proof fn lemma_order_only_on_confirmation(v: OrderFlowView, text: Seq<char>, lower: Seq<char>)
    requires
        order_step(v, text, lower).1 is Order,
    ensures
        v.phase == OrderPhase::AwaitingConfirmation,
        says_yes(lower),
        order_step(v, text, lower).0.phase == OrderPhase::Confirmed,
        order_step(v, text, lower).0.items == v.items,
        order_step(v, text, lower).1 == ActionModel::Order(order_json(v.items)),
{
}

/// The first item fills every slot the utterance names: while waiting for a
/// first item, an utterance naming a menu item starts the order with exactly
/// that item, the quantity said in words (one when none is said) and the
/// size said (none when none is said); with a size it goes on to
/// confirmation, without one it asks for the size.
pub proof fn lemma_first_item_fills_slots(v: OrderFlowView, text: Seq<char>, lower: Seq<char>)
    requires
        v.phase == OrderPhase::AwaitingItem,
        v.items.len() == 0,
        !asks_cancel(lower),
        !asks_human(lower),
        menu_item_in(v.menu, lower) is Some,
    ensures
        ({
            let item = OrderItemModel {
                name: menu_item_in(v.menu, lower)->0,
                quantity: quantity_or_one(text),
                size: size_in(lower),
            };
            let (next, action) = order_step(v, text, lower);
            &&& next.items == seq![item]
            &&& next.menu == v.menu
            &&& size_in(lower) is Some ==> next.phase == OrderPhase::AwaitingConfirmation
                && action == respond(describe(seq![item]) + " \u{2014} is that correct?. Confirm with yes or make changes."@)
            &&& size_in(lower) is None ==> next.phase == OrderPhase::AwaitingSize
                && action == respond("What size \u{2014} small, medium, or large?"@)
        }),
{
}

/// What the caller said is what is ordered: a first utterance naming a menu
/// item and a size, then a plain "yes", emits an order of exactly that item
/// with the quantity said in words (one when none is said) and that size.
pub proof fn lemma_said_quantity_is_ordered(menu: Seq<Seq<char>>, first: Seq<char>, yes: Seq<char>)
    requires
        menu_item_in(menu, lowercase(first)) is Some,
        size_in(lowercase(first)) is Some,
        !asks_cancel(lowercase(first)),
        !asks_human(lowercase(first)),
        says_yes(lowercase(yes)),
        !asks_cancel(lowercase(yes)),
        !asks_human(lowercase(yes)),
        !asks_remove(lowercase(yes)),
        !asks_add(lowercase(yes)),
    ensures
        ({
            let start = OrderFlowView { menu, items: Seq::empty(), phase: OrderPhase::AwaitingItem };
            let item = OrderItemModel {
                name: menu_item_in(menu, lowercase(first))->0,
                quantity: quantity_or_one(first),
                size: size_in(lowercase(first)),
            };
            let run = order_run(start, seq![first, yes]);
            &&& run.1.len() == 2
            &&& run.1[1] == ActionModel::Order(order_json(seq![item]))
            &&& run.0.phase == OrderPhase::Confirmed
            &&& run.0.items == seq![item]
        }),
{
    reveal_with_fuel(order_run, 3);
    let start = OrderFlowView { menu, items: Seq::empty(), phase: OrderPhase::AwaitingItem };
    let texts = seq![first, yes];
    assert(texts[0] == first);
    assert(texts.drop_first() =~= seq![yes]);
    assert(seq![yes][0] == yes);
    assert(seq![yes].drop_first() =~= Seq::<Seq<char>>::empty());
    lemma_first_item_fills_slots(start, first, lowercase(first));
}

/// Asking to remove drops exactly the last item, in the item and
/// confirmation phases alike; an order left empty waits for an item again.
pub proof fn lemma_remove_drops_last_item(v: OrderFlowView, text: Seq<char>, lower: Seq<char>)
    requires
        v.phase == OrderPhase::AwaitingItem || v.phase == OrderPhase::AwaitingConfirmation,
        v.items.len() > 0,
        asks_remove(lower),
        !asks_cancel(lower),
        !asks_human(lower),
    ensures
        order_step(v, text, lower).0.items == v.items.take(v.items.len() - 1),
        v.items.len() == 1 ==> order_step(v, text, lower).0.phase == OrderPhase::AwaitingItem,
        v.items.len() > 1 ==> order_step(v, text, lower).0.phase == v.phase,
{
    assert(v.items.drop_last() =~= v.items.take(v.items.len() - 1));
}

/// While confirming, adding a menu item appends it, with the quantity said
/// in words (one when none is said) and no size, keeping every earlier item.
pub proof fn lemma_add_appends_item(v: OrderFlowView, text: Seq<char>, lower: Seq<char>)
    requires
        v.phase == OrderPhase::AwaitingConfirmation,
        !asks_remove(lower),
        asks_add(lower),
        menu_item_in(v.menu, lower) is Some,
        !asks_cancel(lower),
        !asks_human(lower),
    ensures
        ({
            let next = order_step(v, text, lower).0;
            &&& next.items.len() == v.items.len() + 1
            &&& next.items.take(v.items.len() as int) == v.items
            &&& next.items.last() == (OrderItemModel {
                name: menu_item_in(v.menu, lower)->0,
                quantity: quantity_or_one(text),
                size: None,
            })
            &&& next.phase == OrderPhase::AwaitingConfirmation
        }),
{
    let next = order_step(v, text, lower).0;
    assert(next.items.take(v.items.len() as int) =~= v.items);
}

/// While a size is awaited, naming one gives it to every item that has
/// none, keeps every size already given, sets every item's quantity when a
/// number word is said (and keeps them otherwise), and moves on to
/// confirmation.
pub proof fn lemma_size_completes_items(v: OrderFlowView, text: Seq<char>, lower: Seq<char>)
    requires
        v.phase == OrderPhase::AwaitingSize,
        size_in(lower) is Some,
        !asks_cancel(lower),
        !asks_human(lower),
    ensures
        ({
            let next = order_step(v, text, lower).0;
            &&& next.phase == OrderPhase::AwaitingConfirmation
            &&& next.items.len() == v.items.len()
            &&& forall|i: int| 0 <= i < v.items.len() ==> {
                &&& (#[trigger] next.items[i]).name == v.items[i].name
                &&& next.items[i].size == (if v.items[i].size is Some { v.items[i].size } else { size_in(lower) })
                &&& next.items[i].quantity == (if quantity_in(lower) is Some { quantity_in(lower)->0 } else { v.items[i].quantity })
            }
        }),
{
}

/// While confirming, a plain yes (no removal, no item added) confirms the
/// order and emits exactly its items.
pub proof fn lemma_yes_confirms(v: OrderFlowView, text: Seq<char>, lower: Seq<char>)
    requires
        v.phase == OrderPhase::AwaitingConfirmation,
        says_yes(lower),
        !asks_remove(lower),
        !asks_add(lower),
        !asks_cancel(lower),
        !asks_human(lower),
    ensures
        order_step(v, text, lower).1 == ActionModel::Order(order_json(v.items)),
        order_step(v, text, lower).0.phase == OrderPhase::Confirmed,
        order_step(v, text, lower).0.items == v.items,
{
}

/// While confirming, "actually make it three" (a correction naming a number
/// word but no menu item, size or yes) sets the last item's quantity to the
/// number said and keeps everything else.
pub proof fn lemma_quantity_correction_sets_last(v: OrderFlowView, text: Seq<char>, lower: Seq<char>)
    requires
        v.phase == OrderPhase::AwaitingConfirmation,
        v.items.len() > 0,
        asks_correction(lower),
        quantity_in(text) is Some,
        menu_item_in(v.menu, lower) is None,
        size_in(lower) is None,
        !says_yes(lower),
        !asks_remove(lower),
        !asks_cancel(lower),
        !asks_human(lower),
    ensures
        ({
            let next = order_step(v, text, lower).0;
            let n = v.items.len() - 1;
            &&& next.phase == OrderPhase::AwaitingConfirmation
            &&& next.items.len() == v.items.len()
            &&& next.items.take(n) == v.items.take(n)
            &&& next.items[n] == (OrderItemModel { quantity: quantity_in(text)->0, ..v.items[n] })
        }),
{
    let next = order_step(v, text, lower).0;
    let n = v.items.len() - 1;
    assert(next.items.take(n) =~= v.items.take(n));
}

/// A confirmed order stays as it is unless it is cancelled.
pub proof fn lemma_confirmed_is_final(v: OrderFlowView, text: Seq<char>, lower: Seq<char>)
    requires
        v.phase == OrderPhase::Confirmed,
        !asks_cancel(lower),
    ensures
        order_step(v, text, lower).0 == v,
{
}

/// After a cancellation the next turn (unless it cancels or asks for a
/// person) starts a fresh, empty order.
pub proof fn lemma_fresh_start_after_cancel(v: OrderFlowView, text: Seq<char>, lower: Seq<char>)
    requires
        v.phase == OrderPhase::Cancelled,
        !asks_cancel(lower),
        !asks_human(lower),
    ensures
        order_step(v, text, lower).0.phase == OrderPhase::AwaitingItem,
        order_step(v, text, lower).0.items.len() == 0,
        order_step(v, text, lower).0.menu == v.menu,
{
}

proof fn lemma_quantity_from(text: Seq<char>, k: int)
    requires
        0 <= k <= 10,
    ensures
        quantity_from(text, k) matches Some(q) ==> {
            &&& k + 1 <= q <= 10
            &&& has_word(text, number_word(q - 1))
            &&& forall|m: int| k <= m < q - 1 ==> !has_word(text, #[trigger] number_word(m))
        },
        quantity_from(text, k) is None ==> forall|m: int| k <= m < 10 ==> !has_word(text, #[trigger] number_word(m)),
    decreases 10 - k,
{
    if k < 10 && !has_word(text, number_word(k)) {
        lemma_quantity_from(text, k + 1);
    }
}

/// A quantity is read only from a number word standing as a whole word of
/// the text (so `someone` names no quantity): the smallest of `one`..`ten`
/// that does; without one, there is no quantity.
pub proof fn lemma_quantity_is_whole_word(text: Seq<char>)
    ensures
        quantity_in(text) matches Some(q) ==> {
            &&& 1 <= q <= 10
            &&& has_word(text, number_word(q - 1))
            &&& forall|m: int| 0 <= m < q - 1 ==> !has_word(text, #[trigger] number_word(m))
        },
        quantity_in(text) is None ==> forall|m: int| 0 <= m < 10 ==> !has_word(text, #[trigger] number_word(m)),
{
    lemma_quantity_from(text, 0);
}

proof fn lemma_menu_item_on_menu(menu: Seq<Seq<char>>, lower: Seq<char>)
    ensures
        menu_item_in(menu, lower) matches Some(n) ==> menu.contains(n),
    decreases menu.len(),
{
    if menu.len() > 0 && !has_substring(lower, lowercase(menu[0])) {
        lemma_menu_item_on_menu(menu.drop_first(), lower);
        if menu_item_in(menu.drop_first(), lower) is Some {
            let n = menu_item_in(menu.drop_first(), lower)->0;
            let k = choose|k: int| 0 <= k < menu.drop_first().len() && menu.drop_first()[k] == n;
            assert(menu[k + 1] == n);
        }
    } else if menu.len() > 0 {
        assert(menu[0] == menu[0]);
    }
}

/// An order in a consistent state: every item names a menu entry and has a
/// quantity from one to ten, and once the item slot is filled (waiting for
/// a size or a confirmation, or confirmed) the order is not empty.
pub open spec fn order_consistent(v: OrderFlowView) -> bool {
    &&& (v.phase == OrderPhase::AwaitingSize || v.phase == OrderPhase::AwaitingConfirmation
        || v.phase == OrderPhase::Confirmed) ==> v.items.len() > 0
    &&& forall|i: int| 0 <= i < v.items.len() ==> {
        &&& v.menu.contains(#[trigger] v.items[i].name)
        &&& 1 <= v.items[i].quantity <= 10
    }
}

proof fn lemma_quantity_range(text: Seq<char>)
    ensures
        1 <= quantity_or_one(text) <= 10,
        quantity_in(text) matches Some(q) ==> 1 <= q <= 10,
{
    lemma_quantity_is_whole_word(text);
}

/// Every turn keeps an order consistent (a new agent starts consistent: no
/// items, waiting for one), adds at most one item, and never changes the
/// menu.
pub proof fn lemma_order_stays_consistent(v: OrderFlowView, text: Seq<char>, lower: Seq<char>)
    requires
        order_consistent(v),
    ensures
        order_consistent(order_step(v, text, lower).0),
        order_step(v, text, lower).0.items.len() <= v.items.len() + 1,
        order_step(v, text, lower).0.menu == v.menu,
{
    lemma_menu_item_on_menu(v.menu, lower);
    lemma_quantity_range(text);
    lemma_quantity_range(lower);
    let next = order_step(v, text, lower).0;
    assert(next.menu == v.menu);
    assert forall|i: int| 0 <= i < next.items.len() implies {
        &&& next.menu.contains(#[trigger] next.items[i].name)
        &&& 1 <= next.items[i].quantity <= 10
    } by {
        if i < v.items.len() {
            assert(v.menu.contains(v.items[i].name));
            assert(1 <= v.items[i].quantity <= 10);
        }
    }
}

/// An order is emitted only with the item slot filled: the payload lists the
/// order's items, at least one, each a menu entry with a quantity from one
/// to ten.
pub proof fn lemma_emitted_order_is_filled(v: OrderFlowView, text: Seq<char>, lower: Seq<char>)
    requires
        order_consistent(v),
        order_step(v, text, lower).1 is Order,
    ensures
        order_step(v, text, lower).1 == ActionModel::Order(order_json(v.items)),
        v.items.len() > 0,
        forall|i: int| 0 <= i < v.items.len() ==> {
            &&& v.menu.contains(#[trigger] v.items[i].name)
            &&& 1 <= v.items[i].quantity <= 10
        },
{
    lemma_order_only_on_confirmation(v, text, lower);
}

/// The turns `texts` taken in order from `v`: the final state and the
/// actions answered.
pub open spec fn order_run(v: OrderFlowView, texts: Seq<Seq<char>>) -> (OrderFlowView, Seq<ActionModel>)
    decreases texts.len(),
{
    if texts.len() == 0 {
        (v, Seq::empty())
    } else {
        let (next, action) = order_step(v, texts[0], lowercase(texts[0]));
        let (last, rest) = order_run(next, texts.drop_first());
        (last, seq![action] + rest)
    }
}

proof fn lemma_run_append(v: OrderFlowView, a: Seq<Seq<char>>, b: Seq<Seq<char>>)
    ensures
        order_run(v, a + b) == (order_run(order_run(v, a).0, b).0,
            order_run(v, a).1 + order_run(order_run(v, a).0, b).1),
    decreases a.len(),
{
    if a.len() > 0 {
        let next = order_step(v, a[0], lowercase(a[0])).0;
        assert((a + b).drop_first() =~= a.drop_first() + b);
        assert((a + b)[0] == a[0]);
        lemma_run_append(next, a.drop_first(), b);
        let r = order_run(next, a.drop_first());
        assert(seq![order_step(v, a[0], lowercase(a[0])).1] + (r.1 + order_run(r.0, b).1)
            =~= (seq![order_step(v, a[0], lowercase(a[0])).1] + r.1) + order_run(r.0, b).1);
    } else {
        assert(a + b =~= b);
        assert(Seq::<ActionModel>::empty() + order_run(v, b).1 =~= order_run(v, b).1);
    }
}

/// A run of turns keeps an order consistent.
pub proof fn lemma_run_stays_consistent(v: OrderFlowView, texts: Seq<Seq<char>>)
    requires
        order_consistent(v),
    ensures
        order_consistent(order_run(v, texts).0),
        order_run(v, texts).1.len() == texts.len(),
    decreases texts.len(),
{
    if texts.len() > 0 {
        lemma_order_stays_consistent(v, texts[0], lowercase(texts[0]));
        lemma_run_stays_consistent(order_step(v, texts[0], lowercase(texts[0])).0, texts.drop_first());
    }
}

/// A confirmed order is emitted once: while nobody says "cancel", every turn
/// keeps it as it is and answers with an escalation or "already confirmed",
/// never with another order.
pub proof fn lemma_confirmed_order_stays(v: OrderFlowView, texts: Seq<Seq<char>>)
    requires
        v.phase == OrderPhase::Confirmed,
        forall|i: int| 0 <= i < texts.len() ==> !asks_cancel(lowercase(#[trigger] texts[i])),
    ensures
        order_run(v, texts).0 == v,
        order_run(v, texts).1.len() == texts.len(),
        forall|i: int| 0 <= i < texts.len() ==> {
            ||| #[trigger] order_run(v, texts).1[i] == ActionModel::Escalate("manager"@)
            ||| order_run(v, texts).1[i] == respond("Your order is already confirmed. Is there anything else?"@)
        },
    decreases texts.len(),
{
    if texts.len() > 0 {
        let rest = texts.drop_first();
        assert forall|i: int| 0 <= i < rest.len() implies !asks_cancel(lowercase(#[trigger] rest[i])) by {
            assert(rest[i] == texts[i + 1]);
        }
        assert(!asks_cancel(lowercase(texts[0])));
        lemma_confirmed_order_stays(v, rest);
        let r = order_run(v, texts);
        assert forall|i: int| 0 <= i < texts.len() implies {
            ||| #[trigger] r.1[i] == ActionModel::Escalate("manager"@)
            ||| r.1[i] == respond("Your order is already confirmed. Is there anything else?"@)
        } by {
            if i > 0 {
                assert(r.1[i] == order_run(v, rest).1[i - 1]);
            }
        }
    }
}

/// Asking for a person, without cancelling, leaves the order as it is,
/// however many times it is asked.
pub proof fn lemma_escalations_keep_order(v: OrderFlowView, texts: Seq<Seq<char>>)
    requires
        forall|i: int| 0 <= i < texts.len() ==> {
            &&& !asks_cancel(lowercase(#[trigger] texts[i]))
            &&& asks_human(lowercase(texts[i]))
        },
    ensures
        order_run(v, texts).0 == v,
    decreases texts.len(),
{
    if texts.len() > 0 {
        let rest = texts.drop_first();
        assert forall|i: int| 0 <= i < rest.len() implies {
            &&& !asks_cancel(lowercase(#[trigger] rest[i]))
            &&& asks_human(lowercase(rest[i]))
        } by {
            assert(rest[i] == texts[i + 1]);
        }
        assert(!asks_cancel(lowercase(texts[0])) && asks_human(lowercase(texts[0])));
        lemma_escalations_keep_order(v, rest);
    }
}

/// After "cancel", whatever requests for a person follow, the next other
/// turn starts a fresh, empty order: nothing chosen before the cancel can be
/// emitted later.
pub proof fn lemma_cancel_then_fresh_start(
    v: OrderFlowView,
    cancel: Seq<char>,
    escalations: Seq<Seq<char>>,
    next: Seq<char>,
)
    requires
        asks_cancel(lowercase(cancel)),
        forall|i: int| 0 <= i < escalations.len() ==> {
            &&& !asks_cancel(lowercase(#[trigger] escalations[i]))
            &&& asks_human(lowercase(escalations[i]))
        },
        !asks_cancel(lowercase(next)),
        !asks_human(lowercase(next)),
    ensures
        ({
            let run = order_run(v, seq![cancel] + escalations + seq![next]);
            &&& run.1.len() == escalations.len() + 2
            &&& run.1[0] == respond("Order cancelled. Is there anything else?"@)
            &&& run.1.last() == respond("Starting fresh. What would you like to order?"@)
            &&& run.0.items.len() == 0
            &&& run.0.phase == OrderPhase::AwaitingItem
            &&& run.0.menu == v.menu
        }),
{
    reveal_with_fuel(order_run, 2);
    let first = seq![cancel];
    let after_cancel = order_run(v, first);
    assert(first[0] == cancel);
    assert(first.drop_first() =~= Seq::<Seq<char>>::empty());
    assert(after_cancel.0 == with_items(v, v.items, OrderPhase::Cancelled));
    lemma_escalations_keep_order(after_cancel.0, escalations);
    lemma_run_append(v, first, escalations);
    let mid = order_run(v, first + escalations);
    assert(mid.0 == after_cancel.0);
    lemma_run_append(v, first + escalations, seq![next]);
    let last_step = order_run(mid.0, seq![next]);
    assert(seq![next].drop_first() =~= Seq::<Seq<char>>::empty());
    assert(seq![next][0] == next);
    assert(last_step.1 =~= seq![respond("Starting fresh. What would you like to order?"@)]);
    lemma_run_stays_len(v, first + escalations);
    lemma_run_stays_len(v, first);
}

proof fn lemma_run_stays_len(v: OrderFlowView, texts: Seq<Seq<char>>)
    ensures
        order_run(v, texts).1.len() == texts.len(),
    decreases texts.len(),
{
    if texts.len() > 0 {
        lemma_run_stays_len(order_step(v, texts[0], lowercase(texts[0])).0, texts.drop_first());
    }
}

} // verus!
