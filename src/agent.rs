use vstd::prelude::*;
use crate::codec::{decode, decode_model, lookup, strings_view, Params};

verus! {

/// What an agent does on a relayed message.
#[derive(Debug, Clone, Copy, PartialEq, Eq, Structural)]
pub enum AgentAction {
    /// The liveness probe `ping`: answer with the local account name.
    Ping,
    /// `action=do;param=caps`
    ToggleCaps,
    /// `action=do;param=lock`
    Lock,
    /// `action=do;param=close`
    CloseWindow,
    /// `action=do;param=link`: open the link in `value`.
    OpenLink,
    /// `action=do;param=mouse`: move the pointer to `value`.
    MovePointer,
    /// `action=do;param=ldown`: press the left button at `value`.
    LeftDown,
    /// `action=do;param=lup`: release the left button at `value`.
    LeftUp,
    /// `action=get`
    Get,
    /// `action=do` with a `param` not listed above.
    UnknownParam,
    /// Any other `action`, or none.
    UnknownAction,
}

/// An agent's reading of one relayed message.
pub struct AgentStep {
    pub action: AgentAction,
    /// The `param` field, empty when absent.
    pub param: String,
    /// The `value` field, empty when absent.
    pub value: String,
    /// One error reply per malformed segment, in order.
    pub errors: Vec<String>,
}

/// The value of `k`, or the empty text when absent.
pub open spec fn field_or_empty(m: Seq<(Seq<char>, Seq<char>)>, k: Seq<char>) -> Seq<char> {
    match lookup(m, k) {
        Some(v) => v,
        None => Seq::empty(),
    }
}

/// The action chosen for the `action` and `param` fields.
pub open spec fn action_model(action: Seq<char>, param: Seq<char>) -> AgentAction {
    if action == "do"@ {
        if param == "caps"@ {
            AgentAction::ToggleCaps
        } else if param == "lock"@ {
            AgentAction::Lock
        } else if param == "close"@ {
            AgentAction::CloseWindow
        } else if param == "link"@ {
            AgentAction::OpenLink
        } else if param == "mouse"@ {
            AgentAction::MovePointer
        } else if param == "ldown"@ {
            AgentAction::LeftDown
        } else if param == "lup"@ {
            AgentAction::LeftUp
        } else {
            AgentAction::UnknownParam
        }
    } else if action == "get"@ {
        AgentAction::Get
    } else {
        AgentAction::UnknownAction
    }
}

/// The error reply for a malformed segment.
pub open spec fn segment_error(seg: Seq<char>) -> Seq<char> {
    "Invalid body; expected 2 parts for arg "@ + seg
}

fn same(s: &String, lit: &str) -> (r: bool)
    ensures
        r == (s@ == lit@),
{
    *s == lit.to_owned()
}

/// Chooses the action for the `action` and `param` fields.
pub fn choose_action(action: &String, param: &String) -> (r: AgentAction)
    ensures
        r == action_model(action@, param@),
{
    if same(action, "do") {
        if same(param, "caps") {
            AgentAction::ToggleCaps
        } else if same(param, "lock") {
            AgentAction::Lock
        } else if same(param, "close") {
            AgentAction::CloseWindow
        } else if same(param, "link") {
            AgentAction::OpenLink
        } else if same(param, "mouse") {
            AgentAction::MovePointer
        } else if same(param, "ldown") {
            AgentAction::LeftDown
        } else if same(param, "lup") {
            AgentAction::LeftUp
        } else {
            AgentAction::UnknownParam
        }
    } else if same(action, "get") {
        AgentAction::Get
    } else {
        AgentAction::UnknownAction
    }
}

fn field(params: &Params, key: &str) -> (r: String)
    requires
        crate::codec::keys_unique(params@),
    ensures
        r@ == field_or_empty(params@, key@),
{
    match params.get(key) {
        Some(v) => v.clone(),
        None => String::new(),
    }
}

/// Reads a message relayed to an agent: the literal `ping` is the liveness
/// probe; anything else is decoded into its `action`, `param` and `value`
/// fields, with one error reply per malformed segment.
pub fn interpret(text: &str) -> (r: AgentStep)
    ensures
        text@ == "ping"@ ==> r.action == AgentAction::Ping && r.param@.len() == 0
            && r.value@.len() == 0 && r.errors@.len() == 0,
        text@ != "ping"@ ==> {
            let m = decode_model(text@).0;
            &&& r.action == action_model(field_or_empty(m, "action"@), field_or_empty(m, "param"@))
            &&& r.param@ == field_or_empty(m, "param"@)
            &&& r.value@ == field_or_empty(m, "value"@)
            &&& strings_view(r.errors@) == decode_model(text@).1.map_values(
                |seg: Seq<char>| segment_error(seg),
            )
        },
{
    if text.to_owned() == "ping".to_owned() {
        return AgentStep {
            action: AgentAction::Ping,
            param: String::new(),
            value: String::new(),
            errors: Vec::new(),
        };
    }
    let d = decode(text);
    let action = field(&d.params, "action");
    let param = field(&d.params, "param");
    let value = field(&d.params, "value");
    let mut errors: Vec<String> = Vec::new();
    let mut i: usize = 0;
    while i < d.malformed.len()
        invariant
            i <= d.malformed@.len(),
            strings_view(errors@) == strings_view(d.malformed@).subrange(0, i as int).map_values(
                |seg: Seq<char>| segment_error(seg),
            ),
        decreases d.malformed@.len() - i,
    {
        let mut e = String::from_str("Invalid body; expected 2 parts for arg ");
        e.append(d.malformed[i].as_str());
        let ghost before = errors@;
        errors.push(e);
        assert(strings_view(errors@) =~= strings_view(before).push(e@));
        assert(strings_view(d.malformed@).subrange(0, i as int + 1) =~= strings_view(
            d.malformed@,
        ).subrange(0, i as int).push(d.malformed@[i as int]@));
        i = i + 1;
    }
    assert(strings_view(d.malformed@).subrange(0, d.malformed@.len() as int) =~= strings_view(
        d.malformed@,
    ));
    let chosen = choose_action(&action, &param);
    AgentStep { action: chosen, param, value, errors }
}

} // verus!
