use vstd::prelude::*;

use crate::data::{GameResponse, GameResponseV};
use crate::state::{coins_view, Coin, CoinV, Coord, Status};

verus! {

#[derive(Clone, Debug, PartialEq, Eq)]
pub struct InstantiateMsg {}

/// The actions a caller can trigger.
#[derive(Clone, Debug, PartialEq, Eq)]
pub enum ExecuteMsg {
    Invite { coord: Coord, opponent: String },
    Reject { as_host: bool, opponent: String, game_id: u64 },
    Accept { coord: Coord, host: String, game_id: u64 },
    Play { as_host: bool, coord: Coord, opponent: String, game_id: u64 },
}

/// The read-only lookups.
#[derive(Clone, Debug, PartialEq, Eq)]
pub enum QueryMsg {
    GetContractVersion {},
    Game { key: QueryKey, game_id: u64 },
    Games { status: Option<Status> },
}

#[derive(Clone, Debug, PartialEq, Eq)]
pub struct QueryKey {
    pub host: String,
    pub opponent: String,
}

/// The caller of an action and the funds they attached.
#[derive(Clone, Debug, PartialEq, Eq)]
pub struct MessageInfo {
    pub sender: String,
    pub funds: Vec<Coin>,
}

pub struct MessageInfoV {
    pub sender: Seq<char>,
    pub funds: Seq<CoinV>,
}

impl View for MessageInfo {
    type V = MessageInfoV;

    open spec fn view(&self) -> MessageInfoV {
        MessageInfoV { sender: self.sender@, funds: coins_view(self.funds@) }
    }
}

/// The version record written at instantiation.
#[derive(Clone, Debug, PartialEq, Eq)]
pub struct ContractVersion {
    pub contract: String,
    pub version: String,
}

pub struct ContractVersionV {
    pub contract: Seq<char>,
    pub version: Seq<char>,
}

impl View for ContractVersion {
    type V = ContractVersionV;

    open spec fn view(&self) -> ContractVersionV {
        ContractVersionV { contract: self.contract@, version: self.version@ }
    }
}

/// A value-transfer instruction handed to the host environment.
#[derive(Clone, Debug, PartialEq, Eq)]
pub enum BankMsg {
    Send { to_address: String, amount: Vec<Coin> },
}

pub enum BankMsgV {
    Send { to_address: Seq<char>, amount: Seq<CoinV> },
}

impl View for BankMsg {
    type V = BankMsgV;

    open spec fn view(&self) -> BankMsgV {
        match self {
            BankMsg::Send { to_address, amount } => BankMsgV::Send {
                to_address: to_address@,
                amount: coins_view(amount@),
            },
        }
    }
}

/// A descriptive key-value pair a handler emits for observability.
#[derive(Clone, Debug, PartialEq, Eq)]
pub struct Attribute {
    pub key: String,
    pub value: String,
}

pub struct AttributeV {
    pub key: Seq<char>,
    pub value: Seq<char>,
}

impl View for Attribute {
    type V = AttributeV;

    open spec fn view(&self) -> AttributeV {
        AttributeV { key: self.key@, value: self.value@ }
    }
}

/// What a handler returns: value-transfer instructions plus attributes.
#[derive(Clone, Debug, PartialEq, Eq)]
pub struct Response {
    pub messages: Vec<BankMsg>,
    pub attributes: Vec<Attribute>,
}

pub struct ResponseV {
    pub messages: Seq<BankMsgV>,
    pub attributes: Seq<AttributeV>,
}

impl View for Response {
    type V = ResponseV;

    open spec fn view(&self) -> ResponseV {
        ResponseV {
            messages: self.messages@.map(|i: int, m: BankMsg| m@),
            attributes: self.attributes@.map(|i: int, a: Attribute| a@),
        }
    }
}

pub open spec fn attr(key: Seq<char>, value: Seq<char>) -> AttributeV {
    AttributeV { key, value }
}

impl Response {
    /// An empty response: no instructions, no attributes.
    pub fn new() -> (r: Response)
        ensures
            r@.messages =~= Seq::<BankMsgV>::empty(),
            r@.attributes =~= Seq::<AttributeV>::empty(),
    {
        Response { messages: Vec::new(), attributes: Vec::new() }
    }

    /// The response with one more attribute appended.
    pub fn add_attribute(self, key: &str, value: &str) -> (r: Response)
        ensures
            r@.messages == self@.messages,
            r@.attributes =~= self@.attributes.push(attr(key@, value@)),
    {
        let mut attributes = self.attributes;
        attributes.push(Attribute { key: String::from_str(key), value: String::from_str(value) });
        let r = Response { messages: self.messages, attributes };
        proof {
            assert forall|i: int| 0 <= i < r@.attributes.len() implies r@.attributes[i]
                == self@.attributes.push(attr(key@, value@))[i] by {
                assert(r@.attributes[i] == r.attributes@[i]@);
                if i < self.attributes@.len() {
                    assert(self@.attributes[i] == self.attributes@[i]@);
                }
            }
        }
        r
    }

    /// The response with one more value-transfer instruction appended.
    pub fn add_message(self, msg: BankMsg) -> (r: Response)
        ensures
            r@.attributes == self@.attributes,
            r@.messages =~= self@.messages.push(msg@),
    {
        let mut messages = self.messages;
        messages.push(msg);
        let r = Response { messages, attributes: self.attributes };
        proof {
            assert forall|i: int| 0 <= i < r@.messages.len() implies r@.messages[i]
                == self@.messages.push(msg@)[i] by {
                assert(r@.messages[i] == r.messages@[i]@);
                if i < self@.messages.len() {
                    assert(self@.messages[i] == r.messages@[i]@);
                }
            }
        }
        r
    }

    /// The response with a batch of value-transfer instructions appended.
    pub fn add_messages(self, msgs: Vec<BankMsg>) -> (r: Response)
        ensures
            r@.attributes == self@.attributes,
            r@.messages =~= self@.messages + msgs@.map(|i: int, m: BankMsg| m@),
    {
        let ghost orig = self@.messages;
        let ghost added = msgs@.map(|i: int, m: BankMsg| m@);
        let mut messages = self.messages;
        let mut rest = msgs;
        let ghost rest0 = rest@;
        proof {
            assert(added.len() == rest0.len());
        }
        let mut i: usize = 0;
        let n = rest.len();
        while i < n
            invariant
                i <= n,
                n == rest@.len(),
                rest@ == rest0,
                added.len() == n,
                added == rest0.map(|k: int, m: BankMsg| m@),
                messages@.len() == orig.len() + i,
                forall|j: int| 0 <= j < orig.len() ==> #[trigger] messages@[j]@ == orig[j],
                forall|j: int| 0 <= j < i ==> #[trigger] messages@[orig.len() + j]@ == added[j],
            decreases n - i,
        {
            proof {
                assert(rest@[i as int]@ == added[i as int]);
            }
            let m = rest[i].dup();
            messages.push(m);
            i = i + 1;
        }
        let r = Response { messages, attributes: self.attributes };
        proof {
            assert forall|j: int| 0 <= j < r@.messages.len() implies r@.messages[j] == (orig
                + added)[j] by {
                assert(r@.messages[j] == r.messages@[j]@);
                if orig.len() <= j {
                    let k = j - orig.len();
                    assert(r.messages@[orig.len() + k]@ == added[k]);
                }
            }
        }
        r
    }
}

impl BankMsg {
    /// An exact copy; the view is preserved.
    pub fn dup(&self) -> (r: BankMsg)
        ensures
            r@ == self@,
    {
        match self {
            BankMsg::Send { to_address, amount } => {
                let r = BankMsg::Send {
                    to_address: to_address.clone(),
                    amount: crate::state::clone_coins(amount),
                };
                proof {
                    match (r@, self@) {
                        (
                            BankMsgV::Send { to_address: t1, amount: a1 },
                            BankMsgV::Send { to_address: t2, amount: a2 },
                        ) => {
                            assert(a1 =~= a2);
                        },
                    }
                }
                r
            },
        }
    }
}

/// A typed query result; the surrounding layer serializes it for the wire.
#[derive(Clone, Debug, PartialEq, Eq)]
pub enum QueryAnswer {
    ContractVersion(ContractVersion),
    Games(Vec<GameResponse>),
}

pub enum QueryAnswerV {
    ContractVersion(ContractVersionV),
    Games(Seq<GameResponseV>),
}

impl View for QueryAnswer {
    type V = QueryAnswerV;

    open spec fn view(&self) -> QueryAnswerV {
        match self {
            QueryAnswer::ContractVersion(v) => QueryAnswerV::ContractVersion(v@),
            QueryAnswer::Games(v) => QueryAnswerV::Games(
                v@.map(|i: int, g: GameResponse| g@),
            ),
        }
    }
}

} // verus!
