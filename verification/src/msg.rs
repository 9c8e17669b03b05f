//! The commands and queries the engine takes, and what it answers.

use vstd::prelude::*;

verus! {

/// Sets the ledger up with what has been deposited before.
#[derive(Clone, Copy, Debug, PartialEq, Eq)]
pub struct InstantiateMsg {
    pub total_deposit: u32,
}

/// A command. Each changes the store or reports on it, and leaves a record.
#[derive(Debug, PartialEq, Eq)]
pub enum ExecuteMsg {
    /// Adds `amount` to the pool.
    Deposit { amount: u32 },
    /// Records `score` for the participant `sender`.
    RecordContribution { sender: String, score: u32 },
    /// Computes every participant's share of the profit.
    DistributeProfit {  },
    /// Sets the profit that is to be shared.
    RecordTotalProfit { total_profit: u32 },
    /// Sets the reference to the shared model.
    SetGlobalModelCID { cid: String },
}

/// A command as a mathematical value.
pub enum ExecuteMsgView {
    Deposit { amount: u32 },
    RecordContribution { sender: Seq<char>, score: u32 },
    DistributeProfit,
    RecordTotalProfit { total_profit: u32 },
    SetGlobalModelCID { cid: Seq<char> },
}

impl View for ExecuteMsg {
    type V = ExecuteMsgView;

    open spec fn view(&self) -> ExecuteMsgView {
        match *self {
            ExecuteMsg::Deposit { amount } => ExecuteMsgView::Deposit { amount },
            ExecuteMsg::RecordContribution { sender, score } => ExecuteMsgView::RecordContribution {
                sender: sender@,
                score,
            },
            ExecuteMsg::DistributeProfit {  } => ExecuteMsgView::DistributeProfit,
            ExecuteMsg::RecordTotalProfit { total_profit } => ExecuteMsgView::RecordTotalProfit {
                total_profit,
            },
            ExecuteMsg::SetGlobalModelCID { cid } => ExecuteMsgView::SetGlobalModelCID { cid: cid@ },
        }
    }
}

impl Clone for ExecuteMsg {
    fn clone(&self) -> (r: Self)
        ensures
            r@ == self@,
    {
        match self {
            ExecuteMsg::Deposit { amount } => ExecuteMsg::Deposit { amount: *amount },
            ExecuteMsg::RecordContribution { sender, score } => ExecuteMsg::RecordContribution {
                sender: sender.clone(),
                score: *score,
            },
            ExecuteMsg::DistributeProfit {  } => ExecuteMsg::DistributeProfit {  },
            ExecuteMsg::RecordTotalProfit { total_profit } => ExecuteMsg::RecordTotalProfit {
                total_profit: *total_profit,
            },
            ExecuteMsg::SetGlobalModelCID { cid } => ExecuteMsg::SetGlobalModelCID {
                cid: cid.clone(),
            },
        }
    }
}

/// A question about the ledger. Answering changes nothing.
#[derive(Clone, Copy, Debug, PartialEq, Eq)]
pub enum QueryMsg {
    GetTotalDeposit {  },
    GetGlobalModelCID {  },
}

/// The answer to a query.
#[derive(Debug, PartialEq, Eq)]
pub enum QueryResponse {
    TotalDeposit(u32),
    GlobalModelCID(String),
}

/// An answer as a mathematical value.
pub enum QueryResponseView {
    TotalDeposit(u32),
    GlobalModelCID(Seq<char>),
}

impl View for QueryResponse {
    type V = QueryResponseView;

    open spec fn view(&self) -> QueryResponseView {
        match *self {
            QueryResponse::TotalDeposit(amount) => QueryResponseView::TotalDeposit(amount),
            QueryResponse::GlobalModelCID(cid) => QueryResponseView::GlobalModelCID(cid@),
        }
    }
}

/// What one participant receives in a distribution.
#[derive(Debug, PartialEq, Eq)]
pub struct Share {
    pub participant: String,
    pub amount: u32,
}

impl View for Share {
    type V = (Seq<char>, u32);

    open spec fn view(&self) -> (Seq<char>, u32) {
        (self.participant@, self.amount)
    }
}

/// The shares of a distribution as mathematical values, in the same order.
pub open spec fn share_views(shares: Seq<Share>) -> Seq<(Seq<char>, u32)> {
    shares.map_values(|s: Share| s@)
}

/// The record that a command leaves when it succeeds. It says what was
/// done and holds no state of its own.
#[derive(Debug, PartialEq, Eq)]
pub enum ActionRecord {
    Deposit { amount: u32 },
    RecordContribution { sender: String, score: u32 },
    DistributeProfit { distribution: Vec<Share> },
    RecordTotalProfit { total_profit: u32 },
    SetGlobalModelCID { cid: String },
}

/// A record as a mathematical value.
pub enum ActionRecordView {
    Deposit { amount: u32 },
    RecordContribution { sender: Seq<char>, score: u32 },
    DistributeProfit { distribution: Seq<(Seq<char>, u32)> },
    RecordTotalProfit { total_profit: u32 },
    SetGlobalModelCID { cid: Seq<char> },
}

impl View for ActionRecord {
    type V = ActionRecordView;

    open spec fn view(&self) -> ActionRecordView {
        match *self {
            ActionRecord::Deposit { amount } => ActionRecordView::Deposit { amount },
            ActionRecord::RecordContribution { sender, score } => {
                ActionRecordView::RecordContribution { sender: sender@, score }
            },
            ActionRecord::DistributeProfit { distribution } => ActionRecordView::DistributeProfit {
                distribution: share_views(distribution@),
            },
            ActionRecord::RecordTotalProfit { total_profit } => ActionRecordView::RecordTotalProfit {
                total_profit,
            },
            ActionRecord::SetGlobalModelCID { cid } => ActionRecordView::SetGlobalModelCID {
                cid: cid@,
            },
        }
    }
}

} // verus!
