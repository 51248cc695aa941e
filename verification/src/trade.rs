//! One disclosed trade.

use vstd::prelude::*;
use crate::text::{chars_of, same};

verus! {

/// The chamber that a member sits in.
#[derive(Debug, Clone, Copy, PartialEq, Eq, Structural)]
pub enum Chamber {
    House,
    Senate,
}

/// Whose account a trade was made for.
#[derive(Debug, Clone, Copy, PartialEq, Eq, Structural)]
pub enum Owner {
    SelfFiler,
    Spouse,
    Child,
    Joint,
}

/// What kind of trade it was.
#[derive(Debug, Clone, Copy, PartialEq, Eq, Structural)]
pub enum TxnType {
    Purchase,
    Sale,
    PartialSale,
    Exchange,
}

/// The kind of trade that a transaction code stands for.
///
/// The four codes are those that a type label is normalized to. What other codes there may be, and
/// what they mean, is defined outside this library; taking every other text to stand for no type
/// is a choice made here.
pub open spec fn type_of_code(code: Seq<char>) -> Option<TxnType> {
    if code == "P"@ {
        Some(TxnType::Purchase)
    } else if code == "S"@ {
        Some(TxnType::Sale)
    } else if code == "S (partial)"@ {
        Some(TxnType::PartialSale)
    } else if code == "E"@ {
        Some(TxnType::Exchange)
    } else {
        None
    }
}

impl TxnType {
    /// The kind of trade that a transaction code stands for: `P`, `S`, `S (partial)` or `E`. That
    /// every other text stands for no type is this library's own choice.
    pub fn from_code(code: &str) -> (r: Option<TxnType>)
        ensures
            r == type_of_code(code@),
    {
        let chars = chars_of(code);
        if same(chars.as_slice(), "P") {
            Some(TxnType::Purchase)
        } else if same(chars.as_slice(), "S") {
            Some(TxnType::Sale)
        } else if same(chars.as_slice(), "S (partial)") {
            Some(TxnType::PartialSale)
        } else if same(chars.as_slice(), "E") {
            Some(TxnType::Exchange)
        } else {
            None
        }
    }
}

/// One disclosed trade.
#[derive(Debug, PartialEq)]
pub struct Trade {
    /// When the report was filed, as `YYYYMMDD`.
    pub filing_date: i32,
    pub doc_id: String,
    pub chamber: Chamber,
    pub member_name: String,
    pub party: String,
    pub bioguide_id: String,
    pub state: String,
    pub district: String,
    /// When the trade was made, as `YYYYMMDD`.
    pub txn_date: i32,
    /// When the filer was notified, as `YYYYMMDD`; 0 where it is not known.
    pub notification_date: i32,
    /// Empty where the asset has no ticker.
    pub ticker: String,
    pub asset_description: String,
    /// `stock`, `option` or `other`.
    pub asset_type: String,
    pub txn_type: TxnType,
    /// The lower end of the amount band, in whole dollars.
    pub amount_low: i64,
    /// The upper end of the amount band, in whole dollars.
    pub amount_high: i64,
    pub owner: Owner,
    pub source: String,
}

/// What a [`Trade`] holds.
pub struct TradeView {
    pub filing_date: int,
    pub doc_id: Seq<char>,
    pub chamber: Chamber,
    pub member_name: Seq<char>,
    pub party: Seq<char>,
    pub bioguide_id: Seq<char>,
    pub state: Seq<char>,
    pub district: Seq<char>,
    pub txn_date: int,
    pub notification_date: int,
    pub ticker: Seq<char>,
    pub asset_description: Seq<char>,
    pub asset_type: Seq<char>,
    pub txn_type: TxnType,
    pub amount_low: int,
    pub amount_high: int,
    pub owner: Owner,
    pub source: Seq<char>,
}

impl View for Trade {
    type V = TradeView;

    open spec fn view(&self) -> TradeView {
        TradeView {
            filing_date: self.filing_date as int,
            doc_id: self.doc_id@,
            chamber: self.chamber,
            member_name: self.member_name@,
            party: self.party@,
            bioguide_id: self.bioguide_id@,
            state: self.state@,
            district: self.district@,
            txn_date: self.txn_date as int,
            notification_date: self.notification_date as int,
            ticker: self.ticker@,
            asset_description: self.asset_description@,
            asset_type: self.asset_type@,
            txn_type: self.txn_type,
            amount_low: self.amount_low as int,
            amount_high: self.amount_high as int,
            owner: self.owner,
            source: self.source@,
        }
    }
}

/// What a list of trades holds.
pub open spec fn trade_views(trades: Seq<Trade>) -> Seq<TradeView> {
    trades.map_values(|t: Trade| t@)
}

} // verus!
