//! The OKX order-channel push message: its subscription argument and order records.
use vstd::prelude::*;

verus! {

/// One order record of an OKX order-channel push (all fields as the exchange
/// sends them, as text).
#[derive(Debug)]
pub struct OrderData {
    pub inst_type: String,
    pub inst_id: String,
    pub tgt_ccy: String,
    pub ccy: String,
    pub ord_id: String,
    pub cl_ord_id: String,
    pub algo_cl_ord_id: String,
    pub algo_id: String,
    pub tag: String,
    pub px: String,
    pub sz: String,
    pub notional_usd: String,
    pub ord_type: String,
    pub side: String,
    pub pos_side: String,
    pub td_mode: String,
    pub acc_fill_sz: String,
    pub fill_notional_usd: String,
    pub avg_px: String,
    pub state: String,
    pub lever: String,
    pub pnl: String,
    pub fee_ccy: String,
    pub fee: String,
    pub rebate_ccy: String,
    pub rebate: String,
    pub category: String,
    pub u_time: String,
    pub c_time: String,
    pub source: String,
    pub reduce_only: String,
    pub cancel_source: String,
    pub quick_mgn_type: String,
    pub stp_id: String,
    pub stp_mode: String,
    pub attach_algo_cl_ord_id: String,
    pub last_px: String,
    pub is_tp_limit: String,
    pub sl_trigger_px: String,
    pub sl_trigger_px_type: String,
    pub tp_ord_px: String,
    pub tp_trigger_px: String,
    pub tp_trigger_px_type: String,
    pub sl_ord_px: String,
    pub fill_px: String,
    pub trade_id: String,
    pub fill_sz: String,
    pub fill_time: String,
    pub fill_pnl: String,
    pub fill_fee: String,
    pub fill_fee_ccy: String,
    pub exec_type: String,
    pub fill_px_vol: String,
    pub fill_px_usd: String,
    pub fill_mark_vol: String,
    pub fill_fwd_px: String,
    pub fill_mark_px: String,
    pub amend_source: String,
    pub req_id: String,
    pub amend_result: String,
    pub code: String,
    pub msg: String,
    pub px_type: String,
    pub px_usd: String,
    pub px_vol: String,
    pub linked_algo_ord: LinkedAlgoOrd,
    pub attach_algo_ords: Vec<serde_json::Value>,
}

/// The algo order linked to an order.
#[derive(Debug, Clone)]
pub struct LinkedAlgoOrd {
    pub algo_id: String,
}

/// The subscription a push message answers.
#[derive(Debug, Clone)]
pub struct Arg {
    pub channel: String,
    pub inst_type: String,
    pub inst_id: String,
    pub uid: String,
}

/// An OKX order-channel push message.
#[derive(Debug)]
pub struct OkxOrderMessage {
    pub arg: Arg,
    pub data: Vec<OrderData>,
}

} // verus!
