pub mod book_side;
pub mod orderbook;
pub mod circular_orderbook;
pub mod liquidation_level;
pub mod okx_ticker;
pub mod okx_order_message;
pub mod okx_order;
pub mod level_order;
