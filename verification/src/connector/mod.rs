pub mod binance_websocket_connector;
pub mod okx_websocket_connector;
