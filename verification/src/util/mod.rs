pub mod decimal;
pub mod time_util;
pub mod okx_auth;
pub mod process_util;
