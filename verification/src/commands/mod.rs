pub mod bot_check;
pub mod bot_gamble;
pub mod bot_top;
pub mod bot_transfer;
pub mod bot_work;
