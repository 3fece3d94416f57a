//! Verified core of the jybot trading bot: data-directory layout, the `.env`
//! configuration file format, the service PID file, the management panel's
//! decisions and the backtest's bookkeeping.

pub mod backtest;
pub mod decimal;
pub mod envfile;
pub mod panel;
pub mod paths;
pub mod service;
pub mod text;
