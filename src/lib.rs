pub mod amount;
pub mod catalog;
pub mod dispatch;
pub mod frame;
pub mod record;
pub mod session;
pub mod storage;
pub mod subscriptions;
pub mod window_math;
