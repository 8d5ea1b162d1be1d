//! jxcel: the decision logic of the jxcel desktop shell, verified with Verus.
pub mod text;
pub mod lifecycle;
pub mod ports;
pub mod menu;
pub mod session;
pub mod macro_apply;
pub mod macro_host;
