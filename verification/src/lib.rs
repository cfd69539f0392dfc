//! A terminal download manager: the line editor of its prompt, the plan by
//! which a file is fetched in pieces, the names given to what is fetched,
//! and the decisions of its monitor mode, each with a verified contract.

pub mod rendering;
pub mod text;
pub mod interaction;
pub mod downloading;
pub mod monitor;
