//! Catalog projection engine of a software installer: category index,
//! view filters, selection bookkeeping and the view coordinator.

pub mod text;
pub mod catalog;
pub mod filter;
pub mod category;
pub mod navigation;
pub mod selection;
pub mod coordinator;
