//! Desktop automation over accessibility trees: selectors, locators and
//! element handles evaluated against snapshots of the live tree.

pub mod tree;
pub mod selector;
pub mod errors;
pub mod element;
pub mod locator;
pub mod retry;
pub mod desktop;
pub mod input;
