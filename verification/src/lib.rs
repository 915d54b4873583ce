//! Infobar, overlay and action-instance logic of a Stream Deck controller.

pub mod banner;
pub mod codec;
pub mod device;
pub mod events;
pub mod instances;
pub mod maps;
pub mod model;
pub mod overlay;
pub mod profiles;
pub mod slots;
pub mod stack;
pub mod states;
pub mod text;
