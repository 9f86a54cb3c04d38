//! Rebuilds a legacy shop catalogue (categories, products, images, prices)
//! into a typed, deduplicated hierarchy ready to be recreated, parent before
//! child, through a remote object-creation interface.

pub mod chars;
pub mod slug;
pub mod text;
pub mod model;
pub mod product_type;
pub mod tree;
pub mod categories;
pub mod products;
pub mod upload;
