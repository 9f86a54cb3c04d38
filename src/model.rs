//! The rows read from the legacy shop database, as plain values. Timestamps
//! are seconds since the Unix epoch; prices and weights are kept as the
//! decimal text the database gave.

use vstd::prelude::*;

verus! {

/// A category row.
pub struct Category {
    pub id: u32,
    pub name: String,
    pub parent_id: Option<u32>,
    pub deleted_at: Option<i64>,
    pub slug: String,
    pub description: String,
    pub image_id: Option<u32>,
}

/// A stored file (image or document).
pub struct File {
    pub id: u32,
    pub name: String,
    pub mime_type: String,
    pub deleted_at: Option<i64>,
}

/// A link from a product to one of its files.
pub struct FileProduct {
    pub product_id: u32,
    pub file_id: u32,
}

/// A link from a product to a category; a higher `id` is a newer link.
pub struct CategoryProduct {
    pub id: u32,
    pub category_id: u32,
    pub product_id: u32,
}

/// A product row.
pub struct Product {
    pub id: u32,
    pub name: String,
    pub short_description: String,
    pub description: String,
    pub deleted_at: Option<i64>,
    pub code: String,
    pub retail_price_with_iva: Option<String>,
    pub quantity: Option<i32>,
    pub weight: Option<String>,
}

/// A per-locale text override of a category.
pub struct CategoryTexts {
    pub id: i32,
    pub name: String,
    pub description: String,
    pub language_id: u32,
    pub category_id: i32,
    pub updated_at: i64,
}

/// A per-locale text override of a product.
pub struct ProductsTexts {
    pub id: u32,
    pub name: String,
    pub short_description: String,
    pub description: String,
    pub language_id: u32,
    pub product_id: u32,
    pub updated_at: Option<i64>,
}

/// Availability of a product.
#[derive(Clone, Copy, PartialEq, Eq, Debug, Structural)]
pub enum Status {
    Available,
    Ended,
    Arrival,
}

} // verus!
