//! The decisions of the upload sequencer: how a remote response is read,
//! what happens next to an entity being created, which remote parent a
//! category gets and whether a product is uploaded at all, and the inputs
//! sent for a category.

use vstd::prelude::*;
use crate::chars::{chars_of, string_of};
use crate::products::{digits, FinalProduct};
use crate::slug::{lower_of, to_lower};
use crate::text::{digits_of, is_alphanumeric_text, random_alphanumeric, Jsonstring};
use crate::tree::FinalCategory;
use crate::categories::texts_of;
use crate::product_type::FinalProductType;

verus! {

/// The error codes the remote API gives for a rejected product or category.
#[derive(Clone, Copy, PartialEq, Eq, Debug, Structural)]
pub enum ProductErrorCode {
    AlreadyExists,
    AttributeAlreadyAssigned,
    AttributeCannotBeAssigned,
    AttributeVariantsDisabled,
    MediaAlreadyAssigned,
    DuplicatedInputItem,
    GraphqlError,
    Invalid,
    InvalidPrice,
    ProductWithoutCategory,
    NotProductsImage,
    NotProductsVariant,
    NotFound,
    Required,
    Unique,
    VariantNoDigitalContent,
    CannotManageProductWithoutVariant,
    ProductNotAssignedToChannel,
    UnsupportedMediaProvider,
    PreorderVariantCannotBeDeactivated,
}

/// A structured error of a mutation.
pub struct ProductError {
    pub code: ProductErrorCode,
}

/// An error of the login mutation.
pub struct AccountError {
    pub field: Option<String>,
    pub message: Option<String>,
}

/// Why a remote call failed: the session expired, or anything else.
#[derive(Clone, Copy, PartialEq, Eq, Debug, Structural)]
pub enum SaleorGraphqlError {
    SignatureExpired,
    Other(ProductErrorCode),
}

/// The message by which the remote API says the session expired.
pub open spec fn expiry_message() -> Seq<char> {
    "Signature has expired"@
}

/// How a response is read: the first structured error fails with its code;
/// otherwise the first GraphQL-level error fails as an expired session when
/// its message says so, else as a GraphQL error; a response with neither
/// succeeds.
pub open spec fn response_outcome(
    errors: Seq<ProductErrorCode>,
    messages: Seq<Seq<char>>,
) -> Result<(), SaleorGraphqlError> {
    if errors.len() > 0 {
        Err(SaleorGraphqlError::Other(errors[0]))
    } else if messages.len() > 0 {
        if messages[0] == expiry_message() {
            Err(SaleorGraphqlError::SignatureExpired)
        } else {
            Err(SaleorGraphqlError::Other(ProductErrorCode::GraphqlError))
        }
    } else {
        Ok(())
    }
}

/// Reads a mutation response from its structured error codes and the
/// messages of its GraphQL-level errors.
pub fn classify_response(errors: &Vec<ProductErrorCode>, messages: &Vec<String>) -> (r: Result<
    (),
    SaleorGraphqlError,
>)
    ensures
        r == response_outcome(errors@, messages@.map_values(|m: String| m@)),
{
    if errors.len() > 0 {
        return Err(SaleorGraphqlError::Other(errors[0]));
    }
    if messages.len() > 0 {
        let expiry = String::from_str("Signature has expired");
        if messages[0].eq(&expiry) {
            return Err(SaleorGraphqlError::SignatureExpired);
        }
        return Err(SaleorGraphqlError::Other(ProductErrorCode::GraphqlError));
    }
    Ok(())
}

/// Where the creation of one entity stands.
#[derive(Clone, Copy, PartialEq, Eq, Debug, Structural)]
pub enum UploadState {
    Pending,
    /// A request is out; `retried_unique` tells whether the one retry after a
    /// uniqueness violation has been spent.
    Creating { retried_unique: bool },
    Created,
    Failed,
}

/// What came back for a creation request.
#[derive(Clone, Copy, PartialEq, Eq, Debug, Structural)]
pub enum UploadEvent {
    Accepted,
    Rejected(SaleorGraphqlError),
}

/// What the sequencer does next.
#[derive(Clone, Copy, PartialEq, Eq, Debug, Structural)]
pub enum UploadAction {
    /// Send the creation request.
    Submit,
    /// Log in again, then send the same request.
    ReauthenticateAndRetry,
    /// Give the slug or SKU a random suffix, then send the request again.
    MutateIdentifierAndRetry,
    /// Record the remote identifier; the entity is done.
    Record,
    /// Log the failure; the entity is done.
    LogFailure,
}

/// The transition of the upload state machine: a pending entity is
/// submitted; an accepted request is recorded; an expired session is
/// re-authenticated and retried, without limit; a uniqueness violation is
/// retried once with a mutated identifier; anything else fails the entity.
pub open spec fn upload_step(state: UploadState, event: UploadEvent) -> (UploadState, UploadAction) {
    match state {
        UploadState::Pending => (UploadState::Creating { retried_unique: false }, UploadAction::Submit),
        UploadState::Creating { retried_unique } => match event {
            UploadEvent::Accepted => (UploadState::Created, UploadAction::Record),
            UploadEvent::Rejected(SaleorGraphqlError::SignatureExpired) => (
                state,
                UploadAction::ReauthenticateAndRetry,
            ),
            UploadEvent::Rejected(SaleorGraphqlError::Other(code)) => if code
                == ProductErrorCode::Unique && !retried_unique {
                (UploadState::Creating { retried_unique: true }, UploadAction::MutateIdentifierAndRetry)
            } else {
                (UploadState::Failed, UploadAction::LogFailure)
            },
        },
        UploadState::Created => (UploadState::Created, UploadAction::Record),
        UploadState::Failed => (UploadState::Failed, UploadAction::LogFailure),
    }
}

/// One step of the upload state machine.
pub fn next_upload_step(state: UploadState, event: UploadEvent) -> (r: (UploadState, UploadAction))
    ensures
        r == upload_step(state, event),
{
    match state {
        UploadState::Pending => (UploadState::Creating { retried_unique: false }, UploadAction::Submit),
        UploadState::Creating { retried_unique } => match event {
            UploadEvent::Accepted => (UploadState::Created, UploadAction::Record),
            UploadEvent::Rejected(SaleorGraphqlError::SignatureExpired) => (
                state,
                UploadAction::ReauthenticateAndRetry,
            ),
            UploadEvent::Rejected(SaleorGraphqlError::Other(code)) => {
                if code == ProductErrorCode::Unique && !retried_unique {
                    (
                        UploadState::Creating { retried_unique: true },
                        UploadAction::MutateIdentifierAndRetry,
                    )
                } else {
                    (UploadState::Failed, UploadAction::LogFailure)
                }
            },
        },
        UploadState::Created => (UploadState::Created, UploadAction::Record),
        UploadState::Failed => (UploadState::Failed, UploadAction::LogFailure),
    }
}

/// Once an entity is created or failed it stays so, and a session expiry
/// never ends the creation of an entity.
pub proof fn lemma_upload_outcomes(state: UploadState, event: UploadEvent)
    ensures
        state == UploadState::Created ==> upload_step(state, event).0 == UploadState::Created,
        state == UploadState::Failed ==> upload_step(state, event).0 == UploadState::Failed,
        state is Creating && event == UploadEvent::Rejected(SaleorGraphqlError::SignatureExpired)
            ==> upload_step(state, event).0 == state,
{
}

/// The remote identifier to give as parent when creating node `i`: its
/// parent's, once the parent exists remotely; none for a root or when the
/// parent's upload failed (the node is then created as a root).
pub fn category_parent_remote(nodes: &Vec<FinalCategory>, i: usize) -> (r: Option<String>)
    requires
        i < nodes@.len(),
        nodes@[i as int].parent_category is Some ==> nodes@[i as int].parent_category->0 < nodes@.len(),
    ensures
        r == match nodes@[i as int].parent_category {
            Some(p) => nodes@[p as int].saleor_id,
            None => None,
        },
{
    match nodes[i].parent_category {
        Some(p) => nodes[p].saleor_id.clone(),
        None => None,
    }
}

/// The remote category of a product, which decides whether the product is
/// uploaded: only a product whose category exists remotely is.
pub fn product_upload_category(product: &FinalProduct, nodes: &Vec<FinalCategory>) -> (r: Option<
    String,
>)
    ensures
        r == match product.category {
            Some(c) => if c < nodes@.len() {
                nodes@[c as int].saleor_id
            } else {
                None
            },
            None => None,
        },
{
    match product.category {
        Some(c) => {
            if c < nodes.len() {
                nodes[c].saleor_id.clone()
            } else {
                None
            }
        },
        None => None,
    }
}

/// An identifier with a random suffix: `-` and four ASCII letters or digits.
pub fn mutate_identifier(id: &str) -> (r: String)
    ensures
        exists|suffix: Seq<char>|
            suffix.len() == 4 && is_alphanumeric_text(suffix) && #[trigger] (id@ + seq!['-'] + suffix)
                == r@,
{
    let suffix = random_alphanumeric(4);
    let mut r = String::from_str(id);
    let hyphen = "-";
    proof {
        reveal_strlit("-");
        assert(hyphen@ =~= seq!['-']);
    }
    r.append(hyphen);
    r.append(suffix.as_str());
    r
}

/// A category slug made unique among the slugs already used: kept when
/// new, else given a random suffix. The flag tells whether it was changed.
pub fn unique_category_slug(slug: &String, taken: &Vec<String>) -> (r: (String, bool))
    ensures
        r.1 == texts_of(taken@).contains(slug@),
        !r.1 ==> r.0@ == slug@,
        r.1 ==> exists|suffix: Seq<char>|
            suffix.len() == 4 && is_alphanumeric_text(suffix) && #[trigger] (slug@ + seq!['-']
                + suffix) == r.0@,
{
    let mut i: usize = 0;
    while i < taken.len()
        invariant
            i <= taken@.len(),
            forall|j: int| 0 <= j < i ==> taken@[j]@ != slug@,
        decreases taken@.len() - i,
    {
        if taken[i].eq(slug) {
            assert(texts_of(taken@)[i as int] == slug@);
            return (mutate_identifier(slug.as_str()), true);
        }
        i = i + 1;
    }
    assert(!texts_of(taken@).contains(slug@)) by {
        if texts_of(taken@).contains(slug@) {
            let k = choose|k: int|
                0 <= k < taken@.len() && #[trigger] texts_of(taken@)[k] == slug@;
            assert(taken@[k]@ == slug@);
        }
    }
    (slug.clone(), false)
}

/// A product type's slug: its name lower-cased, spaces turned into `-`.
pub open spec fn type_slug(name: Seq<char>) -> Seq<char> {
    lower_of(name).map_values(|c: char| if c == ' ' { '-' } else { c })
}

/// The slug under which a product type is created.
pub fn product_type_slug(name: &str) -> (r: String)
    ensures
        r@ == type_slug(name@),
{
    let lower = to_lower(name);
    let cs = chars_of(lower.as_str());
    let mut out: Vec<char> = Vec::new();
    let mut i: usize = 0;
    while i < cs.len()
        invariant
            i <= cs@.len(),
            cs@ == lower_of(name@),
            out@ == cs@.subrange(0, i as int).map_values(|c: char| if c == ' ' { '-' } else { c }),
        decreases cs@.len() - i,
    {
        let c = cs[i];
        out.push(if c == ' ' { '-' } else { c });
        assert(out@ =~= cs@.subrange(0, i + 1).map_values(|c: char| if c == ' ' { '-' } else { c }));
        i = i + 1;
    }
    assert(cs@.subrange(0, cs@.len() as int) =~= cs@);
    string_of(&out)
}

/// A metadata entry of a created object.
pub struct MetadataInput {
    pub key: String,
    pub value: String,
}

/// Search-engine texts of a created object.
pub struct SeoInput {
    pub title: Option<String>,
    pub description: Option<String>,
}

/// A file sent along with a mutation.
pub struct Upload(pub String);

/// A weight, as its decimal text.
pub struct WeightScalar(pub String);

/// The kind of a product type.
#[derive(Clone, Copy, PartialEq, Eq, Debug, Structural)]
pub enum ProductTypeKindEnum {
    Normal,
    GiftCard,
}

/// The input of the category-creation mutation.
pub struct CategoryInput {
    pub description: Option<Jsonstring>,
    pub name: Option<String>,
    pub slug: Option<String>,
    pub seo: Option<SeoInput>,
    pub background_image: Option<Upload>,
    pub background_image_alt: Option<String>,
    pub metadata: Option<Vec<MetadataInput>>,
    pub private_metadata: Option<Vec<MetadataInput>>,
}

/// The text of a rich-text document.
pub open spec fn document_text(d: Jsonstring) -> Seq<char> {
    d.0@
}

/// The key under which the legacy id of a created object is kept.
pub open spec fn old_id_key() -> Seq<char> {
    "old_id"@
}

/// The creation input of a category node: its (already rich-text)
/// description, its name (also as the image's alternative text), its slug,
/// and its legacy id as metadata.
pub fn category_input(node: &FinalCategory) -> (r: CategoryInput)
    ensures
        r.description is Some && document_text(r.description->0) == node.category.description@,
        r.name is Some && r.name->0@ == node.category.name@,
        r.slug is Some && r.slug->0@ == node.category.slug@,
        r.seo is None,
        r.background_image is None,
        r.background_image_alt is Some && r.background_image_alt->0@ == node.category.name@,
        r.metadata is Some && r.metadata->0@.len() == 1,
        r.metadata is Some ==> r.metadata->0@[0].key@ == old_id_key(),
        r.metadata is Some ==> r.metadata->0@[0].value@ == digits_of(node.category.id as nat),
        r.private_metadata is None,
{
    let c = &node.category;
    let id_digits = digits(c.id as usize);
    let entry = MetadataInput { key: String::from_str("old_id"), value: string_of(&id_digits) };
    CategoryInput {
        description: Some(Jsonstring(c.description.clone())),
        name: Some(c.name.clone()),
        slug: Some(c.slug.clone()),
        seo: None,
        background_image: None,
        background_image_alt: Some(c.name.clone()),
        metadata: Some(vec![entry]),
        private_metadata: None,
    }
}

/// Which product type a product is created with.
#[derive(Debug)]
pub enum TypeChoice {
    /// The type of its category, which exists remotely under this id.
    Remote(String),
    /// The type of its category, registry entry at this index, which must
    /// be created first.
    Create(usize),
    /// The default type: the product's category has none.
    Default,
}

/// The product type of a product: its category's, when it has one, else
/// the default type.
pub fn product_type_choice(
    product: &FinalProduct,
    nodes: &Vec<FinalCategory>,
    types: &Vec<FinalProductType>,
) -> (r: TypeChoice)
    ensures
        match product.category {
            Some(c) => if c < nodes@.len() && nodes@[c as int].product_type is Some
                && nodes@[c as int].product_type->0 < types@.len() {
                let t = nodes@[c as int].product_type->0;
                match types@[t as int].saleor_id {
                    Some(id) => r matches TypeChoice::Remote(x) && x@ == id@,
                    None => r == TypeChoice::Create(t),
                }
            } else {
                r == TypeChoice::Default
            },
            None => r == TypeChoice::Default,
        },
{
    match product.category {
        Some(c) => {
            if c < nodes.len() {
                match nodes[c].product_type {
                    Some(t) => {
                        if t < types.len() {
                            match &types[t].saleor_id {
                                Some(id) => TypeChoice::Remote(id.clone()),
                                None => TypeChoice::Create(t),
                            }
                        } else {
                            TypeChoice::Default
                        }
                    },
                    None => TypeChoice::Default,
                }
            } else {
                TypeChoice::Default
            }
        },
        None => TypeChoice::Default,
    }
}

/// What `rust_decimal` makes of a decimal text rounded to two places: the
/// rounded number's text, none when the text is no decimal.
pub uninterp spec fn rounded_two_places(text: Seq<char>) -> Option<Seq<char>>;

/// Relies on `rust_decimal::Decimal`'s `FromStr`, `round_dp(2)` (banker's
/// rounding) and `to_string`.
#[verifier::external_body]
fn round_two_places(text: &str) -> (r: Option<String>)
    ensures
        (r is Some) == (rounded_two_places(text@) is Some),
        r is Some ==> r->0@ == rounded_two_places(text@)->0,
{
    match <rust_decimal::Decimal as std::str::FromStr>::from_str(text) {
        Ok(d) => Some(d.round_dp(2).to_string()),
        Err(_) => None,
    }
}

/// The channel price of a product: its price rounded to two places, zero
/// when the price is no decimal, none when it has no price.
pub fn listing_price(price: &Option<String>) -> (r: Option<String>)
    ensures
        match price {
            None => r is None,
            Some(p) => r is Some && r->0@ == match rounded_two_places(p@) {
                Some(x) => x,
                None => "0.00"@,
            },
        },
{
    match price {
        None => None,
        Some(p) => match round_two_places(p.as_str()) {
            Some(x) => Some(x),
            None => Some(String::from_str("0.00")),
        },
    }
}

} // verus!
