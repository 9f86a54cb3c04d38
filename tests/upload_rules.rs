use catalog_migration::product_type::FinalProductType;
use catalog_migration::products::FinalProduct;
use catalog_migration::model::Category;
use catalog_migration::tree::FinalCategory;
use catalog_migration::upload::{
    category_input, category_parent_remote, classify_response, mutate_identifier, next_upload_step,
    listing_price, product_type_choice, product_type_slug, unique_category_slug, TypeChoice, ProductErrorCode, SaleorGraphqlError, UploadAction,
    UploadEvent, UploadState,
};

fn node(id: u32, parent: Option<usize>, remote: Option<&str>) -> FinalCategory {
    let mut n = FinalCategory::new(Category {
        id,
        name: format!("n{}", id),
        parent_id: None,
        deleted_at: None,
        slug: format!("s{}", id),
        description: "{}".into(),
        image_id: None,
    });
    n.parent_category = parent;
    n.saleor_id = remote.map(|s| s.to_string());
    n
}

#[test]
fn responses_are_classified() {
    let none: Vec<String> = vec![];
    assert_eq!(classify_response(&vec![], &none), Ok(()));
    assert_eq!(
        classify_response(&vec![ProductErrorCode::Unique, ProductErrorCode::Invalid], &vec!["Signature has expired".into()]),
        Err(SaleorGraphqlError::Other(ProductErrorCode::Unique))
    );
    assert_eq!(
        classify_response(&vec![], &vec!["Signature has expired".into()]),
        Err(SaleorGraphqlError::SignatureExpired)
    );
    assert_eq!(
        classify_response(&vec![], &vec!["boom".into(), "Signature has expired".into()]),
        Err(SaleorGraphqlError::Other(ProductErrorCode::GraphqlError))
    );
}

#[test]
fn uniqueness_violation_is_retried_once() {
    let (s, a) = next_upload_step(UploadState::Pending, UploadEvent::Accepted);
    assert_eq!(a, UploadAction::Submit);
    let unique = UploadEvent::Rejected(SaleorGraphqlError::Other(ProductErrorCode::Unique));
    let (s, a) = next_upload_step(s, unique);
    assert_eq!(a, UploadAction::MutateIdentifierAndRetry);
    let (s2, a2) = next_upload_step(s, unique);
    assert_eq!(a2, UploadAction::LogFailure);
    assert_eq!(s2, UploadState::Failed);
    let (s3, a3) = next_upload_step(s, UploadEvent::Accepted);
    assert_eq!((s3, a3), (UploadState::Created, UploadAction::Record));
}

#[test]
fn session_expiry_is_retried_without_limit() {
    let mut s = UploadState::Creating { retried_unique: false };
    for _ in 0..5 {
        let (n, a) = next_upload_step(s, UploadEvent::Rejected(SaleorGraphqlError::SignatureExpired));
        assert_eq!(a, UploadAction::ReauthenticateAndRetry);
        assert_eq!(n, s);
        s = n;
    }
    let (n, a) = next_upload_step(s, UploadEvent::Rejected(SaleorGraphqlError::Other(ProductErrorCode::Invalid)));
    assert_eq!((n, a), (UploadState::Failed, UploadAction::LogFailure));
}

#[test]
fn parent_remote_id_is_used_when_present() {
    let nodes = vec![node(1, None, Some("R1")), node(2, Some(0), None), node(3, Some(1), None)];
    assert_eq!(category_parent_remote(&nodes, 0), None);
    assert_eq!(category_parent_remote(&nodes, 1).as_deref(), Some("R1"));
    assert_eq!(category_parent_remote(&nodes, 2), None);
}

#[test]
fn taken_slugs_get_a_suffix() {
    let taken = vec!["lamps".to_string()];
    let (fresh, changed) = unique_category_slug(&"chairs".to_string(), &taken);
    assert_eq!((fresh.as_str(), changed), ("chairs", false));
    let (other, changed) = unique_category_slug(&"lamps".to_string(), &taken);
    assert!(changed);
    assert_eq!(other.len(), "lamps".len() + 5);
    assert!(other.starts_with("lamps-"));
    let m = mutate_identifier("sku");
    assert!(m.starts_with("sku-") && m[4..].chars().all(|c| c.is_ascii_alphanumeric()));
}

#[test]
fn product_type_slug_is_lowercase_with_hyphens() {
    assert_eq!(product_type_slug("Základný Typ A"), "základný-typ-a");
}

#[test]
fn category_input_carries_legacy_id() {
    let n = node(352, None, None);
    let input = category_input(&n);
    assert_eq!(input.name.as_deref(), Some("n352"));
    assert_eq!(input.slug.as_deref(), Some("s352"));
    let meta = input.metadata.unwrap();
    assert_eq!(meta[0].key, "old_id");
    assert_eq!(meta[0].value, "352");
}

#[test]
fn listing_price_is_rounded_to_cents() {
    assert_eq!(listing_price(&None), None);
    assert_eq!(listing_price(&Some("12.345".to_string())).as_deref(), Some("12.34"));
    assert_eq!(listing_price(&Some("12.355".to_string())).as_deref(), Some("12.36"));
    assert_eq!(listing_price(&Some("7".to_string())).as_deref(), Some("7"));
    assert_eq!(listing_price(&Some("abc".to_string())).as_deref(), Some("0.00"));
}

#[test]
fn product_type_follows_category() {
    let mut nodes = vec![node(1, None, Some("C1")), node(2, None, Some("C2"))];
    nodes[0].product_type = Some(0);
    nodes[1].product_type = Some(1);
    let types = vec![
        FinalProductType { name: "Lamp".into(), saleor_id: Some("T0".into()) },
        FinalProductType { name: "Chair".into(), saleor_id: None },
    ];
    let mut p = FinalProduct {
        product: catalog_migration::model::Product {
            id: 1,
            name: "x".into(),
            short_description: String::new(),
            description: String::new(),
            deleted_at: None,
            code: "X".into(),
            retail_price_with_iva: None,
            quantity: None,
            weight: None,
        },
        saleor_id: None,
        category: Some(0),
        images: vec![],
        price: None,
        sku: "X 001".into(),
        slug: "x".into(),
    };
    assert!(matches!(product_type_choice(&p, &nodes, &types), TypeChoice::Remote(ref id) if id == "T0"));
    p.category = Some(1);
    assert!(matches!(product_type_choice(&p, &nodes, &types), TypeChoice::Create(1)));
    p.category = None;
    assert!(matches!(product_type_choice(&p, &nodes, &types), TypeChoice::Default));
}
