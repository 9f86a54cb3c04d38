use catalog_migration::categories::{default_exclusions, surviving_rows, CategoryTree};
use catalog_migration::model::{Category, CategoryProduct, CategoryTexts, File, FileProduct, Product, ProductsTexts};
use catalog_migration::product_type::{FinalProductType, TypeLookup, YamlCategories};
use catalog_migration::products::{dedup_skus, media_url, newest_link, FinalProduct, NamePolicy};
use catalog_migration::tree::{build_tree, FinalCategory};

fn cat(id: u32, parent: Option<u32>, name: &str) -> Category {
    Category {
        id,
        name: name.to_string(),
        parent_id: parent,
        deleted_at: None,
        slug: format!("slug-{}", id),
        description: String::new(),
        image_id: None,
    }
}

fn yaml(id: u32, kind_name: &str, children: Vec<YamlCategories>) -> YamlCategories {
    YamlCategories { meno_typu: kind_name.to_string(), meno: format!("c{}", id), id, podkategorie: children }
}

fn product(id: u32, name: &str, code: &str) -> Product {
    Product {
        id,
        name: name.to_string(),
        short_description: String::new(),
        description: String::new(),
        deleted_at: None,
        code: code.to_string(),
        retail_price_with_iva: None,
        quantity: None,
        weight: None,
    }
}

fn empty_tree() -> YamlCategories {
    yaml(u32::MAX, "", vec![])
}

fn build(cats: Vec<Category>, excluded: &Vec<String>) -> CategoryTree {
    let mut types = Vec::new();
    FinalCategory::from_categories(cats, &vec![], &vec![], excluded, &empty_tree(), &mut types)
}

fn depth(nodes: &[FinalCategory], mut i: usize) -> usize {
    let mut d = 0;
    while let Some(p) = nodes[i].parent_category {
        assert!(p < i);
        i = p;
        d += 1;
    }
    d
}

#[test]
fn sku_suffixes_count_occurrences() {
    let codes: Vec<String> = ["A", "A", "B", "A"].iter().map(|s| s.to_string()).collect();
    assert_eq!(dedup_skus(&codes), vec!["A 001", "A 002", "B 001", "A 003"]);
}

#[test]
fn sku_suffix_grows_past_two_digits() {
    let codes: Vec<String> = (0..101).map(|_| "Z".to_string()).collect();
    let out = dedup_skus(&codes);
    assert_eq!(out[9], "Z 010");
    assert_eq!(out[99], "Z 100");
    assert_eq!(out[100], "Z 101");
    assert!(dedup_skus(&vec![]).is_empty());
}

#[test]
fn excluded_root_promotes_child_to_root() {
    let excluded = vec!["Root2".to_string()];
    let tree = build(vec![cat(1, None, "Root2"), cat(2, Some(1), "Sub")], &excluded);
    assert_eq!(tree.nodes.len(), 1);
    assert_eq!(tree.nodes[0].category.id, 2);
    assert!(tree.nodes[0].parent_category.is_none());
    assert_eq!(tree.kept, vec![0]);
}

#[test]
fn parent_without_name_is_linked_but_not_created() {
    let tree = build(vec![cat(2, Some(1), "Sub"), cat(1, None, ""), cat(3, None, "Top")], &vec![]);
    let ids: Vec<u32> = tree.nodes.iter().map(|n| n.category.id).collect();
    assert_eq!(ids, vec![1, 3, 2]);
    assert_eq!(tree.nodes[2].parent_category, Some(0));
    assert_eq!(tree.kept, vec![1, 2]);
    assert!(tree.nodes[0].product_type.is_none());
}

#[test]
fn first_filter_drops_noise() {
    let mut deleted = cat(4, None, "Old");
    deleted.deleted_at = Some(1);
    let rows = vec![cat(1, None, "Lamps"), cat(2, None, "TEST lamps"), cat(3, None, "Root"), deleted];
    let kept = surviving_rows(&rows, &vec![], &default_exclusions());
    assert_eq!(kept.len(), 1);
    assert_eq!(kept[0].id, 1);
}

#[test]
fn missing_name_is_backfilled_from_latest_override() {
    let texts = vec![
        CategoryTexts { id: 1, name: "Older".into(), description: "old".into(), language_id: 1, category_id: 7, updated_at: 10 },
        CategoryTexts { id: 2, name: "Newer".into(), description: "new".into(), language_id: 1, category_id: 7, updated_at: 20 },
        CategoryTexts { id: 3, name: "Other".into(), description: "x".into(), language_id: 1, category_id: 8, updated_at: 99 },
    ];
    let rows = vec![cat(7, None, ""), cat(8, None, "Kept"), cat(9, None, "")];
    let kept = surviving_rows(&rows, &texts, &vec![]);
    assert_eq!(kept.len(), 2);
    assert_eq!(kept[0].name, "Newer");
    assert_eq!(kept[0].description, "new");
    assert_eq!(kept[1].name, "Kept");
    assert_eq!(kept[1].description, "x");
}

#[test]
fn tree_lists_parents_before_children_by_depth() {
    let rows = vec![
        cat(30, Some(20), "Leaf"),
        cat(20, Some(10), "Mid"),
        cat(10, None, "Top"),
        cat(40, Some(99), "Orphan"),
        cat(21, Some(10), "Mid2"),
    ];
    let nodes = build_tree(&rows);
    assert_eq!(nodes.len(), 5);
    let ids: Vec<u32> = nodes.iter().map(|n| n.category.id).collect();
    assert_eq!(ids, vec![10, 40, 20, 21, 30]);
    let depths: Vec<usize> = (0..nodes.len()).map(|i| depth(&nodes, i)).collect();
    assert_eq!(depths, vec![0, 0, 1, 1, 2]);
    for (i, n) in nodes.iter().enumerate() {
        if let Some(p) = n.parent_category {
            assert!(p < i);
            assert_eq!(Some(nodes[p].category.id), n.category.parent_id);
            assert_eq!(depths[i], depths[p] + 1);
        }
    }
}

#[test]
fn cycle_in_source_ids_is_left_out() {
    let rows = vec![cat(1, Some(2), "A"), cat(2, Some(1), "B"), cat(3, None, "C")];
    let nodes = build_tree(&rows);
    assert_eq!(nodes.len(), 1);
    assert_eq!(nodes[0].category.id, 3);
}

#[test]
fn categories_get_images_and_documents() {
    let mut c = cat(1, None, "Lamps");
    c.image_id = Some(5);
    c.description = r#"{"sk":"Nice &amp; bright"}"#.to_string();
    let files = vec![
        File { id: 4, name: "other.png".into(), mime_type: "image/png".into(), deleted_at: None },
        File { id: 5, name: "lamps.jpg".into(), mime_type: "image/jpeg".into(), deleted_at: None },
    ];
    let mut types = Vec::new();
    let nodes = FinalCategory::from_categories(vec![c, cat(2, None, "Chairs")], &files, &vec![], &vec![], &empty_tree(), &mut types).nodes;
    assert_eq!(nodes[0].image.as_deref(), Some("lamps.jpg"));
    assert!(nodes[1].image.is_none());
    let v: serde_json::Value = serde_json::from_str(&nodes[0].category.description).unwrap();
    assert_eq!(v["blocks"][0]["data"]["text"].as_str().unwrap(), "Nice & bright");
}

#[test]
fn product_type_inherits_from_named_ancestor() {
    let tree = yaml(0, "", vec![yaml(1, "Lamp", vec![yaml(2, "", vec![]), yaml(3, "", vec![])]), yaml(4, "", vec![])]);
    match tree.search(2) {
        TypeLookup::Found(n) => assert_eq!(n, "Lamp"),
        _ => panic!("expected a type"),
    }
    assert!(matches!(tree.search(4), TypeLookup::Inherit));
    assert!(matches!(tree.search(77), TypeLookup::Absent));
    let mut types: Vec<FinalProductType> = Vec::new();
    let a = tree.find_product_type(2, &mut types);
    let b = tree.find_product_type(3, &mut types);
    assert_eq!(a, Some(0));
    assert_eq!(a, b);
    assert_eq!(types.len(), 1);
    assert_eq!(types[0].name, "Lamp");
    assert_eq!(tree.find_product_type(4, &mut types), None);
    assert_eq!(types.len(), 1);
}

#[test]
fn deepest_own_name_wins_over_inheritance() {
    let tree = yaml(0, "Decor", vec![yaml(1, "", vec![yaml(2, "Candle", vec![])]), yaml(5, "", vec![])]);
    match tree.search(2) {
        TypeLookup::Found(n) => assert_eq!(n, "Candle"),
        _ => panic!("expected a type"),
    }
    match tree.search(1) {
        TypeLookup::Found(n) => assert_eq!(n, "Decor"),
        _ => panic!("expected a type"),
    }
}

#[test]
fn categories_share_product_types() {
    let tree = yaml(0, "", vec![yaml(1, "Lamp", vec![yaml(2, "", vec![])])]);
    let mut types = Vec::new();
    let nodes = FinalCategory::from_categories(
        vec![cat(1, None, "Lamps"), cat(2, Some(1), "Desk lamps")],
        &vec![],
        &vec![],
        &vec![],
        &tree,
        &mut types,
    )
    .nodes;
    assert_eq!(types.len(), 1);
    assert_eq!(nodes[0].product_type, Some(0));
    assert_eq!(nodes[1].product_type, Some(0));
    assert_eq!(nodes[1].parent_category, Some(0));
}

#[test]
fn last_layer_lists_leaf_paths() {
    let tree = yaml(u32::MAX, "", vec![yaml(1, "", vec![yaml(3, "", vec![]), yaml(4, "", vec![])]), yaml(2, "", vec![])]);
    assert_eq!(tree.get_last_layer(&vec![4, 2, 1]), vec![vec![0, 1], vec![1]]);
    assert!(tree.get_last_layer(&vec![]).is_empty());
}

#[test]
fn newest_link_wins() {
    let links = vec![
        CategoryProduct { id: 5, category_id: 10, product_id: 1 },
        CategoryProduct { id: 9, category_id: 20, product_id: 1 },
        CategoryProduct { id: 7, category_id: 30, product_id: 1 },
        CategoryProduct { id: 11, category_id: 40, product_id: 2 },
    ];
    assert_eq!(newest_link(&links, 1), Some(1));
    assert_eq!(newest_link(&links, 3), None);
    let nodes = build_tree(&vec![cat(10, None, "a"), cat(20, None, "b"), cat(30, None, "c")]);
    let products = FinalProduct::from_products(
        vec![product(1, "Lamp", "L1"), product(2, "Chair", "C1")],
        &nodes,
        &links,
        &vec![],
        &vec![],
        &vec![],
        NamePolicy::Strict,
        "10.0.0.1",
    );
    assert_eq!(products[0].category.map(|c| nodes[c].category.id), Some(20));
    assert_eq!(products[1].category, None);
}

#[test]
fn media_url_uses_host_and_name() {
    assert_eq!(media_url("192.168.1.2", "a.jpg"), "http://192.168.1.2:38008/products/a.jpg");
}

#[test]
fn products_are_materialized() {
    let mut p = product(1, "Veľká Lampa", "L");
    p.retail_price_with_iva = Some("12.50".into());
    p.description = r#"{"sk":"A &amp; B"}"#.into();
    let mut deleted = product(3, "Gone", "G");
    deleted.deleted_at = Some(5);
    let files = vec![
        File { id: 1, name: "a.jpg".into(), mime_type: "image/jpeg".into(), deleted_at: None },
        File { id: 2, name: "manual.pdf".into(), mime_type: "application/pdf".into(), deleted_at: None },
    ];
    let file_links = vec![
        FileProduct { product_id: 1, file_id: 2 },
        FileProduct { product_id: 1, file_id: 1 },
        FileProduct { product_id: 1, file_id: 9 },
        FileProduct { product_id: 2, file_id: 1 },
    ];
    let out = FinalProduct::from_products(
        vec![p, product(2, "test item", "T"), deleted, product(4, "Stolička", "L")],
        &vec![],
        &vec![],
        &file_links,
        &files,
        &vec![],
        NamePolicy::Strict,
        "h",
    );
    assert_eq!(out.len(), 2);
    assert_eq!(out[0].slug, "velka-lampa");
    assert_eq!(out[0].price.as_deref(), Some("12.50"));
    assert_eq!(out[0].product.description, "A & B");
    assert_eq!(out[0].images, vec!["http://h:38008/products/a.jpg".to_string()]);
    assert_eq!(out[0].sku, "L 001");
    assert_eq!(out[1].sku, "L 002");
    assert_eq!(out[1].slug, "stolicka");
    assert!(out[1].price.is_none());
}

#[test]
fn name_policies_differ_on_empty_names() {
    let texts = vec![
        ProductsTexts { id: 1, name: "Old".into(), short_description: String::new(), description: String::new(), language_id: 1, product_id: 1, updated_at: Some(1) },
        ProductsTexts { id: 2, name: "New".into(), short_description: String::new(), description: String::new(), language_id: 1, product_id: 1, updated_at: Some(2) },
        ProductsTexts { id: 3, name: "None".into(), short_description: String::new(), description: String::new(), language_id: 1, product_id: 1, updated_at: None },
    ];
    let strict = FinalProduct::from_products(vec![product(1, "", "X")], &vec![], &vec![], &vec![], &vec![], &texts, NamePolicy::Strict, "h");
    assert!(strict.is_empty());
    let lenient = FinalProduct::from_products(vec![product(1, "", "X")], &vec![], &vec![], &vec![], &vec![], &texts, NamePolicy::Lenient, "h");
    assert_eq!(lenient.len(), 1);
    assert_eq!(lenient[0].product.name, "New");
    assert_eq!(lenient[0].slug, "new");
}
