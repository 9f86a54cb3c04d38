//! The category tree builder: filters the raw category rows, fills missing
//! texts from the per-locale overrides, lays the survivors out as a forest
//! sorted by depth, and resolves each category's description, image and
//! product type.

use vstd::prelude::*;
use crate::model::{Category, CategoryTexts, File};
use crate::product_type::{
    lookup, unique_names, FinalProductType, TypeLookupSpec, YamlCategories,
};
use crate::slug::{mentions_test, names_test};
use crate::text::{is_block_id, purified, rich_text, Jsonstring};
use crate::tree::{
    build_tree, copy_category, depth, depth_sorted, forest, node_with_id, parent_of, placed_row,
    root_candidate, roots_are_orphans, FinalCategory,
};

verus! {

/// The names of legacy categories that are left out of the new catalogue
/// by default.
pub open spec fn excluded_by_default() -> Seq<Seq<char>> {
    seq![
        "Root"@,
        "Vianočné dekorácie"@,
        "Veľkonočné dekorácie"@,
        "Roľničky kovové"@,
        "Dekorácia zápich"@,
        "Aplikácie so zapínaním"@,
        "Ozdoby sisalové"@,
        "Girlandy"@,
        "Ozdoby na zavesenie"@,
        "Dekoračné predmety"@,
        "Aplikácie s magnetom"@,
        "Aplikácie na drôtiku"@,
        "Kategórie"@,
    ]
}

/// The names of legacy categories that are left out of the new catalogue
/// by default.
pub fn default_exclusions() -> (r: Vec<String>)
    ensures
        texts_of(r@) == excluded_by_default(),
{
    let r = vec![
        String::from_str("Root"),
        String::from_str("Vianočné dekorácie"),
        String::from_str("Veľkonočné dekorácie"),
        String::from_str("Roľničky kovové"),
        String::from_str("Dekorácia zápich"),
        String::from_str("Aplikácie so zapínaním"),
        String::from_str("Ozdoby sisalové"),
        String::from_str("Girlandy"),
        String::from_str("Ozdoby na zavesenie"),
        String::from_str("Dekoračné predmety"),
        String::from_str("Aplikácie s magnetom"),
        String::from_str("Aplikácie na drôtiku"),
        String::from_str("Kategórie"),
    ];
    assert(texts_of(r@) =~= excluded_by_default());
    r
}

/// The texts of a list of strings.
pub open spec fn texts_of(v: Seq<String>) -> Seq<Seq<char>> {
    v.map_values(|s: String| s@)
}

/// The first filter: a row survives unless its name mentions `test` (in any
/// case), it is deleted, or its name is on the exclusion list.
pub open spec fn kept_at_first(c: Category, excluded: Seq<Seq<char>>) -> bool {
    !names_test(c.name@) && c.deleted_at is None && !excluded.contains(c.name@)
}

/// Whether override `t` belongs to category `id`.
pub open spec fn text_of(t: CategoryTexts, id: u32) -> bool {
    t.category_id as int == id as int
}

/// `k` is the latest override of category `id`: the first among those with
/// the greatest update time.
pub open spec fn is_latest_text(texts: Seq<CategoryTexts>, id: u32, k: int) -> bool {
    &&& 0 <= k < texts.len()
    &&& text_of(texts[k], id)
    &&& forall|j: int|
        0 <= j < texts.len() && text_of(#[trigger] texts[j], id) ==> texts[j].updated_at
            <= texts[k].updated_at
    &&& forall|j: int|
        0 <= j < k && text_of(#[trigger] texts[j], id) ==> texts[j].updated_at
            < texts[k].updated_at
}

/// Whether category `id` has any override.
pub open spec fn has_text(texts: Seq<CategoryTexts>, id: u32) -> bool {
    exists|k: int| 0 <= k < texts.len() && text_of(#[trigger] texts[k], id)
}

/// A row with its texts filled from its latest override: the description is
/// always taken from it, the name only when the row has none.
pub open spec fn backfilled(c: Category, texts: Seq<CategoryTexts>) -> Category {
    if has_text(texts, c.id) {
        let t = texts[choose|k: int| is_latest_text(texts, c.id, k)];
        Category {
            id: c.id,
            name: if c.name@.len() == 0 {
                t.name
            } else {
                c.name
            },
            parent_id: c.parent_id,
            deleted_at: c.deleted_at,
            slug: c.slug,
            description: t.description,
            image_id: c.image_id,
        }
    } else {
        c
    }
}

/// The rows kept by the first filter, backfilled: the rows that may be
/// parents.
pub open spec fn first_rows(
    cats: Seq<Category>,
    texts: Seq<CategoryTexts>,
    excluded: Seq<Seq<char>>,
) -> Seq<Category> {
    cats.filter(|c: Category| kept_at_first(c, excluded)).map_values(
        |c: Category| backfilled(c, texts),
    )
}

/// The rows that are created: the first-filter rows still named after the
/// backfill.
pub open spec fn survivors(
    cats: Seq<Category>,
    texts: Seq<CategoryTexts>,
    excluded: Seq<Seq<char>>,
) -> Seq<Category> {
    first_rows(cats, texts, excluded).filter(|c: Category| c.name@.len() > 0)
}

/// `k` is the first file of id `id`.
pub open spec fn is_first_file(files: Seq<File>, id: u32, k: int) -> bool {
    &&& 0 <= k < files.len()
    &&& files[k].id == id
    &&& forall|j: int| 0 <= j < k ==> (#[trigger] files[j]).id != id
}

/// The image a category shows: the name of the first file with its image
/// id, none when it has no image id or no such file exists.
pub open spec fn image_of(files: Seq<File>, image_id: Option<u32>, image: Option<String>) -> bool {
    match image_id {
        Some(fid) => if exists|k: int| is_first_file(files, fid, k) {
            image is Some && image->0@ == files[choose|k: int| is_first_file(files, fid, k)].name@
        } else {
            image is None
        },
        None => image is None,
    }
}

/// The node was made from row `c`: the same fields, with the description
/// replaced by the rich-text document of its purified text.
pub open spec fn made_from(node: Category, c: Category) -> bool {
    &&& node.id == c.id
    &&& node.name == c.name
    &&& node.parent_id == c.parent_id
    &&& node.deleted_at == c.deleted_at
    &&& node.slug == c.slug
    &&& node.image_id == c.image_id
    &&& exists|id: Seq<char>, time: int|
        is_block_id(id) && i64::MIN <= time <= i64::MAX && #[trigger] rich_text(
            purified(c.description@),
            id,
            time,
        ) == node.description@
}

/// Whether some node was made from row `c`.
pub open spec fn made_row(nodes: Seq<FinalCategory>, c: Category) -> bool {
    exists|i: int| 0 <= i < nodes.len() && made_from((#[trigger] nodes[i]).category, c)
}

/// Every root candidate among `rows` has a node, and so has every row whose
/// parent has one: with acyclic ids, every row has a node.
pub open spec fn complete_tree(nodes: Seq<FinalCategory>, rows: Seq<Category>) -> bool {
    &&& forall|s: int|
        0 <= s < rows.len() && root_candidate(rows, #[trigger] rows[s]) ==> made_row(nodes, rows[s])
    &&& forall|s: int|
        0 <= s < rows.len() && (#[trigger] rows[s]).parent_id is Some && node_with_id(
            nodes,
            rows[s].parent_id->0,
        ) ==> made_row(nodes, rows[s])
}

/// The product type recorded for a category agrees with the override tree.
pub open spec fn typed_by(
    tree: YamlCategories,
    reg: Seq<FinalProductType>,
    id: u32,
    pt: Option<usize>,
) -> bool {
    match lookup(tree, id) {
        TypeLookupSpec::Found(n) => pt is Some && pt->0 < reg.len() && reg[pt->0 as int].name@ == n,
        _ => pt is None,
    }
}

/// Whether `name` is on the exclusion list.
fn is_excluded(name: &String, excluded: &Vec<String>) -> (r: bool)
    ensures
        r == texts_of(excluded@).contains(name@),
{
    let mut i: usize = 0;
    while i < excluded.len()
        invariant
            i <= excluded@.len(),
            forall|j: int| 0 <= j < i ==> excluded@[j]@ != name@,
        decreases excluded@.len() - i,
    {
        if excluded[i].eq(name) {
            assert(texts_of(excluded@)[i as int] == name@);
            return true;
        }
        i = i + 1;
    }
    assert(!texts_of(excluded@).contains(name@)) by {
        if texts_of(excluded@).contains(name@) {
            let k = choose|k: int| 0 <= k < texts_of(excluded@).len() && texts_of(excluded@)[k] == name@;
            assert(excluded@[k]@ == name@);
        }
    }
    false
}

/// The rows that pass the first filter, in order.
fn first_pass(cats: &Vec<Category>, excluded: &Vec<String>) -> (r: Vec<Category>)
    ensures
        r@ == cats@.filter(|c: Category| kept_at_first(c, texts_of(excluded@))),
{
    let ghost pred = |c: Category| kept_at_first(c, texts_of(excluded@));
    let mut r: Vec<Category> = Vec::new();
    let mut i: usize = 0;
    while i < cats.len()
        invariant
            i <= cats@.len(),
            pred == (|c: Category| kept_at_first(c, texts_of(excluded@))),
            r@ == cats@.subrange(0, i as int).filter(pred),
        decreases cats@.len() - i,
    {
        let c = &cats[i];
        let keep = !mentions_test(c.name.as_str()) && c.deleted_at.is_none() && !is_excluded(
            &c.name,
            excluded,
        );
        proof {
            reveal(Seq::filter);
            assert(cats@.subrange(0, i + 1).drop_last() =~= cats@.subrange(0, i as int));
            assert(keep == pred(cats@[i as int]));
        }
        if keep {
            r.push(copy_category(c));
        }
        i = i + 1;
    }
    assert(cats@.subrange(0, cats@.len() as int) =~= cats@);
    r
}

/// The latest override of category `id`, if it has any.
fn latest_text(texts: &Vec<CategoryTexts>, id: u32) -> (r: Option<usize>)
    ensures
        r is Some ==> is_latest_text(texts@, id, r->0 as int),
        r is None ==> !has_text(texts@, id),
{
    let mut best: Option<usize> = None;
    let mut k: usize = 0;
    while k < texts.len()
        invariant
            k <= texts@.len(),
            best is Some ==> {
                &&& best->0 < k
                &&& text_of(texts@[best->0 as int], id)
                &&& forall|j: int|
                    0 <= j < k && text_of(#[trigger] texts@[j], id) ==> texts@[j].updated_at
                        <= texts@[best->0 as int].updated_at
                &&& forall|j: int|
                    0 <= j < best->0 && text_of(#[trigger] texts@[j], id) ==> texts@[j].updated_at
                        < texts@[best->0 as int].updated_at
            },
            best is None ==> forall|j: int| 0 <= j < k ==> !text_of(#[trigger] texts@[j], id),
        decreases texts@.len() - k,
    {
        let t = &texts[k];
        if t.category_id >= 0 && t.category_id as u32 == id {
            match best {
                Some(b) => {
                    if texts[b].updated_at < t.updated_at {
                        best = Some(k);
                    }
                },
                None => {
                    best = Some(k);
                },
            }
        }
        k = k + 1;
    }
    best
}

proof fn lemma_latest_unique(texts: Seq<CategoryTexts>, id: u32, a: int, b: int)
    requires
        is_latest_text(texts, id, a),
        is_latest_text(texts, id, b),
    ensures
        a == b,
{
    if a < b {
        assert(texts[a].updated_at < texts[b].updated_at);
    }
    if b < a {
        assert(texts[b].updated_at < texts[a].updated_at);
    }
}

/// A row with its texts filled from its latest override.
fn backfill(c: &Category, texts: &Vec<CategoryTexts>) -> (r: Category)
    ensures
        r == backfilled(*c, texts@),
{
    match latest_text(texts, c.id) {
        Some(k) => {
            proof {
                let w = choose|w: int| is_latest_text(texts@, c.id, w);
                lemma_latest_unique(texts@, c.id, w, k as int);
            }
            let name = if c.name.as_str().is_empty() {
                texts[k].name.clone()
            } else {
                c.name.clone()
            };
            Category {
                id: c.id,
                name,
                parent_id: c.parent_id,
                deleted_at: c.deleted_at,
                slug: c.slug.clone(),
                description: texts[k].description.clone(),
                image_id: c.image_id,
            }
        },
        None => copy_category(c),
    }
}

/// The first file of id `id`.
pub(crate) fn first_file(files: &Vec<File>, id: u32) -> (r: Option<usize>)
    ensures
        r is Some ==> is_first_file(files@, id, r->0 as int),
        r is None ==> !(exists|k: int| is_first_file(files@, id, k)),
{
    let mut k: usize = 0;
    while k < files.len()
        invariant
            k <= files@.len(),
            forall|j: int| 0 <= j < k ==> (#[trigger] files@[j]).id != id,
        decreases files@.len() - k,
    {
        if files[k].id == id {
            return Some(k);
        }
        k = k + 1;
    }
    None
}

/// The rows kept by the first filter, backfilled, in input order.
pub fn backfilled_rows(
    categories: &Vec<Category>,
    texts: &Vec<CategoryTexts>,
    excluded: &Vec<String>,
) -> (r: Vec<Category>)
    ensures
        r@ == first_rows(categories@, texts@, texts_of(excluded@)),
{
    let kept = first_pass(categories, excluded);
    let ghost fill = |c: Category| backfilled(c, texts@);
    let mut filled: Vec<Category> = Vec::new();
    let mut i: usize = 0;
    while i < kept.len()
        invariant
            i <= kept@.len(),
            fill == (|c: Category| backfilled(c, texts@)),
            filled@ == kept@.subrange(0, i as int).map_values(fill),
        decreases kept@.len() - i,
    {
        filled.push(backfill(&kept[i], texts));
        proof {
            assert(filled@ =~= kept@.subrange(0, i + 1).map_values(fill));
        }
        i = i + 1;
    }
    assert(kept@.subrange(0, kept@.len() as int) =~= kept@);
    filled
}

/// The rows that are created, in input order.
pub fn surviving_rows(
    categories: &Vec<Category>,
    texts: &Vec<CategoryTexts>,
    excluded: &Vec<String>,
) -> (r: Vec<Category>)
    ensures
        r@ == survivors(categories@, texts@, texts_of(excluded@)),
{
    let filled = backfilled_rows(categories, texts, excluded);
    let ghost named = |c: Category| c.name@.len() > 0;
    let mut r: Vec<Category> = Vec::new();
    let mut i: usize = 0;
    while i < filled.len()
        invariant
            i <= filled@.len(),
            named == (|c: Category| c.name@.len() > 0),
            r@ == filled@.subrange(0, i as int).filter(named),
        decreases filled@.len() - i,
    {
        let keep = !filled[i].name.as_str().is_empty();
        proof {
            reveal(Seq::filter);
            assert(filled@.subrange(0, i + 1).drop_last() =~= filled@.subrange(0, i as int));
        }
        if keep {
            r.push(copy_category(&filled[i]));
        }
        i = i + 1;
    }
    assert(filled@.subrange(0, filled@.len() as int) =~= filled@);
    r
}

/// `src` maps each node to the row it was made from: distinct rows, and
/// nodes of equal depth in the rows' order.
pub open spec fn made_sourced(nodes: Seq<FinalCategory>, rows: Seq<Category>, src: Seq<int>) -> bool {
    &&& src.len() == nodes.len()
    &&& forall|i: int|
        0 <= i < nodes.len() ==> 0 <= #[trigger] src[i] < rows.len() && made_from(
            nodes[i].category,
            rows[src[i]],
        )
    &&& forall|i: int, k: int| 0 <= i < k < nodes.len() ==> #[trigger] src[i] != #[trigger] src[k]
    &&& forall|i: int, k: int|
        0 <= i < k < nodes.len() && depth(nodes, i) == depth(nodes, k) ==> #[trigger] src[i]
            < #[trigger] src[k]
}

/// Whether a node is created: it has a name.
pub open spec fn is_named(n: FinalCategory) -> bool {
    n.category.name@.len() > 0
}

/// `kept` lists, in ascending order, exactly the indices of the named nodes.
pub open spec fn kept_exactly(nodes: Seq<FinalCategory>, kept: Seq<usize>) -> bool {
    &&& forall|k: int| 0 <= k < kept.len() ==> #[trigger] kept[k] < nodes.len() && is_named(nodes[kept[k] as int])
    &&& forall|k: int, l: int| 0 <= k < l < kept.len() ==> #[trigger] kept[k] < #[trigger] kept[l]
    &&& forall|i: int| 0 <= i < nodes.len() && is_named(#[trigger] nodes[i]) ==> kept.contains(i as usize)
}

/// The category tree: every row of the first filter as a node, parents
/// before children in ascending depth, and the indices of the nodes that are
/// created (those with a name). A node whose name stayed empty is not
/// created but may still be the parent others link to.
pub struct CategoryTree {
    pub nodes: Vec<FinalCategory>,
    pub kept: Vec<usize>,
}

impl FinalCategory {
    /// Builds the category tree from the raw rows: filters them, fills
    /// missing texts from the overrides, links each to its parent among the
    /// filtered rows (an orphan becomes a root) in ascending depth order,
    /// turns descriptions into rich-text documents, attaches the image file
    /// name, resolves the product type of each named node through the shared
    /// registry, and lists the named nodes as the ones to create.
    pub fn from_categories(
        categories: Vec<Category>,
        files: &Vec<File>,
        texts: &Vec<CategoryTexts>,
        excluded: &Vec<String>,
        overrides: &YamlCategories,
        product_types: &mut Vec<FinalProductType>,
    ) -> (r: CategoryTree)
        requires
            unique_names(old(product_types)@),
        ensures
            forest(r.nodes@),
            depth_sorted(r.nodes@),
            roots_are_orphans(r.nodes@, first_rows(categories@, texts@, texts_of(excluded@))),
            complete_tree(r.nodes@, first_rows(categories@, texts@, texts_of(excluded@))),
            exists|src: Seq<int>|
                #[trigger] made_sourced(
                    r.nodes@,
                    first_rows(categories@, texts@, texts_of(excluded@)),
                    src,
                ),
            kept_exactly(r.nodes@, r.kept@),
            forall|i: int|
                0 <= i < r.nodes@.len() ==> image_of(
                    files@,
                    (#[trigger] r.nodes@[i]).category.image_id,
                    r.nodes@[i].image,
                ),
            forall|i: int|
                0 <= i < r.nodes@.len() ==> if is_named(#[trigger] r.nodes@[i]) {
                    typed_by(
                        *overrides,
                        final(product_types)@,
                        r.nodes@[i].category.id,
                        r.nodes@[i].product_type,
                    )
                } else {
                    r.nodes@[i].product_type is None
                },
            forall|i: int| 0 <= i < r.nodes@.len() ==> (#[trigger] r.nodes@[i]).saleor_id is None,
            unique_names(final(product_types)@),
            old(product_types)@.len() <= final(product_types)@.len(),
            old(product_types)@ == final(product_types)@.subrange(0, old(product_types)@.len() as int),
    {
        let rows = backfilled_rows(&categories, texts, excluded);
        let nodes = build_tree(&rows);
        let ghost src = choose|src: Seq<int>| crate::tree::sourced(nodes@, rows@, src);
        let mut out: Vec<FinalCategory> = Vec::new();
        let mut i: usize = 0;
        while i < nodes.len()
            invariant
                i <= nodes@.len(),
                rows@ == first_rows(categories@, texts@, texts_of(excluded@)),
                forest(nodes@),
                depth_sorted(nodes@),
                roots_are_orphans(nodes@, rows@),
                crate::tree::complete(nodes@, rows@),
                crate::tree::sourced(nodes@, rows@, src),
                out@.len() == i,
                forall|k: int|
                    0 <= k < i ==> (#[trigger] out@[k]).parent_category == nodes@[k].parent_category,
                forall|k: int|
                    0 <= k < i ==> made_from((#[trigger] out@[k]).category, nodes@[k].category),
                forall|k: int|
                    0 <= k < i ==> image_of(
                        files@,
                        (#[trigger] out@[k]).category.image_id,
                        out@[k].image,
                    ),
                forall|k: int|
                    0 <= k < i ==> if is_named(#[trigger] out@[k]) {
                        typed_by(*overrides, product_types@, out@[k].category.id, out@[k].product_type)
                    } else {
                        out@[k].product_type is None
                    },
                forall|k: int| 0 <= k < i ==> (#[trigger] out@[k]).saleor_id is None,
                unique_names(product_types@),
                old(product_types)@.len() <= product_types@.len(),
                old(product_types)@ == product_types@.subrange(0, old(product_types)@.len() as int),
            decreases nodes@.len() - i,
        {
            let node = &nodes[i];
            let c = &node.category;
            let doc = Jsonstring::parse_old_json(&c.description);
            let image = match c.image_id {
                Some(fid) => match first_file(files, fid) {
                    Some(k) => Some(files[k].name.clone()),
                    None => None,
                },
                None => None,
            };
            let ghost reg_before = product_types@;
            let pt = if c.name.as_str().is_empty() {
                None
            } else {
                overrides.find_product_type(c.id, product_types)
            };
            let category = Category {
                id: c.id,
                name: c.name.clone(),
                parent_id: c.parent_id,
                deleted_at: c.deleted_at,
                slug: c.slug.clone(),
                description: doc.to_string(),
                image_id: c.image_id,
            };
            out.push(
                FinalCategory {
                    category,
                    parent_category: node.parent_category,
                    saleor_id: None,
                    image,
                    product_type: pt,
                },
            );
            proof {
                assert(product_types@.subrange(0, reg_before.len() as int) == reg_before);
                assert forall|k: int|
                    0 <= k < out@.len() implies if is_named(#[trigger] out@[k]) {
                        typed_by(*overrides, product_types@, out@[k].category.id, out@[k].product_type)
                    } else {
                        out@[k].product_type is None
                    } by {
                    if k < i && is_named(out@[k]) {
                        assert(typed_by(*overrides, reg_before, out@[k].category.id, out@[k].product_type));
                        if out@[k].product_type is Some {
                            assert(product_types@[out@[k].product_type->0 as int] == reg_before[out@[k].product_type->0 as int]);
                        }
                    }
                }
                assert(made_from(out@[i as int].category, nodes@[i as int].category));
                assert(old(product_types)@ =~= product_types@.subrange(0, old(product_types)@.len() as int)) by {
                    assert(reg_before.subrange(0, old(product_types)@.len() as int) == old(product_types)@);
                    assert(product_types@.subrange(0, old(product_types)@.len() as int) =~= reg_before.subrange(0, old(product_types)@.len() as int));
                }
            }
            i = i + 1;
        }
        let mut kept: Vec<usize> = Vec::new();
        let mut i: usize = 0;
        while i < out.len()
            invariant
                i <= out@.len(),
                forall|k: int| 0 <= k < kept@.len() ==> #[trigger] kept@[k] < i && is_named(out@[kept@[k] as int]),
                forall|k: int, l: int| 0 <= k < l < kept@.len() ==> #[trigger] kept@[k] < #[trigger] kept@[l],
                forall|m: int| 0 <= m < i && is_named(#[trigger] out@[m]) ==> kept@.contains(m as usize),
            decreases out@.len() - i,
        {
            if !out[i].category.name.as_str().is_empty() {
                let ghost before = kept@;
                kept.push(i);
                proof {
                    assert forall|m: int| 0 <= m < i + 1 && is_named(#[trigger] out@[m]) implies kept@.contains(m as usize) by {
                        if m < i {
                            let w = choose|w: int| 0 <= w < before.len() && before[w] == m as usize;
                            assert(kept@[w] == m as usize);
                        } else {
                            assert(kept@[before.len() as int] == m as usize);
                        }
                    }
                }
            }
            i = i + 1;
        }
        proof {
            assert(out@.len() == nodes@.len());
            assert forall|k: int| 0 <= k < out@.len() implies parent_of(out@, k) == parent_of(nodes@, k) by {}
            assert forall|a: int| 0 <= a < out@.len() implies depth(out@, a) == depth(nodes@, a) by {
                lemma_same_shape_depth(out@, nodes@, a);
            }
            assert forall|s: int| 0 <= s < rows@.len() && #[trigger] placed_row(nodes@, rows@[s]) implies made_row(out@, rows@[s]) by {
                let w = choose|w: int| 0 <= w < nodes@.len() && (#[trigger] nodes@[w]).category == rows@[s];
                assert(made_from(out@[w].category, nodes@[w].category));
            }
            assert forall|p: u32| #[trigger] node_with_id(out@, p) implies node_with_id(nodes@, p) by {
                let w = choose|w: int| 0 <= w < out@.len() && (#[trigger] out@[w]).category.id == p;
                assert(made_from(out@[w].category, nodes@[w].category));
                assert(nodes@[w].category.id == p);
            }
            assert forall|k: int| 0 <= k < out@.len() implies 0 <= #[trigger] src[k] < rows@.len() && made_from(
                out@[k].category,
                rows@[src[k]],
            ) by {
                assert(nodes@[k].category == rows@[src[k]]);
            }
            assert(made_sourced(out@, rows@, src));
        }
        CategoryTree { nodes: out, kept }
    }
}

proof fn lemma_same_shape_depth(a: Seq<FinalCategory>, b: Seq<FinalCategory>, i: int)
    requires
        a.len() == b.len(),
        forall|k: int| 0 <= k < a.len() ==> parent_of(a, k) == parent_of(b, k),
    ensures
        depth(a, i) == depth(b, i),
    decreases i,
{
    if 0 <= i < a.len() && parent_of(a, i) is Some && 0 <= parent_of(a, i)->0 < i {
        lemma_same_shape_depth(a, b, parent_of(a, i)->0 as int);
    }
}

} // verus!
