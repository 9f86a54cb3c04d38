//! The product materialiser: filters product rows, fills missing names,
//! derives slugs, picks each product's category from its newest link,
//! resolves image URLs, normalises descriptions and makes SKUs unique.

use vstd::prelude::*;
use crate::chars::{chars_of, contains_chars, occurs_in, string_of};
use crate::model::{CategoryProduct, File, FileProduct, Product, ProductsTexts};
use crate::slug::{mentions_test, names_test, slug_of, slugify};
use crate::text::{digits_of, purified, Jsonstring};
use crate::categories::{first_file, is_first_file};
use crate::tree::FinalCategory;
use crate::categories::is_named;

verus! {

/// The running suffix of one base SKU.
pub struct SKU {
    pub base_sku: String,
    pub latest_sku_suffix: usize,
}

/// A product ready to be created remotely. `category` is an index into the
/// category node list.
pub struct FinalProduct {
    pub product: Product,
    pub saleor_id: Option<String>,
    pub category: Option<usize>,
    pub images: Vec<String>,
    pub price: Option<String>,
    pub sku: String,
    pub slug: String,
}

/// How rows without a name are treated.
#[derive(Clone, Copy, PartialEq, Eq, Debug, Structural)]
pub enum NamePolicy {
    /// A row without a name is dropped.
    Strict,
    /// A row without a name takes the name of its latest text override
    /// before filtering.
    Lenient,
}

/// How many of the first `k` codes equal `x`.
pub open spec fn count_before(codes: Seq<Seq<char>>, x: Seq<char>, k: int) -> nat
    decreases k,
{
    if k <= 0 || k > codes.len() {
        0
    } else {
        count_before(codes, x, k - 1) + if codes[k - 1] == x {
            1nat
        } else {
            0nat
        }
    }
}

/// A suffix counter written with at least three digits, zero-padded.
pub open spec fn padded(n: nat) -> Seq<char> {
    if n < 10 {
        seq!['0', '0'] + digits_of(n)
    } else if n < 100 {
        seq!['0'] + digits_of(n)
    } else {
        digits_of(n)
    }
}

/// The unique SKU of the `i`-th code: the code, a space, and how many times
/// the code has occurred so far (this one included), zero-padded.
pub open spec fn unique_sku(codes: Seq<Seq<char>>, i: int) -> Seq<char> {
    codes[i] + seq![' '] + padded(count_before(codes, codes[i], i + 1))
}

/// The decimal digits of `n`.
pub fn digits(n: usize) -> (r: Vec<char>)
    ensures
        r@ == digits_of(n as nat),
    decreases n,
{
    let d = vec!['0', '1', '2', '3', '4', '5', '6', '7', '8', '9'];
    let ghost ds = seq!['0', '1', '2', '3', '4', '5', '6', '7', '8', '9'];
    assert(d@ =~= ds);
    if n < 10 {
        let r = vec![d[n]];
        assert(r@ =~= digits_of(n as nat));
        r
    } else {
        let mut r = digits(n / 10);
        r.push(d[n % 10]);
        r
    }
}

/// `n` zero-padded to at least three digits.
fn padded_digits(n: usize) -> (r: Vec<char>)
    ensures
        r@ == padded(n as nat),
{
    let ds = digits(n);
    let mut r: Vec<char> = Vec::new();
    if n < 10 {
        r.push('0');
        r.push('0');
    } else if n < 100 {
        r.push('0');
    }
    let mut i: usize = 0;
    let ghost front = r@;
    while i < ds.len()
        invariant
            i <= ds@.len(),
            r@ == front + ds@.subrange(0, i as int),
        decreases ds@.len() - i,
    {
        r.push(ds[i]);
        assert(r@ =~= front + ds@.subrange(0, i + 1));
        i = i + 1;
    }
    assert(ds@.subrange(0, ds@.len() as int) =~= ds@);
    assert(r@ =~= padded(n as nat));
    r
}

proof fn lemma_count_step(codes: Seq<Seq<char>>, x: Seq<char>, k: int)
    requires
        0 <= k < codes.len(),
    ensures
        count_before(codes, x, k + 1) == count_before(codes, x, k) + if codes[k] == x {
            1nat
        } else {
            0nat
        },
{
}

proof fn lemma_count_bounded(codes: Seq<Seq<char>>, x: Seq<char>, k: int)
    requires
        0 <= k <= codes.len(),
    ensures
        count_before(codes, x, k) <= k,
    decreases k,
{
    if k > 0 {
        lemma_count_bounded(codes, x, k - 1);
    }
}

/// Makes SKUs unique within one run: each code gets a space and its running
/// occurrence number, zero-padded to three digits (`A 001`, `A 002`, ...).
pub fn dedup_skus(codes: &Vec<String>) -> (r: Vec<String>)
    ensures
        r@.len() == codes@.len(),
        forall|i: int|
            0 <= i < codes@.len() ==> (#[trigger] r@[i])@ == unique_sku(
                codes@.map_values(|s: String| s@),
                i,
            ),
{
    let ghost cs = codes@.map_values(|s: String| s@);
    let mut skus: Vec<SKU> = Vec::new();
    let mut r: Vec<String> = Vec::new();
    let mut i: usize = 0;
    while i < codes.len()
        invariant
            i <= codes@.len(),
            cs == codes@.map_values(|s: String| s@),
            r@.len() == i,
            forall|k: int| 0 <= k < i ==> (#[trigger] r@[k])@ == unique_sku(cs, k),
            forall|e: int|
                0 <= e < skus@.len() ==> (#[trigger] skus@[e]).latest_sku_suffix == count_before(
                    cs,
                    skus@[e].base_sku@,
                    i as int,
                ),
            forall|e: int, f: int|
                0 <= e < skus@.len() && 0 <= f < skus@.len() && e != f ==> (#[trigger] skus@[e]).base_sku@
                    != (#[trigger] skus@[f]).base_sku@,
            forall|x: Seq<char>|
                #![trigger count_before(cs, x, i as int)]
                count_before(cs, x, i as int) > 0 ==> exists|e: int|
                    0 <= e < skus@.len() && (#[trigger] skus@[e]).base_sku@ == x,
        decreases codes@.len() - i,
    {
        let code = &codes[i];
        let mut e: usize = 0;
        let mut found: Option<usize> = None;
        while e < skus.len() && found.is_none()
            invariant
                e <= skus@.len(),
                found is None ==> forall|f: int| 0 <= f < e ==> (#[trigger] skus@[f]).base_sku@ != code@,
                found is Some ==> found->0 < skus@.len() && skus@[found->0 as int].base_sku@ == code@,
            decreases skus@.len() - e + if found is None { 1int } else { 0int },
        {
            if skus[e].base_sku.eq(code) {
                found = Some(e);
            } else {
                e = e + 1;
            }
        }
        proof {
            lemma_count_bounded(cs, code@, i as int);
            assert(cs[i as int] == code@);
            assert forall|x: Seq<char>| #[trigger] count_before(cs, x, i + 1) == count_before(cs, x, i as int) + if cs[i as int] == x { 1nat } else { 0nat } by {
                lemma_count_step(cs, x, i as int);
            }
        }
        let n: usize = match found {
            Some(e) => {
                let next = skus[e].latest_sku_suffix + 1;
                let ghost before = skus@;
                let base = skus[e].base_sku.clone();
                skus.set(e, SKU { base_sku: base, latest_sku_suffix: next });
                proof {
                    assert forall|f: int| 0 <= f < skus@.len() implies (#[trigger] skus@[f]).latest_sku_suffix
                        == count_before(cs, skus@[f].base_sku@, i + 1) by {
                        if f != e {
                            assert(skus@[f] == before[f]);
                            assert(before[f].base_sku@ != before[e as int].base_sku@);
                        }
                    }
                    assert forall|x: Seq<char>| #![trigger count_before(cs, x, i + 1)]
                        count_before(cs, x, i + 1) > 0 implies exists|g: int|
                        0 <= g < skus@.len() && (#[trigger] skus@[g]).base_sku@ == x by {
                        if x != code@ {
                            let g = choose|g: int| 0 <= g < before.len() && (#[trigger] before[g]).base_sku@ == x;
                            assert(skus@[g].base_sku@ == x);
                        } else {
                            assert(skus@[e as int].base_sku@ == x);
                        }
                    }
                }
                next
            },
            None => {
                proof {
                    assert(count_before(cs, code@, i as int) == 0) by {
                        if count_before(cs, code@, i as int) > 0 {
                            let w = choose|w: int| 0 <= w < skus@.len() && (#[trigger] skus@[w]).base_sku@ == code@;
                            assert(skus@[w].base_sku@ != code@);
                        }
                    }
                }
                let ghost before = skus@;
                skus.push(SKU { base_sku: code.clone(), latest_sku_suffix: 1 });
                proof {
                    assert forall|f: int| 0 <= f < skus@.len() implies (#[trigger] skus@[f]).latest_sku_suffix
                        == count_before(cs, skus@[f].base_sku@, i + 1) by {
                        if f < before.len() {
                            assert(skus@[f] == before[f]);
                        }
                    }
                    assert forall|x: Seq<char>| #![trigger count_before(cs, x, i + 1)]
                        count_before(cs, x, i + 1) > 0 implies exists|g: int|
                        0 <= g < skus@.len() && (#[trigger] skus@[g]).base_sku@ == x by {
                        if x != code@ {
                            let g = choose|g: int| 0 <= g < before.len() && (#[trigger] before[g]).base_sku@ == x;
                            assert(skus@[g].base_sku@ == x);
                        } else {
                            assert(skus@[before.len() as int].base_sku@ == x);
                        }
                    }
                }
                1
            },
        };
        assert(n == count_before(cs, cs[i as int], i + 1));
        let suffix = padded_digits(n);
        let mut text = chars_of(code.as_str());
        let ghost front = text@;
        text.push(' ');
        let mut k: usize = 0;
        while k < suffix.len()
            invariant
                k <= suffix@.len(),
                text@ == front + seq![' '] + suffix@.subrange(0, k as int),
            decreases suffix@.len() - k,
        {
            text.push(suffix[k]);
            assert(text@ =~= front + seq![' '] + suffix@.subrange(0, k + 1));
            k = k + 1;
        }
        assert(suffix@.subrange(0, suffix@.len() as int) =~= suffix@);
        r.push(string_of(&text));
        i = i + 1;
    }
    r
}

/// The URL under which the media server offers a stored file.
pub open spec fn media_url_of(host: Seq<char>, file_name: Seq<char>) -> Seq<char> {
    "http://"@ + host + ":38008/products/"@ + file_name
}

/// The URL under which the media server at `host` offers `file_name`.
pub fn media_url(host: &str, file_name: &str) -> (r: String)
    ensures
        r@ == media_url_of(host@, file_name@),
{
    let mut r = String::from_str("http://");
    r.append(host);
    r.append(":38008/products/");
    r.append(file_name);
    r
}

/// The marker of files that are documents rather than images.
pub open spec fn document_marker() -> Seq<char> {
    seq!['p', 'd', 'f']
}

/// The image URLs of product `pid` from the first `k` file links, in link
/// order: a link to a missing file or to a document is skipped.
pub open spec fn images_upto(
    links: Seq<FileProduct>,
    files: Seq<File>,
    pid: u32,
    host: Seq<char>,
    k: int,
) -> Seq<Seq<char>>
    decreases k,
{
    if k <= 0 || k > links.len() {
        Seq::empty()
    } else {
        let before = images_upto(links, files, pid, host, k - 1);
        let l = links[k - 1];
        if l.product_id == pid && exists|f: int| is_first_file(files, l.file_id, f) {
            let f = choose|f: int| is_first_file(files, l.file_id, f);
            if occurs_in(document_marker(), files[f].mime_type@) {
                before
            } else {
                before.push(media_url_of(host, files[f].name@))
            }
        } else {
            before
        }
    }
}

/// The image URLs of product `pid`.
pub open spec fn images_for(
    links: Seq<FileProduct>,
    files: Seq<File>,
    pid: u32,
    host: Seq<char>,
) -> Seq<Seq<char>> {
    images_upto(links, files, pid, host, links.len() as int)
}

/// The texts of a list of strings.
pub open spec fn strings_view(v: Seq<String>) -> Seq<Seq<char>> {
    v.map_values(|s: String| s@)
}

/// The image URLs of product `pid`, resolved through the media server at
/// `host`.
pub fn product_images(
    links: &Vec<FileProduct>,
    files: &Vec<File>,
    pid: u32,
    host: &str,
) -> (r: Vec<String>)
    ensures
        strings_view(r@) == images_for(links@, files@, pid, host@),
{
    let marker = vec!['p', 'd', 'f'];
    assert(marker@ =~= document_marker());
    let mut r: Vec<String> = Vec::new();
    let mut k: usize = 0;
    while k < links.len()
        invariant
            k <= links@.len(),
            marker@ == document_marker(),
            strings_view(r@) == images_upto(links@, files@, pid, host@, k as int),
        decreases links@.len() - k,
    {
        let l = &links[k];
        if l.product_id == pid {
            match first_file(files, l.file_id) {
                Some(f) => {
                    proof {
                        let w = choose|w: int| is_first_file(files@, l.file_id, w);
                        assert(w == f as int);
                    }
                    let mime = chars_of(files[f].mime_type.as_str());
                    if !contains_chars(&mime, &marker) {
                        let url = media_url(host, files[f].name.as_str());
                        r.push(url);
                        assert(strings_view(r@) =~= images_upto(links@, files@, pid, host@, k as int).push(url@));
                    }
                },
                None => {},
            }
        }
        k = k + 1;
    }
    r
}

/// `k` is the newest link of product `pid`: the first among its links with
/// the highest link id.
pub open spec fn is_newest_link(links: Seq<CategoryProduct>, pid: u32, k: int) -> bool {
    &&& 0 <= k < links.len()
    &&& links[k].product_id == pid
    &&& forall|j: int|
        0 <= j < links.len() && (#[trigger] links[j]).product_id == pid ==> links[j].id <= links[k].id
    &&& forall|j: int|
        0 <= j < k && (#[trigger] links[j]).product_id == pid ==> links[j].id < links[k].id
}

/// The newest category link of product `pid`, if it has any.
pub fn newest_link(links: &Vec<CategoryProduct>, pid: u32) -> (r: Option<usize>)
    ensures
        r is Some ==> is_newest_link(links@, pid, r->0 as int),
        r is None ==> forall|j: int| 0 <= j < links@.len() ==> (#[trigger] links@[j]).product_id != pid,
{
    let mut best: Option<usize> = None;
    let mut k: usize = 0;
    while k < links.len()
        invariant
            k <= links@.len(),
            best is Some ==> {
                &&& best->0 < k
                &&& links@[best->0 as int].product_id == pid
                &&& forall|j: int|
                    0 <= j < k && (#[trigger] links@[j]).product_id == pid ==> links@[j].id
                        <= links@[best->0 as int].id
                &&& forall|j: int|
                    0 <= j < best->0 && (#[trigger] links@[j]).product_id == pid ==> links@[j].id
                        < links@[best->0 as int].id
            },
            best is None ==> forall|j: int| 0 <= j < k ==> (#[trigger] links@[j]).product_id != pid,
        decreases links@.len() - k,
    {
        if links[k].product_id == pid {
            match best {
                Some(b) => {
                    if links[b].id < links[k].id {
                        best = Some(k);
                    }
                },
                None => {
                    best = Some(k);
                },
            }
        }
        k = k + 1;
    }
    best
}

/// `c` is the first created (named) node of id `id`.
pub open spec fn is_first_node(nodes: Seq<FinalCategory>, id: u32, c: int) -> bool {
    &&& 0 <= c < nodes.len()
    &&& nodes[c].category.id == id
    &&& is_named(nodes[c])
    &&& forall|j: int| 0 <= j < c ==> !((#[trigger] nodes[j]).category.id == id && is_named(nodes[j]))
}

/// The category of product `pid`: the created node that its newest link
/// names, none when it has no link or that category is not created.
pub open spec fn assigned_category(
    links: Seq<CategoryProduct>,
    nodes: Seq<FinalCategory>,
    pid: u32,
    c: Option<usize>,
) -> bool {
    if exists|k: int| is_newest_link(links, pid, k) {
        let cid = links[choose|k: int| is_newest_link(links, pid, k)].category_id;
        if exists|n: int| is_first_node(nodes, cid, n) {
            c == Some((choose|n: int| is_first_node(nodes, cid, n)) as usize)
        } else {
            c is None
        }
    } else {
        c is None
    }
}

proof fn lemma_newest_unique(links: Seq<CategoryProduct>, pid: u32, a: int, b: int)
    requires
        is_newest_link(links, pid, a),
        is_newest_link(links, pid, b),
    ensures
        a == b,
{
    if a < b {
        assert(links[a].id < links[b].id);
    }
    if b < a {
        assert(links[b].id < links[a].id);
    }
}

/// The category a product belongs to: the one of its newest link.
pub fn product_category(
    links: &Vec<CategoryProduct>,
    nodes: &Vec<FinalCategory>,
    pid: u32,
) -> (r: Option<usize>)
    ensures
        assigned_category(links@, nodes@, pid, r),
{
    match newest_link(links, pid) {
        Some(k) => {
            proof {
                let w = choose|w: int| is_newest_link(links@, pid, w);
                lemma_newest_unique(links@, pid, w, k as int);
            }
            let cid = links[k].category_id;
            let mut c: usize = 0;
            while c < nodes.len()
                invariant
                    c <= nodes@.len(),
                    is_newest_link(links@, pid, k as int),
                    (choose|w: int| is_newest_link(links@, pid, w)) == k as int,
                    cid == links@[k as int].category_id,
                    forall|j: int|
                        0 <= j < c ==> !((#[trigger] nodes@[j]).category.id == cid && is_named(nodes@[j])),
                decreases nodes@.len() - c,
            {
                if nodes[c].category.id == cid && !nodes[c].category.name.as_str().is_empty() {
                    proof {
                        assert(is_first_node(nodes@, cid, c as int));
                        let w = choose|w: int| is_first_node(nodes@, cid, w);
                        if w < c {
                            assert(!(nodes@[w].category.id == cid && is_named(nodes@[w])));
                        } else if c < w {
                            assert(!(nodes@[c as int].category.id == cid && is_named(nodes@[c as int])));
                        }
                        assert(w == c);
                    }
                    return Some(c);
                }
                c = c + 1;
            }
            None
        },
        None => None,
    }
}

/// `a` is no later than `b`; an unknown time comes before every known one.
pub open spec fn time_le(a: Option<i64>, b: Option<i64>) -> bool {
    match (a, b) {
        (None, _) => true,
        (Some(_), None) => false,
        (Some(x), Some(y)) => x <= y,
    }
}

/// `k` is the latest text override of product `pid`: the first among those
/// with the latest update time.
pub open spec fn is_latest_product_text(texts: Seq<ProductsTexts>, pid: u32, k: int) -> bool {
    &&& 0 <= k < texts.len()
    &&& texts[k].product_id == pid
    &&& forall|j: int|
        0 <= j < texts.len() && (#[trigger] texts[j]).product_id == pid ==> time_le(
            texts[j].updated_at,
            texts[k].updated_at,
        )
    &&& forall|j: int|
        0 <= j < k && (#[trigger] texts[j]).product_id == pid ==> !time_le(
            texts[k].updated_at,
            texts[j].updated_at,
        )
}

/// A product row with its missing name filled from its latest override,
/// under the lenient policy.
pub open spec fn named_product(p: Product, texts: Seq<ProductsTexts>, policy: NamePolicy) -> Product {
    if policy == NamePolicy::Lenient && p.name@.len() == 0 && exists|k: int|
        is_latest_product_text(texts, p.id, k) {
        Product { name: texts[choose|k: int| is_latest_product_text(texts, p.id, k)].name, ..p }
    } else {
        p
    }
}

/// Whether a (named) product row is migrated: not deleted, no `test` in its
/// name in any case, and, under the strict policy, not without a name.
pub open spec fn product_kept(p: Product, policy: NamePolicy) -> bool {
    &&& !(policy == NamePolicy::Strict && p.name@.len() == 0)
    &&& !names_test(p.name@)
    &&& p.deleted_at is None
}

/// The product rows that are migrated, named, in input order.
pub open spec fn kept_products(
    products: Seq<Product>,
    texts: Seq<ProductsTexts>,
    policy: NamePolicy,
) -> Seq<Product> {
    products.map_values(|p: Product| named_product(p, texts, policy)).filter(
        |p: Product| product_kept(p, policy),
    )
}

/// The product codes of a list of rows.
pub open spec fn codes_of(products: Seq<Product>) -> Seq<Seq<char>> {
    products.map_values(|p: Product| p.code@)
}

/// `fp` is row `p` made ready: descriptions purified, slug derived from the
/// name, price copied, category from the newest link, images resolved.
pub open spec fn materialized(
    fp: FinalProduct,
    p: Product,
    nodes: Seq<FinalCategory>,
    links: Seq<CategoryProduct>,
    file_links: Seq<FileProduct>,
    files: Seq<File>,
    host: Seq<char>,
) -> bool {
    &&& fp.product.id == p.id
    &&& fp.product.name == p.name
    &&& fp.product.description@ == purified(p.description@)
    &&& fp.product.short_description@ == purified(p.short_description@)
    &&& fp.product.deleted_at == p.deleted_at
    &&& fp.product.code == p.code
    &&& fp.product.retail_price_with_iva == p.retail_price_with_iva
    &&& fp.product.quantity == p.quantity
    &&& fp.product.weight == p.weight
    &&& fp.saleor_id is None
    &&& fp.slug@ == slug_of(p.name@)
    &&& fp.price == p.retail_price_with_iva
    &&& assigned_category(links, nodes, p.id, fp.category)
    &&& strings_view(fp.images@) == images_for(file_links, files, p.id, host)
}

/// A copy of a product row.
pub fn copy_product(p: &Product) -> (r: Product)
    ensures
        r == *p,
{
    Product {
        id: p.id,
        name: p.name.clone(),
        short_description: p.short_description.clone(),
        description: p.description.clone(),
        deleted_at: p.deleted_at,
        code: p.code.clone(),
        retail_price_with_iva: p.retail_price_with_iva.clone(),
        quantity: p.quantity,
        weight: p.weight.clone(),
    }
}

fn latest_product_text(texts: &Vec<ProductsTexts>, pid: u32) -> (r: Option<usize>)
    ensures
        r is Some ==> is_latest_product_text(texts@, pid, r->0 as int),
        r is None ==> !(exists|k: int| is_latest_product_text(texts@, pid, k)),
{
    let mut best: Option<usize> = None;
    let mut k: usize = 0;
    while k < texts.len()
        invariant
            k <= texts@.len(),
            best is Some ==> {
                &&& best->0 < k
                &&& texts@[best->0 as int].product_id == pid
                &&& forall|j: int|
                    0 <= j < k && (#[trigger] texts@[j]).product_id == pid ==> time_le(
                        texts@[j].updated_at,
                        texts@[best->0 as int].updated_at,
                    )
                &&& forall|j: int|
                    0 <= j < best->0 && (#[trigger] texts@[j]).product_id == pid ==> !time_le(
                        texts@[best->0 as int].updated_at,
                        texts@[j].updated_at,
                    )
            },
            best is None ==> forall|j: int| 0 <= j < k ==> (#[trigger] texts@[j]).product_id != pid,
        decreases texts@.len() - k,
    {
        if texts[k].product_id == pid {
            match best {
                Some(b) => {
                    let later = match (texts[b].updated_at, texts[k].updated_at) {
                        (None, Some(_)) => true,
                        (Some(x), Some(y)) => x < y,
                        _ => false,
                    };
                    if later {
                        best = Some(k);
                    }
                },
                None => {
                    best = Some(k);
                },
            }
        }
        k = k + 1;
    }
    best
}

proof fn lemma_latest_product_text_unique(texts: Seq<ProductsTexts>, pid: u32, a: int, b: int)
    requires
        is_latest_product_text(texts, pid, a),
        is_latest_product_text(texts, pid, b),
    ensures
        a == b,
{
    if a < b {
        assert(time_le(texts[a].updated_at, texts[b].updated_at));
        assert(!time_le(texts[b].updated_at, texts[a].updated_at));
    }
    if b < a {
        assert(time_le(texts[b].updated_at, texts[a].updated_at));
        assert(!time_le(texts[a].updated_at, texts[b].updated_at));
    }
}

/// The product rows that are migrated, with missing names filled under the
/// lenient policy, in input order.
pub fn filter_products(
    products: &Vec<Product>,
    texts: &Vec<ProductsTexts>,
    policy: NamePolicy,
) -> (r: Vec<Product>)
    ensures
        r@ == kept_products(products@, texts@, policy),
{
    let ghost name_it = |p: Product| named_product(p, texts@, policy);
    let ghost keep_it = |p: Product| product_kept(p, policy);
    let mut r: Vec<Product> = Vec::new();
    let mut i: usize = 0;
    while i < products.len()
        invariant
            i <= products@.len(),
            name_it == (|p: Product| named_product(p, texts@, policy)),
            keep_it == (|p: Product| product_kept(p, policy)),
            r@ == products@.subrange(0, i as int).map_values(name_it).filter(keep_it),
        decreases products@.len() - i,
    {
        let p = &products[i];
        let mut named = copy_product(p);
        if policy == NamePolicy::Lenient && p.name.as_str().is_empty() {
            match latest_product_text(texts, p.id) {
                Some(k) => {
                    proof {
                        let w = choose|w: int| is_latest_product_text(texts@, p.id, w);
                        lemma_latest_product_text_unique(texts@, p.id, w, k as int);
                    }
                    named.name = texts[k].name.clone();
                },
                None => {},
            }
        }
        assert(named == named_product(*p, texts@, policy));
        let keep = !(policy == NamePolicy::Strict && named.name.as_str().is_empty())
            && !mentions_test(named.name.as_str()) && named.deleted_at.is_none();
        proof {
            reveal(Seq::filter);
            let m = products@.subrange(0, i + 1).map_values(name_it);
            assert(m.drop_last() =~= products@.subrange(0, i as int).map_values(name_it));
            assert(m.last() == named);
        }
        if keep {
            r.push(named);
        }
        i = i + 1;
    }
    assert(products@.subrange(0, products@.len() as int) =~= products@);
    r
}

impl FinalProduct {
    /// Makes the product rows ready for creation: keeps the migrated rows
    /// (filling missing names under the lenient policy), derives slugs,
    /// purifies descriptions, copies prices, assigns each its newest
    /// category link, resolves its image URLs through the media server at
    /// `media_host`, and makes SKUs unique in row order.
    pub fn from_products(
        products: Vec<Product>,
        categories: &Vec<FinalCategory>,
        rel_category_product: &Vec<CategoryProduct>,
        file_products: &Vec<FileProduct>,
        files: &Vec<File>,
        texts: &Vec<ProductsTexts>,
        policy: NamePolicy,
        media_host: &str,
    ) -> (r: Vec<FinalProduct>)
        ensures
            r@.len() == kept_products(products@, texts@, policy).len(),
            forall|i: int|
                0 <= i < r@.len() ==> materialized(
                    #[trigger] r@[i],
                    kept_products(products@, texts@, policy)[i],
                    categories@,
                    rel_category_product@,
                    file_products@,
                    files@,
                    media_host@,
                ),
            forall|i: int|
                0 <= i < r@.len() ==> (#[trigger] r@[i]).sku@ == unique_sku(
                    codes_of(kept_products(products@, texts@, policy)),
                    i,
                ),
    {
        let kept = filter_products(&products, texts, policy);
        let mut codes: Vec<String> = Vec::new();
        let mut i: usize = 0;
        while i < kept.len()
            invariant
                i <= kept@.len(),
                codes@.len() == i,
                forall|k: int| 0 <= k < i ==> (#[trigger] codes@[k])@ == kept@[k].code@,
            decreases kept@.len() - i,
        {
            codes.push(kept[i].code.clone());
            i = i + 1;
        }
        assert(codes@.map_values(|s: String| s@) =~= codes_of(kept@));
        let skus = dedup_skus(&codes);
        let mut r: Vec<FinalProduct> = Vec::new();
        let mut i: usize = 0;
        while i < kept.len()
            invariant
                i <= kept@.len(),
                kept@ == kept_products(products@, texts@, policy),
                skus@.len() == kept@.len(),
                forall|k: int|
                    0 <= k < kept@.len() ==> (#[trigger] skus@[k])@ == unique_sku(codes_of(kept@), k),
                r@.len() == i,
                forall|k: int|
                    0 <= k < i ==> materialized(
                        #[trigger] r@[k],
                        kept@[k],
                        categories@,
                        rel_category_product@,
                        file_products@,
                        files@,
                        media_host@,
                    ),
                forall|k: int| 0 <= k < i ==> (#[trigger] r@[k]).sku@ == unique_sku(codes_of(kept@), k),
            decreases kept@.len() - i,
        {
            let p = &kept[i];
            let mut product = copy_product(p);
            product.description = Jsonstring::purify_old_json(&p.description);
            product.short_description = Jsonstring::purify_old_json(&p.short_description);
            let slug = slugify(p.name.as_str());
            let category = product_category(rel_category_product, categories, p.id);
            let images = product_images(file_products, files, p.id, media_host);
            let price = p.retail_price_with_iva.clone();
            r.push(
                FinalProduct {
                    product,
                    saleor_id: None,
                    category,
                    images,
                    price,
                    sku: skus[i].clone(),
                    slug,
                },
            );
            i = i + 1;
        }
        r
    }
}

} // verus!
