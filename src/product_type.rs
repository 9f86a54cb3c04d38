//! Product-type resolution from the curated override tree, and the registry
//! that shares one product type per distinct name.

use vstd::prelude::*;

verus! {

broadcast use vstd::std_specs::vec::group_vec_axioms;

/// A node of the curated override tree: a category id, the product type
/// name given to it (empty when it inherits), a display name and children.
pub struct YamlCategories {
    pub meno_typu: String,
    pub meno: String,
    pub id: u32,
    pub podkategorie: Vec<YamlCategories>,
}

/// The outcome of looking a category up in the override tree.
pub enum TypeLookup {
    /// The category resolves to this type name.
    Found(String),
    /// The category is in the tree without a name of its own or of an
    /// ancestor so far: the nearest ancestor with a name decides.
    Inherit,
    /// The category is not in the tree.
    Absent,
}

/// The outcome of a lookup, over character sequences.
pub ghost enum TypeLookupSpec {
    Found(Seq<char>),
    Inherit,
    Absent,
}

impl View for TypeLookup {
    type V = TypeLookupSpec;

    open spec fn view(&self) -> TypeLookupSpec {
        match self {
            TypeLookup::Found(n) => TypeLookupSpec::Found(n@),
            TypeLookup::Inherit => TypeLookupSpec::Inherit,
            TypeLookup::Absent => TypeLookupSpec::Absent,
        }
    }
}

/// What a node answers when a lookup below it asks to inherit: its own name,
/// or a further request to inherit when it has none.
pub open spec fn own_or_inherit(t: YamlCategories) -> TypeLookupSpec {
    if t.meno_typu@.len() == 0 {
        TypeLookupSpec::Inherit
    } else {
        TypeLookupSpec::Found(t.meno_typu@)
    }
}

/// The lookup of `id` in `t`, scanning the children from index `k` on: the
/// node itself when its id matches, else the first child subtree that holds
/// the id, an inheriting answer being settled by this node's own name.
pub open spec fn lookup_from(t: YamlCategories, id: u32, k: int) -> TypeLookupSpec
    decreases t, t.podkategorie@.len() - k,
{
    if t.id == id {
        own_or_inherit(t)
    } else if k < 0 || k >= t.podkategorie@.len() {
        TypeLookupSpec::Absent
    } else {
        match lookup_from(t.podkategorie@[k], id, 0) {
            TypeLookupSpec::Found(n) => TypeLookupSpec::Found(n),
            TypeLookupSpec::Inherit => own_or_inherit(t),
            TypeLookupSpec::Absent => lookup_from(t, id, k + 1),
        }
    }
}

/// The lookup of `id` in the whole tree `t`.
pub open spec fn lookup(t: YamlCategories, id: u32) -> TypeLookupSpec {
    lookup_from(t, id, 0)
}

/// A product type; `saleor_id` is set once it exists remotely.
pub struct FinalProductType {
    pub name: String,
    pub saleor_id: Option<String>,
}

/// No two product types of a registry share a name.
pub open spec fn unique_names(reg: Seq<FinalProductType>) -> bool {
    forall|i: int, j: int|
        0 <= i < reg.len() && 0 <= j < reg.len() && i != j ==> #[trigger] reg[i].name@
            != #[trigger] reg[j].name@
}

/// Whether the registry holds a type of this name.
pub open spec fn has_name(reg: Seq<FinalProductType>, name: Seq<char>) -> bool {
    exists|i: int| 0 <= i < reg.len() && #[trigger] reg[i].name@ == name
}

/// The registry entry `r` is the one of name `n`: an existing entry when the
/// registry had one, else a new entry (without remote id) appended at the end.
pub open spec fn registered(
    before: Seq<FinalProductType>,
    after: Seq<FinalProductType>,
    n: Seq<char>,
    r: usize,
) -> bool {
    &&& r < after.len()
    &&& after[r as int].name@ == n
    &&& unique_names(after)
    &&& if has_name(before, n) {
        after == before
    } else {
        &&& after.len() == before.len() + 1
        &&& after.subrange(0, before.len() as int) == before
        &&& after[before.len() as int].saleor_id is None
    }
}

/// What resolving the type of a category does: for a found name, the result
/// is the index of the one registry entry of that name; otherwise nothing is
/// resolved and the registry is unchanged.
pub open spec fn resolved_type(
    tree: YamlCategories,
    id: u32,
    before: Seq<FinalProductType>,
    after: Seq<FinalProductType>,
    r: Option<usize>,
) -> bool {
    match lookup(tree, id) {
        TypeLookupSpec::Found(n) => match r {
            Some(k) => registered(before, after, n, k),
            None => false,
        },
        _ => r is None && after == before,
    }
}

impl YamlCategories {
    /// Looks `category_id` up in this subtree, scanning children from `k`.
    fn search_from(&self, category_id: u32, k: usize) -> (r: TypeLookup)
        requires
            k <= self.podkategorie@.len(),
        ensures
            r@ == lookup_from(*self, category_id, k as int),
        decreases self, self.podkategorie@.len() - k,
    {
        if self.id == category_id {
            if self.meno_typu.as_str().is_empty() {
                return TypeLookup::Inherit;
            }
            return TypeLookup::Found(self.meno_typu.clone());
        }
        if k == self.podkategorie.len() {
            return TypeLookup::Absent;
        }
        proof {
            assert(decreases_to!(*self => self.podkategorie));
            assert(decreases_to!(self.podkategorie => self.podkategorie[k as int]));
        }
        match self.podkategorie[k].search_from(category_id, 0) {
            TypeLookup::Found(name) => TypeLookup::Found(name),
            TypeLookup::Inherit => {
                if self.meno_typu.as_str().is_empty() {
                    TypeLookup::Inherit
                } else {
                    TypeLookup::Found(self.meno_typu.clone())
                }
            },
            TypeLookup::Absent => self.search_from(category_id, k + 1),
        }
    }

    /// Looks a category up in the override tree: its own type name, the
    /// nearest named ancestor's when it has none, or absent.
    pub fn search(&self, category_id: u32) -> (r: TypeLookup)
        ensures
            r@ == lookup(*self, category_id),
    {
        self.search_from(category_id, 0)
    }

    /// Resolves the product type of a category and returns its index in the
    /// registry, reusing the entry of the same name or registering a new one.
    pub fn find_product_type(
        &self,
        category_id: u32,
        product_types: &mut Vec<FinalProductType>,
    ) -> (r: Option<usize>)
        requires
            unique_names(old(product_types)@),
        ensures
            resolved_type(*self, category_id, old(product_types)@, final(product_types)@, r),
    {
        let found = self.search(category_id);
        match found {
            TypeLookup::Found(wanted) => {
                assert(lookup(*self, category_id) == TypeLookupSpec::Found(wanted@));
                let mut i: usize = 0;
                while i < product_types.len()
                    invariant
                        i <= product_types@.len(),
                        product_types@ == old(product_types)@,
                        unique_names(old(product_types)@),
                        lookup(*self, category_id) == TypeLookupSpec::Found(wanted@),
                        forall|j: int| 0 <= j < i ==> product_types@[j].name@ != wanted@,
                    decreases product_types@.len() - i,
                {
                    let same = product_types[i].name.eq(&wanted);
                    if same {
                        assert(has_name(product_types@, wanted@));
                        return Some(i);
                    }
                    i = i + 1;
                }
                let ghost before = product_types@;
                product_types.push(FinalProductType { name: wanted, saleor_id: None });
                assert(product_types@.subrange(0, before.len() as int) =~= before);
                assert(!has_name(before, wanted@));
                Some(i)
            },
            _ => None,
        }
    }
}

/// Two categories that resolve to the same name share one registry entry:
/// resolving a second time with a name already registered returns the same
/// index and leaves the registry as it was.
pub proof fn lemma_same_name_shares_type(
    reg0: Seq<FinalProductType>,
    reg1: Seq<FinalProductType>,
    reg2: Seq<FinalProductType>,
    n: Seq<char>,
    r1: usize,
    r2: usize,
)
    requires
        registered(reg0, reg1, n, r1),
        registered(reg1, reg2, n, r2),
    ensures
        r1 == r2,
        reg2 == reg1,
{
    assert(has_name(reg1, n)) by {
        assert(reg1[r1 as int].name@ == n);
    }
    if r1 != r2 {
        assert(reg1[r1 as int].name@ != reg1[r2 as int].name@);
    }
}

/// A category without a type name of its own, found in the subtree of child
/// `k` of `t` (the first child whose subtree holds it), takes `t`'s type name
/// when `t` has one.
pub proof fn lemma_nearest_named_ancestor(t: YamlCategories, id: u32, k: int)
    requires
        t.id != id,
        0 <= k < t.podkategorie@.len(),
        forall|j: int|
            0 <= j < k ==> lookup(#[trigger] t.podkategorie@[j], id) == TypeLookupSpec::Absent,
        lookup(t.podkategorie@[k], id) == TypeLookupSpec::Inherit,
        t.meno_typu@.len() > 0,
    ensures
        lookup(t, id) == TypeLookupSpec::Found(t.meno_typu@),
{
    lemma_scan_children(t, id, 0, k);
}

proof fn lemma_scan_children(t: YamlCategories, id: u32, from: int, k: int)
    requires
        t.id != id,
        0 <= from <= k < t.podkategorie@.len(),
        forall|j: int|
            0 <= j < k ==> lookup(#[trigger] t.podkategorie@[j], id) == TypeLookupSpec::Absent,
    ensures
        lookup_from(t, id, from) == lookup_from(t, id, k),
    decreases k - from,
{
    if from < k {
        assert(lookup(t.podkategorie@[from], id) == TypeLookupSpec::Absent);
        lemma_scan_children(t, id, from + 1, k);
    }
}

/// The index paths (child positions from this node down) of the
/// descendants without children whose ids are in `ids`, scanning the
/// children from `k` on, in depth-first order.
pub open spec fn leaves_from(t: YamlCategories, ids: Seq<u32>, k: int) -> Seq<Seq<usize>>
    decreases t, t.podkategorie@.len() - k,
{
    if k < 0 || k >= t.podkategorie@.len() {
        Seq::empty()
    } else {
        let c = t.podkategorie@[k];
        let here = if c.podkategorie@.len() > 0 {
            leaves_from(c, ids, 0).map_values(|p: Seq<usize>| seq![k as usize] + p)
        } else if ids.contains(c.id) {
            seq![seq![k as usize]]
        } else {
            Seq::empty()
        };
        here + leaves_from(t, ids, k + 1)
    }
}

/// The index paths of a list of paths.
pub open spec fn paths_view(v: Seq<Vec<usize>>) -> Seq<Seq<usize>> {
    v.map_values(|p: Vec<usize>| p@)
}

impl YamlCategories {
    fn last_layer_from(&self, ids: &Vec<u32>, k: usize) -> (r: Vec<Vec<usize>>)
        requires
            k <= self.podkategorie@.len(),
        ensures
            paths_view(r@) == leaves_from(*self, ids@, k as int),
        decreases self, self.podkategorie@.len() - k,
    {
        let mut r: Vec<Vec<usize>> = Vec::new();
        if k == self.podkategorie.len() {
            assert(paths_view(r@) =~= leaves_from(*self, ids@, k as int));
            return r;
        }
        proof {
            assert(decreases_to!(*self => self.podkategorie));
            assert(decreases_to!(self.podkategorie => self.podkategorie[k as int]));
        }
        let c = &self.podkategorie[k];
        let ghost here: Seq<Seq<usize>>;
        if c.podkategorie.len() > 0 {
            let below = c.last_layer_from(ids, 0);
            let ghost f = |p: Seq<usize>| seq![k as usize] + p;
            let mut j: usize = 0;
            while j < below.len()
                invariant
                    j <= below@.len(),
                    f == (|p: Seq<usize>| seq![k as usize] + p),
                    paths_view(r@) == paths_view(below@).subrange(0, j as int).map_values(f),
                decreases below@.len() - j,
            {
                let mut path: Vec<usize> = vec![k];
                let mut m: usize = 0;
                while m < below[j].len()
                    invariant
                        j < below@.len(),
                        m <= below@[j as int]@.len(),
                        path@ == seq![k as usize] + below@[j as int]@.subrange(0, m as int),
                    decreases below@[j as int]@.len() - m,
                {
                    path.push(below[j][m]);
                    assert(path@ =~= seq![k as usize] + below@[j as int]@.subrange(0, m + 1));
                    m = m + 1;
                }
                assert(below@[j as int]@.subrange(0, below@[j as int]@.len() as int) =~= below@[j as int]@);
                let ghost old_r = r@;
                r.push(path);
                assert(paths_view(r@) =~= paths_view(old_r).push(path@));
                assert(paths_view(r@) =~= paths_view(below@).subrange(0, j + 1).map_values(f));
                j = j + 1;
            }
            assert(paths_view(below@).subrange(0, below@.len() as int) =~= paths_view(below@));
            proof {
                here = leaves_from(*c, ids@, 0).map_values(f);
            }
        } else {
            let mut found = false;
            let mut m: usize = 0;
            while m < ids.len()
                invariant
                    m <= ids@.len(),
                    found == (exists|q: int| 0 <= q < m && ids@[q] == c.id),
                decreases ids@.len() - m,
            {
                if ids[m] == c.id {
                    found = true;
                }
                m = m + 1;
            }
            if found {
                let single = vec![k];
                assert(single@ =~= seq![k as usize]);
                r.push(single);
                assert(paths_view(r@) =~= seq![seq![k as usize]]);
            } else {
                assert(paths_view(r@) =~= Seq::<Seq<usize>>::empty());
            }
            proof {
                here = if ids@.contains(c.id) {
                    seq![seq![k as usize]]
                } else {
                    Seq::empty()
                };
            }
        }
        assert(paths_view(r@) == here);
        let rest = self.last_layer_from(ids, k + 1);
        let ghost front = paths_view(r@);
        let mut j: usize = 0;
        while j < rest.len()
            invariant
                j <= rest@.len(),
                paths_view(r@) == front + paths_view(rest@).subrange(0, j as int),
            decreases rest@.len() - j,
        {
            let mut path: Vec<usize> = Vec::new();
            let mut m: usize = 0;
            while m < rest[j].len()
                invariant
                    j < rest@.len(),
                    m <= rest@[j as int]@.len(),
                    path@ == rest@[j as int]@.subrange(0, m as int),
                decreases rest@[j as int]@.len() - m,
            {
                path.push(rest[j][m]);
                assert(path@ =~= rest@[j as int]@.subrange(0, m + 1));
                m = m + 1;
            }
            let ghost old_r = r@;
            r.push(path);
            proof {
                assert(path@ =~= rest@[j as int]@);
                assert(paths_view(r@) =~= paths_view(old_r).push(path@));
                assert(paths_view(r@) =~= front + paths_view(rest@).subrange(0, j + 1));
            }
            j = j + 1;
        }
        proof {
            assert(paths_view(rest@).subrange(0, rest@.len() as int) =~= paths_view(rest@));
        }
        r
    }

    /// The index paths (child positions from this node down) of the
    /// descendants that have no children yet and whose ids are in `ids`, in
    /// depth-first order: the layer of the tree that was added last.
    pub fn get_last_layer(&self, ids: &Vec<u32>) -> (r: Vec<Vec<usize>>)
        ensures
            paths_view(r@) == leaves_from(*self, ids@, 0),
    {
        self.last_layer_from(ids, 0)
    }
}

} // verus!
