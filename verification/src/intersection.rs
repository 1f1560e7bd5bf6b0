//! For each `impl A + B` bound: the types that implement every one of its traits.
use vstd::prelude::*;
use crate::crate_info::{Impl, ImplV};
use crate::module_info::TraitToImplPool;
use crate::order::{dedup_strings, lemma_dedup_properties};
use crate::rust_input::{IrTypeImplTrait, irs_view};
use crate::text::{contains_string, copy_strings, views};

verus! {

/// For each bound (its sorted trait names), the types that implement all its traits.
#[derive(Debug, Clone)]
pub struct BoundObjectPool {
    pub entries: Vec<(Vec<String>, Vec<String>)>,
}

/// The views of the entries: trait names, and implementing types.
pub open spec fn bound_entries_view(es: Seq<(Vec<String>, Vec<String>)>) -> Seq<
    (Seq<Seq<char>>, Seq<Seq<char>>),
> {
    es.map_values(|e: (Vec<String>, Vec<String>)| (views(e.0@), views(e.1@)))
}

impl View for BoundObjectPool {
    type V = Seq<(Seq<Seq<char>>, Seq<Seq<char>>)>;

    open spec fn view(&self) -> Seq<(Seq<Seq<char>>, Seq<Seq<char>>)> {
        bound_entries_view(self.entries@)
    }
}

impl BoundObjectPool {
    /// Whether the pool has no bound.
    pub fn is_empty(&self) -> (r: bool)
        ensures
            r == (self@.len() == 0),
    {
        self.entries.len() == 0
    }
}

/// The self types of the impls, in order.
pub open spec fn self_tys(impls: Seq<ImplV>) -> Seq<Seq<char>> {
    impls.map_values(|i: ImplV| i.self_ty)
}

/// The types that implement every trait among `bounds`, by the impls in `pool`.
pub open spec fn common_self_tys(pool: Map<Seq<char>, Seq<ImplV>>, bounds: Seq<Seq<char>>) -> Set<
    Seq<char>,
> {
    Set::new(
        |s: Seq<char>|
            forall|i: int| 0 <= i < bounds.len() ==> self_tys(pool[#[trigger] bounds[i]]).contains(s),
    )
}

/// Every trait of every bound has impls in the pool, and every bound has a trait.
pub open spec fn bounds_covered(pool: Map<Seq<char>, Seq<ImplV>>, irs: Seq<Seq<Seq<char>>>) -> bool {
    forall|i: int|
        0 <= i < irs.len() ==> (#[trigger] irs[i]).len() > 0 && forall|j: int|
            0 <= j < irs[i].len() ==> pool.contains_key(#[trigger] irs[i][j])
}

/// The self types of the impls.
fn impl_self_tys(impls: &Vec<Impl>) -> (r: Vec<String>)
    ensures
        views(r@) == self_tys(impls.deep_view()),
{
    let mut r: Vec<String> = Vec::new();
    let mut i: usize = 0;
    while i < impls.len()
        invariant
            i <= impls.len(),
            r@.len() == i,
            forall|k: int| 0 <= k < i ==> (#[trigger] r@[k])@ == impls@[k].self_ty@,
        decreases impls.len() - i,
    {
        r.push(impls[i].self_ty.clone());
        i = i + 1;
    }
    assert(views(r@) =~= self_tys(impls.deep_view()));
    r
}

/// The strings of `v` that are among `w`, in order.
fn retain_among(v: &Vec<String>, w: &Vec<String>) -> (r: Vec<String>)
    requires
        views(v@).no_duplicates(),
    ensures
        views(r@).no_duplicates(),
        views(r@).to_set() == views(v@).to_set().intersect(views(w@).to_set()),
{
    let mut r: Vec<String> = Vec::new();
    let mut i: usize = 0;
    while i < v.len()
        invariant
            i <= v.len(),
            views(v@).no_duplicates(),
            views(r@).no_duplicates(),
            forall|s: Seq<char>|
                views(r@).contains(s) <==> (views(v@).take(i as int).contains(s) && views(
                    w@,
                ).contains(s)),
        decreases v.len() - i,
    {
        let ghost vi = views(v@).take(i as int);
        let ghost x = v@[i as int]@;
        let ghost before = views(r@);
        assert(views(v@).take(i + 1) =~= vi.push(x));
        if contains_string(w, &v[i]) {
            assert(!views(r@).contains(v@[i as int]@)) by {
                if vi.contains(v@[i as int]@) {
                    let k = choose|k: int| 0 <= k < vi.len() && vi[k] == v@[i as int]@;
                    assert(views(v@)[k] == views(v@)[i as int]);
                }
            }
            let ghost o = views(r@);
            r.push(v[i].clone());
            assert(views(r@) =~= o.push(v@[i as int]@));
            assert forall|a: int, b: int|
                0 <= a < views(r@).len() && 0 <= b < views(r@).len() && a != b implies views(
                r@,
            )[a] != views(r@)[b] by {
                if a < o.len() && b < o.len() {
                    assert(o[a] != o[b]);
                } else if a == o.len() {
                    assert(o.contains(o[b]));
                } else {
                    assert(o.contains(o[a]));
                }
            }
        }
        proof {
            assert forall|s: Seq<char>|
                views(r@).contains(s) <==> (views(v@).take(i + 1).contains(s) && views(
                    w@,
                ).contains(s)) by {
                vstd::seq_lib::lemma_seq_contains_after_push(vi, x, s);
                vstd::seq_lib::lemma_seq_contains_after_push(before, x, s);
            }
        }
        i = i + 1;
    }
    assert(views(v@).take(i as int) =~= views(v@));
    assert(views(r@).to_set() =~= views(v@).to_set().intersect(views(w@).to_set()));
    r
}

/// The trait at position `j` of bound `i` is the first, bound by bound and trait by
/// trait, that has no impls in the pool.
pub open spec fn first_missing(
    pool: Map<Seq<char>, Seq<ImplV>>,
    irs: Seq<Seq<Seq<char>>>,
    i: int,
    j: int,
) -> bool {
    &&& 0 <= i < irs.len()
    &&& 0 <= j < irs[i].len()
    &&& !pool.contains_key(irs[i][j])
    &&& forall|a: int, b: int|
        0 <= a < i && 0 <= b < irs[a].len() ==> pool.contains_key(#[trigger] irs[a][b])
    &&& forall|b: int| 0 <= b < j ==> pool.contains_key(#[trigger] irs[i][b])
}

/// The first trait of some bound that has no impls in the pool, where one has none.
pub fn missing_impl_trait(
    ir_type_impl_traits_pool: &Vec<IrTypeImplTrait>,
    trait_to_impl_pool: &TraitToImplPool,
) -> (r: Option<String>)
    requires
        trait_to_impl_pool.wf(),
    ensures
        match r {
            Some(t) => exists|i: int, j: int|
                first_missing(trait_to_impl_pool.map(), irs_view(ir_type_impl_traits_pool@), i, j)
                    && #[trigger] irs_view(ir_type_impl_traits_pool@)[i][j] == t@,
            None => forall|i: int, j: int|
                0 <= i < ir_type_impl_traits_pool@.len() && 0 <= j
                    < ir_type_impl_traits_pool@[i]@.len()
                    ==> trait_to_impl_pool.map().contains_key(
                    #[trigger] ir_type_impl_traits_pool@[i]@[j],
                ),
        },
{
    let mut i: usize = 0;
    while i < ir_type_impl_traits_pool.len()
        invariant
            i <= ir_type_impl_traits_pool.len(),
            trait_to_impl_pool.wf(),
            forall|a: int, j: int|
                0 <= a < i && 0 <= j < ir_type_impl_traits_pool@[a]@.len() ==> trait_to_impl_pool.map().contains_key(
                    #[trigger] ir_type_impl_traits_pool@[a]@[j],
                ),
        decreases ir_type_impl_traits_pool.len() - i,
    {
        let bounds = &ir_type_impl_traits_pool[i].trait_bounds;
        let mut j: usize = 0;
        while j < bounds.len()
            invariant
                j <= bounds.len(),
                i < ir_type_impl_traits_pool.len(),
                bounds == ir_type_impl_traits_pool@[i as int].trait_bounds,
                trait_to_impl_pool.wf(),
                forall|a: int, b: int|
                    0 <= a < i && 0 <= b < ir_type_impl_traits_pool@[a]@.len() ==> trait_to_impl_pool.map().contains_key(
                        #[trigger] ir_type_impl_traits_pool@[a]@[b],
                    ),
                forall|b: int|
                    0 <= b < j ==> trait_to_impl_pool.map().contains_key(
                        #[trigger] ir_type_impl_traits_pool@[i as int]@[b],
                    ),
            decreases bounds.len() - j,
        {
            assert(ir_type_impl_traits_pool@[i as int]@[j as int] == bounds@[j as int]@);
            let found = trait_to_impl_pool.get(&bounds[j]);
            if found.is_none() {
                let t = bounds[j].clone();
                proof {
                    let iv = irs_view(ir_type_impl_traits_pool@);
                    assert(iv[i as int][j as int] == t@);
                    assert forall|a: int, b: int|
                        0 <= a < i && 0 <= b < iv[a].len() implies trait_to_impl_pool.map().contains_key(
                        #[trigger] iv[a][b],
                    ) by {
                        assert(iv[a] == ir_type_impl_traits_pool@[a]@);
                    }
                    assert forall|b: int| 0 <= b < j implies trait_to_impl_pool.map().contains_key(
                        #[trigger] iv[i as int][b],
                    ) by {
                        assert(iv[i as int] == ir_type_impl_traits_pool@[i as int]@);
                    }
                    assert(first_missing(trait_to_impl_pool.map(), iv, i as int, j as int));
                }
                return Some(t);
            }
            j = j + 1;
        }
        i = i + 1;
    }
    None
}

/// For each bound: the types that implement every one of its traits, by the impls of
/// each trait in `trait_to_impl_pool`.
pub fn intersection_bound_trait_to_object_pool(
    ir_type_impl_traits_pool: Vec<IrTypeImplTrait>,
    trait_to_impl_pool: &TraitToImplPool,
) -> (r: BoundObjectPool)
    requires
        trait_to_impl_pool.wf(),
        irs_view(ir_type_impl_traits_pool@).no_duplicates(),
        bounds_covered(trait_to_impl_pool.map(), irs_view(ir_type_impl_traits_pool@)),
    ensures
        r@.len() == ir_type_impl_traits_pool@.len(),
        forall|i: int|
            0 <= i < r@.len() ==> {
                &&& (#[trigger] r@[i]).0 == ir_type_impl_traits_pool@[i]@
                &&& r@[i].1.no_duplicates()
                &&& r@[i].1.to_set() == common_self_tys(
                    trait_to_impl_pool.map(),
                    ir_type_impl_traits_pool@[i]@,
                )
            },
        r@.map_values(|e: (Seq<Seq<char>>, Seq<Seq<char>>)| e.0) == irs_view(
            ir_type_impl_traits_pool@,
        ),
{
    let irs = &ir_type_impl_traits_pool;
    let ghost pm = trait_to_impl_pool.map();
    let ghost iv = irs_view(irs@);
    let mut entries: Vec<(Vec<String>, Vec<String>)> = Vec::new();
    let mut i: usize = 0;
    while i < irs.len()
        invariant
            i <= irs.len(),
            trait_to_impl_pool.wf(),
            pm == trait_to_impl_pool.map(),
            iv == irs_view(irs@),
            bounds_covered(pm, iv),
            entries@.len() == i,
            forall|k: int|
                0 <= k < i ==> {
                    &&& views((#[trigger] entries@[k]).0@) == irs@[k]@
                    &&& views(entries@[k].1@).no_duplicates()
                    &&& views(entries@[k].1@).to_set() == common_self_tys(pm, irs@[k]@)
                },
        decreases irs.len() - i,
    {
        let bounds = &irs[i].trait_bounds;
        let ghost b = irs@[i as int]@;
        assert(iv[i as int] == b);
        assert(b.len() > 0);
        assert(pm.contains_key(b[0]));
        assert(bounds@[0]@ == b[0]);
        let first = trait_to_impl_pool.get(&bounds[0]).unwrap();
        let tys = impl_self_tys(first);
        let mut set = dedup_strings(&tys);
        proof {
            lemma_dedup_properties(views(tys@));
            assert(views(set@).to_set() =~= self_tys(pm[b[0]]).to_set());
        }
        proof {
            assert(common_self_tys(pm, b.take(1)) =~= self_tys(pm[b[0]]).to_set()) by {
                assert forall|s: Seq<char>| #[trigger] common_self_tys(pm, b.take(1)).contains(s)
                    <==> self_tys(pm[b[0]]).to_set().contains(s) by {
                    assert(b.take(1)[0] == b[0]);
                }
            }
        }
        let mut j: usize = 1;
        while j < bounds.len()
            invariant
                1 <= j <= bounds.len(),
                i < irs.len(),
                bounds == irs@[i as int].trait_bounds,
                b == irs@[i as int]@,
                b.len() == bounds@.len(),
                trait_to_impl_pool.wf(),
                pm == trait_to_impl_pool.map(),
                forall|t: int| 0 <= t < b.len() ==> pm.contains_key(#[trigger] b[t]),
                views(set@).no_duplicates(),
                views(set@).to_set() == common_self_tys(pm, b.take(j as int)),
            decreases bounds.len() - j,
        {
            assert(bounds@[j as int]@ == b[j as int]);
            assert(pm.contains_key(b[j as int]));
            let other = trait_to_impl_pool.get(&bounds[j]).unwrap();
            let other_tys = impl_self_tys(other);
            let ghost prev = views(set@).to_set();
            set = retain_among(&set, &other_tys);
            proof {
                assert(b.take(j + 1) =~= b.take(j as int).push(b[j as int]));
                assert forall|s: Seq<char>| #[trigger] views(set@).to_set().contains(s) <==> common_self_tys(
                    pm,
                    b.take(j + 1),
                ).contains(s) by {
                    if common_self_tys(pm, b.take(j + 1)).contains(s) {
                        assert forall|t: int| 0 <= t < b.take(j as int).len() implies self_tys(
                            pm[#[trigger] b.take(j as int)[t]],
                        ).contains(s) by {
                            assert(b.take(j as int)[t] == b.take(j + 1)[t]);
                        }
                        assert(self_tys(pm[b.take(j + 1)[j as int]]).contains(s));
                    }
                    if views(set@).to_set().contains(s) {
                        assert forall|t: int| 0 <= t < b.take(j + 1).len() implies self_tys(
                            pm[#[trigger] b.take(j + 1)[t]],
                        ).contains(s) by {
                            if t < j {
                                assert(b.take(j as int)[t] == b.take(j + 1)[t]);
                                assert(prev.contains(s));
                            }
                        }
                    }
                }
                assert(views(set@).to_set() =~= common_self_tys(pm, b.take(j + 1)));
            }
            j = j + 1;
        }
        assert(b.take(j as int) =~= b);
        entries.push((copy_strings(bounds), set));
        i = i + 1;
    }
    let r = BoundObjectPool { entries };
    assert(r@.map_values(|e: (Seq<Seq<char>>, Seq<Seq<char>>)| e.0) =~= irs_view(irs@));
    r
}

} // verus!
