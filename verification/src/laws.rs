//! Laws of route resolution, stated over the specification model and
//! proved once for every registry and request.

use vstd::prelude::*;

use crate::host::{
    lemma_find_key_props, spec_candidate, spec_extract, spec_find_key, spec_has_key, spec_insert,
    spec_insert_all, spec_select, spec_unique_keys,
};
use crate::route::{
    spec_is_prefix, spec_param_name, spec_params_of_segs, spec_route_key, Route,
};

verus! {

/// What the selected index means: when no route is selected, no route is
/// a candidate; when one is selected, it is a candidate with the longest
/// path pattern among the candidates, and the earliest registered among
/// those of that length.
pub proof fn lemma_select_props<H>(routes: Seq<Route<H>>, method: Seq<char>, path: Seq<char>)
    ensures
        match spec_select(routes, method, path) {
            None => forall|i: int|
                0 <= i < routes.len() ==> !spec_candidate(#[trigger] routes[i], method, path),
            Some(j) => {
                &&& 0 <= j < routes.len()
                &&& spec_candidate(routes[j], method, path)
                &&& forall|i: int|
                    0 <= i < routes.len() && spec_candidate(#[trigger] routes[i], method, path)
                        ==> routes[i].path@.len() <= routes[j].path@.len()
                &&& forall|i: int|
                    0 <= i < j && spec_candidate(#[trigger] routes[i], method, path)
                        ==> routes[i].path@.len() < routes[j].path@.len()
            },
        },
    decreases routes.len(),
{
    if routes.len() > 0 {
        lemma_select_props(routes.drop_last(), method, path);
        assert(forall|i: int| 0 <= i < routes.len() - 1 ==> routes.drop_last()[i] == routes[i]);
    }
}

/// Whenever some registered route's key is a string prefix of the request
/// key `method:path`, dispatch selects a route, and the route it selects
/// is a candidate for the request.
pub proof fn lemma_prefix_route_matches<H>(
    routes: Seq<Route<H>>,
    method: Seq<char>,
    path: Seq<char>,
    i: int,
)
    requires
        0 <= i < routes.len(),
        spec_is_prefix(routes[i].spec_key(), spec_route_key(method, path)),
    ensures
        spec_select(routes, method, path) is Some,
        spec_candidate(routes[spec_select(routes, method, path).unwrap()], method, path),
{
    assert(spec_candidate(routes[i], method, path));
    lemma_select_props(routes, method, path);
}

/// Route resolution reads only the declared methods and path patterns:
/// two registries that declare them equal, position by position —
/// whatever their handlers — select the same position for every request.
/// Hence a registry rebuilt from the same declared route set resolves
/// every request identically, and repeated dispatches of one request
/// against one registry cannot pick different routes.
pub proof fn lemma_select_determined<H1, H2>(
    r1: Seq<Route<H1>>,
    r2: Seq<Route<H2>>,
    method: Seq<char>,
    path: Seq<char>,
)
    requires
        r1.len() == r2.len(),
        forall|i: int|
            0 <= i < r1.len() ==> (#[trigger] r1[i].method@) == r2[i].method@ && r1[i].path@
                == r2[i].path@,
    ensures
        spec_select(r1, method, path) == spec_select(r2, method, path),
    decreases r1.len(),
{
    if r1.len() > 0 {
        assert(forall|i: int| 0 <= i < r1.len() - 1 ==> r1.drop_last()[i] == r1[i]);
        assert(forall|i: int| 0 <= i < r2.len() - 1 ==> r2.drop_last()[i] == r2[i]);
        lemma_select_determined(r1.drop_last(), r2.drop_last(), method, path);
        assert(r1.last().spec_key() == r2.last().spec_key());
        assert(r1.last().path@ == r2.last().path@);
        assert(spec_candidate(r1.last(), method, path) == spec_candidate(
            r2.last(),
            method,
            path,
        ));
        lemma_select_props(r1.drop_last(), method, path);
        match spec_select(r1.drop_last(), method, path) {
            Some(j) => {
                assert(r1[j].path@ == r2[j].path@);
            },
            None => {},
        }
    }
}

/// Unfolds the declared parameter names of a segment sequence from the
/// front.
proof fn lemma_params_of_segs_first(segs: Seq<Seq<char>>)
    requires
        segs.len() > 0,
    ensures
        spec_params_of_segs(segs) == (if crate::route::spec_is_param(segs.first()) {
            seq![spec_param_name(segs.first())]
        } else {
            Seq::<Seq<char>>::empty()
        }) + spec_params_of_segs(segs.drop_first()),
    decreases segs.len(),
{
    let head: Seq<Seq<char>> = if crate::route::spec_is_param(segs.first()) {
        seq![spec_param_name(segs.first())]
    } else {
        Seq::<Seq<char>>::empty()
    };
    if segs.len() == 1 {
        assert(segs.drop_first() =~= Seq::<Seq<char>>::empty());
        assert(segs.drop_last() =~= Seq::<Seq<char>>::empty());
        assert(segs.last() == segs.first());
        assert(spec_params_of_segs(segs) =~= head + spec_params_of_segs(segs.drop_first()));
    } else {
        let a = segs.drop_last();
        lemma_params_of_segs_first(a);
        assert(a.first() == segs.first());
        assert(segs.drop_first().drop_last() =~= a.drop_first());
        assert(segs.drop_first().last() == segs.last());
        if crate::route::spec_is_param(segs.last()) {
            assert(spec_params_of_segs(segs) == spec_params_of_segs(a).push(
                spec_param_name(segs.last()),
            ));
            assert(spec_params_of_segs(segs.drop_first()) == spec_params_of_segs(
                a.drop_first(),
            ).push(spec_param_name(segs.last())));
            assert((head + spec_params_of_segs(a.drop_first())).push(
                spec_param_name(segs.last()),
            ) =~= head + spec_params_of_segs(a.drop_first()).push(spec_param_name(segs.last())));
        } else {
            assert(spec_params_of_segs(segs) == spec_params_of_segs(a));
            assert(spec_params_of_segs(segs.drop_first()) == spec_params_of_segs(a.drop_first()));
        }
    }
}

/// When a pattern has no more segments than the request path, the names
/// of the extracted `(name, value)` pairs are exactly the pattern's
/// declared parameter names, in order: every parameter a pattern declares
/// is handed to the handler under its declared name.
pub proof fn lemma_extract_names(rsegs: Seq<Seq<char>>, psegs: Seq<Seq<char>>)
    requires
        rsegs.len() <= psegs.len(),
    ensures
        spec_extract(rsegs, psegs).map_values(|pr: (Seq<char>, Seq<char>)| pr.0)
            == spec_params_of_segs(rsegs),
    decreases rsegs.len(),
{
    let f = |pr: (Seq<char>, Seq<char>)| pr.0;
    if rsegs.len() == 0 {
        assert(spec_extract(rsegs, psegs).map_values(f) =~= spec_params_of_segs(rsegs));
    } else {
        lemma_extract_names(rsegs.drop_first(), psegs.drop_first());
        lemma_params_of_segs_first(rsegs);
        let rest = spec_extract(rsegs.drop_first(), psegs.drop_first());
        if crate::route::spec_is_param(rsegs.first()) {
            assert(spec_extract(rsegs, psegs) == seq![
                (spec_param_name(rsegs.first()), psegs.first()),
            ] + rest);
            assert(spec_extract(rsegs, psegs).map_values(f) =~= seq![
                spec_param_name(rsegs.first()),
            ] + rest.map_values(f));
        } else {
            assert(spec_extract(rsegs, psegs) == rest);
            assert(spec_params_of_segs(rsegs) =~= rest.map_values(f));
        }
    }
}

/// What one registration does to the registry, position by position.
proof fn lemma_insert_props<H>(reg: Seq<Route<H>>, r: Route<H>)
    ensures
        reg.len() <= spec_insert(reg, r).len(),
        spec_insert(reg, r).len() == if spec_has_key(reg, r.spec_key()) {
            reg.len() as int
        } else {
            reg.len() + 1int
        },
        forall|p: int| 0 <= p < reg.len() ==> (#[trigger] spec_insert(reg, r)[p].spec_key())
            == reg[p].spec_key(),
        forall|p: int|
            0 <= p < reg.len() && reg[p].spec_key() != r.spec_key() ==> (
            #[trigger] spec_insert(reg, r)[p]) == reg[p],
        spec_has_key(spec_insert(reg, r), r.spec_key()),
        forall|k: Seq<char>| spec_has_key(reg, k) ==> #[trigger] spec_has_key(
            spec_insert(reg, r),
            k,
        ),
        spec_unique_keys(reg) ==> spec_unique_keys(spec_insert(reg, r)),
        spec_unique_keys(reg) ==> forall|p: int|
            0 <= p < spec_insert(reg, r).len() && (#[trigger] spec_insert(reg, r)[p].spec_key())
                == r.spec_key() ==> spec_insert(reg, r)[p] == r,
{
    let i = spec_find_key(reg, r.spec_key());
    lemma_find_key_props(reg, r.spec_key());
    if i < reg.len() {
        assert(spec_insert(reg, r) == reg.update(i, r));
        assert(spec_has_key(reg, r.spec_key()));
        assert(spec_insert(reg, r)[i] == r);
        assert forall|k: Seq<char>| spec_has_key(reg, k) implies #[trigger] spec_has_key(
            spec_insert(reg, r),
            k,
        ) by {
            let p = choose|p: int|
                0 <= p < reg.len() && (#[trigger] reg[p].spec_key()) == k;
            if p == i {
                assert(spec_insert(reg, r)[i].spec_key() == k);
            } else {
                assert(spec_insert(reg, r)[p].spec_key() == k);
            }
        }
        if spec_unique_keys(reg) {
            assert forall|p1: int, p2: int|
                0 <= p1 < p2 < spec_insert(reg, r).len() implies (
            #[trigger] spec_insert(reg, r)[p1].spec_key()) != (
            #[trigger] spec_insert(reg, r)[p2].spec_key()) by {
                assert(spec_insert(reg, r)[p1].spec_key() == reg[p1].spec_key());
                assert(spec_insert(reg, r)[p2].spec_key() == reg[p2].spec_key());
            }
        }
    } else {
        assert(spec_insert(reg, r) == reg.push(r));
        assert(spec_insert(reg, r)[reg.len() as int] == r);
        assert(!spec_has_key(reg, r.spec_key()));
        assert forall|k: Seq<char>| spec_has_key(reg, k) implies #[trigger] spec_has_key(
            spec_insert(reg, r),
            k,
        ) by {
            let p = choose|p: int|
                0 <= p < reg.len() && (#[trigger] reg[p].spec_key()) == k;
            assert(spec_insert(reg, r)[p].spec_key() == k);
        }
    }
}

/// What registering a whole sequence does: keys already present keep
/// their positions, routes whose keys the sequence never mentions are
/// untouched, every registered key is present afterwards, and key
/// uniqueness survives.
proof fn lemma_insert_all_props<H>(reg: Seq<Route<H>>, rs: Seq<Route<H>>)
    ensures
        reg.len() <= spec_insert_all(reg, rs).len(),
        forall|p: int| 0 <= p < reg.len() ==> (
        #[trigger] spec_insert_all(reg, rs)[p].spec_key()) == reg[p].spec_key(),
        forall|p: int|
            0 <= p < reg.len() && (forall|j: int|
                0 <= j < rs.len() ==> (#[trigger] rs[j].spec_key()) != reg[p].spec_key()) ==> (
            #[trigger] spec_insert_all(reg, rs)[p]) == reg[p],
        forall|j: int| 0 <= j < rs.len() ==> spec_has_key(
            spec_insert_all(reg, rs),
            (#[trigger] rs[j].spec_key()),
        ),
        forall|k: Seq<char>| spec_has_key(reg, k) ==> #[trigger] spec_has_key(
            spec_insert_all(reg, rs),
            k,
        ),
        spec_unique_keys(reg) ==> spec_unique_keys(spec_insert_all(reg, rs)),
    decreases rs.len(),
{
    if rs.len() > 0 {
        let r = rs.first();
        let reg1 = spec_insert(reg, r);
        lemma_insert_props(reg, r);
        lemma_insert_all_props(reg1, rs.drop_first());
        assert(spec_insert_all(reg, rs) == spec_insert_all(reg1, rs.drop_first()));
        assert(forall|j: int| 0 <= j < rs.len() - 1 ==> (#[trigger] rs.drop_first()[j]) == rs[j
            + 1]);
        assert forall|j: int| 0 <= j < rs.len() implies spec_has_key(
            spec_insert_all(reg, rs),
            (#[trigger] rs[j].spec_key()),
        ) by {
            if j == 0 {
                assert(spec_has_key(reg1, r.spec_key()));
            } else {
                assert(rs.drop_first()[j - 1] == rs[j]);
            }
        }
        assert forall|p: int|
            0 <= p < reg.len() && (forall|j: int|
                0 <= j < rs.len() ==> (#[trigger] rs[j].spec_key()) != reg[p].spec_key()) implies (
        #[trigger] spec_insert_all(reg, rs)[p]) == reg[p] by {
            assert(rs[0].spec_key() != reg[p].spec_key());
            assert(reg1[p] == reg[p]);
            assert(forall|j: int|
                0 <= j < rs.drop_first().len() ==> (#[trigger] rs.drop_first()[j].spec_key())
                    != reg1[p].spec_key());
        }
    }
}

/// Registering the same declared route set a second time changes nothing:
/// every key it mentions already sits at its position holding the last
/// route declared for it, so each registration replaces a route with
/// itself, and lookup results are unchanged.
pub proof fn lemma_register_twice<H>(reg: Seq<Route<H>>, rs: Seq<Route<H>>)
    requires
        spec_unique_keys(reg),
    ensures
        spec_insert_all(spec_insert_all(reg, rs), rs) == spec_insert_all(reg, rs),
    decreases rs.len(),
{
    if rs.len() > 0 {
        let r = rs.first();
        let drop = rs.drop_first();
        let reg1 = spec_insert(reg, r);
        lemma_insert_props(reg, r);
        lemma_register_twice(reg1, drop);
        let big = spec_insert_all(reg, rs);
        assert(big == spec_insert_all(reg1, drop));
        lemma_insert_all_props(reg1, drop);
        // `r`'s key is present in the built registry, so re-registering it
        // updates in place.
        assert(spec_has_key(reg1, r.spec_key()));
        assert(spec_has_key(big, r.spec_key()));
        lemma_insert_props(big, r);
        let i = spec_find_key(big, r.spec_key());
        lemma_find_key_props(big, r.spec_key());
        assert(i < big.len());
        assert(spec_insert(big, r) == big.update(i, r));
        // The occupant at that position is `r` itself when `r`'s key is
        // not declared again later; otherwise later registrations decide.
        if forall|j: int| 0 <= j < drop.len() ==> (#[trigger] drop[j].spec_key())
            != r.spec_key() {
            // The position of `r` in `reg1` is untouched by `drop`.
            let p0 = choose|p: int|
                0 <= p < reg1.len() && (#[trigger] reg1[p].spec_key()) == r.spec_key();
            assert(reg1[p0] == r);
            assert(big[p0] == reg1[p0]);
            assert(spec_unique_keys(big));
            assert(big[i].spec_key() == r.spec_key());
            assert(i == p0);
            assert(big.update(i, r) =~= big);
            assert(spec_insert_all(spec_insert(big, r), drop) == spec_insert_all(big, drop));
        } else {
            let jw = choose|j: int|
                0 <= j < drop.len() && (#[trigger] drop[j].spec_key()) == r.spec_key();
            lemma_insert_all_agree(spec_insert(big, r), big, drop, i, jw);
        }
        assert(spec_insert_all(big, rs) == spec_insert_all(spec_insert(big, r), drop));
        assert(spec_insert_all(big, drop) == big);
    }
}

/// Two registries with the same keys at the same positions, which differ
/// at most at one position whose key the sequence registers again, agree
/// after that sequence is registered into both.
proof fn lemma_insert_all_agree<H>(
    reg1: Seq<Route<H>>,
    reg2: Seq<Route<H>>,
    rs: Seq<Route<H>>,
    d: int,
    jw: int,
)
    requires
        reg1.len() == reg2.len(),
        forall|p: int| 0 <= p < reg1.len() ==> (#[trigger] reg1[p].spec_key())
            == reg2[p].spec_key(),
        spec_unique_keys(reg1),
        0 <= d < reg1.len(),
        forall|p: int| 0 <= p < reg1.len() && p != d ==> (#[trigger] reg1[p]) == reg2[p],
        0 <= jw < rs.len(),
        rs[jw].spec_key() == reg1[d].spec_key(),
    ensures
        spec_insert_all(reg1, rs) == spec_insert_all(reg2, rs),
    decreases rs.len(),
{
    let r = rs.first();
    let drop = rs.drop_first();
    let i1 = spec_find_key(reg1, r.spec_key());
    let i2 = spec_find_key(reg2, r.spec_key());
    lemma_find_key_congruent(reg1, reg2, r.spec_key());
    assert(i1 == i2);
    lemma_find_key_props(reg1, r.spec_key());
    lemma_find_key_props(reg2, r.spec_key());
    lemma_insert_props(reg1, r);
    lemma_insert_props(reg2, r);
    let n1 = spec_insert(reg1, r);
    let n2 = spec_insert(reg2, r);
    assert(forall|j: int| 0 <= j < rs.len() - 1 ==> (#[trigger] drop[j]) == rs[j + 1]);
    if jw == 0 {
        // The differing position holds the key being registered now, so
        // both registries are overwritten with `r` there and agree
        // everywhere.
        assert(i1 == d || reg1[i1].spec_key() != reg1[d].spec_key());
        assert(i1 == d);
        assert(n1 =~= n2);
        assert(spec_insert_all(reg1, rs) == spec_insert_all(n1, drop));
        assert(spec_insert_all(reg2, rs) == spec_insert_all(n2, drop));
    } else {
        // The differing position survives this step and its key is
        // registered again later.
        if i1 < reg1.len() {
            assert(n1 == reg1.update(i1, r));
            assert(n2 == reg2.update(i1, r));
            if i1 == d {
                assert(n1 =~= n2);
                assert(spec_insert_all(reg1, rs) == spec_insert_all(n1, drop));
                assert(spec_insert_all(reg2, rs) == spec_insert_all(n2, drop));
            } else {
                assert(drop[jw - 1] == rs[jw]);
                assert(n1[d].spec_key() == reg1[d].spec_key());
                lemma_insert_all_agree(n1, n2, drop, d, jw - 1);
            }
        } else {
            assert(n1 == reg1.push(r));
            assert(n2 == reg2.push(r));
            assert(drop[jw - 1] == rs[jw]);
            assert(n1[d].spec_key() == reg1[d].spec_key());
            lemma_insert_all_agree(n1, n2, drop, d, jw - 1);
        }
    }
}

/// Registries with equal keys at equal positions locate every key at the
/// same position.
proof fn lemma_find_key_congruent<H>(reg1: Seq<Route<H>>, reg2: Seq<Route<H>>, key: Seq<char>)
    requires
        reg1.len() == reg2.len(),
        forall|p: int| 0 <= p < reg1.len() ==> (#[trigger] reg1[p].spec_key())
            == reg2[p].spec_key(),
    ensures
        spec_find_key(reg1, key) == spec_find_key(reg2, key),
    decreases reg1.len(),
{
    if reg1.len() > 0 {
        assert(reg1[0].spec_key() == reg2[0].spec_key());
        if reg1.first().spec_key() != key {
            assert(forall|p: int|
                0 <= p < reg1.len() - 1 ==> (#[trigger] reg1.drop_first()[p]) == reg1[p + 1]
                    && reg2.drop_first()[p] == reg2[p + 1]);
            lemma_find_key_congruent(reg1.drop_first(), reg2.drop_first(), key);
        }
    }
}

} // verus!
