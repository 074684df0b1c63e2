//! Dependency-aware ordering of services: at each step the alphabetically
//! least service whose dependencies have all been placed goes next; where
//! a cycle leaves none, the alphabetically least remaining one does.
use vstd::prelude::*;
use crate::compose::{ParsedService, ServiceModel, models, strs};
use crate::text::{lex_lt, str_eq, str_lt};

verus! {

/// No other service of `rem` is among the dependencies of `x`.
pub open spec fn ready_in(x: ServiceModel, rem: Seq<ServiceModel>) -> bool {
    forall|j: int|
        0 <= j < rem.len() && rem[j].name != x.name ==> !x.depends_on.contains(#[trigger] rem[j].name)
}

/// `a` is to be placed before `b` when both remain in `rem`.
pub open spec fn goes_before(a: ServiceModel, b: ServiceModel, rem: Seq<ServiceModel>) -> bool {
    ||| (ready_in(a, rem) && !ready_in(b, rem))
    ||| (ready_in(a, rem) == ready_in(b, rem) && lex_lt(a.name, b.name))
}

/// The position of the service among the first `n` of `rem` that goes
/// first; the earliest such on ties.
pub open spec fn best_among(rem: Seq<ServiceModel>, n: int) -> int
    decreases n,
{
    if n <= 1 {
        0
    } else {
        let b = best_among(rem, n - 1);
        if goes_before(rem[n - 1], rem[b], rem) {
            n - 1
        } else {
            b
        }
    }
}

pub proof fn lemma_best_in_range(rem: Seq<ServiceModel>, n: int)
    requires
        1 <= n,
    ensures
        0 <= best_among(rem, n) < n,
    decreases n,
{
    if n > 1 {
        lemma_best_in_range(rem, n - 1);
    }
}

/// The position of the service that is placed next.
pub open spec fn pick(rem: Seq<ServiceModel>) -> int {
    best_among(rem, rem.len() as int)
}

/// The services of `rem` in deployment order.
pub open spec fn dependency_order(rem: Seq<ServiceModel>) -> Seq<ServiceModel>
    decreases rem.len(),
{
    if rem.len() == 0 {
        Seq::empty()
    } else {
        let k = pick(rem);
        proof {
            lemma_best_in_range(rem, rem.len() as int);
        }
        seq![rem[k]] + dependency_order(rem.remove(k))
    }
}

/// Whether `s` is among `v`.
pub fn contains_str(v: &Vec<String>, s: &str) -> (r: bool)
    ensures
        r == strs(v@).contains(s@),
{
    let mut i: usize = 0;
    while i < v.len()
        invariant
            i <= v@.len(),
            forall|j: int| 0 <= j < i ==> v@[j]@ != s@,
        decreases v.len() - i,
    {
        if str_eq(v[i].as_str(), s) {
            assert(strs(v@)[i as int] == s@);
            return true;
        }
        i = i + 1;
    }
    assert forall|j: int| 0 <= j < strs(v@).len() implies strs(v@)[j] != s@ by {
        assert(strs(v@)[j] == v@[j]@);
    }
    false
}

/// Whether no other service of `rem` is among the dependencies of `x`.
pub fn is_ready(x: &ParsedService, rem: &Vec<ParsedService>) -> (r: bool)
    ensures
        r == ready_in(x.model(), models(rem@)),
{
    let mut j: usize = 0;
    while j < rem.len()
        invariant
            j <= rem@.len(),
            forall|i: int|
                0 <= i < j && rem@[i].name@ != x.name@ ==> !strs(x.depends_on@).contains(rem@[i].name@),
        decreases rem.len() - j,
    {
        if !str_eq(rem[j].name.as_str(), x.name.as_str())
            && contains_str(&x.depends_on, rem[j].name.as_str()) {
            assert(models(rem@)[j as int] == rem@[j as int].model());
            assert(x.model().depends_on.contains(models(rem@)[j as int].name));
            assert(models(rem@)[j as int].name != x.model().name);
            return false;
        }
        j = j + 1;
    }
    assert forall|i: int|
        0 <= i < models(rem@).len() && models(rem@)[i].name != x.model().name implies
        !x.model().depends_on.contains(#[trigger] models(rem@)[i].name) by {
        assert(models(rem@)[i] == rem@[i].model());
    }
    true
}

/// The position of the service that is placed next.
pub fn pick_index(rem: &Vec<ParsedService>) -> (k: usize)
    requires
        rem@.len() > 0,
    ensures
        k as int == pick(models(rem@)),
        k < rem@.len(),
{
    let ghost ms = models(rem@);
    let mut best: usize = 0;
    let mut best_ready = is_ready(&rem[0], rem);
    let mut n: usize = 1;
    while n < rem.len()
        invariant
            1 <= n <= rem@.len(),
            ms == models(rem@),
            best as int == best_among(ms, n as int),
            best < n,
            best_ready == ready_in(ms[best as int], ms),
        decreases rem.len() - n,
    {
        assert(ms[n as int] == rem@[n as int].model());
        assert(ms[best as int] == rem@[best as int].model());
        let r = is_ready(&rem[n], rem);
        let earlier = str_lt(rem[n].name.as_str(), rem[best].name.as_str());
        if (r && !best_ready) || (r == best_ready && earlier) {
            best = n;
            best_ready = r;
        }
        n = n + 1;
    }
    best
}

/// The services in deployment order.
pub fn order_services(services: Vec<ParsedService>) -> (r: Vec<ParsedService>)
    ensures
        models(r@) == dependency_order(models(services@)),
{
    let mut rem = services;
    let mut out: Vec<ParsedService> = Vec::new();
    while rem.len() > 0
        invariant
            models(out@) + dependency_order(models(rem@)) == dependency_order(models(services@)),
        decreases rem.len(),
    {
        let k = pick_index(&rem);
        let ghost before_rem = rem@;
        let ghost before_out = out@;
        let s = rem.remove(k);
        assert(models(rem@) =~= models(before_rem).remove(k as int));
        out.push(s);
        assert(models(out@) =~= models(before_out).push(s.model()));
        assert(dependency_order(models(before_rem)) =~= seq![s.model()] + dependency_order(models(rem@)));
        assert(models(out@) + dependency_order(models(rem@)) =~= models(before_out) + dependency_order(models(before_rem)));
    }
    assert(models(out@) + Seq::<ServiceModel>::empty() =~= models(out@));
    out
}

pub proof fn lemma_lex_irreflexive(a: Seq<char>)
    ensures
        !lex_lt(a, a),
    decreases a.len(),
{
    if a.len() > 0 {
        lemma_lex_irreflexive(a.drop_first());
    }
}

pub proof fn lemma_lex_transitive(a: Seq<char>, b: Seq<char>, c: Seq<char>)
    requires
        lex_lt(a, b),
        lex_lt(b, c),
    ensures
        lex_lt(a, c),
    decreases a.len(),
{
    if a.len() > 0 && a[0] == b[0] && b[0] == c[0] {
        lemma_lex_transitive(a.drop_first(), b.drop_first(), c.drop_first());
    }
}

proof fn lemma_goes_before_transitive(x: ServiceModel, y: ServiceModel, z: ServiceModel, rem: Seq<ServiceModel>)
    requires
        goes_before(x, y, rem),
        goes_before(y, z, rem),
    ensures
        goes_before(x, z, rem),
{
    if ready_in(x, rem) == ready_in(y, rem) && ready_in(y, rem) == ready_in(z, rem) {
        lemma_lex_transitive(x.name, y.name, z.name);
    }
}

/// No service among the first `n` goes before the one chosen among them.
proof fn lemma_best_is_first(rem: Seq<ServiceModel>, n: int)
    requires
        1 <= n <= rem.len(),
    ensures
        forall|j: int| 0 <= j < n ==> !goes_before(#[trigger] rem[j], rem[best_among(rem, n)], rem),
    decreases n,
{
    lemma_best_in_range(rem, n);
    if n == 1 {
        lemma_lex_irreflexive(rem[0].name);
    } else {
        lemma_best_is_first(rem, n - 1);
        lemma_best_in_range(rem, n - 1);
        let b = best_among(rem, n - 1);
        assert forall|j: int| 0 <= j < n implies !goes_before(#[trigger] rem[j], rem[best_among(rem, n)], rem) by {
            lemma_lex_irreflexive(rem[j].name);
            if goes_before(rem[n - 1], rem[b], rem) {
                if j < n - 1 && goes_before(rem[j], rem[n - 1], rem) {
                    lemma_goes_before_transitive(rem[j], rem[n - 1], rem[b], rem);
                }
            }
        }
    }
}

/// The service placed first: where some service of `rem` has no other
/// service of `rem` among its dependencies, it is such a service, and no
/// such service has a name that sorts before its name; the rest follow in
/// the order of the remaining services.
pub proof fn lemma_order_head(rem: Seq<ServiceModel>)
    requires
        rem.len() > 0,
    ensures
        ({
            let out = dependency_order(rem);
            let first = rem[pick(rem)];
            &&& out[0] == first
            &&& out.drop_first() == dependency_order(rem.remove(pick(rem)))
            &&& (exists|j: int| 0 <= j < rem.len() && ready_in(#[trigger] rem[j], rem)) ==> ready_in(first, rem)
            &&& forall|j: int| 0 <= j < rem.len() && ready_in(#[trigger] rem[j], rem) ==> !lex_lt(rem[j].name, first.name)
        }),
{
    lemma_best_in_range(rem, rem.len() as int);
    lemma_best_is_first(rem, rem.len() as int);
    let k = pick(rem);
    let out = dependency_order(rem);
    assert(out =~= seq![rem[k]] + dependency_order(rem.remove(k)));
    assert(out.drop_first() =~= dependency_order(rem.remove(k)));
    if exists|j: int| 0 <= j < rem.len() && ready_in(#[trigger] rem[j], rem) {
        let j = choose|j: int| 0 <= j < rem.len() && ready_in(#[trigger] rem[j], rem);
        assert(!goes_before(rem[j], rem[k], rem));
    }
    assert forall|j: int| 0 <= j < rem.len() && ready_in(#[trigger] rem[j], rem) implies !lex_lt(rem[j].name, rem[k].name) by {
        assert(!goes_before(rem[j], rem[k], rem));
    }
}

} // verus!
