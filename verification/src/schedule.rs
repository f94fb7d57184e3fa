//! The order in which a set of checks is run: each after those it depends on.

use vstd::prelude::*;
use vstd::set_lib::{lemma_int_range, lemma_len_subset, lemma_subset_equality, set_int_range};

use crate::runner::CheckDef;
use crate::text::{same, texts};

verus! {

/// Whether the check at one of `places` has a name.
pub open spec fn is_named_among(checks: Seq<CheckDef>, places: Seq<int>, name: Seq<char>) -> bool {
    exists|j: int|
        0 <= j < places.len() && checks[#[trigger] places[j]].name@ == name
}

/// Whether every check that the one at `i` depends on is at one of `places`.
pub open spec fn is_ready(checks: Seq<CheckDef>, places: Seq<int>, i: int) -> bool {
    forall|d: int|
        0 <= d < checks[i].depends@.len() ==> is_named_among(
            checks,
            places,
            (#[trigger] checks[i].depends@[d])@,
        )
}

/// Whether `places` are places of checks, none twice, each after those it
/// depends on.
pub open spec fn is_run_order(checks: Seq<CheckDef>, places: Seq<int>) -> bool {
    &&& forall|i: int| 0 <= i < places.len() ==> 0 <= #[trigger] places[i] < checks.len()
    &&& places.no_duplicates()
    &&& forall|i: int|
        0 <= i < places.len() ==> is_ready(checks, places.take(i), #[trigger] places[i])
}

/// Whether `places` name every check, each after those it depends on.
pub open spec fn is_schedule(checks: Seq<CheckDef>, places: Seq<int>) -> bool {
    places.len() == checks.len() && is_run_order(checks, places)
}

/// Whether a check depends on one that there is not.
pub open spec fn is_dangling(checks: Seq<CheckDef>, i: int, dependency: Seq<char>) -> bool {
    &&& 0 <= i < checks.len()
    &&& texts(checks[i].depends@).contains(dependency)
    &&& forall|k: int| 0 <= k < checks.len() ==> (#[trigger] checks[k]).name@ != dependency
}

/// Why checks cannot be ordered.
#[derive(Debug, PartialEq, Eq)]
pub enum Disorder {
    /// A check depends on one that there is not.
    Unknown {
        /// The check.
        check: String,
        /// What it depends on.
        dependency: String,
    },
    /// Checks depend on each other in a circle.
    Cycle,
}

impl Disorder {
    /// What is said of it.
    pub fn message(&self) -> (r: String)
        ensures
            r@ == (match *self {
                Disorder::Unknown { check, dependency } => "check "@ + check@
                    + " depends on unknown check "@ + dependency@,
                Disorder::Cycle => "the checks depend on each other in a cycle"@,
            }),
    {
        match self {
            Disorder::Unknown { check, dependency } => {
                let mut r = "check ".to_owned();
                r.append(check.as_str());
                r.append(" depends on unknown check ");
                r.append(dependency.as_str());
                r
            },
            Disorder::Cycle => "the checks depend on each other in a cycle".to_owned(),
        }
    }
}

/// The places as numbers.
pub open spec fn ints(places: Seq<usize>) -> Seq<int> {
    places.map_values(|p: usize| p as int)
}

fn has_name(checks: &[CheckDef], places: &Vec<usize>, name: &str) -> (r: bool)
    requires
        forall|i: int| 0 <= i < places@.len() ==> (#[trigger] places@[i]) < checks@.len(),
    ensures
        r == is_named_among(checks@, ints(places@), name@),
{
    let mut j: usize = 0;
    while j < places.len()
        invariant
            j <= places@.len(),
            forall|i: int| 0 <= i < places@.len() ==> (#[trigger] places@[i]) < checks@.len(),
            forall|k: int| 0 <= k < j ==> checks@[#[trigger] ints(places@)[k]].name@ != name@,
        decreases places@.len() - j,
    {
        proof {
            assert(ints(places@)[j as int] == places@[j as int] as int);
        }
        if same(checks[places[j]].name.as_str(), name) {
            proof {
                assert(checks@[ints(places@)[j as int]].name@ == name@);
            }
            return true;
        }
        j += 1;
    }
    false
}

fn ready(checks: &[CheckDef], places: &Vec<usize>, i: usize) -> (r: bool)
    requires
        i < checks@.len(),
        forall|i: int| 0 <= i < places@.len() ==> (#[trigger] places@[i]) < checks@.len(),
    ensures
        r == is_ready(checks@, ints(places@), i as int),
{
    let mut d: usize = 0;
    while d < checks[i].depends.len()
        invariant
            i < checks@.len(),
            d <= checks@[i as int].depends@.len(),
            forall|i: int| 0 <= i < places@.len() ==> (#[trigger] places@[i]) < checks@.len(),
            forall|k: int|
                0 <= k < d ==> is_named_among(
                    checks@,
                    ints(places@),
                    (#[trigger] checks@[i as int].depends@[k])@,
                ),
        decreases checks@[i as int].depends@.len() - d,
    {
        if !has_name(checks, places, checks[i].depends[d].as_str()) {
            return false;
        }
        d += 1;
    }
    true
}

fn is_done(places: &Vec<usize>, i: usize) -> (r: bool)
    ensures
        r == ints(places@).contains(i as int),
{
    let mut j: usize = 0;
    while j < places.len()
        invariant
            j <= places@.len(),
            forall|k: int| 0 <= k < j ==> #[trigger] ints(places@)[k] != i,
        decreases places@.len() - j,
    {
        proof {
            assert(ints(places@)[j as int] == places@[j as int] as int);
        }
        if places[j] == i {
            proof {
                assert(ints(places@)[j as int] == i as int);
            }
            return true;
        }
        j += 1;
    }
    false
}

/// The first check that is not done and whose dependencies are, if there is one.
fn next_ready(checks: &[CheckDef], places: &Vec<usize>) -> (r: Option<usize>)
    requires
        forall|i: int| 0 <= i < places@.len() ==> (#[trigger] places@[i]) < checks@.len(),
    ensures
        match r {
            Some(i) => i < checks@.len() && !ints(places@).contains(i as int) && is_ready(
                checks@,
                ints(places@),
                i as int,
            ),
            None => forall|i: int|
                0 <= i < checks@.len() && !ints(places@).contains(i) ==> !#[trigger] is_ready(
                    checks@,
                    ints(places@),
                    i,
                ),
        },
{
    let mut i: usize = 0;
    while i < checks.len()
        invariant
            i <= checks@.len(),
            forall|i: int| 0 <= i < places@.len() ==> (#[trigger] places@[i]) < checks@.len(),
            forall|k: int|
                0 <= k < i && !ints(places@).contains(k) ==> !#[trigger] is_ready(
                    checks@,
                    ints(places@),
                    k,
                ),
        decreases checks@.len() - i,
    {
        if !is_done(places, i) && ready(checks, places, i) {
            return Some(i);
        }
        i += 1;
    }
    None
}

/// Different places of that many checks are all of them.
proof fn lemma_all_places(checks: Seq<CheckDef>, places: Seq<int>)
    requires
        is_schedule(checks, places),
    ensures
        forall|k: int| 0 <= k < checks.len() ==> places.contains(k),
{
    let all = vstd::set_lib::set_int_range(0, checks.len() as int);
    vstd::set_lib::lemma_int_range(0, checks.len() as int);
    places.unique_seq_to_set();
    assert(places.to_set().subset_of(all));
    vstd::set_lib::lemma_subset_equality(places.to_set(), all);
    assert forall|k: int| 0 <= k < checks.len() implies places.contains(k) by {
        assert(all.contains(k));
        assert(places.to_set().contains(k));
    }
}

/// No more places can be taken than there are checks.
proof fn lemma_places_fit(checks: Seq<CheckDef>, places: Seq<int>)
    requires
        is_run_order(checks, places),
    ensures
        places.len() <= checks.len(),
{
    let all = vstd::set_lib::set_int_range(0, checks.len() as int);
    vstd::set_lib::lemma_int_range(0, checks.len() as int);
    places.unique_seq_to_set();
    assert(places.to_set().subset_of(all));
    vstd::set_lib::lemma_len_subset(places.to_set(), all);
}

/// Where no check that is left is ready, no order of all of them exists.
proof fn lemma_stuck(checks: Seq<CheckDef>, done: Seq<int>, places: Seq<int>, from: int)
    requires
        is_schedule(checks, places),
        forall|i: int|
            0 <= i < checks.len() && !done.contains(i) ==> !#[trigger] is_ready(checks, done, i),
        0 <= from <= places.len(),
        forall|j: int| 0 <= j < from ==> done.contains(#[trigger] places[j]),
    ensures
        forall|j: int| 0 <= j < places.len() ==> done.contains(#[trigger] places[j]),
    decreases places.len() - from,
{
    if from < places.len() {
        let i = places[from];
        assert(is_ready(checks, places.take(from), i));
        if !done.contains(i) {
            assert(is_ready(checks, done, i)) by {
                assert forall|d: int| 0 <= d < checks[i].depends@.len() implies is_named_among(
                    checks,
                    done,
                    (#[trigger] checks[i].depends@[d])@,
                ) by {
                    let name = checks[i].depends@[d]@;
                    assert(is_named_among(checks, places.take(from), name));
                    let j = choose|j: int|
                        0 <= j < places.take(from).len() && checks[#[trigger] places.take(
                            from,
                        )[j]].name@ == name;
                    assert(places.take(from)[j] == places[j]);
                    assert(done.contains(places[j]));
                    let k = choose|k: int| 0 <= k < done.len() && done[k] == places[j];
                    assert(checks[done[k]].name@ == name);
                }
            }
        }
        lemma_stuck(checks, done, places, from + 1);
    }
}

/// The first dependency that names no check.
fn find_dangling(checks: &[CheckDef]) -> (r: Option<(usize, usize)>)
    ensures
        match r {
            Some(at) => at.0 < checks@.len() && at.1 < checks@[at.0 as int].depends@.len()
                && is_dangling(
                checks@,
                at.0 as int,
                checks@[at.0 as int].depends@[at.1 as int]@,
            ),
            None => forall|i: int, name: Seq<char>| !#[trigger] is_dangling(checks@, i, name),
        },
{
    let mut all: Vec<usize> = Vec::new();
    let mut n: usize = 0;
    while n < checks.len()
        invariant
            n <= checks@.len(),
            all@.len() == n,
            forall|i: int| 0 <= i < n ==> #[trigger] all@[i] == i,
        decreases checks@.len() - n,
    {
        all.push(n);
        n += 1;
    }
    let ghost every = ints(all@);
    proof {
        assert forall|i: int| 0 <= i < every.len() implies #[trigger] every[i] == i by {
            assert(every[i] == all@[i] as int);
        }
    }
    let mut i: usize = 0;
    while i < checks.len()
        invariant
            i <= checks@.len(),
            all@.len() == checks@.len(),
            forall|k: int| 0 <= k < all@.len() ==> #[trigger] all@[k] == k,
            every == ints(all@),
            every.len() == checks@.len(),
            forall|k: int| 0 <= k < every.len() ==> #[trigger] every[k] == k,
            forall|k: int| 0 <= k < i ==> is_ready(checks@, every, k),
        decreases checks@.len() - i,
    {
        let mut d: usize = 0;
        while d < checks[i].depends.len()
            invariant
                i < checks@.len(),
                d <= checks@[i as int].depends@.len(),
                all@.len() == checks@.len(),
                forall|k: int| 0 <= k < all@.len() ==> #[trigger] all@[k] == k,
                every == ints(all@),
                every.len() == checks@.len(),
                forall|k: int| 0 <= k < every.len() ==> #[trigger] every[k] == k,
                forall|k: int|
                    0 <= k < d ==> is_named_among(
                        checks@,
                        every,
                        (#[trigger] checks@[i as int].depends@[k])@,
                    ),
            decreases checks@[i as int].depends@.len() - d,
        {
            if !has_name(checks, &all, checks[i].depends[d].as_str()) {
                proof {
                    let name = checks@[i as int].depends@[d as int]@;
                    assert(texts(checks@[i as int].depends@)[d as int] == name);
                    assert forall|k: int| 0 <= k < checks@.len() implies (#[trigger] checks@[k]).name@
                        != name by {
                        assert(every[k] == k);
                    }
                }
                return Some((i, d));
            }
            d += 1;
        }
        i += 1;
    }
    proof {
        assert forall|i: int, name: Seq<char>| !#[trigger] is_dangling(checks@, i, name) by {
            if is_dangling(checks@, i, name) {
                let named = texts(checks@[i].depends@);
                let d = choose|d: int| 0 <= d < named.len() && named[d] == name;
                assert(named[d] == checks@[i].depends@[d]@);
                assert(is_ready(checks@, every, i));
                assert(is_named_among(checks@, every, checks@[i].depends@[d]@));
                let j = choose|j: int|
                    0 <= j < every.len() && checks@[#[trigger] every[j]].name@ == name;
                assert(every[j] == j);
                assert(checks@[j].name@ != name);
            }
        }
    }
    None
}

/// Whether names are those of all checks, each after those it depends on.
pub open spec fn names_a_schedule(checks: Seq<CheckDef>, names: Seq<Seq<char>>) -> bool {
    exists|places: Seq<int>| #[trigger]
        is_schedule(checks, places) && names == Seq::new(
            places.len(),
            |i: int| checks[places[i]].name@,
        )
}

/// Whether a check of a name depends on one that there is not.
pub open spec fn lacks(checks: Seq<CheckDef>, check: Seq<char>, dependency: Seq<char>) -> bool {
    exists|i: int| #[trigger]
        is_dangling(checks, i, dependency) && checks[i].name@ == check
}

/// The names of the checks in an order in which each comes after those it
/// depends on, or why there is none: a dependency that names no check, or
/// checks that depend on each other in a circle.
pub fn order(checks: &[CheckDef]) -> (r: Result<Vec<String>, Disorder>)
    ensures
        r matches Ok(names) ==> names_a_schedule(checks@, texts(names@)),
        r matches Err(Disorder::Unknown { check, dependency }) ==> lacks(
            checks@,
            check@,
            dependency@,
        ),
        r matches Err(Disorder::Cycle) ==> (forall|i: int, name: Seq<char>|
            !#[trigger] is_dangling(checks@, i, name)) && forall|places: Seq<int>|
            !#[trigger] is_schedule(checks@, places),
{
    if let Some((i, d)) = find_dangling(checks) {
        let check = checks[i].name.clone();
        let dependency = checks[i].depends[d].clone();
        proof {
            assert(is_dangling(checks@, i as int, dependency@));
        }
        return Err(Disorder::Unknown { check, dependency });
    }
    let n: usize = checks.len();
    let mut places: Vec<usize> = Vec::new();
    let mut names: Vec<String> = Vec::new();
    while places.len() < n
        invariant
            n == checks@.len(),
            places@.len() <= n,
            is_run_order(checks@, ints(places@)),
            forall|i: int, name: Seq<char>| !#[trigger] is_dangling(checks@, i, name),
            names@.len() == places@.len(),
            forall|i: int|
                0 <= i < names@.len() ==> (#[trigger] names@[i])@ == checks@[ints(
                    places@,
                )[i]].name@,
        decreases n - places@.len(),
    {
        let ghost done = ints(places@);
        proof {
            assert forall|i: int| 0 <= i < places@.len() implies (#[trigger] places@[i])
                < checks@.len() by {
                assert(done[i] == places@[i] as int);
            }
        }
        match next_ready(checks, &places) {
            None => {
                proof {
                    assert forall|other: Seq<int>| !#[trigger] is_schedule(checks@, other) by {
                        if is_schedule(checks@, other) {
                            lemma_stuck(checks@, done, other, 0);
                            lemma_all_places(checks@, other);
                            lemma_covering(checks@, done, other);
                        }
                    }
                }
                return Err(Disorder::Cycle);
            },
            Some(i) => {
                names.push(checks[i].name.clone());
                places.push(i);
                proof {
                    lemma_one_more(checks@, done, i as int);
                    assert(ints(places@) =~= done.push(i as int));
                    lemma_places_fit(checks@, ints(places@));
                    assert forall|k: int| 0 <= k < names@.len() implies (#[trigger] names@[k])@
                        == checks@[ints(places@)[k]].name@ by {
                        if k < done.len() {
                            assert(ints(places@)[k] == done[k]);
                        }
                    }
                }
            },
        }
    }
    proof {
        let p = ints(places@);
        assert(is_schedule(checks@, p));
        assert(texts(names@) =~= Seq::new(p.len(), |i: int| checks@[p[i]].name@));
    }
    Ok(names)
}

/// A ready check may come next.
proof fn lemma_one_more(checks: Seq<CheckDef>, done: Seq<int>, i: int)
    requires
        is_run_order(checks, done),
        0 <= i < checks.len(),
        !done.contains(i),
        is_ready(checks, done, i),
    ensures
        is_run_order(checks, done.push(i)),
{
    let next = done.push(i);
    assert forall|k: int| 0 <= k < next.len() implies is_ready(
        checks,
        next.take(k),
        #[trigger] next[k],
    ) by {
        if k < done.len() {
            assert(next.take(k) =~= done.take(k));
        } else {
            assert(next.take(k) =~= done);
        }
    }
}

/// Places that hold all of a schedule are as many as there are checks.
proof fn lemma_covering(checks: Seq<CheckDef>, done: Seq<int>, all: Seq<int>)
    requires
        is_schedule(checks, all),
        forall|j: int| 0 <= j < all.len() ==> done.contains(#[trigger] all[j]),
    ensures
        done.len() >= checks.len(),
{
    all.unique_seq_to_set();
    done.lemma_cardinality_of_set();
    assert(all.to_set().subset_of(done.to_set())) by {
        assert forall|x: int| all.to_set().contains(x) implies done.to_set().contains(x) by {
            assert(all.contains(x));
            let j = choose|j: int| 0 <= j < all.len() && all[j] == x;
            assert(done.contains(all[j]));
        }
    }
    vstd::set_lib::lemma_len_subset(all.to_set(), done.to_set());
}

/// Law: a schedule runs every check once, and none before those that it depends
/// on.
pub proof fn law_schedule_runs_dependencies_first(
    checks: Seq<CheckDef>,
    places: Seq<int>,
    i: int,
    d: int,
)
    requires
        is_schedule(checks, places),
    ensures
        places.len() == checks.len(),
        places.no_duplicates(),
        0 <= i < checks.len() ==> places.contains(i),
        0 <= i < places.len() && 0 <= d < checks[places[i]].depends@.len() ==> exists|j: int|
            0 <= j < i && checks[#[trigger] places[j]].name@ == checks[places[i]].depends@[d]@,
{
    if 0 <= i < checks.len() {
        lemma_schedule_covers(checks, places, i);
    }
    if 0 <= i < places.len() && 0 <= d < checks[places[i]].depends@.len() {
        let front = places.take(i);
        assert(is_ready(checks, front, places[i]));
        let name = checks[places[i]].depends@[d]@;
        assert(is_named_among(checks, front, name));
        let j = choose|j: int| 0 <= j < front.len() && checks[#[trigger] front[j]].name@ == name;
        assert(places[j] == front[j]);
        assert(checks[places[j]].name@ == name);
    }
}

/// Law: a set is refused for a dependency only where a check names one that there
/// is not.
pub proof fn law_missing_dependency_is_named(
    checks: Seq<CheckDef>,
    check: Seq<char>,
    dependency: Seq<char>,
)
    requires
        lacks(checks, check, dependency),
    ensures
        exists|i: int|
            0 <= i < checks.len() && (#[trigger] checks[i]).name@ == check && texts(
                checks[i].depends@,
            ).contains(dependency),
        forall|k: int| 0 <= k < checks.len() ==> (#[trigger] checks[k]).name@ != dependency,
{
    let i = choose|i: int| #[trigger]
        is_dangling(checks, i, dependency) && checks[i].name@ == check;
    assert(checks[i].name@ == check);
}

/// Places in a schedule are all the places there are.
pub proof fn lemma_schedule_covers(checks: Seq<CheckDef>, places: Seq<int>, i: int)
    requires
        is_schedule(checks, places),
        0 <= i < checks.len(),
    ensures
        places.contains(i),
{
    let n = checks.len() as int;
    let held = places.to_set();
    places.unique_seq_to_set();
    lemma_int_range(0, n);
    assert forall|p: int| held.contains(p) implies set_int_range(0, n).contains(p) by {
        let k = choose|k: int| 0 <= k < places.len() && places[k] == p;
        assert(0 <= places[k] < checks.len());
    }
    lemma_len_subset(held, set_int_range(0, n));
    lemma_subset_equality(held, set_int_range(0, n));
    assert(held.contains(i));
}

} // verus!
