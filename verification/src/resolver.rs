use crate::error::AnalysisError;
use crate::package::{key_of, keys_of, PackageKey};
use vstd::prelude::*;

verus! {

/// One declared dependency of a package: the name and the exact version of the
/// package depended on.
#[derive(Clone, Debug, PartialEq, Eq)]
pub struct Dependency {
    pub name: String,
    pub version: String,
}

/// One package of the manifest with the dependencies that it declares, in the
/// order in which it declares them.
#[derive(Clone, Debug, PartialEq, Eq)]
pub struct Package {
    pub name: String,
    pub version: String,
    pub dependencies: Vec<Dependency>,
}

/// A lockfile-style record of packages. A package is looked up by its name and
/// exact version; where two entries share both, the first counts.
#[derive(Clone, Debug, PartialEq, Eq)]
pub struct Manifest {
    pub packages: Vec<Package>,
}

impl Dependency {
    pub open spec fn key(self) -> PackageKey {
        (self.name@, self.version@)
    }
}

/// The packages that a list of dependencies names, in its order.
pub open spec fn declared_keys(dependencies: Seq<Dependency>) -> Seq<PackageKey> {
    Seq::new(dependencies.len(), |k: int| dependencies[k].key())
}

impl Package {
    pub open spec fn key(self) -> PackageKey {
        (self.name@, self.version@)
    }

    /// The packages that this one declares as its dependencies.
    pub open spec fn declared(self) -> Seq<PackageKey> {
        declared_keys(self.dependencies@)
    }
}

/// Entry `i` is the first of `packages` with name and version `key`.
pub open spec fn is_entry(packages: Seq<Package>, key: PackageKey, i: int) -> bool {
    &&& 0 <= i < packages.len()
    &&& packages[i].key() == key
    &&& forall|j: int| 0 <= j < i ==> (#[trigger] packages[j]).key() != key
}

/// The dependencies that the manifest declares for package `key`; `None` if it
/// has no such package.
pub open spec fn declared_by(packages: Seq<Package>, key: PackageKey) -> Option<Seq<PackageKey>> {
    if exists|i: int| is_entry(packages, key, i) {
        Some(packages[choose|i: int| is_entry(packages, key, i)].declared())
    } else {
        None
    }
}

/// `found` followed by the packages of `more` that it lacks, each once, in the
/// order of their first occurrence in `more`.
pub open spec fn add_fresh(found: Seq<PackageKey>, more: Seq<PackageKey>) -> Seq<PackageKey>
    decreases more.len(),
{
    if more.len() == 0 {
        found
    } else {
        let before = add_fresh(found, more.drop_last());
        if before.contains(more.last()) {
            before
        } else {
            before.push(more.last())
        }
    }
}

/// Every dependency that some package of the manifest declares.
pub open spec fn all_declared(packages: Seq<Package>) -> Seq<PackageKey>
    decreases packages.len(),
{
    if packages.len() == 0 {
        Seq::empty()
    } else {
        all_declared(packages.drop_last()) + packages.last().declared()
    }
}

/// How many of the packages that the manifest declares as dependencies are not
/// among `found`.
pub open spec fn unseen(packages: Seq<Package>, found: Seq<PackageKey>) -> nat {
    all_declared(packages).to_set().difference(found.to_set()).len()
}

proof fn lemma_first_entry(packages: Seq<Package>, key: PackageKey, i: int)
    requires
        is_entry(packages, key, i),
    ensures
        declared_by(packages, key) == Some(packages[i].declared()),
{
    let j = choose|j: int| is_entry(packages, key, j);
    assert(is_entry(packages, key, j));
    if j < i {
        assert(packages[j].key() != key);
    }
    if i < j {
        assert(packages[i].key() != key);
    }
}

proof fn lemma_declared_is_listed(packages: Seq<Package>, i: int, k: int)
    requires
        0 <= i < packages.len(),
        0 <= k < packages[i].declared().len(),
    ensures
        all_declared(packages).contains(packages[i].declared()[k]),
    decreases packages.len(),
{
    let rest = all_declared(packages.drop_last());
    let last = packages.last().declared();
    if i == packages.len() - 1 {
        assert((rest + last)[rest.len() + k] == last[k]);
    } else {
        lemma_declared_is_listed(packages.drop_last(), i, k);
        let at = choose|at: int|
            0 <= at < rest.len() && rest[at] == packages.drop_last()[i].declared()[k];
        assert((rest + last)[at] == rest[at]);
    }
}

/// What `add_fresh` keeps and what it adds.
pub proof fn lemma_add_fresh(found: Seq<PackageKey>, more: Seq<PackageKey>)
    ensures
        add_fresh(found, more).len() >= found.len(),
        add_fresh(found, more).subrange(0, found.len() as int) == found,
        forall|key: PackageKey|
            add_fresh(found, more).contains(key) <==> (found.contains(key) || more.contains(key)),
        found.no_duplicates() ==> add_fresh(found, more).no_duplicates(),
    decreases more.len(),
{
    let result = add_fresh(found, more);
    if more.len() == 0 {
        assert(result.subrange(0, found.len() as int) =~= found);
    } else {
        let head = more.drop_last();
        let before = add_fresh(found, head);
        lemma_add_fresh(found, head);
        assert(result.subrange(0, found.len() as int) =~= before.subrange(0, found.len() as int));
        assert forall|key: PackageKey|
            result.contains(key) <==> (found.contains(key) || more.contains(key)) by {
            if more.contains(key) {
                let k = choose|k: int| 0 <= k < more.len() && more[k] == key;
                if k < head.len() {
                    assert(head[k] == key);
                }
            }
            if head.contains(key) {
                let k = choose|k: int| 0 <= k < head.len() && head[k] == key;
                assert(more[k] == key);
            }
            assert(more[more.len() - 1] == more.last());
            if before.contains(key) {
                let k = choose|k: int| 0 <= k < before.len() && before[k] == key;
                assert(result[k] == key);
            }
            if result.contains(key) && !before.contains(key) {
                let k = choose|k: int| 0 <= k < result.len() && result[k] == key;
                if k < before.len() {
                    assert(before[k] == key);
                }
            }
            if !before.contains(more.last()) {
                assert(result[before.len() as int] == more.last());
            }
        }
    }
}

/// Where `add_fresh` adds packages that the manifest declares, either nothing
/// is added or fewer declared packages stay unseen.
proof fn lemma_add_fresh_progress(
    packages: Seq<Package>,
    found: Seq<PackageKey>,
    more: Seq<PackageKey>,
)
    requires
        forall|k: int| 0 <= k < more.len() ==> all_declared(packages).contains(#[trigger] more[k]),
    ensures
        add_fresh(found, more) == found || unseen(packages, add_fresh(found, more)) < unseen(
            packages,
            found,
        ),
{
    let result = add_fresh(found, more);
    lemma_add_fresh(found, more);
    if result.len() == found.len() {
        assert(result =~= result.subrange(0, found.len() as int));
    } else {
        let key = result[found.len() as int];
        assert(result.contains(key));
        if found.contains(key) {
            // `key` would occur in `result` twice, but only the part that is
            // `found` can hold it: what is added is not in `found`.
            lemma_added_is_new(found, more, found.len() as int);
        }
        let all = all_declared(packages).to_set();
        let before = all.difference(found.to_set());
        let after = all.difference(result.to_set());
        assert(more.contains(key));
        assert(before.contains(key));
        assert(!after.contains(key));
        assert forall|other: PackageKey| after.contains(other) implies before.remove(key).contains(
            other,
        ) by {
            if found.contains(other) {
                assert(result.contains(other));
            }
        }
        vstd::seq_lib::seq_to_set_is_finite(all_declared(packages));
        vstd::set_lib::lemma_len_subset(after, before.remove(key));
    }
}

/// An entry that `add_fresh` adds is not among `found`.
proof fn lemma_added_is_new(found: Seq<PackageKey>, more: Seq<PackageKey>, at: int)
    requires
        found.len() <= at < add_fresh(found, more).len(),
    ensures
        !found.contains(add_fresh(found, more)[at]),
    decreases more.len(),
{
    if more.len() > 0 {
        let before = add_fresh(found, more.drop_last());
        lemma_add_fresh(found, more.drop_last());
        if at < before.len() {
            lemma_added_is_new(found, more.drop_last(), at);
        } else {
            assert(!before.contains(more.last()));
        }
    }
}

/// The worklist closure: `found` is the list of packages discovered so far,
/// and those before position `next` have been expanded. Each further package
/// is expanded in turn: the dependencies that the manifest declares for it are
/// added where `found` lacks them. The result is the list once every package
/// in it has been expanded, or `None` if the manifest lacks one of them.
pub open spec fn closure_from(packages: Seq<Package>, found: Seq<PackageKey>, next: nat) -> Option<
    Seq<PackageKey>,
>
    decreases unseen(packages, found), found.len() - next,
    via closure_from_decreases
{
    if next >= found.len() {
        Some(found)
    } else {
        match declared_by(packages, found[next as int]) {
            None => None,
            Some(more) => closure_from(packages, add_fresh(found, more), next + 1),
        }
    }
}

#[via_fn]
proof fn closure_from_decreases(packages: Seq<Package>, found: Seq<PackageKey>, next: nat) {
    if next < found.len() {
        match declared_by(packages, found[next as int]) {
            None => {},
            Some(more) => {
                lemma_declared_by_is_listed(packages, found[next as int]);
                lemma_add_fresh_progress(packages, found, more);
            },
        }
    }
}

proof fn lemma_declared_by_is_listed(packages: Seq<Package>, key: PackageKey)
    ensures
        declared_by(packages, key) matches Some(more) ==> forall|k: int|
            0 <= k < more.len() ==> all_declared(packages).contains(#[trigger] more[k]),
{
    if let Some(more) = declared_by(packages, key) {
        let i = choose|i: int| is_entry(packages, key, i);
        assert forall|k: int| 0 <= k < more.len() implies all_declared(packages).contains(
            #[trigger] more[k],
        ) by {
            lemma_declared_is_listed(packages, i, k);
        }
    }
}

/// The transitive dependencies of package `root`: its direct dependencies, each
/// once, followed by what their expansion discovers, in the order of first
/// discovery. `None` if the manifest lacks `root` or a package that the
/// expansion comes to.
pub open spec fn transitive(packages: Seq<Package>, root: PackageKey) -> Option<Seq<PackageKey>> {
    match declared_by(packages, root) {
        None => None,
        Some(direct) => closure_from(packages, add_fresh(Seq::empty(), direct), 0),
    }
}

/// The worklist closure of a list without duplicates has none.
pub proof fn lemma_closure_has_no_duplicates(
    packages: Seq<Package>,
    found: Seq<PackageKey>,
    next: nat,
)
    requires
        found.no_duplicates(),
    ensures
        closure_from(packages, found, next) matches Some(all) ==> all.no_duplicates(),
    decreases unseen(packages, found), found.len() - next,
{
    if next < found.len() {
        if let Some(more) = declared_by(packages, found[next as int]) {
            lemma_declared_by_is_listed(packages, found[next as int]);
            lemma_add_fresh_progress(packages, found, more);
            lemma_add_fresh(found, more);
            lemma_closure_has_no_duplicates(packages, add_fresh(found, more), next + 1);
        }
    }
}

/// The transitive dependencies of a package never hold a package twice: a
/// package that several others depend on appears once.
pub proof fn lemma_transitive_has_no_duplicates(packages: Seq<Package>, root: PackageKey)
    ensures
        transitive(packages, root) matches Some(all) ==> all.no_duplicates(),
{
    if let Some(direct) = declared_by(packages, root) {
        lemma_add_fresh(Seq::empty(), direct);
        lemma_closure_has_no_duplicates(packages, add_fresh(Seq::empty(), direct), 0);
    }
}

/// The manifest declares package `to` as a dependency of package `from`.
pub open spec fn depends_on(packages: Seq<Package>, from: PackageKey, to: PackageKey) -> bool {
    declared_by(packages, from) matches Some(declared) && declared.contains(to)
}

/// Each package of `chain` depends on the next.
pub open spec fn is_dependency_chain(packages: Seq<Package>, chain: Seq<PackageKey>) -> bool {
    forall|k: int|
        0 <= k < chain.len() - 1 ==> depends_on(packages, #[trigger] chain[k], chain[k + 1])
}

/// Package `root` needs package `key`: a chain of one dependency or more leads
/// from the one to the other.
pub open spec fn needs(packages: Seq<Package>, root: PackageKey, key: PackageKey) -> bool {
    exists|chain: Seq<PackageKey>|
        #[trigger] is_dependency_chain(packages, chain) && chain.len() >= 2 && chain[0] == root
            && chain.last() == key
}

/// `found` holds the direct dependencies of `root` and, for each of its first
/// `expanded` packages, the dependencies of that package.
spec fn is_closed_so_far(
    packages: Seq<Package>,
    root: PackageKey,
    found: Seq<PackageKey>,
    expanded: int,
) -> bool {
    &&& forall|to: PackageKey| #[trigger] depends_on(packages, root, to) ==> found.contains(to)
    &&& forall|i: int, to: PackageKey|
        0 <= i < expanded && #[trigger] depends_on(packages, found[i], to) ==> found.contains(to)
}

proof fn lemma_needs_one_more(
    packages: Seq<Package>,
    root: PackageKey,
    through: PackageKey,
    key: PackageKey,
)
    requires
        through == root || needs(packages, root, through),
        depends_on(packages, through, key),
    ensures
        needs(packages, root, key),
{
    if through == root {
        let chain = seq![root, key];
        assert(is_dependency_chain(packages, chain));
        assert(chain[0] == root && chain.last() == key);
    } else {
        let chain = choose|chain: Seq<PackageKey>|
            #[trigger] is_dependency_chain(packages, chain) && chain.len() >= 2 && chain[0] == root
                && chain.last() == through;
        let longer = chain.push(key);
        assert forall|k: int| 0 <= k < longer.len() - 1 implies depends_on(
            packages,
            #[trigger] longer[k],
            longer[k + 1],
        ) by {
            if k < chain.len() - 1 {
                assert(longer[k] == chain[k]);
                assert(longer[k + 1] == chain[k + 1]);
            }
        }
        assert(is_dependency_chain(packages, longer));
        assert(longer[0] == root && longer.last() == key);
    }
}

proof fn lemma_chain_stays_inside(
    packages: Seq<Package>,
    root: PackageKey,
    found: Seq<PackageKey>,
    chain: Seq<PackageKey>,
    at: int,
)
    requires
        is_closed_so_far(packages, root, found, found.len() as int),
        is_dependency_chain(packages, chain),
        chain[0] == root,
        1 <= at < chain.len(),
    ensures
        found.contains(chain[at]),
    decreases at,
{
    assert(depends_on(packages, chain[at - 1], chain[at - 1 + 1]));
    if at > 1 {
        lemma_chain_stays_inside(packages, root, found, chain, at - 1);
        let i = choose|i: int| 0 <= i < found.len() && found[i] == chain[at - 1];
        assert(depends_on(packages, found[i], chain[at]));
    }
}

proof fn lemma_closure_is_what_is_needed(
    packages: Seq<Package>,
    root: PackageKey,
    found: Seq<PackageKey>,
    next: nat,
)
    requires
        next <= found.len(),
        forall|key: PackageKey| found.contains(key) ==> needs(packages, root, key),
        is_closed_so_far(packages, root, found, next as int),
    ensures
        closure_from(packages, found, next) matches Some(all) ==> forall|key: PackageKey|
            all.contains(key) <==> needs(packages, root, key),
    decreases unseen(packages, found), found.len() - next,
{
    if next >= found.len() {
        assert forall|key: PackageKey| needs(packages, root, key) implies found.contains(key) by {
            let chain = choose|chain: Seq<PackageKey>|
                #[trigger] is_dependency_chain(packages, chain) && chain.len() >= 2 && chain[0]
                    == root && chain.last() == key;
            lemma_chain_stays_inside(packages, root, found, chain, chain.len() - 1);
        }
    } else if let Some(more) = declared_by(packages, found[next as int]) {
        let longer = add_fresh(found, more);
        lemma_declared_by_is_listed(packages, found[next as int]);
        lemma_add_fresh_progress(packages, found, more);
        lemma_add_fresh(found, more);
        assert(found.contains(found[next as int]));
        assert forall|key: PackageKey| longer.contains(key) implies needs(packages, root, key) by {
            if !found.contains(key) {
                assert(more.contains(key));
                lemma_needs_one_more(packages, root, found[next as int], key);
            }
        }
        assert forall|i: int| 0 <= i < found.len() implies longer[i] == found[i] by {
            assert(longer.subrange(0, found.len() as int)[i] == longer[i]);
        }
        assert forall|i: int, to: PackageKey|
            0 <= i < next + 1 && #[trigger] depends_on(
                packages,
                longer[i],
                to,
            ) implies longer.contains(to) by {
            assert(longer[i] == found[i]);
            if i < next {
                assert(found.contains(to));
            } else {
                assert(more.contains(to));
            }
        }
        assert forall|to: PackageKey| #[trigger]
            depends_on(packages, root, to) implies longer.contains(to) by {
            assert(found.contains(to));
        }
        lemma_closure_is_what_is_needed(packages, root, longer, next + 1);
    }
}

/// The transitive dependencies of a package are the packages that it needs:
/// every package that a chain of dependencies leads to, and no other.
pub proof fn lemma_transitive_is_what_is_needed(packages: Seq<Package>, root: PackageKey)
    ensures
        transitive(packages, root) matches Some(all) ==> forall|key: PackageKey|
            all.contains(key) <==> needs(packages, root, key),
{
    if let Some(direct) = declared_by(packages, root) {
        let found = add_fresh(Seq::empty(), direct);
        lemma_add_fresh(Seq::empty(), direct);
        assert forall|key: PackageKey| found.contains(key) implies needs(packages, root, key) by {
            assert(direct.contains(key));
            lemma_needs_one_more(packages, root, root, key);
        }
        lemma_closure_is_what_is_needed(packages, root, found, 0);
    }
}

/// Position of the first entry of the manifest with the given name and exact
/// version.
fn find_package(manifest: &Manifest, name: &String, version: &String) -> (r: Option<usize>)
    ensures
        match r {
            Some(i) => is_entry(manifest.packages@, (name@, version@), i as int),
            None => declared_by(manifest.packages@, (name@, version@)) is None,
        },
{
    let mut i: usize = 0;
    while i < manifest.packages.len()
        invariant
            i <= manifest.packages.len(),
            forall|j: int|
                0 <= j < i ==> (#[trigger] manifest.packages@[j]).key() != (name@, version@),
        decreases manifest.packages.len() - i,
    {
        if manifest.packages[i].name == *name && manifest.packages[i].version == *version {
            return Some(i);
        }
        i += 1;
    }
    assert forall|i: int| !is_entry(manifest.packages@, (name@, version@), i) by {}
    None
}

/// The direct dependencies of a package.
///
/// The package is looked up by its name and its exact version; where the
/// manifest holds it, the result is the list of dependencies that it declares,
/// as declared: in that order, with nothing left out. Where the manifest does
/// not hold it, the error is `NotFound`.
pub fn get_deps(manifest: &Manifest, crate_name: &String, version: &String) -> (r: Result<
    Vec<(String, String)>,
    AnalysisError,
>)
    ensures
        match r {
            Ok(deps) => declared_by(manifest.packages@, (crate_name@, version@)) == Some(
                keys_of(deps@),
            ),
            Err(e) => e == AnalysisError::NotFound && declared_by(
                manifest.packages@,
                (crate_name@, version@),
            ) is None,
        },
{
    let entry = match find_package(manifest, crate_name, version) {
        Some(entry) => entry,
        None => {
            return Err(AnalysisError::NotFound);
        },
    };
    proof {
        lemma_first_entry(manifest.packages@, (crate_name@, version@), entry as int);
    }
    let declared = &manifest.packages[entry].dependencies;
    let mut result: Vec<(String, String)> = Vec::new();
    let mut i: usize = 0;
    while i < declared.len()
        invariant
            i <= declared.len(),
            result@.len() == i,
            forall|k: int| 0 <= k < i ==> key_of(#[trigger] result@[k]) == declared@[k].key(),
        decreases declared.len() - i,
    {
        result.push((declared[i].name.clone(), declared[i].version.clone()));
        i += 1;
    }
    assert(keys_of(result@) =~= declared_keys(declared@));
    Ok(result)
}

/// Tells whether `list` names the package with the given name and version.
fn contains_key(list: &Vec<(String, String)>, name: &String, version: &String) -> (b: bool)
    ensures
        b == keys_of(list@).contains((name@, version@)),
{
    let mut i: usize = 0;
    while i < list.len()
        invariant
            i <= list.len(),
            forall|k: int| 0 <= k < i ==> (#[trigger] keys_of(list@)[k]) != (name@, version@),
        decreases list.len() - i,
    {
        if list[i].0 == *name && list[i].1 == *version {
            assert(keys_of(list@)[i as int] == (name@, version@));
            return true;
        }
        i += 1;
    }
    false
}

/// Appends to `found` each of `more` that it lacks.
fn append_fresh(found: &mut Vec<(String, String)>, more: &Vec<Dependency>)
    ensures
        keys_of(final(found)@) == add_fresh(keys_of(old(found)@), declared_keys(more@)),
{
    let ghost before = keys_of(found@);
    let ghost all = declared_keys(more@);
    let mut i: usize = 0;
    assert(all.take(0) =~= Seq::<PackageKey>::empty());
    while i < more.len()
        invariant
            i <= more.len(),
            all == declared_keys(more@),
            keys_of(found@) == add_fresh(before, all.take(i as int)),
        decreases more.len() - i,
    {
        let ghost so_far = keys_of(found@);
        proof {
            assert(all.take(i + 1).drop_last() =~= all.take(i as int));
            assert(all.take(i + 1).last() == more@[i as int].key());
        }
        if !contains_key(found, &more[i].name, &more[i].version) {
            found.push((more[i].name.clone(), more[i].version.clone()));
            assert(keys_of(found@) =~= so_far.push(more@[i as int].key()));
        }
        i += 1;
    }
    assert(all.take(more.len() as int) =~= all);
}

/// The transitive dependencies of a package.
///
/// The direct dependencies come first, in the order in which the package
/// declares them. Then each package of the list is expanded in turn: the
/// dependencies that the manifest declares for it are appended where the list
/// lacks them. So every dependency of one depth is expanded before any of the
/// next, the list holds each package once, however many paths lead to it, and
/// the expansion ends even where packages depend on each other in a circle.
///
/// The error is `NotFound`, and it comes exactly if the manifest lacks the
/// package itself or one of the packages that the expansion comes to.
pub fn get_all_deps(manifest: &Manifest, crate_name: &String, version: &String) -> (r: Result<
    Vec<(String, String)>,
    AnalysisError,
>)
    ensures
        match r {
            Ok(deps) => transitive(manifest.packages@, (crate_name@, version@)) == Some(
                keys_of(deps@),
            ) && keys_of(deps@).no_duplicates(),
            Err(e) => e == AnalysisError::NotFound && transitive(
                manifest.packages@,
                (crate_name@, version@),
            ) is None,
        },
{
    let ghost packages = manifest.packages@;
    let ghost root = (crate_name@, version@);
    let entry = match find_package(manifest, crate_name, version) {
        Some(entry) => entry,
        None => {
            return Err(AnalysisError::NotFound);
        },
    };
    let mut result: Vec<(String, String)> = Vec::new();
    append_fresh(&mut result, &manifest.packages[entry].dependencies);
    proof {
        lemma_first_entry(packages, root, entry as int);
        assert(keys_of(Seq::<(String, String)>::empty()) =~= Seq::<PackageKey>::empty());
        lemma_add_fresh(Seq::<PackageKey>::empty(), packages[entry as int].declared());
    }
    let mut current: usize = 0;
    while current < result.len()
        invariant
            packages == manifest.packages@,
            root == (crate_name@, version@),
            current <= result.len(),
            keys_of(result@).no_duplicates(),
            closure_from(packages, keys_of(result@), current as nat) == transitive(packages, root),
        decreases unseen(packages, keys_of(result@)), result.len() - current,
    {
        let ghost found = keys_of(result@);
        assert(found[current as int] == (result@[current as int].0@, result@[current as int].1@));
        let entry = match find_package(manifest, &result[current].0, &result[current].1) {
            Some(entry) => entry,
            None => {
                return Err(AnalysisError::NotFound);
            },
        };
        proof {
            lemma_first_entry(packages, found[current as int], entry as int);
            lemma_declared_by_is_listed(packages, found[current as int]);
            lemma_add_fresh_progress(packages, found, packages[entry as int].declared());
            lemma_add_fresh(found, packages[entry as int].declared());
        }
        append_fresh(&mut result, &manifest.packages[entry].dependencies);
        current += 1;
    }
    Ok(result)
}

} // verus!
