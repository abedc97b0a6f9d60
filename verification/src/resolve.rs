//! The Directory Resolver: filters the runtime's container listing down to
//! the entries whose normalized name is wanted, pairing each with its live
//! id — and, for the Reconciliation Loop, with its watch entry. Pure in the
//! runtime snapshot: the listing call itself happens outside and hands its
//! result in as plain values.
use vstd::prelude::*;
use crate::bytes::clone_bytes;
use crate::bytes::eq_bytes;
use crate::bytes::normalize_name;
use crate::bytes::strip_slashes;
use crate::bytes::views_of;
use crate::config::WatchSpec;

verus! {

/// What the runtime reports for one running container. Either field may be
/// missing; entries with a missing id or no name are never resolved.
#[derive(Clone, Debug)]
pub struct RuntimeContainer {
    pub id: Option<Vec<u8>>,
    pub names: Option<Vec<Vec<u8>>>,
}

/// A container resolved to its live identity: the runtime-assigned id and
/// the normalized name.
#[derive(Clone, Debug, PartialEq, Eq)]
pub struct ResolvedContainer {
    pub id: Vec<u8>,
    pub name: Vec<u8>,
}

/// The entry has an id and a first name, and its normalized first name is
/// one of the wanted names.
pub open spec fn keeps(c: RuntimeContainer, names: Seq<Seq<u8>>) -> bool {
    &&& c.id is Some
    &&& c.names is Some
    &&& c.names->0@.len() > 0
    &&& names.contains(strip_slashes(c.names->0@[0]@))
}

pub open spec fn entry_id(c: RuntimeContainer) -> Seq<u8> {
    c.id->0@
}

pub open spec fn entry_name(c: RuntimeContainer) -> Seq<u8> {
    strip_slashes(c.names->0@[0]@)
}

/// The (id, normalized name) pairs of the kept entries, in listing order.
pub open spec fn resolve_seq(cs: Seq<RuntimeContainer>, names: Seq<Seq<u8>>) -> Seq<
    (Seq<u8>, Seq<u8>),
>
    decreases cs.len(),
{
    if cs.len() == 0 {
        Seq::empty()
    } else {
        resolve_seq(cs.drop_last(), names) + if keeps(cs.last(), names) {
            seq![(entry_id(cs.last()), entry_name(cs.last()))]
        } else {
            Seq::empty()
        }
    }
}

/// The (id view, name view) pairs of a resolved listing.
pub open spec fn resolved_views(r: Seq<ResolvedContainer>) -> Seq<(Seq<u8>, Seq<u8>)> {
    Seq::new(r.len(), |i: int| (r[i].id@, r[i].name@))
}

/// Whether `x` is among the (views of the) given names.
fn contains_name(names: &Vec<Vec<u8>>, x: &[u8]) -> (r: bool)
    ensures
        r == views_of(names@).contains(x@),
{
    let mut i: usize = 0;
    while i < names.len()
        invariant
            i <= names@.len(),
            forall|k: int| 0 <= k < i ==> views_of(names@)[k] != x@,
        decreases names@.len() - i,
    {
        if eq_bytes(names[i].as_slice(), x) {
            proof {
                assert(views_of(names@)[i as int] == x@);
            }
            return true;
        }
        i += 1;
    }
    false
}

/// Resolves the wanted `names` against the runtime snapshot `cs`: keeps each
/// listed container that has an id and whose normalized first name is one of
/// the wanted names, in listing order. A name no running container carries
/// simply resolves to nothing; that is not an error.
pub fn resolve(cs: &Vec<RuntimeContainer>, names: &Vec<Vec<u8>>) -> (r: Vec<ResolvedContainer>)
    ensures
        resolved_views(r@) == resolve_seq(cs@, views_of(names@)),
{
    let mut r: Vec<ResolvedContainer> = Vec::new();
    let mut i: usize = 0;
    while i < cs.len()
        invariant
            i <= cs@.len(),
            resolved_views(r@) == resolve_seq(cs@.subrange(0, i as int), views_of(names@)),
        decreases cs@.len() - i,
    {
        let ghost prefix = cs@.subrange(0, i as int);
        let c = &cs[i];
        match (&c.id, &c.names) {
            (Some(idv), Some(nv)) => {
                if nv.len() > 0 {
                    let norm = normalize_name(nv[0].as_slice());
                    if contains_name(names, norm.as_slice()) {
                        let ghost before = r@;
                        let e = ResolvedContainer { id: clone_bytes(idv), name: norm };
                        r.push(e);
                        proof {
                            assert(keeps(cs@[i as int], views_of(names@)));
                            assert(resolved_views(r@) =~~= resolved_views(before) + seq![
                                (entry_id(cs@[i as int]), entry_name(cs@[i as int])),
                            ]);
                        }
                    } else {
                        proof {
                            assert(!keeps(cs@[i as int], views_of(names@)));
                        }
                    }
                } else {
                    proof {
                        assert(!keeps(cs@[i as int], views_of(names@)));
                    }
                }
            },
            _ => {
                proof {
                    assert(!keeps(cs@[i as int], views_of(names@)));
                }
            },
        }
        proof {
            assert(cs@.subrange(0, i + 1).drop_last() =~= prefix);
            assert(cs@.subrange(0, i + 1).last() == cs@[i as int]);
            assert(resolved_views(r@) =~~= resolve_seq(cs@.subrange(0, i + 1), views_of(names@)));
        }
        i += 1;
    }
    proof {
        assert(cs@.subrange(0, cs@.len() as int) =~= cs@);
    }
    r
}

/// Resolution keeps only wanted names: every resolved entry's name is one of
/// the names that were asked for.
pub proof fn lemma_resolved_names_are_wanted(
    cs: Seq<RuntimeContainer>,
    names: Seq<Seq<u8>>,
    k: int,
)
    requires
        0 <= k < resolve_seq(cs, names).len(),
    ensures
        names.contains(resolve_seq(cs, names)[k].1),
    decreases cs.len(),
{
    if cs.len() > 0 {
        let prefix = resolve_seq(cs.drop_last(), names);
        if k < prefix.len() {
            lemma_resolved_names_are_wanted(cs.drop_last(), names, k);
        }
    }
}

/// A resolved container joined with the watch entry that asked for it: the
/// index points into the Watch Registry it was resolved against.
#[derive(Clone, Debug)]
pub struct MappedContainer {
    pub id: Vec<u8>,
    pub name: Vec<u8>,
    pub watch_idx: usize,
}

/// The watch names of a registry, in order.
pub open spec fn watch_names(specs: Seq<WatchSpec>) -> Seq<Seq<u8>> {
    Seq::new(specs.len(), |i: int| specs[i].watch_name@)
}

/// Index of the first watch entry with the given name, if any.
pub fn find_watch(specs: &Vec<WatchSpec>, name: &[u8]) -> (r: Option<usize>)
    ensures
        match r {
            Some(k) => {
                &&& k < specs@.len()
                &&& specs@[k as int].watch_name@ == name@
                &&& forall|j: int| 0 <= j < k ==> specs@[j].watch_name@ != name@
            },
            None => forall|j: int| 0 <= j < specs@.len() ==> specs@[j].watch_name@ != name@,
        },
{
    let mut i: usize = 0;
    while i < specs.len()
        invariant
            i <= specs@.len(),
            forall|j: int| 0 <= j < i ==> specs@[j].watch_name@ != name@,
        decreases specs@.len() - i,
    {
        if eq_bytes(specs[i].watch_name.as_slice(), name) {
            return Some(i);
        }
        i += 1;
    }
    None
}

/// Index of the first watch entry named `name`, or the registry's length if
/// there is none.
pub open spec fn first_watch(specs: Seq<WatchSpec>, name: Seq<u8>) -> int
    decreases specs.len(),
{
    if specs.len() == 0 {
        0
    } else if specs[0].watch_name@ == name {
        0
    } else {
        1 + first_watch(specs.subrange(1, specs.len() as int), name)
    }
}

proof fn lemma_first_watch_at(specs: Seq<WatchSpec>, name: Seq<u8>, k: int)
    requires
        0 <= k <= specs.len(),
        forall|j: int| 0 <= j < k ==> specs[j].watch_name@ != name,
        k == specs.len() || specs[k].watch_name@ == name,
    ensures
        first_watch(specs, name) == k,
    decreases k,
{
    if k > 0 {
        lemma_first_watch_at(specs.subrange(1, specs.len() as int), name, k - 1);
    }
}

/// The (id, name, first watch index) triples of the kept entries, in listing
/// order.
pub open spec fn map_seq(cs: Seq<RuntimeContainer>, specs: Seq<WatchSpec>) -> Seq<
    (Seq<u8>, Seq<u8>, int),
>
    decreases cs.len(),
{
    if cs.len() == 0 {
        Seq::empty()
    } else {
        map_seq(cs.drop_last(), specs) + if keeps(cs.last(), watch_names(specs)) {
            seq![
                (
                    entry_id(cs.last()),
                    entry_name(cs.last()),
                    first_watch(specs, entry_name(cs.last())),
                ),
            ]
        } else {
            Seq::empty()
        }
    }
}

/// The (id view, name view, watch index) triples of a mapped listing.
pub open spec fn mapped_views(r: Seq<MappedContainer>) -> Seq<(Seq<u8>, Seq<u8>, int)> {
    Seq::new(r.len(), |i: int| (r[i].id@, r[i].name@, r[i].watch_idx as int))
}

/// Resolves the whole Watch Registry against the runtime snapshot: each kept
/// container carries the first watch entry bearing its normalized name. The
/// watch index always points into `specs`, at an entry with that very name.
pub fn resolve_watched(cs: &Vec<RuntimeContainer>, specs: &Vec<WatchSpec>) -> (r: Vec<
    MappedContainer,
>)
    ensures
        mapped_views(r@) == map_seq(cs@, specs@),
        forall|k: int|
            0 <= k < r@.len() ==> (#[trigger] r@[k].watch_idx) < specs@.len()
                && specs@[r@[k].watch_idx as int].watch_name@ == r@[k].name@,
{
    let mut r: Vec<MappedContainer> = Vec::new();
    let mut i: usize = 0;
    while i < cs.len()
        invariant
            i <= cs@.len(),
            mapped_views(r@) == map_seq(cs@.subrange(0, i as int), specs@),
            forall|k: int|
                0 <= k < r@.len() ==> (#[trigger] r@[k].watch_idx) < specs@.len()
                    && specs@[r@[k].watch_idx as int].watch_name@ == r@[k].name@,
        decreases cs@.len() - i,
    {
        let ghost prefix = cs@.subrange(0, i as int);
        let c = &cs[i];
        match (&c.id, &c.names) {
            (Some(idv), Some(nv)) => {
                if nv.len() > 0 {
                    let norm = normalize_name(nv[0].as_slice());
                    match find_watch(specs, norm.as_slice()) {
                        Some(k) => {
                            let ghost before = r@;
                            let e = MappedContainer {
                                id: clone_bytes(idv),
                                name: norm,
                                watch_idx: k,
                            };
                            r.push(e);
                            proof {
                                assert(watch_names(specs@)[k as int] == norm@);
                                assert(keeps(cs@[i as int], watch_names(specs@)));
                                lemma_first_watch_at(specs@, norm@, k as int);
                                assert(mapped_views(r@) =~~= mapped_views(before) + seq![
                                    (
                                        entry_id(cs@[i as int]),
                                        entry_name(cs@[i as int]),
                                        first_watch(specs@, entry_name(cs@[i as int])),
                                    ),
                                ]);
                            }
                        },
                        None => {
                            proof {
                                if keeps(cs@[i as int], watch_names(specs@)) {
                                    let j = choose|j: int|
                                        0 <= j < watch_names(specs@).len() && watch_names(specs@)[j]
                                            == norm@;
                                    assert(specs@[j].watch_name@ == norm@);
                                }
                            }
                        },
                    }
                } else {
                    proof {
                        assert(!keeps(cs@[i as int], watch_names(specs@)));
                    }
                }
            },
            _ => {
                proof {
                    assert(!keeps(cs@[i as int], watch_names(specs@)));
                }
            },
        }
        proof {
            assert(cs@.subrange(0, i + 1).drop_last() =~= prefix);
            assert(cs@.subrange(0, i + 1).last() == cs@[i as int]);
            assert(mapped_views(r@) =~~= map_seq(cs@.subrange(0, i + 1), specs@));
        }
        i += 1;
    }
    proof {
        assert(cs@.subrange(0, cs@.len() as int) =~= cs@);
    }
    r
}

} // verus!
