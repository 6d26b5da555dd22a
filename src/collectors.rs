//! Per-ecosystem collectors and the deduplication they share.
use crate::models::{identities, CollectorDependency, IdentityView, ProjectLanguage};
use vstd::prelude::*;

pub mod cargo_lock;
pub mod package_lock;

verus! {

/// `s` with every element after its first occurrence removed; first occurrences
/// keep their order.
pub open spec fn dedup_seq<T>(s: Seq<T>) -> Seq<T>
    decreases s.len(),
{
    if s.len() == 0 {
        Seq::empty()
    } else {
        let d = dedup_seq(s.drop_last());
        if d.contains(s.last()) {
            d
        } else {
            d.push(s.last())
        }
    }
}

/// The identities of raw `(name, version)` entries of one ecosystem.
pub open spec fn tagged(entries: Seq<(String, String)>, language: ProjectLanguage) -> Seq<
    IdentityView,
> {
    entries.map_values(|e: (String, String)| (language, e.0@, e.1@))
}

/// Deduplication keeps exactly the elements of its input, each once.
pub proof fn lemma_dedup_seq<T>(s: Seq<T>)
    ensures
        dedup_seq(s).no_duplicates(),
        forall|x: T| dedup_seq(s).contains(x) <==> s.contains(x),
    decreases s.len(),
{
    if s.len() > 0 {
        lemma_dedup_seq(s.drop_last());
        let d = dedup_seq(s.drop_last());
        assert forall|x: T| s.contains(x) <==> (s.drop_last().contains(x) || x == s.last()) by {
            if s.contains(x) {
                let k = choose|k: int| 0 <= k < s.len() && s[k] == x;
                if k < s.len() - 1 {
                    assert(s.drop_last()[k] == x);
                }
            }
            if s.drop_last().contains(x) {
                let k = choose|k: int| 0 <= k < s.len() - 1 && s.drop_last()[k] == x;
                assert(s[k] == x);
            }
            if x == s.last() {
                assert(s[s.len() - 1] == x);
            }
        }
        if !d.contains(s.last()) {
            assert forall|x: T| d.push(s.last()).contains(x) <==> (d.contains(x) || x == s.last()) by {
                if d.push(s.last()).contains(x) {
                    let k = choose|k: int| 0 <= k < d.len() + 1 && d.push(s.last())[k] == x;
                    if k < d.len() {
                        assert(d[k] == x);
                    }
                }
                if d.contains(x) {
                    let k = choose|k: int| 0 <= k < d.len() && d[k] == x;
                    assert(d.push(s.last())[k] == x);
                }
                if x == s.last() {
                    assert(d.push(s.last())[d.len() as int] == x);
                }
            }
        }
    }
}

/// Appends `dep` to `out` unless a dependency with the same identity is already there.
pub fn push_unique(out: &mut Vec<CollectorDependency>, dep: CollectorDependency)
    ensures
        identities(final(out)@) == (if identities(old(out)@).contains(dep@) {
            identities(old(out)@)
        } else {
            identities(old(out)@).push(dep@)
        }),
{
    let ghost ids = identities(out@);
    let mut k: usize = 0;
    while k < out.len()
        invariant
            k <= out.len(),
            ids == identities(out@),
            forall|j: int| 0 <= j < k ==> ids[j] != dep@,
        decreases out.len() - k,
    {
        let same = out[k].language == dep.language && out[k].name == dep.name
            && out[k].version == dep.version;
        if same {
            assert(ids[k as int] == dep@);
            return;
        }
        k += 1;
    }
    assert(!ids.contains(dep@));
    out.push(dep);
    assert(identities(out@) =~= ids.push(dep@));
}

/// The dependencies of one ecosystem named by raw `(name, version)` entries, one per
/// distinct entry, in the order of first occurrence.
pub fn dedup_packages(entries: &Vec<(String, String)>, language: ProjectLanguage) -> (r: Vec<
    CollectorDependency,
>)
    ensures
        identities(r@) == dedup_seq(tagged(entries@, language)),
{
    let mut out: Vec<CollectorDependency> = Vec::new();
    let mut i: usize = 0;
    assert(tagged(entries@.subrange(0, 0), language) =~= Seq::empty());
    assert(identities(out@) =~= Seq::empty());
    while i < entries.len()
        invariant
            i <= entries.len(),
            identities(out@) == dedup_seq(tagged(entries@.subrange(0, i as int), language)),
        decreases entries.len() - i,
    {
        let dep = CollectorDependency::new(entries[i].0.clone(), entries[i].1.clone(), language);
        push_unique(&mut out, dep);
        let ghost pre = tagged(entries@.subrange(0, i as int), language);
        let ghost cur = tagged(entries@.subrange(0, i + 1), language);
        assert(cur.drop_last() =~= pre);
        i += 1;
    }
    assert(entries@.subrange(0, entries.len() as int) =~= entries@);
    out
}

/// All dependencies of a project: those of each ecosystem, concatenated.
pub fn aggregate_dependencies(
    rust: Vec<CollectorDependency>,
    javascript: Vec<CollectorDependency>,
) -> (r: Vec<CollectorDependency>)
    ensures
        identities(r@) == identities(rust@) + identities(javascript@),
{
    let mut all = rust;
    let mut rest = javascript;
    let ghost a = identities(all@);
    let ghost b = identities(rest@);
    all.append(&mut rest);
    assert(identities(all@) =~= a + b);
    all
}

} // verus!
