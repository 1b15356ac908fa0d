//! Peer identity resolution: named peers become slug-based identifiers and
//! must not collide; count-based peers reuse existing directories in sorted
//! order and draw random identifiers for the remainder.

use vstd::prelude::*;
use vstd::string::StrSliceExecFns;
use vstd::string::StringExecFns;

use crate::config::{Peer, PeersConfig};
use crate::errors::Error;
use crate::slug::{slugify, spec_slugify};
use crate::text::{contains_str, spec_dec, u64_to_string, views_of};

verus! {

/// The identity a named peer gets: `peer-<slug>`, or `peer-unnamed-<n>` with
/// the peer's one-based position when the slug comes out empty.
pub open spec fn spec_peer_id_for(name: Seq<char>, idx: int) -> Seq<char> {
    if spec_slugify(name).len() == 0 {
        "peer-unnamed-"@ + spec_dec((idx + 1) as nat)
    } else {
        "peer-"@ + spec_slugify(name)
    }
}

/// Builds a named peer's identity, exactly as `spec_peer_id_for` says.
pub fn peer_id_for(name: &str, idx: usize) -> (r: String)
    requires
        idx < usize::MAX,
    ensures
        r@ == spec_peer_id_for(name@, idx as int),
{
    let slug = slugify(name);
    if slug.as_str().unicode_len() == 0 {
        let mut r: String = "peer-unnamed-".to_owned();
        let num = u64_to_string((idx as u64) + 1);
        r.append(num.as_str());
        r
    } else {
        let mut r: String = "peer-".to_owned();
        r.append(slug.as_str());
        r
    }
}

/// The identities of a row of peers.
pub open spec fn spec_ids(ps: Seq<Peer>) -> Seq<Seq<char>> {
    ps.map_values(|p: Peer| p.id@)
}

/// No two entries are the same text.
pub open spec fn spec_distinct(ids: Seq<Seq<char>>) -> bool {
    forall|i: int, j: int| 0 <= i < j < ids.len() ==> ids[i] != ids[j]
}

/// Two of the given names derive the same identity.
pub open spec fn spec_dup_exists(ns: Seq<String>) -> bool {
    exists|i: int, j: int|
        0 <= i < j < ns.len() && spec_peer_id_for(ns[i]@, i) == spec_peer_id_for(ns[j]@, j)
}

/// The row answers the given names, identity by identity.
pub open spec fn spec_named_resolution(ps: Seq<Peer>, ns: Seq<String>) -> bool {
    &&& ps.len() == ns.len()
    &&& forall|i: int| 0 <= i < ps.len() ==> (#[trigger] ps[i].id)@ == spec_peer_id_for(ns[i]@, i)
}

/// Peers are resolved by name: a non-empty name list is configured.
pub open spec fn spec_names_mode(p: PeersConfig) -> bool {
    match p.names {
        Some(ns) => ns@.len() > 0,
        None => false,
    }
}

/// `a` strictly precedes `b` in the lexicographic order.
pub open spec fn spec_str_lt(a: Seq<char>, b: Seq<char>) -> bool {
    spec_str_le(a, b) && a != b
}

/// The distinct directory names, as a set of texts.
pub open spec fn spec_dir_set(dirs: Seq<String>) -> Set<Seq<char>> {
    views_of(dirs).to_set()
}

/// How many of the requested peers the existing directories supply: every
/// distinct name, capped by the requested count.
pub open spec fn spec_reused_count(count: int, dirs: Seq<String>) -> int {
    if count <= spec_dir_set(dirs).len() {
        count
    } else {
        spec_dir_set(dirs).len() as int
    }
}

/// The text stands among the first `k` entries.
pub open spec fn spec_among(xs: Seq<Seq<char>>, k: int, d: Seq<char>) -> bool {
    exists|j: int| 0 <= j < k && xs[j] == d
}

/// What count-based resolution yields: the first entries are the smallest
/// distinct directory names in ascending order — as many as the count allows
/// — and every later entry is a freshly drawn `peer-<uuid>` identity.
pub open spec fn spec_count_resolution(ps: Seq<Peer>, count: int, dirs: Seq<String>) -> bool {
    let dset = spec_dir_set(dirs);
    let m = spec_reused_count(count, dirs);
    &&& ps.len() == count
    &&& spec_distinct(spec_ids(ps))
    &&& forall|i: int| 0 <= i < m ==> dset.contains((#[trigger] ps[i].id)@)
    &&& forall|i: int, j: int|
        0 <= i < j < m ==> spec_str_lt((#[trigger] ps[i].id)@, (#[trigger] ps[j].id)@)
    &&& forall|d: Seq<char>|
        #[trigger] dset.contains(d) ==> spec_among(spec_ids(ps), m, d) || (m == count && (count
            == 0 || spec_str_lt(ps[m - 1].id@, d)))
    &&& forall|i: int|
        m <= i < count ==> (#[trigger] ps[i].id)@.len() == 41 && ps[i].id@.take(5) == "peer-"@
}

/// Resolves named peers in order. Succeeds exactly when all the derived
/// identities are distinct; otherwise reports the first name whose identity
/// repeats an earlier one.
pub fn resolve_named_peers(names: &Vec<String>) -> (r: Result<Vec<Peer>, Error>)
    requires
        names@.len() < usize::MAX,
    ensures
        match r {
            Ok(ps) => spec_named_resolution(ps@, names@) && !spec_dup_exists(names@),
            Err(e) => spec_dup_exists(names@) && (e matches Error::DuplicateIdentity(nm) && (
            exists|j: int| 0 <= j < names@.len() && nm@ == names@[j]@)),
        },
{
    let mut out: Vec<Peer> = Vec::new();
    let mut ids: Vec<String> = Vec::new();
    let n: usize = names.len();
    for j in 0..n
        invariant
            n == names@.len(),
            n < usize::MAX,
            out@.len() == j,
            ids@.len() == j,
            forall|i: int| 0 <= i < j ==> (#[trigger] ids@[i])@ == spec_peer_id_for(names@[i]@, i),
            forall|i: int| 0 <= i < j ==> (#[trigger] out@[i].id)@ == spec_peer_id_for(
                names@[i]@,
                i,
            ),
            forall|i: int, i2: int|
                0 <= i < i2 < j ==> spec_peer_id_for(names@[i]@, i) != spec_peer_id_for(
                    names@[i2]@,
                    i2,
                ),
    {
        let id = peer_id_for(names[j].as_str(), j);
        if contains_str(&ids, id.as_str()) {
            return Err(Error::DuplicateIdentity(names[j].clone()));
        }
        let ghost ids0 = ids@;
        let ghost out0 = out@;
        let ghost idv = id@;
        ids.push(id.clone());
        out.push(Peer { id });
        proof {
            assert forall|i: int| 0 <= i < j + 1 implies (#[trigger] ids@[i])@ == spec_peer_id_for(
                names@[i]@,
                i,
            ) by {
                if i < j {
                    assert(ids@[i] == ids0[i]);
                } else {
                    assert(ids@[i]@ == idv);
                }
            }
            assert forall|i: int| 0 <= i < j + 1 implies (#[trigger] out@[i].id)@
                == spec_peer_id_for(names@[i]@, i) by {
                if i < j {
                    assert(out@[i] == out0[i]);
                } else {
                    assert(out@[i].id@ == idv);
                }
            }
            assert forall|i: int, i2: int| 0 <= i < i2 < j + 1 implies spec_peer_id_for(
                names@[i]@,
                i,
            ) != spec_peer_id_for(names@[i2]@, i2) by {
                if i2 == j {
                    assert(ids0[i]@ == spec_peer_id_for(names@[i]@, i));
                    assert(ids0[i]@ != idv);
                }
            }
        }
    }
    Ok(out)
}

/// Character-wise lexicographic order on text.
pub open spec fn spec_str_le(a: Seq<char>, b: Seq<char>) -> bool
    decreases a.len(),
{
    if a.len() == 0 {
        true
    } else if b.len() == 0 {
        false
    } else if a.first() < b.first() {
        true
    } else if b.first() < a.first() {
        false
    } else {
        spec_str_le(a.drop_first(), b.drop_first())
    }
}

/// The order is total.
pub proof fn lemma_str_le_total(a: Seq<char>, b: Seq<char>)
    ensures
        spec_str_le(a, b) || spec_str_le(b, a),
    decreases a.len(),
{
    if a.len() > 0 && b.len() > 0 && !(a.first() < b.first()) && !(b.first() < a.first()) {
        lemma_str_le_total(a.drop_first(), b.drop_first());
    }
}

/// The order is transitive.
pub proof fn lemma_str_le_trans(a: Seq<char>, b: Seq<char>, c: Seq<char>)
    requires
        spec_str_le(a, b),
        spec_str_le(b, c),
    ensures
        spec_str_le(a, c),
    decreases a.len(),
{
    if a.len() > 0 && b.len() > 0 && c.len() > 0 {
        if !(a.first() < b.first()) && !(b.first() < a.first()) && !(b.first() < c.first()) && !(
        c.first() < b.first()) {
            lemma_str_le_trans(a.drop_first(), b.drop_first(), c.drop_first());
        }
    }
}

/// Compares two strings in the order `spec_str_le` defines.
pub fn str_le(a: &str, b: &str) -> (r: bool)
    ensures
        r == spec_str_le(a@, b@),
{
    let n: usize = a.unicode_len();
    let m: usize = b.unicode_len();
    let mut i: usize = 0;
    assert(a@.skip(0) =~= a@);
    assert(b@.skip(0) =~= b@);
    while i < n && i < m
        invariant_except_break
            n == a@.len(),
            m == b@.len(),
            i <= n,
            i <= m,
            spec_str_le(a@, b@) == spec_str_le(a@.skip(i as int), b@.skip(i as int)),
        ensures
            n == a@.len(),
            m == b@.len(),
            (i < n && i < m) ==> spec_str_le(a@, b@) == (a@[i as int] < b@[i as int]),
            !(i < n && i < m) ==> i == n || i == m,
            !(i < n && i < m) ==> spec_str_le(a@, b@) == spec_str_le(
                a@.skip(i as int),
                b@.skip(i as int),
            ),
            i <= n,
            i <= m,
        decreases n - i,
    {
        let ca = a.get_char(i);
        let cb = b.get_char(i);
        proof {
            assert(a@.skip(i as int).first() == a@[i as int]);
            assert(b@.skip(i as int).first() == b@[i as int]);
            assert(a@.skip(i as int).drop_first() =~= a@.skip(i + 1));
            assert(b@.skip(i as int).drop_first() =~= b@.skip(i + 1));
        }
        if ca < cb || cb < ca {
            break;
        }
        i += 1;
    }
    if i < n && i < m {
        a.get_char(i) < b.get_char(i)
    } else if i == n {
        assert(a@.skip(i as int) =~= Seq::<char>::empty());
        true
    } else {
        assert(b@.skip(i as int) =~= Seq::<char>::empty());
        assert(a@.skip(i as int).len() > 0);
        false
    }
}

/// Every pair of entries stands in order.
pub open spec fn spec_sorted(v: Seq<String>) -> bool {
    forall|i: int, j: int| 0 <= i < j < v.len() ==> spec_str_le(v[i]@, v[j]@)
}

/// Sorts strings by `spec_str_le`, keeping exactly the same collection of
/// texts.
pub fn sort_strings(v: &Vec<String>) -> (r: Vec<String>)
    ensures
        r@.len() == v@.len(),
        spec_sorted(r@),
        views_of(r@).to_multiset() == views_of(v@).to_multiset(),
{
    let mut out: Vec<String> = Vec::new();
    let n: usize = v.len();
    proof {
        assert(views_of(out@) =~= Seq::<Seq<char>>::empty());
        assert(views_of(v@.take(0)) =~= Seq::<Seq<char>>::empty());
    }
    for idx in 0..n
        invariant
            n == v@.len(),
            out@.len() == idx,
            spec_sorted(out@),
            views_of(out@).to_multiset() == views_of(v@.take(idx as int)).to_multiset(),
    {
        let s = v[idx].clone();
        let mut k: usize = 0;
        while k < out.len()
            invariant_except_break
                k <= out@.len(),
                forall|j: int| 0 <= j < k ==> spec_str_le((#[trigger] out@[j])@, s@),
            ensures
                k <= out@.len(),
                forall|j: int| 0 <= j < k ==> spec_str_le((#[trigger] out@[j])@, s@),
                k < out@.len() ==> !spec_str_le(out@[k as int]@, s@),
            decreases out@.len() - k,
        {
            if !str_le(out[k].as_str(), s.as_str()) {
                break;
            }
            k += 1;
        }
        let ghost out0 = out@;
        out.insert(k, s);
        proof {
            assert(s@ == v@[idx as int]@);
            assert(out@ =~= out0.insert(k as int, s));
            assert(spec_sorted(out@)) by {
                assert forall|i: int, j: int| 0 <= i < j < out@.len() implies spec_str_le(
                    out@[i]@,
                    out@[j]@,
                ) by {
                    if k < out0.len() {
                        lemma_str_le_total(out0[k as int]@, s@);
                    }
                    if i == k {
                        if j > k {
                            lemma_str_le_total(out0[k as int]@, s@);
                            if k < out0.len() && j - 1 > k {
                                lemma_str_le_trans(s@, out0[k as int]@, out0[j - 1]@);
                            }
                        }
                    } else if j == k {
                        assert(spec_str_le(out0[i]@, s@));
                    } else if i < k && j > k {
                        assert(spec_str_le(out0[i]@, out0[j - 1]@));
                    } else if i > k && j > k {
                        assert(spec_str_le(out0[i - 1]@, out0[j - 1]@));
                    } else {
                        assert(spec_str_le(out0[i]@, out0[j]@));
                    }
                }
            }
            assert(views_of(out@) =~= views_of(out0).insert(k as int, s@));
            vstd::seq_lib::to_multiset_insert(views_of(out0), k as int, s@);
            assert(views_of(v@.take(idx + 1)) =~= views_of(v@.take(idx as int)).push(
                v@[idx as int]@,
            ));
            vstd::seq_lib::to_multiset_build(views_of(v@.take(idx as int)), v@[idx as int]@);
        }
    }
    proof {
        assert(v@.take(n as int) =~= v@);
    }
    out
}

/// Appending a not-yet-used identity keeps the id row paired and distinct.
proof fn lemma_push_facts(
    out0: Seq<Peer>,
    ids0: Seq<String>,
    out1: Seq<Peer>,
    ids1: Seq<String>,
    idv: Seq<char>,
)
    requires
        out0.len() == ids0.len(),
        forall|i: int| 0 <= i < ids0.len() ==> (#[trigger] ids0[i])@ == out0[i].id@,
        spec_distinct(spec_ids(out0)),
        !(exists|i: int| 0 <= i < ids0.len() && (#[trigger] ids0[i])@ == idv),
        out1.len() == out0.len() + 1,
        ids1.len() == ids0.len() + 1,
        forall|i: int| 0 <= i < out0.len() ==> out1[i] == out0[i],
        forall|i: int| 0 <= i < ids0.len() ==> ids1[i] == ids0[i],
        out1.last().id@ == idv,
        ids1.last()@ == idv,
    ensures
        out1.len() == ids1.len(),
        forall|i: int| 0 <= i < ids1.len() ==> (#[trigger] ids1[i])@ == out1[i].id@,
        spec_distinct(spec_ids(out1)),
{
    assert forall|i: int, j: int| 0 <= i < j < spec_ids(out1).len() implies spec_ids(out1)[i]
        != spec_ids(out1)[j] by {
        assert(spec_ids(out1)[i] == out1[i].id@);
        assert(spec_ids(out1)[j] == out1[j].id@);
        if j == out0.len() {
            assert(ids0[i]@ == out0[i].id@);
        } else {
            assert(spec_ids(out0)[i] == out0[i].id@);
            assert(spec_ids(out0)[j] == out0[j].id@);
        }
    }
}

/// A fresh random identifier.
///
/// Relies on `uuid::Uuid::new_v4` and its hyphenated `Display` form, which is
/// always 36 characters. The value is random: nothing else is promised.
#[verifier::external_body]
fn random_uuid() -> (r: String)
    ensures
        r@.len() == 36,
{
    uuid::Uuid::new_v4().to_string()
}

/// Draws a fresh random peer identity of the form `peer-<uuid>`.
fn fresh_peer_id() -> (r: String)
    ensures
        r@.len() == 41,
        r@.take(5) == "peer-"@,
{
    let u = random_uuid();
    let mut r: String = "peer-".to_owned();
    r.append(u.as_str());
    proof {
        reveal_strlit("peer-");
        assert(r@.take(5) =~= "peer-"@);
    }
    r
}

/// How often a colliding random identity is redrawn before giving up, rather
/// than retrying without bound.
const FRESH_ID_RETRIES: u8 = 8;

/// Distinct texts drawn from a finite set are no more numerous than the set.
proof fn lemma_distinct_len(xs: Seq<Seq<char>>, s: Set<Seq<char>>)
    requires
        spec_distinct(xs),
        forall|i: int| 0 <= i < xs.len() ==> s.contains(#[trigger] xs[i]),
        s.finite(),
    ensures
        xs.len() <= s.len(),
{
    broadcast use vstd::set::group_set_axioms;

    assert(xs.no_duplicates()) by {
        assert forall|i: int, j: int|
            (0 <= i < xs.len() && 0 <= j < xs.len() && i != j) implies xs[i] != xs[j] by {
            if i < j {
                assert(xs[i] != xs[j]);
            } else {
                assert(xs[j] != xs[i]);
            }
        }
    }
    xs.unique_seq_to_set();
    assert(xs.to_set().subset_of(s)) by {
        assert forall|x: Seq<char>| xs.to_set().contains(x) implies s.contains(x) by {
            assert(xs.contains(x));
            let i = choose|i: int| 0 <= i < xs.len() && xs[i] == x;
            assert(s.contains(xs[i]));
        }
    }
    vstd::set_lib::lemma_len_subset(xs.to_set(), s);
}

/// Resolves peers by count: the smallest distinct existing directory names
/// are reused first, in ascending order, and fresh random identities fill the
/// rest. Failure is possible only when fresh identities had to be drawn, that
/// is when the count exceeds the distinct directory names; a count of zero
/// resolves no peers.
pub fn resolve_count_peers(count: usize, existing_dirs: &Vec<String>) -> (r: Result<
    Vec<Peer>,
    Error,
>)
    ensures
        match r {
            Ok(ps) => spec_count_resolution(ps@, count as int, existing_dirs@),
            Err(e) => e is IdentityPoolExhausted && count > spec_dir_set(existing_dirs@).len(),
        },
{
    let ghost dset = spec_dir_set(existing_dirs@);
    let mut out: Vec<Peer> = Vec::new();
    let mut ids: Vec<String> = Vec::new();
    if count == 0 {
        proof {
            assert(spec_reused_count(0, existing_dirs@) == 0);
            assert(spec_count_resolution(out@, 0, existing_dirs@));
        }
        return Ok(out);
    }
    let sorted = sort_strings(existing_dirs);
    let ghost sviews = views_of(sorted@);
    proof {
        broadcast use vstd::seq_lib::group_to_multiset_ensures;
        broadcast use vstd::set::group_set_axioms;
        broadcast use vstd::seq_lib::seq_to_set_is_finite;

        assert(sviews.to_set() =~= dset) by {
            assert forall|x: Seq<char>|
                sviews.contains(x) == views_of(existing_dirs@).contains(x) by {
                assert(sviews.contains(x) <==> sviews.to_multiset().count(x) > 0);
                assert(views_of(existing_dirs@).contains(x) <==> views_of(
                    existing_dirs@,
                ).to_multiset().count(x) > 0);
            }
        }
        assert(dset.finite());
    }
    let slen: usize = sorted.len();
    let mut j: usize = 0;
    while j < slen && out.len() < count
        invariant
            slen == sorted@.len(),
            sviews == views_of(sorted@),
            dset == spec_dir_set(existing_dirs@),
            sviews.to_set() == dset,
            dset.finite(),
            spec_sorted(sorted@),
            j <= slen,
            out@.len() == ids@.len(),
            out@.len() <= count,
            count > 0,
            forall|i: int| 0 <= i < ids@.len() ==> (#[trigger] ids@[i])@ == out@[i].id@,
            forall|i: int| 0 <= i < out@.len() ==> dset.contains((#[trigger] out@[i].id)@),
            forall|i: int, i2: int|
                0 <= i < i2 < out@.len() ==> spec_str_lt(
                    (#[trigger] out@[i].id)@,
                    (#[trigger] out@[i2].id)@,
                ),
            forall|j2: int|
                0 <= j2 < j ==> spec_among(spec_ids(out@), out@.len() as int, #[trigger] sviews[j2]),
            forall|i: int| 0 <= i < out@.len() ==> spec_among(sviews, j as int, (#[trigger] out@[i].id)@),
        decreases slen - j,
    {
        let id = sorted[j].clone();
        assert(id@ == sviews[j as int]);
        if !contains_str(&ids, id.as_str()) {
            let ghost ids0 = ids@;
            let ghost out0 = out@;
            let ghost idv = id@;
            ids.push(id.clone());
            out.push(Peer { id });
            proof {
                lemma_push_facts(out0, ids0, out@, ids@, idv);
                assert(dset.contains(idv)) by {
                    broadcast use vstd::set::group_set_axioms;

                    assert(sviews[j as int] == idv);
                    assert(sviews.contains(idv));
                    assert(sviews.to_set().contains(idv));
                }
                assert forall|i: int| 0 <= i < out0.len() implies spec_str_lt(
                    (#[trigger] out0[i].id)@,
                    idv,
                ) by {
                    let j_i = choose|j2: int| 0 <= j2 < j && sviews[j2] == out0[i].id@;
                    assert(sviews[j_i] == sorted@[j_i]@);
                    assert(spec_str_le(sorted@[j_i]@, sorted@[j as int]@));
                    assert(ids0[i]@ == out0[i].id@);
                    assert(ids0[i]@ != idv);
                }
                assert forall|i: int, i2: int| 0 <= i < i2 < out@.len() implies spec_str_lt(
                    (#[trigger] out@[i].id)@,
                    (#[trigger] out@[i2].id)@,
                ) by {
                    assert(out@[i] == out0[i]);
                    if i2 == out0.len() {
                        assert(out@[i2].id@ == idv);
                    } else {
                        assert(out@[i2] == out0[i2]);
                    }
                }
                assert forall|j2: int| 0 <= j2 < j + 1 implies spec_among(
                    spec_ids(out@),
                    out@.len() as int,
                    #[trigger] sviews[j2],
                ) by {
                    if j2 < j {
                        let i0 = choose|i: int|
                            0 <= i < out0.len() && spec_ids(out0)[i] == sviews[j2];
                        assert(spec_ids(out0)[i0] == out0[i0].id@);
                        assert(out@[i0] == out0[i0]);
                        assert(spec_ids(out@)[i0] == out@[i0].id@);
                    } else {
                        assert(spec_ids(out@)[out@.len() - 1] == out@[out@.len() - 1].id@);
                        assert(out@[out@.len() - 1].id@ == idv);
                    }
                }
                assert forall|i: int| 0 <= i < out@.len() implies spec_among(
                    sviews,
                    j + 1,
                    (#[trigger] out@[i].id)@,
                ) by {
                    if i < out0.len() {
                        assert(out@[i] == out0[i]);
                        let j2 = choose|j3: int| 0 <= j3 < j && sviews[j3] == out0[i].id@;
                        assert(0 <= j2 < j + 1 && sviews[j2] == out@[i].id@);
                    } else {
                        assert(sviews[j as int] == out@[i].id@);
                    }
                }
            }
        } else {
            proof {
                let i0 = choose|i: int| 0 <= i < ids@.len() && (#[trigger] ids@[i])@ == id@;
                assert(spec_ids(out@)[i0] == out@[i0].id@);
                assert(out@[i0].id@ == sviews[j as int]);
                assert(spec_among(spec_ids(out@), out@.len() as int, sviews[j as int]));
            }
        }
        j += 1;
    }
    let ghost m0 = out@.len() as int;
    proof {
        assert(spec_distinct(spec_ids(out@))) by {
            assert forall|i: int, i2: int| 0 <= i < i2 < spec_ids(out@).len() implies spec_ids(
                out@,
            )[i] != spec_ids(out@)[i2] by {
                assert(spec_ids(out@)[i] == out@[i].id@);
                assert(spec_ids(out@)[i2] == out@[i2].id@);
            }
        }
        assert(forall|i: int|
            0 <= i < spec_ids(out@).len() ==> dset.contains(#[trigger] spec_ids(out@)[i])) by {
            assert(forall|i: int|
                0 <= i < out@.len() ==> spec_ids(out@)[i] == (#[trigger] out@[i].id)@);
        }
        if out@.len() == count {
            lemma_distinct_len(spec_ids(out@), dset);
            assert(m0 == spec_reused_count(count as int, existing_dirs@));
        } else {
            assert(j == slen);
            assert forall|d: Seq<char>| #[trigger] dset.contains(d) implies spec_among(
                spec_ids(out@),
                m0,
                d,
            ) by {
                broadcast use vstd::set::group_set_axioms;

                assert(sviews.to_set().contains(d));
                assert(sviews.contains(d));
                let jd = choose|j2: int| 0 <= j2 < sviews.len() && sviews[j2] == d;
                assert(spec_among(spec_ids(out@), out@.len() as int, sviews[jd]));
            }
            assert(spec_ids(out@).to_set() =~= dset) by {
                broadcast use vstd::set::group_set_axioms;

                assert forall|x: Seq<char>| spec_ids(out@).to_set().contains(x) implies
                    dset.contains(x) by {
                    assert(spec_ids(out@).contains(x));
                    let i = choose|i: int|
                        0 <= i < spec_ids(out@).len() && spec_ids(out@)[i] == x;
                    assert(dset.contains(spec_ids(out@)[i]));
                }
                assert forall|x: Seq<char>| dset.contains(x) implies spec_ids(
                    out@,
                ).to_set().contains(x) by {
                    assert(spec_among(spec_ids(out@), m0, x));
                    let i = choose|i: int| 0 <= i < m0 && spec_ids(out@)[i] == x;
                    assert(spec_ids(out@).contains(x));
                }
            }
            assert(spec_ids(out@).no_duplicates()) by {
                assert forall|i: int, i2: int|
                    (0 <= i < spec_ids(out@).len() && 0 <= i2 < spec_ids(out@).len() && i
                        != i2) implies spec_ids(out@)[i] != spec_ids(out@)[i2] by {
                    if i < i2 {
                        assert(spec_ids(out@)[i] != spec_ids(out@)[i2]);
                    } else {
                        assert(spec_ids(out@)[i2] != spec_ids(out@)[i]);
                    }
                }
            }
            spec_ids(out@).unique_seq_to_set();
            assert(m0 == dset.len());
            assert(m0 == spec_reused_count(count as int, existing_dirs@));
        }
        assert forall|d: Seq<char>| #[trigger] dset.contains(d) implies spec_among(
            spec_ids(out@),
            m0,
            d,
        ) || (m0 == count && (count == 0 || spec_str_lt(out@[m0 - 1].id@, d))) by {
            broadcast use vstd::set::group_set_axioms;

            assert(sviews.to_set().contains(d));
            assert(sviews.contains(d));
            let jd = choose|j2: int| 0 <= j2 < sviews.len() && sviews[j2] == d;
            if jd < j {
                assert(spec_among(spec_ids(out@), m0, sviews[jd]));
            } else {
                assert(out@.len() == count);
                if !spec_among(spec_ids(out@), m0, d) {
                    let j_l = choose|j2: int| 0 <= j2 < j && sviews[j2] == out@[m0 - 1].id@;
                    assert(sviews[j_l] == sorted@[j_l]@);
                    assert(sviews[jd] == sorted@[jd]@);
                    assert(spec_str_le(sorted@[j_l]@, sorted@[jd]@));
                    assert(spec_ids(out@)[m0 - 1] == out@[m0 - 1].id@);
                    assert(out@[m0 - 1].id@ != d);
                }
            }
        }
    }
    while out.len() < count
        invariant
            dset == spec_dir_set(existing_dirs@),
            m0 == spec_reused_count(count as int, existing_dirs@),
            m0 <= out@.len(),
            out@.len() == ids@.len(),
            out@.len() <= count,
            count > 0,
            forall|i: int| 0 <= i < ids@.len() ==> (#[trigger] ids@[i])@ == out@[i].id@,
            spec_distinct(spec_ids(out@)),
            forall|i: int| 0 <= i < m0 ==> dset.contains((#[trigger] out@[i].id)@),
            forall|i: int, i2: int|
                0 <= i < i2 < m0 ==> spec_str_lt(
                    (#[trigger] out@[i].id)@,
                    (#[trigger] out@[i2].id)@,
                ),
            forall|d: Seq<char>|
                #[trigger] dset.contains(d) ==> spec_among(spec_ids(out@), m0, d) || (m0 == count
                    && (count == 0 || spec_str_lt(out@[m0 - 1].id@, d))),
            forall|i: int|
                m0 <= i < out@.len() ==> (#[trigger] out@[i].id)@.len() == 41 && out@[i].id@.take(5)
                    == "peer-"@,
        decreases count - out@.len(),
    {
        let mut drawn: Option<String> = None;
        let mut tries: u8 = 0;
        while tries < FRESH_ID_RETRIES
            invariant_except_break
                drawn is None,
            ensures
                drawn matches Some(id) ==> id@.len() == 41 && id@.take(5) == "peer-"@ && !(
                exists|i: int| 0 <= i < ids@.len() && (#[trigger] ids@[i])@ == id@),
            decreases FRESH_ID_RETRIES - tries,
        {
            let candidate = fresh_peer_id();
            if !contains_str(&ids, candidate.as_str()) {
                drawn = Some(candidate);
                break;
            }
            tries += 1;
        }
        match drawn {
            Some(id) => {
                let ghost ids0 = ids@;
                let ghost out0 = out@;
                let ghost idv = id@;
                ids.push(id.clone());
                out.push(Peer { id });
                proof {
                    lemma_push_facts(out0, ids0, out@, ids@, idv);
                    assert(forall|i: int| 0 <= i < out0.len() ==> out@[i] == #[trigger] out0[i]);
                    assert(out@[out@.len() - 1].id@ == idv);
                    assert forall|d: Seq<char>| #[trigger] dset.contains(d) implies spec_among(
                        spec_ids(out@),
                        m0,
                        d,
                    ) || (m0 == count && (count == 0 || spec_str_lt(out@[m0 - 1].id@, d))) by {
                        if spec_among(spec_ids(out0), m0, d) {
                            let i0 = choose|i: int| 0 <= i < m0 && spec_ids(out0)[i] == d;
                            assert(spec_ids(out0)[i0] == out0[i0].id@);
                            assert(spec_ids(out@)[i0] == out@[i0].id@);
                        } else {
                            assert(m0 <= out0.len());
                            if m0 == count && count > 0 {
                                assert(out@[m0 - 1] == out0[m0 - 1]);
                            }
                        }
                    }
                }
            },
            None => {
                proof {
                    assert(m0 < count);
                    assert(spec_dir_set(existing_dirs@).len() < count);
                }
                return Err(Error::IdentityPoolExhausted);
            },
        }
    }
    proof {
        assert(spec_count_resolution(out@, count as int, existing_dirs@)) by {
            assert(forall|i: int|
                0 <= i < out@.len() ==> spec_ids(out@)[i] == (#[trigger] out@[i].id)@);
        }
    }
    Ok(out)
}

/// Resolves the peer list: by name when names are given, by count otherwise.
pub fn resolve_peers(peers_cfg: &PeersConfig, existing_dirs: &Vec<String>) -> (r: Result<
    Vec<Peer>,
    Error,
>)
    requires
        (match peers_cfg.names {
            Some(names) => names@.len(),
            None => 0,
        }) < usize::MAX,
    ensures
        match r {
            Ok(ps) => spec_distinct(spec_ids(ps@)) && (if spec_names_mode(*peers_cfg) {
                spec_named_resolution(ps@, peers_cfg.names->Some_0@) && !spec_dup_exists(
                    peers_cfg.names->Some_0@,
                )
            } else {
                spec_count_resolution(ps@, spec_count_or_zero(peers_cfg.count), existing_dirs@)
            }),
            Err(e) => match e {
                Error::DuplicateIdentity(nm) => spec_names_mode(*peers_cfg) && spec_dup_exists(
                    peers_cfg.names->Some_0@,
                ) && (exists|j: int|
                    0 <= j < peers_cfg.names->Some_0@.len() && nm@ == peers_cfg.names->Some_0@[j]@),
                Error::IdentityPoolExhausted => !spec_names_mode(*peers_cfg)
                    && spec_count_or_zero(peers_cfg.count) > spec_dir_set(existing_dirs@).len(),
                _ => false,
            },
        },
        spec_names_mode(*peers_cfg) && spec_dup_exists(peers_cfg.names->Some_0@) <==> (r matches
            Err(e) && e is DuplicateIdentity),
{
    match &peers_cfg.names {
        Some(names) => {
            if names.len() > 0 {
                let r = resolve_named_peers(names);
                proof {
                    if r is Ok {
                        let ps = r->Ok_0;
                        assert(spec_distinct(spec_ids(ps@))) by {
                            assert(forall|i: int|
                                0 <= i < ps@.len() ==> spec_ids(ps@)[i] == (#[trigger] ps@[i].id)@);
                        }
                    }
                }
                return r;
            }
            match peers_cfg.count {
                Some(c) => resolve_count_peers(c, existing_dirs),
                None => resolve_count_peers(0, existing_dirs),
            }
        },
        None => {
            match peers_cfg.count {
                Some(c) => resolve_count_peers(c, existing_dirs),
                None => resolve_count_peers(0, existing_dirs),
            }
        },
    }
}

/// The requested count, zero when none is set.
pub open spec fn spec_count_or_zero(count: Option<usize>) -> int {
    match count {
        Some(c) => c as int,
        None => 0,
    }
}

} // verus!
