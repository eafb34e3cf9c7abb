//! Committee selection: seats reserved zone by zone for the best-ranked
//! validators of each zone, the rest filled in ranked order.

use vstd::prelude::*;
use crate::bytes::bytes_eq;
use crate::ranking::{is_ranking, lemma_ranking_exists, positions, rank, ranked, ranking};
use crate::types::{ConsensusError, Validator, ValidatorView};

verus! {

/// The public keys of `validators`, in order.
pub open spec fn keys_of(validators: Seq<ValidatorView>) -> Seq<Seq<u8>> {
    validators.map_values(|v: ValidatorView| v.pub_key)
}

/// Some member of `committee` has the public key `key`.
pub open spec fn holds_key(committee: Seq<ValidatorView>, key: Seq<u8>) -> bool {
    keys_of(committee).contains(key)
}

/// No two of `validators` share a public key.
pub open spec fn distinct_keys(validators: Seq<ValidatorView>) -> bool {
    keys_of(validators).no_duplicates()
}

/// `committee` is drawn from `pool`: every member is a validator of the
/// pool, and no two members share a public key.
pub open spec fn drawn_from(pool: Seq<ValidatorView>, committee: Seq<ValidatorView>) -> bool {
    &&& distinct_keys(committee)
    &&& forall|i: int| 0 <= i < committee.len() ==> pool.contains(#[trigger] committee[i])
}

/// The committee after one zone's pass over `ranked` from position `at`:
/// validators of `zone` not yet seated are seated in ranked order, until
/// `quota` of them were seated, the committee has `size` members, or the
/// ranking ends.
pub open spec fn admit_zone(
    ranked: Seq<ValidatorView>,
    zone: Seq<char>,
    quota: nat,
    size: nat,
    committee: Seq<ValidatorView>,
    at: nat,
) -> Seq<ValidatorView>
    decreases ranked.len() - at,
{
    if at >= ranked.len() || quota == 0 || committee.len() >= size {
        committee
    } else if ranked[at as int].geopolitical_zone == zone && !holds_key(
        committee,
        ranked[at as int].pub_key,
    ) {
        admit_zone(
            ranked,
            zone,
            (quota - 1) as nat,
            size,
            committee.push(ranked[at as int]),
            at + 1,
        )
    } else {
        admit_zone(ranked, zone, quota, size, committee, at + 1)
    }
}

/// The committee after the passes of the zones from position `z` of
/// `zones` on, each as [`admit_zone`] describes, in the order of `zones`.
pub open spec fn admit_zones(
    ranked: Seq<ValidatorView>,
    zones: Seq<Seq<char>>,
    quota: nat,
    size: nat,
    committee: Seq<ValidatorView>,
    z: nat,
) -> Seq<ValidatorView>
    decreases zones.len() - z,
{
    if z >= zones.len() {
        committee
    } else {
        admit_zones(
            ranked,
            zones,
            quota,
            size,
            admit_zone(ranked, zones[z as int], quota, size, committee, 0),
            z + 1,
        )
    }
}

/// The committee after the open seats are filled from position `at` of
/// `ranked` on: validators not yet seated are seated in ranked order,
/// whatever their zone, until the committee has `size` members or the
/// ranking ends.
pub open spec fn fill(
    ranked: Seq<ValidatorView>,
    size: nat,
    committee: Seq<ValidatorView>,
    at: nat,
) -> Seq<ValidatorView>
    decreases ranked.len() - at,
{
    if at >= ranked.len() || committee.len() >= size {
        committee
    } else if holds_key(committee, ranked[at as int].pub_key) {
        fill(ranked, size, committee, at + 1)
    } else {
        fill(ranked, size, committee.push(ranked[at as int]), at + 1)
    }
}

/// The seats that `pool` fills: first `quota` seats for each of `zones` in
/// turn, then the open seats, `size` at most in all. Members stand in the
/// order in which they were seated.
pub open spec fn seats(
    pool: Seq<ValidatorView>,
    zones: Seq<Seq<char>>,
    quota: nat,
    size: nat,
) -> Seq<ValidatorView> {
    fill(ranked(pool), size, admit_zones(ranked(pool), zones, quota, size, Seq::empty(), 0), 0)
}

/// The seats reserved for each zone of a committee of `size` members: an
/// equal share, rounded down; none where there is no zone.
pub open spec fn zone_quota(size: nat, zone_count: nat) -> nat {
    if zone_count == 0 {
        0
    } else {
        size / zone_count
    }
}

/// How many different public keys `validators` hold.
pub open spec fn distinct_key_count(validators: Seq<ValidatorView>) -> nat {
    keys_of(validators).to_set().len()
}

/// Validators with distinct keys hold as many keys as they are.
pub proof fn lemma_distinct_keys_count(validators: Seq<ValidatorView>)
    requires
        distinct_keys(validators),
    ensures
        distinct_key_count(validators) == validators.len(),
{
    keys_of(validators).unique_seq_to_set();
}

/// Validators hold no more different keys than they are.
pub proof fn lemma_key_count_bound(validators: Seq<ValidatorView>)
    ensures
        distinct_key_count(validators) <= validators.len(),
{
    keys_of(validators).lemma_cardinality_of_set();
}

/// Validators each of whose keys `committee` holds have no more different
/// keys than the committee has members.
pub proof fn lemma_held_keys_fit(validators: Seq<ValidatorView>, committee: Seq<ValidatorView>)
    requires
        forall|i: int|
            0 <= i < validators.len() ==> holds_key(committee, #[trigger] validators[i].pub_key),
    ensures
        distinct_key_count(validators) <= committee.len(),
{
    let wanted = keys_of(validators);
    let held = keys_of(committee);
    held.lemma_cardinality_of_set();
    vstd::seq_lib::seq_to_set_is_finite(held);
    assert(wanted.to_set().subset_of(held.to_set())) by {
        assert forall|key: Seq<u8>| wanted.to_set().contains(key) implies held.to_set().contains(
            key,
        ) by {
            let i = choose|i: int| 0 <= i < wanted.len() && wanted[i] == key;
            assert(holds_key(committee, validators[i].pub_key));
        }
    }
    vstd::set_lib::lemma_len_subset(wanted.to_set(), held.to_set());
}

/// A committee drawn from a pool has no more members than the pool has
/// different keys.
pub proof fn lemma_drawn_fits(pool: Seq<ValidatorView>, committee: Seq<ValidatorView>)
    requires
        drawn_from(pool, committee),
    ensures
        committee.len() <= distinct_key_count(pool),
{
    let seated = keys_of(committee);
    let offered = keys_of(pool);
    seated.unique_seq_to_set();
    vstd::seq_lib::seq_to_set_is_finite(offered);
    assert(seated.to_set().subset_of(offered.to_set())) by {
        assert forall|key: Seq<u8>| seated.to_set().contains(key) implies offered.to_set().contains(
            key,
        ) by {
            let i = choose|i: int| 0 <= i < seated.len() && seated[i] == key;
            assert(pool.contains(committee[i]));
            let j = choose|j: int| 0 <= j < pool.len() && pool[j] == committee[i];
            assert(offered[j] == key);
        }
    }
    vstd::set_lib::lemma_len_subset(seated.to_set(), offered.to_set());
}

/// Seating a validator whose key the committee does not hold keeps the
/// committee drawn from the pool, and keeps every key it held.
proof fn lemma_seat_keeps_drawn(
    pool: Seq<ValidatorView>,
    committee: Seq<ValidatorView>,
    v: ValidatorView,
)
    requires
        drawn_from(pool, committee),
        pool.contains(v),
        !holds_key(committee, v.pub_key),
    ensures
        drawn_from(pool, committee.push(v)),
        forall|key: Seq<u8>| holds_key(committee, key) ==> holds_key(committee.push(v), key),
        holds_key(committee.push(v), v.pub_key),
{
    let grown = committee.push(v);
    assert(keys_of(grown) =~= keys_of(committee).push(v.pub_key));
    assert forall|i: int, j: int|
        0 <= i < keys_of(grown).len() && 0 <= j < keys_of(grown).len() && i != j implies keys_of(
        grown,
    )[i] != keys_of(grown)[j] by {
        if i < committee.len() {
            assert(keys_of(committee)[i] == keys_of(grown)[i]);
        }
        if j < committee.len() {
            assert(keys_of(committee)[j] == keys_of(grown)[j]);
        }
    }
    assert forall|key: Seq<u8>| holds_key(committee, key) implies holds_key(grown, key) by {
        let i = choose|i: int| 0 <= i < keys_of(committee).len() && keys_of(committee)[i] == key;
        assert(keys_of(grown)[i] == key);
    }
    assert(keys_of(grown)[committee.len() as int] == v.pub_key);
}

/// A zone's pass keeps the committee drawn from the pool and within its
/// size.
proof fn lemma_admit_zone_drawn(
    pool: Seq<ValidatorView>,
    line: Seq<ValidatorView>,
    zone: Seq<char>,
    quota: nat,
    size: nat,
    committee: Seq<ValidatorView>,
    at: nat,
)
    requires
        forall|k: int| 0 <= k < line.len() ==> pool.contains(#[trigger] line[k]),
        drawn_from(pool, committee),
        committee.len() <= size,
    ensures
        drawn_from(pool, admit_zone(line, zone, quota, size, committee, at)),
        admit_zone(line, zone, quota, size, committee, at).len() <= size,
    decreases line.len() - at,
{
    if at >= line.len() || quota == 0 || committee.len() >= size {
    } else if line[at as int].geopolitical_zone == zone && !holds_key(
        committee,
        line[at as int].pub_key,
    ) {
        lemma_seat_keeps_drawn(pool, committee, line[at as int]);
        lemma_admit_zone_drawn(
            pool,
            line,
            zone,
            (quota - 1) as nat,
            size,
            committee.push(line[at as int]),
            at + 1,
        );
    } else {
        lemma_admit_zone_drawn(pool, line, zone, quota, size, committee, at + 1);
    }
}

/// The zones' passes keep the committee drawn from the pool and within
/// its size.
proof fn lemma_admit_zones_drawn(
    pool: Seq<ValidatorView>,
    line: Seq<ValidatorView>,
    zones: Seq<Seq<char>>,
    quota: nat,
    size: nat,
    committee: Seq<ValidatorView>,
    z: nat,
)
    requires
        forall|k: int| 0 <= k < line.len() ==> pool.contains(#[trigger] line[k]),
        drawn_from(pool, committee),
        committee.len() <= size,
    ensures
        drawn_from(pool, admit_zones(line, zones, quota, size, committee, z)),
        admit_zones(line, zones, quota, size, committee, z).len() <= size,
    decreases zones.len() - z,
{
    if z < zones.len() {
        lemma_admit_zone_drawn(pool, line, zones[z as int], quota, size, committee, 0);
        lemma_admit_zones_drawn(
            pool,
            line,
            zones,
            quota,
            size,
            admit_zone(line, zones[z as int], quota, size, committee, 0),
            z + 1,
        );
    }
}

/// Filling keeps the committee drawn from the pool and within its size,
/// and ends with a full committee or with every ranked key seated.
proof fn lemma_fill_drawn(
    pool: Seq<ValidatorView>,
    line: Seq<ValidatorView>,
    size: nat,
    committee: Seq<ValidatorView>,
    at: nat,
)
    requires
        forall|k: int| 0 <= k < line.len() ==> pool.contains(#[trigger] line[k]),
        drawn_from(pool, committee),
        committee.len() <= size,
        forall|k: int| 0 <= k < at ==> holds_key(committee, #[trigger] line[k].pub_key),
    ensures
        drawn_from(pool, fill(line, size, committee, at)),
        fill(line, size, committee, at).len() <= size,
        fill(line, size, committee, at).len() == size || forall|k: int|
            0 <= k < line.len() ==> holds_key(
                fill(line, size, committee, at),
                #[trigger] line[k].pub_key,
            ),
    decreases line.len() - at,
{
    if at >= line.len() || committee.len() >= size {
    } else if holds_key(committee, line[at as int].pub_key) {
        lemma_fill_drawn(pool, line, size, committee, at + 1);
    } else {
        lemma_seat_keeps_drawn(pool, committee, line[at as int]);
        lemma_fill_drawn(pool, line, size, committee.push(line[at as int]), at + 1);
    }
}

/// The seats are drawn from the pool: every member is a validator of the
/// pool, no two members share a key, and there are `size` of them at most.
pub proof fn lemma_seats_are_drawn(
    pool: Seq<ValidatorView>,
    zones: Seq<Seq<char>>,
    quota: nat,
    size: nat,
)
    ensures
        drawn_from(pool, seats(pool, zones, quota, size)),
        seats(pool, zones, quota, size).len() <= size,
{
    lemma_ranking_exists(pool);
    let line = ranked(pool);
    let none = Seq::<ValidatorView>::empty();
    assert(keys_of(none) =~= Seq::<Seq<u8>>::empty());
    lemma_admit_zones_drawn(pool, line, zones, quota, size, none, 0);
    lemma_fill_drawn(pool, line, size, admit_zones(line, zones, quota, size, none, 0), 0);
}

/// The seats fill exactly when the pool holds at least `size` different
/// keys.
pub proof fn lemma_seats_fill(
    pool: Seq<ValidatorView>,
    zones: Seq<Seq<char>>,
    quota: nat,
    size: nat,
)
    ensures
        seats(pool, zones, quota, size).len() == size <==> size <= distinct_key_count(pool),
{
    lemma_ranking_exists(pool);
    let line = ranked(pool);
    let none = Seq::<ValidatorView>::empty();
    assert(keys_of(none) =~= Seq::<Seq<u8>>::empty());
    lemma_admit_zones_drawn(pool, line, zones, quota, size, none, 0);
    lemma_fill_drawn(pool, line, size, admit_zones(line, zones, quota, size, none, 0), 0);
    let seated = seats(pool, zones, quota, size);
    if seated.len() == size {
        lemma_drawn_fits(pool, seated);
    } else {
        assert forall|i: int| 0 <= i < pool.len() implies holds_key(
            seated,
            #[trigger] pool[i].pub_key,
        ) by {
            assert(line.contains(pool[i]));
            let k = choose|k: int| 0 <= k < line.len() && line[k] == pool[i];
            assert(holds_key(seated, line[k].pub_key));
        }
        lemma_held_keys_fit(pool, seated);
    }
}

/// From a pool of validators with distinct keys, a committee no larger
/// than the pool is always seated in full: exactly `size` members, no two
/// with the same key, each a validator of the pool.
pub proof fn lemma_selection_is_sound(
    pool: Seq<ValidatorView>,
    zones: Seq<Seq<char>>,
    size: nat,
)
    requires
        distinct_keys(pool),
        size <= pool.len(),
    ensures
        seats(pool, zones, zone_quota(size, zones.len()), size).len() == size,
        distinct_keys(seats(pool, zones, zone_quota(size, zones.len()), size)),
        forall|i: int|
            0 <= i < size ==> pool.contains(
                #[trigger] seats(pool, zones, zone_quota(size, zones.len()), size)[i],
            ),
{
    let quota = zone_quota(size, zones.len());
    lemma_distinct_keys_count(pool);
    lemma_seats_fill(pool, zones, quota, size);
    lemma_seats_are_drawn(pool, zones, quota, size);
}

/// Whether some member of `committee` has the public key `key`.
pub fn holds(committee: &Vec<Validator>, key: &Vec<u8>) -> (found: bool)
    ensures
        found == holds_key(committee.deep_view(), key@),
{
    let mut i: usize = 0;
    while i < committee.len()
        invariant
            i <= committee.len(),
            forall|k: int| 0 <= k < i ==> keys_of(committee.deep_view())[k] != key@,
        decreases committee.len() - i,
    {
        if bytes_eq(&committee[i].pub_key, key) {
            assert(keys_of(committee.deep_view())[i as int] == key@);
            return true;
        }
        i += 1;
    }
    false
}

/// One zone's pass: seats up to `quota` validators of `zone`.
fn admit_from_zone(
    pool: &Vec<Validator>,
    order: &Vec<usize>,
    zone: &String,
    quota: usize,
    size: usize,
    committee: &mut Vec<Validator>,
)
    requires
        is_ranking(pool.deep_view(), positions(order@)),
        positions(order@) == ranking(pool.deep_view()),
    ensures
        final(committee).deep_view() == admit_zone(
            ranked(pool.deep_view()),
            zone@,
            quota as nat,
            size as nat,
            old(committee).deep_view(),
            0,
        ),
{
    let ghost views = pool.deep_view();
    let ghost line = ranked(views);
    let ghost start = committee.deep_view();
    let mut at: usize = 0;
    let mut left: usize = quota;
    while at < order.len() && left > 0 && committee.len() < size
        invariant
            views == pool.deep_view(),
            line == ranked(views),
            is_ranking(views, positions(order@)),
            positions(order@) == ranking(views),
            at <= order.len(),
            admit_zone(line, zone@, left as nat, size as nat, committee.deep_view(), at as nat)
                == admit_zone(line, zone@, quota as nat, size as nat, start, 0),
        decreases order.len() - at,
    {
        assert(positions(order@)[at as int] == order@[at as int]);
        let candidate = &pool[order[at]];
        assert(line[at as int] == candidate@);
        if candidate.geopolitical_zone == *zone && !holds(committee, &candidate.pub_key) {
            let ghost before = committee.deep_view();
            committee.push(candidate.clone());
            assert(committee.deep_view() =~= before.push(candidate@));
            left -= 1;
        }
        at += 1;
    }
}

/// Fills the open seats in ranked order.
fn fill_seats(
    pool: &Vec<Validator>,
    order: &Vec<usize>,
    size: usize,
    committee: &mut Vec<Validator>,
)
    requires
        is_ranking(pool.deep_view(), positions(order@)),
        positions(order@) == ranking(pool.deep_view()),
    ensures
        final(committee).deep_view() == fill(
            ranked(pool.deep_view()),
            size as nat,
            old(committee).deep_view(),
            0,
        ),
{
    let ghost views = pool.deep_view();
    let ghost line = ranked(views);
    let ghost start = committee.deep_view();
    let mut at: usize = 0;
    while at < order.len() && committee.len() < size
        invariant
            views == pool.deep_view(),
            line == ranked(views),
            is_ranking(views, positions(order@)),
            positions(order@) == ranking(views),
            at <= order.len(),
            fill(line, size as nat, committee.deep_view(), at as nat) == fill(
                line,
                size as nat,
                start,
                0,
            ),
        decreases order.len() - at,
    {
        assert(positions(order@)[at as int] == order@[at as int]);
        let candidate = &pool[order[at]];
        assert(line[at as int] == candidate@);
        if !holds(committee, &candidate.pub_key) {
            let ghost before = committee.deep_view();
            committee.push(candidate.clone());
            assert(committee.deep_view() =~= before.push(candidate@));
        }
        at += 1;
    }
}

/// Seats a committee of `size` members from `pool`, reserving `quota`
/// seats for each of `zones`.
///
/// Succeeds exactly when the pool holds at least `size` different public
/// keys. The committee then has `size` members, no two with the same key,
/// each a validator of the pool.
pub fn seat_committee(
    pool: &Vec<Validator>,
    zones: &Vec<String>,
    quota: usize,
    size: usize,
) -> (outcome: Result<Vec<Validator>, ConsensusError>)
    ensures
        match outcome {
            Ok(committee) => committee.deep_view() == seats(
                pool.deep_view(),
                zones.deep_view(),
                quota as nat,
                size as nat,
            ),
            Err(e) => e == ConsensusError::InsufficientValidators,
        },
        outcome is Ok <==> size <= distinct_key_count(pool.deep_view()),
        outcome is Ok ==> size <= pool.len(),
        distinct_keys(pool.deep_view()) && size <= pool.len() ==> outcome is Ok,
        outcome matches Ok(committee) ==> committee.len() == size && drawn_from(
            pool.deep_view(),
            committee.deep_view(),
        ),
{
    let order = rank(pool);
    let ghost views = pool.deep_view();
    let ghost line = ranked(views);
    let ghost names = zones.deep_view();
    let mut committee: Vec<Validator> = Vec::new();
    assert(committee.deep_view() =~= Seq::<ValidatorView>::empty());
    let mut z: usize = 0;
    while z < zones.len()
        invariant
            views == pool.deep_view(),
            line == ranked(views),
            names == zones.deep_view(),
            is_ranking(views, positions(order@)),
            positions(order@) == ranking(views),
            z <= zones.len(),
            admit_zones(line, names, quota as nat, size as nat, committee.deep_view(), z as nat)
                == admit_zones(line, names, quota as nat, size as nat, Seq::empty(), 0),
        decreases zones.len() - z,
    {
        assert(names[z as int] == zones[z as int]@);
        admit_from_zone(pool, &order, &zones[z], quota, size, &mut committee);
        z += 1;
    }
    fill_seats(pool, &order, size, &mut committee);
    proof {
        lemma_seats_are_drawn(views, names, quota as nat, size as nat);
        lemma_seats_fill(views, names, quota as nat, size as nat);
        lemma_key_count_bound(views);
        if distinct_keys(views) {
            lemma_distinct_keys_count(views);
        }
    }
    if committee.len() == size {
        Ok(committee)
    } else {
        Err(ConsensusError::InsufficientValidators)
    }
}

/// Selects the committee of `committee_size` members from `pool`.
///
/// The pool is ranked by composite score, highest first, equal scores by
/// public key in byte order. Each of `zones` in turn is given an equal
/// share of the seats, rounded down, for its best-ranked validators; the
/// open seats go to the best-ranked validators not yet seated, whatever
/// their zone. Succeeds exactly when the pool holds at least
/// `committee_size` different public keys; the committee then has
/// `committee_size` members, no two with the same key, each a validator of
/// the pool.
pub fn select(pool: &Vec<Validator>, committee_size: usize, zones: &Vec<String>) -> (outcome:
    Result<Vec<Validator>, ConsensusError>)
    ensures
        match outcome {
            Ok(committee) => committee.deep_view() == seats(
                pool.deep_view(),
                zones.deep_view(),
                zone_quota(committee_size as nat, zones.len() as nat),
                committee_size as nat,
            ),
            Err(e) => e == ConsensusError::InsufficientValidators,
        },
        outcome is Ok <==> committee_size <= distinct_key_count(pool.deep_view()),
        outcome is Ok ==> committee_size <= pool.len(),
        distinct_keys(pool.deep_view()) && committee_size <= pool.len() ==> outcome is Ok,
        outcome matches Ok(committee) ==> committee.len() == committee_size && drawn_from(
            pool.deep_view(),
            committee.deep_view(),
        ),
{
    let quota: usize = if zones.len() == 0 {
        0
    } else {
        committee_size / zones.len()
    };
    seat_committee(pool, zones, quota, committee_size)
}

} // verus!
