//! The in-memory index of entity labels.

use crate::bytes::{bytes_eq, copy_bytes};
use crate::text::str_eq;
use vstd::prelude::*;

verus! {

/// A claim that an address belongs to an entity.
#[derive(Debug)]
pub struct EntityLabel {
    pub id: i32,
    pub address: Vec<u8>,
    /// The chain that the label holds on; every chain where absent.
    pub chain_id: Option<i64>,
    pub entity_name: String,
    pub entity_type: String,
    pub label_source: String,
    /// In hundredths: 100 is certainty.
    pub confidence: u8,
}

/// What a `EntityLabel` holds, as plain mathematical values.
pub struct EntityLabelView {
    pub id: i32,
    pub address: Seq<u8>,
    pub chain_id: Option<i64>,
    pub entity_name: Seq<char>,
    pub entity_type: Seq<char>,
    pub label_source: Seq<char>,
    pub confidence: u8,
}

impl View for EntityLabel {
    type V = EntityLabelView;

    open spec fn view(&self) -> EntityLabelView {
        EntityLabelView {
            id: self.id,
            address: self.address@,
            chain_id: self.chain_id,
            entity_name: self.entity_name@,
            entity_type: self.entity_type@,
            label_source: self.label_source@,
            confidence: self.confidence,
        }
    }
}

/// The views of a run of labels.
pub open spec fn labels_view(labels: Seq<EntityLabel>) -> Seq<EntityLabelView> {
    labels.map_values(|l: EntityLabel| l@)
}

/// The identity of a label: address, chain scope, source and entity name.
pub open spec fn label_key(l: EntityLabelView) -> (Seq<u8>, Option<i64>, Seq<char>, Seq<char>) {
    (l.address, l.chain_id, l.label_source, l.entity_name)
}

/// Whether a label marks its address as sanctioned: by its type, or by
/// coming from the OFAC SDN list.
pub open spec fn marks_sanctioned(l: EntityLabelView) -> bool {
    l.entity_type == "sanctioned"@ || l.label_source == "ofac_sdn"@
}

/// The labels of `address`, in the order of the store.
pub open spec fn labels_of(labels: Seq<EntityLabelView>, address: Seq<u8>) -> Seq<EntityLabelView> {
    labels.filter(|l: EntityLabelView| l.address == address)
}

/// Whether some label of `address` marks it as sanctioned.
pub open spec fn sanctioned(labels: Seq<EntityLabelView>, address: Seq<u8>) -> bool {
    exists|i: int|
        0 <= i < labels.len() && (#[trigger] labels[i]).address == address && marks_sanctioned(
            labels[i],
        )
}

/// The index of the first label with the identity of `label`, or the
/// number of labels where there is none.
pub open spec fn label_index(labels: Seq<EntityLabelView>, label: EntityLabelView) -> int
    decreases labels.len(),
{
    if labels.len() == 0 {
        0
    } else if label_key(labels[0]) == label_key(label) {
        0
    } else {
        1 + label_index(labels.drop_first(), label)
    }
}

/// The store with `label` in it: in the place of the label with the same
/// identity, or at the end.
pub open spec fn with_label(labels: Seq<EntityLabelView>, label: EntityLabelView) -> Seq<
    EntityLabelView,
> {
    let i = label_index(labels, label);
    if i < labels.len() {
        labels.update(i, label)
    } else {
        labels.push(label)
    }
}

proof fn lemma_label_index(labels: Seq<EntityLabelView>, label: EntityLabelView)
    ensures
        0 <= label_index(labels, label) <= labels.len(),
        label_index(labels, label) < labels.len() ==> label_key(
            labels[label_index(labels, label)],
        ) == label_key(label),
        forall|j: int|
            0 <= j < label_index(labels, label) ==> label_key(#[trigger] labels[j]) != label_key(
                label,
            ),
    decreases labels.len(),
{
    if labels.len() > 0 && label_key(labels[0]) != label_key(label) {
        let rest = labels.drop_first();
        lemma_label_index(rest, label);
        assert forall|j: int| 0 <= j < label_index(labels, label) implies label_key(
            #[trigger] labels[j],
        ) != label_key(label) by {
            if j > 0 {
                assert(labels[j] == rest[j - 1]);
            }
        }
    }
}

proof fn lemma_label_index_is(labels: Seq<EntityLabelView>, label: EntityLabelView, i: int)
    requires
        0 <= i <= labels.len(),
        forall|j: int| 0 <= j < i ==> label_key(#[trigger] labels[j]) != label_key(label),
        i < labels.len() ==> label_key(labels[i]) == label_key(label),
    ensures
        label_index(labels, label) == i,
    decreases labels.len(),
{
    if labels.len() > 0 && i > 0 {
        assert(label_key(labels[0]) != label_key(label));
        let rest = labels.drop_first();
        assert forall|j: int| 0 <= j < i - 1 implies label_key(#[trigger] rest[j]) != label_key(
            label,
        ) by {
            assert(rest[j] == labels[j + 1]);
        }
        lemma_label_index_is(rest, label, i - 1);
    }
}

/// Seeding is idempotent: a label that is seeded a second time leaves the
/// store as the first seeding left it.
pub proof fn lemma_seed_twice(labels: Seq<EntityLabelView>, label: EntityLabelView)
    ensures
        with_label(with_label(labels, label), label) == with_label(labels, label),
{
    lemma_label_index(labels, label);
    let i = label_index(labels, label);
    let once = with_label(labels, label);
    assert forall|j: int| 0 <= j < i implies label_key(#[trigger] once[j]) != label_key(label) by {
        assert(once[j] == labels[j]);
    }
    assert(once[i] == label);
    lemma_label_index_is(once, label, i);
    assert(with_label(once, label) =~= once);
}

/// The store after the labels of `seeds` are put into it, one after the
/// other.
pub open spec fn with_labels(labels: Seq<EntityLabelView>, seeds: Seq<EntityLabelView>) -> Seq<
    EntityLabelView,
>
    decreases seeds.len(),
{
    if seeds.len() == 0 {
        labels
    } else {
        with_label(with_labels(labels, seeds.drop_last()), seeds.last())
    }
}

/// The last of `seeds` with the identity of `label`, if there is one.
pub open spec fn last_seed(seeds: Seq<EntityLabelView>, label: EntityLabelView) -> Option<
    EntityLabelView,
>
    decreases seeds.len(),
{
    if seeds.len() == 0 {
        None
    } else if label_key(seeds.last()) == label_key(label) {
        Some(seeds.last())
    } else {
        last_seed(seeds.drop_last(), label)
    }
}

/// Putting a label into the store leaves every identity at its place.
proof fn lemma_with_label_places(
    labels: Seq<EntityLabelView>,
    label: EntityLabelView,
    other: EntityLabelView,
)
    ensures
        label_index(labels, other) < labels.len() ==> label_index(with_label(labels, label), other)
            == label_index(labels, other),
        label_index(with_label(labels, label), label) == label_index(labels, label),
        label_index(with_label(labels, label), label) < with_label(labels, label).len(),
        with_label(labels, label)[label_index(labels, label)] == label,
        labels.len() <= with_label(labels, label).len(),
        forall|i: int|
            0 <= i < labels.len() ==> label_key(#[trigger] with_label(labels, label)[i])
                == label_key(labels[i]),
        forall|i: int|
            0 <= i < labels.len() && i != label_index(labels, label) ==> #[trigger] with_label(
                labels,
                label,
            )[i] == labels[i],
{
    lemma_label_index(labels, label);
    lemma_label_index(labels, other);
    let after = with_label(labels, label);
    let at = label_index(labels, label);
    let o = label_index(labels, other);
    assert forall|j: int| 0 <= j < at implies label_key(#[trigger] after[j]) != label_key(label) by {
        assert(after[j] == labels[j]);
    }
    lemma_label_index_is(after, label, at);
    if o < labels.len() {
        assert forall|j: int| 0 <= j < o implies label_key(#[trigger] after[j]) != label_key(
            other,
        ) by {
            if j == at {
                assert(label_key(labels[j]) == label_key(label));
            } else {
                assert(after[j] == labels[j]);
            }
        }
        lemma_label_index_is(after, other, o);
    }
}

/// After seeding, the place of an identity among the seeds holds the last
/// seed with that identity.
proof fn lemma_with_labels_last(
    labels: Seq<EntityLabelView>,
    seeds: Seq<EntityLabelView>,
    label: EntityLabelView,
)
    requires
        last_seed(seeds, label) is Some,
    ensures
        label_index(with_labels(labels, seeds), label) < with_labels(labels, seeds).len(),
        with_labels(labels, seeds)[label_index(with_labels(labels, seeds), label)] == last_seed(
            seeds,
            label,
        ).unwrap(),
    decreases seeds.len(),
{
    let before = with_labels(labels, seeds.drop_last());
    let s = seeds.last();
    lemma_with_label_places(before, s, label);
    lemma_label_index(before, s);
    if label_key(s) == label_key(label) {
        lemma_label_index(before, label);
        lemma_label_index_is(before, label, label_index(before, s));
        lemma_label_index_is(with_label(before, s), label, label_index(before, s));
    } else {
        lemma_with_labels_last(labels, seeds.drop_last(), label);
        lemma_label_index(before, label);
    }
}

/// Seeding into a store that has every identity of the seeds changes only
/// the places of those identities, each to the last seed with it.
proof fn lemma_with_labels_in_place(store: Seq<EntityLabelView>, seeds: Seq<EntityLabelView>)
    requires
        forall|n: int|
            0 <= n < seeds.len() ==> label_index(store, #[trigger] seeds[n]) < store.len(),
    ensures
        with_labels(store, seeds).len() == store.len(),
        forall|i: int|
            0 <= i < store.len() ==> label_key(#[trigger] with_labels(store, seeds)[i])
                == label_key(store[i]),
        forall|i: int|
            0 <= i < store.len() ==> #[trigger] with_labels(store, seeds)[i] == (if i
                == label_index(store, store[i]) && last_seed(seeds, store[i]) is Some {
                last_seed(seeds, store[i]).unwrap()
            } else {
                store[i]
            }),
    decreases seeds.len(),
{
    if seeds.len() > 0 {
        let prefix = seeds.drop_last();
        let s = seeds.last();
        assert forall|n: int| 0 <= n < prefix.len() implies label_index(store, #[trigger] prefix[n])
            < store.len() by {
            assert(prefix[n] == seeds[n]);
        }
        lemma_with_labels_in_place(store, prefix);
        let before = with_labels(store, prefix);
        let after = with_labels(store, seeds);
        assert(seeds[seeds.len() - 1] == s);
        let at = label_index(store, s);
        lemma_label_index(store, s);
        assert forall|j: int| 0 <= j < at implies label_key(#[trigger] before[j]) != label_key(s) by {
            assert(label_key(before[j]) == label_key(store[j]));
        }
        assert(label_key(before[at]) == label_key(store[at]));
        lemma_label_index_is(before, s, at);
        lemma_with_label_places(before, s, s);
        assert forall|i: int| 0 <= i < store.len() implies #[trigger] after[i] == (if i
            == label_index(store, store[i]) && last_seed(seeds, store[i]) is Some {
            last_seed(seeds, store[i]).unwrap()
        } else {
            store[i]
        }) by {
            lemma_label_index(store, store[i]);
            if i == at {
                lemma_label_index_is(store, store[i], at);
            } else {
                assert(after[i] == before[i]);
                if label_key(store[i]) == label_key(s) {
                    if i == label_index(store, store[i]) {
                        lemma_label_index_is(store, s, i);
                    }
                }
            }
        }
    }
}

/// Every seed has a last seed with its identity.
proof fn lemma_seed_has_last(seeds: Seq<EntityLabelView>, n: int)
    requires
        0 <= n < seeds.len(),
    ensures
        last_seed(seeds, seeds[n]) is Some,
    decreases seeds.len(),
{
    if n < seeds.len() - 1 && label_key(seeds.last()) != label_key(seeds[n]) {
        assert(seeds.drop_last()[n] == seeds[n]);
        lemma_seed_has_last(seeds.drop_last(), n);
    }
}

/// Seeding the same entries twice yields the same label rows as seeding
/// them once.
pub proof fn lemma_seed_all_twice(labels: Seq<EntityLabelView>, seeds: Seq<EntityLabelView>)
    ensures
        with_labels(with_labels(labels, seeds), seeds) == with_labels(labels, seeds),
{
    let once = with_labels(labels, seeds);
    assert forall|n: int| 0 <= n < seeds.len() implies label_index(once, #[trigger] seeds[n])
        < once.len() by {
        lemma_seed_has_last(seeds, n);
        lemma_with_labels_last(labels, seeds, seeds[n]);
    }
    lemma_with_labels_in_place(once, seeds);
    let twice = with_labels(once, seeds);
    assert forall|i: int| 0 <= i < once.len() implies twice[i] == once[i] by {
        if i == label_index(once, once[i]) && last_seed(seeds, once[i]) is Some {
            lemma_with_labels_last(labels, seeds, once[i]);
        }
    }
    assert(twice =~= once);
}

/// The labels of all addresses, in the order in which they came.
#[derive(Debug)]
pub struct EntityLabelStore {
    pub labels: Vec<EntityLabel>,
}

impl View for EntityLabelStore {
    type V = Seq<EntityLabelView>;

    open spec fn view(&self) -> Seq<EntityLabelView> {
        labels_view(self.labels@)
    }
}

fn same_text(a: &String, b: &String) -> (same: bool)
    ensures
        same == (a@ == b@),
{
    str_eq(a.as_str(), b.as_str())
}

fn same_chain(a: &Option<i64>, b: &Option<i64>) -> (same: bool)
    ensures
        same == (*a == *b),
{
    match (a, b) {
        (Some(x), Some(y)) => *x == *y,
        (None, None) => true,
        _ => false,
    }
}

impl EntityLabel {
    /// Whether the label marks its address as sanctioned.
    pub fn marks_sanctioned(&self) -> (marked: bool)
        ensures
            marked == marks_sanctioned(self@),
    {
        str_eq(self.entity_type.as_str(), "sanctioned") || str_eq(
            self.label_source.as_str(),
            "ofac_sdn",
        )
    }

    /// Whether the label holds on `chain_id`: it names that chain or none.
    pub fn applies_on(&self, chain_id: i64) -> (applies: bool)
        ensures
            applies == applies_on(self@, chain_id),
    {
        match self.chain_id {
            Some(c) => c == chain_id,
            None => true,
        }
    }

    fn same_identity(&self, other: &EntityLabel) -> (same: bool)
        ensures
            same == (label_key(self@) == label_key(other@)),
    {
        let same = bytes_eq(self.address.as_slice(), other.address.as_slice()) && same_chain(
            &self.chain_id,
            &other.chain_id,
        ) && same_text(&self.label_source, &other.label_source) && same_text(
            &self.entity_name,
            &other.entity_name,
        );
        same
    }
}

/// Whether a label holds on a chain: a label without a chain holds on
/// every chain.
pub open spec fn applies_on(l: EntityLabelView, chain_id: i64) -> bool {
    l.chain_id is None || l.chain_id == Some(chain_id)
}

impl EntityLabelStore {
    /// A store without labels.
    pub fn new() -> (store: Self)
        ensures
            store@ == Seq::<EntityLabelView>::empty(),
    {
        let store = EntityLabelStore { labels: Vec::new() };
        assert(store@ =~= Seq::<EntityLabelView>::empty());
        store
    }

    /// A store that holds the given rows, in their order.
    pub fn from_rows(rows: Vec<EntityLabel>) -> (store: Self)
        ensures
            store@ == labels_view(rows@),
    {
        EntityLabelStore { labels: rows }
    }

    /// The labels of `address`, in the order of the store; nothing where
    /// it has none. The labels of every chain are returned.
    pub fn lookup(&self, address: &[u8]) -> (found: Option<Vec<&EntityLabel>>)
        ensures
            match found {
                Some(list) => list@.len() > 0 && list@.map_values(|l: &EntityLabel| l@)
                    == labels_of(self@, address@),
                None => labels_of(self@, address@).len() == 0,
            },
    {
        let mut list: Vec<&EntityLabel> = Vec::new();
        let mut i: usize = 0;
        let ghost pred = |l: EntityLabelView| l.address == address@;
        assert(self@.take(0) =~= Seq::<EntityLabelView>::empty());
        assert(list@.map_values(|l: &EntityLabel| l@) =~= Seq::<EntityLabelView>::empty());
        while i < self.labels.len()
            invariant
                i <= self.labels@.len(),
                pred == (|l: EntityLabelView| l.address == address@),
                list@.map_values(|l: &EntityLabel| l@) == self@.take(i as int).filter(pred),
            decreases self.labels@.len() - i,
        {
            let ghost before = list@.map_values(|l: &EntityLabel| l@);
            proof {
                let next = self@.take(i + 1);
                assert(next.drop_last() =~= self@.take(i as int));
                assert(next.last() == self.labels@[i as int]@);
                reveal(Seq::filter);
            }
            if bytes_eq(self.labels[i].address.as_slice(), address) {
                list.push(&self.labels[i]);
                assert(list@.map_values(|l: &EntityLabel| l@) =~= before.push(
                    self.labels@[i as int]@,
                ));
            }
            i += 1;
        }
        assert(self@.take(self.labels@.len() as int) =~= self@);
        if list.len() == 0 {
            None
        } else {
            Some(list)
        }
    }

    /// Whether some label of `address` has the type `sanctioned` or the
    /// source `ofac_sdn`.
    pub fn is_sanctioned(&self, address: &[u8]) -> (hit: bool)
        ensures
            hit == sanctioned(self@, address@),
    {
        let mut i: usize = 0;
        while i < self.labels.len()
            invariant
                i <= self.labels@.len(),
                forall|j: int|
                    0 <= j < i ==> !((#[trigger] self@[j]).address == address@ && marks_sanctioned(
                        self@[j],
                    )),
            decreases self.labels@.len() - i,
        {
            if bytes_eq(self.labels[i].address.as_slice(), address)
                && self.labels[i].marks_sanctioned() {
                assert(self@[i as int].address == address@ && marks_sanctioned(self@[i as int]));
                return true;
            }
            i += 1;
        }
        false
    }

    /// Puts a label into the store: in the place of the label with the same
    /// address, chain scope, source and entity name, or at the end.
    pub fn insert_memory(&mut self, label: EntityLabel)
        ensures
            final(self)@ == with_label(old(self)@, label@),
    {
        let ghost before = self@;
        let mut i: usize = 0;
        while i < self.labels.len()
            invariant
                i <= self.labels@.len(),
                self@ == before,
                before == old(self)@,
                forall|j: int| 0 <= j < i ==> label_key(#[trigger] before[j]) != label_key(label@),
            decreases self.labels@.len() - i,
        {
            if self.labels[i].same_identity(&label) {
                proof {
                    assert(label_key(before[i as int]) == label_key(label@));
                    lemma_label_index_is(before, label@, i as int);
                }
                let ghost lv = label@;
                self.labels[i] = label;
                assert(self@ =~= before.update(i as int, lv));
                return;
            }
            assert(label_key(before[i as int]) != label_key(label@));
            i += 1;
        }
        proof {
            lemma_label_index_is(before, label@, i as int);
        }
        let ghost lv = label@;
        self.labels.push(label);
        assert(self@ =~= before.push(lv));
    }

    /// Seeds a label that storage has accepted under `id`. The label takes
    /// the place of an earlier one with the same address, chain scope,
    /// source and entity name, so that seeding twice changes nothing more.
    pub fn seed_label(
        &mut self,
        id: i32,
        address: &[u8],
        chain_id: Option<i64>,
        entity_name: &str,
        entity_type: &str,
        label_source: &str,
        confidence: u8,
    ) -> (label_id: i32)
        ensures
            label_id == id,
            final(self)@ == with_label(
                old(self)@,
                EntityLabelView {
                    id,
                    address: address@,
                    chain_id,
                    entity_name: entity_name@,
                    entity_type: entity_type@,
                    label_source: label_source@,
                    confidence,
                },
            ),
    {
        let label = EntityLabel {
            id,
            address: copy_bytes(address),
            chain_id,
            entity_name: String::from_str(entity_name),
            entity_type: String::from_str(entity_type),
            label_source: String::from_str(label_source),
            confidence,
        };
        self.insert_memory(label);
        id
    }
}

} // verus!
