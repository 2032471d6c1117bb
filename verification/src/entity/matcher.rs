//! Entity attribution: which labels apply to the sides of a transfer.

use crate::bytes::{bytes_eq, copy_bytes};
use crate::entity::label_store::{applies_on, EntityLabelStore, EntityLabelView};
use crate::indexer::types::{transfers_view, StablecoinTransfer, TransferView};
use vstd::prelude::*;

verus! {

/// A link from a transfer, named by its natural key, to a label that
/// applies to one of its sides.
#[derive(Debug)]
pub struct EntityFlag {
    pub chain_id: i64,
    pub tx_hash: Vec<u8>,
    pub log_index: i32,
    pub entity_label_id: i32,
    /// `from` or `to`.
    pub side: String,
}

/// What a `EntityFlag` holds, as plain mathematical values.
pub struct EntityFlagView {
    pub chain_id: i64,
    pub tx_hash: Seq<u8>,
    pub log_index: i32,
    pub entity_label_id: i32,
    pub side: Seq<char>,
}

impl View for EntityFlag {
    type V = EntityFlagView;

    open spec fn view(&self) -> EntityFlagView {
        EntityFlagView {
            chain_id: self.chain_id,
            tx_hash: self.tx_hash@,
            log_index: self.log_index,
            entity_label_id: self.entity_label_id,
            side: self.side@,
        }
    }
}

/// The views of a run of flags.
pub open spec fn flags_view(flags: Seq<EntityFlag>) -> Seq<EntityFlagView> {
    flags.map_values(|f: EntityFlag| f@)
}

/// Whether a label applies to `address` in the transfer `t`: it is a label
/// of that address and holds on the transfer's chain.
pub open spec fn label_applies(l: EntityLabelView, t: TransferView, address: Seq<u8>) -> bool {
    l.address == address && applies_on(l, t.chain_id)
}

/// The flags of one side of a transfer: one for every label that applies
/// to the address on that side, in the order of the store.
pub open spec fn side_flags(
    labels: Seq<EntityLabelView>,
    t: TransferView,
    address: Seq<u8>,
    side: Seq<char>,
) -> Seq<EntityFlagView>
    decreases labels.len(),
{
    if labels.len() == 0 {
        Seq::empty()
    } else {
        let before = side_flags(labels.drop_last(), t, address, side);
        let l = labels.last();
        if label_applies(l, t, address) {
            before.push(
                EntityFlagView {
                    chain_id: t.chain_id,
                    tx_hash: t.tx_hash,
                    log_index: t.log_index,
                    entity_label_id: l.id,
                    side,
                },
            )
        } else {
            before
        }
    }
}

/// The flags of a transfer: those of its sender, then those of its
/// receiver.
pub open spec fn transfer_flags(labels: Seq<EntityLabelView>, t: TransferView) -> Seq<
    EntityFlagView,
> {
    side_flags(labels, t, t.from_address, "from"@) + side_flags(labels, t, t.to_address, "to"@)
}

/// The flags of a batch, its transfers taken in order.
pub open spec fn batch_flags(labels: Seq<EntityLabelView>, batch: Seq<TransferView>) -> Seq<
    EntityFlagView,
>
    decreases batch.len(),
{
    if batch.len() == 0 {
        Seq::empty()
    } else {
        batch_flags(labels, batch.drop_last()) + transfer_flags(labels, batch.last())
    }
}

fn push_side_flags(
    flags: &mut Vec<EntityFlag>,
    label_store: &EntityLabelStore,
    t: &StablecoinTransfer,
    address: &[u8],
    side: &str,
)
    ensures
        flags_view(final(flags)@) == flags_view(old(flags)@) + side_flags(
            label_store@,
            t@,
            address@,
            side@,
        ),
{
    let ghost start = flags_view(flags@);
    let mut i: usize = 0;
    assert(label_store@.take(0) =~= Seq::<EntityLabelView>::empty());
    assert(flags_view(flags@) =~= start + Seq::<EntityFlagView>::empty());
    while i < label_store.labels.len()
        invariant
            i <= label_store.labels@.len(),
            flags_view(flags@) == start + side_flags(
                label_store@.take(i as int),
                t@,
                address@,
                side@,
            ),
        decreases label_store.labels@.len() - i,
    {
        let label = &label_store.labels[i];
        proof {
            let next = label_store@.take(i + 1);
            assert(next.drop_last() =~= label_store@.take(i as int));
            assert(next.last() == label@);
        }
        let ghost before = flags_view(flags@);
        if bytes_eq(label.address.as_slice(), address) && label.applies_on(t.chain_id) {
            let flag = EntityFlag {
                chain_id: t.chain_id,
                tx_hash: copy_bytes(t.tx_hash.as_slice()),
                log_index: t.log_index,
                entity_label_id: label.id,
                side: String::from_str(side),
            };
            let ghost fv = flag@;
            flags.push(flag);
            assert(flags_view(flags@) =~= before.push(fv));
            assert(before.push(fv) =~= start + side_flags(
                label_store@.take(i as int),
                t@,
                address@,
                side@,
            ).push(fv));
        }
        i += 1;
    }
    assert(label_store@.take(label_store.labels@.len() as int) =~= label_store@);
}

/// Matches a batch of transfers against the label store. Every label of
/// the sender that holds on the transfer's chain gives a flag with side
/// `from`, every such label of the receiver one with side `to`; a label
/// with a chain holds on that chain only, a label without on every chain.
pub fn attribute_entities(transfers: &[StablecoinTransfer], label_store: &EntityLabelStore) -> (flags:
    Vec<EntityFlag>)
    ensures
        flags_view(flags@) == batch_flags(label_store@, transfers_view(transfers@)),
{
    let mut flags: Vec<EntityFlag> = Vec::new();
    let mut i: usize = 0;
    assert(transfers_view(transfers@).take(0) =~= Seq::<TransferView>::empty());
    assert(flags_view(flags@) =~= Seq::<EntityFlagView>::empty());
    while i < transfers.len()
        invariant
            i <= transfers@.len(),
            flags_view(flags@) == batch_flags(
                label_store@,
                transfers_view(transfers@).take(i as int),
            ),
        decreases transfers@.len() - i,
    {
        let t = &transfers[i];
        proof {
            let next = transfers_view(transfers@).take(i + 1);
            assert(next.drop_last() =~= transfers_view(transfers@).take(i as int));
            assert(next.last() == t@);
        }
        let ghost before = flags_view(flags@);
        push_side_flags(&mut flags, label_store, t, t.from_address.as_slice(), "from");
        push_side_flags(&mut flags, label_store, t, t.to_address.as_slice(), "to");
        assert(flags_view(flags@) =~= before + transfer_flags(label_store@, t@));
        i += 1;
    }
    assert(transfers_view(transfers@).take(transfers@.len() as int) =~= transfers_view(
        transfers@,
    ));
    flags
}

} // verus!
