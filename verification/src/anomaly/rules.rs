//! The anomaly rules. Each looks at one transfer and gives one record or
//! none.
//!
//! Amounts are compared in raw units: a transfer of a token with `d`
//! decimals is worth at least `u` whole units where its raw amount is at
//! least `u * 10^d`.

use crate::amount::{decimal_text, pow10, Amount};
use crate::anomaly::types::{record_view, AnomalyRecord, AnomalyRecordView, AnomalyType};
use crate::bytes::{bytes_eq, copy_bytes, hex_chars, hex_encode};
use crate::config::TokenThreshold;
use crate::entity::label_store::{sanctioned, EntityLabelStore, EntityLabelView};
use crate::fields::{fields_view, number_field, text_field, Field, FieldView};
use crate::indexer::types::{StablecoinTransfer, TransferView};
use crate::text::{str_eq, u64_text};
use crate::wallet::first_seen::{wallet_events_view, NewWalletEvent, NewWalletEventView};
use vstd::prelude::*;

verus! {

/// The threshold of a large transfer where the configuration names
/// neither the token nor a default, in whole units.
pub const FALLBACK_LARGE_TRANSFER_UNITS: u64 = 100_000;

/// Batches above this size are not held against the velocity rule.
pub const VELOCITY_MAX_BATCH: usize = 100;

/// Batches above this size are not held against the cross-chain rule.
pub const CROSS_CHAIN_MAX_BATCH: usize = 50;

/// The number of raw units in one whole unit of a token.
pub open spec fn unit_scale(decimals: i16) -> nat {
    if decimals <= 0 {
        1
    } else {
        pow10(decimals as nat)
    }
}

/// The whole units in a raw amount, rounded down.
pub open spec fn whole_units(amount: nat, decimals: i16) -> nat {
    amount / unit_scale(decimals)
}

proof fn lemma_pow10_positive(e: nat)
    ensures
        pow10(e) > 0,
    decreases e,
{
    if e > 0 {
        lemma_pow10_positive((e - 1) as nat);
    }
}

fn scale_of(decimals: i16) -> (scale: Amount)
    ensures
        scale@ == unit_scale(decimals),
        scale@ > 0,
{
    proof {
        if decimals > 0 {
            lemma_pow10_positive(decimals as nat);
        }
    }
    if decimals <= 0 {
        let one = Amount::pow10(0);
        assert(pow10(0) == 1);
        one
    } else {
        Amount::pow10(decimals as u32)
    }
}

fn whole_units_of(amount: &Amount, scale: &Amount) -> (whole: Amount)
    requires
        scale@ > 0,
    ensures
        whole@ == amount@ / scale@,
{
    match amount.div_floor(scale) {
        Some(w) => w,
        None => Amount::zero(),
    }
}

/// What every record of a transfer shares.
pub open spec fn record_of(
    t: TransferView,
    anomaly_type: AnomalyType,
    risk_score: u8,
    flag: Seq<char>,
    details: Seq<FieldView>,
    address: Option<Seq<u8>>,
) -> AnomalyRecordView {
    AnomalyRecordView {
        chain_id: t.chain_id,
        anomaly_type,
        risk_score,
        flags: seq![flag],
        details,
        address,
        tx_hash: t.tx_hash,
        log_index: t.log_index,
    }
}

fn make_record(
    t: &StablecoinTransfer,
    anomaly_type: AnomalyType,
    risk_score: u8,
    flag: String,
    details: Vec<Field>,
    address: Option<Vec<u8>>,
) -> (record: AnomalyRecord)
    ensures
        record@ == record_of(
            t@,
            anomaly_type,
            risk_score,
            flag@,
            fields_view(details@),
            match address {
                Some(a) => Some(a@),
                None => None,
            },
        ),
{
    let mut flags: Vec<String> = Vec::new();
    let ghost fv = flag@;
    flags.push(flag);
    assert(flags@.map_values(|f: String| f@) =~= seq![fv]);
    AnomalyRecord {
        chain_id: t.chain_id,
        anomaly_type,
        risk_score,
        flags,
        details,
        address,
        tx_hash: copy_bytes(t.tx_hash.as_slice()),
        log_index: t.log_index,
    }
}

/// The symbol and the units of a threshold.
pub open spec fn thresholds_view(thresholds: Seq<TokenThreshold>) -> Seq<(Seq<char>, u64)> {
    thresholds.map_values(|t: TokenThreshold| (t.symbol@, t.units))
}

/// The units of the first threshold for `symbol`, if there is one.
pub open spec fn threshold_named(thresholds: Seq<(Seq<char>, u64)>, symbol: Seq<char>) -> Option<
    u64,
>
    decreases thresholds.len(),
{
    if thresholds.len() == 0 {
        None
    } else if thresholds[0].0 == symbol {
        Some(thresholds[0].1)
    } else {
        threshold_named(thresholds.drop_first(), symbol)
    }
}

/// The large-transfer threshold of a token, in whole units: its own, else
/// the one named `default`, else 100,000.
pub open spec fn threshold_for(thresholds: Seq<(Seq<char>, u64)>, symbol: Seq<char>) -> u64 {
    match threshold_named(thresholds, symbol) {
        Some(u) => u,
        None => match threshold_named(thresholds, "default"@) {
            Some(u) => u,
            None => FALLBACK_LARGE_TRANSFER_UNITS,
        },
    }
}

fn find_threshold(thresholds: &[TokenThreshold], symbol: &str) -> (units: Option<u64>)
    ensures
        units == threshold_named(thresholds_view(thresholds@), symbol@),
{
    let ghost all = thresholds_view(thresholds@);
    let mut i: usize = 0;
    assert(all.skip(0) =~= all);
    while i < thresholds.len()
        invariant
            i <= thresholds@.len(),
            all == thresholds_view(thresholds@),
            threshold_named(all, symbol@) == threshold_named(all.skip(i as int), symbol@),
        decreases thresholds@.len() - i,
    {
        assert(all.skip(i as int)[0] == all[i as int]);
        assert(all.skip(i as int).drop_first() =~= all.skip(i + 1));
        if str_eq(thresholds[i].symbol.as_str(), symbol) {
            return Some(thresholds[i].units);
        }
        i += 1;
    }
    None
}

/// The flag of a large transfer.
pub open spec fn large_transfer_flag(whole: nat, symbol: Seq<char>, units: u64) -> Seq<char> {
    "transfer_amount_"@ + decimal_text(whole) + "_"@ + symbol + "_exceeds_"@ + decimal_text(
        units as nat,
    )
}

/// The rule of the large transfer: fires where the transfer is worth at least the
/// token's threshold; the risk is 80 from ten times the threshold on, 60
/// from five times on, and 40 below.
pub open spec fn large_transfer_of(t: TransferView, thresholds: Seq<(Seq<char>, u64)>) -> Option<
    AnomalyRecordView,
> {
    let units = threshold_for(thresholds, t.token_symbol);
    let raw = units * unit_scale(t.token_decimals);
    let whole = whole_units(t.amount, t.token_decimals);
    if t.amount >= raw {
        Some(
            record_of(
                t,
                AnomalyType::LargeTransfer,
                if t.amount >= raw * 10 {
                    80
                } else if t.amount >= raw * 5 {
                    60
                } else {
                    40
                },
                large_transfer_flag(whole, t.token_symbol, units),
                seq![
                    number_field("amount"@, whole),
                    text_field("token"@, t.token_symbol),
                    number_field("threshold"@, units as nat),
                ],
                None,
            ),
        )
    } else {
        None
    }
}

/// Checks whether a transfer is worth at least the large-transfer
/// threshold of its token.
pub fn check_large_transfer(transfer: &StablecoinTransfer, thresholds: &[TokenThreshold]) -> (record:
    Option<AnomalyRecord>)
    ensures
        record_view(record) == large_transfer_of(transfer@, thresholds_view(thresholds@)),
{
    let units = match find_threshold(thresholds, transfer.token_symbol.as_str()) {
        Some(u) => u,
        None => match find_threshold(thresholds, "default") {
            Some(u) => u,
            None => FALLBACK_LARGE_TRANSFER_UNITS,
        },
    };
    let scale = scale_of(transfer.token_decimals);
    let raw = Amount::from_u64(units).times(&scale);
    if !transfer.amount.ge(&raw) {
        return None;
    }
    let risk: u8 = if transfer.amount.ge(&raw.times(&Amount::from_u64(10))) {
        80
    } else if transfer.amount.ge(&raw.times(&Amount::from_u64(5))) {
        60
    } else {
        40
    };
    let whole = whole_units_of(&transfer.amount, &scale);
    let mut flag = String::from_str("transfer_amount_");
    flag.append(whole.to_decimal().as_str());
    flag.append("_");
    flag.append(transfer.token_symbol.as_str());
    flag.append("_exceeds_");
    flag.append(u64_text(units).as_str());
    let mut details: Vec<Field> = Vec::new();
    details.push(Field::number("amount", whole));
    details.push(Field::text("token", transfer.token_symbol.clone()));
    details.push(Field::number("threshold", Amount::from_u64(units)));
    assert(fields_view(details@) =~= large_transfer_of(
        transfer@,
        thresholds_view(thresholds@),
    ).unwrap().details);
    Some(make_record(transfer, AnomalyType::LargeTransfer, risk, flag, details, None))
}

/// The flag of a sanctioned counterparty on the given side.
pub open spec fn sanctioned_flag(side: Seq<char>) -> Seq<char> {
    "sanctioned_"@ + side + "_address"@
}

/// The rule of the sanctioned counterparty: fires with risk 95 where the sender or
/// the receiver is sanctioned; the sender is reported where both are.
pub open spec fn sanctioned_counterparty_of(t: TransferView, labels: Seq<EntityLabelView>) -> Option<
    AnomalyRecordView,
> {
    let from_hit = sanctioned(labels, t.from_address);
    let to_hit = sanctioned(labels, t.to_address);
    if from_hit || to_hit {
        let side = if from_hit {
            "from"@
        } else {
            "to"@
        };
        let flagged = if from_hit {
            t.from_address
        } else {
            t.to_address
        };
        Some(
            record_of(
                t,
                AnomalyType::SanctionedCounterparty,
                95,
                sanctioned_flag(side),
                seq![
                    text_field("side"@, side),
                    text_field("sanctioned_address"@, hex_chars(flagged)),
                ],
                Some(flagged),
            ),
        )
    } else {
        None
    }
}

/// Checks whether either side of a transfer is sanctioned.
pub fn check_sanctioned_counterparty(
    transfer: &StablecoinTransfer,
    label_store: &EntityLabelStore,
) -> (record: Option<AnomalyRecord>)
    ensures
        record_view(record) == sanctioned_counterparty_of(transfer@, label_store@),
{
    let from_hit = label_store.is_sanctioned(transfer.from_address.as_slice());
    let to_hit = label_store.is_sanctioned(transfer.to_address.as_slice());
    if !(from_hit || to_hit) {
        return None;
    }
    let side = if from_hit {
        "from"
    } else {
        "to"
    };
    let flagged = if from_hit {
        copy_bytes(transfer.from_address.as_slice())
    } else {
        copy_bytes(transfer.to_address.as_slice())
    };
    let mut flag = String::from_str("sanctioned_");
    flag.append(side);
    flag.append("_address");
    let mut details: Vec<Field> = Vec::new();
    details.push(Field::text("side", String::from_str(side)));
    details.push(Field::text("sanctioned_address", hex_encode(flagged.as_slice())));
    assert(fields_view(details@) =~= sanctioned_counterparty_of(
        transfer@,
        label_store@,
    ).unwrap().details);
    Some(
        make_record(
            transfer,
            AnomalyType::SanctionedCounterparty,
            95,
            flag,
            details,
            Some(flagged),
        ),
    )
}

/// The round base that an amount is held against: the first of 100,000,
/// 50,000, 25,000, 10,000, 5,000 and 1,000 whole units that is not above
/// it. The amount is worth at least 1,000 whole units.
pub open spec fn round_base(amount: nat, scale: nat) -> nat {
    if amount >= 100_000 * scale {
        100_000
    } else if amount >= 50_000 * scale {
        50_000
    } else if amount >= 25_000 * scale {
        25_000
    } else if amount >= 10_000 * scale {
        10_000
    } else if amount >= 5_000 * scale {
        5_000
    } else {
        1_000
    }
}

/// Whether `rest`, what an amount leaves over a multiple of `base`, lies
/// within the tolerance of a multiple: below `tolerance_ppm` millionths of
/// the base, or above the base less that much.
pub open spec fn near_multiple(rest: nat, base: nat, tolerance_ppm: u32) -> bool {
    rest * 1_000_000 < tolerance_ppm * base || rest * 1_000_000 + tolerance_ppm * base > 1_000_000
        * base
}

/// The flag of a round amount.
pub open spec fn round_number_flag(whole: nat) -> Seq<char> {
    "round_amount_"@ + decimal_text(whole)
}

/// The rule of the round number: looks only at transfers worth at least 1,000 whole
/// units, and holds the amount against the first round base that is not
/// above it. Fires where the amount lies within the tolerance of a multiple
/// of that base; the risk is 40 for the base 100,000, 30 for a base from
/// 10,000 on, and 20 below.
pub open spec fn round_number_of(t: TransferView, tolerance_ppm: u32) -> Option<AnomalyRecordView> {
    let scale = unit_scale(t.token_decimals);
    let whole = whole_units(t.amount, t.token_decimals);
    if t.amount < 1_000 * scale {
        None
    } else {
        let base = round_base(t.amount, scale);
        let raw_base = base * scale;
        if near_multiple(t.amount % raw_base, raw_base, tolerance_ppm) {
            Some(
                record_of(
                    t,
                    AnomalyType::RoundNumber,
                    if base >= 100_000 {
                        40
                    } else if base >= 10_000 {
                        30
                    } else {
                        20
                    },
                    round_number_flag(whole),
                    seq![
                        number_field("amount"@, whole),
                        number_field("nearest_round"@, base),
                        text_field("token"@, t.token_symbol),
                    ],
                    None,
                ),
            )
        } else {
            None
        }
    }
}

fn worth_at_least(amount: &Amount, units: u64, scale: &Amount) -> (yes: bool)
    ensures
        yes == (amount@ >= units * scale@),
{
    amount.ge(&Amount::from_u64(units).times(scale))
}

/// Checks whether the amount of a transfer is suspiciously round.
pub fn check_round_number(transfer: &StablecoinTransfer, tolerance_ppm: u32) -> (record: Option<
    AnomalyRecord,
>)
    ensures
        record_view(record) == round_number_of(transfer@, tolerance_ppm),
{
    let scale = scale_of(transfer.token_decimals);
    let amount = &transfer.amount;
    if !worth_at_least(amount, 1_000, &scale) {
        return None;
    }
    let base: u64 = if worth_at_least(amount, 100_000, &scale) {
        100_000
    } else if worth_at_least(amount, 50_000, &scale) {
        50_000
    } else if worth_at_least(amount, 25_000, &scale) {
        25_000
    } else if worth_at_least(amount, 10_000, &scale) {
        10_000
    } else if worth_at_least(amount, 5_000, &scale) {
        5_000
    } else {
        1_000
    };
    assert(base == round_base(amount@, scale@));
    let raw_base = Amount::from_u64(base).times(&scale);
    assert(raw_base@ > 0) by (nonlinear_arith)
        requires
            raw_base@ == base * scale@,
            base > 0,
            scale@ > 0,
    ;
    let rest = match amount.rem(&raw_base) {
        Some(r) => r,
        None => Amount::zero(),
    };
    let million = Amount::from_u64(1_000_000);
    let scaled_rest = rest.times(&million);
    let margin = Amount::from_u64(tolerance_ppm as u64).times(&raw_base);
    let full = million.times(&raw_base);
    let near = scaled_rest.lt(&margin) || full.lt(&scaled_rest.plus(&margin));
    assert(near == near_multiple(rest@, raw_base@, tolerance_ppm));
    if !near {
        return None;
    }
    let risk: u8 = if base >= 100_000 {
        40
    } else if base >= 10_000 {
        30
    } else {
        20
    };
    let whole = whole_units_of(amount, &scale);
    let mut flag = String::from_str("round_amount_");
    flag.append(whole.to_decimal().as_str());
    let mut details: Vec<Field> = Vec::new();
    details.push(Field::number("amount", whole));
    details.push(Field::number("nearest_round", Amount::from_u64(base)));
    details.push(Field::text("token", transfer.token_symbol.clone()));
    assert(fields_view(details@) =~= round_number_of(transfer@, tolerance_ppm).unwrap().details);
    Some(make_record(transfer, AnomalyType::RoundNumber, risk, flag, details, None))
}

/// Whether the batch showed the receiver of `t` for the first time, on the
/// receiving side.
pub open spec fn newly_received(t: TransferView, new_wallets: Seq<NewWalletEventView>) -> bool {
    exists|i: int|
        0 <= i < new_wallets.len() && (#[trigger] new_wallets[i]).address == t.to_address
            && new_wallets[i].chain_id == t.chain_id && new_wallets[i].direction == "to"@
}

/// The flag of a large receipt by a new wallet.
pub open spec fn new_wallet_flag(whole: nat, symbol: Seq<char>) -> Seq<char> {
    "new_wallet_received_"@ + decimal_text(whole) + "_"@ + symbol
}

/// The rule of the new wallet with a large receipt: fires where the receiver was
/// first seen in this batch, as a receiver, and the transfer is worth at
/// least the threshold; the risk is 80 from ten times the threshold on and
/// 60 below.
pub open spec fn new_wallet_large_receive_of(
    t: TransferView,
    new_wallets: Seq<NewWalletEventView>,
    threshold_usd: u64,
) -> Option<AnomalyRecordView> {
    let raw = threshold_usd * unit_scale(t.token_decimals);
    let whole = whole_units(t.amount, t.token_decimals);
    if t.amount >= raw && newly_received(t, new_wallets) {
        Some(
            record_of(
                t,
                AnomalyType::NewWalletLargeReceive,
                if t.amount >= raw * 10 {
                    80
                } else {
                    60
                },
                new_wallet_flag(whole, t.token_symbol),
                seq![
                    number_field("amount"@, whole),
                    text_field("token"@, t.token_symbol),
                    text_field("new_wallet"@, hex_chars(t.to_address)),
                ],
                Some(t.to_address),
            ),
        )
    } else {
        None
    }
}

fn is_newly_received(transfer: &StablecoinTransfer, new_wallets: &[NewWalletEvent]) -> (yes: bool)
    ensures
        yes == newly_received(transfer@, wallet_events_view(new_wallets@)),
{
    let ghost events = wallet_events_view(new_wallets@);
    let mut i: usize = 0;
    while i < new_wallets.len()
        invariant
            i <= new_wallets@.len(),
            events == wallet_events_view(new_wallets@),
            forall|j: int|
                0 <= j < i ==> !((#[trigger] events[j]).address == transfer@.to_address
                    && events[j].chain_id == transfer@.chain_id && events[j].direction == "to"@),
        decreases new_wallets@.len() - i,
    {
        let w = &new_wallets[i];
        if w.chain_id == transfer.chain_id && bytes_eq(
            w.address.as_slice(),
            transfer.to_address.as_slice(),
        ) && str_eq(w.direction.as_str(), "to") {
            assert(events[i as int].address == transfer@.to_address && events[i as int].chain_id
                == transfer@.chain_id && events[i as int].direction == "to"@);
            return true;
        }
        i += 1;
    }
    false
}

/// Checks whether a wallet that the batch showed for the first time
/// receives a large amount at once.
pub fn check_new_wallet_large_receive(
    transfer: &StablecoinTransfer,
    new_wallets: &[NewWalletEvent],
    threshold_usd: u64,
) -> (record: Option<AnomalyRecord>)
    ensures
        record_view(record) == new_wallet_large_receive_of(
            transfer@,
            wallet_events_view(new_wallets@),
            threshold_usd,
        ),
{
    let scale = scale_of(transfer.token_decimals);
    let raw = Amount::from_u64(threshold_usd).times(&scale);
    if !transfer.amount.ge(&raw) {
        return None;
    }
    if !is_newly_received(transfer, new_wallets) {
        return None;
    }
    let risk: u8 = if transfer.amount.ge(&raw.times(&Amount::from_u64(10))) {
        80
    } else {
        60
    };
    let whole = whole_units_of(&transfer.amount, &scale);
    let mut flag = String::from_str("new_wallet_received_");
    flag.append(whole.to_decimal().as_str());
    flag.append("_");
    flag.append(transfer.token_symbol.as_str());
    let mut details: Vec<Field> = Vec::new();
    details.push(Field::number("amount", whole));
    details.push(Field::text("token", transfer.token_symbol.clone()));
    details.push(Field::text("new_wallet", hex_encode(transfer.to_address.as_slice())));
    assert(fields_view(details@) =~= new_wallet_large_receive_of(
        transfer@,
        wallet_events_view(new_wallets@),
        threshold_usd,
    ).unwrap().details);
    Some(
        make_record(
            transfer,
            AnomalyType::NewWalletLargeReceive,
            risk,
            flag,
            details,
            Some(copy_bytes(transfer.to_address.as_slice())),
        ),
    )
}

/// The flag of a sender above the velocity limit.
pub open spec fn velocity_flag(count: u64, window_secs: u64) -> Seq<char> {
    "velocity_"@ + decimal_text(count as nat) + "_transfers_in_"@ + decimal_text(
        window_secs as nat,
    ) + "_secs"@
}

/// The velocity rule. `count` is the number of stored transfers of the same
/// sender on the same chain within the window before the transfer. Fires
/// where it is above the limit; the risk is 70 above five times the limit
/// and 50 below.
pub open spec fn velocity_of(t: TransferView, count: u64, window_secs: u64, max_transfers: u32) -> Option<
    AnomalyRecordView,
> {
    if count > max_transfers {
        Some(
            record_of(
                t,
                AnomalyType::Velocity,
                if count > max_transfers * 5 {
                    70
                } else {
                    50
                },
                velocity_flag(count, window_secs),
                seq![
                    number_field("transfer_count"@, count as nat),
                    number_field("window_secs"@, window_secs as nat),
                    number_field("max_allowed"@, max_transfers as nat),
                ],
                Some(t.from_address),
            ),
        )
    } else {
        None
    }
}

/// Checks whether the sender of a transfer has sent more often than the
/// limit allows within the window, given the count of its transfers there.
pub fn check_velocity(
    transfer: &StablecoinTransfer,
    count: u64,
    window_secs: u64,
    max_transfers: u32,
) -> (record: Option<AnomalyRecord>)
    ensures
        record_view(record) == velocity_of(transfer@, count, window_secs, max_transfers),
{
    let max = max_transfers as u64;
    if count <= max {
        return None;
    }
    let risk: u8 = if count > max * 5 {
        70
    } else {
        50
    };
    let mut flag = String::from_str("velocity_");
    flag.append(u64_text(count).as_str());
    flag.append("_transfers_in_");
    flag.append(u64_text(window_secs).as_str());
    flag.append("_secs");
    let mut details: Vec<Field> = Vec::new();
    details.push(Field::number("transfer_count", Amount::from_u64(count)));
    details.push(Field::number("window_secs", Amount::from_u64(window_secs)));
    details.push(Field::number("max_allowed", Amount::from_u64(max)));
    assert(fields_view(details@) =~= velocity_of(
        transfer@,
        count,
        window_secs,
        max_transfers,
    ).unwrap().details);
    Some(
        make_record(
            transfer,
            AnomalyType::Velocity,
            risk,
            flag,
            details,
            Some(copy_bytes(transfer.from_address.as_slice())),
        ),
    )
}

/// The flag of a sender that is active on several chains.
pub open spec fn cross_chain_flag(chains: u64, window_secs: u64) -> Seq<char> {
    "active_on_"@ + decimal_text(chains as nat) + "_chains_in_"@ + decimal_text(
        window_secs as nat,
    ) + "_secs"@
}

/// The rule of cross-chain activity. `chains` is the number of chains on which
/// the sender was active within the window. Fires from three chains on; the
/// risk is 50 from five chains on and 30 below.
pub open spec fn cross_chain_activity_of(t: TransferView, chains: u64, window_secs: u64) -> Option<
    AnomalyRecordView,
> {
    if chains >= 3 {
        Some(
            record_of(
                t,
                AnomalyType::CrossChainActivity,
                if chains >= 5 {
                    50
                } else {
                    30
                },
                cross_chain_flag(chains, window_secs),
                seq![
                    number_field("chain_count"@, chains as nat),
                    number_field("window_secs"@, window_secs as nat),
                    text_field("address"@, hex_chars(t.from_address)),
                ],
                Some(t.from_address),
            ),
        )
    } else {
        None
    }
}

/// Checks whether the sender of a transfer is active on several chains
/// within the window, given the count of those chains.
pub fn check_cross_chain_activity(transfer: &StablecoinTransfer, chains: u64, window_secs: u64) -> (record:
    Option<AnomalyRecord>)
    ensures
        record_view(record) == cross_chain_activity_of(transfer@, chains, window_secs),
{
    if chains < 3 {
        return None;
    }
    let risk: u8 = if chains >= 5 {
        50
    } else {
        30
    };
    let mut flag = String::from_str("active_on_");
    flag.append(u64_text(chains).as_str());
    flag.append("_chains_in_");
    flag.append(u64_text(window_secs).as_str());
    flag.append("_secs");
    let mut details: Vec<Field> = Vec::new();
    details.push(Field::number("chain_count", Amount::from_u64(chains)));
    details.push(Field::number("window_secs", Amount::from_u64(window_secs)));
    details.push(Field::text("address", hex_encode(transfer.from_address.as_slice())));
    assert(fields_view(details@) =~= cross_chain_activity_of(
        transfer@,
        chains,
        window_secs,
    ).unwrap().details);
    Some(
        make_record(
            transfer,
            AnomalyType::CrossChainActivity,
            risk,
            flag,
            details,
            Some(copy_bytes(transfer.from_address.as_slice())),
        ),
    )
}

} // verus!
