//! Decoding of the DeFi events that the indexer knows: swaps on Uniswap V2,
//! Uniswap V3 and Curve, lending events of Aave V3 and Compound V3.
//!
//! An event is found by its first topic. Its indexed parameters are the
//! following topics, its other parameters the 32-byte words of the data, in
//! the order of the event's declaration.

use crate::amount::{be_int, be_nat, decimal_text, signed_decimal_text, Amount, SignedAmount};
use crate::bytes::{bytes_eq, bytes_to_hex, copy_bytes, copy_opt_bytes, hex0x};
use crate::fields::{
    copy_fields, fields_view, flag_field, number_field, text_field, Field, FieldView,
};
use crate::indexer::decoder::{address_of_word, data_word, event_topic, topic_of, word_address};
use crate::indexer::types::{
    clamp_i32, clamp_i64, logs_view, opt_bytes, to_i32, to_i64, tx_hash_or_zero, zero_hash,
    RawLog, RawLogView,
};
use vstd::prelude::*;
use vstd::slice::slice_subrange;

verus! {

/// The canonical signature of the swap event of Uniswap V2.
pub const UNISWAP_V2_SWAP: &'static str = "Swap(address,uint256,uint256,uint256,uint256,address)";

/// The canonical signature of the swap event of Uniswap V3.
pub const UNISWAP_V3_SWAP: &'static str = "Swap(address,address,int256,int256,uint160,uint128,int24)";

/// The canonical signature of the exchange event of Curve.
pub const CURVE_TOKEN_EXCHANGE: &'static str = "TokenExchange(address,int128,uint256,int128,uint256)";

/// The canonical signature of the supply event of Aave V3.
pub const AAVE_SUPPLY: &'static str = "Supply(address,address,address,uint256,uint16)";

/// The canonical signature of the borrow event of Aave V3.
pub const AAVE_BORROW: &'static str = "Borrow(address,address,address,uint256,uint8,uint256,uint16)";

/// The canonical signature of the repay event of Aave V3.
pub const AAVE_REPAY: &'static str = "Repay(address,address,address,uint256,bool)";

/// The canonical signature of the liquidation event of Aave V3.
pub const AAVE_LIQUIDATION_CALL: &'static str = "LiquidationCall(address,address,address,uint256,uint256,address,bool)";

/// The canonical signature of the supply event of Compound V3.
pub const COMET_SUPPLY: &'static str = "Supply(address,address,uint256)";

/// The canonical signature of the withdraw event of Compound V3.
pub const COMET_WITHDRAW: &'static str = "Withdraw(address,address,uint256)";

/// The canonical signature of the absorb event of Compound V3.
pub const COMET_ABSORB_COLLATERAL: &'static str = "AbsorbCollateral(address,address,address,uint256,uint256)";

/// A decoded DeFi event, ready to be stored.
#[derive(Debug)]
pub struct DefiEvent {
    pub chain_id: i64,
    pub block_number: i64,
    pub tx_hash: Vec<u8>,
    pub log_index: i32,
    pub protocol: String,
    pub event_type: String,
    pub contract_address: Vec<u8>,
    pub account: Option<Vec<u8>>,
    pub token_in: Option<Vec<u8>>,
    pub token_out: Option<Vec<u8>>,
    pub amount_in: Option<SignedAmount>,
    pub amount_out: Option<SignedAmount>,
    /// Seconds since the Unix epoch.
    pub block_timestamp: i64,
    pub raw_data: Option<Vec<Field>>,
}

/// What a `DefiEvent` holds, as plain mathematical values.
pub struct DefiEventView {
    pub chain_id: i64,
    pub block_number: i64,
    pub tx_hash: Seq<u8>,
    pub log_index: i32,
    pub protocol: Seq<char>,
    pub event_type: Seq<char>,
    pub contract_address: Seq<u8>,
    pub account: Option<Seq<u8>>,
    pub token_in: Option<Seq<u8>>,
    pub token_out: Option<Seq<u8>>,
    pub amount_in: Option<int>,
    pub amount_out: Option<int>,
    pub block_timestamp: i64,
    pub raw_data: Option<Seq<FieldView>>,
}

/// The integer of an amount that may be absent.
pub open spec fn opt_int(a: Option<SignedAmount>) -> Option<int> {
    match a {
        Some(v) => Some(v@),
        None => None,
    }
}

/// The views of fields that may be absent.
pub open spec fn opt_fields(f: Option<Vec<Field>>) -> Option<Seq<FieldView>> {
    match f {
        Some(v) => Some(fields_view(v@)),
        None => None,
    }
}

impl View for DefiEvent {
    type V = DefiEventView;

    open spec fn view(&self) -> DefiEventView {
        DefiEventView {
            chain_id: self.chain_id,
            block_number: self.block_number,
            tx_hash: self.tx_hash@,
            log_index: self.log_index,
            protocol: self.protocol@,
            event_type: self.event_type@,
            contract_address: self.contract_address@,
            account: opt_bytes(self.account),
            token_in: opt_bytes(self.token_in),
            token_out: opt_bytes(self.token_out),
            amount_in: opt_int(self.amount_in),
            amount_out: opt_int(self.amount_out),
            block_timestamp: self.block_timestamp,
            raw_data: opt_fields(self.raw_data),
        }
    }
}

impl Clone for DefiEvent {
    fn clone(&self) -> (copy: Self)
        ensures
            copy@ == self@,
    {
        DefiEvent {
            chain_id: self.chain_id,
            block_number: self.block_number,
            tx_hash: copy_bytes(self.tx_hash.as_slice()),
            log_index: self.log_index,
            protocol: self.protocol.clone(),
            event_type: self.event_type.clone(),
            contract_address: copy_bytes(self.contract_address.as_slice()),
            account: copy_opt_bytes(&self.account),
            token_in: copy_opt_bytes(&self.token_in),
            token_out: copy_opt_bytes(&self.token_out),
            amount_in: match &self.amount_in {
                Some(a) => Some(a.clone()),
                None => None,
            },
            amount_out: match &self.amount_out {
                Some(a) => Some(a.clone()),
                None => None,
            },
            block_timestamp: self.block_timestamp,
            raw_data: match &self.raw_data {
                Some(f) => Some(copy_fields(f.as_slice())),
                None => None,
            },
        }
    }
}

/// The view of an event that may be absent.
pub open spec fn event_view(e: Option<DefiEvent>) -> Option<DefiEventView> {
    match e {
        Some(v) => Some(v@),
        None => None,
    }
}

/// The views of a run of events.
pub open spec fn events_view(events: Seq<DefiEvent>) -> Seq<DefiEventView> {
    events.map_values(|e: DefiEvent| e@)
}

/// What every event of one log shares: where the log sits.
#[derive(Debug)]
pub struct LogContext {
    pub chain_id: i64,
    pub block_number: i64,
    pub tx_hash: Vec<u8>,
    pub log_index: i32,
    pub contract_address: Vec<u8>,
    pub block_timestamp: i64,
}

/// The context of a log as plain mathematical values.
pub struct LogContextView {
    pub chain_id: i64,
    pub block_number: i64,
    pub tx_hash: Seq<u8>,
    pub log_index: i32,
    pub contract_address: Seq<u8>,
    pub block_timestamp: i64,
}

impl View for LogContext {
    type V = LogContextView;

    open spec fn view(&self) -> LogContextView {
        LogContextView {
            chain_id: self.chain_id,
            block_number: self.block_number,
            tx_hash: self.tx_hash@,
            log_index: self.log_index,
            contract_address: self.contract_address@,
            block_timestamp: self.block_timestamp,
        }
    }
}

/// The context of a log in a block with the given chain and time. A block
/// number or log index that the node left out counts as zero, a
/// transaction hash as 32 zero bytes.
pub open spec fn context_of(log: RawLogView, block_timestamp: i64, chain_id: i64) -> LogContextView {
    LogContextView {
        chain_id,
        block_number: clamp_i64(
            match log.block_number {
                Some(n) => n,
                None => 0,
            },
        ),
        tx_hash: tx_hash_or_zero(log),
        log_index: clamp_i32(
            match log.log_index {
                Some(n) => n,
                None => 0,
            },
        ),
        contract_address: log.address,
        block_timestamp,
    }
}

/// An event of `protocol` and kind `event_type` at `ctx`, with every
/// optional column empty.
pub open spec fn bare_event(ctx: LogContextView, protocol: Seq<char>, event_type: Seq<char>) -> DefiEventView {
    DefiEventView {
        chain_id: ctx.chain_id,
        block_number: ctx.block_number,
        tx_hash: ctx.tx_hash,
        log_index: ctx.log_index,
        protocol,
        event_type,
        contract_address: ctx.contract_address,
        account: None,
        token_in: None,
        token_out: None,
        amount_in: None,
        amount_out: None,
        block_timestamp: ctx.block_timestamp,
        raw_data: None,
    }
}

fn new_event(ctx: &LogContext, protocol: &str, event_type: &str) -> (event: DefiEvent)
    ensures
        event@ == bare_event(ctx@, protocol@, event_type@),
{
    DefiEvent {
        chain_id: ctx.chain_id,
        block_number: ctx.block_number,
        tx_hash: copy_bytes(ctx.tx_hash.as_slice()),
        log_index: ctx.log_index,
        protocol: String::from_str(protocol),
        event_type: String::from_str(event_type),
        contract_address: copy_bytes(ctx.contract_address.as_slice()),
        account: None,
        token_in: None,
        token_out: None,
        amount_in: None,
        amount_out: None,
        block_timestamp: ctx.block_timestamp,
        raw_data: None,
    }
}

/// The log has exactly `topics` topics of 32 bytes each and at least
/// `words` words of data.
pub open spec fn has_shape(log: RawLogView, topics: int, words: int) -> bool {
    &&& log.topics.len() == topics
    &&& forall|i: int| 0 <= i < topics ==> (#[trigger] log.topics[i]).len() == 32
    &&& log.data.len() >= 32 * words
}

fn check_shape(log: &RawLog, topics: usize, words: usize) -> (ok: bool)
    requires
        words <= 16,
    ensures
        ok == has_shape(log@, topics as int, words as int),
{
    if log.topics.len() != topics {
        return false;
    }
    let mut i: usize = 0;
    while i < topics
        invariant
            i <= topics,
            log.topics@.len() == topics,
            forall|j: int| 0 <= j < i ==> (#[trigger] log@.topics[j]).len() == 32,
        decreases topics - i,
    {
        if log.topics[i].len() != 32 {
            assert(log@.topics[i as int].len() != 32);
            return false;
        }
        i += 1;
    }
    log.data.len() >= 32 * words
}

/// The unsigned number in the low `width` bytes of a word.
pub open spec fn uint_of(word: Seq<u8>, width: int) -> nat {
    be_nat(word.skip(32 - width))
}

/// The two's-complement number in the low `width` bytes of a word.
pub open spec fn int_of(word: Seq<u8>, width: int) -> int {
    be_int(word.skip(32 - width))
}

/// The flag in a word: whether any of its bytes is not zero.
pub open spec fn flag_of(word: Seq<u8>) -> bool {
    word != zero_hash()
}

fn topic_address(log: &RawLog, i: usize) -> (address: Vec<u8>)
    requires
        i < log@.topics.len(),
        log@.topics[i as int].len() == 32,
    ensures
        address@ == word_address(log@.topics[i as int]),
{
    address_of_word(log.topics[i].as_slice())
}

fn topic_uint(log: &RawLog, i: usize, width: usize) -> (value: Amount)
    requires
        i < log@.topics.len(),
        log@.topics[i as int].len() == 32,
        1 <= width <= 32,
    ensures
        value@ == uint_of(log@.topics[i as int], width as int),
{
    let word = log.topics[i].as_slice();
    let low = slice_subrange(word, 32 - width, 32);
    assert(low@ =~= word@.skip(32 - width));
    Amount::from_be_bytes(low)
}

fn data_low<'a>(data: &'a [u8], index: usize, width: usize) -> (low: &'a [u8])
    requires
        index < 16,
        data@.len() >= 32 * (index + 1),
        1 <= width <= 32,
    ensures
        low@ == data_word(data@, index as int).skip(32 - width),
{
    let low = slice_subrange(data, 32 * index + (32 - width), 32 * index + 32);
    assert(low@ =~= data_word(data@, index as int).skip(32 - width));
    low
}

fn data_uint(data: &[u8], index: usize, width: usize) -> (value: Amount)
    requires
        index < 16,
        data@.len() >= 32 * (index + 1),
        1 <= width <= 32,
    ensures
        value@ == uint_of(data_word(data@, index as int), width as int),
{
    Amount::from_be_bytes(data_low(data, index, width))
}

fn data_int(data: &[u8], index: usize, width: usize) -> (value: SignedAmount)
    requires
        index < 16,
        data@.len() >= 32 * (index + 1),
        1 <= width <= 32,
    ensures
        value@ == int_of(data_word(data@, index as int), width as int),
{
    SignedAmount::from_twos_complement(data_low(data, index, width))
}

fn data_address(data: &[u8], index: usize) -> (address: Vec<u8>)
    requires
        index < 16,
        data@.len() >= 32 * (index + 1),
    ensures
        address@ == word_address(data_word(data@, index as int)),
{
    copy_bytes(data_low(data, index, 20))
}

fn data_flag(data: &[u8], index: usize) -> (flag: bool)
    requires
        index < 16,
        data@.len() >= 32 * (index + 1),
    ensures
        flag == flag_of(data_word(data@, index as int)),
{
    let word = data_low(data, index, 32);
    assert(word@ =~= data_word(data@, index as int));
    let mut i: usize = 0;
    while i < 32
        invariant
            i <= 32,
            word@.len() == 32,
            word@ == data_word(data@, index as int),
            forall|j: int| 0 <= j < i ==> word@[j] == 0u8,
        decreases 32 - i,
    {
        if word[i] != 0 {
            assert(word@[i as int] != zero_hash()[i as int]);
            return true;
        }
        i += 1;
    }
    assert(word@ =~= zero_hash());
    false
}

fn address_field(name: &str, address: &[u8]) -> (field: Field)
    ensures
        field@ == text_field(name@, hex0x(address@)),
{
    Field::text(name, bytes_to_hex(address))
}

fn uint_field(name: &str, value: &Amount) -> (field: Field)
    ensures
        field@ == text_field(name@, decimal_text(value@)),
{
    Field::text(name, value.to_decimal())
}

fn int_field(name: &str, value: &SignedAmount) -> (field: Field)
    ensures
        field@ == text_field(name@, signed_decimal_text(value@)),
{
    Field::text(name, value.to_decimal())
}

/// A Uniswap V2 swap. The account is the sender. The side whose `In`
/// amount is not zero is the in-side, paired with the other side's `Out`
/// amount; the tokens of the pair are not resolved.
pub open spec fn univ2_swap_of(log: RawLogView, ctx: LogContextView) -> Option<DefiEventView> {
    if !has_shape(log, 3, 4) {
        None
    } else {
        let sender = word_address(log.topics[1]);
        let to = word_address(log.topics[2]);
        let amount0_in = uint_of(data_word(log.data, 0), 32);
        let amount1_in = uint_of(data_word(log.data, 1), 32);
        let amount0_out = uint_of(data_word(log.data, 2), 32);
        let amount1_out = uint_of(data_word(log.data, 3), 32);
        Some(
            DefiEventView {
                account: Some(sender),
                amount_in: Some(
                    if amount0_in > 0 {
                        amount0_in as int
                    } else {
                        amount1_in as int
                    },
                ),
                amount_out: Some(
                    if amount0_in > 0 {
                        amount1_out as int
                    } else {
                        amount0_out as int
                    },
                ),
                raw_data: Some(
                    seq![
                        text_field("sender"@, hex0x(sender)),
                        text_field("to"@, hex0x(to)),
                        text_field("amount0In"@, decimal_text(amount0_in)),
                        text_field("amount1In"@, decimal_text(amount1_in)),
                        text_field("amount0Out"@, decimal_text(amount0_out)),
                        text_field("amount1Out"@, decimal_text(amount1_out)),
                    ],
                ),
                ..bare_event(ctx, "uniswap_v2"@, "swap"@)
            },
        )
    }
}

/// Decodes a log as a Uniswap V2 swap; nothing where it has another shape.
pub fn decode_univ2_swap(log: &RawLog, ctx: &LogContext) -> (event: Option<DefiEvent>)
    ensures
        event_view(event) == univ2_swap_of(log@, ctx@),
{
    if !check_shape(log, 3, 4) {
        return None;
    }
    let sender = topic_address(log, 1);
    let to = topic_address(log, 2);
    let data = log.data.as_slice();
    let amount0_in = data_uint(data, 0, 32);
    let amount1_in = data_uint(data, 1, 32);
    let amount0_out = data_uint(data, 2, 32);
    let amount1_out = data_uint(data, 3, 32);
    let mut raw: Vec<Field> = Vec::new();
    raw.push(address_field("sender", sender.as_slice()));
    raw.push(address_field("to", to.as_slice()));
    raw.push(uint_field("amount0In", &amount0_in));
    raw.push(uint_field("amount1In", &amount1_in));
    raw.push(uint_field("amount0Out", &amount0_out));
    raw.push(uint_field("amount1Out", &amount1_out));
    let first_in = !amount0_in.is_zero();
    let (amount_in, amount_out) = if first_in {
        (amount0_in, amount1_out)
    } else {
        (amount1_in, amount0_out)
    };
    let mut event = new_event(ctx, "uniswap_v2", "swap");
    event.account = Some(sender);
    event.amount_in = Some(SignedAmount::from_amount(amount_in));
    event.amount_out = Some(SignedAmount::from_amount(amount_out));
    assert(fields_view(raw@) =~= univ2_swap_of(log@, ctx@).unwrap().raw_data.unwrap());
    event.raw_data = Some(raw);
    Some(event)
}

/// A Uniswap V3 swap. The account is the sender. The amounts are signed
/// from the pool's side: the side above zero is what the pool received, the
/// in-side; the out-side is the other amount, negated.
pub open spec fn univ3_swap_of(log: RawLogView, ctx: LogContextView) -> Option<DefiEventView> {
    if !has_shape(log, 3, 5) {
        None
    } else {
        let sender = word_address(log.topics[1]);
        let recipient = word_address(log.topics[2]);
        let amount0 = int_of(data_word(log.data, 0), 32);
        let amount1 = int_of(data_word(log.data, 1), 32);
        Some(
            DefiEventView {
                account: Some(sender),
                amount_in: Some(
                    if amount0 > 0 {
                        amount0
                    } else {
                        amount1
                    },
                ),
                amount_out: Some(
                    if amount0 > 0 {
                        -amount1
                    } else {
                        -amount0
                    },
                ),
                raw_data: Some(
                    seq![
                        text_field("sender"@, hex0x(sender)),
                        text_field("recipient"@, hex0x(recipient)),
                        text_field("amount0"@, signed_decimal_text(amount0)),
                        text_field("amount1"@, signed_decimal_text(amount1)),
                        text_field(
                            "sqrtPriceX96"@,
                            decimal_text(uint_of(data_word(log.data, 2), 20)),
                        ),
                        text_field("liquidity"@, decimal_text(uint_of(data_word(log.data, 3), 16))),
                        text_field("tick"@, signed_decimal_text(int_of(data_word(log.data, 4), 3))),
                    ],
                ),
                ..bare_event(ctx, "uniswap_v3"@, "swap"@)
            },
        )
    }
}

/// Decodes a log as a Uniswap V3 swap; nothing where it has another shape.
pub fn decode_univ3_swap(log: &RawLog, ctx: &LogContext) -> (event: Option<DefiEvent>)
    ensures
        event_view(event) == univ3_swap_of(log@, ctx@),
{
    if !check_shape(log, 3, 5) {
        return None;
    }
    let sender = topic_address(log, 1);
    let recipient = topic_address(log, 2);
    let data = log.data.as_slice();
    let amount0 = data_int(data, 0, 32);
    let amount1 = data_int(data, 1, 32);
    let sqrt_price = data_uint(data, 2, 20);
    let liquidity = data_uint(data, 3, 16);
    let tick = data_int(data, 4, 3);
    let mut raw: Vec<Field> = Vec::new();
    raw.push(address_field("sender", sender.as_slice()));
    raw.push(address_field("recipient", recipient.as_slice()));
    raw.push(int_field("amount0", &amount0));
    raw.push(int_field("amount1", &amount1));
    raw.push(uint_field("sqrtPriceX96", &sqrt_price));
    raw.push(uint_field("liquidity", &liquidity));
    raw.push(int_field("tick", &tick));
    let (amount_in, amount_out) = if amount0.is_positive() {
        let out = amount1.negated();
        (amount0, out)
    } else {
        let out = amount0.negated();
        (amount1, out)
    };
    let mut event = new_event(ctx, "uniswap_v3", "swap");
    event.account = Some(sender);
    event.amount_in = Some(amount_in);
    event.amount_out = Some(amount_out);
    assert(fields_view(raw@) =~= univ3_swap_of(log@, ctx@).unwrap().raw_data.unwrap());
    event.raw_data = Some(raw);
    Some(event)
}

/// A Curve token exchange. The account is the buyer; what was sold is the
/// in-side, what was bought the out-side.
pub open spec fn curve_exchange_of(log: RawLogView, ctx: LogContextView) -> Option<DefiEventView> {
    if !has_shape(log, 2, 4) {
        None
    } else {
        let buyer = word_address(log.topics[1]);
        let tokens_sold = uint_of(data_word(log.data, 1), 32);
        let tokens_bought = uint_of(data_word(log.data, 3), 32);
        Some(
            DefiEventView {
                account: Some(buyer),
                amount_in: Some(tokens_sold as int),
                amount_out: Some(tokens_bought as int),
                raw_data: Some(
                    seq![
                        text_field("buyer"@, hex0x(buyer)),
                        text_field("sold_id"@, signed_decimal_text(int_of(data_word(log.data, 0), 16))),
                        text_field("tokens_sold"@, decimal_text(tokens_sold)),
                        text_field(
                            "bought_id"@,
                            signed_decimal_text(int_of(data_word(log.data, 2), 16)),
                        ),
                        text_field("tokens_bought"@, decimal_text(tokens_bought)),
                    ],
                ),
                ..bare_event(ctx, "curve"@, "swap"@)
            },
        )
    }
}

/// Decodes a log as a Curve token exchange; nothing where it has another shape.
pub fn decode_curve_exchange(log: &RawLog, ctx: &LogContext) -> (event: Option<DefiEvent>)
    ensures
        event_view(event) == curve_exchange_of(log@, ctx@),
{
    if !check_shape(log, 2, 4) {
        return None;
    }
    let buyer = topic_address(log, 1);
    let data = log.data.as_slice();
    let sold_id = data_int(data, 0, 16);
    let tokens_sold = data_uint(data, 1, 32);
    let bought_id = data_int(data, 2, 16);
    let tokens_bought = data_uint(data, 3, 32);
    let mut raw: Vec<Field> = Vec::new();
    raw.push(address_field("buyer", buyer.as_slice()));
    raw.push(int_field("sold_id", &sold_id));
    raw.push(uint_field("tokens_sold", &tokens_sold));
    raw.push(int_field("bought_id", &bought_id));
    raw.push(uint_field("tokens_bought", &tokens_bought));
    let mut event = new_event(ctx, "curve", "swap");
    event.account = Some(buyer);
    event.amount_in = Some(SignedAmount::from_amount(tokens_sold));
    event.amount_out = Some(SignedAmount::from_amount(tokens_bought));
    assert(fields_view(raw@) =~= curve_exchange_of(log@, ctx@).unwrap().raw_data.unwrap());
    event.raw_data = Some(raw);
    Some(event)
}

/// An Aave V3 supply. The account is the address on whose behalf was
/// supplied; the reserve and the amount are the in-side.
pub open spec fn aave_supply_of(log: RawLogView, ctx: LogContextView) -> Option<DefiEventView> {
    if !has_shape(log, 4, 2) {
        None
    } else {
        let reserve = word_address(log.topics[1]);
        let on_behalf_of = word_address(log.topics[2]);
        Some(
            DefiEventView {
                account: Some(on_behalf_of),
                token_in: Some(reserve),
                amount_in: Some(uint_of(data_word(log.data, 1), 32) as int),
                raw_data: Some(
                    seq![
                        text_field("reserve"@, hex0x(reserve)),
                        text_field("user"@, hex0x(word_address(data_word(log.data, 0)))),
                        text_field("onBehalfOf"@, hex0x(on_behalf_of)),
                        number_field("referralCode"@, uint_of(log.topics[3], 2)),
                    ],
                ),
                ..bare_event(ctx, "aave_v3"@, "supply"@)
            },
        )
    }
}

/// Decodes a log as an Aave V3 supply; nothing where it has another shape.
pub fn decode_aave_supply(log: &RawLog, ctx: &LogContext) -> (event: Option<DefiEvent>)
    ensures
        event_view(event) == aave_supply_of(log@, ctx@),
{
    if !check_shape(log, 4, 2) {
        return None;
    }
    let reserve = topic_address(log, 1);
    let on_behalf_of = topic_address(log, 2);
    let referral = topic_uint(log, 3, 2);
    let data = log.data.as_slice();
    let user = data_address(data, 0);
    let amount = data_uint(data, 1, 32);
    let mut raw: Vec<Field> = Vec::new();
    raw.push(address_field("reserve", reserve.as_slice()));
    raw.push(address_field("user", user.as_slice()));
    raw.push(address_field("onBehalfOf", on_behalf_of.as_slice()));
    raw.push(Field::number("referralCode", referral));
    let mut event = new_event(ctx, "aave_v3", "supply");
    event.account = Some(on_behalf_of);
    event.token_in = Some(reserve);
    event.amount_in = Some(SignedAmount::from_amount(amount));
    assert(fields_view(raw@) =~= aave_supply_of(log@, ctx@).unwrap().raw_data.unwrap());
    event.raw_data = Some(raw);
    Some(event)
}

/// An Aave V3 borrow. The account is the address on whose behalf was
/// borrowed; the reserve and the amount are the out-side.
pub open spec fn aave_borrow_of(log: RawLogView, ctx: LogContextView) -> Option<DefiEventView> {
    if !has_shape(log, 4, 4) {
        None
    } else {
        let reserve = word_address(log.topics[1]);
        let on_behalf_of = word_address(log.topics[2]);
        Some(
            DefiEventView {
                account: Some(on_behalf_of),
                token_out: Some(reserve),
                amount_out: Some(uint_of(data_word(log.data, 1), 32) as int),
                raw_data: Some(
                    seq![
                        text_field("reserve"@, hex0x(reserve)),
                        text_field("user"@, hex0x(word_address(data_word(log.data, 0)))),
                        text_field("onBehalfOf"@, hex0x(on_behalf_of)),
                        number_field("interestRateMode"@, uint_of(data_word(log.data, 2), 1)),
                        text_field("borrowRate"@, decimal_text(uint_of(data_word(log.data, 3), 32))),
                        number_field("referralCode"@, uint_of(log.topics[3], 2)),
                    ],
                ),
                ..bare_event(ctx, "aave_v3"@, "borrow"@)
            },
        )
    }
}

/// Decodes a log as an Aave V3 borrow; nothing where it has another shape.
pub fn decode_aave_borrow(log: &RawLog, ctx: &LogContext) -> (event: Option<DefiEvent>)
    ensures
        event_view(event) == aave_borrow_of(log@, ctx@),
{
    if !check_shape(log, 4, 4) {
        return None;
    }
    let reserve = topic_address(log, 1);
    let on_behalf_of = topic_address(log, 2);
    let referral = topic_uint(log, 3, 2);
    let data = log.data.as_slice();
    let user = data_address(data, 0);
    let amount = data_uint(data, 1, 32);
    let mode = data_uint(data, 2, 1);
    let rate = data_uint(data, 3, 32);
    let mut raw: Vec<Field> = Vec::new();
    raw.push(address_field("reserve", reserve.as_slice()));
    raw.push(address_field("user", user.as_slice()));
    raw.push(address_field("onBehalfOf", on_behalf_of.as_slice()));
    raw.push(Field::number("interestRateMode", mode));
    raw.push(uint_field("borrowRate", &rate));
    raw.push(Field::number("referralCode", referral));
    let mut event = new_event(ctx, "aave_v3", "borrow");
    event.account = Some(on_behalf_of);
    event.token_out = Some(reserve);
    event.amount_out = Some(SignedAmount::from_amount(amount));
    assert(fields_view(raw@) =~= aave_borrow_of(log@, ctx@).unwrap().raw_data.unwrap());
    event.raw_data = Some(raw);
    Some(event)
}

/// An Aave V3 repayment. The account is the user whose debt is repaid; the
/// reserve and the amount are the in-side.
pub open spec fn aave_repay_of(log: RawLogView, ctx: LogContextView) -> Option<DefiEventView> {
    if !has_shape(log, 4, 2) {
        None
    } else {
        let reserve = word_address(log.topics[1]);
        let user = word_address(log.topics[2]);
        Some(
            DefiEventView {
                account: Some(user),
                token_in: Some(reserve),
                amount_in: Some(uint_of(data_word(log.data, 0), 32) as int),
                raw_data: Some(
                    seq![
                        text_field("reserve"@, hex0x(reserve)),
                        text_field("user"@, hex0x(user)),
                        text_field("repayer"@, hex0x(word_address(log.topics[3]))),
                        flag_field("useATokens"@, flag_of(data_word(log.data, 1))),
                    ],
                ),
                ..bare_event(ctx, "aave_v3"@, "repay"@)
            },
        )
    }
}

/// Decodes a log as an Aave V3 repayment; nothing where it has another shape.
pub fn decode_aave_repay(log: &RawLog, ctx: &LogContext) -> (event: Option<DefiEvent>)
    ensures
        event_view(event) == aave_repay_of(log@, ctx@),
{
    if !check_shape(log, 4, 2) {
        return None;
    }
    let reserve = topic_address(log, 1);
    let user = topic_address(log, 2);
    let repayer = topic_address(log, 3);
    let data = log.data.as_slice();
    let amount = data_uint(data, 0, 32);
    let use_a_tokens = data_flag(data, 1);
    let mut raw: Vec<Field> = Vec::new();
    raw.push(address_field("reserve", reserve.as_slice()));
    raw.push(address_field("user", user.as_slice()));
    raw.push(address_field("repayer", repayer.as_slice()));
    raw.push(Field::flag("useATokens", use_a_tokens));
    let mut event = new_event(ctx, "aave_v3", "repay");
    event.account = Some(user);
    event.token_in = Some(reserve);
    event.amount_in = Some(SignedAmount::from_amount(amount));
    assert(fields_view(raw@) =~= aave_repay_of(log@, ctx@).unwrap().raw_data.unwrap());
    event.raw_data = Some(raw);
    Some(event)
}

/// An Aave V3 liquidation. The account is the borrower; the debt asset and
/// the debt covered are the in-side, the collateral asset and the
/// collateral liquidated the out-side.
pub open spec fn aave_liquidation_of(log: RawLogView, ctx: LogContextView) -> Option<DefiEventView> {
    if !has_shape(log, 4, 4) {
        None
    } else {
        let collateral = word_address(log.topics[1]);
        let debt = word_address(log.topics[2]);
        let user = word_address(log.topics[3]);
        Some(
            DefiEventView {
                account: Some(user),
                token_in: Some(debt),
                token_out: Some(collateral),
                amount_in: Some(uint_of(data_word(log.data, 0), 32) as int),
                amount_out: Some(uint_of(data_word(log.data, 1), 32) as int),
                raw_data: Some(
                    seq![
                        text_field("collateralAsset"@, hex0x(collateral)),
                        text_field("debtAsset"@, hex0x(debt)),
                        text_field("user"@, hex0x(user)),
                        text_field("liquidator"@, hex0x(word_address(data_word(log.data, 2)))),
                        flag_field("receiveAToken"@, flag_of(data_word(log.data, 3))),
                    ],
                ),
                ..bare_event(ctx, "aave_v3"@, "liquidation"@)
            },
        )
    }
}

/// Decodes a log as an Aave V3 liquidation; nothing where it has another shape.
pub fn decode_aave_liquidation(log: &RawLog, ctx: &LogContext) -> (event: Option<DefiEvent>)
    ensures
        event_view(event) == aave_liquidation_of(log@, ctx@),
{
    if !check_shape(log, 4, 4) {
        return None;
    }
    let collateral = topic_address(log, 1);
    let debt = topic_address(log, 2);
    let user = topic_address(log, 3);
    let data = log.data.as_slice();
    let debt_to_cover = data_uint(data, 0, 32);
    let liquidated_collateral = data_uint(data, 1, 32);
    let liquidator = data_address(data, 2);
    let receive_a_token = data_flag(data, 3);
    let mut raw: Vec<Field> = Vec::new();
    raw.push(address_field("collateralAsset", collateral.as_slice()));
    raw.push(address_field("debtAsset", debt.as_slice()));
    raw.push(address_field("user", user.as_slice()));
    raw.push(address_field("liquidator", liquidator.as_slice()));
    raw.push(Field::flag("receiveAToken", receive_a_token));
    let mut event = new_event(ctx, "aave_v3", "liquidation");
    event.account = Some(user);
    event.token_in = Some(debt);
    event.token_out = Some(collateral);
    event.amount_in = Some(SignedAmount::from_amount(debt_to_cover));
    event.amount_out = Some(SignedAmount::from_amount(liquidated_collateral));
    assert(fields_view(raw@) =~= aave_liquidation_of(log@, ctx@).unwrap().raw_data.unwrap());
    event.raw_data = Some(raw);
    Some(event)
}

/// A Compound V3 supply. The account is the address supplied from; the
/// market contract and the amount are the in-side.
pub open spec fn comet_supply_of(log: RawLogView, ctx: LogContextView) -> Option<DefiEventView> {
    if !has_shape(log, 3, 1) {
        None
    } else {
        let from = word_address(log.topics[1]);
        Some(
            DefiEventView {
                account: Some(from),
                token_in: Some(ctx.contract_address),
                amount_in: Some(uint_of(data_word(log.data, 0), 32) as int),
                raw_data: Some(
                    seq![
                        text_field("from"@, hex0x(from)),
                        text_field("dst"@, hex0x(word_address(log.topics[2]))),
                    ],
                ),
                ..bare_event(ctx, "compound_v3"@, "supply"@)
            },
        )
    }
}

/// Decodes a log as a Compound V3 supply; nothing where it has another shape.
pub fn decode_comet_supply(log: &RawLog, ctx: &LogContext) -> (event: Option<DefiEvent>)
    ensures
        event_view(event) == comet_supply_of(log@, ctx@),
{
    if !check_shape(log, 3, 1) {
        return None;
    }
    let from = topic_address(log, 1);
    let dst = topic_address(log, 2);
    let amount = data_uint(log.data.as_slice(), 0, 32);
    let mut raw: Vec<Field> = Vec::new();
    raw.push(address_field("from", from.as_slice()));
    raw.push(address_field("dst", dst.as_slice()));
    let mut event = new_event(ctx, "compound_v3", "supply");
    event.account = Some(from);
    event.token_in = Some(copy_bytes(ctx.contract_address.as_slice()));
    event.amount_in = Some(SignedAmount::from_amount(amount));
    assert(fields_view(raw@) =~= comet_supply_of(log@, ctx@).unwrap().raw_data.unwrap());
    event.raw_data = Some(raw);
    Some(event)
}

/// A Compound V3 withdrawal. The account is the address withdrawn from; the
/// market contract and the amount are the out-side.
pub open spec fn comet_withdraw_of(log: RawLogView, ctx: LogContextView) -> Option<DefiEventView> {
    if !has_shape(log, 3, 1) {
        None
    } else {
        let src = word_address(log.topics[1]);
        Some(
            DefiEventView {
                account: Some(src),
                token_out: Some(ctx.contract_address),
                amount_out: Some(uint_of(data_word(log.data, 0), 32) as int),
                raw_data: Some(
                    seq![
                        text_field("src"@, hex0x(src)),
                        text_field("to"@, hex0x(word_address(log.topics[2]))),
                    ],
                ),
                ..bare_event(ctx, "compound_v3"@, "withdraw"@)
            },
        )
    }
}

/// Decodes a log as a Compound V3 withdrawal; nothing where it has another shape.
pub fn decode_comet_withdraw(log: &RawLog, ctx: &LogContext) -> (event: Option<DefiEvent>)
    ensures
        event_view(event) == comet_withdraw_of(log@, ctx@),
{
    if !check_shape(log, 3, 1) {
        return None;
    }
    let src = topic_address(log, 1);
    let to = topic_address(log, 2);
    let amount = data_uint(log.data.as_slice(), 0, 32);
    let mut raw: Vec<Field> = Vec::new();
    raw.push(address_field("src", src.as_slice()));
    raw.push(address_field("to", to.as_slice()));
    let mut event = new_event(ctx, "compound_v3", "withdraw");
    event.account = Some(src);
    event.token_out = Some(copy_bytes(ctx.contract_address.as_slice()));
    event.amount_out = Some(SignedAmount::from_amount(amount));
    assert(fields_view(raw@) =~= comet_withdraw_of(log@, ctx@).unwrap().raw_data.unwrap());
    event.raw_data = Some(raw);
    Some(event)
}

/// A Compound V3 absorption of collateral. The account is the borrower; the
/// asset and the collateral absorbed are the out-side.
pub open spec fn comet_absorb_of(log: RawLogView, ctx: LogContextView) -> Option<DefiEventView> {
    if !has_shape(log, 4, 2) {
        None
    } else {
        let borrower = word_address(log.topics[2]);
        let asset = word_address(log.topics[3]);
        Some(
            DefiEventView {
                account: Some(borrower),
                token_out: Some(asset),
                amount_out: Some(uint_of(data_word(log.data, 0), 32) as int),
                raw_data: Some(
                    seq![
                        text_field("absorber"@, hex0x(word_address(log.topics[1]))),
                        text_field("borrower"@, hex0x(borrower)),
                        text_field("asset"@, hex0x(asset)),
                        text_field("usdValue"@, decimal_text(uint_of(data_word(log.data, 1), 32))),
                    ],
                ),
                ..bare_event(ctx, "compound_v3"@, "liquidation"@)
            },
        )
    }
}

/// Decodes a log as a Compound V3 absorption of collateral; nothing where it has another shape.
pub fn decode_comet_absorb(log: &RawLog, ctx: &LogContext) -> (event: Option<DefiEvent>)
    ensures
        event_view(event) == comet_absorb_of(log@, ctx@),
{
    if !check_shape(log, 4, 2) {
        return None;
    }
    let absorber = topic_address(log, 1);
    let borrower = topic_address(log, 2);
    let asset = topic_address(log, 3);
    let data = log.data.as_slice();
    let collateral_absorbed = data_uint(data, 0, 32);
    let usd_value = data_uint(data, 1, 32);
    let mut raw: Vec<Field> = Vec::new();
    raw.push(address_field("absorber", absorber.as_slice()));
    raw.push(address_field("borrower", borrower.as_slice()));
    raw.push(address_field("asset", asset.as_slice()));
    raw.push(uint_field("usdValue", &usd_value));
    let mut event = new_event(ctx, "compound_v3", "liquidation");
    event.account = Some(borrower);
    event.token_out = Some(asset);
    event.amount_out = Some(SignedAmount::from_amount(collateral_absorbed));
    assert(fields_view(raw@) =~= comet_absorb_of(log@, ctx@).unwrap().raw_data.unwrap());
    event.raw_data = Some(raw);
    Some(event)
}

/// The first topics of the ten events, in the order in which a log is held
/// against them.
#[derive(Debug)]
pub struct DefiTopics {
    pub univ2_swap: Vec<u8>,
    pub univ3_swap: Vec<u8>,
    pub curve_exchange: Vec<u8>,
    pub aave_supply: Vec<u8>,
    pub aave_borrow: Vec<u8>,
    pub aave_repay: Vec<u8>,
    pub aave_liquidation: Vec<u8>,
    pub comet_supply: Vec<u8>,
    pub comet_withdraw: Vec<u8>,
    pub comet_absorb: Vec<u8>,
}

/// The topics as plain byte strings.
pub struct DefiTopicsView {
    pub univ2_swap: Seq<u8>,
    pub univ3_swap: Seq<u8>,
    pub curve_exchange: Seq<u8>,
    pub aave_supply: Seq<u8>,
    pub aave_borrow: Seq<u8>,
    pub aave_repay: Seq<u8>,
    pub aave_liquidation: Seq<u8>,
    pub comet_supply: Seq<u8>,
    pub comet_withdraw: Seq<u8>,
    pub comet_absorb: Seq<u8>,
}

impl View for DefiTopics {
    type V = DefiTopicsView;

    open spec fn view(&self) -> DefiTopicsView {
        DefiTopicsView {
            univ2_swap: self.univ2_swap@,
            univ3_swap: self.univ3_swap@,
            curve_exchange: self.curve_exchange@,
            aave_supply: self.aave_supply@,
            aave_borrow: self.aave_borrow@,
            aave_repay: self.aave_repay@,
            aave_liquidation: self.aave_liquidation@,
            comet_supply: self.comet_supply@,
            comet_withdraw: self.comet_withdraw@,
            comet_absorb: self.comet_absorb@,
        }
    }
}

/// The topics of the ten events as their canonical signatures give them.
pub open spec fn canonical_topics() -> DefiTopicsView {
    DefiTopicsView {
        univ2_swap: topic_of(UNISWAP_V2_SWAP@),
        univ3_swap: topic_of(UNISWAP_V3_SWAP@),
        curve_exchange: topic_of(CURVE_TOKEN_EXCHANGE@),
        aave_supply: topic_of(AAVE_SUPPLY@),
        aave_borrow: topic_of(AAVE_BORROW@),
        aave_repay: topic_of(AAVE_REPAY@),
        aave_liquidation: topic_of(AAVE_LIQUIDATION_CALL@),
        comet_supply: topic_of(COMET_SUPPLY@),
        comet_withdraw: topic_of(COMET_WITHDRAW@),
        comet_absorb: topic_of(COMET_ABSORB_COLLATERAL@),
    }
}

impl DefiTopics {
    /// The topics of the ten events, computed from their signatures.
    pub fn canonical() -> (topics: DefiTopics)
        ensures
            topics@ == canonical_topics(),
    {
        DefiTopics {
            univ2_swap: event_topic(UNISWAP_V2_SWAP),
            univ3_swap: event_topic(UNISWAP_V3_SWAP),
            curve_exchange: event_topic(CURVE_TOKEN_EXCHANGE),
            aave_supply: event_topic(AAVE_SUPPLY),
            aave_borrow: event_topic(AAVE_BORROW),
            aave_repay: event_topic(AAVE_REPAY),
            aave_liquidation: event_topic(AAVE_LIQUIDATION_CALL),
            comet_supply: event_topic(COMET_SUPPLY),
            comet_withdraw: event_topic(COMET_WITHDRAW),
            comet_absorb: event_topic(COMET_ABSORB_COLLATERAL),
        }
    }
}

/// The event that a log stands for, where `topics` are the first topics of
/// the ten events: the log is held against them in their order and decoded
/// as the first that its own first topic equals. A log without topics, or
/// with a first topic that is none of the ten, stands for nothing.
pub open spec fn defi_event_of(
    log: RawLogView,
    block_timestamp: i64,
    chain_id: i64,
    topics: DefiTopicsView,
) -> Option<DefiEventView> {
    let ctx = context_of(log, block_timestamp, chain_id);
    if log.topics.len() == 0 {
        None
    } else if log.topics[0] == topics.univ2_swap {
        univ2_swap_of(log, ctx)
    } else if log.topics[0] == topics.univ3_swap {
        univ3_swap_of(log, ctx)
    } else if log.topics[0] == topics.curve_exchange {
        curve_exchange_of(log, ctx)
    } else if log.topics[0] == topics.aave_supply {
        aave_supply_of(log, ctx)
    } else if log.topics[0] == topics.aave_borrow {
        aave_borrow_of(log, ctx)
    } else if log.topics[0] == topics.aave_repay {
        aave_repay_of(log, ctx)
    } else if log.topics[0] == topics.aave_liquidation {
        aave_liquidation_of(log, ctx)
    } else if log.topics[0] == topics.comet_supply {
        comet_supply_of(log, ctx)
    } else if log.topics[0] == topics.comet_withdraw {
        comet_withdraw_of(log, ctx)
    } else if log.topics[0] == topics.comet_absorb {
        comet_absorb_of(log, ctx)
    } else {
        None
    }
}

/// Decodes one log as one of the ten events, or as nothing.
pub fn try_decode_log(
    log: &RawLog,
    block_timestamp: i64,
    chain_id: i64,
    topics: &DefiTopics,
) -> (event: Option<DefiEvent>)
    ensures
        event_view(event) == defi_event_of(log@, block_timestamp, chain_id, topics@),
{
    if log.topics.len() == 0 {
        return None;
    }
    let ctx = LogContext {
        chain_id,
        block_number: to_i64(
            match log.block_number {
                Some(n) => n,
                None => 0,
            },
        ),
        tx_hash: log.tx_hash_or_zero(),
        log_index: to_i32(
            match log.log_index {
                Some(n) => n,
                None => 0,
            },
        ),
        contract_address: copy_bytes(log.address.as_slice()),
        block_timestamp,
    };
    assert(ctx@ == context_of(log@, block_timestamp, chain_id));
    let sig = log.topics[0].as_slice();
    assert(sig@ == log@.topics[0]);
    if bytes_eq(sig, topics.univ2_swap.as_slice()) {
        decode_univ2_swap(log, &ctx)
    } else if bytes_eq(sig, topics.univ3_swap.as_slice()) {
        decode_univ3_swap(log, &ctx)
    } else if bytes_eq(sig, topics.curve_exchange.as_slice()) {
        decode_curve_exchange(log, &ctx)
    } else if bytes_eq(sig, topics.aave_supply.as_slice()) {
        decode_aave_supply(log, &ctx)
    } else if bytes_eq(sig, topics.aave_borrow.as_slice()) {
        decode_aave_borrow(log, &ctx)
    } else if bytes_eq(sig, topics.aave_repay.as_slice()) {
        decode_aave_repay(log, &ctx)
    } else if bytes_eq(sig, topics.aave_liquidation.as_slice()) {
        decode_aave_liquidation(log, &ctx)
    } else if bytes_eq(sig, topics.comet_supply.as_slice()) {
        decode_comet_supply(log, &ctx)
    } else if bytes_eq(sig, topics.comet_withdraw.as_slice()) {
        decode_comet_withdraw(log, &ctx)
    } else if bytes_eq(sig, topics.comet_absorb.as_slice()) {
        decode_comet_absorb(log, &ctx)
    } else {
        None
    }
}

/// The events that a run of logs stands for, in the order of the logs; a
/// log that stands for nothing is passed over.
pub open spec fn defi_events_of(
    logs: Seq<RawLogView>,
    block_timestamp: i64,
    chain_id: i64,
    topics: DefiTopicsView,
) -> Seq<DefiEventView>
    decreases logs.len(),
{
    if logs.len() == 0 {
        Seq::empty()
    } else {
        let before = defi_events_of(logs.drop_last(), block_timestamp, chain_id, topics);
        match defi_event_of(logs.last(), block_timestamp, chain_id, topics) {
            Some(e) => before.push(e),
            None => before,
        }
    }
}

/// Decodes every known DeFi event in `logs`, where `topics` are the first
/// topics of the ten events.
pub fn decode_defi_logs_with(
    logs: &[RawLog],
    block_timestamp: i64,
    chain_id: i64,
    topics: &DefiTopics,
) -> (events: Vec<DefiEvent>)
    ensures
        events_view(events@) == defi_events_of(
            logs_view(logs@),
            block_timestamp,
            chain_id,
            topics@,
        ),
{
    let mut events: Vec<DefiEvent> = Vec::new();
    let mut i: usize = 0;
    assert(logs_view(logs@).take(0) =~= Seq::<RawLogView>::empty());
    assert(events_view(events@) =~= Seq::<DefiEventView>::empty());
    while i < logs.len()
        invariant
            i <= logs@.len(),
            events_view(events@) == defi_events_of(
                logs_view(logs@).take(i as int),
                block_timestamp,
                chain_id,
                topics@,
            ),
        decreases logs@.len() - i,
    {
        proof {
            let next = logs_view(logs@).take(i + 1);
            assert(next.drop_last() =~= logs_view(logs@).take(i as int));
            assert(next.last() == logs@[i as int]@);
        }
        let ghost before = events_view(events@);
        match try_decode_log(&logs[i], block_timestamp, chain_id, topics) {
            Some(event) => {
                let ghost ev = event@;
                events.push(event);
                assert(events_view(events@) =~= before.push(ev));
            },
            None => {},
        }
        i += 1;
    }
    assert(logs_view(logs@).take(logs@.len() as int) =~= logs_view(logs@));
    events
}

/// Decodes every known DeFi event in `logs`: swaps on Uniswap V2, Uniswap
/// V3 and Curve, supply, borrow, repay and liquidation on Aave V3, supply,
/// withdraw and absorb on Compound V3. Every event gets the given chain and
/// block time. Logs of other events are passed over.
pub fn decode_defi_logs(logs: &[RawLog], block_timestamp: i64, chain_id: i64) -> (events: Vec<
    DefiEvent,
>)
    ensures
        events_view(events@) == defi_events_of(
            logs_view(logs@),
            block_timestamp,
            chain_id,
            canonical_topics(),
        ),
{
    let topics = DefiTopics::canonical();
    decode_defi_logs_with(logs, block_timestamp, chain_id, &topics)
}

} // verus!
