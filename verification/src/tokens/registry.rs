//! Watched token contracts of one chain, by address.

use crate::bytes::{all_hex, bytes_eq, hex_decoded};
use crate::config::ChainConfig;
use crate::config::TokenConfig;
use crate::indexer::types::{TokenMeta, TokenMetaView};
use crate::text::utf8;
use alloy::primitives::Address;
use std::str::FromStr;
use vstd::prelude::*;

verus! {

/// `text` without a leading `0x` or `0X`.
pub open spec fn without_prefix(text: Seq<u8>) -> Seq<u8> {
    if text.len() >= 2 && text[0] == 0x30 && (text[1] == 0x78 || text[1] == 0x58) {
        text.skip(2)
    } else {
        text
    }
}

/// The 20 bytes that an address text stands for: 40 hexadecimal digits of
/// either case, with or without a leading `0x`. Anything else is no address.
pub open spec fn address_of_text(text: Seq<u8>) -> Option<Seq<u8>> {
    let digits = without_prefix(text);
    if digits.len() == 40 && all_hex(digits) {
        Some(hex_decoded(digits))
    } else {
        None
    }
}

/// `Address::from_str` of alloy: accepts 40 hexadecimal digits of either
/// case, after an optional `0x` or `0X`, and gives the 20 bytes that they
/// spell; the checksum of a mixed-case text is not looked at.
#[verifier::external_body]
pub(crate) fn parse_address(text: &str) -> (address: Option<Vec<u8>>)
    ensures
        match address {
            Some(a) => address_of_text(utf8(text@)) == Some(a@),
            None => address_of_text(utf8(text@)) is None,
        },
{
    match Address::from_str(text) {
        Ok(a) => Some(a.as_slice().to_vec()),
        Err(_) => None,
    }
}

/// Parses the text of an address: 40 hexadecimal digits of either case,
/// with or without a leading `0x`.
pub fn address_from_text(text: &str) -> (address: Option<Vec<u8>>)
    ensures
        match address {
            Some(a) => address_of_text(utf8(text@)) == Some(a@),
            None => address_of_text(utf8(text@)) is None,
        },
{
    parse_address(text)
}

/// One watched token.
#[derive(Debug)]
pub struct WatchedToken {
    pub address: Vec<u8>,
    pub meta: TokenMeta,
}

/// What a `WatchedToken` holds, as plain mathematical values.
pub struct WatchedTokenView {
    pub address: Seq<u8>,
    pub meta: TokenMetaView,
}

impl View for WatchedToken {
    type V = WatchedTokenView;

    open spec fn view(&self) -> WatchedTokenView {
        WatchedTokenView { address: self.address@, meta: self.meta@ }
    }
}

/// The index of the first entry for `address`, or the number of entries
/// where there is none.
pub open spec fn token_index(entries: Seq<WatchedTokenView>, address: Seq<u8>) -> int
    decreases entries.len(),
{
    if entries.len() == 0 {
        0
    } else if entries[0].address == address {
        0
    } else {
        1 + token_index(entries.drop_first(), address)
    }
}

/// The entry for `address`, if the registry has one.
pub open spec fn find_token(entries: Seq<WatchedTokenView>, address: Seq<u8>) -> Option<
    TokenMetaView,
> {
    let i = token_index(entries, address);
    if i < entries.len() {
        Some(entries[i].meta)
    } else {
        None
    }
}

/// The registry with `meta` as the entry for `address`: in the place of the
/// entry that it replaces, or at the end.
pub open spec fn with_token(
    entries: Seq<WatchedTokenView>,
    address: Seq<u8>,
    meta: TokenMetaView,
) -> Seq<WatchedTokenView> {
    let i = token_index(entries, address);
    if i < entries.len() {
        entries.update(i, WatchedTokenView { address, meta })
    } else {
        entries.push(WatchedTokenView { address, meta })
    }
}

/// The registry that the configured tokens make, taken in order: a token
/// whose address does not parse is skipped, and a later token replaces an
/// earlier one with the same address.
pub open spec fn watched_of_config(tokens: Seq<TokenConfig>) -> Seq<WatchedTokenView>
    decreases tokens.len(),
{
    if tokens.len() == 0 {
        Seq::empty()
    } else {
        let before = watched_of_config(tokens.drop_last());
        let token = tokens.last();
        match address_of_text(utf8(token.address@)) {
            Some(address) => with_token(
                before,
                address,
                TokenMetaView { symbol: token.symbol@, decimals: token.decimals as i16 },
            ),
            None => before,
        }
    }
}

/// The first index at which the entry is for `address` is the index that
/// `token_index` names.
proof fn lemma_token_index_is(entries: Seq<WatchedTokenView>, address: Seq<u8>, i: int)
    requires
        0 <= i <= entries.len(),
        forall|j: int| 0 <= j < i ==> (#[trigger] entries[j]).address != address,
        i < entries.len() ==> entries[i].address == address,
    ensures
        token_index(entries, address) == i,
    decreases entries.len(),
{
    if entries.len() > 0 {
        if i == 0 {
        } else {
            assert(entries[0].address != address);
            let rest = entries.drop_first();
            assert forall|j: int| 0 <= j < i - 1 implies (#[trigger] rest[j]).address
                != address by {
                assert(rest[j] == entries[j + 1]);
            }
            lemma_token_index_is(rest, address, i - 1);
        }
    }
}

/// The watched tokens of one chain.
#[derive(Debug)]
pub struct WatchedTokens {
    pub entries: Vec<WatchedToken>,
}

impl View for WatchedTokens {
    type V = Seq<WatchedTokenView>;

    open spec fn view(&self) -> Seq<WatchedTokenView> {
        self.entries@.map_values(|e: WatchedToken| e@)
    }
}

impl WatchedTokens {
    /// A registry without tokens.
    pub fn new() -> (tokens: Self)
        ensures
            tokens@ == Seq::<WatchedTokenView>::empty(),
    {
        let tokens = WatchedTokens { entries: Vec::new() };
        assert(tokens@ =~= Seq::<WatchedTokenView>::empty());
        tokens
    }

    /// The number of watched tokens.
    pub fn len(&self) -> (n: usize)
        ensures
            n == self@.len(),
    {
        self.entries.len()
    }

    /// Whether no token is watched.
    pub fn is_empty(&self) -> (empty: bool)
        ensures
            empty == (self@.len() == 0),
    {
        self.entries.len() == 0
    }

    /// The position of the entry for `address`.
    fn position(&self, address: &[u8]) -> (i: usize)
        ensures
            i == token_index(self@, address@),
            i <= self.entries@.len(),
    {
        let mut i: usize = 0;
        while i < self.entries.len()
            invariant
                i <= self.entries@.len(),
                forall|j: int| 0 <= j < i ==> (#[trigger] self@[j]).address != address@,
            decreases self.entries@.len() - i,
        {
            if bytes_eq(self.entries[i].address.as_slice(), address) {
                proof {
                    assert(self@[i as int].address == address@);
                    lemma_token_index_is(self@, address@, i as int);
                }
                return i;
            }
            assert(self@[i as int].address != address@);
            i += 1;
        }
        proof {
            lemma_token_index_is(self@, address@, i as int);
        }
        i
    }

    /// The entry for `address`, if it is watched.
    pub fn lookup(&self, address: &[u8]) -> (meta: Option<&TokenMeta>)
        ensures
            match meta {
                Some(m) => find_token(self@, address@) == Some(m@),
                None => find_token(self@, address@) is None,
            },
    {
        let i = self.position(address);
        if i < self.entries.len() {
            Some(&self.entries[i].meta)
        } else {
            None
        }
    }

    /// Makes `meta` the entry for `address`.
    pub fn insert(&mut self, address: Vec<u8>, meta: TokenMeta)
        ensures
            final(self)@ == with_token(old(self)@, address@, meta@),
    {
        let i = self.position(address.as_slice());
        let ghost before = self@;
        let ghost entry = WatchedTokenView { address: address@, meta: meta@ };
        if i < self.entries.len() {
            self.entries[i] = WatchedToken { address, meta };
            assert(self@ =~= before.update(i as int, entry));
        } else {
            self.entries.push(WatchedToken { address, meta });
            assert(self@ =~= before.push(entry));
        }
    }

    /// The watched addresses, in the order of the registry.
    pub fn addresses(&self) -> (list: Vec<Vec<u8>>)
        ensures
            list@.len() == self@.len(),
            forall|i: int| 0 <= i < list@.len() ==> (#[trigger] list@[i])@ == self@[i].address,
    {
        let mut list: Vec<Vec<u8>> = Vec::new();
        let mut i: usize = 0;
        while i < self.entries.len()
            invariant
                i <= self.entries@.len(),
                list@.len() == i,
                forall|j: int| 0 <= j < i ==> (#[trigger] list@[j])@ == self@[j].address,
            decreases self.entries@.len() - i,
        {
            list.push(crate::bytes::copy_bytes(self.entries[i].address.as_slice()));
            i += 1;
        }
        list
    }
}

/// Builds the registry of a chain from its configured tokens.
pub fn build_watched_tokens(config: &ChainConfig) -> (tokens: WatchedTokens)
    ensures
        tokens@ == watched_of_config(config.tokens@),
{
    let mut tokens = WatchedTokens::new();
    let mut i: usize = 0;
    assert(config.tokens@.take(0) =~= Seq::<TokenConfig>::empty());
    while i < config.tokens.len()
        invariant
            i <= config.tokens@.len(),
            tokens@ == watched_of_config(config.tokens@.take(i as int)),
        decreases config.tokens@.len() - i,
    {
        let token = &config.tokens[i];
        proof {
            let next = config.tokens@.take(i + 1);
            assert(next.drop_last() =~= config.tokens@.take(i as int));
            assert(next.last() == *token);
        }
        match parse_address(token.address.as_str()) {
            Some(address) => {
                tokens.insert(
                    address,
                    TokenMeta { symbol: token.symbol.clone(), decimals: token.decimals as i16 },
                );
            },
            None => {},
        }
        i += 1;
    }
    assert(config.tokens@.take(config.tokens@.len() as int) =~= config.tokens@);
    tokens
}

} // verus!
