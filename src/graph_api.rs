//! Records of the Uniswap V3 subgraph, and the decisions of its client:
//! which deployment a chain uses, which block a listing reads, and how a
//! listing walks its pages.

use vstd::arithmetic::power::pow;
use vstd::prelude::*;

use crate::address::Address;
use crate::error::SourceError;

verus! {

/// Blocks below the head that a listing stays away from, so that a
/// reorganisation of the chain does not touch the block it reads.
pub const MAX_REORG_BLOCK_COUNT: u64 = 64;

/// Records that the subgraph hands out per page.
pub const MAX_NUMBER_OF_ENTITIES_PER_PAGE: usize = 1000;

/// A 256-bit unsigned integer as two halves; the core only carries it.
#[derive(Clone, Copy, Debug, PartialEq, Eq, Structural, Hash)]
pub struct U256 {
    pub hi: u128,
    pub lo: u128,
}

/// A token of a pool.
#[derive(Debug)]
pub struct Token {
    pub id: Address,
    pub symbol: String,
    pub decimals: u8,
}

impl Token {
    /// A copy equal to `self`.
    pub fn cloned(&self) -> (r: Token)
        ensures
            r == *self,
    {
        Token { id: self.id, symbol: self.symbol.clone(), decimals: self.decimals }
    }
}

/// Pool data from the Uniswap V3 subgraph. A token the subgraph did not
/// report is `None`.
#[derive(Debug)]
pub struct PoolData {
    pub id: Address,
    pub token0: Option<Token>,
    pub token1: Option<Token>,
    pub fee_tier: U256,
    pub liquidity: U256,
    pub sqrt_price: U256,
    pub tick: i64,
}

impl PoolData {
    /// A copy equal to `self`.
    pub fn cloned(&self) -> (r: PoolData)
        ensures
            r == *self,
    {
        let token0 = match &self.token0 {
            Some(t) => Some(t.cloned()),
            None => None,
        };
        let token1 = match &self.token1 {
            Some(t) => Some(t.cloned()),
            None => None,
        };
        PoolData {
            id: self.id,
            token0,
            token1,
            fee_tier: self.fee_tier,
            liquidity: self.liquidity,
            sqrt_price: self.sqrt_price,
            tick: self.tick,
        }
    }
}

/// Tick data from the Uniswap V3 subgraph.
#[derive(Debug)]
pub struct TickData {
    pub id: String,
    pub tick_idx: i64,
    pub liquidity_net: i128,
    pub pool_address: Address,
}

/// The answer to the head block query.
#[derive(Clone, Copy, Debug, PartialEq, Eq, Structural)]
pub struct Data {
    pub meta: Meta,
}

/// Metadata of the subgraph.
#[derive(Clone, Copy, Debug, PartialEq, Eq, Structural)]
pub struct Meta {
    pub block: Block,
}

/// The block that the subgraph has indexed up to.
#[derive(Clone, Copy, Debug, PartialEq, Eq, Structural)]
pub struct Block {
    pub number: u64,
}

/// The lowercase hex digits.
pub open spec fn hex_digits() -> Seq<char> {
    seq!['0', '1', '2', '3', '4', '5', '6', '7', '8', '9', 'a', 'b', 'c', 'd', 'e', 'f']
}

/// The text of an address as the subgraph writes identifiers: "0x" and the
/// 40 lowercase hex digits of its value, most significant first.
pub open spec fn address_text(a: Address) -> Seq<char> {
    seq!['0', 'x'] + Seq::new(40, |k: int| hex_digits()[(a.value() / pow(16, (39 - k) as nat)) % 16])
}

/// Relies on the `{:#x}` formatting of `primitive_types::H160`: "0x" and
/// two lowercase hex digits per byte, the bytes in order.
#[verifier::external_body]
fn address_hex(a: &Address) -> (r: String)
    ensures
        r@ == address_text(*a),
{
    let mut bytes = [0u8; 20];
    bytes[..4].copy_from_slice(&a.hi.to_be_bytes());
    bytes[4..].copy_from_slice(&a.lo.to_be_bytes());
    format!("{:#x}", primitive_types::H160(bytes))
}

/// Records that carry the identifier by which a listing pages.
pub trait ContainsId {
    /// The identifier of the record.
    spec fn spec_id(&self) -> Seq<char>;

    /// The identifier of the record.
    fn get_id(&self) -> (r: String)
        ensures
            r@ == self.spec_id(),
    ;
}

impl ContainsId for PoolData {
    open spec fn spec_id(&self) -> Seq<char> {
        address_text(self.id)
    }

    fn get_id(&self) -> (r: String) {
        address_hex(&self.id)
    }
}

impl ContainsId for TickData {
    open spec fn spec_id(&self) -> Seq<char> {
        self.id@
    }

    fn get_id(&self) -> (r: String) {
        self.id.clone()
    }
}

/// `a - b`, or zero where `b` exceeds `a`.
pub open spec fn saturating_diff(a: int, b: int) -> int {
    if a >= b {
        a - b
    } else {
        0
    }
}

/// One page request of a listing: the records above `last_id` in identifier
/// order, at most `page_size` of them, as of block `block`.
#[derive(Debug)]
pub struct PageRequest {
    pub block: u64,
    pub page_size: usize,
    pub last_id: String,
}

/// A listing in progress: it fixes the block once and asks page after page,
/// each time for the records above the last identifier seen, until a page
/// comes back shorter than the page size.
pub struct Paginator<T> {
    pub(crate) block: u64,
    pub(crate) page_size: usize,
    pub(crate) last_id: String,
    pub(crate) items: Vec<T>,
    pub(crate) done: bool,
}

impl<T: ContainsId> Paginator<T> {
    pub open(crate) spec fn spec_block(&self) -> u64 {
        self.block
    }

    pub open(crate) spec fn spec_page_size(&self) -> usize {
        self.page_size
    }

    pub open(crate) spec fn spec_last_id(&self) -> Seq<char> {
        self.last_id@
    }

    pub open(crate) spec fn spec_items(&self) -> Seq<T> {
        self.items@
    }

    pub open(crate) spec fn is_done(&self) -> bool {
        self.done
    }

    /// A listing as of `block`, in pages of `page_size`, that has not asked
    /// anything yet.
    pub fn new(block: u64, page_size: usize) -> (r: Paginator<T>)
        ensures
            r.spec_block() == block,
            r.spec_page_size() == page_size,
            r.spec_last_id() == Seq::<char>::empty(),
            r.spec_items() == Seq::<T>::empty(),
            !r.is_done(),
    {
        Paginator { block, page_size, last_id: String::new(), items: Vec::new(), done: false }
    }

    /// The block that every page of the listing reads.
    pub fn block(&self) -> (r: u64)
        ensures
            r == self.spec_block(),
    {
        self.block
    }

    /// The next page to ask for, or `None` once the listing is complete.
    pub fn next_request(&self) -> (r: Option<PageRequest>)
        ensures
            r is None <==> self.is_done(),
            r matches Some(q) ==> q.block == self.spec_block() && q.page_size
                == self.spec_page_size() && q.last_id@ == self.spec_last_id(),
    {
        if self.done {
            None
        } else {
            Some(PageRequest { block: self.block, page_size: self.page_size, last_id: self.last_id.clone() })
        }
    }

    /// Takes in the page that answered the last request. A page shorter than
    /// the page size ends the listing; otherwise the next request starts
    /// above the identifier of the page's last record.
    pub fn accept_page(&mut self, page: Vec<T>)
        requires
            !old(self).is_done(),
        ensures
            final(self).spec_items() == old(self).spec_items() + page@,
            final(self).is_done() == (page@.len() < old(self).spec_page_size()),
            final(self).spec_block() == old(self).spec_block(),
            final(self).spec_page_size() == old(self).spec_page_size(),
            page@.len() > 0 ==> final(self).spec_last_id() == page@.last().spec_id(),
            page@.len() == 0 ==> final(self).spec_last_id() == old(self).spec_last_id(),
    {
        let mut page = page;
        let n = page.len();
        if n > 0 {
            self.last_id = page[n - 1].get_id();
        }
        self.done = n < self.page_size;
        self.items.append(&mut page);
    }

    /// The records of all pages, in the order they came.
    pub fn into_items(self) -> (r: Vec<T>)
        ensures
            r@ == self.spec_items(),
    {
        self.items
    }
}

/// Pools registered in the subgraph, as of one block.
#[derive(Debug)]
pub struct RegisteredPools {
    /// The block number that the data was fetched at.
    pub fetched_block_number: u64,
    /// The registered pools.
    pub pools: Vec<PoolData>,
}

/// The part of the Uniswap V3 subgraph client that decides: the deployment
/// to address and the block and pages of each listing. The transport that
/// carries the queries is the caller's.
#[derive(Debug)]
pub struct UniV3SubgraphClient {
    pub org: String,
    pub name: String,
}

impl UniV3SubgraphClient {
    /// The client for the chain `chain_id`; only mainnet (chain 1) has a
    /// deployment.
    pub fn for_chain(chain_id: u64) -> (r: Result<UniV3SubgraphClient, SourceError>)
        ensures
            chain_id == 1 <==> r is Ok,
            r matches Ok(c) ==> c.org@ == "uniswap"@ && c.name@ == "uniswap-v3"@,
            r matches Err(e) ==> e == SourceError::UnsupportedChain(chain_id),
    {
        if chain_id == 1 {
            Ok(UniV3SubgraphClient { org: "uniswap".to_owned(), name: "uniswap-v3".to_owned() })
        } else {
            Err(SourceError::UnsupportedChain(chain_id))
        }
    }

    /// A block for which it is safe to assume that no reorg will happen: the
    /// indexed head less the reorg margin, never below zero.
    pub fn get_safe_block(&self, head: &Data) -> (r: u64)
        ensures
            r == saturating_diff(head.meta.block.number as int, MAX_REORG_BLOCK_COUNT as int),
    {
        head.meta.block.number.saturating_sub(MAX_REORG_BLOCK_COUNT)
    }

    /// A listing as of `block` in pages of the subgraph's size.
    pub fn start_listing<T: ContainsId>(&self, block: u64) -> (r: Paginator<T>)
        ensures
            r.spec_block() == block,
            r.spec_page_size() == MAX_NUMBER_OF_ENTITIES_PER_PAGE,
            r.spec_last_id() == Seq::<char>::empty(),
            r.spec_items() == Seq::<T>::empty(),
            !r.is_done(),
    {
        Paginator::new(block, MAX_NUMBER_OF_ENTITIES_PER_PAGE)
    }

    /// The registered pools that a complete listing of pools found.
    pub fn get_registered_pools(&self, listing: Paginator<PoolData>) -> (r: RegisteredPools)
        requires
            listing.is_done(),
        ensures
            r.fetched_block_number == listing.spec_block(),
            r.pools@ == listing.spec_items(),
    {
        let fetched_block_number = listing.block();
        RegisteredPools { fetched_block_number, pools: listing.into_items() }
    }

    /// The ticks that a complete listing of ticks found.
    pub fn get_ticks(&self, listing: Paginator<TickData>) -> (r: Vec<TickData>)
        requires
            listing.is_done(),
        ensures
            r@ == listing.spec_items(),
    {
        listing.into_items()
    }
}

} // verus!
