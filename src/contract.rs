use vstd::prelude::*;
use crate::approvals::{
    approvals_view, approval_id_of, ids_below, delegates_unique, lemma_approval_id_below,
    lemma_approval_id_push, without_delegate, find_approval, copy_approvals,
};
use crate::royalty::{Payout, total_bp, keys_unique, payout_entries, split_royalties, shares_within_whole};

verus! {

/// Version tag of the contract metadata format.
pub const NFT_METADATA_SPEC: &'static str = "nft-1.0.0";

/// Icon of the default collection.
pub const DATA_IMAGE_SVG_NEAR_ICON: &'static str = "data:image/svg+xml,%3Csvg xmlns='http://www.w3.org/2000/svg' viewBox='0 0 288 288'%3E%3Cg id='l' data-name='l'%3E%3Cpath d='M187.58,79.81l-30.1,44.69a3.2,3.2,0,0,0,4.75,4.2L191.86,103a1.2,1.2,0,0,1,2,.91v80.46a1.2,1.2,0,0,1-2.12.77L102.18,77.93A15.35,15.35,0,0,0,90.47,72.5H87.34A15.34,15.34,0,0,0,72,87.84V201.16A15.34,15.34,0,0,0,87.34,216.5h0a15.35,15.35,0,0,0,13.08-7.31l30.1-44.69a3.2,3.2,0,0,0-4.75-4.2L96.14,186a1.2,1.2,0,0,1-2-.91V104.61a1.2,1.2,0,0,1,2.12-.77l89.55,107.23a15.35,15.35,0,0,0,11.71,5.43h3.13A15.34,15.34,0,0,0,216,201.16V87.84A15.34,15.34,0,0,0,200.66,72.5h0A15.35,15.35,0,0,0,187.58,79.81Z'/%3E%3C/g%3E%3C/svg%3E";

/// Price of one token in the default collection (one whole unit of 10^24).
pub const DEFAULT_MINTING_PRICE: u128 = 1000000000000000000000000;

/// Number of tokens in the default collection.
pub const DEFAULT_SUPPLY: u64 = 100;

/// Title of every token of the default collection.
pub const DEFAULT_TITLE: &'static str = "Ticket to paradise";

/// Media of every token of the default collection.
pub const DEFAULT_MEDIA: &'static str = "https://ipfs.io/ipfs/bafybeighxr7dvxnugqiesff3caszpp6nxznjkhieqyglbelg4tcy2b5a3a";

/// Why an operation on the ledger was refused. A refused operation changes nothing.
#[derive(Clone, Copy, Debug, PartialEq, Eq, Structural)]
pub enum NftError {
    TokenNotFound,
    NotOwner,
    NotOwnerOrApproved,
    SameOwner,
    SoldOut,
    InsufficientPayment,
    AlreadyRedeemed,
    TooManyBeneficiaries,
    InvariantViolation,
}

/// Display metadata of the collection as a whole.
#[derive(Clone, Debug, PartialEq, Eq)]
pub struct NFTContractMetadata {
    pub spec: String,
    pub name: String,
    pub symbol: String,
    pub icon: Option<String>,
    pub base_uri: Option<String>,
    pub reference: Option<String>,
    pub reference_hash: Option<String>,
}

/// Display metadata of a token; `copies` is the supply of the collection.
#[derive(Clone, Debug, PartialEq, Eq)]
pub struct TokenMetadata {
    pub title: Option<String>,
    pub description: Option<String>,
    pub media: Option<String>,
    pub media_hash: Option<String>,
    pub copies: Option<u64>,
    pub issued_at: Option<String>,
    pub expires_at: Option<String>,
    pub starts_at: Option<String>,
    pub updated_at: Option<String>,
    pub reference: Option<String>,
    pub reference_hash: Option<String>,
}

/// What the ledger holds for one token.
pub struct TokenRecord {
    pub owner_id: String,
    pub metadata: TokenMetadata,
    pub redeemed: bool,
    /// (delegate, approval id) pairs.
    pub approvals: Vec<(String, u64)>,
    /// The id the next approval of this token gets.
    pub next_approval_id: u64,
}

impl TokenRecord {
    pub open spec fn wf(&self) -> bool {
        &&& self.next_approval_id >= 1
        &&& ids_below(approvals_view(self.approvals@), self.next_approval_id)
        &&& delegates_unique(approvals_view(self.approvals@))
    }
}

/// A token as handed out to callers.
#[derive(Clone, Debug)]
pub struct Token {
    pub token_id: u64,
    pub owner_id: String,
    pub metadata: TokenMetadata,
    pub redeemed: bool,
    pub approved_account_ids: Vec<(String, u64)>,
}

/// What a successful purchase hands back: the new token, the price charged and
/// the part of the deposit owed back to the buyer.
#[derive(Debug)]
pub struct Purchase {
    pub token: Token,
    pub price_charged: u128,
    pub refund: u128,
}

/// What a transfer with payout hands back: the split of the sale amount, the
/// seller, and the approvals the transfer released.
pub struct Settlement {
    pub payout: Payout,
    pub seller: String,
    pub released: Vec<(String, u64)>,
}

/// The ledger: tokens `1..=minted_tokens`, token `k` stored at index `k - 1`.
pub struct Contract {
    pub owner_id: String,
    pub metadata: NFTContractMetadata,
    pub token_metadata: TokenMetadata,
    pub tokens: Vec<TokenRecord>,
    pub minted_tokens: u64,
    pub supply_cap: u64,
    pub minting_price: u128,
    /// Beneficiary and share in basis points, set once at initialization.
    pub perpetual_royalties: Vec<(String, u32)>,
}

/// `m` is the metadata of the default collection.
pub open spec fn is_default_collection(m: NFTContractMetadata) -> bool {
    &&& m.spec@ == NFT_METADATA_SPEC@
    &&& m.name@ == "Example NEAR non-fungible token"@
    &&& m.symbol@ == "EXAMPLE"@
    &&& m.icon matches Some(i) && i@ == DATA_IMAGE_SVG_NEAR_ICON@
    &&& m.base_uri is None
    &&& m.reference is None
    &&& m.reference_hash is None
}

/// `m` is the token template of the default collection.
pub open spec fn is_default_template(m: TokenMetadata) -> bool {
    &&& m.title matches Some(t) && t@ == DEFAULT_TITLE@
    &&& m.description is None
    &&& m.media matches Some(u) && u@ == DEFAULT_MEDIA@
    &&& m.media_hash is None
    &&& m.copies == Some(DEFAULT_SUPPLY)
    &&& m.issued_at is None
    &&& m.expires_at is None
    &&& m.starts_at is None
    &&& m.updated_at is None
    &&& m.reference is None
    &&& m.reference_hash is None
}

/// A copy of an optional text.
fn copy_text(o: &Option<String>) -> (r: Option<String>)
    ensures
        r == *o,
{
    match o {
        Some(s) => Some(s.clone()),
        None => None,
    }
}

/// A field-by-field copy of token metadata.
pub fn copy_token_metadata(m: &TokenMetadata) -> (r: TokenMetadata)
    ensures
        r == *m,
{
    TokenMetadata {
        title: copy_text(&m.title),
        description: copy_text(&m.description),
        media: copy_text(&m.media),
        media_hash: copy_text(&m.media_hash),
        copies: m.copies,
        issued_at: copy_text(&m.issued_at),
        expires_at: copy_text(&m.expires_at),
        starts_at: copy_text(&m.starts_at),
        updated_at: copy_text(&m.updated_at),
        reference: copy_text(&m.reference),
        reference_hash: copy_text(&m.reference_hash),
    }
}

/// A field-by-field copy of collection metadata.
pub fn copy_contract_metadata(m: &NFTContractMetadata) -> (r: NFTContractMetadata)
    ensures
        r == *m,
{
    NFTContractMetadata {
        spec: m.spec.clone(),
        name: m.name.clone(),
        symbol: m.symbol.clone(),
        icon: copy_text(&m.icon),
        base_uri: copy_text(&m.base_uri),
        reference: copy_text(&m.reference),
        reference_hash: copy_text(&m.reference_hash),
    }
}

/// Ids of the tokens among `tokens` (token `k` at index `k - 1`) that `owner` holds,
/// in increasing order.
pub open spec fn owned_ids(tokens: Seq<TokenRecord>, owner: Seq<char>) -> Seq<u64>
    decreases tokens.len(),
{
    if tokens.len() == 0 {
        Seq::empty()
    } else if tokens.last().owner_id@ == owner {
        owned_ids(tokens.drop_last(), owner).push(tokens.len() as u64)
    } else {
        owned_ids(tokens.drop_last(), owner)
    }
}

/// Who receives a bought token: the named receiver, else the buyer.
pub open spec fn receiver_of(caller: Seq<char>, receiver_id: Option<String>) -> Seq<char> {
    match receiver_id {
        Some(r) => r@,
        None => caller,
    }
}

/// The configuration of the ledger is the same in `a` and `b`.
pub open spec fn same_config(a: Contract, b: Contract) -> bool {
    &&& a.owner_id == b.owner_id
    &&& a.metadata == b.metadata
    &&& a.token_metadata == b.token_metadata
    &&& a.supply_cap == b.supply_cap
    &&& a.minting_price == b.minting_price
    &&& a.perpetual_royalties == b.perpetual_royalties
}

/// `b` differs from `a` at most in the record of token `token_id`.
pub open spec fn only_token_changed(a: Contract, b: Contract, token_id: u64) -> bool {
    &&& same_config(a, b)
    &&& b.minted_tokens == a.minted_tokens
    &&& b.tokens.len() == a.tokens.len()
    &&& forall|k: int| 0 <= k < a.tokens.len() && k != token_id - 1 ==> #[trigger] b.tokens@[k] == a.tokens@[k]
}

/// Every token redeemed in `a` is still there and still redeemed in `b`.
pub open spec fn redeemed_kept(a: Contract, b: Contract) -> bool {
    forall|k: int|
        0 <= k < a.tokens.len() && #[trigger] a.tokens@[k].redeemed ==> k < b.tokens.len()
            && b.tokens@[k].redeemed
}

/// `b` keeps the owner, metadata and redemption state of `a`.
pub open spec fn same_holding(a: TokenRecord, b: TokenRecord) -> bool {
    &&& a.owner_id == b.owner_id
    &&& a.metadata == b.metadata
    &&& a.redeemed == b.redeemed
}

/// `b` is `a` after token `token_id` went to `receiver` with all its approvals cleared.
pub open spec fn transferred(a: Contract, b: Contract, token_id: u64, receiver: Seq<char>) -> bool {
    &&& only_token_changed(a, b, token_id)
    &&& b.owner_of(token_id) == receiver
    &&& b.record(token_id).approvals@.len() == 0
    &&& b.record(token_id).next_approval_id == a.record(token_id).next_approval_id
    &&& b.record(token_id).metadata == a.record(token_id).metadata
    &&& b.record(token_id).redeemed == a.record(token_id).redeemed
}

/// What a call of `redeem_nft` by `caller` on token `token_id` did, taking `before` to `after`.
pub open spec fn redeem_outcome(
    before: Contract,
    after: Contract,
    caller: Seq<char>,
    token_id: u64,
    r: Result<Token, NftError>,
) -> bool {
    &&& before.owner_verdict(caller, token_id) matches Err(e) ==> r == Err::<Token, NftError>(e)
    &&& before.owner_verdict(caller, token_id) is Ok && before.record(token_id).redeemed ==> r
        == Err::<Token, NftError>(NftError::AlreadyRedeemed)
    &&& r is Err ==> after == before
    &&& before.owner_verdict(caller, token_id) is Ok && !before.record(token_id).redeemed ==> {
        &&& r is Ok
        &&& only_token_changed(before, after, token_id)
        &&& after.record(token_id).redeemed
        &&& after.record(token_id).owner_id == before.record(token_id).owner_id
        &&& after.record(token_id).metadata == before.record(token_id).metadata
        &&& approvals_view(after.record(token_id).approvals@) == approvals_view(before.record(token_id).approvals@)
        &&& after.record(token_id).next_approval_id == before.record(token_id).next_approval_id
        &&& after.shows(r->Ok_0, token_id)
    }
}

impl Contract {
    pub open spec fn wf(&self) -> bool {
        &&& self.tokens.len() == self.minted_tokens
        &&& self.minted_tokens <= self.supply_cap
        &&& self.token_metadata.copies == Some(self.supply_cap)
        &&& total_bp(self.perpetual_royalties@) <= 10000
        &&& keys_unique(self.perpetual_royalties@)
        &&& forall|k: int| 0 <= k < self.tokens.len() ==> #[trigger] self.tokens@[k].wf()
    }

    pub open spec fn has_token(&self, token_id: u64) -> bool {
        1 <= token_id <= self.tokens.len()
    }

    pub open spec fn record(&self, token_id: u64) -> TokenRecord {
        self.tokens@[token_id - 1]
    }

    pub open spec fn owner_of(&self, token_id: u64) -> Seq<char> {
        self.record(token_id).owner_id@
    }

    /// The approval id `delegate` holds on the token; 0 when it holds none.
    pub open spec fn approval_of(&self, token_id: u64, delegate: Seq<char>) -> u64 {
        approval_id_of(approvals_view(self.record(token_id).approvals@), delegate)
    }

    /// `delegate` holds a current approval on the token, with id `approval_id` when one is given.
    pub open spec fn approved(&self, token_id: u64, delegate: Seq<char>, approval_id: Option<u64>) -> bool {
        &&& self.has_token(token_id)
        &&& self.approval_of(token_id, delegate) != 0
        &&& match approval_id {
            Some(a) => a == self.approval_of(token_id, delegate),
            None => true,
        }
    }

    /// `sender` may move the token: it owns it, or holds a matching approval.
    pub open spec fn may_transfer(&self, token_id: u64, sender: Seq<char>, approval_id: Option<u64>) -> bool {
        self.owner_of(token_id) == sender || self.approved(token_id, sender, approval_id)
    }

    /// The refusal, if any, of an operation that only the owner `caller` of the token may make.
    pub open spec fn owner_verdict(&self, caller: Seq<char>, token_id: u64) -> Result<(), NftError> {
        if !self.has_token(token_id) {
            Err(NftError::TokenNotFound)
        } else if self.owner_of(token_id) != caller {
            Err(NftError::NotOwner)
        } else {
            Ok(())
        }
    }

    /// The refusal, if any, of moving the token from `sender` to `receiver`.
    pub open spec fn transfer_verdict(
        &self,
        sender: Seq<char>,
        receiver: Seq<char>,
        token_id: u64,
        approval_id: Option<u64>,
    ) -> Result<(), NftError> {
        if !self.has_token(token_id) {
            Err(NftError::TokenNotFound)
        } else if !self.may_transfer(token_id, sender, approval_id) {
            Err(NftError::NotOwnerOrApproved)
        } else if self.owner_of(token_id) == receiver {
            Err(NftError::SameOwner)
        } else {
            Ok(())
        }
    }

    /// `t` shows the record of token `token_id`.
    pub open spec fn shows(&self, t: Token, token_id: u64) -> bool {
        &&& t.token_id == token_id
        &&& t.owner_id == self.record(token_id).owner_id
        &&& t.metadata == self.record(token_id).metadata
        &&& t.redeemed == self.record(token_id).redeemed
        &&& approvals_view(t.approved_account_ids@) == approvals_view(self.record(token_id).approvals@)
    }

    /// A ledger with no tokens, owned by `owner_id`, selling `token_metadata.copies`
    /// tokens at `minting_price` each and paying `perpetual_royalties` on every sale.
    /// A royalty table whose shares exceed the whole is refused.
    pub fn new(
        owner_id: String,
        metadata: NFTContractMetadata,
        token_metadata: TokenMetadata,
        minting_price: u128,
        perpetual_royalties: Option<Vec<(String, u32)>>,
    ) -> (r: Result<Contract, NftError>)
        requires
            token_metadata.copies is Some,
            perpetual_royalties matches Some(t) ==> keys_unique(t@),
        ensures
            (perpetual_royalties matches Some(t) && total_bp(t@) > 10000) <==> r is Err,
            r is Err ==> r == Err::<Contract, NftError>(NftError::InvariantViolation),
            r matches Ok(c) ==> {
                &&& c.wf()
                &&& c.owner_id == owner_id
                &&& c.metadata == metadata
                &&& c.token_metadata == token_metadata
                &&& c.minted_tokens == 0
                &&& token_metadata.copies == Some(c.supply_cap)
                &&& c.minting_price == minting_price
                &&& c.perpetual_royalties@ == match perpetual_royalties {
                    Some(t) => t@,
                    None => Seq::empty(),
                }
            },
    {
        let supply_cap = match token_metadata.copies {
            Some(c) => c,
            None => 0,
        };
        let royalties = match perpetual_royalties {
            Some(t) => t,
            None => Vec::new(),
        };
        if !shares_within_whole(&royalties) {
            return Err(NftError::InvariantViolation);
        }
        Ok(
            Contract {
                owner_id,
                metadata,
                token_metadata,
                tokens: Vec::new(),
                minted_tokens: 0,
                supply_cap,
                minting_price,
                perpetual_royalties: royalties,
            },
        )
    }

    /// The default collection: a hundred tickets at one whole unit each, no royalties.
    pub fn new_default_meta(owner_id: String) -> (r: Contract)
        ensures
            r.wf(),
            r.owner_id == owner_id,
            is_default_collection(r.metadata),
            is_default_template(r.token_metadata),
            r.tokens@.len() == 0,
            r.minted_tokens == 0,
            r.supply_cap == DEFAULT_SUPPLY,
            r.minting_price == DEFAULT_MINTING_PRICE,
            r.perpetual_royalties@.len() == 0,
    {
        Contract {
            owner_id,
            metadata: NFTContractMetadata {
                spec: NFT_METADATA_SPEC.to_owned(),
                name: "Example NEAR non-fungible token".to_owned(),
                symbol: "EXAMPLE".to_owned(),
                icon: Some(DATA_IMAGE_SVG_NEAR_ICON.to_owned()),
                base_uri: None,
                reference: None,
                reference_hash: None,
            },
            token_metadata: TokenMetadata {
                title: Some(DEFAULT_TITLE.to_owned()),
                description: None,
                media: Some(DEFAULT_MEDIA.to_owned()),
                media_hash: None,
                copies: Some(DEFAULT_SUPPLY),
                issued_at: None,
                expires_at: None,
                starts_at: None,
                updated_at: None,
                reference: None,
                reference_hash: None,
            },
            tokens: Vec::new(),
            minted_tokens: 0,
            supply_cap: DEFAULT_SUPPLY,
            minting_price: DEFAULT_MINTING_PRICE,
            perpetual_royalties: Vec::new(),
        }
    }

    /// Metadata of the collection.
    pub fn nft_metadata(&self) -> (r: NFTContractMetadata)
        ensures
            r == self.metadata,
    {
        copy_contract_metadata(&self.metadata)
    }

    /// Number of tokens that can still be minted.
    pub fn tokens_left(&self) -> (r: u64)
        requires
            self.wf(),
        ensures
            r == self.supply_cap - self.minted_tokens,
    {
        self.supply_cap - self.minted_tokens
    }

    /// Number of tokens minted so far.
    pub fn nft_total_supply(&self) -> (r: u64)
        ensures
            r == self.minted_tokens,
    {
        self.minted_tokens
    }

    /// Ids of the tokens `owner` holds, in increasing order.
    pub fn nft_tokens_for_owner(&self, owner: &String) -> (r: Vec<u64>)
        requires
            self.wf(),
        ensures
            r@ == owned_ids(self.tokens@, owner@),
    {
        let mut r: Vec<u64> = Vec::new();
        let mut i: usize = 0;
        while i < self.tokens.len()
            invariant
                i <= self.tokens.len(),
                self.tokens.len() == self.minted_tokens,
                r@ == owned_ids(self.tokens@.take(i as int), owner@),
            decreases self.tokens.len() - i,
        {
            assert(self.tokens@.take(i + 1).drop_last() =~= self.tokens@.take(i as int));
            if self.tokens[i].owner_id == *owner {
                r.push((i + 1) as u64);
            }
            i = i + 1;
        }
        assert(self.tokens@.take(self.tokens.len() as int) =~= self.tokens@);
        r
    }

    /// Number of tokens `owner` holds.
    pub fn nft_supply_for_owner(&self, owner: &String) -> (r: u64)
        requires
            self.wf(),
        ensures
            r == owned_ids(self.tokens@, owner@).len(),
    {
        let ids = self.nft_tokens_for_owner(owner);
        proof {
            lemma_owned_ids_len(self.tokens@, owner@);
        }
        ids.len() as u64
    }

    /// Ids of at most `limit` tokens, in increasing order, skipping the first
    /// `from_index` tokens.
    pub fn nft_token_ids(&self, from_index: u64, limit: u64) -> (r: Vec<u64>)
        requires
            self.wf(),
        ensures
            r@.len() == if from_index >= self.minted_tokens {
                0
            } else if limit < self.minted_tokens - from_index {
                limit as int
            } else {
                self.minted_tokens - from_index
            },
            forall|k: int| 0 <= k < r@.len() ==> #[trigger] r@[k] == from_index + 1 + k,
    {
        let mut r: Vec<u64> = Vec::new();
        if from_index >= self.minted_tokens {
            return r;
        }
        let end: u64 = if limit < self.minted_tokens - from_index {
            from_index + limit
        } else {
            self.minted_tokens
        };
        let mut id: u64 = from_index;
        while id < end
            invariant
                from_index <= id <= end,
                end <= self.minted_tokens,
                r@.len() == id - from_index,
                forall|k: int| 0 <= k < r@.len() ==> #[trigger] r@[k] == from_index + 1 + k,
            decreases end - id,
        {
            r.push(id + 1);
            id = id + 1;
        }
        r
    }

    /// The token as handed out for the record `rec` of token `token_id`.
    fn token_of(token_id: u64, rec: &TokenRecord) -> (t: Token)
        ensures
            t.token_id == token_id,
            t.owner_id == rec.owner_id,
            t.metadata == rec.metadata,
            t.redeemed == rec.redeemed,
            approvals_view(t.approved_account_ids@) == approvals_view(rec.approvals@),
    {
        Token {
            token_id,
            owner_id: rec.owner_id.clone(),
            metadata: copy_token_metadata(&rec.metadata),
            redeemed: rec.redeemed,
            approved_account_ids: copy_approvals(&rec.approvals),
        }
    }

    /// Looks a token up.
    pub fn nft_token(&self, token_id: u64) -> (r: Option<Token>)
        requires
            self.wf(),
        ensures
            r is None <==> !self.has_token(token_id),
            r matches Some(t) ==> self.shows(t, token_id),
    {
        if token_id >= 1 && token_id <= self.tokens.len() as u64 {
            Some(Contract::token_of(token_id, &self.tokens[(token_id - 1) as usize]))
        } else {
            None
        }
    }

    /// Puts `rec` in place of the record of token `token_id`, handing back the one it replaces.
    fn swap_record(&mut self, token_id: u64, rec: TokenRecord) -> (prev: TokenRecord)
        requires
            old(self).wf(),
            old(self).has_token(token_id),
            rec.wf(),
        ensures
            final(self).wf(),
            only_token_changed(*old(self), *final(self), token_id),
            final(self).record(token_id) == rec,
            prev == old(self).record(token_id),
    {
        let mut slot = rec;
        self.tokens.set_and_swap((token_id - 1) as usize, &mut slot);
        slot
    }

    /// Mints the next token for `receiver_id`, or for the buyer `caller` when none is
    /// named, against a payment of `attached_deposit`. The new token has id
    /// `minted_tokens + 1`, the collection's metadata, no approvals and is not
    /// redeemed; the buyer is charged the minting price and owed the rest back.
    pub fn nft_buy(&mut self, caller: String, attached_deposit: u128, receiver_id: Option<String>) -> (r: Result<Purchase, NftError>)
        requires
            old(self).wf(),
        ensures
            final(self).wf(),
            redeemed_kept(*old(self), *final(self)),
            old(self).minted_tokens >= old(self).supply_cap ==> r == Err::<Purchase, NftError>(NftError::SoldOut),
            old(self).minted_tokens < old(self).supply_cap && attached_deposit < old(self).minting_price
                ==> r == Err::<Purchase, NftError>(NftError::InsufficientPayment),
            r is Err ==> *final(self) == *old(self),
            old(self).minted_tokens < old(self).supply_cap && attached_deposit >= old(self).minting_price
                ==> r is Ok,
            r matches Ok(p) ==> {
                &&& p.token.token_id == old(self).minted_tokens + 1
                &&& !old(self).has_token(p.token.token_id)
                &&& final(self).has_token(p.token.token_id)
                &&& same_config(*old(self), *final(self))
                &&& final(self).minted_tokens == old(self).minted_tokens + 1
                &&& final(self).tokens@.drop_last() == old(self).tokens@
                &&& final(self).owner_of(p.token.token_id) == receiver_of(caller@, receiver_id)
                &&& final(self).record(p.token.token_id).metadata == old(self).token_metadata
                &&& !final(self).record(p.token.token_id).redeemed
                &&& final(self).record(p.token.token_id).approvals@.len() == 0
                &&& final(self).record(p.token.token_id).next_approval_id == 1
                &&& final(self).shows(p.token, p.token.token_id)
                &&& p.price_charged == old(self).minting_price
                &&& p.refund == attached_deposit - old(self).minting_price
            },
    {
        if self.minted_tokens >= self.supply_cap {
            return Err(NftError::SoldOut);
        }
        if attached_deposit < self.minting_price {
            return Err(NftError::InsufficientPayment);
        }
        let owner = match receiver_id {
            Some(r) => r,
            None => caller,
        };
        let token_id = self.minted_tokens + 1;
        let rec = TokenRecord {
            owner_id: owner,
            metadata: copy_token_metadata(&self.token_metadata),
            redeemed: false,
            approvals: Vec::new(),
            next_approval_id: 1,
        };
        assert(approvals_view(rec.approvals@) =~= Seq::<(Seq<char>, u64)>::empty());
        let token = Contract::token_of(token_id, &rec);
        self.tokens.push(rec);
        self.minted_tokens = token_id;
        assert(self.tokens@.drop_last() =~= old(self).tokens@);
        assert(self.tokens@[token_id - 1].wf());
        Ok(
            Purchase {
                token,
                price_charged: self.minting_price,
                refund: attached_deposit - self.minting_price,
            },
        )
    }

    /// Why `caller` may not make an owner-only change to token `token_id`, if it may not.
    pub fn check_owner(&self, caller: &String, token_id: u64) -> (r: Result<(), NftError>)
        requires
            self.wf(),
        ensures
            r == self.owner_verdict(caller@, token_id),
    {
        if token_id < 1 || token_id > self.tokens.len() as u64 {
            return Err(NftError::TokenNotFound);
        }
        if self.tokens[(token_id - 1) as usize].owner_id != *caller {
            return Err(NftError::NotOwner);
        }
        Ok(())
    }

    /// Why `sender_id` may not move token `token_id` to `receiver_id`, if it may not.
    pub fn check_transfer(
        &self,
        sender_id: &String,
        receiver_id: &String,
        token_id: u64,
        approval_id: Option<u64>,
    ) -> (r: Result<(), NftError>)
        requires
            self.wf(),
        ensures
            r == self.transfer_verdict(sender_id@, receiver_id@, token_id, approval_id),
    {
        if token_id < 1 || token_id > self.tokens.len() as u64 {
            return Err(NftError::TokenNotFound);
        }
        let rec = &self.tokens[(token_id - 1) as usize];
        if rec.owner_id != *sender_id {
            let held = find_approval(&rec.approvals, sender_id);
            let id_matches = match approval_id {
                Some(a) => a == held,
                None => true,
            };
            if held == 0 || !id_matches {
                return Err(NftError::NotOwnerOrApproved);
            }
        }
        if rec.owner_id == *receiver_id {
            return Err(NftError::SameOwner);
        }
        Ok(())
    }

    /// Moves token `token_id` to `receiver_id` and clears its approvals; hands back
    /// the previous owner and approvals.
    fn apply_transfer(&mut self, receiver_id: &String, token_id: u64) -> (r: (String, Vec<(String, u64)>))
        requires
            old(self).wf(),
            old(self).has_token(token_id),
        ensures
            final(self).wf(),
            redeemed_kept(*old(self), *final(self)),
            transferred(*old(self), *final(self), token_id, receiver_id@),
            r.0 == old(self).record(token_id).owner_id,
            r.1 == old(self).record(token_id).approvals,
            forall|d: Seq<char>, a: Option<u64>| !#[trigger] final(self).approved(token_id, d, a),
    {
        let rec = &self.tokens[(token_id - 1) as usize];
        let moved = TokenRecord {
            owner_id: receiver_id.clone(),
            metadata: copy_token_metadata(&rec.metadata),
            redeemed: rec.redeemed,
            approvals: Vec::new(),
            next_approval_id: rec.next_approval_id,
        };
        assert(approvals_view(moved.approvals@) =~= Seq::<(Seq<char>, u64)>::empty());
        assert(old(self).tokens@[token_id - 1].wf());
        let prev = self.swap_record(token_id, moved);
        (prev.owner_id, prev.approvals)
    }

    /// Moves token `token_id` from its owner to `receiver_id` at the request of
    /// `sender_id`, the owner or an approved delegate (holding `approval_id` when one
    /// is given). All approvals of the token are cleared; the previous owner and
    /// approvals are handed back.
    pub fn internal_transfer(
        &mut self,
        sender_id: &String,
        receiver_id: &String,
        token_id: u64,
        approval_id: Option<u64>,
    ) -> (r: Result<(String, Vec<(String, u64)>), NftError>)
        requires
            old(self).wf(),
        ensures
            final(self).wf(),
            redeemed_kept(*old(self), *final(self)),
            old(self).transfer_verdict(sender_id@, receiver_id@, token_id, approval_id) matches Err(e)
                ==> r == Err::<(String, Vec<(String, u64)>), NftError>(e) && *final(self) == *old(self),
            old(self).transfer_verdict(sender_id@, receiver_id@, token_id, approval_id) is Ok ==> {
                &&& r is Ok
                &&& r->Ok_0.0 == old(self).record(token_id).owner_id
                &&& r->Ok_0.1 == old(self).record(token_id).approvals
                &&& transferred(*old(self), *final(self), token_id, receiver_id@)
                &&& forall|d: Seq<char>, a: Option<u64>| !#[trigger] final(self).approved(token_id, d, a)
            },
    {
        match self.check_transfer(sender_id, receiver_id, token_id, approval_id) {
            Err(e) => Err(e),
            Ok(()) => Ok(self.apply_transfer(receiver_id, token_id)),
        }
    }

    /// `internal_transfer` for callers that need nothing back; the memo is not recorded.
    pub fn nft_transfer(
        &mut self,
        sender_id: &String,
        receiver_id: &String,
        token_id: u64,
        approval_id: Option<u64>,
        _memo: Option<String>,
    ) -> (r: Result<(), NftError>)
        requires
            old(self).wf(),
        ensures
            final(self).wf(),
            redeemed_kept(*old(self), *final(self)),
            r == old(self).transfer_verdict(sender_id@, receiver_id@, token_id, approval_id),
            r is Err ==> *final(self) == *old(self),
            r is Ok ==> transferred(*old(self), *final(self), token_id, receiver_id@),
            r is Ok ==> forall|d: Seq<char>, a: Option<u64>| !#[trigger] final(self).approved(token_id, d, a),
    {
        match self.internal_transfer(sender_id, receiver_id, token_id, approval_id) {
            Err(e) => Err(e),
            Ok(_) => Ok(()),
        }
    }

    /// Whether `approved_account_id` holds a current approval on token `token_id`,
    /// with id `approval_id` when one is given.
    pub fn nft_is_approved(&self, token_id: u64, approved_account_id: &String, approval_id: Option<u64>) -> (r: bool)
        requires
            self.wf(),
        ensures
            r == self.approved(token_id, approved_account_id@, approval_id),
    {
        if token_id < 1 || token_id > self.tokens.len() as u64 {
            return false;
        }
        let held = find_approval(&self.tokens[(token_id - 1) as usize].approvals, approved_account_id);
        if held == 0 {
            return false;
        }
        match approval_id {
            Some(a) => a == held,
            None => true,
        }
    }

    /// The owner `caller` approves `account_id` on token `token_id` under a fresh
    /// approval id, the token's next one, which replaces any it held before.
    pub fn nft_approve(&mut self, caller: &String, token_id: u64, account_id: &String) -> (r: Result<u64, NftError>)
        requires
            old(self).wf(),
        ensures
            final(self).wf(),
            redeemed_kept(*old(self), *final(self)),
            old(self).owner_verdict(caller@, token_id) matches Err(e) ==> r == Err::<u64, NftError>(e),
            old(self).owner_verdict(caller@, token_id) is Ok && old(self).record(token_id).next_approval_id
                == u64::MAX ==> r == Err::<u64, NftError>(NftError::InvariantViolation),
            r is Err ==> *final(self) == *old(self),
            old(self).owner_verdict(caller@, token_id) is Ok && old(self).record(token_id).next_approval_id
                < u64::MAX ==> {
                &&& r == Ok::<u64, NftError>(old(self).record(token_id).next_approval_id)
                &&& forall|d: Seq<char>| #[trigger] old(self).approval_of(token_id, d) < r->Ok_0
                &&& only_token_changed(*old(self), *final(self), token_id)
                &&& same_holding(old(self).record(token_id), final(self).record(token_id))
                &&& final(self).record(token_id).next_approval_id == old(self).record(token_id).next_approval_id + 1
                &&& forall|d: Seq<char>| #[trigger] final(self).approval_of(token_id, d) == if d == account_id@ {
                    old(self).record(token_id).next_approval_id
                } else {
                    old(self).approval_of(token_id, d)
                }
            },
    {
        match self.check_owner(caller, token_id) {
            Err(e) => {
                return Err(e);
            },
            Ok(()) => {},
        }
        let rec = &self.tokens[(token_id - 1) as usize];
        let next_approval_id = rec.next_approval_id;
        if next_approval_id == u64::MAX {
            return Err(NftError::InvariantViolation);
        }
        assert(rec.wf());
        assert forall|d: Seq<char>| #[trigger] old(self).approval_of(token_id, d) < next_approval_id by {
            lemma_approval_id_below(approvals_view(rec.approvals@), next_approval_id, d);
        }
        let mut kept = without_delegate(&rec.approvals, account_id, Ghost(next_approval_id));
        let ghost before_push = kept@;
        kept.push((account_id.clone(), next_approval_id));
        proof {
            let v = approvals_view(kept@);
            assert(v =~= approvals_view(before_push).push((account_id@, next_approval_id)));
            assert forall|d: Seq<char>| #[trigger] approval_id_of(v, d) == if d == account_id@ {
                next_approval_id
            } else {
                approval_id_of(approvals_view(rec.approvals@), d)
            } by {
                lemma_approval_id_push(approvals_view(before_push), (account_id@, next_approval_id), d);
            }
            assert forall|k: int| 0 <= k < v.len() implies 1 <= #[trigger] v[k].1 < next_approval_id + 1 by {
                if k < v.len() - 1 {
                    assert(v[k] == approvals_view(before_push)[k]);
                }
            }
            assert forall|i: int, j: int| 0 <= i < j < v.len() implies #[trigger] v[i].0 != #[trigger] v[j].0 by {
                if j == v.len() - 1 {
                    assert(before_push[i].0@ != account_id@);
                } else {
                    assert(v[i] == approvals_view(before_push)[i]);
                    assert(v[j] == approvals_view(before_push)[j]);
                }
            }
        }
        let updated = TokenRecord {
            owner_id: rec.owner_id.clone(),
            metadata: copy_token_metadata(&rec.metadata),
            redeemed: rec.redeemed,
            approvals: kept,
            next_approval_id: next_approval_id + 1,
        };
        let _ = self.swap_record(token_id, updated);
        Ok(next_approval_id)
    }

    /// The owner `caller` withdraws the approval of `account_id` on token `token_id`.
    pub fn nft_revoke(&mut self, caller: &String, token_id: u64, account_id: &String) -> (r: Result<(), NftError>)
        requires
            old(self).wf(),
        ensures
            final(self).wf(),
            redeemed_kept(*old(self), *final(self)),
            r == old(self).owner_verdict(caller@, token_id),
            r is Err ==> *final(self) == *old(self),
            r is Ok ==> {
                &&& only_token_changed(*old(self), *final(self), token_id)
                &&& same_holding(old(self).record(token_id), final(self).record(token_id))
                &&& final(self).record(token_id).next_approval_id == old(self).record(token_id).next_approval_id
                &&& forall|d: Seq<char>| #[trigger] final(self).approval_of(token_id, d) == if d == account_id@ {
                    0
                } else {
                    old(self).approval_of(token_id, d)
                }
            },
    {
        match self.check_owner(caller, token_id) {
            Err(e) => {
                return Err(e);
            },
            Ok(()) => {},
        }
        let rec = &self.tokens[(token_id - 1) as usize];
        assert(rec.wf());
        let updated = TokenRecord {
            owner_id: rec.owner_id.clone(),
            metadata: copy_token_metadata(&rec.metadata),
            redeemed: rec.redeemed,
            approvals: without_delegate(&rec.approvals, account_id, Ghost(rec.next_approval_id)),
            next_approval_id: rec.next_approval_id,
        };
        let _ = self.swap_record(token_id, updated);
        Ok(())
    }

    /// The owner `caller` withdraws every approval on token `token_id`.
    pub fn nft_revoke_all(&mut self, caller: &String, token_id: u64) -> (r: Result<(), NftError>)
        requires
            old(self).wf(),
        ensures
            final(self).wf(),
            redeemed_kept(*old(self), *final(self)),
            r == old(self).owner_verdict(caller@, token_id),
            r is Err ==> *final(self) == *old(self),
            r is Ok ==> {
                &&& only_token_changed(*old(self), *final(self), token_id)
                &&& same_holding(old(self).record(token_id), final(self).record(token_id))
                &&& final(self).record(token_id).next_approval_id == old(self).record(token_id).next_approval_id
                &&& final(self).record(token_id).approvals@.len() == 0
            },
    {
        match self.check_owner(caller, token_id) {
            Err(e) => {
                return Err(e);
            },
            Ok(()) => {},
        }
        let rec = &self.tokens[(token_id - 1) as usize];
        assert(rec.wf());
        let updated = TokenRecord {
            owner_id: rec.owner_id.clone(),
            metadata: copy_token_metadata(&rec.metadata),
            redeemed: rec.redeemed,
            approvals: Vec::new(),
            next_approval_id: rec.next_approval_id,
        };
        assert(approvals_view(updated.approvals@) =~= Seq::<(Seq<char>, u64)>::empty());
        let _ = self.swap_record(token_id, updated);
        Ok(())
    }

    /// The owner `caller` marks token `token_id` redeemed; a token is redeemed once.
    pub fn redeem_nft(&mut self, caller: &String, token_id: u64) -> (r: Result<Token, NftError>)
        requires
            old(self).wf(),
        ensures
            final(self).wf(),
            redeemed_kept(*old(self), *final(self)),
            redeem_outcome(*old(self), *final(self), caller@, token_id, r),
    {
        match self.check_owner(caller, token_id) {
            Err(e) => {
                return Err(e);
            },
            Ok(()) => {},
        }
        let rec = &self.tokens[(token_id - 1) as usize];
        if rec.redeemed {
            return Err(NftError::AlreadyRedeemed);
        }
        assert(rec.wf());
        let updated = TokenRecord {
            owner_id: rec.owner_id.clone(),
            metadata: copy_token_metadata(&rec.metadata),
            redeemed: true,
            approvals: copy_approvals(&rec.approvals),
            next_approval_id: rec.next_approval_id,
        };
        let token = Contract::token_of(token_id, &updated);
        let _ = self.swap_record(token_id, updated);
        Ok(token)
    }

    /// How a sale of token `token_id` for `balance` is split between the royalty
    /// beneficiaries and the token's owner, for a market that pays at most
    /// `max_len_payout` accounts.
    pub fn nft_payout(&self, token_id: u64, balance: u128, max_len_payout: u32) -> (r: Result<Payout, NftError>)
        requires
            self.wf(),
        ensures
            !self.has_token(token_id) ==> r == Err::<Payout, NftError>(NftError::TokenNotFound),
            self.has_token(token_id) && self.perpetual_royalties.len() > max_len_payout ==> r
                == Err::<Payout, NftError>(NftError::TooManyBeneficiaries),
            self.has_token(token_id) && self.perpetual_royalties.len() <= max_len_payout ==> r is Ok
                && r->Ok_0.entries() == payout_entries(
                self.perpetual_royalties@,
                self.owner_of(token_id),
                balance as int,
            ),
    {
        if token_id < 1 || token_id > self.tokens.len() as u64 {
            return Err(NftError::TokenNotFound);
        }
        if self.perpetual_royalties.len() > max_len_payout as usize {
            return Err(NftError::TooManyBeneficiaries);
        }
        Ok(split_royalties(&self.perpetual_royalties, &self.tokens[(token_id - 1) as usize].owner_id, balance))
    }

    /// Moves token `token_id` to `receiver_id` as `nft_transfer` does, with approval
    /// id `approval_id`, and reports how `balance` is split between the royalty
    /// beneficiaries and the seller, the owner before the move, together with the
    /// approvals the move released. Nothing changes when the payout would exceed
    /// `max_len_payout` accounts.
    pub fn nft_transfer_payout(
        &mut self,
        sender_id: &String,
        receiver_id: &String,
        token_id: u64,
        approval_id: u64,
        _memo: Option<String>,
        balance: u128,
        max_len_payout: u32,
    ) -> (r: Result<Settlement, NftError>)
        requires
            old(self).wf(),
        ensures
            final(self).wf(),
            redeemed_kept(*old(self), *final(self)),
            old(self).transfer_verdict(sender_id@, receiver_id@, token_id, Some(approval_id)) matches Err(e)
                ==> r == Err::<Settlement, NftError>(e),
            old(self).transfer_verdict(sender_id@, receiver_id@, token_id, Some(approval_id)) is Ok
                && old(self).perpetual_royalties.len() > max_len_payout ==> r == Err::<Settlement, NftError>(
                NftError::TooManyBeneficiaries,
            ),
            r is Err ==> *final(self) == *old(self),
            old(self).transfer_verdict(sender_id@, receiver_id@, token_id, Some(approval_id)) is Ok
                && old(self).perpetual_royalties.len() <= max_len_payout ==> {
                &&& r is Ok
                &&& r->Ok_0.payout.entries() == payout_entries(
                    old(self).perpetual_royalties@,
                    old(self).owner_of(token_id),
                    balance as int,
                )
                &&& r->Ok_0.seller == old(self).record(token_id).owner_id
                &&& r->Ok_0.released == old(self).record(token_id).approvals
                &&& transferred(*old(self), *final(self), token_id, receiver_id@)
                &&& forall|d: Seq<char>, a: Option<u64>| !#[trigger] final(self).approved(token_id, d, a)
            },
    {
        match self.check_transfer(sender_id, receiver_id, token_id, Some(approval_id)) {
            Err(e) => {
                return Err(e);
            },
            Ok(()) => {},
        }
        if self.perpetual_royalties.len() > max_len_payout as usize {
            return Err(NftError::TooManyBeneficiaries);
        }
        let (seller, released) = self.apply_transfer(receiver_id, token_id);
        let payout = split_royalties(&self.perpetual_royalties, &seller, balance);
        Ok(Settlement { payout, seller, released })
    }
}

proof fn lemma_owned_ids_len(tokens: Seq<TokenRecord>, owner: Seq<char>)
    ensures
        owned_ids(tokens, owner).len() <= tokens.len(),
    decreases tokens.len(),
{
    if tokens.len() > 0 {
        lemma_owned_ids_len(tokens.drop_last(), owner);
    }
}

/// Two lookups of the same token in the same ledger report the same single owner.
pub proof fn lemma_single_owner(c: Contract, token_id: u64, t1: Token, t2: Token)
    requires
        c.shows(t1, token_id),
        c.shows(t2, token_id),
    ensures
        t1.owner_id == t2.owner_id,
        t1.owner_id == c.record(token_id).owner_id,
{
}

/// Once a token has been redeemed, redeeming it again is refused with
/// `AlreadyRedeemed`: of two calls on the same token, at most the first succeeds.
pub proof fn lemma_redeem_once(
    c0: Contract,
    c1: Contract,
    c2: Contract,
    caller: Seq<char>,
    token_id: u64,
    r1: Result<Token, NftError>,
    r2: Result<Token, NftError>,
)
    requires
        redeem_outcome(c0, c1, caller, token_id, r1),
        redeem_outcome(c1, c2, caller, token_id, r2),
        r1 is Ok,
    ensures
        r2 == Err::<Token, NftError>(NftError::AlreadyRedeemed),
        c2 == c1,
{
}

} // verus!
