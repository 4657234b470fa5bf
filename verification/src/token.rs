use vstd::prelude::*;

use crate::dec::Dec;
use crate::exception::Exception;
use crate::simulation::{validate_token, validate_token_v};
use crate::store::{MemoryStore, Resource, ResourceV};

verus! {

/// Latest unlock date the library accepts, in seconds since the Unix epoch:
/// the last second of year 9999, within what the engine's calendar holds.
pub const MAX_UNLOCK_DATE: i64 = 253402300799;

/// A scheduled event unlocking an amount of tokens at a date.
#[derive(Clone, Copy, PartialEq, Eq, Structural, Debug)]
pub struct Unlock {
    /// Date of the unlock, in seconds since the Unix epoch.
    pub date: i64,
    /// Amount of tokens unlocked.
    pub amount: Dec,
}

impl Unlock {
    /// Well-formedness: the amount is representable and the date lies in the
    /// supported window.
    pub open spec fn wf(self) -> bool {
        self.amount.wf() && 0 <= self.date <= MAX_UNLOCK_DATE
    }
}

/// A token definition: the domain record the gateway validates, caches and
/// hands to the simulation engine.
#[derive(PartialEq, Debug)]
pub struct TokenRecord {
    /// Identity, assigned at creation.
    pub id: u128,
    /// Human-readable name.
    pub name: String,
    /// Short ticker symbol.
    pub symbol: String,
    /// Maximum number of tokens that can ever exist.
    pub total_supply: Dec,
    /// Number of tokens minted or airdropped so far.
    pub current_supply: Dec,
    /// Tokens minted at the start, in percent of the total supply.
    pub initial_supply_percentage: Dec,
    /// Annual increase in supply, in percent, if inflationary.
    pub inflation_rate: Option<Dec>,
    /// Tokens burned per transaction, in percent, if deflationary.
    pub burn_rate: Option<Dec>,
    /// Price at the start of a simulation.
    pub initial_price: Dec,
    /// Share of the total supply airdropped at the start, in percent.
    pub airdrop_percentage: Option<Dec>,
    /// Scheduled unlock events.
    pub unlock_schedule: Option<Vec<Unlock>>,
}

/// Well-formedness of an optional decimal field.
pub open spec fn opt_dec_wf(d: Option<Dec>) -> bool {
    match d {
        Some(v) => v.wf(),
        None => true,
    }
}

/// Well-formedness of a sequence of unlock events.
pub open spec fn events_wf(v: Seq<Unlock>) -> bool {
    forall|i: int| 0 <= i < v.len() ==> (#[trigger] v[i]).wf()
}

/// Well-formedness of an optional unlock schedule.
pub open spec fn schedule_wf(s: Option<Vec<Unlock>>) -> bool {
    match s {
        Some(v) => events_wf(v@),
        None => true,
    }
}

/// The mathematical value of a token: its strings as character sequences.
#[verifier::ext_equal]
pub struct TokenV {
    /// Identity.
    pub id: u128,
    /// Name.
    pub name: Seq<char>,
    /// Symbol.
    pub symbol: Seq<char>,
    /// Total supply.
    pub total_supply: Dec,
    /// Current supply.
    pub current_supply: Dec,
    /// Initial supply percentage.
    pub initial_supply_percentage: Dec,
    /// Inflation rate.
    pub inflation_rate: Option<Dec>,
    /// Burn rate.
    pub burn_rate: Option<Dec>,
    /// Initial price.
    pub initial_price: Dec,
    /// Airdrop percentage.
    pub airdrop_percentage: Option<Dec>,
    /// Unlock schedule.
    pub unlock_schedule: Option<Seq<Unlock>>,
}

impl View for TokenRecord {
    type V = TokenV;

    open spec fn view(&self) -> TokenV {
        TokenV {
            id: self.id,
            name: self.name@,
            symbol: self.symbol@,
            total_supply: self.total_supply,
            current_supply: self.current_supply,
            initial_supply_percentage: self.initial_supply_percentage,
            inflation_rate: self.inflation_rate,
            burn_rate: self.burn_rate,
            initial_price: self.initial_price,
            airdrop_percentage: self.airdrop_percentage,
            unlock_schedule: match self.unlock_schedule {
                Some(v) => Some(v@),
                None => None,
            },
        }
    }
}

impl TokenV {
    /// Well-formedness of the mathematical token value.
    pub open spec fn wf(self) -> bool {
        &&& self.total_supply.wf()
        &&& self.current_supply.wf()
        &&& self.initial_supply_percentage.wf()
        &&& opt_dec_wf(self.inflation_rate)
        &&& opt_dec_wf(self.burn_rate)
        &&& self.initial_price.wf()
        &&& opt_dec_wf(self.airdrop_percentage)
        &&& (match self.unlock_schedule {
            Some(v) => events_wf(v),
            None => true,
        })
    }
}

impl TokenRecord {
    /// Well-formedness: every decimal field is representable and every
    /// unlock event is well-formed.
    pub open spec fn wf(self) -> bool {
        self@.wf()
    }

    /// An equal copy of this token.
    pub fn duplicate(&self) -> (r: TokenRecord)
        ensures
            r@ == self@,
    {
        TokenRecord {
            id: self.id,
            name: self.name.clone(),
            symbol: self.symbol.clone(),
            total_supply: self.total_supply,
            current_supply: self.current_supply,
            initial_supply_percentage: self.initial_supply_percentage,
            inflation_rate: self.inflation_rate,
            burn_rate: self.burn_rate,
            initial_price: self.initial_price,
            airdrop_percentage: self.airdrop_percentage,
            unlock_schedule: match &self.unlock_schedule {
                Some(v) => Some(copy_events(v)),
                None => None,
            },
        }
    }
}

/// An equal copy of an unlock schedule.
fn copy_events(v: &Vec<Unlock>) -> (r: Vec<Unlock>)
    ensures
        r@ == v@,
{
    let mut r: Vec<Unlock> = Vec::new();
    let mut i: usize = 0;
    while i < v.len()
        invariant
            i <= v.len(),
            r@ == v@.take(i as int),
        decreases v.len() - i,
    {
        r.push(v[i]);
        proof {
            assert(r@ =~= v@.take(i + 1));
        }
        i = i + 1;
    }
    proof {
        assert(v@.take(v.len() as int) =~= v@);
    }
    r
}

/// A partial token definition, as a create request carries it: every field
/// optional, each present field overriding a default.
#[derive(PartialEq, Debug)]
pub struct TokenInput {
    /// Name of the token, if given.
    pub name: Option<String>,
    /// Symbol of the token, if given.
    pub symbol: Option<String>,
    /// Total supply, if given.
    pub total_supply: Option<Dec>,
    /// Current supply, if given.
    pub current_supply: Option<Dec>,
    /// Initial supply percentage, if given.
    pub initial_supply_percentage: Option<Dec>,
    /// Inflation rate, if given.
    pub inflation_rate: Option<Dec>,
    /// Burn rate, if given.
    pub burn_rate: Option<Dec>,
    /// Initial price, if given.
    pub initial_price: Option<Dec>,
    /// Airdrop percentage, if given.
    pub airdrop_percentage: Option<Dec>,
    /// Unlock schedule, if given.
    pub unlock_schedule: Option<Vec<Unlock>>,
}

impl TokenInput {
    /// Well-formedness: every present decimal is representable and every
    /// given unlock event is well-formed.
    pub open spec fn wf(self) -> bool {
        &&& opt_dec_wf(self.total_supply)
        &&& opt_dec_wf(self.current_supply)
        &&& opt_dec_wf(self.initial_supply_percentage)
        &&& opt_dec_wf(self.inflation_rate)
        &&& opt_dec_wf(self.burn_rate)
        &&& opt_dec_wf(self.initial_price)
        &&& opt_dec_wf(self.airdrop_percentage)
        &&& schedule_wf(self.unlock_schedule)
    }

    /// An input with no field given: building from it yields the defaults.
    pub fn empty() -> (r: TokenInput)
        ensures
            r == (TokenInput {
                name: None,
                symbol: None,
                total_supply: None,
                current_supply: None,
                initial_supply_percentage: None,
                inflation_rate: None,
                burn_rate: None,
                initial_price: None,
                airdrop_percentage: None,
                unlock_schedule: None,
            }),
    {
        TokenInput {
            name: None,
            symbol: None,
            total_supply: None,
            current_supply: None,
            initial_supply_percentage: None,
            inflation_rate: None,
            burn_rate: None,
            initial_price: None,
            airdrop_percentage: None,
            unlock_schedule: None,
        }
    }
}

/// Default total supply: one million tokens.
pub open spec fn default_total_supply() -> Dec {
    Dec { mantissa: 1000000, scale: 0 }
}

/// Default current supply: zero.
pub open spec fn default_current_supply() -> Dec {
    Dec { mantissa: 0, scale: 0 }
}

/// Default initial supply percentage: the whole supply.
pub open spec fn default_initial_supply_percentage() -> Dec {
    Dec { mantissa: 100, scale: 0 }
}

/// Default initial price: one.
pub open spec fn default_initial_price() -> Dec {
    Dec { mantissa: 1, scale: 0 }
}

/// The mathematical value of a partial token input.
#[verifier::ext_equal]
pub struct TokenInputV {
    /// Name, if given.
    pub name: Option<Seq<char>>,
    /// Symbol, if given.
    pub symbol: Option<Seq<char>>,
    /// Total supply, if given.
    pub total_supply: Option<Dec>,
    /// Current supply, if given.
    pub current_supply: Option<Dec>,
    /// Initial supply percentage, if given.
    pub initial_supply_percentage: Option<Dec>,
    /// Inflation rate, if given.
    pub inflation_rate: Option<Dec>,
    /// Burn rate, if given.
    pub burn_rate: Option<Dec>,
    /// Initial price, if given.
    pub initial_price: Option<Dec>,
    /// Airdrop percentage, if given.
    pub airdrop_percentage: Option<Dec>,
    /// Unlock schedule, if given.
    pub unlock_schedule: Option<Seq<Unlock>>,
}

impl View for TokenInput {
    type V = TokenInputV;

    open spec fn view(&self) -> TokenInputV {
        TokenInputV {
            name: match self.name {
                Some(ref n) => Some(n@),
                None => None,
            },
            symbol: match self.symbol {
                Some(ref s) => Some(s@),
                None => None,
            },
            total_supply: self.total_supply,
            current_supply: self.current_supply,
            initial_supply_percentage: self.initial_supply_percentage,
            inflation_rate: self.inflation_rate,
            burn_rate: self.burn_rate,
            initial_price: self.initial_price,
            airdrop_percentage: self.airdrop_percentage,
            unlock_schedule: match self.unlock_schedule {
                Some(ref v) => Some(v@),
                None => None,
            },
        }
    }
}

/// The token that building from a partial input yields: each absent field
/// keeps the engine's default, each present field overrides it. No field
/// affects another's default, so the merge order is irrelevant.
pub open spec fn build_view(input: TokenInputV, id: u128) -> TokenV {
    TokenV {
        id,
        name: match input.name {
            Some(n) => n,
            None => "Token"@,
        },
        symbol: match input.symbol {
            Some(s) => s,
            None => "TKN"@,
        },
        total_supply: match input.total_supply {
            Some(d) => d,
            None => default_total_supply(),
        },
        current_supply: match input.current_supply {
            Some(d) => d,
            None => default_current_supply(),
        },
        initial_supply_percentage: match input.initial_supply_percentage {
            Some(d) => d,
            None => default_initial_supply_percentage(),
        },
        inflation_rate: input.inflation_rate,
        burn_rate: input.burn_rate,
        initial_price: match input.initial_price {
            Some(d) => d,
            None => default_initial_price(),
        },
        airdrop_percentage: input.airdrop_percentage,
        unlock_schedule: input.unlock_schedule,
    }
}

/// Build a token from a partial input, filling the engine's defaults.
pub fn build_token(input: TokenInput, id: u128) -> (t: TokenRecord)
    ensures
        t@ == build_view(input@, id),
{
    TokenRecord {
        id,
        name: match input.name {
            Some(n) => n,
            None => String::from_str("Token"),
        },
        symbol: match input.symbol {
            Some(s) => s,
            None => String::from_str("TKN"),
        },
        total_supply: match input.total_supply {
            Some(d) => d,
            None => Dec { mantissa: 1000000, scale: 0 },
        },
        current_supply: match input.current_supply {
            Some(d) => d,
            None => Dec { mantissa: 0, scale: 0 },
        },
        initial_supply_percentage: match input.initial_supply_percentage {
            Some(d) => d,
            None => Dec { mantissa: 100, scale: 0 },
        },
        inflation_rate: input.inflation_rate,
        burn_rate: input.burn_rate,
        initial_price: match input.initial_price {
            Some(d) => d,
            None => Dec { mantissa: 1, scale: 0 },
        },
        airdrop_percentage: input.airdrop_percentage,
        unlock_schedule: input.unlock_schedule,
    }
}

/// Relies on uuid's `Uuid::new_v4`: a freshly generated random identifier,
/// carried as its 128-bit value. Nothing is assumed of the value.
#[verifier::external_body]
fn fresh_id() -> u128 {
    uuid::Uuid::new_v4().as_u128()
}

/// The validation outcome of the token a partial input builds; the outcome
/// does not depend on the assigned identity.
pub open spec fn validate_input_v(input: TokenInputV) -> Option<Seq<char>> {
    validate_token_v(build_view(input, 0))
}

/// Create a token: build it from the partial input with defaults filled,
/// validate it, and cache it under its fresh identity with the given
/// time-to-live, in seconds.
pub fn create(store: &mut MemoryStore, input: TokenInput, ttl: u64) -> (r: Result<
    TokenRecord,
    Exception,
>)
    requires
        input.wf(),
    ensures
        match r {
            Ok(t) => {
                &&& t@ == build_view(input@, t@.id)
                &&& validate_input_v(input@) is None
                &&& final(store)@ == old(store)@.insert(
                    t@.id,
                    (ResourceV::TokenRecord(t@), Some(ttl)),
                )
            },
            Err(e) => {
                &&& final(store)@ == old(store)@
                &&& (e matches Exception::ValidationFailed(m) && Some(m@) == validate_input_v(
                    input@,
                ))
            },
        },
{
    let ghost iv = input@;
    let id = fresh_id();
    let token = build_token(input, id);
    proof {
        assert(validate_token_v(token@) == validate_input_v(iv));
    }
    if let Err(e) = validate_token(&token) {
        return Err(e);
    }
    let stored = token.duplicate();
    store.set(token.id, Resource::TokenRecord(stored), Some(ttl));
    Ok(token)
}

/// Get a cached token by id: absent ids report the token as not found; an
/// entry of the wrong kind cannot be read back as a token and reports an
/// internal error, as a cache entry that fails to deserialize does.
pub fn get<'a>(store: &'a MemoryStore, id: u128) -> (r: Result<&'a TokenRecord, Exception>)
    ensures
        match r {
            Ok(t) => store@.contains_key(id) && store@[id].0 == ResourceV::TokenRecord(t@),
            Err(e) => match e {
                Exception::TokenNotFound => !store@.contains_key(id),
                Exception::InternalError => store@.contains_key(id) && !(store@[id].0 is TokenRecord),
                _ => false,
            },
        },
{
    match store.get(id) {
        Some(resource) => match resource {
            Resource::TokenRecord(t) => Ok(t),
            Resource::Simulation(_) => Err(Exception::InternalError),
        },
        None => Err(Exception::TokenNotFound),
    }
}

/// Interpret how many entries a token delete removed: at least one means
/// the token was deleted; none means there was no token to delete.
pub fn removed_outcome(removed: u64) -> (r: Result<(), Exception>)
    ensures
        r is Ok <==> removed > 0,
        r matches Err(e) ==> e matches Exception::TokenNotFound,
{
    if removed > 0 {
        Ok(())
    } else {
        Err(Exception::TokenNotFound)
    }
}

/// Delete a cached token by id: the entry is removed if present; an id
/// holding nothing reports the token as not found.
pub fn delete(store: &mut MemoryStore, id: u128) -> (r: Result<(), Exception>)
    ensures
        final(store)@ == old(store)@.remove(id),
        r is Ok <==> old(store)@.contains_key(id),
        r matches Err(e) ==> e matches Exception::TokenNotFound,
{
    let removed = store.delete(id);
    if removed > 0 {
        Ok(())
    } else {
        Err(Exception::TokenNotFound)
    }
}

} // verus!
