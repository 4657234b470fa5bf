use vstd::prelude::*;

use crate::dec::Dec;
use crate::exception::Exception;
use crate::store::{MemoryStore, Resource, ResourceV};
use crate::token::{TokenRecord, TokenV};

verus! {

/// The interval a simulation steps by.
#[derive(Clone, Copy, PartialEq, Eq, Structural, Debug)]
pub enum Interval {
    /// One step per day.
    Daily,
    /// One step per hour.
    Hourly,
    /// One step per week.
    Weekly,
    /// One step per month.
    Monthly,
}

/// Input parameters for a simulation run.
#[derive(Clone, Copy, PartialEq, Eq, Structural, Debug)]
pub struct SimOptions {
    /// How many intervals the simulation runs for.
    pub duration: u64,
    /// Number of users simulated.
    pub total_users: u64,
    /// Market volatility, from zero to one.
    pub market_volatility: Dec,
    /// Decimal precision of the computed figures.
    pub decimal_precision: u32,
    /// The interval stepped by.
    pub interval_type: Interval,
    /// Fee charged per trade, in percent, if any.
    pub transaction_fee_percentage: Option<Dec>,
}

impl SimOptions {
    /// Well-formedness: the decimal fields are representable.
    pub open spec fn wf(self) -> bool {
        &&& self.market_volatility.wf()
        &&& (match self.transaction_fee_percentage {
            Some(f) => f.wf(),
            None => true,
        })
    }

    /// The options a simulation runs with when the request gives none.
    pub fn default() -> (r: SimOptions)
        ensures
            r == default_options(),
    {
        SimOptions {
            duration: 7,
            total_users: 100,
            market_volatility: Dec { mantissa: 5, scale: 1 },
            decimal_precision: 4,
            interval_type: Interval::Daily,
            transaction_fee_percentage: None,
        }
    }
}

/// The default simulation options: seven daily intervals, one hundred users,
/// middling volatility, four digits of precision, no fee.
pub open spec fn default_options() -> SimOptions {
    SimOptions {
        duration: 7,
        total_users: 100,
        market_volatility: Dec { mantissa: 5, scale: 1 },
        decimal_precision: 4,
        interval_type: Interval::Daily,
        transaction_fee_percentage: None,
    }
}

/// Message reported when the airdrop percentage is out of range.
pub open spec fn airdrop_msg() -> Seq<char> {
    "Airdrop percentage must be more 0 and less than or equal to 100."@
}

/// Message reported when the initial supply percentage is out of range.
pub open spec fn supply_msg() -> Seq<char> {
    "Initial supply percentage must be more than 0 and less than or equal to 100."@
}

/// Message reported when the number of users is out of range.
pub open spec fn users_msg() -> Seq<char> {
    "Total users must be more than 0 and less than or equal to 100000."@
}

/// Message reported when the decimal precision is out of range.
pub open spec fn precision_msg() -> Seq<char> {
    "Decimal precision must be more than or equal to 0 and less than or equal to 18."@
}

/// Message reported when the market volatility is out of range.
pub open spec fn volatility_msg() -> Seq<char> {
    "Market volatility must be more than or equal to 0 and less than or equal to 1."@
}

/// Message reported when the transaction fee percentage is out of range.
pub open spec fn fee_msg() -> Seq<char> {
    "Transaction fee percentage must be more than 0 and less than or equal to 100."@
}

/// Whether a token's airdrop percentage, if given, lies in its range:
/// more than zero, at most one hundred.
pub open spec fn airdrop_ok(t: TokenV) -> bool {
    match t.airdrop_percentage {
        Some(a) => a.spec_gt_int(0) && !a.spec_gt_int(100),
        None => true,
    }
}

/// Whether a token's initial supply percentage lies in its range:
/// more than zero, at most one hundred.
pub open spec fn supply_ok(t: TokenV) -> bool {
    t.initial_supply_percentage.spec_gt_int(0) && !t.initial_supply_percentage.spec_gt_int(100)
}

/// The outcome of validating a token: the first violated rule's message, or
/// nothing. The airdrop rule is checked before the initial supply rule.
pub open spec fn validate_token_v(t: TokenV) -> Option<Seq<char>> {
    if !airdrop_ok(t) {
        Some(airdrop_msg())
    } else if !supply_ok(t) {
        Some(supply_msg())
    } else {
        None
    }
}

/// The largest duration each interval kind admits.
pub open spec fn max_duration(i: Interval) -> int {
    match i {
        Interval::Daily => 365,
        Interval::Hourly => 24,
        Interval::Weekly => 52,
        Interval::Monthly => 12,
    }
}

/// Message reported when the duration is out of range for its interval kind.
pub open spec fn duration_msg(i: Interval) -> Seq<char> {
    match i {
        Interval::Daily => "Duration value must be more than 0 and less than or equal to 365."@,
        Interval::Hourly => "Duration value must be more than 0 and less than or equal to 24."@,
        Interval::Weekly => "Duration value must be more than 0 and less than or equal to 52."@,
        Interval::Monthly => "Duration value must be more than 0 and less than or equal to 12."@,
    }
}

/// The outcome of validating simulation options: the first violated rule's
/// message, or nothing. The rules run in a fixed order: total users, then
/// decimal precision, then duration, then market volatility, then the
/// transaction fee.
pub open spec fn validate_simulation_v(o: SimOptions) -> Option<Seq<char>> {
    if o.total_users < 1 || o.total_users > 100000 {
        Some(users_msg())
    } else if o.decimal_precision < 1 || o.decimal_precision > 18 {
        Some(precision_msg())
    } else if o.duration < 1 || o.duration > max_duration(o.interval_type) {
        Some(duration_msg(o.interval_type))
    } else if o.market_volatility.spec_lt_int(0) || o.market_volatility.spec_gt_int(1) {
        Some(volatility_msg())
    } else {
        match o.transaction_fee_percentage {
            Some(f) => if !f.spec_gt_int(0) || f.spec_gt_int(1) {
                Some(fee_msg())
            } else {
                None
            },
            None => None,
        }
    }
}

/// Validate a token's domain constraints, reporting the first violated rule.
pub fn validate_token(token: &TokenRecord) -> (r: Result<(), Exception>)
    requires
        token.wf(),
    ensures
        r is Ok <==> validate_token_v(token@) is None,
        r matches Err(e) ==> (e matches Exception::ValidationFailed(m) && validate_token_v(token@)
            == Some(m@)),
{
    if let Some(airdrop) = &token.airdrop_percentage {
        if airdrop.le_int(0) || airdrop.gt_int(100) {
            return Err(
                Exception::ValidationFailed(
                    String::from_str(
                        "Airdrop percentage must be more 0 and less than or equal to 100.",
                    ),
                ),
            );
        }
    }
    if token.initial_supply_percentage.le_int(0) || token.initial_supply_percentage.gt_int(100) {
        return Err(
            Exception::ValidationFailed(
                String::from_str(
                    "Initial supply percentage must be more than 0 and less than or equal to 100.",
                ),
            ),
        );
    }
    Ok(())
}

/// Validate simulation options, reporting the first violated rule.
pub fn validate_simulation(simulation: &SimOptions) -> (r: Result<(), Exception>)
    requires
        simulation.wf(),
    ensures
        r is Ok <==> validate_simulation_v(*simulation) is None,
        r matches Err(e) ==> (e matches Exception::ValidationFailed(m) && validate_simulation_v(
            *simulation,
        ) == Some(m@)),
{
    if simulation.total_users < 1 || simulation.total_users > 100000 {
        return Err(
            Exception::ValidationFailed(
                String::from_str("Total users must be more than 0 and less than or equal to 100000."),
            ),
        );
    }
    if simulation.decimal_precision < 1 || simulation.decimal_precision > 18 {
        return Err(
            Exception::ValidationFailed(
                String::from_str(
                    "Decimal precision must be more than or equal to 0 and less than or equal to 18.",
                ),
            ),
        );
    }
    match simulation.interval_type {
        Interval::Daily => {
            if simulation.duration < 1 || simulation.duration > 365 {
                return Err(
                    Exception::ValidationFailed(
                        String::from_str(
                            "Duration value must be more than 0 and less than or equal to 365.",
                        ),
                    ),
                );
            }
        },
        Interval::Hourly => {
            if simulation.duration < 1 || simulation.duration > 24 {
                return Err(
                    Exception::ValidationFailed(
                        String::from_str(
                            "Duration value must be more than 0 and less than or equal to 24.",
                        ),
                    ),
                );
            }
        },
        Interval::Weekly => {
            if simulation.duration < 1 || simulation.duration > 52 {
                return Err(
                    Exception::ValidationFailed(
                        String::from_str(
                            "Duration value must be more than 0 and less than or equal to 52.",
                        ),
                    ),
                );
            }
        },
        Interval::Monthly => {
            if simulation.duration < 1 || simulation.duration > 12 {
                return Err(
                    Exception::ValidationFailed(
                        String::from_str(
                            "Duration value must be more than 0 and less than or equal to 12.",
                        ),
                    ),
                );
            }
        },
    }
    if simulation.market_volatility.lt_int(0) || simulation.market_volatility.gt_int(1) {
        return Err(
            Exception::ValidationFailed(
                String::from_str(
                    "Market volatility must be more than or equal to 0 and less than or equal to 1.",
                ),
            ),
        );
    }
    if let Some(fee) = &simulation.transaction_fee_percentage {
        if fee.le_int(0) || fee.gt_int(1) {
            return Err(
                Exception::ValidationFailed(
                    String::from_str(
                        "Transaction fee percentage must be more than 0 and less than or equal to 100.",
                    ),
                ),
            );
        }
    }
    Ok(())
}

/// With both the airdrop percentage and the initial supply percentage out of
/// their ranges, the airdrop failure is the one reported: the validation
/// order is fixed and short-circuits on the first violated rule.
pub proof fn lemma_validation_order(t: TokenV)
    requires
        !airdrop_ok(t),
        !supply_ok(t),
    ensures
        validate_token_v(t) == Some(airdrop_msg()),
{
}

/// The body of a simulation create request: a name, an optional description,
/// the token to simulate, and optional run parameters.
#[derive(PartialEq, Debug)]
pub struct SimulationInput {
    /// Name of the simulation, if given.
    pub name: Option<String>,
    /// Description, if given.
    pub description: Option<String>,
    /// The token to simulate, if given.
    pub token: Option<TokenRecord>,
    /// Run parameters, if given; absent parameters fall back to the
    /// defaults.
    pub options: Option<SimOptions>,
}

/// The mathematical value of a simulation create request.
#[verifier::ext_equal]
pub struct SimulationInputV {
    /// Name, if given.
    pub name: Option<Seq<char>>,
    /// Description, if given.
    pub description: Option<Seq<char>>,
    /// The token, if given.
    pub token: Option<TokenV>,
    /// Run parameters, if given.
    pub options: Option<SimOptions>,
}

impl View for SimulationInput {
    type V = SimulationInputV;

    open spec fn view(&self) -> SimulationInputV {
        SimulationInputV {
            name: match self.name {
                Some(ref n) => Some(n@),
                None => None,
            },
            description: match self.description {
                Some(ref d) => Some(d@),
                None => None,
            },
            token: match self.token {
                Some(ref t) => Some(t@),
                None => None,
            },
            options: self.options,
        }
    }
}

impl SimulationInput {
    /// Well-formedness: the token and the options, where given, are
    /// well-formed.
    pub open spec fn wf(self) -> bool {
        &&& (match self.token {
            Some(t) => t.wf(),
            None => true,
        })
        &&& (match self.options {
            Some(o) => o.wf(),
            None => true,
        })
    }
}

/// A created simulation: the identity the engine assigned and the rendered
/// body returned to the client and kept in the cache.
#[derive(PartialEq, Debug)]
pub struct SimulationCreated {
    /// Identity of the simulation.
    pub id: u128,
    /// The rendered simulation, reports included.
    pub body: String,
}

/// Message reported when a create request carries no name.
pub open spec fn missing_name_msg() -> Seq<char> {
    "Missing required field: name."@
}

/// The ways a create request is rejected before the engine is consulted.
#[verifier::ext_equal]
pub enum CreateReject {
    /// The request carries no token.
    MissingToken,
    /// A validation rule is violated; the first offender's message.
    Validation(Seq<char>),
    /// The request carries no name.
    MissingName,
}

/// The first rejection a create request meets before the engine runs, if
/// any: a missing token, then the token's validation, then the validation of
/// the run parameters where given, then a missing name.
pub open spec fn create_precheck_v(input: SimulationInputV) -> Option<CreateReject> {
    match input.token {
        None => Some(CreateReject::MissingToken),
        Some(tv) => match validate_token_v(tv) {
            Some(m) => Some(CreateReject::Validation(m)),
            None => match (match input.options {
                Some(o) => validate_simulation_v(o),
                None => None,
            }) {
                Some(m) => Some(CreateReject::Validation(m)),
                None => if input.name is None {
                    Some(CreateReject::MissingName)
                } else {
                    None
                },
            },
        },
    }
}

/// Whether an exception reports the given rejection.
pub open spec fn reject_matches(e: Exception, reject: CreateReject) -> bool {
    match reject {
        CreateReject::MissingToken => e is TokenNotFound,
        CreateReject::Validation(m) => match e {
            Exception::ValidationFailed(got) => got@ == m,
            _ => false,
        },
        CreateReject::MissingName => match e {
            Exception::InvalidInput(got) => got@ == missing_name_msg(),
            _ => false,
        },
    }
}

/// Check a simulation create request before the engine is consulted:
/// the token must be present and valid, the run parameters must be valid
/// where given, and the name must be present. The outcome is exactly the
/// first rejection `create_precheck_v` gives, or success.
pub fn check(input: &SimulationInput) -> (r: Result<(), Exception>)
    requires
        input.wf(),
    ensures
        r is Ok <==> create_precheck_v(input@) is None,
        r matches Err(e) ==> (create_precheck_v(input@) matches Some(reject) && reject_matches(
            e,
            reject,
        )),
{
    let token = match &input.token {
        Some(t) => t,
        None => {
            return Err(Exception::TokenNotFound);
        },
    };
    if let Err(e) = validate_token(token) {
        return Err(e);
    }
    if let Some(options) = &input.options {
        if let Err(e) = validate_simulation(options) {
            return Err(e);
        }
    }
    if input.name.is_none() {
        return Err(Exception::InvalidInput(String::from_str("Missing required field: name.")));
    }
    Ok(())
}

/// Create a simulation from a checked request and the engine's outcome: the
/// request is checked again, the engine's rendered result — its assigned
/// identity and body, or nothing where the run or the rendering failed — is
/// interpreted, and on success the body is persisted with no time-to-live;
/// simulations are retained indefinitely.
///
/// The engine runs outside this library: it draws random trades, and its
/// source shows runs that end in a panic on unlucky draws, so no contract
/// over the inputs could promise its return. The caller runs it behind a
/// panic boundary between `check` and this function and hands in whatever
/// came back; every failure of the run is reported once as an internal
/// error, never retried.
pub fn create(store: &mut MemoryStore, input: &SimulationInput, engine: Option<
    SimulationCreated,
>) -> (r: Result<SimulationCreated, Exception>)
    requires
        input.wf(),
    ensures
        create_precheck_v(input@) matches Some(reject) ==> (r matches Err(e) && reject_matches(
            e,
            reject,
        ) && final(store)@ == old(store)@),
        create_precheck_v(input@) is None ==> match engine {
            None => r matches Err(e) && e is InternalError && final(store)@ == old(store)@,
            Some(out) => r matches Ok(c) && c.id == out.id && c.body@ == out.body@
                && final(store)@ == old(store)@.insert(
                out.id,
                (ResourceV::Simulation(out.body@), None),
            ),
        },
        r is Err ==> final(store)@ == old(store)@,
{
    if let Err(e) = check(input) {
        return Err(e);
    }
    let out = match engine {
        Some(out) => out,
        None => {
            return Err(Exception::InternalError);
        },
    };
    let stored = out.body.clone();
    store.set(out.id, Resource::Simulation(stored), None);
    Ok(SimulationCreated { id: out.id, body: out.body })
}

/// Get a cached simulation by id, after verifying that its owning token is
/// cached. A missing simulation reports it as not found; an entry of another
/// kind under the id cannot be read back as a simulation and reports an
/// internal error, as a cache entry that fails to deserialize does.
pub fn get<'a>(store: &'a MemoryStore, token_id: u128, id: u128) -> (r: Result<
    &'a String,
    Exception,
>)
    ensures
        !store@.contains_key(token_id) ==> (r matches Err(e)
            && e matches Exception::TokenNotFound),
        store@.contains_key(token_id) ==> match r {
            Ok(s) => store@.contains_key(id) && store@[id].0 == ResourceV::Simulation(s@),
            Err(e) => match e {
                Exception::SimulationNotFound => !store@.contains_key(id),
                Exception::InternalError => store@.contains_key(id) && !(store@[id].0
                    is Simulation),
                _ => false,
            },
        },
{
    if !store.has(token_id) {
        return Err(Exception::TokenNotFound);
    }
    match store.get(id) {
        Some(resource) => match resource {
            Resource::Simulation(s) => Ok(s),
            Resource::TokenRecord(_) => Err(Exception::InternalError),
        },
        None => Err(Exception::SimulationNotFound),
    }
}

/// Delete a cached simulation by id, after verifying that its owning token
/// is cached: the entry is removed if present; an id holding nothing reports
/// the simulation as not found.
pub fn delete(store: &mut MemoryStore, token_id: u128, id: u128) -> (r: Result<(), Exception>)
    ensures
        !old(store)@.contains_key(token_id) ==> (r matches Err(e)
            && e matches Exception::TokenNotFound && final(store)@ == old(store)@),
        old(store)@.contains_key(token_id) ==> {
            &&& final(store)@ == old(store)@.remove(id)
            &&& (r is Ok <==> old(store)@.contains_key(id))
            &&& (r matches Err(e) ==> e matches Exception::SimulationNotFound)
        },
{
    if !store.has(token_id) {
        return Err(Exception::TokenNotFound);
    }
    let removed = store.delete(id);
    if removed > 0 {
        Ok(())
    } else {
        Err(Exception::SimulationNotFound)
    }
}

} // verus!
