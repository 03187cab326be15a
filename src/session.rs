//! Protocol pre-session and session, with the parameters of each role.
use vstd::prelude::*;

use crate::roles::{Alice, Bob, Role};
use crate::dleq::random_blinder;
use crate::scalar::{be_value, ed_order, le_value, random_wide, secp_order, secp_public_key};

verus! {

/// Parameters that a role fixes before a swap is negotiated.
pub trait PreSessionParameters {
    type Parameters: Clone;
}

/// Parameters, mostly key material, that a role holds during a swap.
pub trait SessionParameters {
    type Parameters;
}

/// What a role knows before a session starts.
pub struct PreSession<R> where R: Role + PreSessionParameters {
    pub parameters: <R as PreSessionParameters>::Parameters,
}

impl<R> PreSession<R> where R: Role + PreSessionParameters {
    pub fn new(parameters: <R as PreSessionParameters>::Parameters) -> (r: Self)
        ensures
            r.parameters == parameters,
    {
        PreSession { parameters }
    }

    pub fn get_params(&self) -> (r: &<R as PreSessionParameters>::Parameters)
        ensures
            *r == self.parameters,
    {
        &self.parameters
    }
}

impl<R> PreSession<R> where R: Role + PreSessionParameters + SessionParameters {
    /// Starts a session that keeps a copy of the pre-session parameters.
    pub fn into_session(&self, session_params: <R as SessionParameters>::Parameters) -> (r: Session<
        R,
    >)
        ensures
            cloned(self.parameters, r.pre_session_parameters),
            r.parameters == session_params,
            r.uuid@ == session_uuid(),
    {
        Session::<R>::new(self.get_params().clone(), session_params)
    }
}

/// Destination of the accordant funds that Alice receives.
#[derive(Clone)]
pub struct AlicePreSessionParameters {
    pub destination_address: String,
}

impl PreSessionParameters for Alice {
    type Parameters = AlicePreSessionParameters;
}

/// Address to which Bob's arbitrating funds return on a refund.
#[derive(Clone)]
pub struct BobPreSessionParameters {
    pub refund_address: String,
}

impl PreSessionParameters for Bob {
    type Parameters = BobPreSessionParameters;
}

/// The identifier every new session carries.
pub open spec fn session_uuid() -> Seq<char> {
    "session id"@
}

/// A running session of one role.
pub struct Session<R> where R: Role + PreSessionParameters + SessionParameters {
    pub uuid: String,
    pub pre_session_parameters: <R as PreSessionParameters>::Parameters,
    pub parameters: <R as SessionParameters>::Parameters,
}

impl<R> Session<R> where R: Role + PreSessionParameters + SessionParameters {
    /// Generates a new session for a swap role.
    pub fn new(
        pre_session_parameters: <R as PreSessionParameters>::Parameters,
        parameters: <R as SessionParameters>::Parameters,
    ) -> (r: Self)
        ensures
            r.pre_session_parameters == pre_session_parameters,
            r.parameters == parameters,
            r.uuid@ == session_uuid(),
    {
        proof {
            reveal_strlit("session id");
        }
        Session { uuid: String::from_str("session id"), pre_session_parameters, parameters }
    }

    pub fn pre_session_params(&self) -> (r: &<R as PreSessionParameters>::Parameters)
        ensures
            *r == self.pre_session_parameters,
    {
        &self.pre_session_parameters
    }

    pub fn get_params(&self) -> (r: &<R as SessionParameters>::Parameters)
        ensures
            *r == self.parameters,
    {
        &self.parameters
    }
}

/// Why key material could not be drawn.
#[derive(Clone, Copy, Debug, PartialEq, Eq, Structural)]
pub enum KeyError {
    /// The random source failed, or gave no valid secret in the allowed
    /// number of draws.
    RandomnessUnavailable,
}

/// How many draws a secret key may take.
pub const MAX_DRAWS: usize = 64;

/// A valid Secp256k1 secret key, big-endian.
pub open spec fn is_secp_secret(k: [u8; 32]) -> bool {
    0 < be_value(k@) < secp_order()
}

/// An Ed25519 private key, reduced.
pub open spec fn is_ed_secret(k: [u8; 32]) -> bool {
    le_value(k@) < ed_order()
}

/// The secret key that a 64-byte draw gives: its first 32 bytes, read
/// big-endian, where they form a valid Secp256k1 secret.
pub fn secp_secret_from_draw(w: &[u8; 64]) -> (r: Option<[u8; 32]>)
    ensures
        (r is Some) == (0 < be_value(w@.subrange(0, 32)) < secp_order()),
        r is Some ==> r->0@ == w@.subrange(0, 32),
{
    let mut k = [0u8; 32];
    let mut i: usize = 0;
    while i < 32
        invariant
            i <= 32,
            forall|j: int| 0 <= j < i ==> k@[j] == w@[j],
        decreases 32 - i,
    {
        k[i] = w[i];
        i = i + 1;
    }
    assert(k@ =~= w@.subrange(0, 32));
    if secp_public_key(&k).is_some() {
        Some(k)
    } else {
        None
    }
}

/// Draws a Secp256k1 secret key, retrying on the rare invalid draw.
pub fn random_secp_secret() -> (r: Result<[u8; 32], KeyError>)
    ensures
        r is Ok ==> is_secp_secret(r->Ok_0),
        r is Err ==> r->Err_0 == KeyError::RandomnessUnavailable,
{
    let mut tries: usize = 0;
    while tries < MAX_DRAWS
        decreases MAX_DRAWS - tries,
    {
        let w = match random_wide() {
            Some(w) => w,
            None => {
                return Err(KeyError::RandomnessUnavailable);
            },
        };
        if let Some(k) = secp_secret_from_draw(&w) {
            return Ok(k);
        }
        tries = tries + 1;
    }
    Err(KeyError::RandomnessUnavailable)
}

/// Draws a reduced Ed25519 private key.
pub fn random_ed_secret() -> (r: Result<[u8; 32], KeyError>)
    ensures
        r is Ok ==> is_ed_secret(r->Ok_0),
        r is Err ==> r->Err_0 == KeyError::RandomnessUnavailable,
{
    match random_blinder() {
        Some(k) => Ok(k),
        None => Err(KeyError::RandomnessUnavailable),
    }
}

/// Alice's secret keys for one swap.
pub struct AliceSessionParameters {
    pub buy: [u8; 32],
    pub cancel: [u8; 32],
    pub refund: [u8; 32],
    pub punish: [u8; 32],
    pub spend: [u8; 32],
    pub view: [u8; 32],
}

impl AliceSessionParameters {
    pub open spec fn wf(&self) -> bool {
        &&& is_secp_secret(self.buy)
        &&& is_secp_secret(self.cancel)
        &&& is_secp_secret(self.refund)
        &&& is_secp_secret(self.punish)
        &&& is_ed_secret(self.spend)
        &&& is_ed_secret(self.view)
    }

    /// Draws fresh keys.
    pub fn new() -> (r: Result<Self, KeyError>)
        ensures
            r is Ok ==> r->Ok_0.wf(),
            r is Err ==> r->Err_0 == KeyError::RandomnessUnavailable,
    {
        let buy = random_secp_secret()?;
        let cancel = random_secp_secret()?;
        let refund = random_secp_secret()?;
        let punish = random_secp_secret()?;
        let spend = random_ed_secret()?;
        let view = random_ed_secret()?;
        Ok(AliceSessionParameters::from_draws(buy, cancel, refund, punish, spend, view))
    }

    /// The parameters holding the given drawn keys, each in its own field.
    pub fn from_draws(
        buy: [u8; 32],
        cancel: [u8; 32],
        refund: [u8; 32],
        punish: [u8; 32],
        spend: [u8; 32],
        view: [u8; 32],
    ) -> (r: Self)
        ensures
            r.buy == buy && r.cancel == cancel && r.refund == refund && r.punish == punish,
            r.spend == spend && r.view == view,
    {
        AliceSessionParameters { buy, cancel, refund, punish, spend, view }
    }
}

impl SessionParameters for Alice {
    type Parameters = AliceSessionParameters;
}

/// Bob's secret keys for one swap.
pub struct BobSessionParameters {
    pub fund: [u8; 32],
    pub buy: [u8; 32],
    pub cancel: [u8; 32],
    pub refund: [u8; 32],
    pub spend: [u8; 32],
    pub view: [u8; 32],
}

impl BobSessionParameters {
    pub open spec fn wf(&self) -> bool {
        &&& is_secp_secret(self.fund)
        &&& is_secp_secret(self.buy)
        &&& is_secp_secret(self.cancel)
        &&& is_secp_secret(self.refund)
        &&& is_ed_secret(self.spend)
        &&& is_ed_secret(self.view)
    }

    /// The parameters holding the given drawn keys, each in its own field.
    pub fn from_draws(
        fund: [u8; 32],
        buy: [u8; 32],
        cancel: [u8; 32],
        refund: [u8; 32],
        spend: [u8; 32],
        view: [u8; 32],
    ) -> (r: Self)
        ensures
            r.fund == fund && r.buy == buy && r.cancel == cancel && r.refund == refund,
            r.spend == spend && r.view == view,
    {
        BobSessionParameters { fund, buy, cancel, refund, spend, view }
    }

    /// Draws fresh keys, one draw per key, in field order.
    pub fn new() -> (r: Result<Self, KeyError>)
        ensures
            r is Ok ==> r->Ok_0.wf(),
            r is Err ==> r->Err_0 == KeyError::RandomnessUnavailable,
    {
        let fund = random_secp_secret()?;
        let buy = random_secp_secret()?;
        let cancel = random_secp_secret()?;
        let refund = random_secp_secret()?;
        let spend = random_ed_secret()?;
        let view = random_ed_secret()?;
        Ok(BobSessionParameters::from_draws(fund, buy, cancel, refund, spend, view))
    }
}

impl SessionParameters for Bob {
    type Parameters = BobSessionParameters;
}

} // verus!
