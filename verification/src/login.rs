//! The order of an ID token's checks, as a state machine the login driver
//! runs: the RS256 signature is checked against the cached key set, then
//! (only if that fails) once more against a refreshed key set, and only a
//! verified token has its claims decoded and checked. An identity comes out
//! only of a token that passed both checks.
use vstd::prelude::*;
use crate::oidc::{
    check_algorithm, check_claims, claims_verdict, kid_view, lemma_refusal_not_ok, signature_ok,
    signature_refusal, verify_signature, IdClaims, IdTokenError, Jwk,
};
use vstd::utf8::encode_utf8;

verus! {

/// Where an ID-token check stands.
#[derive(Debug, Clone, Copy, PartialEq, Eq, Structural)]
pub enum CheckStage {
    /// Waiting for the cached key set.
    CachedKeys,
    /// The cached keys did not verify; waiting for a refreshed key set.
    RefreshedKeys,
    /// The signature verified; waiting for the decoded claims.
    Claims,
    /// Accepted or refused.
    Finished,
}

/// What the driver does next.
#[derive(Debug, Clone, Copy, PartialEq, Eq, Structural)]
pub enum CheckAction {
    /// Load the provider's key set, refetching it when `refresh` is set.
    LoadKeys { refresh: bool },
    /// Decode the token's payload segment into claims.
    DecodeClaims,
    /// The token is valid: its claims are the user's.
    Accept,
    /// The token is refused.
    Reject(IdTokenError),
}

/// What the driver hands back.
pub enum CheckEvent {
    /// The key set it loaded.
    Keys(Vec<Jwk>),
    /// The decoded claims, and the clock (seconds since the epoch).
    Claims(IdClaims, i64),
}

/// An ID-token check in progress: what the signature check needs, and the
/// stage reached.
pub struct IdTokenCheck {
    pub kid: Option<String>,
    pub signing_input: String,
    pub signature: Vec<u8>,
    pub stage: CheckStage,
}

/// The header names RS256.
pub open spec fn names_rs256(alg: Option<String>) -> bool {
    alg matches Some(a) && a@ == "RS256"@
}

/// The stage after an event (an event the stage does not wait for ends the
/// check).
pub open spec fn next_stage(
    stage: CheckStage,
    event: CheckEvent,
    kid: Option<String>,
    input: Seq<char>,
    sig: Seq<u8>,
) -> CheckStage {
    match (stage, event) {
        (CheckStage::CachedKeys, CheckEvent::Keys(keys)) => if signature_ok(keys@, kid, input, sig) {
            CheckStage::Claims
        } else {
            CheckStage::RefreshedKeys
        },
        (CheckStage::RefreshedKeys, CheckEvent::Keys(keys)) => if signature_ok(
            keys@,
            kid,
            input,
            sig,
        ) {
            CheckStage::Claims
        } else {
            CheckStage::Finished
        },
        _ => CheckStage::Finished,
    }
}

/// The event makes the check ask for a refreshed key set.
pub open spec fn requests_refresh(
    stage: CheckStage,
    event: CheckEvent,
    kid: Option<String>,
    input: Seq<char>,
    sig: Seq<u8>,
) -> bool {
    &&& stage == CheckStage::CachedKeys
    &&& event matches CheckEvent::Keys(keys) && !signature_ok(keys@, kid, input, sig)
}

/// The event makes the check accept the token.
pub open spec fn accepts(
    stage: CheckStage,
    event: CheckEvent,
    issuer: Seq<char>,
    client_id: Seq<char>,
    nonce: Seq<char>,
) -> bool {
    &&& stage == CheckStage::Claims
    &&& event matches CheckEvent::Claims(c, now) && claims_verdict(
        c,
        issuer,
        client_id,
        now,
        nonce,
    ) is Ok
}

/// The event is one the stage waits for (with a clock the claim check can
/// take).
pub open spec fn expects(stage: CheckStage, event: CheckEvent) -> bool {
    match stage {
        CheckStage::CachedKeys => event is Keys,
        CheckStage::RefreshedKeys => event is Keys,
        CheckStage::Claims => event matches CheckEvent::Claims(_, now) && now >= i64::MIN + 60,
        CheckStage::Finished => false,
    }
}

/// Begin checking a token whose header names `alg` and `kid`: only RS256 is
/// accepted, and the check starts by loading the cached key set.
pub fn start_id_token_check(
    alg: &Option<String>,
    kid: Option<String>,
    signing_input: String,
    signature: Vec<u8>,
) -> (r: (IdTokenCheck, CheckAction))
    ensures
        r.0.kid == kid,
        r.0.signing_input@ == signing_input@,
        r.0.signature@ == signature@,
        names_rs256(*alg) ==> r.0.stage == CheckStage::CachedKeys && r.1 == (CheckAction::LoadKeys {
            refresh: false,
        }),
        !names_rs256(*alg) ==> r.0.stage == CheckStage::Finished && r.1 == CheckAction::Reject(
            IdTokenError::UnsupportedAlgorithm,
        ),
{
    match check_algorithm(alg) {
        Ok(()) => (
            IdTokenCheck { kid, signing_input, signature, stage: CheckStage::CachedKeys },
            CheckAction::LoadKeys { refresh: false },
        ),
        Err(e) => (
            IdTokenCheck { kid, signing_input, signature, stage: CheckStage::Finished },
            CheckAction::Reject(e),
        ),
    }
}

/// One step of the check: the signature against a loaded key set (a
/// failure with the cached keys asks for a refresh, a failure with the
/// refreshed keys refuses), then the claims of a verified token.
pub fn id_token_step(
    check: IdTokenCheck,
    event: CheckEvent,
    issuer: &str,
    client_id: &str,
    expected_nonce: &str,
) -> (r: (IdTokenCheck, CheckAction))
    requires
        expects(check.stage, event),
    ensures
        r.0.kid == check.kid,
        r.0.signing_input@ == check.signing_input@,
        r.0.signature@ == check.signature@,
        r.0.stage == next_stage(
            check.stage,
            event,
            check.kid,
            check.signing_input@,
            check.signature@,
        ),
        (r.1 == CheckAction::Accept) == accepts(
            check.stage,
            event,
            issuer@,
            client_id@,
            expected_nonce@,
        ),
        (r.1 == (CheckAction::LoadKeys { refresh: true })) == requests_refresh(
            check.stage,
            event,
            check.kid,
            check.signing_input@,
            check.signature@,
        ),
        match event {
            CheckEvent::Keys(keys) => if signature_ok(
                keys@,
                check.kid,
                check.signing_input@,
                check.signature@,
            ) {
                r.1 == CheckAction::DecodeClaims
            } else if check.stage == CheckStage::CachedKeys {
                r.1 == (CheckAction::LoadKeys { refresh: true })
            } else {
                r.1 matches CheckAction::Reject(e) && signature_refusal(
                    keys@,
                    kid_view(check.kid),
                    encode_utf8(check.signing_input@),
                    check.signature@,
                    e,
                )
            },
            CheckEvent::Claims(c, now) => r.1 == match claims_verdict(
                c,
                issuer@,
                client_id@,
                now,
                expected_nonce@,
            ) {
                Ok(_) => CheckAction::Accept,
                Err(e) => CheckAction::Reject(e),
            },
        },
{
    let IdTokenCheck { kid, signing_input, signature, stage } = check;
    match event {
        CheckEvent::Keys(keys) => {
            match verify_signature(&keys, &kid, signing_input.as_str(), signature.as_slice()) {
                Ok(()) => (
                    IdTokenCheck { kid, signing_input, signature, stage: CheckStage::Claims },
                    CheckAction::DecodeClaims,
                ),
                Err(e) => {
                    proof {
                        lemma_refusal_not_ok(keys@, kid, signing_input@, signature@, e);
                    }
                    match stage {
                        CheckStage::CachedKeys => (
                            IdTokenCheck {
                                kid,
                                signing_input,
                                signature,
                                stage: CheckStage::RefreshedKeys,
                            },
                            CheckAction::LoadKeys { refresh: true },
                        ),
                        _ => (
                            IdTokenCheck {
                                kid,
                                signing_input,
                                signature,
                                stage: CheckStage::Finished,
                            },
                            CheckAction::Reject(e),
                        ),
                    }
                },
            }
        },
        CheckEvent::Claims(c, now) => {
            let action = match check_claims(&c, issuer, client_id, now, expected_nonce) {
                Ok(()) => CheckAction::Accept,
                Err(e) => CheckAction::Reject(e),
            };
            (IdTokenCheck { kid, signing_input, signature, stage: CheckStage::Finished }, action)
        },
    }
}

/// The stage a check starting at `CachedKeys` reaches after `events`.
pub open spec fn run_stage(
    kid: Option<String>,
    input: Seq<char>,
    sig: Seq<u8>,
    events: Seq<CheckEvent>,
) -> CheckStage
    decreases events.len(),
{
    if events.len() == 0 {
        CheckStage::CachedKeys
    } else {
        next_stage(run_stage(kid, input, sig, events.drop_last()), events.last(), kid, input, sig)
    }
}

/// How far along a stage is.
pub open spec fn stage_rank(s: CheckStage) -> int {
    match s {
        CheckStage::CachedKeys => 0,
        CheckStage::RefreshedKeys => 1,
        CheckStage::Claims => 2,
        CheckStage::Finished => 3,
    }
}

/// Every step moves a check forward, and a finished check stays finished.
pub proof fn law_check_moves_forward(
    stage: CheckStage,
    event: CheckEvent,
    kid: Option<String>,
    input: Seq<char>,
    sig: Seq<u8>,
)
    ensures
        stage_rank(next_stage(stage, event, kid, input, sig)) > stage_rank(stage) || (stage
            == CheckStage::Finished && next_stage(stage, event, kid, input, sig)
            == CheckStage::Finished),
{
}

proof fn lemma_run_rank_monotone(
    kid: Option<String>,
    input: Seq<char>,
    sig: Seq<u8>,
    events: Seq<CheckEvent>,
    a: int,
    b: int,
)
    requires
        0 <= a <= b <= events.len(),
    ensures
        stage_rank(run_stage(kid, input, sig, events.take(a))) <= stage_rank(
            run_stage(kid, input, sig, events.take(b)),
        ),
    decreases b - a,
{
    if a < b {
        lemma_run_rank_monotone(kid, input, sig, events, a, b - 1);
        let pre = events.take(b - 1);
        assert(events.take(b).drop_last() =~= pre);
        assert(events.take(b).last() == events[b - 1]);
        law_check_moves_forward(
            run_stage(kid, input, sig, pre),
            events[b - 1],
            kid,
            input,
            sig,
        );
    }
}

/// The key set is refreshed at most once: after a step that asks for a
/// refresh, no later step of the same check asks again.
pub proof fn law_keys_refreshed_at_most_once(
    kid: Option<String>,
    input: Seq<char>,
    sig: Seq<u8>,
    events: Seq<CheckEvent>,
    j: int,
    k: int,
)
    requires
        0 <= j < k < events.len(),
        requests_refresh(run_stage(kid, input, sig, events.take(j)), events[j], kid, input, sig),
    ensures
        !requests_refresh(run_stage(kid, input, sig, events.take(k)), events[k], kid, input, sig),
{
    assert(events.take(j + 1).drop_last() =~= events.take(j));
    assert(events.take(j + 1).last() == events[j]);
    assert(run_stage(kid, input, sig, events.take(j + 1)) == CheckStage::RefreshedKeys);
    lemma_run_rank_monotone(kid, input, sig, events, j + 1, k);
}

/// A token is accepted only right after its signature verified against a
/// loaded key set, and only when its claims pass: the step that accepts
/// follows a key set under which the signature verifies.
pub proof fn law_accept_needs_signature_then_claims(
    kid: Option<String>,
    input: Seq<char>,
    sig: Seq<u8>,
    events: Seq<CheckEvent>,
    k: int,
    issuer: Seq<char>,
    client_id: Seq<char>,
    nonce: Seq<char>,
)
    requires
        0 <= k < events.len(),
        accepts(run_stage(kid, input, sig, events.take(k)), events[k], issuer, client_id, nonce),
    ensures
        k >= 1,
        events[k - 1] matches CheckEvent::Keys(keys) && signature_ok(keys@, kid, input, sig),
        events[k] matches CheckEvent::Claims(c, now) && claims_verdict(
            c,
            issuer,
            client_id,
            now,
            nonce,
        ) is Ok,
{
    assert(events.take(0) =~= Seq::<CheckEvent>::empty());
    if k >= 1 {
        assert(events.take(k).drop_last() =~= events.take(k - 1));
        assert(events.take(k).last() == events[k - 1]);
    }
}

} // verus!
