use oneshare::login::{id_token_step, start_id_token_check, CheckAction, CheckEvent, CheckStage, IdTokenCheck};
use oneshare::oidc::{Audience, IdClaims, IdTokenError, Jwk};

fn rsa_key(kid: &str) -> Jwk {
    Jwk {
        kty: Some("RSA".to_string()),
        kid: Some(kid.to_string()),
        n: Some("AQAB".to_string()),
        e: Some("AQAB".to_string()),
    }
}

fn claims(nonce: &str) -> IdClaims {
    IdClaims {
        iss: Some("https://id.example.com/".to_string()),
        aud: Audience::One("oneshare".to_string()),
        sub: Some("abc".to_string()),
        exp: Some(1000),
        nonce: Some(nonce.to_string()),
    }
}

fn at(stage: CheckStage) -> IdTokenCheck {
    IdTokenCheck {
        kid: Some("k1".to_string()),
        signing_input: "a.b".to_string(),
        signature: b"sig".to_vec(),
        stage,
    }
}

#[test]
fn only_rs256_tokens_start_a_check() {
    let (c, a) = start_id_token_check(&Some("RS256".to_string()), None, "a.b".to_string(), vec![1]);
    assert_eq!(c.stage, CheckStage::CachedKeys);
    assert_eq!(a, CheckAction::LoadKeys { refresh: false });
    let (c, a) = start_id_token_check(&Some("HS256".to_string()), None, "a.b".to_string(), vec![1]);
    assert_eq!(c.stage, CheckStage::Finished);
    assert_eq!(a, CheckAction::Reject(IdTokenError::UnsupportedAlgorithm));
    let (_, a) = start_id_token_check(&None, None, "a.b".to_string(), vec![1]);
    assert_eq!(a, CheckAction::Reject(IdTokenError::UnsupportedAlgorithm));
}

#[test]
fn a_failed_signature_refreshes_the_keys_once_then_refuses() {
    let (c, a) = id_token_step(
        at(CheckStage::CachedKeys),
        CheckEvent::Keys(vec![rsa_key("k1")]),
        "https://id.example.com",
        "oneshare",
        "n1",
    );
    assert_eq!(c.stage, CheckStage::RefreshedKeys);
    assert_eq!(a, CheckAction::LoadKeys { refresh: true });
    assert_eq!(c.signing_input, "a.b");
    let (c, a) = id_token_step(c, CheckEvent::Keys(vec![rsa_key("k1")]), "https://id.example.com", "oneshare", "n1");
    assert_eq!(c.stage, CheckStage::Finished);
    assert_eq!(a, CheckAction::Reject(IdTokenError::BadSignature));
    let (_, a) = id_token_step(
        at(CheckStage::RefreshedKeys),
        CheckEvent::Keys(vec![rsa_key("k2")]),
        "https://id.example.com",
        "oneshare",
        "n1",
    );
    assert_eq!(a, CheckAction::Reject(IdTokenError::UnknownKeyId));
}

#[test]
fn verified_tokens_are_accepted_only_when_their_claims_pass() {
    let (c, a) = id_token_step(
        at(CheckStage::Claims),
        CheckEvent::Claims(claims("n1"), 1050),
        "https://id.example.com",
        "oneshare",
        "n1",
    );
    assert_eq!(c.stage, CheckStage::Finished);
    assert_eq!(a, CheckAction::Accept);
    let (_, a) = id_token_step(
        at(CheckStage::Claims),
        CheckEvent::Claims(claims("other"), 1050),
        "https://id.example.com",
        "oneshare",
        "n1",
    );
    assert_eq!(a, CheckAction::Reject(IdTokenError::NonceMismatch));
    let (_, a) = id_token_step(
        at(CheckStage::Claims),
        CheckEvent::Claims(claims("n1"), 1061),
        "https://id.example.com",
        "oneshare",
        "n1",
    );
    assert_eq!(a, CheckAction::Reject(IdTokenError::Expired));
}
