use vstd::prelude::*;
use vstd::string::StringExecFns;

verus! {

/// First step of the credential exchange: asks the issuer for a one-time
/// token bound to the account.
#[derive(Debug, Clone, PartialEq, Eq)]
pub struct TokenRequest {
    pub account_key: String,
}

/// The mathematical content of a `TokenRequest`.
pub struct TokenRequestView {
    pub account_key: Seq<char>,
}

impl View for TokenRequest {
    type V = TokenRequestView;

    open spec fn view(&self) -> TokenRequestView {
        TokenRequestView { account_key: self.account_key@ }
    }
}

impl TokenRequestView {
    pub open spec fn wf(self) -> bool {
        self.account_key.len() <= u64::MAX
    }
}

/// Second step: redeems the token, together with the account key, for
/// issued credentials.
#[derive(Debug, Clone, PartialEq, Eq)]
pub struct CredentialsRequest {
    pub account_key: String,
    pub token: String,
}

/// The mathematical content of a `CredentialsRequest`.
pub struct CredentialsRequestView {
    pub account_key: Seq<char>,
    pub token: Seq<char>,
}

impl View for CredentialsRequest {
    type V = CredentialsRequestView;

    open spec fn view(&self) -> CredentialsRequestView {
        CredentialsRequestView { account_key: self.account_key@, token: self.token@ }
    }
}

impl CredentialsRequestView {
    pub open spec fn wf(self) -> bool {
        self.account_key.len() <= u64::MAX && self.token.len() <= u64::MAX
    }
}

/// The issuer's answer: credentials, or the reason the request failed.
#[derive(Debug, Clone, PartialEq, Eq)]
pub enum CredentialsResponse {
    Valid { user_jwt: String, user_secret: String },
    Error(String),
}

/// The mathematical content of a `CredentialsResponse`.
pub enum CredentialsResponseView {
    Valid { user_jwt: Seq<char>, user_secret: Seq<char> },
    Error(Seq<char>),
}

impl View for CredentialsResponse {
    type V = CredentialsResponseView;

    open spec fn view(&self) -> CredentialsResponseView {
        match self {
            CredentialsResponse::Valid { user_jwt, user_secret } => CredentialsResponseView::Valid {
                user_jwt: user_jwt@, user_secret: user_secret@,
            },
            CredentialsResponse::Error(reason) => CredentialsResponseView::Error(reason@),
        }
    }
}

impl CredentialsResponseView {
    pub open spec fn wf(self) -> bool {
        match self {
            CredentialsResponseView::Valid { user_jwt, user_secret } => user_jwt.len() <= u64::MAX
                && user_secret.len() <= u64::MAX,
            CredentialsResponseView::Error(reason) => reason.len() <= u64::MAX,
        }
    }
}

/// The issuer's bookkeeping of the two-step exchange: which
/// (account, token) pairs are outstanding, and which tokens have been
/// redeemed already. A token is a shared secret valid for exactly one
/// redemption, so replay must be rejected.
pub struct TokenIssuer {
    pub issued: Vec<CredentialsRequest>,
    pub redeemed: Vec<String>,
}

impl TokenIssuer {
    /// The token was already redeemed once.
    pub open spec fn token_redeemed(self, token: Seq<char>) -> bool {
        exists|i: int| 0 <= i < self.redeemed@.len() && self.redeemed@[i]@ == token
    }

    /// The token is outstanding for this account.
    pub open spec fn pair_issued(self, account_key: Seq<char>, token: Seq<char>) -> bool {
        exists|i: int|
            0 <= i < self.issued@.len() && self.issued@[i].account_key@ == account_key
                && self.issued@[i].token@ == token
    }

    /// A fresh issuer that knows no tokens.
    pub fn new() -> (r: TokenIssuer)
        ensures
            r.issued@ == Seq::<CredentialsRequest>::empty(),
            r.redeemed@ == Seq::<String>::empty(),
    {
        TokenIssuer { issued: Vec::new(), redeemed: Vec::new() }
    }

    /// Records the one-time token handed out for a token request. The
    /// token itself comes from the caller: how it is minted is outside
    /// this layer.
    pub fn issue(&mut self, req: &TokenRequest, token: String)
        ensures
            final(self).issued@.len() == old(self).issued@.len() + 1,
            final(self).issued@.last().account_key@ == req.account_key@,
            final(self).issued@.last().token@ == token@,
            forall|i: int| 0 <= i < old(self).issued@.len()
                ==> final(self).issued@[i] == old(self).issued@[i],
            final(self).redeemed@ == old(self).redeemed@,
            final(self).pair_issued(req.account_key@, token@),
    {
        let entry = CredentialsRequest { account_key: req.account_key.clone(), token };
        self.issued.push(entry);
    }

    /// Decides a redemption request. A token that was redeemed before is
    /// rejected, always: never are credentials issued for it again. An
    /// outstanding (account, token) pair redeems once: the reply carries
    /// the credentials the caller minted, and the token is remembered as
    /// redeemed. Anything else is rejected.
    pub fn redeem(&mut self, req: &CredentialsRequest, user_jwt: String, user_secret: String) -> (r:
        CredentialsResponse)
        ensures
            // replay is always an error, never credentials
            old(self).token_redeemed(req.token@) ==> (r@ matches CredentialsResponseView::Error(
                reason,
            ) && reason == "token already redeemed"@ && *final(self) == *old(self)),
            // an outstanding pair redeems exactly once
            (!old(self).token_redeemed(req.token@) && old(self).pair_issued(
                req.account_key@,
                req.token@,
            )) ==> (r@ == (CredentialsResponseView::Valid {
                user_jwt: user_jwt@,
                user_secret: user_secret@,
            }) && final(self).redeemed@ == old(self).redeemed@.push(req.token)
                && final(self).issued@ == old(self).issued@),
            // anything else is rejected and changes nothing
            (!old(self).token_redeemed(req.token@) && !old(self).pair_issued(
                req.account_key@,
                req.token@,
            )) ==> (r@ matches CredentialsResponseView::Error(reason)
                && reason == "unknown account or token"@ && *final(self) == *old(self)),
            // credentials imply the token was fresh, and it is now spent
            r@ is Valid ==> !old(self).token_redeemed(req.token@) && final(self).token_redeemed(
                req.token@,
            ),
    {
        let mut i: usize = 0;
        while i < self.redeemed.len()
            invariant
                *self == *old(self),
                i <= self.redeemed@.len(),
                forall|j: int| 0 <= j < i ==> self.redeemed@[j]@ != req.token@,
        decreases self.redeemed@.len() - i,
        {
            if self.redeemed[i] == req.token {
                assert(self.redeemed@[i as int]@ == req.token@);
                assert(self.token_redeemed(req.token@));
                return CredentialsResponse::Error(String::from_str("token already redeemed"));
            }
            i += 1;
        }
        assert(!self.token_redeemed(req.token@));
        let mut k: usize = 0;
        while k < self.issued.len()
            invariant
                *self == *old(self),
                k <= self.issued@.len(),
                forall|j: int| 0 <= j < k ==> !(self.issued@[j].account_key@ == req.account_key@
                    && self.issued@[j].token@ == req.token@),
                !self.token_redeemed(req.token@),
        decreases self.issued@.len() - k,
        {
            if self.issued[k].account_key == req.account_key && self.issued[k].token == req.token {
                assert(self.pair_issued(req.account_key@, req.token@));
                self.redeemed.push(req.token.clone());
                assert(self.token_redeemed(req.token@)) by {
                    assert(self.redeemed@[self.redeemed@.len() - 1]@ == req.token@);
                }
                return CredentialsResponse::Valid { user_jwt, user_secret };
            }
            k += 1;
        }
        assert(!self.pair_issued(req.account_key@, req.token@));
        CredentialsResponse::Error(String::from_str("unknown account or token"))
    }
}

} // verus!
