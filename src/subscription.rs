use vstd::prelude::*;

verus! {

/// Where a subscriber stands in the confirmation state machine.
#[derive(PartialEq, Eq, Structural, Clone, Copy, Debug)]
pub enum SubscriberStatus {
    PendingConfirmation,
    Confirmed,
}

/// A person on the mailing list.
pub struct Subscriber {
    pub id: usize,
    pub email: String,
    pub name: String,
    pub status: SubscriberStatus,
    pub created_at: u64,
}

/// A single-use token that confirms the subscriber it belongs to.
pub struct ConfirmationToken {
    pub token: String,
    pub subscriber_id: usize,
    pub issued_at: u64,
    pub consumed: bool,
}

pub ghost struct SubscriberView {
    pub id: nat,
    pub email: Seq<char>,
    pub name: Seq<char>,
    pub status: SubscriberStatus,
    pub created_at: nat,
}

pub ghost struct TokenView {
    pub token: Seq<char>,
    pub subscriber_id: nat,
    pub issued_at: nat,
    pub consumed: bool,
}

impl View for Subscriber {
    type V = SubscriberView;

    open spec fn view(&self) -> SubscriberView {
        SubscriberView {
            id: self.id as nat,
            email: self.email@,
            name: self.name@,
            status: self.status,
            created_at: self.created_at as nat,
        }
    }
}

impl View for ConfirmationToken {
    type V = TokenView;

    open spec fn view(&self) -> TokenView {
        TokenView {
            token: self.token@,
            subscriber_id: self.subscriber_id as nat,
            issued_at: self.issued_at as nat,
            consumed: self.consumed,
        }
    }
}

/// Why a subscription request was turned down.
#[derive(PartialEq, Eq, Structural, Clone, Copy, Debug)]
pub enum SubscribeError {
    /// The name is empty.
    InvalidName,
    /// The address is not of the form `local@domain`.
    InvalidEmail,
    /// Another subscriber already has this address.
    EmailTaken,
    /// The token handed in is already in use.
    TokenTaken,
}

/// The result of presenting a confirmation token.
#[derive(PartialEq, Eq, Structural, Clone, Copy, Debug)]
pub enum ConfirmOutcome {
    Confirmed,
    AlreadyConfirmed,
    TokenNotFound,
}

impl SubscribeError {
    /// The HTTP status that reports this error: a client error for input
    /// that does not validate, a conflict for an address or token in use.
    pub fn status_code(&self) -> (r: u16)
        ensures
            r == (match *self {
                SubscribeError::InvalidName | SubscribeError::InvalidEmail => 400u16,
                SubscribeError::EmailTaken | SubscribeError::TokenTaken => 409u16,
            }),
    {
        match self {
            SubscribeError::InvalidName | SubscribeError::InvalidEmail => 400,
            SubscribeError::EmailTaken | SubscribeError::TokenTaken => 409,
        }
    }
}

impl ConfirmOutcome {
    /// The HTTP status that reports this outcome: success for a first or a
    /// repeated confirmation, unauthorized for a token nobody was given.
    pub fn status_code(&self) -> (r: u16)
        ensures
            r == (match *self {
                ConfirmOutcome::Confirmed | ConfirmOutcome::AlreadyConfirmed => 200u16,
                ConfirmOutcome::TokenNotFound => 401u16,
            }),
    {
        match self {
            ConfirmOutcome::Confirmed | ConfirmOutcome::AlreadyConfirmed => 200,
            ConfirmOutcome::TokenNotFound => 401,
        }
    }
}

/// Subscribers and their confirmation tokens, as one abstract value.
pub ghost struct StoreView {
    pub subscribers: Seq<SubscriberView>,
    pub tokens: Seq<TokenView>,
}

pub open spec fn is_blank(c: char) -> bool {
    c == ' ' || c == '\t' || c == '\n' || c == '\r'
}

/// A name is accepted when it is not empty.
pub open spec fn valid_name(name: Seq<char>) -> bool {
    name.len() > 0
}

/// An address is accepted when it holds exactly one `@`, with at least one
/// character on each side of it, and no blank character.
pub open spec fn valid_email(email: Seq<char>) -> bool {
    exists|k: int|
        0 < k < email.len() - 1 && email[k] == '@' && (forall|j: int|
            0 <= j < email.len() ==> (#[trigger] email[j] == '@' ==> j == k) && !is_blank(
                email[j],
            ))
}

impl StoreView {
    pub open spec fn email_taken(self, email: Seq<char>) -> bool {
        exists|i: int| 0 <= i < self.subscribers.len() && #[trigger] self.subscribers[i].email == email
    }

    pub open spec fn has_token(self, token: Seq<char>) -> bool {
        exists|j: int| 0 <= j < self.tokens.len() && #[trigger] self.tokens[j].token == token
    }

    /// The position of a token that is present (tokens are unique in a
    /// well-formed store).
    pub open spec fn token_at(self, token: Seq<char>) -> int {
        choose|j: int| 0 <= j < self.tokens.len() && #[trigger] self.tokens[j].token == token
    }

    pub open spec fn wf(self) -> bool {
        &&& forall|i: int| 0 <= i < self.subscribers.len() ==> #[trigger] self.subscribers[i].id == i
        &&& forall|i: int, k: int|
            0 <= i < k < self.subscribers.len() ==> #[trigger] self.subscribers[i].email
                != #[trigger] self.subscribers[k].email
        &&& forall|j: int, k: int|
            0 <= j < k < self.tokens.len() ==> #[trigger] self.tokens[j].token
                != #[trigger] self.tokens[k].token
        &&& forall|j: int|
            0 <= j < self.tokens.len() ==> #[trigger] self.tokens[j].subscriber_id
                < self.subscribers.len()
        &&& forall|j: int|
            0 <= j < self.tokens.len() && #[trigger] self.tokens[j].consumed
                ==> self.subscribers[self.tokens[j].subscriber_id as int].status
                == SubscriberStatus::Confirmed
    }

    /// The error that `subscribe` reports for these inputs, if any.
    pub open spec fn subscribe_error(self, email: Seq<char>, name: Seq<char>, token: Seq<char>) -> Option<
        SubscribeError,
    > {
        if !valid_name(name) {
            Some(SubscribeError::InvalidName)
        } else if !valid_email(email) {
            Some(SubscribeError::InvalidEmail)
        } else if self.email_taken(email) {
            Some(SubscribeError::EmailTaken)
        } else if self.has_token(token) {
            Some(SubscribeError::TokenTaken)
        } else {
            None
        }
    }

    /// The store after a successful subscription: a new pending subscriber
    /// and a fresh, unconsumed token that points at it.
    pub open spec fn add_pending(
        self,
        email: Seq<char>,
        name: Seq<char>,
        token: Seq<char>,
        now: nat,
    ) -> StoreView {
        let id = self.subscribers.len();
        StoreView {
            subscribers: self.subscribers.push(
                SubscriberView {
                    id,
                    email,
                    name,
                    status: SubscriberStatus::PendingConfirmation,
                    created_at: now,
                },
            ),
            tokens: self.tokens.push(
                TokenView { token, subscriber_id: id, issued_at: now, consumed: false },
            ),
        }
    }

    /// What presenting `token` returns.
    pub open spec fn confirm_outcome(self, token: Seq<char>) -> ConfirmOutcome {
        if !self.has_token(token) {
            ConfirmOutcome::TokenNotFound
        } else if self.subscribers[self.tokens[self.token_at(token)].subscriber_id as int].status
            == SubscriberStatus::Confirmed {
            ConfirmOutcome::AlreadyConfirmed
        } else {
            ConfirmOutcome::Confirmed
        }
    }

    /// The store after presenting `token`: only a first confirmation changes
    /// it, marking the subscriber confirmed and the token consumed together.
    pub open spec fn after_confirm(self, token: Seq<char>) -> StoreView {
        if self.confirm_outcome(token) == ConfirmOutcome::Confirmed {
            let j = self.token_at(token);
            let sid = self.tokens[j].subscriber_id as int;
            StoreView {
                subscribers: self.subscribers.update(
                    sid,
                    SubscriberView { status: SubscriberStatus::Confirmed, ..self.subscribers[sid] },
                ),
                tokens: self.tokens.update(j, TokenView { consumed: true, ..self.tokens[j] }),
            }
        } else {
            self
        }
    }

    pub open spec fn status_of(self, id: nat) -> SubscriberStatus {
        self.subscribers[id as int].status
    }
}

/// Subscribing with valid, unused inputs and then presenting the issued
/// token confirms the new subscriber; presenting the token again answers
/// `AlreadyConfirmed` and leaves the store as it is.
pub proof fn lemma_subscribe_then_confirm(
    s: StoreView,
    email: Seq<char>,
    name: Seq<char>,
    token: Seq<char>,
    now: nat,
)
    requires
        s.wf(),
        s.subscribe_error(email, name, token) is None,
    ensures
        ({
            let id = s.subscribers.len();
            let s1 = s.add_pending(email, name, token, now);
            let s2 = s1.after_confirm(token);
            &&& s1.wf()
            &&& s1.status_of(id) == SubscriberStatus::PendingConfirmation
            &&& s1.confirm_outcome(token) == ConfirmOutcome::Confirmed
            &&& s2.wf()
            &&& s2.status_of(id) == SubscriberStatus::Confirmed
            &&& s2.confirm_outcome(token) == ConfirmOutcome::AlreadyConfirmed
            &&& s2.after_confirm(token) == s2
        }),
{
    let id = s.subscribers.len();
    let s1 = s.add_pending(email, name, token, now);
    let last = s.tokens.len() as int;
    assert(s1.tokens[last].token == token);
    assert(s1.has_token(token));
    let j = s1.token_at(token);
    if j != last {
        assert(s.tokens[j].token == token);
    }
    assert(j == last);
    let s2 = s1.after_confirm(token);
    assert(s2.tokens[last].token == token);
    assert(s2.has_token(token));
    let j2 = s2.token_at(token);
    if j2 != last {
        assert(s.tokens[j2].token == token);
    }
    assert(s1.wf()) by {
        assert forall|i: int, k: int|
            0 <= i < k < s1.subscribers.len() implies #[trigger] s1.subscribers[i].email
                != #[trigger] s1.subscribers[k].email by {
            if k == id {
                assert(s.subscribers[i].email != email);
            }
        }
        assert forall|a: int, b: int|
            0 <= a < b < s1.tokens.len() implies #[trigger] s1.tokens[a].token
                != #[trigger] s1.tokens[b].token by {
            if b == last {
                assert(s.tokens[a].token != token);
            }
        }
    }
}

/// Presenting a token that the store does not hold answers `TokenNotFound`
/// and changes nothing.
pub proof fn lemma_unknown_token(s: StoreView, token: Seq<char>)
    requires
        !s.has_token(token),
    ensures
        s.confirm_outcome(token) == ConfirmOutcome::TokenNotFound,
        s.after_confirm(token) == s,
{
}

/// Decides whether `email` is an acceptable address.
pub fn is_valid_email(email: &str) -> (r: bool)
    ensures
        r == valid_email(email@),
{
    let n = email.unicode_len();
    let mut at: usize = n;
    let mut i: usize = 0;
    let mut ok = true;
    while i < n
        invariant
            n == email@.len(),
            0 <= i <= n,
            at == n || at < i,
            at < i ==> email@[at as int] == '@',
            at == n ==> forall|j: int| 0 <= j < i ==> #[trigger] email@[j] != '@',
            ok == (forall|j: int|
                0 <= j < i ==> (#[trigger] email@[j] == '@' ==> j == at) && !is_blank(email@[j])),
        decreases n - i,
    {
        let c = email.get_char(i);
        if c == '@' {
            if at == n {
                at = i;
            } else {
                ok = false;
            }
        }
        if c == ' ' || c == '\t' || c == '\n' || c == '\r' {
            ok = false;
        }
        i = i + 1;
    }
    let r = ok && 0 < at && n > 0 && at < n - 1;
    proof {
        if r {
            assert(0 < at < email@.len() - 1 && email@[at as int] == '@');
        }
        if valid_email(email@) {
            let k = choose|k: int|
                0 < k < email@.len() - 1 && email@[k] == '@' && (forall|j: int|
                    0 <= j < email@.len() ==> (#[trigger] email@[j] == '@' ==> j == k)
                        && !is_blank(email@[j]));
            assert(email@[k] == '@');
            if at < n {
                assert(email@[at as int] == '@');
            }
            assert(at == k);
        }
    }
    r
}

/// The durable record of subscribers and their confirmation tokens.
pub struct SubscriptionStore {
    pub subscribers: Vec<Subscriber>,
    pub tokens: Vec<ConfirmationToken>,
}

impl View for SubscriptionStore {
    type V = StoreView;

    open spec fn view(&self) -> StoreView {
        StoreView {
            subscribers: self.subscribers@.map_values(|s: Subscriber| s@),
            tokens: self.tokens@.map_values(|t: ConfirmationToken| t@),
        }
    }
}

impl SubscriptionStore {
    pub open spec fn wf(&self) -> bool {
        self@.wf()
    }

    /// An empty store.
    pub fn new() -> (r: SubscriptionStore)
        ensures
            r.wf(),
            r@.subscribers.len() == 0,
            r@.tokens.len() == 0,
    {
        SubscriptionStore { subscribers: Vec::new(), tokens: Vec::new() }
    }

    /// Whether some subscriber already has this address.
    pub fn email_taken(&self, email: &String) -> (r: bool)
        ensures
            r == self@.email_taken(email@),
    {
        let mut i: usize = 0;
        while i < self.subscribers.len()
            invariant
                0 <= i <= self.subscribers.len(),
                forall|k: int| 0 <= k < i ==> self@.subscribers[k].email != email@,
            decreases self.subscribers.len() - i,
        {
            if self.subscribers[i].email == *email {
                assert(self@.subscribers[i as int].email == email@);
                return true;
            }
            i = i + 1;
        }
        false
    }

    /// The position of `token` among the tokens, if it is there.
    pub fn find_token(&self, token: &String) -> (r: Option<usize>)
        requires
            self.wf(),
        ensures
            r is None <==> !self@.has_token(token@),
            r matches Some(j) ==> j as int == self@.token_at(token@) && j < self@.tokens.len(),
    {
        let mut i: usize = 0;
        while i < self.tokens.len()
            invariant
                self.wf(),
                0 <= i <= self.tokens.len(),
                forall|k: int| 0 <= k < i ==> self@.tokens[k].token != token@,
            decreases self.tokens.len() - i,
        {
            if self.tokens[i].token == *token {
                assert(self@.tokens[i as int].token == token@);
                let ghost j = self@.token_at(token@);
                assert(self@.tokens[j].token == token@);
                proof {
                    if j > i as int {
                        assert(self@.tokens[i as int].token != self@.tokens[j].token);
                    }
                }
                assert(j == i as int);
                return Some(i);
            }
            i = i + 1;
        }
        None
    }

    /// Registers a pending subscriber together with its confirmation token.
    /// The token comes from the caller, who draws it from a source of
    /// randomness; nothing is stored when an error is returned.
    pub fn subscribe(&mut self, email: String, name: String, token: String, now: u64) -> (r: Result<usize, SubscribeError>)
        requires
            old(self).wf(),
        ensures
            final(self).wf(),
            match old(self)@.subscribe_error(email@, name@, token@) {
                Some(e) => r == Err::<usize, SubscribeError>(e) && final(self)@ == old(self)@,
                None => r == Ok::<usize, SubscribeError>(old(self)@.subscribers.len() as usize)
                    && final(self)@ == old(self)@.add_pending(email@, name@, token@, now as nat),
            },
    {
        if name.unicode_len() == 0 {
            return Err(SubscribeError::InvalidName);
        }
        if !is_valid_email(email.as_str()) {
            return Err(SubscribeError::InvalidEmail);
        }
        if self.email_taken(&email) {
            return Err(SubscribeError::EmailTaken);
        }
        if self.find_token(&token).is_some() {
            return Err(SubscribeError::TokenTaken);
        }
        let id = self.subscribers.len();
        let ghost before = self@;
        self.subscribers.push(
            Subscriber {
                id,
                email,
                name,
                status: SubscriberStatus::PendingConfirmation,
                created_at: now,
            },
        );
        self.tokens.push(ConfirmationToken { token, subscriber_id: id, issued_at: now, consumed: false });
        proof {
            let after = before.add_pending(email@, name@, token@, now as nat);
            assert(self@.subscribers =~= after.subscribers);
            assert(self@.tokens =~= after.tokens);
        }
        Ok(id)
    }

    /// Presents a confirmation token. A first confirmation marks the
    /// subscriber confirmed and the token consumed in one step; a replay, or a
    /// token owned by a subscriber who is already confirmed, changes nothing.
    pub fn confirm(&mut self, token: &String) -> (r: ConfirmOutcome)
        requires
            old(self).wf(),
        ensures
            final(self).wf(),
            r == old(self)@.confirm_outcome(token@),
            final(self)@ == old(self)@.after_confirm(token@),
    {
        let found = self.find_token(token);
        match found {
            None => ConfirmOutcome::TokenNotFound,
            Some(j) => {
                let sid = self.tokens[j].subscriber_id;
                if self.subscribers[sid].status == SubscriberStatus::Confirmed {
                    ConfirmOutcome::AlreadyConfirmed
                } else {
                    let ghost before = self@;
                    self.subscribers[sid].status = SubscriberStatus::Confirmed;
                    self.tokens[j].consumed = true;
                    proof {
                        let after = before.after_confirm(token@);
                        assert(self@.subscribers =~= after.subscribers);
                        assert(self@.tokens =~= after.tokens);
                    }
                    ConfirmOutcome::Confirmed
                }
            },
        }
    }
}

} // verus!
