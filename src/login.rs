use crate::config::Config;
use crate::connectors::ldap::{
    bind_accepted, bind_dn_of, escape_filter_value, fill_template, permissions_of, reply_entries,
    strings_view, BindReply, LdapConnector, LinkState, SearchReply, SearchRequest,
};
use crate::models::jwt::{issue_token, token_issued_at};
use crate::models::permission::{permissions_view, Permission};
use vstd::prelude::*;

verus! {

/// How a login ended, as far as the directory is concerned.
#[derive(Debug, Clone, Copy, PartialEq, Eq, Structural)]
pub enum LoginOutcome {
    /// The directory could not be reached; nothing was sent to it.
    TransportFailure,
    /// The directory did not accept the credential.
    AuthenticationFailure,
    /// The directory accepted the credential; the permissions were looked up.
    Authenticated,
}

/// The steps of a login.
#[derive(Debug, Clone, Copy, PartialEq, Eq, Structural)]
pub enum LoginPhase {
    Start,
    AwaitConnect,
    AwaitBind,
    AwaitSearch,
    AwaitUnbind,
    Finished { outcome: LoginOutcome },
}

/// What the directory, or the transport to it, answered to the last action.
pub enum LoginEvent {
    /// The connection was opened, or could not be.
    Opened { ok: bool },
    /// The directory's reply to the bind.
    BindAnswered { reply: BindReply },
    /// The directory's reply to the search.
    SearchAnswered { answer: SearchReply },
    /// The unbind was sent; its own outcome does not matter.
    Unbound,
}

/// What the caller must do next for the login to go on.
pub enum LoginAction {
    /// Open a connection to the directory at `url`.
    Connect { url: String },
    /// Bind as `dn` with `password`.
    Bind { dn: String, password: String },
    /// Run this search.
    Search { request: SearchRequest },
    /// Unbind and drop the connection.
    Unbind,
    /// Nothing more: the login is over.
    Finish,
}

/// The kinds of events, with what the login's decisions depend on.
#[derive(PartialEq, Eq, Structural)]
pub enum EventKind {
    Opened { ok: bool },
    BindAnswered { accepted: bool },
    SearchAnswered,
    Unbound,
}

/// The kinds of actions.
#[derive(PartialEq, Eq, Structural)]
pub enum ActionKind {
    Connect,
    Bind,
    Search,
    Unbind,
    Finish,
}

/// The state of a login that its decisions depend on.
pub struct LoginState {
    pub phase: LoginPhase,
    pub link: LinkState,
    pub granted: bool,
}

pub open spec fn event_kind(e: LoginEvent) -> EventKind {
    match e {
        LoginEvent::Opened { ok } => EventKind::Opened { ok },
        LoginEvent::BindAnswered { reply } => EventKind::BindAnswered {
            accepted: bind_accepted(reply),
        },
        LoginEvent::SearchAnswered { .. } => EventKind::SearchAnswered,
        LoginEvent::Unbound => EventKind::Unbound,
    }
}

pub open spec fn action_kind(a: LoginAction) -> ActionKind {
    match a {
        LoginAction::Connect { .. } => ActionKind::Connect,
        LoginAction::Bind { .. } => ActionKind::Bind,
        LoginAction::Search { .. } => ActionKind::Search,
        LoginAction::Unbind => ActionKind::Unbind,
        LoginAction::Finish => ActionKind::Finish,
    }
}

/// The state of a login before anything was done.
pub open spec fn initial_state() -> LoginState {
    LoginState { phase: LoginPhase::Start, link: LinkState::Uninitialized, granted: false }
}

/// How the phase of a login and the state of its connection go together: the
/// connection is open exactly while the login waits for the bind or the search, and
/// closed while it waits for the unbind.
pub open spec fn consistent(s: LoginState) -> bool {
    match s.phase {
        LoginPhase::Start => s.link == LinkState::Uninitialized,
        LoginPhase::AwaitConnect => s.link == LinkState::Uninitialized,
        LoginPhase::AwaitBind => s.link == LinkState::Connected,
        LoginPhase::AwaitSearch => s.link == LinkState::Connected,
        LoginPhase::AwaitUnbind => s.link == LinkState::Closed,
        LoginPhase::Finished { .. } => s.link != LinkState::Connected,
    }
}

/// Whether `e` answers what a login in state `s` waits for.
pub open spec fn accepts(s: LoginState, e: EventKind) -> bool {
    match s.phase {
        LoginPhase::AwaitConnect => e is Opened,
        LoginPhase::AwaitBind => e is BindAnswered,
        LoginPhase::AwaitSearch => e is SearchAnswered,
        LoginPhase::AwaitUnbind => e is Unbound,
        _ => false,
    }
}

/// The first action of a login: connect.
pub open spec fn start(s: LoginState) -> (LoginState, ActionKind) {
    (LoginState { phase: LoginPhase::AwaitConnect, ..s }, ActionKind::Connect)
}

/// The decision a login in state `s` takes on event `e`: its next state and action.
///
/// A failed connection ends the login at once; a rejected bind and a finished search both
/// lead to the unbind; the unbind ends the login.
pub open spec fn next(s: LoginState, e: EventKind) -> (LoginState, ActionKind) {
    match e {
        EventKind::Opened { ok } => if ok {
            (
                LoginState { phase: LoginPhase::AwaitBind, link: LinkState::Connected, ..s },
                ActionKind::Bind,
            )
        } else {
            (
                LoginState {
                    phase: LoginPhase::Finished { outcome: LoginOutcome::TransportFailure },
                    ..s
                },
                ActionKind::Finish,
            )
        },
        EventKind::BindAnswered { accepted } => if accepted {
            (
                LoginState { phase: LoginPhase::AwaitSearch, granted: true, ..s },
                ActionKind::Search,
            )
        } else {
            (
                LoginState {
                    phase: LoginPhase::AwaitUnbind,
                    link: LinkState::Closed,
                    granted: false,
                },
                ActionKind::Unbind,
            )
        },
        EventKind::SearchAnswered => (
            LoginState { phase: LoginPhase::AwaitUnbind, link: LinkState::Closed, ..s },
            ActionKind::Unbind,
        ),
        EventKind::Unbound => (
            LoginState {
                phase: LoginPhase::Finished {
                    outcome: if s.granted {
                        LoginOutcome::Authenticated
                    } else {
                        LoginOutcome::AuthenticationFailure
                    },
                },
                ..s
            },
            ActionKind::Finish,
        ),
    }
}

/// The state a login reaches and the actions it takes when it is started and then
/// handed `events` in turn.
pub open spec fn run(events: Seq<EventKind>) -> (LoginState, Seq<ActionKind>)
    decreases events.len(),
{
    if events.len() == 0 {
        let (s, a) = start(initial_state());
        (s, seq![a])
    } else {
        let (s, acts) = run(events.drop_last());
        let (s2, a) = next(s, events.last());
        (s2, acts.push(a))
    }
}

/// Whether each of `events` answers what the login waited for at its turn.
pub open spec fn valid_run(events: Seq<EventKind>) -> bool
    decreases events.len(),
{
    events.len() == 0 || (valid_run(events.drop_last()) && accepts(
        run(events.drop_last()).0,
        events.last(),
    ))
}

/// How many of `acts` are of kind `k`.
pub open spec fn count_action(acts: Seq<ActionKind>, k: ActionKind) -> nat
    decreases acts.len(),
{
    if acts.len() == 0 {
        0
    } else {
        count_action(acts.drop_last(), k) + if acts.last() == k {
            1nat
        } else {
            0nat
        }
    }
}

/// Whether a connection to the directory was opened along `events`.
pub open spec fn connection_opened(events: Seq<EventKind>) -> bool
    decreases events.len(),
{
    events.len() > 0 && (connection_opened(events.drop_last()) || events.last()
        == EventKind::Opened { ok: true })
}

proof fn lemma_count_push(acts: Seq<ActionKind>, a: ActionKind, k: ActionKind)
    ensures
        count_action(acts.push(a), k) == count_action(acts, k) + if a == k {
            1nat
        } else {
            0nat
        },
{
    assert(acts.push(a).drop_last() =~= acts);
}

proof fn lemma_run_invariant(events: Seq<EventKind>)
    requires
        valid_run(events),
    ensures
        consistent(run(events).0),
        run(events).0.phase != LoginPhase::Start,
        count_action(run(events).1, ActionKind::Unbind) == if run(events).0.link
            == LinkState::Closed {
            1nat
        } else {
            0nat
        },
        run(events).0.link == LinkState::Uninitialized <==> !connection_opened(events),
        !connection_opened(events) ==> count_action(run(events).1, ActionKind::Bind) == 0
            && count_action(run(events).1, ActionKind::Search) == 0,
    decreases events.len(),
{
    if events.len() == 0 {
        assert(count_action(seq![ActionKind::Connect], ActionKind::Unbind) == 0) by {
            lemma_count_push(Seq::empty(), ActionKind::Connect, ActionKind::Unbind);
            assert(Seq::<ActionKind>::empty().push(ActionKind::Connect) =~= seq![ActionKind::Connect]);
        }
        assert(count_action(seq![ActionKind::Connect], ActionKind::Bind) == 0) by {
            lemma_count_push(Seq::empty(), ActionKind::Connect, ActionKind::Bind);
            assert(Seq::<ActionKind>::empty().push(ActionKind::Connect) =~= seq![ActionKind::Connect]);
        }
        assert(count_action(seq![ActionKind::Connect], ActionKind::Search) == 0) by {
            lemma_count_push(Seq::empty(), ActionKind::Connect, ActionKind::Search);
            assert(Seq::<ActionKind>::empty().push(ActionKind::Connect) =~= seq![ActionKind::Connect]);
        }
    } else {
        let prev = events.drop_last();
        lemma_run_invariant(prev);
        let (s, acts) = run(prev);
        let (s2, a) = next(s, events.last());
        lemma_count_push(acts, a, ActionKind::Unbind);
        lemma_count_push(acts, a, ActionKind::Bind);
        lemma_count_push(acts, a, ActionKind::Search);
    }
}

/// Every connection that a login opens is released exactly once, on every way the login
/// can end (granted, credential refused), and a login whose connection never opened sends
/// no unbind, no bind and no search. Before the end, no connection is unbound twice.
pub proof fn lemma_unbind_exactly_once(events: Seq<EventKind>)
    requires
        valid_run(events),
    ensures
        count_action(run(events).1, ActionKind::Unbind) <= 1,
        run(events).0.phase is Finished ==> count_action(run(events).1, ActionKind::Unbind) == if connection_opened(events) {
            1nat
        } else {
            0nat
        },
        !connection_opened(events) ==> count_action(run(events).1, ActionKind::Bind) == 0
            && count_action(run(events).1, ActionKind::Search) == 0,
{
    lemma_run_invariant(events);
}

/// One login request against the directory, from the connection to its release.
///
/// The caller carries out each action the flow returns and hands back what came of it;
/// the flow decides what follows.
pub struct LoginFlow {
    pub connector: LdapConnector,
    pub username: String,
    pub password: String,
    pub phase: LoginPhase,
    pub granted: bool,
    pub permissions: Vec<Permission>,
}

impl LoginFlow {
    pub open spec fn state(&self) -> LoginState {
        LoginState { phase: self.phase, link: self.connector.state, granted: self.granted }
    }

    /// A login of `username` with `password` against the directory of `config`.
    pub fn new(config: &Config, username: &str, password: &str) -> (r: LoginFlow)
        ensures
            r.state() == initial_state(),
            consistent(r.state()),
            r.username@ == username@,
            r.password@ == password@,
            r.connector.url@ == config.ldap_url@,
            r.connector.base_dn@ == config.ad_base_dn@,
            r.connector.filter_format@ == config.ad_filter_format@,
            strings_view(r.connector.attrs@) == strings_view(config.ad_attrs@),
            r.permissions@.len() == 0,
    {
        LoginFlow {
            connector: LdapConnector::new(config),
            username: String::from_str(username),
            password: String::from_str(password),
            phase: LoginPhase::Start,
            granted: false,
            permissions: Vec::new(),
        }
    }

    /// Starts the login: the first action is to connect to the directory.
    pub fn start(&mut self) -> (r: LoginAction)
        requires
            old(self).phase == LoginPhase::Start,
            consistent(old(self).state()),
        ensures
            consistent(final(self).state()),
            (final(self).state(), action_kind(r)) == start(old(self).state()),
            r matches LoginAction::Connect { url } && url@ == old(self).connector.url@,
            final(self).connector == old(self).connector,
            final(self).username == old(self).username,
            final(self).permissions == old(self).permissions,
    {
        self.phase = LoginPhase::AwaitConnect;
        LoginAction::Connect { url: self.connector.url.clone() }
    }

    /// Whether `event` may be handed to `step` now: it answers what the login waits for.
    pub fn expects(&self, event: &LoginEvent) -> (r: bool)
        ensures
            r == (consistent(self.state()) && accepts(self.state(), event_kind(*event))),
    {
        let link = self.connector.state;
        let consistent_now = match self.phase {
            LoginPhase::Start => link == LinkState::Uninitialized,
            LoginPhase::AwaitConnect => link == LinkState::Uninitialized,
            LoginPhase::AwaitBind => link == LinkState::Connected,
            LoginPhase::AwaitSearch => link == LinkState::Connected,
            LoginPhase::AwaitUnbind => link == LinkState::Closed,
            LoginPhase::Finished { .. } => link != LinkState::Connected,
        };
        let answers = match (self.phase, event) {
            (LoginPhase::AwaitConnect, LoginEvent::Opened { .. }) => true,
            (LoginPhase::AwaitBind, LoginEvent::BindAnswered { .. }) => true,
            (LoginPhase::AwaitSearch, LoginEvent::SearchAnswered { .. }) => true,
            (LoginPhase::AwaitUnbind, LoginEvent::Unbound) => true,
            _ => false,
        };
        consistent_now && answers
    }

    /// Takes the decision on `event` and returns the next action.
    pub fn step(&mut self, event: LoginEvent) -> (r: LoginAction)
        requires
            consistent(old(self).state()),
            accepts(old(self).state(), event_kind(event)),
        ensures
            consistent(final(self).state()),
            (final(self).state(), action_kind(r)) == next(old(self).state(), event_kind(event)),
            final(self).username == old(self).username,
            final(self).password == old(self).password,
            final(self).connector.url == old(self).connector.url,
            final(self).connector.base_dn == old(self).connector.base_dn,
            final(self).connector.filter_format == old(self).connector.filter_format,
            final(self).connector.attrs == old(self).connector.attrs,
            r matches LoginAction::Bind { dn, password } ==> {
                &&& dn@ == bind_dn_of(old(self).username@, old(self).connector.base_dn@)
                &&& password@ == old(self).password@
            },
            r matches LoginAction::Search { request } ==> {
                &&& request.base@ == old(self).connector.base_dn@
                &&& request.filter@ == fill_template(
                    old(self).connector.filter_format@,
                    escape_filter_value(old(self).username@),
                )
                &&& strings_view(request.attrs@) == strings_view(old(self).connector.attrs@)
            },
            event matches LoginEvent::SearchAnswered { answer } ==> final(self).permissions@.map_values(
                |p: Permission| p@,
            ) == permissions_of(reply_entries(answer)),
            !(event is SearchAnswered) ==> final(self).permissions == old(self).permissions,
    {
        match event {
            LoginEvent::Opened { ok } => {
                if self.connector.initialize(ok) {
                    self.phase = LoginPhase::AwaitBind;
                    match self.connector.bind_request(self.username.as_str()) {
                        Some(dn) => LoginAction::Bind { dn, password: self.password.clone() },
                        None => LoginAction::Finish,
                    }
                } else {
                    self.phase = LoginPhase::Finished { outcome: LoginOutcome::TransportFailure };
                    LoginAction::Finish
                }
            },
            LoginEvent::BindAnswered { reply } => {
                if self.connector.check_bind(&reply) {
                    self.granted = true;
                    self.phase = LoginPhase::AwaitSearch;
                    match self.connector.permission_lookup(self.username.as_str()) {
                        Some(request) => LoginAction::Search { request },
                        None => LoginAction::Finish,
                    }
                } else {
                    self.granted = false;
                    self.connector.unbind_ldap();
                    self.phase = LoginPhase::AwaitUnbind;
                    LoginAction::Unbind
                }
            },
            LoginEvent::SearchAnswered { answer } => {
                self.permissions = self.connector.resolve_permissions_from(answer);
                self.connector.unbind_ldap();
                self.phase = LoginPhase::AwaitUnbind;
                LoginAction::Unbind
            },
            LoginEvent::Unbound => {
                let outcome = if self.granted {
                    LoginOutcome::Authenticated
                } else {
                    LoginOutcome::AuthenticationFailure
                };
                self.phase = LoginPhase::Finished { outcome };
                LoginAction::Finish
            },
        }
    }
}

/// What a login request comes to.
pub enum LoginResult {
    /// The signed token issued to the user.
    Token { token: String },
    /// The directory did not accept the credential.
    Unauthorized,
    /// The directory could not be reached.
    TransportFailure,
    /// The token could not be issued.
    InternalError,
}

impl LoginFlow {
    /// Ends a finished login: a user the directory accepted gets a token with the
    /// permissions that were found (none where the search found none or failed); the other
    /// outcomes pass through.
    pub fn finish(self, config: &Config) -> (r: LoginResult)
        requires
            self.phase is Finished,
        ensures
            self.phase == (LoginPhase::Finished { outcome: LoginOutcome::TransportFailure })
                <==> r is TransportFailure,
            self.phase == (LoginPhase::Finished { outcome: LoginOutcome::AuthenticationFailure })
                <==> r is Unauthorized,
            self.phase == (LoginPhase::Finished { outcome: LoginOutcome::Authenticated })
                <==> r is Token,
            !(r is InternalError),
            r matches LoginResult::Token { token } ==> exists|now: i64|
                token@ == #[trigger] token_issued_at(
                    self.username@,
                    permissions_view(self.permissions@),
                    now as int,
                    *config,
                ),
    {
        match self.phase {
            LoginPhase::Finished { outcome: LoginOutcome::TransportFailure } => {
                LoginResult::TransportFailure
            },
            LoginPhase::Finished { outcome: LoginOutcome::AuthenticationFailure } => {
                LoginResult::Unauthorized
            },
            _ => match issue_token(self.username.as_str(), self.permissions, config) {
                Ok(token) => LoginResult::Token { token },
                Err(_) => LoginResult::InternalError,
            },
        }
    }
}

} // verus!
