//! The pagination controller.
//!
//! The listing API serves at most 60 users per call and signals more pages
//! with a continuation token. A caller may also set a total cap on how many
//! users to retrieve. [`Paginator`] plans the per-call limit, accumulates
//! the users and the per-page errors, and decides when the run is over:
//! when the cap's budget is spent, or when a response carries no token.
//!
//! The controller never performs a call itself: the caller fetches a page
//! however it likes and hands the outcome to [`Paginator::on_page`].

use crate::models::UserType;
use vstd::prelude::*;

verus! {

/// Why a single page could not be fetched. A failed page is recorded and
/// the run continues; it does not abort the loop.
#[derive(Clone, Debug, PartialEq, Eq)]
pub enum FetchError {
    /// The listing call could not be made or answered with failure.
    Transport(String),
    /// The response payload did not match the expected shape.
    Deserialization(String),
    /// A per-call limit above the API's 60-record ceiling was requested;
    /// rejected before any call is made.
    Configuration(String),
}

/// What one fetch attempt produced: a page of users with the next
/// continuation token, or an error.
pub enum PageOutcome {
    Page { users: Vec<UserType>, pagination_token: Option<String> },
    Failure { error: FetchError },
}

/// Mathematical image of a [`PageOutcome`].
#[verifier::ext_equal]
pub enum PageOutcomeView {
    Page { users: Seq<UserType>, token: Option<Seq<char>> },
    Failure { error: FetchError },
}

impl View for PageOutcome {
    type V = PageOutcomeView;

    open spec fn view(&self) -> PageOutcomeView {
        match self {
            PageOutcome::Page { users, pagination_token } => PageOutcomeView::Page {
                users: users@,
                token: pagination_token.deep_view(),
            },
            PageOutcome::Failure { error } => PageOutcomeView::Failure { error: *error },
        }
    }
}

/// Mathematical image of a [`Paginator`]: the planned limit and remaining
/// budget, the continuation token, what has been collected, and how many
/// outcomes have been processed.
#[verifier::ext_equal]
pub struct PaginatorView {
    pub cap: Option<u32>,
    pub limit: Option<u32>,
    pub pending: u32,
    pub token: Option<Seq<char>>,
    pub finished: bool,
    pub users: Seq<UserType>,
    pub errors: Seq<FetchError>,
    pub issued: nat,
}

/// The controller's starting state for a given total cap: no limit when
/// the cap is unset, the cap itself when it is at most 60, and otherwise
/// 60 now with the rest pending.
pub open spec fn pag_init(cap: Option<u32>) -> PaginatorView {
    PaginatorView {
        cap,
        limit: match cap {
            None => None,
            Some(c) => if c <= 60 {
                Some(c)
            } else {
                Some(60u32)
            },
        },
        pending: match cap {
            None => 0u32,
            Some(c) => if c <= 60 {
                0u32
            } else {
                (c - 60) as u32
            },
        },
        token: None,
        finished: false,
        users: Seq::empty(),
        errors: Seq::empty(),
        issued: 0,
    }
}

/// The users an outcome contributes.
pub open spec fn outcome_users(o: PageOutcomeView) -> Seq<UserType> {
    match o {
        PageOutcomeView::Page { users, .. } => users,
        PageOutcomeView::Failure { .. } => Seq::empty(),
    }
}

/// The errors an outcome contributes.
pub open spec fn outcome_errors(o: PageOutcomeView) -> Seq<FetchError> {
    match o {
        PageOutcomeView::Page { .. } => Seq::empty(),
        PageOutcomeView::Failure { error } => seq![error],
    }
}

/// The continuation token after an outcome: a page replaces it, a failure
/// leaves it as it was.
pub open spec fn token_after(s: PaginatorView, o: PageOutcomeView) -> Option<Seq<char>> {
    match o {
        PageOutcomeView::Page { token, .. } => token,
        PageOutcomeView::Failure { .. } => s.token,
    }
}

/// How one processed outcome transforms the controller's state. The limit
/// schedule advances whether or not the fetch succeeded; the run ends when
/// a set cap's budget is spent, or when the token is absent.
pub open spec fn pag_step(s: PaginatorView, o: PageOutcomeView) -> PaginatorView {
    let token = token_after(s, o);
    let spent = s.limit is Some && s.pending == 0;
    let limit = if s.limit is Some && !spent {
        if s.pending <= 60 {
            Some(s.pending)
        } else {
            Some(60u32)
        }
    } else {
        s.limit
    };
    let pending = if s.limit is Some && !spent {
        if s.pending <= 60 {
            0u32
        } else {
            (s.pending - 60) as u32
        }
    } else {
        s.pending
    };
    PaginatorView {
        cap: s.cap,
        limit,
        pending,
        token,
        finished: spent || token is None,
        users: s.users + outcome_users(o),
        errors: s.errors + outcome_errors(o),
        issued: s.issued + 1,
    }
}

/// The per-call limit the schedule plans for the request after `i` pages
/// have been processed, under total cap `c`.
pub open spec fn sched_limit(c: int, i: int) -> int {
    if c - 60 * i <= 60 {
        c - 60 * i
    } else {
        60
    }
}

/// The budget still unassigned after that request.
pub open spec fn sched_pending(c: int, i: int) -> int {
    if c - 60 * (i + 1) <= 0 {
        0
    } else {
        c - 60 * (i + 1)
    }
}

/// The schedule part of what holds of a reachable controller state.
///
/// With the cap unset no limit is ever planned. With a cap `c`, while the
/// run goes on the planned limit and the remaining budget follow the
/// schedule: 60 while more than 60 remain, the remainder at the end.
pub open spec fn pag_sched_inv(s: PaginatorView) -> bool {
    match s.cap {
        None => s.limit is None && s.pending == 0,
        Some(c) => {
            &&& c >= 1
            &&& (!s.finished ==> {
                &&& 60 * s.issued < c
                &&& s.limit == Some(sched_limit(c as int, s.issued as int) as u32)
                &&& s.pending == sched_pending(c as int, s.issued as int) as u32
            })
        },
    }
}

/// Everything that holds of a reachable controller state: the schedule,
/// and with a cap `c` a bound on the collection — the users collected so
/// far never exceed the budget already spent, and once the run is over
/// they never exceed the cap itself.
pub open spec fn pag_inv(s: PaginatorView) -> bool {
    &&& pag_sched_inv(s)
    &&& match s.cap {
        None => true,
        Some(c) => if s.finished {
            s.users.len() <= c
        } else {
            s.users.len() + sched_limit(c as int, s.issued as int) + s.pending <= c
        },
    }
}

/// A page respects the limit it was requested with. The listing API
/// promises this; the caller checks it before handing the page over.
pub open spec fn outcome_fits(s: PaginatorView, o: PageOutcomeView) -> bool {
    match o {
        PageOutcomeView::Page { users, .. } => match s.limit {
            Some(l) => users.len() <= l,
            None => true,
        },
        PageOutcomeView::Failure { .. } => true,
    }
}

/// One processed outcome keeps the state well-formed.
pub proof fn lemma_step_inv(s: PaginatorView, o: PageOutcomeView)
    requires
        pag_inv(s),
        !s.finished,
        outcome_fits(s, o),
    ensures
        pag_inv(pag_step(s, o)),
{
}

/// While a capped run goes on, the planned per-call limit is between 1
/// and 60: a request above the API's ceiling is never planned.
pub proof fn lemma_limit_in_bounds(s: PaginatorView)
    requires
        pag_inv(s),
        !s.finished,
    ensures
        s.cap is Some ==> (s.limit matches Some(l) && 1 <= l <= 60),
        s.cap is None ==> s.limit is None,
{
}

/// With a cap set, the collected users never exceed it.
pub proof fn lemma_cap_respected(s: PaginatorView)
    requires
        pag_inv(s),
    ensures
        s.cap matches Some(c) ==> s.users.len() <= c,
{
}

/// The schedule part alone is kept by every processed outcome.
pub proof fn lemma_step_sched_inv(s: PaginatorView, o: PageOutcomeView)
    requires
        pag_sched_inv(s),
        !s.finished,
    ensures
        pag_sched_inv(pag_step(s, o)),
{
}

/// The limits a run requests when the caller replays the given outcomes
/// in order: the limit planned before each processed outcome, until the
/// run is over or the outcomes run out.
pub open spec fn run_limits(s: PaginatorView, outcomes: Seq<PageOutcomeView>) -> Seq<Option<u32>>
    decreases outcomes.len(),
{
    if s.finished || outcomes.len() == 0 {
        Seq::empty()
    } else {
        seq![s.limit] + run_limits(pag_step(s, outcomes[0]), outcomes.drop_first())
    }
}

/// A successfully fetched page that carries a continuation token.
pub open spec fn page_with_token(o: PageOutcomeView) -> bool {
    o matches PageOutcomeView::Page { token: Some(_), .. }
}

/// How many requests a run under total cap `c` takes when the pool never
/// runs dry: one per 60 users of the cap, rounded up.
pub open spec fn n_requests(c: int) -> int {
    (c + 59) / 60
}

proof fn lemma_n_requests(c: int)
    requires
        c >= 1,
    ensures
        60 * n_requests(c) >= c,
        60 * (n_requests(c) - 1) < c,
{
    vstd::arithmetic::div_mod::lemma_fundamental_div_mod(c + 59, 60);
}

proof fn lemma_run_limits_rec(s: PaginatorView, outcomes: Seq<PageOutcomeView>, c: u32)
    requires
        pag_sched_inv(s),
        !s.finished,
        s.cap == Some(c),
        forall|k: int| 0 <= k < outcomes.len() ==> page_with_token(#[trigger] outcomes[k]),
        60 * (s.issued + outcomes.len()) >= c,
    ensures
        ({
            let ls = run_limits(s, outcomes);
            &&& ls.len() == n_requests(c as int) - s.issued
            &&& forall|k: int|
                0 <= k < ls.len() ==> #[trigger] ls[k] == Some(
                    sched_limit(c as int, s.issued + k) as u32,
                )
        }),
    decreases outcomes.len(),
{
    lemma_n_requests(c as int);
    let s2 = pag_step(s, outcomes[0]);
    let ls = run_limits(s, outcomes);
    if s.pending == 0 {
        assert(s2.finished);
        assert(ls =~= seq![s.limit] + run_limits(s2, outcomes.drop_first()));
        assert(run_limits(s2, outcomes.drop_first()) =~= Seq::<Option<u32>>::empty());
        assert(ls.len() == 1);
        assert(s.issued == n_requests(c as int) - 1);
    } else {
        lemma_step_sched_inv(s, outcomes[0]);
        assert(!s2.finished);
        lemma_run_limits_rec(s2, outcomes.drop_first(), c);
        assert(ls =~= seq![s.limit] + run_limits(s2, outcomes.drop_first()));
        assert forall|k: int| 0 <= k < ls.len() implies #[trigger] ls[k] == Some(
            sched_limit(c as int, s.issued + k) as u32,
        ) by {
            if k > 0 {
                assert(ls[k] == run_limits(s2, outcomes.drop_first())[k - 1]);
            }
        }
    }
}

/// With a total cap of at most 60, exactly one request is made, with the
/// cap itself as its limit — whatever the outcome of that request.
pub proof fn lemma_small_cap_single_request(c: u32, outcomes: Seq<PageOutcomeView>)
    requires
        1 <= c <= 60,
        outcomes.len() >= 1,
    ensures
        run_limits(pag_init(Some(c)), outcomes) =~= seq![Some(c)],
        pag_step(pag_init(Some(c)), outcomes[0]).finished,
{
    let s = pag_init(Some(c));
    assert(run_limits(s, outcomes) =~= seq![s.limit] + run_limits(
        pag_step(s, outcomes[0]),
        outcomes.drop_first(),
    ));
}

/// With a total cap above 60 and a pool that never runs dry, the limits
/// requested are 60, 60, ..., and finally `c % 60` — or a last full 60
/// when the cap is an exact multiple, the run stopping there because the
/// budget reaches zero exactly.
pub proof fn lemma_large_cap_schedule(c: u32, outcomes: Seq<PageOutcomeView>)
    requires
        c > 60,
        forall|k: int| 0 <= k < outcomes.len() ==> page_with_token(#[trigger] outcomes[k]),
        60 * outcomes.len() >= c,
    ensures
        ({
            let ls = run_limits(pag_init(Some(c)), outcomes);
            let n = n_requests(c as int);
            &&& ls.len() == n
            &&& forall|k: int| 0 <= k < n - 1 ==> #[trigger] ls[k] == Some(60u32)
            &&& ls[n - 1] == Some(
                (if c % 60 == 0 {
                    60u32
                } else {
                    (c % 60) as u32
                }),
            )
        }),
{
    let s = pag_init(Some(c));
    let n = n_requests(c as int);
    lemma_n_requests(c as int);
    lemma_run_limits_rec(s, outcomes, c);
    let ls = run_limits(s, outcomes);
    assert forall|k: int| 0 <= k < n - 1 implies #[trigger] ls[k] == Some(60u32) by {
        assert(ls[k] == Some(sched_limit(c as int, k) as u32));
    }
    assert(ls[n - 1] == Some(sched_limit(c as int, n - 1) as u32));
    vstd::arithmetic::div_mod::lemma_fundamental_div_mod(c as int, 60);
}

/// With the cap unset, a run goes on exactly until an outcome leaves no
/// continuation token: a fetched page stops the run when it carries none,
/// and a failed page stops it only when no token was in hand already.
pub proof fn lemma_uncapped_stops_on_token(s: PaginatorView, o: PageOutcomeView)
    requires
        pag_sched_inv(s),
        s.cap is None,
        !s.finished,
    ensures
        pag_step(s, o).finished <==> token_after(s, o) is None,
{
}

/// Rejects a per-call limit above the API's 60-record ceiling before any
/// call is made; anything else passes through. The controller never plans
/// such a limit (`lemma_limit_in_bounds`), so on its requests this check
/// cannot fail: a failure would be an internal error.
pub fn validate_limit(limit: Option<u32>) -> (r: Result<Option<u32>, FetchError>)
    ensures
        match r {
            Ok(l) => l == limit && (limit matches Some(v) ==> v <= 60),
            Err(e) => {
                &&& limit matches Some(v) && v > 60
                &&& e matches FetchError::Configuration(m) && m@
                    == "The limit cannot be greater than 60"@
            },
        },
{
    match limit {
        Some(l) => if l > 60 {
            Err(
                FetchError::Configuration(
                    String::from_str("The limit cannot be greater than 60"),
                ),
            )
        } else {
            Ok(limit)
        },
        None => Ok(limit),
    }
}

/// The pagination controller. Feed it the outcome of each fetch; read the
/// planned limit and token for the next request from its fields.
pub struct Paginator {
    /// The caller's total cap, unchanged for the whole run.
    pub cap: Option<u32>,
    /// The limit to request the next page with.
    pub limit: Option<u32>,
    /// Budget left beyond the next request.
    pub pending: u32,
    /// The continuation token for the next request.
    pub token: Option<String>,
    /// No further page should be requested.
    pub finished: bool,
    /// All users collected so far, in arrival order.
    pub users: Vec<UserType>,
    /// The errors of the failed pages, in arrival order.
    pub errors: Vec<FetchError>,
    /// How many outcomes have been processed.
    pub issued: Ghost<nat>,
}

impl View for Paginator {
    type V = PaginatorView;

    open spec fn view(&self) -> PaginatorView {
        PaginatorView {
            cap: self.cap,
            limit: self.limit,
            pending: self.pending,
            token: self.token.deep_view(),
            finished: self.finished,
            users: self.users@,
            errors: self.errors@,
            issued: self.issued@,
        }
    }
}

impl Paginator {
    /// A controller for one run under the given total cap. A cap, when
    /// set, must be positive.
    pub fn new(cap: Option<u32>) -> (p: Paginator)
        requires
            cap matches Some(c) ==> c >= 1,
        ensures
            p@ == pag_init(cap),
            pag_inv(p@),
    {
        let (limit, pending): (Option<u32>, u32) = match cap {
            None => (None, 0),
            Some(c) => if c <= 60 {
                (Some(c), 0)
            } else {
                (Some(60), c - 60)
            },
        };
        let p = Paginator {
            cap,
            limit,
            pending,
            token: None,
            finished: false,
            users: Vec::new(),
            errors: Vec::new(),
            issued: Ghost(0),
        };
        proof {
            assert(p@ =~= pag_init(cap));
        }
        p
    }

    /// Processes the outcome of the page just fetched: collects its users
    /// or records its error, takes over the token, advances the limit
    /// schedule, and decides whether the run is over.
    pub fn on_page(&mut self, outcome: PageOutcome)
        requires
            pag_inv(old(self)@),
            !old(self)@.finished,
            outcome_fits(old(self)@, outcome@),
        ensures
            final(self)@ == pag_step(old(self)@, outcome@),
            pag_inv(final(self)@),
    {
        proof {
            lemma_step_inv(self@, outcome@);
        }
        let ghost pre = self@;
        let ghost o = outcome@;
        match outcome {
            PageOutcome::Page { users: mut page_users, pagination_token } => {
                self.users.append(&mut page_users);
                self.token = pagination_token;
            },
            PageOutcome::Failure { error } => {
                self.errors.push(error);
            },
        }
        if self.limit.is_some() {
            if self.pending == 0 {
                self.finished = true;
            } else if self.pending <= 60 {
                self.limit = Some(self.pending);
                self.pending = 0;
            } else {
                self.limit = Some(60);
                self.pending = self.pending - 60;
            }
        }
        if !self.finished && self.token.is_none() {
            self.finished = true;
        }
        self.issued = Ghost(self.issued@ + 1);
        proof {
            assert(self@ =~= pag_step(pre, o));
        }
    }
}

} // verus!
