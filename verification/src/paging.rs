use crate::error::FetchError;
use crate::params::Params;
use vstd::prelude::*;

verus! {

/// What a page says of its place in the whole result.
pub struct Meta {
    pub result_count: Option<i64>,
    pub previous_token: Option<String>,
    pub next_token: Option<String>,
}

/// What the server answers: the data, and what it says of further pages.
pub struct Envelope<T> {
    pub data: T,
    pub meta: Option<Meta>,
}

/// How one request for a page ended.
pub enum Reply<T> {
    Page(Envelope<Vec<T>>),
    Failed(FetchError),
}

/// The name of the parameter that carries the continuation token.
pub open spec fn token_key() -> Seq<char> {
    "pagination_token"@
}

/// The pause after every page that was received, in milliseconds.
pub const PAGE_DELAY_MILLIS: u64 = 3000;

/// The continuation token of a page: absent when the page has no `meta`, and
/// when its `meta` has no `next_token`.
pub open spec fn next_token_of(meta: Option<Meta>) -> Option<Seq<char>> {
    match meta {
        Some(m) => match m.next_token {
            Some(token) => Some(token@),
            None => None,
        },
        None => None,
    }
}

/// The parameters of the request that is due: the base parameters, and the
/// continuation token when one is held.
pub open spec fn request_params(
    base: Map<Seq<char>, Seq<char>>,
    token: Option<Seq<char>>,
) -> Map<Seq<char>, Seq<char>> {
    match token {
        Some(t) => base.insert(token_key(), t),
        None => base,
    }
}

impl<T> Envelope<T> {
    /// The data of an answer that is not paginated. Whether there is a
    /// `meta`, and what it holds, plays no part.
    pub fn into_data(self) -> (data: T)
        ensures
            data == self.data,
    {
        self.data
    }
}

/// The state of one fetch of all pages, as a plain value.
pub struct PaginatorView<T> {
    pub base: Map<Seq<char>, Seq<char>>,
    pub token: Option<Seq<char>>,
    pub items: Seq<T>,
}

/// One fetch of all pages of a resource, between two requests: the base
/// parameters, the continuation token of the page received last, and the
/// items gathered so far.
pub struct Paginator<T> {
    base: Params,
    token: Option<String>,
    items: Vec<T>,
}

/// What follows a reply.
pub enum Turn<T> {
    /// Another page is to be requested.
    Next(Paginator<T>),
    /// The page was the last one: these are all the items, in the order in
    /// which the server gave them.
    Done(Vec<T>),
    /// The fetch is given up. The items gathered before are gone.
    Failed(FetchError),
}

impl<T> View for Paginator<T> {
    type V = PaginatorView<T>;

    closed spec fn view(&self) -> PaginatorView<T> {
        PaginatorView {
            base: self.base@,
            token: match self.token {
                Some(t) => Some(t@),
                None => None,
            },
            items: self.items@,
        }
    }
}

impl<T> Paginator<T> {
    /// Starts a fetch: no token is held and nothing is gathered.
    pub fn new(base: Params) -> (r: Paginator<T>)
        ensures
            r@.base == base@,
            r@.token == None::<Seq<char>>,
            r@.items == Seq::<T>::empty(),
    {
        Paginator { base, token: None, items: Vec::new() }
    }

    /// The parameters of the request that is due. They are signed and sent
    /// as they are.
    pub fn request(&self) -> (r: Params)
        ensures
            r@ == request_params(self@.base, self@.token),
    {
        let mut r = self.base.clone();
        match &self.token {
            Some(t) => {
                r.insert("pagination_token", t.as_str());
            },
            None => {},
        }
        r
    }

    /// The items gathered so far.
    pub fn items(&self) -> (r: &Vec<T>)
        ensures
            r@ == self@.items,
    {
        &self.items
    }

    /// Takes the reply to the request that was due. A page's data is added
    /// behind what was gathered; the fetch goes on exactly when the page
    /// names a next token. A failure ends the fetch and drops what was
    /// gathered.
    pub fn accept(self, reply: Reply<T>) -> (turn: Turn<T>)
        ensures
            match reply {
                Reply::Failed(error) => turn == Turn::<T>::Failed(error),
                Reply::Page(page) => match next_token_of(page.meta) {
                    Some(token) => match turn {
                        Turn::Next(next) => next@ == (PaginatorView {
                            base: self@.base,
                            token: Some(token),
                            items: self@.items + page.data@,
                        }),
                        _ => false,
                    },
                    None => match turn {
                        Turn::Done(items) => items@ == self@.items + page.data@,
                        _ => false,
                    },
                },
            },
    {
        match reply {
            Reply::Failed(error) => Turn::Failed(error),
            Reply::Page(page) => {
                let Paginator { base, token: _, items } = self;
                let mut items = items;
                let mut data = page.data;
                items.append(&mut data);
                let next = match page.meta {
                    Some(meta) => meta.next_token,
                    None => None,
                };
                match next {
                    Some(token) => Turn::Next(Paginator { base, token: Some(token), items }),
                    None => Turn::Done(items),
                }
            },
        }
    }
}

impl<T> Turn<T> {
    /// How long to pause before going on: the fixed delay after every page
    /// that was received, the last one included, and none after a failure.
    pub fn pause_millis(&self) -> (millis: u64)
        ensures
            millis == match self {
                Turn::Failed(_) => 0,
                _ => PAGE_DELAY_MILLIS,
            },
    {
        match self {
            Turn::Failed(_) => 0,
            _ => PAGE_DELAY_MILLIS,
        }
    }
}

/// How a fetch of all pages ends when the server's replies are the given
/// ones, in turn.
pub enum Run<T> {
    /// The fetch ended with these items after so many requests.
    Done { requests: nat, items: Seq<T> },
    /// The last of so many requests failed, and nothing is returned.
    Failed { requests: nat, error: FetchError },
    /// Every reply was taken and the fetch is not over: so many requests
    /// were answered, and the next one is due.
    Waiting { requests: nat, token: Option<Seq<char>>, items: Seq<T> },
}

/// The fetch from the reply at `at` on, with the token held and the items
/// gathered up to there.
pub open spec fn run_from<T>(
    replies: Seq<Reply<T>>,
    at: nat,
    token: Option<Seq<char>>,
    items: Seq<T>,
) -> Run<T>
    decreases replies.len() - at,
{
    if at >= replies.len() {
        Run::Waiting { requests: at, token, items }
    } else {
        match replies[at as int] {
            Reply::Failed(error) => Run::Failed { requests: at + 1, error },
            Reply::Page(page) => match next_token_of(page.meta) {
                Some(next) => run_from(replies, at + 1, Some(next), items + page.data@),
                None => Run::Done { requests: at + 1, items: items + page.data@ },
            },
        }
    }
}

/// The fetch from its start.
pub open spec fn run<T>(replies: Seq<Reply<T>>) -> Run<T> {
    run_from(replies, 0, None, Seq::empty())
}

/// How a replayed fetch ended.
pub enum Outcome<T> {
    Done(Vec<T>),
    Failed(FetchError),
    Waiting(Paginator<T>),
}

/// A replayed fetch: the number of requests that were answered, and the end.
pub struct Replay<T> {
    pub requests: usize,
    pub outcome: Outcome<T>,
}

/// Runs a fetch of all pages against replies that are already there, taking
/// them in turn for as long as the fetch asks for one.
#[verifier::loop_isolation(false)]
pub fn replay<T>(base: Params, replies: Vec<Reply<T>>) -> (r: Replay<T>)
    ensures
        match run(replies@) {
            Run::Done { requests, items } => r.requests == requests && match r.outcome {
                Outcome::Done(v) => v@ == items,
                _ => false,
            },
            Run::Failed { requests, error } => r.requests == requests && match r.outcome {
                Outcome::Failed(e) => e == error,
                _ => false,
            },
            Run::Waiting { requests, token, items } => r.requests == requests && match r.outcome {
                Outcome::Waiting(p) => p@ == (PaginatorView { base: base@, token, items }),
                _ => false,
            },
        },
{
    let ghost script = replies@;
    let ghost base_map = base@;
    let total = replies.len();
    let mut replies = replies;
    let mut pager: Paginator<T> = Paginator::new(base);
    let mut taken: usize = 0;
    proof {
        assert(script.subrange(0, script.len() as int) == script);
    }
    while taken < total
        invariant
            pager@.base == base_map,
            taken <= total,
            total == script.len(),
            replies@ == script.subrange(taken as int, script.len() as int),
            run(script) == run_from(script, taken as nat, pager@.token, pager@.items),
        decreases total - taken,
    {
        let reply = replies.remove(0);
        proof {
            assert(reply == script[taken as int]);
            assert(replies@ == script.subrange(taken + 1, script.len() as int));
        }
        taken += 1;
        match pager.accept(reply) {
            Turn::Next(next) => {
                pager = next;
            },
            Turn::Done(items) => {
                return Replay { requests: taken, outcome: Outcome::Done(items) };
            },
            Turn::Failed(error) => {
                return Replay { requests: taken, outcome: Outcome::Failed(error) };
            },
        }
    }
    Replay { requests: taken, outcome: Outcome::Waiting(pager) }
}

/// The data that a reply brings: a page's items, and nothing for a failure.
pub open spec fn data_of<T>(reply: Reply<T>) -> Seq<T> {
    match reply {
        Reply::Page(page) => page.data@,
        Reply::Failed(_) => Seq::empty(),
    }
}

/// The data of the first `n` replies, one after the other.
pub open spec fn gathered<T>(replies: Seq<Reply<T>>, n: nat) -> Seq<T>
    decreases n,
{
    if n == 0 {
        Seq::empty()
    } else {
        gathered(replies, (n - 1) as nat) + data_of(replies[n - 1])
    }
}

/// The reply is a page that names a next token.
pub open spec fn leads_on<T>(reply: Reply<T>) -> bool {
    match reply {
        Reply::Page(page) => next_token_of(page.meta) is Some,
        Reply::Failed(_) => false,
    }
}

/// The reply is a page that names no next token, for want of a `meta` or of
/// a `next_token` in it.
pub open spec fn is_last_page<T>(reply: Reply<T>) -> bool {
    match reply {
        Reply::Page(page) => next_token_of(page.meta) is None,
        Reply::Failed(_) => false,
    }
}

/// The token held after `n` replies were taken.
pub open spec fn token_after<T>(replies: Seq<Reply<T>>, n: nat) -> Option<Seq<char>> {
    if n == 0 {
        None
    } else {
        match replies[n - 1] {
            Reply::Page(page) => next_token_of(page.meta),
            Reply::Failed(_) => None,
        }
    }
}

/// While every page names a next token, the fetch takes one reply after the
/// other and gathers their data in order.
pub proof fn lemma_run_takes_leading_pages<T>(replies: Seq<Reply<T>>, k: nat)
    requires
        k <= replies.len(),
        forall|j: int| 0 <= j < k ==> leads_on(#[trigger] replies[j]),
    ensures
        run(replies) == run_from(replies, k, token_after(replies, k), gathered(replies, k)),
    decreases k,
{
    if k > 0 {
        let before = (k - 1) as nat;
        lemma_run_takes_leading_pages(replies, before);
        assert(leads_on(replies[before as int]));
        assert(Seq::<T>::empty() + data_of(replies[0]) =~= data_of(replies[0]));
    }
}

/// Pages that each name the next token, and a last page that names none:
/// the fetch makes exactly as many requests as there are pages, and returns
/// the data of all of them in order.
pub proof fn lemma_fetches_every_page<T>(replies: Seq<Reply<T>>)
    requires
        replies.len() > 0,
        forall|j: int| 0 <= j < replies.len() - 1 ==> leads_on(#[trigger] replies[j]),
        is_last_page(replies[replies.len() - 1]),
    ensures
        run(replies) == (Run::Done {
            requests: replies.len(),
            items: gathered(replies, replies.len()),
        }),
{
    lemma_run_takes_leading_pages(replies, (replies.len() - 1) as nat);
}

/// A page whose `meta` is there but names no next token ends the fetch at
/// once, whatever its `result_count` says and whatever replies would
/// follow.
pub proof fn lemma_stops_without_next_token<T>(replies: Seq<Reply<T>>, k: nat)
    requires
        k < replies.len(),
        forall|j: int| 0 <= j < k ==> leads_on(#[trigger] replies[j]),
        match replies[k as int] {
            Reply::Page(page) => page.meta is Some && page.meta->0.next_token is None,
            Reply::Failed(_) => false,
        },
    ensures
        run(replies) == (Run::Done { requests: k + 1, items: gathered(replies, k + 1) }),
{
    lemma_run_takes_leading_pages(replies, k);
}

/// A request that fails ends the fetch with its error. The result holds no
/// items: what the pages before had brought is not returned.
pub proof fn lemma_failure_ends_fetch<T>(replies: Seq<Reply<T>>, k: nat, error: FetchError)
    requires
        k < replies.len(),
        forall|j: int| 0 <= j < k ==> leads_on(#[trigger] replies[j]),
        replies[k as int] == Reply::<T>::Failed(error),
    ensures
        run(replies) == (Run::<T>::Failed { requests: k + 1, error }),
{
    lemma_run_takes_leading_pages(replies, k);
}

} // verus!
