//! Reading messages for their timestamps: a pool of clients.

use crate::text::{decimal, unsigned_text};
use vstd::prelude::*;

verus! {

/// A message's timestamp.
#[derive(Debug, Clone, Copy, PartialEq, Eq, Structural)]
pub struct TimestampFetchResult {
    pub timestamp_ms: i64,
}

/// The name under which the `counter`-th client of a cluster's pool is known.
pub fn consumer_client_id(cluster: &str, counter: u64) -> (id: String)
    ensures
        id@ == "klag-exporter-ts-"@ + cluster@ + "-"@ + decimal(counter as int),
{
    let mut id = "klag-exporter-ts-".to_owned();
    id.append(cluster);
    id.append("-");
    id.append(unsigned_text(counter).as_str());
    id
}

/// Whether the attempt at `i` is the first that failed, with the error `e`.
pub open spec fn failed_first<T, E>(made: Seq<Result<T, E>>, i: int, e: E) -> bool {
    &&& 0 <= i < made.len()
    &&& made[i] == Err::<T, E>(e)
    &&& forall|k: int| 0 <= k < i ==> #[trigger] made[k] is Ok
}

/// Whether all attempts succeeded, and these are the clients that they made.
pub open spec fn all_made<T, E>(made: Seq<Result<T, E>>, clients: Seq<T>) -> bool {
    &&& made.len() == clients.len()
    &&& forall|k: int| 0 <= k < made.len() ==> #[trigger] made[k] == Ok::<T, E>(clients[k])
}

/// Where all attempts succeeded the clients are those that were made, in order. Where one failed,
/// the error is its own, and no attempt before it failed; so one cannot be taken for the other.
pub proof fn attempts_end_in_clients_or_the_first_error<T, E>(
    made: Seq<Result<T, E>>,
    clients: Seq<T>,
    i: int,
    e: E,
    k: int,
)
    ensures
        all_made(made, clients) ==> made.len() == clients.len() && (0 <= k < made.len() ==> made[k]
            == Ok::<T, E>(clients[k])),
        failed_first(made, i, e) ==> 0 <= i < made.len() && made[i] == Err::<T, E>(e) && (0 <= k < i
            ==> made[k] is Ok),
        !(all_made(made, clients) && failed_first(made, i, e)),
{
    if all_made(made, clients) && failed_first(made, i, e) {
        assert(made[i] == Ok::<T, E>(clients[i]));
    }
}

/// The clients that were made, or the first error where one could not be made.
fn collect_made<T, E>(made: Vec<Result<T, E>>) -> (collected: Result<Vec<T>, E>)
    ensures
        collected matches Ok(clients) ==> all_made(made@, clients@),
        collected matches Err(e) ==> exists|i: int| failed_first(made@, i, e),
{
    let mut clients: Vec<T> = Vec::new();
    for attempt in it: made.into_iter()
        invariant
            it.seq() == made@,
            clients@.len() == it.index(),
            forall|k: int| 0 <= k < it.index() ==> #[trigger] made@[k] == Ok::<T, E>(clients@[k]),
    {
        assert(attempt == made@[it.index()]);
        match attempt {
            Ok(client) => {
                clients.push(client);
            },
            Err(e) => {
                let ghost at = it.index();
                let failure: Result<Vec<T>, E> = Err(e);
                assert(failed_first(made@, at, failure->Err_0));
                return failure;
            },
        }
    }
    Ok(clients)
}

/// Idle clients, ready to be used again; never more than the pool's size.
pub struct ConsumerPool<T> {
    idle: Vec<T>,
    size: usize,
}

impl<T> ConsumerPool<T> {
    /// The idle clients.
    pub closed spec fn idle(&self) -> Seq<T> {
        self.idle@
    }

    /// How many clients may be idle.
    pub closed spec fn size(&self) -> usize {
        self.size
    }

    /// No more clients are idle than may be.
    #[verifier::type_invariant]
    pub open spec fn well_formed(&self) -> bool {
        self.idle().len() <= self.size()
    }

    /// An empty pool.
    pub fn new(size: usize) -> (pool: Self)
        ensures
            pool.idle() == Seq::<T>::empty(),
            pool.size() == size,
    {
        ConsumerPool { idle: Vec::new(), size }
    }

    /// How many clients may be idle.
    pub fn pool_size(&self) -> (size: usize)
        ensures
            size == self.size(),
    {
        self.size
    }

    /// Takes an idle client, the one that was put back last. Where none is idle a new one has
    /// to be made.
    pub fn acquire(&mut self) -> (client: Option<T>)
        ensures
            final(self).size() == old(self).size(),
            match client {
                Some(client) => old(self).idle().len() > 0 && client == old(self).idle().last()
                    && final(self).idle() == old(self).idle().drop_last(),
                None => old(self).idle().len() == 0 && final(self).idle() == old(self).idle(),
            },
    {
        proof {
            use_type_invariant(&*self);
        }
        let mut idle: Vec<T> = Vec::new();
        std::mem::swap(&mut idle, &mut self.idle);
        let client = idle.pop();
        self.idle = idle;
        client
    }

    /// Puts a client back. It is dropped where it could not be cleared, or where the pool is
    /// full.
    pub fn release(&mut self, client: T, cleared: bool)
        ensures
            final(self).size() == old(self).size(),
            final(self).idle() == (if cleared && old(self).idle().len() < old(self).size() {
                old(self).idle().push(client)
            } else {
                old(self).idle()
            }),
    {
        proof {
            use_type_invariant(&*self);
        }
        if cleared && self.idle.len() < self.size {
            let mut idle: Vec<T> = Vec::new();
            std::mem::swap(&mut idle, &mut self.idle);
            idle.push(client);
            self.idle = idle;
        }
    }

    /// Replaces all idle clients by new ones, one for each place in the pool. The old ones are
    /// handed back.
    pub fn recycle(&mut self, fresh: Vec<T>) -> (old_clients: Vec<T>)
        requires
            fresh@.len() == old(self).size(),
        ensures
            final(self).size() == old(self).size(),
            final(self).idle() == fresh@,
            old_clients@ == old(self).idle(),
    {
        let mut idle: Vec<T> = Vec::new();
        std::mem::swap(&mut idle, &mut self.idle);
        self.idle = fresh;
        idle
    }

    /// Replaces all idle clients by new ones where these could be made, and hands the old ones
    /// back. Else the error is handed on, and the pool stays as it is.
    pub fn recycle_with<E>(&mut self, made: Result<Vec<T>, E>) -> (replaced: Result<Vec<T>, E>)
        requires
            made matches Ok(fresh) ==> fresh@.len() == old(self).size(),
        ensures
            final(self).size() == old(self).size(),
            match made {
                Ok(fresh) => replaced matches Ok(old_clients) && old_clients@ == old(self).idle()
                    && final(self).idle() == fresh@,
                Err(e) => replaced == Err::<Vec<T>, E>(e) && final(self).idle() == old(self).idle(),
            },
    {
        match made {
            Ok(fresh) => Ok(self.recycle(fresh)),
            Err(e) => Err(e),
        }
    }

    /// Replaces all idle clients, given how the attempts to make new ones ended: one for each
    /// place in the pool, or as many as were made until one failed. One failure is enough to
    /// keep the pool as it is; the first is reported.
    pub fn recycle_pool<E>(&mut self, made: Vec<Result<T, E>>) -> (replaced: Result<Vec<T>, E>)
        requires
            made@.len() == old(self).size() || exists|i: int|
                0 <= i < made@.len() && #[trigger] made@[i] is Err,
        ensures
            final(self).size() == old(self).size(),
            match replaced {
                Ok(old_clients) => all_made(made@, final(self).idle()) && final(self).idle().len()
                    == old(self).size() && old_clients@ == old(self).idle(),
                Err(e) => final(self).idle() == old(self).idle() && exists|i: int|
                    failed_first(made@, i, e),
            },
    {
        let collected = collect_made(made);
        self.recycle_with(collected)
    }
}

} // verus!
