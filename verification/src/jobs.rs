//! A pool of worker threads for background jobs.

use vstd::prelude::*;

verus! {

#[verifier::external_type_specification]
#[verifier::external_body]
pub struct ExThreadPool(rayon::ThreadPool);

#[verifier::external_type_specification]
#[verifier::external_body]
pub struct ExThreadPoolBuildError(rayon::ThreadPoolBuildError);

#[verifier::external_type_specification]
#[verifier::external_body]
pub struct ExScope<'scope>(rayon::Scope<'scope>);

/// Calls `rayon::ThreadPoolBuilder::new` and then `build`; the runtime picks the number of
/// threads.
#[verifier::external_body]
fn build_default_pool() -> Result<JobSystem, rayon::ThreadPoolBuildError> {
    match rayon::ThreadPoolBuilder::new().build() {
        Ok(pool) => Ok(JobSystem { pool, threads: Ghost(0) }),
        Err(e) => Err(e),
    }
}

/// Calls `rayon::ThreadPoolBuilder::new`, `num_threads(count)` and then `build`; a pool built
/// with a count above zero has exactly that many threads.
#[verifier::external_body]
fn build_pool_with_threads(count: usize) -> (r: Result<JobSystem, rayon::ThreadPoolBuildError>)
    ensures
        r matches Ok(js) ==> (count > 0 ==> js.threads() == count),
{
    match rayon::ThreadPoolBuilder::new().num_threads(count).build() {
        Ok(pool) => Ok(JobSystem { pool, threads: Ghost(count as nat) }),
        Err(e) => Err(e),
    }
}

/// Calls `ThreadPool::spawn`.
#[verifier::external_body]
fn pool_spawn<F>(pool: &rayon::ThreadPool, job: F) where F: FnOnce() + Send + 'static {
    pool.spawn(job)
}

/// Calls `ThreadPool::scope`, which runs `op` once, on a thread of the pool, with a reference
/// to a new scope, waits for the jobs spawned into that scope, and returns what `op` returned.
#[verifier::external_body]
fn pool_scope<'scope, OP, R>(pool: &rayon::ThreadPool, op: OP) -> (r: R)
    where
        OP: FnOnce(&rayon::Scope<'scope>) -> R + Send,
        R: Send,
    requires
        forall|s: &rayon::Scope<'scope>| call_requires(op, (s,)),
    ensures
        exists|s: &rayon::Scope<'scope>| call_ensures(op, (s,), r),
{
    pool.scope(op)
}

/// Worker threads that run jobs in the background.
pub struct JobSystem {
    pool: rayon::ThreadPool,
    threads: Ghost<nat>,
}

impl JobSystem {
    /// The number of the pool's threads, where it was chosen.
    pub closed spec fn threads(&self) -> nat {
        self.threads@
    }

    /// A pool with the given number of threads, or rayon's default number when `None` or
    /// zero.
    pub fn new(num_threads: Option<usize>) -> (r: Result<JobSystem, rayon::ThreadPoolBuildError>)
        ensures
            r is Ok && num_threads is Some && num_threads->0 > 0 ==> r->Ok_0.threads() == num_threads->0,
    {
        match num_threads {
            Some(count) => build_pool_with_threads(count),
            None => build_default_pool(),
        }
    }

    /// Runs the job on a worker thread.
    pub fn spawn<F>(&self, job: F) where F: FnOnce() + Send + 'static {
        pool_spawn(&self.pool, job)
    }

    /// Runs `op` with a scope in which jobs may borrow from the caller, waits for all of
    /// them, and returns what `op` returned.
    pub fn scope<'scope, OP, R>(&self, op: OP) -> (r: R)
        where
            OP: FnOnce(&rayon::Scope<'scope>) -> R + Send,
            R: Send,
        requires
            forall|s: &rayon::Scope<'scope>| call_requires(op, (s,)),
        ensures
            exists|s: &rayon::Scope<'scope>| call_ensures(op, (s,), r),
    {
        pool_scope(&self.pool, op)
    }
}

} // verus!
