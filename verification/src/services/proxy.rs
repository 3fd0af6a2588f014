//! The pool of outbound proxies and the cursor that rotates through it.
//!
//! | state          | a rotation step                                              |
//! |----------------|--------------------------------------------------------------|
//! | `NotInitiated` | fails: the pool has to be filled first                       |
//! | `Initiated`    | stays on the current credential, which is checked; `Rotating`|
//! | `Rotating`     | moves to the next credential, or fails once it is back where |
//! |                | the rotation started                                         |

use vstd::prelude::*;
use crate::client::proxyseller::ProxysellerClient;
use crate::models::proxy::{ProxyConfig, ProxyConfigView, proxies_view};

verus! {

/// Where the pool stands between its filling and its rotations.
#[derive(Debug, Clone, Copy, PartialEq, Eq, Structural)]
pub enum ProxyServiceState {
    /// No credentials were fetched yet.
    NotInitiated,
    /// Credentials were fetched and the one under the cursor is untested.
    Initiated,
    /// The cursor is searching, or has found, a credential that works.
    Rotating,
}

/// Why the pool could not be filled or rotated.
#[derive(Debug, Clone, Copy, PartialEq, Eq, Structural)]
pub enum ProxyServiceError {
    /// The pool was never filled.
    NotInitiated,
    /// The provider returned no credentials.
    NoProxies,
    /// The rotation came back to where it started without finding a credential
    /// that works.
    NoHealthyProxy,
}

/// The pool as a value: its credentials, the cursor and the state.
pub struct ProxyPool {
    pub proxies: Seq<ProxyConfigView>,
    pub cursor: int,
    pub state: ProxyServiceState,
}

/// How a rotation ended: the pool it left, the credentials it had checked, and
/// the error where it failed.
pub struct RotationOutcome {
    pub pool: ProxyPool,
    pub checked: int,
    pub error: Option<ProxyServiceError>,
}

impl ProxyPool {
    pub open spec fn inv(self) -> bool {
        &&& self.state == ProxyServiceState::NotInitiated ==> self.proxies.len() == 0
        &&& self.proxies.len() > 0 ==> 0 <= self.cursor < self.proxies.len()
        &&& self.proxies.len() == 0 ==> self.cursor == 0
    }

    /// The cursor moved on by one credential, around the end of the pool.
    pub open spec fn next_cursor(self) -> int {
        if self.cursor + 1 < self.proxies.len() {
            self.cursor + 1
        } else {
            0
        }
    }

    /// Why the next step of a rotation that started at `initial` fails, if it does.
    pub open spec fn step_error(self, initial: int) -> Option<ProxyServiceError> {
        match self.state {
            ProxyServiceState::NotInitiated => Some(ProxyServiceError::NotInitiated),
            ProxyServiceState::Initiated => None,
            ProxyServiceState::Rotating => if self.next_cursor() == initial {
                Some(ProxyServiceError::NoHealthyProxy)
            } else {
                None
            },
        }
    }

    /// The pool after the next step of a rotation.
    pub open spec fn after_step(self) -> ProxyPool {
        match self.state {
            ProxyServiceState::NotInitiated => self,
            ProxyServiceState::Initiated => ProxyPool {
                state: ProxyServiceState::Rotating,
                ..self
            },
            ProxyServiceState::Rotating => ProxyPool { cursor: self.next_cursor(), ..self },
        }
    }

    /// How many steps the cursor is away from `target`, counting a full round
    /// where it stands on it.
    pub open spec fn steps_to(self, target: int) -> int {
        if target > self.cursor {
            target - self.cursor
        } else {
            target + self.proxies.len() - self.cursor
        }
    }

    /// How many credentials a rotation has checked once it checks `target`: on a
    /// pool that was just filled the credential under the cursor comes first, on
    /// any other pool the one behind it.
    pub open spec fn checks_until(self, target: int) -> int {
        if self.state == ProxyServiceState::Initiated {
            if target == self.cursor {
                1
            } else {
                self.steps_to(target) + 1
            }
        } else {
            self.steps_to(target)
        }
    }

    /// A rotation that started at `initial`, run on from this pool against
    /// credentials that work where `healthy` says so, by their index.
    pub open spec fn rotate_from(self, initial: int, healthy: spec_fn(int) -> bool) -> RotationOutcome
        decreases
                (if self.state == ProxyServiceState::Initiated {
                    self.proxies.len() as int + 1
                } else {
                    self.steps_to(initial)
                }),
    {
        if !self.inv() || !(0 <= initial < self.proxies.len()) {
            RotationOutcome {
                pool: self,
                checked: 0,
                error: Some(ProxyServiceError::NotInitiated),
            }
        } else if self.step_error(initial) is Some {
            RotationOutcome { pool: self.after_step(), checked: 0, error: self.step_error(initial) }
        } else if healthy(self.after_step().cursor) {
            RotationOutcome { pool: self.after_step(), checked: 1, error: None }
        } else {
            let rest = self.after_step().rotate_from(initial, healthy);
            RotationOutcome { checked: rest.checked + 1, ..rest }
        }
    }

    /// A whole rotation: it starts where the cursor stands.
    pub open spec fn rotate(self, healthy: spec_fn(int) -> bool) -> RotationOutcome {
        self.rotate_from(self.cursor, healthy)
    }
}

/// A rotation under way: it remembers where it started.
#[derive(Debug, Clone, Copy)]
pub struct ProxyRotation {
    initial_proxy_id: usize,
}

impl ProxyRotation {
    /// The cursor at which the rotation started.
    pub closed spec fn initial(self) -> int {
        self.initial_proxy_id as int
    }
}

/// The pool of outbound proxies.
pub struct ProxyService {
    proxy_client: Box<ProxysellerClient>,
    proxy_id: usize,
    proxies: Vec<ProxyConfig>,
    state: ProxyServiceState,
}

impl View for ProxyService {
    type V = ProxyPool;

    closed spec fn view(&self) -> ProxyPool {
        ProxyPool {
            proxies: proxies_view(self.proxies@),
            cursor: self.proxy_id as int,
            state: self.state,
        }
    }
}

impl ProxyService {
    #[verifier::type_invariant]
    spec fn well_formed(self) -> bool {
        self@.inv()
    }

    /// The client of the provider.
    pub closed spec fn client(&self) -> ProxysellerClient {
        *self.proxy_client
    }

    /// An empty pool: it has to be filled before it can be used.
    pub fn new(proxy_client: Box<ProxysellerClient>) -> (service: Self)
        ensures
            service@.proxies.len() == 0,
            service@.cursor == 0,
            service@.state == ProxyServiceState::NotInitiated,
            service.client() == *proxy_client,
    {
        Self {
            proxy_client,
            proxy_id: 0,
            proxies: Vec::new(),
            state: ProxyServiceState::NotInitiated,
        }
    }

    /// The client of the provider.
    pub fn proxy_client(&self) -> (client: &ProxysellerClient)
        ensures
            *client == self.client(),
    {
        &*self.proxy_client
    }

    /// The credential under the cursor, or `None` while the pool is empty.
    pub fn get_proxy(&self) -> (proxy: Option<&ProxyConfig>)
        ensures
            self@.inv(),
            proxy is Some <==> self@.proxies.len() > 0,
            proxy is Some ==> proxy->0@ == self@.proxies[self@.cursor],
    {
        proof {
            use_type_invariant(self);
            assert(self@.proxies.len() == self.proxies.len());
        }
        if self.proxy_id < self.proxies.len() {
            Some(&self.proxies[self.proxy_id])
        } else {
            None
        }
    }

    /// Fills the pool with the credentials that the provider returned: they take
    /// the place of what the pool held, and the cursor stands on the first of
    /// them, untested. An empty list is an error and leaves the pool as it was.
    pub fn init_proxies(&mut self, proxies: Vec<ProxyConfig>) -> (done: Result<
        (),
        ProxyServiceError,
    >)
        ensures
            final(self).client() == old(self).client(),
            proxies.len() == 0 ==> done == Err::<(), ProxyServiceError>(
                ProxyServiceError::NoProxies,
            ) && final(self)@ == old(self)@,
            proxies.len() > 0 ==> done is Ok && final(self)@ == (ProxyPool {
                proxies: proxies_view(proxies@),
                cursor: 0,
                state: ProxyServiceState::Initiated,
            }),
    {
        proof {
            use_type_invariant(&*self);
        }
        if proxies.len() == 0 {
            return Err(ProxyServiceError::NoProxies);
        }
        assert(proxies_view(proxies@).len() == proxies.len());
        self.state = ProxyServiceState::Initiated;
        self.proxy_id = 0;
        self.proxies = proxies;
        Ok(())
    }

    /// Starts a rotation at the cursor. An empty pool cannot be rotated.
    pub fn begin_rotation(&self) -> (rotation: Result<ProxyRotation, ProxyServiceError>)
        ensures
            self@.inv(),
            match rotation {
                Ok(rotation) => self@.proxies.len() > 0 && rotation.initial() == self@.cursor,
                Err(error) => self@.proxies.len() == 0 && error == ProxyServiceError::NotInitiated,
            },
    {
        proof {
            use_type_invariant(self);
            assert(self@.proxies.len() == self.proxies.len());
        }
        if self.proxies.len() == 0 {
            Err(ProxyServiceError::NotInitiated)
        } else {
            Ok(ProxyRotation { initial_proxy_id: self.proxy_id })
        }
    }

    /// Takes the next step of `rotation`. On `Ok` the credential now under the
    /// cursor is the one to check next; where it works, the rotation is over.
    pub fn next_candidate(&mut self, rotation: &ProxyRotation) -> (step: Result<
        (),
        ProxyServiceError,
    >)
        ensures
            final(self)@ == old(self)@.after_step(),
            final(self).client() == old(self).client(),
            match step {
                Ok(()) => old(self)@.step_error(rotation.initial()) is None,
                Err(error) => old(self)@.step_error(rotation.initial()) == Some(error),
            },
    {
        proof {
            use_type_invariant(&*self);
            assert(self@.proxies.len() == self.proxies.len());
        }
        match self.state {
            ProxyServiceState::NotInitiated => Err(ProxyServiceError::NotInitiated),
            ProxyServiceState::Initiated => {
                self.state = ProxyServiceState::Rotating;
                Ok(())
            },
            ProxyServiceState::Rotating => {
                let next: usize = if self.proxy_id + 1 < self.proxies.len() {
                    self.proxy_id + 1
                } else {
                    0
                };
                self.proxy_id = next;
                if rotation.initial_proxy_id == next {
                    Err(ProxyServiceError::NoHealthyProxy)
                } else {
                    Ok(())
                }
            },
        }
    }
}

proof fn lemma_rotating_finds(
    pool: ProxyPool,
    initial: int,
    healthy: spec_fn(int) -> bool,
    target: int,
)
    requires
        pool.inv(),
        pool.state == ProxyServiceState::Rotating,
        0 <= initial < pool.proxies.len(),
        0 <= target < pool.proxies.len(),
        healthy(target),
        pool.steps_to(target) < pool.steps_to(initial),
        forall|i: int|
            0 <= i < pool.proxies.len() && pool.steps_to(i) < pool.steps_to(target)
                ==> !#[trigger] healthy(i),
    ensures
        pool.rotate_from(initial, healthy) == (RotationOutcome {
            pool: ProxyPool { cursor: target, ..pool },
            checked: pool.steps_to(target),
            error: None,
        }),
    decreases pool.steps_to(target),
{
    let next = pool.after_step();
    if next.cursor != target {
        assert(!healthy(next.cursor));
        assert forall|i: int|
            0 <= i < next.proxies.len() && next.steps_to(i) < next.steps_to(target)
                implies !#[trigger] healthy(i) by {
            assert(pool.steps_to(i) < pool.steps_to(target));
        }
        lemma_rotating_finds(next, initial, healthy, target);
    }
}

proof fn lemma_rotating_in_vain(pool: ProxyPool, initial: int, healthy: spec_fn(int) -> bool)
    requires
        pool.inv(),
        pool.state == ProxyServiceState::Rotating,
        0 <= initial < pool.proxies.len(),
        forall|i: int|
            0 <= i < pool.proxies.len() && pool.steps_to(i) < pool.steps_to(initial)
                ==> !#[trigger] healthy(i),
    ensures
        pool.rotate_from(initial, healthy) == (RotationOutcome {
            pool: ProxyPool { cursor: initial, ..pool },
            checked: pool.steps_to(initial) - 1,
            error: Some(ProxyServiceError::NoHealthyProxy),
        }),
    decreases pool.steps_to(initial),
{
    let next = pool.after_step();
    if next.cursor != initial {
        assert(!healthy(next.cursor));
        assert forall|i: int|
            0 <= i < next.proxies.len() && next.steps_to(i) < next.steps_to(initial)
                implies !#[trigger] healthy(i) by {
            assert(pool.steps_to(i) < pool.steps_to(initial));
        }
        lemma_rotating_in_vain(next, initial, healthy);
    }
}

proof fn lemma_rotating_checks_bounded(pool: ProxyPool, initial: int, healthy: spec_fn(int) -> bool)
    requires
        pool.inv(),
        pool.state == ProxyServiceState::Rotating,
        0 <= initial < pool.proxies.len(),
    ensures
        0 <= pool.rotate_from(initial, healthy).checked <= pool.steps_to(initial) - 1,
    decreases pool.steps_to(initial),
{
    let next = pool.after_step();
    if next.cursor != initial && !healthy(next.cursor) {
        lemma_rotating_checks_bounded(next, initial, healthy);
    }
}

/// Whatever the credentials are worth, a rotation checks none of them twice: it
/// checks at most as many as the pool holds.
pub proof fn lemma_rotate_checks_bounded(pool: ProxyPool, healthy: spec_fn(int) -> bool)
    requires
        pool.inv(),
    ensures
        0 <= pool.rotate(healthy).checked <= pool.proxies.len(),
{
    if pool.proxies.len() > 0 {
        if pool.state == ProxyServiceState::Initiated {
            if !healthy(pool.cursor) {
                lemma_rotating_checks_bounded(pool.after_step(), pool.cursor, healthy);
            }
        } else if pool.state == ProxyServiceState::Rotating {
            lemma_rotating_checks_bounded(pool, pool.cursor, healthy);
        }
    }
}

/// A rotation selects the first credential that works among those it checks, in
/// the order in which it checks them, and has then checked no credential behind
/// it. A pool past its first rotation does not check the credential under its
/// cursor, so that one cannot be selected.
pub proof fn lemma_rotate_finds(pool: ProxyPool, healthy: spec_fn(int) -> bool, target: int)
    requires
        pool.inv(),
        pool.state != ProxyServiceState::NotInitiated,
        0 <= target < pool.proxies.len(),
        healthy(target),
        pool.state == ProxyServiceState::Rotating ==> target != pool.cursor,
        forall|i: int|
            0 <= i < pool.proxies.len() && pool.checks_until(i) < pool.checks_until(target)
                ==> !#[trigger] healthy(i),
    ensures
        pool.rotate(healthy) == (RotationOutcome {
            pool: ProxyPool { cursor: target, state: ProxyServiceState::Rotating, ..pool },
            checked: pool.checks_until(target),
            error: None,
        }),
{
    if pool.state == ProxyServiceState::Initiated {
        if target != pool.cursor {
            let start = pool.after_step();
            assert(pool.checks_until(pool.cursor) < pool.checks_until(target));
            assert forall|i: int|
                0 <= i < start.proxies.len() && start.steps_to(i) < start.steps_to(target)
                    implies !#[trigger] healthy(i) by {
                assert(pool.checks_until(i) < pool.checks_until(target));
            }
            lemma_rotating_finds(start, pool.cursor, healthy, target);
        }
    } else {
        lemma_rotating_finds(pool, pool.cursor, healthy, target);
    }
}

/// A rotation that finds no credential that works among those it checks comes
/// back to where it started and fails. A pool that was just filled has then
/// checked every credential, any other pool every one but the one under its
/// cursor.
pub proof fn lemma_rotate_in_vain(pool: ProxyPool, healthy: spec_fn(int) -> bool)
    requires
        pool.inv(),
        pool.state != ProxyServiceState::NotInitiated,
        pool.proxies.len() > 0,
        forall|i: int|
            0 <= i < pool.proxies.len() && (pool.state == ProxyServiceState::Initiated || i
                != pool.cursor) ==> !#[trigger] healthy(i),
    ensures
        pool.rotate(healthy) == (RotationOutcome {
            pool: ProxyPool { state: ProxyServiceState::Rotating, ..pool },
            checked: if pool.state == ProxyServiceState::Initiated {
                pool.proxies.len() as int
            } else {
                pool.proxies.len() - 1
            },
            error: Some(ProxyServiceError::NoHealthyProxy),
        }),
{
    let start = if pool.state == ProxyServiceState::Initiated {
        pool.after_step()
    } else {
        pool
    };
    lemma_rotating_in_vain(start, pool.cursor, healthy);
}

/// In a pool where only the credential at `target` works, a rotation checks at
/// most as many credentials as the pool holds. It selects `target`, unless the
/// pool is past its first rotation and the cursor already stands on `target`:
/// the credential under the cursor is then not checked again, so the rotation
/// comes back to where it started and fails.
pub proof fn lemma_rotate_one_healthy(pool: ProxyPool, healthy: spec_fn(int) -> bool, target: int)
    requires
        pool.inv(),
        pool.state != ProxyServiceState::NotInitiated,
        0 <= target < pool.proxies.len(),
        healthy(target),
        forall|i: int| 0 <= i < pool.proxies.len() && i != target ==> !#[trigger] healthy(i),
    ensures
        0 <= pool.rotate(healthy).checked <= pool.proxies.len(),
        pool.rotate(healthy).pool.proxies == pool.proxies,
        pool.rotate(healthy).pool.state == ProxyServiceState::Rotating,
        pool.state == ProxyServiceState::Initiated || pool.cursor != target ==> pool.rotate(
            healthy,
        ).error is None && pool.rotate(healthy).pool.cursor == target,
        pool.state == ProxyServiceState::Rotating && pool.cursor == target ==> pool.rotate(
            healthy,
        ).error == Some(ProxyServiceError::NoHealthyProxy) && pool.rotate(healthy).pool.cursor
            == pool.cursor,
{
    lemma_rotate_checks_bounded(pool, healthy);
    if pool.state == ProxyServiceState::Rotating && pool.cursor == target {
        lemma_rotate_in_vain(pool, healthy);
    } else {
        lemma_rotate_finds(pool, healthy, target);
    }
}

/// In a pool where no credential works, a rotation checks every credential once,
/// but for the one under the cursor where the pool is past its first rotation,
/// comes back to where it started and fails.
pub proof fn lemma_rotate_none_healthy(pool: ProxyPool, healthy: spec_fn(int) -> bool)
    requires
        pool.inv(),
        pool.state != ProxyServiceState::NotInitiated,
        pool.proxies.len() > 0,
        forall|i: int| 0 <= i < pool.proxies.len() ==> !#[trigger] healthy(i),
    ensures
        pool.rotate(healthy).error == Some(ProxyServiceError::NoHealthyProxy),
        pool.rotate(healthy).pool == (ProxyPool { state: ProxyServiceState::Rotating, ..pool }),
        pool.rotate(healthy).checked == (if pool.state == ProxyServiceState::Initiated {
            pool.proxies.len() as int
        } else {
            pool.proxies.len() - 1
        }),
{
    lemma_rotate_in_vain(pool, healthy);
}

} // verus!
