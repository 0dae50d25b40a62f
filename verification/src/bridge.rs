//! The bridge's state and its operations, as executable code.
use crate::digest::{
    hash_lt, lemma_lex_lt_irreflexive, lemma_lex_lt_total, lemma_lex_lt_transitive, lex_lt,
    make_op_hash, op_key, same_hash,
};
use crate::error::BridgeError;
use crate::model::{
    cancel_step, execute_set_fee_step, fund_step, initialize_step, op_ready,
    propose_step, set_fee_step, set_paused_step, withdraw_step, BridgeView, OpState,
    CONTRACT_VERSION, MAX_FEE_BPS,
};
use soroban_sdk::Env;
use vstd::prelude::*;

verus! {

/// A proposed operation: its identifier (the digest of its label), the
/// time from which it may be executed, and whether it was cancelled.
#[derive(Clone, Copy, Debug)]
pub struct PendingOperation {
    pub op_hash: [u8; 32],
    pub ready_at: u64,
    pub cancelled: bool,
}

/// What the abstract state records of a pending operation.
pub open spec fn op_state(op: PendingOperation) -> OpState {
    OpState { ready_at: op.ready_at, cancelled: op.cancelled }
}

/// Some pending operation has the identifier `k`.
pub open spec fn holds_key(ops: Seq<PendingOperation>, k: Seq<u8>) -> bool {
    exists|i: int| #![trigger ops[i]] 0 <= i < ops.len() && ops[i].op_hash@ == k
}

/// The position of a pending operation with the identifier `k`.
pub open spec fn index_of_key(ops: Seq<PendingOperation>, k: Seq<u8>) -> int {
    choose|i: int| #![trigger ops[i]] 0 <= i < ops.len() && ops[i].op_hash@ == k
}

/// No two pending operations share an identifier.
pub open spec fn unique_keys(ops: Seq<PendingOperation>) -> bool {
    forall|i: int, j: int|
        #![trigger ops[i], ops[j]]
        0 <= i < ops.len() && 0 <= j < ops.len() && i != j ==> ops[i].op_hash@ != ops[j].op_hash@
}

/// The pending operations are kept in increasing order of identifier.
pub open spec fn sorted_keys(ops: Seq<PendingOperation>) -> bool {
    forall|i: int, j: int|
        #![trigger ops[i], ops[j]]
        0 <= i < j < ops.len() ==> lex_lt(ops[i].op_hash@, ops[j].op_hash@)
}

proof fn lemma_sorted_unique(ops: Seq<PendingOperation>)
    requires
        sorted_keys(ops),
    ensures
        unique_keys(ops),
{
    assert forall|i: int, j: int|
        #![trigger ops[i], ops[j]]
        0 <= i < ops.len() && 0 <= j < ops.len() && i != j implies ops[i].op_hash@
        != ops[j].op_hash@ by {
        lemma_lex_lt_irreflexive(ops[i].op_hash@);
        lemma_lex_lt_irreflexive(ops[j].op_hash@);
    }
}

proof fn lemma_sorted_update(ops: Seq<PendingOperation>, i: int, op: PendingOperation)
    requires
        sorted_keys(ops),
        0 <= i < ops.len(),
        op.op_hash@ == ops[i].op_hash@,
    ensures
        sorted_keys(ops.update(i, op)),
{
    let n = ops.update(i, op);
    assert forall|a: int, b: int|
        #![trigger n[a], n[b]]
        0 <= a < b < n.len() implies lex_lt(n[a].op_hash@, n[b].op_hash@) by {
        assert(n[a].op_hash@ == ops[a].op_hash@);
        assert(n[b].op_hash@ == ops[b].op_hash@);
    }
}

proof fn lemma_sorted_insert(ops: Seq<PendingOperation>, p: int, op: PendingOperation)
    requires
        sorted_keys(ops),
        0 <= p <= ops.len(),
        forall|j: int| 0 <= j < p ==> lex_lt(#[trigger] ops[j].op_hash@, op.op_hash@),
        forall|j: int| p <= j < ops.len() ==> lex_lt(op.op_hash@, #[trigger] ops[j].op_hash@),
    ensures
        sorted_keys(ops.insert(p, op)),
{
    let n = ops.insert(p, op);
    ops.insert_ensures(p, op);
    assert forall|a: int, b: int|
        #![trigger n[a], n[b]]
        0 <= a < b < n.len() implies lex_lt(n[a].op_hash@, n[b].op_hash@) by {
        if a < p {
            assert(n[a] == ops[a]);
            if b < p {
                assert(n[b] == ops[b]);
            } else if b > p {
                assert(n[b] == ops[b - 1]);
            }
        } else if a == p {
            assert(n[b] == ops[b - 1]);
        } else {
            assert(n[a] == ops[a - 1]);
            assert(n[b] == ops[b - 1]);
        }
    }
}

/// The pending operations as a map from identifier to record.
pub open spec fn pending_map(ops: Seq<PendingOperation>) -> Map<Seq<u8>, OpState> {
    Map::new(|k: Seq<u8>| holds_key(ops, k), |k: Seq<u8>| op_state(ops[index_of_key(ops, k)]))
}

proof fn lemma_pending_empty(ops: Seq<PendingOperation>)
    requires
        ops.len() == 0,
    ensures
        pending_map(ops) == Map::<Seq<u8>, OpState>::empty(),
{
    assert(pending_map(ops) =~= Map::<Seq<u8>, OpState>::empty());
}

proof fn lemma_pending_lookup(ops: Seq<PendingOperation>, i: int)
    requires
        unique_keys(ops),
        0 <= i < ops.len(),
    ensures
        pending_map(ops).contains_key(ops[i].op_hash@),
        pending_map(ops)[ops[i].op_hash@] == op_state(ops[i]),
{
    let k = ops[i].op_hash@;
    assert(holds_key(ops, k));
    let j = index_of_key(ops, k);
    assert(ops[j].op_hash@ == k);
    assert(j == i);
}

proof fn lemma_pending_absent(ops: Seq<PendingOperation>, k: Seq<u8>)
    requires
        forall|j: int| 0 <= j < ops.len() ==> ops[j].op_hash@ != k,
    ensures
        !pending_map(ops).contains_key(k),
{
}

proof fn lemma_pending_update(ops: Seq<PendingOperation>, i: int, op: PendingOperation)
    requires
        unique_keys(ops),
        0 <= i < ops.len(),
        op.op_hash@ == ops[i].op_hash@,
    ensures
        unique_keys(ops.update(i, op)),
        pending_map(ops.update(i, op)) == pending_map(ops).insert(op.op_hash@, op_state(op)),
{
    let n = ops.update(i, op);
    let key = op.op_hash@;
    assert forall|a: int, b: int|
        #![trigger n[a], n[b]]
        0 <= a < n.len() && 0 <= b < n.len() && a != b implies n[a].op_hash@ != n[b].op_hash@ by {
        assert(ops[a].op_hash@ == n[a].op_hash@);
        assert(ops[b].op_hash@ == n[b].op_hash@);
    }
    lemma_pending_lookup(n, i);
    assert forall|k: Seq<u8>| k != key implies #[trigger] holds_key(n, k) == holds_key(ops, k) by {
        if holds_key(n, k) {
            let j = choose|j: int| #![trigger n[j]] 0 <= j < n.len() && n[j].op_hash@ == k;
            assert(ops[j] == n[j]);
        }
        if holds_key(ops, k) {
            let j = choose|j: int| #![trigger ops[j]] 0 <= j < ops.len() && ops[j].op_hash@ == k;
            assert(ops[j] == n[j]);
        }
    }
    assert forall|k: Seq<u8>| k != key && holds_key(n, k) implies #[trigger] pending_map(n)[k]
        == pending_map(ops)[k] by {
        let j = index_of_key(n, k);
        assert(n[j].op_hash@ == k);
        assert(ops[j] == n[j]);
        lemma_pending_lookup(n, j);
        lemma_pending_lookup(ops, j);
    }
    assert(pending_map(n) =~= pending_map(ops).insert(key, op_state(op)));
}

proof fn lemma_pending_insert(ops: Seq<PendingOperation>, p: int, op: PendingOperation)
    requires
        unique_keys(ops),
        0 <= p <= ops.len(),
        forall|j: int| 0 <= j < ops.len() ==> ops[j].op_hash@ != op.op_hash@,
    ensures
        unique_keys(ops.insert(p, op)),
        pending_map(ops.insert(p, op)) == pending_map(ops).insert(op.op_hash@, op_state(op)),
{
    let n = ops.insert(p, op);
    let key = op.op_hash@;
    ops.insert_ensures(p, op);
    // position in `n` of the entry at position `j` of `ops`
    assert forall|a: int, b: int|
        #![trigger n[a], n[b]]
        0 <= a < n.len() && 0 <= b < n.len() && a != b implies n[a].op_hash@ != n[b].op_hash@ by {
        if a != p && b != p {
            let oa = if a < p { a } else { a - 1 };
            let ob = if b < p { b } else { b - 1 };
            assert(n[a] == ops[oa]);
            assert(n[b] == ops[ob]);
        } else if a == p {
            let ob = if b < p { b } else { b - 1 };
            assert(n[b] == ops[ob]);
        } else {
            let oa = if a < p { a } else { a - 1 };
            assert(n[a] == ops[oa]);
        }
    }
    lemma_pending_lookup(n, p);
    assert forall|k: Seq<u8>| k != key implies #[trigger] holds_key(n, k) == holds_key(ops, k) by {
        if holds_key(n, k) {
            let j = choose|j: int| #![trigger n[j]] 0 <= j < n.len() && n[j].op_hash@ == k;
            let oj = if j < p { j } else { j - 1 };
            assert(j != p);
            assert(n[j] == ops[oj]);
        }
        if holds_key(ops, k) {
            let j = choose|j: int| #![trigger ops[j]] 0 <= j < ops.len() && ops[j].op_hash@ == k;
            let nj = if j < p { j } else { j + 1 };
            assert(n[nj] == ops[j]);
        }
    }
    assert forall|k: Seq<u8>| k != key && holds_key(n, k) implies #[trigger] pending_map(n)[k]
        == pending_map(ops)[k] by {
        let j = index_of_key(n, k);
        assert(n[j].op_hash@ == k);
        assert(j != p);
        let oj = if j < p { j } else { j - 1 };
        assert(n[j] == ops[oj]);
        lemma_pending_lookup(n, j);
        lemma_pending_lookup(ops, oj);
    }
    assert(pending_map(n) =~= pending_map(ops).insert(key, op_state(op)));
}

/// The state of the bridge contract. `A` is the type of account addresses.
pub struct OnboardingBridge<A> {
    pub admin: Option<A>,
    pub fee_bps: u32,
    pub accumulated_fees: i128,
    pub timelock_delay: u64,
    pub paused: bool,
    pub version: u32,
    pub pending: Vec<PendingOperation>,
}

impl<A> View for OnboardingBridge<A> {
    type V = BridgeView<A>;

    open spec fn view(&self) -> BridgeView<A> {
        BridgeView {
            admin: self.admin,
            fee_bps: self.fee_bps,
            accumulated_fees: self.accumulated_fees,
            timelock_delay: self.timelock_delay,
            paused: self.paused,
            version: self.version,
            pending: pending_map(self.pending@),
        }
    }
}

/// An operation without a result value followed `step`: on success the
/// bridge took the new state; on refusal it is unchanged.
pub open spec fn applied<A>(
    before: OnboardingBridge<A>,
    after: OnboardingBridge<A>,
    r: Result<(), BridgeError>,
    step: Result<BridgeView<A>, BridgeError>,
) -> bool {
    match step {
        Ok(s) => r is Ok && after@ == s,
        Err(e) => r == Err::<(), BridgeError>(e) && after == before,
    }
}

/// An operation with a result value followed `step`: on success the bridge
/// took the new state and the value is returned; on refusal it is unchanged.
pub open spec fn applied_with<A, T>(
    before: OnboardingBridge<A>,
    after: OnboardingBridge<A>,
    r: Result<T, BridgeError>,
    step: Result<(BridgeView<A>, T), BridgeError>,
) -> bool {
    match step {
        Ok((s, v)) => r == Ok::<T, BridgeError>(v) && after@ == s,
        Err(e) => r == Err::<T, BridgeError>(e) && after == before,
    }
}

impl<A> OnboardingBridge<A> {
    /// The representation is sound: the abstract state is valid, and the
    /// pending operations are in increasing order of identifier, so that no
    /// two share one.
    pub open spec fn wf(&self) -> bool {
        &&& self@.valid()
        &&& unique_keys(self.pending@)
        &&& sorted_keys(self.pending@)
    }

    /// A bridge that was never initialized.
    pub fn new() -> (b: Self)
        ensures
            b.wf(),
            b@.admin is None,
            b@.is_blank(),
    {
        let b = OnboardingBridge {
            admin: None,
            fee_bps: 0,
            accumulated_fees: 0,
            timelock_delay: 0,
            paused: false,
            version: 0,
            pending: Vec::new(),
        };
        proof {
            lemma_pending_empty(b.pending@);
        }
        b
    }

    /// Whether the pending operations are in increasing order of identifier;
    /// one comparison per neighbouring pair.
    fn keys_are_sorted(&self) -> (ok: bool)
        ensures
            ok == sorted_keys(self.pending@),
    {
        let n = self.pending.len();
        let mut i: usize = 1;
        while i < n
            invariant
                n == self.pending@.len(),
                1 <= i,
                i <= n || n == 0,
                forall|a: int, b: int|
                    #![trigger self.pending@[a], self.pending@[b]]
                    0 <= a < b < i && b < n ==> lex_lt(
                        self.pending@[a].op_hash@,
                        self.pending@[b].op_hash@,
                    ),
            decreases n - i,
        {
            if !hash_lt(&self.pending[i - 1].op_hash, &self.pending[i].op_hash) {
                assert(!lex_lt(
                    self.pending@[i - 1].op_hash@,
                    self.pending@[i as int].op_hash@,
                ));
                return false;
            }
            proof {
                let s = self.pending@;
                assert forall|a: int, b: int|
                    #![trigger s[a], s[b]]
                    0 <= a < b < i + 1 && b < n implies lex_lt(s[a].op_hash@, s[b].op_hash@) by {
                    if b == i && a < i - 1 {
                        lemma_lex_lt_transitive(
                            s[a].op_hash@,
                            s[i - 1].op_hash@,
                            s[b].op_hash@,
                        );
                    }
                }
            }
            i = i + 1;
        }
        true
    }

    /// Whether this value is a sound representation of a bridge (`wf`);
    /// a value rebuilt from stored parts is checked with it.
    pub fn is_well_formed(&self) -> (ok: bool)
        ensures
            ok == self.wf(),
    {
        if self.fee_bps > MAX_FEE_BPS || self.accumulated_fees < 0 {
            return false;
        }
        match &self.admin {
            None => {
                if self.pending.len() > 0 {
                    proof {
                        let k = self.pending@[0].op_hash@;
                        assert(holds_key(self.pending@, k));
                        assert(pending_map(self.pending@).contains_key(k));
                    }
                    return false;
                }
                proof {
                    lemma_pending_empty(self.pending@);
                }
                if !(self.fee_bps == 0 && self.accumulated_fees == 0 && self.timelock_delay == 0
                    && !self.paused && self.version == 0) {
                    return false;
                }
            },
            Some(_) => {
                if self.version != CONTRACT_VERSION {
                    return false;
                }
            },
        }
        let ok = self.keys_are_sorted();
        proof {
            if ok {
                lemma_sorted_unique(self.pending@);
            }
        }
        ok
    }

    /// Where the identifier `hash` stands in the order of pending
    /// operations: the position of the first operation that does not come
    /// before it, and whether that operation has this identifier.
    fn locate(&self, hash: &[u8; 32]) -> (r: (usize, bool))
        requires
            sorted_keys(self.pending@),
        ensures
            r.0 <= self.pending@.len(),
            forall|j: int|
                0 <= j < r.0 ==> lex_lt(#[trigger] self.pending@[j].op_hash@, hash@),
            r.1 ==> r.0 < self.pending@.len() && self.pending@[r.0 as int].op_hash@ == hash@,
            !r.1 ==> forall|j: int|
                r.0 <= j < self.pending@.len() ==> lex_lt(
                    hash@,
                    #[trigger] self.pending@[j].op_hash@,
                ),
    {
        let n = self.pending.len();
        let mut i: usize = 0;
        let mut stop = false;
        while i < n && !stop
            invariant
                n == self.pending@.len(),
                i <= n,
                sorted_keys(self.pending@),
                forall|j: int| 0 <= j < i ==> lex_lt(#[trigger] self.pending@[j].op_hash@, hash@),
                stop ==> i < n && !lex_lt(self.pending@[i as int].op_hash@, hash@),
            decreases n - i + if stop {
                0int
            } else {
                1int
            },
        {
            if hash_lt(&self.pending[i].op_hash, hash) {
                i = i + 1;
            } else {
                stop = true;
            }
        }
        if i < n && same_hash(&self.pending[i].op_hash, hash) {
            return (i, true);
        }
        proof {
            let s = self.pending@;
            if i < n {
                assert(s[i as int].op_hash@.len() == 32);
                assert(hash@.len() == 32);
                lemma_lex_lt_total(hash@, s[i as int].op_hash@);
                assert forall|j: int| i <= j < n implies lex_lt(hash@, #[trigger] s[j].op_hash@) by {
                    if j > i {
                        lemma_lex_lt_transitive(hash@, s[i as int].op_hash@, s[j].op_hash@);
                    }
                }
            }
        }
        (i, false)
    }

    /// Finds the pending operation with the given identifier.
    fn find_op(&self, hash: &[u8; 32]) -> (r: Option<usize>)
        ensures
            match r {
                Some(i) => i < self.pending@.len() && self.pending@[i as int].op_hash@ == hash@,
                None => forall|j: int|
                    0 <= j < self.pending@.len() ==> self.pending@[j].op_hash@ != hash@,
            },
    {
        let n = self.pending.len();
        let mut i: usize = 0;
        while i < n
            invariant
                n == self.pending@.len(),
                i <= n,
                forall|j: int| 0 <= j < i ==> self.pending@[j].op_hash@ != hash@,
            decreases n - i,
        {
            if same_hash(&self.pending[i].op_hash, hash) {
                return Some(i);
            }
            i = i + 1;
        }
        None
    }

    /// The admin, to whom every administrative operation belongs; refused
    /// before initialization.
    pub fn admin(&self) -> (r: Result<&A, BridgeError>)
        ensures
            r is Ok <==> self@.admin is Some,
            r matches Ok(a) ==> self@.admin == Some(*a),
            r matches Err(e) ==> e == BridgeError::NotInitialized,
    {
        match &self.admin {
            Some(a) => Ok(a),
            None => Err(BridgeError::NotInitialized),
        }
    }

    /// Records the admin, the fee and the timelock delay; allowed once.
    pub fn initialize(&mut self, admin: A, fee_bps: u32, timelock_delay: u64) -> (r: Result<
        (),
        BridgeError,
    >)
        requires
            old(self).wf(),
        ensures
            final(self).wf(),
            applied(*old(self), *final(self), r, initialize_step(old(self)@, admin, fee_bps, timelock_delay)),
    {
        if self.admin.is_some() {
            return Err(BridgeError::AlreadyInitialized);
        }
        if fee_bps > MAX_FEE_BPS {
            return Err(BridgeError::FeeTooHigh);
        }
        self.admin = Some(admin);
        self.fee_bps = fee_bps;
        self.accumulated_fees = 0;
        self.timelock_delay = timelock_delay;
        self.paused = false;
        self.version = CONTRACT_VERSION;
        Ok(())
    }

    /// The version of the bridge: 0 before initialization.
    pub fn version(&self) -> (v: u32)
        ensures
            v == self@.version,
    {
        self.version
    }

    /// The fee in basis points: 0 before initialization.
    pub fn fee_bps(&self) -> (f: u32)
        ensures
            f == self@.fee_bps,
    {
        self.fee_bps
    }

    /// The fees accumulated and not yet withdrawn.
    pub fn accumulated_fees(&self) -> (f: i128)
        ensures
            f == self@.accumulated_fees,
    {
        self.accumulated_fees
    }

    /// The delay between proposing an operation and its ready time.
    pub fn timelock_delay(&self) -> (d: u64)
        ensures
            d == self@.timelock_delay,
    {
        self.timelock_delay
    }

    /// Whether funding is paused.
    pub fn is_paused(&self) -> (p: bool)
        ensures
            p == self@.paused,
    {
        self.paused
    }

    /// The pending operation with the given identifier, if any.
    pub fn pending_op(&self, hash: &[u8; 32]) -> (r: Option<PendingOperation>)
        requires
            self.wf(),
        ensures
            r is Some <==> self@.pending.contains_key(hash@),
            r matches Some(op) ==> op.op_hash@ == hash@ && op_state(op) == self@.pending[hash@],
    {
        match self.find_op(hash) {
            Some(i) => {
                proof {
                    lemma_pending_lookup(self.pending@, i as int);
                }
                Some(self.pending[i])
            },
            None => {
                proof {
                    lemma_pending_absent(self.pending@, hash@);
                }
                None
            },
        }
    }

    /// Records the operation with the given label as proposed at `now`.
    fn propose(&mut self, env: &Env, label: &str, now: u64) -> (r: Result<([u8; 32], u64), BridgeError>)
        requires
            old(self).wf(),
        ensures
            final(self).wf(),
            r matches Ok((h, _)) ==> h@ == op_key(label),
            match propose_step(old(self)@, op_key(label), now) {
                Ok((s, t)) => r matches Ok((_, t2)) && t2 == t && final(self)@ == s,
                Err(e) => r == Err::<([u8; 32], u64), BridgeError>(e) && *final(self) == *old(self),
            },
    {
        if self.admin.is_none() {
            return Err(BridgeError::NotInitialized);
        }
        let ready_at = match now.checked_add(self.timelock_delay) {
            Some(t) => t,
            None => return Err(BridgeError::ArithmeticOverflow),
        };
        let hash = make_op_hash(env, label);
        let op = PendingOperation { op_hash: hash, ready_at, cancelled: false };
        let (pos, found) = self.locate(&hash);
        if found {
            proof {
                lemma_pending_update(self.pending@, pos as int, op);
                lemma_sorted_update(self.pending@, pos as int, op);
            }
            self.pending.set(pos, op);
        } else {
            proof {
                lemma_pending_insert(self.pending@, pos as int, op);
                lemma_sorted_insert(self.pending@, pos as int, op);
            }
            self.pending.insert(pos, op);
        }
        Ok((hash, ready_at))
    }

    /// The admin proposes an operation; it becomes ready after the timelock
    /// delay. Returns the operation's identifier and ready time.
    pub fn propose_op(&mut self, env: &Env, label: &str, now: u64) -> (r: Result<([u8; 32], u64), BridgeError>)
        requires
            old(self).wf(),
        ensures
            final(self).wf(),
            r matches Ok((h, _)) ==> h@ == op_key(label),
            match propose_step(old(self)@, op_key(label), now) {
                Ok((s, t)) => r matches Ok((_, t2)) && t2 == t && final(self)@ == s,
                Err(e) => r == Err::<([u8; 32], u64), BridgeError>(e) && *final(self) == *old(self),
            },
    {
        self.propose(env, label, now)
    }

    /// The admin proposes a fee change, to be executed by `execute_set_fee`
    /// with the same label. Returns the operation's identifier and ready time.
    pub fn propose_set_fee(&mut self, env: &Env, op_label: &str, now: u64) -> (r: Result<([u8; 32], u64), BridgeError>)
        requires
            old(self).wf(),
        ensures
            final(self).wf(),
            r matches Ok((h, _)) ==> h@ == op_key(op_label),
            match propose_step(old(self)@, op_key(op_label), now) {
                Ok((s, t)) => r matches Ok((_, t2)) && t2 == t && final(self)@ == s,
                Err(e) => r == Err::<([u8; 32], u64), BridgeError>(e) && *final(self) == *old(self),
            },
    {
        self.propose(env, op_label, now)
    }

    /// The admin cancels a pending operation.
    pub fn cancel_op(&mut self, hash: &[u8; 32]) -> (r: Result<(), BridgeError>)
        requires
            old(self).wf(),
        ensures
            final(self).wf(),
            applied(*old(self), *final(self), r, cancel_step(old(self)@, hash@)),
    {
        if self.admin.is_none() {
            return Err(BridgeError::NotInitialized);
        }
        match self.find_op(hash) {
            None => {
                proof {
                    lemma_pending_absent(self.pending@, hash@);
                }
                Err(BridgeError::OpNotFound)
            },
            Some(i) => {
                let op = self.pending[i];
                proof {
                    lemma_pending_lookup(self.pending@, i as int);
                }
                if op.cancelled {
                    return Err(BridgeError::AlreadyCancelled);
                }
                let cancelled = PendingOperation { op_hash: op.op_hash, ready_at: op.ready_at, cancelled: true };
                proof {
                    lemma_pending_update(self.pending@, i as int, cancelled);
                    lemma_sorted_update(self.pending@, i as int, cancelled);
                }
                self.pending.set(i, cancelled);
                Ok(())
            },
        }
    }

    /// Whether the operation with the given label may be executed at `now`.
    pub fn check_op_ready(&self, env: &Env, label: &str, now: u64) -> (r: Result<(), BridgeError>)
        requires
            self.wf(),
        ensures
            r == op_ready(self@, op_key(label), now),
    {
        let hash = make_op_hash(env, label);
        match self.find_op(&hash) {
            None => {
                proof {
                    lemma_pending_absent(self.pending@, hash@);
                }
                Err(BridgeError::OpNotFound)
            },
            Some(i) => {
                let op = self.pending[i];
                proof {
                    lemma_pending_lookup(self.pending@, i as int);
                }
                if op.cancelled {
                    Err(BridgeError::OpCancelled)
                } else if now < op.ready_at {
                    Err(BridgeError::TimelockNotElapsed)
                } else {
                    Ok(())
                }
            },
        }
    }

    /// The admin sets the fee through a proposed operation that is ready.
    pub fn execute_set_fee(&mut self, env: &Env, new_fee_bps: u32, op_label: &str, now: u64) -> (r: Result<(), BridgeError>)
        requires
            old(self).wf(),
        ensures
            final(self).wf(),
            applied(*old(self), *final(self), r, execute_set_fee_step(old(self)@, new_fee_bps, op_key(op_label), now)),
    {
        if self.admin.is_none() {
            return Err(BridgeError::NotInitialized);
        }
        if new_fee_bps > MAX_FEE_BPS {
            return Err(BridgeError::FeeTooHigh);
        }
        match self.check_op_ready(env, op_label, now) {
            Err(e) => Err(e),
            Ok(()) => {
                self.fee_bps = new_fee_bps;
                Ok(())
            },
        }
    }

    /// The admin sets the fee at once.
    pub fn set_fee(&mut self, new_fee_bps: u32) -> (r: Result<(), BridgeError>)
        requires
            old(self).wf(),
        ensures
            final(self).wf(),
            applied(*old(self), *final(self), r, set_fee_step(old(self)@, new_fee_bps)),
    {
        if self.admin.is_none() {
            return Err(BridgeError::NotInitialized);
        }
        if new_fee_bps > MAX_FEE_BPS {
            return Err(BridgeError::FeeTooHigh);
        }
        self.fee_bps = new_fee_bps;
        Ok(())
    }

    /// The admin pauses funding.
    pub fn pause(&mut self) -> (r: Result<(), BridgeError>)
        requires
            old(self).wf(),
        ensures
            final(self).wf(),
            applied(*old(self), *final(self), r, set_paused_step(old(self)@, true)),
    {
        if self.admin.is_none() {
            return Err(BridgeError::NotInitialized);
        }
        self.paused = true;
        Ok(())
    }

    /// The admin resumes funding.
    pub fn unpause(&mut self) -> (r: Result<(), BridgeError>)
        requires
            old(self).wf(),
        ensures
            final(self).wf(),
            applied(*old(self), *final(self), r, set_paused_step(old(self)@, false)),
    {
        if self.admin.is_none() {
            return Err(BridgeError::NotInitialized);
        }
        self.paused = false;
        Ok(())
    }

    /// Refuses funding while the bridge is paused.
    fn ensure_not_paused(&self) -> (r: Result<(), BridgeError>)
        ensures
            r is Ok <==> !self@.paused,
            r matches Err(e) ==> e == BridgeError::ContractPaused,
    {
        if self.paused {
            Err(BridgeError::ContractPaused)
        } else {
            Ok(())
        }
    }

    /// Accounts for funding a contract address with `amount`: charges the
    /// fee, adds a positive fee to the accumulated fees, and returns the fee.
    /// The token transfer itself is the caller's.
    pub fn fund_c_address(&mut self, amount: i128) -> (r: Result<i128, BridgeError>)
        requires
            old(self).wf(),
        ensures
            final(self).wf(),
            applied_with(*old(self), *final(self), r, fund_step(old(self)@, amount)),
    {
        match self.ensure_not_paused() {
            Err(e) => return Err(e),
            Ok(()) => {},
        }
        let fee_amount: i128 = if self.fee_bps > 0 {
            let product = match amount.checked_mul(self.fee_bps as i128) {
                Some(p) => p,
                None => return Err(BridgeError::ArithmeticOverflow),
            };
            match product.checked_div(MAX_FEE_BPS as i128) {
                Some(q) => q,
                None => return Err(BridgeError::ArithmeticOverflow),
            }
        } else {
            0
        };
        if fee_amount > 0 {
            match self.accumulated_fees.checked_add(fee_amount) {
                Some(total) => {
                    self.accumulated_fees = total;
                },
                None => return Err(BridgeError::ArithmeticOverflow),
            }
        }
        Ok(fee_amount)
    }

    /// Funding routed from an exchange: accounted exactly as
    /// `fund_c_address`. (The exchange's authorization is the caller's.)
    pub fn route_from_exchange(&mut self, amount: i128) -> (r: Result<i128, BridgeError>)
        requires
            old(self).wf(),
        ensures
            final(self).wf(),
            applied_with(*old(self), *final(self), r, fund_step(old(self)@, amount)),
    {
        self.fund_c_address(amount)
    }

    /// The admin withdraws accumulated fees: all of them when `amount` is
    /// zero, else `amount`. Returns the amount withdrawn.
    pub fn withdraw_fees(&mut self, amount: i128) -> (r: Result<i128, BridgeError>)
        requires
            old(self).wf(),
        ensures
            final(self).wf(),
            applied_with(*old(self), *final(self), r, withdraw_step(old(self)@, amount)),
    {
        if self.admin.is_none() {
            return Err(BridgeError::NotInitialized);
        }
        let accumulated = self.accumulated_fees;
        let withdraw_amount: i128 = if amount == 0 {
            accumulated
        } else {
            amount
        };
        if withdraw_amount > accumulated {
            return Err(BridgeError::InsufficientFees);
        }
        match accumulated.checked_sub(withdraw_amount) {
            Some(rest) => {
                self.accumulated_fees = rest;
                Ok(withdraw_amount)
            },
            None => Err(BridgeError::ArithmeticOverflow),
        }
    }
}

} // verus!
