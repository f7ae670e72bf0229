//! Charges taken from an account in chunks.

use crate::contract::ast::outcome;
use crate::error::{ErrorView, ProofFrameError};
use crate::resource::{
    charged, first_refusal, less, node_bounds, on_path, released, released_twice,
    MemoryReservation, ResourceAccount, ResourceKind, TempReservation,
};
use vstd::prelude::*;

verus! {

pub const LEDGER_CHUNK_BYTES: u64 = 1048576;

/// What a ledger takes from its account next: a chunk, or more where more is needed, but
/// no more than what is left of its limit.
pub open spec fn next_charge(reserved: nat, used: nat, limit: nat) -> nat {
    let needed = if used > reserved {
        (used - reserved) as nat
    } else {
        0
    };
    let wanted = if needed > LEDGER_CHUNK_BYTES {
        needed
    } else {
        LEDGER_CHUNK_BYTES as nat
    };
    let left = if limit > reserved {
        (limit - reserved) as nat
    } else {
        0
    };
    if wanted < left {
        wanted
    } else {
        left
    }
}

/// The error of a ledger that is at its limit.
pub open spec fn ledger_error(resource: Seq<char>, bytes: u64, used: nat, limit: u64) -> ErrorView {
    ErrorView::ResourceLimit { resource, requested: bytes, used: used as u64, limit }
}

/// What taking more bytes from a ledger gives. Where the ledger has them already, nothing
/// is taken from the account. Else one charge is, and it is enough unless the limit of the
/// account cuts it short.
pub open spec fn ledger_outcome(
    before: ResourceAccount,
    after: ResourceAccount,
    node: int,
    kind: ResourceKind,
    resource: Seq<char>,
    limit: u64,
    reserved: (nat, nat),
    used: (nat, nat),
    bytes: u64,
    r: Result<(), ProofFrameError>,
) -> bool {
    &&& after.wf()
    &&& after.spec_limits() == before.spec_limits()
    &&& if used.0 + bytes > u64::MAX {
        &&& r matches Err(e)
        &&& e@ == ledger_error(resource, bytes, used.0, limit)
        &&& used.1 == used.0
        &&& reserved.1 == reserved.0
        &&& after.nodes() == before.nodes()
    } else if used.0 + bytes <= reserved.0 {
        &&& r is Ok
        &&& used.1 == used.0 + bytes
        &&& reserved.1 == reserved.0
        &&& after.nodes() == before.nodes()
    } else {
        let charge = next_charge(reserved.0, (used.0 + bytes) as nat, limit as nat);
        &&& used.1 == used.0 + bytes
        &&& if charge == 0 {
            &&& r matches Err(e)
            &&& e@ == ledger_error(resource, bytes, reserved.0, limit)
            &&& reserved.1 == reserved.0
            &&& after.nodes() == before.nodes()
        } else {
            match first_refusal(before.nodes(), node, kind, charge as u64) {
                Some(k) => {
                    &&& r matches Err(e)
                    &&& e@ == (ErrorView::ResourceLimit {
                        resource: kind.label(),
                        requested: charge as u64,
                        used: before.nodes()[k].used(kind),
                        limit: before.nodes()[k].cap(kind),
                    })
                    &&& reserved.1 == reserved.0
                    &&& after.nodes() == before.nodes()
                },
                None => {
                    &&& reserved.1 == reserved.0 + charge
                    &&& charged(before.nodes(), after.nodes(), node, kind, charge as int)
                    &&& if used.1 <= reserved.1 {
                        r is Ok
                    } else {
                        &&& r matches Err(e)
                        &&& e@ == ledger_error(resource, bytes, reserved.1, limit)
                    }
                },
            }
        }
    }
}

/// The error of taking more bytes from a ledger; nothing where they can be taken.
pub open spec fn ledger_refusal(
    account: ResourceAccount,
    node: int,
    kind: ResourceKind,
    resource: Seq<char>,
    limit: u64,
    reserved: nat,
    used: nat,
    bytes: u64,
) -> Option<ErrorView> {
    let total = used + bytes;
    let charge = next_charge(reserved, total as nat, limit as nat);
    if total > u64::MAX {
        Some(ledger_error(resource, bytes, used, limit))
    } else if total <= reserved {
        None
    } else if charge == 0 {
        Some(ledger_error(resource, bytes, reserved, limit))
    } else {
        match first_refusal(account.nodes(), node, kind, charge as u64) {
            Some(k) => Some(
                ErrorView::ResourceLimit {
                    resource: kind.label(),
                    requested: charge as u64,
                    used: account.nodes()[k].used(kind),
                    limit: account.nodes()[k].cap(kind),
                },
            ),
            None => if total <= reserved + charge {
                None
            } else {
                Some(ledger_error(resource, bytes, (reserved + charge) as nat, limit))
            },
        }
    }
}

/// Temporary storage taken from an account in chunks.
pub struct TempLedger {
    node: usize,
    reservations: Vec<TempReservation>,
    reserved: u64,
    used: u64,
}

impl TempLedger {
    /// The node of the account that the ledger charges.
    pub closed spec fn at(&self) -> int {
        self.node as int
    }

    /// The bytes taken from the account.
    pub closed spec fn taken(&self) -> nat {
        self.reserved as nat
    }

    /// The bytes in use.
    pub closed spec fn in_use(&self) -> nat {
        self.used as nat
    }

    /// A ledger without charges.
    pub fn new(node: usize) -> (r: Self)
        ensures
            r.at() == node,
            r.taken() == 0,
            r.in_use() == 0,
    {
        TempLedger { node, reservations: Vec::new(), reserved: 0, used: 0 }
    }

    /// The bytes in use.
    pub fn used(&self) -> (r: u64)
        ensures
            r == self.in_use(),
    {
        self.used
    }

    /// Takes more bytes.
    pub fn reserve_additional(&mut self, account: &mut ResourceAccount, bytes: u64) -> (r: Result<
        (),
        ProofFrameError,
    >)
        requires
            old(account).wf(),
            old(self).at() < old(account).nodes().len(),
        ensures
            final(self).at() == old(self).at(),
            outcome(
                r,
                ledger_refusal(
                    *old(account),
                    old(self).at(),
                    ResourceKind::Temp,
                    "temporary storage"@,
                    old(account).spec_limits().max_temp_bytes,
                    old(self).taken(),
                    old(self).in_use(),
                    bytes,
                ),
            ),
            ledger_outcome(
                *old(account),
                *final(account),
                old(self).at(),
                ResourceKind::Temp,
                "temporary storage"@,
                old(account).spec_limits().max_temp_bytes,
                (old(self).taken(), final(self).taken()),
                (old(self).in_use(), final(self).in_use()),
                bytes,
                r,
            ),
    {
        let limit: u64 = account.limits().max_temp_bytes;
        match self.used.checked_add(bytes) {
            None => {
                return Err(
                    ProofFrameError::ResourceLimit {
                        resource: "temporary storage",
                        requested: bytes,
                        used: self.used,
                        limit,
                    },
                );
            },
            Some(total) => {
                self.used = total;
            },
        }
        if self.reserved >= self.used {
            return Ok(());
        }
        let charge: u64 = charge_of(self.reserved, self.used, limit);
        if charge > 0 {
            let held = account.try_reserve_temp(self.node, charge)?;
            self.reservations.push(held);
            self.reserved = self.reserved + charge;
        }
        if self.reserved < self.used {
            return Err(
                ProofFrameError::ResourceLimit {
                    resource: "temporary storage",
                    requested: bytes,
                    used: self.reserved,
                    limit,
                },
            );
        }
        Ok(())
    }
}

fn charge_of(reserved: u64, used: u64, limit: u64) -> (r: u64)
    requires
        reserved < used,
    ensures
        r == next_charge(reserved as nat, used as nat, limit as nat),
        reserved + r <= u64::MAX,
{
    let needed: u64 = used - reserved;
    let wanted: u64 = if needed > LEDGER_CHUNK_BYTES {
        needed
    } else {
        LEDGER_CHUNK_BYTES
    };
    let left: u64 = if limit > reserved {
        limit - reserved
    } else {
        0
    };
    if wanted < left {
        wanted
    } else {
        left
    }
}

/// The bytes of reservations.
pub open spec fn held_total(held: Seq<MemoryReservation>) -> int
    decreases held.len(),
{
    if held.len() == 0 {
        0
    } else {
        held_total(held.drop_last()) + held.last().charge().bytes()
    }
}

proof fn held_total_is_positive(held: Seq<MemoryReservation>)
    ensures
        held_total(held) >= 0,
    decreases held.len(),
{
    if held.len() > 0 {
        held_total_is_positive(held.drop_last());
    }
}

/// Memory taken from an account in chunks.
pub struct MemoryLedger {
    node: usize,
    reservations: Vec<MemoryReservation>,
    reserved: u64,
    used: u64,
}

impl MemoryLedger {
    /// The node of the account that the ledger charges.
    pub closed spec fn at(&self) -> int {
        self.node as int
    }

    /// The bytes taken from the account.
    pub closed spec fn taken(&self) -> nat {
        self.reserved as nat
    }

    /// The bytes in use.
    pub closed spec fn in_use(&self) -> nat {
        self.used as nat
    }

    /// The reservations of the ledger are those that it has taken, all at its node.
    pub closed spec fn wf(&self) -> bool {
        &&& held_total(self.reservations@) == self.reserved
        &&& forall|i: int|
            0 <= i < self.reservations@.len() ==> (#[trigger] self.reservations@[i]).charge().node()
                == self.node && self.reservations@[i].charge().kind() == ResourceKind::Memory
    }

    /// A ledger without charges.
    pub fn new(node: usize) -> (r: Self)
        ensures
            r.wf(),
            r.at() == node,
            r.taken() == 0,
            r.in_use() == 0,
    {
        MemoryLedger { node, reservations: Vec::new(), reserved: 0, used: 0 }
    }

    /// Takes more bytes.
    pub fn reserve_additional(&mut self, account: &mut ResourceAccount, bytes: u64) -> (r: Result<
        (),
        ProofFrameError,
    >)
        requires
            old(self).wf(),
            old(account).wf(),
            old(self).at() < old(account).nodes().len(),
        ensures
            final(self).wf(),
            final(self).at() == old(self).at(),
            outcome(
                r,
                ledger_refusal(
                    *old(account),
                    old(self).at(),
                    ResourceKind::Memory,
                    "diff partition memory"@,
                    old(account).spec_limits().max_memory_bytes,
                    old(self).taken(),
                    old(self).in_use(),
                    bytes,
                ),
            ),
            ledger_outcome(
                *old(account),
                *final(account),
                old(self).at(),
                ResourceKind::Memory,
                "diff partition memory"@,
                old(account).spec_limits().max_memory_bytes,
                (old(self).taken(), final(self).taken()),
                (old(self).in_use(), final(self).in_use()),
                bytes,
                r,
            ),
    {
        let limit: u64 = account.limits().max_memory_bytes;
        match self.used.checked_add(bytes) {
            None => {
                return Err(
                    ProofFrameError::ResourceLimit {
                        resource: "diff partition memory",
                        requested: bytes,
                        used: self.used,
                        limit,
                    },
                );
            },
            Some(total) => {
                self.used = total;
            },
        }
        if self.reserved >= self.used {
            return Ok(());
        }
        let charge: u64 = charge_of(self.reserved, self.used, limit);
        if charge > 0 {
            let held = account.try_reserve_memory(self.node, charge)?;
            let ghost before = self.reservations@;
            self.reservations.push(held);
            assert(self.reservations@.drop_last() =~= before);
            self.reserved = self.reserved + charge;
        }
        if self.reserved < self.used {
            return Err(
                ProofFrameError::ResourceLimit {
                    resource: "diff partition memory",
                    requested: bytes,
                    used: self.reserved,
                    limit,
                },
            );
        }
        Ok(())
    }

    /// Gives back all that was taken.
    pub fn close(self, account: &mut ResourceAccount)
        requires
            self.wf(),
            old(account).wf(),
            self.at() < old(account).nodes().len(),
        ensures
            final(account).wf(),
            final(account).spec_limits() == old(account).spec_limits(),
            released(
                old(account).nodes(),
                final(account).nodes(),
                self.at(),
                ResourceKind::Memory,
                self.taken() as int,
            ),
    {
        let node: usize = self.node;
        let mut held = self.reservations;
        let ghost start = account.nodes();
        let ghost whole = held@;
        let ghost total: int = self.reserved as int;
        proof {
            assert forall|k: int| #![trigger start[k]] 0 <= k < start.len() implies if on_path(
                start,
                node as int,
                k,
            ) {
                start[k].charged_as(
                    start[k],
                    ResourceKind::Memory,
                    less(start[k].used(ResourceKind::Memory) as int, 0),
                )
            } else {
                start[k] == start[k]
            } by {
                node_bounds(account, k, ResourceKind::Memory);
            }
        }
        while held.len() > 0
            invariant
                account.wf(),
                account.spec_limits() == old(account).spec_limits(),
                start == old(account).nodes(),
                node < start.len(),
                old(account).wf(),
                forall|i: int|
                    0 <= i < held@.len() ==> (#[trigger] held@[i]).charge().node() == node
                        && held@[i].charge().kind() == ResourceKind::Memory,
                0 <= held_total(held@) <= total,
                released(
                    start,
                    account.nodes(),
                    node as int,
                    ResourceKind::Memory,
                    total - held_total(held@),
                ),
            decreases held@.len(),
        {
            let ghost between = account.nodes();
            let ghost given = total - held_total(held@);
            let ghost before = held@;
            match held.pop() {
                Some(one) => {
                    assert(held@ =~= before.drop_last());
                    proof {
                        held_total_is_positive(held@);
                    }
                    account.release_memory(one);
                    proof {
                        assert forall|k: int| 0 <= k < start.len() implies (
                        #[trigger] start[k]).used(ResourceKind::Memory) <= start[k].peak(
                            ResourceKind::Memory,
                        ) by {
                            node_bounds(old(account), k, ResourceKind::Memory);
                        }
                        released_twice(
                            start,
                            between,
                            account.nodes(),
                            node as int,
                            ResourceKind::Memory,
                            given,
                            one.charge().bytes() as int,
                        );
                    }
                },
                None => {},
            }
        }
    }
}

/// A ledger of temporary storage that is the only one to charge the root of its account.
pub open spec fn sole(account: ResourceAccount, temp: TempLedger) -> bool {
    &&& account.wf()
    &&& temp.at() == 0
    &&& account.nodes()[0].used(ResourceKind::Temp) == temp.taken()
    &&& account.nodes()[0].cap(ResourceKind::Temp) == account.spec_limits().max_temp_bytes
}

/// The refusal of more bytes by a ledger of temporary storage.
pub open spec fn temp_refusal(account: ResourceAccount, temp: TempLedger, bytes: u64) -> Option<
    ErrorView,
> {
    ledger_refusal(
        account,
        temp.at(),
        ResourceKind::Temp,
        "temporary storage"@,
        account.spec_limits().max_temp_bytes,
        temp.taken(),
        temp.in_use(),
        bytes,
    )
}

/// The refusal of more bytes by a ledger of temporary storage that is the only one to charge
/// its account: what is in use would leave the numbers of the machine, or the limit.
pub open spec fn sole_refusal(used: nat, bytes: nat, limit: u64) -> Option<ErrorView> {
    if used + bytes > u64::MAX {
        Some(ledger_error("temporary storage"@, bytes as u64, used, limit))
    } else if used + bytes > limit {
        Some(ledger_error("temporary storage"@, bytes as u64, limit as nat, limit))
    } else {
        None
    }
}

/// The only ledger of an account gives bytes exactly up to the limit of the account, and
/// refuses with a resource limit.
pub proof fn sole_ledger_gives_its_limit(account: ResourceAccount, temp: TempLedger, bytes: u64)
    requires
        sole(account, temp),
    ensures
        temp_refusal(account, temp, bytes) is None <==> temp.in_use() + bytes
            <= account.spec_limits().max_temp_bytes,
        temp_refusal(account, temp, bytes) matches Some(e) ==> e is ResourceLimit,
        temp_refusal(account, temp, bytes) == sole_refusal(
            temp.in_use(),
            bytes as nat,
            account.spec_limits().max_temp_bytes,
        ),
{
    let kind = ResourceKind::Temp;
    let nodes = account.nodes();
    node_bounds(&account, 0, kind);
    let limit = account.spec_limits().max_temp_bytes as nat;
    let charge = next_charge(temp.taken(), (temp.in_use() + bytes) as nat, limit);
    assert(charge <= u64::MAX);
    assert(first_refusal(nodes, 0, kind, charge as u64) is None <==> nodes[0].fits(
        kind,
        charge as u64,
    ));
}

/// A ledger stays the only one of its account when more bytes are taken from it.
pub proof fn sole_ledger_stays(
    before: ResourceAccount,
    after: ResourceAccount,
    early: TempLedger,
    late: TempLedger,
    bytes: u64,
    r: Result<(), ProofFrameError>,
)
    requires
        sole(before, early),
        late.at() == early.at(),
        ledger_outcome(
            before,
            after,
            early.at(),
            ResourceKind::Temp,
            "temporary storage"@,
            before.spec_limits().max_temp_bytes,
            (early.taken(), late.taken()),
            (early.in_use(), late.in_use()),
            bytes,
            r,
        ),
    ensures
        sole(after, late),
        after.nodes().len() == before.nodes().len(),
{
    assert(on_path(before.nodes(), 0, 0));
}

} // verus!
