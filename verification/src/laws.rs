use crate::error::RegistryError;
use crate::fee::LedgerView;
use crate::registry::{
    cancel_transition, register_transition, remove_record_transition, renew_transition,
    set_record_transition, transfer_transition, update_transition, RegistryView,
};
use vstd::prelude::*;

verus! {

/// Uniqueness: after a successful registration of a name, a second
/// registration of the same name — by any caller, at any ordinal, against any
/// ledger — fails with `AlreadyExists`, until the name is cancelled.
pub proof fn lemma_registration_uniqueness(
    s: RegistryView,
    l: LedgerView,
    now: u64,
    caller: u64,
    name: Seq<char>,
    owner_info: Seq<char>,
    aliases: Seq<Seq<char>>,
    l2: LedgerView,
    now2: u64,
    caller2: u64,
    owner_info2: Seq<char>,
    aliases2: Seq<Seq<char>>,
)
    requires
        register_transition(s, l, now, caller, name, owner_info, aliases).2 is Ok,
    ensures
        ({
            let s1 = register_transition(s, l, now, caller, name, owner_info, aliases).0;
            register_transition(s1, l2, now2, caller2, name, owner_info2, aliases2).2 == Err::<
                (),
                RegistryError,
            >(RegistryError::AlreadyExists)
        }),
{
    let s1 = register_transition(s, l, now, caller, name, owner_info, aliases).0;
    assert(s1.domains.contains_key(name));
}

/// Ownership gating: every owner-gated operation invoked by a caller other
/// than the stored owner fails with `NotOwner` and leaves the whole state —
/// both tables and the event feed — unchanged. Renewal is deliberately absent
/// from this list: it is not owner-gated.
pub proof fn lemma_ownership_gating(
    s: RegistryView,
    owner: u64,
    caller: u64,
    name: Seq<char>,
    recipient: u64,
    owner_info: Seq<char>,
    aliases: Seq<Seq<char>>,
    record_type: Seq<char>,
    value: Seq<char>,
)
    requires
        s.domains.contains_key(name),
        s.domains[name].owner == owner,
        caller != owner,
    ensures
        transfer_transition(s, caller, name, recipient) == (
            s,
            Err::<(), RegistryError>(RegistryError::NotOwner),
        ),
        update_transition(s, caller, name, owner_info, aliases) == (
            s,
            Err::<(), RegistryError>(RegistryError::NotOwner),
        ),
        cancel_transition(s, caller, name) == (
            s,
            Err::<(), RegistryError>(RegistryError::NotOwner),
        ),
        set_record_transition(s, caller, name, record_type, value) == (
            s,
            Err::<(), RegistryError>(RegistryError::NotOwner),
        ),
        remove_record_transition(s, caller, name, record_type) == (
            s,
            Err::<(), RegistryError>(RegistryError::NotOwner),
        ),
{
}

/// Fee atomicity: when the fee withdrawal fails during registration or
/// renewal, the whole state — registry, ledger, and event feed — is exactly
/// what it was, and the call reports `InsufficientFunds`.
pub proof fn lemma_fee_atomicity(
    s: RegistryView,
    l: LedgerView,
    now: u64,
    caller: u64,
    name: Seq<char>,
    owner_info: Seq<char>,
    aliases: Seq<Seq<char>>,
    periods: u32,
)
    ensures
        !s.domains.contains_key(name) && !l.can_withdraw(caller, s.fee as int)
            ==> register_transition(s, l, now, caller, name, owner_info, aliases) == (
            s,
            l,
            Err::<(), RegistryError>(RegistryError::InsufficientFunds),
        ),
        s.domains.contains_key(name) && !l.can_withdraw(
            caller,
            (s.fee as int) * (periods as int),
        ) ==> renew_transition(s, l, caller, name, periods) == (
            s,
            l,
            Err::<(), RegistryError>(RegistryError::InsufficientFunds),
        ),
{
}

/// Renewal monotonicity: a successful renewal advances the stored expiry by
/// exactly `periods * expiry_period`, whatever the stored value was relative
/// to the current ordinal; with at least one period of nonzero length the
/// increase is strict. The arithmetic bound is the machine limit the
/// executable operation requires of its callers.
pub proof fn lemma_renewal_monotonic(
    s: RegistryView,
    l: LedgerView,
    caller: u64,
    name: Seq<char>,
    periods: u32,
)
    requires
        renew_transition(s, l, caller, name, periods).2 is Ok,
        (s.domains[name].expire as int) + (s.expiry_period as int) * (periods as int)
            <= u64::MAX,
    ensures
        ({
            let s1 = renew_transition(s, l, caller, name, periods).0;
            &&& s1.domains.contains_key(name)
            &&& s1.domains[name].expire == (s.domains[name].expire as int) + (
            s.expiry_period as int) * (periods as int)
            &&& (periods >= 1 && s.expiry_period >= 1) ==> s1.domains[name].expire
                > s.domains[name].expire
        }),
{
    let s1 = renew_transition(s, l, caller, name, periods).0;
    if periods >= 1 && s.expiry_period >= 1 {
        assert((s.expiry_period as int) * (periods as int) >= 1) by (nonlinear_arith)
            requires
                s.expiry_period >= 1,
                periods >= 1,
        ;
    }
}

/// Cancellation finality: after a successful cancellation the name is absent
/// from the domain table, and a registration of the same name behaves as on a
/// fresh name: it succeeds exactly when the fee can be withdrawn.
pub proof fn lemma_cancellation_finality(
    s: RegistryView,
    caller: u64,
    name: Seq<char>,
    l: LedgerView,
    now: u64,
    caller2: u64,
    owner_info: Seq<char>,
    aliases: Seq<Seq<char>>,
)
    requires
        cancel_transition(s, caller, name).1 is Ok,
    ensures
        ({
            let s1 = cancel_transition(s, caller, name).0;
            &&& !s1.domains.contains_key(name)
            &&& (register_transition(s1, l, now, caller2, name, owner_info, aliases).2 is Ok
                <==> l.can_withdraw(caller2, s1.fee as int))
        }),
{
}

} // verus!
