use crate::domain::{
    capped_aliases, strs_view, Domain, DomainView, RegistrationDetails, RegistrationDetailsView,
};
use crate::error::RegistryError;
use crate::event::{events_view, lemma_events_view_push, Event, EventView};
use crate::fee::{FeeLedger, LedgerView};
use crate::store::{DomainTable, RecordsTable};
use vstd::prelude::*;

verus! {

/// Mathematical model of the whole registry: its fixed configuration, the
/// two tables, and the feed of recorded events.
pub ghost struct RegistryView {
    /// Fixed fee per registration or renewal period.
    pub fee: u64,
    /// Fixed number of ordinals one paid period keeps a domain alive.
    pub expiry_period: u64,
    /// The domain table: name -> ownership record.
    pub domains: Map<Seq<char>, DomainView>,
    /// The records table: (name, record type) -> value.
    pub records: Map<(Seq<char>, Seq<char>), Seq<char>>,
    /// Events recorded so far, one per successful transition, in order.
    pub events: Seq<EventView>,
}

/// Every stored domain record is well-formed.
pub open spec fn domains_wf(m: Map<Seq<char>, DomainView>) -> bool {
    forall|k: Seq<char>| #[trigger] m.contains_key(k) ==> m[k].wf()
}

proof fn lemma_domains_wf_insert(m: Map<Seq<char>, DomainView>, k: Seq<char>, d: DomainView)
    requires
        domains_wf(m),
        d.wf(),
    ensures
        domains_wf(m.insert(k, d)),
{
    assert forall|x: Seq<char>| #[trigger] m.insert(k, d).contains_key(x) implies m.insert(
        k,
        d,
    )[x].wf() by {
        if x != k {
            assert(m.contains_key(x));
        }
    }
}

proof fn lemma_domains_wf_remove(m: Map<Seq<char>, DomainView>, k: Seq<char>)
    requires
        domains_wf(m),
    ensures
        domains_wf(m.remove(k)),
{
    assert forall|x: Seq<char>| #[trigger] m.remove(k).contains_key(x) implies m.remove(
        k,
    )[x].wf() by {
        assert(m.contains_key(x));
    }
}

impl RegistryView {
    /// State invariant: every stored record respects the alias capacity bound.
    pub open spec fn inv(self) -> bool {
        domains_wf(self.domains)
    }
}

/// The shared authorization gate: the result of looking a domain up and
/// comparing its stored owner to the caller. `NotFound` when the name is
/// absent, `NotOwner` on a mismatch, success otherwise.
pub open spec fn owner_gate(s: RegistryView, name: Seq<char>, caller: u64) -> Result<
    (),
    RegistryError,
> {
    if !s.domains.contains_key(name) {
        Err(RegistryError::NotFound)
    } else if s.domains[name].owner != caller {
        Err(RegistryError::NotOwner)
    } else {
        Ok(())
    }
}

/// Registration as a transition on (registry, ledger): rejected when the
/// name is taken or the fee cannot be withdrawn; otherwise the fee is
/// debited, the record inserted with `expire = now + expiry_period`, and a
/// `Registered` event recorded.
pub open spec fn register_transition(
    s: RegistryView,
    l: LedgerView,
    now: u64,
    caller: u64,
    name: Seq<char>,
    owner_info: Seq<char>,
    aliases: Seq<Seq<char>>,
) -> (RegistryView, LedgerView, Result<(), RegistryError>) {
    if s.domains.contains_key(name) {
        (s, l, Err(RegistryError::AlreadyExists))
    } else if !l.can_withdraw(caller, s.fee as int) {
        (s, l, Err(RegistryError::InsufficientFunds))
    } else {
        let expire = (now + s.expiry_period) as u64;
        let dom = DomainView {
            owner: caller,
            regist_details: RegistrationDetailsView {
                owner_info,
                domain_aliases: capped_aliases(aliases),
            },
            expire,
        };
        (
            RegistryView {
                domains: s.domains.insert(name, dom),
                events: s.events.push(EventView::Registered { name, owner: caller, expire }),
                ..s
            },
            l.withdrawn(caller, s.fee as int),
            Ok(()),
        )
    }
}

/// Ownership transfer as a transition: owner-gated; on success only the
/// owner field changes and an `OwnershipTransferred` event is recorded.
pub open spec fn transfer_transition(
    s: RegistryView,
    caller: u64,
    name: Seq<char>,
    recipient: u64,
) -> (RegistryView, Result<(), RegistryError>) {
    match owner_gate(s, name, caller) {
        Err(e) => (s, Err(e)),
        Ok(()) => (
            RegistryView {
                domains: s.domains.insert(
                    name,
                    DomainView { owner: recipient, ..s.domains[name] },
                ),
                events: s.events.push(
                    EventView::OwnershipTransferred { name, old_owner: caller, recipient },
                ),
                ..s
            },
            Ok(()),
        ),
    }
}

/// Renewal as a transition on (registry, ledger). Deliberately not
/// owner-gated: any caller may pay to keep a domain alive. On success the
/// expiry advances by `periods * expiry_period` from the stored value,
/// whether or not it already lies in the past.
pub open spec fn renew_transition(
    s: RegistryView,
    l: LedgerView,
    caller: u64,
    name: Seq<char>,
    periods: u32,
) -> (RegistryView, LedgerView, Result<(), RegistryError>) {
    if !s.domains.contains_key(name) {
        (s, l, Err(RegistryError::NotFound))
    } else if !l.can_withdraw(caller, (s.fee as int) * (periods as int)) {
        (s, l, Err(RegistryError::InsufficientFunds))
    } else {
        let new_expire = ((s.domains[name].expire as int) + (s.expiry_period as int) * (periods as int)) as u64;
        (
            RegistryView {
                domains: s.domains.insert(
                    name,
                    DomainView { expire: new_expire, ..s.domains[name] },
                ),
                events: s.events.push(EventView::Renewed { name, new_expire }),
                ..s
            },
            l.withdrawn(caller, (s.fee as int) * (periods as int)),
            Ok(()),
        )
    }
}

/// Details update as a transition: owner-gated; on success the registration
/// details are replaced wholesale (no merge) and a `RegistrationUpdated`
/// event is recorded.
pub open spec fn update_transition(
    s: RegistryView,
    caller: u64,
    name: Seq<char>,
    owner_info: Seq<char>,
    aliases: Seq<Seq<char>>,
) -> (RegistryView, Result<(), RegistryError>) {
    match owner_gate(s, name, caller) {
        Err(e) => (s, Err(e)),
        Ok(()) => (
            RegistryView {
                domains: s.domains.insert(
                    name,
                    DomainView {
                        regist_details: RegistrationDetailsView {
                            owner_info,
                            domain_aliases: capped_aliases(aliases),
                        },
                        ..s.domains[name]
                    },
                ),
                events: s.events.push(EventView::RegistrationUpdated { name }),
                ..s
            },
            Ok(()),
        ),
    }
}

/// Cancellation as a transition: owner-gated; on success the domain entry is
/// removed entirely and a `Cancelled` event is recorded. DNS records under
/// the name are deliberately left in place (a documented gap: they become
/// unreachable through the ownership gate until the name is registered again).
pub open spec fn cancel_transition(s: RegistryView, caller: u64, name: Seq<char>) -> (
    RegistryView,
    Result<(), RegistryError>,
) {
    match owner_gate(s, name, caller) {
        Err(e) => (s, Err(e)),
        Ok(()) => (
            RegistryView {
                domains: s.domains.remove(name),
                events: s.events.push(EventView::Cancelled { name, owner: caller }),
                ..s
            },
            Ok(()),
        ),
    }
}

/// Record upsert as a transition: owner-gated; on success the value is
/// created or overwritten and a `DnsRecordSet` event is recorded.
pub open spec fn set_record_transition(
    s: RegistryView,
    caller: u64,
    name: Seq<char>,
    record_type: Seq<char>,
    value: Seq<char>,
) -> (RegistryView, Result<(), RegistryError>) {
    match owner_gate(s, name, caller) {
        Err(e) => (s, Err(e)),
        Ok(()) => (
            RegistryView {
                records: s.records.insert((name, record_type), value),
                events: s.events.push(EventView::DnsRecordSet { name, record_type, value }),
                ..s
            },
            Ok(()),
        ),
    }
}

/// Record removal as a transition: owner-gated; once the caller is
/// authorized, removing an absent record is not an error. A
/// `DnsRecordRemoved` event is recorded.
pub open spec fn remove_record_transition(
    s: RegistryView,
    caller: u64,
    name: Seq<char>,
    record_type: Seq<char>,
) -> (RegistryView, Result<(), RegistryError>) {
    match owner_gate(s, name, caller) {
        Err(e) => (s, Err(e)),
        Ok(()) => (
            RegistryView {
                records: s.records.remove((name, record_type)),
                events: s.events.push(EventView::DnsRecordRemoved { name, record_type }),
                ..s
            },
            Ok(()),
        ),
    }
}

/// The registry engine: the two tables, the recorded event feed, and the
/// fixed fee and expiry-period configuration. Each operation is an atomic
/// transition: every precondition is checked before any mutation, so a
/// failing call leaves both the registry and the fee ledger untouched.
pub struct Registry {
    fee: u64,
    expiry_period: u64,
    domains: DomainTable,
    records: RecordsTable,
    events: Vec<Event>,
}

impl View for Registry {
    type V = RegistryView;

    closed spec fn view(&self) -> RegistryView {
        RegistryView {
            fee: self.fee,
            expiry_period: self.expiry_period,
            domains: self.domains@,
            records: self.records@,
            events: events_view(self.events@),
        }
    }
}

impl Registry {
    /// Well-formedness: both tables keep their keys unique and every stored
    /// record respects the alias capacity bound.
    pub closed spec fn wf(&self) -> bool {
        &&& self.domains.wf()
        &&& self.records.wf()
        &&& self@.inv()
    }

    /// An empty registry with the given fee per period and expiry period.
    pub fn new(fee: u64, expiry_period: u64) -> (r: Self)
        ensures
            r.wf(),
            r@ == (RegistryView {
                fee,
                expiry_period,
                domains: Map::<Seq<char>, DomainView>::empty(),
                records: Map::<(Seq<char>, Seq<char>), Seq<char>>::empty(),
                events: Seq::<EventView>::empty(),
            }),
    {
        let r = Registry {
            fee,
            expiry_period,
            domains: DomainTable::new(),
            records: RecordsTable::new(),
            events: Vec::new(),
        };
        proof {
            assert(events_view(r.events@) =~= Seq::<EventView>::empty());
        }
        r
    }

    /// The fixed fee per registration or renewal period.
    pub fn fee(&self) -> (r: u64)
        ensures
            r == self@.fee,
    {
        self.fee
    }

    /// The fixed number of ordinals one paid period covers.
    pub fn expiry_period(&self) -> (r: u64)
        ensures
            r == self@.expiry_period,
    {
        self.expiry_period
    }

    /// The shared ownership gate: `NotFound` if the name is absent,
    /// `NotOwner` if the caller is not the stored owner.
    fn check_owner(&self, name: &String, caller: u64) -> (r: Result<(), RegistryError>)
        requires
            self.wf(),
        ensures
            r == owner_gate(self@, name@, caller),
    {
        match self.domains.get(name) {
            None => Err(RegistryError::NotFound),
            Some(d) => {
                if d.owner != caller {
                    Err(RegistryError::NotOwner)
                } else {
                    Ok(())
                }
            },
        }
    }

    /// Registers `name` to `caller`, debiting the fixed registration fee.
    /// Fails with `AlreadyExists` on a taken name and with
    /// `InsufficientFunds` (and no state change) when the fee ledger cannot
    /// debit the caller. On success `expire = now + expiry_period`.
    pub fn register_domain(
        &mut self,
        ledger: &mut FeeLedger,
        now: u64,
        caller: u64,
        name: String,
        owner_info: String,
        domain_aliases: Vec<String>,
    ) -> (r: Result<(), RegistryError>)
        requires
            old(self).wf(),
            old(ledger).wf(),
            now + old(self)@.expiry_period <= u64::MAX,
        ensures
            final(self).wf(),
            final(ledger).wf(),
            r is Ok <==> !old(self)@.domains.contains_key(name@) && old(ledger)@.can_withdraw(
                caller,
                old(self)@.fee as int,
            ),
            ({
                let (s2, l2, res) = register_transition(
                    old(self)@,
                    old(ledger)@,
                    now,
                    caller,
                    name@,
                    owner_info@,
                    strs_view(domain_aliases@),
                );
                final(self)@ == s2 && final(ledger)@ == l2 && r == res
            }),
    {
        if self.domains.contains(&name) {
            return Err(RegistryError::AlreadyExists);
        }
        match ledger.withdraw(caller, self.fee) {
            Err(e) => {
                return Err(e);
            },
            Ok(()) => {},
        }
        let expire = now + self.expiry_period;
        let details = RegistrationDetails::new(owner_info, domain_aliases);
        let domain = Domain { owner: caller, regist_details: details, expire };
        let ghost dv = domain@;
        let ghost events0 = self.events@;
        let ghost namev = name@;
        self.domains.insert_new(name.clone(), domain);
        let event = Event::Registered { name, owner: caller, expire };
        let ghost eventg = event;
        self.events.push(event);
        proof {
            lemma_events_view_push(events0, eventg);
            lemma_domains_wf_insert(old(self)@.domains, namev, dv);
        }
        Ok(())
    }

    /// Transfers ownership of `name` from the calling owner to `recipient`.
    /// Owner-gated; no fee.
    pub fn transfer_ownership(&mut self, caller: u64, name: String, recipient: u64) -> (r: Result<
        (),
        RegistryError,
    >)
        requires
            old(self).wf(),
        ensures
            final(self).wf(),
            ({
                let (s2, res) = transfer_transition(old(self)@, caller, name@, recipient);
                final(self)@ == s2 && r == res
            }),
    {
        let owner = match self.domains.get(&name) {
            None => {
                return Err(RegistryError::NotFound);
            },
            Some(d) => d.owner,
        };
        if owner != caller {
            return Err(RegistryError::NotOwner);
        }
        let ghost events0 = self.events@;
        let ghost namev = name@;
        let ghost dv = DomainView { owner: recipient, ..old(self)@.domains[name@] };
        self.domains.set_owner(&name, recipient);
        let event = Event::OwnershipTransferred { name, old_owner: caller, recipient };
        let ghost eventg = event;
        self.events.push(event);
        proof {
            lemma_events_view_push(events0, eventg);
            lemma_domains_wf_insert(old(self)@.domains, namev, dv);
        }
        Ok(())
    }

    /// Renews `name` for `periods` paid periods, debiting
    /// `fee * periods` from the caller and advancing the stored expiry by
    /// `expiry_period * periods`. Deliberately not owner-gated: any caller
    /// may pay to keep a domain alive, and an already-passed expiry is
    /// extended from the stored value, not from the current ordinal.
    pub fn renew_registration(
        &mut self,
        ledger: &mut FeeLedger,
        caller: u64,
        name: String,
        periods: u32,
    ) -> (r: Result<(), RegistryError>)
        requires
            old(self).wf(),
            old(ledger).wf(),
            old(self)@.domains.contains_key(name@) ==> (old(self)@.fee as int) * (periods as int)
                <= u64::MAX && (old(self)@.domains[name@].expire as int) + (
            old(self)@.expiry_period as int) * (periods as int) <= u64::MAX,
        ensures
            final(self).wf(),
            final(ledger).wf(),
            r is Ok <==> old(self)@.domains.contains_key(name@) && old(ledger)@.can_withdraw(
                caller,
                (old(self)@.fee as int) * (periods as int),
            ),
            ({
                let (s2, l2, res) = renew_transition(
                    old(self)@,
                    old(ledger)@,
                    caller,
                    name@,
                    periods,
                );
                final(self)@ == s2 && final(ledger)@ == l2 && r == res
            }),
    {
        let expire = match self.domains.get(&name) {
            None => {
                return Err(RegistryError::NotFound);
            },
            Some(d) => d.expire,
        };
        let amount = self.fee * (periods as u64);
        match ledger.withdraw(caller, amount) {
            Err(e) => {
                return Err(e);
            },
            Ok(()) => {},
        }
        let new_expire = expire + self.expiry_period * (periods as u64);
        let ghost events0 = self.events@;
        let ghost namev = name@;
        let ghost dv = DomainView { expire: new_expire, ..old(self)@.domains[name@] };
        self.domains.set_expire(&name, new_expire);
        let event = Event::Renewed { name, new_expire };
        let ghost eventg = event;
        self.events.push(event);
        proof {
            lemma_events_view_push(events0, eventg);
            lemma_domains_wf_insert(old(self)@.domains, namev, dv);
        }
        Ok(())
    }

    /// Replaces the registration details of `name` wholesale. Owner-gated.
    pub fn update_registration(
        &mut self,
        caller: u64,
        name: String,
        owner_info: String,
        domain_aliases: Vec<String>,
    ) -> (r: Result<(), RegistryError>)
        requires
            old(self).wf(),
        ensures
            final(self).wf(),
            ({
                let (s2, res) = update_transition(
                    old(self)@,
                    caller,
                    name@,
                    owner_info@,
                    strs_view(domain_aliases@),
                );
                final(self)@ == s2 && r == res
            }),
    {
        let owner = match self.domains.get(&name) {
            None => {
                return Err(RegistryError::NotFound);
            },
            Some(d) => d.owner,
        };
        if owner != caller {
            return Err(RegistryError::NotOwner);
        }
        let details = RegistrationDetails::new(owner_info, domain_aliases);
        let ghost events0 = self.events@;
        let ghost namev = name@;
        let ghost dv = DomainView { regist_details: details@, ..old(self)@.domains[name@] };
        self.domains.set_details(&name, details);
        let event = Event::RegistrationUpdated { name };
        let ghost eventg = event;
        self.events.push(event);
        proof {
            lemma_events_view_push(events0, eventg);
            lemma_domains_wf_insert(old(self)@.domains, namev, dv);
        }
        Ok(())
    }

    /// Removes `name` from the registry entirely. Owner-gated. DNS records
    /// under the name are deliberately not removed.
    pub fn cancel_domain(&mut self, caller: u64, name: String) -> (r: Result<(), RegistryError>)
        requires
            old(self).wf(),
        ensures
            final(self).wf(),
            ({
                let (s2, res) = cancel_transition(old(self)@, caller, name@);
                final(self)@ == s2 && r == res
            }),
    {
        let owner = match self.domains.get(&name) {
            None => {
                return Err(RegistryError::NotFound);
            },
            Some(d) => d.owner,
        };
        if owner != caller {
            return Err(RegistryError::NotOwner);
        }
        let ghost events0 = self.events@;
        let ghost namev = name@;
        self.domains.remove(&name);
        let event = Event::Cancelled { name, owner: caller };
        let ghost eventg = event;
        self.events.push(event);
        proof {
            lemma_events_view_push(events0, eventg);
            lemma_domains_wf_remove(old(self)@.domains, namev);
        }
        Ok(())
    }

    /// Creates or overwrites the DNS record (name, record_type). Owner-gated
    /// through the domain table.
    pub fn add_update_dns_record(
        &mut self,
        caller: u64,
        name: String,
        record_type: String,
        value: String,
    ) -> (r: Result<(), RegistryError>)
        requires
            old(self).wf(),
        ensures
            final(self).wf(),
            ({
                let (s2, res) = set_record_transition(
                    old(self)@,
                    caller,
                    name@,
                    record_type@,
                    value@,
                );
                final(self)@ == s2 && r == res
            }),
    {
        match self.check_owner(&name, caller) {
            Err(e) => {
                return Err(e);
            },
            Ok(()) => {},
        }
        let ghost events0 = self.events@;
        self.records.upsert(name.clone(), record_type.clone(), value.clone());
        let event = Event::DnsRecordSet { name, record_type, value };
        let ghost eventg = event;
        self.events.push(event);
        proof {
            lemma_events_view_push(events0, eventg);
        }
        Ok(())
    }

    /// Removes the DNS record (name, record_type) if present. Owner-gated
    /// through the domain table; removing an absent record is not an error.
    pub fn remove_dns_record(&mut self, caller: u64, name: String, record_type: String) -> (r:
        Result<(), RegistryError>)
        requires
            old(self).wf(),
        ensures
            final(self).wf(),
            ({
                let (s2, res) = remove_record_transition(old(self)@, caller, name@, record_type@);
                final(self)@ == s2 && r == res
            }),
    {
        match self.check_owner(&name, caller) {
            Err(e) => {
                return Err(e);
            },
            Ok(()) => {},
        }
        let ghost events0 = self.events@;
        self.records.remove(&name, &record_type);
        let event = Event::DnsRecordRemoved { name, record_type };
        let ghost eventg = event;
        self.events.push(event);
        proof {
            lemma_events_view_push(events0, eventg);
        }
        Ok(())
    }

    /// Whether `name` is currently registered.
    pub fn contains_domain(&self, name: &String) -> (r: bool)
        requires
            self.wf(),
        ensures
            r == self@.domains.contains_key(name@),
    {
        self.domains.contains(name)
    }

    /// Point lookup of the domain record for `name`.
    pub fn get_domain(&self, name: &String) -> (r: Option<&Domain>)
        requires
            self.wf(),
        ensures
            match r {
                Some(d) => self@.domains.contains_key(name@) && d@ == self@.domains[name@],
                None => !self@.domains.contains_key(name@),
            },
    {
        self.domains.get(name)
    }

    /// Point lookup of the DNS record stored under (name, record_type).
    pub fn get_dns_record(&self, name: &String, record_type: &String) -> (r: Option<&String>)
        requires
            self.wf(),
        ensures
            match r {
                Some(v) => self@.records.contains_key((name@, record_type@)) && v@ == self@.records[
                    (name@, record_type@)
                ],
                None => !self@.records.contains_key((name@, record_type@)),
            },
    {
        self.records.get(name, record_type)
    }

    /// The events recorded so far, in order.
    pub fn events(&self) -> (r: &Vec<Event>)
        ensures
            events_view(r@) == self@.events,
    {
        &self.events
    }
}

} // verus!
